use bourbaki::ingest::{IngestAction, IngestRun};

fn run(total: i32, skip: bool, fail_at: Option<(i32, u8)>, cancel_at: Option<i32>) -> Vec<String> {
    let mut r = IngestRun::new(total, skip);
    let mut log = vec![];
    let mut a = r.start(cancel_at == Some(1));
    loop {
        let (ok, page) = match a {
            IngestAction::Render { page } => { log.push(format!("render {page}")); (fail_at != Some((page, 0)), page) }
            IngestAction::Transcribe { page } => { log.push(format!("vision {page}")); (fail_at != Some((page, 1)), page) }
            IngestAction::StoreLatex { page } => { log.push(format!("store {page}")); (fail_at != Some((page, 2)), page) }
            IngestAction::ExtractConcepts { page } => { log.push(format!("concepts {page}")); (fail_at != Some((page, 3)), page) }
            IngestAction::PageDone { page } => { log.push(format!("done {page}")); (true, page) }
            IngestAction::Finish { ok, cancelled_at } => {
                log.push(format!("finish {ok} {cancelled_at:?}"));
                return log;
            }
        };
        a = r.step(ok, cancel_at == Some(page + 1));
    }
}

#[test]
fn two_pages_with_concepts() {
    assert_eq!(
        run(2, false, None, None),
        vec!["render 1", "vision 1", "store 1", "concepts 1", "done 1", "render 2", "vision 2", "store 2", "concepts 2", "done 2", "finish true None"]
    );
}

#[test]
fn skipping_concepts() {
    assert_eq!(run(1, true, None, None), vec!["render 1", "vision 1", "store 1", "done 1", "finish true None"]);
}

#[test]
fn no_pages() {
    assert_eq!(run(0, false, None, None), vec!["finish true None"]);
}

#[test]
fn failed_transcription_stops() {
    assert_eq!(run(3, true, Some((2, 1)), None), vec!["render 1", "vision 1", "store 1", "done 1", "render 2", "vision 2", "finish false None"]);
}

#[test]
fn failed_concepts_only_warn() {
    assert_eq!(run(1, false, Some((1, 3)), None), vec!["render 1", "vision 1", "store 1", "concepts 1", "done 1", "finish true None"]);
}

#[test]
fn cancel_before_second_page() {
    assert_eq!(run(3, true, None, Some(2)), vec!["render 1", "vision 1", "store 1", "done 1", "finish false Some(1)"]);
    assert_eq!(run(3, true, None, Some(1)), vec!["finish false Some(0)"]);
}
