use bourbaki::turn::{turn_step, TurnAction, TurnEvent, TurnState};

fn pair(r: &str, c: &str) -> (String, String) {
    (r.to_string(), c.to_string())
}

#[test]
fn blank_question_is_refused() {
    let (_, a) = TurnState::open(" \n\t", true);
    match a {
        TurnAction::Fail(m) => assert_eq!(m, "空のメッセージは送れません"),
        _ => panic!("expected a refusal"),
    }
}

#[test]
fn free_question_searches_the_book_and_stores_the_pair() {
    let (mut s, a) = TurnState::open("  what is a group? ", false);
    match a {
        TurnAction::Normalize { question } => assert_eq!(question, "what is a group?"),
        _ => panic!("expected normalization"),
    }
    // A failed normalization keeps the trimmed question.
    assert!(matches!(turn_step(&mut s, TurnEvent::Normalized(Err("down".into()))), TurnAction::ReadSession));
    let a = turn_step(
        &mut s,
        TurnEvent::SessionRead { selection_latex: Some("  ".into()), history: vec![pair("user", "hi")], total_tokens: 10 },
    );
    match a {
        TurnAction::RetrievePages { query } => assert_eq!(query, "what is a group?"),
        _ => panic!("a free question searches the book"),
    }
    let a = turn_step(&mut s, TurnEvent::Retrieved("=== ページ1 ===\nG\n\n".into()));
    assert!(matches!(a, TurnAction::RecallMemory { .. }));
    match turn_step(&mut s, TurnEvent::Recalled(None)) {
        TurnAction::Reply { selection_latex, rag_context, memory, history, question } => {
            assert_eq!(selection_latex, None);
            assert_eq!(rag_context, Some("=== ページ1 ===\nG\n\n".to_string()));
            assert_eq!(memory, None);
            assert_eq!(history, vec![pair("user", "hi")]);
            assert_eq!(question, "what is a group?");
        },
        _ => panic!("expected the reply request"),
    }
    // Without thinking there is no review.
    match turn_step(&mut s, TurnEvent::Replied(Ok("A group is…".into()))) {
        TurnAction::Store { user, assistant } => {
            assert_eq!(user, "what is a group?");
            assert_eq!(assistant, "A group is…");
        },
        _ => panic!("expected storage"),
    }
}

#[test]
fn selection_question_with_long_history_and_review() {
    let (mut s, _) = TurnState::open("why?", true);
    turn_step(&mut s, TurnEvent::Normalized(Ok("why is x^2 >= 0?".into())));
    let a = turn_step(
        &mut s,
        TurnEvent::SessionRead { selection_latex: Some("x^2".into()), history: vec![], total_tokens: 7000 },
    );
    match a {
        TurnAction::RecallMemory { query } => assert_eq!(query, "why is x^2 >= 0?"),
        _ => panic!("a selection question does not search the book"),
    }
    assert!(matches!(turn_step(&mut s, TurnEvent::Recalled(Some("- m".into()))), TurnAction::ListMessages));
    let all: Vec<(i64, String, String)> =
        (1..=8).map(|i| (i as i64, "user".to_string(), format!("m{i}"))).collect();
    match turn_step(&mut s, TurnEvent::Listed(all)) {
        TurnAction::Compress(plan) => {
            assert_eq!(plan.ids, vec![1, 2]);
            assert_eq!(plan.recent.len(), 6);
        },
        _ => panic!("more than six messages over the limit are compressed"),
    }
    match turn_step(&mut s, TurnEvent::Compressed(Some("S".into()))) {
        TurnAction::Reply { selection_latex, rag_context, memory, history, .. } => {
            assert_eq!(selection_latex, Some("x^2".to_string()));
            assert_eq!(rag_context, None);
            assert_eq!(memory, Some("- m".to_string()));
            assert_eq!(history.len(), 7);
            assert_eq!(history[0], pair("assistant", "【会話圧縮サマリー】\nS"));
        },
        _ => panic!("expected the reply request"),
    }
    match turn_step(&mut s, TurnEvent::Replied(Ok("a".into()))) {
        TurnAction::Review { reply, context } => {
            assert_eq!(reply, "a");
            assert_eq!(context, "x^2");
        },
        _ => panic!("thinking asks for a review"),
    }
    assert!(matches!(
        turn_step(&mut s, TurnEvent::Reviewed(Some((false, "b".into())))),
        TurnAction::Review { .. }
    ));
    match turn_step(&mut s, TurnEvent::Reviewed(Some((false, "c".into())))) {
        TurnAction::Store { user, assistant } => {
            assert_eq!(user, "why?");
            assert_eq!(assistant, "c");
        },
        _ => panic!("two reviews at most"),
    }
    assert!(s.corrected);
}

#[test]
fn few_messages_are_not_compressed_and_failures_end_the_turn() {
    let (mut s, _) = TurnState::open("q", true);
    turn_step(&mut s, TurnEvent::Normalized(Ok("q".into())));
    turn_step(&mut s, TurnEvent::SessionRead { selection_latex: None, history: vec![], total_tokens: 9000 });
    turn_step(&mut s, TurnEvent::Retrieved(String::new()));
    turn_step(&mut s, TurnEvent::Recalled(None));
    let all: Vec<(i64, String, String)> = (1..=6).map(|i| (i, "user".to_string(), "m".to_string())).collect();
    match turn_step(&mut s, TurnEvent::Listed(all)) {
        TurnAction::Reply { rag_context, .. } => assert_eq!(rag_context, None),
        _ => panic!("six messages are kept as they are"),
    }
    match turn_step(&mut s, TurnEvent::Replied(Err("boom".into()))) {
        TurnAction::Fail(m) => assert_eq!(m, "boom"),
        _ => panic!("a failed reply ends the turn"),
    }
    match turn_step(&mut s, TurnEvent::Retrieved(String::new())) {
        TurnAction::Fail(m) => assert_eq!(m, "unexpected event for this turn"),
        _ => panic!("a finished turn takes no more events"),
    }
}

#[test]
fn accepted_review_keeps_the_reply() {
    let (mut s, _) = TurnState::open("q", true);
    turn_step(&mut s, TurnEvent::Normalized(Ok("q".into())));
    turn_step(&mut s, TurnEvent::SessionRead { selection_latex: None, history: vec![], total_tokens: 0 });
    turn_step(&mut s, TurnEvent::Retrieved("ctx".into()));
    turn_step(&mut s, TurnEvent::Recalled(None));
    match turn_step(&mut s, TurnEvent::Replied(Ok("a".into()))) {
        TurnAction::Review { context, .. } => assert_eq!(context, "ctx"),
        _ => panic!("expected a review"),
    }
    match turn_step(&mut s, TurnEvent::Reviewed(Some((true, "ignored".into())))) {
        TurnAction::Store { assistant, .. } => assert_eq!(assistant, "a"),
        _ => panic!("an accepted reply is stored"),
    }
    assert!(!s.corrected);
}
