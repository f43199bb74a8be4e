//! The decisions of the PDF ingestion run: which step comes next for which page,
//! when the run stops, and whether it ended well. The caller performs each step
//! (rendering, the vision model, the database) and reports how it went.

use std::sync::atomic::AtomicBool;
use std::sync::Arc;
use vstd::prelude::*;

verus! {

/// Where a run stands.
#[derive(PartialEq, Eq, Structural, Clone, Copy)]
pub enum Stage {
    /// About to start `page` (checks for cancellation first).
    PageStart,
    /// `page` is being rendered to PNG.
    Render,
    /// The rendered `page` is being transcribed to LaTeX.
    Transcribe,
    /// The LaTeX of `page` is being stored.
    StoreLatex,
    /// Concepts of `page` are being extracted and stored.
    Concepts,
    /// `page` is complete.
    PageDone,
    /// The run is over.
    Finished,
}

/// What the caller does next.
#[derive(PartialEq, Eq, Structural, Clone, Copy)]
pub enum IngestAction {
    /// Report phase `render`, render `page` to PNG and read it.
    Render { page: i32 },
    /// Report phase `vision` and transcribe the image of `page`.
    Transcribe { page: i32 },
    /// Store the LaTeX of `page`.
    StoreLatex { page: i32 },
    /// Report phase `concepts`, extract the concepts of `page` and store them
    /// (failures are reported as warnings).
    ExtractConcepts { page: i32 },
    /// Report phase `page_done` for `page`.
    PageDone { page: i32 },
    /// Report phase `cancelled` at `page` when set, clear the cancel flag, and
    /// report the end of the run with `ok`.
    Finish { ok: bool, cancelled_at: Option<i32> },
}

/// The state of an ingestion run over pages `1..=total`.
pub struct IngestRun {
    pub total: i32,
    pub page: i32,
    pub stage: Stage,
    pub skip_concepts: bool,
}

pub open spec fn wf(r: IngestRun) -> bool {
    &&& 0 <= r.total
    &&& 1 <= r.page
    &&& r.stage != Stage::Finished ==> r.page <= r.total
    &&& r.stage == Stage::Finished ==> r.page <= r.total + 1
}

/// Steps left before the run is over, at most.
pub open spec fn remaining(r: IngestRun) -> int {
    let per_stage: int = match r.stage {
        Stage::PageStart => 6,
        Stage::Render => 5,
        Stage::Transcribe => 4,
        Stage::StoreLatex => 3,
        Stage::Concepts => 2,
        Stage::PageDone => 1,
        Stage::Finished => 0,
    };
    if r.stage == Stage::Finished {
        0
    } else {
        per_stage + 6 * (r.total - r.page) + 1
    }
}

/// `r` at another stage of the same page.
pub open spec fn with_stage(r: IngestRun, s: Stage) -> IngestRun {
    IngestRun { total: r.total, page: r.page, stage: s, skip_concepts: r.skip_concepts }
}

/// The next state and action, given how the last action went (`succeeded`) and
/// whether cancellation has been requested.
pub open spec fn next_spec(r: IngestRun, succeeded: bool, cancel: bool) -> (IngestRun, IngestAction) {
    match r.stage {
        Stage::PageStart => if cancel {
            (with_stage(r, Stage::Finished), IngestAction::Finish { ok: false, cancelled_at: Some((r.page - 1) as i32) })
        } else {
            (with_stage(r, Stage::Render), IngestAction::Render { page: r.page })
        },
        Stage::Render => if succeeded {
            (with_stage(r, Stage::Transcribe), IngestAction::Transcribe { page: r.page })
        } else {
            (with_stage(r, Stage::Finished), IngestAction::Finish { ok: false, cancelled_at: None })
        },
        Stage::Transcribe => if succeeded {
            (with_stage(r, Stage::StoreLatex), IngestAction::StoreLatex { page: r.page })
        } else {
            (with_stage(r, Stage::Finished), IngestAction::Finish { ok: false, cancelled_at: None })
        },
        Stage::StoreLatex => if !succeeded {
            (with_stage(r, Stage::Finished), IngestAction::Finish { ok: false, cancelled_at: None })
        } else if r.skip_concepts {
            (with_stage(r, Stage::PageDone), IngestAction::PageDone { page: r.page })
        } else {
            (with_stage(r, Stage::Concepts), IngestAction::ExtractConcepts { page: r.page })
        },
        Stage::Concepts => (with_stage(r, Stage::PageDone), IngestAction::PageDone { page: r.page }),
        Stage::PageDone => if r.page < r.total {
            let nr = IngestRun {
                total: r.total,
                page: (r.page + 1) as i32,
                stage: Stage::PageStart,
                skip_concepts: r.skip_concepts,
            };
            if cancel {
                (
                    IngestRun { stage: Stage::Finished, ..nr },
                    IngestAction::Finish { ok: false, cancelled_at: Some(r.page) },
                )
            } else {
                (IngestRun { stage: Stage::Render, ..nr }, IngestAction::Render { page: (r.page + 1) as i32 })
            }
        } else {
            (with_stage(r, Stage::Finished), IngestAction::Finish { ok: true, cancelled_at: None })
        },
        Stage::Finished => (r, IngestAction::Finish { ok: true, cancelled_at: None }),
    }
}

impl IngestRun {
    /// A run over `total` pages; `skip_concepts` leaves out concept extraction.
    pub fn new(total: i32, skip_concepts: bool) -> (r: IngestRun)
        requires
            total >= 0,
        ensures
            wf(r),
            r.total == total && r.page == 1 && r.skip_concepts == skip_concepts,
            r.stage == (if total == 0 { Stage::Finished } else { Stage::PageStart }),
    {
        IngestRun {
            total,
            page: 1,
            stage: if total == 0 {
                Stage::Finished
            } else {
                Stage::PageStart
            },
            skip_concepts,
        }
    }

    /// The first action of the run: the first page, unless the run is cancelled
    /// already or there are no pages.
    pub fn start(&mut self, cancel: bool) -> (a: IngestAction)
        requires
            wf(*old(self)),
            old(self).stage == Stage::PageStart || old(self).stage == Stage::Finished,
        ensures
            wf(*final(self)),
            old(self).stage == Stage::Finished ==> *final(self) == *old(self) && a
                == (IngestAction::Finish { ok: true, cancelled_at: None }),
            old(self).stage == Stage::PageStart ==> (*final(self), a) == next_spec(
                *old(self),
                true,
                cancel,
            ),
    {
        if self.stage == Stage::Finished {
            return IngestAction::Finish { ok: true, cancelled_at: None };
        }
        self.step(true, cancel)
    }

    /// Advances the run: `succeeded` says how the last action went, `cancel` whether
    /// cancellation has been requested (it matters only when a page is about to start).
    pub fn step(&mut self, succeeded: bool, cancel: bool) -> (a: IngestAction)
        requires
            wf(*old(self)),
        ensures
            wf(*final(self)),
            (*final(self), a) == next_spec(*old(self), succeeded, cancel),
            old(self).stage != Stage::Finished ==> remaining(*final(self)) < remaining(*old(self)),
    {
        let page = self.page;
        match self.stage {
            Stage::PageStart => {
                if cancel {
                    self.stage = Stage::Finished;
                    IngestAction::Finish { ok: false, cancelled_at: Some(page - 1) }
                } else {
                    self.stage = Stage::Render;
                    IngestAction::Render { page }
                }
            },
            Stage::Render => {
                if succeeded {
                    self.stage = Stage::Transcribe;
                    IngestAction::Transcribe { page }
                } else {
                    self.stage = Stage::Finished;
                    IngestAction::Finish { ok: false, cancelled_at: None }
                }
            },
            Stage::Transcribe => {
                if succeeded {
                    self.stage = Stage::StoreLatex;
                    IngestAction::StoreLatex { page }
                } else {
                    self.stage = Stage::Finished;
                    IngestAction::Finish { ok: false, cancelled_at: None }
                }
            },
            Stage::StoreLatex => {
                if !succeeded {
                    self.stage = Stage::Finished;
                    IngestAction::Finish { ok: false, cancelled_at: None }
                } else if self.skip_concepts {
                    self.stage = Stage::PageDone;
                    IngestAction::PageDone { page }
                } else {
                    self.stage = Stage::Concepts;
                    IngestAction::ExtractConcepts { page }
                }
            },
            Stage::Concepts => {
                self.stage = Stage::PageDone;
                IngestAction::PageDone { page }
            },
            Stage::PageDone => {
                if page < self.total {
                    self.page = page + 1;
                    if cancel {
                        self.stage = Stage::Finished;
                        IngestAction::Finish { ok: false, cancelled_at: Some(page) }
                    } else {
                        self.stage = Stage::Render;
                        IngestAction::Render { page: page + 1 }
                    }
                } else {
                    self.stage = Stage::Finished;
                    IngestAction::Finish { ok: true, cancelled_at: None }
                }
            },
            Stage::Finished => IngestAction::Finish { ok: true, cancelled_at: None },
        }
    }
}

/// A failed render, transcription or store ends the run, not successfully.
pub proof fn law_failure_stops_run(r: IngestRun, cancel: bool)
    requires
        wf(r),
        r.stage == Stage::Render || r.stage == Stage::Transcribe || r.stage == Stage::StoreLatex,
    ensures
        next_spec(r, false, cancel).0.stage == Stage::Finished,
        next_spec(r, false, cancel).1 == (IngestAction::Finish { ok: false, cancelled_at: None }),
{
}

/// A failed concept extraction does not stop the run: the page still completes.
pub proof fn law_concept_failure_is_a_warning(r: IngestRun, succeeded: bool, cancel: bool)
    requires
        wf(r),
        r.stage == Stage::Concepts,
    ensures
        next_spec(r, succeeded, cancel).1 == (IngestAction::PageDone { page: r.page }),
{
}

/// Cancellation before a page stops the run, not successfully, reporting the last
/// page begun.
pub proof fn law_cancel_stops_before_next_page(r: IngestRun)
    requires
        wf(r),
        r.stage == Stage::PageStart || (r.stage == Stage::PageDone && r.page < r.total),
    ensures
        next_spec(r, true, true).0.stage == Stage::Finished,
        next_spec(r, true, true).1 matches IngestAction::Finish { ok, cancelled_at } && !ok
            && cancelled_at == Some(
            (if r.stage == Stage::PageStart {
                r.page - 1
            } else {
                r.page as int
            }) as i32,
        ),
{
}

/// Pages are visited in order: the page after `PageDone` of page `p` is `p + 1`,
/// and the run ends well only after the last page is done.
pub proof fn law_pages_in_order(r: IngestRun, succeeded: bool)
    requires
        wf(r),
        r.stage == Stage::PageDone,
    ensures
        r.page < r.total ==> next_spec(r, succeeded, false).1 == (IngestAction::Render {
            page: (r.page + 1) as i32,
        }),
        r.page == r.total ==> next_spec(r, succeeded, false).1 == (IngestAction::Finish {
            ok: true,
            cancelled_at: None,
        }),
{
}

/// Every run ends: each step before the end brings the end closer, by at most
/// `6 * total + 7` steps in all.
pub proof fn law_run_terminates(r: IngestRun, succeeded: bool, cancel: bool)
    requires
        wf(r),
        r.stage != Stage::Finished,
    ensures
        0 <= remaining(next_spec(r, succeeded, cancel).0) < remaining(r) <= 6 * r.total + 7,
{
}


/// Shared flags of the ingestion: a cancel request, and whether a run is under way
/// (so that only one runs at a time).
pub struct IngestState {
    pub cancel: Arc<AtomicBool>,
    pub busy: Arc<AtomicBool>,
}

impl IngestState {
    /// Both flags down.
    pub fn new() -> (r: IngestState) {
        IngestState { cancel: Arc::new(AtomicBool::new(false)), busy: Arc::new(AtomicBool::new(false)) }
    }
}

/// ASCII lower case of a character.
pub open spec fn ascii_lower(c: char) -> char {
    if 'A' <= c <= 'Z' {
        ((c as u32) + 32) as char
    } else {
        c
    }
}

/// `str::eq_ignore_ascii_case`.
pub open spec fn eq_ignore_ascii_case(a: Seq<char>, b: Seq<char>) -> bool {
    a.len() == b.len() && forall|i: int| 0 <= i < a.len() ==> ascii_lower(#[trigger] a[i]) == ascii_lower(b[i])
}

/// Whether `MATH_TEACHER_SKIP_CONCEPTS` asks to skip concept extraction: `1`, or
/// `true` in any ASCII case.
pub open spec fn skip_flag(value: Option<Seq<char>>) -> bool {
    match value {
        Some(v) => v == seq!['1'] || eq_ignore_ascii_case(v, seq!['t', 'r', 'u', 'e']),
        None => false,
    }
}

fn lower_char(c: char) -> (r: char)
    ensures
        r == ascii_lower(c),
{
    if 'A' <= c && c <= 'Z' {
        let u = (c as u32) + 32;
        let d = u as u8;
        d as char
    } else {
        c
    }
}

/// Reads the value of `MATH_TEACHER_SKIP_CONCEPTS` (`None` when unset).
pub fn skip_concepts_flag(value: &Option<String>) -> (r: bool)
    ensures
        r == skip_flag(
            match value {
                Some(v) => Some(v@),
                None => None,
            },
        ),
{
    match value {
        None => false,
        Some(v) => {
            let cs = crate::text::to_chars(v.as_str());
            if cs.len() == 1 && cs[0] == '1' {
                assert(cs@ =~= seq!['1']);
                return true;
            }
            let t = vec!['t', 'r', 'u', 'e'];
            if cs.len() != 4 {
                assert(!(cs@ =~= seq!['1']));
                return false;
            }
            assert(t@ =~= seq!['t', 'r', 'u', 'e']);
            let mut i: usize = 0;
            while i < 4
                invariant
                    i <= 4,
                    cs.len() == 4,
                    cs@ == v@,
                    *value == Some(*v),
                    t@ == seq!['t', 'r', 'u', 'e'],
                    forall|j: int| 0 <= j < i ==> ascii_lower(#[trigger] cs@[j]) == ascii_lower(t@[j]),
                decreases 4 - i,
            {
                if lower_char(cs[i]) != lower_char(t[i]) {
                    assert(!(cs@ =~= seq!['1']));
                    assert(ascii_lower(cs@[i as int]) != ascii_lower(seq!['t', 'r', 'u', 'e'][i as int]));

                    return false;
                }
                i += 1;
            }
            true
        },
    }
}

} // verus!
