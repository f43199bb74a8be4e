//! One question in a tutoring session, as a state machine: each event (what the
//! model, the store or the embedder answered) gives the next state and the next
//! action to perform. The caller performs the actions and reports the events.
//!
//! The turn normalizes the question, reads the session, searches the book (only
//! for a question without a selection), recalls earlier sessions, compresses a
//! long history, asks for the reply, has it reviewed (only with thinking on, at
//! most twice) and ends by storing the question and the reply.

use vstd::prelude::*;

use crate::chatgpt_session::opt_view;
use crate::session::{
    compressed_history, is_selection_mode, normalize_user_text, pair_view, plan_compression,
    selection_mode, CompressionPlan,
};
use crate::text::trim;

verus! {

/// Estimated tokens of history above which the older messages are summarized.
pub const COMPRESSION_THRESHOLD_TOKENS: usize = 6000;

/// Where a turn stands: what it waits for.
#[derive(Clone, Copy)]
pub enum TurnStage {
    Normalizing,
    ReadingSession,
    Retrieving,
    Recalling,
    Listing,
    Compressing,
    Replying,
    Reviewing,
    Done,
}

/// What the caller reports back after performing an action.
pub enum TurnEvent {
    /// The normalized question, or the normalizer's error.
    Normalized(Result<String, String>),
    /// The session's selected LaTeX, its history, and the history's estimated tokens.
    SessionRead { selection_latex: Option<String>, history: Vec<(String, String)>, total_tokens: usize },
    /// The context assembled from the pages found (empty when the search failed).
    Retrieved(String),
    /// The summaries of earlier sessions found, if any.
    Recalled(Option<String>),
    /// The stored messages of the session with their ids, oldest first.
    Listed(Vec<(i64, String, String)>),
    /// The summary of the older messages, or `None` when summarizing failed.
    Compressed(Option<String>),
    /// The reply, or the error that ends the turn.
    Replied(Result<String, String>),
    /// The outcome of checking the reply: accepted, or a corrected reply; `None` when the check failed.
    Reviewed(Option<(bool, String)>),
}

/// What the caller is asked to do next.
pub enum TurnAction {
    /// Normalize the (trimmed) question.
    Normalize { question: String },
    /// Read the session and its history.
    ReadSession,
    /// Search the book's pages for the question.
    RetrievePages { query: String },
    /// Search the memories of earlier sessions for the question.
    RecallMemory { query: String },
    /// List the stored messages of the session.
    ListMessages,
    /// Summarize the older messages of the plan and replace them in the store.
    Compress(CompressionPlan),
    /// Ask for the reply with these contexts and this history.
    Reply {
        selection_latex: Option<String>,
        rag_context: Option<String>,
        memory: Option<String>,
        history: Vec<(String, String)>,
        question: String,
    },
    /// Have the reply checked against the context.
    Review { reply: String, context: String },
    /// Store the question and the reply; the turn is over.
    Store { user: String, assistant: String },
    /// The turn ends with this error.
    Fail(String),
}

/// The state of a turn.
pub struct TurnState {
    pub stage: TurnStage,
    pub thinking: bool,
    pub selection: bool,
    pub question: String,
    pub normalized: String,
    pub selection_latex: Option<String>,
    pub rag: String,
    pub memory: Option<String>,
    pub total_tokens: usize,
    pub history: Vec<(String, String)>,
    pub recent: Vec<(String, String)>,
    pub reply: String,
    pub rounds: u8,
    pub corrected: bool,
}

// ── the model ───────────────────────────────────────────────────────

pub struct TurnModel {
    pub stage: TurnStage,
    pub thinking: bool,
    pub selection: bool,
    pub question: Seq<char>,
    pub normalized: Seq<char>,
    pub selection_latex: Option<Seq<char>>,
    pub rag: Seq<char>,
    pub memory: Option<Seq<char>>,
    pub total_tokens: int,
    pub history: Seq<(Seq<char>, Seq<char>)>,
    pub recent: Seq<(Seq<char>, Seq<char>)>,
    pub reply: Seq<char>,
    pub rounds: int,
    pub corrected: bool,
}

pub enum EventModel {
    Normalized(Result<Seq<char>, Seq<char>>),
    SessionRead(Option<Seq<char>>, Seq<(Seq<char>, Seq<char>)>, int),
    Retrieved(Seq<char>),
    Recalled(Option<Seq<char>>),
    Listed(Seq<(i64, Seq<char>, Seq<char>)>),
    Compressed(Option<Seq<char>>),
    Replied(Result<Seq<char>, Seq<char>>),
    Reviewed(Option<(bool, Seq<char>)>),
}

pub enum ActionModel {
    Normalize(Seq<char>),
    ReadSession,
    RetrievePages(Seq<char>),
    RecallMemory(Seq<char>),
    ListMessages,
    Compress(Seq<i64>, Seq<(Seq<char>, Seq<char>)>, Seq<(Seq<char>, Seq<char>)>),
    Reply(
        Option<Seq<char>>,
        Option<Seq<char>>,
        Option<Seq<char>>,
        Seq<(Seq<char>, Seq<char>)>,
        Seq<char>,
    ),
    Review(Seq<char>, Seq<char>),
    Store(Seq<char>, Seq<char>),
    Fail(Seq<char>),
}

pub open spec fn pairs_view(v: Seq<(String, String)>) -> Seq<(Seq<char>, Seq<char>)> {
    v.map_values(|p: (String, String)| pair_view(p))
}

pub open spec fn msgs_view(v: Seq<(i64, String, String)>) -> Seq<(i64, Seq<char>, Seq<char>)> {
    v.map_values(|m: (i64, String, String)| (m.0, m.1@, m.2@))
}

pub open spec fn result_view(r: Result<String, String>) -> Result<Seq<char>, Seq<char>> {
    match r {
        Ok(t) => Ok(t@),
        Err(e) => Err(e@),
    }
}

impl TurnState {
    pub open spec fn model(self) -> TurnModel {
        TurnModel {
            stage: self.stage,
            thinking: self.thinking,
            selection: self.selection,
            question: self.question@,
            normalized: self.normalized@,
            selection_latex: opt_view(self.selection_latex),
            rag: self.rag@,
            memory: opt_view(self.memory),
            total_tokens: self.total_tokens as int,
            history: pairs_view(self.history@),
            recent: pairs_view(self.recent@),
            reply: self.reply@,
            rounds: self.rounds as int,
            corrected: self.corrected,
        }
    }
}

impl TurnEvent {
    pub open spec fn model(self) -> EventModel {
        match self {
            TurnEvent::Normalized(r) => EventModel::Normalized(result_view(r)),
            TurnEvent::SessionRead { selection_latex, history, total_tokens } => EventModel::SessionRead(
                opt_view(selection_latex),
                pairs_view(history@),
                total_tokens as int,
            ),
            TurnEvent::Retrieved(c) => EventModel::Retrieved(c@),
            TurnEvent::Recalled(m) => EventModel::Recalled(opt_view(m)),
            TurnEvent::Listed(all) => EventModel::Listed(msgs_view(all@)),
            TurnEvent::Compressed(o) => EventModel::Compressed(opt_view(o)),
            TurnEvent::Replied(r) => EventModel::Replied(result_view(r)),
            TurnEvent::Reviewed(o) => EventModel::Reviewed(
                match o {
                    Some((ok, c)) => Some((ok, c@)),
                    None => None,
                },
            ),
        }
    }
}

impl TurnAction {
    pub open spec fn model(self) -> ActionModel {
        match self {
            TurnAction::Normalize { question } => ActionModel::Normalize(question@),
            TurnAction::ReadSession => ActionModel::ReadSession,
            TurnAction::RetrievePages { query } => ActionModel::RetrievePages(query@),
            TurnAction::RecallMemory { query } => ActionModel::RecallMemory(query@),
            TurnAction::ListMessages => ActionModel::ListMessages,
            TurnAction::Compress(p) => ActionModel::Compress(
                p.ids@,
                pairs_view(p.old_pairs@),
                pairs_view(p.recent@),
            ),
            TurnAction::Reply { selection_latex, rag_context, memory, history, question } =>
                ActionModel::Reply(
                opt_view(selection_latex),
                opt_view(rag_context),
                opt_view(memory),
                pairs_view(history@),
                question@,
            ),
            TurnAction::Review { reply, context } => ActionModel::Review(reply@, context@),
            TurnAction::Store { user, assistant } => ActionModel::Store(user@, assistant@),
            TurnAction::Fail(m) => ActionModel::Fail(m@),
        }
    }
}

/// Which older messages are summarized: all but the six most recent, when there are more.
pub open spec fn compression_plan(all: Seq<(i64, Seq<char>, Seq<char>)>) -> Option<
    (Seq<i64>, Seq<(Seq<char>, Seq<char>)>, Seq<(Seq<char>, Seq<char>)>),
> {
    if all.len() <= 6 {
        None
    } else {
        let cut = all.len() - 6;
        Some(
            (
                all.take(cut).map_values(|m: (i64, Seq<char>, Seq<char>)| m.0),
                all.take(cut).map_values(|m: (i64, Seq<char>, Seq<char>)| (m.1, m.2)),
                all.skip(cut).map_values(|m: (i64, Seq<char>, Seq<char>)| (m.1, m.2)),
            ),
        )
    }
}

/// The history once the older messages are replaced by their summary.
pub open spec fn summary_history(
    summary: Seq<char>,
    recent: Seq<(Seq<char>, Seq<char>)>,
) -> Seq<(Seq<char>, Seq<char>)> {
    seq![("assistant"@, "【会話圧縮サマリー】\n"@ + summary)] + recent
}

/// The reply request: the selection only for a question on a selection, the
/// pages found only for a free question (and only when there are any), the
/// recalled memories, the history and the normalized question.
pub open spec fn reply_action(s: TurnModel) -> ActionModel {
    ActionModel::Reply(
        if s.selection {
            s.selection_latex
        } else {
            None
        },
        if !s.selection && s.rag.len() > 0 {
            Some(s.rag)
        } else {
            None
        },
        s.memory,
        s.history,
        s.normalized,
    )
}

/// What the reply is checked against: the selection, or the pages found.
pub open spec fn review_context(s: TurnModel) -> Seq<char> {
    if s.selection {
        match s.selection_latex {
            Some(l) => l,
            None => seq![],
        }
    } else {
        s.rag
    }
}

/// The message of an event that does not belong to the stage of the turn.
pub open spec fn unexpected_event() -> Seq<char> {
    "unexpected event for this turn"@
}

/// A turn that has not begun anything yet.
pub open spec fn empty_turn(thinking: bool, question: Seq<char>) -> TurnModel {
    TurnModel {
        stage: TurnStage::Normalizing,
        thinking,
        selection: false,
        question,
        normalized: question,
        selection_latex: None,
        rag: seq![],
        memory: None,
        total_tokens: 0,
        history: seq![],
        recent: seq![],
        reply: seq![],
        rounds: 0,
        corrected: false,
    }
}

/// The start of a turn: the question trimmed; an empty one is refused.
pub open spec fn turn_open(user_text: Seq<char>, thinking: bool) -> (TurnModel, ActionModel) {
    let q = trim(user_text);
    if q.len() == 0 {
        (
            TurnModel { stage: TurnStage::Done, ..empty_turn(thinking, q) },
            ActionModel::Fail("空のメッセージは送れません"@),
        )
    } else {
        (empty_turn(thinking, q), ActionModel::Normalize(q))
    }
}

/// The next state and action after event `e`.
pub open spec fn turn_next(s: TurnModel, e: EventModel) -> (TurnModel, ActionModel) {
    match (s.stage, e) {
        (TurnStage::Normalizing, EventModel::Normalized(r)) => {
            let n = match r {
                Ok(t) => t,
                Err(_) => s.question,
            };
            (
                TurnModel { stage: TurnStage::ReadingSession, normalized: n, ..s },
                ActionModel::ReadSession,
            )
        },
        (TurnStage::ReadingSession, EventModel::SessionRead(sl, h, t)) => {
            let sel = selection_mode(sl);
            let s2 = TurnModel {
                stage: if sel {
                    TurnStage::Recalling
                } else {
                    TurnStage::Retrieving
                },
                selection: sel,
                selection_latex: sl,
                history: h,
                total_tokens: t,
                ..s
            };
            (
                s2,
                if sel {
                    ActionModel::RecallMemory(s.normalized)
                } else {
                    ActionModel::RetrievePages(s.normalized)
                },
            )
        },
        (TurnStage::Retrieving, EventModel::Retrieved(c)) => (
            TurnModel { stage: TurnStage::Recalling, rag: c, ..s },
            ActionModel::RecallMemory(s.normalized),
        ),
        (TurnStage::Recalling, EventModel::Recalled(m)) => {
            if s.total_tokens > 6000 {
                (TurnModel { stage: TurnStage::Listing, memory: m, ..s }, ActionModel::ListMessages)
            } else {
                let s2 = TurnModel { stage: TurnStage::Replying, memory: m, ..s };
                (s2, reply_action(s2))
            }
        },
        (TurnStage::Listing, EventModel::Listed(all)) => match compression_plan(all) {
            Some(p) => (
                TurnModel { stage: TurnStage::Compressing, recent: p.2, ..s },
                ActionModel::Compress(p.0, p.1, p.2),
            ),
            None => {
                let s2 = TurnModel { stage: TurnStage::Replying, ..s };
                (s2, reply_action(s2))
            },
        },
        (TurnStage::Compressing, EventModel::Compressed(o)) => {
            let h = match o {
                Some(sum) => summary_history(sum, s.recent),
                None => s.history,
            };
            let s2 = TurnModel { stage: TurnStage::Replying, history: h, ..s };
            (s2, reply_action(s2))
        },
        (TurnStage::Replying, EventModel::Replied(r)) => match r {
            Err(m) => (TurnModel { stage: TurnStage::Done, ..s }, ActionModel::Fail(m)),
            Ok(t) => if s.thinking {
                (
                    TurnModel {
                        stage: TurnStage::Reviewing,
                        reply: t,
                        rounds: 0,
                        corrected: false,
                        ..s
                    },
                    ActionModel::Review(t, review_context(s)),
                )
            } else {
                (TurnModel { stage: TurnStage::Done, reply: t, ..s }, ActionModel::Store(s.question, t))
            },
        },
        (TurnStage::Reviewing, EventModel::Reviewed(o)) => {
            let rounds = s.rounds + 1;
            let reply = match o {
                Some((false, c)) => c,
                _ => s.reply,
            };
            let corrected = match o {
                Some((false, _)) => true,
                _ => s.corrected,
            };
            let done = match o {
                Some((false, _)) => rounds == 2,
                _ => true,
            };
            let s2 = TurnModel {
                stage: if done {
                    TurnStage::Done
                } else {
                    TurnStage::Reviewing
                },
                reply,
                rounds,
                corrected,
                ..s
            };
            (
                s2,
                if done {
                    ActionModel::Store(s.question, reply)
                } else {
                    ActionModel::Review(reply, review_context(s))
                },
            )
        },
        _ => (TurnModel { stage: TurnStage::Done, ..s }, ActionModel::Fail(unexpected_event())),
    }
}

/// What every state of a turn satisfies.
pub open spec fn turn_wf(s: TurnModel) -> bool {
    &&& 0 <= s.rounds <= 2
    &&& s.stage == TurnStage::Reviewing ==> s.thinking && s.rounds < 2
    &&& (s.stage == TurnStage::Listing || s.stage == TurnStage::Compressing) ==> s.total_tokens
        > 6000
}

// ── the step ────────────────────────────────────────────────────────

fn clone_pairs(v: &Vec<(String, String)>) -> (r: Vec<(String, String)>)
    ensures
        pairs_view(r@) == pairs_view(v@),
{
    let mut out: Vec<(String, String)> = Vec::new();
    let mut i: usize = 0;
    while i < v.len()
        invariant
            i <= v.len(),
            out.len() == i,
            forall|j: int| 0 <= j < i ==> pair_view(#[trigger] out@[j]) == pair_view(v@[j]),
        decreases v.len() - i,
    {
        out.push((v[i].0.clone(), v[i].1.clone()));
        i += 1;
    }
    assert(pairs_view(out@) =~= pairs_view(v@));
    out
}

fn clone_opt(o: &Option<String>) -> (r: Option<String>)
    ensures
        opt_view(r) == opt_view(*o),
{
    match o {
        Some(t) => Some(t.clone()),
        None => None,
    }
}

fn reply_of(s: &TurnState) -> (a: TurnAction)
    ensures
        a.model() == reply_action(s.model()),
{
    let selection_latex = if s.selection {
        clone_opt(&s.selection_latex)
    } else {
        None
    };
    let rag_context = if !s.selection && !s.rag.as_str().is_empty() {
        Some(s.rag.clone())
    } else {
        None
    };
    TurnAction::Reply {
        selection_latex,
        rag_context,
        memory: clone_opt(&s.memory),
        history: clone_pairs(&s.history),
        question: s.normalized.clone(),
    }
}

fn context_of(s: &TurnState) -> (r: String)
    ensures
        r@ == review_context(s.model()),
{
    if s.selection {
        match &s.selection_latex {
            Some(l) => l.clone(),
            None => String::new(),
        }
    } else {
        s.rag.clone()
    }
}

impl TurnState {
    /// Begins a turn for `user_text`: the question is trimmed, and an empty one is refused.
    pub fn open(user_text: &str, thinking: bool) -> (r: (TurnState, TurnAction))
        ensures
            turn_wf(r.0.model()),
            r.0.model() == turn_open(user_text@, thinking).0,
            r.1.model() == turn_open(user_text@, thinking).1,
            r.0.question@ == trim(user_text@),
    {
        let checked = normalize_user_text(user_text);
        let empty = checked.is_err();
        let q = match checked {
            Ok(t) => t,
            Err(_) => String::new(),
        };
        proof {
            if empty {
                assert(q@ =~= trim(user_text@));
            }
        }
        let st = TurnState {
            stage: if empty {
                TurnStage::Done
            } else {
                TurnStage::Normalizing
            },
            thinking,
            selection: false,
            question: q.clone(),
            normalized: q.clone(),
            selection_latex: None,
            rag: String::new(),
            memory: None,
            total_tokens: 0,
            history: Vec::new(),
            recent: Vec::new(),
            reply: String::new(),
            rounds: 0,
            corrected: false,
        };
        proof {
            assert(pairs_view(st.history@) =~= Seq::<(Seq<char>, Seq<char>)>::empty());
            assert(pairs_view(st.recent@) =~= Seq::<(Seq<char>, Seq<char>)>::empty());
        }
        let action = if empty {
            TurnAction::Fail(String::from_str("空のメッセージは送れません"))
        } else {
            TurnAction::Normalize { question: q }
        };
        (st, action)
    }
}

/// Advances a turn by one event: the new state and the next action.
pub fn turn_step(s: &mut TurnState, e: TurnEvent) -> (a: TurnAction)
    requires
        turn_wf(old(s).model()),
    ensures
        turn_wf(final(s).model()),
        final(s).model() == turn_next(old(s).model(), e.model()).0,
        a.model() == turn_next(old(s).model(), e.model()).1,
{
    match e {
        TurnEvent::Normalized(r) => {
            if let TurnStage::Normalizing = s.stage {
                match r {
                    Ok(t) => {
                        s.normalized = t;
                    },
                    Err(_) => {
                        s.normalized = s.question.clone();
                    },
                }
                s.stage = TurnStage::ReadingSession;
                return TurnAction::ReadSession;
            }
        },
        TurnEvent::SessionRead { selection_latex, history, total_tokens } => {
            if let TurnStage::ReadingSession = s.stage {
                let sel = is_selection_mode(&selection_latex);
                s.selection = sel;
                s.selection_latex = selection_latex;
                s.history = history;
                s.total_tokens = total_tokens;
                let query = s.normalized.clone();
                if sel {
                    s.stage = TurnStage::Recalling;
                    return TurnAction::RecallMemory { query };
                } else {
                    s.stage = TurnStage::Retrieving;
                    return TurnAction::RetrievePages { query };
                }
            }
        },
        TurnEvent::Retrieved(c) => {
            if let TurnStage::Retrieving = s.stage {
                s.rag = c;
                s.stage = TurnStage::Recalling;
                return TurnAction::RecallMemory { query: s.normalized.clone() };
            }
        },
        TurnEvent::Recalled(m) => {
            if let TurnStage::Recalling = s.stage {
                s.memory = m;
                if s.total_tokens > COMPRESSION_THRESHOLD_TOKENS {
                    s.stage = TurnStage::Listing;
                    return TurnAction::ListMessages;
                } else {
                    s.stage = TurnStage::Replying;
                    return reply_of(s);
                }
            }
        },
        TurnEvent::Listed(all) => {
            if let TurnStage::Listing = s.stage {
                let ghost mv = msgs_view(all@);
                match plan_compression(&all) {
                    Some(p) => {
                        proof {
                            let cut = all.len() - 6;
                            assert(p.ids@ =~= mv.take(cut).map_values(
                                |m: (i64, Seq<char>, Seq<char>)| m.0,
                            ));
                            assert(pairs_view(p.old_pairs@) =~= mv.take(cut).map_values(
                                |m: (i64, Seq<char>, Seq<char>)| (m.1, m.2),
                            ));
                            assert(pairs_view(p.recent@) =~= mv.skip(cut).map_values(
                                |m: (i64, Seq<char>, Seq<char>)| (m.1, m.2),
                            ));
                        }
                        s.recent = clone_pairs(&p.recent);
                        s.stage = TurnStage::Compressing;
                        return TurnAction::Compress(p);
                    },
                    None => {
                        s.stage = TurnStage::Replying;
                        return reply_of(s);
                    },
                }
            }
        },
        TurnEvent::Compressed(o) => {
            if let TurnStage::Compressing = s.stage {
                match o {
                    Some(summary) => {
                        let h = compressed_history(summary.as_str(), &s.recent);
                        proof {
                            let want = summary_history(summary@, pairs_view(s.recent@));
                            assert forall|k: int| 0 <= k < want.len() implies #[trigger] pairs_view(
                                h@,
                            )[k] == want[k] by {
                                if k > 0 {
                                    assert(pair_view(h@[(k - 1) + 1]) == pair_view(s.recent@[k - 1]));
                                }
                            }
                            assert(pairs_view(h@) =~= want);
                        }
                        s.history = h;
                    },
                    None => {},
                }
                s.stage = TurnStage::Replying;
                return reply_of(s);
            }
        },
        TurnEvent::Replied(r) => {
            if let TurnStage::Replying = s.stage {
                match r {
                    Err(m) => {
                        s.stage = TurnStage::Done;
                        return TurnAction::Fail(m);
                    },
                    Ok(t) => {
                        s.reply = t;
                        if s.thinking {
                            s.stage = TurnStage::Reviewing;
                            s.rounds = 0;
                            s.corrected = false;
                            return TurnAction::Review { reply: s.reply.clone(), context: context_of(s) };
                        } else {
                            s.stage = TurnStage::Done;
                            return TurnAction::Store {
                                user: s.question.clone(),
                                assistant: s.reply.clone(),
                            };
                        }
                    },
                }
            }
        },
        TurnEvent::Reviewed(o) => {
            if let TurnStage::Reviewing = s.stage {
                s.rounds = s.rounds + 1;
                let done = match o {
                    Some((ok, c)) => {
                        if ok {
                            true
                        } else {
                            s.reply = c;
                            s.corrected = true;
                            s.rounds == 2
                        }
                    },
                    None => true,
                };
                if done {
                    s.stage = TurnStage::Done;
                    return TurnAction::Store { user: s.question.clone(), assistant: s.reply.clone() };
                } else {
                    return TurnAction::Review { reply: s.reply.clone(), context: context_of(s) };
                }
            }
        },
    }
    s.stage = TurnStage::Done;
    TurnAction::Fail(String::from_str("unexpected event for this turn"))
}

// ── laws ────────────────────────────────────────────────────────────

/// Every step keeps what every state of a turn satisfies, and never changes the
/// question or whether thinking is on.
pub proof fn law_turn_wf_kept(s: TurnModel, e: EventModel)
    requires
        turn_wf(s),
    ensures
        turn_wf(turn_next(s, e).0),
        turn_next(s, e).0.question == s.question,
        turn_next(s, e).0.thinking == s.thinking,
{
}

/// The book is searched exactly for a question without a selection, right after
/// the session is read.
pub proof fn law_search_only_without_selection(s: TurnModel, e: EventModel)
    requires
        turn_wf(s),
    ensures
        turn_next(s, e).1 is RetrievePages <==> (s.stage == TurnStage::ReadingSession && (
        e matches EventModel::SessionRead(sl, _, _) && !selection_mode(sl))),
{
}

/// The older messages are summarized exactly when the history is estimated above
/// 6000 tokens and the session holds more than six messages.
pub proof fn law_compression_gate(s: TurnModel, e: EventModel)
    requires
        turn_wf(s),
    ensures
        turn_next(s, e).1 is Compress ==> s.total_tokens > 6000 && (e matches EventModel::Listed(
            all,
        ) && all.len() > 6),
        s.stage == TurnStage::Recalling && e is Recalled ==> (turn_next(s, e).1 is ListMessages
            <==> s.total_tokens > 6000),
        s.stage == TurnStage::Listing && e is Listed ==> (turn_next(s, e).1 is Compress <==> (
        e matches EventModel::Listed(all) && all.len() > 6)),
{
}

/// A review is asked for only with thinking on, and at most twice in a turn: when
/// one is asked for, fewer than two have been done.
pub proof fn law_review_rounds(s: TurnModel, e: EventModel)
    requires
        turn_wf(s),
    ensures
        turn_next(s, e).1 is Review ==> s.thinking && turn_next(s, e).0.stage
            == TurnStage::Reviewing && turn_next(s, e).0.rounds < 2,
        turn_next(s, e).0.rounds <= 2,
        !s.thinking ==> !(turn_next(s, e).1 is Review),
{
}

/// The turn stores the trimmed question and the final reply.
pub proof fn law_stored_pair(s: TurnModel, e: EventModel)
    requires
        turn_wf(s),
    ensures
        turn_next(s, e).1 matches ActionModel::Store(user, assistant) ==> user == s.question
            && assistant == turn_next(s, e).0.reply && turn_next(s, e).0.stage == TurnStage::Done,
{
}

/// A turn ends within ten steps: every step either ends it or moves it on.
pub proof fn law_turn_progress(s: TurnModel, e: EventModel)
    requires
        turn_wf(s),
        s.stage != TurnStage::Done,
    ensures
        turn_next(s, e).0.stage == TurnStage::Done || turn_measure(turn_next(s, e).0)
            < turn_measure(s),
{
}

/// Steps left at most, by stage and review rounds.
pub open spec fn turn_measure(s: TurnModel) -> int {
    match s.stage {
        TurnStage::Normalizing => 10,
        TurnStage::ReadingSession => 9,
        TurnStage::Retrieving => 8,
        TurnStage::Recalling => 7,
        TurnStage::Listing => 6,
        TurnStage::Compressing => 5,
        TurnStage::Replying => 4,
        TurnStage::Reviewing => 3 - s.rounds,
        TurnStage::Done => 0,
    }
}

/// A review is always asked for the reply that the turn now holds: after a
/// correction, the corrected reply is the one checked again.
pub proof fn law_review_checks_current_reply(s: TurnModel, e: EventModel)
    requires
        turn_wf(s),
    ensures
        turn_next(s, e).1 matches ActionModel::Review(r, _) ==> r == turn_next(s, e).0.reply,
        s.stage == TurnStage::Reviewing ==> (e matches EventModel::Reviewed(Some((false, c)))
            ==> turn_next(s, e).0.reply == c),
{
}

/// Compressing keeps the six most recent listed messages, in order, and summarizes
/// the older ones: the plan's ids and texts are those of all but the last six.
pub proof fn law_compression_keeps_recent(s: TurnModel, all: Seq<(i64, Seq<char>, Seq<char>)>)
    requires
        turn_wf(s),
        s.stage == TurnStage::Listing,
        all.len() > 6,
    ensures
        ({
            let n = turn_next(s, EventModel::Listed(all));
            let cut = all.len() - 6;
            &&& n.0.recent.len() == 6
            &&& forall|j: int| 0 <= j < 6 ==> #[trigger] n.0.recent[j] == (all[cut + j].1, all[cut + j].2)
            &&& n.1 matches ActionModel::Compress(ids, old, recent) && ids.len() == cut && old.len()
                == cut && recent == n.0.recent && (forall|j: int| 0 <= j < cut ==> #[trigger] ids[j]
                == all[j].0) && (forall|j: int| 0 <= j < cut ==> #[trigger] old[j] == (all[j].1, all[j].2))
        }),
{
}

/// After a summary, the reply is asked with the summary first, then the kept recent
/// messages in order.
pub proof fn law_summary_then_recent(s: TurnModel, sum: Seq<char>)
    requires
        turn_wf(s),
        s.stage == TurnStage::Compressing,
    ensures
        ({
            let n = turn_next(s, EventModel::Compressed(Some(sum)));
            &&& n.0.history.len() == s.recent.len() + 1
            &&& n.0.history[0] == ("assistant"@, "【会話圧縮サマリー】\n"@ + sum)
            &&& forall|j: int| 0 <= j < s.recent.len() ==> #[trigger] n.0.history[j + 1] == s.recent[j]
            &&& n.1 matches ActionModel::Reply(_, _, _, h, _) && h == n.0.history
        }),
{
}

} // verus!
