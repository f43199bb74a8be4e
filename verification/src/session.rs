//! The decisions of a tutoring session: checking the question, assembling the
//! retrieved context, compressing long histories, the review of a draft reply,
//! and the transcript kept when a session is resolved.

use vstd::prelude::*;

use crate::openai::ConceptItem;
use crate::text::{
    push_signed_decimal, signed_decimal, string_from_chars, to_chars, trim, trim_bounds,
};

verus! {

/// The question with surrounding whitespace removed; empty questions are refused.
pub fn normalize_user_text(user_text: &str) -> (r: Result<String, String>)
    ensures
        match r {
            Ok(t) => t@ == trim(user_text@) && t@.len() > 0,
            Err(e) => trim(user_text@).len() == 0 && e@ == "空のメッセージは送れません"@,
        },
{
    let v = to_chars(user_text);
    let (a, b) = trim_bounds(&v, 0, v.len());
    assert(v@.subrange(0, v.len() as int) =~= v@);
    if a == b {
        Err(String::from_str("空のメッセージは送れません"))
    } else {
        Ok(string_from_chars(&v, a, b))
    }
}

/// A session asks about a selection when it has selected LaTeX that is not blank.
pub open spec fn selection_mode(sel_latex: Option<Seq<char>>) -> bool {
    match sel_latex {
        Some(s) => trim(s).len() > 0,
        None => false,
    }
}

/// Whether the session asks about a selection (else the whole book is searched).
pub fn is_selection_mode(sel_latex: &Option<String>) -> (r: bool)
    ensures
        r == selection_mode(
            match sel_latex {
                Some(s) => Some(s@),
                None => None,
            },
        ),
{
    match sel_latex {
        Some(s) => {
            let v = to_chars(s.as_str());
            let (a, b) = trim_bounds(&v, 0, v.len());
            assert(v@.subrange(0, v.len() as int) =~= v@);
            a < b
        },
        None => false,
    }
}

/// `=== ページ{n} ===\n{latex}\n\n` for each retrieved page, in order.
pub open spec fn page_blocks(pages: Seq<(i32, Seq<char>)>) -> Seq<char>
    decreases pages.len(),
{
    if pages.len() == 0 {
        seq![]
    } else {
        page_blocks(pages.drop_last()) + "=== ページ"@ + signed_decimal(pages.last().0 as int)
            + " ===\n"@ + pages.last().1 + "\n\n"@
    }
}

/// The retrieved pages as context for the reply.
pub fn rag_page_context(pages: &Vec<(i32, String)>) -> (r: String)
    ensures
        r@ == page_blocks(pages@.map_values(|p: (i32, String)| (p.0, p.1@))),
{
    let ghost pv = pages@.map_values(|p: (i32, String)| (p.0, p.1@));
    let mut out = String::new();
    let mut i: usize = 0;
    assert(pv.take(0) =~= Seq::<(i32, Seq<char>)>::empty());
    while i < pages.len()
        invariant
            i <= pages.len(),
            pv == pages@.map_values(|p: (i32, String)| (p.0, p.1@)),
            out@ == page_blocks(pv.take(i as int)),
        decreases pages.len() - i,
    {
        assert(pv.take(i + 1).drop_last() =~= pv.take(i as int));
        assert(pv.take(i + 1).last() == pv[i as int]);
        out.append("=== ページ");
        push_signed_decimal(&mut out, pages[i].0);
        out.append(" ===\n");
        out.append(pages[i].1.as_str());
        out.append("\n\n");
        i += 1;
    }
    assert(pv.take(pages.len() as int) =~= pv);
    out
}

/// The ids of `expanded` that are not among `existing`, in order.
pub open spec fn fresh_ids(expanded: Seq<i64>, existing: Seq<i64>) -> Seq<i64>
    decreases expanded.len(),
{
    if expanded.len() == 0 {
        seq![]
    } else {
        let r = fresh_ids(expanded.drop_last(), existing);
        if existing.contains(expanded.last()) {
            r
        } else {
            r.push(expanded.last())
        }
    }
}

fn contains_id(ids: &Vec<i64>, id: i64) -> (r: bool)
    ensures
        r == ids@.contains(id),
{
    let mut i: usize = 0;
    while i < ids.len()
        invariant
            i <= ids.len(),
            forall|j: int| 0 <= j < i ==> ids@[j] != id,
        decreases ids.len() - i,
    {
        if ids[i] == id {
            return true;
        }
        i += 1;
    }
    false
}

/// Concepts reached through dependencies that were not found directly.
pub fn new_concept_ids(expanded: &Vec<i64>, existing: &Vec<i64>) -> (r: Vec<i64>)
    ensures
        r@ == fresh_ids(expanded@, existing@),
{
    let mut out: Vec<i64> = Vec::new();
    let mut i: usize = 0;
    assert(expanded@.take(0) =~= Seq::<i64>::empty());
    while i < expanded.len()
        invariant
            i <= expanded.len(),
            out@ == fresh_ids(expanded@.take(i as int), existing@),
        decreases expanded.len() - i,
    {
        assert(expanded@.take(i + 1).drop_last() =~= expanded@.take(i as int));
        assert(expanded@.take(i + 1).last() == expanded@[i as int]);
        if !contains_id(existing, expanded[i]) {
            out.push(expanded[i]);
        }
        i += 1;
    }
    assert(expanded@.take(expanded.len() as int) =~= expanded@);
    out
}

pub open spec fn opt_text(o: Option<String>) -> Seq<char> {
    match o {
        Some(s) => s@,
        None => seq![],
    }
}

/// `[{kind} {label}{ name}] {latex}\n`, the name with a space before it when present.
pub open spec fn concept_line(c: ConceptItem) -> Seq<char> {
    let name = opt_text(c.name);
    "["@ + c.kind@ + " "@ + opt_text(c.label) + (if name.len() == 0 {
        seq![]
    } else {
        " "@ + name
    }) + "] "@ + c.latex@ + "\n"@
}

pub open spec fn concept_lines(cs: Seq<ConceptItem>) -> Seq<char>
    decreases cs.len(),
{
    if cs.len() == 0 {
        seq![]
    } else {
        concept_lines(cs.drop_last()) + concept_line(cs.last())
    }
}

/// The related concepts under a heading, or nothing when there are none.
pub open spec fn concept_block(cs: Seq<ConceptItem>) -> Seq<char> {
    if cs.len() == 0 {
        seq![]
    } else {
        "=== 関連概念（GraphRAG） ===\n"@ + concept_lines(cs)
    }
}

/// The related concepts as context for the reply.
pub fn concept_context(concepts: &Vec<ConceptItem>) -> (r: String)
    ensures
        r@ == concept_block(concepts@),
{
    if concepts.len() == 0 {
        return String::new();
    }
    let mut out = String::from_str("=== 関連概念（GraphRAG） ===\n");
    let ghost head = out@;
    let mut i: usize = 0;
    assert(concepts@.take(0) =~= Seq::<ConceptItem>::empty());
    while i < concepts.len()
        invariant
            i <= concepts.len(),
            head == "=== 関連概念（GraphRAG） ===\n"@,
            out@ == head + concept_lines(concepts@.take(i as int)),
        decreases concepts.len() - i,
    {
        assert(concepts@.take(i + 1).drop_last() =~= concepts@.take(i as int));
        assert(concepts@.take(i + 1).last() == concepts@[i as int]);
        let c = &concepts[i];
        out.append("[");
        out.append(c.kind.as_str());
        out.append(" ");
        match &c.label {
            Some(l) => out.append(l.as_str()),
            None => {},
        }
        match &c.name {
            Some(n) => {
                if !n.as_str().is_empty() {
                    out.append(" ");
                    out.append(n.as_str());
                }
            },
            None => {},
        }
        out.append("] ");
        out.append(c.latex.as_str());
        out.append("\n");
        assert(out@ =~= head + concept_lines(concepts@.take(i as int)) + concept_line(*c));
        i += 1;
    }
    assert(concepts@.take(concepts.len() as int) =~= concepts@);
    out
}

/// `- {summary}` lines joined by newlines.
pub open spec fn bullet_list(items: Seq<Seq<char>>) -> Seq<char>
    decreases items.len(),
{
    if items.len() == 0 {
        seq![]
    } else if items.len() == 1 {
        "- "@ + items[0]
    } else {
        bullet_list(items.drop_last()) + "\n"@ + "- "@ + items.last()
    }
}

/// The remembered explanations as context for the reply.
pub fn memory_context(summaries: &Vec<String>) -> (r: String)
    ensures
        r@ == bullet_list(summaries@.map_values(|s: String| s@)),
{
    let ghost sv = summaries@.map_values(|s: String| s@);
    let mut out = String::new();
    let mut i: usize = 0;
    assert(sv.take(0) =~= Seq::<Seq<char>>::empty());
    while i < summaries.len()
        invariant
            i <= summaries.len(),
            sv == summaries@.map_values(|s: String| s@),
            out@ == bullet_list(sv.take(i as int)),
        decreases summaries.len() - i,
    {
        assert(sv.take(i + 1).drop_last() =~= sv.take(i as int));
        assert(sv.take(i + 1).last() == summaries@[i as int]@);
        if i > 0 {
            out.append("\n");
        } else {
            assert(sv.take(1) =~= seq![summaries@[0]@]);
        }
        out.append("- ");
        out.append(summaries[i].as_str());
        i += 1;
    }
    assert(sv.take(summaries.len() as int) =~= sv);
    out
}

/// Messages kept as they are when a long conversation is compressed.
pub const KEEP_RECENT_MESSAGES: usize = 6;

/// Which stored messages a compression replaces.
pub struct CompressionPlan {
    /// Ids of the messages summarized.
    pub ids: Vec<i64>,
    /// Their roles and contents, in order, for the summary.
    pub old_pairs: Vec<(String, String)>,
    /// Roles and contents of the six most recent messages.
    pub recent: Vec<(String, String)>,
}

pub open spec fn pair_view(p: (String, String)) -> (Seq<char>, Seq<char>) {
    (p.0@, p.1@)
}

pub open spec fn msg_pair(m: (i64, String, String)) -> (Seq<char>, Seq<char>) {
    (m.1@, m.2@)
}

fn copy_pairs(all: &Vec<(i64, String, String)>, from: usize, to: usize) -> (r: Vec<(String, String)>)
    requires
        from <= to <= all.len(),
    ensures
        r.len() == to - from,
        forall|j: int| 0 <= j < r.len() ==> pair_view(#[trigger] r@[j]) == msg_pair(all@[from + j]),
{
    let mut out: Vec<(String, String)> = Vec::new();
    let mut i = from;
    while i < to
        invariant
            from <= i <= to <= all.len(),
            out.len() == i - from,
            forall|j: int| 0 <= j < out.len() ==> pair_view(#[trigger] out@[j]) == msg_pair(all@[from + j]),
        decreases to - i,
    {
        out.push((all[i].1.clone(), all[i].2.clone()));
        i += 1;
    }
    out
}

/// All messages but the six most recent are summarized; nothing is done for six or fewer.
pub fn plan_compression(all: &Vec<(i64, String, String)>) -> (r: Option<CompressionPlan>)
    ensures
        all.len() <= 6 <==> r is None,
        r matches Some(p) ==> {
            let cut = all.len() - 6;
            &&& p.ids@.len() == cut
            &&& forall|j: int| 0 <= j < cut ==> #[trigger] p.ids@[j] == all@[j].0
            &&& p.old_pairs.len() == cut
            &&& forall|j: int| 0 <= j < cut ==> pair_view(#[trigger] p.old_pairs@[j]) == msg_pair(all@[j])
            &&& p.recent.len() == 6
            &&& forall|j: int| 0 <= j < 6 ==> pair_view(#[trigger] p.recent@[j]) == msg_pair(all@[cut + j])
        },
{
    if all.len() <= KEEP_RECENT_MESSAGES {
        return None;
    }
    let cut = all.len() - KEEP_RECENT_MESSAGES;
    let mut ids: Vec<i64> = Vec::new();
    let mut i: usize = 0;
    while i < cut
        invariant
            i <= cut < all.len(),
            ids@.len() == i,
            forall|j: int| 0 <= j < i ==> #[trigger] ids@[j] == all@[j].0,
        decreases cut - i,
    {
        ids.push(all[i].0);
        i += 1;
    }
    let old_pairs = copy_pairs(all, 0, cut);
    let recent = copy_pairs(all, cut, all.len());
    Some(CompressionPlan { ids, old_pairs, recent })
}

/// The history after compression: the summary as an assistant message, then the
/// recent messages.
pub fn compressed_history(summary: &str, recent: &Vec<(String, String)>) -> (r: Vec<(String, String)>)
    ensures
        r.len() == recent.len() + 1,
        pair_view(r@[0]) == ("assistant"@, "【会話圧縮サマリー】\n"@ + summary@),
        forall|j: int| 0 <= j < recent.len() ==> pair_view(#[trigger] r@[j + 1]) == pair_view(recent@[j]),
{
    let mut head = String::from_str("【会話圧縮サマリー】\n");
    head.append(summary);
    let mut out: Vec<(String, String)> = Vec::new();
    out.push((String::from_str("assistant"), head));
    let mut i: usize = 0;
    while i < recent.len()
        invariant
            i <= recent.len(),
            out.len() == i + 1,
            pair_view(out@[0]) == ("assistant"@, "【会話圧縮サマリー】\n"@ + summary@),
            forall|j: int| 0 <= j < i ==> pair_view(#[trigger] out@[j + 1]) == pair_view(recent@[j]),
        decreases recent.len() - i,
    {
        out.push((recent[i].0.clone(), recent[i].1.clone()));
        i += 1;
    }
    out
}

/// `{role}: {content}` lines joined by newlines.
pub open spec fn transcript_of(pairs: Seq<(Seq<char>, Seq<char>)>) -> Seq<char>
    decreases pairs.len(),
{
    if pairs.len() == 0 {
        seq![]
    } else if pairs.len() == 1 {
        pairs[0].0 + ": "@ + pairs[0].1
    } else {
        transcript_of(pairs.drop_last()) + "\n"@ + pairs.last().0 + ": "@ + pairs.last().1
    }
}

/// The transcript summarized when a session is resolved, and whether the tutor
/// has answered at all.
pub fn session_transcript(pairs: &Vec<(String, String)>) -> (r: (String, bool))
    ensures
        r.0@ == transcript_of(pairs@.map_values(|p: (String, String)| pair_view(p))),
        r.1 == exists|j: int| 0 <= j < pairs.len() && (#[trigger] pairs@[j]).0@ == "assistant"@,
{
    let ghost pv = pairs@.map_values(|p: (String, String)| pair_view(p));
    let assistant = String::from_str("assistant");
    let mut out = String::new();
    let mut has = false;
    let mut i: usize = 0;
    assert(pv.take(0) =~= Seq::<(Seq<char>, Seq<char>)>::empty());
    while i < pairs.len()
        invariant
            i <= pairs.len(),
            assistant@ == "assistant"@,
            pv == pairs@.map_values(|p: (String, String)| pair_view(p)),
            out@ == transcript_of(pv.take(i as int)),
            has == exists|j: int| 0 <= j < i && (#[trigger] pairs@[j]).0@ == "assistant"@,
        decreases pairs.len() - i,
    {
        assert(pv.take(i + 1).drop_last() =~= pv.take(i as int));
        assert(pv.take(i + 1).last() == pair_view(pairs@[i as int]));
        if i > 0 {
            out.append("\n");
        } else {
            assert(pv.take(1) =~= seq![pair_view(pairs@[0])]);
        }
        out.append(pairs[i].0.as_str());
        out.append(": ");
        out.append(pairs[i].1.as_str());
        if pairs[i].0 == assistant {
            has = true;
        }
        i += 1;
    }
    assert(pv.take(pairs.len() as int) =~= pv);
    (out, has)
}

/// Results asked of a memory search: 8 by default, kept within 1..=30.
pub open spec fn limit_of(limit: Option<i64>) -> int {
    let l = match limit {
        Some(x) => x as int,
        None => 8,
    };
    if l < 1 {
        1
    } else if l > 30 {
        30
    } else {
        l
    }
}

pub fn search_limit(limit: Option<i64>) -> (r: usize)
    ensures
        r == limit_of(limit),
        1 <= r <= 30,
{
    let l: i64 = match limit {
        Some(x) => x,
        None => 8,
    };
    if l < 1 {
        1
    } else if l > 30 {
        30
    } else {
        l as usize
    }
}

/// First page read ahead around `center`.
pub open spec fn prefetch_first(center: int) -> int {
    if center - 2 >= 1 {
        center - 2
    } else {
        1
    }
}

/// The pages `center - 2 ..= center + 2` that are at least 1, in increasing order.
pub open spec fn prefetch_pages_around(center: int) -> Seq<int> {
    let lo = prefetch_first(center);
    Seq::new((if center + 3 > lo { center + 3 - lo } else { 0 }) as nat, |k: int| lo + k)
}

/// The pages read ahead around `center`.
pub fn prefetch_range(center: i32) -> (r: Vec<i32>)
    requires
        i32::MIN + 2 <= center <= i32::MAX - 2,
    ensures
        r.len() == prefetch_pages_around(center as int).len(),
        forall|k: int| 0 <= k < r.len() ==> #[trigger] r@[k] as int == prefetch_pages_around(center as int)[k],
{
    let lo: i64 = if (center as i64) - 2 >= 1 {
        (center as i64) - 2
    } else {
        1
    };
    let hi: i64 = (center as i64) + 2;
    let mut out: Vec<i32> = Vec::new();
    let mut p: i64 = lo;
    while p <= hi
        invariant
            1 <= lo <= p,
            p <= hi + 1 || p == lo,
            hi == center + 2,
            hi <= i32::MAX,
            lo == prefetch_first(center as int),
            out@.len() == p - lo,
            forall|k: int| 0 <= k < out@.len() ==> #[trigger] out@[k] as int == lo + k,
        decreases hi + 1 - p,
    {
        let q = p as i32;
        out.push(q);
        p += 1;
    }
    out
}


/// The page of `id`: that of the last row with this id (later rows win, as when
/// the rows are collected into a map).
pub open spec fn page_of(rows: Seq<(i64, i32)>, id: i64) -> Option<i32>
    decreases rows.len(),
{
    if rows.len() == 0 {
        None
    } else if rows.last().0 == id {
        Some(rows.last().1)
    } else {
        page_of(rows.drop_last(), id)
    }
}

/// The pages of the ids that have one, in order.
pub open spec fn pages_of_ids(ids: Seq<i64>, rows: Seq<(i64, i32)>) -> Seq<i32>
    decreases ids.len(),
{
    if ids.len() == 0 {
        seq![]
    } else {
        let r = pages_of_ids(ids.drop_last(), rows);
        match page_of(rows, ids.last()) {
            Some(p) => r.push(p),
            None => r,
        }
    }
}

/// `Vec::dedup`: runs of equal neighbours reduced to one.
pub open spec fn dedup(s: Seq<i32>) -> Seq<i32>
    decreases s.len(),
{
    if s.len() == 0 {
        seq![]
    } else if s.len() >= 2 && s.last() == s[s.len() - 2] {
        dedup(s.drop_last())
    } else {
        dedup(s.drop_last()).push(s.last())
    }
}

fn page_lookup(rows: &Vec<(i64, i32)>, id: i64) -> (r: Option<i32>)
    ensures
        r == page_of(rows@, id),
{
    let mut j = rows.len();
    assert(rows@.take(rows.len() as int) =~= rows@);
    while j > 0
        invariant
            j <= rows.len(),
            page_of(rows@, id) == page_of(rows@.take(j as int), id),
        decreases j,
    {
        assert(rows@.take(j as int).drop_last() =~= rows@.take(j - 1));
        if rows[j - 1].0 == id {
            return Some(rows[j - 1].1);
        }
        j -= 1;
    }
    None
}

/// The pages for the best `limit` fused ids (in the order given), without
/// repeating a page that directly follows itself.
pub fn pages_of_fused_ids(ids: &Vec<i64>, rows: &Vec<(i64, i32)>, limit: usize) -> (r: Vec<i32>)
    ensures
        r@ == dedup(
            pages_of_ids(
                ids@.take(
                    if limit < ids.len() {
                        limit as int
                    } else {
                        ids.len() as int
                    },
                ),
                rows@,
            ),
        ),
{
    let n = if limit < ids.len() {
        limit
    } else {
        ids.len()
    };
    let mut pages: Vec<i32> = Vec::new();
    let mut i: usize = 0;
    assert(ids@.take(0) =~= Seq::<i64>::empty());
    while i < n
        invariant
            i <= n <= ids.len(),
            pages@ == pages_of_ids(ids@.take(i as int), rows@),
        decreases n - i,
    {
        assert(ids@.take(i + 1).drop_last() =~= ids@.take(i as int));
        assert(ids@.take(i + 1).last() == ids@[i as int]);
        match page_lookup(rows, ids[i]) {
            Some(p) => pages.push(p),
            None => {},
        }
        i += 1;
    }
    let mut out: Vec<i32> = Vec::new();
    let mut k: usize = 0;
    assert(pages@.take(0) =~= Seq::<i32>::empty());
    while k < pages.len()
        invariant
            k <= pages.len(),
            out@ == dedup(pages@.take(k as int)),
            k > 0 ==> out@.len() > 0 && out@.last() == pages@[k - 1],
        decreases pages.len() - k,
    {
        let ghost pre = pages@.take(k as int);
        assert(pages@.take(k + 1).drop_last() =~= pre);
        assert(pages@.take(k + 1).last() == pages@[k as int]);
        if k > 0 {
            assert(pages@.take(k + 1)[k - 1] == pages@[k - 1]);
        }
        if k == 0 || pages[k] != pages[k - 1] {
            out.push(pages[k]);
        }
        k += 1;
    }
    assert(pages@.take(pages.len() as int) =~= pages@);
    out
}

} // verus!
