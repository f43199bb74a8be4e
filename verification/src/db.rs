//! What the database layer computes before storing: concept kinds, clipped
//! concept LaTeX and page previews.

use vstd::prelude::*;

use crate::ingest::ascii_lower;
use crate::openai::ConceptItem;
use crate::text::{clip, clip_chars};

verus! {

/// The lower-case form of `s` by the Unicode rules of `str::to_lowercase`.
pub uninterp spec fn unicode_lowercase(s: Seq<char>) -> Seq<char>;

/// `str::to_lowercase`. The contract names the result and states its ASCII part:
/// on ASCII text, `A`–`Z` become `a`–`z` and every other character stays.
#[verifier::external_body]
fn to_lowercase(s: &str) -> (r: String)
    ensures
        r@ == unicode_lowercase(s@),
        (forall|i: int| 0 <= i < s@.len() ==> (#[trigger] s@[i] as u32) < 0x80) ==> r@
            == s@.map_values(|c: char| ascii_lower(c)),
{
    s.to_lowercase()
}

/// The kinds of concept that are stored as they are.
pub open spec fn is_known_kind(k: Seq<char>) -> bool {
    ||| k == "definition"@
    ||| k == "theorem"@
    ||| k == "lemma"@
    ||| k == "example"@
    ||| k == "proof"@
    ||| k == "remark"@
    ||| k == "other"@
}

/// A known kind stays; anything else becomes `other`.
pub open spec fn concept_kind(lower: Seq<char>) -> Seq<char> {
    if is_known_kind(lower) {
        lower
    } else {
        "other"@
    }
}

/// Whatever the model reports, the stored kind is one of the seven known kinds.
pub proof fn law_stored_kind_is_known(lower: Seq<char>)
    ensures
        is_known_kind(concept_kind(lower)),
{
}

/// Each of the seven kinds that the concept prompt asks for is stored as itself.
pub proof fn law_known_kind_stored_as_itself(k: Seq<char>)
    requires
        k == "definition"@ || k == "theorem"@ || k == "lemma"@ || k == "example"@ || k == "proof"@
            || k == "remark"@ || k == "other"@,
    ensures
        concept_kind(k) == k,
{
}

/// Any other kind is stored as `other`.
pub proof fn law_unknown_kind_stored_as_other(k: Seq<char>)
    requires
        !(k == "definition"@ || k == "theorem"@ || k == "lemma"@ || k == "example"@ || k
            == "proof"@ || k == "remark"@ || k == "other"@),
    ensures
        concept_kind(k) == "other"@,
{
}

/// The stored kind for an already lower-cased kind.
pub fn concept_type_from_lowercase(lower: &str) -> (r: String)
    ensures
        r@ == concept_kind(lower@),
{
    let l = String::from_str(lower);
    if l == String::from_str("definition") || l == String::from_str("theorem") || l
        == String::from_str("lemma") || l == String::from_str("example") || l == String::from_str(
        "proof",
    ) || l == String::from_str("remark") || l == String::from_str("other") {
        l
    } else {
        String::from_str("other")
    }
}

/// The stored kind: the reported kind in lower case if it is a known one, else `other`.
pub fn normalize_concept_type(raw: &str) -> (r: String)
    ensures
        r@ == concept_kind(unicode_lowercase(raw@)),
        (forall|i: int| 0 <= i < raw@.len() ==> (#[trigger] raw@[i] as u32) < 0x80) ==> r@
            == concept_kind(raw@.map_values(|c: char| ascii_lower(c))),
{
    let lower = to_lowercase(raw);
    concept_type_from_lowercase(lower.as_str())
}

/// Longest LaTeX kept for a concept, in characters.
pub const CONCEPT_LATEX_MAX_CHARS: usize = 8000;

/// Length of a page preview, in characters.
pub const PREVIEW_CHARS: usize = 200;

fn clone_opt(o: &Option<String>) -> (r: Option<String>)
    ensures
        r == *o,
{
    match o {
        Some(s) => Some(s.clone()),
        None => None,
    }
}

/// The row stored for a concept: its normalized kind, its label and name, and its
/// LaTeX cut to 8000 characters.
pub fn concept_row(item: &ConceptItem) -> (r: ConceptItem)
    ensures
        r.kind@ == concept_kind(unicode_lowercase(item.kind@)),
        r.label == item.label,
        r.name == item.name,
        r.latex@ == clip(item.latex@, 8000),
{
    ConceptItem {
        kind: normalize_concept_type(item.kind.as_str()),
        label: clone_opt(&item.label),
        name: clone_opt(&item.name),
        latex: clip_chars(item.latex.as_str(), CONCEPT_LATEX_MAX_CHARS),
    }
}

/// The rows stored for the concepts of a page, in order.
pub fn concept_rows(items: &Vec<ConceptItem>) -> (r: Vec<ConceptItem>)
    ensures
        r.len() == items.len(),
        forall|i: int|
            0 <= i < items.len() ==> (#[trigger] r@[i]).kind@ == concept_kind(
                unicode_lowercase(items@[i].kind@),
            ) && r@[i].label == items@[i].label && r@[i].name == items@[i].name && r@[i].latex@
                == clip(items@[i].latex@, 8000),
{
    let mut out: Vec<ConceptItem> = Vec::new();
    let mut i: usize = 0;
    while i < items.len()
        invariant
            i <= items.len(),
            out.len() == i,
            forall|m: int|
                0 <= m < i ==> (#[trigger] out@[m]).kind@ == concept_kind(
                    unicode_lowercase(items@[m].kind@),
                ) && out@[m].label == items@[m].label && out@[m].name == items@[m].name
                    && out@[m].latex@ == clip(items@[m].latex@, 8000),
        decreases items.len() - i,
    {
        out.push(concept_row(&items[i]));
        i += 1;
    }
    out
}

/// The preview of a page: its first 200 characters.
pub fn page_preview(latex: &str) -> (r: String)
    ensures
        r@ == clip(latex@, 200),
{
    clip_chars(latex, PREVIEW_CHARS)
}

} // verus!
