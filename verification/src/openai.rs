//! Page transcription to LaTeX and concept extraction: what is sent to the model
//! and how its answers are read.

use vstd::prelude::*;

use crate::text::{
    blen, boundary_index, boundary_of, byte_offsets, find, find_chars, is_boundary,
    lemma_find_from_result, str_byte_len, string_from_chars, strip_all, strip_all_from, to_chars,
    trim, trim_bounds, trim_start, trim_start_from,
};

verus! {

pub open spec fn fence() -> Seq<char> {
    seq!['`', '`', '`']
}

/// The LaTeX inside the model's fenced block.
///
/// Without a fence: the trimmed answer. With one: what follows the first fence,
/// without leading whitespace, leading `latex` and `LaTeX` tags and the whitespace
/// after them, up to the next fence (or the end), trimmed.
pub open spec fn latex_in_fence(content: Seq<char>) -> Seq<char> {
    let t = trim(content);
    match find(t, fence()) {
        None => t,
        Some(start) => {
            let a0 = trim_start(t.skip(start + 3));
            let a = trim_start(
                strip_all(strip_all(a0, seq!['l', 'a', 't', 'e', 'x']), seq!['L', 'a', 'T', 'e', 'X']),
            );
            match find(a, fence()) {
                Some(end) => trim(a.take(end)),
                None => trim(a),
            }
        },
    }
}

/// Takes the LaTeX out of a model answer that wraps it in a fenced block.
pub fn extract_latex_fence(content: &str) -> (r: String)
    ensures
        r@ == latex_in_fence(content@),
{
    let cv = to_chars(content);
    let (ta, tb) = trim_bounds(&cv, 0, cv.len());
    assert(cv@.subrange(0, cv.len() as int) =~= cv@);
    let t = crate::text::sub_chars(&cv, ta, tb);
    let f = vec!['`', '`', '`'];
    assert(f@ =~= fence());
    match find_chars(&t, &f) {
        None => {
            let r = string_from_chars(&t, 0, t.len());
            assert(t@.subrange(0, t.len() as int) =~= t@);
            r
        },
        Some(start) => {
            proof {
                lemma_find_from_result(t@, f@, 0);
            }
            let a1 = trim_start_from(&t, start + 3, t.len());
            assert(t@.subrange(start + 3, t.len() as int) =~= t@.skip(start + 3));
            let lower = vec!['l', 'a', 't', 'e', 'x'];
            let upper = vec!['L', 'a', 'T', 'e', 'X'];
            assert(lower@ =~= seq!['l', 'a', 't', 'e', 'x']);
            assert(upper@ =~= seq!['L', 'a', 'T', 'e', 'X']);
            let a2 = strip_all_from(&t, a1, t.len(), &lower);
            let a3 = strip_all_from(&t, a2, t.len(), &upper);
            let a4 = trim_start_from(&t, a3, t.len());
            let a = crate::text::sub_chars(&t, a4, t.len());
            match find_chars(&a, &f) {
                Some(end) => {
                    proof {
                        lemma_find_from_result(a@, f@, 0);
                    }
                    let (x, y) = trim_bounds(&a, 0, end);
                    assert(a@.subrange(0, end as int) =~= a@.take(end as int));
                    string_from_chars(&a, x, y)
                },
                None => {
                    let (x, y) = trim_bounds(&a, 0, a.len());
                    assert(a@.subrange(0, a.len() as int) =~= a@);
                    string_from_chars(&a, x, y)
                },
            }
        },
    }
}

/// A structural item of a page as the model reports it (`type` in the JSON).
pub struct ConceptItem {
    pub kind: String,
    pub label: Option<String>,
    pub name: Option<String>,
    pub latex: String,
}

pub open spec fn concept_prompt() -> Seq<char> {
    CONCEPT_PROMPT@
}

/// The instruction sent with each page for concept extraction.
pub const CONCEPT_PROMPT: &'static str = r#"From the following LaTeX page fragment, extract structural math items.

Return a JSON object with key "concepts" only. Each item:
- type: one of definition, theorem, lemma, example, proof, remark, other
- label: short label if any (e.g. 定義2.1), or null
- name: concept name in Japanese or English if clear, or null
- latex: short verbatim LaTeX excerpt (max ~400 chars) from the source

Keep 0–12 items. If nothing structural, return {"concepts":[]}."#;

/// The part of the page sent for concept extraction: its first 12000 bytes.
pub open spec fn concept_source(latex: Seq<char>) -> Seq<char> {
    if blen(latex) > 12000 {
        latex.take(boundary_index(latex, 12000))
    } else {
        latex
    }
}

/// The user message for concept extraction: the prompt, then the page between `---` lines.
///
/// A page longer than 12000 bytes is cut there, which must be a character boundary.
pub fn concept_request_text(latex_page: &str) -> (r: String)
    requires
        blen(latex_page@) > 12000 ==> is_boundary(latex_page@, 12000),
    ensures
        r@ == concept_prompt() + "\n\n---\n"@ + concept_source(latex_page@) + "\n---"@,
{
    let v = to_chars(latex_page);
    let n = str_byte_len(latex_page);
    let clip = if n > 12000 {
        let offs = byte_offsets(&v);
        match boundary_of(&v, &offs, 12000) {
            Some(k) => {
                assert(v@.subrange(0, k as int) =~= v@.take(k as int));
                string_from_chars(&v, 0, k)
            },
            None => {
                assert(false);
                String::new()
            },
        }
    } else {
        assert(v@.subrange(0, v.len() as int) =~= v@);
        string_from_chars(&v, 0, v.len())
    };
    let mut r = String::from_str(CONCEPT_PROMPT);
    r.append("\n\n---\n");
    r.append(clip.as_str());
    r.append("\n---");
    r
}


/// The padded standard base64 text (RFC 4648 §4) of `data`, as the `base64`
/// crate's `STANDARD` engine writes it.
pub uninterp spec fn base64_standard(data: Seq<u8>) -> Seq<char>;

/// `base64::engine::general_purpose::STANDARD.encode(data)`.
/// Claimed: the result is the named encoding, four characters per started group of three bytes.
#[verifier::external_body]
fn encode_base64_standard(data: &[u8]) -> (r: String)
    requires
        4 * ((data@.len() + 2) / 3) <= usize::MAX,
    ensures
        r@ == base64_standard(data@),
        r@.len() == 4 * ((data@.len() + 2) / 3),
{
    base64::Engine::encode(&base64::engine::general_purpose::STANDARD, data)
}

/// The PNG of a page as a `data:` URL for the vision request.
pub fn image_data_url(png: &[u8]) -> (r: String)
    requires
        4 * ((png@.len() + 2) / 3) <= usize::MAX,
    ensures
        r@ == "data:image/png;base64,"@ + base64_standard(png@),
{
    let mut url = String::from_str("data:image/png;base64,");
    let b64 = encode_base64_standard(png);
    url.append(b64.as_str());
    url
}

} // verus!
