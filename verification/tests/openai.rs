use bourbaki::db::{concept_row, concept_rows, normalize_concept_type, page_preview};
use bourbaki::openai::{
    concept_request_text, extract_latex_fence, image_data_url, ConceptItem, CONCEPT_PROMPT,
};

#[test]
fn fenced_latex_is_extracted() {
    assert_eq!(extract_latex_fence("Here:\n```latex\n\\frac{a}{b}\n```\nthanks"), "\\frac{a}{b}");
    assert_eq!(extract_latex_fence("  plain text  "), "plain text");
    assert_eq!(extract_latex_fence("```LaTeX  y"), "y");
    assert_eq!(extract_latex_fence("```latexlatex z```"), "z");
    assert_eq!(extract_latex_fence("```latex LaTeX\n q ```"), "LaTeX\n q");
    assert_eq!(extract_latex_fence("``` \n```"), "");
}

#[test]
fn concept_request_wraps_the_page() {
    assert_eq!(concept_request_text("abc"), format!("{CONCEPT_PROMPT}\n\n---\nabc\n---"));
    let long = "x".repeat(12_005);
    let text = concept_request_text(&long);
    assert_eq!(text, format!("{CONCEPT_PROMPT}\n\n---\n{}\n---", "x".repeat(12_000)));
}

#[test]
fn data_url_uses_standard_base64() {
    assert_eq!(image_data_url(&[0xff, 0, 1]), "data:image/png;base64,/wAB");
    assert_eq!(image_data_url(&[]), "data:image/png;base64,");
    assert_eq!(image_data_url(b"ab"), "data:image/png;base64,YWI=");
}

#[test]
fn concept_kinds_are_normalized() {
    assert_eq!(normalize_concept_type("Theorem"), "theorem");
    assert_eq!(normalize_concept_type("LEMMA"), "lemma");
    assert_eq!(normalize_concept_type("remark"), "remark");
    assert_eq!(normalize_concept_type("Corollary"), "other");
    assert_eq!(normalize_concept_type(""), "other");
    assert_eq!(normalize_concept_type(" proof"), "other");
}

#[test]
fn concept_rows_clip_latex() {
    let item = ConceptItem {
        kind: "Definition".into(),
        label: Some("定義2.1".into()),
        name: None,
        latex: "é".repeat(8_010),
    };
    let row = concept_row(&item);
    assert_eq!(row.kind, "definition");
    assert_eq!(row.label.as_deref(), Some("定義2.1"));
    assert_eq!(row.name, None);
    assert_eq!(row.latex.chars().count(), 8_000);
    let rows = concept_rows(&vec![item]);
    assert_eq!(rows.len(), 1);
    assert_eq!(rows[0].kind, "definition");
}

#[test]
fn preview_is_first_200_chars() {
    assert_eq!(page_preview("short"), "short");
    let p = page_preview(&"定".repeat(300));
    assert_eq!(p.chars().count(), 200);
}
