use bourbaki::openai::ConceptItem;
use bourbaki::session::{
    compressed_history, concept_context, is_selection_mode, memory_context, new_concept_ids,
    normalize_user_text, pages_of_fused_ids, plan_compression, prefetch_range, rag_page_context,
    search_limit, session_transcript,
};

#[test]
fn questions_are_trimmed_and_blank_ones_refused() {
    assert_eq!(normalize_user_text("  what is a group? \n"), Ok("what is a group?".to_string()));
    assert_eq!(normalize_user_text(" \t "), Err("空のメッセージは送れません".to_string()));
}

#[test]
fn selection_mode_needs_nonblank_latex() {
    assert!(is_selection_mode(&Some("x^2".to_string())));
    assert!(!is_selection_mode(&Some("  \n".to_string())));
    assert!(!is_selection_mode(&None));
}

#[test]
fn page_context_blocks() {
    let pages = vec![(3, "x".to_string()), (-1, "y".to_string())];
    assert_eq!(rag_page_context(&pages), "=== ページ3 ===\nx\n\n=== ページ-1 ===\ny\n\n");
    assert_eq!(rag_page_context(&vec![]), "");
}

#[test]
fn only_new_concepts_are_added() {
    assert_eq!(new_concept_ids(&vec![4, 1, 7, 4], &vec![1, 2]), vec![4, 7, 4]);
}

#[test]
fn concept_context_lines() {
    let cs = vec![
        ConceptItem { kind: "theorem".into(), label: Some("定理1".into()), name: Some("極限".into()), latex: "L".into() },
        ConceptItem { kind: "lemma".into(), label: None, name: Some(String::new()), latex: "M".into() },
    ];
    assert_eq!(
        concept_context(&cs),
        "=== 関連概念（GraphRAG） ===\n[theorem 定理1 極限] L\n[lemma ] M\n"
    );
    assert_eq!(concept_context(&vec![]), "");
}

#[test]
fn memory_bullets() {
    assert_eq!(memory_context(&vec!["a".to_string(), "b".to_string()]), "- a\n- b");
    assert_eq!(memory_context(&vec![]), "");
}

#[test]
fn compression_keeps_six_recent() {
    let all: Vec<(i64, String, String)> =
        (1..=8).map(|i| (i as i64, "user".to_string(), format!("m{i}"))).collect();
    let plan = plan_compression(&all).unwrap();
    assert_eq!(plan.ids, vec![1, 2]);
    assert_eq!(plan.old_pairs[1], ("user".to_string(), "m2".to_string()));
    assert_eq!(plan.recent.len(), 6);
    assert_eq!(plan.recent[0].1, "m3");
    assert!(plan_compression(&all[..6].to_vec()).is_none());
    let h = compressed_history("S", &plan.recent);
    assert_eq!(h.len(), 7);
    assert_eq!(h[0], ("assistant".to_string(), "【会話圧縮サマリー】\nS".to_string()));
    assert_eq!(h[6].1, "m8");
}

#[test]
fn transcript_and_assistant_flag() {
    let pairs = vec![("user".to_string(), "q".to_string()), ("assistant".to_string(), "a".to_string())];
    assert_eq!(session_transcript(&pairs), ("user: q\nassistant: a".to_string(), true));
    assert_eq!(session_transcript(&pairs[..1].to_vec()), ("user: q".to_string(), false));
}

#[test]
fn search_limits() {
    assert_eq!(search_limit(None), 8);
    assert_eq!(search_limit(Some(0)), 1);
    assert_eq!(search_limit(Some(-5)), 1);
    assert_eq!(search_limit(Some(100)), 30);
    assert_eq!(search_limit(Some(5)), 5);
}

#[test]
fn prefetch_window() {
    assert_eq!(prefetch_range(1), vec![1, 2, 3]);
    assert_eq!(prefetch_range(10), vec![8, 9, 10, 11, 12]);
    assert_eq!(prefetch_range(-4), Vec::<i32>::new());
}

#[test]
fn fused_ids_to_pages() {
    let rows = vec![(10, 1), (11, 2), (12, 2), (13, 5)];
    assert_eq!(pages_of_fused_ids(&vec![11, 12, 99, 13, 10], &rows, 4), vec![2, 5]);
    assert_eq!(pages_of_fused_ids(&vec![10, 13, 11], &rows, 10), vec![1, 5, 2]);
}
