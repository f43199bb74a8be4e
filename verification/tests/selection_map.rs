use bourbaki::selection_map::map_selection_to_excerpt;

#[test]
fn finds_raw_substring() {
    let l = r"see \mathbb{R}^n for Euclidean space";
    let ex = map_selection_to_excerpt(l, r"\mathbb{R}^n", 6).unwrap();
    assert!(ex.contains("mathbb"), "got: {ex:?}");
}

#[test]
fn finds_when_spaces_differ() {
    let l = "abc  def\nghi";
    let ex = map_selection_to_excerpt(l, "abcdef", 2);
    assert!(ex.is_some());
}

#[test]
fn line_fragments() {
    let l = "定理 1.2.3 次が成り立つ";
    let ex = map_selection_to_excerpt(l, "定理 1.2.3", 4).unwrap();
    assert!(ex.contains("定理"));
}

#[test]
fn raw_match_padding_is_exact() {
    let l = r"see \mathbb{R}^n for Euclidean space";
    let ex = map_selection_to_excerpt(l, r"\mathbb{R}^n", 6).unwrap();
    assert_eq!(ex, r"see \mathbb{R}^n for E");
}

#[test]
fn zero_padding_gives_trimmed_selection() {
    let l = "alpha beta gamma";
    assert_eq!(map_selection_to_excerpt(l, "  beta \n", 0), Some("beta".to_string()));
}

#[test]
fn blank_selection_is_none() {
    assert_eq!(map_selection_to_excerpt("anything", " \t\n ", 10), None);
    assert_eq!(map_selection_to_excerpt("anything", "", 10), None);
}

#[test]
fn whitespace_insensitive_span() {
    let l = "abc  def\nghi";
    assert_eq!(map_selection_to_excerpt(l, "abcdef", 0), Some("abc  def".to_string()));
    assert_eq!(map_selection_to_excerpt(l, "abcdef", 2), Some("abc  def\ng".to_string()));
}

#[test]
fn whitespace_insensitive_needs_two_chars() {
    assert_eq!(map_selection_to_excerpt("a b", "ab", 0), Some("a b".to_string()));
    assert_eq!(map_selection_to_excerpt("x y", "q", 0), None);
}

#[test]
fn line_by_line_span() {
    let l = "first line here\nmiddle\nlast line there";
    let sel = "first line\nzz\nlast line";
    assert_eq!(
        map_selection_to_excerpt(l, sel, 0),
        Some("first line here\nmiddle\nlast line".to_string())
    );
}

#[test]
fn nothing_found_is_none() {
    assert_eq!(map_selection_to_excerpt("hello world", "xyz\nuvw", 5), None);
}

#[test]
fn padding_counts_characters() {
    // "定" is three bytes but one character of context.
    let l = "定x定";
    assert_eq!(map_selection_to_excerpt(l, "x", 1), Some("定x定".to_string()));
    let page = "定理 1.2.3 次が成り立つ";
    assert_eq!(
        map_selection_to_excerpt(page, "定理 1.2.3", 5),
        Some("定理 1.2.3 次が成り".to_string())
    );
}

#[test]
fn whitespace_insensitive_after_multibyte_text() {
    assert_eq!(map_selection_to_excerpt("定 AB CD", "ABC", 0), Some("AB C".to_string()));
    assert_eq!(map_selection_to_excerpt("定 AB CD", "ABC", 1), Some("AB CD".to_string()));
}

#[test]
fn padding_clamps_at_both_ends() {
    assert_eq!(map_selection_to_excerpt("abc", "b", 100), Some("abc".to_string()));
}

#[test]
fn padded_raw_match_keeps_the_selection() {
    let page = "定理 1.2.3 次が成り立つ";
    let ex = map_selection_to_excerpt(page, " 1.2.3 ", 4).unwrap();
    assert_eq!(ex, "定理 1.2.3 次が成");
    assert!(ex.contains("1.2.3"));
    let ascii = map_selection_to_excerpt("let x = y + z;", "y", 4).unwrap();
    assert_eq!(ascii, "x = y + z");
}
