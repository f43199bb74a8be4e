use bourbaki::json::{
    completion_reply_text, completion_text, event_text, json_field, json_first_item, string_field,
    Json,
};

fn obj(entries: Vec<(&str, Json)>) -> Json {
    Json::Object(entries.into_iter().map(|(k, v)| (k.to_string(), v)).collect())
}

#[test]
fn completion_text_from_bytes() {
    let body = br#"{"choices":[{"message":{"role":"assistant","content":"```latex\nx\n```"}},{"message":{"content":"second"}}]}"#;
    assert_eq!(completion_reply_text(body), Ok(Some("```latex\nx\n```".to_string())));
    assert_eq!(completion_reply_text(br#"{"choices":[]}"#), Ok(None));
    assert_eq!(completion_reply_text(br#"{"choices":[{"message":{"content":7}}]}"#), Ok(None));
    assert!(completion_reply_text(b"not json").is_err());
}

#[test]
fn field_lookups() {
    let v = obj(vec![("a", Json::Str("x".into())), ("b", Json::Number("3".into()))]);
    assert_eq!(string_field(&v, "a"), Some("x".to_string()));
    assert_eq!(string_field(&v, "b"), None);
    assert_eq!(string_field(&v, "c"), None);
    assert!(json_field(&Json::Null, "a").is_none());
    assert!(json_first_item(&Json::Array(vec![])).is_none());
    assert!(matches!(json_first_item(&Json::Array(vec![Json::Bool(true)])), Some(Json::Bool(true))));
}

#[test]
fn event_text_takes_the_first_part() {
    let parts = Json::Array(vec![Json::Str("first".into()), Json::Str("last".into())]);
    let v = obj(vec![("message", obj(vec![("content", obj(vec![("parts", parts)]))]))]);
    assert_eq!(event_text(&v), Some("first".to_string()));
    assert_eq!(event_text(&obj(vec![("message", Json::Null)])), None);
    let choices = Json::Array(vec![obj(vec![("message", obj(vec![("content", Json::Str("c".into()))]))])]);
    assert_eq!(completion_text(&obj(vec![("choices", choices)])), Some("c".to_string()));
}
