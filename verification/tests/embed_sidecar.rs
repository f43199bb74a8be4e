use bourbaki::embed_sidecar::{embedding_from_reply, embedding_input};

#[test]
fn reply_with_embedding() {
    assert_eq!(embedding_from_reply(br#"{"b64":"AQID"}"#), Ok(vec![1, 2, 3]));
}

#[test]
fn reply_errors() {
    assert_eq!(embedding_from_reply(br#"{"error":"boom","b64":"AQID"}"#), Err("boom".to_string()));
    assert_eq!(embedding_from_reply(br#"{}"#), Err("embedder 応答に b64 がありません".to_string()));
    assert!(embedding_from_reply(b"not json").unwrap_err().starts_with("embedder JSON: "));
    assert!(embedding_from_reply(br#"{"b64":"!!"}"#).unwrap_err().starts_with("base64: "));
}

#[test]
fn embedding_input_is_clipped() {
    assert_eq!(embedding_input("abc"), "abc");
    assert_eq!(embedding_input(&"x".repeat(16_001)).len(), 16_000);
}
