use bourbaki::chatgpt_session::{
    after_callback, build_auth_url, callback_port_candidates, conversation_messages,
    parse_callback_request, parse_query, parse_sse_last_content, percent_encode, query_value,
    redirect_uri, reply_from_stream, CallbackResult, LoginStep, SessionStore,
};
use bourbaki::chatgpt_session::{chat_status, session_expired_message, ChatStatus};

#[test]
fn auth_url_is_exact() {
    let url = build_auth_url("CH", "ST", 1455);
    assert_eq!(
        url,
        "https://auth.openai.com/oauth/authorize?response_type=code\
         &client_id=app_EMoamEEZ73f0CkXaXp7hrann\
         &redirect_uri=http%3A%2F%2Flocalhost%3A1455%2Fauth%2Fcallback\
         &scope=openid%20profile%20email%20offline_access%20api.connectors.read%20api.connectors.invoke\
         &code_challenge=CH&code_challenge_method=S256&state=ST\
         &id_token_add_organizations=true&codex_cli_simplified_flow=true&originator=math_teacher"
    );
}

#[test]
fn percent_encoding_of_utf8_bytes() {
    assert_eq!(percent_encode("a b~é/"), "a%20b~%C3%A9%2F");
    assert_eq!(percent_encode("AZaz09-_.~"), "AZaz09-_.~");
    assert_eq!(percent_encode(""), "");
}

#[test]
fn redirect_uri_formats_the_port() {
    assert_eq!(redirect_uri(0), "http://localhost:0/auth/callback");
    assert_eq!(redirect_uri(65535), "http://localhost:65535/auth/callback");
    assert_eq!(callback_port_candidates(), vec![1455, 8080, 8787, 9090, 0]);
}

#[test]
fn query_pairs_split_once_and_last_wins() {
    let p = parse_query("code=abc&state=x=y&flag");
    assert_eq!(
        p,
        vec![
            ("code".to_string(), "abc".to_string()),
            ("state".to_string(), "x=y".to_string()),
            ("flag".to_string(), String::new()),
        ]
    );
    let q = parse_query("a=1&a=2");
    assert_eq!(query_value(&q, "a"), Some("2".to_string()));
    assert_eq!(query_value(&q, "b"), None);
}

#[test]
fn callback_request_parsing() {
    let cb = parse_callback_request(
        "GET /auth/callback?code=C1&state=S1 HTTP/1.1\r\nHost: localhost\r\n\r\n",
    )
    .unwrap();
    assert_eq!(cb.code, "C1");
    assert_eq!(cb.state, "S1");
    assert!(parse_callback_request("GET /auth/callback?code=C1 HTTP/1.1\r\n").is_none());
    assert!(parse_callback_request("GET /favicon.ico HTTP/1.1\r\n").is_none());
    assert!(parse_callback_request("").is_none());
}

#[test]
fn callback_state_is_checked() {
    let ok = after_callback(Ok(CallbackResult { code: "C".into(), state: "S".into() }), "S");
    assert!(matches!(ok, LoginStep::Exchange { code } if code == "C"));
    let bad = after_callback(Ok(CallbackResult { code: "C".into(), state: "T".into() }), "S");
    assert!(matches!(bad, LoginStep::Fail { error } if error == "state mismatch"));
    let err = after_callback(Err("closed".into()), "S");
    assert!(matches!(err, LoginStep::Fail { error } if error == "closed"));
}

#[test]
fn store_read_after_write() {
    let mut s = SessionStore::empty();
    assert_eq!(s.access_token(), None);
    s.store_tokens("tok".into(), Some("ref".into()));
    assert_eq!(s.access_token(), Some("tok".to_string()));
    s.store_tokens("tok2".into(), None);
    assert_eq!(s.refresh_token, Some("ref".to_string()));
    s.store_tokens(String::new(), None);
    assert_eq!(s.access_token(), None);
    s.set_vision_api_key("sk-1".into());
    assert_eq!(s.vision_api_key(None), Some("sk-1".to_string()));
    assert_eq!(s.vision_api_key(Some(String::new())), Some("sk-1".to_string()));
    assert_eq!(s.vision_api_key(Some("sk-env".into())), Some("sk-env".to_string()));
    s.clear_tokens();
    assert_eq!(s.access_token(), None);
    assert_eq!(s.refresh_token, None);
    assert_eq!(s.vision_api_key(None), Some("sk-1".to_string()));
    s.set_vision_api_key(String::new());
    assert_eq!(s.vision_api_key(None), None);
}

#[test]
fn sse_last_message_before_done() {
    let sse = "data: {\"message\":{\"content\":{\"parts\":[\"Hel\"]}}}\n\n\
               event: ping\n\
               data: {\"message\":{\"content\":{\"parts\":[\"Hello\"]}}}\r\n\
               data: {\"message\":{\"content\":{\"parts\":[\"\"]}}}\n\
               data: not json\n\
               data:  [DONE] \n\
               data: {\"message\":{\"content\":{\"parts\":[\"late\"]}}}\n";
    assert_eq!(parse_sse_last_content(sse), Some("Hello".to_string()));
    assert_eq!(parse_sse_last_content("data: [DONE]\n"), None);
    assert_eq!(reply_from_stream(sse), Ok("Hello".to_string()));
    assert_eq!(reply_from_stream(""), Err("ChatGPT返答が空です".to_string()));
}

#[test]
fn conversation_message_order_and_parent() {
    let hist = vec![("user".to_string(), "q1".to_string()), ("assistant".to_string(), "a1".to_string())];
    let (msgs, parent) = conversation_messages("sys", &hist, "q2");
    assert_eq!(msgs.len(), 4);
    assert_eq!(msgs[0], ("system".to_string(), "sys".to_string()));
    assert_eq!(msgs[3], ("user".to_string(), "q2".to_string()));
    assert_eq!(parent, Some(2));
    let (msgs, parent) = conversation_messages("", &vec![], "q");
    assert_eq!(msgs, vec![("user".to_string(), "q".to_string())]);
    assert_eq!(parent, None);
}

#[test]
fn auth_url_query_gives_back_its_values() {
    let url = build_auth_url("E9Melhoa2OwvFrEMTJguCHaoeK1t8URWbuGJSstw-cM", "xyz_-AB", 1455);
    let query = url.splitn(2, '?').nth(1).unwrap();
    let params = parse_query(query);
    assert_eq!(query_value(&params, "state"), Some("xyz_-AB".to_string()));
    assert_eq!(
        query_value(&params, "code_challenge"),
        Some("E9Melhoa2OwvFrEMTJguCHaoeK1t8URWbuGJSstw-cM".to_string())
    );
    assert_eq!(query_value(&params, "code_challenge_method"), Some("S256".to_string()));
    assert_eq!(query_value(&params, "response_type"), Some("code".to_string()));
    assert_eq!(
        query_value(&params, "redirect_uri"),
        Some("http%3A%2F%2Flocalhost%3A1455%2Fauth%2Fcallback".to_string())
    );
}

#[test]
fn percent_encoding_alphabet() {
    let e = percent_encode("a b&c=d/é~");
    assert_eq!(e, "a%20b%26c%3Dd%2F%C3%A9~");
    assert!(e.chars().all(|c| c.is_ascii_alphanumeric() || "-_.~%".contains(c)));
}

#[test]
fn chat_status_reading() {
    assert!(matches!(chat_status(200), ChatStatus::Success));
    assert!(matches!(chat_status(299), ChatStatus::Success));
    assert!(matches!(chat_status(401), ChatStatus::SessionExpired));
    assert!(matches!(chat_status(500), ChatStatus::Failed));
    assert!(matches!(chat_status(302), ChatStatus::Failed));
    assert_eq!(session_expired_message(), "ChatGPT セッション切れ。設定から再ログインしてください。");
}
