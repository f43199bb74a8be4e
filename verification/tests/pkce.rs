use bourbaki::pkce::{generate_code_challenge, generate_code_verifier, generate_state};

fn url_safe(s: &str) -> bool {
    s.chars().all(|c| c.is_ascii_alphanumeric() || c == '-' || c == '_')
}

#[test]
fn challenge_matches_rfc7636_example() {
    assert_eq!(
        generate_code_challenge("dBjftJeZ4CVP-mB92K27uhbUJU1p1r_wW1gFWFOEjXk"),
        "E9Melhoa2OwvFrEMTJguCHaoeK1t8URWbuGJSstw-cM"
    );
}

#[test]
fn verifier_shape() {
    let v = generate_code_verifier();
    assert_eq!(v.len(), 86);
    assert!(url_safe(&v));
    assert_ne!(v, generate_code_verifier());
    assert_eq!(generate_code_challenge(&v).len(), 43);
}

#[test]
fn state_shape() {
    let s = generate_state();
    assert_eq!(s.len(), 22);
    assert!(url_safe(&s));
}
