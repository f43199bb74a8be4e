//! ChatGPT sign-in with OAuth 2.0 PKCE: the authorization URL, the browser's
//! callback request, the stored session, and the reply stream of the chat endpoint.

use vstd::prelude::*;
use vstd::utf8::encode_utf8;

use crate::json::{event_text, event_text_of, json_of_bytes, parse_json_bytes};
use crate::text::{
    chars_eq, decimal, find, find_chars, has_prefix, lemma_find_from_result, lemma_find_from_skip,
    lemma_split_on_len, matches_at,
    lines_of, push_char, push_decimal, split_char, split_on, starts_with, str_lines, string_from_chars,
    sub_chars, to_chars, trim, trim_bounds, words, words_of,
};

verus! {

// ── authorization URL ──────────────────────────────────────────────
/// A byte that `percent_encode` keeps as it is.
pub open spec fn unreserved(b: u8) -> bool {
    ||| 0x41 <= b <= 0x5A
    ||| 0x61 <= b <= 0x7A
    ||| 0x30 <= b <= 0x39
    ||| b == 0x2D
    ||| b == 0x5F
    ||| b == 0x2E
    ||| b == 0x7E
}

/// Upper-case hexadecimal digit of `n < 16`.
pub open spec fn hex_digit(n: u8) -> char {
    if n < 10 {
        (0x30 + n) as char
    } else {
        (0x41 + n - 10) as char
    }
}

/// The encoding of one byte: itself, or `%` and two upper-case hex digits.
pub open spec fn pct_byte(b: u8) -> Seq<char> {
    if unreserved(b) {
        seq![b as char]
    } else {
        seq!['%', hex_digit(b / 16), hex_digit(b % 16)]
    }
}

/// Percent-encoding of a byte string.
pub open spec fn pct(bytes: Seq<u8>) -> Seq<char>
    decreases bytes.len(),
{
    if bytes.len() == 0 {
        seq![]
    } else {
        pct(bytes.drop_last()) + pct_byte(bytes.last())
    }
}

fn hex_char(n: u8) -> (c: char)
    requires
        n < 16,
    ensures
        c == hex_digit(n),
{
    if n < 10 {
        (0x30 + n) as char
    } else {
        (0x41 + n - 10) as char
    }
}

/// Percent-encodes the UTF-8 bytes of `s`, keeping `A-Z a-z 0-9 - _ . ~`.
pub fn percent_encode(s: &str) -> (r: String)
    ensures
        r@ == pct(encode_utf8(s@)),
{
    let bytes = s.as_bytes();
    let mut out = String::new();
    let mut i: usize = 0;
    assert(bytes@.take(0) =~= Seq::<u8>::empty());
    while i < bytes.len()
        invariant
            i <= bytes.len(),
            bytes@ == encode_utf8(s@),
            out@ == pct(bytes@.take(i as int)),
        decreases bytes.len() - i,
    {
        let b = bytes[i];
        assert(bytes@.take(i + 1).drop_last() =~= bytes@.take(i as int));
        assert(bytes@.take(i + 1).last() == b);
        let keep = (0x41 <= b && b <= 0x5A) || (0x61 <= b && b <= 0x7A) || (0x30 <= b && b <= 0x39)
            || b == 0x2D || b == 0x5F || b == 0x2E || b == 0x7E;
        if keep {
            push_char(&mut out, b as char);
        } else {
            push_char(&mut out, '%');
            push_char(&mut out, hex_char(b / 16));
            push_char(&mut out, hex_char(b % 16));
        }
        assert(out@ =~= pct(bytes@.take(i as int)) + pct_byte(b));
        i += 1;
    }
    assert(bytes@.take(bytes.len() as int) =~= bytes@);
    out
}

/// Bytes that need no escaping come out unchanged, one character each.
pub proof fn law_percent_encode_keeps_unreserved(bytes: Seq<u8>)
    requires
        forall|i: int| 0 <= i < bytes.len() ==> unreserved(#[trigger] bytes[i]),
    ensures
        pct(bytes) == bytes.map_values(|b: u8| b as char),
    decreases bytes.len(),
{
    if bytes.len() > 0 {
        let init = bytes.drop_last();
        assert forall|i: int| 0 <= i < init.len() implies unreserved(#[trigger] init[i]) by {
            assert(init[i] == bytes[i]);
        }
        law_percent_encode_keeps_unreserved(init);
        assert(unreserved(bytes.last()));
        assert(bytes.map_values(|b: u8| b as char) =~= init.map_values(|b: u8| b as char).push(
            bytes.last() as char,
        ));
    } else {
        assert(bytes.map_values(|b: u8| b as char) =~= Seq::<char>::empty());
    }
}

/// Every byte that needs escaping becomes three characters, `%` and two hex digits.
pub proof fn law_percent_encode_length(bytes: Seq<u8>)
    ensures
        pct(bytes).len() == bytes.len() + 2 * bytes.filter(|b: u8| !unreserved(b)).len(),
    decreases bytes.len(),
{
    reveal_with_fuel(Seq::filter, 1);
    if bytes.len() > 0 {
        law_percent_encode_length(bytes.drop_last());
        assert(bytes.drop_last() =~= bytes.drop_last());
    } else {
        assert(bytes.filter(|b: u8| !unreserved(b)) =~= Seq::<u8>::empty());
    }
}

/// A character that percent-encoding can produce: an unreserved one, or `%`.
pub open spec fn pct_out_char(c: char) -> bool {
    c == '%' || ((c as u32) < 0x80 && unreserved(c as u8))
}

/// The output of percent-encoding is made of unreserved characters and `%`.
pub proof fn law_percent_encode_alphabet(bytes: Seq<u8>)
    ensures
        forall|i: int| 0 <= i < pct(bytes).len() ==> pct_out_char(#[trigger] pct(bytes)[i]),
    decreases bytes.len(),
{
    if bytes.len() > 0 {
        let init = bytes.drop_last();
        law_percent_encode_alphabet(init);
        let b = bytes.last();
        lemma_pct_byte_alphabet(b);
        assert forall|i: int| 0 <= i < pct(bytes).len() implies pct_out_char(
            #[trigger] pct(bytes)[i],
        ) by {
            if i < pct(init).len() {
                assert(pct(bytes)[i] == pct(init)[i]);
            } else {
                assert(pct(bytes)[i] == pct_byte(b)[i - pct(init).len()]);
            }
        }
    }
}

proof fn lemma_hex_digit(n: u8)
    requires
        n < 16,
    ensures
        (hex_digit(n) as u32) < 0x80,
        unreserved(hex_digit(n) as u8),
        hex_value(hex_digit(n)) == Some(n),
{
}

proof fn lemma_pct_byte_alphabet(b: u8)
    ensures
        forall|i: int| 0 <= i < pct_byte(b).len() ==> pct_out_char(#[trigger] pct_byte(b)[i]),
{
    if !unreserved(b) {
        lemma_hex_digit(b / 16);
        lemma_hex_digit(b % 16);
    }
}

/// The value of a hexadecimal digit (either case).
pub open spec fn hex_value(c: char) -> Option<u8> {
    let u = c as u32;
    if 0x30 <= u <= 0x39 {
        Some((u - 0x30) as u8)
    } else if 0x41 <= u <= 0x46 {
        Some((u - 0x41 + 10) as u8)
    } else if 0x61 <= u <= 0x66 {
        Some((u - 0x61 + 10) as u8)
    } else {
        None
    }
}

/// Percent-decoding, front to back: `%` and two hex digits give one byte, any
/// other character gives its own code (as a byte).
pub open spec fn pct_decode(s: Seq<char>) -> Seq<u8>
    decreases s.len(),
{
    if s.len() == 0 {
        seq![]
    } else if s[0] == '%' && s.len() >= 3 && hex_value(s[1]) is Some && hex_value(s[2]) is Some {
        seq![(16 * hex_value(s[1])->0 + hex_value(s[2])->0) as u8] + pct_decode(s.skip(3))
    } else {
        seq![s[0] as u8] + pct_decode(s.skip(1))
    }
}

proof fn lemma_pct_concat(a: Seq<u8>, b: Seq<u8>)
    ensures
        pct(a + b) == pct(a) + pct(b),
    decreases b.len(),
{
    if b.len() == 0 {
        assert(a + b =~= a);
        assert(pct(a) + pct(b) =~= pct(a));
    } else {
        lemma_pct_concat(a, b.drop_last());
        assert((a + b).drop_last() =~= a + b.drop_last());
        assert((a + b).last() == b.last());
        assert(pct(a) + pct(b) =~= pct(a) + pct(b.drop_last()) + pct_byte(b.last()));
    }
}

proof fn lemma_decode_byte(b: u8, rest: Seq<char>)
    ensures
        pct_decode(pct_byte(b) + rest) == seq![b] + pct_decode(rest),
{
    let s = pct_byte(b) + rest;
    if unreserved(b) {
        assert(s[0] == b as char);
        assert(s.skip(1) =~= rest);
    } else {
        lemma_hex_digit(b / 16);
        lemma_hex_digit(b % 16);
        assert(s[0] == '%');
        assert(s[1] == hex_digit(b / 16));
        assert(s[2] == hex_digit(b % 16));
        assert(s.skip(3) =~= rest);
        assert((16 * (b / 16) + b % 16) as u8 == b);
    }
}

/// Decoding the percent-encoding of a byte string gives the bytes back.
pub proof fn law_percent_decode_round_trip(bytes: Seq<u8>)
    ensures
        pct_decode(pct(bytes)) == bytes,
    decreases bytes.len(),
{
    if bytes.len() > 0 {
        let head = seq![bytes[0]];
        let tail = bytes.drop_first();
        assert(bytes =~= head + tail);
        lemma_pct_concat(head, tail);
        assert(head.drop_last() =~= Seq::<u8>::empty());
        assert(pct(Seq::<u8>::empty()) =~= Seq::<char>::empty());
        assert(head.last() == bytes[0]);
        assert(pct(head) =~= pct_byte(bytes[0]));
        lemma_decode_byte(bytes[0], pct(tail));
        law_percent_decode_round_trip(tail);
    }
}

pub open spec fn auth_endpoint() -> Seq<char> {
    "https://auth.openai.com/oauth/authorize"@
}

pub open spec fn token_endpoint() -> Seq<char> {
    "https://auth.openai.com/oauth/token"@
}

pub open spec fn client_id() -> Seq<char> {
    "app_EMoamEEZ73f0CkXaXp7hrann"@
}

pub open spec fn scopes() -> Seq<char> {
    "openid profile email offline_access api.connectors.read api.connectors.invoke"@
}

/// The sign-in endpoint of OpenAI.
pub fn auth_endpoint_str() -> (r: &'static str)
    ensures
        r@ == auth_endpoint(),
{
    "https://auth.openai.com/oauth/authorize"
}

/// The token endpoint of OpenAI.
pub fn token_endpoint_str() -> (r: &'static str)
    ensures
        r@ == token_endpoint(),
{
    "https://auth.openai.com/oauth/token"
}

/// The OAuth client id of the Codex command line tool.
pub fn client_id_str() -> (r: &'static str)
    ensures
        r@ == client_id(),
{
    "app_EMoamEEZ73f0CkXaXp7hrann"
}

/// Ports tried, in order, for the local callback server (0: any free port).
pub fn callback_port_candidates() -> (r: Vec<u16>)
    ensures
        r@ == seq![1455u16, 8080, 8787, 9090, 0],
{
    vec![1455, 8080, 8787, 9090, 0]
}

/// `http://localhost:{port}/auth/callback`.
pub open spec fn redirect_uri_spec(port: u16) -> Seq<char> {
    "http://localhost:"@ + decimal(port as nat) + "/auth/callback"@
}

/// The redirect URI registered for the local callback server on `port`.
pub fn redirect_uri(port: u16) -> (r: String)
    ensures
        r@ == redirect_uri_spec(port),
{
    let mut r = String::from_str("http://localhost:");
    push_decimal(&mut r, port as u64);
    r.append("/auth/callback");
    r
}

/// The parameters of the authorization URL, in order: the fixed ones, the
/// percent-encoded redirect URI and scopes, and `challenge` and `state` as given.
pub open spec fn auth_params(challenge: Seq<char>, state: Seq<char>, port: u16) -> Seq<
    (Seq<char>, Seq<char>),
> {
    seq![
        ("response_type"@, "code"@),
        ("client_id"@, client_id()),
        ("redirect_uri"@, pct(encode_utf8(redirect_uri_spec(port)))),
        ("scope"@, pct(encode_utf8(scopes()))),
        ("code_challenge"@, challenge),
        ("code_challenge_method"@, "S256"@),
        ("state"@, state),
        ("id_token_add_organizations"@, "true"@),
        ("codex_cli_simplified_flow"@, "true"@),
        ("originator"@, "math_teacher"@),
    ]
}

/// The query of the authorization URL.
pub open spec fn auth_query(challenge: Seq<char>, state: Seq<char>, port: u16) -> Seq<char> {
    join_query(auth_params(challenge, state, port))
}

/// The authorization URL: the sign-in endpoint, `?`, and its query.
pub open spec fn auth_url(challenge: Seq<char>, state: Seq<char>, port: u16) -> Seq<char> {
    auth_endpoint() + "?"@ + auth_query(challenge, state, port)
}

/// `key=value` pairs joined by `&`.
fn join_query_exec(ps: &Vec<(String, String)>) -> (r: String)
    requires
        ps.len() > 0,
    ensures
        r@ == join_query(ps@.map_values(|p: (String, String)| pair_view(p))),
{
    let ghost pv = ps@.map_values(|p: (String, String)| pair_view(p));
    let mut out = ps[0].0.clone();
    push_char(&mut out, '=');
    out.append(ps[0].1.as_str());
    assert(pv.take(1).len() == 1);
    assert(out@ =~= join_query(pv.take(1)));
    let mut i: usize = 1;
    while i < ps.len()
        invariant
            1 <= i <= ps.len(),
            pv == ps@.map_values(|p: (String, String)| pair_view(p)),
            out@ == join_query(pv.take(i as int)),
        decreases ps.len() - i,
    {
        assert(pv.take(i + 1).drop_last() =~= pv.take(i as int));
        assert(pv.take(i + 1).last() == pair_view(ps@[i as int]));
        push_char(&mut out, '&');
        out.append(ps[i].0.as_str());
        push_char(&mut out, '=');
        out.append(ps[i].1.as_str());
        i += 1;
        assert(out@ =~= join_query(pv.take(i as int)));
    }
    assert(pv.take(ps.len() as int) =~= pv);
    out
}

proof fn lemma_pct_lacks_amp(bytes: Seq<u8>)
    ensures
        lacks(pct(bytes), '&'),
{
    law_percent_encode_alphabet(bytes);
    assert forall|i: int| 0 <= i < pct(bytes).len() implies pct(bytes)[i] != '&' by {
        assert(pct_out_char(pct(bytes)[i]));
    }
}

/// Parsing the query of the authorization URL gives back the state, the
/// challenge, the fixed parameters, and the redirect URI (once percent-decoded),
/// provided the challenge and the state hold no `&` (as the base64url values of
/// `generate_code_challenge` and `generate_state` do not).
pub proof fn law_auth_url_query(challenge: Seq<char>, state: Seq<char>, port: u16)
    requires
        lacks(challenge, '&'),
        lacks(state, '&'),
    ensures
        lookup(query_pairs(auth_query(challenge, state, port)), "state"@) == Some(state),
        lookup(query_pairs(auth_query(challenge, state, port)), "code_challenge"@) == Some(
            challenge,
        ),
        lookup(query_pairs(auth_query(challenge, state, port)), "code_challenge_method"@) == Some(
            "S256"@,
        ),
        lookup(query_pairs(auth_query(challenge, state, port)), "response_type"@) == Some("code"@),
        lookup(query_pairs(auth_query(challenge, state, port)), "redirect_uri"@) matches Some(r)
            && pct_decode(r) == encode_utf8(redirect_uri_spec(port)),
{
    reveal_strlit("response_type");
    reveal_strlit("code");
    reveal_strlit("client_id");
    reveal_strlit("app_EMoamEEZ73f0CkXaXp7hrann");
    reveal_strlit("redirect_uri");
    reveal_strlit("scope");
    reveal_strlit("code_challenge");
    reveal_strlit("code_challenge_method");
    reveal_strlit("S256");
    reveal_strlit("state");
    reveal_strlit("id_token_add_organizations");
    reveal_strlit("true");
    reveal_strlit("codex_cli_simplified_flow");
    reveal_strlit("originator");
    reveal_strlit("math_teacher");
    let ps = auth_params(challenge, state, port);
    lemma_pct_lacks_amp(encode_utf8(redirect_uri_spec(port)));
    lemma_pct_lacks_amp(encode_utf8(scopes()));
    assert forall|j: int| 0 <= j < ps.len() implies lacks((#[trigger] ps[j]).0, '=') && lacks(
        ps[j].0,
        '&',
    ) && lacks(ps[j].1, '&') by {}
    law_query_round_trip(ps);
    reveal_with_fuel(lookup, 11);
    law_percent_decode_round_trip(encode_utf8(redirect_uri_spec(port)));
}

/// Builds the URL that opens the ChatGPT sign-in page in the browser.
pub fn build_auth_url(challenge: &str, state: &str, port: u16) -> (r: String)
    ensures
        r@ == auth_url(challenge@, state@, port),
{
    let redirect = redirect_uri(port);
    let mut ps: Vec<(String, String)> = Vec::new();
    ps.push((String::from_str("response_type"), String::from_str("code")));
    ps.push((String::from_str("client_id"), String::from_str(client_id_str())));
    ps.push((String::from_str("redirect_uri"), percent_encode(redirect.as_str())));
    ps.push(
        (
            String::from_str("scope"),
            percent_encode(
                "openid profile email offline_access api.connectors.read api.connectors.invoke",
            ),
        ),
    );
    ps.push((String::from_str("code_challenge"), String::from_str(challenge)));
    ps.push((String::from_str("code_challenge_method"), String::from_str("S256")));
    ps.push((String::from_str("state"), String::from_str(state)));
    ps.push((String::from_str("id_token_add_organizations"), String::from_str("true")));
    ps.push((String::from_str("codex_cli_simplified_flow"), String::from_str("true")));
    ps.push((String::from_str("originator"), String::from_str("math_teacher")));
    assert(ps@.map_values(|p: (String, String)| pair_view(p)) =~= auth_params(
        challenge@,
        state@,
        port,
    ));
    let mut url = String::from_str(auth_endpoint_str());
    url.append("?");
    url.append(join_query_exec(&ps).as_str());
    url
}

// ── callback request ───────────────────────────────────────────────
/// `piece.splitn(2, '=')`: the key, and the value (empty without `=`).
pub open spec fn key_value(piece: Seq<char>) -> (Seq<char>, Seq<char>) {
    match find(piece, seq!['=']) {
        Some(i) => (piece.take(i), piece.skip(i + 1)),
        None => (piece, seq![]),
    }
}

/// The `key=value` pairs of a query string, in order.
pub open spec fn query_pairs(query: Seq<char>) -> Seq<(Seq<char>, Seq<char>)> {
    split_on(query, '&').map_values(|p: Seq<char>| key_value(p))
}

/// The value of the last pair with `key` (later pairs overwrite earlier ones).
pub open spec fn lookup(pairs: Seq<(Seq<char>, Seq<char>)>, key: Seq<char>) -> Option<Seq<char>>
    decreases pairs.len(),
{
    if pairs.len() == 0 {
        None
    } else if pairs.last().0 == key {
        Some(pairs.last().1)
    } else {
        lookup(pairs.drop_last(), key)
    }
}

// ── the query of the authorization URL ──────────────────────────────

/// `s` has no character `c`.
pub open spec fn lacks(s: Seq<char>, c: char) -> bool {
    forall|i: int| 0 <= i < s.len() ==> s[i] != c
}

/// `key=value` pairs joined by `&`.
pub open spec fn join_query(ps: Seq<(Seq<char>, Seq<char>)>) -> Seq<char>
    decreases ps.len(),
{
    if ps.len() == 0 {
        seq![]
    } else if ps.len() == 1 {
        ps[0].0 + seq!['='] + ps[0].1
    } else {
        join_query(ps.drop_last()) + seq!['&'] + ps.last().0 + seq!['='] + ps.last().1
    }
}

proof fn lemma_split_plain(s: Seq<char>, sep: char)
    requires
        lacks(s, sep),
    ensures
        split_on(s, sep) == seq![s],
    decreases s.len(),
{
    if s.len() > 0 {
        lemma_split_plain(s.drop_last(), sep);
        assert(s.drop_last().push(s.last()) =~= s);
    } else {
        assert(s =~= Seq::<char>::empty());
    }
}

proof fn lemma_split_after(prefix: Seq<char>, s: Seq<char>, sep: char)
    requires
        lacks(s, sep),
    ensures
        split_on(prefix + seq![sep] + s, sep) == split_on(prefix, sep).push(s),
    decreases s.len(),
{
    lemma_split_on_len(prefix, sep);
    if s.len() == 0 {
        assert(prefix + seq![sep] + s =~= prefix.push(sep));
        assert((prefix.push(sep)).drop_last() =~= prefix);
        assert(s =~= Seq::<char>::empty());
    } else {
        let t = prefix + seq![sep] + s;
        lemma_split_after(prefix, s.drop_last(), sep);
        assert(t.drop_last() =~= prefix + seq![sep] + s.drop_last());
        assert(t.last() == s.last());
        assert(s.drop_last().push(s.last()) =~= s);
        assert(split_on(prefix, sep).push(s.drop_last()).update(
            split_on(prefix, sep).len() as int,
            s.drop_last().push(s.last()),
        ) =~= split_on(prefix, sep).push(s));
    }
}

/// Splitting `k=v` at the first `=` gives back `k` and `v` when `k` has no `=`.
proof fn lemma_key_value(k: Seq<char>, v: Seq<char>)
    requires
        lacks(k, '='),
    ensures
        key_value(k + seq!['='] + v) == (k, v),
{
    let p = k + seq!['='] + v;
    let n = k.len() as int;
    assert forall|j: int| 0 <= j < n implies !matches_at(p, seq!['='], j) by {
        assert(p.subrange(j, j + 1)[0] == k[j]);
    }
    assert(matches_at(p, seq!['='], n)) by {
        assert(p.subrange(n, n + 1) =~= seq!['=']);
    }
    lemma_find_from_skip(p, seq!['='], 0, n);
    assert(p.take(n) =~= k);
    assert(p.skip(n + 1) =~= v);
}

/// Parsing a query joined from pairs gives the pairs back, when no key holds `=`
/// or `&` and no value holds `&`.
pub proof fn law_query_round_trip(ps: Seq<(Seq<char>, Seq<char>)>)
    requires
        ps.len() > 0,
        forall|j: int|
            0 <= j < ps.len() ==> lacks((#[trigger] ps[j]).0, '=') && lacks(ps[j].0, '&') && lacks(
                ps[j].1,
                '&',
            ),
    ensures
        query_pairs(join_query(ps)) == ps,
    decreases ps.len(),
{
    let q = join_query(ps);
    let last = ps.last();
    let seg = last.0 + seq!['='] + last.1;
    assert(ps[ps.len() - 1] == last);
    assert(lacks(seg, '&')) by {
        assert forall|i: int| 0 <= i < seg.len() implies seg[i] != '&' by {
            if i < last.0.len() {
                assert(seg[i] == last.0[i]);
            } else if i > last.0.len() {
                assert(seg[i] == last.1[i - last.0.len() - 1]);
            }
        }
    }
    lemma_key_value(last.0, last.1);
    if ps.len() == 1 {
        lemma_split_plain(seg, '&');
        assert(q == seg);
        assert(query_pairs(q) =~= ps);
    } else {
        let init = ps.drop_last();
        assert forall|j: int| 0 <= j < init.len() implies lacks((#[trigger] init[j]).0, '=')
            && lacks(init[j].0, '&') && lacks(init[j].1, '&') by {
            assert(init[j] == ps[j]);
        }
        law_query_round_trip(init);
        let pre = join_query(init);
        assert(q =~= pre + seq!['&'] + seg);
        lemma_split_after(pre, seg, '&');
        assert(query_pairs(q) =~= query_pairs(pre).push(key_value(seg)));
        assert(ps =~= init.push(last));
    }
}

/// The parameters of a query string `k1=v1&k2=v2…`, in order.
pub fn parse_query(query: &str) -> (r: Vec<(String, String)>)
    ensures
        r.len() == query_pairs(query@).len(),
        forall|j: int|
            0 <= j < r.len() ==> (#[trigger] r@[j]).0@ == query_pairs(query@)[j].0 && r@[j].1@
                == query_pairs(query@)[j].1,
{
    let q = to_chars(query);
    let pieces = split_char(&q, '&');
    let eq = vec!['='];
    let mut out: Vec<(String, String)> = Vec::new();
    let mut j: usize = 0;
    while j < pieces.len()
        invariant
            j <= pieces.len() == split_on(query@, '&').len(),
            q@ == query@,
            eq@ == seq!['='],
            forall|m: int|
                0 <= m < pieces.len() ==> #[trigger] pieces@[m]@ == split_on(query@, '&')[m],
            out.len() == j,
            forall|m: int|
                0 <= m < j ==> (#[trigger] out@[m]).0@ == key_value(split_on(query@, '&')[m]).0
                    && out@[m].1@ == key_value(split_on(query@, '&')[m]).1,
        decreases pieces.len() - j,
    {
        let piece = &pieces[j];
        match find_chars(piece, &eq) {
            Some(i) => {
                proof {
                    lemma_find_from_result(piece@, eq@, 0);
                    assert(matches_at(piece@, eq@, i as int));
                    assert(piece@.len() == piece.len());
                }
                let k = string_from_chars(piece, 0, i);
                let v = string_from_chars(piece, i + 1, piece.len());
                assert(piece@.take(i as int) =~= piece@.subrange(0, i as int));
                assert(piece@.skip(i + 1) =~= piece@.subrange(i + 1, piece.len() as int));
                out.push((k, v));
            },
            None => {
                let k = string_from_chars(piece, 0, piece.len());
                assert(piece@.subrange(0, piece.len() as int) =~= piece@);
                out.push((k, String::new()));
            },
        }
        j += 1;
    }
    out
}

/// The value of the last parameter named `key`.
pub fn query_value(params: &Vec<(String, String)>, key: &str) -> (r: Option<String>)
    ensures
        match r {
            Some(v) => lookup(params@.map_values(|p: (String, String)| (p.0@, p.1@)), key@) == Some(
                v@,
            ),
            None => lookup(params@.map_values(|p: (String, String)| (p.0@, p.1@)), key@) is None,
        },
{
    let ghost pv = params@.map_values(|p: (String, String)| (p.0@, p.1@));
    let key_s = String::from_str(key);
    let mut j = params.len();
    assert(pv.take(params.len() as int) =~= pv);
    while j > 0
        invariant
            j <= params.len(),
            pv == params@.map_values(|p: (String, String)| (p.0@, p.1@)),
            key_s@ == key@,
            lookup(pv, key@) == lookup(pv.take(j as int), key@),
        decreases j,
    {
        assert(pv.take(j as int).drop_last() =~= pv.take(j - 1));
        assert(pv.take(j as int).last() == pv[j - 1]);
        if params[j - 1].0 == key_s {
            return Some(params[j - 1].1.clone());
        }
        j -= 1;
    }
    assert(pv.take(0) =~= Seq::<(Seq<char>, Seq<char>)>::empty());
    None
}

/// The code and state that the browser brings back to the callback server.
pub struct CallbackResult {
    pub code: String,
    pub state: String,
}

/// The first line of a request, as `str::lines` gives it (empty when there is none).
pub open spec fn first_line(req: Seq<char>) -> Seq<char> {
    if str_lines(req).len() > 0 {
        str_lines(req)[0]
    } else {
        seq![]
    }
}

/// The request target: the second word of the first line (empty when there is none).
pub open spec fn request_path(req: Seq<char>) -> Seq<char> {
    let w = words(first_line(req));
    if w.len() > 1 {
        w[1]
    } else {
        seq![]
    }
}

/// The query: the text between the first and the second `?` of the path.
pub open spec fn request_query(req: Seq<char>) -> Option<Seq<char>> {
    let parts = split_on(request_path(req), '?');
    if parts.len() > 1 {
        Some(parts[1])
    } else {
        None
    }
}

/// `Some((code, state))` when the query of the request names both.
pub open spec fn callback_of(req: Seq<char>) -> Option<(Seq<char>, Seq<char>)> {
    match request_query(req) {
        None => None,
        Some(q) => match (lookup(query_pairs(q), "code"@), lookup(query_pairs(q), "state"@)) {
            (Some(c), Some(s)) => Some((c, s)),
            _ => None,
        },
    }
}

/// Reads `GET /auth/callback?code=…&state=… HTTP/1.1` from the text of a request.
pub fn parse_callback_request(req: &str) -> (r: Option<CallbackResult>)
    ensures
        match r {
            Some(cb) => callback_of(req@) == Some((cb.code@, cb.state@)),
            None => callback_of(req@) is None,
        },
{
    let rv = to_chars(req);
    let lines = lines_of(&rv);
    let first: Vec<char> = if lines.len() > 0 {
        sub_chars(&lines[0], 0, lines[0].len())
    } else {
        Vec::new()
    };
    assert(lines.len() > 0 ==> lines@[0]@.subrange(0, lines@[0]@.len() as int) =~= lines@[0]@);
    assert(first@ == first_line(req@));
    let ws = words_of(&first);
    let path: Vec<char> = if ws.len() > 1 {
        sub_chars(&ws[1], 0, ws[1].len())
    } else {
        Vec::new()
    };
    assert(ws.len() > 1 ==> ws@[1]@.subrange(0, ws@[1]@.len() as int) =~= ws@[1]@);
    assert(path@ == request_path(req@));
    let parts = split_char(&path, '?');
    if parts.len() <= 1 {
        return None;
    }
    let query = string_from_chars(&parts[1], 0, parts[1].len());
    assert(parts@[1]@.subrange(0, parts@[1]@.len() as int) =~= parts@[1]@);
    let params = parse_query(query.as_str());
    let ghost pv = params@.map_values(|p: (String, String)| (p.0@, p.1@));
    assert(pv =~= query_pairs(query@));
    let code = query_value(&params, "code");
    let state = query_value(&params, "state");
    match (code, state) {
        (Some(c), Some(s)) => Some(CallbackResult { code: c, state: s }),
        _ => None,
    }
}

/// What to do once the callback server has answered.
pub enum LoginStep {
    /// Exchange this authorization code for tokens.
    Exchange { code: String },
    /// Report this error and stop.
    Fail { error: String },
}

/// Decides after the callback: a failed wait or a state other than the one sent
/// ends the sign-in; otherwise the code is exchanged.
pub fn after_callback(callback: Result<CallbackResult, String>, expected_state: &str) -> (r:
    LoginStep)
    ensures
        match callback {
            Err(e) => r matches LoginStep::Fail { error } && error@ == e@,
            Ok(cb) => if cb.state@ == expected_state@ {
                r matches LoginStep::Exchange { code } && code@ == cb.code@
            } else {
                r matches LoginStep::Fail { error } && error@ == "state mismatch"@
            },
        },
{
    match callback {
        Err(e) => LoginStep::Fail { error: e },
        Ok(cb) => {
            let expected = String::from_str(expected_state);
            if cb.state == expected {
                LoginStep::Exchange { code: cb.code }
            } else {
                LoginStep::Fail { error: String::from_str("state mismatch") }
            }
        },
    }
}


// ── stored session ─────────────────────────────────────────────────
/// What the app keeps in `chatgpt_session.json`.
pub struct SessionStore {
    pub access_token: Option<String>,
    pub refresh_token: Option<String>,
    pub vision_api_key: Option<String>,
}

pub open spec fn opt_view(o: Option<String>) -> Option<Seq<char>> {
    match o {
        Some(s) => Some(s@),
        None => None,
    }
}

/// An absent or empty string counts as absent.
pub open spec fn nonempty(o: Option<Seq<char>>) -> Option<Seq<char>> {
    match o {
        Some(s) => if s.len() > 0 {
            Some(s)
        } else {
            None
        },
        None => None,
    }
}

/// The access token that the store offers.
pub open spec fn token_of(s: SessionStore) -> Option<Seq<char>> {
    nonempty(opt_view(s.access_token))
}

/// The store after signing in: the new access token, and the refresh token when one came.
pub open spec fn with_tokens(s: SessionStore, access: String, refresh: Option<String>) -> SessionStore {
    SessionStore {
        access_token: Some(access),
        refresh_token: if refresh is Some {
            refresh
        } else {
            s.refresh_token
        },
        vision_api_key: s.vision_api_key,
    }
}

/// The store after signing out.
pub open spec fn cleared(s: SessionStore) -> SessionStore {
    SessionStore { access_token: None, refresh_token: None, vision_api_key: s.vision_api_key }
}

/// The store after saving an API key; an empty key removes it.
pub open spec fn with_vision_key(s: SessionStore, key: String) -> SessionStore {
    SessionStore {
        access_token: s.access_token,
        refresh_token: s.refresh_token,
        vision_api_key: if key@.len() == 0 {
            None
        } else {
            Some(key)
        },
    }
}

/// The API key in use: `OPENAI_API_KEY` when set and not empty, else the saved one.
pub open spec fn vision_key_of(s: SessionStore, env_key: Option<String>) -> Option<Seq<char>> {
    if nonempty(opt_view(env_key)) is Some {
        nonempty(opt_view(env_key))
    } else {
        nonempty(opt_view(s.vision_api_key))
    }
}

fn clone_opt(o: &Option<String>) -> (r: Option<String>)
    ensures
        r == *o,
{
    match o {
        Some(s) => Some(s.clone()),
        None => None,
    }
}

fn nonempty_opt(o: &Option<String>) -> (r: Option<String>)
    ensures
        opt_view(r) == nonempty(opt_view(*o)),
{
    match o {
        Some(s) => if !s.as_str().is_empty() {
            Some(s.clone())
        } else {
            None
        },
        None => None,
    }
}

impl SessionStore {
    /// A store with nothing saved.
    pub fn empty() -> (r: SessionStore)
        ensures
            r.access_token is None && r.refresh_token is None && r.vision_api_key is None,
    {
        SessionStore { access_token: None, refresh_token: None, vision_api_key: None }
    }

    /// The saved access token, if it is not empty.
    pub fn access_token(&self) -> (r: Option<String>)
        ensures
            opt_view(r) == token_of(*self),
    {
        nonempty_opt(&self.access_token)
    }

    /// Records the tokens of a completed sign-in.
    pub fn store_tokens(&mut self, access: String, refresh: Option<String>)
        ensures
            *final(self) == with_tokens(*old(self), access, refresh),
    {
        self.access_token = Some(access);
        if let Some(r) = refresh {
            self.refresh_token = Some(r);
        }
    }

    /// Forgets the tokens (signing out).
    pub fn clear_tokens(&mut self)
        ensures
            *final(self) == cleared(*old(self)),
    {
        self.access_token = None;
        self.refresh_token = None;
    }

    /// Saves an API key; an empty key removes the saved one.
    pub fn set_vision_api_key(&mut self, key: String)
        ensures
            *final(self) == with_vision_key(*old(self), key),
    {
        self.vision_api_key = if key.as_str().is_empty() {
            None
        } else {
            Some(key)
        };
    }

    /// The API key to use, given the value of `OPENAI_API_KEY`.
    pub fn vision_api_key(&self, env_key: Option<String>) -> (r: Option<String>)
        ensures
            opt_view(r) == vision_key_of(*self, env_key),
    {
        let env = nonempty_opt(&env_key);
        if env.is_some() {
            env
        } else {
            nonempty_opt(&self.vision_api_key)
        }
    }
}

/// Reading the access token after a sign-in gives the token just stored, unless it is empty.
pub proof fn law_token_read_after_store(s: SessionStore, access: String, refresh: Option<String>)
    ensures
        token_of(with_tokens(s, access, refresh)) == nonempty(Some(access@)),
        with_tokens(s, access, refresh).vision_api_key == s.vision_api_key,
{
}

/// After signing out no access token is offered, and the API key stays.
pub proof fn law_token_gone_after_clear(s: SessionStore)
    ensures
        token_of(cleared(s)) is None,
        cleared(s).refresh_token is None,
        cleared(s).vision_api_key == s.vision_api_key,
{
}

/// Without `OPENAI_API_KEY`, reading the API key gives the key just saved, unless it is empty.
pub proof fn law_vision_key_read_after_save(s: SessionStore, key: String, env_key: Option<String>)
    requires
        nonempty(opt_view(env_key)) is None,
    ensures
        vision_key_of(with_vision_key(s, key), env_key) == nonempty(Some(key@)),
        token_of(with_vision_key(s, key)) == token_of(s),
{
}

/// A non-empty `OPENAI_API_KEY` wins over any saved key.
pub proof fn law_env_key_wins(s: SessionStore, env_key: Option<String>)
    requires
        nonempty(opt_view(env_key)) is Some,
    ensures
        vision_key_of(s, env_key) == opt_view(env_key),
{
}

// ── reply stream ───────────────────────────────────────────────────
/// The text of an event's data: the JSON that `serde_json` reads from it, at
/// `message.content.parts[0]`; `None` when the data is not JSON or holds no string there.
pub open spec fn sse_message_text(data: Seq<char>) -> Option<Seq<char>> {
    match json_of_bytes(encode_utf8(data)) {
        Ok(j) => event_text_of(j),
        Err(_) => None,
    }
}

/// The text of one event's data.
fn sse_event_text(data: &str) -> (r: Option<String>)
    ensures
        opt_view(r) == sse_message_text(data@),
{
    match parse_json_bytes(data.as_bytes()) {
        Ok(j) => event_text(&j),
        Err(_) => None,
    }
}

pub open spec fn data_prefix() -> Seq<char> {
    "data: "@
}

pub open spec fn done_marker() -> Seq<char> {
    "[DONE]"@
}

/// The last non-empty message text among the `data: ` lines before a `data: [DONE]` line.
pub open spec fn sse_last(ls: Seq<Seq<char>>) -> Option<Seq<char>>
    decreases ls.len(),
{
    if ls.len() == 0 {
        None
    } else {
        let l = ls[0];
        let is_data = starts_with(l, data_prefix());
        let d = l.skip(data_prefix().len() as int);
        if is_data && trim(d) == done_marker() {
            None
        } else {
            let rest = sse_last(ls.drop_first());
            if rest is Some {
                rest
            } else if is_data && sse_message_text(d) is Some && (sse_message_text(d)->0).len() > 0 {
                sse_message_text(d)
            } else {
                None
            }
        }
    }
}

/// The reply in a server-sent event stream of the ChatGPT conversation endpoint.
pub fn parse_sse_last_content(sse: &str) -> (r: Option<String>)
    ensures
        opt_view(r) == sse_last(str_lines(sse@)),
{
    let sv = to_chars(sse);
    let lines = lines_of(&sv);
    let ghost ls = str_lines(sse@);
    let prefix = to_chars("data: ");
    let done = to_chars("[DONE]");
    let mut last: Option<String> = None;
    let mut i: usize = 0;
    assert(ls.skip(0) =~= ls);
    while i < lines.len()
        invariant
            i <= lines.len() == ls.len(),
            ls == str_lines(sse@),
            prefix@ == data_prefix(),
            done@ == done_marker(),
            forall|j: int| 0 <= j < lines.len() ==> #[trigger] lines@[j]@ == ls[j],
            sse_last(ls) == if sse_last(ls.skip(i as int)) is Some {
                sse_last(ls.skip(i as int))
            } else {
                opt_view(last)
            },
        decreases lines.len() - i,
    {
        let line = &lines[i];
        assert(ls.skip(i as int).drop_first() =~= ls.skip(i + 1));
        assert(ls.skip(i as int)[0] == line@);
        if has_prefix(line, &prefix) {
            let (a, b) = trim_bounds(line, prefix.len(), line.len());
            let trimmed = sub_chars(line, a, b);
            assert(line@.skip(prefix.len() as int) =~= line@.subrange(
                prefix.len() as int,
                line.len() as int,
            ));
            if chars_eq(&trimmed, &done) {
                return last;
            }
            let data = string_from_chars(line, prefix.len(), line.len());
            if let Some(t) = sse_event_text(data.as_str()) {
                if !t.as_str().is_empty() {
                    last = Some(t);
                }
            }
        }
        i += 1;
    }
    assert(ls.skip(lines.len() as int) =~= Seq::<Seq<char>>::empty());
    last
}


/// What the conversation endpoint's HTTP status means for a request.
pub enum ChatStatus {
    /// A 2xx status: the reply stream follows.
    Success,
    /// 401: the session has expired and the user must sign in again.
    SessionExpired,
    /// Any other status: the request failed.
    Failed,
}

/// Reads the HTTP status of a conversation request.
pub fn chat_status(status: u16) -> (r: ChatStatus)
    ensures
        r is SessionExpired <==> status == 401,
        r is Success <==> 200 <= status <= 299,
        r is Failed <==> status != 401 && !(200 <= status <= 299),
{
    if status == 401 {
        ChatStatus::SessionExpired
    } else if 200 <= status && status <= 299 {
        ChatStatus::Success
    } else {
        ChatStatus::Failed
    }
}

/// The message shown when the ChatGPT session has expired.
pub fn session_expired_message() -> (r: String)
    ensures
        r@ == "ChatGPT セッション切れ。設定から再ログインしてください。"@,
{
    String::from_str("ChatGPT セッション切れ。設定から再ログインしてください。")
}

/// The reply in the stream, or the error reported when it holds none.
pub fn reply_from_stream(sse: &str) -> (r: Result<String, String>)
    ensures
        match r {
            Ok(t) => sse_last(str_lines(sse@)) == Some(t@),
            Err(e) => sse_last(str_lines(sse@)) is None && e@ == "ChatGPT返答が空です"@,
        },
{
    match parse_sse_last_content(sse) {
        Some(t) => Ok(t),
        None => Err(String::from_str("ChatGPT返答が空です")),
    }
}

pub open spec fn pair_view(p: (String, String)) -> (Seq<char>, Seq<char>) {
    (p.0@, p.1@)
}

/// The messages of a conversation request: the system prompt when it is not empty,
/// the history, then the question.
pub open spec fn conversation_spec(
    system: Seq<char>,
    history: Seq<(Seq<char>, Seq<char>)>,
    user: Seq<char>,
) -> Seq<(Seq<char>, Seq<char>)> {
    let head: Seq<(Seq<char>, Seq<char>)> = if system.len() > 0 {
        seq![("system"@, system)]
    } else {
        seq![]
    };
    head + history + seq![("user"@, user)]
}

/// The conversation request holds, in this order: the system prompt (only when it
/// is not empty), every message of the history as given, and the question last.
pub proof fn law_conversation_order(
    system: Seq<char>,
    history: Seq<(Seq<char>, Seq<char>)>,
    user: Seq<char>,
)
    ensures
        ({
            let m = conversation_spec(system, history, user);
            let h: int = if system.len() > 0 {
                1
            } else {
                0
            };
            &&& m.len() == h + history.len() + 1
            &&& system.len() > 0 ==> m[0] == ("system"@, system)
            &&& forall|j: int| 0 <= j < history.len() ==> #[trigger] m[h + j] == history[j]
            &&& m[m.len() - 1] == ("user"@, user)
        }),
{
}

/// The roles and texts of the messages sent to the conversation endpoint, and the
/// position of the message that the question follows (its parent), if there is one.
pub fn conversation_messages(
    system_prompt: &str,
    history: &Vec<(String, String)>,
    user_message: &str,
) -> (r: (Vec<(String, String)>, Option<usize>))
    requires
        history.len() + 2 <= usize::MAX,
    ensures
        r.0@.map_values(|p: (String, String)| pair_view(p)) == conversation_spec(
            system_prompt@,
            history@.map_values(|p: (String, String)| pair_view(p)),
            user_message@,
        ),
        r.1 == (if r.0.len() >= 2 {
            Some((r.0.len() - 2) as usize)
        } else {
            None
        }),
{
    let ghost hv = history@.map_values(|p: (String, String)| pair_view(p));
    let mut out: Vec<(String, String)> = Vec::new();
    if !system_prompt.is_empty() {
        out.push((String::from_str("system"), String::from_str(system_prompt)));
    }
    let ghost head = out@.map_values(|p: (String, String)| pair_view(p));
    let mut i: usize = 0;
    while i < history.len()
        invariant
            i <= history.len(),
            out.len() == head.len() + i,
            head.len() <= 1,
            hv == history@.map_values(|p: (String, String)| pair_view(p)),
            out@.map_values(|p: (String, String)| pair_view(p)) =~= head + hv.take(i as int),
        decreases history.len() - i,
    {
        let ghost before = out@;
        let item = (history[i].0.clone(), history[i].1.clone());
        assert(pair_view(item) == hv[i as int]);
        out.push(item);
        assert(out@ =~= before.push(item));
        assert(hv.take(i + 1) =~= hv.take(i as int).push(hv[i as int]));
        assert(out@.map_values(|p: (String, String)| pair_view(p)) =~= before.map_values(
            |p: (String, String)| pair_view(p),
        ).push(pair_view(item)));
        i += 1;
    }
    let parent = if out.len() > 0 {
        Some(out.len() - 1)
    } else {
        None
    };
    let ghost before = out@;
    let last = (String::from_str("user"), String::from_str(user_message));
    out.push(last);
    assert(hv.take(history.len() as int) =~= hv);
    assert(out@ =~= before.push(last));
    assert(out@.map_values(|p: (String, String)| pair_view(p)) =~= before.map_values(
        |p: (String, String)| pair_view(p),
    ).push(pair_view(last)));
    (out, parent)
}


/// The page shown in the browser once the sign-in has come back.
pub const LOGIN_DONE_HTML: &'static str = "<html><body style='font-family:system-ui;text-align:center;padding:60px'><h2>✅ ログイン完了！</h2><p>Math Teacher に戻ってください。このタブは閉じて構いません。</p><script>setTimeout(()=>window.close(),2000)</script></body></html>";

/// A `200 OK` HTML response whose `Content-Length` is the byte length of `html`.
pub fn http_ok_html(html: &str) -> (r: String)
    ensures
        r@ == "HTTP/1.1 200 OK\r\nContent-Type: text/html; charset=utf-8\r\nContent-Length: "@
            + decimal(crate::text::blen(html@)) + "\r\nConnection: close\r\n\r\n"@ + html@,
{
    let mut r = String::from_str(
        "HTTP/1.1 200 OK\r\nContent-Type: text/html; charset=utf-8\r\nContent-Length: ",
    );
    let n = crate::text::str_byte_len(html);
    push_decimal(&mut r, n as u64);
    r.append("\r\nConnection: close\r\n\r\n");
    r.append(html);
    r
}

} // verus!
