//! PKCE values for the ChatGPT sign-in: the code verifier, its S256 challenge and
//! the `state` parameter, built on `uuid`, `sha2` and `base64`.

use vstd::prelude::*;
use vstd::utf8::encode_utf8;

verus! {

/// A character of the URL-safe base64 alphabet: `A-Z a-z 0-9 - _`.
pub open spec fn is_url_safe_char(c: char) -> bool {
    ||| 'A' <= c <= 'Z'
    ||| 'a' <= c <= 'z'
    ||| '0' <= c <= '9'
    ||| c == '-'
    ||| c == '_'
}

/// Length of unpadded base64 for `n` bytes.
pub open spec fn b64_len(n: nat) -> nat {
    (4 * n + 2) / 3
}

/// The unpadded URL-safe base64 text (RFC 4648 §5) of `data`, as the `base64`
/// crate's `URL_SAFE_NO_PAD` engine writes it.
pub uninterp spec fn base64_url_no_pad(data: Seq<u8>) -> Seq<char>;

/// The SHA-256 digest of `data`, as the `sha2` crate computes it.
pub uninterp spec fn sha256_digest(data: Seq<u8>) -> Seq<u8>;

/// `base64::engine::general_purpose::URL_SAFE_NO_PAD.encode(data)`.
/// Claimed: the result is the named encoding, has the unpadded length and uses the
/// URL-safe alphabet; the mapping from bytes to characters is not spelled out.
#[verifier::external_body]
fn encode_base64_url(data: &[u8]) -> (r: String)
    requires
        b64_len(data@.len()) <= usize::MAX,
    ensures
        r@ == base64_url_no_pad(data@),
        r@.len() == b64_len(data@.len()),
        forall|i: int| 0 <= i < r@.len() ==> is_url_safe_char(#[trigger] r@[i]),
{
    base64::Engine::encode(&base64::engine::general_purpose::URL_SAFE_NO_PAD, data)
}

/// `sha2::Sha256::digest(data)`, as a byte vector.
/// Claimed: the result is the named digest and has 32 bytes.
#[verifier::external_body]
fn sha256(data: &[u8]) -> (r: Vec<u8>)
    requires
        data@.len() < 0x2000_0000_0000_0000,
    ensures
        r@ == sha256_digest(data@),
        r@.len() == 32,
{
    <sha2::Sha256 as sha2::Digest>::digest(data).to_vec()
}

/// The bytes of a random version-4 UUID.
pub open spec fn is_uuid_v4(b: Seq<u8>) -> bool {
    b.len() == 16 && b[6] & 0xF0 == 0x40 && b[8] & 0xC0 == 0x80
}

/// `uuid::Uuid::new_v4().as_bytes()`: random, so only its shape is claimed:
/// sixteen bytes with the version and variant bits of a version-4 UUID.
#[verifier::external_body]
fn uuid_v4_bytes() -> (r: Vec<u8>)
    ensures
        is_uuid_v4(r@),
{
    uuid::Uuid::new_v4().as_bytes().to_vec()
}

/// Sixty-four bytes made of four random UUIDs.
pub open spec fn four_uuids(b: Seq<u8>) -> bool {
    b.len() == 64 && forall|k: int| 0 <= k < 4 ==> #[trigger] is_uuid_v4(b.subrange(16 * k, 16 * k + 16))
}

/// A PKCE code verifier: 64 random bytes (four UUIDs), base64url without padding.
pub fn generate_code_verifier() -> (r: String)
    ensures
        r@.len() == 86,
        forall|i: int| 0 <= i < r@.len() ==> is_url_safe_char(#[trigger] r@[i]),
        exists|b: Seq<u8>| four_uuids(b) && r@ == base64_url_no_pad(b),
{
    let mut bytes: Vec<u8> = Vec::new();
    let mut k: usize = 0;
    while k < 4
        invariant
            k <= 4,
            bytes@.len() == 16 * k,
            forall|m: int| 0 <= m < k ==> #[trigger] is_uuid_v4(bytes@.subrange(16 * m, 16 * m + 16)),
        decreases 4 - k,
    {
        let u = uuid_v4_bytes();
        let ghost before = bytes@;
        let mut j: usize = 0;
        while j < 16
            invariant
                j <= 16,
                u@.len() == 16,
                bytes@ == before + u@.take(j as int),
            decreases 16 - j,
        {
            bytes.push(u[j]);
            j += 1;
            assert(bytes@ =~= before + u@.take(j as int));
        }
        assert(u@.take(16) =~= u@);
        assert forall|m: int| 0 <= m < k + 1 implies #[trigger] is_uuid_v4(
            bytes@.subrange(16 * m, 16 * m + 16),
        ) by {
            if m < k {
                assert(bytes@.subrange(16 * m, 16 * m + 16) =~= before.subrange(16 * m, 16 * m + 16));
            } else {
                assert(bytes@.subrange(16 * m, 16 * m + 16) =~= u@);
            }
        }
        k += 1;
    }
    let r = encode_base64_url(bytes.as_slice());
    assert(four_uuids(bytes@));
    r
}

/// The S256 code challenge: base64url (unpadded) of the SHA-256 of the verifier's bytes.
pub fn generate_code_challenge(verifier: &str) -> (r: String)
    requires
        encode_utf8(verifier@).len() < 0x2000_0000_0000_0000,
    ensures
        r@ == base64_url_no_pad(sha256_digest(encode_utf8(verifier@))),
        r@.len() == 43,
        forall|i: int| 0 <= i < r@.len() ==> is_url_safe_char(#[trigger] r@[i]),
{
    let hash = sha256(verifier.as_bytes());
    encode_base64_url(hash.as_slice())
}

/// A fresh `state` parameter: a random UUID, base64url without padding.
pub fn generate_state() -> (r: String)
    ensures
        r@.len() == 22,
        exists|b: Seq<u8>| is_uuid_v4(b) && r@ == base64_url_no_pad(b),
{
    let u = uuid_v4_bytes();
    encode_base64_url(u.as_slice())
}

} // verus!
