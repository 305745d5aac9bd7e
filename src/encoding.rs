use vstd::prelude::*;
use vstd::string::*;
use crate::bls::{BlsPublicKey, BlsSignature};
use crate::error::DeserializationError;

verus! {

/// A character of the URL-safe base64 alphabet: letters, digits, `-`, `_`.
pub open spec fn url_safe_char(c: char) -> bool {
    ('A' <= c && c <= 'Z') || ('a' <= c && c <= 'z') || ('0' <= c && c <= '9') || c == '-' || c
        == '_'
}

pub open spec fn url_safe_text(s: Seq<char>) -> bool {
    forall|i: int| 0 <= i < s.len() ==> url_safe_char(#[trigger] s[i])
}

/// The unpadded URL-safe base64 text of a byte string.
pub uninterp spec fn base64_url(b: Seq<u8>) -> Seq<char>;

/// Relies on base64's `URL_SAFE_NO_PAD` engine, `Engine::encode`: unpadded
/// URL-safe text, four characters for every three bytes, rounded up.
#[verifier::external_body]
fn base64_encode(b: &[u8]) -> (r: String)
    ensures
        r@ == base64_url(b@),
        r@.len() == (4 * b@.len() + 2) / 3,
        url_safe_text(r@),
{
    base64::Engine::encode(&base64::engine::general_purpose::URL_SAFE_NO_PAD, b)
}

/// Relies on base64's `URL_SAFE_NO_PAD` engine, `Engine::decode`: it accepts
/// exactly the texts that its `encode` produces (no padding, no stray trailing
/// bits, URL-safe alphabet only) and returns the bytes they encode.
#[verifier::external_body]
fn base64_decode(s: &str) -> (r: Option<Vec<u8>>)
    ensures
        r is Some ==> base64_url(r->0@) == s@ && url_safe_text(s@),
        forall|x: Seq<u8>| #[trigger] base64_url(x) == s@ ==> (r is Some && r->0@ == x),
{
    base64::Engine::decode(&base64::engine::general_purpose::URL_SAFE_NO_PAD, s).ok()
}

/// Relies on std's `TryFrom<Vec<u8>>` for `[u8; N]`: succeeds exactly when
/// the length is `N`, keeping the bytes.
#[verifier::external_body]
fn to_array<const N: usize>(b: Vec<u8>) -> (r: Option<[u8; N]>)
    ensures
        r is Some <==> b@.len() == N,
        r is Some ==> r->0@ == b@,
{
    b.try_into().ok()
}

/// What decoding `s` as a blob of `n` bytes may give: `Alphabet` exactly when
/// a character lies outside the alphabet; the blob whose text `s` is, when
/// it has `n` bytes; `Length` when it has another length.
pub open spec fn blob_decoded(s: Seq<char>, n: nat, r: Result<Seq<u8>, DeserializationError>) -> bool {
    &&& (r == Err::<Seq<u8>, DeserializationError>(DeserializationError::Alphabet)
        <==> !url_safe_text(s))
    &&& (r is Ok ==> base64_url(r->Ok_0) == s && r->Ok_0.len() == n)
    &&& (r is Err ==> r == Err::<Seq<u8>, DeserializationError>(DeserializationError::Alphabet)
        || r == Err::<Seq<u8>, DeserializationError>(DeserializationError::Length))
    &&& forall|x: Seq<u8>| #[trigger]
        base64_url(x) == s ==> if x.len() == n {
            r == Ok::<Seq<u8>, DeserializationError>(x)
        } else {
            r == Err::<Seq<u8>, DeserializationError>(DeserializationError::Length)
        }
}

pub open spec fn bytes_result<const N: usize>(r: Result<[u8; N], DeserializationError>) -> Result<
    Seq<u8>,
    DeserializationError,
> {
    match r {
        Ok(b) => Ok(b@),
        Err(e) => Err(e),
    }
}

fn is_url_safe_text(s: &str) -> (r: bool)
    ensures
        r == url_safe_text(s@),
{
    let n = s.unicode_len();
    let mut i: usize = 0;
    while i < n
        invariant
            n == s@.len(),
            i <= n,
            forall|j: int| 0 <= j < i ==> url_safe_char(#[trigger] s@[j]),
        decreases n - i,
    {
        let c = s.get_char(i);
        if !(('A' <= c && c <= 'Z') || ('a' <= c && c <= 'z') || ('0' <= c && c <= '9') || c == '-'
            || c == '_') {
            return false;
        }
        i = i + 1;
    }
    true
}

/// The unpadded URL-safe base64 text of `blob`.
pub fn encode_bytes(blob: &[u8]) -> (r: String)
    ensures
        r@ == base64_url(blob@),
        r@.len() == (4 * blob@.len() + 2) / 3,
        url_safe_text(r@),
{
    base64_encode(blob)
}

/// Decodes unpadded URL-safe base64 text into a blob of exactly `N` bytes.
pub fn decode_bytes<const N: usize>(text: &str) -> (r: Result<[u8; N], DeserializationError>)
    ensures
        blob_decoded(text@, N as nat, bytes_result(r)),
{
    match base64_decode(text) {
        Some(b) => {
            let ghost bs = b@;
            match to_array::<N>(b) {
                Some(a) => Ok(a),
                None => {
                    assert(bs.len() != N);
                    Err(DeserializationError::Length)
                },
            }
        },
        None => {
            if is_url_safe_text(text) {
                Err(DeserializationError::Length)
            } else {
                Err(DeserializationError::Alphabet)
            }
        },
    }
}

/// The base64 text of a signature.
pub fn encode_signature(sig: &BlsSignature) -> (r: String)
    ensures
        r@ == base64_url(sig.0@),
        r@.len() == 128,
{
    let bytes = sig.to_bytes();
    encode_bytes(bytes.as_slice())
}

/// The base64 text of a public key.
pub fn encode_public_key(pk: &BlsPublicKey) -> (r: String)
    ensures
        r@ == base64_url(pk.0@),
        r@.len() == 64,
{
    let bytes = pk.to_bytes();
    encode_bytes(bytes.as_slice())
}

/// Reads a signature back from its base64 text.
pub fn decode_signature(s: &str) -> (r: Result<BlsSignature, DeserializationError>)
    ensures
        blob_decoded(
            s@,
            96,
            match r {
                Ok(sig) => Ok(sig.0@),
                Err(e) => Err(e),
            },
        ),
{
    match decode_bytes::<96>(s) {
        Ok(bytes) => Ok(BlsSignature::from_bytes(&bytes)),
        Err(e) => Err(e),
    }
}

/// Decoding the text of a blob, at the blob's own length, gives the blob back.
pub proof fn lemma_decode_of_encode(b: Seq<u8>, r: Result<Seq<u8>, DeserializationError>)
    requires
        blob_decoded(base64_url(b), b.len(), r),
    ensures
        r == Ok::<Seq<u8>, DeserializationError>(b),
{
}

/// The text of a blob of another length is refused with `Length`.
pub proof fn lemma_wrong_length_refused(
    b: Seq<u8>,
    n: nat,
    r: Result<Seq<u8>, DeserializationError>,
)
    requires
        blob_decoded(base64_url(b), n, r),
        b.len() != n,
    ensures
        r == Err::<Seq<u8>, DeserializationError>(DeserializationError::Length),
{
}

/// Text holding a `+` (standard, not URL-safe, base64) is refused with
/// `Alphabet`.
pub proof fn lemma_plus_refused(
    s: Seq<char>,
    i: int,
    n: nat,
    r: Result<Seq<u8>, DeserializationError>,
)
    requires
        blob_decoded(s, n, r),
        0 <= i < s.len(),
        s[i] == '+',
    ensures
        r == Err::<Seq<u8>, DeserializationError>(DeserializationError::Alphabet),
{
    assert(!url_safe_char(s[i]));
}

} // verus!
