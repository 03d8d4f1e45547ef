//! The external collaborators of the core: password hashing, the secure
//! random source, hex and base64 codecs, the content-hash primitive, and a
//! string-equality primitive of std. Each is reached through one trusted
//! wrapper whose contract states what the collaborator's documentation
//! promises; everything that builds on them is verified.

use vstd::prelude::*;
use rand::RngCore;
use base64::Engine;

verus! {

/// A hexadecimal digit, in either case.
pub open spec fn is_hex_digit(c: char) -> bool {
    let u = c as u32;
    (48 <= u && u <= 57) || (97 <= u && u <= 102) || (65 <= u && u <= 70)
}

/// The numeric value of a hexadecimal digit.
pub open spec fn hex_val(c: char) -> u8 {
    let u = c as u32;
    if 48 <= u && u <= 57 {
        (u - 48) as u8
    } else if 97 <= u && u <= 102 {
        (u - 97 + 10) as u8
    } else if 65 <= u && u <= 70 {
        (u - 65 + 10) as u8
    } else {
        0
    }
}

/// The lowercase hexadecimal digit for a value below 16.
pub open spec fn hex_digit(n: u8) -> char {
    if n < 10 {
        ((n + 48) as u32) as char
    } else {
        ((n + 97 - 10) as u32) as char
    }
}

/// Lowercase hexadecimal rendering of a byte sequence: two digits per byte,
/// high nibble first.
pub open spec fn hex_of(b: Seq<u8>) -> Seq<char> {
    Seq::new(2 * b.len(), |i: int| {
        if i % 2 == 0 {
            hex_digit(b[i / 2] / 16)
        } else {
            hex_digit(b[i / 2] % 16)
        }
    })
}

/// Whether a character sequence is well-formed hexadecimal: even length,
/// every character a hex digit.
pub open spec fn is_hex_seq(s: Seq<char>) -> bool {
    s.len() % 2 == 0 && forall|i: int| 0 <= i < s.len() ==> is_hex_digit(#[trigger] s[i])
}

/// The bytes denoted by a well-formed hexadecimal character sequence.
pub open spec fn hex_decoded(s: Seq<char>) -> Seq<u8> {
    Seq::new(s.len() / 2, |i: int| (hex_val(s[2 * i]) * 16 + hex_val(s[2 * i + 1])) as u8)
}

/// A hex digit below 16 renders to a digit character whose value is itself.
pub proof fn lemma_hex_digit_val(n: u8)
    requires
        n < 16,
    ensures
        is_hex_digit(hex_digit(n)),
        hex_val(hex_digit(n)) == n,
{
}

/// Rendering bytes as lowercase hexadecimal and reading the digits back
/// gives the same bytes: the codec round-trips.
pub proof fn lemma_hex_round_trip(b: Seq<u8>)
    ensures
        is_hex_seq(hex_of(b)),
        hex_decoded(hex_of(b)) == b,
{
    let h = hex_of(b);
    assert forall|i: int| 0 <= i < h.len() implies is_hex_digit(#[trigger] h[i]) by {
        if i % 2 == 0 {
            lemma_hex_digit_val(b[i / 2] / 16);
        } else {
            lemma_hex_digit_val(b[i / 2] % 16);
        }
    }
    assert forall|i: int| 0 <= i < b.len() implies #[trigger] hex_decoded(h)[i] == b[i] by {
        assert(h[2 * i] == hex_digit(b[i] / 16));
        assert(h[2 * i + 1] == hex_digit(b[i] % 16));
        lemma_hex_digit_val(b[i] / 16);
        lemma_hex_digit_val(b[i] % 16);
        assert(hex_decoded(h)[i] == (hex_val(h[2 * i]) * 16 + hex_val(h[2 * i + 1])) as u8);
        assert(hex_val(h[2 * i]) == b[i] / 16);
        assert(hex_val(h[2 * i + 1]) == b[i] % 16);
        assert((b[i] / 16) * 16 + b[i] % 16 == b[i]);
    }
    assert(hex_decoded(h) =~= b);
}

/// Relies on hex::encode: lowercase hexadecimal, exactly two digits per
/// input byte, high nibble first.
#[verifier::external_body]
pub fn hex_encode(b: &Vec<u8>) -> (r: String)
    ensures
        r@ == hex_of(b@),
{
    hex::encode(b)
}

/// Relies on hex::decode: succeeds exactly on inputs of even length made of
/// hexadecimal digits (either case), pairing digits high nibble first.
/// A failure (odd length or a stray character) comes back as `None`.
#[verifier::external_body]
pub fn hex_decode(s: &str) -> (r: Option<Vec<u8>>)
    ensures
        r is Some <==> is_hex_seq(s@),
        r matches Some(v) ==> v@ == hex_decoded(s@),
{
    hex::decode(s).ok()
}

/// What pwhash's bcrypt verification decides for a plaintext and a stored
/// hash; a function of the two arguments alone.
pub uninterp spec fn credential_matches(pass: Seq<char>, hash: Seq<char>) -> bool;

/// Relies on pwhash::bcrypt::verify: deterministic verification of a
/// plaintext against a stored bcrypt hash.
#[verifier::external_body]
pub fn verify_credential(pass: &str, hash: &str) -> (r: bool)
    ensures
        r == credential_matches(pass@, hash@),
{
    pwhash::bcrypt::verify(pass, hash)
}

/// The content hash that identifies an object in the store, as computed by
/// the content-addressed backend; a function of the serialized bytes alone.
pub uninterp spec fn oid_of(b: Seq<u8>) -> Seq<u8>;

/// Whether the backend hashes the given bytes at all: its one refusal on
/// in-order input is its hash-collision-attack detector, which decides
/// from the bytes alone.
pub uninterp spec fn hash_ok(b: Seq<u8>) -> bool;

/// Relies on git2::Oid::hash_object: hashes the given bytes as the backend
/// itself would (SHA-1 over a typed header and the data), without touching
/// any repository; whether it hashes, and the twenty-byte result when it
/// does, both depend on the bytes alone. A refusal comes back as `None`.
#[verifier::external_body]
pub fn hash_object_bytes(b: &Vec<u8>) -> (r: Option<Vec<u8>>)
    ensures
        r is Some <==> hash_ok(b@),
        r matches Some(v) ==> v@ == oid_of(b@) && v@.len() == 20,
{
    git2::Oid::hash_object(git2::ObjectType::Blob, b).ok().map(|o| o.as_bytes().to_vec())
}

/// The standard base64 rendering (with padding) of a byte sequence; a
/// function of the bytes alone.
pub uninterp spec fn base64_of(b: Seq<u8>) -> Seq<char>;

/// Relies on base64's STANDARD engine: the padded standard alphabet, four
/// output characters for every three input bytes (rounded up).
#[verifier::external_body]
pub fn base64_encode(b: &Vec<u8>) -> (r: String)
    ensures
        r@ == base64_of(b@),
        r@.len() == 4 * ((b@.len() + 2) / 3),
{
    base64::engine::general_purpose::STANDARD.encode(b)
}

/// Relies on rand's OsRng, the operating system's cryptographically secure
/// source: fills sixteen fresh bytes, and aborts loudly if the source is
/// unavailable rather than degrading to a weaker one. Nothing is promised
/// of the bytes themselves.
#[verifier::external_body]
pub fn random_session_id() -> (r: Vec<u8>)
    ensures
        r@.len() == 16,
{
    let mut buf = [0u8; 16];
    rand::rngs::OsRng.fill_bytes(&mut buf);
    buf.to_vec()
}

/// Relies on str's equality: two string slices compare equal exactly when
/// they consist of the same characters.
#[verifier::external_body]
pub fn str_eq(a: &str, b: &str) -> (r: bool)
    ensures
        r == (a@ == b@),
{
    a == b
}

} // verus!
