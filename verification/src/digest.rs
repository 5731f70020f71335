//! Content digests and binary-to-text encodings.

use base64::Engine;
use sha2::Digest;
use vstd::prelude::*;

verus! {

/// The SHA-256 digest of a byte string.
pub uninterp spec fn sha256_digest(bytes: Seq<u8>) -> Seq<u8>;

/// The padded standard-alphabet base64 encoding of a byte string.
pub uninterp spec fn base64_standard(bytes: Seq<u8>) -> Seq<char>;

/// `sha2::Sha256::digest`: the digest is 32 bytes long and a function of the
/// bytes alone.
#[verifier::external_body]
pub(crate) fn sha256(bytes: &[u8]) -> (r: Vec<u8>)
    ensures
        r@ == sha256_digest(bytes@),
        r@.len() == 32,
{
    sha2::Sha256::digest(bytes).to_vec()
}

/// `base64::Engine::encode` with `base64::engine::general_purpose::STANDARD`:
/// the text is a function of the bytes alone.
#[verifier::external_body]
pub(crate) fn base64_text(bytes: &[u8]) -> (r: String)
    ensures
        r@ == base64_standard(bytes@),
{
    base64::engine::general_purpose::STANDARD.encode(bytes)
}

/// The lower-case hexadecimal digit of a number below sixteen.
pub open spec fn hex_digit(n: int) -> char {
    if n < 10 {
        ((48 + n) as u32) as char
    } else {
        ((87 + n) as u32) as char
    }
}

/// Two lower-case hexadecimal digits for each byte.
pub open spec fn hex(bytes: Seq<u8>) -> Seq<char> {
    Seq::new(
        2 * bytes.len(),
        |i: int|
            if i % 2 == 0 {
                hex_digit(bytes[i / 2] as int / 16)
            } else {
                hex_digit(bytes[i / 2] as int % 16)
            },
    )
}

/// The SHA-256 digest of a byte string in lower-case hexadecimal.
pub open spec fn sha256_hex(bytes: Seq<u8>) -> Seq<char> {
    hex(sha256_digest(bytes))
}

/// Is `c` a lower-case hexadecimal digit?
pub open spec fn lower_hex(c: char) -> bool {
    '0' <= c <= '9' || 'a' <= c <= 'f'
}

/// Every hexadecimal digit that is written is in lower case.
pub proof fn hex_is_lower(bytes: Seq<u8>)
    ensures
        forall|i: int| 0 <= i < hex(bytes).len() ==> lower_hex(#[trigger] hex(bytes)[i]),
{
    assert forall|i: int| 0 <= i < hex(bytes).len() implies lower_hex(#[trigger] hex(bytes)[i]) by {
        let b = bytes[i / 2] as int;
        assert(0 <= b / 16 < 16);
        assert(0 <= b % 16 < 16);
    }
}

/// The hexadecimal digit of `n`.
fn hex_digit_char(n: u8) -> (r: char)
    requires
        n < 16,
    ensures
        r == hex_digit(n as int),
{
    if n < 10 {
        (48 + n) as char
    } else {
        (87 + n) as char
    }
}

/// The bytes in lower-case hexadecimal.
pub fn hex_text(bytes: &[u8]) -> (r: String)
    ensures
        r@ == hex(bytes@),
{
    let mut r = String::new();
    let mut i: usize = 0;
    while i < bytes.len()
        invariant
            i <= bytes@.len(),
            r@ == hex(bytes@.subrange(0, i as int)),
        decreases bytes@.len() - i,
    {
        let b: u8 = bytes[i];
        r.push(hex_digit_char(b / 16));
        r.push(hex_digit_char(b % 16));
        assert(r@ =~= hex(bytes@.subrange(0, i + 1)));
        i += 1;
    }
    assert(bytes@.subrange(0, bytes@.len() as int) =~= bytes@);
    r
}

/// The SHA-256 digest of `bytes` in lower-case hexadecimal: 64 digits.
pub fn sha256_text(bytes: &[u8]) -> (r: String)
    ensures
        r@ == sha256_hex(bytes@),
        r@.len() == 64,
        forall|i: int| 0 <= i < r@.len() ==> lower_hex(#[trigger] r@[i]),
{
    let digest = sha256(bytes);
    proof {
        hex_is_lower(digest@);
    }
    hex_text(&digest)
}


/// A text that has the form of a SHA-256 digest: sixty-four lower-case
/// hexadecimal digits.
pub open spec fn digest_form(value: Seq<char>) -> bool {
    &&& value.len() == 64
    &&& forall|i: int| 0 <= i < value.len() ==> lower_hex(#[trigger] value[i])
}

/// Has the text the form of a SHA-256 digest?
pub fn is_digest_form(value: &str) -> (r: bool)
    ensures
        r == digest_form(value@),
{
    let chars = crate::text::chars_of(value);
    if chars.len() != 64 {
        return false;
    }
    let mut i: usize = 0;
    while i < chars.len()
        invariant
            i <= chars@.len(),
            chars@ == value@,
            forall|k: int| 0 <= k < i ==> lower_hex(#[trigger] chars@[k]),
        decreases chars@.len() - i,
    {
        let c = chars[i];
        if !(('0' <= c && c <= '9') || ('a' <= c && c <= 'f')) {
            assert(!lower_hex(value@[i as int]));
            return false;
        }
        i += 1;
    }
    true
}

proof fn hex_digits_differ(a: int, b: int)
    requires
        0 <= a < 16,
        0 <= b < 16,
        hex_digit(a) == hex_digit(b),
    ensures
        a == b,
{
}

/// The hexadecimal text tells the bytes: two digits for each of them, and different
/// bytes have different texts.
pub proof fn hex_tells_the_bytes(a: Seq<u8>, b: Seq<u8>)
    ensures
        hex(a).len() == 2 * a.len(),
        hex(a) == hex(b) ==> a == b,
        hex(a + b) == hex(a) + hex(b),
{
    if hex(a) == hex(b) {
        assert(hex(a).len() == hex(b).len());
        assert forall|i: int| 0 <= i < a.len() implies a[i] == b[i] by {
            assert(hex(a)[2 * i] == hex(b)[2 * i]);
            assert(hex(a)[2 * i + 1] == hex(b)[2 * i + 1]);
            assert((2 * i) / 2 == i && (2 * i + 1) / 2 == i);
            assert((2 * i) % 2 == 0 && (2 * i + 1) % 2 == 1);
            hex_digits_differ(a[i] as int / 16, b[i] as int / 16);
            hex_digits_differ(a[i] as int % 16, b[i] as int % 16);
        }
        assert(a =~= b);
    }
    let both = hex(a) + hex(b);
    assert forall|i: int| 0 <= i < both.len() implies both[i] == #[trigger] hex(a + b)[i] by {
        if i < hex(a).len() {
            assert((a + b)[i / 2] == a[i / 2]);
        } else {
            let j = i - 2 * a.len();
            assert(j / 2 + a.len() == i / 2);
            assert(j % 2 == i % 2);
            assert((a + b)[i / 2] == b[j / 2]);
        }
    }
    assert(hex(a + b) =~= both);
}

} // verus!
