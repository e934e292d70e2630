//! Text forms of byte strings: URL-safe base64 without padding, and
//! hexadecimal.

use vstd::prelude::*;

use base64::engine::general_purpose::URL_SAFE_NO_PAD;
use base64::Engine;

verus! {

/// The character of the URL-safe base64 alphabet that stands for a 6-bit value.
pub open spec fn b64_char(v: nat) -> char {
    if v < 26 {
        ('A' as nat + v) as char
    } else if v < 52 {
        ('a' as nat + v - 26) as char
    } else if v < 62 {
        ('0' as nat + v - 52) as char
    } else if v == 62 {
        '-'
    } else {
        '_'
    }
}

/// The byte at `i`, or zero beyond the end.
pub open spec fn byte_or_zero(bytes: Seq<u8>, i: int) -> nat {
    if 0 <= i < bytes.len() {
        bytes[i] as nat
    } else {
        0
    }
}

/// The `i`-th group of six bits of a byte string that zeros follow.
pub open spec fn sextet(bytes: Seq<u8>, i: int) -> nat {
    let x = byte_or_zero(bytes, i / 4 * 3);
    let y = byte_or_zero(bytes, i / 4 * 3 + 1);
    let z = byte_or_zero(bytes, i / 4 * 3 + 2);
    if i % 4 == 0 {
        x / 4
    } else if i % 4 == 1 {
        x % 4 * 16 + y / 16
    } else if i % 4 == 2 {
        y % 16 * 4 + z / 64
    } else {
        z % 64
    }
}

/// How many characters the base64 text of `n` bytes has.
pub open spec fn b64_len(n: nat) -> nat {
    (8 * n + 5) / 6
}

/// The base64 text of a byte string.
pub open spec fn b64_text(bytes: Seq<u8>) -> Seq<char> {
    Seq::new(b64_len(bytes.len()), |i: int| b64_char(sextet(bytes, i)))
}

/// The message with which the `base64` crate refuses a text.
pub uninterp spec fn b64_refusal(text: Seq<char>) -> Seq<char>;

/// Calls `base64::Engine::encode` of `URL_SAFE_NO_PAD`.
#[verifier::external_body]
pub(crate) fn b64_encode(bytes: &[u8]) -> (text: String)
    ensures
        text@ == b64_text(bytes@),
{
    URL_SAFE_NO_PAD.encode(bytes)
}

/// Calls `base64::Engine::decode` of `URL_SAFE_NO_PAD`. It accepts exactly the
/// texts that encoding gives: padding, characters outside the alphabet, a stray
/// last character and bits set beyond the last byte are refused, with the
/// message of the error.
#[verifier::external_body]
pub(crate) fn b64_decode(text: &str) -> (r: Result<Vec<u8>, String>)
    ensures
        match r {
            Ok(bytes) => b64_text(bytes@) == text@,
            Err(message) => message@ == b64_refusal(text@) && forall|bytes: Seq<u8>| #[trigger]
                b64_text(bytes) != text@,
        },
{
    URL_SAFE_NO_PAD.decode(text.as_bytes()).map_err(|e| e.to_string())
}

proof fn lemma_b64_char_injective(v: nat, w: nat)
    requires
        v < 64,
        w < 64,
        b64_char(v) == b64_char(w),
    ensures
        v == w,
{
}

proof fn lemma_sextet_bound(bytes: Seq<u8>, i: int)
    ensures
        sextet(bytes, i) < 64,
{
}

/// A byte string is determined by its base64 text.
pub proof fn b64_is_injective(a: Seq<u8>, b: Seq<u8>)
    requires
        b64_text(a) == b64_text(b),
    ensures
        a == b,
{
    let n = b64_len(a.len());
    assert(b64_text(a).len() == n && b64_text(b).len() == b64_len(b.len()));
    assert(a.len() == b.len());
    assert forall|i: int| 0 <= i < n implies #[trigger] sextet(a, i) == sextet(b, i) by {
        lemma_sextet_bound(a, i);
        lemma_sextet_bound(b, i);
        assert(b64_text(a)[i] == b64_char(sextet(a, i)));
        assert(b64_text(b)[i] == b64_char(sextet(b, i)));
        lemma_b64_char_injective(sextet(a, i), sextet(b, i));
    }
    assert forall|j: int| 0 <= j < a.len() implies a[j] == b[j] by {
        // Byte j lies in sextets 4 * (j / 3) + j % 3 and the one after it.
        let i = j / 3 * 4 + j % 3;
        assert(i / 4 == j / 3 && i % 4 == j % 3);
        assert((i + 1) / 4 == j / 3 && (i + 1) % 4 == j % 3 + 1);
        assert(0 <= i && i + 1 < n);
        assert(sextet(a, i) == sextet(b, i));
        assert(sextet(a, i + 1) == sextet(b, i + 1));
        if j % 3 == 0 {
            assert(a[j] as nat == sextet(a, i) * 4 + sextet(a, i + 1) / 16);
            assert(b[j] as nat == sextet(b, i) * 4 + sextet(b, i + 1) / 16);
        } else if j % 3 == 1 {
            assert(a[j] as nat == sextet(a, i) % 16 * 16 + sextet(a, i + 1) / 4);
            assert(b[j] as nat == sextet(b, i) % 16 * 16 + sextet(b, i + 1) / 4);
        } else {
            assert(a[j] as nat == sextet(a, i) % 4 * 64 + sextet(a, i + 1));
            assert(b[j] as nat == sextet(b, i) % 4 * 64 + sextet(b, i + 1));
        }
    }
    assert(a =~= b);
}

/// The lower-case hexadecimal digit of a value below 16.
pub open spec fn hex_digit(v: nat) -> char {
    if v < 10 {
        ('0' as nat + v) as char
    } else {
        ('a' as nat + v - 10) as char
    }
}

/// The value of a hexadecimal digit of either case.
pub open spec fn hex_value(c: char) -> Option<nat> {
    if '0' <= c <= '9' {
        Some((c as nat - '0' as nat) as nat)
    } else if 'a' <= c <= 'f' {
        Some((c as nat - 'a' as nat + 10) as nat)
    } else if 'A' <= c <= 'F' {
        Some((c as nat - 'A' as nat + 10) as nat)
    } else {
        None
    }
}

/// The hexadecimal text of a byte string, two digits a byte.
pub open spec fn hex_text(bytes: Seq<u8>) -> Seq<char> {
    Seq::new(
        2 * bytes.len(),
        |i: int|
            hex_digit(
                if i % 2 == 0 {
                    bytes[i / 2] as nat / 16
                } else {
                    bytes[i / 2] as nat % 16
                },
            ),
    )
}

/// Whether a text is an even number of hexadecimal digits.
pub open spec fn is_hex(text: Seq<char>) -> bool {
    &&& text.len() % 2 == 0
    &&& forall|i: int| 0 <= i < text.len() ==> #[trigger] hex_value(text[i]) is Some
}

/// The bytes that a text of hexadecimal digits stands for.
pub open spec fn hex_bytes(text: Seq<char>) -> Seq<u8> {
    Seq::new(
        text.len() / 2,
        |i: int|
            (hex_value(text[2 * i])->Some_0 * 16 + hex_value(text[2 * i + 1])->Some_0) as u8,
    )
}

/// The message with which the `hex` crate refuses a text.
pub uninterp spec fn hex_refusal(text: Seq<char>) -> Seq<char>;

/// Calls `hex::encode`.
#[verifier::external_body]
pub(crate) fn hex_encode(bytes: &[u8]) -> (text: String)
    ensures
        text@ == hex_text(bytes@),
{
    hex::encode(bytes)
}

/// Calls `hex::decode`. It accepts exactly the texts of an even number of
/// hexadecimal digits, of either case; it refuses others with the message of
/// the error.
#[verifier::external_body]
pub(crate) fn hex_decode(text: &str) -> (r: Result<Vec<u8>, String>)
    ensures
        match r {
            Ok(bytes) => is_hex(text@) && bytes@ == hex_bytes(text@),
            Err(message) => !is_hex(text@) && message@ == hex_refusal(text@),
        },
{
    hex::decode(text).map_err(|e| e.to_string())
}

/// Reading back the hexadecimal text of a byte string gives the bytes.
pub proof fn hex_round_trip(bytes: Seq<u8>)
    ensures
        is_hex(hex_text(bytes)),
        hex_bytes(hex_text(bytes)) == bytes,
{
    let text = hex_text(bytes);
    assert forall|i: int| 0 <= i < text.len() implies #[trigger] hex_value(text[i]) == Some(
        if i % 2 == 0 {
            bytes[i / 2] as nat / 16
        } else {
            bytes[i / 2] as nat % 16
        },
    ) by {}
    assert forall|i: int| 0 <= i < bytes.len() implies hex_bytes(text)[i] == bytes[i] by {
        assert(hex_value(text[2 * i]) == Some(bytes[i] as nat / 16));
        assert(hex_value(text[2 * i + 1]) == Some(bytes[i] as nat % 16));
    }
    assert(hex_bytes(text) =~= bytes);
}

} // verus!
