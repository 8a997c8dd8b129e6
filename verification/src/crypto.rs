//! Base64url coding, HMAC-SHA256 and JSON string quoting, computed by the
//! `base64`, `hmac`/`sha2` and `serde_json` crates.

use base64::Engine;
use hmac::Mac;
use vstd::prelude::*;

verus! {

/// The `base64` crate's decoding error, held opaque.
#[verifier::external_type_specification]
#[verifier::external_body]
pub struct ExDecodeError(base64::DecodeError);

/// The character of the URL-safe base64 alphabet for the six-bit value `v`:
/// `A`-`Z`, `a`-`z`, `0`-`9`, `-`, `_`.
pub open spec fn base64url_digit(v: int) -> char {
    if v < 26 {
        ('A' as int + v) as char
    } else if v < 52 {
        ('a' as int + (v - 26)) as char
    } else if v < 62 {
        ('0' as int + (v - 52)) as char
    } else if v == 62 {
        '-'
    } else {
        '_'
    }
}

/// The unpadded base64url encoding of `bytes` (RFC 4648, section 5): each
/// group of three bytes becomes four characters of six bits each, from the
/// high bits down; a last group of two bytes becomes three characters and of
/// one byte two, the bits past the end being zero, and no padding follows.
pub open spec fn base64url(bytes: Seq<u8>) -> Seq<char>
    decreases bytes.len(),
{
    if bytes.len() == 0 {
        Seq::empty()
    } else if bytes.len() == 1 {
        let a = bytes[0] as int;
        seq![base64url_digit(a / 4), base64url_digit(a % 4 * 16)]
    } else if bytes.len() == 2 {
        let a = bytes[0] as int;
        let b = bytes[1] as int;
        seq![
            base64url_digit(a / 4),
            base64url_digit(a % 4 * 16 + b / 16),
            base64url_digit(b % 16 * 4),
        ]
    } else {
        let a = bytes[0] as int;
        let b = bytes[1] as int;
        let c = bytes[2] as int;
        seq![
            base64url_digit(a / 4),
            base64url_digit(a % 4 * 16 + b / 16),
            base64url_digit(b % 16 * 4 + c / 64),
            base64url_digit(c % 64),
        ] + base64url(bytes.subrange(3, bytes.len() as int))
    }
}

/// Each six-bit value has its own character of the alphabet.
proof fn lemma_base64url_digit(v: int, w: int)
    requires
        0 <= v < 64,
        0 <= w < 64,
    ensures
        is_base64url_char(base64url_digit(v)),
        base64url_digit(v) == base64url_digit(w) ==> v == w,
{
}

/// HMAC-SHA256 of `message` under `key`, as `hmac::Hmac<sha2::Sha256>`
/// computes it.
pub uninterp spec fn hmac_sha256(key: Seq<u8>, message: Seq<u8>) -> Seq<u8>;

/// The lower-case hexadecimal digit for `d`, from 0 to 15.
pub open spec fn hex_digit(d: int) -> char {
    if d < 10 {
        ('0' as int + d) as char
    } else {
        ('a' as int + d - 10) as char
    }
}

/// How a JSON string literal writes one character: `"` and `\` behind a
/// backslash, backspace, tab, line feed, form feed and carriage return by
/// their short escapes, the other characters below U+0020 as `\u00` and two
/// lower-case hex digits, and every other character as itself.
pub open spec fn json_escape(c: char) -> Seq<char> {
    if c == '"' {
        seq!['\\', '"']
    } else if c == '\\' {
        seq!['\\', '\\']
    } else if c == '\u{8}' {
        seq!['\\', 'b']
    } else if c == '\t' {
        seq!['\\', 't']
    } else if c == '\n' {
        seq!['\\', 'n']
    } else if c == '\u{c}' {
        seq!['\\', 'f']
    } else if c == '\r' {
        seq!['\\', 'r']
    } else if (c as int) < 0x20 {
        seq!['\\', 'u', '0', '0', hex_digit(c as int / 16), hex_digit(c as int % 16)]
    } else {
        seq![c]
    }
}

/// The characters of `s`, each written as a JSON string literal writes it.
pub open spec fn json_escaped(s: Seq<char>) -> Seq<char>
    decreases s.len(),
{
    if s.len() == 0 {
        Seq::empty()
    } else {
        json_escaped(s.drop_last()) + json_escape(s.last())
    }
}

/// The JSON string literal for `s`: its escaped characters between double
/// quotes.
pub open spec fn json_string(s: Seq<char>) -> Seq<char> {
    seq!['"'] + json_escaped(s) + seq!['"']
}

/// A character of the URL-safe base64 alphabet: letters, digits, `-`, `_`.
pub open spec fn is_base64url_char(c: char) -> bool {
    ||| ('A' <= c && c <= 'Z')
    ||| ('a' <= c && c <= 'z')
    ||| ('0' <= c && c <= '9')
    ||| c == '-'
    ||| c == '_'
}

/// A base64url encoding is made of characters of the URL-safe alphabet.
pub proof fn lemma_base64url_alphabet(bytes: Seq<u8>)
    ensures
        forall|i: int|
            0 <= i < base64url(bytes).len() ==> is_base64url_char(#[trigger] base64url(bytes)[i]),
    decreases bytes.len(),
{
    let out = base64url(bytes);
    if bytes.len() == 0 {
    } else if bytes.len() == 1 {
        let a = bytes[0] as int;
        lemma_base64url_digit(a / 4, 0);
        lemma_base64url_digit(a % 4 * 16, 0);
    } else if bytes.len() == 2 {
        let a = bytes[0] as int;
        let b = bytes[1] as int;
        lemma_base64url_digit(a / 4, 0);
        lemma_base64url_digit(a % 4 * 16 + b / 16, 0);
        lemma_base64url_digit(b % 16 * 4, 0);
    } else {
        let a = bytes[0] as int;
        let b = bytes[1] as int;
        let c = bytes[2] as int;
        let rest = bytes.subrange(3, bytes.len() as int);
        lemma_base64url_alphabet(rest);
        lemma_base64url_digit(a / 4, 0);
        lemma_base64url_digit(a % 4 * 16 + b / 16, 0);
        lemma_base64url_digit(b % 16 * 4 + c / 64, 0);
        lemma_base64url_digit(c % 64, 0);
        assert forall|i: int| 0 <= i < out.len() implies is_base64url_char(#[trigger] out[i]) by {
            if i >= 4 {
                assert(out[i] == base64url(rest)[i - 4]);
            }
        }
    }
}

/// The length of a base64url encoding: four characters per whole group of
/// three bytes, and two or three for a last group of one or two.
proof fn lemma_base64url_len(bytes: Seq<u8>)
    ensures
        base64url(bytes).len() == 4 * (bytes.len() / 3) + if bytes.len() % 3 == 0 {
            0
        } else {
            bytes.len() % 3 + 1
        },
    decreases bytes.len(),
{
    if bytes.len() >= 3 {
        lemma_base64url_len(bytes.subrange(3, bytes.len() as int));
    }
}

/// No two byte strings have the same base64url encoding.
pub proof fn lemma_base64url_injective(x: Seq<u8>, y: Seq<u8>)
    requires
        base64url(x) == base64url(y),
    ensures
        x == y,
    decreases x.len(),
{
    lemma_base64url_len(x);
    lemma_base64url_len(y);
    let out = base64url(x);
    if x.len() == 0 {
        assert(x =~= y);
    } else if x.len() < 3 || y.len() < 3 {
        assert(x.len() == y.len());
        let (a, p) = (x[0] as int, y[0] as int);
        lemma_base64url_digit(a / 4, p / 4);
        if x.len() == 1 {
            lemma_base64url_digit(a % 4 * 16, p % 4 * 16);
            assert(out[0] == base64url(y)[0] && out[1] == base64url(y)[1]);
        } else {
            let (b, q) = (x[1] as int, y[1] as int);
            assert(out[0] == base64url(y)[0] && out[1] == base64url(y)[1] && out[2] == base64url(y)[2]);
            lemma_base64url_digit(a % 4 * 16 + b / 16, p % 4 * 16 + q / 16);
            lemma_base64url_digit(b % 16 * 4, q % 16 * 4);
        }
        assert(x =~= y);
    } else {
        let (a, b, c) = (x[0] as int, x[1] as int, x[2] as int);
        let (p, q, r) = (y[0] as int, y[1] as int, y[2] as int);
        let other = base64url(y);
        assert(out[0] == other[0] && out[1] == other[1] && out[2] == other[2] && out[3] == other[3]);
        lemma_base64url_digit(a / 4, p / 4);
        lemma_base64url_digit(a % 4 * 16 + b / 16, p % 4 * 16 + q / 16);
        lemma_base64url_digit(b % 16 * 4 + c / 64, q % 16 * 4 + r / 64);
        lemma_base64url_digit(c % 64, r % 64);
        let xs = x.subrange(3, x.len() as int);
        let ys = y.subrange(3, y.len() as int);
        assert(base64url(xs) =~= out.subrange(4, out.len() as int));
        assert(base64url(ys) =~= other.subrange(4, other.len() as int));
        lemma_base64url_injective(xs, ys);
        assert(x =~= seq![x[0], x[1], x[2]] + xs);
        assert(y =~= seq![y[0], y[1], y[2]] + ys);
    }
}

/// `URL_SAFE_NO_PAD.encode`: the unpadded base64url encoding of `bytes`.
#[verifier::external_body]
pub(crate) fn base64url_encode(bytes: &[u8]) -> (res: String)
    ensures
        res@ == base64url(bytes@),
{
    base64::engine::general_purpose::URL_SAFE_NO_PAD.encode(bytes)
}

/// `URL_SAFE_NO_PAD.decode`: with this engine (no padding accepted, no
/// trailing bits allowed) decoding succeeds exactly on the encodings of byte
/// strings and gives back the byte string encoded.
#[verifier::external_body]
pub(crate) fn base64url_decode(text: &str) -> (res: Result<Vec<u8>, base64::DecodeError>)
    ensures
        res matches Ok(v) ==> base64url(v@) == text@,
        forall|v: Seq<u8>| #[trigger] base64url(v) == text@ ==> res is Ok && res->Ok_0@ == v,
{
    base64::engine::general_purpose::URL_SAFE_NO_PAD.decode(text)
}

/// `Hmac::<Sha256>::new_from_slice`, `update`, `finalize`: the tag of
/// `message` under `key`. `new_from_slice` accepts keys of every length for
/// HMAC (it hashes long keys and pads short ones), so its error arm is never
/// taken.
#[verifier::external_body]
pub(crate) fn hmac_sha256_tag(key: &[u8], message: &[u8]) -> (res: Vec<u8>)
    ensures
        res@ == hmac_sha256(key@, message@),
{
    match hmac::Hmac::<sha2::Sha256>::new_from_slice(key) {
        Ok(mut mac) => {
            mac.update(message);
            mac.finalize().into_bytes().to_vec()
        },
        Err(_) => Vec::new(),
    }
}

/// `Hmac::<Sha256>::new_from_slice`, `update`, `verify_slice`: whether `tag`
/// is exactly the tag of `message` under `key` (compared in constant time).
/// As for `hmac_sha256_tag`, the error arm of `new_from_slice` is never taken.
#[verifier::external_body]
pub(crate) fn hmac_sha256_verify(key: &[u8], message: &[u8], tag: &[u8]) -> (res: bool)
    ensures
        res == (tag@ == hmac_sha256(key@, message@)),
{
    match hmac::Hmac::<sha2::Sha256>::new_from_slice(key) {
        Ok(mut mac) => {
            mac.update(message);
            mac.verify_slice(tag).is_ok()
        },
        Err(_) => false,
    }
}

/// `serde_json::to_string` on a string: its JSON literal, quoted and
/// escaped as `format_escaped_str` does with its escape table. Serializing a
/// string cannot fail (the error arm is never taken).
#[verifier::external_body]
pub(crate) fn json_quote(s: &str) -> (res: String)
    ensures
        res@ == json_string(s@),
{
    match serde_json::to_string(s) {
        Ok(quoted) => quoted,
        Err(_) => String::new(),
    }
}

} // verus!
