//! Base64 of a value, in the URL-safe alphabet and without padding: the
//! form in which clients pass values to the daemon.

use vstd::prelude::*;
use vstd::string::StringSliceAdditionalSpecFns;
use vstd::utf8::{decode_utf8, valid_utf8};

verus! {

/// The character of a six-bit group in the URL-safe alphabet of RFC 4648:
/// `A`-`Z`, `a`-`z`, `0`-`9`, `-`, `_`.
pub open spec fn url_safe_char(i: int) -> char {
    if i < 26 {
        (65 + i) as char
    } else if i < 52 {
        (71 + i) as char
    } else if i < 62 {
        (i - 4) as char
    } else if i == 62 {
        '-'
    } else {
        '_'
    }
}

/// The URL-safe base64 form of `b`, without padding: each three bytes give
/// four characters, a last pair of bytes three and a last byte two.
pub open spec fn base64_url_no_pad(b: Seq<u8>) -> Seq<char>
    decreases b.len(),
{
    if b.len() == 0 {
        Seq::empty()
    } else {
        let b0 = b[0] as int;
        let b1 = if b.len() > 1 { b[1] as int } else { 0 };
        let b2 = if b.len() > 2 { b[2] as int } else { 0 };
        let c0 = url_safe_char(b0 / 4);
        let c1 = url_safe_char((b0 % 4) * 16 + b1 / 16);
        let c2 = url_safe_char((b1 % 16) * 4 + b2 / 64);
        let c3 = url_safe_char(b2 % 64);
        if b.len() == 1 {
            seq![c0, c1]
        } else if b.len() == 2 {
            seq![c0, c1, c2]
        } else {
            seq![c0, c1, c2, c3] + base64_url_no_pad(b.subrange(3, b.len() as int))
        }
    }
}

/// Every three bytes give four characters, a last pair of bytes three and a
/// last byte two.
pub proof fn lemma_encoded_length(b: Seq<u8>)
    ensures
        base64_url_no_pad(b).len() == 4 * (b.len() / 3) + if b.len() % 3 == 0 {
            0int
        } else {
            (b.len() % 3 + 1) as int
        },
    decreases b.len(),
{
    if b.len() > 2 {
        lemma_encoded_length(b.subrange(3, b.len() as int));
    }
}

/// Two six-bit groups with the same character are the same group.
pub proof fn lemma_url_safe_char_injective(i: int, j: int)
    requires
        0 <= i < 64,
        0 <= j < 64,
        url_safe_char(i) == url_safe_char(j),
    ensures
        i == j,
{
    assert(url_safe_char(i) as int == url_safe_char(j) as int);
}

/// No character of the alphabet is the padding character `=`.
pub proof fn lemma_url_safe_char_not_pad(i: int)
    requires
        0 <= i < 64,
    ensures
        url_safe_char(i) != '=',
{
    assert(url_safe_char(i) as int != '=' as int);
}

/// The unpadded form holds no `=`.
pub proof fn lemma_no_pad_char(b: Seq<u8>)
    ensures
        !base64_url_no_pad(b).contains('='),
    decreases b.len(),
{
    if b.len() > 0 {
        let b0 = b[0] as int;
        let b1 = if b.len() > 1 { b[1] as int } else { 0 };
        let b2 = if b.len() > 2 { b[2] as int } else { 0 };
        lemma_url_safe_char_not_pad(b0 / 4);
        lemma_url_safe_char_not_pad((b0 % 4) * 16 + b1 / 16);
        lemma_url_safe_char_not_pad((b1 % 16) * 4 + b2 / 64);
        lemma_url_safe_char_not_pad(b2 % 64);
        if b.len() > 2 {
            let rest = b.subrange(3, b.len() as int);
            lemma_no_pad_char(rest);
            let head = seq![
                url_safe_char(b0 / 4),
                url_safe_char((b0 % 4) * 16 + b1 / 16),
                url_safe_char((b1 % 16) * 4 + b2 / 64),
                url_safe_char(b2 % 64),
            ];
            assert forall|k: int| 0 <= k < base64_url_no_pad(b).len() implies base64_url_no_pad(b)[k] != '=' by {
                if k >= 4 {
                    assert(base64_url_no_pad(b)[k] == base64_url_no_pad(rest)[k - 4]);
                }
            }
        }
    }
}

/// The bytes of a group of three (missing ones read as zero) are fixed by
/// its four six-bit groups.
proof fn lemma_groups_fix_bytes(a0: int, a1: int, a2: int, c0: int, c1: int, c2: int)
    requires
        0 <= a0 < 256,
        0 <= a1 < 256,
        0 <= a2 < 256,
        0 <= c0 < 256,
        0 <= c1 < 256,
        0 <= c2 < 256,
        a0 / 4 == c0 / 4,
        (a0 % 4) * 16 + a1 / 16 == (c0 % 4) * 16 + c1 / 16,
        (a1 % 16) * 4 + a2 / 64 == (c1 % 16) * 4 + c2 / 64,
        a2 % 64 == c2 % 64,
    ensures
        a0 == c0,
        a1 == c1,
        a2 == c2,
{
}

/// Different bytes have different unpadded forms.
pub proof fn lemma_base64_injective(b: Seq<u8>, c: Seq<u8>)
    requires
        base64_url_no_pad(b) == base64_url_no_pad(c),
    ensures
        b == c,
    decreases b.len(),
{
    lemma_encoded_length(b);
    lemma_encoded_length(c);
    assert(b.len() == c.len());
    if b.len() > 0 {
        let e = base64_url_no_pad(b);
        let b0 = b[0] as int;
        let b1 = if b.len() > 1 { b[1] as int } else { 0 };
        let b2 = if b.len() > 2 { b[2] as int } else { 0 };
        let c0 = c[0] as int;
        let c1 = if c.len() > 1 { c[1] as int } else { 0 };
        let c2 = if c.len() > 2 { c[2] as int } else { 0 };
        let f = base64_url_no_pad(c);
        assert(e[0] == url_safe_char(b0 / 4) && e[1] == url_safe_char((b0 % 4) * 16 + b1 / 16));
        assert(f[0] == url_safe_char(c0 / 4) && f[1] == url_safe_char((c0 % 4) * 16 + c1 / 16));
        lemma_url_safe_char_injective(b0 / 4, c0 / 4);
        lemma_url_safe_char_injective((b0 % 4) * 16 + b1 / 16, (c0 % 4) * 16 + c1 / 16);
        if b.len() > 1 {
            assert(e[2] == url_safe_char((b1 % 16) * 4 + b2 / 64));
            assert(f[2] == url_safe_char((c1 % 16) * 4 + c2 / 64));
            lemma_url_safe_char_injective((b1 % 16) * 4 + b2 / 64, (c1 % 16) * 4 + c2 / 64);
        }
        if b.len() > 2 {
            assert(e[3] == url_safe_char(b2 % 64));
            assert(f[3] == url_safe_char(c2 % 64));
            lemma_url_safe_char_injective(b2 % 64, c2 % 64);
        }
        if b.len() == 1 {
            lemma_groups_fix_bytes(b0, 0, 0, c0, 0, 0);
            assert(b =~= c);
        } else if b.len() == 2 {
            lemma_groups_fix_bytes(b0, b1, 0, c0, c1, 0);
            assert(b =~= c);
        } else {
            lemma_groups_fix_bytes(b0, b1, b2, c0, c1, c2);
            let rb = b.subrange(3, b.len() as int);
            let rc = c.subrange(3, c.len() as int);
            assert(base64_url_no_pad(rb) =~= e.subrange(4, e.len() as int));
            assert(base64_url_no_pad(rc) =~= e.subrange(4, e.len() as int));
            lemma_base64_injective(rb, rc);
            assert(b =~= c) by {
                assert forall|k: int| 0 <= k < b.len() implies b[k] == c[k] by {
                    if k >= 3 {
                        assert(b[k] == rb[k - 3]);
                        assert(c[k] == rc[k - 3]);
                    }
                }
            }
        }
    }
}

/// The text that `input`, an unpadded URL-safe base64 form, stands for:
/// the UTF-8 text of the bytes it encodes, when it encodes bytes and they
/// are UTF-8.
pub open spec fn decoded_text(input: Seq<char>) -> Option<Seq<char>> {
    if exists|b: Seq<u8>| #[trigger] base64_url_no_pad(b) == input && valid_utf8(b) {
        Some(decode_utf8(choose|b: Seq<u8>| #[trigger] base64_url_no_pad(b) == input && valid_utf8(b)))
    } else {
        None
    }
}

/// `base64::encode_config(input, base64::URL_SAFE_NO_PAD)`: the URL-safe
/// base64 form of the bytes, without padding, as RFC 4648 (section 5)
/// defines it. The crate panics only when the length of the result
/// overflows a `usize`, which no slice in memory can make it do.
#[verifier::external_body]
fn encode_url_safe_no_pad(input: &[u8]) -> (r: String)
    requires
        input@.len() <= usize::MAX / 2,
    ensures
        r@ == base64_url_no_pad(input@),
{
    base64::encode_config(input, base64::URL_SAFE_NO_PAD)
}

/// The URL-safe base64 form, without padding, of the UTF-8 bytes of `value`.
pub fn encode_value(value: &str) -> (r: String)
    requires
        value.spec_bytes().len() <= usize::MAX / 2,
    ensures
        r@ == base64_url_no_pad(value.spec_bytes()),
{
    encode_url_safe_no_pad(value.as_bytes())
}

/// The error of `base64::decode_config`.
#[verifier::external_type_specification]
#[verifier::external_body]
pub struct ExDecodeError(base64::DecodeError);

/// The error of `String::from_utf8`.
#[verifier::external_type_specification]
#[verifier::external_body]
pub struct ExFromUtf8Error(std::string::FromUtf8Error);

/// `base64::decode_config(input, base64::URL_SAFE_NO_PAD)` on text without
/// `=`: the bytes whose unpadded URL-safe form the text is, or an error
/// when there are none. The crate decodes the UTF-8 bytes of the text,
/// refuses a byte outside the alphabet, a length of one more than a
/// multiple of four and a last character with bits left over, and these
/// are exactly the texts that no bytes encode to. It panics only when the
/// length overflows, which the bound rules out.
#[verifier::external_body]
fn decode_url_safe_no_pad(input: &str) -> (r: Result<Vec<u8>, base64::DecodeError>)
    requires
        input.spec_bytes().len() <= usize::MAX / 2,
        !input@.contains('='),
    ensures
        match r {
            Ok(b) => base64_url_no_pad(b@) == input@,
            Err(_) => forall|b: Seq<u8>| #[trigger] base64_url_no_pad(b) != input@,
        },
{
    base64::decode_config(input, base64::URL_SAFE_NO_PAD)
}

/// `String::from_utf8(bytes)`: the text of the bytes when they are UTF-8,
/// an error otherwise.
#[verifier::external_body]
fn string_from_utf8(bytes: Vec<u8>) -> (r: Result<String, std::string::FromUtf8Error>)
    ensures
        match r {
            Ok(s) => valid_utf8(bytes@) && s@ == decode_utf8(bytes@),
            Err(_) => !valid_utf8(bytes@),
        },
{
    String::from_utf8(bytes)
}

/// Whether `s` holds the character `c`.
fn holds_char(s: &str, c: char) -> (b: bool)
    ensures
        b == s@.contains(c),
{
    let chars = crate::text::chars_of(s);
    let mut i: usize = 0;
    while i < chars.len()
        invariant
            chars@ == s@,
            i <= chars.len(),
            forall|k: int| 0 <= k < i ==> chars@[k] != c,
        decreases chars.len() - i,
    {
        if chars[i] == c {
            return true;
        }
        i = i + 1;
    }
    false
}

/// The text that a value in unpadded URL-safe base64 stands for; `None`
/// when it is no such form (padding included) or its bytes are not UTF-8.
pub fn decode_value(value: &str) -> (r: Option<String>)
    requires
        value.spec_bytes().len() <= usize::MAX / 2,
    ensures
        match r {
            Some(s) => decoded_text(value@) == Some(s@),
            None => decoded_text(value@) is None,
        },
{
    if holds_char(value, '=') {
        proof {
            assert forall|b: Seq<u8>| #[trigger] base64_url_no_pad(b) == value@ implies !valid_utf8(b) by {
                lemma_no_pad_char(b);
            }
        }
        return None;
    }
    match decode_url_safe_no_pad(value) {
        Ok(bytes) => {
            let ghost b = bytes@;
            match string_from_utf8(bytes) {
                Ok(s) => {
                    proof {
                        let c = choose|c: Seq<u8>| #[trigger] base64_url_no_pad(c) == value@ && valid_utf8(c);
                        lemma_base64_injective(b, c);
                    }
                    Some(s)
                },
                Err(_) => {
                    proof {
                        assert forall|c: Seq<u8>| #[trigger] base64_url_no_pad(c) == value@ implies !valid_utf8(c) by {
                            lemma_base64_injective(b, c);
                        }
                    }
                    None
                },
            }
        },
        Err(_) => None,
    }
}

/// Decoding gives back the text that was encoded.
pub proof fn lemma_decode_encoded(text: Seq<char>)
    ensures
        decoded_text(base64_url_no_pad(vstd::utf8::encode_utf8(text))) == Some(text),
{
    let b = vstd::utf8::encode_utf8(text);
    vstd::utf8::encode_utf8_valid_utf8(text);
    vstd::utf8::encode_utf8_decode_utf8(text);
    let e = base64_url_no_pad(b);
    assert(base64_url_no_pad(b) == e && valid_utf8(b));
    let c = choose|c: Seq<u8>| #[trigger] base64_url_no_pad(c) == e && valid_utf8(c);
    lemma_base64_injective(b, c);
}

} // verus!
