//! JSON string literals, as serde_json writes them.

use vstd::prelude::*;
use crate::text::{digit_char, push_str};

verus! {

/// The lower-case hexadecimal digit for `d` (0 to 15).
pub open spec fn hex_char(d: int) -> char {
    if d < 10 {
        digit_char(d)
    } else {
        (87 + d) as char
    }
}

/// How one character is written inside a JSON string: quote and backslash
/// get a backslash, the control characters below 0x20 get their short
/// escape or `\u00XX`, everything else stands as it is.
pub open spec fn escape_char(c: char) -> Seq<char> {
    let n = c as int;
    if c == '"' {
        seq!['\\', '"']
    } else if c == '\\' {
        seq!['\\', '\\']
    } else if n == 8 {
        seq!['\\', 'b']
    } else if n == 9 {
        seq!['\\', 't']
    } else if n == 10 {
        seq!['\\', 'n']
    } else if n == 12 {
        seq!['\\', 'f']
    } else if n == 13 {
        seq!['\\', 'r']
    } else if n < 32 {
        seq!['\\', 'u', '0', '0', hex_char(n / 16), hex_char(n % 16)]
    } else {
        seq![c]
    }
}

/// The escaped body of a JSON string.
pub open spec fn escape(s: Seq<char>) -> Seq<char>
    decreases s.len(),
{
    if s.len() == 0 {
        Seq::empty()
    } else {
        escape(s.drop_last()) + escape_char(s.last())
    }
}

/// A JSON string literal holding `s`.
pub open spec fn json_str(s: Seq<char>) -> Seq<char> {
    seq!['"'] + escape(s) + seq!['"']
}

/// A hexadecimal digit is neither a line break nor a brace.
proof fn lemma_hex_char(d: int)
    requires
        0 <= d < 16,
    ensures
        hex_char(d) != '\n',
        hex_char(d) != '{',
{
    if d < 10 {
        assert(digit_char(d) as int == 48 + d);
    } else {
        assert(hex_char(d) as int == 87 + d);
    }
}

/// The escaped form of a character is a line break for none, and a brace
/// only for the brace.
proof fn lemma_escape_char_clean(c: char)
    ensures
        !escape_char(c).contains('\n'),
        c != '{' ==> !escape_char(c).contains('{'),
{
    let n = c as int;
    if n < 32 {
        assert(0 <= n / 16 < 2) by (nonlinear_arith)
            requires
                0 <= n < 32,
        ;
        lemma_hex_char(n / 16);
        lemma_hex_char(n % 16);
    }
}

/// The escaped form of text without `{` holds no `{`, and no escaped form
/// holds a line break.
pub proof fn lemma_escape_no_brace(s: Seq<char>)
    ensures
        !s.contains('{') ==> !json_str(s).contains('{'),
        !json_str(s).contains('\n'),
    decreases s.len(),
{
    if s.len() > 0 {
        let r = s.drop_last();
        lemma_escape_no_brace(r);
        let c = s.last();
        let e = escape_char(c);
        assert(escape(s) == escape(r) + e);
        lemma_escape_char_clean(c);
        if !s.contains('{') {
            assert(c != '{') by {
                assert(s[s.len() - 1] == c);
            }
            assert(!r.contains('{')) by {
                assert forall|i: int| 0 <= i < r.len() implies r[i] != '{' by {
                    assert(r[i] == s[i]);
                }
            }
        }
        let j = json_str(s);
        let jr = json_str(r);
        assert(j =~= jr.drop_last() + e + seq!['"']);
        assert forall|i: int| 0 <= i < j.len() implies j[i] != '\n' && (!s.contains('{') ==> j[i] != '{') by {
            if i < jr.len() - 1 {
                assert(j[i] == jr[i]);
            } else if i < jr.len() - 1 + e.len() {
                assert(j[i] == e[i - (jr.len() - 1)]);
            }
        }
    }
}

/// The error of serde_json's serialisation.
#[verifier::external_type_specification]
#[verifier::external_body]
pub struct ExJsonError(serde_json::Error);

/// `serde_json::to_string(s)` for a string slice: the string literal, with
/// `"` and `\` behind a backslash, the control characters below 0x20 as
/// `\b`, `\t`, `\n`, `\f`, `\r` or `\u00xx` (lower-case hexadecimal), and
/// every other character as it is. Writing into memory cannot fail, and a
/// string has no map keys, so the result is always `Ok`.
#[verifier::external_body]
fn serde_json_string(s: &str) -> (r: Result<String, serde_json::Error>)
    ensures
        r is Ok,
        match r {
            Ok(j) => j@ == json_str(s@),
            Err(_) => true,
        },
{
    serde_json::to_string(s)
}

/// A JSON string literal holding `s`.
pub fn to_json_str(s: &str) -> (r: String)
    ensures
        r@ == json_str(s@),
{
    match serde_json_string(s) {
        Ok(j) => j,
        Err(_) => String::new(),
    }
}

/// Appends `s` as a JSON string literal.
pub fn push_json_str(out: &mut String, s: &str)
    ensures
        final(out)@ == old(out)@ + json_str(s@),
{
    let j = to_json_str(s);
    push_str(out, j.as_str());
}

} // verus!
