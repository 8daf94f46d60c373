//! The calls into the `regex` crate. What a regular expression matches
//! is the crate's to decide: the results are named, not stated, but for
//! what the daemon needs of its one replacement.

use vstd::prelude::*;

verus! {

/// What `regex::Regex::new(pattern)` followed by `replace(text, replacement)`
/// gives: `None` when the pattern does not compile, otherwise the text with
/// its leftmost match, if any, replaced.
pub uninterp spec fn regex_replace_first(
    pattern: Seq<char>,
    text: Seq<char>,
    replacement: Seq<char>,
) -> Option<Seq<char>>;

/// What `regex::Regex::new(pattern)` followed by `captures(text)` gives:
/// `None` when the pattern does not compile or does not match, otherwise
/// the text of each capture group in order (group 0 being the whole match),
/// `None` for a group that took no part in the match.
pub uninterp spec fn regex_capture_groups(pattern: Seq<char>, text: Seq<char>) -> Option<
    Seq<Option<Seq<char>>>,
>;

/// The texts of the groups, as mathematical strings.
pub open spec fn groups_view(groups: Seq<Option<String>>) -> Seq<Option<Seq<char>>> {
    groups.map_values(|g: Option<String>| match g {
        Some(s) => Some(s@),
        None => None,
    })
}

/// `p` occurs in `t` from the position `i` on.
pub open spec fn occurs_at(t: Seq<char>, i: int, p: Seq<char>) -> bool {
    0 <= i && i + p.len() <= t.len() && t.subrange(i, i + p.len()) == p
}

/// The pattern that matches a JSON member `"stats":{...},`: the escapes
/// `\x22` stand for `"`, and `.+` for one or more characters other than a
/// line break.
pub open spec fn stats_member_regex() -> Seq<char> {
    "\\x22stats\\x22:\\{.+\\},"@
}

/// `text` is `x`, then `"stats":{`, then `y`, then `},`, then `z`, where
/// `"stats":{` does not occur earlier, `y` is not empty and holds no line
/// break, and `z` holds no `},`: so the leftmost match of
/// `stats_member_regex` starts after `x`, and its greedy `.+` takes `y`
/// and stops at the last `},`, before `z`.
pub open spec fn stats_member_split(text: Seq<char>, x: Seq<char>, y: Seq<char>, z: Seq<char>) -> bool {
    &&& text == x + "\"stats\":{"@ + y + "},"@ + z
    &&& forall|i: int| 0 <= i < x.len() ==> !occurs_at(text, i, "\"stats\":{"@)
    &&& y.len() > 0
    &&& !y.contains('\n')
    &&& forall|i: int| !occurs_at(z, i, "},"@)
}

/// Compiles `pattern` with `regex::Regex::new` and, when it compiles,
/// returns `Regex::replace(text, replacement)` as an owned string. The
/// result is what `regex_replace_first` names for these arguments. Of the
/// pattern `stats_member_regex` with an empty replacement, the regex
/// documentation gives what is removed: the pattern compiles, `replace`
/// removes the leftmost-first match, `.` matches any character but `\n`,
/// and the greedy `.+` takes as much as lets the rest match; so for a text
/// split as `stats_member_split` describes, `"stats":{`, `y` and `},` go.
#[verifier::external_body]
pub(crate) fn regex_replace(pattern: &str, text: &str, replacement: &str) -> (r: Option<String>)
    ensures
        match r {
            Some(s) => regex_replace_first(pattern@, text@, replacement@) == Some(s@),
            None => regex_replace_first(pattern@, text@, replacement@) is None,
        },
        (pattern@ == stats_member_regex() && replacement@.len() == 0) ==> forall|
            x: Seq<char>,
            y: Seq<char>,
            z: Seq<char>,
        | #[trigger] stats_member_split(text@, x, y, z) ==> (r is Some && r.unwrap()@ == x + z),
{
    match regex::Regex::new(pattern) {
        Ok(re) => Some(re.replace(text, replacement).into_owned()),
        Err(_) => None,
    }
}

/// Compiles `pattern` with `regex::Regex::new` and, when it compiles,
/// returns what `Regex::captures(text)` finds: the text of every group
/// (`Captures::get(i)`, `Match::as_str`), in order. The result is what
/// `regex_capture_groups` names for these arguments.
#[verifier::external_body]
pub(crate) fn regex_captures(pattern: &str, text: &str) -> (r: Option<Vec<Option<String>>>)
    ensures
        match r {
            Some(groups) => regex_capture_groups(pattern@, text@) == Some(groups_view(groups@)),
            None => regex_capture_groups(pattern@, text@) is None,
        },
{
    match regex::Regex::new(pattern) {
        Ok(re) => re.captures(text).map(|caps| caps.iter().map(|g| g.map(|m| m.as_str().to_string())).collect()),
        Err(_) => None,
    }
}

} // verus!
