//! The commands typed at the client's prompt: `r` or `w`, a namespace and
//! a value, as the pattern `^(r|w)\s(\S+)\s(.*)` reads them.

use vstd::prelude::*;
use crate::regex_calls::{groups_view, regex_capture_groups, regex_captures};
use crate::text::{push_str, same_text};

verus! {

/// The pattern of a command line.
pub open spec fn command_pattern() -> Seq<char> {
    "^(r|w)\\s(\\S+)\\s(.*)"@
}

/// A command read from a line.
pub enum ClientCommand {
    /// Read `value` under `namespace`.
    Read { namespace: String, value: String },
    /// Write `value` under `namespace`.
    Write { namespace: String, value: String },
    /// A line whose action is neither `r` nor `w`.
    Other,
}

/// The text of group `i`, or the empty text when the group is missing.
pub open spec fn group_text(groups: Seq<Option<Seq<char>>>, i: int) -> Seq<char> {
    if 0 <= i < groups.len() && groups[i] is Some {
        groups[i]->0
    } else {
        Seq::empty()
    }
}

/// What a command is, given the texts of its groups: the action, the
/// namespace and the value are groups 1, 2 and 3.
pub open spec fn command_of(groups: Seq<Option<Seq<char>>>, c: ClientCommand) -> bool {
    let action = group_text(groups, 1);
    match c {
        ClientCommand::Read { namespace, value } => action == "r"@ && namespace@ == group_text(groups, 2)
            && value@ == group_text(groups, 3),
        ClientCommand::Write { namespace, value } => action == "w"@ && namespace@ == group_text(groups, 2)
            && value@ == group_text(groups, 3),
        ClientCommand::Other => action != "r"@ && action != "w"@,
    }
}

/// The text of group `i`, or the empty text when the group is missing.
fn group(groups: &Vec<Option<String>>, i: usize) -> (s: String)
    ensures
        s@ == group_text(groups_view(groups@), i as int),
{
    if i < groups.len() {
        match &groups[i] {
            Some(g) => g.clone(),
            None => String::new(),
        }
    } else {
        String::new()
    }
}

/// The command that the groups of a matched line describe.
pub fn command_from_groups(groups: &Vec<Option<String>>) -> (c: ClientCommand)
    ensures
        command_of(groups_view(groups@), c),
{
    let action = group(groups, 1);
    let namespace = group(groups, 2);
    let value = group(groups, 3);
    proof {
        reveal_strlit("r");
        reveal_strlit("w");
        assert("r"@ != "w"@) by {
            assert("r"@[0] != "w"@[0]);
        }
    }
    if same_text(action.as_str(), "r") {
        ClientCommand::Read { namespace, value }
    } else if same_text(action.as_str(), "w") {
        ClientCommand::Write { namespace, value }
    } else {
        ClientCommand::Other
    }
}

/// Reads a command line; `None` when it does not match the pattern.
pub fn parse_line(line: &str) -> (c: Option<ClientCommand>)
    ensures
        c is Some <==> regex_capture_groups(command_pattern(), line@) is Some,
        c matches Some(cmd) ==> command_of(regex_capture_groups(command_pattern(), line@)->0, cmd),
{
    match regex_captures("^(r|w)\\s(\\S+)\\s(.*)", line) {
        Some(groups) => Some(command_from_groups(&groups)),
        None => None,
    }
}

/// What the client says of a command, if anything.
pub open spec fn command_message(c: ClientCommand) -> Option<Seq<char>> {
    match c {
        ClientCommand::Read { namespace, value } => Some(
            "read namespace="@ + namespace@ + "; value="@ + value@,
        ),
        ClientCommand::Write { namespace, value } => Some(
            "write namespace="@ + namespace@ + "; value="@ + value@,
        ),
        ClientCommand::Other => None,
    }
}

/// The line that the client prints for a command, if any.
pub fn describe(c: &ClientCommand) -> (m: Option<String>)
    ensures
        match m {
            Some(s) => command_message(*c) == Some(s@),
            None => command_message(*c) is None,
        },
{
    match c {
        ClientCommand::Read { namespace, value } => {
            let mut s = "read namespace=".to_owned();
            push_str(&mut s, namespace.as_str());
            push_str(&mut s, "; value=");
            push_str(&mut s, value.as_str());
            Some(s)
        },
        ClientCommand::Write { namespace, value } => {
            let mut s = "write namespace=".to_owned();
            push_str(&mut s, namespace.as_str());
            push_str(&mut s, "; value=");
            push_str(&mut s, value.as_str());
            Some(s)
        },
        ClientCommand::Other => None,
    }
}

} // verus!
