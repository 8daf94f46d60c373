//! What the daemon answers on its web routes, and the decisions of its
//! start-up: the shared state, the messages, and the handling of reads and
//! writes, one at a time or in bulk. The web server itself, the files and
//! the configuration reading stand outside the library.

use vstd::prelude::*;
use crate::daemon::db::{
    Database, DbView, can_write, count_of, keeps_paths, lemma_write_outcome_counts, write_outcome,
};
use crate::daemon::sighting_reader;
use crate::daemon::sighting_reader::{
    can_read, is_config_path, lemma_read_counts, message_json, read_counted, read_effect, read_reply,
    shadow_path,
};
use crate::daemon::sighting_writer;
use crate::b64::{decode_value, decoded_text};
use crate::json::{json_str, push_json_str};
use crate::text::{after_chars, is_prefix, pop_char, push_str, same_text, starts_with};

verus! {

/// What the daemon's handlers share: the database.
pub struct SharedState {
    pub db: Database,
}

impl SharedState {
    /// A state with an empty database.
    pub fn new() -> (s: Self)
        ensures
            s.db@ == DbView::empty(),
            s.db.db_path_view() == Seq::<char>::empty(),
    {
        SharedState { db: Database::new() }
    }
}

/// A message answered to a client.
pub struct Message {
    message: String,
}

impl View for Message {
    type V = Seq<char>;

    closed spec fn view(&self) -> Seq<char> {
        self.message@
    }
}

impl Message {
    /// The message as a JSON object.
    pub fn to_json(&self) -> (j: String)
        ensures
            j@ == message_json(self@),
    {
        let mut out = String::new();
        push_str(&mut out, "{\"message\":");
        push_json_str(&mut out, self.message.as_str());
        push_str(&mut out, "}");
        assert(out@ =~= message_json(self@));
        out
    }
}

/// What the daemon says of itself.
pub struct InfoData {
    implementation: String,
    version: String,
    vendor: String,
    author: String,
}

/// The JSON object of the daemon's description.
pub open spec fn info_json(implementation: Seq<char>, version: Seq<char>, vendor: Seq<char>, author: Seq<char>) -> Seq<char> {
    "{\"implementation\":"@ + json_str(implementation) + ",\"version\":"@ + json_str(version)
        + ",\"vendor\":"@ + json_str(vendor) + ",\"author\":"@ + json_str(author) + "}"@
}

impl View for InfoData {
    /// The implementation, the version, the vendor and the author.
    type V = (Seq<char>, Seq<char>, Seq<char>, Seq<char>);

    closed spec fn view(&self) -> (Seq<char>, Seq<char>, Seq<char>, Seq<char>) {
        (self.implementation@, self.version@, self.vendor@, self.author@)
    }
}

impl InfoData {
    /// The description as a JSON object.
    pub fn to_json(&self) -> (j: String)
        ensures
            j@ == info_json(self@.0, self@.1, self@.2, self@.3),
    {
        let mut out = String::new();
        push_str(&mut out, "{\"implementation\":");
        push_json_str(&mut out, self.implementation.as_str());
        push_str(&mut out, ",\"version\":");
        push_json_str(&mut out, self.version.as_str());
        push_str(&mut out, ",\"vendor\":");
        push_json_str(&mut out, self.vendor.as_str());
        push_str(&mut out, ",\"author\":");
        push_json_str(&mut out, self.author.as_str());
        push_str(&mut out, "}");
        assert(out@ =~= info_json(self@.0, self@.1, self@.2, self@.3));
        out
    }
}

/// The items of a bulk read or write.
pub struct PostData {
    pub items: Vec<BulkSighting>,
}

/// One item of a bulk read or write: a value under a namespace.
pub struct BulkSighting {
    pub namespace: String,
    pub value: String,
}

/// The namespaces and values of bulk items.
pub open spec fn items_view(items: Seq<BulkSighting>) -> Seq<(Seq<char>, Seq<char>)> {
    items.map_values(|b: BulkSighting| (b.namespace@, b.value@))
}

/// An answer of the daemon: its body, and whether it is sent as JSON.
pub struct Reply {
    pub body: String,
    pub json: bool,
}

/// The help text.
pub open spec fn help_text() -> Seq<char> {
    "Sighting Daemon, written by Sebastien Tricaud, (C) Devo Inc. 2019
REST Endpoints:
\t/w: write
\t/r: read
\t/c: configure
\t/i: info
"@
}

/// The answer to a request that matches no route.
pub fn help() -> (r: &'static str)
    ensures
        r@ == help_text(),
{
    "Sighting Daemon, written by Sebastien Tricaud, (C) Devo Inc. 2019
REST Endpoints:
\t/w: write
\t/r: read
\t/c: configure
\t/i: info
"
}

/// The answer to a configuration request.
pub fn configure() -> (r: &'static str)
    ensures
        r@ == "configure"@,
{
    "configure"
}

/// The daemon's description, as a JSON object.
pub fn info() -> (r: String)
    ensures
        r@ == info_json("SightingDB"@, "0.0.1"@, "Devo"@, "Sebastien Tricaud"@),
{
    let data = InfoData {
        implementation: "SightingDB".to_owned(),
        version: "0.0.1".to_owned(),
        vendor: "Devo".to_owned(),
        author: "Sebastien Tricaud".to_owned(),
    };
    data.to_json()
}

/// The first `n` characters of `s` are ASCII, so that the byte `n` starts
/// the character `n`.
pub open spec fn has_ascii_head(s: Seq<char>, n: int) -> bool {
    &&& n <= s.len()
    &&& forall|i: int| 0 <= i < n ==> (#[trigger] s[i] as u32) < 128
}

/// The path that a route such as `/r/` or `/w/` is followed by.
pub open spec fn route_rest(request_path: Seq<char>) -> Seq<char> {
    request_path.subrange(3, request_path.len() as int)
}

/// The value given by a query string of the form `val=...`.
pub open spec fn val_param(query: Seq<char>) -> Option<Seq<char>> {
    if is_prefix("val="@, query) {
        Some(query.subrange(4, query.len() as int))
    } else {
        None
    }
}

/// The value of a `val=` query string, when it is one.
fn query_value(query: &str) -> (r: Option<String>)
    ensures
        match r {
            Some(v) => val_param(query@) == Some(v@),
            None => val_param(query@) is None,
        },
{
    if starts_with(query, "val=") {
        proof {
            reveal_strlit("val=");
        }
        Some(after_chars(query, 4))
    } else {
        None
    }
}

/// The message answered when a value is not in the expected form.
pub open spec fn invalid_value_message() -> Seq<char> {
    message_json("Invalid base64 encoding (base64 url with non padding) value"@)
}

/// Reads, under the path of the request (`/r/` and the path), the value
/// that the query gives in unpadded URL-safe base64; an error message
/// without a `val=` query, or when it holds no such form of a UTF-8 text.
pub fn read(state: &mut SharedState, request_path: &str, query: &str) -> (r: Reply)
    requires
        has_ascii_head(request_path@, 3),
        val_param(query@) matches Some(q) ==> vstd::utf8::encode_utf8(q).len() <= usize::MAX / 2,
        val_param(query@) matches Some(q) ==> (decoded_text(q) matches Some(v) ==> can_read(
            old(state).db@,
            route_rest(request_path@),
            v,
        )),
    ensures
        final(state).db.db_path_view() == old(state).db.db_path_view(),
        match val_param(query@) {
            Some(q) => match decoded_text(q) {
                Some(v) => {
                    &&& r.body@ == read_reply(old(state).db@, route_rest(request_path@), v, false)
                    &&& !r.json
                    &&& read_effect(old(state).db@, final(state).db@, route_rest(request_path@), v)
                    &&& !is_config_path(route_rest(request_path@)) ==> read_counted(
                        old(state).db@,
                        final(state).db@,
                        route_rest(request_path@),
                        v,
                    )
                },
                None => {
                    &&& r.body@ == invalid_value_message()
                    &&& r.json
                    &&& final(state).db@ == old(state).db@
                },
            },
            None => {
                &&& r.body@ == message_json("Error: val= not found!"@)
                &&& r.json
                &&& final(state).db@ == old(state).db@
            },
        },
{
    let path = after_chars(request_path, 3);
    match query_value(query) {
        Some(encoded) => match decode_value(encoded.as_str()) {
            Some(val) => {
                let ans = sighting_reader::read(&mut state.db, path.as_str(), val.as_str(), false);
                Reply { body: ans, json: false }
            },
            None => {
                let m = Message { message: "Invalid base64 encoding (base64 url with non padding) value".to_owned() };
                Reply { body: m.to_json(), json: true }
            },
        },
        None => {
            let m = Message { message: "Error: val= not found!".to_owned() };
            Reply { body: m.to_json(), json: true }
        },
    }
}

/// The message answered to a write.
pub open spec fn write_message(could_write: bool) -> Seq<char> {
    if could_write {
        message_json("ok"@)
    } else {
        invalid_value_message()
    }
}

/// The JSON answer to a write.
fn write_reply(could_write: bool) -> (r: Reply)
    ensures
        r.body@ == write_message(could_write),
        r.json,
{
    let m = if could_write {
        Message { message: "ok".to_owned() }
    } else {
        Message { message: "Invalid base64 encoding (base64 url with non padding) value".to_owned() }
    };
    Reply { body: m.to_json(), json: true }
}

/// Writes the value of the query under the path of the request (`/w/` and
/// the path), dated now, with the consensus; answers `ok`, or an error
/// message without a `val=` query.
pub fn write(state: &mut SharedState, request_path: &str, query: &str) -> (r: Reply)
    requires
        has_ascii_head(request_path@, 3),
        val_param(query@) matches Some(v) ==> can_write(old(state).db@, route_rest(request_path@), v, 0, true),
    ensures
        final(state).db.db_path_view() == old(state).db.db_path_view(),
        r.json,
        match val_param(query@) {
            Some(v) => exists|ok: bool| #[trigger]
                write_outcome(old(state).db@, final(state).db@, route_rest(request_path@), v, 0, true, ok)
                    && r.body@ == write_message(ok),
            None => final(state).db@ == old(state).db@ && r.body@ == write_message(false),
        },
        val_param(query@) is Some ==> r.body@ == message_json("ok"@),
{
    let path = after_chars(request_path, 3);
    match query_value(query) {
        Some(val) => {
            let could_write = sighting_writer::write(&mut state.db, path.as_str(), val.as_str(), 0);
            let r = write_reply(could_write);
            assert(write_outcome(old(state).db@, state.db@, route_rest(request_path@), val@, 0, true, could_write));
            r
        },
        None => write_reply(false),
    }
}

/// The start of the answer to a bulk read.
pub open spec fn bulk_head() -> Seq<char> {
    "{\n\t\"items\": [\n"@
}

/// One line per answer, each followed by a comma.
pub open spec fn bulk_lines(answers: Seq<Seq<char>>) -> Seq<char>
    decreases answers.len(),
{
    if answers.len() == 0 {
        Seq::empty()
    } else {
        bulk_lines(answers.drop_last()) + "\t\t"@ + answers.last() + ",\n"@
    }
}

/// The answer to a bulk read: the head and the lines, less their last two
/// characters (the last comma and line break, or, with no answer at all,
/// the head's own line break and bracket), then the closing lines.
pub open spec fn bulk_body(answers: Seq<Seq<char>>) -> Seq<char> {
    (bulk_head() + bulk_lines(answers)).drop_last().drop_last() + "\n"@ + "\t]\n}\n"@
}

/// The reads of a bulk read, one after the other: `dbs[i]` is the database
/// before the read of item `i` and `answers[i]` what it answered.
pub open spec fn bulk_read_trace(
    items: Seq<(Seq<char>, Seq<char>)>,
    dbs: Seq<DbView>,
    answers: Seq<Seq<char>>,
) -> bool {
    &&& dbs.len() == items.len() + 1
    &&& answers.len() == items.len()
    &&& forall|i: int| 0 <= i < items.len() ==> #[trigger] read_effect(dbs[i], dbs[i + 1], items[i].0, items[i].1)
    &&& forall|i: int| 0 <= i < items.len() ==> #[trigger] answers[i] == read_reply(dbs[i], items[i].0, items[i].1, false)
}

/// The writes of a bulk write, one after the other, dated now and with the
/// consensus: `dbs[i]` is the database before the write of item `i` and
/// `oks[i]` whether that write succeeded.
pub open spec fn bulk_write_trace(items: Seq<(Seq<char>, Seq<char>)>, dbs: Seq<DbView>, oks: Seq<bool>) -> bool {
    &&& dbs.len() == items.len() + 1
    &&& oks.len() == items.len()
    &&& forall|i: int| 0 <= i < items.len() ==> #[trigger] write_outcome(dbs[i], dbs[i + 1], items[i].0, items[i].1, 0, true, oks[i])
}

/// A bulk read can be done: `_all` exists when some item is read, and no
/// shadow count of an item can overflow, even after every read.
pub open spec fn can_read_bulk(db: DbView, items: Seq<(Seq<char>, Seq<char>)>) -> bool {
    forall|i: int| 0 <= i < items.len() && !is_config_path(#[trigger] items[i].0) ==> {
        &&& db.contains_key("_all"@)
        &&& count_of(db, shadow_path(items[i].0), items[i].1) < u128::MAX - items.len()
    }
}

/// Reads every item in turn and answers all the answers in one JSON list.
pub fn read_bulk(state: &mut SharedState, postdata: &PostData) -> (r: Reply)
    requires
        can_read_bulk(old(state).db@, items_view(postdata.items@)),
    ensures
        final(state).db.db_path_view() == old(state).db.db_path_view(),
        !r.json,
        exists|dbs: Seq<DbView>, answers: Seq<Seq<char>>| #[trigger] bulk_read_trace(items_view(postdata.items@), dbs, answers)
            && dbs[0] == old(state).db@ && dbs.last() == final(state).db@ && r.body@ == bulk_body(answers)
            && forall|i: int| 0 <= i < postdata.items.len() && !is_config_path(#[trigger] items_view(postdata.items@)[i].0)
                ==> read_counted(dbs[i], dbs[i + 1], items_view(postdata.items@)[i].0, items_view(postdata.items@)[i].1),
{
    let ghost items = items_view(postdata.items@);
    let ghost n = postdata.items.len();
    let mut body = String::new();
    push_str(&mut body, "{\n\t\"items\": [\n");
    let ghost mut dbs: Seq<DbView> = seq![state.db@];
    let ghost mut answers: Seq<Seq<char>> = Seq::empty();
    let mut i: usize = 0;
    while i < postdata.items.len()
        invariant
            items == items_view(postdata.items@),
            n == postdata.items.len(),
            i <= n,
            dbs.len() == i + 1,
            answers.len() == i,
            state.db.db_path_view() == old(state).db.db_path_view(),
            dbs[0] == old(state).db@,
            dbs.last() == state.db@,
            forall|j: int| 0 <= j < i ==> #[trigger] read_effect(dbs[j], dbs[j + 1], items[j].0, items[j].1),
            forall|j: int| 0 <= j < i ==> #[trigger] answers[j] == read_reply(dbs[j], items[j].0, items[j].1, false),
            forall|j: int| 0 <= j < i && !is_config_path(#[trigger] items[j].0) ==> read_counted(dbs[j], dbs[j + 1], items[j].0, items[j].1),
            forall|j: int| 0 <= j < n && !is_config_path(#[trigger] items[j].0) ==> old(state).db@.contains_key("_all"@),
            forall|j: int| 0 <= j < n && !is_config_path(#[trigger] items[j].0) ==>
                count_of(old(state).db@, shadow_path(items[j].0), items[j].1) < u128::MAX - n,
            keeps_paths(old(state).db@, state.db@),
            forall|p: Seq<char>, v: Seq<char>| #[trigger] count_of(state.db@, p, v) <= count_of(old(state).db@, p, v) + i,
            body@ == bulk_head() + bulk_lines(answers),
        decreases n - i,
    {
        let item = &postdata.items[i];
        let ghost before = state.db@;
        proof {
            assert(items[i as int] == (item.namespace@, item.value@));
            if !is_config_path(items[i as int].0) {
                assert(old(state).db@.contains_key("_all"@));
                assert(count_of(before, shadow_path(item.namespace@), item.value@) < u128::MAX);
            }
        }
        let ans = sighting_reader::read(&mut state.db, item.namespace.as_str(), item.value.as_str(), false);
        proof {
            assert forall|p: Seq<char>, v: Seq<char>| #[trigger] count_of(state.db@, p, v) <= count_of(old(state).db@, p, v) + i + 1 by {
                lemma_read_counts(before, state.db@, item.namespace@, item.value@, p, v);
            }
            lemma_read_counts(before, state.db@, item.namespace@, item.value@, item.namespace@, item.value@);
            let ghost old_answers = answers;
            dbs = dbs.push(state.db@);
            answers = answers.push(ans@);
            assert(answers.drop_last() =~= old_answers);
            assert forall|p: Seq<char>| #[trigger] old(state).db@.contains_key(p) implies state.db@.contains_key(p) by {
                assert(before.contains_key(p));
            }
        }
        push_str(&mut body, "\t\t");
        push_str(&mut body, ans.as_str());
        push_str(&mut body, ",\n");
        i = i + 1;
        assert(body@ =~= bulk_head() + bulk_lines(answers));
    }
    proof {
        reveal_strlit("{\n\t\"items\": [\n");
    }
    pop_char(&mut body);
    pop_char(&mut body);
    push_str(&mut body, "\n");
    push_str(&mut body, "\t]\n}\n");
    assert(bulk_read_trace(items, dbs, answers));
    Reply { body, json: false }
}

/// A bulk write can be done: no count of an item's value, under its
/// namespace or under `_all`, can overflow, even after every write.
pub open spec fn can_write_bulk(db: DbView, items: Seq<(Seq<char>, Seq<char>)>) -> bool {
    forall|i: int| 0 <= i < items.len() ==> {
        &&& count_of(db, #[trigger] items[i].0, items[i].1) < u128::MAX - 2 * items.len()
        &&& count_of(db, "_all"@, items[i].1) < u128::MAX - 2 * items.len()
    }
}

/// Writes every item in turn, dated now and with the consensus; answers
/// `ok` when the last write succeeded, an error message otherwise (and
/// when there was no item).
pub fn write_bulk(state: &mut SharedState, postdata: &PostData) -> (r: Reply)
    requires
        can_write_bulk(old(state).db@, items_view(postdata.items@)),
    ensures
        final(state).db.db_path_view() == old(state).db.db_path_view(),
        r.json,
        exists|dbs: Seq<DbView>, oks: Seq<bool>| #[trigger] bulk_write_trace(items_view(postdata.items@), dbs, oks)
            && dbs[0] == old(state).db@ && dbs.last() == final(state).db@
            && r.body@ == write_message(oks.len() > 0 && oks.last())
            && forall|i: int| 0 <= i < oks.len() ==> #[trigger] oks[i],
        r.body@ == write_message(postdata.items.len() > 0),
{
    let ghost items = items_view(postdata.items@);
    let ghost n = postdata.items.len();
    let ghost mut dbs: Seq<DbView> = seq![state.db@];
    let ghost mut oks: Seq<bool> = Seq::empty();
    let mut could_write = false;
    let mut i: usize = 0;
    while i < postdata.items.len()
        invariant
            items == items_view(postdata.items@),
            n == postdata.items.len(),
            i <= n,
            dbs.len() == i + 1,
            oks.len() == i,
            state.db.db_path_view() == old(state).db.db_path_view(),
            dbs[0] == old(state).db@,
            dbs.last() == state.db@,
            forall|j: int| 0 <= j < i ==> #[trigger] write_outcome(dbs[j], dbs[j + 1], items[j].0, items[j].1, 0, true, oks[j]),
            forall|j: int| 0 <= j < n ==> {
                &&& count_of(old(state).db@, #[trigger] items[j].0, items[j].1) < u128::MAX - 2 * n
                &&& count_of(old(state).db@, "_all"@, items[j].1) < u128::MAX - 2 * n
            },
            forall|p: Seq<char>, v: Seq<char>| #[trigger] count_of(state.db@, p, v) <= count_of(old(state).db@, p, v) + 2 * i,
            could_write == (oks.len() > 0 && oks.last()),
            forall|j: int| 0 <= j < i ==> #[trigger] oks[j],
        decreases n - i,
    {
        let item = &postdata.items[i];
        let ghost before = state.db@;
        proof {
            assert(items[i as int] == (item.namespace@, item.value@));
            assert(count_of(old(state).db@, items[i as int].0, items[i as int].1) < u128::MAX - 2 * n);
            assert(count_of(old(state).db@, "_all"@, items[i as int].1) < u128::MAX - 2 * n);
            assert(count_of(before, item.namespace@, item.value@) <= count_of(old(state).db@, item.namespace@, item.value@) + 2 * i);
            assert(count_of(before, "_all"@, item.value@) <= count_of(old(state).db@, "_all"@, item.value@) + 2 * i);
        }
        could_write = sighting_writer::write(&mut state.db, item.namespace.as_str(), item.value.as_str(), 0);
        proof {
            assert forall|p: Seq<char>, v: Seq<char>| #[trigger] count_of(state.db@, p, v) <= count_of(old(state).db@, p, v) + 2 * i + 2 by {
                lemma_write_outcome_counts(before, state.db@, item.namespace@, item.value@, 0, true, could_write, p, v);
            }
            dbs = dbs.push(state.db@);
            oks = oks.push(could_write);
        }
        i = i + 1;
    }
    assert(bulk_write_trace(items, dbs, oks));
    write_reply(could_write)
}

/// Only the setting `false` turns TLS off.
pub fn ssl_enabled(setting: &str) -> (b: bool)
    ensures
        b == (setting@ != "false"@),
{
    !same_text(setting, "false")
}

/// How the daemon runs.
pub enum DaemonMode {
    /// Detached, with its output in files.
    Background,
    /// In the foreground, as asked.
    Foreground,
    /// In the foreground, the setting being neither `true` nor `false`.
    Unknown,
}

/// The run mode that the `daemonize` setting asks for.
pub fn daemon_mode(setting: &str) -> (m: DaemonMode)
    ensures
        setting@ == "true"@ ==> m is Background,
        setting@ == "false"@ ==> m is Foreground,
        setting@ != "true"@ && setting@ != "false"@ ==> m is Unknown,
{
    proof {
        reveal_strlit("true");
        reveal_strlit("false");
        assert("true"@.len() != "false"@.len());
    }
    if same_text(setting, "true") {
        DaemonMode::Background
    } else if same_text(setting, "false") {
        DaemonMode::Foreground
    } else {
        DaemonMode::Unknown
    }
}

/// A file setting names an absolute path when it begins with `/`; otherwise
/// it is taken relative to the configuration file's directory.
pub fn config_path_is_absolute(setting: &str) -> (b: bool)
    ensures
        b == is_prefix("/"@, setting@),
{
    starts_with(setting, "/")
}

/// The message when no configuration file can be found.
pub open spec fn missing_config_message() -> Seq<char> {
    "Cannot locate sighting-daemon.ini in neither from the -c flag, /etc/sightingdb or ~/.sightingdb/"@
}

/// The configuration file to use: the system-wide one when it exists, else
/// the one in the home configuration directory when it exists.
pub fn sightingdb_get_config(
    etc_ini: &str,
    etc_exists: bool,
    home_ini: &str,
    home_exists: bool,
) -> (r: Result<String, &'static str>)
    ensures
        etc_exists ==> (r matches Ok(s) && s@ == etc_ini@),
        !etc_exists && home_exists ==> (r matches Ok(s) && s@ == home_ini@),
        !etc_exists && !home_exists ==> (r matches Err(m) && m@ == missing_config_message()),
{
    if etc_exists {
        return Ok(etc_ini.to_owned());
    }
    if home_exists {
        return Ok(home_ini.to_owned());
    }
    Err("Cannot locate sighting-daemon.ini in neither from the -c flag, /etc/sightingdb or ~/.sightingdb/")
}

/// The pid file tried first.
pub fn system_pid_file() -> (r: &'static str)
    ensures
        r@ == "/var/run/sightingdb.pid"@,
{
    "/var/run/sightingdb.pid"
}

/// The pid file to use once the system one was tried: that one when it
/// could be created; otherwise `None`, and the home one is to be tried.
pub fn pid_after_system_try(created: bool) -> (r: Option<String>)
    ensures
        created ==> (r matches Some(s) && s@ == "/var/run/sightingdb.pid"@),
        !created ==> r is None,
{
    if created {
        Some(system_pid_file().to_owned())
    } else {
        None
    }
}

/// The pid file to use once the home one was tried: that one when it could
/// be created, otherwise one in the current directory.
pub fn pid_after_home_try(home_pid: &str, created: bool) -> (r: String)
    ensures
        created ==> r@ == home_pid@,
        !created ==> r@ == "./sightingdb.pid"@,
{
    if created {
        home_pid.to_owned()
    } else {
        "./sightingdb.pid".to_owned()
    }
}

} // verus!
