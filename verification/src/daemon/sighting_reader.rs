//! Reading a value: the attribute's JSON, with the consensus filled in, and
//! a shadow sighting that counts the read.

use vstd::prelude::*;
use crate::daemon::db::{
    Database, DbView, can_write, count_of, get_attr_effect, get_attr_reply,
    keeps_paths, lemma_get_attr_keeps_counts, lemma_write_counts_one_more,
    lemma_write_leaves_others, lemma_write_outcome_counts, lookup, written, write_outcome,
};
use crate::daemon::attribute::{AttributeView, attribute_json_without_stats, stats_member_apart};
use crate::json::{json_str, push_json_str};
use crate::text::{is_prefix, push_str, starts_with};

verus! {

/// A message answered to a client.
pub struct Message {
    message: String,
}

/// The JSON object of a message.
pub open spec fn message_json(message: Seq<char>) -> Seq<char> {
    "{\"message\":"@ + json_str(message) + "}"@
}

impl View for Message {
    type V = Seq<char>;

    closed spec fn view(&self) -> Seq<char> {
        self.message@
    }
}

impl Message {
    /// The message as a JSON object.
    pub fn to_json(&self) -> (j: String)
        ensures
            j@ == message_json(self@),
    {
        let mut out = String::new();
        push_str(&mut out, "{\"message\":");
        push_json_str(&mut out, self.message.as_str());
        push_str(&mut out, "}");
        assert(out@ =~= message_json(self@));
        out
    }
}

/// The namespace whose reads count the reads of `path`.
pub open spec fn shadow_path(path: Seq<char>) -> Seq<char> {
    "_shadow/"@ + path
}

/// Paths under `_config/` cannot be read from outside.
pub open spec fn is_config_path(path: Seq<char>) -> bool {
    is_prefix("_config/"@, path)
}

/// What is answered to a read of `value` under `path`.
pub open spec fn read_reply(db: DbView, path: Seq<char>, value: Seq<char>, with_stats: bool) -> Seq<char> {
    if is_config_path(path) {
        message_json("No access to _config namespace from outside!"@)
    } else {
        get_attr_reply(db, path, value, with_stats, count_of(db, "_all"@, value))
    }
}

/// A read can be done: the `_all` namespace exists (the consensus is read
/// from it) and the shadow count can go up.
pub open spec fn can_read(db: DbView, path: Seq<char>, value: Seq<char>) -> bool {
    !is_config_path(path) ==> {
        &&& db.contains_key("_all"@)
        &&& can_write(db, shadow_path(path), value, 0, false)
    }
}

/// `new` is `old` after a read of `value` under `path`: nothing for a
/// `_config/` path; otherwise the consensus stored in the attribute read and
/// the outcome of a sighting now of the value under the shadow path.
pub open spec fn read_effect(old: DbView, new: DbView, path: Seq<char>, value: Seq<char>) -> bool {
    if is_config_path(path) {
        new == old
    } else {
        exists|ok: bool| #[trigger]
            write_outcome(
                get_attr_effect(old, path, value, count_of(old, "_all"@, value)),
                new,
                shadow_path(path),
                value,
                0,
                false,
                ok,
            )
    }
}

/// `new` is `old` after a read of `value` under `path` (not a `_config/`
/// one) that counted the search: the consensus stored in the attribute
/// read, and one sighting now, at a readable time, of the value under the
/// shadow path.
pub open spec fn read_counted(old: DbView, new: DbView, path: Seq<char>, value: Seq<char>) -> bool {
    write_outcome(
        get_attr_effect(old, path, value, count_of(old, "_all"@, value)),
        new,
        shadow_path(path),
        value,
        0,
        false,
        true,
    )
}

/// Exactly the paths that begin with the eight characters `_config/` are
/// refused: every other path, `_all` and the `_shadow/` paths among them,
/// is read.
pub proof fn lemma_config_paths(path: Seq<char>)
    ensures
        is_config_path(path) <==> (path.len() >= 8 && path[0] == '_' && path[1] == 'c' && path[2] == 'o'
            && path[3] == 'n' && path[4] == 'f' && path[5] == 'i' && path[6] == 'g' && path[7] == '/'),
        !is_config_path(shadow_path(path)),
        !is_config_path("_all"@),
{
    reveal_strlit("_config/");
    reveal_strlit("_shadow/");
    reveal_strlit("_all");
    let c = "_config/"@;
    if path.len() >= 8 && path[0] == '_' && path[1] == 'c' && path[2] == 'o' && path[3] == 'n'
        && path[4] == 'f' && path[5] == 'i' && path[6] == 'g' && path[7] == '/' {
        assert(path.subrange(0, 8) =~= c);
    }
    if is_config_path(path) {
        let h = path.subrange(0, 8);
        assert(h == c);
        assert(h[0] == path[0] && h[1] == path[1] && h[2] == path[2] && h[3] == path[3]);
        assert(h[4] == path[4] && h[5] == path[5] && h[6] == path[6] && h[7] == path[7]);
    }
    let sp = shadow_path(path);
    assert(sp[1] == 's');
    if is_config_path(sp) {
        assert(sp.subrange(0, 8)[1] == sp[1]);
    }
}

/// A read of a path other than a `_config/` one answers the attribute (or
/// the error) that `get_attr` answers, with the value's count under `_all`
/// as the consensus; in particular the count of searches of a value, under
/// `_shadow/` and a path, can be read.
pub proof fn lemma_read_answers_attribute(db: DbView, path: Seq<char>, value: Seq<char>, with_stats: bool)
    requires
        !is_config_path(path),
    ensures
        read_reply(db, path, value, with_stats) == get_attr_reply(db, path, value, with_stats, count_of(db, "_all"@, value)),
        read_reply(db, shadow_path(path), value, with_stats) == get_attr_reply(
            db,
            shadow_path(path),
            value,
            with_stats,
            count_of(db, "_all"@, value),
        ),
{
    lemma_config_paths(path);
}

/// A read that counted the search has one more search of the value under
/// the shadow of its path, and the value's count under the path itself as
/// it was.
pub proof fn lemma_read_counts_one_search(old: DbView, new: DbView, path: Seq<char>, value: Seq<char>)
    requires
        read_counted(old, new, path, value),
        can_read(old, path, value),
        !is_config_path(path),
    ensures
        count_of(new, shadow_path(path), value) == count_of(old, shadow_path(path), value) + 1,
        count_of(new, path, value) == count_of(old, path, value),
        lookup(new, shadow_path(path), value) is Some,
{
    let c = count_of(old, "_all"@, value);
    let mid = get_attr_effect(old, path, value, c);
    let sp = shadow_path(path);
    lemma_read_mid(old, path, value);
    lemma_shadow_differs(path);
    lemma_get_attr_keeps_counts(old, path, value, c, path, value);
    let now = choose|now: i64| crate::daemon::attribute::valid_now(now as int) && new == #[trigger] written(mid, sp, value, 0, false, now);
    lemma_write_counts_one_more(mid, sp, value, 0, false, now);
    lemma_write_leaves_others(mid, sp, value, 0, false, now, path, value);
}

/// The shadow of a path is another path.
pub proof fn lemma_shadow_differs(path: Seq<char>)
    ensures
        shadow_path(path) != path,
{
    assert(shadow_path(path).len() == 8 + path.len()) by {
        reveal_strlit("_shadow/");
    }
}

/// Storing the consensus in the attribute read leaves every count as it
/// was, so a read that could count its shadow sighting before still can.
proof fn lemma_read_mid(old: DbView, path: Seq<char>, value: Seq<char>)
    requires
        can_read(old, path, value),
        !is_config_path(path),
    ensures
        can_write(get_attr_effect(old, path, value, count_of(old, "_all"@, value)), shadow_path(path), value, 0, false),
        lookup(get_attr_effect(old, path, value, count_of(old, "_all"@, value)), shadow_path(path), value)
            == lookup(old, shadow_path(path), value),
{
    lemma_shadow_differs(path);
    lemma_get_attr_keeps_counts(old, path, value, count_of(old, "_all"@, value), shadow_path(path), value);
}

/// A read raises any count by at most one and keeps every path.
pub proof fn lemma_read_counts(old: DbView, new: DbView, path: Seq<char>, value: Seq<char>, p: Seq<char>, v: Seq<char>)
    requires
        read_effect(old, new, path, value),
        can_read(old, path, value),
    ensures
        count_of(new, p, v) <= count_of(old, p, v) + 1,
        keeps_paths(old, new),
{
    if !is_config_path(path) {
        let c = count_of(old, "_all"@, value);
        let mid = get_attr_effect(old, path, value, c);
        let ok = choose|ok: bool| #[trigger] write_outcome(mid, new, shadow_path(path), value, 0, false, ok);
        lemma_read_mid(old, path, value);
        lemma_get_attr_keeps_counts(old, path, value, c, p, v);
        lemma_write_outcome_counts(mid, new, shadow_path(path), value, 0, false, ok, p, v);
        assert forall|q: Seq<char>| #[trigger] old.contains_key(q) implies new.contains_key(q) by {
            assert(mid.contains_key(q));
        }
    }
}

/// A read counts one more search of the value under the shadow of its
/// path (unless the clock could not be read, and the shadow sighting was
/// not made), and leaves the value's count under the path itself as it was.
pub proof fn lemma_read_counts_search(old: DbView, new: DbView, path: Seq<char>, value: Seq<char>)
    requires
        read_effect(old, new, path, value),
        can_read(old, path, value),
        !is_config_path(path),
    ensures
        count_of(new, shadow_path(path), value) == count_of(old, shadow_path(path), value) + 1
            || new == get_attr_effect(old, path, value, count_of(old, "_all"@, value)),
        count_of(new, path, value) == count_of(old, path, value),
{
    let c = count_of(old, "_all"@, value);
    let mid = get_attr_effect(old, path, value, c);
    let sp = shadow_path(path);
    let ok = choose|ok: bool| #[trigger] write_outcome(mid, new, sp, value, 0, false, ok);
    lemma_read_mid(old, path, value);
    lemma_shadow_differs(path);
    lemma_get_attr_keeps_counts(old, path, value, c, path, value);
    if ok {
        let now = choose|now: i64| crate::daemon::attribute::valid_now(now as int) && new == #[trigger] written(mid, sp, value, 0, false, now);
        lemma_write_counts_one_more(mid, sp, value, 0, false, now);
        lemma_write_leaves_others(mid, sp, value, 0, false, now, path, value);
    }
}

/// Reads `value` under `path`: refuses `_config/` paths; otherwise answers
/// the attribute's JSON with the consensus (the value's count under `_all`)
/// and counts the read under `_shadow/` followed by the path.
pub fn read(db: &mut Database, path: &str, value: &str, with_stats: bool) -> (r: String)
    requires
        can_read(old(db)@, path@, value@),
    ensures
        r@ == read_reply(old(db)@, path@, value@, with_stats),
        read_effect(old(db)@, final(db)@, path@, value@),
        !is_config_path(path@) ==> read_counted(old(db)@, final(db)@, path@, value@),
        (!with_stats && !is_config_path(path@)) ==> (lookup(old(db)@, path@, value@) matches Some(a) ==> (
        stats_member_apart(a) ==> r@ == attribute_json_without_stats(
            (AttributeView { consensus: count_of(old(db)@, "_all"@, value@), ..a }),
        ))),
        final(db).db_path_view() == old(db).db_path_view(),
{
    if starts_with(path, "_config/") {
        let err = Message { message: "No access to _config namespace from outside!".to_owned() };
        return err.to_json();
    }
    let ghost old_db = db@;
    let consensus = db.get_count("_all", value);
    let attr = db.get_attr(path, value, with_stats, consensus);
    let ghost db_mid = db@;
    let mut shadow = "_shadow/".to_owned();
    push_str(&mut shadow, path);
    proof {
        lemma_read_mid(old_db, path@, value@);
    }
    let ok = db.write(shadow.as_str(), value, 0, false);
    assert(write_outcome(db_mid, db@, shadow_path(path@), value@, 0, false, ok));
    attr
}

} // verus!
