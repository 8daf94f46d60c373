//! The daemon's database: namespaces (paths) holding attributes by value.

use vstd::prelude::*;
use crate::daemon::attribute::{
    Attribute, AttributeView, MAX_TIMESTAMP, MIN_TIMESTAMP, attribute_accounted, attribute_debug, attribute_json,
    attribute_json_without_stats, lemma_stats_member_split, stats_member_apart,
    clock_now, fresh_attribute, lemma_accounted_add, lemma_accounted_room, lemma_fresh_accounted,
    lemma_dated_sightings_commute, live_sighted, sighted_at, valid_now,
};
use crate::daemon::stats::{add_sighting, hour_slot};
use crate::json::{json_str, push_json_str};
use crate::regex_calls::{regex_replace, regex_replace_first};
use crate::table::StrTable;
use crate::text::push_str;

verus! {

/// The contents of the database: for each path, its attributes by value.
pub type DbView = Map<Seq<char>, Map<Seq<char>, AttributeView>>;

/// The pattern that the daemon removes from an attribute's JSON when the
/// statistics are not asked for.
pub open spec fn stats_pattern() -> Seq<char> {
    "\\x22stats\\x22:\\{.+\\},"@
}

/// The attribute stored under `path` and `value`, if any.
pub open spec fn lookup(db: DbView, path: Seq<char>, value: Seq<char>) -> Option<AttributeView> {
    if db.contains_key(path) && db[path].contains_key(value) {
        Some(db[path][value])
    } else {
        None
    }
}

/// The attribute that a write to `path` and `value` starts from: the stored
/// one, or a fresh one for `value`.
pub open spec fn base_attribute(db: DbView, path: Seq<char>, value: Seq<char>) -> AttributeView {
    match lookup(db, path, value) {
        Some(a) => a,
        None => fresh_attribute(value),
    }
}

/// The database with `a` stored under `path` and `value`.
pub open spec fn put(db: DbView, path: Seq<char>, value: Seq<char>, a: AttributeView) -> DbView {
    let values = if db.contains_key(path) { db[path] } else { Map::empty() };
    db.insert(path, values.insert(value, a))
}

/// The attribute after a sighting dated `timestamp` or, when that is not
/// positive, a sighting at `now`, a reading of the clock.
pub open spec fn sight(a: AttributeView, timestamp: i64, now: i64) -> AttributeView {
    if timestamp > 0 {
        sighted_at(a, timestamp)
    } else {
        live_sighted(a, now)
    }
}

/// The database after one sighting of `value` under `path`.
pub open spec fn written_one(db: DbView, path: Seq<char>, value: Seq<char>, timestamp: i64, now: i64) -> DbView {
    put(db, path, value, sight(base_attribute(db, path, value), timestamp, now))
}

/// The database after a write of `value` under `path`: one sighting there
/// and, when consensus is written and the value is new to the path, one
/// sighting at `now` of the value under `_all`.
pub open spec fn written(
    db: DbView,
    path: Seq<char>,
    value: Seq<char>,
    timestamp: i64,
    write_consensus: bool,
    now: i64,
) -> DbView {
    let mid = written_one(db, path, value, timestamp, now);
    if write_consensus && lookup(db, path, value) is None {
        written_one(mid, "_all"@, value, 0, now)
    } else {
        mid
    }
}

/// A write reads the clock: its own sighting is not dated, or it writes the
/// consensus of a value new to the path.
pub open spec fn needs_clock(
    db: DbView,
    path: Seq<char>,
    value: Seq<char>,
    timestamp: i64,
    write_consensus: bool,
) -> bool {
    timestamp <= 0 || (write_consensus && lookup(db, path, value) is None)
}

/// What a write did: when it succeeded, the write at some readable time of
/// the clock; when it failed, nothing, and only where the clock was needed.
pub open spec fn write_outcome(
    old: DbView,
    new: DbView,
    path: Seq<char>,
    value: Seq<char>,
    timestamp: i64,
    write_consensus: bool,
    ok: bool,
) -> bool {
    if ok {
        exists|now: i64| valid_now(now as int) && new == #[trigger] written(old, path, value, timestamp, write_consensus, now)
    } else {
        new == old && needs_clock(old, path, value, timestamp, write_consensus)
    }
}

/// An attribute as the database keeps it: its statistics accounted for and
/// its times within chrono's range.
pub open spec fn stored_well(a: AttributeView) -> bool {
    &&& attribute_accounted(a)
    &&& MIN_TIMESTAMP <= a.first_seen <= MAX_TIMESTAMP
    &&& MIN_TIMESTAMP <= a.last_seen <= MAX_TIMESTAMP
}

/// Every attribute of the database is kept well.
pub open spec fn counts_consistent(db: DbView) -> bool {
    forall|p: Seq<char>, v: Seq<char>| #[trigger] lookup(db, p, v) is Some ==> stored_well(
        lookup(db, p, v)->0,
    )
}

/// A write can be done without overflow and with a date that chrono holds.
pub open spec fn can_write(
    db: DbView,
    path: Seq<char>,
    value: Seq<char>,
    timestamp: i64,
    write_consensus: bool,
) -> bool {
    &&& timestamp <= MAX_TIMESTAMP
    &&& count_of(db, path, value) < u128::MAX
    &&& (write_consensus && lookup(db, path, value) is None && path != "_all"@)
        ==> count_of(db, "_all"@, value) < u128::MAX
}

/// The count of `value` under `path`, zero when the path has no such value.
pub open spec fn count_of(db: DbView, path: Seq<char>, value: Seq<char>) -> u128 {
    match lookup(db, path, value) {
        Some(a) => a.count,
        None => 0,
    }
}

/// The attribute that a write starts from has the count `count_of`, and in
/// a consistent database its statistics are accounted for.
pub proof fn lemma_base(db: DbView, path: Seq<char>, value: Seq<char>)
    ensures
        base_attribute(db, path, value).count == count_of(db, path, value),
        counts_consistent(db) ==> stored_well(base_attribute(db, path, value)),
{
    if lookup(db, path, value) is None {
        lemma_fresh_accounted(value);
    }
}

/// Storing an attribute kept well keeps the database consistent.
pub proof fn lemma_put_consistent(db: DbView, path: Seq<char>, value: Seq<char>, a: AttributeView)
    requires
        counts_consistent(db),
        stored_well(a),
    ensures
        counts_consistent(put(db, path, value, a)),
{
    let n = put(db, path, value, a);
    assert forall|p: Seq<char>, v: Seq<char>| #[trigger] lookup(n, p, v) is Some implies stored_well(
        lookup(n, p, v)->0,
    ) by {
        if p != path || v != value {
            assert(lookup(n, p, v) == lookup(db, p, v));
        }
    }
}

/// After one sighting, the attribute under `path` and `value` is the
/// sighted one, its count one more, and no other attribute changed.
pub proof fn lemma_written_one(db: DbView, path: Seq<char>, value: Seq<char>, timestamp: i64, now: i64)
    requires
        count_of(db, path, value) < u128::MAX,
    ensures
        lookup(written_one(db, path, value, timestamp, now), path, value) == Some(
            sight(base_attribute(db, path, value), timestamp, now),
        ),
        count_of(written_one(db, path, value, timestamp, now), path, value) == count_of(db, path, value) + 1,
        forall|p: Seq<char>, v: Seq<char>| (p != path || v != value) ==> #[trigger] lookup(
            written_one(db, path, value, timestamp, now),
            p,
            v,
        ) == lookup(db, p, v),
        keeps_paths(db, written_one(db, path, value, timestamp, now)),
{
    lemma_base(db, path, value);
}

/// One sighting keeps a consistent database consistent.
pub proof fn lemma_written_one_consistent(db: DbView, path: Seq<char>, value: Seq<char>, timestamp: i64, now: i64)
    requires
        counts_consistent(db),
        count_of(db, path, value) < u128::MAX,
        timestamp > 0 ==> MIN_TIMESTAMP <= timestamp <= MAX_TIMESTAMP,
        timestamp <= 0 ==> valid_now(now as int),
    ensures
        counts_consistent(written_one(db, path, value, timestamp, now)),
{
    let a = base_attribute(db, path, value);
    lemma_base(db, path, value);
    let t = if timestamp > 0 { timestamp } else { now };
    lemma_accounted_add(a, t);
    lemma_put_consistent(db, path, value, sight(a, timestamp, now));
}

/// Every path of `old` is a path of `new`.
pub open spec fn keeps_paths(old: DbView, new: DbView) -> bool {
    forall|p: Seq<char>| #[trigger] old.contains_key(p) ==> new.contains_key(p)
}

/// The JSON of an error about `path` and `value`.
pub open spec fn db_error_json(error: Seq<char>, path: Seq<char>, value: Seq<char>) -> Seq<char> {
    "{\"error\":"@ + json_str(error) + ",\"path\":"@ + json_str(path) + ",\"value\":"@ + json_str(
        value,
    ) + "}"@
}

/// What the daemon answers for a stored attribute: its JSON, without the
/// statistics unless they are asked for.
pub open spec fn attribute_reply(a: AttributeView, with_stats: bool) -> Seq<char> {
    let json = attribute_json(a);
    if with_stats {
        json
    } else {
        match regex_replace_first(stats_pattern(), json, ""@) {
            Some(s) => s,
            None => json,
        }
    }
}

/// What `get_attr` answers.
pub open spec fn get_attr_reply(
    db: DbView,
    path: Seq<char>,
    value: Seq<char>,
    with_stats: bool,
    consensus: u128,
) -> Seq<char> {
    if !db.contains_key(path) {
        db_error_json("Path not found"@, path, value)
    } else if !db[path].contains_key(value) {
        db_error_json("Value not found"@, path, value)
    } else {
        attribute_reply(AttributeView { consensus, ..db[path][value] }, with_stats)
    }
}

/// The database after `get_attr`: the consensus is stored in the attribute
/// that was read.
pub open spec fn get_attr_effect(db: DbView, path: Seq<char>, value: Seq<char>, consensus: u128) -> DbView {
    match lookup(db, path, value) {
        Some(a) => put(db, path, value, AttributeView { consensus, ..a }),
        None => db,
    }
}

/// An error about a path and a value, as the daemon answers it.
pub struct DbError {
    error: String,
    path: String,
    value: String,
}

impl View for DbError {
    /// The message, the path and the value.
    type V = (Seq<char>, Seq<char>, Seq<char>);

    closed spec fn view(&self) -> (Seq<char>, Seq<char>, Seq<char>) {
        (self.error@, self.path@, self.value@)
    }
}

impl DbError {
    /// The error as a JSON object.
    pub fn to_json(&self) -> (j: String)
        ensures
            j@ == db_error_json(self@.0, self@.1, self@.2),
    {
        let mut out = String::new();
        push_str(&mut out, "{\"error\":");
        push_json_str(&mut out, self.error.as_str());
        push_str(&mut out, ",\"path\":");
        push_json_str(&mut out, self.path.as_str());
        push_str(&mut out, ",\"value\":");
        push_json_str(&mut out, self.value.as_str());
        push_str(&mut out, "}");
        assert(out@ =~= db_error_json(self.error@, self.path@, self.value@));
        out
    }
}

/// The view of one namespace.
pub open spec fn values_view(t: StrTable<Attribute>) -> Map<Seq<char>, AttributeView> {
    t@.map_values(|a: Attribute| a@)
}

/// The database.
pub struct Database {
    db_path: String,
    hashtable: StrTable<StrTable<Attribute>>,
}

impl Database {
    /// Every attribute has its hourly counts within its count.
    #[verifier::type_invariant]
    spec fn consistent(&self) -> bool {
        counts_consistent(self@)
    }
}

/// The contents of a table of namespaces.
pub open spec fn db_of(hashtable: StrTable<StrTable<Attribute>>) -> DbView {
    hashtable@.map_values(|t: StrTable<Attribute>| values_view(t))
}

impl View for Database {
    type V = DbView;

    closed spec fn view(&self) -> DbView {
        db_of(self.hashtable)
    }
}

impl Database {
    /// Where the database would be stored on disk.
    pub closed spec fn db_path_view(&self) -> Seq<char> {
        self.db_path@
    }

    /// An empty database with an empty storage path.
    pub fn new() -> (db: Database)
        ensures
            db@ == DbView::empty(),
            db.db_path_view() == Seq::<char>::empty(),
            counts_consistent(db@),
    {
        let db = Database { db_path: String::new(), hashtable: StrTable::new() };
        assert(db@ =~= DbView::empty());
        db
    }

    /// Sets where the database would be stored on disk.
    pub fn set_db_path(&mut self, path: String)
        ensures
            final(self)@ == old(self)@,
            final(self).db_path_view() == path@,
    {
        proof {
            use_type_invariant(&*self);
        }
        self.db_path = path;
    }

    /// Whether `value` is stored under `path`.
    pub fn holds(&self, path: &str, value: &str) -> (b: bool)
        ensures
            b == (lookup(self@, path@, value@) is Some),
    {
        match self.hashtable.get(path) {
            Some(values) => values.contains_key(value),
            None => false,
        }
    }

    /// The debugging text of the attribute stored under `path` and
    /// `value`, when there is one and it has a time to live.
    pub fn debug_text(&self, path: &str, value: &str) -> (r: Option<String>)
        ensures
            match lookup(self@, path@, value@) {
                Some(a) => if a.ttl > 0 {
                    r matches Some(t) && t@ == attribute_debug(a)
                } else {
                    r is None
                },
                None => r is None,
            },
    {
        proof {
            use_type_invariant(self);
            if lookup(self@, path@, value@) is Some {
                assert(stored_well(lookup(self@, path@, value@)->0));
            }
        }
        match self.hashtable.get(path) {
            Some(values) => match values.get(value) {
                Some(attr) => {
                    if attr.ttl > 0 {
                        Some(attr.debug_string())
                    } else {
                        None
                    }
                },
                None => None,
            },
            None => None,
        }
    }

    /// One sighting of `value` under `path`, in a table taken out of a
    /// database; tells whether the value was new to the path.
    fn write_in(
        hashtable: &mut StrTable<StrTable<Attribute>>,
        path: &str,
        value: &str,
        timestamp: i64,
        now: i64,
    ) -> (was_new: bool)
        requires
            counts_consistent(db_of(*old(hashtable))),
            count_of(db_of(*old(hashtable)), path@, value@) < u128::MAX,
            timestamp <= MAX_TIMESTAMP,
            timestamp <= 0 ==> valid_now(now as int),
        ensures
            db_of(*final(hashtable)) == written_one(db_of(*old(hashtable)), path@, value@, timestamp, now),
            was_new == (lookup(db_of(*old(hashtable)), path@, value@) is None),
    {
        let ghost old_db = db_of(*hashtable);
        proof {
            lemma_base(old_db, path@, value@);
        }
        let mut values = match hashtable.swap_out(path, StrTable::new()) {
            Some(t) => t,
            None => StrTable::new(),
        };
        assert(values_view(values) == if old_db.contains_key(path@) { old_db[path@] } else { Map::empty() });
        let (mut attr, was_new) = match values.swap_out(value, Attribute::new("")) {
            Some(a) => (a, false),
            None => (Attribute::new(value), true),
        };
        assert(attr@ == base_attribute(old_db, path@, value@));
        let ghost a = attr@;
        if timestamp > 0 {
            proof {
                lemma_accounted_room(a, hour_slot(timestamp));
            }
            attr.incr_from_timestamp(timestamp);
        } else {
            proof {
                lemma_accounted_room(a, hour_slot(now));
            }
            attr.incr_at(now);
        }
        let ghost b = attr@;
        values.insert(value.to_owned(), attr);
        hashtable.insert(path.to_owned(), values);
        assert(db_of(*hashtable) =~= put(old_db, path@, value@, b)) by {
            assert(values_view(values) =~= (if old_db.contains_key(path@) { old_db[path@] } else { Map::empty() }).insert(value@, b));
        }
        was_new
    }

    /// Records a sighting of `value` under `path`, dated `timestamp` or, when
    /// that is not positive, now. When `write_consensus` holds and the value
    /// is new to the path, the value is also sighted now under `_all`, which
    /// so counts the paths that hold it. The clock is read only when needed;
    /// the write always succeeds and answers `true`.
    pub fn write(&mut self, path: &str, value: &str, timestamp: i64, write_consensus: bool) -> (ok: bool)
        requires
            can_write(old(self)@, path@, value@, timestamp, write_consensus),
        ensures
            ok,
            write_outcome(old(self)@, final(self)@, path@, value@, timestamp, write_consensus, ok),
            !needs_clock(old(self)@, path@, value@, timestamp, write_consensus) ==> ok,
            final(self).db_path_view() == old(self).db_path_view(),
            counts_consistent(final(self)@),
    {
        proof {
            use_type_invariant(&*self);
        }
        let ghost old_db = self@;
        let is_new = !self.holds(path, value);
        let mut now: i64 = 0;
        if timestamp <= 0 || (write_consensus && is_new) {
            now = clock_now();
        }
        let mut hashtable = StrTable::new();
        std::mem::swap(&mut self.hashtable, &mut hashtable);
        proof {
            lemma_written_one_consistent(old_db, path@, value@, timestamp, now);
            lemma_written_one(old_db, path@, value@, timestamp, now);
        }
        let was_new = Self::write_in(&mut hashtable, path, value, timestamp, now);
        let ghost mid = db_of(hashtable);
        if write_consensus && was_new {
            proof {
                if path@ == "_all"@ {
                    assert(count_of(mid, "_all"@, value@) == 1);
                } else {
                    assert(lookup(mid, "_all"@, value@) == lookup(old_db, "_all"@, value@));
                }
                lemma_written_one_consistent(mid, "_all"@, value@, 0, now);
            }
            Self::write_in(&mut hashtable, "_all", value, 0, now);
        }
        assert(db_of(hashtable) == written(old_db, path@, value@, timestamp, write_consensus, now));
        std::mem::swap(&mut self.hashtable, &mut hashtable);
        true
    }

    /// Whether the database has a namespace `path`.
    pub fn contains_path(&self, path: &str) -> (b: bool)
        ensures
            b == self@.contains_key(path@),
    {
        self.hashtable.contains_key(path)
    }

    /// The count of `value` under `path`, which must exist.
    pub fn get_count(&mut self, path: &str, value: &str) -> (c: u128)
        requires
            old(self)@.contains_key(path@),
        ensures
            c == count_of(old(self)@, path@, value@),
            final(self)@ == old(self)@,
            final(self).db_path_view() == old(self).db_path_view(),
    {
        let values = self.hashtable.get(path).unwrap();
        match values.get(value) {
            Some(attr) => attr.count,
            None => 0,
        }
    }

    /// The JSON answer for `value` under `path`: an error when the path or
    /// the value is missing, otherwise the attribute, with `consensus` stored
    /// in it, and without its statistics unless `with_stats`.
    pub fn get_attr(&mut self, path: &str, value: &str, with_stats: bool, consensus: u128) -> (r: String)
        ensures
            r@ == get_attr_reply(old(self)@, path@, value@, with_stats, consensus),
            !with_stats ==> (lookup(old(self)@, path@, value@) matches Some(a) ==> (stats_member_apart(a)
                ==> r@ == attribute_json_without_stats((AttributeView { consensus, ..a })))),
            final(self)@ == get_attr_effect(old(self)@, path@, value@, consensus),
            final(self).db_path_view() == old(self).db_path_view(),
            counts_consistent(final(self)@),
    {
        proof {
            use_type_invariant(&*self);
        }
        let ghost old_db = self@;
        let path_error = DbError {
            error: "Path not found".to_owned(),
            path: path.to_owned(),
            value: value.to_owned(),
        };
        if !self.hashtable.contains_key(path) {
            return path_error.to_json();
        }
        let values = self.hashtable.get(path).unwrap();
        if !values.contains_key(value) {
            let value_error = DbError {
                error: "Value not found".to_owned(),
                path: path.to_owned(),
                value: value.to_owned(),
            };
            return value_error.to_json();
        }
        let mut hashtable = StrTable::new();
        std::mem::swap(&mut self.hashtable, &mut hashtable);
        let mut values = hashtable.swap_out(path, StrTable::new()).unwrap();
        let mut attr = values.swap_out(value, Attribute::new("")).unwrap();
        attr.set_consensus(consensus);
        let jattr = attr.to_json();
        let ghost a = attr@;
        values.insert(value.to_owned(), attr);
        hashtable.insert(path.to_owned(), values);
        assert(db_of(hashtable) =~= put(old_db, path@, value@, a)) by {
            assert(values_view(values) =~= old_db[path@].insert(value@, a));
        }
        proof {
            lemma_put_consistent(old_db, path@, value@, a);
        }
        std::mem::swap(&mut self.hashtable, &mut hashtable);
        if with_stats {
            return jattr;
        }
        proof {
            reveal_strlit("");
            if stats_member_apart(a) {
                lemma_stats_member_split(a);
            }
        }
        match regex_replace("\\x22stats\\x22:\\{.+\\},", jattr.as_str(), "") {
            Some(nostats) => nostats,
            None => jattr,
        }
    }
}


/// A write raises any count by at most two (one without consensus) and
/// keeps every path.
pub proof fn lemma_write_outcome_counts(
    old: DbView,
    new: DbView,
    path: Seq<char>,
    value: Seq<char>,
    timestamp: i64,
    write_consensus: bool,
    ok: bool,
    p: Seq<char>,
    v: Seq<char>,
)
    requires
        write_outcome(old, new, path, value, timestamp, write_consensus, ok),
        can_write(old, path, value, timestamp, write_consensus),
    ensures
        count_of(new, p, v) <= count_of(old, p, v) + 2,
        !write_consensus ==> count_of(new, p, v) <= count_of(old, p, v) + 1,
        keeps_paths(old, new),
{
    if ok {
        let now = choose|now: i64| valid_now(now as int) && new == #[trigger] written(old, path, value, timestamp, write_consensus, now);
        let mid = written_one(old, path, value, timestamp, now);
        lemma_written_one(old, path, value, timestamp, now);
        if write_consensus && lookup(old, path, value) is None {
            if path == "_all"@ {
                assert(count_of(mid, "_all"@, value) == 1);
            } else {
                assert(lookup(mid, "_all"@, value) == lookup(old, "_all"@, value));
            }
            lemma_written_one(mid, "_all"@, value, 0, now);
            assert(lookup(mid, p, v) == lookup(old, p, v) || (p == path && v == value));
            assert forall|q: Seq<char>| #[trigger] old.contains_key(q) implies new.contains_key(q) by {
                assert(mid.contains_key(q));
            }
        }
    }
}

/// Reading an attribute stores the consensus in it, changes no count and
/// keeps every path.
pub proof fn lemma_get_attr_keeps_counts(db: DbView, path: Seq<char>, value: Seq<char>, consensus: u128, p: Seq<char>, v: Seq<char>)
    ensures
        count_of(get_attr_effect(db, path, value, consensus), p, v) == count_of(db, p, v),
        lookup(db, path, value) is Some ==> (lookup(get_attr_effect(db, path, value, consensus), path, value)->0).consensus == consensus,
        (p != path || v != value) ==> lookup(get_attr_effect(db, path, value, consensus), p, v) == lookup(db, p, v),
        keeps_paths(db, get_attr_effect(db, path, value, consensus)),
{
}

/// Reading an attribute changes nothing but its stored consensus: a read
/// with the consensus it already holds (or of a missing attribute) leaves
/// the database as it was, and reading again with the same consensus
/// answers the same and changes nothing more.
pub proof fn lemma_get_attr_repeats(db: DbView, path: Seq<char>, value: Seq<char>, with_stats: bool, consensus: u128)
    ensures
        (lookup(db, path, value) matches Some(a) ==> a.consensus == consensus) ==> get_attr_effect(
            db,
            path,
            value,
            consensus,
        ) == db,
        get_attr_effect(get_attr_effect(db, path, value, consensus), path, value, consensus) == get_attr_effect(
            db,
            path,
            value,
            consensus,
        ),
        get_attr_reply(get_attr_effect(db, path, value, consensus), path, value, with_stats, consensus)
            == get_attr_reply(db, path, value, with_stats, consensus),
{
    let n = get_attr_effect(db, path, value, consensus);
    if let Some(a) = lookup(db, path, value) {
        if a.consensus == consensus {
            assert(AttributeView { consensus, ..a } == a);
            assert(db[path].insert(value, a) =~= db[path]);
            assert(n =~= db);
        }
        let b = AttributeView { consensus, ..a };
        assert(lookup(n, path, value) == Some(b));
        assert(AttributeView { consensus, ..b } == b);
        assert(n[path].insert(value, b) =~= n[path]);
        assert(get_attr_effect(n, path, value, consensus) =~= n);
        assert(n.contains_key(path) && n[path].contains_key(value));
    }
}

/// A write counts one more sighting of the value under its path (unless it
/// writes the consensus of a value new to `_all` itself, which counts it
/// twice there).
pub proof fn lemma_write_counts_one_more(
    old: DbView,
    path: Seq<char>,
    value: Seq<char>,
    timestamp: i64,
    write_consensus: bool,
    now: i64,
)
    requires
        can_write(old, path, value, timestamp, write_consensus),
        !(write_consensus && path == "_all"@ && lookup(old, path, value) is None),
    ensures
        lookup(written(old, path, value, timestamp, write_consensus, now), path, value) is Some,
        count_of(written(old, path, value, timestamp, write_consensus, now), path, value) == count_of(old, path, value) + 1,
{
    let mid = written_one(old, path, value, timestamp, now);
    lemma_written_one(old, path, value, timestamp, now);
    if write_consensus && lookup(old, path, value) is None {
        assert(lookup(mid, "_all"@, value) == lookup(old, "_all"@, value));
        lemma_written_one(mid, "_all"@, value, 0, now);
    }
}

/// The consensus of a value, its count under `_all`, goes up by one exactly
/// when a write with consensus brings the value to a path that did not hold
/// it; a write elsewhere than under `_all` leaves it otherwise unchanged.
pub proof fn lemma_write_consensus(
    old: DbView,
    path: Seq<char>,
    value: Seq<char>,
    timestamp: i64,
    write_consensus: bool,
    now: i64,
)
    requires
        can_write(old, path, value, timestamp, write_consensus),
        path != "_all"@,
    ensures
        count_of(written(old, path, value, timestamp, write_consensus, now), "_all"@, value) == count_of(old, "_all"@, value)
            + if write_consensus && lookup(old, path, value) is None {
            1int
        } else {
            0int
        },
{
    let mid = written_one(old, path, value, timestamp, now);
    lemma_written_one(old, path, value, timestamp, now);
    assert(lookup(mid, "_all"@, value) == lookup(old, "_all"@, value));
    if write_consensus && lookup(old, path, value) is None {
        lemma_written_one(mid, "_all"@, value, 0, now);
    }
}

/// A write touches no attribute but the written one and, for the
/// consensus, the value's attribute under `_all`.
pub proof fn lemma_write_leaves_others(
    old: DbView,
    path: Seq<char>,
    value: Seq<char>,
    timestamp: i64,
    write_consensus: bool,
    now: i64,
    p: Seq<char>,
    v: Seq<char>,
)
    requires
        can_write(old, path, value, timestamp, write_consensus),
        p != path || v != value,
        write_consensus ==> (p != "_all"@ || v != value),
    ensures
        lookup(written(old, path, value, timestamp, write_consensus, now), p, v) == lookup(old, p, v),
{
    let mid = written_one(old, path, value, timestamp, now);
    lemma_written_one(old, path, value, timestamp, now);
    if write_consensus && lookup(old, path, value) is None {
        if path == "_all"@ {
            assert(count_of(mid, "_all"@, value) == 1);
        } else {
            assert(lookup(mid, "_all"@, value) == lookup(old, "_all"@, value));
        }
        lemma_written_one(mid, "_all"@, value, 0, now);
    }
}

/// A dated write (no consensus to a value new to `_all` itself) leaves the
/// attribute first seen no later and last seen no earlier than its date,
/// with one more sighting in the date's hour.
pub proof fn lemma_dated_write(
    old: DbView,
    path: Seq<char>,
    value: Seq<char>,
    timestamp: i64,
    write_consensus: bool,
    now: i64,
)
    requires
        can_write(old, path, value, timestamp, write_consensus),
        timestamp > 0,
        !(write_consensus && path == "_all"@ && lookup(old, path, value) is None),
    ensures
        lookup(written(old, path, value, timestamp, write_consensus, now), path, value) == Some(
            sighted_at(base_attribute(old, path, value), timestamp),
        ),
        ({
            let a = lookup(written(old, path, value, timestamp, write_consensus, now), path, value)->0;
            &&& a.first_seen <= timestamp <= a.last_seen
            &&& a.stats == add_sighting(base_attribute(old, path, value).stats, hour_slot(timestamp))
        }),
{
    let mid = written_one(old, path, value, timestamp, now);
    lemma_written_one(old, path, value, timestamp, now);
    if write_consensus && lookup(old, path, value) is None {
        assert(lookup(mid, "_all"@, value) == lookup(old, "_all"@, value));
        lemma_written_one(mid, "_all"@, value, 0, now);
    }
}

/// Two dated writes of a value under a path leave its attribute the same
/// in either order (a consensus write of a value new to `_all` itself
/// aside, which counts twice there).
pub proof fn lemma_dated_writes_commute(
    db: DbView,
    path: Seq<char>,
    value: Seq<char>,
    t1: i64,
    t2: i64,
    write_consensus: bool,
    now1: i64,
    now2: i64,
    now3: i64,
    now4: i64,
)
    requires
        0 < t1,
        0 < t2,
        can_write(db, path, value, t1, write_consensus),
        can_write(db, path, value, t2, write_consensus),
        count_of(db, path, value) < u128::MAX - 1,
        !(write_consensus && path == "_all"@),
    ensures
        lookup(
            written(written(db, path, value, t1, write_consensus, now1), path, value, t2, write_consensus, now2),
            path,
            value,
        ) == lookup(
            written(written(db, path, value, t2, write_consensus, now3), path, value, t1, write_consensus, now4),
            path,
            value,
        ),
{
    let a = base_attribute(db, path, value);
    let m1 = written(db, path, value, t1, write_consensus, now1);
    let m2 = written(db, path, value, t2, write_consensus, now3);
    lemma_dated_write(db, path, value, t1, write_consensus, now1);
    lemma_dated_write(db, path, value, t2, write_consensus, now3);
    lemma_write_counts_one_more(db, path, value, t1, write_consensus, now1);
    lemma_write_counts_one_more(db, path, value, t2, write_consensus, now3);
    lemma_dated_write(m1, path, value, t2, write_consensus, now2);
    lemma_dated_write(m2, path, value, t1, write_consensus, now4);
    lemma_dated_sightings_commute(a, t1, t2);
}

} // verus!
