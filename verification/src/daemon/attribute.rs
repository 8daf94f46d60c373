//! An attribute of the daemon: a value seen under a namespace, with the
//! times it was first and last seen, its count, its hourly statistics and
//! its consensus.
//!
//! Times are whole seconds since the Unix epoch (UTC), which is what the
//! daemon keeps of a `chrono::DateTime<Utc>` and what it writes in JSON.

use vstd::prelude::*;
use std::collections::BTreeMap;
use crate::daemon::stats::{
    add_sighting, earliest_time, hour_of, hour_slot, lemma_add_sighting_total,
    entries_json, lemma_empty_stats_total, lemma_entries_plain, lemma_sorted_listing_exists,
    push_stats_json, slot_has_room, sorted_listing, stats_json, stats_total,
};
use crate::json::{json_str, lemma_escape_no_brace, push_json_str};
use crate::regex_calls::{occurs_at, stats_member_split};
use crate::text::{dec_int, dec_nat, push_i64, push_str, push_u128};

verus! {

broadcast use vstd::std_specs::btree::group_btree_axioms;

/// The earliest second that `chrono` can turn into a date (the first second
/// of the year -262144).
pub const MIN_TIMESTAMP: i64 = -8334632851200i64;

/// The latest second that `chrono` can turn into a date (the last second of
/// the year 262143).
pub const MAX_TIMESTAMP: i64 = 8210298412799i64;

/// A time of the system clock, `std::time::SystemTime`: opaque here.
#[verifier::external_type_specification]
#[verifier::external_body]
pub struct ExSystemTime(std::time::SystemTime);

/// Reads the system clock: `std::time::SystemTime::now()`. Nothing is
/// promised of the time it gives.
#[verifier::external_body]
fn system_now() -> std::time::SystemTime {
    std::time::SystemTime::now()
}

/// The whole seconds from the Unix epoch to `t`:
/// `t.duration_since(UNIX_EPOCH)` then `Duration::as_secs`, or `None` when
/// `t` is before the epoch. Nothing is promised of the value, which depends
/// on a time that the library cannot see into.
#[verifier::external_body]
fn seconds_since_epoch(t: &std::time::SystemTime) -> Option<u64> {
    t.duration_since(std::time::UNIX_EPOCH).ok().map(|d| d.as_secs())
}

/// A time of day read from the system clock, that chrono can hold.
pub open spec fn valid_now(now: int) -> bool {
    0 <= now <= MAX_TIMESTAMP
}

/// The time the daemon takes from a reading of the clock, given as whole
/// seconds since the epoch (`None` for a time before it): those seconds
/// when chrono can hold them, otherwise none.
pub open spec fn clock_timestamp(secs: Option<u64>) -> Option<i64> {
    match secs {
        Some(s) => if s <= MAX_TIMESTAMP {
            Some(s as i64)
        } else {
            None
        },
        None => None,
    }
}

/// The time taken from a reading of the clock, given as whole seconds since
/// the epoch.
pub fn timestamp_from_clock(secs: Option<u64>) -> (t: Option<i64>)
    ensures
        t == clock_timestamp(secs),
        t matches Some(s) ==> valid_now(s as int),
{
    match secs {
        Some(s) => {
            if s <= 8210298412799u64 {
                Some(s as i64)
            } else {
                None
            }
        },
        None => None,
    }
}

/// The time of a live sighting, given a reading of the clock as whole
/// seconds since the epoch: those seconds when chrono can hold them; a clock
/// set before the epoch counts as the epoch itself, one beyond chrono's
/// range as its last second.
pub open spec fn live_timestamp(secs: Option<u64>) -> i64 {
    match secs {
        Some(s) => if s <= MAX_TIMESTAMP {
            s as i64
        } else {
            MAX_TIMESTAMP
        },
        None => 0,
    }
}

/// The time of a live sighting, given a reading of the clock.
pub fn live_time(secs: Option<u64>) -> (t: i64)
    ensures
        t == live_timestamp(secs),
        valid_now(t as int),
        clock_timestamp(secs) matches Some(c) ==> t == c,
{
    match timestamp_from_clock(secs) {
        Some(c) => c,
        None => match secs {
            Some(_) => 8210298412799i64,
            None => 0,
        },
    }
}

/// The current time in seconds since the epoch, as a live sighting takes
/// it (see `live_timestamp`).
pub(crate) fn clock_now() -> (t: i64)
    ensures
        valid_now(t as int),
{
    let now = system_now();
    live_time(seconds_since_epoch(&now))
}

/// The `Debug` text that chrono writes for the UTC date and time `t`
/// seconds after the epoch.
pub uninterp spec fn utc_debug_text(t: int) -> Seq<char>;

/// The `Debug` text that Rust writes for a string: quoted, with escapes.
pub uninterp spec fn str_debug_text(s: Seq<char>) -> Seq<char>;

/// `format!("{:?}", Utc.timestamp(t, 0))`: chrono's `Debug` text of the
/// date and time `t` seconds after the epoch, in UTC (such as
/// `2019-08-24T05:30:58Z`). `Utc.timestamp` panics outside chrono's range,
/// which `requires` rules out.
#[verifier::external_body]
fn utc_debug(t: i64) -> (r: String)
    requires
        MIN_TIMESTAMP <= t <= MAX_TIMESTAMP,
    ensures
        r@ == utc_debug_text(t as int),
{
    format!("{:?}", chrono::TimeZone::timestamp(&chrono::Utc, t, 0))
}

/// `format!("{:?}", s)`: the `Debug` text of a string.
#[verifier::external_body]
fn str_debug(s: &str) -> (r: String)
    ensures
        r@ == str_debug_text(s@),
{
    format!("{:?}", s)
}

/// An attribute: a value and what is known of its sightings.
pub struct Attribute {
    pub value: String,
    pub first_seen: i64,
    pub last_seen: i64,
    pub count: u128,
    pub tags: String,
    pub ttl: u128,
    pub stats: BTreeMap<i64, u128>,
    pub consensus: u128,
}

/// What an attribute holds, as mathematical values.
pub struct AttributeView {
    pub value: Seq<char>,
    pub first_seen: i64,
    pub last_seen: i64,
    pub count: u128,
    pub tags: Seq<char>,
    pub ttl: u128,
    pub stats: Map<i64, u128>,
    pub consensus: u128,
}

impl View for Attribute {
    type V = AttributeView;

    open spec fn view(&self) -> AttributeView {
        AttributeView {
            value: self.value@,
            first_seen: self.first_seen,
            last_seen: self.last_seen,
            count: self.count,
            tags: self.tags@,
            ttl: self.ttl,
            stats: self.stats@,
            consensus: self.consensus,
        }
    }
}

/// A fresh attribute for `value`: never seen, epoch times, empty statistics.
pub open spec fn fresh_attribute(value: Seq<char>) -> AttributeView {
    AttributeView {
        value,
        first_seen: 0,
        last_seen: 0,
        count: 0,
        tags: Seq::empty(),
        ttl: 0,
        stats: Map::empty(),
        consensus: 0,
    }
}

/// The attribute after a sighting dated `t`: the first time moves back to
/// `t` when it was unset (zero) or later, the last time moves up to `t`
/// when it was earlier, the hour of `t` and the count go up by one.
pub open spec fn sighted_at(a: AttributeView, t: i64) -> AttributeView {
    AttributeView {
        first_seen: if a.first_seen == 0 || t < a.first_seen { t } else { a.first_seen },
        last_seen: if t > a.last_seen { t } else { a.last_seen },
        count: (a.count + 1) as u128,
        stats: add_sighting(a.stats, hour_slot(t)),
        ..a
    }
}

/// The attribute after a sighting now, at `now`: the first time is set
/// when it was unset, the last time becomes `now`, the hour of `now` and the
/// count go up by one.
pub open spec fn live_sighted(a: AttributeView, now: i64) -> AttributeView {
    AttributeView {
        first_seen: if a.first_seen == 0 { now } else { a.first_seen },
        last_seen: now,
        count: (a.count + 1) as u128,
        stats: add_sighting(a.stats, hour_slot(now)),
        ..a
    }
}

/// The statistics of `a` account for its sightings: finitely many hours,
/// each starting on a multiple of 3600 seconds and counting at least one and
/// at most all sightings, no more hours than sightings, and counts adding up
/// to the count.
pub open spec fn attribute_accounted(a: AttributeView) -> bool {
    &&& a.stats.dom().finite()
    &&& stats_total(a.stats) == a.count
    &&& a.stats.dom().len() <= a.count
    &&& forall|h: i64| #[trigger] a.stats.contains_key(h) ==> h % 3600 == 0 && 1 <= a.stats[h] <= a.count
}

/// An accounted attribute with room in its count has room in every hour.
pub proof fn lemma_accounted_room(a: AttributeView, h: i64)
    requires
        attribute_accounted(a),
        a.count < u128::MAX,
    ensures
        slot_has_room(a.stats, h),
{
    if a.stats.contains_key(h) {
        assert(a.stats[h] <= a.count);
    }
}

/// One more sighting in the hour of `t` keeps an attribute accounted.
pub proof fn lemma_accounted_add(a: AttributeView, t: i64)
    requires
        attribute_accounted(a),
        a.count < u128::MAX,
        t >= earliest_time(),
    ensures
        attribute_accounted(AttributeView {
            count: (a.count + 1) as u128,
            stats: add_sighting(a.stats, hour_slot(t)),
            ..a
        }),
{
    let h = hour_slot(t);
    lemma_accounted_room(a, h);
    lemma_add_sighting_total(a.stats, h);
    let n = add_sighting(a.stats, h);
    if a.stats.contains_key(h) {
        assert(n.dom() =~= a.stats.dom());
    } else {
        assert(n.dom() =~= a.stats.dom().insert(h));
    }
    assert forall|k: i64| #[trigger] n.contains_key(k) implies k % 3600 == 0 && 1 <= n[k] <= a.count + 1 by {
        if k != h {
            assert(a.stats.contains_key(k));
        }
    }
}

/// A fresh attribute is accounted.
pub proof fn lemma_fresh_accounted(value: Seq<char>)
    ensures
        attribute_accounted(fresh_attribute(value)),
{
    lemma_empty_stats_total();
}

/// The attribute of `value` after sightings dated `ts`, in that order.
pub open spec fn dated_history(value: Seq<char>, ts: Seq<i64>) -> AttributeView
    decreases ts.len(),
{
    if ts.len() == 0 {
        fresh_attribute(value)
    } else {
        sighted_at(dated_history(value, ts.drop_last()), ts.last())
    }
}

/// The earliest of the times `ts`.
pub open spec fn earliest_of(ts: Seq<i64>) -> i64
    decreases ts.len(),
{
    if ts.len() <= 1 {
        ts[0]
    } else if ts.last() < earliest_of(ts.drop_last()) {
        ts.last()
    } else {
        earliest_of(ts.drop_last())
    }
}

/// The latest of the times `ts`.
pub open spec fn latest_of(ts: Seq<i64>) -> i64
    decreases ts.len(),
{
    if ts.len() <= 1 {
        ts[0]
    } else if ts.last() > latest_of(ts.drop_last()) {
        ts.last()
    } else {
        latest_of(ts.drop_last())
    }
}

/// How many of the times `ts` fall in the hour starting at `h`.
pub open spec fn hour_count(ts: Seq<i64>, h: i64) -> nat
    decreases ts.len(),
{
    if ts.len() == 0 {
        0
    } else {
        hour_count(ts.drop_last(), h) + if hour_slot(ts.last()) == h {
            1nat
        } else {
            0nat
        }
    }
}

/// Sightings dated after the epoch, one after the other, leave the
/// attribute with as many sightings as dates, first seen at the earliest
/// date and last seen at the latest, and for each hour exactly the number
/// of dates that fall in it (no entry for an hour without one); its value,
/// tags, time to live and consensus stay those of a fresh attribute, and
/// its statistics stay accounted for.
pub proof fn lemma_dated_history(value: Seq<char>, ts: Seq<i64>)
    requires
        ts.len() < u128::MAX,
        forall|i: int| 0 <= i < ts.len() ==> 0 < #[trigger] ts[i] <= MAX_TIMESTAMP,
    ensures
        ({
            let a = dated_history(value, ts);
            &&& a.count == ts.len()
            &&& ts.len() > 0 ==> a.first_seen == earliest_of(ts) && a.last_seen == latest_of(ts)
            &&& forall|h: i64| #[trigger] a.stats.contains_key(h) <==> hour_count(ts, h) > 0
            &&& forall|h: i64| #[trigger] a.stats.contains_key(h) ==> a.stats[h] == hour_count(ts, h)
            &&& a.value == value && a.tags == Seq::<char>::empty() && a.ttl == 0 && a.consensus == 0
            &&& attribute_accounted(a)
        }),
    decreases ts.len(),
{
    if ts.len() == 0 {
        lemma_fresh_accounted(value);
    } else {
        let rest = ts.drop_last();
        assert forall|i: int| 0 <= i < rest.len() implies 0 < #[trigger] rest[i] <= MAX_TIMESTAMP by {
            assert(rest[i] == ts[i]);
        }
        lemma_dated_history(value, rest);
        let b = dated_history(value, rest);
        let t = ts.last();
        assert(0 < ts[ts.len() - 1] <= MAX_TIMESTAMP);
        lemma_accounted_add(b, t);
        if rest.len() == 0 {
            assert(b.first_seen == 0);
        }
    }
}

/// Two sightings dated after the epoch give the same attribute in either
/// order.
pub proof fn lemma_dated_sightings_commute(a: AttributeView, t1: i64, t2: i64)
    requires
        0 < t1,
        0 < t2,
    ensures
        sighted_at(sighted_at(a, t1), t2) == sighted_at(sighted_at(a, t2), t1),
{
    let h1 = hour_slot(t1);
    let h2 = hour_slot(t2);
    assert(add_sighting(add_sighting(a.stats, h1), h2) =~= add_sighting(add_sighting(a.stats, h2), h1));
}

/// The attribute with one more sighting counted in the hour of `t`, and
/// nothing else changed; what `make_stats` and `make_stats_from_timestamp`
/// both do.
pub open spec fn counted_in_hour(a: AttributeView, t: i64) -> AttributeView {
    AttributeView { stats: add_sighting(a.stats, hour_slot(t)), ..a }
}

/// Counting in the hour of a time touches only the statistics, where the
/// hour's count goes up by one and every other hour stays.
pub proof fn lemma_counted_in_hour(a: AttributeView, t: i64, h: i64)
    ensures
        ({
            let b = counted_in_hour(a, t);
            &&& b.value == a.value && b.first_seen == a.first_seen && b.last_seen == a.last_seen
            &&& b.count == a.count && b.tags == a.tags && b.ttl == a.ttl && b.consensus == a.consensus
            &&& b.stats.contains_key(hour_slot(t))
            &&& b.stats[hour_slot(t)] == (if a.stats.contains_key(hour_slot(t)) { a.stats[hour_slot(t)] + 1 } else { 1 }) as u128
            &&& h != hour_slot(t) ==> b.stats.contains_key(h) == a.stats.contains_key(h) && b.stats[h] == a.stats[h]
        }),
{
}

/// One more sighting in any hour can be counted without overflow.
pub open spec fn can_count(a: AttributeView) -> bool {
    &&& a.count < u128::MAX
    &&& forall|h: i64| #[trigger] slot_has_room(a.stats, h)
}

/// The JSON object of an attribute, fields in declaration order (the tags
/// under the key `tag`), times as seconds.
pub open spec fn attribute_json(a: AttributeView) -> Seq<char> {
    "{\"value\":"@ + json_str(a.value) + ",\"first_seen\":"@ + dec_int(a.first_seen as int)
        + ",\"last_seen\":"@ + dec_int(a.last_seen as int) + ",\"count\":"@ + dec_nat(
        a.count as nat,
    ) + ",\"tag\":"@ + json_str(a.tags) + ",\"ttl\":"@ + dec_nat(a.ttl as nat) + ",\"stats\":"@
        + stats_json(a.stats) + ",\"consensus\":"@ + dec_nat(a.consensus as nat) + "}"@
}

/// The JSON object of an attribute without its statistics member: what the
/// daemon answers when the statistics are not asked for.
pub open spec fn attribute_json_without_stats(a: AttributeView) -> Seq<char> {
    "{\"value\":"@ + json_str(a.value) + ",\"first_seen\":"@ + dec_int(a.first_seen as int)
        + ",\"last_seen\":"@ + dec_int(a.last_seen as int) + ",\"count\":"@ + dec_nat(
        a.count as nat,
    ) + ",\"tag\":"@ + json_str(a.tags) + ",\"ttl\":"@ + dec_nat(a.ttl as nat) + ",\"consensus\":"@
        + dec_nat(a.consensus as nat) + "}"@
}

/// The attribute's statistics member can be told apart in its JSON: some
/// hour was counted, and neither the value nor the tags hold a `{`.
pub open spec fn stats_member_apart(a: AttributeView) -> bool {
    &&& a.stats.dom().finite()
    &&& a.stats.dom().len() > 0
    &&& !a.value.contains('{')
    &&& !a.tags.contains('{')
}

/// The attribute's JSON up to its statistics member.
pub open spec fn json_head(a: AttributeView) -> Seq<char> {
    "{\"value\":"@ + json_str(a.value) + ",\"first_seen\":"@ + dec_int(a.first_seen as int)
        + ",\"last_seen\":"@ + dec_int(a.last_seen as int) + ",\"count\":"@ + dec_nat(
        a.count as nat,
    ) + ",\"tag\":"@ + json_str(a.tags) + ",\"ttl\":"@ + dec_nat(a.ttl as nat) + ","@
}

/// The attribute's JSON after its statistics member.
pub open spec fn json_tail(a: AttributeView) -> Seq<char> {
    "\"consensus\":"@ + dec_nat(a.consensus as nat) + "}"@
}

/// Neither `s` nor `t` holds `c`, so their concatenation does not.
proof fn lemma_concat_lacks(s: Seq<char>, t: Seq<char>, c: char)
    requires
        !s.contains(c),
        !t.contains(c),
    ensures
        !(s + t).contains(c),
{
    assert forall|i: int| 0 <= i < (s + t).len() implies (s + t)[i] != c by {
        if i < s.len() {
            assert((s + t)[i] == s[i]);
        } else {
            assert((s + t)[i] == t[i - s.len()]);
        }
    }
}

/// A decimal form holds no brace.
proof fn lemma_dec_lacks_brace(i: int)
    ensures
        !dec_int(i).contains('{'),
        i >= 0 ==> !dec_nat(i as nat).contains('{'),
        i >= 0 ==> !dec_nat(i as nat).contains('}'),
{
    crate::text::lemma_dec_int_chars(i);
    if i >= 0 {
        crate::text::lemma_dec_nat_digits(i as nat);
        assert(dec_int(i) == dec_nat(i as nat));
    }
}

/// The attribute's JSON is its head, the statistics object and its tail.
proof fn lemma_json_shape(a: AttributeView)
    ensures
        attribute_json(a) == json_head(a) + "\"stats\":{"@ + entries_json(sorted_listing(a.stats)) + "},"@
            + json_tail(a),
        json_head(a) + json_tail(a) == attribute_json_without_stats(a),
{
    reveal_strlit(",\"stats\":");
    reveal_strlit(",\"consensus\":");
    reveal_strlit("\"consensus\":");
    reveal_strlit("\"stats\":{");
    reveal_strlit("},");
    reveal_strlit(",");
    let y = entries_json(sorted_listing(a.stats));
    assert(stats_json(a.stats) == seq!['{'] + y + seq!['}']);
    assert(attribute_json(a) =~= json_head(a) + "\"stats\":{"@ + y + "},"@ + json_tail(a));
    assert(json_head(a) + json_tail(a) =~= attribute_json_without_stats(a));
}

/// The tail holds no `},`: its only `}` is its last character.
proof fn lemma_tail_lacks_close(a: AttributeView)
    ensures
        forall|i: int| !occurs_at(json_tail(a), i, "},"@),
{
    reveal_strlit("\"consensus\":");
    reveal_strlit("},");
    reveal_strlit("}");
    let tail = json_tail(a);
    lemma_dec_lacks_brace(a.consensus as int);
    let d = dec_nat(a.consensus as nat);
    assert forall|i: int| !occurs_at(tail, i, "},"@) by {
        if occurs_at(tail, i, "},"@) {
            assert(tail.subrange(i, i + 2)[0] == tail[i]);
            assert(tail.subrange(i, i + 2)[1] == tail[i + 1]);
            assert(tail[i] == '}');
            if i < 12 {
                assert(tail[i] == "\"consensus\":"@[i]);
            } else if i < 12 + d.len() {
                assert(tail[i] == d[i - 12]);
                assert(d.contains('}'));
            }
        }
    }
}

/// Past its first character, the head holds no `{`.
proof fn lemma_head_lacks_brace(a: AttributeView)
    requires
        !a.value.contains('{'),
        !a.tags.contains('{'),
    ensures
        json_head(a)[0] == '{',
        forall|j: int| 1 <= j < json_head(a).len() ==> json_head(a)[j] != '{',
{
    reveal_strlit("{\"value\":");
    reveal_strlit("\"value\":");
    reveal_strlit(",\"first_seen\":");
    reveal_strlit(",\"last_seen\":");
    reveal_strlit(",\"count\":");
    reveal_strlit(",\"tag\":");
    reveal_strlit(",\"ttl\":");
    reveal_strlit(",");
    lemma_escape_no_brace(a.value);
    lemma_escape_no_brace(a.tags);
    lemma_dec_lacks_brace(a.first_seen as int);
    lemma_dec_lacks_brace(a.last_seen as int);
    lemma_dec_lacks_brace(a.count as int);
    lemma_dec_lacks_brace(a.ttl as int);
    let r1 = "\"value\":"@ + json_str(a.value);
    lemma_concat_lacks("\"value\":"@, json_str(a.value), '{');
    let r2 = r1 + ",\"first_seen\":"@;
    lemma_concat_lacks(r1, ",\"first_seen\":"@, '{');
    let r3 = r2 + dec_int(a.first_seen as int);
    lemma_concat_lacks(r2, dec_int(a.first_seen as int), '{');
    let r4 = r3 + ",\"last_seen\":"@;
    lemma_concat_lacks(r3, ",\"last_seen\":"@, '{');
    let r5 = r4 + dec_int(a.last_seen as int);
    lemma_concat_lacks(r4, dec_int(a.last_seen as int), '{');
    let r6 = r5 + ",\"count\":"@;
    lemma_concat_lacks(r5, ",\"count\":"@, '{');
    let r7 = r6 + dec_nat(a.count as nat);
    lemma_concat_lacks(r6, dec_nat(a.count as nat), '{');
    let r8 = r7 + ",\"tag\":"@;
    lemma_concat_lacks(r7, ",\"tag\":"@, '{');
    let r9 = r8 + json_str(a.tags);
    lemma_concat_lacks(r8, json_str(a.tags), '{');
    let r10 = r9 + ",\"ttl\":"@;
    lemma_concat_lacks(r9, ",\"ttl\":"@, '{');
    let r11 = r10 + dec_nat(a.ttl as nat);
    lemma_concat_lacks(r10, dec_nat(a.ttl as nat), '{');
    let rest = r11 + ","@;
    lemma_concat_lacks(r11, ","@, '{');
    let head = json_head(a);
    assert(head =~= seq!['{'] + rest);
    assert forall|j: int| 1 <= j < head.len() implies head[j] != '{' by {
        assert(head[j] == rest[j - 1]);
    }
}

/// `"stats":{` starts nowhere in `head + "stats":{ + rest` before its place,
/// when the head holds a `{` only first.
proof fn lemma_no_earlier_member(head: Seq<char>, rest: Seq<char>)
    requires
        forall|j: int| 1 <= j < head.len() ==> head[j] != '{',
    ensures
        forall|i: int| 0 <= i < head.len() ==> !occurs_at(head + "\"stats\":{"@ + rest, i, "\"stats\":{"@),
{
    reveal_strlit("\"stats\":{");
    let open = "\"stats\":{"@;
    let t1 = head + open;
    let text = t1 + rest;
    assert forall|i: int| 0 <= i < head.len() implies !occurs_at(text, i, open) by {
        if occurs_at(text, i, open) {
            assert(text.subrange(i, i + 9)[8] == text[i + 8]);
            assert(text[i + 8] == t1[i + 8]);
            if i + 8 < head.len() {
                assert(t1[i + 8] == head[i + 8]);
            } else {
                assert(t1[i + 8] == open[i + 8 - head.len()]);
            }
        }
    }
}

/// The attribute's JSON is its head, the statistics member and its tail, as
/// the daemon's pattern for that member sees them; head and tail together
/// are the JSON without the statistics.
pub proof fn lemma_stats_member_split(a: AttributeView)
    requires
        stats_member_apart(a),
    ensures
        stats_member_split(attribute_json(a), json_head(a), entries_json(sorted_listing(a.stats)), json_tail(a)),
        json_head(a) + json_tail(a) == attribute_json_without_stats(a),
{
    let head = json_head(a);
    let y = entries_json(sorted_listing(a.stats));
    let tail = json_tail(a);
    lemma_json_shape(a);
    lemma_tail_lacks_close(a);
    lemma_head_lacks_brace(a);
    lemma_sorted_listing_exists(a.stats);
    let k = a.stats.dom().choose();
    assert(a.stats.dom().contains(k));
    lemma_entries_plain(sorted_listing(a.stats));
    let rest = y + "},"@ + tail;
    assert(attribute_json(a) =~= head + "\"stats\":{"@ + rest);
    lemma_no_earlier_member(head, rest);
}

/// The debugging text of an attribute: its value, times, count, tags and
/// time to live, the times and tags in their `Debug` form.
pub open spec fn attribute_debug(a: AttributeView) -> Seq<char> {
    "Attribute { value: "@ + a.value + ", first_seen: "@ + utc_debug_text(a.first_seen as int)
        + ", last_seen: "@ + utc_debug_text(a.last_seen as int) + ", count: "@ + dec_nat(a.count as nat)
        + ", tags: "@ + str_debug_text(a.tags) + ", ttl: "@ + dec_nat(a.ttl as nat) + "}"@
}

impl Attribute {
    /// A fresh attribute for `value`.
    pub fn new(value: &str) -> (a: Attribute)
        ensures
            a@ == fresh_attribute(value@),
            attribute_accounted(a@),
    {
        let a = Attribute {
            value: value.to_owned(),
            first_seen: 0,
            last_seen: 0,
            count: 0,
            tags: String::new(),
            ttl: 0,
            stats: BTreeMap::new(),
            consensus: 0,
        };
        assert(a@.stats =~= Map::<i64, u128>::empty());
        proof {
            lemma_fresh_accounted(value@);
        }
        a
    }

    /// Counts one sighting in the hour of `time`.
    pub fn make_stats(&mut self, time: i64)
        requires
            time >= earliest_time(),
            slot_has_room(old(self)@.stats, hour_slot(time)),
        ensures
            final(self)@ == counted_in_hour(old(self)@, time),
    {
        self.make_stats_from_timestamp(time);
    }

    /// Counts one sighting in the hour of `timestamp`.
    pub fn make_stats_from_timestamp(&mut self, timestamp: i64)
        requires
            timestamp >= earliest_time(),
            slot_has_room(old(self)@.stats, hour_slot(timestamp)),
        ensures
            final(self)@ == counted_in_hour(old(self)@, timestamp),
    {
        let rounded_time = hour_of(timestamp);
        let cnt: u128 = match self.stats.get(&rounded_time) {
            Some(c) => *c + 1,
            None => 1,
        };
        self.stats.insert(rounded_time, cnt);
        assert(self.stats@ =~= add_sighting(old(self).stats@, hour_slot(timestamp)));
    }

    /// The number of sightings.
    pub fn count(&mut self) -> (c: u128)
        ensures
            c == old(self)@.count,
            final(self)@ == old(self)@,
    {
        self.count
    }

    /// Counts a sighting at `now`, a reading of the clock.
    pub fn incr_at(&mut self, now: i64)
        requires
            now >= earliest_time(),
            old(self)@.count < u128::MAX,
            slot_has_room(old(self)@.stats, hour_slot(now)),
        ensures
            final(self)@ == live_sighted(old(self)@, now),
            attribute_accounted(old(self)@) ==> attribute_accounted(final(self)@),
    {
        if self.first_seen == 0 {
            self.first_seen = now;
        }
        self.last_seen = now;
        self.make_stats(now);
        self.count = self.count + 1;
        proof {
            if attribute_accounted(old(self)@) {
                lemma_accounted_add(old(self)@, now);
            }
        }
    }

    /// Counts a sighting now, by the system clock, and tells that it did:
    /// a clock that reads a time before the epoch counts as the epoch, one
    /// beyond chrono's range as its last second.
    pub fn incr(&mut self) -> (counted: bool)
        requires
            can_count(old(self)@),
        ensures
            counted,
            counted ==> exists|now: i64| valid_now(now as int) && final(self)@ == #[trigger] live_sighted(old(self)@, now),
            !counted ==> final(self)@ == old(self)@,
            attribute_accounted(old(self)@) ==> attribute_accounted(final(self)@),
    {
        let now = clock_now();
        assert(slot_has_room(old(self)@.stats, hour_slot(now)));
        self.incr_at(now);
        true
    }

    /// Sets the consensus.
    pub fn set_consensus(&mut self, consensus_count: u128)
        ensures
            final(self)@ == (AttributeView { consensus: consensus_count, ..old(self)@ }),
    {
        self.consensus = consensus_count;
    }

    /// Counts a sighting dated `timestamp`.
    pub fn incr_from_timestamp(&mut self, timestamp: i64)
        requires
            MIN_TIMESTAMP <= timestamp <= MAX_TIMESTAMP,
            old(self)@.count < u128::MAX,
            slot_has_room(old(self)@.stats, hour_slot(timestamp)),
        ensures
            final(self)@ == sighted_at(old(self)@, timestamp),
            attribute_accounted(old(self)@) ==> attribute_accounted(final(self)@),
    {
        if self.first_seen == 0 {
            self.first_seen = timestamp;
        }
        if timestamp < self.first_seen {
            self.first_seen = timestamp;
        }
        if timestamp > self.last_seen {
            self.last_seen = timestamp;
        }
        self.make_stats_from_timestamp(timestamp);
        self.count = self.count + 1;
        proof {
            if attribute_accounted(old(self)@) {
                lemma_accounted_add(old(self)@, timestamp);
            }
        }
    }

    /// The attribute as its debugging text, times within chrono's range.
    pub fn debug_string(&self) -> (r: String)
        requires
            MIN_TIMESTAMP <= self.first_seen <= MAX_TIMESTAMP,
            MIN_TIMESTAMP <= self.last_seen <= MAX_TIMESTAMP,
        ensures
            r@ == attribute_debug(self@),
    {
        let mut out = String::new();
        push_str(&mut out, "Attribute { value: ");
        push_str(&mut out, self.value.as_str());
        push_str(&mut out, ", first_seen: ");
        let first = utc_debug(self.first_seen);
        push_str(&mut out, first.as_str());
        push_str(&mut out, ", last_seen: ");
        let last = utc_debug(self.last_seen);
        push_str(&mut out, last.as_str());
        push_str(&mut out, ", count: ");
        push_u128(&mut out, self.count);
        push_str(&mut out, ", tags: ");
        let tags = str_debug(self.tags.as_str());
        push_str(&mut out, tags.as_str());
        push_str(&mut out, ", ttl: ");
        push_u128(&mut out, self.ttl);
        push_str(&mut out, "}");
        assert(out@ =~= attribute_debug(self@));
        out
    }

    /// The attribute as a JSON object.
    pub fn to_json(&self) -> (j: String)
        ensures
            j@ == attribute_json(self@),
    {
        let mut out = String::new();
        push_str(&mut out, "{\"value\":");
        push_json_str(&mut out, self.value.as_str());
        push_str(&mut out, ",\"first_seen\":");
        push_i64(&mut out, self.first_seen);
        push_str(&mut out, ",\"last_seen\":");
        push_i64(&mut out, self.last_seen);
        push_str(&mut out, ",\"count\":");
        push_u128(&mut out, self.count);
        push_str(&mut out, ",\"tag\":");
        push_json_str(&mut out, self.tags.as_str());
        push_str(&mut out, ",\"ttl\":");
        push_u128(&mut out, self.ttl);
        push_str(&mut out, ",\"stats\":");
        push_stats_json(&mut out, &self.stats);
        push_str(&mut out, ",\"consensus\":");
        push_u128(&mut out, self.consensus);
        push_str(&mut out, "}");
        assert(out@ =~= attribute_json(self@));
        out
    }
}

} // verus!
