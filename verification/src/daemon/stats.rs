//! Hourly statistics of an attribute: how many sightings fell in each hour,
//! keyed by the hour's first second, and their JSON object.

use vstd::prelude::*;
use std::collections::BTreeMap;
use crate::text::{dec_int, dec_nat, push_str};

verus! {

broadcast use {
    vstd::std_specs::btree::group_btree_axioms,
    vstd::laws_cmp::group_laws_cmp,
};

/// The earliest time whose hour starts within `i64`.
pub open spec fn earliest_time() -> int {
    i64::MIN + 3600
}

/// The hour slot of a timestamp: the first second of the hour that holds
/// it (`t.div_euclid(3600) * 3600`).
pub open spec fn hour_slot(t: i64) -> i64 {
    (t - t % 3600) as i64
}

/// The statistics after one more sighting in `slot`.
pub open spec fn add_sighting(stats: Map<i64, u128>, slot: i64) -> Map<i64, u128> {
    if stats.contains_key(slot) {
        stats.insert(slot, (stats[slot] + 1) as u128)
    } else {
        stats.insert(slot, 1)
    }
}

/// One more sighting can be counted in `slot` without overflow.
pub open spec fn slot_has_room(stats: Map<i64, u128>, slot: i64) -> bool {
    stats.contains_key(slot) ==> stats[slot] < u128::MAX
}

/// The hour slot is the start of the hour that holds the time, for times
/// before the epoch too.
pub proof fn lemma_hour_slot(t: i64)
    requires
        t >= earliest_time(),
    ensures
        hour_slot(t) <= t < hour_slot(t) + 3600,
        hour_slot(t) % 3600 == 0,
{
}

/// The hour slot of `t`.
pub fn hour_of(t: i64) -> (h: i64)
    requires
        t >= earliest_time(),
    ensures
        h == hour_slot(t),
{
    let r = t % 3600;
    if r < 0 {
        t - r - 3600
    } else {
        t - r
    }
}

/// `s` lists the entries of `m` by increasing key.
pub open spec fn is_sorted_listing(s: Seq<(i64, u128)>, m: Map<i64, u128>) -> bool {
    &&& forall|i: int, j: int| 0 <= i < j < s.len() ==> #[trigger] s[i].0 < #[trigger] s[j].0
    &&& forall|i: int| 0 <= i < s.len() ==> #[trigger] m.contains_key(s[i].0) && m[s[i].0] == s[i].1
    &&& forall|k: i64| #[trigger] m.contains_key(k) ==> exists|i: int| 0 <= i < s.len() && s[i].0 == k
}

/// The entries of `m` by increasing key.
pub open spec fn sorted_listing(m: Map<i64, u128>) -> Seq<(i64, u128)> {
    choose|s: Seq<(i64, u128)>| is_sorted_listing(s, m)
}

/// The JSON member for one entry: the key as a quoted decimal, then its count.
pub open spec fn entry_json(e: (i64, u128)) -> Seq<char> {
    seq!['"'] + dec_int(e.0 as int) + seq!['"', ':'] + dec_nat(e.1 as nat)
}

/// The members for a list of entries, separated by commas.
pub open spec fn entries_json(s: Seq<(i64, u128)>) -> Seq<char>
    decreases s.len(),
{
    if s.len() == 0 {
        Seq::empty()
    } else if s.len() == 1 {
        entry_json(s[0])
    } else {
        entries_json(s.drop_last()) + seq![','] + entry_json(s.last())
    }
}

/// The JSON object of the statistics, members by increasing key, as
/// serde_json writes a `BTreeMap<i64, u128>`.
pub open spec fn stats_json(m: Map<i64, u128>) -> Seq<char> {
    seq!['{'] + entries_json(sorted_listing(m)) + seq!['}']
}

/// The members of a list of entries hold no line break, and there is at
/// least one character for each entry.
pub proof fn lemma_entries_plain(s: Seq<(i64, u128)>)
    ensures
        s.len() > 0 ==> entries_json(s).len() > 0,
        !entries_json(s).contains('\n'),
    decreases s.len(),
{
    if s.len() > 0 {
        let e = s.last();
        let j = entry_json(e);
        crate::text::lemma_dec_int_chars(e.0 as int);
        crate::text::lemma_dec_nat_digits(e.1 as nat);
        let d = dec_int(e.0 as int);
        let n = dec_nat(e.1 as nat);
        assert forall|i: int| 0 <= i < j.len() implies j[i] != '\n' by {
            if 1 <= i < 1 + d.len() {
                assert(j[i] == d[i - 1]);
            } else if i >= 3 + d.len() {
                assert(j[i] == n[i - 3 - d.len()]);
            }
        }
        if s.len() == 1 {
            assert(entries_json(s) == j);
        } else {
            lemma_entries_plain(s.drop_last());
            let p = entries_json(s.drop_last());
            let all = entries_json(s);
            assert(all == p + seq![','] + j);
            assert forall|i: int| 0 <= i < all.len() implies all[i] != '\n' by {
                if i < p.len() {
                    assert(all[i] == p[i]);
                } else if i > p.len() {
                    assert(all[i] == j[i - p.len() - 1]);
                }
            }
        }
    }
}

/// Two listings of the same map by increasing key are the same listing.
pub proof fn lemma_sorted_listing_unique(s: Seq<(i64, u128)>, t: Seq<(i64, u128)>, m: Map<i64, u128>)
    requires
        is_sorted_listing(s, m),
        is_sorted_listing(t, m),
    ensures
        s == t,
    decreases s.len(),
{
    if s.len() == 0 {
        if t.len() > 0 {
            assert(m.contains_key(t[0].0));
        }
        assert(s =~= t);
    } else {
        if t.len() == 0 {
            assert(m.contains_key(s[0].0));
        }
        let ks = s.last().0;
        let kt = t.last().0;
        assert(m.contains_key(ks));
        assert(m.contains_key(kt));
        let i = choose|i: int| 0 <= i < s.len() && s[i].0 == kt;
        let j = choose|j: int| 0 <= j < t.len() && t[j].0 == ks;
        if i < s.len() - 1 {
            assert(s[i].0 < s[s.len() - 1].0);
        }
        if j < t.len() - 1 {
            assert(t[j].0 < t[t.len() - 1].0);
        }
        assert(ks == kt);
        let m2 = m.remove(ks);
        let s2 = s.drop_last();
        let t2 = t.drop_last();
        assert forall|k: i64| #[trigger] m2.contains_key(k) implies exists|x: int|
            0 <= x < s2.len() && s2[x].0 == k by {
            let x = choose|x: int| 0 <= x < s.len() && s[x].0 == k;
            assert(x != s.len() - 1);
            assert(s2[x].0 == k);
        }
        assert forall|k: i64| #[trigger] m2.contains_key(k) implies exists|x: int|
            0 <= x < t2.len() && t2[x].0 == k by {
            let x = choose|x: int| 0 <= x < t.len() && t[x].0 == k;
            assert(x != t.len() - 1);
            assert(t2[x].0 == k);
        }
        assert forall|x: int| 0 <= x < s2.len() implies #[trigger] m2.contains_key(s2[x].0)
            && m2[s2[x].0] == s2[x].1 by {
            assert(s[x].0 < s[s.len() - 1].0);
        }
        assert forall|x: int| 0 <= x < t2.len() implies #[trigger] m2.contains_key(t2[x].0)
            && m2[t2[x].0] == t2[x].1 by {
            assert(t[x].0 < t[t.len() - 1].0);
        }
        assert(is_sorted_listing(s2, m2));
        assert(is_sorted_listing(t2, m2));
        lemma_sorted_listing_unique(s2, t2, m2);
        assert(s.last() == t.last());
        assert(s =~= s2.push(s.last()));
        assert(t =~= t2.push(t.last()));
    }
}

/// Any listing of `m` by increasing key is the one that `sorted_listing` picks.
pub proof fn lemma_sorted_listing_is(s: Seq<(i64, u128)>, m: Map<i64, u128>)
    requires
        is_sorted_listing(s, m),
    ensures
        sorted_listing(m) == s,
{
    let c = sorted_listing(m);
    assert(is_sorted_listing(c, m));
    lemma_sorted_listing_unique(c, s, m);
}

/// The sum of the counts of a listing.
pub open spec fn listing_total(s: Seq<(i64, u128)>) -> int
    decreases s.len(),
{
    if s.len() == 0 {
        0
    } else {
        listing_total(s.drop_last()) + s.last().1
    }
}

/// The number of sightings that the statistics hold, all hours together.
pub open spec fn stats_total(m: Map<i64, u128>) -> int {
    listing_total(sorted_listing(m))
}

/// The total of two listings one after the other is the sum of their totals.
pub proof fn lemma_listing_total_concat(a: Seq<(i64, u128)>, b: Seq<(i64, u128)>)
    ensures
        listing_total(a + b) == listing_total(a) + listing_total(b),
    decreases b.len(),
{
    if b.len() > 0 {
        assert((a + b).drop_last() =~= a + b.drop_last());
        lemma_listing_total_concat(a, b.drop_last());
    }
}

/// Raising one count of a listing by one raises its total by one.
pub proof fn lemma_listing_total_bump(s: Seq<(i64, u128)>, i: int, e: (i64, u128))
    requires
        0 <= i < s.len(),
        e.1 == s[i].1 + 1,
    ensures
        listing_total(s.update(i, e)) == listing_total(s) + 1,
{
    let t = s.update(i, e);
    assert(s =~= s.take(i) + seq![s[i]] + s.skip(i + 1));
    assert(t =~= s.take(i) + seq![e] + s.skip(i + 1));
    lemma_listing_total_concat(s.take(i) + seq![s[i]], s.skip(i + 1));
    lemma_listing_total_concat(s.take(i), seq![s[i]]);
    lemma_listing_total_concat(s.take(i) + seq![e], s.skip(i + 1));
    lemma_listing_total_concat(s.take(i), seq![e]);
    assert(seq![s[i]].drop_last() =~= Seq::<(i64, u128)>::empty());
    assert(seq![e].drop_last() =~= Seq::<(i64, u128)>::empty());
}

/// The number of entries of a sorted listing whose key is below `k`.
pub open spec fn count_below(s: Seq<(i64, u128)>, k: i64) -> int
    decreases s.len(),
{
    if s.len() == 0 {
        0
    } else if s.last().0 < k {
        s.len() as int
    } else {
        count_below(s.drop_last(), k)
    }
}

/// In a listing by increasing key, the entries before `count_below` have
/// smaller keys and the others do not.
pub proof fn lemma_count_below(s: Seq<(i64, u128)>, k: i64)
    requires
        forall|i: int, j: int| 0 <= i < j < s.len() ==> #[trigger] s[i].0 < #[trigger] s[j].0,
    ensures
        0 <= count_below(s, k) <= s.len(),
        forall|i: int| 0 <= i < count_below(s, k) ==> #[trigger] s[i].0 < k,
        forall|i: int| count_below(s, k) <= i < s.len() ==> #[trigger] s[i].0 >= k,
    decreases s.len(),
{
    if s.len() > 0 {
        if s.last().0 < k {
            assert forall|i: int| 0 <= i < count_below(s, k) implies #[trigger] s[i].0 < k by {
                if i < s.len() - 1 {
                    assert(s[i].0 < s[s.len() - 1].0);
                }
            }
        } else {
            let d = s.drop_last();
            lemma_count_below(d, k);
            assert forall|i: int| 0 <= i < count_below(s, k) implies #[trigger] s[i].0 < k by {
                assert(d[i] == s[i]);
            }
            assert forall|i: int| count_below(s, k) <= i < s.len() implies #[trigger] s[i].0 >= k by {
                if i < s.len() - 1 {
                    assert(d[i] == s[i]);
                }
            }
        }
    }
}

/// A listing with the entry `(k, v)` put in its place, for a key `k` that
/// the listing does not hold.
pub open spec fn insert_sorted(s: Seq<(i64, u128)>, k: i64, v: u128) -> Seq<(i64, u128)> {
    let i = count_below(s, k);
    s.take(i) + seq![(k, v)] + s.skip(i)
}

/// Putting a new key in its place gives the listing of the map with that
/// key, and adds its count to the total.
pub proof fn lemma_insert_sorted(s: Seq<(i64, u128)>, m: Map<i64, u128>, k: i64, v: u128)
    requires
        is_sorted_listing(s, m),
        !m.contains_key(k),
    ensures
        is_sorted_listing(insert_sorted(s, k, v), m.insert(k, v)),
        listing_total(insert_sorted(s, k, v)) == listing_total(s) + v,
{
    let i = count_below(s, k);
    lemma_count_below(s, k);
    let t = insert_sorted(s, k, v);
    let m2 = m.insert(k, v);
    assert(t.len() == s.len() + 1);
    assert forall|x: int| 0 <= x < t.len() implies #[trigger] t[x] == (if x < i { s[x] } else if x == i { (k, v) } else { s[x - 1] }) by {}
    assert forall|x: int| 0 <= x < s.len() implies s[x].0 != k by {
        assert(m.contains_key(s[x].0));
    }
    assert forall|x: int, y: int| 0 <= x < y < t.len() implies #[trigger] t[x].0 < #[trigger] t[y].0 by {
        if y < i {
            assert(s[x].0 < s[y].0);
        } else if y == i {
            assert(s[x].0 < k);
        } else if x < i {
            assert(s[x].0 < k);
            assert(s[y - 1].0 >= k);
            assert(s[y - 1].0 != k);
        } else if x == i {
            assert(s[y - 1].0 >= k);
            assert(s[y - 1].0 != k);
        } else {
            assert(s[x - 1].0 < s[y - 1].0);
        }
    }
    assert forall|x: int| 0 <= x < t.len() implies #[trigger] m2.contains_key(t[x].0) && m2[t[x].0] == t[x].1 by {
        if x < i {
            assert(m.contains_key(s[x].0));
        } else if x > i {
            assert(m.contains_key(s[x - 1].0));
        }
    }
    assert forall|key: i64| #[trigger] m2.contains_key(key) implies exists|x: int| 0 <= x < t.len() && t[x].0 == key by {
        if key == k {
            assert(t[i].0 == k);
        } else {
            let y = choose|y: int| 0 <= y < s.len() && s[y].0 == key;
            if y < i {
                assert(t[y].0 == key);
            } else {
                assert(t[y + 1].0 == key);
            }
        }
    }
    lemma_listing_total_concat(s.take(i) + seq![(k, v)], s.skip(i));
    lemma_listing_total_concat(s.take(i), seq![(k, v)]);
    lemma_listing_total_concat(s.take(i), s.skip(i));
    assert(s.take(i) + s.skip(i) =~= s);
    assert(seq![(k, v)].drop_last() =~= Seq::<(i64, u128)>::empty());
    assert(listing_total(Seq::<(i64, u128)>::empty()) == 0);
    assert(seq![(k, v)].last() == (k, v));
    assert(listing_total(seq![(k, v)]) == v);
    assert(t =~= s.take(i) + seq![(k, v)] + s.skip(i));
}

/// Every finite map has a listing by increasing key.
pub proof fn lemma_sorted_listing_exists(m: Map<i64, u128>)
    requires
        m.dom().finite(),
    ensures
        is_sorted_listing(sorted_listing(m), m),
    decreases m.dom().len(),
{
    if m.dom().len() == 0 {
        assert(is_sorted_listing(Seq::empty(), m)) by {
            assert forall|k: i64| #[trigger] m.contains_key(k) implies exists|x: int|
                0 <= x < 0 && Seq::<(i64, u128)>::empty()[x].0 == k by {
                assert(m.dom().contains(k));
            }
        }
    } else {
        let k = m.dom().choose();
        assert(m.dom().contains(k));
        let r = m.remove(k);
        assert(r.dom() =~= m.dom().remove(k));
        lemma_sorted_listing_exists(r);
        let s = sorted_listing(r);
        lemma_insert_sorted(s, r, k, m[k]);
        assert(r.insert(k, m[k]) =~= m);
    }
}

/// One more sighting in an hour adds one to the total of the statistics.
pub proof fn lemma_add_sighting_total(m: Map<i64, u128>, slot: i64)
    requires
        m.dom().finite(),
        slot_has_room(m, slot),
    ensures
        add_sighting(m, slot).dom().finite(),
        stats_total(add_sighting(m, slot)) == stats_total(m) + 1,
{
    lemma_sorted_listing_exists(m);
    let s = sorted_listing(m);
    let n = add_sighting(m, slot);
    if m.contains_key(slot) {
        let i = choose|i: int| 0 <= i < s.len() && s[i].0 == slot;
        let e = (slot, (m[slot] + 1) as u128);
        let t = s.update(i, e);
        assert(is_sorted_listing(t, n)) by {
            assert forall|x: int, y: int| 0 <= x < y < t.len() implies #[trigger] t[x].0 < #[trigger] t[y].0 by {
                assert(s[x].0 < s[y].0);
            }
            assert forall|x: int| 0 <= x < t.len() implies #[trigger] n.contains_key(t[x].0) && n[t[x].0] == t[x].1 by {
                if x != i {
                    assert(m.contains_key(s[x].0));
                    assert(s[x].0 != slot) by {
                        if x < i {
                            assert(s[x].0 < s[i].0);
                        } else {
                            assert(s[i].0 < s[x].0);
                        }
                    }
                }
            }
            assert forall|key: i64| #[trigger] n.contains_key(key) implies exists|x: int| 0 <= x < t.len() && t[x].0 == key by {
                assert(m.contains_key(key));
                let y = choose|y: int| 0 <= y < s.len() && s[y].0 == key;
                assert(t[y].0 == key);
            }
        }
        lemma_sorted_listing_is(t, n);
        lemma_listing_total_bump(s, i, e);
    } else {
        lemma_insert_sorted(s, m, slot, 1);
        lemma_sorted_listing_is(insert_sorted(s, slot, 1), n);
    }
}

/// Empty statistics hold no sighting.
pub proof fn lemma_empty_stats_total()
    ensures
        stats_total(Map::<i64, u128>::empty()) == 0,
{
    let e = Map::<i64, u128>::empty();
    assert(is_sorted_listing(Seq::empty(), e));
    lemma_sorted_listing_is(Seq::empty(), e);
}

/// `serde_json::to_string(stats)` for hourly statistics: the JSON object
/// with a member per entry in increasing key order (a `BTreeMap` is walked
/// that way), each key as a quoted decimal and each count as a decimal
/// number. Writing into memory cannot fail and integer keys are accepted,
/// so the result is always `Ok`.
#[verifier::external_body]
fn serde_json_stats(stats: &BTreeMap<i64, u128>) -> (r: Result<String, serde_json::Error>)
    ensures
        r is Ok,
        match r {
            Ok(j) => j@ == stats_json(stats@),
            Err(_) => true,
        },
{
    serde_json::to_string(stats)
}

/// Appends the JSON object of the statistics.
pub fn push_stats_json(out: &mut String, stats: &BTreeMap<i64, u128>)
    ensures
        final(out)@ == old(out)@ + stats_json(stats@),
{
    match serde_json_stats(stats) {
        Ok(j) => push_str(out, j.as_str()),
        Err(_) => {},
    }
}

} // verus!
