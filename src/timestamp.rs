//! Millisecond timestamps and the certified (median) timestamp.
use vstd::prelude::*;
use vstd::relations::{sorted_by, total_ordering};

verus! {

/// A UNIX timestamp in milliseconds.
#[derive(Debug, Clone, Copy, PartialEq, Eq, Structural, PartialOrd, Ord, Hash)]
pub struct Timestamp(pub u128);

/// Relies on `SystemTime::now` and `SystemTime::duration_since(UNIX_EPOCH)`:
/// the wall clock in milliseconds, 0 for a clock set before 1970.
#[verifier::external_body]
fn wall_clock_millis() -> (r: u128) {
    std::time::SystemTime::now()
        .duration_since(std::time::UNIX_EPOCH)
        .map(|d| d.as_millis())
        .unwrap_or(0)
}

#[verifier::external_type_specification]
#[verifier::external_body]
pub struct ExInstant(std::time::Instant);

/// Relies on `Instant::elapsed`: the time since the instant, in milliseconds.
#[verifier::external_body]
fn elapsed_millis(instant: &std::time::Instant) -> (r: u128) {
    instant.elapsed().as_millis()
}

/// Relies on `Duration::from_millis`.
#[verifier::external_body]
fn duration_from_millis(ms: u64) -> (r: std::time::Duration) {
    std::time::Duration::from_millis(ms)
}

impl Timestamp {
    /// Returns the current timestamp.
    pub fn now() -> (r: Timestamp) {
        Timestamp(wall_clock_millis())
    }

    /// Returns the time since this timestamp, less the time elapsed since
    /// `other`; a span that would be negative is zero, and one beyond
    /// `u64::MAX` milliseconds is cut there.
    pub fn duration_since(&self, other: std::time::Instant) -> (r: std::time::Duration) {
        let now = wall_clock_millis();
        let elapsed = elapsed_millis(&other);
        let since: u128 = if now >= self.0 { now - self.0 } else { 0 };
        let span: u128 = if since >= elapsed { since - elapsed } else { 0 };
        let ms: u64 = if span > u64::MAX as u128 { u64::MAX } else { span as u64 };
        duration_from_millis(ms)
    }
}

/// The order of timestamps, as a relation.
pub open spec fn ts_leq() -> spec_fn(Timestamp, Timestamp) -> bool {
    |a: Timestamp, b: Timestamp| a.0 <= b.0
}

/// The timestamps in ascending order.
pub open spec fn sorted_timestamps(s: Seq<Timestamp>) -> Seq<Timestamp> {
    s.sort_by(ts_leq())
}

/// The median of an ascending sequence: its middle element, or the integer
/// average of its two middle elements.
pub open spec fn median_of_sorted(t: Seq<Timestamp>) -> int
    recommends
        t.len() > 0,
{
    if t.len() % 2 == 0 {
        (t[t.len() / 2 - 1].0 + t[(t.len() / 2) as int].0) / 2
    } else {
        t[(t.len() / 2) as int].0 as int
    }
}

/// The median of a list of timestamps.
pub open spec fn median(s: Seq<Timestamp>) -> int {
    median_of_sorted(sorted_timestamps(s))
}

/// `ts_leq` is a total order.
pub proof fn lemma_ts_leq_total()
    ensures
        total_ordering(ts_leq()),
{
}

/// Sorting yields an ascending permutation.
pub proof fn lemma_sorted_timestamps(s: Seq<Timestamp>)
    ensures
        sorted_by(sorted_timestamps(s), ts_leq()),
        sorted_timestamps(s).to_multiset() == s.to_multiset(),
        sorted_timestamps(s).len() == s.len(),
{
    lemma_ts_leq_total();
    s.lemma_sort_by_ensures(ts_leq());
    s.to_multiset_ensures();
    sorted_timestamps(s).to_multiset_ensures();
}

/// An ascending permutation of a list is the list's sorted form.
pub proof fn lemma_sorted_permutation_is_sorted_form(s: Seq<Timestamp>, t: Seq<Timestamp>)
    requires
        sorted_by(t, ts_leq()),
        t.to_multiset() == s.to_multiset(),
    ensures
        t == sorted_timestamps(s),
{
    lemma_sorted_timestamps(s);
    vstd::seq_lib::lemma_sorted_unique(t, sorted_timestamps(s), ts_leq());
}

/// The median does not depend on the order in which the timestamps arrived:
/// any two lists holding the same timestamps have the same median.
pub proof fn lemma_median_order_invariant(a: Seq<Timestamp>, b: Seq<Timestamp>)
    requires
        a.to_multiset() == b.to_multiset(),
    ensures
        median(a) == median(b),
{
    lemma_sorted_timestamps(a);
    lemma_sorted_permutation_is_sorted_form(b, sorted_timestamps(a));
}

/// Sorts the timestamps ascending, in place.
pub fn sort_timestamps(v: &mut Vec<Timestamp>)
    ensures
        final(v)@ == sorted_timestamps(old(v)@),
{
    let ghost original = v@;
    let mut i: usize = 1;
    if v.len() <= 1 {
        proof {
            lemma_ts_leq_total();
            assert(sorted_by(v@, ts_leq()));
            lemma_sorted_permutation_is_sorted_form(original, v@);
        }
        return;
    }
    while i < v.len()
        invariant
            1 <= i <= v.len(),
            v@.len() == original.len(),
            v@.to_multiset() == original.to_multiset(),
            sorted_by(v@.subrange(0, i as int), ts_leq()),
        decreases v.len() - i,
    {
        let ghost whole = v@;
        let x = v.remove(i);
        proof {
            whole.to_multiset_ensures();
            assert(v@ =~= whole.remove(i as int));
        }
        let mut j: usize = i;
        while j > 0 && v[j - 1].0 > x.0
            invariant
                0 <= j <= i < v.len() + 1,
                sorted_by(v@.subrange(0, i as int), ts_leq()),
                forall|k: int| j <= k < i ==> (#[trigger] v@[k]).0 > x.0,
            decreases j,
        {
            j = j - 1;
        }
        let ghost before = v@;
        v.insert(j, x);
        proof {
            before.to_multiset_ensures();
            v@.to_multiset_ensures();
            assert(v@.remove(j as int) =~= before);
            assert(v@[j as int] == x);
            assert(v@.to_multiset() =~= original.to_multiset()) by {
                broadcast use vstd::multiset::group_multiset_axioms;
                assert(v@.contains(x));
                assert(whole.contains(x));
                assert(v@.to_multiset().remove(x) == whole.to_multiset().remove(x));
                assert forall|e: Timestamp| v@.to_multiset().count(e) == whole.to_multiset().count(e) by {
                    if e == x {
                        assert(v@.to_multiset().remove(x).count(e) == v@.to_multiset().count(e) - 1);
                        assert(whole.to_multiset().remove(x).count(e) == whole.to_multiset().count(e) - 1);
                    } else {
                        assert(v@.to_multiset().remove(x).count(e) == v@.to_multiset().count(e));
                        assert(whole.to_multiset().remove(x).count(e) == whole.to_multiset().count(e));
                    }
                }
            }
            assert forall|a: int, b: int| 0 <= a < b < i + 1 implies
                #[trigger] ts_leq()(v@.subrange(0, i + 1)[a], v@.subrange(0, i + 1)[b]) by {
                assert(v@.subrange(0, i + 1)[a] == v@[a]);
                assert(v@.subrange(0, i + 1)[b] == v@[b]);
                if a < j && b < j {
                    assert(ts_leq()(before.subrange(0, i as int)[a], before.subrange(0, i as int)[b]));
                } else if a < j && b == j {
                    if j > 0 {
                        assert(ts_leq()(before.subrange(0, i as int)[a], before.subrange(0, i as int)[j - 1]));
                    }
                } else if a < j {
                    assert(ts_leq()(before.subrange(0, i as int)[a], before.subrange(0, i as int)[b - 1]));
                } else if a == j {
                    assert(before[b - 1].0 > x.0);
                } else {
                    assert(ts_leq()(before.subrange(0, i as int)[a - 1], before.subrange(0, i as int)[b - 1]));
                }
            }
        }
        i = i + 1;
    }
    proof {
        assert(v@.subrange(0, v@.len() as int) =~= v@);
        lemma_sorted_permutation_is_sorted_form(original, v@);
    }
}

/// Returns the median of a non-empty ascending list, without overflow.
pub fn median_of_sorted_exec(t: &Vec<Timestamp>) -> (r: Timestamp)
    requires
        t@.len() > 0,
    ensures
        r.0 == median_of_sorted(t@),
{
    let n = t.len();
    if n % 2 == 0 {
        let a = t[n / 2 - 1].0;
        let b = t[n / 2].0;
        let r: u128 = a / 2 + b / 2 + (a % 2 + b % 2) / 2;
        assert(r == (a + b) / 2);
        Timestamp(r)
    } else {
        t[n / 2]
    }
}

/// Sorts the timestamps ascending in place and returns their median.
pub fn certified_timestamp_of(timestamps: &mut Vec<Timestamp>) -> (r: Timestamp)
    requires
        old(timestamps)@.len() > 0,
    ensures
        final(timestamps)@ == sorted_timestamps(old(timestamps)@),
        r.0 == median(old(timestamps)@),
{
    proof {
        lemma_sorted_timestamps(timestamps@);
    }
    sort_timestamps(timestamps);
    median_of_sorted_exec(timestamps)
}

} // verus!
