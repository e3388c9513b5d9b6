//! A gradient: an ordered table of thresholds with a value at each, read as
//! a step function. A query picks the value of the first entry whose
//! threshold is at or above it, or the last entry's value when every
//! threshold lies below the query.
//!
//! Thresholds are fixed-point scalars; a gradient over the normalized age of
//! a particle spans `0` to [`crate::units::UNIT`].

use crate::units::UNIT;
use vstd::arithmetic::div_mod::{
    lemma_div_is_ordered, lemma_div_multiples_vanish, lemma_div_pos_is_pos,
};
use vstd::arithmetic::mul::{lemma_mul_inequality, lemma_mul_is_commutative};
use vstd::multiset::Multiset;
use vstd::prelude::*;
use vstd::seq_lib::{to_multiset_build, to_multiset_insert};

verus! {

/// One breakpoint of a gradient: at threshold `t`, the step function starts
/// returning `value` (until the next breakpoint takes over).
pub struct GradientEntry<T> {
    pub t: i64,
    pub value: T,
}

impl<T> GradientEntry<T> {
    pub fn new(t: i64, value: T) -> (e: GradientEntry<T>)
        ensures
            e.t == t,
            e.value == value,
    {
        GradientEntry { t, value }
    }
}

/// Entries in ascending threshold order.
pub open spec fn sorted_by_threshold<T>(s: Seq<GradientEntry<T>>) -> bool {
    forall|i: int, j: int|
        #![trigger s[i], s[j]]
        0 <= i <= j < s.len() ==> s[i].t <= s[j].t
}

/// The index a lookup picks from `s` for query `t`: the first entry whose
/// threshold is at or above `t`, or the last entry when none is.
pub open spec fn pick_index<T>(s: Seq<GradientEntry<T>>, t: int) -> int
    recommends
        s.len() > 0,
    decreases s.len(),
{
    if s.len() <= 1 {
        0
    } else if t <= s[0].t as int {
        0
    } else {
        1 + pick_index(s.drop_first(), t)
    }
}

/// What a lookup picks is a valid index; every entry before it has a
/// threshold below the query; and the picked entry's threshold is at or
/// above the query unless the picked entry is the last one.
pub proof fn lemma_pick_index_is_first_at_or_above<T>(s: Seq<GradientEntry<T>>, t: int)
    requires
        s.len() > 0,
    ensures
        0 <= pick_index(s, t) < s.len(),
        forall|k: int| 0 <= k < pick_index(s, t) ==> #[trigger] s[k].t < t,
        t <= s[pick_index(s, t)].t as int || pick_index(s, t) == s.len() - 1,
    decreases s.len(),
{
    if s.len() > 1 && t > s[0].t as int {
        lemma_pick_index_is_first_at_or_above(s.drop_first(), t);
        assert(forall|k: int|
            0 <= k < pick_index(s, t) ==> #[trigger] s[k].t < t) by {
            assert(forall|k: int|
                1 <= k < pick_index(s, t) ==> s[k] == s.drop_first()[k - 1]);
        }
    }
}

/// No other index satisfies the description above: an index whose earlier
/// entries all lie below the query, and which is at or above the query or
/// is the last index, is the picked one.
pub proof fn lemma_pick_index_unique<T>(s: Seq<GradientEntry<T>>, t: int, i: int)
    requires
        0 <= i < s.len(),
        forall|k: int| 0 <= k < i ==> #[trigger] s[k].t < t,
        t <= s[i].t as int || i == s.len() - 1,
    ensures
        pick_index(s, t) == i,
    decreases s.len(),
{
    if i == 0 {
        if s.len() > 1 && t > s[0].t as int {
            assert(false);
        }
    } else {
        assert(s[0].t < t);
        lemma_pick_index_unique(s.drop_first(), t, i - 1);
        assert(forall|k: int|
            0 <= k < i - 1 ==> #[trigger] s.drop_first()[k] == s[k + 1]);
    }
}

/// An ordered, never-empty step-function table. Immutable once built.
pub struct Gradient<T> {
    entries: Vec<GradientEntry<T>>,
}

impl<T> View for Gradient<T> {
    type V = Seq<GradientEntry<T>>;

    closed spec fn view(&self) -> Seq<GradientEntry<T>> {
        self.entries@
    }
}

/// Puts `e` where it keeps `out` ascending: before every entry whose
/// threshold is at or above its own.
fn sorted_insert<T>(out: &mut Vec<GradientEntry<T>>, e: GradientEntry<T>)
    requires
        sorted_by_threshold(old(out)@),
    ensures
        sorted_by_threshold(final(out)@),
        final(out)@.to_multiset() == old(out)@.to_multiset().insert(e),
        final(out)@.len() == old(out)@.len() + 1,
{
    let mut j: usize = 0;
    while j < out.len() && out[j].t < e.t
        invariant
            j <= out@.len(),
            forall|k: int| 0 <= k < j ==> #[trigger] out@[k].t < e.t,
            *out == *old(out),
        decreases out@.len() - j,
    {
        j += 1;
    }
    proof {
        to_multiset_insert(out@, j as int, e);
    }
    out.insert(j, e);
}

impl<T> Gradient<T> {
    /// A gradient holds at least one entry; a lookup on an empty table would
    /// have no value to return, so emptiness is ruled out at construction.
    pub open spec fn wf(self) -> bool {
        self@.len() > 0
    }

    /// Builds a gradient from entries in any order, sorting them by
    /// threshold, ascending.
    pub fn new(values: Vec<GradientEntry<T>>) -> (g: Gradient<T>)
        requires
            values@.len() > 0,
        ensures
            g.wf(),
            sorted_by_threshold(g@),
            g@.to_multiset() == values@.to_multiset(),
            g@.len() == values@.len(),
    {
        let ghost orig = values@;
        let mut rest = values;
        let mut out: Vec<GradientEntry<T>> = Vec::new();
        proof {
            broadcast use vstd::seq_lib::group_to_multiset_ensures;
            broadcast use vstd::multiset::group_multiset_axioms;

            assert(out@.to_multiset() =~= Multiset::<GradientEntry<T>>::empty());
            assert(out@.to_multiset().add(rest@.to_multiset()) =~= orig.to_multiset());
        }
        while rest.len() > 0
            invariant
                sorted_by_threshold(out@),
                out@.to_multiset().add(rest@.to_multiset()) == orig.to_multiset(),
                out@.len() + rest@.len() == orig.len(),
            decreases rest@.len(),
        {
            let ghost before = rest@;
            let e = match rest.pop() {
                Some(e) => e,
                None => {
                    proof {
                        assert(false);
                    }
                    return Gradient { entries: out };
                },
            };
            proof {
                assert(before =~= rest@.push(e));
                to_multiset_build(rest@, e);
            }
            let ghost out_before = out@;
            sorted_insert(&mut out, e);
            proof {
                broadcast use vstd::multiset::group_multiset_axioms;

                assert(out@.to_multiset().add(rest@.to_multiset()) =~= out_before.to_multiset().add(
                    before.to_multiset(),
                ));
            }
        }
        proof {
            broadcast use vstd::seq_lib::group_to_multiset_ensures;
            broadcast use vstd::multiset::group_multiset_axioms;

            assert(rest@.to_multiset() =~= Multiset::<GradientEntry<T>>::empty());
            assert(out@.to_multiset() =~= orig.to_multiset());
        }
        Gradient { entries: out }
    }

    /// Builds a gradient whose `n` values, in input order, sit at thresholds
    /// `(i + 1) * UNIT / n`: `n` equal-width buckets covering one unit.
    pub fn with_equal_spacing(values: Vec<T>) -> (g: Gradient<T>)
        requires
            values@.len() > 0,
        ensures
            g.wf(),
            sorted_by_threshold(g@),
            g@.len() == values@.len(),
            forall|i: int|
                #![trigger g@[i]]
                0 <= i < g@.len() ==> g@[i].value == values@[i] && g@[i].t as int == (i + 1) * (
                UNIT as int) / values@.len() as int,
    {
        let n: usize = values.len();
        let ghost vals = values@;
        let mut rest = values;
        let mut entries: Vec<GradientEntry<T>> = Vec::new();
        let mut i: usize = 0;
        while entries.len() < n
            invariant
                n == vals.len(),
                i == entries@.len(),
                i <= n,
                rest@ =~= vals.subrange(i as int, n as int),
                forall|k: int|
                    #![trigger entries@[k]]
                    0 <= k < i ==> entries@[k].value == vals[k] && entries@[k].t as int == (k + 1)
                        * (UNIT as int) / n as int,
            decreases n - i,
        {
            let v = rest.remove(0);
            let t: i64 = threshold_at(i, n);
            entries.push(GradientEntry { t, value: v });
            i += 1;
        }
        proof {
            lemma_spacing_sorted(entries@, n as int);
        }
        Gradient { entries }
    }

    /// The value of the first entry whose threshold is at or above `t`, or
    /// of the last entry when every threshold lies below `t`.
    pub fn get_value(&self, t: i64) -> (r: &T)
        requires
            self.wf(),
        ensures
            *r == self@[pick_index(self@, t as int)].value,
    {
        let n: usize = self.entries.len();
        let mut i: usize = 0;
        while i < n
            invariant
                n == self@.len(),
                0 < n,
                i <= n,
                forall|k: int| 0 <= k < i ==> #[trigger] self@[k].t < t,
            decreases n - i,
        {
            if t <= self.entries[i].t {
                proof {
                    lemma_pick_index_unique(self@, t as int, i as int);
                }
                return &self.entries[i].value;
            }
            i += 1;
        }
        proof {
            lemma_pick_index_unique(self@, t as int, n as int - 1);
        }
        &self.entries[n - 1].value
    }
}

/// The threshold of bucket `i` of `n`: `(i + 1) * UNIT / n` in fixed point.
fn threshold_at(i: usize, n: usize) -> (t: i64)
    requires
        i < n,
    ensures
        t as int == (i as int + 1) * (UNIT as int) / n as int,
        0 <= t as int <= UNIT as int,
{
    let num: u128 = (i as u128 + 1) * (UNIT as u128);
    let q: u128 = num / (n as u128);
    proof {
        let u = UNIT as int;
        let ni = n as int;
        lemma_mul_inequality(i as int + 1, ni, u);
        lemma_mul_is_commutative(ni, u);
        lemma_div_is_ordered((i as int + 1) * u, ni * u, ni);
        lemma_div_multiples_vanish(u, ni);
        lemma_mul_is_commutative(u, ni);
        lemma_div_pos_is_pos((i as int + 1) * u, ni);
    }
    q as i64
}

/// Equal-spacing thresholds ascend with the bucket index.
proof fn lemma_spacing_sorted<T>(s: Seq<GradientEntry<T>>, n: int)
    requires
        n > 0,
        forall|k: int|
            #![trigger s[k]]
            0 <= k < s.len() ==> s[k].t as int == (k + 1) * (UNIT as int) / n,
    ensures
        sorted_by_threshold(s),
{
    assert forall|i: int, j: int|
        #![trigger s[i], s[j]]
        0 <= i <= j < s.len() implies s[i].t <= s[j].t by {
        lemma_mul_inequality(i + 1, j + 1, UNIT as int);
        lemma_div_is_ordered((i + 1) * (UNIT as int), (j + 1) * (UNIT as int), n);
    }
}

} // verus!
