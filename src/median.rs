//! The median of an odd-sized set of prices: sort ascending, take the middle.

use crate::decimal::{price_le, Price};
use vstd::prelude::*;
use vstd::relations::sorted_by;
use vstd::seq_lib::{lemma_sorted_unique, to_multiset_insert, to_multiset_remove};

verus! {

broadcast use vstd::seq_lib::group_to_multiset_ensures;

/// The values of a sequence of prices, in units of `10^-28`.
pub open spec fn units_of(s: Seq<Price>) -> Seq<int> {
    s.map_values(|p: Price| p.units())
}

/// Every price of the sequence is well formed.
pub open spec fn all_wf(s: Seq<Price>) -> bool {
    forall|i: int| 0 <= i < s.len() ==> (#[trigger] s[i]).wf()
}

/// The values never decrease along the sequence.
pub open spec fn ascending(s: Seq<int>) -> bool {
    forall|i: int, j: int| 0 <= i < j < s.len() ==> s[i] <= s[j]
}

/// The value of the median of a set of prices: the middle element of its
/// values sorted in ascending order.
pub open spec fn median_units(s: Seq<Price>) -> int {
    units_of(s).sort()[s.len() as int / 2]
}

/// An ascending sequence of values is the sorted form of any sequence that
/// holds the same values.
proof fn lemma_ascending_is_sort(t: Seq<int>, s: Seq<int>)
    requires
        ascending(t),
        t.to_multiset() == s.to_multiset(),
    ensures
        t == s.sort(),
{
    let leq = |x: int, y: int| x <= y;
    s.lemma_sort_ensures();
    assert(sorted_by(s.sort(), leq));
    assert(sorted_by(t, leq));
    lemma_sorted_unique(t, s.sort(), leq);
}

/// Two sequences of prices with the same elements have the same values,
/// counted with multiplicity.
proof fn lemma_units_multiset(s1: Seq<Price>, s2: Seq<Price>)
    requires
        s1.to_multiset() == s2.to_multiset(),
    ensures
        units_of(s1).to_multiset() == units_of(s2).to_multiset(),
    decreases s1.len(),
{
    if s1.len() == 0 {
        s2.lemma_multiset_has_no_duplicates_conv();
        assert(s2.to_multiset().len() == 0);
        assert(s2.len() == 0);
        assert(units_of(s1) =~= units_of(s2));
    } else {
        let x = s1.last();
        assert(s1.to_multiset().contains(x)) by {
            assert(s1.contains(x));
        }
        assert(s2.contains(x));
        let k = choose|k: int| 0 <= k < s2.len() && s2[k] == x;
        let r1 = s1.remove(s1.len() - 1);
        let r2 = s2.remove(k);
        to_multiset_remove(s1, s1.len() - 1);
        to_multiset_remove(s2, k);
        lemma_units_multiset(r1, r2);
        assert(units_of(r1) =~= units_of(s1).remove(s1.len() - 1));
        assert(units_of(r2) =~= units_of(s2).remove(k));
        to_multiset_remove(units_of(s1), s1.len() - 1);
        to_multiset_remove(units_of(s2), k);
        let m1 = units_of(s1).to_multiset();
        let m2 = units_of(s2).to_multiset();
        assert(m1.contains(x.units())) by {
            assert(units_of(s1)[s1.len() - 1] == x.units());
        }
        assert(m2.contains(x.units())) by {
            assert(units_of(s2)[k] == x.units());
        }
        assert(m1 =~= m1.remove(x.units()).insert(x.units()));
        assert(m2 =~= m2.remove(x.units()).insert(x.units()));
    }
}

/// The median depends on the prices alone, not on the order in which they
/// come: two orderings of one collection of prices have medians of equal value.
pub proof fn lemma_median_order_independent(s1: Seq<Price>, s2: Seq<Price>)
    requires
        s1.to_multiset() == s2.to_multiset(),
    ensures
        s1.len() == s2.len(),
        median_units(s1) == median_units(s2),
{
    lemma_units_multiset(s1, s2);
    let u1 = units_of(s1);
    let u2 = units_of(s2);
    u1.lemma_sort_ensures();
    u2.lemma_sort_ensures();
    let leq = |x: int, y: int| x <= y;
    assert(sorted_by(u1.sort(), leq));
    assert(sorted_by(u2.sort(), leq));
    lemma_sorted_unique(u1.sort(), u2.sort(), leq);
    s1.to_multiset_ensures();
    s2.to_multiset_ensures();
}

/// Sorts the prices by value, in ascending order.
pub fn sort_prices(prices: &Vec<Price>) -> (r: Vec<Price>)
    requires
        all_wf(prices@),
    ensures
        r@.to_multiset() == prices@.to_multiset(),
        all_wf(r@),
        units_of(r@) == units_of(prices@).sort(),
{
    let mut sorted: Vec<Price> = Vec::new();
    let mut i: usize = 0;
    while i < prices.len()
        invariant
            i <= prices.len(),
            all_wf(prices@),
            all_wf(sorted@),
            ascending(units_of(sorted@)),
            sorted@.to_multiset() == prices@.subrange(0, i as int).to_multiset(),
            units_of(sorted@).to_multiset() == units_of(prices@.subrange(0, i as int)).to_multiset(),
        decreases prices.len() - i,
    {
        let x = prices[i];
        let mut j: usize = 0;
        while j < sorted.len() && price_le(&sorted[j], &x)
            invariant
                j <= sorted.len(),
                x.wf(),
                all_wf(sorted@),
                forall|k: int| 0 <= k < j ==> (#[trigger] sorted@[k]).units() <= x.units(),
            decreases sorted.len() - j,
        {
            j = j + 1;
        }
        assert(j == sorted.len() || x.units() < sorted@[j as int].units());
        let ghost before = sorted@;
        sorted.insert(j, x);
        proof {
            let u = units_of(before);
            assert(units_of(sorted@) =~= u.insert(j as int, x.units()));
            to_multiset_insert(before, j as int, x);
            to_multiset_insert(u, j as int, x.units());
            assert(prices@.subrange(0, i + 1) =~= prices@.subrange(0, i as int).push(x));
            assert(units_of(prices@.subrange(0, i + 1)) =~= units_of(
                prices@.subrange(0, i as int),
            ).push(x.units()));
            assert(all_wf(sorted@));
            assert(ascending(units_of(sorted@))) by {
                assert forall|a: int, b: int|
                    0 <= a < b < sorted@.len() implies units_of(sorted@)[a] <= units_of(
                        sorted@,
                    )[b] by {
                    let ub = units_of(before);
                    if j < before.len() {
                        assert(x.units() < ub[j as int]);
                    }
                    if b < j {
                        assert(ub[a] <= ub[b]);
                    } else if b == j {
                        assert(before[a].units() <= x.units());
                    } else if a < j {
                        assert(before[a].units() <= x.units());
                        assert(ub[j as int] <= ub[b - 1]);
                    } else if a == j {
                        assert(ub[j as int] <= ub[b - 1]);
                    } else {
                        assert(ub[a - 1] <= ub[b - 1]);
                    }
                }
            }
        }
        i = i + 1;
    }
    proof {
        assert(prices@.subrange(0, prices@.len() as int) =~= prices@);
        lemma_ascending_is_sort(units_of(sorted@), units_of(prices@));
    }
    sorted
}

/// The median of the prices: the middle element once they are sorted by value.
pub fn median(prices: &Vec<Price>) -> (r: Price)
    requires
        prices@.len() > 0,
        all_wf(prices@),
    ensures
        prices@.contains(r),
        r.wf(),
        r.units() == median_units(prices@),
{
    let sorted = sort_prices(prices);
    proof {
        sorted@.to_multiset_ensures();
        prices@.to_multiset_ensures();
        units_of(prices@).lemma_sort_ensures();
        assert(sorted@.len() == prices@.len()) by {
            lemma_units_multiset(sorted@, prices@);
            assert(units_of(sorted@).len() == sorted@.len());
        }
    }
    let m = sorted.len() / 2;
    let r = sorted[m];
    proof {
        assert(sorted@.to_multiset().count(r) > 0);
        assert(units_of(sorted@)[m as int] == r.units());
    }
    r
}

} // verus!
