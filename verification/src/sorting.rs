//! Sorting of amounts, and the median of a sorted run.

use vstd::prelude::*;
use vstd::relations::sorted_by;
use vstd::relations::total_ordering;
use vstd::seq_lib::lemma_sorted_unique;
use vstd::seq_lib::to_multiset_build;
use vstd::seq_lib::to_multiset_insert;

verus! {

/// The elements of `s` as mathematical integers.
pub open spec fn ints(s: Seq<i128>) -> Seq<int> {
    s.map_values(|x: i128| x as int)
}

/// Twice the median of an ascending sequence: twice the middle element for
/// an odd length, the sum of the two middle elements for an even length,
/// and zero for the empty sequence.
pub open spec fn median_doubled(sorted: Seq<int>) -> int {
    let len = sorted.len() as int;
    if len == 0 {
        0
    } else if len % 2 == 0 {
        sorted[len / 2 - 1] + sorted[len / 2]
    } else {
        2 * sorted[len / 2]
    }
}

/// Every element lies between 0 and 2^63.
pub open spec fn amounts(s: Seq<i128>) -> bool {
    forall|i: int| 0 <= i < s.len() ==> 0 <= #[trigger] s[i] <= 0x8000_0000_0000_0000
}

/// The elements of `v` in ascending order.
pub fn sorted_copy(v: &Vec<i128>) -> (r: Vec<i128>)
    ensures
        ints(r@) == ints(v@).sort(),
        r@.len() == v@.len(),
        amounts(v@) ==> amounts(r@),
{
    let ghost leq = |x: int, y: int| x <= y;
    let mut r: Vec<i128> = Vec::new();
    let mut i: usize = 0;
    assert(ints(v@).take(0) =~= ints(r@));
    while i < v.len()
        invariant
            i <= v.len(),
            r@.len() == i,
            leq == |x: int, y: int| x <= y,
            sorted_by(ints(r@), leq),
            ints(r@).to_multiset() == ints(v@).take(i as int).to_multiset(),
            amounts(v@) ==> amounts(r@),
        decreases v.len() - i,
    {
        let x: i128 = v[i];
        let mut j: usize = 0;
        while j < r.len() && r[j] <= x
            invariant
                j <= r.len(),
                forall|k: int| 0 <= k < j ==> r@[k] <= x,
            decreases r.len() - j,
        {
            j += 1;
        }
        let ghost before = r@;
        r.insert(j, x);
        proof {
            assert(ints(r@) =~= ints(before).insert(j as int, x as int));
            to_multiset_insert(ints(before), j as int, x as int);
            assert(ints(v@).take(i + 1) =~= ints(v@).take(i as int).push(x as int));
            to_multiset_build(ints(v@).take(i as int), x as int);
            assert forall|a: int, b: int| 0 <= a < b < r@.len() implies #[trigger] leq(
                ints(r@)[a],
                ints(r@)[b],
            ) by {
                let a0 = if a < j { a } else { a - 1 };
                let b0 = if b < j { b } else { b - 1 };
                if a != j && b != j {
                    assert(leq(ints(before)[a0], ints(before)[b0]));
                } else if a == j {
                    assert(leq(ints(before)[j as int], ints(before)[b0]));
                }
            }
            if amounts(v@) {
                assert forall|k: int| 0 <= k < r@.len() implies 0 <= #[trigger] r@[k]
                    <= 0x8000_0000_0000_0000 by {
                    if k < j {
                        assert(r@[k] == before[k]);
                    } else if k > j {
                        assert(r@[k] == before[k - 1]);
                    }
                }
            }
        }
        i += 1;
    }
    proof {
        assert(ints(v@).take(v@.len() as int) =~= ints(v@));
        ints(v@).lemma_sort_ensures();
        assert(total_ordering(leq));
        lemma_sorted_unique(ints(r@), ints(v@).sort(), leq);
    }
    r
}

/// Twice the median of an ascending run of amounts.
pub fn median_doubled_of(sorted: &Vec<i128>) -> (m: i128)
    requires
        amounts(sorted@),
    ensures
        m == median_doubled(ints(sorted@)),
        0 <= m <= 0x1_0000_0000_0000_0000,
{
    let len: usize = sorted.len();
    if len == 0 {
        0
    } else if len % 2 == 0 {
        sorted[len / 2 - 1] + sorted[len / 2]
    } else {
        2 * sorted[len / 2]
    }
}

} // verus!
