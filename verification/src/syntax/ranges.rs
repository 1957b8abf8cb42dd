//! Canonical range lists.
//!
//! A character class is kept as a canonical range list: a sorted, merged,
//! non-overlapping list of inclusive ranges of code points. Both the class
//! set algebra and the injected Unicode data use this representation.

use vstd::prelude::*;

verus! {

/// A canonical range list: inclusive, non-empty ranges within the code-point
/// domain, sorted and merged so that any two ranges are separated by at
/// least one absent value.
pub open spec fn canonical(rs: Seq<(u32, u32)>) -> bool {
    &&& forall|i: int| 0 <= i < rs.len() ==> (#[trigger] rs[i]).0 <= rs[i].1 <= 0x10FFFF
    &&& forall|i: int, j: int|
        0 <= i < j < rs.len() ==> (#[trigger] rs[i]).1 + 1 < (#[trigger] rs[j]).0
}

/// Membership of a value in a range list.
pub open spec fn in_ranges(rs: Seq<(u32, u32)>, v: u32) -> bool {
    exists|i: int| 0 <= i < rs.len() && (#[trigger] rs[i]).0 <= v <= rs[i].1
}

/// A Unicode scalar value: a code point outside the surrogate gap.
pub open spec fn scalar_value(v: u32) -> bool {
    v <= 0x10FFFF && !(0xD800 <= v && v <= 0xDFFF)
}

/// Every member of a canonical list lies within the code-point domain.
pub(crate) proof fn lemma_member_in_domain(rs: Seq<(u32, u32)>, v: u32)
    requires
        canonical(rs),
        in_ranges(rs, v),
    ensures
        v <= 0x10FFFF,
{
}

/// An empty range list means "matches nothing": a canonical list has no
/// members exactly when it has no ranges.
pub proof fn lemma_empty_matches_nothing(rs: Seq<(u32, u32)>)
    requires
        canonical(rs),
    ensures
        rs.len() == 0 <==> (forall|v: u32| !in_ranges(rs, v)),
{
    if rs.len() > 0 {
        let w = rs[0].0;
        assert(rs[0].0 <= w <= rs[0].1);
        assert(in_ranges(rs, w));
    }
}

/// Checks whether a range list is canonical: it suffices to check each
/// neighbouring pair.
pub(crate) fn check_canonical(rs: &Vec<(u32, u32)>) -> (r: bool)
    ensures
        r == canonical(rs@),
{
    let n = rs.len();
    let mut i: usize = 0;
    while i < n
        invariant
            n == rs@.len(),
            i <= n,
            forall|k: int| 0 <= k < i ==> (#[trigger] rs@[k]).0 <= rs@[k].1 <= 0x10FFFF,
            forall|k: int, l: int|
                0 <= k < l < i ==> (#[trigger] rs@[k]).1 + 1 < (#[trigger] rs@[l]).0,
        decreases n - i,
    {
        let (lo, hi) = rs[i];
        if !(lo <= hi && hi <= 0x10FFFF) {
            return false;
        }
        if i > 0 {
            let (_, prev_hi) = rs[i - 1];
            if !(prev_hi + 1 < lo) {
                proof {
                    assert(!(rs@[i - 1].1 + 1 < rs@[i as int].0));
                }
                return false;
            }
            proof {
                assert forall|k: int, l: int| 0 <= k < l < i + 1 implies (#[trigger] rs@[k]).1 + 1
                    < (#[trigger] rs@[l]).0 by {
                    if l == i && k < i - 1 {
                        assert(rs@[k].1 + 1 < rs@[i - 1].0);
                        assert(rs@[i - 1].0 <= rs@[i - 1].1);
                    }
                }
            }
        }
        i += 1;
    }
    true
}

/// Binary search for the range containing `v`, if any.
pub(crate) fn contains(rs: &Vec<(u32, u32)>, v: u32) -> (r: bool)
    requires
        canonical(rs@),
    ensures
        r == in_ranges(rs@, v),
{
    let mut lo: usize = 0;
    let mut hi: usize = rs.len();
    while lo < hi
        invariant
            canonical(rs@),
            lo <= hi <= rs@.len(),
            forall|k: int| 0 <= k < lo ==> (#[trigger] rs@[k]).1 < v,
            forall|k: int| hi <= k < rs@.len() ==> v < (#[trigger] rs@[k]).0,
        decreases hi - lo,
    {
        let mid = lo + (hi - lo) / 2;
        let (a, b) = rs[mid];
        if b < v {
            proof {
                assert forall|k: int| 0 <= k < mid + 1 implies (#[trigger] rs@[k]).1 < v by {
                    if k < mid {
                        assert(rs@[k].1 + 1 < rs@[mid as int].0);
                    }
                }
            }
            lo = mid + 1;
        } else if v < a {
            proof {
                assert forall|k: int| mid <= k < rs@.len() implies v < (#[trigger] rs@[k]).0 by {
                    if k > mid {
                        assert(rs@[mid as int].1 + 1 < rs@[k].0);
                    }
                }
            }
            hi = mid;
        } else {
            return true;
        }
    }
    false
}

} // verus!
