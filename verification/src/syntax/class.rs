//! The character-class set algebra.
//!
//! A class is a canonical range list over code points. The algebra evaluates
//! union, intersection, difference, symmetric difference and negation into
//! canonical range lists again. An empty resulting list is a valid, distinct
//! value meaning "matches nothing". Negation complements against the domain
//! of Unicode scalar values, excluding the surrogate gap.

use vstd::prelude::*;

use crate::syntax::ranges::{
    canonical, check_canonical, contains, in_ranges, lemma_member_in_domain, scalar_value,
};

verus! {

/// Membership in a single range.
proof fn lemma_in_ranges_singleton(r: (u32, u32), v: u32)
    ensures
        in_ranges(seq![r], v) <==> r.0 <= v <= r.1,
{
    let s = seq![r];
    assert(s[0] == r);
    if in_ranges(s, v) {
        let k = choose|k: int| 0 <= k < s.len() && (#[trigger] s[k]).0 <= v <= s[k].1;
        assert(s[k] == r);
    }
}

/// Membership in a concatenation of two range lists.
proof fn lemma_in_ranges_concat(s1: Seq<(u32, u32)>, s2: Seq<(u32, u32)>, v: u32)
    ensures
        in_ranges(s1 + s2, v) <==> (in_ranges(s1, v) || in_ranges(s2, v)),
{
    let s = s1 + s2;
    if in_ranges(s, v) {
        let k = choose|k: int| 0 <= k < s.len() && (#[trigger] s[k]).0 <= v <= s[k].1;
        if k < s1.len() {
            assert(s1[k] == s[k]);
        } else {
            assert(s2[k - s1.len()] == s[k]);
        }
    }
    if in_ranges(s1, v) {
        let k = choose|k: int| 0 <= k < s1.len() && (#[trigger] s1[k]).0 <= v <= s1[k].1;
        assert(s[k] == s1[k]);
    }
    if in_ranges(s2, v) {
        let k = choose|k: int| 0 <= k < s2.len() && (#[trigger] s2[k]).0 <= v <= s2[k].1;
        assert(s[k + s1.len()] == s2[k]);
    }
}

/// Concatenating canonical lists separated by a gap yields a canonical list.
proof fn lemma_canonical_concat(s1: Seq<(u32, u32)>, s2: Seq<(u32, u32)>)
    requires
        canonical(s1),
        canonical(s2),
        s1.len() > 0 && s2.len() > 0 ==> s1.last().1 + 1 < s2[0].0,
    ensures
        canonical(s1 + s2),
{
    let s = s1 + s2;
    assert forall|i: int| 0 <= i < s.len() implies (#[trigger] s[i]).0 <= s[i].1 <= 0x10FFFF by {
        if i < s1.len() {
            assert(s[i] == s1[i]);
        } else {
            assert(s[i] == s2[i - s1.len()]);
        }
    }
    assert forall|i: int, j: int| 0 <= i < j < s.len() implies (#[trigger] s[i]).1 + 1 < (
    #[trigger] s[j]).0 by {
        if j < s1.len() {
            assert(s[i] == s1[i]);
            assert(s[j] == s1[j]);
        } else if i >= s1.len() {
            assert(s[i] == s2[i - s1.len()]);
            assert(s[j] == s2[j - s1.len()]);
        } else {
            assert(s[i] == s1[i]);
            assert(s[j] == s2[j - s1.len()]);
            let last = s1.len() - 1;
            if i < last {
                assert(s1[i].1 + 1 < s1[last].0);
                assert(s1[last].0 <= s1[last].1);
            }
            if j - s1.len() > 0 {
                assert(s2[0].1 + 1 < s2[j - s1.len()].0);
                assert(s2[0].0 <= s2[0].1);
            }
        }
    }
}

/// Dropping the first range of a canonical list keeps it canonical.
proof fn lemma_canonical_drop_first(s: Seq<(u32, u32)>)
    requires
        canonical(s),
        s.len() > 0,
    ensures
        canonical(s.drop_first()),
{
    let d = s.drop_first();
    assert forall|i: int| 0 <= i < d.len() implies (#[trigger] d[i]).0 <= d[i].1 <= 0x10FFFF by {
        assert(d[i] == s[i + 1]);
    }
    assert forall|i: int, j: int| 0 <= i < j < d.len() implies (#[trigger] d[i]).1 + 1 < (
    #[trigger] d[j]).0 by {
        assert(d[i] == s[i + 1]);
        assert(d[j] == s[j + 1]);
    }
}

/// The complement of `a` relative to the code points in `[next, 0x10FFFF]`,
/// assuming every range of `a` lies at or above `next`.
spec fn comp_rec(a: Seq<(u32, u32)>, next: u32) -> Seq<(u32, u32)>
    decreases a.len(),
{
    if a.len() == 0 {
        if next <= 0x10FFFF {
            seq![(next, 0x10FFFFu32)]
        } else {
            Seq::empty()
        }
    } else {
        let lo = a[0].0;
        let hi = a[0].1;
        let gap = if next < lo {
            seq![(next, (lo - 1) as u32)]
        } else {
            Seq::<(u32, u32)>::empty()
        };
        gap + comp_rec(a.drop_first(), ((hi + 1) as u32))
    }
}

/// The complement relative to `[next, 0x10FFFF]` is canonical, lies at or
/// above `next`, and holds exactly the code points of that span that are
/// absent from `a`.
proof fn lemma_comp_rec_props(a: Seq<(u32, u32)>, next: u32)
    requires
        canonical(a),
        next <= 0x110000,
        a.len() > 0 ==> next <= a[0].0,
    ensures
        canonical(comp_rec(a, next)),
        forall|k: int|
            0 <= k < comp_rec(a, next).len() ==> (#[trigger] comp_rec(a, next)[k]).0 >= next,
        forall|v: u32|
            in_ranges(comp_rec(a, next), v) <==> (next <= v <= 0x10FFFF && !in_ranges(a, v)),
    decreases a.len(),
{
    let c = comp_rec(a, next);
    if a.len() == 0 {
        if next <= 0x10FFFF {
            assert(c == seq![(next, 0x10FFFFu32)]);
            assert(c[0] == (next, 0x10FFFFu32));
            assert forall|v: u32| in_ranges(c, v) <==> (next <= v <= 0x10FFFF && !in_ranges(
                a,
                v,
            )) by {
                lemma_in_ranges_singleton((next, 0x10FFFFu32), v);
            }
        } else {
            assert forall|v: u32| in_ranges(c, v) <==> (next <= v <= 0x10FFFF && !in_ranges(
                a,
                v,
            )) by {
            }
        }
    } else {
        let lo = a[0].0;
        let hi = a[0].1;
        let rest = a.drop_first();
        let fresh = ((hi + 1) as u32);
        let gap = if next < lo {
            seq![(next, (lo - 1) as u32)]
        } else {
            Seq::<(u32, u32)>::empty()
        };
        lemma_canonical_drop_first(a);
        if rest.len() > 0 {
            assert(rest[0] == a[1]);
            assert(a[0].1 + 1 < a[1].0);
        }
        lemma_comp_rec_props(rest, fresh);
        let rc = comp_rec(rest, fresh);
        assert(c == gap + rc);
        if next < lo {
            assert(gap[0] == (next, (lo - 1) as u32));
            assert(canonical(gap));
        }
        if gap.len() > 0 && rc.len() > 0 {
            assert(rc[0].0 >= fresh);
            assert(gap.last().1 + 1 < rc[0].0);
        }
        lemma_canonical_concat(gap, rc);
        assert forall|k: int| 0 <= k < c.len() implies (#[trigger] c[k]).0 >= next by {
            if k < gap.len() {
                assert(c[k] == gap[k]);
            } else {
                assert(c[k] == rc[k - gap.len()]);
                assert(rc[k - gap.len()].0 >= fresh);
            }
        }
        assert forall|v: u32| in_ranges(c, v) <==> (next <= v <= 0x10FFFF && !in_ranges(a, v)) by {
            lemma_in_ranges_concat(gap, rc, v);
            if next < lo {
                lemma_in_ranges_singleton((next, (lo - 1) as u32), v);
            }
            assert(a =~= seq![a[0]] + rest);
            lemma_in_ranges_concat(seq![a[0]], rest, v);
            lemma_in_ranges_singleton(a[0], v);
            if in_ranges(rest, v) {
                let k = choose|k: int| 0 <= k < rest.len() && (#[trigger] rest[k]).0 <= v <= rest[
                    k
                ].1;
                assert(rest[k] == a[k + 1]);
                assert(a[0].1 + 1 < a[k + 1].0);
            }
        }
    }
}

/// The complement of a canonical list against the whole code-point domain:
/// walks the list and emits the gaps.
fn complement_codepoints(a: &Vec<(u32, u32)>) -> (r: Vec<(u32, u32)>)
    requires
        canonical(a@),
    ensures
        canonical(r@),
        forall|v: u32| in_ranges(r@, v) <==> (v <= 0x10FFFF && !in_ranges(a@, v)),
{
    let n = a.len();
    let mut out: Vec<(u32, u32)> = Vec::new();
    let mut next: u32 = 0;
    let mut i: usize = 0;
    proof {
        assert(a@.skip(0) =~= a@);
        assert(Seq::<(u32, u32)>::empty() + comp_rec(a@, 0) =~= comp_rec(a@, 0));
    }
    while i < n
        invariant
            canonical(a@),
            n == a@.len(),
            i <= n,
            next <= 0x110000,
            i < n ==> next <= a@[i as int].0,
            comp_rec(a@, 0) == out@ + comp_rec(a@.skip(i as int), next),
        decreases n - i,
    {
        let ghost old_out = out@;
        let ghost old_next = next;
        let ghost tail = a@.skip(i as int);
        let (lo, hi) = a[i];
        proof {
            assert(tail[0] == a@[i as int]);
        }
        if next < lo {
            out.push((next, lo - 1));
        }
        next = hi + 1;
        i += 1;
        proof {
            let gap = if old_next < lo {
                seq![(old_next, (lo - 1) as u32)]
            } else {
                Seq::<(u32, u32)>::empty()
            };
            assert(tail.drop_first() =~= a@.skip(i as int));
            assert(comp_rec(tail, old_next) == gap + comp_rec(a@.skip(i as int), next));
            assert(out@ =~= old_out + gap);
            assert((old_out + gap) + comp_rec(a@.skip(i as int), next) =~= old_out + (gap
                + comp_rec(a@.skip(i as int), next)));
            if i < n {
                assert(a@[i - 1].1 + 1 < a@[i as int].0);
            }
        }
    }
    proof {
        assert(a@.skip(n as int) =~= Seq::<(u32, u32)>::empty());
    }
    if next <= 0x10FFFF {
        let ghost old_out = out@;
        out.push((next, 0x10FFFF));
        proof {
            assert(comp_rec(a@.skip(n as int), next) == seq![(next, 0x10FFFFu32)]);
            assert(out@ =~= old_out + seq![(next, 0x10FFFFu32)]);
        }
    } else {
        proof {
            assert(comp_rec(a@.skip(n as int), next) =~= Seq::<(u32, u32)>::empty());
            assert(out@ + Seq::<(u32, u32)>::empty() =~= out@);
        }
    }
    proof {
        assert(out@ == comp_rec(a@, 0));
        lemma_comp_rec_props(a@, 0);
    }
    out
}

/// The intersection of two canonical lists: the overlap of the two front
/// ranges, then recursion past whichever front range ends first.
spec fn inter_rec(a: Seq<(u32, u32)>, b: Seq<(u32, u32)>) -> Seq<(u32, u32)>
    decreases a.len() + b.len(),
{
    if a.len() == 0 || b.len() == 0 {
        Seq::empty()
    } else {
        let lo = if a[0].0 >= b[0].0 {
            a[0].0
        } else {
            b[0].0
        };
        let hi = if a[0].1 <= b[0].1 {
            a[0].1
        } else {
            b[0].1
        };
        let head = if lo <= hi {
            seq![(lo, hi)]
        } else {
            Seq::<(u32, u32)>::empty()
        };
        if a[0].1 <= b[0].1 {
            head + inter_rec(a.drop_first(), b)
        } else {
            head + inter_rec(a, b.drop_first())
        }
    }
}

/// The intersection of canonical lists is canonical, starts no lower than
/// either operand, and holds exactly the common code points.
proof fn lemma_inter_rec_props(a: Seq<(u32, u32)>, b: Seq<(u32, u32)>)
    requires
        canonical(a),
        canonical(b),
    ensures
        canonical(inter_rec(a, b)),
        forall|k: int|
            0 <= k < inter_rec(a, b).len() ==> (#[trigger] inter_rec(a, b)[k]).0 >= a[0].0 && inter_rec(
                a,
                b,
            )[k].0 >= b[0].0,
        forall|v: u32| in_ranges(inter_rec(a, b), v) <==> (in_ranges(a, v) && in_ranges(b, v)),
    decreases a.len() + b.len(),
{
    let c = inter_rec(a, b);
    if a.len() > 0 && b.len() > 0 {
        let lo = if a[0].0 >= b[0].0 {
            a[0].0
        } else {
            b[0].0
        };
        let hi = if a[0].1 <= b[0].1 {
            a[0].1
        } else {
            b[0].1
        };
        let head = if lo <= hi {
            seq![(lo, hi)]
        } else {
            Seq::<(u32, u32)>::empty()
        };
        if lo <= hi {
            assert(head[0] == (lo, hi));
            assert(canonical(head));
        }
        if a[0].1 <= b[0].1 {
            let rest = a.drop_first();
            lemma_canonical_drop_first(a);
            lemma_inter_rec_props(rest, b);
            let rc = inter_rec(rest, b);
            assert(c == head + rc);
            if rest.len() > 0 {
                assert(rest[0] == a[1]);
                assert(a[0].1 + 1 < a[1].0);
            }
            if head.len() > 0 && rc.len() > 0 {
                assert(rc[0].0 >= rest[0].0);
                assert(head.last().1 + 1 < rc[0].0);
            }
            lemma_canonical_concat(head, rc);
            assert forall|k: int| 0 <= k < c.len() implies (#[trigger] c[k]).0 >= a[0].0 && c[k].0
                >= b[0].0 by {
                if k < head.len() {
                    assert(c[k] == head[k]);
                } else {
                    assert(c[k] == rc[k - head.len()]);
                    assert(rc[k - head.len()].0 >= rest[0].0);
                    assert(rc[k - head.len()].0 >= b[0].0);
                    assert(rest[0] == a[1]);
                    assert(a[0].1 + 1 < a[1].0);
                }
            }
            assert forall|v: u32| in_ranges(c, v) <==> (in_ranges(a, v) && in_ranges(b, v)) by {
                lemma_in_ranges_concat(head, rc, v);
                if lo <= hi {
                    lemma_in_ranges_singleton((lo, hi), v);
                }
                assert(a =~= seq![a[0]] + a.drop_first());
                lemma_in_ranges_concat(seq![a[0]], a.drop_first(), v);
                lemma_in_ranges_singleton(a[0], v);
                if in_ranges(b, v) && a[0].0 <= v <= a[0].1 {
                    let l = choose|l: int| 0 <= l < b.len() && (#[trigger] b[l]).0 <= v <= b[l].1;
                    if l > 0 {
                        assert(b[0].1 + 1 < b[l].0);
                        assert(b[0].0 <= b[0].1);
                    }
                }
            }
        } else {
            let rest = b.drop_first();
            lemma_canonical_drop_first(b);
            lemma_inter_rec_props(a, rest);
            let rc = inter_rec(a, rest);
            assert(c == head + rc);
            if rest.len() > 0 {
                assert(rest[0] == b[1]);
                assert(b[0].1 + 1 < b[1].0);
            }
            if head.len() > 0 && rc.len() > 0 {
                assert(rc[0].0 >= rest[0].0);
                assert(head.last().1 + 1 < rc[0].0);
            }
            lemma_canonical_concat(head, rc);
            assert forall|k: int| 0 <= k < c.len() implies (#[trigger] c[k]).0 >= a[0].0 && c[k].0
                >= b[0].0 by {
                if k < head.len() {
                    assert(c[k] == head[k]);
                } else {
                    assert(c[k] == rc[k - head.len()]);
                    assert(rc[k - head.len()].0 >= rest[0].0);
                    assert(rc[k - head.len()].0 >= a[0].0);
                    assert(rest[0] == b[1]);
                    assert(b[0].1 + 1 < b[1].0);
                }
            }
            assert forall|v: u32| in_ranges(c, v) <==> (in_ranges(a, v) && in_ranges(b, v)) by {
                lemma_in_ranges_concat(head, rc, v);
                if lo <= hi {
                    lemma_in_ranges_singleton((lo, hi), v);
                }
                assert(b =~= seq![b[0]] + b.drop_first());
                lemma_in_ranges_concat(seq![b[0]], b.drop_first(), v);
                lemma_in_ranges_singleton(b[0], v);
                if in_ranges(a, v) && b[0].0 <= v <= b[0].1 {
                    let l = choose|l: int| 0 <= l < a.len() && (#[trigger] a[l]).0 <= v <= a[l].1;
                    if l > 0 {
                        assert(a[0].1 + 1 < a[l].0);
                        assert(a[0].0 <= a[0].1);
                    }
                }
            }
        }
    }
}

/// The intersection of two canonical lists: a single sweep over both.
fn intersect_ranges(a: &Vec<(u32, u32)>, b: &Vec<(u32, u32)>) -> (r: Vec<(u32, u32)>)
    requires
        canonical(a@),
        canonical(b@),
    ensures
        canonical(r@),
        forall|v: u32| in_ranges(r@, v) <==> (in_ranges(a@, v) && in_ranges(b@, v)),
{
    let n = a.len();
    let m = b.len();
    let mut out: Vec<(u32, u32)> = Vec::new();
    let mut i: usize = 0;
    let mut j: usize = 0;
    proof {
        assert(a@.skip(0) =~= a@);
        assert(b@.skip(0) =~= b@);
        assert(Seq::<(u32, u32)>::empty() + inter_rec(a@, b@) =~= inter_rec(a@, b@));
    }
    while i < n && j < m
        invariant
            canonical(a@),
            canonical(b@),
            n == a@.len(),
            m == b@.len(),
            i <= n,
            j <= m,
            inter_rec(a@, b@) == out@ + inter_rec(a@.skip(i as int), b@.skip(j as int)),
        decreases (n - i) + (m - j),
    {
        let ghost old_out = out@;
        let ghost ta = a@.skip(i as int);
        let ghost tb = b@.skip(j as int);
        let (alo, ahi) = a[i];
        let (blo, bhi) = b[j];
        proof {
            assert(ta[0] == a@[i as int]);
            assert(tb[0] == b@[j as int]);
        }
        let lo = if alo >= blo {
            alo
        } else {
            blo
        };
        let hi = if ahi <= bhi {
            ahi
        } else {
            bhi
        };
        if lo <= hi {
            out.push((lo, hi));
        }
        if ahi <= bhi {
            i += 1;
        } else {
            j += 1;
        }
        proof {
            let head = if lo <= hi {
                seq![(lo, hi)]
            } else {
                Seq::<(u32, u32)>::empty()
            };
            if ahi <= bhi {
                assert(ta.drop_first() =~= a@.skip(i as int));
                assert(tb =~= b@.skip(j as int));
            } else {
                assert(ta =~= a@.skip(i as int));
                assert(tb.drop_first() =~= b@.skip(j as int));
            }
            assert(inter_rec(ta, tb) == head + inter_rec(a@.skip(i as int), b@.skip(j as int)));
            assert(out@ =~= old_out + head);
            assert((old_out + head) + inter_rec(a@.skip(i as int), b@.skip(j as int)) =~= old_out
                + (head + inter_rec(a@.skip(i as int), b@.skip(j as int))));
        }
    }
    proof {
        assert(a@.skip(i as int).len() == n - i);
        assert(b@.skip(j as int).len() == m - j);
        assert(inter_rec(a@.skip(i as int), b@.skip(j as int)) =~= Seq::<(u32, u32)>::empty());
        assert(out@ + Seq::<(u32, u32)>::empty() =~= out@);
        assert(out@ == inter_rec(a@, b@));
        lemma_inter_rec_props(a@, b@);
    }
    out
}

/// The domain that negation complements against: the Unicode scalar values,
/// that is, all code points except the surrogate gap.
fn scalar_domain() -> (r: Vec<(u32, u32)>)
    ensures
        canonical(r@),
        forall|v: u32| in_ranges(r@, v) <==> scalar_value(v),
{
    let mut d: Vec<(u32, u32)> = Vec::new();
    d.push((0, 0xD7FF));
    d.push((0xE000, 0x10FFFF));
    proof {
        assert(d@[0] == (0u32, 0xD7FFu32));
        assert(d@[1] == (0xE000u32, 0x10FFFFu32));
        assert forall|v: u32| in_ranges(d@, v) <==> scalar_value(v) by {
            if scalar_value(v) {
                if v <= 0xD7FF {
                    assert(d@[0].0 <= v <= d@[0].1);
                } else {
                    assert(d@[1].0 <= v <= d@[1].1);
                }
            }
        }
    }
    d
}

/// A character class: a canonical, possibly empty list of inclusive ranges
/// of code points. The empty class matches nothing.
pub struct ClassSet {
    ranges: Vec<(u32, u32)>,
}

impl View for ClassSet {
    type V = Seq<(u32, u32)>;

    closed spec fn view(&self) -> Seq<(u32, u32)> {
        self.ranges@
    }
}

impl ClassSet {
    /// Well-formedness: the range list is canonical.
    pub open spec fn wf(&self) -> bool {
        canonical(self@)
    }

    /// Whether the class holds the code point `v`.
    pub open spec fn member(&self, v: u32) -> bool {
        in_ranges(self@, v)
    }

    /// The class that matches nothing.
    pub fn empty() -> (r: ClassSet)
        ensures
            r.wf(),
            r@.len() == 0,
            forall|v: u32| !r.member(v),
    {
        ClassSet { ranges: Vec::new() }
    }

    /// Builds a class from a range list, accepting it exactly when it is
    /// canonical: sorted, merged and within the code-point domain.
    pub fn new(ranges: Vec<(u32, u32)>) -> (r: Option<ClassSet>)
        ensures
            match r {
                Some(c) => canonical(ranges@) && c.wf() && c@ == ranges@,
                None => !canonical(ranges@),
            },
    {
        if check_canonical(&ranges) {
            Some(ClassSet { ranges })
        } else {
            None
        }
    }

    /// The canonical range list of the class.
    pub fn as_ranges(&self) -> (r: &Vec<(u32, u32)>)
        ensures
            r@ == self@,
    {
        &self.ranges
    }

    /// Whether the class matches nothing. An empty class is a valid, distinct
    /// value, different from an absent class.
    pub fn is_empty(&self) -> (r: bool)
        ensures
            r == (self@.len() == 0),
    {
        self.ranges.len() == 0
    }

    /// Whether the class holds the code point `v`.
    pub fn contains(&self, v: u32) -> (r: bool)
        requires
            self.wf(),
        ensures
            r == self.member(v),
    {
        contains(&self.ranges, v)
    }

    /// The union of two classes: a code point matches exactly when it
    /// matches either operand. Computed as the complement of the
    /// intersection of the complements, which merges touching ranges.
    pub fn union(&self, other: &ClassSet) -> (r: ClassSet)
        requires
            self.wf(),
            other.wf(),
        ensures
            r.wf(),
            forall|v: u32| r.member(v) <==> (self.member(v) || other.member(v)),
    {
        let ca = complement_codepoints(&self.ranges);
        let cb = complement_codepoints(&other.ranges);
        let cboth = intersect_ranges(&ca, &cb);
        let u = complement_codepoints(&cboth);
        proof {
            assert forall|v: u32| in_ranges(u@, v) <==> (self.member(v) || other.member(v)) by {
                if in_ranges(self@, v) {
                    lemma_member_in_domain(self@, v);
                }
                if in_ranges(other@, v) {
                    lemma_member_in_domain(other@, v);
                }
            }
        }
        ClassSet { ranges: u }
    }

    /// The intersection of two classes: a code point matches exactly when it
    /// matches both operands. Intersecting disjoint classes yields the empty
    /// class, which matches nothing.
    pub fn intersect(&self, other: &ClassSet) -> (r: ClassSet)
        requires
            self.wf(),
            other.wf(),
        ensures
            r.wf(),
            forall|v: u32| r.member(v) <==> (self.member(v) && other.member(v)),
    {
        ClassSet { ranges: intersect_ranges(&self.ranges, &other.ranges) }
    }

    /// The difference of two classes: a code point matches exactly when it
    /// matches `self` but not `other`.
    pub fn difference(&self, other: &ClassSet) -> (r: ClassSet)
        requires
            self.wf(),
            other.wf(),
        ensures
            r.wf(),
            forall|v: u32| r.member(v) <==> (self.member(v) && !other.member(v)),
    {
        let co = complement_codepoints(&other.ranges);
        let d = intersect_ranges(&self.ranges, &co);
        proof {
            assert forall|v: u32| in_ranges(d@, v) <==> (self.member(v) && !other.member(v)) by {
                if in_ranges(self@, v) {
                    lemma_member_in_domain(self@, v);
                }
            }
        }
        ClassSet { ranges: d }
    }

    /// The symmetric difference of two classes: a code point matches exactly
    /// when it matches one operand but not the other.
    pub fn symmetric_difference(&self, other: &ClassSet) -> (r: ClassSet)
        requires
            self.wf(),
            other.wf(),
        ensures
            r.wf(),
            forall|v: u32| r.member(v) <==> (self.member(v) != other.member(v)),
    {
        let left = self.difference(other);
        let right = other.difference(self);
        left.union(&right)
    }

    /// The negation of a class: complements against the domain of Unicode
    /// scalar values, excluding the surrogate gap.
    pub fn negate(&self) -> (r: ClassSet)
        requires
            self.wf(),
        ensures
            r.wf(),
            forall|v: u32| r.member(v) <==> (scalar_value(v) && !self.member(v)),
    {
        let c = complement_codepoints(&self.ranges);
        let dom = scalar_domain();
        ClassSet { ranges: intersect_ranges(&c, &dom) }
    }
}

} // verus!
