//! Interval merging: the total ground length covered by a union of shadows.
//!
//! The total is defined by the classic sweep: sort the intervals by start
//! (ties by end), walk left to right keeping one open interval, extend it
//! while the next interval touches or overlaps it, and close it — adding its
//! length to the running sum — when a gap appears. An infinite far endpoint
//! absorbs everything after it and makes the total infinite.
//!
//! All endpoints here are scaled integers sharing one denominator, so the
//! totals below are scaled lengths; dividing by the common denominator gives
//! the geometric length.

use vstd::prelude::*;
use vstd::relations::{sorted_by, total_ordering};
use vstd::seq_lib::lemma_sorted_unique;

use crate::shadow::{
    end_max, lemma_shadow_order_total, shadow_le, shadow_leq, shadow_order, Shadow, ShadowEnd,
};

verus! {

/// A total covered length in scaled coordinates: finite, or infinite when
/// some shadow reaches to infinity.
pub enum SpecTotal {
    Finite(int),
    Infinite,
}

/// One state of the left-to-right sweep: the shadows of `s` from index `i`
/// on are still to be seen, `[cur_start, cur_end]` is the open interval, and
/// `acc` is the summed length of the intervals already closed.
pub open spec fn sweep(s: Seq<Shadow>, i: int, cur_start: int, cur_end: ShadowEnd, acc: int) -> SpecTotal
    decreases s.len() - i,
{
    if i < 0 || i >= s.len() {
        match cur_end {
            ShadowEnd::Fin(e) => SpecTotal::Finite(acc + (e - cur_start)),
            ShadowEnd::Inf => SpecTotal::Infinite,
        }
    } else {
        match cur_end {
            ShadowEnd::Inf => sweep(s, i + 1, cur_start, ShadowEnd::Inf, acc),
            ShadowEnd::Fin(e) => if s[i].start <= e {
                sweep(s, i + 1, cur_start, end_max(cur_end, s[i].end), acc)
            } else {
                sweep(s, i + 1, s[i].start as int, s[i].end, acc + (e - cur_start))
            },
        }
    }
}

/// The summed length of the union of the intervals of `s`, provided `s` is
/// already sorted by `shadow_order`.
pub open spec fn merged_total(s: Seq<Shadow>) -> SpecTotal {
    if s.len() == 0 {
        SpecTotal::Finite(0)
    } else {
        sweep(s, 1, s[0].start as int, s[0].end, 0)
    }
}

/// The summed length of the union of the intervals of `s`, in scaled
/// coordinates: the shadows are sorted, then swept left to right.
pub open spec fn spec_total_len(s: Seq<Shadow>) -> SpecTotal {
    merged_total(s.sort_by(shadow_order()))
}

/// Sorts shadows ascending under `shadow_order` by insertion into a fresh
/// vector; the result is exactly the specification-level sort.
pub fn sort_shadows(v: &Vec<Shadow>) -> (r: Vec<Shadow>)
    ensures
        r@ == v@.sort_by(shadow_order()),
        sorted_by(r@, shadow_order()),
        r@.to_multiset() == v@.to_multiset(),
{
    broadcast use vstd::seq_lib::group_to_multiset_ensures;

    proof {
        lemma_shadow_order_total();
    }
    let ghost ord = shadow_order();
    let mut r: Vec<Shadow> = Vec::new();
    let mut idx: usize = 0;
    proof {
        assert(v@.subrange(0, 0) =~= Seq::<Shadow>::empty());
        assert(r@.to_multiset() =~= v@.subrange(0, 0).to_multiset());
    }
    while idx < v.len()
        invariant
            idx <= v@.len(),
            r@.len() == idx,
            sorted_by(r@, ord),
            ord == shadow_order(),
            r@.to_multiset() == v@.subrange(0, idx as int).to_multiset(),
            total_ordering(ord),
        decreases v@.len() - idx,
    {
        let s = v[idx];
        let ghost prev = r@;
        let mut pos: usize = 0;
        while pos < r.len() && shadow_le(&r[pos], &s)
            invariant
                pos <= r@.len(),
                forall|k: int| 0 <= k < pos ==> shadow_leq(r@[k], s),
            decreases r@.len() - pos,
        {
            pos += 1;
        }
        r.insert(pos, s);
        proof {
            broadcast use vstd::seq_lib::group_to_multiset_ensures;
            broadcast use vstd::multiset::group_multiset_axioms;

            prev.insert_ensures(pos as int, s);
            assert(r@.to_multiset() == prev.to_multiset().insert(s)) by {
                assert(prev.insert(pos as int, s).to_multiset() == prev.to_multiset().insert(s));
            }
            assert(v@.subrange(0, idx as int + 1) =~= v@.subrange(0, idx as int).push(v@[idx as int]));
            assert(v@.subrange(0, idx as int).push(v@[idx as int]).to_multiset() =~= v@.subrange(
                0,
                idx as int,
            ).to_multiset().insert(v@[idx as int]));
            assert(r@.to_multiset() == v@.subrange(0, idx as int + 1).to_multiset());
            assert forall|i: int, j: int| 0 <= i < j < r@.len() implies #[trigger] ord(r@[i], r@[j]) by {
                let p = pos as int;
                if j < p {
                    assert(ord(prev[i], prev[j]));
                } else if j == p {
                    assert(shadow_leq(prev[i], s));
                } else if i < p {
                    assert(ord(prev[i], prev[j - 1]));
                } else if i == p {
                    assert(ord(s, prev[p]));
                    if j - 1 > p {
                        assert(ord(prev[p], prev[j - 1]));
                    }
                } else {
                    assert(ord(prev[i - 1], prev[j - 1]));
                }
            }
        }
        idx += 1;
    }
    proof {
        assert(v@.subrange(0, v@.len() as int) =~= v@);
        v@.lemma_sort_by_ensures(ord);
        lemma_sorted_unique(r@, v@.sort_by(ord), ord);
    }
    r
}

/// The covered total depends only on which shadows are stored, never on the
/// order they were stored in: any two arrangements of the same shadows merge
/// to the same total.
pub proof fn lemma_total_len_permutation(s1: Seq<Shadow>, s2: Seq<Shadow>)
    requires
        s1.to_multiset() == s2.to_multiset(),
    ensures
        spec_total_len(s1) == spec_total_len(s2),
{
    lemma_shadow_order_total();
    let ord = shadow_order();
    s1.lemma_sort_by_ensures(ord);
    s2.lemma_sort_by_ensures(ord);
    lemma_sorted_unique(s1.sort_by(ord), s2.sort_by(ord), ord);
}

/// Mapping a function over two sequences holding the same elements (as
/// multisets) yields the same image elements (as multisets) again.
pub proof fn lemma_map_values_multiset<A, B>(s1: Seq<A>, s2: Seq<A>, g: spec_fn(A) -> B)
    requires
        s1.to_multiset() == s2.to_multiset(),
    ensures
        s1.map_values(g).to_multiset() == s2.map_values(g).to_multiset(),
    decreases s1.len(),
{
    broadcast use vstd::seq_lib::group_to_multiset_ensures;
    broadcast use vstd::multiset::group_multiset_axioms;

    if s1.len() == 0 {
        assert(s1.to_multiset().len() == 0);
        assert(s2.to_multiset().len() == s2.len());
        assert(s1.map_values(g) =~= Seq::<B>::empty());
        assert(s2.map_values(g) =~= Seq::<B>::empty());
    } else {
        let x = s1[0];
        assert(s1.contains(x));
        assert(s1.to_multiset().count(x) > 0);
        assert(s2.contains(x));
        let j = choose|j: int| 0 <= j < s2.len() && s2[j] == x;
        let s1r = s1.remove(0);
        let s2r = s2.remove(j);
        assert(s1r.to_multiset() == s1.to_multiset().remove(x));
        assert(s2r.to_multiset() == s2.to_multiset().remove(x));
        lemma_map_values_multiset(s1r, s2r, g);
        let m1 = s1.map_values(g).to_multiset();
        let m2 = s2.map_values(g).to_multiset();
        assert(s1.map_values(g).remove(0) =~= s1r.map_values(g));
        assert(s2.map_values(g).remove(j) =~= s2r.map_values(g));
        assert(s1.map_values(g)[0] == g(x));
        assert(s2.map_values(g)[j] == g(x));
        assert(s1.map_values(g).remove(0).to_multiset() == m1.remove(g(x)));
        assert(s2.map_values(g).remove(j).to_multiset() == m2.remove(g(x)));
        assert(m1.remove(g(x)) == m2.remove(g(x)));
        assert(s1.map_values(g).contains(g(x)));
        assert(s2.map_values(g).contains(g(x)));
        assert(m1.count(g(x)) > 0);
        assert(m2.count(g(x)) > 0);
        assert forall|y: B| m1.count(y) == m2.count(y) by {
            if y == g(x) {
                assert(m1.remove(g(x)).count(y) == m1.count(y) - 1);
                assert(m2.remove(g(x)).count(y) == m2.count(y) - 1);
            } else {
                assert(m1.remove(g(x)).count(y) == m1.count(y));
                assert(m2.remove(g(x)).count(y) == m2.count(y));
            }
        }
        assert(m1 =~= m2);
    }
}

/// Two finite shadows of positive length: where they do not overlap — at
/// most touching in a point — the covered total is exactly the sum of their
/// two lengths; where they overlap over more than a point, the covered total
/// is strictly smaller than that sum, because the shared part is counted
/// once. Shadows with an infinite end fall outside this statement: there
/// both the union and the sum are infinite.
pub proof fn lemma_total_two_shadows(a: Shadow, b: Shadow, ea: i64, eb: i64)
    requires
        a.end == ShadowEnd::Fin(ea),
        b.end == ShadowEnd::Fin(eb),
        a.start < ea,
        b.start < eb,
    ensures
        (ea <= b.start || eb <= a.start) ==> spec_total_len(seq![a, b]) == SpecTotal::Finite(
            (ea - a.start) + (eb - b.start),
        ),
        (b.start < ea && a.start < eb) ==> (spec_total_len(seq![a, b]) matches SpecTotal::Finite(t)
            && t == (if ea <= eb {
                eb as int
            } else {
                ea as int
            }) - (if a.start <= b.start {
                a.start as int
            } else {
                b.start as int
            }) && t < (ea - a.start) + (eb - b.start)),
{
    broadcast use vstd::seq_lib::group_to_multiset_ensures;
    broadcast use vstd::multiset::group_multiset_axioms;

    lemma_shadow_order_total();
    let ord = shadow_order();
    let pair = seq![a, b];
    let p: Seq<Shadow> = if shadow_leq(a, b) {
        seq![a, b]
    } else {
        seq![b, a]
    };
    assert(p.len() == 2 && pair.len() == 2);
    assert(ord(p[0], p[1])) by {
        if !shadow_leq(a, b) {
            assert(ord(b, a));
        }
    }
    assert(sorted_by(p, ord));
    assert(pair.to_multiset() == p.to_multiset()) by {
        let e = Seq::<Shadow>::empty();
        assert(pair =~= e.push(a).push(b));
        assert(seq![b, a] =~= e.push(b).push(a));
        assert(e.push(a).to_multiset() == e.to_multiset().insert(a));
        assert(e.push(a).push(b).to_multiset() == e.push(a).to_multiset().insert(b));
        assert(e.push(b).to_multiset() == e.to_multiset().insert(b));
        assert(e.push(b).push(a).to_multiset() == e.push(b).to_multiset().insert(a));
        assert(e.to_multiset().insert(a).insert(b) =~= e.to_multiset().insert(b).insert(a));
    }
    pair.lemma_sort_by_ensures(ord);
    lemma_sorted_unique(p, pair.sort_by(ord), ord);
    assert(spec_total_len(pair) == merged_total(p));
    let x = p[0];
    let y = p[1];
    let ex: i64 = if shadow_leq(a, b) {
        ea
    } else {
        eb
    };
    let ey: i64 = if shadow_leq(a, b) {
        eb
    } else {
        ea
    };
    assert(x.end == ShadowEnd::Fin(ex) && y.end == ShadowEnd::Fin(ey));
    assert(merged_total(p) == sweep(p, 1, x.start as int, x.end, 0));
    if y.start <= ex {
        assert(sweep(p, 1, x.start as int, x.end, 0) == sweep(
            p,
            2,
            x.start as int,
            end_max(x.end, y.end),
            0,
        ));
        let top = end_max(x.end, y.end);
        assert(top == ShadowEnd::Fin(if ex <= ey {
            ey
        } else {
            ex
        }));
        assert(sweep(p, 2, x.start as int, top, 0) == SpecTotal::Finite(
            (if ex <= ey {
                ey as int
            } else {
                ex as int
            }) - x.start,
        ));
    } else {
        assert(sweep(p, 1, x.start as int, x.end, 0) == sweep(
            p,
            2,
            y.start as int,
            y.end,
            0 + (ex - x.start),
        ));
        assert(sweep(p, 2, y.start as int, y.end, (ex - x.start) as int) == SpecTotal::Finite(
            (ex - x.start) + (ey - y.start),
        ));
    }
}

} // verus!

