//! Lists of board squares used as sets: membership is what counts.
use vstd::prelude::*;

use crate::util::Point;

verus! {

/// Whether `v` holds `p`.
pub(crate) fn has_point(v: &Vec<Point>, p: Point) -> (r: bool)
    ensures
        r == v@.contains(p),
{
    let mut i: usize = 0;
    while i < v.len()
        invariant
            0 <= i <= v@.len(),
            forall|j: int| 0 <= j < i ==> v@[j] != p,
        decreases v@.len() - i,
    {
        if v[i].0 == p.0 && v[i].1 == p.1 {
            return true;
        }
        i = i + 1;
    }
    false
}

/// Adds `p` to `v` unless it is already there.
pub(crate) fn insert_point(v: &mut Vec<Point>, p: Point)
    ensures
        forall|q: Point| #[trigger] final(v)@.contains(q) <==> old(v)@.contains(q) || q == p,
        old(v)@.no_duplicates() ==> final(v)@.no_duplicates(),
{
    if !has_point(v, p) {
        v.push(p);
        assert(old(v)@.no_duplicates() ==> v@.no_duplicates()) by {
            if old(v)@.no_duplicates() {
                assert forall|i: int, j: int| 0 <= i < v@.len() && 0 <= j < v@.len() && i != j implies v@[i] != v@[j] by {
                    if i == v@.len() - 1 {
                        assert(old(v)@[j] == v@[j]);
                    }
                    if j == v@.len() - 1 {
                        assert(old(v)@[i] == v@[i]);
                    }
                }
            }
        }
        proof {
            assert forall|q: Point| #[trigger] v@.contains(q) <==> old(v)@.contains(q) || q == p by {
                if old(v)@.contains(q) {
                    let j = choose|j: int| 0 <= j < old(v)@.len() && old(v)@[j] == q;
                    assert(v@[j] == q);
                }
                if q == p {
                    assert(v@[v@.len() - 1] == q);
                }
            }
        }
    }
}

/// `q` is among the first `n` points of `w`.
pub open spec fn in_prefix(w: Seq<Point>, n: int, q: Point) -> bool {
    exists|j: int| 0 <= j < n && #[trigger] w[j] == q
}

/// Adds every point of `w` to `v`.
pub(crate) fn extend_points(v: &mut Vec<Point>, w: &Vec<Point>)
    ensures
        forall|q: Point| #[trigger] final(v)@.contains(q) <==> old(v)@.contains(q) || w@.contains(q),
        old(v)@.no_duplicates() ==> final(v)@.no_duplicates(),
{
    let mut i: usize = 0;
    while i < w.len()
        invariant
            0 <= i <= w@.len(),
            old(v)@.no_duplicates() ==> v@.no_duplicates(),
            forall|q: Point| #[trigger] v@.contains(q) <==> old(v)@.contains(q) || in_prefix(w@, i as int, q),
        decreases w@.len() - i,
    {
        insert_point(v, w[i]);
        proof {
            assert forall|q: Point| #[trigger] in_prefix(w@, i + 1, q) <==> in_prefix(w@, i as int, q) || q == w@[i as int] by {
                if q == w@[i as int] {
                    assert(w@[i as int] == q);
                }
            }
        }
        i = i + 1;
    }
}

/// `v` without `p`.
pub(crate) fn remove_point(v: &mut Vec<Point>, p: Point)
    ensures
        forall|q: Point| #[trigger] final(v)@.contains(q) <==> old(v)@.contains(q) && q != p,
{
    let mut kept: Vec<Point> = Vec::new();
    let mut i: usize = 0;
    while i < v.len()
        invariant
            0 <= i <= v@.len(),
            forall|q: Point| #[trigger] kept@.contains(q) <==> (in_prefix(v@, i as int, q) && q != p),
        decreases v@.len() - i,
    {
        let q = v[i];
        proof {
            assert forall|r: Point| #[trigger] in_prefix(v@, i + 1, r) <==> in_prefix(v@, i as int, r) || r == v@[i as int] by {
                if r == v@[i as int] {
                    assert(v@[i as int] == r);
                }
            }
        }
        if !(q.0 == p.0 && q.1 == p.1) {
            insert_point(&mut kept, q);
        }
        i = i + 1;
    }
    *v = kept;
}

/// Adds `q` to `v` when `cond` holds.
pub(crate) fn push_if(v: &mut Vec<Point>, q: Point, cond: bool)
    ensures
        forall|r: Point| #[trigger] final(v)@.contains(r) <==> old(v)@.contains(r) || (cond && r == q),
        old(v)@.no_duplicates() ==> final(v)@.no_duplicates(),
{
    if cond {
        insert_point(v, q);
    }
}

/// A copy of a list of squares.
pub(crate) fn copy_points(v: &Vec<Point>) -> (c: Vec<Point>)
    ensures
        c@ == v@,
{
    let mut c: Vec<Point> = Vec::new();
    let mut i: usize = 0;
    while i < v.len()
        invariant
            0 <= i <= v@.len(),
            c@ == v@.subrange(0, i as int),
        decreases v@.len() - i,
    {
        c.push(v[i]);
        i = i + 1;
    }
    c
}

} // verus!
