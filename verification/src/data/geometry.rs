//! Axis-aligned neighbourhoods and the order of voxel indices.
use crate::Idx3d;
use crate::data::grid::within;
use vstd::prelude::*;

verus! {

/// The index before `i`; before zero comes `usize::MAX`, which no grid holds.
pub open spec fn step_down(i: usize) -> usize {
    if i == 0 {
        usize::MAX
    } else {
        (i - 1) as usize
    }
}

/// The index after `i`, stopping at `usize::MAX`.
pub open spec fn step_up(i: usize) -> usize {
    if i == usize::MAX {
        usize::MAX
    } else {
        (i + 1) as usize
    }
}

/// `p` and `q` are one step apart along the slice axis.
pub open spec fn adjacent_z(p: Idx3d, q: Idx3d) -> bool {
    q.1 == p.1 && q.2 == p.2 && (q.0 + 1 == p.0 || p.0 + 1 == q.0)
}

/// `p` and `q` are one step apart along the height axis.
pub open spec fn adjacent_h(p: Idx3d, q: Idx3d) -> bool {
    q.0 == p.0 && q.2 == p.2 && (q.1 + 1 == p.1 || p.1 + 1 == q.1)
}

/// `p` and `q` are one step apart along the width axis.
pub open spec fn adjacent_w(p: Idx3d, q: Idx3d) -> bool {
    q.0 == p.0 && q.1 == p.1 && (q.2 + 1 == p.2 || p.2 + 1 == q.2)
}

/// `p` and `q` are one step apart inside a slice.
pub open spec fn adjacent_hw(p: Idx3d, q: Idx3d) -> bool {
    adjacent_h(p, q) || adjacent_w(p, q)
}

/// `p` and `q` are one step apart along one axis.
pub open spec fn adjacent(p: Idx3d, q: Idx3d) -> bool {
    adjacent_z(p, q) || adjacent_hw(p, q)
}

/// The sequence that holds `q` when it lies inside the grid, and nothing otherwise.
pub open spec fn keep(shape: Idx3d, q: Idx3d) -> Seq<Idx3d> {
    if within(shape, q) {
        seq![q]
    } else {
        Seq::empty()
    }
}

/// The neighbours of `p` along the slice axis that lie inside the grid.
pub open spec fn z_neighbours(shape: Idx3d, p: Idx3d) -> Seq<Idx3d> {
    keep(shape, (step_down(p.0), p.1, p.2)) + keep(shape, (step_up(p.0), p.1, p.2))
}

/// The neighbours of `p` inside its slice that lie inside the grid.
pub open spec fn hw_neighbours(shape: Idx3d, p: Idx3d) -> Seq<Idx3d> {
    keep(shape, (p.0, step_down(p.1), p.2)) + keep(shape, (p.0, step_up(p.1), p.2)) + keep(
        shape,
        (p.0, p.1, step_down(p.2)),
    ) + keep(shape, (p.0, p.1, step_up(p.2)))
}

/// The neighbours of `p` along all three axes that lie inside the grid.
pub open spec fn diamond(shape: Idx3d, p: Idx3d) -> Seq<Idx3d> {
    z_neighbours(shape, p) + hw_neighbours(shape, p)
}

/// Order of indices: by slice, then height, then width.
pub open spec fn pos_lt(a: Idx3d, b: Idx3d) -> bool {
    a.0 < b.0 || (a.0 == b.0 && (a.1 < b.1 || (a.1 == b.1 && a.2 < b.2)))
}

/// `m` belongs to `s` and no member of `s` comes before it.
pub open spec fn is_least(s: Set<Idx3d>, m: Idx3d) -> bool {
    s.contains(m) && forall|q: Idx3d| s.contains(q) ==> !pos_lt(q, m)
}

/// The first index of a set in the order of indices.
pub open spec fn least(s: Set<Idx3d>) -> Idx3d {
    choose|m: Idx3d| is_least(s, m)
}

/// A set has at most one least index.
pub proof fn lemma_least_unique(s: Set<Idx3d>, m: Idx3d)
    requires
        is_least(s, m),
    ensures
        least(s) == m,
{
    let l = least(s);
    assert(is_least(s, l));
    assert(!pos_lt(l, m) && !pos_lt(m, l));
}

/// Membership in a concatenation.
pub proof fn lemma_concat_contains(a: Seq<Idx3d>, b: Seq<Idx3d>, q: Idx3d)
    ensures
        (a + b).contains(q) <==> a.contains(q) || b.contains(q),
{
    if a.contains(q) {
        let i = choose|i: int| 0 <= i < a.len() && a[i] == q;
        assert((a + b)[i] == q);
    }
    if b.contains(q) {
        let i = choose|i: int| 0 <= i < b.len() && b[i] == q;
        assert((a + b)[a.len() + i] == q);
    }
    if (a + b).contains(q) {
        let i = choose|i: int| 0 <= i < (a + b).len() && (a + b)[i] == q;
        if i < a.len() {
            assert(a[i] == q);
        } else {
            assert(b[i - a.len()] == q);
        }
    }
}

/// Membership in a sequence of at most one index.
pub proof fn lemma_keep_contains(shape: Idx3d, c: Idx3d, q: Idx3d)
    ensures
        keep(shape, c).contains(q) <==> (q == c && within(shape, c)),
{
    if within(shape, c) {
        assert(keep(shape, c)[0] == c);
    }
}

/// The slice-axis neighbours of a voxel of the grid are the voxels of the
/// grid one step away along that axis.
pub proof fn lemma_z_neighbours(shape: Idx3d, p: Idx3d, q: Idx3d)
    requires
        within(shape, p),
    ensures
        z_neighbours(shape, p).contains(q) <==> (within(shape, q) && adjacent_z(p, q)),
{
    let a = (step_down(p.0), p.1, p.2);
    let b = (step_up(p.0), p.1, p.2);
    lemma_keep_contains(shape, a, q);
    lemma_keep_contains(shape, b, q);
    lemma_concat_contains(keep(shape, a), keep(shape, b), q);
}

/// The in-slice neighbours of a voxel of the grid are the voxels of the grid
/// one step away inside the slice.
pub proof fn lemma_hw_neighbours(shape: Idx3d, p: Idx3d, q: Idx3d)
    requires
        within(shape, p),
    ensures
        hw_neighbours(shape, p).contains(q) <==> (within(shape, q) && adjacent_hw(p, q)),
{
    let a = (p.0, step_down(p.1), p.2);
    let b = (p.0, step_up(p.1), p.2);
    let c = (p.0, p.1, step_down(p.2));
    let d = (p.0, p.1, step_up(p.2));
    lemma_keep_contains(shape, a, q);
    lemma_keep_contains(shape, b, q);
    lemma_keep_contains(shape, c, q);
    lemma_keep_contains(shape, d, q);
    lemma_concat_contains(keep(shape, a), keep(shape, b), q);
    lemma_concat_contains(keep(shape, a) + keep(shape, b), keep(shape, c), q);
    lemma_concat_contains(keep(shape, a) + keep(shape, b) + keep(shape, c), keep(shape, d), q);
}

/// The neighbours of a voxel of the grid are the voxels of the grid one step
/// away along one axis.
pub proof fn lemma_diamond(shape: Idx3d, p: Idx3d, q: Idx3d)
    requires
        within(shape, p),
    ensures
        diamond(shape, p).contains(q) <==> (within(shape, q) && adjacent(p, q)),
{
    lemma_z_neighbours(shape, p, q);
    lemma_hw_neighbours(shape, p, q);
    lemma_concat_contains(z_neighbours(shape, p), hw_neighbours(shape, p), q);
}

/// The index before `i`.
pub(crate) fn before(i: usize) -> (r: usize)
    ensures
        r == step_down(i),
{
    if i == 0 {
        usize::MAX
    } else {
        i - 1
    }
}

/// The index after `i`.
pub(crate) fn after(i: usize) -> (r: usize)
    ensures
        r == step_up(i),
{
    if i == usize::MAX {
        usize::MAX
    } else {
        i + 1
    }
}

/// Whether `a` comes before `b` in the order of indices.
pub(crate) fn comes_before(a: &Idx3d, b: &Idx3d) -> (r: bool)
    ensures
        r == pos_lt(*a, *b),
{
    a.0 < b.0 || (a.0 == b.0 && (a.1 < b.1 || (a.1 == b.1 && a.2 < b.2)))
}

} // verus!
