//! Lists of indices and what they hold.
use crate::Idx2d;
use crate::Idx3d;
use vstd::prelude::*;

verus! {

/// Whether `p` is one of the first `n` voxels of `around`.
pub open spec fn hit(around: Seq<Idx3d>, n: int, p: Idx3d) -> bool {
    exists|j: int| 0 <= j < n && around[j] == p
}

/// The first `n + 1` voxels of a sequence are its first `n` voxels and the next one.
pub proof fn lemma_hit_step(around: Seq<Idx3d>, n: int, p: Idx3d)
    requires
        0 <= n < around.len(),
    ensures
        hit(around, n + 1, p) <==> hit(around, n, p) || p == around[n],
{
    if hit(around, n, p) {
        let j = choose|j: int| 0 <= j < n && around[j] == p;
        assert(0 <= j < n + 1 && around[j] == p);
    }
    if p == around[n] {
        assert(0 <= n < n + 1 && around[n] == p);
    }
    if hit(around, n + 1, p) && p != around[n] {
        let j = choose|j: int| 0 <= j < n + 1 && around[j] == p;
        assert(0 <= j < n && around[j] == p);
    }
}

/// A voxel is among all the voxels of a sequence exactly when the sequence holds it.
pub proof fn lemma_hit_all(around: Seq<Idx3d>, p: Idx3d)
    ensures
        hit(around, around.len() as int, p) <==> around.contains(p),
{
    if hit(around, around.len() as int, p) {
        let j = choose|j: int| 0 <= j < around.len() && around[j] == p;
        assert(around[j] == p);
    }
    if around.contains(p) {
        let j = choose|j: int| 0 <= j < around.len() && around[j] == p;
        assert(0 <= j < around.len() as int && around[j] == p);
    }
}

/// A sequence of voxels without repetitions that grows by a new voxel has
/// no repetitions and holds the voxels it held and the new one.
pub proof fn lemma_push_grows(s: Seq<Idx3d>, c: Idx3d)
    requires
        s.no_duplicates(),
        !s.contains(c),
    ensures
        s.push(c).no_duplicates(),
        forall|p: Idx3d| #[trigger] s.push(c).contains(p) <==> s.contains(p) || p == c,
{
    assert forall|p: Idx3d| #[trigger] s.push(c).contains(p) <==> s.contains(p) || p == c by {
        if s.contains(p) {
            let j = choose|j: int| 0 <= j < s.len() && s[j] == p;
            assert(s.push(c)[j] == p);
        }
        if p == c {
            assert(s.push(c)[s.len() as int] == p);
        }
        if s.push(c).contains(p) && p != c {
            let j = choose|j: int| 0 <= j < s.push(c).len() && s.push(c)[j] == p;
            assert(s[j] == p);
        }
    }
    assert forall|i: int, j: int|
        0 <= i < s.push(c).len() && 0 <= j < s.push(c).len() && i != j implies s.push(c)[i]
        != s.push(c)[j] by {
        if i < s.len() {
            assert(s.contains(s[i]));
        }
        if j < s.len() {
            assert(s.contains(s[j]));
        }
    }
}

/// A sequence of pixels without repetitions that grows by a new pixel has
/// no repetitions and holds the pixels it held and the new one.
pub proof fn lemma_push_grows_2d(s: Seq<Idx2d>, c: Idx2d)
    requires
        s.no_duplicates(),
        !s.contains(c),
    ensures
        s.push(c).no_duplicates(),
        forall|p: Idx2d| #[trigger] s.push(c).contains(p) <==> s.contains(p) || p == c,
{
    assert forall|p: Idx2d| #[trigger] s.push(c).contains(p) <==> s.contains(p) || p == c by {
        if s.contains(p) {
            let j = choose|j: int| 0 <= j < s.len() && s[j] == p;
            assert(s.push(c)[j] == p);
        }
        if p == c {
            assert(s.push(c)[s.len() as int] == p);
        }
        if s.push(c).contains(p) && p != c {
            let j = choose|j: int| 0 <= j < s.push(c).len() && s.push(c)[j] == p;
            assert(s[j] == p);
        }
    }
    assert forall|i: int, j: int|
        0 <= i < s.push(c).len() && 0 <= j < s.push(c).len() && i != j implies s.push(c)[i]
        != s.push(c)[j] by {
        if i < s.len() {
            assert(s.contains(s[i]));
        }
        if j < s.len() {
            assert(s.contains(s[j]));
        }
    }
}

} // verus!
