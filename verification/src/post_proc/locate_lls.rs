//! Finding the stretch of a closed contour that lies inside a sector.
use crate::Idx2d;
use vstd::prelude::*;

verus! {

/// The largest coordinate of a vertex whose polygon can be told clockwise.
pub const MAX_VERTEX: usize = 0x7fff_ffff;

/// The cross product of two vertices.
pub open spec fn cross(a: Idx2d, b: Idx2d) -> int {
    a.0 * b.1 - b.0 * a.1
}

/// The sum of the cross products of the first `n` edges of a polygon; the
/// edge from the last vertex back to the first is none of them.
pub open spec fn shoelace(circle: Seq<Idx2d>, n: int) -> int
    decreases n,
{
    if n <= 0 {
        0
    } else {
        shoelace(circle, n - 1) + cross(circle[n - 1], circle[n])
    }
}

/// The cross product of two vertices fits in 64 bits.
proof fn lemma_cross_bounds(a: Idx2d, b: Idx2d)
    requires
        a.0 <= MAX_VERTEX,
        a.1 <= MAX_VERTEX,
        b.0 <= MAX_VERTEX,
        b.1 <= MAX_VERTEX,
    ensures
        0 <= a.0 * b.1 <= 0x3fff_ffff_0000_0001,
        0 <= b.0 * a.1 <= 0x3fff_ffff_0000_0001,
        -0x3fff_ffff_0000_0001 <= cross(a, b) <= 0x3fff_ffff_0000_0001,
{
    assert(0 <= a.0 * b.1 <= 0x7fff_ffff * 0x7fff_ffff) by (nonlinear_arith)
        requires
            0 <= a.0 <= 0x7fff_ffff,
            0 <= b.1 <= 0x7fff_ffff,
    ;
    assert(0 <= b.0 * a.1 <= 0x7fff_ffff * 0x7fff_ffff) by (nonlinear_arith)
        requires
            0 <= b.0 <= 0x7fff_ffff,
            0 <= a.1 <= 0x7fff_ffff,
    ;
}

/// Whether the vertices of a simple polygon are listed clockwise: the sum
/// of the cross products of its edges, without the edge that closes it, is
/// negative.
pub fn is_clockwise_polygon(circle: &[Idx2d]) -> (r: bool)
    requires
        circle@.len() > 2,
        forall|i: int|
            0 <= i < circle@.len() ==> (#[trigger] circle@[i]).0 <= MAX_VERTEX && circle@[i].1
                <= MAX_VERTEX,
    ensures
        r == (shoelace(circle@, circle@.len() - 1) < 0),
{
    let mut sum: i128 = 0;
    let mut i: usize = 1;
    while i < circle.len()
        invariant
            1 <= i <= circle@.len(),
            forall|i: int|
                0 <= i < circle@.len() ==> (#[trigger] circle@[i]).0 <= MAX_VERTEX && circle@[i].1
                    <= MAX_VERTEX,
            sum == shoelace(circle@, i - 1),
            -(i - 1) * 0x3fff_ffff_0000_0001 <= sum <= (i - 1) * 0x3fff_ffff_0000_0001,
        decreases circle@.len() - i,
    {
        let (x1, y1) = circle[i - 1];
        let (x2, y2) = circle[i];
        proof {
            lemma_cross_bounds(circle@[i - 1], circle@[i as int]);
            assert((i - 1) * 0x3fff_ffff_0000_0001 <= 0xffff_ffff_ffff_ffff * 0x3fff_ffff_0000_0001)
                by (nonlinear_arith)
                requires
                    0 <= i - 1 <= 0xffff_ffff_ffff_ffff,
            ;
        }
        let term: i128 = (x1 as i128) * (y2 as i128) - (x2 as i128) * (y1 as i128);
        sum = sum + term;
        i += 1;
    }
    sum < 0
}

/// The longest stretch found so far and the stretch that is being followed.
pub struct Ring {
    /// Where the longest stretch starts.
    pub max_start: usize,
    /// How long the longest stretch is.
    pub max_len: usize,
    /// Where the stretch that is being followed starts.
    pub cur_start: usize,
    /// How long the stretch that is being followed is; zero when none is followed.
    pub cur_len: usize,
}

/// Follows the points of a closed contour and remembers the longest
/// stretch of them that lay inside a sector.
#[derive(Clone, Debug)]
pub struct RingState {
    max_start: usize,
    max_len: usize,
    cur_start: usize,
    cur_len: usize,
}

impl View for RingState {
    type V = Ring;

    closed spec fn view(&self) -> Ring {
        Ring {
            max_start: self.max_start,
            max_len: self.max_len,
            cur_start: self.cur_start,
            cur_len: self.cur_len,
        }
    }
}

/// The stretch that is followed once the point `index` was found inside the sector.
pub open spec fn entered(before: Ring, index: usize) -> Ring {
    let (start, len) = if before.cur_len > 0 {
        (before.cur_start, (before.cur_len + 1) as usize)
    } else {
        (index, 1usize)
    };
    if len > before.max_len {
        Ring { max_start: start, max_len: len, cur_start: start, cur_len: len }
    } else {
        Ring { cur_start: start, cur_len: len, ..before }
    }
}

/// The points of a contour, gone round twice.
pub open spec fn twice(raw: Seq<Idx2d>) -> Seq<Idx2d> {
    raw + raw
}

/// The stretch of `len` points from `start` on, as far as two rounds of the contour reach.
pub open spec fn stretch(raw: Seq<Idx2d>, start: usize, len: usize) -> Seq<Idx2d> {
    let end = 2 * raw.len();
    let lo = if start <= end {
        start as int
    } else {
        end as int
    };
    let hi = if start + len <= end {
        start + len
    } else {
        end as int
    };
    twice(raw).subrange(lo, if hi < lo {
        lo
    } else {
        hi
    })
}

impl RingState {
    /// No stretch found, none followed.
    #[inline]
    pub fn new() -> (r: Self)
        ensures
            r@ == (Ring { max_start: 0, max_len: 0, cur_start: 0, cur_len: 0 }),
    {
        RingState { max_start: 0, max_len: 0, cur_start: 0, cur_len: 0 }
    }

    /// Whether a stretch is being followed.
    #[inline]
    pub fn is_on(&self) -> (r: bool)
        ensures
            r == (self@.cur_len > 0),
    {
        self.cur_len > 0
    }

    /// Takes note that the point `index` lies inside the sector.
    #[inline]
    pub fn count_in_sector(&mut self, index: usize)
        requires
            old(self)@.cur_len < usize::MAX,
        ensures
            final(self)@ == entered(old(self)@, index),
    {
        if self.is_on() {
            self.cur_len += 1;
        } else {
            self.cur_start = index;
            self.cur_len = 1;
        }
        self.try_update();
    }

    /// Takes note that a point lies outside the sector.
    #[inline]
    pub fn count_out_sector(&mut self)
        ensures
            final(self)@ == (Ring { cur_len: 0, ..old(self)@ }),
    {
        if self.is_on() {
            self.cur_len = 0;
        }
    }

    /// The points of the longest stretch, taken from the contour `raw`.
    pub fn extract(&self, raw: &[Idx2d]) -> (r: Vec<Idx2d>)
        ensures
            r@ == stretch(raw@, self@.max_start, self@.max_len),
    {
        let n = raw.len();
        let mut out: Vec<Idx2d> = Vec::new();
        let end: u128 = 2 * (n as u128);
        let start = self.max_start as u128;
        if start >= end {
            proof {
                assert(out@ =~= stretch(raw@, self@.max_start, self@.max_len));
            }
            return out;
        }
        let ghost ring = twice(raw@);
        let mut k: usize = 0;
        while k < self.max_len && start + (k as u128) < end
            invariant
                n == raw@.len(),
                n > 0,
                end == 2 * n,
                start == self@.max_start,
                start < end,
                ring == twice(raw@),
                0 <= k <= self@.max_len,
                start + k <= end,
                out@ == ring.subrange(start as int, start + k),
            decreases self@.max_len - k,
        {
            let at = start + (k as u128);
            let point = if at < n as u128 {
                raw[at as usize]
            } else {
                raw[(at - n as u128) as usize]
            };
            proof {
                assert(point == ring[at as int]);
                assert(ring.subrange(start as int, start + k + 1) =~= ring.subrange(
                    start as int,
                    start + k,
                ).push(point));
            }
            out.push(point);
            k += 1;
        }
        proof {
            assert(out@ =~= stretch(raw@, self@.max_start, self@.max_len));
        }
        out
    }

    #[inline]
    fn try_update(&mut self)
        ensures
            final(self)@ == (if old(self)@.cur_len > old(self)@.max_len {
                Ring {
                    max_start: old(self)@.cur_start,
                    max_len: old(self)@.cur_len,
                    ..old(self)@
                }
            } else {
                old(self)@
            }),
    {
        if self.cur_len > self.max_len {
            self.max_start = self.cur_start;
            self.max_len = self.cur_len;
        }
    }
}

/// Whether the `l` flags from `s` on lie among the first `i` and are all set.
pub open spec fn all_inside(flags: Seq<bool>, i: int, s: int, l: int) -> bool {
    0 <= s && 0 <= l && s + l <= i && forall|k: int| s <= k < s + l ==> flags[k]
}

/// Whether `(s, l)` is the longest stretch of set flags among the first
/// `i`, and the first one if several are as long; when no flag is set, it is
/// the empty stretch at the start.
pub open spec fn is_longest(flags: Seq<bool>, i: int, s: int, l: int) -> bool {
    &&& all_inside(flags, i, s, l)
    &&& forall|s2: int, l2: int| #[trigger] all_inside(flags, i, s2, l2) ==> l2 <= l
    &&& forall|s2: int| l > 0 && #[trigger] all_inside(flags, i, s2, l) ==> s <= s2
    &&& l == 0 ==> s == 0
}

/// Whether the first `t` flags are set and the next one, if there is one, is not.
pub open spec fn is_lead(flags: Seq<bool>, t: int) -> bool {
    &&& 0 <= t <= flags.len()
    &&& forall|k: int| 0 <= k < t ==> flags[k]
    &&& t < flags.len() ==> !flags[t]
}

/// What holds of the state of a ring once the first `i` flags were followed.
pub open spec fn followed(flags: Seq<bool>, i: int, ring: Ring) -> bool {
    &&& all_inside(flags, i, i - ring.cur_len, ring.cur_len as int)
    &&& ring.cur_len < i ==> !flags[i - ring.cur_len - 1]
    &&& ring.cur_len > 0 ==> ring.cur_start == i - ring.cur_len
    &&& is_longest(flags, i, ring.max_start as int, ring.max_len as int)
}

/// No two stretches are the longest.
pub proof fn lemma_longest_unique(flags: Seq<bool>, i: int, s: int, l: int, s2: int, l2: int)
    requires
        is_longest(flags, i, s, l),
        is_longest(flags, i, s2, l2),
    ensures
        s == s2,
        l == l2,
{
    assert(all_inside(flags, i, s, l));
    assert(all_inside(flags, i, s2, l2));
}

/// Following one more flag keeps the state of the ring in order.
proof fn lemma_follow(flags: Seq<bool>, i: int, before: Ring, after: Ring)
    requires
        0 <= i < flags.len(),
        i < usize::MAX,
        followed(flags, i, before),
        flags[i] ==> after == entered(before, i as usize),
        !flags[i] ==> after == (Ring { cur_len: 0, ..before }),
    ensures
        followed(flags, i + 1, after),
{
    let s = before.max_start as int;
    let l = before.max_len as int;
    let c = before.cur_len as int;
    assert(all_inside(flags, i, s, l));
    assert(all_inside(flags, i, i - c, c));
    assert(c <= l);
    if flags[i] {
        let c2 = c + 1;
        assert(all_inside(flags, i + 1, i + 1 - c2, c2));
        assert forall|s2: int, l2: int| #[trigger]
            all_inside(flags, i + 1, s2, l2) implies l2 <= after.max_len by {
            if s2 + l2 <= i {
                assert(all_inside(flags, i, s2, l2));
            } else if l2 > c2 {
                assert(flags[i - c - 1]);
            }
        }
        assert forall|s2: int|
            after.max_len > 0 && #[trigger] all_inside(
                flags,
                i + 1,
                s2,
                after.max_len as int,
            ) implies after.max_start <= s2 by {
            if s2 + after.max_len <= i {
                assert(all_inside(flags, i, s2, after.max_len as int));
            }
        }
        assert(all_inside(flags, i + 1, after.max_start as int, after.max_len as int));
    } else {
        assert(all_inside(flags, i + 1, i + 1, 0));
        assert forall|s2: int, l2: int| #[trigger]
            all_inside(flags, i + 1, s2, l2) implies l2 <= l by {
            if s2 + l2 <= i {
                assert(all_inside(flags, i, s2, l2));
            } else if l2 > 0 {
                assert(flags[i]);
            }
        }
        assert forall|s2: int| l > 0 && #[trigger] all_inside(flags, i + 1, s2, l) implies s
            <= s2 by {
            if s2 + l <= i {
                assert(all_inside(flags, i, s2, l));
            } else {
                assert(flags[i]);
            }
        }
        assert(all_inside(flags, i + 1, s, l));
    }
}

/// The longest stretch of the closed contour `circle_surface` whose points
/// are flagged as lying inside, in the order of the contour.
///
/// The contour is gone round once, and on into a second round for as long
/// as its points are flagged; of several stretches that are as long, the
/// first is taken.  A contour of one point yields that point if it is
/// flagged.
pub fn locate_lls(circle_surface: &[Idx2d], inside: &[bool]) -> (r: Vec<Idx2d>)
    requires
        inside@.len() == circle_surface@.len(),
        2 * circle_surface@.len() <= usize::MAX,
    ensures
        circle_surface@.len() == 0 ==> r@.len() == 0,
        circle_surface@.len() == 1 ==> r@ == (if inside@[0] {
            circle_surface@
        } else {
            Seq::<Idx2d>::empty()
        }),
        circle_surface@.len() >= 2 ==> exists|t: int, s: int, l: int|
            is_lead(inside@, t) && #[trigger] is_longest(
                inside@ + inside@,
                circle_surface@.len() + t,
                s,
                l,
            ) && r@ == twice(circle_surface@).subrange(s, s + l),
{
    let n = circle_surface.len();
    if n == 0 {
        return Vec::new();
    }
    if n == 1 {
        let mut out: Vec<Idx2d> = Vec::new();
        if inside[0] {
            out.push(circle_surface[0]);
            proof {
                assert(out@ =~= circle_surface@);
            }
        }
        return out;
    }
    let ghost flags = inside@ + inside@;
    let mut state = RingState::new();
    proof {
        assert(all_inside(flags, 0, 0, 0));
    }
    let mut index: usize = 0;
    while index < n
        invariant
            n == inside@.len(),
            2 * n <= usize::MAX,
            flags == inside@ + inside@,
            0 <= index <= n,
            followed(flags, index as int, state@),
        decreases n - index,
    {
        let ghost before = state@;
        proof {
            assert(all_inside(flags, index as int, index - before.cur_len, before.cur_len as int));
            assert(flags[index as int] == inside@[index as int]);
        }
        if inside[index] {
            state.count_in_sector(index);
        } else {
            state.count_out_sector();
        }
        proof {
            lemma_follow(flags, index as int, before, state@);
        }
        index += 1;
    }
    let mut again: usize = 0;
    while again < n && inside[again]
        invariant
            n == inside@.len(),
            2 * n <= usize::MAX,
            flags == inside@ + inside@,
            0 <= again <= n,
            forall|k: int| 0 <= k < again ==> inside@[k],
            followed(flags, n + again, state@),
        decreases n - again,
    {
        let ghost before = state@;
        proof {
            assert(all_inside(flags, n + again, n + again - before.cur_len, before.cur_len as int));
            assert(flags[n + again] == inside@[again as int]);
        }
        state.count_in_sector(n + again);
        proof {
            lemma_follow(flags, n + again, before, state@);
        }
        again += 1;
    }
    let out = state.extract(circle_surface);
    proof {
        let s = state@.max_start as int;
        let l = state@.max_len as int;
        assert(is_lead(inside@, again as int));
        assert(all_inside(flags, n + again, s, l));
        assert(out@ =~= twice(circle_surface@).subrange(s, s + l));
        assert(is_longest(inside@ + inside@, circle_surface@.len() + again, s, l));
    }
    out
}

} // verus!
