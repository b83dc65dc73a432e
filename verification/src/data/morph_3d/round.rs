//! One round of peeling, carried out on the records.
use crate::Idx3d;
use crate::consts::ElemType;
use crate::data::CtLabel;
use crate::data::Volume;
use crate::data::geometry::adjacent;
use crate::data::geometry::adjacent_hw;
use crate::data::geometry::adjacent_z;
use crate::data::geometry::comes_before;
use crate::data::geometry::is_least;
use crate::data::geometry::least;
use crate::data::geometry::lemma_diamond;
use crate::data::geometry::lemma_hw_neighbours;
use crate::data::geometry::lemma_least_unique;
use crate::data::geometry::lemma_z_neighbours;
use crate::data::geometry::pos_lt;
use crate::data::lists::hit;
use crate::data::lists::lemma_hit_all;
use crate::data::lists::lemma_hit_step;
use crate::data::lists::lemma_push_grows;
use crate::data::morph_3d::fits16;
use crate::data::morph_3d::phantom::Memento;
use crate::data::morph_3d::phantom::PhantomMemento;
use crate::data::morph_3d::wrap16;
use vstd::prelude::*;

verus! {

/// What looking around a voxel that was just peeled off adds to the
/// records: its neighbours that are still there are noted for the next round.
pub open spec fn notes(vol: Volume, before: Memento, after: Memento, pos: Idx3d) -> bool {
    &&& after.visited == before.visited
    &&& after.classes == before.classes
    &&& after.current == before.current
    &&& forall|p: Idx3d|
        #![trigger after.pending.contains(p)]
        #![trigger before.pending.contains(p)]
        #![trigger adjacent(pos, p)]
        after.pending.contains(p) <==> before.pending.contains(p) || (vol.has(p) && adjacent(
            pos,
            p,
        ) && !before.visited.contains(p) && before.classes.dom().contains(p) && before.classes[p]
            == ElemType::Foreground)
}

/// Whether a round takes the voxel `p` off once it comes up as a candidate.
pub open spec fn taken_off(
    vol: Volume,
    remaining: Set<Idx3d>,
    full: bool,
    along_z: bool,
    p: Idx3d,
) -> bool {
    remaining.contains(p) && (full || !vol.shielded(remaining, p, along_z))
}

/// Whether `p` is next to one of the voxels of `eroded`.
pub open spec fn next_to(eroded: Seq<Idx3d>, p: Idx3d) -> bool {
    exists|g: Idx3d| eroded.contains(g) && adjacent(g, p)
}

/// What holds of the records and of the candidates when a round begins.
pub open spec fn ready(vol: Volume, remaining: Set<Idx3d>, start: Memento, taken: Seq<Idx3d>) -> bool {
    &&& vol.wf()
    &&& vol.peeled_off(start.visited, remaining)
    &&& vol.classified(start.classes, remaining)
    &&& forall|j: int| 0 <= j < taken.len() ==> vol.fg(#[trigger] taken[j])
    &&& taken.no_duplicates()
    &&& start.pending =~= Set::<Idx3d>::empty()
    &&& remaining.subset_of(vol.foreground())
}

/// What holds of the records once the first `n` candidates of a round have
/// come up: `eroded` lists those of them that were taken off, which are
/// on record as peeled off; the others that are still there are noted for
/// the next round, and so is every voxel still there that lost a neighbour,
/// unless it was taken off itself.
pub open spec fn sweeping(
    vol: Volume,
    remaining: Set<Idx3d>,
    full: bool,
    along_z: bool,
    start: Memento,
    now: Memento,
    taken: Seq<Idx3d>,
    n: int,
    eroded: Seq<Idx3d>,
) -> bool {
    &&& now.classes == start.classes
    &&& now.current == start.current
    &&& eroded.no_duplicates()
    &&& forall|p: Idx3d|
        #![trigger eroded.contains(p)]
        #![trigger hit(taken, n, p)]
        eroded.contains(p) <==> hit(taken, n, p) && taken_off(vol, remaining, full, along_z, p)
    &&& forall|p: Idx3d|
        #![trigger now.visited.contains(p)]
        #![trigger start.visited.contains(p)]
        #![trigger eroded.contains(p)]
        now.visited.contains(p) <==> start.visited.contains(p) || eroded.contains(p)
    &&& forall|p: Idx3d| #[trigger]
        now.pending.contains(p) ==> remaining.contains(p) && ((hit(taken, n, p) && !taken_off(
            vol,
            remaining,
            full,
            along_z,
            p,
        )) || next_to(eroded, p))
    &&& forall|p: Idx3d| #[trigger]
        hit(taken, n, p) && remaining.contains(p) && !taken_off(vol, remaining, full, along_z, p)
            ==> now.pending.contains(p)
    &&& forall|g: Idx3d, p: Idx3d|
        #![trigger eroded.contains(g), adjacent(g, p)]
        eroded.contains(g) && adjacent(g, p) && remaining.contains(p) ==> now.pending.contains(p)
            || now.visited.contains(p)
}

/// A candidate is on record as peeled off exactly when it is no longer there.
proof fn lemma_candidate(
    vol: Volume,
    remaining: Set<Idx3d>,
    full: bool,
    along_z: bool,
    start: Memento,
    now: Memento,
    taken: Seq<Idx3d>,
    n: int,
    eroded: Seq<Idx3d>,
)
    requires
        ready(vol, remaining, start, taken),
        sweeping(vol, remaining, full, along_z, start, now, taken, n, eroded),
        0 <= n < taken.len(),
    ensures
        now.visited.contains(taken[n]) <==> !remaining.contains(taken[n]),
        !eroded.contains(taken[n]),
        !hit(taken, n, taken[n]),
        vol.fg(taken[n]),
{
    let c = taken[n];
    if hit(taken, n, c) {
        let j = choose|j: int| 0 <= j < n && taken[j] == c;
        assert(taken[j] == taken[n]);
    }
    assert(vol.fg(c));
    assert(start.visited.contains(c) <==> vol.fg(c) && !remaining.contains(c));
    assert(now.visited.contains(c) <==> start.visited.contains(c) || eroded.contains(c));
}

/// Taking up one more candidate keeps the records of the round in order.
proof fn lemma_sweep_step(
    vol: Volume,
    remaining: Set<Idx3d>,
    full: bool,
    along_z: bool,
    start: Memento,
    before: Memento,
    mid: Memento,
    after: Memento,
    taken: Seq<Idx3d>,
    n: int,
    eroded_before: Seq<Idx3d>,
    eroded_after: Seq<Idx3d>,
)
    requires
        ready(vol, remaining, start, taken),
        sweeping(vol, remaining, full, along_z, start, before, taken, n, eroded_before),
        0 <= n < taken.len(),
        before.visited.contains(taken[n]) ==> after == before && eroded_after == eroded_before,
        !before.visited.contains(taken[n]) && !taken_off(
            vol,
            remaining,
            full,
            along_z,
            taken[n],
        ) ==> after == (Memento { pending: before.pending.insert(taken[n]), ..before })
            && eroded_after == eroded_before,
        !before.visited.contains(taken[n]) && taken_off(vol, remaining, full, along_z, taken[n])
            ==> mid == (Memento { visited: before.visited.insert(taken[n]), ..before }) && notes(
            vol,
            mid,
            after,
            taken[n],
        ) && eroded_after == eroded_before.push(taken[n]),
    ensures
        sweeping(vol, remaining, full, along_z, start, after, taken, n + 1, eroded_after),
{
    let c = taken[n];
    lemma_candidate(vol, remaining, full, along_z, start, before, taken, n, eroded_before);
    let gone = !before.visited.contains(c) && taken_off(vol, remaining, full, along_z, c);
    assert forall|p: Idx3d| hit(taken, n + 1, p) <==> hit(taken, n, p) || p == c by {
        lemma_hit_step(taken, n, p);
    }
    if gone {
        lemma_push_grows(eroded_before, c);
    }
    assert forall|p: Idx3d| eroded_after.contains(p) <==> eroded_before.contains(p) || (gone && p
        == c) by {}
    assert forall|p: Idx3d|
        #![trigger eroded_after.contains(p)]
        #![trigger hit(taken, n + 1, p)]
        eroded_after.contains(p) <==> hit(taken, n + 1, p) && taken_off(
            vol,
            remaining,
            full,
            along_z,
            p,
        ) by {
        assert(eroded_before.contains(p) <==> hit(taken, n, p) && taken_off(
            vol,
            remaining,
            full,
            along_z,
            p,
        ));
    }
    assert forall|p: Idx3d|
        #![trigger after.visited.contains(p)]
        #![trigger start.visited.contains(p)]
        #![trigger eroded_after.contains(p)]
        after.visited.contains(p) <==> start.visited.contains(p) || eroded_after.contains(p) by {
        assert(before.visited.contains(p) <==> start.visited.contains(p) || eroded_before.contains(
            p,
        ));
    }
    assert forall|p: Idx3d| next_to(eroded_before, p) implies next_to(eroded_after, p) by {
        let g = choose|g: Idx3d| eroded_before.contains(g) && adjacent(g, p);
        assert(eroded_after.contains(g) && adjacent(g, p));
    }
    assert forall|p: Idx3d| #[trigger] after.pending.contains(p) implies remaining.contains(p) && (
    (hit(taken, n + 1, p) && !taken_off(vol, remaining, full, along_z, p)) || next_to(
        eroded_after,
        p,
    )) by {
        if before.pending.contains(p) {
            assert(remaining.contains(p));
        } else if gone {
            assert(vol.has(p) && adjacent(c, p) && mid.classes[p] == ElemType::Foreground);
            assert(eroded_after.contains(c) && adjacent(c, p));
            assert(next_to(eroded_after, p));
        } else {
            assert(p == c);
        }
    }
    assert forall|p: Idx3d| #[trigger]
        hit(taken, n + 1, p) && remaining.contains(p) && !taken_off(
            vol,
            remaining,
            full,
            along_z,
            p,
        ) implies after.pending.contains(p) by {
        if p != c {
            assert(hit(taken, n, p));
            assert(before.pending.contains(p));
        }
    }
    assert forall|g: Idx3d, p: Idx3d|
        #![trigger eroded_after.contains(g), adjacent(g, p)]
        eroded_after.contains(g) && adjacent(g, p) && remaining.contains(
            p,
        ) implies after.pending.contains(p) || after.visited.contains(p) by {
        if eroded_before.contains(g) {
            assert(before.pending.contains(p) || before.visited.contains(p));
        } else {
            assert(g == c);
            assert(vol.fg(p));
            assert(vol.has(p));
            assert(mid.classes.dom().contains(p) && mid.classes[p] == ElemType::Foreground);
        }
    }
}

/// What a round makes of its candidates: the voxels taken off are those
/// that the round is to take off, and the voxels noted for the next round
/// that are left after it are those that it lays bare.
proof fn lemma_sweep_done(
    vol: Volume,
    remaining: Set<Idx3d>,
    frontier: Set<Idx3d>,
    full: bool,
    along_z: bool,
    start: Memento,
    now: Memento,
    taken: Seq<Idx3d>,
    eroded: Seq<Idx3d>,
)
    requires
        ready(vol, remaining, start, taken),
        sweeping(vol, remaining, full, along_z, start, now, taken, taken.len() as int, eroded),
        forall|p: Idx3d|
            #![trigger frontier.contains(p)]
            #![trigger taken.contains(p)]
            frontier.contains(p) <==> taken.contains(p) && remaining.contains(p),
    ensures
        eroded.to_set() =~= vol.peeled(remaining, frontier, full, along_z),
        eroded.to_set().len() == eroded.len(),
        forall|p: Idx3d| #[trigger] now.pending.contains(p) ==> vol.fg(p),
        forall|p: Idx3d|
            #![trigger now.pending.contains(p)]
            #![trigger Volume::exposed(remaining, frontier, eroded.to_set()).contains(p)]
            Volume::exposed(remaining, frontier, eroded.to_set()).contains(p)
                <==> now.pending.contains(p) && remaining.contains(p) && !eroded.contains(p),
{
    let gone = eroded.to_set();
    assert forall|p: Idx3d| hit(taken, taken.len() as int, p) <==> taken.contains(p) by {
        lemma_hit_all(taken, p);
    }
    assert forall|p: Idx3d| gone.contains(p) <==> vol.peeled(
        remaining,
        frontier,
        full,
        along_z,
    ).contains(p) by {
        assert(eroded.contains(p) <==> hit(taken, taken.len() as int, p) && taken_off(
            vol,
            remaining,
            full,
            along_z,
            p,
        ));
    }
    eroded.unique_seq_to_set();
    assert forall|p: Idx3d| #[trigger] now.pending.contains(p) implies vol.fg(p) by {
        assert(remaining.contains(p));
        assert(vol.foreground().contains(p));
    }
    assert forall|p: Idx3d|
        #![trigger now.pending.contains(p)]
        #![trigger Volume::exposed(remaining, frontier, gone).contains(p)]
        Volume::exposed(remaining, frontier, gone).contains(p) <==> now.pending.contains(p)
            && remaining.contains(p) && !eroded.contains(p) by {
        if Volume::exposed(remaining, frontier, gone).contains(p) {
            if frontier.contains(p) {
                assert(hit(taken, taken.len() as int, p));
                assert(!taken_off(vol, remaining, full, along_z, p));
                assert(now.pending.contains(p));
            } else {
                let q = choose|q: Idx3d| gone.contains(q) && adjacent(q, p);
                assert(eroded.contains(q) && adjacent(q, p));
                assert(now.pending.contains(p) || now.visited.contains(p));
                assert(vol.foreground().contains(p));
                assert(!start.visited.contains(p));
            }
        }
        if now.pending.contains(p) && remaining.contains(p) && !eroded.contains(p) {
            if next_to(eroded, p) {
                let g = choose|g: Idx3d| eroded.contains(g) && adjacent(g, p);
                assert(gone.contains(g) && adjacent(g, p));
            } else {
                assert(hit(taken, taken.len() as int, p));
                assert(frontier.contains(p));
            }
        }
    }
}

/// What taking the voxels of `eroded` off the record of classes does.
pub open spec fn wipes(before: Memento, after: Memento, eroded: Seq<Idx3d>, n: int) -> bool {
    &&& after.visited == before.visited
    &&& after.current == before.current
    &&& after.pending == before.pending
    &&& forall|p: Idx3d|
        #![trigger after.classes.dom().contains(p)]
        #![trigger before.classes.dom().contains(p)]
        after.classes.dom().contains(p) <==> before.classes.dom().contains(p) || hit(eroded, n, p)
    &&& forall|p: Idx3d|
        #![trigger after.classes[p]]
        #![trigger before.classes[p]]
        after.classes[p] == (if hit(eroded, n, p) {
            ElemType::Background
        } else {
            before.classes[p]
        })
}

/// After a round that did not end the peeling, the records stand for the
/// state before the next round.
proof fn lemma_round_tracks(
    vol: Volume,
    remaining: Set<Idx3d>,
    frontier: Set<Idx3d>,
    full: bool,
    along_z: bool,
    start: Memento,
    swept: Memento,
    wiped: Memento,
    stepped: Memento,
    taken: Seq<Idx3d>,
    eroded: Seq<Idx3d>,
)
    requires
        ready(vol, remaining, start, taken),
        sweeping(vol, remaining, full, along_z, start, swept, taken, taken.len() as int, eroded),
        start.current =~= Set::<Idx3d>::empty(),
        forall|p: Idx3d|
            #![trigger frontier.contains(p)]
            #![trigger taken.contains(p)]
            frontier.contains(p) <==> taken.contains(p) && remaining.contains(p),
        wipes(swept, wiped, eroded, eroded.len() as int),
        stepped == (Memento {
            current: wiped.pending,
            pending: Set::<Idx3d>::empty(),
            ..wiped
        }),
    ensures
        vol.tracks(
            stepped,
            remaining.difference(eroded.to_set()),
            Volume::exposed(remaining, frontier, eroded.to_set()),
        ),
{
    let gone = eroded.to_set();
    let left = remaining.difference(gone);
    let bare = Volume::exposed(remaining, frontier, gone);
    lemma_sweep_done(vol, remaining, frontier, full, along_z, start, swept, taken, eroded);
    assert forall|p: Idx3d| hit(eroded, eroded.len() as int, p) <==> eroded.contains(p) by {
        lemma_hit_all(eroded, p);
    }
    assert forall|p: Idx3d| eroded.contains(p) implies remaining.contains(p) && vol.fg(p) by {
        assert(taken_off(vol, remaining, full, along_z, p));
        assert(vol.foreground().contains(p));
    }
    assert(vol.peeled_off(stepped.visited, left)) by {
        assert forall|p: Idx3d|
            #![trigger stepped.visited.contains(p)]
            #![trigger vol.fg(p)]
            #![trigger left.contains(p)]
            stepped.visited.contains(p) <==> vol.fg(p) && !left.contains(p) by {
            assert(swept.visited.contains(p) <==> start.visited.contains(p) || eroded.contains(p));
            assert(start.visited.contains(p) <==> vol.fg(p) && !remaining.contains(p));
        }
    }
    assert(vol.classified(stepped.classes, left)) by {
        assert forall|p: Idx3d|
            #![trigger stepped.classes.dom().contains(p)]
            #![trigger vol.fg(p)]
            vol.fg(p) implies stepped.classes.dom().contains(p) && (stepped.classes[p]
            == ElemType::Foreground <==> left.contains(p)) by {
            assert(start.classes.dom().contains(p));
            assert(swept.classes.dom().contains(p));
            assert(wiped.classes[p] == (if hit(eroded, eroded.len() as int, p) {
                ElemType::Background
            } else {
                swept.classes[p]
            }));
        }
        assert forall|p: Idx3d, q: Idx3d|
            #![trigger adjacent(q, p)]
            vol.fg(q) && vol.has(p) && adjacent(q, p) implies stepped.classes.dom().contains(p)
            && (stepped.classes[p] == ElemType::Foreground <==> left.contains(p)) by {
            assert(start.classes.dom().contains(p));
            assert(swept.classes.dom().contains(p));
            assert(wiped.classes[p] == (if hit(eroded, eroded.len() as int, p) {
                ElemType::Background
            } else {
                swept.classes[p]
            }));
        }
    }
    assert forall|p: Idx3d| #[trigger] stepped.current.contains(p) implies vol.fg(p) by {
        assert(swept.pending.contains(p));
    }
    assert forall|p: Idx3d|
        #![trigger bare.contains(p)]
        #![trigger stepped.current.contains(p)]
        bare.contains(p) <==> stepped.current.contains(p) && left.contains(p) by {
        assert(bare.contains(p) <==> swept.pending.contains(p) && remaining.contains(p)
            && !eroded.contains(p));
    }
}

/// How a round ended.
pub enum Turn {
    /// The round took off all that was left; the peeling is over and this is the centre.
    Center(Idx3d),
    /// A full round found nothing to take off.
    Stuck,
    /// The round took off this many voxels and left others.
    Peeled(usize),
}

/// What a round owes: it ends the peeling exactly when it takes off all that
/// is left, it gives up exactly when it is full and takes off nothing, and
/// otherwise it leaves the records in the state before the next round.
pub open spec fn turned(
    vol: Volume,
    remaining: Set<Idx3d>,
    frontier: Set<Idx3d>,
    full: bool,
    along_z: bool,
    after: Memento,
    turn: Turn,
) -> bool {
    let gone = vol.peeled(remaining, frontier, full, along_z);
    match turn {
        Turn::Center(c) => gone.len() == remaining.len() && c == least(gone) && vol.fg(c),
        Turn::Stuck => gone.len() != remaining.len() && full && gone.len() == 0,
        Turn::Peeled(n) => n == gone.len() && gone.len() != remaining.len() && !(full
            && gone.len() == 0) && vol.tracks(
            after,
            remaining.difference(gone),
            Volume::exposed(remaining, frontier, gone),
        ),
    }
}

impl CtLabel {
    /// Carries out one round: takes the candidates off the records, takes
    /// off those that the round is to take off, and, unless that ends the
    /// peeling, records them as background and passes on to the next round.
    pub(crate) fn erode_round(
        &self,
        db: &mut PhantomMemento,
        vox_cnt: u64,
        full: bool,
        along_z: bool,
        Ghost(remaining): Ghost<Set<Idx3d>>,
        Ghost(frontier): Ghost<Set<Idx3d>>,
    ) -> (turn: Turn)
        requires
            self@.tracks(old(db)@, remaining, frontier),
            remaining.finite(),
            remaining.subset_of(self@.foreground()),
            vox_cnt == remaining.len(),
            vox_cnt >= 1,
        ensures
            turned(self@, remaining, frontier, full, along_z, final(db)@, turn),
    {
        let ghost vol = self@;
        let ghost origin = db@;
        let _ = self.shape();
        let taken = db.take_positions();
        let ghost start = db@;
        proof {
            assert forall|j: int| 0 <= j < taken@.len() implies vol.fg(#[trigger] taken@[j]) by {
                assert(taken@.to_set().contains(taken@[j]));
                assert(origin.current.contains(taken@[j]));
            }
            assert forall|p: Idx3d|
                #![trigger frontier.contains(p)]
                #![trigger taken@.contains(p)]
                frontier.contains(p) <==> taken@.contains(p) && remaining.contains(p) by {
                assert(taken@.to_set().contains(p) <==> taken@.contains(p));
                assert(frontier.contains(p) <==> origin.current.contains(p) && remaining.contains(
                    p,
                ));
            }
            assert(start.pending =~= Set::<Idx3d>::empty());
        }
        let to_erode = self.sweep(db, &taken, full, along_z, Ghost(remaining));
        let ghost swept = db@;
        proof {
            lemma_sweep_done(
                vol,
                remaining,
                frontier,
                full,
                along_z,
                start,
                swept,
                taken@,
                to_erode@,
            );
        }
        if to_erode.len() as u64 == vox_cnt {
            let center = Self::least_of(&to_erode);
            proof {
                assert(to_erode@.to_set().contains(center));
                assert(to_erode@.contains(center));
                assert(taken_off(vol, remaining, full, along_z, center));
                assert(vol.foreground().contains(center));
            }
            return Turn::Center(center);
        }
        if full && to_erode.len() == 0 {
            return Turn::Stuck;
        }
        proof {
            assert forall|j: int| 0 <= j < to_erode@.len() implies fits16(
                #[trigger] to_erode@[j],
            ) by {
                assert(to_erode@.contains(to_erode@[j]));
                assert(taken_off(vol, remaining, full, along_z, to_erode@[j]));
                assert(vol.foreground().contains(to_erode@[j]));
            }
        }
        Self::commit(db, &to_erode);
        let ghost wiped = db@;
        db.step();
        proof {
            lemma_round_tracks(
                vol,
                remaining,
                frontier,
                full,
                along_z,
                start,
                swept,
                wiped,
                db@,
                taken@,
                to_erode@,
            );
        }
        Turn::Peeled(to_erode.len())
    }

    /// Takes up the candidates of a round one by one.  Returns those that
    /// were taken off.
    pub(crate) fn sweep(
        &self,
        db: &mut PhantomMemento,
        taken: &Vec<Idx3d>,
        full: bool,
        along_z: bool,
        Ghost(remaining): Ghost<Set<Idx3d>>,
    ) -> (to_erode: Vec<Idx3d>)
        requires
            ready(self@, remaining, old(db)@, taken@),
        ensures
            sweeping(
                self@,
                remaining,
                full,
                along_z,
                old(db)@,
                final(db)@,
                taken@,
                taken@.len() as int,
                to_erode@,
            ),
    {
        let ghost vol = self@;
        let ghost start = db@;
        let mut to_erode: Vec<Idx3d> = Vec::with_capacity(64);
        proof {
            assert forall|p: Idx3d| !hit(taken@, 0, p) by {}
            assert forall|p: Idx3d| !to_erode@.contains(p) by {}
        }
        let mut i: usize = 0;
        while i < taken.len()
            invariant
                vol == self@,
                0 <= i <= taken.len(),
                ready(vol, remaining, start, taken@),
                sweeping(vol, remaining, full, along_z, start, db@, taken@, i as int, to_erode@),
            decreases taken.len() - i,
        {
            let fpos = taken[i];
            let ghost before = db@;
            let ghost eroded_before = to_erode@;
            let ghost mut mid = db@;
            proof {
                lemma_candidate(
                    vol,
                    remaining,
                    full,
                    along_z,
                    start,
                    before,
                    taken@,
                    i as int,
                    eroded_before,
                );
                assert(wrap16(fpos) == fpos);
            }
            if !db.is_visited(&fpos) {
                if !full && self.is_shielded(db, fpos, along_z, Ghost(remaining)) {
                    db.push_pos_next(&fpos);
                } else {
                    db.set_visited(&fpos);
                    proof {
                        mid = db@;
                    }
                    to_erode.push(fpos);
                    self.note_neighbours(db, fpos);
                }
            }
            proof {
                lemma_sweep_step(
                    vol,
                    remaining,
                    full,
                    along_z,
                    start,
                    before,
                    mid,
                    db@,
                    taken@,
                    i as int,
                    eroded_before,
                    to_erode@,
                );
            }
            i += 1;
        }
        to_erode
    }

    /// Records every voxel of `eroded` as background.
    pub(crate) fn commit(db: &mut PhantomMemento, eroded: &Vec<Idx3d>)
        requires
            forall|j: int| 0 <= j < eroded.len() ==> fits16(#[trigger] eroded@[j]),
        ensures
            wipes(old(db)@, final(db)@, eroded@, eroded@.len() as int),
    {
        let ghost before = db@;
        proof {
            assert forall|p: Idx3d| !hit(eroded@, 0, p) by {}
        }
        let mut i: usize = 0;
        while i < eroded.len()
            invariant
                0 <= i <= eroded.len(),
                forall|j: int| 0 <= j < eroded.len() ==> fits16(#[trigger] eroded@[j]),
                wipes(before, db@, eroded@, i as int),
            decreases eroded.len() - i,
        {
            let ghost mid = db@;
            let pos = eroded[i];
            db.set_background(&pos);
            proof {
                assert(wrap16(pos) == pos);
                assert forall|p: Idx3d|
                    #![trigger db@.classes.dom().contains(p)]
                    #![trigger before.classes.dom().contains(p)]
                    db@.classes.dom().contains(p) <==> before.classes.dom().contains(p) || hit(
                        eroded@,
                        i + 1,
                        p,
                    ) by {
                    lemma_hit_step(eroded@, i as int, p);
                    assert(mid.classes.dom().contains(p) <==> before.classes.dom().contains(p)
                        || hit(eroded@, i as int, p));
                }
                assert forall|p: Idx3d|
                    #![trigger db@.classes[p]]
                    #![trigger before.classes[p]]
                    db@.classes[p] == (if hit(eroded@, i + 1, p) {
                        ElemType::Background
                    } else {
                        before.classes[p]
                    }) by {
                    lemma_hit_step(eroded@, i as int, p);
                    assert(mid.classes[p] == (if hit(eroded@, i as int, p) {
                        ElemType::Background
                    } else {
                        before.classes[p]
                    }));
                }
            }
            i += 1;
        }
    }

    /// The first of the given voxels in the order of indices.
    pub(crate) fn least_of(voxels: &Vec<Idx3d>) -> (m: Idx3d)
        requires
            voxels@.len() > 0,
        ensures
            is_least(voxels@.to_set(), m),
            m == least(voxels@.to_set()),
    {
        let mut m = voxels[0];
        let mut i: usize = 1;
        while i < voxels.len()
            invariant
                1 <= i <= voxels.len(),
                hit(voxels@, i as int, m),
                forall|j: int| 0 <= j < i ==> !pos_lt(#[trigger] voxels@[j], m),
            decreases voxels.len() - i,
        {
            proof {
                lemma_hit_step(voxels@, i as int, m);
            }
            if comes_before(&voxels[i], &m) {
                m = voxels[i];
                proof {
                    lemma_hit_step(voxels@, i as int, m);
                }
            }
            i += 1;
        }
        proof {
            lemma_hit_all(voxels@, m);
            assert forall|q: Idx3d| voxels@.to_set().contains(q) implies !pos_lt(q, m) by {
                let j = choose|j: int| 0 <= j < voxels@.len() && voxels@[j] == q;
                assert(!pos_lt(voxels@[j], m));
            }
            lemma_least_unique(voxels@.to_set(), m);
        }
        m
    }

    /// Whether every neighbour of `pos` along the finer axis is still there.
    pub(crate) fn is_shielded(
        &self,
        db: &PhantomMemento,
        pos: Idx3d,
        along_z: bool,
        Ghost(remaining): Ghost<Set<Idx3d>>,
    ) -> (r: bool)
        requires
            self@.fg(pos),
            self@.classified(db@.classes, remaining),
        ensures
            r == self@.shielded(remaining, pos, along_z),
    {
        let ghost vol = self@;
        let _ = self.shape();
        let around = if along_z {
            self.neighbours_z(pos)
        } else {
            self.neighbours_hw(pos)
        };
        proof {
            assert forall|q: Idx3d|
                #![trigger around@.contains(q)]
                around@.contains(q) <==> vol.has(q) && (if along_z {
                    adjacent_z(pos, q)
                } else {
                    adjacent_hw(pos, q)
                }) by {
                lemma_z_neighbours(vol.shape, pos, q);
                lemma_hw_neighbours(vol.shape, pos, q);
            }
        }
        let mut all = true;
        let mut i: usize = 0;
        while i < around.len()
            invariant
                vol == self@,
                vol.wf(),
                vol.fg(pos),
                vol.classified(db@.classes, remaining),
                0 <= i <= around.len(),
                forall|q: Idx3d|
                    #![trigger around@.contains(q)]
                    around@.contains(q) ==> vol.has(q) && (if along_z {
                        adjacent_z(pos, q)
                    } else {
                        adjacent_hw(pos, q)
                    }),
                all <==> forall|j: int| 0 <= j < i ==> remaining.contains(#[trigger] around@[j]),
            decreases around.len() - i,
        {
            let n = around[i];
            proof {
                assert(around@.contains(n));
                assert(adjacent(pos, n));
                assert(db@.classes.dom().contains(n));
                assert(wrap16(n) == n);
            }
            if !db.is_foreground(&n) {
                all = false;
            }
            i += 1;
        }
        proof {
            if all {
                assert forall|q: Idx3d|
                    vol.has(q) && (if along_z {
                        adjacent_z(pos, q)
                    } else {
                        adjacent_hw(pos, q)
                    }) implies remaining.contains(q) by {
                    assert(around@.contains(q));
                    let j = choose|j: int| 0 <= j < around@.len() && around@[j] == q;
                    assert(remaining.contains(around@[j]));
                }
            } else {
                let j = choose|j: int| 0 <= j < i && !remaining.contains(#[trigger] around@[j]);
                assert(around@.contains(around@[j]));
            }
        }
        all
    }

    /// Notes for the next round the neighbours of `pos` that are still there.
    pub(crate) fn note_neighbours(&self, db: &mut PhantomMemento, pos: Idx3d)
        requires
            self@.has(pos),
        ensures
            notes(self@, old(db)@, final(db)@, pos),
    {
        let ghost vol = self@;
        let ghost before = db@;
        let _ = self.shape();
        let around = self.diamond_neighbours(pos);
        proof {
            assert forall|q: Idx3d| #[trigger]
                around@.contains(q) <==> vol.has(q) && adjacent(pos, q) by {
                lemma_diamond(vol.shape, pos, q);
            }
        }
        let mut i: usize = 0;
        while i < around.len()
            invariant
                vol == self@,
                vol.wf(),
                0 <= i <= around.len(),
                forall|q: Idx3d| #[trigger] around@.contains(q) ==> vol.has(q),
                db@.visited == before.visited,
                db@.classes == before.classes,
                db@.current == before.current,
                forall|p: Idx3d|
                    #![trigger db@.pending.contains(p)]
                    #![trigger before.pending.contains(p)]
                    #![trigger hit(around@, i as int, p)]
                    db@.pending.contains(p) <==> before.pending.contains(p) || (hit(
                        around@,
                        i as int,
                        p,
                    ) && !before.visited.contains(p) && before.classes.dom().contains(p)
                        && before.classes[p] == ElemType::Foreground),
            decreases around.len() - i,
        {
            let n = around[i];
            let ghost mid = db@;
            proof {
                assert(around@.contains(n));
                assert(wrap16(n) == n);
            }
            if !db.is_visited(&n) {
                let still = match db.get_val(&n) {
                    Some(class) => class.is_foreground(),
                    None => false,
                };
                if still {
                    db.push_pos_next(&n);
                }
            }
            proof {
                assert forall|p: Idx3d|
                    #![trigger db@.pending.contains(p)]
                    #![trigger before.pending.contains(p)]
                    #![trigger hit(around@, i + 1, p)]
                    db@.pending.contains(p) <==> before.pending.contains(p) || (hit(
                        around@,
                        i + 1,
                        p,
                    ) && !before.visited.contains(p) && before.classes.dom().contains(p)
                        && before.classes[p] == ElemType::Foreground) by {
                    lemma_hit_step(around@, i as int, p);
                    assert(mid.pending.contains(p) <==> before.pending.contains(p) || (hit(
                        around@,
                        i as int,
                        p,
                    ) && !before.visited.contains(p) && before.classes.dom().contains(p)
                        && before.classes[p] == ElemType::Foreground));
                }
            }
            i += 1;
        }
        proof {
            assert forall|p: Idx3d|
                #![trigger db@.pending.contains(p)]
                #![trigger before.pending.contains(p)]
                #![trigger adjacent(pos, p)]
                db@.pending.contains(p) <==> before.pending.contains(p) || (vol.has(p)
                    && adjacent(pos, p) && !before.visited.contains(p)
                    && before.classes.dom().contains(p) && before.classes[p]
                    == ElemType::Foreground) by {
                lemma_hit_all(around@, p);
                lemma_diamond(vol.shape, pos, p);
            }
        }
    }
}

} // verus!
