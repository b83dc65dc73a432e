//! The records that are kept while a volume is peeled.
use crate::Idx3d;
use crate::consts::ElemType;
use crate::data::morph_3d::Idx3dU16;
use crate::data::morph_3d::fits16;
use crate::data::morph_3d::idx3d_to_u16;
use crate::data::morph_3d::idx3du16_to_usize;
use crate::data::morph_3d::widened;
use crate::data::morph_3d::wrap16;
use std::collections::HashMap;
use std::collections::HashSet;
use vstd::arithmetic::div_mod::lemma_fundamental_div_mod;
use vstd::arithmetic::div_mod::lemma_fundamental_div_mod_converse;
use vstd::arithmetic::div_mod::lemma_small_mod;
use vstd::prelude::*;
use vstd::std_specs::iter::IteratorSpec;

verus! {

broadcast use vstd::std_specs::hash::group_hash_axioms;

/// The number under which a 16-bit index is filed.
pub open spec fn key_of(pos: Idx3dU16) -> u64 {
    (pos.0 * 0x1_0000_0000 + pos.1 * 0x1_0000 + pos.2) as u64
}

/// The 16-bit index that is filed under `key`.
pub open spec fn pos_of(key: u64) -> Idx3dU16 {
    (
        ((key / 0x1_0000_0000) % 0x1_0000) as u16,
        ((key / 0x1_0000) % 0x1_0000) as u16,
        (key % 0x1_0000) as u16,
    )
}

/// Whether `key` is the number of some 16-bit index.
pub open spec fn is_key(key: u64) -> bool {
    key < 0x1_0000_0000_0000
}

/// The number under which the voxel `pos` is filed.
pub open spec fn voxel_key(pos: Idx3d) -> u64 {
    ((pos.0 % 0x1_0000) * 0x1_0000_0000 + (pos.1 % 0x1_0000) * 0x1_0000 + pos.2 % 0x1_0000) as u64
}

/// The voxels with 16-bit components that are filed in `keys`.
pub open spec fn filed(keys: Set<u64>) -> Set<Idx3d> {
    Set::new(|p: Idx3d| fits16(p) && keys.contains(voxel_key(p)))
}

/// The classes of the voxels with 16-bit components that are filed in `classes`.
pub open spec fn filed_classes(classes: Map<u64, ElemType>) -> Map<Idx3d, ElemType> {
    Map::new(
        |p: Idx3d| fits16(p) && classes.dom().contains(voxel_key(p)),
        |p: Idx3d| classes[voxel_key(p)],
    )
}

/// The three parts of a number can be read off it again.
pub proof fn lemma_pack(a: int, b: int, c: int)
    requires
        0 <= a < 0x1_0000,
        0 <= b < 0x1_0000,
        0 <= c < 0x1_0000,
    ensures
        ({
            let k = a * 0x1_0000_0000 + b * 0x1_0000 + c;
            &&& 0 <= k < 0x1_0000_0000_0000
            &&& k % 0x1_0000 == c
            &&& (k / 0x1_0000) % 0x1_0000 == b
            &&& (k / 0x1_0000_0000) % 0x1_0000 == a
        }),
{
    let k = a * 0x1_0000_0000 + b * 0x1_0000 + c;
    let m = a * 0x1_0000 + b;
    lemma_fundamental_div_mod_converse(k, 0x1_0000, m, c);
    lemma_fundamental_div_mod_converse(m, 0x1_0000, a, b);
    lemma_fundamental_div_mod_converse(k, 0x1_0000_0000, a, b * 0x1_0000 + c);
    lemma_small_mod(a as nat, 0x1_0000);
}

/// A number is made of the three parts that are read off it.
pub proof fn lemma_unpack(k: int)
    requires
        0 <= k < 0x1_0000_0000_0000,
    ensures
        ((k / 0x1_0000_0000) % 0x1_0000) * 0x1_0000_0000 + ((k / 0x1_0000) % 0x1_0000) * 0x1_0000
            + k % 0x1_0000 == k,
{
    let m = k / 0x1_0000;
    let a = m / 0x1_0000;
    lemma_fundamental_div_mod(k, 0x1_0000);
    lemma_fundamental_div_mod(m, 0x1_0000);
    assert(0 <= m < 0x1_0000_0000);
    assert(0 <= a < 0x1_0000);
    lemma_small_mod(a as nat, 0x1_0000);
    lemma_fundamental_div_mod_converse(k, 0x1_0000_0000, a, (m % 0x1_0000) * 0x1_0000 + k % 0x1_0000);
}

/// Two voxels are filed under the same number exactly when they agree once
/// their components are cut to 16 bits.
pub proof fn lemma_key_injective(p: Idx3d, q: Idx3d)
    ensures
        voxel_key(p) == voxel_key(q) <==> wrap16(p) == wrap16(q),
        is_key(voxel_key(p)),
        fits16(wrap16(p)),
        fits16(p) ==> wrap16(p) == p,
        voxel_key(wrap16(p)) == voxel_key(p),
{
    lemma_pack((p.0 % 0x1_0000) as int, (p.1 % 0x1_0000) as int, (p.2 % 0x1_0000) as int);
    lemma_pack((q.0 % 0x1_0000) as int, (q.1 % 0x1_0000) as int, (q.2 % 0x1_0000) as int);
    let w = wrap16(p);
    lemma_small_mod(w.0 as nat, 0x1_0000);
    lemma_small_mod(w.1 as nat, 0x1_0000);
    lemma_small_mod(w.2 as nat, 0x1_0000);
    if fits16(p) {
        lemma_small_mod(p.0 as nat, 0x1_0000);
        lemma_small_mod(p.1 as nat, 0x1_0000);
        lemma_small_mod(p.2 as nat, 0x1_0000);
    }
}

/// Every number of an index leads back to that index.
pub proof fn lemma_key_round_trip(key: u64)
    requires
        is_key(key),
    ensures
        key_of(pos_of(key)) == key,
        voxel_key(widened(pos_of(key))) == key,
{
    lemma_unpack(key as int);
    let p = widened(pos_of(key));
    lemma_small_mod(p.0 as nat, 0x1_0000);
    lemma_small_mod(p.1 as nat, 0x1_0000);
    lemma_small_mod(p.2 as nat, 0x1_0000);
}

fn pack(pos: Idx3dU16) -> (key: u64)
    ensures
        key == key_of(pos),
        is_key(key),
        pos_of(key) == pos,
{
    proof {
        lemma_pack(pos.0 as int, pos.1 as int, pos.2 as int);
    }
    (pos.0 as u64) * 0x1_0000_0000 + (pos.1 as u64) * 0x1_0000 + (pos.2 as u64)
}

fn unpack(key: u64) -> (pos: Idx3dU16)
    ensures
        pos == pos_of(key),
{
    (
        ((key / 0x1_0000_0000) % 0x1_0000) as u16,
        ((key / 0x1_0000) % 0x1_0000) as u16,
        (key % 0x1_0000) as u16,
    )
}

pub(crate) fn file(pos: &Idx3d) -> (key: u64)
    ensures
        key == voxel_key(*pos),
        is_key(key),
{
    proof {
        lemma_key_injective(*pos, *pos);
    }
    pack(idx3d_to_u16(pos))
}

/// What the records hold: the voxels that were peeled off, the class of
/// every voxel that was looked at, the voxels to take up in this round, and
/// those to take up in the next.
pub struct Memento {
    /// The voxels that were peeled off.
    pub visited: Set<Idx3d>,
    /// The class of each voxel that was looked at.
    pub classes: Map<Idx3d, ElemType>,
    /// The voxels to take up in this round.
    pub current: Set<Idx3d>,
    /// The voxels to take up in the next round.
    pub pending: Set<Idx3d>,
}

/// The records that are kept while a volume is peeled.
pub struct PhantomMemento {
    visited: HashSet<u64>,
    data: HashMap<u64, ElemType>,
    surf1: HashSet<u64>,
    surf2: HashSet<u64>,
}

impl View for PhantomMemento {
    type V = Memento;

    closed spec fn view(&self) -> Memento {
        Memento {
            visited: filed(self.visited@),
            classes: filed_classes(self.data@),
            current: filed(self.surf1@),
            pending: filed(self.surf2@),
        }
    }
}

impl PhantomMemento {
    /// Empty records.
    pub fn new() -> (r: Self)
        ensures
            r@.visited == Set::<Idx3d>::empty(),
            r@.classes == Map::<Idx3d, ElemType>::empty(),
            r@.current == Set::<Idx3d>::empty(),
            r@.pending == Set::<Idx3d>::empty(),
    {
        let r = PhantomMemento {
            visited: HashSet::with_capacity(4096),
            data: HashMap::with_capacity(4096),
            surf1: HashSet::with_capacity(1024),
            surf2: HashSet::with_capacity(1024),
        };
        proof {
            assert(r@.visited =~= Set::<Idx3d>::empty());
            assert(r@.classes =~= Map::<Idx3d, ElemType>::empty());
            assert(r@.current =~= Set::<Idx3d>::empty());
            assert(r@.pending =~= Set::<Idx3d>::empty());
        }
        r
    }

    /// Notes `pos` for this round.  Returns whether it was not noted yet.
    #[inline]
    pub fn push_pos(&mut self, pos: &Idx3d) -> (fresh: bool)
        ensures
            final(self)@ == (Memento {
                current: old(self)@.current.insert(wrap16(*pos)),
                ..old(self)@
            }),
            fresh == !old(self)@.current.contains(wrap16(*pos)),
    {
        proof {
            lemma_insert_filed(self.surf1@, *pos);
        }
        let key = file(pos);
        self.surf1.insert(key)
    }

    /// Hands out the voxels noted for this round, each once, and forgets them.
    pub fn take_positions(&mut self) -> (taken: Vec<Idx3d>)
        ensures
            taken@.no_duplicates(),
            taken@.to_set() == old(self)@.current,
            final(self)@ == (Memento { current: Set::<Idx3d>::empty(), ..old(self)@ }),
    {
        let mut taken: Vec<Idx3d> = Vec::new();
        let ghost keys: Seq<&u64> = self.surf1.iter().remaining();
        for key in it: self.surf1.iter()
            invariant
                it.seq() == keys,
                keys.no_duplicates(),
                taken@.no_duplicates(),
                forall|j: int| 0 <= j < taken@.len() ==> from_key(keys, it.index(), #[trigger] taken@[j]),
                forall|i: int|
                    0 <= i < it.index() && is_key(*#[trigger] keys[i]) ==> taken@.contains(
                        widened(pos_of(*keys[i])),
                    ),
        {
            if *key < 0x1_0000_0000_0000 {
                let pos = idx3du16_to_usize(&unpack(*key));
                proof {
                    let n = it.index();
                    lemma_key_round_trip(*key);
                    if taken@.contains(pos) {
                        let j = choose|j: int| 0 <= j < taken@.len() && taken@[j] == pos;
                        assert(from_key(keys, n, taken@[j]));
                        let i = choose|i: int|
                            0 <= i < n && is_key(*keys[i]) && taken@[j] == widened(
                                pos_of(*keys[i]),
                            );
                        lemma_key_round_trip(*keys[i]);
                        assert(keys[i] == keys[n]);
                    }
                }
                let ghost before = taken@;
                taken.push(pos);
                proof {
                    assert forall|j: int| 0 <= j < taken@.len() implies from_key(
                        keys,
                        it.index() + 1,
                        #[trigger] taken@[j],
                    ) by {
                        if j < before.len() {
                            assert(from_key(keys, it.index() as int, before[j]));
                            let i = choose|i: int|
                                0 <= i < it.index() && is_key(*keys[i]) && before[j] == widened(
                                    pos_of(*keys[i]),
                                );
                            assert(0 <= i < it.index() + 1);
                        } else {
                            assert(is_key(*keys[it.index() as int]));
                        }
                    }
                    assert forall|i: int|
                        0 <= i < it.index() + 1 && is_key(
                            *#[trigger] keys[i],
                        ) implies taken@.contains(widened(pos_of(*keys[i]))) by {
                        if i < it.index() {
                            let j = choose|j: int|
                                0 <= j < before.len() && before[j] == widened(pos_of(*keys[i]));
                            assert(taken@[j] == before[j]);
                        } else {
                            assert(taken@[before.len() as int] == pos);
                        }
                    }
                }
            } else {
                proof {
                    assert forall|j: int| 0 <= j < taken@.len() implies from_key(
                        keys,
                        it.index() + 1,
                        #[trigger] taken@[j],
                    ) by {
                        assert(from_key(keys, it.index() as int, taken@[j]));
                        let i = choose|i: int|
                            0 <= i < it.index() && is_key(*keys[i]) && taken@[j] == widened(
                                pos_of(*keys[i]),
                            );
                        assert(0 <= i < it.index() + 1);
                    }
                }
            }
        }
        proof {
            assert forall|p: Idx3d| taken@.to_set().contains(p) <==> filed(
                self.surf1@,
            ).contains(p) by {
                if taken@.to_set().contains(p) {
                    let j = choose|j: int| 0 <= j < taken@.len() && taken@[j] == p;
                    assert(from_key(keys, keys.len() as int, taken@[j]));
                    let i = choose|i: int|
                        0 <= i < keys.len() && is_key(*keys[i]) && taken@[j] == widened(
                            pos_of(*keys[i]),
                        );
                    lemma_key_round_trip(*keys[i]);
                    assert(keys.unref()[i] == *keys[i]);
                    assert(keys.unref().to_set().contains(*keys[i]));
                }
                if filed(self.surf1@).contains(p) {
                    let k = voxel_key(p);
                    assert(keys.unref().to_set().contains(k));
                    let i = choose|i: int| 0 <= i < keys.unref().len() && keys.unref()[i] == k;
                    lemma_key_injective(p, widened(pos_of(k)));
                    lemma_key_round_trip(k);
                    assert(*keys[i] == k);
                }
            }
            assert(taken@.to_set() =~= filed(self.surf1@));
        }
        self.surf1.clear();
        proof {
            assert(self@.current =~= Set::<Idx3d>::empty());
        }
        taken
    }

    /// Notes `pos` for the next round.  Returns whether it was not noted yet.
    #[inline]
    pub fn push_pos_next(&mut self, pos: &Idx3d) -> (fresh: bool)
        ensures
            final(self)@ == (Memento {
                pending: old(self)@.pending.insert(wrap16(*pos)),
                ..old(self)@
            }),
            fresh == !old(self)@.pending.contains(wrap16(*pos)),
    {
        proof {
            lemma_insert_filed(self.surf2@, *pos);
        }
        let key = file(pos);
        self.surf2.insert(key)
    }

    /// Ends the round: what was noted for the next round is now noted for
    /// this one, and nothing is noted for the next.
    pub fn step(&mut self)
        ensures
            final(self)@ == (Memento {
                current: old(self)@.pending,
                pending: Set::<Idx3d>::empty(),
                ..old(self)@
            }),
    {
        self.surf1.clear();
        std::mem::swap(&mut self.surf1, &mut self.surf2);
        proof {
            assert(self@.pending =~= Set::<Idx3d>::empty());
        }
    }

    /// Records that `pos` is foreground.
    #[inline]
    pub fn set_foreground(&mut self, pos: &Idx3d)
        ensures
            final(self)@ == (Memento {
                classes: old(self)@.classes.insert(wrap16(*pos), ElemType::Foreground),
                ..old(self)@
            }),
    {
        proof {
            lemma_insert_filed_classes(self.data@, *pos, ElemType::Foreground);
        }
        let key = file(pos);
        self.data.insert(key, ElemType::Foreground);
    }

    /// Records that `pos` is background.
    #[inline]
    pub fn set_background(&mut self, pos: &Idx3d)
        ensures
            final(self)@ == (Memento {
                classes: old(self)@.classes.insert(wrap16(*pos), ElemType::Background),
                ..old(self)@
            }),
    {
        proof {
            lemma_insert_filed_classes(self.data@, *pos, ElemType::Background);
        }
        let key = file(pos);
        self.data.insert(key, ElemType::Background);
    }

    /// Whether `pos`, whose class is on record, is foreground.
    #[inline]
    pub fn is_foreground(&self, pos: &Idx3d) -> (r: bool)
        requires
            self@.classes.dom().contains(wrap16(*pos)),
        ensures
            r == (self@.classes[wrap16(*pos)] == ElemType::Foreground),
    {
        !self.is_background(pos)
    }

    /// Whether `pos`, whose class is on record, is background.
    #[inline]
    pub fn is_background(&self, pos: &Idx3d) -> (r: bool)
        requires
            self@.classes.dom().contains(wrap16(*pos)),
        ensures
            r == (self@.classes[wrap16(*pos)] == ElemType::Background),
    {
        match self.get_val(pos) {
            Some(class) => class.is_background(),
            None => false,
        }
    }

    /// The class on record for `pos`, if there is one.
    #[inline]
    pub fn get_val(&self, pos: &Idx3d) -> (r: Option<&ElemType>)
        ensures
            match r {
                Some(class) => self@.classes.dom().contains(wrap16(*pos)) && *class
                    == self@.classes[wrap16(*pos)],
                None => !self@.classes.dom().contains(wrap16(*pos)),
            },
    {
        proof {
            lemma_key_injective(*pos, wrap16(*pos));
        }
        let key = file(pos);
        self.data.get(&key)
    }

    /// Records that `pos` was peeled off.
    #[inline]
    pub fn set_visited(&mut self, pos: &Idx3d)
        ensures
            final(self)@ == (Memento {
                visited: old(self)@.visited.insert(wrap16(*pos)),
                ..old(self)@
            }),
    {
        proof {
            lemma_insert_filed(self.visited@, *pos);
        }
        let key = file(pos);
        self.visited.insert(key);
    }

    /// Whether `pos` was peeled off.
    #[inline]
    pub fn is_visited(&self, pos: &Idx3d) -> (r: bool)
        ensures
            r == self@.visited.contains(wrap16(*pos)),
    {
        proof {
            lemma_key_injective(*pos, wrap16(*pos));
        }
        let key = file(pos);
        self.visited.contains(&key)
    }
}

/// Whether `p` is the voxel of one of the first `n` numbers of `keys`.
spec fn from_key(keys: Seq<&u64>, n: int, p: Idx3d) -> bool {
    exists|i: int| 0 <= i < n && is_key(*keys[i]) && p == widened(pos_of(*keys[i]))
}

/// Filing one more voxel adds the voxel that stands for it.
proof fn lemma_insert_filed(keys: Set<u64>, pos: Idx3d)
    ensures
        filed(keys.insert(voxel_key(pos))) == filed(keys).insert(wrap16(pos)),
        filed(keys).contains(wrap16(pos)) == keys.contains(voxel_key(pos)),
{
    lemma_key_injective(pos, wrap16(pos));
    assert forall|p: Idx3d|
        filed(keys.insert(voxel_key(pos))).contains(p) <==> filed(keys).insert(
            wrap16(pos),
        ).contains(p) by {
        lemma_key_injective(p, pos);
    }
    assert(filed(keys.insert(voxel_key(pos))) =~= filed(keys).insert(wrap16(pos)));
}

/// Filing the class of one more voxel records it for the voxel that stands for it.
proof fn lemma_insert_filed_classes(classes: Map<u64, ElemType>, pos: Idx3d, class: ElemType)
    ensures
        filed_classes(classes.insert(voxel_key(pos), class)) == filed_classes(classes).insert(
            wrap16(pos),
            class,
        ),
{
    lemma_key_injective(pos, wrap16(pos));
    let a = filed_classes(classes.insert(voxel_key(pos), class));
    let b = filed_classes(classes).insert(wrap16(pos), class);
    assert forall|p: Idx3d| a.dom().contains(p) <==> b.dom().contains(p) by {
        lemma_key_injective(p, pos);
    }
    assert forall|p: Idx3d| a.dom().contains(p) implies a[p] == b[p] by {
        lemma_key_injective(p, pos);
    }
    assert(a =~= b);
}

} // verus!
