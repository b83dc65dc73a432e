//! The queue of voxels that wait to be taken up, nearest first.
use binary_heap_plus::BinaryHeap;
use binary_heap_plus::MinComparator;
use vstd::multiset::Multiset;
use vstd::prelude::*;

verus! {

/// A voxel with its squared distance in front.
pub type Entry = (u128, usize, usize, usize);

/// Makes `binary_heap_plus::BinaryHeap` known; nothing inside it is seen.
#[verifier::external_type_specification]
#[verifier::external_body]
#[verifier::reject_recursive_types(T)]
#[verifier::reject_recursive_types(C)]
pub struct ExBinaryHeap<T, C>(BinaryHeap<T, C>);

/// Makes `binary_heap_plus::MinComparator` known: the order in which a
/// queue hands out its least entry first.
#[verifier::external_type_specification]
#[verifier::external_body]
pub struct ExMinComparator(MinComparator);

/// The entries that a `binary_heap_plus::BinaryHeap` holds, each as often
/// as it was pushed and not yet popped.
pub uninterp spec fn heap_items(h: BinaryHeap<Entry, MinComparator>) -> Multiset<Entry>;

/// The order of entries: by distance, then by slice, height and width.
pub open spec fn entry_le(a: Entry, b: Entry) -> bool {
    a.0 < b.0 || (a.0 == b.0 && (a.1 < b.1 || (a.1 == b.1 && (a.2 < b.2 || (a.2 == b.2 && a.3
        <= b.3)))))
}

/// Calls `binary_heap_plus::BinaryHeap::new_min`: an empty queue that hands
/// out its least entry first.
#[verifier::external_body]
pub(crate) fn heap_new() -> (h: BinaryHeap<Entry, MinComparator>)
    ensures
        heap_items(h) == Multiset::<Entry>::empty(),
{
    BinaryHeap::new_min()
}

/// Calls `binary_heap_plus::BinaryHeap::push`: the queue holds one more `item`.
#[verifier::external_body]
pub(crate) fn heap_push(h: &mut BinaryHeap<Entry, MinComparator>, item: Entry)
    ensures
        heap_items(*final(h)) == heap_items(*old(h)).insert(item),
{
    h.push(item)
}

/// Calls `binary_heap_plus::BinaryHeap::pop`: `None` when the queue is
/// empty; otherwise an entry of the queue that no other entry comes before,
/// of which the queue then holds one less.
#[verifier::external_body]
pub(crate) fn heap_pop(h: &mut BinaryHeap<Entry, MinComparator>) -> (r: Option<Entry>)
    ensures
        match r {
            None => heap_items(*old(h)).len() == 0 && heap_items(*final(h)) == heap_items(*old(h)),
            Some(x) => heap_items(*old(h)).count(x) > 0 && heap_items(*final(h)) == heap_items(
                *old(h),
            ).remove(x) && forall|y: Entry| #[trigger]
                heap_items(*old(h)).count(y) > 0 ==> entry_le(x, y),
        },
{
    h.pop()
}

} // verus!
