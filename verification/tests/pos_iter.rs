use ct_berry::data::slice::iter::PosIter;
use std::mem::size_of_val;

type Idx2d = (usize, usize);

fn pos_iter_builtin((h, w): Idx2d) -> impl Iterator<Item = Idx2d> {
    (0..h).flat_map(move |first| (0..w).map(move |second| (first, second)))
}

fn pos_iter_walk(shape: Idx2d) -> impl Iterator<Item = Idx2d> {
    let mut it = PosIter::new(shape);
    std::iter::from_fn(move || it.next())
}

#[test]
fn test_builtin_iter_size_larger() {
    let tup = (1, 1);
    assert!(size_of_val(&pos_iter_builtin(tup)) > size_of_val(&PosIter::new(tup)));
}

#[test]
fn test_pos_iter() {
    for i in 0..=4 {
        for j in 0..=4 {
            let tup = (i, j);
            assert!(Iterator::eq(pos_iter_builtin(tup), pos_iter_walk(tup)));
        }
    }
}

#[test]
fn pos_iter_hands_out_rows_in_order() {
    let mut it = PosIter::new((2, 3));
    assert_eq!(it.next(), Some((0, 0)));
    assert_eq!(it.next(), Some((0, 1)));
    assert_eq!(it.next(), Some((0, 2)));
    assert_eq!(it.next(), Some((1, 0)));
    assert_eq!(it.next(), Some((1, 1)));
    assert_eq!(it.next(), Some((1, 2)));
    assert_eq!(it.next(), None);
    assert_eq!(it.next(), None);
}

#[test]
fn pos_iter_of_empty_slice_is_empty() {
    assert_eq!(PosIter::new((0, 5)).next(), None);
    assert_eq!(PosIter::new((5, 0)).next(), None);
    assert_eq!(PosIter::new((0, 0)).next(), None);
}
