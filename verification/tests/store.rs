use ct_berry::consts::ElemType;
use ct_berry::data::morph_3d::idx2d_to_u16;
use ct_berry::data::morph_3d::idx3d_to_u16;
use ct_berry::data::morph_3d::idx3du16_to_usize;
use ct_berry::data::morph_3d::phantom::PhantomMemento;

#[test]
fn indices_are_cut_to_sixteen_bits() {
    assert_eq!(idx3d_to_u16(&(1, 2, 3)), (1, 2, 3));
    assert_eq!(idx3d_to_u16(&(65535, 65536, 65537)), (65535, 0, 1));
    assert_eq!(idx2d_to_u16(&(131072 + 7, 65535)), (7, 65535));
    assert_eq!(idx3du16_to_usize(&(65535, 0, 9)), (65535, 0, 9));
}

#[test]
fn empty_records_hold_nothing() {
    let mut db = PhantomMemento::new();
    assert!(!db.is_visited(&(0, 0, 0)));
    assert!(db.get_val(&(0, 0, 0)).is_none());
    assert_eq!(db.take_positions(), vec![]);
}

#[test]
fn classes_are_kept_voxel_by_voxel() {
    let mut db = PhantomMemento::new();
    db.set_foreground(&(1, 2, 3));
    db.set_background(&(3, 2, 1));
    assert_eq!(db.get_val(&(1, 2, 3)), Some(&ElemType::Foreground));
    assert_eq!(db.get_val(&(3, 2, 1)), Some(&ElemType::Background));
    assert_eq!(db.get_val(&(1, 2, 4)), None);
    assert_eq!(db.get_val(&(2, 3, 1)), None);
    assert!(db.is_foreground(&(1, 2, 3)));
    assert!(!db.is_background(&(1, 2, 3)));
    assert!(db.is_background(&(3, 2, 1)));
    assert!(!db.is_foreground(&(3, 2, 1)));
    db.set_background(&(1, 2, 3));
    assert_eq!(db.get_val(&(1, 2, 3)), Some(&ElemType::Background));
    db.set_foreground(&(65535, 65535, 65535));
    assert!(db.is_foreground(&(65535, 65535, 65535)));
    assert_eq!(db.get_val(&(65535, 65535, 65534)), None);
    assert_eq!(db.get_val(&(0, 65535, 65535)), None);
}

#[test]
fn peeled_voxels_are_remembered() {
    let mut db = PhantomMemento::new();
    db.set_visited(&(7, 0, 0));
    db.set_visited(&(0, 7, 0));
    assert!(db.is_visited(&(7, 0, 0)));
    assert!(db.is_visited(&(0, 7, 0)));
    assert!(!db.is_visited(&(0, 0, 7)));
    assert!(!db.is_visited(&(7, 7, 0)));
}

#[test]
fn candidates_are_noted_once() {
    let mut db = PhantomMemento::new();
    assert!(db.push_pos(&(1, 1, 1)));
    assert!(!db.push_pos(&(1, 1, 1)));
    assert!(db.push_pos(&(1, 1, 2)));
    assert!(db.push_pos(&(2, 1, 1)));
    let mut taken = db.take_positions();
    taken.sort();
    assert_eq!(taken, vec![(1, 1, 1), (1, 1, 2), (2, 1, 1)]);
    assert_eq!(db.take_positions(), vec![]);
    assert!(db.push_pos(&(1, 1, 1)));
}

#[test]
fn candidates_of_the_next_round_come_up_after_a_step() {
    let mut db = PhantomMemento::new();
    assert!(db.push_pos(&(0, 0, 1)));
    assert!(db.push_pos_next(&(0, 0, 2)));
    assert!(!db.push_pos_next(&(0, 0, 2)));
    assert!(db.push_pos_next(&(65535, 0, 3)));
    db.step();
    let mut taken = db.take_positions();
    taken.sort();
    assert_eq!(taken, vec![(0, 0, 2), (65535, 0, 3)]);
    db.step();
    assert_eq!(db.take_positions(), vec![]);
}

#[test]
fn indices_that_agree_in_sixteen_bits_are_one_voxel() {
    let mut db = PhantomMemento::new();
    db.set_visited(&(65536 + 4, 5, 6));
    assert!(db.is_visited(&(4, 5, 6)));
    assert!(db.push_pos(&(1, 65536, 1)));
    assert_eq!(db.take_positions(), vec![(1, 0, 1)]);
}
