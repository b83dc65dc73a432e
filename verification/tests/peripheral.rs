use ct_berry::data::CtLabel;
use ct_berry::data::morph_3d::peripheral::Blend;
use ct_berry::data::morph_3d::peripheral::UnitVec;

/// One slice of 7 by 7 pixels that holds a block of liver inside a border of background.
fn block(qform_code: i16, quatern: (i8, i8, i8)) -> CtLabel {
    let mut labels = vec![0u8; 49];
    for h in 1..=5usize {
        for w in 1..=5usize {
            labels[h * 7 + w] = 1;
        }
    }
    CtLabel::fake((1, 7, 7), labels, [1000, 1000, 1000], qform_code, quatern).unwrap()
}

fn half() -> Blend {
    Blend::new(1, 2).unwrap()
}

#[test]
fn directions_of_a_volume_with_height_up_and_counter_clockwise() {
    for (code, quatern) in [(0, (0, 0, 0)), (1, (0, 1, 0)), (2, (0, 1, 0))] {
        let dirs = block(code, quatern).get_peripheral_unit_vectors();
        assert!(matches!(dirs[0], UnitVec::HeightPos1));
        assert!(matches!(dirs[1], UnitVec::HeightNeg1));
        assert!(matches!(dirs[2], UnitVec::WidthNeg1));
    }
}

#[test]
fn directions_of_a_volume_with_height_up_and_clockwise() {
    let dirs = block(2, (0, 0, 0)).get_peripheral_unit_vectors();
    assert!(matches!(dirs[0], UnitVec::HeightPos1));
    assert!(matches!(dirs[1], UnitVec::HeightNeg1));
    assert!(matches!(dirs[2], UnitVec::WidthPos1));
}

#[test]
fn directions_of_a_volume_with_height_down_and_clockwise() {
    let dirs = block(2, (0, 0, 1)).get_peripheral_unit_vectors();
    assert!(matches!(dirs[0], UnitVec::HeightNeg1));
    assert!(matches!(dirs[1], UnitVec::HeightPos1));
    assert!(matches!(dirs[2], UnitVec::WidthNeg1));
}

#[test]
fn shares_are_rounded_to_the_nearest_step() {
    assert_eq!(half().apply(3), 2);
    assert_eq!(half().apply(4), 2);
    assert_eq!(half().apply(0), 0);
    assert_eq!(Blend::new(1, 3).unwrap().apply(3), 1);
    assert_eq!(Blend::new(1, 3).unwrap().apply(4), 1);
    assert_eq!(Blend::new(1, 3).unwrap().apply(5), 2);
    assert_eq!(Blend::new(0, 7).unwrap().apply(65536), 0);
    assert_eq!(Blend::new(7, 7).unwrap().apply(65536), 65536);
    assert_eq!(Blend::new(4294967295, 4294967295).unwrap().apply(65536), 65536);
}

#[test]
fn shares_lie_between_nothing_and_all() {
    assert!(Blend::new(0, 1).is_some());
    assert!(Blend::new(1, 1).is_some());
    assert!(Blend::new(2, 1).is_none());
    assert!(Blend::new(0, 0).is_none());
}

#[test]
fn foreground_runs_end_at_the_background() {
    let label = block(0, (0, 0, 0));
    assert_eq!(label.foreground_run(&(0, 3, 3), UnitVec::HeightPos1), 3);
    assert_eq!(label.foreground_run(&(0, 3, 3), UnitVec::HeightNeg1), 3);
    assert_eq!(label.foreground_run(&(0, 2, 4), UnitVec::WidthPos1), 2);
    assert_eq!(label.foreground_run(&(0, 2, 4), UnitVec::WidthNeg1), 4);
    assert_eq!(label.foreground_run(&(0, 0, 3), UnitVec::HeightPos1), 0);
    assert_eq!(label.foreground_run(&(0, 9, 9), UnitVec::HeightPos1), 0);
}

#[test]
fn foreground_runs_end_at_the_edge_of_the_volume() {
    let label = CtLabel::new((1, 3, 3), vec![1u8; 9], [1000, 1000, 1000], 0, None).unwrap();
    assert_eq!(label.foreground_run(&(0, 1, 1), UnitVec::HeightNeg1), 2);
    assert_eq!(label.foreground_run(&(0, 1, 1), UnitVec::HeightPos1), 2);
    assert_eq!(label.foreground_run(&(0, 1, 0), UnitVec::WidthNeg1), 1);
    assert_eq!(label.foreground_run(&(0, 1, 0), UnitVec::WidthPos1), 3);
}

#[test]
fn peripheral_centers_lie_a_share_of_the_way_out() {
    let label = block(0, (0, 0, 0));
    assert!(label.peripheral_fits((0, 3, 3), half()));
    assert_eq!(label.peripheral_centers((0, 3, 3), half()), [(0, 5, 3), (0, 1, 3), (0, 3, 1)]);
    let third = Blend::new(1, 3).unwrap();
    assert_eq!(label.peripheral_centers((0, 3, 3), third), [(0, 4, 3), (0, 2, 3), (0, 3, 2)]);
    let none = Blend::new(0, 1).unwrap();
    assert_eq!(label.peripheral_centers((0, 3, 3), none), [(0, 3, 3), (0, 3, 3), (0, 3, 3)]);
    let mirrored = block(2, (0, 0, 0));
    assert_eq!(mirrored.peripheral_centers((0, 2, 2), half()), [(0, 4, 2), (0, 1, 2), (0, 2, 4)]);
}

#[test]
fn peripheral_centers_must_be_voxels_of_the_volume() {
    let label = CtLabel::fake((1, 3, 3), vec![1u8; 9], [1000, 1000, 1000], 0, (0, 0, 0)).unwrap();
    let all = Blend::new(1, 1).unwrap();
    assert!(!label.peripheral_fits((0, 1, 1), all));
    assert!(label.peripheral_fits((0, 1, 1), Blend::new(0, 1).unwrap()));
    assert!(!label.peripheral_fits((0, 3, 1), Blend::new(0, 1).unwrap()));
    let unknown = CtLabel::fake((1, 3, 3), vec![1u8; 9], [1000, 1000, 1000], 3, (0, 0, 0)).unwrap();
    assert!(!unknown.peripheral_fits((0, 1, 1), Blend::new(0, 1).unwrap()));
}

#[test]
fn steps_are_added_to_an_index() {
    assert_eq!(UnitVec::HeightPos1.add_to_k_3d(&(4, 5, 6), 3), (4, 8, 6));
    assert_eq!(UnitVec::HeightNeg1.add_to_k_3d(&(4, 5, 6), 5), (4, 0, 6));
    assert_eq!(UnitVec::WidthPos1.add_to_k_3d(&(4, 5, 6), 0), (4, 5, 6));
    assert_eq!(UnitVec::WidthNeg1.add_to_k_3d(&(4, 5, 6), 2), (4, 5, 4));
    assert_eq!(UnitVec::WidthNeg1.step_from(&(4, 5, 0)), (4, 5, usize::MAX));
    assert_eq!(UnitVec::HeightPos1.step_from(&(4, 5, 0)), (4, 6, 0));
}

#[test]
fn peripheral_regions_of_a_volume_without_foreground_are_empty() {
    let label = CtLabel::fake((2, 4, 4), vec![0u8; 32], [1000, 1000, 1000], 0, (0, 0, 0)).unwrap();
    let empty: [Vec<(usize, usize, usize)>; 3] = [vec![], vec![], vec![]];
    assert_eq!(label.peripheral_roi_3d(5000, half(), false, true), empty);
    assert_eq!(label.peripheral_roi_3d(5000, half(), true, false), empty);
    let flat: [Vec<(usize, usize)>; 3] = [vec![], vec![], vec![]];
    assert_eq!(label.peripheral_roi_2d(5000, half(), false, true), (usize::MAX, flat));
}

#[test]
fn peripheral_regions_lie_around_the_peripheral_centers() {
    // A cube of 5 voxels a side inside a border of background: its center is (3, 3, 3).
    let mut labels = vec![0u8; 7 * 49];
    for z in 1..=5usize {
        for h in 1..=5usize {
            for w in 1..=5usize {
                labels[z * 49 + h * 7 + w] = 1;
            }
        }
    }
    let label = CtLabel::fake((7, 7, 7), labels, [1000, 1000, 1000], 0, (0, 0, 0)).unwrap();
    assert_eq!(label.center(false), Some((3, 3, 3)));
    assert!(label.peripheral_fits((3, 3, 3), half()));
    assert_eq!(label.peripheral_centers((3, 3, 3), half()), [(3, 5, 3), (3, 1, 3), (3, 3, 1)]);
    let mut regions = label.peripheral_roi_3d(1000, half(), false, true);
    for region in regions.iter_mut() {
        region.sort();
    }
    assert_eq!(
        regions[0],
        vec![(2, 5, 3), (3, 4, 3), (3, 5, 2), (3, 5, 3), (3, 5, 4), (4, 5, 3)]
    );
    assert_eq!(
        regions[1],
        vec![(2, 1, 3), (3, 1, 2), (3, 1, 3), (3, 1, 4), (3, 2, 3), (4, 1, 3)]
    );
    assert_eq!(
        regions[2],
        vec![(2, 3, 1), (3, 2, 1), (3, 3, 1), (3, 3, 2), (3, 4, 1), (4, 3, 1)]
    );
    let same = label.peripheral_roi_3d_with_center((3, 3, 3), 1000, half(), true);
    for (a, b) in regions.iter().zip(same.iter()) {
        let mut b = b.clone();
        b.sort();
        assert_eq!(a, &b);
    }
    let (slice, mut flat) = label.peripheral_roi_2d(1000, half(), false, true);
    for region in flat.iter_mut() {
        region.sort();
    }
    assert_eq!(slice, 3);
    assert_eq!(flat[0], vec![(4, 3), (5, 2), (5, 3), (5, 4)]);
    assert_eq!(flat[1], vec![(1, 2), (1, 3), (1, 4), (2, 3)]);
    assert_eq!(flat[2], vec![(2, 1), (3, 1), (3, 2), (4, 1)]);
    let within = label.peripheral_roi_2d_with_center((3, 3, 3), 0, half(), true);
    assert_eq!(within, [vec![(5, 3)], vec![(1, 3)], vec![(3, 1)]]);
}

#[test]
fn a_slice_alone_is_peeled_inside_the_slice() {
    let found = block(0, (0, 0, 0)).erosion(false).unwrap();
    assert_eq!(found.center, (0, 3, 3));
    assert_eq!(found.eroded, 24);
    assert_eq!(found.last, 1);
}

#[test]
fn a_body_of_one_slice_between_others_goes_in_one_round() {
    let mut labels = vec![0u8; 3 * 49];
    for h in 1..=5usize {
        for w in 1..=5usize {
            labels[49 + h * 7 + w] = 1;
        }
    }
    let label = CtLabel::fake((3, 7, 7), labels, [1000, 1000, 1000], 0, (0, 0, 0)).unwrap();
    let found = label.erosion(false).unwrap();
    assert_eq!(found.center, (1, 1, 1));
    assert_eq!(found.eroded, 0);
    assert_eq!(found.last, 25);
}
