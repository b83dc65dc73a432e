use ct_berry::data::CtLabel;
use ct_berry::data::sector::AxisDirection;
use ct_berry::data::sector::Header;
use ct_berry::data::sector::InitLlsPatternError;
use ct_berry::data::sector::LlsSectorPattern;
use ct_berry::data::sector::Orientation;

fn counted() -> CtLabel {
    let labels: Vec<u8> = (0..24u8).collect();
    CtLabel::new((2, 3, 4), labels, [700, 700, 1500], 1, Some((0, 1, 0))).unwrap()
}

#[test]
fn labels_are_kept_in_row_major_order() {
    let label = counted();
    assert_eq!(label.get((0, 0, 0)), Some(0));
    assert_eq!(label.get((0, 0, 3)), Some(3));
    assert_eq!(label.get((0, 1, 0)), Some(4));
    assert_eq!(label.get((0, 2, 3)), Some(11));
    assert_eq!(label.get((1, 0, 0)), Some(12));
    assert_eq!(label.get((1, 2, 3)), Some(23));
    assert_eq!(label.get((2, 0, 0)), None);
    assert_eq!(label.get((0, 3, 0)), None);
    assert_eq!(label.get((0, 0, 4)), None);
    assert_eq!(label.get((usize::MAX, 0, 0)), None);
}

#[test]
fn shape_is_that_of_the_parts() {
    let label = counted();
    assert_eq!(label.shape(), (2, 3, 4));
    assert_eq!(label.slice_shape(), (3, 4));
    assert_eq!(label.len_z(), 2);
    assert_eq!(label.size(), 24);
    assert!(label.check(&(1, 2, 3)));
    assert!(!label.check(&(1, 2, 4)));
    assert!(!label.check(&(2, 0, 0)));
    assert!(!label.is_faked());
}

#[test]
fn spacing_is_that_of_the_parts() {
    let label = counted();
    assert_eq!(label.pix_dim(), [1500, 700, 700]);
    assert_eq!(label.z_um(), 1500);
    assert_eq!(label.height_um(), 700);
    assert_eq!(label.width_um(), 700);
    assert_eq!(label.slice_pixel(), 490000);
    assert!(label.is_z_greater());
    assert!(!label.is_height_greater());
    assert!(!label.is_isotropic());
    let even = CtLabel::new((1, 1, 1), vec![1], [4294967295, 4294967295, 4294967295], 0, None)
        .unwrap();
    assert!(even.is_isotropic());
    assert_eq!(even.slice_pixel(), 18446744065119617025);
}

#[test]
fn parts_that_make_no_volume_are_refused() {
    assert!(CtLabel::new((2, 3, 4), vec![0; 23], [1, 1, 1], 0, None).is_none());
    assert!(CtLabel::new((2, 3, 4), vec![0; 25], [1, 1, 1], 0, None).is_none());
    assert!(CtLabel::new((2, 3, 4), vec![0; 24], [1, 2, 1], 0, None).is_none());
    assert!(CtLabel::new((2, 3, 4), vec![0; 24], [0, 0, 1], 0, None).is_none());
    assert!(CtLabel::new((2, 3, 4), vec![0; 24], [1, 1, 0], 0, None).is_none());
    assert!(CtLabel::new((65537, 1, 1), vec![0; 65537], [1, 1, 1], 0, None).is_none());
    assert!(CtLabel::new((1, 1, 65537), vec![0; 65537], [1, 1, 1], 0, None).is_none());
    assert!(CtLabel::new((65536, 1, 1), vec![0; 65536], [1, 1, 1], 0, None).is_some());
    assert!(CtLabel::new((0, 70000, 1), vec![], [1, 1, 1], 0, None).is_none());
    assert!(CtLabel::new((0, 0, 0), vec![], [1, 1, 1], 0, None).is_some());
    assert!(CtLabel::fake((1, 1, 2), vec![0; 2], [1, 1, 1], 0, (0, 0, 0)).unwrap().is_faked());
    assert!(CtLabel::fake((1, 1, 2), vec![0; 3], [1, 1, 1], 0, (0, 0, 0)).is_none());
}

#[test]
fn foreground_is_liver_and_tumor() {
    let label = counted();
    assert!(!label.is_foreground_at((0, 0, 0)));
    assert!(label.is_foreground_at((0, 0, 1)));
    assert!(label.is_foreground_at((0, 0, 2)));
    assert!(!label.is_foreground_at((0, 0, 3)));
    assert!(!label.is_foreground_at((5, 0, 1)));
}

#[test]
fn neighbours_lie_inside_the_volume() {
    let label = counted();
    assert_eq!(
        label.diamond_neighbours((0, 1, 1)),
        vec![(1, 1, 1), (0, 0, 1), (0, 2, 1), (0, 1, 0), (0, 1, 2)]
    );
    assert_eq!(label.diamond_neighbours((0, 0, 0)), vec![(1, 0, 0), (0, 1, 0), (0, 0, 1)]);
    assert_eq!(label.diamond_neighbours((1, 2, 3)), vec![(0, 2, 3), (1, 1, 3), (1, 2, 2)]);
    assert_eq!(label.neighbours_z((1, 1, 1)), vec![(0, 1, 1)]);
    assert_eq!(label.neighbours_z((0, 1, 1)), vec![(1, 1, 1)]);
    assert_eq!(label.neighbours_hw((0, 1, 1)), vec![(0, 0, 1), (0, 2, 1), (0, 1, 0), (0, 1, 2)]);
    assert_eq!(label.neighbours_hw((0, 0, 3)), vec![(0, 1, 3), (0, 0, 2)]);
    let column = CtLabel::new((3, 1, 1), vec![0; 3], [1, 1, 1], 0, None).unwrap();
    assert_eq!(column.neighbours_z((1, 0, 0)), vec![(0, 0, 0), (2, 0, 0)]);
    assert_eq!(column.neighbours_hw((1, 0, 0)), vec![]);
}

#[test]
fn known_orientations_are_read_off_the_codes() {
    for (code, quatern) in [(0, (0, 0, 0)), (1, (0, 1, 0)), (2, (0, 1, 0))] {
        let p = LlsSectorPattern::from_codes(code, quatern).unwrap();
        assert!(matches!(p.quadrant(), AxisDirection::HeightPos));
        assert!(matches!(p.orientation(), Orientation::CounterClockwise));
    }
    let p = LlsSectorPattern::from_codes(2, (0, 0, 0)).unwrap();
    assert!(matches!(p.quadrant(), AxisDirection::HeightPos));
    assert!(matches!(p.orientation(), Orientation::Clockwise));
    let p = LlsSectorPattern::from_codes(2, (0, 0, 1)).unwrap();
    assert!(matches!(p.quadrant(), AxisDirection::HeightNeg));
    assert!(matches!(p.orientation(), Orientation::Clockwise));
}

#[test]
fn unknown_orientations_are_told_apart() {
    assert!(matches!(
        LlsSectorPattern::from_codes(1, (0, 0, 0)),
        Err(InitLlsPatternError::Unknown(1, (0, 0, 0)))
    ));
    assert!(matches!(
        LlsSectorPattern::from_codes(0, (0, 1, 0)),
        Err(InitLlsPatternError::Unknown(0, (0, 1, 0)))
    ));
    assert!(matches!(
        LlsSectorPattern::from_codes(2, (1, 0, 0)),
        Err(InitLlsPatternError::Unknown(2, (1, 0, 0)))
    ));
    assert!(matches!(
        LlsSectorPattern::from_codes(-3, (0, 0, -1)),
        Err(InitLlsPatternError::Unknown(-3, (0, 0, -1)))
    ));
}

#[test]
fn orientation_of_a_volume_comes_from_its_header() {
    let known = counted().lls_sector_pattern().unwrap();
    assert!(matches!(known.quadrant(), AxisDirection::HeightPos));
    assert!(matches!(known.orientation(), Orientation::CounterClockwise));
    let skewed = CtLabel::new((1, 1, 1), vec![0], [1, 1, 1], 2, None).unwrap();
    assert!(matches!(skewed.lls_sector_pattern(), Err(InitLlsPatternError::NotAxisVector)));
    let unknown = CtLabel::new((1, 1, 1), vec![0], [1, 1, 1], 7, Some((1, 1, 1))).unwrap();
    assert!(matches!(
        unknown.lls_sector_pattern(),
        Err(InitLlsPatternError::Unknown(7, (1, 1, 1)))
    ));
}

#[test]
fn orientation_is_read_off_a_header() {
    let header = Header { pix_dim: [700, 700, 1500], qform_code: 2, quatern: Some((0, 0, 1)) };
    let p = LlsSectorPattern::from_header(&header).unwrap();
    assert!(matches!(p.quadrant(), AxisDirection::HeightNeg));
    assert!(matches!(p.orientation(), Orientation::Clockwise));
    let skewed = Header { quatern: None, ..header };
    assert!(matches!(
        LlsSectorPattern::from_header(&skewed),
        Err(InitLlsPatternError::NotAxisVector)
    ));
    let unknown = Header { qform_code: 5, ..header };
    assert!(matches!(
        LlsSectorPattern::from_header(&unknown),
        Err(InitLlsPatternError::Unknown(5, (0, 0, 1)))
    ));
}

#[test]
fn volume_made_with_a_header_keeps_it() {
    let header = Header { pix_dim: [700, 700, 1500], qform_code: 1, quatern: Some((0, 1, 0)) };
    let label = CtLabel::fake_with_header(&header, (1, 2, 2), vec![0, 1, 2, 3]).unwrap();
    assert!(label.is_faked());
    assert_eq!(label.pix_dim(), [1500, 700, 700]);
    assert_eq!(label.get((0, 1, 0)), Some(2));
    let kept = label.header();
    assert_eq!(kept.pix_dim, [700, 700, 1500]);
    assert_eq!(kept.qform_code, 1);
    assert_eq!(kept.quatern, Some((0, 1, 0)));
    assert!(CtLabel::fake_with_header(&header, (1, 2, 2), vec![0, 1, 2]).is_none());
    let uneven = Header { pix_dim: [700, 800, 1500], ..header };
    assert!(CtLabel::fake_with_header(&uneven, (1, 2, 2), vec![0, 1, 2, 3]).is_none());
}

#[test]
fn voxels_are_counted_by_label() {
    let labels = vec![0, 1, 2, 1, 0, 0, 2, 3, 1, 1, 1, 0];
    let label = CtLabel::new((2, 2, 3), labels, [1, 1, 1], 0, None).unwrap();
    assert_eq!(label.count(0), 4);
    assert_eq!(label.count(1), 5);
    assert_eq!(label.count(2), 2);
    assert_eq!(label.count(3), 1);
    assert_eq!(label.count(4), 0);
    assert_eq!(label.numeric_statistics(), [4, 5, 2]);
    let empty = CtLabel::new((0, 2, 3), vec![], [1, 1, 1], 0, None).unwrap();
    assert_eq!(empty.count(0), 0);
    assert_eq!(empty.numeric_statistics(), [0, 0, 0]);
}

#[test]
fn voxels_are_listed_in_row_major_order() {
    let labels = vec![0, 1, 2, 1, 0, 0, 2, 3, 1, 1, 1, 0];
    let label = CtLabel::new((2, 2, 3), labels, [1, 1, 1], 0, None).unwrap();
    assert_eq!(
        label.liver_pos(),
        vec![(0, 0, 1), (0, 1, 0), (1, 0, 2), (1, 1, 0), (1, 1, 1)]
    );
    assert_eq!(label.tumor_pos(), vec![(0, 0, 2), (1, 0, 0)]);
    assert_eq!(
        label.liver_tumor_pos(),
        vec![(0, 0, 1), (0, 0, 2), (0, 1, 0), (1, 0, 0), (1, 0, 2), (1, 1, 0), (1, 1, 1)]
    );
    assert_eq!(label.filter_pos(|p| p == 3), vec![(1, 0, 1)]);
    assert_eq!(label.filter_pos(|p| p > 9), vec![]);
    assert_eq!(label.filter_pos(|_| true).len(), 12);
}

#[test]
fn labels_are_replaced_and_counted() {
    let labels = vec![0, 1, 2, 1, 0, 0, 2, 3, 1, 1, 1, 0];
    let mut label = CtLabel::new((2, 2, 3), labels, [1, 1, 1], 0, None).unwrap();
    assert_eq!(label.replace(2, 1), 2);
    assert_eq!(label.numeric_statistics(), [4, 7, 0]);
    assert_eq!(label.get((0, 0, 2)), Some(1));
    assert_eq!(label.get((1, 0, 1)), Some(3));
    assert_eq!(label.replace(2, 1), 0);
    assert_eq!(label.replace(1, 1), 7);
    assert_eq!(label.replace(3, 0), 1);
    assert_eq!(label.numeric_statistics(), [5, 7, 0]);
    label.set((1, 1, 2), 2);
    assert_eq!(label.get((1, 1, 2)), Some(2));
    assert_eq!(label.numeric_statistics(), [4, 7, 1]);
}

#[test]
fn faces_are_made_background() {
    let mut label = CtLabel::fake((3, 4, 5), vec![1u8; 60], [1000, 1000, 1000], 0, (0, 0, 0))
        .unwrap();
    label.make_background_surface6();
    assert_eq!(label.liver_pos(), vec![(1, 1, 1), (1, 1, 2), (1, 1, 3), (1, 2, 1), (1, 2, 2), (1, 2, 3)]);
    assert_eq!(label.count(0), 54);
    assert_eq!(label.center(false), Some((1, 1, 1)));
    let all = ct_berry::Blend::new(1, 1).unwrap();
    assert!(label.peripheral_fits((1, 1, 1), all));
    assert!(label.peripheral_fits((1, 2, 3), all));
    let mut thin = CtLabel::new((1, 3, 3), vec![2u8; 9], [1, 1, 1], 0, None).unwrap();
    thin.make_background_surface6();
    assert_eq!(thin.count(0), 9);
    let mut none = CtLabel::new((0, 3, 3), vec![], [1, 1, 1], 0, None).unwrap();
    none.make_background_surface6();
    assert_eq!(none.size(), 0);
}
