use ct_berry::data::CtLabel;
use ct_berry::data::morph_3d::roi::RoiGenerator;
use ct_berry::data::morph_3d::roi::idx3d_diff_pow;
use ct_berry::data::morph_3d::roi::is_foreground;

type Idx3d = (usize, usize, usize);

fn filled(shape: Idx3d, label: u8, pix_dim: [u32; 3]) -> CtLabel {
    CtLabel::new(shape, vec![label; shape.0 * shape.1 * shape.2], pix_dim, 0, None).unwrap()
}

fn roi_3d(label: &CtLabel, center: Idx3d, radius: u64, include_tumor: bool) -> Vec<Idx3d> {
    let mut found = RoiGenerator::new(label, &center).extract_roi_3d(radius, include_tumor);
    found.sort();
    found
}

fn roi_2d(
    label: &CtLabel,
    center: Idx3d,
    radius: u64,
    include_tumor: bool,
) -> Vec<(usize, usize)> {
    let mut found = RoiGenerator::new(label, &center).extract_roi_2d(radius, include_tumor);
    found.sort();
    found
}

#[test]
fn zero_radius_yields_the_center_if_it_is_wanted() {
    let liver = filled((3, 3, 3), 1, [1000, 1000, 1000]);
    assert_eq!(roi_3d(&liver, (1, 1, 1), 0, true), vec![(1, 1, 1)]);
    assert_eq!(roi_3d(&liver, (1, 1, 1), 0, false), vec![(1, 1, 1)]);
    assert_eq!(roi_2d(&liver, (1, 1, 1), 0, false), vec![(1, 1)]);
    let tumor = filled((3, 3, 3), 2, [1000, 1000, 1000]);
    assert_eq!(roi_3d(&tumor, (1, 1, 1), 0, true), vec![(1, 1, 1)]);
    assert_eq!(roi_3d(&tumor, (1, 1, 1), 0, false), vec![]);
    assert_eq!(roi_2d(&tumor, (1, 1, 1), 0, false), vec![]);
    let nothing = filled((3, 3, 3), 0, [1000, 1000, 1000]);
    assert_eq!(roi_3d(&nothing, (1, 1, 1), 0, true), vec![]);
    assert_eq!(roi_2d(&nothing, (1, 1, 1), 0, true), vec![]);
}

#[test]
fn radius_is_measured_in_micrometres() {
    let label = filled((5, 5, 5), 1, [1000, 1000, 1000]);
    assert_eq!(roi_3d(&label, (2, 2, 2), 999, true).len(), 1);
    assert_eq!(roi_3d(&label, (2, 2, 2), 1000, true).len(), 7);
    // The diagonal of a face lies 2 000 000 square micrometres away.
    assert_eq!(roi_3d(&label, (2, 2, 2), 1414, true).len(), 7);
    assert_eq!(roi_3d(&label, (2, 2, 2), 1415, true).len(), 19);
    // The diagonal of the cube lies 3 000 000 square micrometres away.
    assert_eq!(roi_3d(&label, (2, 2, 2), 1732, true).len(), 19);
    assert_eq!(roi_3d(&label, (2, 2, 2), 1733, true).len(), 27);
    assert_eq!(roi_3d(&label, (2, 2, 2), 2000, true).len(), 33);
}

#[test]
fn slice_distance_weighs_the_slice_axis() {
    let label = filled((5, 5, 5), 1, [1000, 1000, 2000]);
    assert_eq!(
        roi_3d(&label, (2, 2, 2), 1000, true),
        vec![(2, 1, 2), (2, 2, 1), (2, 2, 2), (2, 2, 3), (2, 3, 2)]
    );
    assert_eq!(roi_3d(&label, (2, 2, 2), 1999, true).len(), 9);
    assert_eq!(roi_3d(&label, (2, 2, 2), 2000, true).len(), 15);
}

#[test]
fn planar_region_stays_in_the_slice_of_the_center() {
    let label = filled((5, 5, 5), 1, [1000, 1000, 500]);
    assert_eq!(
        roi_2d(&label, (2, 2, 2), 1000, true),
        vec![(1, 2), (2, 1), (2, 2), (2, 3), (3, 2)]
    );
    assert_eq!(roi_2d(&label, (2, 2, 2), 1415, true).len(), 9);
    assert_eq!(roi_2d(&label, (2, 2, 2), 2000, true).len(), 13);
    assert_eq!(roi_2d(&label, (0, 0, 0), 1000, true), vec![(0, 0), (0, 1), (1, 0)]);
}

#[test]
fn larger_radius_holds_the_smaller_region() {
    let mut labels = vec![0u8; 6 * 6 * 6];
    for (i, l) in labels.iter_mut().enumerate() {
        *l = (i % 3) as u8;
    }
    let label = CtLabel::new((6, 6, 6), labels, [700, 700, 1300], 0, None).unwrap();
    let radii = [0u64, 500, 700, 1000, 1300, 1500, 2100, 3000, 10000];
    for include_tumor in [false, true] {
        for pair in radii.windows(2) {
            let small = roi_3d(&label, (3, 2, 3), pair[0], include_tumor);
            let large = roi_3d(&label, (3, 2, 3), pair[1], include_tumor);
            assert!(small.iter().all(|p| large.contains(p)));
            let small = roi_2d(&label, (3, 2, 3), pair[0], include_tumor);
            let large = roi_2d(&label, (3, 2, 3), pair[1], include_tumor);
            assert!(small.iter().all(|p| large.contains(p)));
        }
    }
}

#[test]
fn region_passes_through_background() {
    let label = CtLabel::new((1, 1, 5), vec![1, 0, 1, 0, 1], [1000, 1000, 1000], 0, None).unwrap();
    assert_eq!(roi_3d(&label, (0, 0, 2), 2000, true), vec![(0, 0, 0), (0, 0, 2), (0, 0, 4)]);
    assert_eq!(roi_3d(&label, (0, 0, 2), 1999, true), vec![(0, 0, 2)]);
    assert_eq!(roi_2d(&label, (0, 0, 2), 2000, true), vec![(0, 0), (0, 2), (0, 4)]);
}

#[test]
fn region_around_background_center_holds_its_neighbours() {
    let label = CtLabel::new((1, 1, 3), vec![1, 0, 2], [1000, 1000, 1000], 0, None).unwrap();
    assert_eq!(roi_3d(&label, (0, 0, 1), 1000, true), vec![(0, 0, 0), (0, 0, 2)]);
    assert_eq!(roi_3d(&label, (0, 0, 1), 1000, false), vec![(0, 0, 0)]);
}

#[test]
fn region_lists_every_voxel_once() {
    let label = filled((4, 4, 4), 1, [1, 1, 1]);
    let found = roi_3d(&label, (1, 2, 1), u64::MAX, true);
    assert_eq!(found.len(), 64);
    let mut unique = found.clone();
    unique.dedup();
    assert_eq!(unique.len(), 64);
}

#[test]
fn wanted_labels_are_liver_and_tumor_if_it_counts() {
    assert!(is_foreground(true, 1));
    assert!(is_foreground(true, 2));
    assert!(!is_foreground(true, 0));
    assert!(!is_foreground(true, 3));
    assert!(is_foreground(false, 1));
    assert!(!is_foreground(false, 2));
    assert!(!is_foreground(false, 0));
}

#[test]
fn differences_of_indices_are_squared() {
    assert_eq!(idx3d_diff_pow((1, 5, 9), (4, 5, 2)), (9, 0, 49));
    assert_eq!(idx3d_diff_pow((0, 0, 0), (65536, 0, 1)), (4294967296, 0, 1));
}
