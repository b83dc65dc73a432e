use ct_berry::Erosion;
use ct_berry::data::CtLabel;

type Idx3d = (usize, usize, usize);

/// A volume of the given shape whose voxels inside `lo..=hi` along every axis hold `label`.
fn boxed(shape: Idx3d, lo: Idx3d, hi: Idx3d, label: u8, pix_dim: [u32; 3]) -> CtLabel {
    let mut labels = vec![0u8; shape.0 * shape.1 * shape.2];
    for z in lo.0..=hi.0 {
        for h in lo.1..=hi.1 {
            for w in lo.2..=hi.2 {
                labels[(z * shape.1 + h) * shape.2 + w] = label;
            }
        }
    }
    CtLabel::new(shape, labels, pix_dim, 0, Some((0, 0, 0))).unwrap()
}

fn cube(pix_dim: [u32; 3]) -> CtLabel {
    boxed((5, 5, 5), (1, 1, 1), (3, 3, 3), 1, pix_dim)
}

fn same(a: Option<Erosion>, b: Option<Erosion>) -> bool {
    match (a, b) {
        (Some(x), Some(y)) => x.center == y.center && x.eroded == y.eroded && x.last == y.last,
        (None, None) => true,
        _ => false,
    }
}

#[test]
fn cube_with_border_has_its_middle_as_center() {
    let label = cube([1000, 1000, 1000]);
    assert_eq!(label.center(false), Some((2, 2, 2)));
    assert_eq!(label.center(true), Some((2, 2, 2)));
}

#[test]
fn cube_with_border_conserves_its_voxels() {
    let label = cube([1000, 1000, 1000]);
    let found = label.erosion(false).unwrap();
    assert_eq!(found.center, (2, 2, 2));
    assert_eq!(found.eroded, 26);
    assert_eq!(found.last, 1);
    assert_eq!(found.eroded + found.last, 27);
    assert_eq!(found.eroded + 1, 27);
}

#[test]
fn center_is_the_same_on_every_call() {
    let label = cube([1000, 1000, 2500]);
    let first = label.center(true);
    let second = label.center(true);
    assert_eq!(first, second);
    let other = cube([1000, 1000, 2500]);
    assert_eq!(first, other.center(true));
    assert!(same(label.erosion(false), other.erosion(false)));
}

#[test]
fn volume_without_foreground_has_no_center() {
    let label = CtLabel::new((3, 4, 5), vec![0u8; 60], [700, 700, 1500], 0, Some((0, 0, 0)))
        .unwrap();
    assert_eq!(label.center(false), None);
    assert_eq!(label.center(true), None);
    assert!(label.erosion(true).is_none());
    assert_eq!(label.center_roi_3d(5000, true, true), vec![]);
    assert_eq!(label.center_roi_2d(5000, false, true), (usize::MAX, vec![]));
}

#[test]
fn volume_without_background_has_no_center() {
    let label = CtLabel::new((2, 2, 2), vec![1u8; 8], [1000, 1000, 1000], 0, Some((0, 0, 0)))
        .unwrap();
    assert_eq!(label.center(false), None);
    let uneven = CtLabel::new((2, 2, 2), vec![1u8; 8], [1000, 1000, 3000], 0, Some((0, 0, 0)))
        .unwrap();
    assert_eq!(uneven.center(true), None);
}

#[test]
fn empty_volume_has_no_center() {
    let label = CtLabel::new((0, 4, 4), vec![], [1000, 1000, 1000], 0, None).unwrap();
    assert_eq!(label.center(false), None);
}

#[test]
fn ties_of_the_last_round_go_to_the_first_voxel() {
    // Two voxels side by side: both lie on the surface and go in one round.
    let label = boxed((3, 3, 4), (1, 1, 1), (1, 1, 2), 1, [1000, 1000, 1000]);
    let found = label.erosion(false).unwrap();
    assert_eq!(found.center, (1, 1, 1));
    assert_eq!(found.eroded, 0);
    assert_eq!(found.last, 2);
}

#[test]
fn tumor_counts_as_foreground_for_the_center() {
    let label = boxed((5, 5, 5), (1, 1, 1), (3, 3, 3), 2, [1000, 1000, 1000]);
    assert_eq!(label.center(false), Some((2, 2, 2)));
}

#[test]
fn other_labels_count_as_background_for_the_center() {
    // A cube of liver inside a volume that is otherwise boundary.
    let mut labels = vec![3u8; 125];
    for z in 1..=3usize {
        for h in 1..=3usize {
            for w in 1..=3usize {
                labels[(z * 5 + h) * 5 + w] = 1;
            }
        }
    }
    let label = CtLabel::new((5, 5, 5), labels, [1000, 1000, 1000], 0, None).unwrap();
    assert_eq!(label.center(false), Some((2, 2, 2)));
}

#[test]
fn isotropic_spacing_makes_both_peelings_alike() {
    let label = boxed((7, 8, 9), (1, 2, 1), (5, 6, 7), 1, [800, 800, 800]);
    assert_eq!(label.center(true), label.center(false));
    assert!(same(label.erosion(true), label.erosion(false)));
}

#[test]
fn higher_voxels_are_peeled_along_the_slices_first() {
    // Height above slice distance: the first round is restricted and takes
    // off the two outer slices of the cube, the second is full.
    let label = cube([2000, 2000, 1000]);
    let found = label.erosion(true).unwrap();
    assert_eq!(found.center, (2, 1, 1));
    assert_eq!(found.eroded, 18);
    assert_eq!(found.last, 9);
    assert_eq!(label.center(false), Some((2, 2, 2)));
}

#[test]
fn distant_slices_are_peeled_inside_the_slices_first() {
    // Slice distance above height: the first round is restricted and
    // leaves the column through the middle, the second is full.
    let label = cube([1000, 1000, 2000]);
    let found = label.erosion(true).unwrap();
    assert_eq!(found.center, (1, 2, 2));
    assert_eq!(found.eroded, 24);
    assert_eq!(found.last, 3);
}

#[test]
fn carried_remainder_decides_which_rounds_are_full() {
    // Steps of 2 against a barrier of 3: restricted, full, full, restricted.
    // The rounds take off 98, 170 and 66 voxels, and the last one 9.
    let label = boxed((9, 9, 9), (1, 1, 1), (7, 7, 7), 1, [3, 3, 2]);
    let found = label.erosion(true).unwrap();
    assert_eq!(found.center, (4, 3, 3));
    assert_eq!(found.eroded, 334);
    assert_eq!(found.last, 9);
    assert_eq!(label.center(true), Some((4, 3, 3)));
    assert_eq!(label.center(false), Some((4, 4, 4)));
}

#[test]
fn peeling_conserves_the_voxels_of_two_bodies() {
    let mut labels = vec![0u8; 6 * 6 * 12];
    let mut count = 0u64;
    for z in 1..=4usize {
        for h in 1..=4usize {
            for w in 1..=4usize {
                labels[(z * 6 + h) * 12 + w] = 1;
                count += 1;
            }
        }
    }
    for z in 2..=3usize {
        for h in 2..=3usize {
            for w in 7..=10usize {
                labels[(z * 6 + h) * 12 + w] = 2;
                count += 1;
            }
        }
    }
    let label = CtLabel::new((6, 6, 12), labels, [1000, 1000, 1000], 0, None).unwrap();
    let found = label.erosion(false).unwrap();
    assert_eq!(found.eroded + found.last, count);
    assert_eq!(found.center, (2, 2, 2));
    assert_eq!(found.last, 8);
}

#[test]
fn center_roi_is_taken_around_the_center() {
    let label = cube([1000, 1000, 1000]);
    let mut roi = label.center_roi_3d(1000, false, true);
    roi.sort();
    assert_eq!(
        roi,
        vec![(1, 2, 2), (2, 1, 2), (2, 2, 1), (2, 2, 2), (2, 2, 3), (2, 3, 2), (3, 2, 2)]
    );
    let (slice, mut flat) = label.center_roi_2d(1000, false, true);
    flat.sort();
    assert_eq!(slice, 2);
    assert_eq!(flat, vec![(1, 2), (2, 1), (2, 2), (2, 3), (3, 2)]);
}

#[test]
fn isotropic_center_lies_farthest_from_the_background() {
    // An L of two bars, 3 voxels thick; the long bar is 9 voxels long.
    let shape = (5usize, 11usize, 11usize);
    let mut labels = vec![0u8; 5 * 11 * 11];
    let mut set = |z: usize, h: usize, w: usize| labels[(z * 11 + h) * 11 + w] = 1;
    for z in 1..=3 {
        for h in 1..=3 {
            for w in 1..=9 {
                set(z, h, w);
            }
        }
        for h in 4..=8 {
            for w in 1..=3 {
                set(z, h, w);
            }
        }
    }
    let label = CtLabel::new(shape, labels, [1000, 1000, 1000], 0, None).unwrap();
    let center = label.center(false).unwrap();
    // Every voxel of the middle line of a bar lies two steps from the
    // background; the first of them is the center.
    let depth = |p: Idx3d| {
        let mut best = usize::MAX;
        for z in 0..shape.0 {
            for h in 0..shape.1 {
                for w in 0..shape.2 {
                    if !label.is_foreground_at((z, h, w)) {
                        let d = z.abs_diff(p.0) + h.abs_diff(p.1) + w.abs_diff(p.2);
                        best = best.min(d);
                    }
                }
            }
        }
        best
    };
    let mut deepest = 0;
    let mut first = None;
    for z in 0..shape.0 {
        for h in 0..shape.1 {
            for w in 0..shape.2 {
                if label.is_foreground_at((z, h, w)) && depth((z, h, w)) > deepest {
                    deepest = depth((z, h, w));
                    first = Some((z, h, w));
                }
            }
        }
    }
    assert_eq!(deepest, 2);
    assert_eq!(Some(center), first);
    assert_eq!(center, (2, 2, 2));
}
