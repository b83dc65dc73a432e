use ct_berry::LabelMirror;
use ct_berry::ablation::profile::AccTimer;
use ct_berry::ablation::profile::Profile;
use ct_berry::ablation::result::AblationResult;
use ct_berry::consts::ElemType;
use ct_berry::consts::gray::LITS_BACKGROUND;
use ct_berry::consts::gray::LITS_BOUNDARY;
use ct_berry::consts::gray::LITS_LIVER;
use ct_berry::consts::gray::LITS_TUMOR;
use ct_berry::consts::gray::is_background;
use ct_berry::consts::gray::is_boundary;
use ct_berry::consts::gray::is_liver;
use ct_berry::consts::gray::is_liver_or_boundary;
use ct_berry::consts::gray::is_liver_or_tumor;
use ct_berry::consts::gray::is_tumor;
use ct_berry::eight::neighbour4;
use ct_berry::eight::neighbour8;
use ct_berry::lsn::points::DistanceKind;
use ct_berry::post_proc::locate_lls::RingState;
use ct_berry::post_proc::locate_lls::is_clockwise_polygon;
use ct_berry::post_proc::locate_lls::locate_lls;
use ct_berry::post_proc::refine::Modified;
use ct_berry::post_proc::refine::Refined;
use std::time::Duration;

#[test]
fn labels_are_told_apart() {
    for p in 0..=255u8 {
        assert_eq!(is_background(p), p == LITS_BACKGROUND);
        assert_eq!(is_liver(p), p == LITS_LIVER);
        assert_eq!(is_tumor(p), p == LITS_TUMOR);
        assert_eq!(is_boundary(p), p == LITS_BOUNDARY);
        assert_eq!(is_liver_or_boundary(p), p == 1 || p == 3);
        assert_eq!(is_liver_or_tumor(p), p == 1 || p == 2);
    }
}

#[test]
fn classes_are_told_apart() {
    assert!(ElemType::Foreground.is_foreground());
    assert!(!ElemType::Foreground.is_background());
    assert!(ElemType::Background.is_background());
    assert!(!ElemType::Background.is_foreground());
    assert_ne!(ElemType::Background, ElemType::Foreground);
}

#[test]
fn four_neighbours_are_above_below_left_right() {
    assert_eq!(neighbour4((5, 7)), [(4, 7), (6, 7), (5, 6), (5, 8)]);
    assert_eq!(neighbour4((0, 0)), [(usize::MAX, 0), (1, 0), (0, usize::MAX), (0, 1)]);
    assert_eq!(
        neighbour4((usize::MAX, 3)),
        [(usize::MAX - 1, 3), (usize::MAX, 3), (usize::MAX, 2), (usize::MAX, 4)]
    );
}

#[test]
fn eight_neighbours_go_row_by_row() {
    assert_eq!(
        neighbour8((5, 7)),
        [(4, 6), (4, 7), (4, 8), (5, 6), (5, 8), (6, 6), (6, 7), (6, 8)]
    );
    let m = usize::MAX;
    assert_eq!(
        neighbour8((0, 0)),
        [(m, m), (m, 0), (m, 1), (0, m), (0, 1), (1, m), (1, 0), (1, 1)]
    );
}

#[test]
fn distance_kinds_follow_the_differences() {
    assert!(matches!(DistanceKind::new(1, 0), DistanceKind::One));
    assert!(matches!(DistanceKind::new(0, 1), DistanceKind::One));
    assert!(matches!(DistanceKind::new(1, 1), DistanceKind::SqrtTwo));
    assert!(matches!(DistanceKind::new(0, 0), DistanceKind::NotEightConnected));
    assert!(matches!(DistanceKind::new(2, 0), DistanceKind::NotEightConnected));
    assert!(matches!(DistanceKind::new(1, 2), DistanceKind::NotEightConnected));
}

#[test]
fn polygons_are_told_clockwise() {
    // The edge that closes the polygon is left out of the sum.
    assert!(is_clockwise_polygon(&[(1, 1), (1, 3), (3, 3), (3, 1)]));
    assert!(!is_clockwise_polygon(&[(1, 1), (3, 1), (3, 3), (1, 3)]));
    assert!(!is_clockwise_polygon(&[(0, 0), (0, 0), (0, 0)]));
    assert!(is_clockwise_polygon(&[(0, 1), (1, 0), (0, 0)]));
    assert!(!is_clockwise_polygon(&[(1, 0), (0, 1), (0, 0)]));
    let m = 0x7fff_ffff;
    assert!(is_clockwise_polygon(&[(0, m), (m, 0), (0, m), (m, 0)]));
    assert!(!is_clockwise_polygon(&[(m, 0), (0, m), (m, 0), (0, m)]));
}

#[test]
fn ring_state_keeps_the_longest_stretch() {
    let raw = [(0, 0), (0, 1), (0, 2), (0, 3), (0, 4), (0, 5)];
    let mut state = RingState::new();
    assert!(!state.is_on());
    assert_eq!(state.extract(&raw), vec![]);
    state.count_in_sector(0);
    assert!(state.is_on());
    state.count_out_sector();
    assert!(!state.is_on());
    state.count_out_sector();
    state.count_in_sector(2);
    state.count_in_sector(3);
    state.count_in_sector(4);
    state.count_out_sector();
    state.count_in_sector(6);
    state.count_in_sector(7);
    assert!(state.is_on());
    assert_eq!(state.extract(&raw), vec![(0, 2), (0, 3), (0, 4)]);
    state.count_in_sector(8);
    assert_eq!(state.extract(&raw), vec![(0, 2), (0, 3), (0, 4)]);
    state.count_in_sector(9);
    assert_eq!(state.extract(&raw), vec![(0, 0), (0, 1), (0, 2), (0, 3)]);
}

#[test]
fn ring_state_goes_round_the_contour_twice_at_most() {
    let raw = [(1, 0), (1, 1), (1, 2)];
    let mut state = RingState::new();
    state.count_out_sector();
    for index in 1..9 {
        state.count_in_sector(index);
    }
    assert_eq!(state.extract(&raw), vec![(1, 1), (1, 2), (1, 0), (1, 1), (1, 2)]);
    let mut late = RingState::new();
    late.count_in_sector(6);
    assert_eq!(late.extract(&raw), vec![]);
    late.count_in_sector(7);
    assert_eq!(late.extract(&[]), vec![]);
}

#[test]
fn refined_pixels_are_kept_with_their_manner() {
    let mut refined = Refined::new();
    assert!(refined.is_empty());
    assert_eq!(refined.len(), 0);
    refined.push((3, 4), Modified::F2B);
    refined.push((5, 6), Modified::B2F);
    assert!(!refined.is_empty());
    assert_eq!(refined.len(), 2);
    assert!(matches!(refined.at(0), ((3, 4), Modified::F2B)));
    assert!(matches!(refined.at(1), ((5, 6), Modified::B2F)));
    let all = refined.iter();
    assert_eq!(all.len(), 2);
    assert!(matches!(all[0], ((3, 4), Modified::F2B)));
    assert!(matches!(all[1], ((5, 6), Modified::B2F)));
    let (pixels, manners) = refined.into_raw();
    assert_eq!(pixels, vec![(3, 4), (5, 6)]);
    assert!(matches!(manners[0], Modified::F2B));
    assert!(matches!(manners[1], Modified::B2F));
}

#[test]
fn mirror_holds_the_labels_it_was_given() {
    let mirror = LabelMirror::from_labels(vec![0, 1, 2, 1]);
    assert_eq!(mirror.len(), 4);
    assert_eq!(mirror.0, vec![0, 1, 2, 1]);
}

#[test]
fn timer_adds_up_spans() {
    let mut timer = AccTimer::new();
    assert_eq!(timer.get_total_ns(), 0);
    timer.accumulate(&Duration::from_nanos(1_500));
    assert_eq!(timer.get_total_ns(), 1_500);
    assert_eq!(timer.get_total_us(), 1);
    assert_eq!(timer.get_total_ms(), 0);
    timer.accumulate(&Duration::from_millis(2));
    assert_eq!(timer.get_total_ns(), 2_001_500);
    assert_eq!(timer.get_total_us(), 2_001);
    assert_eq!(timer.get_total_ms(), 2);
    timer.start();
    assert_eq!(timer.get_total_ns(), 2_001_500);
    let span = timer.elapsed();
    assert_eq!(timer.get_total_ns(), 2_001_500 + span.as_nanos());
    timer.accumulate(&Duration::MAX);
    timer.accumulate(&Duration::MAX);
    assert!(timer.get_total_ns() >= 2 * Duration::MAX.as_nanos());
}

#[test]
fn profile_counts_slices_and_pixels() {
    let mut profile = Profile::new();
    assert_eq!(profile.get_trivial(), 0);
    assert_eq!(profile.get_target(), 0);
    assert_eq!(profile.get_eroded(), 0);
    assert_eq!(profile.get_target_time_us(), 0);
    assert_eq!(profile.get_real_time_us(), 0);
    assert!(profile.get_most_time_consuming().is_none());
    profile.count_trivial();
    profile.count_trivial();
    profile.count_target(true);
    profile.target_elapsed();
    profile.count_target(false);
    profile.target_start();
    profile.target_elapsed();
    profile.count_eroded(5);
    profile.count_eroded(0);
    profile.count_eroded(37);
    assert_eq!(profile.get_trivial(), 2);
    assert_eq!(profile.get_target(), 2);
    assert_eq!(profile.get_eroded(), 42);
    let most = profile.get_most_time_consuming().unwrap();
    assert!(most.as_micros() as u64 <= profile.get_target_time_us() + 1);
    let done = profile.finish();
    assert_eq!(done.get_trivial(), 2);
    assert_eq!(done.get_eroded(), 42);
    assert!(done.get_most_time_consuming() == Some(most));
}

#[test]
fn ablation_result_keeps_the_profiles_in_order() {
    let mut first = Profile::new();
    first.count_trivial();
    let second = Profile::new();
    let result = AblationResult::from_iter(vec![("ours", first), ("theirs", second)]);
    assert_eq!(result.len(), 2);
    assert_eq!(result.at(0).0, "ours");
    assert_eq!(result.at(0).1.get_trivial(), 1);
    assert_eq!(result.at(1).0, "theirs");
    assert_eq!(result.at(1).1.get_trivial(), 0);
}

#[test]
fn longest_stretch_inside_is_located() {
    let raw = [(0, 0), (0, 1), (0, 2), (0, 3), (0, 4), (0, 5), (0, 6)];
    let flags = [false, true, true, false, true, true, true];
    assert_eq!(locate_lls(&raw, &flags), vec![(0, 4), (0, 5), (0, 6)]);
    let flags = [false, true, true, false, true, true, false];
    assert_eq!(locate_lls(&raw, &flags), vec![(0, 1), (0, 2)]);
    let flags = [false; 7];
    assert_eq!(locate_lls(&raw, &flags), vec![]);
}

#[test]
fn stretch_that_passes_the_start_is_followed_into_the_second_round() {
    let raw = [(0, 0), (0, 1), (0, 2), (0, 3), (0, 4), (0, 5), (0, 6)];
    let flags = [true, true, false, false, true, false, true];
    assert_eq!(locate_lls(&raw, &flags), vec![(0, 6), (0, 0), (0, 1)]);
    let flags = [true, true, false, true, true, false, false];
    assert_eq!(locate_lls(&raw, &flags), vec![(0, 0), (0, 1)]);
    let flags = [true, false, true];
    assert_eq!(locate_lls(&raw[..3], &flags), vec![(0, 2), (0, 0)]);
}

#[test]
fn contour_that_lies_inside_is_gone_round_twice() {
    let raw = [(5, 5), (5, 6), (6, 6)];
    let flags = [true, true, true];
    assert_eq!(
        locate_lls(&raw, &flags),
        vec![(5, 5), (5, 6), (6, 6), (5, 5), (5, 6), (6, 6)]
    );
}

#[test]
fn short_contours_are_located_directly() {
    assert_eq!(locate_lls(&[], &[]), vec![]);
    assert_eq!(locate_lls(&[(3, 4)], &[true]), vec![(3, 4)]);
    assert_eq!(locate_lls(&[(3, 4)], &[false]), vec![]);
    assert_eq!(locate_lls(&[(3, 4), (3, 5)], &[false, true]), vec![(3, 5)]);
    assert_eq!(locate_lls(&[(3, 4), (3, 5)], &[true, false]), vec![(3, 4)]);
}
