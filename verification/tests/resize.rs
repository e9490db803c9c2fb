use dock_layout::resize::{redistribute, sum_sizes, PANEL_MIN_SIZE};

#[test]
fn expanding_cascades_through_following_regions() {
    let sizes = vec![200, 200, 200];
    assert_eq!(redistribute(&sizes, 0, 350, 100, 600), vec![350, 100, 150]);
}

#[test]
fn expanding_takes_from_the_nearest_region_first() {
    let sizes = vec![200, 200, 200];
    assert_eq!(redistribute(&sizes, 0, 250, 100, 600), vec![250, 150, 200]);
    assert_eq!(redistribute(&sizes, 0, 300, 100, 600), vec![300, 100, 200]);
    assert_eq!(redistribute(&sizes, 0, 301, 100, 600), vec![301, 100, 199]);
}

#[test]
fn expanding_beyond_all_slack_hits_the_wall() {
    let sizes = vec![200, 200, 200];
    // both followers are at the floor; the excess of 100 comes back
    assert_eq!(redistribute(&sizes, 0, 500, 100, 600), vec![400, 100, 100]);
}

#[test]
fn expanding_a_middle_region_leaves_earlier_ones_alone() {
    let sizes = vec![200, 200, 200, 200];
    assert_eq!(redistribute(&sizes, 1, 350, 100, 800), vec![200, 350, 100, 150]);
}

#[test]
fn shrinking_gives_the_space_to_the_right_neighbour() {
    let sizes = vec![200, 200, 200];
    assert_eq!(redistribute(&sizes, 0, 150, 100, 600), vec![150, 250, 200]);
    assert_eq!(redistribute(&sizes, 1, 120, 100, 600), vec![200, 120, 280]);
}

#[test]
fn shrinking_stops_at_the_floor() {
    let sizes = vec![200, 200, 200];
    assert_eq!(redistribute(&sizes, 0, 40, 100, 600), vec![100, 300, 200]);
}

#[test]
fn shrinking_below_the_floor_pulls_earlier_regions_along() {
    let sizes = vec![200, 200, 200];
    // region 1 stops at 100; the 50 asked below the floor come out of region 0
    assert_eq!(redistribute(&sizes, 1, 50, 100, 600), vec![150, 100, 300]);
}

#[test]
fn pulled_regions_do_not_go_below_the_floor() {
    let sizes = vec![120, 130, 200, 200];
    // 100 below the floor: region 1 gives 30, region 0 gives 20, no more
    assert_eq!(redistribute(&sizes, 2, 0, 100, 700), vec![100, 100, 100, 300]);
    let sizes = vec![100, 200, 200];
    assert_eq!(redistribute(&sizes, 1, 50, 100, 600), vec![100, 100, 300]);
}

#[test]
fn unchanged_request_changes_nothing() {
    let sizes = vec![200, 200, 200];
    assert_eq!(redistribute(&sizes, 1, 200, 100, 600), vec![200, 200, 200]);
}

#[test]
fn last_region_cannot_be_dragged() {
    let sizes = vec![200, 200, 200];
    assert_eq!(redistribute(&sizes, 2, 500, 100, 600), vec![200, 200, 200]);
    assert_eq!(redistribute(&sizes, 3, 500, 100, 600), vec![200, 200, 200]);
    assert_eq!(redistribute(&sizes, usize::MAX, 500, 100, 600), vec![200, 200, 200]);
}

#[test]
fn no_region_or_one_region_is_left_alone() {
    assert_eq!(redistribute(&Vec::new(), 0, 500, 100, 600), Vec::<i32>::new());
    assert_eq!(redistribute(&vec![300], 0, 500, 100, 600), vec![300]);
}

#[test]
fn overflow_is_taken_from_the_dragged_region() {
    // the regions as laid out exceed the container by 50
    let sizes = vec![250, 200, 200];
    assert_eq!(redistribute(&sizes, 0, 260, 100, 600), vec![210, 190, 200]);
}

#[test]
fn overflow_does_not_push_the_dragged_region_below_the_floor() {
    let sizes = vec![100, 500];
    assert_eq!(redistribute(&sizes, 0, 150, 100, 400), vec![100, 450]);
}

#[test]
fn sizes_stay_at_the_floor_and_within_the_container() {
    let mut sizes = vec![200, 200, 200];
    let drags = [(0usize, 350), (1, 10), (0, 90), (1, 1000), (0, -50), (1, 250), (0, 600)];
    for (ix, size) in drags {
        sizes = redistribute(&sizes, ix, size, PANEL_MIN_SIZE, 600);
        assert_eq!(sizes.len(), 3);
        assert!(sizes.iter().all(|s| *s >= PANEL_MIN_SIZE));
        assert!(sizes.iter().map(|s| *s as i64).sum::<i64>() <= 600);
    }
}

#[test]
fn neighbour_growth_saturates() {
    let sizes = vec![i32::MAX, i32::MAX, 100];
    assert_eq!(redistribute(&sizes, 0, 100, 100, i32::MAX)[1], i32::MAX);
}

#[test]
fn sum_is_exact_beyond_the_range_of_a_pixel() {
    assert_eq!(sum_sizes(&vec![i32::MAX, i32::MAX, i32::MAX]), 3 * (i32::MAX as i128));
    assert_eq!(sum_sizes(&vec![i32::MIN, i32::MIN]), 2 * (i32::MIN as i128));
    assert_eq!(sum_sizes(&Vec::new()), 0);
    assert_eq!(sum_sizes(&vec![200, 200, 200]), 600);
}

#[test]
fn floor_is_a_hundred_pixels() {
    assert_eq!(PANEL_MIN_SIZE, 100);
}
