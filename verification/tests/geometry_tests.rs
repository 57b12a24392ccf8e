use chaintrace::geometry::{filter_visible_anchors, plan_window, plan_window_dual, plan_window_simple};
use chaintrace::records::Anchor;

#[test]
fn simple_window_pads_by_a_tenth_of_the_read_length() {
    assert_eq!(plan_window_simple(100, 200, 50), (95, 205));
}

#[test]
fn simple_window_floors_the_left_edge_at_zero() {
    assert_eq!(plan_window_simple(0, 10, 50), (0, 15));
}

#[test]
fn simple_window_pad_uses_integer_division() {
    assert_eq!(plan_window_simple(100, 200, 59), (95, 205));
    assert_eq!(plan_window_simple(100, 200, 9), (100, 200));
}

#[test]
fn dual_window_covers_both_starts_plus_a_read_length() {
    // pad = 5; min start 80, max start 100
    assert_eq!(plan_window_dual(100, 80, 50), (75, 155));
    assert_eq!(plan_window_dual(80, 100, 50), (75, 155));
}

#[test]
fn dual_window_floors_the_left_edge_at_zero() {
    assert_eq!(plan_window_dual(2, 40, 50), (0, 95));
}

#[test]
fn checked_planner_picks_the_mode_from_the_secondary_start() {
    assert_eq!(plan_window(100, 200, None, 50), Some((95, 205)));
    assert_eq!(plan_window(100, 200, Some(80), 50), Some((75, 155)));
}

#[test]
fn checked_planner_refuses_windows_past_the_coordinate_range() {
    assert_eq!(plan_window(u32::MAX, u32::MAX, None, 50), None);
    assert_eq!(plan_window(u32::MAX - 1, u32::MAX - 1, Some(0), 50), None);
    assert_eq!(plan_window(0, u32::MAX, None, 0), Some((0, u32::MAX)));
}

#[test]
fn filter_excludes_partially_overlapping_footprints() {
    let anchors = vec![
        Anchor { ref_start: 204, query_start: 0 },
        Anchor { ref_start: 190, query_start: 3 },
    ];
    let visible = filter_visible_anchors(&anchors, 10, 95, 205);
    assert_eq!(visible, vec![Anchor { ref_start: 190, query_start: 3 }]);
}

#[test]
fn filter_boundaries_are_inclusive() {
    let anchors = vec![
        Anchor { ref_start: 95, query_start: 0 },   // starts exactly at w0
        Anchor { ref_start: 94, query_start: 0 },   // one before w0
        Anchor { ref_start: 195, query_start: 0 },  // footprint ends exactly at w1
        Anchor { ref_start: 196, query_start: 0 },  // footprint ends one past w1
    ];
    let visible = filter_visible_anchors(&anchors, 10, 95, 205);
    assert_eq!(
        visible,
        vec![
            Anchor { ref_start: 95, query_start: 0 },
            Anchor { ref_start: 195, query_start: 0 }
        ]
    );
}

#[test]
fn filter_keeps_pool_order() {
    let anchors = vec![
        Anchor { ref_start: 150, query_start: 2 },
        Anchor { ref_start: 100, query_start: 1 },
        Anchor { ref_start: 120, query_start: 0 },
    ];
    let visible = filter_visible_anchors(&anchors, 10, 95, 205);
    assert_eq!(visible, anchors);
}

#[test]
fn filter_near_the_top_of_the_range_does_not_overflow() {
    let anchors = vec![Anchor { ref_start: u32::MAX, query_start: 0 }];
    let visible = filter_visible_anchors(&anchors, u32::MAX, 0, u32::MAX);
    assert_eq!(visible, vec![]);
}
