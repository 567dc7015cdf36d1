use unit_compose::navigation::{
    check_pose_trail, navigation_cells, navigation_dimensions, navigation_pixels, timing_color,
    MAX_POSE_TRAIL_POINTS,
};

#[test]
fn visualization_uses_four_ros_map_states_and_y_up_coordinates() {
    let occupancy = [0, 100, -1, 0];
    let cost = [1, 1, 0, 0];
    assert_eq!(
        navigation_pixels(&occupancy, &cost, 2),
        [160, 166, 172, 245, 247, 249, 245, 158, 11, 24, 28, 32]
    );
}

#[test]
fn single_row_map_keeps_cell_order() {
    let occupancy = [-5, 49, 50];
    let cost = [9, 0, 0];
    assert_eq!(
        navigation_pixels(&occupancy, &cost, 3),
        [160, 166, 172, 245, 247, 249, 24, 28, 32]
    );
}

#[test]
fn grids_must_be_nonempty_and_match_the_dimensions() {
    let occupancy = [0, 100, 0, 0];
    let short_cost = [0, 1, 0];
    let cost = [0, 1, 0, 0];
    let error = navigation_cells(2, 2, &occupancy, &short_cost).unwrap_err();
    assert_eq!(
        error.message(),
        "navigation images must be nonempty and match width * height"
    );
    assert!(navigation_cells(0, 2, &[], &[]).is_err());
    assert_eq!(navigation_cells(2, 2, &occupancy, &cost).unwrap(), 4);
    let overflow = navigation_cells(usize::MAX, 2, &occupancy, &cost).unwrap_err();
    assert_eq!(overflow.message(), "navigation image dimensions overflow");
}

#[test]
fn map_dimensions_must_fit_u32() {
    assert_eq!(navigation_dimensions(640, 480).unwrap(), [640, 480]);
    let wide = (u32::MAX as usize) + 1;
    assert_eq!(
        navigation_dimensions(wide, 1).unwrap_err().message(),
        "navigation width exceeds u32"
    );
    assert_eq!(
        navigation_dimensions(1, wide).unwrap_err().message(),
        "navigation height exceeds u32"
    );
}

#[test]
fn pose_trail_is_bounded() {
    assert!(check_pose_trail(MAX_POSE_TRAIL_POINTS).is_ok());
    assert_eq!(
        check_pose_trail(MAX_POSE_TRAIL_POINTS + 1)
            .unwrap_err()
            .message(),
        "recent pose trail exceeds its fixed maximum"
    );
}

#[test]
fn timing_palette_repeats_after_six_units() {
    assert_eq!(timing_color(0), (21, 101, 192));
    assert_eq!(timing_color(5), (84, 110, 122));
    assert_eq!(timing_color(6), timing_color(0));
    assert_eq!(timing_color(14), (239, 108, 0));
}
