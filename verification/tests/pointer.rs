use openlogi_flow::pointer::{narrow, Bounds, PointerError};

#[test]
fn out_of_range_coordinates_saturate() {
    assert_eq!(narrow(0), 0);
    assert_eq!(narrow(1_919), 1_919);
    assert_eq!(narrow(i32::MAX), i16::MAX);
    assert_eq!(narrow(i32::MIN), i16::MIN);
}

#[test]
fn coordinates_at_the_limits_are_kept() {
    assert_eq!(narrow(i32::from(i16::MAX)), i16::MAX);
    assert_eq!(narrow(i32::from(i16::MIN)), i16::MIN);
    assert_eq!(narrow(i32::from(i16::MAX) + 1), i16::MAX);
    assert_eq!(narrow(-7), -7);
}

#[test]
fn a_root_window_starts_at_the_origin() {
    let bounds = Bounds::of_root_window(1920, 1080);
    assert_eq!(bounds.corners(), (0, 0, 1919, 1079));
    assert_eq!(Bounds::of_root_window(0, 0).corners(), (0, 0, -1, -1));
}

#[test]
fn a_virtual_screen_can_start_left_of_zero() {
    assert_eq!(
        Bounds::of_virtual_screen(-1920, -200, 3840, 1280),
        Ok(Bounds {
            min_x: -1920,
            min_y: -200,
            max_x: 1919,
            max_y: 1079,
        })
    );
}

#[test]
fn a_virtual_screen_without_extent_is_refused() {
    for (width, height) in [(0, 1080), (1920, 0), (-1, -1)] {
        assert_eq!(
            Bounds::of_virtual_screen(0, 0, width, height),
            Err(PointerError::Request("virtual screen has no extent".to_owned()))
        );
    }
}

#[test]
fn a_virtual_screen_past_the_last_coordinate_saturates() {
    let bounds = Bounds::of_virtual_screen(i32::MAX - 10, i32::MIN, 100, i32::MAX)
        .expect("it has an extent");
    assert_eq!(bounds.max_x, i32::MAX - 1);
    assert_eq!(bounds.max_y, -2);
    assert!(bounds.is_measurable());
}

#[test]
fn a_desktop_wider_than_an_i32_is_not_measurable() {
    let bounds = Bounds {
        min_x: -1,
        min_y: 0,
        max_x: i32::MAX,
        max_y: 1079,
    };
    assert!(!bounds.is_measurable());
    assert!(Bounds { min_x: 0, ..bounds }.is_measurable());
}
