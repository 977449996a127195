use shadowcast::config::Config;
use shadowcast::geometry::COORD_LIMIT;

#[test]
fn standard_config_has_its_values() {
    let c = Config::standard();
    assert_eq!(c.width, 1280);
    assert_eq!(c.height, 720);
    assert_eq!(c.units_per_pixel, 5);
    assert_eq!((c.light_x, c.light_y, c.light_radius), (200 * 5, 360 * 5, 25 * 5));
    assert_eq!((c.occluder_x, c.occluder_y, c.occluder_radius), (850 * 5, 360 * 5, 150 * 5));
    assert_eq!(c.occluder_velocity_y, 1);
    assert!(c.is_valid());
}

#[test]
fn empty_frame_is_not_valid() {
    assert!(!Config { width: 0, ..Config::standard() }.is_valid());
    assert!(!Config { height: 0, ..Config::standard() }.is_valid());
    assert!(!Config { units_per_pixel: 0, ..Config::standard() }.is_valid());
}

#[test]
fn frame_beyond_the_coordinate_limit_is_not_valid() {
    let wide = Config { width: (COORD_LIMIT / 5) as u32 + 1, ..small() };
    assert!(!Config { units_per_pixel: 5, ..wide }.is_valid());
    assert!(!Config { units_per_pixel: u32::MAX, ..Config::standard() }.is_valid());
    assert!(!Config { width: u32::MAX, height: u32::MAX, ..Config::standard() }.is_valid());
}

fn small() -> Config {
    Config {
        width: 8,
        height: 10,
        units_per_pixel: 1,
        light_x: 1,
        light_y: 1,
        light_radius: 1,
        occluder_x: 5,
        occluder_y: 5,
        occluder_radius: 2,
        occluder_velocity_y: 2,
    }
}

#[test]
fn small_config_is_valid() {
    assert!(small().is_valid());
}

#[test]
fn negative_radius_is_not_valid() {
    assert!(!Config { light_radius: -1, ..small() }.is_valid());
    assert!(!Config { occluder_radius: -1, ..small() }.is_valid());
}

#[test]
fn occluder_must_fit_and_start_inside() {
    assert!(Config { occluder_radius: 5, occluder_y: 5, ..small() }.is_valid());
    assert!(!Config { occluder_radius: 6, occluder_y: 5, ..small() }.is_valid());
    assert!(!Config { occluder_y: 1, ..small() }.is_valid());
    assert!(!Config { occluder_y: 9, ..small() }.is_valid());
    assert!(Config { occluder_y: 2, ..small() }.is_valid());
    assert!(Config { occluder_y: 8, ..small() }.is_valid());
}

#[test]
fn positions_beyond_the_coordinate_limit_are_not_valid() {
    assert!(Config { light_x: COORD_LIMIT, light_y: -COORD_LIMIT, ..small() }.is_valid());
    assert!(!Config { light_x: COORD_LIMIT + 1, ..small() }.is_valid());
    assert!(!Config { light_y: -COORD_LIMIT - 1, ..small() }.is_valid());
    assert!(!Config { occluder_x: COORD_LIMIT + 1, ..small() }.is_valid());
    assert!(!Config { light_radius: COORD_LIMIT + 1, ..small() }.is_valid());
    assert!(!Config { light_x: i64::MIN, ..small() }.is_valid());
}

#[test]
fn velocity_must_leave_the_occluder_within_the_coordinate_limit() {
    assert!(Config { occluder_velocity_y: COORD_LIMIT - 10, ..small() }.is_valid());
    assert!(!Config { occluder_velocity_y: COORD_LIMIT - 9, ..small() }.is_valid());
    assert!(Config { occluder_velocity_y: 10 - COORD_LIMIT, ..small() }.is_valid());
    assert!(!Config { occluder_velocity_y: 9 - COORD_LIMIT, ..small() }.is_valid());
    assert!(!Config { occluder_velocity_y: i64::MIN, ..small() }.is_valid());
    assert!(Config { occluder_velocity_y: 0, ..small() }.is_valid());
}
