use shadowcast::config::Config;
use shadowcast::geometry::COORD_LIMIT;
use shadowcast::scene::{PointerInput, Scene};

fn pixel_units() -> Config {
    Config {
        width: 1280,
        height: 720,
        units_per_pixel: 1,
        light_x: 200,
        light_y: 360,
        light_radius: 25,
        occluder_x: 850,
        occluder_y: 360,
        occluder_radius: 150,
        occluder_velocity_y: 1,
    }
}

fn bouncer() -> Config {
    Config {
        width: 4,
        height: 10,
        units_per_pixel: 1,
        light_x: 0,
        light_y: 0,
        light_radius: 1,
        occluder_x: 2,
        occluder_y: 5,
        occluder_radius: 2,
        occluder_velocity_y: 2,
    }
}

fn press(x: i64, y: i64) -> PointerInput {
    PointerInput { pressed: true, held: true, released: false, cursor: Some((x, y)) }
}

fn hold(x: i64, y: i64) -> PointerInput {
    PointerInput { pressed: false, held: true, released: false, cursor: Some((x, y)) }
}

fn release(x: i64, y: i64) -> PointerInput {
    PointerInput { pressed: false, held: false, released: true, cursor: Some((x, y)) }
}

#[test]
fn new_scene_starts_from_the_config() {
    let config = Config::standard();
    let scene = Scene::new(config).unwrap();
    assert_eq!(scene.config, config);
    assert_eq!((scene.light_x, scene.light_y), (1000, 1800));
    assert!(!scene.dragging);
    assert_eq!(scene.occluder_y, 1800);
    assert_eq!(scene.occluder_velocity_y, 1);
    assert!(scene.is_valid());
}

#[test]
fn new_scene_refuses_an_invalid_config() {
    assert_eq!(Scene::new(Config { width: 0, ..Config::standard() }), None);
    assert_eq!(Scene::new(Config { occluder_radius: 2000, ..Config::standard() }), None);
}

#[test]
fn idle_input_has_nothing_set() {
    let idle = PointerInput::idle();
    assert_eq!(idle, PointerInput { pressed: false, held: false, released: false, cursor: None });
    assert!(idle.is_valid());
}

#[test]
fn pointer_beyond_the_coordinate_limit_is_not_valid() {
    assert!(hold(COORD_LIMIT, -COORD_LIMIT).is_valid());
    assert!(!hold(COORD_LIMIT + 1, 0).is_valid());
    assert!(!hold(0, -COORD_LIMIT - 1).is_valid());
}

#[test]
fn press_near_the_light_starts_a_drag_and_hold_moves_the_light() {
    let mut scene = Scene::new(pixel_units()).unwrap();
    scene.update(&press(203, 364));
    assert!(scene.dragging);
    assert_eq!((scene.light_x, scene.light_y), (203, 364));
    scene.update(&hold(999, 999));
    assert!(scene.dragging);
    assert_eq!((scene.light_x, scene.light_y), (999, 999));
}

#[test]
fn press_without_hold_starts_a_drag_and_leaves_the_light() {
    let mut scene = Scene::new(pixel_units()).unwrap();
    let input = PointerInput { pressed: true, held: false, released: false, cursor: Some((205, 360)) };
    scene.update(&input);
    assert!(scene.dragging);
    assert_eq!((scene.light_x, scene.light_y), (200, 360));
    scene.update(&hold(999, 999));
    assert_eq!((scene.light_x, scene.light_y), (999, 999));
}

#[test]
fn press_on_the_rim_of_the_light_starts_a_drag() {
    let mut scene = Scene::new(pixel_units()).unwrap();
    scene.update(&press(200 + 15, 360 - 20));
    assert!(scene.dragging);
    let mut scene = Scene::new(pixel_units()).unwrap();
    scene.update(&press(200 + 25, 360));
    assert!(scene.dragging);
    let mut scene = Scene::new(pixel_units()).unwrap();
    scene.update(&press(200 + 26, 360));
    assert!(!scene.dragging);
}

#[test]
fn press_outside_the_light_then_hold_leaves_the_light() {
    let mut scene = Scene::new(pixel_units()).unwrap();
    scene.update(&press(300, 360));
    assert!(!scene.dragging);
    assert_eq!((scene.light_x, scene.light_y), (200, 360));
    for step in 0..50 {
        scene.update(&hold(300 - 2 * step, 360));
        assert!(!scene.dragging);
        assert_eq!((scene.light_x, scene.light_y), (200, 360));
    }
}

#[test]
fn dragged_light_follows_every_hold_until_release() {
    let mut scene = Scene::new(pixel_units()).unwrap();
    scene.update(&press(200, 360));
    for step in 0..20 {
        let (x, y) = (10 + 7 * step, 700 - 3 * step);
        scene.update(&hold(x, y));
        assert!(scene.dragging);
        assert_eq!((scene.light_x, scene.light_y), (x, y));
    }
    scene.update(&release(500, 500));
    assert!(!scene.dragging);
    assert_eq!((scene.light_x, scene.light_y), (10 + 7 * 19, 700 - 3 * 19));
    scene.update(&hold(1, 1));
    assert!(!scene.dragging);
    assert_eq!((scene.light_x, scene.light_y), (10 + 7 * 19, 700 - 3 * 19));
}

#[test]
fn release_on_the_tick_of_the_press_moves_the_light_and_ends_the_drag() {
    let mut scene = Scene::new(pixel_units()).unwrap();
    let input = PointerInput { pressed: true, held: true, released: true, cursor: Some((210, 350)) };
    scene.update(&input);
    assert!(!scene.dragging);
    assert_eq!((scene.light_x, scene.light_y), (210, 350));
}

#[test]
fn release_without_a_drag_changes_nothing_but_the_occluder() {
    let mut scene = Scene::new(pixel_units()).unwrap();
    scene.update(&release(200, 360));
    assert!(!scene.dragging);
    assert_eq!((scene.light_x, scene.light_y), (200, 360));
    assert_eq!(scene.occluder_y, 361);
}

#[test]
fn drag_without_a_pointer_position_leaves_the_light() {
    let mut scene = Scene::new(pixel_units()).unwrap();
    scene.update(&press(200, 360));
    let input = PointerInput { pressed: false, held: true, released: false, cursor: None };
    scene.update(&input);
    assert!(scene.dragging);
    assert_eq!((scene.light_x, scene.light_y), (200, 360));
    let input = PointerInput { pressed: true, held: true, released: false, cursor: None };
    let mut fresh = Scene::new(pixel_units()).unwrap();
    fresh.update(&input);
    assert!(!fresh.dragging);
}

#[test]
fn occluder_advances_by_its_velocity_each_tick() {
    let mut scene = Scene::new(Config::standard()).unwrap();
    for tick in 1..=100 {
        scene.update(&PointerInput::idle());
        assert_eq!(scene.occluder_y, 1800 + tick);
        assert_eq!(scene.occluder_velocity_y, 1);
    }
}

#[test]
fn occluder_reverses_once_for_each_edge_it_crosses() {
    let mut scene = Scene::new(bouncer()).unwrap();
    let expected = [
        (7, 2),
        (9, -2),
        (7, -2),
        (5, -2),
        (3, -2),
        (1, 2),
        (3, 2),
        (5, 2),
        (7, 2),
        (9, -2),
    ];
    for (y, v) in expected {
        scene.update(&PointerInput::idle());
        assert_eq!((scene.occluder_y, scene.occluder_velocity_y), (y, v));
        assert!(scene.is_valid());
    }
}

#[test]
fn occluder_reaching_an_edge_exactly_does_not_reverse() {
    let config = Config { occluder_velocity_y: 3, ..bouncer() };
    let mut scene = Scene::new(config).unwrap();
    scene.update(&PointerInput::idle());
    assert_eq!((scene.occluder_y, scene.occluder_velocity_y), (8, 3));
    scene.update(&PointerInput::idle());
    assert_eq!((scene.occluder_y, scene.occluder_velocity_y), (11, -3));
    scene.update(&PointerInput::idle());
    assert_eq!((scene.occluder_y, scene.occluder_velocity_y), (8, -3));
}

#[test]
fn standard_occluder_turns_at_the_lower_edge() {
    let mut scene = Scene::new(Config::standard()).unwrap();
    for _ in 0..1050 {
        scene.update(&PointerInput::idle());
    }
    assert_eq!((scene.occluder_y, scene.occluder_velocity_y), (2850, 1));
    scene.update(&PointerInput::idle());
    assert_eq!((scene.occluder_y, scene.occluder_velocity_y), (2851, -1));
    scene.update(&PointerInput::idle());
    assert_eq!((scene.occluder_y, scene.occluder_velocity_y), (2850, -1));
}

#[test]
fn update_keeps_the_config() {
    let mut scene = Scene::new(pixel_units()).unwrap();
    scene.update(&press(200, 360));
    scene.update(&hold(5, 5));
    scene.update(&release(5, 5));
    assert_eq!(scene.config, pixel_units());
}

#[test]
fn scene_outside_its_reachable_states_is_not_valid() {
    let scene = Scene::new(bouncer()).unwrap();
    assert!(!Scene { occluder_velocity_y: 1, ..scene }.is_valid());
    assert!(Scene { occluder_y: 0, ..scene }.is_valid());
    assert!(!Scene { occluder_y: -1, ..scene }.is_valid());
    assert!(!Scene { occluder_y: 11, occluder_velocity_y: -2, ..scene }.is_valid());
    assert!(!Scene { occluder_y: 1, occluder_velocity_y: -2, ..scene }.is_valid());
    assert!(Scene { occluder_y: 1, occluder_velocity_y: 2, ..scene }.is_valid());
    assert!(Scene { occluder_y: 9, occluder_velocity_y: -2, ..scene }.is_valid());
    assert!(Scene { occluder_y: 10, occluder_velocity_y: -2, ..scene }.is_valid());
    assert!(!Scene { occluder_y: 9, occluder_velocity_y: 2, ..scene }.is_valid());
    assert!(!Scene { light_x: COORD_LIMIT + 1, ..scene }.is_valid());
    assert!(!Scene { occluder_y: i64::MAX, ..scene }.is_valid());
}
