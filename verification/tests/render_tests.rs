use shadowcast::config::Config;
use shadowcast::render::Shade;
use shadowcast::scene::{PointerInput, Scene};

const WHITE: [u8; 4] = [0xff, 0xff, 0xff, 0xff];
const BLACK: [u8; 4] = [0x00, 0x00, 0x00, 0xff];
const YELLOW: [u8; 4] = [0xff, 0xff, 0x00, 0xff];

fn tiny() -> Config {
    Config {
        width: 8,
        height: 6,
        units_per_pixel: 1,
        light_x: 1,
        light_y: 1,
        light_radius: 1,
        occluder_x: 5,
        occluder_y: 3,
        occluder_radius: 1,
        occluder_velocity_y: 0,
    }
}

#[test]
fn shades_have_their_colours() {
    assert_eq!(Shade::Light.rgba(), WHITE);
    assert_eq!(Shade::Occluder.rgba(), WHITE);
    assert_eq!(Shade::Shadow.rgba(), BLACK);
    assert_eq!(Shade::Background.rgba(), YELLOW);
}

#[test]
fn standard_scene_shades_centre_shadow_and_background() {
    let scene = Scene::new(Config::standard()).unwrap();
    assert_eq!(scene.shade(850, 360), Shade::Occluder);
    assert_eq!(scene.shade(1270, 360), Shade::Shadow);
    assert_eq!(scene.shade(1270, 10), Shade::Background);
    assert_eq!(scene.shade(10, 360), Shade::Background);
    assert_eq!(scene.shade(200, 360), Shade::Light);
    assert_eq!(scene.shade_pixel(360 * 1280 + 850), WHITE);
    assert_eq!(scene.shade_pixel(360 * 1280 + 1270), BLACK);
    assert_eq!(scene.shade_pixel(10 * 1280 + 1270), YELLOW);
}

#[test]
fn rim_of_the_light_and_of_the_occluder_is_white() {
    let scene = Scene::new(Config::standard()).unwrap();
    assert_eq!(scene.shade(225, 360), Shade::Light);
    assert_eq!(scene.shade(226, 360), Shade::Background);
    assert_eq!(scene.shade(215, 340), Shade::Light);
    assert_eq!(scene.shade(700, 360), Shade::Occluder);
    assert_eq!(scene.shade(699, 360), Shade::Background);
    assert_eq!(scene.shade(1000, 360), Shade::Occluder);
    assert_eq!(scene.shade(1001, 360), Shade::Shadow);
    assert_eq!(scene.shade(850 + 90, 360 + 120), Shade::Occluder);
}

#[test]
fn light_disc_is_white_wherever_the_occluder_is() {
    let mut scene = Scene::new(Config::standard()).unwrap();
    for _ in 0..300 {
        scene.update(&PointerInput::idle());
        assert_eq!(scene.shade(210, 350), Shade::Light);
        assert_eq!(scene.shade(200, 385), Shade::Light);
    }
}

#[test]
fn light_on_the_occluder_shows_the_light_first() {
    let mut scene = Scene::new(Config::standard()).unwrap();
    scene.update(&PointerInput { pressed: true, held: true, released: false, cursor: Some((1000, 1800)) });
    scene.update(&PointerInput { pressed: false, held: true, released: false, cursor: Some((4250, 1801)) });
    assert_eq!((scene.light_x, scene.light_y), (4250, 1801));
    assert_eq!(scene.shade(850, 360), Shade::Light);
    assert_eq!(scene.shade(850, 400), Shade::Occluder);
}

#[test]
fn occluder_disc_is_white_wherever_the_light_is() {
    let mut scene = Scene::new(Config::standard()).unwrap();
    scene.update(&PointerInput { pressed: true, held: true, released: false, cursor: Some((1000, 1800)) });
    for (x, y) in [(0, 0), (6395, 3595), (6000, 1800), (4250, 100), (3000, 1800), (-5000, 9000)] {
        scene.update(&PointerInput { pressed: false, held: true, released: false, cursor: Some((x, y)) });
        assert_eq!(scene.shade(850, 300), Shade::Occluder);
        assert_eq!(scene.shade(800, 400), Shade::Occluder);
        assert_eq!(scene.shade_pixel(300 * 1280 + 850), WHITE);
    }
}

#[test]
fn tiny_scene_shades() {
    let scene = Scene::new(tiny()).unwrap();
    assert_eq!(scene.shade(1, 1), Shade::Light);
    assert_eq!(scene.shade(1, 0), Shade::Light);
    assert_eq!(scene.shade(0, 0), Shade::Background);
    assert_eq!(scene.shade(5, 3), Shade::Occluder);
    assert_eq!(scene.shade(6, 3), Shade::Occluder);
    assert_eq!(scene.shade(7, 4), Shade::Shadow);
    assert_eq!(scene.shade(7, 0), Shade::Background);
    assert_eq!(scene.shade(4, 2), Shade::Background);
}

#[test]
fn render_writes_every_pixel() {
    let scene = Scene::new(tiny()).unwrap();
    let mut frame = vec![0x77u8; 8 * 6 * 4];
    scene.render(&mut frame);
    let rows: [&str; 6] = [
        "YWYYYYYY",
        "WWWYYYYY",
        "YWYYYWYY",
        "YYYYWWWB",
        "YYYYYWBB",
        "YYYYYYBB",
    ];
    for (row, line) in rows.iter().enumerate() {
        for (col, letter) in line.chars().enumerate() {
            let expected = match letter {
                'W' => WHITE,
                'B' => BLACK,
                _ => YELLOW,
            };
            let at = 4 * (row * 8 + col);
            assert_eq!(&frame[at..at + 4], &expected, "pixel ({col}, {row})");
        }
    }
}

#[test]
fn render_agrees_with_shade_pixel() {
    let mut scene = Scene::new(Config::standard()).unwrap();
    scene.update(&PointerInput { pressed: true, held: true, released: false, cursor: Some((1010, 1790)) });
    let mut frame = vec![0u8; 1280 * 720 * 4];
    scene.render(&mut frame);
    for index in (0..1280 * 720).step_by(997) {
        assert_eq!(&frame[4 * index..4 * index + 4], &scene.shade_pixel(index));
    }
    assert!(frame.chunks_exact(4).all(|p| p[3] == 0xff));
}

#[test]
fn render_depends_on_the_scene_alone() {
    let scene = Scene::new(tiny()).unwrap();
    let mut first = vec![0x00u8; 8 * 6 * 4];
    let mut second = vec![0xffu8; 8 * 6 * 4];
    scene.render(&mut first);
    scene.render(&mut second);
    assert_eq!(first, second);
}
