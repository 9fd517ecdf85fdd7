use focus::region::build_config;
use focus::{Config, ConfigError, Coords, Rect, ScaleMode};

#[test]
fn defaults_cover_whole_display() {
    let r = build_config(1920, 1080, None, None, None, false);
    assert_eq!(
        r,
        Ok(Config {
            rect: Rect { x: 0, y: 0, w: 1920, h: 1080 },
            window_w: 1920,
            window_h: 1080,
            scale: ScaleMode::AspectPreserving,
        })
    );
}

#[test]
fn focus_within_display_is_accepted() {
    let r = build_config(
        1920,
        1080,
        None,
        Some(Coords(640, 480)),
        Some(Coords(100, 50)),
        false,
    );
    let c = r.expect("region must be accepted");
    assert_eq!(c.rect, Rect { x: 100, y: 50, w: 640, h: 480 });
    assert_eq!(c.window_w, 1920);
    assert_eq!(c.window_h, 1080);
    assert_eq!(c.scale, ScaleMode::AspectPreserving);
}

#[test]
fn focus_outside_display_is_rejected() {
    let r = build_config(
        800,
        600,
        None,
        Some(Coords(1000, 1000)),
        Some(Coords(1000, 1000)),
        false,
    );
    assert_eq!(r, Err(ConfigError { display_w: 800, display_h: 600 }));
}

#[test]
fn exact_fit_is_accepted() {
    let r = build_config(800, 600, None, Some(Coords(700, 500)), Some(Coords(100, 100)), false);
    assert!(r.is_ok());
}

#[test]
fn one_pixel_over_is_rejected() {
    let r = build_config(800, 600, None, Some(Coords(701, 500)), Some(Coords(100, 100)), false);
    assert_eq!(r, Err(ConfigError { display_w: 800, display_h: 600 }));
    let r = build_config(800, 600, None, Some(Coords(700, 501)), Some(Coords(100, 100)), false);
    assert!(r.is_err());
}

#[test]
fn offset_overflow_is_rejected() {
    let r = build_config(
        800,
        600,
        None,
        Some(Coords(2, 2)),
        Some(Coords(usize::MAX, 0)),
        false,
    );
    assert!(r.is_err());
}

#[test]
fn stretch_flag_selects_stretch_mode() {
    let r = build_config(640, 480, Some(Coords(320, 240)), None, None, true);
    let c = r.expect("region must be accepted");
    assert_eq!(c.scale, ScaleMode::Stretch);
    assert_eq!(c.window_w, 320);
    assert_eq!(c.window_h, 240);
    assert_eq!(c.rect, Rect { x: 0, y: 0, w: 640, h: 480 });
}

#[test]
fn empty_focus_is_accepted() {
    let r = build_config(10, 10, None, Some(Coords(0, 0)), Some(Coords(10, 10)), false);
    assert!(r.is_ok());
}
