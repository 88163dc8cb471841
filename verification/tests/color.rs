use pixelarteditor::color::{blend_colors, get_default_palette, Color};

#[test]
fn color_new_keeps_channels() {
    let c = Color::new(1, 2, 3, 4);
    assert_eq!(c, Color { r: 1, g: 2, b: 3, a: 4 });
    assert_eq!(c.to_rgba(), (1, 2, 3, 4));
}

#[test]
fn colors_are_equal_when_all_channels_match() {
    assert_eq!(Color::new(9, 8, 7, 6), Color::new(9, 8, 7, 6));
    assert_ne!(Color::new(9, 8, 7, 6), Color::new(9, 8, 7, 5));
    assert_ne!(Color::new(9, 8, 7, 6), Color::new(0, 8, 7, 6));
}

#[test]
fn named_colors() {
    assert_eq!(Color::transparent(), Color::new(0, 0, 0, 0));
    assert_eq!(Color::black(), Color::new(0, 0, 0, 255));
    assert_eq!(Color::white(), Color::new(255, 255, 255, 255));
    assert_eq!(Color::red(), Color::new(255, 0, 0, 255));
    assert_eq!(Color::green(), Color::new(0, 255, 0, 255));
    assert_eq!(Color::blue(), Color::new(0, 0, 255, 255));
}

#[test]
fn transparent_foreground_keeps_any_background() {
    let backgrounds = [
        Color::new(0, 0, 0, 0),
        Color::new(5, 6, 7, 0),
        Color::new(10, 20, 30, 40),
        Color::new(255, 255, 255, 255),
    ];
    for bg in backgrounds {
        assert_eq!(blend_colors(bg, Color::new(0, 0, 0, 0)), bg);
        assert_eq!(blend_colors(bg, Color::new(200, 100, 50, 0)), bg);
    }
}

#[test]
fn opaque_foreground_replaces_any_background() {
    let fg = Color::new(12, 34, 56, 255);
    let backgrounds = [
        Color::new(0, 0, 0, 0),
        Color::new(5, 6, 7, 0),
        Color::new(10, 20, 30, 40),
        Color::new(255, 255, 255, 255),
    ];
    for bg in backgrounds {
        assert_eq!(blend_colors(bg, fg), fg);
    }
}

#[test]
fn foreground_over_nothing_is_the_foreground() {
    let fg = Color::new(200, 100, 50, 77);
    assert_eq!(blend_colors(Color::new(0, 0, 0, 0), fg), fg);
    assert_eq!(blend_colors(Color::new(9, 9, 9, 0), fg), fg);
}

#[test]
fn half_red_over_white() {
    let white = Color::white();
    assert_eq!(
        blend_colors(white, Color::new(255, 0, 0, 127)),
        Color::new(255, 128, 128, 255)
    );
    assert_eq!(
        blend_colors(white, Color::new(255, 0, 0, 128)),
        Color::new(255, 127, 127, 255)
    );
}

#[test]
fn translucent_over_translucent() {
    let bg = Color::new(0, 0, 255, 128);
    let fg = Color::new(255, 0, 0, 128);
    assert_eq!(blend_colors(bg, fg), Color::new(170, 0, 84, 191));
}

#[test]
fn fading_rounds_to_the_nearest_alpha() {
    let c = Color::new(10, 20, 30, 255);
    assert_eq!(c.faded(255), c);
    assert_eq!(c.faded(128), Color::new(10, 20, 30, 128));
    assert_eq!(c.faded(127), Color::new(10, 20, 30, 127));
    assert_eq!(c.faded(0), Color::new(10, 20, 30, 0));
    assert_eq!(Color::new(1, 1, 1, 100).faded(128), Color::new(1, 1, 1, 50));
    assert_eq!(Color::new(1, 1, 1, 3).faded(128), Color::new(1, 1, 1, 2));
    assert_eq!(Color::new(1, 1, 1, 1).faded(127), Color::new(1, 1, 1, 0));
    assert_eq!(Color::new(1, 1, 1, 1).faded(128), Color::new(1, 1, 1, 1));
}

#[test]
fn ghosts_are_tinted_and_fade_with_distance() {
    let c = Color::new(100, 200, 50, 255);
    let blue = Color::blue();
    assert_eq!(c.ghosted(blue, 77, 1), Color::new(70, 140, 111, 61));
    assert_eq!(c.ghosted(blue, 77, 2), Color::new(70, 140, 111, 46));
    assert_eq!(c.ghosted(blue, 77, 4), Color::new(70, 140, 111, 15));
    assert_eq!(c.ghosted(blue, 77, 5), Color::new(70, 140, 111, 0));
    assert_eq!(c.ghosted(blue, 77, 9), Color::new(70, 140, 111, 0));
    assert_eq!(c.ghosted(Color::red(), 255, 1), Color::new(146, 140, 35, 204));
}

#[test]
fn with_alpha_replaces_alpha_only() {
    assert_eq!(Color::new(1, 2, 3, 4).with_alpha(200), Color::new(1, 2, 3, 200));
}

#[test]
fn default_palette_has_sixteen_colors() {
    let palette = get_default_palette();
    assert_eq!(palette.len(), 16);
    assert_eq!(palette[0], Color::black());
    assert_eq!(palette[1], Color::white());
    assert_eq!(palette[5], Color::new(255, 255, 0, 255));
    assert_eq!(palette[6], Color::new(173, 216, 230, 255));
    assert_eq!(palette[7], Color::new(255, 165, 0, 255));
    assert_eq!(palette[15], Color::new(128, 128, 0, 255));
}
