use pixelarteditor::color::Color;
use pixelarteditor::editing::{default_filter, Filter};
use pixelarteditor::editor::PixelArtEditor;
use pixelarteditor::filters::{
    add_noise_to, blur_grid, matches_within, outline_grid, pixelate_grid, replace_color_in,
    shift_pixel,
};
use pixelarteditor::grid::new_grid;
use pixelarteditor::layer::Layer;
use pixelarteditor::plugins::{
    same_text, BlurPlugin, ColorReplacementPlugin, NoisePlugin, OutlinePlugin, PixelatePlugin,
    PluginCategory, PluginResult,
};

fn gray(v: u8) -> Color {
    Color::new(v, v, v, 255)
}

#[test]
fn blur_keeps_a_uniform_neighbourhood() {
    let g = new_grid(5, 5, Color::new(10, 200, 30, 77));
    assert_eq!(blur_grid(&g, 1), g);
    assert_eq!(blur_grid(&g, 3), g);
    assert_eq!(blur_grid(&g, 100), g);
    let mut g = new_grid(7, 7, gray(50));
    g[0][0] = gray(250);
    let blurred = blur_grid(&g, 1);
    assert_eq!(blurred[3][3], gray(50));
    assert_eq!(blurred[6][6], gray(50));
    assert_eq!(blurred[2][2], gray(50));
}

#[test]
fn blur_averages_only_the_pixels_present() {
    let mut g = new_grid(3, 3, Color::new(0, 0, 0, 255));
    g[1][1] = Color::new(255, 255, 255, 255);
    let blurred = blur_grid(&g, 1);
    assert_eq!(blurred[1][1], gray(28));
    assert_eq!(blurred[0][0], gray(64));
    assert_eq!(blurred[0][1], gray(43));
    assert_eq!(blurred[2][2], gray(64));
    assert_eq!(blurred[1][2], gray(43));
}

#[test]
fn blur_of_radius_zero_changes_nothing() {
    let mut g = new_grid(3, 2, gray(0));
    g[1][2] = gray(255);
    assert_eq!(blur_grid(&g, 0), g);
}

#[test]
fn blur_reads_the_original_grid() {
    let g = vec![vec![gray(0), gray(90), gray(0), gray(0), gray(0)]];
    let blurred = blur_grid(&g, 1);
    assert_eq!(blurred, vec![vec![gray(45), gray(30), gray(30), gray(0), gray(0)]]);
}

#[test]
fn blur_averages_each_channel_on_its_own() {
    let g = vec![vec![Color::new(10, 0, 255, 0), Color::new(20, 1, 0, 255)]];
    let blurred = blur_grid(&g, 1);
    assert_eq!(blurred[0][0], Color::new(15, 1, 128, 128));
    assert_eq!(blurred[0][1], Color::new(15, 1, 128, 128));
}

#[test]
fn blur_plugin_blurs_a_layer() {
    let mut layer = Layer::new("L".to_string(), 3, 3, gray(0));
    layer.grid[1][1] = gray(255);
    let plugin = BlurPlugin::new();
    plugin.apply_blur(&mut layer, 1);
    assert_eq!(layer.grid[1][1], gray(28));
    assert_eq!(layer.name, "L");
    assert_eq!(plugin.metadata.name, "Blur");
    assert_eq!(plugin.metadata.version, "1.0.0");
    assert_eq!(plugin.metadata.author, "Kamari Tool");
    assert_eq!(plugin.metadata.description, "Apply blur effect to the image");
    assert_eq!(plugin.metadata.aseprite_version, "1.0");
    assert_eq!(plugin.metadata.entry_point, "blur");
    assert_eq!(plugin.metadata.category, PluginCategory::Filter);
    let command = plugin.command();
    assert_eq!(command.id, "blur");
    assert_eq!(command.name, "Blur");
    assert_eq!(command.description, "Apply blur effect");
    assert_eq!(command.category, PluginCategory::Filter);
    assert_eq!(command.shortcut, Some("Ctrl+B".to_string()));
    assert!(plugin.can_execute("blur"));
    assert!(!plugin.can_execute("noise"));
}

#[test]
fn pixelate_averages_a_checkered_block() {
    let a = Color::new(0, 0, 0, 255);
    let b = Color::new(255, 255, 255, 255);
    let mut g = new_grid(4, 4, a);
    for y in 0..4 {
        for x in 0..4 {
            if (x / 2 + y / 2) % 2 == 1 {
                g[y][x] = b;
            }
        }
    }
    assert_eq!(pixelate_grid(&g, 4), vec![vec![Color::new(127, 127, 127, 255); 4]; 4]);
}

#[test]
fn pixelate_tiles_are_smaller_at_the_edges() {
    let mut g = new_grid(3, 3, gray(0));
    g[0][0] = gray(40);
    g[0][2] = gray(100);
    g[1][2] = gray(51);
    g[2][1] = gray(9);
    g[2][2] = gray(200);
    let out = pixelate_grid(&g, 2);
    assert_eq!(
        out,
        vec![
            vec![gray(10), gray(10), gray(75)],
            vec![gray(10), gray(10), gray(75)],
            vec![gray(4), gray(4), gray(200)],
        ]
    );
}

#[test]
fn pixelate_with_blocks_of_one_changes_nothing() {
    let mut g = new_grid(3, 2, gray(7));
    g[1][1] = Color::new(1, 2, 3, 4);
    assert_eq!(pixelate_grid(&g, 1), g);
    assert_eq!(pixelate_grid(&g, usize::MAX), vec![vec![Color::new(6, 6, 6, 213); 3]; 2]);
}

#[test]
fn pixelate_plugin_pixelates_a_layer() {
    let mut layer = Layer::new("L".to_string(), 2, 2, gray(0));
    layer.grid[0][0] = gray(200);
    let plugin = PixelatePlugin::new();
    plugin.apply_pixelate(&mut layer, 2);
    assert_eq!(layer.grid, vec![vec![gray(50); 2]; 2]);
    assert_eq!(plugin.metadata.name, "Pixelate");
    assert_eq!(plugin.command().id, "pixelate");
    assert!(plugin.can_execute("pixelate"));
}

#[test]
fn outline_surrounds_pixels_with_alpha() {
    let ink = Color::new(5, 5, 5, 255);
    let edge = Color::new(250, 0, 0, 255);
    let none = Color::transparent();
    let mut g = new_grid(5, 5, none);
    g[2][2] = ink;
    let out = outline_grid(&g, edge, 1);
    let mut want = new_grid(5, 5, none);
    want[2][2] = ink;
    want[1][2] = edge;
    want[3][2] = edge;
    want[2][1] = edge;
    want[2][3] = edge;
    assert_eq!(out, want);
    let out = outline_grid(&g, edge, 2);
    let mut want = new_grid(5, 5, edge);
    want[2][2] = ink;
    for (x, y) in [(0, 0), (1, 0), (3, 0), (4, 0), (0, 1), (4, 1), (0, 3), (4, 3), (0, 4), (1, 4), (3, 4), (4, 4)] {
        want[y][x] = none;
    }
    assert_eq!(out, want);
}

#[test]
fn outline_does_not_grow_from_its_own_pixels() {
    let ink = Color::new(5, 5, 5, 1);
    let edge = Color::new(250, 0, 0, 255);
    let none = Color::new(7, 7, 7, 0);
    let g = vec![vec![ink, none, none, none]];
    assert_eq!(outline_grid(&g, edge, 1), vec![vec![ink, edge, none, none]]);
    assert_eq!(outline_grid(&g, edge, 0), g);
    let all = new_grid(3, 3, none);
    assert_eq!(outline_grid(&all, edge, 2), all);
}

#[test]
fn outline_plugin_outlines_a_layer() {
    let mut layer = Layer::new("L".to_string(), 3, 1, Color::transparent());
    layer.grid[0][1] = Color::white();
    let plugin = OutlinePlugin::new();
    plugin.apply_outline(&mut layer, Color::black(), 1);
    assert_eq!(layer.grid, vec![vec![Color::black(), Color::white(), Color::black()]]);
    assert_eq!(plugin.metadata.name, "Outline");
    assert_eq!(plugin.command().id, "outline");
    assert!(plugin.can_execute("outline"));
}

#[test]
fn replacement_at_the_tolerance_and_one_beyond() {
    let from = Color::new(100, 100, 100, 100);
    let to = Color::new(1, 2, 3, 4);
    let at = Color::new(110, 90, 110, 90);
    let beyond_r = Color::new(111, 90, 110, 90);
    let beyond_g = Color::new(110, 89, 110, 90);
    let beyond_b = Color::new(110, 90, 111, 90);
    let beyond_a = Color::new(110, 90, 110, 89);
    let mut g = vec![vec![at, beyond_r, beyond_g], vec![beyond_b, beyond_a, from]];
    replace_color_in(&mut g, from, to, 10);
    assert_eq!(g, vec![vec![to, beyond_r, beyond_g], vec![beyond_b, beyond_a, to]]);
    assert!(matches_within(at, from, 10));
    assert!(!matches_within(at, from, 9));
    assert!(!matches_within(beyond_a, from, 10));
}

#[test]
fn replacement_without_tolerance_needs_the_very_color() {
    let mut g = vec![vec![Color::white(), Color::new(255, 255, 255, 254), Color::black()]];
    replace_color_in(&mut g, Color::white(), Color::black(), 0);
    assert_eq!(g, vec![vec![Color::black(), Color::new(255, 255, 255, 254), Color::black()]]);
    let mut g = vec![vec![Color::white(), Color::transparent()]];
    replace_color_in(&mut g, Color::new(128, 128, 128, 128), Color::red(), 255);
    assert_eq!(g, vec![vec![Color::red(), Color::red()]]);
}

#[test]
fn replacement_plugin_replaces_in_a_layer() {
    let mut layer = Layer::new("L".to_string(), 2, 1, Color::white());
    layer.grid[0][1] = Color::new(250, 250, 250, 255);
    let plugin = ColorReplacementPlugin::new();
    plugin.replace_color(&mut layer, Color::white(), Color::red(), 4);
    assert_eq!(layer.grid, vec![vec![Color::red(), Color::new(250, 250, 250, 255)]]);
    assert_eq!(plugin.metadata.name, "Color Replace");
    assert_eq!(plugin.command().id, "color_replace");
    assert!(plugin.can_execute("color_replace"));
    assert!(!plugin.can_execute("color"));
}

#[test]
fn shifting_a_pixel_clamps_each_channel() {
    let c = Color::new(5, 128, 250, 77);
    assert_eq!(shift_pixel(c, -10, 10, 10), Color::new(0, 138, 255, 77));
    assert_eq!(shift_pixel(c, 0, 0, 0), c);
    assert_eq!(shift_pixel(c, i64::MAX, i64::MIN, -250), Color::new(255, 0, 0, 77));
    let hidden = Color::new(5, 128, 250, 0);
    assert_eq!(shift_pixel(hidden, 50, 50, 50), hidden);
}

#[test]
fn noise_moves_color_channels_within_the_intensity() {
    let base = Color::new(128, 5, 250, 200);
    let hidden = Color::new(128, 128, 128, 0);
    let mut g = new_grid(32, 32, base);
    g[3] = vec![hidden; 32];
    add_noise_to(&mut g, 10);
    let mut reds = std::collections::BTreeSet::new();
    let mut differ = 0;
    for (y, row) in g.iter().enumerate() {
        for c in row {
            if y == 3 {
                assert_eq!(*c, hidden);
                continue;
            }
            assert_eq!(c.a, 200);
            assert!(c.r >= 118 && c.r <= 138);
            assert!(c.g <= 15);
            assert!(c.b >= 240);
            reds.insert(c.r);
            if c.r as i32 - 128 != c.g as i32 - 5 {
                differ += 1;
            }
        }
    }
    assert!(reds.len() >= 10);
    assert!(differ > 0);
}

#[test]
fn noise_without_intensity_changes_nothing() {
    let mut layer = Layer::new("L".to_string(), 4, 4, Color::new(9, 8, 7, 6));
    let plugin = NoisePlugin::new();
    plugin.apply_noise(&mut layer, 0);
    assert_eq!(layer.grid, vec![vec![Color::new(9, 8, 7, 6); 4]; 4]);
    assert_eq!(plugin.metadata.name, "Noise");
    assert_eq!(plugin.command().id, "noise");
    assert!(plugin.can_execute("noise"));
}

#[test]
fn texts_are_compared_letter_by_letter() {
    assert!(same_text("blur", "blur"));
    assert!(!same_text("blur", "Blur"));
    assert!(!same_text("blur", "blurs"));
    assert!(same_text("", ""));
}

#[test]
fn filter_commands_are_checkpointed() {
    let mut e = PixelArtEditor::new();
    e.new_document(3, 3, Color::new(0, 0, 0, 255));
    e.paint_with_symmetry(1, 1, Color::white());
    assert!(matches!(e.execute_plugin_command("blur"), PluginResult::Success));
    assert_eq!(e.undo_stack.len(), 1);
    assert_eq!(e.get_active_layer().grid[1][1], gray(28));
    assert_eq!(e.get_active_layer().grid[0][0], gray(64));
    assert!(e.cache_dirty);
    e.undo();
    assert_eq!(e.get_active_layer().grid[1][1], Color::white());
    assert_eq!(e.get_active_layer().grid[0][0], Color::new(0, 0, 0, 255));
}

#[test]
fn each_filter_command_uses_its_defaults() {
    let white = Color::white();
    let black = Color::black();
    let none = Color::transparent();
    let mut e = PixelArtEditor::new();
    e.new_document(3, 1, none);
    e.paint_with_symmetry(1, 0, white);
    assert!(matches!(e.execute_plugin_command("outline"), PluginResult::Success));
    assert_eq!(e.get_active_layer().grid, vec![vec![black, white, black]]);
    assert!(matches!(e.execute_plugin_command("color_replace"), PluginResult::Success));
    assert_eq!(e.get_active_layer().grid, vec![vec![black, black, black]]);
    e.paint_with_symmetry(0, 0, white);
    assert!(matches!(e.execute_plugin_command("pixelate"), PluginResult::Success));
    assert_eq!(e.get_active_layer().grid, vec![vec![gray(127), gray(127), black]]);
    assert!(matches!(e.execute_plugin_command("noise"), PluginResult::Success));
    for c in &e.get_active_layer().grid[0] {
        assert_eq!(c.a, 255);
        assert!(c.r <= 137);
    }
    assert_eq!(e.undo_stack.len(), 4);
}

#[test]
fn an_unknown_command_is_an_error_and_changes_nothing() {
    let mut e = PixelArtEditor::new();
    e.new_document(2, 2, Color::white());
    match e.execute_plugin_command("sharpen") {
        PluginResult::Error(message) => assert_eq!(message, "Unknown plugin command: sharpen"),
        _ => panic!("an unknown command must be refused"),
    }
    assert_eq!(e.undo_stack.len(), 0);
    assert_eq!(e.get_active_layer().grid, vec![vec![Color::white(); 2]; 2]);
    assert!(matches!(e.execute_plugin_command(""), PluginResult::Error(_)));
    assert!(matches!(e.execute_plugin_command("Blur"), PluginResult::Error(_)));
}

#[test]
fn commands_stand_for_filters_with_their_defaults() {
    assert_eq!(default_filter("blur"), Some(Filter::Blur { radius: 1 }));
    assert_eq!(default_filter("noise"), Some(Filter::Noise { intensity: 10 }));
    assert_eq!(
        default_filter("outline"),
        Some(Filter::Outline { color: Color::black(), thickness: 1 })
    );
    assert_eq!(default_filter("pixelate"), Some(Filter::Pixelate { block_size: 2 }));
    assert_eq!(
        default_filter("color_replace"),
        Some(Filter::ColorReplace {
            from_color: Color::white(),
            to_color: Color::black(),
            tolerance: 0
        })
    );
    assert_eq!(default_filter("sharpen"), None);
    assert_eq!(default_filter(""), None);
}

#[test]
fn filters_are_applied_with_their_parameters_after_a_checkpoint() {
    let mut e = PixelArtEditor::new();
    e.new_document(5, 1, Color::new(0, 0, 0, 255));
    e.paint_with_symmetry(2, 0, Color::new(100, 100, 100, 255));
    e.refresh_cache();
    assert!(e.apply_filter(Filter::Blur { radius: 2 }));
    assert!(e.cache_dirty);
    assert_eq!(e.undo_stack.len(), 1);
    assert_eq!(
        e.get_active_layer().grid,
        vec![vec![gray(33), gray(25), gray(20), gray(25), gray(33)]]
    );
    assert!(e.apply_filter(Filter::ColorReplace {
        from_color: gray(30),
        to_color: Color::red(),
        tolerance: 5
    }));
    assert_eq!(
        e.get_active_layer().grid,
        vec![vec![Color::red(), Color::red(), gray(20), Color::red(), Color::red()]]
    );
    assert!(e.apply_filter(Filter::Pixelate { block_size: 4 }));
    assert_eq!(e.get_active_layer().grid[0][0], Color::new(196, 5, 5, 255));
    assert_eq!(e.get_active_layer().grid[0][4], Color::red());
    assert!(e.apply_filter(Filter::Outline { color: Color::blue(), thickness: 3 }));
    assert!(e.apply_filter(Filter::Noise { intensity: 0 }));
    assert_eq!(e.get_active_layer().grid[0][4], Color::red());
    assert_eq!(e.undo_stack.len(), 5);
}

#[test]
fn pixelation_with_blocks_of_no_size_is_refused() {
    let mut e = PixelArtEditor::new();
    e.new_document(2, 2, Color::white());
    e.refresh_cache();
    assert!(!e.apply_filter(Filter::Pixelate { block_size: 0 }));
    assert_eq!(e.undo_stack.len(), 0);
    assert!(!e.cache_dirty);
    assert_eq!(e.get_active_layer().grid, vec![vec![Color::white(); 2]; 2]);
}
