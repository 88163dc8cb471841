use pixelarteditor::color::Color;
use pixelarteditor::compositor::{compose, compose_frame, compose_layer, OnionSkin};
use pixelarteditor::editor::PixelArtEditor;
use pixelarteditor::grid::new_grid;
use pixelarteditor::layer::{Frame, Layer};

fn no_onion() -> OnionSkin {
    OnionSkin { enabled: false, prev_frames: 1, next_frames: 1, opacity: 77 }
}

#[test]
fn single_opaque_layer_composites_to_itself() {
    let mut layer = Layer::new("L".to_string(), 4, 3, Color::new(10, 20, 30, 255));
    layer.set_pixel(1, 1, Color::new(200, 100, 0, 255));
    layer.set_pixel(3, 2, Color::new(1, 2, 3, 255));
    let grid = layer.grid.clone();
    let frame = Frame::new(layer);
    assert_eq!(compose_frame(&frame), grid);
}

#[test]
fn half_opaque_red_over_white() {
    let bottom = Layer::new("white".to_string(), 8, 8, Color::white());
    let mut top = Layer::new("red".to_string(), 8, 8, Color::red());
    top.opacity = 127;
    let mut frame = Frame::new(bottom);
    frame.layers.push(top);
    assert_eq!(compose_frame(&frame), vec![vec![Color::new(255, 128, 128, 255); 8]; 8]);
    frame.layers[1].opacity = 128;
    assert_eq!(compose_frame(&frame), vec![vec![Color::new(255, 127, 127, 255); 8]; 8]);
}

#[test]
fn later_layers_paint_over_earlier_ones() {
    let bottom = Layer::new("b".to_string(), 2, 1, Color::blue());
    let mut top = Layer::new("t".to_string(), 2, 1, Color::transparent());
    top.set_pixel(0, 0, Color::green());
    let mut frame = Frame::new(bottom);
    frame.layers.push(top);
    assert_eq!(compose_frame(&frame), vec![vec![Color::green(), Color::blue()]]);
}

#[test]
fn invisible_layers_are_skipped() {
    let bottom = Layer::new("b".to_string(), 2, 2, Color::blue());
    let mut top = Layer::new("t".to_string(), 2, 2, Color::red());
    top.visible = false;
    let mut frame = Frame::new(bottom);
    frame.layers.push(top);
    assert_eq!(compose_frame(&frame), vec![vec![Color::blue(); 2]; 2]);
}

#[test]
fn pixels_without_alpha_leave_no_trace() {
    let layer = Layer::new("ghost".to_string(), 2, 2, Color::new(9, 9, 9, 0));
    let frame = Frame::new(layer);
    assert_eq!(compose_frame(&frame), vec![vec![Color::transparent(); 2]; 2]);
}

#[test]
fn a_layer_without_opacity_shows_nothing() {
    let bottom = Layer::new("b".to_string(), 2, 2, Color::blue());
    let mut top = Layer::new("t".to_string(), 2, 2, Color::red());
    top.opacity = 0;
    let mut frame = Frame::new(bottom);
    frame.layers.push(top);
    assert_eq!(compose_frame(&frame), vec![vec![Color::blue(); 2]; 2]);
}

#[test]
fn compose_layer_lays_one_layer_over_a_grid() {
    let mut composed = new_grid(2, 1, Color::white());
    let mut layer = Layer::new("l".to_string(), 2, 1, Color::transparent());
    layer.set_pixel(1, 0, Color::new(255, 0, 0, 127));
    compose_layer(&mut composed, &layer);
    assert_eq!(composed, vec![vec![Color::white(), Color::new(255, 128, 128, 255)]]);
}

fn three_frames() -> Vec<Frame> {
    let mut first = Layer::new("a".to_string(), 3, 1, Color::transparent());
    first.set_pixel(0, 0, Color::white());
    let second = Layer::new("b".to_string(), 3, 1, Color::transparent());
    let mut third = Layer::new("c".to_string(), 3, 1, Color::transparent());
    third.set_pixel(1, 0, Color::white());
    vec![Frame::new(first), Frame::new(second), Frame::new(third)]
}

#[test]
fn onion_skin_shows_neighbours_tinted_and_faded() {
    let frames = three_frames();
    let onion = OnionSkin { enabled: true, prev_frames: 1, next_frames: 1, opacity: 77 };
    let composed = compose(&frames, 1, onion);
    assert_eq!(
        composed,
        vec![vec![
            Color::new(178, 178, 255, 61),
            Color::new(255, 178, 178, 61),
            Color::transparent(),
        ]]
    );
}

#[test]
fn onion_skin_reaches_only_as_far_as_asked_and_as_there_are_frames() {
    let frames = three_frames();
    let onion = OnionSkin { enabled: true, prev_frames: 5, next_frames: 0, opacity: 77 };
    assert_eq!(
        compose(&frames, 1, onion),
        vec![vec![Color::new(178, 178, 255, 61), Color::transparent(), Color::transparent()]]
    );
    let far = OnionSkin { enabled: true, prev_frames: 2, next_frames: 9, opacity: 255 };
    assert_eq!(
        compose(&frames, 2, far),
        vec![vec![Color::new(178, 178, 255, 153), Color::white(), Color::transparent()]]
    );
    assert_eq!(
        compose(&frames, 0, far),
        vec![vec![Color::white(), Color::new(255, 178, 178, 153), Color::transparent()]]
    );
}

#[test]
fn without_onion_skin_only_the_frame_shows() {
    let frames = three_frames();
    assert_eq!(compose(&frames, 1, no_onion()), vec![vec![Color::transparent(); 3]]);
    assert_eq!(compose(&frames, 1, no_onion()), compose_frame(&frames[1]));
}

#[test]
fn the_frame_itself_is_drawn_on_top_of_its_neighbours() {
    let mut frames = three_frames();
    frames[1].layers[0].set_pixel(0, 0, Color::green());
    let onion = OnionSkin { enabled: true, prev_frames: 1, next_frames: 1, opacity: 77 };
    let composed = compose(&frames, 1, onion);
    assert_eq!(composed[0][0], Color::green());
    assert_eq!(composed[0][1], Color::new(255, 178, 178, 61));
}

#[test]
fn editor_composes_the_frame_being_edited() {
    let mut editor = PixelArtEditor::new();
    editor.new_document(3, 2, Color::white());
    editor.paint_with_symmetry(1, 1, Color::red());
    let mut want = vec![vec![Color::white(); 3]; 2];
    want[1][1] = Color::red();
    assert_eq!(editor.get_composed_grid(), want);
}

#[test]
fn a_read_after_a_mutation_reflects_it() {
    let mut editor = PixelArtEditor::new();
    editor.new_document(2, 2, Color::white());
    editor.refresh_cache();
    assert!(!editor.cache_dirty);
    assert_eq!(editor.get_composed_grid(), vec![vec![Color::white(); 2]; 2]);
    editor.paint_with_symmetry(0, 0, Color::blue());
    assert!(editor.cache_dirty);
    assert_eq!(editor.get_composed_grid()[0][0], Color::blue());
    editor.refresh_cache();
    assert_eq!(editor.render_cache.clone().unwrap()[0][0], Color::blue());
    editor.set_layer_visible(0, false);
    assert!(editor.cache_dirty);
    assert_eq!(editor.get_composed_grid(), vec![vec![Color::transparent(); 2]; 2]);
    editor.set_layer_visible(0, true);
    editor.set_layer_opacity(0, 0);
    assert_eq!(editor.get_composed_grid(), vec![vec![Color::transparent(); 2]; 2]);
}

#[test]
fn an_up_to_date_cache_is_what_is_shown() {
    let mut editor = PixelArtEditor::new();
    editor.new_document(2, 1, Color::white());
    let composed = editor.get_composed_grid();
    editor.update_cache(composed);
    assert!(!editor.cache_dirty);
    assert_eq!(editor.get_composed_grid(), vec![vec![Color::white(); 2]]);
    editor.invalidate_cache();
    assert!(editor.cache_dirty);
}

#[test]
fn a_playing_animation_shows_its_frame_without_onion_skin() {
    let mut editor = PixelArtEditor::new();
    editor.frames = three_frames();
    editor.current_frame = 1;
    editor.onion_skinning = true;
    editor.onion_opacity = 77;
    editor.invalidate_cache();
    assert_eq!(editor.get_composed_grid()[0][0], Color::new(178, 178, 255, 61));
    editor.animation_playing = true;
    editor.animation_frame = 2;
    editor.invalidate_cache();
    assert_eq!(
        editor.get_composed_grid(),
        vec![vec![Color::transparent(), Color::white(), Color::transparent()]]
    );
}

#[test]
fn an_animation_starts_at_the_first_frame_and_goes_round() {
    let mut editor = PixelArtEditor::new();
    editor.frames = three_frames();
    editor.current_frame = 2;
    editor.refresh_cache();
    editor.advance_animation();
    assert!(!editor.cache_dirty);
    assert_eq!(editor.animation_frame, 0);
    editor.toggle_animation();
    assert!(editor.animation_playing);
    assert!(editor.cache_dirty);
    assert_eq!(editor.animation_frame, 0);
    assert_eq!(editor.get_composed_grid()[0][0], Color::white());
    editor.advance_animation();
    editor.advance_animation();
    assert_eq!(editor.animation_frame, 2);
    assert_eq!(editor.get_composed_grid()[0][1], Color::white());
    editor.advance_animation();
    assert_eq!(editor.animation_frame, 0);
    editor.toggle_animation();
    assert!(!editor.animation_playing);
    assert_eq!(editor.get_composed_grid()[0][1], Color::white());
    let mut single = PixelArtEditor::new();
    single.toggle_animation();
    single.advance_animation();
    assert_eq!(single.animation_frame, 0);
}

#[test]
fn onion_skin_settings_show_at_once() {
    let mut editor = PixelArtEditor::new();
    editor.frames = three_frames();
    editor.current_frame = 1;
    editor.refresh_cache();
    editor.set_onion_skin(OnionSkin { enabled: true, prev_frames: 1, next_frames: 0, opacity: 255 });
    assert!(editor.cache_dirty);
    assert_eq!(
        editor.get_composed_grid(),
        vec![vec![Color::new(178, 178, 255, 204), Color::transparent(), Color::transparent()]]
    );
    assert_eq!(
        (editor.onion_skinning, editor.onion_prev_frames, editor.onion_next_frames),
        (true, 1, 0)
    );
}
