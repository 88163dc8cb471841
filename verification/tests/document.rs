use pixelarteditor::color::Color;
use pixelarteditor::document::{get_max_frames_for_size, get_max_layers_for_size};
use pixelarteditor::editor::PixelArtEditor;
use pixelarteditor::grid::new_grid;
use pixelarteditor::resize::resize_grid;

const O: Color = Color { r: 0, g: 0, b: 0, a: 0 };

fn n(v: u8) -> Color {
    Color::new(v, v, v, 255)
}

fn two_by_two() -> Vec<Vec<Color>> {
    vec![vec![n(1), n(2)], vec![n(3), n(4)]]
}

#[test]
fn a_new_editor_has_one_transparent_layer() {
    let e = PixelArtEditor::new();
    assert_eq!(e.frames.len(), 1);
    assert_eq!(e.frames[0].layers.len(), 1);
    assert_eq!(e.get_active_layer().grid, vec![vec![O; 16]; 16]);
    assert_eq!((e.current_frame, e.current_layer), (0, 0));
    assert_eq!(e.width(), 16);
    assert_eq!(e.height(), 16);
    assert_eq!(e.brush_size, 1);
    assert!(e.cache_dirty);
}

#[test]
fn a_new_document_has_one_background_layer() {
    let mut e = PixelArtEditor::new();
    e.push_undo();
    e.new_document(3, 2, Color::red());
    assert_eq!(e.frames.len(), 1);
    assert_eq!(e.frames[0].layers.len(), 1);
    assert_eq!(e.get_active_layer().name, "Background");
    assert_eq!(e.get_active_layer().grid, vec![vec![Color::red(); 3]; 2]);
    assert_eq!(e.canvas_width(), 3);
    assert_eq!(e.canvas_height(), 2);
    assert_eq!(e.undo_stack.len(), 1);
    assert!(e.cache_dirty);
}

#[test]
fn growing_from_the_top_left() {
    let out = resize_grid(&two_by_two(), 4, 3, 0);
    assert_eq!(
        out,
        vec![vec![n(1), n(2), O, O], vec![n(3), n(4), O, O], vec![O, O, O, O]]
    );
}

#[test]
fn growing_from_the_center() {
    let out = resize_grid(&two_by_two(), 4, 5, 1);
    assert_eq!(
        out,
        vec![
            vec![O, O, O, O],
            vec![O, n(1), n(2), O],
            vec![O, n(3), n(4), O],
            vec![O, O, O, O],
            vec![O, O, O, O],
        ]
    );
}

#[test]
fn growing_from_the_bottom_right() {
    let out = resize_grid(&two_by_two(), 3, 3, 2);
    assert_eq!(
        out,
        vec![vec![O, O, O], vec![O, n(1), n(2)], vec![O, n(3), n(4)]]
    );
}

#[test]
fn shrinking_keeps_the_top_left_whatever_the_anchor() {
    for anchor in [0, 1, 2, 7] {
        assert_eq!(resize_grid(&two_by_two(), 1, 1, anchor), vec![vec![n(1)]]);
        assert_eq!(resize_grid(&two_by_two(), 1, 2, anchor), vec![vec![n(1)], vec![n(3)]]);
    }
    assert_eq!(resize_grid(&two_by_two(), 3, 1, 2), vec![vec![O, n(1), n(2)]]);
    assert_eq!(resize_grid(&two_by_two(), 2, 2, 1), two_by_two());
    assert_eq!(resize_grid(&two_by_two(), 3, 3, 9), resize_grid(&two_by_two(), 3, 3, 0));
}

#[test]
fn resizing_the_canvas_resizes_every_layer_of_every_frame() {
    let mut e = PixelArtEditor::new();
    e.new_document(2, 2, n(1));
    assert!(e.add_layer("Two".to_string()));
    e.paint_with_symmetry(1, 1, n(9));
    assert!(e.add_frame());
    e.resize_canvas(3, 3, 2);
    assert_eq!(e.undo_stack.len(), 3);
    assert!(e.cache_dirty);
    assert_eq!((e.current_frame, e.current_layer), (1, 0));
    for frame in &e.frames {
        assert_eq!(
            frame.layers[0].grid,
            vec![vec![O, O, O], vec![O, n(1), n(1)], vec![O, n(1), n(1)]]
        );
        assert_eq!(
            frame.layers[1].grid,
            vec![vec![O, O, O], vec![O, O, O], vec![O, O, n(9)]]
        );
        assert_eq!(frame.layers[1].name, "Two");
    }
    e.undo();
    assert_eq!(e.width(), 2);
    assert_eq!(e.frames[0].layers[0].grid, new_grid(2, 2, n(1)));
}

#[test]
fn larger_canvases_allow_fewer_layers_and_frames() {
    assert_eq!(get_max_layers_for_size(16, 16), 64);
    assert_eq!(get_max_layers_for_size(64, 64), 64);
    assert_eq!(get_max_layers_for_size(65, 64), 32);
    assert_eq!(get_max_layers_for_size(256, 256), 32);
    assert_eq!(get_max_layers_for_size(257, 256), 16);
    assert_eq!(get_max_layers_for_size(512, 512), 16);
    assert_eq!(get_max_layers_for_size(513, 512), 8);
    assert_eq!(get_max_layers_for_size(usize::MAX, usize::MAX), 8);
    assert_eq!(get_max_frames_for_size(64, 64), 64);
    assert_eq!(get_max_frames_for_size(1024, 1024), 8);
}

#[test]
fn layers_are_added_on_top_up_to_the_limit() {
    let mut e = PixelArtEditor::new();
    e.new_document(600, 600, n(1));
    for k in 1..8 {
        assert!(e.add_layer(format!("Layer {}", k + 1)));
        assert_eq!(e.current_layer, k);
    }
    assert_eq!(e.frames[0].layers.len(), 8);
    assert_eq!(e.frames[0].layers[7].name, "Layer 8");
    assert_eq!(e.frames[0].layers[7].grid[599][599], O);
    assert!(e.frames[0].layers[7].visible);
    assert_eq!(e.frames[0].layers[7].opacity, 255);
    let history = e.undo_stack.len();
    assert!(!e.add_layer("One too many".to_string()));
    assert!(!e.duplicate_layer(0));
    assert_eq!(e.frames[0].layers.len(), 8);
    assert_eq!(e.undo_stack.len(), history);
    assert_eq!(e.current_layer, 7);
}

#[test]
fn the_last_layer_cannot_be_removed() {
    let mut e = PixelArtEditor::new();
    e.new_document(2, 2, n(1));
    assert!(!e.remove_layer(0));
    assert!(!e.remove_layer(1));
    assert_eq!(e.frames[0].layers.len(), 1);
    assert_eq!(e.undo_stack.len(), 0);
    assert!(e.add_layer("Two".to_string()));
    assert!(!e.remove_layer(2));
    assert!(e.remove_layer(0));
    assert_eq!(e.frames[0].layers.len(), 1);
    assert_eq!(e.frames[0].layers[0].name, "Two");
    assert_eq!(e.current_layer, 0);
}

#[test]
fn removing_a_layer_keeps_the_cursor_on_a_layer() {
    let mut e = PixelArtEditor::new();
    e.new_document(2, 2, n(1));
    e.add_layer("B".to_string());
    e.add_layer("C".to_string());
    assert_eq!(e.current_layer, 2);
    assert!(e.remove_layer(0));
    assert_eq!(e.current_layer, 1);
    assert_eq!(e.get_active_layer().name, "C");
    assert!(e.select_layer(0));
    assert!(e.remove_layer(1));
    assert_eq!(e.current_layer, 0);
    assert_eq!(e.get_active_layer().name, "B");
}

#[test]
fn duplicating_a_layer_puts_the_copy_above_it() {
    let mut e = PixelArtEditor::new();
    e.new_document(2, 1, n(1));
    e.add_layer("B".to_string());
    e.paint_with_symmetry(0, 0, n(7));
    assert!(e.duplicate_layer(0));
    let names: Vec<&str> = e.frames[0].layers.iter().map(|l| l.name.as_str()).collect();
    assert_eq!(names, vec!["Background", "Background Copy", "B"]);
    assert_eq!(e.current_layer, 1);
    assert_eq!(e.frames[0].layers[1].grid, vec![vec![n(1), n(1)]]);
    assert!(!e.duplicate_layer(3));
    assert!(e.duplicate_layer(2));
    assert_eq!(e.frames[0].layers[3].name, "B Copy");
    assert_eq!(e.frames[0].layers[3].grid, vec![vec![n(7), O]]);
    assert_eq!(e.current_layer, 3);
}

#[test]
fn clearing_a_layer_makes_it_transparent() {
    let mut e = PixelArtEditor::new();
    e.new_document(2, 1, n(1));
    e.add_layer("B".to_string());
    assert!(e.clear_layer(0));
    assert_eq!(e.frames[0].layers[0].grid, vec![vec![O, O]]);
    assert_eq!(e.frames[0].layers[0].name, "Background");
    assert_eq!(e.current_layer, 1);
    assert!(!e.clear_layer(2));
    e.undo();
    assert_eq!(e.frames[0].layers[0].grid, vec![vec![n(1), n(1)]]);
}

#[test]
fn layers_move_up_and_down_with_the_cursor() {
    let mut e = PixelArtEditor::new();
    e.new_document(1, 1, n(1));
    e.add_layer("B".to_string());
    e.add_layer("C".to_string());
    assert!(!e.move_layer_up());
    assert!(e.move_layer_down());
    let names: Vec<&str> = e.frames[0].layers.iter().map(|l| l.name.as_str()).collect();
    assert_eq!(names, vec!["Background", "C", "B"]);
    assert_eq!(e.current_layer, 1);
    assert!(e.move_layer_down());
    assert!(!e.move_layer_down());
    let names: Vec<&str> = e.frames[0].layers.iter().map(|l| l.name.as_str()).collect();
    assert_eq!(names, vec!["C", "Background", "B"]);
    assert_eq!(e.current_layer, 0);
    assert!(e.move_layer_up());
    assert!(e.move_layer_up());
    let names: Vec<&str> = e.frames[0].layers.iter().map(|l| l.name.as_str()).collect();
    assert_eq!(names, vec!["Background", "B", "C"]);
    assert_eq!(e.current_layer, 2);
}

#[test]
fn frames_are_added_after_the_current_one() {
    let mut e = PixelArtEditor::new();
    e.new_document(2, 1, n(1));
    e.add_layer("B".to_string());
    e.paint_with_symmetry(0, 0, n(5));
    assert!(e.add_frame());
    assert_eq!((e.frames.len(), e.current_frame, e.current_layer), (2, 1, 0));
    assert_eq!(e.frames[1].layers.len(), 2);
    assert_eq!(e.frames[1].layers[1].grid, vec![vec![n(5), O]]);
    e.paint_with_symmetry(1, 0, n(6));
    assert_eq!(e.frames[0].layers[0].grid, vec![vec![n(1), n(1)]]);
    assert_eq!(e.frames[1].layers[0].grid, vec![vec![n(1), n(6)]]);
    assert!(e.duplicate_frame(0));
    assert_eq!((e.frames.len(), e.current_frame, e.current_layer), (3, 1, 0));
    assert_eq!(e.frames[1].layers[0].grid, vec![vec![n(1), n(1)]]);
    assert_eq!(e.frames[2].layers[0].grid, vec![vec![n(1), n(6)]]);
    assert!(!e.duplicate_frame(3));
}

#[test]
fn frames_are_limited_by_the_canvas_size() {
    let mut e = PixelArtEditor::new();
    e.new_document(600, 600, n(1));
    for _ in 1..8 {
        assert!(e.add_frame());
    }
    assert_eq!(e.frames.len(), 8);
    assert!(!e.add_frame());
    assert!(!e.duplicate_frame(0));
    assert_eq!(e.frames.len(), 8);
}

#[test]
fn the_last_frame_cannot_be_removed() {
    let mut e = PixelArtEditor::new();
    e.new_document(1, 1, n(1));
    assert!(!e.remove_frame(0));
    assert_eq!(e.frames.len(), 1);
    assert!(e.add_frame());
    e.paint_with_symmetry(0, 0, n(2));
    assert!(e.add_frame());
    e.paint_with_symmetry(0, 0, n(3));
    assert_eq!(e.current_frame, 2);
    assert!(!e.remove_frame(3));
    assert!(e.remove_frame(1));
    assert_eq!((e.frames.len(), e.current_frame, e.current_layer), (2, 1, 0));
    assert_eq!(e.get_active_layer().grid, vec![vec![n(3)]]);
    assert!(e.select_frame(0));
    assert!(e.remove_frame(1));
    assert_eq!((e.frames.len(), e.current_frame), (1, 0));
    assert_eq!(e.get_active_layer().grid, vec![vec![n(1)]]);
}

#[test]
fn the_cursor_moves_only_onto_what_exists() {
    let mut e = PixelArtEditor::new();
    e.new_document(1, 1, n(1));
    e.add_layer("B".to_string());
    e.add_frame();
    assert!(e.select_layer(1));
    assert!(e.select_frame(0));
    assert_eq!((e.current_frame, e.current_layer), (0, 0));
    assert!(!e.select_frame(2));
    assert!(!e.select_layer(2));
    assert_eq!((e.current_frame, e.current_layer), (0, 0));
    assert!(e.select_layer(1));
    assert_eq!(e.get_active_layer().name, "B");
}

#[test]
fn visibility_and_opacity_are_set_by_layer() {
    let mut e = PixelArtEditor::new();
    e.new_document(1, 1, n(1));
    e.add_layer("B".to_string());
    e.refresh_cache();
    assert!(e.set_layer_visible(0, false));
    assert!(e.cache_dirty);
    assert!(!e.frames[0].layers[0].visible);
    assert!(e.frames[0].layers[1].visible);
    assert!(e.set_layer_opacity(1, 40));
    assert_eq!(e.frames[0].layers[1].opacity, 40);
    assert_eq!(e.frames[0].layers[0].opacity, 255);
    assert!(!e.set_layer_visible(2, false));
    assert!(!e.set_layer_opacity(2, 1));
}

#[test]
fn a_default_editor_is_a_new_editor() {
    let e = PixelArtEditor::default();
    assert_eq!(e.frames.len(), 1);
    assert_eq!(e.get_active_layer().name, "Layer 1");
    assert_eq!(e.selected_color, Color::black());
    assert_eq!(e.secondary_color, Color::white());
    assert_eq!(e.tool, pixelarteditor::tools::Tool::Pencil);
    assert_eq!((e.spray_size, e.spray_intensity), (3, 128));
    assert_eq!((e.onion_prev_frames, e.onion_next_frames, e.onion_opacity), (1, 1, 77));
    assert!(!e.symmetry_mode && !e.onion_skinning && !e.animation_playing && !e.fill_shape);
    assert!(e.render_cache.is_none());
}

#[test]
fn pixels_are_read_and_written_on_the_layer_being_edited() {
    let mut e = PixelArtEditor::new();
    e.new_document(2, 2, n(1));
    e.add_layer("top".to_string());
    e.symmetry_mode = true;
    e.symmetry_axis = (true, true);
    e.refresh_cache();
    e.set_pixel(0, 0, n(5));
    e.set_pixel(2, 0, n(5));
    e.set_pixel(0, 2, n(5));
    assert!(e.cache_dirty);
    assert_eq!(e.get_pixel(0, 0), Some(n(5)));
    assert_eq!(e.get_pixel(1, 1), Some(O));
    assert_eq!(e.get_pixel(2, 0), None);
    assert_eq!(e.get_pixel(0, 2), None);
    assert_eq!(e.frames[0].layers[0].grid, new_grid(2, 2, n(1)));
    assert_eq!(e.frames[0].layers[1].grid, vec![vec![n(5), O], vec![O, O]]);
}

#[test]
fn the_layer_being_edited_can_be_written_through() {
    let mut e = PixelArtEditor::new();
    e.new_document(2, 1, n(1));
    e.refresh_cache();
    e.get_active_layer_mut().grid[0][1] = n(8);
    assert!(e.cache_dirty);
    assert_eq!(e.get_composed_grid(), vec![vec![n(1), n(8)]]);
}
