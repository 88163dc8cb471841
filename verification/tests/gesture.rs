use pixelarteditor::circle::radius_between;
use pixelarteditor::color::Color;
use pixelarteditor::editor::PixelArtEditor;
use pixelarteditor::gesture::{PointerEvent, ToolState};
use pixelarteditor::grid::new_grid;
use pixelarteditor::resize::shift_grid;
use pixelarteditor::tools::Tool;

const INK: Color = Color { r: 200, g: 10, b: 10, a: 255 };
const SHOWN: Color = Color { r: 1, g: 2, b: 3, a: 4 };
const BLANK: Color = Color { r: 0, g: 0, b: 0, a: 0 };

fn setup(width: usize, height: usize, tool: Tool) -> (PixelArtEditor, ToolState) {
    let mut e = PixelArtEditor::new();
    e.new_document(width, height, BLANK);
    e.tool = tool;
    e.selected_color = INK;
    (e, ToolState::new())
}

fn picture(e: &PixelArtEditor) -> Vec<String> {
    e.get_active_layer()
        .grid
        .iter()
        .map(|row| row.iter().map(|c| if *c == INK { '#' } else { '.' }).collect())
        .collect()
}

fn send(e: &mut PixelArtEditor, t: &mut ToolState, event: PointerEvent, x: usize, y: usize) {
    t.handle_pixel_interaction(e, event, x, y, SHOWN);
}

#[test]
fn distances_are_rounded_down() {
    assert_eq!(radius_between(0, 0, 3, 4), 5);
    assert_eq!(radius_between(3, 4, 0, 0), 5);
    assert_eq!(radius_between(2, 2, 2, 2), 0);
    assert_eq!(radius_between(0, 0, 1, 1), 1);
    assert_eq!(radius_between(0, 0, 2, 2), 2);
    assert_eq!(radius_between(5, 0, 0, 0), 5);
    assert_eq!(radius_between(0, 0, 7, 7), 9);
    assert_eq!(radius_between(10, 10, 13, 11), 3);
    assert_eq!(radius_between(0, 0, usize::MAX, 0), usize::MAX);
    assert_eq!(radius_between(0, 0, usize::MAX, usize::MAX), usize::MAX);
    assert_eq!(radius_between(0, usize::MAX, 1 << 20, 0), usize::MAX);
}

#[test]
fn grids_are_shifted_by_any_distance() {
    let mut g = new_grid(2, 2, BLANK);
    g[0][0] = INK;
    assert_eq!(shift_grid(&g, 1, 1), vec![vec![BLANK, BLANK], vec![BLANK, INK]]);
    assert_eq!(shift_grid(&g, i128::MIN, 0), new_grid(2, 2, BLANK));
    assert_eq!(shift_grid(&g, 0, i128::MAX), new_grid(2, 2, BLANK));
    assert_eq!(shift_grid(&g, 2, 0), new_grid(2, 2, BLANK));
    assert_eq!(shift_grid(&g, -1, 0), new_grid(2, 2, BLANK));
}

#[test]
fn a_click_with_the_pencil_is_checkpointed_once() {
    let (mut e, mut t) = setup(3, 2, Tool::Pencil);
    send(&mut e, &mut t, PointerEvent::Click, 1, 0);
    assert_eq!(picture(&e), vec![".#.", "..."]);
    assert_eq!(e.undo_stack.len(), 1);
    e.tool = Tool::Eraser;
    send(&mut e, &mut t, PointerEvent::Click, 1, 0);
    assert_eq!(picture(&e), vec!["...", "..."]);
    assert_eq!(e.undo_stack.len(), 2);
    e.tool = Tool::Bucket;
    send(&mut e, &mut t, PointerEvent::Click, 0, 0);
    assert_eq!(picture(&e), vec!["###", "###"]);
    assert_eq!(e.undo_stack.len(), 3);
    e.undo();
    assert_eq!(picture(&e), vec!["...", "..."]);
}

#[test]
fn a_drag_is_checkpointed_when_it_starts_and_not_again() {
    let (mut e, mut t) = setup(4, 1, Tool::Pencil);
    send(&mut e, &mut t, PointerEvent::DragStart, 0, 0);
    for x in 0..4 {
        send(&mut e, &mut t, PointerEvent::Drag, x, 0);
    }
    send(&mut e, &mut t, PointerEvent::DragStop, 3, 0);
    assert_eq!(picture(&e), vec!["####"]);
    assert_eq!(e.undo_stack.len(), 1);
    e.undo();
    assert_eq!(picture(&e), vec!["...."]);
    e.redo();
    e.tool = Tool::Eraser;
    send(&mut e, &mut t, PointerEvent::DragStart, 0, 0);
    send(&mut e, &mut t, PointerEvent::Drag, 0, 0);
    send(&mut e, &mut t, PointerEvent::Drag, 1, 0);
    assert_eq!(picture(&e), vec!["..##"]);
    assert_eq!(e.undo_stack.len(), 2);
    e.tool = Tool::Dither;
    send(&mut e, &mut t, PointerEvent::DragStart, 0, 0);
    send(&mut e, &mut t, PointerEvent::Drag, 0, 0);
    assert_eq!(picture(&e), vec!["#.##"]);
    assert_eq!(e.undo_stack.len(), 3);
    e.tool = Tool::Line;
    send(&mut e, &mut t, PointerEvent::DragStart, 0, 0);
    send(&mut e, &mut t, PointerEvent::Drag, 1, 0);
    assert_eq!(picture(&e), vec!["#.##"]);
    assert_eq!(e.undo_stack.len(), 3);
}

#[test]
fn the_eyedropper_and_alt_pick_the_color_on_display() {
    let (mut e, mut t) = setup(2, 2, Tool::Eyedropper);
    send(&mut e, &mut t, PointerEvent::Click, 0, 0);
    assert_eq!(e.selected_color, SHOWN);
    e.selected_color = INK;
    e.tool = Tool::Pencil;
    send(&mut e, &mut t, PointerEvent::AltClick, 1, 1);
    assert_eq!(e.selected_color, SHOWN);
    assert_eq!(picture(&e), vec!["..", ".."]);
    assert_eq!(e.undo_stack.len(), 0);
}

#[test]
fn lines_rectangles_and_circles_take_two_clicks() {
    let (mut e, mut t) = setup(5, 5, Tool::Line);
    send(&mut e, &mut t, PointerEvent::Click, 0, 0);
    assert_eq!(t.line_start, Some((0, 0)));
    assert_eq!(e.undo_stack.len(), 0);
    send(&mut e, &mut t, PointerEvent::Click, 4, 4);
    assert_eq!(t.line_start, None);
    assert_eq!(picture(&e), vec!["#....", ".#...", "..#..", "...#.", "....#"]);
    assert_eq!(e.undo_stack.len(), 1);

    let (mut e, mut t) = setup(5, 4, Tool::Rectangle);
    send(&mut e, &mut t, PointerEvent::Click, 3, 2);
    assert_eq!(t.rectangle_start, Some((3, 2)));
    send(&mut e, &mut t, PointerEvent::Click, 1, 0);
    assert_eq!(t.rectangle_start, None);
    assert_eq!(picture(&e), vec![".###.", ".#.#.", ".###.", "....."]);
    e.fill_shape = true;
    send(&mut e, &mut t, PointerEvent::Click, 1, 0);
    send(&mut e, &mut t, PointerEvent::Click, 3, 2);
    assert_eq!(picture(&e), vec![".###.", ".###.", ".###.", "....."]);
    assert_eq!(e.undo_stack.len(), 2);

    let (mut e, mut t) = setup(5, 5, Tool::Circle);
    send(&mut e, &mut t, PointerEvent::Click, 2, 2);
    assert_eq!(t.circle_start, Some((2, 2)));
    send(&mut e, &mut t, PointerEvent::Click, 3, 3);
    assert_eq!(t.circle_start, None);
    assert_eq!(picture(&e), vec![".....", "..#..", ".#.#.", "..#..", "....."]);
    e.fill_shape = true;
    send(&mut e, &mut t, PointerEvent::Click, 2, 2);
    send(&mut e, &mut t, PointerEvent::Click, 2, 4);
    assert_eq!(picture(&e), vec!["..#..", ".###.", "#####", ".###.", "..#.."]);
}

#[test]
fn shapes_are_mirrored_with_symmetry_on() {
    let (mut e, mut t) = setup(5, 3, Tool::Line);
    e.symmetry_mode = true;
    e.symmetry_axis = (true, false);
    send(&mut e, &mut t, PointerEvent::Click, 0, 0);
    send(&mut e, &mut t, PointerEvent::Click, 0, 2);
    assert_eq!(picture(&e), vec!["#...#", "#...#", "#...#"]);
}

#[test]
fn a_selection_takes_two_clicks_in_any_order() {
    let (mut e, mut t) = setup(5, 5, Tool::Select);
    send(&mut e, &mut t, PointerEvent::Click, 3, 1);
    assert_eq!(t.selection_start, Some((3, 1)));
    assert_eq!(t.selection_rect, None);
    send(&mut e, &mut t, PointerEvent::Click, 1, 4);
    assert_eq!(t.selection_start, None);
    assert_eq!(t.selection_rect, Some((1, 1, 3, 4)));
    assert_eq!(e.undo_stack.len(), 0);
    assert_eq!(picture(&e), vec!["....."; 5]);
}

#[test]
fn a_lasso_gathers_points_and_closes_when_the_drag_ends() {
    let (mut e, mut t) = setup(5, 5, Tool::Lasso);
    send(&mut e, &mut t, PointerEvent::Drag, 0, 0);
    assert!(t.lasso_points.is_empty());
    send(&mut e, &mut t, PointerEvent::Click, 1, 1);
    assert!(t.lasso_active);
    send(&mut e, &mut t, PointerEvent::Drag, 2, 1);
    send(&mut e, &mut t, PointerEvent::Drag, 2, 2);
    assert_eq!(t.lasso_points, vec![(1, 1), (2, 1), (2, 2)]);
    assert_eq!(t.lasso_selection, None);
    send(&mut e, &mut t, PointerEvent::DragStop, 2, 2);
    assert!(!t.lasso_active);
    assert_eq!(t.lasso_selection, Some(vec![(1, 1), (2, 1), (2, 2)]));
    send(&mut e, &mut t, PointerEvent::Click, 4, 4);
    assert_eq!(t.lasso_points, vec![(4, 4)]);
    assert!(t.lasso_active);
    e.tool = Tool::Pencil;
    send(&mut e, &mut t, PointerEvent::DragStop, 0, 0);
    assert!(t.lasso_active);
    assert_eq!(e.undo_stack.len(), 0);
}

#[test]
fn a_move_shifts_the_layer_as_it_was_when_the_drag_began() {
    let (mut e, mut t) = setup(3, 3, Tool::Move);
    e.set_pixel(0, 0, INK);
    send(&mut e, &mut t, PointerEvent::Drag, 2, 2);
    assert_eq!(picture(&e), vec!["#..", "...", "..."]);
    send(&mut e, &mut t, PointerEvent::DragStart, 1, 1);
    assert_eq!(e.undo_stack.len(), 1);
    assert_eq!(t.move_drag_start, Some((1, 1)));
    assert_eq!(t.move_last_offset, Some((0, 0)));
    send(&mut e, &mut t, PointerEvent::Drag, 2, 2);
    assert_eq!(picture(&e), vec!["...", ".#.", "..."]);
    assert_eq!(t.move_last_offset, Some((1, 1)));
    send(&mut e, &mut t, PointerEvent::Drag, 0, 0);
    assert_eq!(picture(&e), vec!["...", "...", "..."]);
    send(&mut e, &mut t, PointerEvent::Drag, 3, 1);
    assert_eq!(picture(&e), vec!["..#", "...", "..."]);
    send(&mut e, &mut t, PointerEvent::Drag, 1, 1);
    assert_eq!(picture(&e), vec!["#..", "...", "..."]);
    send(&mut e, &mut t, PointerEvent::DragStop, 1, 1);
    assert_eq!(t.move_drag_start, None);
    assert!(t.move_layer_snapshot.is_none());
    assert_eq!(t.move_last_offset, None);
    send(&mut e, &mut t, PointerEvent::Drag, 2, 2);
    assert_eq!(picture(&e), vec!["#..", "...", "..."]);
    assert_eq!(e.undo_stack.len(), 1);
}

#[test]
fn a_move_is_ignored_once_the_canvas_has_another_size() {
    let (mut e, mut t) = setup(3, 3, Tool::Move);
    e.set_pixel(0, 0, INK);
    send(&mut e, &mut t, PointerEvent::DragStart, 0, 0);
    e.resize_canvas(2, 2, 0);
    send(&mut e, &mut t, PointerEvent::Drag, 1, 1);
    assert_eq!(picture(&e), vec!["#.", ".."]);
    assert_eq!(t.move_last_offset, Some((0, 0)));
}

#[test]
fn the_other_button_erases() {
    let (mut e, mut t) = setup(3, 3, Tool::Pencil);
    e.get_active_layer_mut().grid = vec![vec![INK; 3]; 3];
    e.symmetry_mode = true;
    e.symmetry_axis = (true, true);
    e.brush_size = 2;
    send(&mut e, &mut t, PointerEvent::SecondaryClick, 0, 0);
    assert_eq!(picture(&e), vec!["..#", ".##", "###"]);
    assert_eq!(e.undo_stack.len(), 1);
    send(&mut e, &mut t, PointerEvent::SecondaryDrag, 2, 2);
    assert_eq!(picture(&e), vec!["..#", ".##", "##."]);
    assert_eq!(e.undo_stack.len(), 1);
    send(&mut e, &mut t, PointerEvent::SecondaryDrag, 3, 3);
    assert_eq!(picture(&e), vec!["..#", ".##", "##."]);
}

#[test]
fn a_spray_click_is_checkpointed_and_stays_in_reach() {
    let (mut e, mut t) = setup(9, 9, Tool::Spray);
    e.spray_size = 2;
    e.spray_intensity = 255;
    send(&mut e, &mut t, PointerEvent::Click, 4, 4);
    assert_eq!(e.undo_stack.len(), 1);
    send(&mut e, &mut t, PointerEvent::DragStart, 4, 4);
    send(&mut e, &mut t, PointerEvent::Drag, 4, 4);
    assert_eq!(e.undo_stack.len(), 2);
    for (y, row) in e.get_active_layer().grid.iter().enumerate() {
        for (x, c) in row.iter().enumerate() {
            if *c == INK {
                assert!(radius_between(4, 4, x, y) <= 2);
            }
        }
    }
}

#[test]
fn replaced_pixels_show_at_once() {
    let (mut e, _t) = setup(2, 1, Tool::Pencil);
    e.refresh_cache();
    e.replace_active_pixels(vec![vec![INK, BLANK]]);
    assert!(e.cache_dirty);
    assert_eq!(e.get_composed_grid(), vec![vec![INK, BLANK]]);
}
