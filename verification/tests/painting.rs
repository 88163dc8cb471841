use pixelarteditor::circle::paint_circle_outline;
use pixelarteditor::color::Color;
use pixelarteditor::editor::PixelArtEditor;
use pixelarteditor::grid::new_grid;
use pixelarteditor::line::{paint_at, paint_line};
use pixelarteditor::paint::{disc_contains, paint_point, paint_shape, Shape, Symmetry};
use pixelarteditor::resize::shift_layer_grid;
use pixelarteditor::spray::{spray_dot, spray_grid};
use pixelarteditor::tools::Tool;

const INK: Color = Color { r: 200, g: 10, b: 10, a: 255 };
const BLANK: Color = Color { r: 0, g: 0, b: 0, a: 0 };

fn both() -> Symmetry {
    Symmetry { horizontal: true, vertical: true }
}

/// The grid drawn as text: `#` for ink, `.` for anything else.
fn picture(grid: &Vec<Vec<Color>>) -> Vec<String> {
    grid.iter()
        .map(|row| row.iter().map(|c| if *c == INK { '#' } else { '.' }).collect())
        .collect()
}

fn editor(width: usize, height: usize) -> PixelArtEditor {
    let mut e = PixelArtEditor::new();
    e.new_document(width, height, BLANK);
    e
}

fn active(e: &PixelArtEditor) -> Vec<String> {
    picture(&e.get_active_layer().grid)
}

#[test]
fn a_point_is_painted_where_it_is() {
    let mut g = new_grid(4, 3, BLANK);
    paint_point(&mut g, 1, 2, INK, Symmetry::none());
    assert_eq!(picture(&g), vec!["....", "....", ".#.."]);
}

#[test]
fn points_outside_are_skipped() {
    let mut g = new_grid(4, 3, BLANK);
    paint_point(&mut g, 4, 0, INK, both());
    paint_point(&mut g, 0, 3, INK, both());
    paint_point(&mut g, usize::MAX, usize::MAX, INK, both());
    paint_at(&mut g, -1, 0, INK, both());
    paint_at(&mut g, 0, -1, INK, both());
    paint_at(&mut g, i128::MAX, 1, INK, both());
    assert_eq!(picture(&g), vec!["....", "....", "...."]);
    paint_at(&mut g, 3, 2, INK, Symmetry::none());
    assert_eq!(picture(&g), vec!["....", "....", "...#"]);
}

#[test]
fn both_axes_paint_four_pixels() {
    let mut g = new_grid(6, 4, BLANK);
    paint_point(&mut g, 1, 0, INK, both());
    assert_eq!(picture(&g), vec![".#..#.", "......", "......", ".#..#."]);
}

#[test]
fn one_axis_paints_two_pixels() {
    let mut g = new_grid(6, 4, BLANK);
    paint_point(&mut g, 1, 0, INK, Symmetry { horizontal: true, vertical: false });
    assert_eq!(picture(&g), vec![".#..#.", "......", "......", "......"]);
    let mut g = new_grid(6, 4, BLANK);
    paint_point(&mut g, 1, 0, INK, Symmetry { horizontal: false, vertical: true });
    assert_eq!(picture(&g), vec![".#....", "......", "......", ".#...."]);
}

#[test]
fn mirror_images_that_coincide_are_painted_once() {
    let mut g = new_grid(3, 3, BLANK);
    paint_point(&mut g, 1, 1, INK, both());
    assert_eq!(picture(&g), vec!["...", ".#.", "..."]);
    let mut g = new_grid(3, 2, BLANK);
    paint_point(&mut g, 1, 0, INK, both());
    assert_eq!(picture(&g), vec![".#.", ".#."]);
}

#[test]
fn editor_paints_with_its_symmetry_setting() {
    let mut e = editor(5, 3);
    e.paint_with_symmetry(0, 0, INK);
    assert_eq!(active(&e), vec!["#....", ".....", "....."]);
    e.symmetry_axis = (true, true);
    e.paint_with_symmetry(1, 0, INK);
    assert_eq!(active(&e), vec!["##...", ".....", "....."]);
    e.symmetry_mode = true;
    e.paint_with_symmetry(1, 0, INK);
    assert_eq!(active(&e), vec!["##.#.", ".....", ".#.#."]);
    e.symmetry_axis = (true, false);
    e.paint_with_symmetry(0, 1, INK);
    assert_eq!(active(&e), vec!["##.#.", "#...#", ".#.#."]);
    e.paint_with_symmetry(7, 1, INK);
    assert_eq!(active(&e), vec!["##.#.", "#...#", ".#.#."]);
}

#[test]
fn disc_membership() {
    assert!(disc_contains(5, 5, 2, 5, 7));
    assert!(disc_contains(5, 5, 2, 6, 6));
    assert!(!disc_contains(5, 5, 2, 6, 7));
    assert!(disc_contains(5, 5, 0, 5, 5));
    assert!(!disc_contains(5, 5, 0, 5, 6));
    assert!(disc_contains(0, 0, 5, 3, 4));
    assert!(!disc_contains(0, 0, 5, 4, 4));
    assert!(!disc_contains(0, 0, 1, usize::MAX, usize::MAX));
    assert!(disc_contains(0, 0, usize::MAX, usize::MAX, 0));
}

#[test]
fn brush_radius_is_half_the_brush_size() {
    let mut e = editor(5, 5);
    e.brush_size = 1;
    e.paint_brush(2, 2, INK);
    assert_eq!(active(&e), vec![".....", ".....", "..#..", ".....", "....."]);
    e.brush_size = 3;
    e.paint_brush(2, 2, INK);
    assert_eq!(active(&e), vec![".....", "..#..", ".###.", "..#..", "....."]);
    e.brush_size = 4;
    e.paint_brush(2, 2, INK);
    assert_eq!(active(&e), vec!["..#..", ".###.", "#####", ".###.", "..#.."]);
}

#[test]
fn brush_near_the_edge_is_clipped() {
    let mut e = editor(4, 3);
    e.brush_size = 2;
    e.paint_brush(0, 0, INK);
    assert_eq!(active(&e), vec!["##..", "#...", "...."]);
    e.paint_brush(4, 2, INK);
    assert_eq!(active(&e), vec!["##..", "#...", "...#"]);
    e.paint_brush(9, 9, INK);
    assert_eq!(active(&e), vec!["##..", "#...", "...#"]);
}

#[test]
fn brush_is_mirrored() {
    let mut e = editor(7, 3);
    e.brush_size = 2;
    e.symmetry_mode = true;
    e.symmetry_axis = (true, false);
    e.paint_brush(1, 1, INK);
    assert_eq!(active(&e), vec![".#...#.", "###.###", ".#...#."]);
}

#[test]
fn eraser_clears_without_mirroring() {
    let mut e = editor(5, 3);
    e.get_active_layer_mut().grid = vec![vec![INK; 5]; 3];
    e.symmetry_mode = true;
    e.symmetry_axis = (true, true);
    e.brush_size = 2;
    e.erase_brush(0, 0);
    assert_eq!(active(&e), vec!["..###", ".####", "#####"]);
    assert_eq!(e.get_active_layer().grid[0][0], Color::transparent());
}

#[test]
fn dither_paints_the_corner_and_the_cell_diagonally_across() {
    let mut e = editor(4, 4);
    e.symmetry_mode = true;
    e.symmetry_axis = (true, true);
    e.apply_dither(1, 1, INK);
    assert_eq!(active(&e), vec!["....", ".#..", "..#.", "...."]);
    e.apply_dither(3, 3, INK);
    assert_eq!(active(&e), vec!["....", ".#..", "..#.", "...#"]);
    e.apply_dither(usize::MAX, usize::MAX, INK);
    assert_eq!(active(&e), vec!["....", ".#..", "..#.", "...#"]);
}

#[test]
fn lines_sample_the_nearest_pixels() {
    let mut g = new_grid(5, 3, BLANK);
    paint_line(&mut g, 0, 0, 3, 1, INK, Symmetry::none());
    assert_eq!(picture(&g), vec!["##...", "..##.", "....."]);
    let mut g = new_grid(5, 3, BLANK);
    paint_line(&mut g, 3, 1, 0, 0, INK, Symmetry::none());
    assert_eq!(picture(&g), vec!["##...", "..##.", "....."]);
}

#[test]
fn lines_in_every_direction() {
    let mut g = new_grid(5, 5, BLANK);
    paint_line(&mut g, 0, 2, 4, 2, INK, Symmetry::none());
    assert_eq!(picture(&g), vec![".....", ".....", "#####", ".....", "....."]);
    let mut g = new_grid(5, 5, BLANK);
    paint_line(&mut g, 2, 4, 2, 0, INK, Symmetry::none());
    assert_eq!(picture(&g), vec!["..#..", "..#..", "..#..", "..#..", "..#.."]);
    let mut g = new_grid(5, 5, BLANK);
    paint_line(&mut g, 4, 0, 0, 4, INK, Symmetry::none());
    assert_eq!(picture(&g), vec!["....#", "...#.", "..#..", ".#...", "#...."]);
    let mut g = new_grid(5, 5, BLANK);
    paint_line(&mut g, 1, 0, 2, 4, INK, Symmetry::none());
    assert_eq!(picture(&g), vec![".#...", ".#...", ".#...", "..#..", "..#.."]);
    let mut g = new_grid(5, 5, BLANK);
    paint_line(&mut g, 2, 4, 1, 0, INK, Symmetry::none());
    assert_eq!(picture(&g), vec![".#...", ".#...", "..#..", "..#..", "..#.."]);
    let mut g = new_grid(5, 5, BLANK);
    paint_line(&mut g, 3, 3, 3, 3, INK, Symmetry::none());
    assert_eq!(picture(&g), vec![".....", ".....", ".....", "...#.", "....."]);
}

#[test]
fn lines_are_clipped_and_mirrored() {
    let mut e = editor(4, 4);
    e.draw_animated_line(0, 0, 9, 9, INK);
    assert_eq!(active(&e), vec!["#...", ".#..", "..#.", "...#"]);
    let mut e = editor(5, 2);
    e.symmetry_mode = true;
    e.symmetry_axis = (true, false);
    e.draw_animated_line(0, 0, 1, 1, INK);
    assert_eq!(active(&e), vec!["#...#", ".#.#."]);
}

#[test]
fn rectangles_filled_and_outlined() {
    let mut e = editor(6, 5);
    e.draw_animated_rectangle(4, 3, 1, 1, INK, false);
    assert_eq!(active(&e), vec!["......", ".####.", ".#..#.", ".####.", "......"]);
    e.draw_animated_rectangle(1, 1, 4, 3, INK, true);
    assert_eq!(active(&e), vec!["......", ".####.", ".####.", ".####.", "......"]);
    let mut e = editor(4, 3);
    e.draw_animated_rectangle(2, 1, 9, 9, INK, false);
    assert_eq!(active(&e), vec!["....", "..##", "..#."]);
    let mut e = editor(4, 3);
    e.draw_animated_rectangle(2, 2, 2, 2, INK, false);
    assert_eq!(active(&e), vec!["....", "....", "..#."]);
}

#[test]
fn shapes_know_their_points() {
    let rect = Shape::Rect { min_x: 1, min_y: 2, max_x: 3, max_y: 4 };
    assert!(rect.contains(1, 2) && rect.contains(3, 4) && rect.contains(2, 3));
    assert!(!rect.contains(0, 2) && !rect.contains(4, 4) && !rect.contains(2, 5));
    let edge = Shape::RectOutline { min_x: 1, min_y: 2, max_x: 3, max_y: 4 };
    assert!(edge.contains(1, 3) && edge.contains(2, 2) && edge.contains(3, 4));
    assert!(!edge.contains(2, 3) && !edge.contains(0, 2));
    let mut g = new_grid(3, 3, BLANK);
    paint_shape(&mut g, Shape::Disc { cx: 1, cy: 1, radius: 1 }, INK, Symmetry::none());
    assert_eq!(picture(&g), vec![".#.", "###", ".#."]);
}

#[test]
fn circles_filled_and_outlined() {
    let mut e = editor(7, 7);
    e.draw_animated_circle(3, 3, 2, INK, false);
    assert_eq!(
        active(&e),
        vec![".......", "..###..", ".#...#.", ".#...#.", ".#...#.", "..###..", "......."]
    );
    let mut e = editor(7, 7);
    e.draw_animated_circle(3, 3, 2, INK, true);
    assert_eq!(
        active(&e),
        vec![".......", "...#...", "..###..", ".#####.", "..###..", "...#...", "......."]
    );
    let mut e = editor(3, 3);
    e.draw_animated_circle(1, 1, 0, INK, false);
    assert_eq!(active(&e), vec!["...", ".#.", "..."]);
    let mut e = editor(3, 3);
    e.draw_animated_circle(1, 1, 1, INK, false);
    assert_eq!(active(&e), vec![".#.", "#.#", ".#."]);
}

#[test]
fn circle_outline_of_radius_three() {
    let mut g = new_grid(7, 7, BLANK);
    paint_circle_outline(&mut g, 3, 3, 3, INK, Symmetry::none());
    assert_eq!(
        picture(&g),
        vec!["..###..", ".#...#.", "#.....#", "#.....#", "#.....#", ".#...#.", "..###.."]
    );
    let mut g = new_grid(4, 4, BLANK);
    paint_circle_outline(&mut g, 0, 0, 3, INK, Symmetry::none());
    assert_eq!(picture(&g), vec!["...#", "...#", "..#.", "##.."]);
}

#[test]
fn a_spray_dot_lands_within_reach_and_below_the_intensity() {
    let mut g = new_grid(5, 5, BLANK);
    spray_dot(&mut g, 2, 2, 2, 1, -1, 10, 11, INK, Symmetry::none());
    assert_eq!(picture(&g), vec![".....", "...#.", ".....", ".....", "....."]);
    spray_dot(&mut g, 2, 2, 2, -2, 0, 10, 10, INK, Symmetry::none());
    spray_dot(&mut g, 2, 2, 2, 2, 1, 0, 255, INK, Symmetry::none());
    spray_dot(&mut g, 2, 2, 2, -3, 0, 0, 255, INK, Symmetry::none());
    spray_dot(&mut g, 2, 2, 2, i64::MIN, i64::MAX, 0, 255, INK, Symmetry::none());
    assert_eq!(picture(&g), vec![".....", "...#.", ".....", ".....", "....."]);
    spray_dot(&mut g, 2, 2, 2, -2, 0, 254, 255, INK, both());
    assert_eq!(picture(&g), vec![".....", "...#.", "#...#", ".....", "....."]);
}

#[test]
fn a_spray_stays_within_its_radius() {
    for _ in 0..20 {
        let mut g = new_grid(9, 9, BLANK);
        spray_grid(&mut g, 4, 4, 3, 255, INK, Symmetry::none());
        let mut painted = 0;
        for y in 0..9usize {
            for x in 0..9usize {
                if g[y][x] == INK {
                    painted += 1;
                    assert!(disc_contains(4, 4, 3, x, y));
                } else {
                    assert_eq!(g[y][x], BLANK);
                }
            }
        }
        assert!(painted >= 1);
        assert!(painted <= 24);
    }
}

#[test]
fn a_spray_without_intensity_paints_nothing() {
    let mut e = editor(9, 9);
    e.spray_size = 3;
    e.spray_intensity = 0;
    e.paint_spray(4, 4, INK);
    assert_eq!(e.get_active_layer().grid, vec![vec![BLANK; 9]; 9]);
}

#[test]
fn spray_density_follows_intensity() {
    let mut e = editor(41, 41);
    e.spray_size = 20;
    e.spray_intensity = 128;
    let mut most = 0;
    let mut seen = 0;
    for _ in 0..30 {
        e.get_active_layer_mut().grid = vec![vec![BLANK; 41]; 41];
        e.paint_spray(20, 20, INK);
        let painted =
            e.get_active_layer().grid.iter().flatten().filter(|c| **c == INK).count();
        assert!(painted <= 80);
        most = most.max(painted);
        seen += painted;
    }
    assert!(most >= 1);
    assert!(seen >= 30 * 20);
    assert!(seen <= 30 * 78);
}

#[test]
fn tools_do_their_work() {
    let mut e = editor(3, 3);
    e.use_tool_with_animation(Tool::Pencil, 0, 0, INK);
    assert_eq!(active(&e), vec!["#..", "...", "..."]);
    e.use_tool_with_animation(Tool::Line, 2, 0, INK);
    assert_eq!(active(&e), vec!["#.#", "...", "..."]);
    e.use_tool_with_animation(Tool::Eraser, 0, 0, INK);
    assert_eq!(active(&e), vec!["..#", "...", "..."]);
    e.use_tool_with_animation(Tool::Dither, 0, 1, INK);
    assert_eq!(active(&e), vec!["..#", "#..", ".#."]);
    e.use_tool_with_animation(Tool::Eyedropper, 2, 0, Color::blue());
    assert_eq!(e.selected_color, INK);
    assert_eq!(active(&e), vec!["..#", "#..", ".#."]);
    e.use_tool_with_animation(Tool::Eyedropper, 3, 0, Color::blue());
    assert_eq!(e.selected_color, INK);
    e.use_tool_with_animation(Tool::Bucket, 2, 2, INK);
    assert_eq!(active(&e), vec!["###", "###", ".##"]);
    e.spray_intensity = 0;
    e.use_tool_with_animation(Tool::Spray, 0, 0, INK);
    assert_eq!(active(&e), vec!["###", "###", ".##"]);
}

#[test]
fn shifting_moves_pixels_and_fills_with_transparency() {
    let mut g = new_grid(3, 2, BLANK);
    g[0][0] = INK;
    g[1][1] = Color::blue();
    let right = shift_layer_grid(&g, 1, 0);
    assert_eq!(right, vec![vec![BLANK, INK, BLANK], vec![BLANK, BLANK, Color::blue()]]);
    let up_left = PixelArtEditor::shift_layer_grid(&g, -1, -1);
    assert_eq!(up_left, vec![vec![Color::blue(), BLANK, BLANK], vec![BLANK, BLANK, BLANK]]);
    assert_eq!(shift_layer_grid(&g, 0, 0), g);
    assert_eq!(shift_layer_grid(&g, 3, 0), vec![vec![BLANK; 3]; 2]);
    assert_eq!(shift_layer_grid(&g, isize::MIN, isize::MAX), vec![vec![BLANK; 3]; 2]);
}
