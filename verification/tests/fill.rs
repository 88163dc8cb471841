use pixelarteditor::color::Color;
use pixelarteditor::editor::PixelArtEditor;
use pixelarteditor::fill::flood_fill;
use pixelarteditor::grid::new_grid;

const A: Color = Color { r: 1, g: 1, b: 1, a: 255 };
const B: Color = Color { r: 2, g: 2, b: 2, a: 255 };
const F: Color = Color { r: 9, g: 9, b: 9, a: 255 };

/// A grid from text: `a` and `b` for the two colors, `f` for the fill.
fn grid(rows: &[&str]) -> Vec<Vec<Color>> {
    rows.iter()
        .map(|row| {
            row.chars()
                .map(|c| match c {
                    'a' => A,
                    'b' => B,
                    _ => F,
                })
                .collect()
        })
        .collect()
}

#[test]
fn fill_of_a_transparent_layer_with_red() {
    let mut editor = PixelArtEditor::new();
    editor.new_document(4, 4, Color::transparent());
    editor.flood_fill(0, 0, Color::red());
    assert_eq!(editor.get_active_layer().grid, vec![vec![Color::red(); 4]; 4]);
}

#[test]
fn fill_of_a_solid_grid_recolors_every_pixel_from_any_seed() {
    for y in 0..3 {
        for x in 0..5 {
            let mut g = new_grid(5, 3, A);
            flood_fill(&mut g, x, y, F);
            assert_eq!(g, vec![vec![F; 5]; 3]);
        }
    }
}

#[test]
fn fill_stays_inside_its_region() {
    let mut g = grid(&["aaaaa", "abbba", "abaab", "abbba", "aaaaa"]);
    flood_fill(&mut g, 2, 2, F);
    assert_eq!(g, grid(&["aaaaa", "abbba", "abffb", "abbba", "aaaaa"]));
    let mut g = grid(&["aaaaa", "abbba", "abaab", "abbba", "aaaaa"]);
    flood_fill(&mut g, 0, 0, F);
    assert_eq!(g, grid(&["fffff", "fbbbf", "fbaab", "fbbbf", "fffff"]));
}

#[test]
fn fill_does_not_cross_diagonals() {
    let mut g = grid(&["ab", "ba"]);
    flood_fill(&mut g, 0, 0, F);
    assert_eq!(g, grid(&["fb", "ba"]));
}

#[test]
fn fill_follows_winding_regions() {
    let mut g = grid(&["abaaa", "ababa", "ababa", "aaaba"]);
    flood_fill(&mut g, 4, 3, F);
    assert_eq!(g, grid(&["fbfff", "fbfbf", "fbfbf", "fffbf"]));
}

#[test]
fn fill_with_the_seed_color_changes_nothing() {
    let mut g = grid(&["aab", "bba"]);
    flood_fill(&mut g, 0, 0, A);
    assert_eq!(g, grid(&["aab", "bba"]));
}

#[test]
fn fill_from_outside_changes_nothing() {
    let mut g = grid(&["aab", "bba"]);
    flood_fill(&mut g, 3, 0, F);
    flood_fill(&mut g, 0, 2, F);
    flood_fill(&mut g, usize::MAX, usize::MAX, F);
    assert_eq!(g, grid(&["aab", "bba"]));
}

#[test]
fn fill_of_a_single_pixel() {
    let mut g = grid(&["a"]);
    flood_fill(&mut g, 0, 0, F);
    assert_eq!(g, grid(&["f"]));
}

#[test]
fn fill_of_a_large_canvas() {
    let mut g = new_grid(200, 200, A);
    g[100] = vec![B; 200];
    flood_fill(&mut g, 0, 0, F);
    for y in 0..200 {
        let want = if y < 100 { F } else if y == 100 { B } else { A };
        assert_eq!(g[y], vec![want; 200]);
    }
}
