use pixelarteditor::color::Color;
use pixelarteditor::editor::PixelArtEditor;
use pixelarteditor::history::HISTORY_CAP;

fn shade(n: usize) -> Color {
    Color::new(n as u8, 0, 0, 255)
}

/// The red channel of every pixel of the layer being edited, row by row.
fn reds(e: &PixelArtEditor) -> Vec<u8> {
    e.get_active_layer().grid.iter().flatten().map(|c| c.r).collect()
}

#[test]
fn a_new_editor_has_no_history() {
    let e = PixelArtEditor::new();
    assert!(!e.can_undo());
    assert!(!e.can_redo());
    assert_eq!(HISTORY_CAP, 50);
}

#[test]
fn undo_and_redo_without_history_change_nothing() {
    let mut e = PixelArtEditor::new();
    e.new_document(2, 1, shade(1));
    e.undo();
    e.redo();
    assert_eq!(reds(&e), vec![1, 1]);
    assert!(!e.can_undo());
    assert!(!e.can_redo());
}

#[test]
fn undo_brings_back_the_state_before_each_mutation() {
    let mut e = PixelArtEditor::new();
    e.new_document(4, 1, shade(0));
    for n in 1..=4 {
        e.push_undo();
        e.paint_with_symmetry(n - 1, 0, shade(n));
    }
    assert_eq!(reds(&e), vec![1, 2, 3, 4]);
    e.undo();
    assert_eq!(reds(&e), vec![1, 2, 3, 0]);
    e.undo();
    assert_eq!(reds(&e), vec![1, 2, 0, 0]);
    e.undo();
    e.undo();
    assert_eq!(reds(&e), vec![0, 0, 0, 0]);
    assert!(!e.can_undo());
    e.undo();
    assert_eq!(reds(&e), vec![0, 0, 0, 0]);
    for _ in 0..4 {
        assert!(e.can_redo());
        e.redo();
    }
    assert!(!e.can_redo());
    assert_eq!(reds(&e), vec![1, 2, 3, 4]);
    assert_eq!(e.undo_stack.len(), 4);
}

#[test]
fn undo_brings_back_the_cursor_and_the_frames() {
    let mut e = PixelArtEditor::new();
    e.new_document(2, 2, Color::white());
    assert!(e.add_layer("Ink".to_string()));
    assert!(e.add_frame());
    assert_eq!((e.frames.len(), e.current_frame, e.current_layer), (2, 1, 0));
    assert!(e.select_layer(1));
    assert!(e.remove_frame(0));
    assert_eq!((e.frames.len(), e.current_frame, e.current_layer), (1, 0, 0));
    e.undo();
    assert_eq!((e.frames.len(), e.current_frame, e.current_layer), (2, 1, 1));
    e.undo();
    assert_eq!((e.frames.len(), e.current_frame, e.current_layer), (1, 0, 1));
    e.undo();
    assert_eq!((e.frames.len(), e.current_frame, e.current_layer), (1, 0, 0));
    assert_eq!(e.frames[0].layers.len(), 1);
    e.redo();
    e.redo();
    e.redo();
    assert_eq!((e.frames.len(), e.current_frame, e.current_layer), (1, 0, 0));
    assert_eq!(e.frames[0].layers.len(), 2);
    assert_eq!(e.frames[0].layers[1].name, "Ink");
}

#[test]
fn a_checkpoint_forgets_what_could_be_redone() {
    let mut e = PixelArtEditor::new();
    e.new_document(2, 1, shade(0));
    e.push_undo();
    e.paint_with_symmetry(0, 0, shade(1));
    e.push_undo();
    e.paint_with_symmetry(1, 0, shade(2));
    e.undo();
    assert!(e.can_redo());
    e.push_undo();
    assert!(!e.can_redo());
    e.paint_with_symmetry(1, 0, shade(3));
    e.redo();
    assert_eq!(reds(&e), vec![1, 3]);
    e.undo();
    assert_eq!(reds(&e), vec![1, 0]);
}

#[test]
fn only_the_newest_fifty_states_are_kept() {
    let mut e = PixelArtEditor::new();
    e.new_document(1, 1, shade(0));
    for n in 1..=60 {
        e.push_undo();
        e.paint_with_symmetry(0, 0, shade(n));
        assert_eq!(e.undo_stack.len(), n.min(50));
    }
    assert_eq!(reds(&e), vec![60]);
    let mut undone = 0;
    while e.can_undo() {
        e.undo();
        undone += 1;
        assert_eq!(reds(&e), vec![60 - undone as u8]);
    }
    assert_eq!(undone, 50);
    assert_eq!(reds(&e), vec![10]);
    assert_eq!(e.redo_stack.len(), 50);
    for _ in 0..50 {
        e.redo();
    }
    assert_eq!(reds(&e), vec![60]);
    assert_eq!(e.undo_stack.len(), 50);
    assert!(!e.can_redo());
}

#[test]
fn undo_marks_the_cache_as_out_of_date() {
    let mut e = PixelArtEditor::new();
    e.new_document(1, 1, shade(0));
    e.push_undo();
    e.paint_with_symmetry(0, 0, shade(1));
    e.refresh_cache();
    e.undo();
    assert!(e.cache_dirty);
    assert_eq!(e.get_composed_grid(), vec![vec![shade(0)]]);
    e.refresh_cache();
    e.redo();
    assert!(e.cache_dirty);
    assert_eq!(e.get_composed_grid(), vec![vec![shade(1)]]);
}

#[test]
fn a_checkpoint_keeps_the_document_and_the_cache() {
    let mut e = PixelArtEditor::new();
    e.new_document(1, 1, shade(5));
    e.refresh_cache();
    e.push_undo();
    assert!(!e.cache_dirty);
    assert_eq!(reds(&e), vec![5]);
    assert_eq!(e.undo_stack.len(), 1);
}

#[test]
fn a_frame_being_played_that_is_gone_goes_back_to_the_first() {
    let mut e = PixelArtEditor::new();
    e.new_document(1, 1, shade(5));
    assert!(e.add_frame());
    e.animation_frame = 1;
    e.animation_playing = true;
    e.undo();
    assert_eq!(e.frames.len(), 1);
    assert_eq!(e.animation_frame, 0);
    assert_eq!(e.get_composed_grid(), vec![vec![shade(5)]]);
}
