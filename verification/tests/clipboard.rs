use utu::buffer::{TextBuffer, TextPosition};
use utu::clipboard::Clipboard;
use utu::marker::Marker;

fn at(row: usize, col: usize) -> TextPosition {
    TextPosition { row, col }
}

fn grid(text: &str, fg: &[char]) -> TextBuffer {
    let mut buffer = TextBuffer::new();
    buffer.filter.fg_chars = fg.to_vec();
    buffer.set_text(text.to_string());
    buffer
}

fn boxed(a: TextPosition, b: TextPosition) -> Marker {
    let mut marker = Marker::new_filled_rect(a);
    marker.handle_cursor_move(b, &TextBuffer::new());
    marker
}

#[test]
fn copy_captures_cells_relative_to_their_corner() {
    let buffer = grid(" AB \n C  \n    \n", &[' ', 'A', 'B', 'C']);
    let clip = Clipboard::copy_marked_pixels(&buffer, boxed(at(0, 0), at(2, 3)), at(2, 3), ' ').unwrap();
    assert_eq!(clip.anchor(), at(0, 1));
    assert_eq!(clip.original_cursor, at(2, 3));
    assert_eq!(clip.cursor, at(2, 3));
    assert_eq!(clip.get(at(0, 1)), Some('A'));
    assert_eq!(clip.get(at(0, 2)), Some('B'));
    assert_eq!(clip.get(at(1, 1)), Some('C'));
    assert_eq!(clip.get(at(0, 0)), None);
    assert_eq!(clip.get(at(1, 2)), None);
    assert_eq!(clip.get(at(2, 2)), None);
    assert_eq!(clip.pixels(), vec![(at(0, 1), 'A'), (at(0, 2), 'B'), (at(1, 1), 'C')]);
}

#[test]
fn anchor_is_least_row_and_least_column() {
    let buffer = grid("..A\nB..\n", &['A', 'B']);
    let clip = Clipboard::copy_marked_pixels(&buffer, boxed(at(0, 0), at(1, 2)), at(0, 0), '.').unwrap();
    assert_eq!(clip.anchor(), at(0, 0));
    assert_eq!(clip.get(at(0, 2)), Some('A'));
    assert_eq!(clip.get(at(1, 0)), Some('B'));
    assert_eq!(clip.get(at(0, 0)), None);
}

#[test]
fn copy_of_canvas_cells_only_is_nothing() {
    let buffer = grid("    \n    \n", &[' ', 'A']);
    assert!(Clipboard::copy_marked_pixels(&buffer, boxed(at(0, 0), at(1, 3)), at(0, 0), ' ').is_none());
}

#[test]
fn copy_of_background_cells_only_is_nothing() {
    let buffer = grid("xxxx\n", &['A']);
    assert!(Clipboard::copy_marked_pixels(&buffer, boxed(at(0, 0), at(0, 3)), at(0, 0), ' ').is_none());
    let buffer = TextBuffer::new();
    assert!(Clipboard::copy_marked_pixels(&buffer, Marker::new_stroke(at(3, 3)), at(0, 0), ' ').is_none());
}

#[test]
fn clipboard_moves_with_the_cursor() {
    let buffer = grid("AB\nCD\n", &['A', 'B', 'C', 'D']);
    let mut clip = Clipboard::copy_marked_pixels(&buffer, boxed(at(0, 0), at(1, 1)), at(1, 1), ' ').unwrap();
    clip.cursor = at(3, 4);
    assert_eq!(clip.get(at(2, 3)), Some('A'));
    assert_eq!(clip.get(at(2, 4)), Some('B'));
    assert_eq!(clip.get(at(3, 3)), Some('C'));
    assert_eq!(clip.get(at(3, 4)), Some('D'));
    assert_eq!(clip.get(at(0, 0)), None);
    assert_eq!(clip.get(at(1, 1)), None);
    assert_eq!(
        clip.pixels(),
        vec![(at(2, 3), 'A'), (at(2, 4), 'B'), (at(3, 3), 'C'), (at(3, 4), 'D')]
    );
}

#[test]
fn cells_moved_off_the_grid_are_left_out() {
    let buffer = grid("AB\nCD\n", &['A', 'B', 'C', 'D']);
    let mut clip = Clipboard::copy_marked_pixels(&buffer, boxed(at(0, 0), at(1, 1)), at(1, 1), ' ').unwrap();
    clip.cursor = at(0, 1);
    assert_eq!(clip.get(at(0, 0)), Some('C'));
    assert_eq!(clip.get(at(0, 1)), Some('D'));
    assert_eq!(clip.get(at(1, 0)), None);
    assert_eq!(clip.pixels(), vec![(at(0, 0), 'C'), (at(0, 1), 'D')]);
    clip.cursor = at(0, 0);
    assert_eq!(clip.pixels(), vec![(at(0, 0), 'D')]);
}

#[test]
fn paste_is_a_bulk_update_of_the_placed_cells() {
    let mut buffer = grid("AB..\n....\n", &['A', 'B', '.']);
    let mut clip = Clipboard::copy_marked_pixels(&buffer, boxed(at(0, 0), at(0, 1)), at(0, 0), '.').unwrap();
    clip.cursor = at(1, 2);
    assert!(buffer.update_bulk(clip.pixels()));
    assert_eq!(buffer.lines(), vec!["AB..", "..AB"]);
    assert_eq!(buffer.undo(), Some(0));
    assert_eq!(buffer.lines(), vec!["AB..", "...."]);
}

#[test]
fn copy_from_a_line_keeps_every_cell_once() {
    let buffer = grid("ABC\nDEF\nGHI\n", &['A', 'B', 'C', 'D', 'E', 'F', 'G', 'H', 'I']);
    let mut line = Marker::new_line(at(2, 2));
    line.handle_cursor_move(at(0, 0), &buffer);
    let clip = Clipboard::copy_marked_pixels(&buffer, line, at(0, 0), ' ').unwrap();
    assert_eq!(clip.pixels(), vec![(at(0, 0), 'A'), (at(1, 1), 'E'), (at(2, 2), 'I')]);
}
