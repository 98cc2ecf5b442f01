use utu::buffer::{TextBuffer, TextPosition};
use utu::fill::flood_fill;
use utu::marker::{FillMarker, FilledRectMarker, LineMarker, Marker, RectMarker, StrokeMarker};

fn at(row: usize, col: usize) -> TextPosition {
    TextPosition { row, col }
}

fn grid(text: &str, fg: &[char]) -> TextBuffer {
    let mut buffer = TextBuffer::new();
    buffer.filter.fg_chars = fg.to_vec();
    buffer.set_text(text.to_string());
    buffer
}

fn float_line(start: TextPosition, end: TextPosition) -> Vec<TextPosition> {
    let dx = end.col as i64 - start.col as i64;
    let dy = end.row as i64 - start.row as i64;
    let steps = dx.abs().max(dy.abs()) as usize;
    (0..=steps)
        .map(|i| {
            if steps == 0 {
                return start;
            }
            let t = i as f64 / steps as f64;
            let col = start.col as f64 + t * dx as f64;
            let row = start.row as f64 + t * dy as f64;
            TextPosition { row: row.round() as usize, col: col.round() as usize }
        })
        .collect()
}

#[test]
fn marker_names() {
    let buffer = TextBuffer::new();
    assert_eq!(Marker::new_stroke(at(0, 0)).name(), "MARK(STROKE)");
    assert_eq!(Marker::new_line(at(0, 0)).name(), "MARK(LINE)");
    assert_eq!(Marker::new_rect(at(0, 0)).name(), "MARK(RECT)");
    assert_eq!(Marker::new_filled_rect(at(0, 0)).name(), "MARK(FILLED-RECT)");
    assert_eq!(Marker::new_fill(at(0, 0), &buffer).name(), "MARK(FILL)");
}

#[test]
fn stroke_collects_visited_positions_once_and_in_order() {
    let buffer = TextBuffer::new();
    let mut marker = Marker::new_stroke(at(2, 2));
    marker.handle_cursor_move(at(2, 3), &buffer);
    marker.handle_cursor_move(at(1, 3), &buffer);
    marker.handle_cursor_move(at(2, 3), &buffer);
    marker.handle_cursor_move(at(2, 2), &buffer);
    marker.handle_cursor_move(at(0, 9), &buffer);
    assert_eq!(marker.marked_positions(), vec![at(0, 9), at(1, 3), at(2, 2), at(2, 3)]);
    let mut stroke = StrokeMarker::new(at(1, 1));
    stroke.handle_cursor_move(at(1, 0));
    assert_eq!(stroke.marked_positions(), vec![at(1, 0), at(1, 1)]);
}

#[test]
fn line_of_one_point() {
    let marker = Marker::new_line(at(3, 4));
    assert_eq!(marker.marked_positions(), vec![at(3, 4)]);
    let mut line = LineMarker::new(at(3, 4));
    line.handle_cursor_move(at(3, 4));
    assert_eq!(line.marked_positions(), vec![at(3, 4)]);
}

#[test]
fn line_runs_from_start_to_end() {
    let mut line = LineMarker::new(at(0, 0));
    line.handle_cursor_move(at(0, 3));
    assert_eq!(line.marked_positions(), vec![at(0, 0), at(0, 1), at(0, 2), at(0, 3)]);
    line.handle_cursor_move(at(3, 3));
    assert_eq!(line.marked_positions(), vec![at(0, 0), at(1, 1), at(2, 2), at(3, 3)]);
    let mut line = LineMarker::new(at(2, 5));
    line.handle_cursor_move(at(0, 1));
    assert_eq!(line.marked_positions(), vec![at(2, 5), at(2, 4), at(1, 3), at(1, 2), at(0, 1)]);
    let mut line = LineMarker::new(at(0, 0));
    line.handle_cursor_move(at(1, 2));
    assert_eq!(line.marked_positions(), vec![at(0, 0), at(1, 1), at(1, 2)]);
}

#[test]
fn line_agrees_with_interpolation_in_floating_point() {
    for sr in 0..7 {
        for sc in 0..7 {
            for er in 0..7 {
                for ec in 0..7 {
                    let mut line = LineMarker::new(at(sr, sc));
                    line.handle_cursor_move(at(er, ec));
                    assert_eq!(line.marked_positions(), float_line(at(sr, sc), at(er, ec)));
                }
            }
        }
    }
}

#[test]
fn line_between_far_corners() {
    let mut line = LineMarker::new(at(0, usize::MAX));
    line.handle_cursor_move(at(2, usize::MAX - 4));
    assert_eq!(
        line.marked_positions(),
        vec![
            at(0, usize::MAX),
            at(1, usize::MAX - 1),
            at(1, usize::MAX - 2),
            at(2, usize::MAX - 3),
            at(2, usize::MAX - 4)
        ]
    );
}

#[test]
fn rect_marks_the_outline() {
    let mut rect = RectMarker::new(at(1, 1));
    assert_eq!(rect.marked_positions(), vec![at(1, 1)]);
    rect.handle_cursor_move(at(3, 4));
    let marked = rect.marked_positions();
    assert_eq!(
        marked,
        vec![
            at(1, 1), at(1, 2), at(1, 3), at(1, 4),
            at(2, 1), at(2, 4),
            at(3, 1), at(3, 2), at(3, 3), at(3, 4),
        ]
    );
    assert_eq!(marked.len(), 2 * 4 + 2 * 3 - 4);
    rect.handle_cursor_move(at(0, 0));
    assert_eq!(rect.marked_positions(), vec![at(0, 0), at(0, 1), at(1, 0), at(1, 1)]);
    rect.handle_cursor_move(at(1, 3));
    assert_eq!(rect.marked_positions(), vec![at(1, 1), at(1, 2), at(1, 3)]);
    rect.handle_cursor_move(at(3, 1));
    assert_eq!(rect.marked_positions(), vec![at(1, 1), at(2, 1), at(3, 1)]);
}

#[test]
fn rect_and_filled_rect_counts() {
    for w in 2..6usize {
        for h in 2..6usize {
            let mut rect = Marker::new_rect(at(5, 5));
            let mut filled = Marker::new_filled_rect(at(5, 5));
            let buffer = TextBuffer::new();
            rect.handle_cursor_move(at(5 + h - 1, 5 + w - 1), &buffer);
            filled.handle_cursor_move(at(5 + h - 1, 5 + w - 1), &buffer);
            assert_eq!(rect.marked_positions().len(), 2 * w + 2 * h - 4);
            assert_eq!(filled.marked_positions().len(), w * h);
        }
    }
}

#[test]
fn filled_rect_marks_every_cell() {
    let mut rect = FilledRectMarker::new(at(2, 3));
    assert_eq!(rect.marked_positions(), vec![at(2, 3)]);
    rect.handle_cursor_move(at(1, 1));
    assert_eq!(
        rect.marked_positions(),
        vec![at(1, 1), at(1, 2), at(1, 3), at(2, 1), at(2, 2), at(2, 3)]
    );
}

#[test]
fn rect_at_the_far_corner() {
    let mut rect = RectMarker::new(at(usize::MAX, usize::MAX));
    rect.handle_cursor_move(at(usize::MAX - 1, usize::MAX - 1));
    assert_eq!(rect.marked_positions().len(), 4);
}

#[test]
fn fill_covers_the_connected_cells() {
    let buffer = grid("AAB\nABB\nAAA\nBBA\n", &['A', 'B']);
    let marker = Marker::new_fill(at(0, 0), &buffer);
    assert_eq!(
        marker.marked_positions(),
        vec![at(0, 0), at(0, 1), at(1, 0), at(2, 0), at(2, 1), at(2, 2), at(3, 2)]
    );
    let marker = Marker::new_fill(at(0, 2), &buffer);
    assert_eq!(marker.marked_positions(), vec![at(0, 2), at(1, 1), at(1, 2)]);
    let marker = Marker::new_fill(at(3, 0), &buffer);
    assert_eq!(marker.marked_positions(), vec![at(3, 0), at(3, 1)]);
}

#[test]
fn fill_of_a_uniform_grid_covers_it() {
    let buffer = grid("AAAA\nAAAA\nAAAA\n", &['A']);
    for r in 0..3 {
        for c in 0..4 {
            let marker = Marker::new_fill(at(r, c), &buffer);
            assert_eq!(marker.marked_positions().len(), 3 * 4);
        }
    }
    assert_eq!(flood_fill(&buffer, at(1, 1)).len(), 12);
}

#[test]
fn fill_on_a_background_cell_is_empty() {
    let buffer = grid("A.A\n", &['A']);
    assert!(Marker::new_fill(at(0, 1), &buffer).marked_positions().is_empty());
    assert!(Marker::new_fill(at(5, 5), &buffer).marked_positions().is_empty());
    assert_eq!(Marker::new_fill(at(0, 0), &buffer).marked_positions(), vec![at(0, 0)]);
}

#[test]
fn fill_follows_the_cursor() {
    let buffer = grid("AAB\n", &['A', 'B']);
    let mut fill = FillMarker::new(at(0, 0), &buffer);
    assert_eq!(fill.marked_positions(), vec![at(0, 0), at(0, 1)]);
    fill.handle_cursor_move(at(0, 2), &buffer);
    assert_eq!(fill.marked_positions(), vec![at(0, 2)]);
}

#[test]
fn fill_stops_at_wide_glyphs() {
    let buffer = grid("\u{3042}\u{3042}\n", &['\u{3042}']);
    assert_eq!(Marker::new_fill(at(0, 0), &buffer).marked_positions(), vec![at(0, 0)]);
    assert_eq!(Marker::new_fill(at(0, 2), &buffer).marked_positions(), vec![at(0, 2)]);
}

#[test]
fn fill_of_ragged_rows() {
    let buffer = grid("A\nAAA\nA\n", &['A']);
    assert_eq!(
        Marker::new_fill(at(1, 2), &buffer).marked_positions(),
        vec![at(0, 0), at(1, 0), at(1, 1), at(1, 2), at(2, 0)]
    );
}
