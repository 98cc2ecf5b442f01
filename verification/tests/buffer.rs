use utu::buffer::{TextBuffer, TextBufferFilter, TextPosition};
use utu::width::width_of;

fn pos(row: usize, col: usize) -> TextPosition {
    TextPosition { row, col }
}

fn lines_of(buffer: &TextBuffer) -> Vec<String> {
    buffer.lines()
}

fn buffer_with(text: &str, fg: &[char]) -> TextBuffer {
    let mut buffer = TextBuffer::new();
    buffer.filter.fg_chars = fg.to_vec();
    buffer.set_text(text.to_string());
    buffer
}

fn abcd() -> TextBuffer {
    buffer_with("AB\nCD\n", &['A', 'B', 'C', 'D'])
}

#[test]
fn update_then_undo_restores_the_rows() {
    let mut buffer = abcd();
    assert_eq!(lines_of(&buffer), vec!["AB", "CD"]);
    assert!(buffer.update(pos(0, 0), 'X'));
    assert_eq!(lines_of(&buffer), vec!["XB", "CD"]);
    assert_eq!(buffer.undo(), Some(0));
    assert_eq!(lines_of(&buffer), vec!["AB", "CD"]);
    assert_eq!(buffer.undo(), None);
}

#[test]
fn new_buffer_is_empty() {
    let mut buffer = TextBuffer::new();
    assert_eq!(buffer.rows(), 0);
    assert_eq!(buffer.cols(0), 0);
    assert!(lines_of(&buffer).is_empty());
    assert_eq!(buffer.get_char_at(pos(0, 0)), None);
    assert_eq!(buffer.undo(), None);
    assert!(buffer.filter.fg_chars.is_empty());
    assert_eq!(buffer.filter.bg_char, None);
}

#[test]
fn width_of_ascii_wide_and_control() {
    assert_eq!(width_of('a'), 1);
    assert_eq!(width_of(' '), 1);
    assert_eq!(width_of('\u{3042}'), 2);
    assert_eq!(width_of('\u{0}'), 0);
    assert_eq!(width_of('\u{7f}'), 0);
    assert_eq!(width_of('\u{301}'), 0);
    assert_eq!(width_of('\u{17d8}'), 3);
}

#[test]
fn filter_apply_keeps_foreground_and_hides_the_rest() {
    let mut filter = TextBufferFilter::default();
    filter.fg_chars = vec!['#'];
    assert_eq!(filter.apply('#'), '#');
    assert_eq!(filter.apply('x'), 'x');
    filter.bg_char = Some('.');
    assert_eq!(filter.apply('#'), '#');
    assert_eq!(filter.apply('x'), '.');
    assert!(filter.is_foreground('#'));
    assert!(!filter.is_foreground('.'));
}

#[test]
fn set_text_splits_lines() {
    let buffer = buffer_with("ab\r\ncd\n\nef", &[]);
    assert_eq!(lines_of(&buffer), vec!["ab", "cd", "", "ef"]);
    assert_eq!(buffer.rows(), 4);
    let buffer = buffer_with("", &[]);
    assert_eq!(buffer.rows(), 0);
    let buffer = buffer_with("\n", &[]);
    assert_eq!(lines_of(&buffer), vec![""]);
    let buffer = buffer_with("a\r", &[]);
    assert_eq!(lines_of(&buffer), vec!["a\r"]);
    let buffer = buffer_with("a\r\r\n", &[]);
    assert_eq!(lines_of(&buffer), vec!["a\r"]);
}

#[test]
fn set_text_agrees_with_std_lines() {
    for text in ["", "a", "a\n", "a\nb", "\n\n", "a\r\nb\r\n", "x\ry\n", "\r\n", "\r", "ab\n\ncd\n"] {
        let buffer = buffer_with(text, &[]);
        let expected: Vec<String> = text.lines().map(|l| l.to_string()).collect();
        assert_eq!(lines_of(&buffer), expected, "{:?}", text);
    }
}

#[test]
fn set_text_clears_the_undo_log() {
    let mut buffer = abcd();
    assert!(buffer.update(pos(0, 0), 'B'));
    buffer.set_text("AB\n".to_string());
    assert_eq!(buffer.undo(), None);
    assert_eq!(lines_of(&buffer), vec!["AB"]);
}

#[test]
fn get_char_at_reads_foreground_cells_only() {
    let buffer = buffer_with("A.B\n", &['A', 'B']);
    assert_eq!(buffer.get_char_at(pos(0, 0)), Some('A'));
    assert_eq!(buffer.get_char_at(pos(0, 1)), None);
    assert_eq!(buffer.get_char_at(pos(0, 2)), Some('B'));
    assert_eq!(buffer.get_char_at(pos(0, 3)), None);
    assert_eq!(buffer.get_char_at(pos(1, 0)), None);
}

#[test]
fn get_char_at_inside_a_wide_glyph_is_nothing() {
    let buffer = buffer_with("\u{3042}A\n", &['\u{3042}', 'A']);
    assert_eq!(buffer.cols(0), 3);
    assert_eq!(buffer.get_char_at(pos(0, 0)), Some('\u{3042}'));
    assert_eq!(buffer.get_char_at(pos(0, 1)), None);
    assert_eq!(buffer.get_char_at(pos(0, 2)), Some('A'));
}

#[test]
fn widths_follow_the_background_character() {
    let mut buffer = buffer_with("\u{3042}A\n", &['A']);
    assert_eq!(buffer.cols(0), 3);
    assert_eq!(buffer.get_char_at(pos(0, 2)), Some('A'));
    buffer.filter.bg_char = Some('.');
    assert_eq!(buffer.cols(0), 2);
    assert_eq!(buffer.get_char_at(pos(0, 1)), Some('A'));
    assert_eq!(buffer.get_char_at(pos(0, 2)), None);
}

#[test]
fn cols_sums_display_widths() {
    let buffer = buffer_with("ab\u{3042}\n\n", &[]);
    assert_eq!(buffer.cols(0), 4);
    assert_eq!(buffer.cols(1), 0);
    assert_eq!(buffer.cols(2), 0);
}

#[test]
fn prev_col_steps_over_wide_glyphs() {
    let buffer = buffer_with("a\u{3042}b\n", &[]);
    assert_eq!(buffer.prev_col(pos(0, 0)), 0);
    assert_eq!(buffer.prev_col(pos(0, 1)), 0);
    assert_eq!(buffer.prev_col(pos(0, 2)), 1);
    assert_eq!(buffer.prev_col(pos(0, 3)), 1);
    assert_eq!(buffer.prev_col(pos(0, 4)), 3);
    assert_eq!(buffer.prev_col(pos(0, 9)), 3);
    assert_eq!(buffer.prev_col(pos(5, 3)), 0);
}

#[test]
fn next_col_steps_over_wide_glyphs() {
    let buffer = buffer_with("a\u{3042}b\n", &[]);
    assert_eq!(buffer.next_col(pos(0, 0)), 1);
    assert_eq!(buffer.next_col(pos(0, 1)), 3);
    assert_eq!(buffer.next_col(pos(0, 2)), 3);
    assert_eq!(buffer.next_col(pos(0, 3)), 4);
    assert_eq!(buffer.next_col(pos(0, 4)), 4);
    assert_eq!(buffer.next_col(pos(0, 9)), 4);
    assert_eq!(buffer.next_col(pos(5, 3)), 3);
}

#[test]
fn update_is_refused_on_background_cells_and_equal_characters() {
    let mut buffer = buffer_with("A.\n", &['A']);
    assert!(!buffer.update(pos(0, 1), 'A'));
    assert!(!buffer.update(pos(0, 0), 'A'));
    assert!(!buffer.update(pos(0, 2), 'A'));
    assert!(!buffer.update(pos(1, 0), 'A'));
    assert_eq!(lines_of(&buffer), vec!["A."]);
    assert_eq!(buffer.undo(), None);
}

#[test]
fn update_bulk_applies_what_it_can_and_undoes_as_one() {
    let mut buffer = buffer_with("AB.\nCD\n", &['A', 'B', 'C', 'D', 'X']);
    let changed = buffer.update_bulk(vec![
        (pos(0, 0), 'X'),
        (pos(0, 2), 'X'),
        (pos(1, 1), 'X'),
        (pos(0, 1), 'B'),
        (pos(7, 7), 'X'),
    ]);
    assert!(changed);
    assert_eq!(lines_of(&buffer), vec!["XB.", "CX"]);
    assert_eq!(buffer.undo(), Some(0));
    assert_eq!(lines_of(&buffer), vec!["AB.", "CD"]);
    assert_eq!(buffer.undo(), None);
}

#[test]
fn update_bulk_without_effect_logs_nothing() {
    let mut buffer = abcd();
    assert!(!buffer.update_bulk(vec![(pos(0, 0), 'A'), (pos(9, 9), 'X')]));
    assert!(!buffer.update_bulk(Vec::new()));
    assert_eq!(buffer.undo(), None);
}

#[test]
fn undo_counts_down() {
    let mut buffer = buffer_with("AAA\n", &['A', 'B']);
    assert!(buffer.update(pos(0, 0), 'B'));
    assert!(buffer.update(pos(0, 1), 'B'));
    assert!(buffer.update(pos(0, 2), 'B'));
    assert_eq!(lines_of(&buffer), vec!["BBB"]);
    assert_eq!(buffer.undo(), Some(2));
    assert_eq!(lines_of(&buffer), vec!["BBA"]);
    assert_eq!(buffer.undo(), Some(1));
    assert_eq!(buffer.undo(), Some(0));
    assert_eq!(lines_of(&buffer), vec!["AAA"]);
    assert_eq!(buffer.undo(), None);
    assert_eq!(lines_of(&buffer), vec!["AAA"]);
}

#[test]
fn undo_restores_a_cell_written_twice_in_one_batch() {
    let mut buffer = buffer_with("A\n", &['A', 'X', 'Y']);
    assert!(buffer.update_bulk(vec![(pos(0, 0), 'X'), (pos(0, 0), 'Y')]));
    assert_eq!(lines_of(&buffer), vec!["Y"]);
    assert_eq!(buffer.undo(), Some(0));
    assert_eq!(lines_of(&buffer), vec!["A"]);
}

#[test]
fn undo_restores_across_a_change_of_width() {
    let mut buffer = buffer_with("AB\n", &['A', 'B', '\u{3042}']);
    assert!(buffer.update_bulk(vec![(pos(0, 0), '\u{3042}'), (pos(0, 2), 'A')]));
    assert_eq!(lines_of(&buffer), vec!["\u{3042}A"]);
    assert_eq!(buffer.undo(), Some(0));
    assert_eq!(lines_of(&buffer), vec!["AB"]);
}

#[test]
fn edits_after_an_undo_can_be_undone() {
    let mut buffer = buffer_with("A\n", &['A', 'B', 'C']);
    assert!(buffer.update(pos(0, 0), 'B'));
    assert_eq!(buffer.undo(), Some(0));
    assert!(buffer.update(pos(0, 0), 'C'));
    assert_eq!(lines_of(&buffer), vec!["C"]);
    assert_eq!(buffer.undo(), Some(1));
    assert_eq!(lines_of(&buffer), vec!["A"]);
}

#[test]
fn position_order_and_default() {
    assert_eq!(TextPosition::default(), pos(0, 0));
    assert!(pos(0, 5).precedes(&pos(1, 0)));
    assert!(pos(1, 0).precedes(&pos(1, 1)));
    assert!(!pos(1, 1).precedes(&pos(1, 1)));
    assert!(!pos(2, 0).precedes(&pos(1, 9)));
    assert!(pos(0, 5) < pos(1, 0));
}
