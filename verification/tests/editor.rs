use utu::buffer::TextPosition;
use utu::config::{Color, FrameSize, Palette};
use utu::editor::{Action, Config, Editor};
use utu::editor_command::EditorCommand;
use utu::key_input::{KeyCode, KeyInput};
use utu::keybinding::KeyBindings;
use utu::widgets::{picture_pixels, Legend, Preview, TextView};

fn at(row: usize, col: usize) -> TextPosition {
    TextPosition { row, col }
}

fn key(c: char) -> KeyInput {
    KeyInput { ctrl: false, alt: false, code: KeyCode::Char(c) }
}

fn group(name: &str, entries: &[(&str, &str)]) -> (String, Vec<(String, String)>) {
    (name.to_string(), entries.iter().map(|(k, c)| (k.to_string(), c.to_string())).collect())
}

fn editor(text: &str) -> Editor {
    let keybindings = KeyBindings::from_groups(vec![
        group(
            "__main__",
            &[("#", "dot(#)"), (" ", "dot( )"), ("o", "dot(o)"), ("m", "scope(mark)"), ("q", "quit")],
        ),
        group("__clipboard__", &[("p", "paste"), ("q", "cancel"), ("b", "bg(!)")]),
        group("mark", &[("l", "mark-line"), ("r", "mark-rect")]),
    ])
    .unwrap();
    let config = Config {
        keybindings,
        preview: FrameSize { width: 4, height: 4 },
        palette: Palette { colors: vec![('#', Color::rgb(10, 20, 30)), ('o', Color::rgb(1, 2, 3))] },
    };
    let mut editor = Editor::new(config);
    editor.loaded(text.to_string(), "file.txt");
    editor
}

fn run(editor: &mut Editor, command: EditorCommand) -> Action {
    editor.handle_command(&command)
}

#[test]
fn new_editor_takes_its_foreground_from_the_bindings() {
    let e = editor("");
    assert_eq!(e.buffer.filter.fg_chars, vec!['#', ' ', 'o']);
    assert!(!e.exit);
    assert_eq!(e.cursor, at(0, 0));
    assert!(e.marker.is_none());
    assert!(e.clipboard.is_none());
    assert_eq!(e.message.as_deref(), Some("Loaded file.txt"));
    assert!(!e.dirty.content);
    assert!(e.dirty.render);
}

#[test]
fn messages_are_set_and_cleared() {
    let mut e = editor("");
    e.dirty.render = false;
    e.clear_message();
    assert!(e.message.is_none());
    assert!(e.dirty.render);
    e.dirty.render = false;
    e.clear_message();
    assert!(!e.dirty.render);
    e.set_message("hello".to_string());
    assert_eq!(e.message.as_deref(), Some("hello"));
    assert!(e.dirty.render);
}

#[test]
fn dot_draws_at_the_cursor() {
    let mut e = editor("##\n##\n");
    e.cursor = at(1, 1);
    e.message = None;
    e.dot('o');
    assert_eq!(e.buffer.lines(), vec!["##", "#o"]);
    assert!(e.dirty.content);
    assert!(e.message.is_none());
    e.dot('o');
    assert_eq!(e.message.as_deref(), Some("No effect"));
}

#[test]
fn dot_fills_the_marker_and_uses_it_up() {
    let mut e = editor("###\n###\n###\n");
    assert_eq!(run(&mut e, EditorCommand::MarkRect), Action::Done);
    assert_eq!(e.message.as_deref(), Some("Rectangle marking mode started"));
    run(&mut e, EditorCommand::NextLine);
    run(&mut e, EditorCommand::NextLine);
    run(&mut e, EditorCommand::NextChar);
    run(&mut e, EditorCommand::NextChar);
    assert_eq!(e.cursor, at(2, 2));
    run(&mut e, EditorCommand::Dot('o'));
    assert!(e.marker.is_none());
    assert_eq!(e.buffer.lines(), vec!["ooo", "o#o", "ooo"]);
    run(&mut e, EditorCommand::Undo);
    assert_eq!(e.buffer.lines(), vec!["###", "###", "###"]);
    assert_eq!(e.message.as_deref(), Some("Undo: 0 remainings"));
}

#[test]
fn cursor_moves_stay_on_the_content() {
    let mut e = editor("##\n#\n");
    run(&mut e, EditorCommand::PrevLine);
    assert_eq!(e.cursor, at(0, 0));
    run(&mut e, EditorCommand::PrevChar);
    assert_eq!(e.cursor, at(0, 0));
    run(&mut e, EditorCommand::NextChar);
    run(&mut e, EditorCommand::NextChar);
    run(&mut e, EditorCommand::NextChar);
    assert_eq!(e.cursor, at(0, 2));
    run(&mut e, EditorCommand::NextLine);
    run(&mut e, EditorCommand::NextLine);
    assert_eq!(e.cursor, at(1, 2));
    run(&mut e, EditorCommand::PrevChar);
    assert_eq!(e.cursor, at(1, 0));
    e.cursor = at(9, 0);
    run(&mut e, EditorCommand::NextLine);
    assert_eq!(e.cursor, at(1, 0));
}

#[test]
fn cut_moves_cells_into_the_clipboard_and_paste_writes_them() {
    let mut e = editor("#o  \n    \n");
    run(&mut e, EditorCommand::MarkFilledRect);
    run(&mut e, EditorCommand::NextChar);
    assert_eq!(run(&mut e, EditorCommand::Cut), Action::Done);
    assert!(e.marker.is_none());
    assert!(e.clipboard.is_some());
    assert_eq!(e.message.as_deref(), Some("Enter clipboard mode"));
    assert_eq!(e.buffer.lines(), vec!["    ", "    "]);
    run(&mut e, EditorCommand::NextLine);
    run(&mut e, EditorCommand::NextChar);
    run(&mut e, EditorCommand::NextChar);
    assert_eq!(e.cursor, at(1, 3));
    run(&mut e, EditorCommand::Paste);
    assert_eq!(e.message.as_deref(), Some("Pasted"));
    assert_eq!(e.buffer.lines(), vec!["    ", "  #o"]);
    run(&mut e, EditorCommand::Cancel);
    assert!(e.clipboard.is_none());
    assert_eq!(e.message.as_deref(), Some("Canceled"));
    run(&mut e, EditorCommand::Paste);
    assert_eq!(e.message.as_deref(), Some("No clipboard content"));
}

#[test]
fn copy_leaves_the_content_alone() {
    let mut e = editor("#o\n");
    e.message = None;
    run(&mut e, EditorCommand::Copy);
    assert!(e.clipboard.is_none());
    assert!(e.message.is_none());
    run(&mut e, EditorCommand::MarkStroke);
    run(&mut e, EditorCommand::NextChar);
    run(&mut e, EditorCommand::Copy);
    assert_eq!(e.buffer.lines(), vec!["#o"]);
    let clip = e.clipboard.as_ref().unwrap();
    assert_eq!(clip.get(at(0, 0)), Some('#'));
    assert_eq!(clip.get(at(0, 1)), Some('o'));
}

#[test]
fn copy_of_empty_cells_gives_no_clipboard() {
    let mut e = editor("  \n");
    run(&mut e, EditorCommand::MarkStroke);
    e.message = None;
    run(&mut e, EditorCommand::Copy);
    assert!(e.marker.is_none());
    assert!(e.clipboard.is_none());
    assert!(e.message.is_none());
}

#[test]
fn background_toggles() {
    let mut e = editor("#x\n");
    run(&mut e, EditorCommand::Background('.'));
    assert_eq!(e.buffer.filter.bg_char, Some('.'));
    assert_eq!(e.buffer.filter.apply('x'), '.');
    run(&mut e, EditorCommand::Background('-'));
    assert_eq!(e.buffer.filter.bg_char, None);
}

#[test]
fn canvas_char_is_the_first_background_or_a_space() {
    assert_eq!(editor("").config.keybindings.canvas_char(), ' ');
    let bindings = |main: &[(&str, &str)], global: &[(&str, &str)], named: &[(&str, &str)]| {
        KeyBindings::from_groups(vec![
            group("named", named),
            group("__global__", global),
            group("__clipboard__", &[("c", "bg(c)")]),
            group("__main__", main),
        ])
        .unwrap()
        .canvas_char()
    };
    assert_eq!(bindings(&[("a", "quit"), ("b", "bg(m)"), ("c", "bg(n)")], &[("g", "bg(g)")], &[]), 'm');
    assert_eq!(bindings(&[("a", "quit")], &[("g", "bg(g)")], &[("n", "bg(n)")]), 'g');
    assert_eq!(bindings(&[], &[], &[("x", "cut"), ("n", "bg(n)")]), 'n');
    assert_eq!(bindings(&[], &[], &[]), ' ');
}

#[test]
fn quit_save_and_the_toggles() {
    let mut e = editor("");
    assert_eq!(run(&mut e, EditorCommand::Save), Action::Save);
    assert_eq!(run(&mut e, EditorCommand::Legend), Action::ToggleLegend);
    assert_eq!(run(&mut e, EditorCommand::Preview), Action::TogglePreview);
    assert_eq!(run(&mut e, EditorCommand::Scope("mark".to_string())), Action::Done);
    assert!(!e.exit);
    assert_eq!(run(&mut e, EditorCommand::Quit), Action::Done);
    assert!(e.exit);
}

#[test]
fn keys_resolve_to_commands() {
    let mut e = editor("#\n");
    assert_eq!(e.handle_key(key('m')), None);
    assert_eq!(e.message.as_deref(), Some("[INPUT] m ->"));
    assert_eq!(e.pending_keys.0, vec![key('m')]);
    assert_eq!(e.handle_key(key('l')), Some(EditorCommand::MarkLine));
    assert!(e.pending_keys.0.is_empty());
    assert!(e.message.is_none());
    assert_eq!(e.handle_key(key('m')), None);
    assert_eq!(e.handle_key(key('x')), None);
    assert_eq!(e.message.as_deref(), Some("Undefined: m -> x"));
    assert!(e.pending_keys.0.is_empty());
    assert_eq!(e.handle_key(key('q')), Some(EditorCommand::Quit));
    assert_eq!(e.handle_key(key('p')), None);
    assert_eq!(e.message.as_deref(), Some("Undefined: p"));
}

#[test]
fn clipboard_bindings_are_in_force_while_the_clipboard_is_placed() {
    let mut e = editor("#\n");
    run(&mut e, EditorCommand::MarkStroke);
    run(&mut e, EditorCommand::Copy);
    assert!(e.clipboard.is_some());
    assert_eq!(e.handle_key(key('p')), Some(EditorCommand::Paste));
    assert_eq!(e.handle_key(key('q')), Some(EditorCommand::Cancel));
    assert_eq!(e.handle_key(key('#')), None);
}

#[test]
fn saving_hands_out_the_text_once_changed() {
    let mut e = editor("#\n#\n");
    assert_eq!(e.text_to_save(), None);
    assert_eq!(e.message.as_deref(), Some("No changes to save"));
    e.dot('o');
    assert_eq!(e.text_to_save().as_deref(), Some("o\n#\n"));
    e.saved("out.txt");
    assert!(!e.dirty.content);
    assert_eq!(e.message.as_deref(), Some("Saved out.txt"));
}

#[test]
fn undo_messages_count_in_decimal() {
    let mut e = editor("################\n");
    for col in 0..12 {
        e.cursor = at(0, col);
        e.dot('o');
    }
    run(&mut e, EditorCommand::Undo);
    assert_eq!(e.message.as_deref(), Some("Undo: 11 remainings"));
    run(&mut e, EditorCommand::Undo);
    assert_eq!(e.message.as_deref(), Some("Undo: 10 remainings"));
    run(&mut e, EditorCommand::Undo);
    assert_eq!(e.message.as_deref(), Some("Undo: 9 remainings"));
}

#[test]
fn legend_size_and_toggle() {
    let mut e = editor("");
    let mut legend = Legend::new();
    assert!(!legend.hide);
    assert_eq!(legend.size(&e), (6, 20));
    e.handle_key(key('m'));
    assert_eq!(legend.size(&e), (3, 20));
    legend.toggle_hide(&mut e);
    assert!(legend.hide);
    assert_eq!(e.message.as_deref(), Some("Hide Legend"));
    assert_eq!(legend.size(&e), (1, 4));
    legend.toggle_hide(&mut e);
    assert_eq!(e.message.as_deref(), Some("Show Legend"));
}

#[test]
fn preview_size_toggle_and_colours() {
    let mut e = editor("#o \n");
    let mut preview = Preview::default();
    assert_eq!(preview.size(&e), (3, 5));
    assert_eq!(preview.get_pixel_color(&e, 0, 0), Some(Color::rgb(10, 20, 30)));
    assert_eq!(preview.get_pixel_color(&e, 0, 1), Some(Color::rgb(1, 2, 3)));
    assert_eq!(preview.get_pixel_color(&e, 0, 2), None);
    assert_eq!(preview.get_pixel_color(&e, 0, 3), Some(Color::rgb(255, 255, 255)));
    assert_eq!(preview.get_pixel_color(&e, 5, 0), Some(Color::rgb(255, 255, 255)));
    preview.toggle_hide(&mut e);
    assert_eq!(e.message.as_deref(), Some("Hide Preview"));
    assert_eq!(preview.size(&e), (1, 4));
    preview.toggle_hide(&mut e);
    assert_eq!(e.message.as_deref(), Some("Show Preview"));
}

#[test]
fn text_view_scrolls_to_keep_the_cursor_on_screen() {
    let mut e = editor("");
    let mut view = TextView::new();
    assert_eq!(view.scroll_offset(), at(0, 0));
    e.cursor = at(3, 5);
    view.adjust_scroll_offset_for_cursor(&e, 10, 10);
    assert_eq!(view.scroll_offset(), at(0, 0));
    assert_eq!(view.cursor_terminal_position(&e), (3, 5));
    e.cursor = at(10, 25);
    view.adjust_scroll_offset_for_cursor(&e, 10, 10);
    assert_eq!(view.scroll_offset(), at(1, 16));
    assert_eq!(view.cursor_terminal_position(&e), (9, 9));
    e.cursor = at(0, 16);
    view.adjust_scroll_offset_for_cursor(&e, 10, 10);
    assert_eq!(view.scroll_offset(), at(0, 16));
    e.cursor = at(4, 3);
    assert_eq!(view.cursor_terminal_position(&e), (4, 0));
    view.adjust_scroll_offset_for_cursor(&e, 0, 0);
    assert_eq!(view.scroll_offset(), at(4, 3));
}

#[test]
fn picture_of_the_content() {
    let e = editor("#o\n #\n");
    let mut palette = Palette { colors: vec![('#', Color::rgba(9, 8, 7, 0)), ('o', Color::rgb(1, 2, 3))] };
    let size = FrameSize { width: 2, height: 2 };
    assert_eq!(picture_pixels(&e.buffer, &palette, size, at(0, 0)), None);
    palette.colors.push((' ', Color::rgb(4, 4, 4)));
    assert_eq!(
        picture_pixels(&e.buffer, &palette, size, at(0, 0)),
        Some(vec![9, 8, 7, 255, 1, 2, 3, 255, 4, 4, 4, 255, 9, 8, 7, 255])
    );
    assert_eq!(
        picture_pixels(&e.buffer, &palette, size, at(1, 1)),
        Some(vec![9, 8, 7, 255, 0, 0, 0, 255, 0, 0, 0, 255, 0, 0, 0, 255])
    );
    assert_eq!(
        picture_pixels(&e.buffer, &palette, FrameSize { width: 1, height: 1 }, at(usize::MAX, usize::MAX)),
        Some(vec![0, 0, 0, 255])
    );
    assert_eq!(picture_pixels(&e.buffer, &palette, FrameSize { width: 0, height: 9 }, at(0, 0)), Some(vec![]));
    assert_eq!(picture_pixels(&e.buffer, &palette, FrameSize { width: 9, height: 0 }, at(0, 0)), Some(vec![]));
}
