//! The state of one editing session, and what each command does to it.

use vstd::prelude::*;
use vstd::string::StringExecFns;
use crate::buffer::{next_col_of, prev_col_of, replaced_by, split_lines, max_row_len, TextBuffer, TextPosition};
use crate::clipboard::{capture_at, is_top_left, Clipboard, ClipboardView};
use crate::config::{FrameSize, Palette};
use crate::editor_command::{CommandView, EditorCommand};
use crate::key_input::KeyInput;
use crate::keybinding::{joined, KeyBindings, KeySequence};
use crate::marker::Marker;
use crate::text::{decimal, push_number};

verus! {

/// What has changed since it was last taken care of.
#[derive(Debug)]
pub struct Dirty {
    /// The content differs from what is saved.
    pub content: bool,
    /// The screen has to be drawn again.
    pub render: bool,
}

/// What the editor is set up with.
#[derive(Debug)]
pub struct Config {
    pub keybindings: KeyBindings,
    pub preview: FrameSize,
    pub palette: Palette,
}

/// One editing session.
#[derive(Debug)]
pub struct Editor {
    pub exit: bool,
    pub dirty: Dirty,
    pub cursor: TextPosition,
    pub buffer: TextBuffer,
    pub message: Option<String>,
    pub config: Config,
    pub pending_keys: KeySequence,
    pub marker: Option<Marker>,
    pub clipboard: Option<Clipboard>,
}

/// What is left for the caller to do after a command.
#[derive(Debug, Clone, Copy, PartialEq, Eq, Structural)]
pub enum Action {
    /// Nothing more.
    Done,
    /// Write the content to its file.
    Save,
    /// Show or hide the legend.
    ToggleLegend,
    /// Show or hide the preview.
    TogglePreview,
}

/// The writes that paint every one of `positions` with `c`.
pub open spec fn painted(positions: Seq<TextPosition>, c: char) -> Seq<(TextPosition, char)> {
    Seq::new(positions.len(), |i: int| (positions[i], c))
}

/// The writes of `cells`, each with `c` in place of its character.
pub open spec fn blanked(cells: Seq<(TextPosition, char)>, c: char) -> Seq<(TextPosition, char)> {
    Seq::new(cells.len(), |i: int| (cells[i].0, c))
}

/// The message of `m`, if there is one.
pub open spec fn message_text(m: Option<String>) -> Option<Seq<char>> {
    match m {
        Some(s) => Some(s@),
        None => None,
    }
}

/// The writes that paint every one of `positions` with `c`.
fn paint(positions: &Vec<TextPosition>, c: char) -> (ups: Vec<(TextPosition, char)>)
    ensures
        ups@ == painted(positions@, c),
{
    let mut ups: Vec<(TextPosition, char)> = Vec::new();
    let mut i: usize = 0;
    while i < positions.len()
        invariant
            i <= positions.len(),
            ups@.len() == i,
            forall|k: int| 0 <= k < i ==> ups@[k] == (positions@[k], c),
        decreases positions.len() - i,
    {
        ups.push((positions[i], c));
        i += 1;
    }
    assert(ups@ =~= painted(positions@, c));
    ups
}

/// The writes of `cells`, each with `c` in place of its character.
fn blank(cells: &Vec<(TextPosition, char)>, c: char) -> (ups: Vec<(TextPosition, char)>)
    ensures
        ups@ == blanked(cells@, c),
{
    let mut ups: Vec<(TextPosition, char)> = Vec::new();
    let mut i: usize = 0;
    while i < cells.len()
        invariant
            i <= cells.len(),
            ups@.len() == i,
            forall|k: int| 0 <= k < i ==> ups@[k] == (cells@[k].0, c),
        decreases cells.len() - i,
    {
        ups.push((cells[i].0, c));
        i += 1;
    }
    assert(ups@ =~= blanked(cells@, c));
    ups
}

impl Editor {
    /// The buffer, the marker and the clipboard are each in order.
    pub open spec fn wf(&self) -> bool {
        &&& self.buffer.wf()
        &&& self.marker matches Some(m) ==> m.wf()
        &&& self.clipboard matches Some(cb) ==> cb.wf()
    }

    /// A session on an empty buffer, in which the characters that the
    /// dot commands of the bindings draw are foreground.
    pub fn new(config: Config) -> (e: Self)
        ensures
            e.wf(),
            !e.exit,
            !e.dirty.content,
            e.dirty.render,
            e.cursor == (TextPosition { row: 0, col: 0 }),
            e.buffer@.rows =~= Seq::<Seq<char>>::empty(),
            e.buffer@.log =~= Seq::<crate::buffer::UndoEntry>::empty(),
            e.buffer@.cursor == 0,
            !e.buffer@.replaying,
            e.buffer@.filter.bg is None,
            forall|c: char| e.buffer@.filter.fg.contains(c) <==> config.keybindings@.fg_chars().contains(c),
            e.message is None,
            e.config == config,
            e.pending_keys@ =~= Seq::<KeyInput>::empty(),
            e.marker is None,
            e.clipboard is None,
    {
        let mut buffer = TextBuffer::new();
        buffer.filter.fg_chars = config.keybindings.fg_chars();
        Editor {
            exit: false,
            dirty: Dirty { content: false, render: true },
            cursor: TextPosition { row: 0, col: 0 },
            buffer,
            message: None,
            config,
            pending_keys: KeySequence(Vec::new()),
            marker: None,
            clipboard: None,
        }
    }

    /// Shows `message`, and asks for the screen to be drawn again.
    pub fn set_message(&mut self, message: String)
        ensures
            *final(self) == (Editor {
                message: Some(message),
                dirty: Dirty { content: old(self).dirty.content, render: true },
                ..*old(self)
            }),
    {
        self.message = Some(message);
        self.dirty.render = true;
    }

    /// Takes the message away; if there was one, the screen has to be
    /// drawn again.
    pub fn clear_message(&mut self)
        ensures
            final(self).message is None,
            old(self).message is Some ==> *final(self) == (Editor {
                message: None,
                dirty: Dirty { content: old(self).dirty.content, render: true },
                ..*old(self)
            }),
            old(self).message is None ==> *final(self) == *old(self),
    {
        if self.message.is_some() {
            self.message = None;
            self.dirty.render = true;
        }
    }

    /// The writes that [`Editor::dot`] makes with `c`: one for every
    /// position of the marker, or, without a marker, one at the cursor.
    pub open spec fn dot_updates(&self, c: char) -> Seq<(TextPosition, char)> {
        match self.marker {
            Some(m) => painted(m.positions(), c),
            None => seq![(self.cursor, c)],
        }
    }

    /// Whether `self` is `before` after drawing `c`: the writes are made
    /// as one bulk edit, and the marker is used up. If a cell changed,
    /// the content is marked as changed; if none did, a message says so.
    pub open spec fn is_dot_of(&self, before: Editor, c: char) -> bool {
        &&& self.marker is None
        &&& self.buffer@ == before.buffer@.after_update_bulk(before.dot_updates(c))
        &&& self.exit == before.exit
        &&& self.cursor == before.cursor
        &&& self.config == before.config
        &&& self.pending_keys == before.pending_keys
        &&& self.clipboard == before.clipboard
        &&& self.dirty.render
        &&& if replaced_by(
            before.buffer@.filter,
            before.buffer@.rows,
            before.dot_updates(c),
            !before.buffer@.replaying,
        ).len() > 0 {
            self.dirty.content && self.message == before.message
        } else {
            self.dirty.content == before.dirty.content && message_text(self.message) == Some("No effect"@)
        }
    }

    /// Draws `c`: on every position of the marker, which is used up, or
    /// at the cursor when nothing is marked. If no cell changes, a
    /// message says so.
    pub fn dot(&mut self, c: char)
        requires
            old(self).wf(),
        ensures
            final(self).wf(),
            final(self).is_dot_of(*old(self), c),
    {
        let updates = match self.marker.take() {
            Some(marker) => paint(&marker.marked_positions(), c),
            None => {
                let mut one: Vec<(TextPosition, char)> = Vec::new();
                one.push((self.cursor, c));
                assert(one@ =~= seq![(self.cursor, c)]);
                one
            },
        };
        if self.buffer.update_bulk(updates) {
            self.dirty.content = true;
            self.dirty.render = true;
        } else {
            self.set_message(String::from_str("No effect"));
        }
    }

    /// Takes in the chord `key`. The pending chords, with `key` added,
    /// are resolved in the bindings in force: those of the clipboard
    /// while the clipboard is placed, else the main ones. A command is
    /// handed out, and the pending chords are forgotten; so are they
    /// when nothing is bound to them. While more chords are awaited,
    /// they stay. In the two latter cases a message says what happened.
    pub fn handle_key(&mut self, key: KeyInput) -> (command: Option<EditorCommand>)
        ensures
            final(self).exit == old(self).exit,
            final(self).cursor == old(self).cursor,
            final(self).buffer == old(self).buffer,
            final(self).config == old(self).config,
            final(self).marker == old(self).marker,
            final(self).clipboard == old(self).clipboard,
            final(self).dirty.content == old(self).dirty.content,
            ({
                let keys = old(self).pending_keys@.push(key);
                let group = if old(self).clipboard is Some {
                    old(self).config.keybindings@.clipboard
                } else {
                    old(self).config.keybindings@.main
                };
                match old(self).config.keybindings@.resolve(group, keys) {
                    Ok(Some(c)) => {
                        &&& command matches Some(given) && given@ == c
                        &&& final(self).pending_keys@ =~= Seq::<KeyInput>::empty()
                        &&& final(self).message is None
                        &&& final(self).dirty.render == (old(self).dirty.render || old(self).message is Some)
                    },
                    Ok(None) => {
                        &&& command is None
                        &&& final(self).pending_keys@ == keys
                        &&& message_text(final(self).message) == Some("[INPUT] "@ + joined(keys, " -> "@) + " ->"@)
                        &&& final(self).dirty.render
                    },
                    Err(_) => {
                        &&& command is None
                        &&& final(self).pending_keys@ =~= Seq::<KeyInput>::empty()
                        &&& message_text(final(self).message) == Some("Undefined: "@ + joined(keys, " -> "@))
                        &&& final(self).dirty.render
                    },
                }
            }),
    {
        self.clear_message();
        self.pending_keys.push(key);
        let found = if self.clipboard.is_some() {
            match self.config.keybindings.find(&self.config.keybindings.clipboard, &self.pending_keys) {
                Ok(Some(command)) => Ok(Some(command.copy())),
                Ok(None) => Ok(None),
                Err(_) => Err(()),
            }
        } else {
            match self.config.keybindings.find(&self.config.keybindings.main, &self.pending_keys) {
                Ok(Some(command)) => Ok(Some(command.copy())),
                Ok(None) => Ok(None),
                Err(_) => Err(()),
            }
        };
        match found {
            Err(_) => {
                let mut message = String::from_str("Undefined: ");
                message.append(self.pending_keys.to_string().as_str());
                self.set_message(message);
                self.pending_keys.clear();
                None
            },
            Ok(None) => {
                let mut message = String::from_str("[INPUT] ");
                message.append(self.pending_keys.to_string().as_str());
                message.append(" ->");
                self.set_message(message);
                None
            },
            Ok(Some(command)) => {
                self.pending_keys.clear();
                Some(command)
            },
        }
    }

    /// The content as it is written to a file: every row followed by a
    /// line feed.
    pub open spec fn content(rows: Seq<Seq<char>>) -> Seq<char>
        decreases rows.len(),
    {
        if rows.len() == 0 {
            Seq::empty()
        } else {
            Self::content(rows.drop_last()) + rows.last() + seq!['\n']
        }
    }

    /// The text to save, if anything has changed since the last save;
    /// otherwise nothing, and a message that says so.
    pub fn text_to_save(&mut self) -> (text: Option<String>)
        requires
            old(self).wf(),
        ensures
            old(self).dirty.content ==> *final(self) == *old(self) && message_text(text) == Some(
                Self::content(old(self).buffer@.rows),
            ),
            !old(self).dirty.content ==> text is None && *final(self) == (Editor {
                message: final(self).message,
                dirty: Dirty { content: false, render: true },
                ..*old(self)
            }) && message_text(final(self).message) == Some("No changes to save"@),
    {
        if !self.dirty.content {
            self.set_message(String::from_str("No changes to save"));
            return None;
        }
        let lines = self.buffer.lines();
        let mut text = String::new();
        let mut i: usize = 0;
        while i < lines.len()
            invariant
                i <= lines.len(),
                lines@.len() == self.buffer@.rows.len(),
                forall|r: int| 0 <= r < lines@.len() ==> #[trigger] lines@[r]@ == self.buffer@.rows[r],
                text@ == Self::content(self.buffer@.rows.take(i as int)),
            decreases lines.len() - i,
        {
            let ghost upto = self.buffer@.rows.take(i as int + 1);
            assert(upto.drop_last() =~= self.buffer@.rows.take(i as int));
            assert(upto.last() == lines@[i as int]@);
            text.append(lines[i].as_str());
            text.push('\n');
            assert(text@ =~= Self::content(upto));
            i += 1;
        }
        assert(self.buffer@.rows.take(lines.len() as int) =~= self.buffer@.rows);
        Some(text)
    }

    /// Notes that the content was written to the file named `path`.
    pub fn saved(&mut self, path: &str)
        ensures
            *final(self) == (Editor {
                message: final(self).message,
                dirty: Dirty { content: false, render: true },
                ..*old(self)
            }),
            message_text(final(self).message) == Some("Saved "@ + path@),
    {
        self.dirty.content = false;
        let mut message = String::from_str("Saved ");
        message.append(path);
        self.set_message(message);
    }

    /// Takes `text`, read from the file named `path`, as the content.
    /// The undo history is forgotten.
    pub fn loaded(&mut self, text: String, path: &str)
        requires
            old(self).wf(),
            text@.len() <= max_row_len(),
        ensures
            final(self).wf(),
            final(self).buffer@.rows == split_lines(text@),
            final(self).buffer@.log =~= Seq::<crate::buffer::UndoEntry>::empty(),
            final(self).buffer@.cursor == 0,
            final(self).buffer@.filter == old(self).buffer@.filter,
            final(self).buffer@.replaying == old(self).buffer@.replaying,
            !final(self).dirty.content,
            final(self).dirty.render,
            message_text(final(self).message) == Some("Loaded "@ + path@),
            final(self).exit == old(self).exit,
            final(self).cursor == old(self).cursor,
            final(self).config == old(self).config,
            final(self).pending_keys == old(self).pending_keys,
            final(self).marker == old(self).marker,
            final(self).clipboard == old(self).clipboard,
    {
        self.buffer.set_text(text);
        let mut message = String::from_str("Loaded ");
        message.append(path);
        self.set_message(message);
        self.dirty.content = false;
        self.dirty.render = true;
    }
}

impl Editor {
    /// Where a move command takes the cursor: up or down one row, but
    /// not past the first or the last, or left or right to the next
    /// column boundary.
    pub open spec fn moved(&self, command: CommandView) -> TextPosition {
        let rows = self.buffer@.rows;
        let filter = self.buffer@.filter;
        let last: int = if rows.len() > 0 {
            rows.len() - 1
        } else {
            0
        };
        match command {
            CommandView::PrevLine => TextPosition {
                row: if self.cursor.row > 0 {
                    (self.cursor.row - 1) as usize
                } else {
                    0
                },
                col: self.cursor.col,
            },
            CommandView::NextLine => TextPosition {
                row: if self.cursor.row < last {
                    (self.cursor.row + 1) as usize
                } else {
                    last as usize
                },
                col: self.cursor.col,
            },
            CommandView::PrevChar => TextPosition {
                row: self.cursor.row,
                col: prev_col_of(filter, rows, self.cursor) as usize,
            },
            CommandView::NextChar => TextPosition {
                row: self.cursor.row,
                col: next_col_of(filter, rows, self.cursor) as usize,
            },
            _ => self.cursor,
        }
    }

    /// Whether `self` is `before` with the cursor moved to `cursor`: the
    /// marker has followed it, the clipboard is placed there, and the
    /// screen has to be drawn again.
    pub open spec fn is_move_of(&self, before: Editor, cursor: TextPosition) -> bool {
        &&& self.cursor == cursor
        &&& self.dirty.render
        &&& self.dirty.content == before.dirty.content
        &&& self.exit == before.exit
        &&& self.buffer == before.buffer
        &&& self.message == before.message
        &&& self.config == before.config
        &&& self.pending_keys == before.pending_keys
        &&& match (before.marker, self.marker) {
            (Some(a), Some(b)) => b.wf() && b.follows(a, cursor, &before.buffer),
            (None, None) => true,
            _ => false,
        }
        &&& match (before.clipboard, self.clipboard) {
            (Some(a), Some(b)) => b@ == (ClipboardView { cursor, ..a@ }),
            (None, None) => true,
            _ => false,
        }
    }

    /// Whether `self` is `before` after a cut or a copy. The marker is
    /// used up. If it captured anything, the clipboard holds it, placed
    /// where it was; a cut has also written the canvas character over
    /// the captured cells.
    pub open spec fn is_capture_of(&self, before: Editor, cut: bool) -> bool {
        let canvas = before.config.keybindings@.canvas_char();
        match before.marker {
            None => *self == before,
            Some(m) => if forall|p: TextPosition| capture_at(&before.buffer, canvas, m.positions(), p) is None {
                *self == (Editor { marker: None, ..before })
            } else {
                &&& self.marker is None
                &&& self.clipboard matches Some(cb) && {
                    &&& cb.wf()
                    &&& cb@.cursor == before.cursor
                    &&& cb@.original_cursor == before.cursor
                    &&& is_top_left(&before.buffer, canvas, m.positions(), cb@.anchor)
                    &&& forall|p: TextPosition| cb@.get(p) == capture_at(&before.buffer, canvas, m.positions(), p)
                    &&& forall|i: int| 0 <= i < cb@.pixels.len() ==> cb@.target(#[trigger] cb@.pixels[i].0) is Some
                    &&& self.buffer@ == if cut {
                        before.buffer@.after_update_bulk(blanked(cb@.placed(), canvas))
                    } else {
                        before.buffer@
                    }
                }
                &&& message_text(self.message) == Some("Enter clipboard mode"@)
                &&& self.dirty.render
                &&& self.dirty.content == before.dirty.content
                &&& self.exit == before.exit
                &&& self.cursor == before.cursor
                &&& self.config == before.config
                &&& self.pending_keys == before.pending_keys
            },
        }
    }

    /// Whether `self` is `before` with a new marker and the message that
    /// announces it.
    pub open spec fn is_marking_of(&self, before: Editor, text: Seq<char>) -> bool {
        &&& self.marker is Some
        &&& message_text(self.message) == Some(text)
        &&& self.dirty.render
        &&& self.dirty.content == before.dirty.content
        &&& self.exit == before.exit
        &&& self.cursor == before.cursor
        &&& self.buffer == before.buffer
        &&& self.config == before.config
        &&& self.pending_keys == before.pending_keys
        &&& self.clipboard == before.clipboard
    }

    /// Whether `self` is what `command` makes of `before`.
    pub open spec fn is_result_of(&self, before: Editor, command: CommandView) -> bool {
        match command {
            CommandView::Quit => *self == (Editor { exit: true, ..before }),
            CommandView::Legend | CommandView::Preview | CommandView::Save | CommandView::Scope(_) => *self
                == before,
            CommandView::Background(c) => {
                &&& self.buffer@ == (crate::buffer::BufferView {
                    filter: crate::buffer::FilterView {
                        bg: if before.buffer@.filter.bg is Some {
                            None
                        } else {
                            Some(c)
                        },
                        fg: before.buffer@.filter.fg,
                    },
                    ..before.buffer@
                })
                &&& self.dirty.render
                &&& self.dirty.content == before.dirty.content
                &&& self.exit == before.exit
                &&& self.cursor == before.cursor
                &&& self.message == before.message
                &&& self.config == before.config
                &&& self.pending_keys == before.pending_keys
                &&& self.marker == before.marker
                &&& self.clipboard == before.clipboard
            },
            CommandView::Cancel => {
                &&& self.pending_keys@ =~= Seq::<KeyInput>::empty()
                &&& self.marker is None
                &&& self.clipboard is None
                &&& message_text(self.message) == Some("Canceled"@)
                &&& self.dirty.render
                &&& self.dirty.content == before.dirty.content
                &&& self.exit == before.exit
                &&& self.cursor == before.cursor
                &&& self.buffer == before.buffer
                &&& self.config == before.config
            },
            CommandView::Undo => {
                &&& self.exit == before.exit
                &&& self.cursor == before.cursor
                &&& self.config == before.config
                &&& self.pending_keys == before.pending_keys
                &&& self.marker == before.marker
                &&& self.clipboard == before.clipboard
                &&& self.dirty.content == before.dirty.content
                &&& if before.buffer@.cursor == 0 {
                    self.buffer@ == before.buffer@ && self.message == before.message && self.dirty.render
                        == before.dirty.render
                } else {
                    &&& self.buffer@ == before.buffer@.after_undo()
                    &&& message_text(self.message) == Some(
                        "Undo: "@ + decimal((before.buffer@.cursor - 1) as nat) + " remainings"@,
                    )
                    &&& self.dirty.render
                }
            },
            CommandView::PrevLine | CommandView::NextLine | CommandView::PrevChar | CommandView::NextChar => self.is_move_of(
                before,
                before.moved(command),
            ),
            CommandView::Dot(c) => self.is_dot_of(before, c),
            CommandView::MarkStroke => {
                &&& self.is_marking_of(before, "Stroke marking mode started"@)
                &&& self.marker matches Some(Marker::Stroke(m)) && m.positions() == seq![before.cursor]
            },
            CommandView::MarkLine => {
                &&& self.is_marking_of(before, "Line marking mode started"@)
                &&& self.marker matches Some(Marker::Line(m)) && m.positions() == seq![before.cursor]
            },
            CommandView::MarkRect => {
                &&& self.is_marking_of(before, "Rectangle marking mode started"@)
                &&& self.marker matches Some(Marker::Rect(r)) && r.anchor() == before.cursor && r.bounds()
                    == crate::marker::bounding_box(before.cursor, before.cursor)
            },
            CommandView::MarkFilledRect => {
                &&& self.is_marking_of(before, "Filled rectangle marking mode started"@)
                &&& self.marker matches Some(Marker::FilledRect(r)) && r.anchor() == before.cursor
                    && r.bounds() == crate::marker::bounding_box(before.cursor, before.cursor)
            },
            CommandView::MarkFill => {
                &&& self.is_marking_of(before, "Fill marking mode started"@)
                &&& self.marker matches Some(Marker::Fill(m)) && m.is_fill_of(&before.buffer, before.cursor)
            },
            CommandView::Cut => self.is_capture_of(before, true),
            CommandView::Copy => self.is_capture_of(before, false),
            CommandView::Paste => {
                &&& self.exit == before.exit
                &&& self.cursor == before.cursor
                &&& self.config == before.config
                &&& self.pending_keys == before.pending_keys
                &&& self.marker == before.marker
                &&& self.clipboard == before.clipboard
                &&& self.dirty.render
                &&& self.dirty.content == before.dirty.content
                &&& match before.clipboard {
                    Some(cb) => self.buffer@ == before.buffer@.after_update_bulk(cb@.placed()) && message_text(
                        self.message,
                    ) == Some("Pasted"@),
                    None => self.buffer == before.buffer && message_text(self.message) == Some(
                        "No clipboard content"@,
                    ),
                }
            },
        }
    }

    /// What `command` leaves for the caller to do.
    pub open spec fn action_of(command: CommandView) -> Action {
        match command {
            CommandView::Save => Action::Save,
            CommandView::Legend => Action::ToggleLegend,
            CommandView::Preview => Action::TogglePreview,
            _ => Action::Done,
        }
    }

    /// Lets the marker and the clipboard follow the cursor.
    fn follow_cursor(&mut self)
        requires
            old(self).wf(),
        ensures
            final(self).wf(),
            final(self).is_move_of(*old(self), old(self).cursor),
    {
        self.dirty.render = true;
        match self.marker.take() {
            Some(mut marker) => {
                marker.handle_cursor_move(self.cursor, &self.buffer);
                self.marker = Some(marker);
            },
            None => {},
        }
        match self.clipboard.take() {
            Some(mut clipboard) => {
                clipboard.cursor = self.cursor;
                self.clipboard = Some(clipboard);
            },
            None => {},
        }
    }

    /// Starts a selection with `marker`, and says so.
    fn start_marking(&mut self, marker: Marker, text: &str)
        requires
            old(self).wf(),
            marker.wf(),
        ensures
            final(self).wf(),
            final(self).is_marking_of(*old(self), text@),
            final(self).marker == Some(marker),
    {
        self.marker = Some(marker);
        self.set_message(String::from_str(text));
        self.dirty.render = true;
    }

    /// Lifts what the marker covers into the clipboard; a cut also
    /// clears it from the buffer.
    fn capture(&mut self, cut: bool)
        requires
            old(self).wf(),
        ensures
            final(self).wf(),
            final(self).is_capture_of(*old(self), cut),
    {
        let marker = match self.marker.take() {
            Some(marker) => marker,
            None => {
                return;
            },
        };
        let canvas = self.config.keybindings.canvas_char();
        match Clipboard::copy_marked_pixels(&self.buffer, marker, self.cursor, canvas) {
            None => {},
            Some(clipboard) => {
                if cut {
                    let cells = clipboard.pixels();
                    self.buffer.update_bulk(blank(&cells, canvas));
                }
                self.clipboard = Some(clipboard);
                self.set_message(String::from_str("Enter clipboard mode"));
            },
        }
    }

    /// Carries out `command`, and says what is left for the caller to
    /// do: to save, or to show or hide a part of the screen.
    ///
    /// A scope command changes nothing: it leads from one group of
    /// bindings to another, and resolving chords never hands one out.
    pub fn handle_command(&mut self, command: &EditorCommand) -> (action: Action)
        requires
            old(self).wf(),
        ensures
            final(self).wf(),
            final(self).is_result_of(*old(self), command@),
            action == Self::action_of(command@),
    {
        match command {
            EditorCommand::Quit => {
                self.exit = true;
                Action::Done
            },
            EditorCommand::Legend => Action::ToggleLegend,
            EditorCommand::Preview => Action::TogglePreview,
            EditorCommand::Save => Action::Save,
            EditorCommand::Scope(_) => Action::Done,
            EditorCommand::Background(c) => {
                if self.buffer.filter.bg_char.is_some() {
                    self.buffer.filter.bg_char = None;
                } else {
                    self.buffer.filter.bg_char = Some(*c);
                }
                self.dirty.render = true;
                Action::Done
            },
            EditorCommand::Cancel => {
                self.pending_keys.clear();
                self.marker = None;
                self.clipboard = None;
                self.set_message(String::from_str("Canceled"));
                Action::Done
            },
            EditorCommand::Undo => {
                match self.buffer.undo() {
                    Some(left) => {
                        let mut message = String::from_str("Undo: ");
                        push_number(&mut message, left);
                        message.append(" remainings");
                        self.set_message(message);
                    },
                    None => {},
                }
                Action::Done
            },
            EditorCommand::PrevLine => {
                if self.cursor.row > 0 {
                    self.cursor.row = self.cursor.row - 1;
                }
                self.follow_cursor();
                Action::Done
            },
            EditorCommand::NextLine => {
                let rows = self.buffer.rows();
                let last = if rows > 0 {
                    rows - 1
                } else {
                    0
                };
                if self.cursor.row < last {
                    self.cursor.row = self.cursor.row + 1;
                } else {
                    self.cursor.row = last;
                }
                self.follow_cursor();
                Action::Done
            },
            EditorCommand::PrevChar => {
                self.cursor.col = self.buffer.prev_col(self.cursor);
                self.follow_cursor();
                Action::Done
            },
            EditorCommand::NextChar => {
                self.cursor.col = self.buffer.next_col(self.cursor);
                self.follow_cursor();
                Action::Done
            },
            EditorCommand::Dot(c) => {
                self.dot(*c);
                Action::Done
            },
            EditorCommand::MarkStroke => {
                self.start_marking(Marker::new_stroke(self.cursor), "Stroke marking mode started");
                Action::Done
            },
            EditorCommand::MarkLine => {
                self.start_marking(Marker::new_line(self.cursor), "Line marking mode started");
                Action::Done
            },
            EditorCommand::MarkRect => {
                self.start_marking(Marker::new_rect(self.cursor), "Rectangle marking mode started");
                Action::Done
            },
            EditorCommand::MarkFilledRect => {
                self.start_marking(
                    Marker::new_filled_rect(self.cursor),
                    "Filled rectangle marking mode started",
                );
                Action::Done
            },
            EditorCommand::MarkFill => {
                let marker = Marker::new_fill(self.cursor, &self.buffer);
                self.start_marking(marker, "Fill marking mode started");
                Action::Done
            },
            EditorCommand::Cut => {
                self.capture(true);
                Action::Done
            },
            EditorCommand::Copy => {
                self.capture(false);
                Action::Done
            },
            EditorCommand::Paste => {
                let cells = match &self.clipboard {
                    Some(clipboard) => Some(clipboard.pixels()),
                    None => None,
                };
                match cells {
                    Some(cells) => {
                        self.buffer.update_bulk(cells);
                        self.set_message(String::from_str("Pasted"));
                    },
                    None => {
                        self.set_message(String::from_str("No clipboard content"));
                    },
                }
                Action::Done
            },
        }
    }
}

} // verus!
