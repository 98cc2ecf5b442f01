//! What the parts of the screen need to know before they are drawn:
//! their sizes, the scrolling of the text, and the colours of the
//! preview.

use vstd::prelude::*;
use vstd::string::StringExecFns;
use crate::buffer::{char_at, TextBuffer, TextPosition};
use crate::config::{color_of, Color, FrameSize, Palette};
use crate::editor::{message_text, Dirty, Editor};
use crate::offers::offers_view;

verus! {

/// The list of the commands on offer, in the top right corner.
#[derive(Debug)]
pub struct Legend {
    pub hide: bool,
}

/// The small picture of the content, in the bottom right corner.
#[derive(Debug, Default)]
pub struct Preview {
    pub hide: bool,
}

/// The part of the content that is on screen.
#[derive(Debug)]
pub struct TextView {
    pub(crate) scroll_offset: TextPosition,
}

/// Columns of the legend when it is hidden.
pub const LEGEND_HIDE_COLS: usize = 4;

/// Columns of the legend when it is shown.
pub const LEGEND_SHOW_COLS: usize = 20;

/// `n + 1`, or `n` where that is no `usize`.
pub fn one_more(n: usize) -> (m: usize)
    ensures
        m == if n < usize::MAX { n + 1 } else { n as int },
{
    if n < usize::MAX {
        n + 1
    } else {
        n
    }
}

/// Whether `after` is `before` with `text` as its message and the
/// screen to be drawn again.
pub open spec fn announces(after: Editor, before: Editor, text: Seq<char>) -> bool {
    &&& message_text(after.message) == Some(text)
    &&& after.dirty.render
    &&& after.dirty.content == before.dirty.content
    &&& after.exit == before.exit
    &&& after.cursor == before.cursor
    &&& after.buffer == before.buffer
    &&& after.config == before.config
    &&& after.pending_keys == before.pending_keys
    &&& after.marker == before.marker
    &&& after.clipboard == before.clipboard
}

impl Legend {
    /// A legend that is shown.
    pub fn new() -> (l: Self)
        ensures
            !l.hide,
    {
        Legend { hide: false }
    }

    /// Rows and columns of the legend: when hidden, one row of four
    /// columns; else twenty columns, and a row for every command on
    /// offer and one for its lower edge.
    pub fn size(&self, editor: &Editor) -> (size: (usize, usize))
        ensures
            self.hide ==> size == (1usize, LEGEND_HIDE_COLS),
            !self.hide ==> size.1 == LEGEND_SHOW_COLS && ({
                let group = if editor.clipboard is Some {
                    editor.config.keybindings@.clipboard
                } else {
                    editor.config.keybindings@.main
                };
                let offers = editor.config.keybindings@.possible_commands(group, editor.pending_keys@).len();
                size.0 == if offers < usize::MAX { offers + 1 } else { offers }
            }),
    {
        if self.hide {
            (1, LEGEND_HIDE_COLS)
        } else {
            let offers = if editor.clipboard.is_some() {
                editor.config.keybindings.possible_commands(
                    &editor.config.keybindings.clipboard,
                    &editor.pending_keys,
                )
            } else {
                editor.config.keybindings.possible_commands(&editor.config.keybindings.main, &editor.pending_keys)
            };
            assert(offers_view(offers@).len() == offers@.len());
            (one_more(offers.len()), LEGEND_SHOW_COLS)
        }
    }

    /// Hides the legend if it is shown, and shows it if it is hidden.
    pub fn toggle_hide(&mut self, editor: &mut Editor)
        ensures
            final(self).hide == !old(self).hide,
            announces(
                *final(editor),
                *old(editor),
                if final(self).hide { "Hide Legend"@ } else { "Show Legend"@ },
            ),
    {
        self.hide = !self.hide;
        if self.hide {
            editor.set_message(String::from_str("Hide Legend"));
        } else {
            editor.set_message(String::from_str("Show Legend"));
        }
        editor.dirty.render = true;
    }
}

/// What the preview shows where the content has no colour: white.
pub open spec fn blank_color() -> Color {
    Color { r: 255, g: 255, b: 255, a: 255 }
}

/// The colour of the preview at `pos`: the colour of the foreground
/// character there, white where there is none. Nothing if the palette
/// has no colour for that character.
pub open spec fn preview_color(buffer: &TextBuffer, palette: Seq<(char, Color)>, pos: TextPosition) -> Option<
    Color,
> {
    match char_at(buffer@.filter, buffer@.rows, pos) {
        Some(c) => color_of(palette, c, 0),
        None => Some(blank_color()),
    }
}

impl Preview {
    /// Hides the preview if it is shown, and shows it if it is hidden.
    pub fn toggle_hide(&mut self, editor: &mut Editor)
        ensures
            final(self).hide == !old(self).hide,
            announces(
                *final(editor),
                *old(editor),
                if final(self).hide { "Hide Preview"@ } else { "Show Preview"@ },
            ),
    {
        self.hide = !self.hide;
        if self.hide {
            editor.set_message(String::from_str("Hide Preview"));
        } else {
            editor.set_message(String::from_str("Show Preview"));
        }
        editor.dirty.render = true;
    }

    /// Rows and columns of the preview: when hidden, one row of four
    /// columns; else a row for every two rows of pixels and a column for
    /// every column of them, and one more of each for the frame.
    pub fn size(&self, editor: &Editor) -> (size: (usize, usize))
        requires
            editor.config.preview.width < usize::MAX,
        ensures
            size == if self.hide {
                (1usize, 4usize)
            } else {
                ((editor.config.preview.height / 2 + 1) as usize, (editor.config.preview.width + 1) as usize)
            },
    {
        if self.hide {
            (1, 4)
        } else {
            (editor.config.preview.height / 2 + 1, editor.config.preview.width + 1)
        }
    }

    /// The colour of the preview at row `row`, column `col`.
    pub fn get_pixel_color(&self, editor: &Editor, row: usize, col: usize) -> (color: Option<Color>)
        requires
            editor.wf(),
        ensures
            color == preview_color(
                &editor.buffer,
                editor.config.palette.colors@,
                TextPosition { row, col },
            ),
    {
        match editor.buffer.get_char_at(TextPosition { row, col }) {
            Some(c) => editor.config.palette.get(c),
            None => Some(Color::rgb(255, 255, 255)),
        }
    }
}

/// Where the view scrolls to along one axis so that the cursor is on
/// screen: not at all if it is, else just as far as it takes.
pub open spec fn scrolled(offset: int, cursor: int, size: int) -> int {
    if cursor < offset {
        cursor
    } else if cursor >= offset + size {
        if size > 0 {
            cursor - (size - 1)
        } else {
            cursor
        }
    } else {
        offset
    }
}

/// Where the view scrolls to along one axis.
fn scroll_to(offset: usize, cursor: usize, size: usize) -> (r: usize)
    ensures
        r == scrolled(offset as int, cursor as int, size as int),
{
    if cursor < offset {
        cursor
    } else if cursor - offset >= size {
        let reach = if size > 0 {
            size - 1
        } else {
            0
        };
        if cursor >= reach {
            cursor - reach
        } else {
            0
        }
    } else {
        offset
    }
}

impl TextView {
    /// A view of the top left corner of the content.
    pub fn new() -> (v: Self)
        ensures
            v.offset() == (TextPosition { row: 0, col: 0 }),
    {
        TextView { scroll_offset: TextPosition { row: 0, col: 0 } }
    }

    /// The position of the content that is in the top left corner of
    /// the view.
    pub open(crate) spec fn offset(&self) -> TextPosition {
        self.scroll_offset
    }

    /// The position of the content that is in the top left corner of
    /// the view.
    pub fn scroll_offset(&self) -> (p: TextPosition)
        ensures
            p == self.offset(),
    {
        self.scroll_offset
    }

    /// Scrolls so that the cursor of `editor` is on a screen of `rows`
    /// rows and `cols` columns.
    pub fn adjust_scroll_offset_for_cursor(&mut self, editor: &Editor, rows: usize, cols: usize)
        ensures
            final(self).offset().row == scrolled(
                old(self).offset().row as int,
                editor.cursor.row as int,
                rows as int,
            ),
            final(self).offset().col == scrolled(
                old(self).offset().col as int,
                editor.cursor.col as int,
                cols as int,
            ),
    {
        self.scroll_offset.row = scroll_to(self.scroll_offset.row, editor.cursor.row, rows);
        self.scroll_offset.col = scroll_to(self.scroll_offset.col, editor.cursor.col, cols);
    }

    /// Where on screen the cursor of `editor` is, as row and column: its
    /// position taken from the corner of the view, or the edge of the
    /// screen where the cursor lies before that corner.
    pub fn cursor_terminal_position(&self, editor: &Editor) -> (p: (usize, usize))
        ensures
            p.0 == if editor.cursor.row >= self.offset().row {
                editor.cursor.row - self.offset().row
            } else {
                0
            },
            p.1 == if editor.cursor.col >= self.offset().col {
                editor.cursor.col - self.offset().col
            } else {
                0
            },
    {
        let cursor = editor.cursor;
        (
            if cursor.row >= self.scroll_offset.row {
                cursor.row - self.scroll_offset.row
            } else {
                0
            },
            if cursor.col >= self.scroll_offset.col {
                cursor.col - self.scroll_offset.col
            } else {
                0
            },
        )
    }
}

/// The pixels of a picture of `size`, row by row, four bytes each: red,
/// green, blue, and full opacity. The picture shows the content from
/// `offset` on. A cell without a foreground character is black.
pub open spec fn picture(
    buffer: &TextBuffer,
    palette: Seq<(char, Color)>,
    width: int,
    offset: TextPosition,
    n: int,
) -> Option<Seq<u8>>
    decreases n,
{
    if n <= 0 || width <= 0 {
        Some(Seq::empty())
    } else {
        match (picture(buffer, palette, width, offset, n - 1), pixel(buffer, palette, width, offset, n - 1)) {
            (Some(done), Some(c)) => Some(done + seq![c.r, c.g, c.b, 255u8]),
            _ => None,
        }
    }
}

/// The colour of pixel `k` of the picture, counted row by row. Nothing
/// if the palette has no colour for the character there.
pub open spec fn pixel(buffer: &TextBuffer, palette: Seq<(char, Color)>, width: int, offset: TextPosition, k: int) -> Option<
    Color,
> {
    let row = k / width + offset.row;
    let col = k % width + offset.col;
    if row <= usize::MAX && col <= usize::MAX {
        match char_at(buffer@.filter, buffer@.rows, TextPosition { row: row as usize, col: col as usize }) {
            Some(c) => color_of(palette, c, 0),
            None => Some(Color { r: 0, g: 0, b: 0, a: 255 }),
        }
    } else {
        Some(Color { r: 0, g: 0, b: 0, a: 255 })
    }
}

/// The pixels of a picture of `size` that shows the content of `buffer`
/// from `offset` on, in the colours of `palette`. Nothing if the
/// palette has no colour for a character that the picture shows.
pub fn picture_pixels(buffer: &TextBuffer, palette: &Palette, size: FrameSize, offset: TextPosition) -> (pixels:
    Option<Vec<u8>>)
    requires
        buffer.wf(),
        size.width * size.height <= usize::MAX,
    ensures
        match pixels {
            Some(p) => picture(buffer, palette.colors@, size.width as int, offset, size.width * size.height)
                == Some(p@),
            None => picture(buffer, palette.colors@, size.width as int, offset, size.width * size.height)
                is None,
        },
{
    let mut out: Vec<u8> = Vec::new();
    if size.width == 0 {
        assert(size.width * size.height == 0) by (nonlinear_arith)
            requires
                size.width == 0,
        ;
        return Some(out);
    }
    let ghost colors = palette.colors@;
    let ghost width = size.width as int;
    let mut row: usize = 0;
    while row < size.height
        invariant
            row <= size.height,
            buffer.wf(),
            width == size.width,
            width > 0,
            colors == palette.colors@,
            size.width * size.height <= usize::MAX,
            picture(buffer, colors, width, offset, row * width) == Some(out@),
        decreases size.height - row,
    {
        let mut col: usize = 0;
        while col < size.width
            invariant
                row < size.height,
                col <= size.width,
                buffer.wf(),
                width == size.width,
                width > 0,
                colors == palette.colors@,
                size.width * size.height <= usize::MAX,
                picture(buffer, colors, width, offset, row * width + col) == Some(out@),
            decreases size.width - col,
        {
            let ghost k = row * width + col;
            proof {
                assert(k / width == row && k % width == col) by (nonlinear_arith)
                    requires
                        k == row * width + col,
                        0 <= col < width,
                        0 <= row,
                ;
                assert(k < size.width * size.height) by (nonlinear_arith)
                    requires
                        k == row * width + col,
                        0 <= col < width,
                        0 <= row < size.height,
                        width == size.width,
                ;
            }
            let black = Color { r: 0, g: 0, b: 0, a: 255 };
            let color = match (row.checked_add(offset.row), col.checked_add(offset.col)) {
                (Some(r), Some(c)) => match buffer.get_char_at(TextPosition { row: r, col: c }) {
                    Some(ch) => palette.get(ch),
                    None => Some(black),
                },
                _ => Some(black),
            };
            assert(color == pixel(buffer, colors, width, offset, k));
            match color {
                Some(c) => {
                    out.push(c.r);
                    out.push(c.g);
                    out.push(c.b);
                    out.push(255);
                    assert(out@ =~= picture(buffer, colors, width, offset, k)->0 + seq![c.r, c.g, c.b, 255u8]);
                },
                None => {
                    proof {
                        lemma_picture_lost(buffer, colors, width, offset, k + 1, size.width * size.height);
                    }
                    return None;
                },
            }
            col += 1;
        }
        assert((row + 1) * width == row * width + width) by (nonlinear_arith);
        row += 1;
    }
    assert(size.height * width == size.width * size.height) by (nonlinear_arith)
        requires
            width == size.width,
    ;
    Some(out)
}

/// Once a pixel has no colour, the picture has none.
proof fn lemma_picture_lost(
    buffer: &TextBuffer,
    palette: Seq<(char, Color)>,
    width: int,
    offset: TextPosition,
    n: int,
    m: int,
)
    requires
        0 <= n <= m,
        width > 0,
        picture(buffer, palette, width, offset, n) is None,
    ensures
        picture(buffer, palette, width, offset, m) is None,
    decreases m - n,
{
    if n < m {
        lemma_picture_lost(buffer, palette, width, offset, n, m - 1);
    }
}

} // verus!
