//! The text buffer: rows of characters addressed by display column, a
//! foreground filter that decides which cells can be edited, and an undo log.

use vstd::prelude::*;
use crate::width::{display_width, width_of, MAX_CHAR_WIDTH};
use crate::text::string_of;

verus! {

/// A cell address: a row and a display column within it.
#[derive(Debug, Clone, Copy, PartialEq, Eq, PartialOrd, Ord, Hash, Structural)]
pub struct TextPosition {
    pub row: usize,
    pub col: usize,
}

impl Default for TextPosition {
    fn default() -> (p: Self)
        ensures
            p == (TextPosition { row: 0, col: 0 }),
    {
        TextPosition { row: 0, col: 0 }
    }
}

impl TextPosition {
    /// Reading order: by row, then by column.
    pub open spec fn before(self, other: TextPosition) -> bool {
        self.row < other.row || (self.row == other.row && self.col < other.col)
    }

    /// Whether `self` comes before `other` in reading order.
    pub fn precedes(&self, other: &TextPosition) -> (b: bool)
        ensures
            b == self.before(*other),
    {
        self.row < other.row || (self.row == other.row && self.col < other.col)
    }
}

/// Reading order is a strict total order of the positions.
pub proof fn lemma_reading_order(a: TextPosition, b: TextPosition, c: TextPosition)
    ensures
        !a.before(a),
        a.before(b) && b.before(c) ==> a.before(c),
        a == b || a.before(b) || b.before(a),
{
}

/// Positions in reading order, none of them twice.
pub open spec fn in_reading_order(s: Seq<TextPosition>) -> bool {
    forall|i: int, j: int| 0 <= i < j < s.len() ==> s[i].before(s[j])
}

/// Decides which characters are content and how the others are shown.
#[derive(Debug, Clone)]
pub struct TextBufferFilter {
    /// Shown in place of every character that is not foreground.
    pub bg_char: Option<char>,
    /// The characters that count as editable content. Only membership
    /// matters; a character listed twice is the same as listed once.
    pub fg_chars: Vec<char>,
}

/// What a filter means: the background sentinel and the foreground set.
pub struct FilterView {
    pub bg: Option<char>,
    pub fg: Set<char>,
}

impl FilterView {
    /// The character that stands on screen for `c`.
    pub open spec fn shown(self, c: char) -> char {
        if self.fg.contains(c) {
            c
        } else {
            match self.bg {
                Some(b) => b,
                None => c,
            }
        }
    }

    /// Display columns that a cell holding `c` occupies.
    pub open spec fn width(self, c: char) -> nat {
        display_width(self.shown(c))
    }
}

impl View for TextBufferFilter {
    type V = FilterView;

    open spec fn view(&self) -> FilterView {
        FilterView { bg: self.bg_char, fg: Set::new(|c: char| self.fg_chars@.contains(c)) }
    }
}

impl Default for TextBufferFilter {
    fn default() -> (f: Self)
        ensures
            f@.bg is None,
            f@.fg =~= Set::<char>::empty(),
    {
        TextBufferFilter { bg_char: None, fg_chars: Vec::new() }
    }
}

impl TextBufferFilter {
    /// Whether `c` is a foreground character.
    pub fn is_foreground(&self, c: char) -> (b: bool)
        ensures
            b == self@.fg.contains(c),
    {
        let mut i: usize = 0;
        while i < self.fg_chars.len()
            invariant
                i <= self.fg_chars.len(),
                forall|j: int| 0 <= j < i ==> self.fg_chars@[j] != c,
            decreases self.fg_chars.len() - i,
        {
            if self.fg_chars[i] == c {
                return true;
            }
            i += 1;
        }
        false
    }

    /// The character shown for `c`: itself when foreground, otherwise the
    /// background sentinel if one is set.
    pub fn apply(&self, c: char) -> (r: char)
        ensures
            r == self@.shown(c),
    {
        if self.is_foreground(c) {
            c
        } else {
            match self.bg_char {
                Some(b) => b,
                None => c,
            }
        }
    }

    /// Display columns of a cell holding `c`.
    pub fn cell_width(&self, c: char) -> (w: usize)
        ensures
            w as nat == self@.width(c),
            w <= MAX_CHAR_WIDTH,
    {
        width_of(self.apply(c))
    }
}

/// Display columns taken by the first `n` cells of `row`.
pub open spec fn cols_before(f: FilterView, row: Seq<char>, n: int) -> nat
    decreases n,
{
    if n <= 0 {
        0
    } else {
        cols_before(f, row, n - 1) + f.width(row[n - 1])
    }
}

/// The first cell at or after index `i` that starts at column `col` or
/// later; the row's length when there is none.
pub open spec fn first_reaching(f: FilterView, row: Seq<char>, col: nat, i: int) -> int
    decreases row.len() - i,
{
    if i >= row.len() {
        row.len() as int
    } else if cols_before(f, row, i) >= col {
        i
    } else {
        first_reaching(f, row, col, i + 1)
    }
}

/// The first cell boundary at or after index `i` that lies beyond
/// column `col`; the row's length when there is none.
pub open spec fn first_passing(f: FilterView, row: Seq<char>, col: nat, i: int) -> int
    decreases row.len() - i,
{
    if i >= row.len() {
        row.len() as int
    } else if cols_before(f, row, i) > col {
        i
    } else {
        first_passing(f, row, col, i + 1)
    }
}

/// Index of the cell that starts exactly at column `col`, if there is one.
/// A column inside a wide glyph, or past the end of the row, has none.
pub open spec fn cell_index(f: FilterView, row: Seq<char>, col: nat) -> Option<int> {
    let i = first_reaching(f, row, col, 0);
    if i < row.len() && cols_before(f, row, i) == col {
        Some(i)
    } else {
        None
    }
}

/// The foreground character at `pos`, if `pos` addresses one.
pub open spec fn char_at(f: FilterView, rows: Seq<Seq<char>>, pos: TextPosition) -> Option<char> {
    if pos.row < rows.len() {
        match cell_index(f, rows[pos.row as int], pos.col as nat) {
            Some(i) => if f.fg.contains(rows[pos.row as int][i]) {
                Some(rows[pos.row as int][i])
            } else {
                None
            },
            None => None,
        }
    } else {
        None
    }
}

/// Total display columns of row `row`; zero for a row that does not exist.
pub open spec fn row_cols(f: FilterView, rows: Seq<Seq<char>>, row: int) -> nat {
    if 0 <= row < rows.len() {
        cols_before(f, rows[row], rows[row].len() as int)
    } else {
        0
    }
}

/// The column boundary just before `pos.col`.
pub open spec fn prev_col_of(f: FilterView, rows: Seq<Seq<char>>, pos: TextPosition) -> nat {
    if pos.row >= rows.len() || pos.col == 0 {
        0
    } else {
        let i = first_reaching(f, rows[pos.row as int], pos.col as nat, 0);
        if i == 0 {
            0
        } else {
            cols_before(f, rows[pos.row as int], i - 1)
        }
    }
}

/// The column boundary just after `pos.col`, or the row's width when
/// there is none.
pub open spec fn next_col_of(f: FilterView, rows: Seq<Seq<char>>, pos: TextPosition) -> nat {
    if pos.row >= rows.len() {
        pos.col as nat
    } else {
        let row = rows[pos.row as int];
        cols_before(f, row, first_passing(f, row, pos.col as nat, 0))
    }
}

/// No prefix of a row is wider than three columns per cell.
pub proof fn lemma_cols_before_bound(f: FilterView, row: Seq<char>, n: int)
    requires
        0 <= n,
    ensures
        cols_before(f, row, n) <= MAX_CHAR_WIDTH * n,
    decreases n,
{
    if n > 0 {
        lemma_cols_before_bound(f, row, n - 1);
        crate::width::lemma_display_width_bound(f.shown(row[n - 1]));
    }
}

/// Columns only grow along a row.
pub proof fn lemma_cols_before_monotone(f: FilterView, row: Seq<char>, m: int, n: int)
    requires
        0 <= m <= n,
    ensures
        cols_before(f, row, m) <= cols_before(f, row, n),
    decreases n - m,
{
    if m < n {
        lemma_cols_before_monotone(f, row, m, n - 1);
    }
}

/// The character of the cell that starts exactly at `pos`, foreground or
/// not.
pub open spec fn cell_char(f: FilterView, rows: Seq<Seq<char>>, pos: TextPosition) -> Option<char> {
    if pos.row < rows.len() {
        match cell_index(f, rows[pos.row as int], pos.col as nat) {
            Some(i) => Some(rows[pos.row as int][i]),
            None => None,
        }
    } else {
        None
    }
}

/// Whether writing `new` at `pos` changes the grid. The position must
/// address a cell that holds another character than `new`. A gated
/// write, which is what an edit makes, also needs that character to be
/// foreground; an undo puts characters back without that test.
pub open spec fn applies(
    f: FilterView,
    rows: Seq<Seq<char>>,
    pos: TextPosition,
    new: char,
    gated: bool,
) -> bool {
    cell_char(f, rows, pos) matches Some(c) && c != new && (gated ==> f.fg.contains(c))
}

/// The grid after writing `new` at `pos`; unchanged when the write does
/// not apply.
pub open spec fn put(f: FilterView, rows: Seq<Seq<char>>, pos: TextPosition, new: char, gated: bool) -> Seq<
    Seq<char>,
> {
    if applies(f, rows, pos, new, gated) {
        let row = rows[pos.row as int];
        rows.update(pos.row as int, row.update(cell_index(f, row, pos.col as nat).unwrap(), new))
    } else {
        rows
    }
}

/// The grid after the writes of `ups`, made one after another.
pub open spec fn rows_after(
    f: FilterView,
    rows: Seq<Seq<char>>,
    ups: Seq<(TextPosition, char)>,
    gated: bool,
) -> Seq<Seq<char>>
    decreases ups.len(),
{
    if ups.len() == 0 {
        rows
    } else {
        put(f, rows_after(f, rows, ups.drop_last(), gated), ups.last().0, ups.last().1, gated)
    }
}

/// The cells that the writes of `ups` replace, in the order of the
/// writes, each with the character that stood there just before.
pub open spec fn replaced_by(
    f: FilterView,
    rows: Seq<Seq<char>>,
    ups: Seq<(TextPosition, char)>,
    gated: bool,
) -> UndoEntry
    decreases ups.len(),
{
    if ups.len() == 0 {
        Seq::empty()
    } else {
        let before = rows_after(f, rows, ups.drop_last(), gated);
        let earlier = replaced_by(f, rows, ups.drop_last(), gated);
        if applies(f, before, ups.last().0, ups.last().1, gated) {
            earlier.push((ups.last().0, cell_char(f, before, ups.last().0).unwrap()))
        } else {
            earlier
        }
    }
}

impl BufferView {
    /// The buffer after one bulk write. An edit that replaces at least
    /// one cell is appended to the log as a single entry, and everything
    /// in the log can then be undone. While an undo replays, the writes
    /// are not gated by the foreground filter and nothing is logged.
    pub open spec fn after_update_bulk(self, ups: Seq<(TextPosition, char)>) -> BufferView {
        let rows = rows_after(self.filter, self.rows, ups, !self.replaying);
        let entry = replaced_by(self.filter, self.rows, ups, !self.replaying);
        if entry.len() > 0 && !self.replaying {
            BufferView { rows, log: self.log.push(entry), cursor: self.log.len() + 1, ..self }
        } else {
            BufferView { rows, ..self }
        }
    }

    /// The buffer after one undo, when there is something to undo: the
    /// characters of the entry below the cursor are put back, the latest
    /// first, and the cursor steps down.
    pub open spec fn after_undo(self) -> BufferView {
        BufferView {
            rows: rows_after(self.filter, self.rows, self.log[self.cursor - 1].reverse(), false),
            cursor: (self.cursor - 1) as nat,
            replaying: false,
            ..self
        }
    }
}

/// Removes one carriage return from the end of a line, if it ends in one.
pub open spec fn strip_cr(line: Seq<char>) -> Seq<char> {
    if line.len() > 0 && line.last() == '\r' {
        line.drop_last()
    } else {
        line
    }
}

/// The lines completed within the first `n` characters of `text`, and the
/// characters of the line still open after them. A line feed ends a line;
/// a carriage return just before it belongs to the line ending.
pub open spec fn scan_lines(text: Seq<char>, n: int) -> (Seq<Seq<char>>, Seq<char>)
    decreases n,
{
    if n <= 0 {
        (Seq::empty(), Seq::empty())
    } else {
        let (done, open) = scan_lines(text, n - 1);
        if text[n - 1] == '\n' {
            (done.push(strip_cr(open)), Seq::empty())
        } else {
            (done, open.push(text[n - 1]))
        }
    }
}

/// The lines of `text`. The last line need not end in a line feed; an
/// empty text has no lines.
pub open spec fn split_lines(text: Seq<char>) -> Seq<Seq<char>> {
    let (done, open) = scan_lines(text, text.len() as int);
    if open.len() > 0 {
        done.push(open)
    } else {
        done
    }
}

/// No line is longer than the text it was cut from.
pub proof fn lemma_scan_lines_len(text: Seq<char>, n: int)
    requires
        0 <= n <= text.len(),
    ensures
        scan_lines(text, n).1.len() <= n,
        forall|i: int| 0 <= i < scan_lines(text, n).0.len() ==> #[trigger] scan_lines(text, n).0[i].len() <= n,
    decreases n,
{
    if n > 0 {
        lemma_scan_lines_len(text, n - 1);
    }
}

/// The longest row a buffer holds. With at most three columns per cell,
/// every column of such a row, and the one after its end, is a `usize`.
pub open spec fn max_row_len() -> nat {
    (usize::MAX / 4) as nat
}

/// One undoable edit: the cells it replaced, each with the character
/// that stood there before.
pub type UndoEntry = Seq<(TextPosition, char)>;

/// What a buffer holds.
pub struct BufferView {
    /// The filter that decides which cells are content.
    pub filter: FilterView,
    /// The rows of characters.
    pub rows: Seq<Seq<char>>,
    /// Every edit recorded so far, oldest first.
    pub log: Seq<UndoEntry>,
    /// How many entries of the log can still be undone.
    pub cursor: nat,
    /// Set while an undo replays an entry; edits made then are not logged.
    pub replaying: bool,
}

/// A grid of characters with an undo log.
#[derive(Debug)]
pub struct TextBuffer {
    pub(crate) lines: Vec<Vec<char>>,
    pub(crate) undo_stack: Vec<Vec<(TextPosition, char)>>,
    pub(crate) undo_index: usize,
    pub(crate) undoing: bool,
    pub filter: TextBufferFilter,
}

/// The rows of a grid as plain sequences.
pub open spec fn rows_of(lines: Seq<Vec<char>>) -> Seq<Seq<char>> {
    Seq::new(lines.len(), |i: int| lines[i]@)
}

/// The entries of an undo stack as plain sequences.
pub open spec fn log_of(stack: Seq<Vec<(TextPosition, char)>>) -> Seq<UndoEntry> {
    Seq::new(stack.len(), |i: int| stack[i]@)
}

impl View for TextBuffer {
    type V = BufferView;

    open(crate) spec fn view(&self) -> BufferView {
        BufferView {
            filter: self.filter@,
            rows: rows_of(self.lines@),
            log: log_of(self.undo_stack@),
            cursor: self.undo_index as nat,
            replaying: self.undoing,
        }
    }
}

impl TextBuffer {
    /// Every row is short enough to be measured, and the undo cursor
    /// lies within the log.
    pub open(crate) spec fn wf(&self) -> bool {
        &&& forall|r: int| 0 <= r < self.lines@.len() ==> #[trigger] self.lines@[r]@.len() <= max_row_len()
        &&& self.undo_index <= self.undo_stack@.len()
    }

    /// An empty buffer with an empty filter and nothing to undo.
    pub fn new() -> (b: Self)
        ensures
            b.wf(),
            b@.rows =~= Seq::<Seq<char>>::empty(),
            b@.log =~= Seq::<UndoEntry>::empty(),
            b@.cursor == 0,
            !b@.replaying,
            b@.filter.bg is None,
            b@.filter.fg =~= Set::<char>::empty(),
    {
        TextBuffer {
            lines: Vec::new(),
            undo_stack: Vec::new(),
            undo_index: 0,
            undoing: false,
            filter: TextBufferFilter::default(),
        }
    }

    /// Number of rows.
    pub fn rows(&self) -> (n: usize)
        ensures
            n == self@.rows.len(),
    {
        self.lines.len()
    }

    /// Index within row `row` of the first cell that starts at column
    /// `col` or later, with the column at which that cell starts.
    #[verifier::loop_isolation(false)]
    fn seek(&self, row: usize, col: usize) -> (r: (usize, usize))
        requires
            self.wf(),
            row < self@.rows.len(),
        ensures
            r.0 as int == first_reaching(self@.filter, self@.rows[row as int], col as nat, 0),
            r.1 as nat == cols_before(self@.filter, self@.rows[row as int], r.0 as int),
    {
        let line = &self.lines[row];
        let ghost f = self.filter@;
        let ghost cells = self@.rows[row as int];
        assert(cells == line@);
        let mut i: usize = 0;
        let mut current: usize = 0;
        while i < line.len()
            invariant
                i <= line.len(),
                line@ == cells,
                f == self.filter@,
                cells.len() <= max_row_len(),
                current as nat == cols_before(f, cells, i as int),
                first_reaching(f, cells, col as nat, 0) == first_reaching(f, cells, col as nat, i as int),
            decreases line.len() - i,
        {
            if current >= col {
                return (i, current);
            }
            let w = self.filter.cell_width(line[i]);
            proof {
                lemma_cols_before_bound(f, cells, i as int + 1);
            }
            current = current + w;
            i += 1;
        }
        (i, current)
    }

    /// The foreground character that starts exactly at `pos`. Nothing when
    /// `pos` is outside the buffer, falls inside a wide glyph, or holds a
    /// character that is not foreground.
    pub fn get_char_at(&self, pos: TextPosition) -> (c: Option<char>)
        requires
            self.wf(),
        ensures
            c == char_at(self@.filter, self@.rows, pos),
            c matches Some(x) ==> self@.filter.fg.contains(x),
    {
        if pos.row >= self.rows() {
            return None;
        }
        let (i, start) = self.seek(pos.row, pos.col);
        let line = &self.lines[pos.row];
        if i < line.len() && start == pos.col {
            let c = line[i];
            if self.filter.is_foreground(c) {
                Some(c)
            } else {
                None
            }
        } else {
            None
        }
    }

    /// Display columns of row `row`; zero when there is no such row.
    #[verifier::loop_isolation(false)]
    pub fn cols(&self, row: usize) -> (n: usize)
        requires
            self.wf(),
        ensures
            n as nat == row_cols(self@.filter, self@.rows, row as int),
    {
        if row >= self.lines.len() {
            return 0;
        }
        let line = &self.lines[row];
        let ghost f = self.filter@;
        assert(line@ == self@.rows[row as int]);
        let mut i: usize = 0;
        let mut current: usize = 0;
        while i < line.len()
            invariant
                i <= line.len(),
                f == self.filter@,
                line@.len() <= max_row_len(),
                current as nat == cols_before(f, line@, i as int),
            decreases line.len() - i,
        {
            let w = self.filter.cell_width(line[i]);
            proof {
                lemma_cols_before_bound(f, line@, i as int + 1);
            }
            current = current + w;
            i += 1;
        }
        current
    }

    /// The nearest column boundary before `pos.col`: where the cursor
    /// lands when it moves one character to the left.
    #[verifier::loop_isolation(false)]
    pub fn prev_col(&self, pos: TextPosition) -> (c: usize)
        requires
            self.wf(),
        ensures
            c as nat == prev_col_of(self@.filter, self@.rows, pos),
            pos.col > 0 ==> c < pos.col,
    {
        if pos.row >= self.rows() || pos.col == 0 {
            return 0;
        }
        let line = &self.lines[pos.row];
        let ghost f = self.filter@;
        assert(line@ == self@.rows[pos.row as int]);
        let mut i: usize = 0;
        let mut current: usize = 0;
        let mut prev: usize = 0;
        while i < line.len()
            invariant
                i <= line.len(),
                f == self.filter@,
                pos.col > 0,
                line@.len() <= max_row_len(),
                current as nat == cols_before(f, line@, i as int),
                i == 0 ==> prev == 0,
                i > 0 ==> prev as nat == cols_before(f, line@, i as int - 1),
                prev < pos.col,
                first_reaching(f, line@, pos.col as nat, 0) == first_reaching(f, line@, pos.col as nat, i as int),
            decreases line.len() - i,
        {
            if current >= pos.col {
                return prev;
            }
            let w = self.filter.cell_width(line[i]);
            proof {
                lemma_cols_before_bound(f, line@, i as int + 1);
            }
            prev = current;
            current = current + w;
            i += 1;
        }
        prev
    }

    /// The nearest column boundary after `pos.col`: where the cursor lands
    /// when it moves one character to the right. At the end of the row
    /// this is the row's width.
    #[verifier::loop_isolation(false)]
    pub fn next_col(&self, pos: TextPosition) -> (c: usize)
        requires
            self.wf(),
        ensures
            c as nat == next_col_of(self@.filter, self@.rows, pos),
            pos.row < self@.rows.len() ==> c > pos.col || c as nat == row_cols(
                self@.filter,
                self@.rows,
                pos.row as int,
            ),
    {
        if pos.row >= self.rows() {
            return pos.col;
        }
        let line = &self.lines[pos.row];
        let ghost f = self.filter@;
        assert(line@ == self@.rows[pos.row as int]);
        let mut i: usize = 0;
        let mut current: usize = 0;
        while i < line.len()
            invariant
                i <= line.len(),
                f == self.filter@,
                line@.len() <= max_row_len(),
                current as nat == cols_before(f, line@, i as int),
                first_passing(f, line@, pos.col as nat, 0) == first_passing(f, line@, pos.col as nat, i as int),
            decreases line.len() - i,
        {
            if current > pos.col {
                return current;
            }
            let w = self.filter.cell_width(line[i]);
            proof {
                lemma_cols_before_bound(f, line@, i as int + 1);
            }
            current = current + w;
            i += 1;
        }
        current
    }

    /// Replaces the whole content by the lines of `text` and forgets the
    /// undo history.
    pub fn set_text(&mut self, text: String)
        requires
            old(self).wf(),
            text@.len() <= max_row_len(),
        ensures
            final(self).wf(),
            final(self)@.rows == split_lines(text@),
            final(self)@.log =~= Seq::<UndoEntry>::empty(),
            final(self)@.cursor == 0,
            final(self)@.replaying == old(self)@.replaying,
            final(self)@.filter == old(self)@.filter,
    {
        let ghost s = text@;
        let mut lines: Vec<Vec<char>> = Vec::new();
        let mut open: Vec<char> = Vec::new();
        for c in it: text.as_str().chars()
            invariant
                it.seq() == s,
                rows_of(lines@) == scan_lines(s, it.index() as int).0,
                open@ == scan_lines(s, it.index() as int).1,
        {
            if c == '\n' {
                let n = open.len();
                if n > 0 && open[n - 1] == '\r' {
                    open.pop();
                    assert(open@ =~= strip_cr(scan_lines(s, it.index() as int).1));
                }
                let ghost closed = rows_of(lines@);
                lines.push(open);
                assert(rows_of(lines@) =~= closed.push(open@));
                open = Vec::new();
                assert(open@ =~= Seq::<char>::empty());
            } else {
                open.push(c);
            }
        }
        if open.len() > 0 {
            let ghost closed = rows_of(lines@);
            lines.push(open);
            assert(rows_of(lines@) =~= closed.push(open@));
        }
        proof {
            lemma_scan_lines_len(s, s.len() as int);
            assert forall|r: int| 0 <= r < lines@.len() implies #[trigger] lines@[r]@.len()
                <= max_row_len() by {
                assert(lines@[r]@ == rows_of(lines@)[r]);
            }
        }
        self.lines = lines;
        self.undo_stack = Vec::new();
        self.undo_index = 0;
    }

    /// The rows as strings, top to bottom.
    pub fn lines(&self) -> (out: Vec<String>)
        ensures
            out@.len() == self@.rows.len(),
            forall|r: int| 0 <= r < out@.len() ==> #[trigger] out@[r]@ == self@.rows[r],
    {
        let mut out: Vec<String> = Vec::new();
        let mut r: usize = 0;
        while r < self.lines.len()
            invariant
                r <= self.lines.len(),
                out@.len() == r,
                forall|k: int| 0 <= k < r ==> #[trigger] out@[k]@ == self.lines@[k]@,
            decreases self.lines.len() - r,
        {
            let line = &self.lines[r];
            let text = string_of(line, 0, line.len());
            assert(line@.subrange(0, line@.len() as int) =~= line@);
            out.push(text);
            r += 1;
        }
        out
    }

    /// Writes `new` at `pos`. See [`TextBuffer::update_bulk`].
    pub fn update(&mut self, pos: TextPosition, new: char) -> (changed: bool)
        requires
            old(self).wf(),
        ensures
            final(self).wf(),
            changed == applies(old(self)@.filter, old(self)@.rows, pos, new, !old(self)@.replaying),
            !old(self)@.replaying ==> changed == (char_at(old(self)@.filter, old(self)@.rows, pos) matches Some(
                c,
            ) && c != new),
            !changed ==> final(self)@ == old(self)@,
            final(self)@ == old(self)@.after_update_bulk(seq![(pos, new)]),
    {
        let mut ups: Vec<(TextPosition, char)> = Vec::new();
        ups.push((pos, new));
        proof {
            let one = seq![(pos, new)];
            assert(ups@ =~= one);
            assert(one.drop_last() =~= Seq::<(TextPosition, char)>::empty());
            let gated = !old(self)@.replaying;
            assert(rows_after(old(self)@.filter, old(self)@.rows, one.drop_last(), gated) == old(self)@.rows);
            assert(replaced_by(old(self)@.filter, old(self)@.rows, one.drop_last(), gated).len() == 0);
        }
        self.update_bulk(ups)
    }

    /// Writes each `(position, character)` pair in turn. A write takes
    /// effect only where the position holds a foreground character other
    /// than the new one; the others are skipped. If any write took effect,
    /// the replaced characters are logged as one undo entry. Returns
    /// whether any write took effect.
    ///
    /// While an undo replays an entry, the writes put characters back:
    /// they take effect on any cell that holds another character, and
    /// are not logged.
    #[verifier::loop_isolation(false)]
    pub fn update_bulk(&mut self, updates: Vec<(TextPosition, char)>) -> (changed: bool)
        requires
            old(self).wf(),
        ensures
            final(self).wf(),
            final(self)@ == old(self)@.after_update_bulk(updates@),
            changed == (replaced_by(
                old(self)@.filter,
                old(self)@.rows,
                updates@,
                !old(self)@.replaying,
            ).len() > 0),
            !changed ==> final(self)@ == old(self)@,
    {
        let ghost f = self@.filter;
        let ghost rows0 = self@.rows;
        let ghost gated = !self@.replaying;
        let mut undone: Vec<(TextPosition, char)> = Vec::new();
        let mut k: usize = 0;
        while k < updates.len()
            invariant
                k <= updates.len(),
                self.wf(),
                self@.filter == f,
                self@.log == old(self)@.log,
                self@.cursor == old(self)@.cursor,
                self@.replaying == old(self)@.replaying,
                self@.rows == rows_after(f, rows0, updates@.take(k as int), gated),
                undone@ == replaced_by(f, rows0, updates@.take(k as int), gated),
            decreases updates.len() - k,
        {
            let (pos, new) = updates[k];
            proof {
                let next = updates@.take(k as int + 1);
                assert(next.drop_last() =~= updates@.take(k as int));
                assert(next.last() == (pos, new));
            }
            if pos.row < self.lines.len() {
                let (i, start) = self.seek(pos.row, pos.col);
                if i < self.lines[pos.row].len() && start == pos.col {
                    let c = self.lines[pos.row][i];
                    if c != new && (self.undoing || self.filter.is_foreground(c)) {
                        undone.push((pos, c));
                        let ghost before = self@.rows;
                        self.lines[pos.row][i] = new;
                        assert(self@.rows =~= put(f, before, pos, new, gated));
                    }
                }
            }
            k += 1;
        }
        assert(updates@.take(updates.len() as int) =~= updates@);
        if undone.len() > 0 {
            if !self.undoing {
                self.undo_stack.push(undone);
                self.undo_index = self.undo_stack.len();
                assert(self@.log =~= old(self)@.log.push(undone@));
            }
            true
        } else {
            assert(self@.rows == old(self)@.rows) by {
                lemma_nothing_replaced(f, rows0, updates@, gated);
            }
            false
        }
    }

    /// Takes back the latest edit that has not been undone yet: every
    /// character that the edit replaced is put back where it stood, the
    /// last replaced first. Returns how many edits can still be undone
    /// afterwards, or nothing when there was none to undo.
    pub fn undo(&mut self) -> (left: Option<usize>)
        requires
            old(self).wf(),
        ensures
            final(self).wf(),
            old(self)@.cursor == 0 ==> left is None && final(self)@ == old(self)@,
            old(self)@.cursor > 0 ==> left == Some((old(self)@.cursor - 1) as usize) && final(self)@
                == old(self)@.after_undo(),
    {
        if self.undo_index == 0 {
            return None;
        }
        self.undo_index = self.undo_index - 1;
        self.undoing = true;
        let entry = reversed_entry(&self.undo_stack[self.undo_index]);
        self.update_bulk(entry);
        self.undoing = false;
        Some(self.undo_index)
    }
}

/// One undo entry, last pair first.
fn reversed_entry(entry: &Vec<(TextPosition, char)>) -> (copy: Vec<(TextPosition, char)>)
    ensures
        copy@ == entry@.reverse(),
{
    let mut copy: Vec<(TextPosition, char)> = Vec::new();
    let n = entry.len();
    let mut i: usize = 0;
    while i < n
        invariant
            n == entry.len(),
            i <= n,
            copy@.len() == i,
            forall|k: int| 0 <= k < i ==> copy@[k] == entry@[n - 1 - k],
        decreases n - i,
    {
        copy.push(entry[n - 1 - i]);
        i += 1;
    }
    assert(copy@ =~= entry@.reverse());
    copy
}

/// Writes that replace nothing leave the grid as it was.
pub proof fn lemma_nothing_replaced(
    f: FilterView,
    rows: Seq<Seq<char>>,
    ups: Seq<(TextPosition, char)>,
    gated: bool,
)
    requires
        replaced_by(f, rows, ups, gated).len() == 0,
    ensures
        rows_after(f, rows, ups, gated) == rows,
    decreases ups.len(),
{
    if ups.len() > 0 {
        lemma_nothing_replaced(f, rows, ups.drop_last(), gated);
    }
}

} // verus!
