//! Selection markers: the shapes a user can mark on the grid, and the
//! positions each of them covers.

use vstd::prelude::*;
use vstd::arithmetic::div_mod::lemma_fundamental_div_mod_converse;
use crate::buffer::{char_at, in_reading_order, TextBuffer, TextPosition};
use crate::fill::{fill_region, flood_fill};

verus! {

/// The position at `row`, `col`.
pub open spec fn at(row: int, col: int) -> TextPosition {
    TextPosition { row: row as usize, col: col as usize }
}

/// The cells of row `row` from column `left` to column `right`, both
/// included, left to right.
pub open spec fn span(row: int, left: int, right: int) -> Seq<TextPosition> {
    Seq::new((right - left + 1) as nat, |k: int| at(row, left + k))
}

/// The first and the last cell of the span; one cell when they coincide.
pub open spec fn span_ends(row: int, left: int, right: int) -> Seq<TextPosition> {
    if left == right {
        seq![at(row, left)]
    } else {
        seq![at(row, left), at(row, right)]
    }
}

/// Every cell of the first `n` rows of a box, row by row.
pub open spec fn filled_rows(top: int, n: int, left: int, right: int) -> Seq<TextPosition>
    decreases n,
{
    if n <= 0 {
        Seq::empty()
    } else {
        filled_rows(top, n - 1, left, right) + span(top + n - 1, left, right)
    }
}

/// The cells on the edge of a box that lie in its first `n` rows, row by
/// row: the top and the bottom row whole, of every other row both ends.
pub open spec fn outline_rows(top: int, bottom: int, n: int, left: int, right: int) -> Seq<TextPosition>
    decreases n,
{
    if n <= 0 {
        Seq::empty()
    } else {
        let row = top + n - 1;
        outline_rows(top, bottom, n - 1, left, right) + if row == top || row == bottom {
            span(row, left, right)
        } else {
            span_ends(row, left, right)
        }
    }
}

/// The smaller of two numbers.
pub fn lesser(a: usize, b: usize) -> (m: usize)
    ensures
        m == if a <= b { a } else { b },
{
    if a <= b {
        a
    } else {
        b
    }
}

/// The larger of two numbers.
pub fn greater(a: usize, b: usize) -> (m: usize)
    ensures
        m == if a <= b { b } else { a },
{
    if a <= b {
        b
    } else {
        a
    }
}

/// Appends the cells of one row, from `left` to `right`, to `out`.
fn push_span(out: &mut Vec<TextPosition>, row: usize, left: usize, right: usize)
    requires
        left <= right,
    ensures
        final(out)@ == old(out)@ + span(row as int, left as int, right as int),
{
    let ghost before = out@;
    let mut col = left;
    let mut done = false;
    while !done
        invariant
            left <= col <= right,
            !done ==> out@ == before + span(row as int, left as int, col as int - 1),
            done ==> out@ == before + span(row as int, left as int, right as int),
        decreases right - col + if done { 0int } else { 1int },
    {
        out.push(TextPosition { row, col });
        assert(out@ =~= before + span(row as int, left as int, col as int));
        if col == right {
            done = true;
        } else {
            col += 1;
        }
    }
}

/// A copy of a list of positions.
fn copy_positions(from: &Vec<TextPosition>) -> (copy: Vec<TextPosition>)
    ensures
        copy@ == from@,
{
    let mut copy: Vec<TextPosition> = Vec::new();
    let mut i: usize = 0;
    while i < from.len()
        invariant
            i <= from.len(),
            copy@ == from@.take(i as int),
        decreases from.len() - i,
    {
        copy.push(from[i]);
        assert(from@.take(i as int + 1) =~= from@.take(i as int).push(from@[i as int]));
        i += 1;
    }
    assert(from@.take(from.len() as int) =~= from@);
    copy
}

/// A freehand selection: every position the cursor has visited.
#[derive(Debug, Clone)]
pub struct StrokeMarker {
    pub(crate) positions: Vec<TextPosition>,
}

impl StrokeMarker {
    /// The visited positions are kept in reading order, each once.
    pub open(crate) spec fn wf(&self) -> bool {
        in_reading_order(self.positions@)
    }

    /// The visited positions, in reading order.
    pub open(crate) spec fn positions(&self) -> Seq<TextPosition> {
        self.positions@
    }

    /// A stroke that has visited `cursor` only.
    pub fn new(cursor: TextPosition) -> (m: Self)
        ensures
            m.wf(),
            m.positions() == seq![cursor],
    {
        let mut positions: Vec<TextPosition> = Vec::new();
        positions.push(cursor);
        assert(positions@ =~= seq![cursor]);
        StrokeMarker { positions }
    }

    /// The visited positions, in reading order.
    pub fn marked_positions(&self) -> (out: Vec<TextPosition>)
        ensures
            out@ == self.positions(),
    {
        copy_positions(&self.positions)
    }

    /// Adds `cursor` to the visited positions; a position visited before
    /// is not added again.
    pub fn handle_cursor_move(&mut self, cursor: TextPosition)
        requires
            old(self).wf(),
        ensures
            final(self).wf(),
            final(self).positions().to_set() == old(self).positions().to_set().insert(cursor),
            old(self).positions().contains(cursor) ==> final(self).positions() == old(self).positions(),
            !old(self).positions().contains(cursor) ==> final(self).positions().len() == old(
                self,
            ).positions().len() + 1,
    {
        let mut i: usize = 0;
        while i < self.positions.len() && self.positions[i].precedes(&cursor)
            invariant
                i <= self.positions.len(),
                self.positions@ == old(self).positions@,
                forall|j: int| 0 <= j < i ==> self.positions@[j].before(cursor),
            decreases self.positions.len() - i,
        {
            i += 1;
        }
        let ghost before = self.positions@;
        if i < self.positions.len() && self.positions[i] == cursor {
            assert(before.contains(cursor));
            assert(before.to_set().insert(cursor) =~= before.to_set());
        } else {
            assert(!before.contains(cursor)) by {
                if before.contains(cursor) {
                    let k = choose|k: int| 0 <= k < before.len() && before[k] == cursor;
                    if k < i {
                        assert(before[k].before(cursor));
                    } else if k > i {
                        assert(before[i as int].before(before[k]));
                    }
                }
            }
            self.positions.insert(i, cursor);
            let ghost after = self.positions@;
            assert(after == before.insert(i as int, cursor));
            assert(in_reading_order(after)) by {
                assert forall|a: int, b: int| 0 <= a < b < after.len() implies after[a].before(
                    after[b],
                ) by {
                    if b < i {
                    } else if b == i {
                        assert(after[a] == before[a]);
                    } else if a < i {
                        assert(after[b] == before[b - 1]);
                        if b - 1 > i {
                            assert(before[i as int].before(before[b - 1]));
                        }
                    } else if a == i {
                        assert(after[b] == before[b - 1]);
                        if b - 1 > i {
                            assert(before[i as int].before(before[b - 1]));
                        }
                    } else {
                        assert(after[a] == before[a - 1] && after[b] == before[b - 1]);
                    }
                }
            }
            assert(after.to_set() =~= before.to_set().insert(cursor)) by {
                assert forall|p: TextPosition| after.to_set().contains(p) <==> before.to_set().insert(
                    cursor,
                ).contains(p) by {
                    if after.contains(p) {
                        let k = choose|k: int| 0 <= k < after.len() && after[k] == p;
                        if k < i {
                            assert(before[k] == p);
                        } else if k > i {
                            assert(before[k - 1] == p);
                        }
                    }
                    if before.contains(p) {
                        let k = choose|k: int| 0 <= k < before.len() && before[k] == p;
                        if k < i {
                            assert(after[k] == p);
                        } else {
                            assert(after[k + 1] == p);
                        }
                    }
                    if p == cursor {
                        assert(after[i as int] == p);
                    }
                }
            }
        }
    }
}

/// How far apart two coordinates are.
pub open spec fn distance(a: int, b: int) -> int {
    if a <= b {
        b - a
    } else {
        a - b
    }
}

/// Number of steps from `start` to `end` along a line: the larger of the
/// row distance and the column distance.
pub open spec fn line_steps(start: TextPosition, end: TextPosition) -> int {
    let rows = distance(start.row as int, end.row as int);
    let cols = distance(start.col as int, end.col as int);
    if rows >= cols {
        rows
    } else {
        cols
    }
}

/// The coordinate `i` steps of `steps` along the way from `a` to `b`,
/// rounded to the nearest whole number, a half rounded up.
pub open spec fn lerp(a: int, b: int, i: int, steps: int) -> int {
    if steps <= 0 {
        a
    } else {
        a + (2 * i * (b - a) + steps) / (2 * steps)
    }
}

/// The `i`-th point of the line from `start` to `end`.
pub open spec fn line_point(start: TextPosition, end: TextPosition, i: int) -> TextPosition {
    at(
        lerp(start.row as int, end.row as int, i, line_steps(start, end)),
        lerp(start.col as int, end.col as int, i, line_steps(start, end)),
    )
}

/// The points of the line from `start` to `end`, in that order: one more
/// than there are steps.
pub open spec fn line_points(start: TextPosition, end: TextPosition) -> Seq<TextPosition> {
    Seq::new((line_steps(start, end) + 1) as nat, |i: int| line_point(start, end, i))
}

proof fn lemma_lerp_rising(a: int, d: int, i: int, steps: int, q: int, r: int)
    requires
        steps > 0,
        0 <= i <= steps,
        0 <= d <= steps,
        i * d == q * steps + r,
        0 <= r < steps,
    ensures
        lerp(a, a + d, i, steps) == a + q + if 2 * r >= steps { 1int } else { 0int },
        0 <= q,
        q + if 2 * r >= steps { 1int } else { 0int } <= d,
{
    let x = 2 * i * (a + d - a) + steps;
    assert(2 * i * (a + d - a) + steps == 2 * (i * d) + steps) by (nonlinear_arith);
    assert(q >= 0) by (nonlinear_arith)
        requires
            i * d == q * steps + r,
            i >= 0,
            d >= 0,
            steps > 0,
            r < steps,
    ;
    assert(q * steps <= steps * d) by (nonlinear_arith)
        requires
            i * d == q * steps + r,
            0 <= i <= steps,
            0 <= d,
            r >= 0,
    ;
    assert(q <= d) by (nonlinear_arith)
        requires
            q * steps <= steps * d,
            steps > 0,
    ;
    if 2 * r >= steps {
        assert(x == (q + 1) * (2 * steps) + (2 * r - steps)) by (nonlinear_arith)
            requires
                x == 2 * (i * d) + steps,
                i * d == q * steps + r,
        ;
        lemma_fundamental_div_mod_converse(x, 2 * steps, q + 1, 2 * r - steps);
        assert(q < d) by (nonlinear_arith)
            requires
                i * d == q * steps + r,
                0 <= i <= steps,
                0 <= d,
                r > 0,
                steps > 0,
                q <= d,
        ;
    } else {
        assert(x == q * (2 * steps) + (2 * r + steps)) by (nonlinear_arith)
            requires
                x == 2 * (i * d) + steps,
                i * d == q * steps + r,
        ;
        lemma_fundamental_div_mod_converse(x, 2 * steps, q, 2 * r + steps);
    }
}

proof fn lemma_lerp_falling(a: int, d: int, i: int, steps: int, q: int, r: int)
    requires
        steps > 0,
        0 <= i <= steps,
        0 <= d <= steps,
        i * d == q * steps + r,
        0 <= r < steps,
    ensures
        lerp(a, a - d, i, steps) == a - q - if 2 * r > steps { 1int } else { 0int },
        0 <= q,
        q + if 2 * r > steps { 1int } else { 0int } <= d,
{
    let x = 2 * i * (a - d - a) + steps;
    assert(2 * i * (a - d - a) + steps == steps - 2 * (i * d)) by (nonlinear_arith);
    assert(q >= 0) by (nonlinear_arith)
        requires
            i * d == q * steps + r,
            i >= 0,
            d >= 0,
            steps > 0,
            r < steps,
    ;
    assert(q * steps <= steps * d) by (nonlinear_arith)
        requires
            i * d == q * steps + r,
            0 <= i <= steps,
            0 <= d,
            r >= 0,
    ;
    assert(q <= d) by (nonlinear_arith)
        requires
            q * steps <= steps * d,
            steps > 0,
    ;
    if 2 * r > steps {
        assert(x == (-q - 1) * (2 * steps) + (3 * steps - 2 * r)) by (nonlinear_arith)
            requires
                x == steps - 2 * (i * d),
                i * d == q * steps + r,
        ;
        lemma_fundamental_div_mod_converse(x, 2 * steps, -q - 1, 3 * steps - 2 * r);
        assert(q < d) by (nonlinear_arith)
            requires
                i * d == q * steps + r,
                0 <= i <= steps,
                0 <= d,
                r > 0,
                steps > 0,
                q <= d,
        ;
    } else {
        assert(x == (-q) * (2 * steps) + (steps - 2 * r)) by (nonlinear_arith)
            requires
                x == steps - 2 * (i * d),
                i * d == q * steps + r,
        ;
        lemma_fundamental_div_mod_converse(x, 2 * steps, -q, steps - 2 * r);
    }
}

/// The coordinate `i` steps of `steps` along the way from `a` to `b`.
fn interpolate(a: usize, b: usize, i: usize, steps: usize) -> (c: usize)
    requires
        steps > 0,
        i <= steps,
        distance(a as int, b as int) <= steps,
    ensures
        c as int == lerp(a as int, b as int, i as int, steps as int),
{
    let d: usize = if a <= b {
        b - a
    } else {
        a - b
    };
    assert((i as int) * (d as int) <= 0xffff_ffff_ffff_ffff * 0xffff_ffff_ffff_ffff) by (nonlinear_arith)
        requires
            0 <= i <= 0xffff_ffff_ffff_ffff,
            0 <= d <= 0xffff_ffff_ffff_ffff,
    ;
    let n: u128 = (i as u128) * (d as u128);
    let q: u128 = n / (steps as u128);
    let r: u128 = n % (steps as u128);
    proof {
        vstd::arithmetic::div_mod::lemma_fundamental_div_mod(n as int, steps as int);
        assert((i as int) * (d as int) == (q as int) * (steps as int) + (r as int)) by (nonlinear_arith)
            requires
                n as int == (steps as int) * (q as int) + (r as int),
                n as int == (i as int) * (d as int),
        ;
        if a <= b {
            lemma_lerp_rising(a as int, d as int, i as int, steps as int, q as int, r as int);
        } else {
            lemma_lerp_falling(a as int, d as int, i as int, steps as int, q as int, r as int);
        }
    }
    if a <= b {
        let up: usize = if 2 * r >= steps as u128 {
            1
        } else {
            0
        };
        a + (q as usize) + up
    } else {
        let down: usize = if 2 * r > steps as u128 {
            1
        } else {
            0
        };
        a - (q as usize) - down
    }
}

/// A straight line from where marking began to the cursor.
#[derive(Debug, Clone)]
pub struct LineMarker {
    pub(crate) start: TextPosition,
    pub(crate) end: TextPosition,
}

impl LineMarker {
    /// The points of the line, from its start to its end.
    pub open(crate) spec fn positions(&self) -> Seq<TextPosition> {
        line_points(self.start, self.end)
    }

    /// A line that starts and ends at `cursor`.
    pub fn new(cursor: TextPosition) -> (m: Self)
        ensures
            m.positions() == line_points(cursor, cursor),
    {
        LineMarker { start: cursor, end: cursor }
    }

    /// Moves the end of the line to `cursor`; the start stays.
    pub fn handle_cursor_move(&mut self, cursor: TextPosition)
        ensures
            final(self).positions() == line_points(old(self).positions()[0], cursor),
    {
        proof {
            lemma_line_starts_at_start(self.start, self.end);
        }
        self.end = cursor;
    }

    /// The points of the line, from its start to its end.
    pub fn marked_positions(&self) -> (out: Vec<TextPosition>)
        ensures
            out@ == self.positions(),
    {
        let start = self.start;
        let end = self.end;
        let rows: usize = if start.row <= end.row {
            end.row - start.row
        } else {
            start.row - end.row
        };
        let cols: usize = if start.col <= end.col {
            end.col - start.col
        } else {
            start.col - end.col
        };
        let steps: usize = greater(rows, cols);
        let mut out: Vec<TextPosition> = Vec::new();
        if steps == 0 {
            out.push(start);
            assert(out@ =~= line_points(start, end));
            return out;
        }
        let mut i: usize = 0;
        let mut done = false;
        while !done
            invariant
                steps > 0,
                steps as int == line_steps(start, end),
                i <= steps,
                !done ==> out@ == line_points(start, end).take(i as int),
                done ==> out@ == line_points(start, end),
            decreases steps - i + if done { 0int } else { 1int },
        {
            let row = interpolate(start.row, end.row, i, steps);
            let col = interpolate(start.col, end.col, i, steps);
            out.push(TextPosition { row, col });
            assert(out@ =~= line_points(start, end).take(i as int + 1));
            if i == steps {
                done = true;
                assert(line_points(start, end).take(i as int + 1) =~= line_points(start, end));
            } else {
                i += 1;
            }
        }
        out
    }
}

/// A line begins where it was started.
pub proof fn lemma_line_starts_at_start(start: TextPosition, end: TextPosition)
    ensures
        line_points(start, end).len() == line_steps(start, end) + 1,
        line_points(start, end)[0] == start,
{
    let steps = line_steps(start, end);
    if steps > 0 {
        assert(2 * 0 * (end.row as int - start.row as int) + steps == steps) by (nonlinear_arith);
        assert(2 * 0 * (end.col as int - start.col as int) + steps == steps) by (nonlinear_arith);
        vstd::arithmetic::div_mod::lemma_fundamental_div_mod_converse(steps, 2 * steps, 0, steps);
    }
}

/// A line ends where its end is.
pub proof fn lemma_line_ends_at_end(start: TextPosition, end: TextPosition)
    ensures
        line_points(start, end).last() == end,
{
    let steps = line_steps(start, end);
    if steps > 0 {
        let rows = end.row as int - start.row as int;
        let cols = end.col as int - start.col as int;
        assert(2 * steps * rows + steps == rows * (2 * steps) + steps) by (nonlinear_arith);
        assert(2 * steps * cols + steps == cols * (2 * steps) + steps) by (nonlinear_arith);
        vstd::arithmetic::div_mod::lemma_fundamental_div_mod_converse(
            2 * steps * rows + steps,
            2 * steps,
            rows,
            steps,
        );
        vstd::arithmetic::div_mod::lemma_fundamental_div_mod_converse(
            2 * steps * cols + steps,
            2 * steps,
            cols,
            steps,
        );
    }
}

/// A line whose start and end coincide is that one point.
pub proof fn lemma_line_of_one_point(p: TextPosition)
    ensures
        line_points(p, p) == seq![p],
{
    assert(line_points(p, p) =~= seq![p]);
}

/// The box that two corners span, by its outermost rows and columns.
pub struct BoxView {
    pub top: int,
    pub bottom: int,
    pub left: int,
    pub right: int,
}

impl BoxView {
    /// Number of columns.
    pub open spec fn width(self) -> int {
        self.right - self.left + 1
    }

    /// Number of rows.
    pub open spec fn height(self) -> int {
        self.bottom - self.top + 1
    }

    /// Whether `p` lies in the box.
    pub open spec fn contains(self, p: TextPosition) -> bool {
        self.top <= p.row <= self.bottom && self.left <= p.col <= self.right
    }

    /// Whether `p` lies on the outermost rows or columns of the box.
    pub open spec fn on_edge(self, p: TextPosition) -> bool {
        p.row == self.top || p.row == self.bottom || p.col == self.left || p.col == self.right
    }

    /// The cells on the edge of the box, row by row.
    pub open spec fn outline(self) -> Seq<TextPosition> {
        outline_rows(self.top, self.bottom, self.height(), self.left, self.right)
    }

    /// Every cell of the box, row by row.
    pub open spec fn cells(self) -> Seq<TextPosition> {
        filled_rows(self.top, self.height(), self.left, self.right)
    }
}

/// The smallest box that holds both `a` and `b`.
pub open spec fn bounding_box(a: TextPosition, b: TextPosition) -> BoxView {
    BoxView {
        top: if a.row <= b.row { a.row as int } else { b.row as int },
        bottom: if a.row <= b.row { b.row as int } else { a.row as int },
        left: if a.col <= b.col { a.col as int } else { b.col as int },
        right: if a.col <= b.col { b.col as int } else { a.col as int },
    }
}

/// Collects the cells of a box row by row: all of them, or only those on
/// its edge.
fn box_positions(top: usize, bottom: usize, left: usize, right: usize, edge_only: bool) -> (out: Vec<TextPosition>)
    requires
        top <= bottom,
        left <= right,
    ensures
        edge_only ==> out@ == outline_rows(
            top as int,
            bottom as int,
            bottom - top + 1,
            left as int,
            right as int,
        ),
        !edge_only ==> out@ == filled_rows(top as int, bottom - top + 1, left as int, right as int),
{
    let mut out: Vec<TextPosition> = Vec::new();
    let mut row = top;
    let mut done = false;
    while !done
        invariant
            top <= row <= bottom,
            left <= right,
            edge_only && !done ==> out@ == outline_rows(
                top as int,
                bottom as int,
                row - top,
                left as int,
                right as int,
            ),
            edge_only && done ==> out@ == outline_rows(
                top as int,
                bottom as int,
                bottom - top + 1,
                left as int,
                right as int,
            ),
            !edge_only && !done ==> out@ == filled_rows(top as int, row - top, left as int, right as int),
            !edge_only && done ==> out@ == filled_rows(
                top as int,
                bottom - top + 1,
                left as int,
                right as int,
            ),
        decreases bottom - row + if done { 0int } else { 1int },
    {
        if !edge_only || row == top || row == bottom {
            push_span(&mut out, row, left, right);
        } else {
            out.push(TextPosition { row, col: left });
            if left != right {
                out.push(TextPosition { row, col: right });
            }
            assert(out@ =~= outline_rows(top as int, bottom as int, row - top, left as int, right as int)
                + span_ends(row as int, left as int, right as int));
        }
        if row == bottom {
            done = true;
        } else {
            row += 1;
        }
    }
    out
}

/// The outline of the box between where marking began and the cursor.
#[derive(Debug, Clone)]
pub struct RectMarker {
    pub(crate) start: TextPosition,
    pub(crate) end: TextPosition,
}

impl RectMarker {
    /// The box between the two corners.
    pub open(crate) spec fn bounds(&self) -> BoxView {
        bounding_box(self.start, self.end)
    }

    /// The corner where marking began.
    pub open(crate) spec fn anchor(&self) -> TextPosition {
        self.start
    }

    /// The cells on the edge of the box, row by row.
    pub open(crate) spec fn positions(&self) -> Seq<TextPosition> {
        self.bounds().outline()
    }

    /// A box of the single cell at `cursor`.
    pub fn new(cursor: TextPosition) -> (m: Self)
        ensures
            m.anchor() == cursor,
            m.bounds() == bounding_box(cursor, cursor),
    {
        RectMarker { start: cursor, end: cursor }
    }

    /// Moves the free corner to `cursor`; the corner where marking began
    /// stays.
    pub fn handle_cursor_move(&mut self, cursor: TextPosition)
        ensures
            final(self).anchor() == old(self).anchor(),
            final(self).bounds() == bounding_box(old(self).anchor(), cursor),
    {
        self.end = cursor;
    }

    /// The cells on the edge of the box, row by row.
    pub fn marked_positions(&self) -> (out: Vec<TextPosition>)
        ensures
            out@ == self.positions(),
    {
        box_positions(
            lesser(self.start.row, self.end.row),
            greater(self.start.row, self.end.row),
            lesser(self.start.col, self.end.col),
            greater(self.start.col, self.end.col),
            true,
        )
    }
}

/// The whole box between where marking began and the cursor.
#[derive(Debug, Clone)]
pub struct FilledRectMarker {
    pub(crate) start: TextPosition,
    pub(crate) end: TextPosition,
}

impl FilledRectMarker {
    /// The box between the two corners.
    pub open(crate) spec fn bounds(&self) -> BoxView {
        bounding_box(self.start, self.end)
    }

    /// The corner where marking began.
    pub open(crate) spec fn anchor(&self) -> TextPosition {
        self.start
    }

    /// Every cell of the box, row by row.
    pub open(crate) spec fn positions(&self) -> Seq<TextPosition> {
        self.bounds().cells()
    }

    /// A box of the single cell at `cursor`.
    pub fn new(cursor: TextPosition) -> (m: Self)
        ensures
            m.anchor() == cursor,
            m.bounds() == bounding_box(cursor, cursor),
    {
        FilledRectMarker { start: cursor, end: cursor }
    }

    /// Moves the free corner to `cursor`; the corner where marking began
    /// stays.
    pub fn handle_cursor_move(&mut self, cursor: TextPosition)
        ensures
            final(self).anchor() == old(self).anchor(),
            final(self).bounds() == bounding_box(old(self).anchor(), cursor),
    {
        self.end = cursor;
    }

    /// Every cell of the box, row by row.
    pub fn marked_positions(&self) -> (out: Vec<TextPosition>)
        ensures
            out@ == self.positions(),
    {
        box_positions(
            lesser(self.start.row, self.end.row),
            greater(self.start.row, self.end.row),
            lesser(self.start.col, self.end.col),
            greater(self.start.col, self.end.col),
            false,
        )
    }
}

/// A box whose rows and columns are coordinates of the grid.
pub open spec fn on_grid(b: BoxView) -> bool {
    0 <= b.top <= b.bottom <= usize::MAX && 0 <= b.left <= b.right <= usize::MAX
}

proof fn lemma_concat_contains(a: Seq<TextPosition>, b: Seq<TextPosition>, p: TextPosition)
    ensures
        (a + b).contains(p) <==> a.contains(p) || b.contains(p),
{
    let all = a + b;
    if a.contains(p) {
        let i = choose|i: int| 0 <= i < a.len() && a[i] == p;
        assert(all[i] == p);
    }
    if b.contains(p) {
        let i = choose|i: int| 0 <= i < b.len() && b[i] == p;
        assert(all[a.len() + i] == p);
    }
    if all.contains(p) {
        let i = choose|i: int| 0 <= i < all.len() && all[i] == p;
        if i < a.len() {
            assert(a[i] == p);
        } else {
            assert(b[i - a.len()] == p);
        }
    }
}

proof fn lemma_span_members(row: int, left: int, right: int, p: TextPosition)
    requires
        0 <= row <= usize::MAX,
        0 <= left <= right <= usize::MAX,
    ensures
        span(row, left, right).contains(p) <==> p.row == row && left <= p.col <= right,
        span_ends(row, left, right).contains(p) <==> p.row == row && (p.col == left || p.col == right),
{
    let cells = span(row, left, right);
    let ends = span_ends(row, left, right);
    if p.row == row && left <= p.col <= right {
        assert(cells[p.col - left] == p);
    }
    if p.row == row && p.col == left {
        assert(ends[0] == p);
    }
    if p.row == row && p.col == right {
        assert(ends[ends.len() - 1] == p);
    }
}

proof fn lemma_rows_members(top: int, bottom: int, n: int, left: int, right: int, p: TextPosition)
    requires
        0 <= top,
        0 <= n,
        top + n - 1 <= usize::MAX,
        0 <= left <= right <= usize::MAX,
    ensures
        filled_rows(top, n, left, right).contains(p) <==> top <= p.row < top + n && left <= p.col <= right,
        outline_rows(top, bottom, n, left, right).contains(p) <==> top <= p.row < top + n && left <= p.col
            <= right && (p.row == top || p.row == bottom || p.col == left || p.col == right),
    decreases n,
{
    if n > 0 {
        let row = top + n - 1;
        lemma_rows_members(top, bottom, n - 1, left, right, p);
        lemma_span_members(row, left, right, p);
        lemma_concat_contains(filled_rows(top, n - 1, left, right), span(row, left, right), p);
        lemma_concat_contains(
            outline_rows(top, bottom, n - 1, left, right),
            if row == top || row == bottom {
                span(row, left, right)
            } else {
                span_ends(row, left, right)
            },
            p,
        );
    }
}

/// The outline of a box holds the positions of the box that lie on its
/// outermost rows and columns, and the filled box holds all positions of
/// the box.
pub proof fn lemma_box_members(b: BoxView, p: TextPosition)
    requires
        on_grid(b),
    ensures
        b.outline().contains(p) <==> b.contains(p) && b.on_edge(p),
        b.cells().contains(p) <==> b.contains(p),
{
    lemma_rows_members(b.top, b.bottom, b.height(), b.left, b.right, p);
}

/// A filled box of `n` rows has `n` times its width in cells.
pub proof fn lemma_filled_rows_len(top: int, n: int, left: int, right: int)
    requires
        0 <= n,
        left <= right,
    ensures
        filled_rows(top, n, left, right).len() == n * (right - left + 1),
    decreases n,
{
    if n > 0 {
        lemma_filled_rows_len(top, n - 1, left, right);
        assert(n * (right - left + 1) == (n - 1) * (right - left + 1) + (right - left + 1))
            by (nonlinear_arith);
    } else {
        assert(n * (right - left + 1) == 0) by (nonlinear_arith)
            requires
                n == 0,
        ;
    }
}

/// Number of edge cells in the first `n` rows of a box that is more
/// than one column wide.
pub open spec fn outline_count(height: int, n: int, width: int) -> int {
    if n <= 0 {
        0
    } else if n < height {
        width + 2 * (n - 1)
    } else if height == 1 {
        width
    } else {
        2 * width + 2 * (height - 2)
    }
}

proof fn lemma_outline_rows_len(top: int, bottom: int, n: int, left: int, right: int)
    requires
        top <= bottom,
        0 <= n <= bottom - top + 1,
        left < right,
    ensures
        outline_rows(top, bottom, n, left, right).len() == outline_count(
            bottom - top + 1,
            n,
            right - left + 1,
        ),
    decreases n,
{
    if n > 0 {
        lemma_outline_rows_len(top, bottom, n - 1, left, right);
    }
}

/// The outline of a box more than one cell wide and more than one cell
/// high has twice its width plus twice its height, less the four corners
/// counted twice.
pub proof fn lemma_outline_len(b: BoxView)
    requires
        b.width() > 1,
        b.height() > 1,
    ensures
        b.outline().len() == 2 * b.width() + 2 * b.height() - 4,
{
    lemma_outline_rows_len(b.top, b.bottom, b.height(), b.left, b.right);
}

/// A filled box has its width times its height in cells.
pub proof fn lemma_cells_len(b: BoxView)
    requires
        b.width() >= 1,
        b.height() >= 1,
    ensures
        b.cells().len() == b.width() * b.height(),
{
    lemma_filled_rows_len(b.top, b.height(), b.left, b.right);
    assert(b.height() * b.width() == b.width() * b.height()) by (nonlinear_arith);
}

/// Every cell that can be reached from the cursor through neighbouring
/// cells holding the same character as the cell under the cursor.
#[derive(Debug, Clone)]
pub struct FillMarker {
    pub(crate) position: TextPosition,
    pub(crate) target_char: Option<char>,
    pub(crate) filled_positions: Vec<TextPosition>,
}

impl FillMarker {
    /// The cell the fill spreads from.
    pub open(crate) spec fn anchor(&self) -> TextPosition {
        self.position
    }

    /// The character found under the anchor when the fill was last
    /// computed; nothing when the anchor held no foreground character.
    pub open(crate) spec fn target(&self) -> Option<char> {
        self.target_char
    }

    /// The covered cells, in reading order.
    pub open(crate) spec fn positions(&self) -> Seq<TextPosition> {
        self.filled_positions@
    }

    /// The covered cells are kept in reading order, each once.
    pub open(crate) spec fn wf(&self) -> bool {
        in_reading_order(self.filled_positions@)
    }

    /// Whether the marker is the fill of `buffer` anchored at `cursor`.
    pub open(crate) spec fn is_fill_of(&self, buffer: &TextBuffer, cursor: TextPosition) -> bool {
        &&& self.position == cursor
        &&& self.target_char == char_at(buffer@.filter, buffer@.rows, cursor)
        &&& self.filled_positions@.to_set() == fill_region(buffer@.filter, buffer@.rows, cursor)
    }

    /// The fill of `buffer` anchored at `cursor`.
    pub fn new(cursor: TextPosition, buffer: &TextBuffer) -> (m: Self)
        requires
            buffer.wf(),
        ensures
            m.wf(),
            m.is_fill_of(buffer, cursor),
    {
        FillMarker {
            position: cursor,
            target_char: buffer.get_char_at(cursor),
            filled_positions: flood_fill(buffer, cursor),
        }
    }

    /// Moves the anchor to `cursor` and computes the fill anew.
    pub fn handle_cursor_move(&mut self, cursor: TextPosition, buffer: &TextBuffer)
        requires
            buffer.wf(),
        ensures
            final(self).wf(),
            final(self).is_fill_of(buffer, cursor),
    {
        self.position = cursor;
        self.target_char = buffer.get_char_at(cursor);
        self.filled_positions = flood_fill(buffer, cursor);
    }

    /// The covered cells, in reading order.
    pub fn marked_positions(&self) -> (out: Vec<TextPosition>)
        ensures
            out@ == self.positions(),
    {
        copy_positions(&self.filled_positions)
    }
}

/// A selection in progress, in one of five shapes.
#[derive(Debug, Clone)]
pub enum Marker {
    Stroke(StrokeMarker),
    Line(LineMarker),
    Rect(RectMarker),
    FilledRect(FilledRectMarker),
    Fill(FillMarker),
}

impl Marker {
    /// The invariant of the shape the marker has.
    pub open spec fn wf(&self) -> bool {
        match self {
            Marker::Stroke(m) => m.wf(),
            Marker::Fill(m) => m.wf(),
            _ => true,
        }
    }

    /// The positions the marker covers, in the order in which
    /// [`Marker::marked_positions`] gives them.
    pub open spec fn positions(&self) -> Seq<TextPosition> {
        match self {
            Marker::Stroke(m) => m.positions(),
            Marker::Line(m) => m.positions(),
            Marker::Rect(m) => m.positions(),
            Marker::FilledRect(m) => m.positions(),
            Marker::Fill(m) => m.positions(),
        }
    }

    /// Whether `self` is what `before` becomes when the cursor moves to
    /// `cursor`: the same shape, with the position added to a stroke,
    /// the free end of a line or a box moved there, and a fill anchored
    /// there and computed anew on `buffer`.
    pub open spec fn follows(&self, before: Marker, cursor: TextPosition, buffer: &TextBuffer) -> bool {
        match (before, *self) {
            (Marker::Stroke(a), Marker::Stroke(b)) => b.positions().to_set() == a.positions().to_set().insert(
                cursor,
            ),
            (Marker::Line(a), Marker::Line(b)) => b.positions() == line_points(a.positions()[0], cursor),
            (Marker::Rect(a), Marker::Rect(b)) => b.anchor() == a.anchor() && b.bounds() == bounding_box(
                a.anchor(),
                cursor,
            ),
            (Marker::FilledRect(a), Marker::FilledRect(b)) => b.anchor() == a.anchor() && b.bounds()
                == bounding_box(a.anchor(), cursor),
            (Marker::Fill(_), Marker::Fill(b)) => b.is_fill_of(buffer, cursor),
            _ => false,
        }
    }

    /// A stroke that begins at `cursor`.
    pub fn new_stroke(cursor: TextPosition) -> (m: Self)
        ensures
            m.wf(),
            m matches Marker::Stroke(_),
            m.positions() == seq![cursor],
    {
        Marker::Stroke(StrokeMarker::new(cursor))
    }

    /// A line that begins at `cursor`.
    pub fn new_line(cursor: TextPosition) -> (m: Self)
        ensures
            m.wf(),
            m matches Marker::Line(_),
            m.positions() == seq![cursor],
    {
        proof {
            lemma_line_of_one_point(cursor);
        }
        Marker::Line(LineMarker::new(cursor))
    }

    /// A box outline that begins at `cursor`.
    pub fn new_rect(cursor: TextPosition) -> (m: Self)
        ensures
            m.wf(),
            m matches Marker::Rect(r) && r.anchor() == cursor && r.bounds() == bounding_box(cursor, cursor),
    {
        Marker::Rect(RectMarker::new(cursor))
    }

    /// A filled box that begins at `cursor`.
    pub fn new_filled_rect(cursor: TextPosition) -> (m: Self)
        ensures
            m.wf(),
            m matches Marker::FilledRect(r) && r.anchor() == cursor && r.bounds() == bounding_box(
                cursor,
                cursor,
            ),
    {
        Marker::FilledRect(FilledRectMarker::new(cursor))
    }

    /// The fill of `buffer` anchored at `cursor`.
    pub fn new_fill(cursor: TextPosition, buffer: &TextBuffer) -> (m: Self)
        requires
            buffer.wf(),
        ensures
            m.wf(),
            m matches Marker::Fill(fill) && fill.is_fill_of(buffer, cursor),
    {
        Marker::Fill(FillMarker::new(cursor, buffer))
    }

    /// The label of the marker's shape, as the status line shows it.
    pub fn name(&self) -> (label: &'static str)
        ensures
            label@ == match self {
                Marker::Stroke(_) => "MARK(STROKE)"@,
                Marker::Line(_) => "MARK(LINE)"@,
                Marker::Rect(_) => "MARK(RECT)"@,
                Marker::FilledRect(_) => "MARK(FILLED-RECT)"@,
                Marker::Fill(_) => "MARK(FILL)"@,
            },
    {
        match self {
            Marker::Stroke(_) => "MARK(STROKE)",
            Marker::Line(_) => "MARK(LINE)",
            Marker::Rect(_) => "MARK(RECT)",
            Marker::FilledRect(_) => "MARK(FILLED-RECT)",
            Marker::Fill(_) => "MARK(FILL)",
        }
    }

    /// The positions the marker covers.
    pub fn marked_positions(&self) -> (out: Vec<TextPosition>)
        ensures
            out@ == self.positions(),
    {
        match self {
            Marker::Stroke(m) => m.marked_positions(),
            Marker::Line(m) => m.marked_positions(),
            Marker::Rect(m) => m.marked_positions(),
            Marker::FilledRect(m) => m.marked_positions(),
            Marker::Fill(m) => m.marked_positions(),
        }
    }

    /// Follows the cursor to `cursor`. A stroke adds the position; a
    /// line and the two boxes move their free end there; a fill moves
    /// its anchor there and is computed anew on `buffer`.
    pub fn handle_cursor_move(&mut self, cursor: TextPosition, buffer: &TextBuffer)
        requires
            old(self).wf(),
            buffer.wf(),
        ensures
            final(self).wf(),
            final(self).follows(*old(self), cursor, buffer),
    {
        match self {
            Marker::Stroke(m) => m.handle_cursor_move(cursor),
            Marker::Line(m) => m.handle_cursor_move(cursor),
            Marker::Rect(m) => m.handle_cursor_move(cursor),
            Marker::FilledRect(m) => m.handle_cursor_move(cursor),
            Marker::Fill(m) => m.handle_cursor_move(cursor, buffer),
        }
    }
}

} // verus!
