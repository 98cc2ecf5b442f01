//! A fill on a grid whose cells all hold one character covers the grid.

use vstd::prelude::*;
use crate::buffer::{
    cell_index, char_at, cols_before, first_reaching, in_reading_order, FilterView, TextPosition,
};
use crate::fill::{adjacent, fill_region, holds, is_walk, lemma_reaches_itself, lemma_reaches_step, reaches};
use crate::width::display_width;

verus! {

/// A grid of `height` rows of `width` cells that all hold the
/// foreground character `c`, which is one column wide.
pub open spec fn uniform(f: FilterView, rows: Seq<Seq<char>>, c: char, height: int, width: int) -> bool {
    &&& f.fg.contains(c)
    &&& display_width(c) == 1
    &&& 0 <= height <= usize::MAX
    &&& 0 <= width <= usize::MAX
    &&& rows.len() == height
    &&& forall|r: int| 0 <= r < height ==> (#[trigger] rows[r]).len() == width
    &&& forall|r: int, i: int| 0 <= r < height && 0 <= i < width ==> #[trigger] rows[r][i] == c
}

/// The positions of a grid of `height` rows of `width` columns.
pub open spec fn grid_positions(height: int, width: int) -> Set<TextPosition> {
    Set::new(|p: TextPosition| p.row < height && p.col < width)
}

/// The positions of the grid that come before row `r`, column `c`, in
/// reading order.
pub open spec fn grid_before(width: int, r: int, c: int) -> Set<TextPosition> {
    Set::new(|p: TextPosition| p.col < width && (p.row < r || (p.row == r && p.col < c)))
}

proof fn lemma_uniform_cols(f: FilterView, row: Seq<char>, c: char, n: int)
    requires
        f.fg.contains(c),
        display_width(c) == 1,
        0 <= n <= row.len(),
        forall|i: int| 0 <= i < row.len() ==> row[i] == c,
    ensures
        cols_before(f, row, n) == n,
    decreases n,
{
    if n > 0 {
        lemma_uniform_cols(f, row, c, n - 1);
    }
}

proof fn lemma_uniform_first_reaching(f: FilterView, row: Seq<char>, c: char, col: nat, k: int)
    requires
        f.fg.contains(c),
        display_width(c) == 1,
        0 <= k <= row.len(),
        k <= col,
        forall|i: int| 0 <= i < row.len() ==> row[i] == c,
    ensures
        first_reaching(f, row, col, k) == if col <= row.len() { col as int } else { row.len() as int },
    decreases row.len() - k,
{
    if k < row.len() {
        lemma_uniform_cols(f, row, c, k);
        if k < col {
            lemma_uniform_first_reaching(f, row, c, col, k + 1);
        }
    }
}

/// On a uniform grid a position holds the character exactly when it
/// lies on the grid.
pub proof fn lemma_uniform_holds(f: FilterView, rows: Seq<Seq<char>>, c: char, height: int, width: int, p: TextPosition)
    requires
        uniform(f, rows, c, height, width),
    ensures
        holds(f, rows, c, p) <==> p.row < height && p.col < width,
        char_at(f, rows, p) is Some ==> char_at(f, rows, p) == Some(c),
{
    if p.row < height {
        let row = rows[p.row as int];
        assert forall|i: int| 0 <= i < row.len() implies row[i] == c by {
            assert(rows[p.row as int][i] == c);
        }
        lemma_uniform_first_reaching(f, row, c, p.col as nat, 0);
        if p.col < width {
            lemma_uniform_cols(f, row, c, p.col as int);
            assert(cell_index(f, row, p.col as nat) == Some(p.col as int));
            assert(row[p.col as int] == c);
        }
    }
}

/// How many steps apart two positions are.
pub open spec fn steps_apart(a: TextPosition, b: TextPosition) -> int {
    (if a.row <= b.row { b.row - a.row } else { a.row - b.row }) + (if a.col <= b.col { b.col - a.col } else {
        a.col - b.col
    })
}

/// On a uniform grid every position of the grid is within reach of
/// every other.
pub proof fn lemma_uniform_reaches(
    f: FilterView,
    rows: Seq<Seq<char>>,
    c: char,
    height: int,
    width: int,
    anchor: TextPosition,
    p: TextPosition,
)
    requires
        uniform(f, rows, c, height, width),
        anchor.row < height,
        anchor.col < width,
        p.row < height,
        p.col < width,
    ensures
        reaches(f, rows, c, anchor, p),
    decreases steps_apart(anchor, p),
{
    lemma_uniform_holds(f, rows, c, height, width, anchor);
    lemma_uniform_holds(f, rows, c, height, width, p);
    if p == anchor {
        lemma_reaches_itself(f, rows, c, anchor);
    } else {
        let q = if p.row > anchor.row {
            TextPosition { row: (p.row - 1) as usize, col: p.col }
        } else if p.row < anchor.row {
            TextPosition { row: (p.row + 1) as usize, col: p.col }
        } else if p.col > anchor.col {
            TextPosition { row: p.row, col: (p.col - 1) as usize }
        } else {
            TextPosition { row: p.row, col: (p.col + 1) as usize }
        };
        lemma_uniform_reaches(f, rows, c, height, width, anchor, q);
        assert(adjacent(q, p));
        lemma_reaches_step(f, rows, c, anchor, q, p);
    }
}

/// Counting the positions of a grid in reading order.
proof fn lemma_grid_before_len(width: int, r: int, c: int)
    requires
        0 <= width <= usize::MAX,
        0 <= r <= usize::MAX,
        0 <= c <= width,
        r <= usize::MAX || c == 0,
    ensures
        grid_before(width, r, c).finite(),
        grid_before(width, r, c).len() == r * width + c,
    decreases r, c,
{
    broadcast use vstd::set::group_set_axioms;

    if c > 0 {
        lemma_grid_before_len(width, r, c - 1);
        let p = TextPosition { row: r as usize, col: (c - 1) as usize };
        assert(grid_before(width, r, c) =~= grid_before(width, r, c - 1).insert(p));
        assert(!grid_before(width, r, c - 1).contains(p));
    } else if r > 0 {
        lemma_grid_before_len(width, r - 1, width);
        assert(grid_before(width, r, 0) =~= grid_before(width, r - 1, width));
        assert(r * width == (r - 1) * width + width) by (nonlinear_arith);
    } else {
        assert(grid_before(width, 0, 0) =~= Set::<TextPosition>::empty());
        assert(r * width + c == 0) by (nonlinear_arith)
            requires
                r == 0,
                c == 0,
        ;
    }
}

/// A grid of `height` rows of `width` columns has `height * width`
/// positions.
pub proof fn lemma_grid_positions_len(height: int, width: int)
    requires
        0 <= height <= usize::MAX,
        0 <= width <= usize::MAX,
    ensures
        grid_positions(height, width).finite(),
        grid_positions(height, width).len() == height * width,
{
    lemma_grid_before_len(width, height, 0);
    assert(grid_positions(height, width) =~= grid_before(width, height, 0));
}

/// A fill anchored anywhere on a uniform grid covers the whole grid:
/// as many positions as the grid has rows times columns.
pub proof fn lemma_fill_of_uniform_grid(
    f: FilterView,
    rows: Seq<Seq<char>>,
    c: char,
    height: int,
    width: int,
    anchor: TextPosition,
)
    requires
        uniform(f, rows, c, height, width),
        anchor.row < height,
        anchor.col < width,
    ensures
        fill_region(f, rows, anchor) == grid_positions(height, width),
        fill_region(f, rows, anchor).finite(),
        fill_region(f, rows, anchor).len() == height * width,
{
    lemma_uniform_holds(f, rows, c, height, width, anchor);
    assert forall|p: TextPosition| fill_region(f, rows, anchor).contains(p) <==> grid_positions(
        height,
        width,
    ).contains(p) by {
        lemma_uniform_holds(f, rows, c, height, width, p);
        if p.row < height && p.col < width {
            lemma_uniform_reaches(f, rows, c, height, width, anchor, p);
        }
        if reaches(f, rows, c, anchor, p) {
            let path = choose|path: Seq<TextPosition>| #[trigger]
                is_walk(f, rows, c, path) && path[0] == anchor && path.last() == p;
            assert(holds(f, rows, c, path[path.len() - 1]));
        }
    }
    assert(fill_region(f, rows, anchor) =~= grid_positions(height, width));
    lemma_grid_positions_len(height, width);
}

/// Positions listed in reading order are as many as the set of them.
pub proof fn lemma_listed_once(positions: Seq<TextPosition>)
    requires
        in_reading_order(positions),
    ensures
        positions.len() == positions.to_set().len(),
{
    assert(positions.no_duplicates()) by {
        assert forall|i: int, j: int| 0 <= i < positions.len() && 0 <= j < positions.len() && i != j implies positions[i]
            != positions[j] by {
            if i < j {
                assert(positions[i].before(positions[j]));
            } else {
                assert(positions[j].before(positions[i]));
            }
        }
    }
    positions.unique_seq_to_set();
}

/// The positions that a fill marker lists on a uniform grid are as
/// many as the grid has rows times columns.
pub proof fn lemma_fill_marks_uniform_grid(
    f: FilterView,
    rows: Seq<Seq<char>>,
    c: char,
    height: int,
    width: int,
    anchor: TextPosition,
    marked: Seq<TextPosition>,
)
    requires
        uniform(f, rows, c, height, width),
        anchor.row < height,
        anchor.col < width,
        in_reading_order(marked),
        marked.to_set() == fill_region(f, rows, anchor),
    ensures
        marked.len() == height * width,
{
    lemma_fill_of_uniform_grid(f, rows, c, height, width, anchor);
    lemma_listed_once(marked);
}

} // verus!
