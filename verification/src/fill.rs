//! Flood fill: the cells that can be reached from an anchor through
//! neighbouring cells holding the same character.

use vstd::prelude::*;
use crate::buffer::{
    cell_index, char_at, cols_before, first_reaching, in_reading_order, lemma_cols_before_bound,
    lemma_cols_before_monotone, max_row_len, row_cols, FilterView, TextBuffer, TextPosition,
};

verus! {

/// Two cells that share a side.
pub open spec fn adjacent(p: TextPosition, q: TextPosition) -> bool {
    ||| p.row == q.row && (p.col + 1 == q.col || q.col + 1 == p.col)
    ||| p.col == q.col && (p.row + 1 == q.row || q.row + 1 == p.row)
}

/// Whether the cell at `p` holds the foreground character `target`.
pub open spec fn holds(f: FilterView, rows: Seq<Seq<char>>, target: char, p: TextPosition) -> bool {
    char_at(f, rows, p) == Some(target)
}

/// A walk through cells that all hold `target`, each next to the one
/// before it.
pub open spec fn is_walk(f: FilterView, rows: Seq<Seq<char>>, target: char, path: Seq<TextPosition>) -> bool {
    &&& path.len() > 0
    &&& forall|i: int| 0 <= i < path.len() ==> holds(f, rows, target, #[trigger] path[i])
    &&& forall|i: int| 0 <= i < path.len() - 1 ==> adjacent(#[trigger] path[i], path[i + 1])
}

/// Whether some walk leads from `from` to `to`.
pub open spec fn reaches(
    f: FilterView,
    rows: Seq<Seq<char>>,
    target: char,
    from: TextPosition,
    to: TextPosition,
) -> bool {
    exists|path: Seq<TextPosition>| #[trigger]
        is_walk(f, rows, target, path) && path[0] == from && path.last() == to
}

/// The cells a fill anchored at `anchor` covers: those that a walk
/// reaches from the anchor through cells holding the anchor's character.
/// An anchor that holds no foreground character covers nothing.
pub open spec fn fill_region(f: FilterView, rows: Seq<Seq<char>>, anchor: TextPosition) -> Set<TextPosition> {
    match char_at(f, rows, anchor) {
        Some(target) => Set::new(|p: TextPosition| reaches(f, rows, target, anchor, p)),
        None => Set::empty(),
    }
}

/// The cells next to `p` that the fill looks at after visiting `p`.
pub open spec fn neighbours(p: TextPosition) -> Seq<TextPosition> {
    let up = if p.row > 0 {
        seq![TextPosition { row: (p.row - 1) as usize, col: p.col }]
    } else {
        Seq::empty()
    };
    let down = seq![TextPosition { row: (p.row + 1) as usize, col: p.col }];
    let left = if p.col > 0 {
        seq![TextPosition { row: p.row, col: (p.col - 1) as usize }]
    } else {
        Seq::empty()
    };
    let right = seq![TextPosition { row: p.row, col: (p.col + 1) as usize }];
    up + down + left + right
}

/// Whether the visit grid has `p` marked.
pub open spec fn marked(seen: Seq<Seq<bool>>, p: TextPosition) -> bool {
    p.row < seen.len() && p.col < seen[p.row as int].len() && seen[p.row as int][p.col as int]
}

/// The visit grid with `p` marked.
pub open spec fn mark(seen: Seq<Seq<bool>>, p: TextPosition) -> Seq<Seq<bool>> {
    seen.update(p.row as int, seen[p.row as int].update(p.col as int, true))
}

/// Number of unmarked cells among the first `n` of a row of the grid.
pub open spec fn unmarked_in_row(row: Seq<bool>, n: int) -> nat
    decreases n,
{
    if n <= 0 {
        0
    } else {
        unmarked_in_row(row, n - 1) + if row[n - 1] { 0nat } else { 1nat }
    }
}

/// Number of unmarked cells in the first `n` rows of the grid.
pub open spec fn unmarked(seen: Seq<Seq<bool>>, n: int) -> nat
    decreases n,
{
    if n <= 0 {
        0
    } else {
        unmarked(seen, n - 1) + unmarked_in_row(seen[n - 1], seen[n - 1].len() as int)
    }
}

proof fn lemma_mark_in_row(row: Seq<bool>, c: int, n: int)
    requires
        0 <= c < row.len(),
        !row[c],
        0 <= n <= row.len(),
    ensures
        unmarked_in_row(row.update(c, true), n) + (if c < n { 1nat } else { 0nat }) == unmarked_in_row(
            row,
            n,
        ),
    decreases n,
{
    if n > 0 {
        lemma_mark_in_row(row, c, n - 1);
    }
}

proof fn lemma_mark_counts(seen: Seq<Seq<bool>>, p: TextPosition, n: int)
    requires
        p.row < seen.len(),
        p.col < seen[p.row as int].len(),
        !seen[p.row as int][p.col as int],
        0 <= n <= seen.len(),
    ensures
        unmarked(mark(seen, p), n) + (if p.row < n { 1nat } else { 0nat }) == unmarked(seen, n),
    decreases n,
{
    if n > 0 {
        lemma_mark_counts(seen, p, n - 1);
        if p.row == n - 1 {
            lemma_mark_in_row(seen[p.row as int], p.col as int, seen[p.row as int].len() as int);
        }
    }
}

/// A position that holds a foreground character lies within its row, or
/// just at its end.
pub proof fn lemma_char_at_in_bounds(f: FilterView, rows: Seq<Seq<char>>, p: TextPosition)
    requires
        char_at(f, rows, p) is Some,
    ensures
        p.row < rows.len(),
        p.col <= row_cols(f, rows, p.row as int),
{
    let row = rows[p.row as int];
    let i = cell_index(f, row, p.col as nat).unwrap();
    lemma_first_reaching_bounds(f, row, p.col as nat, 0);
    lemma_cols_before_monotone(f, row, i, row.len() as int);
}

proof fn lemma_first_reaching_bounds(f: FilterView, row: Seq<char>, col: nat, k: int)
    requires
        0 <= k <= row.len(),
    ensures
        k <= first_reaching(f, row, col, k) <= row.len(),
    decreases row.len() - k,
{
    if k < row.len() && cols_before(f, row, k) < col {
        lemma_first_reaching_bounds(f, row, col, k + 1);
    }
}

/// Every cell has itself within reach when it holds the target.
pub proof fn lemma_reaches_itself(f: FilterView, rows: Seq<Seq<char>>, target: char, p: TextPosition)
    requires
        holds(f, rows, target, p),
    ensures
        reaches(f, rows, target, p, p),
{
    let path = seq![p];
    assert(is_walk(f, rows, target, path));
    assert(path[0] == p && path.last() == p);
}

/// A walk can be taken one cell further.
pub proof fn lemma_reaches_step(
    f: FilterView,
    rows: Seq<Seq<char>>,
    target: char,
    from: TextPosition,
    p: TextPosition,
    q: TextPosition,
)
    requires
        reaches(f, rows, target, from, p),
        adjacent(p, q),
        holds(f, rows, target, q),
    ensures
        reaches(f, rows, target, from, q),
{
    let path = choose|path: Seq<TextPosition>| #[trigger]
        is_walk(f, rows, target, path) && path[0] == from && path.last() == p;
    let longer = path.push(q);
    assert(is_walk(f, rows, target, longer)) by {
        assert forall|i: int| 0 <= i < longer.len() implies holds(f, rows, target, #[trigger] longer[i]) by {
            if i < path.len() {
                assert(longer[i] == path[i]);
            }
        }
        assert forall|i: int| 0 <= i < longer.len() - 1 implies adjacent(
            #[trigger] longer[i],
            longer[i + 1],
        ) by {
            if i < path.len() - 1 {
                assert(longer[i] == path[i] && longer[i + 1] == path[i + 1]);
            }
        }
    }
    assert(longer[0] == from && longer.last() == q);
}

/// What holds of the visit grid and the pending stack throughout a fill.
#[verifier::opaque]
pub open spec fn fill_inv(
    f: FilterView,
    rows: Seq<Seq<char>>,
    target: char,
    start: TextPosition,
    seen: Seq<Seq<bool>>,
    stack: Seq<TextPosition>,
) -> bool {
    &&& seen.len() == rows.len()
    &&& forall|r: int| 0 <= r < seen.len() ==> (#[trigger] seen[r]).len() == row_cols(f, rows, r) + 1
    &&& forall|p: TextPosition| #[trigger] marked(seen, p) ==> reaches(f, rows, target, start, p)
    &&& forall|k: int|
        0 <= k < stack.len() && holds(f, rows, target, #[trigger] stack[k]) ==> reaches(
            f,
            rows,
            target,
            start,
            stack[k],
        )
    &&& forall|p: TextPosition, q: TextPosition|
        #![trigger marked(seen, p), adjacent(p, q)]
        marked(seen, p) && adjacent(p, q) && holds(f, rows, target, q) ==> marked(seen, q)
            || stack.contains(q)
    &&& marked(seen, start) || stack.contains(start)
}

/// A fill begins with nothing visited and the start pending.
proof fn lemma_fill_start(f: FilterView, rows: Seq<Seq<char>>, target: char, start: TextPosition, seen: Seq<Seq<bool>>)
    requires
        holds(f, rows, target, start),
        seen.len() == rows.len(),
        forall|r: int| 0 <= r < seen.len() ==> (#[trigger] seen[r]).len() == row_cols(f, rows, r) + 1,
        forall|p: TextPosition| !marked(seen, p),
    ensures
        fill_inv(f, rows, target, start, seen, seq![start]),
{
    reveal(fill_inv);
    lemma_reaches_itself(f, rows, target, start);
    assert(seq![start][0] == start);
}

/// The visit grid has one flag for every column of every row, and one
/// for the column after its end.
proof fn lemma_fill_shape(
    f: FilterView,
    rows: Seq<Seq<char>>,
    target: char,
    start: TextPosition,
    seen: Seq<Seq<bool>>,
    stack: Seq<TextPosition>,
    r: int,
)
    requires
        fill_inv(f, rows, target, start, seen, stack),
        0 <= r < rows.len(),
    ensures
        seen.len() == rows.len(),
        seen[r].len() == row_cols(f, rows, r) + 1,
{
    reveal(fill_inv);
}

proof fn lemma_drop_last_contains(stack: Seq<TextPosition>, q: TextPosition)
    requires
        stack.len() > 0,
        stack.contains(q),
        q != stack.last(),
    ensures
        stack.drop_last().contains(q),
{
    let k = choose|k: int| 0 <= k < stack.len() && stack[k] == q;
    assert(stack.drop_last()[k] == q);
}

/// Setting aside a pending cell that does not hold the target, or that
/// has been visited already, keeps the fill on course.
proof fn lemma_fill_skip(
    f: FilterView,
    rows: Seq<Seq<char>>,
    target: char,
    start: TextPosition,
    seen: Seq<Seq<bool>>,
    stack: Seq<TextPosition>,
)
    requires
        fill_inv(f, rows, target, start, seen, stack),
        holds(f, rows, target, start),
        stack.len() > 0,
        !holds(f, rows, target, stack.last()) || marked(seen, stack.last()),
    ensures
        fill_inv(f, rows, target, start, seen, stack.drop_last()),
{
    reveal(fill_inv);
    let rest = stack.drop_last();
    assert forall|k: int| 0 <= k < rest.len() && holds(f, rows, target, #[trigger] rest[k]) implies reaches(
        f,
        rows,
        target,
        start,
        rest[k],
    ) by {
        assert(rest[k] == stack[k]);
    }
    assert forall|p: TextPosition, q: TextPosition|
        #![trigger marked(seen, p), adjacent(p, q)]
        marked(seen, p) && adjacent(p, q) && holds(f, rows, target, q) implies marked(seen, q)
            || rest.contains(q) by {
        if !marked(seen, q) {
            lemma_drop_last_contains(stack, q);
        }
    }
    if !marked(seen, start) {
        lemma_drop_last_contains(stack, start);
    }
}

/// Visiting a pending cell that holds the target and was not visited
/// before, and queueing its neighbours, keeps the fill on course and
/// leaves one cell fewer to visit.
proof fn lemma_fill_visit(
    f: FilterView,
    rows: Seq<Seq<char>>,
    target: char,
    start: TextPosition,
    seen: Seq<Seq<bool>>,
    stack: Seq<TextPosition>,
)
    requires
        fill_inv(f, rows, target, start, seen, stack),
        stack.len() > 0,
        holds(f, rows, target, stack.last()),
        !marked(seen, stack.last()),
        stack.last().row < usize::MAX,
        stack.last().col < usize::MAX,
    ensures
        stack.last().row < seen.len(),
        stack.last().col < seen[stack.last().row as int].len(),
        fill_inv(
            f,
            rows,
            target,
            start,
            mark(seen, stack.last()),
            stack.drop_last() + neighbours(stack.last()),
        ),
        unmarked(mark(seen, stack.last()), seen.len() as int) + 1 == unmarked(seen, seen.len() as int),
{
    reveal(fill_inv);
    let cur = stack.last();
    let rest = stack.drop_last();
    let next = rest + neighbours(cur);
    let seen2 = mark(seen, cur);
    lemma_char_at_in_bounds(f, rows, cur);
    assert(seen[cur.row as int].len() == row_cols(f, rows, cur.row as int) + 1);
    lemma_mark_counts(seen, cur, seen.len() as int);
    assert(reaches(f, rows, target, start, cur)) by {
        assert(stack[stack.len() - 1] == cur);
    }
    assert forall|r: int| 0 <= r < seen2.len() implies (#[trigger] seen2[r]).len() == row_cols(f, rows, r)
        + 1 by {
        assert(seen[r].len() == row_cols(f, rows, r) + 1);
    }
    assert forall|p: TextPosition| #[trigger] marked(seen2, p) implies reaches(f, rows, target, start, p) by {
        if p != cur {
            assert(marked(seen, p));
        }
    }
    assert forall|k: int| 0 <= k < next.len() && holds(f, rows, target, #[trigger] next[k]) implies reaches(
        f,
        rows,
        target,
        start,
        next[k],
    ) by {
        if k < rest.len() {
            assert(next[k] == stack[k]);
        } else {
            let n = neighbours(cur);
            assert(next[k] == n[k - rest.len()]);
            lemma_neighbours_adjacent(cur, k - rest.len());
            lemma_reaches_step(f, rows, target, start, cur, next[k]);
        }
    }
    assert forall|p: TextPosition, q: TextPosition|
        #![trigger marked(seen2, p), adjacent(p, q)]
        marked(seen2, p) && adjacent(p, q) && holds(f, rows, target, q) implies marked(seen2, q)
            || next.contains(q) by {
        if p == cur {
            lemma_neighbours_cover(cur, q);
            let n = neighbours(cur);
            let k = choose|k: int| 0 <= k < n.len() && n[k] == q;
            assert(next[rest.len() + k] == q);
        } else {
            assert(marked(seen, p));
            if marked(seen, q) {
                assert(marked(seen2, q));
            } else if q == cur {
                assert(marked(seen2, q));
            } else {
                lemma_drop_last_contains(stack, q);
                let k = choose|k: int| 0 <= k < rest.len() && rest[k] == q;
                assert(next[k] == q);
            }
        }
    }
    if marked(seen, start) {
        assert(marked(seen2, start));
    } else if start == cur {
        assert(marked(seen2, start));
    } else {
        lemma_drop_last_contains(stack, start);
        let k = choose|k: int| 0 <= k < rest.len() && rest[k] == start;
        assert(next[k] == start);
    }
}

proof fn lemma_neighbours_adjacent(p: TextPosition, k: int)
    requires
        p.row < usize::MAX,
        p.col < usize::MAX,
        0 <= k < neighbours(p).len(),
    ensures
        adjacent(p, neighbours(p)[k]),
{
}

proof fn lemma_neighbours_cover(p: TextPosition, q: TextPosition)
    requires
        adjacent(p, q),
    ensures
        neighbours(p).contains(q),
{
    let n = neighbours(p);
    let ups: int = if p.row > 0 { 1 } else { 0 };
    let lefts: int = if p.col > 0 { 1 } else { 0 };
    if p.col == q.col && q.row + 1 == p.row {
        assert(n[0] == q);
    } else if p.col == q.col && p.row + 1 == q.row {
        assert(n[ups] == q);
    } else if p.row == q.row && q.col + 1 == p.col {
        assert(n[ups + 1] == q);
    } else {
        assert(n[ups + 1 + lefts] == q);
    }
}

/// When nothing is pending any more, the visited cells are exactly those
/// within reach of the start.
proof fn lemma_fill_done(
    f: FilterView,
    rows: Seq<Seq<char>>,
    target: char,
    start: TextPosition,
    seen: Seq<Seq<bool>>,
    p: TextPosition,
)
    requires
        fill_inv(f, rows, target, start, seen, Seq::empty()),
    ensures
        marked(seen, p) <==> reaches(f, rows, target, start, p),
{
    reveal(fill_inv);
    if reaches(f, rows, target, start, p) {
        let path = choose|path: Seq<TextPosition>| #[trigger]
            is_walk(f, rows, target, path) && path[0] == start && path.last() == p;
        lemma_walk_stays_marked(f, rows, target, start, seen, path, path.len() - 1);
    }
}

proof fn lemma_walk_stays_marked(
    f: FilterView,
    rows: Seq<Seq<char>>,
    target: char,
    start: TextPosition,
    seen: Seq<Seq<bool>>,
    path: Seq<TextPosition>,
    i: int,
)
    requires
        fill_inv(f, rows, target, start, seen, Seq::empty()),
        is_walk(f, rows, target, path),
        path[0] == start,
        0 <= i < path.len(),
    ensures
        marked(seen, path[i]),
    decreases i,
{
    reveal(fill_inv);
    let none = Seq::<TextPosition>::empty();
    if i == 0 {
        assert(!none.contains(start));
    } else {
        lemma_walk_stays_marked(f, rows, target, start, seen, path, i - 1);
        assert(adjacent(path[i - 1], path[i - 1 + 1]));
        assert(holds(f, rows, target, path[i]));
        assert(!none.contains(path[i]));
    }
}

/// The visit grid as plain sequences.
pub open spec fn grid_of(seen: Seq<Vec<bool>>) -> Seq<Seq<bool>> {
    Seq::new(seen.len(), |i: int| seen[i]@)
}

/// A visit grid for `buffer` with nothing marked: one flag for every
/// column of every row, and one for the column after its end.
fn blank_grid(buffer: &TextBuffer) -> (seen: Vec<Vec<bool>>)
    requires
        buffer.wf(),
    ensures
        seen@.len() == buffer@.rows.len(),
        forall|r: int|
            0 <= r < seen@.len() ==> (#[trigger] grid_of(seen@)[r]).len() == row_cols(
                buffer@.filter,
                buffer@.rows,
                r,
            ) + 1,
        forall|p: TextPosition| !marked(grid_of(seen@), p),
{
    let mut seen: Vec<Vec<bool>> = Vec::new();
    let mut r: usize = 0;
    while r < buffer.rows()
        invariant
            buffer.wf(),
            r <= buffer@.rows.len(),
            seen@.len() == r,
            forall|k: int|
                0 <= k < r ==> (#[trigger] seen@[k])@.len() == row_cols(buffer@.filter, buffer@.rows, k)
                    + 1,
            forall|k: int, c: int| 0 <= k < r && 0 <= c < seen@[k]@.len() ==> !(#[trigger] seen@[k]@[c]),
        decreases buffer@.rows.len() - r,
    {
        let n = buffer.cols(r);
        proof {
            let row = buffer@.rows[r as int];
            lemma_cols_before_bound(buffer@.filter, row, row.len() as int);
            assert(row.len() <= max_row_len());
        }
        let flags: Vec<bool> = vec![false; n + 1];
        seen.push(flags);
        r += 1;
    }
    seen
}

/// The marked cells of the visit grid, in reading order.
fn marked_cells(seen: &Vec<Vec<bool>>) -> (out: Vec<TextPosition>)
    ensures
        in_reading_order(out@),
        forall|p: TextPosition| out@.contains(p) <==> marked(grid_of(seen@), p),
{
    let ghost g = grid_of(seen@);
    let mut out: Vec<TextPosition> = Vec::new();
    let mut r: usize = 0;
    while r < seen.len()
        invariant
            r <= seen.len(),
            g == grid_of(seen@),
            in_reading_order(out@),
            forall|p: TextPosition|
                #![trigger out@.contains(p)]
                #![trigger marked(g, p)]
                out@.contains(p) <==> marked(g, p) && p.row < r,
        decreases seen.len() - r,
    {
        let flags = &seen[r];
        assert(flags@ == g[r as int]);
        let mut c: usize = 0;
        while c < flags.len()
            invariant
                r < seen.len(),
                c <= flags.len(),
                flags@ == g[r as int],
                g == grid_of(seen@),
                in_reading_order(out@),
                forall|p: TextPosition|
                    #![trigger out@.contains(p)]
                    #![trigger marked(g, p)]
                    out@.contains(p) <==> marked(g, p) && (p.row < r || (p.row == r && p.col < c)),
            decreases flags.len() - c,
        {
            if flags[c] {
                let ghost before = out@;
                let here = TextPosition { row: r, col: c };
                out.push(here);
                assert(in_reading_order(out@)) by {
                    assert forall|i: int, j: int| 0 <= i < j < out@.len() implies out@[i].before(
                        out@[j],
                    ) by {
                        if j == before.len() {
                            assert(before[i] == out@[i]);
                            assert(before.contains(before[i]));
                            assert(marked(g, before[i]));
                        } else {
                            assert(before[i] == out@[i] && before[j] == out@[j]);
                        }
                    }
                }
                assert(marked(g, here));
                assert forall|p: TextPosition|
                    #![trigger out@.contains(p)]
                    #![trigger marked(g, p)]
                    out@.contains(p) <==> marked(g, p) && (p.row < r || (p.row == r && p.col < c + 1)) by {
                    if out@.contains(p) {
                        let k = choose|k: int| 0 <= k < out@.len() && out@[k] == p;
                        if k < before.len() {
                            assert(before[k] == p);
                            assert(before.contains(p));
                        }
                    }
                    if before.contains(p) {
                        let k = choose|k: int| 0 <= k < before.len() && before[k] == p;
                        assert(out@[k] == p);
                    }
                    if p == here {
                        assert(out@[before.len() as int] == p);
                    }
                }
            }
            c += 1;
        }
        r += 1;
    }
    out
}

/// The cells that a fill anchored at `start` covers, in reading order.
///
/// The fill spreads from the anchor to the cells above, below, left and
/// right for as long as they hold the same foreground character as the
/// anchor. It keeps its pending cells on a stack of its own, so that the
/// size of the region does not bear on the depth of calls.
pub fn flood_fill(buffer: &TextBuffer, start: TextPosition) -> (out: Vec<TextPosition>)
    requires
        buffer.wf(),
    ensures
        in_reading_order(out@),
        out@.to_set() == fill_region(buffer@.filter, buffer@.rows, start),
{
    let ghost f = buffer@.filter;
    let ghost rows = buffer@.rows;
    let target = match buffer.get_char_at(start) {
        Some(c) => c,
        None => {
            let none: Vec<TextPosition> = Vec::new();
            assert(none@.to_set() =~= fill_region(f, rows, start));
            return none;
        },
    };
    let mut seen = blank_grid(buffer);
    let height = buffer.rows();
    let mut stack: Vec<TextPosition> = Vec::new();
    stack.push(start);
    proof {
        assert(stack@ =~= seq![start]);
        lemma_fill_start(f, rows, target, start, grid_of(seen@));
    }
    while stack.len() > 0
        invariant
            buffer.wf(),
            f == buffer@.filter,
            rows == buffer@.rows,
            rows.len() == height,
            holds(f, rows, target, start),
            fill_inv(f, rows, target, start, grid_of(seen@), stack@),
        decreases unmarked(grid_of(seen@), seen@.len() as int), stack@.len(),
    {
        let ghost s0 = stack@;
        let ghost g0 = grid_of(seen@);
        let cur = stack.pop().unwrap();
        assert(cur == s0.last() && stack@ == s0.drop_last());
        let here = buffer.get_char_at(cur);
        let on_target = match here {
            Some(c) => c == target,
            None => false,
        };
        if on_target {
            proof {
                lemma_char_at_in_bounds(f, rows, cur);
                let row = rows[cur.row as int];
                lemma_cols_before_bound(f, row, row.len() as int);
                assert(row.len() <= max_row_len());
                lemma_fill_shape(f, rows, target, start, g0, s0, cur.row as int);
                assert(seen@[cur.row as int]@ == g0[cur.row as int]);
            }
            if !seen[cur.row][cur.col] {
                proof {
                    lemma_fill_visit(f, rows, target, start, g0, s0);
                }
                seen[cur.row][cur.col] = true;
                assert(grid_of(seen@) =~= mark(g0, cur));
                if cur.row > 0 {
                    stack.push(TextPosition { row: cur.row - 1, col: cur.col });
                }
                stack.push(TextPosition { row: cur.row + 1, col: cur.col });
                if cur.col > 0 {
                    stack.push(TextPosition { row: cur.row, col: cur.col - 1 });
                }
                stack.push(TextPosition { row: cur.row, col: cur.col + 1 });
                assert(stack@ =~= s0.drop_last() + neighbours(cur));
            } else {
                proof {
                    lemma_fill_skip(f, rows, target, start, g0, s0);
                }
            }
        } else {
            proof {
                lemma_fill_skip(f, rows, target, start, g0, s0);
            }
        }
    }
    let out = marked_cells(&seen);
    proof {
        assert(stack@ =~= Seq::<TextPosition>::empty());
        assert forall|p: TextPosition| out@.to_set().contains(p) <==> fill_region(f, rows, start).contains(
            p,
        ) by {
            lemma_fill_done(f, rows, target, start, grid_of(seen@), p);
        }
        assert(out@.to_set() =~= fill_region(f, rows, start));
    }
    out
}

} // verus!
