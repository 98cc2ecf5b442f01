//! Undo takes edits back: the proof that it restores the rows exactly.

use vstd::prelude::*;
use crate::buffer::{
    applies, cell_char, cell_index, cols_before, first_reaching, put, replaced_by, rows_after,
    BufferView, FilterView, TextPosition,
};

verus! {

proof fn lemma_first_reaching_range(f: FilterView, row: Seq<char>, col: nat, k: int)
    requires
        0 <= k <= row.len(),
    ensures
        k <= first_reaching(f, row, col, k) <= row.len(),
    decreases row.len() - k,
{
    if k < row.len() && cols_before(f, row, k) < col {
        lemma_first_reaching_range(f, row, col, k + 1);
    }
}

/// Columns before a cell do not depend on the cells after it.
proof fn lemma_cols_before_prefix(f: FilterView, a: Seq<char>, b: Seq<char>, n: int)
    requires
        0 <= n <= a.len(),
        n <= b.len(),
        forall|k: int| 0 <= k < n ==> a[k] == b[k],
    ensures
        cols_before(f, a, n) == cols_before(f, b, n),
    decreases n,
{
    if n > 0 {
        lemma_cols_before_prefix(f, a, b, n - 1);
    }
}

/// Changing the character of a cell does not move the cell: the column
/// at which it starts still leads to it.
proof fn lemma_cell_stays(f: FilterView, row: Seq<char>, col: nat, i: int, c: char, k: int)
    requires
        0 <= k <= i < row.len(),
        first_reaching(f, row, col, k) == i,
    ensures
        first_reaching(f, row.update(i, c), col, k) == i,
        cols_before(f, row.update(i, c), i) == cols_before(f, row, i),
    decreases i - k,
{
    let changed = row.update(i, c);
    lemma_cols_before_prefix(f, row, changed, k);
    lemma_cols_before_prefix(f, row, changed, i);
    assert(changed.len() == row.len());
    if k < i {
        lemma_first_reaching_range(f, row, col, k + 1);
        assert(cols_before(f, row, k) < col);
        assert(first_reaching(f, row, col, k + 1) == i);
        lemma_cell_stays(f, row, col, i, c, k + 1);
        assert(first_reaching(f, changed, col, k) == first_reaching(f, changed, col, k + 1));
    } else {
        lemma_first_reaching_range(f, row, col, i + 1);
        assert(cols_before(f, row, i) >= col);
        assert(cols_before(f, changed, i) >= col);
    }
}

/// Putting back the character that a write replaced restores the grid.
pub proof fn lemma_put_back(f: FilterView, rows: Seq<Seq<char>>, p: TextPosition, a: char, gated: bool)
    requires
        applies(f, rows, p, a, gated),
    ensures
        put(f, put(f, rows, p, a, gated), p, cell_char(f, rows, p).unwrap(), false) == rows,
{
    let row = rows[p.row as int];
    lemma_first_reaching_range(f, row, p.col as nat, 0);
    let i = cell_index(f, row, p.col as nat).unwrap();
    let old = row[i];
    lemma_cell_stays(f, row, p.col as nat, i, a, 0);
    let wrote = put(f, rows, p, a, gated);
    assert(cell_index(f, wrote[p.row as int], p.col as nat) == Some(i));
    assert(applies(f, wrote, p, old, false));
    let back = put(f, wrote, p, old, false);
    assert(back[p.row as int] =~= row);
    assert(back =~= rows);
}

/// Writes made after one another: the first, then the rest.
proof fn lemma_rows_after_first(
    f: FilterView,
    rows: Seq<Seq<char>>,
    first: (TextPosition, char),
    rest: Seq<(TextPosition, char)>,
    gated: bool,
)
    ensures
        rows_after(f, rows, seq![first] + rest, gated) == rows_after(
            f,
            put(f, rows, first.0, first.1, gated),
            rest,
            gated,
        ),
    decreases rest.len(),
{
    let all = seq![first] + rest;
    if rest.len() == 0 {
        assert(all.drop_last() =~= Seq::<(TextPosition, char)>::empty());
        assert(rows_after(f, rows, all.drop_last(), gated) == rows);
    } else {
        assert(all.drop_last() =~= seq![first] + rest.drop_last());
        assert(all.last() == rest.last());
        lemma_rows_after_first(f, rows, first, rest.drop_last(), gated);
    }
}

/// Putting back what a bulk edit replaced, the last replaced first,
/// restores the grid.
pub proof fn lemma_replay_restores(
    f: FilterView,
    rows: Seq<Seq<char>>,
    ups: Seq<(TextPosition, char)>,
    gated: bool,
)
    ensures
        rows_after(
            f,
            rows_after(f, rows, ups, gated),
            replaced_by(f, rows, ups, gated).reverse(),
            false,
        ) == rows,
    decreases ups.len(),
{
    if ups.len() > 0 {
        let head = ups.drop_last();
        let (p, a) = ups.last();
        let mid = rows_after(f, rows, head, gated);
        let earlier = replaced_by(f, rows, head, gated);
        lemma_replay_restores(f, rows, head, gated);
        if applies(f, mid, p, a, gated) {
            let old = cell_char(f, mid, p).unwrap();
            let entry = earlier.push((p, old));
            assert(entry.reverse() =~= seq![(p, old)] + earlier.reverse());
            lemma_rows_after_first(f, put(f, mid, p, a, gated), (p, old), earlier.reverse(), false);
            lemma_put_back(f, mid, p, a, gated);
        }
    } else {
        assert(replaced_by(f, rows, ups, gated).reverse() =~= Seq::<(TextPosition, char)>::empty());
    }
}

impl BufferView {
    /// The buffer after the bulk edits `batches`, made one after another.
    pub open spec fn after_edits(self, batches: Seq<Seq<(TextPosition, char)>>) -> BufferView
        decreases batches.len(),
    {
        if batches.len() == 0 {
            self
        } else {
            self.after_edits(batches.drop_last()).after_update_bulk(batches.last())
        }
    }

    /// The buffer after `n` calls of undo; a call with nothing left to
    /// undo changes nothing.
    pub open spec fn after_undos(self, n: nat) -> BufferView
        decreases n,
    {
        if n == 0 || self.cursor == 0 {
            self
        } else {
            self.after_undo().after_undos((n - 1) as nat)
        }
    }

    /// Each of `batches`, made in turn, replaces at least one cell.
    pub open spec fn all_take_effect(self, batches: Seq<Seq<(TextPosition, char)>>) -> bool {
        forall|k: int|
            0 <= k < batches.len() ==> replaced_by(
                self.filter,
                (#[trigger] self.after_edits(batches.take(k))).rows,
                batches[k],
                true,
            ).len() > 0
    }
}

proof fn lemma_all_take_effect_head(b: BufferView, batches: Seq<Seq<(TextPosition, char)>>)
    requires
        b.all_take_effect(batches),
        batches.len() > 0,
    ensures
        b.all_take_effect(batches.drop_last()),
        replaced_by(b.filter, b.after_edits(batches.drop_last()).rows, batches.last(), true).len() > 0,
{
    let head = batches.drop_last();
    assert forall|k: int| 0 <= k < head.len() implies replaced_by(
        b.filter,
        (#[trigger] b.after_edits(head.take(k))).rows,
        head[k],
        true,
    ).len() > 0 by {
        assert(head.take(k) =~= batches.take(k));
        assert(head[k] == batches[k]);
    }
    assert(batches.take(batches.len() - 1) =~= head);
    let before = b.after_edits(batches.take(batches.len() - 1));
    assert(replaced_by(b.filter, before.rows, batches[batches.len() - 1], true).len() > 0);
}

proof fn lemma_after_edits_shape(b: BufferView, batches: Seq<Seq<(TextPosition, char)>>)
    requires
        !b.replaying,
        b.all_take_effect(batches),
    ensures
        b.after_edits(batches).filter == b.filter,
        !b.after_edits(batches).replaying,
        batches.len() > 0 ==> b.after_edits(batches).cursor == b.after_edits(batches).log.len(),
    decreases batches.len(),
{
    if batches.len() > 0 {
        lemma_all_take_effect_head(b, batches);
        lemma_after_edits_shape(b, batches.drop_last());
    }
}

proof fn lemma_undos_restore(b: BufferView, batches: Seq<Seq<(TextPosition, char)>>, v: BufferView)
    requires
        !b.replaying,
        b.all_take_effect(batches),
        v.filter == b.filter,
        v.rows == b.after_edits(batches).rows,
        batches.len() > 0 ==> v.cursor == b.after_edits(batches).log.len() && v.log.len() >= v.cursor
            && v.log.take(v.cursor as int) == b.after_edits(batches).log,
    ensures
        v.after_undos(batches.len()).rows == b.rows,
    decreases batches.len(),
{
    if batches.len() > 0 {
        let head = batches.drop_last();
        lemma_all_take_effect_head(b, batches);
        lemma_after_edits_shape(b, head);
        let before = b.after_edits(head);
        let entry = replaced_by(b.filter, before.rows, batches.last(), true);
        let now = b.after_edits(batches);
        assert(now == before.after_update_bulk(batches.last()));
        assert(now.log == before.log.push(entry));
        assert(v.cursor == before.log.len() + 1);
        assert(v.log[v.cursor - 1] == v.log.take(v.cursor as int)[v.cursor - 1]);
        assert(v.log[v.cursor - 1] == entry);
        lemma_replay_restores(b.filter, before.rows, batches.last(), true);
        let w = v.after_undo();
        assert(w.rows == before.rows);
        assert(w.log.take(w.cursor as int) =~= before.log) by {
            assert(w.log.take(w.cursor as int) =~= v.log.take(v.cursor as int).drop_last());
        }
        lemma_undos_restore(b, head, w);
    }
}

/// Undo is the inverse of editing: after any number of bulk edits, each
/// of which replaced at least one cell, as many undos bring back the
/// rows that were there before the first edit.
pub proof fn lemma_undo_round_trip(b: BufferView, batches: Seq<Seq<(TextPosition, char)>>)
    requires
        !b.replaying,
        b.all_take_effect(batches),
    ensures
        b.after_edits(batches).after_undos(batches.len()).rows == b.rows,
{
    lemma_after_edits_shape(b, batches);
    let now = b.after_edits(batches);
    assert(now.log.take(now.log.len() as int) =~= now.log);
    lemma_undos_restore(b, batches, now);
}

} // verus!
