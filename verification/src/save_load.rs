//! What is saved is read back as it was.

use vstd::prelude::*;
use crate::buffer::{scan_lines, split_lines, strip_cr};
use crate::editor::Editor;

verus! {

/// Rows that can be told apart again after they were written one after
/// another: no row holds a line feed, and none ends in a carriage
/// return.
pub open spec fn rows_are_lines(rows: Seq<Seq<char>>) -> bool {
    &&& forall|r: int, i: int| 0 <= r < rows.len() && 0 <= i < rows[r].len() ==> #[trigger] rows[r][i] != '\n'
    &&& forall|r: int| 0 <= r < rows.len() && rows[r].len() > 0 ==> (#[trigger] rows[r]).last() != '\r'
}

/// Where row `n` starts in the saved text.
pub open spec fn row_start(rows: Seq<Seq<char>>, n: int) -> int {
    Editor::content(rows.take(n)).len() as int
}

/// The saved text, row by row: each row follows the one before it, and
/// a line feed follows each row.
proof fn lemma_content_layout(rows: Seq<Seq<char>>, n: int)
    requires
        0 <= n < rows.len(),
    ensures
        row_start(rows, n + 1) == row_start(rows, n) + rows[n].len() + 1,
        row_start(rows, n + 1) <= Editor::content(rows).len(),
        forall|j: int|
            0 <= j < rows[n].len() ==> #[trigger] Editor::content(rows)[row_start(rows, n) + j] == rows[n][j],
        Editor::content(rows)[row_start(rows, n) + rows[n].len()] == '\n',
    decreases rows.len(),
{
    let head = rows.drop_last();
    let text = Editor::content(rows);
    assert(text == Editor::content(head) + rows.last() + seq!['\n']);
    if n < rows.len() - 1 {
        lemma_content_layout(head, n);
        assert(head.take(n) =~= rows.take(n));
        assert(head.take(n + 1) =~= rows.take(n + 1));
        assert(head[n] == rows[n]);
        assert forall|j: int| 0 <= j < rows[n].len() implies #[trigger] text[row_start(rows, n) + j]
            == rows[n][j] by {
            assert(Editor::content(head)[row_start(head, n) + j] == head[n][j]);
        }
    } else {
        assert(rows.take(n) =~= head);
        assert(rows.take(n + 1) =~= rows);
    }
}

proof fn lemma_scan_row(rows: Seq<Seq<char>>, n: int, j: int)
    requires
        rows_are_lines(rows),
        0 <= n < rows.len(),
        0 <= j <= rows[n].len(),
        scan_lines(Editor::content(rows), row_start(rows, n)) == (rows.take(n), Seq::<char>::empty()),
    ensures
        scan_lines(Editor::content(rows), row_start(rows, n) + j) == (rows.take(n), rows[n].take(j)),
    decreases j,
{
    lemma_content_layout(rows, n);
    if j > 0 {
        lemma_scan_row(rows, n, j - 1);
        let text = Editor::content(rows);
        assert(text[row_start(rows, n) + (j - 1)] == rows[n][j - 1]);
        assert(rows[n].take(j - 1).push(rows[n][j - 1]) =~= rows[n].take(j));
    } else {
        assert(rows[n].take(0) =~= Seq::<char>::empty());
    }
}

proof fn lemma_scan_rows(rows: Seq<Seq<char>>, n: int)
    requires
        rows_are_lines(rows),
        0 <= n <= rows.len(),
    ensures
        scan_lines(Editor::content(rows), row_start(rows, n)) == (rows.take(n), Seq::<char>::empty()),
    decreases n,
{
    if n > 0 {
        lemma_scan_rows(rows, n - 1);
        lemma_content_layout(rows, n - 1);
        let row = rows[n - 1];
        lemma_scan_row(rows, n - 1, row.len() as int);
        assert(row.take(row.len() as int) =~= row);
        assert(strip_cr(row) == row);
        assert(rows.take(n - 1).push(row) =~= rows.take(n));
    } else {
        assert(rows.take(0) =~= Seq::<Seq<char>>::empty());
        assert(Editor::content(rows.take(0)).len() == 0);
    }
}

/// Saving and loading give back the rows: the lines of the saved text
/// are the rows that were saved, as long as no row holds a line feed or
/// ends in a carriage return.
pub proof fn lemma_saved_rows_load_back(rows: Seq<Seq<char>>)
    requires
        rows_are_lines(rows),
    ensures
        split_lines(Editor::content(rows)) == rows,
{
    lemma_scan_rows(rows, rows.len() as int);
    assert(rows.take(rows.len() as int) =~= rows);
}

/// Neither a line closed so far nor the open one holds a line feed.
proof fn lemma_scan_lines_no_line_feed(text: Seq<char>, n: int)
    requires
        0 <= n <= text.len(),
    ensures
        forall|i: int| 0 <= i < scan_lines(text, n).1.len() ==> #[trigger] scan_lines(text, n).1[i] != '\n',
        forall|r: int, i: int|
            0 <= r < scan_lines(text, n).0.len() && 0 <= i < scan_lines(text, n).0[r].len()
                ==> #[trigger] scan_lines(text, n).0[r][i] != '\n',
    decreases n,
{
    if n > 0 {
        lemma_scan_lines_no_line_feed(text, n - 1);
        let (done, open) = scan_lines(text, n - 1);
        let (done2, open2) = scan_lines(text, n);
        if text[n - 1] == '\n' {
            assert forall|r: int, i: int| 0 <= r < done2.len() && 0 <= i < done2[r].len() implies #[trigger] done2[r][i]
                != '\n' by {
                if r < done.len() {
                    assert(done2[r] == done[r]);
                } else {
                    assert(done2[r] == strip_cr(open));
                    assert(strip_cr(open)[i] == open[i]);
                }
            }
        } else {
            assert forall|i: int| 0 <= i < open2.len() implies #[trigger] open2[i] != '\n' by {
                if i < open.len() {
                    assert(open2[i] == open[i]);
                }
            }
        }
    }
}

/// No row of a text that was split into lines holds a line feed.
pub proof fn lemma_lines_hold_no_line_feed(text: Seq<char>)
    ensures
        forall|r: int, i: int|
            0 <= r < split_lines(text).len() && 0 <= i < split_lines(text)[r].len() ==> #[trigger] split_lines(
                text,
            )[r][i] != '\n',
{
    lemma_scan_lines_no_line_feed(text, text.len() as int);
    let (done, open) = scan_lines(text, text.len() as int);
    let lines = split_lines(text);
    assert forall|r: int, i: int| 0 <= r < lines.len() && 0 <= i < lines[r].len() implies #[trigger] lines[r][i]
        != '\n' by {
        if r < done.len() {
            assert(lines[r] == done[r]);
        } else {
            assert(lines[r] == open);
        }
    }
}

} // verus!
