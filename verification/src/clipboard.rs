//! The clipboard: the cells lifted from a selection, kept relative to
//! their top-left corner so that they can be placed elsewhere.

use vstd::prelude::*;
use crate::buffer::{char_at, TextBuffer, TextPosition};
use crate::marker::Marker;

verus! {

/// Captured cells in reading order of their positions, none twice.
pub open spec fn pixels_in_order(pixels: Seq<(TextPosition, char)>) -> bool {
    forall|i: int, j: int| 0 <= i < j < pixels.len() ==> pixels[i].0.before(pixels[j].0)
}

/// The character stored for `at`, if any.
pub open spec fn lookup(pixels: Seq<(TextPosition, char)>, at: TextPosition) -> Option<char>
    decreases pixels.len(),
{
    if pixels.len() == 0 {
        None
    } else if pixels.last().0 == at {
        Some(pixels.last().1)
    } else {
        lookup(pixels.drop_last(), at)
    }
}

/// Whether a selection captures the cell at `p`: it must hold a
/// foreground character other than the canvas character.
pub open spec fn captured(buffer: &TextBuffer, canvas: char, p: TextPosition) -> bool {
    char_at(buffer@.filter, buffer@.rows, p) matches Some(c) && c != canvas
}

/// What a clipboard holds.
pub struct ClipboardView {
    /// Top-left corner of the captured cells, in buffer coordinates.
    pub anchor: TextPosition,
    /// Where the cursor was when the cells were captured.
    pub original_cursor: TextPosition,
    /// Where the cursor is now; the captured cells move with it.
    pub cursor: TextPosition,
    /// The captured characters, by position relative to the anchor.
    pub pixels: Seq<(TextPosition, char)>,
}

impl ClipboardView {
    /// The relative position that the buffer position `pos` has under
    /// the current placement: `pos`, moved by the way from the current
    /// cursor back to where the cursor was at capture, and taken from the
    /// anchor. A position above or left of the anchor has none.
    pub open spec fn local(self, pos: TextPosition) -> Option<TextPosition> {
        let row = pos.row + self.original_cursor.row - self.cursor.row - self.anchor.row;
        let col = pos.col + self.original_cursor.col - self.cursor.col - self.anchor.col;
        if 0 <= row <= usize::MAX && 0 <= col <= usize::MAX {
            Some(TextPosition { row: row as usize, col: col as usize })
        } else {
            None
        }
    }

    /// The captured character that the current placement puts at `pos`.
    pub open spec fn get(self, pos: TextPosition) -> Option<char> {
        match self.local(pos) {
            Some(at) => lookup(self.pixels, at),
            None => None,
        }
    }

    /// Where the current placement puts the relative position `rel`, if
    /// that is on the grid.
    pub open spec fn target(self, rel: TextPosition) -> Option<TextPosition> {
        let row = rel.row + self.anchor.row + self.cursor.row - self.original_cursor.row;
        let col = rel.col + self.anchor.col + self.cursor.col - self.original_cursor.col;
        if 0 <= row <= usize::MAX && 0 <= col <= usize::MAX {
            Some(TextPosition { row: row as usize, col: col as usize })
        } else {
            None
        }
    }

    /// The first `n` captured cells where the current placement puts
    /// them, without those that it moves off the grid.
    pub open spec fn placed_upto(self, n: int) -> Seq<(TextPosition, char)>
        decreases n,
    {
        if n <= 0 {
            Seq::empty()
        } else {
            match self.target(self.pixels[n - 1].0) {
                Some(p) => self.placed_upto(n - 1).push((p, self.pixels[n - 1].1)),
                None => self.placed_upto(n - 1),
            }
        }
    }

    /// The captured cells where the current placement puts them: what a
    /// paste writes.
    pub open spec fn placed(self) -> Seq<(TextPosition, char)> {
        self.placed_upto(self.pixels.len() as int)
    }
}

/// Cells captured from a selection, placed relative to the cursor.
#[derive(Debug)]
pub struct Clipboard {
    pub original_cursor: TextPosition,
    pub cursor: TextPosition,
    pub(crate) anchor: TextPosition,
    pub(crate) pixels: Vec<(TextPosition, char)>,
}

impl View for Clipboard {
    type V = ClipboardView;

    open(crate) spec fn view(&self) -> ClipboardView {
        ClipboardView {
            anchor: self.anchor,
            original_cursor: self.original_cursor,
            cursor: self.cursor,
            pixels: self.pixels@,
        }
    }
}

/// In a list in reading order a position occurs once, so that the list
/// stores one character for it.
pub proof fn lemma_lookup_found(pixels: Seq<(TextPosition, char)>, i: int)
    requires
        pixels_in_order(pixels),
        0 <= i < pixels.len(),
    ensures
        lookup(pixels, pixels[i].0) == Some(pixels[i].1),
    decreases pixels.len(),
{
    if i < pixels.len() - 1 {
        assert(pixels[i].0.before(pixels[pixels.len() - 1].0));
        let head = pixels.drop_last();
        assert(pixels_in_order(head)) by {
            assert forall|a: int, b: int| 0 <= a < b < head.len() implies head[a].0.before(head[b].0) by {
                assert(head[a] == pixels[a] && head[b] == pixels[b]);
            }
        }
        assert(head[i] == pixels[i]);
        lemma_lookup_found(head, i);
    }
}

/// A position that the list does not hold has no character stored.
pub proof fn lemma_lookup_absent(pixels: Seq<(TextPosition, char)>, at: TextPosition)
    requires
        forall|k: int| 0 <= k < pixels.len() ==> (#[trigger] pixels[k]).0 != at,
    ensures
        lookup(pixels, at) is None,
    decreases pixels.len(),
{
    if pixels.len() > 0 {
        let head = pixels.drop_last();
        assert(pixels[pixels.len() - 1].0 != at);
        assert forall|k: int| 0 <= k < head.len() implies (#[trigger] head[k]).0 != at by {
            assert(head[k] == pixels[k]);
        }
        lemma_lookup_absent(head, at);
    }
}

/// A stored character belongs to a cell of the list.
pub proof fn lemma_lookup_listed(pixels: Seq<(TextPosition, char)>, at: TextPosition) -> (k: int)
    requires
        lookup(pixels, at) is Some,
    ensures
        0 <= k < pixels.len(),
        pixels[k] == (at, lookup(pixels, at).unwrap()),
    decreases pixels.len(),
{
    if pixels.last().0 == at {
        pixels.len() - 1
    } else {
        let k = lemma_lookup_listed(pixels.drop_last(), at);
        assert(pixels.drop_last()[k] == pixels[k]);
        k
    }
}

/// Puts a captured cell into a list kept in reading order; a cell
/// already listed at that position is replaced.
fn insert_pixel(pixels: &mut Vec<(TextPosition, char)>, pos: TextPosition, c: char)
    requires
        pixels_in_order(old(pixels)@),
    ensures
        pixels_in_order(final(pixels)@),
        lookup(final(pixels)@, pos) == Some(c),
        forall|q: TextPosition| q != pos ==> lookup(final(pixels)@, q) == lookup(old(pixels)@, q),
{
    let ghost before = pixels@;
    let mut i: usize = pixels.len();
    while i > 0 && !pixels[i - 1].0.precedes(&pos)
        invariant
            i <= pixels.len(),
            pixels@ == before,
            forall|j: int| i <= j < before.len() ==> !before[j].0.before(pos),
        decreases i,
    {
        i -= 1;
    }
    if i < pixels.len() && pixels[i].0 == pos {
        pixels[i] = (pos, c);
        let ghost after = pixels@;
        assert(pixels_in_order(after)) by {
            assert forall|a: int, b: int| 0 <= a < b < after.len() implies after[a].0.before(after[b].0) by {
                assert(after[a].0 == before[a].0 && after[b].0 == before[b].0);
            }
        }
        proof {
            lemma_lookup_found(after, i as int);
            assert forall|q: TextPosition| q != pos implies lookup(after, q) == lookup(before, q) by {
                lemma_lookup_same(before, after, q, pos);
            }
        }
    } else {
        pixels.insert(i, (pos, c));
        let ghost after = pixels@;
        assert(after == before.insert(i as int, (pos, c)));
        assert(pixels_in_order(after)) by {
            assert forall|a: int, b: int| 0 <= a < b < after.len() implies after[a].0.before(after[b].0) by {
                if i > 0 {
                    assert(before[i - 1].0.before(pos));
                }
                if a < i {
                    assert(after[a] == before[a]);
                    if a < i - 1 {
                        assert(before[a].0.before(before[i - 1].0));
                    }
                }
                if a > i {
                    assert(after[a] == before[a - 1]);
                }
                if b > i {
                    assert(after[b] == before[b - 1]);
                    assert(!before[b - 1].0.before(pos));
                    if b - 1 > i {
                        assert(before[i as int].0.before(before[b - 1].0));
                    }
                    assert(!before[i as int].0.before(pos));
                }
                if b < i {
                    assert(after[b] == before[b]);
                }
            }
        }
        proof {
            lemma_lookup_found(after, i as int);
            assert forall|q: TextPosition| q != pos implies lookup(after, q) == lookup(before, q) by {
                lemma_lookup_inserted(before, i as int, (pos, c), q);
            }
        }
    }
}

proof fn lemma_lookup_same(
    before: Seq<(TextPosition, char)>,
    after: Seq<(TextPosition, char)>,
    q: TextPosition,
    pos: TextPosition,
)
    requires
        pixels_in_order(before),
        pixels_in_order(after),
        before.len() == after.len(),
        q != pos,
        forall|k: int| 0 <= k < before.len() ==> before[k].0 == after[k].0,
        forall|k: int| 0 <= k < before.len() && before[k].0 != pos ==> before[k] == after[k],
    ensures
        lookup(after, q) == lookup(before, q),
{
    if exists|k: int| 0 <= k < before.len() && before[k].0 == q {
        let k = choose|k: int| 0 <= k < before.len() && before[k].0 == q;
        lemma_lookup_found(before, k);
        assert(after[k].0 == q);
        lemma_lookup_found(after, k);
    } else {
        assert forall|k: int| 0 <= k < after.len() implies (#[trigger] after[k]).0 != q by {
            assert(before[k].0 == after[k].0);
        }
        lemma_lookup_absent(before, q);
        lemma_lookup_absent(after, q);
    }
}

proof fn lemma_lookup_inserted(
    before: Seq<(TextPosition, char)>,
    i: int,
    new: (TextPosition, char),
    q: TextPosition,
)
    requires
        pixels_in_order(before),
        pixels_in_order(before.insert(i, new)),
        0 <= i <= before.len(),
        q != new.0,
    ensures
        lookup(before.insert(i, new), q) == lookup(before, q),
{
    let after = before.insert(i, new);
    if exists|k: int| 0 <= k < before.len() && before[k].0 == q {
        let k = choose|k: int| 0 <= k < before.len() && before[k].0 == q;
        lemma_lookup_found(before, k);
        let k2 = if k < i { k } else { k + 1 };
        assert(after[k2] == before[k]);
        lemma_lookup_found(after, k2);
    } else {
        assert forall|k: int| 0 <= k < after.len() implies (#[trigger] after[k]).0 != q by {
            if k < i {
                assert(before[k] == after[k]);
            } else if k > i {
                assert(before[k - 1] == after[k]);
            }
        }
        lemma_lookup_absent(before, q);
        lemma_lookup_absent(after, q);
    }
}

/// What a selection captures at `p`: the character there, if `p` is
/// marked and holds a foreground character other than the canvas
/// character.
pub open spec fn capture_at(buffer: &TextBuffer, canvas: char, marks: Seq<TextPosition>, p: TextPosition) -> Option<
    char,
> {
    if marks.contains(p) && captured(buffer, canvas, p) {
        char_at(buffer@.filter, buffer@.rows, p)
    } else {
        None
    }
}

/// Whether `anchor` is the top-left corner of what a selection captures:
/// its row is the least row of a captured cell, its column the least
/// column of one.
pub open spec fn is_top_left(buffer: &TextBuffer, canvas: char, marks: Seq<TextPosition>, anchor: TextPosition) -> bool {
    &&& forall|p: TextPosition| capture_at(buffer, canvas, marks, p) is Some ==> anchor.row <= p.row && anchor.col <= p.col
    &&& exists|p: TextPosition| capture_at(buffer, canvas, marks, p) is Some && p.row == anchor.row
    &&& exists|p: TextPosition| capture_at(buffer, canvas, marks, p) is Some && p.col == anchor.col
}

/// Whether the placement of `me` puts its `k`-th captured cell at `p`.
pub open spec fn lands_on(me: ClipboardView, k: int, p: TextPosition) -> bool {
    me.local(p) == Some(me.pixels[k].0)
}

/// Whether the list holds a cell at `p`.
pub open spec fn lists(pixels: Seq<(TextPosition, char)>, p: TextPosition) -> bool {
    exists|j: int| 0 <= j < pixels.len() && pixels[j].0 == p
}

/// The character stored for `at`, found by halving the list.
fn find_pixel(pixels: &Vec<(TextPosition, char)>, at: TextPosition) -> (c: Option<char>)
    requires
        pixels_in_order(pixels@),
    ensures
        c == lookup(pixels@, at),
{
    let mut lo: usize = 0;
    let mut hi: usize = pixels.len();
    while lo < hi
        invariant
            lo <= hi <= pixels.len(),
            pixels_in_order(pixels@),
            forall|k: int| 0 <= k < lo ==> pixels@[k].0.before(at),
            forall|k: int| hi <= k < pixels.len() ==> at.before(pixels@[k].0),
        decreases hi - lo,
    {
        let mid = lo + (hi - lo) / 2;
        let here = pixels[mid];
        if here.0 == at {
            proof {
                lemma_lookup_found(pixels@, mid as int);
            }
            return Some(here.1);
        }
        if here.0.precedes(&at) {
            assert forall|k: int| 0 <= k < mid + 1 implies pixels@[k].0.before(at) by {
                if k < mid {
                    assert(pixels@[k].0.before(pixels@[mid as int].0));
                }
            }
            lo = mid + 1;
        } else {
            assert forall|k: int| mid <= k < pixels.len() implies at.before(pixels@[k].0) by {
                if k > mid {
                    assert(pixels@[mid as int].0.before(pixels@[k].0));
                }
            }
            hi = mid;
        }
    }
    proof {
        assert forall|k: int| 0 <= k < pixels.len() implies (#[trigger] pixels@[k]).0 != at by {
            if k < lo {
                assert(pixels@[k].0.before(at));
            } else {
                assert(at.before(pixels@[k].0));
            }
        }
        lemma_lookup_absent(pixels@, at);
    }
    None
}

impl Clipboard {
    /// The captured cells are kept in reading order of their positions.
    pub open(crate) spec fn wf(&self) -> bool {
        pixels_in_order(self.pixels@)
    }

    /// Lifts what `marker` covers out of `buffer`, and uses the marker up.
    ///
    /// Captured is every marked cell that holds a foreground character
    /// other than `canvas_char`. The cells are stored relative to their
    /// top-left corner. The clipboard is placed where the cells were:
    /// asked for any position, it answers with what was captured there.
    /// Nothing is returned when no cell was captured.
    #[verifier::loop_isolation(false)]
    pub fn copy_marked_pixels(buffer: &TextBuffer, marker: Marker, cursor: TextPosition, canvas_char: char) -> (clip:
        Option<Clipboard>)
        requires
            buffer.wf(),
        ensures
            clip is None <==> forall|p: TextPosition|
                capture_at(buffer, canvas_char, marker.positions(), p) is None,
            clip matches Some(cb) ==> {
                &&& cb.wf()
                &&& cb@.original_cursor == cursor
                &&& cb@.cursor == cursor
                &&& is_top_left(buffer, canvas_char, marker.positions(), cb@.anchor)
                &&& forall|p: TextPosition|
                    cb@.get(p) == capture_at(buffer, canvas_char, marker.positions(), p)
                &&& forall|i: int| 0 <= i < cb@.pixels.len() ==> cb@.target(#[trigger] cb@.pixels[i].0) is Some
            },
    {
        let marks = marker.marked_positions();
        let ghost all = marks@;
        let mut found: Vec<(TextPosition, char)> = Vec::new();
        let mut k: usize = 0;
        while k < marks.len()
            invariant
                k <= marks.len(),
                buffer.wf(),
                all == marks@,
                pixels_in_order(found@),
                forall|p: TextPosition| lookup(found@, p) == capture_at(buffer, canvas_char, all.take(k as int), p),
            decreases marks.len() - k,
        {
            let pos = marks[k];
            let ghost earlier = all.take(k as int);
            let ghost now = all.take(k as int + 1);
            let ghost before = found@;
            assert(now =~= earlier.push(pos));
            assert forall|p: TextPosition| now.contains(p) <==> earlier.contains(p) || p == pos by {
                if earlier.contains(p) {
                    let i = choose|i: int| 0 <= i < earlier.len() && earlier[i] == p;
                    assert(now[i] == p);
                }
                if now.contains(p) {
                    let i = choose|i: int| 0 <= i < now.len() && now[i] == p;
                    if i < earlier.len() {
                        assert(earlier[i] == p);
                    }
                }
                assert(now[earlier.len() as int] == pos);
            }
            match buffer.get_char_at(pos) {
                Some(c) => {
                    if c != canvas_char {
                        insert_pixel(&mut found, pos, c);
                    }
                },
                None => {},
            }
            assert forall|p: TextPosition| lookup(found@, p) == capture_at(buffer, canvas_char, now, p) by {
                assert(lookup(before, p) == capture_at(buffer, canvas_char, earlier, p));
            }
            k += 1;
        }
        assert(all.take(marks.len() as int) =~= all);
        if found.len() == 0 {
            proof {
                assert forall|p: TextPosition| capture_at(buffer, canvas_char, all, p) is None by {
                    assert(lookup(found@, p) is None);
                }
            }
            return None;
        }
        proof {
            lemma_lookup_found(found@, 0);
        }
        let top = found[0].0.row;
        let mut left = found[0].0.col;
        let mut i: usize = 1;
        while i < found.len()
            invariant
                1 <= i <= found.len(),
                forall|j: int| 0 <= j < i ==> left <= found@[j].0.col,
                exists|j: int| 0 <= j < i && found@[j].0.col == left,
            decreases found.len() - i,
        {
            if found[i].0.col < left {
                left = found[i].0.col;
            }
            i += 1;
        }
        let anchor = TextPosition { row: top, col: left };
        assert forall|j: int| 0 <= j < found.len() implies top <= found@[j].0.row by {
            if j > 0 {
                assert(found@[0].0.before(found@[j].0));
            }
        }
        let mut pixels: Vec<(TextPosition, char)> = Vec::new();
        let mut n: usize = 0;
        while n < found.len()
            invariant
                n <= found.len(),
                pixels_in_order(found@),
                pixels@.len() == n,
                forall|j: int| 0 <= j < found.len() ==> top <= found@[j].0.row && left <= found@[j].0.col,
                forall|j: int|
                    0 <= j < n ==> pixels@[j] == (
                        TextPosition {
                            row: (found@[j].0.row - top) as usize,
                            col: (found@[j].0.col - left) as usize,
                        },
                        found@[j].1,
                    ),
            decreases found.len() - n,
        {
            let (p, c) = found[n];
            pixels.push((TextPosition { row: p.row - top, col: p.col - left }, c));
            n += 1;
        }
        let cb = Clipboard { original_cursor: cursor, cursor, anchor, pixels };
        proof {
            let fs = found@;
            let ps = cb.pixels@;
            assert(pixels_in_order(ps)) by {
                assert forall|a: int, b: int| 0 <= a < b < ps.len() implies ps[a].0.before(ps[b].0) by {
                    assert(fs[a].0.before(fs[b].0));
                }
            }
            assert forall|p: TextPosition| capture_at(buffer, canvas_char, all, p) is Some implies anchor.row
                <= p.row && anchor.col <= p.col by {
                let j = lemma_lookup_listed(fs, p);
                assert(fs[0].0.before(fs[j].0) || j == 0);
            }
            let jc = choose|j: int| 0 <= j < fs.len() && fs[j].0.col == left;
            lemma_lookup_found(fs, jc);
            assert(capture_at(buffer, canvas_char, all, fs[jc].0) is Some && fs[jc].0.col == anchor.col);
            assert(capture_at(buffer, canvas_char, all, fs[0].0) is Some && fs[0].0.row == anchor.row);
            assert forall|i: int| 0 <= i < ps.len() implies cb@.target(#[trigger] ps[i].0) is Some by {
                assert(ps[i].0.row == fs[i].0.row - top && ps[i].0.col == fs[i].0.col - left);
            }
            assert forall|p: TextPosition| cb@.get(p) == capture_at(buffer, canvas_char, all, p) by {
                if lookup(fs, p) is Some {
                    let j = lemma_lookup_listed(fs, p);
                    assert(cb@.local(p) == Some(ps[j].0));
                    lemma_lookup_found(ps, j);
                } else {
                    if cb@.local(p) is Some {
                        let rel = cb@.local(p).unwrap();
                        if lookup(ps, rel) is Some {
                            let j = lemma_lookup_listed(ps, rel);
                            assert(fs[j].0 == p);
                            lemma_lookup_found(fs, j);
                        }
                    }
                }
            }
        }
        Some(cb)
    }

    /// Top-left corner of the captured cells, in buffer coordinates.
    pub fn anchor(&self) -> (p: TextPosition)
        ensures
            p == self@.anchor,
    {
        self.anchor
    }

    /// The captured character that the current placement puts at `pos`.
    pub fn get(&self, pos: TextPosition) -> (c: Option<char>)
        requires
            self.wf(),
        ensures
            c == self@.get(pos),
    {
        match self.to_local(pos) {
            Some(at) => find_pixel(&self.pixels, at),
            None => None,
        }
    }

    /// The relative position of `pos` under the current placement.
    fn to_local(&self, pos: TextPosition) -> (at: Option<TextPosition>)
        ensures
            at == self@.local(pos),
    {
        let row = shifted(pos.row, self.original_cursor.row, self.cursor.row, self.anchor.row);
        let col = shifted(pos.col, self.original_cursor.col, self.cursor.col, self.anchor.col);
        match (row, col) {
            (Some(row), Some(col)) => Some(TextPosition { row, col }),
            _ => None,
        }
    }

    /// The captured cells where the current placement puts them, in
    /// reading order: what a paste writes. Cells that the placement
    /// moves off the grid, above or to the left, are left out.
    pub fn pixels(&self) -> (out: Vec<(TextPosition, char)>)
        requires
            self.wf(),
        ensures
            out@ == self@.placed(),
            pixels_in_order(out@),
            forall|p: TextPosition| lookup(out@, p) == self@.get(p),
    {
        let mut out: Vec<(TextPosition, char)> = Vec::new();
        let ghost me = self@;
        // where each kept cell came from
        let ghost mut source: Seq<int> = Seq::empty();
        let mut n: usize = 0;
        while n < self.pixels.len()
            invariant
                n <= self.pixels.len(),
                me == self@,
                pixels_in_order(me.pixels),
                source.len() == out@.len(),
                out@ == me.placed_upto(n as int),
                forall|j: int| 0 <= j < source.len() ==> 0 <= #[trigger] source[j] < n,
                forall|a: int, b: int| 0 <= a < b < source.len() ==> source[a] < source[b],
                forall|j: int|
                    0 <= j < out@.len() ==> me.local((#[trigger] out@[j]).0) == Some(me.pixels[source[j]].0)
                        && out@[j].1 == me.pixels[source[j]].1,
                forall|k: int, p: TextPosition|
                    0 <= k < n && #[trigger] lands_on(me, k, p) ==> lists(out@, p),
            decreases self.pixels.len() - n,
        {
            let (rel, c) = self.pixels[n];
            let row = placed(rel.row, self.anchor.row, self.cursor.row, self.original_cursor.row);
            let col = placed(rel.col, self.anchor.col, self.cursor.col, self.original_cursor.col);
            let ghost before = out@;
            match (row, col) {
                (Some(row), Some(col)) => {
                    let p = TextPosition { row, col };
                    out.push((p, c));
                    proof {
                        source = source.push(n as int);
                        assert(me.local(p) == Some(rel));
                        assert forall|k: int, q: TextPosition|
                            0 <= k < n + 1 && #[trigger] lands_on(me, k, q) implies lists(out@, q) by {
                            if k < n {
                                assert(lists(before, q));
                                let j = choose|j: int| 0 <= j < before.len() && before[j].0 == q;
                                assert(out@[j].0 == q);
                            } else {
                                assert(q == p);
                                assert(out@[before.len() as int].0 == q);
                            }
                        }
                    }
                },
                _ => {
                    proof {
                        assert forall|k: int, q: TextPosition|
                            0 <= k < n + 1 && #[trigger] lands_on(me, k, q) implies lists(out@, q) by {
                            if k < n {
                                assert(lists(before, q));
                            }
                        }
                    }
                },
            }
            n += 1;
        }
        proof {
            let os = out@;
            assert(pixels_in_order(os)) by {
                assert forall|a: int, b: int| 0 <= a < b < os.len() implies os[a].0.before(os[b].0) by {
                    assert(me.pixels[source[a]].0.before(me.pixels[source[b]].0));
                    assert(me.local(os[a].0) == Some(me.pixels[source[a]].0));
                    assert(me.local(os[b].0) == Some(me.pixels[source[b]].0));
                }
            }
            assert forall|p: TextPosition| lookup(os, p) == me.get(p) by {
                if lookup(os, p) is Some {
                    let j = lemma_lookup_listed(os, p);
                    lemma_lookup_found(me.pixels, source[j]);
                } else if me.get(p) is Some {
                    let rel = me.local(p).unwrap();
                    let k = lemma_lookup_listed(me.pixels, rel);
                    assert(lands_on(me, k, p));
                    assert(lists(os, p));
                    let j = choose|j: int| 0 <= j < os.len() && os[j].0 == p;
                    lemma_lookup_found(os, j);
                }
            }
        }
        out
    }
}

/// `pos` moved by the way from `cursor` back to `original`, and taken
/// from `anchor`; nothing when that is not a coordinate.
fn shifted(pos: usize, original: usize, cursor: usize, anchor: usize) -> (r: Option<usize>)
    ensures
        r == if 0 <= pos + original - cursor - anchor <= usize::MAX {
            Some((pos + original - cursor - anchor) as usize)
        } else {
            None::<usize>
        },
{
    let up: u128 = pos as u128 + original as u128;
    let down: u128 = cursor as u128 + anchor as u128;
    if up < down {
        None
    } else if up - down > usize::MAX as u128 {
        None
    } else {
        Some((up - down) as usize)
    }
}

/// The coordinate at which the placement puts the relative coordinate
/// `rel`; nothing when that is not a coordinate.
fn placed(rel: usize, anchor: usize, cursor: usize, original: usize) -> (r: Option<usize>)
    ensures
        r == if 0 <= rel + anchor + cursor - original <= usize::MAX {
            Some((rel + anchor + cursor - original) as usize)
        } else {
            None::<usize>
        },
{
    let up: u128 = rel as u128 + anchor as u128 + cursor as u128;
    let down: u128 = original as u128;
    if up < down {
        None
    } else if up - down > usize::MAX as u128 {
        None
    } else {
        Some((up - down) as usize)
    }
}

} // verus!
