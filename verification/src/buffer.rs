//! The text buffer: an ordered list of rows plus filename and dirty state,
//! with every structural and character mutation in two forms — a recording
//! form that logs an exact inverse into the history, and a bypass form used
//! by undo and paste replay.

use vstd::prelude::*;

use crate::cursor::{AsCoordinates, Coordinates};
use crate::editor::SelectMode;
use crate::history::{History, OpView, Operation};
use crate::row::{
    lemma_rows_view_insert, lemma_rows_view_push, lemma_rows_view_remove, lemma_rows_view_update,
    rows_view, spaces_vec, Row,
};

verus! {

/// A copy of a vector of rows, row for row.
fn clone_rows(rows: &Vec<Row>) -> (r: Vec<Row>)
    ensures
        rows_view(r@) == rows_view(rows@),
{
    let r = rows.clone();
    proof {
        assert forall|i: int| 0 <= i < rows@.len() implies (#[trigger] r@[i])@
            == rows@[i]@ by {
            assert(cloned::<Row>(rows@[i], r@[i]));
        }
        assert(rows_view(r@) =~= rows_view(rows@));
    }
    r
}

/// The specification-level image of a buffer.
#[verifier::ext_equal]
pub struct BufferView {
    /// Each row as its character sequence.
    pub rows: Seq<Seq<char>>,
    /// The file the buffer was loaded from or last saved to.
    pub filename: Option<Seq<char>>,
    /// Whether the buffer holds unsaved changes.
    pub cached: bool,
    /// Half-open row ranges queued for redraw.
    pub updated: Seq<(usize, usize)>,
    /// The undo log.
    pub history: Seq<((usize, usize), OpView)>,
    /// The most recently cut or copied rows, with the selection mode they
    /// were captured under.
    pub pending: Option<(Seq<Seq<char>>, SelectMode)>,
}

/// Whether a queued row range covers row `y`.
pub open spec fn row_in_updated(upd: Seq<(usize, usize)>, y: int) -> bool {
    exists|k: int| 0 <= k < upd.len() && (#[trigger] upd[k]).0 <= y < upd[k].1
}

/// Every queued redraw range covers at least one row.
pub open spec fn updated_wf(upd: Seq<(usize, usize)>) -> bool {
    forall|k: int| 0 <= k < upd.len() ==> (#[trigger] upd[k]).0 < upd[k].1
}

/// Law: with well-formed ranges, some row is queued for redraw exactly
/// when any range is queued at all — `updated()` never reports a queue
/// that marks no row.
pub proof fn lemma_updated_nonempty(upd: Seq<(usize, usize)>)
    requires
        updated_wf(upd),
    ensures
        (upd.len() > 0) <==> (exists|row: int| row_in_updated(upd, row)),
{
    if upd.len() > 0 {
        assert(row_in_updated(upd, upd[0].0 as int));
    }
}

impl BufferView {
    /// This buffer after an edit: new rows, the dirty flag set, and one more
    /// row range queued for redraw.
    pub open spec fn with_edit(self, rows: Seq<Seq<char>>, upd: (usize, usize)) -> BufferView {
        BufferView { rows, cached: true, updated: self.updated.push(upd), ..self }
    }

    /// This buffer with one more record in the undo log.
    pub open spec fn recorded(self, at: (usize, usize), op: OpView) -> BufferView {
        BufferView { history: self.history.push((at, op)), ..self }
    }

    /// This buffer with the clipboard slot replaced.
    pub open spec fn with_pending(
        self,
        pending: Option<(Seq<Seq<char>>, SelectMode)>,
    ) -> BufferView {
        BufferView { pending, ..self }
    }

    /// Length of row `y`, or 0 when `y` is out of bounds.
    pub open spec fn row_len(self, y: int) -> nat {
        if 0 <= y < self.rows.len() {
            self.rows[y].len()
        } else {
            0
        }
    }
}

/// Whether a character can be appended to row `y`.
pub open spec fn can_append_row(rows: Seq<Seq<char>>, y: int) -> bool {
    0 <= y < rows.len()
}

/// Whether the character before `x` in row `y` can be deleted.
pub open spec fn can_delete_char(rows: Seq<Seq<char>>, x: int, y: int) -> bool {
    0 <= y < rows.len() && 0 < x <= rows[y].len()
}

/// Whether a whole row can be inserted at index `y`: at most the append
/// position, in a buffer the machine can still extend.
pub open spec fn can_insert_row(rows: Seq<Seq<char>>, y: int) -> bool {
    0 <= y <= rows.len() < usize::MAX
}

/// Whether a character can be inserted at `x` in row `y`.
pub open spec fn can_insert_char(rows: Seq<Seq<char>>, x: int, y: int) -> bool {
    0 <= y < rows.len() && 0 <= x <= rows[y].len()
}

/// Whether row `y` can be truncated at `x`.
pub open spec fn can_shrink_row(rows: Seq<Seq<char>>, x: int, y: int) -> bool {
    0 <= y < rows.len() && 0 <= x <= rows[y].len()
}

/// Whether row `y` can be split at `x`: the split point must lie in the
/// row, in a buffer the machine can still extend.
pub open spec fn can_split_row(rows: Seq<Seq<char>>, x: int, y: int) -> bool {
    0 <= y < rows.len() < usize::MAX && 0 <= x <= rows[y].len()
}

/// Whether row `y` can be joined onto the row above it.
pub open spec fn can_squash_row(rows: Seq<Seq<char>>, y: int) -> bool {
    0 < y < rows.len()
}

/// Whether `length` characters at `(x, y)` can be replaced.
pub open spec fn can_replace(rows: Seq<Seq<char>>, x: int, y: int, length: int) -> bool {
    0 <= y < rows.len() && 0 <= x && 0 <= length && x + length <= rows[y].len()
}

/// The rows after row `y` is split at `x`: the head keeps the first `x`
/// characters, the tail becomes a new row below it.
pub open spec fn split_rows(rows: Seq<Seq<char>>, x: int, y: int) -> Seq<Seq<char>> {
    rows.update(y, rows[y].take(x)).insert(y + 1, rows[y].skip(x))
}

/// The cursor position a split hands back: the split column clamped to the
/// row that stood below the split before it, at the tail row's index.
pub open spec fn split_next_at(rows: Seq<Seq<char>>, x: usize, y: usize) -> (usize, usize) {
    let nx: usize = if y + 1 < rows.len() {
        if x <= rows[y + 1].len() {
            x
        } else {
            rows[y + 1].len() as usize
        }
    } else {
        0
    };
    (nx, (y + 1) as usize)
}

/// The rows after row `y` is joined onto row `y - 1`.
pub open spec fn squash_rows(rows: Seq<Seq<char>>, y: int) -> Seq<Seq<char>> {
    rows.update(y - 1, rows[y - 1] + rows[y]).remove(y)
}

/// The lower of the two selection columns of a rectangle.
pub open spec fn rect_start(sx: int, ex: int) -> int {
    if sx <= ex {
        sx
    } else {
        ex
    }
}

/// The higher of the two selection columns of a rectangle.
pub open spec fn rect_end(sx: int, ex: int) -> int {
    if sx <= ex {
        ex
    } else {
        sx
    }
}

/// What a rectangle over columns `st..en` captures from one row: the
/// characters under it, padded with spaces to the rectangle's width where
/// the row falls short.
pub open spec fn rect_slice(row: Seq<char>, st: int, en: int) -> Seq<char> {
    if st < row.len() {
        let cut = if en <= row.len() {
            en
        } else {
            row.len() as int
        };
        row.subrange(st, cut) + crate::row::spaces((en - cut) as nat)
    } else {
        crate::row::spaces((en - st) as nat)
    }
}

/// One row after a rectangle over columns `st..en` is deleted from it; a
/// row the rectangle misses entirely is unchanged.
pub open spec fn rect_delete_row(row: Seq<char>, st: int, en: int) -> Seq<char> {
    if st < row.len() {
        let cut = if en <= row.len() {
            en
        } else {
            row.len() as int
        };
        row.take(st) + row.skip(cut)
    } else {
        row
    }
}

/// The rows a rectangle over rows `sy..=ey` and columns `st..en` captures.
pub open spec fn rect_capture(
    rows: Seq<Seq<char>>,
    sy: int,
    ey: int,
    st: int,
    en: int,
) -> Seq<Seq<char>> {
    Seq::new((ey + 1 - sy) as nat, |i: int| rect_slice(rows[sy + i], st, en))
}

/// All rows after a rectangle delete over rows `sy..=ey`, columns `st..en`.
pub open spec fn rect_delete_rows(
    rows: Seq<Seq<char>>,
    sy: int,
    ey: int,
    st: int,
    en: int,
) -> Seq<Seq<char>> {
    Seq::new(
        rows.len(),
        |i: int|
            if sy <= i <= ey {
                rect_delete_row(rows[i], st, en)
            } else {
                rows[i]
            },
    )
}

/// Whether a contiguous range from `(sx, sy)` to `(ex, ey)` can be read.
pub open spec fn can_get_contiguous(
    rows: Seq<Seq<char>>,
    sx: int,
    sy: int,
    ex: int,
    ey: int,
) -> bool {
    if sy == ey {
        0 <= sy < rows.len() && 0 <= sx <= ex <= rows[sy].len()
    } else {
        0 <= sy < ey < rows.len() && 0 <= sx <= rows[sy].len() && 0 <= ex <= rows[ey].len()
    }
}

/// Whether a contiguous range from `(sx, sy)` to `(ex, ey)` can be deleted:
/// as for reading, but a deletion within one row must start inside it.
pub open spec fn can_delete_contiguous(
    rows: Seq<Seq<char>>,
    sx: int,
    sy: int,
    ex: int,
    ey: int,
) -> bool {
    can_get_contiguous(rows, sx, sy, ex, ey) && (sy == ey ==> sx < rows[sy].len())
}

/// The rows a contiguous range captures: the first row from `sx` on, the
/// middle rows whole, the last row up to `ex`.
pub open spec fn capture_contiguous(
    rows: Seq<Seq<char>>,
    sx: int,
    sy: int,
    ex: int,
    ey: int,
) -> Seq<Seq<char>> {
    if sy == ey {
        seq![rows[sy].subrange(sx, ex)]
    } else {
        seq![rows[sy].skip(sx)] + rows.subrange(sy + 1, ey) + seq![rows[ey].take(ex)]
    }
}

/// All rows after a contiguous delete: the fragments before `(sx, sy)` and
/// after `(ex, ey)` are joined into one row.
pub open spec fn delete_contiguous_rows(
    rows: Seq<Seq<char>>,
    sx: int,
    sy: int,
    ex: int,
    ey: int,
) -> Seq<Seq<char>> {
    if sy == ey {
        rows.update(sy, rows[sy].take(sx) + rows[sy].skip(ex))
    } else {
        rows.take(sy) + seq![rows[sy].take(sx) + rows[ey].skip(ex)] + rows.skip(ey + 1)
    }
}

/// Whether a delete under the given mode is well-formed and proceeds.
pub open spec fn can_delete_chars(
    rows: Seq<Seq<char>>,
    sx: int,
    sy: int,
    ex: int,
    ey: int,
    mode: SelectMode,
) -> bool {
    match mode {
        SelectMode::Contiguous => can_delete_contiguous(rows, sx, sy, ex, ey),
        SelectMode::Rectangle => 0 <= sy <= ey < rows.len(),
    }
}

/// The rows a delete under the given mode removes, in top-to-bottom order.
pub open spec fn delete_chars_capture(
    rows: Seq<Seq<char>>,
    sx: int,
    sy: int,
    ex: int,
    ey: int,
    mode: SelectMode,
) -> Seq<Seq<char>> {
    match mode {
        SelectMode::Contiguous => capture_contiguous(rows, sx, sy, ex, ey),
        SelectMode::Rectangle => rect_capture(rows, sy, ey, rect_start(sx, ex), rect_end(sx, ex)),
    }
}

/// All rows after a delete under the given mode.
pub open spec fn delete_chars_rows(
    rows: Seq<Seq<char>>,
    sx: int,
    sy: int,
    ex: int,
    ey: int,
    mode: SelectMode,
) -> Seq<Seq<char>> {
    match mode {
        SelectMode::Contiguous => delete_contiguous_rows(rows, sx, sy, ex, ey),
        SelectMode::Rectangle => rect_delete_rows(
            rows,
            sy,
            ey,
            rect_start(sx, ex),
            rect_end(sx, ex),
        ),
    }
}

/// The row range a delete queues for redraw: the one row for a delete
/// within it, everything from the start row down otherwise.
pub open spec fn delete_chars_upd(sy: usize, ey: usize, new_len: nat) -> (usize, usize) {
    if sy == ey {
        (sy, (sy + 1) as usize)
    } else {
        (sy, new_len as usize)
    }
}

/// Whether a contiguous insertion of `ins` at `(x, y)` is well-formed: at
/// least one row, a coordinate inside the buffer, and machine limits on
/// the sizes involved.
pub open spec fn can_insert_contiguous(
    rows: Seq<Seq<char>>,
    x: int,
    y: int,
    ins: Seq<Seq<char>>,
) -> bool {
    &&& ins.len() >= 1
    &&& 0 <= y < rows.len()
    &&& 0 <= x <= rows[y].len()
    &&& x + ins[0].len() <= usize::MAX
    &&& rows.len() + ins.len() <= usize::MAX
}

/// All rows after a contiguous insertion: the first inserted row joins the
/// head fragment, the last joins the tail fragment, the middle rows stand
/// alone between them.
pub open spec fn insert_contiguous_rows(
    rows: Seq<Seq<char>>,
    x: int,
    y: int,
    ins: Seq<Seq<char>>,
) -> Seq<Seq<char>> {
    let n = ins.len() as int;
    if n == 1 {
        rows.update(y, rows[y].take(x) + ins[0] + rows[y].skip(x))
    } else {
        rows.take(y) + seq![rows[y].take(x) + ins[0]] + ins.subrange(1, n - 1) + seq![
            ins[n - 1] + rows[y].skip(x),
        ] + rows.skip(y + 1)
    }
}

/// Where a contiguous insertion ends: after the first row's text for a
/// one-row insertion, at the end of the last inserted row otherwise.
pub open spec fn insert_contiguous_end(
    x: usize,
    y: usize,
    ins: Seq<Seq<char>>,
) -> (usize, usize) {
    let n = ins.len() as int;
    if n == 1 {
        ((x + ins[0].len()) as usize, y)
    } else {
        (ins[n - 1].len() as usize, (y + n - 1) as usize)
    }
}

/// Whether a rectangular insertion of `ins` at `(x, y)` is well-formed.
pub open spec fn can_insert_rect(
    rows: Seq<Seq<char>>,
    x: int,
    y: int,
    ins: Seq<Seq<char>>,
) -> bool {
    &&& ins.len() >= 1
    &&& 0 <= y <= rows.len()
    &&& x + ins[ins.len() - 1].len() <= usize::MAX
    &&& rows.len() + ins.len() <= usize::MAX
}

/// One existing row after a rectangle row is inserted into it at column
/// `x`: a row shorter than `x` is extended with spaces first, a longer one
/// has the text spliced in.
pub open spec fn rect_insert_row(row: Seq<char>, x: int, ins: Seq<char>) -> Seq<char> {
    if row.len() < x {
        row + crate::row::spaces((x - row.len()) as nat) + ins
    } else {
        row.take(x) + ins + row.skip(x)
    }
}

/// All rows after a rectangular insertion: rows `y..y + ins.len()` receive
/// one inserted row each, rows missing from the buffer are created as
/// spaces up to column `x` followed by the inserted text.
pub open spec fn insert_rect_rows(
    rows: Seq<Seq<char>>,
    x: int,
    y: int,
    ins: Seq<Seq<char>>,
) -> Seq<Seq<char>> {
    let n = ins.len() as int;
    let total = if rows.len() >= y + n {
        rows.len() as int
    } else {
        y + n
    };
    Seq::new(
        total as nat,
        |i: int|
            if i < y {
                rows[i]
            } else if i < y + n {
                if i < rows.len() {
                    rect_insert_row(rows[i], x, ins[i - y])
                } else {
                    crate::row::spaces(x as nat) + ins[i - y]
                }
            } else {
                rows[i]
            },
    )
}

/// Where a rectangular insertion ends: after the last inserted row's text.
pub open spec fn insert_rect_end(x: usize, y: usize, ins: Seq<Seq<char>>) -> (usize, usize) {
    let n = ins.len() as int;
    ((x + ins[n - 1].len()) as usize, (y + n - 1) as usize)
}

/// Whether an insertion under the given mode is well-formed.
pub open spec fn can_insert_chars(
    rows: Seq<Seq<char>>,
    x: int,
    y: int,
    ins: Seq<Seq<char>>,
    mode: SelectMode,
) -> bool {
    match mode {
        SelectMode::Contiguous => can_insert_contiguous(rows, x, y, ins),
        SelectMode::Rectangle => can_insert_rect(rows, x, y, ins),
    }
}

/// All rows after an insertion under the given mode.
pub open spec fn insert_chars_rows(
    rows: Seq<Seq<char>>,
    x: int,
    y: int,
    ins: Seq<Seq<char>>,
    mode: SelectMode,
) -> Seq<Seq<char>> {
    match mode {
        SelectMode::Contiguous => insert_contiguous_rows(rows, x, y, ins),
        SelectMode::Rectangle => insert_rect_rows(rows, x, y, ins),
    }
}

/// Where an insertion under the given mode ends.
pub open spec fn insert_chars_end(
    x: usize,
    y: usize,
    ins: Seq<Seq<char>>,
    mode: SelectMode,
) -> (usize, usize) {
    match mode {
        SelectMode::Contiguous => insert_contiguous_end(x, y, ins),
        SelectMode::Rectangle => insert_rect_end(x, y, ins),
    }
}

/// Whether an insertion under the given mode actually changes the rows: a
/// contiguous insertion of one empty row splices nothing in; a
/// rectangular one changes nothing only when every inserted row is empty
/// and lands inside an existing row without padding.
pub open spec fn insert_chars_changes(
    rows: Seq<Seq<char>>,
    x: int,
    y: int,
    ins: Seq<Seq<char>>,
    mode: SelectMode,
) -> bool {
    match mode {
        SelectMode::Contiguous => ins.len() >= 2 || (ins.len() == 1 && ins[0].len() > 0),
        SelectMode::Rectangle => exists|i: int|
            0 <= i < ins.len() && (y + i >= rows.len() || (#[trigger] ins[i]).len() > 0
                || rows[y + i].len() < x),
    }
}

/// The buffer after one recorded operation is undone: each variant is
/// inverted through the matching bypass mutation, applied to the stored
/// coordinate; an inverse whose coordinates no longer fit is a silent
/// no-op, as every bypass mutation is.
pub open spec fn undo_apply(pre: BufferView, op: OpView) -> BufferView {
    match op {
        OpView::Append(cord) => {
            let x = cord.0 as int;
            let y = cord.1 as int;
            if can_shrink_row(pre.rows, x, y) {
                pre.with_edit(
                    pre.rows.update(y, pre.rows[y].take(x)),
                    (cord.1, (cord.1 + 1) as usize),
                ).with_pending(Some((seq![pre.rows[y].skip(x)], SelectMode::Contiguous)))
            } else {
                pre
            }
        },
        OpView::DeleteChar(cord, ch) => {
            let nx: int = if cord.0 > 0 {
                cord.0 - 1
            } else {
                0
            };
            let y = cord.1 as int;
            if can_insert_char(pre.rows, nx, y) {
                pre.with_edit(
                    pre.rows.update(y, pre.rows[y].insert(nx, ch)),
                    (cord.1, (cord.1 + 1) as usize),
                )
            } else {
                pre
            }
        },
        OpView::DeleteChars(cord, ins, mode) => {
            let x = cord.0;
            let y = cord.1;
            let can = can_insert_chars(pre.rows, x as int, y as int, ins, mode);
            let changes = insert_chars_changes(pre.rows, x as int, y as int, ins, mode);
            let end = insert_chars_end(x, y, ins, mode);
            let new_rows = insert_chars_rows(pre.rows, x as int, y as int, ins, mode);
            if can && changes {
                BufferView {
                    rows: new_rows,
                    cached: true,
                    updated: pre.updated.push(
                        if y == end.1 {
                            (y, (end.1 + 1) as usize)
                        } else {
                            (y, new_rows.len() as usize)
                        },
                    ),
                    ..pre
                }
            } else {
                pre
            }
        },
        OpView::DeleteRow(cord, row) => {
            let y = cord.1 as int;
            if can_insert_row(pre.rows, y) {
                pre.with_edit(
                    pre.rows.insert(y, row),
                    (cord.1, (pre.rows.len() + 1) as usize),
                )
            } else {
                pre
            }
        },
        OpView::InsertChar(cord) => {
            let y = cord.1 as int;
            if cord.0 < usize::MAX && can_delete_char(pre.rows, cord.0 + 1, y) {
                pre.with_edit(
                    pre.rows.update(y, pre.rows[y].remove(cord.0 as int)),
                    (cord.1, (cord.1 + 1) as usize),
                )
            } else {
                pre
            }
        },
        OpView::InsertChars(cord, end, mode) => {
            let sx = cord.0 as int;
            let sy = cord.1 as int;
            let ex = end.0 as int;
            let ey = end.1 as int;
            if can_delete_chars(pre.rows, sx, sy, ex, ey, mode) {
                let new_rows = delete_chars_rows(pre.rows, sx, sy, ex, ey, mode);
                pre.with_edit(
                    new_rows,
                    delete_chars_upd(cord.1, end.1, new_rows.len()),
                ).with_pending(
                    Some((delete_chars_capture(pre.rows, sx, sy, ex, ey, mode), mode)),
                )
            } else {
                pre
            }
        },
        OpView::InsertRow(cord) => {
            let y = cord.1 as int;
            if y < pre.rows.len() {
                pre.with_edit(pre.rows.remove(y), (cord.1, pre.rows.len() as usize))
            } else {
                pre
            }
        },
        OpView::Replace(cord, length, row) => {
            let x = cord.0 as int;
            let y = cord.1 as int;
            if can_replace(pre.rows, x, y, length as int) {
                pre.with_edit(
                    pre.rows.update(
                        y,
                        pre.rows[y].take(x) + row + pre.rows[y].skip(x + length),
                    ),
                    (cord.1, (cord.1 + 1) as usize),
                )
            } else {
                pre
            }
        },
        OpView::ShrinkRow(cord, row) => {
            let y = cord.1 as int;
            if can_append_row(pre.rows, y) {
                pre.with_edit(
                    pre.rows.update(y, pre.rows[y] + row),
                    (cord.1, (cord.1 + 1) as usize),
                )
            } else {
                pre
            }
        },
        OpView::SplitRow(cord) => {
            let y = cord.1 as int;
            if can_squash_row(pre.rows, y) {
                BufferView {
                    rows: squash_rows(pre.rows, y),
                    cached: true,
                    updated: pre.updated.push((cord.1, pre.rows.len() as usize)).push(
                        ((cord.1 - 1) as usize, (pre.rows.len() - 1) as usize),
                    ).push(((cord.1 - 1) as usize, cord.1)),
                    ..pre
                }
            } else {
                pre
            }
        },
        OpView::SquashRow(cord) => {
            let x = cord.0 as int;
            let y = cord.1 as int;
            if can_split_row(pre.rows, x, y) {
                BufferView {
                    rows: split_rows(pre.rows, x, y),
                    cached: true,
                    updated: pre.updated.push(
                        (cord.1, (pre.rows.len() + 1) as usize),
                    ).push(((cord.1 + 1) as usize, (pre.rows.len() + 1) as usize)),
                    ..pre
                }
            } else {
                pre
            }
        },
    }
}

/// The buffer serialized for saving: every row's characters followed by a
/// Windows line ending.
pub open spec fn file_text(rows: Seq<Seq<char>>) -> Seq<char>
    decreases rows.len(),
{
    if rows.len() == 0 {
        Seq::<char>::empty()
    } else {
        file_text(rows.drop_last()) + rows.last() + seq!['\r', '\n']
    }
}

/// Whether the keyword stands in `row` at character offset `x`.
pub open spec fn matches_at(row: Seq<char>, keyword: Seq<char>, x: int) -> bool {
    0 <= x && x + keyword.len() <= row.len() && row.subrange(x, x + keyword.len()) == keyword
}

/// The first offset at or after `from` where the keyword stands in `row`.
pub open spec fn row_find_from(row: Seq<char>, keyword: Seq<char>, from: int) -> Option<int>
    decreases row.len() + 1 - from when 0 <= from
{
    if from + keyword.len() > row.len() {
        None
    } else if matches_at(row, keyword, from) {
        Some(from)
    } else {
        row_find_from(row, keyword, from + 1)
    }
}

/// The first match at or after `(x, y)`, scanning forward row by row.
pub open spec fn find_from(rows: Seq<Seq<char>>, keyword: Seq<char>, x: int, y: int) -> Option<
    (usize, usize),
>
    decreases rows.len() - y when 0 <= y
{
    if y >= rows.len() {
        None
    } else {
        match row_find_from(rows[y], keyword, x) {
            Some(i) => Some((i as usize, y as usize)),
            None => find_from(rows, keyword, 0, y + 1),
        }
    }
}

/// The last offset at or before `limit` where the keyword stands in `row`.
pub open spec fn row_rfind_upto(row: Seq<char>, keyword: Seq<char>, limit: int) -> Option<int>
    decreases vstd::math::max(limit + 1, 0),
{
    if limit < 0 {
        None
    } else if matches_at(row, keyword, limit) {
        Some(limit)
    } else {
        row_rfind_upto(row, keyword, limit - 1)
    }
}

/// The nearest match scanning backward: row `y` is searched up to `taken`
/// characters, rows above it whole.
pub open spec fn rfind_scan(
    rows: Seq<Seq<char>>,
    keyword: Seq<char>,
    y: int,
    taken: int,
) -> Option<(usize, usize)>
    decreases y + 1 when 0 <= y < rows.len()
{
    match row_rfind_upto(rows[y], keyword, taken - keyword.len()) {
        Some(i) => Some((i as usize, y as usize)),
        None => if y == 0 {
            None
        } else {
            rfind_scan(rows, keyword, y - 1, rows[y - 1].len() as int)
        },
    }
}

/// What a backward search from `(x, y)` returns: the scan starts at row
/// `y` (clamped into the buffer), whose first `x + 1` characters are
/// searched when `y` lies in the buffer, the whole row otherwise.
pub open spec fn rfind_from(rows: Seq<Seq<char>>, keyword: Seq<char>, x: int, y: int) -> Option<
    (usize, usize),
> {
    if rows.len() == 0 {
        None
    } else if y < rows.len() {
        let taken = if x + 1 <= rows[y].len() {
            x + 1
        } else {
            rows[y].len() as int
        };
        rfind_scan(rows, keyword, y, taken)
    } else {
        rfind_scan(rows, keyword, rows.len() - 1, rows[rows.len() - 1].len() as int)
    }
}

/// Whether the keyword stands in `hay` at offset `x`, decided by
/// comparing characters.
fn chars_match(hay: &[char], keyword: &[char], x: usize) -> (r: bool)
    requires
        x + keyword@.len() <= hay@.len(),
    ensures
        r == matches_at(hay@, keyword@, x as int),
{
    let n = keyword.len();
    let hay_len = hay.len();
    let mut j: usize = 0;
    while j < n
        invariant
            j <= n,
            n == keyword@.len(),
            hay_len == hay@.len(),
            x + n <= hay_len,
            forall|i: int| 0 <= i < j ==> hay@[x + i] == keyword@[i],
        decreases n - j,
    {
        if *vstd::slice::slice_index_get(hay, x + j) != *vstd::slice::slice_index_get(
            keyword,
            j,
        ) {
            proof {
                assert(hay@.subrange(x as int, x + n) != keyword@) by {
                    assert(hay@.subrange(x as int, x + n)[j as int] == hay@[x + j]);
                }
            }
            return false;
        }
        j = j + 1;
    }
    proof {
        assert(hay@.subrange(x as int, x + n) =~= keyword@);
    }
    true
}

/// The first offset at or after `from` where the keyword stands in `hay`.
fn slice_find_from(hay: &[char], keyword: &[char], from: usize) -> (r: Option<usize>)
    ensures
        (match r {
            Some(i) => row_find_from(hay@, keyword@, from as int) == Some(i as int),
            None => row_find_from(hay@, keyword@, from as int) is None,
        }),
{
    let n = keyword.len();
    let len = hay.len();
    if from > len || n > len - from {
        return None;
    }
    if n == 0 {
        proof {
            assert(hay@.subrange(from as int, from as int) =~= keyword@);
        }
        return Some(from);
    }
    let mut x: usize = from;
    while x <= len - n
        invariant
            1 <= n <= len,
            from <= x,
            x <= len - n + 1,
            n == keyword@.len(),
            len == hay@.len(),
            row_find_from(hay@, keyword@, from as int) == row_find_from(
                hay@,
                keyword@,
                x as int,
            ),
        decreases len - x,
    {
        if chars_match(hay, keyword, x) {
            return Some(x);
        }
        x = x + 1;
    }
    None
}

/// The last offset at or before `limit` where the keyword stands in `hay`.
fn slice_rfind_upto(hay: &[char], keyword: &[char], limit: usize) -> (r: Option<usize>)
    requires
        limit + keyword@.len() <= hay@.len(),
    ensures
        (match r {
            Some(i) => row_rfind_upto(hay@, keyword@, limit as int) == Some(i as int),
            None => row_rfind_upto(hay@, keyword@, limit as int) is None,
        }),
{
    let mut x: usize = limit;
    loop
        invariant
            x <= limit,
            limit + keyword@.len() <= hay@.len(),
            row_rfind_upto(hay@, keyword@, limit as int) == row_rfind_upto(
                hay@,
                keyword@,
                x as int,
            ),
        decreases x + 1,
    {
        if chars_match(hay, keyword, x) {
            proof {
                assert(row_rfind_upto(hay@, keyword@, x as int) == Some(x as int));
            }
            return Some(x);
        }
        if x == 0 {
            proof {
                assert(row_rfind_upto(hay@, keyword@, -1) is None);
            }
            return None;
        }
        x = x - 1;
    }
}

// -----------------------------------------------------------------------------------------------

/// An ordered collection of rows plus filename and dirty state; all
/// mutations go through its methods, optionally routed through the history.
pub struct Buffer {
    rows: Vec<Row>,
    filename: Option<String>,
    cached: bool,
    updated: Vec<(usize, usize)>,
    history: History,
    pending: Option<(Vec<Row>, SelectMode)>,
}

impl View for Buffer {
    type V = BufferView;

    closed spec fn view(&self) -> BufferView {
        BufferView {
            rows: rows_view(self.rows@),
            filename: match &self.filename {
                Some(s) => Some(s@),
                None => None,
            },
            cached: self.cached,
            updated: self.updated@,
            history: self.history@,
            pending: match &self.pending {
                Some(p) => Some((rows_view(p.0@), p.1)),
                None => None,
            },
        }
    }
}

impl Default for Buffer {
    fn default() -> (r: Self)
        ensures
            r@.rows == Seq::<Seq<char>>::empty(),
            r@.filename is None,
            !r@.cached,
            r@.updated == Seq::<(usize, usize)>::empty(),
            r@.history == Seq::<((usize, usize), OpView)>::empty(),
            r@.pending is None,
    {
        let r = Buffer {
            rows: Vec::new(),
            filename: None,
            cached: false,
            updated: Vec::new(),
            history: History::default(),
            pending: None,
        };
        proof {
            assert(r@.rows =~= Seq::<Seq<char>>::empty());
        }
        r
    }
}

impl Buffer {
    /// Append characters at the end of row `at.y`, recording the edit;
    /// a row index out of bounds is a silent no-op.
    pub fn append_row<P: Coordinates + AsCoordinates>(&mut self, at: &P, text: &[char])
        ensures
            updated_wf(old(self)@.updated) ==> updated_wf(final(self)@.updated),
            can_append_row(old(self)@.rows, at.spec_y() as int) ==> final(self)@ == old(self)@.with_edit(
                old(self)@.rows.update(
                    at.spec_y() as int,
                    old(self)@.rows[at.spec_y() as int] + text@,
                ),
                (at.spec_y(), (at.spec_y() + 1) as usize),
            ).recorded(
                (at.spec_x(), at.spec_y()),
                OpView::Append(
                    (old(self)@.rows[at.spec_y() as int].len() as usize, at.spec_y()),
                ),
            ),
            !can_append_row(old(self)@.rows, at.spec_y() as int) ==> final(self)@ == old(self)@,
    {
        if let Some(cur) = self.append_row_bypass(at, text) {
            self.history.record(at.as_coordinates(), Operation::Append(cur));
        }
    }

    /// Append characters at the end of row `at.y` without recording history,
    /// returning the coordinate where the append began; a row index out of
    /// bounds is a silent no-op.
    pub fn append_row_bypass<P: Coordinates + AsCoordinates>(
        &mut self,
        at: &P,
        text: &[char],
    ) -> (r: Option<(usize, usize)>)
        ensures
            updated_wf(old(self)@.updated) ==> updated_wf(final(self)@.updated),
            can_append_row(old(self)@.rows, at.spec_y() as int) ==> r == Some(
                (old(self)@.rows[at.spec_y() as int].len() as usize, at.spec_y()),
            ) && final(self)@ == old(self)@.with_edit(
                old(self)@.rows.update(
                    at.spec_y() as int,
                    old(self)@.rows[at.spec_y() as int] + text@,
                ),
                (at.spec_y(), (at.spec_y() + 1) as usize),
            ),
            !can_append_row(old(self)@.rows, at.spec_y() as int) ==> r is None && final(self)@ == old(self)@,
    {
        let y = at.y();
        if y < self.rows.len() {
            self.cached = true;
            self.updated.push((y, y + 1));
            let row = &mut self.rows[y];
            let x = row.len();
            row.append(text);
            proof {
                assert(self@.rows =~= old(self)@.rows.update(
                    y as int,
                    old(self)@.rows[y as int] + text@,
                ));
            }
            Some((x, y))
        } else {
            None
        }
    }

    /// Whether the buffer holds unsaved changes.
    pub fn cached(&self) -> (r: bool)
        ensures
            r == self@.cached,
    {
        self.cached
    }

    /// Forget the queued redraw ranges, after a draw pass consumed them.
    pub fn clear_updated(&mut self)
        ensures
            final(self)@ == (BufferView {
                updated: Seq::<(usize, usize)>::empty(),
                ..old(self)@
            }),
    {
        self.updated.clear();
    }

    /// Delete row `at.y`, recording the edit; a row index out of bounds is a
    /// silent no-op.
    pub fn delete_row<P: Coordinates + AsCoordinates>(&mut self, at: &P) -> (r: Option<Row>)
        ensures
            updated_wf(old(self)@.updated) ==> updated_wf(final(self)@.updated),
            at.spec_y() < old(self)@.rows.len() ==> (match r {
                Some(row) => row@ == old(self)@.rows[at.spec_y() as int] && final(self)@
                    == old(self)@.with_edit(
                    old(self)@.rows.remove(at.spec_y() as int),
                    (at.spec_y(), old(self)@.rows.len() as usize),
                ).recorded(
                    (at.spec_x(), at.spec_y()),
                    OpView::DeleteRow(
                        (at.spec_x(), at.spec_y()),
                        old(self)@.rows[at.spec_y() as int],
                    ),
                ),
                None => false,
            }),
            at.spec_y() >= old(self)@.rows.len() ==> r is None && final(self)@ == old(self)@,
    {
        let row = self.delete_row_bypass(at);
        if let Some(r) = &row {
            self.history.record(
                at.as_coordinates(),
                Operation::DeleteRow(at.as_coordinates(), r.clone()),
            );
        }
        row
    }

    /// Delete row `at.y` without recording history; a row index out of
    /// bounds is a silent no-op.
    pub fn delete_row_bypass<P: Coordinates + AsCoordinates>(&mut self, at: &P) -> (r: Option<
        Row,
    >)
        ensures
            updated_wf(old(self)@.updated) ==> updated_wf(final(self)@.updated),
            at.spec_y() < old(self)@.rows.len() ==> (match r {
                Some(row) => row@ == old(self)@.rows[at.spec_y() as int] && final(self)@
                    == old(self)@.with_edit(
                    old(self)@.rows.remove(at.spec_y() as int),
                    (at.spec_y(), old(self)@.rows.len() as usize),
                ),
                None => false,
            }),
            at.spec_y() >= old(self)@.rows.len() ==> r is None && final(self)@ == old(self)@,
    {
        let y = at.y();
        if y < self.rows.len() {
            self.cached = true;
            self.updated.push((y, self.rows.len()));
            let row = self.rows.remove(y);
            proof {
                assert(self@.rows =~= old(self)@.rows.remove(y as int));
            }
            Some(row)
        } else {
            None
        }
    }

    /// Delete the character before `at.x` in row `at.y` (backspace),
    /// recording the edit; out of bounds is a silent no-op.
    pub fn delete_char<P: Coordinates + AsCoordinates>(&mut self, at: &P)
        ensures
            updated_wf(old(self)@.updated) ==> updated_wf(final(self)@.updated),
            can_delete_char(old(self)@.rows, at.spec_x() as int, at.spec_y() as int)
                ==> final(self)@ == old(self)@.with_edit(
                old(self)@.rows.update(
                    at.spec_y() as int,
                    old(self)@.rows[at.spec_y() as int].remove(at.spec_x() - 1),
                ),
                (at.spec_y(), (at.spec_y() + 1) as usize),
            ).recorded(
                (at.spec_x(), at.spec_y()),
                OpView::DeleteChar(
                    (at.spec_x(), at.spec_y()),
                    old(self)@.rows[at.spec_y() as int][at.spec_x() - 1],
                ),
            ),
            !can_delete_char(old(self)@.rows, at.spec_x() as int, at.spec_y() as int)
                ==> final(self)@ == old(self)@,
    {
        if let Some(ch) = self.delete_char_bypass(at) {
            self.history.record(
                at.as_coordinates(),
                Operation::DeleteChar(at.as_coordinates(), ch),
            );
        }
    }

    /// Delete the character before `at.x` in row `at.y` without recording
    /// history; out of bounds is a silent no-op.
    pub fn delete_char_bypass<P: Coordinates + AsCoordinates>(&mut self, at: &P) -> (r: Option<
        char,
    >)
        ensures
            updated_wf(old(self)@.updated) ==> updated_wf(final(self)@.updated),
            can_delete_char(old(self)@.rows, at.spec_x() as int, at.spec_y() as int) ==> r
                == Some(old(self)@.rows[at.spec_y() as int][at.spec_x() - 1]) && final(self)@ == old(self)@.with_edit(
                old(self)@.rows.update(
                    at.spec_y() as int,
                    old(self)@.rows[at.spec_y() as int].remove(at.spec_x() - 1),
                ),
                (at.spec_y(), (at.spec_y() + 1) as usize),
            ),
            !can_delete_char(old(self)@.rows, at.spec_x() as int, at.spec_y() as int) ==> r
                is None && final(self)@ == old(self)@,
    {
        let x = at.x();
        let y = at.y();
        if y < self.rows.len() {
            let row = &mut self.rows[y];
            if 0 < x && x <= row.len() {
                let ch = row.remove(x - 1);
                self.cached = true;
                self.updated.push((y, y + 1));
                proof {
                    assert(self@.rows =~= old(self)@.rows.update(
                        y as int,
                        old(self)@.rows[y as int].remove(x - 1),
                    ));
                }
                return ch;
            }
        }
        None
    }

    /// Insert a row holding the given characters at `at.y`, recording the
    /// edit; a row index past the append position is a silent no-op.
    pub fn insert_row<P: Coordinates + AsCoordinates>(&mut self, at: &P, text: &[char])
        ensures
            updated_wf(old(self)@.updated) ==> updated_wf(final(self)@.updated),
            can_insert_row(old(self)@.rows, at.spec_y() as int) ==> final(self)@ == old(self)@.with_edit(
                old(self)@.rows.insert(at.spec_y() as int, text@),
                (at.spec_y(), (old(self)@.rows.len() + 1) as usize),
            ).recorded(
                (at.spec_x(), at.spec_y()),
                OpView::InsertRow((at.spec_x(), at.spec_y())),
            ),
            !can_insert_row(old(self)@.rows, at.spec_y() as int) ==> final(self)@ == old(self)@,
    {
        if self.insert_row_bypass(at, text) {
            self.history.record(
                at.as_coordinates(),
                Operation::InsertRow(at.as_coordinates()),
            );
        }
    }

    /// Insert a row holding the given characters at `at.y` without recording
    /// history, returning whether the buffer changed; a row index past the
    /// append position is a silent no-op.
    pub fn insert_row_bypass<P: Coordinates + AsCoordinates>(
        &mut self,
        at: &P,
        text: &[char],
    ) -> (r: bool)
        ensures
            updated_wf(old(self)@.updated) ==> updated_wf(final(self)@.updated),
            can_insert_row(old(self)@.rows, at.spec_y() as int) ==> r && final(self)@ == old(self)@.with_edit(
                old(self)@.rows.insert(at.spec_y() as int, text@),
                (at.spec_y(), (old(self)@.rows.len() + 1) as usize),
            ),
            !can_insert_row(old(self)@.rows, at.spec_y() as int) ==> !r && final(self)@ == old(self)@,
    {
        let y = at.y();
        if y <= self.rows.len() && self.rows.len() < usize::MAX {
            self.cached = true;
            self.updated.push((y, self.rows.len() + 1));
            let mut row = Row::default();
            row.append(text);
            self.rows.insert(y, row);
            proof {
                assert(Seq::<char>::empty() + text@ =~= text@);
                assert(self@.rows =~= old(self)@.rows.insert(y as int, text@));
            }
            true
        } else {
            false
        }
    }

    /// Insert a character at `at`, recording the edit; out of bounds is a
    /// silent no-op.
    pub fn insert_char<P: Coordinates + AsCoordinates>(&mut self, at: &P, ch: char)
        ensures
            updated_wf(old(self)@.updated) ==> updated_wf(final(self)@.updated),
            can_insert_char(old(self)@.rows, at.spec_x() as int, at.spec_y() as int)
                ==> final(self)@ == old(self)@.with_edit(
                old(self)@.rows.update(
                    at.spec_y() as int,
                    old(self)@.rows[at.spec_y() as int].insert(at.spec_x() as int, ch),
                ),
                (at.spec_y(), (at.spec_y() + 1) as usize),
            ).recorded(
                (at.spec_x(), at.spec_y()),
                OpView::InsertChar((at.spec_x(), at.spec_y())),
            ),
            !can_insert_char(old(self)@.rows, at.spec_x() as int, at.spec_y() as int)
                ==> final(self)@ == old(self)@,
    {
        if self.insert_char_bypass(at, ch).is_some() {
            self.history.record(
                at.as_coordinates(),
                Operation::InsertChar(at.as_coordinates()),
            );
        }
    }

    /// Insert a character at `at` without recording history; out of bounds
    /// is a silent no-op.
    pub fn insert_char_bypass<P: Coordinates + AsCoordinates>(
        &mut self,
        at: &P,
        ch: char,
    ) -> (r: Option<(usize, usize)>)
        ensures
            updated_wf(old(self)@.updated) ==> updated_wf(final(self)@.updated),
            can_insert_char(old(self)@.rows, at.spec_x() as int, at.spec_y() as int) ==> r
                == Some((at.spec_x(), at.spec_y())) && final(self)@ == old(self)@.with_edit(
                old(self)@.rows.update(
                    at.spec_y() as int,
                    old(self)@.rows[at.spec_y() as int].insert(at.spec_x() as int, ch),
                ),
                (at.spec_y(), (at.spec_y() + 1) as usize),
            ),
            !can_insert_char(old(self)@.rows, at.spec_x() as int, at.spec_y() as int) ==> r
                is None && final(self)@ == old(self)@,
    {
        let x = at.x();
        let y = at.y();
        if y < self.rows.len() {
            let row = &mut self.rows[y];
            if x <= row.len() {
                self.cached = true;
                self.updated.push((y, y + 1));
                row.insert(x, ch);
                proof {
                    assert(self@.rows =~= old(self)@.rows.update(
                        y as int,
                        old(self)@.rows[y as int].insert(x as int, ch),
                    ));
                }
                return Some((x, y));
            }
        }
        None
    }

    /// Truncate row `at.y` at `at.x`, stashing the removed tail as the
    /// pending clipboard entry and recording the edit; out of bounds is a
    /// silent no-op.
    pub fn shrink_row<P: Coordinates + AsCoordinates>(&mut self, at: &P)
        ensures
            updated_wf(old(self)@.updated) ==> updated_wf(final(self)@.updated),
            can_shrink_row(old(self)@.rows, at.spec_x() as int, at.spec_y() as int)
                ==> final(self)@ == old(self)@.with_edit(
                old(self)@.rows.update(
                    at.spec_y() as int,
                    old(self)@.rows[at.spec_y() as int].take(at.spec_x() as int),
                ),
                (at.spec_y(), (at.spec_y() + 1) as usize),
            ).with_pending(
                Some(
                    (
                        seq![old(self)@.rows[at.spec_y() as int].skip(at.spec_x() as int)],
                        SelectMode::Contiguous,
                    ),
                ),
            ).recorded(
                (at.spec_x(), at.spec_y()),
                OpView::ShrinkRow(
                    (at.spec_x(), at.spec_y()),
                    old(self)@.rows[at.spec_y() as int].skip(at.spec_x() as int),
                ),
            ),
            !can_shrink_row(old(self)@.rows, at.spec_x() as int, at.spec_y() as int)
                ==> final(self)@ == old(self)@,
    {
        if let Some(row) = self.shrink_row_bypass(at) {
            self.history.record(
                at.as_coordinates(),
                Operation::ShrinkRow(at.as_coordinates(), row),
            );
        }
    }

    /// Truncate row `at.y` at `at.x` without recording history, stashing
    /// the removed tail as the pending clipboard entry and returning it;
    /// out of bounds is a silent no-op.
    pub fn shrink_row_bypass<P: Coordinates + AsCoordinates>(&mut self, at: &P) -> (r: Option<
        Row,
    >)
        ensures
            updated_wf(old(self)@.updated) ==> updated_wf(final(self)@.updated),
            can_shrink_row(old(self)@.rows, at.spec_x() as int, at.spec_y() as int) ==> (
            match r {
                Some(row) => row@ == old(self)@.rows[at.spec_y() as int].skip(
                    at.spec_x() as int,
                ) && final(self)@ == old(self)@.with_edit(
                    old(self)@.rows.update(
                        at.spec_y() as int,
                        old(self)@.rows[at.spec_y() as int].take(at.spec_x() as int),
                    ),
                    (at.spec_y(), (at.spec_y() + 1) as usize),
                ).with_pending(Some((seq![row@], SelectMode::Contiguous))),
                None => false,
            }),
            !can_shrink_row(old(self)@.rows, at.spec_x() as int, at.spec_y() as int) ==> r
                is None && final(self)@ == old(self)@,
    {
        let x = at.x();
        let y = at.y();
        if y < self.rows.len() {
            if x <= self.rows[y].len() {
                self.cached = true;
                let row = &mut self.rows[y];
                let removed = row.split_off(x);
                self.updated.push((y, y + 1));
                let stash = vec![removed.clone()];
                proof {
                    assert(rows_view(stash@) =~= seq![
                        old(self)@.rows[y as int].skip(x as int),
                    ]);
                }
                self.pending = Some((stash, SelectMode::Contiguous));
                proof {
                    assert(self@.rows =~= old(self)@.rows.update(
                        y as int,
                        old(self)@.rows[y as int].take(x as int),
                    ));
                }
                return Some(removed);
            }
        }
        None
    }

    /// Split row `at.y` at `at.x`, the tail becoming a new row, and record
    /// the edit; out of bounds is a silent no-op.
    pub fn split_row<P: Coordinates + AsCoordinates>(&mut self, at: &P)
        ensures
            updated_wf(old(self)@.updated) ==> updated_wf(final(self)@.updated),
            can_split_row(old(self)@.rows, at.spec_x() as int, at.spec_y() as int)
                ==> final(self)@ == (BufferView {
                rows: split_rows(old(self)@.rows, at.spec_x() as int, at.spec_y() as int),
                cached: true,
                updated: old(self)@.updated.push(
                    (at.spec_y(), (old(self)@.rows.len() + 1) as usize),
                ).push(
                    ((at.spec_y() + 1) as usize, (old(self)@.rows.len() + 1) as usize),
                ),
                history: old(self)@.history.push(
                    (
                        (at.spec_x(), at.spec_y()),
                        OpView::SplitRow(
                            split_next_at(old(self)@.rows, at.spec_x(), at.spec_y()),
                        ),
                    ),
                ),
                ..old(self)@
            }),
            !can_split_row(old(self)@.rows, at.spec_x() as int, at.spec_y() as int)
                ==> final(self)@ == old(self)@,
    {
        if let Some(cur) = self.split_row_bypass(at) {
            self.history.record(at.as_coordinates(), Operation::SplitRow(cur));
        }
    }

    /// Split row `at.y` at `at.x` without recording history, returning the
    /// cursor position after the split; out of bounds is a silent no-op.
    pub fn split_row_bypass<P: Coordinates + AsCoordinates>(&mut self, at: &P) -> (r: Option<
        (usize, usize),
    >)
        ensures
            updated_wf(old(self)@.updated) ==> updated_wf(final(self)@.updated),
            can_split_row(old(self)@.rows, at.spec_x() as int, at.spec_y() as int) ==> r
                == Some(split_next_at(old(self)@.rows, at.spec_x(), at.spec_y())) && final(self)@ == (BufferView {
                rows: split_rows(old(self)@.rows, at.spec_x() as int, at.spec_y() as int),
                cached: true,
                updated: old(self)@.updated.push(
                    (at.spec_y(), (old(self)@.rows.len() + 1) as usize),
                ).push(
                    ((at.spec_y() + 1) as usize, (old(self)@.rows.len() + 1) as usize),
                ),
                ..old(self)@
            }),
            !can_split_row(old(self)@.rows, at.spec_x() as int, at.spec_y() as int) ==> r
                is None && final(self)@ == old(self)@,
    {
        let x = at.x();
        let y = at.y();
        let row_len = self.rows.len();
        if y < row_len && row_len < usize::MAX {
            if x <= self.rows[y].len() {
                self.cached = true;
                self.updated.push((y, row_len + 1));
                let next = {
                    let row = &mut self.rows[y];
                    row.split_off(x)
                };
                let next_x: usize = if y + 1 < row_len {
                    let below = self.rows[y + 1].len();
                    if x <= below {
                        x
                    } else {
                        below
                    }
                } else {
                    0
                };
                let next_at = (next_x, y + 1);
                proof {
                    assert(self@.rows =~= old(self)@.rows.update(
                        y as int,
                        old(self)@.rows[y as int].take(x as int),
                    ));
                }
                self.insert_row_bypass(&next_at, next.column());
                proof {
                    assert(self@.rows =~= split_rows(old(self)@.rows, x as int, y as int));
                }
                return Some(next_at);
            }
        }
        None
    }

    /// Join row `at.y` onto the row above it, recording the edit; the first
    /// row, or a row index out of bounds, is a silent no-op.
    pub fn squash_row<P: Coordinates + AsCoordinates>(&mut self, at: &P)
        ensures
            updated_wf(old(self)@.updated) ==> updated_wf(final(self)@.updated),
            can_squash_row(old(self)@.rows, at.spec_y() as int) ==> final(self)@ == (
            BufferView {
                rows: squash_rows(old(self)@.rows, at.spec_y() as int),
                cached: true,
                updated: old(self)@.updated.push(
                    (at.spec_y(), old(self)@.rows.len() as usize),
                ).push(
                    ((at.spec_y() - 1) as usize, (old(self)@.rows.len() - 1) as usize),
                ).push(((at.spec_y() - 1) as usize, at.spec_y())),
                history: old(self)@.history.push(
                    (
                        (at.spec_x(), at.spec_y()),
                        OpView::SquashRow(
                            (
                                old(self)@.rows[at.spec_y() - 1].len() as usize,
                                (at.spec_y() - 1) as usize,
                            ),
                        ),
                    ),
                ),
                ..old(self)@
            }),
            !can_squash_row(old(self)@.rows, at.spec_y() as int) ==> final(self)@ == old(self)@,
    {
        if let Some(cur) = self.squash_row_bypass(at) {
            self.history.record(at.as_coordinates(), Operation::SquashRow(cur));
        }
    }

    /// Join row `at.y` onto the row above it without recording history,
    /// returning where the join landed; the first row, or a row index out
    /// of bounds, is a silent no-op.
    pub fn squash_row_bypass<P: Coordinates + AsCoordinates>(&mut self, at: &P) -> (r: Option<
        (usize, usize),
    >)
        ensures
            updated_wf(old(self)@.updated) ==> updated_wf(final(self)@.updated),
            can_squash_row(old(self)@.rows, at.spec_y() as int) ==> r == Some(
                (
                    old(self)@.rows[at.spec_y() - 1].len() as usize,
                    (at.spec_y() - 1) as usize,
                ),
            ) && final(self)@ == (BufferView {
                rows: squash_rows(old(self)@.rows, at.spec_y() as int),
                cached: true,
                updated: old(self)@.updated.push(
                    (at.spec_y(), old(self)@.rows.len() as usize),
                ).push(
                    ((at.spec_y() - 1) as usize, (old(self)@.rows.len() - 1) as usize),
                ).push(((at.spec_y() - 1) as usize, at.spec_y())),
                ..old(self)@
            }),
            !can_squash_row(old(self)@.rows, at.spec_y() as int) ==> r is None && final(self)@ == old(self)@,
    {
        let y = at.y();
        if 0 < y && y < self.rows.len() {
            let row = self.rows.remove(y);
            self.cached = true;
            let after = self.rows.len();
            self.updated.push((y, after + 1));
            self.updated.push((y - 1, after));
            self.updated.push((y - 1, y));
            let target = &mut self.rows[y - 1];
            let x = target.len();
            target.append(row.column());
            proof {
                assert(self@.rows =~= squash_rows(old(self)@.rows, y as int));
            }
            return Some((x, y - 1));
        }
        None
    }

    /// Replace `length` characters at `at` by the given text, recording the
    /// edit and returning the removed text; a span past the row's end is a
    /// silent no-op.
    pub fn replace<P: Coordinates + AsCoordinates>(
        &mut self,
        at: &P,
        length: usize,
        text: &[char],
    ) -> (r: Option<Row>)
        ensures
            updated_wf(old(self)@.updated) ==> updated_wf(final(self)@.updated),
            can_replace(
                old(self)@.rows,
                at.spec_x() as int,
                at.spec_y() as int,
                length as int,
            ) ==> (match r {
                Some(removed) => removed@ == old(self)@.rows[at.spec_y() as int].subrange(
                    at.spec_x() as int,
                    at.spec_x() + length,
                ) && final(self)@ == old(self)@.with_edit(
                    old(self)@.rows.update(
                        at.spec_y() as int,
                        old(self)@.rows[at.spec_y() as int].take(at.spec_x() as int) + text@
                            + old(self)@.rows[at.spec_y() as int].skip(
                            at.spec_x() + length,
                        ),
                    ),
                    (at.spec_y(), (at.spec_y() + 1) as usize),
                ).recorded(
                    (at.spec_x(), at.spec_y()),
                    OpView::Replace((at.spec_x(), at.spec_y()), text@.len() as usize, removed@),
                ),
                None => false,
            }),
            !can_replace(
                old(self)@.rows,
                at.spec_x() as int,
                at.spec_y() as int,
                length as int,
            ) ==> r is None && final(self)@ == old(self)@,
    {
        let row = self.replace_bypass(at, length, text);
        if let Some(removed) = &row {
            self.history.record(
                at.as_coordinates(),
                Operation::Replace(at.as_coordinates(), text.len(), removed.clone()),
            );
        }
        row
    }

    /// Replace `length` characters at `at` by the given text without
    /// recording history, returning the removed text; a span past the
    /// row's end is a silent no-op.
    pub fn replace_bypass<P: Coordinates + AsCoordinates>(
        &mut self,
        at: &P,
        length: usize,
        text: &[char],
    ) -> (r: Option<Row>)
        ensures
            updated_wf(old(self)@.updated) ==> updated_wf(final(self)@.updated),
            can_replace(
                old(self)@.rows,
                at.spec_x() as int,
                at.spec_y() as int,
                length as int,
            ) ==> (match r {
                Some(removed) => removed@ == old(self)@.rows[at.spec_y() as int].subrange(
                    at.spec_x() as int,
                    at.spec_x() + length,
                ) && final(self)@ == old(self)@.with_edit(
                    old(self)@.rows.update(
                        at.spec_y() as int,
                        old(self)@.rows[at.spec_y() as int].take(at.spec_x() as int) + text@
                            + old(self)@.rows[at.spec_y() as int].skip(
                            at.spec_x() + length,
                        ),
                    ),
                    (at.spec_y(), (at.spec_y() + 1) as usize),
                ),
                None => false,
            }),
            !can_replace(
                old(self)@.rows,
                at.spec_x() as int,
                at.spec_y() as int,
                length as int,
            ) ==> r is None && final(self)@ == old(self)@,
    {
        let x = at.x();
        let y = at.y();
        if y < self.rows.len() {
            let row = &mut self.rows[y];
            if let Some(removed) = row.replace(x, length, text) {
                self.cached = true;
                self.updated.push((y, y + 1));
                proof {
                    assert(self@.rows =~= old(self)@.rows.update(
                        y as int,
                        old(self)@.rows[y as int].take(x as int) + text@ + old(self)@.rows[y as int].skip(x + length),
                    ));
                }
                return Some(Row::from(removed));
            }
        }
        None
    }

    /// Delete the range from `start` to `end` under the given mode,
    /// stashing the removed rows as the pending clipboard entry and
    /// recording the edit; an invalid range is a silent no-op.
    pub fn delete_chars<P: Coordinates + AsCoordinates>(
        &mut self,
        start: &P,
        end: &P,
        mode: SelectMode,
    )
        ensures
            updated_wf(old(self)@.updated) ==> updated_wf(final(self)@.updated),
            can_delete_chars(
                old(self)@.rows,
                start.spec_x() as int,
                start.spec_y() as int,
                end.spec_x() as int,
                end.spec_y() as int,
                mode,
            ) ==> final(self)@ == old(self)@.with_edit(
                delete_chars_rows(
                    old(self)@.rows,
                    start.spec_x() as int,
                    start.spec_y() as int,
                    end.spec_x() as int,
                    end.spec_y() as int,
                    mode,
                ),
                delete_chars_upd(
                    start.spec_y(),
                    end.spec_y(),
                    delete_chars_rows(
                        old(self)@.rows,
                        start.spec_x() as int,
                        start.spec_y() as int,
                        end.spec_x() as int,
                        end.spec_y() as int,
                        mode,
                    ).len(),
                ),
            ).with_pending(
                Some(
                    (
                        delete_chars_capture(
                            old(self)@.rows,
                            start.spec_x() as int,
                            start.spec_y() as int,
                            end.spec_x() as int,
                            end.spec_y() as int,
                            mode,
                        ),
                        mode,
                    ),
                ),
            ).recorded(
                (start.spec_x(), start.spec_y()),
                OpView::DeleteChars(
                    (start.spec_x(), start.spec_y()),
                    delete_chars_capture(
                        old(self)@.rows,
                        start.spec_x() as int,
                        start.spec_y() as int,
                        end.spec_x() as int,
                        end.spec_y() as int,
                        mode,
                    ),
                    mode,
                ),
            ),
            !can_delete_chars(
                old(self)@.rows,
                start.spec_x() as int,
                start.spec_y() as int,
                end.spec_x() as int,
                end.spec_y() as int,
                mode,
            ) ==> final(self)@ == old(self)@,
    {
        if let Some(rows) = self.delete_chars_bypass(start, end, mode) {
            self.history.record(
                start.as_coordinates(),
                Operation::DeleteChars(start.as_coordinates(), rows, mode),
            );
        }
    }

    /// Delete the range from `start` to `end` under the given mode without
    /// recording history, stashing and returning the removed rows; an
    /// invalid range is a silent no-op.
    pub fn delete_chars_bypass<P: Coordinates + AsCoordinates>(
        &mut self,
        start: &P,
        end: &P,
        mode: SelectMode,
    ) -> (r: Option<Vec<Row>>)
        ensures
            updated_wf(old(self)@.updated) ==> updated_wf(final(self)@.updated),
            can_delete_chars(
                old(self)@.rows,
                start.spec_x() as int,
                start.spec_y() as int,
                end.spec_x() as int,
                end.spec_y() as int,
                mode,
            ) ==> (match r {
                Some(rs) => rows_view(rs@) == delete_chars_capture(
                    old(self)@.rows,
                    start.spec_x() as int,
                    start.spec_y() as int,
                    end.spec_x() as int,
                    end.spec_y() as int,
                    mode,
                ) && final(self)@ == old(self)@.with_edit(
                    delete_chars_rows(
                        old(self)@.rows,
                        start.spec_x() as int,
                        start.spec_y() as int,
                        end.spec_x() as int,
                        end.spec_y() as int,
                        mode,
                    ),
                    delete_chars_upd(
                        start.spec_y(),
                        end.spec_y(),
                        delete_chars_rows(
                            old(self)@.rows,
                            start.spec_x() as int,
                            start.spec_y() as int,
                            end.spec_x() as int,
                            end.spec_y() as int,
                            mode,
                        ).len(),
                    ),
                ).with_pending(Some((rows_view(rs@), mode))),
                None => false,
            }),
            !can_delete_chars(
                old(self)@.rows,
                start.spec_x() as int,
                start.spec_y() as int,
                end.spec_x() as int,
                end.spec_y() as int,
                mode,
            ) ==> r is None && final(self)@ == old(self)@,
    {
        let sx = start.x();
        let sy = start.y();
        let ex = end.x();
        let ey = end.y();
        let removed = match mode {
            SelectMode::Contiguous => self.delete_contiguous(sx, sy, ex, ey),
            SelectMode::Rectangle => self.delete_rectangle(sx, sy, ex, ey),
        };
        if let Some(rs) = removed {
            self.cached = true;
            let stash = clone_rows(&rs);
            self.pending = Some((stash, mode));
            let len = self.rows.len();
            if sy == ey {
                proof {
                    assert(sy < len);
                }
                self.updated.push((sy, sy + 1));
            } else {
                self.updated.push((sy, len));
            }
            Some(rs)
        } else {
            None
        }
    }

    /// Delete a contiguous run from `(sx, sy)` to `(ex, ey)`, joining the
    /// row fragments before and after it, and return the removed rows.
    fn delete_contiguous(&mut self, sx: usize, sy: usize, ex: usize, ey: usize) -> (r: Option<
        Vec<Row>,
    >)
        ensures
            can_delete_contiguous(
                old(self)@.rows,
                sx as int,
                sy as int,
                ex as int,
                ey as int,
            ) ==> (match r {
                Some(rs) => rows_view(rs@) == capture_contiguous(
                    old(self)@.rows,
                    sx as int,
                    sy as int,
                    ex as int,
                    ey as int,
                ) && final(self)@ == (BufferView {
                    rows: delete_contiguous_rows(
                        old(self)@.rows,
                        sx as int,
                        sy as int,
                        ex as int,
                        ey as int,
                    ),
                    ..old(self)@
                }),
                None => false,
            }),
            !can_delete_contiguous(
                old(self)@.rows,
                sx as int,
                sy as int,
                ex as int,
                ey as int,
            ) ==> r is None && final(self)@ == old(self)@,
    {
        if sy == ey {
            if sy < self.rows.len() {
                let row = &mut self.rows[sy];
                if sx < row.len() && sx <= ex {
                    if let Some(text) = row.remove_range(sx..ex) {
                        let mut fragment = Row::default();
                        fragment.append(text.as_slice());
                        let mut rs: Vec<Row> = Vec::new();
                        rs.push(fragment);
                        proof {
                            assert(Seq::<char>::empty() + text@ =~= text@);
                            assert(rows_view(rs@) =~= capture_contiguous(
                                old(self)@.rows,
                                sx as int,
                                sy as int,
                                ex as int,
                                ey as int,
                            ));
                            assert(self@.rows =~= delete_contiguous_rows(
                                old(self)@.rows,
                                sx as int,
                                sy as int,
                                ex as int,
                                ey as int,
                            ));
                        }
                        return Some(rs);
                    }
                }
            }
            None
        } else if sy < ey && ey < self.rows.len() {
            if sx <= self.rows[sy].len() && ex <= self.rows[ey].len() {
                let ghost orig = self@.rows;
                let mut rs: Vec<Row> = Vec::new();
                let first_tail = {
                    let row = &mut self.rows[sy];
                    row.split_off(sx)
                };
                rs.push(first_tail);
                proof {
                    assert(self@.rows =~= orig.update(sy as int, orig[sy as int].take(sx as int)));
                }
                let ghost mid = self@.rows;
                let count = ey - sy - 1;
                let mut k: usize = 0;
                while k < count
                    invariant
                        k <= count,
                        count == ey - sy - 1,
                        sy < ey < orig.len(),
                        orig.len() <= usize::MAX,
                        mid.len() == orig.len(),
                        self@.rows.len() == orig.len() - k,
                        self@.rows =~= mid.take(sy + 1) + mid.skip(sy + 1 + k),
                        rows_view(rs@) =~= seq![orig[sy as int].skip(sx as int)]
                            + orig.subrange(sy + 1, sy + 1 + k),
                        self@.cached == old(self)@.cached,
                        self@.updated == old(self)@.updated,
                        self@.history == old(self)@.history,
                        self@.pending == old(self)@.pending,
                        self@.filename == old(self)@.filename,
                        mid == orig.update(sy as int, orig[sy as int].take(sx as int)),
                    decreases count - k,
                {
                    let ghost vr = self.rows@;
                    let ghost vs = rs@;
                    let removed = self.rows.remove(sy + 1);
                    let ghost removed_g = removed;
                    rs.push(removed);
                    proof {
                        lemma_rows_view_remove(vr, sy + 1);
                        lemma_rows_view_push(vs, removed_g);
                        assert(removed_g@ == rows_view(vr)[sy + 1]);
                        assert(self@.rows =~= mid.take(sy + 1) + mid.skip(sy + 1 + (k + 1)));
                        assert(rows_view(rs@) =~= seq![orig[sy as int].skip(sx as int)]
                            + orig.subrange(sy + 1, sy + 1 + (k + 1)));
                    }
                    k = k + 1;
                }
                proof {
                    assert(self@.rows[sy + 1] == mid[ey as int]);
                    assert(mid[ey as int] == orig[ey as int]);
                }
                let ghost vr2 = self.rows@;
                let mut end_row = self.rows.remove(sy + 1);
                proof {
                    lemma_rows_view_remove(vr2, sy + 1);
                    assert(end_row@ == rows_view(vr2)[sy + 1]);
                }
                let end_tail = end_row.split_off(ex);
                let ghost vs2 = rs@;
                let ghost end_row_g = end_row;
                rs.push(end_row);
                proof {
                    lemma_rows_view_push(vs2, end_row_g);
                }
                let ghost vr3 = self.rows@;
                {
                    let row = &mut self.rows[sy];
                    row.append(end_tail.column());
                }
                proof {
                    lemma_rows_view_update(vr3, sy as int, self.rows@[sy as int]);
                    assert(rows_view(vr3)[sy as int] == vr3[sy as int]@);
                }
                proof {
                    assert(rows_view(rs@) =~= capture_contiguous(
                        orig,
                        sx as int,
                        sy as int,
                        ex as int,
                        ey as int,
                    ));
                    assert(self@.rows =~= delete_contiguous_rows(
                        orig,
                        sx as int,
                        sy as int,
                        ex as int,
                        ey as int,
                    ));
                }
                Some(rs)
            } else {
                None
            }
        } else {
            None
        }
    }

    /// Delete the rectangle between columns `min(sx, ex)` and `max(sx, ex)`
    /// from every row in `sy..=ey`, and return the removed block, each row
    /// padded with spaces to the rectangle's width.
    fn delete_rectangle(&mut self, sx: usize, sy: usize, ex: usize, ey: usize) -> (r: Option<
        Vec<Row>,
    >)
        ensures
            0 <= sy <= ey < old(self)@.rows.len() ==> (match r {
                Some(rs) => rows_view(rs@) == rect_capture(
                    old(self)@.rows,
                    sy as int,
                    ey as int,
                    rect_start(sx as int, ex as int),
                    rect_end(sx as int, ex as int),
                ) && final(self)@ == (BufferView {
                    rows: rect_delete_rows(
                        old(self)@.rows,
                        sy as int,
                        ey as int,
                        rect_start(sx as int, ex as int),
                        rect_end(sx as int, ex as int),
                    ),
                    ..old(self)@
                }),
                None => false,
            }),
            !(0 <= sy <= ey < old(self)@.rows.len()) ==> r is None && final(self)@ == old(self)@,
    {
        if sy <= ey && ey < self.rows.len() {
            let st = if sx <= ex {
                sx
            } else {
                ex
            };
            let en = if sx <= ex {
                ex
            } else {
                sx
            };
            let ghost orig = self@.rows;
            let mut rs: Vec<Row> = Vec::new();
            let mut idx: usize = sy;
            while idx <= ey
                invariant
                    sy <= idx <= ey + 1,
                    ey < orig.len(),
                    st == rect_start(sx as int, ex as int),
                    en == rect_end(sx as int, ex as int),
                    st <= en,
                    self@.rows.len() == orig.len(),
                    self@.rows =~= Seq::new(
                        orig.len(),
                        |i: int|
                            if sy <= i < idx {
                                rect_delete_row(orig[i], st as int, en as int)
                            } else {
                                orig[i]
                            },
                    ),
                    rows_view(rs@) =~= Seq::new(
                        (idx - sy) as nat,
                        |i: int| rect_slice(orig[sy + i], st as int, en as int),
                    ),
                    self@.cached == old(self)@.cached,
                    self@.updated == old(self)@.updated,
                    self@.history == old(self)@.history,
                    self@.pending == old(self)@.pending,
                    self@.filename == old(self)@.filename,
                    orig.len() <= usize::MAX,
                decreases ey + 1 - idx,
            {
                let ghost rows_pre = self.rows@;
                let ghost rs_pre = rs@;
                let row_len = self.rows[idx].len();
                proof {
                    assert(self@.rows[idx as int] == orig[idx as int]);
                    assert(row_len == orig[idx as int].len());
                }
                if st < row_len {
                    let cut = if en <= row_len {
                        en
                    } else {
                        row_len
                    };
                    let text = {
                        let row = &mut self.rows[idx];
                        row.remove_range(st..cut)
                    };
                    proof {
                        lemma_rows_view_update(rows_pre, idx as int, self.rows@[idx as int]);
                        assert(rows_view(rows_pre)[idx as int] == rows_pre[idx as int]@);
                    }
                    let mut captured = Row::default();
                    if let Some(text) = text {
                        captured.append(text.as_slice());
                    }
                    let pad = spaces_vec(en - cut);
                    captured.append(pad.as_slice());
                    proof {
                        assert(captured@ =~= rect_slice(orig[idx as int], st as int, en as int));
                        assert(self@.rows =~= Seq::new(
                            orig.len(),
                            |i: int|
                                if sy <= i < idx + 1 {
                                    rect_delete_row(orig[i], st as int, en as int)
                                } else {
                                    orig[i]
                                },
                        ));
                    }
                    let ghost cap_g = captured;
                    rs.push(captured);
                    proof {
                        lemma_rows_view_push(rs_pre, cap_g);
                        assert(rows_view(rs@) =~= Seq::new(
                            (idx + 1 - sy) as nat,
                            |i: int| rect_slice(orig[sy + i], st as int, en as int),
                        ));
                    }
                } else {
                    let mut captured = Row::default();
                    let pad = spaces_vec(en - st);
                    captured.append(pad.as_slice());
                    proof {
                        assert(captured@ =~= rect_slice(orig[idx as int], st as int, en as int));
                        assert(self@.rows =~= Seq::new(
                            orig.len(),
                            |i: int|
                                if sy <= i < idx + 1 {
                                    rect_delete_row(orig[i], st as int, en as int)
                                } else {
                                    orig[i]
                                },
                        ));
                    }
                    let ghost cap_g = captured;
                    rs.push(captured);
                    proof {
                        lemma_rows_view_push(rs_pre, cap_g);
                        assert(rows_view(rs@) =~= Seq::new(
                            (idx + 1 - sy) as nat,
                            |i: int| rect_slice(orig[sy + i], st as int, en as int),
                        ));
                    }
                }
                idx = idx + 1;
            }
            proof {
                assert(rows_view(rs@) =~= rect_capture(
                    orig,
                    sy as int,
                    ey as int,
                    st as int,
                    en as int,
                ));
                assert(self@.rows =~= rect_delete_rows(
                    orig,
                    sy as int,
                    ey as int,
                    st as int,
                    en as int,
                ));
            }
            Some(rs)
        } else {
            None
        }
    }

    /// Insert rows at `at` under the given mode, recording the edit and
    /// returning where the insertion ended; an insertion that changes
    /// nothing records nothing and leaves the buffer untouched.
    pub fn insert_chars<P: Coordinates + AsCoordinates>(
        &mut self,
        at: &P,
        rows: &[Row],
        mode: SelectMode,
    ) -> (r: Option<(usize, usize)>)
        ensures
            updated_wf(old(self)@.updated) ==> updated_wf(final(self)@.updated),
            ({
                let x = at.spec_x();
                let y = at.spec_y();
                let ins = rows_view(rows@);
                let can = can_insert_chars(old(self)@.rows, x as int, y as int, ins, mode);
                let changes = insert_chars_changes(old(self)@.rows, x as int, y as int, ins, mode);
                let end = insert_chars_end(x, y, ins, mode);
                let new_rows = insert_chars_rows(old(self)@.rows, x as int, y as int, ins, mode);
                &&& can && changes ==> r == Some(end) && final(self)@ == (BufferView {
                    rows: new_rows,
                    cached: true,
                    updated: old(self)@.updated.push(
                        if y == end.1 {
                            (y, (end.1 + 1) as usize)
                        } else {
                            (y, new_rows.len() as usize)
                        },
                    ),
                    history: old(self)@.history.push(
                        ((x, y), OpView::InsertChars((x, y), end, mode)),
                    ),
                    ..old(self)@
                })
                &&& !(can && changes) ==> r is None && final(self)@ == old(self)@
            }),
    {
        if let Some(end) = self.insert_chars_bypass(at, rows, mode) {
            self.history.record(
                at.as_coordinates(),
                Operation::InsertChars(at.as_coordinates(), end, mode),
            );
            Some(end)
        } else {
            None
        }
    }

    /// Insert rows at `at` under the given mode without recording history,
    /// returning where the insertion ended; an insertion that changes
    /// nothing reports nothing and leaves the buffer untouched.
    pub fn insert_chars_bypass<P: Coordinates + AsCoordinates>(
        &mut self,
        at: &P,
        rows: &[Row],
        mode: SelectMode,
    ) -> (r: Option<(usize, usize)>)
        ensures
            updated_wf(old(self)@.updated) ==> updated_wf(final(self)@.updated),
            ({
                let x = at.spec_x();
                let y = at.spec_y();
                let ins = rows_view(rows@);
                let can = can_insert_chars(old(self)@.rows, x as int, y as int, ins, mode);
                let changes = insert_chars_changes(old(self)@.rows, x as int, y as int, ins, mode);
                let end = insert_chars_end(x, y, ins, mode);
                let new_rows = insert_chars_rows(old(self)@.rows, x as int, y as int, ins, mode);
                &&& can && changes ==> r == Some(end) && final(self)@ == (BufferView {
                    rows: new_rows,
                    cached: true,
                    updated: old(self)@.updated.push(
                        if y == end.1 {
                            (y, (end.1 + 1) as usize)
                        } else {
                            (y, new_rows.len() as usize)
                        },
                    ),
                    ..old(self)@
                })
                &&& !(can && changes) ==> r is None && final(self)@ == old(self)@
            }),
    {
        let x = at.x();
        let y = at.y();
        let end = match mode {
            SelectMode::Contiguous => self.insert_contiguous(x, y, rows),
            SelectMode::Rectangle => self.insert_rect(x, y, rows),
        };
        if let Some(end) = end {
            if y == end.1 {
                self.updated.push((y, end.1 + 1));
            } else {
                let len = self.rows.len();
                self.updated.push((y, len));
            }
            Some(end)
        } else {
            None
        }
    }

    /// Insert rows as a contiguous run at `(x, y)`: the first row joins the
    /// head fragment, the last the tail fragment; a single empty row would
    /// change nothing and is a silent no-op.
    fn insert_contiguous(&mut self, x: usize, y: usize, rows_in: &[Row]) -> (r: Option<
        (usize, usize),
    >)
        ensures
            can_insert_contiguous(old(self)@.rows, x as int, y as int, rows_view(rows_in@))
                && insert_chars_changes(
                old(self)@.rows,
                x as int,
                y as int,
                rows_view(rows_in@),
                SelectMode::Contiguous,
            ) ==> r == Some(insert_contiguous_end(x, y, rows_view(rows_in@))) && final(self)@
                == (BufferView {
                rows: insert_contiguous_rows(
                    old(self)@.rows,
                    x as int,
                    y as int,
                    rows_view(rows_in@),
                ),
                cached: true,
                ..old(self)@
            }),
            !(can_insert_contiguous(old(self)@.rows, x as int, y as int, rows_view(rows_in@))
                && insert_chars_changes(
                old(self)@.rows,
                x as int,
                y as int,
                rows_view(rows_in@),
                SelectMode::Contiguous,
            )) ==> r is None && final(self)@ == old(self)@,
    {
        let ghost insv = rows_view(rows_in@);
        let n = rows_in.len();
        if n == 0 || y >= self.rows.len() {
            return None;
        }
        if x > self.rows[y].len() {
            return None;
        }
        let first_len = vstd::slice::slice_index_get(rows_in, 0).len();
        proof {
            assert(rows_in@[0]@ == insv[0]);
        }
        if n == 1 && first_len == 0 {
            return None;
        }
        if x > usize::MAX - first_len {
            return None;
        }
        if n > usize::MAX - self.rows.len() {
            return None;
        }
        let ghost orig = self@.rows;
        self.cached = true;
        if n == 1 {
            let ghost vr = self.rows@;
            {
                let row = &mut self.rows[y];
                row.insert_slice(x, vstd::slice::slice_index_get(rows_in, 0).column());
            }
            proof {
                lemma_rows_view_update(vr, y as int, self.rows@[y as int]);
                assert(rows_view(vr)[y as int] == vr[y as int]@);
                assert(self@.rows =~= insert_contiguous_rows(orig, x as int, y as int, insv));
            }
            Some((x + first_len, y))
        } else {
            let ghost vr0 = self.rows@;
            let rest = {
                let row = &mut self.rows[y];
                let rest = row.split_off(x);
                row.append(vstd::slice::slice_index_get(rows_in, 0).column());
                rest
            };
            proof {
                lemma_rows_view_update(vr0, y as int, self.rows@[y as int]);
                assert(rows_view(vr0)[y as int] == vr0[y as int]@);
                assert(self@.rows =~= orig.update(y as int, orig[y as int].take(x as int)
                    + insv[0]));
            }
            let mut idx: usize = 1;
            while idx < n - 1
                invariant
                    1 <= idx <= n - 1,
                    2 <= n == insv.len() == rows_in@.len(),
                    insv == rows_view(rows_in@),
                    y < orig.len(),
                    x <= orig[y as int].len(),
                    orig.len() + n <= usize::MAX,
                    self@.rows.len() == orig.len() + idx - 1,
                    self@.rows =~= orig.take(y as int) + seq![
                        orig[y as int].take(x as int) + insv[0],
                    ] + insv.subrange(1, idx as int) + orig.skip(y + 1),
                    self@.cached == true,
                    self@.updated == old(self)@.updated,
                    self@.history == old(self)@.history,
                    self@.pending == old(self)@.pending,
                    self@.filename == old(self)@.filename,
                decreases n - idx,
            {
                let mut newrow = Row::default();
                newrow.append(vstd::slice::slice_index_get(rows_in, idx).column());
                proof {
                    assert(newrow@ =~= insv[idx as int]);
                }
                let ghost vr = self.rows@;
                let ghost ng = newrow;
                self.rows.insert(y + idx, newrow);
                proof {
                    lemma_rows_view_insert(vr, y + idx, ng);
                    assert(self@.rows =~= orig.take(y as int) + seq![
                        orig[y as int].take(x as int) + insv[0],
                    ] + insv.subrange(1, idx + 1) + orig.skip(y + 1));
                }
                idx = idx + 1;
            }
            let last_len = vstd::slice::slice_index_get(rows_in, n - 1).len();
            let mut lastrow = Row::default();
            lastrow.append(vstd::slice::slice_index_get(rows_in, n - 1).column());
            lastrow.append(rest.column());
            proof {
                assert(lastrow@ =~= insv[n - 1] + orig[y as int].skip(x as int));
            }
            let ghost vrl = self.rows@;
            let ghost lg = lastrow;
            self.rows.insert(y + n - 1, lastrow);
            proof {
                lemma_rows_view_insert(vrl, y + n - 1, lg);
                assert(self@.rows =~= insert_contiguous_rows(orig, x as int, y as int, insv));
            }
            Some((last_len, y + n - 1))
        }
    }

    /// Insert rows as a rectangular block at `(x, y)`: each target row gets
    /// one inserted row at column `x`, short rows are padded with spaces
    /// first, missing rows are created.
    fn insert_rect(&mut self, x: usize, y: usize, rows_in: &[Row]) -> (r: Option<(usize, usize)>)
        ensures
            can_insert_rect(old(self)@.rows, x as int, y as int, rows_view(rows_in@))
                && insert_chars_changes(
                old(self)@.rows,
                x as int,
                y as int,
                rows_view(rows_in@),
                SelectMode::Rectangle,
            ) ==> r == Some(insert_rect_end(x, y, rows_view(rows_in@))) && final(self)@ == (
            BufferView {
                rows: insert_rect_rows(old(self)@.rows, x as int, y as int, rows_view(rows_in@)),
                cached: true,
                ..old(self)@
            }),
            !(can_insert_rect(old(self)@.rows, x as int, y as int, rows_view(rows_in@))
                && insert_chars_changes(
                old(self)@.rows,
                x as int,
                y as int,
                rows_view(rows_in@),
                SelectMode::Rectangle,
            )) ==> r is None && final(self)@ == old(self)@,
    {
        let ghost insv = rows_view(rows_in@);
        let n = rows_in.len();
        if n == 0 || y > self.rows.len() {
            return None;
        }
        let last_len = vstd::slice::slice_index_get(rows_in, n - 1).len();
        proof {
            assert(rows_in@[n - 1]@ == insv[n - 1]);
        }
        if x > usize::MAX - last_len {
            return None;
        }
        if n > usize::MAX - self.rows.len() {
            return None;
        }
        let mut changed = false;
        let mut probe: usize = 0;
        while probe < n
            invariant
                probe <= n,
                n == insv.len() == rows_in@.len(),
                insv == rows_view(rows_in@),
                y <= self@.rows.len(),
                self@.rows.len() + n <= usize::MAX,
                *self == *old(self),
                changed == exists|j: int|
                    0 <= j < probe && (y + j >= self@.rows.len() || (#[trigger] insv[j]).len()
                        > 0 || self@.rows[y + j].len() < x),
            decreases n - probe,
        {
            let target = y + probe;
            proof {
                assert(rows_in@[probe as int]@ == insv[probe as int]);
            }
            let here = if target >= self.rows.len() {
                true
            } else {
                let ins_len = vstd::slice::slice_index_get(rows_in, probe).len();
                ins_len > 0 || self.rows[target].len() < x
            };
            changed = changed || here;
            probe = probe + 1;
        }
        if !changed {
            return None;
        }
        self.cached = true;
        let ghost orig = self@.rows;
        let mut idx: usize = 0;
        while idx < n
            invariant
                idx <= n,
                n == insv.len() == rows_in@.len(),
                insv == rows_view(rows_in@),
                1 <= n,
                y <= orig.len(),
                orig.len() + n <= usize::MAX,
                self@.rows =~= insert_rect_rows(orig, x as int, y as int, insv.subrange(
                    0,
                    idx as int,
                )),
                self@.cached,
                self@.updated == old(self)@.updated,
                self@.history == old(self)@.history,
                self@.pending == old(self)@.pending,
                self@.filename == old(self)@.filename,
            decreases n - idx,
        {
            let ghost pre = self@.rows;
            let target = y + idx;
            proof {
                assert(self@.rows.len() == (if orig.len() >= y + idx {
                    orig.len() as int
                } else {
                    y + idx
                }));
            }
            if target < self.rows.len() {
                let row_len = self.rows[target].len();
                proof {
                    assert(self@.rows[target as int] == orig[target as int]);
                }
                let ghost vr = self.rows@;
                if row_len < x {
                    let pad = spaces_vec(x - row_len);
                    let row = &mut self.rows[target];
                    row.append(pad.as_slice());
                    row.append(vstd::slice::slice_index_get(rows_in, idx).column());
                } else {
                    let row = &mut self.rows[target];
                    row.insert_slice(x, vstd::slice::slice_index_get(rows_in, idx).column());
                }
                proof {
                    lemma_rows_view_update(vr, target as int, self.rows@[target as int]);
                    assert(rows_view(vr)[target as int] == vr[target as int]@);
                    assert(self.rows@[target as int]@ =~= rect_insert_row(
                        orig[target as int],
                        x as int,
                        insv[idx as int],
                    ));
                    assert(insv.subrange(0, idx as int) =~= insv.subrange(0, idx + 1).take(
                        idx as int,
                    ));
                    assert(self@.rows =~= insert_rect_rows(orig, x as int, y as int, insv.subrange(
                        0,
                        idx + 1,
                    )));
                }
            } else {
                let mut newrow = Row::default();
                let pad = spaces_vec(x);
                newrow.append(pad.as_slice());
                newrow.append(vstd::slice::slice_index_get(rows_in, idx).column());
                proof {
                    assert(newrow@ =~= crate::row::spaces(x as nat) + insv[idx as int]);
                }
                let ghost vr = self.rows@;
                let ghost ng = newrow;
                self.rows.insert(target, newrow);
                proof {
                    lemma_rows_view_insert(vr, target as int, ng);
                    assert(self@.rows =~= insert_rect_rows(orig, x as int, y as int, insv.subrange(
                        0,
                        idx + 1,
                    )));
                }
            }
            idx = idx + 1;
        }
        proof {
            assert(insv.subrange(0, n as int) =~= insv);
            assert(self@.rows =~= insert_rect_rows(orig, x as int, y as int, insv));
        }
        Some((x + last_len, y + n - 1))
    }

    /// Re-insert the stashed clipboard rows at `at` under the mode they
    /// were captured with, recording exactly one history entry; an empty
    /// clipboard is a silent no-op.
    pub fn paste_pending<P: Coordinates + AsCoordinates>(&mut self, at: &P) -> (r: Option<
        (usize, usize),
    >)
        ensures
            updated_wf(old(self)@.updated) ==> updated_wf(final(self)@.updated),
            ({
                let x = at.spec_x();
                let y = at.spec_y();
                match old(self)@.pending {
                    None => r is None && final(self)@ == old(self)@,
                    Some(p) => {
                        let ins = p.0;
                        let mode = p.1;
                        let can = can_insert_chars(old(self)@.rows, x as int, y as int, ins, mode);
                        let changes = insert_chars_changes(
                            old(self)@.rows,
                            x as int,
                            y as int,
                            ins,
                            mode,
                        );
                        let end = insert_chars_end(x, y, ins, mode);
                        let new_rows = insert_chars_rows(
                            old(self)@.rows,
                            x as int,
                            y as int,
                            ins,
                            mode,
                        );
                        &&& can && changes ==> r == Some(end) && final(self)@ == (
                        BufferView {
                            rows: new_rows,
                            cached: true,
                            updated: old(self)@.updated.push(
                                if y == end.1 {
                                    (y, (end.1 + 1) as usize)
                                } else {
                                    (y, new_rows.len() as usize)
                                },
                            ),
                            history: old(self)@.history.push(
                                ((x, y), OpView::InsertChars((x, y), end, mode)),
                            ),
                            ..old(self)@
                        })
                        &&& !(can && changes) ==> r is None && final(self)@ == old(self)@
                    },
                }
            }),
    {
        let stash = match &self.pending {
            Some(p) => Some((clone_rows(&p.0), p.1)),
            None => None,
        };
        if let Some((rows, mode)) = stash {
            self.insert_chars(at, rows.as_slice(), mode)
        } else {
            None
        }
    }

    /// The rows the range from `range.start` to `range.end` covers under
    /// the given mode, without mutating anything; an invalid range returns
    /// `None`.
    pub fn get_range(&self, range: core::ops::Range<&crate::cursor::Cursor>, mode: SelectMode)
        -> (r: Option<Vec<Row>>)
        ensures
            (match mode {
                SelectMode::Contiguous => {
                    &&& can_get_contiguous(
                        self@.rows,
                        range.start.spec_x() as int,
                        range.start.spec_y() as int,
                        range.end.spec_x() as int,
                        range.end.spec_y() as int,
                    ) ==> (match r {
                        Some(rs) => rows_view(rs@) == capture_contiguous(
                            self@.rows,
                            range.start.spec_x() as int,
                            range.start.spec_y() as int,
                            range.end.spec_x() as int,
                            range.end.spec_y() as int,
                        ),
                        None => false,
                    })
                    &&& !can_get_contiguous(
                        self@.rows,
                        range.start.spec_x() as int,
                        range.start.spec_y() as int,
                        range.end.spec_x() as int,
                        range.end.spec_y() as int,
                    ) ==> r is None
                },
                SelectMode::Rectangle => {
                    &&& (range.start.spec_y() <= range.end.spec_y() < self@.rows.len()) ==> (
                    match r {
                        Some(rs) => rows_view(rs@) == rect_capture(
                            self@.rows,
                            range.start.spec_y() as int,
                            range.end.spec_y() as int,
                            rect_start(range.start.spec_x() as int, range.end.spec_x() as int),
                            rect_end(range.start.spec_x() as int, range.end.spec_x() as int),
                        ),
                        None => false,
                    })
                    &&& !(range.start.spec_y() <= range.end.spec_y() < self@.rows.len())
                        ==> r is None
                },
            }),
    {
        let sx = range.start.x();
        let sy = range.start.y();
        let ex = range.end.x();
        let ey = range.end.y();
        match mode {
            SelectMode::Contiguous => self.get_contiguous(sx, sy, ex, ey),
            SelectMode::Rectangle => self.get_rectangle(sx, sy, ex, ey),
        }
    }

    /// Read a contiguous range without mutating anything.
    fn get_contiguous(&self, sx: usize, sy: usize, ex: usize, ey: usize) -> (r: Option<Vec<Row>>)
        ensures
            can_get_contiguous(self@.rows, sx as int, sy as int, ex as int, ey as int) ==> (
            match r {
                Some(rs) => rows_view(rs@) == capture_contiguous(
                    self@.rows,
                    sx as int,
                    sy as int,
                    ex as int,
                    ey as int,
                ),
                None => false,
            }),
            !can_get_contiguous(self@.rows, sx as int, sy as int, ex as int, ey as int)
                ==> r is None,
    {
        if sy == ey {
            if sy < self.rows.len() && ex <= self.rows[sy].len() && sx <= ex {
                let mut fragment = Row::default();
                fragment.append(vstd::slice::slice_subrange(
                    self.rows[sy].column(),
                    sx,
                    ex,
                ));
                let mut rs: Vec<Row> = Vec::new();
                rs.push(fragment);
                proof {
                    assert(rows_view(rs@) =~= capture_contiguous(
                        self@.rows,
                        sx as int,
                        sy as int,
                        ex as int,
                        ey as int,
                    ));
                }
                Some(rs)
            } else {
                None
            }
        } else if sy < ey && ey < self.rows.len() && sx <= self.rows[sy].len() && ex
            <= self.rows[ey].len() {
            let mut rs: Vec<Row> = Vec::new();
            let first_len = self.rows[sy].len();
            let mut first = Row::default();
            first.append(vstd::slice::slice_subrange(self.rows[sy].column(), sx, first_len));
            rs.push(first);
            let mut idx: usize = sy + 1;
            while idx < ey
                invariant
                    sy < idx <= ey < self@.rows.len(),
                    sx <= self@.rows[sy as int].len(),
                    rows_view(rs@) =~= seq![self@.rows[sy as int].skip(sx as int)]
                        + self@.rows.subrange(sy + 1, idx as int),
                decreases ey - idx,
            {
                let copy = self.rows[idx].clone();
                proof {
                    assert(copy@ == self@.rows[idx as int]);
                }
                let ghost rs_pre = rs@;
                let ghost copy_g = copy;
                rs.push(copy);
                proof {
                    lemma_rows_view_push(rs_pre, copy_g);
                    assert(rows_view(rs@) =~= seq![self@.rows[sy as int].skip(sx as int)]
                        + self@.rows.subrange(sy + 1, idx + 1));
                }
                idx = idx + 1;
            }
            let mut last = Row::default();
            last.append(vstd::slice::slice_subrange(self.rows[ey].column(), 0, ex));
            rs.push(last);
            proof {
                assert(rows_view(rs@) =~= capture_contiguous(
                    self@.rows,
                    sx as int,
                    sy as int,
                    ex as int,
                    ey as int,
                ));
            }
            Some(rs)
        } else {
            None
        }
    }

    /// Read a rectangle without mutating anything.
    fn get_rectangle(&self, sx: usize, sy: usize, ex: usize, ey: usize) -> (r: Option<Vec<Row>>)
        ensures
            sy <= ey < self@.rows.len() ==> (match r {
                Some(rs) => rows_view(rs@) == rect_capture(
                    self@.rows,
                    sy as int,
                    ey as int,
                    rect_start(sx as int, ex as int),
                    rect_end(sx as int, ex as int),
                ),
                None => false,
            }),
            !(sy <= ey < self@.rows.len()) ==> r is None,
    {
        if sy <= ey && ey < self.rows.len() {
            let st = if sx <= ex {
                sx
            } else {
                ex
            };
            let en = if sx <= ex {
                ex
            } else {
                sx
            };
            let mut rs: Vec<Row> = Vec::new();
            let mut idx: usize = sy;
            while idx <= ey
                invariant
                    sy <= idx <= ey + 1,
                    ey < self@.rows.len(),
                    st == rect_start(sx as int, ex as int),
                    en == rect_end(sx as int, ex as int),
                    st <= en,
                    rows_view(rs@) =~= Seq::new(
                        (idx - sy) as nat,
                        |i: int| rect_slice(self@.rows[sy + i], st as int, en as int),
                    ),
                    self@.rows.len() <= usize::MAX,
                decreases ey + 1 - idx,
            {
                let row_len = self.rows[idx].len();
                let mut captured = Row::default();
                if st < row_len {
                    let cut = if en <= row_len {
                        en
                    } else {
                        row_len
                    };
                    captured.append(vstd::slice::slice_subrange(self.rows[idx].column(), st, cut));
                    let pad = spaces_vec(en - cut);
                    captured.append(pad.as_slice());
                } else {
                    let pad = spaces_vec(en - st);
                    captured.append(pad.as_slice());
                }
                proof {
                    assert(captured@ =~= rect_slice(self@.rows[idx as int], st as int, en as int));
                }
                let ghost rs_pre = rs@;
                let ghost cap_g = captured;
                rs.push(captured);
                proof {
                    lemma_rows_view_push(rs_pre, cap_g);
                    assert(rows_view(rs@) =~= Seq::new(
                        (idx + 1 - sy) as nat,
                        |i: int| rect_slice(self@.rows[sy + i], st as int, en as int),
                    ));
                }
                idx = idx + 1;
            }
            proof {
                assert(rows_view(rs@) =~= rect_capture(
                    self@.rows,
                    sy as int,
                    ey as int,
                    st as int,
                    en as int,
                ));
            }
            Some(rs)
        } else {
            None
        }
    }

    /// Stash the rows the range covers as the pending clipboard entry,
    /// without deleting them; an invalid range clears the slot.
    pub fn copy_pending(
        &mut self,
        range: core::ops::Range<&crate::cursor::Cursor>,
        mode: SelectMode,
    )
        ensures
            final(self)@ == old(self)@.with_pending(
                (match mode {
                    SelectMode::Contiguous => if can_get_contiguous(
                        old(self)@.rows,
                        range.start.spec_x() as int,
                        range.start.spec_y() as int,
                        range.end.spec_x() as int,
                        range.end.spec_y() as int,
                    ) {
                        Some(
                            (
                                capture_contiguous(
                                    old(self)@.rows,
                                    range.start.spec_x() as int,
                                    range.start.spec_y() as int,
                                    range.end.spec_x() as int,
                                    range.end.spec_y() as int,
                                ),
                                mode,
                            ),
                        )
                    } else {
                        None
                    },
                    SelectMode::Rectangle => if range.start.spec_y() <= range.end.spec_y()
                        < old(self)@.rows.len() {
                        Some(
                            (
                                rect_capture(
                                    old(self)@.rows,
                                    range.start.spec_y() as int,
                                    range.end.spec_y() as int,
                                    rect_start(
                                        range.start.spec_x() as int,
                                        range.end.spec_x() as int,
                                    ),
                                    rect_end(
                                        range.start.spec_x() as int,
                                        range.end.spec_x() as int,
                                    ),
                                ),
                                mode,
                            ),
                        )
                    } else {
                        None
                    },
                }),
            ),
    {
        let captured = self.get_range(range, mode);
        self.pending = match captured {
            Some(rows) => Some((rows, mode)),
            None => None,
        };
    }

    /// The first position at or after `at` where the keyword stands,
    /// scanning forward row by row.
    pub fn find_at<P: Coordinates>(&self, at: &P, keyword: &str) -> (r: Option<(usize, usize)>)
        ensures
            r == find_from(self@.rows, keyword@, at.spec_x() as int, at.spec_y() as int),
    {
        let kw = crate::row::str_chars(keyword);
        let mut skip_x = at.x();
        let mut y = at.y();
        while y < self.rows.len()
            invariant
                at.spec_y() <= y,
                y > at.spec_y() ==> skip_x == 0,
                y == at.spec_y() ==> skip_x == at.spec_x(),
                kw@ == keyword@,
                find_from(self@.rows, keyword@, at.spec_x() as int, at.spec_y() as int)
                    == find_from(self@.rows, keyword@, skip_x as int, y as int),
            decreases self@.rows.len() - y,
        {
            let row_slice = self.rows[y].column();
            proof {
                assert(row_slice@ == self@.rows[y as int]);
            }
            let found = slice_find_from(row_slice, kw.as_slice(), skip_x);
            if let Some(x) = found {
                return Some((x, y));
            }
            skip_x = 0;
            y = y + 1;
        }
        None
    }

    /// The nearest position at or before `at` where the keyword stands,
    /// scanning backward row by row; in the starting row only the first
    /// `at.x + 1` characters are searched.
    pub fn rfind_at<P: Coordinates>(&self, at: &P, keyword: &str) -> (r: Option<(usize, usize)>)
        ensures
            r == rfind_from(self@.rows, keyword@, at.spec_x() as int, at.spec_y() as int),
    {
        let kw = crate::row::str_chars(keyword);
        if self.rows.len() == 0 {
            return None;
        }
        let mut y: usize;
        let mut taken: usize;
        if at.y() < self.rows.len() {
            y = at.y();
            let len = self.rows[y].len();
            taken = if at.x() >= len {
                len
            } else {
                at.x() + 1
            };
        } else {
            y = self.rows.len() - 1;
            taken = self.rows[y].len();
        }
        loop
            invariant
                0 <= y < self@.rows.len(),
                taken <= self@.rows[y as int].len(),
                kw@ == keyword@,
                rfind_from(self@.rows, keyword@, at.spec_x() as int, at.spec_y() as int)
                    == rfind_scan(self@.rows, keyword@, y as int, taken as int),
            decreases y,
        {
            if kw.len() <= taken {
                let row_slice = self.rows[y].column();
                proof {
                    assert(row_slice@ == self@.rows[y as int]);
                }
                let found = slice_rfind_upto(row_slice, kw.as_slice(), taken - kw.len());
                if let Some(x) = found {
                    return Some((x, y));
                }
            }
            if y == 0 {
                return None;
            }
            y = y - 1;
            taken = self.rows[y].len();
        }
    }

    /// The row at `index`, if any.
    pub fn get(&self, index: usize) -> (r: Option<&Row>)
        ensures
            index < self@.rows.len() ==> (match r {
                Some(row) => row@ == self@.rows[index as int],
                None => false,
            }),
            index >= self@.rows.len() ==> r is None,
    {
        if index < self.rows.len() {
            Some(&self.rows[index])
        } else {
            None
        }
    }

    /// Character length of row `at.y`, or 0 when `at.y` is out of bounds.
    pub fn row_char_len<P: Coordinates>(&self, at: &P) -> (r: usize)
        ensures
            r == self@.row_len(at.spec_y() as int),
    {
        let y = at.y();
        if y < self.rows.len() {
            self.rows[y].len()
        } else {
            0
        }
    }

    /// Whether row `row` lies in a queued redraw range.
    pub fn row_updated(&self, row: usize) -> (r: bool)
        ensures
            r == row_in_updated(self@.updated, row as int),
    {
        let n = self.updated.len();
        let mut i: usize = 0;
        while i < n
            invariant
                i <= n,
                n == self@.updated.len(),
                forall|k: int|
                    0 <= k < i ==> !((#[trigger] self@.updated[k]).0 <= row
                        < self@.updated[k].1),
            decreases n - i,
        {
            let range = self.updated[i];
            if range.0 <= row && row < range.1 {
                return true;
            }
            i = i + 1;
        }
        false
    }

    /// Number of rows in the buffer.
    pub fn rows(&self) -> (r: usize)
        ensures
            r == self@.rows.len(),
    {
        self.rows.len()
    }

    /// The stashed cut or copy, if any.
    pub fn pending(&self) -> (r: Option<&[Row]>)
        ensures
            (match self@.pending {
                Some(p) => r is Some && rows_view(r.unwrap()@) == p.0,
                None => r is None,
            }),
    {
        match &self.pending {
            Some(p) => Some(p.0.as_slice()),
            None => None,
        }
    }

    /// Remember the file the buffer belongs to.
    pub fn set_filename(&mut self, filename: &str)
        ensures
            final(self)@ == (BufferView { filename: Some(filename@), ..old(self)@ }),
    {
        self.filename = Some(filename.to_owned());
    }

    /// The file the buffer belongs to, if any.
    pub fn filename(&self) -> (r: Option<&String>)
        ensures
            (match self@.filename {
                Some(name) => r is Some && r.unwrap()@ == name,
                None => r is None,
            }),
    {
        self.filename.as_ref()
    }

    /// Undo the most recently recorded operation by applying its stored
    /// inverse through the bypass mutations, and return the cursor position
    /// that was active when it was recorded; an empty history returns
    /// `None` and changes nothing.
    pub fn undo(&mut self) -> (r: Option<(usize, usize)>)
        ensures
            updated_wf(old(self)@.updated) ==> updated_wf(final(self)@.updated),
            old(self)@.history.len() == 0 ==> r is None && final(self)@ == old(self)@,
            old(self)@.history.len() > 0 ==> r == Some(old(self)@.history.last().0)
                && final(self)@ == undo_apply(
                (BufferView {
                    cached: true,
                    history: old(self)@.history.drop_last(),
                    ..old(self)@
                }),
                old(self)@.history.last().1,
            ),
    {
        if let Some(entry) = self.history.rollback() {
            self.cached = true;
            let (cur, op) = entry;
            match op {
                Operation::Append(cord) => {
                    let _ = self.shrink_row_bypass(&cord);
                },
                Operation::DeleteChar(cord, ch) => {
                    let nx: usize = if cord.0 > 0 {
                        cord.0 - 1
                    } else {
                        0
                    };
                    let _ = self.insert_char_bypass(&(nx, cord.1), ch);
                },
                Operation::DeleteChars(cord, rows, mode) => {
                    let _ = self.insert_chars_bypass(&cord, rows.as_slice(), mode);
                },
                Operation::DeleteRow(cord, row) => {
                    let _ = self.insert_row_bypass(&cord, row.column());
                },
                Operation::InsertChar(cord) => {
                    if cord.0 < usize::MAX {
                        let _ = self.delete_char_bypass(&(cord.0 + 1, cord.1));
                    }
                },
                Operation::InsertChars(cord, end, mode) => {
                    let _ = self.delete_chars_bypass(&cord, &end, mode);
                },
                Operation::InsertRow(cord) => {
                    let _ = self.delete_row_bypass(&cord);
                },
                Operation::Replace(cord, length, row) => {
                    let _ = self.replace_bypass(&cord, length, row.column());
                },
                Operation::ShrinkRow(cord, row) => {
                    let _ = self.append_row_bypass(&cord, row.column());
                },
                Operation::SplitRow(cord) => {
                    let _ = self.squash_row_bypass(&cord);
                },
                Operation::SquashRow(cord) => {
                    let _ = self.split_row_bypass(&cord);
                },
            }
            Some(cur)
        } else {
            None
        }
    }

    /// The buffer's contents as the text a save writes: every row followed
    /// by a Windows line ending, whatever the loaded file used.
    pub fn content_text(&self) -> (r: String)
        ensures
            r@ == file_text(self@.rows),
    {
        let mut out: Vec<char> = Vec::new();
        let mut y: usize = 0;
        while y < self.rows.len()
            invariant
                y <= self@.rows.len(),
                out@ == file_text(self@.rows.take(y as int)),
            decreases self@.rows.len() - y,
        {
            let ghost pre = out@;
            let row = &self.rows[y];
            out.extend_from_slice(row.column());
            out.push('\r');
            out.push('\n');
            proof {
                assert(self@.rows.take(y + 1).drop_last() =~= self@.rows.take(y as int));
                assert(self@.rows.take(y + 1).last() == self@.rows[y as int]);
                assert(out@ =~= pre + self@.rows[y as int] + seq!['\r', '\n']);
            }
            y = y + 1;
        }
        proof {
            assert(self@.rows.take(self@.rows.len() as int) =~= self@.rows);
        }
        crate::row::chars_to_string(out)
    }

    /// Whether any row range is queued for redraw.
    pub fn updated(&self) -> (r: bool)
        ensures
            r == (self@.updated.len() > 0),
    {
        !self.updated.is_empty()
    }

    /// Number of records in the undo log.
    pub fn history_len(&self) -> (r: usize)
        ensures
            r == self@.history.len(),
    {
        self.history.len()
    }

    /// Drop every undo record.
    pub fn clear_history(&mut self)
        ensures
            final(self)@ == (BufferView {
                history: Seq::<((usize, usize), OpView)>::empty(),
                ..old(self)@
            }),
    {
        self.history.clear();
    }

    /// Clear the dirty flag, after the buffer's contents were written out.
    pub fn clear_cached(&mut self)
        ensures
            final(self)@ == (BufferView { cached: false, ..old(self)@ }),
    {
        self.cached = false;
    }
}

// -----------------------------------------------------------------------------------------------
// Laws: every recorded operation is inverted exactly by the inverse its
// record stores, and a paste restores what a cut removed.

/// Law: inserting what a delete captured, at the coordinate the delete
/// started from, restores the rows exactly, and such an insertion is
/// always possible. For a rectangle this holds when its columns are
/// ordered and every affected row reaches past its right edge; a shorter
/// row comes back space-padded instead.
pub proof fn lemma_paste_restores_cut(
    rows: Seq<Seq<char>>,
    sx: usize,
    sy: usize,
    ex: usize,
    ey: usize,
    mode: SelectMode,
)
    requires
        can_delete_chars(rows, sx as int, sy as int, ex as int, ey as int, mode),
        rows.len() + rows.len() <= usize::MAX,
        forall|i: int| 0 <= i < rows.len() ==> (#[trigger] rows[i]).len() <= usize::MAX,
        mode is Rectangle ==> sx <= ex && (forall|i: int|
            sy <= i <= ey ==> ex <= (#[trigger] rows[i]).len()),
    ensures
        can_insert_chars(
            delete_chars_rows(rows, sx as int, sy as int, ex as int, ey as int, mode),
            sx as int,
            sy as int,
            delete_chars_capture(rows, sx as int, sy as int, ex as int, ey as int, mode),
            mode,
        ),
        insert_chars_rows(
            delete_chars_rows(rows, sx as int, sy as int, ex as int, ey as int, mode),
            sx as int,
            sy as int,
            delete_chars_capture(rows, sx as int, sy as int, ex as int, ey as int, mode),
            mode,
        ) == rows,
{
    let deleted = delete_chars_rows(rows, sx as int, sy as int, ex as int, ey as int, mode);
    let capture = delete_chars_capture(rows, sx as int, sy as int, ex as int, ey as int, mode);
    match mode {
        SelectMode::Contiguous => {
            if sy == ey {
                assert(deleted[sy as int].take(sx as int) =~= rows[sy as int].take(sx as int));
                assert(deleted[sy as int].skip(sx as int) =~= rows[sy as int].skip(ex as int));
                assert(deleted[sy as int].take(sx as int) + capture[0] + deleted[sy as int].skip(
                    sx as int,
                ) =~= rows[sy as int]);
                assert(insert_chars_rows(deleted, sx as int, sy as int, capture, mode)
                    =~= rows);
            } else {
                let n = capture.len() as int;
                assert(n == ey - sy + 1);
                assert(deleted.len() == rows.len() - (ey - sy));
                assert(deleted[sy as int] == rows[sy as int].take(sx as int)
                    + rows[ey as int].skip(ex as int));
                assert(deleted[sy as int].take(sx as int) =~= rows[sy as int].take(sx as int));
                assert(deleted[sy as int].skip(sx as int) =~= rows[ey as int].skip(ex as int));
                assert(capture[0] == rows[sy as int].skip(sx as int));
                assert(capture[n - 1] == rows[ey as int].take(ex as int));
                assert(deleted[sy as int].take(sx as int) + capture[0] =~= rows[sy as int]);
                assert(capture[n - 1] + deleted[sy as int].skip(sx as int)
                    =~= rows[ey as int]);
                assert(capture.subrange(1, n - 1) =~= rows.subrange(sy + 1, ey as int));
                assert(insert_chars_rows(deleted, sx as int, sy as int, capture, mode)
                    =~= rows);
            }
        },
        SelectMode::Rectangle => {
            let n = capture.len() as int;
            assert(n == ey - sy + 1);
            assert(deleted.len() == rows.len());
            assert forall|i: int| sy <= i <= ey implies rect_insert_row(
                deleted[i],
                sx as int,
                capture[i - sy],
            ) =~= rows[i] by {
                assert(deleted[i] == rect_delete_row(rows[i], sx as int, ex as int));
                assert(capture[i - sy] == rect_slice(rows[i], sx as int, ex as int));
                if (sx as int) < rows[i].len() {
                    assert(deleted[i] =~= rows[i].take(sx as int) + rows[i].skip(ex as int));
                    assert(capture[i - sy] =~= rows[i].subrange(sx as int, ex as int));
                    assert(deleted[i].len() >= sx);
                    assert(deleted[i].take(sx as int) =~= rows[i].take(sx as int));
                    assert(deleted[i].skip(sx as int) =~= rows[i].skip(ex as int));
                    assert(rect_insert_row(deleted[i], sx as int, capture[i - sy])
                        =~= rows[i]);
                } else {
                    assert(rows[i].len() == sx) by {
                        assert(sx <= ex <= rows[i].len());
                    }
                    assert(deleted[i] == rows[i]);
                    assert(capture[i - sy] =~= crate::row::spaces((ex - sx) as nat));
                    assert(ex == sx);
                    assert(capture[i - sy] =~= Seq::<char>::empty());
                    assert(rect_insert_row(deleted[i], sx as int, capture[i - sy])
                        =~= rows[i]);
                }
            }
            assert(insert_chars_rows(deleted, sx as int, sy as int, capture, mode) =~= rows);
        },
    }
}

/// Law: a contiguous insertion is undone exactly by deleting from where it
/// began to where it ended, and that deletion is always possible. An
/// insertion of one empty row changes nothing and records nothing, so it
/// is left out.
pub proof fn lemma_cut_restores_paste(
    rows: Seq<Seq<char>>,
    x: usize,
    y: usize,
    ins: Seq<Seq<char>>,
)
    requires
        can_insert_contiguous(rows, x as int, y as int, ins),
        ins.len() == 1 ==> ins[0].len() >= 1,
        forall|i: int| 0 <= i < rows.len() ==> (#[trigger] rows[i]).len() <= usize::MAX,
        forall|i: int| 0 <= i < ins.len() ==> (#[trigger] ins[i]).len() <= usize::MAX,
    ensures
        ({
            let inserted = insert_contiguous_rows(rows, x as int, y as int, ins);
            let end = insert_contiguous_end(x, y, ins);
            &&& can_delete_chars(
                inserted,
                x as int,
                y as int,
                end.0 as int,
                end.1 as int,
                SelectMode::Contiguous,
            )
            &&& delete_chars_rows(
                inserted,
                x as int,
                y as int,
                end.0 as int,
                end.1 as int,
                SelectMode::Contiguous,
            ) == rows
        }),
{
    let inserted = insert_contiguous_rows(rows, x as int, y as int, ins);
    let end = insert_contiguous_end(x, y, ins);
    let n = ins.len() as int;
    if n == 1 {
        assert(inserted[y as int] == rows[y as int].take(x as int) + ins[0]
            + rows[y as int].skip(x as int));
        assert(inserted[y as int].take(x as int) =~= rows[y as int].take(x as int));
        assert(inserted[y as int].skip(x + ins[0].len()) =~= rows[y as int].skip(x as int));
        assert(inserted[y as int].take(x as int) + inserted[y as int].skip(x + ins[0].len())
            =~= rows[y as int]);
        assert(delete_chars_rows(
            inserted,
            x as int,
            y as int,
            end.0 as int,
            end.1 as int,
            SelectMode::Contiguous,
        ) =~= rows);
    } else {
        assert(inserted.len() == rows.len() + n - 1);
        assert(end.1 == y + n - 1);
        assert(inserted[y as int] == rows[y as int].take(x as int) + ins[0]);
        assert(inserted[y + n - 1] == ins[n - 1] + rows[y as int].skip(x as int));
        assert(inserted[y as int].take(x as int) =~= rows[y as int].take(x as int));
        assert(inserted[y + n - 1].skip(end.0 as int) =~= rows[y as int].skip(x as int));
        assert(inserted[y as int].take(x as int) + inserted[y + n - 1].skip(end.0 as int)
            =~= rows[y as int]);
        assert(delete_chars_rows(
            inserted,
            x as int,
            y as int,
            end.0 as int,
            end.1 as int,
            SelectMode::Contiguous,
        ) =~= rows);
    }
}

/// Law: undoing a recorded character insertion restores the rows exactly.
pub proof fn lemma_undo_insert_char(post: BufferView, rows: Seq<Seq<char>>, x: usize, y: usize, ch: char)
    requires
        can_insert_char(rows, x as int, y as int),
        rows[y as int].len() < usize::MAX,
        post.rows == rows.update(y as int, rows[y as int].insert(x as int, ch)),
    ensures
        undo_apply(post, OpView::InsertChar((x, y))).rows == rows,
{
    assert(post.rows[y as int].remove(x as int) =~= rows[y as int]);
    assert(undo_apply(post, OpView::InsertChar((x, y))).rows =~= rows);
}

/// Law: undoing a recorded character deletion restores the rows exactly.
pub proof fn lemma_undo_delete_char(post: BufferView, rows: Seq<Seq<char>>, x: usize, y: usize)
    requires
        can_delete_char(rows, x as int, y as int),
        post.rows == rows.update(y as int, rows[y as int].remove(x - 1)),
    ensures
        undo_apply(post, OpView::DeleteChar((x, y), rows[y as int][x - 1])).rows == rows,
{
    assert(post.rows[y as int].insert(x - 1, rows[y as int][x - 1]) =~= rows[y as int]);
    assert(undo_apply(post, OpView::DeleteChar((x, y), rows[y as int][x - 1])).rows =~= rows);
}

/// Law: undoing a recorded row insertion restores the rows exactly.
pub proof fn lemma_undo_insert_row(post: BufferView, rows: Seq<Seq<char>>, x: usize, y: usize, text: Seq<char>)
    requires
        can_insert_row(rows, y as int),
        post.rows == rows.insert(y as int, text),
    ensures
        undo_apply(post, OpView::InsertRow((x, y))).rows == rows,
{
    assert(post.rows.remove(y as int) =~= rows);
}

/// Law: undoing a recorded row deletion restores the rows exactly.
pub proof fn lemma_undo_delete_row(post: BufferView, rows: Seq<Seq<char>>, x: usize, y: usize)
    requires
        0 <= (y as int) < rows.len(),
        rows.len() <= usize::MAX,
        post.rows == rows.remove(y as int),
    ensures
        undo_apply(post, OpView::DeleteRow((x, y), rows[y as int])).rows == rows,
{
    assert(post.rows.insert(y as int, rows[y as int]) =~= rows);
}

/// Law: undoing a recorded append restores the rows exactly.
pub proof fn lemma_undo_append(post: BufferView, rows: Seq<Seq<char>>, y: usize, text: Seq<char>)
    requires
        can_append_row(rows, y as int),
        rows[y as int].len() + text.len() <= usize::MAX,
        post.rows == rows.update(y as int, rows[y as int] + text),
    ensures
        undo_apply(
            post,
            OpView::Append((rows[y as int].len() as usize, y)),
        ).rows == rows,
{
    let x = rows[y as int].len() as usize;
    assert(post.rows[y as int].take(x as int) =~= rows[y as int]);
    assert(undo_apply(post, OpView::Append((x, y))).rows =~= rows);
}

/// Law: undoing a recorded row truncation restores the rows exactly.
pub proof fn lemma_undo_shrink_row(post: BufferView, rows: Seq<Seq<char>>, x: usize, y: usize)
    requires
        can_shrink_row(rows, x as int, y as int),
        rows[y as int].len() <= usize::MAX,
        post.rows == rows.update(y as int, rows[y as int].take(x as int)),
    ensures
        undo_apply(
            post,
            OpView::ShrinkRow((x, y), rows[y as int].skip(x as int)),
        ).rows == rows,
{
    assert(post.rows[y as int] + rows[y as int].skip(x as int) =~= rows[y as int]);
    assert(undo_apply(post, OpView::ShrinkRow((x, y), rows[y as int].skip(x as int))).rows
        =~= rows);
}

/// Law: undoing a recorded row split restores the rows exactly.
pub proof fn lemma_undo_split_row(post: BufferView, rows: Seq<Seq<char>>, x: usize, y: usize)
    requires
        can_split_row(rows, x as int, y as int),
        post.rows == split_rows(rows, x as int, y as int),
    ensures
        undo_apply(post, OpView::SplitRow(split_next_at(rows, x, y))).rows == rows,
{
    let at = split_next_at(rows, x, y);
    assert(at.1 == y + 1);
    assert(post.rows[y as int] == rows[y as int].take(x as int));
    assert(post.rows[y + 1] == rows[y as int].skip(x as int));
    assert(can_squash_row(post.rows, y + 1));
    assert(post.rows[y as int] + post.rows[y + 1] =~= rows[y as int]);
    assert(squash_rows(post.rows, y + 1) =~= rows);
}

/// Law: undoing a recorded row join restores the rows exactly.
pub proof fn lemma_undo_squash_row(post: BufferView, rows: Seq<Seq<char>>, y: usize)
    requires
        can_squash_row(rows, y as int),
        rows.len() <= usize::MAX,
        forall|i: int| 0 <= i < rows.len() ==> (#[trigger] rows[i]).len() <= usize::MAX,
        post.rows == squash_rows(rows, y as int),
    ensures
        undo_apply(
            post,
            OpView::SquashRow((rows[y - 1].len() as usize, (y - 1) as usize)),
        ).rows == rows,
{
    let x = rows[y - 1].len() as usize;
    assert(post.rows[y - 1] == rows[y - 1] + rows[y as int]);
    assert(can_split_row(post.rows, x as int, y - 1));
    assert(post.rows[y - 1].take(x as int) =~= rows[y - 1]);
    assert(post.rows[y - 1].skip(x as int) =~= rows[y as int]);
    assert(split_rows(post.rows, x as int, y - 1) =~= rows);
}

/// Law: undoing a recorded replacement restores the rows exactly.
pub proof fn lemma_undo_replace(
    post: BufferView,
    rows: Seq<Seq<char>>,
    x: usize,
    y: usize,
    length: usize,
    text: Seq<char>,
)
    requires
        can_replace(rows, x as int, y as int, length as int),
        x + text.len() <= usize::MAX,
        rows[y as int].len() + text.len() <= usize::MAX,
        post.rows == rows.update(
            y as int,
            rows[y as int].take(x as int) + text + rows[y as int].skip(x + length),
        ),
    ensures
        undo_apply(
            post,
            OpView::Replace(
                (x, y),
                text.len() as usize,
                rows[y as int].subrange(x as int, x + length),
            ),
        ).rows == rows,
{
    let removed = rows[y as int].subrange(x as int, x + length);
    assert(can_replace(post.rows, x as int, y as int, text.len() as int));
    assert(post.rows[y as int].take(x as int) =~= rows[y as int].take(x as int));
    assert(post.rows[y as int].skip(x + text.len()) =~= rows[y as int].skip(x + length));
    assert(post.rows[y as int].take(x as int) + removed + post.rows[y as int].skip(
        x + text.len(),
    ) =~= rows[y as int]);
    assert(undo_apply(
        post,
        OpView::Replace((x, y), text.len() as usize, removed),
    ).rows =~= rows);
}

/// Law: undoing a recorded delete restores the rows exactly, under the
/// conditions of `lemma_paste_restores_cut`.
pub proof fn lemma_undo_delete_chars(
    post: BufferView,
    rows: Seq<Seq<char>>,
    sx: usize,
    sy: usize,
    ex: usize,
    ey: usize,
    mode: SelectMode,
)
    requires
        can_delete_chars(rows, sx as int, sy as int, ex as int, ey as int, mode),
        rows.len() + rows.len() <= usize::MAX,
        forall|i: int| 0 <= i < rows.len() ==> (#[trigger] rows[i]).len() <= usize::MAX,
        mode is Rectangle ==> sx <= ex && (forall|i: int|
            sy <= i <= ey ==> ex <= (#[trigger] rows[i]).len()),
        post.rows == delete_chars_rows(rows, sx as int, sy as int, ex as int, ey as int, mode),
    ensures
        undo_apply(
            post,
            OpView::DeleteChars(
                (sx, sy),
                delete_chars_capture(rows, sx as int, sy as int, ex as int, ey as int, mode),
                mode,
            ),
        ).rows == rows,
{
    let capture = delete_chars_capture(rows, sx as int, sy as int, ex as int, ey as int, mode);
    lemma_paste_restores_cut(rows, sx, sy, ex, ey, mode);
    if !insert_chars_changes(post.rows, sx as int, sy as int, capture, mode) {
        // the delete removed an empty span, so the rows never changed and
        // the inverse insertion rightly does nothing
        match mode {
            SelectMode::Contiguous => {
                assert(sy == ey);
                assert(capture[0].len() == 0);
                assert(ex == sx);
                assert(rows[sy as int].take(sx as int) + rows[sy as int].skip(sx as int)
                    =~= rows[sy as int]);
                assert(post.rows =~= rows);
            },
            SelectMode::Rectangle => {
                assert(capture[0] == rect_slice(rows[sy as int], sx as int, ex as int));
                assert(capture[0].len() == 0);
                assert(capture[0].len() == ex - sx) by {
                    if (sx as int) < rows[sy as int].len() {
                        assert(ex <= rows[sy as int].len());
                    }
                }
                assert(ex == sx);
                assert forall|i: int| 0 <= i < rows.len() implies post.rows[i]
                    == rows[i] by {
                    if sy <= i <= ey {
                        assert(post.rows[i] == rect_delete_row(rows[i], sx as int, ex as int));
                        if (sx as int) < rows[i].len() {
                            assert(rows[i].take(sx as int) + rows[i].skip(sx as int)
                                =~= rows[i]);
                        }
                    }
                }
                assert(post.rows =~= rows);
            },
        }
    }
}

/// Law: undoing a recorded contiguous insertion restores the rows exactly,
/// under the conditions of `lemma_cut_restores_paste`.
pub proof fn lemma_undo_insert_chars(
    post: BufferView,
    rows: Seq<Seq<char>>,
    x: usize,
    y: usize,
    ins: Seq<Seq<char>>,
)
    requires
        can_insert_contiguous(rows, x as int, y as int, ins),
        ins.len() == 1 ==> ins[0].len() >= 1,
        forall|i: int| 0 <= i < rows.len() ==> (#[trigger] rows[i]).len() <= usize::MAX,
        forall|i: int| 0 <= i < ins.len() ==> (#[trigger] ins[i]).len() <= usize::MAX,
        post.rows == insert_contiguous_rows(rows, x as int, y as int, ins),
    ensures
        undo_apply(
            post,
            OpView::InsertChars(
                (x, y),
                insert_contiguous_end(x, y, ins),
                SelectMode::Contiguous,
            ),
        ).rows == rows,
{
    lemma_cut_restores_paste(rows, x, y, ins);
}

// -----------------------------------------------------------------------------------------------
// The sequence law: undo inverts not just one recorded operation but any
// run of them, popped newest first.

/// One recording mutation, as data: the arguments of one call of a
/// recording `Buffer` method, with rows as character sequences.
pub enum EditCmd {
    AppendRow { x: usize, y: usize, text: Seq<char> },
    DeleteChar { x: usize, y: usize },
    DeleteChars { sx: usize, sy: usize, ex: usize, ey: usize, mode: SelectMode },
    DeleteRow { x: usize, y: usize },
    InsertChar { x: usize, y: usize, ch: char },
    InsertChars { x: usize, y: usize, ins: Seq<Seq<char>>, mode: SelectMode },
    InsertRow { x: usize, y: usize, text: Seq<char> },
    Replace { x: usize, y: usize, length: usize, text: Seq<char> },
    ShrinkRow { x: usize, y: usize },
    SplitRow { x: usize, y: usize },
    SquashRow { x: usize, y: usize },
}

/// Whether one command is valid at `rows`: the mutation succeeds and
/// records, the machine bounds its inverse needs hold, and — for the two
/// cases whose inverses are only exact there — a rectangle's columns are
/// ordered and reach into every affected row, and a pasted block is
/// contiguous and not a single empty row.
pub open spec fn cmd_valid(rows: Seq<Seq<char>>, cmd: EditCmd) -> bool {
    match cmd {
        EditCmd::AppendRow { x, y, text } => can_append_row(rows, y as int)
            && rows[y as int].len() + text.len() <= usize::MAX,
        EditCmd::DeleteChar { x, y } => can_delete_char(rows, x as int, y as int),
        EditCmd::DeleteChars { sx, sy, ex, ey, mode } => can_delete_chars(
            rows,
            sx as int,
            sy as int,
            ex as int,
            ey as int,
            mode,
        ) && rows.len() + rows.len() <= usize::MAX && (forall|i: int|
            0 <= i < rows.len() ==> (#[trigger] rows[i]).len() <= usize::MAX) && (
        mode is Rectangle ==> sx <= ex && (forall|i: int|
            sy <= i <= ey ==> ex <= (#[trigger] rows[i]).len())),
        EditCmd::DeleteRow { x, y } => (y as int) < rows.len() && rows.len() <= usize::MAX,
        EditCmd::InsertChar { x, y, ch } => can_insert_char(rows, x as int, y as int)
            && rows[y as int].len() < usize::MAX,
        EditCmd::InsertChars { x, y, ins, mode } => mode is Contiguous
            && can_insert_contiguous(rows, x as int, y as int, ins) && (ins.len() == 1
            ==> ins[0].len() >= 1) && (forall|i: int|
            0 <= i < rows.len() ==> (#[trigger] rows[i]).len() <= usize::MAX) && (forall|
            i: int,
        |
            0 <= i < ins.len() ==> (#[trigger] ins[i]).len() <= usize::MAX),
        EditCmd::InsertRow { x, y, text } => can_insert_row(rows, y as int),
        EditCmd::Replace { x, y, length, text } => can_replace(
            rows,
            x as int,
            y as int,
            length as int,
        ) && x + text.len() <= usize::MAX && rows[y as int].len() + text.len()
            <= usize::MAX,
        EditCmd::ShrinkRow { x, y } => can_shrink_row(rows, x as int, y as int)
            && rows[y as int].len() <= usize::MAX,
        EditCmd::SplitRow { x, y } => can_split_row(rows, x as int, y as int),
        EditCmd::SquashRow { x, y } => can_squash_row(rows, y as int) && rows.len()
            <= usize::MAX && (forall|i: int|
            0 <= i < rows.len() ==> (#[trigger] rows[i]).len() <= usize::MAX),
    }
}

/// The rows after one valid command.
pub open spec fn cmd_rows(rows: Seq<Seq<char>>, cmd: EditCmd) -> Seq<Seq<char>> {
    match cmd {
        EditCmd::AppendRow { x, y, text } => rows.update(y as int, rows[y as int] + text),
        EditCmd::DeleteChar { x, y } => rows.update(y as int, rows[y as int].remove(x - 1)),
        EditCmd::DeleteChars { sx, sy, ex, ey, mode } => delete_chars_rows(
            rows,
            sx as int,
            sy as int,
            ex as int,
            ey as int,
            mode,
        ),
        EditCmd::DeleteRow { x, y } => rows.remove(y as int),
        EditCmd::InsertChar { x, y, ch } => rows.update(
            y as int,
            rows[y as int].insert(x as int, ch),
        ),
        EditCmd::InsertChars { x, y, ins, mode } => insert_contiguous_rows(
            rows,
            x as int,
            y as int,
            ins,
        ),
        EditCmd::InsertRow { x, y, text } => rows.insert(y as int, text),
        EditCmd::Replace { x, y, length, text } => rows.update(
            y as int,
            rows[y as int].take(x as int) + text + rows[y as int].skip(x + length),
        ),
        EditCmd::ShrinkRow { x, y } => rows.update(y as int, rows[y as int].take(x as int)),
        EditCmd::SplitRow { x, y } => split_rows(rows, x as int, y as int),
        EditCmd::SquashRow { x, y } => squash_rows(rows, y as int),
    }
}

/// The history record one valid command pushes: the coordinate of the
/// call, and the operation its recording method stores.
pub open spec fn cmd_record(rows: Seq<Seq<char>>, cmd: EditCmd) -> ((usize, usize), OpView) {
    match cmd {
        EditCmd::AppendRow { x, y, text } => (
            (x, y),
            OpView::Append((rows[y as int].len() as usize, y)),
        ),
        EditCmd::DeleteChar { x, y } => ((x, y), OpView::DeleteChar((x, y), rows[y as int][x - 1])),
        EditCmd::DeleteChars { sx, sy, ex, ey, mode } => (
            (sx, sy),
            OpView::DeleteChars(
                (sx, sy),
                delete_chars_capture(rows, sx as int, sy as int, ex as int, ey as int, mode),
                mode,
            ),
        ),
        EditCmd::DeleteRow { x, y } => ((x, y), OpView::DeleteRow((x, y), rows[y as int])),
        EditCmd::InsertChar { x, y, ch } => ((x, y), OpView::InsertChar((x, y))),
        EditCmd::InsertChars { x, y, ins, mode } => (
            (x, y),
            OpView::InsertChars((x, y), insert_contiguous_end(x, y, ins), SelectMode::Contiguous),
        ),
        EditCmd::InsertRow { x, y, text } => ((x, y), OpView::InsertRow((x, y))),
        EditCmd::Replace { x, y, length, text } => (
            (x, y),
            OpView::Replace((x, y), text.len() as usize, rows[y as int].subrange(x as int, x + length)),
        ),
        EditCmd::ShrinkRow { x, y } => ((x, y), OpView::ShrinkRow((x, y), rows[y as int].skip(x as int))),
        EditCmd::SplitRow { x, y } => ((x, y), OpView::SplitRow(split_next_at(rows, x, y))),
        EditCmd::SquashRow { x, y } => (
            (x, y),
            OpView::SquashRow((rows[y - 1].len() as usize, (y - 1) as usize)),
        ),
    }
}

/// The rows after a sequence of commands, applied in order.
pub open spec fn cmds_rows(rows: Seq<Seq<char>>, cmds: Seq<EditCmd>) -> Seq<Seq<char>>
    decreases cmds.len(),
{
    if cmds.len() == 0 {
        rows
    } else {
        cmd_rows(cmds_rows(rows, cmds.drop_last()), cmds.last())
    }
}

/// Whether every command in the sequence is valid at the state it meets.
pub open spec fn cmds_valid(rows: Seq<Seq<char>>, cmds: Seq<EditCmd>) -> bool
    decreases cmds.len(),
{
    if cmds.len() == 0 {
        true
    } else {
        cmds_valid(rows, cmds.drop_last()) && cmd_valid(
            cmds_rows(rows, cmds.drop_last()),
            cmds.last(),
        )
    }
}

/// The history records a sequence of commands pushes, oldest first.
pub open spec fn cmds_records(rows: Seq<Seq<char>>, cmds: Seq<EditCmd>) -> Seq<
    ((usize, usize), OpView),
>
    decreases cmds.len(),
{
    if cmds.len() == 0 {
        Seq::<((usize, usize), OpView)>::empty()
    } else {
        cmds_records(rows, cmds.drop_last()).push(
            cmd_record(cmds_rows(rows, cmds.drop_last()), cmds.last()),
        )
    }
}

/// The rows-effect of undoing one record; undo touches the rows through
/// the record alone.
pub open spec fn undo_rows(rows: Seq<Seq<char>>, op: OpView) -> Seq<Seq<char>> {
    undo_apply(
        BufferView {
            rows,
            filename: None,
            cached: true,
            updated: Seq::<(usize, usize)>::empty(),
            history: Seq::<((usize, usize), OpView)>::empty(),
            pending: None,
        },
        op,
    ).rows
}

/// Undoing a record changes the rows of any buffer the same way: the
/// other fields play no part in the row effect.
pub proof fn lemma_undo_rows_agrees(v: BufferView, op: OpView)
    ensures
        undo_apply(v, op).rows == undo_rows(v.rows, op),
{
}

/// One valid command is inverted exactly by the record it pushes.
pub proof fn lemma_undo_step(rows: Seq<Seq<char>>, cmd: EditCmd)
    requires
        cmd_valid(rows, cmd),
    ensures
        undo_rows(cmd_rows(rows, cmd), cmd_record(rows, cmd).1) == rows,
{
    let post = BufferView {
        rows: cmd_rows(rows, cmd),
        filename: None,
        cached: true,
        updated: Seq::<(usize, usize)>::empty(),
        history: Seq::<((usize, usize), OpView)>::empty(),
        pending: None,
    };
    match cmd {
        EditCmd::AppendRow { x, y, text } => lemma_undo_append(post, rows, y, text),
        EditCmd::DeleteChar { x, y } => lemma_undo_delete_char(post, rows, x, y),
        EditCmd::DeleteChars { sx, sy, ex, ey, mode } => lemma_undo_delete_chars(
            post,
            rows,
            sx,
            sy,
            ex,
            ey,
            mode,
        ),
        EditCmd::DeleteRow { x, y } => lemma_undo_delete_row(post, rows, x, y),
        EditCmd::InsertChar { x, y, ch } => lemma_undo_insert_char(post, rows, x, y, ch),
        EditCmd::InsertChars { x, y, ins, mode } => lemma_undo_insert_chars(
            post,
            rows,
            x,
            y,
            ins,
        ),
        EditCmd::InsertRow { x, y, text } => lemma_undo_insert_row(post, rows, x, y, text),
        EditCmd::Replace { x, y, length, text } => lemma_undo_replace(
            post,
            rows,
            x,
            y,
            length,
            text,
        ),
        EditCmd::ShrinkRow { x, y } => lemma_undo_shrink_row(post, rows, x, y),
        EditCmd::SplitRow { x, y } => lemma_undo_split_row(post, rows, x, y),
        EditCmd::SquashRow { x, y } => lemma_undo_squash_row(post, rows, y),
    }
}

/// Undoing records newest first.
pub open spec fn undo_fold(
    rows: Seq<Seq<char>>,
    records: Seq<((usize, usize), OpView)>,
) -> Seq<Seq<char>>
    decreases records.len(),
{
    if records.len() == 0 {
        rows
    } else {
        undo_fold(undo_rows(rows, records.last().1), records.drop_last())
    }
}

/// Law: for any run of valid recording mutations, undoing once per record,
/// newest first, restores the rows exactly; the run pushes one record per
/// mutation, each carrying the coordinate the mutation was recorded at.
pub proof fn lemma_undo_sequence(rows0: Seq<Seq<char>>, cmds: Seq<EditCmd>)
    requires
        cmds_valid(rows0, cmds),
    ensures
        cmds_records(rows0, cmds).len() == cmds.len(),
        undo_fold(cmds_rows(rows0, cmds), cmds_records(rows0, cmds)) == rows0,
    decreases cmds.len(),
{
    if cmds.len() > 0 {
        let front = cmds.drop_last();
        let mid = cmds_rows(rows0, front);
        let last = cmds.last();
        lemma_undo_step(mid, last);
        assert(cmds_records(rows0, cmds).drop_last() =~= cmds_records(rows0, front));
        lemma_undo_sequence(rows0, front);
    }
}

} // verus!
