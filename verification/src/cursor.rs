//! The logical cursor: an `(x, y)` character position over a buffer, with
//! movement operators that keep it clamped to the buffer's bounds.

use vstd::prelude::*;

use crate::buffer::Buffer;
use crate::row::{len_fits, width_of};
use crate::screen::Screen;

verus! {

/// Length of row `y` in `rows`, or 0 out of bounds.
pub open spec fn row_len_at(rows: Seq<Seq<char>>, y: int) -> nat {
    if 0 <= y < rows.len() {
        rows[y].len()
    } else {
        0
    }
}

/// Every row is short enough for width computations.
pub open spec fn rows_fit(rows: Seq<Seq<char>>) -> bool {
    forall|i: int| 0 <= i < rows.len() ==> len_fits((#[trigger] rows[i]).len())
}

/// The smaller of a coordinate and a row or buffer bound.
pub open spec fn at_most(x: int, bound: int) -> int {
    if x <= bound {
        x
    } else {
        bound
    }
}

/// The first offset at or after `x` whose prefix width reaches `render`,
/// stopping at the row's end.
pub open spec fn advance_to(row: Seq<char>, render: nat, x: nat) -> nat
    decreases row.len() - x when x <= row.len()
{
    if x >= row.len() || width_of(row.take(x as int)) >= render {
        x
    } else {
        advance_to(row, render, x + 1)
    }
}

/// The last offset at or before `x` whose prefix width stays within
/// `render`, stopping at offset 0 or outside the row.
pub open spec fn retreat_to(row: Seq<char>, render: nat, x: nat) -> nat
    decreases x,
{
    if x == 0 || x > row.len() || width_of(row.take(x as int)) <= render {
        x
    } else {
        retreat_to(row, render, (x - 1) as nat)
    }
}

/// Where a vertical move lands horizontally when it preserves the visual
/// column `render`: scan forward until the width reaches the column, then
/// back while it overshoots.
pub open spec fn render_target(row: Seq<char>, render: nat, x: nat) -> nat {
    retreat_to(row, render, advance_to(row, render, x))
}

/// The column clamped into row `y`.
pub open spec fn clamp_x(rows: Seq<Seq<char>>, x: usize, y: int) -> usize {
    at_most(x as int, row_len_at(rows, y) as int) as usize
}

/// Where one step left lands: back within the row, or to the end of the
/// row above at a row start.
pub open spec fn move_left_spec(rows: Seq<Seq<char>>, x: usize, y: usize) -> (usize, usize) {
    if x > 0 {
        ((x - 1) as usize, y)
    } else if y > 0 {
        (row_len_at(rows, y - 1) as usize, (y - 1) as usize)
    } else {
        (x, y)
    }
}

/// Where one step right lands: forward within the row, or to the start of
/// the row below at a row end.
pub open spec fn move_right_spec(rows: Seq<Seq<char>>, x: usize, y: usize) -> (usize, usize) {
    if (x as nat) < row_len_at(rows, y as int) {
        ((x + 1) as usize, y)
    } else if (y as nat) < rows.len() {
        (0usize, (y + 1) as usize)
    } else {
        (x, y)
    }
}

/// Where one row down lands, the column clamped to the new row.
pub open spec fn move_down_spec(rows: Seq<Seq<char>>, x: usize, y: usize) -> (usize, usize) {
    if (y as nat) < rows.len() {
        (clamp_x(rows, x, y + 1), (y + 1) as usize)
    } else {
        (x, y)
    }
}

/// Where one row up lands, the column clamped to the new row.
pub open spec fn move_up_spec(rows: Seq<Seq<char>>, x: usize, y: usize) -> (usize, usize) {
    if y > 0 {
        (clamp_x(rows, x, y - 1), (y - 1) as usize)
    } else {
        (x, y)
    }
}

/// Where a vertical move that preserves the visual column lands.
pub open spec fn move_down_render_spec(rows: Seq<Seq<char>>, x: usize, y: usize) -> (
    usize,
    usize,
) {
    let render = render_col(rows, x as int, y as int);
    let step = move_down_spec(rows, x, y);
    if (step.1 as nat) < rows.len() {
        (render_target(rows[step.1 as int], render, step.0 as nat) as usize, step.1)
    } else {
        step
    }
}

/// Where a vertical move up that preserves the visual column lands.
pub open spec fn move_up_render_spec(rows: Seq<Seq<char>>, x: usize, y: usize) -> (usize, usize) {
    let render = render_col(rows, x as int, y as int);
    let step = move_up_spec(rows, x, y);
    if (step.1 as nat) < rows.len() {
        (render_target(rows[step.1 as int], render, step.0 as nat) as usize, step.1)
    } else {
        step
    }
}

/// Where a jump of `h` rows down lands, clamped to the buffer's end.
pub open spec fn move_down_screen_spec(rows: Seq<Seq<char>>, x: usize, y: usize, h: usize) -> (
    usize,
    usize,
) {
    let ny = at_most(y + h, rows.len() as int) as usize;
    (clamp_x(rows, x, ny as int), ny)
}

/// Where a jump of `h` rows up lands, clamped to the first row.
pub open spec fn move_up_screen_spec(rows: Seq<Seq<char>>, x: usize, y: usize, h: usize) -> (
    usize,
    usize,
) {
    let ny: usize = if h < y {
        (y - h) as usize
    } else {
        0
    };
    (clamp_x(rows, x, ny as int), ny)
}

/// Where a jump to `(x, y)` lands: both axes clamped into the buffer.
pub open spec fn set_spec(rows: Seq<Seq<char>>, x: usize, y: usize) -> (usize, usize) {
    let ny = at_most(y as int, rows.len() as int) as usize;
    (clamp_x(rows, x, ny as int), ny)
}

/// Two cursors are equal exactly when their coordinates are.
pub proof fn lemma_cursor_eq(a: Cursor, b: Cursor)
    ensures
        (a == b) <==> (a.spec_x() == b.spec_x() && a.spec_y() == b.spec_y()),
{
}

/// A cursor within bounds: the row at most the append position, the
/// column at most the row's length.
pub open spec fn cursor_clamped(c: Cursor, rows: Seq<Seq<char>>) -> bool {
    c.spec_y() <= rows.len() && c.spec_x() <= row_len_at(rows, c.spec_y() as int)
}

/// The forward scan never leaves the row.
pub proof fn lemma_advance_to_in_row(row: Seq<char>, render: nat, x: nat)
    requires
        x <= row.len(),
    ensures
        x <= advance_to(row, render, x) <= row.len(),
    decreases row.len() - x,
{
    if !(x >= row.len() || width_of(row.take(x as int)) >= render) {
        lemma_advance_to_in_row(row, render, x + 1);
    }
}

/// The backward scan never moves forward.
pub proof fn lemma_retreat_to_in_row(row: Seq<char>, render: nat, x: nat)
    ensures
        retreat_to(row, render, x) <= x,
    decreases x,
{
    if !(x == 0 || x > row.len() || width_of(row.take(x as int)) <= render) {
        lemma_retreat_to_in_row(row, render, (x - 1) as nat);
    }
}

/// A vertical move that preserves the visual column stays inside the
/// target row.
pub proof fn lemma_render_target_in_row(row: Seq<char>, render: nat, x: nat)
    requires
        x <= row.len(),
    ensures
        render_target(row, render, x) <= row.len(),
{
    lemma_advance_to_in_row(row, render, x);
    lemma_retreat_to_in_row(row, render, advance_to(row, render, x));
}

/// A logical `(x, y)` position: `y` indexes a row (or one past the last row,
/// the append position), `x` a character offset within that row.
#[derive(Clone, Copy, Debug, PartialEq, Eq, Structural)]
pub struct Cursor {
    x0: usize,
    y0: usize,
}

impl Default for Cursor {
    fn default() -> (r: Self)
        ensures
            r.spec_x() == 0 && r.spec_y() == 0,
    {
        Cursor { x0: 0, y0: 0 }
    }
}

impl From<(usize, usize)> for Cursor {
    fn from(value: (usize, usize)) -> (r: Self)
        ensures
            r.spec_x() == value.0 && r.spec_y() == value.1,
    {
        Cursor { x0: value.0, y0: value.1 }
    }
}

impl vstd::std_specs::convert::FromSpecImpl<(usize, usize)> for Cursor {
    open spec fn obeys_from_spec() -> bool {
        true
    }

    closed spec fn from_spec(v: (usize, usize)) -> Self {
        Cursor { x0: v.0, y0: v.1 }
    }
}

impl Cursor {
    /// Move down a row, clamping the column to the new row's length; at the
    /// append position nothing moves.
    pub fn move_down(&mut self, content: &Buffer) -> (moved: bool)
        ensures
            old(self).spec_y() < content@.rows.len() ==> final(self).spec_y() == old(self).spec_y() + 1 && final(self).spec_x() == at_most(
                old(self).spec_x() as int,
                row_len_at(content@.rows, old(self).spec_y() + 1) as int,
            ),
            old(self).spec_y() >= content@.rows.len() ==> *final(self) == *old(self),
            moved == (*final(self) != *old(self)),
            cursor_clamped(*old(self), content@.rows) ==> cursor_clamped(
                *final(self),
                content@.rows,
            ),
    {
        let cur = *self;
        if self.y0 < content.rows() {
            self.y0 = self.y0 + 1;
            self.move_to_xmax_ifoverflow(content);
        }
        cur != *self
    }

    /// Move down a row, preserving the visual column of the starting
    /// position.
    pub fn move_down_render(&mut self, content: &Buffer) -> (moved: bool)
        requires
            rows_fit(content@.rows),
            old(self).spec_x() <= row_len_at(content@.rows, old(self).spec_y() as int),
        ensures
            ({
                let render = render_col(content@.rows, old(self).spec_x() as int, old(self).spec_y() as int);
                let y1 = if old(self).spec_y() < content@.rows.len() {
                    old(self).spec_y() + 1
                } else {
                    old(self).spec_y() as int
                };
                let x1 = at_most(old(self).spec_x() as int, row_len_at(content@.rows, y1) as int);
                &&& final(self).spec_y() == y1
                &&& (y1 < content@.rows.len() ==> final(self).spec_x() == render_target(
                    content@.rows[y1],
                    render,
                    x1 as nat,
                ))
                &&& (y1 >= content@.rows.len() ==> final(self).spec_x() == x1)
                &&& moved == (*final(self) != *old(self))
            }),
            cursor_clamped(*old(self), content@.rows) ==> cursor_clamped(
                *final(self),
                content@.rows,
            ),
    {
        let cur = *self;
        self.move_down(content);
        let (render, _) = cur.render(content);
        self.move_render_to_x(content, render);
        proof {
            if self.spec_y() < content@.rows.len() {
                lemma_render_target_in_row(
                    content@.rows[self.spec_y() as int],
                    render as nat,
                    at_most(
                        cur.spec_x() as int,
                        row_len_at(content@.rows, self.spec_y() as int) as int,
                    ) as nat,
                );
            }
        }
        cur != *self
    }

    /// Jump down a viewport height, clamping to the buffer's end.
    pub fn move_down_screen(&mut self, content: &Buffer, screen: &Screen) -> (moved: bool)
        ensures
            final(self).spec_y() == at_most(
                old(self).spec_y() + screen.spec_height(),
                content@.rows.len() as int,
            ),
            final(self).spec_x() == at_most(
                old(self).spec_x() as int,
                row_len_at(content@.rows, final(self).spec_y() as int) as int,
            ),
            moved == (*final(self) != *old(self)),
            cursor_clamped(*old(self), content@.rows) ==> cursor_clamped(
                *final(self),
                content@.rows,
            ),
    {
        let cur = *self;
        let h = screen.height();
        let nrows = content.rows();
        self.y0 = if self.y0 <= usize::MAX - h {
            self.y0 + h
        } else {
            usize::MAX
        };
        self.move_to_ymax_ifoverflow(content);
        self.move_to_xmax_ifoverflow(content);
        proof {
            assert(nrows <= usize::MAX);
            assert(self.spec_y() == at_most(
                old(self).spec_y() + screen.spec_height(),
                content@.rows.len() as int,
            ));
        }
        cur != *self
    }

    /// Move to the previous character, wrapping to the end of the row above
    /// at a row start.
    pub fn move_left(&mut self, content: &Buffer) -> (moved: bool)
        ensures
            old(self).spec_x() > 0 ==> final(self).spec_x() == old(self).spec_x() - 1 && final(self).spec_y() == old(self).spec_y(),
            old(self).spec_x() == 0 && old(self).spec_y() > 0 ==> final(self).spec_y() == old(self).spec_y() - 1 && final(self).spec_x() == row_len_at(
                content@.rows,
                old(self).spec_y() - 1,
            ),
            old(self).spec_x() == 0 && old(self).spec_y() == 0 ==> *final(self) == *old(self),
            moved == (*final(self) != *old(self)),
            cursor_clamped(*old(self), content@.rows) ==> cursor_clamped(
                *final(self),
                content@.rows,
            ),
    {
        let cur = *self;
        if 0 < self.x0 {
            self.x0 = self.x0 - 1;
        } else if 0 < self.y0 {
            self.y0 = self.y0 - 1;
            self.x0 = content.row_char_len(self);
        }
        cur != *self
    }

    /// Move to the next character, wrapping to the start of the row below
    /// at a row end.
    pub fn move_right(&mut self, content: &Buffer) -> (moved: bool)
        ensures
            old(self).spec_x() < row_len_at(content@.rows, old(self).spec_y() as int)
                ==> final(self).spec_x() == old(self).spec_x() + 1 && final(self).spec_y()
                == old(self).spec_y(),
            old(self).spec_x() >= row_len_at(content@.rows, old(self).spec_y() as int)
                && old(self).spec_y() < content@.rows.len() ==> final(self).spec_x() == 0
                && final(self).spec_y() == old(self).spec_y() + 1,
            old(self).spec_x() >= row_len_at(content@.rows, old(self).spec_y() as int)
                && old(self).spec_y() >= content@.rows.len() ==> *final(self) == *old(self),
            moved == (*final(self) != *old(self)),
            cursor_clamped(*old(self), content@.rows) ==> cursor_clamped(
                *final(self),
                content@.rows,
            ),
    {
        let cur = *self;
        if self.x0 < content.row_char_len(self) {
            self.x0 = self.x0 + 1;
        } else if self.y0 < content.rows() {
            self.y0 = self.y0 + 1;
            self.x0 = 0;
        }
        cur != *self
    }

    /// Move up a row, clamping the column to the new row's length.
    pub fn move_up(&mut self, content: &Buffer) -> (moved: bool)
        ensures
            old(self).spec_y() > 0 ==> final(self).spec_y() == old(self).spec_y() - 1 && final(self).spec_x() == at_most(
                old(self).spec_x() as int,
                row_len_at(content@.rows, old(self).spec_y() - 1) as int,
            ),
            old(self).spec_y() == 0 ==> *final(self) == *old(self),
            moved == (*final(self) != *old(self)),
            cursor_clamped(*old(self), content@.rows) ==> cursor_clamped(
                *final(self),
                content@.rows,
            ),
    {
        let cur = *self;
        if 0 < self.y0 {
            self.y0 = self.y0 - 1;
            self.move_to_xmax_ifoverflow(content);
        }
        cur != *self
    }

    /// Move up a row, preserving the visual column of the starting
    /// position.
    pub fn move_up_render(&mut self, content: &Buffer) -> (moved: bool)
        requires
            rows_fit(content@.rows),
            old(self).spec_x() <= row_len_at(content@.rows, old(self).spec_y() as int),
        ensures
            ({
                let render = render_col(content@.rows, old(self).spec_x() as int, old(self).spec_y() as int);
                let y1 = if old(self).spec_y() > 0 {
                    old(self).spec_y() - 1
                } else {
                    0
                };
                let x1 = at_most(old(self).spec_x() as int, row_len_at(content@.rows, y1) as int);
                &&& final(self).spec_y() == y1
                &&& (y1 < content@.rows.len() ==> final(self).spec_x() == render_target(
                    content@.rows[y1],
                    render,
                    x1 as nat,
                ))
                &&& (y1 >= content@.rows.len() ==> final(self).spec_x() == x1)
                &&& moved == (*final(self) != *old(self))
            }),
            cursor_clamped(*old(self), content@.rows) ==> cursor_clamped(
                *final(self),
                content@.rows,
            ),
    {
        let cur = *self;
        self.move_up(content);
        let (render, _) = cur.render(content);
        self.move_render_to_x(content, render);
        proof {
            if self.spec_y() < content@.rows.len() {
                lemma_render_target_in_row(
                    content@.rows[self.spec_y() as int],
                    render as nat,
                    at_most(
                        cur.spec_x() as int,
                        row_len_at(content@.rows, self.spec_y() as int) as int,
                    ) as nat,
                );
            }
        }
        cur != *self
    }

    /// Jump up a viewport height, clamping to the first row.
    pub fn move_up_screen(&mut self, content: &Buffer, screen: &Screen) -> (moved: bool)
        ensures
            final(self).spec_y() == (if screen.spec_height() < old(self).spec_y() {
                old(self).spec_y() - screen.spec_height()
            } else {
                0
            }),
            final(self).spec_x() == at_most(
                old(self).spec_x() as int,
                row_len_at(content@.rows, final(self).spec_y() as int) as int,
            ),
            moved == (*final(self) != *old(self)),
            cursor_clamped(*old(self), content@.rows) ==> cursor_clamped(
                *final(self),
                content@.rows,
            ),
    {
        let cur = *self;
        let h = screen.height();
        self.y0 = if h < self.y0 {
            self.y0 - h
        } else {
            0
        };
        self.move_to_xmax_ifoverflow(content);
        cur != *self
    }

    /// Move to the start of the row.
    pub fn move_to_x0(&mut self) -> (moved: bool)
        ensures
            final(self).spec_x() == 0,
            final(self).spec_y() == old(self).spec_y(),
            moved == (*final(self) != *old(self)),
            forall|rows: Seq<Seq<char>>|
                cursor_clamped(*old(self), rows) ==> #[trigger] cursor_clamped(
                    *final(self),
                    rows,
                ),
    {
        let cur = *self;
        self.x0 = 0;
        cur != *self
    }

    /// Move to the end of the row.
    pub fn move_to_xmax(&mut self, content: &Buffer) -> (moved: bool)
        ensures
            final(self).spec_x() == row_len_at(content@.rows, old(self).spec_y() as int),
            final(self).spec_y() == old(self).spec_y(),
            moved == (*final(self) != *old(self)),
            cursor_clamped(*old(self), content@.rows) ==> cursor_clamped(
                *final(self),
                content@.rows,
            ),
    {
        let cur = *self;
        self.x0 = content.row_char_len(self);
        cur != *self
    }

    /// The visual position of the cursor: the rendered width of everything
    /// before it in its row; past the buffer's end it renders at column 0.
    pub fn render(&self, content: &Buffer) -> (r: (usize, usize))
        requires
            rows_fit(content@.rows),
        ensures
            self.spec_y() < content@.rows.len() ==> r.0 as nat == render_col(
                content@.rows,
                self.spec_x() as int,
                self.spec_y() as int,
            ) && r.1 == self.spec_y(),
            self.spec_y() >= content@.rows.len() ==> r.0 == 0 && r.1 == content@.rows.len(),
            r == render_pos(content@.rows, self.spec_x() as int, self.spec_y() as int),
            render_col(content@.rows, self.spec_x() as int, self.spec_y() as int)
                <= usize::MAX,
    {
        if let Some(row) = content.get(self.y0) {
            let len = row.len();
            let upto = if self.x0 <= len {
                self.x0
            } else {
                len
            };
            let x = row.width_range(0..upto);
            proof {
                assert(content@.rows[self.spec_y() as int].subrange(0, upto as int)
                    == content@.rows[self.spec_y() as int].take(upto as int));
            }
            (x, self.y0)
        } else {
            (0, content.rows())
        }
    }

    /// Clamp both axes into the buffer and move there.
    pub fn set<P: Coordinates>(&mut self, content: &Buffer, at: &P) -> (moved: bool)
        ensures
            final(self).spec_y() == at_most(at.spec_y() as int, content@.rows.len() as int),
            final(self).spec_x() == at_most(
                at.spec_x() as int,
                row_len_at(content@.rows, final(self).spec_y() as int) as int,
            ),
            moved == (*final(self) != *old(self)),
            cursor_clamped(*old(self), content@.rows) ==> cursor_clamped(
                *final(self),
                content@.rows,
            ),
    {
        let m1 = self.set_y(content, at.y());
        let m2 = self.set_x(content, at.x());
        m1 || m2
    }

    /// Move to column `x`, clamped to the row's length.
    pub fn set_x(&mut self, content: &Buffer, x: usize) -> (moved: bool)
        ensures
            final(self).spec_x() == at_most(
                x as int,
                row_len_at(content@.rows, old(self).spec_y() as int) as int,
            ),
            final(self).spec_y() == old(self).spec_y(),
            moved == (*final(self) != *old(self)),
            cursor_clamped(*old(self), content@.rows) ==> cursor_clamped(
                *final(self),
                content@.rows,
            ),
    {
        let cur = *self;
        self.x0 = x;
        self.move_to_xmax_ifoverflow(content);
        cur != *self
    }

    /// Move to row `y`, clamped to the append position, then clamp the
    /// column to the new row.
    pub fn set_y(&mut self, content: &Buffer, y: usize) -> (moved: bool)
        ensures
            final(self).spec_y() == at_most(y as int, content@.rows.len() as int),
            final(self).spec_x() == at_most(
                old(self).spec_x() as int,
                row_len_at(content@.rows, final(self).spec_y() as int) as int,
            ),
            moved == (*final(self) != *old(self)),
            cursor_clamped(*old(self), content@.rows) ==> cursor_clamped(
                *final(self),
                content@.rows,
            ),
    {
        let cur = *self;
        self.y0 = y;
        self.move_to_ymax_ifoverflow(content);
        self.move_to_xmax_ifoverflow(content);
        cur != *self
    }

    /// Step the column toward the visual column `render` in the current
    /// row: forward until the width reaches it, then back while it
    /// overshoots.
    fn move_render_to_x(&mut self, content: &Buffer, render: usize) -> (moved: bool)
        requires
            rows_fit(content@.rows),
            old(self).spec_x() <= row_len_at(content@.rows, old(self).spec_y() as int),
        ensures
            final(self).spec_y() == old(self).spec_y(),
            old(self).spec_y() < content@.rows.len() ==> final(self).spec_x()
                == render_target(
                content@.rows[old(self).spec_y() as int],
                render as nat,
                old(self).spec_x() as nat,
            ),
            old(self).spec_y() >= content@.rows.len() ==> final(self).spec_x() == old(self).spec_x(),
            moved == (*final(self) != *old(self)),
            cursor_clamped(*old(self), content@.rows) ==> cursor_clamped(
                *final(self),
                content@.rows,
            ),
    {
        let cur = *self;
        if let Some(row) = content.get(self.y0) {
            let ghost rowseq = content@.rows[self.spec_y() as int];
            let len = row.len();
            while self.x0 < len && row.width_range(0..self.x0) < render
                invariant
                    rows_fit(content@.rows),
                    self.spec_y() == old(self).spec_y() < content@.rows.len(),
                    row@ == rowseq,
                    rowseq == content@.rows[self.spec_y() as int],
                    len == rowseq.len(),
                    self.spec_x() <= len,
                    advance_to(rowseq, render as nat, old(self).spec_x() as nat)
                        == advance_to(rowseq, render as nat, self.spec_x() as nat),
                decreases len - self.x0,
            {
                proof {
                    assert(rowseq.subrange(0, self.spec_x() as int) == rowseq.take(
                        self.spec_x() as int,
                    ));
                }
                self.x0 = self.x0 + 1;
            }
            proof {
                assert(rowseq.subrange(0, self.spec_x() as int) == rowseq.take(
                    self.spec_x() as int,
                ));
                assert(self.spec_x() == advance_to(
                    rowseq,
                    render as nat,
                    old(self).spec_x() as nat,
                ));
            }
            let ghost adv = self.spec_x() as nat;
            while 0 < self.x0 && self.x0 <= len && render < row.width_range(0..self.x0)
                invariant
                    rows_fit(content@.rows),
                    self.spec_y() == old(self).spec_y() < content@.rows.len(),
                    row@ == rowseq,
                    rowseq == content@.rows[self.spec_y() as int],
                    len == rowseq.len(),
                    self.spec_x() <= adv,
                    retreat_to(rowseq, render as nat, adv) == retreat_to(
                        rowseq,
                        render as nat,
                        self.spec_x() as nat,
                    ),
                decreases self.x0,
            {
                proof {
                    assert(rowseq.subrange(0, self.spec_x() as int) == rowseq.take(
                        self.spec_x() as int,
                    ));
                }
                self.x0 = self.x0 - 1;
            }
            proof {
                assert(rowseq.subrange(0, self.spec_x() as int) == rowseq.take(
                    self.spec_x() as int,
                ));
                assert(self.spec_x() == retreat_to(rowseq, render as nat, adv));
            }
        }
        cur != *self
    }

    /// Clamp the column to the current row's length.
    fn move_to_xmax_ifoverflow(&mut self, content: &Buffer) -> (moved: bool)
        ensures
            final(self).spec_x() == at_most(
                old(self).spec_x() as int,
                row_len_at(content@.rows, old(self).spec_y() as int) as int,
            ),
            final(self).spec_y() == old(self).spec_y(),
            moved == (*final(self) != *old(self)),
            cursor_clamped(*old(self), content@.rows) ==> cursor_clamped(
                *final(self),
                content@.rows,
            ),
    {
        let cur = *self;
        let len = content.row_char_len(self);
        if len < self.x0 {
            self.x0 = len;
        }
        cur != *self
    }

    /// Clamp the row to the buffer's append position.
    fn move_to_ymax_ifoverflow(&mut self, content: &Buffer) -> (moved: bool)
        ensures
            final(self).spec_y() == at_most(
                old(self).spec_y() as int,
                content@.rows.len() as int,
            ),
            final(self).spec_x() == old(self).spec_x(),
            moved == (*final(self) != *old(self)),
            cursor_clamped(*old(self), content@.rows) ==> cursor_clamped(
                *final(self),
                content@.rows,
            ),
    {
        let cur = *self;
        let rows = content.rows();
        if rows < self.y0 {
            self.y0 = rows;
        }
        cur != *self
    }
}

/// The rendered position of a logical position: the visual column and the
/// row, or column 0 at the append row past the buffer's end.
pub open spec fn render_pos(rows: Seq<Seq<char>>, x: int, y: int) -> (usize, usize) {
    if 0 <= y < rows.len() {
        (render_col(rows, x, y) as usize, y as usize)
    } else {
        (0usize, rows.len() as usize)
    }
}

/// The visual column of character offset `x` in row `y` (clamped into the
/// row): the rendered width of everything before it.
pub open spec fn render_col(rows: Seq<Seq<char>>, x: int, y: int) -> nat {
    if 0 <= y < rows.len() {
        width_of(rows[y].take(at_most(x, rows[y].len() as int)))
    } else {
        0
    }
}

// -----------------------------------------------------------------------------------------------

/// Anything with an `(x, y)` coordinate pair.
pub trait Coordinates {
    /// The character-axis coordinate, in specifications.
    spec fn spec_x(&self) -> usize;

    /// The row-axis coordinate, in specifications.
    spec fn spec_y(&self) -> usize;

    /// The character-axis coordinate.
    fn x(&self) -> (r: usize)
        ensures
            r == self.spec_x(),
    ;

    /// The row-axis coordinate.
    fn y(&self) -> (r: usize)
        ensures
            r == self.spec_y(),
    ;
}

impl Coordinates for (usize, usize) {
    open spec fn spec_x(&self) -> usize {
        self.0
    }

    open spec fn spec_y(&self) -> usize {
        self.1
    }

    fn x(&self) -> usize {
        self.0
    }

    fn y(&self) -> usize {
        self.1
    }
}

impl Coordinates for Cursor {
    closed spec fn spec_x(&self) -> usize {
        self.x0
    }

    closed spec fn spec_y(&self) -> usize {
        self.y0
    }

    fn x(&self) -> usize {
        self.x0
    }

    fn y(&self) -> usize {
        self.y0
    }
}

// -----------------------------------------------------------------------------------------------

/// Anything that can hand its position out as a plain `(x, y)` pair.
pub trait AsCoordinates: Coordinates {
    /// The position as a plain pair.
    fn as_coordinates(&self) -> (r: (usize, usize))
        ensures
            r.0 == self.spec_x(),
            r.1 == self.spec_y(),
    ;
}

impl AsCoordinates for (usize, usize) {
    fn as_coordinates(&self) -> (usize, usize) {
        (self.0, self.1)
    }
}

impl AsCoordinates for Cursor {
    fn as_coordinates(&self) -> (usize, usize) {
        (self.x0, self.y0)
    }
}

} // verus!
