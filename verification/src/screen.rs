//! The viewport: a window over the buffer's coordinate space that scrolls
//! to keep the cursor visible, and a dirty-driven draw pass that repaints
//! only the rows that changed; plus the status and message bars.

use vstd::prelude::*;

use crate::buffer::Buffer;
use crate::editor::Select;
use crate::cursor::Coordinates;
use crate::row::{render_len_fits, Row};
use crate::Color;

verus! {

/// Every row is short enough for the rendering pipeline.
pub open spec fn rows_render_fit(rows: Seq<Seq<char>>) -> bool {
    forall|i: int| 0 <= i < rows.len() ==> render_len_fits((#[trigger] rows[i]).len())
}

/// The specification-level image of a viewport.
#[verifier::ext_equal]
pub struct ScreenView {
    /// Leftmost visible rendered column.
    pub left: usize,
    /// Topmost visible row.
    pub top: usize,
    /// Visible height in rows.
    pub height: usize,
    /// Visible width in rendered columns.
    pub width: usize,
    /// Whether the whole viewport must repaint.
    pub updated: bool,
}

impl ScreenView {
    /// A usable viewport: at least one cell, with edges the machine can
    /// still address.
    pub open spec fn wf(self) -> bool {
        &&& 1 <= self.height
        &&& 1 <= self.width
        &&& self.top + self.height - 1 <= usize::MAX
        &&& self.left <= usize::MAX - self.width
    }
}

/// One paint instruction of a draw pass, in terminal terms.
pub enum DrawCmd {
    /// Scroll the visible window clear.
    Clear,
    /// Write characters at a cell, in a color, optionally reverse-video.
    Text { x: usize, y: usize, text: Row, color: Color, rev: bool },
    /// Reverse-video `width` cells at a cell.
    Attr { x: usize, y: usize, width: usize },
}

/// Whether a plan paints text at screen row `sy`.
pub open spec fn paints_row(plan: Seq<DrawCmd>, sy: usize) -> bool {
    exists|k: int|
        0 <= k < plan.len() && ((#[trigger] plan[k]) matches DrawCmd::Text { y, .. } && y == sy)
}

/// Whether one paint instruction shows a piece of `slice`: the whole
/// slice, or one of its two parts split at a `'#'` for comment coloring.
pub open spec fn cmd_shows_slice(cmd: DrawCmd, sy: usize, slice: Seq<char>) -> bool {
    cmd matches DrawCmd::Text { y, text, .. } && y == sy && (text@ == slice || exists|i: int|
        0 <= i < slice.len() && slice[i] == '#' && (text@ == slice.take(i) || text@
            == slice.skip(i)))
}

/// Whether a plan shows, at screen row `sy`, text drawn from `slice`.
pub open spec fn shows_slice(plan: Seq<DrawCmd>, sy: usize, slice: Seq<char>) -> bool {
    exists|k: int| 0 <= k < plan.len() && cmd_shows_slice(#[trigger] plan[k], sy, slice)
}

/// A plan keeps showing a slice when instructions are appended after it.
proof fn lemma_shows_slice_grow(pre: Seq<DrawCmd>, post: Seq<DrawCmd>, sy: usize, slice: Seq<char>)
    requires
        pre.len() <= post.len(),
        forall|k: int| 0 <= k < pre.len() ==> post[k] == pre[k],
        shows_slice(pre, sy, slice),
    ensures
        shows_slice(post, sy, slice),
{
    let k = choose|k: int| 0 <= k < pre.len() && cmd_shows_slice(#[trigger] pre[k], sy, slice);
    assert(post[k] == pre[k]);
    assert(cmd_shows_slice(post[k], sy, slice));
}

// -----------------------------------------------------------------------------------------------

/// A viewport rectangle over the buffer, plus a force-redraw flag.
#[derive(Clone, Copy, Debug, PartialEq, Eq, Structural)]
pub struct Screen {
    left0: usize,
    top0: usize,
    height: usize,
    width: usize,
    updated: bool,
}

impl View for Screen {
    type V = ScreenView;

    closed spec fn view(&self) -> ScreenView {
        ScreenView {
            left: self.left0,
            top: self.top0,
            height: self.height,
            width: self.width,
            updated: self.updated,
        }
    }
}

impl Default for Screen {
    fn default() -> (r: Self)
        ensures
            r@ == (ScreenView { left: 0, top: 0, height: 0, width: 0, updated: false }),
    {
        Screen { left0: 0, top0: 0, height: 0, width: 0, updated: false }
    }
}

impl Screen {
    /// The height, seen from specifications.
    pub open spec fn spec_height(&self) -> usize {
        self@.height
    }

    /// The row index at the bottom edge of the window.
    pub fn bottom(&self) -> (r: usize)
        requires
            self@.wf(),
        ensures
            r == self@.top + self@.height - 1,
    {
        self.top0 + (self.height - 1)
    }

    /// Move the window so `pos` — a rendered position — lies inside it: a
    /// row outside snaps to the nearer edge, a column outside snaps so the
    /// position stays visible, the right edge reserving the width of the
    /// row's last character so a wide glyph is never split.
    pub fn fit<P: crate::cursor::Coordinates>(&mut self, content: &Buffer, pos: &P) -> (moved:
        bool)
        requires
            old(self)@.wf(),
        ensures
            final(self)@.wf(),
            final(self)@.height == old(self)@.height,
            final(self)@.width == old(self)@.width,
            final(self)@.top == fit_top(old(self)@, pos.spec_y()),
            final(self)@.left == fit_left(
                old(self)@,
                content@.rows,
                pos.spec_x(),
                pos.spec_y(),
            ),
            moved == (final(self)@.top != old(self)@.top || final(self)@.left != old(self)@.left),
            final(self)@.updated == (old(self)@.updated || moved),
    {
        let cur = *self;
        let y = pos.y();
        if y < self.top0 {
            self.top0 = y;
        } else if self.bottom() < y {
            let max_top = usize::MAX - self.height;
            let snapped = y - (self.height - 1);
            self.top0 = if snapped <= max_top {
                snapped
            } else {
                max_top
            };
        }
        let x = pos.x();
        if x < self.left0 {
            self.left0 = x;
        } else if self.right() <= x {
            // the `<=` reserves room for a final character of full width
            if let Some(row) = content.get(y) {
                let lcw = row.last_char_width();
                let reserve = if lcw <= self.width {
                    self.width - lcw
                } else {
                    0
                };
                let snapped = if reserve <= x {
                    x - reserve
                } else {
                    0
                };
                let max_left = usize::MAX - self.width;
                self.left0 = if snapped <= max_left {
                    snapped
                } else {
                    max_left
                };
            } else {
                self.left0 = 0;
            }
        }
        let moved = cur.top0 != self.top0 || cur.left0 != self.left0;
        self.updated = self.updated || moved;
        moved
    }

    /// Mark the whole viewport for repaint.
    pub fn force_update(&mut self)
        ensures
            final(self)@ == (ScreenView { updated: true, ..old(self)@ }),
    {
        self.updated = true;
    }

    /// Visible height in rows.
    pub fn height(&self) -> (r: usize)
        ensures
            r == self@.height,
    {
        self.height
    }

    /// Leftmost visible rendered column.
    pub fn left(&self) -> (r: usize)
        ensures
            r == self@.left,
    {
        self.left0
    }

    /// Whether the whole viewport must repaint.
    pub fn updated(&self) -> (r: bool)
        ensures
            r == self@.updated,
    {
        self.updated
    }

    /// Forget the repaint flag, after a draw pass consumed it.
    pub fn clear_updated(&mut self)
        ensures
            final(self)@ == (ScreenView { updated: false, ..old(self)@ }),
    {
        self.updated = false;
    }

    /// Scroll down one window height, pinning the last page to the
    /// buffer's end; a buffer no taller than the window does not move.
    pub fn move_down(&mut self, content: &Buffer) -> (moved: bool)
        requires
            old(self)@.wf(),
        ensures
            final(self)@.wf(),
            ({
                let rows = content@.rows.len() as int;
                let h = old(self)@.height as int;
                &&& (h < rows ==> final(self)@.top == at_most_int(
                    old(self)@.top + h,
                    rows - h + 1,
                ))
                &&& (h >= rows ==> final(self)@.top == old(self)@.top)
            }),
            final(self)@.left == old(self)@.left,
            final(self)@.height == old(self)@.height,
            final(self)@.width == old(self)@.width,
            moved == (final(self)@.top != old(self)@.top),
            final(self)@.updated == (old(self)@.updated || moved),
    {
        let cur = *self;
        let rows = content.rows();
        if self.height < rows {
            let max_top = rows - (self.height - 1);
            self.top0 = if self.height <= max_top && self.top0 <= max_top - self.height {
                self.top0 + self.height
            } else {
                max_top
            };
        }
        let moved = cur.top0 != self.top0;
        self.updated = self.updated || moved;
        moved
    }

    /// Scroll up one window height, stopping at the first row.
    pub fn move_up(&mut self) -> (moved: bool)
        ensures
            final(self)@.top == (if old(self)@.height < old(self)@.top {
                (old(self)@.top - old(self)@.height) as usize
            } else {
                0
            }),
            final(self)@.left == old(self)@.left,
            final(self)@.height == old(self)@.height,
            final(self)@.width == old(self)@.width,
            moved == (final(self)@.top != old(self)@.top),
            final(self)@.updated == (old(self)@.updated || moved),
    {
        let cur = *self;
        self.top0 = if self.height < self.top0 {
            self.top0 - self.height
        } else {
            0
        };
        let moved = cur.top0 != self.top0;
        self.updated = self.updated || moved;
        moved
    }

    /// Adopt a new terminal size: two rows are reserved for the status and
    /// message bars; the window's corner is clamped so it stays
    /// addressable.
    pub fn resize(&mut self, height: usize, width: usize)
        requires
            3 <= height,
            1 <= width,
        ensures
            final(self)@.height == height - 2,
            final(self)@.width == width,
            final(self)@.top == at_most_int(
                old(self)@.top as int,
                usize::MAX - (height - 2),
            ) as usize,
            final(self)@.left == at_most_int(old(self)@.left as int, usize::MAX - width) as usize,
            final(self)@.updated,
            final(self)@.wf(),
    {
        self.height = height - 2;
        self.width = width;
        let max_top = usize::MAX - self.height;
        if self.top0 > max_top {
            self.top0 = max_top;
        }
        let max_left = usize::MAX - self.width;
        if self.left0 > max_left {
            self.left0 = max_left;
        }
        self.updated = true;
    }

    /// The rendered column at the right edge of the window.
    pub fn right(&self) -> (r: usize)
        requires
            self@.wf(),
        ensures
            r == self@.left + self@.width - 1,
    {
        self.left0 + (self.width - 1)
    }

    /// Topmost visible row.
    pub fn top(&self) -> (r: usize)
        ensures
            r == self@.top,
    {
        self.top0
    }

    /// Visible width in rendered columns.
    pub fn width(&self) -> (r: usize)
        ensures
            r == self@.width,
    {
        self.width
    }
}

/// Whether the selection asks row `y` to repaint: the row lies in its
/// span, or is the row the focus just left.
pub open spec fn select_changes(v: crate::editor::SelectView, y: int) -> bool {
    match (crate::editor::sel_start(v), crate::editor::sel_end(v)) {
        (Some(s), Some(e)) => s.1 <= y <= e.1 || (v.previous matches Some(p) && p.1 == y),
        _ => false,
    }
}

/// Whether a draw pass repaints content row `y`: something reported it
/// dirty and its window slice shows at least one cell.
pub open spec fn repaint_row(
    pre: ScreenView,
    content: crate::buffer::BufferView,
    select: crate::editor::SelectView,
    y: int,
) -> bool {
    &&& (pre.updated || crate::buffer::row_in_updated(content.updated, y) || select_changes(select, y))
    &&& crate::row::slice_spec(
        content.rows[y],
        pre.left as nat,
        (pre.left + pre.width) as nat,
    ).len() > 0
}

/// One past the last content row the window shows.
pub open spec fn draw_end(pre: ScreenView, rows_len: int) -> int {
    at_most_int(rows_len, pre.top + pre.height)
}

/// Commands appended beyond a plan's end that do not paint text at screen
/// row `sy` leave `paints_row` at `sy` unchanged.
proof fn lemma_paints_row_frame(pre: Seq<DrawCmd>, post: Seq<DrawCmd>, sy: usize)
    requires
        pre.len() <= post.len(),
        forall|k: int| 0 <= k < pre.len() ==> post[k] == pre[k],
        forall|k: int|
            pre.len() <= k < post.len() ==> ((#[trigger] post[k]) matches DrawCmd::Text {
                y,
                ..
            } ==> y != sy),
    ensures
        paints_row(post, sy) == paints_row(pre, sy),
{
    if paints_row(pre, sy) {
        let k = choose|k: int|
            0 <= k < pre.len() && ((#[trigger] pre[k]) matches DrawCmd::Text { y, .. } && y
                == sy);
        assert(post[k] == pre[k]);
        assert(paints_row(post, sy));
    }
    if paints_row(post, sy) {
        let k = choose|k: int|
            0 <= k < post.len() && ((#[trigger] post[k]) matches DrawCmd::Text { y, .. } && y
                == sy);
        if k < pre.len() {
            assert(pre[k] == post[k]);
            assert(paints_row(pre, sy));
        }
    }
}

/// The first `'#'` in a slice, if any.
fn find_char(hay: &[char], needle: char) -> (r: Option<usize>)
    ensures
        (match r {
            Some(i) => i < hay@.len() && hay@[i as int] == needle && (forall|j: int|
                0 <= j < i ==> hay@[j] != needle),
            None => forall|j: int| 0 <= j < hay@.len() ==> hay@[j] != needle,
        }),
{
    let n = hay.len();
    let mut i: usize = 0;
    while i < n
        invariant
            i <= n,
            n == hay@.len(),
            forall|j: int| 0 <= j < i ==> hay@[j] != needle,
        decreases n - i,
    {
        if *vstd::slice::slice_index_get(hay, i) == needle {
            return Some(i);
        }
        i = i + 1;
    }
    None
}

impl Screen {
    /// The paint instructions of one draw pass, and the state it clears:
    /// a no-op unless the viewport, the buffer or the selection report
    /// changes; otherwise exactly the dirty rows of the window repaint,
    /// each through its width slice, rows past the buffer's end get a
    /// filler glyph, and the viewport's own flag is consumed.
    pub fn draw_plan(&mut self, content: &Buffer, select: &Select) -> (plan: Vec<DrawCmd>)
        requires
            old(self)@.wf(),
            rows_render_fit(content@.rows),
            crate::cursor::rows_fit(content@.rows),
        ensures
            final(self)@ == (ScreenView { updated: false, ..old(self)@ }),
            !old(self)@.updated && content@.updated.len() == 0 && !select@.updated
                ==> plan@.len() == 0,
            old(self)@.updated ==> plan@.len() >= 1 && plan@[0] is Clear,
            forall|y: int|
                old(self)@.top <= y < draw_end(old(self)@, content@.rows.len() as int)
                    && (old(self)@.updated || content@.updated.len() > 0
                    || select@.updated) ==> (#[trigger] paints_row(
                    plan@,
                    (y - old(self)@.top) as usize,
                ) <==> repaint_row(old(self)@, content@, select@, y)),
            (old(self)@.updated || content@.updated.len() > 0 || select@.updated)
                ==> (forall|y: int|
                draw_end(old(self)@, content@.rows.len() as int) <= y <= old(self)@.top
                    + old(self)@.height - 1 && y >= old(self)@.top ==> #[trigger] paints_row(
                    plan@,
                    (y - old(self)@.top) as usize,
                )),
            forall|y: int|
                old(self)@.top <= y < draw_end(old(self)@, content@.rows.len() as int)
                    && #[trigger] paints_row(plan@, (y - old(self)@.top) as usize)
                    ==> shows_slice(
                    plan@,
                    (y - old(self)@.top) as usize,
                    crate::row::slice_spec(
                        content@.rows[y],
                        old(self)@.left as nat,
                        (old(self)@.left + old(self)@.width) as nat,
                    ),
                ),
            forall|k: int|
                0 <= k < plan@.len() ==> ((#[trigger] plan@[k]) matches DrawCmd::Text {
                    y,
                    text,
                    ..
                } ==> (y as int) < old(self)@.height && ((y as int) < draw_end(
                    old(self)@,
                    content@.rows.len() as int,
                ) - old(self)@.top ==> cmd_shows_slice(
                    plan@[k],
                    y,
                    crate::row::slice_spec(
                        content@.rows[old(self)@.top + y],
                        old(self)@.left as nat,
                        (old(self)@.left + old(self)@.width) as nat,
                    ),
                )) && ((y as int) >= draw_end(
                    old(self)@,
                    content@.rows.len() as int,
                ) - old(self)@.top ==> text@ == seq!['~'])),
            forall|k: int| 1 <= k < plan@.len() ==> !((#[trigger] plan@[k]) is Clear),
    {
        if !self.updated && !content.updated() && !select.updated() {
            return Vec::new();
        }
        let pre_updated = self.updated;
        let ghost pre = self@;
        let mut plan: Vec<DrawCmd> = Vec::new();
        if self.updated {
            plan.push(DrawCmd::Clear);
        }
        let b = self.bottom();
        let rows = content.rows();
        let end = if rows > b {
            b + 1
        } else {
            rows
        };
        let mut index = self.top0;
        while index < end
            invariant
                pre == old(self)@,
                *self == *old(self),
                pre.wf(),
                rows_render_fit(content@.rows),
                crate::cursor::rows_fit(content@.rows),
                pre.top <= index,
                end == draw_end(pre, content@.rows.len() as int),
                pre_updated == pre.updated,
                pre.updated ==> plan@.len() >= 1 && plan@[0] is Clear,
                !pre.updated ==> forall|k: int|
                    0 <= k < plan@.len() ==> !((#[trigger] plan@[k]) is Clear),
                forall|y: int|
                    pre.top <= y < index ==> (#[trigger] paints_row(
                        plan@,
                        (y - pre.top) as usize,
                    ) <==> repaint_row(pre, content@, select@, y)),
                forall|sy: usize|
                    #[trigger] paints_row(plan@, sy) ==> (sy as int) < index - pre.top,
                forall|y: int|
                    pre.top <= y < index && #[trigger] paints_row(
                        plan@,
                        (y - pre.top) as usize,
                    ) ==> shows_slice(
                        plan@,
                        (y - pre.top) as usize,
                        crate::row::slice_spec(
                            content@.rows[y],
                            pre.left as nat,
                            (pre.left + pre.width) as nat,
                        ),
                    ),
                forall|k: int|
                    0 <= k < plan@.len() ==> ((#[trigger] plan@[k]) matches DrawCmd::Text {
                        y,
                        text,
                        ..
                    } ==> (y as int) < pre.height && (y as int) < end - pre.top
                        && cmd_shows_slice(
                        plan@[k],
                        y,
                        crate::row::slice_spec(
                            content@.rows[pre.top + y],
                            pre.left as nat,
                            (pre.left + pre.width) as nat,
                        ),
                    )),
                forall|k: int| 1 <= k < plan@.len() ==> !((#[trigger] plan@[k]) is Clear),
            decreases end - index,
        {
            let ghost plan_pre = plan@;
            let dirty = pre_updated || content.row_updated(index) || select.changes(index);
            let mut painted = false;
            if dirty {
                if let Some(row) = content.get(index) {
                    let window = self.slice_row(row, index);
                    if !window.is_empty() {
                        painted = true;
                        let idx = index - self.top0;
                        self.push_row_cmds(&mut plan, window, idx);
                        if select.enabled() && select.in_range(index) {
                            self.push_select_attr(&mut plan, row, select, index);
                        }
                    }
                }
            }
            proof {
                let idx = (index - pre.top) as usize;
                if painted {
                    assert(plan@[plan_pre.len() as int] matches DrawCmd::Text { y, .. } && y
                        == idx);
                    assert(paints_row(plan@, idx));
                }
                assert forall|y: int| pre.top <= y < index + 1 implies (#[trigger] paints_row(
                    plan@,
                    (y - pre.top) as usize,
                ) <==> repaint_row(pre, content@, select@, y)) by {
                    if y < index {
                        lemma_paints_row_frame(plan_pre, plan@, (y - pre.top) as usize);
                    } else {
                        if !painted {
                            lemma_paints_row_frame(plan_pre, plan@, idx);
                        }
                    }
                }
                assert forall|sy: usize| #[trigger] paints_row(plan@, sy) implies (sy as int)
                    < index + 1 - pre.top by {
                    if (sy as int) >= index + 1 - pre.top {
                        lemma_paints_row_frame(plan_pre, plan@, sy);
                    }
                }
                assert forall|y: int|
                    pre.top <= y < index + 1 && #[trigger] paints_row(
                        plan@,
                        (y - pre.top) as usize,
                    ) implies shows_slice(
                    plan@,
                    (y - pre.top) as usize,
                    crate::row::slice_spec(
                        content@.rows[y],
                        pre.left as nat,
                        (pre.left + pre.width) as nat,
                    ),
                ) by {
                    if y < index {
                        lemma_paints_row_frame(plan_pre, plan@, (y - pre.top) as usize);
                        if paints_row(plan_pre, (y - pre.top) as usize) {
                            lemma_shows_slice_grow(
                                plan_pre,
                                plan@,
                                (y - pre.top) as usize,
                                crate::row::slice_spec(
                                    content@.rows[y],
                                    pre.left as nat,
                                    (pre.left + pre.width) as nat,
                                ),
                            );
                        }
                    }
                }
            }
            index = index + 1;
        }
        let filler_start = if end > self.top0 {
            end
        } else {
            self.top0
        };
        let mut sidx = filler_start - self.top0;
        let ghost filler: int = pre.top + sidx;
        while sidx <= b - self.top0
            invariant
                pre == old(self)@,
                *self == *old(self),
                pre.wf(),
                filler == pre.top + sidx,
                pre.top <= filler,
                end <= filler,
                b == pre.top + pre.height - 1,
                end == draw_end(pre, content@.rows.len() as int),
                pre.updated ==> plan@.len() >= 1 && plan@[0] is Clear,
                forall|y: int|
                    pre.top <= y < end ==> (#[trigger] paints_row(
                        plan@,
                        (y - pre.top) as usize,
                    ) <==> repaint_row(pre, content@, select@, y)),
                forall|y: int|
                    end <= y < filler && y >= pre.top ==> #[trigger] paints_row(
                        plan@,
                        (y - pre.top) as usize,
                    ),
                forall|y: int|
                    pre.top <= y < end && #[trigger] paints_row(
                        plan@,
                        (y - pre.top) as usize,
                    ) ==> shows_slice(
                        plan@,
                        (y - pre.top) as usize,
                        crate::row::slice_spec(
                            content@.rows[y],
                            pre.left as nat,
                            (pre.left + pre.width) as nat,
                        ),
                    ),
                forall|k: int|
                    0 <= k < plan@.len() ==> ((#[trigger] plan@[k]) matches DrawCmd::Text {
                        y,
                        text,
                        ..
                    } ==> (y as int) < pre.height && ((y as int) < end - pre.top
                        ==> cmd_shows_slice(
                        plan@[k],
                        y,
                        crate::row::slice_spec(
                            content@.rows[pre.top + y],
                            pre.left as nat,
                            (pre.left + pre.width) as nat,
                        ),
                    )) && ((y as int) >= end - pre.top ==> text@ == seq!['~'])),
                forall|k: int| 1 <= k < plan@.len() ==> !((#[trigger] plan@[k]) is Clear),
            decreases b + 1 - pre.top - sidx,
        {
            let ghost plan_pre = plan@;
            let idx = sidx;
            let mut tilde = Row::default();
            tilde.insert(0, '~');
            proof {
                assert(tilde@ =~= seq!['~']);
            }
            let ghost tilde_g = tilde@;
            plan.push(
                DrawCmd::Text { x: 0, y: idx, text: tilde, color: Color::White, rev: false },
            );
            proof {
                assert(plan@[plan_pre.len() as int] matches DrawCmd::Text { y, .. } && y
                    == idx);
                assert(paints_row(plan@, idx));
                assert forall|y: int| pre.top <= y < end implies (#[trigger] paints_row(
                    plan@,
                    (y - pre.top) as usize,
                ) <==> repaint_row(pre, content@, select@, y)) by {
                    assert(idx as int >= end - pre.top);
                    lemma_paints_row_frame(plan_pre, plan@, (y - pre.top) as usize);
                }
                assert forall|y: int|
                    end <= y < filler + 1 && y >= pre.top implies #[trigger] paints_row(
                    plan@,
                    (y - pre.top) as usize,
                ) by {
                    if y < filler {
                        lemma_paints_row_frame(plan_pre, plan@, (y - pre.top) as usize);
                    }
                }
                assert forall|y: int|
                    pre.top <= y < end && #[trigger] paints_row(
                        plan@,
                        (y - pre.top) as usize,
                    ) implies shows_slice(
                    plan@,
                    (y - pre.top) as usize,
                    crate::row::slice_spec(
                        content@.rows[y],
                        pre.left as nat,
                        (pre.left + pre.width) as nat,
                    ),
                ) by {
                    lemma_paints_row_frame(plan_pre, plan@, (y - pre.top) as usize);
                    lemma_shows_slice_grow(
                        plan_pre,
                        plan@,
                        (y - pre.top) as usize,
                        crate::row::slice_spec(
                            content@.rows[y],
                            pre.left as nat,
                            (pre.left + pre.width) as nat,
                        ),
                    );
                }
            }
            sidx = sidx + 1;
            proof {
                filler = pre.top + sidx;
            }
        }
        self.updated = false;
        plan
    }

    /// The window slice of one content row, exactly what the terminal
    /// shows of it.
    fn slice_row(&self, row: &Row, index: usize) -> (r: Row)
        requires
            self@.wf(),
            render_len_fits(row@.len()),
        ensures
            r@ == crate::row::slice_spec(row@, self@.left as nat, (self@.left + self@.width) as nat),
    {
        row.slice_width(self.left0..self.right() + 1)
    }

    /// Push the text of one repainted row: split for comment coloring at
    /// the first `'#'`, else whole.
    fn push_row_cmds(&self, plan: &mut Vec<DrawCmd>, window: Row, idx: usize)
        ensures
            final(plan)@.len() > old(plan)@.len(),
            forall|k: int| 0 <= k < old(plan)@.len() ==> final(plan)@[k] == old(plan)@[k],
            forall|k: int|
                old(plan)@.len() <= k < final(plan)@.len() ==> ((#[trigger] final(plan)@[k]) matches DrawCmd::Text { y, .. }
                    && y == idx),
            forall|k: int|
                old(plan)@.len() <= k < final(plan)@.len() ==> cmd_shows_slice(
                    #[trigger] final(plan)@[k],
                    idx,
                    window@,
                ),
            shows_slice(final(plan)@, idx, window@),
    {
        let ghost win = window@;
        let ghost pre_len = plan@.len();
        let comment = find_char(window.column(), '#');
        match comment {
            Some(c) if c <= usize::MAX / 8 => {
                let len = window.len();
                let mut head = Row::default();
                head.append(vstd::slice::slice_subrange(window.column(), 0, c));
                let mut tail = Row::default();
                tail.append(vstd::slice::slice_subrange(window.column(), c, len));
                let tail_x = window.width_range(0..c);
                let ghost head_g = head@;
                let ghost tail_g = tail@;
                plan.push(
                    DrawCmd::Text { x: 0, y: idx, text: head, color: Color::White, rev: false },
                );
                plan.push(
                    DrawCmd::Text {
                        x: tail_x,
                        y: idx,
                        text: tail,
                        color: Color::Yellow,
                        rev: false,
                    },
                );
                proof {
                    assert(head_g =~= win.take(c as int));
                    assert(tail_g =~= win.skip(c as int));
                    assert(plan@[pre_len as int] matches DrawCmd::Text { y, text, .. } && y
                        == idx && text@ == head_g);
                    assert(cmd_shows_slice(plan@[pre_len as int], idx, win));
                    assert(plan@[pre_len as int + 1] matches DrawCmd::Text { y, text, .. } && y
                        == idx && text@ == tail_g);
                    assert(cmd_shows_slice(plan@[pre_len as int + 1], idx, win));
                }
            },
            _ => {
                let ghost win_whole = window@;
                plan.push(
                    DrawCmd::Text { x: 0, y: idx, text: window, color: Color::White, rev: false },
                );
                proof {
                    assert(plan@[pre_len as int] matches DrawCmd::Text { y, text, .. } && y
                        == idx && text@ == win_whole);
                    assert(cmd_shows_slice(plan@[pre_len as int], idx, win));
                }
            },
        }
    }

    /// Push the reverse-video span of a selected row, clipped to the
    /// window.
    fn push_select_attr(&self, plan: &mut Vec<DrawCmd>, row: &Row, select: &Select, index: usize)
        requires
            self@.wf(),
            crate::row::len_fits(row@.len()),
        ensures
            final(plan)@.len() >= old(plan)@.len(),
            forall|k: int| 0 <= k < old(plan)@.len() ==> final(plan)@[k] == old(plan)@[k],
            forall|k: int|
                old(plan)@.len() <= k < final(plan)@.len() ==> (#[trigger] final(plan)@[k]) is Attr,
    {
        let start = match select.start() {
            Some(s) => s.x(),
            None => {
                return ;
            },
        };
        let end = match select.end() {
            Some(e) => e.x(),
            None => {
                return ;
            },
        };
        let len = row.len();
        let sx = if start <= len {
            start
        } else {
            len
        };
        let ex = if end <= len {
            end
        } else {
            len
        };
        let start_r = row.width_range(0..sx);
        let end_r0 = row.width_range(0..ex);
        let right = self.right();
        let end_r = if end_r0 <= right {
            end_r0
        } else {
            right
        };
        let x = if start_r < self.left0 {
            0
        } else {
            start_r - self.left0
        };
        let lo = if start_r >= self.left0 {
            start_r
        } else {
            self.left0
        };
        let span = if end_r >= lo {
            end_r - lo
        } else {
            0
        };
        let w = if span <= self.width {
            span
        } else {
            self.width
        };
        plan.push(DrawCmd::Attr { x, y: index, width: w });
    }
}

/// The smaller of two integers.
pub open spec fn at_most_int(a: int, b: int) -> int {
    if a <= b {
        a
    } else {
        b
    }
}

/// Where `fit` puts the top edge for a target row `y`.
pub open spec fn fit_top(pre: ScreenView, y: usize) -> usize {
    if y < pre.top {
        y
    } else if pre.top + pre.height - 1 < y {
        at_most_int(y - (pre.height - 1), usize::MAX - pre.height) as usize
    } else {
        pre.top
    }
}

/// Where `fit` puts the left edge for a target rendered column `x` in row
/// `y`: the right-edge check reserves the last character's full width.
pub open spec fn fit_left(pre: ScreenView, rows: Seq<Seq<char>>, x: usize, y: usize) -> usize {
    if x < pre.left {
        x
    } else if pre.left + pre.width - 1 <= x {
        if y < rows.len() {
            let lcw = if rows[y as int].len() > 0 {
                crate::row::scalar_width(rows[y as int].last())
            } else {
                0
            };
            let reserve = if lcw <= pre.width {
                pre.width - lcw
            } else {
                0
            };
            let snapped = if reserve <= x {
                x - reserve
            } else {
                0
            };
            at_most_int(snapped as int, usize::MAX - pre.width) as usize
        } else {
            0
        }
    } else {
        pre.left
    }
}

// -----------------------------------------------------------------------------------------------

/// The bar under the viewport showing the filename and cursor position.
pub struct StatusBar {
    y0: usize,
    width: usize,
    filename: Option<String>,
    position: (usize, usize),
    updated: bool,
}

impl StatusBar {
    /// A status bar sized to a screen, for a file of the given name.
    pub fn new(screen: &Screen, filename: Option<&str>) -> (r: StatusBar)
        ensures
            r.spec_y() == screen@.height,
            r.spec_width() == screen@.width,
            (match filename {
                Some(name) => r.spec_filename() == Some(name@),
                None => r.spec_filename() is None,
            }),
            r.spec_position() == (0usize, 0usize),
            r.spec_updated(),
    {
        StatusBar {
            y0: screen.height(),
            width: screen.width(),
            filename: match filename {
                Some(name) => Some(name.to_owned()),
                None => None,
            },
            position: (0, 0),
            updated: true,
        }
    }

    /// The screen row the bar sits on.
    pub closed spec fn spec_y(&self) -> usize {
        self.y0
    }

    /// The bar's width in columns.
    pub closed spec fn spec_width(&self) -> usize {
        self.width
    }

    /// The filename shown, if any.
    pub closed spec fn spec_filename(&self) -> Option<Seq<char>> {
        match &self.filename {
            Some(f) => Some(f@),
            None => None,
        }
    }

    /// The cursor position shown.
    pub closed spec fn spec_position(&self) -> (usize, usize) {
        self.position
    }

    /// Whether the bar must repaint.
    pub closed spec fn spec_updated(&self) -> bool {
        self.updated
    }

    /// The screen row the bar sits on.
    pub fn y(&self) -> (r: usize)
        ensures
            r == self.spec_y(),
    {
        self.y0
    }

    /// The bar's width in columns.
    pub fn width(&self) -> (r: usize)
        ensures
            r == self.spec_width(),
    {
        self.width
    }

    /// The filename shown, if any.
    pub fn filename(&self) -> (r: Option<&String>)
        ensures
            (match self.spec_filename() {
                Some(f) => r is Some && r.unwrap()@ == f,
                None => r is None,
            }),
    {
        self.filename.as_ref()
    }

    /// The cursor position shown.
    pub fn position(&self) -> (r: (usize, usize))
        ensures
            r == self.spec_position(),
    {
        self.position
    }

    /// Track a new screen size.
    pub fn resize(&mut self, screen: &Screen)
        ensures
            final(self).spec_y() == screen@.height,
            final(self).spec_width() == screen@.width,
            final(self).spec_filename() == old(self).spec_filename(),
            final(self).spec_position() == old(self).spec_position(),
            final(self).spec_updated(),
    {
        self.y0 = screen.height();
        self.width = screen.width();
        self.updated = true;
    }

    /// Track the cursor, marking the bar dirty when it moved.
    pub fn set_cursor<P: crate::cursor::AsCoordinates>(&mut self, pos: &P)
        ensures
            final(self).spec_position() == (pos.spec_x(), pos.spec_y()),
            final(self).spec_updated() == (old(self).spec_updated() || old(
                self,
            ).spec_position() != (pos.spec_x(), pos.spec_y())),
            final(self).spec_y() == old(self).spec_y(),
            final(self).spec_width() == old(self).spec_width(),
            final(self).spec_filename() == old(self).spec_filename(),
    {
        let cur = self.position;
        self.position = pos.as_coordinates();
        self.updated = self.updated || !(cur.0 == self.position.0 && cur.1
            == self.position.1);
    }

    /// Show a new filename.
    pub fn set_filename(&mut self, filename: &str)
        ensures
            final(self).spec_filename() == Some(filename@),
            final(self).spec_updated(),
            final(self).spec_y() == old(self).spec_y(),
            final(self).spec_width() == old(self).spec_width(),
            final(self).spec_position() == old(self).spec_position(),
    {
        self.filename = Some(filename.to_owned());
        self.updated = true;
    }

    /// Whether the bar must repaint.
    pub fn updated(&self) -> (r: bool)
        ensures
            r == self.spec_updated(),
    {
        self.updated
    }

    /// Forget that the bar changed, after it was drawn.
    pub fn clear_updated(&mut self)
        ensures
            !final(self).spec_updated(),
            final(self).spec_y() == old(self).spec_y(),
            final(self).spec_width() == old(self).spec_width(),
            final(self).spec_filename() == old(self).spec_filename(),
            final(self).spec_position() == old(self).spec_position(),
    {
        self.updated = false;
    }
}

// -----------------------------------------------------------------------------------------------

/// The bar under the status bar showing prompts and messages.
pub struct MessageBar {
    y0: usize,
    width: usize,
    message: Row,
    updated: bool,
    fg_color: Color,
}

impl MessageBar {
    /// A message bar sized to a screen, showing the given text.
    pub fn new(screen: &Screen, message: &str) -> (r: MessageBar)
        requires
            screen@.height < usize::MAX,
        ensures
            r.spec_y() == screen@.height + 1,
            r.spec_width() == screen@.width,
            r.spec_message() == message@,
            r.spec_updated(),
            r.spec_fg_color() == Color::White,
    {
        MessageBar {
            y0: screen.height() + 1,
            width: screen.width(),
            message: {
                let mut m = Row::default();
                let chars = crate::row::str_chars(message);
                m.append(chars.as_slice());
                proof {
                    assert(Seq::<char>::empty() + message@ =~= message@);
                }
                m
            },
            updated: true,
            fg_color: Color::White,
        }
    }

    /// The screen row the bar sits on.
    pub closed spec fn spec_y(&self) -> usize {
        self.y0
    }

    /// The bar's width in columns.
    pub closed spec fn spec_width(&self) -> usize {
        self.width
    }

    /// The message shown.
    pub closed spec fn spec_message(&self) -> Seq<char> {
        self.message@
    }

    /// Whether the bar must repaint.
    pub closed spec fn spec_updated(&self) -> bool {
        self.updated
    }

    /// The message's foreground color.
    pub closed spec fn spec_fg_color(&self) -> Color {
        self.fg_color
    }

    /// The screen row the bar sits on.
    pub fn y(&self) -> (r: usize)
        ensures
            r == self.spec_y(),
    {
        self.y0
    }

    /// The bar's width in columns.
    pub fn width(&self) -> (r: usize)
        ensures
            r == self.spec_width(),
    {
        self.width
    }

    /// Mark the bar for repaint.
    pub fn force_update(&mut self)
        ensures
            final(self).spec_updated(),
            final(self).spec_y() == old(self).spec_y(),
            final(self).spec_width() == old(self).spec_width(),
            final(self).spec_message() == old(self).spec_message(),
            final(self).spec_fg_color() == old(self).spec_fg_color(),
    {
        self.updated = true;
    }

    /// The message shown.
    pub fn message(&self) -> (r: &Row)
        ensures
            r@ == self.spec_message(),
    {
        &self.message
    }

    /// Track a new screen size.
    pub fn resize(&mut self, screen: &Screen)
        requires
            screen@.height < usize::MAX,
        ensures
            final(self).spec_y() == screen@.height + 1,
            final(self).spec_width() == screen@.width,
            final(self).spec_updated(),
            final(self).spec_message() == old(self).spec_message(),
            final(self).spec_fg_color() == old(self).spec_fg_color(),
    {
        self.y0 = screen.height() + 1;
        self.width = screen.width();
        self.updated = true;
    }

    /// Change the message's color.
    pub fn set_fg_color(&mut self, color: Color)
        ensures
            final(self).spec_fg_color() == color,
            final(self).spec_updated(),
            final(self).spec_y() == old(self).spec_y(),
            final(self).spec_width() == old(self).spec_width(),
            final(self).spec_message() == old(self).spec_message(),
    {
        self.fg_color = color;
        self.updated = true;
    }

    /// Show a new message.
    pub fn set_message(&mut self, message: Row)
        ensures
            final(self).spec_message() == message@,
            final(self).spec_updated(),
            final(self).spec_y() == old(self).spec_y(),
            final(self).spec_width() == old(self).spec_width(),
            final(self).spec_fg_color() == old(self).spec_fg_color(),
    {
        self.message = message;
        self.updated = true;
    }

    /// Whether the bar must repaint.
    pub fn updated(&self) -> (r: bool)
        ensures
            r == self.spec_updated(),
    {
        self.updated
    }

    /// Forget that the bar changed, after it was drawn.
    pub fn clear_updated(&mut self)
        ensures
            !final(self).spec_updated(),
            final(self).spec_y() == old(self).spec_y(),
            final(self).spec_width() == old(self).spec_width(),
            final(self).spec_message() == old(self).spec_message(),
            final(self).spec_fg_color() == old(self).spec_fg_color(),
    {
        self.updated = false;
    }
}

} // verus!
