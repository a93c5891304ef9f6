//! Selection state and the editing decisions that sit between input events
//! and the buffer: linear and rectangular selections normalized to an
//! ordered start/end pair, and per-row highlight spans.

use vstd::prelude::*;

use crate::buffer::Buffer;
use crate::cursor::Coordinates;
use crate::cursor::Cursor;
use crate::key_event::{Event, KeyEvent, KeyModifier, WindowEvent};
use crate::screen::Screen;

verus! {

/// How a selection spans the text: a contiguous run, or a rectangular block
/// over a fixed column range.
#[derive(Clone, Copy, Debug, Default, PartialEq, Eq, Structural)]
pub enum SelectMode {
    #[default]
    Contiguous,
    Rectangle,
}

/// The specification-level image of a selection.
#[verifier::ext_equal]
pub struct SelectView {
    /// Contiguous run or rectangular block.
    pub mode: SelectMode,
    /// Anchor and focus, in the order they were set.
    pub range: Option<((usize, usize), (usize, usize))>,
    /// The previous focus, the one extra row to repaint when the selection
    /// shrinks.
    pub previous: Option<(usize, usize)>,
    /// Whether the selection is active.
    pub enabled: bool,
    /// Whether the selection changed since the last draw pass.
    pub updated: bool,
}

/// The anchor/focus pair ordered by `(y, x)`: the earlier position first.
pub open spec fn sel_norm(
    s: (usize, usize),
    e: (usize, usize),
) -> ((usize, usize), (usize, usize)) {
    if s.1 < e.1 {
        (s, e)
    } else if e.1 < s.1 {
        (e, s)
    } else if s.0 < e.0 {
        (s, e)
    } else {
        (e, s)
    }
}

/// The ordered start of a selection, if one is set.
pub open spec fn sel_start(v: SelectView) -> Option<(usize, usize)> {
    match v.range {
        Some(r) => Some(sel_norm(r.0, r.1).0),
        None => None,
    }
}

/// The ordered end of a selection, if one is set.
pub open spec fn sel_end(v: SelectView) -> Option<(usize, usize)> {
    match v.range {
        Some(r) => Some(sel_norm(r.0, r.1).1),
        None => None,
    }
}

/// The highlight span `[start, end)` the selection asks of row `y`, with
/// `usize::MAX` standing for "to the end of the row".
pub open spec fn sel_xrange(v: SelectView, y: usize) -> Option<(usize, usize)> {
    if !v.enabled || v.range is None {
        None
    } else {
        let start = sel_start(v).unwrap();
        let end = sel_end(v).unwrap();
        match v.mode {
            SelectMode::Contiguous => {
                if y < start.1 {
                    None
                } else if y == start.1 {
                    if start.1 == end.1 {
                        Some((start.0, end.0))
                    } else {
                        Some((start.0, usize::MAX))
                    }
                } else if end.1 == y {
                    Some((0usize, end.0))
                } else if end.1 < y {
                    None
                } else {
                    Some((0usize, usize::MAX))
                }
            },
            SelectMode::Rectangle => {
                if start.1 <= y <= end.1 {
                    if start.0 <= end.0 {
                        Some((start.0, end.0))
                    } else {
                        Some((end.0, start.0))
                    }
                } else {
                    None
                }
            },
        }
    }
}

// -----------------------------------------------------------------------------------------------

/// An anchor/focus pair with a mode, normalized on demand to an ordered
/// start/end, plus the bookkeeping the redraw pass needs.
pub struct Select {
    mode: SelectMode,
    range: Option<(Cursor, Cursor)>,
    previous: Option<Cursor>,
    enabled: bool,
    updated: bool,
}

impl View for Select {
    type V = SelectView;

    closed spec fn view(&self) -> SelectView {
        SelectView {
            mode: self.mode,
            range: match self.range {
                Some(r) => Some(
                    ((r.0.spec_x(), r.0.spec_y()), (r.1.spec_x(), r.1.spec_y())),
                ),
                None => None,
            },
            previous: match self.previous {
                Some(p) => Some((p.spec_x(), p.spec_y())),
                None => None,
            },
            enabled: self.enabled,
            updated: self.updated,
        }
    }
}

impl Default for Select {
    fn default() -> (r: Self)
        ensures
            r@ == (SelectView {
                mode: SelectMode::Contiguous,
                range: None,
                previous: None,
                enabled: false,
                updated: false,
            }),
    {
        Select {
            mode: SelectMode::Contiguous,
            range: None,
            previous: None,
            enabled: false,
            updated: false,
        }
    }
}

impl Select {
    /// Forget that the selection changed, after a draw pass consumed it.
    pub fn clear_updated(&mut self)
        ensures
            final(self)@ == (SelectView { updated: false, ..old(self)@ }),
    {
        self.updated = false;
    }

    /// Drop the selection: a first call disables it, a call on an already
    /// disabled selection clears its range too.
    pub fn disable(&mut self)
        ensures
            old(self)@.enabled ==> final(self)@ == (SelectView {
                enabled: false,
                updated: true,
                ..old(self)@
            }),
            !old(self)@.enabled ==> final(self)@ == (SelectView {
                mode: SelectMode::Contiguous,
                range: None,
                previous: None,
                enabled: false,
                updated: old(self)@.updated || !(old(self)@.mode is Contiguous
                    && old(self)@.range is None && old(self)@.previous is None),
            }),
    {
        let changed: bool;
        if !self.enabled {
            changed = !(matches!(self.mode, SelectMode::Contiguous) && self.range.is_none()
                && self.previous.is_none());
            self.mode = SelectMode::Contiguous;
            self.range = None;
            self.previous = None;
        } else {
            changed = true;
        }
        self.enabled = false;
        self.updated = self.updated || changed;
    }

    /// Contiguous run or rectangular block.
    pub fn mode(&self) -> (r: SelectMode)
        ensures
            r == self@.mode,
    {
        self.mode
    }

    /// Whether the selection is active.
    pub fn enabled(&self) -> (r: bool)
        ensures
            r == self@.enabled,
    {
        self.enabled
    }

    /// The later of anchor and focus by `(y, x)` order, if a range is set.
    pub fn end(&self) -> (r: Option<&Cursor>)
        ensures
            (match sel_end(self@) {
                Some(e) => r is Some && (r.unwrap().spec_x(), r.unwrap().spec_y()) == e,
                None => r is None,
            }),
    {
        if let Some(range) = &self.range {
            let s = &range.0;
            let e = &range.1;
            if s.y() < e.y() {
                Some(e)
            } else if e.y() < s.y() {
                Some(s)
            } else if s.x() < e.x() {
                Some(e)
            } else {
                Some(s)
            }
        } else {
            None
        }
    }

    /// The earlier of anchor and focus by `(y, x)` order, if a range is
    /// set.
    pub fn start(&self) -> (r: Option<&Cursor>)
        ensures
            (match sel_start(self@) {
                Some(s) => r is Some && (r.unwrap().spec_x(), r.unwrap().spec_y()) == s,
                None => r is None,
            }),
    {
        if let Some(range) = &self.range {
            let s = &range.0;
            let e = &range.1;
            if s.y() < e.y() {
                Some(s)
            } else if e.y() < s.y() {
                Some(e)
            } else if s.x() < e.x() {
                Some(s)
            } else {
                Some(e)
            }
        } else {
            None
        }
    }

    /// Whether row `y` must repaint for this selection: it lies in the
    /// selected row span, or it is the row the focus just left.
    pub fn changes(&self, y: usize) -> (r: bool)
        ensures
            r == (match (sel_start(self@), sel_end(self@)) {
                (Some(s), Some(e)) => s.1 <= y <= e.1 || (self@.previous matches Some(p)
                    && p.1 == y),
                _ => false,
            }),
    {
        let start = self.start();
        let end = self.end();
        match (start, end) {
            (Some(s), Some(e)) => {
                if s.y() <= y && y <= e.y() {
                    true
                } else if let Some(prev) = &self.previous {
                    prev.y() == y
                } else {
                    false
                }
            },
            _ => false,
        }
    }

    /// Whether row `y` lies in the selected row span.
    pub fn in_range(&self, y: usize) -> (r: bool)
        ensures
            r == (match (sel_start(self@), sel_end(self@)) {
                (Some(s), Some(e)) => s.1 <= y <= e.1,
                _ => false,
            }),
    {
        match (self.start(), self.end()) {
            (Some(s), Some(e)) => s.y() <= y && y <= e.y(),
            _ => false,
        }
    }

    /// Move the focus, remembering where it was.
    pub fn set_end(&mut self, end: &Cursor)
        requires
            old(self)@.range is Some,
        ensures
            final(self)@.range == Some(
                (
                    old(self)@.range.unwrap().0,
                    (end.spec_x(), end.spec_y()),
                ),
            ),
            final(self)@.previous == Some(old(self)@.range.unwrap().1),
            final(self)@.mode == old(self)@.mode,
            final(self)@.enabled == old(self)@.enabled,
            final(self)@.updated == (old(self)@.updated || old(self)@.range.unwrap().1 != (
                end.spec_x(),
                end.spec_y(),
            ) || old(self)@.previous != Some(old(self)@.range.unwrap().1)),
    {
        let changed: bool;
        if let Some(range) = &self.range {
            let old_focus = range.1;
            changed = !(old_focus.x() == end.x() && old_focus.y() == end.y()) || !(
            match &self.previous {
                Some(p) => p.x() == old_focus.x() && p.y() == old_focus.y(),
                None => false,
            });
            self.previous = Some(old_focus);
            let anchor = range.0;
            self.range = Some((anchor, *end));
        } else {
            changed = false;
        }
        self.updated = self.updated || changed;
    }

    /// Start a selection: anchor and focus at `start`, in the given mode.
    pub fn set_start(&mut self, start: &Cursor, mode: SelectMode)
        ensures
            final(self)@.mode == mode,
            final(self)@.previous is None,
            final(self)@.range == Some(
                (
                    (start.spec_x(), start.spec_y()),
                    (start.spec_x(), start.spec_y()),
                ),
            ),
            final(self)@.enabled,
            final(self)@.updated == (old(self)@.updated || old(self)@.mode != mode || old(self)@.previous is Some || !old(self)@.enabled || old(self)@.range != Some(
                (
                    (start.spec_x(), start.spec_y()),
                    (start.spec_x(), start.spec_y()),
                ),
            )),
    {
        let changed = !(self.mode == mode) || self.previous.is_some() || !self.enabled
            || !(match &self.range {
            Some(r) => r.0.x() == start.x() && r.0.y() == start.y() && r.1.x() == start.x()
                && r.1.y() == start.y(),
            None => false,
        });
        self.mode = mode;
        self.previous = None;
        self.range = Some((*start, *start));
        self.enabled = true;
        self.updated = self.updated || changed;
    }

    /// Whether the selection changed since the last draw pass.
    pub fn updated(&self) -> (r: bool)
        ensures
            r == self@.updated,
    {
        self.updated
    }

    /// The highlight span the selection asks of row `y`, with `usize::MAX`
    /// standing for "to the end of the row".
    pub fn xrange(&self, y: usize) -> (r: Option<(usize, usize)>)
        ensures
            r == sel_xrange(self@, y),
    {
        if !self.enabled {
            return None;
        }
        let start = match self.start() {
            Some(s) => (s.x(), s.y()),
            None => {
                return None;
            },
        };
        let end = match self.end() {
            Some(e) => (e.x(), e.y()),
            None => {
                return None;
            },
        };
        match self.mode {
            SelectMode::Contiguous => {
                if y < start.1 {
                    None
                } else if y == start.1 {
                    if start.1 == end.1 {
                        Some((start.0, end.0))
                    } else {
                        Some((start.0, usize::MAX))
                    }
                } else if end.1 == y {
                    Some((0, end.0))
                } else if end.1 < y {
                    None
                } else {
                    Some((0, usize::MAX))
                }
            },
            SelectMode::Rectangle => {
                if start.1 <= y && y <= end.1 {
                    if start.0 <= end.0 {
                        Some((start.0, end.0))
                    } else {
                        Some((end.0, start.0))
                    }
                } else {
                    None
                }
            },
        }
    }
}

impl From<KeyModifier> for SelectMode {
    fn from(value: KeyModifier) -> (r: SelectMode) {
        match value {
            KeyModifier::CtrlLeft => SelectMode::Rectangle,
            _ => SelectMode::Contiguous,
        }
    }
}

impl vstd::std_specs::convert::FromSpecImpl<KeyModifier> for SelectMode {
    open spec fn obeys_from_spec() -> bool {
        true
    }

    open spec fn from_spec(v: KeyModifier) -> Self {
        match v {
            KeyModifier::CtrlLeft => SelectMode::Rectangle,
            _ => SelectMode::Contiguous,
        }
    }
}

// -----------------------------------------------------------------------------------------------

/// The buffer after one backspace at `(x, y)`: inside a row the character
/// before the cursor goes, at a row start the row joins the one above;
/// out of bounds nothing changes.
pub open spec fn delete_char_content(pre: crate::buffer::BufferView, x: usize, y: usize) -> crate::buffer::BufferView {
    if x == 0 && 0 < y < pre.rows.len() {
        crate::buffer::BufferView {
            rows: crate::buffer::squash_rows(pre.rows, y as int),
            cached: true,
            updated: pre.updated.push((y, pre.rows.len() as usize)).push(
                ((y - 1) as usize, (pre.rows.len() - 1) as usize),
            ).push(((y - 1) as usize, y)),
            history: pre.history.push(
                (
                    (x, y),
                    crate::history::OpView::SquashRow(
                        (pre.rows[y - 1].len() as usize, (y - 1) as usize),
                    ),
                ),
            ),
            ..pre
        }
    } else if x > 0 && crate::buffer::can_delete_char(pre.rows, x as int, y as int) {
        pre.with_edit(
            pre.rows.update(y as int, pre.rows[y as int].remove(x - 1)),
            (y, (y + 1) as usize),
        ).recorded(
            (x, y),
            crate::history::OpView::DeleteChar((x, y), pre.rows[y as int][x - 1]),
        )
    } else {
        pre
    }
}

/// Where the cursor stands after one backspace at `(x, y)`.
pub open spec fn delete_char_cursor(rows: Seq<Seq<char>>, x: usize, y: usize) -> (usize, usize) {
    if x == 0 && 0 < y < rows.len() {
        (rows[y - 1].len() as usize, (y - 1) as usize)
    } else if x > 0 {
        ((x - 1) as usize, y)
    } else {
        (x, y)
    }
}

/// The buffer after one enter at `(x, y)`: the row splits there when the
/// coordinate lies in a row the machine can still extend.
pub open spec fn enter_content(pre: crate::buffer::BufferView, x: usize, y: usize) -> crate::buffer::BufferView {
    if crate::buffer::can_split_row(pre.rows, x as int, y as int) {
        crate::buffer::BufferView {
            rows: crate::buffer::split_rows(pre.rows, x as int, y as int),
            cached: true,
            updated: pre.updated.push((y, (pre.rows.len() + 1) as usize)).push(
                ((y + 1) as usize, (pre.rows.len() + 1) as usize),
            ),
            history: pre.history.push(
                (
                    (x, y),
                    crate::history::OpView::SplitRow(
                        crate::buffer::split_next_at(pre.rows, x, y),
                    ),
                ),
            ),
            ..pre
        }
    } else {
        pre
    }
}

/// Where the cursor stands after one enter at `(x, y)`: the start of the
/// row below, when there is one.
pub open spec fn enter_cursor(rows: Seq<Seq<char>>, y: usize) -> (usize, usize) {
    if (y as nat) < rows.len() {
        (0usize, (y + 1) as usize)
    } else {
        (0usize, y)
    }
}

/// The buffer after one typed character at `(x, y)`: a new row at the
/// append position, an insertion inside a row, a no-op out of bounds.
pub open spec fn input_char_content(
    pre: crate::buffer::BufferView,
    x: usize,
    y: usize,
    ch: char,
) -> crate::buffer::BufferView {
    if y >= pre.rows.len() && crate::buffer::can_insert_row(pre.rows, y as int) {
        pre.with_edit(
            pre.rows.insert(y as int, seq![ch]),
            (y, (pre.rows.len() + 1) as usize),
        ).recorded((x, y), crate::history::OpView::InsertRow((x, y)))
    } else if y < pre.rows.len() && crate::buffer::can_insert_char(pre.rows, x as int, y as int) {
        pre.with_edit(
            pre.rows.update(y as int, pre.rows[y as int].insert(x as int, ch)),
            (y, (y + 1) as usize),
        ).recorded((x, y), crate::history::OpView::InsertChar((x, y)))
    } else {
        pre
    }
}

/// Whether an event is a selecting move: a cursor movement key with a
/// shift or ctrl modifier held.
pub open spec fn qualifying(event: Event) -> bool {
    event matches Event::Key(e, m) && (m == KeyModifier::CtrlLeft || m == KeyModifier::Shift)
        && (e == KeyEvent::ArrowLeft || e == KeyEvent::ArrowUp || e == KeyEvent::ArrowRight
        || e == KeyEvent::ArrowDown || e == KeyEvent::End || e == KeyEvent::Home || e
        == KeyEvent::Char('\0'))
}

/// The selection after one handled event, the cursor standing at `c`: a
/// first qualifying move anchors it there, later ones move the focus,
/// anything else drops it.
pub open spec fn select_after(pre: SelectView, c: (usize, usize), event: Event) -> SelectView {
    if qualifying(event) {
        if pre.enabled {
            SelectView {
                range: Some((pre.range.unwrap().0, c)),
                previous: Some(pre.range.unwrap().1),
                updated: pre.updated || pre.range.unwrap().1 != c || pre.previous != Some(
                    pre.range.unwrap().1,
                ),
                ..pre
            }
        } else {
            SelectView {
                mode: event_mode(event),
                range: Some((c, c)),
                previous: None,
                enabled: true,
                updated: pre.updated || pre.mode != event_mode(event) || pre.previous is Some
                    || !pre.enabled || pre.range != Some((c, c)),
            }
        }
    } else {
        if pre.enabled {
            SelectView { enabled: false, updated: true, ..pre }
        } else {
            SelectView {
                mode: SelectMode::Contiguous,
                range: None,
                previous: None,
                enabled: false,
                updated: pre.updated || !(pre.mode is Contiguous && pre.range is None
                    && pre.previous is None),
            }
        }
    }
}

/// The selection mode an event's modifier asks for.
pub open spec fn event_mode(event: Event) -> SelectMode {
    match event {
        Event::Key(_, KeyModifier::CtrlLeft) => SelectMode::Rectangle,
        _ => SelectMode::Contiguous,
    }
}

/// Whether a key moves the cursor within the text, and so can extend a
/// selection.
pub fn row_moved(key: KeyEvent) -> (r: bool)
    ensures
        r == (key == KeyEvent::ArrowLeft || key == KeyEvent::ArrowUp || key
            == KeyEvent::ArrowRight || key == KeyEvent::ArrowDown || key == KeyEvent::End
            || key == KeyEvent::Home || key == KeyEvent::Char('\0')),
{
    key == KeyEvent::ArrowLeft || key == KeyEvent::ArrowUp || key == KeyEvent::ArrowRight
        || key == KeyEvent::ArrowDown || key == KeyEvent::End || key == KeyEvent::Home || key
        == KeyEvent::Char('\0')
}

/// Whether a modifier marks a movement as selecting.
pub fn selected_moved(key: KeyModifier) -> (r: bool)
    ensures
        r == (key == KeyModifier::CtrlLeft || key == KeyModifier::Shift),
{
    key == KeyModifier::CtrlLeft || key == KeyModifier::Shift
}

/// Drive the selection from one handled event: the first qualifying move
/// anchors it, later qualifying moves update the focus, anything else
/// drops it.
pub fn update_select(select: &mut Select, cursor: &Cursor, event: Event)
    requires
        old(select)@.enabled ==> old(select)@.range is Some,
    ensures
        final(select)@ == select_after(
            old(select)@,
            (cursor.spec_x(), cursor.spec_y()),
            event,
        ),
{
    if let Event::Key(e, m) = event {
        if selected_moved(m) && row_moved(e) {
            if select.enabled() {
                select.set_end(cursor);
            } else {
                let mode = match m {
                    KeyModifier::CtrlLeft => SelectMode::Rectangle,
                    _ => SelectMode::Contiguous,
                };
                select.set_start(cursor, mode);
            }
        } else {
            select.disable();
        }
    } else {
        select.disable();
    }
}

/// One backspace at the cursor: inside a row it deletes the character
/// before the cursor and steps left; at a row start it joins the row onto
/// the one above and puts the cursor at the join; at the buffer's top left,
/// or past its end, nothing happens.
pub fn delete_char(cursor: &mut Cursor, content: &mut Buffer) -> (moved: bool)
    ensures
        final(content)@ == delete_char_content(
            old(content)@,
            old(cursor).spec_x(),
            old(cursor).spec_y(),
        ),
        (final(cursor).spec_x(), final(cursor).spec_y()) == delete_char_cursor(
            old(content)@.rows,
            old(cursor).spec_x(),
            old(cursor).spec_y(),
        ),
        moved == (*final(cursor) != *old(cursor)),
{
    let x = cursor.x();
    let y = cursor.y();
    if x == 0 && y == 0 {
        false
    } else if x == 0 && y >= content.rows() {
        false
    } else if x == 0 {
        let mut at = *cursor;
        at.set_y(content, y - 1);
        let len = content.row_char_len(&at);
        content.squash_row(cursor);
        let m1 = cursor.move_up(content);
        let m2 = cursor.set_x(content, len);
        m1 || m2
    } else {
        content.delete_char(cursor);
        cursor.move_left(content)
    }
}

/// One enter at the cursor: split the row there and move to the start of
/// the new row below.
pub fn enter(cursor: &mut Cursor, content: &mut Buffer) -> (moved: bool)
    ensures
        final(content)@ == enter_content(
            old(content)@,
            old(cursor).spec_x(),
            old(cursor).spec_y(),
        ),
        (final(cursor).spec_x(), final(cursor).spec_y()) == enter_cursor(
            old(content)@.rows,
            old(cursor).spec_y(),
        ),
        moved == (old(cursor).spec_x() != 0 || old(cursor).spec_y()
            < old(content)@.rows.len()),
{
    let ghost c0 = *cursor;
    content.split_row(cursor);
    let m1 = cursor.move_to_x0();
    let ghost c1 = *cursor;
    let m2 = cursor.move_down(content);
    proof {
        crate::cursor::lemma_cursor_eq(c0, c1);
        crate::cursor::lemma_cursor_eq(c1, *cursor);
    }
    m1 || m2
}

/// One printable character at the cursor: at the append position a new row
/// is created for it, else it is inserted in place; the cursor steps right.
pub fn input_char(cursor: &mut Cursor, content: &mut Buffer, ch: char) -> (moved: bool)
    ensures
        final(content)@ == input_char_content(
            old(content)@,
            old(cursor).spec_x(),
            old(cursor).spec_y(),
            ch,
        ),
        (final(cursor).spec_x(), final(cursor).spec_y()) == crate::cursor::move_right_spec(
            final(content)@.rows,
            old(cursor).spec_x(),
            old(cursor).spec_y(),
        ),
        moved == ((final(cursor).spec_x(), final(cursor).spec_y()) != (
        old(cursor).spec_x(),
        old(cursor).spec_y(),
        )),
{
    let y = cursor.y();
    if content.rows() <= y {
        let ch_row: [char; 1] = [ch];
        content.insert_row(cursor, ch_row.as_slice());
        proof {
            assert(ch_row@ =~= seq![ch]);
        }
    } else {
        content.insert_char(cursor, ch);
    }
    cursor.move_right(content)
}

/// Jump to a one-based line number; a number outside the buffer does
/// nothing.
pub fn goto_line(cursor: &mut Cursor, content: &Buffer, lineno: usize) -> (moved: bool)
    ensures
        0 < lineno <= content@.rows.len() ==> final(cursor).spec_y() == lineno - 1 && final(cursor).spec_x() == crate::cursor::at_most(
            old(cursor).spec_x() as int,
            crate::cursor::row_len_at(content@.rows, lineno - 1) as int,
        ) && moved == (*final(cursor) != *old(cursor)),
        !(0 < lineno <= content@.rows.len()) ==> !moved && *final(cursor) == *old(cursor),
{
    if 0 < lineno && lineno <= content.rows() {
        cursor.set_y(content, lineno - 1)
    } else {
        false
    }
}

/// Law: however anchor and focus were set, the normalized pair is
/// ordered: the start comes no later than the end by `(y, x)` order.
pub proof fn lemma_selection_ordered(v: SelectView)
    requires
        v.range is Some,
    ensures
        ({
            let s = sel_start(v).unwrap();
            let e = sel_end(v).unwrap();
            s.1 < e.1 || (s.1 == e.1 && s.0 <= e.0)
        }),
{
}

// -----------------------------------------------------------------------------------------------

/// What remains for the caller after one event is applied: nothing, or one
/// of the interactions that need the terminal — a modal prompt or a size
/// query.
#[derive(Clone, Copy, Debug, PartialEq, Eq, Structural)]
pub enum EditorAction {
    Handled,
    Find,
    Exit,
    Goto,
    Save,
    Replace,
    Resize,
}

/// Which action an event leaves for the caller.
pub open spec fn action_for(event: Event) -> EditorAction {
    match event {
        Event::Key(KeyEvent::Find, _) => EditorAction::Find,
        Event::Key(KeyEvent::Exit, _) => EditorAction::Exit,
        Event::Key(KeyEvent::Goto, _) => EditorAction::Goto,
        Event::Key(KeyEvent::Save, _) => EditorAction::Save,
        Event::Key(KeyEvent::Replace, _) => EditorAction::Replace,
        Event::Window(WindowEvent::Resize) => EditorAction::Resize,
        _ => EditorAction::Handled,
    }
}

/// An ASCII control character, which is never typed into the text.
pub open spec fn control_char(ch: char) -> bool {
    (ch as u32) < 32 || (ch as u32) == 127
}

/// Whether an ASCII control character was typed.
fn is_control(ch: char) -> (r: bool)
    ensures
        r == control_char(ch),
{
    (ch as u32) < 32 || (ch as u32) == 127
}

/// Apply one input event to the editing state: every edit and movement is
/// carried out here; the returned action names what still needs the
/// terminal. The selection follows the event afterwards, as a qualifying
/// move or a drop.
pub fn apply_event(
    cursor: &mut Cursor,
    content: &mut Buffer,
    screen: &mut Screen,
    select: &mut Select,
    event: Event,
) -> (r: EditorAction)
    requires
        crate::cursor::rows_fit(old(content)@.rows),
        old(screen)@.wf(),
        old(select)@.enabled ==> old(select)@.range is Some,
        old(cursor).spec_x() <= crate::cursor::row_len_at(
            old(content)@.rows,
            old(cursor).spec_y() as int,
        ),
    ensures
        r == action_for(event),
        final(select)@ == select_after(
            old(select)@,
            (final(cursor).spec_x(), final(cursor).spec_y()),
            event,
        ),
        ({
            let rows = old(content)@.rows;
            let x = old(cursor).spec_x();
            let y = old(cursor).spec_y();
            let h = old(screen)@.height;
            let fc = (final(cursor).spec_x(), final(cursor).spec_y());
            match event {
                Event::Key(KeyEvent::BackSpace, _) => final(content)@ == delete_char_content(
                    old(content)@,
                    x,
                    y,
                ) && fc == delete_char_cursor(rows, x, y) && final(screen)@ == old(screen)@,
                Event::Key(KeyEvent::Enter, _) => final(content)@ == enter_content(
                    old(content)@,
                    x,
                    y,
                ) && fc == enter_cursor(rows, y) && final(screen)@ == old(screen)@,
                Event::Key(KeyEvent::End, _) => final(content)@ == old(content)@ && fc == (
                    crate::cursor::row_len_at(rows, y as int) as usize,
                    y,
                ) && final(screen)@ == old(screen)@,
                Event::Key(KeyEvent::Home, _) => final(content)@ == old(content)@ && fc == (
                    0usize,
                    y,
                ) && final(screen)@ == old(screen)@,
                Event::Key(KeyEvent::PageUp, _) => final(content)@ == old(content)@ && fc
                    == crate::cursor::move_up_screen_spec(rows, x, y, h) && final(screen)@.top
                    == (if h < old(screen)@.top {
                    (old(screen)@.top - h) as usize
                } else {
                    0
                }) && final(screen)@.left == old(screen)@.left && final(screen)@.height == h
                    && final(screen)@.width == old(screen)@.width,
                Event::Key(KeyEvent::PageDown, _) => final(content)@ == old(content)@ && fc
                    == crate::cursor::move_down_screen_spec(rows, x, y, h) && ({
                    let n = rows.len() as int;
                    &&& ((h as int) < n ==> final(screen)@.top
                        == crate::screen::at_most_int(
                        old(screen)@.top + h,
                        n - h + 1,
                    ))
                    &&& ((h as int) >= n ==> final(screen)@.top == old(screen)@.top)
                }) && final(screen)@.left == old(screen)@.left && final(screen)@.height == h
                    && final(screen)@.width == old(screen)@.width,
                Event::Key(KeyEvent::ArrowLeft, _) => final(content)@ == old(content)@ && fc
                    == crate::cursor::move_left_spec(rows, x, y) && final(screen)@ == old(screen)@,
                Event::Key(KeyEvent::ArrowRight, _) => final(content)@ == old(content)@ && fc
                    == crate::cursor::move_right_spec(rows, x, y) && final(screen)@ == old(screen)@,
                Event::Key(KeyEvent::ArrowUp, _) => final(content)@ == old(content)@ && fc
                    == crate::cursor::move_up_render_spec(rows, x, y) && final(screen)@ == old(screen)@,
                Event::Key(KeyEvent::ArrowDown, _) => final(content)@ == old(content)@ && fc
                    == crate::cursor::move_down_render_spec(rows, x, y) && final(screen)@
                    == old(screen)@,
                Event::Key(KeyEvent::Delete, _) => ({
                    let c1 = crate::cursor::move_right_spec(rows, x, y);
                    &&& final(content)@ == delete_char_content(old(content)@, c1.0, c1.1)
                    &&& fc == delete_char_cursor(rows, c1.0, c1.1)
                    &&& final(screen)@ == old(screen)@
                }),
                Event::Key(KeyEvent::DeleteRow, _) => ({
                    &&& (crate::cursor::row_len_at(rows, y as int) == 0
                        ==> final(content)@ == (if (y as int) < rows.len() {
                        old(content)@.with_edit(
                            rows.remove(y as int),
                            (y, rows.len() as usize),
                        ).recorded(
                            (x, y),
                            crate::history::OpView::DeleteRow((x, y), rows[y as int]),
                        )
                    } else {
                        old(content)@
                    }))
                    &&& (crate::cursor::row_len_at(rows, y as int) > 0
                        ==> final(content)@ == (if crate::buffer::can_shrink_row(
                        rows,
                        x as int,
                        y as int,
                    ) {
                        old(content)@.with_edit(
                            rows.update(y as int, rows[y as int].take(x as int)),
                            (y, (y + 1) as usize),
                        ).with_pending(
                            Some(
                                (
                                    seq![rows[y as int].skip(x as int)],
                                    SelectMode::Contiguous,
                                ),
                            ),
                        ).recorded(
                            (x, y),
                            crate::history::OpView::ShrinkRow(
                                (x, y),
                                rows[y as int].skip(x as int),
                            ),
                        )
                    } else {
                        old(content)@
                    }))
                    &&& fc == (x, y)
                    &&& final(screen)@ == old(screen)@
                }),
                Event::Key(KeyEvent::Copy, _) => ({
                    &&& (match (sel_start(old(select)@), sel_end(old(select)@)) {
                        (Some(s), Some(e)) => final(content)@ == old(content)@.with_pending(
                            copy_result(old(content)@.rows, s, e, old(select)@.mode),
                        ),
                        _ => final(content)@ == old(content)@,
                    })
                    &&& fc == (x, y)
                    &&& final(screen)@ == old(screen)@
                }),
                Event::Key(KeyEvent::Cut, _) => ({
                    match (sel_start(old(select)@), sel_end(old(select)@)) {
                        (Some(s), Some(e)) => {
                            let mode = old(select)@.mode;
                            let can = crate::buffer::can_delete_chars(
                                rows,
                                s.0 as int,
                                s.1 as int,
                                e.0 as int,
                                e.1 as int,
                                mode,
                            );
                            &&& (can ==> ({
                                let new_rows = crate::buffer::delete_chars_rows(
                                    rows,
                                    s.0 as int,
                                    s.1 as int,
                                    e.0 as int,
                                    e.1 as int,
                                    mode,
                                );
                                &&& final(content)@ == old(content)@.with_edit(
                                    new_rows,
                                    crate::buffer::delete_chars_upd(
                                        s.1,
                                        e.1,
                                        new_rows.len(),
                                    ),
                                ).with_pending(
                                    Some(
                                        (
                                            crate::buffer::delete_chars_capture(
                                                rows,
                                                s.0 as int,
                                                s.1 as int,
                                                e.0 as int,
                                                e.1 as int,
                                                mode,
                                            ),
                                            mode,
                                        ),
                                    ),
                                ).recorded(
                                    (s.0, s.1),
                                    crate::history::OpView::DeleteChars(
                                        (s.0, s.1),
                                        crate::buffer::delete_chars_capture(
                                            rows,
                                            s.0 as int,
                                            s.1 as int,
                                            e.0 as int,
                                            e.1 as int,
                                            mode,
                                        ),
                                        mode,
                                    ),
                                )
                                &&& fc == crate::cursor::set_spec(
                                    final(content)@.rows,
                                    s.0,
                                    s.1,
                                )
                            }))
                            &&& (!can ==> final(content)@ == old(content)@ && fc
                                == crate::cursor::set_spec(rows, s.0, s.1))
                            &&& final(screen)@ == old(screen)@
                        },
                        _ => final(content)@ == old(content)@ && fc == (x, y) && final(screen)@
                            == old(screen)@,
                    }
                }),
                Event::Key(KeyEvent::Paste, _) => ({
                    match old(content)@.pending {
                        None => final(content)@ == old(content)@ && fc == (x, y) && final(screen)@
                            == old(screen)@,
                        Some(p) => {
                            let ins = p.0;
                            let mode = p.1;
                            let can = crate::buffer::can_insert_chars(
                                rows,
                                x as int,
                                y as int,
                                ins,
                                mode,
                            );
                            let changes = crate::buffer::insert_chars_changes(
                                rows,
                                x as int,
                                y as int,
                                ins,
                                mode,
                            );
                            let end = crate::buffer::insert_chars_end(x, y, ins, mode);
                            let new_rows = crate::buffer::insert_chars_rows(
                                rows,
                                x as int,
                                y as int,
                                ins,
                                mode,
                            );
                            &&& (can && changes ==> final(content)@ == (
                            crate::buffer::BufferView {
                                rows: new_rows,
                                cached: true,
                                updated: old(content)@.updated.push(
                                    if y == end.1 {
                                        (y, (end.1 + 1) as usize)
                                    } else {
                                        (y, new_rows.len() as usize)
                                    },
                                ),
                                history: old(content)@.history.push(
                                    (
                                        (x, y),
                                        crate::history::OpView::InsertChars((x, y), end, mode),
                                    ),
                                ),
                                ..old(content)@
                            }) && fc == crate::cursor::set_spec(new_rows, end.0, end.1))
                            &&& (!(can && changes) ==> final(content)@ == old(content)@ && fc
                                == (x, y))
                            &&& final(screen)@ == old(screen)@
                        },
                    }
                }),
                Event::Key(KeyEvent::Undo, _) => ({
                    &&& (old(content)@.history.len() == 0 ==> final(content)@ == old(content)@
                        && fc == (x, y))
                    &&& (old(content)@.history.len() > 0 ==> ({
                        let entry = old(content)@.history.last();
                        &&& final(content)@ == crate::buffer::undo_apply(
                            (crate::buffer::BufferView {
                                cached: true,
                                history: old(content)@.history.drop_last(),
                                ..old(content)@
                            }),
                            entry.1,
                        )
                        &&& fc == crate::cursor::set_spec(
                            final(content)@.rows,
                            entry.0.0,
                            entry.0.1,
                        )
                    }))
                    &&& final(screen)@ == old(screen)@
                }),
                Event::Key(KeyEvent::Char(ch), _) => ({
                    &&& (!control_char(ch) ==> final(content)@ == input_char_content(
                        old(content)@,
                        x,
                        y,
                        ch,
                    ) && fc == crate::cursor::move_right_spec(final(content)@.rows, x, y))
                    &&& (control_char(ch) ==> final(content)@ == old(content)@ && fc == (
                        x,
                        y,
                    ))
                    &&& final(screen)@ == old(screen)@
                }),
                _ => final(content)@ == old(content)@ && fc == (x, y) && final(screen)@ == old(screen)@,
            }
        }),
{
    let action = match event {
        Event::Key(KeyEvent::BackSpace, _) => {
            delete_char(cursor, content);
            EditorAction::Handled
        },
        Event::Key(KeyEvent::Enter, _) => {
            enter(cursor, content);
            EditorAction::Handled
        },
        Event::Key(KeyEvent::End, _) => {
            cursor.move_to_xmax(content);
            EditorAction::Handled
        },
        Event::Key(KeyEvent::Home, _) => {
            cursor.move_to_x0();
            EditorAction::Handled
        },
        Event::Key(KeyEvent::PageUp, _) => {
            screen.move_up();
            cursor.move_up_screen(content, screen);
            EditorAction::Handled
        },
        Event::Key(KeyEvent::PageDown, _) => {
            screen.move_down(content);
            cursor.move_down_screen(content, screen);
            EditorAction::Handled
        },
        Event::Key(KeyEvent::ArrowLeft, _) => {
            cursor.move_left(content);
            EditorAction::Handled
        },
        Event::Key(KeyEvent::ArrowRight, _) => {
            cursor.move_right(content);
            EditorAction::Handled
        },
        Event::Key(KeyEvent::ArrowUp, _) => {
            cursor.move_up_render(content);
            EditorAction::Handled
        },
        Event::Key(KeyEvent::ArrowDown, _) => {
            cursor.move_down_render(content);
            EditorAction::Handled
        },
        Event::Key(KeyEvent::Delete, _) => {
            cursor.move_right(content);
            delete_char(cursor, content);
            EditorAction::Handled
        },
        Event::Key(KeyEvent::DeleteRow, _) => {
            if content.row_char_len(cursor) == 0 {
                let _ = content.delete_row(cursor);
            } else {
                content.shrink_row(cursor);
            }
            EditorAction::Handled
        },
        Event::Key(KeyEvent::Copy, _) => {
            let range = match (select.start(), select.end()) {
                (Some(s), Some(e)) => Some((*s, *e)),
                _ => None,
            };
            if let Some((s, e)) = range {
                let mode = select.mode();
                content.copy_pending(&s..&e, mode);
            }
            EditorAction::Handled
        },
        Event::Key(KeyEvent::Cut, _) => {
            let range = match (select.start(), select.end()) {
                (Some(s), Some(e)) => Some((*s, *e)),
                _ => None,
            };
            if let Some((s, e)) = range {
                let mode = select.mode();
                content.delete_chars(&s, &e, mode);
                cursor.set(content, &s);
            }
            EditorAction::Handled
        },
        Event::Key(KeyEvent::Paste, _) => {
            if let Some(pos) = content.paste_pending(cursor) {
                cursor.set(content, &pos);
            }
            EditorAction::Handled
        },
        Event::Key(KeyEvent::Undo, _) => {
            if let Some(cur) = content.undo() {
                cursor.set(content, &cur);
            }
            EditorAction::Handled
        },
        Event::Key(KeyEvent::Char(ch), _) => {
            if !is_control(ch) {
                input_char(cursor, content, ch);
            }
            EditorAction::Handled
        },
        Event::Key(KeyEvent::Find, _) => EditorAction::Find,
        Event::Key(KeyEvent::Exit, _) => EditorAction::Exit,
        Event::Key(KeyEvent::Goto, _) => EditorAction::Goto,
        Event::Key(KeyEvent::Save, _) => EditorAction::Save,
        Event::Key(KeyEvent::Replace, _) => EditorAction::Replace,
        Event::Window(WindowEvent::Resize) => EditorAction::Resize,
        _ => EditorAction::Handled,
    };
    update_select(select, cursor, event);
    action
}

/// What a copy stashes in the clipboard slot: the captured rows under the
/// selection's mode, or nothing when the range is invalid.
pub open spec fn copy_result(
    rows: Seq<Seq<char>>,
    s: (usize, usize),
    e: (usize, usize),
    mode: SelectMode,
) -> Option<(Seq<Seq<char>>, SelectMode)> {
    match mode {
        SelectMode::Contiguous => if crate::buffer::can_get_contiguous(
            rows,
            s.0 as int,
            s.1 as int,
            e.0 as int,
            e.1 as int,
        ) {
            Some(
                (
                    crate::buffer::capture_contiguous(
                        rows,
                        s.0 as int,
                        s.1 as int,
                        e.0 as int,
                        e.1 as int,
                    ),
                    mode,
                ),
            )
        } else {
            None
        },
        SelectMode::Rectangle => if s.1 <= e.1 < rows.len() {
            Some(
                (
                    crate::buffer::rect_capture(
                        rows,
                        s.1 as int,
                        e.1 as int,
                        crate::buffer::rect_start(s.0 as int, e.0 as int),
                        crate::buffer::rect_end(s.0 as int, e.0 as int),
                    ),
                    mode,
                ),
            )
        } else {
            None
        },
    }
}

} // verus!
