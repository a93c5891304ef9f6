//! The undo log: an append-only stack of self-contained edit records, each
//! carrying the cursor position active when it was recorded and enough data
//! to invert the edit exactly.

use vstd::prelude::*;

use crate::editor::SelectMode;
use crate::row::{rows_view, Row};

verus! {

/// A reversible edit record. Every variant stores what its inverse needs:
/// deleted content is stored, never recomputed.
pub enum Operation {
    /// Characters were appended to the row; the coordinate is where the
    /// append began.
    Append((usize, usize)),
    /// The character before the coordinate was removed.
    DeleteChar((usize, usize), char),
    /// A run or block of rows was removed, under the given selection mode.
    DeleteChars((usize, usize), Vec<Row>, SelectMode),
    /// A whole row was removed.
    DeleteRow((usize, usize), Row),
    /// A character was inserted at the coordinate.
    InsertChar((usize, usize)),
    /// Rows were inserted from the first coordinate up to the second, under
    /// the given selection mode.
    InsertChars((usize, usize), (usize, usize), SelectMode),
    /// A whole row was inserted.
    InsertRow((usize, usize)),
    /// `length` characters at the coordinate replaced the stored row.
    Replace((usize, usize), usize, Row),
    /// The row was truncated at the coordinate; the removed tail is stored.
    ShrinkRow((usize, usize), Row),
    /// The row was split; the coordinate is where the tail row begins.
    SplitRow((usize, usize)),
    /// The row was joined onto the one above; the coordinate is where the
    /// join landed.
    SquashRow((usize, usize)),
}

/// The specification-level image of an `Operation`, with rows as character
/// sequences.
pub enum OpView {
    Append((usize, usize)),
    DeleteChar((usize, usize), char),
    DeleteChars((usize, usize), Seq<Seq<char>>, SelectMode),
    DeleteRow((usize, usize), Seq<char>),
    InsertChar((usize, usize)),
    InsertChars((usize, usize), (usize, usize), SelectMode),
    InsertRow((usize, usize)),
    Replace((usize, usize), usize, Seq<char>),
    ShrinkRow((usize, usize), Seq<char>),
    SplitRow((usize, usize)),
    SquashRow((usize, usize)),
}

impl View for Operation {
    type V = OpView;

    open spec fn view(&self) -> OpView {
        match self {
            Operation::Append(at) => OpView::Append(*at),
            Operation::DeleteChar(at, ch) => OpView::DeleteChar(*at, *ch),
            Operation::DeleteChars(at, rows, mode) => OpView::DeleteChars(
                *at,
                rows_view(rows@),
                *mode,
            ),
            Operation::DeleteRow(at, row) => OpView::DeleteRow(*at, row@),
            Operation::InsertChar(at) => OpView::InsertChar(*at),
            Operation::InsertChars(at, end, mode) => OpView::InsertChars(*at, *end, *mode),
            Operation::InsertRow(at) => OpView::InsertRow(*at),
            Operation::Replace(at, length, row) => OpView::Replace(*at, *length, row@),
            Operation::ShrinkRow(at, row) => OpView::ShrinkRow(*at, row@),
            Operation::SplitRow(at) => OpView::SplitRow(*at),
            Operation::SquashRow(at) => OpView::SquashRow(*at),
        }
    }
}

// -----------------------------------------------------------------------------------------------

/// An append-only log of reversible edit records, popped one at a time by
/// undo.
pub struct History {
    entries: Vec<((usize, usize), Operation)>,
}

impl Default for History {
    fn default() -> (r: Self)
        ensures
            r@ == Seq::<((usize, usize), OpView)>::empty(),
    {
        let r = History { entries: Vec::new() };
        proof {
            assert(r@ =~= Seq::<((usize, usize), OpView)>::empty());
        }
        r
    }
}

impl View for History {
    type V = Seq<((usize, usize), OpView)>;

    closed spec fn view(&self) -> Seq<((usize, usize), OpView)> {
        self.entries@.map_values(|e: ((usize, usize), Operation)| (e.0, e.1@))
    }
}

impl History {
    /// Drop every record.
    pub fn clear(&mut self)
        ensures
            final(self)@ == Seq::<((usize, usize), OpView)>::empty(),
    {
        self.entries.clear();
        proof {
            assert(self@ =~= Seq::<((usize, usize), OpView)>::empty());
        }
    }

    /// Whether the log holds no record.
    pub fn is_empty(&self) -> (r: bool)
        ensures
            r <==> self@.len() == 0,
    {
        self.entries.is_empty()
    }

    /// Number of records in the log.
    pub fn len(&self) -> (r: usize)
        ensures
            r == self@.len(),
    {
        self.entries.len()
    }

    /// Push a record: the cursor position active now, and the operation.
    pub fn record(&mut self, cursor: (usize, usize), op: Operation)
        ensures
            final(self)@ == old(self)@.push((cursor, op@)),
    {
        let ghost v = op@;
        self.entries.push((cursor, op));
        proof {
            assert(self@ =~= old(self)@.push((cursor, v)));
        }
    }

    /// Pop the most recent record, if any.
    pub fn rollback(&mut self) -> (r: Option<((usize, usize), Operation)>)
        ensures
            old(self)@.len() > 0 ==> (match r {
                Some(entry) => final(self)@ == old(self)@.drop_last() && (
                entry.0,
                entry.1@,
                ) == old(self)@.last(),
                None => false,
            }),
            old(self)@.len() == 0 ==> r is None && final(self)@ == old(self)@,
    {
        let r = self.entries.pop();
        proof {
            if old(self)@.len() > 0 {
                assert(self@ =~= old(self)@.drop_last());
            } else {
                assert(self@ =~= old(self)@);
            }
        }
        r
    }
}

} // verus!
