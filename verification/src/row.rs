//! One line of text: a sequence of Unicode scalar values with width-aware
//! slicing under the tab and double-width (CJK) rendering rules.

use vstd::prelude::*;
use vstd::string::StrSliceExecFns;

verus! {

/// Number of columns between tab stops.
pub const TAB_STOP: usize = 8;

/// The number of terminal columns a scalar value occupies, as the
/// unicode-width crate computes it under the East Asian Width rules.
pub uninterp spec fn scalar_width(c: char) -> nat;

/// Relies on unicode_width::UnicodeWidthChar::width_cjk: the column width
/// of a character depends on the character alone, is at most 3 (the width
/// tables store two-bit entries, and the widest resolved value is 3), and
/// every printable ASCII character is one column wide; a character without
/// a width (a control character) counts as one column here.
#[verifier::external_body]
fn char_width(c: char) -> (w: usize)
    ensures
        w as nat == scalar_width(c),
        w <= 3,
        ' ' <= c <= '~' ==> w == 1,
{
    unicode_width::UnicodeWidthChar::width_cjk(c).unwrap_or(1)
}

/// Relies on String's FromIterator over char: collecting characters yields
/// the string of exactly those characters.
#[verifier::external_body]
pub(crate) fn chars_to_string(v: Vec<char>) -> (r: String)
    ensures
        r@ == v@,
{
    v.into_iter().collect()
}

/// The characters of a string slice, as a vector.
pub fn str_chars(s: &str) -> (v: Vec<char>)
    ensures
        v@ == s@,
{
    let n = s.unicode_len();
    let mut v: Vec<char> = Vec::new();
    let mut i: usize = 0;
    while i < n
        invariant
            i <= n,
            n == s@.len(),
            v@ == s@.subrange(0, i as int),
        decreases n - i,
    {
        v.push(s.get_char(i));
        proof {
            assert(s@.subrange(0, i + 1) =~= s@.subrange(0, i as int).push(s@[i as int]));
        }
        i = i + 1;
    }
    proof {
        assert(s@.subrange(0, s@.len() as int) =~= s@);
    }
    v
}

/// A vector of `n` spaces.
pub fn spaces_vec(n: usize) -> (v: Vec<char>)
    ensures
        v@ == spaces(n as nat),
{
    let mut v: Vec<char> = Vec::new();
    let mut i: usize = 0;
    while i < n
        invariant
            i <= n,
            v@ == spaces(i as nat),
        decreases n - i,
    {
        v.push(' ');
        proof {
            assert(spaces(i as nat).push(' ') =~= spaces((i + 1) as nat));
        }
        i = i + 1;
    }
    v
}

/// Columns a tab advances when the text before it is `w` columns wide:
/// up to the next multiple of `TAB_STOP`, so always in `1..=TAB_STOP`.
pub open spec fn tab_advance(w: nat) -> nat {
    (TAB_STOP - w % (TAB_STOP as nat)) as nat
}

/// Columns character `c` advances when the text before it is `w` columns wide.
pub open spec fn char_advance(c: char, w: nat) -> nat {
    if c == '\t' {
        tab_advance(w)
    } else {
        scalar_width(c)
    }
}

/// Columns character `c` advances, seen from exec code.
fn char_advance_exec(c: char, w: usize) -> (add: usize)
    requires
        w as nat + (TAB_STOP as nat) <= usize::MAX as nat,
    ensures
        add as nat == char_advance(c, w as nat),
        add <= TAB_STOP,
        c != '\t' ==> scalar_width(c) <= 3,
{
    if c == '\t' {
        TAB_STOP - (w % TAB_STOP)
    } else {
        char_width(c)
    }
}

/// Rendered width of a sequence of characters, starting at column 0.
pub open spec fn width_of(s: Seq<char>) -> nat
    decreases s.len(),
{
    if s.len() == 0 {
        0
    } else {
        let prefix = width_of(s.drop_last());
        prefix + char_advance(s.last(), prefix)
    }
}

/// A character count small enough that the rendered width, at most
/// `TAB_STOP` columns per character, cannot overflow a `usize`.
pub open spec fn len_fits(n: nat) -> bool {
    8 * n <= usize::MAX as nat
}

/// Adding one character to a prefix adds that character's advance.
pub proof fn lemma_width_step(s: Seq<char>, i: int)
    requires
        0 <= i < s.len(),
    ensures
        width_of(s.take(i + 1)) == width_of(s.take(i)) + char_advance(
            s[i],
            width_of(s.take(i)),
        ),
{
    assert(s.take(i + 1).drop_last() =~= s.take(i));
}

/// Width is monotone in the prefix length: rendering one more character
/// never shrinks the width.
pub proof fn lemma_width_monotone(s: Seq<char>, i: int)
    requires
        0 <= i < s.len(),
    ensures
        width_of(s.subrange(0, i)) <= width_of(s.subrange(0, i + 1)),
{
    let shorter = s.subrange(0, i);
    let longer = s.subrange(0, i + 1);
    assert(longer.drop_last() =~= shorter);
}

/// A tab advances the width by at least one and at most `TAB_STOP` columns.
pub proof fn lemma_tab_advance_bounds(w: nat)
    ensures
        1 <= tab_advance(w) <= TAB_STOP as nat,
{
}

/// The views of a sequence of rows: each row as its character sequence.
pub open spec fn rows_view(rows: Seq<Row>) -> Seq<Seq<char>> {
    rows.map_values(|r: Row| r@)
}

/// Viewing rows commutes with appending one.
pub proof fn lemma_rows_view_push(s: Seq<Row>, r: Row)
    ensures
        rows_view(s.push(r)) == rows_view(s).push(r@),
{
    assert(rows_view(s.push(r)) =~= rows_view(s).push(r@));
}

/// Viewing rows commutes with removing one.
pub proof fn lemma_rows_view_remove(s: Seq<Row>, i: int)
    requires
        0 <= i < s.len(),
    ensures
        rows_view(s.remove(i)) == rows_view(s).remove(i),
{
    assert(rows_view(s.remove(i)) =~= rows_view(s).remove(i));
}

/// Viewing rows commutes with replacing one.
pub proof fn lemma_rows_view_update(s: Seq<Row>, i: int, r: Row)
    requires
        0 <= i < s.len(),
    ensures
        rows_view(s.update(i, r)) == rows_view(s).update(i, r@),
{
    assert(rows_view(s.update(i, r)) =~= rows_view(s).update(i, r@));
}

/// Viewing rows commutes with inserting one.
pub proof fn lemma_rows_view_insert(s: Seq<Row>, i: int, r: Row)
    requires
        0 <= i <= s.len(),
    ensures
        rows_view(s.insert(i, r)) == rows_view(s).insert(i, r@),
{
    assert(rows_view(s.insert(i, r)) =~= rows_view(s).insert(i, r@));
}

/// A sequence of `n` spaces.
pub open spec fn spaces(n: nat) -> Seq<char> {
    Seq::new(n, |i: int| ' ')
}

/// The row expanded for display: every tab becomes the spaces that carry the
/// width to the next tab stop, every other character stands as itself.
pub open spec fn render_of(s: Seq<char>) -> Seq<char>
    decreases s.len(),
{
    if s.len() == 0 {
        Seq::<char>::empty()
    } else {
        let r = render_of(s.drop_last());
        if s.last() == '\t' {
            r + spaces(tab_advance(width_of(s.drop_last())))
        } else {
            r.push(s.last())
        }
    }
}

/// A character count small enough that even the rendered, tab-expanded form
/// of the row (at most `TAB_STOP + 1` characters per source character, plus
/// a tab stop of edge padding) keeps every width computation within a
/// `usize`.
pub open spec fn render_len_fits(n: nat) -> bool {
    80 * n + 80 <= usize::MAX as nat
}

/// A row bounded for rendering is bounded for plain width computation too,
/// and so is its rendered form with its edge padding.
pub proof fn lemma_render_budget(n: nat, m: nat)
    requires
        render_len_fits(n),
        m <= 9 * n + 8,
    ensures
        len_fits(n),
        len_fits(m),
{
    assert(8 * m <= 72 * n + 64);
}

// -----------------------------------------------------------------------------------------------

/// Index of the first prefix of `s`, from `i` on, whose width reaches
/// `min_width`; `None` when no prefix but the whole row does.
pub open spec fn shrink_index_from(s: Seq<char>, min_width: nat, i: nat) -> Option<nat>
    decreases s.len() - i when i <= s.len()
{
    if i >= s.len() {
        None
    } else if min_width <= width_of(s.take(i as int)) {
        Some(i)
    } else {
        shrink_index_from(s, min_width, i + 1)
    }
}

/// Number of leading characters kept when the row is cut to `max_width`
/// columns: characters are kept until one would carry the width past
/// `max_width`.
pub open spec fn truncate_len_from(s: Seq<char>, max_width: nat, i: nat) -> nat
    decreases s.len() - i when i <= s.len()
{
    if i >= s.len() {
        s.len()
    } else if width_of(s.take(i as int + 1)) > max_width {
        i
    } else {
        truncate_len_from(s, max_width, i + 1)
    }
}

/// A mutable sequence of Unicode scalar values representing one line.
#[derive(Debug)]
pub struct Row {
    column: Vec<char>,
}

/// What `shrink_width` leaves behind and returns, as one description:
/// the kept tail of `s` and the width actually removed.
pub open spec fn shrink_spec(s: Seq<char>, min_width: nat) -> (Seq<char>, nat) {
    if width_of(s) <= min_width {
        (Seq::<char>::empty(), width_of(s))
    } else {
        match shrink_index_from(s, min_width, 0) {
            Some(i) => (s.skip(i as int), width_of(s.take(i as int))),
            None => (s, 0),
        }
    }
}

/// A found shrink index lies between the starting point and the row's end.
pub proof fn lemma_shrink_index_bounds(s: Seq<char>, min_width: nat, i: nat)
    requires
        i <= s.len(),
        shrink_index_from(s, min_width, i) is Some,
    ensures
        i <= shrink_index_from(s, min_width, i).unwrap() < s.len(),
    decreases s.len() - i,
{
    if i < s.len() && !(min_width <= width_of(s.take(i as int))) {
        lemma_shrink_index_bounds(s, min_width, i + 1);
    }
}

/// Shrinking never lengthens a row.
pub proof fn lemma_shrink_kept_len(s: Seq<char>, min_width: nat)
    ensures
        shrink_spec(s, min_width).0.len() <= s.len(),
{
    if !(width_of(s) <= min_width) && shrink_index_from(s, min_width, 0) is Some {
        lemma_shrink_index_bounds(s, min_width, 0);
    }
}

/// What `truncate_width` leaves behind: the longest prefix whose width
/// stays within `max_width`.
pub open spec fn truncate_spec(s: Seq<char>, max_width: nat) -> Seq<char> {
    s.take(truncate_len_from(s, max_width, 0) as int)
}

/// What `slice_width` returns: the rendered row cut to the columns in
/// `start..end`, padded with spaces where the cut falls inside a wide
/// character or past the content.
pub open spec fn slice_spec(s: Seq<char>, start: nat, end: nat) -> Seq<char> {
    let window = (end - start) as nat;
    let rendered = render_of(s);
    let kept = shrink_spec(rendered, start).0;
    let removed = shrink_spec(rendered, start).1;
    let front_padded = if start < removed {
        spaces((removed - start) as nat) + kept
    } else {
        kept
    };
    let cut = truncate_spec(front_padded, window);
    cut + spaces((window - width_of(cut)) as nat)
}

impl View for Row {
    type V = Seq<char>;

    closed spec fn view(&self) -> Seq<char> {
        self.column@
    }
}

impl Clone for Row {
    fn clone(&self) -> (r: Self)
        ensures
            r@ == self@,
    {
        let column = self.column.clone();
        proof {
            assert(column@ =~= self.column@);
        }
        Row { column }
    }
}

impl Default for Row {
    fn default() -> (r: Self)
        ensures
            r@ == Seq::<char>::empty(),
    {
        Row { column: Vec::new() }
    }
}

impl Row {
    /// Append the given characters at the end of the row.
    pub fn append(&mut self, other: &[char])
        ensures
            final(self)@ == old(self)@ + other@,
    {
        self.column.extend_from_slice(other);
        proof {
            assert(self.column@ =~= old(self)@ + other@);
        }
    }

    /// Remove every character.
    pub fn clear(&mut self)
        ensures
            final(self)@ == Seq::<char>::empty(),
    {
        self.column.clear();
    }

    /// The characters of the row.
    pub fn column(&self) -> (r: &[char])
        ensures
            r@ == self@,
    {
        self.column.as_slice()
    }

    /// Insert a character before `index`; out of bounds is a silent no-op.
    pub fn insert(&mut self, index: usize, element: char)
        ensures
            index <= old(self)@.len() ==> final(self)@ == old(self)@.insert(
                index as int,
                element,
            ),
            index > old(self)@.len() ==> final(self)@ == old(self)@,
    {
        if index <= self.column.len() {
            self.column.insert(index, element);
        }
    }

    /// Insert a run of characters before `index`; out of bounds is a silent
    /// no-op.
    pub fn insert_slice(&mut self, index: usize, other: &[char])
        ensures
            index <= old(self)@.len() ==> final(self)@ == old(self)@.subrange(0, index as int)
                + other@ + old(self)@.skip(index as int),
            index > old(self)@.len() ==> final(self)@ == old(self)@,
    {
        if index <= self.column.len() {
            let mut tail = self.column.split_off(index);
            self.column.extend_from_slice(other);
            self.column.append(&mut tail);
            proof {
                assert(self.column@ =~= old(self)@.subrange(0, index as int) + other@
                    + old(self)@.skip(index as int));
            }
        }
    }

    /// Whether the row has no characters.
    pub fn is_empty(&self) -> (r: bool)
        ensures
            r <==> self@.len() == 0,
    {
        self.column.is_empty()
    }

    /// Number of characters in the row.
    pub fn len(&self) -> (r: usize)
        ensures
            r == self@.len(),
    {
        self.column.len()
    }

    /// Remove and return the character at `index`; out of bounds returns
    /// `None` and leaves the row unchanged.
    pub fn remove(&mut self, index: usize) -> (r: Option<char>)
        ensures
            index < old(self)@.len() ==> r == Some(old(self)@[index as int]) && final(self)@
                == old(self)@.remove(index as int),
            index >= old(self)@.len() ==> r is None && final(self)@ == old(self)@,
    {
        if index < self.column.len() {
            Some(self.column.remove(index))
        } else {
            None
        }
    }

    /// Remove and return the characters in `range`; a range past the end
    /// returns `None` and leaves the row unchanged.
    pub fn remove_range(&mut self, range: core::ops::Range<usize>) -> (r: Option<Vec<char>>)
        requires
            range.start <= range.end,
        ensures
            range.end <= old(self)@.len() ==> (match r {
                Some(removed) => removed@ == old(self)@.subrange(
                    range.start as int,
                    range.end as int,
                ) && final(self)@ == old(self)@.subrange(0, range.start as int) + old(self)@.skip(range.end as int),
                None => false,
            }),
            range.end > old(self)@.len() ==> r is None && final(self)@ == old(self)@,
    {
        if range.end <= self.column.len() {
            let mut tail = self.column.split_off(range.end);
            let removed = self.column.split_off(range.start);
            self.column.append(&mut tail);
            proof {
                assert(self.column@ =~= old(self)@.subrange(0, range.start as int) + old(self)@.skip(range.end as int));
            }
            Some(removed)
        } else {
            None
        }
    }

    /// Split the row in place at `at`, returning the tail as a new row.
    pub fn split_off(&mut self, at: usize) -> (r: Row)
        requires
            at <= old(self)@.len(),
        ensures
            final(self)@ == old(self)@.subrange(0, at as int),
            r@ == old(self)@.skip(at as int),
    {
        Row { column: self.column.split_off(at) }
    }

    /// The first `at` characters in reverse order.
    pub fn rev_at(&self, at: usize) -> (r: Row)
        ensures
            r@.len() == (if at <= self@.len() {
                at as int
            } else {
                self@.len() as int
            }),
            forall|i: int| 0 <= i < r@.len() ==> r@[i] == self@[r@.len() - 1 - i],
    {
        let taken = if at <= self.column.len() {
            at
        } else {
            self.column.len()
        };
        let mut rev: Vec<char> = Vec::new();
        let mut i: usize = taken;
        while i > 0
            invariant
                i <= taken <= self.column@.len(),
                rev@.len() == taken - i,
                forall|j: int| 0 <= j < rev@.len() ==> rev@[j] == self.column@[taken - 1 - j],
            decreases i,
        {
            i = i - 1;
            rev.push(self.column[i]);
        }
        Row { column: rev }
    }

    /// Rendered width of the characters in `range`, starting at column 0.
    pub fn width_range(&self, range: core::ops::Range<usize>) -> (w: usize)
        requires
            range.start <= range.end <= self@.len(),
            len_fits((range.end - range.start) as nat),
        ensures
            w as nat == width_of(self@.subrange(range.start as int, range.end as int)),
            w <= 8 * (range.end - range.start),
            forall|j: int|
                range.start <= j < range.end && self@[j] != '\t' ==> scalar_width(
                    #[trigger] self@[j],
                ) <= 3,
    {
        let ghost full = self@.subrange(range.start as int, range.end as int);
        let mut render: usize = 0;
        let mut i: usize = range.start;
        while i < range.end
            invariant
                range.start <= i <= range.end <= self@.len(),
                len_fits((range.end - range.start) as nat),
                render as nat == width_of(self@.subrange(range.start as int, i as int)),
                render <= 8 * (i - range.start),
                forall|j: int|
                    range.start <= j < i && self@[j] != '\t' ==> scalar_width(
                        #[trigger] self@[j],
                    ) <= 3,
            decreases range.end - i,
        {
            let ghost prefix = self@.subrange(range.start as int, i as int);
            let ch = self.column[i];
            let add = char_advance_exec(ch, render);
            proof {
                assert(TAB_STOP == 8);
            }
            proof {
                assert(self@.subrange(range.start as int, i + 1).drop_last() =~= prefix);
                assert(self@.subrange(range.start as int, i + 1).last() == ch);
            }
            render = render + add;
            i = i + 1;
        }
        proof {
            assert(self@.subrange(range.start as int, range.end as int) =~= full);
        }
        render
    }

    /// Rendered width of the whole row.
    pub fn width(&self) -> (w: usize)
        requires
            len_fits(self@.len()),
        ensures
            w as nat == width_of(self@),
    {
        let w = self.width_range(0..self.column.len());
        proof {
            assert(self@.subrange(0, self@.len() as int) =~= self@);
        }
        w
    }

    /// Replace `length` characters at `index` by the given ones, returning
    /// what was removed; a span past the end returns `None` and leaves the
    /// row unchanged.
    pub fn replace(&mut self, index: usize, length: usize, other: &[char]) -> (r: Option<
        Vec<char>,
    >)
        ensures
            index + length <= old(self)@.len() ==> (match r {
                Some(removed) => removed@ == old(self)@.subrange(
                    index as int,
                    index + length,
                ) && final(self)@ == old(self)@.subrange(0, index as int) + other@ + old(self)@.skip(index + length),
                None => false,
            }),
            index + length > old(self)@.len() ==> r is None && final(self)@ == old(self)@,
    {
        if index <= self.column.len() && length <= self.column.len() - index {
            let removed = self.remove_range(index..index + length);
            self.insert_slice(index, other);
            removed
        } else {
            None
        }
    }

    /// Cut characters off the front until at least `min_width` columns are
    /// gone, returning the width actually removed; a row no wider than
    /// `min_width` is emptied whole.
    pub fn shrink_width(&mut self, min_width: usize) -> (removed: usize)
        requires
            len_fits(old(self)@.len()),
        ensures
            final(self)@ == shrink_spec(old(self)@, min_width as nat).0,
            removed as nat == shrink_spec(old(self)@, min_width as nat).1,
            removed as nat <= min_width as nat + 8,
    {
        let total = self.width();
        if total <= min_width {
            self.column.clear();
            return total;
        }
        let ghost s = self@;
        let mut index: usize = 0;
        while index < self.column.len()
            invariant
                len_fits(s.len()),
                s == self@,
                s == old(self)@,
                index <= s.len(),
                width_of(s) > min_width as nat,
                forall|j: int| 0 <= j < index ==> width_of(s.take(j)) < min_width as nat,
                shrink_index_from(s, min_width as nat, 0) == shrink_index_from(
                    s,
                    min_width as nat,
                    index as nat,
                ),
            decreases self.column@.len() - index,
        {
            let width = self.width_range(0..index);
            proof {
                assert(s.take(index as int) =~= s.subrange(0, index as int));
            }
            if min_width <= width {
                proof {
                    if index > 0 {
                        lemma_width_step(s, index - 1);
                        assert(s.take(index - 1) =~= s.subrange(0, index - 1));
                    }
                }
                proof {
                    assert(shrink_index_from(s, min_width as nat, index as nat) == Some(
                        index as nat,
                    ));
                    assert(shrink_spec(s, min_width as nat).0 == s.skip(index as int));
                    assert(shrink_spec(s, min_width as nat).1 == width_of(
                        s.take(index as int),
                    ));
                }
                let tail = self.column.split_off(index);
                self.column = tail;
                proof {
                    assert(s.subrange(index as int, s.len() as int) =~= s.skip(index as int));
                }
                return width;
            }
            index = index + 1;
        }
        0
    }

    /// Cut characters off the back until the row fits in `max_width`
    /// columns, returning the width that remains; a character is cut as soon
    /// as it would carry the width past `max_width`.
    pub fn truncate_width(&mut self, max_width: usize) -> (rest: usize)
        requires
            len_fits(old(self)@.len()),
        ensures
            final(self)@ == truncate_spec(old(self)@, max_width as nat),
            rest as nat == width_of(final(self)@),
            rest <= max_width,
    {
        let ghost s = self@;
        let mut index: usize = 0;
        let mut cut = false;
        while index < self.column.len() && !cut
            invariant
                len_fits(s.len()),
                index <= s.len(),
                width_of(s.take(index as int)) <= max_width as nat,
                cut ==> self@ == s.take(truncate_len_from(s, max_width as nat, 0) as int)
                    && truncate_len_from(s, max_width as nat, 0) == index,
                !cut ==> self@ == s && truncate_len_from(s, max_width as nat, 0)
                    == truncate_len_from(s, max_width as nat, index as nat),
            decreases self.column@.len() - index,
        {
            let width = self.width_range(0..index + 1);
            proof {
                assert(s.subrange(0, index + 1) =~= s.take(index + 1));
            }
            if max_width < width {
                self.column.truncate(index);
                cut = true;
            } else {
                index = index + 1;
            }
        }
        proof {
            if !cut {
                assert(s.take(truncate_len_from(s, max_width as nat, 0) as int) =~= s);
                assert(s.take(index as int) =~= s);
            }
        }
        let rest = self.width();
        rest
    }

    /// The row expanded for display: tabs become spaces up to the next tab
    /// stop, other characters stand as themselves.
    fn render(&self) -> (r: Row)
        requires
            len_fits(self@.len()),
        ensures
            r@ == render_of(self@),
            r@.len() <= 9 * self@.len(),
    {
        let mut out: Vec<char> = Vec::new();
        let mut width: usize = 0;
        let mut i: usize = 0;
        while i < self.column.len()
            invariant
                len_fits(self@.len()),
                i <= self@.len(),
                out@ == render_of(self@.take(i as int)),
                out@.len() <= 9 * i,
                width as nat == width_of(self@.take(i as int)),
                width <= TAB_STOP * i,
            decreases self.column@.len() - i,
        {
            let ghost prefix = self@.take(i as int);
            let ch = self.column[i];
            proof {
                assert(self@.take(i + 1).drop_last() =~= prefix);
                assert(self@.take(i + 1).last() == ch);
            }
            if ch == '\t' {
                let fill = TAB_STOP - (width % TAB_STOP);
                let ghost len_before = out@.len();
                let mut k: usize = 0;
                while k < fill
                    invariant
                        k <= fill <= TAB_STOP,
                        out@ == render_of(prefix) + spaces(k as nat),
                        out@.len() == len_before + k,
                    decreases fill - k,
                {
                    out.push(' ');
                    proof {
                        assert(out@ =~= render_of(prefix) + spaces((k + 1) as nat));
                    }
                    k = k + 1;
                }
                width = width + fill;
                proof {
                    assert(TAB_STOP == 8);
                    assert(out@.len() <= 9 * (i + 1));
                }
            } else {
                out.push(ch);
                width = width + char_width(ch);
            }
            i = i + 1;
        }
        proof {
            assert(self@.take(self@.len() as int) =~= self@);
        }
        Row { column: out }
    }

    /// The characters whose rendered columns fall in `range.start..range.end`,
    /// padded with spaces where the cut falls inside a wide character or
    /// past the content; this is what the viewport shows verbatim.
    pub fn slice_width(&self, range: core::ops::Range<usize>) -> (r: Row)
        requires
            range.start <= range.end,
            render_len_fits(self@.len()),
        ensures
            r@ == slice_spec(self@, range.start as nat, range.end as nat),
    {
        let ghost n = self@.len();
        proof {
            lemma_render_budget(n, n);
        }
        let mut render = self.render();
        proof {
            lemma_render_budget(n, render@.len());
            lemma_shrink_kept_len(render@, range.start as nat);
        }
        let removed = render.shrink_width(range.start);
        if range.start < removed {
            let pad_front = removed - range.start;
            let mut k: usize = pad_front;
            let ghost kept = render@;
            proof {
                assert(spaces(0) + kept =~= kept);
            }
            while k > 0
                invariant
                    k <= pad_front,
                    render@ == spaces((pad_front - k) as nat) + kept,
                decreases k,
            {
                render.insert(0, ' ');
                proof {
                    assert(spaces((pad_front - k) as nat).insert(0, ' ') =~= spaces(
                        (pad_front - (k - 1)) as nat,
                    ));
                    assert((spaces((pad_front - k) as nat) + kept).insert(0, ' ') =~= spaces(
                        (pad_front - k) as nat,
                    ).insert(0, ' ') + kept);
                }
                k = k - 1;
            }
        }
        proof {
            lemma_render_budget(n, render@.len());
        }
        let window = range.end - range.start;
        let width = render.truncate_width(window);
        let mut pad = window - width;
        let ghost cut = render@;
        proof {
            assert(cut + spaces(0) =~= cut);
        }
        while pad > 0
            invariant
                pad <= window - width,
                width as nat == width_of(cut),
                render@ == cut + spaces((window - width - pad) as nat),
            decreases pad,
        {
            let end = render.len();
            render.insert(end, ' ');
            proof {
                assert((cut + spaces((window - width - pad) as nat)).insert(
                    end as int,
                    ' ',
                ) =~= cut + spaces((window - width - (pad - 1)) as nat));
            }
            pad = pad - 1;
        }
        render
    }

    /// The characters from `at` on, as a `String`.
    pub fn to_string_at(&self, at: usize) -> (r: String)
        ensures
            at <= self@.len() ==> r@ == self@.skip(at as int),
            at > self@.len() ==> r@ == Seq::<char>::empty(),
    {
        let mut tail: Vec<char> = Vec::new();
        let mut i: usize = if at <= self.column.len() {
            at
        } else {
            self.column.len()
        };
        let ghost start = i as int;
        while i < self.column.len()
            invariant
                0 <= start <= i <= self@.len(),
                tail@ == self@.subrange(start, i as int),
            decreases self.column@.len() - i,
        {
            tail.push(self.column[i]);
            proof {
                assert(self@.subrange(start, i + 1) =~= self@.subrange(start, i as int).push(
                    self@[i as int],
                ));
            }
            i = i + 1;
        }
        proof {
            if at <= self@.len() {
                assert(self@.subrange(start, self@.len() as int) =~= self@.skip(at as int));
            } else {
                assert(self@.subrange(start, self@.len() as int) =~= Seq::<char>::empty());
            }
        }
        chars_to_string(tail)
    }

    /// Width of the last character, or 0 for an empty row.
    pub fn last_char_width(&self) -> (w: usize)
        ensures
            w as nat == (if self@.len() > 0 {
                scalar_width(self@.last())
            } else {
                0
            }),
            w <= 3,
    {
        if self.column.len() > 0 {
            char_width(self.column[self.column.len() - 1])
        } else {
            0
        }
    }
}

impl From<Vec<char>> for Row {
    fn from(value: Vec<char>) -> (r: Self)
        ensures
            r@ == value@,
    {
        Row { column: value }
    }
}

impl vstd::std_specs::convert::FromSpecImpl<Vec<char>> for Row {
    open spec fn obeys_from_spec() -> bool {
        true
    }

    closed spec fn from_spec(v: Vec<char>) -> Self {
        Row { column: v }
    }
}

impl<'a> From<&'a [char]> for Row {
    fn from(value: &'a [char]) -> (r: Self) {
        Row { column: vstd::slice::slice_to_vec(value) }
    }
}

impl<'a> vstd::std_specs::convert::FromSpecImpl<&'a [char]> for Row {
    open spec fn obeys_from_spec() -> bool {
        false
    }

    open spec fn from_spec(v: &'a [char]) -> Self {
        arbitrary()
    }
}

impl<'a> From<&'a str> for Row {
    fn from(value: &'a str) -> (r: Self) {
        Row { column: str_chars(value) }
    }
}

impl<'a> vstd::std_specs::convert::FromSpecImpl<&'a str> for Row {
    open spec fn obeys_from_spec() -> bool {
        false
    }

    open spec fn from_spec(v: &'a str) -> Self {
        arbitrary()
    }
}

impl From<String> for Row {
    fn from(value: String) -> (r: Self) {
        Row { column: str_chars(value.as_str()) }
    }
}

impl vstd::std_specs::convert::FromSpecImpl<String> for Row {
    open spec fn obeys_from_spec() -> bool {
        false
    }

    open spec fn from_spec(v: String) -> Self {
        arbitrary()
    }
}

} // verus!
