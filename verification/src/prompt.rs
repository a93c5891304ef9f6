//! The decisions of the interactive find and replace loops: where the next
//! or previous match lies, how the cursor and viewport follow a match, and
//! what a confirmation answer means. The surrounding modal input loop lives
//! with the terminal, outside this core.

use vstd::prelude::*;

use crate::buffer::{find_from, rfind_from, Buffer};
use crate::cursor::{at_most, render_col, row_len_at, rows_fit, Coordinates, Cursor};
use crate::row::{len_fits, Row};
use crate::screen::{fit_left, fit_top, Screen, ScreenView};

verus! {

/// A viewport after one fit to a rendered position.
pub open spec fn fitted(pre: ScreenView, rows: Seq<Seq<char>>, x: usize, y: usize) -> ScreenView {
    let top = fit_top(pre, y);
    let left = fit_left(pre, rows, x, y);
    ScreenView {
        top,
        left,
        updated: pre.updated || top != pre.top || left != pre.left,
        ..pre
    }
}

/// The first match at or after the cursor.
pub fn find_at(cursor: &Cursor, content: &Buffer, keyword: &Row) -> (r: Option<(usize, usize)>)
    ensures
        r == find_from(
            content@.rows,
            keyword@,
            cursor.spec_x() as int,
            cursor.spec_y() as int,
        ),
{
    let text = keyword.to_string_at(0);
    proof {
        assert(keyword@.skip(0) =~= keyword@);
    }
    content.find_at(cursor, text.as_str())
}

/// The first match strictly after the cursor: the search starts one step
/// to the right, wrapping at a row end.
pub fn find_next_at(cursor: &Cursor, content: &Buffer, keyword: &Row) -> (r: Option<
    (usize, usize),
>)
    ensures
        ({
            let x = cursor.spec_x();
            let y = cursor.spec_y();
            let rows = content@.rows;
            let nx: int = if x < row_len_at(rows, y as int) {
                x + 1
            } else if y < rows.len() {
                0
            } else {
                x as int
            };
            let ny: int = if x < row_len_at(rows, y as int) {
                y as int
            } else if y < rows.len() {
                y + 1
            } else {
                y as int
            };
            r == find_from(rows, keyword@, nx, ny)
        }),
{
    let mut c = *cursor;
    c.move_right(content);
    let text = keyword.to_string_at(0);
    proof {
        assert(keyword@.skip(0) =~= keyword@);
    }
    content.find_at(&c, text.as_str())
}

/// The nearest match strictly before the cursor: the search starts one
/// step to the left, wrapping at a row start.
pub fn rfind_next_at(cursor: &Cursor, content: &Buffer, keyword: &Row) -> (r: Option<
    (usize, usize),
>)
    ensures
        ({
            let x = cursor.spec_x();
            let y = cursor.spec_y();
            let rows = content@.rows;
            let nx: int = if x > 0 {
                x - 1
            } else if y > 0 {
                row_len_at(rows, y - 1) as int
            } else {
                0
            };
            let ny: int = if x > 0 {
                y as int
            } else if y > 0 {
                y - 1
            } else {
                0
            };
            r == rfind_from(rows, keyword@, nx, ny)
        }),
{
    let mut c = *cursor;
    c.move_left(content);
    let text = keyword.to_string_at(0);
    proof {
        assert(keyword@.skip(0) =~= keyword@);
    }
    content.rfind_at(&c, text.as_str())
}

/// The viewport after the first, keyword-wide fit of `move_screen`: when
/// the keyword is narrower than the window, the window is pulled to the
/// rendered position of the match's last character first; otherwise it is
/// untouched.
pub open spec fn move_screen_mid(
    pre: ScreenView,
    rows: Seq<Seq<char>>,
    keyword: Seq<char>,
    cx: usize,
    cy: usize,
) -> ScreenView {
    if 0 < crate::row::width_of(keyword) < pre.width {
        let klen = keyword.len() as int;
        let target: usize = if cx + klen - 1 <= usize::MAX {
            (cx + klen - 1) as usize
        } else {
            usize::MAX
        };
        let tx = crate::cursor::clamp_x(rows, target, cy as int);
        let p1 = crate::cursor::render_pos(rows, tx as int, cy as int);
        fitted(pre, rows, p1.0, p1.1)
    } else {
        pre
    }
}

/// Put the cursor on a found match and scroll the viewport to it; when the
/// keyword is narrower than the window, the window is first pulled far
/// enough right that the whole match shows.
pub fn move_screen<P: Coordinates>(
    cursor: &mut Cursor,
    at: &P,
    content: &Buffer,
    screen: &mut Screen,
    keyword: &Row,
)
    requires
        rows_fit(content@.rows),
        len_fits(keyword@.len()),
        old(screen)@.wf(),
    ensures
        final(cursor).spec_y() == at_most(at.spec_y() as int, content@.rows.len() as int),
        final(cursor).spec_x() == at_most(
            at.spec_x() as int,
            row_len_at(content@.rows, final(cursor).spec_y() as int) as int,
        ),
        final(screen)@.wf(),
        final(screen)@.height == old(screen)@.height,
        final(screen)@.width == old(screen)@.width,
        final(screen)@ == ({
            let rows = content@.rows;
            let cx = final(cursor).spec_x();
            let cy = final(cursor).spec_y();
            let mid = move_screen_mid(old(screen)@, rows, keyword@, cx, cy);
            let p2 = crate::cursor::render_pos(rows, cx as int, cy as int);
            fitted(mid, rows, p2.0, p2.1)
        }),
{
    cursor.set(content, at);
    let kw_width = keyword.width();
    let klen = keyword.len();
    let ghost pre0 = screen@;
    if 0 < kw_width && kw_width < screen.width() {
        proof {
            if keyword@.len() == 0 {
                assert(crate::row::width_of(keyword@) == 0);
            }
        }
        let mut last_ch = *cursor;
        let cx = cursor.x();
        let target = if cx <= usize::MAX - (klen - 1) {
            cx + (klen - 1)
        } else {
            usize::MAX
        };
        last_ch.set_x(content, target);
        let r1 = last_ch.render(content);
        screen.fit(content, &r1);
        proof {
            assert(screen@ =~= fitted(pre0, content@.rows, r1.0, r1.1));
        }
    }
    let ghost mid = screen@;
    let r2 = cursor.render(content);
    screen.fit(content, &r2);
    proof {
        assert(screen@ =~= fitted(mid, content@.rows, r2.0, r2.1));
    }
}

/// What a yes/no answer means: `y`/`yes` accepts, `n`/`no` and an empty
/// answer decline, anything else asks again. Letter case does not matter.
pub fn yes_no_answer(chars: &[char]) -> (r: Option<bool>)
    ensures
        (chars@ =~= seq!['y'] || chars@ =~= seq!['Y']) ==> r == Some(true),
        yes_word(chars@) ==> r == Some(true),
        (chars@ =~= seq!['n'] || chars@ =~= seq!['N']) ==> r == Some(false),
        no_word(chars@) ==> r == Some(false),
        chars@.len() == 0 ==> r == Some(false),
        !(chars@.len() == 0 || chars@ =~= seq!['y'] || chars@ =~= seq!['Y'] || chars@ =~= seq![
            'n',
        ] || chars@ =~= seq!['N'] || yes_word(chars@) || no_word(chars@)) ==> r is None,
{
    let n = chars.len();
    if n == 0 {
        return Some(false);
    }
    if n == 1 {
        let c = *vstd::slice::slice_index_get(chars, 0);
        if c == 'y' || c == 'Y' {
            return Some(true);
        }
        if c == 'n' || c == 'N' {
            return Some(false);
        }
        return None;
    }
    if n == 2 {
        let c0 = *vstd::slice::slice_index_get(chars, 0);
        let c1 = *vstd::slice::slice_index_get(chars, 1);
        if (c0 == 'n' || c0 == 'N') && (c1 == 'o' || c1 == 'O') {
            return Some(false);
        }
        return None;
    }
    if n == 3 {
        let c0 = *vstd::slice::slice_index_get(chars, 0);
        let c1 = *vstd::slice::slice_index_get(chars, 1);
        let c2 = *vstd::slice::slice_index_get(chars, 2);
        if (c0 == 'y' || c0 == 'Y') && (c1 == 'e' || c1 == 'E') && (c2 == 's' || c2 == 'S') {
            return Some(true);
        }
        return None;
    }
    None
}

/// The word `yes`, in any letter case.
pub open spec fn yes_word(s: Seq<char>) -> bool {
    s.len() == 3 && (s[0] == 'y' || s[0] == 'Y') && (s[1] == 'e' || s[1] == 'E') && (s[2] == 's'
        || s[2] == 'S')
}

/// The word `no`, in any letter case.
pub open spec fn no_word(s: Seq<char>) -> bool {
    s.len() == 2 && (s[0] == 'n' || s[0] == 'N') && (s[1] == 'o' || s[1] == 'O')
}

/// The reverse-video span that marks a found match on screen, as the draw
/// layer needs it: the match's rendered position relative to the window,
/// and the keyword's width clipped at the window's right edge; `None` when
/// the position lies outside the window.
pub fn match_attr(cursor: &Cursor, content: &Buffer, screen: &Screen, keyword: &Row) -> (r:
    Option<(usize, usize, usize)>)
    requires
        rows_fit(content@.rows),
        len_fits(keyword@.len()),
        screen@.wf(),
    ensures
        ({
            let p = crate::cursor::render_pos(
                content@.rows,
                cursor.spec_x() as int,
                cursor.spec_y() as int,
            );
            let s = screen@;
            if s.left <= p.0 <= s.left + s.width - 1 && s.top <= p.1 <= s.top + s.height
                - 1 {
                r == Some(
                    (
                        (p.0 - s.left) as usize,
                        (p.1 - s.top) as usize,
                        (if crate::row::width_of(keyword@) <= s.left + s.width - p.0 {
                            crate::row::width_of(keyword@) as usize
                        } else {
                            (s.left + s.width - p.0) as usize
                        }),
                    ),
                )
            } else {
                r is None
            }
        }),
{
    let p = cursor.render(content);
    let left = screen.left();
    let top = screen.top();
    let right = screen.right();
    let bottom = screen.bottom();
    if p.0 < left || p.0 > right || p.1 < top || p.1 > bottom {
        return None;
    }
    let kw_width = keyword.width();
    let avail = right - p.0;
    let length = if kw_width <= avail {
        kw_width
    } else {
        avail + 1
    };
    Some((p.0 - left, p.1 - top, length))
}

} // verus!
