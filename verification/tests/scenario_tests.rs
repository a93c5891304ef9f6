//! End-to-end scenarios over the editing core: undo inverting every kind of
//! recorded edit, cut/paste round trips, width arithmetic, search, and the
//! viewport pinning a row to its edge.

use note::buffer::Buffer;
use note::cursor::{Coordinates, Cursor};
use note::editor::{Select, SelectMode};
use note::row::Row;
use note::screen::{DrawCmd, Screen};

fn rows_of(buf: &Buffer) -> Vec<Vec<char>> {
    let mut rows = Vec::new();
    for y in 0..buf.rows() {
        rows.push(buf.get(y).unwrap().column().to_vec());
    }
    rows
}

fn buffer_of(rows: &[&str]) -> Buffer {
    let mut buf = Buffer::default();
    for (y, text) in rows.iter().enumerate() {
        let chars: Vec<char> = text.chars().collect();
        buf.insert_row(&(0, y), chars.as_slice());
    }
    buf.clear_cached();
    buf.clear_updated();
    buf.clear_history();
    buf
}

#[test]
fn delete_chars_records_one_entry() {
    let mut buf = buffer_of(&["ab"]);

    buf.delete_chars(&(1, 0), &(2, 0), SelectMode::Contiguous);

    assert_eq!(vec![vec!['a']], rows_of(&buf));
    assert_eq!(1, buf.history_len());
    assert!(buf.cached());
}

#[test]
fn rectangle_delete_stashes_block() {
    let mut buf = buffer_of(&["ab", "cd", "ef"]);

    buf.delete_chars(&(1, 0), &(2, 2), SelectMode::Rectangle);

    assert_eq!(vec![vec!['a'], vec!['c'], vec!['e']], rows_of(&buf));
    let pending = buf.pending().unwrap();
    assert_eq!(3, pending.len());
    assert_eq!(&['b'], pending[0].column());
    assert_eq!(&['d'], pending[1].column());
    assert_eq!(&['f'], pending[2].column());
    assert_eq!(1, buf.history_len());
}

#[test]
fn undo_insert_char() {
    let mut buf = buffer_of(&["ab"]);
    buf.insert_char(&(1, 0), 'x');
    assert_eq!(vec![vec!['a', 'x', 'b']], rows_of(&buf));

    let cur = buf.undo();

    assert_eq!(Some((1, 0)), cur);
    assert_eq!(vec![vec!['a', 'b']], rows_of(&buf));
    assert_eq!(0, buf.history_len());
}

#[test]
fn undo_delete_char() {
    let mut buf = buffer_of(&["ab"]);
    buf.delete_char(&(1, 0));
    assert_eq!(vec![vec!['b']], rows_of(&buf));

    let cur = buf.undo();

    assert_eq!(Some((1, 0)), cur);
    assert_eq!(vec![vec!['a', 'b']], rows_of(&buf));
}

#[test]
fn undo_insert_row() {
    let mut buf = buffer_of(&["ab"]);
    buf.insert_row(&(0, 1), &['x']);

    let cur = buf.undo();

    assert_eq!(Some((0, 1)), cur);
    assert_eq!(vec![vec!['a', 'b']], rows_of(&buf));
}

#[test]
fn undo_delete_row() {
    let mut buf = buffer_of(&["ab", "cd"]);
    buf.delete_row(&(0, 0));

    let cur = buf.undo();

    assert_eq!(Some((0, 0)), cur);
    assert_eq!(vec![vec!['a', 'b'], vec!['c', 'd']], rows_of(&buf));
}

#[test]
fn undo_append_row() {
    let mut buf = buffer_of(&["ab"]);
    buf.append_row(&(0, 0), &['c', 'd']);
    assert_eq!(vec![vec!['a', 'b', 'c', 'd']], rows_of(&buf));

    let cur = buf.undo();

    assert_eq!(Some((0, 0)), cur);
    assert_eq!(vec![vec!['a', 'b']], rows_of(&buf));
}

#[test]
fn undo_shrink_row() {
    let mut buf = buffer_of(&["abcd"]);
    buf.shrink_row(&(1, 0));
    assert_eq!(vec![vec!['a']], rows_of(&buf));

    let cur = buf.undo();

    assert_eq!(Some((1, 0)), cur);
    assert_eq!(vec![vec!['a', 'b', 'c', 'd']], rows_of(&buf));
}

#[test]
fn undo_split_row() {
    let mut buf = buffer_of(&["abcd"]);
    buf.split_row(&(2, 0));
    assert_eq!(vec![vec!['a', 'b'], vec!['c', 'd']], rows_of(&buf));

    let cur = buf.undo();

    assert_eq!(Some((2, 0)), cur);
    assert_eq!(vec![vec!['a', 'b', 'c', 'd']], rows_of(&buf));
}

#[test]
fn undo_squash_row() {
    let mut buf = buffer_of(&["ab", "cd"]);
    buf.squash_row(&(0, 1));
    assert_eq!(vec![vec!['a', 'b', 'c', 'd']], rows_of(&buf));

    let cur = buf.undo();

    assert_eq!(Some((0, 1)), cur);
    assert_eq!(vec![vec!['a', 'b'], vec!['c', 'd']], rows_of(&buf));
}

#[test]
fn undo_replace() {
    let mut buf = buffer_of(&["abcd"]);
    buf.replace(&(1, 0), 2, &['x', 'y', 'z']);
    assert_eq!(vec![vec!['a', 'x', 'y', 'z', 'd']], rows_of(&buf));

    let cur = buf.undo();

    assert_eq!(Some((1, 0)), cur);
    assert_eq!(vec![vec!['a', 'b', 'c', 'd']], rows_of(&buf));
}

#[test]
fn undo_delete_chars_contiguous() {
    let mut buf = buffer_of(&["abc", "def", "ghi"]);
    buf.delete_chars(&(1, 0), &(2, 2), SelectMode::Contiguous);
    assert_eq!(vec![vec!['a', 'i']], rows_of(&buf));

    let cur = buf.undo();

    assert_eq!(Some((1, 0)), cur);
    assert_eq!(
        vec![vec!['a', 'b', 'c'], vec!['d', 'e', 'f'], vec!['g', 'h', 'i']],
        rows_of(&buf)
    );
}

#[test]
fn undo_delete_chars_rectangle() {
    let mut buf = buffer_of(&["abc", "def"]);
    buf.delete_chars(&(1, 0), &(2, 1), SelectMode::Rectangle);
    assert_eq!(vec![vec!['a', 'c'], vec!['d', 'f']], rows_of(&buf));

    let cur = buf.undo();

    assert_eq!(Some((1, 0)), cur);
    assert_eq!(vec![vec!['a', 'b', 'c'], vec!['d', 'e', 'f']], rows_of(&buf));
}

#[test]
fn undo_paste() {
    let mut buf = buffer_of(&["ab", "cd"]);
    let s = Cursor::from((1, 0));
    let e = Cursor::from((1, 1));
    buf.copy_pending(&s..&e, SelectMode::Contiguous);
    buf.clear_history();
    let end = buf.paste_pending(&(0, 0));
    assert_eq!(Some((1, 1)), end);

    let cur = buf.undo();

    assert_eq!(Some((0, 0)), cur);
    assert_eq!(vec![vec!['a', 'b'], vec!['c', 'd']], rows_of(&buf));
}

#[test]
fn undo_steps_back_through_a_sequence() {
    let mut buf = buffer_of(&["ab"]);
    buf.insert_char(&(0, 0), 'x');
    buf.split_row(&(2, 0));
    buf.delete_row(&(0, 1));
    assert_eq!(3, buf.history_len());

    buf.undo();
    assert_eq!(vec![vec!['x', 'a'], vec!['b']], rows_of(&buf));
    buf.undo();
    assert_eq!(vec![vec!['x', 'a', 'b']], rows_of(&buf));
    buf.undo();
    assert_eq!(vec![vec!['a', 'b']], rows_of(&buf));
    assert_eq!(0, buf.history_len());
}

#[test]
fn paste_restores_cut_contiguous() {
    let mut buf = buffer_of(&["hello", "world"]);
    let s = Cursor::from((2, 0));
    let e = Cursor::from((3, 1));
    buf.copy_pending(&s..&e, SelectMode::Contiguous);
    buf.delete_chars(&(2, 0), &(3, 1), SelectMode::Contiguous);
    assert_eq!(vec![vec!['h', 'e', 'l', 'd']], rows_of(&buf));

    buf.paste_pending(&(2, 0));

    assert_eq!(
        vec![
            vec!['h', 'e', 'l', 'l', 'o'],
            vec!['w', 'o', 'r', 'l', 'd'],
        ],
        rows_of(&buf)
    );
}

#[test]
fn paste_restores_cut_rectangle() {
    let mut buf = buffer_of(&["abcd", "efgh"]);
    let s = Cursor::from((1, 0));
    let e = Cursor::from((3, 1));
    buf.copy_pending(&s..&e, SelectMode::Rectangle);
    buf.delete_chars(&(1, 0), &(3, 1), SelectMode::Rectangle);
    assert_eq!(vec![vec!['a', 'd'], vec!['e', 'h']], rows_of(&buf));

    buf.paste_pending(&(1, 0));

    assert_eq!(
        vec![
            vec!['a', 'b', 'c', 'd'],
            vec!['e', 'f', 'g', 'h'],
        ],
        rows_of(&buf)
    );
}

#[test]
fn width_is_monotone_and_tab_stops_align() {
    let row = Row::from("a\tあx");

    let mut widths = Vec::new();
    for i in 0..=4 {
        widths.push(row.width_range(0..i));
    }
    assert_eq!(vec![0, 1, 8, 10, 11], widths);
    for i in 0..4 {
        assert!(widths[i] <= widths[i + 1]);
        let step = widths[i + 1] - widths[i];
        assert!((1..=8).contains(&step));
    }
}

#[test]
fn cjk_width_is_two() {
    let row = Row::from("語");

    assert_eq!(2, row.width());
    assert_eq!(2, row.last_char_width());
}

#[test]
fn cursor_stays_clamped() {
    let mut buf = buffer_of(&["abc", "a"]);
    let mut cur = Cursor::from((3, 0));

    let check = |c: &Cursor, buf: &Buffer| {
        assert!(c.y() <= buf.rows());
        assert!(c.x() <= buf.row_char_len(&(0, c.y())));
    };
    cur.move_down(&buf);
    check(&cur, &buf);
    cur.move_right(&buf);
    check(&cur, &buf);
    cur.move_up(&buf);
    check(&cur, &buf);
    cur.set(&buf, &(10, 10));
    check(&cur, &buf);
    cur.move_down_render(&buf);
    check(&cur, &buf);
}

#[test]
fn selection_normalizes_backward_ranges() {
    let mut select = Select::default();
    select.set_start(&Cursor::from((2, 3)), SelectMode::Contiguous);
    select.set_end(&Cursor::from((1, 1)));

    let start = select.start().unwrap();
    let end = select.end().unwrap();
    assert!(start.y() < end.y() || (start.y() == end.y() && start.x() <= end.x()));
    assert_eq!((1, 1), (start.x(), start.y()));
    assert_eq!((2, 3), (end.x(), end.y()));
}

#[test]
fn find_at_scenario() {
    let buf = buffer_of(&["abc", "abc"]);

    assert_eq!(Some((1, 0)), buf.find_at(&(0, 0), "bc"));
    assert_eq!(Some((1, 1)), buf.find_at(&(2, 0), "bc"));
}

#[test]
fn rfind_at_scenario() {
    let buf = buffer_of(&["abc", "abc"]);

    assert_eq!(Some((1, 1)), buf.rfind_at(&(2, 1), "bc"));
    assert_eq!(Some((1, 1)), buf.rfind_at(&(0, 2), "bc"));
    assert_eq!(Some((1, 0)), buf.rfind_at(&(0, 1), "bc"));
}

#[test]
fn viewport_pins_row_to_bottom_edge() {
    let mut screen = Screen::default();
    screen.resize(5, 8);
    screen.clear_updated();
    assert_eq!(3, screen.height());
    let mut buf = buffer_of(&["a", "b", "c", "d", "e"]);
    buf.clear_updated();

    let moved = screen.fit(&buf, &(0, 4));
    assert!(moved);
    assert_eq!(2, screen.top());

    let plan = screen.draw_plan(&buf, &Select::default());
    let mut painted: Vec<usize> = plan
        .iter()
        .filter_map(|cmd| match cmd {
            DrawCmd::Text { y, .. } => Some(*y),
            _ => None,
        })
        .collect();
    painted.sort();
    assert_eq!(vec![0, 1, 2], painted);
    assert!(!screen.updated());
}

#[test]
fn content_text_uses_windows_line_endings() {
    let buf = buffer_of(&["ab", "c"]);

    assert_eq!("ab\r\nc\r\n", buf.content_text());
}

#[test]
fn insert_of_one_empty_row_changes_nothing() {
    let mut buf = buffer_of(&["ab"]);

    let end = buf.insert_chars(&(1, 0), &[Row::from("")], SelectMode::Contiguous);

    assert_eq!(None, end);
    assert_eq!(vec![vec!['a', 'b']], rows_of(&buf));
    assert!(!buf.cached());
    assert!(!buf.updated());
    assert_eq!(0, buf.history_len());
}

#[test]
fn rectangle_insert_of_empty_row_inside_text_changes_nothing() {
    let mut buf = buffer_of(&["abc"]);

    let end = buf.insert_chars(&(1, 0), &[Row::from("")], SelectMode::Rectangle);

    assert_eq!(None, end);
    assert_eq!(vec![vec!['a', 'b', 'c']], rows_of(&buf));
    assert!(!buf.cached());
    assert!(!buf.updated());
    assert_eq!(0, buf.history_len());
}

#[test]
fn rectangle_insert_that_pads_records_the_change() {
    let mut buf = buffer_of(&["ab"]);

    let end = buf.insert_chars(&(1, 1), &[Row::from("")], SelectMode::Rectangle);

    assert_eq!(Some((1, 1)), end);
    assert_eq!(vec![vec!['a', 'b'], vec![' ']], rows_of(&buf));
    assert!(buf.cached());
    assert!(buf.updated());
    assert_eq!(1, buf.history_len());
}
