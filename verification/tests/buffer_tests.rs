//! The buffer's structural and character mutations, its history, its
//! clipboard slot, and its searches.

use note::buffer::Buffer;
use note::cursor::Cursor;
use note::editor::SelectMode;
use note::row::Row;

fn init_screen(buf: &mut Buffer) {
    buf.clear_cached();
    buf.clear_updated();
    buf.clear_history();
}

fn row_chars(buf: &Buffer, y: usize) -> Vec<char> {
    buf.get(y).unwrap().column().to_vec()
}

#[test]
fn buffer_append_row() {
    let mut buf = Buffer::default();
    buf.insert_row(&(0, 0), &['a']);
    init_screen(&mut buf);

    buf.append_row(&(0, 0), &['b']);

    assert_eq!(vec!['a', 'b'], row_chars(&buf, 0));
    assert!(buf.cached());
    assert!(buf.updated());
    assert_eq!(1, buf.history_len());
}

#[test]
fn buffer_append_row_yoverflow() {
    let mut buf = Buffer::default();
    buf.insert_row(&(0, 0), &['a']);
    init_screen(&mut buf);

    buf.append_row(&(0, 1), &['b']);

    assert_eq!(vec!['a'], row_chars(&buf, 0));
    assert!(!buf.cached());
    assert!(!buf.updated());
    assert_eq!(0, buf.history_len());
}

#[test]
fn buffer_copy_pending_none() {
    let mut buf = Buffer::default();
    buf.insert_row(&(0, 0), &['a']);
    init_screen(&mut buf);

    let s = Cursor::from((0, 0));
    let e = Cursor::from((1, 0));
    buf.copy_pending(&s..&e, SelectMode::Contiguous);

    assert_eq!(&['a'], buf.pending().unwrap().first().unwrap().column());
}

#[test]
fn buffer_copy_pending_rectangle() {
    let mut buf = Buffer::default();
    buf.insert_row(&(0, 0), &['a', 'b']);
    buf.insert_row(&(0, 1), &['c', 'd']);
    init_screen(&mut buf);

    let s = Cursor::from((0, 0));
    let e = Cursor::from((1, 1));
    buf.copy_pending(&s..&e, SelectMode::Rectangle);

    assert_eq!(&['a'], buf.pending().unwrap()[0].column());
    assert_eq!(&['c'], buf.pending().unwrap()[1].column());
}

#[test]
fn buffer_copy_pending_yoverflow() {
    let mut buf = Buffer::default();
    buf.insert_row(&(0, 0), &['a']);
    init_screen(&mut buf);

    let s = Cursor::from((0, 1));
    let e = Cursor::from((1, 1));
    buf.copy_pending(&s..&e, SelectMode::Contiguous);

    assert!(buf.pending().is_none());
}

#[test]
fn buffer_delete_row() {
    let mut buf = Buffer::default();
    buf.insert_row(&(0, 0), &['a']);
    init_screen(&mut buf);

    buf.delete_row(&(0, 0));

    assert_eq!(0, buf.rows());
    assert!(buf.cached());
    assert!(buf.updated());
    assert_eq!(1, buf.history_len());
}

#[test]
fn buffer_delete_row_yoverflow() {
    let mut buf = Buffer::default();
    buf.insert_row(&(0, 0), &['a']);
    init_screen(&mut buf);

    buf.delete_row(&(0, 1));

    assert_eq!(1, buf.rows());
    assert!(!buf.cached());
    assert!(!buf.updated());
    assert_eq!(0, buf.history_len());
}

#[test]
fn buffer_delete_char() {
    let mut buf = Buffer::default();
    buf.insert_row(&(0, 0), &['a', 'b']);
    init_screen(&mut buf);

    buf.delete_char(&(1, 0));

    assert_eq!(vec!['b'], row_chars(&buf, 0));
    assert!(buf.cached());
    assert!(buf.updated());
    assert_eq!(1, buf.history_len());
}

#[test]
fn buffer_delete_char_xoverflow() {
    let mut buf = Buffer::default();
    buf.insert_row(&(0, 0), &['a', 'b']);
    init_screen(&mut buf);

    buf.delete_char(&(3, 0));

    assert_eq!(vec!['a', 'b'], row_chars(&buf, 0));
    assert!(!buf.cached());
    assert!(!buf.updated());
    assert_eq!(0, buf.history_len());
}

#[test]
fn buffer_delete_char_yoverflow() {
    let mut buf = Buffer::default();
    buf.insert_row(&(0, 0), &['a', 'b']);
    init_screen(&mut buf);

    buf.delete_char(&(1, 1));

    assert_eq!(vec!['a', 'b'], row_chars(&buf, 0));
    assert!(!buf.cached());
    assert!(!buf.updated());
    assert_eq!(0, buf.history_len());
}

#[test]
fn buffer_delete_chars_1row() {
    let mut buf = Buffer::default();
    buf.insert_row(&(0, 0), &['a', 'b']);
    init_screen(&mut buf);

    buf.delete_chars(&(1, 0), &(2, 0), SelectMode::Contiguous);

    assert_eq!(1, buf.rows());
    assert_eq!(vec!['a'], row_chars(&buf, 0));
    assert!(buf.cached());
    assert!(buf.updated());
    assert_eq!(1, buf.history_len());
}

#[test]
fn buffer_delete_chars_2row() {
    let mut buf = Buffer::default();
    buf.insert_row(&(0, 0), &['a', 'b']);
    buf.insert_row(&(0, 1), &['c', 'd']);
    init_screen(&mut buf);

    buf.delete_chars(&(1, 0), &(1, 1), SelectMode::Contiguous);

    assert_eq!(1, buf.rows());
    assert_eq!(vec!['a', 'd'], row_chars(&buf, 0));
    assert!(buf.cached());
    assert!(buf.updated());
    assert_eq!(1, buf.history_len());
}

#[test]
fn buffer_delete_chars_2row_start() {
    let mut buf = Buffer::default();
    buf.insert_row(&(0, 0), &['a', 'b']);
    buf.insert_row(&(0, 1), &['c', 'd']);
    init_screen(&mut buf);

    buf.delete_chars(&(0, 0), &(0, 1), SelectMode::Contiguous);

    assert_eq!(1, buf.rows());
    assert_eq!(vec!['c', 'd'], row_chars(&buf, 0));
    assert!(buf.cached());
    assert!(buf.updated());
    assert_eq!(1, buf.history_len());
}

#[test]
fn buffer_delete_chars_2row_end() {
    let mut buf = Buffer::default();
    buf.insert_row(&(0, 0), &['a', 'b']);
    buf.insert_row(&(0, 1), &['c', 'd']);
    init_screen(&mut buf);

    buf.delete_chars(&(2, 0), &(2, 1), SelectMode::Contiguous);

    assert_eq!(1, buf.rows());
    assert_eq!(vec!['a', 'b'], row_chars(&buf, 0));
    assert!(buf.cached());
    assert!(buf.updated());
    assert_eq!(1, buf.history_len());
}

#[test]
fn buffer_delete_chars_2row_all() {
    let mut buf = Buffer::default();
    buf.insert_row(&(0, 0), &['a', 'b']);
    buf.insert_row(&(0, 1), &['c', 'd']);
    init_screen(&mut buf);

    buf.delete_chars(&(0, 0), &(2, 1), SelectMode::Contiguous);

    assert_eq!(1, buf.rows());
    assert!(buf.get(0).unwrap().is_empty());
    assert!(buf.cached());
    assert!(buf.updated());
    assert_eq!(1, buf.history_len());
}

#[test]
fn buffer_delete_chars_3row_none() {
    let mut buf = Buffer::default();
    buf.insert_row(&(0, 0), &['a', 'b']);
    buf.insert_row(&(0, 1), &['c', 'd']);
    buf.insert_row(&(0, 2), &['e', 'f']);
    init_screen(&mut buf);

    buf.delete_chars(&(1, 0), &(1, 2), SelectMode::Contiguous);

    assert_eq!(1, buf.rows());
    assert_eq!(vec!['a', 'f'], row_chars(&buf, 0));
    assert!(buf.cached());
    assert!(buf.updated());
    assert_eq!(1, buf.history_len());
}

#[test]
fn buffer_delete_chars_3row_rectangle() {
    let mut buf = Buffer::default();
    buf.insert_row(&(0, 0), &['a', 'b']);
    buf.insert_row(&(0, 1), &['c', 'd']);
    buf.insert_row(&(0, 2), &['e', 'f']);
    init_screen(&mut buf);

    buf.delete_chars(&(1, 0), &(2, 2), SelectMode::Rectangle);

    assert_eq!(3, buf.rows());
    assert_eq!(vec!['a'], row_chars(&buf, 0));
    assert_eq!(vec!['c'], row_chars(&buf, 1));
    assert_eq!(vec!['e'], row_chars(&buf, 2));
    assert!(buf.cached());
    assert!(buf.updated());
    assert_eq!(1, buf.history_len());
}

#[test]
fn buffer_delete_chars_xoverflow() {
    let mut buf = Buffer::default();
    buf.insert_row(&(0, 0), &['a', 'b']);
    init_screen(&mut buf);

    buf.delete_chars(&(3, 0), &(4, 0), SelectMode::Contiguous);

    assert_eq!(1, buf.rows());
    assert_eq!(vec!['a', 'b'], row_chars(&buf, 0));
    assert!(!buf.cached());
    assert!(!buf.updated());
    assert_eq!(0, buf.history_len());
}

#[test]
fn buffer_delete_chars_yoverflow() {
    let mut buf = Buffer::default();
    buf.insert_row(&(0, 0), &['a', 'b']);
    init_screen(&mut buf);

    buf.delete_chars(&(1, 1), &(2, 1), SelectMode::Contiguous);

    assert_eq!(1, buf.rows());
    assert_eq!(vec!['a', 'b'], row_chars(&buf, 0));
    assert!(!buf.cached());
    assert!(!buf.updated());
    assert_eq!(0, buf.history_len());
}

#[test]
fn buffer_find_at_0() {
    let mut buf = Buffer::default();
    buf.insert_row(&(0, 0), &['a', 'b', 'c']);
    buf.insert_row(&(0, 1), &['a', 'b', 'c']);
    buf.insert_row(&(0, 2), &['a', 'b', 'c']);
    init_screen(&mut buf);

    let at = buf.find_at(&(0, 0), "bc");

    assert_eq!(Some((1, 0)), at);
}

#[test]
fn buffer_find_at_1() {
    let mut buf = Buffer::default();
    buf.insert_row(&(0, 0), &['a', 'b', 'c']);
    buf.insert_row(&(0, 1), &['a', 'b', 'c']);
    buf.insert_row(&(0, 2), &['a', 'b', 'c']);
    init_screen(&mut buf);

    let at = buf.find_at(&(2, 1), "bc");

    assert_eq!(Some((1, 2)), at);
}

#[test]
fn buffer_find_at_notfound() {
    let mut buf = Buffer::default();
    buf.insert_row(&(0, 0), &['a', 'b', 'c']);
    buf.insert_row(&(0, 1), &['a', 'b', 'c']);
    buf.insert_row(&(0, 2), &['a', 'b', 'c']);
    init_screen(&mut buf);

    let at = buf.find_at(&(2, 2), "bc");

    assert_eq!(None, at);
}

#[test]
fn buffer_get() {
    let mut buf = Buffer::default();
    buf.insert_row(&(0, 0), &['a']);
    init_screen(&mut buf);

    let row = buf.get(0);

    assert!(row.is_some());
}

#[test]
fn buffer_get_notfound() {
    let mut buf = Buffer::default();
    buf.insert_row(&(0, 0), &['a']);
    init_screen(&mut buf);

    let row = buf.get(1);

    assert!(row.is_none());
}

#[test]
fn buffer_get_range_1row() {
    let mut buf = Buffer::default();
    buf.insert_row(&(0, 0), &['a', 'b']);
    init_screen(&mut buf);

    let start = Cursor::from((1, 0));
    let end = Cursor::from((2, 0));
    let rows = buf.get_range(&start..&end, SelectMode::Contiguous);

    let rows = rows.unwrap();
    assert_eq!(1, rows.len());
    assert_eq!(&['b'], rows[0].column());
}

#[test]
fn buffer_get_range_3row() {
    let mut buf = Buffer::default();
    buf.insert_row(&(0, 0), &['a', 'b']);
    buf.insert_row(&(0, 1), &['c', 'd']);
    buf.insert_row(&(0, 2), &['e', 'f']);
    init_screen(&mut buf);

    let start = Cursor::from((1, 0));
    let end = Cursor::from((1, 2));
    let rows = buf.get_range(&start..&end, SelectMode::Contiguous);

    let rows = rows.unwrap();
    assert_eq!(3, rows.len());
    assert_eq!(&['b'], rows[0].column());
    assert_eq!(&['c', 'd'], rows[1].column());
    assert_eq!(&['e'], rows[2].column());
}

#[test]
fn buffer_insert_row_0() {
    let mut buf = Buffer::default();
    buf.insert_row(&(0, 0), &['a']);
    init_screen(&mut buf);

    buf.insert_row(&(0, 0), &['b']);

    assert_eq!(vec!['b'], row_chars(&buf, 0));
    assert!(buf.cached());
    assert!(buf.updated());
    assert_eq!(1, buf.history_len());
}

#[test]
fn buffer_insert_row_1() {
    let mut buf = Buffer::default();
    buf.insert_row(&(0, 0), &['a']);
    init_screen(&mut buf);

    buf.insert_row(&(0, 1), &['b']);

    assert_eq!(vec!['b'], row_chars(&buf, 1));
    assert!(buf.cached());
    assert!(buf.updated());
    assert_eq!(1, buf.history_len());
}

#[test]
fn buffer_insert_char_0() {
    let mut buf = Buffer::default();
    buf.insert_row(&(0, 0), &['a']);
    init_screen(&mut buf);

    buf.insert_char(&(0, 0), 'b');

    assert_eq!(vec!['b', 'a'], row_chars(&buf, 0));
    assert!(buf.cached());
    assert!(buf.updated());
    assert_eq!(1, buf.history_len());
}

#[test]
fn buffer_insert_char_1() {
    let mut buf = Buffer::default();
    buf.insert_row(&(0, 0), &['a']);
    init_screen(&mut buf);

    buf.insert_char(&(1, 0), 'b');

    assert_eq!(vec!['a', 'b'], row_chars(&buf, 0));
    assert!(buf.cached());
    assert!(buf.updated());
    assert_eq!(1, buf.history_len());
}

#[test]
fn buffer_insert_char_xoverflow() {
    let mut buf = Buffer::default();
    buf.insert_row(&(0, 0), &['a']);
    init_screen(&mut buf);

    buf.insert_char(&(2, 0), 'b');

    assert_eq!(vec!['a'], row_chars(&buf, 0));
    assert!(!buf.cached());
    assert!(!buf.updated());
    assert_eq!(0, buf.history_len());
}

#[test]
fn buffer_insert_chars_1row_0() {
    let mut buf = Buffer::default();
    buf.insert_row(&(0, 0), &['a']);
    init_screen(&mut buf);

    buf.insert_chars(&(0, 0), &[Row::from("bc")], SelectMode::Contiguous);

    assert_eq!(1, buf.rows());
    assert_eq!(vec!['b', 'c', 'a'], row_chars(&buf, 0));
    assert!(buf.cached());
    assert!(buf.updated());
    assert_eq!(1, buf.history_len());
}

#[test]
fn buffer_insert_chars_1row_1() {
    let mut buf = Buffer::default();
    buf.insert_row(&(0, 0), &['a']);
    init_screen(&mut buf);

    buf.insert_chars(&(1, 0), &[Row::from("bc")], SelectMode::Contiguous);

    assert_eq!(1, buf.rows());
    assert_eq!(vec!['a', 'b', 'c'], row_chars(&buf, 0));
    assert!(buf.cached());
    assert!(buf.updated());
    assert_eq!(1, buf.history_len());
}

#[test]
fn buffer_insert_chars_2row_start() {
    let mut buf = Buffer::default();
    buf.insert_row(&(0, 0), &['a']);
    init_screen(&mut buf);

    buf.insert_chars(
        &(0, 0),
        &[Row::from("b"), Row::from("c")],
        SelectMode::Contiguous,
    );

    assert_eq!(2, buf.rows());
    assert_eq!(vec!['b'], row_chars(&buf, 0));
    assert_eq!(vec!['c', 'a'], row_chars(&buf, 1));
    assert!(buf.cached());
    assert!(buf.updated());
    assert_eq!(1, buf.history_len());
}

#[test]
fn buffer_insert_chars_2row_start_empty() {
    let mut buf = Buffer::default();
    buf.insert_row(&(0, 0), &['a']);
    init_screen(&mut buf);

    buf.insert_chars(
        &(0, 0),
        &[Row::from(""), Row::from("c")],
        SelectMode::Contiguous,
    );

    assert_eq!(2, buf.rows());
    assert!(buf.get(0).unwrap().is_empty());
    assert_eq!(vec!['c', 'a'], row_chars(&buf, 1));
    assert!(buf.cached());
    assert!(buf.updated());
    assert_eq!(1, buf.history_len());
}

#[test]
fn buffer_insert_chars_2row_end() {
    let mut buf = Buffer::default();
    buf.insert_row(&(0, 0), &['a']);
    init_screen(&mut buf);

    buf.insert_chars(
        &(1, 0),
        &[Row::from("b"), Row::from("c")],
        SelectMode::Contiguous,
    );

    assert_eq!(2, buf.rows());
    assert_eq!(vec!['a', 'b'], row_chars(&buf, 0));
    assert_eq!(vec!['c'], row_chars(&buf, 1));
    assert!(buf.cached());
    assert!(buf.updated());
    assert_eq!(1, buf.history_len());
}

#[test]
fn buffer_insert_chars_2row_end_empty() {
    let mut buf = Buffer::default();
    buf.insert_row(&(0, 0), &['a']);
    init_screen(&mut buf);

    buf.insert_chars(
        &(1, 0),
        &[Row::from("b"), Row::from("")],
        SelectMode::Contiguous,
    );

    assert_eq!(2, buf.rows());
    assert_eq!(vec!['a', 'b'], row_chars(&buf, 0));
    assert!(buf.get(1).unwrap().is_empty());
    assert!(buf.cached());
    assert!(buf.updated());
    assert_eq!(1, buf.history_len());
}

#[test]
fn buffer_insert_chars_3row_1() {
    let mut buf = Buffer::default();
    buf.insert_row(&(0, 0), &['a', 'b']);
    init_screen(&mut buf);

    buf.insert_chars(
        &(1, 0),
        &[Row::from("c"), Row::from("d"), Row::from("e")],
        SelectMode::Contiguous,
    );

    assert_eq!(3, buf.rows());
    assert_eq!(vec!['a', 'c'], row_chars(&buf, 0));
    assert_eq!(vec!['d'], row_chars(&buf, 1));
    assert_eq!(vec!['e', 'b'], row_chars(&buf, 2));
    assert!(buf.cached());
    assert!(buf.updated());
    assert_eq!(1, buf.history_len());
}

#[test]
fn buffer_insert_chars_3row_rectangle() {
    let mut buf = Buffer::default();
    buf.insert_row(&(0, 0), &['a', 'b']);
    init_screen(&mut buf);

    buf.insert_chars(
        &(1, 0),
        &[Row::from("c"), Row::from("d"), Row::from("e")],
        SelectMode::Rectangle,
    );

    assert_eq!(3, buf.rows());
    assert_eq!(vec!['a', 'c', 'b'], row_chars(&buf, 0));
    assert_eq!(vec![' ', 'd'], row_chars(&buf, 1));
    assert_eq!(vec![' ', 'e'], row_chars(&buf, 2));
    assert!(buf.cached());
    assert!(buf.updated());
    assert_eq!(1, buf.history_len());
}

#[test]
fn buffer_insert_chars_xoverflow() {
    let mut buf = Buffer::default();
    buf.insert_row(&(0, 0), &['a']);
    init_screen(&mut buf);

    buf.insert_chars(&(2, 0), &[Row::from("bc")], SelectMode::Contiguous);

    assert_eq!(1, buf.rows());
    assert_eq!(vec!['a'], row_chars(&buf, 0));
    assert!(!buf.cached());
    assert!(!buf.updated());
    assert_eq!(0, buf.history_len());
}

#[test]
fn buffer_insert_char_yoverflow() {
    let mut buf = Buffer::default();
    buf.insert_row(&(0, 0), &['a']);
    init_screen(&mut buf);

    buf.insert_char(&(0, 1), 'b');

    assert_eq!(1, buf.rows());
    assert_eq!(vec!['a'], row_chars(&buf, 0));
    assert!(!buf.cached());
    assert!(!buf.updated());
    assert_eq!(0, buf.history_len());
}

#[test]
fn buffer_replace() {
    let mut buf = Buffer::default();
    buf.insert_row(&(0, 0), &['a', 'b', 'c']);
    init_screen(&mut buf);

    buf.replace(&(0, 0), 2, &['d']);

    assert_eq!(vec!['d', 'c'], row_chars(&buf, 0));
}

#[test]
fn buffer_replace_yoverflow() {
    let mut buf = Buffer::default();
    buf.insert_row(&(0, 0), &['a', 'b', 'c']);
    init_screen(&mut buf);

    buf.replace(&(0, 1), 2, &['d']);

    assert_eq!(vec!['a', 'b', 'c'], row_chars(&buf, 0));
}

#[test]
fn buffer_rfind_at_0() {
    let mut buf = Buffer::default();
    buf.insert_row(&(0, 0), &['a', 'b', 'c']);
    buf.insert_row(&(0, 1), &['a', 'b', 'c']);
    buf.insert_row(&(0, 2), &['a', 'b', 'c']);
    init_screen(&mut buf);

    let at = buf.rfind_at(&(0, 3), "bc");

    assert_eq!(Some((1, 2)), at);
}

#[test]
fn buffer_rfind_at_1() {
    let mut buf = Buffer::default();
    buf.insert_row(&(0, 0), &['a', 'b', 'c']);
    buf.insert_row(&(0, 1), &['a', 'b', 'c']);
    buf.insert_row(&(0, 2), &['a', 'b', 'c']);
    init_screen(&mut buf);

    let at = buf.rfind_at(&(1, 1), "bc");

    assert_eq!(Some((1, 0)), at);
}

#[test]
fn buffer_rfind_at_notfound() {
    let mut buf = Buffer::default();
    buf.insert_row(&(0, 0), &['a', 'b', 'c']);
    buf.insert_row(&(0, 1), &['a', 'b', 'c']);
    buf.insert_row(&(0, 2), &['a', 'b', 'c']);
    init_screen(&mut buf);

    let at = buf.rfind_at(&(1, 0), "bc");

    assert_eq!(None, at);
}

#[test]
fn buffer_row_char_len() {
    let mut buf = Buffer::default();
    buf.insert_row(&(0, 0), &['a']);
    init_screen(&mut buf);

    let len = buf.row_char_len(&(0, 0));

    assert_eq!(1, len);
}

#[test]
fn buffer_row_char_len_yoverflow() {
    let mut buf = Buffer::default();
    buf.insert_row(&(0, 0), &['a']);
    init_screen(&mut buf);

    let len = buf.row_char_len(&(0, 1));

    assert_eq!(0, len);
}

#[test]
fn buffer_rows() {
    let mut buf = Buffer::default();
    buf.insert_row(&(0, 0), &['a']);
    init_screen(&mut buf);

    let len = buf.rows();

    assert_eq!(1, len);
}

#[test]
fn buffer_paste_pending() {
    let mut buf = Buffer::default();
    buf.insert_row(&(0, 0), &['b']);
    let s = Cursor::from((0, 0));
    let e = Cursor::from((1, 0));
    buf.copy_pending(&s..&e, SelectMode::Contiguous);
    buf.delete_row(&(0, 0));
    buf.insert_row(&(0, 0), &['a']);
    init_screen(&mut buf);

    buf.paste_pending(&(0, 0));

    assert_eq!(vec!['b', 'a'], row_chars(&buf, 0));
    assert!(buf.cached());
    assert!(buf.updated());
    assert_eq!(1, buf.history_len());
}

#[test]
fn buffer_shrink_row() {
    let mut buf = Buffer::default();
    buf.insert_row(&(0, 0), &['a', 'b', 'c']);
    init_screen(&mut buf);

    buf.shrink_row(&(1, 0));

    assert_eq!(1, buf.rows());
    assert_eq!(vec!['a'], row_chars(&buf, 0));
    assert!(buf.cached());
    assert!(buf.updated());
    assert_eq!(1, buf.history_len());
}

#[test]
fn buffer_shrink_row_yoverflow() {
    let mut buf = Buffer::default();
    buf.insert_row(&(0, 0), &['a', 'b', 'c']);
    init_screen(&mut buf);

    buf.shrink_row(&(1, 1));

    assert_eq!(1, buf.rows());
    assert_eq!(vec!['a', 'b', 'c'], row_chars(&buf, 0));
    assert!(!buf.cached());
    assert!(!buf.updated());
    assert_eq!(0, buf.history_len());
}

#[test]
fn buffer_split_row() {
    let mut buf = Buffer::default();
    buf.insert_row(&(0, 0), &['a', 'b', 'c']);
    init_screen(&mut buf);

    buf.split_row(&(1, 0));

    assert_eq!(2, buf.rows());
    assert_eq!(vec!['a'], row_chars(&buf, 0));
    assert_eq!(vec!['b', 'c'], row_chars(&buf, 1));
    assert!(buf.cached());
    assert!(buf.updated());
    assert_eq!(1, buf.history_len());
}

#[test]
fn buffer_split_row_start() {
    let mut buf = Buffer::default();
    buf.insert_row(&(0, 0), &['a', 'b', 'c']);
    init_screen(&mut buf);

    buf.split_row(&(0, 0));

    assert_eq!(2, buf.rows());
    assert!(buf.get(0).unwrap().is_empty());
    assert_eq!(vec!['a', 'b', 'c'], row_chars(&buf, 1));
    assert!(buf.cached());
    assert!(buf.updated());
    assert_eq!(1, buf.history_len());
}

#[test]
fn buffer_split_row_end() {
    let mut buf = Buffer::default();
    buf.insert_row(&(0, 0), &['a', 'b', 'c']);
    init_screen(&mut buf);

    buf.split_row(&(3, 0));

    assert_eq!(2, buf.rows());
    assert_eq!(vec!['a', 'b', 'c'], row_chars(&buf, 0));
    assert!(buf.get(1).unwrap().is_empty());
    assert!(buf.cached());
    assert!(buf.updated());
    assert_eq!(1, buf.history_len());
}

#[test]
fn buffer_split_row_yoverflow() {
    let mut buf = Buffer::default();
    buf.insert_row(&(0, 0), &['a', 'b', 'c']);
    init_screen(&mut buf);

    buf.split_row(&(1, 1));

    assert_eq!(1, buf.rows());
    assert_eq!(vec!['a', 'b', 'c'], row_chars(&buf, 0));
    assert!(!buf.cached());
    assert!(!buf.updated());
    assert_eq!(0, buf.history_len());
}

#[test]
fn buffer_squash_row() {
    let mut buf = Buffer::default();
    buf.insert_row(&(0, 0), &['a']);
    buf.insert_row(&(0, 1), &['b']);
    init_screen(&mut buf);

    buf.squash_row(&(0, 1));

    assert_eq!(1, buf.rows());
    assert_eq!(vec!['a', 'b'], row_chars(&buf, 0));
    assert!(buf.cached());
    assert!(buf.updated());
    assert_eq!(1, buf.history_len());
}

#[test]
fn buffer_squash_start() {
    let mut buf = Buffer::default();
    buf.insert_row(&(0, 0), &['a']);
    buf.insert_row(&(0, 1), &['b']);
    init_screen(&mut buf);

    buf.squash_row(&(0, 0));

    assert_eq!(2, buf.rows());
    assert_eq!(vec!['a'], row_chars(&buf, 0));
    assert_eq!(vec!['b'], row_chars(&buf, 1));
    assert!(!buf.cached());
    assert!(!buf.updated());
    assert_eq!(0, buf.history_len());
}

#[test]
fn buffer_squash_row_yoverflow() {
    let mut buf = Buffer::default();
    buf.insert_row(&(0, 0), &['a']);
    buf.insert_row(&(0, 1), &['b']);
    init_screen(&mut buf);

    buf.squash_row(&(0, 2));

    assert_eq!(2, buf.rows());
    assert_eq!(vec!['a'], row_chars(&buf, 0));
    assert_eq!(vec!['b'], row_chars(&buf, 1));
    assert!(!buf.cached());
    assert!(!buf.updated());
    assert_eq!(0, buf.history_len());
}
