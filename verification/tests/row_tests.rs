//! One row's mutations and its width arithmetic under tabs and
//! double-width characters.

use note::row::Row;

#[test]
fn row_append() {
    let mut buf = Row::default();

    buf.append(&['a']);

    assert_eq!(&['a'], buf.column());
}

#[test]
fn row_clear() {
    let mut buf = Row::default();
    buf.append(&['a']);

    buf.clear();

    assert!(buf.column().is_empty());
}

#[test]
fn row_insert() {
    let mut buf = Row::default();

    buf.insert(0, 'a');

    assert_eq!(&['a'], buf.column());
}

#[test]
fn row_insert_overflow() {
    let mut buf = Row::default();

    buf.insert(1, 'a');

    assert!(buf.is_empty());
}

#[test]
fn row_insert_slice() {
    let mut buf = Row::default();

    buf.insert_slice(0, &['a', 'b']);

    assert_eq!(&['a', 'b'], buf.column());
}

#[test]
fn row_insert_slice_overflow() {
    let mut buf = Row::default();

    buf.insert_slice(1, &['a', 'b']);

    assert!(buf.is_empty());
}

#[test]
fn row_last_char_width_0() {
    let buf = Row::default();

    assert_eq!(0, buf.last_char_width());
}

#[test]
fn row_last_char_width_1() {
    let buf = Row::from(&['a'][..]);

    assert_eq!(1, buf.last_char_width());
}

#[test]
fn row_last_char_width_2() {
    let buf = Row::from(&['あ'][..]);

    assert_eq!(2, buf.last_char_width());
}

#[test]
fn row_replace() {
    let mut buf = Row::from(&['a', 'b', 'c'][..]);

    let removed = buf.replace(1, 1, &['d']);

    assert_eq!(&['a', 'd', 'c'], buf.column());
    assert_eq!(Some(vec!['b']), removed);
}

#[test]
fn row_replace_overflow() {
    let mut buf = Row::from(&['a', 'b', 'c'][..]);

    let removed = buf.replace(1, 3, &['d']);

    assert_eq!(&['a', 'b', 'c'], buf.column());
    assert_eq!(None, removed);
}

#[test]
fn row_shrink_width_1() {
    let mut buf = Row::from(&['a', 'b', 'c'][..]);

    let removed = buf.shrink_width(1);

    assert_eq!(&['b', 'c'], buf.column());
    assert_eq!(1, removed)
}

#[test]
fn row_shrink_width_2() {
    let mut buf = Row::from(&['あ', 'い', 'う'][..]);

    let removed = buf.shrink_width(2);

    assert_eq!(&['い', 'う'], buf.column());
    assert_eq!(2, removed)
}

#[test]
fn row_shrink_width_3() {
    let mut buf = Row::from(&['あ', 'い', 'う'][..]);

    let removed = buf.shrink_width(3);

    assert_eq!(&['う'], buf.column());
    assert_eq!(4, removed)
}

#[test]
fn row_shrink_width_all() {
    let mut buf = Row::from(&['a', 'b', 'c'][..]);

    let removed = buf.shrink_width(3);

    assert!(buf.is_empty());
    assert_eq!(3, removed)
}

#[test]
fn row_slice_width_0() {
    let buf = Row::from(&['a', 'b', 'c'][..]);

    let render = buf.slice_width(1..1);

    assert!(render.is_empty());
}

#[test]
fn row_slice_width_1() {
    let buf = Row::from(&['a', 'b', 'c'][..]);

    let render = buf.slice_width(1..2);

    assert_eq!(&['b'], render.column());
}

#[test]
fn row_slice_width_2() {
    let buf = Row::from(&['あ', 'い', 'う'][..]);

    let render = buf.slice_width(2..4);

    assert_eq!(&['い'], render.column());
}

#[test]
fn row_slice_width_4() {
    let buf = Row::from(&['あ', 'い', 'う'][..]);

    let render = buf.slice_width(1..5);

    assert_eq!(&[' ', 'い', ' '], render.column());
}

#[test]
fn row_split_off() {
    let mut buf = Row::from(&['a', 'b', 'c'][..]);

    let buf2 = buf.split_off(1);

    assert_eq!(&['a'], buf.column());
    assert_eq!(&['b', 'c'], buf2.column());
}

#[test]
fn row_to_string_at_0() {
    let buf = Row::from(&['a', 'b', 'c'][..]);

    let s = buf.to_string_at(0);

    assert_eq!("abc", s);
}

#[test]
fn row_to_string_at_1() {
    let buf = Row::from(&['a', 'b', 'c'][..]);

    let s = buf.to_string_at(1);

    assert_eq!("bc", s);
}

#[test]
fn row_to_string_at_3() {
    let buf = Row::from(&['a', 'b', 'c'][..]);

    let s = buf.to_string_at(3);

    assert_eq!("", s);
}

#[test]
fn row_truncate_width_0() {
    let mut buf = Row::from(&['a', 'b', 'c'][..]);

    let rest = buf.truncate_width(0);

    assert!(buf.is_empty());
    assert_eq!(0, rest);
}

#[test]
fn row_truncate_width_1() {
    let mut buf = Row::from(&['a', 'b', 'c'][..]);

    let rest = buf.truncate_width(1);

    assert_eq!(&['a'], buf.column());
    assert_eq!(1, rest);
}

#[test]
fn row_truncate_width_2() {
    let mut buf = Row::from(&['あ', 'い', 'う'][..]);

    let rest = buf.truncate_width(3);

    assert_eq!(&['あ'], buf.column());
    assert_eq!(2, rest);
}

#[test]
fn row_remove() {
    let mut buf = Row::from(&['a', 'b'][..]);

    buf.remove(0);

    assert_eq!(&['b'], buf.column());
}

#[test]
fn row_remove_overflow() {
    let mut buf = Row::from(&['a', 'b'][..]);

    buf.remove(2);

    assert_eq!(&['a', 'b'], buf.column());
}

#[test]
fn row_remove_range_0() {
    let mut buf = Row::from(&['a', 'b', 'c'][..]);

    buf.remove_range(0..2);

    assert_eq!(&['c'], buf.column());
}

#[test]
fn row_remove_range_1() {
    let mut buf = Row::from(&['a', 'b', 'c'][..]);

    buf.remove_range(1..2);

    assert_eq!(&['a', 'c'], buf.column());
}

#[test]
fn row_remove_range_2() {
    let mut buf = Row::from(&['a', 'b', 'c'][..]);

    buf.remove_range(2..3);

    assert_eq!(&['a', 'b'], buf.column());
}

#[test]
fn row_remove_range_overflow() {
    let mut buf = Row::from(&['a', 'b', 'c'][..]);

    buf.remove_range(0..4);

    assert_eq!(&['a', 'b', 'c'], buf.column());
}

#[test]
fn row_rev_at_0() {
    let buf = Row::from(&['a', 'b', 'c'][..]);

    let rev = buf.rev_at(0);

    assert!(rev.is_empty());
}

#[test]
fn row_rev_at_1() {
    let buf = Row::from(&['a', 'b', 'c'][..]);

    let rev = buf.rev_at(1);

    assert_eq!(&['a'], rev.column());
}

#[test]
fn row_rev_at_2() {
    let buf = Row::from(&['a', 'b', 'c'][..]);

    let rev = buf.rev_at(2);

    assert_eq!(&['b', 'a'], rev.column());
}

#[test]
fn row_width_1() {
    let buf = Row::from(&['a', 'b', 'c'][..]);

    assert_eq!(3, buf.width());
}

#[test]
fn row_width_2() {
    let buf = Row::from(&['あ', 'い', 'う'][..]);

    assert_eq!(6, buf.width());
}

#[test]
fn row_width_range_1() {
    let buf = Row::from(&['a', 'b', 'c'][..]);

    assert_eq!(2, buf.width_range(0..2));
}

#[test]
fn row_width_range_2() {
    let buf = Row::from(&['あ', 'い', 'う'][..]);

    assert_eq!(4, buf.width_range(0..2));
}
