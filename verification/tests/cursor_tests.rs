//! Cursor movement over a buffer: stepping, wrapping, clamping, and
//! visual-column preservation.

use note::buffer::Buffer;
use note::cursor::{AsCoordinates, Cursor};
use note::screen::Screen;

fn screen_1x3() -> Screen {
    let mut screen = Screen::default();
    screen.resize(3, 1);
    screen
}

#[test]
fn move_down() {
    let mut buf = Buffer::default();
    buf.insert_row(&(0, 0), &['a']);
    buf.insert_row(&(0, 1), &['b']);

    let mut cur = Cursor::from((0, 0));
    let moved = cur.move_down(&buf);

    assert_eq!((0, 1), cur.as_coordinates());
    assert!(moved);
}

#[test]
fn move_down_at_end() {
    let mut buf = Buffer::default();
    buf.insert_row(&(0, 0), &['a']);
    buf.insert_row(&(0, 1), &['b']);

    let mut cur = Cursor::from((0, 1));
    let moved = cur.move_down(&buf);

    assert_eq!((0, 2), cur.as_coordinates());
    assert!(moved);
}

#[test]
fn move_down_at_yoverflow() {
    let mut buf = Buffer::default();
    buf.insert_row(&(0, 0), &['a']);
    buf.insert_row(&(0, 1), &['b']);

    let mut cur = Cursor::from((0, 2));
    let moved = cur.move_down(&buf);

    assert_eq!((0, 2), cur.as_coordinates());
    assert!(!moved);
}

#[test]
fn move_down_render_1() {
    let mut buf = Buffer::default();
    buf.insert_row(&(0, 0), &['a', 'b', 'c', 'd']);
    buf.insert_row(&(0, 1), &['あ', 'い']);

    let mut cur = Cursor::from((2, 0));
    let moved = cur.move_down_render(&buf);

    assert_eq!((1, 1), cur.as_coordinates());
    assert!(moved);
}

#[test]
fn move_down_render_2() {
    let mut buf = Buffer::default();
    buf.insert_row(&(0, 0), &['あ', 'い']);
    buf.insert_row(&(0, 1), &['a', 'b', 'c', 'd']);

    let mut cur = Cursor::from((1, 0));
    let moved = cur.move_down_render(&buf);

    assert_eq!((2, 1), cur.as_coordinates());
    assert!(moved);
}

#[test]
fn move_down_screen() {
    let mut buf = Buffer::default();
    buf.insert_row(&(0, 0), &['a']);
    buf.insert_row(&(0, 1), &['b']);

    let screen = screen_1x3();
    let mut cur = Cursor::from((0, 0));

    let moved = cur.move_down_screen(&buf, &screen);

    assert_eq!((0, 1), cur.as_coordinates());
    assert!(moved);
}

#[test]
fn move_down_screen_at_end() {
    let mut buf = Buffer::default();
    buf.insert_row(&(0, 0), &['a']);
    buf.insert_row(&(0, 1), &['b']);

    let screen = screen_1x3();
    let mut cur = Cursor::from((0, 1));

    let moved = cur.move_down_screen(&buf, &screen);

    assert_eq!((0, 2), cur.as_coordinates());
    assert!(moved);
}

#[test]
fn move_down_screen_at_yoverflow() {
    let mut buf = Buffer::default();
    buf.insert_row(&(0, 0), &['a']);
    buf.insert_row(&(0, 1), &['b']);

    let screen = screen_1x3();
    let mut cur = Cursor::from((0, 2));

    let moved = cur.move_down_screen(&buf, &screen);

    assert_eq!((0, 2), cur.as_coordinates());
    assert!(!moved);
}

#[test]
fn move_left() {
    let mut buf = Buffer::default();
    buf.insert_row(&(0, 0), &['a', 'b']);
    buf.insert_row(&(0, 1), &['a', 'b']);

    let mut cur = Cursor::from((2, 1));
    let moved = cur.move_left(&buf);

    assert_eq!((1, 1), cur.as_coordinates());
    assert!(moved);
}

#[test]
fn move_left_at_end() {
    let mut buf = Buffer::default();
    buf.insert_row(&(0, 0), &['a', 'b']);
    buf.insert_row(&(0, 1), &['a', 'b']);

    let mut cur = Cursor::from((1, 1));
    let moved = cur.move_left(&buf);

    assert_eq!((0, 1), cur.as_coordinates());
    assert!(moved);
}

#[test]
fn move_left_at_xunderflow() {
    let mut buf = Buffer::default();
    buf.insert_row(&(0, 0), &['a', 'b']);
    buf.insert_row(&(0, 1), &['a', 'b']);

    let mut cur = Cursor::from((0, 1));
    let moved = cur.move_left(&buf);

    assert_eq!((2, 0), cur.as_coordinates());
    assert!(moved);
}

#[test]
fn move_right() {
    let mut buf = Buffer::default();
    buf.insert_row(&(0, 0), &['a', 'b']);

    let mut cur = Cursor::from((0, 0));
    let moved = cur.move_right(&buf);

    assert_eq!((1, 0), cur.as_coordinates());
    assert!(moved);
}

#[test]
fn move_right_at_end() {
    let mut buf = Buffer::default();
    buf.insert_row(&(0, 0), &['a', 'b']);

    let mut cur = Cursor::from((1, 0));
    let moved = cur.move_right(&buf);

    assert_eq!((2, 0), cur.as_coordinates());
    assert!(moved);
}

#[test]
fn move_right_at_xoverflow() {
    let mut buf = Buffer::default();
    buf.insert_row(&(0, 0), &['a', 'b']);

    let mut cur = Cursor::from((2, 0));
    let moved = cur.move_right(&buf);

    assert_eq!((0, 1), cur.as_coordinates());
    assert!(moved);
}

#[test]
fn move_up() {
    let mut buf = Buffer::default();
    buf.insert_row(&(0, 0), &['a']);
    buf.insert_row(&(0, 1), &['b']);

    let mut cur = Cursor::from((0, 2));
    let moved = cur.move_up(&buf);

    assert_eq!((0, 1), cur.as_coordinates());
    assert!(moved);
}

#[test]
fn move_up_at_end() {
    let mut buf = Buffer::default();
    buf.insert_row(&(0, 0), &['a']);
    buf.insert_row(&(0, 1), &['b']);

    let mut cur = Cursor::from((0, 1));
    let moved = cur.move_up(&buf);

    assert_eq!((0, 0), cur.as_coordinates());
    assert!(moved);
}

#[test]
fn move_up_at_yunderflow() {
    let mut buf = Buffer::default();
    buf.insert_row(&(0, 0), &['a']);
    buf.insert_row(&(0, 1), &['b']);

    let mut cur = Cursor::from((0, 0));
    let moved = cur.move_up(&buf);

    assert_eq!((0, 0), cur.as_coordinates());
    assert!(!moved);
}

#[test]
fn move_up_render_1() {
    let mut buf = Buffer::default();
    buf.insert_row(&(0, 0), &['a', 'b', 'c', 'd']);
    buf.insert_row(&(0, 1), &['あ', 'い']);

    let mut cur = Cursor::from((1, 1));
    let moved = cur.move_up_render(&buf);

    assert_eq!((2, 0), cur.as_coordinates());
    assert!(moved);
}

#[test]
fn move_up_render_2() {
    let mut buf = Buffer::default();
    buf.insert_row(&(0, 0), &['あ', 'い']);
    buf.insert_row(&(0, 1), &['a', 'b', 'c', 'd']);

    let mut cur = Cursor::from((2, 1));
    let moved = cur.move_up_render(&buf);

    assert_eq!((1, 0), cur.as_coordinates());
    assert!(moved);
}

#[test]
fn move_up_screen() {
    let mut buf = Buffer::default();
    buf.insert_row(&(0, 0), &['a']);
    buf.insert_row(&(0, 1), &['b']);

    let screen = screen_1x3();
    let mut cur = Cursor::from((0, 2));

    let moved = cur.move_up_screen(&buf, &screen);

    assert_eq!((0, 1), cur.as_coordinates());
    assert!(moved);
}

#[test]
fn move_up_screen_at_end() {
    let mut buf = Buffer::default();
    buf.insert_row(&(0, 0), &['a']);
    buf.insert_row(&(0, 1), &['b']);

    let screen = screen_1x3();
    let mut cur = Cursor::from((0, 1));

    let moved = cur.move_up_screen(&buf, &screen);

    assert_eq!((0, 0), cur.as_coordinates());
    assert!(moved);
}

#[test]
fn move_up_screen_at_yunderflow() {
    let mut buf = Buffer::default();
    buf.insert_row(&(0, 0), &['a']);
    buf.insert_row(&(0, 1), &['b']);

    let screen = screen_1x3();
    let mut cur = Cursor::from((0, 0));

    let moved = cur.move_up_screen(&buf, &screen);

    assert_eq!((0, 0), cur.as_coordinates());
    assert!(!moved);
}

#[test]
fn move_to_x0() {
    let mut cur = Cursor::from((1, 0));
    let moved = cur.move_to_x0();

    assert_eq!((0, 0), cur.as_coordinates());
    assert!(moved);
}

#[test]
fn move_to_x0_at_x0() {
    let mut cur = Cursor::from((0, 0));
    let moved = cur.move_to_x0();

    assert_eq!((0, 0), cur.as_coordinates());
    assert!(!moved);
}

#[test]
fn move_to_xmax() {
    let mut buf = Buffer::default();
    buf.insert_row(&(0, 0), &['a']);

    let mut cur = Cursor::from((0, 0));
    let moved = cur.move_to_xmax(&buf);

    assert_eq!((1, 0), cur.as_coordinates());
    assert!(moved);
}

#[test]
fn move_to_xmax_at_xmaz() {
    let mut buf = Buffer::default();
    buf.insert_row(&(0, 0), &['a']);

    let mut cur = Cursor::from((1, 0));
    let moved = cur.move_to_xmax(&buf);

    assert_eq!((1, 0), cur.as_coordinates());
    assert!(!moved);
}

#[test]
fn render() {
    let mut buf = Buffer::default();
    buf.insert_row(&(0, 0), &['a', 'b']);
    buf.insert_row(&(0, 1), &['a', 'b']);

    let cur = Cursor::from((0, 1));
    let render = cur.render(&buf);

    assert_eq!((0, 1), render);
}

#[test]
fn render_yoverflow() {
    let mut buf = Buffer::default();
    buf.insert_row(&(0, 0), &['a', 'b']);
    buf.insert_row(&(0, 1), &['a', 'b']);

    let cur = Cursor::from((0, 2));
    let render = cur.render(&buf);

    assert_eq!((0, 2), render);
}

#[test]
fn set() {
    let mut buf = Buffer::default();
    buf.insert_row(&(0, 0), &['a']);
    buf.insert_row(&(0, 1), &['a', 'b']);
    buf.insert_row(&(0, 2), &['a', 'b', 'c']);

    let mut cur = Cursor::from((0, 0));
    let moved = cur.set(&buf, &(1, 1));

    assert_eq!((1, 1), cur.as_coordinates());
    assert!(moved);
}

#[test]
fn set_xoverflow() {
    let mut buf = Buffer::default();
    buf.insert_row(&(0, 0), &['a']);
    buf.insert_row(&(0, 1), &['a', 'b']);
    buf.insert_row(&(0, 2), &['a', 'b', 'c']);

    let mut cur = Cursor::from((0, 0));
    let moved = cur.set(&buf, &(3, 1));

    assert_eq!((2, 1), cur.as_coordinates());
    assert!(moved);
}

#[test]
fn set_yoverflow() {
    let mut buf = Buffer::default();
    buf.insert_row(&(0, 0), &['a']);
    buf.insert_row(&(0, 1), &['a', 'b']);
    buf.insert_row(&(0, 2), &['a', 'b', 'c']);

    let mut cur = Cursor::from((0, 0));
    let moved = cur.set(&buf, &(1, 4));

    assert_eq!((0, 3), cur.as_coordinates());
    assert!(moved);
}
