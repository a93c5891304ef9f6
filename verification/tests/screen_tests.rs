//! The viewport: scrolling to fit the cursor, paging, and the dirty-driven
//! draw pass.

use note::buffer::Buffer;
use note::editor::Select;
use note::screen::{DrawCmd, Screen};

fn screen_sized(width: usize, height: usize) -> Screen {
    let mut screen = Screen::default();
    screen.resize(height, width);
    screen.clear_updated();
    screen
}

#[test]
fn screen_resize() {
    let mut screen = Screen::default();

    screen.resize(10, 20);

    assert_eq!(0, screen.left());
    assert_eq!(0, screen.top());
    assert_eq!(19, screen.right());
    assert_eq!(7, screen.bottom());
    assert_eq!(8, screen.height());
    assert_eq!(20, screen.width());
    assert!(screen.updated());
}

#[test]
fn screen_draw() {
    let mut screen = screen_sized(3, 3);

    let mut buf = Buffer::default();
    buf.insert_row(&(0, 0), &['a', 'b', 'c', 'd', 'e']);
    buf.insert_row(&(0, 1), &['f', 'g', 'h', 'i', 'j']);

    screen.draw_plan(&buf, &Select::default());

    assert!(!screen.updated());
}

#[test]
fn screen_fit_x_right() {
    let mut screen = screen_sized(3, 3);

    let mut buf = Buffer::default();
    buf.insert_row(&(0, 0), &['a', 'b', 'c', 'd', 'e']);
    buf.insert_row(&(0, 1), &['f', 'g', 'h', 'i', 'j']);

    let moved = screen.fit(&buf, &(4, 0));

    assert!(moved);
    assert_eq!(2, screen.left());
    assert_eq!(0, screen.top());
    assert!(screen.updated());
}

#[test]
fn screen_fit_x_left() {
    let mut screen = screen_sized(3, 3);
    let mut buf = Buffer::default();
    buf.insert_row(&(0, 0), &['a', 'b', 'c', 'd', 'e']);
    buf.insert_row(&(0, 1), &['f', 'g', 'h', 'i', 'j']);
    screen.fit(&buf, &(4, 0));
    screen.clear_updated();
    assert_eq!(2, screen.left());

    let moved = screen.fit(&buf, &(1, 0));

    assert!(moved);
    assert_eq!(1, screen.left());
    assert_eq!(0, screen.top());
    assert!(screen.updated());
}

#[test]
fn screen_fit_x_2_left() {
    let mut screen = screen_sized(3, 3);
    let mut buf = Buffer::default();
    buf.insert_row(&(0, 0), &['あ', 'い', 'う', 'え', 'お']);
    screen.fit(&buf, &(3, 0));
    screen.clear_updated();
    assert_eq!(2, screen.left());

    let moved = screen.fit(&buf, &(8, 0));

    assert!(moved);
    assert_eq!(7, screen.left());
    assert_eq!(0, screen.top());
    assert!(screen.updated());
}

#[test]
fn screen_fit_y_down() {
    let mut screen = screen_sized(3, 3);

    let mut buf = Buffer::default();
    buf.insert_row(&(0, 0), &['a', 'b', 'c', 'd', 'e']);
    buf.insert_row(&(0, 1), &['f', 'g', 'h', 'i', 'j']);

    let moved = screen.fit(&buf, &(1, 1));

    assert!(moved);
    assert_eq!(0, screen.left());
    assert_eq!(1, screen.top());
    assert!(screen.updated());
}

#[test]
fn screen_fit_y_up() {
    let mut screen = screen_sized(3, 3);
    let mut buf = Buffer::default();
    buf.insert_row(&(0, 0), &['a', 'b', 'c', 'd', 'e']);
    buf.insert_row(&(0, 1), &['f', 'g', 'h', 'i', 'j']);
    screen.fit(&buf, &(3, 1));
    screen.clear_updated();
    assert_eq!(1, screen.top());
    assert_eq!(1, screen.left());

    let moved = screen.fit(&buf, &(2, 0));

    assert!(moved);
    assert_eq!(1, screen.left());
    assert_eq!(0, screen.top());
    assert!(screen.updated());
}

#[test]
fn screen_fit_notmoved() {
    let mut screen = screen_sized(3, 3);

    let mut buf = Buffer::default();
    buf.insert_row(&(0, 0), &['a', 'b', 'c', 'd', 'e']);
    buf.insert_row(&(0, 1), &['f', 'g', 'h', 'i', 'j']);

    let moved = screen.fit(&buf, &(2, 0));

    assert!(!moved);
    assert_eq!(0, screen.left());
    assert_eq!(0, screen.top());
    assert!(!screen.updated());
}

#[test]
fn screen_move_down() {
    let mut buf = Buffer::default();
    buf.insert_row(&(0, 0), &['a']);
    buf.insert_row(&(0, 1), &['b']);

    let mut screen = screen_sized(1, 3);

    let moved = screen.move_down(&buf);

    assert!(moved);
    assert_eq!(0, screen.left());
    assert_eq!(1, screen.top());
    assert!(screen.updated());
}

#[test]
fn screen_move_down_yoverflow() {
    let mut buf = Buffer::default();
    buf.insert_row(&(0, 0), &['a']);
    buf.insert_row(&(0, 1), &['b']);

    let mut screen = screen_sized(1, 3);
    screen.fit(&buf, &(0, 2));
    screen.clear_updated();
    assert_eq!(2, screen.top());

    let moved = screen.move_down(&buf);

    assert!(!moved);
    assert_eq!(0, screen.left());
    assert_eq!(2, screen.top());
    assert!(!screen.updated());
}

#[test]
fn screen_move_up() {
    let mut screen = screen_sized(1, 3);
    let buf = Buffer::default();
    screen.fit(&buf, &(0, 1));
    screen.clear_updated();
    assert_eq!(1, screen.top());

    let moved = screen.move_up();

    assert!(moved);
    assert_eq!(0, screen.left());
    assert_eq!(0, screen.top());
    assert!(screen.updated());
}

#[test]
fn screen_move_up_yunderflow() {
    let mut screen = screen_sized(1, 3);

    let moved = screen.move_up();

    assert!(!moved);
    assert_eq!(0, screen.left());
    assert_eq!(0, screen.top());
    assert!(!screen.updated());
}

#[test]
fn screen_draw_dirty_rows_only() {
    let mut screen = screen_sized(4, 5);
    let mut buf = Buffer::default();
    buf.insert_row(&(0, 0), &['a']);
    buf.insert_row(&(0, 1), &['b']);
    buf.insert_row(&(0, 2), &['c']);
    buf.clear_updated();
    buf.insert_char(&(0, 1), 'x');

    let plan = screen.draw_plan(&buf, &Select::default());

    let painted: Vec<usize> = plan
        .iter()
        .filter_map(|cmd| match cmd {
            DrawCmd::Text { y, .. } => Some(*y),
            _ => None,
        })
        .collect();
    assert_eq!(vec![1], painted);
    assert!(!screen.updated());
}

#[test]
fn screen_draw_fills_past_the_buffer_with_tildes() {
    let mut screen = screen_sized(4, 5);
    let mut buf = Buffer::default();
    buf.insert_row(&(0, 0), &['a']);
    buf.insert_row(&(0, 1), &['b']);
    screen.force_update();

    let plan = screen.draw_plan(&buf, &Select::default());

    let mut lines: Vec<(usize, Vec<char>)> = plan
        .iter()
        .filter_map(|cmd| match cmd {
            DrawCmd::Text { y, text, .. } => Some((*y, text.column().to_vec())),
            _ => None,
        })
        .collect();
    lines.sort();
    assert!(lines.iter().all(|(y, _)| *y < screen.height()));
    assert_eq!(3, lines.len());
    assert_eq!(vec!['~'], lines[2].1);
    assert_eq!(2, lines[2].0);
}
