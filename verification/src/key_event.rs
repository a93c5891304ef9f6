//! Input events as the editing core sees them: key presses with modifier
//! flags, and window events.

use vstd::prelude::*;

verus! {

/// One input event: a key press with its modifier, or a window event.
#[derive(Clone, Copy, Debug, PartialEq, Eq, Structural)]
pub enum Event {
    Key(KeyEvent, KeyModifier),
    Window(WindowEvent),
}

/// A key press, already decoded from the terminal's codes.
#[derive(Clone, Copy, Debug, PartialEq, Eq, Structural)]
pub enum KeyEvent {
    BackSpace,
    Enter,
    Escape,
    End,
    PageUp,
    PageDown,
    Home,
    ArrowLeft,
    ArrowUp,
    ArrowRight,
    ArrowDown,
    Delete,
    F3,
    Copy,
    Cut,
    DeleteRow,
    Find,
    Exit,
    Goto,
    Paste,
    Replace,
    Save,
    Undo,
    Char(char),
}

/// The modifier held with a key press.
#[derive(Clone, Copy, Debug, PartialEq, Eq, Structural)]
pub enum KeyModifier {
    Plain,
    Shift,
    CtrlLeft,
}

/// A window-level event.
#[derive(Clone, Copy, Debug, PartialEq, Eq, Structural)]
pub enum WindowEvent {
    Resize,
}

impl From<(KeyEvent, KeyModifier)> for Event {
    fn from(value: (KeyEvent, KeyModifier)) -> (r: Self) {
        Event::Key(value.0, value.1)
    }
}

impl vstd::std_specs::convert::FromSpecImpl<(KeyEvent, KeyModifier)> for Event {
    open spec fn obeys_from_spec() -> bool {
        true
    }

    open spec fn from_spec(v: (KeyEvent, KeyModifier)) -> Self {
        Event::Key(v.0, v.1)
    }
}

impl From<WindowEvent> for Event {
    fn from(value: WindowEvent) -> (r: Self) {
        Event::Window(value)
    }
}

impl vstd::std_specs::convert::FromSpecImpl<WindowEvent> for Event {
    open spec fn obeys_from_spec() -> bool {
        true
    }

    open spec fn from_spec(v: WindowEvent) -> Self {
        Event::Window(v)
    }
}

} // verus!
