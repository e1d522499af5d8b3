//! What the host hands to the input box, and what the box hands back.

use std::rc::Rc;
use vstd::prelude::*;

verus! {

/// A named key of the keyboard.
#[derive(Clone, Copy, Debug, PartialEq, Eq, Structural)]
pub enum Key {
    Enter,
    Tab,
    Backspace,
    Esc,
    Left,
    Right,
    Up,
    Down,
    Ins,
    Del,
    Home,
    End,
    PageUp,
    PageDown,
}

/// One input event, delivered to the view that has the focus.
#[derive(Clone, Copy, Debug, PartialEq, Eq, Structural)]
pub enum Event {
    /// A character was typed.
    Char(char),
    /// A named key was pressed.
    Key(Key),
}

/// What the host is to tell a handler once the event has been handled. The
/// content is a snapshot: later edits of the view do not show in it.
#[derive(Debug)]
pub enum Notification {
    /// For the handler of edits: the content and the cursor position.
    Edit { content: Rc<String>, cursor: usize },
    /// For the handler of Enter: the content.
    Submit { content: Rc<String> },
}

/// Answer to an event.
#[derive(Debug)]
pub enum EventResult {
    /// The event was not for this view: the host may route it elsewhere.
    Ignored,
    /// The event was handled, and the host is to pass on the notification,
    /// if there is one.
    Consumed(Option<Notification>),
}

} // verus!
