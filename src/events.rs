use vstd::prelude::*;

use crate::model::{Event, Key, KeyInput};
use crate::point::Point;

verus! {

/// What the mouse did.
#[derive(Clone, Copy, Debug, PartialEq, Eq, Structural)]
pub enum MouseKind {
    ScrollUp,
    ScrollDown,
    LeftDown,
    LeftDrag,
    LeftUp,
    Other,
}

/// A raw terminal event.
pub enum TermEvent {
    Paste(String),
    Mouse(MouseKind, u16, u16),
    Key(KeyInput),
    Other,
}

/// The event a key press stands for.
pub open spec fn key_event(k: KeyInput) -> Event {
    match k.key {
        Key::Down => Event::UIScrollDown,
        Key::Up => Event::UIScrollUp,
        Key::MouseScrollDown => Event::UIScrollDown,
        Key::MouseScrollUp => Event::UIScrollUp,
        Key::PageDown => Event::UIScrollPageDown,
        Key::PageUp => Event::UIScrollPageUp,
        Key::Enter => Event::KeyboardEnter,
        Key::Char(c) => if k.ctrl && c == 'd' {
            Event::UIScrollPageDown
        } else if k.ctrl && c == 'u' {
            Event::UIScrollPageUp
        } else if k.ctrl && c == 'c' {
            Event::KeyboardCTRLC
        } else if k.ctrl && c == 'o' {
            Event::KeyboardCTRLO
        } else if k.ctrl && c == 'r' {
            Event::KeyboardCTRLR
        } else {
            Event::KeyboardCharInput(k)
        },
        _ => Event::KeyboardCharInput(k),
    }
}

pub fn map_key(k: KeyInput) -> (r: Event)
    ensures
        r == key_event(k),
{
    match k.key {
        Key::Down => Event::UIScrollDown,
        Key::Up => Event::UIScrollUp,
        Key::MouseScrollDown => Event::UIScrollDown,
        Key::MouseScrollUp => Event::UIScrollUp,
        Key::PageDown => Event::UIScrollPageDown,
        Key::PageUp => Event::UIScrollPageUp,
        Key::Enter => Event::KeyboardEnter,
        Key::Char(c) => if k.ctrl && c == 'd' {
            Event::UIScrollPageDown
        } else if k.ctrl && c == 'u' {
            Event::UIScrollPageUp
        } else if k.ctrl && c == 'c' {
            Event::KeyboardCTRLC
        } else if k.ctrl && c == 'o' {
            Event::KeyboardCTRLO
        } else if k.ctrl && c == 'r' {
            Event::KeyboardCTRLR
        } else {
            Event::KeyboardCharInput(k)
        },
        _ => Event::KeyboardCharInput(k),
    }
}

pub open spec fn mouse_point(column: u16, row: u16) -> Point {
    Point { row: row as usize, column: column as usize }
}

/// The event given for `event` and the selection start after it, when the
/// selection started at `start`.
pub open spec fn handled(start: Option<Point>, event: TermEvent) -> (Option<Event>, Option<Point>) {
    match event {
        TermEvent::Paste(text) => (Some(Event::KeyboardPaste(text)), start),
        TermEvent::Key(k) => (Some(key_event(k)), start),
        TermEvent::Mouse(kind, column, row) => {
            let p = mouse_point(column, row);
            match kind {
                MouseKind::ScrollUp => (Some(Event::UIScrollUp), start),
                MouseKind::ScrollDown => (Some(Event::UIScrollDown), start),
                MouseKind::LeftDown => (None, Some(p)),
                MouseKind::LeftDrag => match start {
                    Some(s) => (Some(Event::Highlight(s, p)), start),
                    None => (None, start),
                },
                MouseKind::LeftUp => match start {
                    Some(s) => (Some(Event::Select(s, p)), None),
                    None => (None, None),
                },
                MouseKind::Other => (None, start),
            }
        },
        TermEvent::Other => (None, start),
    }
}

/// Turns raw terminal events into the events the loop consumes, pairing a
/// left button press with the drags and the release that follow it.
pub struct EventsService {
    pub selection_start: Option<Point>,
}

impl EventsService {
    pub fn new() -> (r: EventsService)
        ensures
            r.selection_start is None,
    {
        EventsService { selection_start: None }
    }

    /// A press remembers where the selection starts and gives nothing; a drag
    /// gives `Highlight` from there, a release `Select` and forgets the start.
    /// Without a press before, drags and releases give nothing.
    pub fn handle_crossterm(&mut self, event: TermEvent) -> (r: Option<Event>)
        ensures
            (r, final(self).selection_start) == handled(old(self).selection_start, event),
    {
        match event {
            TermEvent::Paste(text) => Some(Event::KeyboardPaste(text)),
            TermEvent::Key(k) => Some(map_key(k)),
            TermEvent::Mouse(kind, column, row) => {
                let p = Point { row: row as usize, column: column as usize };
                match kind {
                    MouseKind::ScrollUp => Some(Event::UIScrollUp),
                    MouseKind::ScrollDown => Some(Event::UIScrollDown),
                    MouseKind::LeftDown => {
                        self.selection_start = Some(p);
                        None
                    },
                    MouseKind::LeftDrag => match self.selection_start {
                        Some(s) => Some(Event::Highlight(s, p)),
                        None => None,
                    },
                    MouseKind::LeftUp => match self.selection_start {
                        Some(s) => {
                            self.selection_start = None;
                            Some(Event::Select(s, p))
                        },
                        None => None,
                    },
                    MouseKind::Other => None,
                }
            },
            TermEvent::Other => None,
        }
    }
}

} // verus!
