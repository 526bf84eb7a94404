use oatmeal::events::{EventsService, MouseKind, TermEvent};
use oatmeal::model::{Event, Key, KeyInput};
use oatmeal::point::Point;

fn key(key: Key, ctrl: bool) -> KeyInput {
    KeyInput { key, ctrl, alt: false, shift: false }
}

fn mouse(kind: MouseKind, column: u16, row: u16) -> TermEvent {
    TermEvent::Mouse(kind, column, row)
}

#[test]
fn press_drag_release_gives_highlight_then_select() {
    let mut events = EventsService::new();
    assert!(events.handle_crossterm(mouse(MouseKind::LeftDown, 2, 3)).is_none());
    match events.handle_crossterm(mouse(MouseKind::LeftDrag, 7, 5)) {
        Some(Event::Highlight(a, b)) => {
            assert_eq!(a, Point::new(2, 3));
            assert_eq!(b, Point::new(7, 5));
        },
        _ => panic!("expected a highlight"),
    }
    match events.handle_crossterm(mouse(MouseKind::LeftUp, 8, 6)) {
        Some(Event::Select(a, b)) => {
            assert_eq!(a, Point::new(2, 3));
            assert_eq!(b, Point::new(8, 6));
        },
        _ => panic!("expected a selection"),
    }
    assert!(events.selection_start.is_none());
    assert!(events.handle_crossterm(mouse(MouseKind::LeftUp, 8, 6)).is_none());
    assert!(events.handle_crossterm(mouse(MouseKind::LeftDrag, 8, 6)).is_none());
}

#[test]
fn keys_map_to_loop_events() {
    let mut events = EventsService::new();
    assert!(matches!(events.handle_crossterm(TermEvent::Key(key(Key::Up, false))), Some(Event::UIScrollUp)));
    assert!(matches!(events.handle_crossterm(TermEvent::Key(key(Key::Down, false))), Some(Event::UIScrollDown)));
    assert!(matches!(events.handle_crossterm(TermEvent::Key(key(Key::PageUp, false))), Some(Event::UIScrollPageUp)));
    assert!(matches!(
        events.handle_crossterm(TermEvent::Key(key(Key::Char('d'), true))),
        Some(Event::UIScrollPageDown)
    ));
    assert!(matches!(
        events.handle_crossterm(TermEvent::Key(key(Key::Char('u'), true))),
        Some(Event::UIScrollPageUp)
    ));
    assert!(matches!(events.handle_crossterm(TermEvent::Key(key(Key::Char('c'), true))), Some(Event::KeyboardCTRLC)));
    assert!(matches!(events.handle_crossterm(TermEvent::Key(key(Key::Char('o'), true))), Some(Event::KeyboardCTRLO)));
    assert!(matches!(events.handle_crossterm(TermEvent::Key(key(Key::Char('r'), true))), Some(Event::KeyboardCTRLR)));
    assert!(matches!(events.handle_crossterm(TermEvent::Key(key(Key::Enter, false))), Some(Event::KeyboardEnter)));
    match events.handle_crossterm(TermEvent::Key(key(Key::Char('c'), false))) {
        Some(Event::KeyboardCharInput(k)) => assert_eq!(k.key, Key::Char('c')),
        _ => panic!("expected a character"),
    }
    assert!(matches!(events.handle_crossterm(mouse(MouseKind::ScrollUp, 0, 0)), Some(Event::UIScrollUp)));
    assert!(matches!(events.handle_crossterm(mouse(MouseKind::ScrollDown, 0, 0)), Some(Event::UIScrollDown)));
    assert!(events.handle_crossterm(TermEvent::Other).is_none());
    match events.handle_crossterm(TermEvent::Paste("a\r\nb".to_string())) {
        Some(Event::KeyboardPaste(t)) => assert_eq!(t, "a\r\nb"),
        _ => panic!("expected a paste"),
    }
}

#[test]
fn point_order_is_row_major() {
    let a = Point::new(9, 1);
    let b = Point::new(0, 2);
    assert!(a < b);
    assert_eq!(Point::lesser(a, b), a);
    assert_eq!(Point::greater(b, a), b);
    assert_eq!(Point::lesser(a, a), a);
    let shifted = a.shift_row(10);
    assert_eq!(shifted, Point::new(9, 11));
    assert!(shifted < b.shift_row(10));
    assert_eq!(a.cmp(&b), std::cmp::Ordering::Less);
}
