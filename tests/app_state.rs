use oatmeal::app_state::AppState;
use oatmeal::line::StyledLine;
use oatmeal::model::{Author, BackendResponse, Message};

fn piece(text: &str, done: bool, context: Option<&str>) -> BackendResponse {
    BackendResponse {
        author: Author::Model,
        text: text.to_string(),
        done,
        context: context.map(|c| c.to_string()),
    }
}

fn text_of(line: &StyledLine) -> String {
    line.spans.iter().map(|s| s.content.as_str()).collect::<Vec<_>>().join("")
}

#[test]
fn stream_grows_the_tail_and_keeps_the_context() {
    let mut app = AppState::new("user", "gpt");
    app.set_rect(80, 20);
    app.add_message(Message::new(Author::User, "Say hi"));
    app.handle_backend_response(piece("Hello ", false, None));
    app.handle_backend_response(piece("World", false, None));
    assert!(app.backend_context.is_empty());
    app.handle_backend_response(piece("", true, Some("[{\"role\":\"user\"}]")));
    assert_eq!(app.messages.len(), 2);
    assert_eq!(app.messages[0].author, Author::User);
    assert_eq!(app.messages[1].author, Author::Model);
    assert_eq!(app.messages[1].text, "Hello World");
    assert!(!app.backend_context.is_empty());
    assert_eq!(app.bubble_list.cache.len(), 2);
    assert_eq!(text_of(&app.bubble_list.cache[1].lines[2]).trim_end(), "│ Hello World                                                         │".trim_end());
}

#[test]
fn two_pieces_make_one_tail_message() {
    let mut app = AppState::new("user", "gpt");
    app.set_rect(80, 20);
    app.handle_backend_response(piece("A", false, None));
    app.handle_backend_response(piece("B", false, None));
    assert_eq!(app.messages.len(), 1);
    assert_eq!(app.messages[0].text, "AB");
}

#[test]
fn view_follows_the_end_only_when_it_was_there() {
    let mut app = AppState::new("user", "gpt");
    app.set_rect(80, 6);
    app.add_message(Message::new(Author::User, "one"));
    app.add_message(Message::new(Author::User, "two"));
    assert_eq!(app.bubble_list.len(), 8);
    assert_eq!(app.scroll.position, 2);
    app.scroll.up_by(2);
    app.add_message(Message::new(Author::User, "three"));
    assert_eq!(app.scroll.position, 0);
    app.scroll.down_by(100);
    assert_eq!(app.scroll.position, 6);
    app.add_message(Message::new(Author::User, "four"));
    assert_eq!(app.scroll.position, 10);
}

#[test]
fn resize_lays_every_message_out_again() {
    let mut app = AppState::new("user", "gpt");
    app.set_rect(80, 20);
    app.add_message(Message::new(Author::User, "a"));
    app.add_message(Message::new(Author::Model, "b"));
    app.add_message(Message::new(Author::Oatmeal, "c"));
    let wide: Vec<String> = app.bubble_list.render(100, 0).iter().map(text_of).collect();
    app.set_rect(40, 20);
    let narrow: Vec<String> = app.bubble_list.render(100, 0).iter().map(text_of).collect();
    assert_eq!(app.bubble_list.cache.len(), 3);
    assert_eq!(wide.len(), narrow.len());
    assert!(wide.iter().zip(narrow.iter()).all(|(a, b)| a != b));
    assert!(narrow.iter().all(|r| r.chars().count() <= 40));
}

#[test]
fn first_prompt_carries_the_editor_context_and_later_ones_the_backend_context() {
    let mut app = AppState::new("user", "gpt");
    app.set_rect(80, 20);
    app.editor_context = "fn main() {}".to_string();
    let first = app.submit_prompt("Explain this");
    assert_eq!(first.text, "fn main() {}\n\nExplain this");
    assert_eq!(first.backend_context, "");
    assert_eq!(app.messages.len(), 1);
    assert_eq!(app.messages[0].author, Author::User);
    assert_eq!(app.messages[0].text, "Explain this");
    app.handle_backend_response(piece("It prints nothing.", true, Some("ctx-1")));
    let second = app.submit_prompt("Thanks");
    assert_eq!(second.text, "Thanks");
    assert_eq!(second.backend_context, "ctx-1");
    assert_eq!(app.messages.len(), 3);
}

#[test]
fn without_editor_context_the_prompt_is_sent_as_typed() {
    let mut app = AppState::new("user", "gpt");
    let p = app.submit_prompt("Say hi");
    assert_eq!(p.text, "Say hi");
    assert!(p.backend_context.is_empty());
}
