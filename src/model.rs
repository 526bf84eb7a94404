use vstd::prelude::*;

use crate::point::Point;

verus! {

/// Who wrote a message.
#[derive(Clone, Copy, Debug, PartialEq, Eq, Structural)]
pub enum Author {
    User,
    Oatmeal,
    Model,
}

/// The name shown above a message: the configured user name, the fixed
/// assistant name, or the configured model name.
pub open spec fn label_of(author: Author, username: Seq<char>, model: Seq<char>) -> Seq<char> {
    match author {
        Author::User => username,
        Author::Oatmeal => "Oatmeal"@,
        Author::Model => model,
    }
}

impl Author {
    pub fn label(&self, username: &str, model: &str) -> (r: String)
        ensures
            r@ == label_of(*self, username@, model@),
    {
        match self {
            Author::User => username.to_owned(),
            Author::Oatmeal => "Oatmeal".to_owned(),
            Author::Model => model.to_owned(),
        }
    }
}

/// One message of the conversation.
pub struct Message {
    pub author: Author,
    pub text: String,
}

impl Message {
    pub fn new(author: Author, text: &str) -> (r: Message)
        ensures
            r.author == author,
            r.text@ == text@,
    {
        Message { author, text: text.to_owned() }
    }
}

/// What the backend sends back: a piece of the answer, and on the last piece
/// (`done`) the context to hand back with the next prompt.
pub struct BackendResponse {
    pub author: Author,
    pub text: String,
    pub done: bool,
    pub context: Option<String>,
}

/// A prompt for the backend, with the context it handed back last time.
pub struct BackendPrompt {
    pub text: String,
    pub backend_context: String,
}

/// How code sent to the editor is applied.
#[derive(Clone, Copy, Debug, PartialEq, Eq, Structural)]
pub enum AcceptType {
    Append,
    Replace,
}

/// What the event loop asks of the workers.
pub enum Action {
    BackendRequest(BackendPrompt),
    BackendAbort,
    AcceptCodeBlock(String, String, AcceptType),
}

/// A key as the text area knows it.
#[derive(Clone, Copy, Debug, PartialEq, Eq, Structural)]
pub enum Key {
    Char(char),
    F(u8),
    Backspace,
    Enter,
    Left,
    Right,
    Up,
    Down,
    Tab,
    Delete,
    Home,
    End,
    PageUp,
    PageDown,
    Esc,
    Copy,
    Cut,
    Paste,
    MouseScrollDown,
    MouseScrollUp,
    Null,
}

/// A key press with its modifiers.
#[derive(Clone, Copy, Debug, PartialEq, Eq, Structural)]
pub struct KeyInput {
    pub key: Key,
    pub ctrl: bool,
    pub alt: bool,
    pub shift: bool,
}

/// What the event loop consumes.
pub enum Event {
    BackendMessage(Message),
    BackendPromptResponse(BackendResponse),
    KeyboardCharInput(KeyInput),
    KeyboardCTRLC,
    KeyboardCTRLO,
    KeyboardCTRLR,
    KeyboardEnter,
    KeyboardPaste(String),
    UITick,
    UIScrollDown,
    UIScrollUp,
    UIScrollPageDown,
    UIScrollPageUp,
    Select(Point, Point),
    Highlight(Point, Point),
}

} // verus!
