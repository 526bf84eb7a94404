use vstd::prelude::*;

use crate::bubble_list::{kept, message_view, messages_view, rebuilt, BubbleList, EntryView};
use crate::line::push_char;
use crate::model::{Author, BackendPrompt, BackendResponse, Message};
use crate::ui::{apply_response, max_position, with_response, Scroll};

verus! {

/// The conversation and its layout, as the event loop holds them.
pub struct AppState {
    pub messages: Vec<Message>,
    pub bubble_list: BubbleList,
    pub scroll: Scroll,
    pub backend_context: String,
    pub editor_context: String,
    pub last_known_width: usize,
    pub last_known_height: usize,
}

/// The entries after laying out `msgs` at `width` over the list's entries.
pub open spec fn relaid(list: BubbleList, msgs: Seq<(Author, Seq<char>)>, width: usize) -> Seq<EntryView> {
    rebuilt(
        kept(list.entries(), list.line_width, width),
        msgs,
        width as int,
        list.username@,
        list.model_name@,
        msgs.len(),
    )
}

/// The scroll position after the history grows to `lines_len` rows: at the
/// bottom if it was there before, else where it was as far as it still fits.
pub open spec fn followed(old: Scroll, lines_len: usize, height: usize, follow: bool) -> usize {
    if follow || old.position > max_position(lines_len, height) {
        max_position(lines_len, height)
    } else {
        old.position
    }
}

/// The text sent for a prompt `text`: on the first turn (no context from
/// the backend yet) the editor's context comes first, then a blank line.
pub open spec fn prompt_text(text: Seq<char>, backend_context: Seq<char>, editor_context: Seq<char>) -> Seq<char> {
    if backend_context.len() == 0 && editor_context.len() > 0 {
        editor_context + seq!['\n', '\n'] + text
    } else {
        text
    }
}

impl AppState {
    /// The layout and the scroll bounds agree with the conversation.
    pub open spec fn wf(&self) -> bool {
        &&& self.bubble_list.wf()
        &&& self.scroll.wf()
        &&& self.scroll.lines_len == self.bubble_list.lines_len
        &&& self.scroll.viewport_height == self.last_known_height
    }

    pub fn new(username: &str, model_name: &str) -> (r: AppState)
        ensures
            r.wf(),
            r.messages@.len() == 0,
            r.bubble_list.entries().len() == 0,
            r.bubble_list.username@ == username@,
            r.bubble_list.model_name@ == model_name@,
            r.backend_context@.len() == 0,
            r.editor_context@.len() == 0,
            r.last_known_width == 0,
            r.last_known_height == 0,
    {
        AppState {
            messages: Vec::new(),
            bubble_list: BubbleList::new(username, model_name),
            scroll: Scroll::new(),
            backend_context: String::new(),
            editor_context: String::new(),
            last_known_width: 0,
            last_known_height: 0,
        }
    }

    fn relayout(&mut self, follow: bool)
        requires
            old(self).bubble_list.wf(),
        ensures
            final(self).wf(),
            final(self).bubble_list.entries() == relaid(
                old(self).bubble_list,
                messages_view(old(self).messages@),
                old(self).last_known_width,
            ),
            final(self).bubble_list.line_width == old(self).last_known_width,
            final(self).scroll.position == followed(
                old(self).scroll,
                final(self).bubble_list.lines_len,
                old(self).last_known_height,
                follow,
            ),
            final(self).messages == old(self).messages,
            final(self).backend_context == old(self).backend_context,
            final(self).editor_context == old(self).editor_context,
            final(self).last_known_width == old(self).last_known_width,
            final(self).last_known_height == old(self).last_known_height,
            final(self).bubble_list.username == old(self).bubble_list.username,
            final(self).bubble_list.model_name == old(self).bubble_list.model_name,
    {
        self.bubble_list.set_messages(self.messages.as_slice(), self.last_known_width);
        let len = self.bubble_list.len();
        self.scroll.set_bounds(len, self.last_known_height, follow);
    }

    /// Appends `message` and lays the conversation out again; the view
    /// follows the history's end if it showed it before.
    pub fn add_message(&mut self, message: Message)
        requires
            old(self).wf(),
        ensures
            final(self).wf(),
            messages_view(final(self).messages@) == messages_view(old(self).messages@).push(
                message_view(message),
            ),
            final(self).bubble_list.entries() == relaid(
                old(self).bubble_list,
                messages_view(final(self).messages@),
                old(self).last_known_width,
            ),
            final(self).scroll.position == followed(
                old(self).scroll,
                final(self).bubble_list.lines_len,
                old(self).last_known_height,
                old(self).scroll.position >= max_position(old(self).scroll.lines_len, old(self).scroll.viewport_height),
            ),
            final(self).backend_context == old(self).backend_context,
            final(self).editor_context == old(self).editor_context,
            final(self).last_known_width == old(self).last_known_width,
            final(self).last_known_height == old(self).last_known_height,
    {
        let follow = self.scroll.at_bottom();
        let ghost before = self.messages@;
        self.messages.push(message);
        assert(messages_view(self.messages@) =~= messages_view(before).push(message_view(message)));
        self.relayout(follow);
    }

    /// Takes in a piece of the answer: grows the model's last message or
    /// starts one, lays the conversation out again, and on the last piece
    /// keeps the context the backend handed back.
    pub fn handle_backend_response(&mut self, response: BackendResponse)
        requires
            old(self).wf(),
        ensures
            final(self).wf(),
            messages_view(final(self).messages@) == with_response(
                messages_view(old(self).messages@),
                response.author,
                response.text@,
            ),
            final(self).bubble_list.entries() == relaid(
                old(self).bubble_list,
                messages_view(final(self).messages@),
                old(self).last_known_width,
            ),
            final(self).backend_context == (match response.context {
                Some(c) => if response.done {
                    c
                } else {
                    old(self).backend_context
                },
                None => old(self).backend_context,
            }),
            final(self).last_known_width == old(self).last_known_width,
            final(self).last_known_height == old(self).last_known_height,
    {
        let follow = self.scroll.at_bottom();
        apply_response(&mut self.messages, response.author, response.text.as_str());
        self.relayout(follow);
        if response.done {
            match response.context {
                Some(c) => {
                    self.backend_context = c;
                },
                None => {},
            }
        }
    }

    /// Takes in the history area's new size and lays the conversation out
    /// for it.
    pub fn set_rect(&mut self, width: usize, height: usize)
        requires
            old(self).wf(),
        ensures
            final(self).wf(),
            final(self).last_known_width == width,
            final(self).last_known_height == height,
            final(self).bubble_list.entries() == relaid(
                old(self).bubble_list,
                messages_view(old(self).messages@),
                width,
            ),
            final(self).bubble_list.line_width == width,
            final(self).messages == old(self).messages,
            final(self).backend_context == old(self).backend_context,
    {
        self.last_known_width = width;
        self.last_known_height = height;
        self.relayout(false);
    }

    /// Adds the user's prompt `text` to the conversation and returns what to
    /// send for it: the prompt with the context the backend handed back.
    pub fn submit_prompt(&mut self, text: &str) -> (r: BackendPrompt)
        requires
            old(self).wf(),
        ensures
            final(self).wf(),
            messages_view(final(self).messages@) == messages_view(old(self).messages@).push(
                (Author::User, text@),
            ),
            final(self).bubble_list.entries() == relaid(
                old(self).bubble_list,
                messages_view(final(self).messages@),
                old(self).last_known_width,
            ),
            r.text@ == prompt_text(text@, old(self).backend_context@, old(self).editor_context@),
            r.backend_context@ == old(self).backend_context@,
            final(self).backend_context == old(self).backend_context,
            final(self).editor_context == old(self).editor_context,
    {
        self.add_message(Message::new(Author::User, text));
        let mut prompt = String::new();
        if self.backend_context.as_str().is_empty() && !self.editor_context.as_str().is_empty() {
            prompt.append(self.editor_context.as_str());
            push_char(&mut prompt, '\n');
            push_char(&mut prompt, '\n');
        }
        prompt.append(text);
        assert(prompt@ =~= prompt_text(text@, self.backend_context@, self.editor_context@));
        BackendPrompt { text: prompt, backend_context: self.backend_context.clone() }
    }
}

/// Once the backend has handed back a context, a prompt goes out exactly as
/// typed: with that context, the backend gets its own transcript back and
/// the new turn after it.
pub proof fn lemma_later_turns_send_text_as_typed(
    text: Seq<char>,
    backend_context: Seq<char>,
    editor_context: Seq<char>,
)
    requires
        backend_context.len() > 0,
    ensures
        prompt_text(text, backend_context, editor_context) == text,
{
}

} // verus!
