use vstd::prelude::*;

use crate::bubble_list::message_view;
use crate::line::{blank, chars_of, display_width, is_blank, push_char, str_cols};
use crate::model::{Author, Message};
use crate::point::{point_max, point_min, Point};

verus! {

/// The widest of the three names a bubble can be labelled with, in display
/// columns: the user's, the model's, and "Oatmeal", seven columns wide.
pub open spec fn longest_label(username: Seq<char>, model: Seq<char>) -> nat {
    let oatmeal: nat = 7;
    let a = if str_cols(username) > oatmeal {
        str_cols(username)
    } else {
        oatmeal
    };
    if str_cols(model) > a {
        str_cols(model)
    } else {
        a
    }
}

/// Whether a frame `line_width` columns wide leaves room for a bubble with the
/// widest label: the width less its outer padding (a twenty-fifth, the
/// padding rounded down) must hold the label, eight columns of bubble padding
/// and the two borders.
pub fn is_line_width_sufficient(line_width: u16, username: &str, model: &str) -> (r: bool)
    ensures
        r == (line_width - line_width / 25 >= longest_label(username@, model@) + 10),
{
    let user_width = display_width(username);
    let model_width = display_width(model);
    let mut longest: usize = 7;
    if user_width > longest {
        longest = user_width;
    }
    if model_width > longest {
        longest = model_width;
    }
    let trimmed = (line_width - line_width / 25) as usize;
    longest <= trimmed && trimmed - longest >= 10
}

/// The selection from `start_point` to `end_point` in history rows (view rows
/// moved down by `position`), put in order; `None` when it starts in the
/// input area, the last `input_lines + 3` rows of a frame `frame_height` high.
pub open spec fn selected_region(
    position: usize,
    start_point: Point,
    end_point: Point,
    frame_height: u16,
    input_lines: usize,
) -> Option<(Point, Point)> {
    let s = point_min(start_point, end_point);
    let e = point_max(start_point, end_point);
    let start = Point { row: (s.row + position) as usize, column: s.column };
    let end = Point { row: (e.row + position) as usize, column: e.column };
    if (start.row as int) < position + frame_height - input_lines - 3 {
        Some((start, end))
    } else {
        None
    }
}

pub fn validate_selected_region(
    position: usize,
    start_point: Point,
    end_point: Point,
    frame_height: u16,
    input_lines: usize,
) -> (r: Option<(Point, Point)>)
    requires
        start_point.row + position <= usize::MAX,
        end_point.row + position <= usize::MAX,
    ensures
        r == selected_region(position, start_point, end_point, frame_height, input_lines),
{
    let start = Point::lesser(start_point, end_point).shift_row(position);
    let end = Point::greater(start_point, end_point).shift_row(position);
    let reserved: u128 = input_lines as u128 + 3;
    let limit: u128 = position as u128 + frame_height as u128;
    if limit > reserved && (start.row as u128) < limit - reserved {
        Some((start, end))
    } else {
        None
    }
}

/// A message is a slash command when its first character that is not blank
/// is `/`.
pub open spec fn is_command(t: Seq<char>) -> bool {
    exists|i: int| 0 <= i < t.len() && t[i] == '/' && forall|j: int| 0 <= j < i ==> is_blank(#[trigger] t[j])
}

pub fn is_slash_command(text: &str) -> (r: bool)
    ensures
        r == is_command(text@),
{
    let chars = chars_of(text);
    let mut i: usize = 0;
    while i < chars.len()
        invariant
            i <= chars@.len(),
            chars@ == text@,
            forall|j: int| 0 <= j < i ==> is_blank(#[trigger] chars@[j]),
        decreases chars@.len() - i,
    {
        if !blank(chars[i]) {
            if chars[i] == '/' {
                return true;
            }
            assert(forall|k: int|
                0 <= k < chars@.len() && chars@[k] == '/' && (forall|j: int| 0 <= j < k ==> is_blank(#[trigger] chars@[j]))
                    ==> k < i) by {
                assert forall|k: int|
                    0 <= k < chars@.len() && chars@[k] == '/' && (forall|j: int| 0 <= j < k ==> is_blank(#[trigger] chars@[j]))
                    implies k < i by {
                    if k > i {
                        assert(is_blank(chars@[i as int]));
                    }
                }
            }
            return false;
        }
        i = i + 1;
    }
    false
}

/// The prompt that `Ctrl-R` sends again: the last message of the user that
/// is not a slash command.
pub open spec fn is_prompt(m: (Author, Seq<char>)) -> bool {
    m.0 == Author::User && !is_command(m.1)
}

pub fn last_user_prompt(messages: &[Message]) -> (r: Option<usize>)
    ensures
        match r {
            Some(i) => i < messages@.len() && is_prompt(message_view(messages@[i as int]))
                && forall|j: int| i < j < messages@.len() ==> !is_prompt(message_view(#[trigger] messages@[j])),
            None => forall|j: int| 0 <= j < messages@.len() ==> !is_prompt(message_view(#[trigger] messages@[j])),
        },
{
    let mut i: usize = messages.len();
    while i > 0
        invariant
            i <= messages@.len(),
            forall|j: int| i <= j < messages@.len() ==> !is_prompt(message_view(#[trigger] messages@[j])),
        decreases i,
    {
        i = i - 1;
        let m = &messages[i];
        if m.author == Author::User && !is_slash_command(m.text.as_str()) {
            return Some(i);
        }
    }
    None
}

/// Pasted text with each carriage return made a line break.
pub open spec fn pasted(t: Seq<char>) -> Seq<char> {
    t.map_values(|c: char| if c == '\r' { '\n' } else { c })
}

pub fn normalize_paste(text: &str) -> (r: String)
    ensures
        r@ == pasted(text@),
{
    let chars = chars_of(text);
    let mut r = String::new();
    let mut i: usize = 0;
    while i < chars.len()
        invariant
            i <= chars@.len(),
            chars@ == text@,
            r@ == pasted(text@.take(i as int)),
        decreases chars@.len() - i,
    {
        let c = chars[i];
        push_char(&mut r, if c == '\r' { '\n' } else { c });
        i = i + 1;
        assert(r@ =~= pasted(text@.take(i as int)));
    }
    assert(text@.take(i as int) =~= text@);
    r
}

/// Whether typing on the input line `line` in a frame `max_width` columns
/// wide first breaks the line at its last word: its display width and a
/// margin of five columns reach the frame's width.
pub fn needs_line_break(line: &str, max_width: usize) -> (r: bool)
    ensures
        r == (str_cols(line@) + 5 >= max_width),
{
    let w = display_width(line);
    w >= max_width || max_width - w <= 5
}

/// The flags the event loop decides by.
#[derive(Clone, Copy, Debug, PartialEq, Eq, Structural)]
pub struct LoopState {
    pub waiting_for_backend: bool,
    pub exit_warning: bool,
}

/// An event as the loop's decisions see it.
#[derive(Clone, Copy, Debug, PartialEq, Eq, Structural)]
pub enum Control {
    /// A whole message from the backend, an answer or an error.
    BackendMessage,
    /// A piece of a streamed answer; `true` on the last one.
    BackendResponse(bool),
    /// A key for the input; `true` for the null key sent after `Ctrl-C`.
    KeyChar(bool),
    CtrlC,
    CtrlO,
    /// `true` when there is a prompt to send again.
    CtrlR(bool),
    /// Enter, with whether the input is empty and whether it is a command.
    Enter(bool, bool),
    Paste,
    Tick,
    Scroll,
    Selection,
}

/// What the loop does with an event.
#[derive(Clone, Copy, Debug, PartialEq, Eq, Structural)]
pub enum Decision {
    Ignore,
    Apply,
    SendRequest,
    RunCommand,
    SendAbort,
    WarnExit,
    Quit,
}

pub open spec fn step(s: LoopState, c: Control) -> (LoopState, Decision) {
    let w = s.waiting_for_backend;
    match c {
        Control::BackendMessage => (LoopState { waiting_for_backend: false, ..s }, Decision::Apply),
        Control::BackendResponse(done) => if w {
            (LoopState { waiting_for_backend: !done, ..s }, Decision::Apply)
        } else {
            (s, Decision::Ignore)
        },
        Control::KeyChar(null) => if w {
            (s, Decision::Ignore)
        } else {
            (LoopState { exit_warning: s.exit_warning && null, ..s }, Decision::Apply)
        },
        Control::CtrlC => if w {
            (LoopState { waiting_for_backend: false, ..s }, Decision::SendAbort)
        } else if !s.exit_warning {
            (LoopState { exit_warning: true, ..s }, Decision::WarnExit)
        } else {
            (s, Decision::Quit)
        },
        Control::CtrlO | Control::Paste => if w {
            (s, Decision::Ignore)
        } else {
            (LoopState { exit_warning: false, ..s }, Decision::Apply)
        },
        Control::CtrlR(has_prompt) => if w || !has_prompt {
            (s, Decision::Ignore)
        } else {
            (LoopState { waiting_for_backend: true, ..s }, Decision::SendRequest)
        },
        Control::Enter(empty, command) => if w || empty {
            (s, Decision::Ignore)
        } else if command {
            (s, Decision::RunCommand)
        } else {
            (LoopState { waiting_for_backend: true, ..s }, Decision::SendRequest)
        },
        Control::Tick | Control::Scroll | Control::Selection => (s, Decision::Apply),
    }
}

impl LoopState {
    pub fn new() -> (r: LoopState)
        ensures
            !r.waiting_for_backend,
            !r.exit_warning,
    {
        LoopState { waiting_for_backend: false, exit_warning: false }
    }

    /// Decides what to do with `c` and updates the flags.
    pub fn handle(&mut self, c: Control) -> (r: Decision)
        ensures
            (*final(self), r) == step(*old(self), c),
    {
        let w = self.waiting_for_backend;
        match c {
            Control::BackendMessage => {
                self.waiting_for_backend = false;
                Decision::Apply
            },
            Control::BackendResponse(done) => if w {
                self.waiting_for_backend = !done;
                Decision::Apply
            } else {
                Decision::Ignore
            },
            Control::KeyChar(null) => if w {
                Decision::Ignore
            } else {
                self.exit_warning = self.exit_warning && null;
                Decision::Apply
            },
            Control::CtrlC => if w {
                self.waiting_for_backend = false;
                Decision::SendAbort
            } else if !self.exit_warning {
                self.exit_warning = true;
                Decision::WarnExit
            } else {
                Decision::Quit
            },
            Control::CtrlO | Control::Paste => if w {
                Decision::Ignore
            } else {
                self.exit_warning = false;
                Decision::Apply
            },
            Control::CtrlR(has_prompt) => if w || !has_prompt {
                Decision::Ignore
            } else {
                self.waiting_for_backend = true;
                Decision::SendRequest
            },
            Control::Enter(empty, command) => if w || empty {
                Decision::Ignore
            } else if command {
                Decision::RunCommand
            } else {
                self.waiting_for_backend = true;
                Decision::SendRequest
            },
            Control::Tick | Control::Scroll | Control::Selection => Decision::Apply,
        }
    }
}

/// Whether `c` ends the request in flight: the last piece of its answer, a
/// whole message from the backend, or an abort.
pub open spec fn ends_request(s: LoopState, c: Control) -> bool {
    s.waiting_for_backend && (c == Control::BackendMessage || c == Control::BackendResponse(true)
        || c == Control::CtrlC)
}

/// The flags after `cs`, with the number of requests sent and of requests
/// ended on the way.
pub open spec fn run(s: LoopState, cs: Seq<Control>) -> (LoopState, nat, nat)
    decreases cs.len(),
{
    if cs.len() == 0 {
        (s, 0, 0)
    } else {
        let (t, sent, ended) = run(s, cs.drop_last());
        let c = cs.last();
        let (u, d) = step(t, c);
        (
            u,
            if d == Decision::SendRequest {
                sent + 1
            } else {
                sent
            },
            if ends_request(t, c) {
                ended + 1
            } else {
                ended
            },
        )
    }
}

/// At most one request is in flight: from an idle loop, whatever the events,
/// every request sent but one has ended, and that one is in flight exactly
/// while the loop waits for the backend. A request is sent only while none
/// is in flight.
pub proof fn lemma_one_request_at_a_time(s: LoopState, cs: Seq<Control>)
    requires
        !s.waiting_for_backend,
    ensures
        run(s, cs).1 == run(s, cs).2 + if run(s, cs).0.waiting_for_backend {
            1nat
        } else {
            0nat
        },
        forall|c: Control|
            #[trigger] step(run(s, cs).0, c).1 == Decision::SendRequest ==> !run(s, cs).0.waiting_for_backend,
    decreases cs.len(),
{
    if cs.len() > 0 {
        lemma_one_request_at_a_time(s, cs.drop_last());
    }
}

/// The scroll position of the history, in rows, with what bounds it.
pub struct Scroll {
    pub position: usize,
    pub lines_len: usize,
    pub viewport_height: usize,
}

/// The last position: the history's last row at the bottom of the view.
pub open spec fn max_position(lines_len: usize, viewport_height: usize) -> usize {
    if lines_len > viewport_height {
        (lines_len - viewport_height) as usize
    } else {
        0
    }
}

impl Scroll {
    pub open spec fn wf(&self) -> bool {
        self.position <= max_position(self.lines_len, self.viewport_height)
    }

    pub fn new() -> (r: Scroll)
        ensures
            r.wf(),
            r.position == 0,
            r.lines_len == 0,
            r.viewport_height == 0,
    {
        Scroll { position: 0, lines_len: 0, viewport_height: 0 }
    }

    fn last(&self) -> (r: usize)
        ensures
            r == max_position(self.lines_len, self.viewport_height),
    {
        if self.lines_len > self.viewport_height {
            self.lines_len - self.viewport_height
        } else {
            0
        }
    }

    /// New bounds; the position is kept where it still fits, else moved to
    /// the last one. With `follow` it moves to the last one in any case.
    pub fn set_bounds(&mut self, lines_len: usize, viewport_height: usize, follow: bool)
        ensures
            final(self).wf(),
            final(self).lines_len == lines_len,
            final(self).viewport_height == viewport_height,
            final(self).position == if follow || old(self).position > max_position(lines_len, viewport_height) {
                max_position(lines_len, viewport_height)
            } else {
                old(self).position
            },
    {
        self.lines_len = lines_len;
        self.viewport_height = viewport_height;
        let last = self.last();
        if follow || self.position > last {
            self.position = last;
        }
    }

    /// Whether the view shows the history's last row.
    pub fn at_bottom(&self) -> (r: bool)
        ensures
            r == (self.position >= max_position(self.lines_len, self.viewport_height)),
    {
        self.position >= self.last()
    }

    /// Moves down `n` rows, stopping at the last position.
    pub fn down_by(&mut self, n: usize)
        requires
            old(self).wf(),
        ensures
            final(self).wf(),
            final(self).lines_len == old(self).lines_len,
            final(self).viewport_height == old(self).viewport_height,
            final(self).position == if old(self).position + n > max_position(
                old(self).lines_len,
                old(self).viewport_height,
            ) {
                max_position(old(self).lines_len, old(self).viewport_height) as int
            } else {
                old(self).position + n
            },
    {
        let last = self.last();
        if n > last - self.position {
            self.position = last;
        } else {
            self.position = self.position + n;
        }
    }

    /// Moves up `n` rows, stopping at the top.
    pub fn up_by(&mut self, n: usize)
        requires
            old(self).wf(),
        ensures
            final(self).wf(),
            final(self).lines_len == old(self).lines_len,
            final(self).viewport_height == old(self).viewport_height,
            final(self).position == if old(self).position >= n {
                old(self).position - n
            } else {
                0
            },
    {
        if self.position >= n {
            self.position = self.position - n;
        } else {
            self.position = 0;
        }
    }
}

/// The conversation after a piece `text` of an answer by `author`: it grows
/// the last message when that one is the model's, else it starts a new one.
pub open spec fn with_response(msgs: Seq<(Author, Seq<char>)>, author: Author, text: Seq<char>) -> Seq<(Author, Seq<char>)> {
    if msgs.len() > 0 && msgs.last().0 == Author::Model {
        msgs.update(msgs.len() - 1, (msgs.last().0, msgs.last().1 + text))
    } else {
        msgs.push((author, text))
    }
}

pub fn apply_response(messages: &mut Vec<Message>, author: Author, text: &str)
    ensures
        crate::bubble_list::messages_view(final(messages)@) == with_response(
            crate::bubble_list::messages_view(old(messages)@),
            author,
            text@,
        ),
{
    let n = messages.len();
    if n > 0 && messages[n - 1].author == Author::Model {
        let ghost before = messages@;
        messages[n - 1].text.append(text);
        assert(crate::bubble_list::messages_view(messages@) =~= crate::bubble_list::messages_view(before).update(
            n - 1,
            (Author::Model, before[n - 1].text@ + text@),
        ));
    } else {
        let ghost before = messages@;
        messages.push(Message::new(author, text));
        assert(crate::bubble_list::messages_view(messages@) =~= crate::bubble_list::messages_view(before).push((author, text@)));
    }
}

} // verus!
