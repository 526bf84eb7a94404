use oatmeal::bubble_list::BubbleList;
use oatmeal::model::{Author, Message};
use oatmeal::point::Point;
use oatmeal::ui::{
    apply_response, is_line_width_sufficient, is_slash_command, last_user_prompt, needs_line_break,
    normalize_paste, validate_selected_region, Control, Decision, LoopState, Scroll,
};

#[test]
fn narrow_frame_shows_only_the_placeholder() {
    assert!(!is_line_width_sufficient(10, "user", "gpt"));
    assert!(is_line_width_sufficient(80, "user", "gpt"));
    // seven for "Oatmeal" plus ten: the width less a twenty-fifth must reach 17
    assert!(is_line_width_sufficient(17, "user", "gpt"));
    assert!(!is_line_width_sufficient(16, "user", "gpt"));
    assert!(!is_line_width_sufficient(25, "a-very-long-user-name", "gpt"));
    assert!(is_line_width_sufficient(35, "a-very-long-user-name", "gpt"));
    // six wide characters take twelve columns: 22 needed, 22 - 0 = 22 wide
    assert!(is_line_width_sufficient(22, "日本語日本語", "gpt"));
    assert!(!is_line_width_sufficient(21, "日本語日本語", "gpt"));
}

#[test]
fn region_is_ordered_shifted_and_kept_out_of_the_input() {
    let r = validate_selected_region(10, Point::new(20, 2), Point::new(4, 1), 30, 1);
    assert_eq!(r, Some((Point::new(4, 11), Point::new(20, 12))));
    // bottom edge is 10 + 30 - 1 - 3 = 36
    assert_eq!(validate_selected_region(10, Point::new(0, 26), Point::new(0, 27), 30, 1), None);
    assert!(validate_selected_region(10, Point::new(0, 25), Point::new(0, 27), 30, 1).is_some());
    assert_eq!(validate_selected_region(0, Point::new(0, 0), Point::new(0, 0), 2, 1), None);
}

#[test]
fn selection_scenario_yanks_two_rows() {
    let messages = vec![Message::new(Author::Oatmeal, "hello world\nsecond line")];
    let mut list = BubbleList::new("user", "gpt");
    list.set_messages(&messages, 80);
    let (start, end) = validate_selected_region(0, Point::new(4, 1), Point::new(20, 2), 30, 1).unwrap();
    assert_eq!(list.yank_selected_lines(&start, &end), "Oatmeal\nhello world");
}

#[test]
fn streaming_grows_one_tail_message() {
    let mut messages = vec![Message::new(Author::User, "Say hi")];
    apply_response(&mut messages, Author::Model, "A");
    apply_response(&mut messages, Author::Model, "B");
    assert_eq!(messages.len(), 2);
    assert_eq!(messages[1].author, Author::Model);
    assert_eq!(messages[1].text, "AB");
    apply_response(&mut messages, Author::Model, "");
    assert_eq!(messages[1].text, "AB");
}

#[test]
fn basic_chat_gives_one_answer() {
    let mut state = LoopState::new();
    let mut messages = vec![Message::new(Author::User, "Say hi")];
    assert_eq!(state.handle(Control::Enter(false, false)), Decision::SendRequest);
    for (piece, done) in [("Hello ", false), ("World", false), ("", true)] {
        assert_eq!(state.handle(Control::BackendResponse(done)), Decision::Apply);
        apply_response(&mut messages, Author::Model, piece);
    }
    assert!(!state.waiting_for_backend);
    assert_eq!(messages.len(), 2);
    assert_eq!(messages[1].text, "Hello World");
}

#[test]
fn abort_mid_stream_drops_the_rest() {
    let mut state = LoopState::new();
    assert_eq!(state.handle(Control::Enter(false, false)), Decision::SendRequest);
    assert_eq!(state.handle(Control::Enter(false, false)), Decision::Ignore);
    assert_eq!(state.handle(Control::BackendResponse(false)), Decision::Apply);
    assert_eq!(state.handle(Control::CtrlC), Decision::SendAbort);
    assert!(!state.waiting_for_backend);
    assert_eq!(state.handle(Control::BackendResponse(false)), Decision::Ignore);
    assert_eq!(state.handle(Control::BackendResponse(true)), Decision::Ignore);
    assert_eq!(state.handle(Control::Enter(false, false)), Decision::SendRequest);
    assert!(state.waiting_for_backend);
}

#[test]
fn ctrl_c_warns_before_quitting() {
    let mut state = LoopState::new();
    assert_eq!(state.handle(Control::CtrlC), Decision::WarnExit);
    assert!(state.exit_warning);
    assert_eq!(state.handle(Control::KeyChar(true)), Decision::Apply);
    assert!(state.exit_warning);
    assert_eq!(state.handle(Control::CtrlC), Decision::Quit);
    assert_eq!(state.handle(Control::KeyChar(false)), Decision::Apply);
    assert!(!state.exit_warning);
    assert_eq!(state.handle(Control::Enter(true, false)), Decision::Ignore);
    assert_eq!(state.handle(Control::Enter(false, true)), Decision::RunCommand);
    assert!(!state.waiting_for_backend);
    assert_eq!(state.handle(Control::CtrlR(false)), Decision::Ignore);
    assert_eq!(state.handle(Control::CtrlR(true)), Decision::SendRequest);
    assert_eq!(state.handle(Control::KeyChar(false)), Decision::Ignore);
    assert_eq!(state.handle(Control::BackendMessage), Decision::Apply);
    assert!(!state.waiting_for_backend);
}

#[test]
fn one_request_is_in_flight_at_most() {
    let mut state = LoopState::new();
    let mut in_flight = 0;
    let script = [
        Control::Enter(false, false),
        Control::Enter(false, false),
        Control::CtrlR(true),
        Control::BackendResponse(false),
        Control::BackendResponse(true),
        Control::CtrlR(true),
        Control::CtrlC,
        Control::Enter(false, false),
        Control::BackendMessage,
    ];
    for c in script {
        let was_waiting = state.waiting_for_backend;
        match state.handle(c) {
            Decision::SendRequest => in_flight += 1,
            _ => {},
        }
        if was_waiting && !state.waiting_for_backend {
            in_flight -= 1;
        }
        assert!(in_flight <= 1);
        assert_eq!(in_flight == 1, state.waiting_for_backend);
    }
}

#[test]
fn ctrl_r_picks_the_last_prompt() {
    let messages = vec![
        Message::new(Author::User, "first"),
        Message::new(Author::Model, "answer"),
        Message::new(Author::User, "second"),
        Message::new(Author::User, "  /help"),
        Message::new(Author::Oatmeal, "help text"),
    ];
    assert_eq!(last_user_prompt(&messages), Some(2));
    assert_eq!(last_user_prompt(&messages[3..]), None);
    assert!(is_slash_command(" \t/quit"));
    assert!(!is_slash_command("a /quit"));
    assert!(!is_slash_command(""));
}

#[test]
fn paste_turns_carriage_returns_into_breaks() {
    assert_eq!(normalize_paste("a\r\nb\rc"), "a\n\nb\nc");
    assert_eq!(normalize_paste(""), "");
}

#[test]
fn long_input_lines_break_before_the_edge() {
    assert!(needs_line_break(&"a".repeat(75), 80));
    assert!(!needs_line_break(&"a".repeat(74), 80));
    assert!(needs_line_break(&"a".repeat(90), 80));
    // 38 wide characters take 76 columns
    assert!(needs_line_break(&"日".repeat(38), 80));
    assert!(!needs_line_break(&"日".repeat(37), 80));
}

#[test]
fn scroll_stays_within_the_history() {
    let mut scroll = Scroll::new();
    scroll.set_bounds(50, 20, true);
    assert_eq!(scroll.position, 30);
    assert!(scroll.at_bottom());
    scroll.down_by(5);
    assert_eq!(scroll.position, 30);
    scroll.up_by(25);
    assert_eq!(scroll.position, 5);
    scroll.up_by(25);
    assert_eq!(scroll.position, 0);
    scroll.set_bounds(10, 20, false);
    assert_eq!(scroll.position, 0);
    scroll.down_by(3);
    assert_eq!(scroll.position, 0);
}

#[test]
fn labels_come_from_the_names_given() {
    assert_eq!(Author::User.label("ann", "gpt"), "ann");
    assert_eq!(Author::Oatmeal.label("ann", "gpt"), "Oatmeal");
    assert_eq!(Author::Model.label("ann", "gpt"), "gpt");
}
