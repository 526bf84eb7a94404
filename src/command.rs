use vstd::prelude::*;

use crate::bubble_list::messages_view;
use crate::codeblock::{all_blocks, code_block};
use crate::line::{blank, chars_of, is_blank};
use crate::model::{AcceptType, Message};

verus! {

/// A slash command typed in the input.
#[derive(Debug, PartialEq, Eq)]
pub enum SlashCommand {
    Quit,
    Help,
    ModelList,
    Model(String),
    Append(usize),
    Replace(usize),
    Copy(usize),
}

/// A slash command as the contracts speak of it.
pub enum CommandView {
    Quit,
    Help,
    ModelList,
    Model(Seq<char>),
    Append(usize),
    Replace(usize),
    Copy(usize),
}

impl View for SlashCommand {
    type V = CommandView;

    open spec fn view(&self) -> CommandView {
        match self {
            SlashCommand::Quit => CommandView::Quit,
            SlashCommand::Help => CommandView::Help,
            SlashCommand::ModelList => CommandView::ModelList,
            SlashCommand::Model(s) => CommandView::Model(s@),
            SlashCommand::Append(n) => CommandView::Append(*n),
            SlashCommand::Replace(n) => CommandView::Replace(*n),
            SlashCommand::Copy(n) => CommandView::Copy(*n),
        }
    }
}

/// The first index from `from` on that holds no blank, or the length.
pub open spec fn next_word(s: Seq<char>, from: int) -> int
    decreases s.len() - from,
{
    if from < 0 || from >= s.len() {
        s.len() as int
    } else if !is_blank(s[from]) {
        from
    } else {
        next_word(s, from + 1)
    }
}

/// The first index from `from` on that holds a blank, or the length.
pub open spec fn word_end(s: Seq<char>, from: int) -> int
    decreases s.len() - from,
{
    if from < 0 || from >= s.len() {
        s.len() as int
    } else if is_blank(s[from]) {
        from
    } else {
        word_end(s, from + 1)
    }
}

/// The end of `s[lo..hi]` once its trailing blanks are cut.
pub open spec fn trim_end(s: Seq<char>, lo: int, hi: int) -> int
    decreases hi - lo,
{
    if hi <= lo {
        lo
    } else if !is_blank(s[hi - 1]) {
        hi
    } else {
        trim_end(s, lo, hi - 1)
    }
}

pub open spec fn is_digit(c: char) -> bool {
    '0' <= c && c <= '9'
}

pub open spec fn digit_value(c: char) -> nat {
    (c as u32 - '0' as u32) as nat
}

/// The number that the digits of `s` write in decimal.
pub open spec fn decimal_value(s: Seq<char>) -> nat
    decreases s.len(),
{
    if s.len() == 0 {
        0
    } else {
        decimal_value(s.drop_last()) * 10 + digit_value(s.last())
    }
}

/// `s` written as a decimal number that fits a `usize`.
pub open spec fn number_of(s: Seq<char>) -> Option<usize> {
    if s.len() > 0 && (forall|i: int| 0 <= i < s.len() ==> is_digit(#[trigger] s[i])) && decimal_value(s)
        <= usize::MAX {
        Some(decimal_value(s) as usize)
    } else {
        None
    }
}

/// How `t` reads as a command (blanks, `/`, a name, blanks, an argument):
/// the index of its `/`, its name, and its argument without the blanks
/// around it. `None` when the first character that is not blank is no `/`.
pub open spec fn command_of(t: Seq<char>) -> Option<(int, Seq<char>, Seq<char>)> {
    let i = next_word(t, 0);
    if i < t.len() && t[i] == '/' {
        let k = word_end(t, i + 1);
        let a = next_word(t, k);
        let e = trim_end(t, a, t.len() as int);
        Some((i, t.subrange(i + 1, k), t.subrange(a, e)))
    } else {
        None
    }
}

/// The command that `t` spells. `None` when `t` is no command, the name is
/// unknown, or the argument is missing, or is no number where one is needed.
pub open spec fn parsed(t: Seq<char>) -> Option<CommandView> {
    match command_of(t) {
        None => None,
        Some((_, name, arg)) => if name == "quit"@ {
            Some(CommandView::Quit)
        } else if name == "help"@ {
            Some(CommandView::Help)
        } else if name == "modellist"@ {
            Some(CommandView::ModelList)
        } else if name == "model"@ {
            if arg.len() > 0 {
                Some(CommandView::Model(arg))
            } else {
                None
            }
        } else if name == "append"@ || name == "replace"@ || name == "copy"@ {
            match number_of(arg) {
                Some(n) => Some(
                    if name == "append"@ {
                        CommandView::Append(n)
                    } else if name == "replace"@ {
                        CommandView::Replace(n)
                    } else {
                        CommandView::Copy(n)
                    },
                ),
                None => None,
            }
        } else {
            None
        },
    }
}

fn next_word_from(s: &Vec<char>, from: usize) -> (r: usize)
    ensures
        r as int == next_word(s@, from as int),
        r <= s@.len() || from > s@.len(),
{
    let mut i = from;
    while i < s.len() && blank(s[i])
        invariant
            from <= i,
            next_word(s@, i as int) == next_word(s@, from as int),
            i <= s@.len() || i == from,
        decreases s@.len() - i,
    {
        i = i + 1;
    }
    if i >= s.len() {
        s.len()
    } else {
        i
    }
}

fn word_end_from(s: &Vec<char>, from: usize) -> (r: usize)
    ensures
        r as int == word_end(s@, from as int),
{
    let mut i = from;
    while i < s.len() && !blank(s[i])
        invariant
            from <= i,
            word_end(s@, i as int) == word_end(s@, from as int),
        decreases s@.len() - i,
    {
        i = i + 1;
    }
    if i >= s.len() {
        s.len()
    } else {
        i
    }
}

fn trim_end_of(s: &Vec<char>, lo: usize, hi: usize) -> (r: usize)
    requires
        hi <= s@.len(),
    ensures
        r as int == trim_end(s@, lo as int, hi as int),
{
    let mut e = hi;
    while e > lo && blank(s[e - 1])
        invariant
            e <= hi,
            hi <= s@.len(),
            trim_end(s@, lo as int, e as int) == trim_end(s@, lo as int, hi as int),
        decreases e,
    {
        e = e - 1;
    }
    if e <= lo {
        lo
    } else {
        e
    }
}

fn same_word(s: &Vec<char>, lo: usize, hi: usize, w: &str) -> (r: bool)
    requires
        lo <= hi <= s@.len(),
    ensures
        r == (s@.subrange(lo as int, hi as int) == w@),
{
    let wc = chars_of(w);
    if hi - lo != wc.len() {
        return false;
    }
    let mut i: usize = 0;
    while i < wc.len()
        invariant
            hi - lo == wc@.len(),
            lo <= hi <= s@.len(),
            i <= wc@.len(),
            wc@ == w@,
            forall|k: int| 0 <= k < i ==> s@[lo + k] == wc@[k],
        decreases wc@.len() - i,
    {
        if s[lo + i] != wc[i] {
            assert(s@.subrange(lo as int, hi as int)[i as int] != w@[i as int]);
            return false;
        }
        i = i + 1;
    }
    assert(s@.subrange(lo as int, hi as int) =~= w@);
    true
}

proof fn lemma_decimal_grows(s: Seq<char>, i: int)
    requires
        0 <= i <= s.len(),
    ensures
        decimal_value(s.take(i)) <= decimal_value(s),
    decreases s.len(),
{
    if i < s.len() {
        lemma_decimal_grows(s.drop_last(), i);
        assert(s.drop_last().take(i) =~= s.take(i));
    } else {
        assert(s.take(i) =~= s);
    }
}

fn number_in(s: &Vec<char>, lo: usize, hi: usize) -> (r: Option<usize>)
    requires
        lo <= hi <= s@.len(),
    ensures
        r == number_of(s@.subrange(lo as int, hi as int)),
{
    let ghost sub = s@.subrange(lo as int, hi as int);
    if lo == hi {
        return None;
    }
    let mut acc: usize = 0;
    let mut i: usize = lo;
    while i < hi
        invariant
            lo <= i <= hi <= s@.len(),
            sub == s@.subrange(lo as int, hi as int),
            forall|k: int| 0 <= k < i - lo ==> is_digit(#[trigger] sub[k]),
            acc as nat == decimal_value(sub.take(i - lo)),
        decreases hi - i,
    {
        let c = s[i];
        assert(sub[i - lo] == c);
        if !('0' <= c && c <= '9') {
            return None;
        }
        let d = (c as u32 - '0' as u32) as usize;
        assert(sub.take(i - lo + 1).drop_last() =~= sub.take(i - lo));
        if acc > (usize::MAX - d) / 10 {
            proof {
                lemma_decimal_grows(sub, i - lo + 1);
                assert(acc * 10 + d > usize::MAX) by (nonlinear_arith)
                    requires
                        acc > (usize::MAX - d) / 10,
                        d <= 9,
                ;
            }
            return None;
        }
        assert(acc * 10 + d <= usize::MAX) by (nonlinear_arith)
            requires
                acc <= (usize::MAX - d) / 10,
                d <= 9,
        ;
        acc = acc * 10 + d;
        i = i + 1;
    }
    assert(sub.take(hi - lo) =~= sub);
    Some(acc)
}

fn string_in(s: &Vec<char>, lo: usize, hi: usize) -> (r: String)
    requires
        lo <= hi <= s@.len(),
    ensures
        r@ == s@.subrange(lo as int, hi as int),
{
    let mut r = String::new();
    let mut i: usize = lo;
    while i < hi
        invariant
            lo <= i <= hi <= s@.len(),
            r@ == s@.subrange(lo as int, i as int),
        decreases hi - i,
    {
        crate::line::push_char(&mut r, s[i]);
        i = i + 1;
        assert(r@ =~= s@.subrange(lo as int, i as int));
    }
    r
}

impl SlashCommand {
    /// The command `text` spells, if any.
    pub fn parse(text: &str) -> (r: Option<SlashCommand>)
        ensures
            match r {
                Some(c) => parsed(text@) == Some(c@),
                None => parsed(text@) is None,
            },
    {
        let t = chars_of(text);
        let i = next_word_from(&t, 0);
        if i >= t.len() || t[i] != '/' {
            return None;
        }
        let k = word_end_from(&t, i + 1);
        let a = next_word_from(&t, k);
        proof {
            lemma_word_end_bounds(t@, i + 1);
        }
        let e = trim_end_of(&t, a, t.len());
        proof {
            lemma_trim_end_bounds(t@, a as int, t@.len() as int);
        }
        if same_word(&t, i + 1, k, "quit") {
            Some(SlashCommand::Quit)
        } else if same_word(&t, i + 1, k, "help") {
            Some(SlashCommand::Help)
        } else if same_word(&t, i + 1, k, "modellist") {
            Some(SlashCommand::ModelList)
        } else if same_word(&t, i + 1, k, "model") {
            if e > a {
                Some(SlashCommand::Model(string_in(&t, a, e)))
            } else {
                None
            }
        } else {
            let append = same_word(&t, i + 1, k, "append");
            let replace = same_word(&t, i + 1, k, "replace");
            let copy = same_word(&t, i + 1, k, "copy");
            if append || replace || copy {
                match number_in(&t, a, e) {
                    Some(n) => Some(
                        if append {
                            SlashCommand::Append(n)
                        } else if replace {
                            SlashCommand::Replace(n)
                        } else {
                            SlashCommand::Copy(n)
                        },
                    ),
                    None => None,
                }
            } else {
                None
            }
        }
    }
}

proof fn lemma_word_end_bounds(s: Seq<char>, from: int)
    requires
        0 <= from <= s.len(),
    ensures
        from <= word_end(s, from) <= s.len(),
        from <= next_word(s, word_end(s, from)) <= s.len(),
    decreases s.len() - from,
{
    if from < s.len() && !is_blank(s[from]) {
        lemma_word_end_bounds(s, from + 1);
    }
    lemma_next_word_bounds(s, word_end(s, from));
}

proof fn lemma_next_word_bounds(s: Seq<char>, from: int)
    requires
        0 <= from <= s.len(),
    ensures
        from <= next_word(s, from) <= s.len(),
    decreases s.len() - from,
{
    if from < s.len() && is_blank(s[from]) {
        lemma_next_word_bounds(s, from + 1);
    }
}

proof fn lemma_trim_end_bounds(s: Seq<char>, lo: int, hi: int)
    requires
        lo <= hi,
    ensures
        lo <= trim_end(s, lo, hi) <= hi,
    decreases hi - lo,
{
    if hi > lo && is_blank(s[hi - 1]) {
        lemma_trim_end_bounds(s, lo, hi - 1);
    }
}

/// What the event loop does for a slash command.
pub enum CommandAction {
    Quit,
    Help,
    ListModels,
    SwitchModel(String),
    /// Send this code to the editor.
    Accept(String, AcceptType),
    /// Put this code on the clipboard.
    CopyCode(String),
    /// The conversation has no code block with this number.
    NoSuchBlock(usize),
    /// The input is no known command.
    Unknown,
}

/// The code of block `n` of a conversation whose code blocks are `blocks`.
pub open spec fn block_at(blocks: Seq<Seq<char>>, n: usize) -> Option<Seq<char>> {
    if 1 <= n <= blocks.len() {
        Some(blocks[n - 1])
    } else {
        None
    }
}

/// Whether `r` acts on block `n`: with its code, put on the clipboard when
/// `copy` holds and else sent to the editor as `accept`; or, when there is
/// no such block, `NoSuchBlock(n)`.
pub open spec fn block_action(blocks: Seq<Seq<char>>, n: usize, r: CommandAction, copy: bool, accept: AcceptType) -> bool {
    match block_at(blocks, n) {
        Some(code) => if copy {
            r matches CommandAction::CopyCode(c) && c@ == code
        } else {
            r matches CommandAction::Accept(c, a) && c@ == code && a == accept
        },
        None => r == CommandAction::NoSuchBlock(n),
    }
}

/// The action for `command` in a conversation whose code blocks are `blocks`.
pub open spec fn dispatched(command: Option<CommandView>, blocks: Seq<Seq<char>>, r: CommandAction) -> bool {
    match command {
        None => r == CommandAction::Unknown,
        Some(CommandView::Quit) => r == CommandAction::Quit,
        Some(CommandView::Help) => r == CommandAction::Help,
        Some(CommandView::ModelList) => r == CommandAction::ListModels,
        Some(CommandView::Model(name)) => r matches CommandAction::SwitchModel(m) && m@ == name,
        Some(CommandView::Append(n)) => block_action(blocks, n, r, false, AcceptType::Append),
        Some(CommandView::Replace(n)) => block_action(blocks, n, r, false, AcceptType::Replace),
        Some(CommandView::Copy(n)) => block_action(blocks, n, r, true, AcceptType::Replace),
    }
}

pub open spec fn command_view(c: Option<SlashCommand>) -> Option<CommandView> {
    match c {
        Some(x) => Some(x@),
        None => None,
    }
}

fn block_or_missing(messages: &[Message], n: usize, copy: bool, accept: AcceptType) -> (r: CommandAction)
    ensures
        block_action(all_blocks(messages_view(messages@)), n, r, copy, accept),
{
    match code_block(messages, n) {
        Some(code) => if copy {
            CommandAction::CopyCode(code)
        } else {
            CommandAction::Accept(code, accept)
        },
        None => CommandAction::NoSuchBlock(n),
    }
}

/// Decides what `command`, as typed in the conversation `messages`, does.
pub fn dispatch(command: Option<SlashCommand>, messages: &[Message]) -> (r: CommandAction)
    ensures
        dispatched(command_view(command), all_blocks(messages_view(messages@)), r),
{
    match command {
        None => CommandAction::Unknown,
        Some(SlashCommand::Quit) => CommandAction::Quit,
        Some(SlashCommand::Help) => CommandAction::Help,
        Some(SlashCommand::ModelList) => CommandAction::ListModels,
        Some(SlashCommand::Model(name)) => CommandAction::SwitchModel(name),
        Some(SlashCommand::Append(n)) => block_or_missing(messages, n, false, AcceptType::Append),
        Some(SlashCommand::Replace(n)) => block_or_missing(messages, n, false, AcceptType::Replace),
        Some(SlashCommand::Copy(n)) => block_or_missing(messages, n, true, AcceptType::Replace),
    }
}

} // verus!
