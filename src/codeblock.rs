use vstd::prelude::*;

use crate::bubble::{is_fence, nested_view, split_lines, split_text};
use crate::bubble_list::{join_rows, messages_view};
use crate::line::{chars_of, push_char};
use crate::model::{Author, Message};

verus! {

/// The code blocks that `lines` of a text hold, each as its lines, and
/// whether the last one is left open.
pub open spec fn blocks_state(lines: Seq<Seq<char>>) -> (Seq<Seq<Seq<char>>>, bool)
    decreases lines.len(),
{
    if lines.len() == 0 {
        (Seq::empty(), false)
    } else {
        let (bs, open) = blocks_state(lines.drop_last());
        let l = lines.last();
        if is_fence(l) {
            if open {
                (bs, false)
            } else {
                (bs.push(Seq::empty()), true)
            }
        } else if open {
            (bs.update(bs.len() - 1, bs.last().push(l)), true)
        } else {
            (bs, false)
        }
    }
}

/// The code of each fenced block of `t`, in order: the lines between its
/// fences, or up to the end of the text when it is never closed.
pub open spec fn code_blocks(t: Seq<char>) -> Seq<Seq<char>> {
    blocks_state(split_lines(t)).0.map_values(|b: Seq<Seq<char>>| join_rows(b))
}

proof fn lemma_open_has_block(lines: Seq<Seq<char>>)
    ensures
        blocks_state(lines).1 ==> blocks_state(lines).0.len() > 0,
    decreases lines.len(),
{
    if lines.len() > 0 {
        lemma_open_has_block(lines.drop_last());
    }
}

pub open spec fn strings_view(v: Seq<String>) -> Seq<Seq<char>> {
    v.map_values(|s: String| s@)
}

fn append_line(s: &mut String, newline: bool, l: &Vec<char>)
    ensures
        final(s)@ == (if newline {
            old(s)@ + seq!['\n']
        } else {
            old(s)@
        }) + l@,
{
    if newline {
        push_char(s, '\n');
    }
    let ghost start = s@;
    let mut j: usize = 0;
    while j < l.len()
        invariant
            j <= l@.len(),
            s@ == start + l@.take(j as int),
        decreases l@.len() - j,
    {
        push_char(s, l[j]);
        j = j + 1;
        assert(s@ =~= start + l@.take(j as int));
    }
    assert(l@.take(j as int) =~= l@);
}

/// The code blocks of one message's text.
pub fn code_blocks_of(text: &str) -> (r: Vec<String>)
    ensures
        strings_view(r@) == code_blocks(text@),
{
    let chars = chars_of(text);
    let lines = split_text(&chars);
    let ghost all = nested_view(lines@);
    let mut blocks: Vec<String> = Vec::new();
    let mut last_filled: bool = false;
    let mut open: bool = false;
    let mut i: usize = 0;
    while i < lines.len()
        invariant
            i <= lines@.len(),
            all == nested_view(lines@),
            ({
                let (bs, o) = blocks_state(all.take(i as int));
                &&& o == open
                &&& strings_view(blocks@) == bs.map_values(|b: Seq<Seq<char>>| join_rows(b))
                &&& (bs.len() > 0 ==> last_filled == (bs.last().len() > 0))
                &&& (open ==> bs.len() > 0)
            }),
        decreases lines@.len() - i,
    {
        proof {
            assert(all.take(i + 1).drop_last() =~= all.take(i as int));
            lemma_open_has_block(all.take(i as int));
        }
        let ghost bs = blocks_state(all.take(i as int)).0;
        let ghost before = strings_view(blocks@);
        assert(before.len() == blocks@.len());
        assert(bs.map_values(|b: Seq<Seq<char>>| join_rows(b)).len() == bs.len());
        assert(blocks@.len() == bs.len());
        let l = &lines[i];
        assert(l@ == all[i as int]);
        if l.len() >= 3 && l[0] == '`' && l[1] == '`' && l[2] == '`' {
            if open {
                open = false;
            } else {
                let fresh = String::new();
                let ghost fv = fresh@;
                assert(join_rows(Seq::<Seq<char>>::empty()) == fv);
                blocks.push(fresh);
                assert(strings_view(blocks@) =~= before.push(fv));
                last_filled = false;
                open = true;
                assert(strings_view(blocks@) =~= bs.push(Seq::empty()).map_values(
                    |b: Seq<Seq<char>>| join_rows(b),
                ));
            }
        } else if open {
            let k = blocks.len() - 1;
            let ghost grown = bs.last().push(l@);
            assert(grown.drop_last() =~= bs.last());
            let ghost last = before[k as int];
            assert(last == join_rows(bs.last()));
            let ghost vb = blocks@;
            append_line(&mut blocks[k], last_filled, l);
            assert(blocks@ =~= vb.update(k as int, blocks@[k as int]));
            assert(strings_view(blocks@) =~= before.update(k as int, blocks@[k as int]@));
            assert(join_rows(grown) == (if last_filled {
                last + seq!['\n']
            } else {
                last
            }) + l@);
            last_filled = true;
            assert(strings_view(blocks@) =~= bs.update(bs.len() - 1, grown).map_values(
                |b: Seq<Seq<char>>| join_rows(b),
            ));
        }
        i = i + 1;
    }
    assert(all.take(i as int) =~= all);
    blocks
}

/// The code blocks of a conversation, message after message.
pub open spec fn all_blocks(msgs: Seq<(Author, Seq<char>)>) -> Seq<Seq<char>>
    decreases msgs.len(),
{
    if msgs.len() == 0 {
        Seq::empty()
    } else {
        all_blocks(msgs.drop_last()) + code_blocks(msgs.last().1)
    }
}

/// The code of block `n` of the conversation, counting from one.
pub fn code_block(messages: &[Message], n: usize) -> (r: Option<String>)
    ensures
        ({
            let all = all_blocks(messages_view(messages@));
            match r {
                Some(code) => 1 <= n <= all.len() && code@ == all[n - 1],
                None => n < 1 || n > all.len(),
            }
        }),
{
    let ghost msgs = messages_view(messages@);
    if n == 0 {
        return None;
    }
    let mut count: usize = 0;
    let mut i: usize = 0;
    assert(msgs.take(0) =~= Seq::<(Author, Seq<char>)>::empty());
    while i < messages.len()
        invariant
            i <= messages@.len(),
            msgs == messages_view(messages@),
            1 <= n,
            count < n,
            count as nat == all_blocks(msgs.take(i as int)).len(),
        decreases messages@.len() - i,
    {
        let blocks = code_blocks_of(messages[i].text.as_str());
        assert(msgs[i as int].1 == messages@[i as int].text@);
        assert(msgs.take(i + 1).drop_last() =~= msgs.take(i as int));
        let ghost prefix = all_blocks(msgs.take(i as int));
        let ghost grown = all_blocks(msgs.take(i + 1));
        assert(grown == prefix + code_blocks(msgs[i as int].1));
        if blocks.len() >= n - count {
            let k = n - 1 - count;
            let code = blocks[k].clone();
            proof {
                lemma_blocks_prefix(msgs, i + 1);
                assert(grown[n - 1] == strings_view(blocks@)[k as int]);
            }
            return Some(code);
        }
        count = count + blocks.len();
        i = i + 1;
    }
    assert(msgs.take(i as int) =~= msgs);
    None
}

proof fn lemma_blocks_prefix(msgs: Seq<(Author, Seq<char>)>, i: int)
    requires
        0 <= i <= msgs.len(),
    ensures
        all_blocks(msgs.take(i)).len() <= all_blocks(msgs).len(),
        forall|j: int|
            0 <= j < all_blocks(msgs.take(i)).len() ==> #[trigger] all_blocks(msgs)[j] == all_blocks(
                msgs.take(i),
            )[j],
    decreases msgs.len() - i,
{
    if i == msgs.len() {
        assert(msgs.take(i) =~= msgs);
    } else {
        lemma_blocks_prefix(msgs, i + 1);
        assert(msgs.take(i + 1).drop_last() =~= msgs.take(i));
    }
}

} // verus!
