use vstd::prelude::*;

use crate::bubble::{annotate, bubble_lines, bubble_view, split_lines};
use crate::line::{
    clear_line, cleared, copy_line, highlight_line, highlight_row, line_selection, lines_view,
    push_char, selected_text, SpanView, StyledLine,
};
use crate::point::{point_max, point_min, Point};
use crate::model::{label_of, Author, Message};

verus! {

/// The layout kept for one message: how many code blocks it opened, how long
/// its text was, and its lines.
pub struct CacheEntry {
    pub codeblocks_count: usize,
    pub text_len: usize,
    pub lines: Vec<StyledLine>,
}

pub type EntryView = (nat, nat, Seq<Seq<SpanView>>);

impl View for CacheEntry {
    type V = EntryView;

    open spec fn view(&self) -> EntryView {
        (self.codeblocks_count as nat, self.text_len as nat, lines_view(self.lines@))
    }
}

pub open spec fn entries_view(v: Seq<CacheEntry>) -> Seq<EntryView> {
    v.map_values(|e: CacheEntry| e@)
}

/// A message as the layout reads it: its author and its text.
pub open spec fn message_view(m: Message) -> (Author, Seq<char>) {
    (m.author, m.text@)
}

pub open spec fn messages_view(v: Seq<Message>) -> Seq<(Author, Seq<char>)> {
    v.map_values(|m: Message| message_view(m))
}

pub open spec fn capped(n: nat) -> nat {
    if n > usize::MAX {
        usize::MAX as nat
    } else {
        n
    }
}

/// The number of the last code block opened in the entries: their code block
/// counts added up (held at `usize::MAX`).
pub open spec fn blocks_total(es: Seq<EntryView>) -> nat
    decreases es.len(),
{
    if es.len() == 0 {
        0
    } else {
        capped(blocks_total(es.drop_last()) + es.last().0)
    }
}

/// The number of lines of all entries.
pub open spec fn line_total(es: Seq<EntryView>) -> nat
    decreases es.len(),
{
    if es.len() == 0 {
        0
    } else {
        line_total(es.drop_last()) + es.last().2.len()
    }
}

/// The lines of all entries, in order.
pub open spec fn all_lines(es: Seq<EntryView>) -> Seq<Seq<SpanView>>
    decreases es.len(),
{
    if es.len() == 0 {
        Seq::empty()
    } else {
        all_lines(es.drop_last()) + es.last().2
    }
}

/// A fresh layout of message `m` whose code blocks are numbered on from `first`.
pub open spec fn fresh_entry(
    m: (Author, Seq<char>),
    width: int,
    first: nat,
    username: Seq<char>,
    model: Seq<char>,
) -> EntryView {
    let last = annotate(split_lines(m.1), first).2;
    (
        (last - first) as nat,
        m.1.len(),
        bubble_view(m.1, label_of(m.0, username, model), m.0 == Author::User, width, first),
    )
}

/// Whether the entry kept for message `k` can be reused: it exists, and the
/// message is not the last one or its text has the recorded length.
pub open spec fn reusable(base: Seq<EntryView>, msgs: Seq<(Author, Seq<char>)>, k: int) -> bool {
    k < base.len() && (k + 1 < msgs.len() || msgs[k].1.len() == base[k].1)
}

/// The entries of the first `i` messages after laying out `msgs` over the
/// entries `base`.
pub open spec fn rebuilt(
    base: Seq<EntryView>,
    msgs: Seq<(Author, Seq<char>)>,
    width: int,
    username: Seq<char>,
    model: Seq<char>,
    i: nat,
) -> Seq<EntryView>
    decreases i,
{
    if i == 0 {
        Seq::empty()
    } else {
        let prev = rebuilt(base, msgs, width, username, model, (i - 1) as nat);
        let k = i - 1;
        prev.push(
            if reusable(base, msgs, k) {
                base[k]
            } else {
                fresh_entry(msgs[k], width, blocks_total(prev), username, model)
            },
        )
    }
}

/// The entries that a layout at `width` starts from: those kept, if they
/// were laid out at that width, else none.
pub open spec fn kept(es: Seq<EntryView>, old_width: usize, width: usize) -> Seq<EntryView> {
    if old_width == width {
        es
    } else {
        Seq::empty()
    }
}

/// The layout of the whole conversation, cached message by message.
pub struct BubbleList {
    pub cache: Vec<CacheEntry>,
    pub line_width: usize,
    pub lines_len: usize,
    pub username: String,
    pub model_name: String,
}

pub open spec fn cleared_entries(es: Seq<EntryView>) -> Seq<EntryView> {
    es.map_values(|e: EntryView| (e.0, e.1, e.2.map_values(|l: Seq<SpanView>| cleared(l))))
}

/// A history row after selecting from `start` to `end`: rows between them
/// are selected, the first from `start.column` on, the last up to
/// `end.column`.
pub open spec fn select_row(l: Seq<SpanView>, row: int, start: Point, end: Point) -> Seq<SpanView> {
    if start.row <= row <= end.row {
        highlight_row(
            l,
            if row == start.row {
                start.column as int
            } else {
                0
            },
            if row == end.row {
                Some(end.column as int)
            } else {
                None
            },
        )
    } else {
        l
    }
}

pub open spec fn select_entry(e: EntryView, offset: nat, start: Point, end: Point) -> EntryView {
    (e.0, e.1, Seq::new(e.2.len(), |j: int| select_row(e.2[j], capped(offset + j as nat) as int, start, end)))
}

/// The entries after selecting from `start` to `end`, rows counted over the
/// whole history.
pub open spec fn selected_entries(es: Seq<EntryView>, start: Point, end: Point) -> Seq<EntryView> {
    Seq::new(es.len(), |k: int| select_entry(es[k], line_total(es.take(k)), start, end))
}

/// The selected text of each row of `lines` that has any.
pub open spec fn picked_rows(lines: Seq<Seq<SpanView>>) -> Seq<Seq<char>>
    decreases lines.len(),
{
    if lines.len() == 0 {
        Seq::empty()
    } else {
        let t = selected_text(lines.last());
        if t.len() > 0 {
            picked_rows(lines.drop_last()).push(t)
        } else {
            picked_rows(lines.drop_last())
        }
    }
}

/// Rows joined by newlines.
pub open spec fn join_rows(rows: Seq<Seq<char>>) -> Seq<char>
    decreases rows.len(),
{
    if rows.len() == 0 {
        Seq::empty()
    } else if rows.len() == 1 {
        rows[0]
    } else {
        join_rows(rows.drop_last()) + seq!['\n'] + rows.last()
    }
}

/// The text a selection copies out: the selected text of each row that has
/// some, one row per line.
pub open spec fn selection_of(es: Seq<EntryView>) -> Seq<char> {
    join_rows(picked_rows(all_lines(es)))
}

/// The text a selection from `start` to `end` picks on history row `row`.
pub open spec fn row_text(l: Seq<SpanView>, row: int, start: Point, end: Point) -> Seq<char> {
    selected_text(select_row(cleared(l), row, start, end))
}

/// The picked text of each row of `lines` that has some; the first of them
/// is history row `offset`.
pub open spec fn entry_texts(lines: Seq<Seq<SpanView>>, offset: nat, start: Point, end: Point) -> Seq<Seq<char>>
    decreases lines.len(),
{
    if lines.len() == 0 {
        Seq::empty()
    } else {
        let prev = entry_texts(lines.drop_last(), offset, start, end);
        let t = row_text(lines.last(), capped(offset + (lines.len() - 1) as nat) as int, start, end);
        if t.len() > 0 {
            prev.push(t)
        } else {
            prev
        }
    }
}

/// The picked text of each history row that has some, entry by entry.
pub open spec fn yank_rows(es: Seq<EntryView>, start: Point, end: Point) -> Seq<Seq<char>>
    decreases es.len(),
{
    if es.len() == 0 {
        Seq::empty()
    } else {
        yank_rows(es.drop_last(), start, end) + entry_texts(es.last().2, line_total(es.drop_last()), start, end)
    }
}

/// The text copied out of the rows from `start` to `end`: what a fresh
/// selection between them picks on each row, one row per line.
pub open spec fn yank_text(es: Seq<EntryView>, start: Point, end: Point) -> Seq<char> {
    join_rows(yank_rows(es, start, end))
}

/// The rows shown from `scroll` on in a view `height` rows high.
pub open spec fn visible(es: Seq<EntryView>, height: int, scroll: int) -> Seq<Seq<SpanView>> {
    let all = all_lines(es);
    all.subrange(visible_lo(all.len() as int, scroll), visible_hi(all.len() as int, height, scroll))
}

proof fn lemma_all_lines_step(es: Seq<EntryView>, k: int)
    requires
        0 <= k < es.len(),
    ensures
        all_lines(es.take(k + 1)) == all_lines(es.take(k)) + es[k].2,
        line_total(es.take(k + 1)) == line_total(es.take(k)) + es[k].2.len(),
{
    assert(es.take(k + 1).drop_last() =~= es.take(k));
}

proof fn lemma_all_lines_len(es: Seq<EntryView>)
    ensures
        all_lines(es).len() == line_total(es),
    decreases es.len(),
{
    if es.len() > 0 {
        lemma_all_lines_len(es.drop_last());
    }
}

proof fn lemma_same_shape(a: Seq<EntryView>, b: Seq<EntryView>)
    requires
        a.len() == b.len(),
        forall|k: int| 0 <= k < a.len() ==> (#[trigger] a[k]).2.len() == b[k].2.len(),
    ensures
        line_total(a) == line_total(b),
    decreases a.len(),
{
    if a.len() > 0 {
        lemma_same_shape(a.drop_last(), b.drop_last());
    }
}

pub open spec fn visible_lo(len: int, scroll: int) -> int {
    if scroll < len {
        scroll
    } else {
        len
    }
}

pub open spec fn visible_hi(len: int, height: int, scroll: int) -> int {
    if scroll + height < len {
        scroll + height
    } else {
        len
    }
}

proof fn lemma_all_lines_prefix(es: Seq<EntryView>, k: int)
    requires
        0 <= k <= es.len(),
    ensures
        all_lines(es.take(k)).len() <= all_lines(es).len(),
        all_lines(es.take(k)) == all_lines(es).take(all_lines(es.take(k)).len() as int),
    decreases es.len() - k,
{
    if k == es.len() {
        assert(es.take(k) =~= es);
        assert(all_lines(es).take(all_lines(es).len() as int) =~= all_lines(es));
    } else {
        lemma_all_lines_prefix(es, k + 1);
        lemma_all_lines_step(es, k);
        let a = all_lines(es.take(k));
        let b = all_lines(es.take(k + 1));
        assert(a =~= b.take(a.len() as int));
        assert(b.take(a.len() as int) =~= all_lines(es).take(a.len() as int));
    }
}

fn clear_entry(e: &mut CacheEntry)
    ensures
        final(e)@ == (old(e)@.0, old(e)@.1, old(e)@.2.map_values(|l: Seq<SpanView>| cleared(l))),
{
    let mut j: usize = 0;
    while j < e.lines.len()
        invariant
            j <= e.lines@.len(),
            e.lines@.len() == old(e).lines@.len(),
            e.codeblocks_count == old(e).codeblocks_count,
            e.text_len == old(e).text_len,
            forall|i: int| 0 <= i < j ==> (#[trigger] e.lines@[i])@ == cleared(old(e).lines@[i]@),
            forall|i: int| j <= i < e.lines@.len() ==> (#[trigger] e.lines@[i])@ == old(e).lines@[i]@,
        decreases e.lines@.len() - j,
    {
        clear_line(&mut e.lines[j]);
        j = j + 1;
    }
    assert(e@.2 =~= old(e)@.2.map_values(|l: Seq<SpanView>| cleared(l)));
}

fn select_in_entry(e: &mut CacheEntry, offset: usize, start: &Point, end: &Point)
    ensures
        final(e)@ == select_entry(old(e)@, offset as nat, *start, *end),
{
    let mut j: usize = 0;
    while j < e.lines.len()
        invariant
            j <= e.lines@.len(),
            e.lines@.len() == old(e).lines@.len(),
            e.codeblocks_count == old(e).codeblocks_count,
            e.text_len == old(e).text_len,
            forall|i: int|
                0 <= i < j ==> (#[trigger] e.lines@[i])@ == select_row(
                    old(e).lines@[i]@,
                    capped(offset as nat + i as nat) as int,
                    *start,
                    *end,
                ),
            forall|i: int| j <= i < e.lines@.len() ==> (#[trigger] e.lines@[i])@ == old(e).lines@[i]@,
        decreases e.lines@.len() - j,
    {
        let row: usize = if offset > usize::MAX - j {
            usize::MAX
        } else {
            offset + j
        };
        if start.row <= row && row <= end.row {
            let from: usize = if row == start.row {
                start.column
            } else {
                0
            };
            let to: Option<usize> = if row == end.row {
                Some(end.column)
            } else {
                None
            };
            highlight_line(&mut e.lines[j], from, to);
        }
        j = j + 1;
    }
    assert(e@.2 =~= select_entry(old(e)@, offset as nat, *start, *end).2);
}

impl BubbleList {
    pub open spec fn entries(&self) -> Seq<EntryView> {
        entries_view(self.cache@)
    }

    /// `lines_len` is the number of lines of all entries.
    pub open spec fn wf(&self) -> bool {
        self.lines_len as nat == capped(line_total(self.entries()))
    }

    /// An empty list; bubbles are labelled with the given user and model names.
    pub fn new(username: &str, model_name: &str) -> (r: BubbleList)
        ensures
            r.wf(),
            r.entries() == Seq::<EntryView>::empty(),
            r.line_width == 0,
            r.username@ == username@,
            r.model_name@ == model_name@,
    {
        let r = BubbleList {
            cache: Vec::new(),
            line_width: 0,
            lines_len: 0,
            username: username.to_owned(),
            model_name: model_name.to_owned(),
        };
        assert(r.entries() =~= Seq::<EntryView>::empty());
        r
    }

    /// Lays out `messages` at `line_width`, reusing what is cached: nothing if
    /// the width changed, else the entry of each message but the last, and the
    /// last one's if its text kept its length.
    pub fn set_messages(&mut self, messages: &[Message], line_width: usize)
        requires
            old(self).wf(),
        ensures
            final(self).wf(),
            final(self).line_width == line_width,
            final(self).username == old(self).username,
            final(self).model_name == old(self).model_name,
            final(self).entries() == rebuilt(
                kept(old(self).entries(), old(self).line_width, line_width),
                messages_view(messages@),
                line_width as int,
                old(self).username@,
                old(self).model_name@,
                messages@.len(),
            ),
    {
        let ghost base = kept(self.entries(), self.line_width, line_width);
        let ghost msgs = messages_view(messages@);
        let ghost user = self.username@;
        let ghost model = self.model_name@;
        let mut old_cache: Vec<CacheEntry> = Vec::new();
        core::mem::swap(&mut old_cache, &mut self.cache);
        if self.line_width != line_width {
            old_cache = Vec::new();
        }
        assert(entries_view(old_cache@) =~= base);
        self.line_width = line_width;
        let n = messages.len();
        let mut new_cache: Vec<CacheEntry> = Vec::new();
        let mut counter: usize = 0;
        let mut total: usize = 0;
        let mut i: usize = 0;
        assert(entries_view(new_cache@) =~= rebuilt(base, msgs, line_width as int, user, model, 0));
        while i < n
            invariant
                n == messages@.len(),
                msgs == messages_view(messages@),
                i <= n,
                user == self.username@,
                model == self.model_name@,
                self.line_width == line_width,
                old_cache@.len() == base.len(),
                forall|k: int| i <= k < base.len() ==> (#[trigger] old_cache@[k])@ == base[k],
                entries_view(new_cache@) == rebuilt(base, msgs, line_width as int, user, model, i as nat),
                counter as nat == blocks_total(entries_view(new_cache@)),
                total as nat == capped(line_total(entries_view(new_cache@))),
            decreases n - i,
        {
            let ghost prev = entries_view(new_cache@);
            let m = &messages[i];
            assert(msgs[i as int] == (m.author, m.text@));
            let tlen = m.text.as_str().unicode_len();
            let entry: CacheEntry;
            if i < old_cache.len() && (i + 1 < n || tlen == old_cache[i].text_len) {
                let mut e = CacheEntry { codeblocks_count: 0, text_len: 0, lines: Vec::new() };
                core::mem::swap(&mut e, &mut old_cache[i]);
                assert(e@ == base[i as int]);
                entry = e;
            } else {
                let label = m.author.label(self.username.as_str(), self.model_name.as_str());
                let (lines, last) = bubble_lines(
                    m.text.as_str(),
                    label.as_str(),
                    m.author == Author::User,
                    line_width,
                    counter,
                );
                proof {
                    crate::bubble::lemma_annotate_bound(split_lines(m.text@), counter as nat);
                }
                entry = CacheEntry { codeblocks_count: last - counter, text_len: tlen, lines };
                assert(entry@ == fresh_entry(msgs[i as int], line_width as int, counter as nat, user, model));
            }
            counter = if counter > usize::MAX - entry.codeblocks_count {
                usize::MAX
            } else {
                counter + entry.codeblocks_count
            };
            total = if total > usize::MAX - entry.lines.len() {
                usize::MAX
            } else {
                total + entry.lines.len()
            };
            let ghost ev = entry@;
            new_cache.push(entry);
            assert(entries_view(new_cache@) =~= prev.push(ev));
            assert(entries_view(new_cache@).drop_last() =~= prev);
            i = i + 1;
        }
        self.cache = new_cache;
        self.lines_len = total;
    }

    pub fn len(&self) -> (r: usize)
        ensures
            r == self.lines_len,
    {
        self.lines_len
    }

    /// The text of the current selection: the selected text of each row that
    /// has some, one row per line, frame glyphs and blank padding left out.
    pub fn selection_text(&self) -> (r: String)
        ensures
            r@ == selection_of(self.entries()),
    {
        let ghost es = self.entries();
        let ghost mut rows: Seq<Seq<char>> = Seq::empty();
        let mut r = String::new();
        let mut any: bool = false;
        let mut k: usize = 0;
        assert(es.take(0) =~= Seq::<EntryView>::empty());
        while k < self.cache.len()
            invariant
                k <= self.cache@.len(),
                es == self.entries(),
                rows == picked_rows(all_lines(es.take(k as int))),
                r@ == join_rows(rows),
                any == (rows.len() > 0),
            decreases self.cache@.len() - k,
        {
            let entry = &self.cache[k];
            let ghost lines = es[k as int].2;
            let ghost head = all_lines(es.take(k as int));
            assert(entry@ == es[k as int]);
            assert(head + lines.take(0) =~= head);
            let mut j: usize = 0;
            while j < entry.lines.len()
                invariant
                    j <= entry.lines@.len(),
                    lines == lines_view(entry.lines@),
                    rows == picked_rows(head + lines.take(j as int)),
                    r@ == join_rows(rows),
                    any == (rows.len() > 0),
                decreases entry.lines@.len() - j,
            {
                let t = line_selection(&entry.lines[j]);
                assert(lines[j as int] == entry.lines@[j as int]@);
                let ghost next = head + lines.take(j + 1);
                assert(next.drop_last() =~= head + lines.take(j as int));
                if !t.as_str().is_empty() {
                    let ghost grown = rows.push(t@);
                    if any {
                        push_char(&mut r, '\n');
                    }
                    r.append(t.as_str());
                    any = true;
                    assert(grown.drop_last() =~= rows);
                    proof {
                        rows = grown;
                    }
                }
                j = j + 1;
            }
            proof {
                lemma_all_lines_step(es, k as int);
                assert(lines.take(j as int) =~= lines);
            }
            k = k + 1;
        }
        assert(es.take(k as int) =~= es);
        r
    }

    /// The text of the rows from `start` to `end`, as a selection between
    /// them would pick it, without changing what is shown selected.
    pub fn yank_selected_lines(&self, start: &Point, end: &Point) -> (r: String)
        ensures
            r@ == yank_text(self.entries(), *start, *end),
    {
        let ghost es = self.entries();
        let ghost mut rows: Seq<Seq<char>> = Seq::empty();
        let mut r = String::new();
        let mut any: bool = false;
        let mut offset: usize = 0;
        let mut k: usize = 0;
        assert(es.take(0) =~= Seq::<EntryView>::empty());
        while k < self.cache.len()
            invariant
                k <= self.cache@.len(),
                es == self.entries(),
                offset as nat == capped(line_total(es.take(k as int))),
                rows == yank_rows(es.take(k as int), *start, *end),
                r@ == join_rows(rows),
                any == (rows.len() > 0),
            decreases self.cache@.len() - k,
        {
            let entry = &self.cache[k];
            let ghost lines = es[k as int].2;
            let ghost head = rows;
            let ghost base = line_total(es.take(k as int));
            assert(entry@ == es[k as int]);
            assert(lines.take(0) =~= Seq::<Seq<SpanView>>::empty());
            assert(head =~= head + entry_texts(lines.take(0), base, *start, *end));
            let mut j: usize = 0;
            while j < entry.lines.len()
                invariant
                    j <= entry.lines@.len(),
                    lines == lines_view(entry.lines@),
                    offset as nat == capped(base),
                    rows == head + entry_texts(lines.take(j as int), base, *start, *end),
                    r@ == join_rows(rows),
                    any == (rows.len() > 0),
                decreases entry.lines@.len() - j,
            {
                let row: usize = if offset > usize::MAX - j {
                    usize::MAX
                } else {
                    offset + j
                };
                assert(row as nat == capped(base + j as nat));
                let mut copy = copy_line(&entry.lines[j]);
                clear_line(&mut copy);
                if start.row <= row && row <= end.row {
                    let from: usize = if row == start.row {
                        start.column
                    } else {
                        0
                    };
                    let to: Option<usize> = if row == end.row {
                        Some(end.column)
                    } else {
                        None
                    };
                    highlight_line(&mut copy, from, to);
                }
                let t = line_selection(&copy);
                assert(lines[j as int] == entry.lines@[j as int]@);
                assert(t@ == row_text(lines[j as int], row as int, *start, *end));
                assert(lines.take(j + 1).drop_last() =~= lines.take(j as int));
                if !t.as_str().is_empty() {
                    let ghost grown = rows.push(t@);
                    if any {
                        push_char(&mut r, '\n');
                    }
                    r.append(t.as_str());
                    any = true;
                    assert(grown.drop_last() =~= rows);
                    assert(grown =~= head + entry_texts(lines.take(j + 1), base, *start, *end));
                    proof {
                        rows = grown;
                    }
                } else {
                    assert(rows =~= head + entry_texts(lines.take(j + 1), base, *start, *end));
                }
                j = j + 1;
            }
            proof {
                lemma_all_lines_step(es, k as int);
                assert(lines.take(j as int) =~= lines);
                assert(es.take(k + 1).drop_last() =~= es.take(k as int));
            }
            offset = if offset > usize::MAX - j {
                usize::MAX
            } else {
                offset + j
            };
            k = k + 1;
        }
        assert(es.take(k as int) =~= es);
        r
    }

    /// The rows to draw in a view `height` rows high, scrolled down by
    /// `scroll_index` rows.
    pub fn render(&self, height: u16, scroll_index: u16) -> (r: Vec<StyledLine>)
        ensures
            lines_view(r@) == visible(self.entries(), height as int, scroll_index as int),
    {
        let ghost es = self.entries();
        let ghost all = all_lines(es);
        let ghost lo = visible_lo(all.len() as int, scroll_index as int);
        let ghost hi = visible_hi(all.len() as int, height as int, scroll_index as int);
        let scroll = scroll_index as usize;
        let stop = scroll + height as usize;
        let mut out: Vec<StyledLine> = Vec::new();
        let mut idx: usize = 0;
        let mut k: usize = 0;
        proof {
            lemma_all_lines_len(es);
        }
        assert(es.take(0) =~= Seq::<EntryView>::empty());
        while k < self.cache.len()
            invariant
                k <= self.cache@.len(),
                es == self.entries(),
                all == all_lines(es),
                all.len() == line_total(es),
                scroll == scroll_index,
                stop == scroll + height,
                idx as int == all_lines(es.take(k as int)).len(),
                idx <= stop,
                lines_view(out@) == all.subrange(
                    visible_lo(idx as int, scroll as int),
                    visible_hi(idx as int, height as int, scroll as int),
                ),
                all_lines(es.take(k as int)) == all.take(idx as int),
            decreases self.cache@.len() - k,
        {
            let entry = &self.cache[k];
            assert(entry@ == es[k as int]);
            proof {
                lemma_all_lines_step(es, k as int);
                lemma_all_lines_prefix(es, k + 1);
            }
            let mut j: usize = 0;
            while j < entry.lines.len()
                invariant
                    j <= entry.lines@.len(),
                    idx as int == all_lines(es.take(k as int)).len() + j,
                    all_lines(es.take(k + 1)) == all_lines(es.take(k as int)) + lines_view(entry.lines@),
                    all_lines(es.take(k + 1)) == all.take(all_lines(es.take(k + 1)).len() as int),
                    all_lines(es.take(k + 1)).len() <= all.len(),
                    all == all_lines(es),
                    es == self.entries(),
                    scroll == scroll_index,
                    stop == scroll + height,
                    idx <= stop,
                    lines_view(out@) == all.subrange(
                        visible_lo(idx as int, scroll as int),
                        visible_hi(idx as int, height as int, scroll as int),
                    ),
                decreases entry.lines@.len() - j,
            {
                if idx >= stop {
                    assert(visible_lo(all.len() as int, scroll as int) == visible_lo(idx as int, scroll as int));
                    assert(visible_hi(all.len() as int, height as int, scroll as int) == visible_hi(
                        idx as int,
                        height as int,
                        scroll as int,
                    ));
                    return out;
                }
                let ghost nxt = all_lines(es.take(k + 1));
                assert(nxt[idx as int] == all[idx as int]);
                assert(nxt[idx as int] == lines_view(entry.lines@)[j as int]);
                if idx >= scroll {
                    let ghost before = lines_view(out@);
                    let line = copy_line(&entry.lines[j]);
                    out.push(line);
                    assert(lines_view(out@) =~= before.push(all[idx as int]));
                }
                idx = idx + 1;
                j = j + 1;
                assert(lines_view(out@) =~= all.subrange(
                    visible_lo(idx as int, scroll as int),
                    visible_hi(idx as int, height as int, scroll as int),
                ));
            }
            k = k + 1;
        }
        assert(es.take(k as int) =~= es);
        out
    }

    /// Takes the selection background off every line.
    pub fn reset_highlight(&mut self)
        requires
            old(self).wf(),
        ensures
            final(self).wf(),
            final(self).entries() == cleared_entries(old(self).entries()),
            final(self).line_width == old(self).line_width,
            final(self).lines_len == old(self).lines_len,
            final(self).username == old(self).username,
            final(self).model_name == old(self).model_name,
    {
        let mut k: usize = 0;
        while k < self.cache.len()
            invariant
                k <= self.cache@.len(),
                self.cache@.len() == old(self).cache@.len(),
                self.line_width == old(self).line_width,
                self.lines_len == old(self).lines_len,
                self.username == old(self).username,
                self.model_name == old(self).model_name,
                forall|i: int|
                    0 <= i < k ==> (#[trigger] self.cache@[i])@ == cleared_entries(old(self).entries())[i],
                forall|i: int| k <= i < self.cache@.len() ==> (#[trigger] self.cache@[i])@ == old(self).cache@[i]@,
            decreases self.cache@.len() - k,
        {
            clear_entry(&mut self.cache[k]);
            k = k + 1;
        }
        assert(self.entries() =~= cleared_entries(old(self).entries()));
        proof {
            lemma_same_shape(self.entries(), old(self).entries());
        }
    }

    /// Selects the history rows from `start` to `end`, the first from
    /// `start.column` on and the last up to `end.column`. What was selected
    /// before stays selected.
    pub fn highlight_selected_lines(&mut self, start: &Point, end: &Point)
        requires
            old(self).wf(),
        ensures
            final(self).wf(),
            final(self).entries() == selected_entries(old(self).entries(), *start, *end),
            final(self).line_width == old(self).line_width,
            final(self).lines_len == old(self).lines_len,
            final(self).username == old(self).username,
            final(self).model_name == old(self).model_name,
    {
        let ghost es = old(self).entries();
        let mut offset: usize = 0;
        let mut k: usize = 0;
        while k < self.cache.len()
            invariant
                k <= self.cache@.len(),
                es == old(self).entries(),
                self.cache@.len() == es.len(),
                self.line_width == old(self).line_width,
                self.lines_len == old(self).lines_len,
                self.username == old(self).username,
                self.model_name == old(self).model_name,
                offset as nat == capped(line_total(es.take(k as int))),
                forall|i: int| 0 <= i < k ==> (#[trigger] self.cache@[i])@ == selected_entries(es, *start, *end)[i],
                forall|i: int| k <= i < self.cache@.len() ==> (#[trigger] self.cache@[i])@ == es[i],
            decreases self.cache@.len() - k,
        {
            proof {
                lemma_all_lines_step(es, k as int);
            }
            let n = self.cache[k].lines.len();
            assert(self.cache@[k as int]@ == es[k as int]);
            select_in_entry(&mut self.cache[k], offset, start, end);
            assert(forall|j: nat| #[trigger] capped(capped(line_total(es.take(k as int))) + j) == capped(line_total(es.take(k as int)) + j));
            assert(self.cache@[k as int]@ =~= selected_entries(es, *start, *end)[k as int]);
            offset = if offset > usize::MAX - n {
                usize::MAX
            } else {
                offset + n
            };
            k = k + 1;
        }
        assert(self.entries() =~= selected_entries(es, *start, *end));
        proof {
            lemma_same_shape(self.entries(), es);
        }
    }
}

proof fn lemma_rebuilt_len(
    base: Seq<EntryView>,
    msgs: Seq<(Author, Seq<char>)>,
    width: int,
    username: Seq<char>,
    model: Seq<char>,
    i: nat,
)
    ensures
        rebuilt(base, msgs, width, username, model, i).len() == i,
    decreases i,
{
    if i > 0 {
        lemma_rebuilt_len(base, msgs, width, username, model, (i - 1) as nat);
    }
}

proof fn lemma_rebuilt_over_itself(
    base: Seq<EntryView>,
    msgs: Seq<(Author, Seq<char>)>,
    width: int,
    username: Seq<char>,
    model: Seq<char>,
    i: nat,
)
    requires
        i <= msgs.len(),
    ensures
        ({
            let once = rebuilt(base, msgs, width, username, model, msgs.len());
            rebuilt(once, msgs, width, username, model, i) == once.take(i as int)
        }),
    decreases i,
{
    let n = msgs.len();
    let once = rebuilt(base, msgs, width, username, model, n);
    lemma_rebuilt_len(base, msgs, width, username, model, n);
    if i == 0 {
        assert(once.take(0) =~= Seq::<EntryView>::empty());
    } else {
        let k = i - 1;
        lemma_rebuilt_over_itself(base, msgs, width, username, model, k as nat);
        if k + 1 == n {
            assert(once.drop_last() == rebuilt(base, msgs, width, username, model, k as nat));
            assert(once[k] == once.last());
            assert(msgs[k].1.len() == once[k].1);
        }
        assert(reusable(once, msgs, k));
        assert(once.take(i as int) =~= once.take(k).push(once[k]));
    }
}

/// Laying out the same messages again at the same width keeps every entry:
/// the second layout shows exactly what the first did.
pub proof fn lemma_set_messages_twice(
    es: Seq<EntryView>,
    old_width: usize,
    msgs: Seq<(Author, Seq<char>)>,
    width: usize,
    username: Seq<char>,
    model: Seq<char>,
)
    ensures
        ({
            let once = rebuilt(kept(es, old_width, width), msgs, width as int, username, model, msgs.len());
            rebuilt(kept(once, width, width), msgs, width as int, username, model, msgs.len()) == once
        }),
{
    let once = rebuilt(kept(es, old_width, width), msgs, width as int, username, model, msgs.len());
    lemma_rebuilt_over_itself(kept(es, old_width, width), msgs, width as int, username, model, msgs.len());
    lemma_rebuilt_len(kept(es, old_width, width), msgs, width as int, username, model, msgs.len());
    assert(once.take(msgs.len() as int) =~= once);
}

/// Two layouts of the same messages, at `w1` then at `w2`, give what one
/// layout at `w2` gives on an empty cache, whenever the first one started
/// from an empty cache or the widths differ.
pub proof fn lemma_last_width_decides(
    es: Seq<EntryView>,
    old_width: usize,
    msgs: Seq<(Author, Seq<char>)>,
    w1: usize,
    w2: usize,
    username: Seq<char>,
    model: Seq<char>,
)
    requires
        es.len() == 0 || w1 != w2,
    ensures
        ({
            let first = rebuilt(kept(es, old_width, w1), msgs, w1 as int, username, model, msgs.len());
            rebuilt(kept(first, w1, w2), msgs, w2 as int, username, model, msgs.len()) == rebuilt(
                Seq::empty(),
                msgs,
                w2 as int,
                username,
                model,
                msgs.len(),
            )
        }),
{
    if w1 == w2 {
        assert(kept(es, old_width, w1) =~= Seq::<EntryView>::empty());
        lemma_set_messages_twice(es, old_width, msgs, w1, username, model);
    }
}

/// Which way a selection was dragged does not matter: once its two points
/// are put in order, both directions select the same rows and copy out the
/// same text.
pub proof fn lemma_yank_ignores_direction(es: Seq<EntryView>, a: Point, b: Point)
    ensures
        selected_entries(cleared_entries(es), point_min(a, b), point_max(a, b)) == selected_entries(
            cleared_entries(es),
            point_min(b, a),
            point_max(b, a),
        ),
        yank_text(es, point_min(a, b), point_max(a, b)) == yank_text(es, point_min(b, a), point_max(b, a)),
{
    crate::point::lemma_min_le_max(a, b);
}

proof fn lemma_picked_concat(a: Seq<Seq<SpanView>>, b: Seq<Seq<SpanView>>)
    ensures
        picked_rows(a + b) == picked_rows(a) + picked_rows(b),
    decreases b.len(),
{
    if b.len() == 0 {
        assert(a + b =~= a);
        assert(picked_rows(a) + picked_rows(b) =~= picked_rows(a));
    } else {
        lemma_picked_concat(a, b.drop_last());
        assert((a + b).drop_last() =~= a + b.drop_last());
        assert((a + b).last() == b.last());
        assert(picked_rows(a) + picked_rows(b.drop_last()).push(selected_text(b.last())) =~= (picked_rows(a)
            + picked_rows(b.drop_last())).push(selected_text(b.last())));
    }
}

proof fn lemma_entry_picked(m: Seq<Seq<SpanView>>, off: nat, start: Point, end: Point)
    ensures
        picked_rows(
            Seq::new(m.len(), |j: int| select_row(cleared(m[j]), capped(off + j as nat) as int, start, end)),
        ) == entry_texts(m, off, start, end),
    decreases m.len(),
{
    let l = Seq::new(m.len(), |j: int| select_row(cleared(m[j]), capped(off + j as nat) as int, start, end));
    if m.len() > 0 {
        let d = m.drop_last();
        lemma_entry_picked(d, off, start, end);
        assert(l.drop_last() =~= Seq::new(
            d.len(),
            |j: int| select_row(cleared(d[j]), capped(off + j as nat) as int, start, end),
        ));
    } else {
        assert(l =~= Seq::<Seq<SpanView>>::empty());
    }
}

proof fn lemma_picked_selection(es: Seq<EntryView>, start: Point, end: Point)
    ensures
        picked_rows(all_lines(selected_entries(cleared_entries(es), start, end))) == yank_rows(es, start, end),
    decreases es.len(),
{
    let c = cleared_entries(es);
    let y = selected_entries(c, start, end);
    if es.len() == 0 {
        assert(y =~= Seq::<EntryView>::empty());
    } else {
        let n = es.len() - 1;
        let d = es.drop_last();
        lemma_picked_selection(d, start, end);
        let cd = cleared_entries(d);
        assert(cd =~= c.drop_last());
        assert forall|k: int| 0 <= k < n implies c.take(k) == #[trigger] cd.take(k) by {
            assert(c.take(k) =~= cd.take(k));
        }
        assert(y.drop_last() =~= selected_entries(cd, start, end));
        assert(es.take(n) =~= d);
        lemma_same_shape(c.take(n), es.take(n));
        let m = es.last().2;
        assert(y.last().2 =~= Seq::new(
            m.len(),
            |j: int| select_row(cleared(m[j]), capped(line_total(d) + j as nat) as int, start, end),
        ));
        lemma_entry_picked(m, line_total(d), start, end);
        lemma_picked_concat(all_lines(y.drop_last()), y.last().2);
        assert(all_lines(y) == all_lines(y.drop_last()) + y.last().2);
    }
}

/// What a yank copies out is exactly what a fresh highlight of the same
/// rows shows selected.
pub proof fn lemma_yank_is_highlighted_text(es: Seq<EntryView>, start: Point, end: Point)
    ensures
        selection_of(selected_entries(cleared_entries(es), start, end)) == yank_text(es, start, end),
{
    lemma_picked_selection(es, start, end);
}

/// The list's line count is the sum of its entries' line counts, which is
/// the number of lines it renders, whenever that sum fits a `usize`.
pub proof fn lemma_lines_len_is_sum(list: &BubbleList)
    requires
        list.wf(),
        line_total(list.entries()) <= usize::MAX,
    ensures
        list.lines_len == line_total(list.entries()),
        list.lines_len == all_lines(list.entries()).len(),
{
    lemma_all_lines_len(list.entries());
}

} // verus!
