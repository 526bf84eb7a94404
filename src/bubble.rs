use vstd::prelude::*;

use crate::line::{chars_of, lines_view, push_char, SpanKind, SpanView, StyledLine, StyledSpan};

verus! {

/// The display width of one character, `None` for a control character.
pub uninterp spec fn char_cols(c: char) -> Option<usize>;

/// Relies on unicode_width's `UnicodeWidthChar::width` for `char`: the
/// columns a character takes, or `None` for a control character.
#[verifier::external_body]
fn char_width(c: char) -> (r: Option<usize>)
    ensures
        r == char_cols(c),
{
    unicode_width::UnicodeWidthChar::width(c)
}

/// Columns taken by a character inside a bubble; control characters take none.
pub open spec fn cols(c: char) -> int {
    match char_cols(c) {
        Some(w) => w as int,
        None => 0,
    }
}

fn cols_of(c: char) -> (r: usize)
    ensures
        r as int == cols(c),
{
    match char_width(c) {
        Some(w) => w,
        None => 0,
    }
}

/// The text split at each `'\n'`, the last piece kept even when empty.
pub open spec fn split_lines(t: Seq<char>) -> Seq<Seq<char>>
    decreases t.len(),
{
    if t.len() == 0 {
        seq![Seq::empty()]
    } else {
        let prev = split_lines(t.drop_last());
        if t.last() == '\n' {
            prev.push(Seq::empty())
        } else {
            prev.update(prev.len() - 1, prev.last().push(t.last()))
        }
    }
}

proof fn lemma_split_nonempty(t: Seq<char>)
    ensures
        split_lines(t).len() >= 1,
    decreases t.len(),
{
    if t.len() > 0 {
        lemma_split_nonempty(t.drop_last());
    }
}

pub open spec fn nested_view(v: Seq<Vec<char>>) -> Seq<Seq<char>> {
    v.map_values(|r: Vec<char>| r@)
}

pub(crate) fn split_text(t: &Vec<char>) -> (r: Vec<Vec<char>>)
    ensures
        nested_view(r@) == split_lines(t@),
{
    let mut r: Vec<Vec<char>> = Vec::new();
    let mut cur: Vec<char> = Vec::new();
    let mut i: usize = 0;
    while i < t.len()
        invariant
            i <= t@.len(),
            nested_view(r@).push(cur@) == split_lines(t@.take(i as int)),
        decreases t@.len() - i,
    {
        proof {
            assert(t@.take(i + 1).drop_last() =~= t@.take(i as int));
            lemma_split_nonempty(t@.take(i as int));
        }
        let ghost prev = split_lines(t@.take(i as int));
        if t[i] == '\n' {
            let mut done: Vec<char> = Vec::new();
            core::mem::swap(&mut done, &mut cur);
            r.push(done);
            assert(nested_view(r@).push(cur@) =~= prev.push(Seq::empty()));
        } else {
            cur.push(t[i]);
            assert(nested_view(r@).push(cur@) =~= prev.update(prev.len() - 1, prev.last().push(t@[i as int])));
        }
        i = i + 1;
    }
    assert(t@.take(i as int) =~= t@);
    r.push(cur);
    r
}

/// Greedy soft wrap of `row` at `width` columns, as a state after its first
/// characters: the finished pieces, the piece being filled and its width. A
/// character that does not fit in the current piece starts a new one.
pub open spec fn wrap_state(row: Seq<char>, width: int) -> (Seq<Seq<char>>, Seq<char>, int)
    decreases row.len(),
{
    if row.len() == 0 {
        (Seq::empty(), Seq::empty(), 0)
    } else {
        let (done, cur, w) = wrap_state(row.drop_last(), width);
        let c = row.last();
        if cur.len() > 0 && w + cols(c) > width {
            (done.push(cur), seq![c], cols(c))
        } else {
            (done, cur.push(c), w + cols(c))
        }
    }
}

/// The pieces of `row` once soft-wrapped at `width` columns; an empty row
/// gives one empty piece.
pub open spec fn wrap(row: Seq<char>, width: int) -> Seq<Seq<char>> {
    let (done, cur, _) = wrap_state(row, width);
    done.push(cur)
}

/// The width of a piece, as the wrap counts it.
pub open spec fn piece_cols(p: Seq<char>) -> int
    decreases p.len(),
{
    if p.len() == 0 {
        0
    } else {
        piece_cols(p.drop_last()) + cols(p.last())
    }
}

proof fn lemma_wrap_width(row: Seq<char>, width: int)
    ensures
        wrap_state(row, width).2 == piece_cols(wrap_state(row, width).1),
        wrap_state(row, width).1.len() == 0 ==> wrap_state(row, width).2 == 0,
    decreases row.len(),
{
    if row.len() > 0 {
        lemma_wrap_width(row.drop_last(), width);
        let (done, cur, w) = wrap_state(row.drop_last(), width);
        let c = row.last();
        assert(seq![c].drop_last() =~= Seq::<char>::empty());
        assert(cur.push(c).drop_last() =~= cur);
        assert(piece_cols(Seq::<char>::empty()) == 0);
        assert(piece_cols(seq![c]) == cols(c));
        assert(piece_cols(cur.push(c)) == piece_cols(cur) + cols(c));
    }
}

fn wrap_row(row: &Vec<char>, width: usize) -> (r: Vec<Vec<char>>)
    ensures
        nested_view(r@) == wrap(row@, width as int),
{
    let mut done: Vec<Vec<char>> = Vec::new();
    let mut cur: Vec<char> = Vec::new();
    let mut w: usize = 0;
    let mut i: usize = 0;
    while i < row.len()
        invariant
            i <= row@.len(),
            (nested_view(done@), cur@, w as int) == wrap_state(row@.take(i as int), width as int),
        decreases row@.len() - i,
    {
        proof {
            assert(row@.take(i + 1).drop_last() =~= row@.take(i as int));
            lemma_wrap_width(row@.take(i as int), width as int);
        }
        let c = row[i];
        let cw = cols_of(c);
        if cur.len() > 0 && (w > width || cw > width - w) {
            let mut full: Vec<char> = Vec::new();
            core::mem::swap(&mut full, &mut cur);
            done.push(full);
            cur.push(c);
            w = cw;
            assert(nested_view(done@) =~= wrap_state(row@.take(i as int), width as int).0.push(full@));
            assert(cur@ =~= seq![c]);
        } else {
            cur.push(c);
            w = w + cw;
            assert(nested_view(done@) =~= wrap_state(row@.take(i as int), width as int).0);
        }
        i = i + 1;
    }
    assert(row@.take(i as int) =~= row@);
    proof {
        lemma_wrap_width(row@, width as int);
    }
    done.push(cur);
    assert(nested_view(done@) =~= wrap(row@, width as int));
    done
}

pub open spec fn digit(d: int) -> char {
    seq!['0', '1', '2', '3', '4', '5', '6', '7', '8', '9'][d]
}

/// The decimal digits of `n`.
pub open spec fn decimal(n: nat) -> Seq<char>
    decreases n,
{
    if n < 10 {
        seq![digit(n as int)]
    } else {
        decimal(n / 10).push(digit((n % 10) as int))
    }
}

fn decimal_digits(n: usize) -> (r: Vec<char>)
    ensures
        r@ == decimal(n as nat),
    decreases n,
{
    let digits = vec!['0', '1', '2', '3', '4', '5', '6', '7', '8', '9'];
    assert(digits@ =~= seq!['0', '1', '2', '3', '4', '5', '6', '7', '8', '9']);
    if n < 10 {
        vec![digits[n]]
    } else {
        let mut r = decimal_digits(n / 10);
        r.push(digits[n % 10]);
        r
    }
}

/// A line that opens or closes a fenced code block.
pub open spec fn is_fence(l: Seq<char>) -> bool {
    l.len() >= 3 && l[0] == '`' && l[1] == '`' && l[2] == '`'
}

/// The tag put before the opening fence of the `n`-th code block: `[n] `.
pub open spec fn block_tag(n: nat) -> Seq<char> {
    seq!['['] + decimal(n) + seq![']', ' ']
}

/// The rows that `lines` of a message's text make: their content and kind,
/// whether a code block is left open, and the number of the last code block
/// opened (numbering goes on from `first`).
pub open spec fn annotate(lines: Seq<Seq<char>>, first: nat) -> (Seq<(Seq<char>, SpanKind)>, bool, nat)
    decreases lines.len(),
{
    if lines.len() == 0 {
        (Seq::empty(), false, first)
    } else {
        let (rows, open, n) = annotate(lines.drop_last(), first);
        let l = lines.last();
        if is_fence(l) {
            if open {
                (rows.push((l, SpanKind::Code)), false, n)
            } else {
                let m = if n < usize::MAX { n + 1 } else { n };
                (rows.push((block_tag(m) + l, SpanKind::Code)), true, m)
            }
        } else {
            (rows.push((l, if open { SpanKind::Code } else { SpanKind::Text })), open, n)
        }
    }
}

/// The number of code blocks opened in `t`.
pub open spec fn codeblock_count(t: Seq<char>) -> nat {
    annotate(split_lines(t), 0).2
}

pub(crate) proof fn lemma_annotate_bound(lines: Seq<Seq<char>>, first: nat)
    requires
        first <= usize::MAX,
    ensures
        first <= annotate(lines, first).2 <= usize::MAX,
        annotate(lines, first).0.len() == lines.len(),
    decreases lines.len(),
{
    if lines.len() > 0 {
        lemma_annotate_bound(lines.drop_last(), first);
    }
}

fn is_fence_line(l: &Vec<char>) -> (r: bool)
    ensures
        r == is_fence(l@),
{
    l.len() >= 3 && l[0] == '`' && l[1] == '`' && l[2] == '`'
}

pub open spec fn rows_view(v: Seq<(Vec<char>, SpanKind)>) -> Seq<(Seq<char>, SpanKind)> {
    v.map_values(|r: (Vec<char>, SpanKind)| (r.0@, r.1))
}

fn annotate_lines(lines: Vec<Vec<char>>, first: usize) -> (r: (Vec<(Vec<char>, SpanKind)>, usize))
    ensures
        rows_view(r.0@) == annotate(nested_view(lines@), first as nat).0,
        r.1 as nat == annotate(nested_view(lines@), first as nat).2,
{
    let ghost all = nested_view(lines@);
    let mut rows: Vec<(Vec<char>, SpanKind)> = Vec::new();
    let mut open: bool = false;
    let mut n: usize = first;
    let mut i: usize = 0;
    let total = lines.len();
    let mut lines = lines;
    while i < total
        invariant
            total == all.len(),
            i <= all.len(),
            lines@.len() == all.len(),
            forall|k: int| i <= k < lines@.len() ==> lines@[k]@ == all[k],
            (rows_view(rows@), open, n as nat) == annotate(all.take(i as int), first as nat),
        decreases all.len() - i,
    {
        proof {
            assert(all.take(i + 1).drop_last() =~= all.take(i as int));
        }
        let mut l: Vec<char> = Vec::new();
        core::mem::swap(&mut l, &mut lines[i]);
        assert(l@ == all[i as int]);
        let ghost prev = rows_view(rows@);
        if is_fence_line(&l) {
            if open {
                rows.push((l, SpanKind::Code));
                open = false;
            } else {
                if n < usize::MAX {
                    n = n + 1;
                }
                let mut tagged: Vec<char> = vec!['['];
                let mut digits = decimal_digits(n);
                tagged.append(&mut digits);
                tagged.push(']');
                tagged.push(' ');
                let mut rest = l;
                tagged.append(&mut rest);
                assert(tagged@ =~= block_tag(n as nat) + all[i as int]);
                rows.push((tagged, SpanKind::Code));
                open = true;
            }
        } else {
            let kind = if open {
                SpanKind::Code
            } else {
                SpanKind::Text
            };
            rows.push((l, kind));
        }
        assert(rows_view(rows@) =~= prev.push(rows_view(rows@).last()));
        i = i + 1;
    }
    assert(all.take(i as int) =~= all);
    (rows, n)
}

/// Columns inside a bubble's frame for a chat `width` columns wide: the width
/// less its outer padding (a twenty-fifth, rounded down), less eight columns
/// of bubble padding and the two border columns; never less than one.
pub open spec fn inner_width(width: int) -> int {
    let trimmed = width - width / 25;
    if trimmed - 10 >= 1 {
        trimmed - 10
    } else {
        1
    }
}

/// Blank columns to the left of a bubble: right-aligned bubbles sit against
/// the right edge.
pub open spec fn pad_width(width: int, inner: int, right: bool) -> int {
    if right && width > inner + 4 {
        width - inner - 4
    } else {
        0
    }
}

pub open spec fn repeated(c: char, n: int) -> Seq<char> {
    Seq::new(n as nat, |_i: int| c)
}

pub open spec fn plain(content: Seq<char>, kind: SpanKind) -> SpanView {
    (content, kind, false)
}

pub open spec fn lead(pad: int) -> Seq<SpanView> {
    if pad > 0 {
        seq![plain(repeated(' ', pad), SpanKind::Padding)]
    } else {
        Seq::empty()
    }
}

pub open spec fn fill_cols(p: Seq<char>, inner: int) -> int {
    if piece_cols(p) >= inner {
        0
    } else {
        inner - piece_cols(p)
    }
}

pub open spec fn edge_line(left: char, right: char, inner: int, pad: int) -> Seq<SpanView> {
    lead(pad) + seq![plain(seq![left] + repeated('─', inner + 2) + seq![right], SpanKind::Border)]
}

pub open spec fn label_line(label: Seq<char>, inner: int, pad: int, right: bool) -> Seq<SpanView> {
    let gap = plain(repeated(' ', fill_cols(label, inner)), SpanKind::Padding);
    let name = plain(label, SpanKind::Label);
    lead(pad) + seq![plain(seq!['│', ' '], SpanKind::Border)] + (if right {
        seq![gap, name]
    } else {
        seq![name, gap]
    }) + seq![plain(seq![' ', '│'], SpanKind::Border)]
}

pub open spec fn frame_line(p: Seq<char>, kind: SpanKind, inner: int, pad: int) -> Seq<SpanView> {
    lead(pad) + seq![
        plain(seq!['│', ' '], SpanKind::Border),
        plain(p, kind),
        plain(repeated(' ', fill_cols(p, inner)), SpanKind::Padding),
        plain(seq![' ', '│'], SpanKind::Border),
    ]
}

pub open spec fn framed(pieces: Seq<Seq<char>>, kind: SpanKind, inner: int, pad: int) -> Seq<Seq<SpanView>> {
    pieces.map_values(|p: Seq<char>| frame_line(p, kind, inner, pad))
}

/// The framed, wrapped rows of a bubble's body.
pub open spec fn body_lines(rows: Seq<(Seq<char>, SpanKind)>, inner: int, pad: int) -> Seq<Seq<SpanView>>
    decreases rows.len(),
{
    if rows.len() == 0 {
        Seq::empty()
    } else {
        body_lines(rows.drop_last(), inner, pad) + framed(
            wrap(rows.last().0, inner),
            rows.last().1,
            inner,
            pad,
        )
    }
}

/// The lines of the bubble of a message with text `text`, shown under
/// `label`, in a chat `width` columns wide, its code blocks numbered on from
/// `first`: the top edge, the label, the body and the bottom edge.
pub open spec fn bubble_view(text: Seq<char>, label: Seq<char>, right: bool, width: int, first: nat) -> Seq<Seq<SpanView>> {
    let inner = inner_width(width);
    let pad = pad_width(width, inner, right);
    seq![edge_line('╭', '╮', inner, pad), label_line(label, inner, pad, right)] + body_lines(
        annotate(split_lines(text), first).0,
        inner,
        pad,
    ) + seq![edge_line('╰', '╯', inner, pad)]
}

fn repeat_char(c: char, n: usize) -> (r: String)
    ensures
        r@ == repeated(c, n as int),
{
    let mut r = String::new();
    let mut i: usize = 0;
    while i < n
        invariant
            i <= n,
            r@ == repeated(c, i as int),
        decreases n - i,
    {
        push_char(&mut r, c);
        i = i + 1;
        assert(r@ =~= repeated(c, i as int));
    }
    r
}

fn string_of(v: &Vec<char>) -> (r: String)
    ensures
        r@ == v@,
{
    let mut r = String::new();
    let mut i: usize = 0;
    while i < v.len()
        invariant
            i <= v@.len(),
            r@ == v@.take(i as int),
        decreases v@.len() - i,
    {
        push_char(&mut r, v[i]);
        i = i + 1;
        assert(r@ =~= v@.take(i as int));
    }
    assert(v@.take(i as int) =~= v@);
    r
}

fn make_span(content: String, kind: SpanKind) -> (r: StyledSpan)
    ensures
        r@ == plain(content@, kind),
{
    StyledSpan { content, kind, selected: false }
}

proof fn lemma_piece_cols_mono(p: Seq<char>, i: int)
    requires
        0 <= i <= p.len(),
    ensures
        piece_cols(p.take(i)) <= piece_cols(p),
    decreases p.len() - i,
{
    if i < p.len() {
        lemma_piece_cols_mono(p, i + 1);
        assert(p.take(i + 1).drop_last() =~= p.take(i));
    } else {
        assert(p.take(i) =~= p);
    }
}

fn fill_after(p: &Vec<char>, inner: usize) -> (r: usize)
    ensures
        r as int == fill_cols(p@, inner as int),
{
    let mut acc: usize = 0;
    let mut i: usize = 0;
    while i < p.len()
        invariant
            i <= p@.len(),
            acc as int == piece_cols(p@.take(i as int)),
            acc < inner || (i == 0 && inner == 0),
        decreases p@.len() - i,
    {
        assert(p@.take(i + 1).drop_last() =~= p@.take(i as int));
        let cw = cols_of(p[i]);
        if acc >= inner || cw >= inner - acc {
            proof {
                lemma_piece_cols_mono(p@, i + 1);
            }
            return 0;
        }
        acc = acc + cw;
        i = i + 1;
    }
    assert(p@.take(i as int) =~= p@);
    if acc >= inner {
        0
    } else {
        inner - acc
    }
}

fn lead_spans(pad: usize) -> (r: Vec<StyledSpan>)
    ensures
        r@.map_values(|s: StyledSpan| s@) == lead(pad as int),
{
    let mut r: Vec<StyledSpan> = Vec::new();
    if pad > 0 {
        r.push(make_span(repeat_char(' ', pad), SpanKind::Padding));
    }
    assert(r@.map_values(|s: StyledSpan| s@) =~= lead(pad as int));
    r
}

fn edge(left: char, right: char, inner: usize, pad: usize) -> (r: StyledLine)
    requires
        inner + 2 <= usize::MAX,
    ensures
        r@ == edge_line(left, right, inner as int, pad as int),
{
    let mut content = String::new();
    push_char(&mut content, left);
    let n = inner + 2;
    let mut i: usize = 0;
    while i < n
        invariant
            n == inner + 2,
            i <= n,
            content@ == seq![left] + repeated('─', i as int),
        decreases n - i,
    {
        push_char(&mut content, '─');
        i = i + 1;
        assert(content@ =~= seq![left] + repeated('─', i as int));
    }
    push_char(&mut content, right);
    assert(content@ =~= seq![left] + repeated('─', n as int) + seq![right]);
    let mut spans = lead_spans(pad);
    let ghost before = spans@.map_values(|s: StyledSpan| s@);
    spans.push(make_span(content, SpanKind::Border));
    let r = StyledLine { spans };
    assert(r@ =~= before + seq![plain(seq![left] + repeated('─', inner + 2) + seq![right], SpanKind::Border)]);
    r
}

fn bar(first: char, second: char) -> (r: StyledSpan)
    ensures
        r@ == plain(seq![first, second], SpanKind::Border),
{
    let mut content = String::new();
    push_char(&mut content, first);
    push_char(&mut content, second);
    assert(content@ =~= seq![first, second]);
    make_span(content, SpanKind::Border)
}

fn label_row(label: &Vec<char>, inner: usize, pad: usize, right: bool) -> (r: StyledLine)
    ensures
        r@ == label_line(label@, inner as int, pad as int, right),
{
    let mut spans = lead_spans(pad);
    let ghost before = spans@.map_values(|s: StyledSpan| s@);
    spans.push(bar('│', ' '));
    let gap = make_span(repeat_char(' ', fill_after(label, inner)), SpanKind::Padding);
    let name = make_span(string_of(label), SpanKind::Label);
    if right {
        spans.push(gap);
        spans.push(name);
    } else {
        spans.push(name);
        spans.push(gap);
    }
    spans.push(bar(' ', '│'));
    let r = StyledLine { spans };
    assert(r@ =~= label_line(label@, inner as int, pad as int, right));
    r
}

fn frame_row(p: &Vec<char>, kind: SpanKind, inner: usize, pad: usize) -> (r: StyledLine)
    ensures
        r@ == frame_line(p@, kind, inner as int, pad as int),
{
    let mut spans = lead_spans(pad);
    spans.push(bar('│', ' '));
    spans.push(make_span(string_of(p), kind));
    spans.push(make_span(repeat_char(' ', fill_after(p, inner)), SpanKind::Padding));
    spans.push(bar(' ', '│'));
    let r = StyledLine { spans };
    assert(r@ =~= frame_line(p@, kind, inner as int, pad as int));
    r
}

/// Lays out the bubble of one message. Also returns the number of the last
/// code block opened up to and in this message.
pub fn bubble_lines(text: &str, label: &str, right: bool, width: usize, first: usize) -> (r: (
    Vec<StyledLine>,
    usize,
))
    ensures
        lines_view(r.0@) == bubble_view(text@, label@, right, width as int, first as nat),
        r.1 as nat == annotate(split_lines(text@), first as nat).2,
{
    let trimmed = width - width / 25;
    let inner: usize = if trimmed >= 11 {
        trimmed - 10
    } else {
        1
    };
    let pad: usize = if right && width > inner && width - inner > 4 {
        width - inner - 4
    } else {
        0
    };
    assert(inner as int == inner_width(width as int));
    assert(pad as int == pad_width(width as int, inner as int, right));
    let chars = chars_of(text);
    let lines = split_text(&chars);
    let (rows, last) = annotate_lines(lines, first);
    let label_chars = chars_of(label);
    let mut out: Vec<StyledLine> = Vec::new();
    out.push(edge('╭', '╮', inner, pad));
    out.push(label_row(&label_chars, inner, pad, right));
    let ghost rv = rows_view(rows@);
    let ghost head = seq![
        edge_line('╭', '╮', inner as int, pad as int),
        label_line(label@, inner as int, pad as int, right),
    ];
    assert(rv.take(0) =~= Seq::<(Seq<char>, SpanKind)>::empty());
    assert(lines_view(out@) =~= head + body_lines(rv.take(0), inner as int, pad as int));
    let mut i: usize = 0;
    while i < rows.len()
        invariant
            i <= rows@.len(),
            rv == rows_view(rows@),
            lines_view(out@) == head + body_lines(rv.take(i as int), inner as int, pad as int),
        decreases rows@.len() - i,
    {
        let pieces = wrap_row(&rows[i].0, inner);
        let kind = rows[i].1;
        let ghost pv = nested_view(pieces@);
        let ghost done = lines_view(out@);
        assert(pv.take(0) =~= Seq::<Seq<char>>::empty());
        assert(lines_view(out@) =~= done + framed(pv.take(0), kind, inner as int, pad as int));
        let mut j: usize = 0;
        while j < pieces.len()
            invariant
                j <= pieces@.len(),
                pv == nested_view(pieces@),
                lines_view(out@) == done + framed(pv.take(j as int), kind, inner as int, pad as int),
            decreases pieces@.len() - j,
        {
            let line = frame_row(&pieces[j], kind, inner, pad);
            assert(pv[j as int] == pieces@[j as int]@);
            let ghost before = lines_view(out@);
            let ghost lv = line@;
            out.push(line);
            assert(lines_view(out@) =~= before.push(lv));
            j = j + 1;
            assert(framed(pv.take(j as int), kind, inner as int, pad as int) =~= framed(
                pv.take(j - 1),
                kind,
                inner as int,
                pad as int,
            ).push(frame_line(pv[j - 1], kind, inner as int, pad as int)));
            assert(lines_view(out@) =~= done + framed(pv.take(j as int), kind, inner as int, pad as int));
        }
        assert(pv.take(j as int) =~= pv);
        assert(rv.take(i + 1).drop_last() =~= rv.take(i as int));
        assert(rv[i as int] == (rows@[i as int].0@, kind));
        i = i + 1;
        assert(body_lines(rv.take(i as int), inner as int, pad as int) == body_lines(
            rv.take(i - 1),
            inner as int,
            pad as int,
        ) + framed(pv, kind, inner as int, pad as int));
        assert(lines_view(out@) =~= head + body_lines(rv.take(i as int), inner as int, pad as int));
    }
    assert(rv.take(i as int) =~= rv);
    out.push(edge('╰', '╯', inner, pad));
    assert(lines_view(out@) =~= bubble_view(text@, label@, right, width as int, first as nat));
    (out, last)
}

/// Bubbles laid out at two widths with different inner widths differ: their
/// top edges have different lengths. So after a change of width every entry
/// laid out afresh differs from the one it replaces.
pub proof fn lemma_width_changes_bubble(
    text: Seq<char>,
    label: Seq<char>,
    right: bool,
    w1: int,
    w2: int,
    first: nat,
)
    requires
        inner_width(w1) != inner_width(w2),
    ensures
        bubble_view(text, label, right, w1, first)[0] != bubble_view(text, label, right, w2, first)[0],
{
    let i1 = inner_width(w1);
    let i2 = inner_width(w2);
    let e1 = edge_line('╭', '╮', i1, pad_width(w1, i1, right));
    let e2 = edge_line('╭', '╮', i2, pad_width(w2, i2, right));
    assert(bubble_view(text, label, right, w1, first)[0] == e1);
    assert(bubble_view(text, label, right, w2, first)[0] == e2);
    assert(e1.last().0.len() == i1 + 4);
    assert(e2.last().0.len() == i2 + 4);
}

} // verus!
