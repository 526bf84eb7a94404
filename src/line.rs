use vstd::prelude::*;
use vstd::std_specs::iter::IteratorSpec;

verus! {

/// What a piece of a rendered bubble is, which decides its colour.
#[derive(Clone, Copy, Debug, PartialEq, Eq, Structural)]
pub enum SpanKind {
    Border,
    Label,
    Text,
    Code,
    Padding,
}

/// A run of text with one style. `selected` is the selection background.
pub struct StyledSpan {
    pub content: String,
    pub kind: SpanKind,
    pub selected: bool,
}

/// One terminal row of a bubble.
pub struct StyledLine {
    pub spans: Vec<StyledSpan>,
}

pub type SpanView = (Seq<char>, SpanKind, bool);

impl View for StyledSpan {
    type V = SpanView;

    open spec fn view(&self) -> SpanView {
        (self.content@, self.kind, self.selected)
    }
}

impl View for StyledLine {
    type V = Seq<SpanView>;

    open spec fn view(&self) -> Seq<SpanView> {
        self.spans@.map_values(|s: StyledSpan| s@)
    }
}

pub open spec fn lines_view(v: Seq<StyledLine>) -> Seq<Seq<SpanView>> {
    v.map_values(|l: StyledLine| l@)
}

/// The display width of a string in terminal columns.
pub uninterp spec fn str_cols(s: Seq<char>) -> nat;

/// Relies on unicode_width's `UnicodeWidthStr::width` for `str`: the number of
/// terminal columns the string takes.
#[verifier::external_body]
pub(crate) fn display_width(s: &str) -> (r: usize)
    ensures
        r as nat == str_cols(s@),
{
    unicode_width::UnicodeWidthStr::width(s)
}

/// The characters of `s`, in order.
pub fn chars_of(s: &str) -> (r: Vec<char>)
    ensures
        r@ == s@,
{
    broadcast use vstd::string::axiom_spec_iter, vstd::string::next_postcondition;

    let mut it = s.chars();
    let mut r: Vec<char> = Vec::new();
    loop
        invariant
            r@ + IteratorSpec::remaining(&it) == s@,
            IteratorSpec::decrease(&it) is Some,
        ensures
            r@ == s@,
        decreases IteratorSpec::decrease(&it)->0,
    {
        match it.next() {
            Some(c) => {
                r.push(c);
                assert(r@ + IteratorSpec::remaining(&it) =~= s@);
            },
            None => {
                assert(r@ =~= s@);
                break;
            },
        }
    }
    r
}

/// Relies on `String::push`: appends one character.
#[verifier::external_body]
pub(crate) fn push_char(s: &mut String, c: char)
    ensures
        final(s)@ == old(s)@.push(c),
{
    s.push(c)
}

pub open spec fn is_frame_glyph(c: char) -> bool {
    c == '│' || c == '─' || c == '╭' || c == '╮' || c == '╰' || c == '╯'
}

/// Unicode's White_Space property, as `char::is_whitespace` documents it.
pub open spec fn is_blank(c: char) -> bool {
    ('\u{9}' <= c && c <= '\u{d}') || c == ' ' || c == '\u{85}' || c == '\u{a0}'
        || c == '\u{1680}' || ('\u{2000}' <= c && c <= '\u{200a}') || c == '\u{2028}'
        || c == '\u{2029}' || c == '\u{202f}' || c == '\u{205f}' || c == '\u{3000}'
}

pub fn blank(c: char) -> (r: bool)
    ensures
        r == is_blank(c),
{
    ('\u{9}' <= c && c <= '\u{d}') || c == ' ' || c == '\u{85}' || c == '\u{a0}'
        || c == '\u{1680}' || ('\u{2000}' <= c && c <= '\u{200a}') || c == '\u{2028}'
        || c == '\u{2029}' || c == '\u{202f}' || c == '\u{205f}' || c == '\u{3000}'
}

pub fn frame_glyph(c: char) -> (r: bool)
    ensures
        r == is_frame_glyph(c),
{
    c == '│' || c == '─' || c == '╭' || c == '╮' || c == '╰' || c == '╯'
}

pub fn contains_char(s: &Vec<char>, c: char) -> (r: bool)
    ensures
        r == s@.contains(c),
{
    let mut i: usize = 0;
    while i < s.len()
        invariant
            i <= s.len(),
            forall|k: int| 0 <= k < i ==> s@[k] != c,
        decreases s.len() - i,
    {
        if s[i] == c {
            return true;
        }
        i = i + 1;
    }
    false
}

pub open spec fn sat_add(a: int, b: int) -> int {
    if a + b > usize::MAX {
        usize::MAX as int
    } else {
        a + b
    }
}

pub open spec fn opt_col(o: Option<usize>) -> Option<int> {
    match o {
        Some(e) => Some(e as int),
        None => None,
    }
}

pub open spec fn mark(s: SpanView) -> SpanView {
    (s.0, s.1, true)
}

/// The spans of a row after selecting what lies between its two vertical
/// bars from display column `start` up to `end`. `col` is the column the
/// next span starts at and `inside` says whether the left bar has been
/// passed. The bars are the border spans holding `│`; other border spans
/// are edges. A span of text is selected when it reaches past `start`;
/// nothing from the first span that starts at or after `end` on is; borders,
/// padding, and spans that are blank or only frame glyphs once trimmed are
/// never selected.
pub open spec fn highlight_spans(
    spans: Seq<SpanView>,
    col: int,
    inside: bool,
    start: int,
    end: Option<int>,
) -> Seq<SpanView>
    decreases spans.len(),
{
    if spans.len() == 0 {
        spans
    } else if end is Some && col >= end->0 {
        spans
    } else {
        let s = spans[0];
        let rest = spans.drop_first();
        let next = sat_add(col, str_cols(s.0) as int);
        if s.1 == SpanKind::Border {
            if !s.0.contains('│') {
                seq![s] + highlight_spans(rest, next, inside, start, end)
            } else if inside {
                spans
            } else {
                seq![s] + highlight_spans(rest, next, true, start, end)
            }
        } else {
            let s2 = if inside && next > start && s.1 != SpanKind::Padding && !is_filler(s.0) {
                mark(s)
            } else {
                s
            };
            seq![s2] + highlight_spans(rest, next, inside, start, end)
        }
    }
}

pub open spec fn highlight_row(spans: Seq<SpanView>, start: int, end: Option<int>) -> Seq<SpanView> {
    highlight_spans(spans, 0, false, start, end)
}

proof fn lemma_skip_step<T>(s: Seq<T>, i: int)
    requires
        0 <= i < s.len(),
    ensures
        s.skip(i).len() > 0,
        s.skip(i)[0] == s[i],
        s.skip(i).drop_first() == s.skip(i + 1),
{
    assert(s.skip(i).drop_first() =~= s.skip(i + 1));
}

/// Marks as selected the text spans of `line` between its bars that reach
/// past column `start_column`, stopping at the first span that starts at or
/// after `end_column` where one is given. Borders, padding and spans that are
/// blank or only frame glyphs stay unmarked.
pub fn highlight_line(line: &mut StyledLine, start_column: usize, end_column: Option<usize>)
    ensures
        final(line)@ == highlight_row(old(line)@, start_column as int, opt_col(end_column)),
{
    let ghost orig = line@;
    let mut inside: bool = false;
    let mut col: usize = 0;
    let mut i: usize = 0;
    assert(orig.skip(0) =~= orig);
    while i < line.spans.len()
        invariant
            orig == old(line)@,
            line@.len() == orig.len(),
            line.spans@.len() == orig.len(),
            0 <= i <= orig.len(),
            forall|k: int| i <= k < orig.len() ==> line@[k] == orig[k],
            highlight_row(orig, start_column as int, opt_col(end_column)) == line@.take(i as int) + highlight_spans(
                orig.skip(i as int),
                col as int,
                inside,
                start_column as int,
                opt_col(end_column),
            ),
        decreases orig.len() - i,
    {
        proof {
            lemma_skip_step(orig, i as int);
        }
        let ghost before = line@;
        let ghost unfolded = highlight_spans(orig.skip(i as int), col as int, inside, start_column as int, opt_col(end_column));
        let stop = match end_column {
            Some(e) => col >= e,
            None => false,
        };
        if stop {
            assert(unfolded == orig.skip(i as int));
            assert(line@ =~= line@.take(i as int) + orig.skip(i as int));
            return;
        }
        let chars = chars_of(line.spans[i].content.as_str());
        let w = display_width(line.spans[i].content.as_str());
        assert(line@[i as int] == orig[i as int]);
        assert(chars@ == orig[i as int].0);
        let next: usize = if col > usize::MAX - w {
            usize::MAX
        } else {
            col + w
        };
        let kind = line.spans[i].kind;
        if kind == SpanKind::Border && contains_char(&chars, '│') {
            if inside {
                assert(unfolded == orig.skip(i as int));
                assert(line@ =~= line@.take(i as int) + orig.skip(i as int));
                return;
            }
            assert(unfolded == seq![orig[i as int]] + highlight_spans(
                orig.skip(i + 1),
                next as int,
                true,
                start_column as int,
                opt_col(end_column),
            ));
            inside = true;
            col = next;
            i = i + 1;
            assert(line@.take(i as int) =~= before.take(i - 1) + seq![orig[i - 1]]);
        } else if kind == SpanKind::Border {
            assert(unfolded == seq![orig[i as int]] + highlight_spans(
                orig.skip(i + 1),
                next as int,
                inside,
                start_column as int,
                opt_col(end_column),
            ));
            col = next;
            i = i + 1;
            assert(line@.take(i as int) =~= before.take(i - 1) + seq![orig[i - 1]]);
        } else {
            if inside && next > start_column && kind != SpanKind::Padding && !filler(&chars) {
                line.spans[i].selected = true;
                assert(line@[i as int] == mark(orig[i as int]));
            }
            assert(line@ =~= before.update(i as int, line@[i as int]));
            assert(unfolded == seq![line@[i as int]] + highlight_spans(
                orig.skip(i + 1),
                next as int,
                inside,
                start_column as int,
                opt_col(end_column),
            ));
            col = next;
            i = i + 1;
            assert(line@.take(i as int) =~= before.take(i - 1) + seq![line@[i - 1]]);
        }
    }
    assert(line@ =~= line@.take(i as int));
    assert(orig.skip(i as int) =~= Seq::<SpanView>::empty());
}

/// A span made of blanks and, between them, frame glyphs only: once trimmed
/// it is empty or holds nothing but frame glyphs.
pub open spec fn is_filler(s: Seq<char>) -> bool {
    &&& forall|k: int| 0 <= k < s.len() ==> is_blank(#[trigger] s[k]) || is_frame_glyph(s[k])
    &&& forall|a: int, b: int, c: int|
        0 <= a < b < c < s.len() && !is_blank(#[trigger] s[a]) && !is_blank(#[trigger] s[c])
            ==> !is_blank(#[trigger] s[b])
}

pub fn filler(s: &Vec<char>) -> (r: bool)
    ensures
        r == is_filler(s@),
{
    let mut seen: bool = false;
    let mut gap: bool = false;
    let ghost mut first: int = 0;
    let ghost mut hole: int = 0;
    let mut i: usize = 0;
    while i < s.len()
        invariant
            i <= s.len(),
            forall|k: int| 0 <= k < i ==> is_blank(#[trigger] s@[k]) || is_frame_glyph(s@[k]),
            forall|a: int, b: int, c: int|
                0 <= a < b < c < i && !is_blank(#[trigger] s@[a]) && !is_blank(#[trigger] s@[c])
                    ==> !is_blank(#[trigger] s@[b]),
            !seen ==> forall|k: int| 0 <= k < i ==> is_blank(#[trigger] s@[k]),
            seen ==> 0 <= first < i && !is_blank(s@[first]),
            !gap ==> forall|a: int, b: int|
                0 <= a < b < i && !is_blank(#[trigger] s@[a]) ==> !is_blank(#[trigger] s@[b]),
            gap ==> 0 <= first < hole < i && !is_blank(s@[first]) && is_blank(s@[hole]),
        decreases s.len() - i,
    {
        let c = s[i];
        if blank(c) {
            if seen && !gap {
                gap = true;
                proof {
                    hole = i as int;
                }
            }
        } else {
            if !frame_glyph(c) {
                return false;
            }
            if gap {
                assert(!is_blank(s@[first]) && is_blank(s@[hole]) && !is_blank(s@[i as int]));
                return false;
            }
            if !seen {
                seen = true;
                proof {
                    first = i as int;
                }
            }
        }
        i = i + 1;
    }
    true
}

/// A span that a selection copies out: selected, and not filler.
pub open spec fn picked(s: SpanView) -> bool {
    s.2 && !is_filler(s.0)
}

/// The selected text of a row, its picked spans one after another.
pub open spec fn selected_text(spans: Seq<SpanView>) -> Seq<char>
    decreases spans.len(),
{
    if spans.len() == 0 {
        Seq::empty()
    } else {
        selected_text(spans.drop_last()) + if picked(spans.last()) {
            spans.last().0
        } else {
            Seq::empty()
        }
    }
}

pub fn line_selection(line: &StyledLine) -> (r: String)
    ensures
        r@ == selected_text(line@),
{
    let mut r = String::new();
    let mut i: usize = 0;
    while i < line.spans.len()
        invariant
            i <= line@.len(),
            line@.len() == line.spans@.len(),
            r@ == selected_text(line@.take(i as int)),
        decreases line.spans@.len() - i,
    {
        let span = &line.spans[i];
        let chars = chars_of(span.content.as_str());
        assert(line@.take(i + 1).drop_last() =~= line@.take(i as int));
        assert(line@[i as int] == span@);
        if span.selected && !filler(&chars) {
            r.append(span.content.as_str());
        }
        i = i + 1;
    }
    assert(line@.take(i as int) =~= line@);
    r
}

pub open spec fn unmark(s: SpanView) -> SpanView {
    (s.0, s.1, false)
}

pub open spec fn cleared(spans: Seq<SpanView>) -> Seq<SpanView> {
    spans.map_values(|s: SpanView| unmark(s))
}

/// Takes the selection background off every span of `line`.
pub fn clear_line(line: &mut StyledLine)
    ensures
        final(line)@ == cleared(old(line)@),
{
    let mut i: usize = 0;
    while i < line.spans.len()
        invariant
            i <= line@.len(),
            line@.len() == old(line)@.len(),
            line@.len() == line.spans@.len(),
            forall|k: int| 0 <= k < i ==> line@[k] == unmark(old(line)@[k]),
            forall|k: int| i <= k < line@.len() ==> line@[k] == old(line)@[k],
        decreases line.spans@.len() - i,
    {
        let ghost before = line@;
        line.spans[i].selected = false;
        assert(line@[i as int] == unmark(before[i as int]));
        assert(line@ =~= before.update(i as int, unmark(before[i as int])));
        i = i + 1;
    }
    assert(line@ =~= cleared(old(line)@));
}

/// A copy of `line`.
pub fn copy_line(line: &StyledLine) -> (r: StyledLine)
    ensures
        r@ == line@,
{
    let mut spans: Vec<StyledSpan> = Vec::new();
    let mut i: usize = 0;
    while i < line.spans.len()
        invariant
            i <= line@.len(),
            line@.len() == line.spans@.len(),
            spans@.map_values(|s: StyledSpan| s@) == line@.take(i as int),
        decreases line.spans@.len() - i,
    {
        let s = &line.spans[i];
        let ghost before = spans@.map_values(|s: StyledSpan| s@);
        let copy = StyledSpan { content: s.content.clone(), kind: s.kind, selected: s.selected };
        assert(copy@ == s@);
        assert(line@[i as int] == s@);
        spans.push(copy);
        assert(spans@.map_values(|s: StyledSpan| s@) =~= before.push(s@));
        i = i + 1;
        assert(spans@.map_values(|s: StyledSpan| s@) =~= line@.take(i as int));
    }
    let r = StyledLine { spans };
    assert(line@.take(i as int) =~= line@);
    assert(r@ =~= line@);
    r
}

} // verus!
