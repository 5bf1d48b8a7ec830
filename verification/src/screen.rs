//! Styled text for a terminal, and how wide it is.
use crate::text::{cat2, chars_of, repeat, repeat_char, views};
use unicode_width::UnicodeWidthStr;
use vstd::prelude::*;

verus! {

// ----- styles -----

/// The colours that the client uses.
#[derive(Debug, Clone, Copy, PartialEq, Eq, Structural)]
pub enum Color {
    Blue,
    Green,
    Gray,
    Dim,
    Accent,
    White,
    Red,
    /// The remark under an edited message.
    Faint,
    /// Reactions.
    Pale,
    /// Behind the selected row of a list.
    Shade,
}

impl Color {
    /// The red, green and blue of a colour; none for white and red, which the terminal names.
    pub open spec fn parts(self) -> Option<(u8, u8, u8)> {
        match self {
            Color::Blue => Some((0, 122, 255)),
            Color::Green => Some((52, 199, 89)),
            Color::Gray => Some((58, 58, 60)),
            Color::Dim => Some((142, 142, 147)),
            Color::Accent => Some((255, 214, 10)),
            Color::White => None,
            Color::Red => None,
            Color::Faint => Some((220, 220, 220)),
            Color::Pale => Some((200, 200, 205)),
            Color::Shade => Some((44, 44, 46)),
        }
    }

    /// The red, green and blue of a colour.
    pub fn rgb(self) -> (r: Option<(u8, u8, u8)>)
        ensures
            r == self.parts(),
    {
        match self {
            Color::Blue => Some((0, 122, 255)),
            Color::Green => Some((52, 199, 89)),
            Color::Gray => Some((58, 58, 60)),
            Color::Dim => Some((142, 142, 147)),
            Color::Accent => Some((255, 214, 10)),
            Color::White => None,
            Color::Red => None,
            Color::Faint => Some((220, 220, 220)),
            Color::Pale => Some((200, 200, 205)),
            Color::Shade => Some((44, 44, 46)),
        }
    }
}

/// How text is drawn.
#[derive(Debug, Clone, Copy, PartialEq, Eq, Structural)]
pub struct Style {
    pub fg: Option<Color>,
    pub bg: Option<Color>,
    pub bold: bool,
    pub italic: bool,
    pub underlined: bool,
    pub crossed_out: bool,
}

/// Text as the terminal draws it.
pub open spec fn plain_style() -> Style {
    Style { fg: None, bg: None, bold: false, italic: false, underlined: false, crossed_out: false }
}

/// Text in a colour.
pub open spec fn ink_style(c: Color) -> Style {
    Style { fg: Some(c), ..plain_style() }
}

/// Text as the terminal draws it.
pub fn plain() -> (r: Style)
    ensures
        r == plain_style(),
{
    Style { fg: None, bg: None, bold: false, italic: false, underlined: false, crossed_out: false }
}

/// Text in a colour.
pub fn inked(c: Color) -> (r: Style)
    ensures
        r == ink_style(c),
{
    Style { fg: Some(c), bg: None, bold: false, italic: false, underlined: false, crossed_out: false }
}

// ----- spans and lines -----

/// Text in one style.
#[derive(Debug)]
pub struct Span {
    pub text: String,
    pub style: Style,
}

/// The contents of a `Span`.
#[verifier::ext_equal]
pub struct SpanV {
    pub text: Seq<char>,
    pub style: Style,
}

impl View for Span {
    type V = SpanV;

    open spec fn view(&self) -> SpanV {
        SpanV { text: self.text@, style: self.style }
    }
}

impl Clone for Span {
    fn clone(&self) -> (r: Self)
        ensures
            r@ == self@,
    {
        Span { text: self.text.clone(), style: self.style }
    }
}

/// A line of styled text.
#[derive(Debug)]
pub struct Line {
    pub spans: Vec<Span>,
    pub centered: bool,
}

/// The contents of a `Line`.
#[verifier::ext_equal]
pub struct LineV {
    pub spans: Seq<SpanV>,
    pub centered: bool,
}

impl View for Line {
    type V = LineV;

    open spec fn view(&self) -> LineV {
        LineV { spans: views(self.spans@), centered: self.centered }
    }
}

/// Text in a style.
pub open spec fn span_of(text: Seq<char>, style: Style) -> SpanV {
    SpanV { text, style }
}

/// Text as the terminal draws it.
pub open spec fn raw_span(text: Seq<char>) -> SpanV {
    SpanV { text, style: plain_style() }
}

/// A line of spans from the left.
pub open spec fn line_of(spans: Seq<SpanV>) -> LineV {
    LineV { spans, centered: false }
}

/// A span in the middle of its line.
pub open spec fn centered_line(s: SpanV) -> LineV {
    LineV { spans: seq![s], centered: true }
}

/// A span of a text that is not needed any more.
pub fn styled(text: String, style: Style) -> (r: Span)
    ensures
        r@ == span_of(text@, style),
{
    Span { text, style }
}

/// A span of a text.
pub fn span(text: &str, style: Style) -> (r: Span)
    ensures
        r@ == span_of(text@, style),
{
    Span { text: text.to_owned(), style }
}

/// A span as the terminal draws it.
pub fn raw(text: &str) -> (r: Span)
    ensures
        r@ == raw_span(text@),
{
    Span { text: text.to_owned(), style: plain() }
}

/// A line of one span.
pub fn line1(a: Span) -> (r: Line)
    ensures
        r@ == line_of(seq![a@]),
{
    let ghost x = a@;
    let mut spans: Vec<Span> = Vec::new();
    spans.push(a);
    assert(views(spans@) =~= seq![x]);
    Line { spans, centered: false }
}

/// A line of two spans.
pub fn line2(a: Span, b: Span) -> (r: Line)
    ensures
        r@ == line_of(seq![a@, b@]),
{
    let ghost x = a@;
    let ghost y = b@;
    let mut spans: Vec<Span> = Vec::new();
    spans.push(a);
    spans.push(b);
    assert(views(spans@) =~= seq![x, y]);
    Line { spans, centered: false }
}

/// A line with one span in its middle.
pub fn middle(a: Span) -> (r: Line)
    ensures
        r@ == centered_line(a@),
{
    let ghost x = a@;
    let mut spans: Vec<Span> = Vec::new();
    spans.push(a);
    assert(views(spans@) =~= seq![x]);
    Line { spans, centered: true }
}

// ----- sums within the range of `usize` -----

/// A sum, or the largest `usize` where the sum exceeds it.
pub open spec fn sat_sum(a: int, b: int) -> int {
    if a + b > usize::MAX {
        usize::MAX as int
    } else {
        a + b
    }
}

/// A difference, or 0 where it would be negative.
pub open spec fn sat_diff(a: int, b: int) -> int {
    if a > b {
        a - b
    } else {
        0
    }
}

/// A sum, or the largest `usize`.
pub fn plus(a: usize, b: usize) -> (r: usize)
    ensures
        r == sat_sum(a as int, b as int),
{
    if a > usize::MAX - b {
        usize::MAX
    } else {
        a + b
    }
}

/// A difference, or 0.
pub fn minus(a: usize, b: usize) -> (r: usize)
    ensures
        r == sat_diff(a as int, b as int),
{
    if a > b {
        a - b
    } else {
        0
    }
}

// ----- widths -----

/// The columns that a text takes on a terminal, by `unicode_width`.
pub uninterp spec fn text_width(s: Seq<char>) -> nat;

/// A text of printable characters of ASCII.
pub open spec fn is_printable(s: Seq<char>) -> bool {
    forall|i: int| 0 <= i < s.len() ==> ' ' <= (#[trigger] s[i]) <= '~'
}

/// `unicode_width::UnicodeWidthStr::width`. Nothing takes no column, and each printable character
/// of ASCII at the end takes one more; the widths of other characters are not spelled out.
#[verifier::external_body]
pub(crate) fn width(s: &str) -> (r: usize)
    ensures
        r == text_width(s@),
        s@.len() == 0 ==> r == 0,
        forall|t: Seq<char>| is_printable(t) ==> #[trigger] text_width(s@ + t) == r + t.len(),
{
    UnicodeWidthStr::width(s)
}

/// The columns that a character takes when it stands alone.
pub open spec fn char_width(c: char) -> nat {
    text_width(seq![c])
}

/// The columns that a character takes when it stands alone.
pub(crate) fn width_of_char(c: char) -> (r: usize)
    ensures
        r == char_width(c),
{
    let mut s: String = String::new();
    s.push(c);
    assert(s@ =~= seq![c]);
    width(s.as_str())
}

/// How many characters of `s` from `i` on, after `used` columns, leave room for one more column
/// within `w`.
pub open spec fn room_for(s: Seq<char>, i: int, used: nat, w: nat) -> int
    decreases s.len() - i,
{
    if 0 <= i < s.len() && used + char_width(s[i]) + 1 <= w {
        room_for(s, i + 1, used + char_width(s[i]), w)
    } else {
        i
    }
}

/// A text cut to `w` columns, with an ellipsis where something is cut.
pub open spec fn cut(s: Seq<char>, w: nat) -> Seq<char> {
    if text_width(s) <= w {
        s
    } else {
        s.take(room_for(s, 0, 0, w)).push('…')
    }
}

/// A text cut to `w` columns, with an ellipsis where something is cut.
pub fn truncate(s: &str, w: usize) -> (r: String)
    ensures
        r@ == cut(s@, w as nat),
{
    if width(s) <= w {
        return s.to_owned();
    }
    let v: Vec<char> = chars_of(s);
    let mut out: String = String::new();
    let mut used: usize = 0;
    let mut i: usize = 0;
    while i < v.len()
        invariant
            i <= v.len(),
            v@ == s@,
            used <= w,
            out@ == v@.take(i as int),
            room_for(v@, 0, 0, w as nat) == room_for(v@, i as int, used as nat, w as nat),
        ensures
            out@ == v@.take(room_for(v@, 0, 0, w as nat)),
        decreases v.len() - i,
    {
        let cw: usize = width_of_char(v[i]);
        if cw >= w - used {
            break;
        }
        out.push(v[i]);
        assert(v@.take(i + 1) =~= v@.take(i as int).push(v@[i as int]));
        used += cw;
        i += 1;
    }
    out.push('…');
    out
}

/// A text with spaces after it up to `w` columns.
pub open spec fn padded(s: Seq<char>, w: nat) -> Seq<char> {
    if text_width(s) >= w {
        s
    } else {
        s + repeat(' ', (w - text_width(s)) as nat)
    }
}

/// A text with spaces after it up to `w` columns. One that is no wider then takes exactly `w`.
pub fn pad(s: &str, w: usize) -> (r: String)
    ensures
        r@ == padded(s@, w as nat),
        text_width(s@) <= w ==> text_width(r@) == w,
{
    let sw: usize = width(s);
    if sw >= w {
        return s.to_owned();
    }
    assert(is_printable(repeat(' ', (w - sw) as nat)));
    assert(text_width(s@ + repeat(' ', (w - sw) as nat)) == sw + (w - sw));
    cat2(s, repeat_char(' ', w - sw).as_str())
}

/// A cut text keeps the start of what it was cut from.
pub proof fn cut_keeps_the_start(s: Seq<char>, w: nat)
    ensures
        cut(s, w) == s || (exists|n: int| 0 <= n <= s.len() && cut(s, w) == #[trigger] s.take(n).push('…')),
{
    lemma_room(s, 0, 0, w);
    assert(text_width(s) > w ==> cut(s, w) == s.take(room_for(s, 0, 0, w)).push('…'));
}

proof fn lemma_room(s: Seq<char>, i: int, used: nat, w: nat)
    requires
        0 <= i <= s.len(),
    ensures
        i <= room_for(s, i, used, w) <= s.len(),
    decreases s.len() - i,
{
    if i < s.len() && used + char_width(s[i]) + 1 <= w {
        lemma_room(s, i + 1, used + char_width(s[i]), w);
    }
}

/// `n` spaces.
pub fn spaces(n: usize) -> (r: Span)
    ensures
        r@ == raw_span(repeat(' ', n as nat)),
{
    styled(repeat_char(' ', n), plain())
}

} // verus!
