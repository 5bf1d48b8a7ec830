//! A conversation as lines on the screen.
use crate::clock::{clock_ok, clock_text, full_form, full_time, has_date, is_local, now_ms, short_clock, LocalTime};
use crate::screen::{
    centered_line, cut, ink_style, inked, line1, line2, line_of, middle, minus, plain, plain_style, plus, raw,
    raw_span, sat_diff, sat_sum, span, span_of, spaces, styled, text_width, truncate, width, Color, Line, LineV, Span,
    SpanV, Style,
};
use crate::text::{
    cat2, cat3, chars_of, contains, ends_with, is_white, join, join_strings, opt, piece, repeat, repeat_char,
    replace_all, split, split_on, starts_with, str_ends, str_has, str_replace, str_same, str_starts, string_of,
    trim_start, trimmed_start, views, whitespace, Class,
};
use crate::wire::{
    display_of, Attachment, AttachmentV, Message, MessageKind, MessageKindV, MessageV, Reaction, ReactionV,
    ReplyRef, ReplyRefV, TextPart, TextPartV,
};
use crate::wrap::{rows_view, wrap_segments, wrapped};
use vstd::prelude::*;

verus! {

// ----- what the screen shows beside the messages -----

/// The times of a message, and the sizes of its attachments, in words.
#[derive(Debug)]
pub struct Stamp {
    /// The date in full.
    pub full: String,
    /// The time of day.
    pub clock: String,
    /// The time of day at which the message was read.
    pub read: String,
    /// A size for each attachment.
    pub sizes: Vec<String>,
}

/// The contents of a `Stamp`.
#[verifier::ext_equal]
pub struct StampV {
    pub full: Seq<char>,
    pub clock: Seq<char>,
    pub read: Seq<char>,
    pub sizes: Seq<Seq<char>>,
}

impl View for Stamp {
    type V = StampV;

    open spec fn view(&self) -> StampV {
        StampV { full: self.full@, clock: self.clock@, read: self.read@, sizes: views(self.sizes@) }
    }
}

/// The place for a conversation.
#[derive(Debug, Clone, Copy, PartialEq, Eq, Structural)]
pub struct Pane {
    pub width: usize,
    pub is_group: bool,
    /// The conversation does not go over iMessage.
    pub sms: bool,
    /// The present, in unix milliseconds.
    pub now: i64,
}

/// The times of a message on the clock of this machine, and the present.
pub fn stamp_message(m: &Message, sizes: Vec<String>) -> (r: (Stamp, i64))
    requires
        clock_ok(m.date as int),
        clock_ok(m.date_read as int),
    ensures
        r.0@.sizes == views(sizes@),
        !has_date(m.date as int) ==> r.0@.full.len() == 0 && r.0@.clock.len() == 0,
        has_date(m.date as int) ==> exists|t: LocalTime, now: LocalTime|
            is_local(t) && t.ms == m.date && is_local(now) && r.0@.full == #[trigger] full_form(t, now),
        has_date(m.date as int) ==> exists|t: LocalTime|
            is_local(t) && t.ms == m.date && r.0@.clock == #[trigger] clock_text(t),
        !has_date(m.date_read as int) ==> r.0@.read.len() == 0,
        has_date(m.date_read as int) ==> exists|t: LocalTime|
            is_local(t) && t.ms == m.date_read && r.0@.read == #[trigger] clock_text(t),
{
    (
        Stamp { full: full_time(m.date), clock: short_clock(m.date), read: short_clock(m.date_read), sizes },
        now_ms(),
    )
}

// ----- styles -----

/// A style in bold.
pub open spec fn bold(s: Style) -> Style {
    Style { bold: true, ..s }
}

/// A style in italics.
pub open spec fn italic(s: Style) -> Style {
    Style { italic: true, ..s }
}

/// A style with a line under it.
pub open spec fn underlined(s: Style) -> Style {
    Style { underlined: true, ..s }
}

/// A style with a line through it.
pub open spec fn crossed(s: Style) -> Style {
    Style { crossed_out: true, ..s }
}

/// The colour of a bubble.
pub open spec fn bubble_color(m: MessageV, pane: Pane) -> Color {
    if m.is_from_me {
        if pane.sms || m.service != "iMessage"@ {
            Color::Green
        } else {
            Color::Blue
        }
    } else {
        Color::Gray
    }
}

/// The style of text in a bubble.
pub open spec fn bubble_style(c: Color) -> Style {
    Style { fg: Some(Color::White), bg: Some(c), ..plain_style() }
}

/// A style with one effect more, by the effect's name.
pub open spec fn with_token(s: Style, t: Seq<char>) -> Style {
    if t == "bold"@ {
        bold(s)
    } else if t == "italic"@ {
        italic(s)
    } else if t == "strikethrough"@ {
        crossed(s)
    } else if t == "underline"@ {
        underlined(s)
    } else if t == "otp"@ || t == "mention"@ || starts_with(t, "mention:"@) {
        bold(s)
    } else if starts_with(t, "link:"@) {
        underlined(s)
    } else if starts_with(t, "animated:"@) {
        italic(s)
    } else {
        s
    }
}

/// A style with several effects more.
pub open spec fn with_tokens(s: Style, ts: Seq<Seq<char>>) -> Style
    decreases ts.len(),
{
    if ts.len() == 0 {
        s
    } else {
        with_token(with_tokens(s, ts.drop_last()), ts.last())
    }
}

/// A style with the effects of a run of text; each may be a list of names.
pub open spec fn with_effects(s: Style, es: Seq<Seq<char>>) -> Style
    decreases es.len(),
{
    if es.len() == 0 {
        s
    } else {
        with_tokens(with_effects(s, es.drop_last()), split(es.last(), ','))
    }
}

fn token_style(s: Style, t: &str) -> (r: Style)
    ensures
        r == with_token(s, t@),
{
    if str_same(t, "bold") {
        Style { bold: true, ..s }
    } else if str_same(t, "italic") {
        Style { italic: true, ..s }
    } else if str_same(t, "strikethrough") {
        Style { crossed_out: true, ..s }
    } else if str_same(t, "underline") {
        Style { underlined: true, ..s }
    } else if str_same(t, "otp") || str_same(t, "mention") || str_starts(t, "mention:") {
        Style { bold: true, ..s }
    } else if str_starts(t, "link:") {
        Style { underlined: true, ..s }
    } else if str_starts(t, "animated:") {
        Style { italic: true, ..s }
    } else {
        s
    }
}

fn tokens_style(s: Style, ts: &Vec<Vec<char>>) -> (r: Style)
    ensures
        r == with_tokens(s, views(ts@)),
{
    let ghost all = views(ts@);
    let mut st: Style = s;
    let mut i: usize = 0;
    assert(all.take(0) =~= Seq::<Seq<char>>::empty());
    while i < ts.len()
        invariant
            i <= ts.len(),
            all == views(ts@),
            st == with_tokens(s, all.take(i as int)),
        decreases ts.len() - i,
    {
        assert(all.take(i + 1).drop_last() =~= all.take(i as int));
        assert(all.take(i + 1).last() == ts@[i as int]@);
        st = token_style(st, string_of(&ts[i]).as_str());
        i += 1;
    }
    assert(all.take(i as int) =~= all);
    st
}

fn effects_style(s: Style, es: &Vec<String>) -> (r: Style)
    ensures
        r == with_effects(s, views(es@)),
{
    let ghost all = views(es@);
    let mut st: Style = s;
    let mut i: usize = 0;
    assert(all.take(0) =~= Seq::<Seq<char>>::empty());
    while i < es.len()
        invariant
            i <= es.len(),
            all == views(es@),
            st == with_effects(s, all.take(i as int)),
        decreases es.len() - i,
    {
        assert(all.take(i + 1).drop_last() =~= all.take(i as int));
        assert(all.take(i + 1).last() == es@[i as int]@);
        st = tokens_style(st, &split_on(&chars_of(es[i].as_str()), ','));
        i += 1;
    }
    assert(all.take(i as int) =~= all);
    st
}

// ----- the text of a bubble -----

/// The sign for a file of a type.
pub open spec fn icon_of(mime: Seq<char>, sticker: bool) -> Seq<char> {
    if sticker {
        "🏷"@
    } else if starts_with(mime, "image/"@) {
        "🖼"@
    } else if starts_with(mime, "video/"@) {
        "🎬"@
    } else if starts_with(mime, "audio/"@) {
        "🎵"@
    } else if contains(mime, "pdf"@) {
        "📄"@
    } else if contains(mime, "vcard"@) {
        "👤"@
    } else {
        "📎"@
    }
}

/// The sign for a file of a type.
pub fn att_icon(mime: &str, sticker: bool) -> (r: &'static str)
    ensures
        r@ == icon_of(mime@, sticker),
{
    if sticker {
        "🏷"
    } else if str_starts(mime, "image/") {
        "🖼"
    } else if str_starts(mime, "video/") {
        "🎬"
    } else if str_starts(mime, "audio/") {
        "🎵"
    } else if str_has(mime, "pdf") {
        "📄"
    } else if str_has(mime, "vcard") {
        "👤"
    } else {
        "📎"
    }
}

/// A message of one's own from the last ten minutes.
pub open spec fn recent_own(m: MessageV, now: int) -> bool {
    m.is_from_me && now - m.date < 600_000
}

/// The label of an attachment.
pub open spec fn attachment_label(a: AttachmentV, size: Seq<char>, recent: bool) -> Seq<char> {
    let head = icon_of(a.mime, a.is_sticker) + " "@ + a.name;
    if a.available {
        head + " ("@ + size + ")"@
    } else if recent {
        head + " (sending…)"@
    } else {
        head + " (not on this Mac)"@
    }
}

/// Spans that do not end in a line feed.
pub open spec fn open_line(segs: Seq<SpanV>) -> bool {
    segs.len() > 0 && !ends_with(segs.last().text, "\n"@)
}

/// An attachment that belongs to an app balloon and is not shown.
pub open spec fn is_payload(m: MessageV, a: AttachmentV) -> bool {
    m.kind is App && ends_with(a.name, ".pluginPayloadAttachment"@)
}

/// The text of a bubble with the first `n` attachments on lines of their own.
pub open spec fn with_attachments(segs: Seq<SpanV>, m: MessageV, sizes: Seq<Seq<char>>, base: Style, now: int, n: int) -> Seq<
    SpanV,
>
    decreases n,
{
    if n <= 0 {
        segs
    } else {
        let before = with_attachments(segs, m, sizes, base, now, n - 1);
        let a = m.attachments[n - 1];
        if is_payload(m, a) {
            before
        } else {
            let opened = if open_line(before) {
                before.push(span_of("\n"@, base))
            } else {
                before
            };
            opened.push(
                span_of(attachment_label(a, sizes[n - 1], recent_own(m, now)), underlined(base)),
            ).push(span_of("\n"@, base))
        }
    }
}

/// The parts of a message in their styles.
pub open spec fn part_spans(parts: Seq<TextPartV>, base: Style) -> Seq<SpanV> {
    Seq::new(parts.len(), |i: int| span_of(parts[i].text, with_effects(base, parts[i].effects)))
}

/// A text on a line of its own.
pub open spec fn own_line(t: Option<Seq<char>>, style: Style) -> Seq<SpanV> {
    match t {
        Some(t) => seq![span_of(t + "\n"@, style)],
        None => Seq::empty(),
    }
}

/// What a message says, by its kind.
pub open spec fn kind_spans(m: MessageV, base: Style) -> Seq<SpanV> {
    match m.kind {
        MessageKindV::Unsent => seq![span_of("(message unsent)"@, italic(base))],
        MessageKindV::App { bundle_id, title, summary, url } => {
            own_line(title, bold(base)) + own_line(
                match summary {
                    Some(s) => Some(cut(s, 200)),
                    None => None,
                },
                base,
            ) + (match url {
                Some(u) => seq![span_of(u, underlined(base))],
                None => if title is None {
                    seq![span_of("["@ + bundle_id + "]"@, italic(base))]
                } else {
                    Seq::empty()
                },
            })
        },
        _ => part_spans(m.parts, base),
    }
}

/// A span where a condition holds.
pub open spec fn only_if(b: bool, s: SpanV) -> Seq<SpanV> {
    if b {
        seq![s]
    } else {
        Seq::empty()
    }
}

/// The remarks on a message: that it is spoken, how it was sent, and that it was edited.
pub open spec fn remark_spans(m: MessageV, base: Style) -> Seq<SpanV> {
    only_if(m.is_audio && m.attachments.len() == 0, span_of("🎤 Audio message"@, italic(base))) + (match m.expressive {
        Some(e) => seq![span_of("\n✨ sent with "@ + e, italic(base))],
        None => Seq::empty(),
    }) + only_if(m.is_edited, span_of("\nEdited"@, Style { fg: Some(Color::Faint), ..italic(base) }))
}

/// The text of a bubble but for the remark on an empty one.
pub open spec fn content_spans(m: MessageV, sizes: Seq<Seq<char>>, base: Style, now: int) -> Seq<SpanV> {
    with_attachments(own_line(m.subject, bold(base)) + kind_spans(m, base), m, sizes, base, now, m.attachments.len() as int)
        + remark_spans(m, base)
}

/// The text of a bubble: the subject, what the message says, its attachments and remarks; a word
/// where there is nothing.
pub open spec fn bubble_spans(m: MessageV, sizes: Seq<Seq<char>>, base: Style, now: int) -> Seq<SpanV> {
    let segs = content_spans(m, sizes, base, now);
    if segs.len() > 0 {
        segs
    } else {
        seq![
            span_of(
                if recent_own(m, now) {
                    "Sending…"@
                } else {
                    "(no content)"@
                },
                italic(base),
            ),
        ]
    }
}

fn push_line_text(out: &mut Vec<Span>, t: &str, style: Style)
    ensures
        views(final(out)@) == views(old(out)@).push(span_of(t@ + "\n"@, style)),
{
    let ghost before = views(out@);
    out.push(styled(cat2(t, "\n"), style));
    assert(views(out@) =~= before.push(span_of(t@ + "\n"@, style)));
}

fn push_span(out: &mut Vec<Span>, t: &str, style: Style)
    ensures
        views(final(out)@) == views(old(out)@).push(span_of(t@, style)),
{
    let ghost before = views(out@);
    out.push(span(t, style));
    assert(views(out@) =~= before.push(span_of(t@, style)));
}

fn push_kind(out: &mut Vec<Span>, m: &Message, base: Style)
    ensures
        views(final(out)@) == views(old(out)@) + kind_spans(m@, base),
{
    let ghost before = views(out@);
    match &m.kind {
        MessageKind::Unsent => {
            push_span(out, "(message unsent)", Style { italic: true, ..base });
            assert(views(out@) =~= before + kind_spans(m@, base));
        },
        MessageKind::App { bundle_id, title, summary, url } => {
            if let Some(t) = title {
                push_line_text(out, t.as_str(), Style { bold: true, ..base });
            }
            assert(views(out@) =~= before + own_line(opt(*title), bold(base)));
            let ghost second = views(out@);
            let ghost sum = match opt(*summary) {
                Some(s) => Some(cut(s, 200)),
                None => None,
            };
            if let Some(s) = summary {
                push_line_text(out, truncate(s.as_str(), 200).as_str(), base);
            }
            assert(views(out@) =~= second + own_line(sum, base));
            if let Some(u) = url {
                push_span(out, u.as_str(), Style { underlined: true, ..base });
            } else if title.is_none() {
                push_span(out, cat3("[", bundle_id.as_str(), "]").as_str(), Style { italic: true, ..base });
            }
            assert(views(out@) =~= before + kind_spans(m@, base));
        },
        _ => {
            let mut i: usize = 0;
            assert(views(out@) =~= before + part_spans(m@.parts, base).take(0));
            while i < m.parts.len()
                invariant
                    i <= m.parts@.len(),
                    views(out@) == before + part_spans(m@.parts, base).take(i as int),
                decreases m.parts@.len() - i,
            {
                let p: &TextPart = &m.parts[i];
                assert(m@.parts[i as int] == p@);
                push_span(out, p.text.as_str(), effects_style(base, &p.effects));
                assert(views(out@) =~= before + part_spans(m@.parts, base).take(i + 1));
                i += 1;
            }
            assert(part_spans(m@.parts, base).take(i as int) =~= part_spans(m@.parts, base));
        },
    }
}

fn is_recent(m: &Message, now: i64) -> (r: bool)
    ensures
        r == recent_own(m@, now as int),
{
    m.is_from_me && (now as i128) - (m.date as i128) < 600_000
}

fn label(a: &Attachment, size: &str, recent: bool) -> (r: String)
    ensures
        r@ == attachment_label(a@, size@, recent),
{
    let head: String = cat3(att_icon(a.mime.as_str(), a.is_sticker), " ", a.name.as_str());
    if a.available {
        cat2(cat3(head.as_str(), " (", size).as_str(), ")")
    } else if recent {
        cat2(head.as_str(), " (sending…)")
    } else {
        cat2(head.as_str(), " (not on this Mac)")
    }
}

fn push_attachments(out: &mut Vec<Span>, m: &Message, sizes: &Vec<String>, base: Style, now: i64)
    requires
        sizes@.len() == m.attachments@.len(),
    ensures
        views(final(out)@) == with_attachments(
            views(old(out)@),
            m@,
            views(sizes@),
            base,
            now as int,
            m@.attachments.len() as int,
        ),
{
    let ghost segs = views(out@);
    let recent: bool = is_recent(m, now);
    let is_app: bool = matches!(m.kind, MessageKind::App { .. });
    let mut i: usize = 0;
    while i < m.attachments.len()
        invariant
            i <= m.attachments@.len(),
            sizes@.len() == m.attachments@.len(),
            recent == recent_own(m@, now as int),
            is_app == (m@.kind is App),
            views(out@) == with_attachments(segs, m@, views(sizes@), base, now as int, i as int),
        decreases m.attachments@.len() - i,
    {
        let a: &Attachment = &m.attachments[i];
        assert(m@.attachments[i as int] == a@);
        assert(views(sizes@)[i as int] == sizes@[i as int]@);
        if !(is_app && str_ends(a.name.as_str(), ".pluginPayloadAttachment")) {
            let ghost before = views(out@);
            let n: usize = out.len();
            assert(n == before.len());
            if n > 0 {
                assert(before.last() == out@[n - 1]@);
                if !str_ends(out[n - 1].text.as_str(), "\n") {
                    push_span(out, "\n", base);
                }
            }
            push_span(out, label(a, sizes[i].as_str(), recent).as_str(), Style { underlined: true, ..base });
            push_span(out, "\n", base);
        }
        i += 1;
    }
}

fn push_remarks(out: &mut Vec<Span>, m: &Message, base: Style)
    ensures
        views(final(out)@) == views(old(out)@) + remark_spans(m@, base),
{
    let ghost a = views(out@);
    assert(m@.attachments.len() == m.attachments@.len());
    let ghost audio = only_if(m@.is_audio && m@.attachments.len() == 0, span_of("🎤 Audio message"@, italic(base)));
    let ghost sent = match m@.expressive {
        Some(e) => seq![span_of("\n✨ sent with "@ + e, italic(base))],
        None => Seq::empty(),
    };
    let ghost edited = only_if(m@.is_edited, span_of("\nEdited"@, Style { fg: Some(Color::Faint), ..italic(base) }));
    if m.is_audio && m.attachments.len() == 0 {
        push_span(out, "🎤 Audio message", Style { italic: true, ..base });
    }
    assert(views(out@) =~= a + audio);
    if let Some(e) = &m.expressive {
        push_span(out, cat2("\n✨ sent with ", e.as_str()).as_str(), Style { italic: true, ..base });
    }
    assert(views(out@) =~= a + audio + sent);
    if m.is_edited {
        push_span(out, "\nEdited", Style { italic: true, fg: Some(Color::Faint), ..base });
    }
    assert(views(out@) =~= a + audio + sent + edited);
    assert(a + audio + sent + edited =~= a + (audio + sent + edited));
}

fn bubble_content(m: &Message, sizes: &Vec<String>, base: Style, now: i64) -> (r: Vec<Span>)
    requires
        sizes@.len() == m.attachments@.len(),
    ensures
        views(r@) == content_spans(m@, views(sizes@), base, now as int),
{
    let mut out: Vec<Span> = Vec::new();
    assert(views(out@) =~= Seq::<SpanV>::empty());
    if let Some(s) = &m.subject {
        push_line_text(&mut out, s.as_str(), Style { bold: true, ..base });
    }
    assert(views(out@) =~= own_line(m@.subject, bold(base)));
    push_kind(&mut out, m, base);
    push_attachments(&mut out, m, sizes, base, now);
    push_remarks(&mut out, m, base);
    out
}

fn bubble_text(m: &Message, sizes: &Vec<String>, base: Style, now: i64) -> (r: Vec<Span>)
    requires
        sizes@.len() == m.attachments@.len(),
    ensures
        views(r@) == bubble_spans(m@, views(sizes@), base, now as int),
{
    let mut out: Vec<Span> = bubble_content(m, sizes, base, now);
    assert(views(out@).len() == out@.len());
    if out.len() == 0 {
        let word: &str = if is_recent(m, now) { "Sending…" } else { "(no content)" };
        push_span(&mut out, word, Style { italic: true, ..base });
        assert(views(out@) =~= bubble_spans(m@, views(sizes@), base, now as int));
    }
    out
}

// ----- the lines of a bubble -----

/// The columns of a row of spans, as far as `usize` counts.
pub open spec fn row_width(row: Seq<SpanV>) -> int
    decreases row.len(),
{
    if row.len() == 0 {
        0
    } else {
        sat_sum(row_width(row.drop_last()), text_width(row.last().text) as int)
    }
}

/// The columns of the widest row.
pub open spec fn widest(rows: Seq<Seq<SpanV>>) -> int
    decreases rows.len(),
{
    if rows.len() == 0 {
        0
    } else {
        let before = widest(rows.drop_last());
        if row_width(rows.last()) > before {
            row_width(rows.last())
        } else {
            before
        }
    }
}

/// The widest text in a bubble: 65 of 100 columns, at least twelve.
pub open spec fn bubble_limit(width: int) -> int {
    let want = width * 65 / 100;
    let most = if sat_diff(width, 4) < 12 {
        12
    } else {
        sat_diff(width, 4)
    };
    if want < 12 {
        12
    } else if want > most {
        most
    } else {
        want
    }
}

/// The columns before something that stands at the right for the owner and at `left` for others.
pub open spec fn indent(m: MessageV, pane: Pane, columns: int, left: int) -> int {
    if m.is_from_me {
        sat_diff(pane.width as int, sat_sum(columns, 1))
    } else {
        left
    }
}

/// A span of `n` spaces.
pub open spec fn gap(n: int) -> SpanV {
    raw_span(repeat(' ', n as nat))
}

/// The upper edge of a bubble.
pub open spec fn top_edge(m: MessageV, pad: int, columns: int, selected: bool, c: Color) -> LineV {
    let marker = if selected {
        span_of("▶"@, ink_style(Color::Accent))
    } else {
        raw_span(" "@)
    };
    let spans = seq![gap(sat_diff(pad, 1)), marker, span_of(repeat('▄', columns as nat), ink_style(c))];
    line_of(
        if m.is_from_me {
            spans
        } else {
            seq![raw_span(""@)] + spans
        },
    )
}

/// The lower edge of a bubble.
pub open spec fn bottom_edge(pad: int, columns: int, c: Color) -> LineV {
    line_of(seq![gap(pad), span_of(repeat('▀', columns as nat), ink_style(c))])
}

/// A row of a bubble, filled up to the width of the bubble.
pub open spec fn bubble_row(row: Seq<SpanV>, pad: int, columns: int, base: Style) -> Seq<SpanV> {
    seq![gap(pad), span_of(" "@, base)] + row + seq![
        span_of(repeat(' ', sat_diff(columns, sat_sum(row_width(row), 1)) as nat), base),
    ]
}

/// A row of a bubble with the time beside it.
pub open spec fn timed_row(m: MessageV, spans: Seq<SpanV>, pad: int, clock: Seq<char>) -> Seq<SpanV> {
    let time = span_of(clock, ink_style(Color::Dim));
    if m.is_from_me {
        seq![gap(sat_diff(pad, sat_sum(text_width(clock) as int, 1))), time, raw_span(" "@)] + spans.skip(1)
    } else {
        spans + seq![raw_span(" "@), time]
    }
}

/// The rows of a bubble; the time stands beside the last one.
pub open spec fn body_lines(m: MessageV, rows: Seq<Seq<SpanV>>, pad: int, columns: int, base: Style, clock: Seq<char>) -> Seq<
    LineV,
> {
    Seq::new(
        rows.len(),
        |i: int|
            line_of(
                if i + 1 == rows.len() {
                    timed_row(m, bubble_row(rows[i], pad, columns, base), pad, clock)
                } else {
                    bubble_row(rows[i], pad, columns, base)
                },
            ),
    )
}

/// The first word of a name; the name where it has none.
pub open spec fn first_word(s: Seq<char>) -> Seq<char> {
    let t = trim_start(s, Class::White);
    if t.len() == 0 {
        s
    } else {
        t.take(word_end(t, 0))
    }
}

/// The first white space of `s` from `i` on.
pub open spec fn word_end(s: Seq<char>, i: int) -> int
    decreases s.len() - i,
{
    if 0 <= i < s.len() && !is_white(s[i]) {
        word_end(s, i + 1)
    } else {
        i
    }
}

/// A reaction in words.
pub open spec fn reaction_text(r: ReactionV) -> Seq<char> {
    r.emoji + " "@ + (if r.from_me {
        "You"@
    } else {
        match r.sender {
            Some(p) => first_word(display_of(p)),
            None => Seq::empty(),
        }
    })
}

/// The reactions on a message in words.
pub open spec fn reactions_text(rs: Seq<ReactionV>) -> Seq<char> {
    join(Seq::new(rs.len(), |i: int| reaction_text(rs[i])), "  "@)
}

/// What became of one's own message.
pub open spec fn delivery(m: MessageV, read: Seq<char>) -> Seq<char> {
    if m.error != 0 {
        "Not delivered"@
    } else if m.date_read > 0 {
        "Read "@ + read
    } else if m.is_delivered || m.date_delivered > 0 {
        "Delivered"@
    } else if m.is_sent {
        "Sent"@
    } else {
        Seq::empty()
    }
}

/// A quotation above a bubble.
pub open spec fn quote_text(r: ReplyRefV) -> Seq<char> {
    let who = match r.sender_name {
        Some(n) => n,
        None => Seq::empty(),
    };
    let what = match r.preview {
        Some(p) => p,
        None => Seq::empty(),
    };
    "↩ "@ + who + ": "@ + replace_all(what, "\n"@, " "@)
}

/// A line where there is one.
pub open spec fn maybe(b: bool, l: LineV) -> Seq<LineV> {
    if b {
        seq![l]
    } else {
        Seq::empty()
    }
}

/// The name of the sender, above a bubble in a group.
pub open spec fn name_lines(m: MessageV, pane: Pane) -> Seq<LineV> {
    maybe(
        pane.is_group && !m.is_from_me,
        line_of(
            seq![
                span_of(
                    "  "@ + (match m.sender {
                        Some(p) => display_of(p),
                        None => "Unknown"@,
                    }),
                    ink_style(Color::Dim),
                ),
            ],
        ),
    )
}

/// The quotation above a bubble.
pub open spec fn quote_lines(m: MessageV, pane: Pane) -> Seq<LineV> {
    match m.reply_to {
        Some(r) => {
            let q = cut(quote_text(r), sat_sum(bubble_limit(pane.width as int), 2) as nat);
            seq![
                line_of(
                    seq![
                        gap(indent(m, pane, text_width(q) as int, 2)),
                        span_of(q, italic(ink_style(Color::Dim))),
                    ],
                ),
            ]
        },
        None => Seq::empty(),
    }
}

/// The reactions below a bubble.
pub open spec fn reaction_lines(m: MessageV, pane: Pane) -> Seq<LineV> {
    let s = reactions_text(m.reactions);
    maybe(
        m.reactions.len() > 0,
        line_of(seq![gap(indent(m, pane, text_width(s) as int, 3)), span_of(s, ink_style(Color::Pale))]),
    )
}

/// What became of the owner's last message, below its bubble.
pub open spec fn delivery_lines(m: MessageV, pane: Pane, read: Seq<char>, last: bool) -> Seq<LineV> {
    let s = delivery(m, read);
    maybe(
        last && m.is_from_me && s.len() > 0,
        line_of(
            seq![
                gap(sat_diff(pane.width as int, sat_sum(text_width(s) as int, 1))),
                span_of(
                    s,
                    ink_style(
                        if m.error != 0 {
                            Color::Red
                        } else {
                            Color::Dim
                        },
                    ),
                ),
            ],
        ),
    )
}

/// The columns of a bubble around its rows.
pub open spec fn bubble_columns(rows: Seq<Seq<SpanV>>) -> int {
    sat_sum(widest(rows), 2)
}

/// A bubble with its edges.
pub open spec fn framed(m: MessageV, rows: Seq<Seq<SpanV>>, pane: Pane, selected: bool, clock: Seq<char>) -> Seq<LineV> {
    let c = bubble_color(m, pane);
    let columns = bubble_columns(rows);
    let pad = indent(m, pane, columns, 2);
    seq![top_edge(m, pad, columns, selected, c)] + body_lines(m, rows, pad, columns, bubble_style(c), clock) + seq![
        bottom_edge(pad, columns, c),
    ]
}

/// A message in its bubble.
pub open spec fn bubble_lines(m: MessageV, st: StampV, pane: Pane, selected: bool, last: bool) -> Seq<LineV> {
    let rows = wrapped(
        bubble_spans(m, st.sizes, bubble_style(bubble_color(m, pane)), pane.now as int),
        bubble_limit(pane.width as int),
    );
    name_lines(m, pane) + quote_lines(m, pane) + framed(m, rows, pane, selected, st.clock) + reaction_lines(m, pane)
        + delivery_lines(m, pane, st.read, last)
}

/// A message: a system line in the middle, anything else in a bubble.
pub open spec fn shown(m: MessageV, st: StampV, pane: Pane, selected: bool, last: bool) -> Seq<LineV> {
    match m.kind {
        MessageKindV::Announcement { text } => seq![centered_line(span_of(text, italic(ink_style(Color::Dim))))],
        _ => bubble_lines(m, st, pane, selected, last),
    }
}

/// The lines of a message: the date where an hour passed since the one before, the message, and
/// an empty line.
pub open spec fn message_lines(m: MessageV, st: StampV, pane: Pane, before: int, selected: bool, last: bool) -> Seq<
    LineV,
> {
    maybe(
        m.date - before > 3_600_000,
        centered_line(span_of(" "@ + st.full + " "@, ink_style(Color::Dim))),
    ) + shown(m, st, pane, selected, last) + seq![line_of(Seq::empty())]
}

fn columns_of(row: &Vec<Span>) -> (r: usize)
    ensures
        r == row_width(views(row@)),
{
    let ghost all = views(row@);
    let mut n: usize = 0;
    let mut i: usize = 0;
    assert(all.take(0) =~= Seq::<SpanV>::empty());
    while i < row.len()
        invariant
            i <= row.len(),
            all == views(row@),
            n == row_width(all.take(i as int)),
        decreases row.len() - i,
    {
        assert(all.take(i + 1).drop_last() =~= all.take(i as int));
        assert(all.take(i + 1).last() == row@[i as int]@);
        n = plus(n, width(row[i].text.as_str()));
        i += 1;
    }
    assert(all.take(i as int) =~= all);
    n
}

fn widest_of(rows: &Vec<Vec<Span>>) -> (r: usize)
    ensures
        r == widest(rows_view(rows@)),
{
    let ghost all = rows_view(rows@);
    let mut n: usize = 0;
    let mut i: usize = 0;
    assert(all.take(0) =~= Seq::<Seq<SpanV>>::empty());
    while i < rows.len()
        invariant
            i <= rows.len(),
            all == rows_view(rows@),
            n == widest(all.take(i as int)),
        decreases rows.len() - i,
    {
        assert(all.take(i + 1).drop_last() =~= all.take(i as int));
        assert(all.take(i + 1).last() == views(rows@[i as int]@));
        let w: usize = columns_of(&rows[i]);
        if w > n {
            n = w;
        }
        i += 1;
    }
    assert(all.take(i as int) =~= all);
    n
}

fn limit_of(width: usize) -> (r: usize)
    ensures
        r == bubble_limit(width as int),
{
    let want: u128 = (width as u128) * 65 / 100;
    let room: usize = minus(width, 4);
    let most: usize = if room < 12 { 12 } else { room };
    if want < 12 {
        12
    } else if want > most as u128 {
        most
    } else {
        want as usize
    }
}

fn indent_of(m: &Message, pane: Pane, columns: usize, left: usize) -> (r: usize)
    ensures
        r == indent(m@, pane, columns as int, left as int),
{
    if m.is_from_me {
        minus(pane.width, plus(columns, 1))
    } else {
        left
    }
}

fn top(m: &Message, pad: usize, columns: usize, selected: bool, c: Color) -> (r: Line)
    ensures
        r@ == top_edge(m@, pad as int, columns as int, selected, c),
{
    let mut out: Vec<Span> = Vec::new();
    if !m.is_from_me {
        out.push(raw(""));
    }
    out.push(spaces(minus(pad, 1)));
    if selected {
        out.push(span("▶", inked(Color::Accent)));
    } else {
        out.push(raw(" "));
    }
    out.push(styled(repeat_char('▄', columns), inked(c)));
    let r: Line = Line { spans: out, centered: false };
    assert(r@.spans =~= top_edge(m@, pad as int, columns as int, selected, c).spans);
    r
}

fn row_of(row: Vec<Span>, pad: usize, columns: usize, base: Style) -> (r: Vec<Span>)
    ensures
        views(r@) == bubble_row(views(row@), pad as int, columns as int, base),
{
    let used: usize = columns_of(&row);
    let ghost rv = views(row@);
    let mut out: Vec<Span> = Vec::new();
    out.push(spaces(pad));
    out.push(span(" ", base));
    let mut rest: Vec<Span> = row;
    out.append(&mut rest);
    out.push(styled(repeat_char(' ', minus(columns, plus(used, 1))), base));
    assert(views(out@) =~= bubble_row(rv, pad as int, columns as int, base));
    out
}

fn clone_spans(row: &Vec<Span>, from: usize) -> (r: Vec<Span>)
    requires
        from <= row@.len(),
    ensures
        views(r@) == views(row@).skip(from as int),
{
    let mut out: Vec<Span> = Vec::new();
    let mut i: usize = from;
    while i < row.len()
        invariant
            from <= i <= row@.len(),
            out@.len() == i - from,
            forall|k: int| 0 <= k < i - from ==> #[trigger] out@[k]@ == row@[k + from]@,
        decreases row@.len() - i,
    {
        out.push(row[i].clone());
        i += 1;
    }
    assert(views(out@) =~= views(row@).skip(from as int));
    out
}

fn timed(m: &Message, spans: Vec<Span>, pad: usize, clock: &str) -> (r: Vec<Span>)
    requires
        spans@.len() > 0,
    ensures
        views(r@) == timed_row(m@, views(spans@), pad as int, clock@),
{
    let time: Span = span(clock, inked(Color::Dim));
    let ghost tv = time@;
    let ghost sv = views(spans@);
    let mut out: Vec<Span> = Vec::new();
    if m.is_from_me {
        out.push(crate::screen::spaces(minus(pad, plus(width(clock), 1))));
        out.push(time);
        out.push(raw(" "));
        let mut rest: Vec<Span> = clone_spans(&spans, 1);
        out.append(&mut rest);
    } else {
        let mut rest: Vec<Span> = spans;
        out.append(&mut rest);
        out.push(raw(" "));
        out.push(time);
    }
    assert(views(out@) =~= timed_row(m@, sv, pad as int, clock@));
    out
}

fn push_body(out: &mut Vec<Line>, m: &Message, rows: &Vec<Vec<Span>>, pad: usize, columns: usize, base: Style, clock: &str)
    ensures
        views(final(out)@) == views(old(out)@) + body_lines(
            m@,
            rows_view(rows@),
            pad as int,
            columns as int,
            base,
            clock@,
        ),
{
    let ghost before = views(out@);
    let ghost want = body_lines(m@, rows_view(rows@), pad as int, columns as int, base, clock@);
    let n: usize = rows.len();
    let mut i: usize = 0;
    assert(views(out@) =~= before + want.take(0));
    while i < n
        invariant
            i <= n,
            n == rows@.len(),
            want == body_lines(m@, rows_view(rows@), pad as int, columns as int, base, clock@),
            views(out@) == before + want.take(i as int),
        decreases n - i,
    {
        let copy: Vec<Span> = clone_spans(&rows[i], 0);
        assert(views(copy@) =~= rows_view(rows@)[i as int]);
        let mut spans: Vec<Span> = row_of(copy, pad, columns, base);
        assert(views(spans@).len() == spans@.len());
        if i == n - 1 {
            spans = timed(m, spans, pad, clock);
        }
        let l: Line = Line { spans, centered: false };
        let ghost lv = l@;
        let ghost now = views(out@);
        out.push(l);
        assert(views(out@) =~= now.push(lv));
        assert(lv == want[i as int]);
        assert(views(out@) =~= before + want.take(i + 1));
        i += 1;
    }
    assert(want.take(n as int) =~= want);
}

/// The first word of a name; the name where it has none.
pub fn first_name(s: &str) -> (r: String)
    ensures
        r@ == first_word(s@),
{
    let t: Vec<char> = trimmed_start(&chars_of(s), Class::White);
    if t.len() == 0 {
        return s.to_owned();
    }
    let mut i: usize = 0;
    while i < t.len() && !whitespace(t[i])
        invariant
            i <= t.len(),
            word_end(t@, 0) == word_end(t@, i as int),
        decreases t.len() - i,
    {
        i += 1;
    }
    assert(t@.take(i as int) =~= t@.subrange(0, i as int));
    string_of(&piece(&t, 0, i))
}

fn reactions_line(rs: &Vec<Reaction>) -> (r: String)
    ensures
        r@ == reactions_text(views(rs@)),
{
    let mut parts: Vec<String> = Vec::new();
    let mut i: usize = 0;
    while i < rs.len()
        invariant
            i <= rs.len(),
            parts@.len() == i,
            forall|k: int| 0 <= k < i ==> #[trigger] parts@[k]@ == reaction_text(rs@[k]@),
        decreases rs.len() - i,
    {
        let r: &Reaction = &rs[i];
        let who: String = if r.from_me {
            "You".to_owned()
        } else {
            match &r.sender {
                Some(p) => first_name(p.display()),
                None => String::new(),
            }
        };
        parts.push(cat3(r.emoji.as_str(), " ", who.as_str()));
        i += 1;
    }
    assert(views(parts@) =~= Seq::new(views(rs@).len(), |i: int| reaction_text(views(rs@)[i])));
    join_strings(&parts, "  ")
}

fn delivery_word(m: &Message, read: &str) -> (r: String)
    ensures
        r@ == delivery(m@, read@),
{
    if m.error != 0 {
        "Not delivered".to_owned()
    } else if m.date_read > 0 {
        cat2("Read ", read)
    } else if m.is_delivered || m.date_delivered > 0 {
        "Delivered".to_owned()
    } else if m.is_sent {
        "Sent".to_owned()
    } else {
        String::new()
    }
}

fn quote_of(r: &ReplyRef) -> (s: String)
    ensures
        s@ == quote_text(r@),
{
    let who: String = match &r.sender_name {
        Some(n) => n.clone(),
        None => String::new(),
    };
    let what: String = match &r.preview {
        Some(p) => p.clone(),
        None => String::new(),
    };
    proof {
        reveal_strlit("\n");
    }
    cat3(cat2("↩ ", who.as_str()).as_str(), ": ", str_replace(what.as_str(), "\n", " ").as_str())
}

fn push_line(out: &mut Vec<Line>, l: Line)
    ensures
        views(final(out)@) == views(old(out)@).push(l@),
{
    let ghost before = views(out@);
    let ghost lv = l@;
    out.push(l);
    assert(views(out@) =~= before.push(lv));
}

fn push_name(out: &mut Vec<Line>, m: &Message, pane: Pane)
    ensures
        views(final(out)@) == views(old(out)@) + name_lines(m@, pane),
{
    let ghost before = views(out@);
    if pane.is_group && !m.is_from_me {
        let name: String = match &m.sender {
            Some(p) => p.display().to_owned(),
            None => "Unknown".to_owned(),
        };
        push_line(out, line1(styled(cat2("  ", name.as_str()), inked(Color::Dim))));
    }
    assert(views(out@) =~= before + name_lines(m@, pane));
}

fn push_quote(out: &mut Vec<Line>, m: &Message, pane: Pane)
    ensures
        views(final(out)@) == views(old(out)@) + quote_lines(m@, pane),
{
    let ghost before = views(out@);
    if let Some(r) = &m.reply_to {
        let q: String = truncate(quote_of(r).as_str(), plus(limit_of(pane.width), 2));
        let pad: usize = indent_of(m, pane, width(q.as_str()), 2);
        push_line(out, line2(spaces(pad), styled(q, Style { italic: true, ..inked(Color::Dim) })));
    }
    assert(views(out@) =~= before + quote_lines(m@, pane));
}

fn color_of(m: &Message, pane: Pane) -> (r: Color)
    ensures
        r == bubble_color(m@, pane),
{
    if m.is_from_me {
        if pane.sms || !str_same(m.service.as_str(), "iMessage") {
            Color::Green
        } else {
            Color::Blue
        }
    } else {
        Color::Gray
    }
}

fn push_frame(out: &mut Vec<Line>, m: &Message, rows: &Vec<Vec<Span>>, pane: Pane, selected: bool, clock: &str)
    ensures
        views(final(out)@) == views(old(out)@) + framed(m@, rows_view(rows@), pane, selected, clock@),
{
    let ghost before = views(out@);
    let color: Color = color_of(m, pane);
    let base: Style = Style { fg: Some(Color::White), bg: Some(color), ..plain() };
    let columns: usize = plus(widest_of(rows), 2);
    let pad: usize = indent_of(m, pane, columns, 2);
    push_line(out, top(m, pad, columns, selected, color));
    push_body(out, m, rows, pad, columns, base, clock);
    push_line(out, line2(spaces(pad), styled(repeat_char('▀', columns), inked(color))));
    assert(views(out@) =~= before + framed(m@, rows_view(rows@), pane, selected, clock@));
}

fn push_reactions(out: &mut Vec<Line>, m: &Message, pane: Pane)
    ensures
        views(final(out)@) == views(old(out)@) + reaction_lines(m@, pane),
{
    let ghost before = views(out@);
    assert(views(m.reactions@).len() == m.reactions@.len());
    if m.reactions.len() > 0 {
        let s: String = reactions_line(&m.reactions);
        let left: usize = indent_of(m, pane, width(s.as_str()), 3);
        push_line(out, line2(spaces(left), styled(s, inked(Color::Pale))));
    }
    assert(views(out@) =~= before + reaction_lines(m@, pane));
}

fn push_delivery(out: &mut Vec<Line>, m: &Message, pane: Pane, read: &str, last: bool)
    ensures
        views(final(out)@) == views(old(out)@) + delivery_lines(m@, pane, read@, last),
{
    let ghost before = views(out@);
    if last && m.is_from_me {
        let s: String = delivery_word(m, read);
        if !s.as_str().is_empty() {
            let left: usize = minus(pane.width, plus(width(s.as_str()), 1));
            let c: Color = if m.error != 0 { Color::Red } else { Color::Dim };
            push_line(out, line2(spaces(left), styled(s, inked(c))));
        }
    }
    assert(views(out@) =~= before + delivery_lines(m@, pane, read@, last));
}

fn push_bubble(out: &mut Vec<Line>, m: &Message, st: &Stamp, pane: Pane, selected: bool, last: bool)
    requires
        st.sizes@.len() == m.attachments@.len(),
    ensures
        views(final(out)@) == views(old(out)@) + bubble_lines(m@, st@, pane, selected, last),
{
    let ghost before = views(out@);
    push_name(out, m, pane);
    push_quote(out, m, pane);
    let base: Style = Style { fg: Some(Color::White), bg: Some(color_of(m, pane)), ..plain() };
    let segs: Vec<Span> = bubble_text(m, &st.sizes, base, pane.now);
    let rows: Vec<Vec<Span>> = wrap_segments(&segs, limit_of(pane.width));
    push_frame(out, m, &rows, pane, selected, st.clock.as_str());
    push_reactions(out, m, pane);
    push_delivery(out, m, pane, st.read.as_str(), last);
    assert(views(out@) =~= before + bubble_lines(m@, st@, pane, selected, last));
}

fn push_message(out: &mut Vec<Line>, m: &Message, st: &Stamp, pane: Pane, before: i64, selected: bool, last: bool)
    requires
        st.sizes@.len() == m.attachments@.len(),
    ensures
        views(final(out)@) == views(old(out)@) + message_lines(m@, st@, pane, before as int, selected, last),
{
    let ghost v0 = views(out@);
    if (m.date as i128) - (before as i128) > 3_600_000 {
        push_line(out, middle(styled(cat3(" ", st.full.as_str(), " "), inked(Color::Dim))));
    }
    let ghost v1 = views(out@);
    match &m.kind {
        MessageKind::Announcement { text } => {
            push_line(out, middle(span(text.as_str(), Style { italic: true, ..inked(Color::Dim) })));
            assert(views(out@) =~= v1 + shown(m@, st@, pane, selected, last));
        },
        _ => {
            push_bubble(out, m, st, pane, selected, last);
        },
    }
    let blank: Line = Line { spans: Vec::new(), centered: false };
    assert(blank@.spans =~= Seq::<SpanV>::empty());
    push_line(out, blank);
    assert(views(out@) =~= v0 + message_lines(m@, st@, pane, before as int, selected, last));
}

// ----- the conversation -----

/// Lines, and for each message the first and last line that it takes.
#[derive(Debug)]
pub struct Rendered {
    pub lines: Vec<Line>,
    pub ranges: Vec<(usize, usize)>,
}

/// The last message of the owner among the first `n`.
pub open spec fn last_own(msgs: Seq<MessageV>, n: int) -> Option<int>
    decreases n,
{
    if n <= 0 {
        None
    } else if msgs[n - 1].is_from_me {
        Some(n - 1)
    } else {
        last_own(msgs, n - 1)
    }
}

/// The line above the messages.
pub open spec fn head_lines(loading: bool, has_more: bool) -> Seq<LineV> {
    if loading {
        seq![centered_line(span_of("loading…"@, ink_style(Color::Dim)))]
    } else if has_more {
        seq![centered_line(span_of("↑ scroll for earlier messages"@, ink_style(Color::Dim)))]
    } else {
        Seq::empty()
    }
}

/// The lines of message `i`.
pub open spec fn nth_lines(msgs: Seq<MessageV>, stamps: Seq<StampV>, pane: Pane, sel: Option<usize>, i: int) -> Seq<LineV> {
    message_lines(
        msgs[i],
        stamps[i],
        pane,
        if i > 0 {
            msgs[i - 1].date as int
        } else {
            0
        },
        sel == Some(i as usize),
        last_own(msgs, msgs.len() as int) == Some(i),
    )
}

/// The head and the first `n` messages.
pub open spec fn lines_upto(
    msgs: Seq<MessageV>,
    stamps: Seq<StampV>,
    pane: Pane,
    sel: Option<usize>,
    head: Seq<LineV>,
    n: int,
) -> Seq<LineV>
    decreases n,
{
    if n <= 0 {
        head
    } else {
        lines_upto(msgs, stamps, pane, sel, head, n - 1) + nth_lines(msgs, stamps, pane, sel, n - 1)
    }
}

/// The conversation in lines.
pub open spec fn all_lines(
    msgs: Seq<MessageV>,
    stamps: Seq<StampV>,
    pane: Pane,
    sel: Option<usize>,
    loading: bool,
    has_more: bool,
) -> Seq<LineV> {
    lines_upto(msgs, stamps, pane, sel, head_lines(loading, has_more), msgs.len() as int) + maybe(
        msgs.len() == 0 && !loading,
        centered_line(span_of("No messages yet"@, ink_style(Color::Dim))),
    )
}

/// The conversation in lines. Each message knows the lines that it takes.
pub fn render_messages(
    msgs: &Vec<Message>,
    stamps: &Vec<Stamp>,
    pane: Pane,
    sel: Option<usize>,
    loading: bool,
    has_more: bool,
) -> (r: Rendered)
    requires
        stamps@.len() == msgs@.len(),
        forall|i: int| 0 <= i < msgs@.len() ==> (#[trigger] stamps@[i]).sizes@.len() == msgs@[i].attachments@.len(),
    ensures
        views(r.lines@) == all_lines(views(msgs@), views(stamps@), pane, sel, loading, has_more),
        r.ranges@.len() == msgs@.len(),
        forall|i: int|
            0 <= i < msgs@.len() ==> (#[trigger] r.ranges@[i]).0 == lines_upto(
                views(msgs@),
                views(stamps@),
                pane,
                sel,
                head_lines(loading, has_more),
                i,
            ).len() && r.ranges@[i].1 + 1 == lines_upto(
                views(msgs@),
                views(stamps@),
                pane,
                sel,
                head_lines(loading, has_more),
                i + 1,
            ).len(),
        forall|i: int, j: int|
            0 <= i < msgs@.len() && j == i + 1 && j < msgs@.len() ==> (#[trigger] r.ranges@[i]).1 + 1 == (
            #[trigger] r.ranges@[j]).0,
{
    let ghost ms = views(msgs@);
    let ghost ss = views(stamps@);
    let ghost head = head_lines(loading, has_more);
    let mut lines: Vec<Line> = Vec::new();
    assert(views(lines@) =~= Seq::<LineV>::empty());
    if loading {
        push_line(&mut lines, middle(span("loading…", inked(Color::Dim))));
    } else if has_more {
        push_line(&mut lines, middle(span("↑ scroll for earlier messages", inked(Color::Dim))));
    }
    assert(views(lines@) =~= head);
    let n: usize = msgs.len();
    let mut own: Option<usize> = None;
    let mut k: usize = 0;
    while k < n
        invariant
            k <= n,
            n == msgs@.len(),
            ms == views(msgs@),
            own is Some <==> last_own(ms, k as int) is Some,
            own matches Some(o) ==> last_own(ms, k as int) == Some(o as int),
        decreases n - k,
    {
        assert(ms[k as int] == msgs@[k as int]@);
        if msgs[k].is_from_me {
            own = Some(k);
        }
        k += 1;
    }
    let mut ranges: Vec<(usize, usize)> = Vec::new();
    let mut before: i64 = 0;
    let mut i: usize = 0;
    while i < n
        invariant
            i <= n,
            n == msgs@.len(),
            stamps@.len() == msgs@.len(),
            forall|i: int| 0 <= i < msgs@.len() ==> (#[trigger] stamps@[i]).sizes@.len() == msgs@[i].attachments@.len(),
            ms == views(msgs@),
            ss == views(stamps@),
            before == (if i > 0 {
                ms[i - 1].date as int
            } else {
                0
            }),
            own is Some <==> last_own(ms, n as int) is Some,
            own matches Some(o) ==> last_own(ms, n as int) == Some(o as int),
            views(lines@) == lines_upto(ms, ss, pane, sel, head, i as int),
            ranges@.len() == i,
            forall|j: int|
                0 <= j < i ==> (#[trigger] ranges@[j]).0 == lines_upto(ms, ss, pane, sel, head, j).len()
                    && ranges@[j].1 + 1 == lines_upto(ms, ss, pane, sel, head, j + 1).len(),
        decreases n - i,
    {
        let m: &Message = &msgs[i];
        let st: &Stamp = &stamps[i];
        assert(ms[i as int] == m@);
        assert(ss[i as int] == st@);
        let start: usize = lines.len();
        assert(views(lines@).len() == start);
        let selected: bool = match sel {
            Some(s) => s == i,
            None => false,
        };
        let last: bool = match own {
            Some(o) => o == i,
            None => false,
        };
        push_message(&mut lines, m, st, pane, before, selected, last);
        assert(views(lines@) == lines_upto(ms, ss, pane, sel, head, i + 1));
        assert(views(lines@).len() == lines@.len());
        assert(lines@.len() > start);
        ranges.push((start, lines.len() - 1));
        before = m.date;
        i += 1;
    }
    if n == 0 && !loading {
        push_line(&mut lines, middle(span("No messages yet", inked(Color::Dim))));
    }
    assert(views(lines@) =~= all_lines(ms, ss, pane, sel, loading, has_more));
    Rendered { lines, ranges }
}

// ----- laws -----

/// Each message takes at least one line.
pub proof fn messages_take_lines(
    msgs: Seq<MessageV>,
    stamps: Seq<StampV>,
    pane: Pane,
    sel: Option<usize>,
    head: Seq<LineV>,
    i: int,
)
    requires
        0 <= i < msgs.len(),
    ensures
        lines_upto(msgs, stamps, pane, sel, head, i).len() < lines_upto(msgs, stamps, pane, sel, head, i + 1).len(),
{
}

proof fn lemma_widest(rows: Seq<Seq<SpanV>>)
    ensures
        widest(rows) >= 0,
    decreases rows.len(),
{
    if rows.len() > 0 {
        lemma_widest(rows.drop_last());
    }
}

/// The edges of a bubble and the rows between them start after the same number of spaces, the
/// upper edge with a marker for the last of them. The time beside the last row of the owner's
/// message takes the place of some, where there are enough.
pub proof fn bubble_edges_align(m: MessageV, rows: Seq<Seq<SpanV>>, pane: Pane, selected: bool, clock: Seq<char>, i: int)
    requires
        0 <= i < rows.len(),
        indent(m, pane, bubble_columns(rows), 2) >= 1,
    ensures
        ({
            let lines = framed(m, rows, pane, selected, clock);
            let pad = indent(m, pane, bubble_columns(rows), 2);
            let first = if m.is_from_me {
                0int
            } else {
                1int
            };
            &&& lines.len() == rows.len() + 2
            &&& lines[0].spans[first].text == repeat(' ', (pad - 1) as nat)
            &&& lines[0].spans[first + 1].text.len() == 1
            &&& lines[0].spans[first + 2].text == repeat('▄', bubble_columns(rows) as nat)
            &&& i + 1 < rows.len() || !m.is_from_me ==> lines[i + 1].spans[0].text == repeat(' ', pad as nat)
            &&& i + 1 == rows.len() && m.is_from_me && text_width(clock) < pad ==> lines[i + 1].spans[0].text.len()
                + text_width(lines[i + 1].spans[1].text) + lines[i + 1].spans[2].text.len() == pad
            &&& lines[rows.len() as int + 1].spans[0].text == repeat(' ', pad as nat)
            &&& lines[rows.len() as int + 1].spans[1].text == repeat('▀', bubble_columns(rows) as nat)
        }),
{
    reveal_strlit("▶");
    reveal_strlit(" ");
    lemma_widest(rows);
    let c = bubble_color(m, pane);
    let columns = bubble_columns(rows);
    let pad = indent(m, pane, columns, 2);
    let lines = framed(m, rows, pane, selected, clock);
    let body = body_lines(m, rows, pad, columns, bubble_style(c), clock);
    let row = bubble_row(rows[i], pad, columns, bubble_style(c));
    assert(lines[i + 1] == body[i]);
    assert(row[0] == gap(pad));
    if i + 1 < rows.len() {
        assert(body[i].spans == row);
    } else {
        assert(body[i].spans == timed_row(m, row, pad, clock));
        if m.is_from_me {
            assert(body[i].spans[0] == gap(sat_diff(pad, sat_sum(text_width(clock) as int, 1))));
            assert(body[i].spans[1].text == clock);
            assert(body[i].spans[2].text == " "@);
        } else {
            assert(body[i].spans[0] == row[0]);
        }
    }
}

} // verus!
