//! The panes of the terminal client beside the conversation.
use crate::bubbles::{all_lines, bold, head_lines, lines_upto, only_if, render_messages, Pane, Rendered, Stamp};
use crate::emoji::{EmojiEntry, EmojiEntryV};
use crate::keys::{emoji_list, picker_list, Hit, HitV};
use crate::screen::{
    cut, ink_style, inked, line1, line2, line_of, minus, pad, padded, plain, plain_style, plus, raw, raw_span, sat_diff,
    sat_sum, span, span_of, styled, text_width, truncate, width, Color, Line, LineV, Span, SpanV, Style,
};
use crate::state::{
    chat_on_screen, chat_place, find_chat, listed_chats, messages_on_screen, App, AppV, Focus, Mode, NewChatV,
};
use crate::text::{cat2, cat3, join, join_strings, replace_all, str_replace, str_same, views};
use crate::wire::{display_of, member_list, roster, title_of, Chat, ChatV, Message, MessageV, UploadResponseV};
use vstd::prelude::*;

verus! {

// ----- places -----

/// A rectangle on the screen.
#[derive(Debug, Clone, Copy, PartialEq, Eq, Structural)]
pub struct Area {
    pub x: u16,
    pub y: u16,
    pub width: u16,
    pub height: u16,
}

/// The width of the chat list: 30 of 100 columns, at least 24, at most 44.
pub open spec fn sidebar_of(total: int) -> int {
    let w = total * 30 / 100;
    if w < 24 {
        24
    } else if w > 44 {
        44
    } else {
        w
    }
}

/// The width of the chat list.
pub fn sidebar_width(total: u16) -> (r: u16)
    ensures
        r == sidebar_of(total as int),
{
    let w: u32 = (total as u32) * 30 / 100;
    if w < 24 {
        24
    } else if w > 44 {
        44
    } else {
        w as u16
    }
}

/// The height of the compose box with its frame: a line for each of up to six.
pub fn compose_height(lines: usize) -> (r: u16)
    ensures
        r == 2 + (if lines < 1 {
            1int
        } else if lines > 6 {
            6int
        } else {
            lines as int
        }),
{
    if lines < 1 {
        3
    } else if lines > 6 {
        8
    } else {
        lines as u16 + 2
    }
}

/// The smaller of two.
pub open spec fn least(a: int, b: int) -> int {
    if a < b {
        a
    } else {
        b
    }
}

/// A rectangle in the middle of another, a column and a line within its edges at least.
pub open spec fn middle_of(a: Area, w: int, h: int) -> Area {
    let w = least(w, sat_diff(a.width as int, 2));
    let h = least(h, sat_diff(a.height as int, 2));
    Area {
        x: (a.x + (a.width - w) / 2) as u16,
        y: (a.y + (a.height - h) / 2) as u16,
        width: w as u16,
        height: h as u16,
    }
}

/// A rectangle in the middle of another.
pub fn popup(a: Area, w: u16, h: u16) -> (r: Area)
    requires
        a.x + a.width <= u16::MAX,
        a.y + a.height <= u16::MAX,
    ensures
        r == middle_of(a, w as int, h as int),
        a.x <= r.x && r.x + r.width <= a.x + a.width,
        a.y <= r.y && r.y + r.height <= a.y + a.height,
{
    let room_w: u16 = if a.width > 2 { a.width - 2 } else { 0 };
    let room_h: u16 = if a.height > 2 { a.height - 2 } else { 0 };
    let w2: u16 = if w < room_w { w } else { room_w };
    let h2: u16 = if h < room_h { h } else { room_h };
    Area { x: a.x + (a.width - w2) / 2, y: a.y + (a.height - h2) / 2, width: w2, height: h2 }
}

/// The first row of a list that is shown, so that the selected one is on the last line at most.
pub open spec fn first_row(sel: int, height: int) -> int {
    sat_diff(sel, sat_diff(height, 1))
}

/// The first row of a list that is shown.
pub fn window_start(sel: usize, height: usize) -> (r: usize)
    ensures
        r == first_row(sel as int, height as int),
        r <= sel,
{
    minus(sel, minus(height, 1))
}

/// The rows of a list that are shown.
pub open spec fn shown_rows<T>(rows: Seq<T>, sel: int, height: int) -> Seq<T> {
    let start = least(first_row(sel, height), rows.len() as int);
    rows.subrange(start, least(start + height, rows.len() as int))
}

/// The selected row is among those shown.
pub proof fn selection_is_shown<T>(rows: Seq<T>, sel: int, height: int)
    requires
        0 <= sel < rows.len(),
        height > 0,
    ensures
        0 <= sel - first_row(sel, height) < shown_rows(rows, sel, height).len(),
        shown_rows(rows, sel, height)[sel - first_row(sel, height)] == rows[sel],
{
}

// ----- the conversation -----

/// The place for the conversation on the screen.
pub open spec fn pane_on_screen(a: AppV, width: usize, now: i64) -> Pane {
    match chat_on_screen(a) {
        Some(c) => Pane { width, is_group: c.is_group, sms: c.service != "iMessage"@, now },
        None => Pane { width, is_group: false, sms: false, now },
    }
}

/// Messages of the conversation on the screen are being loaded.
pub open spec fn loads_on_screen(a: AppV) -> bool {
    chat_on_screen(a) matches Some(c) && a.loading.contains(c.id)
}

/// The conversation on the screen has earlier messages.
pub open spec fn more_on_screen(a: AppV) -> bool {
    chat_on_screen(a) matches Some(c) && a.has_more.contains_key(c.id) && a.has_more[c.id]
}

/// The conversation on the screen, in a pane of a width. `msgs` holds its messages and `stamps`
/// their times.
pub fn draw_messages(app: &App, msgs: &Vec<Message>, stamps: &Vec<Stamp>, width: usize, now: i64) -> (r: Rendered)
    requires
        views(msgs@) == messages_on_screen(app@),
        stamps@.len() == msgs@.len(),
        forall|i: int| 0 <= i < msgs@.len() ==> (#[trigger] stamps@[i]).sizes@.len() == msgs@[i].attachments@.len(),
    ensures
        views(r.lines@) == all_lines(
            messages_on_screen(app@),
            views(stamps@),
            pane_on_screen(app@, width, now),
            app.msg_sel,
            loads_on_screen(app@),
            more_on_screen(app@),
        ),
        r.ranges@.len() == msgs@.len(),
        forall|i: int|
            0 <= i < msgs@.len() ==> (#[trigger] r.ranges@[i]).0 == lines_upto(
                messages_on_screen(app@),
                views(stamps@),
                pane_on_screen(app@, width, now),
                app.msg_sel,
                head_lines(loads_on_screen(app@), more_on_screen(app@)),
                i,
            ).len() && r.ranges@[i].1 + 1 == lines_upto(
                messages_on_screen(app@),
                views(stamps@),
                pane_on_screen(app@, width, now),
                app.msg_sel,
                head_lines(loads_on_screen(app@), more_on_screen(app@)),
                i + 1,
            ).len(),
{
    let mut pane: Pane = Pane { width, is_group: false, sms: false, now };
    let mut loading: bool = false;
    let mut has_more: bool = false;
    if let Some(c) = app.current_chat() {
        pane = Pane { width, is_group: c.is_group, sms: !str_same(&c.service, "iMessage"), now };
        loading = app.loading.contains(&c.id);
        if let Some(more) = app.has_more.get(&c.id) {
            has_more = *more;
        }
    }
    render_messages(msgs, stamps, pane, app.msg_sel, loading, has_more)
}

// ----- the chat list -----

/// The title of the chat list: the filter where there is one.
pub open spec fn sidebar_title_of(a: AppV) -> Seq<char> {
    if a.mode == Mode::ChatFilter || a.chat_filter.len() > 0 {
        " / "@ + a.chat_filter + "▏"@
    } else {
        " Messages "@
    }
}

/// The second line of a chat: its newest message.
pub open spec fn preview_text(c: ChatV) -> Seq<char> {
    let p = replace_all(
        match c.last_preview {
            Some(p) => p,
            None => Seq::empty(),
        },
        "\n"@,
        " "@,
    );
    if c.last_from_me && p.len() > 0 {
        "You: "@ + p
    } else {
        p
    }
}

/// A chat in the list, on `w` columns, with the time of its newest message: a dot for something
/// unread, a sign for a group, its title and the time; below, its newest message.
pub open spec fn chat_lines(c: ChatV, time: Seq<char>, w: int) -> Seq<LineV> {
    let name_w = sat_diff(w, sat_sum(text_width(time) as int, 4));
    let title_w = if c.is_group {
        sat_diff(name_w, 2)
    } else {
        name_w
    };
    seq![
        line_of(
            seq![
                span_of(
                    if c.unread > 0 {
                        "●"@
                    } else {
                        " "@
                    },
                    ink_style(Color::Blue),
                ),
                raw_span(" "@),
            ] + only_if(c.is_group, raw_span("👥"@)) + seq![
                span_of(
                    padded(cut(title_of(c), title_w as nat), title_w as nat),
                    if c.unread > 0 {
                        bold(plain_style())
                    } else {
                        plain_style()
                    },
                ),
                raw_span(" "@),
                span_of(time, ink_style(Color::Dim)),
            ],
        ),
        line_of(seq![span_of("  "@ + cut(preview_text(c), sat_diff(w, 2) as nat), ink_style(Color::Dim))]),
    ]
}

/// A conversation that is yet to begin, in the chat list.
pub open spec fn new_chat_lines(n: NewChatV, w: int) -> Seq<LineV> {
    seq![
        line_of(seq![span_of("✎ New: "@ + n.name, bold(ink_style(Color::Accent)))]),
        line_of(seq![span_of(cut(n.address, sat_diff(w, 2) as nat), ink_style(Color::Dim))]),
    ]
}

/// The selected row of the chat list.
pub open spec fn sidebar_sel(a: AppV) -> Option<int> {
    let n = listed_chats(a).len();
    if a.new_chat is Some {
        Some(0)
    } else if n == 0 {
        None
    } else {
        Some(least(a.chat_sel as int, n - 1))
    }
}

fn chat_item(c: &Chat, time: &str, w: usize) -> (r: (Line, Line))
    ensures
        seq![r.0@, r.1@] == chat_lines(c@, time@, w as int),
{
    let name_w: usize = minus(w, plus(width(time), 4));
    let title_w: usize = if c.is_group { minus(name_w, 2) } else { name_w };
    let name_style: Style = if c.unread > 0 { Style { bold: true, ..plain() } } else { plain() };
    let title: String = c.title();
    let mut spans: Vec<Span> = Vec::new();
    spans.push(span(if c.unread > 0 { "●" } else { " " }, inked(Color::Blue)));
    spans.push(raw(" "));
    if c.is_group {
        spans.push(raw("👥"));
    }
    spans.push(styled(pad(truncate(title.as_str(), title_w).as_str(), title_w), name_style));
    spans.push(raw(" "));
    spans.push(span(time, inked(Color::Dim)));
    let first: Line = Line { spans, centered: false };
    assert(first@.spans =~= chat_lines(c@, time@, w as int)[0].spans);
    let before: String = match &c.last_preview {
        Some(p) => p.clone(),
        None => String::new(),
    };
    proof {
        reveal_strlit("\n");
        assert(c.last_preview is None ==> before@ =~= Seq::<char>::empty());
    }
    let mut prev: String = str_replace(before.as_str(), "\n", " ");
    if c.last_from_me && !prev.as_str().is_empty() {
        prev = cat2("You: ", prev.as_str());
    }
    let second: Line = line1(
        styled(cat2("  ", truncate(prev.as_str(), minus(w, 2)).as_str()), inked(Color::Dim)),
    );
    assert(second@ =~= chat_lines(c@, time@, w as int)[1]);
    assert(seq![first@, second@] =~= chat_lines(c@, time@, w as int));
    (first, second)
}

/// What the chat list shows.
#[derive(Debug)]
pub struct Sidebar {
    pub title: String,
    /// The frame is lit.
    pub lit: bool,
    /// Two lines for each entry.
    pub items: Vec<(Line, Line)>,
    pub selected: Option<usize>,
}

/// The lines of an entry of the chat list.
pub open spec fn item_view(i: (Line, Line)) -> Seq<LineV> {
    seq![i.0@, i.1@]
}

/// The chat list, on `w` columns; `times` tells the time of the newest message of each chat.
pub fn draw_sidebar(app: &App, times: &Vec<String>, w: usize) -> (r: Sidebar)
    requires
        times@.len() == app.chats@.len(),
    ensures
        r.title@ == sidebar_title_of(app@),
        r.lit == ((app@.focus == Focus::Chats && app@.mode == Mode::Normal) || app@.mode == Mode::ChatFilter),
        r.selected is Some <==> sidebar_sel(app@) is Some,
        r.selected matches Some(s) ==> sidebar_sel(app@) == Some(s as int),
        r.items@.len() == listed_chats(app@).len() + (if app@.new_chat is Some {
            1int
        } else {
            0int
        }),
        app@.new_chat matches Some(n) ==> item_view(r.items@[0]) == new_chat_lines(n, w as int),
        forall|k: int|
            0 <= k < listed_chats(app@).len() ==> item_view(
                r.items@[k + (if app@.new_chat is Some {
                    1int
                } else {
                    0int
                })],
            ) == chat_lines(
                app@.chats[(#[trigger] listed_chats(app@)[k]) as int],
                times@[listed_chats(app@)[k] as int]@,
                w as int,
            ),
{
    let filtering: bool = app.mode == Mode::ChatFilter;
    let title: String = if filtering || !app.chat_filter.as_str().is_empty() {
        cat3(" / ", app.chat_filter.as_str(), "▏")
    } else {
        " Messages ".to_owned()
    };
    let lit: bool = (app.focus == Focus::Chats && app.mode == Mode::Normal) || filtering;
    let places: Vec<usize> = app.filtered_chats();
    let n: usize = places.len();
    let mut items: Vec<(Line, Line)> = Vec::new();
    let ghost skip: int = if app@.new_chat is Some {
        1
    } else {
        0
    };
    if let Some(nc) = &app.new_chat {
        let first: Line = line1(
            styled(cat2("✎ New: ", nc.name.as_str()), Style { bold: true, ..inked(Color::Accent) }),
        );
        let second: Line = line1(styled(truncate(nc.address.as_str(), minus(w, 2)), inked(Color::Dim)));
        assert(seq![first@, second@] =~= new_chat_lines(nc@, w as int));
        items.push((first, second));
    }
    let mut i: usize = 0;
    while i < n
        invariant
            i <= n,
            n == places@.len(),
            places@ == listed_chats(app@),
            times@.len() == app.chats@.len(),
            forall|k: int| 0 <= k < places@.len() ==> #[trigger] places@[k] < app.chats@.len(),
            skip == (if app@.new_chat is Some {
                1int
            } else {
                0int
            }),
            items@.len() == i + skip,
            app@.new_chat matches Some(nc) ==> item_view(items@[0]) == new_chat_lines(nc, w as int),
            forall|k: int|
                0 <= k < i ==> item_view(items@[k + skip]) == chat_lines(
                    app@.chats[(#[trigger] places@[k]) as int],
                    times@[places@[k] as int]@,
                    w as int,
                ),
        decreases n - i,
    {
        let p: usize = places[i];
        assert(places@[i as int] < app.chats@.len());
        assert(app@.chats[p as int] == app.chats@[p as int]@);
        let item: (Line, Line) = chat_item(&app.chats[p], times[p].as_str(), w);
        let ghost before = items@;
        items.push(item);
        assert(item_view(items@[i + skip]) == chat_lines(app@.chats[p as int], times@[p as int]@, w as int));
        assert forall|k: int| 0 <= k < i + 1 implies item_view(items@[k + skip]) == chat_lines(
            app@.chats[(#[trigger] places@[k]) as int],
            times@[places@[k] as int]@,
            w as int,
        ) by {
            if k < i {
                assert(items@[k + skip] == before[k + skip]);
            }
        }
        i += 1;
    }
    let selected: Option<usize> = if app.new_chat.is_some() {
        Some(0)
    } else if n == 0 {
        None
    } else if app.chat_sel < n - 1 {
        Some(app.chat_sel)
    } else {
        Some(n - 1)
    };
    Sidebar { title, lit, items, selected }
}

// ----- the header -----

/// The title and the line below it, above the messages.
pub open spec fn header_of(a: AppV) -> (Seq<char>, Seq<char>) {
    match a.new_chat {
        Some(n) => ("New message to "@ + n.name, n.address),
        None => match chat_on_screen(a) {
            Some(c) => {
                let members = if c.is_group {
                    roster(c.participants)
                } else if c.participants.len() > 0 {
                    c.participants[0].address
                } else {
                    Seq::empty()
                };
                (title_of(c), c.service + " · "@ + members)
            },
            None => ("imsg"@, "select a conversation"@),
        },
    }
}

/// The title and the line below it, cut to `w` columns.
pub fn draw_header(app: &App, w: usize) -> (r: (Line, Line))
    ensures
        r.0@ == line_of(seq![span_of(header_of(app@).0, bold(plain_style()))]),
        r.1@ == line_of(seq![span_of(cut(header_of(app@).1, w as nat), ink_style(Color::Dim))]),
{
    let (title, sub): (String, String) = match &app.new_chat {
        Some(n) => (cat2("New message to ", n.name.as_str()), n.address.clone()),
        None => match app.current_chat() {
            Some(c) => {
                assert(c@.participants.len() == c.participants@.len());
                let members: String = if c.is_group {
                    member_list(&c.participants)
                } else if c.participants.len() > 0 {
                    assert(c@.participants[0] == c.participants@[0]@);
                    c.participants[0].address.clone()
                } else {
                    String::new()
                };
                assert(!c.is_group && c.participants@.len() == 0 ==> members@ =~= Seq::<char>::empty());
                (c.title(), cat3(c.service.as_str(), " · ", members.as_str()))
            },
            None => ("imsg".to_owned(), "select a conversation".to_owned()),
        },
    };
    (
        line1(styled(title, Style { bold: true, ..plain() })),
        line1(styled(truncate(sub.as_str(), w), inked(Color::Dim))),
    )
}

// ----- the status line -----

/// What the keys do now.
pub open spec fn hint_of(focus: Focus, mode: Mode) -> Seq<char> {
    if mode != Mode::Normal {
        "Esc cancel"@
    } else {
        match focus {
            Focus::Chats => "j/k move · Enter compose · / filter · Ctrl+N new · Ctrl+S search · ? help"@,
            Focus::Messages => "j/k select · o open · s save · y copy · PgUp/PgDn scroll · Esc back"@,
            Focus::Compose => {
                "Enter send · Alt+Enter newline · :smile: emoji · Ctrl+E picker · Ctrl+F file · Esc"@
            },
        }
    }
}

/// The status line: the connection, the host, the status on half the width, and what the keys do.
pub open spec fn status_line(a: AppV, w: int) -> LineV {
    line_of(
        seq![
            if a.connected {
                span_of("● live"@, ink_style(Color::Green))
            } else {
                span_of("○ offline"@, ink_style(Color::Red))
            },
            span_of(
                match a.info {
                    Some(i) => " "@ + i.host + " "@,
                    None => Seq::empty(),
                },
                ink_style(Color::Dim),
            ),
            span_of(cut(a.status, (w / 2) as nat), ink_style(Color::Accent)),
            raw_span("  "@),
            span_of(hint_of(a.focus, a.mode), ink_style(Color::Dim)),
        ],
    )
}

fn hint(focus: Focus, mode: Mode) -> (r: &'static str)
    ensures
        r@ == hint_of(focus, mode),
{
    if mode != Mode::Normal {
        return "Esc cancel";
    }
    match focus {
        Focus::Chats => "j/k move · Enter compose · / filter · Ctrl+N new · Ctrl+S search · ? help",
        Focus::Messages => "j/k select · o open · s save · y copy · PgUp/PgDn scroll · Esc back",
        Focus::Compose => "Enter send · Alt+Enter newline · :smile: emoji · Ctrl+E picker · Ctrl+F file · Esc",
    }
}

/// The status line, on `w` columns.
pub fn draw_status(app: &App, w: usize) -> (r: Line)
    ensures
        r@ == status_line(app@, w as int),
{
    let host: String = match &app.info {
        Some(i) => cat3(" ", i.host.as_str(), " "),
        None => String::new(),
    };
    assert(app.info is None ==> host@ =~= Seq::<char>::empty());
    let mut spans: Vec<Span> = Vec::new();
    if app.connected {
        spans.push(span("● live", inked(Color::Green)));
    } else {
        spans.push(span("○ offline", inked(Color::Red)));
    }
    spans.push(styled(host, inked(Color::Dim)));
    spans.push(styled(truncate(app.status.as_str(), w / 2), inked(Color::Accent)));
    spans.push(raw("  "));
    spans.push(span(hint(app.focus, app.mode), inked(Color::Dim)));
    let r: Line = Line { spans, centered: false };
    assert(r@.spans =~= status_line(app@, w as int).spans);
    r
}

// ----- waiting files -----

/// The files that wait to be sent, first `n`.
pub open spec fn chips_of(files: Seq<UploadResponseV>, n: int) -> Seq<SpanV>
    decreases n,
{
    if n <= 0 {
        seq![span_of(" 📎 "@, ink_style(Color::Dim))]
    } else {
        chips_of(files, n - 1) + seq![
            span_of(" "@ + files[n - 1].name + " "@, Style { bg: Some(Color::Shade), ..ink_style(Color::White) }),
            raw_span(" "@),
        ]
    }
}

/// The line of files that wait to be sent.
pub fn draw_chips(app: &App) -> (r: Line)
    ensures
        r@ == line_of(
            chips_of(app@.pending_files, app@.pending_files.len() as int).push(
                span_of("(Backspace on empty input removes)"@, ink_style(Color::Dim)),
            ),
        ),
{
    let ghost files = app@.pending_files;
    let mut spans: Vec<Span> = Vec::new();
    spans.push(span(" 📎 ", inked(Color::Dim)));
    assert(views(spans@) =~= chips_of(files, 0));
    let mut i: usize = 0;
    while i < app.pending_files.len()
        invariant
            i <= app.pending_files@.len(),
            files == app@.pending_files,
            views(spans@) == chips_of(files, i as int),
        decreases app.pending_files@.len() - i,
    {
        assert(files[i as int] == app.pending_files@[i as int]@);
        let ghost before = views(spans@);
        spans.push(
            styled(
                cat3(" ", app.pending_files[i].name.as_str(), " "),
                Style { bg: Some(Color::Shade), ..inked(Color::White) },
            ),
        );
        spans.push(raw(" "));
        assert(views(spans@) =~= chips_of(files, i + 1));
        i += 1;
    }
    let ghost before = views(spans@);
    spans.push(span("(Backspace on empty input removes)", inked(Color::Dim)));
    assert(views(spans@) =~= before.push(span_of("(Backspace on empty input removes)"@, ink_style(Color::Dim))));
    Line { spans, centered: false }
}

// ----- the emoji picker -----

/// A shortcode between colons.
pub open spec fn coded(c: Seq<char>) -> Seq<char> {
    ":"@ + c + ":"@
}

/// The first two shortcodes of an emoji.
pub open spec fn codes_of(e: EmojiEntryV) -> Seq<char> {
    join(Seq::new(least(2, e.shortcodes.len() as int) as nat, |i: int| coded(e.shortcodes[i])), " "@)
}

/// An emoji in the picker: itself, its name and its first shortcodes.
pub open spec fn emoji_line(e: EmojiEntryV) -> LineV {
    line_of(
        seq![
            raw_span(e.glyph + "  "@),
            raw_span(e.name),
            span_of("  "@ + codes_of(e), ink_style(Color::Dim)),
        ],
    )
}

fn emoji_row(e: &EmojiEntry) -> (r: Line)
    ensures
        r@ == emoji_line(e@),
{
    let mut codes: Vec<String> = Vec::new();
    let mut i: usize = 0;
    while i < e.shortcodes.len() && i < 2
        invariant
            i <= e.shortcodes@.len(),
            i <= 2,
            codes@.len() == i,
            forall|k: int| 0 <= k < i ==> #[trigger] codes@[k]@ == coded(e.shortcodes@[k]@),
        decreases e.shortcodes@.len() - i,
    {
        codes.push(cat3(":", e.shortcodes[i].as_str(), ":"));
        i += 1;
    }
    assert(views(codes@) =~= Seq::new(
        least(2, e@.shortcodes.len() as int) as nat,
        |i: int| coded(e@.shortcodes[i]),
    ));
    let mut spans: Vec<Span> = Vec::new();
    spans.push(styled(cat2(e.glyph.as_str(), "  "), plain()));
    spans.push(raw(e.name.as_str()));
    spans.push(styled(cat2("  ", join_strings(&codes, " ").as_str()), inked(Color::Dim)));
    let r: Line = Line { spans, centered: false };
    assert(r@.spans =~= emoji_line(e@).spans);
    r
}

/// The rows of the emoji picker.
pub open spec fn emoji_rows(a: AppV) -> Seq<LineV> {
    Seq::new(emoji_list(a).len(), |i: int| emoji_line(a.emojis[emoji_list(a)[i] as int]))
}

/// The rows of the emoji picker that fit on `height` lines.
pub fn draw_emoji_picker(app: &App, height: usize) -> (r: Vec<Line>)
    ensures
        views(r@) == shown_rows(emoji_rows(app@), app.emoji_sel as int, height as int),
{
    let hits: Vec<usize> = app.emoji_matches();
    let n: usize = hits.len();
    let from: usize = window_start(app.emoji_sel, height);
    let start: usize = if from < n { from } else { n };
    let mut out: Vec<Line> = Vec::new();
    let mut i: usize = start;
    let ghost rows = emoji_rows(app@);
    while i < n && i - start < height
        invariant
            start <= i <= n,
            i - start <= height,
            n == hits@.len(),
            hits@ == emoji_list(app@),
            rows == emoji_rows(app@),
            forall|k: int| 0 <= k < hits@.len() ==> #[trigger] hits@[k] < app.emojis@.len(),
            out@.len() == i - start,
            forall|k: int| 0 <= k < i - start ==> #[trigger] out@[k]@ == rows[k + start],
        decreases n - i,
    {
        assert(hits@[i as int] < app.emojis@.len());
        assert(app@.emojis[hits@[i as int] as int] == app.emojis@[hits@[i as int] as int]@);
        out.push(emoji_row(&app.emojis[hits[i]]));
        i += 1;
    }
    assert(views(out@) =~= shown_rows(rows, app.emoji_sel as int, height as int));
    out
}

// ----- the contact picker -----

/// An address in the contact picker.
pub open spec fn hit_line(h: HitV) -> LineV {
    line_of(seq![raw_span(h.name), span_of("  "@ + h.address, ink_style(Color::Dim))])
}

/// The rows of the contact picker.
pub open spec fn hit_rows(a: AppV) -> Seq<LineV> {
    Seq::new(picker_list(a).len(), |i: int| hit_line(picker_list(a)[i]))
}

/// The rows of the contact picker that fit on `height` lines; where nothing is found, a line that
/// says so.
pub fn draw_contact_picker(app: &App, height: usize) -> (r: Vec<Line>)
    ensures
        picker_list(app@).len() > 0 ==> views(r@) == shown_rows(hit_rows(app@), app.picker_sel as int, height as int),
        picker_list(app@).len() == 0 ==> views(r@) == seq![
            line_of(
                seq![
                    span_of(
                        if app@.contacts.len() == 0 {
                            "loading contacts…"@
                        } else {
                            "no matches — type a phone number or email"@
                        },
                        ink_style(Color::Dim),
                    ),
                ],
            ),
        ],
{
    let hits: Vec<Hit> = app.contact_matches();
    let n: usize = hits.len();
    assert(views(hits@).len() == n);
    assert(app@.contacts.len() == app.contacts@.len());
    let mut out: Vec<Line> = Vec::new();
    if n == 0 {
        let text: &str = if app.contacts.len() == 0 {
            "loading contacts…"
        } else {
            "no matches — type a phone number or email"
        };
        let l: Line = line1(span(text, inked(Color::Dim)));
        let ghost lv = l@;
        out.push(l);
        assert(views(out@) =~= seq![lv]);
        return out;
    }
    let from: usize = window_start(app.picker_sel, height);
    let start: usize = if from < n { from } else { n };
    let mut i: usize = start;
    let ghost rows = hit_rows(app@);
    while i < n && i - start < height
        invariant
            start <= i <= n,
            i - start <= height,
            n == hits@.len(),
            views(hits@) == picker_list(app@),
            rows == hit_rows(app@),
            out@.len() == i - start,
            forall|k: int| 0 <= k < i - start ==> #[trigger] out@[k]@ == rows[k + start],
        decreases n - i,
    {
        let h: &Hit = &hits[i];
        assert(views(hits@)[i as int] == h@);
        out.push(line2(raw(h.name.as_str()), styled(cat2("  ", h.address.as_str()), inked(Color::Dim))));
        i += 1;
    }
    assert(views(out@) =~= shown_rows(rows, app.picker_sel as int, height as int));
    out
}

// ----- search results -----

/// A search result: its time, chat, sender and text.
pub open spec fn result_line(a: AppV, m: MessageV, time: Seq<char>, w: int) -> LineV {
    let who = if m.is_from_me {
        "You"@
    } else {
        match m.sender {
            Some(p) => display_of(p),
            None => Seq::empty(),
        }
    };
    let chat = match chat_place(a.chats, m.chat_id, 0) {
        Some(p) => title_of(a.chats[p]),
        None => Seq::empty(),
    };
    let text = replace_all(
        match m.text {
            Some(t) => t,
            None => Seq::empty(),
        },
        "\n"@,
        " "@,
    );
    line_of(
        seq![
            span_of(time, ink_style(Color::Dim)),
            raw_span(" "@),
            span_of(cut(chat, 18), ink_style(Color::Blue)),
            span_of(" "@ + who + ": "@, ink_style(Color::Dim)),
            raw_span(cut(text, w as nat)),
        ],
    )
}

fn result_row(app: &App, m: &Message, time: &str, w: usize) -> (r: Line)
    ensures
        r@ == result_line(app@, m@, time@, w as int),
{
    let who: String = if m.is_from_me {
        "You".to_owned()
    } else {
        match &m.sender {
            Some(p) => p.display().to_owned(),
            None => String::new(),
        }
    };
    assert(!m.is_from_me && m.sender is None ==> who@ =~= Seq::<char>::empty());
    let chat: String = match find_chat(&app.chats, m.chat_id) {
        Some(p) => {
            assert(app@.chats[p as int] == app.chats@[p as int]@);
            app.chats[p].title()
        },
        None => String::new(),
    };
    assert(chat_place(app@.chats, m.chat_id, 0) is None ==> chat@ =~= Seq::<char>::empty());
    let text: String = match &m.text {
        Some(t) => t.clone(),
        None => String::new(),
    };
    proof {
        reveal_strlit("\n");
        assert(m.text is None ==> text@ =~= Seq::<char>::empty());
    }
    let mut spans: Vec<Span> = Vec::new();
    spans.push(span(time, inked(Color::Dim)));
    spans.push(raw(" "));
    spans.push(styled(truncate(chat.as_str(), 18), inked(Color::Blue)));
    spans.push(styled(cat3(" ", who.as_str(), ": "), inked(Color::Dim)));
    spans.push(styled(truncate(str_replace(text.as_str(), "\n", " ").as_str(), w), plain()));
    let r: Line = Line { spans, centered: false };
    assert(r@.spans =~= result_line(app@, m@, time@, w as int).spans);
    r
}

/// The rows of the search results.
pub open spec fn result_rows(a: AppV, times: Seq<Seq<char>>, w: int) -> Seq<LineV> {
    Seq::new(a.search_results.len(), |i: int| result_line(a, a.search_results[i], times[i], w))
}

/// The search results that fit on `height` lines of `w` columns; `times` tells the time of each.
pub fn draw_search(app: &App, times: &Vec<String>, height: usize, w: usize) -> (r: Vec<Line>)
    requires
        times@.len() == app.search_results@.len(),
    ensures
        views(r@) == shown_rows(result_rows(app@, views(times@), w as int), app.search_sel as int, height as int),
{
    let n: usize = app.search_results.len();
    let from: usize = window_start(app.search_sel, height);
    let start: usize = if from < n { from } else { n };
    let mut out: Vec<Line> = Vec::new();
    let mut i: usize = start;
    let ghost rows = result_rows(app@, views(times@), w as int);
    assert(app@.search_results.len() == n);
    while i < n && i - start < height
        invariant
            start <= i <= n,
            i - start <= height,
            n == app.search_results@.len(),
            times@.len() == n,
            rows == result_rows(app@, views(times@), w as int),
            out@.len() == i - start,
            forall|k: int| 0 <= k < i - start ==> #[trigger] out@[k]@ == rows[k + start],
        decreases n - i,
    {
        assert(app@.search_results[i as int] == app.search_results@[i as int]@);
        assert(views(times@)[i as int] == times@[i as int]@);
        out.push(result_row(app, &app.search_results[i], times[i].as_str(), w));
        i += 1;
    }
    assert(views(out@) =~= shown_rows(rows, app.search_sel as int, height as int));
    out
}

} // verus!
