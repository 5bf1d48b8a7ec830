//! The terminal client.
use imsg::bubbles::{att_icon, first_name, render_messages, stamp_message, Pane, Rendered, Stamp};
use imsg::clock::{full_from, full_time, local, short_clock, short_from, short_time, LocalTime};
use imsg::config::{load, read_kv, save, Config};
use imsg::client::{
    cache_name, command_request, expand_tilde, messages_path, next_delay, search_path, urlencode,
};
use imsg::emoji::{emoji_table, expand_shortcodes, maybe_expand_shortcode};
use imsg::keys::{complete_name, Code, Key};
use imsg::panes::{
    compose_height, draw_chips, draw_contact_picker, draw_emoji_picker, draw_header, draw_messages, draw_search, draw_sidebar,
    draw_status, popup, sidebar_width, window_start, Area,
};
use imsg::screen::{pad, truncate, Color, Line, Span, Style};
use imsg::state::{App, AppEvent, Focus, Mode, Purpose, Request};
use imsg::wire::{
    Attachment, Chat, Contact, Message, MessageKind, MessagesPage, Participant, Reaction, SendResponse, ServerInfo,
    TextPart, UploadResponse, WsEvent,
};
use imsg::wrap::wrap_segments;
use ratatui::{
    backend::TestBackend,
    text::{Line as TermLine, Span as TermSpan, Text},
    widgets::Paragraph,
    Terminal,
};

fn app() -> App {
    App::new(vec![])
}

fn chat(id: i64, date: i64, preview: &str) -> Chat {
    Chat {
        id,
        guid: format!("g{id}"),
        identifier: format!("c{id}"),
        service: "iMessage".into(),
        display_name: Some(format!("Chat {id}")),
        is_group: false,
        participants: vec![],
        last_date: date,
        last_preview: Some(preview.into()),
        last_from_me: false,
        unread: 0,
    }
}

fn message(id: i64, chat_id: i64) -> Message {
    Message {
        id,
        guid: format!("m{id}"),
        chat_id,
        sender: None,
        is_from_me: false,
        date: id,
        date_read: 0,
        date_delivered: 0,
        is_read: false,
        is_delivered: false,
        is_sent: true,
        error: 0,
        service: "iMessage".into(),
        subject: None,
        text: Some("hello".into()),
        parts: vec![],
        attachments: vec![],
        reactions: vec![],
        kind: MessageKind::Normal,
        reply_to: None,
        thread_originator_guid: None,
        is_edited: false,
        expressive: None,
        is_audio: false,
    }
}

fn msg(id: i64, from_me: bool, text: &str) -> Message {
    let mut m = message(id, 1);
    m.guid = format!("g{id}");
    m.is_from_me = from_me;
    m.date = 1_700_000_000_000 + id * 1000;
    m.is_read = true;
    m.is_delivered = true;
    m.text = Some(text.into());
    m.parts = vec![TextPart { text: text.into(), effects: vec![] }];
    m
}

fn key(code: Code) -> Key {
    Key { code, ctrl: false, alt: false, shift: false }
}

fn ctrl(c: char) -> Key {
    Key { code: Code::Char(c), ctrl: true, alt: false, shift: false }
}

fn line_text(l: &Line) -> String {
    l.spans.iter().map(|s| s.text.clone()).collect()
}

fn texts(r: &Rendered) -> Vec<String> {
    r.lines.iter().map(line_text).collect()
}

fn pane(width: usize) -> Pane {
    Pane { width, is_group: false, sms: false, now: 1_700_000_000_000 }
}

fn fixed_stamp(sizes: Vec<String>) -> Stamp {
    Stamp { full: "Tuesday 5:00 PM".into(), clock: "5:00 PM".into(), read: "5:01 PM".into(), sizes }
}

#[test]
fn ws_message_does_not_cache_unopened_chat_and_loaded_empty_chat_updates() {
    let mut app = app();
    app.on_app_event(AppEvent::Ws(WsEvent::Messages { messages: vec![message(1, 7)] }));
    assert!(!app.messages.contains_key(&7));
    app.chats = vec![chat(7, 1, "")];
    app.ensure_messages();
    assert!(app.loading.contains(&7));
    app.loading.remove(&7);
    app.messages.insert(7, vec![]);
    app.chats.push(chat(8, 2, "other"));
    app.chat_sel = 1;
    app.on_app_event(AppEvent::Ws(WsEvent::Messages { messages: vec![message(1, 7)] }));
    assert_eq!(app.messages.get(&7).unwrap().len(), 1);
}

#[test]
fn message_failure_clears_loading_for_retry() {
    let mut app = app();
    app.chats = vec![chat(1, 1000, "")];
    app.messages.insert(1, vec![message(1, 1)]);
    app.has_more.insert(1, true);
    app.loading.insert(1);
    app.loading.insert(2);
    app.on_app_event(AppEvent::MessagesFailed { chat_id: 1, message: "messages: failed".into() });
    app.load_older();
    assert!(app.loading.contains(&1));
    app.on_app_event(AppEvent::MessagesFailed { chat_id: 1, message: "older: failed".into() });
    app.ensure_tail();
    assert!(app.loading.contains(&1));
    app.on_app_event(AppEvent::MessagesFailed { chat_id: 1, message: "tail: failed".into() });
    assert!(!app.loading.contains(&1));
    assert!(app.loading.contains(&2));
    app.messages.remove(&1);
    app.ensure_messages();
    assert!(app.loading.contains(&1));
}

#[test]
fn limited_chat_updates_merge_and_preserve_selection() {
    let mut app = app();
    app.chats = vec![chat(1, 100, "old"), chat(2, 300, "selected")];
    app.chat_sel = 1;
    app.merge_chats(vec![chat(1, 500, "updated"), chat(3, 400, "new")]);
    assert_eq!(app.chats.iter().map(|c| c.id).collect::<Vec<_>>(), vec![1, 3, 2]);
    assert_eq!(app.current_chat_id(), Some(2));
    assert_eq!(app.chats[0].last_preview.as_deref(), Some("updated"));
}

#[test]
fn wide_emoji_rows_align() {
    let msgs = vec![msg(1, false, "Ok. Miss you and love you 😘"), msg(2, false, "plain")];
    let stamps: Vec<Stamp> = msgs.iter().map(|m| stamp_message(m, vec![]).0).collect();
    let r = render_messages(&msgs, &stamps, pane(60), None, false, false);
    let lines: Vec<TermLine> =
        r.lines.iter().map(|l| TermLine::from(l.spans.iter().map(|s| TermSpan::raw(s.text.clone())).collect::<Vec<_>>())).collect();
    let backend = TestBackend::new(60, 12);
    let mut term = Terminal::new(backend).unwrap();
    term.draw(|f| f.render_widget(Paragraph::new(Text::from(lines.clone())), f.area())).unwrap();
    let buf = term.backend().buffer().clone();
    let rows: Vec<String> =
        (0..12).map(|y| (0..60).map(|x| buf[(x, y)].symbol().to_string()).collect::<String>()).collect();
    // Every bubble edge row must start at the same column as its content row.
    let top = rows[1].find('▄').unwrap();
    let bottom = rows[3].find('▀').unwrap();
    assert_eq!(top, bottom, "top/bottom edge misaligned around wide emoji");
}

#[test]
fn bubbles_of_own_messages() {
    let mut m = msg(1, true, "hi");
    m.date_read = 5;
    m.reactions = vec![Reaction {
        kind: "love".into(),
        emoji: "❤️".into(),
        sender: Some(Participant { handle_id: 1, address: "+1".into(), name: Some("Ann Able".into()), contact_id: None }),
        from_me: false,
    }];
    let r = render_messages(&vec![m], &vec![fixed_stamp(vec![])], pane(40), Some(0), false, true);
    let t = texts(&r);
    assert_eq!(t[0], "↑ scroll for earlier messages");
    assert_eq!(t[1], " Tuesday 5:00 PM ");
    assert!(r.lines[1].centered);
    assert_eq!(t[2], format!("{}▶▄▄▄▄", " ".repeat(34)));
    assert_eq!(t[3], format!("{}5:00 PM  hi ", " ".repeat(27)));
    assert_eq!(t[4], format!("{}▀▀▀▀", " ".repeat(35)));
    assert!(t[5].ends_with("❤️ Ann"));
    assert_eq!(t[6], format!("{}Read 5:01 PM", " ".repeat(27)));
    assert_eq!(t[7], "");
    assert_eq!(r.ranges, vec![(1, 7)]);
    assert_eq!(r.lines[3].spans[3].style.bg, Some(Color::Blue));
}

#[test]
fn bubbles_of_others_and_system_lines() {
    let mut m = msg(1, false, "see this");
    m.parts = vec![TextPart { text: "see this".into(), effects: vec!["bold,italic".into(), "link:x".into()] }];
    m.attachments = vec![Attachment {
        id: 1,
        guid: None,
        name: "a.pdf".into(),
        mime: "application/pdf".into(),
        size: 5,
        is_sticker: false,
        available: true,
        url: "/api/attachments/1".into(),
    }];
    let mut sys = msg(2, false, "");
    sys.kind = MessageKind::Announcement { text: "Ann left the conversation".into() };
    let mut p = pane(60);
    p.is_group = true;
    let r = render_messages(
        &vec![m, sys],
        &vec![fixed_stamp(vec!["5 B".into()]), fixed_stamp(vec![])],
        p,
        None,
        false,
        false,
    );
    let t = texts(&r);
    assert_eq!(t[1], "  Unknown");
    assert!(t[3].contains(" see this"));
    assert!(t[4].contains("📄 a.pdf (5 B)"));
    assert!(t[4].ends_with("5:00 PM"));
    let st: Style = r.lines[3].spans[2].style;
    assert!(st.bold && st.italic && st.underlined);
    assert_eq!(t[7], "Ann left the conversation");
    assert_eq!(r.ranges, vec![(0, 6), (7, 8)]);
    let none = render_messages(&vec![], &vec![], pane(60), None, false, false);
    assert_eq!(texts(&none), vec!["No messages yet"]);
    let waiting = render_messages(&vec![], &vec![], pane(60), None, true, false);
    assert_eq!(texts(&waiting), vec!["loading…"]);
}

#[test]
fn empty_bubbles_say_so() {
    let mut m = msg(1, true, "");
    m.parts = vec![];
    let mut p = pane(40);
    p.now = m.date + 1;
    let r = render_messages(&vec![m.clone()], &vec![fixed_stamp(vec![])], p, None, false, false);
    assert!(texts(&r)[2].contains("Sending…"));
    p.now = m.date + 600_000;
    let r = render_messages(&vec![m], &vec![fixed_stamp(vec![])], p, None, false, false);
    assert!(texts(&r)[2].contains("(no content)"));
}

fn seg(t: &str) -> Span {
    Span {
        text: t.into(),
        style: Style { fg: None, bg: None, bold: false, italic: false, underlined: false, crossed_out: false },
    }
}

fn rows_of(segs: Vec<Span>, w: usize) -> Vec<String> {
    wrap_segments(&segs, w).iter().map(|r| r.iter().map(|s| s.text.clone()).collect::<String>()).collect()
}

#[test]
fn words_wrap() {
    assert_eq!(rows_of(vec![seg("one two three")], 8), vec!["one two", "three"]);
    assert_eq!(rows_of(vec![seg("abcdefghij")], 4), vec!["abcd", "efgh", "ij"]);
    assert_eq!(rows_of(vec![seg("a\nb\n\n")], 8), vec!["a", "b"]);
    assert_eq!(rows_of(vec![seg("")], 8), vec![""]);
    assert_eq!(rows_of(vec![seg("ab "), seg("cd")], 1), vec!["ab", "cd"]);
    assert_eq!(rows_of(vec![seg("😘😘😘")], 4), vec!["😘😘", "😘"]);
}

#[test]
fn text_is_cut_and_padded() {
    assert_eq!(truncate("hello", 5), "hello");
    assert_eq!(truncate("hello", 4), "hel…");
    assert_eq!(truncate("😘😘😘", 4), "😘…");
    assert_eq!(truncate("hello", 0), "…");
    assert_eq!(pad("😘", 4), "😘  ");
    assert_eq!(pad("hello", 3), "hello");
    assert_eq!(first_name("  Ann  Able"), "Ann");
    assert_eq!(first_name("   "), "   ");
    assert_eq!(att_icon("video/mp4", false), "🎬");
    assert_eq!(att_icon("video/mp4", true), "🏷");
    assert_eq!(att_icon("text/plain", false), "📎");
}

fn at(ms: i64, year: i32, month: u32, day: u32, hour: u32, minute: u32) -> LocalTime {
    LocalTime { ms, year, month, day, hour, minute }
}

#[test]
fn times_by_how_long_ago() {
    let now = at(1_700_000_000_000, 2023, 11, 14, 22, 13);
    let today = at(1_699_999_000_000, 2023, 11, 14, 0, 5);
    assert_eq!(short_from(&today, &now), "12:05 AM");
    assert_eq!(full_from(&today, &now), "Today 12:05 AM");
    let week = at(1_699_700_000_000, 2023, 11, 11, 12, 0);
    assert_eq!(short_from(&week, &now), "Sat");
    assert_eq!(full_from(&week, &now), "Saturday 12:00 PM");
    let year = at(1_680_000_000_000, 2023, 3, 28, 13, 7);
    assert_eq!(short_from(&year, &now), "Mar 28");
    assert_eq!(full_from(&year, &now), "Mar 28, 2023 1:07 PM");
    let past = at(1_000_000_000_000, 2001, 9, 9, 3, 46);
    assert_eq!(short_from(&past, &now), "9/9/01");
    assert_eq!(full_from(&past, &now), "Sep 9, 2001 3:46 AM");
    let leap = at(1_582_934_400_000, 2020, 2, 29, 1, 0);
    let after = at(1_582_934_400_001, 2020, 3, 1, 1, 0);
    assert_eq!(short_from(&leap, &after), "Sat");
}

#[test]
fn times_on_this_machine() {
    assert_eq!(short_time(0), "");
    assert_eq!(full_time(-5), "");
    assert_eq!(short_clock(0), "");
    let c = short_clock(1_700_000_000_000);
    assert!(c.ends_with(" AM") || c.ends_with(" PM"));
    assert!(full_time(1_000_000_000_000).contains("2001"));
    let t = local(1_700_000_000_000).unwrap();
    assert_eq!((t.year, t.month), (2023, 11));
    assert!(local(i64::MAX).is_none());
}

#[test]
fn configuration_is_found() {
    let text = save(&Config { server: "http://mac:8787".into(), token: "abc".into() });
    assert_eq!(text, "server = \"http://mac:8787\"\ntoken = \"abc\"\n");
    let c = load(None, None, &Some(text.clone()), &None, "/c").unwrap();
    assert_eq!((c.server.as_str(), c.token.as_str()), ("http://mac:8787", "abc"));
    let c = load(Some("http://x//".into()), Some("t".into()), &Some(text), &None, "/c").unwrap();
    assert_eq!((c.server.as_str(), c.token.as_str()), ("http://x", "t"));
    let c = load(None, None, &None, &Some("# x\ntoken = \"srv\"\n".into()), "/c").unwrap();
    assert_eq!((c.server.as_str(), c.token.as_str()), ("http://127.0.0.1:8787", "srv"));
    let e = load(None, None, &None, &None, "/c").unwrap_err();
    assert_eq!(e, "no token: pass --token, or create /c with server = \"http://host:8787\" and token = \"...\"");
    assert_eq!(read_kv(Some("server : x"), "server"), None);
}

#[test]
fn requests_to_the_server() {
    let c = Config { server: "http://mac:8787".into(), token: "abc".into() };
    assert_eq!(c.url("/api/info"), "http://mac:8787/api/info");
    assert_eq!(c.ws_url(), "ws://mac:8787/ws?token=abc");
    let s = Config { server: "https://http.example".into(), token: "t".into() };
    assert_eq!(s.ws_url(), "wss://http.example/ws?token=t");
    assert_eq!(messages_path(3, Some(9), 60), "/api/chats/3/messages?limit=60&before=9");
    assert_eq!(messages_path(3, None, 60), "/api/chats/3/messages?limit=60");
    assert_eq!(search_path("a b"), "/api/search?limit=100&q=a+b");
    assert_eq!(urlencode("é/~z-_.9"), "%C3%A9%2F~z-_.9");
    assert_eq!(urlencode("a b+c&é~"), "a+b%2Bc%26%C3%A9~");
    assert_eq!(next_delay(1), 2);
    assert_eq!(next_delay(16), 30);
    assert_eq!(expand_tilde("~/a", "/h"), "/h/a");
    assert_eq!(expand_tilde("~a", "/h"), "~a");
    let a = Attachment {
        id: 4,
        guid: None,
        name: "a/b\\c.png".into(),
        mime: "image/png".into(),
        size: 1,
        is_sticker: false,
        available: true,
        url: String::new(),
    };
    assert_eq!(cache_name(&a), "4-abc.png");
    assert_eq!(command_request("iMessage;-;x", None, vec![]).chat_guid.as_deref(), Some("iMessage;-;x"));
    assert_eq!(command_request("+1555", Some("t".into()), vec!["u".into()]).to, vec!["+1555"]);
}

#[test]
fn shortcodes_become_emoji() {
    assert_eq!(expand_shortcodes("On my way :thumbsup:"), "On my way 👍");
    assert_eq!(expand_shortcodes("a:b :no such: :rocket::rocket: 10:30"), "a:b :no such: 🚀🚀 10:30");
    assert_eq!(expand_shortcodes("plain"), "plain");
    assert_eq!(maybe_expand_shortcode("hi :rocket: x", 11), Some((8, "🚀".to_string())));
    assert_eq!(maybe_expand_shortcode("hi :rocket: x", 12), None);
    assert_eq!(maybe_expand_shortcode(":nosuchcode:", 12), None);
    assert_eq!(maybe_expand_shortcode("::", 2), None);
}

#[test]
fn the_emoji_picker() {
    let mut app = App::new(emoji_table());
    assert!(app.emojis.len() > 1000);
    assert_eq!(app.emojis[0].glyph, "😀");
    assert_eq!(app.emoji_matches().len(), 401);
    app.on_key(ctrl('e'), &vec![String::new()]);
    assert_eq!(app.mode, Mode::Emoji);
    for c in "rocket".chars() {
        app.on_key(key(Code::Char(c)), &vec![String::new()]);
    }
    let first = app.emoji_matches()[0];
    assert_eq!(app.emojis[first].glyph, "🚀");
    assert_eq!(line_text(&draw_emoji_picker(&app, 5)[0]), "🚀  rocket  :rocket:");
    app.on_key(key(Code::Up), &vec![String::new()]);
    app.on_key(key(Code::Down), &vec![String::new()]);
    app.on_key(key(Code::Enter), &vec![String::new()]);
    assert_eq!(app.mode, Mode::Normal);
    assert_eq!(app.focus, Focus::Compose);
    assert!(matches!(app.outbox.last(), Some(Request::Insert { text }) if text == "🚀"));
}

#[test]
fn tab_cycles_both_ways() {
    let mut app = app();
    let lines = vec![String::new()];
    for f in [Focus::Messages, Focus::Compose, Focus::Chats] {
        app.on_key(key(Code::Tab), &lines);
        assert_eq!(app.focus, f);
    }
    for f in [Focus::Compose, Focus::Messages, Focus::Chats] {
        app.on_key(key(Code::BackTab), &lines);
        assert_eq!(app.focus, f);
    }
}

#[test]
fn keys_in_the_chat_list() {
    let mut app = app();
    let lines = vec![String::new()];
    app.chats = vec![chat(1, 3, "apple"), chat(2, 2, "Banana"), chat(3, 1, "cherry")];
    app.on_key(key(Code::Char('j')), &lines);
    assert_eq!(app.current_chat_id(), Some(2));
    assert!(matches!(
        app.outbox[0],
        Request::LoadMessages { chat_id: 2, before: None, limit: 60, purpose: Purpose::First }
    ));
    app.on_key(key(Code::PageDown), &lines);
    assert_eq!(app.chat_sel, 2);
    app.on_key(key(Code::Up), &lines);
    assert_eq!(app.chat_sel, 1);
    app.on_key(key(Code::Char('/')), &lines);
    for c in "ban".chars() {
        app.on_key(key(Code::Char(c)), &lines);
    }
    assert_eq!(app.filtered_chats(), vec![1]);
    app.on_key(key(Code::Backspace), &lines);
    assert_eq!(app.chat_filter, "ba");
    app.on_key(key(Code::Enter), &lines);
    assert_eq!(app.mode, Mode::Normal);
    app.on_key(key(Code::Esc), &lines);
    assert_eq!(app.filtered_chats().len(), 3);
    app.on_key(key(Code::Char('?')), &lines);
    assert_eq!(app.mode, Mode::Help);
    app.on_key(key(Code::Char('x')), &lines);
    assert_eq!(app.mode, Mode::Normal);
    app.on_key(key(Code::Char('q')), &lines);
    assert!(app.should_quit);
}

#[test]
fn keys_in_the_messages() {
    let mut app = app();
    let lines = vec![String::new()];
    app.chats = vec![chat(1, 3, "")];
    let mut linked = message(2, 1);
    linked.parts = vec![TextPart { text: "x".into(), effects: vec!["bold".into(), "link:https://a.b".into()] }];
    app.messages.insert(1, vec![message(1, 1), linked]);
    app.has_more.insert(1, true);
    app.focus = Focus::Messages;
    app.set_view(100, 10, vec![(0, 49), (50, 99)]);
    app.on_key(key(Code::Up), &lines);
    assert_eq!(app.msg_sel, Some(1));
    assert_eq!(app.scroll, 40);
    app.on_key(key(Code::Char('o')), &lines);
    assert!(matches!(app.outbox.last(), Some(Request::OpenUrl { url }) if url == "https://a.b"));
    assert_eq!(app.status, "opened https://a.b");
    app.on_key(key(Code::Char('y')), &lines);
    assert!(matches!(app.outbox.last(), Some(Request::Copy { text }) if text == "hello"));
    app.on_key(key(Code::Char('s')), &lines);
    assert_eq!(app.status, "no attachments on this message");
    app.on_key(key(Code::Up), &lines);
    assert_eq!((app.msg_sel, app.scroll), (Some(0), 90));
    app.on_key(key(Code::Up), &lines);
    assert!(matches!(
        app.outbox.last(),
        Some(Request::LoadMessages { chat_id: 1, before: Some(1), limit: 60, purpose: Purpose::Older })
    ));
    app.on_app_event(AppEvent::Messages {
        chat_id: 1,
        page: MessagesPage { messages: vec![message(-1, 1), message(0, 1)], has_more: false },
        older: true,
    });
    assert_eq!(app.msg_sel, Some(2));
    assert_eq!(app.current_messages().len(), 4);
    app.on_key(key(Code::Char('G')), &lines);
    assert_eq!((app.msg_sel, app.scroll), (None, 0));
    app.on_key(key(Code::PageUp), &lines);
    assert_eq!(app.scroll, 5);
    assert_eq!(app.set_view(8, 10, vec![]), 0);
    assert_eq!(app.scroll, 0);
    app.on_key(key(Code::Esc), &lines);
    assert_eq!(app.focus, Focus::Chats);
}

#[test]
fn composing_and_sending() {
    let mut app = app();
    app.focus = Focus::Compose;
    let lines = vec![" hello :rocket:".to_string(), "there ".to_string()];
    app.on_key(key(Code::Enter), &lines);
    assert_eq!(app.status, "no conversation selected");
    app.chats = vec![chat(1, 3, "")];
    app.pending_files = vec![UploadResponse { id: "u1".into(), name: "a".into(), size: 1 }];
    app.on_key(key(Code::Enter), &lines);
    assert!(app.sending);
    assert!(app.pending_files.is_empty());
    assert!(matches!(app.outbox[0], Request::ClearCompose));
    match &app.outbox[1] {
        Request::Send { request } => {
            assert_eq!(request.text.as_deref(), Some("hello 🚀\nthere"));
            assert_eq!(request.chat_guid.as_deref(), Some("g1"));
            assert_eq!(request.uploads, vec!["u1"]);
        }
        _ => panic!("not a request to send"),
    }
    let n = app.outbox.len();
    app.on_key(key(Code::Enter), &vec!["  ".to_string()]);
    assert_eq!(app.outbox.len(), n);
    app.on_key(Key { code: Code::Enter, ctrl: false, alt: true, shift: false }, &lines);
    assert!(matches!(app.outbox.last(), Some(Request::Newline)));
    app.on_key(key(Code::Char('x')), &lines);
    assert!(matches!(app.outbox.last(), Some(Request::Input)));
    app.on_app_event(AppEvent::Sent(Ok(SendResponse { ok: true, detail: None })));
    assert_eq!(app.status, "sent");
    app.on_app_event(AppEvent::Sent(Ok(SendResponse { ok: false, detail: Some("no".into()) })));
    assert_eq!(app.status, "send failed: no");
    app.on_app_event(AppEvent::Sent(Err("down".into())));
    assert_eq!(app.status, "send failed: down");
    app.on_app_event(AppEvent::Uploaded {
        result: Ok(UploadResponse { id: "u2".into(), name: "b.png".into(), size: 2000 }),
        size: "2 KB".into(),
    });
    assert_eq!(app.status, "attached b.png (2 KB)");
    assert_eq!(line_text(&draw_chips(&app)), " 📎  b.png  (Backspace on empty input removes)");
    app.on_key(key(Code::Backspace), &vec![String::new()]);
    assert!(app.pending_files.is_empty());
    app.on_app_event(AppEvent::Uploaded { result: Err("big".into()), size: String::new() });
    assert_eq!(app.status, "upload failed: big");
}

fn contact(id: i64, name: &str, phone: &str) -> Contact {
    Contact {
        id,
        name: name.into(),
        first: None,
        last: None,
        organization: None,
        phones: vec![phone.into()],
        emails: vec![format!("{id}@x.org")],
        has_photo: false,
    }
}

#[test]
fn new_conversations() {
    let mut app = app();
    let lines = vec![String::new()];
    app.on_key(ctrl('n'), &lines);
    assert!(matches!(app.outbox[0], Request::LoadContacts));
    assert_eq!(line_text(&draw_contact_picker(&app, 5)[0]), "loading contacts…");
    app.on_app_event(AppEvent::Contacts(vec![contact(1, "Ann", "555-000-1111"), contact(2, "Bob", "555-000-2222")]));
    for c in "bob".chars() {
        app.on_key(key(Code::Char(c)), &lines);
    }
    let hits = app.contact_matches();
    assert_eq!(hits.len(), 2);
    assert_eq!(hits[0].address, "555-000-2222");
    app.on_key(key(Code::Enter), &lines);
    let nc = app.new_chat.as_ref().unwrap();
    assert_eq!((nc.name.as_str(), nc.address.as_str()), ("Bob", "555-000-2222"));
    assert_eq!(app.focus, Focus::Compose);
    assert_eq!(app.current_chat_id(), None);
    let (title, sub) = draw_header(&app, 60);
    assert_eq!((line_text(&title), line_text(&sub)), ("New message to Bob".to_string(), "555-000-2222".to_string()));
    let mut c = chat(9, 5, "");
    c.participants =
        vec![Participant { handle_id: 1, address: "+15550002222".into(), name: None, contact_id: None }];
    app.on_app_event(AppEvent::Chats(vec![c, chat(3, 9, "")]));
    assert!(app.new_chat.is_none());
    assert_eq!(app.current_chat_id(), Some(9));
    app.on_key(ctrl('n'), &lines);
    for c in "5550003333".chars() {
        app.on_key(key(Code::Char(c)), &lines);
    }
    app.on_key(key(Code::Enter), &lines);
    assert_eq!(app.new_chat.as_ref().unwrap().name, "5550003333");
}

#[test]
fn attaching_and_searching() {
    let mut app = app();
    let lines = vec![String::new()];
    app.on_key(ctrl('f'), &lines);
    for c in " ~/a ".chars() {
        app.on_key(key(Code::Char(c)), &lines);
    }
    app.on_key(key(Code::Tab), &lines);
    assert!(matches!(app.outbox.last(), Some(Request::CompletePath { input }) if input == " ~/a "));
    app.completed(Some("/h/abc".into()));
    app.completed(None);
    app.on_key(key(Code::Enter), &lines);
    assert!(matches!(app.outbox.last(), Some(Request::CheckFile { path }) if path == "/h/abc"));
    app.attach("/h/abc", false);
    assert_eq!(app.status, "no such file: /h/abc");
    app.attach("/h/abc", true);
    assert!(matches!(app.outbox.last(), Some(Request::Upload { path }) if path == "/h/abc"));
    assert_eq!(app.status, "uploading /h/abc…");
    app.on_key(ctrl('s'), &lines);
    app.on_key(key(Code::Char('x')), &lines);
    app.on_key(key(Code::Enter), &lines);
    assert!(matches!(app.outbox.last(), Some(Request::Search { query }) if query == "x"));
    app.chats = vec![chat(1, 2, ""), chat(5, 1, "")];
    app.on_app_event(AppEvent::Search(vec![message(7, 5), message(8, 1)]));
    assert_eq!(app.status, "2 result(s)");
    let rows = draw_search(&app, &vec!["Mon".into(), "Tue".into()], 1, 40);
    assert_eq!(rows.len(), 1);
    assert_eq!(line_text(&rows[0]), "Mon Chat 5 : hello");
    app.on_key(key(Code::Enter), &lines);
    assert_eq!(app.current_chat_id(), Some(5));
    assert_eq!((app.mode, app.focus), (Mode::Normal, Focus::Messages));
    assert_eq!(complete_name(&vec!["b1".into(), "a2".into(), "a1".into()], "a"), Some(2));
    assert_eq!(complete_name(&vec!["b1".into()], "a"), None);
}

#[test]
fn what_the_server_says() {
    let mut app = app();
    let info = ServerInfo { name: "imsg-server".into(), version: "1".into(), me: vec![], host: "mac".into() };
    app.on_app_event(AppEvent::Ws(WsEvent::Hello { info: info.clone() }));
    assert!(app.connected);
    assert_eq!(
        line_text(&draw_status(&app, 80)),
        "● live mac connected  j/k move · Enter compose · / filter · Ctrl+N new · Ctrl+S search · ? help"
    );
    app.on_app_event(AppEvent::Ws(WsEvent::Error { message: "gone".into() }));
    assert!(!app.connected);
    app.on_app_event(AppEvent::Info(info));
    assert_eq!(app.status, "connected");
    app.on_app_event(AppEvent::Status("x".into()));
    assert_eq!(app.status, "x");
    app.chats = vec![chat(1, 3, "")];
    app.messages.insert(1, vec![message(5, 1)]);
    app.on_app_event(AppEvent::Tail { chat_id: 1, messages: vec![message(9, 1), message(5, 1), message(2, 1)] });
    assert_eq!(app.messages[&1].iter().map(|m| m.id).collect::<Vec<_>>(), vec![2, 5, 9]);
    app.on_key(ctrl('r'), &vec![String::new()]);
    assert!(!app.messages.contains_key(&1));
    assert!(matches!(app.outbox.last(), Some(Request::LoadChats)));
    assert_eq!(app.status, "refreshed");
}

#[test]
fn the_chat_list() {
    let mut app = app();
    let mut g = chat(2, 2, "two\nlines");
    g.is_group = true;
    g.unread = 3;
    g.last_from_me = true;
    app.chats = vec![chat(1, 3, ""), g];
    let s = draw_sidebar(&app, &vec!["5:00 PM".into(), "Mon".into()], 24);
    assert_eq!(s.title, " Messages ");
    assert!(s.lit);
    assert_eq!(s.selected, Some(0));
    assert_eq!(line_text(&s.items[0].0), "  Chat 1        5:00 PM");
    assert_eq!(line_text(&s.items[1].0), "● 👥Chat 2          Mon");
    assert_eq!(line_text(&s.items[1].1), "  You: two lines");
    app.chat_filter = "zz".into();
    let s = draw_sidebar(&app, &vec![String::new(), String::new()], 24);
    assert_eq!(s.title, " / zz▏");
    assert!(s.items.is_empty());
    assert_eq!(s.selected, None);
}

#[test]
fn places_on_the_screen() {
    assert_eq!(sidebar_width(100), 30);
    assert_eq!(sidebar_width(10), 24);
    assert_eq!(sidebar_width(500), 44);
    assert_eq!(compose_height(0), 3);
    assert_eq!(compose_height(9), 8);
    let p = popup(Area { x: 0, y: 0, width: 100, height: 10 }, 50, 18);
    assert_eq!(p, Area { x: 25, y: 1, width: 50, height: 8 });
    assert_eq!(window_start(7, 5), 3);
    assert_eq!(window_start(2, 5), 0);
    assert_eq!(Color::Blue.rgb(), Some((0, 122, 255)));
    assert_eq!(Color::White.rgb(), None);
}

#[test]
fn the_conversation_on_the_screen() {
    let mut app = app();
    let r = draw_messages(&app, &vec![], &vec![], 60, 0);
    assert_eq!(texts(&r), vec!["No messages yet"]);
    let mut c = chat(1, 3, "");
    c.service = "SMS".into();
    c.is_group = true;
    app.chats = vec![c];
    app.messages.insert(1, vec![msg(1, true, "hi")]);
    app.has_more.insert(1, true);
    let msgs = app.current_messages();
    let r = draw_messages(&app, &msgs, &vec![fixed_stamp(vec![])], 40, 1_700_000_000_000);
    assert_eq!(texts(&r)[0], "↑ scroll for earlier messages");
    assert!(r.lines[3].spans.iter().any(|s| s.style.bg == Some(Color::Green)));
    app.loading.insert(1);
    let r = draw_messages(&app, &msgs, &vec![fixed_stamp(vec![])], 40, 1_700_000_000_000);
    assert_eq!(texts(&r)[0], "loading…");
}

#[test]
fn nothing_is_loaded_twice() {
    let mut app = app();
    app.chats = vec![chat(1, 3, "")];
    app.ensure_messages();
    app.ensure_messages();
    app.load_older();
    app.ensure_tail();
    assert_eq!(app.outbox.len(), 1);
}

#[test]
fn the_selected_row_is_shown() {
    let mut app = app();
    app.search_results = (0..9).map(|i| message(i, 1)).collect();
    app.search_sel = 6;
    let times: Vec<String> = (0..9).map(|i| format!("t{i}")).collect();
    let rows = draw_search(&app, &times, 3, 40);
    assert_eq!(rows.len(), 3);
    assert!(line_text(&rows[6 - window_start(6, 3)]).starts_with("t6 "));
}

#[test]
fn expanding_twice_changes_nothing() {
    for s in ["On my way :thumbsup:", "a:rocket:b:rocket:", ":no:rocket:tada:", "::rocket::", "10:30"] {
        let once = expand_shortcodes(s);
        assert_eq!(expand_shortcodes(&once), once);
    }
    assert_eq!(expand_shortcodes(":no such::nosuchcode:x"), ":no such::nosuchcode:x");
}

#[test]
fn mentions_are_bold() {
    let mut m = msg(1, false, "@Ann");
    m.parts = vec![TextPart { text: "@Ann".into(), effects: vec!["mention".into()] }];
    let mut other = msg(2, false, "@Bob");
    other.parts = vec![TextPart { text: "@Bob".into(), effects: vec!["mention:+15551234567".into()] }];
    let r = render_messages(
        &vec![m, other],
        &vec![fixed_stamp(vec![]), fixed_stamp(vec![])],
        pane(40),
        None,
        false,
        false,
    );
    for name in ["@Ann", "@Bob"] {
        assert!(r.lines.iter().flat_map(|l| l.spans.iter()).any(|s| s.text == name && s.style.bold));
    }
}

#[test]
fn updates_tell_last_and_keep_a_filtered_selection() {
    let mut app = app();
    app.chats = vec![chat(1, 100, "apple"), chat(2, 300, "banana"), chat(3, 200, "apple pie")];
    app.chat_filter = "apple".into();
    app.chat_sel = 1;
    assert_eq!(app.current_chat_id(), Some(3));
    app.merge_chats(vec![chat(1, 900, "apple"), chat(3, 950, "x"), chat(3, 400, "apple tart")]);
    assert_eq!(app.chats.iter().map(|c| c.id).collect::<Vec<_>>(), vec![1, 3, 2]);
    assert_eq!(app.chats[1].last_preview.as_deref(), Some("apple tart"));
    assert_eq!(app.chats[2].last_preview.as_deref(), Some("banana"));
    assert_eq!(app.current_chat_id(), Some(3));
}

#[test]
fn socket_events_merge_by_id_and_may_come_twice() {
    let mut app = app();
    app.messages.insert(7, vec![message(2, 7), message(5, 7)]);
    let mut edited = message(5, 7);
    edited.text = Some("edited".into());
    let ms = vec![message(4, 7), message(1, 7), message(5, 7), edited, message(9, 8)];
    for _ in 0..2 {
        app.on_ws(WsEvent::Messages { messages: ms.clone() });
        assert_eq!(app.messages[&7].iter().map(|m| m.id).collect::<Vec<_>>(), vec![1, 2, 4, 5]);
        assert_eq!(app.messages[&7][3].text.as_deref(), Some("edited"));
        assert!(!app.messages.contains_key(&8));
    }
}

#[test]
fn local_times_lie_within_a_day_of_their_moment() {
    for ms in [1, 951_782_400_000, 1_000_000_000_000, 1_700_000_000_000, 253_402_300_799_999] {
        let t = local(ms).unwrap();
        let p = t.year as i64 - 1;
        let leap = t.year % 4 == 0 && (t.year % 100 != 0 || t.year % 400 == 0);
        let lengths = [31, if leap { 29 } else { 28 }, 31, 30, 31, 30, 31, 31, 30, 31, 30, 31];
        let before: i64 = lengths[..t.month as usize - 1].iter().sum();
        let day = 365 * p + p / 4 - p / 100 + p / 400 + before + t.day as i64 - 1;
        let minute = (day - 719_162) * 1440 + 60 * t.hour as i64 + t.minute as i64;
        assert!((minute - ms / 60_000).abs() <= 1440, "{ms}");
    }
}

#[test]
fn long_words_are_broken_at_the_limit() {
    let rows = rows_of(vec![seg("see https://example.org/a/very/long/path?with=query ok")], 10);
    assert!(rows.iter().all(|r| r.len() <= 10));
    assert_eq!(rows[0], "see https:");
    assert_eq!(rows.concat().replace(' ', ""), "seehttps://example.org/a/very/long/path?with=queryok");
}

#[test]
fn a_completion_is_the_first_in_order() {
    let names: Vec<String> = vec!["notes".into(), "no".into(), "novel".into(), "Note".into()];
    assert_eq!(complete_name(&names, "no"), Some(1));
    assert_eq!(complete_name(&names, "not"), Some(0));
    assert_eq!(complete_name(&names, ""), Some(3));
}
