//! Messages and chats made from rows.
use imsg::chats::unread;
use imsg::contacts::{load, ContactBook, RecordRow, StoreRows};
use imsg::content::{
    clean_text, clean_text_run, effect_name, expand_home, file_name, join_path, slice, uti_to_mime, Animation,
    TextEffect, TextStyle,
};
use imsg::db::Db;
use imsg::history::{id_list, search_pattern, tapback_targets};
use imsg::numbers::{decimal, decimal_i64, parse_i64};
use imsg::reactions::window_start;
use imsg::rows::{
    AttachmentRow, Balloon, BubbleEffect, ChatRow, EditStatus, Expressive, Extra, ExtraRow, FileRow, GroupAction, LinkRow,
    MessageRow, PreviewRow, ReplyRow, RunRow, ScreenEffect, Tapback, TapbackRow, UnreadRow,
};
use imsg::wire::{apple_ns_to_unix_ms, normalize_address, tapback_emoji, Message, MessageKind};

fn no_extra() -> Extra {
    Extra::from_row(&ExtraRow {
        is_delivered: None,
        is_sent: None,
        error: None,
        is_audio_message: None,
        date_retracted: None,
    })
}

fn row(rowid: i64, text: Option<&str>) -> MessageRow {
    MessageRow {
        rowid,
        guid: format!("g{rowid}"),
        chat_id: Some(1),
        is_from_me: false,
        handle_id: Some(7),
        text: text.map(|t| t.to_string()),
        runs: vec![],
        date: 700_000_000_000_000_000 + rowid * 1_000_000_000,
        date_read: 0,
        date_delivered: 0,
        is_read: false,
        service: None,
        subject: Some(String::new()),
        num_attachments: 0,
        item_type: 0,
        associated_type: None,
        associated_guid: None,
        fully_unsent: false,
        group_action: None,
        is_shareplay: false,
        balloon: None,
        bundle_id: None,
        link: None,
        is_reply: false,
        thread_originator_guid: None,
        reply: None,
        expressive: Expressive::Plain,
        edits: vec![],
        attachments: vec![],
        extra: no_extra(),
    }
}

fn record(pk: i64, first: &str, last: &str) -> RecordRow {
    RecordRow {
        pk,
        first: Some(first.to_string()),
        last: Some(last.to_string()),
        organization: None,
        nickname: None,
        photo: None,
    }
}

fn book() -> ContactBook {
    load(&vec![StoreRows {
        phones: vec![(1, "(555) 123-4567".to_string()), (2, "+44 20 7946 0958".to_string())],
        emails: vec![(1, "Ann@Example.com".to_string())],
        records: vec![record(2, "Zoe", "Young"), record(1, "ann", "Able")],
    }])
}

fn db() -> Db {
    Db::open(vec![(7, "+15551234567".to_string()), (8, "someone@else.org".to_string())])
}

fn convert(r: &MessageRow) -> Message {
    db().convert(r, &book(), "/Users/me")
}

fn unread_row(rowid: i64) -> UnreadRow {
    UnreadRow { rowid, is_from_me: false, is_read: false, item_type: 0, associated_type: Some(0) }
}

#[test]
fn seen_marks_reduce_unread_and_persist() {
    let rows = vec![unread_row(10), unread_row(11)];
    let mut db = Db::open(vec![]);
    assert!(!db.with_seen_file(None));
    assert_eq!(unread(&rows, db.seen_mark(1)), 2);
    assert_eq!(db.mark_seen(1, Some(10), 11), (10, true));
    assert_eq!(unread(&rows, db.seen_mark(1)), 1);
    // Marking an older message never moves the mark backwards.
    assert_eq!(db.mark_seen(1, Some(5), 11), (10, false));
    // No id means "everything currently in the chat".
    assert_eq!(db.mark_seen(1, None, 11), (11, true));
    assert_eq!(unread(&rows, db.seen_mark(1)), 0);
    let text = db.save_seen().unwrap();
    drop(db);
    let mut again = Db::open(vec![]);
    assert!(again.with_seen_file(Some(text.as_str())));
    assert_eq!(again.seen.get(&1), Some(&11));
    assert_eq!(unread(&rows, again.seen_mark(1)), 0);
}

#[test]
fn unreadable_marks_are_ignored() {
    let mut db = db();
    db.mark_seen(3, Some(30), 0);
    assert!(!db.with_seen_file(Some("not json")));
    assert_eq!(db.seen_mark(3), 30);
    assert!(db.with_seen_file(Some("{\"4\": 40, \"x\": 1}")));
    assert_eq!(db.seen_mark(4), 40);
    assert_eq!(db.seen_mark(3), 0);
    assert_eq!(db.seen.len(), 1);
}

#[test]
fn what_counts_as_unread() {
    let mut mine = unread_row(1);
    mine.is_from_me = true;
    let mut read = unread_row(2);
    read.is_read = true;
    let mut system = unread_row(3);
    system.item_type = 2;
    let mut tapback = unread_row(4);
    tapback.associated_type = Some(2000);
    let mut plain = unread_row(5);
    plain.associated_type = None;
    assert_eq!(unread(&vec![mine, read, system, tapback, plain], 0), 1);
}

#[test]
fn formatted_runs_preserve_spaces_and_line_breaks() {
    let runs = ["Hello", " ", "world", "\n", "again"];
    let text = runs.iter().map(|run| clean_text_run(run)).collect::<String>();

    assert_eq!(text, "Hello world\nagain");
}

#[test]
fn formatted_runs_remove_internal_tokens_without_trimming_whitespace() {
    let token = "$(kIMTranscriptPluginBreadcrumbTextSenderIdentifier)";

    assert_eq!(clean_text_run("  "), "  ");
    assert_eq!(clean_text_run("\n"), "\n");
    assert_eq!(clean_text_run(&format!(" {token}\n")), " \n");
    assert_eq!(clean_text_run("a\u{FFFC}b\u{FFFD}"), "ab");
}

#[test]
fn whole_message_cleaning_still_trims_outer_whitespace() {
    assert_eq!(clean_text("\n Hello world \n"), "Hello world");
}

#[test]
fn slices_keep_whole_characters() {
    assert_eq!(slice("héllo", 0, 2), "hé");
    assert_eq!(slice("héllo", 2, 4), "él");
    assert_eq!(slice("hello", 1, 3), "el");
    assert_eq!(slice("hello", 4, 2), "");
    assert_eq!(slice("a😘b", 2, 3), "😘");
    assert_eq!(slice("abc", 1, 99), "bc");
}

#[test]
fn effects_have_names() {
    assert_eq!(effect_name(&TextEffect::Default), None);
    assert_eq!(effect_name(&TextEffect::Other), None);
    assert_eq!(effect_name(&TextEffect::Otp).as_deref(), Some("otp"));
    assert_eq!(effect_name(&TextEffect::Link("https://a.b".to_string())).as_deref(), Some("link:https://a.b"));
    assert_eq!(effect_name(&TextEffect::Mention("+15551234567".to_string())).as_deref(), Some("mention"));
    assert_eq!(
        effect_name(&TextEffect::Styles(vec![TextStyle::Bold, TextStyle::Underline])).as_deref(),
        Some("bold,underline")
    );
    assert_eq!(effect_name(&TextEffect::Animated(Animation::Bloom)).as_deref(), Some("animated:bloom"));
}

#[test]
fn paths_and_types() {
    assert_eq!(expand_home("~/a/b.heic", "/Users/me"), "/Users/me/a/b.heic");
    assert_eq!(expand_home("/a", "/Users/me"), "/a");
    assert_eq!(file_name("/a/b/c.png").as_deref(), Some("c.png"));
    assert_eq!(file_name("/a/b/").as_deref(), Some("b"));
    assert_eq!(file_name("/a/.."), None);
    assert_eq!(file_name("/"), None);
    assert_eq!(join_path("/a", "b"), "/a/b");
    assert_eq!(join_path("/a/", "b"), "/a/b");
    assert_eq!(join_path("/a", "/b"), "/b");
    assert_eq!(uti_to_mime(Some("public.heif")).as_deref(), Some("image/heic"));
    assert_eq!(uti_to_mime(Some("public.unknown")), None);
    assert_eq!(uti_to_mime(None), None);
}

#[test]
fn plain_messages_convert() {
    let mut r = row(1, Some(" hi \u{FFFC}there\n"));
    r.extra.is_sent = true;
    let m = convert(&r);
    assert_eq!(m.text.as_deref(), Some("hi there"));
    assert_eq!(m.parts.len(), 1);
    assert_eq!(m.parts[0].text, "hi there");
    assert_eq!(m.service, "iMessage");
    assert_eq!(m.subject, None);
    assert_eq!(m.date, 1_678_307_201_000);
    assert_eq!(m.date_read, 0);
    assert!(m.is_sent);
    let sender = m.sender.unwrap();
    assert_eq!(sender.name.as_deref(), Some("ann Able"));
    assert_eq!(sender.address, "+15551234567");
    assert!(matches!(m.kind, MessageKind::Normal));
}

#[test]
fn own_messages_have_no_sender() {
    let mut r = row(1, Some("x"));
    r.is_from_me = true;
    assert!(convert(&r).sender.is_none());
}

#[test]
fn runs_become_parts() {
    let mut r = row(1, Some("see https://x.y \u{FFFC}"));
    r.runs = vec![
        RunRow { start: 0, end: 4, effects: vec![TextEffect::Default], is_attachment: false },
        RunRow { start: 4, end: 15, effects: vec![TextEffect::Link("https://x.y".to_string())], is_attachment: false },
        RunRow { start: 16, end: 19, effects: vec![], is_attachment: true },
    ];
    let m = convert(&r);
    assert_eq!(m.parts.len(), 2);
    assert_eq!(m.parts[0].text, "see ");
    assert!(m.parts[0].effects.is_empty());
    assert_eq!(m.parts[1].text, "https://x.y");
    assert_eq!(m.parts[1].effects, vec!["link:https://x.y"]);
}

#[test]
fn kinds_of_messages() {
    let mut unsent = row(1, Some("x"));
    unsent.extra.date_retracted = 5;
    assert!(matches!(convert(&unsent).kind, MessageKind::Unsent));

    let mut named = row(2, None);
    named.group_action = Some(GroupAction::NameChange("Trip".to_string()));
    match convert(&named).kind {
        MessageKind::Announcement { text } => assert_eq!(text, "ann Able named the conversation \"Trip\""),
        _ => panic!("not an announcement"),
    }

    let mut added = row(3, None);
    added.is_from_me = true;
    added.group_action = Some(GroupAction::ParticipantAdded(99));
    match convert(&added).kind {
        MessageKind::Announcement { text } => assert_eq!(text, "You added someone"),
        _ => panic!("not an announcement"),
    }

    let mut link = row(4, Some("https://a.b"));
    link.balloon = Some(Balloon::Url);
    link.link = Some(LinkRow { title: Some("T".to_string()), summary: None, url: None });
    match convert(&link).kind {
        MessageKind::App { bundle_id, title, summary, url } => {
            assert_eq!(bundle_id, "");
            assert_eq!(title.as_deref(), Some("T"));
            assert_eq!(summary, None);
            assert_eq!(url.as_deref(), Some("https://a.b"));
        }
        _ => panic!("not a balloon"),
    }

    let mut app = row(5, None);
    app.balloon = Some(Balloon::Application("com.example.Game".to_string()));
    match convert(&app).kind {
        MessageKind::App { title, .. } => assert_eq!(title.as_deref(), Some("Game")),
        _ => panic!("not a balloon"),
    }

    let mut system = row(6, None);
    system.item_type = 4;
    match convert(&system).kind {
        MessageKind::Announcement { text } => assert_eq!(text, "(system message)"),
        _ => panic!("not an announcement"),
    }

    let mut share = row(7, None);
    share.is_shareplay = true;
    assert!(matches!(convert(&share).kind, MessageKind::Announcement { .. }));
}

#[test]
fn effects_and_edits_of_messages() {
    let mut r = row(1, Some("x"));
    r.expressive = Expressive::Screen(ScreenEffect::ShootingStar);
    r.edits = vec![EditStatus::Original, EditStatus::Edited];
    let m = convert(&r);
    assert_eq!(m.expressive.as_deref(), Some("shooting star"));
    assert!(m.is_edited);
    r.expressive = Expressive::Bubble(BubbleEffect::InvisibleInk);
    r.edits = vec![EditStatus::Unsent];
    let m = convert(&r);
    assert_eq!(m.expressive.as_deref(), Some("invisible ink"));
    assert!(!m.is_edited);
    r.expressive = Expressive::Unknown("com.x".to_string());
    assert_eq!(convert(&r).expressive.as_deref(), Some("com.x"));
}

#[test]
fn attachments_know_their_type() {
    let mut r = row(1, None);
    r.attachments = vec![
        AttachmentRow {
            rowid: 12,
            guid: None,
            filename: Some("~/Library/IMG_1.png".to_string()),
            transfer_name: None,
            mime_type: None,
            uti: Some("public.jpeg".to_string()),
            total_bytes: 5,
            is_sticker: false,
            on_disk: true,
        },
        AttachmentRow {
            rowid: 13,
            guid: None,
            filename: None,
            transfer_name: None,
            mime_type: None,
            uti: Some("public.vcard".to_string()),
            total_bytes: 0,
            is_sticker: true,
            on_disk: true,
        },
    ];
    let m = convert(&r);
    assert_eq!(m.attachments[0].name, "IMG_1.png");
    assert_eq!(m.attachments[0].mime, "image/png");
    assert_eq!(m.attachments[0].url, "/api/attachments/12");
    assert!(m.attachments[0].available);
    assert_eq!(m.attachments[1].name, "attachment");
    assert_eq!(m.attachments[1].mime, "text/vcard");
    assert!(!m.attachments[1].available);
}

#[test]
fn attachment_paths() {
    let file = FileRow {
        filename: Some("~/x/song.unknownext".to_string()),
        mime_type: None,
        transfer_name: Some("song".to_string()),
        uti: None,
    };
    assert_eq!(
        Db::attachment_path(Some(&file), "/h"),
        Some(("/h/x/song.unknownext".to_string(), "application/octet-stream".to_string(), "song".to_string()))
    );
    let nowhere = FileRow { filename: None, mime_type: None, transfer_name: None, uti: None };
    assert_eq!(Db::attachment_path(Some(&nowhere), "/h"), None);
    assert_eq!(Db::attachment_path(None, "/h"), None);
}

#[test]
fn replies_quote_their_message() {
    let mut r = row(2, Some("yes"));
    r.is_reply = true;
    r.thread_originator_guid = Some("g1".to_string());
    r.reply = Some(ReplyRow {
        text: Some("  ".to_string()),
        body: Some(b"junk\x01+\x05Hello there\x86\x84rest".to_vec()),
        is_from_me: false,
        handle_id: Some(8),
        has_attachments: false,
    });
    let q = convert(&r).reply_to.unwrap();
    assert_eq!(q.guid, "g1");
    assert_eq!(q.preview.as_deref(), Some("Hello there"));
    assert_eq!(q.sender_name.as_deref(), Some("someone@else.org"));
    r.reply = Some(ReplyRow {
        text: None,
        body: Some(vec![1, 2, 3]),
        is_from_me: true,
        handle_id: None,
        has_attachments: true,
    });
    let q = convert(&r).reply_to.unwrap();
    assert_eq!(q.preview.as_deref(), Some("📎 Attachment"));
    assert_eq!(q.sender_name.as_deref(), Some("You"));
    r.reply = None;
    assert!(convert(&r).reply_to.is_none());
}

fn tap(target: &str, added: bool, t: Tapback, handle: Option<i64>) -> TapbackRow {
    TapbackRow { target: Some(target.to_string()), tapback: Some((added, t)), is_from_me: handle.is_none(), handle_id: handle }
}

#[test]
fn tapbacks_fold_into_reactions() {
    let db = db();
    let book = book();
    let mut msgs = vec![convert(&row(1, Some("a"))), convert(&row(2, Some("b")))];
    let taps = vec![
        tap("g1", true, Tapback::Loved, Some(7)),
        tap("g1", true, Tapback::Liked, None),
        tap("g1", true, Tapback::Loved, Some(7)),
        tap("g2", true, Tapback::Emoji(Some("🦀".to_string())), Some(8)),
        tap("g2", false, Tapback::Emoji(Some("🦀".to_string())), Some(8)),
        tap("g9", true, Tapback::Liked, None),
    ];
    db.attach_reactions(&mut msgs, taps, &book);
    let kinds: Vec<String> = msgs[0].reactions.iter().map(|r| r.kind.clone()).collect();
    assert_eq!(kinds, vec!["like", "love"]);
    assert_eq!(msgs[0].reactions[1].emoji, tapback_emoji("love"));
    assert_eq!(msgs[0].reactions[1].sender.as_ref().unwrap().handle_id, 7);
    assert!(msgs[0].reactions[0].from_me);
    assert!(msgs[1].reactions.is_empty());
}

#[test]
fn reactions_stay_in_their_chat() {
    let db = db();
    let book = book();
    let mut other = row(3, Some("c"));
    other.chat_id = Some(2);
    other.guid = "g1".to_string();
    let mut msgs = vec![convert(&row(1, Some("a"))), convert(&other)];
    let taps = vec![(2, vec![tap("g1", true, Tapback::Questioned, None)])];
    db.attach_reactions_multi(&mut msgs, &taps, &book);
    assert!(msgs[0].reactions.is_empty());
    assert_eq!(msgs[1].reactions[0].kind, "question");
    assert_eq!(window_start(&msgs), 700_000_001_000_000_000);
    assert_eq!(window_start(&vec![]), 0);
}

#[test]
fn pages_are_oldest_first() {
    let rows = vec![row(5, Some("e")), row(4, Some("d")), row(3, Some("c"))];
    let page = db().messages(&rows, 2, &book(), "/h");
    assert!(page.has_more);
    assert_eq!(page.messages.iter().map(|m| m.id).collect::<Vec<_>>(), vec![4, 5]);
    let page = db().messages(&rows, 3, &book(), "/h");
    assert!(!page.has_more);
    assert_eq!(page.messages.len(), 3);
}

#[test]
fn news_and_targets_of_tapbacks() {
    let mut t = row(7, None);
    t.associated_type = Some(2001);
    t.associated_guid = Some("g2".to_string());
    let mut unlinked = row(8, Some("x"));
    unlinked.chat_id = None;
    let rows = vec![row(6, Some("f")), t, unlinked];
    assert_eq!(tapback_targets(&rows), vec!["g2"]);
    let targets = vec![Some(row(2, Some("b"))), None];
    let msgs = db().messages_since(&rows, &targets, &book(), "/h");
    assert_eq!(msgs.iter().map(|m| m.id).collect::<Vec<_>>(), vec![6, 2]);
    assert_eq!(db().messages_by_rowids(&rows, &book(), "/h").len(), 1);
    assert_eq!(db().search(&rows, &book(), "/h").len(), 3);
    assert!(db().message_by_guid(&None, &book(), "/h").is_none());
    assert_eq!(id_list(&vec![3, -4, 50]), "3,-4,50");
    assert_eq!(search_pattern("100%"), "%100\\%%");
    assert_eq!(search_pattern("a_b\\"), "%a\\_b\\\\%");
}

fn chat_row(id: i64, style: i64) -> ChatRow {
    ChatRow {
        id,
        guid: format!("iMessage;-;c{id}"),
        identifier: format!("c{id}"),
        service: None,
        display_name: Some(String::new()),
        style,
        last_date: Some(700_000_000_000_000_000),
        handle_ids: vec![7, 99, 7],
        preview: Some(PreviewRow {
            is_from_me: true,
            text: Some("\u{FFFC}".to_string()),
            num_attachments: 1,
            is_announcement: false,
            has_balloon: false,
        }),
        messages: vec![unread_row(10), unread_row(11)],
    }
}

#[test]
fn chats_convert() {
    let mut db = db();
    db.mark_seen(1, Some(10), 0);
    let mut empty = chat_row(3, 45);
    empty.last_date = None;
    let chats = db.chats(&vec![chat_row(1, 45), empty, chat_row(2, 43)], &book());
    assert_eq!(chats.len(), 2);
    assert_eq!(chats[0].participants.len(), 1);
    assert_eq!(chats[0].title(), "ann Able");
    assert_eq!(chats[0].unread, 1);
    assert_eq!(chats[1].unread, 2);
    assert!(chats[1].is_group);
    assert_eq!(chats[0].display_name, None);
    assert_eq!(chats[0].last_preview.as_deref(), Some("📎 Attachment"));
    assert!(chats[0].last_from_me);
    assert_eq!(chats[0].last_date, 1_678_307_200_000);
    let found = Db::chat_for_addresses(&vec!["555-123-4567".to_string()], &chats);
    assert_eq!(found.unwrap().id, 1);
    assert!(Db::chat_for_addresses(&vec![], &chats).is_none());
    assert!(Db::chat_for_addresses(&vec!["x@y.z".to_string()], &chats).is_none());
    assert!(db.chat_by_id(&None, &book()).is_none());
    assert_eq!(db.chat_by_id(&Some(chat_row(1, 45)), &book()).unwrap().id, 1);
}

#[test]
fn own_addresses_are_listed_once() {
    let rows = vec!["tel:+15550001111".to_string(), "5550001111".to_string(), "Me@X.org".to_string(), "me@x.org".to_string()];
    assert_eq!(Db::my_addresses(&rows), vec!["+15550001111", "Me@X.org"]);
}

#[test]
fn contacts_are_found_and_sorted() {
    let b = book();
    let names: Vec<String> = b.contacts.iter().map(|c| c.name.clone()).collect();
    assert_eq!(names, vec!["ann Able", "Zoe Young"]);
    assert_eq!(b.lookup("+1 555 123 4567").unwrap().name, "ann Able");
    assert_eq!(b.lookup("ANN@example.com").unwrap().name, "ann Able");
    assert_eq!(b.lookup("442079460958").unwrap().name, "Zoe Young");
    assert!(b.lookup("").is_none());
    assert!(b.lookup("999").is_none());
    assert!(b.photo(1).is_none());
}

#[test]
fn addresses_have_a_normal_form() {
    assert_eq!(normalize_address(" Foo@Bar.COM "), "foo@bar.com");
    assert_eq!(normalize_address("+1 (555) 123-4567"), "5551234567");
    assert_eq!(normalize_address("555.123.4567"), "5551234567");
    assert_eq!(normalize_address("+44 20 7946"), "44207946");
}

#[test]
fn stamps_become_milliseconds() {
    assert_eq!(apple_ns_to_unix_ms(0), 0);
    assert_eq!(apple_ns_to_unix_ms(1), 978_307_201_000);
    assert_eq!(apple_ns_to_unix_ms(700_000_000_000_000_000), 1_678_307_200_000);
}

#[test]
fn numbers_are_written_and_read() {
    assert_eq!(decimal(0), "0");
    assert_eq!(decimal(u64::MAX), "18446744073709551615");
    assert_eq!(decimal_i64(i64::MIN), "-9223372036854775808");
    for n in [i64::MIN, -10, 0, 7, i64::MAX] {
        assert_eq!(parse_i64(&decimal_i64(n)), Some(n));
    }
    assert_eq!(parse_i64("+5"), Some(5));
    assert_eq!(parse_i64("9223372036854775808"), None);
    assert_eq!(parse_i64("-"), None);
    assert_eq!(parse_i64(""), None);
    assert_eq!(parse_i64("1 "), None);
}

#[test]
fn normal_addresses_stay_normal() {
    for a in ["+1 (555) 123-4567", " Foo@Bar.COM ", "+44 20 7946", "1 1 5551234567", ""] {
        let n = normalize_address(a);
        assert_eq!(normalize_address(&n), n);
    }
}

#[test]
fn contacts_are_numbered_and_know_their_photos() {
    let mut ann = record(5, "Ann", "");
    ann.photo = Some(vec![1, 2, 3]);
    let mut bob = record(6, "Bob", "");
    bob.photo = Some(vec![]);
    let nobody = record(7, "", "");
    let silent = record(8, "Silent", "");
    let first = StoreRows {
        phones: vec![(5, "5550001111".to_string()), (6, "5550002222".to_string()), (7, "5550003333".to_string())],
        emails: vec![],
        records: vec![bob, nobody, silent, ann],
    };
    let second = StoreRows {
        phones: vec![],
        emails: vec![(5, "al@x.org".to_string())],
        records: vec![record(5, "Al", "")],
    };
    let b = load(&vec![first, second]);
    let found: Vec<(String, i64, bool)> = b.contacts.iter().map(|c| (c.name.clone(), c.id, c.has_photo)).collect();
    assert_eq!(
        found,
        vec![("Al".to_string(), 3, false), ("Ann".to_string(), 2, true), ("Bob".to_string(), 1, false)]
    );
    assert_eq!(b.photo(2), Some(&vec![1, 2, 3]));
    assert!(b.photo(1).is_none());
    assert!(b.photo(3).is_none());
}
