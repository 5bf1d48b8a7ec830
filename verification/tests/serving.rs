//! The server: who may ask, what is sent, and what is pushed.
use imsg::send::{
    applescript_chat_id, names_chat, plan_send, resolve_destination, script_result, Destination, NamedFile, Outgoing, Step,
};
use imsg::server::{
    asset_allowed, asset_found, asset_path, asset_served, asset_type, auth, cache_file, chats_limit, conversion_for, disposition,
    embedded_asset, load_or_create_token, made_token, messages_limit, photo_type, read_token, sanitize_name, search_limit,
    served_file, token_from, upload_id, upload_name, Conversion, Embedded,
};
use imsg::watch::{dedupe, to_push, Watch};
use imsg::wire::{Message, MessageKind, SendRequest};

fn message(id: i64, text: &str) -> Message {
    Message {
        id,
        guid: format!("m{id}"),
        chat_id: 1,
        sender: None,
        is_from_me: false,
        date: id,
        date_read: 0,
        date_delivered: 0,
        is_read: false,
        is_delivered: false,
        is_sent: true,
        error: 0,
        service: "iMessage".into(),
        subject: None,
        text: Some(text.into()),
        parts: vec![],
        attachments: vec![],
        reactions: vec![],
        kind: MessageKind::Normal,
        reply_to: None,
        thread_originator_guid: None,
        is_edited: false,
        expressive: None,
        is_audio: false,
    }
}

fn some(s: &str) -> Option<String> {
    Some(s.to_string())
}

#[test]
fn tokens_are_read_or_made() {
    let t = load_or_create_token(some("cli"), Some("token = \"file\""));
    assert_eq!((t.token.as_str(), t.new_file), ("cli", None));
    let t = load_or_create_token(None, Some("# x\n token == \"file\" \n"));
    assert_eq!((t.token.as_str(), t.new_file), ("file", None));
    let a = load_or_create_token(None, None);
    let b = load_or_create_token(None, Some("token = \"\"\n"));
    assert_eq!(a.token.len(), 32);
    assert!(a.token.chars().all(|c| c.is_ascii_alphanumeric()));
    assert_ne!(a.token, b.token);
    assert_eq!(a.new_file, Some(format!("# imsg server config\ntoken = \"{}\"\n", a.token)));
    assert_eq!(made_token("x".into()).new_file.as_deref(), Some("# imsg server config\ntoken = \"x\"\n"));
    assert_eq!(read_token(a.new_file.unwrap().as_str()), Some(a.token));
}

#[test]
fn only_the_token_lets_in() {
    assert!(auth("abc", &some("Bearer abc "), &None, &None));
    assert!(auth("abc", &some("Basic x"), &some("limit=1&token=abc"), &None));
    assert!(auth("abc", &None, &None, &some("a=b; imsg_token=abc")));
    assert!(!auth("abc", &some("Bearer abd"), &some("token=abc"), &None));
    assert!(!auth("abc", &None, &some("tok=abc"), &None));
    assert!(!auth("abc", &None, &None, &None));
    assert_eq!(token_from(&None, &some("x=1&token=t%20"), &None), some("t%20"));
}

#[test]
fn limits_are_kept() {
    assert_eq!(chats_limit(None), 200);
    assert_eq!(chats_limit(Some(0)), 1);
    assert_eq!(chats_limit(Some(9999)), 2000);
    assert_eq!(messages_limit(None), 50);
    assert_eq!(messages_limit(Some(501)), 500);
    assert_eq!(search_limit(None), 100);
    assert_eq!(search_limit(Some(-3)), 1);
}

#[test]
fn pictures_are_made_fit() {
    assert_eq!(photo_type(&vec![0x89, b'P', b'N', b'G', 1]), "image/png");
    assert_eq!(photo_type(&vec![0x89, b'P']), "image/jpeg");
    assert_eq!(conversion_for("image/png", true), Conversion::Preview(1400));
    assert_eq!(conversion_for("image/gif", true), Conversion::Plain);
    assert_eq!(conversion_for("image/heic", false), Conversion::Full);
    assert_eq!(conversion_for("video/mp4", true), Conversion::Plain);
    assert_eq!(cache_file(7, Some(1400)), "att-7-1400.jpg");
    assert_eq!(cache_file(7, None), "att-7-full.jpg");
    assert_eq!(served_file(some("/c.jpg"), "/a".into(), "image/heic".into()), ("/c.jpg".into(), "image/jpeg".into()));
    assert_eq!(served_file(None, "/a".into(), "image/heic".into()), ("/a".into(), "image/heic".into()));
    assert_eq!(disposition("a\"b.png", false), "inline; filename=\"ab.png\"");
    assert_eq!(disposition("x", true), "attachment; filename=\"x\"");
}

#[test]
fn uploads_are_named() {
    assert_eq!(sanitize_name("../a\\b\0c"), "..abc");
    assert_eq!(sanitize_name("//"), "upload");
    assert_eq!(upload_name(None), "upload");
    assert_eq!(upload_name(Some("x/y")), "xy");
    assert_eq!(upload_id(0), "0");
    assert_eq!(upload_id(0x1f2e3d), "1f2e3d");
}

#[test]
fn assets_stay_below_the_root() {
    assert_eq!(asset_path("/"), "index.html");
    assert_eq!(asset_path("//app.js"), "app.js");
    assert!(asset_allowed("a/b.css"));
    assert!(!asset_allowed("../secret.txt"));
    assert!(!asset_allowed("a/../../b"));
    assert!(asset_served("/web", "/web/app.js", true));
    assert!(!asset_served("/web", "/web2/app.js", true));
    assert!(!asset_served("/web", "/outside/secret.txt", true));
    assert!(!asset_served("/web", "/web/dir", false));
    assert_eq!(asset_type("/web/app.css"), "text/css");
    assert_eq!(asset_type("/web/none"), "application/octet-stream");
    assert_eq!(embedded_asset("index.html"), Some((Embedded::Page, "text/html; charset=utf-8")));
    assert_eq!(embedded_asset("app.js").unwrap().0, Embedded::Script);
    assert_eq!(embedded_asset("missing.css"), None);
}

#[test]
fn scripts_speak_of_any_service() {
    assert_eq!(applescript_chat_id("iMessage;-;+1555"), "any;-;+1555");
    assert_eq!(applescript_chat_id("SMS;-;+1555"), "any;-;+1555");
    assert_eq!(applescript_chat_id("chat123"), "chat123");
    assert_eq!(script_result(true, "noise"), Ok(()));
    assert_eq!(script_result(false, " bad \n"), Err("osascript failed: bad".to_string()));
}

fn request(guid: Option<&str>, to: Vec<&str>, text: Option<&str>) -> SendRequest {
    SendRequest {
        chat_guid: guid.map(|s| s.to_string()),
        to: to.into_iter().map(|s| s.to_string()).collect(),
        text: text.map(|s| s.to_string()),
        uploads: vec![],
        paths: vec![],
    }
}

fn args(o: &Outgoing) -> Vec<String> {
    match o.next_step() {
        Step::Run(a) => a,
        Step::Answer(r) => panic!("{:?}", r),
    }
}

fn answer(o: &Outgoing) -> (bool, Option<String>) {
    match o.next_step() {
        Step::Answer(r) => (r.ok, r.detail),
        Step::Run(a) => panic!("{:?}", a),
    }
}

#[test]
fn destinations_are_resolved() {
    let r = request(Some("g"), vec![], None);
    assert!(names_chat(&r));
    assert!(matches!(resolve_destination(&r, None), Ok(Destination::Chat(g)) if g == "g"));
    let r = request(Some(""), vec!["+1"], None);
    assert!(!names_chat(&r));
    assert!(matches!(resolve_destination(&r, some("found")), Ok(Destination::Chat(g)) if g == "found"));
    assert!(matches!(resolve_destination(&r, None), Ok(Destination::Address(a)) if a == "+1"));
    let e = resolve_destination(&request(None, vec![], None), None).unwrap_err();
    assert_eq!(e.detail.as_deref(), Some("chat_guid or to[] required"));
    let e = resolve_destination(&request(None, vec!["a", "b"], None), None).unwrap_err();
    assert_eq!(e.detail.as_deref(), Some("new group chats must be started from Messages.app first"));
}

#[test]
fn files_go_before_the_text() {
    let r = request(Some("iMessage;-;+1555"), vec![], Some("hi\n\n"));
    let paths = vec![NamedFile { path: "/b".into(), is_there: true }];
    let dest = Destination::Chat("iMessage;-;+1555".into());
    let mut o = plan_send(&r, dest, &vec![some("/a"), None], &paths).unwrap();
    assert_eq!(args(&o), vec!["chat", "any;-;+1555", "/a", "file"]);
    o.tried(Ok(()));
    assert_eq!(args(&o), vec!["chat", "any;-;+1555", "/b", "file"]);
    o.tried(Err("osascript failed: Can’t get chat id x".into()));
    assert_eq!(args(&o), vec!["participant", "+1555", "/b", "file"]);
    o.tried(Ok(()));
    assert_eq!(args(&o), vec!["chat", "any;-;+1555", "hi", "text"]);
    o.tried(Ok(()));
    assert_eq!(answer(&o), (true, None));
}

#[test]
fn errors_are_answered() {
    let r = request(Some("iMessage;+;chat1"), vec![], Some("hi"));
    let mut o = plan_send(&r, Destination::Chat("iMessage;+;chat1".into()), &vec![], &vec![]).unwrap();
    o.tried(Err("osascript failed: Can't get chat id x".into()));
    assert_eq!(answer(&o), (false, some("osascript failed: Can't get chat id x")));
    let mut o = plan_send(&r, Destination::Address("+1555".into()), &vec![], &vec![]).unwrap();
    assert_eq!(args(&o), vec!["participant", "+1555", "hi", "text"]);
    o.tried(Err("x".into()));
    assert_eq!(answer(&o), (false, some("x")));
    let none = request(Some("g"), vec![], Some("\n"));
    let e = plan_send(&none, Destination::Chat("g".into()), &vec![None], &vec![]).unwrap_err();
    assert_eq!(e.detail.as_deref(), Some("nothing to send"));
    let missing = vec![NamedFile { path: "/x".into(), is_there: false }];
    let e = plan_send(&none, Destination::Chat("g".into()), &vec![], &missing).unwrap_err();
    assert_eq!((e.ok, e.detail.as_deref()), (false, Some("no such file: /x")));
}

#[test]
fn the_watcher_looks_again() {
    let mut w = Watch::new(10, Some(1), 0);
    assert_eq!(w.fetch_from(10), None);
    assert_eq!(w.fetch_from(12), Some(10));
    let r = w.look(12, Some((vec![message(11, "a")], vec![12])), Some(1), 1000);
    assert!(r.changed);
    assert_eq!(r.to_push.len(), 1);
    let mut ids = r.check.clone();
    ids.sort();
    assert_eq!(ids, vec![11, 12]);
    // What was just fetched carries its state; the row without a chat is new.
    let dirty = w.recheck(&vec![(11, "f1".into()), (12, "f2".into()), (99, "f3".into())], &r.to_push);
    assert_eq!(dirty, vec![12]);
    assert!(!w.chats_due(true, 1500));
    assert!(w.chats_due(true, 1501));
    assert!(!w.chats_due(true, 2000));
    assert!(!w.chats_due(false, 9000));
    let r = w.look(12, None, Some(1), 2000);
    assert!(!r.changed);
    assert!(r.check.is_empty());
    let r = w.look(12, None, Some(2), 3000);
    assert!(r.changed);
    let dirty = w.recheck(&vec![(11, "f1".into()), (12, "f9".into())], &r.to_push);
    assert_eq!(dirty, vec![12]);
    let r = w.look(12, None, Some(3), 601_000);
    assert!(r.check.is_empty());
    assert!(w.recent.is_empty());
    let r = w.look(20, None, Some(3), 601_001);
    assert!(!r.changed);
    assert_eq!(w.last, 20);
    w.idle(Some(30), None);
    assert_eq!((w.last, w.last_wal), (30, None));
    w.idle(None, Some(4));
    assert_eq!((w.last, w.last_wal), (30, Some(4)));
}

#[test]
fn the_last_write_wins() {
    let out = dedupe(&vec![message(1, "old"), message(2, "b"), message(1, "new")]);
    assert_eq!(out.iter().map(|m| m.id).collect::<Vec<_>>(), vec![2, 1]);
    assert_eq!(out[1].text.as_deref(), Some("new"));
}

#[test]
fn something_or_nothing_is_pushed() {
    assert!(to_push(&vec![]).is_none());
    let out = to_push(&vec![message(1, "old"), message(1, "new")]).unwrap();
    assert_eq!(out.len(), 1);
    assert_eq!(out[0].text.as_deref(), Some("new"));
}

#[test]
fn an_asset_is_served_only_from_below_the_root() {
    let root = Some("/web");
    assert!(asset_found("app.js", root, Some("/web/app.js"), true));
    assert!(!asset_found("../secret.txt", root, Some("/secret.txt"), true));
    assert!(!asset_found("a/../app.js", root, Some("/web/app.js"), true));
    assert!(!asset_found("asset.txt", root, Some("/outside/secret.txt"), true));
    assert!(!asset_found("missing.css", root, None, false));
    assert!(!asset_found("app.js", None, None, false));
    assert!(!asset_found("dir", root, Some("/web/dir"), false));
}
