//! Messages and chats, made from the rows of the message database.
use crate::contacts::{owner_of, ContactBook};
use crate::content::{
    byte_slice, clean, clean_run, clean_text, clean_text_run, effect_names, effect_words, expand_home,
    file_name, file_type, guess_mime, guessed_mime, home_path, base_name, pick_type, slice,
};
use crate::numbers::{dec_int, decimal_i64};
use crate::rows::{
    AttachmentRow, Balloon, BubbleEffect, EditStatus, Expressive, FileRow, GroupAction, MessageRow, ReplyRow, RunRow,
    ScreenEffect,
};
use crate::text::{
    after_last, cat2, cat3, chars_of, find_after_last, lemma_after_last, opt, piece, replace_all, str_replace,
    string_of, trim, trim_str, views,
};
use crate::wire::{
    apple_ns_to_unix_ms, clone_opt, display_of, stamp_ok, unix_ms, Attachment, AttachmentV, ContactV, Message,
    MessageKind, MessageKindV, MessageV, Participant, ParticipantV, Reaction, ReactionV, ReplyRef, ReplyRefV, TextPart,
    TextPartV,
};
use std::collections::HashMap;
use vstd::prelude::*;

verus! {

broadcast use vstd::std_specs::hash::group_hash_axioms;

/// Handles and marks that outlive a query.
pub struct Db {
    /// Addresses by handle id.
    pub handles: HashMap<i64, String>,
    /// The largest handle id in `handles`.
    pub handles_loaded_max: i64,
    /// The newest message that a client has viewed, per chat. The flag in the database belongs to
    /// the Messages app, so the unread count is kept down by these marks instead.
    pub seen: HashMap<i64, i64>,
}

/// Who is who: addresses by handle, and the contacts that own them.
#[verifier::ext_equal]
pub struct Directory {
    pub handles: Map<i64, Seq<char>>,
    pub contacts: Seq<ContactV>,
}

impl Db {
    /// The addresses by handle id.
    pub open spec fn handle_map(&self) -> Map<i64, Seq<char>> {
        self.handles@.map_values(|s: String| s@)
    }

    /// Who is who, with a given address book.
    pub open spec fn directory(&self, book: &ContactBook) -> Directory {
        Directory { handles: self.handle_map(), contacts: views(book.contacts@) }
    }
}

// ----- people -----

/// The person behind a handle.
pub open spec fn participant_of(d: Directory, handle_id: i64) -> Option<ParticipantV> {
    if d.handles.dom().contains(handle_id) {
        let address = d.handles[handle_id];
        let owner = owner_of(d.contacts, address);
        Some(
            ParticipantV {
                handle_id,
                address,
                name: match owner {
                    Some(i) => Some(d.contacts[i].name),
                    None => None,
                },
                contact_id: match owner {
                    Some(i) => Some(d.contacts[i].id),
                    None => None,
                },
            },
        )
    } else {
        None
    }
}

/// The person behind a handle, where there is one.
pub open spec fn person(d: Directory, handle_id: Option<i64>) -> Option<ParticipantV> {
    match handle_id {
        Some(h) => participant_of(d, h),
        None => None,
    }
}

/// Who sent something; nobody for the owner's own.
pub open spec fn sender_of(d: Directory, is_from_me: bool, handle_id: Option<i64>) -> Option<ParticipantV> {
    if is_from_me {
        None
    } else {
        person(d, handle_id)
    }
}

/// The name of a person, or a word for one that is not known.
pub open spec fn name_or(p: Option<ParticipantV>, unknown: Seq<char>) -> Seq<char> {
    match p {
        Some(p) => display_of(p),
        None => unknown,
    }
}

impl Db {
    /// The person behind a handle.
    pub fn participant(&self, handle_id: i64, book: &ContactBook) -> (r: Option<Participant>)
        requires
            book.wf(),
        ensures
            opt(r) == participant_of(self.directory(book), handle_id),
    {
        let address: String = match self.handles.get(&handle_id) {
            Some(a) => a.clone(),
            None => {
                return None;
            },
        };
        proof {
            crate::contacts::lemma_owner_range(views(book.contacts@), address@);
        }
        let (name, contact_id): (Option<String>, Option<i64>) = match book.lookup(address.as_str()) {
            Some(c) => (Some(c.name.clone()), Some(c.id)),
            None => (None, None),
        };
        Some(Participant { handle_id, address, name, contact_id })
    }

    pub(crate) fn sender(&self, is_from_me: bool, handle_id: Option<i64>, book: &ContactBook) -> (r: Option<Participant>)
        requires
            book.wf(),
        ensures
            opt(r) == sender_of(self.directory(book), is_from_me, handle_id),
    {
        if is_from_me {
            return None;
        }
        match handle_id {
            Some(h) => self.participant(h, book),
            None => None,
        }
    }

    fn name(&self, handle_id: Option<i64>, book: &ContactBook, unknown: &str) -> (r: String)
        requires
            book.wf(),
        ensures
            r@ == name_or(person(self.directory(book), handle_id), unknown@),
    {
        let p: Option<Participant> = match handle_id {
            Some(h) => self.participant(h, book),
            None => None,
        };
        match p {
            Some(p) => p.display().to_owned(),
            None => unknown.to_owned(),
        }
    }
}

// ----- text -----

/// The text that a message shows: cleaned, and none where nothing is left.
pub open spec fn visible_text(raw: Option<Seq<char>>) -> Option<Seq<char>> {
    match raw {
        Some(t) => if clean(t).len() > 0 {
            Some(clean(t))
        } else {
            None
        },
        None => None,
    }
}

fn shown_text(raw: &Option<String>) -> (r: Option<String>)
    ensures
        opt(r) == visible_text(opt(*raw)),
{
    match raw {
        Some(t) => {
            let c: String = clean_text(t.as_str());
            if c.as_str().is_empty() {
                None
            } else {
                Some(c)
            }
        },
        None => None,
    }
}

/// The formatted parts of a text: each run that is no attachment and shows something, with the
/// names of its effects. White space within a run stays.
pub open spec fn formatted(t: Seq<char>, runs: Seq<RunRow>) -> Seq<TextPartV>
    decreases runs.len(),
{
    if runs.len() == 0 {
        Seq::empty()
    } else {
        let r = runs.last();
        let s = clean_run(byte_slice(t, r.start as int, r.end as int));
        if r.is_attachment || s.len() == 0 {
            formatted(t, runs.drop_last())
        } else {
            formatted(t, runs.drop_last()).push(TextPartV { text: s, effects: effect_words(r.effects@) })
        }
    }
}

/// The parts of a message: the formatted runs; where there are none, the whole visible text.
pub open spec fn parts_of(raw: Option<Seq<char>>, runs: Seq<RunRow>) -> Seq<TextPartV> {
    if raw is Some && formatted(raw->0, runs).len() > 0 {
        formatted(raw->0, runs)
    } else if visible_text(raw) is Some {
        seq![TextPartV { text: visible_text(raw)->0, effects: Seq::empty() }]
    } else {
        Seq::empty()
    }
}

fn format_runs(t: &str, runs: &Vec<RunRow>) -> (r: Vec<TextPart>)
    ensures
        views(r@) == formatted(t@, runs@),
{
    let mut out: Vec<TextPart> = Vec::new();
    let mut i: usize = 0;
    assert(runs@.take(0) =~= Seq::<RunRow>::empty());
    assert(views(out@) =~= formatted(t@, runs@.take(0)));
    while i < runs.len()
        invariant
            i <= runs.len(),
            views(out@) == formatted(t@, runs@.take(i as int)),
        decreases runs.len() - i,
    {
        assert(runs@.take(i + 1).drop_last() =~= runs@.take(i as int));
        let run: &RunRow = &runs[i];
        if !run.is_attachment {
            let text: String = clean_text_run(slice(t, run.start, run.end).as_str());
            if !text.as_str().is_empty() {
                let part: TextPart = TextPart { text, effects: effect_names(&run.effects) };
                let ghost before = views(out@);
                let ghost p = part@;
                out.push(part);
                assert(views(out@) =~= before.push(p));
            }
        }
        i += 1;
    }
    assert(runs@.take(i as int) =~= runs@);
    out
}

fn message_parts(raw: &Option<String>, runs: &Vec<RunRow>) -> (r: Vec<TextPart>)
    ensures
        views(r@) == parts_of(opt(*raw), runs@),
{
    if let Some(t) = raw {
        let parts: Vec<TextPart> = format_runs(t.as_str(), runs);
        assert(views(parts@).len() == parts@.len());
        if parts.len() > 0 {
            return parts;
        }
    }
    let mut parts: Vec<TextPart> = Vec::new();
    if let Some(text) = shown_text(raw) {
        let part: TextPart = TextPart { text, effects: Vec::new() };
        assert(views(part.effects@) =~= Seq::<Seq<char>>::empty());
        parts.push(part);
    }
    assert(views(parts@) =~= parts_of(opt(*raw), runs@));
    parts
}

// ----- attachments -----

/// The path of a file, with the home directory filled in.
pub open spec fn path_of(filename: Option<Seq<char>>, home: Seq<char>) -> Option<Seq<char>> {
    match filename {
        Some(f) => Some(home_path(f, home)),
        None => None,
    }
}

/// What `mime_guess` makes of a path, where there is one.
pub open spec fn type_by_path(path: Option<Seq<char>>) -> Option<Seq<char>> {
    match path {
        Some(p) => guessed_mime(p),
        None => None,
    }
}

/// The name that an attachment is shown under.
pub open spec fn attachment_name(transfer: Option<Seq<char>>, path: Option<Seq<char>>) -> Seq<char> {
    match transfer {
        Some(n) => n,
        None => match path {
            Some(p) => match base_name(p) {
                Some(b) => b,
                None => "attachment"@,
            },
            None => "attachment"@,
        },
    }
}

/// An attachment as it goes over the wire. `guessed` is the type that its path suggests.
pub open spec fn attachment_with(a: AttachmentRow, home: Seq<char>, guessed: Option<Seq<char>>) -> AttachmentV {
    let path = path_of(opt(a.filename), home);
    AttachmentV {
        id: a.rowid,
        guid: opt(a.guid),
        name: attachment_name(opt(a.transfer_name), path),
        mime: file_type(opt(a.mime_type), guessed, opt(a.uti)),
        size: a.total_bytes,
        is_sticker: a.is_sticker,
        available: a.filename is Some && a.on_disk,
        url: "/api/attachments/"@ + dec_int(a.rowid as int),
    }
}

/// An attachment as it goes over the wire.
pub open spec fn attachment_of(a: AttachmentRow, home: Seq<char>) -> AttachmentV {
    attachment_with(a, home, type_by_path(path_of(opt(a.filename), home)))
}

/// An attachment, given the type that its path suggests.
pub fn attachment_from(a: &AttachmentRow, home: &str, guessed: Option<String>) -> (r: Attachment)
    ensures
        r@ == attachment_with(*a, home@, opt(guessed)),
{
    let path: Option<String> = match &a.filename {
        Some(f) => Some(expand_home(f.as_str(), home)),
        None => None,
    };
    let available: bool = path.is_some() && a.on_disk;
    let name: String = match &a.transfer_name {
        Some(n) => n.clone(),
        None => {
            let base: Option<String> = match &path {
                Some(p) => file_name(p.as_str()),
                None => None,
            };
            match base {
                Some(b) => b,
                None => "attachment".to_owned(),
            }
        },
    };
    Attachment {
        id: a.rowid,
        guid: clone_opt(&a.guid),
        name,
        mime: pick_type(&a.mime_type, guessed, &a.uti),
        size: a.total_bytes,
        is_sticker: a.is_sticker,
        available,
        url: cat2("/api/attachments/", decimal_i64(a.rowid).as_str()),
    }
}

fn convert_attachment(a: &AttachmentRow, home: &str) -> (r: Attachment)
    ensures
        r@ == attachment_of(*a, home@),
{
    let guessed: Option<String> = match &a.filename {
        Some(f) => guess_mime(expand_home(f.as_str(), home).as_str()),
        None => None,
    };
    attachment_from(a, home, guessed)
}

fn convert_attachments(rows: &Vec<AttachmentRow>, home: &str) -> (r: Vec<Attachment>)
    ensures
        views(r@) == Seq::new(rows@.len(), |i: int| attachment_of(rows@[i], home@)),
{
    let mut out: Vec<Attachment> = Vec::new();
    let mut i: usize = 0;
    while i < rows.len()
        invariant
            i <= rows.len(),
            out@.len() == i,
            forall|k: int| 0 <= k < i ==> #[trigger] out@[k]@ == attachment_of(rows@[k], home@),
        decreases rows.len() - i,
    {
        out.push(convert_attachment(&rows[i], home));
        i += 1;
    }
    assert(views(out@) =~= Seq::new(rows@.len(), |i: int| attachment_of(rows@[i], home@)));
    out
}

/// Where an attachment's file is, its type and its name, given the type that the path suggests;
/// none without a file name.
pub open spec fn file_of(row: FileRow, home: Seq<char>, guessed: Option<Seq<char>>) -> Option<(
    Seq<char>,
    Seq<char>,
    Seq<char>,
)> {
    match opt(row.filename) {
        Some(f) => {
            let p = home_path(f, home);
            let name = match opt(row.transfer_name) {
                Some(n) => n,
                None => match base_name(p) {
                    Some(b) => b,
                    None => Seq::empty(),
                },
            };
            Some((p, file_type(opt(row.mime_type), guessed, opt(row.uti)), name))
        },
        None => None,
    }
}

/// The path, type and name of an attachment's file, given the type that the path suggests.
pub fn file_from(row: &FileRow, home: &str, guessed: Option<String>) -> (r: Option<(String, String, String)>)
    ensures
        r is Some <==> file_of(*row, home@, opt(guessed)) is Some,
        r is Some ==> ((r->0).0@, (r->0).1@, (r->0).2@) == file_of(*row, home@, opt(guessed))->0,
{
    let f: &String = match &row.filename {
        Some(f) => f,
        None => {
            return None;
        },
    };
    let p: String = expand_home(f.as_str(), home);
    let name: String = match &row.transfer_name {
        Some(n) => n.clone(),
        None => match file_name(p.as_str()) {
            Some(b) => b,
            None => String::new(),
        },
    };
    let mime: String = pick_type(&row.mime_type, guessed, &row.uti);
    Some((p, mime, name))
}

impl Db {
    /// The path, type and name of an attachment's file; none where the row is missing or names
    /// no file.
    pub fn attachment_path(row: Option<&FileRow>, home: &str) -> (r: Option<(String, String, String)>)
        ensures
            row is None ==> r is None,
            row matches Some(row) ==> {
                let file = file_of(*row, home@, type_by_path(path_of(opt(row.filename), home@)));
                &&& r is Some <==> file is Some
                &&& r is Some ==> ((r->0).0@, (r->0).1@, (r->0).2@) == file->0
            },
    {
        match row {
            Some(row) => {
                let guessed: Option<String> = match &row.filename {
                    Some(f) => guess_mime(expand_home(f.as_str(), home).as_str()),
                    None => None,
                };
                file_from(row, home, guessed)
            },
            None => None,
        }
    }
}

// ----- kinds -----

/// The line that reports a change to a group.
pub open spec fn action_text(d: Directory, is_from_me: bool, handle_id: Option<i64>, action: GroupAction) -> Seq<
    char,
> {
    let who = if is_from_me {
        "You"@
    } else {
        name_or(person(d, handle_id), "Someone"@)
    };
    match action {
        GroupAction::ParticipantAdded(h) => who + " added "@ + name_or(participant_of(d, h), "someone"@),
        GroupAction::ParticipantRemoved(h) => who + " removed "@ + name_or(participant_of(d, h), "someone"@),
        GroupAction::NameChange(n) => who + " named the conversation \""@ + n@ + "\""@,
        GroupAction::ParticipantLeft => who + " left the conversation"@,
        GroupAction::GroupIconChanged => who + " changed the group photo"@,
        GroupAction::GroupIconRemoved => who + " removed the group photo"@,
        GroupAction::ChatBackgroundChanged => who + " changed the background"@,
        GroupAction::ChatBackgroundRemoved => who + " removed the background"@,
        GroupAction::PhoneNumberChanged => who + " changed their number"@,
    }
}

/// The name of an app by its balloon.
pub open spec fn app_title(b: Balloon) -> Seq<char> {
    match b {
        Balloon::Url => Seq::empty(),
        Balloon::ApplePay => "Apple Cash"@,
        Balloon::Fitness => "Fitness"@,
        Balloon::Slideshow => "Photos"@,
        Balloon::CheckIn => "Check In"@,
        Balloon::FindMy => "Find My"@,
        Balloon::Polls => "Poll"@,
        Balloon::Handwriting => "Handwriting"@,
        Balloon::DigitalTouch => "Digital Touch"@,
        Balloon::Business => "Business"@,
        Balloon::Application(b) => b@.skip(after_last(b@, '.')),
    }
}

/// What an app balloon shows. A link shows what its payload says, and its own text where the
/// payload has no address; any other app its name.
pub open spec fn app_kind(row: MessageRow, b: Balloon, text: Option<Seq<char>>) -> MessageKindV {
    let bundle_id = match opt(row.bundle_id) {
        Some(x) => x,
        None => Seq::empty(),
    };
    if b is Url {
        MessageKindV::App {
            bundle_id,
            title: if row.link is Some {
                opt(row.link->0.title)
            } else {
                None
            },
            summary: if row.link is Some {
                opt(row.link->0.summary)
            } else {
                None
            },
            url: if row.link is Some && row.link->0.url is Some {
                opt(row.link->0.url)
            } else {
                text
            },
        }
    } else {
        MessageKindV::App { bundle_id, title: Some(app_title(b)), summary: None, url: None }
    }
}

/// What a message is.
pub open spec fn kind_of(d: Directory, row: MessageRow) -> MessageKindV {
    let text = visible_text(opt(row.text));
    if row.fully_unsent || row.extra.date_retracted > 0 {
        MessageKindV::Unsent
    } else if row.group_action is Some {
        MessageKindV::Announcement { text: action_text(d, row.is_from_me, row.handle_id, row.group_action->0) }
    } else if row.is_shareplay {
        MessageKindV::Announcement { text: "SharePlay"@ }
    } else if row.balloon is Some {
        app_kind(row, row.balloon->0, text)
    } else if row.item_type != 0 && text is None && row.num_attachments == 0 {
        MessageKindV::Announcement { text: "(system message)"@ }
    } else {
        MessageKindV::Normal
    }
}

fn app_name(b: &Balloon) -> (r: String)
    ensures
        r@ == app_title(*b),
{
    match b {
        Balloon::Url => String::new(),
        Balloon::ApplePay => "Apple Cash".to_owned(),
        Balloon::Fitness => "Fitness".to_owned(),
        Balloon::Slideshow => "Photos".to_owned(),
        Balloon::CheckIn => "Check In".to_owned(),
        Balloon::FindMy => "Find My".to_owned(),
        Balloon::Polls => "Poll".to_owned(),
        Balloon::Handwriting => "Handwriting".to_owned(),
        Balloon::DigitalTouch => "Digital Touch".to_owned(),
        Balloon::Business => "Business".to_owned(),
        Balloon::Application(b) => {
            let v: Vec<char> = chars_of(b.as_str());
            let start: usize = find_after_last(&v, '.');
            proof {
                lemma_after_last(v@, '.');
                assert(v@.skip(start as int) =~= v@.subrange(start as int, v@.len() as int));
            }
            string_of(&piece(&v, start, v.len()))
        },
    }
}

fn app_balloon(row: &MessageRow, b: &Balloon, text: &Option<String>) -> (r: MessageKind)
    ensures
        r@ == app_kind(*row, *b, opt(*text)),
{
    let bundle_id: String = match &row.bundle_id {
        Some(x) => x.clone(),
        None => String::new(),
    };
    if matches!(b, Balloon::Url) {
        let (title, summary, url): (Option<String>, Option<String>, Option<String>) = match &row.link {
            Some(l) => (clone_opt(&l.title), clone_opt(&l.summary), clone_opt(&l.url)),
            None => (None, None, None),
        };
        let url: Option<String> = if url.is_none() { clone_opt(text) } else { url };
        MessageKind::App { bundle_id, title, summary, url }
    } else {
        MessageKind::App { bundle_id, title: Some(app_name(b)), summary: None, url: None }
    }
}

impl Db {
    /// The line that reports a change to a group.
    fn group_action_text(&self, row: &MessageRow, action: &GroupAction, book: &ContactBook) -> (r: String)
        requires
            book.wf(),
        ensures
            r@ == action_text(self.directory(book), row.is_from_me, row.handle_id, *action),
    {
        let who: String = if row.is_from_me { "You".to_owned() } else { self.name(row.handle_id, book, "Someone") };
        match action {
            GroupAction::ParticipantAdded(h) => {
                cat3(who.as_str(), " added ", self.name(Some(*h), book, "someone").as_str())
            },
            GroupAction::ParticipantRemoved(h) => {
                cat3(who.as_str(), " removed ", self.name(Some(*h), book, "someone").as_str())
            },
            GroupAction::NameChange(n) => {
                cat2(cat3(who.as_str(), " named the conversation \"", n.as_str()).as_str(), "\"")
            },
            GroupAction::ParticipantLeft => cat2(who.as_str(), " left the conversation"),
            GroupAction::GroupIconChanged => cat2(who.as_str(), " changed the group photo"),
            GroupAction::GroupIconRemoved => cat2(who.as_str(), " removed the group photo"),
            GroupAction::ChatBackgroundChanged => cat2(who.as_str(), " changed the background"),
            GroupAction::ChatBackgroundRemoved => cat2(who.as_str(), " removed the background"),
            GroupAction::PhoneNumberChanged => cat2(who.as_str(), " changed their number"),
        }
    }

    fn message_kind(&self, row: &MessageRow, text: &Option<String>, book: &ContactBook) -> (r: MessageKind)
        requires
            book.wf(),
            opt(*text) == visible_text(opt(row.text)),
        ensures
            r@ == kind_of(self.directory(book), *row),
    {
        if row.fully_unsent || row.extra.date_retracted > 0 {
            return MessageKind::Unsent;
        }
        if let Some(action) = &row.group_action {
            return MessageKind::Announcement { text: self.group_action_text(row, action, book) };
        }
        if row.is_shareplay {
            return MessageKind::Announcement { text: "SharePlay".to_owned() };
        }
        if let Some(b) = &row.balloon {
            return app_balloon(row, b, text);
        }
        if row.item_type != 0 && text.is_none() && row.num_attachments == 0 {
            return MessageKind::Announcement { text: "(system message)".to_owned() };
        }
        MessageKind::Normal
    }
}

// ----- replies and effects -----

/// What `imessage_database` reads out of an attributed body.
pub uninterp spec fn body_text(stream: Seq<u8>) -> Option<Seq<char>>;

/// `imessage_database::util::streamtyped::parse`: the text in a typed stream; none where the
/// stream has no start or end pattern or holds no text. How the text is found is not spelled
/// out.
#[verifier::external_body]
fn parse_body(stream: &Vec<u8>) -> (r: Option<String>)
    ensures
        opt(r) == body_text(stream@),
{
    imessage_database::util::streamtyped::parse(stream.clone()).ok()
}

/// The text of a quoted message, given what its body holds: its own text unless that is blank.
pub open spec fn quoted_text(row: ReplyRow, body: Option<Seq<char>>) -> Option<Seq<char>> {
    if row.text is Some && trim(row.text->0@).len() > 0 {
        Some(row.text->0@)
    } else {
        body
    }
}

/// The preview of a quoted message: its text without placeholders, or a word for its attachment.
pub open spec fn quote_preview(row: ReplyRow, body: Option<Seq<char>>) -> Option<Seq<char>> {
    let t = match quoted_text(row, body) {
        Some(t) => trim(replace_all(t, "\u{FFFC}"@, Seq::empty())),
        None => Seq::empty(),
    };
    if t.len() > 0 {
        Some(t)
    } else if row.has_attachments {
        Some("📎 Attachment"@)
    } else {
        None
    }
}

/// What the body of a quoted message holds, where it has one.
pub open spec fn body_of(row: ReplyRow) -> Option<Seq<char>> {
    match row.body {
        Some(b) => body_text(b@),
        None => None,
    }
}

/// A quotation of the message `guid`, given what its body holds.
pub open spec fn reply_with(d: Directory, guid: Seq<char>, row: ReplyRow, body: Option<Seq<char>>) -> ReplyRefV {
    ReplyRefV {
        guid,
        preview: quote_preview(row, body),
        sender_name: if row.is_from_me {
            Some("You"@)
        } else {
            match person(d, row.handle_id) {
                Some(p) => Some(display_of(p)),
                None => None,
            }
        },
    }
}

/// The quotation that a message carries.
pub open spec fn reply_of(d: Directory, row: MessageRow) -> Option<ReplyRefV> {
    if row.is_reply && row.thread_originator_guid is Some && row.reply is Some {
        Some(reply_with(d, row.thread_originator_guid->0@, row.reply->0, body_of(row.reply->0)))
    } else {
        None
    }
}

impl Db {
    /// A quotation of the message `guid`, given what its body holds.
    pub fn quote(&self, guid: &str, row: &ReplyRow, body: Option<String>, book: &ContactBook) -> (r: ReplyRef)
        requires
            book.wf(),
        ensures
            r@ == reply_with(self.directory(book), guid@, *row, opt(body)),
    {
        let mut text: Option<String> = body;
        if let Some(t) = &row.text {
            if !trim_str(t.as_str()).as_str().is_empty() {
                text = Some(t.clone());
            }
        }
        let mut preview: Option<String> = None;
        if let Some(t) = text {
            proof {
                reveal_strlit("\u{FFFC}");
                reveal_strlit("");
                assert(""@ =~= Seq::<char>::empty());
            }
            let shown: String = trim_str(str_replace(t.as_str(), "\u{FFFC}", "").as_str());
            if !shown.as_str().is_empty() {
                preview = Some(shown);
            }
        }
        if preview.is_none() && row.has_attachments {
            preview = Some("📎 Attachment".to_owned());
        }
        let sender_name: Option<String> = if row.is_from_me {
            Some("You".to_owned())
        } else {
            match self.sender(false, row.handle_id, book) {
                Some(p) => Some(p.display().to_owned()),
                None => None,
            }
        };
        ReplyRef { guid: guid.to_owned(), preview, sender_name }
    }

    /// A quotation of the message `guid`; none where it is not there.
    pub fn reply_preview(&self, guid: &str, row: Option<&ReplyRow>, book: &ContactBook) -> (r: Option<ReplyRef>)
        requires
            book.wf(),
        ensures
            row is None ==> r is None,
            row matches Some(row) ==> opt(r) == Some(
                reply_with(self.directory(book), guid@, *row, body_of(*row)),
            ),
    {
        match row {
            Some(row) => {
                let body: Option<String> = match &row.body {
                    Some(b) => parse_body(b),
                    None => None,
                };
                Some(self.quote(guid, row, body, book))
            },
            None => None,
        }
    }
}

/// The name of the effect that a message was sent with.
pub open spec fn expressive_word(e: Expressive) -> Option<Seq<char>> {
    match e {
        Expressive::Plain => None,
        Expressive::Screen(s) => Some(
            match s {
                ScreenEffect::Confetti => "confetti"@,
                ScreenEffect::Echo => "echo"@,
                ScreenEffect::Fireworks => "fireworks"@,
                ScreenEffect::Balloons => "balloons"@,
                ScreenEffect::Heart => "heart"@,
                ScreenEffect::Lasers => "lasers"@,
                ScreenEffect::ShootingStar => "shooting star"@,
                ScreenEffect::Sparkles => "sparkles"@,
                ScreenEffect::Spotlight => "spotlight"@,
            },
        ),
        Expressive::Bubble(b) => Some(
            match b {
                BubbleEffect::Slam => "slam"@,
                BubbleEffect::Loud => "loud"@,
                BubbleEffect::Gentle => "gentle"@,
                BubbleEffect::InvisibleInk => "invisible ink"@,
            },
        ),
        Expressive::Unknown(s) => Some(s@),
    }
}

fn expressive_name(e: &Expressive) -> (r: Option<String>)
    ensures
        opt(r) == expressive_word(*e),
{
    match e {
        Expressive::Plain => None,
        Expressive::Screen(s) => Some(
            match s {
                ScreenEffect::Confetti => "confetti",
                ScreenEffect::Echo => "echo",
                ScreenEffect::Fireworks => "fireworks",
                ScreenEffect::Balloons => "balloons",
                ScreenEffect::Heart => "heart",
                ScreenEffect::Lasers => "lasers",
                ScreenEffect::ShootingStar => "shooting star",
                ScreenEffect::Sparkles => "sparkles",
                ScreenEffect::Spotlight => "spotlight",
            }.to_owned(),
        ),
        Expressive::Bubble(b) => Some(
            match b {
                BubbleEffect::Slam => "slam",
                BubbleEffect::Loud => "loud",
                BubbleEffect::Gentle => "gentle",
                BubbleEffect::InvisibleInk => "invisible ink",
            }.to_owned(),
        ),
        Expressive::Unknown(s) => Some(s.clone()),
    }
}

fn any_edited(edits: &Vec<EditStatus>) -> (r: bool)
    ensures
        r == edits@.contains(EditStatus::Edited),
{
    let mut i: usize = 0;
    while i < edits.len()
        invariant
            i <= edits.len(),
            forall|k: int| 0 <= k < i ==> edits@[k] != EditStatus::Edited,
        decreases edits.len() - i,
    {
        if edits[i] == EditStatus::Edited {
            return true;
        }
        i += 1;
    }
    false
}

// ----- messages -----

/// The dates of a row can be told in milliseconds.
pub open spec fn row_ok(row: MessageRow) -> bool {
    stamp_ok(row.date as int) && stamp_ok(row.date_read as int) && stamp_ok(row.date_delivered as int)
}

/// A message as it goes over the wire, before reactions are attached.
pub open spec fn converted(d: Directory, row: MessageRow, home: Seq<char>) -> MessageV {
    MessageV {
        id: row.rowid,
        guid: row.guid@,
        chat_id: match row.chat_id {
            Some(c) => c,
            None => 0,
        },
        sender: sender_of(d, row.is_from_me, row.handle_id),
        is_from_me: row.is_from_me,
        date: unix_ms(row.date as int) as i64,
        date_read: unix_ms(row.date_read as int) as i64,
        date_delivered: unix_ms(row.date_delivered as int) as i64,
        is_read: row.is_read,
        is_delivered: row.extra.is_delivered,
        is_sent: row.extra.is_sent,
        error: row.extra.error,
        service: match opt(row.service) {
            Some(s) => s,
            None => "iMessage"@,
        },
        subject: match opt(row.subject) {
            Some(s) => if s.len() > 0 {
                Some(s)
            } else {
                None
            },
            None => None,
        },
        text: visible_text(opt(row.text)),
        parts: parts_of(opt(row.text), row.runs@),
        attachments: Seq::new(row.attachments@.len(), |i: int| attachment_of(row.attachments@[i], home)),
        reactions: Seq::empty(),
        kind: kind_of(d, row),
        reply_to: reply_of(d, row),
        thread_originator_guid: opt(row.thread_originator_guid),
        is_edited: row.edits@.contains(EditStatus::Edited),
        expressive: expressive_word(row.expressive),
        is_audio: row.extra.is_audio,
    }
}

impl Db {
    /// A message as it goes over the wire, before reactions are attached.
    pub fn convert(&self, row: &MessageRow, book: &ContactBook, home: &str) -> (r: Message)
        requires
            book.wf(),
            row_ok(*row),
        ensures
            r@ == converted(self.directory(book), *row, home@),
    {
        let text: Option<String> = shown_text(&row.text);
        let parts: Vec<TextPart> = message_parts(&row.text, &row.runs);
        let kind: MessageKind = self.message_kind(row, &text, book);
        let reply_to: Option<ReplyRef> = if row.is_reply {
            match &row.thread_originator_guid {
                Some(g) => match &row.reply {
                    Some(reply) => self.reply_preview(g.as_str(), Some(reply), book),
                    None => None,
                },
                None => None,
            }
        } else {
            None
        };
        let subject: Option<String> = match &row.subject {
            Some(s) => if s.as_str().is_empty() {
                None
            } else {
                Some(s.clone())
            },
            None => None,
        };
        let reactions: Vec<Reaction> = Vec::new();
        assert(views(reactions@) =~= Seq::<ReactionV>::empty());
        Message {
            id: row.rowid,
            guid: row.guid.clone(),
            chat_id: match row.chat_id {
                Some(c) => c,
                None => 0,
            },
            sender: self.sender(row.is_from_me, row.handle_id, book),
            is_from_me: row.is_from_me,
            date: apple_ns_to_unix_ms(row.date),
            date_read: apple_ns_to_unix_ms(row.date_read),
            date_delivered: apple_ns_to_unix_ms(row.date_delivered),
            is_read: row.is_read,
            is_delivered: row.extra.is_delivered,
            is_sent: row.extra.is_sent,
            error: row.extra.error,
            service: match &row.service {
                Some(s) => s.clone(),
                None => "iMessage".to_owned(),
            },
            subject,
            text,
            parts,
            attachments: convert_attachments(&row.attachments, home),
            reactions,
            kind,
            reply_to,
            thread_originator_guid: clone_opt(&row.thread_originator_guid),
            is_edited: any_edited(&row.edits),
            expressive: expressive_name(&row.expressive),
            is_audio: row.extra.is_audio,
        }
    }
}

} // verus!
