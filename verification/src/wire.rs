//! The types that servers and clients exchange, with the rules that belong to them.
use crate::laws::normal_numbers_stay;
use crate::text::{
    all_ascii, chars_of, digits_of, find_from, is_white, join, join_strings, keep_digits, lemma_position_from,
    lowercase, opt, piece, small_letters, str_same, string_of, to_lowercase, trim, trim_end, trim_start, trimmed,
    views, Class,
};
use vstd::prelude::*;

verus! {

/// A copy of an optional string.
pub fn clone_opt(o: &Option<String>) -> (r: Option<String>)
    ensures
        opt(r) == opt(*o),
        r == *o,
{
    match o {
        Some(s) => Some(s.clone()),
        None => None,
    }
}

/// A copy of a list of strings.
pub fn clone_strings(v: &Vec<String>) -> (r: Vec<String>)
    ensures
        views(r@) == views(v@),
        r@ == v@,
{
    let mut out: Vec<String> = Vec::new();
    let mut i: usize = 0;
    while i < v.len()
        invariant
            i <= v.len(),
            out@ == v@.take(i as int),
        decreases v.len() - i,
    {
        out.push(v[i].clone());
        assert(v@.take(i + 1) =~= v@.take(i as int).push(v[i as int]));
        i += 1;
    }
    assert(v@.take(v@.len() as int) =~= v@);
    out
}

/// Someone in a conversation.
#[derive(Debug, PartialEq, Eq)]
pub struct Participant {
    pub handle_id: i64,
    /// Raw address: phone number in E.164 or email.
    pub address: String,
    /// Resolved contact name, if any.
    pub name: Option<String>,
    pub contact_id: Option<i64>,
}

/// The contents of a `Participant`.
#[verifier::ext_equal]
pub struct ParticipantV {
    pub handle_id: i64,
    pub address: Seq<char>,
    pub name: Option<Seq<char>>,
    pub contact_id: Option<i64>,
}

impl View for Participant {
    type V = ParticipantV;

    open spec fn view(&self) -> ParticipantV {
        ParticipantV {
            handle_id: self.handle_id,
            address: self.address@,
            name: opt(self.name),
            contact_id: self.contact_id,
        }
    }
}

impl Clone for Participant {
    fn clone(&self) -> (r: Self)
        ensures
            r@ == self@,
    {
        Participant {
            handle_id: self.handle_id,
            address: self.address.clone(),
            name: clone_opt(&self.name),
            contact_id: self.contact_id,
        }
    }
}

/// A copy of a list.
pub fn clone_participants(v: &Vec<Participant>) -> (r: Vec<Participant>)
    ensures
        views(r@) == views(v@),
        r@.len() == v@.len(),
{
    let mut out: Vec<Participant> = Vec::new();
    let mut i: usize = 0;
    while i < v.len()
        invariant
            i <= v.len(),
            out@.len() == i,
            forall|k: int| 0 <= k < i ==> #[trigger] out@[k]@ == v@[k]@,
        decreases v.len() - i,
    {
        out.push(v[i].clone());
        i += 1;
    }
    assert(views(out@) =~= views(v@));
    out
}

/// A conversation.
#[derive(Debug)]
pub struct Chat {
    pub id: i64,
    pub guid: String,
    pub identifier: String,
    pub service: String,
    pub display_name: Option<String>,
    pub is_group: bool,
    pub participants: Vec<Participant>,
    /// Unix ms of the most recent message.
    pub last_date: i64,
    pub last_preview: Option<String>,
    pub last_from_me: bool,
    pub unread: i64,
}

/// The contents of a `Chat`.
#[verifier::ext_equal]
pub struct ChatV {
    pub id: i64,
    pub guid: Seq<char>,
    pub identifier: Seq<char>,
    pub service: Seq<char>,
    pub display_name: Option<Seq<char>>,
    pub is_group: bool,
    pub participants: Seq<ParticipantV>,
    pub last_date: i64,
    pub last_preview: Option<Seq<char>>,
    pub last_from_me: bool,
    pub unread: i64,
}

impl View for Chat {
    type V = ChatV;

    open spec fn view(&self) -> ChatV {
        ChatV {
            id: self.id,
            guid: self.guid@,
            identifier: self.identifier@,
            service: self.service@,
            display_name: opt(self.display_name),
            is_group: self.is_group,
            participants: views(self.participants@),
            last_date: self.last_date,
            last_preview: opt(self.last_preview),
            last_from_me: self.last_from_me,
            unread: self.unread,
        }
    }
}

impl Clone for Chat {
    fn clone(&self) -> (r: Self)
        ensures
            r@ == self@,
    {
        Chat {
            id: self.id,
            guid: self.guid.clone(),
            identifier: self.identifier.clone(),
            service: self.service.clone(),
            display_name: clone_opt(&self.display_name),
            is_group: self.is_group,
            participants: clone_participants(&self.participants),
            last_date: self.last_date,
            last_preview: clone_opt(&self.last_preview),
            last_from_me: self.last_from_me,
            unread: self.unread,
        }
    }
}

/// A file that came with a message.
#[derive(Debug)]
pub struct Attachment {
    pub id: i64,
    pub guid: Option<String>,
    pub name: String,
    pub mime: String,
    pub size: i64,
    pub is_sticker: bool,
    /// True when the file exists on the server's disk.
    pub available: bool,
    /// Relative URL, e.g. `/api/attachments/123`.
    pub url: String,
}

/// The contents of a `Attachment`.
#[verifier::ext_equal]
pub struct AttachmentV {
    pub id: i64,
    pub guid: Option<Seq<char>>,
    pub name: Seq<char>,
    pub mime: Seq<char>,
    pub size: i64,
    pub is_sticker: bool,
    pub available: bool,
    pub url: Seq<char>,
}

impl View for Attachment {
    type V = AttachmentV;

    open spec fn view(&self) -> AttachmentV {
        AttachmentV {
            id: self.id,
            guid: opt(self.guid),
            name: self.name@,
            mime: self.mime@,
            size: self.size,
            is_sticker: self.is_sticker,
            available: self.available,
            url: self.url@,
        }
    }
}

impl Clone for Attachment {
    fn clone(&self) -> (r: Self)
        ensures
            r@ == self@,
    {
        Attachment {
            id: self.id,
            guid: clone_opt(&self.guid),
            name: self.name.clone(),
            mime: self.mime.clone(),
            size: self.size,
            is_sticker: self.is_sticker,
            available: self.available,
            url: self.url.clone(),
        }
    }
}

/// A copy of a list.
pub fn clone_attachments(v: &Vec<Attachment>) -> (r: Vec<Attachment>)
    ensures
        views(r@) == views(v@),
        r@.len() == v@.len(),
{
    let mut out: Vec<Attachment> = Vec::new();
    let mut i: usize = 0;
    while i < v.len()
        invariant
            i <= v.len(),
            out@.len() == i,
            forall|k: int| 0 <= k < i ==> #[trigger] out@[k]@ == v@[k]@,
        decreases v.len() - i,
    {
        out.push(v[i].clone());
        i += 1;
    }
    assert(views(out@) =~= views(v@));
    out
}

/// A tapback on a message.
#[derive(Debug)]
pub struct Reaction {
    /// love | like | dislike | laugh | emphasize | question | emoji | sticker
    pub kind: String,
    pub emoji: String,
    pub sender: Option<Participant>,
    pub from_me: bool,
}

/// The contents of a `Reaction`.
#[verifier::ext_equal]
pub struct ReactionV {
    pub kind: Seq<char>,
    pub emoji: Seq<char>,
    pub sender: Option<ParticipantV>,
    pub from_me: bool,
}

impl View for Reaction {
    type V = ReactionV;

    open spec fn view(&self) -> ReactionV {
        ReactionV {
            kind: self.kind@,
            emoji: self.emoji@,
            sender: opt(self.sender),
            from_me: self.from_me,
        }
    }
}

impl Clone for Reaction {
    fn clone(&self) -> (r: Self)
        ensures
            r@ == self@,
    {
        Reaction {
            kind: self.kind.clone(),
            emoji: self.emoji.clone(),
            sender: match &self.sender {
                Some(x) => Some(x.clone()),
                None => None,
            },
            from_me: self.from_me,
        }
    }
}

/// A copy of a list.
pub fn clone_reactions(v: &Vec<Reaction>) -> (r: Vec<Reaction>)
    ensures
        views(r@) == views(v@),
        r@.len() == v@.len(),
{
    let mut out: Vec<Reaction> = Vec::new();
    let mut i: usize = 0;
    while i < v.len()
        invariant
            i <= v.len(),
            out@.len() == i,
            forall|k: int| 0 <= k < i ==> #[trigger] out@[k]@ == v@[k]@,
        decreases v.len() - i,
    {
        out.push(v[i].clone());
        i += 1;
    }
    assert(views(out@) =~= views(v@));
    out
}

/// A run of message text with its formatting.
#[derive(Debug)]
pub struct TextPart {
    pub text: String,
    /// bold, italic, strikethrough, underline, link:<url>, mention, otp, animated:<name>
    pub effects: Vec<String>,
}

/// The contents of a `TextPart`.
#[verifier::ext_equal]
pub struct TextPartV {
    pub text: Seq<char>,
    pub effects: Seq<Seq<char>>,
}

impl View for TextPart {
    type V = TextPartV;

    open spec fn view(&self) -> TextPartV {
        TextPartV {
            text: self.text@,
            effects: views(self.effects@),
        }
    }
}

impl Clone for TextPart {
    fn clone(&self) -> (r: Self)
        ensures
            r@ == self@,
    {
        TextPart {
            text: self.text.clone(),
            effects: clone_strings(&self.effects),
        }
    }
}

/// A copy of a list.
pub fn clone_textparts(v: &Vec<TextPart>) -> (r: Vec<TextPart>)
    ensures
        views(r@) == views(v@),
        r@.len() == v@.len(),
{
    let mut out: Vec<TextPart> = Vec::new();
    let mut i: usize = 0;
    while i < v.len()
        invariant
            i <= v.len(),
            out@.len() == i,
            forall|k: int| 0 <= k < i ==> #[trigger] out@[k]@ == v@[k]@,
        decreases v.len() - i,
    {
        out.push(v[i].clone());
        i += 1;
    }
    assert(views(out@) =~= views(v@));
    out
}

/// The message that another one answers.
#[derive(Debug)]
pub struct ReplyRef {
    pub guid: String,
    pub preview: Option<String>,
    pub sender_name: Option<String>,
}

/// The contents of a `ReplyRef`.
#[verifier::ext_equal]
pub struct ReplyRefV {
    pub guid: Seq<char>,
    pub preview: Option<Seq<char>>,
    pub sender_name: Option<Seq<char>>,
}

impl View for ReplyRef {
    type V = ReplyRefV;

    open spec fn view(&self) -> ReplyRefV {
        ReplyRefV {
            guid: self.guid@,
            preview: opt(self.preview),
            sender_name: opt(self.sender_name),
        }
    }
}

impl Clone for ReplyRef {
    fn clone(&self) -> (r: Self)
        ensures
            r@ == self@,
    {
        ReplyRef {
            guid: self.guid.clone(),
            preview: clone_opt(&self.preview),
            sender_name: clone_opt(&self.sender_name),
        }
    }
}

/// One message.
#[derive(Debug)]
pub struct Message {
    pub id: i64,
    pub guid: String,
    pub chat_id: i64,
    pub sender: Option<Participant>,
    pub is_from_me: bool,
    pub date: i64,
    pub date_read: i64,
    pub date_delivered: i64,
    pub is_read: bool,
    pub is_delivered: bool,
    pub is_sent: bool,
    pub error: i64,
    pub service: String,
    pub subject: Option<String>,
    pub text: Option<String>,
    pub parts: Vec<TextPart>,
    pub attachments: Vec<Attachment>,
    pub reactions: Vec<Reaction>,
    pub kind: MessageKind,
    pub reply_to: Option<ReplyRef>,
    pub thread_originator_guid: Option<String>,
    pub is_edited: bool,
    pub expressive: Option<String>,
    pub is_audio: bool,
}

/// The contents of a `Message`.
#[verifier::ext_equal]
pub struct MessageV {
    pub id: i64,
    pub guid: Seq<char>,
    pub chat_id: i64,
    pub sender: Option<ParticipantV>,
    pub is_from_me: bool,
    pub date: i64,
    pub date_read: i64,
    pub date_delivered: i64,
    pub is_read: bool,
    pub is_delivered: bool,
    pub is_sent: bool,
    pub error: i64,
    pub service: Seq<char>,
    pub subject: Option<Seq<char>>,
    pub text: Option<Seq<char>>,
    pub parts: Seq<TextPartV>,
    pub attachments: Seq<AttachmentV>,
    pub reactions: Seq<ReactionV>,
    pub kind: MessageKindV,
    pub reply_to: Option<ReplyRefV>,
    pub thread_originator_guid: Option<Seq<char>>,
    pub is_edited: bool,
    pub expressive: Option<Seq<char>>,
    pub is_audio: bool,
}

impl View for Message {
    type V = MessageV;

    open spec fn view(&self) -> MessageV {
        MessageV {
            id: self.id,
            guid: self.guid@,
            chat_id: self.chat_id,
            sender: opt(self.sender),
            is_from_me: self.is_from_me,
            date: self.date,
            date_read: self.date_read,
            date_delivered: self.date_delivered,
            is_read: self.is_read,
            is_delivered: self.is_delivered,
            is_sent: self.is_sent,
            error: self.error,
            service: self.service@,
            subject: opt(self.subject),
            text: opt(self.text),
            parts: views(self.parts@),
            attachments: views(self.attachments@),
            reactions: views(self.reactions@),
            kind: self.kind@,
            reply_to: opt(self.reply_to),
            thread_originator_guid: opt(self.thread_originator_guid),
            is_edited: self.is_edited,
            expressive: opt(self.expressive),
            is_audio: self.is_audio,
        }
    }
}

impl Clone for Message {
    fn clone(&self) -> (r: Self)
        ensures
            r@ == self@,
    {
        Message {
            id: self.id,
            guid: self.guid.clone(),
            chat_id: self.chat_id,
            sender: match &self.sender {
                Some(x) => Some(x.clone()),
                None => None,
            },
            is_from_me: self.is_from_me,
            date: self.date,
            date_read: self.date_read,
            date_delivered: self.date_delivered,
            is_read: self.is_read,
            is_delivered: self.is_delivered,
            is_sent: self.is_sent,
            error: self.error,
            service: self.service.clone(),
            subject: clone_opt(&self.subject),
            text: clone_opt(&self.text),
            parts: clone_textparts(&self.parts),
            attachments: clone_attachments(&self.attachments),
            reactions: clone_reactions(&self.reactions),
            kind: self.kind.clone(),
            reply_to: match &self.reply_to {
                Some(x) => Some(x.clone()),
                None => None,
            },
            thread_originator_guid: clone_opt(&self.thread_originator_guid),
            is_edited: self.is_edited,
            expressive: clone_opt(&self.expressive),
            is_audio: self.is_audio,
        }
    }
}

/// A copy of a list.
pub fn clone_messages(v: &Vec<Message>) -> (r: Vec<Message>)
    ensures
        views(r@) == views(v@),
        r@.len() == v@.len(),
{
    let mut out: Vec<Message> = Vec::new();
    let mut i: usize = 0;
    while i < v.len()
        invariant
            i <= v.len(),
            out@.len() == i,
            forall|k: int| 0 <= k < i ==> #[trigger] out@[k]@ == v@[k]@,
        decreases v.len() - i,
    {
        out.push(v[i].clone());
        i += 1;
    }
    assert(views(out@) =~= views(v@));
    out
}

/// An entry of the address book.
#[derive(Debug)]
pub struct Contact {
    pub id: i64,
    pub name: String,
    pub first: Option<String>,
    pub last: Option<String>,
    pub organization: Option<String>,
    pub phones: Vec<String>,
    pub emails: Vec<String>,
    pub has_photo: bool,
}

/// The contents of a `Contact`.
#[verifier::ext_equal]
pub struct ContactV {
    pub id: i64,
    pub name: Seq<char>,
    pub first: Option<Seq<char>>,
    pub last: Option<Seq<char>>,
    pub organization: Option<Seq<char>>,
    pub phones: Seq<Seq<char>>,
    pub emails: Seq<Seq<char>>,
    pub has_photo: bool,
}

impl View for Contact {
    type V = ContactV;

    open spec fn view(&self) -> ContactV {
        ContactV {
            id: self.id,
            name: self.name@,
            first: opt(self.first),
            last: opt(self.last),
            organization: opt(self.organization),
            phones: views(self.phones@),
            emails: views(self.emails@),
            has_photo: self.has_photo,
        }
    }
}

impl Clone for Contact {
    fn clone(&self) -> (r: Self)
        ensures
            r@ == self@,
    {
        Contact {
            id: self.id,
            name: self.name.clone(),
            first: clone_opt(&self.first),
            last: clone_opt(&self.last),
            organization: clone_opt(&self.organization),
            phones: clone_strings(&self.phones),
            emails: clone_strings(&self.emails),
            has_photo: self.has_photo,
        }
    }
}

/// A request to send a message.
#[derive(Debug)]
pub struct SendRequest {
    /// Existing chat GUID (preferred).
    pub chat_guid: Option<String>,
    /// Or addresses for a new conversation.
    pub to: Vec<String>,
    pub text: Option<String>,
    /// Upload ids returned from POST /api/upload, sent as file attachments.
    pub uploads: Vec<String>,
    /// Absolute file paths on the server machine (local TUI convenience).
    pub paths: Vec<String>,
}

/// The contents of a `SendRequest`.
#[verifier::ext_equal]
pub struct SendRequestV {
    pub chat_guid: Option<Seq<char>>,
    pub to: Seq<Seq<char>>,
    pub text: Option<Seq<char>>,
    pub uploads: Seq<Seq<char>>,
    pub paths: Seq<Seq<char>>,
}

impl View for SendRequest {
    type V = SendRequestV;

    open spec fn view(&self) -> SendRequestV {
        SendRequestV {
            chat_guid: opt(self.chat_guid),
            to: views(self.to@),
            text: opt(self.text),
            uploads: views(self.uploads@),
            paths: views(self.paths@),
        }
    }
}

impl Clone for SendRequest {
    fn clone(&self) -> (r: Self)
        ensures
            r@ == self@,
    {
        SendRequest {
            chat_guid: clone_opt(&self.chat_guid),
            to: clone_strings(&self.to),
            text: clone_opt(&self.text),
            uploads: clone_strings(&self.uploads),
            paths: clone_strings(&self.paths),
        }
    }
}

/// What became of a request to send.
#[derive(Debug)]
pub struct SendResponse {
    pub ok: bool,
    pub detail: Option<String>,
}

/// The contents of a `SendResponse`.
#[verifier::ext_equal]
pub struct SendResponseV {
    pub ok: bool,
    pub detail: Option<Seq<char>>,
}

impl View for SendResponse {
    type V = SendResponseV;

    open spec fn view(&self) -> SendResponseV {
        SendResponseV {
            ok: self.ok,
            detail: opt(self.detail),
        }
    }
}

impl Clone for SendResponse {
    fn clone(&self) -> (r: Self)
        ensures
            r@ == self@,
    {
        SendResponse {
            ok: self.ok,
            detail: clone_opt(&self.detail),
        }
    }
}

/// A file that was staged for sending.
#[derive(Debug)]
pub struct UploadResponse {
    pub id: String,
    pub name: String,
    pub size: u64,
}

/// The contents of a `UploadResponse`.
#[verifier::ext_equal]
pub struct UploadResponseV {
    pub id: Seq<char>,
    pub name: Seq<char>,
    pub size: u64,
}

impl View for UploadResponse {
    type V = UploadResponseV;

    open spec fn view(&self) -> UploadResponseV {
        UploadResponseV {
            id: self.id@,
            name: self.name@,
            size: self.size,
        }
    }
}

impl Clone for UploadResponse {
    fn clone(&self) -> (r: Self)
        ensures
            r@ == self@,
    {
        UploadResponse {
            id: self.id.clone(),
            name: self.name.clone(),
            size: self.size,
        }
    }
}

/// A page of messages, oldest first.
#[derive(Debug)]
pub struct MessagesPage {
    pub messages: Vec<Message>,
    pub has_more: bool,
}

/// The contents of a `MessagesPage`.
#[verifier::ext_equal]
pub struct MessagesPageV {
    pub messages: Seq<MessageV>,
    pub has_more: bool,
}

impl View for MessagesPage {
    type V = MessagesPageV;

    open spec fn view(&self) -> MessagesPageV {
        MessagesPageV {
            messages: views(self.messages@),
            has_more: self.has_more,
        }
    }
}

impl Clone for MessagesPage {
    fn clone(&self) -> (r: Self)
        ensures
            r@ == self@,
    {
        MessagesPage {
            messages: clone_messages(&self.messages),
            has_more: self.has_more,
        }
    }
}

/// What a server says of itself.
#[derive(Debug)]
pub struct ServerInfo {
    pub name: String,
    pub version: String,
    pub me: Vec<String>,
    pub host: String,
}

/// The contents of a `ServerInfo`.
#[verifier::ext_equal]
pub struct ServerInfoV {
    pub name: Seq<char>,
    pub version: Seq<char>,
    pub me: Seq<Seq<char>>,
    pub host: Seq<char>,
}

impl View for ServerInfo {
    type V = ServerInfoV;

    open spec fn view(&self) -> ServerInfoV {
        ServerInfoV {
            name: self.name@,
            version: self.version@,
            me: views(self.me@),
            host: self.host@,
        }
    }
}

impl Clone for ServerInfo {
    fn clone(&self) -> (r: Self)
        ensures
            r@ == self@,
    {
        ServerInfo {
            name: self.name.clone(),
            version: self.version.clone(),
            me: clone_strings(&self.me),
            host: self.host.clone(),
        }
    }
}

/// What a message is.
#[derive(Debug)]
pub enum MessageKind {
    Normal,
    /// System line such as "Alice named the group X".
    Announcement { text: String },
    /// App / rich link balloon.
    App { bundle_id: String, title: Option<String>, summary: Option<String>, url: Option<String> },
    Unsent,
}

/// The contents of a `MessageKind`.
#[verifier::ext_equal]
pub enum MessageKindV {
    Normal,
    Announcement { text: Seq<char> },
    App { bundle_id: Seq<char>, title: Option<Seq<char>>, summary: Option<Seq<char>>, url: Option<Seq<char>> },
    Unsent,
}

impl View for MessageKind {
    type V = MessageKindV;

    open spec fn view(&self) -> MessageKindV {
        match *self {
            MessageKind::Normal => MessageKindV::Normal,
            MessageKind::Announcement { text } => MessageKindV::Announcement { text: text@ },
            MessageKind::App { bundle_id, title, summary, url } => MessageKindV::App {
                bundle_id: bundle_id@,
                title: opt(title),
                summary: opt(summary),
                url: opt(url),
            },
            MessageKind::Unsent => MessageKindV::Unsent,
        }
    }
}

impl Clone for MessageKind {
    fn clone(&self) -> (r: Self)
        ensures
            r@ == self@,
    {
        match self {
            MessageKind::Normal => MessageKind::Normal,
            MessageKind::Announcement { text } => MessageKind::Announcement { text: text.clone() },
            MessageKind::App { bundle_id, title, summary, url } => MessageKind::App {
                bundle_id: bundle_id.clone(),
                title: clone_opt(title),
                summary: clone_opt(summary),
                url: clone_opt(url),
            },
            MessageKind::Unsent => MessageKind::Unsent,
        }
    }
}

/// What a server tells its clients over the socket.
#[derive(Debug)]
pub enum WsEvent {
    Hello { info: ServerInfo },
    /// New or changed messages. Clients should merge by id.
    Messages { messages: Vec<Message> },
    /// Chat list changed (new chat, reorder, unread count).
    Chats { chats: Vec<Chat> },
    Error { message: String },
}

impl Default for TextPart {
    fn default() -> (r: Self)
        ensures
            r@ == (TextPartV { text: Seq::empty(), effects: Seq::empty() }),
    {
        let r: TextPart = TextPart { text: String::new(), effects: Vec::new() };
        assert(views(r.effects@) =~= Seq::<Seq<char>>::empty());
        r
    }
}

/// A request with nothing in it.
pub open spec fn empty_request() -> SendRequestV {
    SendRequestV { chat_guid: None, to: Seq::empty(), text: None, uploads: Seq::empty(), paths: Seq::empty() }
}

impl Default for SendRequest {
    fn default() -> (r: Self)
        ensures
            r@ == empty_request(),
    {
        let r: SendRequest = SendRequest {
            chat_guid: None,
            to: Vec::new(),
            text: None,
            uploads: Vec::new(),
            paths: Vec::new(),
        };
        assert(r@ =~= empty_request());
        r
    }
}

// ----- names and titles -----

/// The name a participant goes by: the contact name, else the address.
pub open spec fn display_of(p: ParticipantV) -> Seq<char> {
    match p.name {
        Some(n) => n,
        None => p.address,
    }
}

impl Participant {
    /// The name a participant goes by.
    pub fn display(&self) -> (r: &str)
        ensures
            r@ == display_of(self@),
    {
        match &self.name {
            Some(n) => n.as_str(),
            None => self.address.as_str(),
        }
    }
}

/// The names of a list of participants.
pub open spec fn names_of(ps: Seq<ParticipantV>) -> Seq<Seq<char>> {
    Seq::new(ps.len(), |i: int| display_of(ps[i]))
}

/// The names of a list of participants, separated by commas.
pub open spec fn roster(ps: Seq<ParticipantV>) -> Seq<char> {
    join(names_of(ps), ", "@)
}

/// The names of a list of participants, separated by commas.
pub fn member_list(ps: &Vec<Participant>) -> (r: String)
    ensures
        r@ == roster(views(ps@)),
{
    let mut names: Vec<String> = Vec::new();
    let mut i: usize = 0;
    while i < ps.len()
        invariant
            i <= ps.len(),
            names@.len() == i,
            forall|k: int| 0 <= k < i ==> #[trigger] names@[k]@ == display_of(ps@[k]@),
        decreases ps.len() - i,
    {
        names.push(ps[i].display().to_owned());
        i += 1;
    }
    assert(views(names@) =~= names_of(views(ps@)));
    join_strings(&names, ", ")
}

/// The title of a conversation: its own name where it has one, else its members, else its
/// identifier.
pub open spec fn title_of(c: ChatV) -> Seq<char> {
    if c.display_name is Some && c.display_name->0.len() > 0 {
        c.display_name->0
    } else if c.participants.len() == 0 {
        c.identifier
    } else {
        roster(c.participants)
    }
}

impl Chat {
    /// The title of a conversation.
    pub fn title(&self) -> (r: String)
        ensures
            r@ == title_of(self@),
    {
        if let Some(n) = &self.display_name {
            if !n.as_str().is_empty() {
                return n.clone();
            }
        }
        if self.participants.len() == 0 {
            return self.identifier.clone();
        }
        member_list(&self.participants)
    }
}

// ----- time -----

/// The seconds from 1970-01-01 to 2001-01-01.
pub const EPOCH_OFFSET_S: i64 = 978_307_200;

/// A stored time stamp in unix milliseconds: 0 stays 0, a large number counts nanoseconds since
/// 2001-01-01, a small one seconds.
pub open spec fn unix_ms(ts: int) -> int {
    if ts == 0 {
        0
    } else if ts > 10_000_000_000 {
        ts / 1_000_000 + 978_307_200_000
    } else {
        ts * 1000 + 978_307_200_000
    }
}

/// Time stamps that do not lie so far in the past that their milliseconds leave 64 bits.
pub open spec fn stamp_ok(ts: int) -> bool {
    ts * 1000 >= i64::MIN
}

/// Convert an Apple "nanoseconds since 2001-01-01" timestamp to unix ms.
pub fn apple_ns_to_unix_ms(ts: i64) -> (r: i64)
    requires
        stamp_ok(ts as int),
    ensures
        r == unix_ms(ts as int),
{
    if ts == 0 {
        return 0;
    }
    let ms: i64 = if ts > 10_000_000_000 { ts / 1_000_000 } else { ts * 1000 };
    ms + EPOCH_OFFSET_S * 1000
}

// ----- addresses -----

/// An address in the form in which two are matched: an email in lower case, a phone number as
/// its digits without the country code of North America.
pub open spec fn normalize(s: Seq<char>) -> Seq<char> {
    let t = trim(s);
    if t.contains('@') {
        lowercase(t)
    } else {
        let d = digits_of(t);
        if d.len() == 11 && d[0] == '1' {
            d.skip(1)
        } else {
            d
        }
    }
}

proof fn lemma_trimmed_end(s: Seq<char>)
    ensures
        trim_end(s, Class::White).is_prefix_of(s),
        trim_end(s, Class::White).len() > 0 ==> !is_white(trim_end(s, Class::White).last()),
    decreases s.len(),
{
    if s.len() > 0 && is_white(s.last()) {
        lemma_trimmed_end(s.drop_last());
    }
}

proof fn lemma_trimmed_start(s: Seq<char>)
    ensures
        forall|i: int|
            0 <= i < trim_start(s, Class::White).len() ==> s.contains(#[trigger] trim_start(s, Class::White)[i]),
        trim_start(s, Class::White).len() > 0 ==> !is_white(trim_start(s, Class::White)[0]),
    decreases s.len(),
{
    if s.len() > 0 && is_white(s[0]) {
        lemma_trimmed_start(s.skip(1));
        let t = trim_start(s, Class::White);
        assert forall|i: int| 0 <= i < t.len() implies s.contains(#[trigger] t[i]) by {
            let k = choose|k: int| 0 <= k < s.skip(1).len() && s.skip(1)[k] == t[i];
            assert(s[k + 1] == t[i]);
        }
    }
}

/// An email in ASCII, trimmed and in lower case, has nothing left to trim and still has its sign.
proof fn lemma_small_email(s: Seq<char>, at: int)
    requires
        all_ascii(s),
        0 <= at < trim(s).len(),
        trim(s)[at] == '@',
    ensures
        all_ascii(trim(s)),
        trim(small_letters(trim(s))) == small_letters(trim(s)),
        small_letters(trim(s)).contains('@'),
{
    let u = trim_start(s, Class::White);
    let t = trim(s);
    lemma_trimmed_start(s);
    lemma_trimmed_end(u);
    assert forall|i: int| 0 <= i < t.len() implies (#[trigger] t[i]) as u32 <= 127 by {
        assert(t[i] == u[i]);
        assert(s.contains(u[i]));
        let k = choose|k: int| 0 <= k < s.len() && s[k] == u[i];
        assert(s[k] as u32 <= 127);
    }
    let r = small_letters(t);
    assert(r[at] == '@');
    assert(t[0] == u[0]);
    assert(t[t.len() - 1] as u32 <= 127);
    assert(!is_white(r[0]));
    assert(!is_white(r[r.len() - 1]));
    assert(trim_start(r, Class::White) == r);
    assert(trim_end(r, Class::White) == r);
}

/// Normalize a phone number or email for matching: emails lowercased, phones reduced to digits.
/// The normal form of a phone number, and of an email in ASCII, is its own normal form.
pub fn normalize_address(s: &str) -> (r: String)
    ensures
        r@ == normalize(s@),
        !trim(s@).contains('@') || all_ascii(s@) ==> normalize(r@) == r@,
{
    let t: Vec<char> = trimmed(&chars_of(s), Class::White);
    let at: usize = find_from(&t, '@', 0);
    proof {
        lemma_position_from(t@, '@', 0);
    }
    if at < t.len() {
        assert(t@.contains(t@[at as int]));
        let low: String = to_lowercase(string_of(&t).as_str());
        proof {
            if all_ascii(s@) {
                lemma_small_email(s@, at as int);
            }
        }
        return low;
    }
    proof {
        if trim(s@).contains('@') {
            let k = choose|k: int| 0 <= k < t@.len() && t@[k] == '@';
            assert(t@[k] == '@');
        }
        normal_numbers_stay(s@);
    }
    let d: Vec<char> = keep_digits(&t);
    if d.len() == 11 && d[0] == '1' {
        assert(d@.skip(1) =~= d@.subrange(1, 11));
        string_of(&piece(&d, 1, 11))
    } else {
        string_of(&d)
    }
}

// ----- tapbacks -----

/// The glyph of a kind of tapback; empty for a kind that carries its own.
pub open spec fn tapback_glyph(kind: Seq<char>) -> Seq<char> {
    if kind == "love"@ {
        "❤️"@
    } else if kind == "like"@ {
        "👍"@
    } else if kind == "dislike"@ {
        "👎"@
    } else if kind == "laugh"@ {
        "😂"@
    } else if kind == "emphasize"@ {
        "‼️"@
    } else if kind == "question"@ {
        "❓"@
    } else {
        ""@
    }
}

/// The glyph of a kind of tapback.
pub fn tapback_emoji(kind: &str) -> (r: &'static str)
    ensures
        r@ == tapback_glyph(kind@),
{
    if str_same(kind, "love") {
        "❤️"
    } else if str_same(kind, "like") {
        "👍"
    } else if str_same(kind, "dislike") {
        "👎"
    } else if str_same(kind, "laugh") {
        "😂"
    } else if str_same(kind, "emphasize") {
        "‼️"
    } else if str_same(kind, "question") {
        "❓"
    } else {
        ""
    }
}

} // verus!
