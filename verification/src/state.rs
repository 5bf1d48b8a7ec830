//! The state of the terminal client, and how it changes with what the server says.
use crate::chats::is_direct;
use crate::emoji::{EmojiEntry, EmojiEntryV};
use crate::numbers::{dec, decimal};
use crate::order::{lemma_insert_at, sort_by};
use crate::screen::{plus, sat_sum};
use crate::text::{cat2, cat3, contains, lowercase, opt, str_has, str_same, to_lowercase, views};
use crate::wire::{
    clone_messages, normalize, normalize_address, title_of, Attachment, AttachmentV, Chat, ChatV, Contact, ContactV,
    Message, MessageV, MessagesPage, SendRequest, SendRequestV, SendResponse, ServerInfo, ServerInfoV, UploadResponse,
    UploadResponseV, WsEvent,
};
use std::collections::{HashMap, HashSet};
use vstd::prelude::*;

verus! {

broadcast use vstd::std_specs::hash::group_hash_axioms;

// ----- the parts of the state -----

/// The part of the screen that takes the keys.
#[derive(Debug, Clone, Copy, PartialEq, Eq, Structural)]
pub enum Focus {
    Chats,
    Messages,
    Compose,
}

/// What the keys are for.
#[derive(Debug, Clone, Copy, PartialEq, Eq, Structural)]
pub enum Mode {
    Normal,
    ChatFilter,
    Emoji,
    Contacts,
    Attach,
    Help,
    Search,
}

/// A conversation that is yet to begin.
#[derive(Debug)]
pub struct NewChat {
    pub address: String,
    pub name: String,
}

/// The contents of a `NewChat`.
#[verifier::ext_equal]
pub struct NewChatV {
    pub address: Seq<char>,
    pub name: Seq<char>,
}

impl View for NewChat {
    type V = NewChatV;

    open spec fn view(&self) -> NewChatV {
        NewChatV { address: self.address@, name: self.name@ }
    }
}

/// What a page of messages is asked for.
#[derive(Debug, Clone, Copy, PartialEq, Eq, Structural)]
pub enum Purpose {
    /// The first look at a chat.
    First,
    /// Messages before those that are there.
    Older,
    /// Messages after those that are there.
    Tail,
}

/// What the client wants done: by the server, the machine or the compose box.
#[derive(Debug)]
pub enum Request {
    LoadInfo,
    LoadChats,
    LoadContacts,
    LoadMessages { chat_id: i64, before: Option<i64>, limit: i64, purpose: Purpose },
    Send { request: SendRequest },
    /// See whether there is a file to attach.
    CheckFile { path: String },
    Upload { path: String },
    OpenUrl { url: String },
    Open { attachments: Vec<Attachment> },
    Save { attachments: Vec<Attachment> },
    Search { query: String },
    Copy { text: String },
    /// Complete the path that is being typed.
    CompletePath { input: String },
    /// Start a line in the compose box.
    Newline,
    /// Empty the compose box.
    ClearCompose,
    /// Put text into the compose box.
    Insert { text: String },
    /// Hand the key to the compose box.
    Input,
}

/// The contents of a `Request`.
#[verifier::ext_equal]
pub enum RequestV {
    LoadInfo,
    LoadChats,
    LoadContacts,
    LoadMessages { chat_id: i64, before: Option<i64>, limit: i64, purpose: Purpose },
    Send { request: SendRequestV },
    CheckFile { path: Seq<char> },
    Upload { path: Seq<char> },
    OpenUrl { url: Seq<char> },
    Open { attachments: Seq<AttachmentV> },
    Save { attachments: Seq<AttachmentV> },
    Search { query: Seq<char> },
    Copy { text: Seq<char> },
    CompletePath { input: Seq<char> },
    Newline,
    ClearCompose,
    Insert { text: Seq<char> },
    Input,
}

impl View for Request {
    type V = RequestV;

    open spec fn view(&self) -> RequestV {
        match *self {
            Request::LoadInfo => RequestV::LoadInfo,
            Request::LoadChats => RequestV::LoadChats,
            Request::LoadContacts => RequestV::LoadContacts,
            Request::LoadMessages { chat_id, before, limit, purpose } => RequestV::LoadMessages {
                chat_id,
                before,
                limit,
                purpose,
            },
            Request::Send { request } => RequestV::Send { request: request@ },
            Request::CheckFile { path } => RequestV::CheckFile { path: path@ },
            Request::Upload { path } => RequestV::Upload { path: path@ },
            Request::OpenUrl { url } => RequestV::OpenUrl { url: url@ },
            Request::Open { attachments } => RequestV::Open { attachments: views(attachments@) },
            Request::Save { attachments } => RequestV::Save { attachments: views(attachments@) },
            Request::Search { query } => RequestV::Search { query: query@ },
            Request::Copy { text } => RequestV::Copy { text: text@ },
            Request::CompletePath { input } => RequestV::CompletePath { input: input@ },
            Request::Newline => RequestV::Newline,
            Request::ClearCompose => RequestV::ClearCompose,
            Request::Insert { text } => RequestV::Insert { text: text@ },
            Request::Input => RequestV::Input,
        }
    }
}

/// What happens to the client.
#[derive(Debug)]
pub enum AppEvent {
    Info(ServerInfo),
    Chats(Vec<Chat>),
    Messages { chat_id: i64, page: MessagesPage, older: bool },
    Tail { chat_id: i64, messages: Vec<Message> },
    Contacts(Vec<Contact>),
    Sent(Result<SendResponse, String>),
    /// An upload came to an end; `size` tells the size of the file in words.
    Uploaded { result: Result<UploadResponse, String>, size: String },
    Search(Vec<Message>),
    MessagesFailed { chat_id: i64, message: String },
    Ws(WsEvent),
    Status(String),
}

/// The client.
pub struct App {
    pub info: Option<ServerInfo>,
    pub connected: bool,
    pub chats: Vec<Chat>,
    pub chat_sel: usize,
    pub chat_filter: String,
    pub messages: HashMap<i64, Vec<Message>>,
    pub has_more: HashMap<i64, bool>,
    pub loading: HashSet<i64>,
    pub scroll: usize,
    pub msg_sel: Option<usize>,
    pub pending_files: Vec<UploadResponse>,
    pub focus: Focus,
    pub mode: Mode,
    pub status: String,
    pub contacts: Vec<Contact>,
    pub picker_query: String,
    pub picker_sel: usize,
    pub emoji_query: String,
    pub emoji_sel: usize,
    pub attach_input: String,
    pub search_query: String,
    pub search_results: Vec<Message>,
    pub search_sel: usize,
    pub new_chat: Option<NewChat>,
    pub sending: bool,
    pub should_quit: bool,
    pub force_redraw: bool,
    /// Set by the renderer so key handling knows the viewport height.
    pub msg_view_height: usize,
    pub msg_total_lines: usize,
    /// (first_line, last_line) per rendered message index, filled by the renderer.
    pub msg_line_ranges: Vec<(usize, usize)>,
    /// The emoji that the picker offers.
    pub emojis: Vec<EmojiEntry>,
    /// What is to be done, in order.
    pub outbox: Vec<Request>,
}

/// The contents of an `App`.
#[verifier::ext_equal]
pub struct AppV {
    pub info: Option<ServerInfoV>,
    pub connected: bool,
    pub chats: Seq<ChatV>,
    pub chat_sel: usize,
    pub chat_filter: Seq<char>,
    pub messages: Map<i64, Seq<MessageV>>,
    pub has_more: Map<i64, bool>,
    pub loading: Set<i64>,
    pub scroll: usize,
    pub msg_sel: Option<usize>,
    pub pending_files: Seq<UploadResponseV>,
    pub focus: Focus,
    pub mode: Mode,
    pub status: Seq<char>,
    pub contacts: Seq<ContactV>,
    pub picker_query: Seq<char>,
    pub picker_sel: usize,
    pub emoji_query: Seq<char>,
    pub emoji_sel: usize,
    pub attach_input: Seq<char>,
    pub search_query: Seq<char>,
    pub search_results: Seq<MessageV>,
    pub search_sel: usize,
    pub new_chat: Option<NewChatV>,
    pub sending: bool,
    pub should_quit: bool,
    pub force_redraw: bool,
    pub msg_view_height: usize,
    pub msg_total_lines: usize,
    pub msg_line_ranges: Seq<(usize, usize)>,
    pub emojis: Seq<EmojiEntryV>,
    pub outbox: Seq<RequestV>,
}

impl App {
    /// The messages that are loaded, by chat.
    pub open spec fn message_map(&self) -> Map<i64, Seq<MessageV>> {
        self.messages@.map_values(|v: Vec<Message>| views(v@))
    }
}

impl View for App {
    type V = AppV;

    open spec fn view(&self) -> AppV {
        AppV {
            info: opt(self.info),
            connected: self.connected,
            chats: views(self.chats@),
            chat_sel: self.chat_sel,
            chat_filter: self.chat_filter@,
            messages: self.message_map(),
            has_more: self.has_more@,
            loading: self.loading@,
            scroll: self.scroll,
            msg_sel: self.msg_sel,
            pending_files: views(self.pending_files@),
            focus: self.focus,
            mode: self.mode,
            status: self.status@,
            contacts: views(self.contacts@),
            picker_query: self.picker_query@,
            picker_sel: self.picker_sel,
            emoji_query: self.emoji_query@,
            emoji_sel: self.emoji_sel,
            attach_input: self.attach_input@,
            search_query: self.search_query@,
            search_results: views(self.search_results@),
            search_sel: self.search_sel,
            new_chat: opt(self.new_chat),
            sending: self.sending,
            should_quit: self.should_quit,
            force_redraw: self.force_redraw,
            msg_view_height: self.msg_view_height,
            msg_total_lines: self.msg_total_lines,
            msg_line_ranges: self.msg_line_ranges@,
            emojis: views(self.emojis@),
            outbox: views(self.outbox@),
        }
    }
}

/// A client that has not heard of its server.
pub open spec fn fresh_app(emojis: Seq<EmojiEntryV>) -> AppV {
    AppV {
        info: None,
        connected: false,
        chats: Seq::empty(),
        chat_sel: 0,
        chat_filter: Seq::empty(),
        messages: Map::empty(),
        has_more: Map::empty(),
        loading: Set::empty(),
        scroll: 0,
        msg_sel: None,
        pending_files: Seq::empty(),
        focus: Focus::Chats,
        mode: Mode::Normal,
        status: "connecting…"@,
        contacts: Seq::empty(),
        picker_query: Seq::empty(),
        picker_sel: 0,
        emoji_query: Seq::empty(),
        emoji_sel: 0,
        attach_input: Seq::empty(),
        search_query: Seq::empty(),
        search_results: Seq::empty(),
        search_sel: 0,
        new_chat: None,
        sending: false,
        should_quit: false,
        force_redraw: false,
        msg_view_height: 20,
        msg_total_lines: 0,
        msg_line_ranges: Seq::empty(),
        emojis,
        outbox: Seq::empty(),
    }
}

impl App {
    /// A client that has not heard of its server, with the emoji that its picker offers.
    pub fn new(emojis: Vec<EmojiEntry>) -> (r: Self)
        ensures
            r@ == fresh_app(views(emojis@)),
    {
        let r: App = App {
            info: None,
            connected: false,
            chats: Vec::new(),
            chat_sel: 0,
            chat_filter: String::new(),
            messages: HashMap::new(),
            has_more: HashMap::new(),
            loading: HashSet::new(),
            scroll: 0,
            msg_sel: None,
            pending_files: Vec::new(),
            focus: Focus::Chats,
            mode: Mode::Normal,
            status: "connecting…".to_owned(),
            contacts: Vec::new(),
            picker_query: String::new(),
            picker_sel: 0,
            emoji_query: String::new(),
            emoji_sel: 0,
            attach_input: String::new(),
            search_query: String::new(),
            search_results: Vec::new(),
            search_sel: 0,
            new_chat: None,
            sending: false,
            should_quit: false,
            force_redraw: false,
            msg_view_height: 20,
            msg_total_lines: 0,
            msg_line_ranges: Vec::new(),
            emojis,
            outbox: Vec::new(),
        };
        assert(r.message_map() =~= Map::<i64, Seq<MessageV>>::empty());
        assert(r@ =~= fresh_app(views(emojis@)));
        r
    }

    /// Show a line of status.
    pub fn set_status(&mut self, s: &str)
        ensures
            final(self)@ == (AppV { status: s@, ..old(self)@ }),
    {
        self.status = s.to_owned();
    }

    /// Ask for something to be done.
    pub(crate) fn ask(&mut self, r: Request)
        ensures
            final(self)@ == (AppV { outbox: old(self)@.outbox.push(r@), ..old(self)@ }),
    {
        let ghost before = views(self.outbox@);
        let ghost rv = r@;
        self.outbox.push(r);
        assert(views(self.outbox@) =~= before.push(rv));
    }

    /// Ask for the chats.
    pub fn load_chats(&mut self)
        ensures
            final(self)@ == asked(old(self)@, RequestV::LoadChats),
    {
        self.ask(Request::LoadChats);
    }

    /// Ask what the server says of itself.
    pub fn load_info(&mut self)
        ensures
            final(self)@ == asked(old(self)@, RequestV::LoadInfo),
    {
        self.ask(Request::LoadInfo);
    }

    /// Ask for the contacts.
    pub fn load_contacts(&mut self)
        ensures
            final(self)@ == asked(old(self)@, RequestV::LoadContacts),
    {
        self.ask(Request::LoadContacts);
    }
}

/// The state after something more was asked for.
pub open spec fn asked(a: AppV, r: RequestV) -> AppV {
    AppV { outbox: a.outbox.push(r), ..a }
}

/// The state with another line of status.
pub open spec fn told(a: AppV, s: Seq<char>) -> AppV {
    AppV { status: s, ..a }
}

// ----- the chat on the screen -----

/// A chat that a filter `q` in lower case lets through: by its title, an address of a member, or
/// its newest message.
pub open spec fn chat_passes(c: ChatV, q: Seq<char>) -> bool {
    contains(lowercase(title_of(c)), q) || (exists|i: int|
        0 <= i < c.participants.len() && contains(lowercase((#[trigger] c.participants[i]).address), q)) || contains(
        lowercase(
            match c.last_preview {
                Some(p) => p,
                None => Seq::empty(),
            },
        ),
        q,
    )
}

/// The places of the chats among the first `n` that a filter lets through.
pub open spec fn passing(chats: Seq<ChatV>, q: Seq<char>, n: int) -> Seq<usize>
    decreases n,
{
    if n <= 0 {
        Seq::empty()
    } else if chat_passes(chats[n - 1], q) {
        passing(chats, q, n - 1).push((n - 1) as usize)
    } else {
        passing(chats, q, n - 1)
    }
}

/// The places of the chats in the list on the screen.
pub open spec fn listed_chats(a: AppV) -> Seq<usize> {
    if a.chat_filter.len() == 0 {
        Seq::new(a.chats.len(), |i: int| i as usize)
    } else {
        passing(a.chats, lowercase(a.chat_filter), a.chats.len() as int)
    }
}

/// The chat on the screen; none while a new conversation begins.
pub open spec fn chat_on_screen(a: AppV) -> Option<ChatV> {
    if a.new_chat is Some || a.chat_sel >= listed_chats(a).len() {
        None
    } else {
        Some(a.chats[listed_chats(a)[a.chat_sel as int] as int])
    }
}

/// The id of the chat on the screen.
pub open spec fn id_on_screen(a: AppV) -> Option<i64> {
    match chat_on_screen(a) {
        Some(c) => Some(c.id),
        None => None,
    }
}

/// The messages on the screen.
pub open spec fn messages_on_screen(a: AppV) -> Seq<MessageV> {
    match id_on_screen(a) {
        Some(id) => if a.messages.dom().contains(id) {
            a.messages[id]
        } else {
            Seq::empty()
        },
        None => Seq::empty(),
    }
}

pub proof fn lemma_passing(chats: Seq<ChatV>, q: Seq<char>, n: int)
    requires
        0 <= n <= chats.len() <= usize::MAX,
    ensures
        forall|k: int| 0 <= k < passing(chats, q, n).len() ==> #[trigger] passing(chats, q, n)[k] < n,
        forall|k: int|
            0 <= k < passing(chats, q, n).len() ==> chat_passes(chats[#[trigger] passing(chats, q, n)[k] as int], q),
        passing(chats, q, n).len() <= n,
    decreases n,
{
    if n > 0 {
        lemma_passing(chats, q, n - 1);
        let before = passing(chats, q, n - 1);
        let after = passing(chats, q, n);
        assert forall|k: int| 0 <= k < after.len() implies #[trigger] after[k] < n && chat_passes(
            chats[after[k] as int],
            q,
        ) by {
            if k < before.len() {
                assert(before[k] < n - 1);
            }
        }
    }
}

fn passes(c: &Chat, q: &str) -> (r: bool)
    ensures
        r == chat_passes(c@, q@),
{
    if str_has(to_lowercase(c.title().as_str()).as_str(), q) {
        return true;
    }
    let mut i: usize = 0;
    while i < c.participants.len()
        invariant
            i <= c.participants@.len(),
            forall|k: int| 0 <= k < i ==> !contains(lowercase((#[trigger] c@.participants[k]).address), q@),
        decreases c.participants@.len() - i,
    {
        if str_has(to_lowercase(c.participants[i].address.as_str()).as_str(), q) {
            assert(contains(lowercase(c@.participants[i as int].address), q@));
            return true;
        }
        i += 1;
    }
    let preview: String = match &c.last_preview {
        Some(p) => p.clone(),
        None => String::new(),
    };
    assert(c.last_preview is None ==> preview@ =~= Seq::<char>::empty());
    str_has(to_lowercase(preview.as_str()).as_str(), q)
}

impl App {
    /// The places of the chats in the list on the screen.
    pub fn filtered_chats(&self) -> (r: Vec<usize>)
        ensures
            r@ == listed_chats(self@),
            forall|k: int| 0 <= k < r@.len() ==> #[trigger] r@[k] < self.chats@.len(),
    {
        let n: usize = self.chats.len();
        let all: bool = self.chat_filter.as_str().is_empty();
        let q: String = to_lowercase(self.chat_filter.as_str());
        let ghost chats = views(self.chats@);
        let mut out: Vec<usize> = Vec::new();
        let mut i: usize = 0;
        while i < n
            invariant
                i <= n,
                n == self.chats@.len(),
                chats == views(self.chats@),
                all ==> out@ == Seq::new(i as nat, |k: int| k as usize),
                !all ==> out@ == passing(chats, q@, i as int),
                forall|k: int| 0 <= k < out@.len() ==> #[trigger] out@[k] < n,
            decreases n - i,
        {
            assert(chats[i as int] == self.chats@[i as int]@);
            if all || passes(&self.chats[i], q.as_str()) {
                out.push(i);
            }
            i += 1;
            assert(all ==> out@ =~= Seq::new(i as nat, |k: int| k as usize));
        }
        out
    }

    /// The chat on the screen.
    pub fn current_chat(&self) -> (r: Option<&Chat>)
        ensures
            r is Some <==> chat_on_screen(self@) is Some,
            r is Some ==> (r->0)@ == chat_on_screen(self@)->0,
    {
        if self.new_chat.is_some() {
            return None;
        }
        let f: Vec<usize> = self.filtered_chats();
        if self.chat_sel < f.len() {
            assert(f@[self.chat_sel as int] < self.chats@.len());
            Some(&self.chats[f[self.chat_sel]])
        } else {
            None
        }
    }

    /// The id of the chat on the screen.
    pub fn current_chat_id(&self) -> (r: Option<i64>)
        ensures
            r == id_on_screen(self@),
    {
        match self.current_chat() {
            Some(c) => Some(c.id),
            None => None,
        }
    }

    /// The messages on the screen.
    pub fn current_messages(&self) -> (r: Vec<Message>)
        ensures
            views(r@) == messages_on_screen(self@),
    {
        if let Some(id) = self.current_chat_id() {
            if let Some(list) = self.messages.get(&id) {
                assert(self.message_map()[id] == views(list@));
                return clone_messages(list);
            }
        }
        let none: Vec<Message> = Vec::new();
        assert(views(none@) =~= messages_on_screen(self@));
        none
    }

    /// How many messages are on the screen.
    pub(crate) fn message_count(&self) -> (r: usize)
        ensures
            r == messages_on_screen(self@).len(),
    {
        if let Some(id) = self.current_chat_id() {
            if let Some(list) = self.messages.get(&id) {
                assert(self.message_map()[id] == views(list@));
                return list.len();
            }
        }
        0
    }

    /// The message at a place on the screen.
    pub(crate) fn message_at(&self, i: usize) -> (r: Option<&Message>)
        ensures
            r is Some <==> i < messages_on_screen(self@).len(),
            r is Some ==> (r->0)@ == messages_on_screen(self@)[i as int],
    {
        if let Some(id) = self.current_chat_id() {
            if let Some(list) = self.messages.get(&id) {
                assert(self.message_map()[id] == views(list@));
                if i < list.len() {
                    return Some(&list[i]);
                }
            }
        }
        None
    }
}

// ----- loading -----

/// The state with a page of messages on its way.
pub open spec fn fetching(a: AppV, id: i64, before: Option<i64>, limit: i64, purpose: Purpose) -> AppV {
    AppV {
        loading: a.loading.insert(id),
        outbox: a.outbox.push(RequestV::LoadMessages { chat_id: id, before, limit, purpose }),
        ..a
    }
}

/// The state with the messages of the chat on the screen asked for, unless they are there or on
/// their way.
pub open spec fn ensured(a: AppV) -> AppV {
    match id_on_screen(a) {
        Some(id) => if a.messages.dom().contains(id) || a.loading.contains(id) {
            a
        } else {
            fetching(a, id, None, 60, Purpose::First)
        },
        None => a,
    }
}

/// The state with earlier messages of the chat on the screen asked for, where there are any and
/// nothing is on its way.
pub open spec fn older_asked(a: AppV) -> AppV {
    match id_on_screen(a) {
        Some(id) => if a.loading.contains(id) || !(a.has_more.dom().contains(id) && a.has_more[id])
            || !a.messages.dom().contains(id) || a.messages[id].len() == 0 {
            a
        } else {
            fetching(a, id, Some(a.messages[id][0].id), 60, Purpose::Older)
        },
        None => a,
    }
}

/// The date of the newest loaded message.
pub open spec fn newest_date(list: Seq<MessageV>) -> int {
    if list.len() == 0 {
        0
    } else {
        list.last().date as int
    }
}

/// The state with the newest messages of the chat on the screen asked for, where the chat list
/// tells of something newer than what is loaded.
pub open spec fn tail_asked(a: AppV) -> AppV {
    match chat_on_screen(a) {
        Some(c) => if !a.messages.dom().contains(c.id) || c.last_date <= newest_date(a.messages[c.id]) + 500
            || a.loading.contains(c.id) {
            a
        } else {
            fetching(a, c.id, None, 30, Purpose::Tail)
        },
        None => a,
    }
}

impl App {
    fn fetch(&mut self, id: i64, before: Option<i64>, limit: i64, purpose: Purpose)
        ensures
            final(self)@ == fetching(old(self)@, id, before, limit, purpose),
    {
        self.loading.insert(id);
        self.ask(Request::LoadMessages { chat_id: id, before, limit, purpose });
    }

    /// Ask for the messages of the chat on the screen, unless they are there or on their way.
    pub fn ensure_messages(&mut self)
        ensures
            final(self)@ == ensured(old(self)@),
    {
        let id: i64 = match self.current_chat_id() {
            Some(id) => id,
            None => {
                return;
            },
        };
        if self.messages.contains_key(&id) || self.loading.contains(&id) {
            return;
        }
        self.fetch(id, None, 60, Purpose::First);
    }

    /// Ask for earlier messages of the chat on the screen.
    pub fn load_older(&mut self)
        ensures
            final(self)@ == older_asked(old(self)@),
    {
        let id: i64 = match self.current_chat_id() {
            Some(id) => id,
            None => {
                return;
            },
        };
        let more: bool = match self.has_more.get(&id) {
            Some(b) => *b,
            None => false,
        };
        if self.loading.contains(&id) || !more {
            return;
        }
        let first: i64 = match self.messages.get(&id) {
            Some(list) => {
                assert(self.message_map()[id] == views(list@));
                if list.len() == 0 {
                    return;
                }
                list[0].id
            },
            None => {
                return;
            },
        };
        self.fetch(id, Some(first), 60, Purpose::Older);
    }

    /// If the chat list reports something newer than what is loaded, ask for the tail.
    pub fn ensure_tail(&mut self)
        ensures
            final(self)@ == tail_asked(old(self)@),
    {
        let (id, last_date): (i64, i64) = match self.current_chat() {
            Some(c) => (c.id, c.last_date),
            None => {
                return;
            },
        };
        let newest: i64 = match self.messages.get(&id) {
            Some(list) => {
                assert(self.message_map()[id] == views(list@));
                if list.len() == 0 {
                    0
                } else {
                    assert(views(list@).last() == list@.last()@);
                    list[list.len() - 1].date
                }
            },
            None => {
                return;
            },
        };
        if last_date as i128 <= (newest as i128) + 500 || self.loading.contains(&id) {
            return;
        }
        self.fetch(id, None, 30, Purpose::Tail);
    }

    /// Load the chat on the screen anew, and the chats.
    pub fn refresh_current(&mut self)
        ensures
            final(self)@ == refreshed(old(self)@),
    {
        if let Some(id) = self.current_chat_id() {
            let ghost before = self.message_map();
            self.messages.remove(&id);
            assert(self.message_map() =~= before.remove(id));
            self.ensure_messages();
        }
        self.load_chats();
    }
}

/// The state with the chat on the screen loaded anew, and the chats.
pub open spec fn refreshed(a: AppV) -> AppV {
    asked(
        match id_on_screen(a) {
            Some(id) => ensured(AppV { messages: a.messages.remove(id), ..a }),
            None => a,
        },
        RequestV::LoadChats,
    )
}

// ----- merging -----

/// The place of the message `id` in a list, from `i` on.
pub open spec fn message_place(list: Seq<MessageV>, id: i64, i: int) -> Option<int>
    decreases list.len() - i,
{
    if i < 0 || i >= list.len() {
        None
    } else if list[i].id == id {
        Some(i)
    } else {
        message_place(list, id, i + 1)
    }
}

/// A list with a message put in: in the place of the one with its id, else at the end.
pub open spec fn with_message(list: Seq<MessageV>, m: MessageV) -> Seq<MessageV> {
    match message_place(list, m.id, 0) {
        Some(p) => list.update(p, m),
        None => list.push(m),
    }
}

/// A list with several messages put in.
pub open spec fn with_messages(list: Seq<MessageV>, ms: Seq<MessageV>) -> Seq<MessageV>
    decreases ms.len(),
{
    if ms.len() == 0 {
        list
    } else {
        with_message(with_messages(list, ms.drop_last()), ms.last())
    }
}

/// Messages are ordered by their ids.
pub open spec fn by_id() -> spec_fn(MessageV, MessageV) -> bool {
    |a: MessageV, b: MessageV| a.id <= b.id
}

pub proof fn lemma_message_place(list: Seq<MessageV>, id: i64, i: int)
    requires
        0 <= i <= list.len(),
    ensures
        message_place(list, id, i) matches Some(p) ==> i <= p < list.len() && list[p].id == id,
        message_place(list, id, i) is None ==> forall|k: int| i <= k < list.len() ==> (#[trigger] list[k]).id != id,
    decreases list.len() - i,
{
    if i < list.len() && list[i].id != id {
        lemma_message_place(list, id, i + 1);
    }
}

fn find_message(list: &Vec<Message>, id: i64) -> (r: Option<usize>)
    ensures
        r is Some <==> message_place(views(list@), id, 0) is Some,
        r is Some ==> Some(r->0 as int) == message_place(views(list@), id, 0) && r->0 < list@.len(),
{
    let ghost all = views(list@);
    let mut i: usize = 0;
    while i < list.len()
        invariant
            i <= list.len(),
            all == views(list@),
            message_place(all, id, 0) == message_place(all, id, i as int),
        decreases list.len() - i,
    {
        assert(all[i as int] == list@[i as int]@);
        if list[i].id == id {
            return Some(i);
        }
        i += 1;
    }
    None
}

fn put_message(list: &mut Vec<Message>, m: Message) -> (replaced: bool)
    ensures
        views(final(list)@) == with_message(views(old(list)@), m@),
        replaced == (message_place(views(old(list)@), m@.id, 0) is Some),
{
    let ghost before = views(list@);
    let ghost mv = m@;
    match find_message(list, m.id) {
        Some(p) => {
            list.set(p, m);
            assert(views(list@) =~= before.update(p as int, mv));
            true
        },
        None => {
            list.push(m);
            assert(views(list@) =~= before.push(mv));
            false
        },
    }
}

fn sort_messages(v: &Vec<Message>) -> (r: Vec<Message>)
    ensures
        views(r@) == sort_by(views(v@), by_id()),
{
    let ghost all = views(v@);
    let mut out: Vec<Message> = Vec::new();
    let mut i: usize = 0;
    assert(all.take(0) =~= Seq::<MessageV>::empty());
    assert(views(out@) =~= Seq::<MessageV>::empty());
    while i < v.len()
        invariant
            i <= v.len(),
            all == views(v@),
            views(out@) == sort_by(all.take(i as int), by_id()),
        decreases v.len() - i,
    {
        let m: Message = v[i].clone();
        assert(all[i as int] == v@[i as int]@);
        let mut p: usize = out.len();
        while p > 0 && out[p - 1].id > m.id
            invariant
                p <= out.len(),
                forall|k: int| p <= k < out@.len() ==> !by_id()(#[trigger] views(out@)[k], m@),
            decreases p,
        {
            p -= 1;
            assert(views(out@)[p as int] == out@[p as int]@);
        }
        proof {
            if p > 0 {
                assert(views(out@)[p - 1] == out@[p - 1]@);
            }
            lemma_insert_at(views(out@), m@, by_id(), p as int);
            assert(all.take(i + 1).drop_last() =~= all.take(i as int));
            assert(all.take(i + 1).last() == m@);
        }
        let ghost out0 = views(out@);
        let ghost mv = m@;
        out.insert(p, m);
        assert(views(out@) =~= out0.insert(p as int, mv));
        i += 1;
    }
    assert(all.take(i as int) =~= all);
    out
}

/// The place of the chat `id` in a list, from `i` on.
pub open spec fn chat_place(list: Seq<ChatV>, id: i64, i: int) -> Option<int>
    decreases list.len() - i,
{
    if i < 0 || i >= list.len() {
        None
    } else if list[i].id == id {
        Some(i)
    } else {
        chat_place(list, id, i + 1)
    }
}

pub proof fn lemma_chat_place(list: Seq<ChatV>, id: i64, i: int)
    requires
        0 <= i <= list.len(),
    ensures
        chat_place(list, id, i) matches Some(p) ==> i <= p < list.len() && list[p].id == id,
        chat_place(list, id, i) is None ==> forall|k: int| i <= k < list.len() ==> (#[trigger] list[k]).id != id,
    decreases list.len() - i,
{
    if i < list.len() && list[i].id != id {
        lemma_chat_place(list, id, i + 1);
    }
}

/// A list with a chat put in: in the place of the one with its id, else at the end.
pub open spec fn with_chat(list: Seq<ChatV>, c: ChatV) -> Seq<ChatV> {
    match chat_place(list, c.id, 0) {
        Some(p) => list.update(p, c),
        None => list.push(c),
    }
}

/// A list with several chats put in.
pub open spec fn with_chats(list: Seq<ChatV>, cs: Seq<ChatV>) -> Seq<ChatV>
    decreases cs.len(),
{
    if cs.len() == 0 {
        list
    } else {
        with_chat(with_chats(list, cs.drop_last()), cs.last())
    }
}

/// Chats are ordered by their newest message, the newest first, and by their ids where that is
/// the same.
pub open spec fn newest_first() -> spec_fn(ChatV, ChatV) -> bool {
    |a: ChatV, b: ChatV| a.last_date > b.last_date || (a.last_date == b.last_date && a.id >= b.id)
}

/// Chats after an update: each id once, as told last, the newest first.
pub open spec fn merged(chats: Seq<ChatV>, news: Seq<ChatV>) -> Seq<ChatV> {
    sort_by(with_chats(with_chats(Seq::empty(), chats), news), newest_first())
}

pub(crate) fn find_chat(list: &Vec<Chat>, id: i64) -> (r: Option<usize>)
    ensures
        r is Some <==> chat_place(views(list@), id, 0) is Some,
        r is Some ==> Some(r->0 as int) == chat_place(views(list@), id, 0) && r->0 < list@.len(),
{
    let ghost all = views(list@);
    let mut i: usize = 0;
    while i < list.len()
        invariant
            i <= list.len(),
            all == views(list@),
            chat_place(all, id, 0) == chat_place(all, id, i as int),
        decreases list.len() - i,
    {
        assert(all[i as int] == list@[i as int]@);
        if list[i].id == id {
            return Some(i);
        }
        i += 1;
    }
    None
}

fn put_chats(list: &mut Vec<Chat>, cs: &Vec<Chat>)
    ensures
        views(final(list)@) == with_chats(views(old(list)@), views(cs@)),
{
    let ghost start = views(list@);
    let ghost all = views(cs@);
    let mut i: usize = 0;
    assert(all.take(0) =~= Seq::<ChatV>::empty());
    while i < cs.len()
        invariant
            i <= cs.len(),
            all == views(cs@),
            views(list@) == with_chats(start, all.take(i as int)),
        decreases cs.len() - i,
    {
        assert(all.take(i + 1).drop_last() =~= all.take(i as int));
        assert(all.take(i + 1).last() == cs@[i as int]@);
        let c: Chat = cs[i].clone();
        let ghost cv = c@;
        let ghost before = views(list@);
        match find_chat(list, c.id) {
            Some(p) => {
                list.set(p, c);
                assert(views(list@) =~= before.update(p as int, cv));
            },
            None => {
                list.push(c);
                assert(views(list@) =~= before.push(cv));
            },
        }
        i += 1;
    }
    assert(all.take(i as int) =~= all);
}

fn sort_chats(v: &Vec<Chat>) -> (r: Vec<Chat>)
    ensures
        views(r@) == sort_by(views(v@), newest_first()),
{
    let ghost all = views(v@);
    let mut out: Vec<Chat> = Vec::new();
    let mut i: usize = 0;
    assert(all.take(0) =~= Seq::<ChatV>::empty());
    assert(views(out@) =~= Seq::<ChatV>::empty());
    while i < v.len()
        invariant
            i <= v.len(),
            all == views(v@),
            views(out@) == sort_by(all.take(i as int), newest_first()),
        decreases v.len() - i,
    {
        let c: Chat = v[i].clone();
        assert(all[i as int] == v@[i as int]@);
        let mut p: usize = out.len();
        while p > 0 && (out[p - 1].last_date < c.last_date || (out[p - 1].last_date == c.last_date && out[p - 1].id
            < c.id))
            invariant
                p <= out.len(),
                forall|k: int| p <= k < out@.len() ==> !newest_first()(#[trigger] views(out@)[k], c@),
            decreases p,
        {
            p -= 1;
            assert(views(out@)[p as int] == out@[p as int]@);
        }
        proof {
            if p > 0 {
                assert(views(out@)[p - 1] == out@[p - 1]@);
            }
            lemma_insert_at(views(out@), c@, newest_first(), p as int);
            assert(all.take(i + 1).drop_last() =~= all.take(i as int));
            assert(all.take(i + 1).last() == c@);
        }
        let ghost out0 = views(out@);
        let ghost cv = c@;
        out.insert(p, c);
        assert(views(out@) =~= out0.insert(p as int, cv));
        i += 1;
    }
    assert(all.take(i as int) =~= all);
    out
}

fn merge_lists(chats: &Vec<Chat>, news: &Vec<Chat>) -> (r: Vec<Chat>)
    ensures
        views(r@) == merged(views(chats@), views(news@)),
{
    let mut list: Vec<Chat> = Vec::new();
    assert(views(list@) =~= Seq::<ChatV>::empty());
    put_chats(&mut list, chats);
    put_chats(&mut list, news);
    sort_chats(&list)
}

/// The first chat between two with the address `want`, from `i` on.
pub open spec fn direct_place(chats: Seq<ChatV>, want: Seq<char>, i: int) -> Option<int>
    decreases chats.len() - i,
{
    if i < 0 || i >= chats.len() {
        None
    } else if is_direct(chats[i], want) {
        Some(i)
    } else {
        direct_place(chats, want, i + 1)
    }
}

pub(crate) fn find_direct(chats: &Vec<Chat>, want: &str) -> (r: Option<usize>)
    ensures
        r is Some <==> direct_place(views(chats@), want@, 0) is Some,
        r is Some ==> Some(r->0 as int) == direct_place(views(chats@), want@, 0) && r->0 < chats@.len(),
{
    let ghost all = views(chats@);
    let mut i: usize = 0;
    while i < chats.len()
        invariant
            i <= chats.len(),
            all == views(chats@),
            direct_place(all, want@, 0) == direct_place(all, want@, i as int),
        decreases chats.len() - i,
    {
        let c: &Chat = &chats[i];
        assert(all[i as int] == c@);
        assert(c@.participants.len() == c.participants@.len());
        if !c.is_group && c.participants.len() == 1 {
            assert(c@.participants[0] == c.participants@[0]@);
            if str_same(normalize_address(c.participants[0].address.as_str()).as_str(), want) {
                return Some(i);
            }
        }
        i += 1;
    }
    None
}

/// The place in a list of places of the chat `id`, from `i` on.
pub open spec fn listed_place(chats: Seq<ChatV>, places: Seq<usize>, id: i64, i: int) -> Option<int>
    decreases places.len() - i,
{
    if i < 0 || i >= places.len() {
        None
    } else if chats[places[i] as int].id == id {
        Some(i)
    } else {
        listed_place(chats, places, id, i + 1)
    }
}

/// The state with the selection on the chat `id`, where that is in the list.
pub open spec fn reselected(a: AppV, id: Option<i64>) -> AppV {
    match id {
        Some(id) => match listed_place(a.chats, listed_chats(a), id, 0) {
            Some(p) => AppV { chat_sel: p as usize, ..a },
            None => a,
        },
        None => a,
    }
}

/// The state in which a new conversation has become the chat that it began.
pub open spec fn settled(a: AppV) -> AppV {
    match a.new_chat {
        Some(nc) => match direct_place(a.chats, normalize(nc.address), 0) {
            Some(p) => ensured(AppV { new_chat: None, chat_filter: Seq::empty(), chat_sel: p as usize, ..a }),
            None => a,
        },
        None => a,
    }
}

/// The state after an update of the chats.
pub open spec fn chats_merged(a: AppV, news: Seq<ChatV>) -> AppV {
    let b = reselected(AppV { chats: merged(a.chats, news), ..a }, id_on_screen(a));
    settled(
        if b.new_chat is None {
            tail_asked(ensured(b))
        } else {
            b
        },
    )
}

impl App {
    fn reselect(&mut self, id: Option<i64>)
        ensures
            final(self)@ == reselected(old(self)@, id),
    {
        let want: i64 = match id {
            Some(id) => id,
            None => {
                return;
            },
        };
        let f: Vec<usize> = self.filtered_chats();
        let ghost a = self@;
        let mut i: usize = 0;
        while i < f.len()
            invariant
                i <= f.len(),
                a == self@,
                f@ == listed_chats(a),
                forall|k: int| 0 <= k < f@.len() ==> #[trigger] f@[k] < self.chats@.len(),
                listed_place(a.chats, f@, want, 0) == listed_place(a.chats, f@, want, i as int),
                id == Some(want),
                a == old(self)@,
            decreases f.len() - i,
        {
            assert(f@[i as int] < self.chats@.len());
            assert(a.chats[f@[i as int] as int] == self.chats@[f@[i as int] as int]@);
            if self.chats[f[i]].id == want {
                self.chat_sel = i;
                return;
            }
            i += 1;
        }
    }

    fn settle(&mut self)
        ensures
            final(self)@ == settled(old(self)@),
    {
        let want: String = match &self.new_chat {
            Some(nc) => normalize_address(nc.address.as_str()),
            None => {
                return;
            },
        };
        if let Some(p) = find_direct(&self.chats, want.as_str()) {
            self.new_chat = None;
            self.chat_filter = String::new();
            self.chat_sel = p;
            assert(self.chat_filter@ =~= Seq::<char>::empty());
            self.ensure_messages();
        }
    }

    /// Take in an update of the chats. It may tell of a few recent chats only, so those that are
    /// known stay; the selection stays on its chat.
    pub fn merge_chats(&mut self, chats: Vec<Chat>)
        ensures
            final(self)@ == chats_merged(old(self)@, views(chats@)),
    {
        let cur: Option<i64> = self.current_chat_id();
        self.chats = merge_lists(&self.chats, &chats);
        self.reselect(cur);
        if self.new_chat.is_none() {
            self.ensure_messages();
            self.ensure_tail();
        }
        self.settle();
    }
}

// ----- events -----

/// The state after a message came over the socket. A chat that is not loaded stays so: the
/// message will come with its history.
pub open spec fn message_came(a: AppV, cur: Option<i64>, m: MessageV) -> AppV {
    if a.messages.dom().contains(m.chat_id) {
        let list = a.messages[m.chat_id];
        let new = with_message(list, m);
        AppV {
            messages: a.messages.insert(
                m.chat_id,
                if message_place(list, m.id, 0) is Some {
                    new
                } else {
                    sort_by(new, by_id())
                },
            ),
            ..a
        }
    } else if cur == Some(m.chat_id) {
        ensured(a)
    } else {
        a
    }
}

/// The state after messages came over the socket.
pub open spec fn messages_came(a: AppV, cur: Option<i64>, ms: Seq<MessageV>) -> AppV
    decreases ms.len(),
{
    if ms.len() == 0 {
        a
    } else {
        message_came(messages_came(a, cur, ms.drop_last()), cur, ms.last())
    }
}

/// The state after something came over the socket.
pub open spec fn ws_came(a: AppV, ev: WsEvent) -> AppV {
    match ev {
        WsEvent::Hello { info } => AppV { connected: true, info: Some(info@), status: "connected"@, ..a },
        WsEvent::Messages { messages } => messages_came(a, id_on_screen(a), views(messages@)),
        WsEvent::Chats { chats } => chats_merged(a, views(chats@)),
        WsEvent::Error { message } => AppV { connected: false, status: message@, ..a },
    }
}

/// The messages of a chat as far as they are loaded.
pub open spec fn loaded(a: AppV, id: i64) -> Seq<MessageV> {
    if a.messages.dom().contains(id) {
        a.messages[id]
    } else {
        Seq::empty()
    }
}

/// The state after a page of messages came: earlier ones go before those that are there, and the
/// selection stays on its message.
pub open spec fn page_came(a: AppV, id: i64, page: Seq<MessageV>, has_more: bool, older: bool) -> AppV {
    AppV {
        loading: a.loading.remove(id),
        force_redraw: true,
        has_more: a.has_more.insert(id, has_more),
        messages: a.messages.insert(
            id,
            if older {
                page + loaded(a, id)
            } else {
                page
            },
        ),
        msg_sel: match a.msg_sel {
            Some(s) => if older {
                Some(sat_sum(s as int, page.len() as int) as usize)
            } else {
                Some(s)
            },
            None => None,
        },
        ..a
    }
}

/// What is said of a request to send that was answered.
pub open spec fn send_status(r: Result<SendResponse, String>) -> Seq<char> {
    match r {
        Ok(resp) => if resp.ok {
            "sent"@
        } else {
            "send failed: "@ + (match opt(resp.detail) {
                Some(d) => d,
                None => Seq::empty(),
            })
        },
        Err(e) => "send failed: "@ + e@,
    }
}

/// The state after an event.
pub open spec fn after_event(a: AppV, ev: AppEvent) -> AppV {
    match ev {
        AppEvent::Info(i) => AppV { info: Some(i@), status: "connected"@, ..a },
        AppEvent::Chats(chats) => chats_merged(a, views(chats@)),
        AppEvent::Messages { chat_id, page, older } => page_came(
            a,
            chat_id,
            views(page.messages@),
            page.has_more,
            older,
        ),
        AppEvent::MessagesFailed { chat_id, message } => AppV {
            loading: a.loading.remove(chat_id),
            force_redraw: true,
            status: message@,
            ..a
        },
        AppEvent::Tail { chat_id, messages } => AppV {
            loading: a.loading.remove(chat_id),
            messages: a.messages.insert(
                chat_id,
                sort_by(with_messages(loaded(a, chat_id), views(messages@)), by_id()),
            ),
            ..a
        },
        AppEvent::Contacts(c) => AppV { contacts: views(c@), ..a },
        AppEvent::Sent(r) => AppV { sending: false, status: send_status(r), ..a },
        AppEvent::Uploaded { result, size } => match result {
            Ok(u) => AppV {
                status: "attached "@ + u.name@ + " ("@ + size@ + ")"@,
                pending_files: a.pending_files.push(u@),
                focus: Focus::Compose,
                ..a
            },
            Err(e) => told(a, "upload failed: "@ + e@),
        },
        AppEvent::Search(r) => AppV {
            status: dec(r@.len()) + " result(s)"@,
            search_results: views(r@),
            search_sel: 0,
            ..a
        },
        AppEvent::Status(s) => told(a, s@),
        AppEvent::Ws(ev) => ws_came(a, ev),
    }
}

impl App {
    fn take_list(&mut self, id: i64) -> (r: Vec<Message>)
        ensures
            views(r@) == loaded(old(self)@, id),
            final(self)@ == (AppV { messages: old(self)@.messages.remove(id), ..old(self)@ }),
    {
        let ghost before = self.message_map();
        let taken: Option<Vec<Message>> = self.messages.remove(&id);
        assert(self.message_map() =~= before.remove(id));
        match taken {
            Some(list) => {
                assert(before[id] == views(list@));
                list
            },
            None => {
                let none: Vec<Message> = Vec::new();
                assert(views(none@) =~= Seq::<MessageV>::empty());
                none
            },
        }
    }

    fn put_list(&mut self, id: i64, list: Vec<Message>)
        ensures
            final(self)@ == (AppV { messages: old(self)@.messages.insert(id, views(list@)), ..old(self)@ }),
    {
        let ghost before = self.message_map();
        let ghost lv = views(list@);
        self.messages.insert(id, list);
        assert(self.message_map() =~= before.insert(id, lv));
    }

    fn on_message(&mut self, cur: Option<i64>, m: Message)
        ensures
            final(self)@ == message_came(old(self)@, cur, m@),
    {
        let id: i64 = m.chat_id;
        if self.messages.contains_key(&id) {
            let ghost a = self@;
            let mut list: Vec<Message> = self.take_list(id);
            if put_message(&mut list, m) {
                self.put_list(id, list);
            } else {
                self.put_list(id, sort_messages(&list));
            }
            assert(a.messages.remove(id).insert(id, self@.messages[id]) =~= a.messages.insert(id, self@.messages[id]));
        } else {
            let here: bool = match cur {
                Some(c) => c == id,
                None => false,
            };
            if here {
                self.ensure_messages();
            }
        }
    }

    /// Take in what came over the socket.
    pub fn on_ws(&mut self, ev: WsEvent)
        ensures
            final(self)@ == ws_came(old(self)@, ev),
    {
        match ev {
            WsEvent::Hello { info } => {
                self.connected = true;
                self.info = Some(info);
                self.set_status("connected");
            },
            WsEvent::Messages { messages } => {
                let cur: Option<i64> = self.current_chat_id();
                let ghost a = self@;
                let ghost all = views(messages@);
                let mut i: usize = 0;
                assert(all.take(0) =~= Seq::<MessageV>::empty());
                while i < messages.len()
                    invariant
                        i <= messages.len(),
                        all == views(messages@),
                        self@ == messages_came(a, cur, all.take(i as int)),
                    decreases messages.len() - i,
                {
                    assert(all.take(i + 1).drop_last() =~= all.take(i as int));
                    assert(all.take(i + 1).last() == messages@[i as int]@);
                    self.on_message(cur, messages[i].clone());
                    i += 1;
                }
                assert(all.take(i as int) =~= all);
            },
            WsEvent::Chats { chats } => {
                self.merge_chats(chats);
            },
            WsEvent::Error { message } => {
                self.connected = false;
                self.set_status(message.as_str());
            },
        }
    }

    fn on_page(&mut self, id: i64, page: MessagesPage, older: bool)
        ensures
            final(self)@ == page_came(old(self)@, id, views(page.messages@), page.has_more, older),
    {
        let ghost a = self@;
        let ghost pv = views(page.messages@);
        self.loading.remove(&id);
        self.force_redraw = true;
        self.has_more.insert(id, page.has_more);
        let mut list: Vec<Message> = page.messages;
        let added: usize = list.len();
        assert(pv.len() == added);
        let mut old_list: Vec<Message> = self.take_list(id);
        let ghost ov = views(old_list@);
        if older {
            list.append(&mut old_list);
            assert(views(list@) =~= pv + ov);
            if let Some(s) = self.msg_sel {
                self.msg_sel = Some(plus(s, added));
            }
        }
        self.put_list(id, list);
        assert(a.messages.remove(id).insert(id, self@.messages[id]) =~= a.messages.insert(id, self@.messages[id]));
        assert(self@ =~= page_came(a, id, pv, page.has_more, older));
    }

    fn on_tail(&mut self, id: i64, messages: Vec<Message>)
        ensures
            final(self)@ == (AppV {
                loading: old(self)@.loading.remove(id),
                messages: old(self)@.messages.insert(
                    id,
                    sort_by(with_messages(loaded(old(self)@, id), views(messages@)), by_id()),
                ),
                ..old(self)@
            }),
    {
        let ghost a = self@;
        self.loading.remove(&id);
        let mut list: Vec<Message> = self.take_list(id);
        let ghost start = views(list@);
        let ghost all = views(messages@);
        let mut i: usize = 0;
        assert(all.take(0) =~= Seq::<MessageV>::empty());
        while i < messages.len()
            invariant
                i <= messages.len(),
                all == views(messages@),
                views(list@) == with_messages(start, all.take(i as int)),
            decreases messages.len() - i,
        {
            assert(all.take(i + 1).drop_last() =~= all.take(i as int));
            assert(all.take(i + 1).last() == messages@[i as int]@);
            put_message(&mut list, messages[i].clone());
            i += 1;
        }
        assert(all.take(i as int) =~= all);
        self.put_list(id, sort_messages(&list));
        assert(a.messages.remove(id).insert(id, self@.messages[id]) =~= a.messages.insert(id, self@.messages[id]));
    }

    fn on_sent(&mut self, r: Result<SendResponse, String>)
        ensures
            final(self)@ == (AppV { sending: false, status: send_status(r), ..old(self)@ }),
    {
        self.sending = false;
        match r {
            Ok(resp) => if resp.ok {
                self.set_status("sent");
            } else {
                let detail: String = match &resp.detail {
                    Some(d) => d.clone(),
                    None => String::new(),
                };
                assert(resp.detail is None ==> detail@ =~= Seq::<char>::empty());
                self.set_status(cat2("send failed: ", detail.as_str()).as_str());
            },
            Err(e) => {
                self.set_status(cat2("send failed: ", e.as_str()).as_str());
            },
        }
    }

    fn on_uploaded(&mut self, result: Result<UploadResponse, String>, size: &str)
        ensures
            result matches Ok(u) ==> final(self)@ == (AppV {
                status: "attached "@ + u.name@ + " ("@ + size@ + ")"@,
                pending_files: old(self)@.pending_files.push(u@),
                focus: Focus::Compose,
                ..old(self)@
            }),
            result matches Err(e) ==> final(self)@ == told(old(self)@, "upload failed: "@ + e@),
    {
        match result {
            Ok(u) => {
                self.set_status(
                    cat2(cat3(cat2("attached ", u.name.as_str()).as_str(), " (", size).as_str(), ")").as_str(),
                );
                let ghost before = views(self.pending_files@);
                let ghost uv = u@;
                self.pending_files.push(u);
                assert(views(self.pending_files@) =~= before.push(uv));
                self.focus = Focus::Compose;
            },
            Err(e) => {
                self.set_status(cat2("upload failed: ", e.as_str()).as_str());
            },
        }
    }

    /// Take in an event.
    pub fn on_app_event(&mut self, ev: AppEvent)
        ensures
            final(self)@ == after_event(old(self)@, ev),
    {
        match ev {
            AppEvent::Info(i) => {
                self.info = Some(i);
                self.set_status("connected");
            },
            AppEvent::Chats(chats) => {
                self.merge_chats(chats);
            },
            AppEvent::Messages { chat_id, page, older } => {
                self.on_page(chat_id, page, older);
            },
            AppEvent::MessagesFailed { chat_id, message } => {
                self.loading.remove(&chat_id);
                self.force_redraw = true;
                self.set_status(message.as_str());
            },
            AppEvent::Tail { chat_id, messages } => {
                self.on_tail(chat_id, messages);
            },
            AppEvent::Contacts(c) => {
                self.contacts = c;
            },
            AppEvent::Sent(r) => {
                self.on_sent(r);
            },
            AppEvent::Uploaded { result, size } => {
                self.on_uploaded(result, size.as_str());
            },
            AppEvent::Search(r) => {
                self.set_status(cat2(decimal(r.len() as u64).as_str(), " result(s)").as_str());
                self.search_results = r;
                self.search_sel = 0;
            },
            AppEvent::Status(s) => {
                self.set_status(s.as_str());
            },
            AppEvent::Ws(ev) => {
                self.on_ws(ev);
            },
        }
    }
}

} // verus!
