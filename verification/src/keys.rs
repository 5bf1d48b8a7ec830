//! What the keys do in the terminal client.
use crate::emoji::{emoji_hits, emoji_matches, expand_shortcodes, expanded, hits_are_in_the_table};
use crate::numbers::{dec, decimal};
use crate::screen::{minus, plus, sat_diff};
use crate::state::{
    asked, chat_on_screen, direct_place, ensured, find_direct, listed_chats, messages_on_screen, older_asked, refreshed,
    told, App, AppV, Focus, Mode, NewChat, NewChatV, Request, RequestV,
};
use crate::text::{
    cat2, cat3, chars_of, contains, digits_of, in_order, join, join_strings, keep_digits, lemma_text_le_total,
    lemma_text_le_trans, lowercase, opt, piece, starts_with, str_has, str_has_char, str_starts, string_of,
    strip_prefix, stripped, text_le, to_lowercase, trim, trim_str, views,
};
use crate::wire::{
    clone_opt, empty_request, normalize, normalize_address, Attachment, AttachmentV, Contact, ContactV, Message,
    MessageKind, MessageKindV, MessageV, SendRequest, SendRequestV, TextPartV, UploadResponse, UploadResponseV,
};
use vstd::prelude::*;

verus! {

// ----- keys -----

/// A key.
#[derive(Debug, Clone, Copy, PartialEq, Eq, Structural)]
pub enum Code {
    Char(char),
    Enter,
    Esc,
    Tab,
    BackTab,
    Backspace,
    Up,
    Down,
    Left,
    Right,
    Home,
    End,
    PageUp,
    PageDown,
    Other,
}

/// A key that was pressed.
#[derive(Debug, Clone, Copy, PartialEq, Eq, Structural)]
pub struct Key {
    pub code: Code,
    pub ctrl: bool,
    pub alt: bool,
    pub shift: bool,
}

/// A key that is `c` or `other`.
pub open spec fn either(k: Code, c: char, other: Code) -> bool {
    k == Code::Char(c) || k == other
}

fn is_either(k: Code, c: char, other: Code) -> (r: bool)
    ensures
        r == either(k, c, other),
{
    k == Code::Char(c) || k == other
}

// ----- moving in lists -----

/// A selection some places down in a list of `n`.
pub open spec fn down(sel: usize, n: nat, by: int) -> usize {
    if n == 0 {
        sel
    } else if sel + by < n - 1 {
        (sel + by) as usize
    } else {
        (n - 1) as usize
    }
}

/// A selection some places up in a list.
pub open spec fn up(sel: usize, by: int) -> usize {
    sat_diff(sel as int, by) as usize
}

/// The next selection in a list of `n`, the first after the last.
pub open spec fn next_in(sel: usize, n: nat) -> usize {
    if n == 0 {
        sel
    } else {
        ((sel + 1) % (n as int)) as usize
    }
}

/// The selection before in a list of `n`, the last before the first.
pub open spec fn prev_in(sel: usize, n: nat) -> usize {
    if n == 0 {
        sel
    } else {
        ((sel + n - 1) % (n as int)) as usize
    }
}

fn move_down(sel: usize, n: usize, by: usize) -> (r: usize)
    ensures
        r == down(sel, n as nat, by as int),
{
    if n == 0 {
        sel
    } else {
        let to: usize = plus(sel, by);
        if to < n - 1 {
            to
        } else {
            n - 1
        }
    }
}

fn cycle_next(sel: usize, n: usize) -> (r: usize)
    ensures
        r == next_in(sel, n as nat),
{
    if n == 0 {
        sel
    } else {
        (((sel as u128) + 1) % (n as u128)) as usize
    }
}

fn cycle_prev(sel: usize, n: usize) -> (r: usize)
    ensures
        r == prev_in(sel, n as nat),
{
    if n == 0 {
        sel
    } else {
        (((sel as u128) + (n as u128) - 1) % (n as u128)) as usize
    }
}

fn without_last(s: &str) -> (r: String)
    ensures
        r@ == shortened(s@),
{
    let v: Vec<char> = chars_of(s);
    if v.len() == 0 {
        s.to_owned()
    } else {
        let p: Vec<char> = piece(&v, 0, v.len() - 1);
        assert(p@ =~= s@.drop_last());
        string_of(&p)
    }
}

/// A text without its last character.
pub open spec fn shortened(s: Seq<char>) -> Seq<char> {
    if s.len() == 0 {
        s
    } else {
        s.drop_last()
    }
}

/// The state after the selection moved to another chat.
pub open spec fn chat_moved(a: AppV) -> AppV {
    ensured(AppV { new_chat: None, scroll: 0, msg_sel: None, force_redraw: true, ..a })
}

impl App {
    pub(crate) fn on_chat_changed(&mut self)
        ensures
            final(self)@ == chat_moved(old(self)@),
    {
        self.new_chat = None;
        self.scroll = 0;
        self.msg_sel = None;
        self.force_redraw = true;
        self.ensure_messages();
    }
}

// ----- the chat list -----

/// The state after a key in the chat list.
pub open spec fn chats_key(a: AppV, k: Code) -> AppV {
    let n = listed_chats(a).len();
    if either(k, 'j', Code::Down) {
        chat_moved(AppV { chat_sel: down(a.chat_sel, n, 1), ..a })
    } else if either(k, 'k', Code::Up) {
        chat_moved(AppV { chat_sel: up(a.chat_sel, 1), ..a })
    } else if either(k, 'g', Code::Home) {
        chat_moved(AppV { chat_sel: 0, ..a })
    } else if either(k, 'G', Code::End) {
        chat_moved(
            AppV {
                chat_sel: if n > 0 {
                    (n - 1) as usize
                } else {
                    a.chat_sel
                },
                ..a
            },
        )
    } else if k == Code::PageDown {
        chat_moved(AppV { chat_sel: down(a.chat_sel, n, 10), ..a })
    } else if k == Code::PageUp {
        chat_moved(AppV { chat_sel: up(a.chat_sel, 10), ..a })
    } else if either(k, 'i', Code::Enter) || k == Code::BackTab {
        AppV { focus: Focus::Compose, ..a }
    } else if either(k, 'l', Code::Right) || k == Code::Tab {
        AppV { focus: Focus::Messages, ..a }
    } else if k == Code::Char('/') {
        AppV { mode: Mode::ChatFilter, ..a }
    } else if k == Code::Char('?') {
        AppV { mode: Mode::Help, ..a }
    } else if k == Code::Char('q') {
        AppV { should_quit: true, ..a }
    } else if k == Code::Esc && a.chat_filter.len() > 0 {
        chat_moved(AppV { chat_filter: Seq::empty(), chat_sel: 0, ..a })
    } else {
        a
    }
}

impl App {
    fn key_chats(&mut self, k: Code)
        ensures
            final(self)@ == chats_key(old(self)@, k),
    {
        let n: usize = self.filtered_chats().len();
        if is_either(k, 'j', Code::Down) {
            self.chat_sel = move_down(self.chat_sel, n, 1);
            self.on_chat_changed();
        } else if is_either(k, 'k', Code::Up) {
            self.chat_sel = minus(self.chat_sel, 1);
            self.on_chat_changed();
        } else if is_either(k, 'g', Code::Home) {
            self.chat_sel = 0;
            self.on_chat_changed();
        } else if is_either(k, 'G', Code::End) {
            if n > 0 {
                self.chat_sel = n - 1;
            }
            self.on_chat_changed();
        } else if k == Code::PageDown {
            self.chat_sel = move_down(self.chat_sel, n, 10);
            self.on_chat_changed();
        } else if k == Code::PageUp {
            self.chat_sel = minus(self.chat_sel, 10);
            self.on_chat_changed();
        } else if is_either(k, 'i', Code::Enter) || k == Code::BackTab {
            self.focus = Focus::Compose;
        } else if is_either(k, 'l', Code::Right) || k == Code::Tab {
            self.focus = Focus::Messages;
        } else if k == Code::Char('/') {
            self.mode = Mode::ChatFilter;
        } else if k == Code::Char('?') {
            self.mode = Mode::Help;
        } else if k == Code::Char('q') {
            self.should_quit = true;
        } else if k == Code::Esc && !self.chat_filter.as_str().is_empty() {
            self.chat_filter = String::new();
            assert(self.chat_filter@ =~= Seq::<char>::empty());
            self.chat_sel = 0;
            self.on_chat_changed();
        }
    }
}

/// The state after a key while the chats are filtered.
pub open spec fn filter_key(a: AppV, k: Code) -> AppV {
    match k {
        Code::Esc => chat_moved(AppV { chat_filter: Seq::empty(), mode: Mode::Normal, chat_sel: 0, ..a }),
        Code::Enter => AppV { mode: Mode::Normal, focus: Focus::Chats, ..a },
        Code::Down => AppV { mode: Mode::Normal, focus: Focus::Chats, ..a },
        Code::Tab => AppV { mode: Mode::Normal, focus: Focus::Chats, ..a },
        Code::Backspace => chat_moved(AppV { chat_filter: shortened(a.chat_filter), chat_sel: 0, ..a }),
        Code::Char(c) => chat_moved(AppV { chat_filter: a.chat_filter.push(c), chat_sel: 0, ..a }),
        _ => a,
    }
}

impl App {
    fn key_chat_filter(&mut self, k: Code)
        ensures
            final(self)@ == filter_key(old(self)@, k),
    {
        match k {
            Code::Esc => {
                self.chat_filter = String::new();
                assert(self.chat_filter@ =~= Seq::<char>::empty());
                self.mode = Mode::Normal;
                self.chat_sel = 0;
                self.on_chat_changed();
            },
            Code::Enter | Code::Down | Code::Tab => {
                self.mode = Mode::Normal;
                self.focus = Focus::Chats;
            },
            Code::Backspace => {
                self.chat_filter = without_last(self.chat_filter.as_str());
                self.chat_sel = 0;
                self.on_chat_changed();
            },
            Code::Char(c) => {
                self.chat_filter.push(c);
                self.chat_sel = 0;
                self.on_chat_changed();
            },
            _ => {},
        }
    }
}

// ----- the messages -----

/// The last line that can be scrolled to.
pub open spec fn last_scroll(a: AppV) -> int {
    sat_diff(a.msg_total_lines as int, a.msg_view_height as int)
}

/// The scroll at which the selected message is on the screen: lines are counted from the end, and
/// the screen moves no further than it must.
pub open spec fn scroll_for(a: AppV, first: int, last: int) -> int {
    let total = a.msg_total_lines as int;
    let h = if a.msg_view_height == 0 {
        1
    } else {
        a.msg_view_height as int
    };
    let top = sat_diff(total, h + a.scroll);
    let bottom = sat_diff(total, a.scroll as int);
    if first < top {
        sat_diff(total, h + first)
    } else if last >= bottom {
        sat_diff(total, last + 1)
    } else {
        a.scroll as int
    }
}

/// The state with the selected message on the screen.
pub open spec fn scrolled(a: AppV) -> AppV {
    match a.msg_sel {
        Some(i) => if i < a.msg_line_ranges.len() {
            AppV {
                scroll: scroll_for(
                    a,
                    a.msg_line_ranges[i as int].0 as int,
                    a.msg_line_ranges[i as int].1 as int,
                ) as usize,
                ..a
            }
        } else {
            a
        },
        None => a,
    }
}

impl App {
    /// Adjust scroll so the selected message is visible.
    pub fn scroll_to_selected(&mut self)
        ensures
            final(self)@ == scrolled(old(self)@),
    {
        let i: usize = match self.msg_sel {
            Some(i) => i,
            None => {
                return;
            },
        };
        if i >= self.msg_line_ranges.len() {
            return;
        }
        let first: usize = self.msg_line_ranges[i].0;
        let last: usize = self.msg_line_ranges[i].1;
        let total: usize = self.msg_total_lines;
        let h: usize = if self.msg_view_height == 0 { 1 } else { self.msg_view_height };
        let top: usize = minus(total, plus(h, self.scroll));
        let bottom: usize = minus(total, self.scroll);
        if first < top {
            self.scroll = minus(total, plus(h, first));
        } else if last >= bottom {
            self.scroll = minus(total, plus(last, 1));
        }
    }

    /// Take in what was drawn: how many lines, how many fit, and which belong to each message.
    /// Returns the first line on the screen.
    pub fn set_view(&mut self, total: usize, height: usize, ranges: Vec<(usize, usize)>) -> (offset: usize)
        ensures
            final(self)@ == viewed(old(self)@, total, height, ranges@),
            offset == sat_diff(total as int, height + final(self)@.scroll),
    {
        self.msg_total_lines = total;
        self.msg_view_height = height;
        self.msg_line_ranges = ranges;
        let most: usize = minus(total, height);
        if self.scroll > most {
            self.scroll = most;
        }
        minus(total, plus(height, self.scroll))
    }
}

/// The state after the messages were drawn.
pub open spec fn viewed(a: AppV, total: usize, height: usize, ranges: Seq<(usize, usize)>) -> AppV {
    let most = sat_diff(total as int, height as int) as usize;
    AppV {
        msg_total_lines: total,
        msg_view_height: height,
        msg_line_ranges: ranges,
        scroll: if a.scroll > most {
            most
        } else {
            a.scroll
        },
        ..a
    }
}

/// The selected message.
pub open spec fn selected(a: AppV) -> Option<MessageV> {
    match a.msg_sel {
        Some(i) => if i < messages_on_screen(a).len() {
            Some(messages_on_screen(a)[i as int])
        } else {
            None
        },
        None => None,
    }
}

/// The attachments whose files can be had.
pub open spec fn on_hand(atts: Seq<AttachmentV>) -> Seq<AttachmentV>
    decreases atts.len(),
{
    if atts.len() == 0 {
        Seq::empty()
    } else if atts.last().available {
        on_hand(atts.drop_last()).push(atts.last())
    } else {
        on_hand(atts.drop_last())
    }
}

/// The first link among effects, from `i` on.
pub open spec fn link_in(effects: Seq<Seq<char>>, i: int) -> Option<Seq<char>>
    decreases effects.len() - i,
{
    if i < 0 || i >= effects.len() {
        None
    } else {
        match strip_prefix(effects[i], "link:"@) {
            Some(u) => Some(u),
            None => link_in(effects, i + 1),
        }
    }
}

/// The first link among the parts of a message, from `i` on.
pub open spec fn link_from(parts: Seq<TextPartV>, i: int) -> Option<Seq<char>>
    decreases parts.len() - i,
{
    if i < 0 || i >= parts.len() {
        None
    } else {
        match link_in(parts[i].effects, 0) {
            Some(u) => Some(u),
            None => link_from(parts, i + 1),
        }
    }
}

/// The link of a message: the first in its text, else that of its balloon.
pub open spec fn link_of(m: MessageV) -> Option<Seq<char>> {
    match link_from(m.parts, 0) {
        Some(u) => Some(u),
        None => match m.kind {
            MessageKindV::App { bundle_id, title, summary, url } => url,
            _ => None,
        },
    }
}

/// The state after the selected message was opened: its files, else its link.
pub open spec fn opened(a: AppV) -> AppV {
    match selected(a) {
        Some(m) => {
            let atts = on_hand(m.attachments);
            if atts.len() == 0 {
                match link_of(m) {
                    Some(u) => told(asked(a, RequestV::OpenUrl { url: u }), "opened "@ + u),
                    None => told(a, "nothing to open on this message"@),
                }
            } else {
                asked(
                    told(a, "downloading "@ + dec(atts.len()) + " attachment(s)…"@),
                    RequestV::Open { attachments: atts },
                )
            }
        },
        None => a,
    }
}

/// The state after the files of the selected message were asked to be saved.
pub open spec fn saved(a: AppV) -> AppV {
    match selected(a) {
        Some(m) => if on_hand(m.attachments).len() == 0 {
            told(a, "no attachments on this message"@)
        } else {
            asked(a, RequestV::Save { attachments: on_hand(m.attachments) })
        },
        None => a,
    }
}

/// The state after the text of the selected message was copied.
pub open spec fn copied(a: AppV) -> AppV {
    match selected(a) {
        Some(m) => match m.text {
            Some(t) => told(asked(a, RequestV::Copy { text: t }), "copied"@),
            None => a,
        },
        None => a,
    }
}

/// The state after a move to the message before.
pub open spec fn message_up(a: AppV) -> AppV {
    let n = messages_on_screen(a).len();
    scrolled(
        match a.msg_sel {
            None => if n > 0 {
                AppV { msg_sel: Some((n - 1) as usize), ..a }
            } else {
                a
            },
            Some(i) => if i == 0 {
                older_asked(a)
            } else {
                AppV { msg_sel: Some((i - 1) as usize), ..a }
            },
        },
    )
}

/// The state after a move to the message after.
pub open spec fn message_down(a: AppV) -> AppV {
    let n = messages_on_screen(a).len();
    scrolled(
        match a.msg_sel {
            None => a,
            Some(i) => if i + 1 >= n {
                AppV { msg_sel: None, scroll: 0, ..a }
            } else {
                AppV { msg_sel: Some((i + 1) as usize), ..a }
            },
        },
    )
}

/// The state after half a screen up.
pub open spec fn page_up(a: AppV) -> AppV {
    let most = last_scroll(a);
    let to = a.scroll + a.msg_view_height / 2;
    let b = AppV {
        msg_sel: None,
        scroll: (if to < most {
            to
        } else {
            most
        }) as usize,
        ..a
    };
    if to >= most {
        older_asked(b)
    } else {
        b
    }
}

/// The state after a key in the messages.
pub open spec fn messages_key(a: AppV, k: Code) -> AppV {
    if either(k, 'k', Code::Up) {
        message_up(a)
    } else if either(k, 'j', Code::Down) {
        message_down(a)
    } else if either(k, 'u', Code::PageUp) {
        page_up(a)
    } else if either(k, 'd', Code::PageDown) {
        AppV { msg_sel: None, scroll: sat_diff(a.scroll as int, a.msg_view_height as int / 2) as usize, ..a }
    } else if either(k, 'g', Code::Home) {
        older_asked(AppV { msg_sel: None, scroll: last_scroll(a) as usize, ..a })
    } else if either(k, 'G', Code::End) {
        AppV { msg_sel: None, scroll: 0, ..a }
    } else if either(k, 'o', Code::Enter) && a.msg_sel is Some {
        opened(a)
    } else if k == Code::Char('s') && a.msg_sel is Some {
        saved(a)
    } else if k == Code::Char('y') && a.msg_sel is Some {
        copied(a)
    } else if either(k, 'i', Code::Enter) || k == Code::Tab {
        AppV { focus: Focus::Compose, ..a }
    } else if either(k, 'h', Code::Left) || k == Code::BackTab {
        AppV { focus: Focus::Chats, ..a }
    } else if k == Code::Esc {
        if a.msg_sel is Some {
            AppV { msg_sel: None, ..a }
        } else {
            AppV { focus: Focus::Chats, ..a }
        }
    } else if k == Code::Char('/') {
        AppV { focus: Focus::Chats, mode: Mode::ChatFilter, ..a }
    } else if k == Code::Char('?') {
        AppV { mode: Mode::Help, ..a }
    } else if k == Code::Char('q') {
        AppV { should_quit: true, ..a }
    } else {
        a
    }
}

fn available_of(atts: &Vec<Attachment>) -> (r: Vec<Attachment>)
    ensures
        views(r@) == on_hand(views(atts@)),
{
    let ghost all = views(atts@);
    let mut out: Vec<Attachment> = Vec::new();
    let mut i: usize = 0;
    assert(all.take(0) =~= Seq::<AttachmentV>::empty());
    assert(views(out@) =~= on_hand(all.take(0)));
    while i < atts.len()
        invariant
            i <= atts.len(),
            all == views(atts@),
            views(out@) == on_hand(all.take(i as int)),
        decreases atts.len() - i,
    {
        assert(all.take(i + 1).drop_last() =~= all.take(i as int));
        assert(all.take(i + 1).last() == atts@[i as int]@);
        if atts[i].available {
            let ghost before = views(out@);
            out.push(atts[i].clone());
            assert(views(out@) =~= before.push(atts@[i as int]@));
        }
        i += 1;
    }
    assert(all.take(i as int) =~= all);
    out
}

fn find_link(effects: &Vec<String>) -> (r: Option<String>)
    ensures
        opt(r) == link_in(views(effects@), 0),
{
    let ghost all = views(effects@);
    let mut i: usize = 0;
    while i < effects.len()
        invariant
            i <= effects.len(),
            all == views(effects@),
            link_in(all, 0) == link_in(all, i as int),
        decreases effects.len() - i,
    {
        assert(all[i as int] == effects@[i as int]@);
        if let Some(u) = stripped(&chars_of(effects[i].as_str()), "link:") {
            return Some(string_of(&u));
        }
        i += 1;
    }
    None
}

fn message_link(m: &Message) -> (r: Option<String>)
    ensures
        opt(r) == link_of(m@),
{
    let ghost all = m@.parts;
    let mut i: usize = 0;
    while i < m.parts.len()
        invariant
            i <= m.parts@.len(),
            all == m@.parts,
            all == views(m.parts@),
            link_from(all, 0) == link_from(all, i as int),
        decreases m.parts@.len() - i,
    {
        assert(all[i as int] == m.parts@[i as int]@);
        if let Some(u) = find_link(&m.parts[i].effects) {
            return Some(u);
        }
        i += 1;
    }
    match &m.kind {
        MessageKind::App { bundle_id, title, summary, url } => clone_opt(url),
        _ => None,
    }
}

impl App {
    fn open_selected_attachments(&mut self)
        ensures
            final(self)@ == opened(old(self)@),
    {
        let i: usize = match self.msg_sel {
            Some(i) => i,
            None => {
                return;
            },
        };
        let (atts, link): (Vec<Attachment>, Option<String>) = match self.message_at(i) {
            Some(m) => (available_of(&m.attachments), message_link(m)),
            None => {
                return;
            },
        };
        assert(views(atts@).len() == atts@.len());
        if atts.len() == 0 {
            match link {
                Some(u) => {
                    let status: String = cat2("opened ", u.as_str());
                    self.ask(Request::OpenUrl { url: u });
                    self.set_status(status.as_str());
                },
                None => {
                    self.set_status("nothing to open on this message");
                },
            }
            return;
        }
        self.set_status(cat3("downloading ", decimal(atts.len() as u64).as_str(), " attachment(s)…").as_str());
        self.ask(Request::Open { attachments: atts });
    }

    fn save_selected_attachments(&mut self)
        ensures
            final(self)@ == saved(old(self)@),
    {
        let i: usize = match self.msg_sel {
            Some(i) => i,
            None => {
                return;
            },
        };
        let atts: Vec<Attachment> = match self.message_at(i) {
            Some(m) => available_of(&m.attachments),
            None => {
                return;
            },
        };
        assert(views(atts@).len() == atts@.len());
        if atts.len() == 0 {
            self.set_status("no attachments on this message");
            return;
        }
        self.ask(Request::Save { attachments: atts });
    }

    fn copy_selected(&mut self)
        ensures
            final(self)@ == copied(old(self)@),
    {
        let i: usize = match self.msg_sel {
            Some(i) => i,
            None => {
                return;
            },
        };
        let text: Option<String> = match self.message_at(i) {
            Some(m) => clone_opt(&m.text),
            None => {
                return;
            },
        };
        if let Some(t) = text {
            self.ask(Request::Copy { text: t });
            self.set_status("copied");
        }
    }

    fn move_message_up(&mut self)
        ensures
            final(self)@ == message_up(old(self)@),
    {
        let n: usize = self.message_count();
        match self.msg_sel {
            None => {
                if n > 0 {
                    self.msg_sel = Some(n - 1);
                }
            },
            Some(i) => {
                if i == 0 {
                    self.load_older();
                } else {
                    self.msg_sel = Some(i - 1);
                }
            },
        }
        self.scroll_to_selected();
    }

    fn move_message_down(&mut self)
        ensures
            final(self)@ == message_down(old(self)@),
    {
        let n: usize = self.message_count();
        if let Some(i) = self.msg_sel {
            if i >= n || i + 1 >= n {
                self.msg_sel = None;
                self.scroll = 0;
            } else {
                self.msg_sel = Some(i + 1);
            }
        }
        self.scroll_to_selected();
    }

    fn move_page_up(&mut self)
        ensures
            final(self)@ == page_up(old(self)@),
    {
        self.msg_sel = None;
        let most: usize = minus(self.msg_total_lines, self.msg_view_height);
        let to: usize = plus(self.scroll, self.msg_view_height / 2);
        self.scroll = if to < most { to } else { most };
        if self.scroll >= most {
            self.load_older();
        }
    }

    fn key_messages(&mut self, k: Code)
        ensures
            final(self)@ == messages_key(old(self)@, k),
    {
        let some: bool = self.msg_sel.is_some();
        if is_either(k, 'k', Code::Up) {
            self.move_message_up();
        } else if is_either(k, 'j', Code::Down) {
            self.move_message_down();
        } else if is_either(k, 'u', Code::PageUp) {
            self.move_page_up();
        } else if is_either(k, 'd', Code::PageDown) {
            self.msg_sel = None;
            self.scroll = minus(self.scroll, self.msg_view_height / 2);
        } else if is_either(k, 'g', Code::Home) {
            self.msg_sel = None;
            self.scroll = minus(self.msg_total_lines, self.msg_view_height);
            self.load_older();
        } else if is_either(k, 'G', Code::End) {
            self.msg_sel = None;
            self.scroll = 0;
        } else if is_either(k, 'o', Code::Enter) && some {
            self.open_selected_attachments();
        } else if k == Code::Char('s') && some {
            self.save_selected_attachments();
        } else if k == Code::Char('y') && some {
            self.copy_selected();
        } else if is_either(k, 'i', Code::Enter) || k == Code::Tab {
            self.focus = Focus::Compose;
        } else if is_either(k, 'h', Code::Left) || k == Code::BackTab {
            self.focus = Focus::Chats;
        } else if k == Code::Esc {
            if some {
                self.msg_sel = None;
            } else {
                self.focus = Focus::Chats;
            }
        } else if k == Code::Char('/') {
            self.focus = Focus::Chats;
            self.mode = Mode::ChatFilter;
        } else if k == Code::Char('?') {
            self.mode = Mode::Help;
        } else if k == Code::Char('q') {
            self.should_quit = true;
        }
    }
}

// ----- composing -----

/// The text that would be sent: the lines of the compose box, with shortcodes expanded and
/// without surrounding white space.
pub open spec fn outgoing(lines: Seq<Seq<char>>) -> Seq<char> {
    trim(expanded(join(lines, "\n"@)))
}

/// The uploads of files that wait to be sent.
pub open spec fn upload_ids(files: Seq<UploadResponseV>) -> Seq<Seq<char>> {
    Seq::new(files.len(), |i: int| files[i].id)
}

/// The request to send a text and the waiting files; none where nothing says to whom.
pub open spec fn send_request(a: AppV, text: Seq<char>) -> Option<SendRequestV> {
    let r = SendRequestV {
        text: if text.len() == 0 {
            None
        } else {
            Some(text)
        },
        uploads: upload_ids(a.pending_files),
        ..empty_request()
    };
    match a.new_chat {
        Some(nc) => Some(SendRequestV { to: seq![nc.address], ..r }),
        None => match chat_on_screen(a) {
            Some(c) => Some(SendRequestV { chat_guid: Some(c.guid), ..r }),
            None => None,
        },
    }
}

/// The state after a text was sent off.
pub open spec fn text_sent(a: AppV, text: Seq<char>) -> AppV {
    if text.len() == 0 && a.pending_files.len() == 0 {
        a
    } else {
        match send_request(a, text) {
            Some(request) => AppV {
                pending_files: Seq::empty(),
                sending: true,
                status: "sending…"@,
                outbox: a.outbox.push(RequestV::ClearCompose).push(RequestV::Send { request }),
                ..a
            },
            None => told(a, "no conversation selected"@),
        }
    }
}

fn ids_of(files: &Vec<UploadResponse>) -> (r: Vec<String>)
    ensures
        views(r@) == upload_ids(views(files@)),
{
    let mut out: Vec<String> = Vec::new();
    let mut i: usize = 0;
    while i < files.len()
        invariant
            i <= files.len(),
            out@.len() == i,
            forall|k: int| 0 <= k < i ==> #[trigger] out@[k]@ == files@[k].id@,
        decreases files.len() - i,
    {
        out.push(files[i].id.clone());
        i += 1;
    }
    assert(views(out@) =~= upload_ids(views(files@)));
    out
}

impl App {
    /// Send a text and the waiting files to the conversation on the screen.
    pub fn send_text(&mut self, text: String)
        ensures
            final(self)@ == text_sent(old(self)@, text@),
    {
        let ghost a = self@;
        assert(views(self.pending_files@).len() == self.pending_files@.len());
        let ghost tv = text@;
        if text.as_str().is_empty() && self.pending_files.len() == 0 {
            return;
        }
        let mut to: Vec<String> = Vec::new();
        let mut chat_guid: Option<String> = None;
        let fresh: Option<String> = match &self.new_chat {
            Some(nc) => Some(nc.address.clone()),
            None => None,
        };
        match fresh {
            Some(address) => {
                to.push(address);
                assert(views(to@) =~= seq![a.new_chat->0.address]);
            },
            None => {
                match self.current_chat() {
                    Some(c) => {
                        chat_guid = Some(c.guid.clone());
                    },
                    None => {
                        self.set_status("no conversation selected");
                        return;
                    },
                }
                assert(views(to@) =~= Seq::<Seq<char>>::empty());
            },
        }
        let body: Option<String> = if text.as_str().is_empty() { None } else { Some(text) };
        let paths: Vec<String> = Vec::new();
        assert(views(paths@) =~= Seq::<Seq<char>>::empty());
        let request: SendRequest = SendRequest {
            chat_guid,
            to,
            text: body,
            uploads: ids_of(&self.pending_files),
            paths,
        };
        assert(request@ =~= send_request(a, tv)->0);
        self.pending_files = Vec::new();
        assert(views(self.pending_files@) =~= Seq::<UploadResponseV>::empty());
        self.sending = true;
        self.set_status("sending…");
        self.ask(Request::ClearCompose);
        self.ask(Request::Send { request });
    }

    /// Send what the compose box holds.
    pub fn send(&mut self, lines: &Vec<String>)
        ensures
            final(self)@ == text_sent(old(self)@, outgoing(views(lines@))),
    {
        let raw: String = join_strings(lines, "\n");
        let text: String = trim_str(expand_shortcodes(raw.as_str()).as_str());
        self.send_text(text);
    }
}

/// The compose box holds nothing.
pub open spec fn is_blank(lines: Seq<Seq<char>>) -> bool {
    forall|i: int| 0 <= i < lines.len() ==> (#[trigger] lines[i]).len() == 0
}

/// The state after a key in the compose box, which holds `lines`.
pub open spec fn compose_key(a: AppV, k: Key, lines: Seq<Seq<char>>) -> AppV {
    if k.code == Code::Esc {
        AppV { focus: Focus::Messages, ..a }
    } else if k.code == Code::Enter && (k.alt || k.shift) {
        asked(a, RequestV::Newline)
    } else if k.code == Code::Char('j') && k.ctrl {
        asked(a, RequestV::Newline)
    } else if k.code == Code::Enter {
        text_sent(a, outgoing(lines))
    } else if k.code == Code::Tab {
        AppV { focus: Focus::Chats, ..a }
    } else if k.code == Code::BackTab {
        AppV { focus: Focus::Messages, ..a }
    } else if k.code == Code::Up && lines.len() <= 1 && is_blank(lines) {
        AppV { focus: Focus::Messages, ..a }
    } else if k.code == Code::Backspace && is_blank(lines) && a.pending_files.len() > 0 {
        AppV { pending_files: a.pending_files.drop_last(), ..a }
    } else {
        asked(a, RequestV::Input)
    }
}

fn all_blank(lines: &Vec<String>) -> (r: bool)
    ensures
        r == is_blank(views(lines@)),
{
    let mut i: usize = 0;
    while i < lines.len()
        invariant
            i <= lines.len(),
            forall|k: int| 0 <= k < i ==> (#[trigger] views(lines@)[k]).len() == 0,
        decreases lines.len() - i,
    {
        if !lines[i].as_str().is_empty() {
            assert(views(lines@)[i as int].len() > 0);
            return false;
        }
        i += 1;
    }
    true
}

impl App {
    fn key_compose(&mut self, k: Key, lines: &Vec<String>)
        ensures
            final(self)@ == compose_key(old(self)@, k, views(lines@)),
    {
        assert(views(lines@).len() == lines@.len());
        assert(views(self.pending_files@).len() == self.pending_files@.len());
        if k.code == Code::Esc {
            self.focus = Focus::Messages;
        } else if k.code == Code::Enter && (k.alt || k.shift) {
            self.ask(Request::Newline);
        } else if k.code == Code::Char('j') && k.ctrl {
            self.ask(Request::Newline);
        } else if k.code == Code::Enter {
            self.send(lines);
        } else if k.code == Code::Tab {
            self.focus = Focus::Chats;
        } else if k.code == Code::BackTab {
            self.focus = Focus::Messages;
        } else if k.code == Code::Up && lines.len() <= 1 && all_blank(lines) {
            self.focus = Focus::Messages;
        } else if k.code == Code::Backspace && all_blank(lines) && self.pending_files.len() > 0 {
            let ghost before = views(self.pending_files@);
            let _ = self.pending_files.pop();
            assert(views(self.pending_files@) =~= before.drop_last());
        } else {
            self.ask(Request::Input);
        }
    }
}

// ----- the emoji picker -----

/// The places of the emoji that the picker shows.
pub open spec fn emoji_list(a: AppV) -> Seq<usize> {
    emoji_hits(a.emojis, a.emoji_query)
}

/// The state after a key in the emoji picker.
pub open spec fn emoji_key(a: AppV, k: Code) -> AppV {
    let hits = emoji_list(a);
    match k {
        Code::Esc => AppV { mode: Mode::Normal, ..a },
        Code::Enter => if a.emoji_sel < hits.len() {
            AppV {
                mode: Mode::Normal,
                focus: Focus::Compose,
                ..asked(a, RequestV::Insert { text: a.emojis[hits[a.emoji_sel as int] as int].glyph })
            }
        } else {
            a
        },
        Code::Down => AppV { emoji_sel: next_in(a.emoji_sel, hits.len()), ..a },
        Code::Tab => AppV { emoji_sel: next_in(a.emoji_sel, hits.len()), ..a },
        Code::Up => AppV { emoji_sel: prev_in(a.emoji_sel, hits.len()), ..a },
        Code::BackTab => AppV { emoji_sel: prev_in(a.emoji_sel, hits.len()), ..a },
        Code::Backspace => AppV { emoji_query: shortened(a.emoji_query), emoji_sel: 0, ..a },
        Code::Char(c) => AppV { emoji_query: a.emoji_query.push(c), emoji_sel: 0, ..a },
        _ => a,
    }
}

impl App {
    /// The places of the emoji that the picker shows.
    pub fn emoji_matches(&self) -> (r: Vec<usize>)
        ensures
            r@ == emoji_list(self@),
            forall|k: int| 0 <= k < r@.len() ==> #[trigger] r@[k] < self.emojis@.len(),
    {
        let r: Vec<usize> = emoji_matches(&self.emojis, self.emoji_query.as_str());
        let n: usize = self.emojis.len();
        assert(views(self.emojis@).len() == n);
        assert forall|k: int| 0 <= k < r@.len() implies #[trigger] r@[k] < self.emojis@.len() by {
            hits_are_in_the_table(views(self.emojis@), self.emoji_query@, k);
        }
        r
    }

    fn key_emoji(&mut self, k: Code)
        ensures
            final(self)@ == emoji_key(old(self)@, k),
    {
        let hits: Vec<usize> = self.emoji_matches();
        let n: usize = hits.len();
        match k {
            Code::Esc => {
                self.mode = Mode::Normal;
            },
            Code::Enter => {
                if self.emoji_sel < n {
                    let at: usize = hits[self.emoji_sel];
                    assert(hits@[self.emoji_sel as int] < self.emojis@.len());
                    let text: String = self.emojis[at].glyph.clone();
                    self.ask(Request::Insert { text });
                    self.mode = Mode::Normal;
                    self.focus = Focus::Compose;
                }
            },
            Code::Down | Code::Tab => {
                self.emoji_sel = cycle_next(self.emoji_sel, n);
            },
            Code::Up | Code::BackTab => {
                self.emoji_sel = cycle_prev(self.emoji_sel, n);
            },
            Code::Backspace => {
                self.emoji_query = without_last(self.emoji_query.as_str());
                self.emoji_sel = 0;
            },
            Code::Char(c) => {
                self.emoji_query.push(c);
                self.emoji_sel = 0;
            },
            _ => {},
        }
    }
}

// ----- the contact picker -----

/// A name, an address, and the contact that has them.
#[verifier::ext_equal]
pub struct HitV {
    pub name: Seq<char>,
    pub address: Seq<char>,
    pub contact_id: Option<i64>,
}

/// A name, an address, and the contact that has them.
#[derive(Debug)]
pub struct Hit {
    pub name: String,
    pub address: String,
    pub contact_id: Option<i64>,
}

impl View for Hit {
    type V = HitV;

    open spec fn view(&self) -> HitV {
        HitV { name: self.name@, address: self.address@, contact_id: self.contact_id }
    }
}

/// One of the addresses holds `q`, whatever the case of its letters.
pub open spec fn any_holds(addresses: Seq<Seq<char>>, q: Seq<char>) -> bool {
    exists|i: int| 0 <= i < addresses.len() && contains(lowercase(#[trigger] addresses[i]), q)
}

/// A contact that a query `q` in lower case finds: by the name or an address.
pub open spec fn contact_found(c: ContactV, q: Seq<char>) -> bool {
    q.len() == 0 || contains(lowercase(c.name), q) || any_holds(c.phones, q) || any_holds(c.emails, q)
}

/// A contact once for each of its addresses.
pub open spec fn contact_hits(c: ContactV) -> Seq<HitV> {
    Seq::new(c.phones.len(), |i: int| HitV { name: c.name, address: c.phones[i], contact_id: Some(c.id) }) + Seq::new(
        c.emails.len(),
        |i: int| HitV { name: c.name, address: c.emails[i], contact_id: Some(c.id) },
    )
}

/// The addresses that a query finds among the first `n` contacts. The search ends with more than
/// 200.
pub open spec fn contact_scan(cs: Seq<ContactV>, q: Seq<char>, n: int) -> Seq<HitV>
    decreases n,
{
    if n <= 0 {
        Seq::empty()
    } else {
        let before = contact_scan(cs, q, n - 1);
        if before.len() <= 200 && contact_found(cs[n - 1], q) {
            before + contact_hits(cs[n - 1])
        } else {
            before
        }
    }
}

/// A query that may be an address itself: an email, or a number of seven digits or more.
pub open spec fn is_address(raw: Seq<char>) -> bool {
    raw.len() > 0 && (raw.contains('@') || digits_of(raw).len() >= 7)
}

/// What the contact picker shows: the query itself where it may be an address, then what it finds
/// among the contacts.
pub open spec fn picker_list(a: AppV) -> Seq<HitV> {
    let raw = trim(a.picker_query);
    let found = contact_scan(a.contacts, lowercase(a.picker_query), a.contacts.len() as int);
    if is_address(raw) {
        seq![HitV { name: "Send to \""@ + raw + "\""@, address: raw, contact_id: None }] + found
    } else {
        found
    }
}

/// The state in which a conversation with an address begins: with the chat where there is one,
/// else with a new one.
pub open spec fn conversation(a: AppV, name: Seq<char>, address: Seq<char>) -> AppV {
    let b = AppV { chat_filter: Seq::empty(), ..a };
    let c = match direct_place(b.chats, normalize(address), 0) {
        Some(p) => chat_moved(AppV { new_chat: None, chat_sel: p as usize, ..b }),
        None => AppV {
            new_chat: Some(
                NewChatV {
                    address,
                    name: if starts_with(name, "Send to"@) {
                        address
                    } else {
                        name
                    },
                },
            ),
            scroll: 0,
            msg_sel: None,
            ..b
        },
    };
    AppV { focus: Focus::Compose, ..c }
}

/// The state after a key in the contact picker.
pub open spec fn contacts_key(a: AppV, k: Code) -> AppV {
    let hits = picker_list(a);
    match k {
        Code::Esc => AppV { mode: Mode::Normal, ..a },
        Code::Enter => if a.picker_sel < hits.len() {
            AppV {
                mode: Mode::Normal,
                ..conversation(a, hits[a.picker_sel as int].name, hits[a.picker_sel as int].address)
            }
        } else {
            a
        },
        Code::Down => AppV { picker_sel: next_in(a.picker_sel, hits.len()), ..a },
        Code::Tab => AppV { picker_sel: next_in(a.picker_sel, hits.len()), ..a },
        Code::Up => AppV { picker_sel: prev_in(a.picker_sel, hits.len()), ..a },
        Code::BackTab => AppV { picker_sel: prev_in(a.picker_sel, hits.len()), ..a },
        Code::Backspace => AppV { picker_query: shortened(a.picker_query), picker_sel: 0, ..a },
        Code::Char(c) => AppV { picker_query: a.picker_query.push(c), picker_sel: 0, ..a },
        _ => a,
    }
}

fn holds(addresses: &Vec<String>, q: &str) -> (r: bool)
    ensures
        r == any_holds(views(addresses@), q@),
{
    let mut i: usize = 0;
    while i < addresses.len()
        invariant
            i <= addresses.len(),
            forall|k: int| 0 <= k < i ==> !contains(lowercase(#[trigger] views(addresses@)[k]), q@),
        decreases addresses.len() - i,
    {
        if str_has(to_lowercase(addresses[i].as_str()).as_str(), q) {
            assert(contains(lowercase(views(addresses@)[i as int]), q@));
            return true;
        }
        i += 1;
    }
    false
}

fn push_hits(out: &mut Vec<Hit>, c: &Contact)
    ensures
        views(final(out)@) == views(old(out)@) + contact_hits(c@),
{
    let ghost start = views(out@);
    let ghost phones = Seq::new(
        c@.phones.len(),
        |i: int| HitV { name: c@.name, address: c@.phones[i], contact_id: Some(c@.id) },
    );
    let ghost emails = Seq::new(
        c@.emails.len(),
        |i: int| HitV { name: c@.name, address: c@.emails[i], contact_id: Some(c@.id) },
    );
    let mut i: usize = 0;
    assert(views(out@) =~= start + phones.take(0));
    while i < c.phones.len()
        invariant
            i <= c.phones@.len(),
            phones.len() == c.phones@.len(),
            forall|k: int|
                0 <= k < phones.len() ==> #[trigger] phones[k] == (HitV {
                    name: c.name@,
                    address: c.phones@[k]@,
                    contact_id: Some(c.id),
                }),
            views(out@) == start + phones.take(i as int),
        decreases c.phones@.len() - i,
    {
        let ghost before = views(out@);
        out.push(Hit { name: c.name.clone(), address: c.phones[i].clone(), contact_id: Some(c.id) });
        assert(views(out@) =~= before.push(phones[i as int]));
        assert(phones.take(i + 1) =~= phones.take(i as int).push(phones[i as int]));
        assert(views(out@) =~= start + phones.take(i + 1));
        i += 1;
    }
    assert(phones.take(i as int) =~= phones);
    let mut j: usize = 0;
    assert(views(out@) =~= start + phones + emails.take(0));
    while j < c.emails.len()
        invariant
            j <= c.emails@.len(),
            emails.len() == c.emails@.len(),
            forall|k: int|
                0 <= k < emails.len() ==> #[trigger] emails[k] == (HitV {
                    name: c.name@,
                    address: c.emails@[k]@,
                    contact_id: Some(c.id),
                }),
            views(out@) == start + phones + emails.take(j as int),
        decreases c.emails@.len() - j,
    {
        let ghost before = views(out@);
        out.push(Hit { name: c.name.clone(), address: c.emails[j].clone(), contact_id: Some(c.id) });
        assert(views(out@) =~= before.push(emails[j as int]));
        assert(emails.take(j + 1) =~= emails.take(j as int).push(emails[j as int]));
        assert(views(out@) =~= start + phones + emails.take(j + 1));
        j += 1;
    }
    assert(emails.take(j as int) =~= emails);
    assert(views(out@) =~= start + contact_hits(c@));
}

impl App {
    /// What the contact picker shows.
    pub fn contact_matches(&self) -> (r: Vec<Hit>)
        ensures
            views(r@) == picker_list(self@),
    {
        let q: String = to_lowercase(self.picker_query.as_str());
        let raw: String = trim_str(self.picker_query.as_str());
        let ghost cs = views(self.contacts@);
        let digits: Vec<char> = keep_digits(&chars_of(raw.as_str()));
        let mut out: Vec<Hit> = Vec::new();
        let ghost mut head = Seq::<HitV>::empty();
        assert(views(out@) =~= Seq::<HitV>::empty());
        if !raw.as_str().is_empty() && (str_has_char(raw.as_str(), '@') || digits.len() >= 7) {
            out.push(
                Hit {
                    name: cat3("Send to \"", raw.as_str(), "\""),
                    address: raw.clone(),
                    contact_id: None,
                },
            );
            proof {
                head = seq![HitV { name: "Send to \""@ + raw@ + "\""@, address: raw@, contact_id: None }];
            }
        }
        let first: usize = out.len();
        assert(views(out@) =~= head);
        let mut i: usize = 0;
        assert(views(out@) =~= head + contact_scan(cs, q@, 0));
        while i < self.contacts.len()
            invariant
                i <= self.contacts@.len(),
                cs == views(self.contacts@),
                first == head.len(),
                views(out@) == head + contact_scan(cs, q@, i as int),
            decreases self.contacts@.len() - i,
        {
            let c: &Contact = &self.contacts[i];
            assert(cs[i as int] == c@);
            assert(views(out@).len() == out@.len());
            let ghost before = views(out@);
            if out.len() - first <= 200 {
                let hit: bool = q.as_str().is_empty() || str_has(
                    to_lowercase(c.name.as_str()).as_str(),
                    q.as_str(),
                ) || holds(&c.phones, q.as_str()) || holds(&c.emails, q.as_str());
                if hit {
                    push_hits(&mut out, c);
                    assert(views(out@) =~= head + (contact_scan(cs, q@, i as int) + contact_hits(c@)));
                }
            }
            i += 1;
        }
        assert(views(out@) =~= picker_list(self@));
        out
    }

    /// Begin a conversation with an address.
    pub fn start_conversation(&mut self, name: &str, address: &str)
        ensures
            final(self)@ == conversation(old(self)@, name@, address@),
    {
        let want: String = normalize_address(address);
        self.chat_filter = String::new();
        assert(self.chat_filter@ =~= Seq::<char>::empty());
        match find_direct(&self.chats, want.as_str()) {
            Some(p) => {
                self.new_chat = None;
                self.chat_sel = p;
                self.on_chat_changed();
            },
            None => {
                let shown: String = if str_starts(name, "Send to") { address.to_owned() } else { name.to_owned() };
                self.new_chat = Some(NewChat { address: address.to_owned(), name: shown });
                self.scroll = 0;
                self.msg_sel = None;
            },
        }
        self.focus = Focus::Compose;
    }

    fn key_contacts(&mut self, k: Code)
        ensures
            final(self)@ == contacts_key(old(self)@, k),
    {
        let hits: Vec<Hit> = self.contact_matches();
        let n: usize = hits.len();
        assert(views(hits@).len() == n);
        match k {
            Code::Esc => {
                self.mode = Mode::Normal;
            },
            Code::Enter => {
                if self.picker_sel < n {
                    let h: &Hit = &hits[self.picker_sel];
                    assert(views(hits@)[self.picker_sel as int] == h@);
                    self.start_conversation(h.name.as_str(), h.address.as_str());
                    self.mode = Mode::Normal;
                }
            },
            Code::Down | Code::Tab => {
                self.picker_sel = cycle_next(self.picker_sel, n);
            },
            Code::Up | Code::BackTab => {
                self.picker_sel = cycle_prev(self.picker_sel, n);
            },
            Code::Backspace => {
                self.picker_query = without_last(self.picker_query.as_str());
                self.picker_sel = 0;
            },
            Code::Char(c) => {
                self.picker_query.push(c);
                self.picker_sel = 0;
            },
            _ => {},
        }
    }
}

// ----- attaching files -----

/// The state after a key while the path of a file is typed.
pub open spec fn attach_key(a: AppV, k: Code) -> AppV {
    match k {
        Code::Esc => AppV { mode: Mode::Normal, ..a },
        Code::Enter => {
            let b = AppV { mode: Mode::Normal, ..a };
            if trim(a.attach_input).len() > 0 {
                asked(b, RequestV::CheckFile { path: trim(a.attach_input) })
            } else {
                b
            }
        },
        Code::Backspace => AppV { attach_input: shortened(a.attach_input), ..a },
        Code::Tab => asked(a, RequestV::CompletePath { input: a.attach_input }),
        Code::Char(c) => AppV { attach_input: a.attach_input.push(c), ..a },
        _ => a,
    }
}

/// The state after it was seen whether there is a file at a path.
pub open spec fn file_checked(a: AppV, path: Seq<char>, exists_there: bool) -> AppV {
    if exists_there {
        asked(told(a, "uploading "@ + path + "…"@), RequestV::Upload { path })
    } else {
        told(a, "no such file: "@ + path)
    }
}

impl App {
    /// Upload the file at a path, or say that there is none.
    pub fn attach(&mut self, path: &str, exists_there: bool)
        ensures
            final(self)@ == file_checked(old(self)@, path@, exists_there),
    {
        if !exists_there {
            self.set_status(cat2("no such file: ", path).as_str());
            return;
        }
        self.set_status(cat3("uploading ", path, "…").as_str());
        self.ask(Request::Upload { path: path.to_owned() });
    }

    /// Take over a path that was completed.
    pub fn completed(&mut self, path: Option<String>)
        ensures
            final(self)@ == (match opt(path) {
                Some(p) => AppV { attach_input: p, ..old(self)@ },
                None => old(self)@,
            }),
    {
        if let Some(p) = path {
            self.attach_input = p;
        }
    }

    fn key_attach(&mut self, k: Code)
        ensures
            final(self)@ == attach_key(old(self)@, k),
    {
        match k {
            Code::Esc => {
                self.mode = Mode::Normal;
            },
            Code::Enter => {
                self.mode = Mode::Normal;
                let p: String = trim_str(self.attach_input.as_str());
                if !p.as_str().is_empty() {
                    self.ask(Request::CheckFile { path: p });
                }
            },
            Code::Backspace => {
                self.attach_input = without_last(self.attach_input.as_str());
            },
            Code::Tab => {
                let input: String = self.attach_input.clone();
                self.ask(Request::CompletePath { input });
            },
            Code::Char(c) => {
                self.attach_input.push(c);
            },
            _ => {},
        }
    }
}

/// The completion of a path: the first of the names in a directory that start with `prefix`.
pub open spec fn first_with(names: Seq<Seq<char>>, prefix: Seq<char>) -> Option<int>
    decreases names.len(),
{
    if names.len() == 0 {
        None
    } else {
        let before = first_with(names.drop_last(), prefix);
        let n = names.len() - 1;
        if !starts_with(names.last(), prefix) {
            before
        } else {
            match before {
                Some(p) => if text_le(names[p], names.last()) {
                    Some(p)
                } else {
                    Some(n)
                },
                None => Some(n),
            }
        }
    }
}

/// A completion starts with what was typed.
pub proof fn completions_start_with_the_prefix(names: Seq<Seq<char>>, prefix: Seq<char>)
    ensures
        first_with(names, prefix) matches Some(p) ==> 0 <= p < names.len() && starts_with(names[p], prefix),
    decreases names.len(),
{
    if names.len() > 0 {
        completions_start_with_the_prefix(names.drop_last(), prefix);
    }
}

/// Where a name starts with what was typed there is a completion, and no such name comes before
/// it in order.
pub proof fn completions_come_first(names: Seq<Seq<char>>, prefix: Seq<char>, k: int)
    requires
        0 <= k < names.len(),
        starts_with(names[k], prefix),
    ensures
        first_with(names, prefix) matches Some(p) && text_le(names[p], names[k]),
    decreases names.len(),
{
    let before = names.drop_last();
    completions_start_with_the_prefix(before, prefix);
    lemma_text_le_total(names.last(), names.last());
    if k < before.len() {
        completions_come_first(before, prefix, k);
        let p = first_with(before, prefix)->0;
        assert(names[p] == before[p]);
        lemma_text_le_total(names[p], names.last());
        if starts_with(names.last(), prefix) && !text_le(names[p], names.last()) {
            lemma_text_le_trans(names.last(), names[p], names[k]);
        }
    }
}

/// The place of the name that completes `prefix`: the first in order of those that start with it.
pub fn complete_name(names: &Vec<String>, prefix: &str) -> (r: Option<usize>)
    ensures
        r is Some <==> first_with(views(names@), prefix@) is Some,
        r is Some ==> Some(r->0 as int) == first_with(views(names@), prefix@) && r->0 < names@.len(),
{
    let ghost all = views(names@);
    let mut best: Option<usize> = None;
    let mut i: usize = 0;
    assert(all.take(0) =~= Seq::<Seq<char>>::empty());
    while i < names.len()
        invariant
            i <= names.len(),
            all == views(names@),
            best is Some <==> first_with(all.take(i as int), prefix@) is Some,
            best matches Some(b) ==> Some(b as int) == first_with(all.take(i as int), prefix@) && b < i,
        decreases names.len() - i,
    {
        assert(all.take(i + 1).drop_last() =~= all.take(i as int));
        assert(all.take(i + 1).last() == names@[i as int]@);
        if str_starts(names[i].as_str(), prefix) {
            match best {
                Some(b) => {
                    assert(all.take(i as int)[b as int] == names@[b as int]@);
                    if !in_order(&chars_of(names[b].as_str()), &chars_of(names[i].as_str())) {
                        best = Some(i);
                    }
                },
                None => {
                    best = Some(i);
                },
            }
        }
        i += 1;
    }
    assert(all.take(i as int) =~= all);
    best
}

// ----- searching -----

/// The state after a search was asked for.
pub open spec fn search_asked(a: AppV) -> AppV {
    let q = trim(a.search_query);
    if q.len() == 0 {
        a
    } else {
        asked(told(a, "searching \""@ + q + "\"…"@), RequestV::Search { query: q })
    }
}

/// The state after a search result was gone to: the chat that it is in, where that is known.
pub open spec fn jumped(a: AppV, m: MessageV) -> AppV {
    let b = AppV { chat_filter: Seq::empty(), ..a };
    AppV {
        mode: Mode::Normal,
        ..(match crate::state::chat_place(b.chats, m.chat_id, 0) {
            Some(p) => AppV { focus: Focus::Messages, ..chat_moved(AppV { chat_sel: p as usize, ..b }) },
            None => b,
        })
    }
}

/// The state after a key while messages are searched.
pub open spec fn search_key(a: AppV, k: Code) -> AppV {
    let n = a.search_results.len();
    match k {
        Code::Esc => AppV { mode: Mode::Normal, ..a },
        Code::Enter => if n == 0 {
            search_asked(a)
        } else if a.search_sel < n {
            jumped(a, a.search_results[a.search_sel as int])
        } else {
            a
        },
        Code::Down => AppV { search_sel: next_in(a.search_sel, n), ..a },
        Code::Tab => AppV { search_sel: next_in(a.search_sel, n), ..a },
        Code::Up => AppV { search_sel: prev_in(a.search_sel, n), ..a },
        Code::BackTab => AppV { search_sel: prev_in(a.search_sel, n), ..a },
        Code::Backspace => AppV { search_query: shortened(a.search_query), search_results: Seq::empty(), ..a },
        Code::Char(c) => AppV { search_query: a.search_query.push(c), search_results: Seq::empty(), ..a },
        _ => a,
    }
}

impl App {
    fn run_search(&mut self)
        ensures
            final(self)@ == search_asked(old(self)@),
    {
        let q: String = trim_str(self.search_query.as_str());
        if q.as_str().is_empty() {
            return;
        }
        self.set_status(cat3("searching \"", q.as_str(), "\"…").as_str());
        self.ask(Request::Search { query: q });
    }

    fn jump(&mut self, chat_id: i64)
        ensures
            forall|m: MessageV| m.chat_id == chat_id ==> final(self)@ == #[trigger] jumped(old(self)@, m),
    {
        self.chat_filter = String::new();
        assert(self.chat_filter@ =~= Seq::<char>::empty());
        if let Some(p) = crate::state::find_chat(&self.chats, chat_id) {
            self.chat_sel = p;
            self.on_chat_changed();
            self.focus = Focus::Messages;
        }
        self.mode = Mode::Normal;
    }

    fn clear_results(&mut self)
        ensures
            final(self)@ == (AppV { search_results: Seq::empty(), ..old(self)@ }),
    {
        self.search_results = Vec::new();
        assert(views(self.search_results@) =~= Seq::<MessageV>::empty());
    }

    fn key_search(&mut self, k: Code)
        ensures
            final(self)@ == search_key(old(self)@, k),
    {
        let n: usize = self.search_results.len();
        assert(views(self.search_results@).len() == n);
        match k {
            Code::Esc => {
                self.mode = Mode::Normal;
            },
            Code::Enter => {
                if n == 0 {
                    self.run_search();
                } else if self.search_sel < n {
                    let ghost m = self@.search_results[self.search_sel as int];
                    let ghost a = self@;
                    let chat_id: i64 = self.search_results[self.search_sel].chat_id;
                    assert(m == self.search_results@[self.search_sel as int]@);
                    self.jump(chat_id);
                    assert(self@ == jumped(a, m));
                }
            },
            Code::Down | Code::Tab => {
                self.search_sel = cycle_next(self.search_sel, n);
            },
            Code::Up | Code::BackTab => {
                self.search_sel = cycle_prev(self.search_sel, n);
            },
            Code::Backspace => {
                self.search_query = without_last(self.search_query.as_str());
                self.clear_results();
            },
            Code::Char(c) => {
                self.search_query.push(c);
                self.clear_results();
            },
            _ => {},
        }
    }
}

// ----- all keys -----

/// The state with the contact picker open.
pub open spec fn picker_opened(a: AppV) -> AppV {
    AppV {
        mode: Mode::Contacts,
        picker_query: Seq::empty(),
        picker_sel: 0,
        ..(if a.contacts.len() == 0 {
            asked(a, RequestV::LoadContacts)
        } else {
            a
        })
    }
}

/// The state after a key that is the same everywhere; none for any other key.
pub open spec fn global_key(a: AppV, k: Key) -> Option<AppV> {
    if !k.ctrl {
        None
    } else if k.code == Code::Char('c') || k.code == Code::Char('q') {
        Some(AppV { should_quit: true, ..a })
    } else if k.code == Code::Char('r') {
        Some(told(refreshed(a), "refreshed"@))
    } else if k.code == Code::Char('l') {
        Some(AppV { force_redraw: true, ..a })
    } else if k.code == Code::Char('n') {
        Some(picker_opened(a))
    } else if k.code == Code::Char('e') {
        Some(AppV { mode: Mode::Emoji, emoji_query: Seq::empty(), emoji_sel: 0, ..a })
    } else if k.code == Code::Char('f') {
        Some(AppV { mode: Mode::Attach, attach_input: Seq::empty(), ..a })
    } else if k.code == Code::Char('s') {
        Some(AppV { mode: Mode::Search, ..a })
    } else {
        None
    }
}

/// The state after a key by what the keys are for.
pub open spec fn mode_key(a: AppV, k: Key, lines: Seq<Seq<char>>) -> AppV {
    match a.mode {
        Mode::Help => AppV { mode: Mode::Normal, ..a },
        Mode::ChatFilter => filter_key(a, k.code),
        Mode::Emoji => emoji_key(a, k.code),
        Mode::Contacts => contacts_key(a, k.code),
        Mode::Attach => attach_key(a, k.code),
        Mode::Search => search_key(a, k.code),
        Mode::Normal => match a.focus {
            Focus::Chats => chats_key(a, k.code),
            Focus::Messages => messages_key(a, k.code),
            Focus::Compose => compose_key(a, k, lines),
        },
    }
}

/// The state after a key, with `lines` in the compose box.
pub open spec fn after_key(a: AppV, k: Key, lines: Seq<Seq<char>>) -> AppV {
    match global_key(a, k) {
        Some(b) => b,
        None => mode_key(a, k, lines),
    }
}

impl App {
    fn open_contacts(&mut self)
        ensures
            final(self)@ == picker_opened(old(self)@),
    {
        assert(views(self.contacts@).len() == self.contacts@.len());
        if self.contacts.len() == 0 {
            self.load_contacts();
        }
        self.mode = Mode::Contacts;
        self.picker_query = String::new();
        assert(self.picker_query@ =~= Seq::<char>::empty());
        self.picker_sel = 0;
    }

    fn on_global_key(&mut self, k: Key) -> (done: bool)
        ensures
            done == (global_key(old(self)@, k) is Some),
            done ==> final(self)@ == global_key(old(self)@, k)->0,
            !done ==> final(self)@ == old(self)@,
    {
        if !k.ctrl {
            return false;
        }
        if k.code == Code::Char('c') || k.code == Code::Char('q') {
            self.should_quit = true;
        } else if k.code == Code::Char('r') {
            self.refresh_current();
            self.set_status("refreshed");
        } else if k.code == Code::Char('l') {
            self.force_redraw = true;
        } else if k.code == Code::Char('n') {
            self.open_contacts();
        } else if k.code == Code::Char('e') {
            self.mode = Mode::Emoji;
            self.emoji_query = String::new();
            assert(self.emoji_query@ =~= Seq::<char>::empty());
            self.emoji_sel = 0;
        } else if k.code == Code::Char('f') {
            self.mode = Mode::Attach;
            self.attach_input = String::new();
            assert(self.attach_input@ =~= Seq::<char>::empty());
        } else if k.code == Code::Char('s') {
            self.mode = Mode::Search;
        } else {
            return false;
        }
        true
    }

    /// Take in a key, with `lines` in the compose box.
    pub fn on_key(&mut self, k: Key, lines: &Vec<String>)
        ensures
            final(self)@ == after_key(old(self)@, k, views(lines@)),
    {
        if self.on_global_key(k) {
            return;
        }
        match self.mode {
            Mode::Help => {
                self.mode = Mode::Normal;
            },
            Mode::ChatFilter => {
                self.key_chat_filter(k.code);
            },
            Mode::Emoji => {
                self.key_emoji(k.code);
            },
            Mode::Contacts => {
                self.key_contacts(k.code);
            },
            Mode::Attach => {
                self.key_attach(k.code);
            },
            Mode::Search => {
                self.key_search(k.code);
            },
            Mode::Normal => match self.focus {
                Focus::Chats => {
                    self.key_chats(k.code);
                },
                Focus::Messages => {
                    self.key_messages(k.code);
                },
                Focus::Compose => {
                    self.key_compose(k, lines);
                },
            },
        }
    }
}

} // verus!
