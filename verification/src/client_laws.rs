//! What the terminal client does with events and keys.
use crate::emoji::{
    closed_code, code_of, emoji_for, emoji_hits, emoji_scan, expanded, is_code, left_of, EmojiEntry, EmojiEntryV,
};
use crate::keys::{
    after_key, chat_moved, contact_hits, contact_scan, conversation, emoji_list, file_checked, link_from, link_in,
    link_of, on_hand, opened, picker_list, saved, scrolled, text_sent, upload_ids, viewed, Code, Hit, HitV, Key,
};
use crate::laws::bare;
use crate::numbers::dec;
use crate::screen::sat_diff;
use crate::state::{
    after_event, chat_on_screen, chat_passes, chat_place, direct_place, ensured, fresh_app, id_on_screen,
    lemma_chat_place, lemma_message_place, lemma_passing, listed_chats, loaded, message_place, messages_on_screen,
    older_asked, page_came, passing, refreshed, settled, tail_asked, with_message, with_messages, App, AppEvent, AppV,
    Focus, Mode, NewChatV, Purpose, Request, RequestV,
};
use crate::text::{
    after_last, contains, digits_of, is_white, join, lowercase, opt, position, starts_with, strip_prefix, trim, views,
};
use crate::text_laws::positions_are_first_and_last;
use crate::wire::{
    normalize, title_of, AttachmentV, ChatV, ContactV, MessageKindV, MessageV, MessagesPage, TextPartV, WsEvent,
};
use vstd::prelude::*;

verus! {

// ----- what stands for a value -----

/// The contents of the client are those of its fields.
pub proof fn client_contents(a: App, id: i64)
    ensures
        a@.info == opt(a.info),
        a@.connected == a.connected,
        a@.chats == views(a.chats@),
        a@.chat_sel == a.chat_sel,
        a@.chat_filter == a.chat_filter@,
        a@.messages.dom().contains(id) <==> a.messages@.dom().contains(id),
        a.messages@.dom().contains(id) ==> a@.messages[id] == views(a.messages@[id]@),
        a@.has_more == a.has_more@,
        a@.loading == a.loading@,
        a@.scroll == a.scroll,
        a@.msg_sel == a.msg_sel,
        a@.pending_files == views(a.pending_files@),
        a@.focus == a.focus,
        a@.mode == a.mode,
        a@.status == a.status@,
        a@.contacts == views(a.contacts@),
        a@.picker_query == a.picker_query@,
        a@.picker_sel == a.picker_sel,
        a@.emoji_query == a.emoji_query@,
        a@.emoji_sel == a.emoji_sel,
        a@.attach_input == a.attach_input@,
        a@.search_query == a.search_query@,
        a@.search_results == views(a.search_results@),
        a@.search_sel == a.search_sel,
        a@.new_chat == opt(a.new_chat),
        a@.sending == a.sending,
        a@.should_quit == a.should_quit,
        a@.force_redraw == a.force_redraw,
        a@.msg_view_height == a.msg_view_height,
        a@.msg_total_lines == a.msg_total_lines,
        a@.msg_line_ranges == a.msg_line_ranges@,
        a@.emojis == views(a.emojis@),
        a@.outbox == views(a.outbox@),
{
}

/// The contents of a request, an emoji and a hit are those of their fields.
pub proof fn request_and_hit_contents(r: Request, e: EmojiEntry, h: Hit)
    ensures
        match r {
            Request::LoadInfo => r@ is LoadInfo,
            Request::LoadChats => r@ is LoadChats,
            Request::LoadContacts => r@ is LoadContacts,
            Request::LoadMessages { chat_id, before, limit, purpose } => r@ == (RequestV::LoadMessages {
                chat_id,
                before,
                limit,
                purpose,
            }),
            Request::Send { request } => r@ == (RequestV::Send { request: request@ }),
            Request::CheckFile { path } => r@ == (RequestV::CheckFile { path: path@ }),
            Request::Upload { path } => r@ == (RequestV::Upload { path: path@ }),
            Request::OpenUrl { url } => r@ == (RequestV::OpenUrl { url: url@ }),
            Request::Open { attachments } => r@ == (RequestV::Open { attachments: views(attachments@) }),
            Request::Save { attachments } => r@ == (RequestV::Save { attachments: views(attachments@) }),
            Request::Search { query } => r@ == (RequestV::Search { query: query@ }),
            Request::Copy { text } => r@ == (RequestV::Copy { text: text@ }),
            Request::CompletePath { input } => r@ == (RequestV::CompletePath { input: input@ }),
            Request::Newline => r@ is Newline,
            Request::ClearCompose => r@ is ClearCompose,
            Request::Insert { text } => r@ == (RequestV::Insert { text: text@ }),
            Request::Input => r@ is Input,
        },
        e@.glyph == e.glyph@,
        e@.name == e.name@,
        e@.shortcodes == views(e.shortcodes@),
        h@.name == h.name@,
        h@.address == h.address@,
        h@.contact_id == h.contact_id,
{
}

/// A client starts in the chat list, with nothing loaded, asked for or typed.
pub proof fn clients_start_empty(emojis: Seq<EmojiEntryV>)
    ensures
        ({
            let a = fresh_app(emojis);
            &&& a.info is None && !a.connected && !a.sending && !a.should_quit && !a.force_redraw
            &&& a.chats.len() == 0 && a.contacts.len() == 0 && a.search_results.len() == 0 && a.pending_files.len() == 0
            &&& a.messages.dom() == Set::<i64>::empty() && a.loading == Set::<i64>::empty() && a.has_more.dom()
                == Set::<i64>::empty()
            &&& a.chat_sel == 0 && a.scroll == 0 && a.msg_sel is None && a.picker_sel == 0 && a.emoji_sel == 0
                && a.search_sel == 0
            &&& a.chat_filter.len() == 0 && a.picker_query.len() == 0 && a.emoji_query.len() == 0 && a.attach_input.len()
                == 0 && a.search_query.len() == 0
            &&& a.focus == Focus::Chats && a.mode == Mode::Normal && a.new_chat is None
            &&& a.status == "connecting…"@
            &&& a.emojis == emojis
            &&& a.outbox.len() == 0
        }),
{
    assert(fresh_app(emojis).messages.dom() =~= Set::<i64>::empty());
    assert(fresh_app(emojis).has_more.dom() =~= Set::<i64>::empty());
}

// ----- the chat on the screen -----

/// A filter finds a chat by a part of its title, of the address of a member, or of its newest
/// message, whatever the case of the letters; and by nothing else.
pub proof fn filters_look_at_titles_addresses_and_previews(c: ChatV, q: Seq<char>, i: int)
    ensures
        contains(lowercase(title_of(c)), q) ==> chat_passes(c, q),
        0 <= i < c.participants.len() && contains(lowercase(c.participants[i].address), q) ==> chat_passes(c, q),
        c.last_preview is Some && contains(lowercase(c.last_preview->0), q) ==> chat_passes(c, q),
        chat_passes(c, q) ==> contains(lowercase(title_of(c)), q) || (exists|k: int|
            0 <= k < c.participants.len() && contains(lowercase((#[trigger] c.participants[k]).address), q)) || contains(
            lowercase(
                match c.last_preview {
                    Some(p) => p,
                    None => Seq::empty(),
                },
            ),
            q,
        ),
{
    if 0 <= i < c.participants.len() && contains(lowercase(c.participants[i].address), q) {
        assert(contains(lowercase(c.participants[i].address), q));
    }
}

proof fn lemma_passing_rises(chats: Seq<ChatV>, q: Seq<char>, n: int)
    requires
        0 <= n <= chats.len() <= usize::MAX,
    ensures
        forall|i: int, j: int|
            0 <= i < j < passing(chats, q, n).len() ==> (#[trigger] passing(chats, q, n)[i]) < (#[trigger] passing(
                chats,
                q,
                n,
            )[j]),
        forall|p: int| #![trigger chats[p]] 0 <= p < n && chat_passes(chats[p], q) ==> passing(chats, q, n).contains(p as usize),
    decreases n,
{
    if n > 0 {
        lemma_passing_rises(chats, q, n - 1);
        lemma_passing(chats, q, n - 1);
        let b = passing(chats, q, n - 1);
        let l = passing(chats, q, n);
        assert forall|i: int, j: int| 0 <= i < j < l.len() implies (#[trigger] l[i]) < (#[trigger] l[j]) by {
            if j < b.len() {
                assert(b[i] < b[j]);
            } else {
                assert(b[i] < n - 1);
            }
        }
        assert forall|p: int| #![trigger chats[p]] 0 <= p < n && chat_passes(chats[p], q) implies l.contains(p as usize) by {
            if p < n - 1 {
                assert(b.contains(p as usize));
                let k = choose|k: int| 0 <= k < b.len() && b[k] == p as usize;
                assert(l[k] == p as usize);
            } else {
                assert(l[l.len() - 1] == p as usize);
            }
        }
    }
}

/// The list on the screen has the chats that the filter lets through, all of them and each once, in
/// their order; without a filter, all chats.
pub proof fn the_list_has_what_the_filter_lets_through(a: AppV, p: int, i: int, j: int)
    requires
        a.chats.len() <= usize::MAX,
        0 <= p < a.chats.len(),
    ensures
        ({
            let l = listed_chats(a);
            let q = lowercase(a.chat_filter);
            &&& a.chat_filter.len() == 0 ==> l.len() == a.chats.len() && l[p] == p
            &&& a.chat_filter.len() > 0 && chat_passes(a.chats[p], q) ==> l.contains(p as usize)
            &&& a.chat_filter.len() > 0 && 0 <= i < l.len() ==> l[i] < a.chats.len() && chat_passes(a.chats[l[i] as int], q)
            &&& 0 <= i < j < l.len() ==> l[i] < l[j]
        }),
{
    let q = lowercase(a.chat_filter);
    lemma_passing_rises(a.chats, q, a.chats.len() as int);
    lemma_passing(a.chats, q, a.chats.len() as int);
    let l = listed_chats(a);
    if a.chat_filter.len() > 0 && 0 <= i < l.len() {
        assert(passing(a.chats, q, a.chats.len() as int)[i] < a.chats.len());
    }
}

/// The chat on the screen is the selected one of the list, unless a new conversation is open; its
/// messages are those that are loaded for it.
pub proof fn the_selected_chat_is_on_the_screen(a: AppV)
    ensures
        a.new_chat is Some ==> chat_on_screen(a) is None,
        a.new_chat is None && a.chat_sel < listed_chats(a).len() ==> chat_on_screen(a) == Some(
            a.chats[listed_chats(a)[a.chat_sel as int] as int],
        ),
        a.chat_sel >= listed_chats(a).len() ==> chat_on_screen(a) is None,
        chat_on_screen(a) matches Some(c) ==> id_on_screen(a) == Some(c.id) && (a.messages.dom().contains(c.id)
            ==> messages_on_screen(a) == a.messages[c.id]) && (!a.messages.dom().contains(c.id) ==> messages_on_screen(
            a,
        ).len() == 0),
        chat_on_screen(a) is None ==> id_on_screen(a) is None && messages_on_screen(a).len() == 0,
{
}

/// Messages of the chat on the screen are asked for once: the newest 60 where none are loaded, 60
/// before the first where there are earlier ones, the newest 30 where the chat list tells of
/// something more than half a second newer.
pub proof fn messages_are_asked_for(a: AppV, id: i64)
    requires
        id_on_screen(a) == Some(id),
    ensures
        ({
            let here = a.messages.dom().contains(id);
            let busy = a.loading.contains(id);
            let list = a.messages[id];
            let more = a.has_more.dom().contains(id) && a.has_more[id];
            let newest = if list.len() == 0 {
                0int
            } else {
                list[list.len() - 1].date as int
            };
            &&& here || busy ==> ensured(a) == a
            &&& !here && !busy ==> ensured(a) == (AppV {
                loading: a.loading.insert(id),
                outbox: a.outbox.push(
                    RequestV::LoadMessages { chat_id: id, before: None, limit: 60, purpose: Purpose::First },
                ),
                ..a
            })
            &&& busy || !more || !here || list.len() == 0 ==> older_asked(a) == a
            &&& !busy && more && here && list.len() > 0 ==> older_asked(a) == (AppV {
                loading: a.loading.insert(id),
                outbox: a.outbox.push(
                    RequestV::LoadMessages {
                        chat_id: id,
                        before: Some(list[0].id),
                        limit: 60,
                        purpose: Purpose::Older,
                    },
                ),
                ..a
            })
            &&& !here || busy || chat_on_screen(a)->0.last_date <= newest + 500 ==> tail_asked(a) == a
            &&& here && !busy && chat_on_screen(a)->0.last_date > newest + 500 ==> tail_asked(a) == (AppV {
                loading: a.loading.insert(id),
                outbox: a.outbox.push(
                    RequestV::LoadMessages { chat_id: id, before: None, limit: 30, purpose: Purpose::Tail },
                ),
                ..a
            })
        }),
{
}

/// Nothing is asked for where no chat is on the screen.
pub proof fn nothing_is_asked_for_without_a_chat(a: AppV)
    requires
        id_on_screen(a) is None,
    ensures
        ensured(a) == a,
        older_asked(a) == a,
        tail_asked(a) == a,
        refreshed(a) == (AppV { outbox: a.outbox.push(RequestV::LoadChats), ..a }),
{
}

/// A refresh forgets the messages of the chat on the screen and asks for them and the chats anew.
pub proof fn refreshing_asks_anew(a: AppV, id: i64)
    requires
        id_on_screen(a) == Some(id),
        !a.loading.contains(id),
    ensures
        refreshed(a) == (AppV {
            messages: a.messages.remove(id),
            loading: a.loading.insert(id),
            outbox: a.outbox.push(
                RequestV::LoadMessages { chat_id: id, before: None, limit: 60, purpose: Purpose::First },
            ).push(RequestV::LoadChats),
            ..a
        }),
{
    let b = AppV { messages: a.messages.remove(id), ..a };
    assert(listed_chats(b) == listed_chats(a));
    assert(id_on_screen(b) == Some(id));
    messages_are_asked_for(b, id);
}

// ----- events -----

/// What each event from the server changes, and that it changes nothing else.
pub proof fn events_change_what_they_tell(a: AppV, ev: AppEvent)
    ensures
        match ev {
            AppEvent::Info(i) => after_event(a, ev) == (AppV { info: Some(i@), status: "connected"@, ..a }),
            AppEvent::Contacts(c) => after_event(a, ev) == (AppV { contacts: views(c@), ..a }),
            AppEvent::Status(s) => after_event(a, ev) == (AppV { status: s@, ..a }),
            AppEvent::MessagesFailed { chat_id, message } => after_event(a, ev) == (AppV {
                loading: a.loading.remove(chat_id),
                force_redraw: true,
                status: message@,
                ..a
            }),
            AppEvent::Sent(Ok(r)) => {
                &&& r.ok ==> after_event(a, ev) == (AppV { sending: false, status: "sent"@, ..a })
                &&& !r.ok ==> (r.detail matches Some(d) ==> after_event(a, ev) == (AppV {
                    sending: false,
                    status: "send failed: "@ + d@,
                    ..a
                }))
            },
            AppEvent::Sent(Err(e)) => after_event(a, ev) == (AppV {
                sending: false,
                status: "send failed: "@ + e@,
                ..a
            }),
            AppEvent::Uploaded { result: Ok(u), size } => after_event(a, ev) == (AppV {
                status: "attached "@ + u.name@ + " ("@ + size@ + ")"@,
                pending_files: a.pending_files.push(u@),
                focus: Focus::Compose,
                ..a
            }),
            AppEvent::Uploaded { result: Err(e), size } => after_event(a, ev) == (AppV {
                status: "upload failed: "@ + e@,
                ..a
            }),
            AppEvent::Search(r) => after_event(a, ev) == (AppV {
                status: dec(r@.len()) + " result(s)"@,
                search_results: views(r@),
                search_sel: 0,
                ..a
            }),
            AppEvent::Ws(WsEvent::Hello { info }) => after_event(a, ev) == (AppV {
                connected: true,
                info: Some(info@),
                status: "connected"@,
                ..a
            }),
            AppEvent::Ws(WsEvent::Error { message }) => after_event(a, ev) == (AppV {
                connected: false,
                status: message@,
                ..a
            }),
            _ => true,
        },
{
}

/// A first page takes the place of what was loaded; an earlier page goes before it, and the
/// selection stays on its message.
pub proof fn pages_are_taken_in(a: AppV, id: i64, page: Seq<MessageV>, more: bool)
    ensures
        ({
            let b = page_came(a, id, page, more, false);
            &&& b.messages == a.messages.insert(id, page)
            &&& b.msg_sel == a.msg_sel
            &&& b.loading == a.loading.remove(id)
            &&& b.has_more == a.has_more.insert(id, more)
            &&& b.force_redraw
        }),
        ({
            let b = page_came(a, id, page, more, true);
            let old = if a.messages.dom().contains(id) {
                a.messages[id]
            } else {
                Seq::empty()
            };
            &&& b.messages == a.messages.insert(id, page + old)
            &&& a.msg_sel is None ==> b.msg_sel is None
            &&& a.msg_sel is Some && a.msg_sel->0 + page.len() <= usize::MAX ==> b.msg_sel is Some && b.msg_sel->0
                == a.msg_sel->0 + page.len()
            &&& b.loading == a.loading.remove(id)
            &&& b.has_more == a.has_more.insert(id, more)
            &&& b.force_redraw
        }),
        (AppV {
            messages: a.messages,
            msg_sel: a.msg_sel,
            loading: a.loading,
            has_more: a.has_more,
            force_redraw: a.force_redraw,
            ..page_came(a, id, page, more, true)
        }) == a,
        (AppV {
            messages: a.messages,
            loading: a.loading,
            has_more: a.has_more,
            force_redraw: a.force_redraw,
            ..page_came(a, id, page, more, false)
        }) == a,
{
}

/// A page is taken in for the chat that it is of.
pub proof fn page_events_are_taken_in(a: AppV, id: i64, page: MessagesPage, older: bool)
    ensures
        after_event(a, AppEvent::Messages { chat_id: id, page, older }) == page_came(
            a,
            id,
            views(page.messages@),
            page.has_more,
            older,
        ),
{
}

proof fn lemma_with_message_has(list: Seq<MessageV>, m: MessageV, x: MessageV)
    ensures
        with_message(list, m).contains(m),
        list.contains(x) && x.id != m.id ==> with_message(list, m).contains(x),
        with_message(list, m).contains(x) ==> x == m || list.contains(x),
{
    lemma_message_place(list, m.id, 0);
    let r = with_message(list, m);
    match message_place(list, m.id, 0) {
        Some(p) => {
            assert(r[p] == m);
        },
        None => {
            assert(r[list.len() as int] == m);
        },
    }
    if list.contains(x) && x.id != m.id {
        let i = choose|i: int| 0 <= i < list.len() && list[i] == x;
        assert(r[i] == x);
    }
    if r.contains(x) && x != m {
        let i = choose|i: int| 0 <= i < r.len() && r[i] == x;
        assert(list[i] == x);
    }
}

/// The newest messages that were asked for are all there: each as told last, beside those that were
/// there and were not told anew; and none else.
pub proof fn newest_messages_are_put_in(list: Seq<MessageV>, ms: Seq<MessageV>, k: int, x: MessageV)
    ensures
        0 <= k < ms.len() && (forall|j: int| k < j < ms.len() ==> (#[trigger] ms[j]).id != ms[k].id) ==> with_messages(
            list,
            ms,
        ).contains(ms[k]),
        list.contains(x) && (forall|j: int| 0 <= j < ms.len() ==> (#[trigger] ms[j]).id != x.id) ==> with_messages(
            list,
            ms,
        ).contains(x),
        with_messages(list, ms).contains(x) ==> list.contains(x) || ms.contains(x),
    decreases ms.len(),
{
    if ms.len() > 0 {
        let d = ms.drop_last();
        let m = ms.last();
        newest_messages_are_put_in(list, d, k, x);
        let b = with_messages(list, d);
        if 0 <= k < ms.len() && (forall|j: int| k < j < ms.len() ==> (#[trigger] ms[j]).id != ms[k].id) {
            if k < d.len() {
                assert(ms[ms.len() - 1].id != ms[k].id);
                assert forall|j: int| k < j < d.len() implies (#[trigger] d[j]).id != d[k].id by {
                    assert(ms[j].id != ms[k].id);
                }
            }
            lemma_with_message_has(b, m, ms[k]);
        }
        if list.contains(x) && (forall|j: int| 0 <= j < ms.len() ==> (#[trigger] ms[j]).id != x.id) {
            assert(ms[ms.len() - 1].id != x.id);
            assert forall|j: int| 0 <= j < d.len() implies (#[trigger] d[j]).id != x.id by {
                assert(ms[j].id != x.id);
            }
        }
        lemma_with_message_has(b, m, x);
        if d.contains(x) {
            let i = choose|i: int| 0 <= i < d.len() && d[i] == x;
            assert(ms[i] == x);
        }
        assert(ms[ms.len() - 1] == m);
    }
}

/// A tail is put in for its chat, by id, and nothing is on its way for the chat any more.
pub proof fn tails_are_put_in(a: AppV, ev: AppEvent, x: MessageV, i: int, j: int)
    requires
        ev is Tail,
    ensures
        ({
            let id = ev->Tail_chat_id;
            let b = after_event(a, ev);
            let old = if a.messages.dom().contains(id) {
                a.messages[id]
            } else {
                Seq::empty()
            };
            let list = b.messages[id];
            &&& b.loading == a.loading.remove(id)
            &&& b.messages == a.messages.insert(id, list)
            &&& list.contains(x) <==> with_messages(old, views(ev->Tail_messages@)).contains(x)
            &&& 0 <= i < j < list.len() ==> list[i].id <= list[j].id
            &&& (AppV { messages: a.messages, loading: a.loading, ..b }) == a
        }),
{
    broadcast use vstd::seq_lib::group_to_multiset_ensures;

    let id = ev->Tail_chat_id;
    let s = with_messages(loaded(a, id), views(ev->Tail_messages@));
    let le = crate::state::by_id();
    crate::order::sort_keeps_elements(s, le);
    crate::order::sort_is_sorted(s, le);
    let t = crate::order::sort_by(s, le);
    assert(s.contains(x) <==> s.to_multiset().count(x) > 0);
    assert(t.contains(x) <==> t.to_multiset().count(x) > 0);
    if 0 <= i < j < t.len() {
        assert(le(t[i], t[j]));
    }
}

proof fn lemma_direct_place(chats: Seq<ChatV>, want: Seq<char>, i: int)
    requires
        0 <= i <= chats.len(),
    ensures
        direct_place(chats, want, i) matches Some(p) ==> i <= p < chats.len() && !chats[p].is_group
            && chats[p].participants.len() == 1 && normalize(chats[p].participants[0].address) == want,
        direct_place(chats, want, i) is None ==> forall|k: int|
            i <= k < chats.len() ==> (#[trigger] chats[k]).is_group || chats[k].participants.len() != 1 || normalize(
                chats[k].participants[0].address,
            ) != want,
    decreases chats.len() - i,
{
    if i < chats.len() {
        lemma_direct_place(chats, want, i + 1);
    }
}

/// A chat between two whose other member has an address, whatever its spelling.
pub open spec fn is_with(c: ChatV, address: Seq<char>) -> bool {
    !c.is_group && c.participants.len() == 1 && normalize(c.participants[0].address) == normalize(address)
}

/// A new conversation gives way to the chat with its address as soon as there is one, which is then
/// on the screen; it stays open as long as there is none.
pub proof fn new_conversations_become_chats(a: AppV, k: int)
    requires
        a.new_chat is Some,
        a.chats.len() <= usize::MAX,
    ensures
        0 <= k < a.chats.len() && is_with(a.chats[k], a.new_chat->0.address) ==> settled(a).new_chat is None
            && settled(a).chat_filter.len() == 0 && settled(a).chats == a.chats && settled(a).chat_sel <= k && is_with(
            a.chats[settled(a).chat_sel as int],
            a.new_chat->0.address,
        ) && chat_on_screen(settled(a)) == Some(a.chats[settled(a).chat_sel as int]),
        (forall|j: int| 0 <= j < a.chats.len() ==> !is_with(#[trigger] a.chats[j], a.new_chat->0.address)) ==> settled(a)
            == a,
{
    let want = normalize(a.new_chat->0.address);
    lemma_direct_place(a.chats, want, 0);
    match direct_place(a.chats, want, 0) {
        Some(p) => {
            assert(is_with(a.chats[p], a.new_chat->0.address));
            let b = AppV { new_chat: None, chat_filter: Seq::empty(), chat_sel: p as usize, ..a };
            let c = ensured(b);
            assert(listed_chats(c) == listed_chats(b));
            assert(chat_on_screen(c) == Some(a.chats[p]));
            if 0 <= k < p && is_with(a.chats[k], a.new_chat->0.address) {
                lemma_direct_first(a.chats, want, 0, k);
            }
        },
        None => {},
    }
}

proof fn lemma_direct_first(chats: Seq<ChatV>, want: Seq<char>, i: int, k: int)
    requires
        0 <= i <= k < chats.len(),
        !chats[k].is_group,
        chats[k].participants.len() == 1,
        normalize(chats[k].participants[0].address) == want,
    ensures
        direct_place(chats, want, i) matches Some(p) && p <= k,
    decreases k - i,
{
    if i < k {
        lemma_direct_first(chats, want, i + 1, k);
    }
}

// ----- sending -----

/// A text that is sent goes out as it is with the waiting files and nothing else: while a new
/// conversation is open to its address, else to the chat on the screen.
pub proof fn texts_go_to_the_conversation(a: AppV, text: Seq<char>)
    requires
        text.len() > 0 || a.pending_files.len() > 0,
    ensures
        ({
            let b = text_sent(a, text);
            let r = b.outbox.last()->Send_request;
            let ids = Seq::new(a.pending_files.len(), |i: int| a.pending_files[i].id);
            let sent = a.new_chat is Some || chat_on_screen(a) is Some;
            &&& sent ==> {
                &&& b.outbox == a.outbox.push(RequestV::ClearCompose).push(RequestV::Send { request: r })
                &&& text.len() > 0 ==> r.text == Some(text)
                &&& text.len() == 0 ==> r.text is None
                &&& r.uploads == ids
                &&& r.paths.len() == 0
                &&& b.pending_files.len() == 0
                &&& b.sending
                &&& b.status == "sending…"@
                &&& (AppV {
                    outbox: a.outbox,
                    pending_files: a.pending_files,
                    sending: a.sending,
                    status: a.status,
                    ..b
                }) == a
            }
            &&& a.new_chat is Some ==> r.to == seq![a.new_chat->0.address] && r.chat_guid is None
            &&& a.new_chat is None && chat_on_screen(a) is Some ==> r.chat_guid == Some(chat_on_screen(a)->0.guid)
                && r.to.len() == 0
            &&& !sent ==> b == (AppV { status: "no conversation selected"@, ..a })
        }),
{
    let ids = Seq::new(a.pending_files.len(), |i: int| a.pending_files[i].id);
    assert(upload_ids(a.pending_files) =~= ids);
}

/// Nothing is sent where there is neither text nor a file.
pub proof fn nothing_is_not_sent(a: AppV)
    requires
        a.pending_files.len() == 0,
    ensures
        text_sent(a, Seq::<char>::empty()) == a,
{
}

/// `Enter` in the compose box sends what it holds: its lines, with shortcodes expanded, without
/// outer white space. With `Alt` or `Shift`, and as `Ctrl+J`, it starts a line.
pub proof fn enter_sends_what_was_typed(a: AppV, lines: Seq<Seq<char>>)
    requires
        a.mode == Mode::Normal,
        a.focus == Focus::Compose,
    ensures
        after_key(a, bare(Code::Enter), lines) == text_sent(a, trim(expanded(join(lines, "\n"@)))),
        after_key(a, Key { code: Code::Enter, ctrl: false, alt: true, shift: false }, lines) == (AppV {
            outbox: a.outbox.push(RequestV::Newline),
            ..a
        }),
        after_key(a, Key { code: Code::Enter, ctrl: false, alt: false, shift: true }, lines) == (AppV {
            outbox: a.outbox.push(RequestV::Newline),
            ..a
        }),
        after_key(a, Key { code: Code::Char('j'), ctrl: true, alt: false, shift: false }, lines) == (AppV {
            outbox: a.outbox.push(RequestV::Newline),
            ..a
        }),
{
}

/// While a new conversation is open, the request that `Enter` sends goes to its address alone and to
/// no chat; its name is nowhere in the request, which is the same under any name.
pub proof fn enter_sends_to_the_new_address(a: AppV, lines: Seq<Seq<char>>, nc: NewChatV, name: Seq<char>)
    requires
        a.mode == Mode::Normal,
        a.focus == Focus::Compose,
        a.new_chat == Some(nc),
        trim(expanded(join(lines, "\n"@))).len() > 0 || a.pending_files.len() > 0,
    ensures
        ({
            let b = after_key(a, bare(Code::Enter), lines);
            let r = b.outbox.last()->Send_request;
            let text = trim(expanded(join(lines, "\n"@)));
            let renamed = AppV { new_chat: Some(NewChatV { name, ..nc }), ..a };
            &&& b.outbox == a.outbox.push(RequestV::ClearCompose).push(RequestV::Send { request: r })
            &&& r.to == seq![nc.address]
            &&& r.chat_guid is None
            &&& text.len() > 0 ==> r.text == Some(text)
            &&& text.len() == 0 ==> r.text is None
            &&& after_key(renamed, bare(Code::Enter), lines).outbox == b.outbox
        }),
{
    let text = trim(expanded(join(lines, "\n"@)));
    enter_sends_what_was_typed(a, lines);
    texts_go_to_the_conversation(a, text);
    let renamed = AppV { new_chat: Some(NewChatV { name, ..nc }), ..a };
    enter_sends_what_was_typed(renamed, lines);
    texts_go_to_the_conversation(renamed, text);
    let r = text_sent(a, text).outbox.last()->Send_request;
    let q = text_sent(renamed, text).outbox.last()->Send_request;
    assert(r == q);
}

/// In the compose box a character goes to the box; `Esc` goes to the messages; `Up` in an empty box
/// too; `Backspace` in an empty box takes away the last waiting file.
pub proof fn other_keys_in_the_compose_box(a: AppV, lines: Seq<Seq<char>>, c: char)
    requires
        a.mode == Mode::Normal,
        a.focus == Focus::Compose,
    ensures
        ({
            let empty = forall|i: int| 0 <= i < lines.len() ==> (#[trigger] lines[i]).len() == 0;
            let input = AppV { outbox: a.outbox.push(RequestV::Input), ..a };
            &&& after_key(a, bare(Code::Char(c)), lines) == input
            &&& after_key(a, bare(Code::Esc), lines) == (AppV { focus: Focus::Messages, ..a })
            &&& empty && lines.len() <= 1 ==> after_key(a, bare(Code::Up), lines) == (AppV { focus: Focus::Messages, ..a })
            &&& !empty || lines.len() > 1 ==> after_key(a, bare(Code::Up), lines) == input
            &&& empty && a.pending_files.len() > 0 ==> after_key(a, bare(Code::Backspace), lines) == (AppV {
                pending_files: a.pending_files.take(a.pending_files.len() - 1),
                ..a
            })
            &&& !empty || a.pending_files.len() == 0 ==> after_key(a, bare(Code::Backspace), lines) == input
        }),
{
    if a.pending_files.len() > 0 {
        assert(a.pending_files.take(a.pending_files.len() - 1) =~= a.pending_files.drop_last());
    }
}

// ----- keys that are the same everywhere -----

/// A key with `Ctrl`.
pub open spec fn with_ctrl(c: char) -> Key {
    Key { code: Code::Char(c), ctrl: true, alt: false, shift: false }
}

/// `Ctrl` with `C` or `Q` quits, with `L` draws anew, with `E` opens the emoji picker, with `F` asks
/// for a file, with `S` searches, and with `N` opens the contacts, which are loaded where they are not.
pub proof fn control_keys_work_everywhere(a: AppV, lines: Seq<Seq<char>>)
    ensures
        after_key(a, with_ctrl('c'), lines) == (AppV { should_quit: true, ..a }),
        after_key(a, with_ctrl('q'), lines) == (AppV { should_quit: true, ..a }),
        after_key(a, with_ctrl('l'), lines) == (AppV { force_redraw: true, ..a }),
        after_key(a, with_ctrl('e'), lines) == (AppV {
            mode: Mode::Emoji,
            emoji_query: Seq::empty(),
            emoji_sel: 0,
            ..a
        }),
        after_key(a, with_ctrl('f'), lines) == (AppV { mode: Mode::Attach, attach_input: Seq::empty(), ..a }),
        after_key(a, with_ctrl('s'), lines) == (AppV { mode: Mode::Search, ..a }),
        a.contacts.len() > 0 ==> after_key(a, with_ctrl('n'), lines) == (AppV {
            mode: Mode::Contacts,
            picker_query: Seq::empty(),
            picker_sel: 0,
            ..a
        }),
        a.contacts.len() == 0 ==> after_key(a, with_ctrl('n'), lines) == (AppV {
            mode: Mode::Contacts,
            picker_query: Seq::empty(),
            picker_sel: 0,
            outbox: a.outbox.push(RequestV::LoadContacts),
            ..a
        }),
        after_key(a, with_ctrl('r'), lines) == (AppV { status: "refreshed"@, ..refreshed(a) }),
{
}

/// Any key closes the help.
pub proof fn any_key_closes_the_help(a: AppV, k: Key, lines: Seq<Seq<char>>)
    requires
        a.mode == Mode::Help,
        !k.ctrl,
    ensures
        after_key(a, k, lines) == (AppV { mode: Mode::Normal, ..a }),
{
}

// ----- keys in the chat list -----

/// Another chat is shown from its newest message, with none selected, and is asked for.
pub proof fn another_chat_is_shown_anew(a: AppV)
    ensures
        chat_moved(a) == ensured(AppV { new_chat: None, scroll: 0, msg_sel: None, force_redraw: true, ..a }),
{
}

/// The keys of the chat list move one or ten chats up or down, to the first or the last one, and no
/// further than the list goes.
#[verifier::spinoff_prover]
pub proof fn keys_move_in_the_chat_list(a: AppV, k: Code, lines: Seq<Seq<char>>)
    requires
        a.mode == Mode::Normal,
        a.focus == Focus::Chats,
        a.chat_sel < usize::MAX - 10,
    ensures
        ({
            let n = listed_chats(a).len();
            let b = after_key(a, bare(k), lines);
            let sel = a.chat_sel as int;
            &&& k == Code::Char('j') || k == Code::Down ==> b == chat_moved(
                AppV {
                    chat_sel: (if n == 0 {
                        sel
                    } else if sel + 1 <= n - 1 {
                        sel + 1
                    } else {
                        n - 1
                    }) as usize,
                    ..a
                },
            )
            &&& k == Code::Char('k') || k == Code::Up ==> b == chat_moved(
                AppV {
                    chat_sel: (if sel >= 1 {
                        sel - 1
                    } else {
                        0
                    }) as usize,
                    ..a
                },
            )
            &&& k == Code::PageDown ==> b == chat_moved(
                AppV {
                    chat_sel: (if n == 0 {
                        sel
                    } else if sel + 10 <= n - 1 {
                        sel + 10
                    } else {
                        n - 1
                    }) as usize,
                    ..a
                },
            )
            &&& k == Code::PageUp ==> b == chat_moved(
                AppV {
                    chat_sel: (if sel >= 10 {
                        sel - 10
                    } else {
                        0
                    }) as usize,
                    ..a
                },
            )
            &&& k == Code::Char('g') || k == Code::Home ==> b == chat_moved(AppV { chat_sel: 0, ..a })
            &&& k == Code::Char('G') || k == Code::End ==> b == chat_moved(
                AppV {
                    chat_sel: (if n == 0 {
                        sel
                    } else {
                        n - 1
                    }) as usize,
                    ..a
                },
            )
        }),
{
}

/// The other keys of the chat list: to the compose box, to the messages, to the filter, to the help,
/// out of the filter and out of the program.
#[verifier::spinoff_prover]
pub proof fn keys_leave_the_chat_list(a: AppV, k: Code, lines: Seq<Seq<char>>)
    requires
        a.mode == Mode::Normal,
        a.focus == Focus::Chats,
    ensures
        ({
            let b = after_key(a, bare(k), lines);
            &&& k == Code::Enter || k == Code::Char('i') ==> b == (AppV { focus: Focus::Compose, ..a })
            &&& k == Code::Char('l') || k == Code::Right ==> b == (AppV { focus: Focus::Messages, ..a })
            &&& k == Code::Char('/') ==> b == (AppV { mode: Mode::ChatFilter, ..a })
            &&& k == Code::Char('?') ==> b == (AppV { mode: Mode::Help, ..a })
            &&& k == Code::Char('q') ==> b == (AppV { should_quit: true, ..a })
            &&& k == Code::Esc && a.chat_filter.len() == 0 ==> b == a
            &&& k == Code::Esc && a.chat_filter.len() > 0 ==> b == chat_moved(
                AppV { chat_filter: Seq::empty(), chat_sel: 0, ..a },
            )
            &&& k == Code::Other || k == Code::Backspace || k == Code::Left || k == Code::Char('z') ==> b == a
        }),
{
}

/// While the chats are filtered, characters are typed and taken back, and the first chat is
/// selected; `Enter` keeps the filter and `Esc` drops it.
#[verifier::spinoff_prover]
pub proof fn keys_in_the_filter(a: AppV, c: char, lines: Seq<Seq<char>>)
    requires
        a.mode == Mode::ChatFilter,
    ensures
        after_key(a, bare(Code::Char(c)), lines) == chat_moved(
            AppV { chat_filter: a.chat_filter.push(c), chat_sel: 0, ..a },
        ),
        a.chat_filter.len() > 0 ==> after_key(a, bare(Code::Backspace), lines) == chat_moved(
            AppV { chat_filter: a.chat_filter.take(a.chat_filter.len() - 1), chat_sel: 0, ..a },
        ),
        after_key(a, bare(Code::Enter), lines) == (AppV { mode: Mode::Normal, focus: Focus::Chats, ..a }),
        after_key(a, bare(Code::Down), lines) == (AppV { mode: Mode::Normal, focus: Focus::Chats, ..a }),
        after_key(a, bare(Code::Tab), lines) == (AppV { mode: Mode::Normal, focus: Focus::Chats, ..a }),
        after_key(a, bare(Code::Esc), lines) == chat_moved(
            AppV { chat_filter: Seq::empty(), mode: Mode::Normal, chat_sel: 0, ..a },
        ),
{
    if a.chat_filter.len() > 0 {
        assert(a.chat_filter.take(a.chat_filter.len() - 1) =~= a.chat_filter.drop_last());
    }
}

// ----- keys in the messages -----

/// `K` and `Up` go to the message before, from none to the last, and ask for earlier ones at the
/// first; `J` and `Down` go to the one after, and from the last one to none at the end.
#[verifier::spinoff_prover]
pub proof fn keys_select_messages(a: AppV, k: Code, lines: Seq<Seq<char>>)
    requires
        a.mode == Mode::Normal,
        a.focus == Focus::Messages,
    ensures
        ({
            let n = messages_on_screen(a).len();
            let b = after_key(a, bare(k), lines);
            &&& k == Code::Char('k') || k == Code::Up ==> {
                &&& a.msg_sel is None && n > 0 ==> b == scrolled(AppV { msg_sel: Some((n - 1) as usize), ..a })
                &&& a.msg_sel is None && n == 0 ==> b == a
                &&& a.msg_sel == Some(0usize) ==> b == scrolled(older_asked(a))
                &&& a.msg_sel is Some && a.msg_sel->0 > 0 ==> b == scrolled(
                    AppV { msg_sel: Some((a.msg_sel->0 - 1) as usize), ..a },
                )
            }
            &&& k == Code::Char('j') || k == Code::Down ==> {
                &&& a.msg_sel is None ==> b == a
                &&& a.msg_sel is Some && a.msg_sel->0 + 1 >= n ==> b == (AppV { msg_sel: None, scroll: 0, ..a })
                &&& a.msg_sel is Some && a.msg_sel->0 + 1 < n ==> b == scrolled(
                    AppV { msg_sel: Some((a.msg_sel->0 + 1) as usize), ..a },
                )
            }
        }),
{
}

/// Half a screen up or down, to the top and to the bottom; earlier messages are asked for at the
/// top. Lines are counted from the end.
#[verifier::spinoff_prover]
pub proof fn keys_scroll_the_messages(a: AppV, k: Code, lines: Seq<Seq<char>>)
    requires
        a.mode == Mode::Normal,
        a.focus == Focus::Messages,
        a.scroll + a.msg_view_height <= usize::MAX,
    ensures
        ({
            let b = after_key(a, bare(k), lines);
            let most = if a.msg_total_lines > a.msg_view_height {
                a.msg_total_lines - a.msg_view_height
            } else {
                0
            };
            let half = a.msg_view_height as int / 2;
            &&& k == Code::Char('u') || k == Code::PageUp ==> {
                &&& a.scroll + half < most ==> b == (AppV { msg_sel: None, scroll: (a.scroll + half) as usize, ..a })
                &&& a.scroll + half >= most ==> b == older_asked(AppV { msg_sel: None, scroll: most as usize, ..a })
            }
            &&& k == Code::Char('d') || k == Code::PageDown ==> {
                &&& a.scroll >= half ==> b == (AppV { msg_sel: None, scroll: (a.scroll - half) as usize, ..a })
                &&& a.scroll < half ==> b == (AppV { msg_sel: None, scroll: 0, ..a })
            }
            &&& k == Code::Char('g') || k == Code::Home ==> b == older_asked(
                AppV { msg_sel: None, scroll: most as usize, ..a },
            )
            &&& k == Code::Char('G') || k == Code::End ==> b == (AppV { msg_sel: None, scroll: 0, ..a })
        }),
{
}

/// The other keys of the messages.
#[verifier::spinoff_prover]
pub proof fn keys_leave_the_messages(a: AppV, k: Code, lines: Seq<Seq<char>>)
    requires
        a.mode == Mode::Normal,
        a.focus == Focus::Messages,
    ensures
        ({
            let b = after_key(a, bare(k), lines);
            &&& k == Code::Char('i') ==> b == (AppV { focus: Focus::Compose, ..a })
            &&& k == Code::Enter && a.msg_sel is None ==> b == (AppV { focus: Focus::Compose, ..a })
            &&& (k == Code::Enter || k == Code::Char('o')) && a.msg_sel is Some ==> b == opened(a)
            &&& k == Code::Char('s') && a.msg_sel is Some ==> b == saved(a)
            &&& (k == Code::Char('o') || k == Code::Char('s') || k == Code::Char('y')) && a.msg_sel is None ==> b == a
            &&& k == Code::Char('h') || k == Code::Left ==> b == (AppV { focus: Focus::Chats, ..a })
            &&& k == Code::Esc && a.msg_sel is Some ==> b == (AppV { msg_sel: None, ..a })
            &&& k == Code::Esc && a.msg_sel is None ==> b == (AppV { focus: Focus::Chats, ..a })
            &&& k == Code::Char('/') ==> b == (AppV { focus: Focus::Chats, mode: Mode::ChatFilter, ..a })
            &&& k == Code::Char('?') ==> b == (AppV { mode: Mode::Help, ..a })
            &&& k == Code::Char('q') ==> b == (AppV { should_quit: true, ..a })
        }),
{
}

/// `Y` copies the text of the selected message, where it has one.
#[verifier::spinoff_prover]
pub proof fn text_is_copied(a: AppV, lines: Seq<Seq<char>>, i: usize)
    requires
        a.mode == Mode::Normal,
        a.focus == Focus::Messages,
        a.msg_sel == Some(i),
        i < messages_on_screen(a).len(),
    ensures
        messages_on_screen(a)[i as int].text matches Some(t) ==> after_key(a, bare(Code::Char('y')), lines) == (AppV {
            outbox: a.outbox.push(RequestV::Copy { text: t }),
            status: "copied"@,
            ..a
        }),
        messages_on_screen(a)[i as int].text is None ==> after_key(a, bare(Code::Char('y')), lines) == a,
{
}

/// The files of a message that can be had are those that are there, in their order.
pub proof fn files_on_hand(atts: Seq<AttachmentV>, x: AttachmentV)
    ensures
        on_hand(Seq::<AttachmentV>::empty()).len() == 0,
        x.available ==> on_hand(atts.push(x)) == on_hand(atts).push(x),
        !x.available ==> on_hand(atts.push(x)) == on_hand(atts),
{
    assert(atts.push(x).drop_last() =~= atts);
}

/// Opening a message opens the files that it has on hand; where it has none its link; and says so
/// where there is nothing. Saving saves the files.
pub proof fn messages_are_opened_and_saved(a: AppV, i: usize)
    requires
        a.msg_sel == Some(i),
        i < messages_on_screen(a).len(),
    ensures
        ({
            let m = messages_on_screen(a)[i as int];
            let files = on_hand(m.attachments);
            &&& files.len() > 0 ==> opened(a) == (AppV {
                outbox: a.outbox.push(RequestV::Open { attachments: files }),
                status: "downloading "@ + dec(files.len()) + " attachment(s)…"@,
                ..a
            })
            &&& files.len() == 0 ==> (link_of(m) matches Some(u) ==> opened(a) == (AppV {
                outbox: a.outbox.push(RequestV::OpenUrl { url: u }),
                status: "opened "@ + u,
                ..a
            }))
            &&& files.len() == 0 && link_of(m) is None ==> opened(a) == (AppV {
                status: "nothing to open on this message"@,
                ..a
            })
            &&& files.len() > 0 ==> saved(a) == (AppV { outbox: a.outbox.push(RequestV::Save { attachments: files }), ..a })
            &&& files.len() == 0 ==> saved(a) == (AppV { status: "no attachments on this message"@, ..a })
        }),
{
}

proof fn lemma_link_in(es: Seq<Seq<char>>, i: int, k: int)
    requires
        0 <= i <= k < es.len(),
        strip_prefix(es[k], "link:"@) is Some,
        forall|j: int| i <= j < k ==> strip_prefix(#[trigger] es[j], "link:"@) is None,
    ensures
        link_in(es, i) == strip_prefix(es[k], "link:"@),
    decreases k - i,
{
    if i < k {
        assert(strip_prefix(es[i], "link:"@) is None);
        lemma_link_in(es, i + 1, k);
    }
}

proof fn lemma_no_link_in(es: Seq<Seq<char>>, i: int)
    requires
        0 <= i <= es.len(),
        forall|j: int| i <= j < es.len() ==> strip_prefix(#[trigger] es[j], "link:"@) is None,
    ensures
        link_in(es, i) is None,
    decreases es.len() - i,
{
    if i < es.len() {
        assert(strip_prefix(es[i], "link:"@) is None);
        lemma_no_link_in(es, i + 1);
    }
}

proof fn lemma_link_from(parts: Seq<TextPartV>, i: int, k: int)
    requires
        0 <= i <= k < parts.len(),
        link_in(parts[k].effects, 0) is Some,
        forall|j: int| i <= j < k ==> link_in((#[trigger] parts[j]).effects, 0) is None,
    ensures
        link_from(parts, i) == link_in(parts[k].effects, 0),
    decreases k - i,
{
    if i < k {
        assert(link_in(parts[i].effects, 0) is None);
        lemma_link_from(parts, i + 1, k);
    }
}

proof fn lemma_no_link_from(parts: Seq<TextPartV>, i: int)
    requires
        0 <= i <= parts.len(),
        forall|j: int| i <= j < parts.len() ==> link_in((#[trigger] parts[j]).effects, 0) is None,
    ensures
        link_from(parts, i) is None,
    decreases parts.len() - i,
{
    if i < parts.len() {
        assert(link_in(parts[i].effects, 0) is None);
        lemma_no_link_from(parts, i + 1);
    }
}

/// A part without a link among its effects.
pub open spec fn no_link(p: TextPartV) -> bool {
    forall|j: int| 0 <= j < p.effects.len() ==> !starts_with(#[trigger] p.effects[j], "link:"@)
}

/// The link of a message is the first one of the first part that has one; without any, the address
/// of its balloon.
pub proof fn the_first_link_counts(m: MessageV, p: int, e: int, url: Seq<char>)
    ensures
        0 <= p < m.parts.len() && 0 <= e < m.parts[p].effects.len() && m.parts[p].effects[e] == "link:"@ + url && (
        forall|j: int| 0 <= j < p ==> no_link(#[trigger] m.parts[j])) && (forall|j: int|
            0 <= j < e ==> !starts_with(#[trigger] m.parts[p].effects[j], "link:"@)) ==> link_of(m) == Some(url),
        (forall|j: int| 0 <= j < m.parts.len() ==> no_link(#[trigger] m.parts[j])) ==> match m.kind {
            MessageKindV::App { bundle_id, title, summary, url } => link_of(m) == url,
            _ => link_of(m) is None,
        },
{
    crate::text_laws::holding_is_standing_between(Seq::empty(), "link:"@, url);
    if 0 <= p < m.parts.len() && 0 <= e < m.parts[p].effects.len() && m.parts[p].effects[e] == "link:"@ + url && (forall|
        j: int,
    | 0 <= j < p ==> no_link(#[trigger] m.parts[j])) && (forall|j: int|
        0 <= j < e ==> !starts_with(#[trigger] m.parts[p].effects[j], "link:"@)) {
        let es = m.parts[p].effects;
        lemma_link_in(es, 0, e);
        assert forall|j: int| 0 <= j < p implies link_in((#[trigger] m.parts[j]).effects, 0) is None by {
            assert(no_link(m.parts[j]));
            lemma_no_link_in(m.parts[j].effects, 0);
        }
        lemma_link_from(m.parts, 0, p);
    }
    if forall|j: int| 0 <= j < m.parts.len() ==> no_link(#[trigger] m.parts[j]) {
        assert forall|j: int| 0 <= j < m.parts.len() implies link_in((#[trigger] m.parts[j]).effects, 0) is None by {
            assert(no_link(m.parts[j]));
            lemma_no_link_in(m.parts[j].effects, 0);
        }
        lemma_no_link_from(m.parts, 0);
    }
}

/// The scroll stays where the selected message is in sight, and where none is selected; else it moves
/// until the first line of the message is the first one in sight, or the last line the last one.
pub proof fn the_scroll_stays_where_it_can(a: AppV, i: usize)
    ensures
        a.msg_sel is None ==> scrolled(a) == a,
        a.msg_sel == Some(i) && i < a.msg_line_ranges.len() && a.msg_line_ranges[i as int].0 + a.msg_view_height + a.scroll
            >= a.msg_total_lines && a.msg_line_ranges[i as int].1 + a.scroll < a.msg_total_lines && a.msg_view_height > 0
            ==> scrolled(a) == a,
        (AppV { scroll: a.scroll, ..scrolled(a) }) == a,
        a.msg_sel == Some(i) && i < a.msg_line_ranges.len() && a.msg_view_height > 0 ==> ({
            let (first, last) = a.msg_line_ranges[i as int];
            let top = a.msg_total_lines - a.msg_view_height - a.scroll;
            &&& first < top ==> scrolled(a).scroll + a.msg_view_height + first == a.msg_total_lines
            &&& first >= top && 0 <= a.msg_total_lines - a.scroll <= last < a.msg_total_lines ==> scrolled(a).scroll + last
                + 1 == a.msg_total_lines
        }),
{
}

/// What was drawn is remembered, and the scroll goes no further than there are lines.
pub proof fn what_was_drawn_is_remembered(a: AppV, total: usize, height: usize, ranges: Seq<(usize, usize)>)
    ensures
        ({
            let b = viewed(a, total, height, ranges);
            &&& b.msg_total_lines == total
            &&& b.msg_view_height == height
            &&& b.msg_line_ranges == ranges
            &&& a.scroll + height <= total ==> b.scroll == a.scroll
            &&& a.scroll + height > total && total >= height ==> b.scroll == total - height
            &&& total < height ==> b.scroll == 0
            &&& (AppV {
                msg_total_lines: a.msg_total_lines,
                msg_view_height: a.msg_view_height,
                msg_line_ranges: a.msg_line_ranges,
                scroll: a.scroll,
                ..b
            }) == a
        }),
{
}

// ----- the pickers -----

/// In the emoji picker `Enter` puts the selected emoji into the compose box; the arrows go round;
/// characters make up the query.
#[verifier::spinoff_prover]
pub proof fn keys_in_the_emoji_picker(a: AppV, c: char, lines: Seq<Seq<char>>)
    requires
        a.mode == Mode::Emoji,
    ensures
        ({
            let hits = emoji_list(a);
            let n = hits.len();
            &&& after_key(a, bare(Code::Esc), lines) == (AppV { mode: Mode::Normal, ..a })
            &&& a.emoji_sel < n ==> after_key(a, bare(Code::Enter), lines) == (AppV {
                mode: Mode::Normal,
                focus: Focus::Compose,
                outbox: a.outbox.push(RequestV::Insert { text: a.emojis[hits[a.emoji_sel as int] as int].glyph }),
                ..a
            })
            &&& a.emoji_sel >= n ==> after_key(a, bare(Code::Enter), lines) == a
            &&& a.emoji_sel + 1 < n ==> after_key(a, bare(Code::Down), lines) == (AppV {
                emoji_sel: (a.emoji_sel + 1) as usize,
                ..a
            })
            &&& a.emoji_sel + 1 == n ==> after_key(a, bare(Code::Down), lines) == (AppV { emoji_sel: 0, ..a })
            &&& 0 < a.emoji_sel < n <= usize::MAX ==> after_key(a, bare(Code::Up), lines) == (AppV {
                emoji_sel: (a.emoji_sel - 1) as usize,
                ..a
            })
            &&& 0 == a.emoji_sel && 0 < n <= usize::MAX ==> after_key(a, bare(Code::Up), lines) == (AppV {
                emoji_sel: (n - 1) as usize,
                ..a
            })
            &&& after_key(a, bare(Code::Char(c)), lines) == (AppV { emoji_query: a.emoji_query.push(c), emoji_sel: 0, ..a })
            &&& a.emoji_query.len() > 0 ==> after_key(a, bare(Code::Backspace), lines) == (AppV {
                emoji_query: a.emoji_query.take(a.emoji_query.len() - 1),
                emoji_sel: 0,
                ..a
            })
            &&& hits == emoji_hits(a.emojis, a.emoji_query)
        }),
{
    let n = emoji_list(a).len() as int;
    let s = a.emoji_sel as int;
    if n > 0 {
        lemma_round(s, n);
    }
    if a.emoji_query.len() > 0 {
        assert(a.emoji_query.take(a.emoji_query.len() - 1) =~= a.emoji_query.drop_last());
    }
}

proof fn lemma_round(s: int, n: int)
    requires
        n > 0,
        s >= 0,
    ensures
        s + 1 < n ==> (s + 1) % n == s + 1,
        s + 1 == n ==> (s + 1) % n == 0,
        0 < s < n ==> (s + n - 1) % n == s - 1,
        s == 0 ==> (s + n - 1) % n == n - 1,
{
    if s + 1 < n {
        vstd::arithmetic::div_mod::lemma_small_mod((s + 1) as nat, n as nat);
    }
    if s + 1 == n {
        vstd::arithmetic::div_mod::lemma_mod_self_0(n);
    }
    if 0 < s < n {
        vstd::arithmetic::div_mod::lemma_mod_add_multiples_vanish(s - 1, n);
        vstd::arithmetic::div_mod::lemma_small_mod((s - 1) as nat, n as nat);
    }
    if s == 0 {
        vstd::arithmetic::div_mod::lemma_small_mod((n - 1) as nat, n as nat);
    }
}

/// In the contact picker `Enter` begins a conversation with the selected address; the arrows go
/// round; characters make up the query.
#[verifier::spinoff_prover]
pub proof fn keys_in_the_contact_picker(a: AppV, c: char, lines: Seq<Seq<char>>)
    requires
        a.mode == Mode::Contacts,
    ensures
        ({
            let hits = picker_list(a);
            let n = hits.len();
            &&& after_key(a, bare(Code::Esc), lines) == (AppV { mode: Mode::Normal, ..a })
            &&& a.picker_sel < n ==> after_key(a, bare(Code::Enter), lines) == (AppV {
                mode: Mode::Normal,
                ..conversation(a, hits[a.picker_sel as int].name, hits[a.picker_sel as int].address)
            })
            &&& a.picker_sel >= n ==> after_key(a, bare(Code::Enter), lines) == a
            &&& a.picker_sel + 1 < n ==> after_key(a, bare(Code::Down), lines) == (AppV {
                picker_sel: (a.picker_sel + 1) as usize,
                ..a
            })
            &&& a.picker_sel + 1 == n ==> after_key(a, bare(Code::Down), lines) == (AppV { picker_sel: 0, ..a })
            &&& 0 < a.picker_sel < n <= usize::MAX ==> after_key(a, bare(Code::Up), lines) == (AppV {
                picker_sel: (a.picker_sel - 1) as usize,
                ..a
            })
            &&& after_key(a, bare(Code::Char(c)), lines) == (AppV {
                picker_query: a.picker_query.push(c),
                picker_sel: 0,
                ..a
            })
            &&& a.picker_query.len() > 0 ==> after_key(a, bare(Code::Backspace), lines) == (AppV {
                picker_query: a.picker_query.take(a.picker_query.len() - 1),
                picker_sel: 0,
                ..a
            })
        }),
{
    let n = picker_list(a).len() as int;
    let s = a.picker_sel as int;
    if n > 0 {
        lemma_round(s, n);
    }
    if a.picker_query.len() > 0 {
        assert(a.picker_query.take(a.picker_query.len() - 1) =~= a.picker_query.drop_last());
    }
}

/// A conversation goes on in the chat with the address where there is one; else it is a new one with
/// that address, under the name of the contact, and under the address where that was typed.
pub proof fn conversations_begin(a: AppV, name: Seq<char>, address: Seq<char>, k: int)
    requires
        a.chats.len() <= usize::MAX,
    ensures
        ({
            let b = conversation(a, name, address);
            &&& b.focus == Focus::Compose
            &&& b.chat_filter.len() == 0
            &&& 0 <= k < a.chats.len() && is_with(a.chats[k], address) ==> b.new_chat is None && b.chat_sel <= k && is_with(
                a.chats[b.chat_sel as int],
                address,
            )
            &&& (forall|j: int| 0 <= j < a.chats.len() ==> !is_with(#[trigger] a.chats[j], address)) ==> {
                &&& b.new_chat matches Some(n) && n.address == address && n.name == (if starts_with(name, "Send to"@) {
                    address
                } else {
                    name
                })
                &&& b.scroll == 0
                &&& b.msg_sel is None
                &&& b.chat_sel == a.chat_sel
                &&& b.outbox == a.outbox
            }
            &&& b.chats == a.chats
            &&& b.mode == a.mode
        }),
{
    lemma_direct_place(a.chats, normalize(address), 0);
    match direct_place(a.chats, normalize(address), 0) {
        Some(p) => {
            assert(is_with(a.chats[p], address));
            if 0 <= k < a.chats.len() && is_with(a.chats[k], address) {
                lemma_direct_first(a.chats, normalize(address), 0, k);
            }
        },
        None => {},
    }
}

/// A query that is an email or has seven digits is offered as an address itself, before what it
/// finds.
pub proof fn addresses_can_be_typed(a: AppV)
    ensures
        ({
            let raw = trim(a.picker_query);
            let found = contact_scan(a.contacts, lowercase(a.picker_query), a.contacts.len() as int);
            let typed = raw.len() > 0 && (raw.contains('@') || digits_of(raw).len() >= 7);
            &&& !typed ==> picker_list(a) == found
            &&& typed ==> picker_list(a).len() == found.len() + 1 && picker_list(a).skip(1) == found && picker_list(a)[0]
                == (HitV { name: "Send to \""@ + raw + "\""@, address: raw, contact_id: None })
        }),
{
    let found = contact_scan(a.contacts, lowercase(a.picker_query), a.contacts.len() as int);
    if picker_list(a).len() == found.len() + 1 {
        assert(picker_list(a).skip(1) =~= found);
    }
}

/// Contacts are found by a part of their name, a number or an email, in lower case; one that is
/// found is offered with each number and each email, in order, as long as there are not over 200.
pub proof fn contacts_are_offered(cs: Seq<ContactV>, q: Seq<char>, n: int, i: int)
    requires
        0 <= n < cs.len(),
    ensures
        contact_scan(cs, q, 0).len() == 0,
        ({
            let c = cs[n];
            let before = contact_scan(cs, q, n);
            let after = contact_scan(cs, q, n + 1);
            let hit = q.len() == 0 || contains(lowercase(c.name), q) || (exists|j: int|
                0 <= j < c.phones.len() && contains(lowercase(#[trigger] c.phones[j]), q)) || (exists|j: int|
                0 <= j < c.emails.len() && contains(lowercase(#[trigger] c.emails[j]), q));
            &&& !hit || before.len() > 200 ==> after == before
            &&& hit && before.len() <= 200 ==> {
                &&& after.len() == before.len() + c.phones.len() + c.emails.len()
                &&& after.take(before.len() as int) == before
                &&& 0 <= i < c.phones.len() ==> after[before.len() + i] == (HitV {
                    name: c.name,
                    address: c.phones[i],
                    contact_id: Some(c.id),
                })
                &&& 0 <= i < c.emails.len() ==> after[before.len() + c.phones.len() + i] == (HitV {
                    name: c.name,
                    address: c.emails[i],
                    contact_id: Some(c.id),
                })
            }
        }),
{
    let before = contact_scan(cs, q, n);
    assert((before + contact_hits(cs[n])).take(before.len() as int) =~= before);
}

/// While a path is typed `Enter` has the file looked for, `Tab` has the path completed.
#[verifier::spinoff_prover]
pub proof fn keys_for_a_file(a: AppV, c: char, lines: Seq<Seq<char>>)
    requires
        a.mode == Mode::Attach,
    ensures
        after_key(a, bare(Code::Esc), lines) == (AppV { mode: Mode::Normal, ..a }),
        trim(a.attach_input).len() > 0 ==> after_key(a, bare(Code::Enter), lines) == (AppV {
            mode: Mode::Normal,
            outbox: a.outbox.push(RequestV::CheckFile { path: trim(a.attach_input) }),
            ..a
        }),
        trim(a.attach_input).len() == 0 ==> after_key(a, bare(Code::Enter), lines) == (AppV { mode: Mode::Normal, ..a }),
        after_key(a, bare(Code::Tab), lines) == (AppV {
            outbox: a.outbox.push(RequestV::CompletePath { input: a.attach_input }),
            ..a
        }),
        after_key(a, bare(Code::Char(c)), lines) == (AppV { attach_input: a.attach_input.push(c), ..a }),
        a.attach_input.len() > 0 ==> after_key(a, bare(Code::Backspace), lines) == (AppV {
            attach_input: a.attach_input.take(a.attach_input.len() - 1),
            ..a
        }),
{
    if a.attach_input.len() > 0 {
        assert(a.attach_input.take(a.attach_input.len() - 1) =~= a.attach_input.drop_last());
    }
}

/// A file that is there is uploaded, and one that is not is told of.
pub proof fn files_are_uploaded_where_they_are(a: AppV, path: Seq<char>)
    ensures
        file_checked(a, path, true) == (AppV {
            outbox: a.outbox.push(RequestV::Upload { path }),
            status: "uploading "@ + path + "…"@,
            ..a
        }),
        file_checked(a, path, false) == (AppV { status: "no such file: "@ + path, ..a }),
{
}

proof fn lemma_chat_first(list: Seq<ChatV>, id: i64, i: int, k: int)
    requires
        0 <= i <= k < list.len(),
        list[k].id == id,
    ensures
        chat_place(list, id, i) matches Some(p) && p <= k,
    decreases k - i,
{
    if i < k {
        lemma_chat_first(list, id, i + 1, k);
    }
}

/// While messages are searched `Enter` starts the search, and with results goes to the chat of the
/// selected one; typing makes up the query and drops old results.
#[verifier::spinoff_prover]
pub proof fn keys_in_the_search(a: AppV, c: char, lines: Seq<Seq<char>>)
    requires
        a.mode == Mode::Search,
    ensures
        ({
            let q = trim(a.search_query);
            let n = a.search_results.len();
            &&& after_key(a, bare(Code::Esc), lines) == (AppV { mode: Mode::Normal, ..a })
            &&& n == 0 && q.len() > 0 ==> after_key(a, bare(Code::Enter), lines) == (AppV {
                outbox: a.outbox.push(RequestV::Search { query: q }),
                status: "searching \""@ + q + "\"…"@,
                ..a
            })
            &&& n == 0 && q.len() == 0 ==> after_key(a, bare(Code::Enter), lines) == a
            &&& after_key(a, bare(Code::Char(c)), lines) == (AppV {
                search_query: a.search_query.push(c),
                search_results: Seq::empty(),
                ..a
            })
            &&& a.search_query.len() > 0 ==> after_key(a, bare(Code::Backspace), lines) == (AppV {
                search_query: a.search_query.take(a.search_query.len() - 1),
                search_results: Seq::empty(),
                ..a
            })
            &&& a.search_sel + 1 < n ==> after_key(a, bare(Code::Down), lines) == (AppV {
                search_sel: (a.search_sel + 1) as usize,
                ..a
            })
            &&& a.search_sel + 1 == n ==> after_key(a, bare(Code::Down), lines) == (AppV { search_sel: 0, ..a })
            &&& 0 < a.search_sel < n <= usize::MAX ==> after_key(a, bare(Code::Up), lines) == (AppV {
                search_sel: (a.search_sel - 1) as usize,
                ..a
            })
        }),
{
    let n = a.search_results.len() as int;
    if n > 0 {
        lemma_round(a.search_sel as int, n);
    }
    if a.search_query.len() > 0 {
        assert(a.search_query.take(a.search_query.len() - 1) =~= a.search_query.drop_last());
    }
}

/// A search result is gone to: its chat is on the screen, where it is known, with the messages in
/// focus.
#[verifier::spinoff_prover]
pub proof fn results_are_gone_to(a: AppV, lines: Seq<Seq<char>>, k: int)
    requires
        a.mode == Mode::Search,
        a.search_sel < a.search_results.len(),
        a.chats.len() <= usize::MAX,
        0 <= k < a.chats.len(),
        a.chats[k].id == a.search_results[a.search_sel as int].chat_id,
    ensures
        ({
            let b = after_key(a, bare(Code::Enter), lines);
            &&& b.mode == Mode::Normal
            &&& b.focus == Focus::Messages
            &&& b.chat_filter.len() == 0
            &&& b.new_chat is None
            &&& id_on_screen(b) == Some(a.chats[k].id)
        }),
{
    let id = a.chats[k].id;
    lemma_chat_first(a.chats, id, 0, k);
    lemma_chat_place(a.chats, id, 0);
    let p = chat_place(a.chats, id, 0)->0;
    let b = after_key(a, bare(Code::Enter), lines);
    assert(b.chats == a.chats);
    assert(b.chat_sel == p);
    assert(listed_chats(b)[p] == p);
}

/// A result in a chat that is not known only ends the search and drops the filter.
pub proof fn results_in_unknown_chats(a: AppV, lines: Seq<Seq<char>>)
    requires
        a.mode == Mode::Search,
        a.search_sel < a.search_results.len(),
        forall|j: int| 0 <= j < a.chats.len() ==> (#[trigger] a.chats[j]).id != a.search_results[a.search_sel as int].chat_id,
    ensures
        after_key(a, bare(Code::Enter), lines) == (AppV { mode: Mode::Normal, chat_filter: Seq::empty(), ..a }),
{
    lemma_chat_place(a.chats, a.search_results[a.search_sel as int].chat_id, 0);
}

/// In a picker and in the search results `Tab` goes down and `BackTab` goes up, as the arrows do;
/// from the first entry up is the last; where there is none, nothing moves.
#[verifier::spinoff_prover]
pub proof fn lists_go_round(a: AppV, lines: Seq<Seq<char>>)
    requires
        a.mode == Mode::Emoji || a.mode == Mode::Contacts || a.mode == Mode::Search,
    ensures
        after_key(a, bare(Code::Tab), lines) == after_key(a, bare(Code::Down), lines),
        after_key(a, bare(Code::BackTab), lines) == after_key(a, bare(Code::Up), lines),
        a.mode == Mode::Contacts && a.picker_sel == 0 && 0 < picker_list(a).len() <= usize::MAX ==> after_key(
            a,
            bare(Code::Up),
            lines,
        ) == (AppV { picker_sel: (picker_list(a).len() - 1) as usize, ..a }),
        a.mode == Mode::Search && a.search_sel == 0 && 0 < a.search_results.len() <= usize::MAX ==> after_key(
            a,
            bare(Code::Up),
            lines,
        ) == (AppV { search_sel: (a.search_results.len() - 1) as usize, ..a }),
        a.mode == Mode::Emoji && emoji_list(a).len() == 0 ==> after_key(a, bare(Code::Down), lines) == a && after_key(
            a,
            bare(Code::Up),
            lines,
        ) == a,
        a.mode == Mode::Contacts && picker_list(a).len() == 0 ==> after_key(a, bare(Code::Down), lines) == a && after_key(
            a,
            bare(Code::Up),
            lines,
        ) == a,
        a.mode == Mode::Search && a.search_results.len() == 0 ==> after_key(a, bare(Code::Down), lines) == a && after_key(
            a,
            bare(Code::Up),
            lines,
        ) == a,
{
    if a.picker_sel == 0 && picker_list(a).len() > 0 {
        lemma_round(0, picker_list(a).len() as int);
    }
    if a.search_sel == 0 && a.search_results.len() > 0 {
        lemma_round(0, a.search_results.len() as int);
    }
}

/// Keys without a meaning change nothing.
#[verifier::spinoff_prover]
pub proof fn other_keys_change_nothing(a: AppV, k: Code, lines: Seq<Seq<char>>)
    requires
        k == Code::Other || k == Code::Left || k == Code::Right || k == Code::Home || k == Code::End || k == Code::PageUp
            || k == Code::PageDown,
        a.mode != Mode::Normal,
        a.mode != Mode::Help,
    ensures
        after_key(a, bare(k), lines) == a,
{
}

/// Letters without a meaning change nothing in the chat list and the messages.
pub proof fn other_letters_change_nothing(a: AppV, c: char, lines: Seq<Seq<char>>)
    requires
        a.mode == Mode::Normal,
        a.focus != Focus::Compose,
        c != 'j' && c != 'k' && c != 'g' && c != 'G' && c != 'i' && c != 'l' && c != 'h' && c != 'u' && c != 'd' && c != 'o' && c
            != 's' && c != 'y' && c != '/' && c != '?' && c != 'q',
    ensures
        after_key(a, bare(Code::Char(c)), lines) == a,
        after_key(a, bare(Code::Other), lines) == a,
        after_key(a, bare(Code::Backspace), lines) == a,
{
}

/// A letter with `Ctrl` that means nothing everywhere goes to the compose box.
pub proof fn other_control_keys_go_to_the_box(a: AppV, c: char, lines: Seq<Seq<char>>)
    requires
        a.mode == Mode::Normal,
        a.focus == Focus::Compose,
        c != 'c' && c != 'q' && c != 'r' && c != 'l' && c != 'n' && c != 'e' && c != 'f' && c != 's' && c != 'j',
    ensures
        after_key(a, with_ctrl(c), lines) == (AppV { outbox: a.outbox.push(RequestV::Input), ..a }),
{
}

/// Taking back a character where there is none leaves the query empty.
pub proof fn nothing_is_taken_back(a: AppV, lines: Seq<Seq<char>>)
    ensures
        ({
            let b = after_key(a, bare(Code::Backspace), lines);
            &&& a.mode == Mode::Emoji && a.emoji_query.len() == 0 ==> b.emoji_query.len() == 0 && b.emoji_sel == 0
            &&& a.mode == Mode::Contacts && a.picker_query.len() == 0 ==> b.picker_query.len() == 0 && b.picker_sel == 0
            &&& a.mode == Mode::Attach && a.attach_input.len() == 0 ==> b.attach_input.len() == 0
            &&& a.mode == Mode::Search && a.search_query.len() == 0 ==> b.search_query.len() == 0
                && b.search_results.len() == 0
            &&& a.mode == Mode::ChatFilter && a.chat_filter.len() == 0 ==> b.chat_filter.len() == 0 && b.chat_sel == 0
        }),
{
}

// ----- emoji -----

/// A shortcode between two colons gives way to its emoji, and what stands before it stays; a colon
/// that begins no known shortcode stays.
pub proof fn shortcodes_give_way_to_emoji(a: Seq<char>, code: Seq<char>, b: Seq<char>)
    requires
        !a.contains(':'),
        !code.contains(':'),
    ensures
        ({
            let s = a + seq![':'] + code + seq![':'] + b;
            let known = code.len() > 0 && (forall|i: int| 0 <= i < code.len() ==> !is_white(#[trigger] code[i]))
                && emoji_for(code) is Some;
            &&& known ==> expanded(s) == a + emoji_for(code)->0 + expanded(b)
            &&& !known ==> expanded(s) == a + seq![':'] + expanded(code + seq![':'] + b)
        }),
{
    let s = a + seq![':'] + code + seq![':'] + b;
    lemma_colon(a, code + seq![':'] + b);
    assert(s =~= a + seq![':'] + (code + seq![':'] + b));
    let i = a.len() as int;
    assert(position(s, ':') == i);
    let after = s.skip(i + 1);
    assert(after =~= code + seq![':'] + b);
    lemma_colon(code, b);
    assert(position(after, ':') == code.len());
    assert(after.take(code.len() as int) =~= code);
    if is_code(code) && emoji_for(code) is Some {
        assert(code_of(s) == Some(code));
        assert(s.take(i) =~= a);
        assert(s.skip(i + 2 + code.len()) =~= b);
    } else {
        assert(s.take(i + 1) =~= a + seq![':']);
        if is_code(code) {
            assert(code_of(s) == Some(code));
        } else {
            assert(code_of(s) is None);
        }
    }
}

proof fn lemma_colon(a: Seq<char>, b: Seq<char>)
    requires
        !a.contains(':'),
    ensures
        position(a + seq![':'] + b, ':') == a.len(),
{
    let s = a + seq![':'] + b;
    positions_are_first_and_last(s, ':');
    let p = position(s, ':');
    assert(s[a.len() as int] == ':');
    if p < a.len() {
        assert(a[p] == s[p]);
        assert(a.contains(a[p]));
    }
}

/// A shortcode is closed by a colon where another colon stands before it, with no colon and no space
/// between them, and something.
pub proof fn shortcodes_are_closed_by_a_colon(a: Seq<char>, code: Seq<char>, line: Seq<char>, n: int)
    ensures
        code.len() > 0 && !code.contains(':') && !code.contains(' ') ==> closed_code(a + seq![':'] + code + seq![':'])
            == Some(code),
        !code.contains(':') && (code.len() == 0 || code.contains(' ')) ==> closed_code(a + seq![':'] + code + seq![':'])
            is None,
        a.len() > 0 && a.last() != ':' ==> closed_code(a) is None,
        !a.contains(':') ==> closed_code(a + seq![':']) is None,
        0 <= n < line.len() ==> left_of(line, n) == line.take(n),
        n >= line.len() ==> left_of(line, n) == line,
{
    if !code.contains(':') {
        let s = a + seq![':'] + code + seq![':'];
        let t = s.drop_last();
        assert(t =~= a + seq![':'] + code);
        positions_are_first_and_last(t, ':');
        let n = after_last(t, ':');
        assert(t[a.len() as int] == ':');
        assert(n == a.len() + 1) by {
            if n > a.len() + 1 {
                assert(t[n - 1] == code[n - 2 - a.len()]);
                assert(code.contains(code[n - 2 - a.len()]));
            }
        }
        assert(t.skip(n) =~= code);
    }
    if !a.contains(':') {
        let s = a + seq![':'];
        assert(s.drop_last() =~= a);
        positions_are_first_and_last(a, ':');
        if after_last(a, ':') > 0 {
            assert(a.contains(a[after_last(a, ':') - 1]));
        }
    }
}

/// An emoji is found where the query is one of its shortcodes, which puts it first, or where its name
/// or a shortcode holds the query; every emoji where there is no query; as long as there are not over
/// 400.
pub proof fn emoji_are_found_by_name(table: Seq<EmojiEntryV>, q: Seq<char>, n: int)
    requires
        0 <= n < table.len() <= usize::MAX,
    ensures
        emoji_scan(table, q, 0) == (Seq::<usize>::empty(), Seq::<usize>::empty()),
        ({
            let (exact, like) = emoji_scan(table, q, n);
            let after = emoji_scan(table, q, n + 1);
            let e = table[n];
            let full = exact.len() + like.len() > 400;
            let is_name = exists|i: int| 0 <= i < e.shortcodes.len() && #[trigger] e.shortcodes[i] == q;
            let holds = contains(lowercase(e.name), q) || exists|i: int|
                0 <= i < e.shortcodes.len() && contains(#[trigger] e.shortcodes[i], q);
            &&& full ==> after == (exact, like)
            &&& !full && q.len() == 0 ==> after == (exact, like.push(n as usize))
            &&& !full && q.len() > 0 && is_name ==> after == (exact.push(n as usize), like)
            &&& !full && q.len() > 0 && !is_name && holds ==> after == (exact, like.push(n as usize))
            &&& !full && q.len() > 0 && !is_name && !holds ==> after == (exact, like)
        }),
{
    let e = table[n];
    if e.shortcodes.contains(q) {
        let i = choose|i: int| 0 <= i < e.shortcodes.len() && e.shortcodes[i] == q;
        assert(e.shortcodes[i] == q);
    }
}

/// The emoji that a query finds, in lower case: first those that it names, then the others.
pub proof fn named_emoji_come_first(table: Seq<EmojiEntryV>, query: Seq<char>)
    ensures
        emoji_hits(table, query) == emoji_scan(table, lowercase(query), table.len() as int).0 + emoji_scan(
            table,
            lowercase(query),
            table.len() as int,
        ).1,
{
}

} // verus!
