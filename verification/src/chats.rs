//! The chat list: members, previews, unread counts and the marks of what was viewed.
use crate::contacts::ContactBook;
use crate::content::clean_text;
use crate::db::{participant_of, visible_text, Db, Directory};
use crate::maps::keys_of;
use crate::numbers::{dec_int, decimal_i64, parse_i64, parse_int, parse_undoes_decimal};
use crate::rows::{ChatRow, PreviewRow, UnreadRow};
use crate::text::{chars_of, opt, str_same, string_of, strip_prefix, stripped, views};
use crate::wire::{
    apple_ns_to_unix_ms, normalize, normalize_address, stamp_ok, unix_ms, Chat, ChatV, Participant, ParticipantV,
};
use std::collections::HashMap;
use vstd::prelude::*;

verus! {

broadcast use vstd::std_specs::hash::group_hash_axioms;

// ----- opening -----

/// Handles by id after reading rows in order; a later row counts.
pub open spec fn handles_after(m: Map<i64, Seq<char>>, rows: Seq<(i64, String)>) -> Map<i64, Seq<char>>
    decreases rows.len(),
{
    if rows.len() == 0 {
        m
    } else {
        handles_after(m, rows.drop_last()).insert(rows.last().0, rows.last().1@)
    }
}

/// The largest handle id after reading rows.
pub open spec fn max_after(n: i64, rows: Seq<(i64, String)>) -> i64
    decreases rows.len(),
{
    if rows.len() == 0 {
        n
    } else {
        let before = max_after(n, rows.drop_last());
        if rows.last().0 > before {
            rows.last().0
        } else {
            before
        }
    }
}

impl Db {
    /// A database with the handles in `rows` and no marks.
    pub fn open(rows: Vec<(i64, String)>) -> (r: Self)
        ensures
            r.handle_map() == handles_after(Map::empty(), rows@),
            r.handles_loaded_max == max_after(0, rows@),
            r.seen@ == Map::<i64, i64>::empty(),
    {
        let mut db: Db = Db { handles: HashMap::new(), handles_loaded_max: 0, seen: HashMap::new() };
        assert(db.handle_map() =~= Map::<i64, Seq<char>>::empty());
        db.refresh_handles(rows);
        db
    }

    /// Take in handles that are new in the database.
    pub fn refresh_handles(&mut self, rows: Vec<(i64, String)>)
        ensures
            final(self).handle_map() == handles_after(old(self).handle_map(), rows@),
            final(self).handles_loaded_max == max_after(old(self).handles_loaded_max, rows@),
            final(self).seen == old(self).seen,
    {
        let mut i: usize = 0;
        let ghost m0 = self.handle_map();
        let ghost n0 = self.handles_loaded_max;
        let ghost seen0 = self.seen;
        assert(rows@.take(0) =~= Seq::<(i64, String)>::empty());
        while i < rows.len()
            invariant
                i <= rows.len(),
                self.handle_map() == handles_after(m0, rows@.take(i as int)),
                self.handles_loaded_max == max_after(n0, rows@.take(i as int)),
                self.seen == seen0,
            decreases rows.len() - i,
        {
            assert(rows@.take(i + 1).drop_last() =~= rows@.take(i as int));
            let id: i64 = rows[i].0;
            let addr: String = rows[i].1.clone();
            if id > self.handles_loaded_max {
                self.handles_loaded_max = id;
            }
            let ghost before = self.handle_map();
            self.handles.insert(id, addr);
            assert(self.handle_map() =~= before.insert(id, addr@));
            i += 1;
        }
        assert(rows@.take(i as int) =~= rows@);
    }
}

// ----- what was viewed -----

/// The newest message viewed in a chat; 0 where nothing was.
pub open spec fn mark_of(seen: Map<i64, i64>, chat_id: i64) -> i64 {
    if seen.dom().contains(chat_id) {
        seen[chat_id]
    } else {
        0
    }
}

/// The marks after everything up to message `id` of a chat was viewed. A mark never moves back.
pub open spec fn marked(seen: Map<i64, i64>, chat_id: i64, id: i64) -> Map<i64, i64> {
    if id > mark_of(seen, chat_id) {
        seen.insert(chat_id, id)
    } else {
        seen
    }
}

/// The message that a request to mark a chat speaks of: the one it names, else the newest.
pub open spec fn mark_target(message_id: Option<i64>, newest: i64) -> i64 {
    match message_id {
        Some(id) => id,
        None => newest,
    }
}

impl Db {
    /// The newest message viewed in a chat.
    pub fn seen_mark(&self, chat_id: i64) -> (r: i64)
        ensures
            r == mark_of(self.seen@, chat_id),
    {
        match self.seen.get(&chat_id) {
            Some(id) => *id,
            None => 0,
        }
    }

    /// Record that everything in `chat_id` up to `message_id` (or the newest message when `None`)
    /// has been viewed. Returns the id that was recorded, and whether the mark moved.
    pub fn mark_seen(&mut self, chat_id: i64, message_id: Option<i64>, newest: i64) -> (r: (i64, bool))
        ensures
            final(self).seen@ == marked(old(self).seen@, chat_id, mark_target(message_id, newest)),
            final(self).handles == old(self).handles,
            final(self).handles_loaded_max == old(self).handles_loaded_max,
            r.0 == mark_of(final(self).seen@, chat_id),
            r.1 <==> final(self).seen@ != old(self).seen@,
    {
        let id: i64 = match message_id {
            Some(id) => id,
            None => newest,
        };
        let current: i64 = self.seen_mark(chat_id);
        if id > current {
            let ghost before = self.seen@;
            self.seen.insert(chat_id, id);
            assert(mark_of(self.seen@, chat_id) != mark_of(before, chat_id));
            return (id, true);
        }
        (current, false)
    }
}

/// The marks that a text of JSON holds, each under the chat id as a string; none where the text
/// is no such JSON.
pub uninterp spec fn json_marks(text: Seq<char>) -> Option<Map<Seq<char>, i64>>;

/// Pairs in some order that hold exactly the entries of a map.
pub open spec fn lists(pairs: Seq<(String, i64)>, m: Map<Seq<char>, i64>) -> bool {
    &&& forall|i: int|
        0 <= i < pairs.len() ==> m.dom().contains((#[trigger] pairs[i]).0@) && m[pairs[i].0@] == pairs[i].1
    &&& forall|k: Seq<char>| #[trigger]
        m.dom().contains(k) ==> exists|i: int| 0 <= i < pairs.len() && (#[trigger] pairs[i]).0@ == k
}

/// `serde_json::from_str` into a `HashMap<String, i64>`, its entries handed out in any order.
/// Which texts are JSON, and of which map, is not spelled out.
#[verifier::external_body]
fn read_marks(text: &str) -> (r: Option<Vec<(String, i64)>>)
    ensures
        r is Some <==> json_marks(text@) is Some,
        r is Some ==> lists((r->0)@, json_marks(text@)->0),
{
    serde_json::from_str::<HashMap<String, i64>>(text).ok().map(|m| m.into_iter().collect())
}

/// `serde_json::to_string` of a `HashMap<String, i64>` made of the given pairs. It succeeds, as
/// all keys are strings, and reading the text gives the same entries back.
#[verifier::external_body]
fn write_marks(pairs: Vec<(String, i64)>) -> (r: Option<String>)
    requires
        forall|i: int, j: int| 0 <= i < j < pairs@.len() ==> (#[trigger] pairs@[i]).0@ != (#[trigger] pairs@[j]).0@,
    ensures
        r is Some,
        json_marks((r->0)@) is Some,
        lists(pairs@, json_marks((r->0)@)->0),
{
    serde_json::to_string(&pairs.into_iter().collect::<HashMap<String, i64>>()).ok()
}

/// Marks read from entries: each entry whose key is a number counts. Where two keys are the same
/// number, either may.
pub open spec fn marks_from(entries: Map<Seq<char>, i64>, seen: Map<i64, i64>) -> bool {
    &&& forall|k: Seq<char>| #[trigger]
        entries.dom().contains(k) && parse_int(k) is Some ==> seen.dom().contains(parse_int(k)->0 as i64)
    &&& forall|c: i64| #[trigger]
        seen.dom().contains(c) ==> exists|k: Seq<char>| #[trigger]
            entries.dom().contains(k) && parse_int(k) == Some(c as int) && entries[k] == seen[c]
}

/// The entries that marks are written as: each under its chat id in decimal.
pub open spec fn entries_of(seen: Map<i64, i64>, entries: Map<Seq<char>, i64>) -> bool {
    &&& forall|c: i64| #[trigger]
        seen.dom().contains(c) ==> entries.dom().contains(dec_int(c as int)) && entries[dec_int(c as int)] == seen[c]
    &&& forall|k: Seq<char>| #[trigger]
        entries.dom().contains(k) ==> exists|c: i64| #[trigger] seen.dom().contains(c) && dec_int(c as int) == k
}

/// Marks that were written are read back as they were.
pub proof fn marks_survive(seen: Map<i64, i64>, entries: Map<Seq<char>, i64>, again: Map<i64, i64>)
    requires
        entries_of(seen, entries),
        marks_from(entries, again),
    ensures
        again == seen,
{
    assert forall|c: i64| #[trigger] seen.dom().contains(c) implies again.dom().contains(c) && again[c] == seen[c] by {
        let k = dec_int(c as int);
        parse_undoes_decimal(c as int);
        assert(entries.dom().contains(k));
        assert(again.dom().contains(c));
        let k2 = choose|k2: Seq<char>| #[trigger]
            entries.dom().contains(k2) && parse_int(k2) == Some(c as int) && entries[k2] == again[c];
        let c2 = choose|c2: i64| #[trigger] seen.dom().contains(c2) && dec_int(c2 as int) == k2;
        parse_undoes_decimal(c2 as int);
    }
    assert forall|c: i64| #[trigger] again.dom().contains(c) implies seen.dom().contains(c) by {
        let k = choose|k: Seq<char>| #[trigger]
            entries.dom().contains(k) && parse_int(k) == Some(c as int) && entries[k] == again[c];
        let c2 = choose|c2: i64| #[trigger] seen.dom().contains(c2) && dec_int(c2 as int) == k;
        parse_undoes_decimal(c2 as int);
    }
    assert(again =~= seen);
}

impl Db {
    /// Take over the marks that `entries` hold.
    pub fn load_marks(&mut self, entries: &Vec<(String, i64)>)
        ensures
            forall|m: Map<Seq<char>, i64>| #[trigger] lists(entries@, m) ==> marks_from(m, final(self).seen@),
            final(self).handles == old(self).handles,
            final(self).handles_loaded_max == old(self).handles_loaded_max,
    {
        let mut seen: HashMap<i64, i64> = HashMap::new();
        let mut i: usize = 0;
        while i < entries.len()
            invariant
                i <= entries.len(),
                forall|j: int|
                    0 <= j < i && parse_int((#[trigger] entries@[j]).0@) is Some ==> seen@.dom().contains(
                        parse_int(entries@[j].0@)->0 as i64,
                    ),
                forall|c: i64| #[trigger]
                    seen@.dom().contains(c) ==> exists|j: int|
                        0 <= j < i && parse_int((#[trigger] entries@[j]).0@) == Some(c as int) && entries@[j].1
                            == seen@[c],
            decreases entries.len() - i,
        {
            let ghost before = seen@;
            if let Some(c) = parse_i64(entries[i].0.as_str()) {
                seen.insert(c, entries[i].1);
                assert(parse_int(entries@[i as int].0@) == Some(c as int));
                assert forall|c2: i64| #[trigger] seen@.dom().contains(c2) implies exists|j: int|
                    0 <= j < i + 1 && parse_int((#[trigger] entries@[j]).0@) == Some(c2 as int) && entries@[j].1
                        == seen@[c2] by {
                    if c2 == c {
                        assert(entries@[i as int].1 == seen@[c2]);
                    } else {
                        assert(before.dom().contains(c2));
                        let j = choose|j: int|
                            0 <= j < i && parse_int((#[trigger] entries@[j]).0@) == Some(c2 as int) && entries@[j].1
                                == before[c2];
                        assert(entries@[j].1 == seen@[c2]);
                    }
                }
            }
            i += 1;
        }
        self.seen = seen;
        assert forall|m: Map<Seq<char>, i64>| #[trigger] lists(entries@, m) implies marks_from(m, self.seen@) by {
            assert forall|k: Seq<char>| #[trigger] m.dom().contains(k) && parse_int(k) is Some implies seen@.dom().contains(
                parse_int(k)->0 as i64,
            ) by {
                let j = choose|j: int| 0 <= j < entries@.len() && (#[trigger] entries@[j]).0@ == k;
                assert(entries@[j].0@ == k);
            }
            assert forall|c: i64| #[trigger] seen@.dom().contains(c) implies exists|k: Seq<char>| #[trigger]
                m.dom().contains(k) && parse_int(k) == Some(c as int) && m[k] == seen@[c] by {
                let j = choose|j: int|
                    0 <= j < i && parse_int((#[trigger] entries@[j]).0@) == Some(c as int) && entries@[j].1 == seen@[c];
                assert(m.dom().contains(entries@[j].0@));
            }
        }
    }

    /// Take over the marks in the text of a file of JSON `{ "<chat_id>": <message_id> }`. A file
    /// that is not there or cannot be read as such leaves the marks as they are; the answer says
    /// whether the text was read.
    pub fn with_seen_file(&mut self, text: Option<&str>) -> (r: bool)
        ensures
            r <==> text is Some && json_marks(text->0@) is Some,
            r ==> marks_from(json_marks(text->0@)->0, final(self).seen@),
            !r ==> final(self).seen == old(self).seen,
            final(self).handles == old(self).handles,
            final(self).handles_loaded_max == old(self).handles_loaded_max,
    {
        match text {
            Some(t) => match read_marks(t) {
                Some(entries) => {
                    self.load_marks(&entries);
                    true
                },
                None => false,
            },
            None => false,
        }
    }

    /// The marks as the text of a file that `with_seen_file` takes.
    pub fn save_seen(&self) -> (r: Option<String>)
        ensures
            r is Some,
            json_marks((r->0)@) is Some,
            entries_of(self.seen@, json_marks((r->0)@)->0),
    {
        let keys: Vec<i64> = keys_of(&self.seen);
        let mut pairs: Vec<(String, i64)> = Vec::new();
        let mut i: usize = 0;
        assert forall|j: int| 0 <= j < keys@.len() implies self.seen@.dom().contains(#[trigger] keys@[j]) by {
            assert(keys@.to_set().contains(keys@[j]));
        }
        while i < keys.len()
            invariant
                i <= keys.len(),
                pairs@.len() == i,
                forall|j: int| 0 <= j < keys@.len() ==> self.seen@.dom().contains(#[trigger] keys@[j]),
                forall|j: int|
                    0 <= j < i ==> (#[trigger] pairs@[j]).0@ == dec_int(keys@[j] as int) && pairs@[j].1
                        == self.seen@[keys@[j]],
            decreases keys.len() - i,
        {
            assert(self.seen@.dom().contains(keys@[i as int]));
            pairs.push((decimal_i64(keys[i]), self.seen_mark(keys[i])));
            i += 1;
        }
        assert forall|a: int, b: int| 0 <= a < b < pairs@.len() implies (#[trigger] pairs@[a]).0@ != (
        #[trigger] pairs@[b]).0@ by {
            assert(keys@[a] != keys@[b]);
            parse_undoes_decimal(keys@[a] as int);
            parse_undoes_decimal(keys@[b] as int);
        }
        let ghost ps = pairs@;
        let text: Option<String> = write_marks(pairs);
        proof {
            let m = json_marks((text->0)@)->0;
            assert(lists(ps, m));
            assert forall|c: i64| #[trigger] self.seen@.dom().contains(c) implies m.dom().contains(dec_int(c as int))
                && m[dec_int(c as int)] == self.seen@[c] by {
                assert(keys@.to_set().contains(c));
                let j = choose|j: int| 0 <= j < keys@.len() && keys@[j] == c;
                assert(ps[j].0@ == dec_int(c as int));
            }
            assert forall|k: Seq<char>| #[trigger] m.dom().contains(k) implies exists|c: i64| #[trigger]
                self.seen@.dom().contains(c) && dec_int(c as int) == k by {
                let j = choose|j: int| 0 <= j < ps.len() && (#[trigger] ps[j]).0@ == k;
                assert(self.seen@.dom().contains(keys@[j]));
            }
        }
        text
    }
}

// ----- unread -----

/// A message that counts as unread: one of others, not read, no tapback or system line, and newer
/// than the mark.
pub open spec fn is_unread(m: UnreadRow, seen: i64) -> bool {
    m.rowid > seen && !m.is_from_me && !m.is_read && m.item_type == 0 && (m.associated_type matches Some(t)
        ==> t < 1000)
}

/// How many messages are unread.
pub open spec fn unread_count(rows: Seq<UnreadRow>, seen: i64) -> nat
    decreases rows.len(),
{
    if rows.len() == 0 {
        0
    } else if is_unread(rows.last(), seen) {
        unread_count(rows.drop_last(), seen) + 1
    } else {
        unread_count(rows.drop_last(), seen)
    }
}

/// How many messages are unread.
pub fn unread(rows: &Vec<UnreadRow>, seen: i64) -> (r: usize)
    ensures
        r == unread_count(rows@, seen),
        r <= rows@.len(),
{
    let mut n: usize = 0;
    let mut i: usize = 0;
    assert(rows@.take(0) =~= Seq::<UnreadRow>::empty());
    while i < rows.len()
        invariant
            i <= rows.len(),
            n <= i,
            n == unread_count(rows@.take(i as int), seen),
        decreases rows.len() - i,
    {
        assert(rows@.take(i + 1).drop_last() =~= rows@.take(i as int));
        let m: UnreadRow = rows[i];
        let plain: bool = match m.associated_type {
            Some(t) => t < 1000,
            None => true,
        };
        if m.rowid > seen && !m.is_from_me && !m.is_read && m.item_type == 0 && plain {
            n += 1;
        }
        i += 1;
    }
    assert(rows@.take(i as int) =~= rows@);
    n
}

/// Viewing more never leaves more unread.
pub proof fn marking_reduces_unread(rows: Seq<UnreadRow>, a: i64, b: i64)
    requires
        a <= b,
    ensures
        unread_count(rows, b) <= unread_count(rows, a),
    decreases rows.len(),
{
    if rows.len() > 0 {
        marking_reduces_unread(rows.drop_last(), a, b);
    }
}

/// Nothing is unread in a chat that was viewed up to its newest message.
pub proof fn viewing_all_leaves_none_unread(
    rows: Seq<UnreadRow>,
    seen: Map<i64, i64>,
    chat_id: i64,
    newest: i64,
)
    requires
        forall|i: int| 0 <= i < rows.len() ==> (#[trigger] rows[i]).rowid <= newest,
    ensures
        unread_count(rows, mark_of(marked(seen, chat_id, mark_target(None, newest)), chat_id)) == 0,
    decreases rows.len(),
{
    if rows.len() > 0 {
        let l = rows.drop_last();
        assert forall|i: int| 0 <= i < l.len() implies (#[trigger] l[i]).rowid <= newest by {
            assert(rows[i].rowid <= newest);
        }
        viewing_all_leaves_none_unread(l, seen, chat_id, newest);
        assert(rows[rows.len() - 1].rowid <= newest);
    }
}

/// A mark never moves back, and marking one chat leaves the others alone.
pub proof fn marks_only_rise(seen: Map<i64, i64>, chat_id: i64, id: i64, other: i64)
    ensures
        mark_of(marked(seen, chat_id, id), chat_id) >= mark_of(seen, chat_id),
        mark_of(marked(seen, chat_id, id), chat_id) >= id,
        other != chat_id ==> mark_of(marked(seen, chat_id, id), other) == mark_of(seen, other),
{
}

// ----- chats -----

/// Nobody in the list has the address `key`, in normal form.
pub open spec fn no_address(ps: Seq<ParticipantV>, key: Seq<char>) -> bool {
    forall|i: int| 0 <= i < ps.len() ==> normalize((#[trigger] ps[i]).address) != key
}

/// The members of a chat by their handles: those that are known, each address once.
pub open spec fn members_of(d: Directory, ids: Seq<i64>) -> Seq<ParticipantV>
    decreases ids.len(),
{
    if ids.len() == 0 {
        Seq::empty()
    } else {
        let before = members_of(d, ids.drop_last());
        match participant_of(d, ids.last()) {
            Some(p) => if no_address(before, normalize(p.address)) {
                before.push(p)
            } else {
                before
            },
            None => before,
        }
    }
}

fn address_taken(ps: &Vec<Participant>, key: &str) -> (r: bool)
    ensures
        r == !no_address(views(ps@), key@),
{
    let mut i: usize = 0;
    while i < ps.len()
        invariant
            i <= ps.len(),
            forall|k: int| 0 <= k < i ==> normalize((#[trigger] views(ps@)[k]).address) != key@,
        decreases ps.len() - i,
    {
        if str_same(normalize_address(ps[i].address.as_str()).as_str(), key) {
            assert(normalize(views(ps@)[i as int].address) == key@);
            return true;
        }
        i += 1;
    }
    false
}

/// What the chat list shows of the newest message of a chat.
pub open spec fn preview_of(p: PreviewRow) -> Option<Seq<char>> {
    if visible_text(opt(p.text)) is Some {
        visible_text(opt(p.text))
    } else if p.num_attachments > 0 {
        Some("📎 Attachment"@)
    } else if p.is_announcement {
        Some("(system message)"@)
    } else if p.has_balloon {
        Some("🔗 Link"@)
    } else {
        None
    }
}

/// A chat as it goes over the wire; none for one without messages.
pub open spec fn chat_of(d: Directory, seen: Map<i64, i64>, row: ChatRow) -> Option<ChatV> {
    match row.last_date {
        Some(date) => Some(
            ChatV {
                id: row.id,
                guid: row.guid@,
                identifier: row.identifier@,
                service: match opt(row.service) {
                    Some(s) => s,
                    None => "iMessage"@,
                },
                display_name: match opt(row.display_name) {
                    Some(n) => if n.len() > 0 {
                        Some(n)
                    } else {
                        None
                    },
                    None => None,
                },
                is_group: row.style == 43,
                participants: members_of(d, row.handle_ids@),
                last_date: unix_ms(date as int) as i64,
                last_preview: match row.preview {
                    Some(p) => preview_of(p),
                    None => None,
                },
                last_from_me: row.preview is Some && row.preview->0.is_from_me,
                unread: unread_count(row.messages@, mark_of(seen, row.id)) as i64,
            },
        ),
        None => None,
    }
}

/// Chats as they go over the wire, in the order of their rows.
pub open spec fn chats_of(d: Directory, seen: Map<i64, i64>, rows: Seq<ChatRow>) -> Seq<ChatV>
    decreases rows.len(),
{
    if rows.len() == 0 {
        Seq::empty()
    } else {
        match chat_of(d, seen, rows.last()) {
            Some(c) => chats_of(d, seen, rows.drop_last()).push(c),
            None => chats_of(d, seen, rows.drop_last()),
        }
    }
}

/// The date of a chat row can be told in milliseconds.
pub open spec fn chat_row_ok(row: ChatRow) -> bool {
    row.last_date matches Some(date) ==> stamp_ok(date as int)
}

impl Db {
    /// The members of a chat by their handles.
    fn chat_participants(&self, ids: &Vec<i64>, book: &ContactBook) -> (r: Vec<Participant>)
        requires
            book.wf(),
        ensures
            views(r@) == members_of(self.directory(book), ids@),
    {
        let ghost d = self.directory(book);
        let mut out: Vec<Participant> = Vec::new();
        let mut i: usize = 0;
        assert(ids@.take(0) =~= Seq::<i64>::empty());
        assert(views(out@) =~= members_of(d, ids@.take(0)));
        while i < ids.len()
            invariant
                i <= ids.len(),
                book.wf(),
                d == self.directory(book),
                views(out@) == members_of(d, ids@.take(i as int)),
            decreases ids.len() - i,
        {
            assert(ids@.take(i + 1).drop_last() =~= ids@.take(i as int));
            if let Some(p) = self.participant(ids[i], book) {
                if !address_taken(&out, normalize_address(p.address.as_str()).as_str()) {
                    let ghost before = views(out@);
                    let ghost pv = p@;
                    out.push(p);
                    assert(views(out@) =~= before.push(pv));
                }
            }
            i += 1;
        }
        assert(ids@.take(i as int) =~= ids@);
        out
    }

    /// What the chat list shows of the newest message of a chat, and whether it is the owner's.
    fn last_preview(row: &Option<PreviewRow>) -> (r: (Option<String>, bool))
        ensures
            opt(r.0) == (match *row {
                Some(p) => preview_of(p),
                None => None,
            }),
            r.1 == (row is Some && row->0.is_from_me),
    {
        let p: &PreviewRow = match row {
            Some(p) => p,
            None => {
                return (None, false);
            },
        };
        if let Some(t) = &p.text {
            let c: String = clean_text(t.as_str());
            if !c.as_str().is_empty() {
                return (Some(c), p.is_from_me);
            }
        }
        let word: Option<String> = if p.num_attachments > 0 {
            Some("📎 Attachment".to_owned())
        } else if p.is_announcement {
            Some("(system message)".to_owned())
        } else if p.has_balloon {
            Some("🔗 Link".to_owned())
        } else {
            None
        };
        (word, p.is_from_me)
    }

    fn convert_chat(&self, row: &ChatRow, book: &ContactBook) -> (r: Option<Chat>)
        requires
            book.wf(),
            chat_row_ok(*row),
        ensures
            opt(r) == chat_of(self.directory(book), self.seen@, *row),
    {
        let date: i64 = match row.last_date {
            Some(date) => date,
            None => {
                return None;
            },
        };
        let (last_preview, last_from_me): (Option<String>, bool) = Db::last_preview(&row.preview);
        let n: usize = unread(&row.messages, self.seen_mark(row.id));
        Some(
            Chat {
                id: row.id,
                guid: row.guid.clone(),
                identifier: row.identifier.clone(),
                service: match &row.service {
                    Some(s) => s.clone(),
                    None => "iMessage".to_owned(),
                },
                display_name: match &row.display_name {
                    Some(n) => if n.as_str().is_empty() {
                        None
                    } else {
                        Some(n.clone())
                    },
                    None => None,
                },
                is_group: row.style == 43,
                participants: self.chat_participants(&row.handle_ids, book),
                last_date: apple_ns_to_unix_ms(date),
                last_preview,
                last_from_me,
                unread: n as i64,
            },
        )
    }

    /// Chats as they go over the wire, in the order of their rows; those without messages are
    /// left out.
    pub fn chats(&self, rows: &Vec<ChatRow>, book: &ContactBook) -> (r: Vec<Chat>)
        requires
            book.wf(),
            forall|i: int| 0 <= i < rows@.len() ==> chat_row_ok(#[trigger] rows@[i]),
        ensures
            views(r@) == chats_of(self.directory(book), self.seen@, rows@),
    {
        let ghost d = self.directory(book);
        let mut out: Vec<Chat> = Vec::new();
        let mut i: usize = 0;
        assert(rows@.take(0) =~= Seq::<ChatRow>::empty());
        assert(views(out@) =~= chats_of(d, self.seen@, rows@.take(0)));
        while i < rows.len()
            invariant
                i <= rows.len(),
                book.wf(),
                d == self.directory(book),
                forall|i: int| 0 <= i < rows@.len() ==> chat_row_ok(#[trigger] rows@[i]),
                views(out@) == chats_of(d, self.seen@, rows@.take(i as int)),
            decreases rows.len() - i,
        {
            assert(rows@.take(i + 1).drop_last() =~= rows@.take(i as int));
            assert(chat_row_ok(rows@[i as int]));
            if let Some(c) = self.convert_chat(&rows[i], book) {
                let ghost before = views(out@);
                let ghost cv = c@;
                out.push(c);
                assert(views(out@) =~= before.push(cv));
            }
            i += 1;
        }
        assert(rows@.take(i as int) =~= rows@);
        out
    }

    /// The chat that a lookup by id found.
    pub fn chat_by_id(&self, row: &Option<ChatRow>, book: &ContactBook) -> (r: Option<Chat>)
        requires
            book.wf(),
            row is Some ==> chat_row_ok(row->0),
        ensures
            opt(r) == (match *row {
                Some(row) => chat_of(self.directory(book), self.seen@, row),
                None => None,
            }),
    {
        match row {
            Some(row) => self.convert_chat(row, book),
            None => None,
        }
    }
}

/// A chat between two with the address `want`, in normal form.
pub open spec fn is_direct(c: ChatV, want: Seq<char>) -> bool {
    !c.is_group && c.participants.len() == 1 && normalize(c.participants[0].address) == want
}

impl Db {
    /// Find an existing chat for a set of addresses: the first one between two with the address, and
    /// none where there is not exactly one address.
    pub fn chat_for_addresses<'a>(addrs: &Vec<String>, chats: &'a Vec<Chat>) -> (r: Option<&'a Chat>)
        ensures
            r is Some ==> addrs@.len() == 1 && exists|i: int|
                0 <= i < chats@.len() && *(r->0) == (#[trigger] chats@[i]) && is_direct(chats@[i]@, normalize(addrs@[0]@))
                    && forall|k: int| 0 <= k < i ==> !is_direct((#[trigger] chats@[k])@, normalize(addrs@[0]@)),
            r is None ==> addrs@.len() != 1 || forall|k: int|
                0 <= k < chats@.len() ==> !is_direct((#[trigger] chats@[k])@, normalize(addrs@[0]@)),
    {
        if addrs.len() != 1 {
            return None;
        }
        let want: String = normalize_address(addrs[0].as_str());
        let mut i: usize = 0;
        while i < chats.len()
            invariant
                i <= chats.len(),
                addrs@.len() == 1,
                want@ == normalize(addrs@[0]@),
                forall|k: int| 0 <= k < i ==> !is_direct((#[trigger] chats@[k])@, want@),
            decreases chats.len() - i,
        {
            let c: &Chat = &chats[i];
            assert(c@.participants.len() == c.participants@.len());
            if !c.is_group && c.participants.len() == 1 {
                assert(c@.participants[0] == c.participants@[0]@);
                if str_same(normalize_address(c.participants[0].address.as_str()).as_str(), want.as_str()) {
                    return Some(c);
                }
            }
            i += 1;
        }
        None
    }
}

// ----- own addresses -----

/// A text without any number of copies of `p` at its start.
pub open spec fn strip_all(s: Seq<char>, p: Seq<char>) -> Seq<char>
    decreases s.len(),
{
    match strip_prefix(s, p) {
        Some(rest) => if rest.len() < s.len() {
            strip_all(rest, p)
        } else {
            s
        },
        None => s,
    }
}

fn without_scheme(s: &str) -> (r: String)
    ensures
        r@ == strip_all(s@, "tel:"@),
{
    proof {
        reveal_strlit("tel:");
    }
    let mut v: Vec<char> = chars_of(s);
    loop
        invariant
            "tel:"@.len() == 4,
            strip_all(s@, "tel:"@) == strip_all(v@, "tel:"@),
        decreases v@.len(),
    {
        match stripped(&v, "tel:") {
            Some(rest) => {
                v = rest;
            },
            None => {
                return string_of(&v);
            },
        }
    }
}

/// No address in the list is the same as the one with the normal form `key`.
pub open spec fn unlisted(list: Seq<Seq<char>>, key: Seq<char>) -> bool {
    forall|i: int| 0 <= i < list.len() ==> normalize(#[trigger] list[i]) != key
}

/// The owner's addresses among those that messages were sent from, without their scheme and each
/// once.
pub open spec fn own_addresses(rows: Seq<Seq<char>>) -> Seq<Seq<char>>
    decreases rows.len(),
{
    if rows.len() == 0 {
        Seq::empty()
    } else {
        let before = own_addresses(rows.drop_last());
        let a = strip_all(rows.last(), "tel:"@);
        if unlisted(before, normalize(a)) {
            before.push(a)
        } else {
            before
        }
    }
}

fn listed(list: &Vec<String>, key: &str) -> (r: bool)
    ensures
        r == !unlisted(views(list@), key@),
{
    let mut i: usize = 0;
    while i < list.len()
        invariant
            i <= list.len(),
            forall|k: int| 0 <= k < i ==> normalize(#[trigger] views(list@)[k]) != key@,
        decreases list.len() - i,
    {
        if str_same(normalize_address(list[i].as_str()).as_str(), key) {
            assert(normalize(views(list@)[i as int]) == key@);
            return true;
        }
        i += 1;
    }
    false
}

impl Db {
    /// The owner's addresses among those that messages were sent from.
    pub fn my_addresses(rows: &Vec<String>) -> (r: Vec<String>)
        ensures
            views(r@) == own_addresses(views(rows@)),
    {
        let ghost all = views(rows@);
        let mut out: Vec<String> = Vec::new();
        let mut i: usize = 0;
        assert(all.take(0) =~= Seq::<Seq<char>>::empty());
        assert(views(out@) =~= own_addresses(all.take(0)));
        while i < rows.len()
            invariant
                i <= rows.len(),
                all == views(rows@),
                views(out@) == own_addresses(all.take(i as int)),
            decreases rows.len() - i,
        {
            assert(all.take(i + 1).drop_last() =~= all.take(i as int));
            assert(all.take(i + 1).last() == rows@[i as int]@);
            let a: String = without_scheme(rows[i].as_str());
            if !listed(&out, normalize_address(a.as_str()).as_str()) {
                let ghost before = views(out@);
                let ghost av = a@;
                out.push(a);
                assert(views(out@) =~= before.push(av));
            }
            i += 1;
        }
        assert(all.take(i as int) =~= all);
        out
    }
}

/// No address is listed twice, whatever its spelling.
pub proof fn own_addresses_are_distinct(rows: Seq<Seq<char>>, i: int, j: int)
    requires
        0 <= i < j < own_addresses(rows).len(),
    ensures
        normalize(own_addresses(rows)[i]) != normalize(own_addresses(rows)[j]),
    decreases rows.len(),
{
    let before = own_addresses(rows.drop_last());
    if j < before.len() {
        own_addresses_are_distinct(rows.drop_last(), i, j);
    }
}

/// No member of a chat is listed twice, whatever the spelling of the address.
pub proof fn members_are_distinct(d: Directory, ids: Seq<i64>, i: int, j: int)
    requires
        0 <= i < j < members_of(d, ids).len(),
    ensures
        normalize(members_of(d, ids)[i].address) != normalize(members_of(d, ids)[j].address),
    decreases ids.len(),
{
    let before = members_of(d, ids.drop_last());
    if j < before.len() {
        members_are_distinct(d, ids.drop_last(), i, j);
    }
}

} // verus!
