//! What the chats and contacts that go over the wire say of the rows that they were made of.
use crate::chats::{
    chat_of, chats_of, handles_after, is_direct, mark_of, mark_target, marked, max_after, members_of, own_addresses,
    preview_of, strip_all, unread_count,
};
use crate::contacts::{
    add_record, addresses_of, becomes_contact, book_contacts, by_name, entry_for, first_owner, lemma_owner, owned,
    owner_of, owns, read_records, read_stores, record_name, tail_of, text_or_empty, ContactBook, Reading, RecordRow,
    StoreRows,
};
use crate::content::clean;
use crate::db::{participant_of, Db, Directory};
use crate::rows::{ChatRow, PreviewRow, UnreadRow};
use crate::laws::contacts_are_in_order;
use crate::order::sort_keeps_elements;
use crate::text::{digits_of, is_white, lowercase, opt, strip_prefix, text_le, trim, trim_end, trim_start, views, Class};
use crate::text_laws::{trimmed_text_stays, trimming_both_ends};
use crate::wire::{normalize, roster, title_of, unix_ms, ChatV, ContactV, ParticipantV};
use vstd::prelude::*;

verus! {

// ----- what stands for a value -----

/// The handles and photos of a database and a book are those that they hold, under their ids.
pub proof fn directory_contents(db: Db, book: ContactBook, id: i64, next_id: int)
    ensures
        db.directory(&book).contacts == views(book.contacts@),
        db.directory(&book).handles.dom().contains(id) <==> db.handles@.dom().contains(id),
        db.handles@.dom().contains(id) ==> db.directory(&book).handles[id] == db.handles@[id]@,
        book.reading(next_id).contacts == views(book.contacts@),
        book.reading(next_id).photos.dom().contains(id) <==> book.photos@.dom().contains(id),
        book.photos@.dom().contains(id) ==> book.reading(next_id).photos[id] == book.photos@[id]@,
        book.reading(next_id).next_id == next_id,
{
}

/// Of several places for one address the first counts.
pub proof fn the_first_place_counts(entries: Seq<(String, usize)>, key: Seq<char>, i: int)
    ensures
        0 <= i < entries.len() && entries[i].0@ == key && (forall|j: int| 0 <= j < i ==> (#[trigger] entries[j]).0@ != key)
            ==> entry_for(entries, key) == Some(entries[i].1 as int),
        (forall|j: int| 0 <= j < entries.len() ==> (#[trigger] entries[j]).0@ != key) ==> entry_for(entries, key) is None,
    decreases entries.len(),
{
    if entries.len() > 0 {
        let d = entries.drop_last();
        the_first_place_counts(d, key, i);
        assert(forall|j: int| 0 <= j < d.len() ==> d[j] == entries[j]);
        if i == d.len() && (forall|j: int| 0 <= j < i ==> (#[trigger] entries[j]).0@ != key) {
            assert forall|j: int| 0 <= j < d.len() implies (#[trigger] d[j]).0@ != key by {
                assert(entries[j].0@ != key);
            }
        }
        if 0 <= i < d.len() && (forall|j: int| 0 <= j < i ==> (#[trigger] entries[j]).0@ != key) {
            assert forall|j: int| 0 <= j < i implies (#[trigger] d[j]).0@ != key by {
                assert(entries[j].0@ != key);
            }
        }
        if forall|j: int| 0 <= j < entries.len() ==> (#[trigger] entries[j]).0@ != key {
            assert forall|j: int| 0 <= j < d.len() implies (#[trigger] d[j]).0@ != key by {
                assert(entries[j].0@ != key);
            }
            assert(entries[entries.len() - 1].0@ != key);
        }
    }
}

// ----- chats -----

/// A chat with messages carries over what its row says; one without is none.
pub proof fn chats_carry_their_rows(d: Directory, seen: Map<i64, i64>, row: ChatRow)
    ensures
        chat_of(d, seen, row) is Some <==> row.last_date is Some,
        chat_of(d, seen, row) matches Some(c) ==> {
            &&& c.id == row.id
            &&& c.guid == row.guid@
            &&& c.identifier == row.identifier@
            &&& row.service matches Some(s) ==> c.service == s@
            &&& row.service is None ==> c.service == "iMessage"@
            &&& c.is_group <==> row.style == 43
            &&& c.participants == members_of(d, row.handle_ids@)
            &&& row.last_date->0 * 1000 >= i64::MIN ==> c.last_date == unix_ms(row.last_date->0 as int)
            &&& row.preview matches Some(p) ==> c.last_preview == preview_of(p) && c.last_from_me == p.is_from_me
            &&& row.preview is None ==> c.last_preview is None && !c.last_from_me
            &&& unread_count(row.messages@, mark_of(seen, row.id)) <= i64::MAX ==> c.unread == unread_count(
                row.messages@,
                mark_of(seen, row.id),
            )
        },
{
}

/// A chat keeps the name that it was given, and goes by it; a missing or an empty name is none.
pub proof fn chats_keep_their_names(d: Directory, seen: Map<i64, i64>, row: ChatRow)
    requires
        row.last_date is Some,
    ensures
        row.display_name is Some && row.display_name->0@.len() > 0 ==> chat_of(d, seen, row)->0.display_name == Some(
            row.display_name->0@,
        ) && title_of(chat_of(d, seen, row)->0) == row.display_name->0@,
        row.display_name is None || row.display_name->0@.len() == 0 ==> chat_of(d, seen, row)->0.display_name is None,
        (row.display_name is None || row.display_name->0@.len() == 0) && members_of(d, row.handle_ids@).len() > 0
            ==> title_of(chat_of(d, seen, row)->0) == roster(members_of(d, row.handle_ids@)),
        (row.display_name is None || row.display_name->0@.len() == 0) && members_of(d, row.handle_ids@).len() == 0
            ==> title_of(chat_of(d, seen, row)->0) == row.identifier@,
{
}

/// The chats are those of the rows with messages, in the order of the rows.
pub proof fn chats_keep_the_order_of_rows(d: Directory, seen: Map<i64, i64>, rows: Seq<ChatRow>, row: ChatRow)
    ensures
        chats_of(d, seen, Seq::<ChatRow>::empty()).len() == 0,
        row.last_date is Some ==> chats_of(d, seen, rows.push(row)) == chats_of(d, seen, rows).push(
            chat_of(d, seen, row)->0,
        ),
        row.last_date is None ==> chats_of(d, seen, rows.push(row)) == chats_of(d, seen, rows),
{
    assert(rows.push(row).drop_last() =~= rows);
}

/// Somebody in a list has an address, whatever its spelling.
pub open spec fn has_member(ps: Seq<ParticipantV>, address: Seq<char>) -> bool {
    exists|i: int| 0 <= i < ps.len() && normalize((#[trigger] ps[i]).address) == normalize(address)
}

/// A known handle whose address nobody before has is a further member, at the end; any other
/// handle changes nothing.
pub proof fn handles_become_members(d: Directory, ids: Seq<i64>, id: i64)
    ensures
        members_of(d, Seq::<i64>::empty()).len() == 0,
        d.handles.dom().contains(id) && !has_member(members_of(d, ids), d.handles[id]) ==> members_of(d, ids.push(id))
            == members_of(d, ids).push(participant_of(d, id)->0),
        !d.handles.dom().contains(id) || has_member(members_of(d, ids), d.handles[id]) ==> members_of(d, ids.push(id))
            == members_of(d, ids),
{
    assert(ids.push(id).drop_last() =~= ids);
}

/// The preview of a chat is the visible text of its newest message; without any, a word for its
/// attachment, for a system message, or for a link, in this order.
pub proof fn previews_show_the_newest_message(p: PreviewRow)
    ensures
        ({
            let shows = p.text is Some && clean(p.text->0@).len() > 0;
            &&& shows ==> preview_of(p) == Some(clean(p.text->0@))
            &&& !shows && p.num_attachments > 0 ==> preview_of(p) == Some("📎 Attachment"@)
            &&& !shows && p.num_attachments <= 0 && p.is_announcement ==> preview_of(p) == Some("(system message)"@)
            &&& !shows && p.num_attachments <= 0 && !p.is_announcement && p.has_balloon ==> preview_of(p) == Some(
                "🔗 Link"@,
            )
            &&& !shows && p.num_attachments <= 0 && !p.is_announcement && !p.has_balloon ==> preview_of(p) is None
        }),
{
}

/// A message counts as unread where others sent it, it was not read, it is a message of its own
/// and it is newer than the mark; no other message does.
pub proof fn unread_messages_are_counted(rows: Seq<UnreadRow>, m: UnreadRow, seen: i64)
    ensures
        unread_count(Seq::<UnreadRow>::empty(), seen) == 0,
        ({
            let counts = m.rowid > seen && !m.is_from_me && !m.is_read && m.item_type == 0 && (m.associated_type is None
                || m.associated_type->0 < 1000);
            &&& counts ==> unread_count(rows.push(m), seen) == unread_count(rows, seen) + 1
            &&& !counts ==> unread_count(rows.push(m), seen) == unread_count(rows, seen)
        }),
{
    assert(rows.push(m).drop_last() =~= rows);
}

/// The mark of a chat is the last one that was set higher than those before; the message that is
/// named counts, and the newest where none is.
pub proof fn marks_are_set(seen: Map<i64, i64>, chat: i64, id: i64, newest: i64)
    ensures
        mark_target(Some(id), newest) == id,
        mark_target(None, newest) == newest,
        seen.dom().contains(chat) ==> mark_of(seen, chat) == seen[chat],
        !seen.dom().contains(chat) ==> mark_of(seen, chat) == 0,
        id > mark_of(seen, chat) ==> mark_of(marked(seen, chat, id), chat) == id,
        id <= mark_of(seen, chat) ==> marked(seen, chat, id) == seen,
{
}

/// A chat with an address: no group, with one member, who has the address whatever its spelling.
pub proof fn direct_chats_are_between_two(c: ChatV, address: Seq<char>)
    ensures
        is_direct(c, normalize(address)) <==> !c.is_group && c.participants.len() == 1 && normalize(
            c.participants[0].address,
        ) == normalize(address),
{
}

/// A handle is known by the last row about it, and the largest handle id is at least that of every
/// row.
pub proof fn handles_are_taken_in(m: Map<i64, Seq<char>>, n: i64, rows: Seq<(i64, String)>, id: i64, address: String)
    ensures
        handles_after(m, Seq::<(i64, String)>::empty()) == m,
        handles_after(m, rows.push((id, address))) == handles_after(m, rows).insert(id, address@),
        max_after(n, Seq::<(i64, String)>::empty()) == n,
        max_after(n, rows.push((id, address))) >= id,
        max_after(n, rows.push((id, address))) >= max_after(n, rows),
        max_after(n, rows.push((id, address))) == id || max_after(n, rows.push((id, address))) == max_after(n, rows),
{
    assert(rows.push((id, address)).drop_last() =~= rows);
}

/// An address of the owner, without the scheme of phone numbers, is listed where none before is
/// the same; no other is.
pub proof fn own_addresses_are_listed(rows: Seq<Seq<char>>, a: Seq<char>)
    requires
        strip_prefix(a, "tel:"@) is None,
    ensures
        own_addresses(Seq::<Seq<char>>::empty()).len() == 0,
        ({
            let before = own_addresses(rows);
            let known = exists|i: int| 0 <= i < before.len() && normalize(#[trigger] before[i]) == normalize(a);
            &&& !known ==> own_addresses(rows.push(a)) == before.push(a) && own_addresses(rows.push("tel:"@ + a))
                == before.push(a)
            &&& known ==> own_addresses(rows.push(a)) == before && own_addresses(rows.push("tel:"@ + a)) == before
        }),
{
    reveal_strlit("tel:");
    let t = "tel:"@ + a;
    assert(rows.push(a).drop_last() =~= rows);
    assert(rows.push(t).drop_last() =~= rows);
    assert(t.subrange(0, 4) =~= "tel:"@);
    assert(t.skip(4) =~= a);
    assert(strip_all(a, "tel:"@) == a);
    assert(strip_prefix(t, "tel:"@) == Some(a));
    assert(strip_all(t, "tel:"@) == strip_all(a, "tel:"@));
}

// ----- contacts -----

/// Addresses are matched by their digits, without the leading 1 of eleven; an email in lower case;
/// each without outer white space.
pub proof fn addresses_are_matched_by_their_digits(s: Seq<char>)
    ensures
        trim(s).contains('@') ==> normalize(s) == lowercase(trim(s)),
        ({
            let d = digits_of(trim(s));
            &&& !trim(s).contains('@') && d.len() == 11 && d[0] == '1' ==> normalize(s) == d.subrange(1, 11)
            &&& !trim(s).contains('@') && !(d.len() == 11 && d[0] == '1') ==> normalize(s) == d
        }),
{
    let d = digits_of(trim(s));
    assert(d.len() == 11 ==> d.subrange(1, 11) =~= d.skip(1));
}

/// A book holds the contacts that were read and no others, by their names in lower case.
pub proof fn books_hold_what_was_read(stores: Seq<StoreRows>, c: ContactV, i: int, j: int)
    ensures
        book_contacts(stores).contains(c) <==> read_stores(stores, stores.len() as int).contacts.contains(c),
        book_contacts(stores).len() == read_stores(stores, stores.len() as int).contacts.len(),
        0 <= i < j < book_contacts(stores).len() ==> text_le(
            lowercase(book_contacts(stores)[i].name),
            lowercase(book_contacts(stores)[j].name),
        ),
{
    broadcast use vstd::seq_lib::group_to_multiset_ensures;

    let s = read_stores(stores, stores.len() as int).contacts;
    let t = book_contacts(stores);
    sort_keeps_elements(s, by_name());
    assert(s.contains(c) <==> s.to_multiset().count(c) > 0);
    assert(t.contains(c) <==> t.to_multiset().count(c) > 0);
    contacts_are_in_order(stores);
    if 0 <= i < j < t.len() {
        assert(by_name()(t[i], t[j]));
    }
}

/// The addresses of a record are those of its rows, in their order.
pub proof fn records_have_their_addresses(rows: Seq<(i64, String)>, owner: i64, address: String, pk: i64)
    ensures
        owned(Seq::<(i64, String)>::empty(), pk).len() == 0,
        owner == pk ==> owned(rows.push((owner, address)), pk) == owned(rows, pk).push(address@),
        owner != pk ==> owned(rows.push((owner, address)), pk) == owned(rows, pk),
{
    assert(rows.push((owner, address)).drop_last() =~= rows);
}

proof fn lemma_trim_space_behind(s: Seq<char>)
    requires
        s.len() > 0,
        !is_white(s[0]),
        !is_white(s.last()),
    ensures
        trim(s + seq![' ']) == s,
        trim(seq![' '] + s) == s,
{
    let a = s + seq![' '];
    assert(a.drop_last() =~= s);
    assert(a[0] == s[0]);
    assert(trim_start(a, Class::White) == a);
    assert(trim_end(a, Class::White) == trim_end(s, Class::White));
    let b = seq![' '] + s;
    assert(b.skip(1) =~= s);
    assert(b[0] == ' ');
    assert(trim_start(b, Class::White) == trim_start(s, Class::White));
}

/// A record goes by its first and last name with a space between them, each without outer white
/// space; by the one that it has where it has one; else by its nickname, else by its organization.
pub proof fn records_go_by_their_names(r: RecordRow)
    ensures
        ({
            let first = trim(text_or_empty(opt(r.first)));
            let last = trim(text_or_empty(opt(r.last)));
            &&& first.len() > 0 && last.len() > 0 ==> record_name(r) == first + " "@ + last
            &&& first.len() > 0 && last.len() == 0 ==> record_name(r) == first
            &&& first.len() == 0 && last.len() > 0 ==> record_name(r) == last
            &&& first.len() == 0 && last.len() == 0 ==> {
                &&& r.nickname matches Some(n) ==> record_name(r) == n@
                &&& r.nickname is None ==> (r.organization matches Some(o) ==> record_name(r) == o@)
                &&& r.nickname is None && r.organization is None ==> record_name(r).len() == 0
            }
        }),
        r.first matches Some(f) ==> text_or_empty(opt(r.first)) == f@,
        r.last matches Some(l) ==> text_or_empty(opt(r.last)) == l@,
{
    reveal_strlit(" ");
    let first = trim(text_or_empty(opt(r.first)));
    let last = trim(text_or_empty(opt(r.last)));
    let a = trimming_both_ends(text_or_empty(opt(r.first)), Class::White);
    let b = trimming_both_ends(text_or_empty(opt(r.last)), Class::White);
    let full = first + " "@ + last;
    if first.len() > 0 && last.len() > 0 {
        assert(full[0] == first[0]);
        assert(full.last() == last.last());
        trimmed_text_stays(full, Class::White);
    } else if first.len() > 0 {
        lemma_trim_space_behind(first);
        assert(full =~= first + seq![' ']);
    } else if last.len() > 0 {
        lemma_trim_space_behind(last);
        assert(full =~= seq![' '] + last);
    } else {
        assert(full =~= seq![' ']);
        assert(full.skip(1) =~= Seq::<char>::empty());
        assert(trim_start(full, Class::White) == trim_start(full.skip(1), Class::White));
        assert(trim(full).len() == 0);
    }
}

/// A record becomes a contact where it is the first with its key and has a name and an address: one
/// with its name, its addresses and the next id. Any other record changes nothing.
pub proof fn records_become_contacts(store: StoreRows, b: Reading, n: int)
    requires
        0 <= n < store.records@.len(),
        1 <= read_records(store, b, n).next_id <= i64::MAX,
    ensures
        ({
            let r = store.records@[n];
            let before = read_records(store, b, n);
            let after = read_records(store, b, n + 1);
            let phones = owned(store.phones@, r.pk);
            let emails = owned(store.emails@, r.pk);
            let counts = (forall|k: int| 0 <= k < n ==> (#[trigger] store.records@[k]).pk != r.pk) && (phones.len() > 0
                || emails.len() > 0) && record_name(r).len() > 0;
            &&& !counts ==> after == before
            &&& counts ==> {
                let c = after.contacts.last();
                &&& after.contacts.drop_last() == before.contacts
                &&& after.next_id == before.next_id + 1
                &&& c.id == before.next_id
                &&& c.name == record_name(r)
                &&& c.first == opt(r.first)
                &&& c.last == opt(r.last)
                &&& c.organization == opt(r.organization)
                &&& c.phones == phones
                &&& c.emails == emails
                &&& r.photo is Some && r.photo->0@.len() > 0 ==> c.has_photo && after.photos == before.photos.insert(
                    c.id,
                    r.photo->0@,
                )
                &&& r.photo is None || r.photo->0@.len() == 0 ==> after.photos == before.photos
            }
        }),
        read_records(store, b, 0) == b,
{
    let before = read_records(store, b, n);
    let after = read_records(store, b, n + 1);
    if becomes_contact(store, n) {
        assert(after == add_record(store, before, n));
        assert(after.contacts.drop_last() =~= before.contacts);
    }
}

/// The stores are read one after the other, from an empty book whose first id is 1.
pub proof fn stores_are_read_in_turn(stores: Seq<StoreRows>, n: int)
    requires
        0 <= n < stores.len(),
    ensures
        read_stores(stores, 0).contacts.len() == 0,
        read_stores(stores, 0).photos == Map::<i64, Seq<u8>>::empty(),
        read_stores(stores, 0).next_id == 1,
        read_stores(stores, n + 1) == read_records(
            stores[n],
            read_stores(stores, n),
            stores[n].records@.len() as int,
        ),
{
}

/// One of the addresses of a contact, phone or email, has a normal form.
pub open spec fn has_address(c: ContactV, key: Seq<char>) -> bool {
    (exists|j: int| 0 <= j < c.phones.len() && normalize(#[trigger] c.phones[j]) == key) || (exists|j: int|
        0 <= j < c.emails.len() && normalize(#[trigger] c.emails[j]) == key)
}

proof fn lemma_has_address(c: ContactV, key: Seq<char>)
    ensures
        has_address(c, key) <==> owns(c, key),
{
    if owns(c, key) {
        let j = choose|j: int| 0 <= j < addresses_of(c).len() && normalize(#[trigger] addresses_of(c)[j]) == key;
        if j < c.phones.len() {
            assert(normalize(c.phones[j]) == key);
        } else {
            assert(normalize(c.emails[j - c.phones.len()]) == key);
        }
    }
    if exists|j: int| 0 <= j < c.phones.len() && normalize(#[trigger] c.phones[j]) == key {
        let j = choose|j: int| 0 <= j < c.phones.len() && normalize(#[trigger] c.phones[j]) == key;
        assert(normalize(addresses_of(c)[j]) == key);
    }
    if exists|j: int| 0 <= j < c.emails.len() && normalize(#[trigger] c.emails[j]) == key {
        let j = choose|j: int| 0 <= j < c.emails.len() && normalize(#[trigger] c.emails[j]) == key;
        assert(normalize(addresses_of(c)[j + c.phones.len()]) == key);
    }
}

/// An address belongs to the first contact that has it. A phone number of more than seven digits
/// that nobody has belongs to the first contact with its last ten digits. Any other address belongs
/// to nobody.
pub proof fn addresses_belong_to_the_first(cs: Seq<ContactV>, address: Seq<char>, k: int)
    requires
        0 <= k < cs.len(),
    ensures
        ({
            let key = normalize(address);
            let last = if key.len() > 10 {
                key.subrange(key.len() - 10, key.len() as int)
            } else {
                key
            };
            &&& key.len() == 0 ==> owner_of(cs, address) is None
            &&& key.len() > 0 && has_address(cs[k], key) ==> owner_of(cs, address) is Some && 0
                <= owner_of(cs, address)->0 <= k && has_address(cs[owner_of(cs, address)->0], key)
            &&& key.len() > 7 && !key.contains('@') && has_address(cs[k], last) && (forall|j: int|
                0 <= j < cs.len() ==> !has_address(#[trigger] cs[j], key)) ==> owner_of(cs, address) is Some && 0
                <= owner_of(cs, address)->0 <= k && has_address(cs[owner_of(cs, address)->0], last)
            &&& owner_of(cs, address) matches Some(i) ==> 0 <= i < cs.len() && (has_address(cs[i], key) || (key.len() > 7
                && !key.contains('@') && has_address(cs[i], last)))
        }),
{
    let key = normalize(address);
    let last = tail_of(key);
    let n = cs.len() as int;
    lemma_owner(cs, key, n);
    lemma_owner(cs, last, n);
    assert(key.len() > 10 ==> key.subrange(key.len() - 10, key.len() as int) =~= key.skip(key.len() - 10));
    lemma_has_address(cs[k], key);
    lemma_has_address(cs[k], last);
    if let Some(i) = owner_of(cs, address) {
        lemma_has_address(cs[i], key);
        lemma_has_address(cs[i], last);
    }
    if let Some(i) = first_owner(cs, key) {
        lemma_has_address(cs[i], key);
    }
}

} // verus!
