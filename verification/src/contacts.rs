//! The address book: who an address belongs to.
use crate::order::{is_order, lemma_insert_at, sort_by, sort_keeps_elements};
use crate::text::{
    cat3, chars_of, in_order, lemma_text_le_total, lemma_text_le_trans, lowercase, opt, piece, str_same, str_has_char,
    string_of, text_le, to_lowercase, trim, trim_str, views,
};
use crate::wire::{clone_opt, normalize, normalize_address, Contact, ContactV};
use std::collections::HashMap;
use vstd::prelude::*;

verus! {

broadcast use vstd::std_specs::hash::group_hash_axioms;

/// A person or company in a store of contacts.
pub struct RecordRow {
    pub pk: i64,
    pub first: Option<String>,
    pub last: Option<String>,
    pub organization: Option<String>,
    pub nickname: Option<String>,
    pub photo: Option<Vec<u8>>,
}

/// The rows of one store of contacts.
pub struct StoreRows {
    /// Phone numbers, each with the key of its owner.
    pub phones: Vec<(i64, String)>,
    /// Email addresses, each with the key of its owner.
    pub emails: Vec<(i64, String)>,
    pub records: Vec<RecordRow>,
}

/// Contacts by name, found by address.
pub struct ContactBook {
    pub contacts: Vec<Contact>,
    /// Normalized addresses, each with the place of its owner in `contacts`.
    pub index: Vec<(String, usize)>,
    pub photos: HashMap<i64, Vec<u8>>,
}

// ----- finding -----

/// The addresses of a contact, phone numbers first.
pub open spec fn addresses_of(c: ContactV) -> Seq<Seq<char>> {
    c.phones + c.emails
}

/// One of the addresses of `c` has the normal form `key`.
pub open spec fn owns(c: ContactV, key: Seq<char>) -> bool {
    exists|j: int| 0 <= j < addresses_of(c).len() && normalize(#[trigger] addresses_of(c)[j]) == key
}

/// The first of the first `n` contacts that has an address of the normal form `key`.
pub open spec fn owner_upto(cs: Seq<ContactV>, key: Seq<char>, n: int) -> Option<int>
    decreases n,
{
    if n <= 0 {
        None
    } else {
        match owner_upto(cs, key, n - 1) {
            Some(i) => Some(i),
            None => if owns(cs[n - 1], key) {
                Some(n - 1)
            } else {
                None
            },
        }
    }
}

/// The first contact that has an address of the normal form `key`.
pub open spec fn first_owner(cs: Seq<ContactV>, key: Seq<char>) -> Option<int> {
    owner_upto(cs, key, cs.len() as int)
}

/// The end of a number: its last ten digits.
pub open spec fn tail_of(key: Seq<char>) -> Seq<char> {
    if key.len() > 10 {
        key.skip(key.len() - 10)
    } else {
        key
    }
}

/// The contact that an address belongs to: the first one with that address; for a phone number
/// of more than seven digits that nobody has, the first one with its last ten digits.
pub open spec fn owner_of(cs: Seq<ContactV>, address: Seq<char>) -> Option<int> {
    let key = normalize(address);
    if key.len() == 0 {
        None
    } else if first_owner(cs, key) is Some {
        first_owner(cs, key)
    } else if !key.contains('@') && key.len() > 7 {
        first_owner(cs, tail_of(key))
    } else {
        None
    }
}

pub proof fn lemma_owner(cs: Seq<ContactV>, key: Seq<char>, n: int)
    requires
        0 <= n <= cs.len(),
    ensures
        owner_upto(cs, key, n) matches Some(i) ==> 0 <= i < n && owns(cs[i], key) && (forall|k: int|
            0 <= k < i ==> !owns(#[trigger] cs[k], key)),
        owner_upto(cs, key, n) is None ==> forall|k: int| 0 <= k < n ==> !owns(#[trigger] cs[k], key),
    decreases n,
{
    if n > 0 {
        lemma_owner(cs, key, n - 1);
    }
}

/// The owner of an address is one of the contacts.
pub proof fn lemma_owner_range(cs: Seq<ContactV>, address: Seq<char>)
    ensures
        owner_of(cs, address) matches Some(i) ==> 0 <= i < cs.len(),
{
    lemma_owner(cs, normalize(address), cs.len() as int);
    lemma_owner(cs, tail_of(normalize(address)), cs.len() as int);
}

/// The place recorded for `key` in a list of entries; the first entry counts.
pub open spec fn entry_for(entries: Seq<(String, usize)>, key: Seq<char>) -> Option<int>
    decreases entries.len(),
{
    if entries.len() == 0 {
        None
    } else {
        match entry_for(entries.drop_last(), key) {
            Some(i) => Some(i),
            None => if entries.last().0@ == key {
                Some(entries.last().1 as int)
            } else {
                None
            },
        }
    }
}

fn find_entry(entries: &Vec<(String, usize)>, key: &str) -> (r: Option<usize>)
    ensures
        r is Some <==> entry_for(entries@, key@) is Some,
        r is Some ==> r->0 == entry_for(entries@, key@)->0,
{
    let mut i: usize = 0;
    assert(entries@.take(0) =~= Seq::<(String, usize)>::empty());
    while i < entries.len()
        invariant
            i <= entries.len(),
            entry_for(entries@.take(i as int), key@) is None,
        decreases entries.len() - i,
    {
        assert(entries@.take(i + 1).drop_last() =~= entries@.take(i as int));
        if str_same(entries[i].0.as_str(), key) {
            proof {
                lemma_entry_stays(entries@, key@, i + 1);
            }
            return Some(entries[i].1);
        }
        i += 1;
    }
    assert(entries@.take(i as int) =~= entries@);
    None
}

proof fn lemma_entry_stays(entries: Seq<(String, usize)>, key: Seq<char>, n: int)
    requires
        0 <= n <= entries.len(),
        entry_for(entries.take(n), key) is Some,
    ensures
        entry_for(entries, key) == entry_for(entries.take(n), key),
    decreases entries.len(),
{
    if n == entries.len() {
        assert(entries.take(n) =~= entries);
    } else {
        assert(entries.drop_last().take(n) =~= entries.take(n));
        lemma_entry_stays(entries.drop_last(), key, n);
    }
}

impl ContactBook {
    /// The index of a book: the place recorded for an address.
    pub open spec fn place_of(&self, key: Seq<char>) -> Option<int> {
        entry_for(self.index@, key)
    }

    /// The photos of a book, by contact id.
    pub open spec fn photo_map(&self) -> Map<i64, Seq<u8>> {
        self.photos@.map_values(|v: Vec<u8>| v@)
    }

    /// The index gives for every address the first contact that has it.
    pub open spec fn wf(&self) -> bool {
        forall|key: Seq<char>| #[trigger] self.place_of(key) == first_owner(views(self.contacts@), key)
    }

    /// A book without contacts.
    pub fn new() -> (r: Self)
        ensures
            r.wf(),
            r.contacts@ == Seq::<Contact>::empty(),
            r.photo_map() == Map::<i64, Seq<u8>>::empty(),
    {
        let r: ContactBook = ContactBook { contacts: Vec::new(), index: Vec::new(), photos: HashMap::new() };
        assert(r.photo_map() =~= Map::<i64, Seq<u8>>::empty());
        r
    }

    /// The contact that an address belongs to.
    pub fn lookup(&self, address: &str) -> (r: Option<&Contact>)
        requires
            self.wf(),
        ensures
            r is Some <==> owner_of(views(self.contacts@), address@) is Some,
            r is Some ==> *r->0 == self.contacts@[owner_of(views(self.contacts@), address@)->0],
    {
        let key: String = normalize_address(address);
        let ghost cs = views(self.contacts@);
        if key.as_str().is_empty() {
            return None;
        }
        assert(self.place_of(key@) == first_owner(cs, key@));
        proof {
            lemma_owner(cs, key@, cs.len() as int);
        }
        if let Some(i) = find_entry(&self.index, key.as_str()) {
            return Some(&self.contacts[i]);
        }
        let v: Vec<char> = chars_of(key.as_str());
        if !str_has_char(key.as_str(), '@') && v.len() > 7 {
            let start: usize = if v.len() > 10 { v.len() - 10 } else { 0 };
            let tail: String = string_of(&piece(&v, start, v.len()));
            assert(tail@ =~= tail_of(key@));
            assert(self.place_of(tail@) == first_owner(cs, tail@));
            proof {
                lemma_owner(cs, tail@, cs.len() as int);
            }
            if let Some(i) = find_entry(&self.index, tail.as_str()) {
                return Some(&self.contacts[i]);
            }
        }
        None
    }

    /// The photo of a contact.
    pub fn photo(&self, id: i64) -> (r: Option<&Vec<u8>>)
        ensures
            r is Some <==> self.photo_map().dom().contains(id),
            r is Some ==> r->0@ == self.photo_map()[id],
    {
        self.photos.get(&id)
    }
}

impl Default for ContactBook {
    fn default() -> (r: Self)
        ensures
            r.wf(),
            r.contacts@ == Seq::<Contact>::empty(),
            r.photo_map() == Map::<i64, Seq<u8>>::empty(),
    {
        ContactBook::new()
    }
}

// ----- reading a store -----

/// The addresses that belong to `pk`, in the order of the rows.
pub open spec fn owned(rows: Seq<(i64, String)>, pk: i64) -> Seq<Seq<char>>
    decreases rows.len(),
{
    if rows.len() == 0 {
        Seq::empty()
    } else if rows.last().0 == pk {
        owned(rows.drop_last(), pk).push(rows.last().1@)
    } else {
        owned(rows.drop_last(), pk)
    }
}

fn collect_owned(rows: &Vec<(i64, String)>, pk: i64) -> (r: Vec<String>)
    ensures
        views(r@) == owned(rows@, pk),
{
    let mut out: Vec<String> = Vec::new();
    let mut i: usize = 0;
    assert(rows@.take(0) =~= Seq::<(i64, String)>::empty());
    assert(views(out@) =~= owned(rows@.take(0), pk));
    while i < rows.len()
        invariant
            i <= rows.len(),
            views(out@) == owned(rows@.take(i as int), pk),
        decreases rows.len() - i,
    {
        assert(rows@.take(i + 1).drop_last() =~= rows@.take(i as int));
        assert(rows@.take(i + 1).last() == rows@[i as int]);
        if rows[i].0 == pk {
            let ghost before = views(out@);
            out.push(rows[i].1.clone());
            assert(views(out@) =~= before.push(rows@[i as int].1@));
        }
        i += 1;
    }
    assert(rows@.take(i as int) =~= rows@);
    out
}

/// The text of an optional string, empty where there is none.
pub open spec fn text_or_empty(s: Option<Seq<char>>) -> Seq<char> {
    match s {
        Some(t) => t,
        None => Seq::empty(),
    }
}

/// The name a record goes by: first and last name, else the nickname, else the organization.
pub open spec fn record_name(r: RecordRow) -> Seq<char> {
    let full = trim(trim(text_or_empty(opt(r.first))) + " "@ + trim(text_or_empty(opt(r.last))));
    if full.len() > 0 {
        full
    } else if r.nickname is Some {
        r.nickname->0@
    } else {
        text_or_empty(opt(r.organization))
    }
}

fn name_of(r: &RecordRow) -> (n: String)
    ensures
        n@ == record_name(*r),
{
    let first: String = match &r.first {
        Some(s) => trim_str(s.as_str()),
        None => trim_str(""),
    };
    let last: String = match &r.last {
        Some(s) => trim_str(s.as_str()),
        None => trim_str(""),
    };
    proof {
        reveal_strlit("");
        assert(""@ =~= Seq::<char>::empty());
    }
    let full: String = trim_str(cat3(first.as_str(), " ", last.as_str()).as_str());
    if !full.as_str().is_empty() {
        full
    } else {
        match &r.nickname {
            Some(n) => n.clone(),
            None => match &r.organization {
                Some(o) => o.clone(),
                None => String::new(),
            },
        }
    }
}

/// No record before place `i` has the key of record `i`.
pub open spec fn first_of_key(records: Seq<RecordRow>, i: int) -> bool {
    forall|k: int| 0 <= k < i ==> (#[trigger] records[k]).pk != records[i].pk
}

/// Record `i` becomes a contact: it is the first of its key, has an address and a name.
pub open spec fn becomes_contact(store: StoreRows, i: int) -> bool {
    let r = store.records@[i];
    &&& first_of_key(store.records@, i)
    &&& owned(store.phones@, r.pk).len() > 0 || owned(store.emails@, r.pk).len() > 0
    &&& record_name(r).len() > 0
}

/// A book while stores are read into it.
#[verifier::ext_equal]
pub struct Reading {
    pub contacts: Seq<ContactV>,
    pub photos: Map<i64, Seq<u8>>,
    pub next_id: int,
}

/// The record has a photo that is not empty.
pub open spec fn has_image(r: RecordRow) -> bool {
    r.photo is Some && r.photo->0@.len() > 0
}

/// Record `i` added to a book.
pub open spec fn add_record(store: StoreRows, b: Reading, i: int) -> Reading {
    let r = store.records@[i];
    let id = b.next_id as i64;
    let photos = if has_image(r) {
        b.photos.insert(id, r.photo->0@)
    } else {
        b.photos
    };
    Reading {
        contacts: b.contacts.push(
            ContactV {
                id,
                name: record_name(r),
                first: opt(r.first),
                last: opt(r.last),
                organization: opt(r.organization),
                phones: owned(store.phones@, r.pk),
                emails: owned(store.emails@, r.pk),
                has_photo: photos.dom().contains(id),
            },
        ),
        photos,
        next_id: b.next_id + 1,
    }
}

/// A book after the first `n` records of a store.
pub open spec fn read_records(store: StoreRows, b: Reading, n: int) -> Reading
    decreases n,
{
    if n <= 0 {
        b
    } else if becomes_contact(store, n - 1) {
        add_record(store, read_records(store, b, n - 1), n - 1)
    } else {
        read_records(store, b, n - 1)
    }
}

/// A book after all records of a store.
pub open spec fn read_store(store: StoreRows, b: Reading) -> Reading {
    read_records(store, b, store.records@.len() as int)
}

fn is_first_of_key(records: &Vec<RecordRow>, i: usize) -> (r: bool)
    requires
        i < records.len(),
    ensures
        r == first_of_key(records@, i as int),
{
    let mut k: usize = 0;
    while k < i
        invariant
            k <= i < records.len(),
            forall|j: int| 0 <= j < k ==> (#[trigger] records@[j]).pk != records@[i as int].pk,
        decreases i - k,
    {
        if records[k].pk == records[i].pk {
            return false;
        }
        k += 1;
    }
    true
}

impl ContactBook {
    /// The book as stores are read into it.
    pub open spec fn reading(&self, next_id: int) -> Reading {
        Reading { contacts: views(self.contacts@), photos: self.photo_map(), next_id }
    }
}

/// Reads a store into a book and returns how many contacts it gave. The index is left as it was.
pub fn load_store(store: &StoreRows, book: &mut ContactBook, next_id: &mut i64) -> (count: usize)
    requires
        *old(next_id) + store.records@.len() <= i64::MAX,
    ensures
        final(book).reading(*final(next_id) as int) == read_store(*store, old(book).reading(*old(next_id) as int)),
        count == final(book).contacts@.len() - old(book).contacts@.len(),
        *final(next_id) <= *old(next_id) + store.records@.len(),
        forall|key: Seq<char>| #[trigger] final(book).place_of(key) == old(book).place_of(key),
{
    let ghost b0 = book.reading(*next_id as int);
    let ghost n0 = *next_id as int;
    let ghost index0 = book.index@;
    let mut count: usize = 0;
    let mut i: usize = 0;
    while i < store.records.len()
        invariant
            i <= store.records.len(),
            b0.next_id == n0,
            n0 + store.records@.len() <= i64::MAX,
            book.reading(*next_id as int) == read_records(*store, b0, i as int),
            n0 <= *next_id <= n0 + i,
            count == *next_id - n0,
            book.contacts@.len() == b0.contacts.len() + count,
            book.index@ == index0,
        decreases store.records.len() - i,
    {
        let r: &RecordRow = &store.records[i];
        let phones: Vec<String> = collect_owned(&store.phones, r.pk);
        let emails: Vec<String> = collect_owned(&store.emails, r.pk);
        assert(views(phones@).len() == phones@.len());
        assert(views(emails@).len() == emails@.len());
        let name: String = name_of(r);
        if is_first_of_key(&store.records, i) && (phones.len() > 0 || emails.len() > 0) && !name.as_str().is_empty() {
            let ghost before = book.reading(*next_id as int);
            let id: i64 = *next_id;
            *next_id = *next_id + 1;
            if let Some(p) = &r.photo {
                if p.len() > 0 {
                    let ghost m0 = book.photos@;
                    let image: Vec<u8> = p.clone();
                    assert(image@ =~= p@);
                    book.photos.insert(id, image);
                    assert(book.photo_map() =~= before.photos.insert(id, p@));
                }
            }
            let ghost photos = book.photo_map();
            let has_photo: bool = book.photos.contains_key(&id);
            let c: Contact = Contact {
                id,
                name,
                first: clone_opt(&r.first),
                last: clone_opt(&r.last),
                organization: clone_opt(&r.organization),
                phones,
                emails,
                has_photo,
            };
            let ghost cv = c@;
            book.contacts.push(c);
            assert(views(book.contacts@) =~= before.contacts.push(cv));
            assert(book.reading(*next_id as int) =~= add_record(*store, before, i as int));
            count += 1;
        }
        i += 1;
    }
    count
}

// ----- the whole book -----

/// A book after the first `n` stores.
pub open spec fn read_stores(stores: Seq<StoreRows>, n: int) -> Reading
    decreases n,
{
    if n <= 0 {
        Reading { contacts: Seq::empty(), photos: Map::empty(), next_id: 1 }
    } else {
        read_store(stores[n - 1], read_stores(stores, n - 1))
    }
}

/// How many records the first `n` stores hold.
pub open spec fn record_count(stores: Seq<StoreRows>, n: int) -> int
    decreases n,
{
    if n <= 0 {
        0
    } else {
        record_count(stores, n - 1) + stores[n - 1].records@.len()
    }
}

proof fn lemma_record_count(stores: Seq<StoreRows>, i: int, n: int)
    requires
        0 <= i <= n,
    ensures
        record_count(stores, i) <= record_count(stores, n),
    decreases n,
{
    if i < n {
        lemma_record_count(stores, i, n - 1);
    }
}

/// Contacts are ordered by name, whatever the case of its letters.
pub open spec fn by_name() -> spec_fn(ContactV, ContactV) -> bool {
    |a: ContactV, b: ContactV| text_le(lowercase(a.name), lowercase(b.name))
}

pub proof fn lemma_by_name_is_order()
    ensures
        is_order(by_name()),
{
    let le = by_name();
    assert forall|a: ContactV, b: ContactV| #[trigger] le(a, b) || le(b, a) by {
        lemma_text_le_total(lowercase(a.name), lowercase(b.name));
    }
    assert forall|a: ContactV, b: ContactV, c: ContactV| #[trigger] le(a, b) && #[trigger] le(b, c) implies le(a, c) by {
        lemma_text_le_trans(lowercase(a.name), lowercase(b.name), lowercase(c.name));
    }
}

fn sort_contacts(v: Vec<Contact>) -> (r: Vec<Contact>)
    ensures
        views(r@) == sort_by(views(v@), by_name()),
{
    let mut rest: Vec<Contact> = v;
    let mut out: Vec<Contact> = Vec::new();
    let mut keys: Vec<Vec<char>> = Vec::new();
    let ghost all = views(v@);
    let ghost done: int = 0;
    assert(all.take(0) =~= Seq::<ContactV>::empty());
    assert(views(out@) =~= Seq::<ContactV>::empty());
    while rest.len() > 0
        invariant
            0 <= done <= all.len(),
            views(rest@) == all.skip(done),
            views(out@) == sort_by(all.take(done), by_name()),
            keys@.len() == out@.len(),
            forall|k: int| 0 <= k < keys@.len() ==> (#[trigger] keys@[k])@ == lowercase(out@[k]@.name),
        decreases rest.len(),
    {
        let ghost rest0 = rest@;
        let c: Contact = rest.remove(0);
        assert(views(rest0).len() == rest0.len());
        assert(all.skip(done).len() == all.len() - done);
        assert(done < all.len());
        assert(views(rest@) =~= all.skip(done + 1)) by {
            assert(views(rest0).len() == all.skip(done).len());
            assert forall|k: int| 0 <= k < rest@.len() implies views(rest@)[k] == all.skip(done + 1)[k] by {
                assert(rest@[k] == rest0[k + 1]);
                assert(views(rest0)[k + 1] == all.skip(done)[k + 1]);
                assert(all.skip(done)[k + 1] == all[done + k + 1]);
            }
        }
        assert(c@ == all[done]) by {
            assert(views(rest0)[0] == all.skip(done)[0]);
        }
        let key: Vec<char> = chars_of(to_lowercase(c.name.as_str()).as_str());
        let mut p: usize = out.len();
        while p > 0 && !in_order(&keys[p - 1], &key)
            invariant
                p <= out.len(),
                keys@.len() == out@.len(),
                key@ == lowercase(c@.name),
                forall|k: int| 0 <= k < keys@.len() ==> (#[trigger] keys@[k])@ == lowercase(out@[k]@.name),
                forall|k: int| p <= k < out@.len() ==> !by_name()(#[trigger] views(out@)[k], c@),
            decreases p,
        {
            p -= 1;
        }
        proof {
            if p > 0 {
                assert(keys@[p - 1]@ == lowercase(out@[p - 1]@.name));
            }
            lemma_insert_at(views(out@), c@, by_name(), p as int);
            assert(all.take(done + 1).drop_last() =~= all.take(done));
            assert(all.take(done + 1).last() == c@);
        }
        let ghost out0 = out@;
        let ghost keys0 = keys@;
        let ghost cv = c@;
        out.insert(p, c);
        keys.insert(p, key);
        assert(views(out@) =~= views(out0).insert(p as int, cv));
        assert forall|k: int| 0 <= k < keys@.len() implies (#[trigger] keys@[k])@ == lowercase(out@[k]@.name) by {
            if k < p {
                assert(keys@[k] == keys0[k]);
            } else if k > p {
                assert(keys@[k] == keys0[k - 1]);
            }
        }
        proof {
            done = done + 1;
        }
    }
    assert(views(rest@).len() == 0);
    assert(all.take(done) =~= all);
    out
}

/// One of the first `n` addresses of `c` has the normal form `key`.
pub open spec fn owns_upto(c: ContactV, key: Seq<char>, n: int) -> bool {
    exists|j: int| 0 <= j < n && normalize(#[trigger] addresses_of(c)[j]) == key
}

fn index_contacts(contacts: &Vec<Contact>) -> (entries: Vec<(String, usize)>)
    ensures
        forall|key: Seq<char>| #[trigger] entry_for(entries@, key) == first_owner(views(contacts@), key),
{
    let mut entries: Vec<(String, usize)> = Vec::new();
    let ghost cs = views(contacts@);
    let mut i: usize = 0;
    while i < contacts.len()
        invariant
            i <= contacts.len(),
            cs == views(contacts@),
            forall|key: Seq<char>| #[trigger] entry_for(entries@, key) == owner_upto(cs, key, i as int),
        decreases contacts.len() - i,
    {
        let c: &Contact = &contacts[i];
        let ghost cv = cs[i as int];
        let np: usize = c.phones.len();
        let ne: usize = c.emails.len();
        let mut j: usize = 0;
        while j < np
            invariant
                i < contacts.len(),
                cs == views(contacts@),
                cv == cs[i as int],
                cv == c@,
                np == c.phones@.len(),
                j <= np,
                forall|key: Seq<char>| #[trigger]
                    entry_for(entries@, key) == (match owner_upto(cs, key, i as int) {
                        Some(k) => Some(k),
                        None => if owns_upto(cv, key, j as int) {
                            Some(i as int)
                        } else {
                            None
                        },
                    }),
            decreases np - j,
        {
            assert(addresses_of(cv)[j as int] == c.phones@[j as int]@);
            record_address(&mut entries, c.phones[j].as_str(), i, Ghost(cs), Ghost(j as int));
            j += 1;
        }
        let mut e: usize = 0;
        while e < ne
            invariant
                i < contacts.len(),
                cs == views(contacts@),
                cv == cs[i as int],
                cv == c@,
                np == c.phones@.len(),
                ne == c.emails@.len(),
                e <= ne,
                forall|key: Seq<char>| #[trigger]
                    entry_for(entries@, key) == (match owner_upto(cs, key, i as int) {
                        Some(k) => Some(k),
                        None => if owns_upto(cv, key, np + e) {
                            Some(i as int)
                        } else {
                            None
                        },
                    }),
            decreases ne - e,
        {
            assert(addresses_of(cv)[np + e] == c.emails@[e as int]@);
            record_address(&mut entries, c.emails[e].as_str(), i, Ghost(cs), Ghost(np + e));
            e += 1;
        }
        assert(addresses_of(cv).len() == np + ne);
        assert forall|key: Seq<char>| #[trigger] entry_for(entries@, key) == owner_upto(cs, key, i + 1) by {
            assert(owns(cv, key) == owns_upto(cv, key, np + ne));
        }
        i += 1;
    }
    entries
}

fn record_address(
    entries: &mut Vec<(String, usize)>,
    address: &str,
    i: usize,
    Ghost(cs): Ghost<Seq<ContactV>>,
    Ghost(j): Ghost<int>,
)
    requires
        i < cs.len(),
        0 <= j < addresses_of(cs[i as int]).len(),
        address@ == addresses_of(cs[i as int])[j],
        forall|key: Seq<char>| #[trigger]
            entry_for(old(entries)@, key) == (match owner_upto(cs, key, i as int) {
                Some(k) => Some(k),
                None => if owns_upto(cs[i as int], key, j) {
                    Some(i as int)
                } else {
                    None
                },
            }),
    ensures
        forall|key: Seq<char>| #[trigger]
            entry_for(final(entries)@, key) == (match owner_upto(cs, key, i as int) {
                Some(k) => Some(k),
                None => if owns_upto(cs[i as int], key, j + 1) {
                    Some(i as int)
                } else {
                    None
                },
            }),
{
    let key: String = normalize_address(address);
    let known: Option<usize> = find_entry(entries, key.as_str());
    let ghost k0 = key@;
    let ghost before = entries@;
    let ghost c = cs[i as int];
    if known.is_none() {
        entries.push((key, i));
        assert(entries@.drop_last() =~= before);
        assert(entries@.last().0@ == k0);
    }
    assert forall|q: Seq<char>| #[trigger]
        entry_for(entries@, q) == (match owner_upto(cs, q, i as int) {
            Some(k) => Some(k),
            None => if owns_upto(c, q, j + 1) {
                Some(i as int)
            } else {
                None
            },
        }) by {
        assert(entry_for(before, q) == (match owner_upto(cs, q, i as int) {
            Some(k) => Some(k),
            None => if owns_upto(c, q, j) {
                Some(i as int)
            } else {
                None
            },
        }));
        if q == k0 {
            assert(normalize(addresses_of(c)[j]) == q);
            assert(owns_upto(c, q, j + 1));
        } else {
            assert(owns_upto(c, q, j + 1) == owns_upto(c, q, j)) by {
                if owns_upto(c, q, j + 1) {
                    let m = choose|m: int| 0 <= m < j + 1 && normalize(#[trigger] addresses_of(c)[m]) == q;
                    assert(m != j);
                }
            }
        }
    }
}

/// The contacts of all stores, by name.
pub open spec fn book_contacts(stores: Seq<StoreRows>) -> Seq<ContactV> {
    sort_by(read_stores(stores, stores.len() as int).contacts, by_name())
}

/// Builds the book from the rows of the stores.
pub fn load(stores: &Vec<StoreRows>) -> (book: ContactBook)
    requires
        record_count(stores@, stores@.len() as int) < i64::MAX,
    ensures
        book.wf(),
        views(book.contacts@) == book_contacts(stores@),
        book.photo_map() == read_stores(stores@, stores@.len() as int).photos,
{
    let mut book: ContactBook = ContactBook::new();
    let mut next_id: i64 = 1;
    let mut i: usize = 0;
    assert(book.reading(1) =~= read_stores(stores@, 0));
    while i < stores.len()
        invariant
            i <= stores.len(),
            record_count(stores@, stores@.len() as int) < i64::MAX,
            book.reading(next_id as int) == read_stores(stores@, i as int),
            next_id <= 1 + record_count(stores@, i as int),
        decreases stores.len() - i,
    {
        proof {
            lemma_record_count(stores@, i + 1, stores@.len() as int);
        }
        load_store(&stores[i], &mut book, &mut next_id);
        i += 1;
    }
    let ghost all = book.reading(next_id as int);
    let contacts: Vec<Contact> = sort_contacts(book.contacts);
    let index: Vec<(String, usize)> = index_contacts(&contacts);
    let photos: HashMap<i64, Vec<u8>> = book.photos;
    let r: ContactBook = ContactBook { contacts, index, photos };
    assert(r.photo_map() =~= all.photos);
    assert forall|key: Seq<char>| #[trigger] r.place_of(key) == first_owner(views(r.contacts@), key) by {
        assert(entry_for(r.index@, key) == first_owner(views(r.contacts@), key));
    }
    r
}

// ----- what holds of every book -----

/// Contact number `i` of a reading: its id is its place, it has a name and an address, and it
/// says whether it has a photo.
spec fn read_well(b: Reading, i: int) -> bool {
    let c = b.contacts[i];
    &&& c.id == i + 1
    &&& c.name.len() > 0
    &&& c.phones.len() + c.emails.len() > 0
    &&& c.has_photo <==> b.photos.dom().contains(c.id)
}

/// A reading counts its contacts from 1, and has photos of those contacts only.
spec fn reading_ok(b: Reading) -> bool {
    &&& b.next_id == b.contacts.len() + 1
    &&& forall|i: int| 0 <= i < b.contacts.len() ==> #[trigger] read_well(b, i)
    &&& forall|id: i64| #[trigger]
        b.photos.dom().contains(id) ==> 1 <= id <= b.contacts.len() && b.photos[id].len() > 0
}

proof fn lemma_read_records(store: StoreRows, b: Reading, n: int)
    requires
        reading_ok(b),
        0 <= n <= store.records@.len(),
        b.contacts.len() + n < i64::MAX,
    ensures
        reading_ok(read_records(store, b, n)),
        read_records(store, b, n).contacts.len() <= b.contacts.len() + n,
    decreases n,
{
    if n > 0 {
        lemma_read_records(store, b, n - 1);
        if becomes_contact(store, n - 1) {
            let before = read_records(store, b, n - 1);
            let after = add_record(store, before, n - 1);
            assert(!before.photos.dom().contains(before.next_id as i64));
            assert forall|i: int| 0 <= i < after.contacts.len() implies #[trigger] read_well(after, i) by {
                if i < before.contacts.len() {
                    assert(read_well(before, i));
                }
            }
        }
    }
}

proof fn lemma_read_stores(stores: Seq<StoreRows>, n: int)
    requires
        0 <= n <= stores.len(),
        record_count(stores, n) < i64::MAX,
    ensures
        reading_ok(read_stores(stores, n)),
        read_stores(stores, n).contacts.len() <= record_count(stores, n),
    decreases n,
{
    if n > 0 {
        lemma_read_stores(stores, n - 1);
        lemma_read_records(stores[n - 1], read_stores(stores, n - 1), stores[n - 1].records@.len() as int);
    }
}

/// Every contact of a book has a name and an address, its own id between 1 and the number of
/// contacts, and says that it has a photo exactly where the book has one, which is never empty.
pub proof fn contacts_are_complete(stores: Seq<StoreRows>, i: int)
    requires
        record_count(stores, stores.len() as int) < i64::MAX,
        0 <= i < book_contacts(stores).len(),
    ensures
        ({
            let cs = book_contacts(stores);
            let photos = read_stores(stores, stores.len() as int).photos;
            &&& 1 <= cs[i].id <= cs.len()
            &&& cs[i].name.len() > 0
            &&& cs[i].phones.len() + cs[i].emails.len() > 0
            &&& cs[i].has_photo <==> photos.dom().contains(cs[i].id)
            &&& cs[i].has_photo ==> photos[cs[i].id].len() > 0
        }),
{
    let b = read_stores(stores, stores.len() as int);
    lemma_read_stores(stores, stores.len() as int);
    let k = lemma_same_contact(stores, i);
    assert(read_well(b, k));
}

/// The place at which a contact of a book was read.
proof fn lemma_same_contact(stores: Seq<StoreRows>, i: int) -> (k: int)
    requires
        0 <= i < book_contacts(stores).len(),
    ensures
        book_contacts(stores).len() == read_stores(stores, stores.len() as int).contacts.len(),
        0 <= k < book_contacts(stores).len(),
        read_stores(stores, stores.len() as int).contacts[k] == book_contacts(stores)[i],
{
    broadcast use vstd::seq_lib::group_to_multiset_ensures;

    let s = read_stores(stores, stores.len() as int).contacts;
    let t = book_contacts(stores);
    sort_keeps_elements(s, by_name());
    assert(t.contains(t[i]));
    assert(t.to_multiset().count(t[i]) > 0);
    assert(s.to_multiset().count(t[i]) > 0);
    assert(s.contains(t[i]));
    assert(t.to_multiset().len() == s.to_multiset().len());
    choose|k: int| 0 <= k < s.len() && s[k] == t[i]
}

/// No two contacts of a book have one id.
pub proof fn contact_ids_differ(stores: Seq<StoreRows>, i: int, j: int)
    requires
        record_count(stores, stores.len() as int) < i64::MAX,
        0 <= i < j < book_contacts(stores).len(),
    ensures
        book_contacts(stores)[i].id != book_contacts(stores)[j].id,
{
    let b = read_stores(stores, stores.len() as int);
    let s = b.contacts;
    let t = book_contacts(stores);
    lemma_read_stores(stores, stores.len() as int);
    sort_keeps_elements(s, by_name());
    assert(s.no_duplicates()) by {
        assert forall|x: int, y: int| 0 <= x < s.len() && 0 <= y < s.len() && x != y implies s[x] != s[y] by {
            assert(read_well(b, x));
            assert(read_well(b, y));
        }
    }
    s.lemma_multiset_has_no_duplicates();
    t.lemma_multiset_has_no_duplicates_conv();
    let x = lemma_same_contact(stores, i);
    let y = lemma_same_contact(stores, j);
    assert(read_well(b, x));
    assert(read_well(b, y));
    assert(t[i] != t[j]);
}

/// Every number between 1 and the number of contacts is the id of one.
pub proof fn contact_ids_have_no_gap(stores: Seq<StoreRows>, id: i64)
    requires
        record_count(stores, stores.len() as int) < i64::MAX,
        1 <= id <= book_contacts(stores).len(),
    ensures
        exists|i: int| 0 <= i < book_contacts(stores).len() && (#[trigger] book_contacts(stores)[i]).id == id,
{
    broadcast use vstd::seq_lib::group_to_multiset_ensures;

    let b = read_stores(stores, stores.len() as int);
    let s = b.contacts;
    let t = book_contacts(stores);
    lemma_read_stores(stores, stores.len() as int);
    sort_keeps_elements(s, by_name());
    assert(t.to_multiset().len() == s.to_multiset().len());
    assert(read_well(b, id - 1));
    assert(s.contains(s[id - 1]));
    assert(s.to_multiset().count(s[id - 1]) > 0);
    assert(t.to_multiset().count(s[id - 1]) > 0);
    assert(t.contains(s[id - 1]));
    let i = choose|i: int| 0 <= i < t.len() && t[i] == s[id - 1];
    assert(t[i].id == id);
}

} // verus!
