//! Pages of messages, what came in since, and search results.
use crate::contacts::ContactBook;
use crate::db::{converted, row_ok, Db, Directory};
use crate::numbers::{dec_int, decimal_i64};
use crate::rows::MessageRow;
use crate::text::{chars_of, join, join_strings, views};
use crate::wire::{Message, MessageV, MessagesPage, MessagesPageV};
use vstd::prelude::*;

verus! {

/// Every row's dates can be told in milliseconds.
pub open spec fn rows_ok(rows: Seq<MessageRow>) -> bool {
    forall|i: int| 0 <= i < rows.len() ==> row_ok(#[trigger] rows[i])
}

/// A row holds a tapback, not a message of its own.
pub open spec fn is_tapback(row: MessageRow) -> bool {
    row.associated_type matches Some(t) && 1000 <= t <= 3999
}

fn tapback_row(row: &MessageRow) -> (r: bool)
    ensures
        r == is_tapback(*row),
{
    match row.associated_type {
        Some(t) => 1000 <= t && t <= 3999,
        None => false,
    }
}

// ----- pages -----

/// How many of `n` rows a page of at most `limit` messages takes.
pub open spec fn page_len(n: int, limit: int) -> int {
    if limit < 0 || n <= limit {
        n
    } else {
        limit
    }
}

/// A page of messages, oldest first, from rows that come newest first: the newest `limit` rows,
/// in reverse. There is more where the rows exceed the limit.
pub open spec fn page_of(d: Directory, rows: Seq<MessageRow>, limit: int, home: Seq<char>) -> MessagesPageV {
    let n = page_len(rows.len() as int, limit);
    MessagesPageV {
        messages: Seq::new(n as nat, |i: int| converted(d, rows[n - 1 - i], home)),
        has_more: rows.len() > limit,
    }
}

impl Db {
    /// A page of at most `limit` messages, oldest first, before reactions are attached. The rows
    /// come newest first, one more than `limit` where there are as many.
    pub fn messages(&self, rows: &Vec<MessageRow>, limit: i64, book: &ContactBook, home: &str) -> (r: MessagesPage)
        requires
            book.wf(),
            rows_ok(rows@),
        ensures
            r@ == page_of(self.directory(book), rows@, limit as int, home@),
    {
        let total: usize = rows.len();
        let has_more: bool = limit < 0 || total as u128 > limit as u128;
        let n: usize = if limit < 0 || total as u128 <= limit as u128 { total } else { limit as usize };
        let mut out: Vec<Message> = Vec::new();
        let mut i: usize = 0;
        while i < n
            invariant
                i <= n <= rows@.len(),
                book.wf(),
                rows_ok(rows@),
                out@.len() == i,
                forall|k: int|
                    0 <= k < i ==> #[trigger] out@[k]@ == converted(self.directory(book), rows@[n - 1 - k], home@),
            decreases n - i,
        {
            assert(row_ok(rows@[n - 1 - i]));
            out.push(self.convert(&rows[n - 1 - i], book, home));
            i += 1;
        }
        let page: MessagesPage = MessagesPage { messages: out, has_more };
        assert(page@.messages =~= page_of(self.directory(book), rows@, limit as int, home@).messages);
        page
    }
}

/// A page holds no more than was asked for, and says so where rows are left over.
pub proof fn page_keeps_its_limit(d: Directory, rows: Seq<MessageRow>, limit: int, home: Seq<char>)
    requires
        limit >= 0,
    ensures
        page_of(d, rows, limit, home).messages.len() <= limit,
        page_of(d, rows, limit, home).has_more <==> page_of(d, rows, limit, home).messages.len() < rows.len(),
{
}

/// The messages of a page are in the reverse order of the rows: where the rows fall in id, the
/// page rises.
pub proof fn page_is_oldest_first(d: Directory, rows: Seq<MessageRow>, limit: int, home: Seq<char>, i: int, j: int)
    requires
        forall|a: int, b: int| 0 <= a < b < rows.len() ==> (#[trigger] rows[a]).rowid > (#[trigger] rows[b]).rowid,
        0 <= i < j < page_of(d, rows, limit, home).messages.len(),
    ensures
        page_of(d, rows, limit, home).messages[i].id < page_of(d, rows, limit, home).messages[j].id,
{
    let n = page_len(rows.len() as int, limit);
    assert(rows[n - 1 - j].rowid > rows[n - 1 - i].rowid);
}

// ----- chosen rows -----

/// The rows that are messages in a chat, converted.
pub open spec fn linked(d: Directory, rows: Seq<MessageRow>, home: Seq<char>) -> Seq<MessageV>
    decreases rows.len(),
{
    if rows.len() == 0 {
        Seq::empty()
    } else if rows.last().chat_id is None || is_tapback(rows.last()) {
        linked(d, rows.drop_last(), home)
    } else {
        linked(d, rows.drop_last(), home).push(converted(d, rows.last(), home))
    }
}

/// The messages that a list of looked up rows holds: those found in a chat.
pub open spec fn found_messages(d: Directory, rows: Seq<Option<MessageRow>>, home: Seq<char>) -> Seq<MessageV>
    decreases rows.len(),
{
    if rows.len() == 0 {
        Seq::empty()
    } else {
        match rows.last() {
            Some(row) => if row.chat_id is Some {
                found_messages(d, rows.drop_last(), home).push(converted(d, row, home))
            } else {
                found_messages(d, rows.drop_last(), home)
            },
            None => found_messages(d, rows.drop_last(), home),
        }
    }
}

/// The guids of the messages that new tapbacks are on, in the order of the rows.
pub open spec fn targets_of(rows: Seq<MessageRow>) -> Seq<Seq<char>>
    decreases rows.len(),
{
    if rows.len() == 0 {
        Seq::empty()
    } else if is_tapback(rows.last()) && rows.last().associated_guid is Some {
        targets_of(rows.drop_last()).push(rows.last().associated_guid->0@)
    } else {
        targets_of(rows.drop_last())
    }
}

/// The guids of the messages that new tapbacks are on.
pub fn tapback_targets(rows: &Vec<MessageRow>) -> (r: Vec<String>)
    ensures
        views(r@) == targets_of(rows@),
{
    let mut out: Vec<String> = Vec::new();
    let mut i: usize = 0;
    assert(rows@.take(0) =~= Seq::<MessageRow>::empty());
    assert(views(out@) =~= targets_of(rows@.take(0)));
    while i < rows.len()
        invariant
            i <= rows.len(),
            views(out@) == targets_of(rows@.take(i as int)),
        decreases rows.len() - i,
    {
        assert(rows@.take(i + 1).drop_last() =~= rows@.take(i as int));
        if tapback_row(&rows[i]) {
            if let Some(g) = &rows[i].associated_guid {
                let ghost before = views(out@);
                out.push(g.clone());
                assert(views(out@) =~= before.push(g@));
            }
        }
        i += 1;
    }
    assert(rows@.take(i as int) =~= rows@);
    out
}

impl Db {
    /// The messages among rows that were asked for by id: those that are in a chat and are no
    /// tapbacks, before reactions are attached.
    pub fn messages_by_rowids(&self, rows: &Vec<MessageRow>, book: &ContactBook, home: &str) -> (r: Vec<Message>)
        requires
            book.wf(),
            rows_ok(rows@),
        ensures
            views(r@) == linked(self.directory(book), rows@, home@),
    {
        let ghost d = self.directory(book);
        let mut out: Vec<Message> = Vec::new();
        let mut i: usize = 0;
        assert(rows@.take(0) =~= Seq::<MessageRow>::empty());
        assert(views(out@) =~= linked(d, rows@.take(0), home@));
        while i < rows.len()
            invariant
                i <= rows.len(),
                book.wf(),
                rows_ok(rows@),
                d == self.directory(book),
                views(out@) == linked(d, rows@.take(i as int), home@),
            decreases rows.len() - i,
        {
            assert(rows@.take(i + 1).drop_last() =~= rows@.take(i as int));
            assert(row_ok(rows@[i as int]));
            if rows[i].chat_id.is_some() && !tapback_row(&rows[i]) {
                let m: Message = self.convert(&rows[i], book, home);
                let ghost before = views(out@);
                let ghost mv = m@;
                out.push(m);
                assert(views(out@) =~= before.push(mv));
            }
            i += 1;
        }
        assert(rows@.take(i as int) =~= rows@);
        out
    }

    /// A message looked up by guid; none where it is missing or in no chat.
    pub fn message_by_guid(&self, row: &Option<MessageRow>, book: &ContactBook, home: &str) -> (r: Option<Message>)
        requires
            book.wf(),
            row is Some ==> row_ok(row->0),
        ensures
            r is Some <==> row is Some && row->0.chat_id is Some,
            r is Some ==> (r->0)@ == converted(self.directory(book), row->0, home@),
    {
        match row {
            Some(row) => if row.chat_id.is_some() {
                Some(self.convert(row, book, home))
            } else {
                None
            },
            None => None,
        }
    }

    /// The messages among new rows, then the messages that new tapbacks are on, before reactions
    /// are attached. `targets` holds what was found for each of `tapback_targets`.
    pub fn messages_since(
        &self,
        rows: &Vec<MessageRow>,
        targets: &Vec<Option<MessageRow>>,
        book: &ContactBook,
        home: &str,
    ) -> (r: Vec<Message>)
        requires
            book.wf(),
            rows_ok(rows@),
            forall|i: int| 0 <= i < targets@.len() && (#[trigger] targets@[i]) is Some ==> row_ok(targets@[i]->0),
        ensures
            views(r@) == linked(self.directory(book), rows@, home@) + found_messages(
                self.directory(book),
                targets@,
                home@,
            ),
    {
        let ghost d = self.directory(book);
        let mut out: Vec<Message> = self.messages_by_rowids(rows, book, home);
        let ghost base = views(out@);
        let mut i: usize = 0;
        assert(targets@.take(0) =~= Seq::<Option<MessageRow>>::empty());
        assert(base + found_messages(d, targets@.take(0), home@) =~= base);
        while i < targets.len()
            invariant
                i <= targets.len(),
                book.wf(),
                forall|i: int| 0 <= i < targets@.len() && (#[trigger] targets@[i]) is Some ==> row_ok(targets@[i]->0),
                d == self.directory(book),
                views(out@) == base + found_messages(d, targets@.take(i as int), home@),
            decreases targets.len() - i,
        {
            assert(targets@.take(i + 1).drop_last() =~= targets@.take(i as int));
            assert(targets@.take(i + 1).last() == targets@[i as int]);
            let ghost before = views(out@);
            if let Some(m) = self.message_by_guid(&targets[i], book, home) {
                let ghost mv = m@;
                out.push(m);
                assert(views(out@) =~= before.push(mv));
                assert(before.push(mv) =~= base + found_messages(d, targets@.take(i as int), home@).push(mv));
            }
            i += 1;
        }
        assert(targets@.take(i as int) =~= targets@);
        out
    }

    /// The messages that a search found.
    pub fn search(&self, rows: &Vec<MessageRow>, book: &ContactBook, home: &str) -> (r: Vec<Message>)
        requires
            book.wf(),
            rows_ok(rows@),
        ensures
            views(r@) == Seq::new(rows@.len(), |i: int| converted(self.directory(book), rows@[i], home@)),
    {
        let mut out: Vec<Message> = Vec::new();
        let mut i: usize = 0;
        while i < rows.len()
            invariant
                i <= rows.len(),
                book.wf(),
                rows_ok(rows@),
                out@.len() == i,
                forall|k: int|
                    0 <= k < i ==> #[trigger] out@[k]@ == converted(self.directory(book), rows@[k], home@),
            decreases rows.len() - i,
        {
            assert(row_ok(rows@[i as int]));
            out.push(self.convert(&rows[i], book, home));
            i += 1;
        }
        assert(views(out@) =~= Seq::new(rows@.len(), |i: int| converted(self.directory(book), rows@[i], home@)));
        out
    }
}

/// A character of a pattern that does not stand for itself: a wildcard, or the one that escapes
/// them.
pub open spec fn is_special(c: char) -> bool {
    c == '%' || c == '_' || c == '\\'
}

/// A text as it stands in a pattern: each character that does not stand for itself after a
/// backslash.
pub open spec fn escaped(q: Seq<char>) -> Seq<char>
    decreases q.len(),
{
    if q.len() == 0 {
        Seq::empty()
    } else if is_special(q.last()) {
        escaped(q.drop_last()).push('\\').push(q.last())
    } else {
        escaped(q.drop_last()).push(q.last())
    }
}

/// The pattern that a search term is matched by: the term anywhere.
pub open spec fn like_pattern(q: Seq<char>) -> Seq<char> {
    seq!['%'] + escaped(q) + seq!['%']
}

/// The pattern that a search term is matched by, with a backslash to escape: the term anywhere.
pub fn search_pattern(q: &str) -> (r: String)
    ensures
        r@ == like_pattern(q@),
{
    let v: Vec<char> = chars_of(q);
    let mut out: String = String::new();
    out.push('%');
    let mut i: usize = 0;
    assert(out@ =~= seq!['%'] + escaped(v@.take(0)));
    while i < v.len()
        invariant
            i <= v.len(),
            out@ == seq!['%'] + escaped(v@.take(i as int)),
        decreases v.len() - i,
    {
        let c: char = v[i];
        let ghost before = escaped(v@.take(i as int));
        assert(v@.take(i + 1).drop_last() =~= v@.take(i as int));
        if c == '%' || c == '_' || c == '\\' {
            out.push('\\');
            out.push(c);
            assert(out@ =~= seq!['%'] + before.push('\\').push(c));
        } else {
            out.push(c);
            assert(out@ =~= seq!['%'] + before.push(c));
        }
        i += 1;
    }
    out.push('%');
    assert(v@.take(i as int) =~= v@);
    assert(out@ =~= like_pattern(q@));
    out
}

/// The text that a pattern without wildcards stands for; none for a pattern with a wildcard, or
/// one that ends in an escape.
pub open spec fn literal(p: Seq<char>) -> Option<Seq<char>>
    decreases p.len(),
{
    if p.len() == 0 {
        Some(Seq::empty())
    } else if p[0] == '\\' {
        if p.len() == 1 {
            None
        } else {
            match literal(p.skip(2)) {
                Some(t) => Some(seq![p[1]] + t),
                None => None,
            }
        }
    } else if is_special(p[0]) {
        None
    } else {
        match literal(p.skip(1)) {
            Some(t) => Some(seq![p[0]] + t),
            None => None,
        }
    }
}

proof fn lemma_literal_join(a: Seq<char>, b: Seq<char>)
    requires
        literal(a) is Some,
        literal(b) is Some,
    ensures
        literal(a + b) == Some(literal(a)->0 + literal(b)->0),
    decreases a.len(),
{
    if a.len() == 0 {
        assert(a + b =~= b);
        assert(literal(a)->0 + literal(b)->0 =~= literal(b)->0);
    } else {
        let n: int = if a[0] == '\\' {
            2
        } else {
            1
        };
        let rest = a.skip(n);
        lemma_literal_join(rest, b);
        assert((a + b).skip(n) =~= rest + b);
        let c = if n == 2 {
            a[1]
        } else {
            a[0]
        };
        assert(seq![c] + (literal(rest)->0 + literal(b)->0) =~= (seq![c] + literal(rest)->0) + literal(b)->0);
    }
}

/// A search finds its term as it was typed: the pattern between the outer wildcards has none of
/// its own and stands for the term.
pub proof fn terms_are_literal(q: Seq<char>)
    ensures
        literal(escaped(q)) == Some(q),
    decreases q.len(),
{
    if q.len() > 0 {
        let c = q.last();
        let d = escaped(q.drop_last());
        terms_are_literal(q.drop_last());
        let b = if is_special(c) {
            seq!['\\', c]
        } else {
            seq![c]
        };
        assert(literal(Seq::<char>::empty()) == Some(Seq::<char>::empty()));
        if is_special(c) {
            assert(b.skip(2) =~= Seq::empty());
        } else {
            assert(b.skip(1) =~= Seq::empty());
        }
        assert(literal(b)->0 =~= seq![c]);
        lemma_literal_join(d, b);
        assert(escaped(q) =~= d + b);
        assert(q.drop_last() + seq![c] =~= q);
    }
}

/// A percent sign, an underscore and a backslash are escaped by a backslash, and no other character;
/// the term stands between two wildcards.
pub proof fn wildcards_are_escaped(q: Seq<char>, c: char)
    ensures
        escaped(Seq::<char>::empty()) == Seq::<char>::empty(),
        c == '%' || c == '_' || c == '\\' ==> escaped(q.push(c)) == escaped(q) + seq!['\\', c],
        c != '%' && c != '_' && c != '\\' ==> escaped(q.push(c)) == escaped(q) + seq![c],
        like_pattern(q) == seq!['%'] + escaped(q) + seq!['%'],
{
    assert(q.push(c).drop_last() =~= q);
    assert(escaped(q).push('\\').push(c) =~= escaped(q) + seq!['\\', c]);
    assert(escaped(q).push(c) =~= escaped(q) + seq![c]);
}

/// Row ids in decimal, separated by commas.
pub open spec fn ids_text(ids: Seq<i64>) -> Seq<char> {
    join(Seq::new(ids.len(), |i: int| dec_int(ids[i] as int)), ","@)
}

/// Row ids in decimal, separated by commas.
pub fn id_list(ids: &Vec<i64>) -> (r: String)
    ensures
        r@ == ids_text(ids@),
{
    let mut parts: Vec<String> = Vec::new();
    let mut i: usize = 0;
    while i < ids.len()
        invariant
            i <= ids.len(),
            parts@.len() == i,
            forall|k: int| 0 <= k < i ==> #[trigger] parts@[k]@ == dec_int(ids@[k] as int),
        decreases ids.len() - i,
    {
        parts.push(decimal_i64(ids[i]));
        i += 1;
    }
    assert(views(parts@) =~= Seq::new(ids@.len(), |i: int| dec_int(ids@[i] as int)));
    join_strings(&parts, ",")
}

} // verus!
