//! Tapbacks, folded into the reactions that a message shows.
use crate::contacts::ContactBook;
use crate::db::{sender_of, Db, Directory};
use crate::rows::{Tapback, TapbackRow};
use crate::text::{opt, str_same, views};
use crate::wire::{tapback_glyph, unix_ms, Message, MessageV, Participant, ParticipantV, Reaction, ReactionV};
use vstd::prelude::*;

verus! {

// ----- one tapback -----

/// The name of a tapback.
pub open spec fn tap_kind(t: Tapback) -> Seq<char> {
    match t {
        Tapback::Loved => "love"@,
        Tapback::Liked => "like"@,
        Tapback::Disliked => "dislike"@,
        Tapback::Laughed => "laugh"@,
        Tapback::Emphasized => "emphasize"@,
        Tapback::Questioned => "question"@,
        Tapback::Emoji(_) => "emoji"@,
        Tapback::Sticker => "sticker"@,
    }
}

/// What a tapback shows.
pub open spec fn tap_glyph(t: Tapback) -> Seq<char> {
    match t {
        Tapback::Loved => "❤️"@,
        Tapback::Liked => "👍"@,
        Tapback::Disliked => "👎"@,
        Tapback::Laughed => "😂"@,
        Tapback::Emphasized => "‼️"@,
        Tapback::Questioned => "❓"@,
        Tapback::Emoji(e) => match e {
            Some(s) => s@,
            None => Seq::empty(),
        },
        Tapback::Sticker => "🏷"@,
    }
}

fn tap_parts(t: &Tapback) -> (r: (String, String))
    ensures
        r.0@ == tap_kind(*t),
        r.1@ == tap_glyph(*t),
{
    match t {
        Tapback::Loved => ("love".to_owned(), "❤️".to_owned()),
        Tapback::Liked => ("like".to_owned(), "👍".to_owned()),
        Tapback::Disliked => ("dislike".to_owned(), "👎".to_owned()),
        Tapback::Laughed => ("laugh".to_owned(), "😂".to_owned()),
        Tapback::Emphasized => ("emphasize".to_owned(), "‼️".to_owned()),
        Tapback::Questioned => ("question".to_owned(), "❓".to_owned()),
        Tapback::Emoji(e) => (
            "emoji".to_owned(),
            match e {
                Some(s) => s.clone(),
                None => String::new(),
            },
        ),
        Tapback::Sticker => ("sticker".to_owned(), "🏷".to_owned()),
    }
}

/// The six named tapbacks show the glyph that clients show for their kind.
pub proof fn named_tapbacks_show_their_glyph(t: Tapback)
    requires
        !(t is Emoji),
        !(t is Sticker),
    ensures
        tap_glyph(t) == tapback_glyph(tap_kind(t)),
{
    reveal_strlit("love");
    reveal_strlit("like");
    reveal_strlit("dislike");
    reveal_strlit("laugh");
    reveal_strlit("emphasize");
    reveal_strlit("question");
    assert("love"@[1] == 'o');
    assert("like"@[1] == 'i');
    assert("dislike"@.len() == 7);
    assert("laugh"@.len() == 5);
    assert("emphasize"@.len() == 9);
    assert("question"@.len() == 8);
}

/// The reaction that a tapback makes.
pub open spec fn reaction_of(d: Directory, row: TapbackRow, t: Tapback) -> ReactionV {
    ReactionV {
        kind: tap_kind(t),
        emoji: tap_glyph(t),
        sender: sender_of(d, row.is_from_me, row.handle_id),
        from_me: row.is_from_me,
    }
}

/// The handle of a sender.
pub open spec fn handle_of(p: Option<ParticipantV>) -> Option<i64> {
    match p {
        Some(p) => Some(p.handle_id),
        None => None,
    }
}

/// Two reactions of one person that show the same.
pub open spec fn same_reaction(a: ReactionV, b: ReactionV) -> bool {
    a.kind == b.kind && a.emoji == b.emoji && a.from_me == b.from_me && handle_of(a.sender) == handle_of(b.sender)
}

fn sender_handle(p: &Option<Participant>) -> (r: Option<i64>)
    ensures
        r == handle_of(opt(*p)),
{
    match p {
        Some(p) => Some(p.handle_id),
        None => None,
    }
}

fn matching(a: &Reaction, b: &Reaction) -> (r: bool)
    ensures
        r == same_reaction(a@, b@),
{
    let handles: bool = match (sender_handle(&a.sender), sender_handle(&b.sender)) {
        (Some(x), Some(y)) => x == y,
        (None, None) => true,
        _ => false,
    };
    handles && a.from_me == b.from_me && str_same(a.kind.as_str(), b.kind.as_str()) && str_same(
        a.emoji.as_str(),
        b.emoji.as_str(),
    )
}

/// A list of reactions without those that are the same as `x`.
pub open spec fn without(list: Seq<ReactionV>, x: ReactionV) -> Seq<ReactionV>
    decreases list.len(),
{
    if list.len() == 0 {
        Seq::empty()
    } else if same_reaction(list.last(), x) {
        without(list.drop_last(), x)
    } else {
        without(list.drop_last(), x).push(list.last())
    }
}

fn drop_matching(list: Vec<Reaction>, x: &Reaction) -> (r: Vec<Reaction>)
    ensures
        views(r@) == without(views(list@), x@),
{
    let mut out: Vec<Reaction> = Vec::new();
    let ghost all = views(list@);
    let mut i: usize = 0;
    assert(all.take(0) =~= Seq::<ReactionV>::empty());
    assert(views(out@) =~= without(all.take(0), x@));
    while i < list.len()
        invariant
            i <= list.len(),
            all == views(list@),
            views(out@) == without(all.take(i as int), x@),
        decreases list.len() - i,
    {
        assert(all.take(i + 1).drop_last() =~= all.take(i as int));
        assert(all.take(i + 1).last() == list@[i as int]@);
        if !matching(&list[i], x) {
            let ghost before = views(out@);
            out.push(list[i].clone());
            assert(views(out@) =~= before.push(list@[i as int]@));
        }
        i += 1;
    }
    assert(all.take(i as int) =~= all);
    out
}

// ----- the reactions on a message -----

/// A tapback row speaks of the message `guid`.
pub open spec fn applies(row: TapbackRow, guid: Seq<char>) -> bool {
    row.target is Some && row.target->0@ == guid && row.tapback is Some
}

/// The reactions on the message `guid`, after all tapbacks in order: a new one takes the place
/// of the same one before it, and one that is taken back goes.
pub open spec fn reactions_on(d: Directory, rows: Seq<TapbackRow>, guid: Seq<char>) -> Seq<ReactionV>
    decreases rows.len(),
{
    if rows.len() == 0 {
        Seq::empty()
    } else {
        let before = reactions_on(d, rows.drop_last(), guid);
        let row = rows.last();
        if applies(row, guid) {
            let (added, t) = row.tapback->0;
            let x = reaction_of(d, row, t);
            if added {
                without(before, x).push(x)
            } else {
                without(before, x)
            }
        } else {
            before
        }
    }
}

/// Some tapback speaks of the message `guid`.
pub open spec fn touched(rows: Seq<TapbackRow>, guid: Seq<char>) -> bool {
    exists|i: int| 0 <= i < rows.len() && applies(#[trigger] rows[i], guid)
}

impl Db {
    fn reactions_for(&self, rows: &Vec<TapbackRow>, guid: &str, book: &ContactBook) -> (r: Option<Vec<Reaction>>)
        requires
            book.wf(),
        ensures
            r is Some <==> touched(rows@, guid@),
            r is Some ==> views((r->0)@) == reactions_on(self.directory(book), rows@, guid@),
    {
        let ghost d = self.directory(book);
        let mut list: Vec<Reaction> = Vec::new();
        let mut any: bool = false;
        let mut i: usize = 0;
        assert(rows@.take(0) =~= Seq::<TapbackRow>::empty());
        assert(views(list@) =~= reactions_on(d, rows@.take(0), guid@));
        while i < rows.len()
            invariant
                i <= rows.len(),
                book.wf(),
                d == self.directory(book),
                views(list@) == reactions_on(d, rows@.take(i as int), guid@),
                any <==> exists|k: int| 0 <= k < i && applies(#[trigger] rows@[k], guid@),
            decreases rows.len() - i,
        {
            assert(rows@.take(i + 1).drop_last() =~= rows@.take(i as int));
            let row: &TapbackRow = &rows[i];
            let hit: bool = match &row.target {
                Some(t) => str_same(t.as_str(), guid),
                None => false,
            };
            if hit {
                if let Some((added, t)) = &row.tapback {
                    assert(applies(rows@[i as int], guid@));
                    let (kind, emoji): (String, String) = tap_parts(t);
                    let sender: Option<Participant> = self.sender(row.is_from_me, row.handle_id, book);
                    let x: Reaction = Reaction { kind, emoji, sender, from_me: row.is_from_me };
                    assert(x@ =~= reaction_of(d, *row, *t));
                    list = drop_matching(list, &x);
                    if *added {
                        let ghost before = views(list@);
                        let ghost xv = x@;
                        list.push(x);
                        assert(views(list@) =~= before.push(xv));
                    }
                    any = true;
                }
            }
            i += 1;
        }
        assert(rows@.take(i as int) =~= rows@);
        if any {
            Some(list)
        } else {
            None
        }
    }
}

/// Message `i` is the first of its guid within its chat.
pub open spec fn first_of_guid(msgs: Seq<MessageV>, i: int) -> bool {
    forall|k: int|
        0 <= k < i ==> !(#[trigger] msgs[k].chat_id == msgs[i].chat_id && msgs[k].guid == msgs[i].guid)
}

/// The tapbacks fetched for a chat; the first entry for the chat counts.
pub open spec fn taps_for(taps: Seq<(i64, Vec<TapbackRow>)>, chat_id: i64) -> Seq<TapbackRow>
    decreases taps.len(),
{
    if taps.len() == 0 {
        Seq::empty()
    } else if taps[0].0 == chat_id {
        taps[0].1@
    } else {
        taps_for(taps.skip(1), chat_id)
    }
}

/// A message with its reactions, where its chat has tapbacks on it.
pub open spec fn reacted(d: Directory, rows: Seq<TapbackRow>, msgs: Seq<MessageV>, i: int) -> MessageV {
    if touched(rows, msgs[i].guid) && first_of_guid(msgs, i) {
        MessageV { reactions: reactions_on(d, rows, msgs[i].guid), ..msgs[i] }
    } else {
        msgs[i]
    }
}

/// Messages of several chats with their reactions.
pub open spec fn all_reacted(d: Directory, taps: Seq<(i64, Vec<TapbackRow>)>, msgs: Seq<MessageV>) -> Seq<MessageV> {
    Seq::new(msgs.len(), |i: int| reacted(d, taps_for(taps, msgs[i].chat_id), msgs, i))
}

/// The last row that speaks of a message says what its last reaction is, where it added one.
proof fn lemma_last_reaction(d: Directory, rows: Seq<TapbackRow>, guid: Seq<char>, k: int)
    requires
        0 <= k < rows.len(),
        applies(rows[k], guid),
        (rows[k].tapback->0).0,
        forall|j: int| k < j < rows.len() ==> !applies(#[trigger] rows[j], guid),
    ensures
        reactions_on(d, rows, guid).len() > 0,
        reactions_on(d, rows, guid).last() == reaction_of(d, rows[k], (rows[k].tapback->0).1),
    decreases rows.len(),
{
    if k < rows.len() - 1 {
        let l = rows.drop_last();
        assert(!applies(rows[rows.len() - 1], guid));
        assert forall|j: int| k < j < l.len() implies !applies(#[trigger] l[j], guid) by {
            assert(!applies(rows[j], guid));
        }
        lemma_last_reaction(d, l, guid, k);
    }
}

/// A tapback that no later one on its message follows shows last: under its own name, with its own
/// glyph, and from the one who gave it.
pub proof fn tapbacks_keep_their_meaning(d: Directory, rows: Seq<TapbackRow>, guid: Seq<char>, k: int)
    requires
        0 <= k < rows.len(),
        rows[k].target is Some,
        rows[k].target->0@ == guid,
        rows[k].tapback is Some,
        (rows[k].tapback->0).0,
        forall|j: int| k < j < rows.len() && (#[trigger] rows[j]).target is Some ==> rows[j].target->0@ != guid,
    ensures
        ({
            let list = reactions_on(d, rows, guid);
            let x = list.last();
            &&& list.len() > 0
            &&& match (rows[k].tapback->0).1 {
                Tapback::Loved => x.kind == "love"@ && x.emoji == "❤️"@,
                Tapback::Liked => x.kind == "like"@ && x.emoji == "👍"@,
                Tapback::Disliked => x.kind == "dislike"@ && x.emoji == "👎"@,
                Tapback::Laughed => x.kind == "laugh"@ && x.emoji == "😂"@,
                Tapback::Emphasized => x.kind == "emphasize"@ && x.emoji == "‼️"@,
                Tapback::Questioned => x.kind == "question"@ && x.emoji == "❓"@,
                Tapback::Emoji(Some(e)) => x.kind == "emoji"@ && x.emoji == e@,
                Tapback::Emoji(None) => x.kind == "emoji"@ && x.emoji.len() == 0,
                Tapback::Sticker => x.kind == "sticker"@ && x.emoji == "🏷"@,
            }
            &&& x.from_me == rows[k].is_from_me
            &&& rows[k].is_from_me ==> x.sender is None
            &&& !rows[k].is_from_me && rows[k].handle_id is Some && d.handles.dom().contains(rows[k].handle_id->0)
                ==> x.sender is Some && (x.sender->0).handle_id == rows[k].handle_id->0 && (x.sender->0).address
                == d.handles[rows[k].handle_id->0]
        }),
{
    assert forall|j: int| k < j < rows.len() implies !applies(#[trigger] rows[j], guid) by {}
    lemma_last_reaction(d, rows, guid, k);
}

proof fn lemma_without_keeps(list: Seq<ReactionV>, x: ReactionV, y: ReactionV)
    requires
        list.contains(y),
        !same_reaction(y, x),
    ensures
        without(list, x).contains(y),
    decreases list.len(),
{
    let i = choose|i: int| 0 <= i < list.len() && list[i] == y;
    let w = without(list, x);
    if i < list.len() - 1 {
        assert(list.drop_last()[i] == y);
        lemma_without_keeps(list.drop_last(), x, y);
        let v = without(list.drop_last(), x);
        let k = choose|k: int| 0 <= k < v.len() && v[k] == y;
        assert(w[k] == y);
    } else {
        assert(w[w.len() - 1] == y);
    }
}

proof fn lemma_without_takes(list: Seq<ReactionV>, x: ReactionV, y: ReactionV)
    requires
        without(list, x).contains(y),
    ensures
        list.contains(y),
        !same_reaction(y, x),
    decreases list.len(),
{
    let w = without(list, x);
    let i = choose|i: int| 0 <= i < w.len() && w[i] == y;
    let d = list.drop_last();
    if same_reaction(list.last(), x) || i < w.len() - 1 {
        let v = without(d, x);
        assert(v[i] == y);
        lemma_without_takes(d, x, y);
        let k = choose|k: int| 0 <= k < d.len() && d[k] == y;
        assert(list[k] == y);
    } else {
        assert(list[list.len() - 1] == y);
    }
}

/// A tapback leaves alone the reactions on other messages, those of other people, and those that
/// show something else.
pub proof fn tapbacks_leave_other_reactions(
    d: Directory,
    rows: Seq<TapbackRow>,
    row: TapbackRow,
    guid: Seq<char>,
    y: ReactionV,
)
    requires
        reactions_on(d, rows, guid).contains(y),
        ({
            ||| row.target is None
            ||| row.target->0@ != guid
            ||| row.tapback is None
            ||| y.from_me != row.is_from_me
            ||| y.sender matches Some(p) && !row.is_from_me && row.handle_id != Some(p.handle_id)
            ||| y.kind != tap_kind((row.tapback->0).1)
            ||| y.emoji != tap_glyph((row.tapback->0).1)
        }),
    ensures
        reactions_on(d, rows.push(row), guid).contains(y),
{
    let all = rows.push(row);
    assert(all.drop_last() =~= rows);
    if applies(row, guid) {
        let x = reaction_of(d, row, (row.tapback->0).1);
        lemma_without_keeps(reactions_on(d, rows, guid), x, y);
        let w = without(reactions_on(d, rows, guid), x);
        let k = choose|k: int| 0 <= k < w.len() && w[k] == y;
        assert(reactions_on(d, all, guid)[k] == y);
    }
}

/// A tapback that is taken back leaves no reaction of its kind and glyph by the same person, and
/// brings none that was not there.
pub proof fn taking_back_removes_a_reaction(
    d: Directory,
    rows: Seq<TapbackRow>,
    row: TapbackRow,
    guid: Seq<char>,
    y: ReactionV,
)
    requires
        row.target is Some,
        row.target->0@ == guid,
        row.tapback is Some,
        !(row.tapback->0).0,
        reactions_on(d, rows.push(row), guid).contains(y),
    ensures
        reactions_on(d, rows, guid).contains(y),
        row.is_from_me && y.from_me && y.sender is None ==> y.kind != tap_kind((row.tapback->0).1) || y.emoji
            != tap_glyph((row.tapback->0).1),
        !row.is_from_me && !y.from_me && row.handle_id is Some && d.handles.dom().contains(row.handle_id->0)
            && y.sender is Some && (y.sender->0).handle_id == row.handle_id->0 ==> y.kind != tap_kind(
            (row.tapback->0).1,
        ) || y.emoji != tap_glyph((row.tapback->0).1),
{
    let all = rows.push(row);
    assert(all.drop_last() =~= rows);
    lemma_without_takes(reactions_on(d, rows, guid), reaction_of(d, row, (row.tapback->0).1), y);
}

/// No tapbacks, no reactions; and nothing shows that no tapback on the message gave.
pub proof fn reactions_come_from_tapbacks(d: Directory, rows: Seq<TapbackRow>, guid: Seq<char>, y: ReactionV)
    requires
        reactions_on(d, rows, guid).contains(y),
    ensures
        exists|k: int|
            0 <= k < rows.len() && (#[trigger] rows[k]).target is Some && rows[k].target->0@ == guid && rows[k].tapback is Some
                && (rows[k].tapback->0).0 && y.from_me == rows[k].is_from_me && y.kind == tap_kind(
                (rows[k].tapback->0).1,
            ) && y.emoji == tap_glyph((rows[k].tapback->0).1),
    decreases rows.len(),
{
    let l = rows.drop_last();
    let row = rows.last();
    if rows.len() > 0 {
        let before = reactions_on(d, l, guid);
        if !before.contains(y) {
            let x = reaction_of(d, row, (row.tapback->0).1);
            let now = reactions_on(d, rows, guid);
            let i = choose|i: int| 0 <= i < now.len() && now[i] == y;
            if without(before, x).contains(y) {
                lemma_without_takes(before, x, y);
            }
            if i < without(before, x).len() {
                assert(without(before, x)[i] == y);
            }
            assert(y == x);
            assert(rows[rows.len() - 1] == row);
        } else {
            reactions_come_from_tapbacks(d, l, guid, y);
            let k = choose|k: int|
                0 <= k < l.len() && (#[trigger] l[k]).target is Some && l[k].target->0@ == guid && l[k].tapback is Some && (
                l[k].tapback->0).0 && y.from_me == l[k].is_from_me && y.kind == tap_kind((l[k].tapback->0).1) && y.emoji
                    == tap_glyph((l[k].tapback->0).1);
            assert(rows[k] == l[k]);
        }
    }
}

/// Attaching reactions changes nothing of a message but its reactions. The first message with a
/// guid gets all reactions on it where there is a tapback on it, and keeps its own where not.
pub proof fn only_reactions_are_attached(d: Directory, rows: Seq<TapbackRow>, msgs: Seq<MessageV>, i: int, k: int)
    requires
        0 <= i < msgs.len(),
    ensures
        (MessageV { reactions: msgs[i].reactions, ..reacted(d, rows, msgs, i) }) == msgs[i],
        0 <= k < rows.len() && rows[k].target is Some && rows[k].target->0@ == msgs[i].guid && rows[k].tapback is Some && (
        forall|j: int| 0 <= j < i ==> (#[trigger] msgs[j]).guid != msgs[i].guid) ==> reacted(d, rows, msgs, i).reactions
            == reactions_on(d, rows, msgs[i].guid),
        (forall|j: int| 0 <= j < rows.len() && (#[trigger] rows[j]).target is Some ==> rows[j].target->0@ != msgs[i].guid)
            ==> reacted(d, rows, msgs, i) == msgs[i],
{
    if 0 <= k < rows.len() && rows[k].target is Some && rows[k].target->0@ == msgs[i].guid && rows[k].tapback is Some {
        assert(applies(rows[k], msgs[i].guid));
    }
}

/// A chat gets the tapbacks that were fetched for it.
pub proof fn tapbacks_go_to_their_chat(taps: Seq<(i64, Vec<TapbackRow>)>, i: int)
    requires
        0 <= i < taps.len(),
        forall|j: int| 0 <= j < i ==> (#[trigger] taps[j]).0 != taps[i].0,
    ensures
        taps_for(taps, taps[i].0) == taps[i].1@,
    decreases taps.len(),
{
    if i > 0 {
        assert(taps[0].0 != taps[i].0);
        let t = taps.skip(1);
        assert forall|j: int| 0 <= j < i - 1 implies (#[trigger] t[j]).0 != t[i - 1].0 by {
            assert(taps[j + 1].0 != taps[i].0);
        }
        tapbacks_go_to_their_chat(t, i - 1);
    }
}

fn is_first_of_guid(msgs: &Vec<Message>, i: usize) -> (r: bool)
    requires
        i < msgs@.len(),
    ensures
        r == first_of_guid(views(msgs@), i as int),
{
    let mut k: usize = 0;
    while k < i
        invariant
            k <= i < msgs@.len(),
            forall|j: int|
                0 <= j < k ==> !(#[trigger] views(msgs@)[j].chat_id == views(msgs@)[i as int].chat_id
                    && views(msgs@)[j].guid == views(msgs@)[i as int].guid),
        decreases i - k,
    {
        if msgs[k].chat_id == msgs[i].chat_id && str_same(msgs[k].guid.as_str(), msgs[i].guid.as_str()) {
            assert(views(msgs@)[k as int].chat_id == views(msgs@)[i as int].chat_id);
            return false;
        }
        k += 1;
    }
    true
}

fn find_taps(taps: &Vec<(i64, Vec<TapbackRow>)>, chat_id: i64) -> (r: Option<usize>)
    ensures
        r is Some ==> r->0 < taps@.len() && taps_for(taps@, chat_id) == taps@[r->0 as int].1@,
        r is None ==> taps_for(taps@, chat_id) == Seq::<TapbackRow>::empty(),
{
    let mut i: usize = 0;
    assert(taps@.skip(0) =~= taps@);
    while i < taps.len()
        invariant
            i <= taps.len(),
            taps_for(taps@, chat_id) == taps_for(taps@.skip(i as int), chat_id),
        decreases taps.len() - i,
    {
        if taps[i].0 == chat_id {
            return Some(i);
        }
        assert(taps@.skip(i as int).skip(1) =~= taps@.skip(i + 1));
        i += 1;
    }
    None
}

impl Db {
    /// Attach to each message the reactions on it. `taps` holds, for each chat, its tapbacks in
    /// the order of their dates.
    pub fn attach_reactions_multi(
        &self,
        msgs: &mut Vec<Message>,
        taps: &Vec<(i64, Vec<TapbackRow>)>,
        book: &ContactBook,
    )
        requires
            book.wf(),
        ensures
            views(final(msgs)@) == all_reacted(self.directory(book), taps@, views(old(msgs)@)),
    {
        let ghost d = self.directory(book);
        let ghost before = views(msgs@);
        let n: usize = msgs.len();
        let mut i: usize = 0;
        while i < n
            invariant
                i <= n,
                n == msgs@.len(),
                n == before.len(),
                book.wf(),
                d == self.directory(book),
                forall|k: int| 0 <= k < i ==> #[trigger] views(msgs@)[k] == all_reacted(d, taps@, before)[k],
                forall|k: int| i <= k < n ==> #[trigger] views(msgs@)[k] == before[k],
            decreases n - i,
        {
            let ghost now = views(msgs@);
            let first: bool = is_first_of_guid(msgs, i);
            assert(first == first_of_guid(before, i as int)) by {
                assert forall|k: int| 0 <= k < n implies #[trigger] now[k].chat_id == before[k].chat_id && now[k].guid
                    == before[k].guid by {
                    if k < i {
                        assert(views(msgs@)[k] == all_reacted(d, taps@, before)[k]);
                    } else {
                        assert(views(msgs@)[k] == before[k]);
                    }
                }
                if first_of_guid(now, i as int) {
                    assert forall|k: int| 0 <= k < i implies !(#[trigger] before[k].chat_id == before[i as int].chat_id
                        && before[k].guid == before[i as int].guid) by {
                        assert(now[k].chat_id == before[k].chat_id);
                        assert(now[i as int].chat_id == before[i as int].chat_id);
                    }
                } else {
                    let k = choose|k: int|
                        0 <= k < i && (#[trigger] now[k].chat_id == now[i as int].chat_id && now[k].guid
                            == now[i as int].guid);
                    assert(now[i as int].chat_id == before[i as int].chat_id);
                    assert(before[k].chat_id == before[i as int].chat_id);
                }
            }
            assert(views(msgs@)[i as int] == before[i as int]);
            if first {
                if let Some(t) = find_taps(taps, msgs[i].chat_id) {
                    if let Some(list) = self.reactions_for(&taps[t].1, msgs[i].guid.as_str(), book) {
                        let mut m: Message = msgs[i].clone();
                        m.reactions = list;
                        msgs.set(i, m);
                    }
                }
            }
            assert(views(msgs@)[i as int] =~= all_reacted(d, taps@, before)[i as int]);
            assert forall|k: int| 0 <= k < n && k != i implies #[trigger] views(msgs@)[k] == now[k] by {}
            i += 1;
        }
        assert(views(msgs@) =~= all_reacted(d, taps@, before));
    }

    /// Attach to each message of one chat the reactions on it. `rows` holds the tapbacks in the
    /// chat in the order of their dates.
    pub fn attach_reactions(&self, msgs: &mut Vec<Message>, rows: Vec<TapbackRow>, book: &ContactBook)
        requires
            book.wf(),
            forall|i: int| 0 <= i < old(msgs)@.len() ==> #[trigger] old(msgs)@[i].chat_id == old(msgs)@[0].chat_id,
        ensures
            views(final(msgs)@) == Seq::new(
                old(msgs)@.len(),
                |i: int| reacted(self.directory(book), rows@, views(old(msgs)@), i),
            ),
            forall|i: int, k: int|
                0 <= i < old(msgs)@.len() && 0 <= k < rows@.len() && rows@[k].tapback is Some && (rows@[k].tapback->0).0
                    && rows@[k].target is Some && rows@[k].target->0@ == old(msgs)@[i].guid@ && (forall|j: int|
                    0 <= j < i ==> (#[trigger] old(msgs)@[j]).guid@ != old(msgs)@[i].guid@) && (forall|j: int|
                    k < j < rows@.len() && (#[trigger] rows@[j]).target is Some ==> rows@[j].target->0@
                        != old(msgs)@[i].guid@) ==> {
                    let list = (#[trigger] final(msgs)@[i]).reactions@;
                    let x = list[list.len() - 1];
                    &&& list.len() > 0
                    &&& x.from_me == (#[trigger] rows@[k]).is_from_me
                    &&& match (rows@[k].tapback->0).1 {
                        Tapback::Loved => x.kind@ == "love"@ && x.emoji@ == "❤️"@,
                        Tapback::Liked => x.kind@ == "like"@ && x.emoji@ == "👍"@,
                        Tapback::Disliked => x.kind@ == "dislike"@ && x.emoji@ == "👎"@,
                        Tapback::Laughed => x.kind@ == "laugh"@ && x.emoji@ == "😂"@,
                        Tapback::Emphasized => x.kind@ == "emphasize"@ && x.emoji@ == "‼️"@,
                        Tapback::Questioned => x.kind@ == "question"@ && x.emoji@ == "❓"@,
                        Tapback::Emoji(Some(e)) => x.kind@ == "emoji"@ && x.emoji@ == e@,
                        Tapback::Emoji(None) => x.kind@ == "emoji"@ && x.emoji@.len() == 0,
                        Tapback::Sticker => x.kind@ == "sticker"@ && x.emoji@ == "🏷"@,
                    }
                },
    {
        if msgs.len() == 0 {
            assert(views(msgs@) =~= Seq::new(
                old(msgs)@.len(),
                |i: int| reacted(self.directory(book), rows@, views(old(msgs)@), i),
            ));
            return;
        }
        let chat_id: i64 = msgs[0].chat_id;
        let mut taps: Vec<(i64, Vec<TapbackRow>)> = Vec::new();
        let ghost rs = rows@;
        taps.push((chat_id, rows));
        assert(taps_for(taps@, chat_id) == rs);
        assert forall|i: int| 0 <= i < msgs@.len() implies (#[trigger] views(msgs@)[i]).chat_id == chat_id by {
            assert(old(msgs)@[i].chat_id == old(msgs)@[0].chat_id);
        }
        self.attach_reactions_multi(msgs, &taps, book);
        assert(views(msgs@) =~= Seq::new(
            old(msgs)@.len(),
            |i: int| reacted(self.directory(book), rs, views(old(msgs)@), i),
        ));
        proof {
            let before = views(old(msgs)@);
            let d = self.directory(book);
            assert forall|i: int, k: int|
                0 <= i < old(msgs)@.len() && 0 <= k < rs.len() && rs[k].tapback is Some && (rs[k].tapback->0).0
                    && rs[k].target is Some && rs[k].target->0@ == old(msgs)@[i].guid@ && (forall|j: int|
                    0 <= j < i ==> (#[trigger] old(msgs)@[j]).guid@ != old(msgs)@[i].guid@) && (forall|j: int|
                    k < j < rs.len() && (#[trigger] rs[j]).target is Some ==> rs[j].target->0@
                        != old(msgs)@[i].guid@) implies ({
                let list = views((#[trigger] msgs@[i]).reactions@);
                &&& list == reactions_on(d, rs, before[i].guid)
                &&& list.len() > 0
                &&& list.last() == reaction_of(d, #[trigger] rs[k], (rs[k].tapback->0).1)
                &&& list.last() == msgs@[i].reactions@[list.len() - 1]@
            }) by {
                assert forall|j: int| 0 <= j < i implies (#[trigger] before[j]).guid != before[i].guid by {
                    assert(old(msgs)@[j].guid@ != old(msgs)@[i].guid@);
                }
                only_reactions_are_attached(d, rs, before, i, k);
                assert forall|j: int| k < j < rs.len() implies !applies(#[trigger] rs[j], before[i].guid) by {}
                lemma_last_reaction(d, rs, before[i].guid, k);
                assert(views(msgs@)[i] == msgs@[i]@);
            }
        }
    }
}

// ----- which tapbacks matter -----

/// The earliest date among messages.
pub open spec fn earliest(msgs: Seq<MessageV>) -> int
    decreases msgs.len(),
{
    if msgs.len() == 0 {
        0
    } else if msgs.len() == 1 {
        msgs[0].date as int
    } else if msgs.last().date < earliest(msgs.drop_last()) {
        msgs.last().date as int
    } else {
        earliest(msgs.drop_last())
    }
}

/// A time in milliseconds as a stored time stamp: nanoseconds since 2001-01-01, and 0 before.
pub open spec fn apple_stamp(ms: int) -> int {
    if ms > 978_307_200_000 {
        (ms - 978_307_200_000) * 1_000_000
    } else {
        0
    }
}

/// The stored time stamp from which tapbacks on these messages are looked for.
pub fn window_start(msgs: &Vec<Message>) -> (r: i64)
    requires
        apple_stamp(earliest(views(msgs@))) <= i64::MAX,
    ensures
        r == apple_stamp(earliest(views(msgs@))),
{
    if msgs.len() == 0 {
        return 0;
    }
    let mut low: i64 = msgs[0].date;
    let mut i: usize = 1;
    let ghost all = views(msgs@);
    assert(all.take(1).len() == 1);
    while i < msgs.len()
        invariant
            1 <= i <= msgs.len(),
            all == views(msgs@),
            low == earliest(all.take(i as int)),
        decreases msgs.len() - i,
    {
        assert(all.take(i + 1).drop_last() =~= all.take(i as int));
        assert(all.take(i + 1).last() == msgs@[i as int]@);
        if msgs[i].date < low {
            low = msgs[i].date;
        }
        i += 1;
    }
    assert(all.take(i as int) =~= all);
    if low > 978_307_200_000 {
        (low - 978_307_200_000) * 1_000_000
    } else {
        0
    }
}

// ----- laws -----

/// Stored time stamps count nanoseconds from 2001; the stamp of the date that a stored one gave is that
/// one, but for the part below a millisecond.
pub proof fn stamps_count_from_2001(ms: int, ts: int)
    ensures
        ms > 978_307_200_000 ==> apple_stamp(ms) == (ms - 978_307_200_000) * 1_000_000,
        ms <= 978_307_200_000 ==> apple_stamp(ms) == 0,
        ts > 10_000_000_000 ==> apple_stamp(unix_ms(ts)) <= ts < apple_stamp(unix_ms(ts)) + 1_000_000,
{
}

/// The window starts with the earliest of the messages.
pub proof fn the_window_starts_with_the_earliest(msgs: Seq<MessageV>, i: int)
    requires
        0 <= i < msgs.len(),
    ensures
        earliest(msgs) <= msgs[i].date,
        exists|k: int| 0 <= k < msgs.len() && (#[trigger] msgs[k]).date == earliest(msgs),
    decreases msgs.len(),
{
    if msgs.len() == 1 {
        assert(msgs[0].date == earliest(msgs));
    } else {
        let d = msgs.drop_last();
        the_window_starts_with_the_earliest(d, if i < d.len() {
            i
        } else {
            0
        });
        if msgs.last().date < earliest(d) {
            assert(msgs[msgs.len() - 1].date == earliest(msgs));
        } else {
            let k = choose|k: int| 0 <= k < d.len() && (#[trigger] d[k]).date == earliest(d);
            assert(msgs[k].date == earliest(msgs));
        }
    }
}

proof fn lemma_without(list: Seq<ReactionV>, x: ReactionV)
    ensures
        forall|i: int| 0 <= i < without(list, x).len() ==> !same_reaction(#[trigger] without(list, x)[i], x),
        forall|i: int|
            0 <= i < without(list, x).len() ==> exists|j: int|
                0 <= j < list.len() && list[j] == #[trigger] without(list, x)[i],
        forall|j: int|
            0 <= j < list.len() && !same_reaction(#[trigger] list[j], x) ==> without(list, x).contains(list[j]),
    decreases list.len(),
{
    if list.len() > 0 {
        let l = list.drop_last();
        lemma_without(l, x);
        let w = without(l, x);
        assert forall|i: int| 0 <= i < without(list, x).len() implies exists|j: int|
            0 <= j < list.len() && list[j] == #[trigger] without(list, x)[i] by {
            if i < w.len() {
                let j = choose|j: int| 0 <= j < l.len() && l[j] == w[i];
                assert(list[j] == without(list, x)[i]);
            } else {
                assert(list[list.len() - 1] == without(list, x)[i]);
            }
        }
        assert forall|j: int| 0 <= j < list.len() && !same_reaction(#[trigger] list[j], x) implies without(
            list,
            x,
        ).contains(list[j]) by {
            if j < l.len() {
                assert(l[j] == list[j]);
                let i = choose|i: int| 0 <= i < w.len() && w[i] == l[j];
                assert(without(list, x)[i] == list[j]);
            } else {
                assert(without(list, x)[w.len() as int] == list[j]);
            }
        }
    }
}

/// No two reactions in a list are the same.
pub open spec fn all_distinct(list: Seq<ReactionV>) -> bool {
    forall|i: int, j: int| 0 <= i < j < list.len() ==> !same_reaction(#[trigger] list[i], #[trigger] list[j])
}

proof fn lemma_without_distinct(list: Seq<ReactionV>, x: ReactionV)
    requires
        all_distinct(list),
    ensures
        all_distinct(without(list, x)),
    decreases list.len(),
{
    if list.len() > 0 {
        let l = list.drop_last();
        assert forall|i: int, j: int| 0 <= i < j < l.len() implies !same_reaction(
            #[trigger] l[i],
            #[trigger] l[j],
        ) by {
            assert(!same_reaction(list[i], list[j]));
        }
        lemma_without_distinct(l, x);
        lemma_without(l, x);
        let w = without(list, x);
        assert forall|i: int, j: int| 0 <= i < j < w.len() implies !same_reaction(
            #[trigger] w[i],
            #[trigger] w[j],
        ) by {
            if j < without(l, x).len() {
                assert(w[i] == without(l, x)[i] && w[j] == without(l, x)[j]);
            } else {
                let p = choose|p: int| 0 <= p < l.len() && l[p] == without(l, x)[i];
                assert(list[p] == l[p]);
                assert(!same_reaction(list[p], list[list.len() - 1]));
            }
        }
    }
}

/// A message never shows the same reaction of one person twice.
pub proof fn reactions_are_distinct(d: Directory, rows: Seq<TapbackRow>, guid: Seq<char>)
    ensures
        all_distinct(reactions_on(d, rows, guid)),
    decreases rows.len(),
{
    if rows.len() > 0 {
        let before = reactions_on(d, rows.drop_last(), guid);
        reactions_are_distinct(d, rows.drop_last(), guid);
        let row = rows.last();
        if applies(row, guid) {
            let (added, t) = row.tapback->0;
            let x = reaction_of(d, row, t);
            lemma_without_distinct(before, x);
            lemma_without(before, x);
        }
    }
}

/// What the last tapback that is the same as `x` did: it stands where that one was added.
pub open spec fn stands(d: Directory, rows: Seq<TapbackRow>, guid: Seq<char>, x: ReactionV) -> bool
    decreases rows.len(),
{
    if rows.len() == 0 {
        false
    } else if applies(rows.last(), guid) && same_reaction(
        reaction_of(d, rows.last(), (rows.last().tapback->0).1),
        x,
    ) {
        (rows.last().tapback->0).0
    } else {
        stands(d, rows.drop_last(), guid, x)
    }
}

/// A reaction shows exactly where the last tapback of its kind by its sender added it.
pub proof fn last_tapback_decides(d: Directory, rows: Seq<TapbackRow>, guid: Seq<char>, x: ReactionV)
    ensures
        stands(d, rows, guid, x) <==> exists|i: int|
            0 <= i < reactions_on(d, rows, guid).len() && same_reaction(
                #[trigger] reactions_on(d, rows, guid)[i],
                x,
            ),
    decreases rows.len(),
{
    if rows.len() > 0 {
        let before = reactions_on(d, rows.drop_last(), guid);
        let after = reactions_on(d, rows, guid);
        last_tapback_decides(d, rows.drop_last(), guid, x);
        let row = rows.last();
        if applies(row, guid) {
            let (added, t) = row.tapback->0;
            let y = reaction_of(d, row, t);
            lemma_without(before, y);
            let w = without(before, y);
            if same_reaction(y, x) {
                assert forall|i: int| 0 <= i < w.len() implies !same_reaction(#[trigger] w[i], x) by {
                    assert(!same_reaction(w[i], y));
                }
                if added {
                    assert(same_reaction(after[w.len() as int], x));
                } else {
                    assert(after == w);
                }
            } else {
                if stands(d, rows.drop_last(), guid, x) {
                    let i = choose|i: int| 0 <= i < before.len() && same_reaction(#[trigger] before[i], x);
                    assert(!same_reaction(before[i], y));
                    let k = choose|k: int| 0 <= k < w.len() && w[k] == before[i];
                    assert(same_reaction(after[k], x));
                } else {
                    assert forall|i: int| 0 <= i < after.len() implies !same_reaction(#[trigger] after[i], x) by {
                        if i < w.len() {
                            let j = choose|j: int| 0 <= j < before.len() && before[j] == w[i];
                            assert(!same_reaction(before[j], x));
                        }
                    }
                }
            }
        }
    }
}

proof fn lemma_earliest(msgs: Seq<MessageV>, i: int)
    requires
        0 <= i < msgs.len(),
    ensures
        earliest(msgs) <= msgs[i].date,
    decreases msgs.len(),
{
    if msgs.len() > 1 {
        if i < msgs.len() - 1 {
            lemma_earliest(msgs.drop_last(), i);
        }
    }
}

/// No tapback on any of the messages is missed: a tapback is never older than its message, and
/// the window starts no later than any message that was stored with a nanosecond stamp.
pub proof fn window_covers_messages(msgs: Seq<MessageV>, i: int, stamp: int)
    requires
        0 <= i < msgs.len(),
        stamp > 10_000_000_000,
        msgs[i].date == crate::wire::unix_ms(stamp),
    ensures
        apple_stamp(earliest(msgs)) <= stamp,
{
    lemma_earliest(msgs, i);
    assert((stamp / 1_000_000) * 1_000_000 <= stamp);
}

} // verus!
