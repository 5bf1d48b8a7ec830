//! Watching the message database for news.
use crate::maps::keys_of;
use crate::text::{str_same, views};
use crate::wire::{Message, MessageV};
use std::collections::HashMap;
use vstd::prelude::*;

verus! {

broadcast use vstd::std_specs::hash::group_hash_axioms;

/// How long a message is looked at again, in milliseconds.
pub const RECENT_WINDOW: u64 = 600_000;

/// How long at least lies between two pushes of the chat list, in milliseconds.
pub const CHATS_PAUSE: u64 = 1500;

/// What a watcher remembers from one look to the next. Times are milliseconds on a clock that
/// never goes back.
pub struct Watch {
    /// The newest row that was seen.
    pub last: i64,
    /// When the write-ahead log was last changed.
    pub last_wal: Option<i64>,
    /// Rows that came in of late, each with the fingerprint that was last pushed and the time at
    /// which it was first seen. Fields that Messages fills in later change the fingerprint.
    pub recent: HashMap<i64, (String, u64)>,
    /// When the chat list was last pushed.
    pub chats_pushed: u64,
}

/// The contents of a `Watch`.
#[verifier::ext_equal]
pub struct WatchV {
    pub last: i64,
    pub last_wal: Option<i64>,
    pub recent: Map<i64, (Seq<char>, u64)>,
    pub chats_pushed: u64,
}

impl Watch {
    /// The rows that came in of late.
    pub open spec fn recent_map(&self) -> Map<i64, (Seq<char>, u64)> {
        self.recent@.map_values(|e: (String, u64)| (e.0@, e.1))
    }
}

impl View for Watch {
    type V = WatchV;

    open spec fn view(&self) -> WatchV {
        WatchV {
            last: self.last,
            last_wal: self.last_wal,
            recent: self.recent_map(),
            chats_pushed: self.chats_pushed,
        }
    }
}

/// What one look at the database found.
#[derive(Debug)]
pub struct Round {
    /// Messages to push.
    pub to_push: Vec<Message>,
    /// Something in the database changed.
    pub changed: bool,
    /// Rows whose fingerprints are to be looked at.
    pub check: Vec<i64>,
}

/// The rows that came in of late, with `ids` added at the time `now`.
pub open spec fn noted(recent: Map<i64, (Seq<char>, u64)>, ids: Seq<i64>, now: u64) -> Map<i64, (Seq<char>, u64)>
    decreases ids.len(),
{
    if ids.len() == 0 {
        recent
    } else {
        noted(recent, ids.drop_last(), now).insert(ids.last(), (Seq::empty(), now))
    }
}

/// The ids of messages.
pub open spec fn ids_of(msgs: Seq<MessageV>) -> Seq<i64> {
    Seq::new(msgs.len(), |i: int| msgs[i].id)
}

/// A row that is still looked at at the time `now`.
pub open spec fn is_recent(e: (Seq<char>, u64), now: u64) -> bool {
    now - e.1 < RECENT_WINDOW
}

/// The rows that are still looked at at the time `now`.
pub open spec fn kept(recent: Map<i64, (Seq<char>, u64)>, now: u64) -> Map<i64, (Seq<char>, u64)> {
    Map::new(|k: i64| recent.dom().contains(k) && is_recent(recent[k], now), |k: i64| recent[k])
}

/// The rows that came in of late, after a look that brought `msgs` and rows without a chat.
pub open spec fn recent_after(w: WatchV, now_max: i64, found: Option<(Seq<MessageV>, Seq<i64>)>, now: u64) -> Map<
    i64,
    (Seq<char>, u64),
> {
    kept(
        if now_max > w.last && found is Some {
            noted(w.recent, ids_of((found->0).0) + (found->0).1, now)
        } else {
            w.recent
        },
        now,
    )
}

/// What is remembered after a look.
pub open spec fn looked(
    w: WatchV,
    now_max: i64,
    found: Option<(Seq<MessageV>, Seq<i64>)>,
    wal: Option<i64>,
    now: u64,
) -> WatchV {
    WatchV {
        last: if now_max > w.last {
            now_max
        } else {
            w.last
        },
        last_wal: wal,
        recent: recent_after(w, now_max, found, now),
        chats_pushed: w.chats_pushed,
    }
}

/// The contents of what was fetched.
pub open spec fn found_views(found: Option<(Vec<Message>, Vec<i64>)>) -> Option<(Seq<MessageV>, Seq<i64>)> {
    match found {
        Some((msgs, unlinked)) => Some((views(msgs@), unlinked@)),
        None => None,
    }
}

fn message_ids(msgs: &Vec<Message>) -> (r: Vec<i64>)
    ensures
        r@ == ids_of(views(msgs@)),
{
    let mut out: Vec<i64> = Vec::new();
    let mut i: usize = 0;
    while i < msgs.len()
        invariant
            i <= msgs.len(),
            out@.len() == i,
            forall|k: int| 0 <= k < i ==> #[trigger] out@[k] == msgs@[k].id,
        decreases msgs.len() - i,
    {
        out.push(msgs[i].id);
        i += 1;
    }
    assert(out@ =~= ids_of(views(msgs@)));
    out
}

impl Watch {
    /// A watcher that starts at the newest row.
    pub fn new(last: i64, wal: Option<i64>, now: u64) -> (r: Self)
        ensures
            r@ == (WatchV { last, last_wal: wal, recent: Map::empty(), chats_pushed: now }),
    {
        let r: Watch = Watch { last, last_wal: wal, recent: HashMap::new(), chats_pushed: now };
        assert(r.recent_map() =~= Map::<i64, (Seq<char>, u64)>::empty());
        r
    }

    /// Nobody listens: forget what came in, and start from the newest row.
    pub fn idle(&mut self, now_max: Option<i64>, wal: Option<i64>)
        ensures
            final(self)@ == (WatchV {
                last: match now_max {
                    Some(v) => v,
                    None => old(self)@.last,
                },
                last_wal: wal,
                recent: Map::empty(),
                ..old(self)@
            }),
    {
        if let Some(v) = now_max {
            self.last = v;
        }
        self.last_wal = wal;
        self.recent = HashMap::new();
        assert(self.recent_map() =~= Map::<i64, (Seq<char>, u64)>::empty());
    }

    /// The row after which new rows are to be fetched; none where there are none.
    pub fn fetch_from(&self, now_max: i64) -> (r: Option<i64>)
        ensures
            r == (if now_max > self@.last {
                Some(self@.last)
            } else {
                None
            }),
    {
        if now_max > self.last {
            Some(self.last)
        } else {
            None
        }
    }

    fn note(&mut self, ids: &Vec<i64>, now: u64)
        ensures
            final(self)@ == (WatchV { recent: noted(old(self)@.recent, ids@, now), ..old(self)@ }),
    {
        let ghost m0 = self.recent_map();
        let ghost w0 = self@;
        let mut i: usize = 0;
        assert(ids@.take(0) =~= Seq::<i64>::empty());
        while i < ids.len()
            invariant
                i <= ids.len(),
                self@ == (WatchV { recent: noted(m0, ids@.take(i as int), now), ..w0 }),
            decreases ids.len() - i,
        {
            assert(ids@.take(i + 1).drop_last() =~= ids@.take(i as int));
            let ghost before = self.recent_map();
            let s: String = String::new();
            assert(s@ =~= Seq::<char>::empty());
            self.recent.insert(ids[i], (s, now));
            assert(self.recent_map() =~= before.insert(ids@[i as int], (Seq::empty(), now)));
            i += 1;
        }
        assert(ids@.take(i as int) =~= ids@);
    }

    fn expire(&mut self, now: u64)
        ensures
            final(self)@ == (WatchV { recent: kept(old(self)@.recent, now), ..old(self)@ }),
    {
        let ghost m0 = self.recent_map();
        let ghost w0 = self@;
        let keys: Vec<i64> = keys_of(&self.recent);
        assert(self.recent_map().dom() =~= self.recent@.dom());
        let mut i: usize = 0;
        while i < keys.len()
            invariant
                i <= keys.len(),
                keys@.no_duplicates(),
                keys@.to_set() == m0.dom(),
                self@ == (WatchV { recent: self.recent_map(), ..w0 }),
                forall|k: i64| #[trigger]
                    self.recent_map().dom().contains(k) ==> m0.dom().contains(k) && self.recent_map()[k] == m0[k],
                forall|k: i64| #[trigger]
                    m0.dom().contains(k) && is_recent(m0[k], now) ==> self.recent_map().dom().contains(k),
                forall|j: int|
                    0 <= j < i && !is_recent(m0[#[trigger] keys@[j]], now) ==> !self.recent_map().dom().contains(
                        keys@[j],
                    ),
                forall|j: int| i <= j < keys@.len() ==> self.recent_map().dom().contains(#[trigger] keys@[j]),
            decreases keys.len() - i,
        {
            let k: i64 = keys[i];
            assert(keys@.to_set().contains(k));
            assert(self.recent_map().dom().contains(keys@[i as int]));
            let old_one: bool = match self.recent.get(&k) {
                Some(e) => {
                    assert(self.recent_map()[k] == (e.0@, e.1));
                    now >= e.1 && now - e.1 >= RECENT_WINDOW
                },
                None => false,
            };
            assert(old_one == !is_recent(m0[k], now));
            if old_one {
                let ghost before = self.recent_map();
                self.recent.remove(&k);
                assert(self.recent_map() =~= before.remove(k));
                assert forall|j: int| i < j < keys@.len() implies self.recent_map().dom().contains(
                    #[trigger] keys@[j],
                ) by {
                    assert(keys@[j] != keys@[i as int]);
                }
            }
            i += 1;
        }
        assert(self.recent_map() =~= kept(m0, now)) by {
            assert forall|k: i64| self.recent_map().dom().contains(k) implies kept(m0, now).dom().contains(k) by {
                assert(keys@.to_set().contains(k));
                let j = choose|j: int| 0 <= j < keys@.len() && keys@[j] == k;
                assert(keys@[j] == k);
            }
            assert forall|k: i64| kept(m0, now).dom().contains(k) implies self.recent_map().dom().contains(k) by {
                assert(m0.dom().contains(k));
            }
        }
    }

    /// Take in a look at the database: the newest row, what was fetched where there is something
    /// new (none where that failed), and when the write-ahead log changed.
    pub fn look(
        &mut self,
        now_max: i64,
        found: Option<(Vec<Message>, Vec<i64>)>,
        wal: Option<i64>,
        now: u64,
    ) -> (r: Round)
        ensures
            ({
                let seen = found_views(found);
                let new = now_max > old(self)@.last && found is Some;
                &&& final(self)@ == looked(old(self)@, now_max, seen, wal, now)
                &&& views(r.to_push@) == (if new {
                    views((found->0).0@)
                } else {
                    Seq::empty()
                })
                &&& r.changed == (new || wal != old(self)@.last_wal)
                &&& r.check@.no_duplicates()
                &&& r.check@.to_set() == (if wal != old(self)@.last_wal || r.to_push@.len() > 0 {
                    final(self)@.recent.dom()
                } else {
                    Set::empty()
                })
            }),
    {
        let ghost w0 = self@;
        let ghost seen = found_views(found);
        let ghost new = now_max > w0.last && found is Some;
        let mut changed: bool = false;
        let mut to_push: Vec<Message> = Vec::new();
        assert(views(to_push@) =~= Seq::<MessageV>::empty());
        if now_max > self.last {
            if let Some((msgs, unlinked)) = found {
                let mut ids: Vec<i64> = message_ids(&msgs);
                let mut rest: Vec<i64> = unlinked;
                ids.append(&mut rest);
                assert(ids@ =~= ids_of((seen->0).0) + (seen->0).1);
                self.note(&ids, now);
                to_push = msgs;
                changed = true;
            }
            self.last = now_max;
        }
        let wal_changed: bool = match (wal, self.last_wal) {
            (Some(a), Some(b)) => a != b,
            (None, None) => false,
            _ => true,
        };
        assert(wal_changed == (wal != w0.last_wal));
        if wal_changed {
            self.last_wal = wal;
            changed = true;
        }
        self.expire(now);
        assert(self@ =~= looked(w0, now_max, seen, wal, now));
        let check: Vec<i64> = if wal_changed || to_push.len() > 0 { keys_of(&self.recent) } else { Vec::new() };
        assert(self.recent_map().dom() =~= self.recent@.dom());
        assert(!(wal_changed || to_push@.len() > 0) ==> check@.to_set() =~= Set::<i64>::empty());
        Round { to_push, changed, check }
    }
}

/// One of the messages has the id.
pub open spec fn holds_id(msgs: Seq<MessageV>, id: i64) -> bool {
    exists|i: int| 0 <= i < msgs.len() && (#[trigger] msgs[i]).id == id
}

/// The rows that came in of late and those that changed, after fingerprints were seen. A message
/// that is about to be pushed for the first time has not changed.
pub open spec fn compared(recent: Map<i64, (Seq<char>, u64)>, fps: Seq<(i64, Seq<char>)>, pushed: Seq<MessageV>) -> (
    Map<i64, (Seq<char>, u64)>,
    Seq<i64>,
)
    decreases fps.len(),
{
    if fps.len() == 0 {
        (recent, Seq::empty())
    } else {
        let (r, dirty) = compared(recent, fps.drop_last(), pushed);
        let (id, fp) = fps.last();
        if r.dom().contains(id) && r[id].0 != fp {
            (
                r.insert(id, (fp, r[id].1)),
                if r[id].0.len() == 0 && holds_id(pushed, id) {
                    dirty
                } else {
                    dirty.push(id)
                },
            )
        } else {
            (r, dirty)
        }
    }
}

/// Fingerprints, each with its row.
pub open spec fn fp_views(fps: Seq<(i64, String)>) -> Seq<(i64, Seq<char>)> {
    Seq::new(fps.len(), |i: int| (fps[i].0, fps[i].1@))
}

fn has_id(msgs: &Vec<Message>, id: i64) -> (r: bool)
    ensures
        r == holds_id(views(msgs@), id),
{
    let mut i: usize = 0;
    while i < msgs.len()
        invariant
            i <= msgs.len(),
            forall|k: int| 0 <= k < i ==> (#[trigger] views(msgs@)[k]).id != id,
        decreases msgs.len() - i,
    {
        if msgs[i].id == id {
            assert(views(msgs@)[i as int].id == id);
            return true;
        }
        i += 1;
    }
    false
}

impl Watch {
    /// Take in fingerprints; returns the rows that changed since they were last pushed.
    pub fn recheck(&mut self, fps: &Vec<(i64, String)>, pushed: &Vec<Message>) -> (dirty: Vec<i64>)
        ensures
            final(self)@ == (WatchV {
                recent: compared(old(self)@.recent, fp_views(fps@), views(pushed@)).0,
                ..old(self)@
            }),
            dirty@ == compared(old(self)@.recent, fp_views(fps@), views(pushed@)).1,
    {
        let ghost m0 = self.recent_map();
        let ghost w0 = self@;
        let ghost all = fp_views(fps@);
        let mut dirty: Vec<i64> = Vec::new();
        let mut i: usize = 0;
        assert(all.take(0) =~= Seq::<(i64, Seq<char>)>::empty());
        assert(dirty@ =~= Seq::<i64>::empty());
        while i < fps.len()
            invariant
                i <= fps.len(),
                all == fp_views(fps@),
                self@ == (WatchV { recent: compared(m0, all.take(i as int), views(pushed@)).0, ..w0 }),
                dirty@ == compared(m0, all.take(i as int), views(pushed@)).1,
            decreases fps.len() - i,
        {
            assert(all.take(i + 1).drop_last() =~= all.take(i as int));
            assert(all.take(i + 1).last() == (fps@[i as int].0, fps@[i as int].1@));
            let id: i64 = fps[i].0;
            let ghost before = self.recent_map();
            let (differs, first, seen): (bool, bool, u64) = match self.recent.get(&id) {
                Some(e) => {
                    assert(before[id] == (e.0@, e.1));
                    (!str_same(e.0.as_str(), fps[i].1.as_str()), e.0.as_str().is_empty(), e.1)
                },
                None => (false, false, 0),
            };
            if differs {
                self.recent.insert(id, (fps[i].1.clone(), seen));
                assert(self.recent_map() =~= before.insert(id, (fps@[i as int].1@, seen)));
                if !(first && has_id(pushed, id)) {
                    dirty.push(id);
                }
            }
            i += 1;
        }
        assert(all.take(i as int) =~= all);
        dirty
    }

    /// Whether the chat list is to be pushed: something changed, and the last push is a while ago.
    pub fn chats_due(&mut self, changed: bool, now: u64) -> (r: bool)
        ensures
            r == (changed && now - old(self)@.chats_pushed > CHATS_PAUSE),
            final(self)@ == (WatchV {
                chats_pushed: if r {
                    now
                } else {
                    old(self)@.chats_pushed
                },
                ..old(self)@
            }),
    {
        if changed && now > self.chats_pushed && now - self.chats_pushed > CHATS_PAUSE {
            self.chats_pushed = now;
            true
        } else {
            false
        }
    }
}

/// A message with the id of message `i` comes after it.
pub open spec fn told_later(msgs: Seq<MessageV>, i: int) -> bool {
    exists|j: int| i < j < msgs.len() && (#[trigger] msgs[j]).id == msgs[i].id
}

/// The messages among the first `n` that none with the same id comes after.
pub open spec fn last_told(msgs: Seq<MessageV>, n: int) -> Seq<MessageV>
    decreases n,
{
    if n <= 0 {
        Seq::empty()
    } else if told_later(msgs, n - 1) {
        last_told(msgs, n - 1)
    } else {
        last_told(msgs, n - 1).push(msgs[n - 1])
    }
}

/// Each message once, as it was told last.
pub fn dedupe(msgs: &Vec<Message>) -> (r: Vec<Message>)
    ensures
        views(r@) == last_told(views(msgs@), msgs@.len() as int),
{
    let ghost all = views(msgs@);
    let mut out: Vec<Message> = Vec::new();
    let mut i: usize = 0;
    assert(views(out@) =~= Seq::<MessageV>::empty());
    while i < msgs.len()
        invariant
            i <= msgs.len(),
            all == views(msgs@),
            views(out@) == last_told(all, i as int),
        decreases msgs.len() - i,
    {
        let mut later: bool = false;
        let mut j: usize = i + 1;
        while j < msgs.len()
            invariant
                i < msgs.len(),
                i < j <= msgs.len(),
                all == views(msgs@),
                later == (exists|k: int| i < k < j && (#[trigger] all[k]).id == all[i as int].id),
            decreases msgs.len() - j,
        {
            if msgs[j].id == msgs[i].id {
                assert(all[j as int].id == all[i as int].id);
                later = true;
            }
            j += 1;
        }
        assert(later == told_later(all, i as int));
        if !later {
            let ghost before = views(out@);
            out.push(msgs[i].clone());
            assert(views(out@) =~= before.push(all[i as int]));
        }
        i += 1;
    }
    out
}

// ----- laws -----

proof fn lemma_noted(recent: Map<i64, (Seq<char>, u64)>, ids: Seq<i64>, now: u64, k: int)
    requires
        0 <= k < ids.len(),
    ensures
        noted(recent, ids, now).dom().contains(ids[k]),
        noted(recent, ids, now)[ids[k]].1 == now,
    decreases ids.len(),
{
    if k < ids.len() - 1 {
        lemma_noted(recent, ids.drop_last(), now, k);
    }
}

/// What is pushed of messages that came in or changed: each once, as it was told last; nothing
/// where there are none.
pub fn to_push(msgs: &Vec<Message>) -> (r: Option<Vec<Message>>)
    ensures
        r is Some <==> msgs@.len() > 0,
        r is Some ==> views((r->0)@) == last_told(views(msgs@), msgs@.len() as int) && (r->0)@.len() > 0,
{
    if msgs.len() == 0 {
        return None;
    }
    let out: Vec<Message> = dedupe(msgs);
    proof {
        news_are_pushed(views(msgs@));
        assert(views(out@).len() == out@.len());
    }
    Some(out)
}

/// Where there is something to push, something is left once each message is taken once.
pub proof fn news_are_pushed(msgs: Seq<MessageV>)
    requires
        msgs.len() > 0,
    ensures
        last_told(msgs, msgs.len() as int).len() > 0,
{
    assert(!told_later(msgs, msgs.len() - 1));
}

/// A message that came in is looked at again: later changes to it will be noticed.
pub proof fn news_are_looked_at_again(
    w: WatchV,
    now_max: i64,
    msgs: Seq<MessageV>,
    unlinked: Seq<i64>,
    wal: Option<i64>,
    now: u64,
    i: int,
)
    requires
        now_max > w.last,
        0 <= i < msgs.len(),
    ensures
        looked(w, now_max, Some((msgs, unlinked)), wal, now).recent.dom().contains(msgs[i].id),
{
    let ids = ids_of(msgs) + unlinked;
    assert(ids[i] == msgs[i].id);
    lemma_noted(w.recent, ids, now, i);
}

/// The newest row that was seen never goes back.
pub proof fn watching_goes_forward(
    w: WatchV,
    now_max: i64,
    found: Option<(Seq<MessageV>, Seq<i64>)>,
    wal: Option<i64>,
    now: u64,
)
    ensures
        looked(w, now_max, found, wal, now).last >= w.last,
        looked(w, now_max, found, wal, now).last >= now_max,
{
}

proof fn lemma_last_told(msgs: Seq<MessageV>, n: int)
    requires
        0 <= n <= msgs.len(),
    ensures
        forall|i: int|
            0 <= i < last_told(msgs, n).len() ==> exists|j: int|
                0 <= j < n && !told_later(msgs, j) && msgs[j] == #[trigger] last_told(msgs, n)[i],
        forall|j: int| 0 <= j < n && !told_later(msgs, j) ==> last_told(msgs, n).contains(#[trigger] msgs[j]),
    decreases n,
{
    if n > 0 {
        lemma_last_told(msgs, n - 1);
        let before = last_told(msgs, n - 1);
        let after = last_told(msgs, n);
        assert forall|i: int| 0 <= i < after.len() implies exists|j: int|
            0 <= j < n && !told_later(msgs, j) && msgs[j] == #[trigger] after[i] by {
            if i < before.len() {
                let j = choose|j: int| 0 <= j < n - 1 && !told_later(msgs, j) && msgs[j] == before[i];
                assert(msgs[j] == after[i]);
            } else {
                assert(msgs[n - 1] == after[i]);
            }
        }
        assert forall|j: int| 0 <= j < n && !told_later(msgs, j) implies after.contains(#[trigger] msgs[j]) by {
            if j < n - 1 {
                let i = choose|i: int| 0 <= i < before.len() && before[i] == msgs[j];
                assert(after[i] == msgs[j]);
            } else {
                assert(after[before.len() as int] == msgs[j]);
            }
        }
    }
}

/// Of several messages with one id the last is pushed.
pub proof fn last_write_wins(msgs: Seq<MessageV>, i: int)
    requires
        0 <= i < msgs.len(),
        !told_later(msgs, i),
    ensures
        last_told(msgs, msgs.len() as int).contains(msgs[i]),
{
    lemma_last_told(msgs, msgs.len() as int);
}

/// Nothing is pushed that was told anew later.
pub proof fn only_last_writes(msgs: Seq<MessageV>, k: int)
    requires
        0 <= k < last_told(msgs, msgs.len() as int).len(),
    ensures
        exists|i: int|
            0 <= i < msgs.len() && !told_later(msgs, i) && msgs[i] == #[trigger] last_told(msgs, msgs.len() as int)[k],
{
    lemma_last_told(msgs, msgs.len() as int);
}

proof fn lemma_told_once(msgs: Seq<MessageV>, n: int, a: int, b: int)
    requires
        0 <= n <= msgs.len(),
        0 <= a < b < last_told(msgs, n).len(),
    ensures
        last_told(msgs, n)[a].id != last_told(msgs, n)[b].id,
    decreases n,
{
    let before = last_told(msgs, n - 1);
    if b < before.len() {
        lemma_told_once(msgs, n - 1, a, b);
    } else {
        lemma_last_told(msgs, n - 1);
        let j = choose|j: int| 0 <= j < n - 1 && !told_later(msgs, j) && msgs[j] == #[trigger] before[a];
        assert(n - 1 > j && msgs[n - 1].id != msgs[j].id);
    }
}

/// No message is pushed twice.
pub proof fn pushed_once(msgs: Seq<MessageV>, a: int, b: int)
    requires
        0 <= a < b < last_told(msgs, msgs.len() as int).len(),
    ensures
        last_told(msgs, msgs.len() as int)[a].id != last_told(msgs, msgs.len() as int)[b].id,
{
    lemma_told_once(msgs, msgs.len() as int, a, b);
}

} // verus!
