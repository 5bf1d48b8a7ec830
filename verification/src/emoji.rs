//! Emoji by shortcode, and the emoji picker.
use crate::text::{
    after_last, append_all, chars_of, contains, find_after_last, find_from, is_white, lemma_after_last,
    lemma_position_from, lowercase, occurs_at, opt, piece, position, position_from, str_has, str_same, string_of, to_lowercase, views,
    whitespace,
};
use vstd::prelude::*;

verus! {

// ----- shortcodes -----

/// The emoji that `emojis` knows under a shortcode.
pub uninterp spec fn emoji_for(code: Seq<char>) -> Option<Seq<char>>;

/// `emojis::get_by_shortcode`: the emoji of a shortcode. The table of shortcodes is not spelled
/// out.
#[verifier::external_body]
pub(crate) fn find_emoji(code: &str) -> (r: Option<String>)
    ensures
        opt(r) == emoji_for(code@),
{
    emojis::get_by_shortcode(code).map(|e| e.as_str().to_string())
}

/// A text without white space that may be a shortcode.
pub open spec fn is_code(c: Seq<char>) -> bool {
    c.len() > 0 && forall|i: int| 0 <= i < c.len() ==> !is_white(#[trigger] c[i])
}

/// What stands between the first two colons of a text, where it may be a shortcode.
pub open spec fn code_of(s: Seq<char>) -> Option<Seq<char>> {
    let i = position(s, ':');
    if i >= s.len() {
        None
    } else {
        let after = s.skip(i + 1);
        let j = position(after, ':');
        if j < after.len() && is_code(after.take(j)) {
            Some(after.take(j))
        } else {
            None
        }
    }
}

/// How far a text is done once `emoji` was found for its first shortcode: past the shortcode
/// where there is an emoji, else past the first colon.
pub open spec fn done_upto(s: Seq<char>, emoji: Option<Seq<char>>) -> int {
    let i = position(s, ':');
    if i >= s.len() {
        s.len() as int
    } else if emoji is Some && code_of(s) is Some {
        i + 2 + code_of(s)->0.len()
    } else {
        i + 1
    }
}

/// What takes the place of the part of a text that is done.
pub open spec fn done_text(s: Seq<char>, emoji: Option<Seq<char>>) -> Seq<char> {
    if emoji is Some && code_of(s) is Some {
        s.take(position(s, ':')) + emoji->0
    } else {
        s.take(done_upto(s, emoji))
    }
}

/// The emoji for the first shortcode of a text.
pub open spec fn first_emoji(s: Seq<char>) -> Option<Seq<char>> {
    match code_of(s) {
        Some(c) => emoji_for(c),
        None => None,
    }
}

proof fn lemma_done(s: Seq<char>, emoji: Option<Seq<char>>)
    ensures
        0 <= done_upto(s, emoji) <= s.len(),
        s.len() > 0 ==> done_upto(s, emoji) > 0,
{
    lemma_position_from(s, ':', 0);
    let i = position(s, ':');
    if i < s.len() {
        lemma_position_from(s.skip(i + 1), ':', 0);
    }
}

/// A text with each shortcode between colons replaced by its emoji.
pub open spec fn expanded(s: Seq<char>) -> Seq<char>
    decreases s.len(),
{
    if s.len() == 0 {
        s
    } else {
        let n = done_upto(s, first_emoji(s));
        if 0 < n <= s.len() {
            done_text(s, first_emoji(s)) + expanded(s.skip(n))
        } else {
            s
        }
    }
}

fn all_ink(v: &Vec<char>) -> (r: bool)
    ensures
        r == forall|i: int| 0 <= i < v@.len() ==> !is_white(#[trigger] v@[i]),
{
    let mut i: usize = 0;
    while i < v.len()
        invariant
            i <= v.len(),
            forall|k: int| 0 <= k < i ==> !is_white(#[trigger] v@[k]),
        decreases v.len() - i,
    {
        if whitespace(v[i]) {
            return false;
        }
        i += 1;
    }
    true
}

/// What stands between the first two colons of a text, where it may be a shortcode.
pub fn first_code(s: &Vec<char>) -> (r: Option<Vec<char>>)
    ensures
        r is Some <==> code_of(s@) is Some,
        r is Some ==> (r->0)@ == code_of(s@)->0,
{
    let i: usize = find_from(s, ':', 0);
    if i >= s.len() {
        return None;
    }
    let after: Vec<char> = piece(s, i + 1, s.len());
    assert(after@ =~= s@.skip(i + 1));
    let j: usize = find_from(&after, ':', 0);
    if j >= after.len() {
        return None;
    }
    let code: Vec<char> = piece(&after, 0, j);
    assert(code@ =~= after@.take(j as int));
    if code.len() > 0 && all_ink(&code) {
        Some(code)
    } else {
        None
    }
}

/// Replace the first shortcode of a text by the emoji that was found for it. Returns what is done
/// and how much of the text that covers.
pub fn replace_first(s: &Vec<char>, emoji: Option<String>) -> (r: (Vec<char>, usize))
    ensures
        r.0@ == done_text(s@, opt(emoji)),
        r.1 == done_upto(s@, opt(emoji)),
{
    proof {
        lemma_done(s@, opt(emoji));
        lemma_position_from(s@, ':', 0);
    }
    let i: usize = find_from(s, ':', 0);
    if let Some(e) = emoji {
        if let Some(code) = first_code(s) {
            let mut out: Vec<char> = piece(s, 0, i);
            assert(out@ =~= s@.take(i as int));
            append_all(&mut out, &chars_of(e.as_str()));
            return (out, i + 2 + code.len());
        }
    }
    let n: usize = if i >= s.len() { s.len() } else { i + 1 };
    let out: Vec<char> = piece(s, 0, n);
    assert(out@ =~= s@.take(n as int));
    (out, n)
}

/// Replace each shortcode between colons by its emoji.
pub fn expand_shortcodes(s: &str) -> (r: String)
    ensures
        r@ == expanded(s@),
{
    let v: Vec<char> = chars_of(s);
    let mut out: Vec<char> = Vec::new();
    let mut rest: Vec<char> = chars_of(s);
    assert(out@ + expanded(rest@) =~= expanded(s@));
    while rest.len() > 0
        invariant
            out@ + expanded(rest@) == expanded(s@),
        decreases rest.len(),
    {
        let emoji: Option<String> = match first_code(&rest) {
            Some(c) => find_emoji(string_of(&c).as_str()),
            None => None,
        };
        proof {
            lemma_done(rest@, first_emoji(rest@));
        }
        let ghost before = out@;
        let (done, n): (Vec<char>, usize) = replace_first(&rest, emoji);
        append_all(&mut out, &done);
        let left: Vec<char> = piece(&rest, n, rest.len());
        assert(left@ =~= rest@.skip(n as int));
        assert(out@ + expanded(left@) =~= before + (done@ + expanded(left@)));
        rest = left;
    }
    assert(out@ + expanded(rest@) =~= out@);
    string_of(&out)
}

/// Two colons of a text with none between them that enclose the shortcode of an emoji.
pub open spec fn encloses(s: Seq<char>, i: int, j: int) -> bool {
    &&& 0 <= i < j < s.len()
    &&& s[i] == ':' && s[j] == ':'
    &&& forall|k: int| i < k < j ==> s[k] != ':'
    &&& is_code(s.subrange(i + 1, j))
    &&& emoji_for(s.subrange(i + 1, j)) is Some
}

/// The table of emoji keeps shortcodes and emoji apart: no emoji holds a colon, and no shortcode
/// holds an emoji.
pub open spec fn codes_stay_apart() -> bool {
    &&& forall|c: Seq<char>| #[trigger] emoji_for(c) is Some ==> !emoji_for(c)->0.contains(':')
    &&& forall|c: Seq<char>, d: Seq<char>| #[trigger]
        emoji_for(c) is Some && #[trigger] emoji_for(d) is Some ==> !contains(c, emoji_for(d)->0)
}

/// A text in which the first shortcode is never that of an emoji, from colon to colon.
spec fn at_rest(s: Seq<char>) -> bool
    decreases s.len(),
{
    let i = position(s, ':');
    if 0 <= i < s.len() {
        first_emoji(s) is None && at_rest(s.skip(i + 1))
    } else {
        true
    }
}

proof fn lemma_at_rest_stays(s: Seq<char>)
    requires
        at_rest(s),
    ensures
        expanded(s) == s,
    decreases s.len(),
{
    lemma_position_from(s, ':', 0);
    let i = position(s, ':');
    if s.len() > 0 {
        let n = done_upto(s, first_emoji(s));
        lemma_done(s, first_emoji(s));
        assert(first_emoji(s) is None);
        assert(done_text(s, first_emoji(s)) == s.take(n));
        if i < s.len() {
            assert(n == i + 1);
            lemma_at_rest_stays(s.skip(i + 1));
        } else {
            assert(s.skip(n) =~= Seq::<char>::empty());
            assert(expanded(s.skip(n)) == s.skip(n));
        }
        assert(s.take(n) + s.skip(n) =~= s);
    }
}

proof fn lemma_position_shift(x: Seq<char>, t: Seq<char>, i: int)
    requires
        !x.contains(':'),
        0 <= i <= x.len(),
    ensures
        position_from(x + t, ':', i) == x.len() + position(t, ':'),
    decreases x.len() - i,
{
    if i < x.len() {
        assert((x + t)[i] == x[i]);
        assert(x.contains(x[i]));
        lemma_position_shift(x, t, i + 1);
    } else {
        lemma_position_tail(x, t, 0);
    }
}

proof fn lemma_position_tail(x: Seq<char>, t: Seq<char>, i: int)
    requires
        0 <= i <= t.len(),
    ensures
        position_from(x + t, ':', x.len() + i) == x.len() + position_from(t, ':', i),
    decreases t.len() - i,
{
    if i < t.len() {
        assert((x + t)[x.len() + i] == t[i]);
        lemma_position_tail(x, t, i + 1);
    }
}

/// Text without a colon in front changes nothing.
proof fn lemma_at_rest_behind(x: Seq<char>, t: Seq<char>)
    requires
        !x.contains(':'),
        at_rest(t),
    ensures
        at_rest(x + t),
{
    let s = x + t;
    lemma_position_shift(x, t, 0);
    lemma_position_from(t, ':', 0);
    let i = position(t, ':');
    if i < t.len() {
        assert(s.skip(x.len() + i + 1) =~= t.skip(i + 1));
        assert(code_of(s) == code_of(t));
    }
}

proof fn lemma_take_has_no_colon(s: Seq<char>)
    ensures
        !s.take(position(s, ':')).contains(':'),
{
    lemma_position_from(s, ':', 0);
}

/// The first colon of an expanded text: either the text before it stands as it was, or an emoji
/// stands in it.
proof fn lemma_expanded_front(s: Seq<char>)
    requires
        codes_stay_apart(),
    ensures
        ({
            let out = expanded(s);
            let i = position(s, ':');
            let k = position(out, ':');
            ||| k >= out.len()
            ||| i < s.len() && k == i && out.take(k) == s.take(i)
            ||| exists|c: Seq<char>| #[trigger] emoji_for(c) is Some && contains(out.take(k), emoji_for(c)->0)
        }),
{
    let out = expanded(s);
    let i = position(s, ':');
    let k = position(out, ':');
    lemma_position_from(s, ':', 0);
    lemma_position_from(out, ':', 0);
    if s.len() > 0 {
        let n = done_upto(s, first_emoji(s));
        lemma_done(s, first_emoji(s));
        let rest = expanded(s.skip(n));
        if i >= s.len() {
            assert(s.skip(n) =~= Seq::<char>::empty());
            assert(out =~= s);
        } else if first_emoji(s) is Some {
            let code = code_of(s)->0;
            let e = emoji_for(code)->0;
            let x = s.take(i) + e;
            assert(out == x + rest);
            lemma_take_has_no_colon(s);
            assert(!x.contains(':')) by {
                if x.contains(':') {
                    let m = choose|m: int| 0 <= m < x.len() && x[m] == ':';
                    if m < i {
                        assert(s.take(i).contains(s.take(i)[m]));
                    } else {
                        assert(e.contains(e[m - i]));
                    }
                }
            }
            lemma_position_shift(x, rest, 0);
            lemma_position_from(rest, ':', 0);
            if k < out.len() {
                let front = out.take(k);
                assert(front.subrange(i, i + e.len()) =~= e);
                assert(occurs_at(front, e, i));
                assert(emoji_for(code) is Some && contains(front, e));
            }
        } else {
            assert(out == s.take(i + 1) + rest);
            assert(out =~= s.take(i) + (seq![':'] + rest));
            lemma_take_has_no_colon(s);
            lemma_position_shift(s.take(i), seq![':'] + rest, 0);
            assert((seq![':'] + rest)[0] == ':');
            assert(position(seq![':'] + rest, ':') == 0);
            assert(out.take(k) =~= s.take(i));
        }
    }
}

proof fn lemma_expanded_rests(s: Seq<char>)
    requires
        codes_stay_apart(),
    ensures
        at_rest(expanded(s)),
    decreases s.len(),
{
    let out = expanded(s);
    let i = position(s, ':');
    lemma_position_from(s, ':', 0);
    if s.len() > 0 {
        let n = done_upto(s, first_emoji(s));
        lemma_done(s, first_emoji(s));
        lemma_expanded_rests(s.skip(n));
        let rest = expanded(s.skip(n));
        lemma_take_has_no_colon(s);
        if i >= s.len() {
            assert(s.skip(n) =~= Seq::<char>::empty());
            assert(out =~= s);
        } else if first_emoji(s) is Some {
            let e = emoji_for(code_of(s)->0)->0;
            lemma_at_rest_behind(e, rest);
            lemma_at_rest_behind(s.take(i), e + rest);
            assert(out =~= s.take(i) + (e + rest));
        } else {
            let tail = s.skip(i + 1);
            assert(n == i + 1);
            let t = seq![':'] + rest;
            assert(out =~= s.take(i) + t);
            assert(t[0] == ':');
            assert(position(t, ':') == 0);
            assert(t.skip(1) =~= rest);
            lemma_expanded_front(tail);
            lemma_position_from(tail, ':', 0);
            lemma_position_from(rest, ':', 0);
            let j = position(tail, ':');
            let k = position(rest, ':');
            if first_emoji(t) is Some {
                let code = code_of(t)->0;
                assert(code == rest.take(k));
                if j < tail.len() && k == j && rest.take(k) == tail.take(j) {
                    assert(code_of(s) == Some(code));
                } else {
                    let c = choose|c: Seq<char>| #[trigger] emoji_for(c) is Some && contains(rest.take(k), emoji_for(c)->0);
                    assert(!contains(code, emoji_for(c)->0));
                }
            }
            lemma_at_rest_behind(s.take(i), t);
        }
    }
}

/// Expanding a text twice is expanding it once, with a table that keeps shortcodes and emoji
/// apart.
pub proof fn expanding_twice_is_expanding_once(s: Seq<char>)
    ensures
        codes_stay_apart() ==> expanded(expanded(s)) == expanded(s),
{
    if codes_stay_apart() {
        lemma_expanded_rests(s);
        lemma_at_rest_stays(expanded(s));
    }
}

proof fn lemma_no_code_rests(s: Seq<char>, from: int)
    requires
        0 <= from <= s.len(),
        forall|i: int, j: int| !#[trigger] encloses(s, i, j),
    ensures
        at_rest(s.skip(from)),
    decreases s.len() - from,
{
    let t = s.skip(from);
    lemma_position_from(t, ':', 0);
    let i = position(t, ':');
    if i < t.len() {
        lemma_no_code_rests(s, from + i + 1);
        assert(t.skip(i + 1) =~= s.skip(from + i + 1));
        let after = t.skip(i + 1);
        lemma_position_from(after, ':', 0);
        let j = position(after, ':');
        if first_emoji(t) is Some {
            let a = from + i;
            let b = from + i + 1 + j;
            assert(s.subrange(a + 1, b) =~= after.take(j));
            assert forall|k: int| a < k < b implies s[k] != ':' by {
                assert(after[k - a - 1] == s[k]);
            }
            assert(s[a] == t[i]);
            assert(s[b] == after[j]);
            assert(encloses(s, a, b));
        }
    }
}

/// A text stays as it is where no two neighbouring colons enclose the shortcode of an emoji.
pub proof fn unknown_codes_stay(s: Seq<char>)
    ensures
        (forall|i: int, j: int| !#[trigger] encloses(s, i, j)) ==> expanded(s) == s,
{
    if forall|i: int, j: int| !#[trigger] encloses(s, i, j) {
        lemma_no_code_rests(s, 0);
        assert(s.skip(0) =~= s);
        lemma_at_rest_stays(s);
    }
}

/// A text without colons stays as it is.
pub proof fn plain_text_is_not_expanded(s: Seq<char>)
    requires
        forall|i: int| 0 <= i < s.len() ==> #[trigger] s[i] != ':',
    ensures
        expanded(s) == s,
{
    lemma_position_from(s, ':', 0);
    if s.len() > 0 {
        assert(position(s, ':') >= s.len()) by {
            if position(s, ':') < s.len() {
                assert(s[position(s, ':')] == ':');
            }
        }
        assert(s.take(s.len() as int) + expanded(s.skip(s.len() as int)) =~= s);
    }
}

/// The shortcode that was just closed with a colon: what stands between the last two colons, the
/// second at the end, where it is not empty and holds no space.
pub open spec fn closed_code(before: Seq<char>) -> Option<Seq<char>> {
    if before.len() == 0 || before.last() != ':' {
        None
    } else {
        let t = before.drop_last();
        let start = after_last(t, ':');
        let code = t.skip(start);
        if start == 0 || code.len() == 0 || code.contains(' ') {
            None
        } else {
            Some(code)
        }
    }
}

/// The shortcode that was just closed with a colon.
pub fn typed_code(before: &Vec<char>) -> (r: Option<Vec<char>>)
    ensures
        r is Some <==> closed_code(before@) is Some,
        r is Some ==> (r->0)@ == closed_code(before@)->0,
        r is Some ==> (r->0)@.len() + 2 <= before@.len(),
{
    let n: usize = before.len();
    if n == 0 || before[n - 1] != ':' {
        return None;
    }
    let t: Vec<char> = piece(before, 0, n - 1);
    assert(t@ =~= before@.drop_last());
    let start: usize = find_after_last(&t, ':');
    proof {
        lemma_after_last(t@, ':');
    }
    if start == 0 {
        return None;
    }
    let code: Vec<char> = piece(&t, start, t.len());
    assert(code@ =~= t@.skip(start as int));
    let space: usize = find_from(&code, ' ', 0);
    proof {
        lemma_position_from(code@, ' ', 0);
    }
    if code.len() == 0 || space < code.len() {
        return None;
    }
    Some(code)
}

/// The first `n` characters of a line.
pub open spec fn left_of(line: Seq<char>, n: int) -> Seq<char> {
    if n < line.len() {
        line.take(n)
    } else {
        line
    }
}

/// What to type over a shortcode that was just closed before column `col` of a line: how many
/// characters go, and the emoji in their place.
pub fn maybe_expand_shortcode(line: &str, col: usize) -> (r: Option<(usize, String)>)
    ensures
        ({
            let code = closed_code(left_of(line@, col as int));
            &&& r is Some <==> code is Some && emoji_for(code->0) is Some
            &&& r is Some ==> (r->0).0 == code->0.len() + 2 && (r->0).1@ == emoji_for(code->0)->0
        }),
{
    let v: Vec<char> = chars_of(line);
    let n: usize = if col < v.len() { col } else { v.len() };
    let before: Vec<char> = piece(&v, 0, n);
    assert(before@ =~= left_of(line@, col as int));
    match typed_code(&before) {
        Some(code) => match find_emoji(string_of(&code).as_str()) {
            Some(e) => Some((code.len() + 2, e)),
            None => None,
        },
        None => None,
    }
}

// ----- the picker -----

/// An emoji with its name and shortcodes.
#[derive(Debug)]
pub struct EmojiEntry {
    pub glyph: String,
    pub name: String,
    pub shortcodes: Vec<String>,
}

/// The contents of an `EmojiEntry`.
#[verifier::ext_equal]
pub struct EmojiEntryV {
    pub glyph: Seq<char>,
    pub name: Seq<char>,
    pub shortcodes: Seq<Seq<char>>,
}

impl View for EmojiEntry {
    type V = EmojiEntryV;

    open spec fn view(&self) -> EmojiEntryV {
        EmojiEntryV { glyph: self.glyph@, name: self.name@, shortcodes: views(self.shortcodes@) }
    }
}

/// The emoji at a place in the list of `emojis`: its text, name and shortcodes.
pub uninterp spec fn emoji_at(i: nat) -> Option<(Seq<char>, Seq<char>, Seq<Seq<char>>)>;

/// Item `i` of `emojis::iter`. Which emoji stand there is not spelled out.
#[verifier::external_body]
fn nth_emoji(i: usize) -> (r: Option<EmojiEntry>)
    ensures
        r is Some <==> emoji_at(i as nat) is Some,
        r matches Some(e) ==> (e@.glyph, e@.name, e@.shortcodes) == emoji_at(i as nat)->0,
{
    emojis::iter().nth(i).map(|e| EmojiEntry {
        glyph: e.as_str().to_string(),
        name: e.name().to_string(),
        shortcodes: e.shortcodes().map(|s| s.to_string()).collect(),
    })
}

/// All emoji in the order of `emojis`.
pub fn emoji_table() -> (r: Vec<EmojiEntry>)
    ensures
        forall|i: int| 0 <= i < r@.len() ==> Some((r@[i]@.glyph, r@[i]@.name, (#[trigger] r@[i])@.shortcodes)) == emoji_at(
            i as nat,
        ),
        r@.len() < usize::MAX ==> emoji_at(r@.len()) is None,
{
    let mut out: Vec<EmojiEntry> = Vec::new();
    let mut i: usize = 0;
    while i < usize::MAX
        invariant
            i == out@.len(),
            forall|k: int|
                0 <= k < out@.len() ==> Some((out@[k]@.glyph, out@[k]@.name, (#[trigger] out@[k])@.shortcodes))
                    == emoji_at(k as nat),
        decreases usize::MAX - i,
    {
        match nth_emoji(i) {
            Some(e) => {
                out.push(e);
            },
            None => {
                return out;
            },
        }
        i += 1;
    }
    out
}

/// One of the shortcodes of an emoji is `q`.
pub open spec fn named_exactly(e: EmojiEntryV, q: Seq<char>) -> bool {
    e.shortcodes.contains(q)
}

/// The name of an emoji or one of its shortcodes holds `q`.
pub open spec fn named_like(e: EmojiEntryV, q: Seq<char>) -> bool {
    contains(lowercase(e.name), q) || exists|i: int|
        0 <= i < e.shortcodes.len() && contains(#[trigger] e.shortcodes[i], q)
}

/// The places of the emoji that match a query `q` in lower case, among the first `n`: those whose
/// shortcode it is, and the others. The search ends with more than 400.
pub open spec fn emoji_scan(table: Seq<EmojiEntryV>, q: Seq<char>, n: int) -> (Seq<usize>, Seq<usize>)
    decreases n,
{
    if n <= 0 {
        (Seq::empty(), Seq::empty())
    } else {
        let (exact, like) = emoji_scan(table, q, n - 1);
        let e = table[n - 1];
        if exact.len() + like.len() > 400 {
            (exact, like)
        } else if q.len() == 0 {
            (exact, like.push((n - 1) as usize))
        } else if named_exactly(e, q) {
            (exact.push((n - 1) as usize), like)
        } else if named_like(e, q) {
            (exact, like.push((n - 1) as usize))
        } else {
            (exact, like)
        }
    }
}

/// The places of the emoji that match a query, those whose shortcode it is first.
pub open spec fn emoji_hits(table: Seq<EmojiEntryV>, query: Seq<char>) -> Seq<usize> {
    let (exact, like) = emoji_scan(table, lowercase(query), table.len() as int);
    exact + like
}

fn has_code(e: &EmojiEntry, q: &str) -> (r: bool)
    ensures
        r == named_exactly(e@, q@),
{
    let mut i: usize = 0;
    while i < e.shortcodes.len()
        invariant
            i <= e.shortcodes@.len(),
            forall|k: int| 0 <= k < i ==> e@.shortcodes[k] != q@,
        decreases e.shortcodes@.len() - i,
    {
        if str_same(e.shortcodes[i].as_str(), q) {
            assert(e@.shortcodes[i as int] == q@);
            return true;
        }
        i += 1;
    }
    false
}

fn is_like(e: &EmojiEntry, q: &str) -> (r: bool)
    ensures
        r == named_like(e@, q@),
{
    if str_has(to_lowercase(e.name.as_str()).as_str(), q) {
        return true;
    }
    let mut i: usize = 0;
    while i < e.shortcodes.len()
        invariant
            i <= e.shortcodes@.len(),
            forall|k: int| 0 <= k < i ==> !contains(#[trigger] e@.shortcodes[k], q@),
        decreases e.shortcodes@.len() - i,
    {
        if str_has(e.shortcodes[i].as_str(), q) {
            assert(contains(e@.shortcodes[i as int], q@));
            return true;
        }
        i += 1;
    }
    false
}

/// The places of the emoji that match a query, those whose shortcode it is first.
pub fn emoji_matches(table: &Vec<EmojiEntry>, query: &str) -> (r: Vec<usize>)
    ensures
        r@ == emoji_hits(views(table@), query@),
{
    let q: String = to_lowercase(query);
    let ghost t = views(table@);
    let mut exact: Vec<usize> = Vec::new();
    let mut like: Vec<usize> = Vec::new();
    let mut i: usize = 0;
    assert(exact@ =~= Seq::<usize>::empty());
    assert(like@ =~= Seq::<usize>::empty());
    while i < table.len()
        invariant
            i <= table.len(),
            t == views(table@),
            (exact@, like@) == emoji_scan(t, q@, i as int),
            exact@.len() + like@.len() <= 401,
        decreases table.len() - i,
    {
        assert(t[i as int] == table@[i as int]@);
        if exact.len() + like.len() <= 400 {
            if q.as_str().is_empty() {
                like.push(i);
            } else if has_code(&table[i], q.as_str()) {
                exact.push(i);
            } else if is_like(&table[i], q.as_str()) {
                like.push(i);
            }
        }
        i += 1;
    }
    exact.append(&mut like);
    exact
}

/// Every emoji that is found is in the table.
pub proof fn hits_are_in_the_table(table: Seq<EmojiEntryV>, query: Seq<char>, k: int)
    requires
        table.len() <= usize::MAX,
        0 <= k < emoji_hits(table, query).len(),
    ensures
        emoji_hits(table, query)[k] < table.len(),
{
    lemma_scan(table, lowercase(query), table.len() as int);
    let (exact, like) = emoji_scan(table, lowercase(query), table.len() as int);
    if k < exact.len() {
        assert(exact[k] < table.len());
    } else {
        assert(like[k - exact.len()] < table.len());
    }
}

proof fn lemma_scan(table: Seq<EmojiEntryV>, q: Seq<char>, n: int)
    requires
        0 <= n <= table.len(),
        table.len() <= usize::MAX,
    ensures
        forall|k: int| 0 <= k < emoji_scan(table, q, n).0.len() ==> #[trigger] emoji_scan(table, q, n).0[k] < n,
        forall|k: int| 0 <= k < emoji_scan(table, q, n).1.len() ==> #[trigger] emoji_scan(table, q, n).1[k] < n,
    decreases n,
{
    if n > 0 {
        lemma_scan(table, q, n - 1);
        let before = emoji_scan(table, q, n - 1);
        let after = emoji_scan(table, q, n);
        assert forall|k: int| 0 <= k < after.0.len() implies #[trigger] after.0[k] < n by {
            if k < before.0.len() {
                assert(before.0[k] < n - 1);
            }
        }
        assert forall|k: int| 0 <= k < after.1.len() implies #[trigger] after.1[k] < n by {
            if k < before.1.len() {
                assert(before.1[k] < n - 1);
            }
        }
    }
}

} // verus!
