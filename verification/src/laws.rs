//! What holds across the parts of the library.
use crate::config::{config_text, line_value, server_of, token_of, value_from};
use crate::contacts::{book_contacts, by_name, lemma_owner, owner_of, owns, addresses_of, StoreRows};
use crate::content::{clean, clean_run};
use crate::keys::{after_key, chats_key, compose_key, messages_key, scrolled, Code, Key};
use crate::order::{insert_point, sort_by, sort_is_sorted, sort_keeps_elements, sort_of_sorted, sorted};
use crate::screen::sat_diff;
use crate::server::{stored_token, token_file, token_from_line, token_line};
use crate::state::{
    after_event, by_id, chat_passes, chat_place, chats_merged, ensured, id_on_screen, lemma_chat_place,
    lemma_message_place, lemma_passing, listed_chats, listed_place, merged, message_came, message_place,
    messages_came, newest_first, passing, reselected, settled, tail_asked, with_chat, with_chats, with_message,
    AppEvent, AppV, Focus, Mode,
};
use crate::text::{
    digits_of, in_class, is_digit, is_white, lowercase, replace_all, split, starts_with, strip_prefix, trim, trim_both, trim_end,
    trim_start, Class,
};
use crate::wire::{normalize, ChatV, ContactV, MessageV};
use vstd::prelude::*;

verus! {

// ----- files of settings -----

proof fn lemma_split_whole(a: Seq<char>, c: char)
    requires
        !a.contains(c),
    ensures
        split(a, c) == seq![a],
    decreases a.len(),
{
    if a.len() == 0 {
        assert(a =~= Seq::<char>::empty());
    } else {
        let b = a.drop_last();
        assert(!b.contains(c)) by {
            if b.contains(c) {
                let i = choose|i: int| 0 <= i < b.len() && b[i] == c;
                assert(a[i] == c);
            }
        }
        lemma_split_whole(b, c);
        assert(a.last() != c) by {
            assert(a.contains(a.last()));
        }
        assert(b.push(a.last()) =~= a);
        assert(seq![b].drop_last().push(seq![b].last().push(a.last())) =~= seq![a]);
    }
}

pub proof fn lemma_split_first(a: Seq<char>, b: Seq<char>, c: char)
    requires
        !a.contains(c),
    ensures
        split(a + seq![c] + b, c) == seq![a] + split(b, c),
        split(b, c).len() > 0,
    decreases b.len(),
{
    let s = a + seq![c] + b;
    if b.len() == 0 {
        lemma_split_whole(a, c);
        assert(b =~= Seq::<char>::empty());
        assert(s.drop_last() =~= a);
        assert(split(s, c) =~= seq![a] + split(b, c));
    } else {
        let d = b.drop_last();
        lemma_split_first(a, d, c);
        assert(s.drop_last() =~= a + seq![c] + d);
        assert(s.last() == b.last());
        let q = split(d, c);
        let p = seq![a] + q;
        if b.last() == c {
            assert(p.push(Seq::<char>::empty()) =~= seq![a] + q.push(Seq::<char>::empty()));
        } else {
            assert(p.last() == q.last());
            assert(p.drop_last().push(p.last().push(b.last())) =~= seq![a] + q.drop_last().push(
                q.last().push(b.last()),
            ));
        }
    }
}

/// A value that can stand between quotes on a line.
pub open spec fn is_value(v: Seq<char>) -> bool {
    !v.contains('\n') && (v.len() > 0 ==> v[0] != '"' && v.last() != '"')
}

/// A line that gives `v` to `key`.
spec fn setting(key: Seq<char>, v: Seq<char>) -> Seq<char> {
    key + seq![' ', '=', ' ', '"'] + v + seq!['"']
}

proof fn lemma_unquoted(v: Seq<char>)
    requires
        is_value(v),
    ensures
        trim_both(seq!['"'] + v + seq!['"'], Class::Only('"')) == v,
{
    let q = seq!['"'] + v + seq!['"'];
    let k = Class::Only('"');
    let t = v + seq!['"'];
    assert(q.skip(1) =~= t);
    assert(trim_start(q, k) == trim_start(t, k));
    if v.len() > 0 {
        assert(t[0] == v[0]);
        assert(trim_start(t, k) == t);
        assert(t.drop_last() =~= v);
        assert(trim_end(t, k) == trim_end(v, k));
        assert(trim_end(v, k) == v);
    } else {
        assert(t.skip(1) =~= Seq::<char>::empty());
        assert(trim_start(t, k) == trim_start(t.skip(1), k));
        assert(trim_end(Seq::<char>::empty(), k) =~= v);
    }
}

proof fn lemma_setting_parts(key: Seq<char>, v: Seq<char>)
    requires
        key.len() > 0,
        !is_white(key[0]),
    ensures
        trim(setting(key, v)) == setting(key, v),
        strip_prefix(setting(key, v), key) == Some(seq![' ', '=', ' ', '"'] + v + seq!['"']),
        trim(seq![' ', '=', ' ', '"'] + v + seq!['"']) == seq!['=', ' ', '"'] + v + seq!['"'],
        trim(seq![' ', '"'] + v + seq!['"']) == seq!['"'] + v + seq!['"'],
{
    let s = setting(key, v);
    let w = Class::White;
    assert(s[0] == key[0]);
    assert(s.last() == '"');
    assert(trim_start(s, w) == s);
    assert(trim_end(s, w) == s);
    let r = seq![' ', '=', ' ', '"'] + v + seq!['"'];
    assert(s.skip(key.len() as int) =~= r);
    assert(s.subrange(0, key.len() as int) =~= key);
    let r1 = seq!['=', ' ', '"'] + v + seq!['"'];
    assert(r[0] == ' ');
    assert(r.skip(1) =~= r1);
    assert(r1[0] == '=');
    assert(trim_start(r, w) == trim_start(r1, w));
    assert(trim_start(r1, w) == r1);
    assert(r1.last() == '"');
    assert(trim_end(r1, w) == r1);
    let r2 = seq![' ', '"'] + v + seq!['"'];
    let r3 = seq!['"'] + v + seq!['"'];
    assert(r2[0] == ' ');
    assert(r2.skip(1) =~= r3);
    assert(r3[0] == '"');
    assert(trim_start(r2, w) == trim_start(r3, w));
    assert(trim_start(r3, w) == r3);
    assert(r3.last() == '"');
    assert(trim_end(r3, w) == r3);
}

proof fn lemma_value_of_setting(key: Seq<char>, v: Seq<char>)
    requires
        key.len() > 0,
        !is_white(key[0]),
        is_value(v),
    ensures
        line_value(setting(key, v), key) == Some(v),
{
    lemma_setting_parts(key, v);
    lemma_unquoted(v);
    reveal_strlit("=");
    let r1 = seq!['=', ' ', '"'] + v + seq!['"'];
    let r2 = seq![' ', '"'] + v + seq!['"'];
    assert("="@ =~= seq!['=']);
    assert(r1.subrange(0, 1) =~= "="@);
    assert(r1.skip(1) =~= r2);
}

proof fn lemma_other_key(key: Seq<char>, v: Seq<char>, other: Seq<char>)
    requires
        key.len() > 0,
        other.len() > 0,
        !is_white(key[0]),
        key[0] != other[0],
    ensures
        line_value(setting(key, v), other) is None,
{
    lemma_setting_parts(key, v);
    let s = setting(key, v);
    assert(s[0] == key[0]);
    if starts_with(s, other) {
        assert(s.subrange(0, other.len() as int)[0] == other[0]);
    }
}

proof fn lemma_no_break(key: Seq<char>, v: Seq<char>)
    requires
        !key.contains('\n'),
        !v.contains('\n'),
    ensures
        !setting(key, v).contains('\n'),
{
    let s = setting(key, v);
    if s.contains('\n') {
        let i = choose|i: int| 0 <= i < s.len() && s[i] == '\n';
        if i < key.len() {
            assert(key[i] == '\n');
        } else if i >= key.len() + 4 && i < key.len() + 4 + v.len() {
            assert(v[i - key.len() - 4] == '\n');
        }
    }
}

/// A configuration that was saved is read back: the token as it was, and the server but for the
/// slashes at its end.
pub proof fn saved_config_is_read_back(server: Seq<char>, token: Seq<char>)
    requires
        is_value(server),
        is_value(token),
    ensures
        server_of(None, Some(config_text(server, token))) == trim_end(server, Class::Only('/')),
        token_of(None, Some(config_text(server, token)), None) == Some(token),
{
    reveal_strlit("server = \"");
    reveal_strlit("\"\ntoken = \"");
    reveal_strlit("\"\n");
    reveal_strlit("server");
    reveal_strlit("token");
    let text = config_text(server, token);
    let l1 = setting("server"@, server);
    let l2 = setting("token"@, token);
    lemma_no_break("server"@, server);
    lemma_no_break("token"@, token);
    assert(text =~= l1 + seq!['\n'] + (l2 + seq!['\n'] + Seq::<char>::empty()));
    lemma_split_first(l1, l2 + seq!['\n'] + Seq::<char>::empty(), '\n');
    lemma_split_first(l2, Seq::<char>::empty(), '\n');
    let lines = split(text, '\n');
    assert(lines[0] == l1);
    assert(lines[1] == l2);
    lemma_value_of_setting("server"@, server);
    lemma_value_of_setting("token"@, token);
    lemma_other_key("server"@, server, "token"@);
    assert(value_from(lines, "server"@, 0) == Some(server));
    assert(value_from(lines, "token"@, 0) == value_from(lines, "token"@, 1));
    assert(value_from(lines, "token"@, 1) == Some(token));
}

/// A token that the server made up and wrote down is the one it reads the next time.
pub proof fn new_token_is_read_back(token: Seq<char>)
    requires
        is_value(token),
        token.len() > 0,
    ensures
        stored_token(token_file(token)) == Some(token),
{
    reveal_strlit("# imsg server config\ntoken = \"");
    reveal_strlit("\"\n");
    reveal_strlit("token");
    let head = "# imsg server config\ntoken = \""@;
    let l1 = head.take(20);
    let l2 = setting("token"@, token);
    let text = token_file(token);
    lemma_no_break("token"@, token);
    assert(head[20] == '\n');
    assert forall|i: int| 0 <= i < 20 implies l1[i] != '\n' by {
        assert(l1[i] == head[i]);
    }
    assert(!l1.contains('\n'));
    assert(head.skip(21) =~= "token"@ + seq![' ', '=', ' ', '"']);
    assert(text =~= l1 + seq!['\n'] + (l2 + seq!['\n'] + Seq::<char>::empty()));
    lemma_split_first(l1, l2 + seq!['\n'] + Seq::<char>::empty(), '\n');
    lemma_split_first(l2, Seq::<char>::empty(), '\n');
    let lines = split(text, '\n');
    assert(lines[0] == l1);
    assert(lines[1] == l2);
    assert(l1[0] == '#');
    assert(l1.last() == 'g');
    assert(trim_start(l1, Class::White) == l1);
    assert(trim_end(l1, Class::White) == l1);
    assert(token_line(l1) is None) by {
        if starts_with(l1, "token"@) {
            assert(l1.subrange(0, 5)[0] == "token"@[0]);
        }
    }
    lemma_setting_parts("token"@, token);
    lemma_unquoted(token);
    let r1 = seq!['=', ' ', '"'] + token + seq!['"'];
    let r2 = seq![' ', '"'] + token + seq!['"'];
    let k = Class::Only('=');
    assert(r1[0] == '=');
    assert(r1.skip(1) =~= r2);
    assert(r2[0] == ' ');
    assert(trim_start(r1, k) == trim_start(r2, k));
    assert(trim_start(r2, k) == r2);
    assert(token_line(l2) == Some(token));
    assert(token_from_line(lines, 0) == token_from_line(lines, 1));
}

// ----- text -----

/// The white space of a text.
pub open spec fn white_of(s: Seq<char>) -> Seq<char>
    decreases s.len(),
{
    if s.len() == 0 {
        s
    } else if is_white(s[0]) {
        seq![s[0]] + white_of(s.skip(1))
    } else {
        white_of(s.skip(1))
    }
}

proof fn lemma_white_skip(s: Seq<char>, n: int)
    requires
        0 <= n <= s.len(),
        forall|i: int| 0 <= i < n ==> !is_white(#[trigger] s[i]),
    ensures
        white_of(s) == white_of(s.skip(n)),
    decreases n,
{
    if n == 0 {
        assert(s.skip(0) =~= s);
    } else {
        let t = s.skip(1);
        assert forall|i: int| 0 <= i < n - 1 implies !is_white(#[trigger] t[i]) by {
            assert(t[i] == s[i + 1]);
        }
        lemma_white_skip(t, n - 1);
        assert(t.skip(n - 1) =~= s.skip(n));
        assert(!is_white(s[0]));
    }
}

proof fn lemma_replace_white(s: Seq<char>, p: Seq<char>)
    requires
        forall|i: int| 0 <= i < p.len() ==> !is_white(#[trigger] p[i]),
    ensures
        white_of(replace_all(s, p, Seq::empty())) == white_of(s),
    decreases s.len(),
{
    if s.len() > 0 && p.len() > 0 {
        if starts_with(s, p) {
            let n = p.len() as int;
            assert forall|i: int| 0 <= i < n implies !is_white(#[trigger] s[i]) by {
                assert(s.subrange(0, n)[i] == p[i]);
            }
            lemma_white_skip(s, n);
            lemma_replace_white(s.skip(n), p);
            assert(Seq::<char>::empty() + replace_all(s.skip(n), p, Seq::empty()) =~= replace_all(
                s.skip(n),
                p,
                Seq::empty(),
            ));
        } else {
            lemma_replace_white(s.skip(1), p);
            let r = replace_all(s.skip(1), p, Seq::empty());
            let t = seq![s[0]] + r;
            assert(t.skip(1) =~= r);
            assert(t[0] == s[0]);
        }
    }
}

/// Cleaning a run of text leaves all of its white space as it is.
pub proof fn cleaning_keeps_white_space(t: Seq<char>)
    ensures
        white_of(clean_run(t)) == white_of(t),
{
    reveal_strlit("\u{FFFC}");
    reveal_strlit("\u{FFFD}");
    reveal_strlit("$(kIMTranscriptPluginBreadcrumbTextReceiverIdentifier)");
    reveal_strlit("$(kIMTranscriptPluginBreadcrumbTextSenderIdentifier)");
    let none = Seq::<char>::empty();
    let a = replace_all(t, "\u{FFFC}"@, none);
    let b = replace_all(a, "\u{FFFD}"@, none);
    let c = replace_all(b, "$(kIMTranscriptPluginBreadcrumbTextReceiverIdentifier)"@, none);
    lemma_replace_white(t, "\u{FFFC}"@);
    lemma_replace_white(a, "\u{FFFD}"@);
    lemma_replace_white(b, "$(kIMTranscriptPluginBreadcrumbTextReceiverIdentifier)"@);
    lemma_replace_white(c, "$(kIMTranscriptPluginBreadcrumbTextSenderIdentifier)"@);
}

proof fn lemma_trim_ends(s: Seq<char>, k: Class)
    ensures
        trim_start(s, k).len() > 0 ==> !in_class(trim_start(s, k)[0], k),
        trim_end(s, k).len() > 0 ==> !in_class(trim_end(s, k).last(), k) && trim_end(s, k)[0] == s[0],
    decreases s.len(),
{
    if s.len() > 0 {
        lemma_trim_ends(s.skip(1), k);
        lemma_trim_ends(s.drop_last(), k);
    }
}

/// A cleaned text neither begins nor ends with a space or a line feed.
pub proof fn cleaned_text_has_no_outer_space(t: Seq<char>)
    requires
        clean(t).len() > 0,
    ensures
        !in_class(clean(t)[0], Class::SpaceOrNewline),
        !in_class(clean(t).last(), Class::SpaceOrNewline),
{
    let k = Class::SpaceOrNewline;
    lemma_trim_ends(clean_run(t), k);
    lemma_trim_ends(trim_start(clean_run(t), k), k);
    if trim_start(clean_run(t), k).len() == 0 {
        assert(trim_end(trim_start(clean_run(t), k), k).len() == 0);
    }
}

// ----- addresses -----

proof fn lemma_digits_stay(s: Seq<char>)
    requires
        forall|i: int| 0 <= i < s.len() ==> is_digit(#[trigger] s[i]),
    ensures
        digits_of(s) == s,
        trim(s) == s,
        !s.contains('@'),
    decreases s.len(),
{
    reveal(Seq::filter);
    if s.len() > 0 {
        let t = s.drop_last();
        assert forall|i: int| 0 <= i < t.len() implies is_digit(#[trigger] t[i]) by {
            assert(t[i] == s[i]);
        }
        lemma_digits_stay(t);
        assert(is_digit(s[s.len() - 1]));
        assert(is_digit(s[0]));
        assert(t.push(s.last()) =~= s);
    }
    assert(digits_of(s) =~= s);
    if s.contains('@') {
        let i = choose|i: int| 0 <= i < s.len() && s[i] == '@';
        assert(is_digit(s[i]));
    }
}

proof fn lemma_digits_of(s: Seq<char>)
    ensures
        forall|i: int| 0 <= i < digits_of(s).len() ==> is_digit(#[trigger] digits_of(s)[i]),
    decreases s.len(),
{
    reveal(Seq::filter);
    if s.len() > 0 {
        lemma_digits_of(s.drop_last());
        let before = digits_of(s.drop_last());
        assert forall|i: int| 0 <= i < digits_of(s).len() implies is_digit(#[trigger] digits_of(s)[i]) by {
            if i < before.len() {
                assert(digits_of(s)[i] == before[i]);
            }
        }
    }
}

/// The normal form of a phone number is its own normal form.
pub proof fn normal_numbers_stay(s: Seq<char>)
    requires
        !trim(s).contains('@'),
    ensures
        normalize(normalize(s)) == normalize(s),
{
    let d = digits_of(trim(s));
    lemma_digits_of(trim(s));
    let n = normalize(s);
    assert forall|i: int| 0 <= i < n.len() implies is_digit(#[trigger] n[i]) by {
        if d.len() == 11 && d[0] == '1' {
            assert(n[i] == d[i + 1]);
        } else {
            assert(n[i] == d[i]);
        }
    }
    lemma_digits_stay(n);
}

proof fn lemma_long_number(d: Seq<char>)
    requires
        d.len() == 10,
        forall|i: int| 0 <= i < d.len() ==> is_digit(#[trigger] d[i]),
    ensures
        normalize(seq!['1'] + d) == d,
{
    let l = seq!['1'] + d;
    assert forall|i: int| 0 <= i < l.len() implies is_digit(#[trigger] l[i]) by {
        if i > 0 {
            assert(l[i] == d[i - 1]);
        }
    }
    lemma_digits_stay(l);
    assert(l.skip(1) =~= d);
}

proof fn lemma_international_number(d: Seq<char>)
    requires
        d.len() == 10,
        forall|i: int| 0 <= i < d.len() ==> is_digit(#[trigger] d[i]),
    ensures
        normalize(seq!['+', '1'] + d) == d,
{
    let l = seq!['1'] + d;
    assert forall|i: int| 0 <= i < l.len() implies is_digit(#[trigger] l[i]) by {
        if i > 0 {
            assert(l[i] == d[i - 1]);
        }
    }
    assert(seq!['+', '1'] + d =~= seq!['+'] + l);
    lemma_plus_normal(l);
    assert(l.skip(1) =~= d);
}

proof fn lemma_plus_normal(l: Seq<char>)
    requires
        l.len() == 11,
        l[0] == '1',
        forall|i: int| 0 <= i < l.len() ==> is_digit(#[trigger] l[i]),
    ensures
        normalize(seq!['+'] + l) == l.skip(1),
{
    let p = seq!['+'] + l;
    lemma_plus_number(l);
    let t = trim(p);
    assert(t == p);
    assert(digits_of(t) == l);
}

/// A number of ten digits is the same with and without the country code of North America.
#[verifier::spinoff_prover]
pub proof fn country_code_does_not_matter(d: Seq<char>)
    requires
        d.len() == 10,
        forall|i: int| 0 <= i < d.len() ==> is_digit(#[trigger] d[i]),
    ensures
        normalize(d) == d,
        normalize(seq!['+', '1'] + d) == d,
        normalize(seq!['1'] + d) == d,
{
    lemma_digits_stay(d);
    lemma_long_number(d);
    lemma_international_number(d);
}

proof fn lemma_plus_number(l: Seq<char>)
    requires
        l.len() > 0,
        forall|i: int| 0 <= i < l.len() ==> is_digit(#[trigger] l[i]),
    ensures
        trim(seq!['+'] + l) == seq!['+'] + l,
        !(seq!['+'] + l).contains('@'),
        digits_of(seq!['+'] + l) == l,
{
    let p = seq!['+'] + l;
    assert(p.last() == l.last());
    assert(is_digit(l[l.len() - 1]));
    assert(p[0] == '+');
    assert(trim_start(p, Class::White) == p);
    assert(trim_end(p, Class::White) == p);
    lemma_digits_behind_plus(l);
    if p.contains('@') {
        let i = choose|i: int| 0 <= i < p.len() && p[i] == '@';
        if i >= 1 {
            assert(l[i - 1] == '@');
            assert(is_digit(l[i - 1]));
        }
    }
}

proof fn lemma_digits_behind_plus(l: Seq<char>)
    requires
        forall|i: int| 0 <= i < l.len() ==> is_digit(#[trigger] l[i]),
    ensures
        digits_of(seq!['+'] + l) == l,
{
    let pred = |c: char| is_digit(c);
    let plus = seq!['+'];
    lemma_digits_stay(l);
    Seq::filter_distributes_over_add(plus, l, pred);
    assert(plus.filter(pred) =~= Seq::<char>::empty()) by {
        reveal(Seq::filter);
        assert(plus.drop_last() =~= Seq::<char>::empty());
        assert(plus.drop_last().filter(pred) =~= Seq::<char>::empty());
    }
    assert(Seq::<char>::empty() + l =~= l);
}

/// Every contact is found by each of its addresses, or one before it that has the same.
pub proof fn contacts_are_found(cs: Seq<ContactV>, i: int, j: int)
    requires
        0 <= i < cs.len(),
        0 <= j < addresses_of(cs[i]).len(),
        normalize(addresses_of(cs[i])[j]).len() > 0,
    ensures
        owner_of(cs, addresses_of(cs[i])[j]) matches Some(k) && 0 <= k <= i && owns(
            cs[k],
            normalize(addresses_of(cs[i])[j]),
        ),
{
    let key = normalize(addresses_of(cs[i])[j]);
    lemma_owner(cs, key, cs.len() as int);
    assert(owns(cs[i], key));
}

/// The contacts of a book are in the order of their names.
pub proof fn contacts_are_in_order(stores: Seq<StoreRows>)
    ensures
        sorted(book_contacts(stores), by_name()),
{
    crate::contacts::lemma_by_name_is_order();
    sort_is_sorted(crate::contacts::read_stores(stores, stores.len() as int).contacts, by_name());
}

// ----- the client's state -----

/// Messages that come over the socket never make a chat look loaded that was not.
pub proof fn unopened_chats_stay_so(a: AppV, cur: Option<i64>, ms: Seq<MessageV>)
    ensures
        messages_came(a, cur, ms).messages.dom() == a.messages.dom(),
    decreases ms.len(),
{
    if ms.len() > 0 {
        unopened_chats_stay_so(a, cur, ms.drop_last());
        let b = messages_came(a, cur, ms.drop_last());
        assert(message_came(b, cur, ms.last()).messages.dom() =~= b.messages.dom());
    }
}

/// A load that failed can be tried again: nothing is on its way for the chat any more, and
/// nothing changes for the others.
pub proof fn failed_load_can_be_retried(a: AppV, ev: AppEvent, other: i64)
    requires
        ev is MessagesFailed,
    ensures
        !after_event(a, ev).loading.contains(ev->MessagesFailed_chat_id),
        other != ev->MessagesFailed_chat_id ==> after_event(a, ev).loading.contains(other) == a.loading.contains(other),
        after_event(a, ev).messages == a.messages,
{
}

/// What is on its way is not asked for again.
pub proof fn nothing_is_asked_twice(a: AppV)
    ensures
        ensured(ensured(a)) == ensured(a),
{
    let b = ensured(a);
    assert(listed_chats(b) == listed_chats(a));
    assert(id_on_screen(b) == id_on_screen(a));
}

/// A chat with the id is in a list.
pub open spec fn has_chat(list: Seq<ChatV>, id: i64) -> bool {
    exists|i: int| 0 <= i < list.len() && (#[trigger] list[i]).id == id
}

/// No two chats in a list have one id.
pub open spec fn ids_differ(list: Seq<ChatV>) -> bool {
    forall|i: int, j: int| 0 <= i < j < list.len() ==> (#[trigger] list[i]).id != (#[trigger] list[j]).id
}

proof fn lemma_with_chat(list: Seq<ChatV>, c: ChatV)
    requires
        ids_differ(list),
    ensures
        ids_differ(with_chat(list, c)),
        forall|id: i64| #[trigger] has_chat(with_chat(list, c), id) <==> has_chat(list, id) || id == c.id,
        with_chat(list, c).contains(c),
        with_chat(list, c).len() <= list.len() + 1,
{
    lemma_chat_place(list, c.id, 0);
    let r = with_chat(list, c);
    match chat_place(list, c.id, 0) {
        Some(p) => {
            assert(r[p] == c);
            assert forall|id: i64| #[trigger] has_chat(r, id) <==> has_chat(list, id) || id == c.id by {
                if has_chat(r, id) {
                    let i = choose|i: int| 0 <= i < r.len() && (#[trigger] r[i]).id == id;
                    assert(list[i].id == id);
                }
                if has_chat(list, id) {
                    let i = choose|i: int| 0 <= i < list.len() && (#[trigger] list[i]).id == id;
                    assert(r[i].id == id);
                }
                if id == c.id {
                    assert(r[p].id == id);
                }
            }
            assert forall|i: int, j: int| 0 <= i < j < r.len() implies (#[trigger] r[i]).id != (#[trigger] r[j]).id by {
                assert(list[i].id != list[j].id);
                assert(r[i].id == list[i].id);
                assert(r[j].id == list[j].id);
            }
        },
        None => {
            assert(r[list.len() as int] == c);
            assert forall|id: i64| #[trigger] has_chat(r, id) <==> has_chat(list, id) || id == c.id by {
                if has_chat(r, id) {
                    let i = choose|i: int| 0 <= i < r.len() && (#[trigger] r[i]).id == id;
                    if i < list.len() {
                        assert(list[i].id == id);
                    }
                }
                if has_chat(list, id) {
                    let i = choose|i: int| 0 <= i < list.len() && (#[trigger] list[i]).id == id;
                    assert(r[i].id == id);
                }
                if id == c.id {
                    assert(r[list.len() as int].id == id);
                }
            }
            assert forall|i: int, j: int| 0 <= i < j < r.len() implies (#[trigger] r[i]).id != (#[trigger] r[j]).id by {
                if j < list.len() {
                    assert(list[i].id != list[j].id);
                } else {
                    assert(list[i].id != c.id);
                }
            }
        },
    }
}

proof fn lemma_with_chats(list: Seq<ChatV>, cs: Seq<ChatV>)
    requires
        ids_differ(list),
    ensures
        ids_differ(with_chats(list, cs)),
        forall|id: i64| #[trigger] has_chat(with_chats(list, cs), id) <==> has_chat(list, id) || has_chat(cs, id),
        with_chats(list, cs).len() <= list.len() + cs.len(),
    decreases cs.len(),
{
    if cs.len() > 0 {
        let d = cs.drop_last();
        lemma_with_chats(list, d);
        let b = with_chats(list, d);
        lemma_with_chat(b, cs.last());
        assert forall|id: i64| #[trigger] has_chat(with_chats(list, cs), id) <==> has_chat(list, id) || has_chat(
            cs,
            id,
        ) by {
            assert(has_chat(with_chat(b, cs.last()), id) <==> has_chat(b, id) || id == cs.last().id);
            assert(has_chat(b, id) <==> has_chat(list, id) || has_chat(d, id));
            if has_chat(d, id) {
                let i = choose|i: int| 0 <= i < d.len() && (#[trigger] d[i]).id == id;
                assert(cs[i].id == id);
            }
            if has_chat(cs, id) {
                let i = choose|i: int| 0 <= i < cs.len() && (#[trigger] cs[i]).id == id;
                if i < d.len() {
                    assert(d[i].id == id);
                }
            }
            if id == cs.last().id {
                assert(cs[cs.len() - 1].id == id);
            }
        }
    } else {
        assert forall|id: i64| #[trigger] has_chat(with_chats(list, cs), id) <==> has_chat(list, id) || has_chat(
            cs,
            id,
        ) by {}
    }
}

proof fn lemma_sorted_chats(s: Seq<ChatV>)
    requires
        ids_differ(s),
    ensures
        ids_differ(sort_by(s, newest_first())),
        forall|id: i64| #[trigger] has_chat(sort_by(s, newest_first()), id) <==> has_chat(s, id),
        sort_by(s, newest_first()).len() == s.len(),
    decreases s.len(),
{
    let le = newest_first();
    if s.len() > 0 {
        let t = s.drop_last();
        assert(ids_differ(t)) by {
            assert forall|i: int, j: int| 0 <= i < j < t.len() implies (#[trigger] t[i]).id != (#[trigger] t[j]).id by {
                assert(s[i].id != s[j].id);
            }
        }
        lemma_sorted_chats(t);
        let u = sort_by(t, le);
        let x = s.last();
        let p = insert_point(u, x, le);
        let r = sort_by(s, le);
        assert(r == u.insert(p, x));
        assert(!has_chat(t, x.id)) by {
            if has_chat(t, x.id) {
                let i = choose|i: int| 0 <= i < t.len() && (#[trigger] t[i]).id == x.id;
                assert(s[i].id != s[s.len() - 1].id);
            }
        }
        assert(!has_chat(u, x.id));
        assert forall|id: i64| #[trigger] has_chat(r, id) <==> has_chat(s, id) by {
            assert(has_chat(u, id) <==> has_chat(t, id));
            if has_chat(r, id) {
                let i = choose|i: int| 0 <= i < r.len() && (#[trigger] r[i]).id == id;
                if i == p {
                    assert(s[s.len() - 1].id == id);
                } else {
                    let k = if i < p {
                        i
                    } else {
                        i - 1
                    };
                    assert(u[k].id == id);
                    let m = choose|m: int| 0 <= m < t.len() && (#[trigger] t[m]).id == id;
                    assert(s[m].id == id);
                }
            }
            if has_chat(s, id) {
                let i = choose|i: int| 0 <= i < s.len() && (#[trigger] s[i]).id == id;
                if i == s.len() - 1 {
                    assert(r[p].id == id);
                } else {
                    assert(t[i].id == id);
                    let k = choose|k: int| 0 <= k < u.len() && (#[trigger] u[k]).id == id;
                    if k < p {
                        assert(r[k].id == id);
                    } else {
                        assert(r[k + 1].id == id);
                    }
                }
            }
        }
        assert forall|i: int, j: int| 0 <= i < j < r.len() implies (#[trigger] r[i]).id != (#[trigger] r[j]).id by {
            let a = if i < p {
                i
            } else {
                i - 1
            };
            let b = if j < p {
                j
            } else {
                j - 1
            };
            if i == p {
                assert(u[b].id != x.id);
            } else if j == p {
                assert(u[a].id != x.id);
            } else {
                assert(u[a].id != u[b].id);
            }
        }
    }
}

/// An update of the chats drops none: the chats after it are those before it and those it tells
/// of, each id once, the newest first.
pub proof fn updates_merge_by_id(chats: Seq<ChatV>, news: Seq<ChatV>, id: i64)
    ensures
        has_chat(merged(chats, news), id) <==> has_chat(chats, id) || has_chat(news, id),
        ids_differ(merged(chats, news)),
        sorted(merged(chats, news), newest_first()),
        merged(chats, news).len() <= chats.len() + news.len(),
{
    let a = with_chats(Seq::<ChatV>::empty(), chats);
    let b = with_chats(a, news);
    lemma_with_chats(Seq::<ChatV>::empty(), chats);
    lemma_with_chats(a, news);
    lemma_sorted_chats(b);
    assert(has_chat(merged(chats, news), id) <==> has_chat(b, id));
    assert(has_chat(b, id) <==> has_chat(a, id) || has_chat(news, id));
    assert(has_chat(a, id) <==> has_chat(Seq::<ChatV>::empty(), id) || has_chat(chats, id));
    sort_is_sorted(b, newest_first());
}

proof fn lemma_listed_place(chats: Seq<ChatV>, places: Seq<usize>, id: i64, i: int, p: int)
    requires
        0 <= i <= p < places.len(),
        chats[places[p] as int].id == id,
    ensures
        listed_place(chats, places, id, i) matches Some(q) && i <= q <= p && chats[places[q] as int].id == id,
    decreases places.len() - i,
{
    if chats[places[i] as int].id != id {
        lemma_listed_place(chats, places, id, i + 1, p);
    }
}

/// No chat after chat `k` of a list has its id.
pub open spec fn last_of_id(list: Seq<ChatV>, k: int) -> bool {
    forall|j: int| k < j < list.len() ==> (#[trigger] list[j]).id != list[k].id
}

proof fn lemma_with_chat_keeps(list: Seq<ChatV>, c: ChatV, x: ChatV)
    requires
        list.contains(x),
        x.id != c.id,
    ensures
        with_chat(list, c).contains(x),
{
    lemma_chat_place(list, c.id, 0);
    let i = choose|i: int| 0 <= i < list.len() && list[i] == x;
    assert(with_chat(list, c)[i] == x);
}

proof fn lemma_with_chats_keep(list: Seq<ChatV>, cs: Seq<ChatV>, x: ChatV)
    requires
        list.contains(x),
        !has_chat(cs, x.id),
    ensures
        with_chats(list, cs).contains(x),
    decreases cs.len(),
{
    if cs.len() > 0 {
        let d = cs.drop_last();
        assert(!has_chat(d, x.id)) by {
            if has_chat(d, x.id) {
                let i = choose|i: int| 0 <= i < d.len() && (#[trigger] d[i]).id == x.id;
                assert(cs[i].id == x.id);
            }
        }
        lemma_with_chats_keep(list, d, x);
        assert(cs[cs.len() - 1].id != x.id);
        lemma_with_chat_keeps(with_chats(list, d), cs.last(), x);
    }
}

proof fn lemma_with_chats_tell(list: Seq<ChatV>, cs: Seq<ChatV>, k: int)
    requires
        ids_differ(list),
        0 <= k < cs.len(),
        last_of_id(cs, k),
    ensures
        with_chats(list, cs).contains(cs[k]),
    decreases cs.len(),
{
    let d = cs.drop_last();
    lemma_with_chats(list, d);
    lemma_with_chat(with_chats(list, d), cs.last());
    if k < d.len() {
        assert(last_of_id(d, k)) by {
            assert forall|j: int| k < j < d.len() implies (#[trigger] d[j]).id != d[k].id by {
                assert(cs[j].id != cs[k].id);
            }
        }
        lemma_with_chats_tell(list, d, k);
        assert(cs[cs.len() - 1].id != cs[k].id);
        lemma_with_chat_keeps(with_chats(list, d), cs.last(), cs[k]);
    }
}

proof fn lemma_sort_contains<T>(s: Seq<T>, le: spec_fn(T, T) -> bool, x: T)
    requires
        s.contains(x),
    ensures
        sort_by(s, le).contains(x),
{
    broadcast use vstd::seq_lib::group_to_multiset_ensures;

    sort_keeps_elements(s, le);
    assert(s.to_multiset().count(x) > 0);
    assert(sort_by(s, le).to_multiset().count(x) > 0);
}

/// After an update each chat is as the update told of it last.
pub proof fn updates_are_taken_over(chats: Seq<ChatV>, news: Seq<ChatV>, k: int)
    requires
        0 <= k < news.len(),
        last_of_id(news, k),
    ensures
        merged(chats, news).contains(news[k]),
{
    let a = with_chats(Seq::<ChatV>::empty(), chats);
    lemma_with_chats(Seq::<ChatV>::empty(), chats);
    lemma_with_chats_tell(a, news, k);
    lemma_sort_contains(with_chats(a, news), newest_first(), news[k]);
}

/// A chat that an update does not tell of stays as it was.
pub proof fn other_chats_stay(chats: Seq<ChatV>, news: Seq<ChatV>, k: int)
    requires
        0 <= k < chats.len(),
        last_of_id(chats, k),
        !has_chat(news, chats[k].id),
    ensures
        merged(chats, news).contains(chats[k]),
{
    let a = with_chats(Seq::<ChatV>::empty(), chats);
    lemma_with_chats_tell(Seq::<ChatV>::empty(), chats, k);
    lemma_with_chats_keep(a, news, chats[k]);
    lemma_sort_contains(with_chats(a, news), newest_first(), chats[k]);
}

/// After an update the chats fall by their newest message, and by their ids where that is the
/// same.
pub proof fn updated_chats_fall(chats: Seq<ChatV>, news: Seq<ChatV>, i: int, j: int)
    requires
        0 <= i < j < merged(chats, news).len(),
    ensures
        ({
            let m = merged(chats, news);
            m[i].last_date > m[j].last_date || m[i].last_date == m[j].last_date && m[i].id > m[j].id
        }),
{
    updates_merge_by_id(chats, news, 0);
    let m = merged(chats, news);
    assert(newest_first()(m[i], m[j]));
    assert(m[i].id != m[j].id);
}

/// The chat `id` is in the list on the screen after an update.
pub open spec fn stays_listed(a: AppV, news: Seq<ChatV>, id: i64) -> bool {
    let m = merged(a.chats, news);
    a.chat_filter.len() == 0 || exists|p: int|
        0 <= p < m.len() && (#[trigger] m[p]).id == id && chat_passes(m[p], lowercase(a.chat_filter))
}

proof fn lemma_passing_holds(chats: Seq<ChatV>, q: Seq<char>, n: int, p: int) -> (k: int)
    requires
        0 <= p < n <= chats.len() <= usize::MAX,
        chat_passes(chats[p], q),
    ensures
        0 <= k < passing(chats, q, n).len(),
        passing(chats, q, n)[k] == p,
    decreases n,
{
    if p == n - 1 {
        passing(chats, q, n - 1).len() as int
    } else {
        lemma_passing_holds(chats, q, n - 1, p)
    }
}

/// An update of the chats leaves the chat on the screen where it is, whatever its new place in
/// the list, as long as the filter lets it through.
pub proof fn updates_keep_the_selection(a: AppV, news: Seq<ChatV>, id: i64)
    requires
        a.chats.len() + news.len() <= usize::MAX,
        id_on_screen(a) == Some(id),
        stays_listed(a, news, id),
    ensures
        id_on_screen(chats_merged(a, news)) == Some(id),
{
    updates_merge_by_id(a.chats, news, id);
    let m = merged(a.chats, news);
    let b0 = AppV { chats: m, ..a };
    let places = listed_chats(b0);
    let k: int;
    if a.chat_filter.len() == 0 {
        let at = listed_chats(a)[a.chat_sel as int] as int;
        assert(a.chats[at].id == id);
        assert(has_chat(a.chats, id)) by {
            assert(0 <= at < a.chats.len());
        }
        let p = choose|p: int| 0 <= p < m.len() && (#[trigger] m[p]).id == id;
        assert(places[p] == p as usize);
        k = p;
    } else {
        let p = choose|p: int|
            0 <= p < m.len() && (#[trigger] m[p]).id == id && chat_passes(m[p], lowercase(a.chat_filter));
        k = lemma_passing_holds(m, lowercase(a.chat_filter), m.len() as int, p);
        lemma_passing(m, lowercase(a.chat_filter), m.len() as int);
    }
    lemma_listed_place(m, places, id, 0, k);
    let b = reselected(b0, Some(id));
    assert(listed_chats(b) == places);
    assert(id_on_screen(b) == Some(id));
    let c = ensured(b);
    assert(listed_chats(c) == places);
    let d = tail_asked(c);
    assert(listed_chats(d) == places);
    assert(settled(d) == d);
}

/// The messages of a chat are in the order of their ids after each message that comes, where they
/// were before.
pub proof fn messages_stay_in_order(a: AppV, cur: Option<i64>, m: MessageV)
    requires
        a.messages.dom().contains(m.chat_id),
        sorted(a.messages[m.chat_id], by_id()),
    ensures
        sorted(message_came(a, cur, m).messages[m.chat_id], by_id()),
{
    let list = a.messages[m.chat_id];
    lemma_message_place(list, m.id, 0);
    match message_place(list, m.id, 0) {
        Some(p) => {
            let r = list.update(p, m);
            assert forall|i: int, j: int| 0 <= i < j < r.len() implies by_id()(#[trigger] r[i], #[trigger] r[j]) by {
                assert(by_id()(list[i], list[j]));
            }
        },
        None => {
            sort_is_sorted(list.push(m), by_id());
        },
    }
}

/// A message that comes for a loaded chat is in it.
pub proof fn messages_arrive(a: AppV, cur: Option<i64>, m: MessageV)
    requires
        a.messages.dom().contains(m.chat_id),
    ensures
        message_came(a, cur, m).messages[m.chat_id].contains(m),
{
    broadcast use vstd::seq_lib::group_to_multiset_ensures;

    let list = a.messages[m.chat_id];
    lemma_message_place(list, m.id, 0);
    match message_place(list, m.id, 0) {
        Some(p) => {
            assert(list.update(p, m)[p] == m);
        },
        None => {
            let s = list.push(m);
            sort_keeps_elements(s, by_id());
            assert(s[list.len() as int] == m);
            assert(s.contains(m));
            assert(s.to_multiset().count(m) > 0);
            assert(sort_by(s, by_id()).to_multiset().count(m) > 0);
        },
    }
}

// ----- whole events -----

/// The ids of messages rise.
pub open spec fn ids_rise(list: Seq<MessageV>) -> bool {
    forall|i: int, j: int| 0 <= i < j < list.len() ==> (#[trigger] list[i]).id < (#[trigger] list[j]).id
}

/// The message with an id in a list.
pub open spec fn with_id(list: Seq<MessageV>, id: i64) -> Option<MessageV> {
    match message_place(list, id, 0) {
        Some(p) => Some(list[p]),
        None => None,
    }
}

/// The last message with an id for a chat among those that came.
pub open spec fn told_for(ms: Seq<MessageV>, chat_id: i64, id: i64) -> Option<MessageV>
    decreases ms.len(),
{
    if ms.len() == 0 {
        None
    } else if ms.last().chat_id == chat_id && ms.last().id == id {
        Some(ms.last())
    } else {
        told_for(ms.drop_last(), chat_id, id)
    }
}

proof fn lemma_with_id(list: Seq<MessageV>, p: int)
    requires
        ids_rise(list),
        0 <= p < list.len(),
    ensures
        with_id(list, list[p].id) == Some(list[p]),
{
    lemma_message_place(list, list[p].id, 0);
    match message_place(list, list[p].id, 0) {
        Some(q) => {
            if q < p {
                assert(list[q].id < list[p].id);
            } else if p < q {
                assert(list[p].id < list[q].id);
            }
        },
        None => {},
    }
}

proof fn lemma_without_id(list: Seq<MessageV>, id: i64)
    requires
        forall|k: int| 0 <= k < list.len() ==> (#[trigger] list[k]).id != id,
    ensures
        with_id(list, id) is None,
{
    lemma_message_place(list, id, 0);
}

/// Two lists with rising ids that have the same message under every id are the same.
proof fn lemma_rising_same(a: Seq<MessageV>, b: Seq<MessageV>)
    requires
        ids_rise(a),
        ids_rise(b),
        forall|id: i64| #[trigger] with_id(a, id) == with_id(b, id),
    ensures
        a == b,
    decreases a.len(),
{
    if a.len() == 0 {
        if b.len() > 0 {
            lemma_with_id(b, 0);
            lemma_without_id(a, b[0].id);
            assert(with_id(a, b[0].id) == with_id(b, b[0].id));
        }
        assert(a =~= b);
    } else if b.len() == 0 {
        lemma_with_id(a, 0);
        lemma_without_id(b, a[0].id);
        assert(with_id(a, a[0].id) == with_id(b, a[0].id));
    } else {
        let x = a.last();
        let y = b.last();
        lemma_with_id(a, a.len() - 1);
        lemma_with_id(b, b.len() - 1);
        assert(with_id(a, x.id) == with_id(b, x.id));
        assert(with_id(a, y.id) == with_id(b, y.id));
        lemma_message_place(b, x.id, 0);
        lemma_message_place(a, y.id, 0);
        let p = message_place(b, x.id, 0)->0;
        let q = message_place(a, y.id, 0)->0;
        assert(x.id <= y.id) by {
            if p < b.len() - 1 {
                assert(b[p].id < b[b.len() - 1].id);
            }
        }
        assert(y.id <= x.id) by {
            if q < a.len() - 1 {
                assert(a[q].id < a[a.len() - 1].id);
            }
        }
        assert(x == y);
        let a1 = a.drop_last();
        let b1 = b.drop_last();
        assert forall|id: i64| #[trigger] with_id(a1, id) == with_id(b1, id) by {
            lemma_drop_last_id(a, id);
            lemma_drop_last_id(b, id);
            assert(with_id(a, id) == with_id(b, id));
        }
        assert(ids_rise(a1)) by {
            assert forall|i: int, j: int| 0 <= i < j < a1.len() implies (#[trigger] a1[i]).id < (#[trigger] a1[j]).id by {
                assert(a[i].id < a[j].id);
            }
        }
        assert(ids_rise(b1)) by {
            assert forall|i: int, j: int| 0 <= i < j < b1.len() implies (#[trigger] b1[i]).id < (#[trigger] b1[j]).id by {
                assert(b[i].id < b[j].id);
            }
        }
        lemma_rising_same(a1, b1);
        assert(a =~= a1.push(x));
        assert(b =~= b1.push(y));
    }
}

proof fn lemma_drop_last_id(list: Seq<MessageV>, id: i64)
    requires
        ids_rise(list),
        list.len() > 0,
    ensures
        with_id(list.drop_last(), id) == (if id == list.last().id {
            None
        } else {
            with_id(list, id)
        }),
{
    let d = list.drop_last();
    lemma_message_place(list, id, 0);
    lemma_message_place(d, id, 0);
    assert(ids_rise(d)) by {
        assert forall|i: int, j: int| 0 <= i < j < d.len() implies (#[trigger] d[i]).id < (#[trigger] d[j]).id by {
            assert(list[i].id < list[j].id);
        }
    }
    match message_place(d, id, 0) {
        Some(p) => {
            assert(list[p].id == id);
            assert(list[p].id < list[list.len() - 1].id);
            lemma_with_id(list, p);
        },
        None => {
            if id != list.last().id {
                match message_place(list, id, 0) {
                    Some(q) => {
                        assert(d[q].id == id);
                    },
                    None => {},
                }
            }
        },
    }
}

/// The messages of a chat after one more came.
spec fn taken(list: Seq<MessageV>, m: MessageV) -> Seq<MessageV> {
    if message_place(list, m.id, 0) is Some {
        with_message(list, m)
    } else {
        sort_by(with_message(list, m), by_id())
    }
}

proof fn lemma_rising_is_sorted(list: Seq<MessageV>)
    requires
        ids_rise(list),
    ensures
        sort_by(list, by_id()) == list,
{
    assert(sorted(list, by_id())) by {
        assert forall|i: int, j: int| 0 <= i < j < list.len() implies by_id()(#[trigger] list[i], #[trigger] list[j]) by {
            assert(list[i].id < list[j].id);
        }
    }
    sort_of_sorted(list, by_id());
}

proof fn lemma_taken(list: Seq<MessageV>, m: MessageV, id: i64)
    requires
        ids_rise(list),
    ensures
        ids_rise(taken(list, m)),
        with_id(taken(list, m), id) == (if id == m.id {
            Some(m)
        } else {
            with_id(list, id)
        }),
{
    lemma_message_place(list, m.id, 0);
    lemma_message_place(list, id, 0);
    let r = taken(list, m);
    lemma_message_place(r, id, 0);
    match message_place(list, m.id, 0) {
        Some(p) => {
            assert(r == list.update(p, m));
            assert(ids_rise(r)) by {
                assert forall|i: int, j: int| 0 <= i < j < r.len() implies (#[trigger] r[i]).id < (#[trigger] r[j]).id by {
                    assert(list[i].id < list[j].id);
                    assert(r[i].id == list[i].id);
                    assert(r[j].id == list[j].id);
                }
            }
            assert(r[p] == m);
            lemma_with_id(r, p);
            if id != m.id {
                match message_place(list, id, 0) {
                    Some(q) => {
                        assert(r[q] == list[q]);
                        lemma_with_id(r, q);
                    },
                    None => {
                        assert forall|k: int| 0 <= k < r.len() implies (#[trigger] r[k]).id != id by {
                            assert(list[k].id != id);
                        }
                        lemma_without_id(r, id);
                    },
                }
            }
        },
        None => {
            let s = list.push(m);
            lemma_rising_is_sorted(list);
            assert(s.drop_last() =~= list);
            let p = insert_point(list, m, by_id());
            assert(r == list.insert(p, m));
            sort_is_sorted(s, by_id());
            assert(ids_rise(r)) by {
                assert forall|i: int, j: int| 0 <= i < j < r.len() implies (#[trigger] r[i]).id < (#[trigger] r[j]).id by {
                    assert(by_id()(r[i], r[j]));
                    let x = if i < p {
                        i
                    } else {
                        i - 1
                    };
                    let y = if j < p {
                        j
                    } else {
                        j - 1
                    };
                    if i == p {
                        assert(r[j] == list[y]);
                    } else if j == p {
                        assert(r[i] == list[x]);
                    } else {
                        assert(list[x].id < list[y].id);
                    }
                }
            }
            assert(r[p] == m);
            lemma_with_id(r, p);
            if id != m.id {
                match message_place(list, id, 0) {
                    Some(q) => {
                        let k = if q < p {
                            q
                        } else {
                            q + 1
                        };
                        assert(r[k] == list[q]);
                        lemma_with_id(r, k);
                    },
                    None => {
                        assert forall|k: int| 0 <= k < r.len() implies (#[trigger] r[k]).id != id by {
                            if k != p {
                                let q = if k < p {
                                    k
                                } else {
                                    k - 1
                                };
                                assert(list[q].id != id);
                            }
                        }
                        lemma_without_id(r, id);
                    },
                }
            }
        },
    }
}

/// After messages came, the ids in each loaded chat still rise, and under each id is the message
/// that was told last for the chat; the one that was there where none was.
pub proof fn events_merge_by_id(a: AppV, cur: Option<i64>, ms: Seq<MessageV>, chat_id: i64, id: i64)
    requires
        a.messages.dom().contains(chat_id),
        ids_rise(a.messages[chat_id]),
    ensures
        messages_came(a, cur, ms).messages.dom().contains(chat_id),
        ids_rise(messages_came(a, cur, ms).messages[chat_id]),
        with_id(messages_came(a, cur, ms).messages[chat_id], id) == (match told_for(ms, chat_id, id) {
            Some(m) => Some(m),
            None => with_id(a.messages[chat_id], id),
        }),
    decreases ms.len(),
{
    if ms.len() > 0 {
        let m = ms.last();
        events_merge_by_id(a, cur, ms.drop_last(), chat_id, id);
        let b = messages_came(a, cur, ms.drop_last());
        let list = b.messages[chat_id];
        if m.chat_id == chat_id {
            lemma_taken(list, m, id);
            assert(message_came(b, cur, m).messages[chat_id] == taken(list, m));
        } else {
            assert(message_came(b, cur, m).messages[chat_id] == list);
        }
    }
}

/// The same messages once more change nothing of what is loaded.
pub proof fn events_are_idempotent(a: AppV, cur: Option<i64>, ms: Seq<MessageV>, again: Option<i64>)
    requires
        forall|c: i64| #[trigger] a.messages.dom().contains(c) ==> ids_rise(a.messages[c]),
    ensures
        messages_came(messages_came(a, cur, ms), again, ms).messages == messages_came(a, cur, ms).messages,
{
    let b = messages_came(a, cur, ms);
    let c = messages_came(b, again, ms);
    unopened_chats_stay_so(a, cur, ms);
    unopened_chats_stay_so(b, again, ms);
    assert forall|id: i64| #[trigger] b.messages.dom().contains(id) implies c.messages[id] == b.messages[id] by {
        events_merge_by_id(a, cur, ms, id, 0);
        events_merge_by_id(b, again, ms, id, 0);
        assert forall|k: i64| #[trigger] with_id(c.messages[id], k) == with_id(b.messages[id], k) by {
            events_merge_by_id(a, cur, ms, id, k);
            events_merge_by_id(b, again, ms, id, k);
        }
        lemma_rising_same(c.messages[id], b.messages[id]);
    }
    assert(c.messages =~= b.messages);
}

// ----- keys -----

/// A key without a modifier.
pub open spec fn bare(code: Code) -> Key {
    Key { code, ctrl: false, alt: false, shift: false }
}

/// The part of the screen after another.
pub open spec fn part_after(f: Focus) -> Focus {
    match f {
        Focus::Chats => Focus::Messages,
        Focus::Messages => Focus::Compose,
        Focus::Compose => Focus::Chats,
    }
}

/// The part of the screen before another.
pub open spec fn part_before(f: Focus) -> Focus {
    match f {
        Focus::Chats => Focus::Compose,
        Focus::Messages => Focus::Chats,
        Focus::Compose => Focus::Messages,
    }
}

/// `Tab` goes from the chat list to the messages, to the compose box and back to the chat list,
/// and does nothing else.
#[verifier::spinoff_prover]
pub proof fn tab_goes_on(a: AppV, lines: Seq<Seq<char>>)
    requires
        a.mode == Mode::Normal,
    ensures
        after_key(a, bare(Code::Tab), lines) == (AppV { focus: part_after(a.focus), ..a }),
{
    match a.focus {
        Focus::Chats => {
            assert(chats_key(a, Code::Tab) == (AppV { focus: Focus::Messages, ..a }));
        },
        Focus::Messages => {
            assert(messages_key(a, Code::Tab) == (AppV { focus: Focus::Compose, ..a }));
        },
        Focus::Compose => {
            assert(compose_key(a, bare(Code::Tab), lines) == (AppV { focus: Focus::Chats, ..a }));
        },
    }
}

/// `Shift+Tab` goes the other way, and does nothing else.
#[verifier::spinoff_prover]
pub proof fn back_tab_goes_back(a: AppV, lines: Seq<Seq<char>>)
    requires
        a.mode == Mode::Normal,
    ensures
        after_key(a, bare(Code::BackTab), lines) == (AppV { focus: part_before(a.focus), ..a }),
{
    match a.focus {
        Focus::Chats => {
            assert(chats_key(a, Code::BackTab) == (AppV { focus: Focus::Compose, ..a }));
        },
        Focus::Messages => {
            assert(messages_key(a, Code::BackTab) == (AppV { focus: Focus::Chats, ..a }));
        },
        Focus::Compose => {
            assert(compose_key(a, bare(Code::BackTab), lines) == (AppV { focus: Focus::Messages, ..a }));
        },
    }
}

/// Moving to a message brings it on the screen: all its lines lie between the first and the last
/// line that the scroll shows, where the screen has room for them.
pub proof fn selected_message_is_visible(a: AppV, i: usize)
    requires
        a.msg_sel == Some(i),
        i < a.msg_line_ranges.len(),
        a.msg_line_ranges[i as int].0 <= a.msg_line_ranges[i as int].1 < a.msg_total_lines,
        a.msg_line_ranges[i as int].1 - a.msg_line_ranges[i as int].0 < a.msg_view_height,
    ensures
        ({
            let s = scrolled(a).scroll;
            let total = a.msg_total_lines as int;
            &&& sat_diff(total, a.msg_view_height + s) <= a.msg_line_ranges[i as int].0
            &&& a.msg_line_ranges[i as int].1 < sat_diff(total, s as int)
        }),
{
}

} // verus!
