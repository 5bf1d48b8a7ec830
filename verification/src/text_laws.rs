//! What the operations on text and numbers are for, apart from how they are defined.
use crate::numbers::{all_digits, dec, dec2, dec_int, parse_int, value};
use crate::text::{
    after_last, contains, digits_of, ends_with, in_class, is_digit, is_white, join, lemma_after_last,
    lemma_position_from, occurs_at, opt, position, repeat, replace_all, small_letters, split, starts_with, strip_prefix,
    text_le, trim, trim_both, trim_end, trim_start, views, Class,
};
use vstd::prelude::*;

verus! {

// ----- white space and digits -----

/// In ASCII, white space is the space and the characters from tab to carriage return; beyond
/// it, what Unicode lists, and nothing else.
pub proof fn white_space_is_known(c: char)
    ensures
        is_white(c) <==> c == ' ' || '\t' <= c <= '\r' || c == '\u{85}' || c == '\u{A0}' || c == '\u{1680}' || '\u{2000}'
            <= c <= '\u{200A}' || c == '\u{2028}' || c == '\u{2029}' || c == '\u{202F}' || c == '\u{205F}' || c
            == '\u{3000}',
{
}

/// The digits are those from 0 to 9.
pub proof fn digits_are_known(c: char)
    ensures
        is_digit(c) <==> '0' <= c && c <= '9',
{
}

/// The digits of a text are those of its parts in order; a single character counts where it is a
/// digit.
pub proof fn digits_come_part_by_part(a: Seq<char>, b: Seq<char>, c: char)
    ensures
        digits_of(a + b) == digits_of(a) + digits_of(b),
        digits_of(seq![c]) == (if '0' <= c <= '9' {
            seq![c]
        } else {
            Seq::empty()
        }),
{
    Seq::filter_distributes_over_add(a, b, |c: char| is_digit(c));
    reveal(Seq::filter);
    let s = seq![c];
    assert(s.drop_last() =~= Seq::<char>::empty());
    assert(digits_of(s.drop_last()) =~= Seq::<char>::empty());
    if is_digit(c) {
        assert(digits_of(s) =~= seq![c]);
    }
}

// ----- trimming -----

/// All characters of a text are of a class.
pub open spec fn all_of(s: Seq<char>, k: Class) -> bool {
    forall|i: int| 0 <= i < s.len() ==> in_class(#[trigger] s[i], k)
}

/// Trimming the end takes off characters of the class, all that stand there, and nothing else.
pub proof fn trimming_the_end(s: Seq<char>, k: Class)
    ensures
        trim_end(s, k).len() <= s.len(),
        s.take(trim_end(s, k).len() as int) == trim_end(s, k),
        all_of(s.skip(trim_end(s, k).len() as int), k),
        trim_end(s, k).len() > 0 ==> !in_class(trim_end(s, k).last(), k),
    decreases s.len(),
{
    let t = trim_end(s, k);
    if s.len() > 0 && in_class(s.last(), k) {
        let d = s.drop_last();
        trimming_the_end(d, k);
        assert(s.take(t.len() as int) =~= d.take(t.len() as int));
        let tail = s.skip(t.len() as int);
        assert forall|i: int| 0 <= i < tail.len() implies in_class(#[trigger] tail[i], k) by {
            if i < tail.len() - 1 {
                assert(tail[i] == d.skip(t.len() as int)[i]);
            }
        }
    } else {
        assert(s.take(s.len() as int) =~= s);
    }
}

/// Trimming the start takes off characters of the class, all that stand there, and nothing else.
pub proof fn trimming_the_start(s: Seq<char>, k: Class)
    ensures
        trim_start(s, k).len() <= s.len(),
        s.skip(s.len() - trim_start(s, k).len()) == trim_start(s, k),
        all_of(s.take(s.len() - trim_start(s, k).len()), k),
        trim_start(s, k).len() > 0 ==> !in_class(trim_start(s, k)[0], k),
    decreases s.len(),
{
    let t = trim_start(s, k);
    if s.len() > 0 && in_class(s[0], k) {
        let d = s.skip(1);
        trimming_the_start(d, k);
        assert(s.skip(s.len() - t.len()) =~= d.skip(d.len() - t.len()));
        let head = s.take(s.len() - t.len());
        assert forall|i: int| 0 <= i < head.len() implies in_class(#[trigger] head[i], k) by {
            if i > 0 {
                assert(head[i] == d.take(d.len() - t.len())[i - 1]);
            }
        }
    } else {
        assert(s.skip(0) =~= s);
        assert(s.take(0) =~= Seq::<char>::empty());
    }
}

/// Trimming both ends leaves a piece of the text with nothing but the class around it and neither
/// end in the class.
pub proof fn trimming_both_ends(s: Seq<char>, k: Class) -> (at: int)
    ensures
        0 <= at <= at + trim_both(s, k).len() <= s.len(),
        s.subrange(at, at + trim_both(s, k).len()) == trim_both(s, k),
        all_of(s.take(at), k),
        all_of(s.skip(at + trim_both(s, k).len()), k),
        trim_both(s, k).len() > 0 ==> !in_class(trim_both(s, k)[0], k) && !in_class(trim_both(s, k).last(), k),
{
    let u = trim_start(s, k);
    trimming_the_start(s, k);
    trimming_the_end(u, k);
    let t = trim_both(s, k);
    let at = s.len() - u.len();
    assert(s.subrange(at, at + t.len()) =~= u.take(t.len() as int));
    assert(s.skip(at + t.len()) =~= u.skip(t.len() as int));
    at
}

/// A text with neither end in the class is not trimmed.
pub proof fn trimmed_text_stays(s: Seq<char>, k: Class)
    requires
        s.len() > 0 ==> !in_class(s[0], k) && !in_class(s.last(), k),
    ensures
        trim_both(s, k) == s,
        trim_end(s, k) == s,
        trim_start(s, k) == s,
{
}

/// The classes: white space, one character, or a space and a line feed.
pub proof fn classes_are_known(c: char, x: char)
    ensures
        in_class(c, Class::White) == is_white(c),
        in_class(c, Class::Only(x)) <==> c == x,
        in_class(c, Class::SpaceOrNewline) <==> c == ' ' || c == '\n',
        trim(seq![c]) == trim_both(seq![c], Class::White),
{
}

// ----- searching -----

/// A text holds another where it is that text with something before and after it.
pub proof fn holding_is_standing_between(a: Seq<char>, p: Seq<char>, b: Seq<char>)
    ensures
        contains(a + p + b, p),
        starts_with(p + b, p),
        ends_with(a + p, p),
        strip_prefix(p + b, p) == Some(b),
{
    assert((a + p + b).subrange(a.len() as int, (a.len() + p.len()) as int) =~= p);
    assert(occurs_at(a + p + b, p, a.len() as int));
    assert((p + b).subrange(0, p.len() as int) =~= p);
    assert((p + b).skip(p.len() as int) =~= b);
    assert((a + p).subrange(a.len() as int, (a.len() + p.len()) as int) =~= p);
}

/// Where a text holds another, something stands before and after it.
pub proof fn what_is_held_stands_between(s: Seq<char>, p: Seq<char>)
    ensures
        contains(s, p) ==> exists|a: Seq<char>, b: Seq<char>| s == #[trigger] (a + p + b),
        starts_with(s, p) ==> s == p + s.skip(p.len() as int),
        ends_with(s, p) ==> p.len() <= s.len() && s == s.take(s.len() - p.len()) + p,
        strip_prefix(s, p) is Some <==> starts_with(s, p),
        strip_prefix(s, p) matches Some(r) ==> s == p + r,
{
    if contains(s, p) {
        let i = choose|i: int| occurs_at(s, p, i);
        let a = s.take(i);
        let b = s.skip(i + p.len());
        assert(s =~= a + p + b);
    }
    if starts_with(s, p) {
        assert(s.subrange(0, p.len() as int) =~= s.take(p.len() as int));
        assert(s =~= p + s.skip(p.len() as int));
    }
    if ends_with(s, p) {
        assert(s =~= s.take(s.len() - p.len()) + p);
    }
}

/// The position of a character is that of its first occurrence, and one past the last position
/// is one past the last occurrence.
pub proof fn positions_are_first_and_last(s: Seq<char>, c: char)
    ensures
        0 <= position(s, c) <= s.len(),
        position(s, c) < s.len() ==> s[position(s, c)] == c,
        forall|k: int| 0 <= k < position(s, c) ==> s[k] != c,
        0 <= after_last(s, c) <= s.len(),
        after_last(s, c) > 0 ==> s[after_last(s, c) - 1] == c,
        forall|k: int| after_last(s, c) <= k < s.len() ==> s[k] != c,
{
    lemma_position_from(s, c, 0);
    lemma_after_last(s, c);
}

// ----- replacing -----

/// `p` stands nowhere in `a + p` but at its end.
pub open spec fn first_at_end(a: Seq<char>, p: Seq<char>) -> bool {
    forall|i: int| 0 <= i < a.len() ==> !#[trigger] occurs_at(a + p, p, i)
}

/// Text without what is replaced stays as it is.
pub proof fn replacing_nothing(s: Seq<char>, p: Seq<char>, r: Seq<char>)
    requires
        p.len() > 0,
        !contains(s, p),
    ensures
        replace_all(s, p, r) == s,
    decreases s.len(),
{
    if s.len() > 0 {
        assert(!occurs_at(s, p, 0));
        let t = s.skip(1);
        assert(!contains(t, p)) by {
            if contains(t, p) {
                let i = choose|i: int| occurs_at(t, p, i);
                assert(s.subrange(i + 1, i + 1 + p.len()) =~= t.subrange(i, i + p.len()));
                assert(occurs_at(s, p, i + 1));
            }
        }
        replacing_nothing(t, p, r);
        assert(seq![s[0]] + t =~= s);
    }
}

/// The first occurrence gives way to the replacement, what stands before it stays, and the rest
/// is treated likewise.
pub proof fn replacing_the_first(a: Seq<char>, p: Seq<char>, b: Seq<char>, r: Seq<char>)
    requires
        p.len() > 0,
        first_at_end(a, p),
    ensures
        replace_all(a + p + b, p, r) == a + r + replace_all(b, p, r),
    decreases a.len(),
{
    let s = a + p + b;
    if a.len() == 0 {
        assert(s.subrange(0, p.len() as int) =~= p);
        assert(s.skip(p.len() as int) =~= b);
        assert(a + r + replace_all(b, p, r) =~= r + replace_all(b, p, r));
    } else {
        let t = a.skip(1);
        assert(!starts_with(s, p)) by {
            if starts_with(s, p) {
                assert((a + p).subrange(0, p.len() as int) =~= s.subrange(0, p.len() as int));
                assert(occurs_at(a + p, p, 0));
            }
        }
        assert(first_at_end(t, p)) by {
            assert forall|i: int| 0 <= i < t.len() implies !#[trigger] occurs_at(t + p, p, i) by {
                if occurs_at(t + p, p, i) {
                    assert((a + p).subrange(i + 1, i + 1 + p.len()) =~= (t + p).subrange(i, i + p.len()));
                    assert(occurs_at(a + p, p, i + 1));
                }
            }
        }
        replacing_the_first(t, p, b, r);
        assert(s.skip(1) =~= t + p + b);
        assert(seq![s[0]] + (t + r + replace_all(b, p, r)) =~= a + r + replace_all(b, p, r));
    }
}

/// Replacing one character by a text goes character by character.
pub proof fn replacing_a_character(s: Seq<char>, c: char, r: Seq<char>, x: char)
    ensures
        replace_all(seq![x] + s, seq![c], r) == (if x == c {
            r
        } else {
            seq![x]
        }) + replace_all(s, seq![c], r),
        replace_all(Seq::<char>::empty(), seq![c], r) == Seq::<char>::empty(),
{
    let t = seq![x] + s;
    assert(t.skip(1) =~= s);
    assert(t.subrange(0, 1) =~= seq![x]);
    assert(seq![x][0] == x && seq![c][0] == c);
    if x == c {
        assert(starts_with(t, seq![c]));
    } else {
        assert(!starts_with(t, seq![c]));
    }
}

// ----- splitting and joining -----

proof fn lemma_split_some(s: Seq<char>, c: char)
    ensures
        split(s, c).len() > 0,
    decreases s.len(),
{
    if s.len() > 0 {
        lemma_split_some(s.drop_last(), c);
    }
}

/// The parts of a text hold the separator nowhere, and joined by it they are the text again.
pub proof fn splitting_is_undone_by_joining(s: Seq<char>, c: char)
    ensures
        split(s, c).len() > 0,
        join(split(s, c), seq![c]) == s,
        forall|i: int| 0 <= i < split(s, c).len() ==> !(#[trigger] split(s, c)[i]).contains(c),
    decreases s.len(),
{
    let p = split(s, c);
    if s.len() == 0 {
        assert(p[0] =~= s);
    } else {
        let d = s.drop_last();
        let q = split(d, c);
        splitting_is_undone_by_joining(d, c);
        if s.last() == c {
            assert(p.drop_last() =~= q);
            assert(join(p, seq![c]) =~= d + seq![c]);
            assert(d + seq![c] =~= s);
            assert forall|i: int| 0 <= i < p.len() implies !(#[trigger] p[i]).contains(c) by {
                if i < q.len() {
                    assert(p[i] == q[i]);
                }
            }
        } else {
            let l = q.last().push(s.last());
            assert(p == q.drop_last().push(l));
            assert(p.drop_last() =~= q.drop_last());
            if q.len() == 1 {
                assert(p[0] == l);
                assert(d == q[0]);
                assert(l =~= s);
            } else {
                assert(join(p, seq![c]) == join(q.drop_last(), seq![c]) + seq![c] + l);
                assert(join(q.drop_last(), seq![c]) + seq![c] + l =~= (join(q.drop_last(), seq![c]) + seq![c] + q.last())
                    + seq![s.last()]);
                assert(d + seq![s.last()] =~= s);
            }
            assert forall|i: int| 0 <= i < p.len() implies !(#[trigger] p[i]).contains(c) by {
                if i < q.len() - 1 {
                    assert(p[i] == q[i]);
                } else {
                    assert(p[i] == l);
                    assert(!q[q.len() - 1].contains(c));
                    if l.contains(c) {
                        let k = choose|k: int| 0 <= k < l.len() && l[k] == c;
                        assert(q.last()[k] == c);
                    }
                }
            }
        }
    }
}

/// One part is joined as it stands, and each further part goes behind a separator.
pub proof fn joining_goes_part_by_part(parts: Seq<Seq<char>>, x: Seq<char>, sep: Seq<char>)
    ensures
        join(Seq::<Seq<char>>::empty(), sep) == Seq::<char>::empty(),
        join(seq![x], sep) == x,
        parts.len() > 0 ==> join(parts.push(x), sep) == join(parts, sep) + sep + x,
{
    assert(parts.push(x).drop_last() =~= parts);
}

// ----- order -----

/// Texts are in order where one begins the other, or where at the first difference the one has
/// the smaller character.
pub proof fn order_is_that_of_a_dictionary(a: Seq<char>, b: Seq<char>, k: int)
    requires
        0 <= k <= a.len(),
        k <= b.len(),
        a.take(k) == b.take(k),
    ensures
        k == a.len() ==> text_le(a, b),
        k == b.len() && k < a.len() ==> !text_le(a, b),
        k < a.len() && k < b.len() && a[k] != b[k] ==> (text_le(a, b) <==> a[k] < b[k]),
    decreases k,
{
    if k > 0 {
        assert(a[0] == a.take(k)[0] && b[0] == b.take(k)[0]);
        assert(a.skip(1).take(k - 1) =~= a.take(k).skip(1));
        assert(b.skip(1).take(k - 1) =~= b.take(k).skip(1));
        order_is_that_of_a_dictionary(a.skip(1), b.skip(1), k - 1);
    }
}

// ----- the rest -----

/// A text of one character, so many times.
pub proof fn copies_are_counted(c: char, n: nat, i: int)
    ensures
        repeat(c, n).len() == n,
        0 <= i < n ==> repeat(c, n)[i] == c,
{
}

/// Letters from `A` to `Z` become those from `a` to `z`, in their places; nothing else changes.
pub proof fn small_letters_keep_their_places(s: Seq<char>, i: int)
    requires
        0 <= i < s.len(),
    ensures
        small_letters(s).len() == s.len(),
        'A' <= s[i] <= 'Z' ==> small_letters(s)[i] as u32 == s[i] as u32 + 32,
        !('A' <= s[i] <= 'Z') ==> small_letters(s)[i] == s[i],
{
}

/// The contents of a list are those of its elements, in order, and of an optional value those of
/// the value.
pub proof fn contents_are_in_place<T: View>(v: Seq<T>, o: Option<T>, i: int)
    ensures
        views(v).len() == v.len(),
        0 <= i < v.len() ==> views(v)[i] == v[i]@,
        opt(o) is Some <==> o is Some,
        o matches Some(x) ==> opt(o) == Some(x@),
{
}

proof fn lemma_dec_value(n: nat)
    ensures
        dec(n).len() > 0,
        all_digits(dec(n)),
        value(dec(n)) == n,
        n > 0 ==> dec(n)[0] != '0',
    decreases n,
{
    if n < 10 {
        let s = dec(n);
        assert(s.drop_last() =~= Seq::<char>::empty());
        assert(value(s.drop_last()) == 0);
        assert(s.last() as int == 48 + n);
    } else {
        lemma_dec_value(n / 10);
        let s = dec(n);
        let d = s.drop_last();
        assert(d =~= dec(n / 10));
        assert(s.last() as int == 48 + n % 10);
        assert forall|i: int| 0 <= i < s.len() implies is_digit(#[trigger] s[i]) by {
            if i < d.len() {
                assert(s[i] == d[i]);
            }
        }
        assert(s[0] == d[0]);
    }
}

/// The place value of digits: a digit in front counts ten times for each one behind it.
pub open spec fn worth(s: Seq<char>) -> int
    decreases s.len(),
{
    if s.len() == 0 {
        0
    } else {
        worth(s.take(s.len() - 1)) * 10 + (s[s.len() - 1] as int - 48)
    }
}

proof fn lemma_worth(s: Seq<char>)
    ensures
        worth(s) == value(s),
    decreases s.len(),
{
    if s.len() > 0 {
        lemma_worth(s.drop_last());
        assert(s.take(s.len() - 1) =~= s.drop_last());
    }
}

/// The decimal text of a number is made of digits that are worth the number, with no zero in
/// front; that of a negative number has a minus sign before it; with two digits, a zero fills up.
pub proof fn decimals_are_worth_their_number(n: nat)
    ensures
        worth(dec(n)) == n,
        forall|i: int| 0 <= i < dec(n).len() ==> '0' <= #[trigger] dec(n)[i] <= '9',
        n > 0 ==> dec(n)[0] != '0',
        n == 0 ==> dec(n) == seq!['0'],
        dec_int(n as int) == dec(n),
        n > 0 ==> dec_int(-(n as int)) == seq!['-'] + dec(n),
        n < 10 ==> dec2(n) == seq!['0'] + dec(n),
        10 <= n < 100 ==> dec2(n) == dec(n),
{
    lemma_dec_value(n);
    lemma_worth(dec(n));
    assert forall|i: int| 0 <= i < dec(n).len() implies '0' <= #[trigger] dec(n)[i] <= '9' by {
        assert(is_digit(dec(n)[i]));
    }
}

/// A text is read as a number where it is digits after an optional sign and the number fits in 64
/// bits; then it is the number that the digits are worth.
pub proof fn numbers_are_read_by_worth(s: Seq<char>)
    requires
        s.len() > 0,
        forall|i: int| 0 <= i < s.len() ==> '0' <= #[trigger] s[i] <= '9',
    ensures
        worth(s) <= i64::MAX ==> parse_int(s) == Some(worth(s)),
        worth(s) > i64::MAX ==> parse_int(s) is None,
        worth(s) <= i64::MAX ==> parse_int(seq!['+'] + s) == Some(worth(s)),
        worth(s) <= 0x8000_0000_0000_0000 ==> parse_int(seq!['-'] + s) == Some(-worth(s)),
        worth(s) > 0x8000_0000_0000_0000 ==> parse_int(seq!['-'] + s) is None,
{
    lemma_worth(s);
    assert(is_digit(s[0]));
    assert(all_digits(s)) by {
        assert forall|i: int| 0 <= i < s.len() implies is_digit(#[trigger] s[i]) by {}
    }
    lemma_value_positive(s);
    assert((seq!['+'] + s).skip(1) =~= s);
    assert((seq!['-'] + s).skip(1) =~= s);
    assert((seq!['+'] + s)[0] == '+');
    assert((seq!['-'] + s)[0] == '-');
}

proof fn lemma_value_positive(s: Seq<char>)
    requires
        all_digits(s),
    ensures
        value(s) >= 0,
    decreases s.len(),
{
    if s.len() > 0 {
        let d = s.drop_last();
        assert forall|i: int| 0 <= i < d.len() implies is_digit(#[trigger] d[i]) by {
            assert(d[i] == s[i]);
        }
        lemma_value_positive(d);
        assert(is_digit(s[s.len() - 1]));
    }
}

/// What is neither a digit nor a sign in front is in no number.
pub proof fn other_text_is_no_number(s: Seq<char>, i: int)
    requires
        0 <= i < s.len(),
        !('0' <= s[i] <= '9'),
        i > 0 || (s[0] != '+' && s[0] != '-'),
    ensures
        parse_int(s) is None,
        parse_int(Seq::<char>::empty()) is None,
{
    let u = crate::numbers::unsigned_part(s);
    if all_digits(u) {
        if u.len() == s.len() {
            assert(is_digit(u[i]));
        } else {
            assert(u[i - 1] == s[i]);
            assert(is_digit(u[i - 1]));
        }
    }
}

} // verus!
