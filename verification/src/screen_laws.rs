//! What the terminal client shows.
use crate::bubbles::{
    all_lines, attachment_label, body_lines, bubble_color, bubble_columns, bubble_limit, bubble_row, bubble_spans,
    bubble_style, delivery, delivery_lines, first_word, framed, head_lines, icon_of, indent, kind_spans, last_own,
    lines_upto, message_lines, name_lines, quote_lines, quote_text, reaction_lines, reaction_text, reactions_text,
    recent_own, remark_spans, row_width, shown, widest, with_attachments, with_effects, with_token, with_tokens,
    word_end, Pane, Stamp, StampV,
};
use crate::clock::{
    clock_text, date_text, day_number, days_before, full_form, has_date, month_day, month_days, short_form, weekday,
    weekday_name, year_text, LocalTime,
};
use crate::emoji::EmojiEntryV;
use crate::keys::{emoji_list, picker_list, HitV};
use crate::numbers::{dec, dec2};
use crate::panes::{
    chat_lines, chips_of, codes_of, emoji_line, emoji_rows, first_row, header_of, hint_of, hit_line, hit_rows,
    item_view, loads_on_screen, middle_of, more_on_screen, new_chat_lines, pane_on_screen, preview_text, result_line,
    result_rows, shown_rows, sidebar_of, sidebar_sel, sidebar_title_of, status_line, Area,
};
use crate::screen::{cut, padded, room_for, sat_diff, sat_sum, text_width, Color, Line, LineV, Span, SpanV, Style};
use crate::state::{chat_on_screen, chat_place, lemma_chat_place, listed_chats, AppV, Focus, Mode, NewChatV};
use crate::text::{
    contains, ends_with, is_white, join, lemma_position_from, position_from, repeat, replace_all, split, starts_with,
    trim_end, trim_start, views, Class,
};
use crate::text_laws::{holding_is_standing_between, trimmed_text_stays, trimming_the_end};
use crate::wire::{
    display_of, title_of, AttachmentV, ChatV, MessageKindV, MessageV, ReactionV, ReplyRefV, UploadResponseV,
};
use crate::wrap::{
    drop_blank, empty_filling, put_line, put_lines, put_spans, row_limit, rows_view, trim_rows, trimmed_row, wrapped,
    Filling,
};
use vstd::prelude::*;

verus! {

// ----- styles -----

/// Text as the terminal draws it.
pub open spec fn bare_text() -> Style {
    Style { fg: None, bg: None, bold: false, italic: false, underlined: false, crossed_out: false }
}

/// Text in a colour and nothing more.
pub open spec fn colored(c: Color) -> Style {
    Style { fg: Some(c), bg: None, bold: false, italic: false, underlined: false, crossed_out: false }
}

/// White text on a colour.
pub open spec fn white_on(c: Color) -> Style {
    Style { fg: Some(Color::White), bg: Some(c), bold: false, italic: false, underlined: false, crossed_out: false }
}

/// A span is its text and style, a line its spans and place, a stamp its times and sizes.
pub proof fn drawn_contents(s: Span, l: Line, st: Stamp, i: (Line, Line))
    ensures
        s@.text == s.text@,
        s@.style == s.style,
        l@.spans == views(l.spans@),
        l@.centered == l.centered,
        st@.full == st.full@,
        st@.clock == st.clock@,
        st@.read == st.read@,
        st@.sizes == views(st.sizes@),
        item_view(i) == seq![i.0@, i.1@],
{
}

/// Rows of spans stand for what they hold.
pub proof fn row_contents(rows: Seq<Vec<Span>>, i: int)
    ensures
        rows_view(rows).len() == rows.len(),
        0 <= i < rows.len() ==> rows_view(rows)[i] == views(rows[i]@),
{
}

/// The colours.
pub proof fn colours_are_known(c: Color)
    ensures
        match c {
            Color::Blue => c.parts() == Some((0u8, 122u8, 255u8)),
            Color::Green => c.parts() == Some((52u8, 199u8, 89u8)),
            Color::Gray => c.parts() == Some((58u8, 58u8, 60u8)),
            Color::Dim => c.parts() == Some((142u8, 142u8, 147u8)),
            Color::Accent => c.parts() == Some((255u8, 214u8, 10u8)),
            Color::Faint => c.parts() == Some((220u8, 220u8, 220u8)),
            Color::Pale => c.parts() == Some((200u8, 200u8, 205u8)),
            Color::Shade => c.parts() == Some((44u8, 44u8, 46u8)),
            Color::White | Color::Red => c.parts() is None,
        },
{
}

/// Sums stop at the largest `usize`, differences at 0.
pub proof fn sums_stop_at_the_limits(a: int, b: int)
    ensures
        a + b <= usize::MAX ==> sat_sum(a, b) == a + b,
        a + b > usize::MAX ==> sat_sum(a, b) == usize::MAX,
        a >= b ==> sat_diff(a, b) == a - b,
        a < b ==> sat_diff(a, b) == 0,
{
}

/// The columns of the first `n` characters, each by itself.
pub open spec fn columns_of_first(s: Seq<char>, n: int) -> nat
    decreases n,
{
    if n <= 0 {
        0
    } else {
        columns_of_first(s, n - 1) + text_width(seq![s[n - 1]])
    }
}

proof fn lemma_room(s: Seq<char>, i: int, w: nat)
    requires
        0 <= i <= s.len(),
    ensures
        ({
            let n = room_for(s, i, columns_of_first(s, i), w);
            &&& i <= n <= s.len()
            &&& n > i ==> columns_of_first(s, n) + 1 <= w
            &&& n < s.len() ==> columns_of_first(s, n + 1) + 1 > w
        }),
    decreases s.len() - i,
{
    if i < s.len() && columns_of_first(s, i) + text_width(seq![s[i]]) + 1 <= w {
        assert(columns_of_first(s, i + 1) == columns_of_first(s, i) + text_width(seq![s[i]]));
        lemma_room(s, i + 1, w);
    }
}

/// A text that fits is not cut; another one keeps as many characters from its start as leave a
/// column for the ellipsis behind them.
pub proof fn texts_are_cut_where_they_must(s: Seq<char>, w: nat)
    ensures
        text_width(s) <= w ==> cut(s, w) == s,
        text_width(s) > w ==> {
            let n = cut(s, w).len() - 1;
            &&& 0 <= n <= s.len()
            &&& cut(s, w) == s.take(n) + seq!['…']
            &&& n > 0 ==> columns_of_first(s, n) + 1 <= w
            &&& n < s.len() ==> columns_of_first(s, n + 1) + 1 > w
        },
{
    lemma_room(s, 0, w);
    if text_width(s) > w {
        let n = room_for(s, 0, 0, w);
        assert(s.take(n).push('…') =~= s.take(n) + seq!['…']);
    }
}

/// A text is filled up with spaces behind it, as many as columns are left.
pub proof fn texts_are_filled_up(s: Seq<char>, w: nat, i: int)
    ensures
        text_width(s) >= w ==> padded(s, w) == s,
        text_width(s) < w ==> padded(s, w).len() == s.len() + w - text_width(s) && padded(s, w).take(s.len() as int) == s && (
        s.len() <= i < padded(s, w).len() ==> padded(s, w)[i] == ' '),
{
    if text_width(s) < w {
        assert(padded(s, w).take(s.len() as int) =~= s);
    }
}

// ----- wrapping -----

/// A text without white space, not empty, that takes at most `max` columns.
pub open spec fn is_word(w: Seq<char>, max: nat) -> bool {
    w.len() > 0 && (forall|i: int| 0 <= i < w.len() ==> !is_white(#[trigger] w[i])) && 0 < text_width(w) <= max
}

/// A text in one style.
pub open spec fn one(text: Seq<char>, style: Style) -> SpanV {
    SpanV { text, style }
}

proof fn lemma_word_line(f: Filling, line: Seq<char>, i: int, j: int, style: Style, max: nat)
    requires
        f.rows.len() > 0,
        0 <= i < j <= line.len(),
        is_word(line.subrange(i, j), max),
        j < line.len() ==> line[j] == ' ',
    ensures
        f.used + text_width(line.subrange(i, j)) <= max ==> put_line(f, line, i, style, max) == put_line(
            Filling {
                rows: f.rows.drop_last().push(f.rows.last().push(one(line.subrange(i, j), style))),
                used: f.used + text_width(line.subrange(i, j)),
            },
            line,
            j,
            style,
            max,
        ),
        f.used + text_width(line.subrange(i, j)) > max ==> put_line(f, line, i, style, max) == put_line(
            Filling {
                rows: f.rows.drop_last().push(trimmed_row(f.rows.last())).push(seq![one(line.subrange(i, j), style)]),
                used: text_width(line.subrange(i, j)),
            },
            line,
            j,
            style,
            max,
        ),
{
    let w = line.subrange(i, j);
    assert forall|k: int| i <= k < j implies line[k] != ' ' by {
        assert(w[k - i] == line[k]);
    }
    lemma_position_from(line, ' ', i);
    assert(position_from(line, ' ', i) == j);
    let g = f.rows.drop_last().push(trimmed_row(f.rows.last()));
    let h = g.push(Seq::<SpanV>::empty());
    assert(h.drop_last() =~= g);
    assert(h.last().push(one(w, style)) =~= seq![one(w, style)]);
}

proof fn lemma_trim_word(w: Seq<char>, style: Style, max: nat)
    requires
        is_word(w, max),
    ensures
        trimmed_row(seq![one(w, style)]) == seq![one(w, style)],
{
    assert(!is_white(w[0]) && !is_white(w[w.len() - 1]));
    trimmed_text_stays(w, Class::White);
    let r = seq![one(w, style)];
    assert(r.drop_last() =~= Seq::<SpanV>::empty());
    assert(trimmed_row(r) =~= r);
}

proof fn lemma_split_none(s: Seq<char>, c: char)
    requires
        !s.contains(c),
    ensures
        split(s, c) == seq![s],
    decreases s.len(),
{
    if s.len() == 0 {
        assert(s =~= Seq::<char>::empty());
        assert(split(s, c) == seq![s]);
    } else {
        assert forall|i: int| 0 <= i < s.drop_last().len() implies s.drop_last()[i] != c by {
            assert(s.contains(s[i]));
        }
        assert(s.contains(s.last()));
        lemma_split_none(s.drop_last(), c);
        assert(s.drop_last().push(s.last()) =~= s);
        assert(split(s, c) =~= seq![s]);
    }
}

proof fn lemma_split_two(a: Seq<char>, b: Seq<char>, c: char)
    requires
        !a.contains(c),
        !b.contains(c),
    ensures
        split(a + seq![c] + b, c) == seq![a, b],
    decreases b.len(),
{
    let s = a + seq![c] + b;
    if b.len() == 0 {
        assert(s.drop_last() =~= a);
        assert(s.last() == c);
        lemma_split_none(a, c);
        assert(b =~= Seq::<char>::empty());
        assert(split(s, c) =~= seq![a, b]);
    } else {
        assert(s.drop_last() =~= a + seq![c] + b.drop_last());
        assert forall|i: int| 0 <= i < b.drop_last().len() implies b.drop_last()[i] != c by {
            assert(b.contains(b[i]));
        }
        assert(b.contains(b.last()));
        lemma_split_two(a, b.drop_last(), c);
        assert(b.drop_last().push(b.last()) =~= b);
        assert(split(s, c) =~= seq![a, b]);
    }
}

/// A word stands on a row of its own style; spaces before it go.
pub proof fn words_stand_on_rows(w: Seq<char>, style: Style, max: int)
    requires
        is_word(w, row_limit(max)),
    ensures
        wrapped(seq![one(w, style)], max) == seq![seq![one(w, style)]],
        wrapped(seq![one(seq![' '] + w, style)], max) == seq![seq![one(w, style)]],
        max >= 4 ==> row_limit(max) == max,
        max < 4 ==> row_limit(max) == 4,
{
    let m = row_limit(max);
    lemma_words(w, style, max, w, 0);
    lemma_words(w, style, max, seq![' '] + w, 1);
}

proof fn lemma_words(w: Seq<char>, style: Style, max: int, line: Seq<char>, i: int)
    requires
        is_word(w, row_limit(max)),
        i == 0 ==> line == w,
        i == 1 ==> line == seq![' '] + w,
        0 <= i <= 1,
    ensures
        wrapped(seq![one(line, style)], max) == seq![seq![one(w, style)]],
{
    let m = row_limit(max);
    let f = empty_filling();
    let segs = seq![one(line, style)];
    assert(segs.drop_last() =~= Seq::<SpanV>::empty());
    assert forall|k: int| 0 <= k < line.len() implies line[k] != '\n' by {
        if k >= i {
            assert(line[k] == w[k - i]);
        }
    }
    lemma_split_none(line, '\n');
    let ls = seq![line];
    assert(ls.drop_last() =~= Seq::<Seq<char>>::empty());
    assert(put_spans(segs.drop_last(), m) == f);
    assert(put_lines(f, ls.drop_last(), style, m) == f);
    assert(put_lines(f, ls, style, m) == put_line(f, line, 0, style, m));
    if i == 1 {
        assert(put_line(f, line, 0, style, m) == put_line(f, line, 1, style, m));
    }
    assert(line.subrange(i, line.len() as int) =~= w);
    lemma_word_line(f, line, i, line.len() as int, style, m);
    let rows = put_spans(segs, m).rows;
    assert(f.rows.last().push(one(w, style)) =~= seq![one(w, style)]);
    assert(rows =~= seq![seq![one(w, style)]]);
    lemma_trim_word(w, style, m);
    assert(trim_rows(rows) =~= rows);
}

/// Two words stand on one row where both and the space between them fit, else each on its own.
pub proof fn words_share_a_row_that_holds_them(a: Seq<char>, b: Seq<char>, style: Style, max: int)
    requires
        is_word(a, row_limit(max)),
        is_word(b, row_limit(max)),
        text_width(seq![' ']) == 1,
    ensures
        text_width(a) + 1 + text_width(b) <= row_limit(max) ==> wrapped(seq![one(a + seq![' '] + b, style)], max) == seq![
            seq![one(a, style), one(seq![' '], style), one(b, style)],
        ],
        text_width(a) + 1 + text_width(b) > row_limit(max) ==> wrapped(seq![one(a + seq![' '] + b, style)], max) == seq![
            seq![one(a, style)],
            seq![one(b, style)],
        ],
{
    let m = row_limit(max);
    let f = empty_filling();
    let line = a + seq![' '] + b;
    let segs = seq![one(line, style)];
    let n = a.len() as int;
    let e = line.len() as int;
    assert(segs.drop_last() =~= Seq::<SpanV>::empty());
    assert forall|k: int| 0 <= k < line.len() implies line[k] != '\n' by {
        if k < n {
            assert(line[k] == a[k]);
        } else if k > n {
            assert(line[k] == b[k - n - 1]);
        }
    }
    lemma_split_none(line, '\n');
    let ls = seq![line];
    assert(ls.drop_last() =~= Seq::<Seq<char>>::empty());
    assert(put_spans(segs.drop_last(), m) == f);
    assert(put_lines(f, ls.drop_last(), style, m) == f);
    assert(put_lines(f, ls, style, m) == put_line(f, line, 0, style, m));
    assert(line.subrange(0, n) =~= a);
    assert(line.subrange(n + 1, e) =~= b);
    lemma_word_line(f, line, 0, n, style, m);
    let ra = seq![one(a, style)];
    assert(f.rows.last().push(one(a, style)) =~= ra);
    let f1 = Filling { rows: seq![ra], used: text_width(a) };
    assert(f.rows.drop_last().push(f.rows.last().push(one(a, style))) =~= f1.rows);
    assert(put_line(f, line, 0, style, m) == put_line(f1, line, n, style, m));
    assert(f1.rows.drop_last() =~= Seq::<Seq<SpanV>>::empty());
    lemma_trim_word(a, style, m);
    lemma_trim_word(b, style, m);
    let sp = one(seq![' '], style);
    let rs = seq![one(a, style), sp];
    assert(ra.push(sp) =~= rs);
    if text_width(a) + 1 > m {
        let f2 = Filling { rows: seq![ra, Seq::<SpanV>::empty()], used: 0 };
        assert(f1.rows.push(Seq::<SpanV>::empty()) =~= f2.rows);
        assert(put_line(f1, line, n, style, m) == put_line(f2, line, n + 1, style, m));
        lemma_word_line(f2, line, n + 1, e, style, m);
        let rows = put_spans(segs, m).rows;
        assert(f2.rows.last().push(one(b, style)) =~= seq![one(b, style)]);
        assert(rows =~= seq![ra, seq![one(b, style)]]);
        assert(trim_rows(rows) =~= rows);
    } else {
        let f2 = Filling { rows: seq![rs], used: text_width(a) + 1 };
        assert(f1.rows.drop_last().push(f1.rows.last().push(sp)) =~= f2.rows);
        assert(put_line(f1, line, n, style, m) == put_line(f2, line, n + 1, style, m));
        lemma_word_line(f2, line, n + 1, e, style, m);
        assert(f2.rows.drop_last() =~= Seq::<Seq<SpanV>>::empty());
        let rows = put_spans(segs, m).rows;
        if text_width(a) + 1 + text_width(b) <= m {
            let all = seq![one(a, style), sp, one(b, style)];
            assert(rs.push(one(b, style)) =~= all);
            assert(rows =~= seq![all]);
            trimmed_text_stays(b, Class::White);
            assert(!is_white(b[0]) && !is_white(b[b.len() - 1]));
            assert(trimmed_row(all) =~= all);
            assert(trim_rows(rows) =~= rows);
        } else {
            assert(rs.drop_last() =~= ra);
            let s1 = seq![' '];
            trimming_the_end(s1, Class::White);
            assert(trim_end(s1, Class::White).len() == 0);
            assert(trimmed_row(rs) == trimmed_row(ra));
            assert(rows =~= seq![ra, seq![one(b, style)]]);
            assert(trim_rows(rows) =~= rows);
        }
    }
}

/// A line feed starts a row, whatever room is left.
pub proof fn line_feeds_start_rows(a: Seq<char>, b: Seq<char>, style: Style, max: int)
    requires
        is_word(a, row_limit(max)),
        is_word(b, row_limit(max)),
    ensures
        wrapped(seq![one(a + seq!['\n'] + b, style)], max) == seq![seq![one(a, style)], seq![one(b, style)]],
        wrapped(seq![one(a + seq!['\n'], style)], max) == seq![seq![one(a, style)]],
{
    let m = row_limit(max);
    let f = empty_filling();
    assert forall|k: int| 0 <= k < a.len() implies a[k] != '\n' by {}
    assert forall|k: int| 0 <= k < b.len() implies b[k] != '\n' by {}
    lemma_split_two(a, b, '\n');
    lemma_split_two(a, Seq::empty(), '\n');
    let ra = seq![one(a, style)];
    let rb = seq![one(b, style)];
    let f1 = Filling { rows: seq![ra], used: text_width(a) };
    let f2 = Filling { rows: seq![ra, Seq::<SpanV>::empty()], used: 0 };
    let la = seq![a];
    assert(la.drop_last() =~= Seq::<Seq<char>>::empty());
    assert(put_lines(f, la.drop_last(), style, m) == f);
    assert(put_lines(f, la, style, m) == put_line(f, a, 0, style, m));
    assert(a.subrange(0, a.len() as int) =~= a);
    assert(b.subrange(0, b.len() as int) =~= b);
    lemma_word_line(f, a, 0, a.len() as int, style, m);
    assert(f.rows.last().push(one(a, style)) =~= ra);
    assert(f.rows.drop_last().push(f.rows.last().push(one(a, style))) =~= f1.rows);
    assert(put_lines(f, la, style, m) == f1);
    assert(f1.rows.push(Seq::<SpanV>::empty()) =~= f2.rows);
    lemma_trim_word(a, style, m);
    lemma_trim_word(b, style, m);
    {
        let ls = seq![a, b];
        assert(ls.drop_last() =~= la);
        assert(put_lines(f, ls, style, m) == put_line(f2, b, 0, style, m));
        lemma_word_line(f2, b, 0, b.len() as int, style, m);
        let segs = seq![one(a + seq!['\n'] + b, style)];
        assert(segs.drop_last() =~= Seq::<SpanV>::empty());
        assert(put_spans(segs.drop_last(), m) == f);
        let rows = put_spans(segs, m).rows;
        assert(f2.rows.last().push(one(b, style)) =~= rb);
        assert(rows =~= seq![ra, rb]);
        assert(trim_rows(rows) =~= rows);
    }
    {
        let e = Seq::<char>::empty();
        let ls = seq![a, e];
        assert(ls.drop_last() =~= la);
        assert(put_lines(f, ls, style, m) == put_line(f2, e, 0, style, m));
        assert(put_line(f2, e, 0, style, m) == f2);
        let t = a + seq!['\n'];
        assert(t =~= a + seq!['\n'] + e);
        let segs = seq![one(t, style)];
        assert(segs.drop_last() =~= Seq::<SpanV>::empty());
        assert(put_spans(segs.drop_last(), m) == f);
        let rows = put_spans(segs, m).rows;
        assert(rows == f2.rows);
        assert(trim_rows(rows) =~= rows);
        assert(rows.drop_last() =~= seq![ra]);
        assert(drop_blank(rows) == drop_blank(seq![ra]));
    }
}

proof fn lemma_trimmed_row(row: Seq<SpanV>)
    ensures
        trimmed_row(row).len() > 0 ==> trimmed_row(row).last().text.len() > 0 && !is_white(
            trimmed_row(row).last().text.last(),
        ),
    decreases row.len(),
{
    if row.len() > 0 {
        let t = trim_end(row.last().text, Class::White);
        trimming_the_end(row.last().text, Class::White);
        if t.len() == 0 {
            lemma_trimmed_row(row.drop_last());
        }
    }
}

proof fn lemma_drop_blank(rows: Seq<Seq<SpanV>>)
    ensures
        drop_blank(rows).len() <= rows.len(),
        drop_blank(rows) == rows.take(drop_blank(rows).len() as int),
        rows.len() > 0 ==> drop_blank(rows).len() > 0,
        drop_blank(rows).len() > 1 ==> drop_blank(rows).last().len() > 0,
    decreases rows.len(),
{
    if rows.len() > 1 && rows.last().len() == 0 {
        lemma_drop_blank(rows.drop_last());
        let n = drop_blank(rows.drop_last()).len() as int;
        assert(rows.drop_last().take(n) =~= rows.take(n));
    } else {
        assert(rows.take(rows.len() as int) =~= rows);
    }
}

/// No row ends in white space, and none but the first is empty at the end.
pub proof fn rows_end_in_something(segs: Seq<SpanV>, max: int, i: int)
    ensures
        ({
            let rows = wrapped(segs, max);
            &&& 0 <= i < rows.len() && rows[i].len() > 0 ==> rows[i].last().text.len() > 0 && !is_white(
                rows[i].last().text.last(),
            )
            &&& rows.len() > 1 ==> rows.last().len() > 0
        }),
{
    let all = put_spans(segs, row_limit(max)).rows;
    lemma_drop_blank(trim_rows(all));
    if 0 <= i < wrapped(segs, max).len() {
        lemma_trimmed_row(all[i]);
    }
}

// ----- the clock -----

/// A time of day goes by the twelve-hour clock: noon and midnight are twelve, minutes have two
/// digits.
pub proof fn hours_are_twelve(t: LocalTime)
    requires
        t.hour < 24,
        t.minute < 60,
    ensures
        ({
            let m = seq![(48 + t.minute as int / 10) as char, (48 + t.minute as int % 10) as char];
            &&& t.hour == 0 ==> clock_text(t) == dec(12) + ":"@ + m + " AM"@
            &&& 0 < t.hour < 12 ==> clock_text(t) == dec(t.hour as nat) + ":"@ + m + " AM"@
            &&& t.hour == 12 ==> clock_text(t) == dec(12) + ":"@ + m + " PM"@
            &&& 12 < t.hour ==> clock_text(t) == dec((t.hour - 12) as nat) + ":"@ + m + " PM"@
        }),
{
    two_digits(t.minute as nat);
}

/// Numbers below a hundred in two digits.
pub proof fn two_digits(n: nat)
    requires
        n < 100,
    ensures
        dec2(n) == seq![(48 + n as int / 10) as char, (48 + n as int % 10) as char],
{
    reveal_with_fuel(dec, 2);
    assert(dec2(n) =~= seq![(48 + n as int / 10) as char, (48 + n as int % 10) as char]);
}

/// The days of the week and the months have their names, and a date is month, day and year.
pub proof fn days_have_their_names(t: LocalTime)
    ensures
        ({
            let w = weekday(t.year as int, t.month as int, t.day as int);
            let d = " "@ + dec(t.day as nat);
            &&& w == 0 ==> weekday_name(t) == "Monday"@
            &&& w == 1 ==> weekday_name(t) == "Tuesday"@
            &&& w == 2 ==> weekday_name(t) == "Wednesday"@
            &&& w == 3 ==> weekday_name(t) == "Thursday"@
            &&& w == 4 ==> weekday_name(t) == "Friday"@
            &&& w == 5 ==> weekday_name(t) == "Saturday"@
            &&& w == 6 ==> weekday_name(t) == "Sunday"@
            &&& t.month == 1 ==> month_day(t) == "Jan"@ + " "@ + dec(t.day as nat)
            &&& t.month == 2 ==> month_day(t) == "Feb"@ + " "@ + dec(t.day as nat)
            &&& t.month == 3 ==> month_day(t) == "Mar"@ + " "@ + dec(t.day as nat)
            &&& t.month == 4 ==> month_day(t) == "Apr"@ + " "@ + dec(t.day as nat)
            &&& t.month == 5 ==> month_day(t) == "May"@ + " "@ + dec(t.day as nat)
            &&& t.month == 6 ==> month_day(t) == "Jun"@ + " "@ + dec(t.day as nat)
            &&& t.month == 7 ==> month_day(t) == "Jul"@ + " "@ + dec(t.day as nat)
            &&& t.month == 8 ==> month_day(t) == "Aug"@ + " "@ + dec(t.day as nat)
            &&& t.month == 9 ==> month_day(t) == "Sep"@ + " "@ + dec(t.day as nat)
            &&& t.month == 10 ==> month_day(t) == "Oct"@ + " "@ + dec(t.day as nat)
            &&& t.month == 11 ==> month_day(t) == "Nov"@ + " "@ + dec(t.day as nat)
            &&& t.month == 12 ==> month_day(t) == "Dec"@ + " "@ + dec(t.day as nat)
        }),
        0 <= t.year ==> date_text(t) == dec(t.month as nat) + "/"@ + dec(t.day as nat) + "/"@ + seq![
            (48 + t.year as int % 100 / 10) as char,
            (48 + t.year as int % 10) as char,
        ],
{
    if 0 <= t.year {
        two_digits((t.year as int % 100) as nat);
        assert(t.year as int % 100 % 10 == t.year as int % 10);
    }
}

/// Years have four digits, which are worth the year.
pub proof fn years_have_four_digits(y: int)
    requires
        0 <= y < 10_000,
    ensures
        year_text(y) == seq![
            (48 + y / 1000) as char,
            (48 + y / 100 % 10) as char,
            (48 + y / 10 % 10) as char,
            (48 + y % 10) as char,
        ],
{
    two_digits((y / 100) as nat);
    two_digits((y % 100) as nat);
    assert(y / 100 / 10 == y / 1000);
    assert(y % 100 / 10 == y / 10 % 10);
    assert(y % 100 % 10 == y % 10);
    assert(year_text(y) =~= seq![
        (48 + y / 1000) as char,
        (48 + y / 100 % 10) as char,
        (48 + y / 10 % 10) as char,
        (48 + y % 10) as char,
    ]);
}

/// Days follow one another, within a month, from month to month and from year to year, and so do
/// the days of the week; the first day of the year 1 was a Monday.
pub proof fn days_follow_one_another(y: int, m: int, d: int)
    requires
        y >= 1,
        1 <= m <= 12,
    ensures
        day_number(1, 1, 1) == 0,
        weekday(1, 1, 1) == 0,
        day_number(y, m, d + 1) == day_number(y, m, d) + 1,
        m < 12 ==> day_number(y, m + 1, 1) == day_number(y, m, month_days(y, m)) + 1,
        day_number(y + 1, 1, 1) == day_number(y, 12, 31) + 1,
        weekday(y, m, d + 1) == (weekday(y, m, d) + 1) % 7,
        month_days(y, 2) == (if (y % 4 == 0 && y % 100 != 0) || y % 400 == 0 {
            29int
        } else {
            28int
        }),
        m == 4 || m == 6 || m == 9 || m == 11 ==> month_days(y, m) == 30,
        m == 1 || m == 3 || m == 5 || m == 7 || m == 8 || m == 10 || m == 12 ==> month_days(y, m) == 31,
{
    lemma_days_before(y);
    assert(days_before(y, m + 1) == days_before(y, m) + month_days(y, m));
    assert(days_before(y + 1, 1) == 0);
    assert(days_before(1, 1) == 0);
    let p = y - 1;
    assert(y / 4 == p / 4 + (if y % 4 == 0 {
        1int
    } else {
        0int
    }));
    assert(y / 100 == p / 100 + (if y % 100 == 0 {
        1int
    } else {
        0int
    }));
    assert(y / 400 == p / 400 + (if y % 400 == 0 {
        1int
    } else {
        0int
    }));
    assert(y % 400 == 0 ==> y % 100 == 0);
    assert(y % 100 == 0 ==> y % 4 == 0);
}

proof fn lemma_days_before(y: int)
    ensures
        days_before(y, 12) == 306 + month_days(y, 2),
{
    assert(days_before(y, 1) == 0);
    assert(days_before(y, 2) == 31);
    assert(days_before(y, 3) == 31 + month_days(y, 2));
    assert(days_before(y, 4) == 62 + month_days(y, 2));
    assert(days_before(y, 5) == 92 + month_days(y, 2));
    assert(days_before(y, 6) == 123 + month_days(y, 2));
    assert(days_before(y, 7) == 153 + month_days(y, 2));
    assert(days_before(y, 8) == 184 + month_days(y, 2));
    assert(days_before(y, 9) == 215 + month_days(y, 2));
    assert(days_before(y, 10) == 245 + month_days(y, 2));
    assert(days_before(y, 11) == 276 + month_days(y, 2));
}

/// A moment has a date where it is positive and within the calendar.
pub proof fn moments_have_dates(ms: int)
    ensures
        ms <= 0 ==> !has_date(ms),
        0 < ms <= 8_210_266_700_000_000 ==> has_date(ms),
        8_210_266_700_000_000 < ms ==> !has_date(ms),
{
}

/// In short: the time for a moment of the same day; else three letters of the day of the week
/// within seven days; else month and day within the year; else the date.
pub proof fn moments_in_short(t: LocalTime, now: LocalTime)
    ensures
        ({
            let today = t.year == now.year && t.month == now.month && t.day == now.day;
            let week = now.ms - t.ms < 604_800_000;
            &&& today ==> short_form(t, now) == clock_text(t)
            &&& !today && week ==> short_form(t, now) == weekday_name(t).take(3)
            &&& !today && !week && t.year == now.year ==> short_form(t, now) == month_day(t)
            &&& !today && !week && t.year != now.year ==> short_form(t, now) == date_text(t)
            &&& today ==> full_form(t, now) == "Today "@ + clock_text(t)
            &&& !today && week ==> full_form(t, now) == weekday_name(t) + " "@ + clock_text(t)
            &&& !today && !week ==> full_form(t, now) == month_day(t) + ", "@ + year_text(t.year as int) + " "@
                + clock_text(t)
        }),
{
}

// ----- bubbles -----

/// The owner's bubbles are blue where the message and the conversation go over iMessage, else
/// green; those of others are gray; text in them is white.
pub proof fn bubbles_have_their_colours(m: MessageV, pane: Pane, c: Color)
    ensures
        !m.is_from_me ==> bubble_color(m, pane) == Color::Gray,
        m.is_from_me && !pane.sms && m.service == "iMessage"@ ==> bubble_color(m, pane) == Color::Blue,
        m.is_from_me && (pane.sms || m.service != "iMessage"@) ==> bubble_color(m, pane) == Color::Green,
        bubble_style(c) == white_on(c),
{
}

/// Each effect of a run changes its style in one way, and other words do not.
#[verifier::spinoff_prover]
pub proof fn effects_change_the_style(s: Style, t: Seq<char>)
    ensures
        with_token(s, "bold"@) == (Style { bold: true, ..s }),
        with_token(s, "italic"@) == (Style { italic: true, ..s }),
        with_token(s, "strikethrough"@) == (Style { crossed_out: true, ..s }),
        with_token(s, "underline"@) == (Style { underlined: true, ..s }),
        with_token(s, "otp"@) == (Style { bold: true, ..s }),
        with_token(s, "mention"@) == (Style { bold: true, ..s }),
        with_token(s, "mention:"@ + t) == (Style { bold: true, ..s }),
        with_token(s, "link:"@ + t) == (Style { underlined: true, ..s }),
        with_token(s, "animated:"@ + t) == (Style { italic: true, ..s }),
        t != "bold"@ && t != "italic"@ && t != "strikethrough"@ && t != "underline"@ && t != "otp"@ && t != "mention"@
            && !starts_with(t, "mention:"@) && !starts_with(t, "link:"@) && !starts_with(t, "animated:"@) ==> with_token(
            s,
            t,
        ) == s,
{
    reveal_strlit("bold");
    reveal_strlit("italic");
    reveal_strlit("strikethrough");
    reveal_strlit("underline");
    reveal_strlit("otp");
    reveal_strlit("mention");
    reveal_strlit("mention:");
    reveal_strlit("link:");
    reveal_strlit("animated:");
    holding_is_standing_between(Seq::empty(), "mention:"@, t);
    holding_is_standing_between(Seq::empty(), "link:"@, t);
    holding_is_standing_between(Seq::empty(), "animated:"@, t);
    lemma_tokens_differ(t);
}

proof fn lemma_tokens_differ(t: Seq<char>)
    ensures
        "italic"@ != "bold"@,
        "strikethrough"@ != "bold"@ && "strikethrough"@ != "italic"@,
        "underline"@ != "bold"@ && "underline"@ != "italic"@ && "underline"@ != "strikethrough"@,
        "otp"@ != "bold"@ && "otp"@ != "italic"@ && "otp"@ != "strikethrough"@ && "otp"@ != "underline"@,
        "mention"@ != "bold"@ && "mention"@ != "italic"@ && "mention"@ != "strikethrough"@ && "mention"@ != "underline"@,
        ({
            let a = "mention:"@ + t;
            a != "bold"@ && a != "italic"@ && a != "strikethrough"@ && a != "underline"@
        }),
        ({
            let a = "link:"@ + t;
            a != "bold"@ && a != "italic"@ && a != "strikethrough"@ && a != "underline"@ && a != "otp"@ && a != "mention"@
                && !starts_with(a, "mention:"@)
        }),
        ({
            let a = "animated:"@ + t;
            a != "bold"@ && a != "italic"@ && a != "strikethrough"@ && a != "underline"@ && a != "otp"@ && a != "mention"@
                && !starts_with(a, "mention:"@) && !starts_with(a, "link:"@)
        }),
{
    reveal_strlit("bold");
    reveal_strlit("italic");
    reveal_strlit("strikethrough");
    reveal_strlit("underline");
    reveal_strlit("otp");
    reveal_strlit("mention");
    reveal_strlit("mention:");
    reveal_strlit("link:");
    reveal_strlit("animated:");
    assert("bold"@[0] == 'b');
    assert("italic"@[0] == 'i');
    assert("strikethrough"@[0] == 's');
    assert("underline"@[0] == 'u');
    assert("otp"@[0] == 'o');
    assert("mention"@[0] == 'm');
    assert(("mention:"@ + t)[0] == 'm');
    assert(("link:"@ + t)[0] == 'l');
    assert(("animated:"@ + t)[0] == 'a');
    assert("mention:"@[0] == 'm');
    assert("link:"@[0] == 'l');
    crate::text_laws::what_is_held_stands_between("link:"@ + t, "mention:"@);
    crate::text_laws::what_is_held_stands_between("animated:"@ + t, "mention:"@);
    crate::text_laws::what_is_held_stands_between("animated:"@ + t, "link:"@);
}

/// A run has all its effects, one after the other; one of them may name several, with commas between
/// them.
pub proof fn all_effects_count(s: Style, es: Seq<Seq<char>>, e: Seq<char>, a: Seq<char>, b: Seq<char>)
    requires
        !e.contains(','),
        !a.contains(','),
        !b.contains(','),
    ensures
        with_effects(s, Seq::<Seq<char>>::empty()) == s,
        with_effects(s, es.push(e)) == with_token(with_effects(s, es), e),
        with_effects(s, es.push(a + seq![','] + b)) == with_token(with_token(with_effects(s, es), a), b),
{
    assert(es.push(e).drop_last() =~= es);
    lemma_split_none(e, ',');
    let t = with_effects(s, es);
    assert(seq![e].drop_last() =~= Seq::<Seq<char>>::empty());
    assert(with_tokens(t, seq![e].drop_last()) == t);
    let c = a + seq![','] + b;
    assert(es.push(c).drop_last() =~= es);
    lemma_split_two(a, b, ',');
    let p = seq![a, b];
    assert(p.drop_last() =~= seq![a]);
    assert(seq![a].drop_last() =~= Seq::<Seq<char>>::empty());
    assert(with_tokens(t, seq![a].drop_last()) == t);
    assert(with_tokens(t, seq![a]) == with_token(t, a));
    assert(with_tokens(t, p) == with_token(with_tokens(t, p.drop_last()), p.last()));
}

/// Each kind of file has its sign.
#[verifier::spinoff_prover]
pub proof fn files_have_their_signs(t: Seq<char>, mime: Seq<char>)
    ensures
        icon_of(mime, true) == "🏷"@,
        icon_of("image/"@ + t, false) == "🖼"@,
        icon_of("video/"@ + t, false) == "🎬"@,
        icon_of("audio/"@ + t, false) == "🎵"@,
        !starts_with(mime, "image/"@) && !starts_with(mime, "video/"@) && !starts_with(mime, "audio/"@) ==> {
            &&& contains(mime, "pdf"@) ==> icon_of(mime, false) == "📄"@
            &&& !contains(mime, "pdf"@) && contains(mime, "vcard"@) ==> icon_of(mime, false) == "👤"@
            &&& !contains(mime, "pdf"@) && !contains(mime, "vcard"@) ==> icon_of(mime, false) == "📎"@
        },
{
    reveal_strlit("image/");
    reveal_strlit("video/");
    reveal_strlit("audio/");
    holding_is_standing_between(Seq::empty(), "image/"@, t);
    holding_is_standing_between(Seq::empty(), "video/"@, t);
    holding_is_standing_between(Seq::empty(), "audio/"@, t);
    assert("image/"@[0] == 'i' && "video/"@[0] == 'v' && "audio/"@[0] == 'a');
    assert(("video/"@ + t)[0] == 'v' && ("audio/"@ + t)[0] == 'a');
    crate::text_laws::what_is_held_stands_between("video/"@ + t, "image/"@);
    crate::text_laws::what_is_held_stands_between("audio/"@ + t, "image/"@);
    crate::text_laws::what_is_held_stands_between("audio/"@ + t, "video/"@);
}

/// An attachment is shown with its sign, its name and its size; one that is not there with the
/// reason: it is on its way where the owner wrote within ten minutes.
pub proof fn attachments_are_labelled(a: AttachmentV, size: Seq<char>, recent: bool, m: MessageV, now: int)
    ensures
        a.available ==> attachment_label(a, size, recent) == icon_of(a.mime, a.is_sticker) + " "@ + a.name + " ("@ + size
            + ")"@,
        !a.available && recent ==> attachment_label(a, size, recent) == icon_of(a.mime, a.is_sticker) + " "@ + a.name
            + " (sending…)"@,
        !a.available && !recent ==> attachment_label(a, size, recent) == icon_of(a.mime, a.is_sticker) + " "@ + a.name
            + " (not on this Mac)"@,
        recent_own(m, now) <==> m.is_from_me && now - m.date < 600_000,
{
}

/// Attachments are added in turn, each underlined and on a line of its own; the payload of an app's
/// balloon is left out.
pub proof fn attachments_stand_on_lines(segs: Seq<SpanV>, m: MessageV, sizes: Seq<Seq<char>>, base: Style, now: int, n: int)
    requires
        0 <= n < m.attachments.len(),
    ensures
        ({
            let a = m.attachments[n];
            let before = with_attachments(segs, m, sizes, base, now, n);
            let after = with_attachments(segs, m, sizes, base, now, n + 1);
            let label = attachment_label(a, sizes[n], m.is_from_me && now - m.date < 600_000);
            let hidden = m.kind is App && ends_with(a.name, ".pluginPayloadAttachment"@);
            let inside = before.len() > 0 && !ends_with(before.last().text, "\n"@);
            &&& with_attachments(segs, m, sizes, base, now, 0) == segs
            &&& hidden ==> after == before
            &&& !hidden && !inside ==> after == before + seq![
                one(label, Style { underlined: true, ..base }),
                one("\n"@, base),
            ]
            &&& !hidden && inside ==> after == before + seq![
                one("\n"@, base),
                one(label, Style { underlined: true, ..base }),
                one("\n"@, base),
            ]
        }),
{
    let a = m.attachments[n];
    let before = with_attachments(segs, m, sizes, base, now, n);
    let label = attachment_label(a, sizes[n], m.is_from_me && now - m.date < 600_000);
    let x = one("\n"@, base);
    let y = one(label, Style { underlined: true, ..base });
    assert(before.push(y).push(x) =~= before + seq![y, x]);
    assert(before.push(x).push(y).push(x) =~= before + seq![x, y, x]);
}

/// What a message says: its parts, each in the style of its effects; of an app's balloon title,
/// summary and address, or else the app; of an unsent message that it is one.
pub proof fn messages_say_what_they_hold(m: MessageV, base: Style, i: int)
    ensures
        match m.kind {
            MessageKindV::Unsent => kind_spans(m, base) == seq![
                one("(message unsent)"@, Style { italic: true, ..base }),
            ],
            MessageKindV::App { bundle_id, title, summary, url } => {
                let k = kind_spans(m, base);
                let head = match title {
                    Some(t) => seq![one(t + "\n"@, Style { bold: true, ..base })],
                    None => Seq::empty(),
                };
                let body = match summary {
                    Some(s) => seq![one(cut(s, 200) + "\n"@, base)],
                    None => Seq::empty(),
                };
                let foot = match url {
                    Some(u) => seq![one(u, Style { underlined: true, ..base })],
                    None => if title is Some {
                        Seq::empty()
                    } else {
                        seq![one("["@ + bundle_id + "]"@, Style { italic: true, ..base })]
                    },
                };
                k == head + body + foot
            },
            _ => {
                &&& kind_spans(m, base).len() == m.parts.len()
                &&& 0 <= i < m.parts.len() ==> kind_spans(m, base)[i] == one(
                    m.parts[i].text,
                    with_effects(base, m.parts[i].effects),
                )
            },
        },
{
}

/// Remarks: that a message is spoken, where no attachment shows it, how it was sent, and that it was
/// edited.
pub proof fn remarks_are_made(m: MessageV, base: Style)
    ensures
        ({
            let tilted = Style { italic: true, ..base };
            let spoken = if m.is_audio && m.attachments.len() == 0 {
                seq![one("🎤 Audio message"@, tilted)]
            } else {
                Seq::empty()
            };
            let sent = match m.expressive {
                Some(e) => seq![one("\n✨ sent with "@ + e, tilted)],
                None => Seq::empty(),
            };
            let edited = if m.is_edited {
                seq![one("\nEdited"@, Style { fg: Some(Color::Faint), italic: true, ..base })]
            } else {
                Seq::empty()
            };
            remark_spans(m, base) == spoken + sent + edited
        }),
{
}

/// A bubble holds the subject, what the message says, its attachments and the remarks, in this
/// order; where there is nothing of these, it says so, or that the message is on its way.
pub proof fn bubbles_hold_the_message(m: MessageV, sizes: Seq<Seq<char>>, base: Style, now: int)
    ensures
        ({
            let subject = match m.subject {
                Some(s) => seq![one(s + "\n"@, Style { bold: true, ..base })],
                None => Seq::empty(),
            };
            let all = with_attachments(
                subject + kind_spans(m, base),
                m,
                sizes,
                base,
                now,
                m.attachments.len() as int,
            ) + remark_spans(m, base);
            let recent = m.is_from_me && now - m.date < 600_000;
            &&& all.len() > 0 ==> bubble_spans(m, sizes, base, now) == all
            &&& all.len() == 0 && recent ==> bubble_spans(m, sizes, base, now) == seq![
                one("Sending…"@, Style { italic: true, ..base }),
            ]
            &&& all.len() == 0 && !recent ==> bubble_spans(m, sizes, base, now) == seq![
                one("(no content)"@, Style { italic: true, ..base }),
            ]
        }),
{
}

/// The widest text in a bubble takes 65 of 100 columns, at least twelve, and leaves four where it can.
pub proof fn bubbles_leave_room(width: int)
    requires
        width >= 0,
    ensures
        width < 16 ==> bubble_limit(width) == 12,
        width >= 19 ==> bubble_limit(width) == width * 65 / 100,
        16 <= width < 19 ==> bubble_limit(width) == 12,
{
}

/// The columns of a row are those of its spans together, and a bubble is two wider than its widest
/// row.
pub proof fn bubbles_are_as_wide_as_their_rows(row: Seq<SpanV>, s: SpanV, rows: Seq<Seq<SpanV>>, i: int)
    ensures
        row_width(Seq::<SpanV>::empty()) == 0,
        row_width(row) + text_width(s.text) <= usize::MAX ==> row_width(row.push(s)) == row_width(row) + text_width(s.text),
        0 <= i < rows.len() ==> row_width(rows[i]) <= widest(rows),
        rows.len() > 0 ==> exists|k: int| 0 <= k < rows.len() && row_width(#[trigger] rows[k]) == widest(rows),
        widest(rows) + 2 <= usize::MAX ==> bubble_columns(rows) == widest(rows) + 2,
    decreases rows.len(),
{
    assert(row.push(s).drop_last() =~= row);
    lemma_row_width(rows);
    if rows.len() > 0 {
        let d = rows.drop_last();
        bubbles_are_as_wide_as_their_rows(row, s, d, i);
        lemma_row_width(d);
        if row_width(rows.last()) > widest(d) {
            assert(row_width(rows[rows.len() - 1]) == widest(rows));
        } else if d.len() > 0 {
            let k = choose|k: int| 0 <= k < d.len() && row_width(#[trigger] d[k]) == widest(d);
            assert(row_width(rows[k]) == widest(rows));
        } else {
            lemma_width_of_row(rows.last());
            assert(row_width(rows[0]) == widest(rows));
        }
    }
}

proof fn lemma_width_of_row(row: Seq<SpanV>)
    ensures
        row_width(row) >= 0,
    decreases row.len(),
{
    if row.len() > 0 {
        lemma_width_of_row(row.drop_last());
    }
}

proof fn lemma_row_width(rows: Seq<Seq<SpanV>>)
    ensures
        widest(rows) >= 0,
    decreases rows.len(),
{
    if rows.len() > 0 {
        lemma_row_width(rows.drop_last());
    }
}

/// What stands at the right for the owner ends a column before the edge; for others it begins at the
/// left.
pub proof fn the_owner_stands_at_the_right(m: MessageV, pane: Pane, columns: int, left: int)
    requires
        0 <= columns < usize::MAX,
    ensures
        m.is_from_me && columns + 1 <= pane.width ==> indent(m, pane, columns, left) + columns + 1 == pane.width,
        m.is_from_me && columns + 1 > pane.width ==> indent(m, pane, columns, left) == 0,
        !m.is_from_me ==> indent(m, pane, columns, left) == left,
{
}

/// A bubble is an edge in its colour, its rows filled up on its colour, and an edge; a selected one
/// has a marker, and the time stands beside the last row, for the owner before it.
#[verifier::spinoff_prover]
pub proof fn bubbles_are_framed(m: MessageV, rows: Seq<Seq<SpanV>>, pane: Pane, selected: bool, clock: Seq<char>, i: int)
    requires
        0 <= i < rows.len(),
        0 <= widest(rows) < usize::MAX - 3,
    ensures
        ({
            let ls = framed(m, rows, pane, selected, clock);
            let columns = widest(rows) + 2;
            let c = bubble_color(m, pane);
            let pad = indent(m, pane, columns, 2);
            let base = white_on(c);
            let first = if m.is_from_me {
                0int
            } else {
                1int
            };
            let fill = if columns >= row_width(rows[i]) + 1 {
                columns - row_width(rows[i]) - 1
            } else {
                0
            };
            let body = seq![one(" "@, base)] + rows[i] + seq![one(repeat(' ', fill as nat), base)];
            let time = one(clock, colored(Color::Dim));
            let lead = if pad >= text_width(clock) + 1 {
                pad - text_width(clock) - 1
            } else {
                0
            };
            &&& ls.len() == rows.len() + 2
            &&& !ls[0].centered && !ls[i + 1].centered && !ls[rows.len() as int + 1].centered
            &&& ls[0].spans.len() == first + 3
            &&& selected ==> ls[0].spans[first + 1] == one("▶"@, colored(Color::Accent))
            &&& !selected ==> ls[0].spans[first + 1] == one(" "@, bare_text())
            &&& ls[0].spans[first + 2] == one(repeat('▄', columns as nat), colored(c))
            &&& ls[rows.len() as int + 1].spans == seq![
                one(repeat(' ', pad as nat), bare_text()),
                one(repeat('▀', columns as nat), colored(c)),
            ]
            &&& i + 1 < rows.len() ==> ls[i + 1].spans == seq![one(repeat(' ', pad as nat), bare_text())] + body
            &&& i + 1 == rows.len() && !m.is_from_me ==> ls[i + 1].spans == seq![
                one(repeat(' ', pad as nat), bare_text()),
            ] + body + seq![one(" "@, bare_text()), time]
            &&& i + 1 == rows.len() && m.is_from_me && text_width(clock) < usize::MAX ==> ls[i + 1].spans == seq![
                one(repeat(' ', lead as nat), bare_text()),
                time,
                one(" "@, bare_text()),
            ] + body
        }),
{
    let columns = widest(rows) + 2;
    let c = bubble_color(m, pane);
    let pad = indent(m, pane, columns, 2);
    let base = white_on(c);
    assert(bubble_columns(rows) == columns);
    assert(bubble_style(c) == base);
    lemma_width_of_row(rows[i]);
    lemma_widest(rows, i);
    let fill = columns - row_width(rows[i]) - 1;
    let body = seq![one(" "@, base)] + rows[i] + seq![one(repeat(' ', fill as nat), base)];
    let row = bubble_row(rows[i], pad, columns, base);
    assert(row =~= seq![one(repeat(' ', pad as nat), bare_text())] + body);
    assert(row.skip(1) =~= body);
    let ls = framed(m, rows, pane, selected, clock);
    assert(ls[i + 1] == body_lines(m, rows, pad, columns, base, clock)[i]);
    let first = if m.is_from_me {
        0int
    } else {
        1int
    };
    assert(ls[0].spans[first + 1] == (if selected {
        one("▶"@, colored(Color::Accent))
    } else {
        one(" "@, bare_text())
    }));
    assert(ls[0].spans[first + 2] == one(repeat('▄', columns as nat), colored(c)));
}

proof fn lemma_widest(rows: Seq<Seq<SpanV>>, i: int)
    requires
        0 <= i < rows.len(),
    ensures
        row_width(rows[i]) <= widest(rows),
{
    bubbles_are_as_wide_as_their_rows(Seq::empty(), one(Seq::empty(), bare_text()), rows, i);
}

proof fn lemma_word_end(s: Seq<char>, i: int)
    requires
        0 <= i <= s.len(),
    ensures
        i <= word_end(s, i) <= s.len(),
        forall|k: int| i <= k < word_end(s, i) ==> !is_white(#[trigger] s[k]),
        word_end(s, i) < s.len() ==> is_white(s[word_end(s, i)]),
    decreases s.len() - i,
{
    if i < s.len() && !is_white(s[i]) {
        lemma_word_end(s, i + 1);
    }
}

/// The first word of a name is what stands before white space; a name without any is its own first
/// word.
pub proof fn first_words_end_at_white_space(w: Seq<char>, c: char, rest: Seq<char>)
    requires
        w.len() > 0,
        forall|i: int| 0 <= i < w.len() ==> !is_white(#[trigger] w[i]),
        is_white(c),
    ensures
        first_word(w) == w,
        first_word(w + seq![c] + rest) == w,
        first_word(seq![c] + w) == w,
{
    assert(!is_white(w[0]) && !is_white(w[w.len() - 1]));
    trimmed_text_stays(w, Class::White);
    lemma_word_end(w, 0);
    assert(w.take(w.len() as int) =~= w);
    let s = w + seq![c] + rest;
    assert(s[0] == w[0]);
    assert(trim_start(s, Class::White) == s);
    lemma_word_end(s, 0);
    let e = word_end(s, 0);
    assert(e == w.len()) by {
        if e < w.len() {
            assert(s[e] == w[e]);
        }
        if e > w.len() {
            assert(!is_white(s[w.len() as int]));
        }
    }
    assert(s.take(e) =~= w);
    let t = seq![c] + w;
    assert(t.skip(1) =~= w);
    assert(trim_start(t, Class::White) == trim_start(t.skip(1), Class::White));
}

/// Reactions are shown with who reacted, by the first name, in their order.
pub proof fn reactions_are_told(r: ReactionV, rs: Seq<ReactionV>)
    ensures
        r.from_me ==> reaction_text(r) == r.emoji + " "@ + "You"@,
        !r.from_me && r.sender is Some ==> reaction_text(r) == r.emoji + " "@ + first_word(display_of(r.sender->0)),
        !r.from_me && r.sender is None ==> reaction_text(r) == r.emoji + " "@,
        reactions_text(seq![r]) == reaction_text(r),
        rs.len() > 0 ==> reactions_text(rs.push(r)) == reactions_text(rs) + "  "@ + reaction_text(r),
{
    if !r.from_me && r.sender is None {
        assert(r.emoji + " "@ + Seq::<char>::empty() =~= r.emoji + " "@);
    }
    let a = Seq::new(1, |i: int| reaction_text(seq![r][i]));
    assert(a =~= seq![reaction_text(r)]);
    crate::text_laws::joining_goes_part_by_part(Seq::empty(), reaction_text(r), "  "@);
    let b = Seq::new(rs.len(), |i: int| reaction_text(rs[i]));
    let d = Seq::new(rs.push(r).len(), |i: int| reaction_text(rs.push(r)[i]));
    assert(d =~= b.push(reaction_text(r)));
    crate::text_laws::joining_goes_part_by_part(b, reaction_text(r), "  "@);
}

/// What became of the owner's message: a failure comes before all, reading before delivery, delivery
/// before sending.
pub proof fn delivery_is_told(m: MessageV, read: Seq<char>)
    ensures
        m.error != 0 ==> delivery(m, read) == "Not delivered"@,
        m.error == 0 && m.date_read > 0 ==> delivery(m, read) == "Read "@ + read,
        m.error == 0 && m.date_read <= 0 && (m.is_delivered || m.date_delivered > 0) ==> delivery(m, read) == "Delivered"@,
        m.error == 0 && m.date_read <= 0 && !m.is_delivered && m.date_delivered <= 0 && m.is_sent ==> delivery(m, read)
            == "Sent"@,
        m.error == 0 && m.date_read <= 0 && !m.is_delivered && m.date_delivered <= 0 && !m.is_sent ==> delivery(m, read).len()
            == 0,
{
}

/// What became of a message stands below the owner's last one, at the right, in red where it failed.
pub proof fn delivery_stands_below_the_last(m: MessageV, pane: Pane, read: Seq<char>, last: bool)
    requires
        text_width(delivery(m, read)) < pane.width,
    ensures
        ({
            let s = delivery(m, read);
            let ls = delivery_lines(m, pane, read, last);
            &&& !last || !m.is_from_me || s.len() == 0 ==> ls.len() == 0
            &&& last && m.is_from_me && s.len() > 0 ==> ls == seq![
                LineV {
                    spans: seq![
                        one(repeat(' ', (pane.width - text_width(s) - 1) as nat), bare_text()),
                        one(
                            s,
                            colored(
                                if m.error != 0 {
                                    Color::Red
                                } else {
                                    Color::Dim
                                },
                            ),
                        ),
                    ],
                    centered: false,
                },
            ]
        }),
{
}

/// In a group the name of another sender stands above the bubble.
pub proof fn senders_are_named_in_groups(m: MessageV, pane: Pane)
    ensures
        m.is_from_me || !pane.is_group ==> name_lines(m, pane).len() == 0,
        !m.is_from_me && pane.is_group && m.sender is Some ==> name_lines(m, pane) == seq![
            LineV { spans: seq![one("  "@ + display_of(m.sender->0), colored(Color::Dim))], centered: false },
        ],
        !m.is_from_me && pane.is_group && m.sender is None ==> name_lines(m, pane) == seq![
            LineV { spans: seq![one("  "@ + "Unknown"@, colored(Color::Dim))], centered: false },
        ],
{
}

/// A quotation tells who wrote what, on one line.
pub proof fn quotations_tell_who_wrote_what(r: ReplyRefV)
    ensures
        ({
            let who = match r.sender_name {
                Some(n) => n,
                None => Seq::empty(),
            };
            let what = match r.preview {
                Some(p) => p,
                None => Seq::empty(),
            };
            quote_text(r) == "↩ "@ + who + ": "@ + replace_all(what, "\n"@, " "@)
        }),
{
}

/// A quotation stands above the bubble, cut to its widest line.
pub proof fn quotations_stand_above(m: MessageV, pane: Pane)
    ensures
        m.reply_to is None ==> quote_lines(m, pane).len() == 0,
        m.reply_to is Some ==> ({
            let q = cut(quote_text(m.reply_to->0), sat_sum(bubble_limit(pane.width as int), 2) as nat);
            let pad = one(repeat(' ', indent(m, pane, text_width(q) as int, 2) as nat), bare_text());
            let text = one(q, Style { italic: true, ..colored(Color::Dim) });
            quote_lines(m, pane) == seq![LineV { spans: seq![pad, text], centered: false }]
        }),
{
}

/// Reactions stand below the bubble, where there are any.
pub proof fn reactions_stand_below(m: MessageV, pane: Pane)
    ensures
        m.reactions.len() == 0 ==> reaction_lines(m, pane).len() == 0,
        m.reactions.len() > 0 ==> reaction_lines(m, pane) == seq![
            LineV {
                spans: seq![
                    one(
                        repeat(' ', indent(m, pane, text_width(reactions_text(m.reactions)) as int, 3) as nat),
                        bare_text(),
                    ),
                    one(reactions_text(m.reactions), colored(Color::Pale)),
                ],
                centered: false,
            },
        ],
{
}

/// An announcement is a line in the middle; any other message is a bubble, with the name and the
/// quotation above it and the reactions and what became of it below it.
pub proof fn messages_are_bubbles(m: MessageV, st: StampV, pane: Pane, selected: bool, last: bool)
    ensures
        match m.kind {
            MessageKindV::Announcement { text } => shown(m, st, pane, selected, last) == seq![
                LineV { spans: seq![one(text, Style { italic: true, ..colored(Color::Dim) })], centered: true },
            ],
            _ => shown(m, st, pane, selected, last) == name_lines(m, pane) + quote_lines(m, pane) + framed(
                m,
                wrapped(
                    bubble_spans(m, st.sizes, white_on(bubble_color(m, pane)), pane.now as int),
                    bubble_limit(pane.width as int),
                ),
                pane,
                selected,
                st.clock,
            ) + reaction_lines(m, pane) + delivery_lines(m, pane, st.read, last),
        },
{
}

/// The date stands above a message that comes over an hour after the one before, and an empty line
/// below every message.
pub proof fn dates_stand_above_after_an_hour(m: MessageV, st: StampV, pane: Pane, before: int, selected: bool, last: bool)
    ensures
        ({
            let ls = message_lines(m, st, pane, before, selected, last);
            let body = shown(m, st, pane, selected, last);
            let empty = LineV { spans: Seq::empty(), centered: false };
            let date = LineV { spans: seq![one(" "@ + st.full + " "@, colored(Color::Dim))], centered: true };
            &&& m.date <= before + 3_600_000 ==> ls == body + seq![empty]
            &&& m.date > before + 3_600_000 ==> ls == seq![date] + body + seq![empty]
        }),
{
    let ls = message_lines(m, st, pane, before, selected, last);
    let body = shown(m, st, pane, selected, last);
    assert(Seq::<LineV>::empty() + body =~= body);
}

proof fn lemma_last_own(msgs: Seq<MessageV>, n: int, i: int)
    requires
        0 <= n <= msgs.len(),
    ensures
        last_own(msgs, n) == Some(i) <==> 0 <= i < n && msgs[i].is_from_me && (forall|j: int|
            i < j < n ==> !(#[trigger] msgs[j]).is_from_me),
    decreases n,
{
    if n > 0 {
        lemma_last_own(msgs, n - 1, i);
        if i < n - 1 && (forall|j: int| i < j < n ==> !(#[trigger] msgs[j]).is_from_me) {
            assert(!msgs[n - 1].is_from_me);
        }
    }
}

/// The messages stand one below the other, in their order; each with the date of the one before it,
/// and marked where it is selected, and where it is the owner's last one.
pub proof fn messages_stand_in_order(
    msgs: Seq<MessageV>,
    stamps: Seq<StampV>,
    pane: Pane,
    sel: Option<usize>,
    head: Seq<LineV>,
    i: int,
)
    requires
        0 <= i < msgs.len() <= usize::MAX,
    ensures
        ({
            let last = msgs[i].is_from_me && (forall|j: int| i < j < msgs.len() ==> !(#[trigger] msgs[j]).is_from_me);
            let before = if i == 0 {
                0int
            } else {
                msgs[i - 1].date as int
            };
            let selected = sel is Some && sel->0 == i;
            &&& lines_upto(msgs, stamps, pane, sel, head, 0) == head
            &&& lines_upto(msgs, stamps, pane, sel, head, i + 1) == lines_upto(msgs, stamps, pane, sel, head, i)
                + message_lines(msgs[i], stamps[i], pane, before, selected, last)
        }),
{
    lemma_last_own(msgs, msgs.len() as int, i);
}

/// Above the messages a line tells that they are being loaded, or that there are earlier ones; an
/// empty conversation says so.
pub proof fn conversations_have_a_head(
    msgs: Seq<MessageV>,
    stamps: Seq<StampV>,
    pane: Pane,
    sel: Option<usize>,
    loading: bool,
    more: bool,
)
    ensures
        ({
            let note = |t: Seq<char>| LineV { spans: seq![one(t, colored(Color::Dim))], centered: true };
            let head = head_lines(loading, more);
            let all = all_lines(msgs, stamps, pane, sel, loading, more);
            &&& loading ==> head == seq![note("loading…"@)]
            &&& !loading && more ==> head == seq![note("↑ scroll for earlier messages"@)]
            &&& !loading && !more ==> head.len() == 0
            &&& msgs.len() > 0 || loading ==> all == lines_upto(msgs, stamps, pane, sel, head, msgs.len() as int)
            &&& msgs.len() == 0 && !loading ==> all == head + seq![note("No messages yet"@)]
        }),
{
    let head = head_lines(loading, more);
    let l = lines_upto(msgs, stamps, pane, sel, head, msgs.len() as int);
    assert(l + Seq::<LineV>::empty() =~= l);
}

// ----- panes -----

/// The chat list takes 30 of 100 columns, from 24 to 44.
pub proof fn the_list_takes_its_share(total: int)
    requires
        total >= 0,
    ensures
        total * 30 / 100 < 24 ==> sidebar_of(total) == 24,
        24 <= total * 30 / 100 <= 44 ==> sidebar_of(total) == total * 30 / 100,
        total * 30 / 100 > 44 ==> sidebar_of(total) == 44,
{
}

/// A window has the size that was asked for where it leaves a column and a line on each side, else
/// the largest that does; as much is left before it as behind it, but for one.
pub proof fn windows_are_in_the_middle(a: Area, w: int, h: int)
    requires
        w >= 0,
        h >= 0,
        a.width >= 2,
        a.height >= 2,
        a.x + a.width <= u16::MAX,
        a.y + a.height <= u16::MAX,
    ensures
        ({
            let r = middle_of(a, w, h);
            let right = a.x + a.width - (r.x + r.width);
            let below = a.y + a.height - (r.y + r.height);
            &&& w + 2 <= a.width ==> r.width == w
            &&& w + 2 > a.width ==> r.width == a.width - 2
            &&& h + 2 <= a.height ==> r.height == h
            &&& h + 2 > a.height ==> r.height == a.height - 2
            &&& 0 <= right - (r.x - a.x) <= 1
            &&& 0 <= below - (r.y - a.y) <= 1
        }),
{
}

/// A list is shown from its start where the selected row then is in sight, else so that the
/// selected row is the last one.
pub proof fn lists_follow_the_selection<T>(rows: Seq<T>, sel: int, height: int, i: int)
    requires
        height > 0,
        0 <= sel < rows.len(),
    ensures
        ({
            let v = shown_rows(rows, sel, height);
            &&& sel < height ==> first_row(sel, height) == 0
            &&& sel >= height ==> first_row(sel, height) == sel - height + 1
            &&& sel < height && height <= rows.len() ==> v == rows.take(height)
            &&& height > rows.len() ==> v == rows
            &&& sel >= height ==> v == rows.subrange(sel - height + 1, sel + 1)
        }),
{
    if height > rows.len() {
        assert(rows.subrange(0, rows.len() as int) =~= rows);
    }
    assert(sel < height && height <= rows.len() ==> rows.subrange(0, height) =~= rows.take(height));
}

/// The conversation on the screen is drawn as a group where it is one, and as SMS where its service
/// is not iMessage; it loads and has earlier messages as is known of its chat.
pub proof fn conversations_are_drawn_as_they_are(a: AppV, width: usize, now: i64)
    ensures
        ({
            let p = pane_on_screen(a, width, now);
            &&& p.width == width
            &&& p.now == now
            &&& chat_on_screen(a) is None ==> !p.is_group && !p.sms && !loads_on_screen(a) && !more_on_screen(a)
            &&& chat_on_screen(a) matches Some(c) ==> p.is_group == c.is_group && (p.sms <==> c.service != "iMessage"@) && (
            loads_on_screen(a) <==> a.loading.contains(c.id)) && (more_on_screen(a) <==> a.has_more.dom().contains(c.id)
                && a.has_more[c.id])
        }),
{
}

/// The title of the chat list is the filter, while there is one or it is typed.
pub proof fn the_list_has_its_title(a: AppV)
    ensures
        a.mode == Mode::ChatFilter || a.chat_filter.len() > 0 ==> sidebar_title_of(a) == " / "@ + a.chat_filter + "▏"@,
        a.mode != Mode::ChatFilter && a.chat_filter.len() == 0 ==> sidebar_title_of(a) == " Messages "@,
{
}

/// The second line of a chat is its newest message on one line, with a word before the owner's.
pub proof fn chats_show_their_newest_message(c: ChatV)
    ensures
        c.last_preview is None ==> preview_text(c).len() == 0,
        c.last_preview matches Some(p) ==> {
            let line = replace_all(p, "\n"@, " "@);
            &&& !c.last_from_me || line.len() == 0 ==> preview_text(c) == line
            &&& c.last_from_me && line.len() > 0 ==> preview_text(c) == "You: "@ + line
        },
{
    crate::text_laws::replacing_a_character(Seq::empty(), '\n', " "@, 'x');
}

/// A chat is shown by its title, in bold with a dot where something is unread, with a sign for a
/// group and the time of its newest message; below it stands that message.
#[verifier::spinoff_prover]
pub proof fn chats_take_two_lines(c: ChatV, time: Seq<char>, w: int)
    requires
        w >= 0,
    ensures
        ({
            let ls = chat_lines(c, time, w);
            let room = if w >= text_width(time) + 4 {
                w - text_width(time) - 4
            } else {
                0
            };
            let most = if !c.is_group {
                room
            } else if room >= 2 {
                room - 2
            } else {
                0
            };
            let dot = one(
                if c.unread > 0 {
                    "●"@
                } else {
                    " "@
                },
                colored(Color::Blue),
            );
            let space = one(" "@, bare_text());
            let title = one(
                padded(cut(title_of(c), most as nat), most as nat),
                Style { bold: c.unread > 0, ..bare_text() },
            );
            let at = one(time, colored(Color::Dim));
            let below = if w >= 2 {
                w - 2
            } else {
                0
            };
            &&& ls.len() == 2
            &&& text_width(time) + 4 <= usize::MAX && !c.is_group ==> ls[0].spans == seq![dot, space, title, space, at]
            &&& text_width(time) + 4 <= usize::MAX && c.is_group ==> ls[0].spans == seq![
                dot,
                space,
                one("👥"@, bare_text()),
                title,
                space,
                at,
            ]
            &&& ls[1].spans == seq![one("  "@ + cut(preview_text(c), below as nat), colored(Color::Dim))]
            &&& !ls[0].centered && !ls[1].centered
        }),
{
    let ls = chat_lines(c, time, w);
    let room = sat_diff(w, (text_width(time) + 4) as int);
    let most = if c.is_group {
        sat_diff(room, 2)
    } else {
        room
    };
    let dot = one(
        if c.unread > 0 {
            "●"@
        } else {
            " "@
        },
        colored(Color::Blue),
    );
    let space = one(" "@, bare_text());
    let title = one(
        padded(cut(title_of(c), most as nat), most as nat),
        Style { bold: c.unread > 0, ..bare_text() },
    );
    let at = one(time, colored(Color::Dim));
    if text_width(time) + 4 <= usize::MAX {
        if c.is_group {
            assert(ls[0].spans =~= seq![dot, space, one("👥"@, bare_text()), title, space, at]);
        } else {
            assert(ls[0].spans =~= seq![dot, space, title, space, at]);
        }
    }
}

/// A new conversation is shown by its name, with its address below.
pub proof fn new_conversations_are_shown(n: NewChatV, w: int)
    requires
        w >= 2,
    ensures
        new_chat_lines(n, w) == seq![
            LineV {
                spans: seq![one("✎ New: "@ + n.name, Style { bold: true, ..colored(Color::Accent) })],
                centered: false,
            },
            LineV { spans: seq![one(cut(n.address, (w - 2) as nat), colored(Color::Dim))], centered: false },
        ],
{
}

/// The selected row of the chat list: a new conversation, else the selected chat, else the last one.
pub proof fn a_row_is_selected(a: AppV)
    ensures
        a.new_chat is Some ==> sidebar_sel(a) == Some(0int),
        a.new_chat is None && listed_chats(a).len() == 0 ==> sidebar_sel(a) is None,
        a.new_chat is None && a.chat_sel < listed_chats(a).len() ==> sidebar_sel(a) == Some(a.chat_sel as int),
        a.new_chat is None && a.chat_sel >= listed_chats(a).len() > 0 ==> sidebar_sel(a) == Some(listed_chats(a).len() - 1),
{
}

/// The header: whom a new conversation is to; else the title of the chat, its service and members; else
/// what to do.
pub proof fn headers_tell_who_is_there(a: AppV)
    ensures
        match a.new_chat {
            Some(n) => header_of(a) == ("New message to "@ + n.name, n.address),
            None => match chat_on_screen(a) {
                None => header_of(a) == ("imsg"@, "select a conversation"@),
                Some(c) => {
                    &&& header_of(a).0 == title_of(c)
                    &&& c.is_group ==> header_of(a).1 == c.service + " · "@ + join(
                        Seq::new(c.participants.len(), |i: int| display_of(c.participants[i])),
                        ", "@,
                    )
                    &&& !c.is_group && c.participants.len() > 0 ==> header_of(a).1 == c.service + " · "@
                        + c.participants[0].address
                    &&& !c.is_group && c.participants.len() == 0 ==> header_of(a).1 == c.service + " · "@
                },
            },
        },
{
    if let Some(c) = chat_on_screen(a) {
        assert(crate::wire::names_of(c.participants) =~= Seq::new(
            c.participants.len(),
            |i: int| display_of(c.participants[i]),
        ));
        assert(c.service + " · "@ + Seq::<char>::empty() =~= c.service + " · "@);
    }
}

/// What the keys do is told by where they go.
pub proof fn hints_go_with_the_focus(f: Focus, m: Mode)
    ensures
        m != Mode::Normal ==> hint_of(f, m) == "Esc cancel"@,
        m == Mode::Normal && f == Focus::Chats ==> hint_of(f, m)
            == "j/k move · Enter compose · / filter · Ctrl+N new · Ctrl+S search · ? help"@,
        m == Mode::Normal && f == Focus::Messages ==> hint_of(f, m)
            == "j/k select · o open · s save · y copy · PgUp/PgDn scroll · Esc back"@,
        m == Mode::Normal && f == Focus::Compose ==> hint_of(f, m)
            == "Enter send · Alt+Enter newline · :smile: emoji · Ctrl+E picker · Ctrl+F file · Esc"@,
{
}

/// The status line tells the connection, the host, the status on half the width and what the keys do.
pub proof fn the_status_is_told(a: AppV, w: int)
    requires
        w >= 0,
    ensures
        ({
            let l = status_line(a, w);
            &&& !l.centered
            &&& l.spans.len() == 5
            &&& a.connected ==> l.spans[0] == one("● live"@, colored(Color::Green))
            &&& !a.connected ==> l.spans[0] == one("○ offline"@, colored(Color::Red))
            &&& a.info matches Some(i) ==> l.spans[1] == one(" "@ + i.host + " "@, colored(Color::Dim))
            &&& a.info is None ==> l.spans[1] == one(Seq::empty(), colored(Color::Dim))
            &&& l.spans[2] == one(cut(a.status, (w / 2) as nat), colored(Color::Accent))
            &&& l.spans[3] == one("  "@, bare_text())
            &&& l.spans[4] == one(hint_of(a.focus, a.mode), colored(Color::Dim))
        }),
{
}

/// The files that wait are shown by name, in their order.
pub proof fn waiting_files_are_shown(files: Seq<UploadResponseV>, n: int)
    requires
        0 <= n < files.len(),
    ensures
        chips_of(files, 0) == seq![one(" 📎 "@, colored(Color::Dim))],
        chips_of(files, n + 1) == chips_of(files, n) + seq![
            one(" "@ + files[n].name + " "@, white_on(Color::Shade)),
            one(" "@, bare_text()),
        ],
{
}

/// An emoji is shown with its name and its first two shortcodes between colons.
pub proof fn emoji_are_shown(e: EmojiEntryV, a: AppV, i: int)
    ensures
        ({
            let codes = codes_of(e);
            &&& emoji_line(e).spans == seq![
                one(e.glyph + "  "@, bare_text()),
                one(e.name, bare_text()),
                one("  "@ + codes, colored(Color::Dim)),
            ]
            &&& !emoji_line(e).centered
            &&& e.shortcodes.len() == 0 ==> codes.len() == 0
            &&& e.shortcodes.len() == 1 ==> codes == ":"@ + e.shortcodes[0] + ":"@
            &&& e.shortcodes.len() >= 2 ==> codes == ":"@ + e.shortcodes[0] + ":"@ + " "@ + (":"@ + e.shortcodes[1] + ":"@)
            &&& emoji_rows(a).len() == emoji_list(a).len()
            &&& 0 <= i < emoji_list(a).len() ==> emoji_rows(a)[i] == emoji_line(a.emojis[emoji_list(a)[i] as int])
        }),
{
    let n = if e.shortcodes.len() < 2 {
        e.shortcodes.len()
    } else {
        2
    };
    let parts = Seq::new(n, |i: int| crate::panes::coded(e.shortcodes[i]));
    assert(codes_of(e) == join(parts, " "@)) by {
        assert(parts =~= Seq::new(
            crate::panes::least(2, e.shortcodes.len() as int) as nat,
            |i: int| crate::panes::coded(e.shortcodes[i]),
        ));
    }
    crate::text_laws::joining_goes_part_by_part(Seq::empty(), Seq::empty(), " "@);
    if n == 0 {
        assert(parts =~= Seq::<Seq<char>>::empty());
    } else {
        let c0 = crate::panes::coded(e.shortcodes[0]);
        crate::text_laws::joining_goes_part_by_part(Seq::empty(), c0, " "@);
        if n == 1 {
            assert(parts =~= seq![c0]);
        } else {
            let c1 = crate::panes::coded(e.shortcodes[1]);
            crate::text_laws::joining_goes_part_by_part(seq![c0], c1, " "@);
            assert(parts =~= seq![c0].push(c1));
        }
    }
}

/// An address in the contact picker is shown behind its name; every one that was found has a row.
pub proof fn addresses_are_shown(h: HitV, a: AppV, i: int)
    ensures
        hit_line(h) == (LineV {
            spans: seq![one(h.name, bare_text()), one("  "@ + h.address, colored(Color::Dim))],
            centered: false,
        }),
        hit_rows(a).len() == picker_list(a).len(),
        0 <= i < picker_list(a).len() ==> hit_rows(a)[i] == hit_line(picker_list(a)[i]),
{
}

/// A search result is shown with its time, the title of its chat, who wrote it and its text on one
/// line.
#[verifier::spinoff_prover]
pub proof fn results_are_shown(a: AppV, m: MessageV, time: Seq<char>, w: int, k: int)
    requires
        w >= 0,
        0 <= k < a.chats.len(),
        a.chats[k].id == m.chat_id,
        forall|j: int| 0 <= j < k ==> (#[trigger] a.chats[j]).id != m.chat_id,
    ensures
        ({
            let l = result_line(a, m, time, w);
            let who = if m.is_from_me {
                "You"@
            } else {
                match m.sender {
                    Some(p) => display_of(p),
                    None => Seq::empty(),
                }
            };
            let text = match m.text {
                Some(t) => t,
                None => Seq::empty(),
            };
            &&& !l.centered
            &&& l.spans == seq![
                one(time, colored(Color::Dim)),
                one(" "@, bare_text()),
                one(cut(title_of(a.chats[k]), 18), colored(Color::Blue)),
                one(" "@ + who + ": "@, colored(Color::Dim)),
                one(cut(replace_all(text, "\n"@, " "@), w as nat), bare_text()),
            ]
        }),
{
    lemma_chat_place(a.chats, m.chat_id, 0);
    lemma_first_chat(a.chats, m.chat_id, 0, k);
}

proof fn lemma_first_chat(list: Seq<ChatV>, id: i64, i: int, k: int)
    requires
        0 <= i <= k < list.len(),
        list[k].id == id,
        forall|j: int| 0 <= j < k ==> (#[trigger] list[j]).id != id,
    ensures
        chat_place(list, id, i) == Some(k),
    decreases k - i,
{
    if i < k {
        assert(list[i].id != id);
        lemma_first_chat(list, id, i + 1, k);
    }
}

/// Every search result has a row, with its time.
pub proof fn results_have_rows(a: AppV, times: Seq<Seq<char>>, w: int, i: int)
    requires
        0 <= i < a.search_results.len(),
    ensures
        result_rows(a, times, w).len() == a.search_results.len(),
        result_rows(a, times, w)[i] == result_line(a, a.search_results[i], times[i], w),
{
}

} // verus!
