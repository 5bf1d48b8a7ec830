//! Wrapping styled text into rows.
use crate::screen::{
    char_width, is_printable, span, span_of, styled, text_width, width, width_of_char, Span, SpanV, Style,
};
use crate::text::{
    chars_of, find_from, is_white, lemma_position_from, piece, position_from, split, split_on, string_of, trim_end,
    trimmed_end, views, Class,
};
use vstd::prelude::*;

verus! {

// ----- rows -----

/// The contents of rows of spans.
pub open spec fn rows_view(rows: Seq<Vec<Span>>) -> Seq<Seq<SpanV>> {
    Seq::new(rows.len(), |i: int| views(rows[i]@))
}

/// A row without the white space at its end.
pub open spec fn trimmed_row(row: Seq<SpanV>) -> Seq<SpanV>
    decreases row.len(),
{
    if row.len() == 0 {
        row
    } else {
        let t = trim_end(row.last().text, Class::White);
        if t.len() == 0 {
            trimmed_row(row.drop_last())
        } else {
            row.drop_last().push(span_of(t, row.last().style))
        }
    }
}

/// Take the white space off the end of a row.
pub fn trim_row(row: Vec<Span>) -> (r: Vec<Span>)
    ensures
        views(r@) == trimmed_row(views(row@)),
{
    let mut out: Vec<Span> = row;
    let ghost want = trimmed_row(views(out@));
    loop
        invariant
            want == trimmed_row(views(row@)),
            trimmed_row(views(out@)) == want,
        decreases out@.len(),
    {
        let ghost before = views(out@);
        match out.pop() {
            Some(s) => {
                assert(views(out@) =~= before.drop_last());
                assert(before.last() == s@);
                let t: Vec<char> = trimmed_end(&chars_of(s.text.as_str()), Class::White);
                if t.len() > 0 {
                    let ghost rest = views(out@);
                    let kept: Span = styled(string_of(&t), s.style);
                    let ghost k = kept@;
                    out.push(kept);
                    assert(views(out@) =~= rest.push(k));
                    return out;
                }
            },
            None => {
                return out;
            },
        }
    }
}

// ----- filling rows -----

/// Rows that are being filled, and how much of the last one is used.
#[verifier::ext_equal]
pub struct Filling {
    pub rows: Seq<Seq<SpanV>>,
    pub used: nat,
}

/// One empty row.
pub open spec fn empty_filling() -> Filling {
    Filling { rows: seq![Seq::<SpanV>::empty()], used: 0 }
}

/// Start another row.
pub open spec fn next_row(f: Filling) -> Filling {
    Filling { rows: f.rows.push(Seq::<SpanV>::empty()), used: 0 }
}

/// Add text to the last row.
pub open spec fn put(f: Filling, text: Seq<char>, style: Style) -> Filling {
    if text.len() == 0 {
        f
    } else {
        Filling {
            rows: f.rows.drop_last().push(f.rows.last().push(span_of(text, style))),
            used: f.used + text_width(text),
        }
    }
}

/// Take the white space off the end of the last row.
pub open spec fn trim_last(f: Filling) -> Filling {
    Filling { rows: f.rows.drop_last().push(trimmed_row(f.rows.last())), used: f.used }
}

/// Fill in a word that is wider than a row, character by character: `got` holds what is to stand
/// on the last row, and `i` how far the word was taken.
pub open spec fn put_long(f: Filling, got: Seq<char>, word: Seq<char>, i: int, style: Style, max: nat) -> Filling
    decreases word.len() - i,
{
    if i < 0 || i >= word.len() {
        put(f, got, style)
    } else if f.used + text_width(got) + char_width(word[i]) > max {
        put_long(next_row(put(f, got, style)), seq![word[i]], word, i + 1, style, max)
    } else {
        put_long(f, got.push(word[i]), word, i + 1, style, max)
    }
}

/// Fill in a space: none stands at the start of a row, and one that does not fit ends the row.
pub open spec fn put_space(f: Filling, style: Style, max: nat) -> Filling {
    if f.used == 0 {
        f
    } else if f.used + 1 > max {
        next_row(f)
    } else {
        put(f, seq![' '], style)
    }
}

/// Fill in a word: on the last row where it fits, on a row of its own where that does, else
/// character by character.
pub open spec fn put_word(f: Filling, word: Seq<char>, style: Style, max: nat) -> Filling {
    if f.used + text_width(word) <= max {
        put(f, word, style)
    } else if text_width(word) <= max {
        put(next_row(trim_last(f)), word, style)
    } else {
        put_long(f, Seq::empty(), word, 0, style, max)
    }
}

/// Fill in a line from character `i` on: its words and the spaces between them.
pub open spec fn put_line(f: Filling, line: Seq<char>, i: int, style: Style, max: nat) -> Filling
    decreases line.len() - i,
{
    if i < 0 || i >= line.len() {
        f
    } else if line[i] == ' ' {
        put_line(put_space(f, style, max), line, i + 1, style, max)
    } else {
        let end = position_from(line, ' ', i);
        if end <= i || end > line.len() {
            f
        } else {
            put_line(put_word(f, line.subrange(i, end), style, max), line, end, style, max)
        }
    }
}

/// Fill in lines, each but the first on a new row.
pub open spec fn put_lines(f: Filling, lines: Seq<Seq<char>>, style: Style, max: nat) -> Filling
    decreases lines.len(),
{
    if lines.len() == 0 {
        f
    } else {
        let before = put_lines(f, lines.drop_last(), style, max);
        let start = if lines.len() > 1 {
            next_row(before)
        } else {
            before
        };
        put_line(start, lines.last(), 0, style, max)
    }
}

/// Fill in spans in turn.
pub open spec fn put_spans(segs: Seq<SpanV>, max: nat) -> Filling
    decreases segs.len(),
{
    if segs.len() == 0 {
        empty_filling()
    } else {
        put_lines(put_spans(segs.drop_last(), max), split(segs.last().text, '\n'), segs.last().style, max)
    }
}

/// Rows without the empty ones at their end; the first row stays.
pub open spec fn drop_blank(rows: Seq<Seq<SpanV>>) -> Seq<Seq<SpanV>>
    decreases rows.len(),
{
    if rows.len() > 1 && rows.last().len() == 0 {
        drop_blank(rows.drop_last())
    } else {
        rows
    }
}

/// Every row without the white space at its end.
pub open spec fn trim_rows(rows: Seq<Seq<SpanV>>) -> Seq<Seq<SpanV>> {
    Seq::new(rows.len(), |i: int| trimmed_row(rows[i]))
}

/// The narrowest rows that text is wrapped to.
pub open spec fn row_limit(max: int) -> nat {
    if max < 4 {
        4
    } else {
        max as nat
    }
}

/// Styled text in rows of at most `max` columns.
pub open spec fn wrapped(segs: Seq<SpanV>, max: int) -> Seq<Seq<SpanV>> {
    drop_blank(trim_rows(put_spans(segs, row_limit(max)).rows))
}

struct Rows {
    rows: Vec<Vec<Span>>,
    used: u128,
}

impl Rows {
    spec fn filling(&self) -> Filling {
        Filling { rows: rows_view(self.rows@), used: self.used as nat }
    }

    spec fn wf(&self) -> bool {
        self.rows@.len() > 0 && self.used <= 2 * usize::MAX
    }

    fn next(&mut self)
        requires
            old(self).wf(),
        ensures
            final(self).wf(),
            final(self).filling() == next_row(old(self).filling()),
            final(self).used == 0,
    {
        let ghost before = rows_view(self.rows@);
        let row: Vec<Span> = Vec::new();
        assert(views(row@) =~= Seq::<SpanV>::empty());
        self.rows.push(row);
        self.used = 0;
        assert(rows_view(self.rows@) =~= before.push(Seq::<SpanV>::empty()));
    }

    fn add(&mut self, text: &str, style: Style)
        requires
            old(self).wf(),
            old(self).used <= usize::MAX || text@.len() == 0,
        ensures
            final(self).wf(),
            final(self).filling() == put(old(self).filling(), text@, style),
            final(self).rows@.len() == old(self).rows@.len(),
    {
        if text.is_empty() {
            return;
        }
        let ghost before = rows_view(self.rows@);
        let w: usize = width(text);
        if let Some(mut row) = self.rows.pop() {
            assert(rows_view(self.rows@) =~= before.drop_last());
            assert(before.last() == views(row@));
            let ghost r0 = views(row@);
            row.push(span(text, style));
            assert(views(row@) =~= r0.push(span_of(text@, style)));
            let ghost r1 = views(row@);
            let ghost rest = rows_view(self.rows@);
            self.rows.push(row);
            assert(rows_view(self.rows@) =~= rest.push(r1));
        }
        self.used = self.used + w as u128;
    }

    fn trim(&mut self)
        requires
            old(self).wf(),
        ensures
            final(self).wf(),
            final(self).filling() == trim_last(old(self).filling()),
    {
        let ghost before = rows_view(self.rows@);
        if let Some(row) = self.rows.pop() {
            assert(rows_view(self.rows@) =~= before.drop_last());
            assert(before.last() == views(row@));
            let t: Vec<Span> = trim_row(row);
            let ghost tv = views(t@);
            let ghost rest = rows_view(self.rows@);
            self.rows.push(t);
            assert(rows_view(self.rows@) =~= rest.push(tv));
        }
    }

    fn long_word(&mut self, word: &Vec<char>, style: Style, max: usize)
        requires
            old(self).wf(),
        ensures
            final(self).wf(),
            final(self).filling() == put_long(old(self).filling(), Seq::empty(), word@, 0, style, max as nat),
    {
        let ghost f0 = self.filling();
        let mut got: String = String::new();
        let mut i: usize = 0;
        assert(got@ =~= Seq::<char>::empty());
        while i < word.len()
            invariant
                i <= word.len(),
                self.wf(),
                self.used <= max || got@.len() == 0,
                put_long(f0, Seq::empty(), word@, 0, style, max as nat) == put_long(
                    self.filling(),
                    got@,
                    word@,
                    i as int,
                    style,
                    max as nat,
                ),
            decreases word.len() - i,
        {
            let cw: usize = width_of_char(word[i]);
            let gw: usize = width(got.as_str());
            if self.used + gw as u128 + cw as u128 > max as u128 {
                self.add(got.as_str(), style);
                self.next();
                got = String::new();
                got.push(word[i]);
                assert(got@ =~= seq![word@[i as int]]);
            } else {
                got.push(word[i]);
            }
            i += 1;
        }
        self.add(got.as_str(), style);
    }

    fn word(&mut self, word: &Vec<char>, style: Style, max: usize)
        requires
            old(self).wf(),
        ensures
            final(self).wf(),
            final(self).filling() == put_word(old(self).filling(), word@, style, max as nat),
    {
        let s: String = string_of(word);
        let w: usize = width(s.as_str());
        if self.used + w as u128 <= max as u128 {
            self.add(s.as_str(), style);
        } else if w <= max {
            self.trim();
            self.next();
            self.add(s.as_str(), style);
        } else {
            self.long_word(word, style, max);
        }
    }

    fn space(&mut self, style: Style, max: usize)
        requires
            old(self).wf(),
        ensures
            final(self).wf(),
            final(self).filling() == put_space(old(self).filling(), style, max as nat),
    {
        if self.used == 0 {
            return;
        }
        if self.used + 1 > max as u128 {
            self.next();
            return;
        }
        proof {
            reveal_strlit(" ");
            assert(" "@ =~= seq![' ']);
        }
        self.add(" ", style);
    }

    fn line(&mut self, line: &Vec<char>, style: Style, max: usize)
        requires
            old(self).wf(),
        ensures
            final(self).wf(),
            final(self).filling() == put_line(old(self).filling(), line@, 0, style, max as nat),
    {
        let ghost f0 = self.filling();
        let mut i: usize = 0;
        while i < line.len()
            invariant
                i <= line.len(),
                self.wf(),
                put_line(f0, line@, 0, style, max as nat) == put_line(
                    self.filling(),
                    line@,
                    i as int,
                    style,
                    max as nat,
                ),
            decreases line.len() - i,
        {
            if line[i] == ' ' {
                self.space(style, max);
                i += 1;
            } else {
                let end: usize = find_from(line, ' ', i);
                assert(end > i) by {
                    lemma_position_from(line@, ' ', i + 1);
                }
                let w: Vec<char> = piece(line, i, end);
                self.word(&w, style, max);
                i = end;
            }
        }
    }

    fn lines(&mut self, lines: &Vec<Vec<char>>, style: Style, max: usize)
        requires
            old(self).wf(),
        ensures
            final(self).wf(),
            final(self).filling() == put_lines(old(self).filling(), views(lines@), style, max as nat),
    {
        let ghost f0 = self.filling();
        let ghost all = views(lines@);
        let mut i: usize = 0;
        assert(all.take(0) =~= Seq::<Seq<char>>::empty());
        while i < lines.len()
            invariant
                i <= lines.len(),
                self.wf(),
                all == views(lines@),
                self.filling() == put_lines(f0, all.take(i as int), style, max as nat),
            decreases lines.len() - i,
        {
            assert(all.take(i + 1).drop_last() =~= all.take(i as int));
            assert(all.take(i + 1).last() == lines@[i as int]@);
            if i > 0 {
                self.next();
            }
            self.line(&lines[i], style, max);
            i += 1;
        }
        assert(all.take(i as int) =~= all);
    }
}

/// Style-preserving greedy word wrap. Returns rows of spans. Where every word fits in a row or can
/// be broken between any two characters, no row is wider than the limit; that is so of all text
/// in printable ASCII.
pub fn wrap_segments(segs: &Vec<Span>, max_w: usize) -> (r: Vec<Vec<Span>>)
    ensures
        rows_view(r@) == wrapped(views(segs@), max_w as int),
        r@.len() > 0,
        (forall|k: int| 0 <= k < segs@.len() ==> text_fits((#[trigger] segs@[k])@.text, row_limit(max_w as int)))
            ==> rows_fit(rows_view(r@), row_limit(max_w as int)),
        (forall|k: int| 0 <= k < segs@.len() ==> is_plain((#[trigger] segs@[k])@.text)) ==> rows_fit(
            rows_view(r@),
            row_limit(max_w as int),
        ),
{
    let _ = width("");
    proof {
        reveal_strlit("");
        assert(""@ =~= Seq::<char>::empty());
        assert forall|t: Seq<char>| is_printable(t) implies #[trigger] text_width(t) == t.len() by {
            assert(""@ + t =~= t);
        }
        assert(is_printable(seq![' ']));
        assert(text_width(seq![' ']) == 1);
        assert(text_width(Seq::<char>::empty()) == 0);
        if forall|k: int| 0 <= k < segs@.len() ==> is_plain((#[trigger] segs@[k])@.text) {
            assert forall|k: int| 0 <= k < segs@.len() implies text_fits(
                (#[trigger] segs@[k])@.text,
                row_limit(max_w as int),
            ) by {
                lemma_plain_fits(segs@[k]@.text, row_limit(max_w as int));
            }
        }
        if forall|k: int| 0 <= k < segs@.len() ==> text_fits((#[trigger] segs@[k])@.text, row_limit(max_w as int)) {
            assert forall|k: int| 0 <= k < views(segs@).len() implies text_fits(
                (#[trigger] views(segs@)[k]).text,
                row_limit(max_w as int),
            ) by {
                assert(text_fits(segs@[k]@.text, row_limit(max_w as int)));
            }
            lemma_wrapped_fits(views(segs@), max_w as int);
        }
    }
    let max: usize = if max_w < 4 { 4 } else { max_w };
    let first: Vec<Span> = Vec::new();
    assert(views(first@) =~= Seq::<SpanV>::empty());
    let mut start: Vec<Vec<Span>> = Vec::new();
    start.push(first);
    let mut fill: Rows = Rows { rows: start, used: 0 };
    assert(fill.filling() =~= empty_filling());
    let ghost all = views(segs@);
    let mut i: usize = 0;
    assert(all.take(0) =~= Seq::<SpanV>::empty());
    while i < segs.len()
        invariant
            i <= segs.len(),
            fill.wf(),
            all == views(segs@),
            fill.filling() == put_spans(all.take(i as int), max as nat),
        decreases segs.len() - i,
    {
        assert(all.take(i + 1).drop_last() =~= all.take(i as int));
        assert(all.take(i + 1).last() == segs@[i as int]@);
        let lines: Vec<Vec<char>> = split_on(&chars_of(segs[i].text.as_str()), '\n');
        fill.lines(&lines, segs[i].style, max);
        i += 1;
    }
    assert(all.take(i as int) =~= all);
    let filled: Vec<Vec<Span>> = fill.rows;
    let ghost rows = rows_view(filled@);
    let mut out: Vec<Vec<Span>> = Vec::new();
    let mut k: usize = 0;
    while k < filled.len()
        invariant
            k <= filled.len(),
            rows == rows_view(filled@),
            out@.len() == k,
            forall|j: int| 0 <= j < k ==> #[trigger] rows_view(out@)[j] == trimmed_row(rows[j]),
        decreases filled.len() - k,
    {
        let mut copy: Vec<Span> = Vec::new();
        let mut j: usize = 0;
        while j < filled[k].len()
            invariant
                k < filled@.len(),
                j <= filled@[k as int]@.len(),
                copy@.len() == j,
                forall|p: int| 0 <= p < j ==> #[trigger] copy@[p]@ == filled@[k as int]@[p]@,
            decreases filled@[k as int]@.len() - j,
        {
            copy.push(filled[k][j].clone());
            j += 1;
        }
        assert(views(copy@) =~= rows[k as int]);
        let t: Vec<Span> = trim_row(copy);
        let ghost before = rows_view(out@);
        let ghost tv = views(t@);
        out.push(t);
        assert(rows_view(out@) =~= before.push(tv));
        k += 1;
    }
    assert(rows_view(out@) =~= trim_rows(rows));
    let ghost want = drop_blank(trim_rows(rows));
    while out.len() > 1 && out[out.len() - 1].len() == 0
        invariant
            out@.len() > 0,
            drop_blank(rows_view(out@)) == want,
        decreases out@.len(),
    {
        let ghost before = rows_view(out@);
        assert(before.last() =~= Seq::<SpanV>::empty());
        let _ = out.pop();
        assert(rows_view(out@) =~= before.drop_last());
    }
    assert(rows_view(out@).last().len() == out@.last()@.len());
    out
}

// ----- laws -----

/// The characters of a text that are not white space, each with its style.
pub open spec fn ink(s: Seq<char>, style: Style) -> Seq<(char, Style)>
    decreases s.len(),
{
    if s.len() == 0 {
        Seq::empty()
    } else if is_white(s.last()) {
        ink(s.drop_last(), style)
    } else {
        ink(s.drop_last(), style).push((s.last(), style))
    }
}

/// The characters of spans that are not white space, each with its style.
pub open spec fn row_ink(row: Seq<SpanV>) -> Seq<(char, Style)>
    decreases row.len(),
{
    if row.len() == 0 {
        Seq::empty()
    } else {
        row_ink(row.drop_last()) + ink(row.last().text, row.last().style)
    }
}

/// The characters of rows that are not white space, each with its style.
pub open spec fn rows_ink(rows: Seq<Seq<SpanV>>) -> Seq<(char, Style)>
    decreases rows.len(),
{
    if rows.len() == 0 {
        Seq::empty()
    } else {
        rows_ink(rows.drop_last()) + row_ink(rows.last())
    }
}

/// The characters of lines that are not white space, each with its style.
spec fn lines_ink(lines: Seq<Seq<char>>, style: Style) -> Seq<(char, Style)>
    decreases lines.len(),
{
    if lines.len() == 0 {
        Seq::empty()
    } else {
        lines_ink(lines.drop_last(), style) + ink(lines.last(), style)
    }
}

proof fn lemma_ink_add(a: Seq<char>, b: Seq<char>, style: Style)
    ensures
        ink(a + b, style) == ink(a, style) + ink(b, style),
    decreases b.len(),
{
    if b.len() == 0 {
        assert(a + b =~= a);
        assert(ink(a, style) + ink(b, style) =~= ink(a, style));
    } else {
        lemma_ink_add(a, b.drop_last(), style);
        assert((a + b).drop_last() =~= a + b.drop_last());
        assert(ink(a + b, style) =~= ink(a, style) + ink(b, style));
    }
}

proof fn lemma_ink_trim(s: Seq<char>, style: Style)
    ensures
        ink(trim_end(s, Class::White), style) == ink(s, style),
    decreases s.len(),
{
    if s.len() > 0 && is_white(s.last()) {
        lemma_ink_trim(s.drop_last(), style);
    }
}

proof fn lemma_trim_row_ink(row: Seq<SpanV>)
    ensures
        row_ink(trimmed_row(row)) == row_ink(row),
    decreases row.len(),
{
    if row.len() > 0 {
        let t = trim_end(row.last().text, Class::White);
        lemma_ink_trim(row.last().text, row.last().style);
        if t.len() == 0 {
            lemma_trim_row_ink(row.drop_last());
            assert(row_ink(row) =~= row_ink(row.drop_last()));
        } else {
            let r = trimmed_row(row);
            assert(r.drop_last() =~= row.drop_last());
        }
    }
}

proof fn lemma_put_ink(f: Filling, text: Seq<char>, style: Style)
    requires
        f.rows.len() > 0,
    ensures
        rows_ink(put(f, text, style).rows) == rows_ink(f.rows) + ink(text, style),
        put(f, text, style).rows.len() > 0,
{
    if text.len() == 0 {
        assert(rows_ink(f.rows) + ink(text, style) =~= rows_ink(f.rows));
    } else {
        let g = put(f, text, style).rows;
        let row = f.rows.last().push(span_of(text, style));
        assert(g.drop_last() =~= f.rows.drop_last());
        assert(g.last() == row);
        assert(row.drop_last() =~= f.rows.last());
        assert(rows_ink(g) =~= rows_ink(f.rows) + ink(text, style));
    }
}

proof fn lemma_next_ink(f: Filling)
    ensures
        rows_ink(next_row(f).rows) == rows_ink(f.rows),
{
    let g = next_row(f).rows;
    assert(g.drop_last() =~= f.rows);
    assert(rows_ink(g) =~= rows_ink(f.rows));
}

proof fn lemma_trim_last_ink(f: Filling)
    requires
        f.rows.len() > 0,
    ensures
        rows_ink(trim_last(f).rows) == rows_ink(f.rows),
{
    let g = trim_last(f).rows;
    lemma_trim_row_ink(f.rows.last());
    assert(g.drop_last() =~= f.rows.drop_last());
}

proof fn lemma_long_ink(f: Filling, got: Seq<char>, word: Seq<char>, i: int, style: Style, max: nat)
    requires
        f.rows.len() > 0,
        0 <= i <= word.len(),
    ensures
        rows_ink(put_long(f, got, word, i, style, max).rows) == rows_ink(f.rows) + ink(got, style) + ink(
            word.skip(i),
            style,
        ),
        put_long(f, got, word, i, style, max).rows.len() > 0,
    decreases word.len() - i,
{
    if i == word.len() {
        lemma_put_ink(f, got, style);
        assert(word.skip(i) =~= Seq::<char>::empty());
        assert(rows_ink(f.rows) + ink(got, style) + ink(word.skip(i), style) =~= rows_ink(f.rows) + ink(got, style));
    } else {
        let c = seq![word[i]];
        assert(word.skip(i) =~= c + word.skip(i + 1));
        lemma_ink_add(c, word.skip(i + 1), style);
        if f.used + text_width(got) + char_width(word[i]) > max {
            let g = put(f, got, style);
            lemma_put_ink(f, got, style);
            lemma_next_ink(g);
            lemma_long_ink(next_row(g), c, word, i + 1, style, max);
            let tail = ink(word.skip(i + 1), style);
            assert(rows_ink(f.rows) + ink(got, style) + (ink(c, style) + tail) =~= rows_ink(f.rows) + ink(got, style) + ink(
                c,
                style,
            ) + tail);
        } else {
            lemma_long_ink(f, got.push(word[i]), word, i + 1, style, max);
            assert(got.push(word[i]) =~= got + c);
            lemma_ink_add(got, c, style);
            let tail = ink(word.skip(i + 1), style);
            assert(rows_ink(f.rows) + (ink(got, style) + ink(c, style)) + tail =~= rows_ink(f.rows) + ink(got, style) + (ink(
                c,
                style,
            ) + tail));
        }
    }
}

proof fn lemma_word_ink(f: Filling, word: Seq<char>, style: Style, max: nat)
    requires
        f.rows.len() > 0,
    ensures
        rows_ink(put_word(f, word, style, max).rows) == rows_ink(f.rows) + ink(word, style),
        put_word(f, word, style, max).rows.len() > 0,
{
    if f.used + text_width(word) <= max {
        lemma_put_ink(f, word, style);
    } else if text_width(word) <= max {
        lemma_trim_last_ink(f);
        lemma_next_ink(trim_last(f));
        lemma_put_ink(next_row(trim_last(f)), word, style);
    } else {
        lemma_long_ink(f, Seq::empty(), word, 0, style, max);
        assert(word.skip(0) =~= word);
        assert(rows_ink(f.rows) + ink(Seq::empty(), style) + ink(word, style) =~= rows_ink(f.rows) + ink(word, style));
    }
}

proof fn lemma_space_ink(f: Filling, style: Style, max: nat)
    requires
        f.rows.len() > 0,
    ensures
        rows_ink(put_space(f, style, max).rows) == rows_ink(f.rows),
        put_space(f, style, max).rows.len() > 0,
{
    lemma_next_ink(f);
    lemma_put_ink(f, seq![' '], style);
    let s = seq![' '];
    assert(s.drop_last() =~= Seq::<char>::empty());
    assert(ink(s, style) == ink(s.drop_last(), style));
    assert(rows_ink(f.rows) + ink(s, style) =~= rows_ink(f.rows));
}

proof fn lemma_line_ink(f: Filling, line: Seq<char>, i: int, style: Style, max: nat)
    requires
        f.rows.len() > 0,
        0 <= i <= line.len(),
    ensures
        rows_ink(put_line(f, line, i, style, max).rows) == rows_ink(f.rows) + ink(line.skip(i), style),
        put_line(f, line, i, style, max).rows.len() > 0,
    decreases line.len() - i,
{
    if i == line.len() {
        assert(line.skip(i) =~= Seq::<char>::empty());
        assert(rows_ink(f.rows) + ink(line.skip(i), style) =~= rows_ink(f.rows));
    } else if line[i] == ' ' {
        let s = seq![' '];
        lemma_space_ink(f, style, max);
        lemma_line_ink(put_space(f, style, max), line, i + 1, style, max);
        assert(line.skip(i) =~= s + line.skip(i + 1));
        lemma_ink_add(s, line.skip(i + 1), style);
        assert(s.drop_last() =~= Seq::<char>::empty());
        assert(ink(s, style) == ink(s.drop_last(), style));
        assert(ink(s, style) + ink(line.skip(i + 1), style) =~= ink(line.skip(i + 1), style));
    } else {
        let end = position_from(line, ' ', i);
        lemma_position_from(line, ' ', i + 1);
        let w = line.subrange(i, end);
        lemma_word_ink(f, w, style, max);
        lemma_line_ink(put_word(f, w, style, max), line, end, style, max);
        assert(line.skip(i) =~= w + line.skip(end));
        lemma_ink_add(w, line.skip(end), style);
        let tail = ink(line.skip(end), style);
        assert(rows_ink(f.rows) + ink(w, style) + tail =~= rows_ink(f.rows) + (ink(w, style) + tail));
    }
}

proof fn lemma_lines_ink(f: Filling, lines: Seq<Seq<char>>, style: Style, max: nat)
    requires
        f.rows.len() > 0,
    ensures
        rows_ink(put_lines(f, lines, style, max).rows) == rows_ink(f.rows) + lines_ink(lines, style),
        put_lines(f, lines, style, max).rows.len() > 0,
    decreases lines.len(),
{
    if lines.len() == 0 {
        assert(rows_ink(f.rows) + lines_ink(lines, style) =~= rows_ink(f.rows));
    } else {
        let before = put_lines(f, lines.drop_last(), style, max);
        lemma_lines_ink(f, lines.drop_last(), style, max);
        lemma_next_ink(before);
        let start = if lines.len() > 1 {
            next_row(before)
        } else {
            before
        };
        lemma_line_ink(start, lines.last(), 0, style, max);
        assert(lines.last().skip(0) =~= lines.last());
        let head = lines_ink(lines.drop_last(), style);
        let last = ink(lines.last(), style);
        assert(rows_ink(f.rows) + head + last =~= rows_ink(f.rows) + (head + last));
    }
}

proof fn lemma_split_ink(s: Seq<char>, style: Style)
    ensures
        lines_ink(split(s, '\n'), style) == ink(s, style),
        split(s, '\n').len() > 0,
    decreases s.len(),
{
    let p = split(s, '\n');
    if s.len() == 0 {
        assert(p.drop_last() =~= Seq::<Seq<char>>::empty());
        assert(lines_ink(p.drop_last(), style) == Seq::<(char, Style)>::empty());
        assert(ink(p.last(), style) == Seq::<(char, Style)>::empty());
        assert(lines_ink(p, style) =~= ink(s, style));
    } else {
        let q = split(s.drop_last(), '\n');
        lemma_split_ink(s.drop_last(), style);
        if s.last() == '\n' {
            assert(p.drop_last() =~= q);
            assert(lines_ink(p, style) =~= ink(s, style));
        } else {
            let l = q.last().push(s.last());
            assert(p.drop_last() =~= q.drop_last());
            assert(p.last() == l);
            assert(l.drop_last() =~= q.last());
            assert(lines_ink(p, style) =~= ink(s, style));
        }
    }
}

proof fn lemma_spans_ink(segs: Seq<SpanV>, max: nat)
    ensures
        rows_ink(put_spans(segs, max).rows) == row_ink(segs),
        put_spans(segs, max).rows.len() > 0,
    decreases segs.len(),
{
    if segs.len() == 0 {
        let r = empty_filling().rows;
        assert(r.drop_last() =~= Seq::<Seq<SpanV>>::empty());
        assert(rows_ink(r.drop_last()) == Seq::<(char, Style)>::empty());
        assert(row_ink(r.last()) == Seq::<(char, Style)>::empty());
        assert(rows_ink(r) =~= Seq::<(char, Style)>::empty());
    } else {
        let f = put_spans(segs.drop_last(), max);
        lemma_spans_ink(segs.drop_last(), max);
        lemma_lines_ink(f, split(segs.last().text, '\n'), segs.last().style, max);
        lemma_split_ink(segs.last().text, segs.last().style);
    }
}

proof fn lemma_trim_rows_ink(rows: Seq<Seq<SpanV>>)
    ensures
        rows_ink(trim_rows(rows)) == rows_ink(rows),
    decreases rows.len(),
{
    if rows.len() > 0 {
        lemma_trim_rows_ink(rows.drop_last());
        lemma_trim_row_ink(rows.last());
        assert(trim_rows(rows).drop_last() =~= trim_rows(rows.drop_last()));
    }
}

proof fn lemma_drop_blank_ink(rows: Seq<Seq<SpanV>>)
    ensures
        rows_ink(drop_blank(rows)) == rows_ink(rows),
    decreases rows.len(),
{
    if rows.len() > 1 && rows.last().len() == 0 {
        lemma_drop_blank_ink(rows.drop_last());
        assert(rows_ink(rows) =~= rows_ink(rows.drop_last()));
    }
}

/// Wrapping loses no character but white space, and keeps all others in their order and each in its
/// style.
pub proof fn wrapping_keeps_the_text(segs: Seq<SpanV>, max: int)
    ensures
        rows_ink(wrapped(segs, max)) == row_ink(segs),
{
    let rows = put_spans(segs, row_limit(max)).rows;
    lemma_spans_ink(segs, row_limit(max));
    lemma_trim_rows_ink(rows);
    lemma_drop_blank_ink(trim_rows(rows));
}

/// The columns that the spans of a row take together.
pub open spec fn row_columns(row: Seq<SpanV>) -> nat
    decreases row.len(),
{
    if row.len() == 0 {
        0
    } else {
        row_columns(row.drop_last()) + text_width(row.last().text)
    }
}

/// A word that can be broken between any two characters: each character fits in a row, and makes
/// what it stands behind no wider than by its own width.
pub open spec fn breaks_evenly(word: Seq<char>, max: nat) -> bool {
    &&& forall|k: int| 0 <= k < word.len() ==> char_width(#[trigger] word[k]) <= max
    &&& forall|a: int, k: int|
        0 <= a <= k < word.len() ==> text_width((#[trigger] word.subrange(a, k)).push(#[trigger] word[k]))
            <= text_width(word.subrange(a, k)) + char_width(word[k])
}

/// Every word of a line fits in a row or can be broken, and all its white space is spaces.
pub open spec fn line_fits(line: Seq<char>, max: nat) -> bool {
    &&& forall|i: int, j: int|
        0 <= i < j <= line.len() && (forall|k: int| i <= k < j ==> #[trigger] line[k] != ' ') ==> text_width(
            #[trigger] line.subrange(i, j),
        ) <= max || breaks_evenly(line.subrange(i, j), max)
    &&& forall|k: int| 0 <= k < line.len() && is_white(#[trigger] line[k]) ==> line[k] == ' '
}

/// A text of printable characters of ASCII and line feeds.
pub open spec fn is_plain(text: Seq<char>) -> bool {
    forall|i: int| 0 <= i < text.len() ==> ' ' <= (#[trigger] text[i]) <= '~' || text[i] == '\n'
}

/// Every word of every line of a text fits in a row or can be broken.
pub open spec fn text_fits(text: Seq<char>, max: nat) -> bool {
    forall|k: int| 0 <= k < split(text, '\n').len() ==> line_fits(#[trigger] split(text, '\n')[k], max)
}

/// Every row takes at most `max` columns.
pub open spec fn rows_fit(rows: Seq<Seq<SpanV>>, max: nat) -> bool {
    forall|i: int| 0 <= i < rows.len() ==> row_columns(#[trigger] rows[i]) <= max
}

/// A text that is all white space, or has none at its end.
spec fn clean_end(t: Seq<char>) -> bool {
    trim_end(t, Class::White).len() == 0 || trim_end(t, Class::White) == t
}

spec fn row_within(row: Seq<SpanV>, max: nat) -> bool {
    row_columns(row) <= max && forall|i: int| 0 <= i < row.len() ==> clean_end((#[trigger] row[i]).text)
}

/// Rows that are filled no further than `max`, with the use of the last one told right.
spec fn within(f: Filling, max: nat) -> bool {
    &&& f.rows.len() > 0
    &&& f.used == row_columns(f.rows.last())
    &&& forall|i: int| 0 <= i < f.rows.len() ==> row_within(#[trigger] f.rows[i], max)
}

proof fn lemma_trim_within(row: Seq<SpanV>, max: nat)
    requires
        row_within(row, max),
    ensures
        row_within(trimmed_row(row), max),
    decreases row.len(),
{
    if row.len() > 0 {
        let l = row.drop_last();
        let t = trim_end(row.last().text, Class::White);
        assert(clean_end(row[row.len() - 1].text));
        assert forall|i: int| 0 <= i < l.len() implies clean_end((#[trigger] l[i]).text) by {
            assert(clean_end(row[i].text));
        }
        if t.len() == 0 {
            lemma_trim_within(l, max);
        } else {
            assert(l.push(span_of(t, row.last().style)) =~= row);
        }
    }
}

proof fn lemma_put_within(f: Filling, text: Seq<char>, style: Style, max: nat)
    requires
        within(f, max),
        f.used + text_width(text) <= max,
        clean_end(text),
    ensures
        within(put(f, text, style), max),
{
    if text.len() > 0 {
        let last = f.rows[f.rows.len() - 1];
        let row = last.push(span_of(text, style));
        assert(row.drop_last() =~= last);
        assert(row_within(last, max));
        let g = put(f, text, style);
        assert forall|i: int| 0 <= i < row.len() implies clean_end((#[trigger] row[i]).text) by {
            if i < last.len() {
                assert(clean_end(last[i].text));
            }
        }
        assert forall|i: int| 0 <= i < g.rows.len() implies row_within(#[trigger] g.rows[i], max) by {
            if i < g.rows.len() - 1 {
                assert(g.rows[i] == f.rows[i]);
            }
        }
    }
}

proof fn lemma_next_within(f: Filling, max: nat)
    requires
        forall|i: int| 0 <= i < f.rows.len() ==> row_within(#[trigger] f.rows[i], max),
    ensures
        within(next_row(f), max),
{
    let g = next_row(f);
    assert forall|i: int| 0 <= i < g.rows.len() implies row_within(#[trigger] g.rows[i], max) by {
        if i < f.rows.len() {
            assert(g.rows[i] == f.rows[i]);
        }
    }
}

proof fn lemma_long_within(f: Filling, word: Seq<char>, a: int, i: int, style: Style, max: nat)
    requires
        within(f, max),
        0 <= a <= i <= word.len(),
        f.used + text_width(word.subrange(a, i)) <= max,
        breaks_evenly(word, max),
        forall|k: int| 0 <= k < word.len() ==> !is_white(#[trigger] word[k]),
    ensures
        within(put_long(f, word.subrange(a, i), word, i, style, max), max),
    decreases word.len() - i,
{
    let got = word.subrange(a, i);
    if got.len() > 0 {
        assert(got.last() == word[i - 1]);
    }
    assert(clean_end(got));
    lemma_put_within(f, got, style, max);
    if i < word.len() {
        let c = word[i];
        if f.used + text_width(got) + char_width(c) > max {
            let g = put(f, got, style);
            lemma_next_within(g, max);
            assert(word.subrange(i, i + 1) =~= seq![c]);
            lemma_long_within(next_row(g), word, i, i + 1, style, max);
        } else {
            assert(word.subrange(a, i + 1) =~= got.push(c));
            lemma_long_within(f, word, a, i + 1, style, max);
        }
    }
}

proof fn lemma_split_plain(s: Seq<char>)
    requires
        is_plain(s),
    ensures
        split(s, '\n').len() > 0,
        forall|k: int| 0 <= k < split(s, '\n').len() ==> is_printable(#[trigger] split(s, '\n')[k]),
    decreases s.len(),
{
    if s.len() > 0 {
        let d = s.drop_last();
        assert(is_plain(d)) by {
            assert forall|i: int| 0 <= i < d.len() implies ' ' <= (#[trigger] d[i]) <= '~' || d[i] == '\n' by {
                assert(d[i] == s[i]);
            }
        }
        lemma_split_plain(d);
        let q = split(d, '\n');
        let p = split(s, '\n');
        let c = s[s.len() - 1];
        assert forall|k: int| 0 <= k < p.len() implies is_printable(#[trigger] p[k]) by {
            if c == '\n' {
                if k < q.len() {
                    assert(p[k] == q[k]);
                }
            } else if k < q.len() - 1 {
                assert(p[k] == q[k]);
            } else {
                let l = q[q.len() - 1];
                assert(p[k] == l.push(c));
                assert(is_printable(l));
            }
        }
    }
}

proof fn lemma_plain_fits(text: Seq<char>, max: nat)
    requires
        is_plain(text),
        max >= 1,
        forall|t: Seq<char>| is_printable(t) ==> #[trigger] text_width(t) == t.len(),
    ensures
        text_fits(text, max),
{
    lemma_split_plain(text);
    let lines = split(text, '\n');
    assert forall|n: int| 0 <= n < lines.len() implies line_fits(#[trigger] lines[n], max) by {
        let line = lines[n];
        assert(is_printable(line));
        assert forall|i: int, j: int|
            0 <= i < j <= line.len() && (forall|k: int| i <= k < j ==> #[trigger] line[k] != ' ') implies text_width(
            #[trigger] line.subrange(i, j),
        ) <= max || breaks_evenly(line.subrange(i, j), max) by {
            lemma_printable_breaks(line, i, j, max);
        }
    }
}

proof fn lemma_printable_breaks(line: Seq<char>, i: int, j: int, max: nat)
    requires
        is_printable(line),
        0 <= i < j <= line.len(),
        max >= 1,
        forall|t: Seq<char>| is_printable(t) ==> #[trigger] text_width(t) == t.len(),
    ensures
        breaks_evenly(line.subrange(i, j), max),
{
    let word = line.subrange(i, j);
    assert forall|k: int| 0 <= k < word.len() implies ' ' <= (#[trigger] word[k]) <= '~' by {
        assert(word[k] == line[i + k]);
    }
    assert forall|k: int| 0 <= k < word.len() implies char_width(#[trigger] word[k]) <= max by {
        assert(is_printable(seq![word[k]]));
    }
    assert forall|a: int, k: int| 0 <= a <= k < word.len() implies text_width(
        (#[trigger] word.subrange(a, k)).push(#[trigger] word[k]),
    ) <= text_width(word.subrange(a, k)) + char_width(word[k]) by {
        let t = word.subrange(a, k);
        assert forall|m: int| 0 <= m < t.len() implies ' ' <= (#[trigger] t[m]) <= '~' by {
            assert(t[m] == word[a + m]);
        }
        assert(is_printable(t));
        assert(is_printable(t.push(word[k])));
        assert(is_printable(seq![word[k]]));
    }
}

proof fn lemma_line_within(f: Filling, line: Seq<char>, i: int, style: Style, max: nat)
    requires
        within(f, max),
        line_fits(line, max),
        text_width(seq![' ']) == 1,
        text_width(Seq::<char>::empty()) == 0,
        0 <= i <= line.len(),
    ensures
        within(put_line(f, line, i, style, max), max),
    decreases line.len() - i,
{
    if i < line.len() {
        if line[i] == ' ' {
            let s = seq![' '];
            assert(s.drop_last() =~= Seq::<char>::empty());
            assert(trim_end(s, Class::White) == trim_end(s.drop_last(), Class::White));
            lemma_next_within(f, max);
            if f.used > 0 && f.used + 1 <= max {
                lemma_put_within(f, s, style, max);
            }
            lemma_line_within(put_space(f, style, max), line, i + 1, style, max);
        } else {
            let end = position_from(line, ' ', i);
            lemma_position_from(line, ' ', i);
            lemma_position_from(line, ' ', i + 1);
            let w = line.subrange(i, end);
            assert(text_width(w) <= max || breaks_evenly(w, max));
            assert(w.last() == line[end - 1]);
            assert(!is_white(w.last()));
            assert(clean_end(w));
            if f.used + text_width(w) <= max {
                lemma_put_within(f, w, style, max);
            } else if text_width(w) > max {
                assert(w.subrange(0, 0) =~= Seq::<char>::empty());
                assert forall|k: int| 0 <= k < w.len() implies !is_white(#[trigger] w[k]) by {
                    assert(w[k] == line[i + k]);
                }
                lemma_long_within(f, w, 0, 0, style, max);
            } else {
                let g = trim_last(f);
                assert forall|k: int| 0 <= k < g.rows.len() implies row_within(#[trigger] g.rows[k], max) by {
                    assert(row_within(f.rows[k], max));
                    if k < g.rows.len() - 1 {
                        assert(g.rows[k] == f.rows[k]);
                    } else {
                        lemma_trim_within(f.rows[k], max);
                    }
                }
                lemma_next_within(g, max);
                lemma_put_within(next_row(g), w, style, max);
            }
            lemma_line_within(put_word(f, w, style, max), line, end, style, max);
        }
    }
}

proof fn lemma_lines_within(f: Filling, lines: Seq<Seq<char>>, style: Style, max: nat)
    requires
        within(f, max),
        forall|k: int| 0 <= k < lines.len() ==> line_fits(#[trigger] lines[k], max),
        text_width(seq![' ']) == 1,
        text_width(Seq::<char>::empty()) == 0,
    ensures
        within(put_lines(f, lines, style, max), max),
    decreases lines.len(),
{
    if lines.len() > 0 {
        let l = lines.drop_last();
        assert forall|k: int| 0 <= k < l.len() implies line_fits(#[trigger] l[k], max) by {
            assert(line_fits(lines[k], max));
        }
        lemma_lines_within(f, l, style, max);
        let before = put_lines(f, l, style, max);
        lemma_next_within(before, max);
        let start = if lines.len() > 1 {
            next_row(before)
        } else {
            before
        };
        assert(line_fits(lines[lines.len() - 1], max));
        lemma_line_within(start, lines.last(), 0, style, max);
    }
}

proof fn lemma_spans_within(segs: Seq<SpanV>, max: nat)
    requires
        forall|k: int| 0 <= k < segs.len() ==> text_fits((#[trigger] segs[k]).text, max),
        text_width(seq![' ']) == 1,
        text_width(Seq::<char>::empty()) == 0,
    ensures
        within(put_spans(segs, max), max),
    decreases segs.len(),
{
    if segs.len() > 0 {
        let l = segs.drop_last();
        assert forall|k: int| 0 <= k < l.len() implies text_fits((#[trigger] l[k]).text, max) by {
            assert(text_fits(segs[k].text, max));
        }
        lemma_spans_within(l, max);
        assert(text_fits(segs[segs.len() - 1].text, max));
        lemma_lines_within(put_spans(l, max), split(segs.last().text, '\n'), segs.last().style, max);
    }
}

proof fn lemma_blank_within(rows: Seq<Seq<SpanV>>, max: nat)
    requires
        rows_fit(rows, max),
    ensures
        rows_fit(drop_blank(rows), max),
    decreases rows.len(),
{
    if rows.len() > 1 && rows.last().len() == 0 {
        let l = rows.drop_last();
        assert forall|i: int| 0 <= i < l.len() implies row_columns(#[trigger] l[i]) <= max by {
            assert(row_columns(rows[i]) <= max);
        }
        lemma_blank_within(l, max);
    }
}

proof fn lemma_wrapped_fits(segs: Seq<SpanV>, max: int)
    requires
        forall|k: int| 0 <= k < segs.len() ==> text_fits((#[trigger] segs[k]).text, row_limit(max)),
        text_width(seq![' ']) == 1,
        text_width(Seq::<char>::empty()) == 0,
    ensures
        rows_fit(wrapped(segs, max), row_limit(max)),
{
    let m = row_limit(max);
    let rows = put_spans(segs, m).rows;
    lemma_spans_within(segs, m);
    assert forall|i: int| 0 <= i < trim_rows(rows).len() implies row_columns(#[trigger] trim_rows(rows)[i]) <= m by {
        assert(row_within(rows[i], m));
        lemma_trim_within(rows[i], m);
    }
    lemma_blank_within(trim_rows(rows), m);
}

} // verus!
