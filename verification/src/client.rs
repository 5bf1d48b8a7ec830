//! What the client asks of its server.
use crate::config::Config;
use crate::content::{join_path, path_below};
use crate::numbers::{dec_int, decimal_i64};
use crate::text::{cat2, cat3, chars_of, piece, same, str_has_char, string_of, strip_prefix, stripped, views};
use crate::wire::{Attachment, SendRequest};
use vstd::prelude::*;

verus! {

// ----- addresses -----

/// A text with the first occurrence of `p` from `i` on replaced by `r`.
pub open spec fn replace_once(s: Seq<char>, p: Seq<char>, r: Seq<char>, i: int) -> Seq<char>
    decreases s.len() + 1 - i,
{
    if i < 0 || i + p.len() > s.len() {
        s
    } else if s.subrange(i, i + p.len()) == p {
        s.take(i) + r + s.skip(i + p.len())
    } else {
        replace_once(s, p, r, i + 1)
    }
}

impl Config {
    /// The address of something on the server.
    pub fn url(&self, path: &str) -> (r: String)
        ensures
            r@ == self.server@ + path@,
    {
        cat2(self.server.as_str(), path)
    }

    /// The address of the socket: the server's with its first `http` made `ws`, and the token.
    pub fn ws_url(&self) -> (r: String)
        ensures
            r@ == replace_once(self.server@, "http"@, "ws"@, 0) + "/ws?token="@ + self.token@,
    {
        proof {
            reveal_strlit("http");
        }
        let s: Vec<char> = chars_of(self.server.as_str());
        let p: Vec<char> = chars_of("http");
        let mut base: String = self.server.clone();
        let mut i: usize = 0;
        while i < s.len() && s.len() - i >= p.len()
            invariant_except_break
                base@ == s@,
                replace_once(s@, "http"@, "ws"@, 0) == replace_once(s@, "http"@, "ws"@, i as int),
            invariant
                i <= s.len(),
                s@ == self.server@,
                p@ == "http"@,
                "http"@.len() == 4,
            ensures
                base@ == replace_once(s@, "http"@, "ws"@, 0),
            decreases s.len() - i,
        {
            let w: Vec<char> = piece(&s, i, i + p.len());
            if same(&w, &p) {
                let head: String = string_of(&piece(&s, 0, i));
                let tail: String = string_of(&piece(&s, i + p.len(), s.len()));
                assert(head@ =~= s@.take(i as int));
                assert(tail@ =~= s@.skip(i + 4));
                base = cat3(head.as_str(), "ws", tail.as_str());
                break;
            }
            i += 1;
        }
        cat3(base.as_str(), "/ws?token=", self.token.as_str())
    }
}

/// The request for a page of messages.
pub open spec fn page_path(chat_id: int, before: Option<i64>, limit: int) -> Seq<char> {
    let p = "/api/chats/"@ + dec_int(chat_id) + "/messages?limit="@ + dec_int(limit);
    match before {
        Some(b) => p + "&before="@ + dec_int(b as int),
        None => p,
    }
}

/// The request for a page of messages.
pub fn messages_path(chat_id: i64, before: Option<i64>, limit: i64) -> (r: String)
    ensures
        r@ == page_path(chat_id as int, before, limit as int),
{
    let p: String = cat2(
        cat3("/api/chats/", decimal_i64(chat_id).as_str(), "/messages?limit=").as_str(),
        decimal_i64(limit).as_str(),
    );
    match before {
        Some(b) => cat3(p.as_str(), "&before=", decimal_i64(b).as_str()),
        None => p,
    }
}

/// A byte that stands for itself in a query.
pub open spec fn is_plain_byte(b: u8) -> bool {
    65 <= b <= 90 || 97 <= b <= 122 || 48 <= b <= 57 || b == 45 || b == 95 || b == 46 || b == 126
}

/// A digit in base 16, in upper case.
pub open spec fn hex_digit(d: int) -> char {
    if d < 10 {
        (48 + d) as char
    } else {
        (55 + d) as char
    }
}

/// A byte as it stands in a query.
pub open spec fn query_byte(b: u8) -> Seq<char> {
    if is_plain_byte(b) {
        seq![b as char]
    } else if b == 32 {
        seq!['+']
    } else {
        seq!['%', hex_digit(b as int / 16), hex_digit(b as int % 16)]
    }
}

/// Bytes as they stand in a query.
pub open spec fn query_text(bytes: Seq<u8>) -> Seq<char>
    decreases bytes.len(),
{
    if bytes.len() == 0 {
        Seq::empty()
    } else {
        query_text(bytes.drop_last()) + query_byte(bytes.last())
    }
}

fn hex_char(d: u8) -> (r: char)
    requires
        d < 16,
    ensures
        r == hex_digit(d as int),
{
    if d < 10 {
        (48 + d) as char
    } else {
        (55 + d) as char
    }
}

/// A text as it stands in a query: its UTF-8 bytes, letters and digits as they are, a space as a
/// plus sign, anything else in base 16.
pub fn urlencode(s: &str) -> (r: String)
    ensures
        r@ == query_text(vstd::utf8::encode_utf8(s@)),
{
    let bytes: &[u8] = s.as_bytes();
    let ghost all = bytes@;
    let mut out: String = String::new();
    let mut i: usize = 0;
    assert(all.take(0) =~= Seq::<u8>::empty());
    assert(out@ =~= query_text(all.take(0)));
    while i < bytes.len()
        invariant
            i <= bytes@.len(),
            all == bytes@,
            out@ == query_text(all.take(i as int)),
        decreases bytes@.len() - i,
    {
        assert(all.take(i + 1).drop_last() =~= all.take(i as int));
        let b: u8 = bytes[i];
        let ghost before = out@;
        if (65 <= b && b <= 90) || (97 <= b && b <= 122) || (48 <= b && b <= 57) || b == 45 || b == 95 || b == 46 || b
            == 126 {
            out.push(b as char);
        } else if b == 32 {
            out.push('+');
        } else {
            out.push('%');
            out.push(hex_char(b / 16));
            out.push(hex_char(b % 16));
        }
        assert(out@ =~= before + query_byte(b));
        i += 1;
    }
    assert(all.take(i as int) =~= all);
    out
}

/// The request for a search.
pub fn search_path(q: &str) -> (r: String)
    ensures
        r@ == "/api/search?limit=100&q="@ + query_text(vstd::utf8::encode_utf8(q@)),
{
    cat2("/api/search?limit=100&q=", urlencode(q).as_str())
}

/// A text without slashes and backslashes.
pub open spec fn no_slashes(s: Seq<char>) -> Seq<char>
    decreases s.len(),
{
    if s.len() == 0 {
        s
    } else if s.last() == '/' || s.last() == '\\' {
        no_slashes(s.drop_last())
    } else {
        no_slashes(s.drop_last()).push(s.last())
    }
}

/// The name under which an attachment is kept on this machine.
pub fn cache_name(a: &Attachment) -> (r: String)
    ensures
        r@ == dec_int(a.id as int) + "-"@ + no_slashes(a.name@),
{
    let v: Vec<char> = chars_of(a.name.as_str());
    let mut out: String = String::new();
    let mut i: usize = 0;
    assert(v@.take(0) =~= Seq::<char>::empty());
    assert(out@ =~= no_slashes(v@.take(0)));
    while i < v.len()
        invariant
            i <= v.len(),
            out@ == no_slashes(v@.take(i as int)),
        decreases v.len() - i,
    {
        assert(v@.take(i + 1).drop_last() =~= v@.take(i as int));
        if v[i] != '/' && v[i] != '\\' {
            out.push(v[i]);
        }
        i += 1;
    }
    assert(v@.take(i as int) =~= v@);
    cat3(decimal_i64(a.id).as_str(), "-", out.as_str())
}

/// The wait before the next attempt to connect, in seconds: twice the last, at most thirty.
pub fn next_delay(delay: u64) -> (r: u64)
    ensures
        r == if delay >= 15 {
            30
        } else {
            2 * delay
        },
{
    if delay >= 15 {
        30
    } else {
        delay * 2
    }
}

/// A path with a leading `~/` replaced by the home directory.
pub open spec fn tilde_path(p: Seq<char>, home: Seq<char>) -> Seq<char> {
    match strip_prefix(p, "~/"@) {
        Some(rest) => path_below(home, rest),
        None => p,
    }
}

/// A path with a leading `~/` replaced by the home directory.
pub fn expand_tilde(p: &str, home: &str) -> (r: String)
    ensures
        r@ == tilde_path(p@, home@),
{
    match stripped(&chars_of(p), "~/") {
        Some(rest) => join_path(home, string_of(&rest).as_str()),
        None => p.to_owned(),
    }
}

/// A request to send from the command line: a guid holds a semicolon, anything else is an
/// address.
pub fn command_request(to: &str, text: Option<String>, uploads: Vec<String>) -> (r: SendRequest)
    ensures
        r.chat_guid is Some <==> to@.contains(';'),
        r.chat_guid matches Some(g) ==> g@ == to@ && r.to@.len() == 0,
        r.chat_guid is None ==> views(r.to@) == seq![to@],
        r.text == text,
        r.uploads == uploads,
        r.paths@.len() == 0,
{
    let mut r: SendRequest = SendRequest { chat_guid: None, to: Vec::new(), text, uploads, paths: Vec::new() };
    if str_has_char(to, ';') {
        r.chat_guid = Some(to.to_owned());
    } else {
        r.to.push(to.to_owned());
        assert(views(r.to@) =~= seq![to@]);
    }
    r
}

/// An encoded query holds no character that has a meaning of its own in an address.
pub proof fn queries_are_plain(bytes: Seq<u8>, i: int)
    requires
        0 <= i < query_text(bytes).len(),
    ensures
        ({
            let c = query_text(bytes)[i];
            c == '+' || c == '%' || exists|b: u8| #[trigger] is_plain_byte(b) && c == b as char
        }),
    decreases bytes.len(),
{
    let head = query_text(bytes.drop_last());
    if i < head.len() {
        queries_are_plain(bytes.drop_last(), i);
    } else {
        let b = bytes.last();
        if is_plain_byte(b) {
        } else if b != 32 {
            let hi = b as int / 16;
            let lo = b as int % 16;
            assert(is_plain_byte((if hi < 10 { 48 + hi } else { 55 + hi }) as u8));
            assert(is_plain_byte((if lo < 10 { 48 + lo } else { 55 + lo }) as u8));
            assert(query_text(bytes)[i] == query_byte(b)[i - head.len()]);
        }
    }
}

/// The number that a digit in base 16 stands for.
pub open spec fn hex_value(c: char) -> int {
    if c as u32 >= 65 {
        c as u32 - 55
    } else {
        c as u32 - 48
    }
}

/// The bytes that a query stands for: a plus sign is a space, a percent sign goes before a byte
/// in base 16, anything else stands for itself.
pub open spec fn query_bytes(q: Seq<char>) -> Seq<u8>
    decreases q.len(),
{
    if q.len() == 0 {
        Seq::empty()
    } else if q[0] == '%' && q.len() >= 3 {
        seq![(hex_value(q[1]) * 16 + hex_value(q[2])) as u8] + query_bytes(q.skip(3))
    } else {
        seq![
            if q[0] == '+' {
                32u8
            } else {
                q[0] as u8
            },
        ] + query_bytes(q.skip(1))
    }
}

proof fn lemma_query_byte(b: u8, rest: Seq<char>)
    ensures
        query_bytes(query_byte(b) + rest) == seq![b] + query_bytes(rest),
{
    let q = query_byte(b) + rest;
    if is_plain_byte(b) {
        assert(q[0] == b as char);
        assert(q[0] != '+' && q[0] != '%');
        assert(q[0] as u8 == b);
        assert(q.skip(1) =~= rest);
    } else if b == 32 {
        assert(q[0] == '+');
        assert(q.skip(1) =~= rest);
    } else {
        let hi = b as int / 16;
        let lo = b as int % 16;
        assert(q[0] == '%');
        assert(q[1] == hex_digit(hi) && q[2] == hex_digit(lo));
        assert(hex_value(q[1]) == hi);
        assert(hex_value(q[2]) == lo);
        assert(q.skip(3) =~= rest);
    }
}

proof fn lemma_query_decodes(bytes: Seq<u8>, rest: Seq<char>)
    ensures
        query_bytes(query_text(bytes) + rest) == bytes + query_bytes(rest),
    decreases bytes.len(),
{
    if bytes.len() == 0 {
        assert(query_text(bytes) + rest =~= rest);
        assert(bytes + query_bytes(rest) =~= query_bytes(rest));
    } else {
        let b = bytes.last();
        let head = bytes.drop_last();
        lemma_query_decodes(head, query_byte(b) + rest);
        lemma_query_byte(b, rest);
        assert(query_text(bytes) + rest =~= query_text(head) + (query_byte(b) + rest));
        assert(head + (seq![b] + query_bytes(rest)) =~= bytes + query_bytes(rest));
    }
}

/// Decoding an encoded query gives its bytes back.
pub proof fn queries_decode(bytes: Seq<u8>)
    ensures
        query_bytes(query_text(bytes)) == bytes,
{
    lemma_query_decodes(bytes, Seq::empty());
    assert(query_text(bytes) + Seq::<char>::empty() =~= query_text(bytes));
    assert(bytes + query_bytes(Seq::<char>::empty()) =~= bytes);
}

/// Different texts are different in a query.
pub proof fn queries_differ(a: Seq<char>, b: Seq<char>)
    requires
        a != b,
    ensures
        query_text(vstd::utf8::encode_utf8(a)) != query_text(vstd::utf8::encode_utf8(b)),
{
    queries_decode(vstd::utf8::encode_utf8(a));
    queries_decode(vstd::utf8::encode_utf8(b));
    vstd::utf8::encode_utf8_decode_utf8(a);
    vstd::utf8::encode_utf8_decode_utf8(b);
}

} // verus!
