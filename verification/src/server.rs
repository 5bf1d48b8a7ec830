//! The rules of the server: who may ask, and what is answered.
use crate::content::{guess_mime, guessed_mime, named_parts, pick_type, file_type};
use crate::numbers::{dec, dec_int, decimal, decimal_i64};
use crate::text::{
    cat2, cat3, chars_of, opt, replace_all, split, split_on, starts_with, str_replace, str_same, str_starts, string_of,
    strip_prefix, stripped, trim, trim_both, trim_start, trimmed, trimmed_start, views, Class,
};
use rand::Rng;
use vstd::prelude::*;

verus! {

// ----- the token -----

/// The token that a line of the server's file gives: `token = "..."`.
pub open spec fn token_line(line: Seq<char>) -> Option<Seq<char>> {
    match strip_prefix(trim(line), "token"@) {
        Some(rest) => {
            let v = trim_both(trim(trim_start(trim(rest), Class::Only('='))), Class::Only('"'));
            if v.len() > 0 {
                Some(v)
            } else {
                None
            }
        },
        None => None,
    }
}

/// The first token that a line from `i` on gives.
pub open spec fn token_from_line(lines: Seq<Seq<char>>, i: int) -> Option<Seq<char>>
    decreases lines.len() - i,
{
    if i < 0 || i >= lines.len() {
        None
    } else {
        match token_line(lines[i]) {
            Some(t) => Some(t),
            None => token_from_line(lines, i + 1),
        }
    }
}

/// The token in the text of the server's file.
pub open spec fn stored_token(text: Seq<char>) -> Option<Seq<char>> {
    token_from_line(split(text, '\n'), 0)
}

/// The text of a new server's file.
pub open spec fn token_file(token: Seq<char>) -> Seq<char> {
    "# imsg server config\ntoken = \""@ + token + "\"\n"@
}

/// A letter or a digit of ASCII.
pub open spec fn is_alphanumeric(c: char) -> bool {
    'a' <= c <= 'z' || 'A' <= c <= 'Z' || '0' <= c <= '9'
}

/// `sample_iter` of `rand::distr::Alphanumeric` with `rand::rng`: so many letters and digits.
/// Which they are rests on chance.
#[verifier::external_body]
fn random_text(n: usize) -> (r: String)
    requires
        n <= i32::MAX,
    ensures
        r@.len() == n,
        forall|i: int| 0 <= i < r@.len() ==> is_alphanumeric(#[trigger] r@[i]),
{
    rand::rng().sample_iter(rand::distr::Alphanumeric).take(n).map(char::from).collect()
}

fn line_token(line: &Vec<char>) -> (r: Option<String>)
    ensures
        opt(r) == token_line(line@),
{
    match stripped(&trimmed(line, Class::White), "token") {
        Some(rest) => {
            let value: Vec<char> = trimmed_start(&trimmed(&rest, Class::White), Class::Only('='));
            let v: Vec<char> = trimmed(&trimmed(&value, Class::White), Class::Only('"'));
            if v.len() > 0 {
                Some(string_of(&v))
            } else {
                None
            }
        },
        None => None,
    }
}

/// The token in the text of the server's file.
pub fn read_token(text: &str) -> (r: Option<String>)
    ensures
        opt(r) == stored_token(text@),
{
    let lines: Vec<Vec<char>> = split_on(&chars_of(text), '\n');
    let ghost all = views(lines@);
    let mut i: usize = 0;
    while i < lines.len()
        invariant
            i <= lines.len(),
            all == views(lines@),
            all == split(text@, '\n'),
            token_from_line(all, 0) == token_from_line(all, i as int),
        decreases lines.len() - i,
    {
        assert(all[i as int] == lines@[i as int]@);
        if let Some(t) = line_token(&lines[i]) {
            return Some(t);
        }
        i += 1;
    }
    None
}

/// A token, and the text of a new file where it was made up.
#[derive(Debug)]
pub struct Token {
    pub token: String,
    pub new_file: Option<String>,
}

/// A made-up token with the file that it goes to.
pub fn made_token(token: String) -> (r: Token)
    ensures
        r.token@ == token@,
        opt(r.new_file) == Some(token_file(token@)),
{
    let text: String = cat3("# imsg server config\ntoken = \"", token.as_str(), "\"\n");
    Token { token, new_file: Some(text) }
}

/// The token that was asked for, else the one in the server's file, else a new one.
pub fn load_or_create_token(cli: Option<String>, file: Option<&str>) -> (r: Token)
    ensures
        cli matches Some(t) ==> r.token@ == t@ && r.new_file is None,
        cli is None && file is Some && stored_token(file->0@) is Some ==> Some(r.token@) == stored_token(file->0@)
            && r.new_file is None,
        cli is None && (file is None || stored_token(file->0@) is None) ==> {
            &&& r.token@.len() == 32
            &&& forall|i: int| 0 <= i < r.token@.len() ==> is_alphanumeric(#[trigger] r.token@[i])
            &&& opt(r.new_file) == Some(token_file(r.token@))
        },
{
    if let Some(t) = cli {
        return Token { token: t, new_file: None };
    }
    if let Some(text) = file {
        if let Some(t) = read_token(text) {
            return Token { token: t, new_file: None };
        }
    }
    made_token(random_text(32))
}

// ----- who may ask -----

/// The first of several texts from `i` on that starts with `p`, without it.
pub open spec fn first_prefixed(parts: Seq<Seq<char>>, p: Seq<char>, trimming: bool, i: int) -> Option<Seq<char>>
    decreases parts.len() - i,
{
    if i < 0 || i >= parts.len() {
        None
    } else {
        let part = if trimming {
            trim(parts[i])
        } else {
            parts[i]
        };
        match strip_prefix(part, p) {
            Some(v) => Some(v),
            None => first_prefixed(parts, p, trimming, i + 1),
        }
    }
}

/// A bearer token in an authorization header.
pub open spec fn bearer(auth: Option<Seq<char>>) -> Option<Seq<char>> {
    match auth {
        Some(v) => match strip_prefix(v, "Bearer "@) {
            Some(t) => Some(trim(t)),
            None => None,
        },
        None => None,
    }
}

/// A token in the query of an address.
pub open spec fn query_token(query: Option<Seq<char>>) -> Option<Seq<char>> {
    match query {
        Some(q) => first_prefixed(split(q, '&'), "token="@, false, 0),
        None => None,
    }
}

/// A token in a cookie.
pub open spec fn cookie_token(cookie: Option<Seq<char>>) -> Option<Seq<char>> {
    match cookie {
        Some(c) => first_prefixed(split(c, ';'), "imsg_token="@, true, 0),
        None => None,
    }
}

/// The token of a request: in its header, else its query, else its cookie.
pub open spec fn given_token(auth: Option<Seq<char>>, query: Option<Seq<char>>, cookie: Option<Seq<char>>) -> Option<
    Seq<char>,
> {
    if bearer(auth) is Some {
        bearer(auth)
    } else if query_token(query) is Some {
        query_token(query)
    } else {
        cookie_token(cookie)
    }
}

fn find_prefixed(text: &str, sep: char, p: &str, trimming: bool) -> (r: Option<String>)
    ensures
        opt(r) == first_prefixed(split(text@, sep), p@, trimming, 0),
{
    let parts: Vec<Vec<char>> = split_on(&chars_of(text), sep);
    let ghost all = views(parts@);
    let mut i: usize = 0;
    while i < parts.len()
        invariant
            i <= parts.len(),
            all == views(parts@),
            all == split(text@, sep),
            first_prefixed(all, p@, trimming, 0) == first_prefixed(all, p@, trimming, i as int),
        decreases parts.len() - i,
    {
        assert(all[i as int] == parts@[i as int]@);
        let found: Option<Vec<char>> = if trimming {
            stripped(&trimmed(&parts[i], Class::White), p)
        } else {
            stripped(&parts[i], p)
        };
        if let Some(v) = found {
            return Some(string_of(&v));
        }
        i += 1;
    }
    None
}

/// The token of a request: in its header, else its query, else its cookie.
pub fn token_from(auth: &Option<String>, query: &Option<String>, cookie: &Option<String>) -> (r: Option<String>)
    ensures
        opt(r) == given_token(opt(*auth), opt(*query), opt(*cookie)),
{
    if let Some(v) = auth {
        if let Some(t) = stripped(&chars_of(v.as_str()), "Bearer ") {
            return Some(string_of(&trimmed(&t, Class::White)));
        }
    }
    if let Some(q) = query {
        if let Some(t) = find_prefixed(q.as_str(), '&', "token=", false) {
            return Some(t);
        }
    }
    match cookie {
        Some(c) => find_prefixed(c.as_str(), ';', "imsg_token=", true),
        None => None,
    }
}

/// A request is let in exactly where it carries the token.
pub fn auth(token: &str, header: &Option<String>, query: &Option<String>, cookie: &Option<String>) -> (r: bool)
    ensures
        r <==> given_token(opt(*header), opt(*query), opt(*cookie)) == Some(token@),
{
    match token_from(header, query, cookie) {
        Some(t) => str_same(t.as_str(), token),
        None => false,
    }
}

/// A request without any token is refused.
pub proof fn no_token_no_entry(token: Seq<char>)
    ensures
        given_token(None, None, None) != Some(token),
{
}

// ----- limits -----

/// How much is asked for: `default` where nothing is said, at least one, at most `most`.
pub open spec fn limit_of(limit: Option<i64>, default: i64, most: i64) -> i64 {
    let n = match limit {
        Some(n) => n,
        None => default,
    };
    if n < 1 {
        1
    } else if n > most {
        most
    } else {
        n
    }
}

fn limited(limit: Option<i64>, default: i64, most: i64) -> (r: i64)
    ensures
        r == limit_of(limit, default, most),
{
    let n: i64 = match limit {
        Some(n) => n,
        None => default,
    };
    if n < 1 {
        1
    } else if n > most {
        most
    } else {
        n
    }
}

/// How many chats are answered.
pub fn chats_limit(limit: Option<i64>) -> (r: i64)
    ensures
        r == limit_of(limit, 200, 2000),
        1 <= r <= 2000,
{
    limited(limit, 200, 2000)
}

/// How many messages are answered.
pub fn messages_limit(limit: Option<i64>) -> (r: i64)
    ensures
        r == limit_of(limit, 50, 500),
        1 <= r <= 500,
{
    limited(limit, 50, 500)
}

/// How many search results are answered.
pub fn search_limit(limit: Option<i64>) -> (r: i64)
    ensures
        r == limit_of(limit, 100, 500),
        1 <= r <= 500,
{
    limited(limit, 100, 500)
}

// ----- pictures and attachments -----

/// Bytes that start as a PNG does.
pub open spec fn is_png(bytes: Seq<u8>) -> bool {
    bytes.len() >= 4 && bytes[0] == 0x89 && bytes[1] == 0x50 && bytes[2] == 0x4e && bytes[3] == 0x47
}

/// The type of a contact's photo: a PNG by its first bytes, anything else a JPEG.
pub fn photo_type(bytes: &Vec<u8>) -> (r: &'static str)
    ensures
        r@ == if is_png(bytes@) {
            "image/png"@
        } else {
            "image/jpeg"@
        },
{
    if bytes.len() >= 4 && bytes[0] == 0x89 && bytes[1] == 0x50 && bytes[2] == 0x4e && bytes[3] == 0x47 {
        "image/png"
    } else {
        "image/jpeg"
    }
}

/// How a file is made fit for a browser.
#[derive(Debug, Clone, Copy, PartialEq, Eq, Structural)]
pub enum Conversion {
    /// As it is.
    Plain,
    /// As a JPEG of at most this many pixels on each side.
    Preview(u32),
    /// As a JPEG of its full size.
    Full,
}

/// How a file of a type is made fit for a browser: a picture as a preview where one is asked for,
/// a HEIC picture as a JPEG, anything else as it is.
pub open spec fn conversion_of(mime: Seq<char>, preview: bool) -> Conversion {
    if preview && starts_with(mime, "image/"@) && mime != "image/gif"@ {
        Conversion::Preview(1400)
    } else if mime == "image/heic"@ || mime == "image/heif"@ {
        Conversion::Full
    } else {
        Conversion::Plain
    }
}

/// How a file of a type is made fit for a browser.
pub fn conversion_for(mime: &str, preview: bool) -> (r: Conversion)
    ensures
        r == conversion_of(mime@, preview),
{
    if preview && str_starts(mime, "image/") && !str_same(mime, "image/gif") {
        Conversion::Preview(1400)
    } else if str_same(mime, "image/heic") || str_same(mime, "image/heif") {
        Conversion::Full
    } else {
        Conversion::Plain
    }
}

/// The name of a converted picture in the cache.
pub open spec fn converted_name(id: int, max: Option<u32>) -> Seq<char> {
    "att-"@ + dec_int(id) + "-"@ + (match max {
        Some(m) => dec(m as nat),
        None => "full"@,
    }) + ".jpg"@
}

/// The name of a converted picture in the cache.
pub fn cache_file(id: i64, max: Option<u32>) -> (r: String)
    ensures
        r@ == converted_name(id as int, max),
{
    let size: String = match max {
        Some(m) => decimal(m as u64),
        None => "full".to_owned(),
    };
    cat2(cat2(cat3("att-", decimal_i64(id).as_str(), "-").as_str(), size.as_str()).as_str(), ".jpg")
}

/// The file that is served and its type, once a conversion was tried: the converted one where it
/// succeeded, else the one that is there.
pub fn served_file(converted: Option<String>, path: String, mime: String) -> (r: (String, String))
    ensures
        converted matches Some(c) ==> r.0@ == c@ && r.1@ == "image/jpeg"@,
        converted is None ==> r.0@ == path@ && r.1@ == mime@,
{
    match converted {
        Some(c) => (c, "image/jpeg".to_owned()),
        None => (path, mime),
    }
}

/// How a browser is told to treat a file: to keep it or to show it, under its name.
pub fn disposition(name: &str, download: bool) -> (r: String)
    ensures
        r@ == (if download {
            "attachment"@
        } else {
            "inline"@
        }) + "; filename=\""@ + replace_all(name@, "\""@, Seq::empty()) + "\""@,
{
    proof {
        reveal_strlit("\"");
        reveal_strlit("");
        assert(""@ =~= Seq::<char>::empty());
    }
    let how: &str = if download { "attachment" } else { "inline" };
    cat2(cat3(how, "; filename=\"", str_replace(name, "\"", "").as_str()).as_str(), "\"")
}

// ----- uploads -----

/// A text without slashes, backslashes and zeros.
pub open spec fn safe_chars(s: Seq<char>) -> Seq<char>
    decreases s.len(),
{
    if s.len() == 0 {
        s
    } else if s.last() == '/' || s.last() == '\\' || s.last() == '\0' {
        safe_chars(s.drop_last())
    } else {
        safe_chars(s.drop_last()).push(s.last())
    }
}

/// A name that is one part of a path.
pub open spec fn safe_name(s: Seq<char>) -> Seq<char> {
    if safe_chars(s).len() == 0 {
        "upload"@
    } else {
        safe_chars(s)
    }
}

/// A name that is one part of a path.
pub fn sanitize_name(s: &str) -> (r: String)
    ensures
        r@ == safe_name(s@),
{
    let v: Vec<char> = chars_of(s);
    let mut out: String = String::new();
    let mut i: usize = 0;
    assert(v@.take(0) =~= Seq::<char>::empty());
    assert(out@ =~= safe_chars(v@.take(0)));
    while i < v.len()
        invariant
            i <= v.len(),
            out@ == safe_chars(v@.take(i as int)),
        decreases v.len() - i,
    {
        assert(v@.take(i + 1).drop_last() =~= v@.take(i as int));
        if v[i] != '/' && v[i] != '\\' && v[i] != '\0' {
            out.push(v[i]);
        }
        i += 1;
    }
    assert(v@.take(i as int) =~= v@);
    if out.as_str().is_empty() {
        "upload".to_owned()
    } else {
        out
    }
}

/// A name made safe is never empty and holds no slash.
pub proof fn safe_names_are_parts(s: Seq<char>, i: int)
    requires
        0 <= i < safe_name(s).len(),
    ensures
        safe_name(s).len() > 0,
        safe_name(s)[i] != '/',
        safe_name(s)[i] != '\\',
        safe_name(s)[i] != '\0',
{
    reveal_strlit("upload");
    lemma_safe_chars(s);
}

proof fn lemma_safe_chars(s: Seq<char>)
    ensures
        forall|i: int|
            0 <= i < safe_chars(s).len() ==> (#[trigger] safe_chars(s)[i]) != '/' && safe_chars(s)[i] != '\\'
                && safe_chars(s)[i] != '\0',
    decreases s.len(),
{
    if s.len() > 0 {
        lemma_safe_chars(s.drop_last());
        let before = safe_chars(s.drop_last());
        assert forall|i: int| 0 <= i < safe_chars(s).len() implies (#[trigger] safe_chars(s)[i]) != '/' && safe_chars(
            s,
        )[i] != '\\' && safe_chars(s)[i] != '\0' by {
            if i < before.len() {
                assert(safe_chars(s)[i] == before[i]);
            }
        }
    }
}

/// The name under which an upload is kept.
pub fn upload_name(file_name: Option<&str>) -> (r: String)
    ensures
        r@ == (match file_name {
            Some(n) => safe_name(n@),
            None => "upload"@,
        }),
{
    match file_name {
        Some(n) => sanitize_name(n),
        None => "upload".to_owned(),
    }
}

/// A number in base 16, in lower case.
pub open spec fn hex(n: nat) -> Seq<char>
    decreases n,
{
    if n < 16 {
        seq![small_digit(n as int)]
    } else {
        hex(n / 16).push(small_digit((n % 16) as int))
    }
}

/// A digit in base 16, in lower case.
pub open spec fn small_digit(d: int) -> char {
    if d < 10 {
        (48 + d) as char
    } else {
        (87 + d) as char
    }
}

fn small_char(d: u8) -> (r: char)
    requires
        d < 16,
    ensures
        r == small_digit(d as int),
{
    if d < 10 {
        (48 + d) as char
    } else {
        (87 + d) as char
    }
}

/// The id of an upload: the time at which it came, in base 16.
pub fn upload_id(nanos: u128) -> (r: String)
    ensures
        r@ == hex(nanos as nat),
    decreases nanos,
{
    if nanos < 16 {
        let mut s: String = String::new();
        s.push(small_char(nanos as u8));
        assert(s@ =~= hex(nanos as nat));
        s
    } else {
        let mut s: String = upload_id(nanos / 16);
        s.push(small_char((nanos % 16) as u8));
        s
    }
}

// ----- the web client -----

/// The asset that an address names: its path without slashes at the start, the first page where
/// nothing is left.
pub open spec fn asset_of(path: Seq<char>) -> Seq<char> {
    let p = trim_start(path, Class::Only('/'));
    if p.len() == 0 {
        "index.html"@
    } else {
        p
    }
}

/// The asset that an address names.
pub fn asset_path(path: &str) -> (r: String)
    ensures
        r@ == asset_of(path@),
{
    let p: Vec<char> = trimmed_start(&chars_of(path), Class::Only('/'));
    if p.len() == 0 {
        "index.html".to_owned()
    } else {
        string_of(&p)
    }
}

/// A path that goes up nowhere.
pub open spec fn stays_down(path: Seq<char>) -> bool {
    forall|i: int| 0 <= i < split(path, '/').len() ==> #[trigger] split(path, '/')[i] != ".."@
}

/// A path that goes up nowhere, so that it may name an asset.
pub fn asset_allowed(path: &str) -> (r: bool)
    ensures
        r == stays_down(path@),
{
    let parts: Vec<Vec<char>> = split_on(&chars_of(path), '/');
    let ghost all = views(parts@);
    let mut i: usize = 0;
    while i < parts.len()
        invariant
            i <= parts.len(),
            all == views(parts@),
            all == split(path@, '/'),
            forall|k: int| 0 <= k < i ==> #[trigger] all[k] != ".."@,
        decreases parts.len() - i,
    {
        assert(all[i as int] == parts@[i as int]@);
        if str_same(string_of(&parts[i]).as_str(), "..") {
            return false;
        }
        i += 1;
    }
    true
}

/// The parts of a path that name something.
pub open spec fn parts_of(path: Seq<char>) -> Seq<Seq<char>> {
    named_parts(split(path, '/'))
}

/// A path at or below another, part by part.
pub open spec fn is_below(root: Seq<char>, path: Seq<char>) -> bool {
    parts_of(root).is_prefix_of(parts_of(path))
}

fn path_parts(path: &str) -> (r: Vec<String>)
    ensures
        views(r@) == parts_of(path@),
{
    let parts: Vec<Vec<char>> = split_on(&chars_of(path), '/');
    let ghost all = views(parts@);
    let mut out: Vec<String> = Vec::new();
    let mut i: usize = 0;
    assert(all.take(0) =~= Seq::<Seq<char>>::empty());
    assert(views(out@) =~= named_parts(all.take(0)));
    while i < parts.len()
        invariant
            i <= parts.len(),
            all == views(parts@),
            views(out@) == named_parts(all.take(i as int)),
        decreases parts.len() - i,
    {
        assert(all.take(i + 1).drop_last() =~= all.take(i as int));
        assert(all.take(i + 1).last() == parts@[i as int]@);
        let s: String = string_of(&parts[i]);
        if !s.as_str().is_empty() && !str_same(s.as_str(), ".") {
            let ghost before = views(out@);
            let ghost sv = s@;
            out.push(s);
            assert(views(out@) =~= before.push(sv));
        }
        i += 1;
    }
    assert(all.take(i as int) =~= all);
    out
}

/// Whether the file that an asset turned out to be may be served: it lies below the root, with
/// all links followed, and is a file.
pub fn asset_served(root: &str, candidate: &str, is_file: bool) -> (r: bool)
    ensures
        r == (is_below(root@, candidate@) && is_file),
{
    let a: Vec<String> = path_parts(root);
    let b: Vec<String> = path_parts(candidate);
    let ghost av = views(a@);
    let ghost bv = views(b@);
    if !is_file || a.len() > b.len() {
        return false;
    }
    let mut i: usize = 0;
    while i < a.len()
        invariant
            i <= a.len() <= b.len(),
            av == views(a@),
            bv == views(b@),
            av == parts_of(root@),
            bv == parts_of(candidate@),
            is_file,
            forall|k: int| 0 <= k < i ==> #[trigger] av[k] == bv[k],
        decreases a.len() - i,
    {
        assert(av[i as int] == a@[i as int]@);
        assert(bv[i as int] == b@[i as int]@);
        if !str_same(a[i].as_str(), b[i].as_str()) {
            assert(!av.is_prefix_of(bv)) by {
                if av.is_prefix_of(bv) {
                    assert(av[i as int] == bv.subrange(0, av.len() as int)[i as int]);
                }
            }
            return false;
        }
        i += 1;
    }
    assert(av =~= bv.subrange(0, av.len() as int));
    true
}

/// The file of an asset may be served: the path goes up nowhere, the root and the file are there,
/// and with all links followed it lies below the root and is a file.
pub open spec fn is_served(path: Seq<char>, root: Option<Seq<char>>, found: Option<Seq<char>>, is_file: bool) -> bool {
    stays_down(path) && root is Some && found is Some && is_below(root->0, found->0) && is_file
}

/// Whether the asset at `path` is served: `root` and `found` are where the root and the asset turned
/// out to be, with all links followed, as far as they are there.
pub fn asset_found(path: &str, root: Option<&str>, found: Option<&str>, is_file: bool) -> (r: bool)
    ensures
        r == is_served(
            path@,
            match root {
                Some(p) => Some(p@),
                None => None,
            },
            match found {
                Some(p) => Some(p@),
                None => None,
            },
            is_file,
        ),
{
    match (root, found) {
        (Some(root), Some(found)) => asset_allowed(path) && asset_served(root, found, is_file),
        _ => false,
    }
}

/// The type that an asset is served as.
pub fn asset_type(path: &str) -> (r: String)
    ensures
        r@ == file_type(None, guessed_mime(path@), None),
{
    pick_type(&None, guess_mime(path), &None)
}

/// The assets that the server carries with it.
#[derive(Debug, Clone, Copy, PartialEq, Eq, Structural)]
pub enum Embedded {
    Page,
    Script,
    Styles,
}

/// The asset of a name that the server carries with it.
pub open spec fn embedded_of(path: Seq<char>) -> Option<Embedded> {
    if path == "index.html"@ {
        Some(Embedded::Page)
    } else if path == "app.js"@ {
        Some(Embedded::Script)
    } else if path == "style.css"@ {
        Some(Embedded::Styles)
    } else {
        None
    }
}

/// The type of an asset that the server carries with it.
pub open spec fn embedded_type_of(e: Embedded) -> Seq<char> {
    match e {
        Embedded::Page => "text/html; charset=utf-8"@,
        Embedded::Script => "application/javascript; charset=utf-8"@,
        Embedded::Styles => "text/css; charset=utf-8"@,
    }
}

/// The asset of a name that the server carries with it, and its type.
pub fn embedded_asset(path: &str) -> (r: Option<(Embedded, &'static str)>)
    ensures
        r is Some <==> embedded_of(path@) is Some,
        r is Some ==> Some((r->0).0) == embedded_of(path@) && (r->0).1@ == embedded_type_of((r->0).0),
{
    proof {
        reveal_strlit("index.html");
        reveal_strlit("app.js");
        reveal_strlit("style.css");
    }
    if str_same(path, "index.html") {
        Some((Embedded::Page, "text/html; charset=utf-8"))
    } else if str_same(path, "app.js") {
        Some((Embedded::Script, "application/javascript; charset=utf-8"))
    } else if str_same(path, "style.css") {
        Some((Embedded::Styles, "text/css; charset=utf-8"))
    } else {
        None
    }
}

} // verus!
