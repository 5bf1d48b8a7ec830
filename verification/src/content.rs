//! What stands in a message: its text, the formatting of its runs, and the names and types of
//! its files.
use crate::text::{
    cat2, cat3, chars_of, join, join_strings, opt, piece, replace_all, split, split_on, str_replace, str_same,
    string_of, strip_prefix, stripped, trim_both, trimmed, views, Class,
};
use vstd::prelude::*;

verus! {

// ----- cleaning -----

/// A text without object placeholders and Apple's internal breadcrumb tokens.
pub open spec fn clean_run(t: Seq<char>) -> Seq<char> {
    let none = Seq::<char>::empty();
    let a = replace_all(t, "\u{FFFC}"@, none);
    let b = replace_all(a, "\u{FFFD}"@, none);
    let c = replace_all(b, "$(kIMTranscriptPluginBreadcrumbTextReceiverIdentifier)"@, none);
    replace_all(c, "$(kIMTranscriptPluginBreadcrumbTextSenderIdentifier)"@, none)
}

/// A cleaned text without the spaces and line feeds around it.
pub open spec fn clean(t: Seq<char>) -> Seq<char> {
    trim_both(clean_run(t), Class::SpaceOrNewline)
}

/// Remove non-message markers while retaining whitespace inside a formatted run.
pub fn clean_text_run(t: &str) -> (r: String)
    ensures
        r@ == clean_run(t@),
{
    proof {
        reveal_strlit("");
        reveal_strlit("\u{FFFC}");
        reveal_strlit("\u{FFFD}");
        reveal_strlit("$(kIMTranscriptPluginBreadcrumbTextReceiverIdentifier)");
        reveal_strlit("$(kIMTranscriptPluginBreadcrumbTextSenderIdentifier)");
        assert(""@ =~= Seq::<char>::empty());
    }
    let a: String = str_replace(t, "\u{FFFC}", "");
    let b: String = str_replace(a.as_str(), "\u{FFFD}", "");
    let c: String = str_replace(b.as_str(), "$(kIMTranscriptPluginBreadcrumbTextReceiverIdentifier)", "");
    str_replace(c.as_str(), "$(kIMTranscriptPluginBreadcrumbTextSenderIdentifier)", "")
}

/// Strip object-replacement placeholders and Apple's internal breadcrumb tokens.
pub fn clean_text(t: &str) -> (r: String)
    ensures
        r@ == clean(t@),
{
    let run: String = clean_text_run(t);
    string_of(&trimmed(&chars_of(run.as_str()), Class::SpaceOrNewline))
}

// ----- byte ranges -----

/// How many bytes a character takes in UTF-8.
pub open spec fn utf8_width(c: char) -> nat {
    let n = c as u32;
    if n < 0x80 {
        1
    } else if n < 0x800 {
        2
    } else if n < 0x10000 {
        3
    } else {
        4
    }
}

/// The place in UTF-8 at which character `i` of `s` begins.
pub open spec fn byte_offset(s: Seq<char>, i: int) -> nat
    decreases i,
{
    if i <= 0 {
        0
    } else {
        byte_offset(s, i - 1) + utf8_width(s[i - 1])
    }
}

/// The last character place from `i` on that does not lie behind byte `b`.
pub open spec fn place_before(s: Seq<char>, b: int, i: int) -> int
    decreases s.len() - i,
{
    if i < s.len() && byte_offset(s, i + 1) <= b {
        place_before(s, b, i + 1)
    } else {
        i
    }
}

/// The first character place from `i` on that does not lie before byte `b`.
pub open spec fn place_after(s: Seq<char>, b: int, i: int) -> int
    decreases s.len() - i,
{
    if i < s.len() && byte_offset(s, i) < b {
        place_after(s, b, i + 1)
    } else {
        i
    }
}

/// The characters of `s` that bytes `start` to `end` touch; an end before the start counts as
/// the start, too.
pub open spec fn byte_slice(s: Seq<char>, start: int, end: int) -> Seq<char> {
    let from = if start < end {
        start
    } else {
        end
    };
    s.subrange(place_before(s, from, 0), place_after(s, end, 0))
}

fn width_of(c: char) -> (r: usize)
    ensures
        r == utf8_width(c),
        1 <= r <= 4,
{
    let n: u32 = c as u32;
    if n < 0x80 {
        1
    } else if n < 0x800 {
        2
    } else if n < 0x10000 {
        3
    } else {
        4
    }
}

proof fn lemma_offset_grows(s: Seq<char>, i: int, j: int)
    requires
        0 <= i <= j,
    ensures
        byte_offset(s, i) <= byte_offset(s, j),
    decreases j,
{
    if i < j {
        lemma_offset_grows(s, i, j - 1);
    }
}

proof fn lemma_place_before(s: Seq<char>, b: int, i: int)
    requires
        0 <= i <= s.len(),
    ensures
        i <= place_before(s, b, i) <= s.len(),
        byte_offset(s, i) <= b ==> byte_offset(s, place_before(s, b, i)) <= b,
    decreases s.len() - i,
{
    if i < s.len() && byte_offset(s, i + 1) <= b {
        lemma_place_before(s, b, i + 1);
    }
}

proof fn lemma_place_after(s: Seq<char>, b: int, i: int)
    requires
        0 <= i <= s.len(),
    ensures
        i <= place_after(s, b, i) <= s.len(),
        place_after(s, b, i) < s.len() ==> byte_offset(s, place_after(s, b, i)) >= b,
    decreases s.len() - i,
{
    if i < s.len() && byte_offset(s, i) < b {
        lemma_place_after(s, b, i + 1);
    }
}

/// The part of a text between two byte positions, widened to whole characters.
pub fn slice(t: &str, start: usize, end: usize) -> (r: String)
    ensures
        r@ == byte_slice(t@, start as int, end as int),
{
    let v: Vec<char> = chars_of(t);
    let from: usize = if start < end { start } else { end };
    let mut i: usize = 0;
    let mut off: u128 = 0;
    while i < v.len() && off + (width_of(v[i]) as u128) <= from as u128
        invariant
            i <= v.len(),
            v@ == t@,
            off == byte_offset(v@, i as int),
            off <= 4 * i,
            place_before(v@, from as int, 0) == place_before(v@, from as int, i as int),
        decreases v.len() - i,
    {
        off = off + (width_of(v[i]) as u128);
        i += 1;
    }
    let mut j: usize = 0;
    let mut off2: u128 = 0;
    while j < v.len() && off2 < end as u128
        invariant
            j <= v.len(),
            v@ == t@,
            off2 == byte_offset(v@, j as int),
            off2 <= 4 * j,
            place_after(v@, end as int, 0) == place_after(v@, end as int, j as int),
        decreases v.len() - j,
    {
        off2 = off2 + (width_of(v[j]) as u128);
        j += 1;
    }
    assert(i <= j) by {
        lemma_place_before(v@, from as int, 0);
        lemma_place_after(v@, end as int, 0);
        if j < i {
            lemma_offset_grows(v@, j as int, i - 1);
            assert(byte_offset(v@, i as int) > byte_offset(v@, i - 1));
            assert(byte_offset(v@, i as int) <= from);
            assert(byte_offset(v@, j as int) >= end);
        }
    }
    string_of(&piece(&v, i, j))
}

// ----- formatting -----

/// A style of text.
#[derive(Debug, Clone, Copy, PartialEq, Eq, Structural)]
pub enum TextStyle {
    Bold,
    Italic,
    Strikethrough,
    Underline,
}

/// An animation of text.
#[derive(Debug, Clone, Copy, PartialEq, Eq, Structural)]
pub enum Animation {
    Big,
    Small,
    Shake,
    Nod,
    Explode,
    Ripple,
    Bloom,
    Jitter,
    Unknown,
}

/// What a run of text is marked with.
#[derive(Debug)]
pub enum TextEffect {
    Default,
    Mention(String),
    Link(String),
    Otp,
    Styles(Vec<TextStyle>),
    Animated(Animation),
    /// Detected data that is not shown.
    Other,
}

/// The name of a style.
pub open spec fn style_word(s: TextStyle) -> Seq<char> {
    match s {
        TextStyle::Bold => "bold"@,
        TextStyle::Italic => "italic"@,
        TextStyle::Strikethrough => "strikethrough"@,
        TextStyle::Underline => "underline"@,
    }
}

/// The name of an animation.
pub open spec fn animation_word(a: Animation) -> Seq<char> {
    match a {
        Animation::Big => "big"@,
        Animation::Small => "small"@,
        Animation::Shake => "shake"@,
        Animation::Nod => "nod"@,
        Animation::Explode => "explode"@,
        Animation::Ripple => "ripple"@,
        Animation::Bloom => "bloom"@,
        Animation::Jitter => "jitter"@,
        Animation::Unknown => "unknown"@,
    }
}

/// The name under which an effect goes over the wire; none for one that is not sent.
pub open spec fn effect_word(e: TextEffect) -> Option<Seq<char>> {
    match e {
        TextEffect::Default => None,
        TextEffect::Mention(_) => Some("mention"@),
        TextEffect::Link(u) => Some("link:"@ + u@),
        TextEffect::Otp => Some("otp"@),
        TextEffect::Styles(styles) => Some(join(Seq::new(styles@.len(), |i: int| style_word(styles@[i])), ","@)),
        TextEffect::Animated(a) => Some("animated:"@ + animation_word(a)),
        TextEffect::Other => None,
    }
}

fn style_name(s: TextStyle) -> (r: &'static str)
    ensures
        r@ == style_word(s),
{
    match s {
        TextStyle::Bold => "bold",
        TextStyle::Italic => "italic",
        TextStyle::Strikethrough => "strikethrough",
        TextStyle::Underline => "underline",
    }
}

fn animation_name(a: Animation) -> (r: &'static str)
    ensures
        r@ == animation_word(a),
{
    match a {
        Animation::Big => "big",
        Animation::Small => "small",
        Animation::Shake => "shake",
        Animation::Nod => "nod",
        Animation::Explode => "explode",
        Animation::Ripple => "ripple",
        Animation::Bloom => "bloom",
        Animation::Jitter => "jitter",
        Animation::Unknown => "unknown",
    }
}

/// The name under which an effect goes over the wire.
pub fn effect_name(e: &TextEffect) -> (r: Option<String>)
    ensures
        opt(r) == effect_word(*e),
{
    match e {
        TextEffect::Default => None,
        TextEffect::Mention(_) => Some("mention".to_owned()),
        TextEffect::Link(u) => Some(cat2("link:", u.as_str())),
        TextEffect::Otp => Some("otp".to_owned()),
        TextEffect::Styles(styles) => {
            let mut names: Vec<String> = Vec::new();
            let mut i: usize = 0;
            while i < styles.len()
                invariant
                    i <= styles.len(),
                    names@.len() == i,
                    forall|k: int| 0 <= k < i ==> #[trigger] names@[k]@ == style_word(styles@[k]),
                decreases styles.len() - i,
            {
                names.push(style_name(styles[i]).to_owned());
                i += 1;
            }
            assert(views(names@) =~= Seq::new(styles@.len(), |i: int| style_word(styles@[i])));
            Some(join_strings(&names, ","))
        },
        TextEffect::Animated(a) => Some(cat2("animated:", animation_name(*a))),
        TextEffect::Other => None,
    }
}

/// The names of those effects that are sent, in order.
pub open spec fn effect_words(es: Seq<TextEffect>) -> Seq<Seq<char>>
    decreases es.len(),
{
    if es.len() == 0 {
        Seq::empty()
    } else {
        match effect_word(es.last()) {
            Some(w) => effect_words(es.drop_last()).push(w),
            None => effect_words(es.drop_last()),
        }
    }
}

/// The names of those effects that are sent, in order.
pub fn effect_names(es: &Vec<TextEffect>) -> (r: Vec<String>)
    ensures
        views(r@) == effect_words(es@),
{
    let mut out: Vec<String> = Vec::new();
    let mut i: usize = 0;
    assert(es@.take(0) =~= Seq::<TextEffect>::empty());
    assert(views(out@) =~= effect_words(es@.take(0)));
    while i < es.len()
        invariant
            i <= es.len(),
            views(out@) == effect_words(es@.take(i as int)),
        decreases es.len() - i,
    {
        assert(es@.take(i + 1).drop_last() =~= es@.take(i as int));
        let ghost before = views(out@);
        if let Some(w) = effect_name(&es[i]) {
            let ghost wv = w@;
            out.push(w);
            assert(views(out@) =~= before.push(wv));
        }
        i += 1;
    }
    assert(es@.take(i as int) =~= es@);
    out
}

// ----- files -----

/// A path with a leading `~` replaced by the home directory.
pub open spec fn home_path(p: Seq<char>, home: Seq<char>) -> Seq<char> {
    match strip_prefix(p, "~"@) {
        Some(rest) => home + rest,
        None => p,
    }
}

/// A path with a leading `~` replaced by the home directory.
pub fn expand_home(p: &str, home: &str) -> (r: String)
    ensures
        r@ == home_path(p@, home@),
{
    match stripped(&chars_of(p), "~") {
        Some(rest) => cat2(home, string_of(&rest).as_str()),
        None => p.to_owned(),
    }
}

/// `rest` below the directory `dir`; an absolute `rest` stands for itself.
pub open spec fn path_below(dir: Seq<char>, rest: Seq<char>) -> Seq<char> {
    if rest.len() > 0 && rest[0] == '/' {
        rest
    } else if dir.len() == 0 || dir.last() == '/' {
        dir + rest
    } else {
        dir + "/"@ + rest
    }
}

/// `rest` below the directory `dir`.
pub fn join_path(dir: &str, rest: &str) -> (r: String)
    ensures
        r@ == path_below(dir@, rest@),
{
    let d: Vec<char> = chars_of(dir);
    let v: Vec<char> = chars_of(rest);
    if v.len() > 0 && v[0] == '/' {
        rest.to_owned()
    } else if d.len() == 0 || d[d.len() - 1] == '/' {
        cat2(dir, rest)
    } else {
        cat3(dir, "/", rest)
    }
}

/// The parts of a path that name something: all but empty ones and `.`.
pub open spec fn named_parts(parts: Seq<Seq<char>>) -> Seq<Seq<char>>
    decreases parts.len(),
{
    if parts.len() == 0 {
        Seq::empty()
    } else if parts.last().len() == 0 || parts.last() == "."@ {
        named_parts(parts.drop_last())
    } else {
        named_parts(parts.drop_last()).push(parts.last())
    }
}

/// The last part of a path that names something, where that is not `..`.
pub open spec fn base_name(p: Seq<char>) -> Option<Seq<char>> {
    let parts = named_parts(split(p, '/'));
    if parts.len() == 0 || parts.last() == ".."@ {
        None
    } else {
        Some(parts.last())
    }
}

/// The name of the file at the end of a path.
pub fn file_name(p: &str) -> (r: Option<String>)
    ensures
        opt(r) == base_name(p@),
{
    let parts: Vec<Vec<char>> = split_on(&chars_of(p), '/');
    let ghost all = views(parts@);
    let mut n: usize = parts.len();
    assert(all.take(n as int) =~= all);
    while n > 0
        invariant
            n <= parts.len(),
            all == views(parts@),
            all == split(p@, '/'),
            named_parts(all) == named_parts(all.take(n as int)),
        decreases n,
    {
        assert(all.take(n as int).last() == parts@[n - 1]@);
        assert(all.take(n as int).drop_last() =~= all.take(n - 1));
        let s: String = string_of(&parts[n - 1]);
        if !s.as_str().is_empty() && !str_same(s.as_str(), ".") {
            return if str_same(s.as_str(), "..") { None } else { Some(s) };
        }
        n -= 1;
    }
    None
}

/// The type of a file by its uniform type identifier.
pub open spec fn uti_mime(uti: Seq<char>) -> Option<Seq<char>> {
    if uti == "public.heic"@ || uti == "public.heif"@ {
        Some("image/heic"@)
    } else if uti == "public.jpeg"@ {
        Some("image/jpeg"@)
    } else if uti == "public.png"@ {
        Some("image/png"@)
    } else if uti == "com.compuserve.gif"@ {
        Some("image/gif"@)
    } else if uti == "public.mpeg-4"@ || uti == "com.apple.quicktime-movie"@ {
        Some("video/mp4"@)
    } else if uti == "public.mp3"@ {
        Some("audio/mpeg"@)
    } else if uti == "com.apple.m4a-audio"@ || uti == "public.mpeg-4-audio"@ {
        Some("audio/mp4"@)
    } else if uti == "com.apple.coreaudio-format"@ {
        Some("audio/x-caf"@)
    } else if uti == "com.adobe.pdf"@ {
        Some("application/pdf"@)
    } else if uti == "public.vcard"@ {
        Some("text/vcard"@)
    } else {
        None
    }
}

/// The type of a file by its uniform type identifier, where there is one.
pub open spec fn uti_type(uti: Option<Seq<char>>) -> Option<Seq<char>> {
    match uti {
        Some(u) => uti_mime(u),
        None => None,
    }
}

/// The type of a file by its uniform type identifier.
pub fn uti_to_mime(uti: Option<&str>) -> (r: Option<String>)
    ensures
        opt(r) == (match uti {
            Some(u) => uti_mime(u@),
            None => None,
        }),
{
    let u: &str = match uti {
        Some(u) => u,
        None => {
            return None;
        },
    };
    if str_same(u, "public.heic") || str_same(u, "public.heif") {
        Some("image/heic".to_owned())
    } else if str_same(u, "public.jpeg") {
        Some("image/jpeg".to_owned())
    } else if str_same(u, "public.png") {
        Some("image/png".to_owned())
    } else if str_same(u, "com.compuserve.gif") {
        Some("image/gif".to_owned())
    } else if str_same(u, "public.mpeg-4") || str_same(u, "com.apple.quicktime-movie") {
        Some("video/mp4".to_owned())
    } else if str_same(u, "public.mp3") {
        Some("audio/mpeg".to_owned())
    } else if str_same(u, "com.apple.m4a-audio") || str_same(u, "public.mpeg-4-audio") {
        Some("audio/mp4".to_owned())
    } else if str_same(u, "com.apple.coreaudio-format") {
        Some("audio/x-caf".to_owned())
    } else if str_same(u, "com.adobe.pdf") {
        Some("application/pdf".to_owned())
    } else if str_same(u, "public.vcard") {
        Some("text/vcard".to_owned())
    } else {
        None
    }
}

/// What `mime_guess` takes a file to be by the extension of its path.
pub uninterp spec fn guessed_mime(path: Seq<char>) -> Option<Seq<char>>;

/// `mime_guess::from_path` followed by `first`: the first type listed for the extension of the
/// path, if any. The table of extensions is not spelled out.
#[verifier::external_body]
pub(crate) fn guess_mime(path: &str) -> (r: Option<String>)
    ensures
        opt(r) == guessed_mime(path@),
{
    mime_guess::from_path(path).first().map(|m| m.to_string())
}

/// The type of a file: the stored one, else by its path, else by its type identifier.
pub open spec fn file_type(
    stored: Option<Seq<char>>,
    guessed: Option<Seq<char>>,
    uti: Option<Seq<char>>,
) -> Seq<char> {
    if stored is Some {
        stored->0
    } else if guessed is Some {
        guessed->0
    } else if uti_type(uti) is Some {
        uti_type(uti)->0
    } else {
        "application/octet-stream"@
    }
}

/// The type of a file: the stored one, else by its path, else by its type identifier.
pub fn pick_type(stored: &Option<String>, guessed: Option<String>, uti: &Option<String>) -> (r: String)
    ensures
        r@ == file_type(opt(*stored), opt(guessed), opt(*uti)),
{
    if let Some(m) = stored {
        return m.clone();
    }
    if let Some(m) = guessed {
        return m;
    }
    let by_uti: Option<String> = match uti {
        Some(u) => uti_to_mime(Some(u.as_str())),
        None => None,
    };
    match by_uti {
        Some(m) => m,
        None => "application/octet-stream".to_owned(),
    }
}

} // verus!
