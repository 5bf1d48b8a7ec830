//! What a message that goes over the wire says of the row that it was made of.
use crate::content::{
    base_name, byte_offset, byte_slice, clean, clean_run, effect_word, effect_words, file_type, guessed_mime, home_path,
    named_parts, path_below, place_after, place_before, style_word, uti_mime, utf8_width, Animation, TextEffect,
    TextStyle,
};
use crate::contacts::owner_of;
use crate::db::{
    attachment_of, attachment_with, body_text, converted, expressive_word, file_of, formatted, kind_of, parts_of,
    participant_of, reply_of, reply_with, sender_of, visible_text, Directory,
};
use crate::history::{found_messages, ids_text, linked, page_of, targets_of};
use crate::numbers::dec_int;
use crate::rows::{
    AttachmentRow, Balloon, BubbleEffect, EditStatus, Expressive, FileRow, GroupAction, MessageRow, ReplyRow, RunRow,
    ScreenEffect,
};
use crate::text::{contains, is_white, join, occurs_at, opt, replace_all, split, trim, views, Class};
use crate::text_laws::{replacing_nothing, trimmed_text_stays, trimming_both_ends};
use crate::wire::{
    display_of, roster, tapback_glyph, title_of, unix_ms, Attachment, Chat, ChatV, Contact, Message, MessageKind,
    MessageKindV, Participant, ParticipantV, Reaction, ReplyRef, SendRequest, SendResponse, TextPart, TextPartV,
    UploadResponse,
};
use vstd::prelude::*;

verus! {

// ----- what stands for a value -----

/// The contents of a message are those of its fields, each in its place.
pub proof fn message_contents(m: Message)
    ensures
        m@.id == m.id,
        m@.guid == m.guid@,
        m@.chat_id == m.chat_id,
        m@.sender == opt(m.sender),
        m@.is_from_me == m.is_from_me,
        m@.date == m.date,
        m@.date_read == m.date_read,
        m@.date_delivered == m.date_delivered,
        m@.is_read == m.is_read,
        m@.is_delivered == m.is_delivered,
        m@.is_sent == m.is_sent,
        m@.error == m.error,
        m@.service == m.service@,
        m@.subject == opt(m.subject),
        m@.text == opt(m.text),
        m@.parts == views(m.parts@),
        m@.attachments == views(m.attachments@),
        m@.reactions == views(m.reactions@),
        m@.kind == m.kind@,
        m@.reply_to == opt(m.reply_to),
        m@.thread_originator_guid == opt(m.thread_originator_guid),
        m@.is_edited == m.is_edited,
        m@.expressive == opt(m.expressive),
        m@.is_audio == m.is_audio,
{
}

/// The contents of a kind of message, a part, a reaction, a quotation and an attachment are those
/// of their fields.
pub proof fn part_contents(k: MessageKind, t: TextPart, r: Reaction, q: ReplyRef, a: Attachment)
    ensures
        match k {
            MessageKind::Normal => k@ is Normal,
            MessageKind::Unsent => k@ is Unsent,
            MessageKind::Announcement { text } => k@ == (MessageKindV::Announcement { text: text@ }),
            MessageKind::App { bundle_id, title, summary, url } => k@ == (MessageKindV::App {
                bundle_id: bundle_id@,
                title: opt(title),
                summary: opt(summary),
                url: opt(url),
            }),
        },
        t@.text == t.text@,
        t@.effects == views(t.effects@),
        r@.kind == r.kind@,
        r@.emoji == r.emoji@,
        r@.sender == opt(r.sender),
        r@.from_me == r.from_me,
        q@.guid == q.guid@,
        q@.preview == opt(q.preview),
        q@.sender_name == opt(q.sender_name),
        a@.id == a.id,
        a@.guid == opt(a.guid),
        a@.name == a.name@,
        a@.mime == a.mime@,
        a@.size == a.size,
        a@.is_sticker == a.is_sticker,
        a@.available == a.available,
        a@.url == a.url@,
{
}

/// The contents of a chat, a participant and a contact are those of their fields.
pub proof fn chat_contents(c: Chat, p: Participant, k: Contact)
    ensures
        c@.id == c.id,
        c@.guid == c.guid@,
        c@.identifier == c.identifier@,
        c@.service == c.service@,
        c@.display_name == opt(c.display_name),
        c@.is_group == c.is_group,
        c@.participants == views(c.participants@),
        c@.last_date == c.last_date,
        c@.last_preview == opt(c.last_preview),
        c@.last_from_me == c.last_from_me,
        c@.unread == c.unread,
        p@.handle_id == p.handle_id,
        p@.address == p.address@,
        p@.name == opt(p.name),
        p@.contact_id == p.contact_id,
        k@.id == k.id,
        k@.name == k.name@,
        k@.first == opt(k.first),
        k@.last == opt(k.last),
        k@.organization == opt(k.organization),
        k@.phones == views(k.phones@),
        k@.emails == views(k.emails@),
        k@.has_photo == k.has_photo,
{
}

/// The contents of a request to send, its answer and an upload are those of their fields.
pub proof fn request_contents(r: SendRequest, a: SendResponse, u: UploadResponse)
    ensures
        r@.chat_guid == opt(r.chat_guid),
        r@.to == views(r.to@),
        r@.text == opt(r.text),
        r@.uploads == views(r.uploads@),
        r@.paths == views(r.paths@),
        a@.ok == a.ok,
        a@.detail == opt(a.detail),
        u@.id == u.id@,
        u@.name == u.name@,
        u@.size == u.size,
{
}

// ----- names and dates -----

/// A participant goes by the name of the contact, and by the address where there is none.
pub proof fn participants_go_by_their_names(p: ParticipantV)
    ensures
        p.name matches Some(n) ==> display_of(p) == n,
        p.name is None ==> display_of(p) == p.address,
{
}

/// A chat goes by its own name where that is not empty, else by its members, separated by commas,
/// else by its identifier.
pub proof fn chats_go_by_their_names(c: ChatV, p: ParticipantV)
    ensures
        c.display_name is Some && c.display_name->0.len() > 0 ==> title_of(c) == c.display_name->0,
        (c.display_name is None || c.display_name->0.len() == 0) && c.participants.len() == 0 ==> title_of(c)
            == c.identifier,
        (c.display_name is None || c.display_name->0.len() == 0) && c.participants.len() > 0 ==> title_of(c) == roster(
            c.participants,
        ),
        roster(seq![p]) == display_of(p),
        c.participants.len() > 0 ==> roster(c.participants.push(p)) == roster(c.participants) + ", "@ + display_of(p),
{
    let one = crate::wire::names_of(seq![p]);
    assert(one.len() == 1);
    assert(one[0] == display_of(p));
    let all = crate::wire::names_of(c.participants.push(p));
    assert(all.drop_last() =~= crate::wire::names_of(c.participants));
    if c.participants.len() > 0 {
        assert(all.last() == display_of(p));
    }
}

/// A time stamp counts nanoseconds since 2001, one up to ten thousand millions seconds, and 0 is
/// no time at all.
pub proof fn dates_count_from_2001(ts: int)
    ensures
        unix_ms(0) == 0,
        ts > 10_000_000_000 ==> (unix_ms(ts) - 978_307_200_000) * 1_000_000 <= ts < (unix_ms(ts) - 978_307_200_000 + 1)
            * 1_000_000,
        ts != 0 && ts <= 10_000_000_000 ==> unix_ms(ts) == 978_307_200_000 + 1000 * ts,
{
}

/// The glyphs of the named tapbacks.
pub proof fn glyphs_are_known(kind: Seq<char>)
    ensures
        kind == "love"@ ==> tapback_glyph(kind) == "❤️"@,
        kind == "like"@ ==> tapback_glyph(kind) == "👍"@,
        kind == "dislike"@ ==> tapback_glyph(kind) == "👎"@,
        kind == "laugh"@ ==> tapback_glyph(kind) == "😂"@,
        kind == "emphasize"@ ==> tapback_glyph(kind) == "‼️"@,
        kind == "question"@ ==> tapback_glyph(kind) == "❓"@,
        kind.len() == 0 ==> tapback_glyph(kind) == ""@,
{
    reveal_strlit("love");
    reveal_strlit("like");
    reveal_strlit("dislike");
    reveal_strlit("laugh");
    reveal_strlit("emphasize");
    reveal_strlit("question");
    assert("love"@[1] == 'o');
    assert("like"@[1] == 'i');
    assert("dislike"@.len() == 7);
    assert("laugh"@.len() == 5);
    assert("emphasize"@.len() == 9);
    assert("question"@.len() == 8);
}

/// The person behind a known handle has its address, and the name and id of the contact that owns
/// the address; nobody is behind an unknown one.
pub proof fn handles_stand_for_people(d: Directory, h: i64)
    ensures
        participant_of(d, h) is Some <==> d.handles.dom().contains(h),
        participant_of(d, h) matches Some(p) ==> {
            &&& p.handle_id == h
            &&& p.address == d.handles[h]
            &&& owner_of(d.contacts, d.handles[h]) matches Some(i) ==> p.name == Some(d.contacts[i].name) && p.contact_id
                == Some(d.contacts[i].id)
            &&& owner_of(d.contacts, d.handles[h]) is None ==> p.name is None && p.contact_id is None
        },
        sender_of(d, true, Some(h)) is None,
        sender_of(d, false, Some(h)) == participant_of(d, h),
        sender_of(d, false, None) is None,
{
}

// ----- text -----

/// A character that begins something that is taken out of a text.
pub open spec fn is_mark(c: char) -> bool {
    c == '\u{FFFC}' || c == '\u{FFFD}' || c == '$'
}

proof fn lemma_holds_first(s: Seq<char>, p: Seq<char>)
    requires
        p.len() > 0,
        contains(s, p),
    ensures
        s.contains(p[0]),
{
    let i = choose|i: int| occurs_at(s, p, i);
    assert(s.subrange(i, i + p.len())[0] == s[i]);
}

/// Text without marks is kept as it is.
pub proof fn plain_text_is_kept(t: Seq<char>)
    requires
        forall|i: int| 0 <= i < t.len() ==> !is_mark(#[trigger] t[i]),
    ensures
        clean_run(t) == t,
        t.len() > 0 && t[0] != ' ' && t[0] != '\n' && t.last() != ' ' && t.last() != '\n' ==> clean(t) == t
            && visible_text(Some(t)) == Some(t),
{
    reveal_strlit("\u{FFFC}");
    reveal_strlit("\u{FFFD}");
    reveal_strlit("$(kIMTranscriptPluginBreadcrumbTextReceiverIdentifier)");
    reveal_strlit("$(kIMTranscriptPluginBreadcrumbTextSenderIdentifier)");
    let none = Seq::<char>::empty();
    lemma_no_mark(t, "\u{FFFC}"@);
    lemma_no_mark(t, "\u{FFFD}"@);
    lemma_no_mark(t, "$(kIMTranscriptPluginBreadcrumbTextReceiverIdentifier)"@);
    lemma_no_mark(t, "$(kIMTranscriptPluginBreadcrumbTextSenderIdentifier)"@);
    if t.len() > 0 && t[0] != ' ' && t[0] != '\n' && t.last() != ' ' && t.last() != '\n' {
        trimmed_text_stays(t, Class::SpaceOrNewline);
    }
}

proof fn lemma_no_mark(t: Seq<char>, p: Seq<char>)
    requires
        forall|i: int| 0 <= i < t.len() ==> !is_mark(#[trigger] t[i]),
        p.len() > 0,
        is_mark(p[0]),
    ensures
        replace_all(t, p, Seq::<char>::empty()) == t,
{
    if contains(t, p) {
        lemma_holds_first(t, p);
    }
    replacing_nothing(t, p, Seq::empty());
}

/// What a text shows is its cleaned text without the spaces and line feeds around it; nothing
/// where nothing is left.
pub proof fn shown_text_is_inside_the_text(t: Seq<char>) -> (at: int)
    ensures
        0 <= at <= at + clean(t).len() <= clean_run(t).len(),
        clean(t) == clean_run(t).subrange(at, at + clean(t).len()),
        forall|i: int| 0 <= i < at ==> clean_run(t)[i] == ' ' || clean_run(t)[i] == '\n',
        forall|i: int|
            at + clean(t).len() <= i < clean_run(t).len() ==> clean_run(t)[i] == ' ' || clean_run(t)[i] == '\n',
        clean(t).len() > 0 ==> visible_text(Some(t)) == Some(clean(t)),
        clean(t).len() == 0 ==> visible_text(Some(t)) is None,
        visible_text(None) is None,
{
    let k = Class::SpaceOrNewline;
    let s = clean_run(t);
    let at = trimming_both_ends(s, k);
    let n = clean(t).len();
    assert forall|i: int| 0 <= i < at implies s[i] == ' ' || s[i] == '\n' by {
        assert(s.take(at)[i] == s[i]);
    }
    assert forall|i: int| at + n <= i < s.len() implies s[i] == ' ' || s[i] == '\n' by {
        assert(s.skip((at + n) as int)[i - at - n] == s[i]);
    }
    at
}

/// A character takes as many bytes as its encoding in UTF-8 has.
pub proof fn bytes_are_those_of_utf8(c: char)
    ensures
        utf8_width(c) == vstd::utf8::encode_scalar(c as u32).len(),
{
}

proof fn lemma_offsets(s: Seq<char>, i: int, j: int)
    requires
        0 <= i < j,
    ensures
        byte_offset(s, i) < byte_offset(s, j),
    decreases j,
{
    if i < j - 1 {
        lemma_offsets(s, i, j - 1);
    }
}

proof fn lemma_before(s: Seq<char>, i: int, k: int)
    requires
        0 <= i <= k <= s.len(),
    ensures
        place_before(s, byte_offset(s, k) as int, i) == k,
    decreases k - i,
{
    if i < k {
        if i + 1 < k {
            lemma_offsets(s, i + 1, k);
        }
        lemma_before(s, i + 1, k);
    } else if k < s.len() {
        lemma_offsets(s, k, k + 1);
    }
}

proof fn lemma_after(s: Seq<char>, i: int, k: int)
    requires
        0 <= i <= k <= s.len(),
    ensures
        place_after(s, byte_offset(s, k) as int, i) == k,
    decreases k - i,
{
    if i < k {
        lemma_offsets(s, i, k);
        lemma_after(s, i + 1, k);
    }
}

/// The piece between the bytes at which two characters begin is that from the one character to the
/// other.
pub proof fn pieces_run_from_character_to_character(s: Seq<char>, i: int, j: int)
    requires
        0 <= i <= j <= s.len(),
    ensures
        byte_slice(s, byte_offset(s, i) as int, byte_offset(s, j) as int) == s.subrange(i, j),
{
    if i < j {
        lemma_offsets(s, i, j);
    }
    lemma_before(s, 0, i);
    lemma_after(s, 0, j);
}

/// The bytes before a character are those of the characters before it.
pub proof fn bytes_add_up(s: Seq<char>, i: int)
    requires
        0 <= i < s.len(),
    ensures
        byte_offset(s, 0) == 0,
        byte_offset(s, i + 1) == byte_offset(s, i) + vstd::utf8::encode_scalar(s[i] as u32).len(),
{
    bytes_are_those_of_utf8(s[i]);
}

// ----- formatting -----

/// The names under which effects go over the wire.
pub proof fn effects_have_their_names(e: TextEffect)
    ensures
        match e {
            TextEffect::Default => effect_word(e) is None,
            TextEffect::Other => effect_word(e) is None,
            TextEffect::Mention(_) => effect_word(e) == Some("mention"@),
            TextEffect::Link(u) => effect_word(e) == Some("link:"@ + u@),
            TextEffect::Otp => effect_word(e) == Some("otp"@),
            TextEffect::Animated(a) => effect_word(e) == Some(
                "animated:"@ + match a {
                    Animation::Big => "big"@,
                    Animation::Small => "small"@,
                    Animation::Shake => "shake"@,
                    Animation::Nod => "nod"@,
                    Animation::Explode => "explode"@,
                    Animation::Ripple => "ripple"@,
                    Animation::Bloom => "bloom"@,
                    Animation::Jitter => "jitter"@,
                    Animation::Unknown => "unknown"@,
                },
            ),
            TextEffect::Styles(l) => effect_word(e) is Some,
        },
{
}

/// Styles go over the wire by name, in their order, separated by commas.
pub proof fn styles_have_their_names(l: Vec<TextStyle>, names: Seq<Seq<char>>)
    requires
        names.len() == l@.len(),
        forall|i: int|
            0 <= i < l@.len() ==> (#[trigger] names[i]) == match l@[i] {
                TextStyle::Bold => "bold"@,
                TextStyle::Italic => "italic"@,
                TextStyle::Strikethrough => "strikethrough"@,
                TextStyle::Underline => "underline"@,
            },
    ensures
        effect_word(TextEffect::Styles(l)) == Some(join(names, ","@)),
{
    assert(Seq::new(l@.len(), |i: int| style_word(l@[i])) =~= names);
}

/// The effects of a run are named in their order; those without a name are left out.
pub proof fn effects_keep_their_order(es: Seq<TextEffect>, e: TextEffect)
    ensures
        effect_words(Seq::<TextEffect>::empty()).len() == 0,
        effect_word(e) matches Some(w) ==> effect_words(es.push(e)) == effect_words(es).push(w),
        effect_word(e) is None ==> effect_words(es.push(e)) == effect_words(es),
{
    assert(es.push(e).drop_last() =~= es);
}

/// Each run of a text that is no attachment and shows something is a part with the run's text and
/// effects, in the order of the runs; no other run is.
pub proof fn runs_become_parts(t: Seq<char>, runs: Seq<RunRow>, r: RunRow)
    ensures
        formatted(t, Seq::<RunRow>::empty()).len() == 0,
        ({
            let text = clean_run(byte_slice(t, r.start as int, r.end as int));
            &&& r.is_attachment || text.len() == 0 ==> formatted(t, runs.push(r)) == formatted(t, runs)
            &&& !r.is_attachment && text.len() > 0 ==> formatted(t, runs.push(r)) == formatted(t, runs).push(
                TextPartV { text, effects: effect_words(r.effects@) },
            )
        }),
{
    assert(runs.push(r).drop_last() =~= runs);
}

/// A message has the parts of its runs; where they show nothing, all its text in one part; and no
/// part where it shows no text either.
pub proof fn text_stands_in_parts(raw: Option<Seq<char>>, runs: Seq<RunRow>)
    ensures
        raw is Some && formatted(raw->0, runs).len() > 0 ==> parts_of(raw, runs) == formatted(raw->0, runs),
        raw is Some && formatted(raw->0, runs).len() == 0 && clean(raw->0).len() > 0 ==> parts_of(raw, runs).len() == 1
            && parts_of(raw, runs)[0].text == clean(raw->0) && parts_of(raw, runs)[0].effects.len() == 0,
        raw is Some && formatted(raw->0, runs).len() == 0 && clean(raw->0).len() == 0 ==> parts_of(raw, runs).len() == 0,
        raw is None ==> parts_of(raw, runs).len() == 0,
{
}

// ----- the message -----

/// A message carries over what its row says.
pub proof fn messages_carry_their_rows(d: Directory, row: MessageRow, home: Seq<char>)
    ensures
        ({
            let m = converted(d, row, home);
            &&& m.id == row.rowid
            &&& m.guid == row.guid@
            &&& row.chat_id matches Some(c) ==> m.chat_id == c
            &&& row.chat_id is None ==> m.chat_id == 0
            &&& m.is_from_me == row.is_from_me
            &&& m.is_read == row.is_read
            &&& m.is_delivered == row.extra.is_delivered
            &&& m.is_sent == row.extra.is_sent
            &&& m.error == row.extra.error
            &&& m.is_audio == row.extra.is_audio
            &&& row.service matches Some(s) ==> m.service == s@
            &&& row.service is None ==> m.service == "iMessage"@
            &&& row.subject is Some && row.subject->0@.len() > 0 ==> m.subject == Some(row.subject->0@)
            &&& row.subject is None || row.subject->0@.len() == 0 ==> m.subject is None
            &&& row.text is Some && clean(row.text->0@).len() > 0 ==> m.text == Some(clean(row.text->0@))
            &&& row.text is None || clean(row.text->0@).len() == 0 ==> m.text is None
            &&& m.parts == parts_of(opt(row.text), row.runs@)
            &&& row.thread_originator_guid matches Some(g) ==> m.thread_originator_guid == Some(g@)
            &&& row.thread_originator_guid is None ==> m.thread_originator_guid is None
            &&& m.is_edited <==> exists|i: int| 0 <= i < row.edits@.len() && #[trigger] row.edits@[i] is Edited
            &&& m.reactions.len() == 0
            &&& row.is_from_me ==> m.sender is None
            &&& !row.is_from_me && row.handle_id is Some ==> m.sender == participant_of(d, row.handle_id->0)
            &&& m.attachments.len() == row.attachments@.len()
        }),
{
    let m = converted(d, row, home);
    if m.is_edited {
        let i = choose|i: int| 0 <= i < row.edits@.len() && row.edits@[i] == EditStatus::Edited;
        assert(row.edits@[i] is Edited);
    }
    if exists|i: int| 0 <= i < row.edits@.len() && #[trigger] row.edits@[i] is Edited {
        let i = choose|i: int| 0 <= i < row.edits@.len() && #[trigger] row.edits@[i] is Edited;
        assert(row.edits@[i] == EditStatus::Edited);
        assert(row.edits@.contains(EditStatus::Edited));
    }
}

/// The dates of a message are those of its row, each in milliseconds.
pub proof fn messages_carry_their_dates(d: Directory, row: MessageRow, home: Seq<char>)
    requires
        row.date * 1000 >= i64::MIN,
        row.date_read * 1000 >= i64::MIN,
        row.date_delivered * 1000 >= i64::MIN,
    ensures
        converted(d, row, home).date == unix_ms(row.date as int),
        converted(d, row, home).date_read == unix_ms(row.date_read as int),
        converted(d, row, home).date_delivered == unix_ms(row.date_delivered as int),
{
}

/// What a message is: unsent where it was taken back, an announcement where it reports a change to
/// the group or a shared session, an app balloon, a system line, and else a message like any other.
pub proof fn messages_are_what_they_are(d: Directory, row: MessageRow)
    ensures
        ({
            let kind = kind_of(d, row);
            let gone = row.fully_unsent || row.extra.date_retracted > 0;
            let shows = row.text is Some && clean(row.text->0@).len() > 0;
            &&& gone ==> kind is Unsent
            &&& !gone && row.group_action is Some ==> kind is Announcement
            &&& !gone && row.group_action is None && row.is_shareplay ==> kind == (MessageKindV::Announcement {
                text: "SharePlay"@,
            })
            &&& !gone && row.group_action is None && !row.is_shareplay && row.balloon is Some ==> kind is App
            &&& !gone && row.group_action is None && !row.is_shareplay && row.balloon is None ==> {
                &&& row.item_type != 0 && !shows && row.num_attachments == 0 ==> kind == (MessageKindV::Announcement {
                    text: "(system message)"@,
                })
                &&& row.item_type == 0 || shows || row.num_attachments != 0 ==> kind is Normal
            }
        }),
{
}

/// A change to a group is reported with who made it, what it was, and whom it was about.
pub proof fn changes_to_a_group_are_reported(d: Directory, row: MessageRow, who: Seq<char>, whom: Seq<char>, h: i64)
    requires
        !row.fully_unsent,
        row.extra.date_retracted <= 0,
        row.group_action is Some,
        row.is_from_me ==> who == "You"@,
        !row.is_from_me && row.handle_id is Some && participant_of(d, row.handle_id->0) is Some ==> who == display_of(
            participant_of(d, row.handle_id->0)->0,
        ),
        !row.is_from_me && (row.handle_id is None || participant_of(d, row.handle_id->0) is None) ==> who == "Someone"@,
        participant_of(d, h) is Some ==> whom == display_of(participant_of(d, h)->0),
        participant_of(d, h) is None ==> whom == "someone"@,
    ensures
        ({
            let text = kind_of(d, row)->Announcement_text;
            match row.group_action->0 {
                GroupAction::ParticipantAdded(x) => x == h ==> text == who + " added "@ + whom,
                GroupAction::ParticipantRemoved(x) => x == h ==> text == who + " removed "@ + whom,
                GroupAction::NameChange(n) => text == who + " named the conversation \""@ + n@ + "\""@,
                GroupAction::ParticipantLeft => text == who + " left the conversation"@,
                GroupAction::GroupIconChanged => text == who + " changed the group photo"@,
                GroupAction::GroupIconRemoved => text == who + " removed the group photo"@,
                GroupAction::ChatBackgroundChanged => text == who + " changed the background"@,
                GroupAction::ChatBackgroundRemoved => text == who + " removed the background"@,
                GroupAction::PhoneNumberChanged => text == who + " changed their number"@,
            }
        }),
{
}

/// A link balloon shows what its payload says, and the text of the message as the address where
/// the payload has none; another app's balloon shows the name of the app.
pub proof fn balloons_show_what_they_hold(d: Directory, row: MessageRow)
    requires
        !row.fully_unsent,
        row.extra.date_retracted <= 0,
        row.group_action is None,
        !row.is_shareplay,
        row.balloon is Some,
    ensures
        kind_of(d, row) matches MessageKindV::App { bundle_id, title, summary, url } && {
            &&& row.bundle_id matches Some(b) ==> bundle_id == b@
            &&& row.bundle_id is None ==> bundle_id.len() == 0
            &&& !(row.balloon->0 is Url) ==> title is Some && summary is None && url is None
            &&& match row.balloon->0 {
                Balloon::Url => {
                    &&& row.link is None ==> title is None && summary is None && url == visible_text(opt(row.text))
                    &&& row.link matches Some(l) ==> {
                        &&& title == opt(l.title)
                        &&& summary == opt(l.summary)
                        &&& l.url matches Some(u) ==> url == Some(u@)
                        &&& l.url is None ==> url == visible_text(opt(row.text))
                    }
                },
                Balloon::ApplePay => title == Some("Apple Cash"@),
                Balloon::Fitness => title == Some("Fitness"@),
                Balloon::Slideshow => title == Some("Photos"@),
                Balloon::CheckIn => title == Some("Check In"@),
                Balloon::FindMy => title == Some("Find My"@),
                Balloon::Polls => title == Some("Poll"@),
                Balloon::Handwriting => title == Some("Handwriting"@),
                Balloon::DigitalTouch => title == Some("Digital Touch"@),
                Balloon::Business => title == Some("Business"@),
                Balloon::Application(b) => {
                    &&& !title->0.contains('.')
                    &&& b@.len() >= title->0.len()
                    &&& b@.skip(b@.len() - title->0.len()) == title->0
                    &&& b@.contains('.') ==> b@.len() > title->0.len() && b@[b@.len() - title->0.len() - 1] == '.'
                    &&& !b@.contains('.') ==> title->0 == b@
                },
            }
        },
{
    if let Balloon::Application(b) = row.balloon->0 {
        crate::text::lemma_after_last(b@, '.');
        let n = crate::text::after_last(b@, '.');
        let t = b@.skip(n);
        assert forall|i: int| 0 <= i < t.len() implies t[i] != '.' by {
            assert(t[i] == b@[n + i]);
        }
        if b@.contains('.') {
            let i = choose|i: int| 0 <= i < b@.len() && b@[i] == '.';
            assert(b@[i] == '.');
        } else {
            assert(n == 0) by {
                if n > 0 {
                    assert(b@[n - 1] == '.');
                }
            }
            assert(b@.skip(0) =~= b@);
        }
    }
}

/// The names of the effects that a message is sent with.
pub proof fn sent_effects_have_their_names(e: Expressive)
    ensures
        match e {
            Expressive::Plain => expressive_word(e) is None,
            Expressive::Screen(ScreenEffect::Confetti) => expressive_word(e) == Some("confetti"@),
            Expressive::Screen(ScreenEffect::Echo) => expressive_word(e) == Some("echo"@),
            Expressive::Screen(ScreenEffect::Fireworks) => expressive_word(e) == Some("fireworks"@),
            Expressive::Screen(ScreenEffect::Balloons) => expressive_word(e) == Some("balloons"@),
            Expressive::Screen(ScreenEffect::Heart) => expressive_word(e) == Some("heart"@),
            Expressive::Screen(ScreenEffect::Lasers) => expressive_word(e) == Some("lasers"@),
            Expressive::Screen(ScreenEffect::ShootingStar) => expressive_word(e) == Some("shooting star"@),
            Expressive::Screen(ScreenEffect::Sparkles) => expressive_word(e) == Some("sparkles"@),
            Expressive::Screen(ScreenEffect::Spotlight) => expressive_word(e) == Some("spotlight"@),
            Expressive::Bubble(BubbleEffect::Slam) => expressive_word(e) == Some("slam"@),
            Expressive::Bubble(BubbleEffect::Loud) => expressive_word(e) == Some("loud"@),
            Expressive::Bubble(BubbleEffect::Gentle) => expressive_word(e) == Some("gentle"@),
            Expressive::Bubble(BubbleEffect::InvisibleInk) => expressive_word(e) == Some("invisible ink"@),
            Expressive::Unknown(s) => expressive_word(e) == Some(s@),
        },
{
}

/// A message tells what it was sent with.
pub proof fn messages_tell_their_effect(d: Directory, row: MessageRow, home: Seq<char>)
    ensures
        converted(d, row, home).expressive == expressive_word(row.expressive),
        converted(d, row, home).kind == kind_of(d, row),
        converted(d, row, home).reply_to == reply_of(d, row),
{
}

// ----- quotations -----

/// A reply quotes the message that it answers: the one at the guid of the thread, where it was
/// found. Nothing else is quoted.
pub proof fn replies_quote_what_they_answer(d: Directory, row: MessageRow)
    ensures
        reply_of(d, row) is Some <==> row.is_reply && row.thread_originator_guid is Some && row.reply is Some,
        reply_of(d, row) matches Some(q) ==> q.guid == row.thread_originator_guid->0@ && (row.reply->0.is_from_me
            ==> q.sender_name == Some("You"@)) && (!row.reply->0.is_from_me && row.reply->0.handle_id is Some
            && participant_of(d, row.reply->0.handle_id->0) is Some ==> q.sender_name == Some(
            display_of(participant_of(d, row.reply->0.handle_id->0)->0),
        )) && (!row.reply->0.is_from_me && (row.reply->0.handle_id is None || participant_of(
            d,
            row.reply->0.handle_id->0,
        ) is None) ==> q.sender_name is None),
{
}

/// What a quotation shows: the text of the quoted message where that is not blank, else what its
/// body holds, each without placeholders and surrounding white space; where nothing is left, a word
/// for an attachment.
pub proof fn quotations_show_the_text(d: Directory, guid: Seq<char>, row: ReplyRow, body: Option<Seq<char>>)
    ensures
        ({
            let q = reply_with(d, guid, row, body).preview;
            let none = Seq::<char>::empty();
            let text = trim(replace_all(row.text->0@, "\u{FFFC}"@, none));
            let held = trim(replace_all(body->0, "\u{FFFC}"@, none));
            let blank = row.text is None || trim(row.text->0@).len() == 0;
            &&& !blank && text.len() > 0 ==> q == Some(text)
            &&& blank && body is Some && held.len() > 0 ==> q == Some(held)
            &&& (!blank && text.len() == 0 || blank && (body is None || held.len() == 0)) ==> (row.has_attachments ==> q
                == Some("📎 Attachment"@)) && (!row.has_attachments ==> q is None)
        }),
{
}

/// A quoted text without placeholders and outer white space shows as it is, whatever its body.
pub proof fn quoted_text_is_shown(d: Directory, guid: Seq<char>, row: ReplyRow, body: Option<Seq<char>>)
    requires
        row.text is Some,
        row.text->0@.len() > 0,
        !row.text->0@.contains('\u{FFFC}'),
        !is_white(row.text->0@[0]),
        !is_white(row.text->0@.last()),
    ensures
        reply_with(d, guid, row, body).preview == Some(row.text->0@),
        reply_with(d, guid, row, body).guid == guid,
{
    let t = row.text->0@;
    reveal_strlit("\u{FFFC}");
    if contains(t, "\u{FFFC}"@) {
        lemma_holds_first(t, "\u{FFFC}"@);
    }
    replacing_nothing(t, "\u{FFFC}"@, Seq::empty());
    trimmed_text_stays(t, Class::White);
}

/// The body of a quoted message is what its typed stream holds.
pub proof fn quoted_bodies_are_parsed(d: Directory, row: MessageRow)
    requires
        row.is_reply,
        row.thread_originator_guid is Some,
        row.reply is Some,
    ensures
        row.reply->0.body matches Some(b) ==> reply_of(d, row) == Some(
            reply_with(d, row.thread_originator_guid->0@, row.reply->0, body_text(b@)),
        ),
        row.reply->0.body is None ==> reply_of(d, row) == Some(
            reply_with(d, row.thread_originator_guid->0@, row.reply->0, None),
        ),
{
}

// ----- attachments -----

/// A path that starts with a tilde lies in the home directory; any other stands for itself.
pub proof fn tildes_stand_for_home(p: Seq<char>, home: Seq<char>)
    ensures
        home_path(seq!['~'] + p, home) == home + p,
        p.len() == 0 || p[0] != '~' ==> home_path(p, home) == p,
{
    reveal_strlit("~");
    let q = seq!['~'] + p;
    assert("~"@ =~= seq!['~']);
    assert(q.subrange(0, 1) =~= "~"@);
    assert(q.skip(1) =~= p);
    if p.len() > 0 && p[0] != '~' {
        assert(p.subrange(0, 1)[0] != "~"@[0]);
    }
}

/// A path below a directory goes through one slash; an absolute path stands for itself.
pub proof fn paths_go_through_one_slash(dir: Seq<char>, rest: Seq<char>)
    ensures
        rest.len() > 0 && rest[0] == '/' ==> path_below(dir, rest) == rest,
        (rest.len() == 0 || rest[0] != '/') && dir.len() > 0 && dir.last() != '/' ==> path_below(dir, rest) == dir
            + seq!['/'] + rest,
        (rest.len() == 0 || rest[0] != '/') && (dir.len() == 0 || dir.last() == '/') ==> path_below(dir, rest) == dir
            + rest,
{
    reveal_strlit("/");
    assert("/"@ =~= seq!['/']);
}

proof fn lemma_split_tail(dir: Seq<char>, name: Seq<char>)
    requires
        !name.contains('/'),
    ensures
        split(dir + seq!['/'] + name, '/') == split(dir, '/').push(name),
    decreases name.len(),
{
    let s = dir + seq!['/'] + name;
    if name.len() == 0 {
        assert(s.drop_last() =~= dir);
        assert(name =~= Seq::<char>::empty());
    } else {
        let n = name.drop_last();
        assert(!n.contains('/')) by {
            if n.contains('/') {
                let i = choose|i: int| 0 <= i < n.len() && n[i] == '/';
                assert(name[i] == '/');
            }
        }
        lemma_split_tail(dir, n);
        assert(s.drop_last() =~= dir + seq!['/'] + n);
        assert(name.contains(name.last()));
        assert(n.push(name.last()) =~= name);
        let p = split(dir, '/').push(n);
        assert(p.drop_last() =~= split(dir, '/'));
    }
}

/// The name of a file is what stands after the last slash of its path.
pub proof fn files_are_named_at_the_end(dir: Seq<char>, name: Seq<char>)
    requires
        !name.contains('/'),
        name.len() > 0,
        name != "."@,
        name != ".."@,
    ensures
        base_name(dir + seq!['/'] + name) == Some(name),
        base_name(dir + seq!['/'] + name + seq!['/']) == Some(name),
{
    lemma_split_tail(dir, name);
    let p = split(dir, '/').push(name);
    assert(p.drop_last() =~= split(dir, '/'));
    let s = dir + seq!['/'] + name + seq!['/'];
    assert(s.drop_last() =~= dir + seq!['/'] + name);
    let q = p.push(Seq::<char>::empty());
    assert(q.drop_last() =~= p);
    assert(named_parts(q) == named_parts(p));
}

/// A path that ends in two dots names no file, nor does one of slashes alone.
pub proof fn some_paths_name_no_file(dir: Seq<char>)
    ensures
        base_name(dir + "/.."@) is None,
        base_name("/"@) is None,
        base_name(Seq::<char>::empty()) is None,
{
    reveal_strlit("/..");
    reveal_strlit("..");
    reveal_strlit("/");
    reveal_strlit(".");
    let up = ".."@;
    assert(up =~= seq!['.', '.']);
    assert(!up.contains('/'));
    lemma_split_tail(dir, up);
    assert(dir + "/.."@ =~= dir + seq!['/'] + up);
    let p = split(dir, '/').push(up);
    assert(p.drop_last() =~= split(dir, '/'));
    assert(up.len() == 2 && "."@.len() == 1);
    let none = Seq::<char>::empty();
    let e = split(none, '/');
    assert(e.drop_last() =~= Seq::<Seq<char>>::empty());
    assert(named_parts(e.drop_last()).len() == 0);
    assert(named_parts(e).len() == 0);
    let one = "/"@;
    assert(one.drop_last() =~= none);
    let f = split(one, '/');
    assert(f.drop_last() =~= e);
}

/// The types of files by their type identifiers.
pub proof fn type_identifiers_are_known(uti: Seq<char>)
    ensures
        uti == "public.heic"@ ==> uti_mime(uti) == Some("image/heic"@),
        uti == "public.heif"@ ==> uti_mime(uti) == Some("image/heic"@),
        uti == "public.jpeg"@ ==> uti_mime(uti) == Some("image/jpeg"@),
        uti == "public.png"@ ==> uti_mime(uti) == Some("image/png"@),
        uti == "com.compuserve.gif"@ ==> uti_mime(uti) == Some("image/gif"@),
        uti == "public.mpeg-4"@ ==> uti_mime(uti) == Some("video/mp4"@),
        uti == "com.apple.quicktime-movie"@ ==> uti_mime(uti) == Some("video/mp4"@),
        uti == "public.mp3"@ ==> uti_mime(uti) == Some("audio/mpeg"@),
        uti == "com.apple.m4a-audio"@ ==> uti_mime(uti) == Some("audio/mp4"@),
        uti == "public.mpeg-4-audio"@ ==> uti_mime(uti) == Some("audio/mp4"@),
        uti == "com.apple.coreaudio-format"@ ==> uti_mime(uti) == Some("audio/x-caf"@),
        uti == "com.adobe.pdf"@ ==> uti_mime(uti) == Some("application/pdf"@),
        uti == "public.vcard"@ ==> uti_mime(uti) == Some("text/vcard"@),
        uti.len() < 10 ==> uti_mime(uti) is None,
{
    reveal_strlit("public.heic");
    reveal_strlit("public.heif");
    reveal_strlit("public.jpeg");
    reveal_strlit("public.png");
    reveal_strlit("com.compuserve.gif");
    reveal_strlit("public.mpeg-4");
    reveal_strlit("com.apple.quicktime-movie");
    reveal_strlit("public.mp3");
    reveal_strlit("com.apple.m4a-audio");
    reveal_strlit("public.mpeg-4-audio");
    reveal_strlit("com.apple.coreaudio-format");
    reveal_strlit("com.adobe.pdf");
    reveal_strlit("public.vcard");
    assert("public.heic"@.len() == 11);
    assert("public.heif"@.len() == 11);
    assert("public.jpeg"@.len() == 11);
    assert("public.png"@.len() == 10);
    assert("com.compuserve.gif"@.len() == 18);
    assert("public.mpeg-4"@.len() == 13);
    assert("com.apple.quicktime-movie"@.len() == 25);
    assert("public.mp3"@.len() == 10);
    assert("com.apple.m4a-audio"@.len() == 19);
    assert("public.mpeg-4-audio"@.len() == 19);
    assert("com.apple.coreaudio-format"@.len() == 26);
    assert("com.adobe.pdf"@.len() == 13);
    assert("public.vcard"@.len() == 12);
    assert("public.heic"@[7] == 'h');
    assert("public.heif"@[7] == 'h');
    assert("public.jpeg"@[7] == 'j');
    assert("public.png"@[7] == 'p');
    assert("public.mp3"@[7] == 'm');
    assert("public.mpeg-4"@[0] == 'p');
    assert("com.adobe.pdf"@[0] == 'c');
    assert("com.apple.m4a-audio"@[0] == 'c');
    assert("public.mpeg-4-audio"@[0] == 'p');
}

/// The type of a file is the one that is stored; where none is, the one that its path suggests,
/// then the one of its identifier, and bytes of any kind at last.
pub proof fn stored_types_come_first(
    stored: Option<Seq<char>>,
    guessed: Option<Seq<char>>,
    uti: Option<Seq<char>>,
)
    ensures
        stored matches Some(t) ==> file_type(stored, guessed, uti) == t,
        stored is None ==> (guessed matches Some(t) ==> file_type(stored, guessed, uti) == t),
        stored is None && guessed is None && uti is Some && uti_mime(uti->0) is Some ==> file_type(stored, guessed, uti)
            == uti_mime(uti->0)->0,
        stored is None && guessed is None && (uti is None || uti_mime(uti->0) is None) ==> file_type(stored, guessed, uti)
            == "application/octet-stream"@,
{
}

/// An attachment carries over what its row says: its name or that of its file, its type, and
/// whether the file is there.
pub proof fn attachments_carry_their_rows(a: AttachmentRow, home: Seq<char>, guessed: Option<Seq<char>>)
    ensures
        ({
            let r = attachment_with(a, home, guessed);
            &&& r.id == a.rowid
            &&& a.guid matches Some(g) ==> r.guid == Some(g@)
            &&& a.guid is None ==> r.guid is None
            &&& r.size == a.total_bytes
            &&& r.is_sticker == a.is_sticker
            &&& r.available <==> a.filename is Some && a.on_disk
            &&& r.url == "/api/attachments/"@ + dec_int(a.rowid as int)
            &&& a.transfer_name matches Some(n) ==> r.name == n@
            &&& a.transfer_name is None && a.filename is Some && base_name(home_path(a.filename->0@, home)) is Some
                ==> r.name == base_name(home_path(a.filename->0@, home))->0
            &&& a.transfer_name is None && (a.filename is None || base_name(home_path(a.filename->0@, home)) is None)
                ==> r.name == "attachment"@
            &&& r.mime == file_type(opt(a.mime_type), guessed, opt(a.uti))
        }),
        a.filename matches Some(f) ==> attachment_of(a, home) == attachment_with(
            a,
            home,
            guessed_mime(home_path(f@, home)),
        ),
        a.filename is None ==> attachment_of(a, home) == attachment_with(a, home, None),
{
}

/// A message has all attachments of its row, in their order.
pub proof fn messages_carry_their_attachments(d: Directory, row: MessageRow, home: Seq<char>, i: int)
    requires
        0 <= i < row.attachments@.len(),
    ensures
        converted(d, row, home).attachments.len() == row.attachments@.len(),
        converted(d, row, home).attachments[i] == attachment_of(row.attachments@[i], home),
{
}

/// The file of an attachment is at its path, under the name that it was sent with, else its own.
pub proof fn files_are_where_they_are_said_to_be(row: FileRow, home: Seq<char>, guessed: Option<Seq<char>>)
    ensures
        row.filename is None ==> file_of(row, home, guessed) is None,
        row.filename matches Some(f) ==> {
            let p = home_path(f@, home);
            file_of(row, home, guessed) matches Some(r) && {
                &&& r.0 == p
                &&& r.1 == file_type(opt(row.mime_type), guessed, opt(row.uti))
                &&& row.transfer_name matches Some(n) ==> r.2 == n@
                &&& row.transfer_name is None ==> (base_name(p) matches Some(b) ==> r.2 == b)
                &&& row.transfer_name is None && base_name(p) is None ==> r.2.len() == 0
            }
        },
{
}

// ----- several messages -----

/// A page holds the newest rows, as many as asked for, the newest last; there is more where there
/// are more rows.
pub proof fn pages_hold_the_newest(d: Directory, rows: Seq<MessageRow>, limit: int, home: Seq<char>, i: int)
    requires
        limit >= 0,
    ensures
        ({
            let p = page_of(d, rows, limit, home);
            let n = if rows.len() <= limit {
                rows.len() as int
            } else {
                limit
            };
            &&& p.messages.len() == n
            &&& 0 <= i < n ==> p.messages[n - 1 - i] == converted(d, rows[i], home)
            &&& p.has_more <==> rows.len() > limit
        }),
{
}

/// Every row in a chat that is no tapback is a message, in the order of the rows; no other row is.
pub proof fn rows_in_a_chat_are_messages(d: Directory, rows: Seq<MessageRow>, row: MessageRow, home: Seq<char>)
    ensures
        linked(d, Seq::<MessageRow>::empty(), home).len() == 0,
        row.chat_id is Some && (row.associated_type is None || row.associated_type->0 < 1000 || row.associated_type->0
            > 3999) ==> linked(d, rows.push(row), home) == linked(d, rows, home).push(converted(d, row, home)),
        row.chat_id is None || (row.associated_type is Some && 1000 <= row.associated_type->0 <= 3999) ==> linked(
            d,
            rows.push(row),
            home,
        ) == linked(d, rows, home),
{
    assert(rows.push(row).drop_last() =~= rows);
}

/// Every message that was looked up and found in a chat counts, in order.
pub proof fn found_rows_are_messages(
    d: Directory,
    rows: Seq<Option<MessageRow>>,
    row: Option<MessageRow>,
    home: Seq<char>,
)
    ensures
        found_messages(d, Seq::<Option<MessageRow>>::empty(), home).len() == 0,
        row is Some && row->0.chat_id is Some ==> found_messages(d, rows.push(row), home) == found_messages(
            d,
            rows,
            home,
        ).push(converted(d, row->0, home)),
        row is None || row->0.chat_id is None ==> found_messages(d, rows.push(row), home) == found_messages(
            d,
            rows,
            home,
        ),
{
    assert(rows.push(row).drop_last() =~= rows);
}

/// The message that a tapback is on is looked up, for every tapback that names one.
pub proof fn tapbacks_name_their_messages(rows: Seq<MessageRow>, row: MessageRow)
    ensures
        targets_of(Seq::<MessageRow>::empty()).len() == 0,
        row.associated_type is Some && 1000 <= row.associated_type->0 <= 3999 && row.associated_guid is Some
            ==> targets_of(rows.push(row)) == targets_of(rows).push(row.associated_guid->0@),
        row.associated_type is None || row.associated_type->0 < 1000 || row.associated_type->0 > 3999
            || row.associated_guid is None ==> targets_of(rows.push(row)) == targets_of(rows),
{
    assert(rows.push(row).drop_last() =~= rows);
}

/// Row ids are listed in decimal with commas between them.
pub proof fn row_ids_are_listed(ids: Seq<i64>, id: i64)
    ensures
        ids_text(seq![id]) == dec_int(id as int),
        ids.len() > 0 ==> ids_text(ids.push(id)) == ids_text(ids) + ","@ + dec_int(id as int),
{
    let one = Seq::new(1, |i: int| dec_int(seq![id][i] as int));
    assert(one[0] == dec_int(id as int));
    let all = Seq::new(ids.push(id).len(), |i: int| dec_int(ids.push(id)[i] as int));
    assert(all.drop_last() =~= Seq::new(ids.len(), |i: int| dec_int(ids[i] as int)));
}

} // verus!
