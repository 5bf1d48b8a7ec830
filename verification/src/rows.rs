//! What the message database holds, row by row, as plain values.
use crate::content::TextEffect;
use vstd::prelude::*;

verus! {

/// A stretch of a message's text with its formatting; the bounds count bytes.
#[derive(Debug)]
pub struct RunRow {
    pub start: usize,
    pub end: usize,
    pub effects: Vec<TextEffect>,
    /// The stretch stands for an attachment.
    pub is_attachment: bool,
}

/// A file that came with a message.
#[derive(Debug)]
pub struct AttachmentRow {
    pub rowid: i64,
    pub guid: Option<String>,
    pub filename: Option<String>,
    pub transfer_name: Option<String>,
    pub mime_type: Option<String>,
    pub uti: Option<String>,
    pub total_bytes: i64,
    pub is_sticker: bool,
    /// The file at `filename` exists.
    pub on_disk: bool,
}

/// What a link balloon carries in its payload.
#[derive(Debug)]
pub struct LinkRow {
    pub title: Option<String>,
    pub summary: Option<String>,
    pub url: Option<String>,
}

/// The kind of an app balloon.
#[derive(Debug)]
pub enum Balloon {
    Url,
    ApplePay,
    Fitness,
    Slideshow,
    CheckIn,
    FindMy,
    Polls,
    Handwriting,
    DigitalTouch,
    Business,
    /// Any other app, by its bundle id.
    Application(String),
}

/// What happened to a group.
#[derive(Debug)]
pub enum GroupAction {
    ParticipantAdded(i64),
    ParticipantRemoved(i64),
    NameChange(String),
    ParticipantLeft,
    GroupIconChanged,
    GroupIconRemoved,
    ChatBackgroundChanged,
    ChatBackgroundRemoved,
    PhoneNumberChanged,
}

/// An effect that fills the screen.
#[derive(Debug, Clone, Copy, PartialEq, Eq, Structural)]
pub enum ScreenEffect {
    Confetti,
    Echo,
    Fireworks,
    Balloons,
    Heart,
    Lasers,
    ShootingStar,
    Sparkles,
    Spotlight,
}

/// An effect on the bubble of a message.
#[derive(Debug, Clone, Copy, PartialEq, Eq, Structural)]
pub enum BubbleEffect {
    Slam,
    Loud,
    Gentle,
    InvisibleInk,
}

/// The effect that a message was sent with.
#[derive(Debug)]
pub enum Expressive {
    /// No effect.
    Plain,
    Screen(ScreenEffect),
    Bubble(BubbleEffect),
    Unknown(String),
}

/// What became of a part of a message after it was sent.
#[derive(Debug, Clone, Copy, PartialEq, Eq, Structural)]
pub enum EditStatus {
    Edited,
    Unsent,
    Original,
}

/// The message that another one answers.
#[derive(Debug)]
pub struct ReplyRow {
    pub text: Option<String>,
    /// The attributed body, in the archive format of Apple's type streams.
    pub body: Option<Vec<u8>>,
    pub is_from_me: bool,
    pub handle_id: Option<i64>,
    pub has_attachments: bool,
}

/// Columns that may be null.
#[derive(Debug)]
pub struct ExtraRow {
    pub is_delivered: Option<bool>,
    pub is_sent: Option<bool>,
    pub error: Option<i64>,
    pub is_audio_message: Option<bool>,
    pub date_retracted: Option<i64>,
}

/// The columns of an `ExtraRow` with their defaults.
#[derive(Debug, Clone, Copy, PartialEq, Eq, Structural)]
pub struct Extra {
    pub is_delivered: bool,
    pub is_sent: bool,
    pub error: i64,
    pub is_audio: bool,
    pub date_retracted: i64,
}

/// The value of a column that may be null.
pub open spec fn or_value<T>(o: Option<T>, default: T) -> T {
    match o {
        Some(v) => v,
        None => default,
    }
}

impl Extra {
    /// The columns of a row; a null counts as `false` or 0.
    pub fn from_row(row: &ExtraRow) -> (r: Self)
        ensures
            r.is_delivered == or_value(row.is_delivered, false),
            r.is_sent == or_value(row.is_sent, false),
            r.error == or_value(row.error, 0),
            r.is_audio == or_value(row.is_audio_message, false),
            r.date_retracted == or_value(row.date_retracted, 0),
    {
        Extra {
            is_delivered: match row.is_delivered {
                Some(v) => v,
                None => false,
            },
            is_sent: match row.is_sent {
                Some(v) => v,
                None => false,
            },
            error: match row.error {
                Some(v) => v,
                None => 0,
            },
            is_audio: match row.is_audio_message {
                Some(v) => v,
                None => false,
            },
            date_retracted: match row.date_retracted {
                Some(v) => v,
                None => 0,
            },
        }
    }
}

/// A message, with its body parsed and its type decoded.
#[derive(Debug)]
pub struct MessageRow {
    pub rowid: i64,
    pub guid: String,
    pub chat_id: Option<i64>,
    pub is_from_me: bool,
    pub handle_id: Option<i64>,
    pub text: Option<String>,
    /// The formatted runs of the text, over all its bubbles.
    pub runs: Vec<RunRow>,
    pub date: i64,
    pub date_read: i64,
    pub date_delivered: i64,
    pub is_read: bool,
    pub service: Option<String>,
    pub subject: Option<String>,
    pub num_attachments: i64,
    pub item_type: i64,
    pub associated_type: Option<i64>,
    /// The guid of the message that this one refers to.
    pub associated_guid: Option<String>,
    pub fully_unsent: bool,
    pub group_action: Option<GroupAction>,
    pub is_shareplay: bool,
    /// Set where the message is an app balloon.
    pub balloon: Option<Balloon>,
    pub bundle_id: Option<String>,
    /// The payload of a link balloon, where it could be read.
    pub link: Option<LinkRow>,
    pub is_reply: bool,
    pub thread_originator_guid: Option<String>,
    /// The message at `thread_originator_guid`, where there is one.
    pub reply: Option<ReplyRow>,
    pub expressive: Expressive,
    /// The state of each part of an edited message.
    pub edits: Vec<EditStatus>,
    pub attachments: Vec<AttachmentRow>,
    pub extra: Extra,
}

/// What a tapback shows.
#[derive(Debug)]
pub enum Tapback {
    Loved,
    Liked,
    Disliked,
    Laughed,
    Emphasized,
    Questioned,
    Emoji(Option<String>),
    Sticker,
}

/// A tapback on a message.
#[derive(Debug)]
pub struct TapbackRow {
    /// The guid of the message that it is on.
    pub target: Option<String>,
    /// What it shows, and whether it was added or taken back.
    pub tapback: Option<(bool, Tapback)>,
    pub is_from_me: bool,
    pub handle_id: Option<i64>,
}

/// The newest message of a chat, as far as the chat list shows it.
#[derive(Debug)]
pub struct PreviewRow {
    pub is_from_me: bool,
    pub text: Option<String>,
    pub num_attachments: i64,
    /// The message is a system announcement.
    pub is_announcement: bool,
    /// The message is an app balloon.
    pub has_balloon: bool,
}

/// A message that may be unread.
#[derive(Debug, Clone, Copy, PartialEq, Eq, Structural)]
pub struct UnreadRow {
    pub rowid: i64,
    pub is_from_me: bool,
    pub is_read: bool,
    pub item_type: i64,
    pub associated_type: Option<i64>,
}

/// A chat.
#[derive(Debug)]
pub struct ChatRow {
    pub id: i64,
    pub guid: String,
    pub identifier: String,
    pub service: Option<String>,
    pub display_name: Option<String>,
    pub style: i64,
    /// The date of the newest message; none for a chat without messages.
    pub last_date: Option<i64>,
    pub handle_ids: Vec<i64>,
    pub preview: Option<PreviewRow>,
    /// The messages of the chat among which the unread ones are counted.
    pub messages: Vec<UnreadRow>,
}

/// The columns of an attachment that say where its file is and what it holds.
#[derive(Debug)]
pub struct FileRow {
    pub filename: Option<String>,
    pub mime_type: Option<String>,
    pub transfer_name: Option<String>,
    pub uti: Option<String>,
}

} // verus!
