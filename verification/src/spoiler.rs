//! The content model: what a spoiler stores and how its creation progresses.
use vstd::prelude::*;

verus! {

/// One day in seconds, the default lifetime of a spoiler.
pub const ONE_DAY_IN_SECS: u64 = 60 * 60 * 24;

/// The spoiler creation state.
///
/// These states mark points where the service is expecting an input from the
/// user.  Absence of an entry for a user means the user is not creating a
/// spoiler at all.
#[derive(Clone, Copy, PartialEq, Eq, Structural, Debug)]
pub enum SpoilerCreationStatus {
    /// Waiting for the content to be spoiled.
    WaitingForSpoiler,
    /// Waiting for the title of the spoiler.
    WaitingForTitle,
}

/// The kind of the spoiled content.
///
/// The union is closed: the core never interprets media bytes, it only keeps
/// transport-level references (a file handle and, where the transport allows
/// one, a caption) and forwards them on reveal.
#[allow(inconsistent_fields)]
#[derive(Debug, PartialEq)]
pub enum Content {
    /// A plain text message.
    Text { value: String },
    /// Text that is not backed by a transport-native text object, produced
    /// when a spoiler is created from contexts that lack one.
    RawString { value: String },
    Animation { file_id: String, caption: Option<String> },
    Audio { file_id: String, caption: Option<String> },
    Contact { phone_number: String, first_name: String },
    Dice { value: u8 },
    Document { file_id: String, caption: Option<String> },
    /// Coordinates in microdegrees, so the core holds no machine floats.
    Location { latitude_micro: i64, longitude_micro: i64 },
    Photo { file_ids: Vec<String>, caption: Option<String> },
    Sticker { file_id: String },
    Video { file_id: String, caption: Option<String> },
    VideoNote { file_id: String },
    Voice { file_id: String, caption: Option<String> },
}

/// The text carried by a content value, if it is textual at all.
pub open spec fn spec_text_of(c: Content) -> Option<Seq<char>> {
    match c {
        Content::Text { value } => Some(value@),
        Content::RawString { value } => Some(value@),
        _ => None,
    }
}

impl Content {
    /// The textual payload of this content, if any.
    ///
    /// A caller uses its character count to decide whether the text fits an
    /// ephemeral alert or needs a full message; that ceiling belongs to the
    /// transport, so only the text itself is exposed here.
    pub fn text_value(&self) -> (r: Option<&String>)
        ensures
            match r {
                Some(s) => spec_text_of(*self) == Some(s@),
                None => spec_text_of(*self) is None,
            },
    {
        match self {
            Content::Text { value } => Some(value),
            Content::RawString { value } => Some(value),
            _ => None,
        }
    }
}

/// The effective lifetime of a spoiler: the custom duration if one was
/// given, one day otherwise.
pub open spec fn effective_duration(d: Option<u64>) -> u64 {
    match d {
        Some(v) => v,
        None => ONE_DAY_IN_SECS,
    }
}

/// A finished spoiler.
///
/// A spoiler is immutable after construction: title and content are fixed;
/// only its presence in the registry changes over time.
#[derive(Debug, PartialEq)]
pub struct Spoiler {
    /// The opaque identifier under which the spoiler is registered.
    pub id: String,
    /// The title of the spoiler, immediately visible to recipients.
    pub title: Option<String>,
    /// The hidden content.
    pub content: Content,
    /// The amount of time, in seconds, until the spoiler expires.
    pub expires_in: u64,
}

impl Spoiler {
    /// Creates a new spoiler; a missing duration falls back to one day.
    pub fn new(id: String, title: Option<String>, content: Content, expires_in: Option<u64>) -> (s:
        Spoiler)
        ensures
            s.id == id,
            s.title == title,
            s.content == content,
            s.expires_in == effective_duration(expires_in),
    {
        let expires_in: u64 = match expires_in {
            Some(v) => v,
            None => ONE_DAY_IN_SECS,
        };
        Spoiler { id, title, content, expires_in }
    }
}

} // verus!
