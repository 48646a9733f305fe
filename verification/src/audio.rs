//! Audio files and their thumbnails.

use vstd::prelude::*;

verus! {

/// `mime::Mime`, a parsed media type. Its contents are opaque here: a value
/// is only carried along.
#[verifier::external_type_specification]
#[verifier::external_body]
pub struct ExMime(mime::Mime);

/// `Clone::clone` of `mime::Mime`, which is derived there: the copy is the
/// same media type.
pub assume_specification[ <mime::Mime as Clone>::clone ](mime: &mime::Mime) -> (res: mime::Mime)
    ensures
        res == *mime,
;

/// One size of a photo, or a thumbnail of a file or a sticker.
#[derive(Clone, Debug, PartialEq, Eq, Hash)]
pub struct PhotoSize {
    /// An identifier for this file.
    pub file_id: String,
    /// Unique identifier for this file, the same over time and for different
    /// bots.
    pub file_unique_id: String,
    /// Photo width.
    pub width: u32,
    /// Photo height.
    pub height: u32,
    /// File size in bytes.
    pub file_size: u32,
}

/// An audio file to be treated as music.
#[derive(Clone, Debug, PartialEq, Eq, Hash)]
pub struct Audio {
    /// An identifier for this file.
    pub file_id: String,
    /// Unique identifier for this file, the same over time and for different
    /// bots.
    pub file_unique_id: String,
    /// A duration of the audio in seconds as defined by a sender.
    pub duration: u32,
    /// A performer of the audio as defined by a sender or by audio tags.
    pub performer: Option<String>,
    /// A title of the audio as defined by sender or by audio tags.
    pub title: Option<String>,
    /// Original filename as defined by sender.
    pub file_name: Option<String>,
    /// A MIME type of the file as defined by a sender.
    pub mime_type: Option<mime::Mime>,
    /// File size in bytes.
    pub file_size: u32,
    /// A thumbnail of the album cover to which the music file belongs.
    pub thumb: Option<PhotoSize>,
}

} // verus!
