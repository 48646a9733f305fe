//! Results of an inline query.

use crate::entity::MessageEntity;
use vstd::prelude::*;
use vstd::std_specs::convert::IntoSpec;

verus! {

/// How the formatting of a text is written down.
#[derive(Clone, Copy, Debug, PartialEq, Eq, Hash)]
pub enum ParseMode {
    MarkdownV2,
    Html,
    Markdown,
}

/// What pressing a button of an inline keyboard does.
#[derive(Clone, Debug, PartialEq, Eq, Hash)]
pub enum InlineKeyboardButtonKind {
    /// Opens the URL.
    Url(reqwest::Url),
    /// Sends the data back in a callback query.
    CallbackData(String),
}

/// One button of an inline keyboard.
#[derive(Clone, Debug, PartialEq, Eq, Hash)]
pub struct InlineKeyboardButton {
    /// Label text on the button.
    pub text: String,
    pub kind: InlineKeyboardButtonKind,
}

/// An inline keyboard that appears right next to the message it belongs to.
#[derive(Clone, Debug, PartialEq, Eq, Hash)]
pub struct InlineKeyboardMarkup {
    /// Rows of buttons.
    pub inline_keyboard: Vec<Vec<InlineKeyboardButton>>,
}

/// The content of a text message to be sent as the result of an inline query.
#[derive(Clone, Debug, PartialEq, Eq, Hash)]
pub struct InputMessageContentText {
    /// Text of the message to be sent.
    pub message_text: String,
    pub parse_mode: Option<ParseMode>,
    /// Special entities that appear in the message text.
    pub entities: Option<Vec<MessageEntity>>,
}

/// The content of a message to be sent as the result of an inline query.
#[derive(Clone, Debug, PartialEq, Eq, Hash)]
pub enum InputMessageContent {
    Text(InputMessageContentText),
}

/// A link to a voice recording in an .ogg container encoded with OPUS.
///
/// By default the voice recording is sent by the user. With
/// `input_message_content` a message with that content is sent instead.
#[derive(Clone, Debug, PartialEq)]
pub struct InlineQueryResultVoice {
    /// Unique identifier for this result, 1-64 bytes.
    pub id: String,
    /// A valid URL for the voice recording.
    pub voice_url: reqwest::Url,
    /// Recording title.
    pub title: String,
    /// Caption, 0-1024 characters.
    pub caption: Option<String>,
    /// How the formatting of the caption is written down.
    pub parse_mode: Option<ParseMode>,
    /// Special entities that appear in the caption, which can be given in
    /// place of `parse_mode`.
    pub caption_entities: Option<Vec<MessageEntity>>,
    /// Recording duration in seconds.
    pub voice_duration: Option<i32>,
    /// Inline keyboard attached to the message.
    pub reply_markup: Option<InlineKeyboardMarkup>,
    /// Content of the message to be sent instead of the voice recording.
    pub input_message_content: Option<InputMessageContent>,
}

impl InlineQueryResultVoice {
    /// A result with the three required values and nothing else.
    ///
    /// The identifier and the title are what the caller's conversions into a
    /// `String` give.
    pub fn new<S1, S2>(id: S1, voice_url: reqwest::Url, title: S2) -> (res: Self) where
        S1: Into<String>,
        S2: Into<String>,

        ensures
            S1::obeys_into_spec() ==> res.id == id.into_spec(),
            S2::obeys_into_spec() ==> res.title == title.into_spec(),
            res.voice_url == voice_url,
            res.caption is None,
            res.parse_mode is None,
            res.caption_entities is None,
            res.voice_duration is None,
            res.reply_markup is None,
            res.input_message_content is None,
    {
        Self {
            id: id.into(),
            voice_url,
            title: title.into(),
            caption: None,
            parse_mode: None,
            caption_entities: None,
            voice_duration: None,
            reply_markup: None,
            input_message_content: None,
        }
    }

    /// The same result with another identifier.
    pub fn id<S>(self, val: S) -> (res: Self) where S: Into<String>
        ensures
            S::obeys_into_spec() ==> res == (InlineQueryResultVoice {
                id: val.into_spec(),
                ..self
            }),
            res == (InlineQueryResultVoice { id: res.id, ..self }),
    {
        Self { id: val.into(), ..self }
    }

    /// The same result with another URL of the recording.
    pub fn voice_url(self, val: reqwest::Url) -> (res: Self)
        ensures
            res == (InlineQueryResultVoice { voice_url: val, ..self }),
    {
        Self { voice_url: val, ..self }
    }

    /// The same result with another title.
    pub fn title<S>(self, val: S) -> (res: Self) where S: Into<String>
        ensures
            S::obeys_into_spec() ==> res == (InlineQueryResultVoice {
                title: val.into_spec(),
                ..self
            }),
            res == (InlineQueryResultVoice { title: res.title, ..self }),
    {
        Self { title: val.into(), ..self }
    }

    /// The same result with the given caption.
    pub fn caption<S>(self, val: S) -> (res: Self) where S: Into<String>
        ensures
            S::obeys_into_spec() ==> res == (InlineQueryResultVoice {
                caption: Some(val.into_spec()),
                ..self
            }),
            res.caption is Some,
            res == (InlineQueryResultVoice { caption: res.caption, ..self }),
    {
        Self { caption: Some(val.into()), ..self }
    }

    /// The same result with the given parse mode.
    pub fn parse_mode(self, val: ParseMode) -> (res: Self)
        ensures
            res == (InlineQueryResultVoice { parse_mode: Some(val), ..self }),
    {
        Self { parse_mode: Some(val), ..self }
    }

    /// The same result with the given entities of the caption.
    pub fn caption_entities(self, val: Vec<MessageEntity>) -> (res: Self)
        ensures
            res == (InlineQueryResultVoice { caption_entities: Some(val), ..self }),
    {
        Self { caption_entities: Some(val), ..self }
    }

    /// The same result with the given duration of the recording.
    pub fn voice_duration(self, value: i32) -> (res: Self)
        ensures
            res == (InlineQueryResultVoice { voice_duration: Some(value), ..self }),
    {
        Self { voice_duration: Some(value), ..self }
    }

    /// The same result with the given inline keyboard.
    pub fn reply_markup(self, val: InlineKeyboardMarkup) -> (res: Self)
        ensures
            res == (InlineQueryResultVoice { reply_markup: Some(val), ..self }),
    {
        Self { reply_markup: Some(val), ..self }
    }

    /// The same result with the given content to send in place of the
    /// recording.
    pub fn input_message_content(self, val: InputMessageContent) -> (res: Self)
        ensures
            res == (InlineQueryResultVoice { input_message_content: Some(val), ..self }),
    {
        Self { input_message_content: Some(val), ..self }
    }
}

} // verus!
