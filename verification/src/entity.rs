//! The entities of a message as the remote side sends them: a kind and a span
//! measured in UTF-16 code units.

use crate::user::{parsed_url, user_link, User, UserId};
use vstd::prelude::*;

verus! {

/// `reqwest::Url`, a parsed URL. Its contents are opaque here: a value is only
/// carried along.
#[verifier::external_type_specification]
#[verifier::external_body]
pub struct ExUrl(reqwest::Url);

/// `Clone::clone` of `reqwest::Url`, which is derived there: the copy is the
/// same URL.
pub assume_specification[ <reqwest::Url as Clone>::clone ](url: &reqwest::Url) -> (res:
    reqwest::Url)
    ensures
        res == *url,
;

/// What an entity marks its text as.
#[derive(Clone, Debug, PartialEq, Eq, Hash)]
pub enum MessageEntityKind {
    Mention,
    Hashtag,
    Cashtag,
    BotCommand,
    Url,
    Email,
    PhoneNumber,
    Bold,
    Italic,
    Code,
    Pre { language: Option<String> },
    TextLink { url: reqwest::Url },
    TextMention { user: User },
    Underline,
    Strikethrough,
    Spoiler,
}

/// One special entity in a text message: a hashtag, a username, a URL, a
/// stretch of bold text and so on.
#[derive(Clone, Debug, PartialEq, Eq, Hash)]
pub struct MessageEntity {
    pub kind: MessageEntityKind,
    /// Offset in UTF-16 code units to the start of the entity.
    pub offset: usize,
    /// Length of the entity in UTF-16 code units.
    pub length: usize,
}

impl MessageEntity {
    /// An entity of the given kind over `length` code units from `offset`.
    pub fn new(kind: MessageEntityKind, offset: usize, length: usize) -> (res: Self)
        ensures
            res == (MessageEntity { kind, offset, length }),
    {
        Self { kind, offset, length }
    }

    /// An entity that marks bold text.
    pub fn bold(offset: usize, length: usize) -> (res: Self)
        ensures
            res == (MessageEntity { kind: MessageEntityKind::Bold, offset, length }),
    {
        Self { kind: MessageEntityKind::Bold, offset, length }
    }

    /// An entity that marks italic text.
    pub fn italic(offset: usize, length: usize) -> (res: Self)
        ensures
            res == (MessageEntity { kind: MessageEntityKind::Italic, offset, length }),
    {
        Self { kind: MessageEntityKind::Italic, offset, length }
    }

    /// An entity that marks underlined text.
    pub fn underline(offset: usize, length: usize) -> (res: Self)
        ensures
            res == (MessageEntity { kind: MessageEntityKind::Underline, offset, length }),
    {
        Self { kind: MessageEntityKind::Underline, offset, length }
    }

    /// An entity that marks struck-through text.
    pub fn strikethrough(offset: usize, length: usize) -> (res: Self)
        ensures
            res == (MessageEntity { kind: MessageEntityKind::Strikethrough, offset, length }),
    {
        Self { kind: MessageEntityKind::Strikethrough, offset, length }
    }

    /// An entity that marks a spoiler.
    pub fn spoiler(offset: usize, length: usize) -> (res: Self)
        ensures
            res == (MessageEntity { kind: MessageEntityKind::Spoiler, offset, length }),
    {
        Self { kind: MessageEntityKind::Spoiler, offset, length }
    }

    /// An entity that marks monowidth text.
    pub fn code(offset: usize, length: usize) -> (res: Self)
        ensures
            res == (MessageEntity { kind: MessageEntityKind::Code, offset, length }),
    {
        Self { kind: MessageEntityKind::Code, offset, length }
    }

    /// An entity that marks a monowidth block, with its language if known.
    pub fn pre(language: Option<String>, offset: usize, length: usize) -> (res: Self)
        ensures
            res == (MessageEntity { kind: MessageEntityKind::Pre { language }, offset, length }),
    {
        Self { kind: MessageEntityKind::Pre { language }, offset, length }
    }

    /// An entity that marks a clickable text URL.
    pub fn text_link(url: reqwest::Url, offset: usize, length: usize) -> (res: Self)
        ensures
            res == (MessageEntity { kind: MessageEntityKind::TextLink { url }, offset, length }),
    {
        Self { kind: MessageEntityKind::TextLink { url }, offset, length }
    }

    /// An entity that mentions a user who is known in full.
    pub fn text_mention(user: User, offset: usize, length: usize) -> (res: Self)
        ensures
            res == (MessageEntity { kind: MessageEntityKind::TextMention { user }, offset, length }),
    {
        Self { kind: MessageEntityKind::TextMention { user }, offset, length }
    }

    /// An entity that mentions the user with the given identifier by a link to
    /// that user.
    ///
    /// The link is handed to the URL parser; there is an entity exactly when
    /// the parser accepts it.
    pub fn text_mention_id(user_id: UserId, offset: usize, length: usize) -> (res: Option<Self>)
        ensures
            res == match parsed_url(user_link(user_id)) {
                Some(url) => Some(
                    MessageEntity { kind: MessageEntityKind::TextLink { url }, offset, length },
                ),
                None => None,
            },
    {
        match user_id.url() {
            Some(url) => Some(Self::text_link(url, offset, length)),
            None => None,
        }
    }

    /// The same entity with another kind.
    pub fn kind(self, val: MessageEntityKind) -> (res: Self)
        ensures
            res == (MessageEntity { kind: val, offset: self.offset, length: self.length }),
    {
        Self { kind: val, offset: self.offset, length: self.length }
    }

    /// The same entity with another offset.
    pub fn offset(self, val: usize) -> (res: Self)
        ensures
            res == (MessageEntity { kind: self.kind, offset: val, length: self.length }),
    {
        Self { kind: self.kind, offset: val, length: self.length }
    }

    /// The same entity with another length.
    pub fn length(self, val: usize) -> (res: Self)
        ensures
            res == (MessageEntity { kind: self.kind, offset: self.offset, length: val }),
    {
        Self { kind: self.kind, offset: self.offset, length: val }
    }
}

} // verus!
