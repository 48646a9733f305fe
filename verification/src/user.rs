//! Users, and the links by which a user is mentioned.

use vstd::prelude::*;

verus! {

/// Identifier of a user.
#[derive(Clone, Copy, Debug, PartialEq, Eq, Hash)]
pub struct UserId(pub u64);

/// A user or a bot.
#[derive(Clone, Debug, PartialEq, Eq, Hash)]
pub struct User {
    /// Unique identifier of this user or bot.
    pub id: UserId,
    /// Whether this user is a bot.
    pub is_bot: bool,
    /// First name of the user or bot.
    pub first_name: String,
    /// Last name of the user or bot.
    pub last_name: Option<String>,
    /// Username of the user or bot.
    pub username: Option<String>,
    /// IETF language tag of the user's language.
    pub language_code: Option<String>,
}

/// The decimal digit for `d`.
pub open spec fn digit(d: nat) -> char
    recommends
        d < 10,
{
    ((0x30 + d) as u32) as char
}

/// `n` written in decimal, without sign, padding or leading zeros.
pub open spec fn decimal(n: nat) -> Seq<char>
    decreases n,
{
    if n < 10 {
        seq![digit(n)]
    } else {
        decimal(n / 10).push(digit(n % 10))
    }
}

/// The text of the link that mentions the user `id`.
pub open spec fn user_link(id: UserId) -> Seq<char> {
    "tg://user/?id="@ + decimal(id.0 as nat)
}

/// What `reqwest::Url::parse` makes of the text `input`: the URL, or nothing
/// where it reports an error.
pub uninterp spec fn parsed_url(input: Seq<char>) -> Option<reqwest::Url>;

/// `reqwest::Url::parse`: parses an absolute URL. The result depends on the
/// text alone; an error of the parser is handed on as `None`.
#[verifier::external_body]
pub(crate) fn parse_url(input: &str) -> (res: Option<reqwest::Url>)
    ensures
        res == parsed_url(input@),
{
    reqwest::Url::parse(input).ok()
}

/// `format!` of std with two `{}` places, for a text and an unsigned number:
/// the text followed by the number as `Display` writes integers, in decimal
/// without sign or padding.
#[verifier::external_body]
pub(crate) fn with_number(prefix: &str, n: u64) -> (res: String)
    ensures
        res@ == prefix@ + decimal(n as nat),
{
    format!("{}{}", prefix, n)
}

impl UserId {
    /// The link that mentions this user, as the URL parser reads it.
    pub fn url(self) -> (res: Option<reqwest::Url>)
        ensures
            res == parsed_url(user_link(self)),
    {
        let link: String = with_number("tg://user/?id=", self.0);
        parse_url(link.as_str())
    }
}

} // verus!
