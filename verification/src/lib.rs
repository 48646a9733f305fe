//! Formatting entities of a text message, and the conversion of their
//! UTF-16 positions into UTF-8 byte ranges of the message text.

pub mod audio;
pub mod entity;
pub mod inline;
pub mod offsets;
pub mod resolve;
pub mod user;
pub mod worklist;
