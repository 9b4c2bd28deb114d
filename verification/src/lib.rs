//! Author identities for commits that several people share.
//!
//! A roster entry such as `"Jane Doe; jdoe; B87A4EFD"` is turned into an
//! [`author::Author`] by an [`author::AuthorParser`], and an author renders
//! as one line for terminals and commit trailers.

pub mod author;
pub mod text;
