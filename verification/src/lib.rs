//! Header-encoding core of an email-message construction library.
//!
//! The crate turns structured header field values (MIME parameters, media
//! types) into wire-correct text per RFC 5322/2045/2047/2231, and enforces
//! the structural rules that govern which header kinds may appear, how many
//! times, and under which cross-field constraints.

pub mod codec;
pub mod errors;
pub mod grammar;
pub mod header_map;
pub mod mime_tools;
pub mod parsing;
pub mod registry;

pub use grammar::MailType;
pub use mime_tools::{create_encoded_mime_parameter, create_mime, create_mime_parameters};
pub use mime_tools::MimeFromStrError;
