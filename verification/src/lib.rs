//! A client core for a line-oriented, TLS-only text retrieval protocol.
//!
//! The crate frames a response byte stream into a status/meta header line and
//! a body, decodes the closed set of two-digit status codes, matches a
//! certificate's claimed identity against a requested hostname (including
//! wildcard rules), and drives trust-on-first-use certificate verification
//! through a pluggable trust cache and decision delegate.

pub mod fingerprints;
pub mod request;
pub mod response;
pub mod status;
pub mod text;
pub mod verify;
pub mod x509;
