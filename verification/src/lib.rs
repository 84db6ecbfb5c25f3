//! Extraction of hyperlink references from HTML text, and resolution of the
//! discovered references against the address of the document they came from.
//!
//! The crate has three layers: `uri` decomposes and resolves URL strings
//! (through the `url` crate), `extract` scans HTML markup for link-bearing
//! attributes and bare URLs in text, and `collect` turns the occurrences of
//! one fetched document into fully resolved link records. Fetching itself is
//! left to the caller: `collect` works on the document's text.

pub mod collect;
pub mod extract;
pub mod uri;
