//! A minimal document-store-backed CRUD gateway.
//!
//! The library holds the verified core of a small HTTP service that stores
//! and lists "introduction" records (a title and an icon) in a document
//! store: the record model, a JSON codec for the record body, the framing of
//! listings as JSON arrays, the mapping of outcomes to HTTP responses, and
//! the per-document decisions taken while a store cursor is drained. The
//! unverifiable rim — the HTTP server, the store driver, process startup —
//! lives outside and hands this library plain values.

pub mod chars;
pub mod http;
pub mod json;
pub mod parse;
pub mod record;
pub mod store;
