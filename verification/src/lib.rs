//! An in-memory store of short text posts ("tweets").
//!
//! A [`record::Tweet`] is an immutable post: a freshly minted identifier, a
//! message, and a creation timestamp. A [`store::Tweets`] value owns an
//! insertion-ordered sequence of such posts and offers exactly two
//! operations: append a new post built from an optional message, and take a
//! point-in-time copy sorted most-recent-first.

pub mod record;
pub mod store;
