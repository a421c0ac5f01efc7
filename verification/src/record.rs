//! The record model: what a single post is and how a new one is minted.
//!
//! A [`Tweet`] is immutable once constructed: a fresh identifier, the
//! caller's message, and the instant of construction. Identifier minting and
//! the clock read are the only outside calls, each behind a small trusted
//! wrapper.

use vstd::prelude::*;

verus! {

/// A creation instant in UTC, held as whole seconds since the Unix epoch
/// together with the nanoseconds within that second.
///
/// Two instants are ordered lexicographically by `(secs, nanos)`; see
/// [`ts_lt`] and [`ts_le`].
#[derive(Clone, Copy, Debug, PartialEq, Eq, Structural)]
pub struct Timestamp {
    pub secs: i64,
    pub nanos: u32,
}

/// `a` is strictly earlier than `b`.
pub open spec fn ts_lt(a: Timestamp, b: Timestamp) -> bool {
    a.secs < b.secs || (a.secs == b.secs && a.nanos < b.nanos)
}

/// `a` is earlier than or the same instant as `b`.
pub open spec fn ts_le(a: Timestamp, b: Timestamp) -> bool {
    a.secs < b.secs || (a.secs == b.secs && a.nanos <= b.nanos)
}

/// Exec comparison, equal to the spec-level [`ts_lt`].
pub fn ts_is_earlier(a: &Timestamp, b: &Timestamp) -> (r: bool)
    ensures
        r == ts_lt(*a, *b),
{
    a.secs < b.secs || (a.secs == b.secs && a.nanos < b.nanos)
}

/// Relies on `chrono::Utc::now`, read out through `DateTime::timestamp` and
/// `DateTime::timestamp_subsec_nanos`. `Utc::now` builds its value from
/// `std::time::SystemTime` seconds and sub-second nanoseconds since the Unix
/// epoch, so the seconds are non-negative and the nanoseconds are below one
/// billion; nothing more can be said of a clock read.
#[verifier::external_body]
fn now_timestamp() -> (r: Timestamp)
    ensures
        0 <= r.secs,
        r.nanos < 1_000_000_000,
{
    let now = chrono::Utc::now();
    Timestamp { secs: now.timestamp(), nanos: now.timestamp_subsec_nanos() }
}

/// Relies on `uuid::Uuid::new_v4` and the `Display` rendering of a `Uuid`:
/// the canonical hyphenated form, which is exactly 36 characters. The value
/// itself is random, so nothing is promised of which string comes back.
#[verifier::external_body]
fn fresh_id() -> (r: String)
    ensures
        r@.len() == 36,
{
    uuid::Uuid::new_v4().to_string()
}

/// A single stored post. All three fields are fixed at construction and
/// never recomputed.
#[derive(Debug)]
pub struct Tweet {
    pub id: String,
    pub message: String,
    pub created_at: Timestamp,
}

impl Clone for Tweet {
    fn clone(&self) -> (r: Self)
        ensures
            r == *self,
    {
        Tweet { id: self.id.clone(), message: self.message.clone(), created_at: self.created_at }
    }
}

impl Tweet {
    /// Mint a new post: a fresh identifier in canonical 36-character form,
    /// the given message, and the instant of the call.
    pub fn new(message: String) -> (r: Tweet)
        ensures
            r.message == message,
            r.id@.len() == 36,
            0 <= r.created_at.secs,
            r.created_at.nanos < 1_000_000_000,
    {
        Tweet { id: fresh_id(), created_at: now_timestamp(), message }
    }
}

/// A write request as the transport layer hands it over: the message field
/// may have been omitted by the caller.
#[derive(Debug)]
pub struct TweetRequest {
    pub message: Option<String>,
}

impl TweetRequest {
    /// A new post from the request, or nothing when no message was supplied.
    pub fn to_tweet(&self) -> (r: Option<Tweet>)
        ensures
            r is Some <==> self.message is Some,
            r is Some ==> r->Some_0.message == self.message->Some_0,
            r is Some ==> r->Some_0.id@.len() == 36,
    {
        match &self.message {
            Some(message) => Some(Tweet::new(message.clone())),
            None => None,
        }
    }
}

} // verus!
