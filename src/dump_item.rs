//! Plain values carried by dump records: when, in which direction and as
//! what kind of message.
use vstd::prelude::*;

verus! {

/// Timestamp in nanos since Unix epoch.
#[derive(Clone, Copy, Debug, PartialEq, Eq, Structural, PartialOrd, Ord, Hash)]
pub struct Timestamp(u64);

impl Timestamp {
    /// The nanoseconds since the Unix epoch.
    pub closed spec fn nanos(&self) -> u64 {
        self.0
    }

    /// The time now, or `None` where the system clock reads a time before
    /// the Unix epoch.
    pub fn now() -> Option<Self> {
        match nanos_since_unix_epoch() {
            Some(ns) => Some(Self::from_elapsed(ns)),
            None => None,
        }
    }

    /// The timestamp of `ns` nanoseconds after the epoch, kept to its low
    /// 64 bits.
    pub open spec fn from_elapsed_spec(ns: u128) -> Self {
        Self::from_nanos_spec(ns as u64)
    }

    pub closed spec fn from_nanos_spec(ns: u64) -> Self {
        Timestamp(ns)
    }

    /// The timestamp of `ns` nanoseconds after the epoch, kept to its low
    /// 64 bits.
    pub fn from_elapsed(ns: u128) -> (r: Self)
        ensures
            r == Self::from_elapsed_spec(ns),
            r.nanos() == ns as u64,
    {
        Timestamp(ns as u64)
    }

    pub fn from_nanos(ns: u64) -> (r: Self)
        ensures
            r == Self::from_nanos_spec(ns),
            r.nanos() == ns,
    {
        Timestamp(ns)
    }

    pub fn as_nanos(&self) -> (r: u64)
        ensures
            r == self.nanos(),
    {
        self.0
    }
}

/// Relies on `SystemTime::elapsed` from the Unix epoch: the nanoseconds
/// passed, or `None` where the clock is set before the epoch.
#[verifier::external_body]
fn nanos_since_unix_epoch() -> (r: Option<u128>) {
    std::time::UNIX_EPOCH.elapsed().ok().map(|d| d.as_nanos())
}

/// Whether a message was received or sent.
#[derive(Clone, Copy, Debug, PartialEq, Eq, Structural)]
pub enum Direction {
    In,
    Out,
}

/// The role of a message: a plain message, a request or a response, the
/// latter two with the id that pairs them.
#[derive(Clone, Copy, Debug, PartialEq, Eq, Structural)]
pub enum MessageKind {
    Regular,
    Request(u64),
    Response(u64),
}

} // verus!
