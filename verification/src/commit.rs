//! Plain data read from one source commit.

use vstd::prelude::*;

verus! {

/// A commit timestamp: seconds since the epoch and the author's timezone
/// offset in minutes.
#[derive(Clone, Copy, PartialEq, Eq, Structural)]
pub struct CommitTime {
    pub seconds: i64,
    pub offset_minutes: i32,
}

/// What the engine reads from a source commit: the author line, the author
/// time and the message. A field is `None` where the underlying datum is
/// absent or not valid UTF-8.
pub struct CommitMeta {
    pub author_name: Option<String>,
    pub author_email: Option<String>,
    pub message: Option<String>,
    pub when: CommitTime,
}

} // verus!
