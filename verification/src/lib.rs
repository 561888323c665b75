//! Replays the commit activity of one author, gathered from a set of local
//! source repositories, into a single synthetic target repository that holds
//! nothing but empty-tree commits.

pub mod author;
pub mod commit;
pub mod email;
pub mod error;
mod gitio;
pub mod interleave;
pub mod settings;
pub mod source;
pub mod sync;
