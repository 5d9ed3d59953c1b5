//! Resolution pipeline of a read-only news viewer: story summaries, comment
//! trees and the single preview slot, with every function verified by Verus.

pub mod comment_resolver;
pub mod comments;
pub mod coordinator;
pub mod error;
pub mod gateway;
pub mod labels;
pub mod listing;
pub mod preview;
pub mod story;
pub mod story_resolver;
pub mod time;
pub mod tree;
pub mod types;
pub mod wire;
