//! What the operations of the library promise, said of their arguments and
//! results alone.
pub mod deletions;
pub mod documents;
pub mod escapes;
pub mod finding;
pub mod marks;
pub mod numbers;
pub mod parsing;
pub mod paths;
pub mod plans;
pub mod playlists;
pub mod preferences;
pub mod reports;
pub mod scans;
pub mod sessions;
pub mod shown;
pub mod texts;
pub mod times;
pub mod values;
