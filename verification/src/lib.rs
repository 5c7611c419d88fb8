//! Profanity statistics over chat-agent transcripts and the HTML report built from them.

pub mod calendar;
pub mod chart;
pub mod cursor;
pub mod detector;
pub mod messages;
pub mod order;
pub mod page;
pub mod ranking;
pub mod report;
pub mod tally;
pub mod text;

pub use messages::{AdapterKind, UserMessage};
pub use detector::{FuckDetector, FuckDetectorError};
pub use cursor::CursorAdapter;
