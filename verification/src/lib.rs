//! Channel log archive engine: parses per-day IRC transcript files into typed
//! events, summarizes a channel's archive, gates access through an
//! htpasswd-style credential table, and interprets the output of an external
//! full-text search process.

mod errors;
pub mod text;
pub mod date;
pub mod reader;
pub mod credentials;
pub mod archive;
pub mod search;
pub mod request;

pub use errors::ArchiveError;
pub use errors::SearchFailure;
pub use date::LogDate;
pub use reader::{LogLine, LogLineContent, Timestamp};
pub use archive::{AppState, ChannelDailyEntry, ChannelInfo, ChannelProbe, Config, DayFile};
pub use search::SearchResultEntry;
pub use request::{
    AuthCredentials, ChannelLinesQuery, ChannelParams, ChannelSearchQuery, LogOutputLine,
};
