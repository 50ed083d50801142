//! Grouping of a date range into timeline resolutions, and its rendering.

pub mod format;
pub mod laws;
pub mod timeline_grouping;

pub use self::timeline_grouping::{create_timeline, GroupResult, TimelineGroups};
