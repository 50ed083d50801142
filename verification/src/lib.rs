//! Gantt-style timeline headers.
//!
//! A contiguous range of calendar dates is grouped into five resolutions
//! (days, weeks, months, quarters, years) over one shared sequence of
//! displayed day columns, and the grouping is rendered as aligned text rows.

pub mod calendar;
pub mod text;
pub mod timeline;

pub use timeline::{create_timeline, GroupResult, TimelineGroups};
