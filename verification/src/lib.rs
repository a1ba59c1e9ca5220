//! A live viewer for pipe-delimited log files.
//!
//! The first line of a followed file is a header declaring the ordered
//! field names (the schema). Data lines are matched against the schema,
//! filtered by substring, level and date bounds, and rendered as aligned,
//! color-tagged columns. A tail cursor tracks the byte offset of consumed
//! lines across polls of a growing, and possibly truncated, file.

pub mod bytes;
pub mod schema;
pub mod matcher;
pub mod names;
pub mod filter;
pub mod cursor;
pub mod render;
pub mod viewer;
