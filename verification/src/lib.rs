//! Core logic of a small media-conversion helper.
//!
//! Two independent components:
//! - `dispatch`: builds the exact command-line argument sequence that the
//!   external converter process expects for each conversion operation.
//! - `markdown`: reduces Markdown text to readable plain text by an ordered
//!   pipeline of rewrite rules, and derives the sibling output path.

pub mod chars;
pub mod dispatch;
pub mod lines;
pub mod markdown;
pub mod paths;
pub mod rules;
pub mod scan;
