//! Conversion of WordStar documents into readable Unicode text.
//!
//! The crate is a pipeline of line filters. Each filter takes a line and
//! either reports that it has nothing to do (`None`) or hands back the
//! replacement line. Every filter states what it returns over the sequence
//! of characters of the line, and is proved to return just that.

pub mod args;
pub mod asciify;
pub mod control_count;
pub mod text;
pub mod uni_chars;
pub mod ws_align;
pub mod ws_chars;
pub mod ws_control;
pub mod ws_dot_cmd;
pub mod ws_emphasis;
pub mod ws_filters;
pub mod ws_mappings;
pub mod ws_overline;
pub mod ws_special;
pub mod ws_string;
pub mod ws_under_over;
pub mod ws_wrappers;
