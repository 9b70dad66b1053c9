//! Counting the lines a developer added to a Git repository: the text
//! handling, diff filtering and file selection behind the step counter.
pub mod text;
pub mod pattern;
pub mod code_analyzer;
pub mod git_diff;
pub mod path;
pub mod config;
pub mod file_filter;
pub mod line_counter;
pub mod diff_processor;
pub mod user_request;
pub mod step_count;
