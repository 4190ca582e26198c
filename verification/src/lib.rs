//! A small line-oriented text search library.
//!
//! The matcher finds the lines of a text that contain a query substring,
//! either exactly or up to lowercase folding; the scan module drives one
//! search across many files and decides what is reported for each one.

pub mod matcher;
pub mod scan;

pub use matcher::search;
pub use matcher::search_case_insensitive;
pub use matcher::split_lines;
pub use matcher::contains_substring;
pub use scan::Config;
pub use scan::FileReport;
pub use scan::PathEvent;
pub use scan::ScanAction;
pub use scan::run_file;
pub use scan::scan_step;
