//! Verified core of the Hindsight work-log tooling.
pub mod clock;
pub mod compaction;
pub mod evidence;
pub mod jira;
pub mod ocr_section;
pub mod off_pc;
pub mod offline;
pub mod text;
pub mod worklog;
