//! Resumable acquisition of a daily comic archive: which days are wanted,
//! which are already on disk, how the missing ones are shared among workers,
//! and how each worker retries and reports.

pub mod args;
pub mod date;
pub mod filename;
pub mod folder;
pub mod jobs;
pub mod report;
pub mod scrape;
pub mod text;
pub mod worker;

pub use args::Args;
pub use date::{get_all_dates, get_dates_between, DateKey, Timestamp};
pub use filename::date_from_filename;
pub use folder::path_buf_to_string;
pub use text::{date_to_string, last_two_digits, leading_zero};
