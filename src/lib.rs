//! Core of a download manager daemon: the per-download state machine, the
//! manager that registers, schedules and controls downloads, the retry
//! policy around a single transfer, and the small pieces of text handling
//! that the command-line and terminal clients share.

pub mod download;
pub mod error;
pub mod input;
pub mod names;
pub mod protocol;
pub mod retry;

pub use download::{Admission, DownloadManager, SingleDownload, Slot, State, Step, CAPACITY};
pub use error::{DownloadError, InvalidUrl};
pub use names::{filter_name, join_path, validate_url};
pub use retry::{RetryAction, RetryState, MAX_ATTEMPTS, RETRY_DELAY_MS};
