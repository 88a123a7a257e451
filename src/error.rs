use vstd::prelude::*;

verus! {

/// Why a single transfer failed.
///
/// A failed transfer never changes the state of its download by itself:
/// the retry policy decides what happens next.
#[derive(Clone, Debug, PartialEq, Eq)]
pub enum DownloadError {
    /// The request could not be sent or the response body could not be read.
    Network(String),
    /// The destination file could not be opened or written.
    Storage(String),
}

/// A locator that is not a well-formed absolute URL.
#[derive(Clone, Copy, Debug, PartialEq, Eq)]
pub struct InvalidUrl;

} // verus!
