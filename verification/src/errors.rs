//! The failure taxonomy of a transfer.
//!
//! Every failure is fatal to the current transfer: nothing is retried, and
//! a partially written destination is left as it is.  Each variant carries
//! a descriptive message through `describe`, with the URL involved where
//! the operation has one.

use vstd::prelude::*;

verus! {

/// Why a transfer, or the work leading up to it, failed.
#[derive(Clone, Copy, Debug, PartialEq, Eq, Structural)]
pub enum DownloadError {
    /// The metadata API call failed or its body did not parse.
    MetadataFetchError,
    /// The binary fetch succeeded but declared no content length.
    MissingContentLength,
    /// The transport reported an error mid-stream.
    StreamReadError,
    /// Persisting a chunk to the local sink failed.
    SinkWriteError,
}

/// The message for each failure, naming the operation and, where the
/// operation has one, the URL involved.
pub open spec fn spec_describe(e: DownloadError, context: Seq<char>) -> Seq<char> {
    match e {
        DownloadError::MetadataFetchError => "Failed to fetch metadata from '"@ + context + "'"@,
        DownloadError::MissingContentLength => "Failed to get content length from '"@ + context
            + "'"@,
        DownloadError::StreamReadError => "Error while downloading file"@,
        DownloadError::SinkWriteError => "Error while writing to file"@,
    }
}

impl DownloadError {
    /// A descriptive message for this failure; `context` is the URL the
    /// failing operation addressed, where it addressed one.
    pub fn describe(&self, context: &str) -> (msg: String)
        ensures
            msg@ == spec_describe(*self, context@),
    {
        match self {
            DownloadError::MetadataFetchError => {
                let mut msg = String::from_str("Failed to fetch metadata from '");
                msg.append(context);
                msg.append("'");
                proof {
                    assert(msg@ =~= spec_describe(*self, context@));
                }
                msg
            },
            DownloadError::MissingContentLength => {
                let mut msg = String::from_str("Failed to get content length from '");
                msg.append(context);
                msg.append("'");
                proof {
                    assert(msg@ =~= spec_describe(*self, context@));
                }
                msg
            },
            DownloadError::StreamReadError => String::from_str("Error while downloading file"),
            DownloadError::SinkWriteError => String::from_str("Error while writing to file"),
        }
    }
}

} // verus!
