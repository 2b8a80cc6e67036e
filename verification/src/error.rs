//! The kinds of failure that end an operation of the engine. What goes
//! wrong with one peer or one piece ends that peer's worker or that piece's
//! try, and is no failure of the download.

use vstd::prelude::*;

verus! {

/// Why an operation of the engine failed.
#[derive(Debug, Clone, PartialEq, Eq)]
pub enum TorrentError {
    /// The metainfo is no bencode, or a field of it is missing or of the
    /// wrong type.
    MalformedTorrent,
    /// The magnet link lacks its scheme or its topic, or its hash has no
    /// valid form.
    InvalidMagnet,
    /// The tracker answered with a reason for failure, given here as the
    /// bytes it sent.
    TrackerRefused(Vec<u8>),
    /// The tracker's answer is no bencode, or lacks the interval or the
    /// peer list.
    MalformedResponse,
    /// The tracker could not be reached, or did not answer in time.
    TrackerTimeout,
    /// Creating or writing an output file failed.
    IoError,
    /// The workers are gone and pieces are still missing: how many are
    /// complete, and how many there are.
    DownloadIncomplete(usize, usize),
}

} // verus!
