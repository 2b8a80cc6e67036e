//! The snapshots of a download's progress that its consumers are shown.

use crate::download::manager::{DownloadManager, ManagerView};
use crate::download::table::{all_complete, completed};
use crate::error::TorrentError;
use crate::peer::message::PeerError;
use crate::text::text_of_bytes;
use crate::tracker::request::{decimal_string, decimal_text};
use vstd::prelude::*;
use vstd::string::StringExecFns;
use vstd::utf8::{decode_utf8, valid_utf8};

verus! {

/// One snapshot of a download's progress.
#[derive(Debug, Clone)]
pub struct AppTorrentStatus {
    pub total_pieces: u32,
    pub completed_pieces: u32,
    pub peers: u32,
    /// The speed of the download in bytes per second.
    pub speed: u64,
    pub downloading: bool,
    pub is_fetching_metadata: bool,
    pub status_message: String,
    pub error: Option<String>,
    /// The size of the content in bytes.
    pub total_bytes: u64,
    /// How many bytes of it were downloaded so far.
    pub downloaded_bytes: u64,
}

/// A count as a 32-bit number, the greatest such number standing for all
/// that are greater.
pub open spec fn capped(n: int) -> u32 {
    if n > u32::MAX {
        u32::MAX
    } else {
        n as u32
    }
}

/// What a snapshot says in words: that the metadata is being fetched,
/// that the download is complete, that peers are looked for, or that the
/// download runs, in this order of precedence.
pub open spec fn message_text(fetching: bool, complete: bool, peers: u32) -> Seq<char> {
    if fetching {
        "Fetching Metadata... ("@ + decimal_text(peers as nat) + " peers)"@
    } else if complete {
        "Complete"@
    } else if peers == 0 {
        "Searching for peers..."@
    } else {
        "Downloading ("@ + decimal_text(peers as nat) + " peers)"@
    }
}

/// The bytes per second of `bytes` in `elapsed_ms` milliseconds; nothing
/// where no time has passed.
pub open spec fn speed_of(bytes: u64, elapsed_ms: u64) -> u64 {
    if elapsed_ms == 0 {
        0
    } else if bytes * 1000 / (elapsed_ms as int) > u64::MAX {
        u64::MAX
    } else {
        (bytes * 1000 / (elapsed_ms as int)) as u64
    }
}

/// Why a peer connection was given up, in words.
pub open spec fn peer_error_text(e: PeerError) -> Seq<char> {
    match e {
        PeerError::HandshakeMismatch => "Info hash mismatch"@,
        PeerError::UnknownMessage(id) => "Unknown message ID: "@ + decimal_text(id as nat),
        PeerError::ProtocolViolation => "Protocol violation"@,
    }
}

/// A failure in words.
pub open spec fn error_text(e: TorrentError) -> Seq<char> {
    match e {
        TorrentError::MalformedTorrent => "Malformed torrent"@,
        TorrentError::InvalidMagnet => "Invalid magnet link"@,
        TorrentError::TrackerRefused(reason) => if valid_utf8(reason@) {
            "Tracker error: "@ + decode_utf8(reason@)
        } else {
            "Tracker error"@
        },
        TorrentError::MalformedResponse => "Malformed tracker response"@,
        TorrentError::TrackerTimeout => "Tracker timed out"@,
        TorrentError::IoError => "Failed to write piece"@,
        TorrentError::DownloadIncomplete(done, total) => "Download incomplete: "@ + decimal_text(
            done as nat,
        ) + "/"@ + decimal_text(total as nat) + " pieces"@,
    }
}

/// The snapshot `s` shows the download `m` with `downloaded_bytes` taken
/// in at `speed`.
pub open spec fn shows(
    s: AppTorrentStatus,
    m: ManagerView,
    downloaded_bytes: u64,
    speed: u64,
) -> bool {
    &&& s.total_pieces == capped(m.pieces.len() as int)
    &&& s.completed_pieces == capped(completed(m.pieces) as int)
    &&& s.peers == capped(m.active as int)
    &&& s.speed == speed
    &&& s.downloading == !all_complete(m.pieces)
    &&& !s.is_fetching_metadata
    &&& s.status_message@ == message_text(false, all_complete(m.pieces), s.peers)
    &&& s.error is None
    &&& s.total_bytes == m.metainfo.total_length
    &&& s.downloaded_bytes == downloaded_bytes
}

/// A count as a 32-bit number.
fn cap(n: usize) -> (r: u32)
    ensures
        r == capped(n as int),
{
    if n > u32::MAX as usize {
        u32::MAX
    } else {
        n as u32
    }
}

/// The bytes per second of `bytes` in `elapsed_ms` milliseconds.
pub fn speed(bytes: u64, elapsed_ms: u64) -> (r: u64)
    ensures
        r == speed_of(bytes, elapsed_ms),
{
    if elapsed_ms == 0 {
        return 0;
    }
    let per_second: u128 = bytes as u128 * 1000 / elapsed_ms as u128;
    if per_second > u64::MAX as u128 {
        u64::MAX
    } else {
        per_second as u64
    }
}

/// What a snapshot says in words.
pub fn status_message(fetching: bool, complete: bool, peers: u32) -> (r: String)
    ensures
        r@ == message_text(fetching, complete, peers),
{
    if fetching {
        let mut s = String::from_str("Fetching Metadata... (");
        s.append(decimal_string(peers as u64).as_str());
        s.append(" peers)");
        s
    } else if complete {
        String::from_str("Complete")
    } else if peers == 0 {
        String::from_str("Searching for peers...")
    } else {
        let mut s = String::from_str("Downloading (");
        s.append(decimal_string(peers as u64).as_str());
        s.append(" peers)");
        s
    }
}

impl PeerError {
    /// Why the connection was given up, in words.
    pub fn describe(&self) -> (r: String)
        ensures
            r@ == peer_error_text(*self),
    {
        match self {
            PeerError::HandshakeMismatch => String::from_str("Info hash mismatch"),
            PeerError::UnknownMessage(id) => {
                let mut s = String::from_str("Unknown message ID: ");
                s.append(decimal_string(*id as u64).as_str());
                s
            },
            PeerError::ProtocolViolation => String::from_str("Protocol violation"),
        }
    }
}

impl TorrentError {
    /// The failure in words.
    pub fn describe(&self) -> (r: String)
        ensures
            r@ == error_text(*self),
    {
        match self {
            TorrentError::MalformedTorrent => String::from_str("Malformed torrent"),
            TorrentError::InvalidMagnet => String::from_str("Invalid magnet link"),
            TorrentError::TrackerRefused(reason) => match text_of_bytes(reason.as_slice()) {
                Some(text) => {
                    let mut s = String::from_str("Tracker error: ");
                    s.append(text);
                    s
                },
                None => String::from_str("Tracker error"),
            },
            TorrentError::MalformedResponse => String::from_str("Malformed tracker response"),
            TorrentError::TrackerTimeout => String::from_str("Tracker timed out"),
            TorrentError::IoError => String::from_str("Failed to write piece"),
            TorrentError::DownloadIncomplete(done, total) => {
                let mut s = String::from_str("Download incomplete: ");
                s.append(decimal_string(*done as u64).as_str());
                s.append("/");
                s.append(decimal_string(*total as u64).as_str());
                s.append(" pieces");
                s
            },
        }
    }
}

impl DownloadManager {
    /// A snapshot of the download as it stands, with the bytes taken in
    /// so far and the speed at which they came.
    pub fn status(&self, downloaded_bytes: u64, speed: u64) -> (r: AppTorrentStatus)
        ensures
            shows(r, self@, downloaded_bytes, speed),
    {
        let (done, total) = self.progress();
        proof {
            crate::download::table::lemma_completed_bound(self@.pieces);
        }
        let complete = done == total;
        let peers = cap(self.active_workers());
        AppTorrentStatus {
            total_pieces: cap(total),
            completed_pieces: cap(done),
            peers,
            speed,
            downloading: !complete,
            is_fetching_metadata: false,
            status_message: status_message(false, complete, peers),
            error: None,
            total_bytes: self.metainfo().info.total_length as u64,
            downloaded_bytes,
        }
    }

    /// The last snapshot of a download that failed: it runs no longer, and
    /// the failure is told in words.
    pub fn failure_status(&self, downloaded_bytes: u64, error: &TorrentError) -> (r:
        AppTorrentStatus)
        ensures
            !r.downloading,
            r.error is Some && r.error->0@ == error_text(*error),
            r.status_message@ == error_text(*error),
            r.total_pieces == capped(self@.pieces.len() as int),
            r.completed_pieces == capped(completed(self@.pieces) as int),
            r.downloaded_bytes == downloaded_bytes,
            r.total_bytes == self@.metainfo.total_length,
    {
        let (done, total) = self.progress();
        AppTorrentStatus {
            total_pieces: cap(total),
            completed_pieces: cap(done),
            peers: cap(self.active_workers()),
            speed: 0,
            downloading: false,
            is_fetching_metadata: false,
            status_message: error.describe(),
            error: Some(error.describe()),
            total_bytes: self.metainfo().info.total_length as u64,
            downloaded_bytes,
        }
    }
}

} // verus!
