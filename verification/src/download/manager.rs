//! The download manager: the pieces, the layout of the output files and
//! the peers of one download, and the decisions of the loops that drive
//! it. The loops themselves, with their sockets, sleeps and channels, are
//! the caller's.

use crate::download::peers::{merged, raised, PeerBook, PeerBookView};
use crate::download::piece::{PieceView, BLOCK_SIZE};
use crate::download::table::{addressable, all_complete, completed, fresh_piece, PieceTable};
use crate::download::worker::{step_spec, table_spec, Action, Event, Worker};
use crate::error::TorrentError;
use crate::peer::connection::PeerConnection;
use crate::storage::layout::{Storage, StorageView};
use crate::storage::plan::{plan_of, written, WriteOp};
use crate::torrent::metainfo::Metainfo;
use crate::torrent::model::{total_len, MetainfoView};
use crate::tracker::request::TrackerRequest;
use crate::tracker::response::PeerAddr;
use vstd::prelude::*;

verus! {

/// The most workers that run at one time.
pub const MAX_ACTIVE_WORKERS: usize = 200;

/// How many finished pieces wait for the storage at most.
pub const PIECE_CHANNEL_CAPACITY: usize = 500;

/// How long after the start the tracker is first asked again, in seconds.
pub const FIRST_ANNOUNCE_DELAY_SECS: u64 = 10;

/// Below this many workers the swarm is small, and the tracker is asked
/// often.
pub const SMALL_SWARM: usize = 50;

/// The seconds between two announces while the swarm is small.
pub const SHORT_ANNOUNCE_SECS: u64 = 45;

/// The seconds between two announces otherwise.
pub const LONG_ANNOUNCE_SECS: u64 = 300;

/// Below this many workers, with enough peers known, peers are dialed
/// again soon.
pub const FEW_WORKERS: usize = 10;

/// More known peers than this are enough to dial again soon.
pub const ENOUGH_PEERS: usize = 15;

/// The seconds before a peer is dialed again when workers are few.
pub const SHORT_RETRY_SECS: u64 = 1;

/// The seconds before a peer is dialed again otherwise.
pub const LONG_RETRY_SECS: u64 = 5;

/// The seconds to wait when no peer is queued or no worker may start.
pub const QUEUE_POLL_SECS: u64 = 1;

/// The seconds between two snapshots of the progress.
pub const REPORT_SECS: u64 = 1;

/// The port that announces name while the download runs.
pub const ANNOUNCE_PORT: u16 = 6881;

/// The seconds between two announces with `active` workers running.
pub open spec fn announce_interval_secs(active: usize) -> u64 {
    if active < SMALL_SWARM {
        SHORT_ANNOUNCE_SECS
    } else {
        LONG_ANNOUNCE_SECS
    }
}

/// The seconds before a worker's peer is queued again: few where fewer
/// than 10 workers run and more than 15 peers are known, more otherwise.
pub open spec fn retry_delay_secs(active: usize, total_known: usize) -> u64 {
    if active < FEW_WORKERS && total_known > ENOUGH_PEERS {
        SHORT_RETRY_SECS
    } else {
        LONG_RETRY_SECS
    }
}

/// What is told the tracker of the download so far: one block's length
/// for each piece that is done, an estimate.
pub open spec fn reported_downloaded(done: nat) -> u64 {
    (done * BLOCK_SIZE) as u64
}

/// What is told the tracker of what is left: the content less what was
/// reported as downloaded, and no less than nothing.
pub open spec fn reported_left(done: nat, total: usize) -> u64 {
    if total > done * BLOCK_SIZE {
        (total - done * BLOCK_SIZE) as u64
    } else {
        0
    }
}

/// A download as the contracts see it.
pub struct ManagerView {
    pub metainfo: MetainfoView,
    pub pieces: Seq<PieceView>,
    pub storage: StorageView,
    pub peer_id: Seq<u8>,
    pub peers: PeerBookView,
    pub active: usize,
    pub workers_seen: bool,
}

/// Whether the download has ended, and how, given whether finished pieces
/// still wait for the storage: it goes on while they do; it has ended well
/// once every piece is done; and it has ended incomplete once workers have
/// run and none runs any more.
pub open spec fn verdict_of(m: ManagerView, channel_empty: bool) -> Option<
    Result<(), TorrentError>,
> {
    if !channel_empty {
        None
    } else if all_complete(m.pieces) {
        Some(Ok(()))
    } else if m.workers_seen && m.active == 0 {
        Some(
            Err(
                TorrentError::DownloadIncomplete(
                    completed(m.pieces) as usize,
                    m.pieces.len() as usize,
                ),
            ),
        )
    } else {
        None
    }
}

/// The state of one download.
pub struct DownloadManager {
    metainfo: Metainfo,
    pieces: PieceTable,
    storage: Storage,
    peer_id: [u8; 20],
    peers: PeerBook,
    active: usize,
    workers_seen: bool,
}

impl View for DownloadManager {
    type V = ManagerView;

    closed spec fn view(&self) -> ManagerView {
        ManagerView {
            metainfo: self.metainfo@,
            pieces: self.pieces@,
            storage: self.storage@,
            peer_id: self.peer_id@,
            peers: self.peers@,
            active: self.active,
            workers_seen: self.workers_seen,
        }
    }
}

impl DownloadManager {
    /// A download of a torrent, with nothing done, no peers and no
    /// workers. A torrent whose pieces do not cover its content exactly, or
    /// that the peer protocol cannot speak of, or whose files are too long
    /// together, is refused.
    pub fn new(metainfo: Metainfo, peer_id: [u8; 20]) -> (r: Result<DownloadManager, TorrentError>)
        ensures
            match r {
                Ok(m) => {
                    &&& metainfo@.consistent()
                    &&& addressable(metainfo@)
                    &&& m@.metainfo == metainfo@
                    &&& m@.peer_id == peer_id@
                    &&& m@.pieces.len() == metainfo@.pieces.len()
                    &&& forall|i: int|
                        0 <= i < m@.pieces.len() ==> (#[trigger] m@.pieces[i]) == fresh_piece(
                            metainfo@,
                            i,
                        )
                    &&& m@.storage.wf()
                    &&& m@.storage.matches(metainfo@)
                    &&& m@.storage.total == total_len(metainfo@.files)
                    &&& m@.peers == (PeerBookView {
                        queue: Seq::empty(),
                        known: Set::empty(),
                        total_known: 0,
                    })
                    &&& m@.active == 0
                    &&& !m@.workers_seen
                },
                Err(e) => e == TorrentError::MalformedTorrent && !(metainfo@.consistent()
                    && addressable(metainfo@) && total_len(metainfo@.files) <= usize::MAX),
            },
    {
        let pieces = match PieceTable::new(&metainfo) {
            Ok(t) => t,
            Err(e) => {
                return Err(e);
            },
        };
        let storage = match Storage::new(&metainfo) {
            Ok(s) => s,
            Err(e) => {
                return Err(e);
            },
        };
        let none: Vec<PeerAddr> = Vec::new();
        let peers = PeerBook::new(&none);
        Ok(
            DownloadManager {
                metainfo,
                pieces,
                storage,
                peer_id,
                peers,
                active: 0,
                workers_seen: false,
            },
        )
    }

    /// The torrent that is downloaded.
    pub fn metainfo(&self) -> (r: &Metainfo)
        ensures
            r@ == self@.metainfo,
    {
        &self.metainfo
    }

    /// The client's peer id.
    pub fn peer_id(&self) -> (r: [u8; 20])
        ensures
            r@ == self@.peer_id,
    {
        self.peer_id
    }

    /// The layout of the output files.
    pub fn storage(&self) -> (r: &Storage)
        ensures
            r@ == self@.storage,
    {
        &self.storage
    }

    /// Takes note of the peers that the download starts with, or that a
    /// tracker named: each that was not known is queued for dialing. How
    /// many were new is returned.
    pub fn merge_peers(&mut self, peers: &Vec<PeerAddr>) -> (r: usize)
        ensures
            final(self)@ == (ManagerView {
                peers: PeerBookView {
                    queue: merged(old(self)@.peers.queue, old(self)@.peers.known, peers@).0,
                    known: merged(old(self)@.peers.queue, old(self)@.peers.known, peers@).1,
                    total_known: raised(old(self)@.peers.total_known, r as int),
                },
                ..old(self)@
            }),
            r == final(self)@.peers.queue.len() - old(self)@.peers.queue.len(),
    {
        self.peers.merge(peers)
    }

    /// The next peer to dial: the one that has waited longest, as long as
    /// fewer than 200 workers run. `None` asks to wait a second and ask
    /// again.
    pub fn next_peer(&mut self) -> (r: Option<PeerAddr>)
        ensures
            match r {
                Some(p) => {
                    &&& old(self)@.active < MAX_ACTIVE_WORKERS
                    &&& old(self)@.peers.queue.len() > 0
                    &&& p == old(self)@.peers.queue[0]
                    &&& final(self)@ == (ManagerView {
                        peers: PeerBookView {
                            queue: old(self)@.peers.queue.skip(1),
                            ..old(self)@.peers
                        },
                        ..old(self)@
                    })
                },
                None => {
                    &&& old(self)@.active >= MAX_ACTIVE_WORKERS || old(self)@.peers.queue.len() == 0
                    &&& final(self)@ == old(self)@
                },
            },
    {
        if self.active < MAX_ACTIVE_WORKERS {
            self.peers.pop()
        } else {
            None
        }
    }

    /// Takes note of a worker that has started.
    pub fn worker_started(&mut self)
        ensures
            final(self)@ == (ManagerView {
                active: raised(old(self)@.active, 1),
                workers_seen: true,
                ..old(self)@
            }),
    {
        if self.active < usize::MAX {
            self.active = self.active + 1;
        }
        self.workers_seen = true;
    }

    /// Takes note of a worker that has returned, and says after how many
    /// seconds its peer is to be queued again.
    pub fn worker_finished(&mut self) -> (r: u64)
        ensures
            final(self)@ == (ManagerView {
                active: if old(self)@.active > 0 {
                    (old(self)@.active - 1) as usize
                } else {
                    0
                },
                ..old(self)@
            }),
            r == retry_delay_secs(final(self)@.active, final(self)@.peers.total_known),
    {
        if self.active > 0 {
            self.active = self.active - 1;
        }
        if self.active < FEW_WORKERS && self.peers.total_known() > ENOUGH_PEERS {
            SHORT_RETRY_SECS
        } else {
            LONG_RETRY_SECS
        }
    }

    /// Queues a peer again.
    pub fn requeue(&mut self, peer: PeerAddr)
        ensures
            final(self)@ == (ManagerView {
                peers: PeerBookView {
                    queue: old(self)@.peers.queue.push(peer),
                    ..old(self)@.peers
                },
                ..old(self)@
            }),
    {
        self.peers.requeue(peer);
    }

    /// How many workers run.
    pub fn active_workers(&self) -> (r: usize)
        ensures
            r == self@.active,
    {
        self.active
    }

    /// After how many seconds to announce again.
    pub fn announce_interval(&self) -> (r: u64)
        ensures
            r == announce_interval_secs(self@.active),
    {
        if self.active < SMALL_SWARM {
            SHORT_ANNOUNCE_SECS
        } else {
            LONG_ANNOUNCE_SECS
        }
    }

    /// What to tell the tracker: nothing uploaded, for each piece done one
    /// block's length downloaded, and the rest of the content left.
    pub fn announce_request(&self, port: u16) -> (r: TrackerRequest)
        ensures
            r.info_hash@ == self@.metainfo.info_hash,
            r.peer_id@ == self@.peer_id,
            r.port == port,
            r.uploaded == 0,
            r.downloaded == reported_downloaded(completed(self@.pieces)),
            r.left == reported_left(completed(self@.pieces), self@.metainfo.total_length),
    {
        let (done, _) = self.pieces.progress();
        let downloaded: u64 = done as u64 * BLOCK_SIZE as u64;
        let total: u64 = self.metainfo.info.total_length as u64;
        let left: u64 = if total > downloaded {
            total - downloaded
        } else {
            0
        };
        TrackerRequest {
            info_hash: self.metainfo.info_hash,
            peer_id: self.peer_id,
            port,
            uploaded: 0,
            downloaded,
            left,
        }
    }

    /// What a worker does in the table of pieces of this download where a
    /// step of it, taken without the table, has left something to do there.
    /// The download is to be locked for the call, and for no longer.
    pub fn step_table(&mut self, worker: &mut Worker, conn: &PeerConnection) -> (r: Action)
        ensures
            ({
                let o = table_spec(old(worker)@, conn@, old(self)@.pieces);
                &&& final(worker)@ == o.worker
                &&& final(self)@ == (ManagerView { pieces: o.table, ..old(self)@ })
                &&& r@ == o.action
            }),
            completed(final(self)@.pieces) >= completed(old(self)@.pieces),
    {
        let r = worker.step_table(conn, &mut self.pieces);
        r
    }

    /// What a worker does on an event, with the pieces of this download.
    pub fn step(&mut self, worker: &mut Worker, conn: &mut PeerConnection, event: Event) -> (r:
        Action)
        ensures
            ({
                let o = step_spec(old(worker)@, old(conn)@, old(self)@.pieces, event@);
                &&& final(worker)@ == o.worker
                &&& final(conn)@ == o.conn
                &&& final(self)@ == (ManagerView { pieces: o.table, ..old(self)@ })
                &&& r@ == o.action
            }),
            completed(final(self)@.pieces) >= completed(old(self)@.pieces),
    {
        let r = worker.step(conn, &mut self.pieces, event);
        r
    }

    /// The writes that store a piece of `len` bytes in the output files.
    pub fn write_piece(&self, piece_index: usize, len: usize) -> (r: Option<Vec<WriteOp>>)
        ensures
            match r {
                Some(ops) => {
                    &&& piece_index * self@.storage.piece_length + len <= self@.storage.total
                    &&& ops@ == plan_of(
                        self@.storage.files,
                        piece_index * self@.storage.piece_length,
                        len as int,
                    )
                    &&& written(ops@) == len
                },
                None => piece_index * self@.storage.piece_length + len > self@.storage.total,
            },
    {
        self.storage.write_piece(piece_index, len)
    }

    /// Whether every piece is done.
    pub fn is_complete(&self) -> (r: bool)
        ensures
            r == all_complete(self@.pieces),
    {
        self.pieces.is_complete()
    }

    /// How many pieces are done, and how many there are.
    pub fn progress(&self) -> (r: (usize, usize))
        ensures
            r.0 == completed(self@.pieces),
            r.1 == self@.pieces.len(),
            r.0 <= r.1,
    {
        self.pieces.progress()
    }

    /// Whether the download has ended, and how.
    pub fn verdict(&self, channel_empty: bool) -> (r: Option<Result<(), TorrentError>>)
        ensures
            r == verdict_of(self@, channel_empty),
    {
        if !channel_empty {
            return None;
        }
        let (done, total) = self.pieces.progress();
        proof {
            crate::download::table::lemma_completed_bound(self@.pieces);
        }
        if done == total {
            Some(Ok(()))
        } else if self.workers_seen && self.active == 0 {
            Some(Err(TorrentError::DownloadIncomplete(done, total)))
        } else {
            None
        }
    }

    /// How the download ended, once no worker runs and no piece waits for
    /// the storage: well if every piece is done, and else incomplete, with
    /// the number of pieces done and the number of pieces.
    pub fn finish(&self) -> (r: Result<(), TorrentError>)
        ensures
            match r {
                Ok(_) => all_complete(self@.pieces),
                Err(e) => !all_complete(self@.pieces) && e == TorrentError::DownloadIncomplete(
                    completed(self@.pieces) as usize,
                    self@.pieces.len() as usize,
                ),
            },
    {
        let (done, total) = self.pieces.progress();
        proof {
            crate::download::table::lemma_completed_bound(self@.pieces);
        }
        if done < total {
            Err(TorrentError::DownloadIncomplete(done, total))
        } else {
            Ok(())
        }
    }
}

} // verus!
