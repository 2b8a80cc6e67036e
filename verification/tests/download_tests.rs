use bytes::BytesMut;
use sha1::{Digest, Sha1};
use torrent_client::download::manager::{
    FIRST_ANNOUNCE_DELAY_SECS, MAX_ACTIVE_WORKERS, PIECE_CHANNEL_CAPACITY, QUEUE_POLL_SECS,
};
use torrent_client::download::pipeline::Pipeline;
use torrent_client::download::worker::Phase;
use torrent_client::download::{Action, DownloadManager, Event, PeerBook, PieceTable, Worker};
use torrent_client::error::TorrentError;
use torrent_client::peer::connection::bitfield_len;
use torrent_client::peer::{create_handshake, Message, PeerConnection, PeerError};
use torrent_client::status::speed;
use torrent_client::storage::layout::output_path;
use torrent_client::storage::{Storage, WriteOp};
use torrent_client::torrent::{FileInfo, Metainfo, TorrentInfo};
use torrent_client::tracker::PeerAddr;

fn content() -> Vec<u8> {
    (0..40000u32).map(|i| (i * 7 % 251) as u8).collect()
}

fn metainfo() -> Metainfo {
    let data = content();
    let pieces: Vec<[u8; 20]> = data.chunks(16384).map(|c| Sha1::digest(c).into()).collect();
    Metainfo {
        announce: "http://tracker.example.com/announce".to_string(),
        info_hash: [7u8; 20],
        info: TorrentInfo {
            name: "pack".to_string(),
            piece_length: 16384,
            pieces,
            files: vec![
                FileInfo { path: vec!["a".to_string()], length: 20000 },
                FileInfo { path: vec!["sub".to_string(), "b".to_string()], length: 0 },
                FileInfo { path: vec!["sub".to_string(), "c".to_string()], length: 20000 },
            ],
            total_length: 40000,
        },
    }
}

fn addr(last: u8) -> PeerAddr {
    PeerAddr { ip: [10, 0, 0, last], port: 6881 }
}

fn connect(bitfield: Option<Vec<u8>>) -> PeerConnection {
    let reply = create_handshake(&[7u8; 20], &[9u8; 20]);
    let mut conn = PeerConnection::connect(addr(1), &[7u8; 20], &reply).unwrap();
    if let Some(bits) = bitfield {
        conn.handle_message(&Message::Bitfield { bitfield: bits });
    }
    conn
}

#[test]
fn connection_starts_choked_and_follows_messages() {
    let reply = create_handshake(&[7u8; 20], &[9u8; 20]);
    assert_eq!(
        PeerConnection::connect(addr(1), &[8u8; 20], &reply).err(),
        Some(PeerError::HandshakeMismatch)
    );
    assert_eq!(
        PeerConnection::connect(addr(1), &[7u8; 20], &reply[..60]).err(),
        Some(PeerError::ProtocolViolation)
    );
    let mut conn = PeerConnection::connect(addr(1), &[7u8; 20], &reply).unwrap();
    assert_eq!(*conn.addr(), addr(1));
    assert!(conn.is_choking());
    assert!(!conn.is_interested());
    assert!(!conn.has_piece(0));
    assert_eq!(conn.request_piece(0, 0, 16384).unwrap_err(), PeerError::ProtocolViolation);

    conn.feed(&Message::Bitfield { bitfield: vec![0b1010_0000, 0b0000_0001] }.encode());
    conn.feed(&Message::Unchoke.encode()[..3]);
    assert_eq!(
        conn.receive_message().unwrap(),
        Some(Message::Bitfield { bitfield: vec![0b1010_0000, 0b0000_0001] })
    );
    assert_eq!(conn.receive_message().unwrap(), None);
    assert!(conn.is_choking());
    conn.feed(&Message::Unchoke.encode()[3..]);
    assert_eq!(conn.receive_message().unwrap(), Some(Message::Unchoke));
    assert!(!conn.is_choking());
    assert!(conn.has_piece(0));
    assert!(!conn.has_piece(1));
    assert!(conn.has_piece(2));
    assert!(!conn.has_piece(7));
    assert!(!conn.has_piece(14));
    assert!(conn.has_piece(15));
    assert!(!conn.has_piece(16));
    assert_eq!(
        conn.request_piece(1, 16384, 100).unwrap(),
        Message::Request { index: 1, begin: 16384, length: 100 }.encode()
    );
    assert_eq!(conn.send_interested(), Message::Interested.encode());
    assert!(conn.is_interested());
    assert_eq!(conn.send_message(&Message::KeepAlive), vec![0, 0, 0, 0]);
    conn.feed(&Message::Choke.encode());
    assert_eq!(conn.receive_message().unwrap(), Some(Message::Choke));
    assert!(conn.is_choking());
    conn.feed(&[0, 0, 0, 1, 42]);
    assert_eq!(conn.receive_message().unwrap_err(), PeerError::UnknownMessage(42));
}

#[test]
fn bitfield_has_a_byte_for_every_eight_pieces() {
    assert_eq!(bitfield_len(0), 0);
    assert_eq!(bitfield_len(1), 1);
    assert_eq!(bitfield_len(8), 1);
    assert_eq!(bitfield_len(9), 2);
    assert_eq!(bitfield_len(16), 2);
    assert_eq!(bitfield_len(usize::MAX), usize::MAX / 8 + 1);
}

#[test]
fn table_claims_first_then_last_then_in_order() {
    let mut table = PieceTable::new(&metainfo()).unwrap();
    assert_eq!(table.len(), 3);
    assert_eq!(table.progress(), (0, 3));
    let none = connect(None);
    assert_eq!(table.claim(&none), None);
    let all = connect(Some(vec![0b1110_0000]));
    let hashes = metainfo().info.pieces;
    assert_eq!(table.claim(&all), Some((0, 16384, hashes[0])));
    assert_eq!(table.claim(&all), Some((2, 40000 - 2 * 16384, hashes[2])));
    assert_eq!(table.claim(&all), Some((1, 16384, hashes[1])));
    assert_eq!(table.claim(&all), None);
    table.release(2);
    table.release(9);
    let only_middle = connect(Some(vec![0b0100_0000]));
    assert_eq!(table.claim(&only_middle), None);
    assert_eq!(table.claim(&all), Some((2, 7232, hashes[2])));
    table.mark_complete(0);
    table.mark_complete(9);
    assert_eq!(table.progress(), (1, 3));
    table.release(0);
    assert_eq!(table.claim(&all), None);
    table.mark_complete(1);
    table.mark_complete(2);
    assert_eq!(table.progress(), (3, 3));
    assert!(table.is_complete());
}

#[test]
fn table_refuses_a_torrent_that_its_pieces_do_not_cover() {
    let mut m = metainfo();
    m.info.total_length = 50000;
    assert_eq!(PieceTable::new(&m).err(), Some(TorrentError::MalformedTorrent));
    let mut m = metainfo();
    m.info.piece_length = 0;
    assert_eq!(PieceTable::new(&m).err(), Some(TorrentError::MalformedTorrent));
    let mut m = metainfo();
    m.info.pieces.pop();
    assert_eq!(DownloadManager::new(m, [0u8; 20]).err(), Some(TorrentError::MalformedTorrent));
}

#[test]
fn pipeline_adapts_to_the_peer() {
    let mut p = Pipeline::new();
    assert_eq!(p, Pipeline { size: 3, pending: 0, fast_streak: 0 });
    assert!(p.can_request(false));
    assert!(!p.can_request(true));
    p.on_request();
    p.on_request();
    p.on_request();
    assert!(!p.can_request(false));
    for _ in 0..4 {
        p.on_block(499);
    }
    assert_eq!(p, Pipeline { size: 3, pending: 0, fast_streak: 4 });
    p.on_block(500);
    assert_eq!(p, Pipeline { size: 3, pending: 0, fast_streak: 0 });
    for _ in 0..4 {
        p.on_block(499);
    }
    p.on_block(2000);
    assert_eq!(p, Pipeline { size: 3, pending: 0, fast_streak: 0 });
    for _ in 0..4 {
        p.on_block(1);
    }
    assert_eq!(p, Pipeline { size: 3, pending: 0, fast_streak: 4 });
    p.on_block(0);
    assert_eq!(p, Pipeline { size: 4, pending: 0, fast_streak: 0 });
    p.on_block(2001);
    assert_eq!(p, Pipeline { size: 2, pending: 0, fast_streak: 0 });
    p.on_block(5000);
    assert_eq!(p.size, 1);
    p.on_block(5000);
    assert_eq!(p.size, 1);
    for _ in 0..200 {
        p.on_block(1);
    }
    assert_eq!(p.size, 20);
    p.on_request();
    p.on_choke();
    assert_eq!(p, Pipeline { size: 1, pending: 0, fast_streak: 0 });
}

#[test]
fn storage_plans_the_writes_of_each_piece() {
    let storage = Storage::new(&metainfo()).unwrap();
    assert_eq!(storage.total_size(), 40000);
    assert_eq!(storage.piece_length(), 16384);
    let spans: Vec<(usize, usize)> = storage.files().iter().map(|f| (f.offset, f.length)).collect();
    assert_eq!(spans, vec![(0, 20000), (20000, 0), (20000, 20000)]);
    assert_eq!(
        storage.write_piece(0, 16384),
        Some(vec![WriteOp { file: 0, file_offset: 0, data_offset: 0, len: 16384 }])
    );
    assert_eq!(
        storage.write_piece(1, 16384),
        Some(vec![
            WriteOp { file: 0, file_offset: 16384, data_offset: 0, len: 3616 },
            WriteOp { file: 2, file_offset: 0, data_offset: 3616, len: 12768 },
        ])
    );
    assert_eq!(
        storage.write_piece(2, 7232),
        Some(vec![WriteOp { file: 2, file_offset: 12768, data_offset: 0, len: 7232 }])
    );
    assert_eq!(storage.write_piece(2, 7233), None);
    assert_eq!(storage.write_piece(3, 1), None);
    assert_eq!(storage.write_piece(usize::MAX, 1), None);
    assert_eq!(storage.write_piece(2, 0), Some(vec![]));
    let m = metainfo();
    assert_eq!(output_path(&m, 0), Some(vec!["pack".to_string(), "a".to_string()]));
    assert_eq!(
        output_path(&m, 2),
        Some(vec!["pack".to_string(), "sub".to_string(), "c".to_string()])
    );
    assert_eq!(output_path(&m, 3), None);
}

#[test]
fn storage_refuses_files_longer_than_a_word() {
    let mut m = metainfo();
    m.info.files[0].length = usize::MAX;
    assert_eq!(Storage::new(&m).err(), Some(TorrentError::MalformedTorrent));
}

#[test]
fn peer_book_queues_each_peer_once() {
    let mut book = PeerBook::new(&vec![addr(1), addr(2)]);
    assert_eq!(book.total_known(), 2);
    assert_eq!(book.queued(), 2);
    assert_eq!(book.merge(&vec![addr(2), addr(3), addr(3), addr(1), addr(4)]), 2);
    assert_eq!(book.total_known(), 4);
    assert_eq!(book.pop(), Some(addr(1)));
    assert_eq!(book.pop(), Some(addr(2)));
    assert_eq!(book.pop(), Some(addr(3)));
    book.requeue(addr(1));
    assert_eq!(book.merge(&vec![addr(1)]), 0);
    assert_eq!(book.pop(), Some(addr(4)));
    assert_eq!(book.pop(), Some(addr(1)));
    assert_eq!(book.pop(), None);
    assert_ne!(addr(1).key(), addr(2).key());
    assert_eq!(PeerAddr { ip: [1, 2, 3, 4], port: 5 }.key(), 0x0102_0304_0005);
}

#[test]
fn manager_decides_for_the_loops() {
    assert_eq!(MAX_ACTIVE_WORKERS, 200);
    assert_eq!(PIECE_CHANNEL_CAPACITY, 500);
    assert_eq!(FIRST_ANNOUNCE_DELAY_SECS, 10);
    assert_eq!(QUEUE_POLL_SECS, 1);
    let mut manager = DownloadManager::new(metainfo(), [5u8; 20]).unwrap();
    assert_eq!(manager.peer_id(), [5u8; 20]);
    assert_eq!(manager.next_peer(), None);
    let initial: Vec<PeerAddr> = (0..20).map(addr).collect();
    assert_eq!(manager.merge_peers(&initial), 20);
    assert_eq!(manager.merge_peers(&initial), 0);
    assert_eq!(manager.announce_interval(), 45);
    assert_eq!(manager.next_peer(), Some(addr(0)));
    manager.worker_started();
    assert_eq!(manager.active_workers(), 1);
    // One worker, twenty peers known: few workers and peers enough.
    manager.worker_started();
    assert_eq!(manager.worker_finished(), 1);
    assert_eq!(manager.active_workers(), 1);
    for _ in 0..9 {
        manager.worker_started();
    }
    assert_eq!(manager.worker_finished(), 1);
    manager.worker_started();
    manager.worker_started();
    assert_eq!(manager.worker_finished(), 5);
    for _ in 0..39 {
        manager.worker_started();
    }
    assert_eq!(manager.active_workers(), 49);
    assert_eq!(manager.announce_interval(), 45);
    manager.worker_started();
    assert_eq!(manager.announce_interval(), 300);
    for _ in 0..150 {
        manager.worker_started();
    }
    assert_eq!(manager.active_workers(), 200);
    assert_eq!(manager.next_peer(), None);
    manager.worker_finished();
    assert_eq!(manager.next_peer(), Some(addr(1)));
    manager.requeue(addr(0));

    let request = manager.announce_request(6881);
    assert_eq!(request.info_hash, [7u8; 20]);
    assert_eq!(request.peer_id, [5u8; 20]);
    assert_eq!(request.port, 6881);
    assert_eq!(request.uploaded, 0);
    assert_eq!(request.downloaded, 0);
    assert_eq!(request.left, 40000);
    assert_eq!(manager.finish(), Err(TorrentError::DownloadIncomplete(0, 3)));
    assert_eq!(
        manager.finish().unwrap_err().describe(),
        "Download incomplete: 0/3 pieces"
    );
    let status = manager.status(1000, 50);
    assert_eq!(status.total_pieces, 3);
    assert_eq!(status.completed_pieces, 0);
    assert_eq!(status.peers, 199);
    assert!(status.downloading);
    assert!(!status.is_fetching_metadata);
    assert_eq!(status.status_message, "Downloading (199 peers)");
    assert_eq!(status.error, None);
    assert_eq!(status.total_bytes, 40000);
    assert_eq!(status.downloaded_bytes, 1000);
    assert_eq!(status.speed, 50);
    let failed = manager.failure_status(1000, &TorrentError::IoError);
    assert!(!failed.downloading);
    assert_eq!(failed.error, Some("Failed to write piece".to_string()));
}

#[test]
fn speed_is_bytes_per_second() {
    assert_eq!(speed(0, 0), 0);
    assert_eq!(speed(1000, 0), 0);
    assert_eq!(speed(1_048_576, 1000), 1_048_576);
    assert_eq!(speed(1_048_576, 500), 2_097_152);
    assert_eq!(speed(u64::MAX, 1), u64::MAX);
    assert_eq!(speed(7, 2000), 3);
}

#[test]
fn errors_in_words() {
    assert_eq!(TorrentError::MalformedTorrent.describe(), "Malformed torrent");
    assert_eq!(TorrentError::InvalidMagnet.describe(), "Invalid magnet link");
    assert_eq!(
        TorrentError::TrackerRefused(b"torrent unknown".to_vec()).describe(),
        "Tracker error: torrent unknown"
    );
    assert_eq!(TorrentError::TrackerRefused(vec![0xff]).describe(), "Tracker error");
    assert_eq!(TorrentError::MalformedResponse.describe(), "Malformed tracker response");
    assert_eq!(TorrentError::TrackerTimeout.describe(), "Tracker timed out");
    assert_eq!(TorrentError::IoError.describe(), "Failed to write piece");
    assert_eq!(PeerError::UnknownMessage(9).describe(), "Unknown message ID: 9");
    assert_eq!(PeerError::HandshakeMismatch.describe(), "Info hash mismatch");
    assert_eq!(PeerError::ProtocolViolation.describe(), "Protocol violation");
    assert_eq!(TorrentError::DownloadIncomplete(2, 3).describe(), "Download incomplete: 2/3 pieces");
}

/// A peer that has all of the content and answers every request at once.
struct MockPeer {
    content: Vec<u8>,
    inbox: BytesMut,
    corrupt_first: bool,
}

impl MockPeer {
    fn answer(&mut self, bytes: &[u8]) -> Option<Vec<u8>> {
        self.inbox.extend_from_slice(bytes);
        match Message::decode(&mut self.inbox).unwrap() {
            Some(Message::Request { index, begin, length }) => {
                let start = index as usize * 16384 + begin as usize;
                let mut data = self.content[start..start + length as usize].to_vec();
                if self.corrupt_first {
                    data[0] ^= 0xff;
                    self.corrupt_first = false;
                }
                Some(Message::Piece { index, begin, data }.encode())
            }
            Some(Message::Interested) => Some(Message::Unchoke.encode()),
            _ => None,
        }
    }
}

fn run_loopback(corrupt_first: bool) -> (DownloadManager, Vec<Vec<u8>>, Vec<usize>) {
    let m = metainfo();
    let mut manager = DownloadManager::new(m, [5u8; 20]).unwrap();
    let mut files: Vec<Vec<u8>> =
        manager.storage().files().iter().map(|f| vec![0u8; f.length]).collect();
    let mut peer = MockPeer { content: content(), inbox: BytesMut::new(), corrupt_first };
    let reply = create_handshake(&[7u8; 20], &[9u8; 20]);
    let mut conn = PeerConnection::connect(addr(1), &[7u8; 20], &reply).unwrap();
    let mut worker = Worker::new();
    let mut delivered: Vec<usize> = Vec::new();
    let mut completed_seen = 0;

    conn.feed(&Message::Bitfield { bitfield: vec![0b1110_0000] }.encode());
    let mut action = manager.step(&mut worker, &mut conn, Event::Started);
    for _ in 0..200 {
        let event = match action {
            Action::Receive { .. } => match conn.receive_message().unwrap() {
                Some(message) => Event::Received { message, elapsed_ms: 10 },
                None => Event::TimedOut,
            },
            Action::Send { bytes } => {
                if let Some(answer) = peer.answer(&bytes) {
                    conn.feed(&answer);
                }
                Event::Sent
            }
            Action::Deliver { index, data } => {
                let digest: [u8; 20] = Sha1::digest(&data).into();
                assert_eq!(Some(&digest), manager.metainfo().piece_hash(index));
                let plan = manager.write_piece(index, data.len()).unwrap();
                for op in plan {
                    files[op.file][op.file_offset..op.file_offset + op.len]
                        .copy_from_slice(&data[op.data_offset..op.data_offset + op.len]);
                }
                delivered.push(index);
                Event::Delivered
            }
            Action::Sleep { secs } => {
                assert_eq!(secs, 2);
                break;
            }
            Action::Stop => panic!("the worker gave up"),
        };
        action = manager.step(&mut worker, &mut conn, event);
        let (done, total) = manager.progress();
        assert!(done >= completed_seen);
        assert_eq!(total, 3);
        completed_seen = done;
    }
    assert_eq!(worker.phase(), Phase::Idle);
    (manager, files, delivered)
}

#[test]
fn loopback_download_completes() {
    let started = std::time::Instant::now();
    let (manager, files, delivered) = run_loopback(false);
    assert!(started.elapsed().as_secs() < 5);
    assert!(manager.is_complete());
    assert_eq!(manager.progress(), (3, 3));
    assert_eq!(manager.finish(), Ok(()));
    assert_eq!(delivered, vec![0, 2, 1]);
    let data = content();
    assert_eq!(files[0], data[..20000].to_vec());
    assert_eq!(files[1], Vec::<u8>::new());
    assert_eq!(files[2], data[20000..].to_vec());
    let status = manager.status(40000, 0);
    assert_eq!(status.completed_pieces, 3);
    assert!(!status.downloading);
    assert_eq!(status.status_message, "Complete");
    let request = manager.announce_request(6881);
    assert_eq!(request.downloaded, 3 * 16384);
    assert_eq!(request.left, 0);
}

#[test]
fn a_piece_with_a_wrong_digest_is_tried_again() {
    let (manager, files, delivered) = run_loopback(true);
    assert!(manager.is_complete());
    assert_eq!(delivered, vec![0, 2, 1]);
    let data = content();
    assert_eq!(files[0], data[..20000].to_vec());
    assert_eq!(files[2], data[20000..].to_vec());
}

#[test]
fn a_step_in_two_parts_is_the_step() {
    let mut table = PieceTable::new(&metainfo()).unwrap();
    let mut conn = connect(Some(vec![0b1110_0000]));
    let mut worker = Worker::new();
    assert!(matches!(
        worker.step_local(&mut conn, Event::Started),
        Some(Action::Receive { timeout_ms: None })
    ));
    assert!(matches!(worker.step_local(&mut conn, Event::Closed), Some(Action::Send { .. })));
    assert!(matches!(worker.step_local(&mut conn, Event::Sent), Some(Action::Receive { .. })));
    conn.handle_message(&Message::Unchoke);
    let unchoke = Event::Received { message: Message::Unchoke, elapsed_ms: 1 };
    assert!(worker.step_local(&mut conn, unchoke).is_none());
    assert_eq!(table.progress(), (0, 3));
    let action = worker.step_table(&conn, &mut table);
    assert!(matches!(
        action,
        Action::Send { ref bytes }
            if bytes == &Message::Request { index: 0, begin: 0, length: 16384 }.encode()
    ));
    assert_eq!(worker.phase(), Phase::Requesting);
    // Nothing is left to do in the table: the worker gives up.
    assert!(matches!(worker.step_table(&conn, &mut table), Action::Stop));
    assert_eq!(worker.phase(), Phase::Stopped);
    // An event while the table is waited for makes the worker give up too.
    let mut worker = Worker::new();
    worker.step_local(&mut conn, Event::Started);
    worker.step_local(&mut conn, Event::Closed);
    worker.step_local(&mut conn, Event::Sent);
    let unchoke = Event::Received { message: Message::Unchoke, elapsed_ms: 1 };
    assert!(worker.step_local(&mut conn, unchoke).is_none());
    assert!(matches!(worker.step_local(&mut conn, Event::Woke), Some(Action::Stop)));
}

#[test]
fn worker_gives_up_when_the_peer_does_not_unchoke() {
    let mut table = PieceTable::new(&metainfo()).unwrap();
    let mut conn = connect(Some(vec![0b1110_0000]));
    let mut worker = Worker::new();
    assert!(matches!(
        worker.step(&mut conn, &mut table, Event::Started),
        Action::Receive { timeout_ms: None }
    ));
    let action = worker.step(
        &mut conn,
        &mut table,
        Event::Received { message: Message::Have { piece_index: 1 }, elapsed_ms: 5 },
    );
    assert!(matches!(action, Action::Send { ref bytes } if bytes == &vec![0, 0, 0, 1, 2]));
    assert!(matches!(
        worker.step(&mut conn, &mut table, Event::Sent),
        Action::Receive { timeout_ms: Some(30000) }
    ));
    assert!(matches!(
        worker.step(
            &mut conn,
            &mut table,
            Event::Received { message: Message::KeepAlive, elapsed_ms: 10000 }
        ),
        Action::Receive { timeout_ms: Some(20000) }
    ));
    assert!(matches!(
        worker.step(
            &mut conn,
            &mut table,
            Event::Received { message: Message::KeepAlive, elapsed_ms: 20000 }
        ),
        Action::Stop
    ));
    assert_eq!(worker.phase(), Phase::Stopped);
    assert!(matches!(worker.step(&mut conn, &mut table, Event::Woke), Action::Stop));
}

#[test]
fn worker_sleeps_when_nothing_can_be_claimed_and_keeps_the_peer_alive() {
    let mut table = PieceTable::new(&metainfo()).unwrap();
    let mut conn = connect(None);
    let mut worker = Worker::new();
    worker.step(&mut conn, &mut table, Event::Started);
    worker.step(&mut conn, &mut table, Event::Closed);
    worker.step(&mut conn, &mut table, Event::Sent);
    conn.handle_message(&Message::Unchoke);
    assert!(matches!(
        worker.step(
            &mut conn,
            &mut table,
            Event::Received { message: Message::Unchoke, elapsed_ms: 1 }
        ),
        Action::Sleep { secs: 2 }
    ));
    assert_eq!(worker.phase(), Phase::Idle);
    conn.handle_message(&Message::Bitfield { bitfield: vec![0b0100_0000] });
    let action = worker.step(&mut conn, &mut table, Event::Woke);
    assert!(matches!(
        action,
        Action::Send { ref bytes }
            if bytes == &Message::Request { index: 1, begin: 0, length: 16384 }.encode()
    ));
    assert!(matches!(
        worker.step(&mut conn, &mut table, Event::Sent),
        Action::Receive { timeout_ms: Some(30000) }
    ));
    let action = worker.step(&mut conn, &mut table, Event::TimedOut);
    assert!(matches!(action, Action::Send { ref bytes } if bytes == &vec![0, 0, 0, 0]));
    assert!(matches!(
        worker.step(&mut conn, &mut table, Event::Sent),
        Action::Receive { timeout_ms: Some(30000) }
    ));
    conn.handle_message(&Message::Choke);
    assert!(matches!(
        worker.step(
            &mut conn,
            &mut table,
            Event::Received { message: Message::Choke, elapsed_ms: 1 }
        ),
        Action::Receive { timeout_ms: Some(30000) }
    ));
    assert!(matches!(worker.step(&mut conn, &mut table, Event::Closed), Action::Stop));
    // The piece stays claimed: no other worker is handed it.
    let all = connect(Some(vec![0b1110_0000]));
    assert_eq!(table.claim(&all).map(|c| c.0), Some(0));
    assert_eq!(table.claim(&all).map(|c| c.0), Some(2));
    assert_eq!(table.claim(&all), None);
}

#[test]
fn every_byte_is_written_once() {
    let lengths = [3usize, 0, 5, 1, 0, 7, 4];
    let total: usize = lengths.iter().sum();
    for piece_length in 1..=total + 1 {
        let num_pieces = (total + piece_length - 1) / piece_length;
        let m = Metainfo {
            announce: String::new(),
            info_hash: [0u8; 20],
            info: TorrentInfo {
                name: "x".to_string(),
                piece_length,
                pieces: vec![[0u8; 20]; num_pieces],
                files: lengths
                    .iter()
                    .map(|l| FileInfo { path: vec!["f".to_string()], length: *l })
                    .collect(),
                total_length: total,
            },
        };
        assert!(m.has_valid_layout());
        let storage = Storage::new(&m).unwrap();
        let source: Vec<u8> = (0..total as u8).collect();
        let mut files: Vec<Vec<Option<u8>>> = lengths.iter().map(|l| vec![None; *l]).collect();
        for index in 0..num_pieces {
            let len = m.piece_len(index);
            let data = &source[index * piece_length..index * piece_length + len];
            let plan = storage.write_piece(index, len).unwrap();
            assert_eq!(plan.iter().map(|op| op.len).sum::<usize>(), len);
            for op in plan {
                for k in 0..op.len {
                    let slot = &mut files[op.file][op.file_offset + k];
                    assert_eq!(*slot, None);
                    *slot = Some(data[op.data_offset + k]);
                }
            }
        }
        let written: Vec<u8> = files.concat().into_iter().map(|b| b.unwrap()).collect();
        assert_eq!(written, source);
    }
}
