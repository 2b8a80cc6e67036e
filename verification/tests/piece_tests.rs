use torrent_client::download::Piece;

#[test]
fn test_piece_blocks() {
    let hash = [0u8; 20];
    let mut piece = Piece::new(0, 32768, hash); // 2 blocks

    assert!(!piece.is_complete());
    assert_eq!(piece.next_block_to_request(), Some((0, 16384)));

    piece.add_block(0, vec![1u8; 16384]);
    assert_eq!(piece.next_block_to_request(), Some((16384, 16384)));

    piece.add_block(16384, vec![2u8; 16384]);
    assert!(piece.is_complete());
    assert_eq!(piece.next_block_to_request(), None);
}

#[test]
fn piece_test_piece_blocks() {
    let hash = [0u8; 20];
    let mut piece = Piece::new(0, 32768, hash); // 2 blocks

    assert!(!piece.is_complete());
    assert_eq!(piece.next_block_to_request(), Some((0, 16384)));

    piece.add_block(0, vec![1u8; 16384]);
    assert_eq!(piece.next_block_to_request(), Some((16384, 16384)));

    piece.add_block(16384, vec![2u8; 16384]);
    assert!(piece.is_complete());
    assert_eq!(piece.next_block_to_request(), None);
}

use sha1::{Digest, Sha1};

#[test]
fn piece_round_trip() {
    let mut content = vec![1u8; 16384];
    content.extend_from_slice(&vec![2u8; 16384]);
    let hash: [u8; 20] = Sha1::digest(&content).into();

    let mut piece = Piece::new(7, 32768, hash);
    assert!(!piece.verify());
    assert_eq!(piece.data(), None);
    assert!(piece.add_block(0, vec![1u8; 16384]));
    assert!(!piece.verify());
    assert!(piece.add_block(16384, vec![2u8; 16384]));
    assert!(piece.is_complete());
    assert!(piece.verify());
    assert_eq!(piece.data(), Some(content.clone()));

    let mut wrong = vec![2u8; 16384];
    wrong[100] = 3;
    assert!(piece.add_block(16384, wrong));
    assert!(piece.is_complete());
    assert!(!piece.verify());
}

#[test]
fn last_block_is_what_is_left() {
    let mut piece = Piece::new(0, 16384 * 2 + 1, [0u8; 20]);
    assert_eq!(piece.next_block_to_request(), Some((0, 16384)));
    assert_eq!(piece.next_block_to_request(), Some((16384, 16384)));
    assert_eq!(piece.next_block_to_request(), Some((32768, 1)));
    assert_eq!(piece.next_block_to_request(), None);

    let mut piece = Piece::new(0, 16384, [0u8; 20]);
    assert_eq!(piece.next_block_to_request(), Some((0, 16384)));
    assert_eq!(piece.next_block_to_request(), None);

    let mut piece = Piece::new(0, 1, [0u8; 20]);
    assert_eq!(piece.next_block_to_request(), Some((0, 1)));
    assert_eq!(piece.next_block_to_request(), None);

    let mut piece = Piece::new(0, 0, [0u8; 20]);
    assert_eq!(piece.next_block_to_request(), None);
    assert!(piece.is_complete());
}

#[test]
fn blocks_beyond_the_piece_are_refused() {
    let mut piece = Piece::new(0, 32768, [0u8; 20]);
    assert!(!piece.add_block(32768, vec![1]));
    assert!(!piece.add_block(usize::MAX, vec![1]));
    assert!(piece.add_block(16385, vec![1]));
    assert!(!piece.is_complete());
    assert_eq!(piece.next_block_to_request(), Some((0, 16384)));
    assert_eq!(piece.next_block_to_request(), None);
}

#[test]
fn mark_complete_lets_the_bytes_go() {
    let mut piece = Piece::new(3, 32768, [9u8; 20]);
    piece.set_in_progress(true);
    assert!(piece.in_progress());
    piece.mark_complete();
    assert!(piece.is_complete());
    assert!(!piece.in_progress());
    assert_eq!(piece.data(), Some(vec![]));
    assert_eq!(piece.index(), 3);
    assert_eq!(piece.length(), 32768);
    assert_eq!(piece.hash(), [9u8; 20]);
    let copy = piece.clone();
    assert!(copy.is_complete());
}
