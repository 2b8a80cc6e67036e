use bytes::BytesMut;
use torrent_client::peer::{create_handshake, parse_handshake, check_handshake, Message, PeerError};

#[test]
fn test_message_encode_decode() {
    let msg = Message::Request {
        index: 5,
        begin: 0,
        length: 16384,
    };

    let encoded = msg.encode();
    let mut buf = BytesMut::from(&encoded[..]);
    let decoded = Message::decode(&mut buf).unwrap().unwrap();

    assert_eq!(msg, decoded);
}

#[test]
fn test_handshake() {
    let info_hash = [1u8; 20];
    let peer_id = [2u8; 20];

    let handshake = create_handshake(&info_hash, &peer_id);
    let (parsed_info_hash, parsed_peer_id) = parse_handshake(&handshake).unwrap();

    assert_eq!(info_hash, parsed_info_hash);
    assert_eq!(peer_id, parsed_peer_id);
}

#[test]
fn handshake_is_68_bytes() {
    let handshake = create_handshake(&[1u8; 20], &[2u8; 20]);
    assert_eq!(handshake.len(), 68);
    assert_eq!(handshake[0], 0x13);
    assert_eq!(&handshake[1..20], b"BitTorrent protocol");
    assert_eq!(&handshake[20..28], &[0u8; 8]);
    assert_eq!(&handshake[28..48], &[1u8; 20]);
    assert_eq!(&handshake[48..68], &[2u8; 20]);
}

#[test]
fn handshake_errors() {
    assert_eq!(parse_handshake(&[19u8; 10]).unwrap_err(), PeerError::ProtocolViolation);
    let mut handshake = create_handshake(&[1u8; 20], &[2u8; 20]);
    assert_eq!(check_handshake(&handshake, &[1u8; 20]).unwrap(), [2u8; 20]);
    assert_eq!(check_handshake(&handshake, &[3u8; 20]).unwrap_err(), PeerError::HandshakeMismatch);
    handshake[5] = b'x';
    assert_eq!(parse_handshake(&handshake).unwrap_err(), PeerError::ProtocolViolation);
    handshake[5] = b'o';
    handshake[0] = 18;
    assert_eq!(parse_handshake(&handshake).unwrap_err(), PeerError::ProtocolViolation);
}

#[test]
fn frames_have_the_documented_bytes() {
    assert_eq!(Message::KeepAlive.encode(), vec![0, 0, 0, 0]);
    assert_eq!(Message::Choke.encode(), vec![0, 0, 0, 1, 0]);
    assert_eq!(Message::Unchoke.encode(), vec![0, 0, 0, 1, 1]);
    assert_eq!(Message::Interested.encode(), vec![0, 0, 0, 1, 2]);
    assert_eq!(Message::NotInterested.encode(), vec![0, 0, 0, 1, 3]);
    assert_eq!(Message::Have { piece_index: 0x01020304 }.encode(), vec![0, 0, 0, 5, 4, 1, 2, 3, 4]);
    assert_eq!(Message::Bitfield { bitfield: vec![0xff, 0x80] }.encode(), vec![0, 0, 0, 3, 5, 0xff, 0x80]);
    assert_eq!(
        Message::Request { index: 5, begin: 0, length: 16384 }.encode(),
        vec![0, 0, 0, 13, 6, 0, 0, 0, 5, 0, 0, 0, 0, 0, 0, 0x40, 0]
    );
    assert_eq!(
        Message::Piece { index: 1, begin: 2, data: vec![9, 8] }.encode(),
        vec![0, 0, 0, 11, 7, 0, 0, 0, 1, 0, 0, 0, 2, 9, 8]
    );
    assert_eq!(
        Message::Cancel { index: 5, begin: 0, length: 16384 }.encode(),
        vec![0, 0, 0, 13, 8, 0, 0, 0, 5, 0, 0, 0, 0, 0, 0, 0x40, 0]
    );
}

#[test]
fn decode_waits_for_a_whole_frame() {
    let encoded = Message::Piece { index: 1, begin: 2, data: vec![9, 8, 7] }.encode();
    let mut buf = BytesMut::new();
    for (i, byte) in encoded.iter().enumerate() {
        assert_eq!(Message::decode(&mut buf).unwrap(), None);
        assert_eq!(buf.len(), i);
        buf.extend_from_slice(&[*byte]);
    }
    buf.extend_from_slice(&[0, 0, 0, 0, 0xAA]);
    assert_eq!(
        Message::decode(&mut buf).unwrap(),
        Some(Message::Piece { index: 1, begin: 2, data: vec![9, 8, 7] })
    );
    assert_eq!(Message::decode(&mut buf).unwrap(), Some(Message::KeepAlive));
    assert_eq!(&buf[..], &[0xAA]);
    assert_eq!(Message::decode(&mut buf).unwrap(), None);
}

#[test]
fn decode_every_message() {
    let all = vec![
        Message::KeepAlive,
        Message::Choke,
        Message::Unchoke,
        Message::Interested,
        Message::NotInterested,
        Message::Have { piece_index: 77 },
        Message::Bitfield { bitfield: vec![1, 2, 3] },
        Message::Request { index: 1, begin: 2, length: 3 },
        Message::Piece { index: 1, begin: 16384, data: vec![5; 100] },
        Message::Cancel { index: 1, begin: 2, length: 3 },
    ];
    let mut buf = BytesMut::new();
    for m in &all {
        buf.extend_from_slice(&m.encode());
    }
    for m in &all {
        assert_eq!(Message::decode(&mut buf).unwrap().as_ref(), Some(m));
    }
    assert_eq!(buf.len(), 0);
}

#[test]
fn unknown_and_malformed_frames() {
    let mut buf = BytesMut::from(&[0u8, 0, 0, 2, 9, 1, 0, 0, 0, 0][..]);
    assert_eq!(Message::decode(&mut buf).unwrap_err(), PeerError::UnknownMessage(9));
    assert_eq!(&buf[..], &[0, 0, 0, 0]);
    let mut buf = BytesMut::from(&[0u8, 0, 0, 3, 4, 1, 2, 0xBB][..]);
    assert_eq!(Message::decode(&mut buf).unwrap_err(), PeerError::ProtocolViolation);
    assert_eq!(&buf[..], &[0xBB]);
    let mut buf = BytesMut::from(&[0u8, 0, 0, 2, 0, 1][..]);
    assert_eq!(Message::decode(&mut buf).unwrap_err(), PeerError::ProtocolViolation);
    assert_eq!(buf.len(), 0);
    let mut buf = BytesMut::from(&[0u8, 0, 0, 5, 7, 1, 2, 3, 4][..]);
    assert_eq!(Message::decode(&mut buf).unwrap_err(), PeerError::ProtocolViolation);
    assert_eq!(buf.len(), 0);
}
