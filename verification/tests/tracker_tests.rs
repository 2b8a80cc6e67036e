use torrent_client::error::TorrentError;
use torrent_client::tracker::peer_id::peer_id_from_seconds;
use torrent_client::tracker::{
    announce_url, generate_peer_id, parse_compact_peers, parse_tracker_response, url_encode,
    PeerAddr, TrackerRequest,
};

#[test]
fn test_parse_compact_peers() {
    let data = vec![
        127, 0, 0, 1, 0x1A, 0xE1, // 127.0.0.1:6881
        192, 168, 1, 100, 0x1A, 0xE2, // 192.168.1.100:6882
    ];

    let peers = parse_compact_peers(&data).unwrap();
    assert_eq!(peers.len(), 2);
    assert_eq!(peers[0].to_string(), "127.0.0.1:6881");
    assert_eq!(peers[1].to_string(), "192.168.1.100:6882");
}

#[test]
fn test_generate_peer_id() {
    let peer_id = generate_peer_id();
    assert_eq!(&peer_id[..8], b"-RT0100-");
}

#[test]
fn compact_peers_are_exactly_those_sent() {
    let data = vec![127, 0, 0, 1, 0x1A, 0xE1, 192, 168, 1, 100, 0x1A, 0xE2];
    assert_eq!(
        parse_compact_peers(&data).unwrap(),
        vec![
            PeerAddr { ip: [127, 0, 0, 1], port: 6881 },
            PeerAddr { ip: [192, 168, 1, 100], port: 6882 },
        ]
    );
    assert_eq!(parse_compact_peers(&[]).unwrap(), vec![]);
}

#[test]
fn compact_peers_of_a_wrong_length_are_refused() {
    assert_eq!(parse_compact_peers(&[1, 2, 3, 4, 5]).unwrap_err(), TorrentError::MalformedResponse);
    assert_eq!(parse_compact_peers(&[1, 2, 3, 4, 5, 6, 7]).unwrap_err(), TorrentError::MalformedResponse);
}

#[test]
fn peer_id_counts_up_from_the_seconds() {
    let id = peer_id_from_seconds(250);
    assert_eq!(&id[..8], b"-RT0100-");
    assert_eq!(&id[8..], &[250, 251, 252, 253, 254, 255, 0, 1, 2, 3, 4, 5]);
    let id = peer_id_from_seconds(u64::MAX);
    assert_eq!(&id[8..], &[255, 0, 1, 2, 3, 4, 5, 6, 7, 8, 9, 10]);
}

#[test]
fn url_encode_escapes_every_byte() {
    assert_eq!(url_encode(&[0x00, 0x1f, 0xab, b'a']), "%00%1f%ab%61");
    assert_eq!(url_encode(&[]), "");
}

#[test]
fn announce_url_has_every_field() {
    let request = TrackerRequest {
        info_hash: [0xab; 20],
        peer_id: [0x01; 20],
        port: 6881,
        uploaded: 0,
        downloaded: 16384,
        left: 1000000,
    };
    let url = announce_url("http://tracker.example.com/announce", &request);
    let expected = format!(
        "http://tracker.example.com/announce?info_hash={}&peer_id={}&port=6881&uploaded=0&downloaded=16384&left=1000000&compact=1",
        "%ab".repeat(20),
        "%01".repeat(20)
    );
    assert_eq!(url, expected);
}

#[test]
fn tracker_response_with_peers() {
    let mut data = b"d8:intervali1800e5:peers12:".to_vec();
    data.extend_from_slice(&[127, 0, 0, 1, 0x1A, 0xE1, 192, 168, 1, 100, 0x1A, 0xE2]);
    data.push(b'e');
    let response = parse_tracker_response(&data).unwrap();
    assert_eq!(response.interval, 1800);
    assert_eq!(
        response.peers,
        vec![
            PeerAddr { ip: [127, 0, 0, 1], port: 6881 },
            PeerAddr { ip: [192, 168, 1, 100], port: 6882 },
        ]
    );
}

#[test]
fn tracker_refusal_carries_the_reason() {
    let data = b"d14:failure reason9:not found8:intervali1800e5:peers0:e";
    assert_eq!(
        parse_tracker_response(data).unwrap_err(),
        TorrentError::TrackerRefused(b"not found".to_vec())
    );
}

#[test]
fn malformed_tracker_responses() {
    assert_eq!(parse_tracker_response(b"").unwrap_err(), TorrentError::MalformedResponse);
    assert_eq!(parse_tracker_response(b"i1e").unwrap_err(), TorrentError::MalformedResponse);
    assert_eq!(parse_tracker_response(b"d5:peers0:e").unwrap_err(), TorrentError::MalformedResponse);
    assert_eq!(parse_tracker_response(b"d8:intervali1ee").unwrap_err(), TorrentError::MalformedResponse);
    assert_eq!(
        parse_tracker_response(b"d8:intervali-1e5:peers0:e").unwrap_err(),
        TorrentError::MalformedResponse
    );
    assert_eq!(
        parse_tracker_response(b"d8:intervali1e5:peers5:abcdee").unwrap_err(),
        TorrentError::MalformedResponse
    );
}
