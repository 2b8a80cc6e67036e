use sha1::{Digest, Sha1};
use torrent_client::bencode::{encode, BencodeValue, DictEntry};
use torrent_client::error::TorrentError;
use torrent_client::info::{get_torrent_info, parse_magnet};
use torrent_client::torrent::Metainfo;

fn entry(key: &str, value: BencodeValue) -> DictEntry {
    DictEntry { key: key.as_bytes().to_vec(), value }
}

fn single_file_info() -> Vec<DictEntry> {
    vec![
        entry("name", BencodeValue::String(b"test.txt".to_vec())),
        entry("piece length", BencodeValue::Integer(16384)),
        entry("length", BencodeValue::Integer(1024)),
        entry("pieces", BencodeValue::String(vec![0u8; 20])),
    ]
}

#[test]
fn test_parse_single_file_torrent() {
    // Create a minimal single-file torrent structure
    let info_dict = single_file_info();

    let root = vec![
        entry(
            "announce",
            BencodeValue::String(b"http://tracker.example.com/announce".to_vec()),
        ),
        entry("info", BencodeValue::Dict(info_dict)),
    ];

    let encoded = encode(&BencodeValue::Dict(root));
    let metainfo = Metainfo::from_bytes(&encoded).unwrap();

    assert_eq!(metainfo.announce, "http://tracker.example.com/announce");
    assert_eq!(metainfo.info.name, "test.txt");
    assert_eq!(metainfo.info.piece_length, 16384);
    assert_eq!(metainfo.info.total_length, 1024);
    assert_eq!(metainfo.info.files.len(), 1);
}

#[test]
fn info_hash_is_the_digest_of_the_info_dictionary() {
    let data = b"d8:announce3:url4:infod6:lengthi5e4:name1:a12:piece lengthi4e6:pieces40:0123456789012345678901234567890123456789ee";
    let metainfo = Metainfo::from_bytes(data).unwrap();
    let info = b"d6:lengthi5e4:name1:a12:piece lengthi4e6:pieces40:0123456789012345678901234567890123456789e";
    let expected: [u8; 20] = Sha1::digest(info).into();
    assert_eq!(metainfo.info_hash, expected);
    assert_eq!(metainfo.info_hash_hex(), hex::encode(expected));
    assert_eq!(metainfo.num_pieces(), 2);
    assert_eq!(metainfo.piece_hash(0), Some(b"01234567890123456789"));
    assert_eq!(metainfo.piece_hash(1), Some(b"01234567890123456789"));
    assert_eq!(metainfo.piece_hash(2), None);
    assert!(metainfo.has_valid_layout());
    assert_eq!(metainfo.piece_len(0), 4);
    assert_eq!(metainfo.piece_len(1), 1);
    assert_eq!(metainfo.info.files[0].path, vec!["a".to_string()]);
}

#[test]
fn info_hash_is_taken_from_the_canonical_form() {
    // The keys of the info dictionary stand in another order here.
    let data = b"d8:announce3:url4:infod4:name1:a6:lengthi5e12:piece lengthi4e6:pieces40:0123456789012345678901234567890123456789ee";
    let metainfo = Metainfo::from_bytes(data).unwrap();
    let info = b"d6:lengthi5e4:name1:a12:piece lengthi4e6:pieces40:0123456789012345678901234567890123456789e";
    let expected: [u8; 20] = Sha1::digest(info).into();
    assert_eq!(metainfo.info_hash, expected);
}

#[test]
fn multi_file_torrent_sums_its_files() {
    let data = b"d8:announce3:url4:infod5:filesld6:lengthi3e4:pathl1:a1:beed6:lengthi7e4:pathl1:ceee4:name3:dir12:piece lengthi8e6:pieces40:0123456789012345678901234567890123456789ee";
    let metainfo = Metainfo::from_bytes(data).unwrap();
    assert_eq!(metainfo.info.total_length, 10);
    assert_eq!(metainfo.info.files.len(), 2);
    assert_eq!(metainfo.info.files[0].path, vec!["a".to_string(), "b".to_string()]);
    assert_eq!(metainfo.info.files[0].length, 3);
    assert_eq!(metainfo.info.files[1].path, vec!["c".to_string()]);
    assert_eq!(metainfo.info.files[1].length, 7);
    let sum: usize = metainfo.info.files.iter().map(|f| f.length).sum();
    assert_eq!(sum, metainfo.info.total_length);
    assert!(metainfo.has_valid_layout());
    assert_eq!(metainfo.piece_len(0), 8);
    assert_eq!(metainfo.piece_len(1), 2);

    let info = get_torrent_info(data).unwrap();
    assert_eq!(info.name, "dir");
    assert_eq!(info.total_size, 10);
    assert_eq!(info.piece_count, 2);
    assert_eq!(info.piece_length, 8);
    assert_eq!(info.files[0].path, "a/b");
    assert_eq!(info.files[0].size, 3);
    assert_eq!(info.files[1].path, "c");
    assert_eq!(info.announce, "url");
    assert_eq!(info.info_hash, metainfo.info_hash_hex());
}

#[test]
fn malformed_torrents_are_refused() {
    let cases: Vec<&[u8]> = vec![
        b"",
        b"i1e",
        b"de",
        b"d8:announce3:urle",
        b"d4:infod6:lengthi5e4:name1:a12:piece lengthi4e6:pieces20:01234567890123456789ee",
        b"d8:announce3:url4:infoi1ee",
        b"d8:announce3:url4:infod6:lengthi5e12:piece lengthi4e6:pieces20:01234567890123456789ee",
        b"d8:announce3:url4:infod6:lengthi5e4:name1:a6:pieces20:01234567890123456789ee",
        b"d8:announce3:url4:infod6:lengthi5e4:name1:a12:piece lengthi4eee",
        b"d8:announce3:url4:infod6:lengthi5e4:name1:a12:piece lengthi4e6:pieces19:0123456789012345678ee",
        b"d8:announce3:url4:infod4:name1:a12:piece lengthi4e6:pieces20:01234567890123456789ee",
        b"d8:announce3:url4:infod6:lengthi-5e4:name1:a12:piece lengthi4e6:pieces20:01234567890123456789ee",
        b"d8:announce3:url4:infod6:length1:54:name1:a12:piece lengthi4e6:pieces20:01234567890123456789ee",
        b"d8:announce3:url4:infod5:filesi1e4:name1:a12:piece lengthi4e6:pieces20:01234567890123456789ee",
        b"d8:announce3:url4:infod5:filesld6:lengthi3eee4:name1:a12:piece lengthi4e6:pieces20:01234567890123456789ee",
        b"d8:announce3:url4:infod5:filesld6:lengthi3e4:pathli1eeee4:name1:a12:piece lengthi4e6:pieces20:01234567890123456789ee",
        b"d8:announce2:\xff\xfe4:infod6:lengthi5e4:name1:a12:piece lengthi4e6:pieces20:01234567890123456789ee",
    ];
    for data in cases {
        assert_eq!(Metainfo::from_bytes(data).unwrap_err(), TorrentError::MalformedTorrent);
        assert_eq!(get_torrent_info(data).unwrap_err(), TorrentError::MalformedTorrent);
    }
}

#[test]
fn layout_that_does_not_cover_the_content_is_invalid() {
    // Five bytes in pieces of four need two pieces, not one.
    let data = b"d8:announce3:url4:infod6:lengthi5e4:name1:a12:piece lengthi4e6:pieces20:01234567890123456789ee";
    let metainfo = Metainfo::from_bytes(data).unwrap();
    assert!(!metainfo.has_valid_layout());
    let data = b"d8:announce3:url4:infod6:lengthi5e4:name1:a12:piece lengthi0e6:pieces20:01234567890123456789ee";
    assert!(!Metainfo::from_bytes(data).unwrap().has_valid_layout());
}

#[test]
fn magnet_summary() {
    let magnet = "magnet:?xt=urn:btih:dd8255ecdc7ca55fb0bbf81323d87062db1f6d1c&dn=Big+Buck+Bunny&tr=http%3A%2F%2Ftracker.example.com%2Fannounce";
    let info = parse_magnet(magnet).unwrap();
    assert_eq!(info.url, magnet);
    assert_eq!(info.info_hash, "dd8255ecdc7ca55fb0bbf81323d87062db1f6d1c");
    assert_eq!(info.name, Some("Big Buck Bunny".to_string()));
    assert_eq!(info.trackers, vec!["http://tracker.example.com/announce".to_string()]);
    assert_eq!(parse_magnet("magnet:?dn=x").unwrap_err(), TorrentError::InvalidMagnet);
}
