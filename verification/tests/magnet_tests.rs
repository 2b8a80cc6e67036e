use torrent_client::error::TorrentError;
use torrent_client::magnet::{base32_decode, parse_query_string, url_decode, MagnetLink};

#[test]
fn test_parse_magnet() {
    let magnet = "magnet:?xt=urn:btih:dd8255ecdc7ca55fb0bbf81323d87062db1f6d1c&dn=Big+Buck+Bunny&tr=http%3A%2F%2Ftracker.example.com%2Fannounce";

    let parsed = MagnetLink::parse(magnet).unwrap();

    assert_eq!(parsed.info_hash_hex(), "dd8255ecdc7ca55fb0bbf81323d87062db1f6d1c");
    assert_eq!(parsed.display_name, Some("Big Buck Bunny".to_string()));
    assert_eq!(parsed.trackers.len(), 1);
}

#[test]
fn test_base32_decode() {
    // Base32 encoded "Hello"
    let decoded = base32_decode("JBSWY3DP").unwrap();
    assert_eq!(decoded, b"Hello");
}

#[test]
fn magnet_tracker_is_decoded() {
    let magnet = "magnet:?xt=urn:btih:dd8255ecdc7ca55fb0bbf81323d87062db1f6d1c&dn=Big+Buck+Bunny&tr=http%3A%2F%2Ftracker.example.com%2Fannounce";
    let parsed = MagnetLink::parse(magnet).unwrap();
    assert_eq!(parsed.trackers, vec!["http://tracker.example.com/announce".to_string()]);
    assert_eq!(
        parsed.info_hash,
        [
            0xdd, 0x82, 0x55, 0xec, 0xdc, 0x7c, 0xa5, 0x5f, 0xb0, 0xbb, 0xf8, 0x13, 0x23, 0xd8,
            0x70, 0x62, 0xdb, 0x1f, 0x6d, 0x1c
        ]
    );
    assert_eq!(parsed.size, None);
}

#[test]
fn magnet_base32_hash_and_size() {
    // 32 characters of base32 for the 20 bytes "Hello" * 4.
    let magnet = "magnet:?xl=1048576&xt=urn:btih:jbswy3dpjbswy3dpjbswy3dpjbswy3dp&tr=a&tr=b";
    let parsed = MagnetLink::parse(magnet).unwrap();
    assert_eq!(&parsed.info_hash, b"HelloHelloHelloHello");
    assert_eq!(parsed.size, Some(1048576));
    assert_eq!(parsed.trackers, vec!["a".to_string(), "b".to_string()]);
    assert_eq!(parsed.display_name, None);
}

#[test]
fn magnet_without_scheme_is_refused() {
    assert_eq!(
        MagnetLink::parse("http://example.com/?xt=urn:btih:dd8255ecdc7ca55fb0bbf81323d87062db1f6d1c").unwrap_err(),
        TorrentError::InvalidMagnet
    );
}

#[test]
fn magnet_without_topic_is_refused() {
    assert_eq!(MagnetLink::parse("magnet:?dn=name").unwrap_err(), TorrentError::InvalidMagnet);
}

#[test]
fn magnet_with_short_hash_is_refused() {
    assert_eq!(
        MagnetLink::parse("magnet:?xt=urn:btih:dd8255").unwrap_err(),
        TorrentError::InvalidMagnet
    );
}

#[test]
fn magnet_with_bad_hex_is_refused() {
    assert_eq!(
        MagnetLink::parse("magnet:?xt=urn:btih:zz8255ecdc7ca55fb0bbf81323d87062db1f6d1c").unwrap_err(),
        TorrentError::InvalidMagnet
    );
}

#[test]
fn base32_refuses_what_is_outside_the_alphabet() {
    assert_eq!(base32_decode("JBSWY3D1").unwrap_err(), TorrentError::InvalidMagnet);
}

#[test]
fn base32_is_read_in_either_case() {
    assert_eq!(base32_decode("jbswy3dp").unwrap(), b"Hello");
}

#[test]
fn url_decode_resolves_escapes() {
    assert_eq!(url_decode("a%20b+c"), "a b c");
    assert_eq!(url_decode("100%"), "100%");
    assert_eq!(url_decode("%zzrest"), "%rest");
    assert_eq!(url_decode("%4"), "%");
    assert_eq!(url_decode("%E9"), "\u{e9}");
}

#[test]
fn query_pairs_keep_their_order() {
    let pairs = parse_query_string("a=1&b&c=x=y");
    assert_eq!(
        pairs,
        vec![
            ("a".to_string(), "1".to_string()),
            ("b".to_string(), "".to_string()),
            ("c".to_string(), "x=y".to_string()),
        ]
    );
}

#[test]
fn escapes_are_read_as_the_standard_library_reads_hexadecimal() {
    let digits = ['0', '9', 'a', 'f', 'A', 'F', 'g', 'G', '+', '-', ' ', 'z', '%', 'é'];
    for h1 in digits {
        for h2 in digits {
            let text = format!("%{}{}", h1, h2);
            let expected = match u8::from_str_radix(&format!("{}{}", h1, h2), 16) {
                Ok(byte) => (byte as char).to_string(),
                Err(_) => "%".to_string(),
            };
            assert_eq!(url_decode(&text), expected, "{:?}", text);
        }
    }
}

#[test]
fn size_hint_is_read_as_the_standard_library_reads_it() {
    for text in ["0", "12", "+12", "-12", "", "+", "1x", "18446744073709551615", "18446744073709551616", "007"] {
        let magnet = format!(
            "magnet:?xt=urn:btih:dd8255ecdc7ca55fb0bbf81323d87062db1f6d1c&xl={}",
            text
        );
        let parsed = MagnetLink::parse(&magnet).unwrap();
        // A `+` in a query stands for a space.
        let decoded = text.replace('+', " ");
        assert_eq!(parsed.size, decoded.parse::<u64>().ok(), "{:?}", text);
    }
    let parsed = MagnetLink::parse(
        "magnet:?xt=urn:btih:dd8255ecdc7ca55fb0bbf81323d87062db1f6d1c&xl=%2B12",
    )
    .unwrap();
    assert_eq!(parsed.size, Some(12));
}

#[test]
fn the_first_topic_counts() {
    let parsed = MagnetLink::parse(
        "magnet:?xt=urn:btmh:dd8255ecdc7ca55fb0bbf81323d87062db1f6d1c&xt=urn:btih:zz&dn=a&dn=b",
    )
    .unwrap();
    assert_eq!(parsed.info_hash_hex(), "dd8255ecdc7ca55fb0bbf81323d87062db1f6d1c");
    assert_eq!(parsed.display_name, Some("a".to_string()));
    assert_eq!(
        MagnetLink::parse("magnet:?xt=urn:sha1:dd8255ecdc7ca55fb0bbf81323d87062db1f6d1c")
            .unwrap_err(),
        TorrentError::InvalidMagnet
    );
}

#[test]
fn base32_without_padding() {
    assert_eq!(base32_decode("").unwrap(), b"");
    assert_eq!(base32_decode("MY").unwrap(), b"f");
    assert_eq!(base32_decode("MZXQ").unwrap(), b"fo");
    assert_eq!(base32_decode("MZXW6").unwrap(), b"foo");
    assert_eq!(base32_decode("MZXW6YQ").unwrap(), b"foob");
    assert_eq!(base32_decode("MZXW6YTB").unwrap(), b"fooba");
    assert_eq!(base32_decode("MZXW6YTBOI").unwrap(), b"foobar");
    assert_eq!(base32_decode("77777777").unwrap(), vec![0xff; 5]);
    assert_eq!(base32_decode("AAAAAAAA").unwrap(), vec![0x00; 5]);
    assert_eq!(base32_decode("M").unwrap(), b"");
    assert_eq!(base32_decode("MZXW6===").unwrap_err(), TorrentError::InvalidMagnet);
}
