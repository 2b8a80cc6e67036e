use torrent_client::bencode::{decode, encode, BencodeValue, DictEntry};

#[test]
fn test_decode_integer() {
    let data = b"i42e";
    let value = decode(data).unwrap();
    assert_eq!(value, BencodeValue::Integer(42));
}

#[test]
fn test_decode_string() {
    let data = b"5:hello";
    let value = decode(data).unwrap();
    assert_eq!(value, BencodeValue::String(b"hello".to_vec()));
}

#[test]
fn test_decode_list() {
    let data = b"li42e5:helloe";
    let value = decode(data).unwrap();
    let expected = BencodeValue::List(vec![
        BencodeValue::Integer(42),
        BencodeValue::String(b"hello".to_vec()),
    ]);
    assert_eq!(value, expected);
}

#[test]
fn test_encode_decode_roundtrip() {
    let original = BencodeValue::Dict(vec![
        DictEntry { key: b"num".to_vec(), value: BencodeValue::Integer(123) },
        DictEntry { key: b"str".to_vec(), value: BencodeValue::String(b"test".to_vec()) },
    ]);

    let encoded = encode(&original);
    let decoded = decode(&encoded).unwrap();
    assert_eq!(original, decoded);
}

use torrent_client::bencode::BencodeError;

#[test]
fn scenario_dictionary() {
    let value = decode(b"d3:foo3:bar3:numi42ee").unwrap();
    let expected = BencodeValue::Dict(vec![
        DictEntry { key: b"foo".to_vec(), value: BencodeValue::String(b"bar".to_vec()) },
        DictEntry { key: b"num".to_vec(), value: BencodeValue::Integer(42) },
    ]);
    assert_eq!(value, expected);
    assert_eq!(encode(&value), b"d3:foo3:bar3:numi42ee");
    assert_eq!(value.get(b"foo").unwrap().as_str(), Some("bar"));
    assert_eq!(value.get(b"num").unwrap().as_int(), Some(42));
    assert_eq!(value.get(b"nope"), None);
}

#[test]
fn decode_sorts_keys_and_keeps_the_last_of_equal_keys() {
    let value = decode(b"d1:bi1e1:ai2e1:bi3ee").unwrap();
    let expected = BencodeValue::Dict(vec![
        DictEntry { key: b"a".to_vec(), value: BencodeValue::Integer(2) },
        DictEntry { key: b"b".to_vec(), value: BencodeValue::Integer(3) },
    ]);
    assert_eq!(value, expected);
    assert_eq!(encode(&value), b"d1:ai2e1:bi3ee");
    assert_eq!(decode(&encode(&value)).unwrap(), value);
}

#[test]
fn encode_sorts_keys_by_their_bytes() {
    let value = BencodeValue::Dict(vec![
        DictEntry { key: b"b".to_vec(), value: BencodeValue::Integer(1) },
        DictEntry { key: b"ab".to_vec(), value: BencodeValue::Integer(2) },
        DictEntry { key: b"a".to_vec(), value: BencodeValue::Integer(3) },
        DictEntry { key: b"B".to_vec(), value: BencodeValue::Integer(4) },
        DictEntry { key: b"b".to_vec(), value: BencodeValue::Integer(5) },
    ]);
    assert_eq!(encode(&value), b"d1:Bi4e1:ai3e2:abi2e1:bi5ee");
    assert_eq!(value.get(b"b").unwrap().as_int(), Some(5));
}

#[test]
fn encode_integers_and_strings() {
    assert_eq!(encode(&BencodeValue::Integer(0)), b"i0e");
    assert_eq!(encode(&BencodeValue::Integer(-17)), b"i-17e");
    assert_eq!(encode(&BencodeValue::Integer(i64::MAX)), b"i9223372036854775807e");
    assert_eq!(encode(&BencodeValue::Integer(i64::MIN)), b"i-9223372036854775808e");
    assert_eq!(encode(&BencodeValue::String(vec![])), b"0:");
    assert_eq!(encode(&BencodeValue::String(b"0123456789ab".to_vec())), b"12:0123456789ab");
    assert_eq!(encode(&BencodeValue::List(vec![])), b"le");
    assert_eq!(encode(&BencodeValue::Dict(vec![])), b"de");
    assert_eq!(
        encode(&BencodeValue::List(vec![
            BencodeValue::List(vec![BencodeValue::Integer(1)]),
            BencodeValue::String(b"x".to_vec())
        ])),
        b"lli1ee1:xe"
    );
}

#[test]
fn decode_integers() {
    assert_eq!(decode(b"i0e").unwrap(), BencodeValue::Integer(0));
    assert_eq!(decode(b"i-42e").unwrap(), BencodeValue::Integer(-42));
    assert_eq!(decode(b"i+42e").unwrap(), BencodeValue::Integer(42));
    assert_eq!(decode(b"i007e").unwrap(), BencodeValue::Integer(7));
    assert_eq!(decode(b"i-0e").unwrap(), BencodeValue::Integer(0));
    assert_eq!(decode(b"i9223372036854775807e").unwrap(), BencodeValue::Integer(i64::MAX));
    assert_eq!(decode(b"i-9223372036854775808e").unwrap(), BencodeValue::Integer(i64::MIN));
    assert_eq!(decode(b"i42etrailing").unwrap(), BencodeValue::Integer(42));
}

#[test]
fn decode_errors() {
    assert_eq!(decode(b"").unwrap_err(), BencodeError::UnexpectedEnd);
    assert_eq!(decode(b"x").unwrap_err(), BencodeError::InvalidPrefix);
    assert_eq!(decode(b"e").unwrap_err(), BencodeError::InvalidPrefix);
    assert_eq!(decode(b"i42").unwrap_err(), BencodeError::UnterminatedInteger);
    assert_eq!(decode(b"ie").unwrap_err(), BencodeError::InvalidInteger);
    assert_eq!(decode(b"i-e").unwrap_err(), BencodeError::InvalidInteger);
    assert_eq!(decode(b"i4x2e").unwrap_err(), BencodeError::InvalidInteger);
    assert_eq!(decode(b"i 42e").unwrap_err(), BencodeError::InvalidInteger);
    assert_eq!(decode(b"i9223372036854775808e").unwrap_err(), BencodeError::InvalidInteger);
    assert_eq!(decode(b"i-9223372036854775809e").unwrap_err(), BencodeError::InvalidInteger);
    assert_eq!(decode(b"5hello").unwrap_err(), BencodeError::MissingColon);
    assert_eq!(decode(b"5x:hello").unwrap_err(), BencodeError::InvalidLength);
    assert_eq!(
        decode(b"99999999999999999999999999:a").unwrap_err(),
        BencodeError::InvalidLength
    );
    assert_eq!(decode(b"6:hello").unwrap_err(), BencodeError::LengthExceedsData);
    assert_eq!(decode(b"18446744073709551615:a").unwrap_err(), BencodeError::LengthExceedsData);
    assert_eq!(decode(b"li1e").unwrap_err(), BencodeError::UnterminatedList);
    assert_eq!(decode(b"l").unwrap_err(), BencodeError::UnterminatedList);
    assert_eq!(decode(b"d1:ai1e").unwrap_err(), BencodeError::UnterminatedDict);
    assert_eq!(decode(b"di1ei2ee").unwrap_err(), BencodeError::NonStringKey);
    assert_eq!(decode(b"d1:a").unwrap_err(), BencodeError::UnexpectedEnd);
    assert_eq!(decode(b"d1:ae").unwrap_err(), BencodeError::InvalidPrefix);
    assert_eq!(decode(b"lxe").unwrap_err(), BencodeError::InvalidPrefix);
}

#[test]
fn decode_encode_decode_is_decode() {
    let inputs: Vec<&[u8]> = vec![
        b"i+007e",
        b"05:hello",
        b"d1:bi1e1:ai2ee",
        b"ld1:zle1:ai-0eeli1eee",
        b"d3:foo3:bar3:numi42ee",
    ];
    for x in inputs {
        let once = decode(x).unwrap();
        let again = decode(&encode(&once)).unwrap();
        assert_eq!(once, again);
    }
}

#[test]
fn canonical_input_survives_the_round_trip() {
    let inputs: Vec<&[u8]> = vec![
        b"i0e",
        b"i-5e",
        b"0:",
        b"4:spam",
        b"le",
        b"de",
        b"l4:spami42ee",
        b"d3:bar4:spam3:fooi42ee",
        b"d1:ad1:bl1:cee1:dlee",
    ];
    for x in inputs {
        assert_eq!(encode(&decode(x).unwrap()), x);
    }
}

#[test]
fn accessors() {
    let list = decode(b"li1e2:hie").unwrap();
    assert_eq!(list.as_list().unwrap().len(), 2);
    assert_eq!(list.as_int(), None);
    assert_eq!(list.as_bytes(), None);
    assert_eq!(list.as_str(), None);
    assert!(list.as_dict().is_none());
    let s = BencodeValue::String(vec![0xff, 0xfe]);
    assert_eq!(s.as_bytes(), Some(&[0xffu8, 0xfe][..]));
    assert_eq!(s.as_str(), None);
    let d = decode(b"d1:ai1ee").unwrap();
    assert_eq!(d.as_dict().unwrap().len(), 1);
    assert!(d.as_list().is_none());
}

#[test]
fn integers_are_read_as_the_standard_library_reads_them() {
    let texts = [
        "0", "-0", "+0", "7", "-7", "+7", "007", "-007", "", "-", "+", "--1", "+-1", "1-", "1+",
        " 1", "1 ", "0x10", "1.5", "9223372036854775807", "9223372036854775808",
        "-9223372036854775808", "-9223372036854775809", "+9223372036854775807",
        "00000000000000000000000000000001", "99999999999999999999999999999999", "1_000", "٣",
    ];
    for text in texts {
        let mut data = vec![b'i'];
        data.extend_from_slice(text.as_bytes());
        data.push(b'e');
        let expected = text.parse::<i64>().ok().map(BencodeValue::Integer);
        assert_eq!(decode(&data).ok(), expected, "{:?}", text);
    }
}

#[test]
fn lengths_are_read_as_the_standard_library_reads_them() {
    let texts = ["0", "1", "01", "001", "2", "10", "5x", "1.0", "1 "];
    for text in texts {
        let mut data = text.as_bytes().to_vec();
        data.push(b':');
        data.extend_from_slice(b"ab");
        let expected = match text.parse::<usize>() {
            Ok(n) if n <= 2 => Some(BencodeValue::String(b"ab"[..n].to_vec())),
            _ => None,
        };
        assert_eq!(decode(&data).ok(), expected, "{:?}", text);
    }
}

#[test]
fn integers_are_written_as_the_standard_library_writes_them() {
    for n in [0i64, 1, -1, 9, 10, -10, 99, 100, 12345, -12345, i64::MAX, i64::MIN, i64::MIN + 1] {
        assert_eq!(encode(&BencodeValue::Integer(n)), format!("i{}e", n).into_bytes());
    }
    for len in [0usize, 1, 9, 10, 11, 99, 100, 101, 1000] {
        let mut expected = format!("{}:", len).into_bytes();
        expected.extend_from_slice(&vec![b'x'; len]);
        assert_eq!(encode(&BencodeValue::String(vec![b'x'; len])), expected);
    }
}

#[test]
fn clone_is_equal() {
    let value = decode(b"d1:ali1e2:hid1:bi2eee1:ci3ee").unwrap();
    assert_eq!(value.clone(), value);
}
