//! A magnet link read into its parts.

use crate::digits::{parse_decimal, parse_nat};
use crate::error::TorrentError;
use crate::hashing::copy_20;
use crate::hexcode::{hex_bytes, hex_decode, hex_encode, hex_string, is_hex};
use crate::magnet::base32::{all_base32, base32_bytes, base32_decode};
use crate::magnet::query::{
    all_values, find_value, first_value, pairs_view, query_pairs, read_query, same_chars,
    url_decode_range, url_decoded,
};
use crate::text::{chars_of, string_of, upper_case};
use vstd::prelude::*;
use vstd::slice::slice_subrange;
use vstd::utf8::encode_utf8;

verus! {

/// What a magnet link says: the torrent's info-hash, a name for display,
/// trackers, and a hint at the size of the content.
#[derive(Debug, Clone)]
pub struct MagnetLink {
    /// The info-hash, 20 bytes.
    pub info_hash: [u8; 20],
    /// The value of `dn`.
    pub display_name: Option<String>,
    /// The values of every `tr`, in the link's order.
    pub trackers: Vec<String>,
    /// The value of `xl`, where it is a number.
    pub size: Option<u64>,
}

/// A magnet link as the contracts see it.
pub struct MagnetView {
    pub info_hash: Seq<u8>,
    pub display_name: Option<Seq<char>>,
    pub trackers: Seq<Seq<char>>,
    pub size: Option<u64>,
}

/// Texts as the contracts see them.
pub open spec fn texts_view(v: Seq<String>) -> Seq<Seq<char>> {
    Seq::new(v.len(), |i: int| v[i]@)
}

impl View for MagnetLink {
    type V = MagnetView;

    open spec fn view(&self) -> MagnetView {
        MagnetView {
            info_hash: self.info_hash@,
            display_name: match self.display_name {
                Some(n) => Some(n@),
                None => None,
            },
            trackers: texts_view(self.trackers@),
            size: self.size,
        }
    }
}

/// `s` begins with `p`.
pub open spec fn has_prefix(s: Seq<char>, p: Seq<char>) -> bool {
    s.len() >= p.len() && s.take(p.len() as int) == p
}

/// The hash of an exact topic: what follows `urn:btih:`, or `urn:btmh:`.
pub open spec fn topic_hash(xt: Seq<char>) -> Option<Seq<char>> {
    if has_prefix(xt, "urn:btih:"@) || has_prefix(xt, "urn:btmh:"@) {
        Some(xt.skip(9))
    } else {
        None
    }
}

/// The info-hash that a hash text denotes: 40 bytes of hexadecimal, or 32
/// bytes that in upper case are base32 for 20 bytes.
pub open spec fn info_hash_of(hash: Seq<char>) -> Option<Seq<u8>> {
    let b = encode_utf8(hash);
    if b.len() == 40 {
        if is_hex(b) {
            Some(hex_bytes(b))
        } else {
            None
        }
    } else if b.len() == 32 {
        let upper = encode_utf8(upper_case(hash));
        if all_base32(upper) && base32_bytes(upper).len() == 20 {
            Some(base32_bytes(upper))
        } else {
            None
        }
    } else {
        None
    }
}

/// The number that a text of decimal digits denotes, with `+` in front or
/// without, if a 64-bit word holds it.
pub open spec fn parse_unsigned(b: Seq<u8>) -> Option<u64> {
    let digits = if b.len() > 0 && b[0] == 43 {
        b.skip(1)
    } else {
        b
    };
    match parse_nat(digits, u64::MAX as nat) {
        Some(n) => Some(n as u64),
        None => None,
    }
}

/// What a magnet link says, or `None` where it lacks its scheme or its
/// exact topic, or where the first exact topic names no info-hash.
pub open spec fn magnet_spec(uri: Seq<char>) -> Option<MagnetView> {
    if !has_prefix(uri, "magnet:?"@) {
        None
    } else {
        let pairs = query_pairs(uri.skip(8));
        match first_value(pairs, "xt"@) {
            None => None,
            Some(xt) => match topic_hash(xt) {
                None => None,
                Some(hash) => match info_hash_of(hash) {
                    None => None,
                    Some(info_hash) => Some(
                        MagnetView {
                            info_hash,
                            display_name: first_value(pairs, "dn"@),
                            trackers: all_values(pairs, "tr"@),
                            size: match first_value(pairs, "xl"@) {
                                Some(v) => parse_unsigned(encode_utf8(v)),
                                None => None,
                            },
                        },
                    ),
                },
            },
        }
    }
}

/// Whether `s` begins with `p`.
fn starts_with(s: &[char], p: &[char]) -> (r: bool)
    ensures
        r == has_prefix(s@, p@),
{
    if s.len() < p.len() {
        return false;
    }
    let r = same_chars(slice_subrange(s, 0, p.len()), p);
    r
}

/// Reads a number with `+` in front or without.
fn read_unsigned(b: &[u8]) -> (r: Option<u64>)
    ensures
        r == parse_unsigned(b@),
{
    let start: usize = if b.len() > 0 && b[0] == 43 {
        1
    } else {
        0
    };
    proof {
        assert(b@.subrange(start as int, b@.len() as int) =~= if start == 1 {
            b@.skip(1)
        } else {
            b@
        });
    }
    parse_decimal(b, start, b.len(), u64::MAX)
}

/// Reads the info-hash out of an exact topic.
pub fn parse_info_hash(xt: &[char]) -> (r: Result<[u8; 20], TorrentError>)
    ensures
        match topic_hash(xt@) {
            Some(hash) => match info_hash_of(hash) {
                Some(h) => r is Ok && r->Ok_0@ == h,
                None => r == Err::<[u8; 20], TorrentError>(TorrentError::InvalidMagnet),
            },
            None => r == Err::<[u8; 20], TorrentError>(TorrentError::InvalidMagnet),
        },
{
    proof {
        reveal_strlit("urn:btih:");
        reveal_strlit("urn:btmh:");
    }
    let btih = chars_of("urn:btih:");
    let btmh = chars_of("urn:btmh:");
    if !starts_with(xt, btih.as_slice()) && !starts_with(xt, btmh.as_slice()) {
        return Err(TorrentError::InvalidMagnet);
    }
    let hash = string_of(slice_subrange(xt, 9, xt.len()));
    let bytes = hash.as_str().as_bytes();
    proof {
        assert(hash@ =~= xt@.skip(9));
        assert(topic_hash(xt@) == Some(hash@));
        assert(bytes@ == encode_utf8(hash@));
    }
    if bytes.len() == 40 {
        match hex_decode(bytes) {
            Ok(decoded) => {
                let r = copy_20(decoded.as_slice(), 0);
                proof {
                    assert(decoded@.subrange(0, 20) =~= decoded@);
                }
                Ok(r)
            },
            Err(_) => Err(TorrentError::InvalidMagnet),
        }
    } else if bytes.len() == 32 {
        match base32_decode(hash.as_str()) {
            Ok(decoded) => {
                if decoded.len() != 20 {
                    return Err(TorrentError::InvalidMagnet);
                }
                let r = copy_20(decoded.as_slice(), 0);
                proof {
                    assert(decoded@.subrange(0, 20) =~= decoded@);
                }
                Ok(r)
            },
            Err(e) => Err(e),
        }
    } else {
        Err(TorrentError::InvalidMagnet)
    }
}

impl MagnetLink {
    /// Reads a magnet link.
    pub fn parse(uri: &str) -> (r: Result<MagnetLink, TorrentError>)
        ensures
            match magnet_spec(uri@) {
                Some(m) => r is Ok && r->Ok_0@ == m,
                None => r == Err::<MagnetLink, TorrentError>(TorrentError::InvalidMagnet),
            },
    {
        proof {
            reveal_strlit("magnet:?");
            reveal_strlit("xt");
            reveal_strlit("dn");
            reveal_strlit("tr");
            reveal_strlit("xl");
        }
        let chars = chars_of(uri);
        let scheme = chars_of("magnet:?");
        if !starts_with(chars.as_slice(), scheme.as_slice()) {
            return Err(TorrentError::InvalidMagnet);
        }
        let params = read_query(slice_subrange(chars.as_slice(), 8, chars.len()));
        let ghost pairs = pairs_view(params@);
        let key_xt = chars_of("xt");
        let key_dn = chars_of("dn");
        let key_tr = chars_of("tr");
        let key_xl = chars_of("xl");
        let xt = match find_value(&params, key_xt.as_slice()) {
            Some(v) => v,
            None => {
                return Err(TorrentError::InvalidMagnet);
            },
        };
        let info_hash = match parse_info_hash(xt.as_slice()) {
            Ok(h) => h,
            Err(e) => {
                return Err(e);
            },
        };
        let display_name = match find_value(&params, key_dn.as_slice()) {
            Some(v) => Some(string_of(v.as_slice())),
            None => None,
        };
        let mut trackers: Vec<String> = Vec::new();
        let mut i: usize = 0;
        proof {
            assert(pairs.take(0) =~= Seq::<(Seq<char>, Seq<char>)>::empty());
            assert(texts_view(trackers@) =~= all_values(pairs.take(0), key_tr@));
        }
        while i < params.len()
            invariant
                i <= params.len(),
                pairs == pairs_view(params@),
                texts_view(trackers@) == all_values(pairs.take(i as int), key_tr@),
            decreases params.len() - i,
        {
            proof {
                assert(pairs.take(i + 1).drop_last() =~= pairs.take(i as int));
                assert(pairs.take(i + 1).last() == pairs[i as int]);
            }
            if same_chars(params[i].0.as_slice(), key_tr.as_slice()) {
                let ghost before = texts_view(trackers@);
                trackers.push(string_of(params[i].1.as_slice()));
                proof {
                    assert(texts_view(trackers@) =~= before.push(params[i as int].1@));
                }
            }
            i = i + 1;
        }
        proof {
            assert(pairs.take(i as int) =~= pairs);
        }
        let size = match find_value(&params, key_xl.as_slice()) {
            Some(v) => {
                let text = string_of(v.as_slice());
                read_unsigned(text.as_str().as_bytes())
            },
            None => None,
        };
        Ok(MagnetLink { info_hash, display_name, trackers, size })
    }

    /// The info-hash in lower-case hexadecimal.
    pub fn info_hash_hex(&self) -> (r: String)
        ensures
            r@ == hex_string(self@.info_hash),
    {
        hex_encode(self.info_hash.as_slice())
    }
}

/// Resolves the escapes of a text: `%` and two hexadecimal digits for the
/// character of that code, `+` for a space.
pub fn url_decode(s: &str) -> (r: String)
    ensures
        r@ == url_decoded(s@),
{
    let chars = chars_of(s);
    proof {
        assert(chars@.subrange(0, chars@.len() as int) =~= chars@);
    }
    let decoded = url_decode_range(chars.as_slice(), 0, chars.len());
    string_of(decoded.as_slice())
}

/// Pairs of texts as the contracts see them.
pub open spec fn string_pairs_view(pairs: Seq<(String, String)>) -> Seq<(Seq<char>, Seq<char>)> {
    Seq::new(pairs.len(), |j: int| (pairs[j].0@, pairs[j].1@))
}

/// The pairs of key and value of a query, in its order, with their
/// escapes resolved.
pub fn parse_query_string(query: &str) -> (r: Vec<(String, String)>)
    ensures
        string_pairs_view(r@) == query_pairs(query@),
{
    let chars = chars_of(query);
    let pairs = read_query(chars.as_slice());
    let mut out: Vec<(String, String)> = Vec::new();
    let mut i: usize = 0;
    while i < pairs.len()
        invariant
            i <= pairs.len(),
            out.len() == i,
            forall|j: int|
                0 <= j < i ==> (#[trigger] out[j]).0@ == pairs[j].0@ && out[j].1@ == pairs[j].1@,
        decreases pairs.len() - i,
    {
        out.push((string_of(pairs[i].0.as_slice()), string_of(pairs[i].1.as_slice())));
        i = i + 1;
    }
    proof {
        assert(string_pairs_view(out@) =~= pairs_view(pairs@));
    }
    out
}

} // verus!
