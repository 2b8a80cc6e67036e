//! What a tracker answers: an interval and the peers, six bytes each.

use crate::bencode::decode::decode;
use crate::bencode::model::{decode_spec, Value};
use crate::bencode::value::BencodeValue;
use crate::digits::{lemma_nat_digits, nat_digits, push_decimal};
use crate::error::TorrentError;
use crate::text::{ascii_string, ascii_text};
use crate::torrent::model::field;
use vstd::prelude::*;
use vstd::slice::slice_to_vec;

verus! {

/// A peer's endpoint: an IPv4 address and a port.
#[derive(Debug, Clone, Copy, PartialEq, Eq, Hash)]
pub struct PeerAddr {
    pub ip: [u8; 4],
    pub port: u16,
}

/// What a tracker answered: after how many seconds to announce again, and
/// the peers it knows.
#[derive(Debug, Clone)]
pub struct TrackerResponse {
    pub interval: u64,
    pub peers: Vec<PeerAddr>,
}

/// The peer that six bytes denote: four bytes of address, then the port,
/// the more significant byte first.
pub open spec fn peer_of(six: Seq<u8>) -> (Seq<u8>, u16) {
    (six.subrange(0, 4), (six[4] * 256 + six[5]) as u16)
}

/// A peer as the contracts see it: its address and its port.
pub open spec fn peer_view(p: PeerAddr) -> (Seq<u8>, u16) {
    (p.ip@, p.port)
}

/// The peers that a compact list denotes, six bytes each.
pub open spec fn compact_peers(data: Seq<u8>) -> Seq<(Seq<u8>, u16)> {
    Seq::new(data.len() / 6, |i: int| peer_of(data.subrange(6 * i, 6 * i + 6)))
}

/// Peers as the contracts see them.
pub open spec fn peers_view(peers: Seq<PeerAddr>) -> Seq<(Seq<u8>, u16)> {
    Seq::new(peers.len(), |i: int| peer_view(peers[i]))
}

/// An endpoint as text: the four numbers of the address with dots between
/// them, a colon, the port.
pub open spec fn addr_bytes(ip: Seq<u8>, port: u16) -> Seq<u8> {
    nat_digits(ip[0] as nat) + seq![46u8] + nat_digits(ip[1] as nat) + seq![46u8] + nat_digits(
        ip[2] as nat,
    ) + seq![46u8] + nat_digits(ip[3] as nat) + seq![58u8] + nat_digits(port as nat)
}

/// What a tracker's answer says.
pub enum ResponseView {
    /// The tracker gave a reason for failure.
    Refused(Seq<u8>),
    /// The answer is no bencode dictionary, or lacks the interval or the
    /// peers, or the peer list is not a multiple of six bytes long.
    Malformed,
    /// The interval and the peers.
    Peers { interval: u64, peers: Seq<(Seq<u8>, u16)> },
}

/// What a tracker's answer says. A dictionary with the key
/// `failure reason` is a refusal, whatever else it holds; the reason is the
/// byte string bound to the key, or empty where the key is bound to
/// something else.
pub open spec fn response_spec(data: Seq<u8>) -> ResponseView {
    match decode_spec(data) {
        Ok(Value::Dict(d)) => match field(d, "failure reason") {
            Some(Value::String(reason)) => ResponseView::Refused(reason),
            Some(_) => ResponseView::Refused(Seq::empty()),
            None => match (field(d, "interval"), field(d, "peers")) {
                (Some(Value::Integer(i)), Some(Value::String(p))) => if i >= 0 && p.len() % 6
                    == 0 {
                    ResponseView::Peers { interval: i as u64, peers: compact_peers(p) }
                } else {
                    ResponseView::Malformed
                },
                _ => ResponseView::Malformed,
            },
        },
        _ => ResponseView::Malformed,
    }
}

impl PeerAddr {
    /// The endpoint as text, such as `127.0.0.1:6881`.
    pub fn to_string(&self) -> (r: String)
        ensures
            r@ == ascii_text(addr_bytes(self.ip@, self.port)),
    {
        let mut out: Vec<u8> = Vec::new();
        push_decimal(&mut out, self.ip[0] as u64);
        out.push(46);
        push_decimal(&mut out, self.ip[1] as u64);
        out.push(46);
        push_decimal(&mut out, self.ip[2] as u64);
        out.push(46);
        push_decimal(&mut out, self.ip[3] as u64);
        out.push(58);
        push_decimal(&mut out, self.port as u64);
        proof {
            lemma_nat_digits(self.ip[0] as nat);
            lemma_nat_digits(self.ip[1] as nat);
            lemma_nat_digits(self.ip[2] as nat);
            lemma_nat_digits(self.ip[3] as nat);
            lemma_nat_digits(self.port as nat);
            assert(out@ =~= addr_bytes(self.ip@, self.port));
            let a = nat_digits(self.ip[0] as nat);
            let b = nat_digits(self.ip[1] as nat);
            let c = nat_digits(self.ip[2] as nat);
            let d = nat_digits(self.ip[3] as nat);
            let e = nat_digits(self.port as nat);
            assert forall|i: int| 0 <= i < out@.len() implies (#[trigger] out@[i]) < 128 by {
                let n1 = a.len() as int;
                let n2 = n1 + 1 + b.len();
                let n3 = n2 + 1 + c.len();
                let n4 = n3 + 1 + d.len();
                if i < n1 {
                    assert(out@[i] == a[i]);
                } else if i == n1 {
                } else if i < n2 {
                    assert(out@[i] == b[i - n1 - 1]);
                } else if i == n2 {
                } else if i < n3 {
                    assert(out@[i] == c[i - n2 - 1]);
                } else if i == n3 {
                } else if i < n4 {
                    assert(out@[i] == d[i - n3 - 1]);
                } else if i == n4 {
                } else {
                    assert(out@[i] == e[i - n4 - 1]);
                }
            }
        }
        ascii_string(out.as_slice())
    }

    /// The endpoint as one number, different for different endpoints.
    pub fn key(&self) -> (r: u64)
        ensures
            r == ((self.ip[0] * 0x100_0000 + self.ip[1] * 0x1_0000 + self.ip[2] * 0x100
                + self.ip[3]) * 0x1_0000 + self.port),
            r == crate::download::peers::addr_key(*self),
    {
        let ip: u64 = self.ip[0] as u64 * 0x100_0000 + self.ip[1] as u64 * 0x1_0000
            + self.ip[2] as u64 * 0x100 + self.ip[3] as u64;
        ip * 0x1_0000 + self.port as u64
    }
}

/// Endpoints with one key are one endpoint: different endpoints have
/// different keys.
pub proof fn law_keys_differ(a: PeerAddr, b: PeerAddr)
    requires
        (a.ip[0] * 0x100_0000 + a.ip[1] * 0x1_0000 + a.ip[2] * 0x100 + a.ip[3]) * 0x1_0000
            + a.port == (b.ip[0] * 0x100_0000 + b.ip[1] * 0x1_0000 + b.ip[2] * 0x100 + b.ip[3])
            * 0x1_0000 + b.port,
    ensures
        a == b,
{
    assert(a.port == b.port);
    assert(a.ip[0] == b.ip[0] && a.ip[1] == b.ip[1] && a.ip[2] == b.ip[2] && a.ip[3] == b.ip[3]);
    assert(a.ip@.len() == 4 && b.ip@.len() == 4);
    assert(a.ip =~= b.ip);
}

/// Reads a compact peer list. A length that is no multiple of six is
/// refused.
pub fn parse_compact_peers(data: &[u8]) -> (r: Result<Vec<PeerAddr>, TorrentError>)
    ensures
        match r {
            Ok(peers) => {
                &&& data@.len() % 6 == 0
                &&& peers@.len() * 6 == data@.len()
                &&& peers_view(peers@) == compact_peers(data@)
            },
            Err(e) => data@.len() % 6 != 0 && e == TorrentError::MalformedResponse,
        },
{
    if data.len() % 6 != 0 {
        return Err(TorrentError::MalformedResponse);
    }
    let n = data.len() / 6;
    let mut peers: Vec<PeerAddr> = Vec::new();
    let mut i: usize = 0;
    while i < n
        invariant
            i <= n,
            n == data.len() / 6,
            data.len() % 6 == 0,
            peers.len() == i,
            forall|j: int|
                0 <= j < i ==> peer_view(#[trigger] peers[j]) == peer_of(
                    data@.subrange(6 * j, 6 * j + 6),
                ),
        decreases n - i,
    {
        let at = 6 * i;
        let mut ip = [0u8; 4];
        ip[0] = data[at];
        ip[1] = data[at + 1];
        ip[2] = data[at + 2];
        ip[3] = data[at + 3];
        let port: u16 = data[at + 4] as u16 * 256 + data[at + 5] as u16;
        proof {
            let six = data@.subrange(6 * i, 6 * i + 6);
            assert(ip@ =~= six.subrange(0, 4));
            assert(six[4] == data[at + 4] && six[5] == data[at + 5]);
        }
        peers.push(PeerAddr { ip, port });
        i = i + 1;
    }
    proof {
        assert(peers_view(peers@) =~= compact_peers(data@));
    }
    Ok(peers)
}

/// Reads a tracker's answer.
pub fn parse_tracker_response(data: &[u8]) -> (r: Result<TrackerResponse, TorrentError>)
    ensures
        match response_spec(data@) {
            ResponseView::Refused(reason) => r matches Err(TorrentError::TrackerRefused(got))
                && got@ == reason,
            ResponseView::Malformed => r == Err::<TrackerResponse, TorrentError>(
                TorrentError::MalformedResponse,
            ),
            ResponseView::Peers { interval, peers } => r matches Ok(got) && got.interval
                == interval && peers_view(got.peers@) == peers,
        },
{
    let root = match decode(data) {
        Ok(v) => v,
        Err(_) => {
            return Err(TorrentError::MalformedResponse);
        },
    };
    if root.as_dict().is_none() {
        return Err(TorrentError::MalformedResponse);
    }
    match root.get("failure reason".as_bytes()) {
        Some(failure) => {
            let reason = match failure.as_bytes() {
                Some(bytes) => slice_to_vec(bytes),
                None => Vec::new(),
            };
            return Err(TorrentError::TrackerRefused(reason));
        },
        None => {},
    }
    let interval = match root.get("interval".as_bytes()) {
        Some(v) => match v.as_int() {
            Some(i) => {
                if i < 0 {
                    return Err(TorrentError::MalformedResponse);
                }
                i as u64
            },
            None => {
                return Err(TorrentError::MalformedResponse);
            },
        },
        None => {
            return Err(TorrentError::MalformedResponse);
        },
    };
    let peers_data = match root.get("peers".as_bytes()) {
        Some(v) => match v.as_bytes() {
            Some(b) => b,
            None => {
                return Err(TorrentError::MalformedResponse);
            },
        },
        None => {
            return Err(TorrentError::MalformedResponse);
        },
    };
    match parse_compact_peers(peers_data) {
        Ok(peers) => Ok(TrackerResponse { interval, peers }),
        Err(e) => Err(e),
    }
}

} // verus!
