//! The handshake that opens a peer connection: 68 bytes, the same layout
//! in both directions.

use crate::hashing::{copy_20, digest_matches};
use crate::peer::message::PeerError;
use vstd::prelude::*;

verus! {

/// The length of a handshake.
pub const HANDSHAKE_LEN: usize = 68;

/// The length of the protocol's name, and the handshake's first byte.
pub const PROTOCOL_NAME_LEN: u8 = 19;

/// The protocol's name: the bytes of the ASCII text `BitTorrent protocol`.
pub open spec fn protocol_name() -> Seq<u8> {
    seq![
        66u8, 105u8, 116u8, 84u8, 111u8, 114u8, 114u8, 101u8, 110u8, 116u8, 32u8, 112u8, 114u8,
        111u8, 116u8, 111u8, 99u8, 111u8, 108u8,
    ]
}

/// A handshake: the name's length, the name, eight reserved bytes of
/// zero, the torrent's info-hash, the sender's peer id.
pub open spec fn handshake_bytes(info_hash: Seq<u8>, peer_id: Seq<u8>) -> Seq<u8> {
    seq![PROTOCOL_NAME_LEN] + protocol_name() + Seq::new(8, |i: int| 0u8) + info_hash + peer_id
}

/// The bytes begin as a handshake does, and are enough for one.
pub open spec fn is_handshake(data: Seq<u8>) -> bool {
    &&& data.len() >= HANDSHAKE_LEN
    &&& data[0] == PROTOCOL_NAME_LEN
    &&& data.subrange(1, 20) == protocol_name()
}

/// The protocol's name.
fn protocol_name_bytes() -> (r: Vec<u8>)
    ensures
        r@ == protocol_name(),
{
    let mut name: Vec<u8> = Vec::new();
    name.push(66);
    name.push(105);
    name.push(116);
    name.push(84);
    name.push(111);
    name.push(114);
    name.push(114);
    name.push(101);
    name.push(110);
    name.push(116);
    name.push(32);
    name.push(112);
    name.push(114);
    name.push(111);
    name.push(116);
    name.push(111);
    name.push(99);
    name.push(111);
    name.push(108);
    proof {
        assert(name@ =~= protocol_name());
    }
    name
}

/// The handshake to send for a torrent.
pub fn create_handshake(info_hash: &[u8; 20], peer_id: &[u8; 20]) -> (r: Vec<u8>)
    ensures
        r@ == handshake_bytes(info_hash@, peer_id@),
        r.len() == HANDSHAKE_LEN,
{
    let mut handshake: Vec<u8> = Vec::new();
    handshake.push(PROTOCOL_NAME_LEN);
    let name = protocol_name_bytes();
    handshake.extend_from_slice(name.as_slice());
    let mut i: usize = 0;
    while i < 8
        invariant
            i <= 8,
            handshake@ == seq![PROTOCOL_NAME_LEN] + protocol_name() + Seq::new(
                i as nat,
                |k: int| 0u8,
            ),
        decreases 8 - i,
    {
        handshake.push(0);
        i = i + 1;
        proof {
            assert(handshake@ =~= seq![PROTOCOL_NAME_LEN] + protocol_name() + Seq::new(
                i as nat,
                |k: int| 0u8,
            ));
        }
    }
    let ghost before = handshake@;
    handshake.extend_from_slice(info_hash.as_slice());
    proof {
        assert(handshake@ =~= before + info_hash@);
    }
    let ghost before = handshake@;
    handshake.extend_from_slice(peer_id.as_slice());
    proof {
        assert(handshake@ =~= before + peer_id@);
        assert(handshake@ =~= handshake_bytes(info_hash@, peer_id@));
    }
    handshake
}

/// Reads a handshake: the info-hash and the peer id that it carries.
/// Fewer than 68 bytes, another length byte or another protocol name are a
/// violation of the protocol. Bytes beyond the 68th are ignored.
pub fn parse_handshake(data: &[u8]) -> (r: Result<([u8; 20], [u8; 20]), PeerError>)
    ensures
        match r {
            Ok((info_hash, peer_id)) => {
                &&& is_handshake(data@)
                &&& info_hash@ == data@.subrange(28, 48)
                &&& peer_id@ == data@.subrange(48, 68)
            },
            Err(e) => !is_handshake(data@) && e == PeerError::ProtocolViolation,
        },
{
    if data.len() < HANDSHAKE_LEN {
        return Err(PeerError::ProtocolViolation);
    }
    if data[0] != PROTOCOL_NAME_LEN {
        return Err(PeerError::ProtocolViolation);
    }
    let name = protocol_name_bytes();
    let mut i: usize = 0;
    while i < 19
        invariant
            i <= 19,
            data.len() >= HANDSHAKE_LEN,
            name@ == protocol_name(),
            forall|j: int| 0 <= j < i ==> data[1 + j] == name[j],
        decreases 19 - i,
    {
        if data[1 + i] != name[i] {
            proof {
                assert(data@.subrange(1, 20)[i as int] == data[1 + i]);
            }
            return Err(PeerError::ProtocolViolation);
        }
        i = i + 1;
    }
    proof {
        assert(data@.subrange(1, 20) =~= protocol_name());
    }
    let info_hash = copy_20(data, 28);
    let peer_id = copy_20(data, 48);
    Ok((info_hash, peer_id))
}

/// Reads the handshake that a peer answered with, and holds it to the
/// torrent asked for: the peer's id, if the peer speaks of the same
/// info-hash.
pub fn check_handshake(data: &[u8], info_hash: &[u8; 20]) -> (r: Result<[u8; 20], PeerError>)
    ensures
        match r {
            Ok(peer_id) => {
                &&& is_handshake(data@)
                &&& data@.subrange(28, 48) == info_hash@
                &&& peer_id@ == data@.subrange(48, 68)
            },
            Err(e) => {
                if is_handshake(data@) {
                    data@.subrange(28, 48) != info_hash@ && e == PeerError::HandshakeMismatch
                } else {
                    e == PeerError::ProtocolViolation
                }
            },
        },
{
    match parse_handshake(data) {
        Err(e) => Err(e),
        Ok((received, peer_id)) => {
            if digest_matches(&received, info_hash) {
                Ok(peer_id)
            } else {
                Err(PeerError::HandshakeMismatch)
            }
        },
    }
}

/// A handshake that was made reads back as the info-hash and the peer id
/// it was made from, and is 68 bytes long.
pub proof fn law_handshake_roundtrip(info_hash: Seq<u8>, peer_id: Seq<u8>)
    requires
        info_hash.len() == 20,
        peer_id.len() == 20,
    ensures
        handshake_bytes(info_hash, peer_id).len() == HANDSHAKE_LEN,
        is_handshake(handshake_bytes(info_hash, peer_id)),
        handshake_bytes(info_hash, peer_id).subrange(28, 48) == info_hash,
        handshake_bytes(info_hash, peer_id).subrange(48, 68) == peer_id,
{
    let h = handshake_bytes(info_hash, peer_id);
    assert(h.subrange(1, 20) =~= protocol_name());
    assert(h.subrange(28, 48) =~= info_hash);
    assert(h.subrange(48, 68) =~= peer_id);
}

} // verus!
