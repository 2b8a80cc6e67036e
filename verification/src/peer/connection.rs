//! What a connection knows of its peer: whether the peer is choking us,
//! whether we told it of our interest, which pieces it has, and the bytes
//! received from it that are no whole message yet. The socket itself is
//! the caller's: bytes read are fed in here, and what is to be written
//! comes out as bytes.

use crate::peer::buffer::{buffer_extend, buffer_with_capacity, buffered};
use crate::peer::handshake::{check_handshake, is_handshake};
use crate::peer::message::{parse_frame, Framing, Message, MessageView, PeerError};
use crate::tracker::response::PeerAddr;
use bytes::BytesMut;
use vstd::prelude::*;
use vstd::slice::slice_to_vec;

verus! {

/// The room that a receive buffer starts with: 128 KiB.
pub const RECEIVE_BUFFER_CAPACITY: usize = 131072;

/// The most that one read from the socket should ask for: 64 KiB.
pub const READ_CHUNK: usize = 65536;

/// A connection as the contracts see it.
pub struct ConnectionView {
    pub addr: PeerAddr,
    pub received: Seq<u8>,
    pub peer_choking: bool,
    pub am_interested: bool,
    pub bitfield: Option<Seq<u8>>,
}

impl ConnectionView {
    /// What the connection knows once the message `m` has come in.
    pub open spec fn after(self, m: MessageView) -> ConnectionView {
        match m {
            MessageView::Choke => ConnectionView { peer_choking: true, ..self },
            MessageView::Unchoke => ConnectionView { peer_choking: false, ..self },
            MessageView::Bitfield { bitfield } => ConnectionView {
                bitfield: Some(bitfield),
                ..self
            },
            _ => self,
        }
    }

    /// Whether the peer said that it has piece `index`.
    pub open spec fn has_piece(self, index: int) -> bool {
        match self.bitfield {
            Some(bits) => has_bit(bits, index),
            None => false,
        }
    }
}

/// The weight of bit `r` of a byte, the first being the most significant.
pub open spec fn bit_weight(r: int) -> int {
    if r == 0 {
        128
    } else if r == 1 {
        64
    } else if r == 2 {
        32
    } else if r == 3 {
        16
    } else if r == 4 {
        8
    } else if r == 5 {
        4
    } else if r == 6 {
        2
    } else {
        1
    }
}

/// Whether bit `index` of a bitfield is set: bit `index % 8` of byte
/// `index / 8`, counted from the most significant. A bit beyond the
/// bitfield is not set.
pub open spec fn has_bit(bits: Seq<u8>, index: int) -> bool {
    0 <= index && index / 8 < bits.len() && (bits[index / 8] as int / bit_weight(index % 8)) % 2
        == 1
}

/// How many bytes a bitfield for `num_pieces` pieces has.
pub open spec fn bitfield_bytes(num_pieces: int) -> int {
    (num_pieces + 7) / 8
}

/// A bitfield has a byte for every eight pieces, and one more for what is
/// left of them: a bit for each piece, and no byte without one. Piece 0 is
/// the most significant bit of the first byte.
pub proof fn law_bitfield(num_pieces: int, index: int, bits: Seq<u8>)
    requires
        0 <= index < num_pieces,
    ensures
        index / 8 < bitfield_bytes(num_pieces),
        8 * (bitfield_bytes(num_pieces) - 1) < num_pieces <= 8 * bitfield_bytes(num_pieces),
        bitfield_bytes(0) == 0,
        has_bit(bits, 0) <==> bits.len() > 0 && bits[0] >= 128,
{
}

/// How many bytes a bitfield for `num_pieces` pieces has.
pub fn bitfield_len(num_pieces: usize) -> (r: usize)
    ensures
        r == bitfield_bytes(num_pieces as int),
{
    num_pieces / 8 + (if num_pieces % 8 != 0 {
        1
    } else {
        0
    })
}

/// The protocol state of one peer connection.
pub struct PeerConnection {
    addr: PeerAddr,
    buffer: BytesMut,
    peer_choking: bool,
    am_interested: bool,
    bitfield: Option<Vec<u8>>,
}

impl View for PeerConnection {
    type V = ConnectionView;

    closed spec fn view(&self) -> ConnectionView {
        ConnectionView {
            addr: self.addr,
            received: buffered(self.buffer),
            peer_choking: self.peer_choking,
            am_interested: self.am_interested,
            bitfield: match self.bitfield {
                Some(b) => Some(b@),
                None => None,
            },
        }
    }
}

impl PeerConnection {
    /// The state of a connection whose peer answered our handshake with
    /// `reply`: the peer is choking us, we have not told it of our
    /// interest, and nothing is known of its pieces. A reply that is no
    /// handshake, or that names another torrent, is refused.
    pub fn connect(addr: PeerAddr, info_hash: &[u8; 20], reply: &[u8]) -> (r: Result<
        PeerConnection,
        PeerError,
    >)
        ensures
            match r {
                Ok(c) => {
                    &&& is_handshake(reply@)
                    &&& reply@.subrange(28, 48) == info_hash@
                    &&& c@ == (ConnectionView {
                        addr,
                        received: Seq::empty(),
                        peer_choking: true,
                        am_interested: false,
                        bitfield: None,
                    })
                },
                Err(e) => {
                    if is_handshake(reply@) {
                        reply@.subrange(28, 48) != info_hash@ && e == PeerError::HandshakeMismatch
                    } else {
                        e == PeerError::ProtocolViolation
                    }
                },
            },
    {
        match check_handshake(reply, info_hash) {
            Err(e) => Err(e),
            Ok(_) => Ok(
                PeerConnection {
                    addr,
                    buffer: buffer_with_capacity(RECEIVE_BUFFER_CAPACITY),
                    peer_choking: true,
                    am_interested: false,
                    bitfield: None,
                },
            ),
        }
    }

    /// Takes in bytes that were read from the socket.
    pub fn feed(&mut self, bytes: &[u8])
        ensures
            final(self)@ == (ConnectionView {
                received: old(self)@.received + bytes@,
                ..old(self)@
            }),
    {
        buffer_extend(&mut self.buffer, bytes);
    }

    /// The bytes to write for a message.
    pub fn send_message(&self, msg: &Message) -> (r: Vec<u8>)
        requires
            msg@.fits_frame(),
        ensures
            r@ == msg@.frame(),
    {
        msg.encode()
    }

    /// The next message among the bytes received, if a whole one is
    /// there; what it says of choking and of the peer's pieces is taken
    /// note of. `None` asks for more bytes, and changes nothing.
    pub fn receive_message(&mut self) -> (r: Result<Option<Message>, PeerError>)
        ensures
            match parse_frame(old(self)@.received) {
                Framing::NeedMore => r matches Ok(None) && final(self)@ == old(self)@,
                Framing::Frame { consumed, message } => match message {
                    Ok(m) => {
                        &&& r matches Ok(Some(got)) && got@ == m
                        &&& final(self)@ == (ConnectionView {
                            received: old(self)@.received.skip(consumed),
                            ..old(self)@
                        }).after(m)
                    },
                    Err(e) => {
                        &&& r == Err::<Option<Message>, PeerError>(e)
                        &&& final(self)@ == (ConnectionView {
                            received: old(self)@.received.skip(consumed),
                            ..old(self)@
                        })
                    },
                },
            },
    {
        match Message::decode(&mut self.buffer) {
            Err(e) => Err(e),
            Ok(None) => Ok(None),
            Ok(Some(msg)) => {
                self.handle_message(&msg);
                Ok(Some(msg))
            },
        }
    }

    /// Takes note of what a message says of choking and of the peer's
    /// pieces.
    pub fn handle_message(&mut self, msg: &Message)
        ensures
            final(self)@ == old(self)@.after(msg@),
    {
        match msg {
            Message::Choke => {
                self.peer_choking = true;
            },
            Message::Unchoke => {
                self.peer_choking = false;
            },
            Message::Bitfield { bitfield } => {
                self.bitfield = Some(slice_to_vec(bitfield.as_slice()));
            },
            _ => {},
        }
    }

    /// The bytes to write to tell the peer of our interest; the connection
    /// takes note of having told it.
    pub fn send_interested(&mut self) -> (r: Vec<u8>)
        ensures
            r@ == MessageView::Interested.frame(),
            final(self)@ == (ConnectionView { am_interested: true, ..old(self)@ }),
    {
        self.am_interested = true;
        Message::Interested.encode()
    }

    /// The bytes to write to ask for a block. While the peer is choking
    /// us, no request may be made.
    pub fn request_piece(&self, piece_index: u32, begin: u32, length: u32) -> (r: Result<
        Vec<u8>,
        PeerError,
    >)
        ensures
            match r {
                Ok(bytes) => !self@.peer_choking && bytes@ == (MessageView::Request {
                    index: piece_index,
                    begin,
                    length,
                }).frame(),
                Err(e) => self@.peer_choking && e == PeerError::ProtocolViolation,
            },
    {
        if self.peer_choking {
            return Err(PeerError::ProtocolViolation);
        }
        Ok(Message::Request { index: piece_index, begin, length }.encode())
    }

    /// Whether the peer is choking us.
    pub fn is_choking(&self) -> (r: bool)
        ensures
            r == self@.peer_choking,
    {
        self.peer_choking
    }

    /// Whether we told the peer of our interest.
    pub fn is_interested(&self) -> (r: bool)
        ensures
            r == self@.am_interested,
    {
        self.am_interested
    }

    /// Whether the peer said that it has the piece.
    pub fn has_piece(&self, piece_index: usize) -> (r: bool)
        ensures
            r == self@.has_piece(piece_index as int),
    {
        match &self.bitfield {
            Some(bitfield) => {
                let byte_index = piece_index / 8;
                if byte_index < bitfield.len() {
                    let r = piece_index % 8;
                    let weight: u8 = if r == 0 {
                        128
                    } else if r == 1 {
                        64
                    } else if r == 2 {
                        32
                    } else if r == 3 {
                        16
                    } else if r == 4 {
                        8
                    } else if r == 5 {
                        4
                    } else if r == 6 {
                        2
                    } else {
                        1
                    };
                    (bitfield[byte_index] / weight) % 2 == 1
                } else {
                    false
                }
            },
            None => false,
        }
    }

    /// The peer's endpoint.
    pub fn addr(&self) -> (r: &PeerAddr)
        ensures
            *r == self@.addr,
    {
        &self.addr
    }
}

} // verus!
