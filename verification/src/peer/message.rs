//! The messages of the peer wire protocol and their frames: a four-byte
//! big-endian length, then one type byte and the payload. A length of zero
//! is a keep-alive.

use crate::peer::buffer::{
    be32, be32_value, buffer_advance, buffer_byte, buffer_get_u32, buffer_get_u8, buffer_len,
    buffer_split_to, buffered, lemma_be32_value, put_u32, put_u8,
};
use bytes::BytesMut;
use vstd::prelude::*;

verus! {

/// Why a peer connection is given up.
#[derive(Debug, Clone, Copy, PartialEq, Eq)]
pub enum PeerError {
    /// The peer's handshake names another torrent.
    HandshakeMismatch,
    /// A frame with a type byte that the protocol does not know.
    UnknownMessage(u8),
    /// A handshake or a frame that is not laid out as the protocol says,
    /// or a request made while the peer is choking.
    ProtocolViolation,
}

/// A message of the peer wire protocol.
#[derive(Debug, Clone, PartialEq)]
pub enum Message {
    KeepAlive,
    Choke,
    Unchoke,
    Interested,
    NotInterested,
    Have { piece_index: u32 },
    Bitfield { bitfield: Vec<u8> },
    Request { index: u32, begin: u32, length: u32 },
    Piece { index: u32, begin: u32, data: Vec<u8> },
    Cancel { index: u32, begin: u32, length: u32 },
}

/// A message as the contracts see it.
pub enum MessageView {
    KeepAlive,
    Choke,
    Unchoke,
    Interested,
    NotInterested,
    Have { piece_index: u32 },
    Bitfield { bitfield: Seq<u8> },
    Request { index: u32, begin: u32, length: u32 },
    Piece { index: u32, begin: u32, data: Seq<u8> },
    Cancel { index: u32, begin: u32, length: u32 },
}

impl View for Message {
    type V = MessageView;

    open spec fn view(&self) -> MessageView {
        match self {
            Message::KeepAlive => MessageView::KeepAlive,
            Message::Choke => MessageView::Choke,
            Message::Unchoke => MessageView::Unchoke,
            Message::Interested => MessageView::Interested,
            Message::NotInterested => MessageView::NotInterested,
            Message::Have { piece_index } => MessageView::Have { piece_index: *piece_index },
            Message::Bitfield { bitfield } => MessageView::Bitfield { bitfield: bitfield@ },
            Message::Request { index, begin, length } => MessageView::Request {
                index: *index,
                begin: *begin,
                length: *length,
            },
            Message::Piece { index, begin, data } => MessageView::Piece {
                index: *index,
                begin: *begin,
                data: data@,
            },
            Message::Cancel { index, begin, length } => MessageView::Cancel {
                index: *index,
                begin: *begin,
                length: *length,
            },
        }
    }
}

impl MessageView {
    /// The number of bytes behind the length prefix: the type byte and the
    /// payload.
    pub open spec fn body_len(self) -> int {
        match self {
            MessageView::KeepAlive => 0,
            MessageView::Choke => 1,
            MessageView::Unchoke => 1,
            MessageView::Interested => 1,
            MessageView::NotInterested => 1,
            MessageView::Have { .. } => 5,
            MessageView::Bitfield { bitfield } => 1 + bitfield.len() as int,
            MessageView::Request { .. } => 13,
            MessageView::Piece { data, .. } => 9 + data.len() as int,
            MessageView::Cancel { .. } => 13,
        }
    }

    /// The length prefix can hold the length.
    pub open spec fn fits_frame(self) -> bool {
        self.body_len() <= u32::MAX
    }

    /// The type byte and the payload.
    pub open spec fn body(self) -> Seq<u8> {
        match self {
            MessageView::KeepAlive => Seq::empty(),
            MessageView::Choke => seq![0u8],
            MessageView::Unchoke => seq![1u8],
            MessageView::Interested => seq![2u8],
            MessageView::NotInterested => seq![3u8],
            MessageView::Have { piece_index } => seq![4u8] + be32(piece_index),
            MessageView::Bitfield { bitfield } => seq![5u8] + bitfield,
            MessageView::Request { index, begin, length } => seq![6u8] + be32(index) + be32(begin)
                + be32(length),
            MessageView::Piece { index, begin, data } => seq![7u8] + be32(index) + be32(begin)
                + data,
            MessageView::Cancel { index, begin, length } => seq![8u8] + be32(index) + be32(begin)
                + be32(length),
        }
    }

    /// The message on the wire.
    pub open spec fn frame(self) -> Seq<u8> {
        be32(self.body_len() as u32) + self.body()
    }
}

/// The message that a type byte and a payload denote.
pub open spec fn parse_body(id: u8, payload: Seq<u8>) -> Result<MessageView, PeerError> {
    if id > 8 {
        Err(PeerError::UnknownMessage(id))
    } else if id == 5 {
        Ok(MessageView::Bitfield { bitfield: payload })
    } else if id == 7 {
        if payload.len() >= 8 {
            Ok(
                MessageView::Piece {
                    index: be32_value(payload),
                    begin: be32_value(payload.skip(4)),
                    data: payload.skip(8),
                },
            )
        } else {
            Err(PeerError::ProtocolViolation)
        }
    } else if id == 4 {
        if payload.len() == 4 {
            Ok(MessageView::Have { piece_index: be32_value(payload) })
        } else {
            Err(PeerError::ProtocolViolation)
        }
    } else if id == 6 || id == 8 {
        if payload.len() == 12 {
            let index = be32_value(payload);
            let begin = be32_value(payload.skip(4));
            let length = be32_value(payload.skip(8));
            if id == 6 {
                Ok(MessageView::Request { index, begin, length })
            } else {
                Ok(MessageView::Cancel { index, begin, length })
            }
        } else {
            Err(PeerError::ProtocolViolation)
        }
    } else if payload.len() != 0 {
        Err(PeerError::ProtocolViolation)
    } else if id == 0 {
        Ok(MessageView::Choke)
    } else if id == 1 {
        Ok(MessageView::Unchoke)
    } else if id == 2 {
        Ok(MessageView::Interested)
    } else {
        Ok(MessageView::NotInterested)
    }
}

/// What the front of a receive buffer holds.
pub enum Framing {
    /// No whole frame yet.
    NeedMore,
    /// A whole frame of `consumed` bytes, and what it denotes.
    Frame { consumed: int, message: Result<MessageView, PeerError> },
}

/// What the front of a receive buffer holds: nothing whole while the
/// length prefix or the bytes it announces are not all there, else one
/// frame of four bytes and as many as the prefix says.
pub open spec fn parse_frame(buf: Seq<u8>) -> Framing {
    if buf.len() < 4 {
        Framing::NeedMore
    } else {
        let length = be32_value(buf) as int;
        if length == 0 {
            Framing::Frame { consumed: 4, message: Ok(MessageView::KeepAlive) }
        } else if buf.len() < 4 + length {
            Framing::NeedMore
        } else {
            Framing::Frame {
                consumed: 4 + length,
                message: parse_body(buf[4], buf.subrange(5, 4 + length)),
            }
        }
    }
}

impl Message {
    /// The message on the wire.
    pub fn encode(&self) -> (r: Vec<u8>)
        requires
            self@.fits_frame(),
        ensures
            r@ == self@.frame(),
    {
        let mut buf: Vec<u8> = Vec::new();
        match self {
            Message::KeepAlive => {
                put_u32(&mut buf, 0);
            },
            Message::Choke => {
                put_u32(&mut buf, 1);
                put_u8(&mut buf, 0);
            },
            Message::Unchoke => {
                put_u32(&mut buf, 1);
                put_u8(&mut buf, 1);
            },
            Message::Interested => {
                put_u32(&mut buf, 1);
                put_u8(&mut buf, 2);
            },
            Message::NotInterested => {
                put_u32(&mut buf, 1);
                put_u8(&mut buf, 3);
            },
            Message::Have { piece_index } => {
                put_u32(&mut buf, 5);
                put_u8(&mut buf, 4);
                put_u32(&mut buf, *piece_index);
            },
            Message::Bitfield { bitfield } => {
                put_u32(&mut buf, 1 + bitfield.len() as u32);
                put_u8(&mut buf, 5);
                buf.extend_from_slice(bitfield.as_slice());
            },
            Message::Request { index, begin, length } => {
                put_u32(&mut buf, 13);
                put_u8(&mut buf, 6);
                put_u32(&mut buf, *index);
                put_u32(&mut buf, *begin);
                put_u32(&mut buf, *length);
            },
            Message::Piece { index, begin, data } => {
                put_u32(&mut buf, 9 + data.len() as u32);
                put_u8(&mut buf, 7);
                put_u32(&mut buf, *index);
                put_u32(&mut buf, *begin);
                buf.extend_from_slice(data.as_slice());
            },
            Message::Cancel { index, begin, length } => {
                put_u32(&mut buf, 13);
                put_u8(&mut buf, 8);
                put_u32(&mut buf, *index);
                put_u32(&mut buf, *begin);
                put_u32(&mut buf, *length);
            },
        }
        proof {
            assert(buf@ =~= self@.frame());
        }
        buf
    }

    /// Takes one frame off the front of a receive buffer, if a whole frame
    /// is there. Until then the buffer is left as it is. A whole frame
    /// leaves the buffer in any case, whether it denotes a message or not.
    pub fn decode(data: &mut BytesMut) -> (r: Result<Option<Message>, PeerError>)
        ensures
            match parse_frame(buffered(*old(data))) {
                Framing::NeedMore => {
                    &&& r matches Ok(None)
                    &&& buffered(*final(data)) == buffered(*old(data))
                },
                Framing::Frame { consumed, message } => {
                    &&& buffered(*final(data)) == buffered(*old(data)).skip(consumed)
                    &&& match message {
                        Ok(m) => r matches Ok(Some(got)) && got@ == m,
                        Err(e) => r == Err::<Option<Message>, PeerError>(e),
                    }
                },
            },
    {
        let ghost buf = buffered(*data);
        if buffer_len(data) < 4 {
            return Ok(None);
        }
        let length: u32 = buffer_byte(data, 0) as u32 * 0x100_0000 + buffer_byte(data, 1) as u32
            * 0x1_0000 + buffer_byte(data, 2) as u32 * 0x100 + buffer_byte(data, 3) as u32;
        if length == 0 {
            buffer_advance(data, 4);
            return Ok(Some(Message::KeepAlive));
        }
        if buffer_len(data) - 4 < length as usize {
            return Ok(None);
        }
        buffer_advance(data, 4);
        let id = buffer_get_u8(data);
        let payload_len: usize = (length - 1) as usize;
        let ghost payload = buf.subrange(5, 4 + length);
        proof {
            assert(buffered(*data) =~= buf.skip(5));
            assert(buf.skip(5).take(payload_len as int) =~= payload);
            assert(buf.skip(5).skip(payload_len as int) =~= buf.skip(4 + length));
        }
        if id > 8 {
            buffer_advance(data, payload_len);
            return Err(PeerError::UnknownMessage(id));
        }
        if id == 5 {
            let bitfield = buffer_split_to(data, payload_len);
            return Ok(Some(Message::Bitfield { bitfield }));
        }
        if id == 7 {
            if payload_len < 8 {
                buffer_advance(data, payload_len);
                return Err(PeerError::ProtocolViolation);
            }
            let index = buffer_get_u32(data);
            let begin = buffer_get_u32(data);
            let piece_data = buffer_split_to(data, payload_len - 8);
            proof {
                assert(be32_value(buf.skip(5)) == be32_value(payload));
                assert(be32_value(buf.skip(5).skip(4)) == be32_value(payload.skip(4)));
                assert(buf.skip(5).skip(4).skip(4).take(payload_len - 8) =~= payload.skip(8));
                assert(buf.skip(5).skip(4).skip(4).skip(payload_len - 8) =~= buf.skip(
                    4 + length,
                ));
            }
            return Ok(Some(Message::Piece { index, begin, data: piece_data }));
        }
        if id == 4 {
            if payload_len != 4 {
                buffer_advance(data, payload_len);
                return Err(PeerError::ProtocolViolation);
            }
            let piece_index = buffer_get_u32(data);
            proof {
                assert(be32_value(buf.skip(5)) == be32_value(payload));
                assert(buf.skip(5).skip(4) =~= buf.skip(4 + length));
            }
            return Ok(Some(Message::Have { piece_index }));
        }
        if id == 6 || id == 8 {
            if payload_len != 12 {
                buffer_advance(data, payload_len);
                return Err(PeerError::ProtocolViolation);
            }
            let index = buffer_get_u32(data);
            let begin = buffer_get_u32(data);
            let wanted = buffer_get_u32(data);
            proof {
                assert(be32_value(buf.skip(5)) == be32_value(payload));
                assert(be32_value(buf.skip(5).skip(4)) == be32_value(payload.skip(4)));
                assert(be32_value(buf.skip(5).skip(4).skip(4)) == be32_value(payload.skip(8)));
                assert(buf.skip(5).skip(4).skip(4).skip(4) =~= buf.skip(4 + length));
            }
            if id == 6 {
                return Ok(Some(Message::Request { index, begin, length: wanted }));
            } else {
                return Ok(Some(Message::Cancel { index, begin, length: wanted }));
            }
        }
        if payload_len != 0 {
            buffer_advance(data, payload_len);
            return Err(PeerError::ProtocolViolation);
        }
        proof {
            assert(buffered(*data) =~= buf.skip(4 + length));
        }
        if id == 0 {
            Ok(Some(Message::Choke))
        } else if id == 1 {
            Ok(Some(Message::Unchoke))
        } else if id == 2 {
            Ok(Some(Message::Interested))
        } else {
            Ok(Some(Message::NotInterested))
        }
    }
}

/// A frame at the front of a buffer is read back as the message it was
/// made from, and nothing behind it is touched.
pub proof fn law_frame_roundtrip(m: MessageView, tail: Seq<u8>)
    requires
        m.fits_frame(),
    ensures
        parse_frame(m.frame() + tail) == (Framing::Frame {
            consumed: m.frame().len() as int,
            message: Ok(m),
        }),
{
    let n = m.body_len() as u32;
    let buf = m.frame() + tail;
    lemma_be32_value(n);
    assert(be32_value(buf) == n);
    assert(m.body().len() == m.body_len());
    match m {
        MessageView::KeepAlive => {},
        MessageView::Have { piece_index } => {
            lemma_be32_value(piece_index);
            assert(buf.subrange(5, 4 + n) =~= be32(piece_index));
        },
        MessageView::Bitfield { bitfield } => {
            assert(buf.subrange(5, 4 + n) =~= bitfield);
        },
        MessageView::Request { index, begin, length } => {
            lemma_be32_value(index);
            lemma_be32_value(begin);
            lemma_be32_value(length);
            let p = buf.subrange(5, 4 + n);
            assert(p =~= be32(index) + be32(begin) + be32(length));
            assert(p.skip(4) =~= be32(begin) + be32(length));
            assert(p.skip(8) =~= be32(length));
        },
        MessageView::Cancel { index, begin, length } => {
            lemma_be32_value(index);
            lemma_be32_value(begin);
            lemma_be32_value(length);
            let p = buf.subrange(5, 4 + n);
            assert(p =~= be32(index) + be32(begin) + be32(length));
            assert(p.skip(4) =~= be32(begin) + be32(length));
            assert(p.skip(8) =~= be32(length));
        },
        MessageView::Piece { index, begin, data } => {
            lemma_be32_value(index);
            lemma_be32_value(begin);
            let p = buf.subrange(5, 4 + n);
            assert(p =~= be32(index) + be32(begin) + data);
            assert(p.skip(4) =~= be32(begin) + data);
            assert(p.skip(8) =~= data);
        },
        _ => {
            assert(buf.subrange(5, 4 + n) =~= Seq::<u8>::empty());
        },
    }
}

} // verus!
