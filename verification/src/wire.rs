//! The wire format: a four-byte header (channel, command byte, payload length
//! as a big-endian 16-bit number) followed by the payload.
//!
//! `frame` says which bytes stand for a message and `parse` says what the
//! front of a byte sequence means; `decode_frame` computes `parse`, and the
//! lemmas relate the two.

use crate::message::{
    Command, CommandView, Message, MessageView, pixels_view, SET_PIXEL_COLORS, SYS_EXCLUSIVE,
};
use vstd::prelude::*;
use vstd::slice::{slice_subrange, slice_to_vec};

verus! {

/// The number of bytes in a frame's header.
pub const HEADER_SIZE: usize = 4;

/// Why a complete frame is not a message.
#[derive(Clone, Copy, Debug, PartialEq, Eq)]
pub enum DecodeError {
    /// The command byte is neither that of pixel colours nor that of a
    /// system-exclusive message.
    UnknownCommand { command: u8 },
    /// A system-exclusive payload of fewer than two bytes, which cannot hold
    /// the system identifier.
    MissingSystemId,
}

/// What the front of a byte sequence means.
pub enum Parsed {
    /// The header or the payload it announces is not all there yet.
    Incomplete,
    /// A whole frame is there and breaks the format.
    Malformed(DecodeError),
    /// The first `consumed` bytes are a frame that carries `message`.
    Frame { message: MessageView, consumed: nat },
}

/// The red, green or blue byte of a colour, by position.
pub open spec fn component(pixel: (u8, u8, u8), k: int) -> u8 {
    if k == 0 {
        pixel.0
    } else if k == 1 {
        pixel.1
    } else {
        pixel.2
    }
}

/// Colours laid out as bytes: three for each pixel, in order.
pub open spec fn pack_pixels(pixels: Seq<(u8, u8, u8)>) -> Seq<u8> {
    Seq::new(3 * pixels.len(), |i: int| component(pixels[i / 3], i % 3))
}

/// The colours that a payload holds: one for each full group of three bytes;
/// up to two bytes behind the last group belong to no pixel.
pub open spec fn unpack_pixels(payload: Seq<u8>) -> Seq<(u8, u8, u8)> {
    Seq::new(
        (payload.len() / 3) as nat,
        |i: int| (payload[3 * i], payload[3 * i + 1], payload[3 * i + 2]),
    )
}

/// The payload bytes of a command.
pub open spec fn payload(command: CommandView) -> Seq<u8> {
    match command {
        CommandView::SetPixelColors { pixels } => pack_pixels(pixels),
        CommandView::SystemExclusive { id, data } => seq![id.0, id.1] + data,
    }
}

/// The header of a frame with the given channel, command byte and payload
/// length.
pub open spec fn header(channel: u8, tag: u8, len: nat) -> Seq<u8> {
    seq![channel, tag, (len / 256) as u8, (len % 256) as u8]
}

/// The frame that carries a message.
pub open spec fn frame(message: MessageView) -> Seq<u8> {
    header(message.channel, message.command.tag(), message.len()) + payload(message.command)
}

/// The payload length that a header announces.
pub open spec fn announced_len(bytes: Seq<u8>) -> nat {
    (bytes[2] as nat) * 256 + (bytes[3] as nat)
}

/// The meaning of the front of `bytes`.
pub open spec fn parse(bytes: Seq<u8>) -> Parsed {
    if bytes.len() < HEADER_SIZE {
        Parsed::Incomplete
    } else if bytes.len() < HEADER_SIZE + announced_len(bytes) {
        Parsed::Incomplete
    } else {
        let len = announced_len(bytes);
        let body = bytes.subrange(HEADER_SIZE as int, HEADER_SIZE + len);
        if bytes[1] == SET_PIXEL_COLORS {
            Parsed::Frame {
                message: MessageView {
                    channel: bytes[0],
                    command: CommandView::SetPixelColors { pixels: unpack_pixels(body) },
                },
                consumed: HEADER_SIZE as nat + len,
            }
        } else if bytes[1] == SYS_EXCLUSIVE {
            if len < 2 {
                Parsed::Malformed(DecodeError::MissingSystemId)
            } else {
                Parsed::Frame {
                    message: MessageView {
                        channel: bytes[0],
                        command: CommandView::SystemExclusive {
                            id: (body[0], body[1]),
                            data: body.skip(2),
                        },
                    },
                    consumed: HEADER_SIZE as nat + len,
                }
            }
        } else {
            Parsed::Malformed(DecodeError::UnknownCommand { command: bytes[1] })
        }
    }
}

/// A frame is four bytes longer than the payload of its message.
pub proof fn lemma_frame_len(message: MessageView)
    ensures
        frame(message).len() == HEADER_SIZE + message.len(),
        payload(message.command).len() == message.len(),
{
}

/// Packing one more colour appends its three bytes.
pub proof fn lemma_pack_push(pixels: Seq<(u8, u8, u8)>, pixel: (u8, u8, u8))
    ensures
        pack_pixels(pixels.push(pixel)) == pack_pixels(pixels) + seq![pixel.0, pixel.1, pixel.2],
{
}

/// Unpacking packed colours gives the colours back.
pub proof fn lemma_unpack_pack(pixels: Seq<(u8, u8, u8)>)
    ensures
        unpack_pixels(pack_pixels(pixels)) == pixels,
{
}

/// Round trip: the frame of a valid message, whatever follows it in the
/// stream, parses as that message and as nothing more than the frame.
pub proof fn lemma_round_trip(message: MessageView, rest: Seq<u8>)
    requires
        message.is_valid(),
    ensures
        parse(frame(message) + rest) == (Parsed::Frame {
            message,
            consumed: frame(message).len(),
        }),
{
    let len = message.len();
    let bytes = frame(message) + rest;
    lemma_frame_len(message);
    let body = bytes.subrange(HEADER_SIZE as int, HEADER_SIZE + len);
    assert(body =~= payload(message.command));
    match message.command {
        CommandView::SetPixelColors { pixels } => {
            lemma_unpack_pack(pixels);
        },
        CommandView::SystemExclusive { id, data } => {
            assert(body.skip(2) =~= data);
        },
    }
}

/// Truncation: a pixel payload of `L` bytes holds `L / 3` colours, read from
/// its first `3 * (L / 3)` bytes; the `L % 3` bytes behind them change
/// nothing.
pub proof fn lemma_truncation(payload: Seq<u8>)
    ensures
        unpack_pixels(payload).len() == payload.len() / 3,
        unpack_pixels(payload) == unpack_pixels(payload.take(payload.len() - payload.len() % 3)),
        pack_pixels(unpack_pixels(payload)) == payload.take(payload.len() - payload.len() % 3),
{
}

/// Incomplete frames: the first `k` bytes of a stream are incomplete as long
/// as they stop short of the header's end or of the end of the payload that
/// the header announces. Decoding them takes nothing out of the buffer.
pub proof fn lemma_short_is_incomplete(bytes: Seq<u8>, k: int)
    requires
        0 <= k <= bytes.len(),
        k < HEADER_SIZE || k < HEADER_SIZE + announced_len(bytes),
    ensures
        parse(bytes.take(k)) == Parsed::Incomplete,
{
}

/// Retrying after more bytes have arrived: what a buffer means once its
/// first frame is complete does not depend on the bytes behind that frame.
/// So a buffer that grew from an incomplete one decodes as the complete
/// buffer does, however the bytes were cut on arrival.
pub proof fn lemma_more_bytes(bytes: Seq<u8>, more: Seq<u8>)
    requires
        parse(bytes) != Parsed::Incomplete,
    ensures
        parse(bytes + more) == parse(bytes),
{
    let len = announced_len(bytes);
    assert((bytes + more).subrange(HEADER_SIZE as int, HEADER_SIZE + len) =~= bytes.subrange(
        HEADER_SIZE as int,
        HEADER_SIZE + len,
    ));
}

/// Decodes the frame at the front of `bytes`.
///
/// Returns `Ok(None)` while the header or the announced payload is not all
/// there, the message and the number of bytes of its frame once it is, and an
/// error where the complete frame has an unknown command byte or a
/// system-exclusive payload too short for its identifier.
pub fn decode_frame(bytes: &[u8]) -> (r: Result<Option<(Message, usize)>, DecodeError>)
    ensures
        match parse(bytes@) {
            Parsed::Incomplete => r matches Ok(None),
            Parsed::Malformed(e) => r == Err::<Option<(Message, usize)>, DecodeError>(e),
            Parsed::Frame { message, consumed } => r matches Ok(Some((m, n))) && m@ == message
                && n == consumed,
        },
{
    if bytes.len() < HEADER_SIZE {
        return Ok(None);
    }
    let channel = bytes[0];
    let command = bytes[1];
    let length: usize = (bytes[2] as usize) * 256 + (bytes[3] as usize);
    if bytes.len() - HEADER_SIZE < length {
        return Ok(None);
    }
    let ghost body = bytes@.subrange(HEADER_SIZE as int, HEADER_SIZE + length);
    if command == SET_PIXEL_COLORS {
        let count: usize = length / 3;
        let mut pixels: Vec<[u8; 3]> = Vec::with_capacity(count);
        let mut i: usize = 0;
        while i < count
            invariant
                i <= count,
                count == length / 3,
                length <= 0xffff,
                HEADER_SIZE + length <= bytes@.len(),
                body == bytes@.subrange(HEADER_SIZE as int, HEADER_SIZE + length),
                pixels@.len() == i,
                pixels_view(pixels@) == unpack_pixels(body).take(i as int),
            decreases count - i,
        {
            let at: usize = HEADER_SIZE + 3 * i;
            let pixel: [u8; 3] = [bytes[at], bytes[at + 1], bytes[at + 2]];
            pixels.push(pixel);
            i += 1;
        }
        assert(unpack_pixels(body).take(i as int) =~= unpack_pixels(body));
        Ok(Some((Message { channel, command: Command::SetPixelColors { pixels } }, HEADER_SIZE + length)))
    } else if command == SYS_EXCLUSIVE {
        if length < 2 {
            return Err(DecodeError::MissingSystemId);
        }
        let id: [u8; 2] = [bytes[4], bytes[5]];
        let data = slice_to_vec(slice_subrange(bytes, HEADER_SIZE + 2, HEADER_SIZE + length));
        assert(data@ =~= body.skip(2));
        Ok(Some((Message { channel, command: Command::SystemExclusive { id, data } }, HEADER_SIZE + length)))
    } else {
        Err(DecodeError::UnknownCommand { command })
    }
}

} // verus!
