//! The codec: frames messages into a `BytesMut` and takes them out of one.

use crate::buffer::{append, buffered, contents, reserve, split_front};
use crate::message::{Command, Message, MessageView, pixels_view, SET_PIXEL_COLORS, SYS_EXCLUSIVE};
use crate::wire::{
    decode_frame, frame, lemma_pack_push, pack_pixels, parse, DecodeError, Parsed,
    HEADER_SIZE,
};
use bytes::BytesMut;
use vstd::prelude::*;

verus! {

/// Why a message was not framed.
#[derive(Clone, Copy, Debug, PartialEq, Eq)]
pub enum EncodeError {
    /// The payload is longer than the 16-bit length field can announce.
    Oversized,
    /// The buffer cannot grow by the length of the frame.
    BufferFull,
}

/// Whether a buffer that holds `held` can take the frame of `message` as
/// well: no buffer is longer than `isize::MAX` bytes.
pub open spec fn fits(held: Seq<u8>, message: MessageView) -> bool {
    held.len() + HEADER_SIZE + message.len() <= isize::MAX
}

/// The Open Pixel Control codec. It keeps no state between calls.
pub struct OpcCodec;

impl OpcCodec {
    /// Takes the frame at the front of `src` out of it and returns its
    /// message.
    ///
    /// While the frame is incomplete the result is `Ok(None)`; where the
    /// complete frame breaks the format the result is its error. In both
    /// cases `src` keeps every byte, so that the caller can read more and
    /// call again, or give the connection up.
    pub fn decode(&mut self, src: &mut BytesMut) -> (r: Result<Option<Message>, DecodeError>)
        ensures
            match parse(contents(*old(src))) {
                Parsed::Incomplete => r matches Ok(None) && contents(*final(src)) == contents(
                    *old(src),
                ),
                Parsed::Malformed(e) => r == Err::<Option<Message>, DecodeError>(e) && contents(
                    *final(src),
                ) == contents(*old(src)),
                Parsed::Frame { message, consumed } => r matches Ok(Some(m)) && m@ == message
                    && contents(*final(src)) == contents(*old(src)).skip(consumed as int),
            },
    {
        match decode_frame(buffered(src)) {
            Err(e) => Err(e),
            Ok(None) => Ok(None),
            Ok(Some((msg, consumed))) => {
                let _ = split_front(src, consumed);
                Ok(Some(msg))
            },
        }
    }

    /// Writes the frame of `msg` behind what `dst` holds.
    ///
    /// A message whose payload does not fit the length field is refused with
    /// `Oversized`, and a frame for which the buffer has no room with
    /// `BufferFull`, before anything is written: `dst` then holds what it
    /// held.
    pub fn encode(&mut self, msg: Message, dst: &mut BytesMut) -> (r: Result<(), EncodeError>)
        ensures
            !msg@.is_valid() ==> r == Err::<(), EncodeError>(EncodeError::Oversized) && contents(
                *final(dst),
            ) == contents(*old(dst)),
            msg@.is_valid() && !fits(contents(*old(dst)), msg@) ==> r == Err::<(), EncodeError>(
                EncodeError::BufferFull,
            ) && contents(*final(dst)) == contents(*old(dst)),
            msg@.is_valid() && fits(contents(*old(dst)), msg@) ==> r == Ok::<(), EncodeError>(())
                && contents(*final(dst)) == contents(*old(dst)) + frame(msg@),
    {
        if !msg.is_valid() {
            return Err(EncodeError::Oversized);
        }
        let ser_len = msg.len();
        let limit: usize = isize::MAX as usize;
        if buffered(dst).len() > limit - HEADER_SIZE - ser_len {
            return Err(EncodeError::BufferFull);
        }
        let ghost before = contents(*dst);
        reserve(dst, HEADER_SIZE + ser_len);
        let high: u8 = (ser_len / 256) as u8;
        let low: u8 = (ser_len % 256) as u8;
        match msg.command {
            Command::SetPixelColors { pixels } => {
                let head: [u8; 4] = [msg.channel, SET_PIXEL_COLORS, high, low];
                append(dst, head.as_slice());
                let ghost colours = pixels_view(pixels@);
                let mut i: usize = 0;
                while i < pixels.len()
                    invariant
                        i <= pixels.len(),
                        3 * pixels.len() == ser_len,
                        before.len() + HEADER_SIZE + ser_len <= isize::MAX,
                        colours == pixels_view(pixels@),
                        contents(*dst) == before + head@ + pack_pixels(colours.take(i as int)),
                    decreases pixels.len() - i,
                {
                    let pixel: &[u8; 3] = &pixels[i];
                    proof {
                        lemma_pack_push(colours.take(i as int), colours[i as int]);
                    }
                    append(dst, pixel.as_slice());
                    i += 1;
                }
            },
            Command::SystemExclusive { id, data } => {
                let head: [u8; 4] = [msg.channel, SYS_EXCLUSIVE, high, low];
                append(dst, head.as_slice());
                append(dst, id.as_slice());
                append(dst, data.as_slice());
            },
        }
        Ok(())
    }
}

} // verus!
