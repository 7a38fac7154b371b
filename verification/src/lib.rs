//! Open Pixel Control: a length-prefixed binary protocol that addresses banks
//! of RGB pixels over a byte stream.
//!
//! The crate holds the message model, the frame codec over a `BytesMut`
//! buffer, and the routing rules by which a receiving endpoint hands a decoded
//! message to its devices. Every function is verified against a mathematical
//! model of the wire format.

pub mod buffer;
pub mod codec;
pub mod dispatch;
pub mod message;
pub mod wire;

pub use codec::{EncodeError, OpcCodec};
pub use dispatch::{Action, Dispatcher, Event};
pub use message::{Command, CommandView, Message, MessageView};
pub use wire::{decode_frame, DecodeError, Parsed};
