//! The message model: a channel and one of two commands, with the size rules
//! that the 16-bit length field of a frame imposes.

use vstd::prelude::*;
use vstd::slice::slice_to_vec;

verus! {

/// Default TCP port of an Open Pixel Control server.
pub const DEFAULT_OPC_PORT: usize = 7890;

/// The largest payload that the length field of a frame can announce.
pub const MAX_MESSAGE_SIZE: usize = 0xffff;

/// Command byte of a frame that carries a system-specific message.
pub const SYS_EXCLUSIVE: u8 = 0xff;

/// Command byte of a frame that sets pixel colours.
pub const SET_PIXEL_COLORS: u8 = 0x00;

/// The channel that addresses every device.
pub const BROADCAST_CHANNEL: u8 = 0;

/// An OPC command.
#[derive(Clone, Debug, PartialEq)]
pub enum Command {
    /// Sets the first pixels of the addressed strand, one red, green, blue
    /// triple each; pixels beyond those given keep their colour.
    SetPixelColors {
        /// The colours, in strand order.
        pixels: Vec<[u8; 3]>,
    },
    /// A message for one particular device or software system.
    SystemExclusive {
        /// The two-byte system identifier.
        id: [u8; 2],
        /// The data block, whose format the identified system defines.
        data: Vec<u8>,
    },
}

/// A single OPC message.
#[derive(Clone, Debug, PartialEq)]
pub struct Message {
    /// The strand addressed: 0 is broadcast, 1 to 255 name one strand each.
    pub channel: u8,
    /// What the message asks for.
    pub command: Command,
}

/// What a `Command` stands for: colours as triples, the system identifier as
/// a pair.
pub enum CommandView {
    SetPixelColors { pixels: Seq<(u8, u8, u8)> },
    SystemExclusive { id: (u8, u8), data: Seq<u8> },
}

/// What a `Message` stands for.
pub struct MessageView {
    pub channel: u8,
    pub command: CommandView,
}

impl CommandView {
    /// The command byte that announces this command in a frame.
    pub open spec fn tag(self) -> u8 {
        match self {
            CommandView::SetPixelColors { .. } => SET_PIXEL_COLORS,
            CommandView::SystemExclusive { .. } => SYS_EXCLUSIVE,
        }
    }

    /// The number of payload bytes that the command occupies in a frame.
    pub open spec fn len(self) -> nat {
        match self {
            CommandView::SetPixelColors { pixels } => 3 * pixels.len(),
            CommandView::SystemExclusive { id, data } => 2 + data.len(),
        }
    }
}

impl MessageView {
    /// The length of the message's payload in bytes.
    pub open spec fn len(self) -> nat {
        self.command.len()
    }

    /// Whether the payload length fits the 16-bit length field.
    pub open spec fn is_valid(self) -> bool {
        self.len() <= MAX_MESSAGE_SIZE
    }

    /// Whether the message addresses every device.
    pub open spec fn is_broadcast(self) -> bool {
        self.channel == BROADCAST_CHANNEL
    }
}

/// One colour as a triple of red, green and blue.
pub open spec fn pixel_view(pixel: [u8; 3]) -> (u8, u8, u8) {
    (pixel[0], pixel[1], pixel[2])
}

/// The colours of a pixel list as triples.
pub open spec fn pixels_view(pixels: Seq<[u8; 3]>) -> Seq<(u8, u8, u8)> {
    Seq::new(pixels.len(), |i: int| pixel_view(pixels[i]))
}

impl View for Command {
    type V = CommandView;

    open spec fn view(&self) -> CommandView {
        match *self {
            Command::SetPixelColors { pixels } => CommandView::SetPixelColors {
                pixels: pixels_view(pixels@),
            },
            Command::SystemExclusive { id, data } => CommandView::SystemExclusive {
                id: (id[0], id[1]),
                data: data@,
            },
        }
    }
}

impl View for Message {
    type V = MessageView;

    open spec fn view(&self) -> MessageView {
        MessageView { channel: self.channel, command: self.command@ }
    }
}

impl Message {
    /// A message that sets the first pixels of channel `ch` to the given
    /// colours.
    pub fn from_pixels(ch: u8, pixels: &[[u8; 3]]) -> (m: Message)
        ensures
            m.channel == ch,
            m.command matches Command::SetPixelColors { pixels: p } && p@ == pixels@,
            m@ == (MessageView {
                channel: ch,
                command: CommandView::SetPixelColors { pixels: pixels_view(pixels@) },
            }),
    {
        Message { channel: ch, command: Command::SetPixelColors { pixels: slice_to_vec(pixels) } }
    }

    /// A system-exclusive message for channel `ch`, with the system
    /// identifier `id` and the data block `data`.
    pub fn from_data(ch: u8, id: &[u8; 2], data: &[u8]) -> (m: Message)
        ensures
            m.channel == ch,
            m.command matches Command::SystemExclusive { id: i, data: d } && i == *id && d@
                == data@,
            m@ == (MessageView {
                channel: ch,
                command: CommandView::SystemExclusive { id: (id[0], id[1]), data: data@ },
            }),
    {
        Message {
            channel: ch,
            command: Command::SystemExclusive { id: *id, data: slice_to_vec(data) },
        }
    }

    /// The length of the payload in bytes: three for each pixel, or two more
    /// than the data block.
    pub fn len(&self) -> (n: usize)
        requires
            self@.len() <= usize::MAX,
        ensures
            n == self@.len(),
    {
        match &self.command {
            Command::SetPixelColors { pixels } => pixels.len() * 3,
            Command::SystemExclusive { id: _, data } => data.len() + 2,
        }
    }

    /// Whether the message can be framed: its payload length fits 16 bits.
    pub fn is_valid(&self) -> (valid: bool)
        ensures
            valid == self@.is_valid(),
    {
        match &self.command {
            Command::SetPixelColors { pixels } => pixels.len() <= MAX_MESSAGE_SIZE / 3,
            Command::SystemExclusive { id: _, data } => data.len() <= MAX_MESSAGE_SIZE - 2,
        }
    }

    /// Whether the message is a broadcast, addressed to every device.
    pub fn is_broadcast(&self) -> (broadcast: bool)
        ensures
            broadcast == self@.is_broadcast(),
    {
        self.channel == BROADCAST_CHANNEL
    }
}

} // verus!
