//! Routing of a decoded message to the devices of an endpoint.
//!
//! A device is known here by the channel it listens on and by its position in
//! the order of registration. The dispatcher decides which device is handed
//! the message next; the caller makes the delivery and reports how it went.

use crate::message::{Message, MessageView};
use vstd::prelude::*;

verus! {

/// What the caller reports to the dispatcher.
#[derive(Clone, Copy, Debug, PartialEq, Eq)]
pub enum Event {
    /// A message has arrived and nothing was delivered yet.
    Start,
    /// The device at this position took the message.
    Delivered { device: usize },
    /// The device at this position reported an error.
    Failed { device: usize },
}

/// What the dispatcher asks of the caller.
#[derive(Clone, Copy, Debug, PartialEq, Eq)]
pub enum Action {
    /// Hand the message to the device at this position.
    Deliver { device: usize },
    /// Every device that the message is for has taken it.
    Done,
    /// Stop, and report the error of the device at this position.
    Abort { device: usize },
}

/// The routing rule: a device gets a broadcast, and a message sent to its
/// own channel.
pub open spec fn accepts(channel: u8, message: MessageView) -> bool {
    message.is_broadcast() || channel == message.channel
}

/// The first device at or behind position `from` that the message is for.
pub open spec fn next_from(channels: Seq<u8>, message: MessageView, from: int) -> Action
    decreases channels.len() - from,
{
    if from < 0 || from >= channels.len() {
        Action::Done
    } else if accepts(channels[from], message) {
        Action::Deliver { device: from as usize }
    } else {
        next_from(channels, message, from + 1)
    }
}

/// The dispatcher's answer to an event.
pub open spec fn step(channels: Seq<u8>, message: MessageView, event: Event) -> Action {
    match event {
        Event::Start => next_from(channels, message, 0),
        Event::Delivered { device } => next_from(channels, message, device + 1),
        Event::Failed { device } => Action::Abort { device },
    }
}

/// The devices that are handed the message in one pass which starts at
/// position `from`, in the order of delivery, where `ok[i]` says whether the
/// device at position `i` takes a message.
pub open spec fn invoked(channels: Seq<u8>, message: MessageView, ok: Seq<bool>, from: int) -> Seq<
    int,
>
    decreases channels.len() - from,
{
    if from < 0 || from >= channels.len() {
        Seq::empty()
    } else if !accepts(channels[from], message) {
        invoked(channels, message, ok, from + 1)
    } else if ok[from] {
        seq![from] + invoked(channels, message, ok, from + 1)
    } else {
        seq![from]
    }
}

/// The devices of one endpoint, in the order of their registration.
pub struct Dispatcher {
    channels: Vec<u8>,
}

impl View for Dispatcher {
    type V = Seq<u8>;

    /// The channel of each registered device, first registered first.
    closed spec fn view(&self) -> Seq<u8> {
        self.channels@
    }
}

impl Dispatcher {
    /// A dispatcher without devices.
    pub fn new() -> (d: Dispatcher)
        ensures
            d@ == Seq::<u8>::empty(),
    {
        Dispatcher { channels: Vec::new() }
    }

    /// Registers a device that listens on `channel`, behind those registered
    /// before, and returns its position.
    pub fn register(&mut self, channel: u8) -> (device: usize)
        ensures
            final(self)@ == old(self)@.push(channel),
            device == old(self)@.len(),
    {
        let device = self.channels.len();
        self.channels.push(channel);
        device
    }

    /// The number of registered devices.
    pub fn len(&self) -> (n: usize)
        ensures
            n == self@.len(),
    {
        self.channels.len()
    }

    /// The channel of the device at position `device`, if there is one.
    pub fn channel(&self, device: usize) -> (c: Option<u8>)
        ensures
            c == if device < self@.len() {
                Some(self@[device as int])
            } else {
                None
            },
    {
        if device < self.channels.len() {
            Some(self.channels[device])
        } else {
            None
        }
    }

    /// The positions of the devices that `msg` is for, in the order of
    /// registration.
    pub fn recipients(&self, msg: &Message) -> (devices: Vec<usize>)
        ensures
            forall|k: int|
                0 <= k < devices@.len() ==> (#[trigger] devices@[k]) < self@.len() && accepts(
                    self@[devices@[k] as int],
                    msg@,
                ),
            forall|j: int, k: int| 0 <= j < k < devices@.len() ==> devices@[j] < devices@[k],
            forall|i: int|
                0 <= i < self@.len() && accepts(#[trigger] self@[i], msg@) ==> devices@.contains(
                    i as usize,
                ),
    {
        let mut devices: Vec<usize> = Vec::new();
        let mut i: usize = 0;
        while i < self.channels.len()
            invariant
                i <= self.channels@.len(),
                forall|k: int|
                    0 <= k < devices@.len() ==> (#[trigger] devices@[k]) < i && accepts(
                        self@[devices@[k] as int],
                        msg@,
                    ),
                forall|j: int, k: int| 0 <= j < k < devices@.len() ==> devices@[j] < devices@[k],
                forall|h: int|
                    0 <= h < i && accepts(#[trigger] self@[h], msg@) ==> devices@.contains(
                        h as usize,
                    ),
            decreases self.channels@.len() - i,
        {
            if msg.is_broadcast() || self.channels[i] == msg.channel {
                let ghost before = devices@;
                devices.push(i);
                assert(devices@[before.len() as int] == i);
                assert forall|h: int|
                    0 <= h < i + 1 && accepts(#[trigger] self@[h], msg@) implies devices@.contains(
                    h as usize,
                ) by {
                    if h < i {
                        let k = choose|k: int| 0 <= k < before.len() && before[k] == h as usize;
                        assert(devices@[k] == h as usize);
                    }
                }
            }
            i += 1;
        }
        devices
    }

    /// What to do next with `msg` after `event`.
    ///
    /// At the start, and after a delivery that went well, the answer is the
    /// next device that the message is for, or `Done` when there is none
    /// left. After a failed delivery it is `Abort`: no further device is
    /// handed the message.
    pub fn advance(&self, msg: &Message, event: Event) -> (action: Action)
        ensures
            action == step(self@, msg@, event),
    {
        let start: usize = match event {
            Event::Failed { device } => {
                return Action::Abort { device };
            },
            Event::Start => 0,
            Event::Delivered { device } => {
                if device >= self.channels.len() {
                    return Action::Done;
                }
                device + 1
            },
        };
        let mut i: usize = start;
        while i < self.channels.len()
            invariant
                next_from(self@, msg@, i as int) == step(self@, msg@, event),
            decreases self.channels@.len() - i,
        {
            if msg.is_broadcast() || self.channels[i] == msg.channel {
                return Action::Deliver { device: i };
            }
            i += 1;
        }
        Action::Done
    }
}

/// Routing: a broadcast is for every device, whatever its channel; any other
/// message is for exactly the devices on the message's channel.
pub proof fn lemma_routing(channel: u8, message: MessageView)
    ensures
        message.channel == 0 ==> accepts(channel, message),
        message.channel != 0 ==> (accepts(channel, message) <==> channel == message.channel),
{
}

/// A pass is the run of the dispatcher's answers: it is empty where the
/// answer at `from` is `Done`; else it begins with the device that the answer
/// names, and goes on behind that device if the delivery went well.
pub proof fn lemma_pass_follows_steps(
    channels: Seq<u8>,
    message: MessageView,
    ok: Seq<bool>,
    from: int,
)
    requires
        0 <= from,
        channels.len() <= usize::MAX,
    ensures
        invoked(channels, message, ok, from) == match next_from(channels, message, from) {
            Action::Deliver { device } => if ok[device as int] {
                seq![device as int] + invoked(channels, message, ok, device + 1)
            } else {
                seq![device as int]
            },
            _ => Seq::<int>::empty(),
        },
        next_from(channels, message, from) matches Action::Deliver { device } ==> from <= device
            < channels.len() && accepts(channels[device as int], message),
        !(next_from(channels, message, from) is Abort),
    decreases channels.len() - from,
{
    if from < channels.len() && !accepts(channels[from], message) {
        lemma_pass_follows_steps(channels, message, ok, from + 1);
    }
}

/// Every device of a pass is at or behind the position where the pass
/// started, is one that the message is for, and comes behind the devices
/// before it in the pass; all but the last took the message.
pub proof fn lemma_pass_in_order(
    channels: Seq<u8>,
    message: MessageView,
    ok: Seq<bool>,
    from: int,
)
    requires
        0 <= from,
    ensures
        forall|k: int|
            0 <= k < invoked(channels, message, ok, from).len() ==> {
                let device = #[trigger] invoked(channels, message, ok, from)[k];
                from <= device < channels.len() && accepts(channels[device], message)
            },
        forall|j: int, k: int|
            0 <= j < k < invoked(channels, message, ok, from).len() ==> invoked(
                channels,
                message,
                ok,
                from,
            )[j] < invoked(channels, message, ok, from)[k],
        forall|k: int|
            0 <= k < invoked(channels, message, ok, from).len() - 1 ==> ok[#[trigger] invoked(
                channels,
                message,
                ok,
                from,
            )[k]],
    decreases channels.len() - from,
{
    if from < channels.len() {
        lemma_pass_in_order(channels, message, ok, from + 1);
        let rest = invoked(channels, message, ok, from + 1);
        let pass = invoked(channels, message, ok, from);
        if accepts(channels[from], message) && ok[from] {
            assert forall|k: int| 0 < k < pass.len() implies pass[k] == rest[k - 1] by {}
        }
    }
}

/// Fail fast: once a device that was handed the message reports an error, no
/// device registered behind it is handed the message.
pub proof fn lemma_fail_fast(
    channels: Seq<u8>,
    message: MessageView,
    ok: Seq<bool>,
    failed: int,
    later: int,
)
    requires
        invoked(channels, message, ok, 0).contains(failed),
        !ok[failed],
        failed < later,
    ensures
        !invoked(channels, message, ok, 0).contains(later),
{
    let pass = invoked(channels, message, ok, 0);
    lemma_pass_in_order(channels, message, ok, 0);
    if pass.contains(later) {
        let j = choose|j: int| 0 <= j < pass.len() && pass[j] == failed;
        let k = choose|k: int| 0 <= k < pass.len() && pass[k] == later;
        assert(j < k || k < j);
    }
}

/// Where every delivery goes well, a pass hands the message to each device
/// that it is for, and to no other.
pub proof fn lemma_pass_reaches_all(
    channels: Seq<u8>,
    message: MessageView,
    ok: Seq<bool>,
    from: int,
    device: int,
)
    requires
        0 <= from <= device < channels.len(),
        forall|i: int| 0 <= i < channels.len() ==> ok[i],
    ensures
        invoked(channels, message, ok, from).contains(device) <==> accepts(
            channels[device],
            message,
        ),
    decreases channels.len() - from,
{
    let pass = invoked(channels, message, ok, from);
    lemma_pass_in_order(channels, message, ok, from);
    if from < device {
        lemma_pass_reaches_all(channels, message, ok, from + 1, device);
        let rest = invoked(channels, message, ok, from + 1);
        if accepts(channels[from], message) {
            if rest.contains(device) {
                let k = choose|k: int| 0 <= k < rest.len() && rest[k] == device;
                assert(pass[k + 1] == device);
            }
        }
    } else {
        if accepts(channels[from], message) {
            assert(pass[0] == device);
        }
    }
}

} // verus!
