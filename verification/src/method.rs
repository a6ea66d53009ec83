//! The methods that one side waits for.
use vstd::prelude::*;

use crate::frame::{CLASS_BASIC, CLASS_CHANNEL, CLASS_CONNECTION, CLASS_QUEUE};

verus! {

/// A method whose turn it is.
#[derive(Clone, Copy, Debug, PartialEq, Eq)]
pub enum Awaited {
    ConnectionStart,
    ConnectionStartOk,
    ConnectionTune,
    ConnectionTuneOk,
    ConnectionOpen,
    ConnectionOpenOk,
    ConnectionCloseOk,
    ChannelOpenOk,
    QueueDeclareOk,
    BasicConsumeOk,
}

impl Awaited {
    /// The channel, the class and the method that it has on the wire.
    pub open spec fn address(self) -> (u16, u16, u16) {
        match self {
            Awaited::ConnectionStart => (0, CLASS_CONNECTION, 10),
            Awaited::ConnectionStartOk => (0, CLASS_CONNECTION, 11),
            Awaited::ConnectionTune => (0, CLASS_CONNECTION, 30),
            Awaited::ConnectionTuneOk => (0, CLASS_CONNECTION, 31),
            Awaited::ConnectionOpen => (0, CLASS_CONNECTION, 40),
            Awaited::ConnectionOpenOk => (0, CLASS_CONNECTION, 41),
            Awaited::ConnectionCloseOk => (0, CLASS_CONNECTION, 51),
            Awaited::ChannelOpenOk => (1, CLASS_CHANNEL, 11),
            Awaited::QueueDeclareOk => (1, CLASS_QUEUE, 11),
            Awaited::BasicConsumeOk => (1, CLASS_BASIC, 21),
        }
    }

    /// Its name in the protocol.
    pub open spec fn name(self) -> Seq<char> {
        match self {
            Awaited::ConnectionStart => "connection.start"@,
            Awaited::ConnectionStartOk => "connection.start-ok"@,
            Awaited::ConnectionTune => "connection.tune"@,
            Awaited::ConnectionTuneOk => "connection.tune-ok"@,
            Awaited::ConnectionOpen => "connection.open"@,
            Awaited::ConnectionOpenOk => "connection.open-ok"@,
            Awaited::ConnectionCloseOk => "connection.close-ok"@,
            Awaited::ChannelOpenOk => "channel.open-ok"@,
            Awaited::QueueDeclareOk => "queue.declare-ok"@,
            Awaited::BasicConsumeOk => "basic.consume-ok"@,
        }
    }

    /// Whether `class.method` on `channel` is this method.
    pub fn has_address(&self, channel: u16, class: u16, method: u16) -> (same: bool)
        ensures
            same == ((channel, class, method) == self.address()),
    {
        let (c, cl, m): (u16, u16, u16) = match self {
            Awaited::ConnectionStart => (0, CLASS_CONNECTION, 10),
            Awaited::ConnectionStartOk => (0, CLASS_CONNECTION, 11),
            Awaited::ConnectionTune => (0, CLASS_CONNECTION, 30),
            Awaited::ConnectionTuneOk => (0, CLASS_CONNECTION, 31),
            Awaited::ConnectionOpen => (0, CLASS_CONNECTION, 40),
            Awaited::ConnectionOpenOk => (0, CLASS_CONNECTION, 41),
            Awaited::ConnectionCloseOk => (0, CLASS_CONNECTION, 51),
            Awaited::ChannelOpenOk => (1, CLASS_CHANNEL, 11),
            Awaited::QueueDeclareOk => (1, CLASS_QUEUE, 11),
            Awaited::BasicConsumeOk => (1, CLASS_BASIC, 21),
        };
        c == channel && cl == class && m == method
    }

    /// Its name in the protocol.
    pub fn what(&self) -> (name: &'static str)
        ensures
            name@ == self.name(),
    {
        match self {
            Awaited::ConnectionStart => "connection.start",
            Awaited::ConnectionStartOk => "connection.start-ok",
            Awaited::ConnectionTune => "connection.tune",
            Awaited::ConnectionTuneOk => "connection.tune-ok",
            Awaited::ConnectionOpen => "connection.open",
            Awaited::ConnectionOpenOk => "connection.open-ok",
            Awaited::ConnectionCloseOk => "connection.close-ok",
            Awaited::ChannelOpenOk => "channel.open-ok",
            Awaited::QueueDeclareOk => "queue.declare-ok",
            Awaited::BasicConsumeOk => "basic.consume-ok",
        }
    }
}

/// Every method that is waited for has the channel, the class and the method
/// number that the protocol gives it, and its name there.
pub proof fn methods_have_their_numbers_and_names(awaited: Awaited)
    ensures
        (awaited.address(), awaited.name()) == match awaited {
            Awaited::ConnectionStart => ((0u16, 10u16, 10u16), "connection.start"@),
            Awaited::ConnectionStartOk => ((0u16, 10u16, 11u16), "connection.start-ok"@),
            Awaited::ConnectionTune => ((0u16, 10u16, 30u16), "connection.tune"@),
            Awaited::ConnectionTuneOk => ((0u16, 10u16, 31u16), "connection.tune-ok"@),
            Awaited::ConnectionOpen => ((0u16, 10u16, 40u16), "connection.open"@),
            Awaited::ConnectionOpenOk => ((0u16, 10u16, 41u16), "connection.open-ok"@),
            Awaited::ConnectionCloseOk => ((0u16, 10u16, 51u16), "connection.close-ok"@),
            Awaited::ChannelOpenOk => ((1u16, 20u16, 11u16), "channel.open-ok"@),
            Awaited::QueueDeclareOk => ((1u16, 50u16, 11u16), "queue.declare-ok"@),
            Awaited::BasicConsumeOk => ((1u16, 60u16, 21u16), "basic.consume-ok"@),
        },
{
}

} // verus!
