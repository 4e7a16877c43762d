//! The protocols over which a peer can be reached.

use vstd::prelude::*;

verus! {

/// A protocol over which a peer can be reached.
#[derive(Clone, Copy, PartialEq, PartialOrd, Eq, Ord, Debug, Structural)]
pub enum Protocol {
    Dumb,
    Wss,
    Rtc,
    Ws,
}

impl Protocol {
    /// The number that stands for the protocol on the wire: each protocol
    /// has a bit of its own, but for the dumb one, which has none.
    pub open spec fn code(self) -> u8 {
        match self {
            Protocol::Dumb => 0,
            Protocol::Wss => 1,
            Protocol::Rtc => 2,
            Protocol::Ws => 4,
        }
    }

    /// The number that stands for the protocol on the wire.
    pub fn to_u8(self) -> (code: u8)
        ensures
            code == self.code(),
    {
        match self {
            Protocol::Dumb => 0,
            Protocol::Wss => 1,
            Protocol::Rtc => 2,
            Protocol::Ws => 4,
        }
    }

    /// The protocol that `code` stands for, if it stands for one.
    pub fn from_u8(code: u8) -> (protocol: Option<Protocol>)
        ensures
            match protocol {
                Some(protocol) => protocol.code() == code,
                None => forall|protocol: Protocol| protocol.code() != code,
            },
    {
        match code {
            0 => Some(Protocol::Dumb),
            1 => Some(Protocol::Wss),
            2 => Some(Protocol::Rtc),
            4 => Some(Protocol::Ws),
            _ => None,
        }
    }
}

/// Two protocols with one number are one protocol.
pub proof fn law_code_is_injective(a: Protocol, b: Protocol)
    requires
        a.code() == b.code(),
    ensures
        a == b,
{
}

} // verus!
