//! Plain-value models of the network-facing identities the core reasons
//! about: an IP address and a player's game profile.

use vstd::prelude::*;

verus! {

/// An IP address, held as its numeric value: a v4 address as its 32 bits,
/// a v6 address as its 128 bits.
#[derive(Clone, Copy, Debug, PartialEq, Eq, Structural)]
pub enum IpAddress {
    V4(u32),
    V6(u128),
}

impl IpAddress {
    /// The all-zero address of either family, which would match every
    /// connecting client.
    pub open spec fn spec_is_unspecified(self) -> bool {
        match self {
            IpAddress::V4(bits) => bits == 0,
            IpAddress::V6(bits) => bits == 0,
        }
    }

    /// Whether this is the all-zero address of its family.
    pub fn is_unspecified(&self) -> (r: bool)
        ensures
            r == self.spec_is_unspecified(),
    {
        match self {
            IpAddress::V4(bits) => *bits == 0,
            IpAddress::V6(bits) => *bits == 0,
        }
    }

    /// A loopback address: anything in 127.0.0.0/8 for v4, ::1 for v6.
    pub open spec fn spec_is_loopback(self) -> bool {
        match self {
            IpAddress::V4(bits) => bits / 0x1000000 == 127,
            IpAddress::V6(bits) => bits == 1,
        }
    }

    /// Whether this address only ever designates the local machine.
    pub fn is_loopback(&self) -> (r: bool)
        ensures
            r == self.spec_is_loopback(),
    {
        match self {
            IpAddress::V4(bits) => *bits / 0x1000000 == 127,
            IpAddress::V6(bits) => *bits == 1,
        }
    }
}

/// The identity a connecting player claims: a stable unique id together
/// with a display name.
#[derive(Debug, PartialEq, Eq)]
pub struct GameProfile {
    /// The player's 128-bit unique id.
    pub id: u128,
    /// The player's display name.
    pub name: String,
}

/// The all-zero player id, which no real account carries.
pub open spec fn spec_uuid_is_nil(id: u128) -> bool {
    id == 0
}

} // verus!
