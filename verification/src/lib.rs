//! Arithmetic for IPv4 and IPv6 addresses, CIDR blocks and address ranges.
//!
//! An address is a fixed-width unsigned integer: 32 bits for IPv4, 128 bits
//! for IPv6. A CIDR block (`Ipv4Pool`, `Ipv6Pool`) is the set of addresses
//! that share the top `prefix_length` bits with a given address; a cross
//! range (`CrossIpv4Pool`, `CrossIpv6Pool`) is an arbitrary inclusive
//! `start..=end` interval. Both expose a one-shot forward cursor over every
//! address they hold, together with containment, size and derived-address
//! queries. Every operation is specified and verified down to the bit level,
//! including the two classic edge cases: a prefix length of zero (a block of
//! the whole address space, whose size does not fit the address width) and a
//! prefix length equal to the width (a block of exactly one address).

use vstd::prelude::*;

pub mod addr_v4;
pub mod addr_v6;
pub mod cross_v4;
pub mod cross_v6;
pub mod mask;
pub mod pool_v4;
pub mod pool_v6;
pub mod text;

verus! {

/// The closed set of failures that construction and parsing return.
/// No operation of this library panics on malformed input.
#[derive(Debug)]
pub enum SubnetworkError {
    /// Malformed textual input: wrong field count, a missing or extra
    /// separator, or a field that is not a number of the expected shape.
    /// Carries the offending text.
    InvalidInput { detail: String },
    /// A prefix length that exceeds the bit width of the address family.
    InvalidPrefixLength { prefix: u8, max: u8 },
    /// A range whose start lies above its end. The two bounds are carried
    /// widened to 128 bits, so that both families share the variant.
    InvalidRange { start: u128, end: u128 },
    /// Text that is not a syntactically valid address. Carries the
    /// offending text.
    AddressParseError { detail: String },
}

} // verus!
