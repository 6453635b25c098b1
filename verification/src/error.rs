//! Error taxonomy of the decoding surface. Malformed or truncated bytes give
//! a `FormatError` naming the layer that refused them; a frame whose
//! ethertype no codec handles gives `Unsupported` with the raw type code.
use vstd::prelude::*;

verus! {

/// The protocol layer at which a decode failed.
#[derive(Clone, Copy, Debug, PartialEq, Eq, Structural)]
pub enum Layer {
    Ethernet,
    Ipv4,
    Ipv6,
    Udp,
    Dns,
}

/// Malformed or truncated bytes, scoped to the single packet or message
/// being decoded; recoverable by dropping that packet.
#[derive(Clone, Copy, Debug, PartialEq, Eq, Structural)]
pub struct FormatError {
    pub layer: Layer,
}

/// Why a captured frame produced no event: either a layer rejected its
/// bytes, or the frame's ethertype is one this decoder does not handle
/// (the raw code is kept for diagnostics).
#[derive(Clone, Copy, Debug, PartialEq, Eq, Structural)]
pub enum DemuxError {
    Format(FormatError),
    Unsupported(u16),
}

} // verus!
