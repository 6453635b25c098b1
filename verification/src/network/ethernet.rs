//! Ethernet frame codec. A frame whose ethertype signals an 802.1Q or
//! 802.1ad tag carries four extra header bytes, so its payload starts at
//! byte 18 instead of 14.
use crate::error::{FormatError, Layer};
use crate::utils::{be16, bytes_range, read_be16};
use vstd::prelude::*;

verus! {

/// A decoded Ethernet frame: the two hardware addresses, the ethertype as
/// its big-endian value, and the payload that follows the header.
#[derive(Debug)]
pub struct EthernetFrame {
    pub dst: Vec<u8>,
    pub src: Vec<u8>,
    pub ethertype: u16,
    pub payload: Vec<u8>,
}

/// Whether the ethertype at bytes 12..14 signals an 802.1Q (0x8100) or
/// 802.1ad (0x88a8) tag.
pub open spec fn eth_tagged(s: Seq<u8>) -> bool {
    be16(s, 12) == 0x8100 || be16(s, 12) == 0x88a8
}

/// Where the payload starts: byte 18 for a tagged frame, byte 14 otherwise.
pub open spec fn eth_payload_start(s: Seq<u8>) -> int {
    if eth_tagged(s) {
        18
    } else {
        14
    }
}

/// Whether `s` holds a complete Ethernet header, tag included when the
/// ethertype declares one.
pub open spec fn eth_parse_ok(s: Seq<u8>) -> bool {
    s.len() >= 14 && s.len() >= eth_payload_start(s)
}

/// A tagged ethertype moves the payload start from 14 to 18; every other
/// ethertype keeps it at 14.
pub proof fn lemma_tagged_frame_payload_offset(s: Seq<u8>)
    ensures
        eth_tagged(s) ==> eth_payload_start(s) == 18,
        !eth_tagged(s) ==> eth_payload_start(s) == 14,
{
}

/// A buffer shorter than the 14-byte fixed header never decodes.
pub proof fn lemma_eth_min_length(s: Seq<u8>)
    ensures
        s.len() < 14 ==> !eth_parse_ok(s),
{
}

/// Decodes an Ethernet frame from `data`. Fails exactly when the buffer is
/// shorter than the 14-byte header, or than 18 bytes for a tagged frame.
pub fn parse_ethernet_frame(data: &[u8]) -> (r: Result<EthernetFrame, FormatError>)
    ensures
        r is Ok <==> eth_parse_ok(data@),
        r matches Err(e) ==> e.layer == Layer::Ethernet,
        r matches Ok(f) ==> {
            let s = data@;
            &&& f.dst@ == s.subrange(0, 6)
            &&& f.src@ == s.subrange(6, 12)
            &&& f.ethertype == be16(s, 12)
            &&& f.payload@ == s.subrange(eth_payload_start(s), s.len() as int)
        },
{
    if data.len() < 14 {
        return Err(FormatError { layer: Layer::Ethernet });
    }
    let ethertype = read_be16(data, 12);
    let payload_start: usize = if ethertype == 0x8100 || ethertype == 0x88a8 {
        18
    } else {
        14
    };
    if data.len() < payload_start {
        return Err(FormatError { layer: Layer::Ethernet });
    }
    let dst = bytes_range(data, 0, 6);
    let src = bytes_range(data, 6, 12);
    let payload = bytes_range(data, payload_start, data.len());
    Ok(EthernetFrame { dst, src, ethertype, payload })
}

} // verus!
