//! UDP datagram codec. The checksum is retained but never verified; a
//! declared length that disagrees with the buffer is a format error, not a
//! panic.
use crate::error::{FormatError, Layer};
use crate::utils::{be16, bytes_range, read_be16};
use vstd::prelude::*;

verus! {

/// A decoded UDP datagram: ports, the declared length, the (unverified)
/// checksum, and the payload bytes after the 8-byte header.
#[derive(Debug)]
pub struct UdpDatagram {
    pub src: u16,
    pub dst: u16,
    pub length: u16,
    pub checksum: u16,
    pub data: Vec<u8>,
}

/// Whether `s` holds the 8-byte UDP header and its declared length matches
/// the buffer, so that the payload is exactly `length - 8` bytes.
pub open spec fn udp_parse_ok(s: Seq<u8>) -> bool {
    s.len() >= 8 && be16(s, 4) == s.len()
}

/// A buffer shorter than the 8-byte header never decodes.
pub proof fn lemma_udp_min_length(s: Seq<u8>)
    ensures
        s.len() < 8 ==> !udp_parse_ok(s),
{
}

/// Decodes a UDP datagram from `data`. Fails exactly when the buffer is
/// shorter than the 8-byte header or the remainder is not `length - 8`
/// bytes long.
pub fn parse_udp_packet(data: &[u8]) -> (r: Result<UdpDatagram, FormatError>)
    ensures
        r is Ok <==> udp_parse_ok(data@),
        r matches Err(e) ==> e.layer == Layer::Udp,
        r matches Ok(d) ==> {
            let s = data@;
            &&& d.src == be16(s, 0)
            &&& d.dst == be16(s, 2)
            &&& d.length == be16(s, 4)
            &&& d.checksum == be16(s, 6)
            &&& d.data@ == s.subrange(8, s.len() as int)
        },
{
    if data.len() < 8 {
        return Err(FormatError { layer: Layer::Udp });
    }
    let length = read_be16(data, 4);
    if length as usize != data.len() {
        return Err(FormatError { layer: Layer::Udp });
    }
    let src = read_be16(data, 0);
    let dst = read_be16(data, 2);
    let checksum = read_be16(data, 6);
    let payload = bytes_range(data, 8, data.len());
    Ok(UdpDatagram { src, dst, length, checksum, data: payload })
}

} // verus!
