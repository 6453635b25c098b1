//! IPv4 and IPv6 header codecs, and the address types the rest of the crate
//! keys its state by.
use crate::error::{FormatError, Layer};
use crate::utils::{be16, be32, bytes_range, read_be16, read_be32};
use vstd::prelude::*;

verus! {

/// An IPv4 address as its four dotted-quad octets.
#[derive(Clone, Copy, Debug, PartialEq, Eq, Structural)]
pub struct Ipv4Addr {
    pub o0: u8,
    pub o1: u8,
    pub o2: u8,
    pub o3: u8,
}

impl Ipv4Addr {
    pub fn new(o0: u8, o1: u8, o2: u8, o3: u8) -> (r: Self)
        ensures
            r == (Ipv4Addr { o0, o1, o2, o3 }),
    {
        Ipv4Addr { o0, o1, o2, o3 }
    }
}

/// An IPv6 address as its eight big-endian 16-bit segments.
#[derive(Clone, Copy, Debug, PartialEq, Eq, Structural)]
pub struct Ipv6Addr {
    pub s0: u16,
    pub s1: u16,
    pub s2: u16,
    pub s3: u16,
    pub s4: u16,
    pub s5: u16,
    pub s6: u16,
    pub s7: u16,
}

impl Ipv6Addr {
    pub fn new(s0: u16, s1: u16, s2: u16, s3: u16, s4: u16, s5: u16, s6: u16, s7: u16) -> (r: Self)
        ensures
            r == (Ipv6Addr { s0, s1, s2, s3, s4, s5, s6, s7 }),
    {
        Ipv6Addr { s0, s1, s2, s3, s4, s5, s6, s7 }
    }
}

/// Either kind of IP address.
#[derive(Clone, Copy, Debug, PartialEq, Eq, Structural)]
pub enum IpAddr {
    V4(Ipv4Addr),
    V6(Ipv6Addr),
}

/// The IPv4 address held at `s[i..i + 4]`.
pub open spec fn ipv4_at(s: Seq<u8>, i: int) -> Ipv4Addr {
    Ipv4Addr { o0: s[i], o1: s[i + 1], o2: s[i + 2], o3: s[i + 3] }
}

/// The IPv6 address held at `s[i..i + 16]` as big-endian segments.
pub open spec fn ipv6_at(s: Seq<u8>, i: int) -> Ipv6Addr {
    Ipv6Addr {
        s0: be16(s, i) as u16,
        s1: be16(s, i + 2) as u16,
        s2: be16(s, i + 4) as u16,
        s3: be16(s, i + 6) as u16,
        s4: be16(s, i + 8) as u16,
        s5: be16(s, i + 10) as u16,
        s6: be16(s, i + 12) as u16,
        s7: be16(s, i + 14) as u16,
    }
}

/// Reads the IPv4 address at `data[i..i + 4]`.
pub fn read_ipv4_at(data: &[u8], i: usize) -> (r: Ipv4Addr)
    requires
        i + 4 <= data@.len(),
    ensures
        r == ipv4_at(data@, i as int),
{
    Ipv4Addr { o0: data[i], o1: data[i + 1], o2: data[i + 2], o3: data[i + 3] }
}

/// Reads the IPv6 address at `data[i..i + 16]`.
pub fn read_ipv6_at(data: &[u8], i: usize) -> (r: Ipv6Addr)
    requires
        i + 16 <= data@.len(),
    ensures
        r == ipv6_at(data@, i as int),
{
    proof {
        assert(vstd::slice::spec_slice_len(data) == data@.len()) by {
            broadcast use vstd::slice::axiom_spec_len;

        };
    }
    Ipv6Addr {
        s0: read_be16(data, i),
        s1: read_be16(data, i + 2),
        s2: read_be16(data, i + 4),
        s3: read_be16(data, i + 6),
        s4: read_be16(data, i + 8),
        s5: read_be16(data, i + 10),
        s6: read_be16(data, i + 12),
        s7: read_be16(data, i + 14),
    }
}

/// A decoded IPv4 header: every header field, the options bytes when the
/// header length says there are any, and the payload that follows the header.
#[derive(Debug)]
pub struct Ipv4Packet {
    pub version: u8,
    pub ihl: u8,
    pub service_type: u8,
    pub length: u16,
    pub identification: u16,
    pub flags: u8,
    pub fragment_offset: u16,
    pub ttl: u8,
    pub protocol: u8,
    pub checksum: u16,
    pub src: Ipv4Addr,
    pub dst: Ipv4Addr,
    pub options: Option<Vec<u8>>,
    pub payload: Vec<u8>,
}

/// The header length in bytes that an IPv4 packet declares: IHL (the low
/// nibble of byte 0) times four.
pub open spec fn ipv4_header_len(s: Seq<u8>) -> int {
    4 * (s[0] as int % 16)
}

/// Whether `s` is long enough for its own IPv4 header: the 20 fixed bytes
/// and whatever the IHL claims.
pub open spec fn ipv4_parse_ok(s: Seq<u8>) -> bool {
    s.len() >= 20 && s.len() >= ipv4_header_len(s)
}

/// A buffer shorter than the 20 fixed IPv4 header bytes never decodes.
pub proof fn lemma_ipv4_min_length(s: Seq<u8>)
    ensures
        s.len() < 20 ==> !ipv4_parse_ok(s),
{
}

/// Decodes an IPv4 header from `data`. Fails exactly when the buffer is
/// shorter than the 20 fixed header bytes or than the length the IHL claims.
pub fn parse_ipv4_packet(data: &[u8]) -> (r: Result<Ipv4Packet, FormatError>)
    ensures
        r is Ok <==> ipv4_parse_ok(data@),
        r matches Err(e) ==> e.layer == Layer::Ipv4,
        r matches Ok(p) ==> {
            let s = data@;
            &&& p.version == s[0] as int / 16
            &&& p.ihl == s[0] as int % 16
            &&& p.service_type == s[1]
            &&& p.length == be16(s, 2)
            &&& p.identification == be16(s, 4)
            &&& p.flags == s[6] as int / 32
            &&& p.fragment_offset == (s[6] as int % 8) * 0x100 + s[7]
            &&& p.ttl == s[8]
            &&& p.protocol == s[9]
            &&& p.checksum == be16(s, 10)
            &&& p.src == ipv4_at(s, 12)
            &&& p.dst == ipv4_at(s, 16)
            &&& (ipv4_header_len(s) > 20 ==> (p.options matches Some(o) && o@ == s.subrange(
                20,
                ipv4_header_len(s),
            )))
            &&& (ipv4_header_len(s) <= 20 ==> p.options is None)
            &&& p.payload@ == s.subrange(ipv4_header_len(s), s.len() as int)
        },
{
    if data.len() < 20 {
        return Err(FormatError { layer: Layer::Ipv4 });
    }
    let version = data[0] / 16;
    let ihl = data[0] % 16;
    let ihl_in_bytes = (ihl as usize) * 4;
    if data.len() < ihl_in_bytes {
        return Err(FormatError { layer: Layer::Ipv4 });
    }
    let service_type = data[1];
    let length = read_be16(data, 2);
    let identification = read_be16(data, 4);
    let flags = data[6] / 32;
    let fragment_offset = (data[6] % 8) as u16 * 0x100 + data[7] as u16;
    let ttl = data[8];
    let protocol = data[9];
    let checksum = read_be16(data, 10);
    let src = read_ipv4_at(data, 12);
    let dst = read_ipv4_at(data, 16);
    let options = if ihl_in_bytes > 20 {
        Some(bytes_range(data, 20, ihl_in_bytes))
    } else {
        None
    };
    let payload = bytes_range(data, ihl_in_bytes, data.len());
    Ok(
        Ipv4Packet {
            version,
            ihl,
            service_type,
            length,
            identification,
            flags,
            fragment_offset,
            ttl,
            protocol,
            checksum,
            src,
            dst,
            options,
            payload,
        },
    )
}

/// A decoded IPv6 fixed header and the payload that follows its 40 bytes.
/// Extension headers are not interpreted.
#[derive(Debug)]
pub struct Ipv6Packet {
    pub version: u8,
    pub traffic_class: u8,
    pub flow_label: u32,
    pub payload_length: u16,
    pub next_header: u8,
    pub hop_limit: u8,
    pub src: Ipv6Addr,
    pub dst: Ipv6Addr,
    pub payload: Vec<u8>,
}

/// Whether `s` holds the full 40-byte IPv6 fixed header.
pub open spec fn ipv6_parse_ok(s: Seq<u8>) -> bool {
    s.len() >= 40
}

/// A buffer shorter than the 40-byte IPv6 fixed header never decodes.
pub proof fn lemma_ipv6_min_length(s: Seq<u8>)
    ensures
        s.len() < 40 ==> !ipv6_parse_ok(s),
{
}

/// Decodes an IPv6 fixed header from `data`. Fails exactly when the buffer
/// is shorter than the 40 fixed header bytes.
pub fn parse_ipv6_packet(data: &[u8]) -> (r: Result<Ipv6Packet, FormatError>)
    ensures
        r is Ok <==> ipv6_parse_ok(data@),
        r matches Err(e) ==> e.layer == Layer::Ipv6,
        r matches Ok(p) ==> {
            let s = data@;
            &&& p.version == s[0] as int / 16
            &&& p.traffic_class == (s[0] as int % 16) * 16 + s[1] as int / 16
            &&& p.flow_label == (s[1] as int % 16) * 0x10000 + (s[2] as int) * 0x100 + s[3] as int
            &&& p.payload_length == be16(s, 4)
            &&& p.next_header == s[6]
            &&& p.hop_limit == s[7]
            &&& p.src == ipv6_at(s, 8)
            &&& p.dst == ipv6_at(s, 24)
            &&& p.payload@ == s.subrange(40, s.len() as int)
        },
{
    if data.len() < 40 {
        return Err(FormatError { layer: Layer::Ipv6 });
    }
    let version = data[0] / 16;
    let traffic_class = (data[0] % 16) * 16 + data[1] / 16;
    let flow_label = (data[1] % 16) as u32 * 0x10000 + data[2] as u32 * 0x100 + data[3] as u32;
    let payload_length = read_be16(data, 4);
    let next_header = data[6];
    let hop_limit = data[7];
    let src = read_ipv6_at(data, 8);
    let dst = read_ipv6_at(data, 24);
    let payload = bytes_range(data, 40, data.len());
    Ok(
        Ipv6Packet {
            version,
            traffic_class,
            flow_label,
            payload_length,
            next_header,
            hop_limit,
            src,
            dst,
            payload,
        },
    )
}

} // verus!
