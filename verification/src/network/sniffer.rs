//! Per-packet demultiplexing: the pure decode sequence that each capture
//! loop applies to a raw frame. The capture loops themselves block on a
//! live device and sit outside this library; they feed raw frame bytes in
//! and forward the typed events that come out.
use crate::error::{DemuxError, FormatError, Layer};
use crate::network::dns::{spec_parse_message, DnsMessage, MessageModel};
use crate::network::ethernet::{eth_parse_ok, eth_payload_start, parse_ethernet_frame};
use crate::network::ip::{
    ipv4_at,
    ipv4_header_len,
    ipv4_parse_ok,
    ipv6_at,
    ipv6_parse_ok,
    parse_ipv4_packet,
    parse_ipv6_packet,
    IpAddr,
};
use crate::network::udp::{parse_udp_packet, udp_parse_ok};
use crate::utils::be16;
use vstd::prelude::*;

verus! {

/// The event a matched, non-DNS packet produces: who talked to whom.
#[derive(Clone, Copy, Debug, PartialEq, Eq, Structural)]
pub struct SnifferPacket {
    pub src: IpAddr,
    pub dst: IpAddr,
}

/// The Ethernet payload of frame `s`.
pub open spec fn eth_payload(s: Seq<u8>) -> Seq<u8> {
    s.subrange(eth_payload_start(s), s.len() as int)
}

/// What the traffic loop's decode sequence yields for the raw frame `s`:
/// Ethernet, then IPv4 or IPv6 by ethertype, then the source/destination
/// pair. An ethertype of neither 0x0800 nor 0x86DD is unsupported; a layer
/// that refuses its bytes is a format error.
pub open spec fn spec_traffic_event(s: Seq<u8>) -> Result<SnifferPacket, DemuxError> {
    if !eth_parse_ok(s) {
        Err(DemuxError::Format(FormatError { layer: Layer::Ethernet }))
    } else {
        let p = eth_payload(s);
        if be16(s, 12) == 0x0800 {
            if ipv4_parse_ok(p) {
                Ok(SnifferPacket { src: IpAddr::V4(ipv4_at(p, 12)), dst: IpAddr::V4(ipv4_at(p, 16)) })
            } else {
                Err(DemuxError::Format(FormatError { layer: Layer::Ipv4 }))
            }
        } else if be16(s, 12) == 0x86DD {
            if ipv6_parse_ok(p) {
                Ok(SnifferPacket { src: IpAddr::V6(ipv6_at(p, 8)), dst: IpAddr::V6(ipv6_at(p, 24)) })
            } else {
                Err(DemuxError::Format(FormatError { layer: Layer::Ipv6 }))
            }
        } else {
            Err(DemuxError::Unsupported(be16(s, 12) as u16))
        }
    }
}

/// The IP payload of frame `s`: what is left after the Ethernet header and
/// the IP header its ethertype selects. Meaningful when the layers decode.
pub open spec fn ip_payload(s: Seq<u8>) -> Seq<u8> {
    let p = eth_payload(s);
    if be16(s, 12) == 0x0800 {
        p.subrange(ipv4_header_len(p), p.len() as int)
    } else {
        p.subrange(40, p.len() as int)
    }
}

/// What the DNS loop's decode sequence yields for the raw frame `s`:
/// Ethernet, the IP layer by ethertype, UDP, then the UDP payload decoded
/// as a DNS message.
pub open spec fn spec_dns_event(s: Seq<u8>) -> Result<MessageModel, DemuxError> {
    if !eth_parse_ok(s) {
        Err(DemuxError::Format(FormatError { layer: Layer::Ethernet }))
    } else if be16(s, 12) != 0x0800 && be16(s, 12) != 0x86DD {
        Err(DemuxError::Unsupported(be16(s, 12) as u16))
    } else if be16(s, 12) == 0x0800 && !ipv4_parse_ok(eth_payload(s)) {
        Err(DemuxError::Format(FormatError { layer: Layer::Ipv4 }))
    } else if be16(s, 12) == 0x86DD && !ipv6_parse_ok(eth_payload(s)) {
        Err(DemuxError::Format(FormatError { layer: Layer::Ipv6 }))
    } else if !udp_parse_ok(ip_payload(s)) {
        Err(DemuxError::Format(FormatError { layer: Layer::Udp }))
    } else {
        let d = ip_payload(s).subrange(8, ip_payload(s).len() as int);
        match spec_parse_message(d) {
            Some(m) => Ok(m),
            None => Err(DemuxError::Format(FormatError { layer: Layer::Dns })),
        }
    }
}

/// Decodes one captured frame for the traffic loop: Ethernet, then the IP
/// layer its ethertype selects, and yields the source/destination pair.
pub fn parse_traffic_frame(data: &[u8]) -> (r: Result<SnifferPacket, DemuxError>)
    ensures
        r == spec_traffic_event(data@),
{
    let frame = match parse_ethernet_frame(data) {
        Ok(f) => f,
        Err(e) => {
            return Err(DemuxError::Format(e));
        },
    };
    if frame.ethertype == 0x0800 {
        match parse_ipv4_packet(frame.payload.as_slice()) {
            Ok(p) => Ok(SnifferPacket { src: IpAddr::V4(p.src), dst: IpAddr::V4(p.dst) }),
            Err(e) => Err(DemuxError::Format(e)),
        }
    } else if frame.ethertype == 0x86DD {
        match parse_ipv6_packet(frame.payload.as_slice()) {
            Ok(p) => Ok(SnifferPacket { src: IpAddr::V6(p.src), dst: IpAddr::V6(p.dst) }),
            Err(e) => Err(DemuxError::Format(e)),
        }
    } else {
        Err(DemuxError::Unsupported(frame.ethertype))
    }
}

/// Decodes one captured frame for the DNS loop: Ethernet, the IP layer its
/// ethertype selects, UDP, then the UDP payload as a DNS message.
pub fn parse_dns_frame(data: &[u8]) -> (r: Result<DnsMessage, DemuxError>)
    ensures
        r is Ok <==> spec_dns_event(data@) is Ok,
        r matches Ok(m) ==> spec_dns_event(data@) == Ok::<MessageModel, DemuxError>(m@),
        r matches Err(e) ==> spec_dns_event(data@) == Err::<MessageModel, DemuxError>(e),
{
    let frame = match parse_ethernet_frame(data) {
        Ok(f) => f,
        Err(e) => {
            return Err(DemuxError::Format(e));
        },
    };
    let ip_data: Vec<u8> = if frame.ethertype == 0x0800 {
        match parse_ipv4_packet(frame.payload.as_slice()) {
            Ok(p) => p.payload,
            Err(e) => {
                return Err(DemuxError::Format(e));
            },
        }
    } else if frame.ethertype == 0x86DD {
        match parse_ipv6_packet(frame.payload.as_slice()) {
            Ok(p) => p.payload,
            Err(e) => {
                return Err(DemuxError::Format(e));
            },
        }
    } else {
        return Err(DemuxError::Unsupported(frame.ethertype));
    };
    let datagram = match parse_udp_packet(ip_data.as_slice()) {
        Ok(d) => d,
        Err(e) => {
            return Err(DemuxError::Format(e));
        },
    };
    match DnsMessage::parse(datagram.data.as_slice()) {
        Ok(m) => Ok(m),
        Err(e) => Err(DemuxError::Format(e)),
    }
}

} // verus!
