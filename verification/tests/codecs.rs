use wirecrab::error::{DemuxError, Layer};
use wirecrab::network::ethernet::parse_ethernet_frame;
use wirecrab::network::ip::{parse_ipv4_packet, parse_ipv6_packet, IpAddr, Ipv4Addr, Ipv6Addr};
use wirecrab::network::sniffer::parse_traffic_frame;
use wirecrab::network::udp::parse_udp_packet;
use wirecrab::utils::hex;

#[test]
fn short_ethernet_is_format_error() {
    let r = parse_ethernet_frame(&[0u8; 13]);
    assert!(matches!(r, Err(e) if e.layer == Layer::Ethernet));
    assert!(parse_ethernet_frame(&[]).is_err());
}

#[test]
fn short_ipv4_is_format_error() {
    let r = parse_ipv4_packet(&[0u8; 19]);
    assert!(matches!(r, Err(e) if e.layer == Layer::Ipv4));
}

#[test]
fn short_ipv6_is_format_error() {
    let r = parse_ipv6_packet(&[0u8; 39]);
    assert!(matches!(r, Err(e) if e.layer == Layer::Ipv6));
}

#[test]
fn short_udp_is_format_error() {
    let r = parse_udp_packet(&[0u8; 7]);
    assert!(matches!(r, Err(e) if e.layer == Layer::Udp));
}

#[test]
fn untagged_frame_payload_starts_at_14() {
    let mut data = vec![0u8; 16];
    data[12] = 0x08;
    data[13] = 0x00;
    data[14] = 0xAA;
    data[15] = 0xBB;
    let f = parse_ethernet_frame(&data).unwrap();
    assert_eq!(f.ethertype, 0x0800);
    assert_eq!(f.payload, vec![0xAA, 0xBB]);
}

#[test]
fn tagged_frame_payload_starts_at_18() {
    for ethertype in [[0x81u8, 0x00u8], [0x88u8, 0xa8u8]] {
        let mut data = vec![0u8; 20];
        data[12] = ethertype[0];
        data[13] = ethertype[1];
        data[18] = 0xCC;
        data[19] = 0xDD;
        let f = parse_ethernet_frame(&data).unwrap();
        assert_eq!(f.payload, vec![0xCC, 0xDD]);
    }
}

#[test]
fn tagged_frame_shorter_than_18_is_format_error() {
    let mut data = vec![0u8; 17];
    data[12] = 0x81;
    data[13] = 0x00;
    assert!(parse_ethernet_frame(&data).is_err());
    // exactly 18 bytes: empty payload, no error
    let mut data = vec![0u8; 18];
    data[12] = 0x88;
    data[13] = 0xa8;
    let f = parse_ethernet_frame(&data).unwrap();
    assert!(f.payload.is_empty());
}

fn minimal_ipv4_header() -> Vec<u8> {
    let mut ip = vec![0u8; 20];
    ip[0] = 0x45; // version 4, IHL 5
    ip[9] = 6; // protocol TCP
    ip[12] = 10;
    ip[13] = 0;
    ip[14] = 0;
    ip[15] = 1; // src 10.0.0.1
    ip[16] = 10;
    ip[17] = 0;
    ip[18] = 0;
    ip[19] = 2; // dst 10.0.0.2
    ip
}

#[test]
fn ethernet_then_ipv4_end_to_end() {
    let mut data = vec![0u8; 14];
    data[12] = 0x08;
    data[13] = 0x00;
    data.extend(minimal_ipv4_header());
    let f = parse_ethernet_frame(&data).unwrap();
    let p = parse_ipv4_packet(&f.payload).unwrap();
    assert_eq!(p.version, 4);
    assert_eq!(p.ihl, 5);
    assert_eq!(p.protocol, 6);
    assert_eq!(p.src, Ipv4Addr::new(10, 0, 0, 1));
    assert_eq!(p.dst, Ipv4Addr::new(10, 0, 0, 2));
    assert!(p.payload.is_empty());
    assert!(p.options.is_none());
}

#[test]
fn traffic_frame_yields_source_and_destination() {
    let mut data = vec![0u8; 14];
    data[12] = 0x08;
    data[13] = 0x00;
    data.extend(minimal_ipv4_header());
    let ev = parse_traffic_frame(&data).unwrap();
    assert_eq!(ev.src, IpAddr::V4(Ipv4Addr::new(10, 0, 0, 1)));
    assert_eq!(ev.dst, IpAddr::V4(Ipv4Addr::new(10, 0, 0, 2)));
}

#[test]
fn unsupported_ethertype_is_reported_with_code() {
    let mut data = vec![0u8; 14];
    data[12] = 0x08;
    data[13] = 0x06; // ARP
    let r = parse_traffic_frame(&data);
    assert!(matches!(r, Err(DemuxError::Unsupported(0x0806))));
}

#[test]
fn ipv4_with_options_splits_them_out() {
    let mut ip = minimal_ipv4_header();
    ip[0] = 0x46; // IHL 6: 24 header bytes
    ip.extend([1, 2, 3, 4]); // options
    ip.extend([9, 9]); // payload
    let p = parse_ipv4_packet(&ip).unwrap();
    assert_eq!(p.options, Some(vec![1, 2, 3, 4]));
    assert_eq!(p.payload, vec![9, 9]);
}

#[test]
fn ipv4_shorter_than_declared_header_is_format_error() {
    let mut ip = minimal_ipv4_header();
    ip[0] = 0x4F; // IHL 15: 60 header bytes, but only 20 present
    assert!(parse_ipv4_packet(&ip).is_err());
}

#[test]
fn ipv6_header_fields_decode() {
    let mut data = vec![0u8; 42];
    data[0] = 0x60; // version 6
    data[4] = 0x00;
    data[5] = 0x02; // payload length 2
    data[6] = 17; // next header UDP
    data[7] = 64; // hop limit
    data[8] = 0x20;
    data[9] = 0x01; // src starts 2001:...
    data[38] = 0x00;
    data[39] = 0x01; // dst ends ...:1
    data[40] = 0xEE;
    data[41] = 0xFF;
    let p = parse_ipv6_packet(&data).unwrap();
    assert_eq!(p.version, 6);
    assert_eq!(p.payload_length, 2);
    assert_eq!(p.next_header, 17);
    assert_eq!(p.hop_limit, 64);
    assert_eq!(p.src.s0, 0x2001);
    assert_eq!(p.dst, Ipv6Addr::new(0, 0, 0, 0, 0, 0, 0, 1));
    assert_eq!(p.payload, vec![0xEE, 0xFF]);
}

#[test]
fn udp_header_and_data_decode() {
    let data = [0x00, 0x35, 0xC0, 0x01, 0x00, 0x0A, 0xAB, 0xCD, 0x11, 0x22];
    let d = parse_udp_packet(&data).unwrap();
    assert_eq!(d.src, 53);
    assert_eq!(d.dst, 0xC001);
    assert_eq!(d.length, 10);
    assert_eq!(d.checksum, 0xABCD);
    assert_eq!(d.data, vec![0x11, 0x22]);
}

#[test]
fn udp_length_mismatch_is_format_error() {
    // declared length 9 but 10 bytes present
    let data = [0x00, 0x35, 0xC0, 0x01, 0x00, 0x09, 0xAB, 0xCD, 0x11, 0x22];
    let r = parse_udp_packet(&data);
    assert!(matches!(r, Err(e) if e.layer == Layer::Udp));
}

#[test]
fn hex_renders_lowercase_pairs() {
    assert_eq!(hex(&[]), "");
    assert_eq!(hex(&[0x0F, 0xA5, 0x00]), "0fa500");
    assert_eq!(hex(&[0xDE, 0xAD, 0xBE, 0xEF]), "deadbeef");
}
