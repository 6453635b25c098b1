use wirecrab::network::dns::{
    build_reverse_packet, parse_dns_response, parse_name, DnsMessage, DnsQuestion,
    DnsResourceRecord, DNSRData,
};
use wirecrab::network::ip::{IpAddr, Ipv4Addr, Ipv6Addr};

fn header(qd: u16, an: u16) -> Vec<u8> {
    let mut h = vec![0x12, 0x34, 0x81, 0x80];
    h.extend(qd.to_be_bytes());
    h.extend(an.to_be_bytes());
    h.extend([0, 0, 0, 0]);
    h
}

fn name_bytes(name: &str) -> Vec<u8> {
    let mut out = Vec::new();
    for label in name.split('.') {
        out.push(label.len() as u8);
        out.extend(label.as_bytes());
    }
    out.push(0);
    out
}

#[test]
fn short_dns_message_is_format_error() {
    assert!(DnsMessage::parse(&[0u8; 11]).is_err());
    assert!(DnsMessage::parse(&[]).is_err());
}

#[test]
fn a_answer_decodes_name_and_address() {
    // one A answer for example.com, no compression
    let mut msg = header(0, 1);
    msg.extend(name_bytes("example.com"));
    msg.extend([0, 1, 0, 1]); // type A, class IN
    msg.extend([0, 0, 0, 60]); // ttl
    msg.extend([0, 4]); // rdlength
    msg.extend([93, 184, 216, 34]);
    let m = DnsMessage::parse(&msg).unwrap();
    assert_eq!(m.header.id, 0x1234);
    assert_eq!(m.header.an_count, 1);
    assert_eq!(m.answers.len(), 1);
    assert_eq!(m.answers[0].name, "example.com");
    assert_eq!(m.answers[0].rtype, 1);
    assert_eq!(m.answers[0].rdlength, 4);
    assert!(matches!(
        &m.answers[0].rdata,
        DNSRData::A(a) if *a == Ipv4Addr::new(93, 184, 216, 34)
    ));
}

#[test]
fn aaaa_answer_decodes_segments() {
    let mut msg = header(0, 1);
    msg.extend(name_bytes("v6.example"));
    msg.extend([0, 28, 0, 1]);
    msg.extend([0, 0, 0, 60]);
    msg.extend([0, 16]);
    msg.extend([0x20, 0x01, 0, 0, 0, 0, 0, 0, 0, 0, 0, 0, 0, 0, 0x12, 0x34]);
    let m = DnsMessage::parse(&msg).unwrap();
    assert!(matches!(
        &m.answers[0].rdata,
        DNSRData::AAAA(a) if *a == Ipv6Addr::new(0x2001, 0, 0, 0, 0, 0, 0, 0x1234)
    ));
}

#[test]
fn pointer_decodes_same_as_target_offset() {
    // name at offset 12; a bare pointer to it at offset 25
    let mut msg = header(0, 0);
    msg.extend(name_bytes("example.com")); // offsets 12..25
    msg.extend([0xC0, 12]); // offset 25: pointer to 12
    let mut at_target: usize = 12;
    let direct = parse_name(&msg, &mut at_target).unwrap();
    let mut at_pointer: usize = 25;
    let via_pointer = parse_name(&msg, &mut at_pointer).unwrap();
    assert_eq!(direct, "example.com");
    assert_eq!(via_pointer, direct);
    // the cursor steps over the 2-byte pointer, not into the target
    assert_eq!(at_pointer, 27);
    assert_eq!(at_target, 25);
}

#[test]
fn labels_before_pointer_join_with_dot() {
    let mut msg = header(0, 0);
    msg.extend(name_bytes("example.com")); // at 12
    let www_at = msg.len();
    msg.push(3);
    msg.extend(*b"www");
    msg.extend([0xC0, 12]);
    let mut idx = www_at;
    let name = parse_name(&msg, &mut idx).unwrap();
    assert_eq!(name, "www.example.com");
}

#[test]
fn pointer_cycle_is_format_error_not_a_hang() {
    // a pointer that points at itself
    let mut msg = header(0, 0);
    msg.extend([0xC0, 12]);
    let mut idx: usize = 12;
    assert!(parse_name(&msg, &mut idx).is_err());
    // two pointers pointing at each other
    let mut msg = header(0, 0);
    msg.extend([0xC0, 14, 0xC0, 12]);
    let mut idx: usize = 12;
    assert!(parse_name(&msg, &mut idx).is_err());
}

#[test]
fn label_past_end_is_format_error() {
    let mut msg = header(0, 0);
    msg.extend([5, b'a', b'b']); // label claims 5 bytes, 2 present
    let mut idx: usize = 12;
    assert!(parse_name(&msg, &mut idx).is_err());
}

#[test]
fn cursor_lands_after_declared_rdlength() {
    // first answer: CNAME whose name takes 4 bytes but rdlength says 6;
    // the second answer is only found if the cursor obeys rdlength
    let mut msg = header(0, 2);
    msg.extend(name_bytes("a.test"));
    msg.extend([0, 5, 0, 1]); // CNAME
    msg.extend([0, 0, 0, 60]);
    msg.extend([0, 6]); // rdlength 6
    msg.extend(name_bytes("ab")); // 4 bytes of name
    msg.extend([0xEE, 0xEE]); // 2 bytes of declared rdata the typed decode ignores
    msg.extend(name_bytes("b.test"));
    msg.extend([0, 1, 0, 1]); // A
    msg.extend([0, 0, 0, 60]);
    msg.extend([0, 4]);
    msg.extend([1, 2, 3, 4]);
    let m = DnsMessage::parse(&msg).unwrap();
    assert_eq!(m.answers.len(), 2);
    assert!(matches!(&m.answers[0].rdata, DNSRData::CNAME(c) if c == "ab"));
    assert_eq!(m.answers[1].name, "b.test");
    assert!(matches!(
        &m.answers[1].rdata,
        DNSRData::A(a) if *a == Ipv4Addr::new(1, 2, 3, 4)
    ));
}

#[test]
fn rdlength_past_end_is_format_error() {
    let mut msg = header(0, 1);
    msg.extend(name_bytes("a.test"));
    msg.extend([0, 99, 0, 1]);
    msg.extend([0, 0, 0, 60]);
    msg.extend([0, 9]); // declares 9 rdata bytes
    msg.extend([0, 0, 0]); // only 3 present
    assert!(DnsMessage::parse(&msg).is_err());
}

#[test]
fn unknown_record_type_keeps_its_code() {
    let mut msg = header(0, 1);
    msg.extend(name_bytes("a.test"));
    msg.extend([0, 99, 0, 1]);
    msg.extend([0, 0, 0, 60]);
    msg.extend([0, 3]);
    msg.extend([7, 7, 7]);
    let m = DnsMessage::parse(&msg).unwrap();
    assert!(matches!(m.answers[0].rdata, DNSRData::UNIMPLEMENTED(99)));
}

#[test]
fn question_section_advances_cursor() {
    let mut msg = header(1, 0);
    msg.extend(name_bytes("example.com"));
    msg.extend([0, 12, 0, 1]);
    let mut idx: usize = 12;
    let q = DnsQuestion::parse(&msg, &mut idx).unwrap();
    assert_eq!(q.qname, "example.com");
    assert_eq!(q.qtype, 12);
    assert_eq!(q.qclass, 1);
    assert_eq!(idx, msg.len());
    let m = DnsMessage::parse(&msg).unwrap();
    assert_eq!(m.questions.len(), 1);
    assert_eq!(m.questions[0].qname, "example.com");
}

#[test]
fn first_ptr_answer_is_the_reverse_lookup_result() {
    let mut msg = header(0, 1);
    msg.extend(name_bytes("8.8.8.8.in-addr.arpa"));
    msg.extend([0, 12, 0, 1]);
    msg.extend([0, 0, 0, 60]);
    let ptr = name_bytes("dns.google");
    msg.extend((ptr.len() as u16).to_be_bytes());
    msg.extend(&ptr);
    assert_eq!(parse_dns_response(&msg), Some(String::from("dns.google")));
}

#[test]
fn response_without_ptr_gives_nothing() {
    let mut msg = header(0, 1);
    msg.extend(name_bytes("example.com"));
    msg.extend([0, 1, 0, 1]);
    msg.extend([0, 0, 0, 60]);
    msg.extend([0, 4]);
    msg.extend([1, 2, 3, 4]);
    assert_eq!(parse_dns_response(&msg), None);
    // no answers at all
    assert_eq!(parse_dns_response(&header(0, 0)), None);
    // undecodable bytes
    assert_eq!(parse_dns_response(&[1, 2, 3]), None);
}

#[test]
fn reverse_query_for_ipv4_uses_in_addr_arpa() {
    let packet = build_reverse_packet(IpAddr::V4(Ipv4Addr::new(8, 8, 8, 8)));
    let mut expected = vec![
        0x12, 0x34, // id
        0x01, 0x00, // standard query, recursion desired
        0x00, 0x01, // one question
        0x00, 0x00, 0x00, 0x00, 0x00, 0x00,
    ];
    for _ in 0..4 {
        expected.extend([1, b'8']);
    }
    expected.push(7);
    expected.extend(*b"in-addr");
    expected.push(4);
    expected.extend(*b"arpa");
    expected.extend([0, 0x00, 0x0C, 0x00, 0x01]);
    assert_eq!(packet, expected);
}

#[test]
fn reverse_query_for_multi_digit_octets() {
    let packet = build_reverse_packet(IpAddr::V4(Ipv4Addr::new(192, 0, 2, 10)));
    // reversed: 10.2.0.192
    let mut qname = vec![2, b'1', b'0', 1, b'2', 1, b'0', 3, b'1', b'9', b'2'];
    qname.push(7);
    qname.extend(*b"in-addr");
    qname.push(4);
    qname.extend(*b"arpa");
    assert_eq!(&packet[12..12 + qname.len()], &qname[..]);
}

#[test]
fn reverse_query_for_ipv6_uses_ip6_arpa() {
    let packet = build_reverse_packet(IpAddr::V6(Ipv6Addr::new(0x2001, 0, 0, 0, 0, 0, 0, 0x1234)));
    // the last segment's nibbles come first, lowest first
    assert_eq!(&packet[12..20], &[1, b'4', 1, b'3', 1, b'2', 1, b'1']);
    // 32 single-nibble labels, then ip6 + arpa + terminator + qtype + qclass
    let tail_at = 12 + 32 * 2;
    assert_eq!(
        &packet[tail_at..],
        &[3, b'i', b'p', b'6', 4, b'a', b'r', b'p', b'a', 0, 0x00, 0x0C, 0x00, 0x01]
    );
}

#[test]
fn built_reverse_query_parses_back() {
    let packet = build_reverse_packet(IpAddr::V4(Ipv4Addr::new(8, 8, 8, 8)));
    let m = DnsMessage::parse(&packet).unwrap();
    assert_eq!(m.header.qd_count, 1);
    assert_eq!(m.questions.len(), 1);
    assert_eq!(m.questions[0].qname, "8.8.8.8.in-addr.arpa");
    assert_eq!(m.questions[0].qtype, 12);
    assert_eq!(m.questions[0].qclass, 1);
}

#[test]
fn rdata_parsing_advances_cursor_only_for_names() {
    let mut msg = header(0, 0);
    msg.extend([1, 2, 3, 4]); // A rdata at offset 12
    let mut idx: usize = 12;
    let rd = DnsResourceRecord::parse_r_data(1, &msg, &mut idx).unwrap();
    assert!(matches!(rd, DNSRData::A(a) if a == Ipv4Addr::new(1, 2, 3, 4)));
    assert_eq!(idx, 12); // fixed-size rdata leaves the cursor alone
    let mut msg = header(0, 0);
    msg.extend(name_bytes("alias.example"));
    let mut idx: usize = 12;
    let rd = DnsResourceRecord::parse_r_data(5, &msg, &mut idx).unwrap();
    assert!(matches!(rd, DNSRData::CNAME(c) if c == "alias.example"));
    assert_eq!(idx, msg.len()); // a name-valued rdata advances past the name
}

#[test]
fn whole_record_parse_positions_cursor_from_rdlength() {
    let mut msg = header(0, 1);
    let record_at = msg.len();
    msg.extend(name_bytes("a.test"));
    msg.extend([0, 99, 0, 1]);
    msg.extend([0, 0, 0, 60]);
    msg.extend([0, 5]);
    let rdata_start = msg.len();
    msg.extend([1, 2, 3, 4, 5]);
    let mut idx = record_at;
    let rec = DnsResourceRecord::parse(&msg, &mut idx).unwrap();
    assert_eq!(rec.rdlength, 5);
    assert_eq!(idx, rdata_start + 5);
}
