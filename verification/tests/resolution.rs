use wirecrab::app::App;
use wirecrab::network::dns::{DnsHeader, DnsMessage, DnsResourceRecord, DNSRData};
use wirecrab::network::ip::{IpAddr, Ipv4Addr};
use wirecrab::network::sniffer::{parse_dns_frame, SnifferPacket};

fn ip(a: u8, b: u8, c: u8, d: u8) -> IpAddr {
    IpAddr::V4(Ipv4Addr::new(a, b, c, d))
}

fn packet_from(src: IpAddr) -> SnifferPacket {
    SnifferPacket { src, dst: ip(192, 168, 0, 1) }
}

fn answer(name: &str, rdata: DNSRData) -> DnsResourceRecord {
    DnsResourceRecord {
        name: String::from(name),
        rtype: 0,
        rclass: 1,
        ttl: 60,
        rdlength: 0,
        rdata,
    }
}

fn message(answers: Vec<DnsResourceRecord>) -> DnsMessage {
    DnsMessage {
        header: DnsHeader {
            id: 0,
            flags: 0,
            qd_count: 0,
            an_count: answers.len() as u16,
            ns_count: 0,
            ar_count: 0,
        },
        questions: Vec::new(),
        answers,
        authorities: Vec::new(),
        additional: Vec::new(),
    }
}

#[test]
fn repeated_source_keeps_insertion_order_and_counts() {
    let a = ip(1, 1, 1, 1);
    let b = ip(2, 2, 2, 2);
    let mut app = App::new();
    assert!(app.handle_packet(packet_from(a)));
    assert!(app.handle_packet(packet_from(b)));
    assert!(!app.handle_packet(packet_from(a)));
    let entries = app.entries_to_render();
    assert_eq!(entries.len(), 2);
    assert_eq!(entries[0].ip, a);
    assert_eq!(entries[0].info.num_packets, 2);
    assert_eq!(entries[1].ip, b);
    assert_eq!(entries[1].info.num_packets, 1);
}

#[test]
fn clear_renders_empty_and_then_acts_fresh() {
    let a = ip(1, 1, 1, 1);
    let mut app = App::new();
    app.handle_packet(packet_from(a));
    app.handle_packet(packet_from(a));
    app.handle_dns_message(message(vec![answer(
        "one.example",
        DNSRData::A(Ipv4Addr::new(1, 1, 1, 1)),
    )]));
    app.clear();
    assert!(app.entries_to_render().is_empty());
    assert_eq!(app.resolve_domain(a), None);
    // after the clear, the same calls behave as on a fresh state
    let newly_seen = app.handle_packet(packet_from(a));
    assert!(newly_seen);
    let entries = app.entries_to_render();
    assert_eq!(entries.len(), 1);
    assert_eq!(entries[0].ip, a);
    assert_eq!(entries[0].info.num_packets, 1);
    assert_eq!(entries[0].domain, None);
}

#[test]
fn cname_chain_walks_back_to_queried_name() {
    let mut app = App::new();
    app.handle_dns_message(message(vec![
        answer("www.example.com", DNSRData::CNAME(String::from("example.com"))),
        answer("example.com", DNSRData::A(Ipv4Addr::new(1, 2, 3, 4))),
    ]));
    assert_eq!(
        app.resolve_domain(ip(1, 2, 3, 4)),
        Some(String::from("www.example.com"))
    );
}

#[test]
fn a_answer_without_alias_resolves_to_its_own_name() {
    let mut app = App::new();
    app.handle_dns_message(message(vec![answer(
        "plain.example",
        DNSRData::A(Ipv4Addr::new(9, 9, 9, 9)),
    )]));
    assert_eq!(app.resolve_domain(ip(9, 9, 9, 9)), Some(String::from("plain.example")));
}

#[test]
fn cyclic_alias_map_terminates() {
    let mut app = App::new();
    app.handle_dns_message(message(vec![
        answer("a.example", DNSRData::CNAME(String::from("b.example"))),
        answer("b.example", DNSRData::CNAME(String::from("a.example"))),
        answer("b.example", DNSRData::A(Ipv4Addr::new(5, 5, 5, 5))),
    ]));
    // the walk is hop-bounded; it lands on one of the two cycle members
    let resolved = app.resolve_domain(ip(5, 5, 5, 5)).unwrap();
    assert!(resolved == "a.example" || resolved == "b.example");
}

#[test]
fn ptr_and_unknown_answers_change_nothing() {
    let mut app = App::new();
    app.handle_dns_message(message(vec![
        answer("x.in-addr.arpa", DNSRData::PTR(String::from("x.example"))),
        answer("y.example", DNSRData::UNIMPLEMENTED(99)),
    ]));
    assert!(app.entries_to_render().is_empty());
    assert_eq!(app.resolve_domain(ip(0, 0, 0, 0)), None);
}

#[test]
fn live_dns_cache_outranks_fallback() {
    let a = ip(4, 4, 4, 4);
    let mut app = App::new();
    app.record_fallback_domain(a, String::from("fallback.example"));
    assert_eq!(app.resolve_domain(a), Some(String::from("fallback.example")));
    app.handle_dns_message(message(vec![answer(
        "live.example",
        DNSRData::A(Ipv4Addr::new(4, 4, 4, 4)),
    )]));
    assert_eq!(app.resolve_domain(a), Some(String::from("live.example")));
}

#[test]
fn unresolved_host_renders_without_domain() {
    let a = ip(10, 0, 0, 9);
    let mut app = App::new();
    app.handle_packet(packet_from(a));
    let entries = app.entries_to_render();
    assert_eq!(entries.len(), 1);
    assert_eq!(entries[0].domain, None);
    // a later DNS answer updates the same row in place
    app.handle_dns_message(message(vec![answer(
        "late.example",
        DNSRData::A(Ipv4Addr::new(10, 0, 0, 9)),
    )]));
    let entries = app.entries_to_render();
    assert_eq!(entries[0].domain, Some(String::from("late.example")));
}

#[test]
fn selection_moves_within_table_bounds() {
    let mut app = App::new();
    app.handle_packet(packet_from(ip(1, 0, 0, 1)));
    app.handle_packet(packet_from(ip(1, 0, 0, 2)));
    app.handle_packet(packet_from(ip(1, 0, 0, 3)));
    assert_eq!(app.state.selected, None);
    app.next_entry();
    assert_eq!(app.state.selected, Some(1));
    app.next_entry();
    assert_eq!(app.state.selected, Some(2));
    app.next_entry();
    assert_eq!(app.state.selected, Some(2));
    app.prev_entry();
    assert_eq!(app.state.selected, Some(1));
    app.prev_entry();
    app.prev_entry();
    assert_eq!(app.state.selected, Some(0));
    app.prev_entry();
    assert_eq!(app.state.selected, Some(0));
}

#[test]
fn quit_drops_the_running_flag() {
    let mut app = App::new();
    assert!(app.running);
    app.tick();
    app.quit();
    assert!(!app.running);
}

#[test]
fn dns_frame_decodes_through_all_layers() {
    // DNS message: one A answer for example.com
    let mut dns = vec![0x12, 0x34, 0x81, 0x80, 0, 0, 0, 1, 0, 0, 0, 0];
    for label in ["example", "com"] {
        dns.push(label.len() as u8);
        dns.extend(label.as_bytes());
    }
    dns.push(0);
    dns.extend([0, 1, 0, 1, 0, 0, 0, 60, 0, 4, 93, 184, 216, 34]);
    // UDP datagram from port 53
    let mut udp = Vec::new();
    udp.extend(53u16.to_be_bytes());
    udp.extend(4321u16.to_be_bytes());
    udp.extend((8 + dns.len() as u16).to_be_bytes());
    udp.extend([0, 0]);
    udp.extend(&dns);
    // IPv4 header, protocol UDP
    let mut iph = vec![0u8; 20];
    iph[0] = 0x45;
    iph[9] = 17;
    iph[12..16].copy_from_slice(&[8, 8, 8, 8]);
    iph[16..20].copy_from_slice(&[10, 0, 0, 1]);
    // Ethernet frame
    let mut frame = vec![0u8; 12];
    frame.extend([0x08, 0x00]);
    frame.extend(&iph);
    frame.extend(&udp);
    let m = parse_dns_frame(&frame).unwrap();
    assert_eq!(m.answers.len(), 1);
    assert_eq!(m.answers[0].name, "example.com");
    let mut app = App::new();
    app.handle_dns_message(m);
    assert_eq!(app.resolve_domain(ip(93, 184, 216, 34)), Some(String::from("example.com")));
}
