//! DNS wire-format codec: header, questions, resource records with typed
//! RDATA, and name decompression with a hop bound that rejects cyclic
//! pointer chains, plus construction of reverse (PTR) queries.
//!
//! Every decoder is specified against a spec-level parser over the raw byte
//! sequence; a cursor is never advanced past a bound that was not checked.
use crate::error::{FormatError, Layer};
use crate::network::ip::{
    ipv4_at,
    ipv6_at,
    read_ipv4_at,
    read_ipv6_at,
    IpAddr,
    Ipv4Addr,
    Ipv6Addr,
};
use crate::utils::{be16, be32, read_be16, read_be32, string_push};
use vstd::prelude::*;
use vstd::string::StringExecFns;

verus! {

/// The 12-byte DNS message header: identifier, flags, and the four section
/// counts, all big-endian 16-bit fields.
#[derive(Clone, Copy, Debug, PartialEq, Eq, Structural)]
pub struct DnsHeader {
    pub id: u16,
    pub flags: u16,
    pub qd_count: u16,
    pub an_count: u16,
    pub ns_count: u16,
    pub ar_count: u16,
}

/// A question-section entry: a decompressed name and its query type and
/// class.
#[derive(Debug)]
pub struct DnsQuestion {
    pub qname: String,
    pub qtype: u16,
    pub qclass: u16,
}

/// Typed RDATA, keyed by the record's type code. Types this decoder does
/// not interpret keep their raw code.
#[derive(Debug)]
pub enum DNSRData {
    A(Ipv4Addr),
    AAAA(Ipv6Addr),
    CNAME(String),
    PTR(String),
    UNIMPLEMENTED(u16),
}

/// A resource record: decompressed owner name, fixed fields, and the typed
/// RDATA. `rdlength` is the declared RDATA length, which governs the cursor
/// independently of what the typed decode consumed.
#[derive(Debug)]
pub struct DnsResourceRecord {
    pub name: String,
    pub rtype: u16,
    pub rclass: u16,
    pub ttl: u32,
    pub rdlength: u16,
    pub rdata: DNSRData,
}

/// A whole DNS message: the header and the four ordered sections.
#[derive(Debug)]
pub struct DnsMessage {
    pub header: DnsHeader,
    pub questions: Vec<DnsQuestion>,
    pub answers: Vec<DnsResourceRecord>,
    pub authorities: Vec<DnsResourceRecord>,
    pub additional: Vec<DnsResourceRecord>,
}

/// A domain together with the addresses it resolved to.
#[derive(Debug)]
pub struct DnsDirectRecord {
    pub domain: String,
    pub records: Vec<IpAddr>,
}

/// Spec-level mirror of a question: the name as a character sequence.
pub struct QuestionModel {
    pub qname: Seq<char>,
    pub qtype: u16,
    pub qclass: u16,
}

/// Spec-level mirror of typed RDATA.
pub enum RdataModel {
    A(Ipv4Addr),
    AAAA(Ipv6Addr),
    Cname(Seq<char>),
    Ptr(Seq<char>),
    Unimplemented(u16),
}

/// Spec-level mirror of a resource record.
pub struct RecordModel {
    pub name: Seq<char>,
    pub rtype: u16,
    pub rclass: u16,
    pub ttl: u32,
    pub rdlength: u16,
    pub rdata: RdataModel,
}

/// Spec-level mirror of a whole message.
pub struct MessageModel {
    pub header: DnsHeader,
    pub questions: Seq<QuestionModel>,
    pub answers: Seq<RecordModel>,
    pub authorities: Seq<RecordModel>,
    pub additional: Seq<RecordModel>,
}

impl View for DnsQuestion {
    type V = QuestionModel;

    open spec fn view(&self) -> QuestionModel {
        QuestionModel { qname: self.qname@, qtype: self.qtype, qclass: self.qclass }
    }
}

impl View for DNSRData {
    type V = RdataModel;

    open spec fn view(&self) -> RdataModel {
        match self {
            DNSRData::A(a) => RdataModel::A(*a),
            DNSRData::AAAA(a) => RdataModel::AAAA(*a),
            DNSRData::CNAME(d) => RdataModel::Cname(d@),
            DNSRData::PTR(d) => RdataModel::Ptr(d@),
            DNSRData::UNIMPLEMENTED(t) => RdataModel::Unimplemented(*t),
        }
    }
}

impl View for DnsResourceRecord {
    type V = RecordModel;

    open spec fn view(&self) -> RecordModel {
        RecordModel {
            name: self.name@,
            rtype: self.rtype,
            rclass: self.rclass,
            ttl: self.ttl,
            rdlength: self.rdlength,
            rdata: self.rdata@,
        }
    }
}

/// The models of a sequence of questions, element by element.
pub open spec fn questions_model(v: Seq<DnsQuestion>) -> Seq<QuestionModel> {
    Seq::new(v.len(), |i: int| v[i]@)
}

/// The models of a sequence of resource records, element by element.
pub open spec fn records_model(v: Seq<DnsResourceRecord>) -> Seq<RecordModel> {
    Seq::new(v.len(), |i: int| v[i]@)
}

impl View for DnsMessage {
    type V = MessageModel;

    open spec fn view(&self) -> MessageModel {
        MessageModel {
            header: self.header,
            questions: questions_model(self.questions@),
            answers: records_model(self.answers@),
            authorities: records_model(self.authorities@),
            additional: records_model(self.additional@),
        }
    }
}

/// The characters of the label bytes `s[start..start + len]`.
pub open spec fn label_chars(s: Seq<u8>, start: int, len: int) -> Seq<char> {
    Seq::new(len as nat, |j: int| s[start + j] as char)
}

/// Decodes the name that starts at `s[i]`, spending at most `hops` pointer
/// jumps, and gives the decoded name together with the position just after
/// the name's in-place portion (after the terminator, or after the first
/// 2-byte pointer). Labels are joined by '.'; a pointer stands for the whole
/// name decoded at its offset. `None` is any malformed name: a read past the
/// end of the message, or a pointer chain longer than the hop budget.
pub open spec fn spec_parse_name(s: Seq<u8>, i: int, hops: nat) -> Option<(Seq<char>, int)>
    decreases hops, s.len() - i,
{
    if i < 0 || i >= s.len() {
        None
    } else {
        let b = s[i];
        if b == 0 {
            Some((Seq::empty(), i + 1))
        } else if b >= 0xC0 {
            if i + 1 < s.len() && hops > 0 {
                let off = (b as int - 0xC0) * 0x100 + s[i + 1] as int;
                if off < s.len() {
                    match spec_parse_name(s, off, (hops - 1) as nat) {
                        Some(p) => Some((p.0, i + 2)),
                        None => None,
                    }
                } else {
                    None
                }
            } else {
                None
            }
        } else {
            let l = b as int;
            if i + 1 + l <= s.len() {
                match spec_parse_name(s, i + 1 + l, hops) {
                    Some(p) => {
                        let lbl = label_chars(s, i + 1, l);
                        if p.0.len() == 0 {
                            Some((lbl, p.1))
                        } else {
                            Some((lbl + seq!['.'] + p.0, p.1))
                        }
                    },
                    None => None,
                }
            } else {
                None
            }
        }
    }
}

/// A larger hop budget never changes the result of a decode that succeeds.
pub proof fn lemma_name_hops_monotonic(s: Seq<u8>, i: int, h1: nat, h2: nat)
    requires
        h1 <= h2,
        spec_parse_name(s, i, h1) is Some,
    ensures
        spec_parse_name(s, i, h2) == spec_parse_name(s, i, h1),
    decreases h1, s.len() - i,
{
    let b = s[i];
    if b == 0 {
    } else if b >= 0xC0 {
        let off = (b as int - 0xC0) * 0x100 + s[i + 1] as int;
        lemma_name_hops_monotonic(s, off, (h1 - 1) as nat, (h2 - 1) as nat);
    } else {
        lemma_name_hops_monotonic(s, i + 1 + b as int, h1, h2);
    }
}

/// A name that is a pointer decodes to the same string as decoding directly
/// at the pointed-to offset with the same hop budget.
pub proof fn lemma_pointer_decodes_target(s: Seq<u8>, i: int)
    requires
        0 <= i < s.len(),
        s[i] >= 0xC0,
        spec_parse_name(s, i, s.len()) is Some,
    ensures
        ({
            let off = (s[i] as int - 0xC0) * 0x100 + s[i + 1] as int;
            &&& spec_parse_name(s, off, s.len()) is Some
            &&& spec_parse_name(s, off, s.len())->Some_0.0 == spec_parse_name(
                s,
                i,
                s.len(),
            )->Some_0.0
        }),
{
    let off = (s[i] as int - 0xC0) * 0x100 + s[i + 1] as int;
    lemma_name_hops_monotonic(s, off, (s.len() - 1) as nat, s.len());
}

/// Decodes the name at `pos` with `hops` pointer jumps left, mirroring
/// `spec_parse_name` case by case.
fn parse_name_rec(packet: &[u8], pos: usize, hops: usize) -> (r: Result<
    (String, usize),
    FormatError,
>)
    ensures
        r is Ok <==> spec_parse_name(packet@, pos as int, hops as nat) is Some,
        r matches Ok(p) ==> spec_parse_name(packet@, pos as int, hops as nat) == Some(
            (p.0@, p.1 as int),
        ),
        r matches Err(e) ==> e.layer == Layer::Dns,
    decreases hops, packet@.len() - pos,
{
    if pos >= packet.len() {
        return Err(FormatError { layer: Layer::Dns });
    }
    let b = packet[pos];
    if b == 0 {
        Ok((String::new(), pos + 1))
    } else if b >= 0xC0 {
        if pos + 1 < packet.len() && hops > 0 {
            let off = (b as usize - 0xC0) * 0x100 + packet[pos + 1] as usize;
            if off < packet.len() {
                match parse_name_rec(packet, off, hops - 1) {
                    Ok(p) => Ok((p.0, pos + 2)),
                    Err(e) => Err(e),
                }
            } else {
                Err(FormatError { layer: Layer::Dns })
            }
        } else {
            Err(FormatError { layer: Layer::Dns })
        }
    } else {
        let l = b as usize;
        if l <= packet.len() - pos - 1 {
            let mut name = String::new();
            let mut k: usize = 0;
            while k < l
                invariant
                    k <= l,
                    pos + 1 + l <= packet@.len() <= usize::MAX,
                    name@ == label_chars(packet@, pos + 1, l as int).take(k as int),
                decreases l - k,
            {
                string_push(&mut name, packet[pos + 1 + k] as char);
                proof {
                    assert(label_chars(packet@, pos + 1, l as int).take(k + 1)
                        =~= label_chars(packet@, pos + 1, l as int).take(k as int).push(
                        packet@[pos + 1 + k] as char,
                    ));
                }
                k = k + 1;
            }
            proof {
                assert(label_chars(packet@, pos + 1, l as int).take(l as int) =~= label_chars(
                    packet@,
                    pos + 1,
                    l as int,
                ));
            }
            match parse_name_rec(packet, pos + 1 + l, hops) {
                Ok(p) => {
                    let (rest, end) = p;
                    if rest.as_str().is_empty() {
                        Ok((name, end))
                    } else {
                        string_push(&mut name, '.');
                        name.append(rest.as_str());
                        proof {
                            assert(name@ =~= label_chars(packet@, pos + 1, l as int)
                                + seq!['.'] + rest@);
                        }
                        Ok((name, end))
                    }
                },
                Err(e) => Err(e),
            }
        } else {
            Err(FormatError { layer: Layer::Dns })
        }
    }
}

/// The hop budget the decoder grants a name in message `s`: one jump per
/// message byte, which admits every acyclic pointer chain and rejects every
/// cycle.
pub open spec fn name_hop_bound(s: Seq<u8>) -> nat {
    s.len()
}

/// Decodes the compressed name starting at `*index`, leaving the cursor
/// just after the name's in-place portion (after its terminator, or after
/// the first 2-byte pointer — never inside the pointed-to region). On
/// failure the cursor is unchanged.
pub fn parse_name(packet: &[u8], index: &mut usize) -> (r: Result<String, FormatError>)
    ensures
        r is Ok <==> spec_parse_name(packet@, *old(index) as int, name_hop_bound(packet@)) is Some,
        r matches Ok(nm) ==> spec_parse_name(packet@, *old(index) as int, name_hop_bound(packet@))
            == Some((nm@, *final (index) as int)),
        r is Err ==> *final (index) == *old(index),
        r matches Err(e) ==> e.layer == Layer::Dns,
{
    match parse_name_rec(packet, *index, packet.len()) {
        Ok(p) => {
            *index = p.1;
            Ok(p.0)
        },
        Err(e) => Err(e),
    }
}

/// The typed RDATA for a record of type `rtype` whose data starts at
/// `rd_start`: 1 is an A record (4 address bytes), 28 an AAAA record (16
/// bytes as 8 big-endian segments), 5 a CNAME and 12 a PTR (a compressed
/// name, which may point back into the whole message); any other code is
/// kept uninterpreted.
pub open spec fn spec_parse_rdata(s: Seq<u8>, rtype: u16, rd_start: int) -> Option<RdataModel> {
    if rtype == 1 {
        if rd_start + 4 <= s.len() {
            Some(RdataModel::A(ipv4_at(s, rd_start)))
        } else {
            None
        }
    } else if rtype == 28 {
        if rd_start + 16 <= s.len() {
            Some(RdataModel::AAAA(ipv6_at(s, rd_start)))
        } else {
            None
        }
    } else if rtype == 5 {
        match spec_parse_name(s, rd_start, name_hop_bound(s)) {
            Some(p) => Some(RdataModel::Cname(p.0)),
            None => None,
        }
    } else if rtype == 12 {
        match spec_parse_name(s, rd_start, name_hop_bound(s)) {
            Some(p) => Some(RdataModel::Ptr(p.0)),
            None => None,
        }
    } else {
        Some(RdataModel::Unimplemented(rtype))
    }
}

/// Where the fixed 10-byte field block of the record at `i` starts: just
/// after the record's owner name. Meaningful only when the name decodes.
pub open spec fn record_fields_start(s: Seq<u8>, i: int) -> int {
    spec_parse_name(s, i, name_hop_bound(s))->Some_0.1
}

/// Decodes the resource record at `i`: owner name, the five fixed fields,
/// then the typed RDATA. The resulting cursor is `rdata_start + rdlength`
/// regardless of how many bytes the typed RDATA decode consumed; a record
/// whose declared RDATA extends past the message is refused as truncated.
pub open spec fn spec_parse_record(s: Seq<u8>, i: int) -> Option<(RecordModel, int)> {
    match spec_parse_name(s, i, name_hop_bound(s)) {
        Some(np) => {
            let p = np.1;
            if p + 10 <= s.len() {
                let rtype = be16(s, p) as u16;
                let rdlength = be16(s, p + 8) as u16;
                let rd_start = p + 10;
                if rd_start + rdlength <= s.len() {
                    match spec_parse_rdata(s, rtype, rd_start) {
                        Some(rd) => Some(
                            (
                                RecordModel {
                                    name: np.0,
                                    rtype,
                                    rclass: be16(s, p + 2) as u16,
                                    ttl: be32(s, p + 4) as u32,
                                    rdlength,
                                    rdata: rd,
                                },
                                rd_start + rdlength,
                            ),
                        ),
                        None => None,
                    }
                } else {
                    None
                }
            } else {
                None
            }
        },
        None => None,
    }
}

/// Cursor discipline: after a decoded record with `rdlength = L`, the
/// cursor stands at `rdata_start + L` — ten bytes past the owner name, plus
/// the declared RDATA length — independent of the typed RDATA's own
/// consumption.
pub proof fn lemma_record_cursor_discipline(s: Seq<u8>, i: int)
    requires
        spec_parse_record(s, i) is Some,
    ensures
        spec_parse_record(s, i)->Some_0.1 == record_fields_start(s, i) + 10 + spec_parse_record(
            s,
            i,
        )->Some_0.0.rdlength,
{
}

/// Decodes the question at `i`: a name followed by the 16-bit qtype and
/// qclass.
pub open spec fn spec_parse_question(s: Seq<u8>, i: int) -> Option<(QuestionModel, int)> {
    match spec_parse_name(s, i, name_hop_bound(s)) {
        Some(np) => {
            let p = np.1;
            if p + 4 <= s.len() {
                Some(
                    (
                        QuestionModel {
                            qname: np.0,
                            qtype: be16(s, p) as u16,
                            qclass: be16(s, p + 2) as u16,
                        },
                        p + 4,
                    ),
                )
            } else {
                None
            }
        },
        None => None,
    }
}

/// Decodes `count` consecutive questions starting at `i`.
pub open spec fn spec_parse_questions(s: Seq<u8>, i: int, count: nat) -> Option<
    (Seq<QuestionModel>, int),
>
    decreases count,
{
    if count == 0 {
        Some((Seq::empty(), i))
    } else {
        match spec_parse_question(s, i) {
            Some(qp) => match spec_parse_questions(s, qp.1, (count - 1) as nat) {
                Some(rp) => Some((seq![qp.0] + rp.0, rp.1)),
                None => None,
            },
            None => None,
        }
    }
}

/// Decodes `count` consecutive resource records starting at `i`.
pub open spec fn spec_parse_records(s: Seq<u8>, i: int, count: nat) -> Option<
    (Seq<RecordModel>, int),
>
    decreases count,
{
    if count == 0 {
        Some((Seq::empty(), i))
    } else {
        match spec_parse_record(s, i) {
            Some(rp) => match spec_parse_records(s, rp.1, (count - 1) as nat) {
                Some(tp) => Some((seq![rp.0] + tp.0, tp.1)),
                None => None,
            },
            None => None,
        }
    }
}

/// Decodes the 12-byte header.
pub open spec fn spec_parse_header(s: Seq<u8>) -> Option<DnsHeader> {
    if s.len() >= 12 {
        Some(
            DnsHeader {
                id: be16(s, 0) as u16,
                flags: be16(s, 2) as u16,
                qd_count: be16(s, 4) as u16,
                an_count: be16(s, 6) as u16,
                ns_count: be16(s, 8) as u16,
                ar_count: be16(s, 10) as u16,
            },
        )
    } else {
        None
    }
}

/// Decodes a whole message: the header, then as many questions, answers,
/// authorities and additional records as the header's counts declare, each
/// section starting where the previous one ended.
pub open spec fn spec_parse_message(s: Seq<u8>) -> Option<MessageModel> {
    match spec_parse_header(s) {
        Some(h) => match spec_parse_questions(s, 12, h.qd_count as nat) {
            Some(qp) => match spec_parse_records(s, qp.1, h.an_count as nat) {
                Some(ap) => match spec_parse_records(s, ap.1, h.ns_count as nat) {
                    Some(np) => match spec_parse_records(s, np.1, h.ar_count as nat) {
                        Some(dp) => Some(
                            MessageModel {
                                header: h,
                                questions: qp.0,
                                answers: ap.0,
                                authorities: np.0,
                                additional: dp.0,
                            },
                        ),
                        None => None,
                    },
                    None => None,
                },
                None => None,
            },
            None => None,
        },
        None => None,
    }
}

/// A buffer shorter than the 12-byte header never decodes as a message.
pub proof fn lemma_dns_min_length(s: Seq<u8>)
    ensures
        s.len() < 12 ==> spec_parse_header(s) is None,
        s.len() < 12 ==> spec_parse_message(s) is None,
{
}

impl DnsHeader {
    /// Decodes the 12-byte header and sets the cursor to byte 12. On
    /// failure the cursor is unchanged.
    pub fn parse(message: &[u8], index: &mut usize) -> (r: Result<DnsHeader, FormatError>)
        ensures
            r is Ok <==> spec_parse_header(message@) is Some,
            r matches Ok(h) ==> Some(h) == spec_parse_header(message@) && *final (index) == 12,
            r is Err ==> *final (index) == *old(index),
            r matches Err(e) ==> e.layer == Layer::Dns,
    {
        if message.len() < 12 {
            return Err(FormatError { layer: Layer::Dns });
        }
        let h = DnsHeader {
            id: read_be16(message, 0),
            flags: read_be16(message, 2),
            qd_count: read_be16(message, 4),
            an_count: read_be16(message, 6),
            ns_count: read_be16(message, 8),
            ar_count: read_be16(message, 10),
        };
        *index = 12;
        Ok(h)
    }
}

/// Decodes the question starting at `start`, returning it with the cursor
/// position after it.
fn question_at(message: &[u8], start: usize) -> (r: Result<(DnsQuestion, usize), FormatError>)
    ensures
        r is Ok <==> spec_parse_question(message@, start as int) is Some,
        r matches Ok(p) ==> spec_parse_question(message@, start as int) == Some(
            (p.0@, p.1 as int),
        ),
        r matches Err(e) ==> e.layer == Layer::Dns,
{
    let mut pos = start;
    let qname = match parse_name(message, &mut pos) {
        Ok(nm) => nm,
        Err(e) => {
            return Err(e);
        },
    };
    if message.len() < 4 || pos > message.len() - 4 {
        return Err(FormatError { layer: Layer::Dns });
    }
    let qtype = read_be16(message, pos);
    let qclass = read_be16(message, pos + 2);
    Ok((DnsQuestion { qname, qtype, qclass }, pos + 4))
}

impl DnsQuestion {
    /// Decodes the question at `*index` and advances the cursor past it. On
    /// failure the cursor is unchanged.
    pub fn parse(message: &[u8], index: &mut usize) -> (r: Result<DnsQuestion, FormatError>)
        ensures
            r is Ok <==> spec_parse_question(message@, *old(index) as int) is Some,
            r matches Ok(q) ==> spec_parse_question(message@, *old(index) as int) == Some(
                (q@, *final (index) as int),
            ),
            r is Err ==> *final (index) == *old(index),
            r matches Err(e) ==> e.layer == Layer::Dns,
    {
        match question_at(message, *index) {
            Ok(p) => {
                *index = p.1;
                Ok(p.0)
            },
            Err(e) => Err(e),
        }
    }
}

/// Decodes the typed RDATA of type `rtype` at `rd_start`.
fn rdata_at(message: &[u8], rtype: u16, rd_start: usize) -> (r: Result<DNSRData, FormatError>)
    ensures
        r is Ok <==> spec_parse_rdata(message@, rtype, rd_start as int) is Some,
        r matches Ok(rd) ==> Some(rd@) == spec_parse_rdata(message@, rtype, rd_start as int),
        r matches Err(e) ==> e.layer == Layer::Dns,
{
    if rtype == 1 {
        if message.len() < 4 || rd_start > message.len() - 4 {
            return Err(FormatError { layer: Layer::Dns });
        }
        Ok(DNSRData::A(read_ipv4_at(message, rd_start)))
    } else if rtype == 28 {
        if message.len() < 16 || rd_start > message.len() - 16 {
            return Err(FormatError { layer: Layer::Dns });
        }
        Ok(DNSRData::AAAA(read_ipv6_at(message, rd_start)))
    } else if rtype == 5 {
        let mut pos = rd_start;
        match parse_name(message, &mut pos) {
            Ok(nm) => Ok(DNSRData::CNAME(nm)),
            Err(e) => Err(e),
        }
    } else if rtype == 12 {
        let mut pos = rd_start;
        match parse_name(message, &mut pos) {
            Ok(nm) => Ok(DNSRData::PTR(nm)),
            Err(e) => Err(e),
        }
    } else {
        Ok(DNSRData::UNIMPLEMENTED(rtype))
    }
}

/// Decodes the resource record starting at `start`, returning it with the
/// cursor set to `rdata_start + rdlength` whatever the typed decode
/// consumed.
fn record_at(message: &[u8], start: usize) -> (r: Result<(DnsResourceRecord, usize), FormatError>)
    ensures
        r is Ok <==> spec_parse_record(message@, start as int) is Some,
        r matches Ok(p) ==> spec_parse_record(message@, start as int) == Some((p.0@, p.1 as int)),
        r matches Err(e) ==> e.layer == Layer::Dns,
{
    let mut pos = start;
    let name = match parse_name(message, &mut pos) {
        Ok(nm) => nm,
        Err(e) => {
            return Err(e);
        },
    };
    if message.len() < 10 || pos > message.len() - 10 {
        return Err(FormatError { layer: Layer::Dns });
    }
    let rtype = read_be16(message, pos);
    let rclass = read_be16(message, pos + 2);
    let ttl = read_be32(message, pos + 4);
    let rdlength = read_be16(message, pos + 8);
    let rd_start = pos + 10;
    if rdlength as usize > message.len() - rd_start {
        return Err(FormatError { layer: Layer::Dns });
    }
    let rdata = match rdata_at(message, rtype, rd_start) {
        Ok(rd) => rd,
        Err(e) => {
            return Err(e);
        },
    };
    Ok((DnsResourceRecord { name, rtype, rclass, ttl, rdlength, rdata }, rd_start
        + rdlength as usize))
}

impl DnsResourceRecord {
    /// Decodes the record at `*index` and leaves the cursor at
    /// `rdata_start + rdlength`, whatever the typed RDATA decode consumed.
    /// On failure the cursor is unchanged.
    pub fn parse(message: &[u8], index: &mut usize) -> (r: Result<DnsResourceRecord, FormatError>)
        ensures
            r is Ok <==> spec_parse_record(message@, *old(index) as int) is Some,
            r matches Ok(rec) ==> spec_parse_record(message@, *old(index) as int) == Some(
                (rec@, *final (index) as int),
            ),
            r is Err ==> *final (index) == *old(index),
            r matches Err(e) ==> e.layer == Layer::Dns,
    {
        match record_at(message, *index) {
            Ok(p) => {
                *index = p.1;
                Ok(p.0)
            },
            Err(e) => Err(e),
        }
    }

    /// Decodes typed RDATA of type `rtype` at `*index`. A name-valued RDATA
    /// (CNAME, PTR) advances the cursor past the name's in-place portion;
    /// the fixed-size and uninterpreted kinds leave it where it was, as the
    /// record decoder repositions the cursor from `rdlength` alone.
    pub fn parse_r_data(rtype: u16, message: &[u8], index: &mut usize) -> (r: Result<
        DNSRData,
        FormatError,
    >)
        ensures
            r is Ok <==> spec_parse_rdata(message@, rtype, *old(index) as int) is Some,
            r matches Ok(rd) ==> Some(rd@) == spec_parse_rdata(
                message@,
                rtype,
                *old(index) as int,
            ),
            (rtype == 5 || rtype == 12) && r is Ok ==> *final (index) as int == spec_parse_name(
                message@,
                *old(index) as int,
                name_hop_bound(message@),
            )->Some_0.1,
            !(rtype == 5 || rtype == 12) || r is Err ==> *final (index) == *old(index),
            r matches Err(e) ==> e.layer == Layer::Dns,
    {
        if rtype == 5 || rtype == 12 {
            let nm = match parse_name(message, index) {
                Ok(nm) => nm,
                Err(e) => {
                    return Err(e);
                },
            };
            if rtype == 5 {
                Ok(DNSRData::CNAME(nm))
            } else {
                Ok(DNSRData::PTR(nm))
            }
        } else {
            rdata_at(message, rtype, *index)
        }
    }
}

/// Decodes `count` consecutive questions starting at `start`.
fn questions_at(message: &[u8], start: usize, count: u16) -> (r: Result<
    (Vec<DnsQuestion>, usize),
    FormatError,
>)
    ensures
        r is Ok <==> spec_parse_questions(message@, start as int, count as nat) is Some,
        r matches Ok(p) ==> spec_parse_questions(message@, start as int, count as nat) == Some(
            (questions_model(p.0@), p.1 as int),
        ),
        r matches Err(e) ==> e.layer == Layer::Dns,
    decreases count,
{
    if count == 0 {
        proof {
            assert(questions_model(Seq::<DnsQuestion>::empty()) =~= Seq::<QuestionModel>::empty());
        }
        Ok((Vec::new(), start))
    } else {
        let q = match question_at(message, start) {
            Ok(p) => p,
            Err(e) => {
                return Err(e);
            },
        };
        let mut rest = match questions_at(message, q.1, count - 1) {
            Ok(p) => p,
            Err(e) => {
                return Err(e);
            },
        };
        let ghost rest_elems = rest.0@;
        let mut out: Vec<DnsQuestion> = Vec::new();
        out.push(q.0);
        out.append(&mut rest.0);
        proof {
            assert(questions_model(out@) =~= seq![q.0@] + questions_model(rest_elems));
        }
        Ok((out, rest.1))
    }
}

/// Decodes `count` consecutive resource records starting at `start`.
fn records_at(message: &[u8], start: usize, count: u16) -> (r: Result<
    (Vec<DnsResourceRecord>, usize),
    FormatError,
>)
    ensures
        r is Ok <==> spec_parse_records(message@, start as int, count as nat) is Some,
        r matches Ok(p) ==> spec_parse_records(message@, start as int, count as nat) == Some(
            (records_model(p.0@), p.1 as int),
        ),
        r matches Err(e) ==> e.layer == Layer::Dns,
    decreases count,
{
    if count == 0 {
        proof {
            assert(records_model(Seq::<DnsResourceRecord>::empty())
                =~= Seq::<RecordModel>::empty());
        }
        Ok((Vec::new(), start))
    } else {
        let rec = match record_at(message, start) {
            Ok(p) => p,
            Err(e) => {
                return Err(e);
            },
        };
        let mut rest = match records_at(message, rec.1, count - 1) {
            Ok(p) => p,
            Err(e) => {
                return Err(e);
            },
        };
        let ghost rest_elems = rest.0@;
        let mut out: Vec<DnsResourceRecord> = Vec::new();
        out.push(rec.0);
        out.append(&mut rest.0);
        proof {
            assert(records_model(out@) =~= seq![rec.0@] + records_model(rest_elems));
        }
        Ok((out, rest.1))
    }
}

impl DnsMessage {
    /// Decodes a whole DNS message. Fails exactly when the header, or any
    /// entry a section count declares, is malformed or truncated; the
    /// caller drops the datagram.
    pub fn parse(message: &[u8]) -> (r: Result<DnsMessage, FormatError>)
        ensures
            r is Ok <==> spec_parse_message(message@) is Some,
            r matches Ok(m) ==> Some(m@) == spec_parse_message(message@),
            r matches Err(e) ==> e.layer == Layer::Dns,
    {
        let mut index: usize = 0;
        let header = match DnsHeader::parse(message, &mut index) {
            Ok(h) => h,
            Err(e) => {
                return Err(e);
            },
        };
        let questions = match questions_at(message, index, header.qd_count) {
            Ok(p) => {
                index = p.1;
                p.0
            },
            Err(e) => {
                return Err(e);
            },
        };
        let answers = match records_at(message, index, header.an_count) {
            Ok(p) => {
                index = p.1;
                p.0
            },
            Err(e) => {
                return Err(e);
            },
        };
        let authorities = match records_at(message, index, header.ns_count) {
            Ok(p) => {
                index = p.1;
                p.0
            },
            Err(e) => {
                return Err(e);
            },
        };
        let additional = match records_at(message, index, header.ar_count) {
            Ok(p) => {
                index = p.1;
                p.0
            },
            Err(e) => {
                return Err(e);
            },
        };
        Ok(DnsMessage { header, questions, answers, authorities, additional })
    }
}

/// The PTR name carried by the first answer of `m`, if the message has an
/// answer and its RDATA is a PTR record.
pub open spec fn spec_first_ptr(m: MessageModel) -> Option<Seq<char>> {
    if m.answers.len() == 0 {
        None
    } else {
        match m.answers[0].rdata {
            RdataModel::Ptr(p) => Some(p),
            _ => None,
        }
    }
}

/// Extracts the domain a reverse-lookup response resolved to: the PTR name
/// of the first answer. `None` for a response that does not decode, has no
/// answers, or whose first answer is not a PTR record.
pub fn parse_dns_response(response: &[u8]) -> (r: Option<String>)
    ensures
        match spec_parse_message(response@) {
            Some(m) => match spec_first_ptr(m) {
                Some(p) => (r matches Some(d) && d@ == p),
                None => r is None,
            },
            None => r is None,
        },
{
    let message = match DnsMessage::parse(response) {
        Ok(m) => m,
        Err(_) => {
            return None;
        },
    };
    if message.answers.len() == 0 {
        return None;
    }
    match &message.answers[0].rdata {
        DNSRData::PTR(ptr) => Some(ptr.clone()),
        _ => None,
    }
}

/// The ASCII byte of a decimal digit value.
pub open spec fn dec_digit(n: int) -> u8 {
    (48 + n) as u8
}

/// The shortest decimal rendering of a byte value, as ASCII bytes.
pub open spec fn dec_label(n: u8) -> Seq<u8> {
    if n < 10 {
        seq![dec_digit(n as int)]
    } else if n < 100 {
        seq![dec_digit(n as int / 10), dec_digit(n as int % 10)]
    } else {
        seq![dec_digit(n as int / 100), dec_digit((n as int / 10) % 10), dec_digit(n as int % 10)]
    }
}

/// A label as it stands in a QNAME: its length byte, then its bytes.
pub open spec fn len_label(l: Seq<u8>) -> Seq<u8> {
    seq![l.len() as u8] + l
}

/// The ASCII byte of a lowercase hexadecimal digit value.
pub open spec fn hex_digit_byte(n: int) -> u8 {
    if n < 10 {
        (48 + n) as u8
    } else {
        (87 + n) as u8
    }
}

/// The four single-nibble labels of one address segment, low nibble first,
/// each with its length byte of 1.
pub open spec fn nibble_labels(seg: u16) -> Seq<u8> {
    seq![
        1u8,
        hex_digit_byte(seg as int % 16),
        1u8,
        hex_digit_byte((seg as int / 16) % 16),
        1u8,
        hex_digit_byte((seg as int / 256) % 16),
        1u8,
        hex_digit_byte(seg as int / 4096),
    ]
}

/// The QNAME labels of a reverse query, without the trailing zero
/// terminator: the address components reversed — IPv4 octets as decimal
/// labels under `in-addr.arpa`, IPv6 nibbles as single hex-digit labels
/// under `ip6.arpa`.
pub open spec fn reverse_qname(addr: IpAddr) -> Seq<u8> {
    match addr {
        IpAddr::V4(a) => len_label(dec_label(a.o3)) + len_label(dec_label(a.o2)) + len_label(
            dec_label(a.o1),
        ) + len_label(dec_label(a.o0)) + seq![
            7u8,
            105u8,
            110u8,
            45u8,
            97u8,
            100u8,
            100u8,
            114u8,
            4u8,
            97u8,
            114u8,
            112u8,
            97u8,
        ],
        IpAddr::V6(a) => nibble_labels(a.s7) + nibble_labels(a.s6) + nibble_labels(a.s5)
            + nibble_labels(a.s4) + nibble_labels(a.s3) + nibble_labels(a.s2) + nibble_labels(a.s1)
            + nibble_labels(a.s0) + seq![3u8, 105u8, 112u8, 54u8, 4u8, 97u8, 114u8, 112u8, 97u8],
    }
}

/// The 12 header bytes of a reverse query: a fixed identifier, a standard
/// query with the recursion-desired flag, one question, no other entries.
pub open spec fn reverse_query_header() -> Seq<u8> {
    seq![0x12u8, 0x34, 0x01, 0x00, 0x00, 0x01, 0x00, 0x00, 0x00, 0x00, 0x00, 0x00]
}

/// What follows the QNAME labels: the zero terminator, QTYPE 12 (PTR) and
/// QCLASS 1 (IN).
pub open spec fn reverse_query_tail() -> Seq<u8> {
    seq![0u8, 0x00, 0x0C, 0x00, 0x01]
}

/// A whole reverse-query packet for `addr`.
pub open spec fn spec_reverse_packet(addr: IpAddr) -> Seq<u8> {
    reverse_query_header() + reverse_qname(addr) + reverse_query_tail()
}

/// Appends the decimal label of `n` — its length byte, then its shortest
/// decimal ASCII rendering — to `out`.
fn push_dec_label(out: &mut Vec<u8>, n: u8)
    ensures
        final (out)@ == old(out)@ + len_label(dec_label(n)),
{
    if n < 10 {
        out.push(1);
        out.push(48 + n);
        proof {
            assert(final (out)@ =~= old(out)@ + len_label(dec_label(n)));
        }
    } else if n < 100 {
        out.push(2);
        out.push(48 + n / 10);
        out.push(48 + n % 10);
        proof {
            assert(final (out)@ =~= old(out)@ + len_label(dec_label(n)));
        }
    } else {
        out.push(3);
        out.push(48 + n / 100);
        out.push(48 + (n / 10) % 10);
        out.push(48 + n % 10);
        proof {
            assert(final (out)@ =~= old(out)@ + len_label(dec_label(n)));
        }
    }
}

/// Appends the four nibble labels of one IPv6 segment, low nibble first.
fn push_nibble_labels(out: &mut Vec<u8>, seg: u16)
    ensures
        final (out)@ == old(out)@ + nibble_labels(seg),
{
    let n0 = (seg % 16) as u8;
    let n1 = ((seg / 16) % 16) as u8;
    let n2 = ((seg / 256) % 16) as u8;
    let n3 = (seg / 4096) as u8;
    out.push(1);
    out.push(if n0 < 10 { 48 + n0 } else { 87 + n0 });
    out.push(1);
    out.push(if n1 < 10 { 48 + n1 } else { 87 + n1 });
    out.push(1);
    out.push(if n2 < 10 { 48 + n2 } else { 87 + n2 });
    out.push(1);
    out.push(if n3 < 10 { 48 + n3 } else { 87 + n3 });
    proof {
        assert(final (out)@ =~= old(out)@ + nibble_labels(seg));
    }
}

/// Builds the wire bytes of a reverse (PTR) query for `addr`: the fixed
/// header, the reversed-address QNAME under `in-addr.arpa` or `ip6.arpa`,
/// the zero terminator, QTYPE 12 and QCLASS 1.
#[verifier::rlimit(100)]
pub fn build_reverse_packet(addr: IpAddr) -> (r: Vec<u8>)
    ensures
        r@ == spec_reverse_packet(addr),
{
    let mut packet: Vec<u8> = Vec::new();
    packet.push(0x12);
    packet.push(0x34);
    packet.push(0x01);
    packet.push(0x00);
    packet.push(0x00);
    packet.push(0x01);
    packet.push(0x00);
    packet.push(0x00);
    packet.push(0x00);
    packet.push(0x00);
    packet.push(0x00);
    packet.push(0x00);
    proof {
        assert(packet@ =~= reverse_query_header());
    }
    match addr {
        IpAddr::V4(a) => {
            push_dec_label(&mut packet, a.o3);
            push_dec_label(&mut packet, a.o2);
            push_dec_label(&mut packet, a.o1);
            push_dec_label(&mut packet, a.o0);
            packet.push(7);
            packet.push(105);
            packet.push(110);
            packet.push(45);
            packet.push(97);
            packet.push(100);
            packet.push(100);
            packet.push(114);
            packet.push(4);
            packet.push(97);
            packet.push(114);
            packet.push(112);
            packet.push(97);
            proof {
                assert(packet@ =~= reverse_query_header() + reverse_qname(addr));
            }
        },
        IpAddr::V6(a) => {
            push_nibble_labels(&mut packet, a.s7);
            push_nibble_labels(&mut packet, a.s6);
            push_nibble_labels(&mut packet, a.s5);
            push_nibble_labels(&mut packet, a.s4);
            push_nibble_labels(&mut packet, a.s3);
            push_nibble_labels(&mut packet, a.s2);
            push_nibble_labels(&mut packet, a.s1);
            push_nibble_labels(&mut packet, a.s0);
            packet.push(3);
            packet.push(105);
            packet.push(112);
            packet.push(54);
            packet.push(4);
            packet.push(97);
            packet.push(114);
            packet.push(112);
            packet.push(97);
            proof {
                assert(packet@ =~= reverse_query_header() + reverse_qname(addr));
            }
        },
    }
    packet.push(0);
    packet.push(0x00);
    packet.push(0x0C);
    packet.push(0x00);
    packet.push(0x01);
    proof {
        assert(packet@ =~= spec_reverse_packet(addr));
    }
    packet
}

} // verus!

