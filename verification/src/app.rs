//! Host-resolution state: the insertion-ordered host table with packet
//! counts, the live DNS cache, the inverse CNAME map, and the
//! reverse-lookup fallback cache, together with the render-ready view over
//! them.
//!
//! The maps are association vectors with unique keys; every operation is
//! specified as a transition on their mathematical models.
use crate::network::dns::{records_model, DnsMessage, DNSRData, RecordModel, RdataModel};
use crate::network::ip::IpAddr;
use crate::network::sniffer::SnifferPacket;
use vstd::prelude::*;

verus! {

/// How many alias links a CNAME-chain walk may follow before it stops:
/// guards against cyclic alias maps.
pub const CNAME_HOP_LIMIT: u32 = 32;

/// Whether a key occurs in an association sequence.
pub open spec fn assoc_has<K, V>(m: Seq<(K, V)>, k: K) -> bool {
    exists|i: int| 0 <= i < m.len() && m[i].0 == k
}

/// The value at the first occurrence of a key, if any.
pub open spec fn assoc_get<K, V>(m: Seq<(K, V)>, k: K) -> Option<V>
    decreases m.len(),
{
    if m.len() == 0 {
        None
    } else if m[0].0 == k {
        Some(m[0].1)
    } else {
        assoc_get(m.drop_first(), k)
    }
}

/// The sequence with `k` bound to `v`: every binding of `k` replaced where
/// one exists, the pair appended where none does.
pub open spec fn assoc_set<K, V>(m: Seq<(K, V)>, k: K, v: V) -> Seq<(K, V)> {
    if assoc_has(m, k) {
        Seq::new(
            m.len(),
            |i: int|
                if m[i].0 == k {
                    (m[i].0, v)
                } else {
                    m[i]
                },
        )
    } else {
        m.push((k, v))
    }
}

/// No key occurs twice.
pub open spec fn keys_unique<K, V>(m: Seq<(K, V)>) -> bool {
    forall|i: int, j: int| 0 <= i < j < m.len() ==> m[i].0 != m[j].0
}

/// `assoc_get` looks past any prefix that does not hold the key.
proof fn lemma_assoc_get_skip<K, V>(m: Seq<(K, V)>, k: K, i: int)
    requires
        0 <= i <= m.len(),
        forall|j: int| 0 <= j < i ==> m[j].0 != k,
    ensures
        assoc_get(m, k) == assoc_get(m.skip(i), k),
    decreases i,
{
    if i == 0 {
        assert(m.skip(0) =~= m);
    } else {
        lemma_assoc_get_skip(m, k, i - 1);
        let t = m.skip(i - 1);
        assert(t.len() > 0 && t[0] == m[i - 1]);
        assert(t[0].0 != k);
        assert(t.drop_first() =~= m.skip(i));
        assert(assoc_get(t, k) == assoc_get(t.drop_first(), k));
    }
}

/// When no index holds the key, `assoc_get` gives nothing.
proof fn lemma_assoc_get_none<K, V>(m: Seq<(K, V)>, k: K)
    requires
        forall|j: int| 0 <= j < m.len() ==> m[j].0 != k,
    ensures
        assoc_get(m, k) is None,
{
    lemma_assoc_get_skip(m, k, m.len() as int);
    assert(m.skip(m.len() as int) =~= Seq::<(K, V)>::empty());
}

/// A host's packet count after one more packet; saturates at the counter's
/// maximum instead of wrapping.
pub open spec fn bump(c: u32) -> u32 {
    if c == u32::MAX {
        c
    } else {
        (c + 1) as u32
    }
}

/// One traffic observation: an already-seen source gets its count bumped
/// in place; an unseen one is appended with count 1, keeping first-seen
/// order.
pub open spec fn record_traffic_spec(h: Seq<(IpAddr, u32)>, ip: IpAddr) -> Seq<(IpAddr, u32)> {
    if assoc_has(h, ip) {
        Seq::new(
            h.len(),
            |i: int|
                if h[i].0 == ip {
                    (h[i].0, bump(h[i].1))
                } else {
                    h[i]
                },
        )
    } else {
        h.push((ip, 1u32))
    }
}

/// Walks the inverse CNAME map backward from `d` — alias target to the
/// name that was queried — for at most `hops` links, and gives the last
/// name reached.
pub open spec fn resolve_cname(
    cn: Seq<(Seq<char>, Seq<char>)>,
    d: Seq<char>,
    hops: nat,
) -> Seq<char>
    decreases hops,
{
    if hops == 0 {
        d
    } else {
        match assoc_get(cn, d) {
            Some(orig) => resolve_cname(cn, orig, (hops - 1) as nat),
            None => d,
        }
    }
}

/// What one answer record does to the live DNS cache and the inverse CNAME
/// map: a CNAME binds its target to the queried name; an A or AAAA record
/// binds the address to the queried name walked back through the alias
/// map; other record kinds change nothing.
pub open spec fn dns_answer_step(
    dns: Seq<(IpAddr, Seq<char>)>,
    cn: Seq<(Seq<char>, Seq<char>)>,
    r: RecordModel,
) -> (Seq<(IpAddr, Seq<char>)>, Seq<(Seq<char>, Seq<char>)>) {
    match r.rdata {
        RdataModel::Cname(target) => (dns, assoc_set(cn, target, r.name)),
        RdataModel::A(a) => (
            assoc_set(dns, IpAddr::V4(a), resolve_cname(cn, r.name, CNAME_HOP_LIMIT as nat)),
            cn,
        ),
        RdataModel::AAAA(a) => (
            assoc_set(dns, IpAddr::V6(a), resolve_cname(cn, r.name, CNAME_HOP_LIMIT as nat)),
            cn,
        ),
        _ => (dns, cn),
    }
}

/// The two caches after an answer section is processed in order.
pub open spec fn dns_answers_fold(
    dns: Seq<(IpAddr, Seq<char>)>,
    cn: Seq<(Seq<char>, Seq<char>)>,
    rs: Seq<RecordModel>,
) -> (Seq<(IpAddr, Seq<char>)>, Seq<(Seq<char>, Seq<char>)>)
    decreases rs.len(),
{
    if rs.len() == 0 {
        (dns, cn)
    } else {
        let st = dns_answer_step(dns, cn, rs[0]);
        dns_answers_fold(st.0, st.1, rs.drop_first())
    }
}

/// Looks a host up in an IP-keyed cache, cloning the cached domain.
fn domain_map_get(map: &Vec<(IpAddr, String)>, k: IpAddr) -> (r: Option<String>)
    ensures
        opt_domain_model(r) == assoc_get(domain_map_model(map@), k),
{
    let ghost m = domain_map_model(map@);
    let n = map.len();
    let mut i: usize = 0;
    while i < n
        invariant
            n == map@.len(),
            i <= n,
            m == domain_map_model(map@),
            forall|j: int| 0 <= j < i ==> m[j].0 != k,
        decreases n - i,
    {
        if map[i].0 == k {
            proof {
                lemma_assoc_get_skip(m, k, i as int);
                assert(m.skip(i as int)[0] == m[i as int]);
            }
            return Some(map[i].1.clone());
        }
        i = i + 1;
    }
    proof {
        lemma_assoc_get_none(m, k);
    }
    None
}

/// Binds a host to a domain in an IP-keyed cache: replaces the existing
/// binding or appends a new one, keeping keys unique.
fn domain_map_set(map: &mut Vec<(IpAddr, String)>, k: IpAddr, v: String)
    requires
        keys_unique(domain_map_model(old(map)@)),
    ensures
        domain_map_model(final (map)@) == assoc_set(domain_map_model(old(map)@), k, v@),
        keys_unique(domain_map_model(final (map)@)),
{
    let ghost m = domain_map_model(map@);
    let n = map.len();
    let mut i: usize = 0;
    while i < n
        invariant
            n == map@.len(),
            i <= n,
            map@ == old(map)@,
            m == domain_map_model(map@),
            keys_unique(m),
            forall|j: int| 0 <= j < i ==> m[j].0 != k,
        decreases n - i,
    {
        if map[i].0 == k {
            proof {
                assert(m[i as int].0 == k);
                assert(assoc_has(m, k));
            }
            map[i] = (k, v);
            proof {
                assert(domain_map_model(map@) =~= assoc_set(m, k, v@));
                assert(keys_unique(domain_map_model(map@)));
            }
            return ;
        }
        proof {
            assert(m[i as int].0 == map@[i as int].0);
        }
        i = i + 1;
    }
    proof {
        assert(!assoc_has(m, k));
    }
    map.push((k, v));
    proof {
        assert(domain_map_model(map@) =~= assoc_set(m, k, v@));
        assert(keys_unique(domain_map_model(map@)));
    }
}

/// Looks a domain up in the inverse CNAME map, cloning the stored name.
fn cname_map_get(map: &Vec<(String, String)>, k: &String) -> (r: Option<String>)
    ensures
        opt_domain_model(r) == assoc_get(cname_map_model(map@), k@),
{
    let ghost m = cname_map_model(map@);
    let n = map.len();
    let mut i: usize = 0;
    while i < n
        invariant
            n == map@.len(),
            i <= n,
            m == cname_map_model(map@),
            forall|j: int| 0 <= j < i ==> m[j].0 != k@,
        decreases n - i,
    {
        if map[i].0 == *k {
            proof {
                lemma_assoc_get_skip(m, k@, i as int);
                assert(m.skip(i as int)[0] == m[i as int]);
            }
            return Some(map[i].1.clone());
        }
        i = i + 1;
    }
    proof {
        lemma_assoc_get_none(m, k@);
    }
    None
}

/// Binds an alias target to the queried name in the inverse CNAME map:
/// replaces the existing binding or appends a new one, keeping keys
/// unique.
fn cname_map_set(map: &mut Vec<(String, String)>, k: String, v: String)
    requires
        keys_unique(cname_map_model(old(map)@)),
    ensures
        cname_map_model(final (map)@) == assoc_set(cname_map_model(old(map)@), k@, v@),
        keys_unique(cname_map_model(final (map)@)),
{
    let ghost m = cname_map_model(map@);
    let n = map.len();
    let mut i: usize = 0;
    while i < n
        invariant
            n == map@.len(),
            i <= n,
            map@ == old(map)@,
            m == cname_map_model(map@),
            keys_unique(m),
            forall|j: int| 0 <= j < i ==> m[j].0 != k@,
        decreases n - i,
    {
        if map[i].0 == k {
            proof {
                assert(m[i as int].0 == k@);
                assert(assoc_has(m, k@));
            }
            map[i] = (k, v);
            proof {
                assert(cname_map_model(map@) =~= assoc_set(m, k@, v@));
                assert(keys_unique(cname_map_model(map@)));
            }
            return ;
        }
        proof {
            assert(m[i as int].0 == map@[i as int].0@);
        }
        i = i + 1;
    }
    proof {
        assert(!assoc_has(m, k@));
    }
    map.push((k, v));
    proof {
        assert(cname_map_model(map@) =~= assoc_set(m, k@, v@));
        assert(keys_unique(cname_map_model(map@)));
    }
}

/// Per-host resolution state: the packet counter. The domain is not owned
/// here; it is resolved on read with cache precedence.
#[derive(Clone, Copy, Debug)]
pub struct HostInfo {
    pub num_packets: u32,
}

/// One row of the rendered table.
#[derive(Debug)]
pub struct NetworkEntry {
    pub ip: IpAddr,
    pub domain: Option<String>,
    pub info: HostInfo,
}

/// The selection cursor of the rendered table.
#[derive(Clone, Copy, Debug)]
pub struct TableSelection {
    pub selected: Option<usize>,
}

/// The application state: insertion-ordered host list with per-host
/// counters, the live DNS cache, the reverse-lookup fallback cache, the
/// inverse CNAME map, the table selection, and the running flag.
#[derive(Debug)]
pub struct App {
    pub state: TableSelection,
    pub ip_to_domain: Vec<(IpAddr, String)>,
    pub ip_to_domain_fallback: Vec<(IpAddr, String)>,
    pub host_ips: Vec<IpAddr>,
    pub inv_cname_map: Vec<(String, String)>,
    pub host_info: Vec<HostInfo>,
    pub running: bool,
}

/// The model of an IP-to-domain cache: each domain as its characters.
pub open spec fn domain_map_model(v: Seq<(IpAddr, String)>) -> Seq<(IpAddr, Seq<char>)> {
    Seq::new(v.len(), |i: int| (v[i].0, v[i].1@))
}

/// The model of the inverse CNAME map.
pub open spec fn cname_map_model(v: Seq<(String, String)>) -> Seq<(Seq<char>, Seq<char>)> {
    Seq::new(v.len(), |i: int| (v[i].0@, v[i].1@))
}

/// The domain of an optional owned string.
pub open spec fn opt_domain_model(o: Option<String>) -> Option<Seq<char>> {
    match o {
        Some(s) => Some(s@),
        None => None,
    }
}

impl App {
    /// The host table: first-seen order with each host's packet count.
    pub open spec fn hosts(&self) -> Seq<(IpAddr, u32)> {
        Seq::new(self.host_ips@.len(), |i: int| (self.host_ips@[i], self.host_info@[i].num_packets))
    }

    /// The live DNS cache model.
    pub open spec fn dns_map(&self) -> Seq<(IpAddr, Seq<char>)> {
        domain_map_model(self.ip_to_domain@)
    }

    /// The reverse-lookup fallback cache model.
    pub open spec fn fallback_map(&self) -> Seq<(IpAddr, Seq<char>)> {
        domain_map_model(self.ip_to_domain_fallback@)
    }

    /// The inverse CNAME map model.
    pub open spec fn cnames(&self) -> Seq<(Seq<char>, Seq<char>)> {
        cname_map_model(self.inv_cname_map@)
    }

    /// Well-formedness: the counter vector runs parallel to the host list,
    /// no host occurs twice, and each cache binds a key once.
    pub open spec fn wf(&self) -> bool {
        &&& self.host_info@.len() == self.host_ips@.len()
        &&& keys_unique(self.hosts())
        &&& keys_unique(self.dns_map())
        &&& keys_unique(self.fallback_map())
        &&& keys_unique(self.cnames())
    }

    /// What a host resolves to on read: the live DNS cache first, the
    /// reverse-lookup fallback cache second, nothing otherwise.
    pub open spec fn resolve_domain_spec(&self, ip: IpAddr) -> Option<Seq<char>> {
        match assoc_get(self.dns_map(), ip) {
            Some(d) => Some(d),
            None => assoc_get(self.fallback_map(), ip),
        }
    }

    /// The rendered table: one row per host in first-seen order, with the
    /// host's resolved domain and packet count.
    pub open spec fn entries_spec(&self) -> Seq<(IpAddr, Option<Seq<char>>, u32)> {
        Seq::new(
            self.hosts().len(),
            |i: int|
                (self.hosts()[i].0, self.resolve_domain_spec(self.hosts()[i].0), self.hosts()[i].1),
        )
    }

    /// Whether this state holds nothing: no hosts, no cached resolutions,
    /// no alias links. What a fresh state and a cleared state both satisfy.
    pub open spec fn is_empty_state(&self) -> bool {
        &&& self.hosts() == Seq::<(IpAddr, u32)>::empty()
        &&& self.dns_map() == Seq::<(IpAddr, Seq<char>)>::empty()
        &&& self.fallback_map() == Seq::<(IpAddr, Seq<char>)>::empty()
        &&& self.cnames() == Seq::<(Seq<char>, Seq<char>)>::empty()
    }
}

/// The table index selected after moving up: one less, saturating at the
/// top row; no selection counts as row 0.
pub open spec fn prev_index(sel: Option<usize>) -> Option<usize> {
    let idx: usize = match sel {
        Some(i) => i,
        None => 0usize,
    };
    if idx > 0 {
        Some((idx - 1) as usize)
    } else {
        Some(idx)
    }
}

/// The table index selected after moving down: one more while that is
/// still a valid row of a table with `n` rows; no selection counts as row
/// 0.
pub open spec fn next_index(sel: Option<usize>, n: nat) -> Option<usize> {
    let idx: usize = match sel {
        Some(i) => i,
        None => 0usize,
    };
    if idx + 1 < n {
        Some((idx + 1) as usize)
    } else {
        Some(idx)
    }
}

impl Default for App {
    /// A fresh state: running, nothing selected, every structure empty.
    fn default() -> (r: Self)
        ensures
            r.wf(),
            r.is_empty_state(),
            r.running == true,
            r.state.selected is None,
    {
        let r = App {
            running: true,
            state: TableSelection { selected: None },
            host_ips: Vec::new(),
            inv_cname_map: Vec::new(),
            ip_to_domain: Vec::new(),
            ip_to_domain_fallback: Vec::new(),
            host_info: Vec::new(),
        };
        proof {
            assert(r.hosts() =~= Seq::<(IpAddr, u32)>::empty());
            assert(r.dns_map() =~= Seq::<(IpAddr, Seq<char>)>::empty());
            assert(r.fallback_map() =~= Seq::<(IpAddr, Seq<char>)>::empty());
            assert(r.cnames() =~= Seq::<(Seq<char>, Seq<char>)>::empty());
        }
        r
    }
}

impl App {
    /// Constructs a fresh state.
    pub fn new() -> (r: Self)
        ensures
            r.wf(),
            r.is_empty_state(),
            r.running == true,
            r.state.selected is None,
    {
        App::default()
    }

    /// Handles the timer tick; the state carries nothing tick-dependent.
    pub fn tick(&self) {
    }

    /// Drops the running flag so the surrounding loop exits.
    pub fn quit(&mut self)
        ensures
            *final (self) == (App { running: false, ..*old(self) }),
    {
        self.running = false;
    }

    /// Records one traffic observation from `data.src`: an unseen source
    /// is appended to the table with count 1, a seen one keeps its place
    /// and gets its count bumped. Gives back whether the source was unseen,
    /// so the caller can start a reverse lookup for it.
    pub fn handle_packet(&mut self, data: SnifferPacket) -> (newly_seen: bool)
        requires
            old(self).wf(),
        ensures
            final (self).wf(),
            final (self).hosts() == record_traffic_spec(old(self).hosts(), data.src),
            newly_seen == !assoc_has(old(self).hosts(), data.src),
            final (self).dns_map() == old(self).dns_map(),
            final (self).fallback_map() == old(self).fallback_map(),
            final (self).cnames() == old(self).cnames(),
            final (self).state == old(self).state,
            final (self).running == old(self).running,
    {
        let ghost h = self.hosts();
        let n = self.host_ips.len();
        let mut i: usize = 0;
        while i < n
            invariant
                n == self.host_ips@.len(),
                i <= n,
                *self == *old(self),
                h == self.hosts(),
                old(self).wf(),
                forall|j: int| 0 <= j < i ==> h[j].0 != data.src,
            decreases n - i,
        {
            if self.host_ips[i] == data.src {
                proof {
                    assert(h[i as int].0 == data.src);
                    assert(assoc_has(h, data.src));
                }
                let c = self.host_info[i].num_packets;
                let nc = if c == u32::MAX {
                    c
                } else {
                    c + 1
                };
                self.host_info[i] = HostInfo { num_packets: nc };
                proof {
                    assert(self.hosts() =~= record_traffic_spec(h, data.src));
                    assert(keys_unique(self.hosts()));
                }
                return false;
            }
            proof {
                assert(h[i as int].0 == self.host_ips@[i as int]);
            }
            i = i + 1;
        }
        proof {
            assert(!assoc_has(h, data.src));
        }
        self.host_ips.push(data.src);
        self.host_info.push(HostInfo { num_packets: 1 });
        proof {
            assert(self.hosts() =~= h.push((data.src, 1u32)));
            assert(keys_unique(self.hosts()));
        }
        true
    }

    /// Caches a reverse-lookup result: binds `ip` to `domain` in the
    /// fallback cache.
    pub fn record_fallback_domain(&mut self, ip: IpAddr, domain: String)
        requires
            old(self).wf(),
        ensures
            final (self).wf(),
            final (self).fallback_map() == assoc_set(old(self).fallback_map(), ip, domain@),
            final (self).hosts() == old(self).hosts(),
            final (self).dns_map() == old(self).dns_map(),
            final (self).cnames() == old(self).cnames(),
            final (self).state == old(self).state,
            final (self).running == old(self).running,
    {
        domain_map_set(&mut self.ip_to_domain_fallback, ip, domain);
    }

    /// Binds `ip` in the live DNS cache to `domain` walked backward
    /// through the inverse CNAME map — from alias target to the name the
    /// traffic actually queried — for at most `CNAME_HOP_LIMIT` links.
    pub fn update_ip_domain_mapping(&mut self, ip: IpAddr, domain: String)
        requires
            old(self).wf(),
        ensures
            final (self).wf(),
            final (self).dns_map() == assoc_set(
                old(self).dns_map(),
                ip,
                resolve_cname(old(self).cnames(), domain@, CNAME_HOP_LIMIT as nat),
            ),
            final (self).hosts() == old(self).hosts(),
            final (self).fallback_map() == old(self).fallback_map(),
            final (self).cnames() == old(self).cnames(),
            final (self).state == old(self).state,
            final (self).running == old(self).running,
    {
        let ghost cn = self.cnames();
        let ghost target = resolve_cname(cn, domain@, CNAME_HOP_LIMIT as nat);
        let mut current = domain;
        let mut hops: u32 = CNAME_HOP_LIMIT;
        loop
            invariant_except_break
                hops <= CNAME_HOP_LIMIT,
                *self == *old(self),
                cn == self.cnames(),
                old(self).wf(),
                target == resolve_cname(cn, current@, hops as nat),
            ensures
                *self == *old(self),
                target == current@,
            decreases hops,
        {
            if hops == 0 {
                break ;
            }
            match cname_map_get(&self.inv_cname_map, &current) {
                Some(original_domain) => {
                    proof {
                        assert(assoc_get(cn, current@) == Some(original_domain@));
                    }
                    current = original_domain;
                    hops = hops - 1;
                },
                None => {
                    break ;
                },
            }
        }
        domain_map_set(&mut self.ip_to_domain, ip, current);
    }

    /// Folds the answer section of one DNS message into the caches, in
    /// answer order: CNAME answers extend the inverse alias map, A and
    /// AAAA answers bind their address to the walked-back queried name.
    /// An alias is walked only through links already recorded when its
    /// address record is processed.
    pub fn handle_dns_message(&mut self, data: DnsMessage)
        requires
            old(self).wf(),
        ensures
            final (self).wf(),
            ({
                let st = dns_answers_fold(
                    old(self).dns_map(),
                    old(self).cnames(),
                    records_model(data.answers@),
                );
                final (self).dns_map() == st.0 && final (self).cnames() == st.1
            }),
            final (self).hosts() == old(self).hosts(),
            final (self).fallback_map() == old(self).fallback_map(),
            final (self).state == old(self).state,
            final (self).running == old(self).running,
    {
        let ghost rs = records_model(data.answers@);
        let ghost dns0 = self.dns_map();
        let ghost cn0 = self.cnames();
        proof {
            assert(rs.skip(0) =~= rs);
        }
        let n = data.answers.len();
        let mut k: usize = 0;
        while k < n
            invariant
                n == data.answers@.len(),
                k <= n,
                self.wf(),
                rs == records_model(data.answers@),
                dns0 == old(self).dns_map(),
                cn0 == old(self).cnames(),
                dns_answers_fold(dns0, cn0, rs) == dns_answers_fold(
                    self.dns_map(),
                    self.cnames(),
                    rs.skip(k as int),
                ),
                self.hosts() == old(self).hosts(),
                self.fallback_map() == old(self).fallback_map(),
                self.state == old(self).state,
                self.running == old(self).running,
            decreases n - k,
        {
            let ghost pre_dns = self.dns_map();
            let ghost pre_cn = self.cnames();
            let rec = &data.answers[k];
            proof {
                assert(rs[k as int] == data.answers@[k as int]@);
            }
            match &rec.rdata {
                DNSRData::CNAME(cname) => {
                    cname_map_set(&mut self.inv_cname_map, cname.clone(), rec.name.clone());
                },
                DNSRData::A(ipv4) => {
                    self.update_ip_domain_mapping(IpAddr::V4(*ipv4), rec.name.clone());
                },
                DNSRData::AAAA(ipv6) => {
                    self.update_ip_domain_mapping(IpAddr::V6(*ipv6), rec.name.clone());
                },
                _ => {},
            }
            proof {
                let st = dns_answer_step(pre_dns, pre_cn, rs[k as int]);
                assert(self.dns_map() == st.0 && self.cnames() == st.1);
                assert(rs.skip(k as int)[0] == rs[k as int]);
                assert(rs.skip(k as int).drop_first() =~= rs.skip(k + 1));
                assert(dns_answers_fold(pre_dns, pre_cn, rs.skip(k as int)) == dns_answers_fold(
                    st.0,
                    st.1,
                    rs.skip(k + 1),
                ));
            }
            k = k + 1;
        }
        proof {
            assert(rs.skip(n as int) =~= Seq::<RecordModel>::empty());
        }
    }

    /// Resolves a host for display: the live DNS cache takes precedence,
    /// then the reverse-lookup fallback cache, else nothing.
    pub fn resolve_domain(&self, ip: IpAddr) -> (r: Option<String>)
        ensures
            opt_domain_model(r) == self.resolve_domain_spec(ip),
    {
        match domain_map_get(&self.ip_to_domain, ip) {
            Some(d) => Some(d),
            None => domain_map_get(&self.ip_to_domain_fallback, ip),
        }
    }

    /// The rows to render: one entry per host in first-seen order, each
    /// with its resolved domain (if any cache holds one) and its packet
    /// count. Read-only: the state is unchanged and the traversal can be
    /// repeated every refresh tick.
    pub fn entries_to_render(&self) -> (r: Vec<NetworkEntry>)
        requires
            self.wf(),
        ensures
            r@.len() == self.entries_spec().len(),
            forall|i: int| 0 <= i < r@.len() ==> r@[i].ip == self.hosts()[i].0,
            forall|i: int| 0 <= i < r@.len() ==> r@[i].info.num_packets == self.hosts()[i].1,
            forall|i: int|
                0 <= i < r@.len() ==> opt_domain_model(r@[i].domain) == self.resolve_domain_spec(
                    self.hosts()[i].0,
                ),
    {
        let mut out: Vec<NetworkEntry> = Vec::new();
        let n = self.host_ips.len();
        let mut i: usize = 0;
        while i < n
            invariant
                self.wf(),
                n == self.host_ips@.len(),
                i <= n,
                out@.len() == i,
                forall|j: int| 0 <= j < i ==> out@[j].ip == self.hosts()[j].0,
                forall|j: int| 0 <= j < i ==> out@[j].info.num_packets == self.hosts()[j].1,
                forall|j: int|
                    0 <= j < i ==> opt_domain_model(out@[j].domain) == self.resolve_domain_spec(
                        self.hosts()[j].0,
                    ),
            decreases n - i,
        {
            let ip = self.host_ips[i];
            let domain = self.resolve_domain(ip);
            let count = self.host_info[i].num_packets;
            out.push(NetworkEntry { ip, domain, info: HostInfo { num_packets: count } });
            proof {
                assert(self.hosts()[i as int] == (ip, count));
                assert(self.entries_spec()[i as int] == (ip, self.resolve_domain_spec(ip), count));
            }
            i = i + 1;
        }
        out
    }

    /// Moves the table selection up one row.
    pub fn prev_entry(&mut self)
        ensures
            *final (self) == (App {
                state: TableSelection { selected: prev_index(old(self).state.selected) },
                ..*old(self)
            }),
    {
        let idx: usize = match self.state.selected {
            Some(i) => i,
            None => 0,
        };
        self.state.selected = if idx > 0 {
            Some(idx - 1)
        } else {
            Some(idx)
        };
    }

    /// Moves the table selection down one row, while that stays within the
    /// host table.
    pub fn next_entry(&mut self)
        ensures
            *final (self) == (App {
                state: TableSelection {
                    selected: next_index(old(self).state.selected, old(self).host_ips@.len()),
                },
                ..*old(self)
            }),
    {
        let idx: usize = match self.state.selected {
            Some(i) => i,
            None => 0,
        };
        let len = self.host_ips.len();
        self.state.selected = if len > 0 && idx < len - 1 {
            Some(idx + 1)
        } else {
            Some(idx)
        };
    }

    /// Empties the host table, both resolution caches and the alias map in
    /// one call, so no reader between two calls sees a partial clear. The
    /// selection and the running flag stay.
    pub fn clear(&mut self)
        ensures
            final (self).wf(),
            final (self).is_empty_state(),
            final (self).state == old(self).state,
            final (self).running == old(self).running,
    {
        self.inv_cname_map.clear();
        self.host_ips.clear();
        self.host_info.clear();
        self.ip_to_domain.clear();
        self.ip_to_domain_fallback.clear();
        proof {
            assert(self.hosts() =~= Seq::<(IpAddr, u32)>::empty());
            assert(self.dns_map() =~= Seq::<(IpAddr, Seq<char>)>::empty());
            assert(self.fallback_map() =~= Seq::<(IpAddr, Seq<char>)>::empty());
            assert(self.cnames() =~= Seq::<(Seq<char>, Seq<char>)>::empty());
        }
    }
}

/// Observing sources A, B, A on a fresh table yields insertion order
/// [A, B] with counts A = 2, B = 1: a repeated source keeps its place.
pub proof fn lemma_record_traffic_order(a: IpAddr, b: IpAddr)
    requires
        a != b,
    ensures
        ({
            let h = record_traffic_spec(
                record_traffic_spec(record_traffic_spec(Seq::empty(), a), b),
                a,
            );
            h.len() == 2 && h[0] == (a, 2u32) && h[1] == (b, 1u32)
        }),
{
    let h0 = Seq::<(IpAddr, u32)>::empty();
    let h1 = record_traffic_spec(h0, a);
    assert(!assoc_has(h0, a));
    assert(h1 =~= seq![(a, 1u32)]);
    let h2 = record_traffic_spec(h1, b);
    assert(forall|i: int| 0 <= i < h1.len() ==> h1[i].0 != b);
    assert(!assoc_has(h1, b));
    assert(h2 =~= seq![(a, 1u32), (b, 1u32)]);
    let h3 = record_traffic_spec(h2, a);
    assert(h2[0].0 == a);
    assert(assoc_has(h2, a));
    assert(h3 =~= seq![(a, 2u32), (b, 1u32)]);
}

/// A cleared state renders as the empty table, and every operation on it
/// acts exactly as on a freshly constructed state: the next traffic
/// observation and the next resolution read see identical models.
pub proof fn lemma_cleared_state_acts_fresh(cleared: App, fresh: App, ip: IpAddr)
    requires
        cleared.is_empty_state(),
        fresh.is_empty_state(),
    ensures
        cleared.entries_spec() == Seq::<(IpAddr, Option<Seq<char>>, u32)>::empty(),
        record_traffic_spec(cleared.hosts(), ip) == record_traffic_spec(fresh.hosts(), ip),
        cleared.resolve_domain_spec(ip) == fresh.resolve_domain_spec(ip),
{
    assert(cleared.entries_spec() =~= Seq::<(IpAddr, Option<Seq<char>>, u32)>::empty());
}

/// Walking one alias link: a CNAME answer that binds `alias` to the
/// queried name, followed by an A answer for `alias`, caches the address
/// under the originally queried name.
pub proof fn lemma_cname_then_a_resolves_to_query(r1: RecordModel, r2: RecordModel)
    requires
        r1.rdata matches RdataModel::Cname(alias) && r2.name == alias && alias != r1.name,
        r2.rdata is A,
    ensures
        ({
            let st = dns_answers_fold(
                Seq::<(IpAddr, Seq<char>)>::empty(),
                Seq::<(Seq<char>, Seq<char>)>::empty(),
                seq![r1, r2],
            );
            assoc_get(st.0, IpAddr::V4(r2.rdata->A_0)) == Some(r1.name)
        }),
{
    let alias = r1.rdata->Cname_0;
    let dns0 = Seq::<(IpAddr, Seq<char>)>::empty();
    let cn0 = Seq::<(Seq<char>, Seq<char>)>::empty();
    let rs = seq![r1, r2];
    assert(!assoc_has(cn0, alias));
    let cn1 = assoc_set(cn0, alias, r1.name);
    assert(cn1 =~= seq![(alias, r1.name)]);
    assert(rs[0] == r1 && rs.drop_first() =~= seq![r2]);
    assert(dns_answer_step(dns0, cn0, r1) == (dns0, cn1));
    assert(assoc_get(cn1, alias) == Some(r1.name));
    assert(cn1.drop_first() =~= Seq::<(Seq<char>, Seq<char>)>::empty());
    assert(assoc_get(cn1, r1.name) is None);
    assert(resolve_cname(cn1, r1.name, (CNAME_HOP_LIMIT - 1) as nat) == r1.name);
    assert(resolve_cname(cn1, alias, CNAME_HOP_LIMIT as nat) == r1.name);
    let addr = IpAddr::V4(r2.rdata->A_0);
    let dns1 = assoc_set(dns0, addr, r1.name);
    assert(dns1 =~= seq![(addr, r1.name)]);
    assert(seq![r2].drop_first() =~= Seq::<RecordModel>::empty());
    assert(dns_answer_step(dns0, cn1, r2) == (dns1, cn1));
    assert(dns_answers_fold(dns1, cn1, Seq::<RecordModel>::empty()) == (dns1, cn1));
    assert(dns_answers_fold(dns0, cn1, seq![r2]) == (dns1, cn1));
    assert(dns_answers_fold(dns0, cn0, rs) == dns_answers_fold(dns0, cn1, seq![r2]));
    assert(assoc_get(dns1, addr) == Some(r1.name));
}

} // verus!
