//! The iterative resolution engine, modelled as an explicit state
//! machine.
//!
//! The caller owns the raw network interface; this module never
//! performs I/O. It builds the frames to send, classifies the frames
//! received, and keeps the resolution state: an explicit stack of
//! query tasks standing for the mutually-recursive resolutions of the
//! reference algorithm (a CNAME target, a name server's own address,
//! a re-query at a freshly learned server). The driving loop sends
//! `build_query_frame`, waits, hands every received frame to
//! `handle_frame`, and retransmits the same query on timeout — queries
//! are idempotent. Unlike open-ended recursion, the stack carries an
//! explicit depth that is capped; exceeding the cap is a protocol
//! error, not a crash.

use vstd::prelude::*;

verus! {

use crate::addr::{
    ipv4_str_wf, mac_str_wf, spec_parse_macaddr, spec_print_macaddr, parse_ipaddr, parse_macaddr,
    print_macaddr, lemma_macaddr_print_parse,
};
use crate::arp::{
    broadcast_mac, spec_arp_reply_message, spec_arp_request_message, spec_is_arp_reply,
    spec_is_arp_request, create_arp_reply_message, create_arp_request_message, is_arp_reply,
    is_arp_request,
};
use crate::dns::model::{DnsClass, DnsHeaderRcode, DnsMessage, DnsResourceRecord, DnsType,
    SpecDnsMessage, SpecDnsRecord, spec_rcode_text};
use crate::dns::parser::{spec_parse_message, parse_dns_message};
use crate::dns::util::{
    spec_dns_a_question_message, spec_name_encodable, create_dns_a_question_message,
    dns_name_encodable, lemma_encode_name_len, root_ip_addrs,
};
use crate::ether::{spec_ethernet_frame, create_ethernet_frame, get_ethernet_frame_data};
use crate::ip::{spec_ip_packet, spec_ip_header_len, create_ip_packet, get_ip_packet_data};
use crate::udp::{spec_udp_datagram, create_udp_datagram, get_udp_datagram_data};
use crate::wire::be16;

/// Most deeply nested resolution step allowed: a CNAME chase, a name
/// server's own address, or a re-query each add one level.
pub const MAX_RESOLUTION_DEPTH: u16 = 64;

/// Picks a uniformly random index below `n`.
///
/// Relies on `rand::random_range`: a value drawn from the given
/// (non-empty) range.
#[verifier::external_body]
fn random_index(n: usize) -> (r: usize)
    requires
        n > 0,
    ensures
        r < n,
{
    rand::random_range(0..n)
}

// ---------------------------------------------------------------------
// Configuration
// ---------------------------------------------------------------------

/// The fixed network configuration of one resolver: constructed once
/// at start-up, read-only thereafter.
pub struct NetConfig {
    pub my_ipaddr: String,
    pub my_macaddr: String,
    pub gateway_ipaddr: String,
    pub my_udp_port: u16,
    pub root_servers: Vec<String>,
}

/// Mathematical model of a configuration.
#[verifier::ext_equal]
pub ghost struct SpecNetConfig {
    pub my_ipaddr: Seq<char>,
    pub my_macaddr: Seq<char>,
    pub gateway_ipaddr: Seq<char>,
    pub my_udp_port: u16,
    pub root_servers: Seq<Seq<char>>,
}

impl View for NetConfig {
    type V = SpecNetConfig;

    open spec fn view(&self) -> SpecNetConfig {
        SpecNetConfig {
            my_ipaddr: self.my_ipaddr@,
            my_macaddr: self.my_macaddr@,
            gateway_ipaddr: self.gateway_ipaddr@,
            my_udp_port: self.my_udp_port,
            root_servers: self.root_servers.deep_view(),
        }
    }
}

impl SpecNetConfig {
    /// Every address is well formed and at least one root server is
    /// known.
    pub open spec fn wf(&self) -> bool {
        &&& ipv4_str_wf(self.my_ipaddr)
        &&& mac_str_wf(self.my_macaddr)
        &&& ipv4_str_wf(self.gateway_ipaddr)
        &&& self.root_servers.len() > 0
        &&& forall|i: int|
            0 <= i < self.root_servers.len() ==> ipv4_str_wf(#[trigger] self.root_servers[i])
    }
}

impl NetConfig {
    /// Validates and assembles a configuration; `None` when any
    /// address is malformed or no root server is given.
    pub fn new(
        my_ipaddr: String,
        my_macaddr: String,
        gateway_ipaddr: String,
        my_udp_port: u16,
        root_servers: Vec<String>,
    ) -> (r: Option<NetConfig>)
        ensures
            ({
                let c = SpecNetConfig {
                    my_ipaddr: my_ipaddr@,
                    my_macaddr: my_macaddr@,
                    gateway_ipaddr: gateway_ipaddr@,
                    my_udp_port,
                    root_servers: root_servers.deep_view(),
                };
                &&& (r is Some <==> c.wf())
                &&& (r matches Some(cfg) ==> cfg@ == c)
            }),
    {
        if parse_ipaddr(my_ipaddr.as_str()).is_none() {
            return None;
        }
        if parse_macaddr(my_macaddr.as_str()).is_none() {
            return None;
        }
        if parse_ipaddr(gateway_ipaddr.as_str()).is_none() {
            return None;
        }
        if root_servers.len() == 0 {
            return None;
        }
        let mut i: usize = 0;
        while i < root_servers.len()
            invariant
                0 <= i <= root_servers@.len(),
                forall|j: int| 0 <= j < i ==> ipv4_str_wf(#[trigger] root_servers@[j]@),
            decreases root_servers@.len() - i,
        {
            if parse_ipaddr(root_servers[i].as_str()).is_none() {
                proof {
                    assert(root_servers.deep_view()[i as int] == root_servers@[i as int]@);
                }
                return None;
            }
            i = i + 1;
        }
        proof {
            assert forall|j: int|
                0 <= j < root_servers.deep_view().len() implies ipv4_str_wf(
                #[trigger] root_servers.deep_view()[j],
            ) by {
                assert(root_servers.deep_view()[j] == root_servers@[j]@);
            }
        }
        Some(NetConfig { my_ipaddr, my_macaddr, gateway_ipaddr, my_udp_port, root_servers })
    }
}

// ---------------------------------------------------------------------
// Link resolution (ARP phase)
// ---------------------------------------------------------------------

/// The broadcast ARP request frame asking for the gateway's MAC
/// address.
pub open spec fn spec_link_request_frame(cfg: SpecNetConfig) -> Seq<u8> {
    spec_ethernet_frame(
        0x0806,
        broadcast_mac(),
        spec_parse_macaddr(cfg.my_macaddr),
        spec_arp_request_message(cfg.my_ipaddr, cfg.my_macaddr, cfg.gateway_ipaddr),
    )
}

/// Builds the broadcast ARP request for the gateway's MAC address;
/// sent first and again after every timeout until a reply arrives.
pub fn build_link_request_frame(cfg: &NetConfig) -> (r: Vec<u8>)
    requires
        cfg@.wf(),
    ensures
        r@ == spec_link_request_frame(cfg@),
{
    let message = create_arp_request_message(
        cfg.my_ipaddr.as_str(),
        cfg.my_macaddr.as_str(),
        cfg.gateway_ipaddr.as_str(),
    );
    let mut bcast: Vec<u8> = Vec::new();
    let mut i: usize = 0;
    while i < 6
        invariant
            0 <= i <= 6,
            bcast@ == broadcast_mac().take(i as int),
        decreases 6 - i,
    {
        bcast.push(255);
        i = i + 1;
        proof {
            assert(bcast@ =~= broadcast_mac().take(i as int));
        }
    }
    proof {
        assert(bcast@ =~= broadcast_mac());
        lemma_macaddr_print_parse(broadcast_mac());
    }
    let bcast_text = print_macaddr(&bcast);
    create_ethernet_frame(0x0806, bcast_text.as_str(), cfg.my_macaddr.as_str(), &message)
}

/// Accepts a frame as the awaited ARP reply: `Some` with the sender's
/// MAC address text exactly when the frame is an ARP reply addressed
/// to this host.
pub fn accept_arp_reply(cfg: &NetConfig, frame: &Vec<u8>) -> (r: Option<String>)
    requires
        cfg@.wf(),
    ensures
        r is Some <==> spec_is_arp_reply(frame@, cfg@.my_ipaddr, cfg@.my_macaddr),
        r matches Some(m) ==> m@ == spec_print_macaddr(frame@.subrange(22, 28)) && mac_str_wf(m@),
{
    if !is_arp_reply(frame, cfg.my_ipaddr.as_str(), cfg.my_macaddr.as_str()) {
        return None;
    }
    let sender = crate::wire::copy_range(frame, 22, 6);
    let text = print_macaddr(&sender);
    proof {
        lemma_macaddr_print_parse(frame@.subrange(22, 28));
    }
    Some(text)
}

/// The ARP reply frame this host sends back to the gateway when the
/// peer probes for this host's address while a query is in flight.
pub open spec fn spec_arp_auto_reply_frame(cfg: SpecNetConfig, gateway_mac: Seq<char>) -> Seq<u8> {
    spec_ethernet_frame(
        0x0806,
        spec_parse_macaddr(gateway_mac),
        spec_parse_macaddr(cfg.my_macaddr),
        spec_arp_reply_message(cfg.my_ipaddr, cfg.my_macaddr, cfg.gateway_ipaddr, gateway_mac),
    )
}

// ---------------------------------------------------------------------
// Resolution state
// ---------------------------------------------------------------------

/// What a suspended query is waiting for.
#[derive(Clone, Copy, PartialEq, Eq, Structural, Debug)]
pub enum WaitKind {
    /// The query above resolves the suspended query's canonical-name
    /// target, and its address answers both.
    CnameTarget,
    /// The query above resolves a referred name server's own address,
    /// after which the suspended query's name is asked again there.
    NsAddress,
    /// The query above re-asks the suspended query's name at a learned
    /// server, and its address answers both.
    Requery,
}

/// One query task: a name asked at one server, with the correlation
/// id / recursion depth it uses.
pub struct QueryTask {
    pub name: String,
    pub depth: u16,
    pub server: String,
    pub waiting: Option<WaitKind>,
}

/// Mathematical model of a query task.
#[verifier::ext_equal]
pub ghost struct SpecTask {
    pub name: Seq<char>,
    pub depth: u16,
    pub server: Seq<char>,
    pub waiting: Option<WaitKind>,
}

impl View for QueryTask {
    type V = SpecTask;

    open spec fn view(&self) -> SpecTask {
        SpecTask {
            name: self.name@,
            depth: self.depth,
            server: self.server@,
            waiting: self.waiting,
        }
    }
}

impl DeepView for QueryTask {
    type V = SpecTask;

    open spec fn deep_view(&self) -> SpecTask {
        self.view()
    }
}

/// The resolution engine: the fixed configuration, the gateway's MAC
/// address learned by ARP, the stack of query tasks (the innermost on
/// top and active, the others waiting), and the terminal outcome once
/// reached.
pub struct Resolver {
    pub cfg: NetConfig,
    pub gateway_macaddr: String,
    pub stack: Vec<QueryTask>,
    pub outcome: Option<Result<String, String>>,
}

/// Mathematical model of the resolution engine.
#[verifier::ext_equal]
pub ghost struct SpecResolver {
    pub cfg: SpecNetConfig,
    pub gateway_macaddr: Seq<char>,
    pub stack: Seq<SpecTask>,
    pub outcome: Option<Result<Seq<char>, Seq<char>>>,
}

impl View for Resolver {
    type V = SpecResolver;

    open spec fn view(&self) -> SpecResolver {
        SpecResolver {
            cfg: self.cfg@,
            gateway_macaddr: self.gateway_macaddr@,
            stack: self.stack.deep_view(),
            outcome: match self.outcome {
                None => None,
                Some(Ok(a)) => Some(Ok(a@)),
                Some(Err(e)) => Some(Err(e@)),
            },
        }
    }
}

impl SpecTask {
    /// The task's name can be queried and its server addressed.
    pub open spec fn wf(&self) -> bool {
        &&& spec_name_encodable(self.name)
        &&& ipv4_str_wf(self.server)
        &&& self.depth <= MAX_RESOLUTION_DEPTH
    }
}

impl SpecResolver {
    /// The configuration and every task are well formed, and while no
    /// outcome is reached a task is active.
    pub open spec fn wf(&self) -> bool {
        &&& self.cfg.wf()
        &&& mac_str_wf(self.gateway_macaddr)
        &&& (self.outcome is None ==> self.stack.len() >= 1)
        &&& forall|i: int| 0 <= i < self.stack.len() ==> (#[trigger] self.stack[i]).wf()
    }
}

impl Resolver {
    /// Starts resolving `name`, querying a uniformly random root
    /// server first. `Err` when the gateway MAC text is malformed or
    /// the name cannot be encoded.
    pub fn begin_resolution(cfg: NetConfig, gateway_macaddr: String, name: String) -> (r: Result<
        Resolver,
        String,
    >)
        requires
            cfg@.wf(),
        ensures
            r is Ok <==> mac_str_wf(gateway_macaddr@) && spec_name_encodable(name@),
            r matches Err(e) ==> e@ == (if !mac_str_wf(gateway_macaddr@) {
                "malformed gateway MAC address"@
            } else {
                "domain name cannot be encoded"@
            }),
            r matches Ok(res) ==> {
                &&& res@.wf()
                &&& res@.cfg == cfg@
                &&& res@.gateway_macaddr == gateway_macaddr@
                &&& res@.outcome is None
                &&& res@.stack.len() == 1
                &&& res@.stack[0].name == name@
                &&& res@.stack[0].depth == 0
                &&& res@.stack[0].waiting is None
                &&& exists|j: int|
                    0 <= j < cfg@.root_servers.len() && res@.stack[0].server
                        == cfg@.root_servers[j]
            },
    {
        if parse_macaddr(gateway_macaddr.as_str()).is_none() {
            return Err(String::from_str("malformed gateway MAC address"));
        }
        if !dns_name_encodable(name.as_str()) {
            return Err(String::from_str("domain name cannot be encoded"));
        }
        let j = random_index(cfg.root_servers.len());
        let server = cfg.root_servers[j].clone();
        proof {
            assert(server@ == cfg@.root_servers[j as int]);
        }
        let task = QueryTask { name, depth: 0, server, waiting: None };
        let mut stack: Vec<QueryTask> = Vec::new();
        stack.push(task);
        let res = Resolver { cfg, gateway_macaddr, stack, outcome: None };
        proof {
            assert(res@.stack =~= seq![res.stack@[0]@]);
        }
        Ok(res)
    }

    /// The frame carrying the active task's query: DNS in UDP in IPv4
    /// in Ethernet, addressed to the task's server through the
    /// gateway, with the task's depth as both the IPv4 identification
    /// and the DNS id.
    pub open spec fn spec_query_frame(cfg: SpecNetConfig, gw_mac: Seq<char>, t: SpecTask) -> Seq<
        u8,
    > {
        spec_ethernet_frame(
            0x0800,
            spec_parse_macaddr(gw_mac),
            spec_parse_macaddr(cfg.my_macaddr),
            spec_ip_packet(
                17,
                t.depth,
                cfg.my_ipaddr,
                t.server,
                spec_udp_datagram(
                    cfg.my_udp_port,
                    53,
                    spec_dns_a_question_message(t.depth, t.name),
                    cfg.my_ipaddr,
                    t.server,
                ),
            ),
        )
    }

    /// Builds the active task's query frame; also used unchanged for
    /// every retransmission of that query.
    pub fn build_query_frame(&self) -> (r: Vec<u8>)
        requires
            self@.wf(),
            self@.outcome is None,
        ensures
            r@ == Self::spec_query_frame(self@.cfg, self@.gateway_macaddr, self@.stack.last()),
    {
        let idx = self.stack.len() - 1;
        let top = &self.stack[idx];
        proof {
            assert(self@.stack[idx as int] == self.stack@[idx as int]@);
            assert(self@.stack.last().wf());
            lemma_encode_name_len(top.name@);
        }
        let dns_message = create_dns_a_question_message(top.depth, top.name.as_str());
        let dns_udp_datagram = create_udp_datagram(
            self.cfg.my_udp_port,
            53,
            &dns_message,
            self.cfg.my_ipaddr.as_str(),
            top.server.as_str(),
        );
        let dns_ip_packet = create_ip_packet(
            17,
            top.depth,
            self.cfg.my_ipaddr.as_str(),
            top.server.as_str(),
            &dns_udp_datagram,
        );
        create_ethernet_frame(
            0x0800,
            self.gateway_macaddr.as_str(),
            self.cfg.my_macaddr.as_str(),
            &dns_ip_packet,
        )
    }

    /// Builds the ARP reply this host returns when the gateway probes
    /// for this host's own address while a query is in flight.
    pub fn build_arp_auto_reply_frame(&self) -> (r: Vec<u8>)
        requires
            self@.wf(),
        ensures
            r@ == spec_arp_auto_reply_frame(self@.cfg, self@.gateway_macaddr),
    {
        let message = create_arp_reply_message(
            self.cfg.my_ipaddr.as_str(),
            self.cfg.my_macaddr.as_str(),
            self.cfg.gateway_ipaddr.as_str(),
            self.gateway_macaddr.as_str(),
        );
        create_ethernet_frame(
            0x0806,
            self.gateway_macaddr.as_str(),
            self.cfg.my_macaddr.as_str(),
            &message,
        )
    }
}

// ---------------------------------------------------------------------
// Response extraction and classification
// ---------------------------------------------------------------------

/// The DNS message a frame delivers to this resolution, if any: the
/// frame must be addressed to this host's MAC, carry IPv4 with
/// consistent header and UDP lengths, parse as a DNS message, and
/// carry the awaited correlation id. Anything else is discarded.
pub open spec fn spec_response_of(my_mac: Seq<char>, depth: u16, frame: Seq<u8>) -> Option<
    SpecDnsMessage,
> {
    if frame.len() < 14 {
        None
    } else if frame.subrange(0, 6) != spec_parse_macaddr(my_mac) {
        None
    } else if !(frame[12] == 8 && frame[13] == 0) {
        None
    } else {
        let packet = frame.skip(14);
        if packet.len() < 1 {
            None
        } else {
            let hl = spec_ip_header_len(packet);
            if hl > packet.len() {
                None
            } else {
                let datagram = packet.skip(hl);
                if datagram.len() < 8 {
                    None
                } else {
                    let ulen = be16(datagram[4], datagram[5]) as int;
                    if !(8 <= ulen <= datagram.len()) {
                        None
                    } else {
                        match spec_parse_message(datagram.subrange(8, ulen)) {
                            Err(_) => None,
                            Ok(m) => if m.header.id == depth {
                                Some(m)
                            } else {
                                None
                            },
                        }
                    }
                }
            }
        }
    }
}

/// True when the record is of class IN, the given type, and the given
/// owner name.
pub open spec fn rr_matches(r: SpecDnsRecord, t: DnsType, name: Seq<char>) -> bool {
    r.rr_class is IN && r.rr_type == t && r.name == name
}

/// The first index whose record is an IN record of type `t` for
/// `name`, if any.
pub open spec fn find_first_rr(rs: Seq<SpecDnsRecord>, t: DnsType, name: Seq<char>) -> Option<int>
    decreases rs.len(),
{
    if rs.len() == 0 {
        None
    } else if rr_matches(rs[0], t, name) {
        Some(0)
    } else {
        match find_first_rr(rs.drop_first(), t, name) {
            Some(i) => Some(i + 1),
            None => None,
        }
    }
}

/// `find_first_rr` returns the least matching index, and `None`
/// exactly when no record matches.
pub proof fn lemma_find_first_rr(rs: Seq<SpecDnsRecord>, t: DnsType, name: Seq<char>)
    ensures
        match find_first_rr(rs, t, name) {
            Some(i) => 0 <= i < rs.len() && rr_matches(rs[i], t, name) && forall|j: int|
                0 <= j < i ==> !rr_matches(rs[j], t, name),
            None => forall|j: int| 0 <= j < rs.len() ==> !rr_matches(rs[j], t, name),
        },
    decreases rs.len(),
{
    if rs.len() > 0 && !rr_matches(rs[0], t, name) {
        let u = rs.drop_first();
        lemma_find_first_rr(u, t, name);
        assert(forall|j: int| 0 <= j < u.len() ==> u[j] == rs[j + 1]);
        match find_first_rr(u, t, name) {
            Some(i) => {
                assert forall|j: int| 0 <= j < i + 1 implies !rr_matches(rs[j], t, name) by {
                    if j > 0 {
                        assert(!rr_matches(u[j - 1], t, name));
                    }
                }
            },
            None => {
                assert forall|j: int| 0 <= j < rs.len() implies !rr_matches(rs[j], t, name) by {
                    if j > 0 {
                        assert(!rr_matches(u[j - 1], t, name));
                    }
                }
            },
        }
    }
}

/// True when the record is an IN record of type NS.
pub open spec fn is_ns_record(r: SpecDnsRecord) -> bool {
    r.rr_class is IN && r.rr_type is NS
}

/// True when some record of the sequence is an IN NS record.
pub open spec fn has_ns_record(rs: Seq<SpecDnsRecord>) -> bool {
    exists|i: int| 0 <= i < rs.len() && is_ns_record(#[trigger] rs[i])
}

/// How a matching DNS response advances a resolution step.
pub enum ResponseOutcome {
    /// The server reported an error; resolution fails with it.
    ServerError(DnsHeaderRcode),
    /// An address for the queried name was found.
    Resolved(String),
    /// A CNAME without an accompanying address; resolve its target.
    FollowCname(String),
    /// An NS referral with a glue address for the chosen name server.
    ReferralGlue(String, String),
    /// An NS referral without glue; resolve the name server first.
    ReferralNoGlue(String),
    /// No usable answer and no referral; resolution fails.
    NoData,
}

/// Mathematical model of a response outcome.
pub ghost enum SpecOutcome {
    ServerError(DnsHeaderRcode),
    Resolved(Seq<char>),
    FollowCname(Seq<char>),
    ReferralGlue(Seq<char>, Seq<char>),
    ReferralNoGlue(Seq<char>),
    NoData,
}

impl View for ResponseOutcome {
    type V = SpecOutcome;

    open spec fn view(&self) -> SpecOutcome {
        match self {
            ResponseOutcome::ServerError(rc) => SpecOutcome::ServerError(*rc),
            ResponseOutcome::Resolved(a) => SpecOutcome::Resolved(a@),
            ResponseOutcome::FollowCname(c) => SpecOutcome::FollowCname(c@),
            ResponseOutcome::ReferralGlue(ns, a) => SpecOutcome::ReferralGlue(ns@, a@),
            ResponseOutcome::ReferralNoGlue(ns) => SpecOutcome::ReferralNoGlue(ns@),
            ResponseOutcome::NoData => SpecOutcome::NoData,
        }
    }
}

/// How a response to a query for `name` is classified, in order: a
/// non-NoError rcode fails; else the first answer-section A record for
/// the name resolves; else the first additional-section A record for
/// the name resolves (an authoritative answer returned only as glue);
/// else the first answer-section CNAME for the name resolves through
/// an A record for its target in the same answer section, or asks for
/// the target to be resolved; else an authority-section NS record —
/// any of them — refers, with the first additional-section A record
/// for that name server as glue if present; else there is no data.
pub open spec fn spec_classify(m: SpecDnsMessage, name: Seq<char>, oc: SpecOutcome) -> bool {
    if !(m.header.rcode is NoError) {
        oc == SpecOutcome::ServerError(m.header.rcode)
    } else if find_first_rr(m.answers, DnsType::A, name) is Some {
        oc == SpecOutcome::Resolved(
            m.answers[find_first_rr(m.answers, DnsType::A, name).unwrap()].rdata,
        )
    } else if find_first_rr(m.additionals, DnsType::A, name) is Some {
        oc == SpecOutcome::Resolved(
            m.additionals[find_first_rr(m.additionals, DnsType::A, name).unwrap()].rdata,
        )
    } else if find_first_rr(m.answers, DnsType::CNAME, name) is Some {
        let cname = m.answers[find_first_rr(m.answers, DnsType::CNAME, name).unwrap()].rdata;
        match find_first_rr(m.answers, DnsType::A, cname) {
            Some(j) => oc == SpecOutcome::Resolved(m.answers[j].rdata),
            None => oc == SpecOutcome::FollowCname(cname),
        }
    } else if has_ns_record(m.authorities) {
        exists|i: int|
            {
                &&& 0 <= i < m.authorities.len()
                &&& is_ns_record(#[trigger] m.authorities[i])
                &&& match find_first_rr(m.additionals, DnsType::A, m.authorities[i].rdata) {
                    Some(g) => oc == SpecOutcome::ReferralGlue(
                        m.authorities[i].rdata,
                        m.additionals[g].rdata,
                    ),
                    None => oc == SpecOutcome::ReferralNoGlue(m.authorities[i].rdata),
                }
            }
    } else {
        oc == SpecOutcome::NoData
    }
}

/// Finds the first IN record of type `t` for `name` in a section.
fn find_first_record(records: &Vec<DnsResourceRecord>, t: DnsType, name: &String) -> (r: Option<
    usize,
>)
    ensures
        ({
            let sp = find_first_rr(records.deep_view(), t, name@);
            &&& (r is Some <==> sp is Some)
            &&& (r matches Some(i) ==> sp == Some(i as int) && i < records@.len())
        }),
{
    let ghost rs = records.deep_view();
    proof {
        lemma_find_first_rr(rs, t, name@);
    }
    let n = records.len();
    let mut i: usize = 0;
    while i < n
        invariant
            0 <= i <= n,
            n == records@.len(),
            rs == records.deep_view(),
            forall|j: int| 0 <= j < i ==> !rr_matches(rs[j], t, name@),
            match find_first_rr(rs, t, name@) {
                Some(k) => 0 <= k < rs.len() && rr_matches(rs[k], t, name@) && forall|j: int|
                    0 <= j < k ==> !rr_matches(rs[j], t, name@),
                None => forall|j: int| 0 <= j < rs.len() ==> !rr_matches(rs[j], t, name@),
            },
        decreases n - i,
    {
        let rec = &records[i];
        if rec.rr_class == DnsClass::IN && rec.rr_type == t && rec.name == *name {
            proof {
                assert(rr_matches(rs[i as int], t, name@));
                if find_first_rr(rs, t, name@) is None {
                    assert(false);
                }
                let k = find_first_rr(rs, t, name@).unwrap();
                if k < i {
                    assert(!rr_matches(rs[k], t, name@));
                }
                if k > i {
                    assert(!rr_matches(rs[i as int], t, name@));
                }
            }
            return Some(i);
        }
        i = i + 1;
    }
    proof {
        if find_first_rr(rs, t, name@) is Some {
            let k = find_first_rr(rs, t, name@).unwrap();
            assert(!rr_matches(rs[k], t, name@));
        }
    }
    None
}

/// Classifies a matching response to a query for `name`, choosing the
/// referred name server uniformly at random when several NS records
/// are offered.
pub fn classify_dns_response(message: &DnsMessage, name: &String) -> (r: ResponseOutcome)
    ensures
        spec_classify(message@, name@, r@),
{
    if !(message.header.rcode == DnsHeaderRcode::NoError) {
        return ResponseOutcome::ServerError(message.header.rcode);
    }
    if let Some(i) = find_first_record(&message.answers, DnsType::A, name) {
        return ResponseOutcome::Resolved(message.answers[i].rdata.clone());
    }
    if let Some(i) = find_first_record(&message.additionals, DnsType::A, name) {
        return ResponseOutcome::Resolved(message.additionals[i].rdata.clone());
    }
    if let Some(i) = find_first_record(&message.answers, DnsType::CNAME, name) {
        let cname = message.answers[i].rdata.clone();
        if let Some(j) = find_first_record(&message.answers, DnsType::A, &cname) {
            return ResponseOutcome::Resolved(message.answers[j].rdata.clone());
        }
        return ResponseOutcome::FollowCname(cname);
    }
    let ghost auth = message.authorities.deep_view();
    let mut ns_indices: Vec<usize> = Vec::new();
    let n = message.authorities.len();
    let mut i: usize = 0;
    while i < n
        invariant
            0 <= i <= n,
            n == message.authorities@.len(),
            auth == message.authorities.deep_view(),
            forall|k: int|
                0 <= k < ns_indices@.len() ==> (#[trigger] ns_indices@[k]) < n && is_ns_record(
                    auth[ns_indices@[k] as int],
                ),
            ns_indices@.len() == 0 ==> forall|j: int| 0 <= j < i ==> !is_ns_record(
                #[trigger] auth[j],
            ),
        decreases n - i,
    {
        let rec = &message.authorities[i];
        if rec.rr_class == DnsClass::IN && rec.rr_type == DnsType::NS {
            ns_indices.push(i);
        }
        i = i + 1;
    }
    if ns_indices.len() > 0 {
        let pick = ns_indices[random_index(ns_indices.len())];
        let ns_name = message.authorities[pick].rdata.clone();
        proof {
            assert(is_ns_record(auth[pick as int]));
            assert(has_ns_record(auth));
        }
        if let Some(g) = find_first_record(&message.additionals, DnsType::A, &ns_name) {
            let r = ResponseOutcome::ReferralGlue(
                ns_name,
                message.additionals[g].rdata.clone(),
            );
            proof {
                assert(spec_classify(message@, name@, r@)) by {
                    assert(0 <= pick < auth.len() && is_ns_record(auth[pick as int]));
                }
            }
            return r;
        }
        let r = ResponseOutcome::ReferralNoGlue(ns_name);
        proof {
            assert(spec_classify(message@, name@, r@)) by {
                assert(0 <= pick < auth.len() && is_ns_record(auth[pick as int]));
            }
        }
        return r;
    }
    proof {
        assert(!has_ns_record(auth));
    }
    ResponseOutcome::NoData
}

// ---------------------------------------------------------------------
// Applying an outcome to the task stack
// ---------------------------------------------------------------------

/// The same state with a terminal failure recorded.
pub open spec fn spec_failed(pre: SpecResolver, m: Seq<char>) -> SpecResolver {
    SpecResolver {
        cfg: pre.cfg,
        gateway_macaddr: pre.gateway_macaddr,
        stack: pre.stack,
        outcome: Some(Err(m)),
    }
}

/// How a learned address completes the stack: tasks that merely
/// forward their child's result are popped; a task that was waiting
/// for its name server's address re-queries its own name there, one
/// level deeper; an empty stack means the whole resolution succeeded.
pub open spec fn spec_complete_with_address(stack: Seq<SpecTask>, addr: Seq<char>) -> (
    Seq<SpecTask>,
    Option<Result<Seq<char>, Seq<char>>>,
)
    decreases stack.len(),
{
    if stack.len() == 0 {
        (stack, Some(Ok(addr)))
    } else {
        let top = stack.last();
        match top.waiting {
            None => spec_complete_with_address(stack.drop_last(), addr),
            Some(WaitKind::CnameTarget) => spec_complete_with_address(stack.drop_last(), addr),
            Some(WaitKind::Requery) => spec_complete_with_address(stack.drop_last(), addr),
            Some(WaitKind::NsAddress) => if !ipv4_str_wf(addr) {
                (stack, Some(Err("malformed server address"@)))
            } else if top.depth >= MAX_RESOLUTION_DEPTH {
                (stack, Some(Err("resolution depth exceeded"@)))
            } else {
                let parent = SpecTask {
                    name: top.name,
                    depth: top.depth,
                    server: top.server,
                    waiting: Some(WaitKind::Requery),
                };
                let child = SpecTask {
                    name: top.name,
                    depth: (top.depth + 1) as u16,
                    server: addr,
                    waiting: None,
                };
                (stack.drop_last().push(parent).push(child), None)
            },
        }
    }
}

/// The state after suspending the active task for a subquery: the
/// task waits with the given kind and a child one level deeper
/// queries `child_name` at `server`.
pub open spec fn spec_push_subquery(
    pre: SpecResolver,
    child_name: Seq<char>,
    server: Seq<char>,
    kind: WaitKind,
) -> SpecResolver
    recommends
        pre.stack.len() >= 1,
{
    let top = pre.stack.last();
    let parent = SpecTask {
        name: top.name,
        depth: top.depth,
        server: top.server,
        waiting: Some(kind),
    };
    let child = SpecTask {
        name: child_name,
        depth: (top.depth + 1) as u16,
        server,
        waiting: None,
    };
    SpecResolver {
        cfg: pre.cfg,
        gateway_macaddr: pre.gateway_macaddr,
        stack: pre.stack.drop_last().push(parent).push(child),
        outcome: None,
    }
}

/// How a classified response outcome transforms the state. A fresh
/// subquery's server is a uniformly random root server, so those
/// transitions fix the new state only up to the chosen root.
pub open spec fn spec_apply(pre: SpecResolver, post: SpecResolver, oc: SpecOutcome) -> bool
    recommends
        pre.stack.len() >= 1,
{
    match oc {
        SpecOutcome::ServerError(rc) => post == spec_failed(
            pre,
            "request failed: "@ + spec_rcode_text(rc),
        ),
        SpecOutcome::NoData => post == spec_failed(pre, "not found"@),
        SpecOutcome::Resolved(addr) => {
            let (st, out) = spec_complete_with_address(pre.stack, addr);
            post == SpecResolver {
                cfg: pre.cfg,
                gateway_macaddr: pre.gateway_macaddr,
                stack: st,
                outcome: out,
            }
        },
        SpecOutcome::FollowCname(c) => if !spec_name_encodable(c) {
            post == spec_failed(pre, "malformed name in response"@)
        } else if pre.stack.last().depth >= MAX_RESOLUTION_DEPTH {
            post == spec_failed(pre, "resolution depth exceeded"@)
        } else {
            exists|j: int|
                0 <= j < pre.cfg.root_servers.len() && post == spec_push_subquery(
                    pre,
                    c,
                    #[trigger] pre.cfg.root_servers[j],
                    WaitKind::CnameTarget,
                )
        },
        SpecOutcome::ReferralGlue(ns, a) => if !ipv4_str_wf(a) {
            post == spec_failed(pre, "malformed server address"@)
        } else if pre.stack.last().depth >= MAX_RESOLUTION_DEPTH {
            post == spec_failed(pre, "resolution depth exceeded"@)
        } else {
            post == spec_push_subquery(pre, pre.stack.last().name, a, WaitKind::Requery)
        },
        SpecOutcome::ReferralNoGlue(ns) => if !spec_name_encodable(ns) {
            post == spec_failed(pre, "malformed name in response"@)
        } else if pre.stack.last().depth >= MAX_RESOLUTION_DEPTH {
            post == spec_failed(pre, "resolution depth exceeded"@)
        } else {
            exists|j: int|
                0 <= j < pre.cfg.root_servers.len() && post == spec_push_subquery(
                    pre,
                    ns,
                    #[trigger] pre.cfg.root_servers[j],
                    WaitKind::NsAddress,
                )
        },
    }
}

/// One state-machine step on a matching response: some classification
/// of the message for the active task's name, applied to the stack.
pub open spec fn spec_step(pre: SpecResolver, post: SpecResolver, m: SpecDnsMessage) -> bool
    recommends
        pre.stack.len() >= 1,
{
    exists|oc: SpecOutcome|
        #[trigger] spec_classify(m, pre.stack.last().name, oc) && spec_apply(pre, post, oc)
}

/// What the driving loop does with one received frame.
pub enum FrameDisposition {
    /// The frame was an ARP request for this host; send this reply.
    ArpReply(Vec<u8>),
    /// The frame was not usable for this resolution; keep waiting.
    Ignored,
    /// The resolution advanced: check `outcome`, and if it is not yet
    /// set, send the new active task's query frame.
    Advanced,
}

impl Resolver {
    /// Extracts the DNS message a frame delivers to the active task:
    /// unwraps Ethernet, IPv4 and UDP with all lengths checked,
    /// parses the DNS message and matches its id against the task's
    /// correlation id.
    fn extract_dns_response(&self, frame: &Vec<u8>) -> (r: Option<DnsMessage>)
        requires
            self@.wf(),
            self@.outcome is None,
        ensures
            ({
                let sp = spec_response_of(self@.cfg.my_macaddr, self@.stack.last().depth, frame@);
                &&& (r is Some <==> sp is Some)
                &&& (r matches Some(m) ==> sp == Some(m@))
            }),
    {
        if frame.len() < 14 {
            return None;
        }
        let my_mac = parse_macaddr(self.cfg.my_macaddr.as_str()).unwrap();
        if !crate::wire::bytes_eq_at(frame, 0, &my_mac) {
            return None;
        }
        if !(frame[12] == 8 && frame[13] == 0) {
            return None;
        }
        let packet = get_ethernet_frame_data(frame);
        if packet.len() < 1 {
            return None;
        }
        let hl = 4 * ((packet[0] & 0x0F) as usize);
        if hl > packet.len() {
            return None;
        }
        let datagram = get_ip_packet_data(&packet);
        proof {
            assert(datagram@ =~= frame@.skip(14).skip(spec_ip_header_len(frame@.skip(14))));
        }
        if datagram.len() < 8 {
            return None;
        }
        let ulen = (datagram[4] as usize) * 256 + (datagram[5] as usize);
        if ulen < 8 || ulen > datagram.len() {
            return None;
        }
        let dns = get_udp_datagram_data(&datagram);
        let idx = self.stack.len() - 1;
        let depth = self.stack[idx].depth;
        proof {
            assert(self.stack@[idx as int]@ == self@.stack.last());
        }
        match parse_dns_message(&dns) {
            Ok(m) => if m.header.id == depth {
                Some(m)
            } else {
                None
            },
            Err(_) => None,
        }
    }

    /// Completes the active task with a learned address, popping the
    /// tasks it answers and starting the re-query of a task that was
    /// waiting for its name server's address.
    fn apply_address(&mut self, addr: String)
        requires
            old(self)@.cfg.wf(),
            old(self)@.outcome is None,
            forall|i: int|
                0 <= i < old(self)@.stack.len() ==> (#[trigger] old(self)@.stack[i]).wf(),
        ensures
            final(self)@.cfg == old(self)@.cfg,
            final(self)@.gateway_macaddr == old(self)@.gateway_macaddr,
            ({
                let (st, out) = spec_complete_with_address(old(self)@.stack, addr@);
                final(self)@.stack == st && final(self)@.outcome == out
            }),
            forall|i: int|
                0 <= i < final(self)@.stack.len() ==> (#[trigger] final(self)@.stack[i]).wf(),
            final(self)@.outcome is None ==> final(self)@.stack.len() >= 1,
        decreases old(self)@.stack.len(),
    {
        let ghost pre_stack = self@.stack;
        if self.stack.len() == 0 {
            self.outcome = Some(Ok(addr));
            return;
        }
        let idx = self.stack.len() - 1;
        let w = self.stack[idx].waiting;
        proof {
            assert(self.stack@[idx as int]@ == pre_stack.last());
        }
        match w {
            None | Some(WaitKind::CnameTarget) | Some(WaitKind::Requery) => {
                let _ = self.stack.pop();
                proof {
                    assert(self@.stack =~= pre_stack.drop_last());
                }
                self.apply_address(addr);
            },
            Some(WaitKind::NsAddress) => {
                let depth = self.stack[idx].depth;
                if parse_ipaddr(addr.as_str()).is_none() {
                    self.outcome = Some(Err(String::from_str("malformed server address")));
                } else if depth >= MAX_RESOLUTION_DEPTH {
                    self.outcome = Some(Err(String::from_str("resolution depth exceeded")));
                } else {
                    let top = self.stack.pop().unwrap();
                    let parent = QueryTask {
                        name: top.name.clone(),
                        depth: top.depth,
                        server: top.server,
                        waiting: Some(WaitKind::Requery),
                    };
                    self.stack.push(parent);
                    let child = QueryTask {
                        name: top.name,
                        depth: depth + 1,
                        server: addr,
                        waiting: None,
                    };
                    self.stack.push(child);
                    proof {
                        let (st, out) = spec_complete_with_address(pre_stack, addr@);
                        assert(self@.stack =~= st);
                    }
                }
            },
        }
    }

    /// Dispatches one received frame: answer an ARP request for this
    /// host, ignore anything that is not a matching DNS response, and
    /// advance the resolution on a matching one.
    pub fn handle_frame(&mut self, frame: &Vec<u8>) -> (d: FrameDisposition)
        requires
            old(self)@.wf(),
            old(self)@.outcome is None,
        ensures
            final(self)@.wf(),
            final(self)@.cfg == old(self)@.cfg,
            final(self)@.gateway_macaddr == old(self)@.gateway_macaddr,
            ({
                let pre = old(self)@;
                let arp = spec_is_arp_request(frame@, pre.cfg.my_ipaddr, pre.cfg.my_macaddr);
                let resp = spec_response_of(pre.cfg.my_macaddr, pre.stack.last().depth, frame@);
                match d {
                    FrameDisposition::ArpReply(f) => final(self)@ == pre && arp && f@
                        == spec_arp_auto_reply_frame(pre.cfg, pre.gateway_macaddr),
                    FrameDisposition::Ignored => final(self)@ == pre && !arp && resp is None,
                    FrameDisposition::Advanced => !arp && (resp matches Some(m) && spec_step(
                        pre,
                        final(self)@,
                        m,
                    )),
                }
            }),
    {
        let ghost pre = self@;
        if is_arp_request(frame, self.cfg.my_ipaddr.as_str(), self.cfg.my_macaddr.as_str()) {
            let f = self.build_arp_auto_reply_frame();
            return FrameDisposition::ArpReply(f);
        }
        let message = match self.extract_dns_response(frame) {
            Some(m) => m,
            None => {
                return FrameDisposition::Ignored;
            },
        };
        let idx = self.stack.len() - 1;
        let name = self.stack[idx].name.clone();
        let depth = self.stack[idx].depth;
        proof {
            assert(self.stack@[idx as int]@ == pre.stack.last());
        }
        let oc = classify_dns_response(&message, &name);
        let ghost goc = oc@;
        match oc {
            ResponseOutcome::ServerError(rc) => {
                let mut s = String::from_str("request failed: ");
                let dsc = rc.describe();
                s.append(dsc.as_str());
                self.outcome = Some(Err(s));
                proof {
                    assert(self@ =~~= spec_failed(pre, "request failed: "@ + spec_rcode_text(rc)));
                    assert(spec_apply(pre, self@, goc));
                }
            },
            ResponseOutcome::NoData => {
                self.outcome = Some(Err(String::from_str("not found")));
                proof {
                    assert(self@ =~~= spec_failed(pre, "not found"@));
                    assert(spec_apply(pre, self@, goc));
                }
            },
            ResponseOutcome::Resolved(addr) => {
                self.apply_address(addr);
                proof {
                    assert(spec_apply(pre, self@, goc)) by {
                        let (st, out) = spec_complete_with_address(pre.stack, goc->Resolved_0);
                        assert(self@ =~~= SpecResolver {
                            cfg: pre.cfg,
                            gateway_macaddr: pre.gateway_macaddr,
                            stack: st,
                            outcome: out,
                        });
                    }
                }
            },
            ResponseOutcome::FollowCname(c) => {
                self.start_subquery(c, WaitKind::CnameTarget);
                proof {
                    assert(spec_apply(pre, self@, goc));
                }
            },
            ResponseOutcome::ReferralGlue(_ns, a) => {
                if parse_ipaddr(a.as_str()).is_none() {
                    self.outcome = Some(Err(String::from_str("malformed server address")));
                    proof {
                        assert(self@ =~~= spec_failed(pre, "malformed server address"@));
                        assert(spec_apply(pre, self@, goc));
                    }
                } else if depth >= MAX_RESOLUTION_DEPTH {
                    self.outcome = Some(Err(String::from_str("resolution depth exceeded")));
                    proof {
                        assert(self@ =~~= spec_failed(pre, "resolution depth exceeded"@));
                        assert(spec_apply(pre, self@, goc));
                    }
                } else {
                    let top = self.stack.pop().unwrap();
                    let parent = QueryTask {
                        name: top.name.clone(),
                        depth: top.depth,
                        server: top.server,
                        waiting: Some(WaitKind::Requery),
                    };
                    self.stack.push(parent);
                    let child = QueryTask {
                        name: top.name,
                        depth: depth + 1,
                        server: a,
                        waiting: None,
                    };
                    self.stack.push(child);
                    proof {
                        assert(self@.stack =~= spec_push_subquery(
                            pre,
                            pre.stack.last().name,
                            goc->ReferralGlue_1,
                            WaitKind::Requery,
                        ).stack);
                        assert(self@ =~~= spec_push_subquery(
                            pre,
                            pre.stack.last().name,
                            goc->ReferralGlue_1,
                            WaitKind::Requery,
                        ));
                        assert(spec_apply(pre, self@, goc));
                    }
                }
            },
            ResponseOutcome::ReferralNoGlue(ns) => {
                self.start_subquery(ns, WaitKind::NsAddress);
                proof {
                    assert(spec_apply(pre, self@, goc));
                }
            },
        }
        proof {
            assert(spec_step(pre, self@, spec_response_of(
                pre.cfg.my_macaddr,
                pre.stack.last().depth,
                frame@,
            ).unwrap()));
        }
        FrameDisposition::Advanced
    }

    /// Suspends the active task on `kind` and pushes a child querying
    /// `child_name` at a uniformly random root server; a name that
    /// cannot be encoded or an exceeded depth cap fails the
    /// resolution instead.
    fn start_subquery(&mut self, child_name: String, kind: WaitKind)
        requires
            old(self)@.wf(),
            old(self)@.outcome is None,
            kind == WaitKind::CnameTarget || kind == WaitKind::NsAddress,
        ensures
            final(self)@.cfg == old(self)@.cfg,
            final(self)@.gateway_macaddr == old(self)@.gateway_macaddr,
            ({
                let pre = old(self)@;
                if !spec_name_encodable(child_name@) {
                    final(self)@ == spec_failed(pre, "malformed name in response"@)
                } else if pre.stack.last().depth >= MAX_RESOLUTION_DEPTH {
                    final(self)@ == spec_failed(pre, "resolution depth exceeded"@)
                } else {
                    exists|j: int|
                        0 <= j < pre.cfg.root_servers.len() && final(self)@ == spec_push_subquery(
                            pre,
                            child_name@,
                            #[trigger] pre.cfg.root_servers[j],
                            kind,
                        )
                }
            }),
    {
        let ghost pre = self@;
        let idx = self.stack.len() - 1;
        let depth = self.stack[idx].depth;
        proof {
            assert(self.stack@[idx as int]@ == pre.stack.last());
        }
        if !dns_name_encodable(child_name.as_str()) {
            self.outcome = Some(Err(String::from_str("malformed name in response")));
            proof {
                assert(self@ =~~= spec_failed(pre, "malformed name in response"@));
            }
            return;
        }
        if depth >= MAX_RESOLUTION_DEPTH {
            self.outcome = Some(Err(String::from_str("resolution depth exceeded")));
            proof {
                assert(self@ =~~= spec_failed(pre, "resolution depth exceeded"@));
            }
            return;
        }
        let j = random_index(self.cfg.root_servers.len());
        let server = self.cfg.root_servers[j].clone();
        proof {
            assert(server@ == pre.cfg.root_servers[j as int]);
        }
        let top = self.stack.pop().unwrap();
        let parent = QueryTask {
            name: top.name,
            depth: top.depth,
            server: top.server,
            waiting: Some(kind),
        };
        self.stack.push(parent);
        let child = QueryTask { name: child_name, depth: depth + 1, server, waiting: None };
        self.stack.push(child);
        proof {
            assert(self@.stack =~= spec_push_subquery(
                pre,
                child.name@,
                pre.cfg.root_servers[j as int],
                kind,
            ).stack);
            assert(self@ =~~= spec_push_subquery(
                pre,
                child.name@,
                pre.cfg.root_servers[j as int],
                kind,
            ));
        }
    }
}

} // verus!
