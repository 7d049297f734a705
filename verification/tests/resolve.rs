use dnstack::addr::print_ipaddr;
use dnstack::dns::parser::parse_dns_message;
use dnstack::ether::{create_ethernet_frame, get_ethernet_frame_data};
use dnstack::ip::{create_ip_packet, get_ip_packet_data};
use dnstack::resolver::{
    accept_arp_reply, build_link_request_frame, FrameDisposition, NetConfig, Resolver,
};
use dnstack::udp::{create_udp_datagram, get_udp_datagram_data};
use dnstack::arp::{create_arp_reply_message, create_arp_request_message};

const MY_IP: &str = "192.168.70.2";
const MY_MAC: &str = "00:00:5e:00:53:01";
const GW_IP: &str = "192.168.70.1";
const GW_MAC: &str = "02:42:ac:11:00:01";
const SERVER_MAC: &str = "66:77:88:99:aa:bb";
const PORT: u16 = 12345;

fn config() -> NetConfig {
    NetConfig::new(
        MY_IP.to_string(),
        MY_MAC.to_string(),
        GW_IP.to_string(),
        PORT,
        vec!["10.0.0.1".to_string()],
    )
    .unwrap()
}

fn start(name: &str) -> Resolver {
    Resolver::begin_resolution(config(), GW_MAC.to_string(), name.to_string()).unwrap()
}

/// Wraps raw DNS message bytes the way a server's response reaches
/// this host: UDP from port 53, IPv4 from the server, Ethernet to
/// this host's MAC.
fn wrap_response(dns: &Vec<u8>, server_ip: &str) -> Vec<u8> {
    let udp = create_udp_datagram(53, PORT, dns, server_ip, MY_IP);
    let ip = create_ip_packet(17, 99, server_ip, MY_IP, &udp);
    create_ethernet_frame(0x0800, MY_MAC, SERVER_MAC, &ip)
}

/// Reads (id, first question name, destination address) out of a
/// query frame the resolver built.
fn query_of(frame: &Vec<u8>) -> (u16, String, String) {
    let packet = get_ethernet_frame_data(frame);
    let dest = print_ipaddr(&packet[16..20].to_vec());
    let udp = get_ip_packet_data(&packet);
    let dns = get_udp_datagram_data(&udp);
    let m = parse_dns_message(&dns).unwrap();
    (m.header.id, m.questions[0].q_name.clone(), dest)
}

fn encoded(name: &str) -> Vec<u8> {
    dnstack::dns::util::parse_dns_name(name)
}

/// A response whose single authority record refers `owner` to the
/// name server `ns`, with no glue.
fn referral(id: u16, owner: &str, ns: &str) -> Vec<u8> {
    let mut m = vec![
        (id >> 8) as u8,
        (id & 0xff) as u8,
        0x80,
        0x00, // qr, NoError
        0,
        0, // qdcount
        0,
        0, // ancount
        0,
        1, // nscount
        0,
        0, // arcount
    ];
    m.extend_from_slice(&encoded(owner));
    m.extend_from_slice(&[0, 2, 0, 1, 0, 0, 0, 60]); // NS IN ttl 60
    let rdata = encoded(ns);
    m.extend_from_slice(&[(rdata.len() >> 8) as u8, (rdata.len() & 0xff) as u8]);
    m.extend_from_slice(&rdata);
    m
}

/// A response whose single answer record gives `owner` the address
/// `addr`.
fn answer(id: u16, owner: &str, addr: [u8; 4]) -> Vec<u8> {
    let mut m = vec![
        (id >> 8) as u8,
        (id & 0xff) as u8,
        0x80,
        0x00,
        0,
        0,
        0,
        1, // ancount
        0,
        0,
        0,
        0,
    ];
    m.extend_from_slice(&encoded(owner));
    m.extend_from_slice(&[0, 1, 0, 1, 0, 0, 0, 60, 0, 4]); // A IN ttl 60 rdlen 4
    m.extend_from_slice(&addr);
    m
}

/// A response with the given rcode and no records.
fn empty_response(id: u16, rcode: u8) -> Vec<u8> {
    vec![
        (id >> 8) as u8,
        (id & 0xff) as u8,
        0x80,
        rcode,
        0,
        0,
        0,
        0,
        0,
        0,
        0,
        0,
    ]
}

#[test]
fn link_request_and_reply() {
    let cfg = config();
    let frame = build_link_request_frame(&cfg);
    assert_eq!(&frame[0..6], &[0xff; 6]); // broadcast
    assert_eq!(&frame[12..14], &[0x08, 0x06]); // ARP
    assert_eq!(&frame[20..22], &[0, 1]); // request
    assert_eq!(&frame[38..42], &[192, 168, 70, 1]); // asking for the gateway

    // The gateway answers with its own MAC; the resolver reads it out.
    let m = create_arp_reply_message(GW_IP, GW_MAC, MY_IP, MY_MAC);
    let reply = create_ethernet_frame(0x0806, MY_MAC, GW_MAC, &m);
    assert_eq!(accept_arp_reply(&cfg, &reply).unwrap(), GW_MAC);

    // A frame of another ethertype is not the awaited reply.
    let other = create_ethernet_frame(0x0800, MY_MAC, GW_MAC, &m);
    assert!(accept_arp_reply(&cfg, &other).is_none());
}

#[test]
fn referral_without_glue_takes_one_nested_resolution() {
    // Resolving example.com. against a server that returns an
    // authority NS referral with no glue must trigger exactly one
    // nested resolution of the name server's own address, then
    // re-query the original name at the address just resolved.
    let mut r = start("example.com.");

    let (id, qname, dest) = query_of(&r.build_query_frame());
    assert_eq!(id, 0);
    assert_eq!(qname, "example.com.");
    assert_eq!(dest, "10.0.0.1");

    // Step 1: the referral. The resolver must now ask for the name
    // server's own address.
    let d = r.handle_frame(&wrap_response(
        &referral(0, "example.com.", "ns1.example.com."),
        "10.0.0.1",
    ));
    assert!(matches!(d, FrameDisposition::Advanced));
    assert!(r.outcome.is_none());
    let (id, qname, dest) = query_of(&r.build_query_frame());
    assert_eq!(id, 1);
    assert_eq!(qname, "ns1.example.com.");
    assert_eq!(dest, "10.0.0.1"); // back at the (only) root

    // Step 2: the name server's address. The resolver must re-query
    // the original name at exactly that address.
    let d = r.handle_frame(&wrap_response(
        &answer(1, "ns1.example.com.", [10, 0, 0, 53]),
        "10.0.0.1",
    ));
    assert!(matches!(d, FrameDisposition::Advanced));
    assert!(r.outcome.is_none());
    let (id, qname, dest) = query_of(&r.build_query_frame());
    assert_eq!(id, 1);
    assert_eq!(qname, "example.com.");
    assert_eq!(dest, "10.0.0.53");

    // Step 3: the answer; the whole resolution succeeds with it.
    let d = r.handle_frame(&wrap_response(
        &answer(1, "example.com.", [93, 184, 216, 34]),
        "10.0.0.53",
    ));
    assert!(matches!(d, FrameDisposition::Advanced));
    assert_eq!(r.outcome, Some(Ok("93.184.216.34".to_string())));
}

#[test]
fn referral_with_glue_skips_nested_resolution() {
    let mut r = start("example.com.");

    // A referral whose additional section carries the name server's
    // address: the resolver uses the glue directly.
    let mut m = referral(0, "example.com.", "ns1.example.com.");
    m[11] = 1; // arcount = 1
    m.extend_from_slice(&encoded("ns1.example.com."));
    m.extend_from_slice(&[0, 1, 0, 1, 0, 0, 0, 60, 0, 4, 10, 0, 0, 53]);

    let d = r.handle_frame(&wrap_response(&m, "10.0.0.1"));
    assert!(matches!(d, FrameDisposition::Advanced));
    assert!(r.outcome.is_none());
    let (id, qname, dest) = query_of(&r.build_query_frame());
    assert_eq!(id, 1);
    assert_eq!(qname, "example.com.");
    assert_eq!(dest, "10.0.0.53");
}

#[test]
fn cname_with_inline_address_resolves_at_once() {
    let mut r = start("example.com.");

    // One answer CNAME for the queried name and one answer A for the
    // CNAME target in the same message.
    let mut m = vec![0, 0, 0x80, 0, 0, 0, 0, 2, 0, 0, 0, 0];
    m.extend_from_slice(&encoded("example.com."));
    let target = encoded("www.example.org.");
    m.extend_from_slice(&[0, 5, 0, 1, 0, 0, 0, 60]);
    m.extend_from_slice(&[(target.len() >> 8) as u8, (target.len() & 0xff) as u8]);
    m.extend_from_slice(&target);
    m.extend_from_slice(&encoded("www.example.org."));
    m.extend_from_slice(&[0, 1, 0, 1, 0, 0, 0, 60, 0, 4, 203, 0, 113, 7]);

    let d = r.handle_frame(&wrap_response(&m, "10.0.0.1"));
    assert!(matches!(d, FrameDisposition::Advanced));
    assert_eq!(r.outcome, Some(Ok("203.0.113.7".to_string())));
}

/// A response whose single answer record is a CNAME from `owner` to
/// `target`, with no address for the target.
fn cname(id: u16, owner: &str, target: &str) -> Vec<u8> {
    let mut m = vec![
        (id >> 8) as u8,
        (id & 0xff) as u8,
        0x80,
        0x00,
        0,
        0,
        0,
        1, // ancount
        0,
        0,
        0,
        0,
    ];
    m.extend_from_slice(&encoded(owner));
    let rdata = encoded(target);
    m.extend_from_slice(&[0, 5, 0, 1, 0, 0, 0, 60]);
    m.extend_from_slice(&[(rdata.len() >> 8) as u8, (rdata.len() & 0xff) as u8]);
    m.extend_from_slice(&rdata);
    m
}

#[test]
fn cname_without_address_is_chased() {
    let mut r = start("example.com.");

    let m = cname(0, "example.com.", "www.example.org.");
    let d = r.handle_frame(&wrap_response(&m, "10.0.0.1"));
    assert!(matches!(d, FrameDisposition::Advanced));
    assert!(r.outcome.is_none());
    let (id, qname, _dest) = query_of(&r.build_query_frame());
    assert_eq!(id, 1);
    assert_eq!(qname, "www.example.org.");

    // Resolving the target answers the original question too.
    let d = r.handle_frame(&wrap_response(
        &answer(1, "www.example.org.", [203, 0, 113, 8]),
        "10.0.0.1",
    ));
    assert!(matches!(d, FrameDisposition::Advanced));
    assert_eq!(r.outcome, Some(Ok("203.0.113.8".to_string())));
}

#[test]
fn endless_cname_chain_hits_the_depth_cap() {
    // An adversarial server that answers every query with yet another
    // CNAME must run into the explicit depth cap, not recurse forever.
    let mut r = start("example.com.");
    let mut name = "example.com.".to_string();
    for i in 0..=64u16 {
        let next = format!("c{}.example.com.", i);
        let d = r.handle_frame(&wrap_response(&cname(i, &name, &next), "10.0.0.1"));
        assert!(matches!(d, FrameDisposition::Advanced));
        if r.outcome.is_some() {
            assert_eq!(
                r.outcome,
                Some(Err("resolution depth exceeded".to_string()))
            );
            assert_eq!(i, 64);
            return;
        }
        name = next;
    }
    panic!("the depth cap must stop an endless chain of canonical names");
}

#[test]
fn server_error_fails_resolution() {
    let mut r = start("example.com.");
    let d = r.handle_frame(&wrap_response(&empty_response(0, 3), "10.0.0.1"));
    assert!(matches!(d, FrameDisposition::Advanced));
    assert_eq!(
        r.outcome,
        Some(Err("request failed: NoNameError".to_string()))
    );
}

#[test]
fn empty_answer_is_not_found() {
    let mut r = start("example.com.");
    let d = r.handle_frame(&wrap_response(&empty_response(0, 0), "10.0.0.1"));
    assert!(matches!(d, FrameDisposition::Advanced));
    assert_eq!(r.outcome, Some(Err("not found".to_string())));
}

#[test]
fn mismatched_id_is_ignored() {
    let mut r = start("example.com.");
    let d = r.handle_frame(&wrap_response(
        &answer(7, "example.com.", [1, 2, 3, 4]),
        "10.0.0.1",
    ));
    assert!(matches!(d, FrameDisposition::Ignored));
    assert!(r.outcome.is_none());
}

#[test]
fn foreign_frames_are_ignored() {
    let mut r = start("example.com.");
    // Addressed to another host.
    let dns = answer(0, "example.com.", [1, 2, 3, 4]);
    let udp = create_udp_datagram(53, PORT, &dns, "10.0.0.1", MY_IP);
    let ip = create_ip_packet(17, 99, "10.0.0.1", MY_IP, &udp);
    let foreign = create_ethernet_frame(0x0800, SERVER_MAC, SERVER_MAC, &ip);
    assert!(matches!(r.handle_frame(&foreign), FrameDisposition::Ignored));
    // Too short to mean anything.
    assert!(matches!(
        r.handle_frame(&vec![0; 10]),
        FrameDisposition::Ignored
    ));
}

#[test]
fn arp_request_gets_answered_while_waiting() {
    let mut r = start("example.com.");
    let probe = create_ethernet_frame(
        0x0806,
        "ff:ff:ff:ff:ff:ff",
        GW_MAC,
        &create_arp_request_message(GW_IP, GW_MAC, MY_IP),
    );
    match r.handle_frame(&probe) {
        FrameDisposition::ArpReply(f) => {
            // The reply is addressed to the gateway and carries this
            // host's addresses.
            let expected = create_ethernet_frame(
                0x0806,
                GW_MAC,
                MY_MAC,
                &create_arp_reply_message(MY_IP, MY_MAC, GW_IP, GW_MAC),
            );
            assert_eq!(f, expected);
        },
        _ => panic!("an ARP request for this host must be answered"),
    }
    assert!(r.outcome.is_none());
}

#[test]
fn malformed_config_is_rejected() {
    assert!(NetConfig::new(
        "192.168.70.300".to_string(),
        MY_MAC.to_string(),
        GW_IP.to_string(),
        PORT,
        vec!["10.0.0.1".to_string()],
    )
    .is_none());
    assert!(NetConfig::new(
        MY_IP.to_string(),
        MY_MAC.to_string(),
        GW_IP.to_string(),
        PORT,
        vec![],
    )
    .is_none());
}
