//! ARP messages (RFC 826) over Ethernet: building requests and replies,
//! and classifying received frames.

use vstd::prelude::*;

verus! {

use crate::addr::{
    mac_str_wf, spec_parse_macaddr, parse_macaddr, ipv4_str_wf, ipv4_bytes_of, parse_ipaddr,
};
use crate::ether::spec_ethernet_frame;
use crate::wire::{zero_bytes, push_bytes, bytes_eq_at};

/// The all-ones broadcast MAC address.
pub open spec fn broadcast_mac() -> Seq<u8> {
    seq![255u8, 255u8, 255u8, 255u8, 255u8, 255u8]
}

/// The fixed ARP prefix for Ethernet/IPv4: hardware type 1, protocol
/// type 0x0800, address lengths 6 and 4, then the opcode.
pub open spec fn arp_prefix(opcode: u8) -> Seq<u8> {
    seq![0u8, 1u8, 8u8, 0u8, 6u8, 4u8, 0u8, opcode]
}

/// The bytes of an ARP request: opcode 1, target MAC all zero.
pub open spec fn spec_arp_request_message(
    sender_ip: Seq<char>,
    sender_mac: Seq<char>,
    target_ip: Seq<char>,
) -> Seq<u8>
    recommends
        ipv4_str_wf(sender_ip),
        mac_str_wf(sender_mac),
        ipv4_str_wf(target_ip),
{
    arp_prefix(1) + spec_parse_macaddr(sender_mac) + ipv4_bytes_of(sender_ip) + zero_bytes(6)
        + ipv4_bytes_of(target_ip)
}

/// The bytes of an ARP reply: opcode 2, all four addresses filled.
pub open spec fn spec_arp_reply_message(
    sender_ip: Seq<char>,
    sender_mac: Seq<char>,
    target_ip: Seq<char>,
    target_mac: Seq<char>,
) -> Seq<u8>
    recommends
        ipv4_str_wf(sender_ip),
        mac_str_wf(sender_mac),
        ipv4_str_wf(target_ip),
        mac_str_wf(target_mac),
{
    arp_prefix(2) + spec_parse_macaddr(sender_mac) + ipv4_bytes_of(sender_ip)
        + spec_parse_macaddr(target_mac) + ipv4_bytes_of(target_ip)
}

/// Builds the 28-byte ARP request message for `target_ipaddr_str`.
pub fn create_arp_request_message(
    sender_ipaddr_str: &str,
    sender_macaddr_str: &str,
    target_ipaddr_str: &str,
) -> (r: Vec<u8>)
    requires
        ipv4_str_wf(sender_ipaddr_str@),
        mac_str_wf(sender_macaddr_str@),
        ipv4_str_wf(target_ipaddr_str@),
    ensures
        r@ == spec_arp_request_message(
            sender_ipaddr_str@,
            sender_macaddr_str@,
            target_ipaddr_str@,
        ),
        r@.len() == 28,
{
    let sender_hwaddr = parse_macaddr(sender_macaddr_str).unwrap();
    let sender_ipaddr = parse_ipaddr(sender_ipaddr_str).unwrap();
    let target_ipaddr = parse_ipaddr(target_ipaddr_str).unwrap();
    let mut r: Vec<u8> = Vec::new();
    r.push(0);
    r.push(1);
    r.push(8);
    r.push(0);
    r.push(6);
    r.push(4);
    r.push(0);
    r.push(1);
    push_bytes(&mut r, &sender_hwaddr);
    push_bytes(&mut r, &sender_ipaddr);
    crate::wire::push_zeros(&mut r, 6);
    push_bytes(&mut r, &target_ipaddr);
    proof {
        assert(r@ =~= spec_arp_request_message(
            sender_ipaddr_str@,
            sender_macaddr_str@,
            target_ipaddr_str@,
        ));
    }
    r
}

/// Builds the 28-byte ARP reply message to `target_macaddr_str`.
pub fn create_arp_reply_message(
    sender_ipaddr_str: &str,
    sender_macaddr_str: &str,
    target_ipaddr_str: &str,
    target_macaddr_str: &str,
) -> (r: Vec<u8>)
    requires
        ipv4_str_wf(sender_ipaddr_str@),
        mac_str_wf(sender_macaddr_str@),
        ipv4_str_wf(target_ipaddr_str@),
        mac_str_wf(target_macaddr_str@),
    ensures
        r@ == spec_arp_reply_message(
            sender_ipaddr_str@,
            sender_macaddr_str@,
            target_ipaddr_str@,
            target_macaddr_str@,
        ),
        r@.len() == 28,
{
    let sender_hwaddr = parse_macaddr(sender_macaddr_str).unwrap();
    let sender_ipaddr = parse_ipaddr(sender_ipaddr_str).unwrap();
    let target_hwaddr = parse_macaddr(target_macaddr_str).unwrap();
    let target_ipaddr = parse_ipaddr(target_ipaddr_str).unwrap();
    let mut r: Vec<u8> = Vec::new();
    r.push(0);
    r.push(1);
    r.push(8);
    r.push(0);
    r.push(6);
    r.push(4);
    r.push(0);
    r.push(2);
    push_bytes(&mut r, &sender_hwaddr);
    push_bytes(&mut r, &sender_ipaddr);
    push_bytes(&mut r, &target_hwaddr);
    push_bytes(&mut r, &target_ipaddr);
    proof {
        assert(r@ =~= spec_arp_reply_message(
            sender_ipaddr_str@,
            sender_macaddr_str@,
            target_ipaddr_str@,
            target_macaddr_str@,
        ));
    }
    r
}

/// True for an Ethernet frame carrying an ARP request addressed to this
/// host: destination broadcast or mine, ethertype 0x0806, opcode 1, and
/// the ARP target protocol address equal to mine.
pub open spec fn spec_is_arp_request(frame: Seq<u8>, my_ip: Seq<char>, my_mac: Seq<char>) -> bool {
    &&& frame.len() >= 42
    &&& (frame.subrange(0, 6) == broadcast_mac() || frame.subrange(0, 6) == spec_parse_macaddr(
        my_mac,
    ))
    &&& frame[12] == 8 && frame[13] == 6
    &&& frame[20] == 0 && frame[21] == 1
    &&& frame.subrange(38, 42) == ipv4_bytes_of(my_ip)
}

/// True for an Ethernet frame carrying an ARP reply addressed to this
/// host: destination mine, ethertype 0x0806, opcode 2, and the ARP
/// target protocol address equal to mine. Of the two deployed matcher
/// variants — by destination MAC alone, or additionally by the
/// embedded target protocol address — this is the stricter one.
pub open spec fn spec_is_arp_reply(frame: Seq<u8>, my_ip: Seq<char>, my_mac: Seq<char>) -> bool {
    &&& frame.len() >= 42
    &&& frame.subrange(0, 6) == spec_parse_macaddr(my_mac)
    &&& frame[12] == 8 && frame[13] == 6
    &&& frame[20] == 0 && frame[21] == 2
    &&& frame.subrange(38, 42) == ipv4_bytes_of(my_ip)
}

/// Classifies a frame as an ARP request addressed to this host.
pub fn is_arp_request(frame: &Vec<u8>, my_ipaddr: &str, my_macaddr: &str) -> (r: bool)
    requires
        ipv4_str_wf(my_ipaddr@),
        mac_str_wf(my_macaddr@),
    ensures
        r == spec_is_arp_request(frame@, my_ipaddr@, my_macaddr@),
{
    if frame.len() < 42 {
        return false;
    }
    let my_mac = parse_macaddr(my_macaddr).unwrap();
    let my_ip = parse_ipaddr(my_ipaddr).unwrap();
    let mut bcast: Vec<u8> = Vec::new();
    let mut i: usize = 0;
    while i < 6
        invariant
            0 <= i <= 6,
            bcast@ == broadcast_mac().take(i as int),
        decreases 6 - i,
    {
        bcast.push(255);
        i = i + 1;
        proof {
            assert(bcast@ =~= broadcast_mac().take(i as int));
        }
    }
    proof {
        assert(bcast@ =~= broadcast_mac());
    }
    // destination is broadcast or my mac address
    if !(bytes_eq_at(frame, 0, &bcast) || bytes_eq_at(frame, 0, &my_mac)) {
        return false;
    }
    // type is arp
    if !(frame[12] == 8 && frame[13] == 6) {
        return false;
    }
    // opcode is request
    if !(frame[20] == 0 && frame[21] == 1) {
        return false;
    }
    // target protocol address is my ip address
    bytes_eq_at(frame, 38, &my_ip)
}

/// Classifies a frame as an ARP reply addressed to this host.
pub fn is_arp_reply(frame: &Vec<u8>, my_ipaddr: &str, my_macaddr: &str) -> (r: bool)
    requires
        ipv4_str_wf(my_ipaddr@),
        mac_str_wf(my_macaddr@),
    ensures
        r == spec_is_arp_reply(frame@, my_ipaddr@, my_macaddr@),
{
    if frame.len() < 42 {
        return false;
    }
    let my_mac = parse_macaddr(my_macaddr).unwrap();
    let my_ip = parse_ipaddr(my_ipaddr).unwrap();
    // destination is my mac address
    if !bytes_eq_at(frame, 0, &my_mac) {
        return false;
    }
    // type is arp
    if !(frame[12] == 8 && frame[13] == 6) {
        return false;
    }
    // opcode is reply
    if !(frame[20] == 0 && frame[21] == 2) {
        return false;
    }
    // target protocol address is my ip address
    bytes_eq_at(frame, 38, &my_ip)
}

/// A built ARP request, framed to the broadcast address, is classified
/// as a request to the host that owns the request's target address.
pub proof fn lemma_built_arp_request_matches(
    sender_ip: Seq<char>,
    sender_mac: Seq<char>,
    target_ip: Seq<char>,
    my_mac: Seq<char>,
)
    requires
        ipv4_str_wf(sender_ip),
        mac_str_wf(sender_mac),
        ipv4_str_wf(target_ip),
        mac_str_wf(my_mac),
    ensures
        spec_is_arp_request(
            spec_ethernet_frame(
                0x0806,
                broadcast_mac(),
                spec_parse_macaddr(sender_mac),
                spec_arp_request_message(sender_ip, sender_mac, target_ip),
            ),
            target_ip,
            my_mac,
        ),
{
    let msg = spec_arp_request_message(sender_ip, sender_mac, target_ip);
    let frame = spec_ethernet_frame(0x0806, broadcast_mac(), spec_parse_macaddr(sender_mac), msg);
    crate::addr::lemma_ipv4_bytes_len(sender_ip);
    crate::addr::lemma_ipv4_bytes_len(target_ip);
    assert(msg.len() == 28);
    assert(frame.len() == 60);
    assert(frame.subrange(0, 6) =~= broadcast_mac());
    assert(frame[12] == 8 && frame[13] == 6);
    assert(frame[20] == msg[6] && frame[21] == msg[7]);
    assert(msg[6] == 0 && msg[7] == 1);
    assert(frame.subrange(38, 42) =~= ipv4_bytes_of(target_ip)) by {
        assert(forall|i: int| 0 <= i < 4 ==> #[trigger] frame[38 + i] == msg[24 + i]);
        assert(forall|i: int| 0 <= i < 4 ==> #[trigger] msg[24 + i] == ipv4_bytes_of(target_ip)[i]);
    }
}

/// A built ARP reply, framed to the target's own address, is classified
/// as a reply to the host that owns the reply's target address.
pub proof fn lemma_built_arp_reply_matches(
    sender_ip: Seq<char>,
    sender_mac: Seq<char>,
    target_ip: Seq<char>,
    target_mac: Seq<char>,
)
    requires
        ipv4_str_wf(sender_ip),
        mac_str_wf(sender_mac),
        ipv4_str_wf(target_ip),
        mac_str_wf(target_mac),
    ensures
        spec_is_arp_reply(
            spec_ethernet_frame(
                0x0806,
                spec_parse_macaddr(target_mac),
                spec_parse_macaddr(sender_mac),
                spec_arp_reply_message(sender_ip, sender_mac, target_ip, target_mac),
            ),
            target_ip,
            target_mac,
        ),
{
    let msg = spec_arp_reply_message(sender_ip, sender_mac, target_ip, target_mac);
    let frame = spec_ethernet_frame(
        0x0806,
        spec_parse_macaddr(target_mac),
        spec_parse_macaddr(sender_mac),
        msg,
    );
    crate::addr::lemma_ipv4_bytes_len(sender_ip);
    crate::addr::lemma_ipv4_bytes_len(target_ip);
    assert(msg.len() == 28);
    assert(frame.len() == 60);
    assert(frame.subrange(0, 6) =~= spec_parse_macaddr(target_mac));
    assert(frame[12] == 8 && frame[13] == 6);
    assert(frame[20] == msg[6] && frame[21] == msg[7]);
    assert(msg[6] == 0 && msg[7] == 2);
    assert(frame.subrange(38, 42) =~= ipv4_bytes_of(target_ip)) by {
        assert(forall|i: int| 0 <= i < 4 ==> #[trigger] frame[38 + i] == msg[24 + i]);
        assert(forall|i: int| 0 <= i < 4 ==> #[trigger] msg[24 + i] == ipv4_bytes_of(target_ip)[i]);
    }
}

/// A frame whose destination is neither broadcast nor this host's MAC
/// address is classified as neither request nor reply to this host.
pub proof fn lemma_arp_classify_other_dest(frame: Seq<u8>, my_ip: Seq<char>, my_mac: Seq<char>)
    requires
        frame.subrange(0, 6) != broadcast_mac(),
        frame.subrange(0, 6) != spec_parse_macaddr(my_mac),
    ensures
        !spec_is_arp_request(frame, my_ip, my_mac),
        !spec_is_arp_reply(frame, my_ip, my_mac),
{
}

/// A frame of a non-ARP ethertype is classified as neither request nor
/// reply.
pub proof fn lemma_arp_classify_other_type(frame: Seq<u8>, my_ip: Seq<char>, my_mac: Seq<char>)
    requires
        frame.len() >= 14,
        !(frame[12] == 8 && frame[13] == 6),
    ensures
        !spec_is_arp_request(frame, my_ip, my_mac),
        !spec_is_arp_reply(frame, my_ip, my_mac),
{
}

/// A frame whose ARP target protocol address differs from this host's
/// address is classified as neither request nor reply to this host.
pub proof fn lemma_arp_classify_other_ip(frame: Seq<u8>, my_ip: Seq<char>, my_mac: Seq<char>)
    requires
        frame.len() >= 42,
        frame.subrange(38, 42) != ipv4_bytes_of(my_ip),
    ensures
        !spec_is_arp_request(frame, my_ip, my_mac),
        !spec_is_arp_reply(frame, my_ip, my_mac),
{
}

} // verus!
