//! IPv4 packets (RFC 791): a fixed 20-byte header with no options,
//! protocol, identification, a constant TTL, source and destination
//! addresses, and a header checksum.
//!
//! The identification field is reused by the resolver as a
//! query-correlation id.

use vstd::prelude::*;

verus! {

use crate::addr::{ipv4_str_wf, ipv4_bytes_of, parse_ipaddr, spec_checksum16, checksum16};
use crate::wire::{be16_bytes, push_be16, push_bytes};

/// Time-to-live set on every packet this stack builds.
pub open spec fn ip_default_ttl() -> u8 {
    64
}

/// The 20-byte IPv4 header with the checksum field zeroed.
pub open spec fn spec_ip_header_zero_cksum(
    protocol: u8,
    id: u16,
    src: Seq<u8>,
    dst: Seq<u8>,
    total_len: u16,
) -> Seq<u8>
    recommends
        src.len() == 4,
        dst.len() == 4,
{
    seq![0x45u8, 0u8] + be16_bytes(total_len) + be16_bytes(id) + seq![0u8, 0u8] + seq![
        ip_default_ttl(),
        protocol,
    ] + seq![0u8, 0u8] + src + dst
}

/// The bytes of an IPv4 packet around a payload.
pub open spec fn spec_ip_packet(
    protocol: u8,
    id: u16,
    src: Seq<char>,
    dst: Seq<char>,
    data: Seq<u8>,
) -> Seq<u8>
    recommends
        ipv4_str_wf(src),
        ipv4_str_wf(dst),
        data.len() <= 65515,
{
    let h0 = spec_ip_header_zero_cksum(
        protocol,
        id,
        ipv4_bytes_of(src),
        ipv4_bytes_of(dst),
        (20 + data.len()) as u16,
    );
    let c = spec_checksum16(h0, 0);
    h0.subrange(0, 10) + be16_bytes(c) + h0.subrange(12, 20) + data
}

/// Builds an IPv4 packet: fixed 20-byte header, no options, header
/// checksum computed over the header with the checksum field zeroed.
pub fn create_ip_packet(
    protocol: u8,
    id: u16,
    src_ipaddr_str: &str,
    dest_ipaddr_str: &str,
    data: &Vec<u8>,
) -> (r: Vec<u8>)
    requires
        ipv4_str_wf(src_ipaddr_str@),
        ipv4_str_wf(dest_ipaddr_str@),
        data@.len() <= 65515,
    ensures
        r@ == spec_ip_packet(protocol, id, src_ipaddr_str@, dest_ipaddr_str@, data@),
        r@.len() == 20 + data@.len(),
{
    let src_ipaddr = parse_ipaddr(src_ipaddr_str).unwrap();
    let dest_ipaddr = parse_ipaddr(dest_ipaddr_str).unwrap();
    let total_len: u16 = 20 + data.len() as u16;

    let mut h0: Vec<u8> = Vec::new();
    h0.push(0x45);
    h0.push(0);
    push_be16(&mut h0, total_len);
    push_be16(&mut h0, id);
    h0.push(0);
    h0.push(0);
    h0.push(64);
    h0.push(protocol);
    h0.push(0);
    h0.push(0);
    push_bytes(&mut h0, &src_ipaddr);
    push_bytes(&mut h0, &dest_ipaddr);
    let ghost spec_h0 = spec_ip_header_zero_cksum(
        protocol,
        id,
        ipv4_bytes_of(src_ipaddr_str@),
        ipv4_bytes_of(dest_ipaddr_str@),
        total_len,
    );
    proof {
        assert(h0@ =~= spec_h0);
    }
    let c = checksum16(&h0, 0);

    let mut r: Vec<u8> = Vec::new();
    let mut i: usize = 0;
    while i < 10
        invariant
            0 <= i <= 10,
            h0@.len() == 20,
            r@ == h0@.subrange(0, i as int),
        decreases 10 - i,
    {
        r.push(h0[i]);
        i = i + 1;
        proof {
            assert(r@ =~= h0@.subrange(0, i as int));
        }
    }
    push_be16(&mut r, c);
    let mut j: usize = 12;
    while j < 20
        invariant
            12 <= j <= 20,
            h0@.len() == 20,
            r@ == h0@.subrange(0, 10) + be16_bytes(spec_checksum16(h0@, 0)) + h0@.subrange(
                12,
                j as int,
            ),
        decreases 20 - j,
    {
        r.push(h0[j]);
        j = j + 1;
        proof {
            assert(r@ =~= h0@.subrange(0, 10) + be16_bytes(spec_checksum16(h0@, 0))
                + h0@.subrange(12, j as int));
        }
    }
    push_bytes(&mut r, data);
    proof {
        assert(r@ =~= spec_ip_packet(protocol, id, src_ipaddr_str@, dest_ipaddr_str@, data@));
    }
    r
}

/// Header length in bytes read from a packet's IHL field.
pub open spec fn spec_ip_header_len(packet: Seq<u8>) -> int
    recommends
        packet.len() >= 1,
{
    4 * ((packet[0] & 0x0F) as int)
}

/// Returns the payload of an IPv4 packet: everything after the header
/// length given by the IHL field.
pub fn get_ip_packet_data(packet: &Vec<u8>) -> (r: Vec<u8>)
    requires
        packet@.len() >= 1,
        spec_ip_header_len(packet@) <= packet@.len(),
    ensures
        r@ == packet@.skip(spec_ip_header_len(packet@)),
{
    let ihl = (packet[0] & 0x0F) as usize;
    let hl = 4 * ihl;
    let r = crate::wire::copy_range(packet, hl, packet.len() - hl);
    proof {
        assert(r@ =~= packet@.skip(spec_ip_header_len(packet@)));
    }
    r
}

} // verus!
