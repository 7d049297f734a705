//! UDP datagrams (RFC 768): an 8-byte header and a checksum computed
//! over the IPv4 pseudo-header, the header with a zeroed checksum
//! field, and the payload.

use vstd::prelude::*;

verus! {

use crate::addr::{
    ipv4_str_wf, ipv4_bytes_of, parse_ipaddr, spec_checksum16, checksum16,
    lemma_checksum16_self_verifying, lemma_ipv4_bytes_len,
};
use crate::wire::{be16, be16_bytes, push_be16, push_bytes};

/// The IPv4 pseudo-header included in the UDP checksum but not
/// transmitted: source and destination address, a zero byte, the UDP
/// protocol number 17, and the UDP length.
pub open spec fn spec_udp_pseudo_header(src: Seq<u8>, dst: Seq<u8>, udp_len: u16) -> Seq<u8>
    recommends
        src.len() == 4,
        dst.len() == 4,
{
    src + dst + seq![0u8, 17u8] + be16_bytes(udp_len)
}

/// The checksum carried by a UDP datagram.
pub open spec fn spec_udp_checksum(
    src_port: u16,
    dest_port: u16,
    data: Seq<u8>,
    src_ip: Seq<char>,
    dest_ip: Seq<char>,
) -> u16
    recommends
        ipv4_str_wf(src_ip),
        ipv4_str_wf(dest_ip),
        data.len() <= 65527,
{
    let udp_len = (8 + data.len()) as u16;
    spec_checksum16(
        spec_udp_pseudo_header(ipv4_bytes_of(src_ip), ipv4_bytes_of(dest_ip), udp_len)
            + be16_bytes(src_port) + be16_bytes(dest_port) + be16_bytes(udp_len) + seq![0u8, 0u8]
            + data,
        0,
    )
}

/// The bytes of a UDP datagram around a payload.
pub open spec fn spec_udp_datagram(
    src_port: u16,
    dest_port: u16,
    data: Seq<u8>,
    src_ip: Seq<char>,
    dest_ip: Seq<char>,
) -> Seq<u8>
    recommends
        ipv4_str_wf(src_ip),
        ipv4_str_wf(dest_ip),
        data.len() <= 65527,
{
    let udp_len = (8 + data.len()) as u16;
    be16_bytes(src_port) + be16_bytes(dest_port) + be16_bytes(udp_len) + be16_bytes(
        spec_udp_checksum(src_port, dest_port, data, src_ip, dest_ip),
    ) + data
}

/// Builds a UDP datagram: length is 8 plus the payload length, checksum
/// is `checksum16` over pseudo-header, header with zero checksum, and
/// payload.
pub fn create_udp_datagram(
    src_port_num: u16,
    dest_port_num: u16,
    data: &Vec<u8>,
    src_ipaddr_str: &str,
    dest_ipaddr_str: &str,
) -> (r: Vec<u8>)
    requires
        ipv4_str_wf(src_ipaddr_str@),
        ipv4_str_wf(dest_ipaddr_str@),
        data@.len() <= 65527,
    ensures
        r@ == spec_udp_datagram(src_port_num, dest_port_num, data@, src_ipaddr_str@,
            dest_ipaddr_str@),
        r@.len() == 8 + data@.len(),
{
    let src_ipaddr = parse_ipaddr(src_ipaddr_str).unwrap();
    let dest_ipaddr = parse_ipaddr(dest_ipaddr_str).unwrap();
    let udp_len: u16 = 8 + data.len() as u16;

    let mut buf: Vec<u8> = Vec::new();
    push_bytes(&mut buf, &src_ipaddr);
    push_bytes(&mut buf, &dest_ipaddr);
    buf.push(0);
    buf.push(17);
    push_be16(&mut buf, udp_len);
    push_be16(&mut buf, src_port_num);
    push_be16(&mut buf, dest_port_num);
    push_be16(&mut buf, udp_len);
    buf.push(0);
    buf.push(0);
    push_bytes(&mut buf, data);
    proof {
        assert(buf@ =~= spec_udp_pseudo_header(
            ipv4_bytes_of(src_ipaddr_str@),
            ipv4_bytes_of(dest_ipaddr_str@),
            udp_len,
        ) + be16_bytes(src_port_num) + be16_bytes(dest_port_num) + be16_bytes(udp_len) + seq![
            0u8,
            0u8,
        ] + data@);
    }
    let checksum = checksum16(&buf, 0);

    let mut r: Vec<u8> = Vec::new();
    push_be16(&mut r, src_port_num);
    push_be16(&mut r, dest_port_num);
    push_be16(&mut r, udp_len);
    push_be16(&mut r, checksum);
    push_bytes(&mut r, data);
    proof {
        assert(r@ =~= spec_udp_datagram(src_port_num, dest_port_num, data@, src_ipaddr_str@,
            dest_ipaddr_str@));
    }
    r
}

/// Returns the payload of a UDP datagram: the bytes between the 8-byte
/// header and the end given by the datagram's own length field, which
/// matters because surrounding Ethernet padding can make the physical
/// buffer longer than the logical datagram.
pub fn get_udp_datagram_data(datagram: &Vec<u8>) -> (r: Vec<u8>)
    requires
        datagram@.len() >= 8,
        8 <= be16(datagram@[4], datagram@[5]) <= datagram@.len(),
    ensures
        r@ == datagram@.subrange(8, be16(datagram@[4], datagram@[5]) as int),
{
    let length = (datagram[4] as usize) * 256 + datagram[5] as usize;
    crate::wire::copy_range(datagram, 8, length - 8)
}

/// The internet-checksum self-verification law for UDP: recomputing
/// `checksum16` over the pseudo-header and the built datagram, checksum
/// field included, yields zero.
pub proof fn lemma_udp_checksum_self_verifying(
    src_port: u16,
    dest_port: u16,
    data: Seq<u8>,
    src_ip: Seq<char>,
    dest_ip: Seq<char>,
)
    requires
        ipv4_str_wf(src_ip),
        ipv4_str_wf(dest_ip),
        data.len() <= 65527,
    ensures
        spec_checksum16(
            spec_udp_pseudo_header(
                ipv4_bytes_of(src_ip),
                ipv4_bytes_of(dest_ip),
                (8 + data.len()) as u16,
            ) + spec_udp_datagram(src_port, dest_port, data, src_ip, dest_ip),
            0,
        ) == 0,
{
    lemma_ipv4_bytes_len(src_ip);
    lemma_ipv4_bytes_len(dest_ip);
    let udp_len = (8 + data.len()) as u16;
    let pseudo = spec_udp_pseudo_header(ipv4_bytes_of(src_ip), ipv4_bytes_of(dest_ip), udp_len);
    let prefix = pseudo + be16_bytes(src_port) + be16_bytes(dest_port) + be16_bytes(udp_len);
    assert(prefix.len() == 18);
    lemma_checksum16_self_verifying(prefix, data);
    let c = spec_checksum16(prefix + seq![0u8, 0u8] + data, 0);
    assert(prefix + seq![0u8, 0u8] + data =~= pseudo + be16_bytes(src_port) + be16_bytes(dest_port)
        + be16_bytes(udp_len) + seq![0u8, 0u8] + data);
    assert(c == spec_udp_checksum(src_port, dest_port, data, src_ip, dest_ip));
    assert(be16_bytes(c) == seq![(c / 256) as u8, (c % 256) as u8]);
    assert(prefix + seq![(c / 256) as u8, (c % 256) as u8] + data =~= pseudo + spec_udp_datagram(
        src_port,
        dest_port,
        data,
        src_ip,
        dest_ip,
    ));
}

} // verus!
