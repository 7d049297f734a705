//! Ethernet framing: a 14-byte header (destination MAC, source MAC,
//! ethertype) and a payload padded with zeros up to the minimum frame
//! payload length of 46 bytes.

use vstd::prelude::*;

verus! {

use crate::addr::{mac_str_wf, spec_parse_macaddr, parse_macaddr};
use crate::wire::{be16_bytes, zero_bytes, push_be16, push_bytes, push_zeros};

/// Number of zero bytes appended after a payload of length `n`.
pub open spec fn eth_pad_len(n: nat) -> nat {
    if n < 46 {
        (46 - n) as nat
    } else {
        0
    }
}

/// Offset where an Ethernet frame's payload begins.
pub open spec fn eth_header_len() -> nat {
    14
}

/// The bytes of an Ethernet frame around a payload.
pub open spec fn spec_ethernet_frame(
    protocol_type: u16,
    dst: Seq<u8>,
    src: Seq<u8>,
    data: Seq<u8>,
) -> Seq<u8>
    recommends
        dst.len() == 6,
        src.len() == 6,
{
    dst + src + be16_bytes(protocol_type) + data + zero_bytes(eth_pad_len(data.len()))
}

/// Builds an Ethernet frame. Payloads above 1500 bytes are a programmer
/// error and are excluded; payloads below 46 bytes are zero-padded.
pub fn create_ethernet_frame(
    protocol_type: u16,
    dest_macaddr_str: &str,
    src_macaddr_str: &str,
    data: &Vec<u8>,
) -> (r: Vec<u8>)
    requires
        mac_str_wf(dest_macaddr_str@),
        mac_str_wf(src_macaddr_str@),
        data@.len() <= 1500,
    ensures
        r@ == spec_ethernet_frame(
            protocol_type,
            spec_parse_macaddr(dest_macaddr_str@),
            spec_parse_macaddr(src_macaddr_str@),
            data@,
        ),
        r@.len() == 14 + data@.len() + eth_pad_len(data@.len()),
        r@.len() >= 60,
{
    let dest_hwaddr = parse_macaddr(dest_macaddr_str).unwrap();
    let src_hwaddr = parse_macaddr(src_macaddr_str).unwrap();
    let mut r: Vec<u8> = Vec::new();
    push_bytes(&mut r, &dest_hwaddr);
    push_bytes(&mut r, &src_hwaddr);
    push_be16(&mut r, protocol_type);
    push_bytes(&mut r, data);
    if data.len() < 46 {
        push_zeros(&mut r, 46 - data.len());
    }
    proof {
        assert(r@ =~= spec_ethernet_frame(
            protocol_type,
            spec_parse_macaddr(dest_macaddr_str@),
            spec_parse_macaddr(src_macaddr_str@),
            data@,
        ));
    }
    r
}

/// Returns the payload of an Ethernet frame: everything after the
/// 14-byte header.
pub fn get_ethernet_frame_data(frame: &Vec<u8>) -> (r: Vec<u8>)
    requires
        frame@.len() >= 14,
    ensures
        r@ == frame@.skip(14),
{
    let r = crate::wire::copy_range(frame, 14, frame.len() - 14);
    proof {
        assert(r@ =~= frame@.skip(14));
    }
    r
}

} // verus!
