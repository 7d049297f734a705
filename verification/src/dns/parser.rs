//! Parsing DNS messages (RFC 1035 §4) from untrusted wire bytes.
//!
//! Domain names are decompressed by recursive descent over the whole
//! message buffer. A length octet with both high bits set is a
//! compression pointer whose 14-bit value is a new offset into the same
//! message; the pointed-to name is returned unchanged and the consumed
//! length at the original position is exactly the 2 pointer bytes.
//! Unlike a naive decoder, decompression here carries a jump budget so
//! that an adversarial pointer cycle is a parse failure, never
//! unbounded recursion; labels are required to be ASCII for the same
//! hardening reason. Out-of-range reads, exhausted budgets and
//! non-ASCII labels fail the parse of the whole message, while an
//! unrecognized type or class fails only its own entry, which is
//! skipped by its reported size so one bad record cannot desynchronize
//! the rest of the message.

use vstd::prelude::*;

verus! {

use crate::dns::model::{
    DnsClass, DnsHeaderOpecode, DnsHeaderRcode, DnsHeaderSection, DnsMessage,
    DnsQuestionSectionEntry, DnsResourceRecord, DnsType, SpecDnsMessage, SpecDnsQuestion,
    SpecDnsRecord, spec_dns_class_of, spec_dns_opecode_of, spec_dns_rcode_of, spec_dns_type_of,
};
use crate::wire::{all_ascii, ascii_chars_of, ascii_to_string, be16, be32};

/// Bytes left between an offset and the end of a buffer; zero when the
/// offset is outside the buffer. Serves as a termination measure.
pub open spec fn rem_len(len: nat, offset: int) -> int {
    if 0 <= offset <= len {
        len - offset
    } else {
        0
    }
}

/// Decompresses the domain name at `offset`: the name's bytes (each
/// label followed by a dot) and the length consumed at the original
/// position. `fuel` bounds how many compression pointers may be
/// followed; `None` on an out-of-range read, a non-ASCII label byte or
/// an exhausted pointer budget.
pub open spec fn spec_parse_name(msg: Seq<u8>, offset: int, fuel: nat) -> Option<(Seq<u8>, int)>
    decreases fuel, rem_len(msg.len(), offset),
{
    if !(0 <= offset && offset < msg.len()) {
        None
    } else {
        let b = msg[offset];
        if b == 0 {
            Some((Seq::empty(), 1))
        } else if b & 0xC0 == 0xC0 {
            if fuel == 0 || offset + 1 >= msg.len() {
                None
            } else {
                let ptr = (b & 0x3F) * 256 + msg[offset + 1];
                match spec_parse_name(msg, ptr as int, (fuel - 1) as nat) {
                    Some((n, _)) => Some((n, 2)),
                    None => None,
                }
            }
        } else {
            let l = b as int;
            if offset + 1 + l > msg.len() {
                None
            } else if !all_ascii(msg.subrange(offset + 1, offset + 1 + l)) {
                None
            } else {
                match spec_parse_name(msg, offset + 1 + l, fuel) {
                    Some((rest, c)) => Some(
                        (msg.subrange(offset + 1, offset + 1 + l) + seq![46u8] + rest, 1 + l + c),
                    ),
                    None => None,
                }
            }
        }
    }
}

/// A decompressed name consumes at least one byte, stays within the
/// buffer at its original position, is ASCII, and is no longer than
/// one buffer length per followed pointer plus the rest of the buffer.
pub proof fn lemma_parse_name_bounds(msg: Seq<u8>, offset: int, fuel: nat)
    ensures
        spec_parse_name(msg, offset, fuel) matches Some((n, c)) ==> 1 <= c && offset + c
            <= msg.len() && all_ascii(n) && n.len() <= fuel * msg.len() + (msg.len() - offset),
    decreases fuel, rem_len(msg.len(), offset),
{
    if 0 <= offset && offset < msg.len() {
        let b = msg[offset];
        if b == 0 {
        } else if b & 0xC0 == 0xC0 {
            if fuel > 0 && offset + 1 < msg.len() {
                let ptr = (b & 0x3F) * 256 + msg[offset + 1];
                lemma_parse_name_bounds(msg, ptr as int, (fuel - 1) as nat);
                match spec_parse_name(msg, ptr as int, (fuel - 1) as nat) {
                    Some((n, _)) => {
                        assert((fuel - 1) * msg.len() + msg.len() == fuel * msg.len())
                            by (nonlinear_arith)
                            requires fuel >= 1;
                        assert(n.len() <= fuel * msg.len());
                    },
                    None => {},
                }
            }
        } else {
            let l = b as int;
            if offset + 1 + l <= msg.len() && all_ascii(msg.subrange(offset + 1, offset + 1 + l)) {
                lemma_parse_name_bounds(msg, offset + 1 + l, fuel);
                match spec_parse_name(msg, offset + 1 + l, fuel) {
                    Some((rest, c)) => {
                        let lab = msg.subrange(offset + 1, offset + 1 + l);
                        assert forall|i: int|
                            0 <= i < (lab + seq![46u8] + rest).len() implies (lab + seq![46u8]
                            + rest)[i] < 128 by {
                            if i < l {
                                assert(lab[i] < 128);
                            } else if i > l {
                                assert(rest[i - l - 1] < 128);
                            }
                        }
                    },
                    None => {},
                }
            }
        }
    }
}

/// Recursive worker for name decompression, faithful to
/// `spec_parse_name`.
fn parse_name_rec(message: &Vec<u8>, offset: usize, fuel: usize) -> (r: Option<(Vec<u8>, usize)>)
    requires
        message@.len() <= 65535,
        fuel <= 65535,
    ensures
        ({
            let sp = spec_parse_name(message@, offset as int, fuel as nat);
            &&& (r is Some <==> sp is Some)
            &&& (r matches Some((n, c)) ==> sp == Some((n@, c as int)))
        }),
    decreases fuel, rem_len(message@.len(), offset as int),
{
    let n = message.len();
    if offset >= n {
        return None;
    }
    let b = message[offset];
    if b == 0 {
        let empty: Vec<u8> = Vec::new();
        proof {
            assert(empty@ =~= Seq::<u8>::empty());
        }
        return Some((empty, 1));
    }
    if b & 0xC0 == 0xC0 {
        if fuel == 0 {
            return None;
        }
        if offset + 1 >= n {
            return None;
        }
        let ptr = ((b & 0x3F) as usize) * 256 + message[offset + 1] as usize;
        return match parse_name_rec(message, ptr, fuel - 1) {
            Some((name, _)) => Some((name, 2)),
            None => None,
        };
    }
    let l = b as usize;
    let avail = n - offset;
    if l + 1 > avail {
        return None;
    }
    let mut name: Vec<u8> = Vec::new();
    let mut i: usize = 0;
    let ghost lab = message@.subrange(offset + 1, offset + 1 + l);
    while i < l
        invariant
            0 <= i <= l,
            offset + 1 + l <= n,
            n == message@.len(),
            n <= 65535,
            b == message@[offset as int],
            b != 0,
            b & 0xC0 != 0xC0,
            l == b as usize,
            lab == message@.subrange(offset as int + 1, offset + 1 + l),
            name@ == lab.take(i as int),
            forall|j: int| 0 <= j < i ==> lab[j] < 128,
        decreases l - i,
    {
        let byte = message[offset + 1 + i];
        if byte >= 128 {
            proof {
                assert(lab[i as int] == byte);
                assert(!all_ascii(lab));
                assert(spec_parse_name(message@, offset as int, fuel as nat) is None);
            }
            return None;
        }
        name.push(byte);
        i = i + 1;
        proof {
            assert(name@ =~= lab.take(i as int));
        }
    }
    proof {
        assert(name@ =~= lab);
        assert(all_ascii(lab));
    }
    name.push(46);
    match parse_name_rec(message, offset + 1 + l, fuel) {
        Some((rest, c)) => {
            proof {
                lemma_parse_name_bounds(message@, offset + 1 + l, fuel as nat);
                assert(fuel * message@.len() <= 65535 * 65535) by (nonlinear_arith)
                    requires fuel <= 65535 && message@.len() <= 65535;
                assert(usize::MAX >= u32::MAX);
            }
            crate::wire::push_bytes(&mut name, &rest);
            proof {
                assert(name@ =~= lab + seq![46u8] + rest@);
            }
            Some((name, 1 + l + c))
        },
        None => None,
    }
}

/// Decompression with the jump budget the message-level parser uses:
/// one pointer per byte of the message, enough for every loop-free
/// chain.
pub open spec fn spec_parse_name_full(msg: Seq<u8>, offset: int) -> Option<(Seq<u8>, int)> {
    spec_parse_name(msg, offset, msg.len())
}

/// Decompresses the domain name at `offset` of a DNS message into
/// dot-terminated text, also returning the length consumed at the
/// original position. `None` when the name is malformed (out-of-range
/// read, non-ASCII label, or a compression-pointer chain longer than
/// the message itself, which covers every pointer cycle).
pub fn print_dns_domain_name(message: &Vec<u8>, offset: usize) -> (r: Option<(String, usize)>)
    requires
        message@.len() <= 65535,
    ensures
        ({
            let sp = spec_parse_name_full(message@, offset as int);
            &&& (r is Some <==> sp is Some)
            &&& (r matches Some((s, c)) ==> sp matches Some((nb, sc)) && s@ == ascii_chars_of(nb)
                && c as int == sc)
        }),
{
    match parse_name_rec(message, offset, message.len()) {
        Some((nb, c)) => {
            proof {
                lemma_parse_name_bounds(message@, offset as int, message@.len() as nat);
            }
            let s = ascii_to_string(&nb);
            Some((s, c))
        },
        None => None,
    }
}

} // verus!

verus! {

// ---------------------------------------------------------------------
// Header section
// ---------------------------------------------------------------------

/// Decodes the fixed 12-byte header. A truncated buffer or an
/// unrecognized opcode or rcode nibble fails the whole message.
pub open spec fn spec_parse_header(msg: Seq<u8>) -> Result<DnsHeaderSection, Seq<char>> {
    if msg.len() < 12 {
        Err("truncated header"@)
    } else {
        match spec_dns_opecode_of((msg[2] & 0x78) >> 3) {
            None => Err("unknown opecode"@),
            Some(opcode) => match spec_dns_rcode_of(msg[3] & 0x0F) {
                None => Err("unknown rcode"@),
                Some(rcode) => Ok(
                    DnsHeaderSection {
                        id: be16(msg[0], msg[1]),
                        qr: msg[2] & 0x80 != 0,
                        opcode,
                        aa: msg[2] & 0x04 != 0,
                        tc: msg[2] & 0x02 != 0,
                        rd: msg[2] & 0x01 != 0,
                        ra: msg[3] & 0x80 != 0,
                        rcode,
                        qdcount: be16(msg[4], msg[5]),
                        ancount: be16(msg[6], msg[7]),
                        nscount: be16(msg[8], msg[9]),
                        arcount: be16(msg[10], msg[11]),
                    },
                ),
            },
        }
    }
}

/// Parses the 12-byte DNS header. The opcode nibble is bits 3-6 of
/// byte 2 and the rcode is the low nibble of byte 3; an unrecognized
/// value in either is a hard failure for the whole message.
pub fn parse_dns_header_section(message: &Vec<u8>) -> (r: Result<DnsHeaderSection, String>)
    ensures
        ({
            let sp = spec_parse_header(message@);
            &&& (r is Ok <==> sp is Ok)
            &&& (r matches Ok(h) ==> sp == Result::<DnsHeaderSection, Seq<char>>::Ok(h))
            &&& (r matches Err(m) ==> sp == Result::<DnsHeaderSection, Seq<char>>::Err(m@))
        }),
{
    if message.len() < 12 {
        return Err(String::from_str("truncated header"));
    }
    let opcode = match DnsHeaderOpecode::from_u8((message[2] & 0x78) >> 3) {
        Some(o) => o,
        None => {
            return Err(String::from_str("unknown opecode"));
        },
    };
    let rcode = match DnsHeaderRcode::from_u8(message[3] & 0x0F) {
        Some(rc) => rc,
        None => {
            return Err(String::from_str("unknown rcode"));
        },
    };
    Ok(
        DnsHeaderSection {
            id: (message[0] as u16) * 256 + message[1] as u16,
            qr: message[2] & 0x80 != 0,
            opcode,
            aa: message[2] & 0x04 != 0,
            tc: message[2] & 0x02 != 0,
            rd: message[2] & 0x01 != 0,
            ra: message[3] & 0x80 != 0,
            rcode,
            qdcount: (message[4] as u16) * 256 + message[5] as u16,
            ancount: (message[6] as u16) * 256 + message[7] as u16,
            nscount: (message[8] as u16) * 256 + message[9] as u16,
            arcount: (message[10] as u16) * 256 + message[11] as u16,
        },
    )
}

// ---------------------------------------------------------------------
// Question and resource-record entries
// ---------------------------------------------------------------------

/// How parsing one section entry at an offset can end: a hard failure
/// of the whole message, a recoverable skip that still reports the
/// bytes consumed, or a parsed entry with the bytes consumed.
pub ghost enum SpecQuestionOutcome {
    Malformed,
    Skipped(Seq<char>, int),
    Parsed(SpecDnsQuestion, int),
}

/// Like `SpecQuestionOutcome`, for resource records.
pub ghost enum SpecRecordOutcome {
    Malformed,
    Skipped(Seq<char>, int),
    Parsed(SpecDnsRecord, int),
}

/// Parses the question entry at `offset`: its name, then type and
/// class. An unrecognized type or class is a skip of `name length + 4`
/// bytes.
pub open spec fn spec_parse_question(msg: Seq<u8>, offset: int) -> SpecQuestionOutcome {
    match spec_parse_name_full(msg, offset) {
        None => SpecQuestionOutcome::Malformed,
        Some((nb, nl)) => if offset + nl + 4 > msg.len() {
            SpecQuestionOutcome::Malformed
        } else {
            let t = be16(msg[offset + nl], msg[offset + nl + 1]);
            let cl = be16(msg[offset + nl + 2], msg[offset + nl + 3]);
            if spec_dns_type_of(t) is None {
                SpecQuestionOutcome::Skipped("unknown q_type"@, nl + 4)
            } else if spec_dns_class_of(cl) is None {
                SpecQuestionOutcome::Skipped("unknown q_class"@, nl + 4)
            } else {
                SpecQuestionOutcome::Parsed(
                    SpecDnsQuestion {
                        q_name: ascii_chars_of(nb),
                        q_type: spec_dns_type_of(t).unwrap(),
                        q_class: spec_dns_class_of(cl).unwrap(),
                    },
                    nl + 4,
                )
            }
        },
    }
}

/// A non-malformed question entry consumes between 5 bytes and the
/// rest of the message plus its 4 fixed bytes.
pub proof fn lemma_parse_question_bounds(msg: Seq<u8>, offset: int)
    ensures
        !(spec_parse_question(msg, offset) is Malformed) ==> {
            let sz = match spec_parse_question(msg, offset) {
                SpecQuestionOutcome::Malformed => 0int,
                SpecQuestionOutcome::Skipped(_, sz) => sz,
                SpecQuestionOutcome::Parsed(_, sz) => sz,
            };
            0 <= offset < msg.len() && 5 <= sz && offset + sz <= msg.len() + 4
        },
{
    lemma_parse_name_bounds(msg, offset, msg.len());
}

/// Parses the resource record at `offset`: its name, then type, class,
/// ttl and rdata length at fixed offsets after the name, then rdata
/// interpreted per type: dotted-quad text for A, a (possibly
/// compressed) domain name for NS and CNAME. An unrecognized type or
/// class is a skip of `name length + 10 + rdata length` bytes.
pub open spec fn spec_parse_record(msg: Seq<u8>, offset: int) -> SpecRecordOutcome {
    match spec_parse_name_full(msg, offset) {
        None => SpecRecordOutcome::Malformed,
        Some((nb, nl)) => if offset + nl + 10 > msg.len() {
            SpecRecordOutcome::Malformed
        } else {
            let rdlen = be16(msg[offset + nl + 8], msg[offset + nl + 9]) as int;
            let size = nl + 10 + rdlen;
            let t = be16(msg[offset + nl], msg[offset + nl + 1]);
            let cl = be16(msg[offset + nl + 2], msg[offset + nl + 3]);
            if spec_dns_type_of(t) is None {
                SpecRecordOutcome::Skipped("unknown rr_type"@, size)
            } else if spec_dns_class_of(cl) is None {
                SpecRecordOutcome::Skipped("unknown rr_class"@, size)
            } else {
                let ttl = be32(
                    msg[offset + nl + 4],
                    msg[offset + nl + 5],
                    msg[offset + nl + 6],
                    msg[offset + nl + 7],
                );
                let rr_type = spec_dns_type_of(t).unwrap();
                let rr_class = spec_dns_class_of(cl).unwrap();
                if rr_type is A {
                    if offset + nl + 14 > msg.len() {
                        SpecRecordOutcome::Malformed
                    } else {
                        SpecRecordOutcome::Parsed(
                            SpecDnsRecord {
                                name: ascii_chars_of(nb),
                                rr_type,
                                rr_class,
                                ttl,
                                rdata: crate::addr::spec_print_ipaddr(
                                    msg.subrange(offset + nl + 10, offset + nl + 14),
                                ),
                            },
                            size,
                        )
                    }
                } else {
                    match spec_parse_name_full(msg, offset + nl + 10) {
                        None => SpecRecordOutcome::Malformed,
                        Some((rb, _)) => SpecRecordOutcome::Parsed(
                            SpecDnsRecord {
                                name: ascii_chars_of(nb),
                                rr_type,
                                rr_class,
                                ttl,
                                rdata: ascii_chars_of(rb),
                            },
                            size,
                        ),
                    }
                }
            }
        },
    }
}

/// A non-malformed resource record consumes between 11 bytes and the
/// rest of the message plus its 10 fixed bytes and its rdata length.
pub proof fn lemma_parse_record_bounds(msg: Seq<u8>, offset: int)
    ensures
        !(spec_parse_record(msg, offset) is Malformed) ==> {
            let sz = match spec_parse_record(msg, offset) {
                SpecRecordOutcome::Malformed => 0int,
                SpecRecordOutcome::Skipped(_, sz) => sz,
                SpecRecordOutcome::Parsed(_, sz) => sz,
            };
            0 <= offset < msg.len() && 11 <= sz && offset + sz <= msg.len() + 10 + 65535
        },
{
    lemma_parse_name_bounds(msg, offset, msg.len());
}

/// Parses one question entry. `Err` with a zero size reports a
/// malformed entry, which fails the whole message; `Err` with a
/// positive size reports an unrecognized type or class and how many
/// bytes to skip so the caller stays synchronized.
pub fn parse_dns_question_section_entry(message: &Vec<u8>, offset: usize) -> (r: Result<
    (DnsQuestionSectionEntry, usize),
    (String, usize),
>)
    requires
        message@.len() <= 65535,
    ensures
        ({
            let sp = spec_parse_question(message@, offset as int);
            &&& (r is Ok <==> sp is Parsed)
            &&& (r matches Ok((q, sz)) ==> sp == SpecQuestionOutcome::Parsed(q@, sz as int))
            &&& (r matches Err((m, sz)) ==> {
                if sz == 0 {
                    sp is Malformed && m@ == "malformed entry"@
                } else {
                    sp == SpecQuestionOutcome::Skipped(m@, sz as int)
                }
            })
        }),
{
    let (q_name, q_name_length) = match print_dns_domain_name(message, offset) {
        Some(x) => x,
        None => {
            return Err((String::from_str("malformed entry"), 0));
        },
    };
    proof {
        lemma_parse_name_bounds(message@, offset as int, message@.len());
    }
    if offset + q_name_length + 4 > message.len() {
        return Err((String::from_str("malformed entry"), 0));
    }
    let t = (message[offset + q_name_length] as u16) * 256 + message[offset + q_name_length
        + 1] as u16;
    let cl = (message[offset + q_name_length + 2] as u16) * 256 + message[offset + q_name_length
        + 3] as u16;
    let q_type = match DnsType::from_u16(t) {
        Some(t) => t,
        None => {
            return Err((String::from_str("unknown q_type"), q_name_length + 4));
        },
    };
    let q_class = match DnsClass::from_u16(cl) {
        Some(c) => c,
        None => {
            return Err((String::from_str("unknown q_class"), q_name_length + 4));
        },
    };
    Ok((DnsQuestionSectionEntry { q_name, q_type, q_class }, q_name_length + 4))
}

/// Parses one resource record. `Err` with a zero size reports a
/// malformed record, which fails the whole message; `Err` with a
/// positive size reports an unrecognized type or class and how many
/// bytes to skip so the caller stays synchronized.
pub fn parse_dns_resource_record(message: &Vec<u8>, offset: usize) -> (r: Result<
    (DnsResourceRecord, usize),
    (String, usize),
>)
    requires
        message@.len() <= 65535,
    ensures
        ({
            let sp = spec_parse_record(message@, offset as int);
            &&& (r is Ok <==> sp is Parsed)
            &&& (r matches Ok((rr, sz)) ==> sp == SpecRecordOutcome::Parsed(rr@, sz as int))
            &&& (r matches Err((m, sz)) ==> {
                if sz == 0 {
                    sp is Malformed && m@ == "malformed entry"@
                } else {
                    sp == SpecRecordOutcome::Skipped(m@, sz as int)
                }
            })
        }),
{
    let (name, name_length) = match print_dns_domain_name(message, offset) {
        Some(x) => x,
        None => {
            return Err((String::from_str("malformed entry"), 0));
        },
    };
    proof {
        lemma_parse_name_bounds(message@, offset as int, message@.len());
    }
    if offset + name_length + 10 > message.len() {
        return Err((String::from_str("malformed entry"), 0));
    }
    let rd_length = (message[offset + name_length + 8] as usize) * 256 + message[offset
        + name_length + 9] as usize;
    let size = name_length + 10 + rd_length;
    let t = (message[offset + name_length] as u16) * 256 + message[offset + name_length
        + 1] as u16;
    let cl = (message[offset + name_length + 2] as u16) * 256 + message[offset + name_length
        + 3] as u16;
    let rr_type = match DnsType::from_u16(t) {
        Some(t) => t,
        None => {
            return Err((String::from_str("unknown rr_type"), size));
        },
    };
    let rr_class = match DnsClass::from_u16(cl) {
        Some(c) => c,
        None => {
            return Err((String::from_str("unknown rr_class"), size));
        },
    };
    let ttl = (message[offset + name_length + 4] as u32) * 0x1000000 + (message[offset
        + name_length + 5] as u32) * 0x10000 + (message[offset + name_length + 6] as u32) * 256
        + message[offset + name_length + 7] as u32;
    let rdata = match rr_type {
        DnsType::A => {
            if offset + name_length + 14 > message.len() {
                return Err((String::from_str("malformed entry"), 0));
            }
            let four = crate::wire::copy_range(message, offset + name_length + 10, 4);
            crate::addr::print_ipaddr(&four)
        },
        DnsType::NS | DnsType::CNAME => {
            match print_dns_domain_name(message, offset + name_length + 10) {
                Some((n, _)) => n,
                None => {
                    return Err((String::from_str("malformed entry"), 0));
                },
            }
        },
    };
    Ok((DnsResourceRecord { name, rr_type, rr_class, ttl, rdata }, size))
}

} // verus!

verus! {

// ---------------------------------------------------------------------
// Whole messages
// ---------------------------------------------------------------------

/// Parses `n` question entries from `offset`, dropping skipped entries
/// but advancing past them; `None` when any entry is malformed.
pub open spec fn spec_parse_questions(msg: Seq<u8>, offset: int, n: nat) -> Option<
    (Seq<SpecDnsQuestion>, int),
>
    decreases n,
{
    if n == 0 {
        Some((Seq::empty(), offset))
    } else {
        match spec_parse_question(msg, offset) {
            SpecQuestionOutcome::Malformed => None,
            SpecQuestionOutcome::Skipped(_, sz) => spec_parse_questions(
                msg,
                offset + sz,
                (n - 1) as nat,
            ),
            SpecQuestionOutcome::Parsed(q, sz) => match spec_parse_questions(
                msg,
                offset + sz,
                (n - 1) as nat,
            ) {
                Some((qs, end)) => Some((seq![q] + qs, end)),
                None => None,
            },
        }
    }
}

/// Parses `n` resource records from `offset`, dropping skipped records
/// but advancing past them; `None` when any record is malformed.
pub open spec fn spec_parse_records(msg: Seq<u8>, offset: int, n: nat) -> Option<
    (Seq<SpecDnsRecord>, int),
>
    decreases n,
{
    if n == 0 {
        Some((Seq::empty(), offset))
    } else {
        match spec_parse_record(msg, offset) {
            SpecRecordOutcome::Malformed => None,
            SpecRecordOutcome::Skipped(_, sz) => spec_parse_records(
                msg,
                offset + sz,
                (n - 1) as nat,
            ),
            SpecRecordOutcome::Parsed(rr, sz) => match spec_parse_records(
                msg,
                offset + sz,
                (n - 1) as nat,
            ) {
                Some((rrs, end)) => Some((seq![rr] + rrs, end)),
                None => None,
            },
        }
    }
}

/// Parses a whole message: the header, then `qdcount` question entries
/// and `ancount`, `nscount` and `arcount` resource records in wire
/// order. Entries that failed type or class validation are dropped
/// from the result but still advance the running offset.
pub open spec fn spec_parse_message(msg: Seq<u8>) -> Result<SpecDnsMessage, Seq<char>> {
    match spec_parse_header(msg) {
        Err(e) => Err(e),
        Ok(header) => match spec_parse_questions(msg, 12, header.qdcount as nat) {
            None => Err("malformed entry"@),
            Some((questions, o1)) => match spec_parse_records(msg, o1, header.ancount as nat) {
                None => Err("malformed entry"@),
                Some((answers, o2)) => match spec_parse_records(msg, o2, header.nscount as nat) {
                    None => Err("malformed entry"@),
                    Some((authorities, o3)) => match spec_parse_records(
                        msg,
                        o3,
                        header.arcount as nat,
                    ) {
                        None => Err("malformed entry"@),
                        Some((additionals, _)) => Ok(
                            SpecDnsMessage {
                                header,
                                questions,
                                answers,
                                authorities,
                                additionals,
                            },
                        ),
                    },
                },
            },
        },
    }
}

/// Parses the question section: `count` entries from `offset`.
fn parse_question_section(message: &Vec<u8>, offset: usize, count: u16) -> (r: Result<
    (Vec<DnsQuestionSectionEntry>, usize),
    String,
>)
    requires
        message@.len() <= 65535,
        offset <= 140000,
    ensures
        ({
            let sp = spec_parse_questions(message@, offset as int, count as nat);
            &&& (r is Ok <==> sp is Some)
            &&& (r matches Ok((v, end)) ==> sp matches Some((qs, send)) && v.deep_view() == qs
                && end as int == send && (end == offset || end <= message@.len() + 4))
            &&& (r matches Err(m) ==> m@ == "malformed entry"@)
        }),
{
    let mut out: Vec<DnsQuestionSectionEntry> = Vec::new();
    let mut cur: usize = offset;
    let mut j: u16 = 0;
    proof {
        assert(out.deep_view() =~= Seq::<SpecDnsQuestion>::empty());
    }
    while j < count
        invariant
            0 <= j <= count,
            message@.len() <= 65535,
            offset <= 140000,
            cur == offset || cur <= message@.len() + 4,
            spec_parse_questions(message@, offset as int, count as nat) == match (
            spec_parse_questions(message@, cur as int, (count - j) as nat)) {
                Some((qs, end)) => Some((out.deep_view() + qs, end)),
                None => None::<(Seq<SpecDnsQuestion>, int)>,
            },
        decreases count - j,
    {
        match parse_dns_question_section_entry(message, cur) {
            Ok((q, sz)) => {
                proof {
                    lemma_parse_question_bounds(message@, cur as int);
                }
                let ghost pre = out.deep_view();
                out.push(q);
                cur = cur + sz;
                j = j + 1;
                proof {
                    assert(out.deep_view() =~= pre + seq![q@]);
                    match spec_parse_questions(message@, cur as int, (count - j) as nat) {
                        Some((qs2, e)) => {
                            assert(pre + (seq![q@] + qs2) =~= out.deep_view() + qs2);
                        },
                        None => {},
                    }
                }
            },
            Err((m, sz)) => {
                if sz == 0 {
                    return Err(m);
                }
                proof {
                    lemma_parse_question_bounds(message@, cur as int);
                }
                cur = cur + sz;
                j = j + 1;
            },
        }
    }
    Ok((out, cur))
}

/// Parses one resource-record section: `count` records from `offset`.
fn parse_record_section(message: &Vec<u8>, offset: usize, count: u16) -> (r: Result<
    (Vec<DnsResourceRecord>, usize),
    String,
>)
    requires
        message@.len() <= 65535,
        offset <= 140000,
    ensures
        ({
            let sp = spec_parse_records(message@, offset as int, count as nat);
            &&& (r is Ok <==> sp is Some)
            &&& (r matches Ok((v, end)) ==> sp matches Some((rrs, send)) && v.deep_view() == rrs
                && end as int == send && (end == offset || end <= message@.len() + 65545))
            &&& (r matches Err(m) ==> m@ == "malformed entry"@)
        }),
{
    let mut out: Vec<DnsResourceRecord> = Vec::new();
    let mut cur: usize = offset;
    let mut j: u16 = 0;
    proof {
        assert(out.deep_view() =~= Seq::<SpecDnsRecord>::empty());
    }
    while j < count
        invariant
            0 <= j <= count,
            message@.len() <= 65535,
            offset <= 140000,
            cur == offset || cur <= message@.len() + 65545,
            spec_parse_records(message@, offset as int, count as nat) == match (
            spec_parse_records(message@, cur as int, (count - j) as nat)) {
                Some((rrs, end)) => Some((out.deep_view() + rrs, end)),
                None => None::<(Seq<SpecDnsRecord>, int)>,
            },
        decreases count - j,
    {
        match parse_dns_resource_record(message, cur) {
            Ok((rr, sz)) => {
                proof {
                    lemma_parse_record_bounds(message@, cur as int);
                }
                let ghost pre = out.deep_view();
                out.push(rr);
                cur = cur + sz;
                j = j + 1;
                proof {
                    assert(out.deep_view() =~= pre + seq![rr@]);
                    match spec_parse_records(message@, cur as int, (count - j) as nat) {
                        Some((rrs2, e)) => {
                            assert(pre + (seq![rr@] + rrs2) =~= out.deep_view() + rrs2);
                        },
                        None => {},
                    }
                }
            },
            Err((m, sz)) => {
                if sz == 0 {
                    return Err(m);
                }
                proof {
                    lemma_parse_record_bounds(message@, cur as int);
                }
                cur = cur + sz;
                j = j + 1;
            },
        }
    }
    Ok((out, cur))
}

/// Parses a whole DNS message from wire bytes. One malformed name or a
/// truncated record fails the whole message; an entry of unrecognized
/// type or class is silently dropped while parsing continues at the
/// right offset.
pub fn parse_dns_message(message: &Vec<u8>) -> (r: Result<DnsMessage, String>)
    requires
        message@.len() <= 65535,
    ensures
        ({
            let sp = spec_parse_message(message@);
            &&& (r is Ok <==> sp is Ok)
            &&& (r matches Ok(m) ==> sp == Result::<SpecDnsMessage, Seq<char>>::Ok(m@))
            &&& (r matches Err(m) ==> sp == Result::<SpecDnsMessage, Seq<char>>::Err(m@))
        }),
{
    let header = match parse_dns_header_section(message) {
        Ok(h) => h,
        Err(m) => {
            return Err(m);
        },
    };
    let (questions, o1) = match parse_question_section(message, 12, header.qdcount) {
        Ok(x) => x,
        Err(m) => {
            return Err(m);
        },
    };
    let (answers, o2) = match parse_record_section(message, o1, header.ancount) {
        Ok(x) => x,
        Err(m) => {
            return Err(m);
        },
    };
    let (authorities, o3) = match parse_record_section(message, o2, header.nscount) {
        Ok(x) => x,
        Err(m) => {
            return Err(m);
        },
    };
    let (additionals, _) = match parse_record_section(message, o3, header.arcount) {
        Ok(x) => x,
        Err(m) => {
            return Err(m);
        },
    };
    Ok(DnsMessage { header, questions, answers, authorities, additionals })
}

} // verus!
