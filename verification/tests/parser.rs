use dnstack::dns::model::{DnsClass, DnsHeaderOpecode, DnsHeaderRcode, DnsType};
use dnstack::dns::parser::{
    parse_dns_header_section, parse_dns_message, parse_dns_question_section_entry,
    parse_dns_resource_record, print_dns_domain_name,
};

// The name-compression example of RFC 1035 section 4.1.4: F.ISI.ARPA at
// offset 20, FOO.F.ISI.ARPA at 40 ending in a pointer to 20, a pointer
// to the ARPA label at 64, and the root name at 92.
fn test_message() -> Vec<u8> {
    let mut m = vec![
        0, 0, 0, 0, 0, 0, 0, 0, 0, 0, 0, 0, 0, 0, 0, 0, 0, 0, 0, 0, // 20 zeros
        1, b'F', 3, b'I', b'S', b'I', 4, b'A', b'R', b'P', b'A', 0, // 1 F 3 ISI 4 ARPA 0
        0, 0, 0, 0, 0, 0, 0, 0, // 8 zeros
        3, b'F', b'O', b'O', 0b11000000, 20, // 3 FOO then a pointer to 20
        0, 0, 0, 0, 0, 0, 0, 0, 0, 0, 0, 0, 0, 0, 0, 0, 0, 0, // 18 zeros
        0b11000000, 26, // a pointer to 26
    ];
    m.resize(92, 0); // 26 zeros
    m.push(0); // the root name
    m
}

#[test]
fn parser_case1() {
    let (name, size) = print_dns_domain_name(&test_message(), 20).unwrap();
    assert_eq!(name, "F.ISI.ARPA.");
    assert_eq!(size, 12);
}

#[test]
fn parser_case2() {
    let (name, size) = print_dns_domain_name(&test_message(), 40).unwrap();
    assert_eq!(name, "FOO.F.ISI.ARPA.");
    assert_eq!(size, 6);
}

#[test]
fn parser_case3() {
    let (name, size) = print_dns_domain_name(&test_message(), 64).unwrap();
    assert_eq!(name, "ARPA.");
    assert_eq!(size, 2);
}

#[test]
fn parser_case4() {
    let (name, size) = print_dns_domain_name(&test_message(), 92).unwrap();
    assert_eq!(name, "");
    assert_eq!(size, 1);
}

#[test]
fn pointer_cycle_is_rejected() {
    // Two compression pointers pointing at each other can never
    // terminate; the decoder must fail, not recurse without bound.
    let m = vec![0b11000000, 2, 0b11000000, 0];
    assert!(print_dns_domain_name(&m, 0).is_none());
}

#[test]
fn truncated_name_is_rejected() {
    let m = vec![7, b'e', b'x', b'a'];
    assert!(print_dns_domain_name(&m, 0).is_none());
}

#[test]
fn case1() {
    let header = parse_dns_header_section(&vec![
        0x00, 0x01, // id
        0b10000100, // qr opecode=Query aa !tc !rd
        0b00000000, // !ra ZZZ rcode=NoError
        0x00, 0x02, // qdcount
        0x00, 0x03, // ancount
        0x00, 0x04, // nscount
        0x00, 0x05, // arcount
    ])
    .unwrap();

    assert_eq!(header.id, 1);
    assert_eq!(header.qr, true);
    assert_eq!(header.opcode, DnsHeaderOpecode::Query);
    assert_eq!(header.aa, true);
    assert_eq!(header.tc, false);
    assert_eq!(header.rd, false);
    assert_eq!(header.ra, false);
    assert_eq!(header.rcode, DnsHeaderRcode::NoError);
    assert_eq!(header.qdcount, 2);
    assert_eq!(header.ancount, 3);
    assert_eq!(header.nscount, 4);
    assert_eq!(header.arcount, 5);
}

#[test]
fn header_unknown_opcode() {
    let r = parse_dns_header_section(&vec![
        0x00, 0x01, // id
        0b11110100, // qr opecode outside {0,1,2} aa !tc !rd
        0b00000000, // !ra ZZZ rcode=NoError
        0x00, 0x02, 0x00, 0x03, 0x00, 0x04, 0x00, 0x05,
    ]);
    assert_eq!(r.unwrap_err(), "unknown opecode".to_string());
}

#[test]
fn header_unknown_rcode() {
    let r = parse_dns_header_section(&vec![
        0x00, 0x01, // id
        0b10000100, // qr opecode=Query aa !tc !rd
        0b00001111, // !ra ZZZ rcode outside the known codes
        0x00, 0x02, 0x00, 0x03, 0x00, 0x04, 0x00, 0x05,
    ]);
    assert_eq!(r.unwrap_err(), "unknown rcode".to_string());
}

#[test]
fn header_truncated() {
    let r = parse_dns_header_section(&vec![0x00, 0x01, 0x00]);
    assert_eq!(r.unwrap_err(), "truncated header".to_string());
}

#[test]
fn question_entry_parses() {
    let (entry, size) = parse_dns_question_section_entry(
        &vec![
            0, 0, 0, 0, // offset
            7, b'e', b'x', b'a', b'm', b'p', b'l', b'e', 3, b'c', b'o', b'm', 0, // qname
            0x00, 0x01, // qtype
            0x00, 0x01, // qclass
        ],
        4,
    )
    .unwrap();

    assert_eq!(entry.q_name, "example.com.");
    assert_eq!(entry.q_type, DnsType::A);
    assert_eq!(entry.q_class, DnsClass::IN);
    assert_eq!(size, 17);
}

#[test]
fn case2() {
    let (name, size) = parse_dns_question_section_entry(
        &vec![
            0, 0, 0, 0, // offset
            7, b'e', b'x', b'a', b'm', b'p', b'l', b'e', 3, b'c', b'o', b'm', 0, // qname
            0x00, 0xff, // unknown qtype!
            0x00, 0x01, // qclass
        ],
        4,
    )
    .unwrap_err();

    assert_eq!(name, "unknown q_type".to_string());
    assert_eq!(size, 17);
}

#[test]
fn question_unknown_class() {
    let (name, size) = parse_dns_question_section_entry(
        &vec![
            7, b'e', b'x', b'a', b'm', b'p', b'l', b'e', 3, b'c', b'o', b'm', 0, // qname
            0x00, 0x01, // qtype
            0x00, 0xfe, // unknown qclass!
        ],
        0,
    )
    .unwrap_err();

    assert_eq!(name, "unknown q_class".to_string());
    assert_eq!(size, 17);
}

#[test]
fn a_record_parses() {
    let (rr, size) = parse_dns_resource_record(
        &vec![
            0, 0, 0, 0, // offset
            7, b'e', b'x', b'a', b'm', b'p', b'l', b'e', 3, b'c', b'o', b'm', 0, // name
            0x00, 1, // rr type
            0x00, 0x01, // rr class
            0x00, 0x00, 0x00, 123, // ttl
            0x00, 4, // rd_length
            0x08, 0x08, 0x08, 0x08, // rdata
        ],
        4,
    )
    .unwrap();

    assert_eq!(rr.name, "example.com.");
    assert_eq!(rr.rr_type, DnsType::A);
    assert_eq!(rr.rr_class, DnsClass::IN);
    assert_eq!(rr.ttl, 123);
    assert_eq!(rr.rdata, "8.8.8.8");
    assert_eq!(size, 27);
}

#[test]
fn ns_record_parses() {
    let (rr, size) = parse_dns_resource_record(
        &vec![
            0, 0, 0, 0, // offset
            7, b'e', b'x', b'a', b'm', b'p', b'l', b'e', 3, b'c', b'o', b'm', 0, // name
            0x00, 2, // rr type
            0x00, 0x01, // rr class
            0x00, 0x00, 0x00, 123, // ttl
            0x00, 13, // rd_length
            7, b'e', b'x', b'a', b'm', b'p', b'l', b'e', 3, b'c', b'o', b'm', 0, // rdata
        ],
        4,
    )
    .unwrap();

    assert_eq!(rr.name, "example.com.");
    assert_eq!(rr.rr_type, DnsType::NS);
    assert_eq!(rr.rr_class, DnsClass::IN);
    assert_eq!(rr.ttl, 123);
    assert_eq!(rr.rdata, "example.com.");
    assert_eq!(size, 36);
}

#[test]
fn case3() {
    let (rr, size) = parse_dns_resource_record(
        &vec![
            0, 0, 0, 0, // offset
            7, b'e', b'x', b'a', b'm', b'p', b'l', b'e', 3, b'c', b'o', b'm', 0, // name
            0x00, 5, // rr type
            0x00, 0x01, // rr class
            0x00, 0x00, 0x00, 123, // ttl
            0x00, 13, // rd_length
            7, b'e', b'x', b'a', b'm', b'p', b'l', b'e', 3, b'c', b'o', b'm', 0, // rdata
        ],
        4,
    )
    .unwrap();

    assert_eq!(rr.name, "example.com.");
    assert_eq!(rr.rr_type, DnsType::CNAME);
    assert_eq!(rr.rr_class, DnsClass::IN);
    assert_eq!(rr.ttl, 123);
    assert_eq!(rr.rdata, "example.com.");
    assert_eq!(size, 36);
}

#[test]
fn case4() {
    let (name, size) = parse_dns_resource_record(
        &vec![
            0, 0, 0, 0, // offset
            7, b'e', b'x', b'a', b'm', b'p', b'l', b'e', 3, b'c', b'o', b'm', 0, // name
            0x00, 0x01, // rr type
            0x00, 0xff, // unknown rr class!
            0x00, 0x00, 0x00, 123, // ttl
            0x00, 0x04, // rd_length
            0x08, 0x08, 0x08, 0x08, // rdata
        ],
        4,
    )
    .unwrap_err();

    assert_eq!(name, "unknown rr_class".to_string());
    assert_eq!(size, 27);
}

// A captured response to an A query: a referral carrying 8 authority
// NS records and 10 additional records (one of them an AAAA record and
// one an OPT pseudo-record, which are dropped as unrecognized while
// parsing stays synchronized).
fn captured_response() -> Vec<u8> {
    vec![
        0xd1, 0xb4, // id
        0x80, // qr opecode=Query !aa !tc !rd
        0x00, // !ra ZZZ rcode=NoError
        0x00, 0x01, // qdcount=1
        0x00, 0x00, // ancount=0
        0x00, 0x08, // nscount=8
        0x00, 0x0a, // arcount=10
        // questions
        0x05, 0x61, 0x31, 0x34, 0x32, 0x32, 0x04, 0x64, 0x73, 0x63, 0x72, 0x06, 0x61, 0x6b,
        0x61, 0x6d, 0x61, 0x69, 0x03, 0x6e, 0x65, 0x74, 0x00, 0x00, 0x01, 0x00,
        0x01, // a1422.dscr.akamai.net. IN A
        // authorities
        0xc0, 0x12, 0x00, 0x02, 0x00, 0x01, 0x00, 0x00, 0x0f, 0xa0, 0x00, 0x09, 0x06, 0x6e,
        0x37, 0x64, 0x73, 0x63, 0x72, 0xc0, 0x17, // dscr.akamai.net. NS n7dscr.akamai.net.
        0xc0, 0x12, 0x00, 0x02, 0x00, 0x01, 0x00, 0x00, 0x0f, 0xa0, 0x00, 0x09, 0x06, 0x6e,
        0x35, 0x64, 0x73, 0x63, 0x72, 0xc0, 0x17, // dscr.akamai.net. NS n5dscr.akamai.net.
        0xc0, 0x12, 0x00, 0x02, 0x00, 0x01, 0x00, 0x00, 0x0f, 0xa0, 0x00, 0x09, 0x06, 0x6e,
        0x32, 0x64, 0x73, 0x63, 0x72, 0xc0, 0x17, // dscr.akamai.net. NS n2dscr.akamai.net.
        0xc0, 0x12, 0x00, 0x02, 0x00, 0x01, 0x00, 0x00, 0x0f, 0xa0, 0x00, 0x09, 0x06, 0x6e,
        0x30, 0x64, 0x73, 0x63, 0x72, 0xc0, 0x17, // dscr.akamai.net. NS n0dscr.akamai.net.
        0xc0, 0x12, 0x00, 0x02, 0x00, 0x01, 0x00, 0x00, 0x0f, 0xa0, 0x00, 0x09, 0x06, 0x6e,
        0x34, 0x64, 0x73, 0x63, 0x72, 0xc0, 0x17, // dscr.akamai.net. NS n4dscr.akamai.net.
        0xc0, 0x12, 0x00, 0x02, 0x00, 0x01, 0x00, 0x00, 0x0f, 0xa0, 0x00, 0x09, 0x06, 0x6e,
        0x33, 0x64, 0x73, 0x63, 0x72, 0xc0, 0x17, // dscr.akamai.net. NS n3dscr.akamai.net.
        0xc0, 0x12, 0x00, 0x02, 0x00, 0x01, 0x00, 0x00, 0x0f, 0xa0, 0x00, 0x09, 0x06, 0x6e,
        0x36, 0x64, 0x73, 0x63, 0x72, 0xc0, 0x17, // dscr.akamai.net. NS n6dscr.akamai.net.
        0xc0, 0x12, 0x00, 0x02, 0x00, 0x01, 0x00, 0x00, 0x0f, 0xa0, 0x00, 0x09, 0x06, 0x6e,
        0x31, 0x64, 0x73, 0x63, 0x72, 0xc0, 0x17, // dscr.akamai.net. NS n1dscr.akamai.net.
        // additionals
        0xc0, 0x87, 0x00, 0x01, 0x00, 0x01, 0x00, 0x00, 0x0f, 0xa0, 0x00, 0x04, 0x17, 0xcc,
        0x78, 0x5c, // n4dscr.akamai.net. A 23.204.120.92
        0xc0, 0x72, 0x00, 0x1c, 0x00, 0x01, 0x00, 0x00, 0x0f, 0xa0, 0x00, 0x10, 0x26, 0x00,
        0x14, 0x80, 0xe8, 0x00, 0x00, 0x00, 0x00, 0x00, 0x00, 0x00, 0x00, 0x00, 0x00,
        0xc0, // n0dscr.akamai.net. AAAA (dropped)
        0xc0, 0x48, 0x00, 0x01, 0x00, 0x01, 0x00, 0x00, 0x0f, 0xa0, 0x00, 0x04, 0x17, 0xcc,
        0x78, 0x4e, // n5dscr.akamai.net. A 23.204.120.78
        0xc0, 0x9c, 0x00, 0x01, 0x00, 0x01, 0x00, 0x00, 0x0f, 0xa0, 0x00, 0x04, 0x17, 0xd1,
        0x2d, 0x35, // n3dscr.akamai.net. A 23.209.45.53
        0xc0, 0xb1, 0x00, 0x01, 0x00, 0x01, 0x00, 0x00, 0x0f, 0xa0, 0x00, 0x04, 0x17, 0xcc,
        0x78, 0x5d, // n6dscr.akamai.net. A 23.204.120.93
        0xc0, 0xc6, 0x00, 0x01, 0x00, 0x01, 0x00, 0x00, 0x0f, 0xa0, 0x00, 0x04, 0x17, 0xd0,
        0x55, 0x97, // n1dscr.akamai.net. A 23.208.85.151
        0xc0, 0x72, 0x00, 0x01, 0x00, 0x01, 0x00, 0x00, 0x0f, 0xa0, 0x00, 0x04, 0x58, 0xdd,
        0x51, 0xc0, // n0dscr.akamai.net. A 88.221.81.192
        0xc0, 0x5d, 0x00, 0x01, 0x00, 0x01, 0x00, 0x00, 0x0f, 0xa0, 0x00, 0x04, 0x17, 0xcc,
        0x78, 0x57, // n2dscr.akamai.net. A 23.204.120.87
        0xc0, 0x33, 0x00, 0x01, 0x00, 0x01, 0x00, 0x00, 0x0f, 0xa0, 0x00, 0x04, 0x17, 0x20,
        0xf8, 0x1c, // n7dscr.akamai.net. A 23.32.248.28
        0x00, 0x00, 0x29, 0x10, 0x00, 0x00, 0x00, 0x00, 0x00, 0x00, 0x00, // root OPT (dropped)
    ]
}

#[test]
fn captured_response_parses() {
    let message = parse_dns_message(&captured_response()).unwrap();

    assert_eq!(message.header.id, u16::from_be_bytes([0xd1, 0xb4]));
    assert_eq!(message.header.qr, true);
    assert_eq!(message.header.opcode, DnsHeaderOpecode::Query);
    assert_eq!(message.header.aa, false);
    assert_eq!(message.header.tc, false);
    assert_eq!(message.header.rd, false);
    assert_eq!(message.header.ra, false);
    assert_eq!(message.header.rcode, DnsHeaderRcode::NoError);
    assert_eq!(message.header.qdcount, 1);
    assert_eq!(message.header.ancount, 0);
    assert_eq!(message.header.nscount, 8);
    assert_eq!(message.header.arcount, 10);

    assert_eq!(message.questions.len(), 1);
    assert_eq!(message.questions[0].q_name, "a1422.dscr.akamai.net.");
    assert_eq!(message.questions[0].q_type, DnsType::A);
    assert_eq!(message.questions[0].q_class, DnsClass::IN);

    assert_eq!(message.answers.len(), 0);

    assert_eq!(message.authorities.len(), 8);
    assert_eq!(message.authorities[0].name, "dscr.akamai.net.");
    assert_eq!(message.authorities[0].rr_type, DnsType::NS);
    assert_eq!(message.authorities[0].rr_class, DnsClass::IN);
    assert_eq!(message.authorities[0].ttl, 4000);
    assert_eq!(message.authorities[0].rdata, "n7dscr.akamai.net.");

    assert_eq!(message.additionals.len(), 8);
    assert_eq!(message.additionals[0].name, "n4dscr.akamai.net.");
    assert_eq!(message.additionals[0].rr_type, DnsType::A);
    assert_eq!(message.additionals[0].rr_class, DnsClass::IN);
    assert_eq!(message.additionals[0].ttl, 4000);
    assert_eq!(message.additionals[0].rdata, "23.204.120.92");
}

#[test]
fn malformed_record_fails_message() {
    // One question whose name runs past the end of the buffer.
    let r = parse_dns_message(&vec![
        0x00, 0x07, // id
        0x00, 0x00, // flags
        0x00, 0x01, // qdcount=1
        0x00, 0x00, 0x00, 0x00, 0x00, 0x00, // other counts
        9, b'e', b'x', // truncated name
    ]);
    assert_eq!(r.unwrap_err(), "malformed entry".to_string());
}
