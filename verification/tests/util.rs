use dnstack::dns::parser::print_dns_domain_name;
use dnstack::dns::util::{create_dns_a_question_message, dns_name_encodable, parse_dns_name};

#[test]
fn util_case1() {
    let bytes = parse_dns_name("example.com.");

    assert_eq!(
        bytes,
        vec![7, b'e', b'x', b'a', b'm', b'p', b'l', b'e', 3, b'c', b'o', b'm', 0]
    );
}

#[test]
fn overlong_name_is_not_encodable() {
    let name = "longname".repeat(32); // 256 characters
    assert!(!dns_name_encodable(&name));
}

#[test]
fn overlong_label_is_not_encodable() {
    assert!(!dns_name_encodable(
        "longlabellonglabellonglabellonglabellonglabellonglabellonglabell.com"
    ));
}

#[test]
fn ordinary_name_is_encodable() {
    assert!(dns_name_encodable("example.com."));
    assert!(dns_name_encodable(""));
}

#[test]
fn question_message_layout() {
    let m = create_dns_a_question_message(3, "example.com.");
    let mut expected = vec![
        0, 3, // id
        0, 0, // flags all zero
        0, 1, // qdcount
        0, 0, 0, 0, 0, 0, // other counts
    ];
    expected.extend_from_slice(&[7]);
    expected.extend_from_slice(b"example");
    expected.extend_from_slice(&[3]);
    expected.extend_from_slice(b"com");
    expected.extend_from_slice(&[0]);
    expected.extend_from_slice(&[0, 1, 0, 1]); // qtype A, qclass IN
    assert_eq!(m, expected);
}

#[test]
fn name_encoding_round_trips() {
    // Encoding a plain name and decompressing it yields the name
    // again, and the consumed length is the whole encoding.
    let encoded = parse_dns_name("www.example.com.");
    let (name, size) = print_dns_domain_name(&encoded, 0).unwrap();
    assert_eq!(name, "www.example.com.");
    assert_eq!(size, encoded.len());

    let encoded = parse_dns_name("a.b.c.d.e.");
    let (name, size) = print_dns_domain_name(&encoded, 0).unwrap();
    assert_eq!(name, "a.b.c.d.e.");
    assert_eq!(size, encoded.len());
}

#[test]
fn empty_name_round_trips() {
    let encoded = parse_dns_name("");
    assert_eq!(encoded, vec![0]);
    let (name, size) = print_dns_domain_name(&encoded, 0).unwrap();
    assert_eq!(name, "");
    assert_eq!(size, 1);
}
