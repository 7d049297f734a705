use dnstack::arp::{
    create_arp_reply_message, create_arp_request_message, is_arp_reply, is_arp_request,
};
use dnstack::ether::create_ethernet_frame;

const MY_IP: &str = "192.168.70.2";
const MY_MAC: &str = "00:00:5e:00:53:01";
const GW_IP: &str = "192.168.70.1";
const GW_MAC: &str = "02:42:ac:11:00:01";

#[test]
fn arp_request_message_layout() {
    let m = create_arp_request_message(MY_IP, MY_MAC, GW_IP);
    assert_eq!(m.len(), 28);
    assert_eq!(&m[0..8], &[0, 1, 8, 0, 6, 4, 0, 1]);
    assert_eq!(&m[8..14], &[0x00, 0x00, 0x5e, 0x00, 0x53, 0x01]);
    assert_eq!(&m[14..18], &[192, 168, 70, 2]);
    assert_eq!(&m[18..24], &[0; 6]); // target MAC all zero in a request
    assert_eq!(&m[24..28], &[192, 168, 70, 1]);
}

#[test]
fn built_request_matches_classifier() {
    // A built request, framed to broadcast, is a request to the host
    // owning the target address.
    let m = create_arp_request_message(GW_IP, GW_MAC, MY_IP);
    let frame = create_ethernet_frame(0x0806, "ff:ff:ff:ff:ff:ff", GW_MAC, &m);
    assert!(is_arp_request(&frame, MY_IP, MY_MAC));
}

#[test]
fn built_reply_matches_classifier() {
    let m = create_arp_reply_message(GW_IP, GW_MAC, MY_IP, MY_MAC);
    let frame = create_ethernet_frame(0x0806, MY_MAC, GW_MAC, &m);
    assert!(is_arp_reply(&frame, MY_IP, MY_MAC));
}

#[test]
fn classifiers_reject_other_destinations() {
    let m = create_arp_request_message(GW_IP, GW_MAC, MY_IP);
    // Framed to a MAC that is neither broadcast nor this host's.
    let frame = create_ethernet_frame(0x0806, "66:77:88:99:aa:bb", GW_MAC, &m);
    assert!(!is_arp_request(&frame, MY_IP, MY_MAC));
    assert!(!is_arp_reply(&frame, MY_IP, MY_MAC));
}

#[test]
fn classifiers_reject_other_ethertype() {
    let m = create_arp_request_message(GW_IP, GW_MAC, MY_IP);
    let frame = create_ethernet_frame(0x0800, "ff:ff:ff:ff:ff:ff", GW_MAC, &m);
    assert!(!is_arp_request(&frame, MY_IP, MY_MAC));
    assert!(!is_arp_reply(&frame, MY_IP, MY_MAC));
}

#[test]
fn classifiers_reject_other_target_ip() {
    // A request for some other host's address is not for this host.
    let m = create_arp_request_message(GW_IP, GW_MAC, "192.168.70.9");
    let frame = create_ethernet_frame(0x0806, "ff:ff:ff:ff:ff:ff", GW_MAC, &m);
    assert!(!is_arp_request(&frame, MY_IP, MY_MAC));
}

#[test]
fn reply_must_be_addressed_by_mac() {
    // A reply broadcast rather than addressed to this host's MAC is
    // not accepted.
    let m = create_arp_reply_message(GW_IP, GW_MAC, MY_IP, MY_MAC);
    let frame = create_ethernet_frame(0x0806, "ff:ff:ff:ff:ff:ff", GW_MAC, &m);
    assert!(!is_arp_reply(&frame, MY_IP, MY_MAC));
}
