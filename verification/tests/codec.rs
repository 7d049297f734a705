use dnstack::addr::{checksum16, parse_ipaddr, parse_macaddr, print_ipaddr, print_macaddr};
use dnstack::ether::{create_ethernet_frame, get_ethernet_frame_data};
use dnstack::ip::{create_ip_packet, get_ip_packet_data};
use dnstack::udp::{create_udp_datagram, get_udp_datagram_data};

#[test]
fn mac_text_round_trips() {
    let b = parse_macaddr("00:00:5e:00:53:01").unwrap();
    assert_eq!(b, vec![0x00, 0x00, 0x5e, 0x00, 0x53, 0x01]);
    assert_eq!(print_macaddr(&b), "00:00:5e:00:53:01");
    assert_eq!(
        parse_macaddr("FF:ff:Ff:fF:00:99").unwrap(),
        vec![0xff, 0xff, 0xff, 0xff, 0x00, 0x99]
    );
    assert!(parse_macaddr("00:00:5e:00:53").is_none());
    assert!(parse_macaddr("00:00:5e:00:53:0x").is_none());
    assert!(parse_macaddr("00-00-5e-00-53-01").is_none());
}

#[test]
fn ipv4_text_round_trips() {
    let b = parse_ipaddr("192.168.70.1").unwrap();
    assert_eq!(b, vec![192, 168, 70, 1]);
    assert_eq!(print_ipaddr(&b), "192.168.70.1");
    assert_eq!(parse_ipaddr("0.0.0.0").unwrap(), vec![0, 0, 0, 0]);
    assert_eq!(
        parse_ipaddr("255.255.255.255").unwrap(),
        vec![255, 255, 255, 255]
    );
    assert!(parse_ipaddr("256.0.0.1").is_none());
    assert!(parse_ipaddr("1.2.3").is_none());
    assert!(parse_ipaddr("1.2.3.4.5").is_none());
    assert!(parse_ipaddr("1..3.4").is_none());
    assert!(parse_ipaddr("1.2.3.4 ").is_none());
}

#[test]
fn checksum_of_known_words() {
    // 0x0001 + 0x0203 = 0x0204; complement is 0xfdfb.
    assert_eq!(checksum16(&vec![0x00, 0x01, 0x02, 0x03], 0), 0xfdfb);
    // An odd trailing byte is padded with zero: 0x0400.
    assert_eq!(checksum16(&vec![0x04], 0), 0xffff - 0x0400);
    // Carries fold end-around: 0xffff + 0x0001 = 0x0001.
    assert_eq!(checksum16(&vec![0xff, 0xff, 0x00, 0x01], 0), 0xffff - 0x0001);
    // The seed accumulates as if its bytes were prepended.
    assert_eq!(
        checksum16(&vec![0x02, 0x03], 0x0001),
        checksum16(&vec![0x00, 0x01, 0x02, 0x03], 0)
    );
}

#[test]
fn udp_checksum_self_verifies() {
    // Recomputing the checksum over pseudo-header and datagram,
    // checksum field included, yields zero.
    let payload = vec![1, 2, 3, 4, 5];
    let datagram = create_udp_datagram(12345, 53, &payload, "192.168.70.2", "198.41.0.4");
    assert_eq!(datagram.len(), 8 + payload.len());

    let mut buf = parse_ipaddr("192.168.70.2").unwrap();
    buf.extend_from_slice(&parse_ipaddr("198.41.0.4").unwrap());
    buf.push(0);
    buf.push(17);
    buf.extend_from_slice(&(datagram.len() as u16).to_be_bytes());
    buf.extend_from_slice(&datagram);
    assert_eq!(checksum16(&buf, 0), 0);
}

#[test]
fn udp_payload_uses_length_field() {
    let payload = vec![9, 8, 7];
    let mut datagram = create_udp_datagram(12345, 53, &payload, "192.168.70.2", "198.41.0.4");
    // Ethernet padding can leave trailing zeros after the datagram.
    datagram.resize(40, 0);
    assert_eq!(get_udp_datagram_data(&datagram), payload);
}

#[test]
fn ethernet_frame_layout_and_padding() {
    let payload = vec![0xde, 0xad];
    let frame = create_ethernet_frame(0x0800, "ff:ff:ff:ff:ff:ff", "00:00:5e:00:53:01", &payload);
    assert_eq!(frame.len(), 60); // 14-byte header + payload padded to 46
    assert_eq!(&frame[0..6], &[0xff; 6]);
    assert_eq!(&frame[6..12], &[0x00, 0x00, 0x5e, 0x00, 0x53, 0x01]);
    assert_eq!(&frame[12..14], &[0x08, 0x00]);
    assert_eq!(&frame[14..16], &[0xde, 0xad]);
    assert!(frame[16..].iter().all(|b| *b == 0));

    let data = get_ethernet_frame_data(&frame);
    assert_eq!(&data[0..2], &[0xde, 0xad]);
    assert_eq!(data.len(), 46);
}

#[test]
fn ip_packet_layout() {
    let payload = vec![1, 2, 3, 4];
    let packet = create_ip_packet(17, 7, "192.168.70.2", "198.41.0.4", &payload);
    assert_eq!(packet.len(), 24);
    assert_eq!(packet[0], 0x45);
    assert_eq!(&packet[2..4], &[0, 24]); // total length
    assert_eq!(&packet[4..6], &[0, 7]); // identification
    assert_eq!(packet[8], 64); // ttl
    assert_eq!(packet[9], 17); // protocol
    assert_eq!(&packet[12..16], &[192, 168, 70, 2]);
    assert_eq!(&packet[16..20], &[198, 41, 0, 4]);
    // The header checksum self-verifies over the 20 header bytes.
    assert_eq!(checksum16(&packet[0..20].to_vec(), 0), 0);
    assert_eq!(get_ip_packet_data(&packet), payload);
}
