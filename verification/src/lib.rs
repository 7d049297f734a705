//! A user-space protocol codec stack and iterative DNS resolver.
//!
//! The library builds and parses Ethernet frames, ARP messages, IPv4
//! packets, UDP datagrams and DNS messages (RFC 1035 wire format with
//! name compression), and drives a client-side iterative resolution
//! state machine over them.

pub mod addr;
pub mod arp;
pub mod dns;
pub mod ether;
pub mod ip;
pub mod resolver;
pub mod udp;
pub mod wire;
