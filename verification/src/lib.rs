//! Decoding of captured Ethernet frames: Ethernet and IPv4 headers, TCP
//! segments with the TLS record header at the start of their payload, and
//! UDP datagrams, together with the text that a packet listing shows for them.

pub mod text;
pub mod ethertypes;
pub mod ports;
pub mod parser;
pub mod port_table;
pub mod tcp;
pub mod udp;
pub mod cli;
