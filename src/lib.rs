//! Turns a source descriptor (a URI-like string, or none for standard input) into
//! a description of the byte source to open: a UDP multicast group, a UDP unicast
//! endpoint, an HTTP resource, a local file, or standard input. It also plans the
//! configuration of the datagram socket that the UDP sources read from.
pub mod addr;
pub mod digits;
pub mod laws;
pub mod source;
pub mod udp;
