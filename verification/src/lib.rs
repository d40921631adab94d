//! A verified packet-dissection core: raw captured frames are decoded into an
//! ordered chain of protocol layers (Ethernet, IPv4, TCP, with an `Undecoded`
//! fallback), rendered as a hex/ASCII dump, and browsed through a tree
//! navigation model. File reading and the terminal front end live outside
//! this crate and talk to it through plain values.

pub mod ethernet;
pub mod hexdump;
pub mod ipv4;
pub mod nav;
pub mod pkt;
pub mod tcp;
pub mod strfmt;
pub mod tree;
pub mod undecoded;
pub mod util;
