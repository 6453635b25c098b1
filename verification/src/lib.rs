//! Verified core of a live network-traffic monitor: wire-format codecs for
//! Ethernet, IPv4/IPv6, UDP and DNS (with name decompression), the
//! packet-to-event demultiplexers, and the host-resolution state that merges
//! traffic observations with DNS answers into an insertion-ordered table.
pub mod app;
pub mod error;
pub mod network;
pub mod utils;
