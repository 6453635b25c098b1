//! The wire-format codecs and the per-packet demultiplexing logic.
pub mod dns;
pub mod ethernet;
pub mod ip;
pub mod sniffer;
pub mod udp;
