//! A DHCP client core: message construction, wire encoding and decoding,
//! and response interpretation for IPv4 leases and IPv6 prefix delegation,
//! including the vendor-specific sub-options used by a fiber access provider.
//!
//! The library is transport-free: callers bind and drive the UDP sockets and
//! hand complete datagrams in and out as byte vectors. Per family there are
//! three layers: the data model with its specification-level wire coding
//! (`ipv4`, `ipv6`), the executable codec proved equal to it together with
//! the encode-then-decode round-trip laws (`ipv4_codec`, `ipv6_codec`), and
//! the pure builders for each exchange step (`ipv4_build`, `ipv6_build`)
//! beside the response interpreters (`ipv4_lease`, `ipv6_lease`). `wire`
//! holds the byte-level primitives both families share.

pub mod ipv4;
pub mod ipv4_build;
pub mod ipv4_codec;
pub mod ipv4_lease;
pub mod ipv6;
pub mod ipv6_build;
pub mod ipv6_codec;
pub mod ipv6_lease;
pub mod wire;
