//! What the operations are for, stated by what a peer reads, by what a result must satisfy and by
//! how results relate. The numbers and words of the protocols are written out.

pub mod addresses;
pub mod browsers;
pub mod bytes;
pub mod compression;
pub mod direct;
pub mod ech;
pub mod fragments;
pub mod groups;
pub mod hysteria;
pub mod interfaces;
pub mod numbers;
pub mod probe;
pub mod proxies;
pub mod reality;
pub mod server;
pub mod sessions;
pub mod shadowsocks;
pub mod socks;
pub mod states;
pub mod tls;
pub mod vless;
pub mod words;
