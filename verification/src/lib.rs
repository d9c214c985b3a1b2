//! Outbound side of a proxy: wire formats, handshakes and session rules.

pub mod anytls;
pub mod anytls_outbound;
pub mod block;
pub mod clock;
pub mod common;
pub mod config;
pub mod crypto;
pub mod direct;
pub mod encoding;
pub mod fragment;
pub mod http;
pub mod huffman;
pub mod hy2;
pub mod hysteria2;
pub mod ip_text;
pub mod laws;
pub mod naive;
pub mod net;
pub mod outbound;
pub mod qpack;
pub mod random;
pub mod router;
pub mod shadowquic;
pub mod shadowsocks;
pub mod shadowsocks_outbound;
pub mod socks;
pub mod socks_addr;
pub mod ssh;
pub mod status;
pub mod tailscale;
pub mod text;
pub mod tls;
pub mod varint;
pub mod wire;
pub mod words;
