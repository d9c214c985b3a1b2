//! The numbers of the protocols.

use crate::common::proto::{HY2_ATYP_DOMAIN, HY2_ATYP_IPV4, HY2_ATYP_IPV6};
use crate::common::smux::{DEFAULT_MAX_FRAME, KEEPALIVE_INTERVAL_SECS};
use crate::crypto::{NONCE_LEN, TAG_LEN};
use crate::huffman::{EOS, MAX_CODE_BITS, MIN_CODE_BITS};
use crate::hy2::{
    MAX_H3_FRAME, MAX_MESSAGE_LENGTH, MAX_PADDING_LENGTH, QUIC_MAX_CONNECTION_RECEIVE_WINDOW,
    QUIC_STREAM_RECEIVE_WINDOW, STATUS_AUTH_OK,
};
use crate::shadowsocks::{MAX_PAYLOAD, SS2022_HEADER_TYPE_CLIENT, SS2022_HEADER_TYPE_SERVER};
use crate::socks::{
    SOCKS5_CMD_CONNECT, SOCKS5_CMD_UDP_ASSOCIATE, SOCKS5_NO_ACCEPTABLE, SOCKS5_NO_AUTH,
    SOCKS5_USER_PASS_AUTH, SOCKS5_VERSION,
};
use crate::socks_addr::{SOCKS5_ATYP_DOMAIN, SOCKS5_ATYP_IPV4, SOCKS5_ATYP_IPV6};
use crate::tls::ech::{
    ECH_CONFIG_VERSION_DRAFT, HPKE_AEAD_AES_128_GCM, HPKE_AEAD_AES_256_GCM,
    HPKE_AEAD_CHACHA20_POLY1305, HPKE_KDF_HKDF_SHA256, HPKE_KEM_X25519_HKDF_SHA256, SVCB_KEY_ECH,
    TLS_EXTENSION_ENCRYPTED_CLIENT_HELLO,
};
use crate::tls::keys::{
    TLS_AES_128_GCM_SHA256, TLS_AES_256_GCM_SHA384, TLS_CHACHA20_POLY1305_SHA256,
};
use crate::tls::reality::{
    HS_CERTIFICATE, HS_CERTIFICATE_VERIFY, HS_ENCRYPTED_EXTENSIONS, HS_FINISHED,
    HS_NEW_SESSION_TICKET,
};
use crate::tls::record::{
    MAX_RECORD, TLS_RECORD_ALERT, TLS_RECORD_APPLICATION_DATA, TLS_RECORD_CHANGE_CIPHER_SPEC,
    TLS_RECORD_HANDSHAKE,
};
use crate::tls::server_hello::{GROUP_X25519, HS_CLIENT_HELLO, HS_SERVER_HELLO};
use crate::tls::utls::TLS_CONTENT_HANDSHAKE;
use vstd::prelude::*;

verus! {

/// SOCKS, and the kinds of addresses.
pub proof fn socks_numbers()
    ensures
        SOCKS5_VERSION == 5,
        SOCKS5_NO_AUTH == 0,
        SOCKS5_USER_PASS_AUTH == 2,
        SOCKS5_NO_ACCEPTABLE == 255,
        SOCKS5_CMD_CONNECT == 1,
        SOCKS5_CMD_UDP_ASSOCIATE == 3,
        SOCKS5_ATYP_IPV4 == 1,
        SOCKS5_ATYP_DOMAIN == 3,
        SOCKS5_ATYP_IPV6 == 4,
        HY2_ATYP_IPV4 == 0,
        HY2_ATYP_IPV6 == 1,
        HY2_ATYP_DOMAIN == 2,
{
}

/// Shadowsocks and smux. A chunk has at most 16383 bytes.
pub proof fn stream_numbers()
    ensures
        MAX_PAYLOAD == 16383,
        SS2022_HEADER_TYPE_CLIENT == 0,
        SS2022_HEADER_TYPE_SERVER == 1,
        TAG_LEN == 16,
        NONCE_LEN == 12,
        DEFAULT_MAX_FRAME == 65535,
        KEEPALIVE_INTERVAL_SECS == 10,
{
}

/// Hysteria2: the status that lets in, the longest messages, and the windows of QUIC.
pub proof fn hysteria_numbers()
    ensures
        STATUS_AUTH_OK == 233,
        MAX_MESSAGE_LENGTH == 2048,
        MAX_PADDING_LENGTH == 4096,
        MAX_H3_FRAME == 1024 * 1024,
        QUIC_STREAM_RECEIVE_WINDOW == 8 * 1024 * 1024,
        QUIC_MAX_CONNECTION_RECEIVE_WINDOW == 20 * 1024 * 1024,
        EOS == 256,
        MIN_CODE_BITS == 5,
        MAX_CODE_BITS == 30,
{
}

/// TLS: records, messages, suites and groups.
pub proof fn tls_numbers()
    ensures
        TLS_RECORD_CHANGE_CIPHER_SPEC == 20,
        TLS_RECORD_ALERT == 21,
        TLS_RECORD_HANDSHAKE == 22,
        TLS_CONTENT_HANDSHAKE == 22,
        TLS_RECORD_APPLICATION_DATA == 23,
        MAX_RECORD == 16384 + 2048,
        HS_CLIENT_HELLO == 1,
        HS_SERVER_HELLO == 2,
        HS_NEW_SESSION_TICKET == 4,
        HS_ENCRYPTED_EXTENSIONS == 8,
        HS_CERTIFICATE == 11,
        HS_CERTIFICATE_VERIFY == 15,
        HS_FINISHED == 20,
        TLS_AES_128_GCM_SHA256 == 0x1301,
        TLS_AES_256_GCM_SHA384 == 0x1302,
        TLS_CHACHA20_POLY1305_SHA256 == 0x1303,
        GROUP_X25519 == 29,
{
}

/// The encrypted ClientHello and what it is encrypted with.
pub proof fn ech_numbers()
    ensures
        ECH_CONFIG_VERSION_DRAFT == 0xfe0d,
        TLS_EXTENSION_ENCRYPTED_CLIENT_HELLO == 0xfe0d,
        HPKE_KEM_X25519_HKDF_SHA256 == 32,
        HPKE_KDF_HKDF_SHA256 == 1,
        HPKE_AEAD_AES_128_GCM == 1,
        HPKE_AEAD_AES_256_GCM == 2,
        HPKE_AEAD_CHACHA20_POLY1305 == 3,
        SVCB_KEY_ECH == 5,
{
}

} // verus!
