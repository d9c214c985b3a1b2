use aes_gcm::aead::{Aead, KeyInit, Payload};
use aes_gcm::{Aes256Gcm, Nonce};
use base64::Engine;
use hmac::{Hmac, Mac};
use reflex_outbound::config::OutboundECHOptions;
use reflex_outbound::tls::certificate::verify_reality_certificate;
use reflex_outbound::tls::client_hello::{build_reality_client_hello, hkdf_sha256};
use reflex_outbound::tls::ech::{
    extract_ech_param_from_https_response, parse_ech_config_list, parse_ech_config_pem,
    resolve_ech_config_list, EchCipherSuite, ECH_CONFIG_VERSION_DRAFT, HPKE_AEAD_AES_128_GCM,
    HPKE_KDF_HKDF_SHA256, HPKE_KEM_X25519_HKDF_SHA256,
};
use reflex_outbound::tls::keys::CipherSuite;
use reflex_outbound::tls::reality::decode_short_id;
use reflex_outbound::tls::record::{RecordKey, TLS_RECORD_APPLICATION_DATA};
use reflex_outbound::tls::server_hello::{
    parse_server_hello, HS_CLIENT_HELLO, HS_SERVER_HELLO,
};
use reflex_outbound::tls::utls::{
    build_client_hello, grease_value, FpKind, TLS_CONTENT_HANDSHAKE,
};
use sha2::Sha512;

fn build_test_ech_config_list(public_name: &str) -> Vec<u8> {
    let pub_key = vec![0x42u8; 32];
    let mut contents = Vec::new();
    contents.push(0x01);
    contents.extend_from_slice(&HPKE_KEM_X25519_HKDF_SHA256.to_be_bytes());
    contents.extend_from_slice(&(pub_key.len() as u16).to_be_bytes());
    contents.extend_from_slice(&pub_key);
    let suite =
        [HPKE_KDF_HKDF_SHA256.to_be_bytes(), HPKE_AEAD_AES_128_GCM.to_be_bytes()].concat();
    contents.extend_from_slice(&(suite.len() as u16).to_be_bytes());
    contents.extend_from_slice(&suite);
    contents.push(0);
    contents.push(public_name.len() as u8);
    contents.extend_from_slice(public_name.as_bytes());
    contents.extend_from_slice(&0u16.to_be_bytes());

    let mut ech_config = Vec::new();
    ech_config.extend_from_slice(&ECH_CONFIG_VERSION_DRAFT.to_be_bytes());
    ech_config.extend_from_slice(&(contents.len() as u16).to_be_bytes());
    ech_config.extend_from_slice(&contents);

    let mut list = Vec::new();
    list.extend_from_slice(&(ech_config.len() as u16).to_be_bytes());
    list.extend_from_slice(&ech_config);
    list
}

fn pem_encode_ech_configs(bytes: &[u8]) -> String {
    let b64 = base64::engine::general_purpose::STANDARD.encode(bytes);
    let mut out = String::from("-----BEGIN ECH CONFIGS-----\n");
    for chunk in b64.as_bytes().chunks(64) {
        out.push_str(std::str::from_utf8(chunk).unwrap());
        out.push('\n');
    }
    out.push_str("-----END ECH CONFIGS-----\n");
    out
}

#[test]
fn parse_ech_config_list_basic() {
    let list_bytes = build_test_ech_config_list("cloudflare-ech.com");
    let configs = parse_ech_config_list(&list_bytes).expect("parse");
    assert_eq!(configs.len(), 1);
    let c = &configs[0];
    assert_eq!(c.version, ECH_CONFIG_VERSION_DRAFT);
    assert_eq!(c.config_id, 1);
    assert_eq!(c.kem_id, HPKE_KEM_X25519_HKDF_SHA256);
    assert_eq!(c.public_key, vec![0x42u8; 32]);
    assert_eq!(c.cipher_suites.len(), 1);
    assert_eq!(
        c.cipher_suites[0],
        EchCipherSuite { kdf_id: HPKE_KDF_HKDF_SHA256, aead_id: HPKE_AEAD_AES_128_GCM }
    );
    assert_eq!(c.public_name, "cloudflare-ech.com");
    assert!(c.raw.len() > 4);
    assert_eq!(u16::from_be_bytes([c.raw[0], c.raw[1]]), ECH_CONFIG_VERSION_DRAFT);
}

#[test]
fn parse_ech_config_list_multiple() {
    let mut list = Vec::new();
    let cfg1 = build_test_ech_config_list("a.example");
    let cfg2 = build_test_ech_config_list("b.example");
    let body1 = &cfg1[2..];
    let body2 = &cfg2[2..];
    let combined: Vec<u8> = body1.iter().chain(body2.iter()).copied().collect();
    list.extend_from_slice(&(combined.len() as u16).to_be_bytes());
    list.extend_from_slice(&combined);

    let configs = parse_ech_config_list(&list).expect("parse");
    assert_eq!(configs.len(), 2);
    assert_eq!(configs[0].public_name, "a.example");
    assert_eq!(configs[1].public_name, "b.example");
}

#[test]
fn parse_ech_config_list_rejects_empty() {
    let empty = vec![0x00, 0x00];
    assert!(parse_ech_config_list(&empty).is_err());
}

#[test]
fn parse_ech_config_list_rejects_truncated() {
    let truncated = vec![0x00, 0x10];
    assert!(parse_ech_config_list(&truncated).is_err());
}

#[test]
fn parse_ech_config_pem_roundtrip() {
    let list_bytes = build_test_ech_config_list("example.com");
    let pem = pem_encode_ech_configs(&list_bytes);
    let decoded = parse_ech_config_pem(&pem).expect("parse pem");
    assert_eq!(decoded, list_bytes);
}

#[test]
fn parse_ech_config_pem_rejects_wrong_type() {
    let pem = "-----BEGIN CERTIFICATE-----\nZm9v\n-----END CERTIFICATE-----";
    assert!(parse_ech_config_pem(pem).is_err());
}

#[test]
fn parse_ech_config_pem_rejects_missing_end() {
    let pem = "-----BEGIN ECH CONFIGS-----\nZm9v\n";
    assert!(parse_ech_config_pem(pem).is_err());
}

#[test]
fn resolve_ech_config_list_from_inline_config() {
    let list_bytes = build_test_ech_config_list("inline.test");
    let pem = pem_encode_ech_configs(&list_bytes);
    let opts = OutboundECHOptions {
        enabled: true,
        config: vec![pem],
        config_path: None,
        query_server_name: None,
    };
    let resolved = resolve_ech_config_list(&opts, None).expect("resolve");
    assert!(resolved.is_some());
    assert_eq!(resolved.unwrap(), list_bytes);
}

#[test]
fn resolve_ech_config_list_returns_none_when_no_source() {
    let opts = OutboundECHOptions::default();
    let resolved = resolve_ech_config_list(&opts, None).expect("resolve");
    assert!(resolved.is_none());
}

#[test]
fn extract_ech_param_from_https_response_none_when_empty() {
    let resp = vec![0u8; 12];
    assert!(extract_ech_param_from_https_response(&resp, "test").is_none());
}

#[test]
fn parse_ech_config_pem_handles_trailing_whitespace() {
    let list_bytes = build_test_ech_config_list("ws.test");
    let mut pem = pem_encode_ech_configs(&list_bytes);
    pem.push_str("\n\n");
    let decoded = parse_ech_config_pem(&pem).expect("parse pem");
    assert_eq!(decoded, list_bytes);
}

#[test]
fn decode_short_id_ok() {
    assert!(decode_short_id("").unwrap().is_empty());
    let r = decode_short_id("0123456789abcdef").unwrap();
    assert_eq!(r.len(), 8);
    assert_eq!(r[0], 0x01);
}

#[test]
fn decode_short_id_err() {
    assert!(decode_short_id("abc").is_err());
    assert!(decode_short_id("0123456789abcdef01").is_err());
}

#[test]
fn reality_client_hello_session_id_decrypts_to_auth_payload() {
    let server_secret = x25519_dalek::StaticSecret::random_from_rng(rand::thread_rng());
    let server_public = x25519_dalek::PublicKey::from(&server_secret);

    let client_secret = x25519_dalek::StaticSecret::random_from_rng(rand::thread_rng());
    let client_public = x25519_dalek::PublicKey::from(&client_secret);
    let auth_key = client_secret.diffie_hellman(&server_public);
    let auth_key_bytes: [u8; 32] = auth_key.to_bytes();

    let random = [7u8; 32];
    let short_id = [1u8, 2, 3, 4, 5, 6, 7, 8];
    let (hello, returned_key) = build_reality_client_hello(
        "example.com",
        &[],
        &random,
        client_public.as_bytes(),
        &auth_key_bytes,
        &short_id,
    )
    .expect("client hello");

    let aead_key = hkdf_sha256(&auth_key_bytes, &random[..20], b"REALITY", 32);
    assert_eq!(returned_key.as_slice(), aead_key.as_slice());

    let mut aad = hello.clone();
    for b in &mut aad[39..71] {
        *b = 0;
    }
    let cipher = Aes256Gcm::new_from_slice(&aead_key).unwrap();
    let nonce = Nonce::from_slice(&random[20..32]);
    let buf = cipher
        .decrypt(nonce, Payload { msg: &hello[39..71], aad: &aad })
        .expect("session_id must decrypt under the server-derived key");

    assert_eq!(&buf[0..4], &[1, 8, 1, 0], "reality auth header");
    assert_eq!(&buf[8..16], &short_id, "short_id echoed");
}

#[test]
fn record_key_seal_open_round_trips() {
    let secret = [0x2bu8; 32];
    let mut sender = RecordKey::new(CipherSuite::Aes128GcmSha256, &secret);
    let mut receiver = RecordKey::new(CipherSuite::Aes128GcmSha256, &secret);

    for payload in [b"first record".as_slice(), b"second record".as_slice()] {
        let record = sender.seal(TLS_RECORD_APPLICATION_DATA, payload).expect("seal");
        let (inner_type, plaintext) = receiver.open(&record[..5], &record[5..]).expect("open");
        assert_eq!(inner_type, TLS_RECORD_APPLICATION_DATA);
        assert_eq!(plaintext, payload);
    }
    assert_eq!(sender.seq, 2);
    assert_eq!(receiver.seq, 2);
}

#[test]
fn record_key_open_rejects_tampered_ciphertext() {
    let secret = [0x42u8; 32];
    let mut sender = RecordKey::new(CipherSuite::Aes128GcmSha256, &secret);
    let mut receiver = RecordKey::new(CipherSuite::Aes128GcmSha256, &secret);

    let mut record = sender.seal(TLS_RECORD_APPLICATION_DATA, b"authentic").expect("seal");
    let last = record.len() - 1;
    record[last] ^= 0xff;
    assert!(receiver.open(&record[..5], &record[5..]).is_err());
}

fn der(tag: u8, value: &[u8]) -> Vec<u8> {
    let mut out = vec![tag];
    let len = value.len();
    if len < 0x80 {
        out.push(len as u8);
    } else {
        let bytes = len.to_be_bytes();
        let first = bytes.iter().position(|&b| b != 0).unwrap();
        let trimmed = &bytes[first..];
        out.push(0x80 | trimmed.len() as u8);
        out.extend_from_slice(trimmed);
    }
    out.extend_from_slice(value);
    out
}

fn build_test_ed25519_cert(pubkey: &[u8; 32], signature: &[u8]) -> Vec<u8> {
    let oid = der(0x06, &[0x2b, 0x65, 0x70]);
    let alg = der(0x30, &oid);
    let mut spki_bits = vec![0u8];
    spki_bits.extend_from_slice(pubkey);
    let spki_bitstring = der(0x03, &spki_bits);
    let mut spki_body = alg;
    spki_body.extend_from_slice(&spki_bitstring);
    let spki = der(0x30, &spki_body);

    let mut tbs_body = Vec::new();
    tbs_body.extend_from_slice(&der(0xa0, &der(0x02, &[0x00])));
    tbs_body.extend_from_slice(&der(0x02, &[0x01]));
    tbs_body.extend_from_slice(&der(0x30, &[]));
    tbs_body.extend_from_slice(&der(0x30, &[]));
    tbs_body.extend_from_slice(&der(0x30, &[]));
    tbs_body.extend_from_slice(&der(0x30, &[]));
    tbs_body.extend_from_slice(&spki);
    let tbs = der(0x30, &tbs_body);

    let mut sig_bits = vec![0u8];
    sig_bits.extend_from_slice(signature);
    let sig_bitstring = der(0x03, &sig_bits);

    let mut cert_body = tbs;
    cert_body.extend_from_slice(&der(0x30, &[]));
    cert_body.extend_from_slice(&sig_bitstring);
    der(0x30, &cert_body)
}

fn reality_cert_hmac(auth_key: &[u8], pubkey: &[u8; 32]) -> Vec<u8> {
    let mut mac = <Hmac<Sha512> as Mac>::new_from_slice(auth_key).unwrap();
    mac.update(pubkey);
    mac.finalize().into_bytes().to_vec()
}

#[test]
fn verify_reality_certificate_accepts_matching_hmac() {
    let auth_key = [0x11u8; 32];
    let pubkey = [0x22u8; 32];
    let sig = reality_cert_hmac(&auth_key, &pubkey);
    let cert = build_test_ed25519_cert(&pubkey, &sig);
    verify_reality_certificate(&cert, &auth_key).expect("authentic Reality cert must verify");
}

#[test]
fn verify_reality_certificate_rejects_wrong_hmac() {
    let auth_key = [0x11u8; 32];
    let pubkey = [0x22u8; 32];
    let cert = build_test_ed25519_cert(&pubkey, &[0u8; 64]);
    assert!(verify_reality_certificate(&cert, &auth_key).is_err());

    let sig = reality_cert_hmac(&auth_key, &pubkey);
    let cert_ok = build_test_ed25519_cert(&pubkey, &sig);
    assert!(verify_reality_certificate(&cert_ok, &[0x99u8; 32]).is_err());
}

#[test]
fn parse_server_hello_rejects_malformed_input() {
    assert!(parse_server_hello(&[]).is_err());
    assert!(parse_server_hello(&[HS_SERVER_HELLO; 10]).is_err());
    let mut buf = vec![0u8; 50];
    buf[0] = HS_CLIENT_HELLO;
    assert!(parse_server_hello(&buf).is_err());
}

#[test]
fn chrome_hello_is_valid_tls_record() {
    let hello = build_client_hello("example.com", FpKind::Chrome, &[]);
    assert_eq!(hello[0], TLS_CONTENT_HANDSHAKE);
    assert_eq!(hello[1], 0x03);
    assert_eq!(hello[2], 0x01);
    let record_len = u16::from_be_bytes([hello[3], hello[4]]) as usize;
    assert_eq!(hello.len(), 5 + record_len);
    assert_eq!(hello[5], HS_CLIENT_HELLO);
}

#[test]
fn firefox_hello_contains_sni() {
    let hello = build_client_hello("test.example.com", FpKind::Firefox, &[]);
    let bytes = hello.as_slice();
    let found = bytes.windows(16).any(|w| w == b"test.example.com");
    assert!(found, "SNI not found in Firefox ClientHello");
}

#[test]
fn safari_hello_is_valid() {
    let hello = build_client_hello("safari.example.com", FpKind::Safari, &[]);
    assert!(hello.len() > 100);
    assert_eq!(hello[0], TLS_CONTENT_HANDSHAKE);
}

#[test]
fn alpn_override_applied() {
    let hello = build_client_hello("sni.example.com", FpKind::Chrome, &["h2".to_string()]);
    let found = hello.windows(2).any(|w| w == b"h2");
    assert!(found, "ALPN h2 not found in ClientHello");
}

#[test]
fn grease_value_is_grease() {
    for _ in 0..100 {
        let g = grease_value();
        let lo = g & 0xff;
        let _hi = (g >> 8) & 0xff;
        assert_eq!(lo, 0x0a + ((g & 0xf0) >> 4) * 0x10 + 0x0a - (lo & 0x0f));
        let valid = [
            0x0a0a, 0x1a1a, 0x2a2a, 0x3a3a, 0x4a4a, 0x5a5a, 0x6a6a, 0x7a7a, 0x8a8a, 0x9a9a, 0xaaaa,
            0xbaba, 0xcaca, 0xdada, 0xeaea, 0xfafa,
        ];
        assert!(valid.contains(&g), "0x{g:04x} is not a valid GREASE value");
    }
}
