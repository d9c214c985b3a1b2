use base64::Engine;
use hmac::{Hmac, Mac};
use reflex_outbound::config::{
    OutboundECHOptions, RealityDialConfig, TlsConfig, UtlsConfig, UtlsFingerprint,
};
use reflex_outbound::crypto::{aead_open, aead_seal, Aead};
use reflex_outbound::tls::certificate::{
    der_read, extract_ed25519_cert_parts, verify_reality_certificate, CertError,
};
use reflex_outbound::tls::client_hello::{alpn_ext, hkdf_sha256, ClientHelloError};
use reflex_outbound::tls::connector::{
    alpn_protocols, config_fingerprint, file_roots, inline_roots, root_source, tls_mode,
    RootSource, TlsMode, TlsModeError,
};
use reflex_outbound::tls::ech::{
    ech_file, ech_from_dns_answer, ech_query_name, extract_ech_param_from_https_response,
    parse_ech_config_list, parse_ech_config_pem, refuse_ech, resolve_ech_config_list, skip_name,
    EchError, EchRefusal,
};
use reflex_outbound::tls::keys::{verify_finished, CipherSuite, HashKind};
use reflex_outbound::tls::reality::{
    decode_short_id, decode_x25519_pubkey, hello_secrets, read_plain_handshake, reality_hello,
    reality_hello_at,
    FlightStep, HandshakeError, RealityConfigError, SentHello, ServerFlight,
};
use reflex_outbound::tls::record::{
    record_len, wrap_plain_record, RecordError, RecordKey, TLS_RECORD_ALERT, TLS_RECORD_APPLICATION_DATA,
    TLS_RECORD_CHANGE_CIPHER_SPEC, TLS_RECORD_HANDSHAKE,
};
use reflex_outbound::tls::server_hello::{
    parse_leaf_certificate, parse_server_hello, pop_handshake_message, HelloError,
};
use reflex_outbound::tls::stream::{ReadEvent, RecordReader, RecordWriter};
use reflex_outbound::tls::utls::{
    build_client_hello, extract_x25519_key_share, patch_key_share, resolve_fingerprint, FpKind,
    HelloSwap, SwapSent, SwapWrite,
};
use sha2::Sha512;

fn hex(s: &str) -> Vec<u8> {
    (0..s.len() / 2).map(|i| u8::from_str_radix(&s[2 * i..2 * i + 2], 16).unwrap()).collect()
}

#[test]
fn ciphers() {
    let z = vec![0u8; 32];
    assert_eq!(
        aead_seal(Aead::Aes128Gcm, &z[..16], &z[..12], &[], &z[..16]).unwrap(),
        hex("0388dace60b6a392f328c2b971b2fe78ab6e47d42cec13bdf53a67b21257bddf")
    );
    assert_eq!(
        aead_seal(Aead::Aes256Gcm, &z, &z[..12], &[], &z[..16]).unwrap(),
        hex("cea7403d4d606b6e074ec5d3baf39d18d0d1c8a799996bf0265b98b5d48ab919")
    );
    let key: Vec<u8> = (0x80..0xa0).collect();
    let nonce = hex("070000004041424344454647");
    let aad = hex("50515253c0c1c2c3c4c5c6c7");
    let plain = b"Ladies and Gentlemen of the class of '99: If I could offer you only one tip for \
the future, sunscreen would be it.";
    let text = aead_seal(Aead::ChaCha20Poly1305, &key, &nonce, &aad, plain).unwrap();
    assert_eq!(&text[..16], &hex("d31a8d34648e60db7b86afbc53ef7ec2")[..]);
    assert_eq!(&text[plain.len()..], &hex("1ae10b594f09e26a7e902ecbd0600691")[..]);
    assert_eq!(
        aead_open(Aead::ChaCha20Poly1305, &key, &nonce, &aad, &text).unwrap(),
        plain.to_vec()
    );
    assert_eq!(aead_open(Aead::ChaCha20Poly1305, &key, &nonce, &[], &text), None);
    assert_eq!(aead_open(Aead::Aes128Gcm, &z[..16], &z[..12], &[], &z[..5]), None);
}

#[test]
fn hashes_and_key_derivation() {
    assert_eq!(
        HashKind::Sha256.digest(b"abc"),
        hex("ba7816bf8f01cfea414140de5dae2223b00361a396177a9cb410ff61f20015ad")
    );
    assert_eq!(
        HashKind::Sha384.digest(b"abc")[..8],
        hex("cb00753f45a35e8b")[..]
    );
    let okm = hkdf_sha256(
        &[0x0b; 22],
        &hex("000102030405060708090a0b0c"),
        &hex("f0f1f2f3f4f5f6f7f8f9"),
        42,
    );
    assert_eq!(
        okm,
        hex("3cb25f25faacd57a90434f64d0362f2a2d2d0a90cf1a5a4c5db02d56ecc4c5bf34007208d5b887185865")
    );
    let early = HashKind::Sha256.hkdf_extract(&[], &[0; 32]);
    assert_eq!(
        early,
        hex("33ad0a1c607ec03b09e6cd9893680ce210adf300aa1f2660e1b22e10f170f92a")
    );
    let empty = HashKind::Sha256.digest(b"");
    assert_eq!(
        HashKind::Sha256.derive_secret(&early, b"derived", &empty),
        hex("6f2615a108c702c5678f54fc9dbab69716c076189c48250cebeac3576c3611ba")
    );
    let data = HashKind::Sha384.finished_verify_data(&[1; 48], b"t");
    assert!(verify_finished(HashKind::Sha384, &[1; 48], b"t", &data));
    assert!(!verify_finished(HashKind::Sha384, &[1; 48], b"u", &data));
    assert_eq!(CipherSuite::try_from(0x1303).unwrap(), CipherSuite::ChaCha20Poly1305Sha256);
    assert_eq!(CipherSuite::try_from(0x1304).unwrap_err().0, 0x1304);
}

#[test]
fn records_in_pieces() {
    let key = || RecordKey::new(CipherSuite::ChaCha20Poly1305Sha256, &[7; 32]);
    let mut w = RecordWriter::new(key());
    assert_eq!(w.write(b"some data").unwrap(), 9);
    assert!(w.busy());
    let frame = w.frame.clone();
    w.wrote(3).unwrap();
    assert_eq!(w.wrote(0), Err(RecordError::WriteZero));
    w.wrote(frame.len() - 3).unwrap();
    assert!(!w.busy());
    let mut r = RecordReader::new(key());
    assert_eq!(r.want(), 5);
    assert!(matches!(r.feed(&frame[..5]), ReadEvent::More));
    assert_eq!(r.want(), frame.len() - 5);
    assert!(matches!(r.feed(&frame[5..9]), ReadEvent::More));
    assert!(matches!(r.feed(&frame[9..]), ReadEvent::Data));
    assert_eq!(r.take(4), b"some");
    assert_eq!(r.take(100), b" data");
    let mut s = key();
    s.seal(TLS_RECORD_APPLICATION_DATA, b"skip").unwrap();
    let close = s.seal(TLS_RECORD_ALERT, &[1, 0]).unwrap();
    assert!(matches!(r.feed(&close[..5]), ReadEvent::More));
    assert!(matches!(r.feed(&close[5..]), ReadEvent::Closed));
    let big = vec![0u8; 70000];
    assert_eq!(wrap_plain_record(22, &big), Err(RecordError::PayloadTooLarge));
    assert_eq!(wrap_plain_record(22, b"x").unwrap(), vec![22, 3, 1, 0, 1, b'x']);
    assert_eq!(key().open(&[23, 3, 3, 0, 1], &[0]), Err(RecordError::TooShort));
}

#[test]
fn records_come_out_in_order_however_they_are_cut() {
    let new_key = || RecordKey::new(CipherSuite::Aes128GcmSha256, &[7; 32]);
    let mut sender = new_key();
    let mut stream = sender.seal(TLS_RECORD_APPLICATION_DATA, b"first ").unwrap();
    stream.extend(wrap_plain_record(TLS_RECORD_CHANGE_CIPHER_SPEC, &[1]).unwrap());
    stream.extend(sender.seal(TLS_RECORD_HANDSHAKE, b"a ticket").unwrap());
    stream.extend(sender.seal(TLS_RECORD_APPLICATION_DATA, b"second").unwrap());
    stream.extend(sender.seal(TLS_RECORD_ALERT, &[1, 0]).unwrap());
    for part in 1..9 {
        let mut r = RecordReader::new(new_key());
        let mut at = 0;
        let mut got = Vec::new();
        let mut closed = false;
        while at < stream.len() {
            let n = part.min(r.want());
            match r.feed(&stream[at..at + n]) {
                ReadEvent::Closed => closed = true,
                ReadEvent::Failed(e) => panic!("{e:?}"),
                ReadEvent::More | ReadEvent::Data => {}
            }
            at += n;
            got.extend(r.take(part - 1));
        }
        got.extend(r.take(100));
        assert!(closed);
        assert_eq!(got, b"first second");
    }
    assert_eq!(record_len(&[22, 3, 1, 0x48, 0]), Ok(18432));
    assert_eq!(record_len(&[22, 3, 1, 0x48, 1]), Err(RecordError::TooLarge(18433)));
    let mut r = RecordReader::new(new_key());
    let long = r.feed(&[23, 3, 3, 0x48, 0x01]);
    assert!(matches!(long, ReadEvent::Failed(RecordError::TooLarge(18433))));
}

fn server_hello(session: &[u8], suite: u16, share: &[u8]) -> Vec<u8> {
    let mut body = vec![3, 3];
    body.extend_from_slice(&[9; 32]);
    body.push(session.len() as u8);
    body.extend_from_slice(session);
    body.extend_from_slice(&suite.to_be_bytes());
    body.push(0);
    let mut exts = vec![0, 43, 0, 2, 3, 4];
    exts.extend_from_slice(&[0, 51, 0, 36, 0, 29, 0, 32]);
    exts.extend_from_slice(share);
    body.extend_from_slice(&(exts.len() as u16).to_be_bytes());
    body.extend_from_slice(&exts);
    message(2, &body)
}

fn message(typ: u8, body: &[u8]) -> Vec<u8> {
    let mut m = vec![typ];
    m.extend_from_slice(&(body.len() as u32).to_be_bytes()[1..]);
    m.extend_from_slice(body);
    m
}

fn der(tag: u8, value: &[u8]) -> Vec<u8> {
    let mut out = vec![tag];
    if value.len() < 0x80 {
        out.push(value.len() as u8);
    } else {
        out.push(0x81);
        out.push(value.len() as u8);
    }
    out.extend_from_slice(value);
    out
}

fn bits(value: &[u8]) -> Vec<u8> {
    der(3, &[&[0], value].concat())
}

fn certificate(auth_key: &[u8], pubkey: &[u8]) -> Vec<u8> {
    let mut mac = <Hmac<Sha512> as Mac>::new_from_slice(auth_key).unwrap();
    mac.update(pubkey);
    let sig = mac.finalize().into_bytes().to_vec();
    let spki = der(0x30, &[der(0x30, &der(6, &[0x2b, 0x65, 0x70])), bits(pubkey)].concat());
    let tbs = der(
        0x30,
        &[
            der(0xa0, &der(2, &[0])),
            der(2, &[1]),
            der(0x30, &[]),
            der(0x30, &[]),
            der(0x30, &[]),
            der(0x30, &[]),
            spki,
        ]
        .concat(),
    );
    der(0x30, &[tbs, der(0x30, &[]), bits(&sig)].concat())
}

struct Server {
    config: RealityDialConfig,
    share_secret: x25519_dalek::StaticSecret,
}

fn start() -> (Server, SentHello) {
    let long_term = x25519_dalek::StaticSecret::from([5u8; 32]);
    let public = x25519_dalek::PublicKey::from(&long_term);
    let config = RealityDialConfig {
        server: "front.example".into(),
        server_name: None,
        public_key: base64::engine::general_purpose::URL_SAFE_NO_PAD.encode(public.as_bytes()),
        short_id: "0102".into(),
        alpn: vec!["h2".into()],
    };
    let sent = reality_hello(&config, &[3; 32], &[4; 32]).unwrap();
    let share_secret = x25519_dalek::StaticSecret::from([6u8; 32]);
    (Server { config, share_secret }, sent)
}

fn flight(server: &Server, sent: &SentHello) -> ServerFlight {
    let share = x25519_dalek::PublicKey::from(&server.share_secret);
    sent.on_server_hello(&server_hello(&sent.hello[39..71], 0x1301, share.as_bytes())).unwrap()
}

fn sealed_messages(flight: &ServerFlight, cert_key: &[u8], tamper: bool) -> Vec<Vec<u8>> {
    let cert = certificate(cert_key, &[0x22; 32]);
    let mut entry = (cert.len() as u32).to_be_bytes()[1..].to_vec();
    entry.extend_from_slice(&cert);
    entry.extend_from_slice(&[0, 0]);
    let mut body = vec![0];
    body.extend_from_slice(&(entry.len() as u32).to_be_bytes()[1..]);
    body.extend_from_slice(&entry);
    let mut all = message(8, &[0, 0]);
    all.extend(message(11, &body));
    all.extend(message(15, &[8, 7, 0, 0]));
    let mut transcript = flight.transcript.clone();
    transcript.extend_from_slice(&all);
    let mut verify = HashKind::Sha256.finished_verify_data(&flight.server_secret, &transcript);
    if tamper {
        verify[0] ^= 1;
    }
    let mut key = RecordKey::new(flight.suite, &flight.server_secret);
    vec![
        key.seal(TLS_RECORD_HANDSHAKE, &all).unwrap(),
        key.seal(TLS_RECORD_HANDSHAKE, &message(20, &verify)).unwrap(),
    ]
}

#[test]
fn reality_handshake_accepts_the_real_server() {
    let (server, sent) = start();
    let public = x25519_dalek::PublicKey::from(&x25519_dalek::StaticSecret::from([3u8; 32]));
    assert!(sent.hello.windows(32).any(|w| w == public.as_bytes()));
    let mut f = flight(&server, &sent);
    let client_secret = f.client_secret.clone();
    let records = sealed_messages(&f, &sent.auth_key, false);
    assert!(matches!(
        f.on_record(TLS_RECORD_CHANGE_CIPHER_SPEC, &[20, 3, 3, 0, 1], &[1]),
        Ok(FlightStep::ReadOn)
    ));
    assert!(matches!(f.on_record(23, &records[0][..5], &records[0][5..]), Ok(FlightStep::ReadOn)));
    let connected = match f.on_record(23, &records[1][..5], &records[1][5..]) {
        Ok(FlightStep::Done(c)) => c,
        _ => panic!("the server is real"),
    };
    let mut key = RecordKey::new(CipherSuite::Aes128GcmSha256, &client_secret);
    let (kind, finished) = key.open(&connected.record[..5], &connected.record[5..]).unwrap();
    assert_eq!((kind, finished[0]), (TLS_RECORD_HANDSHAKE, 20));
    assert_ne!(connected.read_key.key, connected.write_key.key);
}

#[test]
fn reality_handshake_refuses_others() {
    let (server, sent) = start();
    let last = |cert_key: &[u8], tamper: bool| {
        let mut f = flight(&server, &sent);
        let records = sealed_messages(&f, cert_key, tamper);
        f.on_record(23, &records[0][..5], &records[0][5..]).map(|_| ()).unwrap();
        f.on_record(23, &records[1][..5], &records[1][5..]).err()
    };
    assert_eq!(
        last(&[0x77; 32], false),
        Some(HandshakeError::Certificate(CertError::Mismatch))
    );
    assert_eq!(last(&sent.auth_key, true), Some(HandshakeError::FinishedMismatch));
    let share = x25519_dalek::PublicKey::from(&server.share_secret);
    assert_eq!(
        sent.on_server_hello(&server_hello(&[0; 32], 0x1301, share.as_bytes())).err(),
        Some(HandshakeError::NoEcho)
    );
    assert_eq!(
        sent.on_server_hello(&server_hello(&sent.hello[39..71], 0x1399, share.as_bytes())).err(),
        Some(HandshakeError::UnsupportedSuite(0x1399))
    );
    let mut f = flight(&server, &sent);
    assert_eq!(
        f.on_record(22, &[22, 3, 3, 0, 1], &[1]).err(),
        Some(HandshakeError::ExpectedEncrypted(22))
    );
    assert_eq!(
        f.on_record(23, &[23, 3, 3, 0, 20], &[1; 20]).err(),
        Some(HandshakeError::Record(RecordError::Decrypt))
    );
    let mut f = flight(&server, &sent);
    let mut key = RecordKey::new(f.suite, &f.server_secret);
    let alert = key.seal(TLS_RECORD_ALERT, &[2, 40]).unwrap();
    assert_eq!(
        f.on_record(23, &alert[..5], &alert[5..]).err(),
        Some(HandshakeError::Alert(2, 40))
    );
}

#[test]
fn reality_settings() {
    let (server, _) = start();
    let with = |key: &str, id: &str| RealityDialConfig {
        public_key: key.into(),
        short_id: id.into(),
        ..server.config.clone()
    };
    let fault = |c: &RealityDialConfig| reality_hello(c, &[3; 32], &[4; 32]).err();
    assert_eq!(fault(&with("!!", "")), Some(RealityConfigError::PublicKeyEncoding));
    assert_eq!(fault(&with("AAAA", "")), Some(RealityConfigError::PublicKeyLength(3)));
    let key = server.config.public_key.clone();
    assert_eq!(fault(&with(&key, "abc")), Some(RealityConfigError::ShortIdLength));
    assert_eq!(fault(&with(&key, "zz")), Some(RealityConfigError::ShortIdEncoding));
    let mut long = with(&key, "");
    long.alpn = vec!["h2".into(), "x".repeat(256)];
    assert_eq!(
        fault(&long),
        Some(RealityConfigError::Hello(ClientHelloError::AlpnTooLong(1)))
    );
    assert_eq!(alpn_ext(&long.alpn), Err(ClientHelloError::AlpnTooLong(1)));
    let at = |unix: u32| reality_hello_at(&server.config, &[3; 32], &[4; 32], unix).unwrap();
    assert_eq!(at(7).hello, at(7).hello);
    assert_eq!(at(7).hello[..39], at(8).hello[..39]);
    assert_ne!(at(7).hello[39..71], at(8).hello[39..71]);
    assert_eq!(at(7).hello[71..], at(8).hello[71..]);
    assert_eq!(decode_x25519_pubkey(&format!(" {} ", "ab".repeat(32))).unwrap(), [0xab; 32]);
    assert_eq!(decode_short_id("0aff").unwrap(), vec![0x0a, 0xff]);
    let (a, b) = hello_secrets();
    assert_eq!((a.len(), b.len()), (32, 32));
    assert_ne!(a, b);
}

#[test]
fn handshake_messages() {
    assert_eq!(read_plain_handshake(22, &message(2, b"x"), 2), Ok(true));
    assert_eq!(
        read_plain_handshake(21, &[2, 40], 2),
        Err(HandshakeError::ExpectedHandshake(21))
    );
    assert_eq!(read_plain_handshake(22, &message(1, b"x"), 2), Err(HandshakeError::UnexpectedHandshake));
    let mut buf = message(8, b"ab");
    buf.extend_from_slice(&[9, 0]);
    let m = pop_handshake_message(&mut buf).unwrap();
    assert_eq!((m.typ, m.body.as_slice(), m.raw), (8, &b"ab"[..], message(8, b"ab")));
    assert_eq!(buf, vec![9, 0]);
    assert!(pop_handshake_message(&mut buf).is_none());
    let hello = server_hello(&[1; 32], 0x1301, &[7; 32]);
    let parsed = parse_server_hello(&hello).unwrap();
    assert_eq!((parsed.cipher_suite, parsed.key_share), (0x1301, vec![7; 32]));
    let fault = |edit: &dyn Fn(&mut Vec<u8>)| {
        let mut h = server_hello(&[1; 32], 0x1301, &[7; 32]);
        edit(&mut h);
        parse_server_hello(&h).err()
    };
    assert_eq!(fault(&|h| h[4] = 2), Some(HelloError::LegacyVersion));
    assert_eq!(fault(&|h| h[73] = 1), Some(HelloError::Compression));
    assert_eq!(fault(&|h| h[81] = 3), Some(HelloError::NotTls13));
    assert_eq!(fault(&|h| h[87] = 23), Some(HelloError::MissingKeyShare));
    assert_eq!(fault(&|h| h[3] += 1), Some(HelloError::Length));
    assert!(parse_leaf_certificate(&[0, 0, 0, 9]).is_err());
}

#[test]
fn certificates() {
    let cert = certificate(&[1; 32], &[0x22; 32]);
    let (key, sig) = extract_ed25519_cert_parts(&cert).unwrap();
    assert_eq!(key, vec![0x22; 32]);
    assert_eq!(sig.len(), 64);
    assert_eq!(verify_reality_certificate(&cert, &[1; 32]), Ok(()));
    assert_eq!(verify_reality_certificate(&cert, &[2; 32]), Err(CertError::Mismatch));
    assert_eq!(verify_reality_certificate(&[0x30, 0], &[1; 32]), Err(CertError::NotEd25519));
    let node = der_read(&[4, 0x81, 0x80, 0], 0);
    assert!(node.is_none());
    let node = der_read(&[9, 9, 4, 2, 1, 2], 2).unwrap();
    assert_eq!((node.tag, node.start, node.end), (4, 4, 6));
}

#[test]
fn patched_hello_carries_the_own_key() {
    let mut fake = build_client_hello("a.example", FpKind::Chrome, &[]);
    let own = build_client_hello("b.example", FpKind::Firefox, &[]);
    let key = extract_x25519_key_share(&own).unwrap();
    assert_ne!(extract_x25519_key_share(&fake), Some(key));
    patch_key_share(&mut fake, &own);
    assert_eq!(extract_x25519_key_share(&fake), Some(key));
    let len = fake.len();
    let mut swap = HelloSwap::new(fake.clone());
    assert!(matches!(swap.on_write(&own), SwapWrite::Fake));
    assert!(matches!(swap.on_sent(10), SwapSent::Partly));
    assert!(matches!(swap.on_sent(0), SwapSent::WriteZero));
    assert!(matches!(swap.on_sent(len - 10), SwapSent::Whole));
    assert!(matches!(swap.on_write(b"rest"), SwapWrite::Pass));
    assert_eq!(resolve_fingerprint(&UtlsFingerprint::Firefox), FpKind::Firefox);
}

fn config_list() -> Vec<u8> {
    let mut c = vec![1, 0, 0x20, 0, 1, 9, 0, 4, 0, 1, 0, 1, 0, 1, b'n', 0, 0];
    let mut list = vec![0xfe, 0x0d, 0, c.len() as u8];
    list.append(&mut c);
    let mut all = vec![0, list.len() as u8];
    all.append(&mut list);
    all
}

#[test]
fn ech_lists_are_checked() {
    let list = config_list();
    assert_eq!(parse_ech_config_list(&list).unwrap()[0].public_name, "n");
    let fault = |b: &[u8]| parse_ech_config_list(b).err();
    assert_eq!(fault(&[0]), Some(EchError::ListTooShort));
    assert_eq!(fault(&[0, 9, 1]), Some(EchError::ListTruncated));
    assert_eq!(fault(&[0, 0]), Some(EchError::ListEmpty));
    assert_eq!(fault(&[0, 3, 0xfe, 0x0d, 0]), Some(EchError::HeaderTruncated(0)));
    assert_eq!(fault(&[0, 5, 0xfe, 0x0d, 0, 9, 1]), Some(EchError::ContentsTruncated(0)));
    let pem = |kind: &str| {
        let text = base64::engine::general_purpose::STANDARD.encode(&list);
        format!("-----BEGIN {kind}-----\n{text}\n-----END {kind}-----\n")
    };
    assert_eq!(parse_ech_config_pem(&pem("ECH CONFIGS")).unwrap(), list);
    assert_eq!(parse_ech_config_pem("x"), Err(EchError::PemNotFound));
    assert_eq!(
        parse_ech_config_pem("-----BEGIN ECH CONFIGS-----\nA"),
        Err(EchError::PemNotTerminated)
    );
    assert_eq!(
        parse_ech_config_pem("-----BEGIN ECH CONFIGS-----\n?\n-----END ECH CONFIGS-----"),
        Err(EchError::PemBase64)
    );
    let path = OutboundECHOptions { config_path: Some("f".into()), ..Default::default() };
    assert_eq!(ech_file(&path), path.config_path);
    assert_eq!(resolve_ech_config_list(&path, None), Err(EchError::FileNotRead));
    let text = pem("ECH CONFIGS");
    assert_eq!(resolve_ech_config_list(&path, Some(&text)), Ok(Some(list.clone())));
    assert_eq!(resolve_ech_config_list(&path, Some("x")), Err(EchError::PemNotFound));
    let both = OutboundECHOptions { config: vec![text], ..path };
    assert_eq!(ech_file(&both), None);
    assert_eq!(resolve_ech_config_list(&both, None), Ok(Some(list.clone())));
    assert!(matches!(refuse_ech(&list), EchRefusal::Unsupported(names) if names == vec!["n"]));
    assert!(matches!(refuse_ech(&[0]), EchRefusal::BadList(EchError::ListTooShort)));
}

fn dns_answer(ech: &[u8]) -> Vec<u8> {
    let mut msg = vec![0, 1, 0x81, 0x80, 0, 1, 0, 1, 0, 0, 0, 0];
    msg.extend_from_slice(&[1, b'n', 0, 0, 65, 0, 1]);
    msg.extend_from_slice(&[0xc0, 12, 0, 65, 0, 1, 0, 0, 0, 60]);
    let mut rdata = vec![0, 1, 0, 0, 5];
    rdata.extend_from_slice(&(ech.len() as u16).to_be_bytes());
    rdata.extend_from_slice(ech);
    msg.extend_from_slice(&(rdata.len() as u16).to_be_bytes());
    msg.extend_from_slice(&rdata);
    msg
}

#[test]
fn ech_lists_from_the_dns() {
    let list = config_list();
    let text = base64::engine::general_purpose::STANDARD.encode(&list);
    let answer = dns_answer(text.as_bytes());
    assert_eq!(extract_ech_param_from_https_response(&answer, "n"), Some(text));
    assert_eq!(extract_ech_param_from_https_response(&dns_answer(&[0xff]), "n"), None);
    assert_eq!(ech_from_dns_answer(&answer, "n").unwrap(), Some(list));
    assert_eq!(ech_from_dns_answer(&answer[..12], "n").unwrap(), None);
    assert_eq!(skip_name(&[1, b'a', 0, 9], 0), Some(3));
    assert_eq!(skip_name(&[0xc0, 1, 9], 0), Some(2));
    assert_eq!(skip_name(&[5, b'a'], 0), None);
    assert!(ech_query_name("n.example").contains("n.example"));
}

#[test]
fn tls_choices() {
    let mut tls = TlsConfig { alpn: vec!["h2".into()], ..Default::default() };
    assert_eq!(config_fingerprint(&tls), "insecure=false|alpn=[\"h2\"]");
    assert!(matches!(tls_mode(&tls, None), Ok(TlsMode::Plain)));
    assert_eq!(root_source(&tls), RootSource::System);
    tls.ca_path = Some("/ca".into());
    assert_eq!(root_source(&tls), RootSource::File("/ca".into()));
    tls.certificate_path = Some("/cert".into());
    assert_eq!(root_source(&tls), RootSource::File("/cert".into()));
    tls.certificate = vec!["abc".into()];
    assert_eq!(root_source(&tls), RootSource::Inline);
    tls.utls = Some(UtlsConfig { enabled: true, fingerprint: UtlsFingerprint::Chrome });
    assert!(matches!(tls_mode(&tls, None), Ok(TlsMode::Utls(UtlsFingerprint::Chrome))));
    tls.ech = Some(OutboundECHOptions { enabled: true, ..Default::default() });
    assert_eq!(
        config_fingerprint(&tls),
        "insecure=false|alpn=[\"h2\"]|ca_path=/ca|cert_inline_count=1_len0=3_head0=616263|\
         utls=Chrome_enabled=true|ech_enabled=true"
    );
    assert_eq!(tls_mode(&tls, None).unwrap_err(), TlsModeError::EchNotConfigured);
    tls.ech.as_mut().unwrap().config_path = Some("f".into());
    assert_eq!(tls_mode(&tls, None).unwrap_err(), TlsModeError::Ech(EchError::FileNotRead));
    assert_eq!(alpn_protocols(&tls.alpn), vec![b"h2".to_vec()]);
}

#[test]
fn roots_in_pem() {
    let pem = |text: &str| {
        format!("-----BEGIN CERTIFICATE-----\n{text}\n-----END CERTIFICATE-----\n")
    };
    let both = vec![pem("Zm9v"), format!("{}{}", pem("YmFy"), pem("YmF6"))];
    assert_eq!(
        inline_roots(&both).unwrap(),
        vec![b"foo".to_vec(), b"bar".to_vec(), b"baz".to_vec()]
    );
    assert_eq!(file_roots(pem("Zm9v").as_bytes()).unwrap(), vec![b"foo".to_vec()]);
    let open = "-----BEGIN CERTIFICATE-----\nZm9v\n".to_string();
    assert_eq!(inline_roots(&[pem("Zm9v"), open]), None);
    assert_eq!(file_roots(b"no certificate").unwrap(), Vec::<Vec<u8>>::new());
}
