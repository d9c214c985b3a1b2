use reflex_outbound::anytls::{
    build_frame, ends_quietly, payload_len, read_head, read_settings, stream_end, AnyTlsSession,
    FrameHead, IdlePool, RecvAction, StreamEnd, WriteAction, WriteMsg, WriteTask, CMD_ALERT,
    CMD_FIN, CMD_HEART_REQUEST, CMD_PSH, CMD_SERVER_SETTINGS, CMD_SYN, CMD_SYNACK,
    CMD_UPDATE_PADDING,
};
use reflex_outbound::anytls_outbound::{build_auth_packet, AnyTlsOutbound, SessionChoice};
use reflex_outbound::common::smux::{
    read_frame, Frame, FrameAction, FrameProgress, MultiplexPool, PoolPick, SmuxConfig,
    SmuxSession, CMD_FIN as SMUX_FIN, CMD_NOP, CMD_PSH as SMUX_PSH, CMD_RST, SMUX_V1, SMUX_V2,
};
use reflex_outbound::config::{
    AnyTlsOutboundConfig, Hysteria2OutboundConfig, MultiplexConfig, ShadowsocksOutboundConfig,
    ShadowsocksTransportConfig, SocksOutboundConfig, SocksVersion, TlsConfig,
};
use reflex_outbound::fragment::{
    build_udp_header, parse_udp_frag_header, split_udp, start_reassembly, Start, UdpFragError,
    MAX_DATAGRAM_PAYLOAD,
};
use reflex_outbound::huffman::huffman_decode;
use reflex_outbound::hy2::{
    auth_on_frame, auth_request, control_stream_preludes, padding_text, quic_params,
    read_h3_frame, read_tcp_response, reuse_connection, tcp_request, write_h3_frame, AuthError,
    AuthInfo, AuthStep, CachedConn, H3Progress, Hy2Outbound, TcpProgress, H3_FRAME_DATA,
    H3_FRAME_HEADERS,
};
use reflex_outbound::hysteria2::{quic_bind_addr, Hysteria2Outbound};
use reflex_outbound::ip_text::parse_ip;
use reflex_outbound::net::{IpAddr, SocketAddr, Target};
use reflex_outbound::qpack::{
    parse_headers_from_qpack, put_literal_header, qpack_read_int, qpack_static_entry,
    qpack_static_name, QpackError,
};
use reflex_outbound::router::DatagramRouter;
use reflex_outbound::shadowsocks::{
    open_stream, request_padding, write_chunk, write_chunks, AeadCipher, AtEnd, Method, SsError,
    SsRead, SsReader, MAX_PAYLOAD,
};
use reflex_outbound::shadowsocks_outbound::{
    open_udp, seal_udp, udp_salt, Kdf, Opened, ShadowsocksOutbound, SsUdpSession, TcpRoute,
};
use reflex_outbound::socks::{
    build_udp_datagram, effective_relay, needs_resolving, socks4_reply, socks4_request,
    socks5_udp_strip_header, Purpose, Socks5Handshake, SocksError, SocksOutbound, SocksUdpError,
};
use reflex_outbound::socks_addr::{encode_target, measure_socks_addr, SocksAddrError};
use reflex_outbound::varint::{decode_varint_slice, varint_len, write_varint, VarintError};

fn ip(s: &str) -> IpAddr {
    parse_ip(s).unwrap()
}

fn socket(s: &str, port: u16) -> SocketAddr {
    SocketAddr::new(ip(s), port)
}

fn domain(host: &str, port: u16) -> Target {
    Target::Domain(host.to_string(), port)
}

#[test]
fn varints() {
    let bytes = |v| {
        let mut b = Vec::new();
        write_varint(&mut b, v);
        b
    };
    assert_eq!(bytes(37), vec![0x25]);
    assert_eq!(bytes(15293), vec![0x7b, 0xbd]);
    assert_eq!(bytes(494878333), vec![0x9d, 0x7f, 0x3e, 0x7d]);
    assert_eq!(
        decode_varint_slice(&[0xc2, 0x19, 0x7c, 0x5e, 0xff, 0x14, 0xe8, 0x8c, 9]),
        Ok((151288809941952652, 8))
    );
    assert_eq!(decode_varint_slice(&[]), Err(VarintError::Empty));
    assert_eq!(decode_varint_slice(&[0x40]), Err(VarintError::Truncated2));
    assert_eq!(decode_varint_slice(&[0x80, 0, 0]), Err(VarintError::Truncated4));
    assert_eq!(decode_varint_slice(&[0xc0, 0]), Err(VarintError::Truncated8));
    assert_eq!([varint_len(0), varint_len(0x40), varint_len(0x80), varint_len(0xc0)], [1, 2, 4, 8]);
}

#[test]
fn huffman_texts() {
    let www = [0xf1, 0xe3, 0xc2, 0xe5, 0xf2, 0x3a, 0x6b, 0xa0, 0xab, 0x90, 0xf4, 0xff];
    assert_eq!(huffman_decode(&www), "www.example.com");
    assert_eq!(huffman_decode(&[0xa8, 0xeb, 0x10, 0x64, 0x9c, 0xbf]), "no-cache");
    assert_eq!(huffman_decode(&[]), "");
}

#[test]
fn qpack_numbers_and_tables() {
    assert_eq!(qpack_read_int(&[0x0a], 5), Some((10, 1)));
    assert_eq!(qpack_read_int(&[0x1f, 0x9a, 0x0a], 5), Some((1337, 3)));
    assert_eq!(qpack_read_int(&[0x1f], 5), None);
    assert_eq!(qpack_static_entry(25), Some((":status", "200")));
    assert_eq!(qpack_static_entry(99), None);
    assert_eq!(qpack_static_name(0), Some(":authority"));
    assert_eq!(parse_headers_from_qpack(&[0]), Err(QpackError::TooShort));
    let mut block = vec![0, 0];
    put_literal_header(&mut block, b"a-name-of-some-length", b"value");
    assert_eq!(
        parse_headers_from_qpack(&block).unwrap(),
        vec![("a-name-of-some-length".to_string(), "value".to_string())]
    );
    assert_eq!(
        parse_headers_from_qpack(&[0, 0, 0xd9]).unwrap(),
        vec![(":status".to_string(), "200".to_string())]
    );
}

fn status_frame(status: &[u8]) -> Vec<u8> {
    let mut block = vec![0, 0];
    put_literal_header(&mut block, b":status", status);
    block
}

#[test]
fn a_cut_off_header_line_is_lost() {
    let mut block = vec![0, 0];
    put_literal_header(&mut block, b":status", b"233");
    put_literal_header(&mut block, b"hysteria-udp", b"true");
    let whole = parse_headers_from_qpack(&block).unwrap();
    assert_eq!(whole.len(), 2);
    let mut line = Vec::new();
    put_literal_header(&mut line, b"hysteria-cc-rx", b"auto");
    for k in 1..line.len() {
        let cut = [&block[..], &line[..k]].concat();
        assert_eq!(parse_headers_from_qpack(&cut).unwrap(), whole);
    }
    let all = parse_headers_from_qpack(&[&block[..], &line[..]].concat()).unwrap();
    assert_eq!(all[2], ("hysteria-cc-rx".to_string(), "auto".to_string()));
}

#[test]
fn hy2_authentication() {
    let ok = auth_on_frame(H3_FRAME_HEADERS, &status_frame(b"233"), 5);
    assert_eq!(ok, AuthStep::Done(AuthInfo { udp_enabled: false, tx_bps: 5 }));
    assert_eq!(auth_on_frame(H3_FRAME_DATA, &[1], 5), AuthStep::ReadOn);
    assert_eq!(auth_on_frame(7, &[], 5), AuthStep::Fail(AuthError::UnexpectedFrame(7)));
    assert_eq!(auth_on_frame(H3_FRAME_HEADERS, &[0], 5), AuthStep::Fail(AuthError::BadHeaders));
    assert_eq!(
        auth_on_frame(H3_FRAME_HEADERS, &status_frame(b"abc"), 5),
        AuthStep::Fail(AuthError::InvalidStatus)
    );
    assert_eq!(
        auth_on_frame(H3_FRAME_HEADERS, &status_frame(b"404"), 5),
        AuthStep::Fail(AuthError::Rejected(404))
    );
    let frame = auth_request("pw", 1_000_000, "pad");
    let (kind, from, to) = match read_h3_frame(&frame) {
        H3Progress::Frame(k, f, t) => (k, f, t),
        other => panic!("no frame: {other:?}"),
    };
    assert_eq!((kind, to), (H3_FRAME_HEADERS, frame.len()));
    let headers = parse_headers_from_qpack(&frame[from..to]).unwrap();
    let value = |n: &str| headers.iter().find(|(k, _)| k == n).map(|(_, v)| v.as_str());
    assert_eq!(value(":method"), Some("POST"));
    assert_eq!(value(":path"), Some("/auth"));
    assert_eq!(value(":authority"), Some("hysteria"));
    assert_eq!(value("hysteria-auth"), Some("pw"));
    assert_eq!(value("hysteria-cc-rx"), Some("1000000"));
    assert_eq!(value("hysteria-padding"), Some("pad"));
    let (control, encoder, decoder) = control_stream_preludes();
    assert_eq!((control[0], encoder[0], decoder[0]), (0, 2, 3));
}

#[test]
fn hy2_frames_and_responses() {
    let mut frame = Vec::new();
    write_h3_frame(&mut frame, 1, b"abc");
    assert_eq!(frame, [1, 3, b'a', b'b', b'c']);
    assert_eq!(read_h3_frame(&frame[..4]), H3Progress::Need(5));
    assert_eq!(read_h3_frame(&[0, 0x80, 0x20, 0, 0]), H3Progress::TooLarge(0x200000));
    assert_eq!(read_tcp_response(&[0, 0, 0, 9]), TcpProgress::Accepted(3));
    assert_eq!(read_tcp_response(&[0, 2, b'o', b'k', 1, 0]), TcpProgress::Accepted(6));
    assert_eq!(read_tcp_response(&[1, 2, b'n', b'o', 0]), TcpProgress::Rejected(1, 2, 4));
    assert_eq!(read_tcp_response(&[0, 0x48, 0x01]), TcpProgress::MessageTooLong);
    assert_eq!(read_tcp_response(&[0, 0, 0x50, 0x01]), TcpProgress::PaddingTooLong);
    let req = tcp_request(&domain("h", 80), "xy");
    assert_eq!(req, [&[0x44, 0x01, 4][..], b"h:80", &[2], b"xy"].concat());
    assert_eq!(padding_text(&[0, 61]).len(), 2);
}

fn hy2_config(up_mbps: u32) -> Hysteria2OutboundConfig {
    Hysteria2OutboundConfig {
        tag: "h".into(),
        server: "srv".into(),
        server_port: 443,
        password: "pw".into(),
        up_mbps,
        down_mbps: 3,
        tls: TlsConfig::default(),
    }
}

#[test]
fn hy2_outbounds() {
    assert_eq!(quic_params(&hy2_config(0)).initial_window, None);
    assert_eq!(quic_params(&hy2_config(100)).initial_window, Some(1_250_000));
    let mut o: Hy2Outbound<u8> = Hy2Outbound::new(hy2_config(1)).with_mark(4).with_resolver(9);
    assert_eq!((o.routing_mark, o.resolver), (4, Some(9)));
    assert_eq!(o.auth_request("p"), auth_request("pw", 3_000_000, "p"));
    let auth = AuthInfo { udp_enabled: true, tx_bps: 0 };
    let first = o.open_udp(&auth).unwrap();
    let mut second = o.open_udp(&auth).unwrap();
    assert_eq!((first.session_id, second.session_id), (0, 1));
    assert_eq!(o.open_udp(&AuthInfo { udp_enabled: false, tx_bps: 0 }), None);
    let out = second.send(&domain("h", 1), b"data");
    assert_eq!(out.len(), 1);
    assert_eq!(second.next_packet, 1);
    let conn = CachedConn { conn: 5, auth };
    let mut cached = Some(conn);
    assert_eq!(reuse_connection(&mut cached, false), Some(conn));
    assert_eq!(reuse_connection(&mut cached, true), None);
    assert_eq!(cached, None);
    let mut o: Hysteria2Outbound<u8> =
        Hysteria2Outbound::new(hy2_config(1)).with_mark(2).with_resolver(1);
    o.update_resolver(8);
    assert_eq!((o.client.routing_mark, o.client.resolver), (2, Some(8)));
    assert_eq!(o.tls_name(), "srv");
    assert_eq!(o.status().kind, "Proxy");
    assert_eq!(o.open_udp(&auth).unwrap().session_id, 0);
    assert_eq!(
        o.on_auth_frame(H3_FRAME_HEADERS, &status_frame(b"233")),
        AuthStep::Done(AuthInfo { udp_enabled: false, tx_bps: 1_000_000 })
    );
    assert_eq!(quic_bind_addr(socket("::1", 9)), socket("::", 0));
}

#[test]
fn datagrams_are_split_and_put_together() {
    let data: Vec<u8> = (0..3000u32).map(|i| i as u8).collect();
    let parts = split_udp(7, 2, "h:53", &data);
    assert!(parts.len() > 1);
    assert!(parts.iter().all(|p| p.len() <= MAX_DATAGRAM_PAYLOAD));
    let mut r = match start_reassembly(&parts[1]).unwrap() {
        Start::Partial(r) => r,
        Start::Whole(_) => panic!("only a part"),
    };
    r.offer(&build_udp_header(7, 3, 0, parts.len() as u8, "h:53"));
    r.offer(&parts[1]);
    for p in parts.iter().rev() {
        r.offer(p);
    }
    assert!(r.complete());
    assert_eq!(r.finish(), data);
    assert_eq!(parse_udp_frag_header(&[0; 7]).unwrap_err(), UdpFragError::TooShort);
    assert_eq!(
        parse_udp_frag_header(&[0, 0, 0, 0, 0, 0, 0, 1, 0x40]).unwrap_err(),
        UdpFragError::BadLength(VarintError::Truncated2)
    );
    assert_eq!(
        parse_udp_frag_header(&[0, 0, 0, 0, 0, 0, 0, 1, 5, 1]).unwrap_err(),
        UdpFragError::AddressTruncated
    );
}

#[test]
fn pieces_of_any_length_come_together() {
    let pieces = ["a", "", "long piece"];
    let datagram = |i: usize| {
        let mut d = build_udp_header(7, 2, i as u8, 3, ["h:53", "", "other:1"][i]);
        d.extend_from_slice(pieces[i].as_bytes());
        d
    };
    let mut r = match start_reassembly(&datagram(2)).unwrap() {
        Start::Partial(r) => r,
        Start::Whole(_) => panic!("only a part"),
    };
    r.offer(&datagram(0));
    assert!(!r.complete());
    r.offer(&datagram(1));
    assert!(r.complete());
    assert_eq!(r.finish(), b"along piece");
    let mut whole = build_udp_header(7, 2, 0, 1, "h:53");
    whole.extend_from_slice(b"one");
    assert!(matches!(start_reassembly(&whole).unwrap(), Start::Whole(d) if d == b"one"));
}

#[test]
fn datagrams_reach_their_session() {
    let mut router = DatagramRouter::new();
    router.register(1, 10);
    router.register(2, 20);
    assert_eq!(router.dispatch(&[0, 0, 0, 1, 0, 0, 0, 1]), Some(10));
    assert_eq!(router.dispatch(&[0, 0, 0, 2, 0, 0, 0, 1]), Some(20));
    assert_eq!(router.dispatch(&[0, 0, 0, 1]), None);
    router.unregister(1);
    assert_eq!(router.dispatch(&[0, 0, 0, 1, 0, 0, 0, 1]), None);
    assert_eq!(router.dispatch(&[0, 0, 0, 2, 0, 0, 0, 1]), Some(20));
}

#[test]
fn socks5_handshakes() {
    let (mut h, hello) =
        Socks5Handshake::start(Purpose::Connect(domain("h", 80)), Some("u".into()), Some("p".into()));
    assert_eq!(hello[0], 5);
    assert_eq!(h.want(), 2);
    assert_eq!(h.on_received(&[5, 2]).unwrap(), vec![1, 1, b'u', 1, b'p']);
    assert_eq!(h.on_received(&[1, 0]).unwrap(), vec![5, 1, 0, 3, 1, b'h', 0, 80]);
    assert_eq!(h.want(), 4);
    h.on_received(&[5, 0, 0, 1]).unwrap();
    assert_eq!(h.want(), 6);
    h.on_received(&[10, 0, 0, 1, 0, 9]).unwrap();
    assert_eq!(h.relay, Some(socket("10.0.0.1", 9)));

    let start = || {
        Socks5Handshake::start(Purpose::Connect(domain("h", 80)), Some("u".into()), Some("p".into())).0
    };
    assert_eq!(start().on_received(&[4, 0]), Err(SocksError::Version));
    assert_eq!(start().on_received(&[5, 0xff]), Err(SocksError::NoAcceptableMethod));
    let mut h = start();
    h.on_received(&[5, 2]).unwrap();
    assert_eq!(h.on_received(&[1, 1]), Err(SocksError::AuthenticationFailed));
    let reply = |r: &[u8]| {
        let mut h = start();
        h.on_received(&[5, 0]).unwrap();
        h.on_received(r)
    };
    assert_eq!(reply(&[4, 0, 0, 1]), Err(SocksError::ReplyVersion));
    assert_eq!(reply(&[5, 5, 0, 1]), Err(SocksError::Refused(5)));
    assert_eq!(reply(&[5, 0, 0, 9]), Err(SocksError::UnknownAddressType(9)));
    let long = "x".repeat(256);
    let (mut h, _) =
        Socks5Handshake::start(Purpose::Connect(domain("h", 80)), Some(long.clone()), None);
    assert_eq!(h.on_received(&[5, 2]), Err(SocksError::CredentialsTooLong));
    let (mut h, _) = Socks5Handshake::start(Purpose::Connect(domain(&long, 80)), None, None);
    assert_eq!(h.on_received(&[5, 0]), Err(SocksError::DomainTooLong));
    assert_eq!(effective_relay(socket("0.0.0.0", 7), ip("1.2.3.4")), socket("1.2.3.4", 7));
    assert_eq!(effective_relay(socket("9.9.9.9", 7), ip("1.2.3.4")), socket("9.9.9.9", 7));
}

#[test]
fn socks4_requests() {
    assert_eq!(
        socks4_request(SocksVersion::V4a, &domain("h", 80), None).unwrap(),
        vec![4, 1, 0, 80, 0, 0, 0, 1, 0, b'h', 0]
    );
    assert_eq!(
        socks4_request(SocksVersion::V4, &domain("h", 80), Some(socket("1.2.3.4", 80))).unwrap(),
        vec![4, 1, 0, 80, 1, 2, 3, 4, 0]
    );
    assert_eq!(
        socks4_request(SocksVersion::V4a, &Target::Socket(socket("::1", 80)), None),
        Err(SocksError::Ipv6Target)
    );
    assert!(needs_resolving(SocksVersion::V4, &domain("h", 80)));
    assert!(!needs_resolving(SocksVersion::V4a, &domain("h", 80)));
    assert_eq!(socks4_reply(&[0, 0x5a, 0, 0, 0, 0, 0, 0]), Ok(()));
    assert_eq!(socks4_reply(&[0, 0x5b, 0, 0, 0, 0, 0, 0]), Err(SocksError::Refused(0x5b)));
    assert_eq!(socks4_reply(&[4, 0x5a, 0, 0, 0, 0, 0, 0]), Err(SocksError::Socks4Version(4)));
}

#[test]
fn socks_datagrams() {
    for target in [domain("h", 80), Target::Socket(socket("1.2.3.4", 5)), Target::Socket(socket("::1", 5))] {
        let d = build_udp_datagram(&target, b"data");
        assert_eq!(socks5_udp_strip_header(&d).unwrap(), b"data");
        let a = encode_target(&target);
        assert_eq!(measure_socks_addr(&d, 3), Ok(a.len()));
    }
    assert_eq!(socks5_udp_strip_header(&[0, 0]), Err(SocksUdpError::TooShort));
    assert_eq!(
        socks5_udp_strip_header(&[0, 0, 0, 1, 1, 2]),
        Err(SocksUdpError::Address(SocksAddrError::Truncated))
    );
    assert_eq!(measure_socks_addr(&[7], 0), Err(SocksAddrError::UnknownType(7)));
}

#[test]
fn socks_outbounds() {
    let config = |v: &str| SocksOutboundConfig {
        tag: "s".into(),
        server: "srv".into(),
        server_port: 1080,
        version: Some(v.into()),
        username: None,
        password: None,
    };
    let o: SocksOutbound<()> = SocksOutbound::new(config("5")).unwrap().with_mark(1).with_resolver(());
    assert!(o.relays_udp());
    assert_eq!(o.routing_mark, 1);
    let o: SocksOutbound<()> = SocksOutbound::new(config("4")).unwrap();
    assert!(!o.relays_udp());
    assert!(SocksOutbound::<()>::new(config("9")).is_err());
}

#[test]
fn shadowsocks_methods() {
    let m = Method::named("aes-128-gcm").unwrap();
    assert_eq!((m.key_len(), m.salt_len(), m.is_2022()), (16, 16, false));
    assert!(Method::named("2022-blake3-aes-256-gcm").unwrap().is_2022());
    assert_eq!(Method::named("none").unwrap().aead(), None);
    assert_eq!(Method::named("rc4"), Err(SsError::UnknownMethod));
}

#[test]
fn shadowsocks_chunks_come_back() {
    let m = Method::ChaCha20Poly1305;
    let key = vec![9u8; 32];
    let salt = vec![1u8; 32];
    let (first, mut enc) = open_stream(m, key.clone(), &salt, b"addr", 0, &[]).unwrap();
    assert_eq!(&first[..32], &salt[..]);
    let big = vec![7u8; MAX_PAYLOAD + 5];
    let more = write_chunks(&mut enc, &big);
    let mut r = SsReader::new(m, &salt, true);
    r.feed(&first[..10]);
    assert!(matches!(r.step(0), SsRead::More(AtEnd::Clean)));
    r.feed(&first[10..]);
    match r.step(0) {
        SsRead::DeriveKey(s) => assert_eq!(s, salt),
        _ => panic!("no salt"),
    }
    r.install_key(key);
    assert!(matches!(r.step(0), SsRead::Data));
    assert_eq!(r.take(100), b"addr");
    r.feed(&more);
    let mut got = Vec::new();
    while got.len() < big.len() {
        assert!(matches!(r.step(0), SsRead::Data));
        got.extend(r.take(usize::MAX));
    }
    assert_eq!(got, big);
    let mut other = AeadCipher::new(m, vec![8; 32]);
    let bad = write_chunk(&mut other, b"x").unwrap();
    r.feed(&bad);
    assert!(matches!(r.step(0), SsRead::Failed(SsError::OpenLength)));
}

fn response_header(kind: u8, time: u64, salt: &[u8], len: u16) -> Vec<u8> {
    let mut h = vec![kind];
    h.extend_from_slice(&time.to_be_bytes());
    h.extend_from_slice(salt);
    h.extend_from_slice(&len.to_be_bytes());
    h
}

fn read_response(header: &[u8], check_time: bool, now: i64) -> SsRead {
    let m = Method::Blake3Aes128Gcm;
    let mut enc = AeadCipher::new(m, vec![3; 16]);
    let mut r = SsReader::new(m, &[5; 16], check_time);
    r.feed(&[6; 16]);
    r.install_key(vec![3; 16]);
    r.feed(&enc.seal(header).unwrap());
    r.step(now)
}

#[test]
fn shadowsocks_2022_responses() {
    let salt = [5u8; 16];
    let ok = read_response(&response_header(1, 1000, &salt, 4), true, 1010);
    assert!(matches!(ok, SsRead::Progress));
    assert!(matches!(
        read_response(&response_header(0, 1000, &salt, 4), true, 1010),
        SsRead::Failed(SsError::HeaderType(0))
    ));
    assert!(matches!(
        read_response(&response_header(1, 1000, &salt, 4), true, 1031),
        SsRead::Failed(SsError::Timestamp)
    ));
    assert!(matches!(
        read_response(&response_header(1, 1000, &[4; 16], 4), true, 1000),
        SsRead::Failed(SsError::SaltMismatch)
    ));
    let padding = request_padding();
    assert!(padding.len() <= 900);
}

#[test]
fn shadowsocks_failures_use_up_what_was_opened() {
    let m = Method::Blake3Aes128Gcm;
    let mut enc = AeadCipher::new(m, vec![3; 16]);
    let mut r = SsReader::new(m, &[5; 16], false);
    r.feed(&[6; 16]);
    r.install_key(vec![3; 16]);
    r.feed(&enc.seal(&response_header(0, 1000, &[5; 16], 4)).unwrap());
    assert!(matches!(r.step(0), SsRead::Failed(SsError::HeaderType(0))));
    assert_eq!(r.raw.len(), 0);
    assert_eq!(r.dec.as_ref().unwrap().counter, 1);
    let m = Method::Aes256Gcm;
    let mut enc = AeadCipher::new(m, vec![3; 32]);
    let mut r = SsReader::new(m, &[], false);
    r.feed(&[6; 32]);
    r.install_key(vec![3; 32]);
    let mut chunk = write_chunk(&mut enc, b"x").unwrap();
    chunk[20] ^= 1;
    r.feed(&chunk);
    assert!(matches!(r.step(0), SsRead::Failed(SsError::OpenPayload)));
    assert_eq!(r.raw.len(), chunk.len());
    assert_eq!(r.dec.as_ref().unwrap().counter, 2);
}

fn ss_outbound(method: &str, password: &str) -> Result<ShadowsocksOutbound<()>, SsError> {
    ShadowsocksOutbound::new(ShadowsocksOutboundConfig {
        tag: "ss".into(),
        server: "srv".into(),
        server_port: 1,
        method: method.into(),
        password: password.into(),
        transport: Some(ShadowsocksTransportConfig::Ws),
        tls: None,
        multiplex: None,
    })
}

#[test]
fn shadowsocks_response_comes_out_however_it_is_cut() {
    let m = Method::Blake3Aes128Gcm;
    let mut enc = AeadCipher::new(m, vec![3; 16]);
    let mut stream = vec![6u8; 16];
    stream.extend(enc.seal(&response_header(1, 1000, &[5; 16], 4)).unwrap());
    stream.extend(enc.seal(&[0; 4]).unwrap());
    for piece in ["one ", "two ", "three"] {
        stream.extend(write_chunk(&mut enc, piece.as_bytes()).unwrap());
    }
    for part in 1..12 {
        let mut r = SsReader::new(m, &[5; 16], true);
        let mut got = Vec::new();
        for bytes in stream.chunks(part) {
            r.feed(bytes);
            loop {
                match r.step(1000) {
                    SsRead::Data => got.extend(r.take(part)),
                    SsRead::DeriveKey(salt) => {
                        assert_eq!(salt, vec![6; 16]);
                        r.install_key(vec![3; 16]);
                    }
                    SsRead::Progress => {}
                    SsRead::More(_) => break,
                    SsRead::Failed(e) => panic!("{e:?}"),
                }
            }
        }
        assert_eq!(got, b"one two three");
    }
}

#[test]
fn shadowsocks_outbounds() {
    assert_eq!(ss_outbound("rc4", "p").err(), Some(SsError::UnknownMethod));
    assert_eq!(ss_outbound("2022-blake3-aes-128-gcm", "??").err(), Some(SsError::KeyEncoding));
    assert_eq!(ss_outbound("2022-blake3-aes-128-gcm", "AAAA").err(), Some(SsError::KeyLength(3)));
    let o = ss_outbound("2022-blake3-aes-128-gcm", "AAECAwQFBgcICQoLDA0ODw==").unwrap();
    assert_eq!(o.tcp_route(), TcpRoute::Ws);
    let salt = o.random_salt();
    let mut reader = o.response_reader(&salt);
    assert!(!reader.check_time);
    assert_eq!(reader.request_salt, Some(salt.clone()));
    assert!(matches!(reader.step(0), SsRead::More(AtEnd::Clean)));
    assert_eq!(salt.len(), 16);
    let req = o.derive_subkey(&salt);
    assert_eq!(req.master, (0..16).collect::<Vec<u8>>());
    assert!(matches!(req.kdf, Kdf::Blake3Session));
    let plain = ss_outbound("none", "p").unwrap().with_mark(3);
    match plain.first_flight(&domain("h", 1), vec![], &[], 0, &[]).unwrap() {
        Opened::Raw(bytes) => assert_eq!(bytes, vec![3, 1, b'h', 0, 1]),
        Opened::Framed(_, _) => panic!("nothing is sealed"),
    }
    let o = ss_outbound("aes-256-gcm", "p").unwrap().with_key(vec![1; 32]);
    assert!(matches!(o.derive_subkey(&[2; 32]).kdf, Kdf::HkdfSha1));
    assert_eq!(o.status().name, "ss");
}

#[test]
fn shadowsocks_datagrams_come_back() {
    let m = Method::Aes256Gcm;
    let packet = seal_udp(m, vec![1; 32], &[2; 32], &domain("h", 53), b"query").unwrap();
    assert_eq!(udp_salt(m, &packet).unwrap(), vec![2; 32]);
    assert_eq!(open_udp(m, vec![1; 32], &packet).unwrap(), b"query");
    assert_eq!(open_udp(m, vec![7; 32], &packet), None);
    let mut s = SsUdpSession::new(Method::Blake3Aes128Gcm, &[0, 0, 0, 0, 0, 0, 1, 0]);
    let first = s.next_2022(Method::Blake3Aes128Gcm, &domain("h", 1), b"d");
    let second = s.next_2022(Method::Blake3Aes128Gcm, &domain("h", 1), b"d");
    assert_eq!(first.session_id, second.session_id);
    assert_eq!(second.packet_id, first.packet_id + 1);
    assert_eq!((first.addr, first.data), (vec![3, 1, b'h', 0, 1], b"d".to_vec()));
}

#[test]
fn smux_frames_come_back() {
    let f = Frame { version: SMUX_V2, cmd: SMUX_PSH, stream_id: 9, data: b"xyz".to_vec(), consumed: 4 };
    let mut bytes = f.encode();
    assert!(matches!(read_frame(&bytes[..5]), FrameProgress::Need(8)));
    bytes.extend_from_slice(b"next");
    match read_frame(&bytes) {
        FrameProgress::Frame(g, n) => {
            assert_eq!(n, bytes.len() - 4);
            assert_eq!((g.cmd, g.stream_id, g.consumed, g.data), (SMUX_PSH, 9, 4, b"xyz".to_vec()));
        }
        FrameProgress::Need(n) => panic!("needs {n}"),
    }
}

#[test]
fn smux_sessions() {
    let mut s = SmuxSession::new(&SmuxConfig::default());
    let (id, syn) = s.open_stream();
    let (next, _) = s.open_stream();
    assert_eq!((id, next), (1, 3));
    assert_eq!(syn, vec![SMUX_V1, 0, 0, 0, 1, 0, 0, 0]);
    s.register(id);
    let frame = |cmd, data: &[u8]| Frame {
        version: SMUX_V1,
        cmd,
        stream_id: id,
        data: data.to_vec(),
        consumed: 0,
    };
    assert!(matches!(s.on_frame(frame(SMUX_PSH, b"d")), FrameAction::Deliver(1, d) if d == b"d"));
    assert!(matches!(s.on_frame(frame(CMD_NOP, b"")), FrameAction::Ignore));
    assert!(matches!(s.on_frame(frame(77, b"")), FrameAction::Unknown(77)));
    assert!(matches!(s.on_frame(frame(SMUX_FIN, b"")), FrameAction::Close(1)));
    s.remove(id);
    assert!(matches!(s.on_frame(frame(SMUX_PSH, b"d")), FrameAction::Ignore));
    assert_eq!(s.data_frame(1, b"d").len(), 9);
    assert_eq!(s.keepalive_frame()[1], CMD_NOP);
    assert_ne!(CMD_RST, CMD_NOP);
}

#[test]
fn smux_streams_are_announced_before_their_data() {
    let mut s = SmuxSession::new(&SmuxConfig::default());
    let mut wire = Vec::new();
    for word in ["a", "bc"] {
        let (sid, syn) = s.open_stream();
        wire.extend(syn);
        s.register(sid);
        wire.extend(s.data_frame(sid, word.as_bytes()));
    }
    wire.extend(s.data_frame(1, b"d"));
    let mut seen = Vec::new();
    while let FrameProgress::Frame(f, end) = read_frame(&wire) {
        wire.drain(..end);
        seen.push((f.cmd, f.stream_id, f.data));
    }
    assert_eq!(
        seen,
        vec![
            (0, 1, vec![]),
            (SMUX_PSH, 1, b"a".to_vec()),
            (0, 3, vec![]),
            (SMUX_PSH, 3, b"bc".to_vec()),
            (SMUX_PSH, 1, b"d".to_vec()),
        ]
    );
}

#[test]
fn smux_pools_fill_up() {
    let mut p = MultiplexPool::new(&MultiplexConfig {
        max_connections: 2,
        max_streams: 1,
        ..Default::default()
    });
    for _ in 0..2 {
        assert_eq!(p.acquire(), PoolPick::Dial);
        p.opened(PoolPick::Dial);
    }
    assert_eq!(p.acquire(), PoolPick::Full);
    let mut p = MultiplexPool::new(&MultiplexConfig { max_streams: 2, ..Default::default() });
    p.opened(PoolPick::Dial);
    assert_eq!(p.acquire(), PoolPick::Reuse(0));
    p.opened(PoolPick::Reuse(0));
    assert_eq!(p.acquire(), PoolPick::Dial);
}

fn head(cmd: u8, sid: u32, len: u16) -> FrameHead {
    FrameHead { cmd, sid, len }
}

#[test]
fn anytls_frames() {
    let f = build_frame(CMD_PSH, 0x01020304, b"abc");
    assert_eq!(f, vec![2, 1, 2, 3, 4, 0, 3, b'a', b'b', b'c']);
    let h = read_head(&f[..7]);
    assert_eq!((h.cmd, h.sid, h.len), (CMD_PSH, 0x01020304, 3));
    assert_eq!(payload_len(&h), 3);
}

#[test]
fn anytls_sessions() {
    let mut s = AnyTlsSession::new(4);
    let (sid, frames) = s.open_stream("md5").unwrap();
    assert_eq!(sid, 1);
    assert!(frames.iter().any(|f| f[0] == CMD_SYN));
    assert!(matches!(s.on_frame(head(CMD_PSH, 1, 2), b"hi".to_vec()), RecvAction::Deliver(1, d) if d == b"hi"));
    assert!(matches!(s.on_frame(head(CMD_PSH, 9, 2), b"hi".to_vec()), RecvAction::Nothing));
    assert!(matches!(s.on_frame(head(CMD_SYNACK, 1, 2), b"no".to_vec()), RecvAction::Rejected(1, m) if m == "no"));
    assert!(matches!(s.on_frame(head(CMD_UPDATE_PADDING, 0, 1), b"p".to_vec()), RecvAction::UpdatePadding(p) if p == b"p"));
    assert!(matches!(s.on_frame(head(CMD_HEART_REQUEST, 0, 0), vec![]), RecvAction::Reply(_)));
    s.on_frame(head(CMD_SERVER_SETTINGS, 0, 3), b"v=2".to_vec());
    assert_eq!(s.peer_version, 2);
    let (second, _) = s.open_stream("md5").unwrap();
    assert_eq!(s.write_data(second, b"d").unwrap(), build_frame(CMD_PSH, second, b"d"));
    assert_eq!(s.close_stream_local(second).unwrap(), build_frame(CMD_FIN, second, b""));
    assert!(matches!(s.on_frame(head(CMD_ALERT, 0, 3), b"bye".to_vec()), RecvAction::Alert(Some(m)) if m == "bye"));
    assert!(s.is_closed());
    assert!(s.open_stream("md5").is_err());
    assert!(s.write_data(1, b"d").is_err());
    assert_eq!(s.close_stream_local(second), None);
    assert_eq!(read_settings("a=1\nv=7\n", 1), 7);
    assert_eq!(stream_end(true, false), StreamEnd::Pending);
    assert_eq!(stream_end(false, false), StreamEnd::Eof);
    assert_eq!(stream_end(true, true), StreamEnd::Reset);
    assert!(ends_quietly("unexpected EOF") && !ends_quietly("timeout"));
}

#[test]
fn anytls_writes_are_gathered() {
    let mut w = WriteTask::new();
    assert!(matches!(w.on_message(WriteMsg::Control(vec![9])), WriteAction::Plain(c) if c == vec![9]));
    assert!(matches!(w.on_message(WriteMsg::Frame(vec![1])), WriteAction::Wait));
    match w.on_message(WriteMsg::Flush(vec![2])) {
        WriteAction::Padded(bytes) => assert_eq!(bytes, vec![1, 2]),
        _ => panic!("not written"),
    }
    assert!(matches!(w.on_message(WriteMsg::Frame(vec![3])), WriteAction::Padded(f) if f == vec![3]));
    assert!(matches!(w.on_message(WriteMsg::Close), WriteAction::Shutdown));
}

#[test]
fn anytls_pool() {
    let mut p = IdlePool::new();
    assert_eq!((p.next_seq(), p.next_seq(), p.next_seq()), (1, 2, 3));
    for (seq, now) in [(2, 10), (1, 20), (3, 30)] {
        p.return_idle(seq, false, now);
    }
    p.return_idle(9, true, 0);
    assert_eq!(p.idle.iter().map(|s| s.seq).collect::<Vec<_>>(), vec![1, 2, 3]);
    assert_eq!(p.cleanup(100, 75, 1), vec![1, 2]);
    assert_eq!(p.take(&vec![]), Some(3));
    assert_eq!(p.take(&vec![]), None);
    p.return_idle(5, false, 0);
    p.return_idle(6, false, 0);
    assert_eq!(p.take(&vec![6]), Some(5));
    p.return_idle(6, false, 0);
    p.forget(6);
    assert!(p.idle.is_empty());
}

#[test]
fn anytls_outbounds() {
    let config = AnyTlsOutboundConfig {
        tag: "any".into(),
        server: "srv".into(),
        password: "abc".into(),
        min_idle_session: 1,
        ..Default::default()
    };
    let mut o: AnyTlsOutbound<()> = AnyTlsOutbound::new(config);
    assert_eq!((o.client.idle_check_interval, o.client.idle_timeout), (30_000, 60_000));
    assert_eq!(o.client.get_or_create_session(&vec![]), SessionChoice::Create);
    o.client.return_idle(1, false, 0);
    o.client.return_idle(2, false, 0);
    assert_eq!(o.client.cleanup_idle(60_001), vec![1]);
    assert_eq!(o.client.get_or_create_session(&vec![]), SessionChoice::Reuse(2));
    assert_eq!(o.client.tls_name(), "srv");
    assert_eq!(o.client.create_proxy(&domain("h", 1)), vec![3, 1, b'h', 0, 1]);
    let hello = o.client.hello(&[0, 0]);
    assert_eq!(hello, build_auth_packet("abc", &[0, 0]));
    assert_eq!(&hello[..4], &[0xba, 0x78, 0x16, 0xbf]);
    assert_eq!(&hello[32..], &[0, 2, 0, 0]);
    assert_eq!(o.udp_target().to_text(), "sp.v2.udp-over-tcp.arpa:443");
    assert_eq!(o.status().kind, "Proxy");
    let o = o.with_mark(5).with_resolver(());
    assert_eq!((o.client.routing_mark, o.client.resolver), (5, Some(())));
}
