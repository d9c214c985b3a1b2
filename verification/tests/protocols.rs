use base64::Engine;
use reflex_outbound::block::{BlockOutbound, BlockOutboundConfig};
use reflex_outbound::common::local_ranges::LocalRanges;
use reflex_outbound::common::proto::{
    hy2_build_tcp_request, hy2_build_udp_datagram, hy2_parse_udp_datagram, vless_build_request,
    vless_build_udp_request, vless_decode_udp_frame_len, vless_encode_udp_frame,
    vless_parse_response, vless_parse_uuid, HY2_ATYP_DOMAIN, HY2_ATYP_IPV4,
};
use reflex_outbound::common::smux::{
    Frame, SmuxConfig, CMD_PSH, CMD_SYN, HEADER_SIZE_V1, SMUX_V1, SMUX_V2,
};
use reflex_outbound::config::{
    HttpHeaderValue, HttpHeadersConfig, HttpOutboundConfig, MultiplexConfig, NaiveOutboundConfig,
    ResolveStrategy, ShadowQuicOutboundConfig, SocksOutboundConfig, SocksVersion, TlsConfig,
};
use reflex_outbound::direct::apply_domain_strategy;
use reflex_outbound::fragment::{
    build_udp_header, parse_udp_frag_header, start_reassembly, Start,
};
use reflex_outbound::http::target_authority;
use reflex_outbound::hy2::{auth_result, random_padding, target_to_addr_str};
use reflex_outbound::ip_text::parse_ip;
use reflex_outbound::naive::{
    build_basic_auth_value, generate_padding_header, validate, PADDING_HEADER_CHARSET,
};
use reflex_outbound::net::{IpAddr, SocketAddr, Target};
use reflex_outbound::qpack::parse_headers_from_qpack;
use reflex_outbound::shadowquic::{
    build_sq_config, host_to_socks_addr, target_to_socks_addr, AddrOrDomain, CongestionControl,
};
use reflex_outbound::socks::socks5_udp_strip_header;
use reflex_outbound::socks_addr::{SOCKS5_ATYP_DOMAIN, SOCKS5_ATYP_IPV4};
use reflex_outbound::varint::{decode_varint_slice, write_varint};

fn socket(ip: &str, port: u16) -> SocketAddr {
    SocketAddr { ip: parse_ip(ip).unwrap(), port }
}

fn socket_target(ip: &str, port: u16) -> Target {
    Target::Socket(socket(ip, port))
}

fn domain(host: &str, port: u16) -> Target {
    Target::Domain(host.to_string(), port)
}

#[test]
fn block_outbound_method_drop_sets_silent_drop() {
    let ob = BlockOutbound::new(BlockOutboundConfig {
        tag: "blk".into(),
        method: Some("drop".into()),
    });
    assert!(ob.silent_drop);

    let ob_default = BlockOutbound::new(BlockOutboundConfig { tag: "blk".into(), method: None });
    assert!(!ob_default.silent_drop);

    let ob_caps = BlockOutbound::new(BlockOutboundConfig {
        tag: "blk".into(),
        method: Some("DROP".into()),
    });
    assert!(ob_caps.silent_drop);
}

#[test]
fn vless_uuid() {
    let u = vless_parse_uuid("aaaaaaaa-bbbb-cccc-dddd-eeeeeeeeeeee").unwrap();
    assert_eq!(u[0], 0xaa);
    assert_eq!(u[15], 0xee);
}

#[test]
fn vless_request_domain() {
    let uuid = [0xau8; 16];
    let h = vless_build_request(&uuid, &domain("example.com", 443));
    assert_eq!(h[0], 0x00);
    assert_eq!(&h[1..17], &uuid);
    assert_eq!(h[18], 0x01);
    assert_eq!(u16::from_be_bytes([h[19], h[20]]), 443);
    assert_eq!(h[21], 0x02);
    assert_eq!(h[22], 11);
    assert_eq!(&h[23..34], b"example.com");
}

#[test]
fn vless_request_ipv4() {
    let uuid = [0u8; 16];
    let h = vless_build_request(&uuid, &socket_target("1.2.3.4", 80));
    assert_eq!(h[21], 0x01);
    assert_eq!(&h[22..26], &[1, 2, 3, 4]);
}

#[test]
fn vless_response_ok() {
    assert_eq!(vless_parse_response(&[0x00, 0x00]).unwrap(), 2);
    assert_eq!(vless_parse_response(&[0x00, 0x03, 0, 0, 0]).unwrap(), 5);
    assert!(vless_parse_response(&[0x01, 0x00]).is_err());
}

#[test]
fn hy2_tcp_domain() {
    let b = hy2_build_tcp_request(&domain("example.com", 443));
    assert_eq!(b[0], HY2_ATYP_DOMAIN);
    assert_eq!(b[1], 11);
    assert_eq!(&b[2..13], b"example.com");
    assert_eq!(u16::from_be_bytes([b[13], b[14]]), 443);
}

#[test]
fn hy2_tcp_ipv4() {
    let b = hy2_build_tcp_request(&socket_target("1.2.3.4", 80));
    assert_eq!(b[0], HY2_ATYP_IPV4);
    assert_eq!(&b[1..5], &[1, 2, 3, 4]);
    assert_eq!(u16::from_be_bytes([b[5], b[6]]), 80);
}

#[test]
fn hy2_udp_roundtrip_ipv4() {
    let data = b"hello";
    let d = hy2_build_udp_datagram(data, &socket_target("9.9.9.9", 53), 42);
    let (sid, payload, src) = hy2_parse_udp_datagram(&d).unwrap();
    assert_eq!(sid, 42);
    assert_eq!(&payload[..], data);
    assert!(matches!(src, Target::Socket(a) if a.port == 53));
}

#[test]
fn hy2_udp_roundtrip_domain() {
    let data = b"dns";
    let d = hy2_build_udp_datagram(data, &domain("dns.google", 53), 1);
    let (_, payload, src) = hy2_parse_udp_datagram(&d).unwrap();
    assert_eq!(&payload[..], data);
    assert!(matches!(src, Target::Domain(ref h, 53) if h == "dns.google"));
}

#[test]
fn vless_udp_request_cmd_byte() {
    let uuid = [0xau8; 16];
    let h = vless_build_udp_request(&uuid, &socket_target("8.8.8.8", 53));
    assert_eq!(h[18], 0x02);
}

#[test]
fn vless_udp_frame_roundtrip() {
    let data = b"hello dns";
    let frame = vless_encode_udp_frame(data);
    assert_eq!(frame.len(), 2 + data.len());
    let (hdr, dlen) = vless_decode_udp_frame_len(&frame).unwrap();
    assert_eq!(hdr, 2);
    assert_eq!(dlen, data.len());
    assert_eq!(&frame[hdr..hdr + dlen], data);
}

#[test]
fn vless_udp_frame_empty() {
    let frame = vless_encode_udp_frame(b"");
    assert_eq!(&frame[..2], &[0, 0]);
    let (_, dlen) = vless_decode_udp_frame_len(&frame).unwrap();
    assert_eq!(dlen, 0);
}

#[test]
fn vless_udp_frame_too_short() {
    assert!(vless_decode_udp_frame_len(&[0x00]).is_err());
}

#[test]
fn frame_encode_v1_syn() {
    let f = Frame { version: SMUX_V1, cmd: CMD_SYN, stream_id: 1, data: Vec::new(), consumed: 0 };
    let enc = f.encode();
    assert_eq!(enc.len(), HEADER_SIZE_V1);
    assert_eq!(enc[0], SMUX_V1);
    assert_eq!(enc[1], CMD_SYN);
    assert_eq!(u16::from_le_bytes([enc[2], enc[3]]), 0);
    assert_eq!(u32::from_le_bytes([enc[4], enc[5], enc[6], enc[7]]), 1);
}

#[test]
fn frame_encode_v1_psh_with_data() {
    let data = b"hello".to_vec();
    let f = Frame { version: SMUX_V1, cmd: CMD_PSH, stream_id: 3, data, consumed: 0 };
    let enc = f.encode();
    assert_eq!(enc.len(), HEADER_SIZE_V1 + 5);
    assert_eq!(u16::from_le_bytes([enc[2], enc[3]]), 5);
    assert_eq!(&enc[8..13], b"hello");
}

#[test]
fn frame_encode_v2_psh_has_consumed() {
    let data = b"hi".to_vec();
    let f = Frame { version: SMUX_V2, cmd: CMD_PSH, stream_id: 5, data, consumed: 100 };
    let enc = f.encode();
    assert_eq!(u16::from_le_bytes([enc[2], enc[3]]), 6);
    assert_eq!(u32::from_le_bytes([enc[8], enc[9], enc[10], enc[11]]), 100);
    assert_eq!(&enc[12..14], b"hi");
}

#[test]
fn smux_config_from_multiplex() {
    let mc = MultiplexConfig { enabled: true, protocol: "smux".into(), ..Default::default() };
    let sc = SmuxConfig::from(&mc);
    assert_eq!(sc.version, SMUX_V1);
}

#[test]
fn smux_config_yamux_downgrades() {
    let mc = MultiplexConfig { enabled: true, protocol: "yamux".into(), ..Default::default() };
    let sc = SmuxConfig::from(&mc);
    assert_eq!(sc.version, SMUX_V1);
}

#[test]
fn target_authority_domain() {
    assert_eq!(target_authority(&domain("example.com", 443)), "example.com:443");
}

#[test]
fn target_authority_socket() {
    assert_eq!(target_authority(&socket_target("1.2.3.4", 80)), "1.2.3.4:80");
}

#[test]
fn take_host_and_headers_extracts_host_case_insensitive() {
    let map = vec![
        ("hOsT".to_string(), HttpHeaderValue::Single("custom.internal".into())),
        ("X-Extra".to_string(), HttpHeaderValue::Single("v".into())),
    ];
    let cfg = HttpOutboundConfig {
        tag: "t".into(),
        server: "example.com".into(),
        server_port: 8080,
        username: None,
        password: None,
        path: None,
        headers: HttpHeadersConfig(map),
        tls: TlsConfig::default(),
    };
    let (host, headers) = cfg.take_host_and_headers();
    assert_eq!(host.as_deref(), Some("custom.internal"));
    assert_eq!(headers, vec![("X-Extra".to_string(), "v".to_string())]);
}

#[test]
fn varint_roundtrip() {
    for val in [0u64, 63, 64, 16383, 16384, 1_073_741_823, 1_073_741_824] {
        let mut buf = Vec::new();
        write_varint(&mut buf, val);
        let (decoded, _) = decode_varint_slice(&buf).unwrap();
        assert_eq!(decoded, val, "varint roundtrip failed for {val}");
    }
}

#[test]
fn target_addr_domain() {
    assert_eq!(target_to_addr_str(&domain("example.com", 443)), "example.com:443");
}

#[test]
fn target_addr_ipv4() {
    assert_eq!(target_to_addr_str(&socket_target("1.2.3.4", 80)), "1.2.3.4:80");
}

#[test]
fn target_addr_format() {
    assert_eq!(target_to_addr_str(&domain("example.com", 443)), "example.com:443");
    assert_eq!(target_to_addr_str(&socket_target("1.2.3.4", 80)), "1.2.3.4:80");
}

fn frag_header_round_trip() {
    let addr = "example.com:443";
    let data = b"hello";
    let mut buf = build_udp_header(42, 7, 0, 1, addr);
    buf.extend_from_slice(data);
    let (payload, frag_id, frag_count, session_id, packet_id) =
        parse_udp_frag_header(&buf).unwrap();
    assert_eq!(&payload[..], data);
    assert_eq!(frag_id, 0);
    assert_eq!(frag_count, 1);
    assert_eq!(session_id, 42);
    assert_eq!(packet_id, 7);
}

#[test]
fn hy2_udp_frag_header_roundtrip() {
    frag_header_round_trip();
}

#[test]
fn hysteria2_udp_frag_header_roundtrip() {
    frag_header_round_trip();
}

#[test]
fn reassemble_single_fragment() {
    let mut buf = build_udp_header(1, 1, 0, 1, "1.2.3.4:80");
    buf.extend_from_slice(b"payload");
    match start_reassembly(&buf).unwrap() {
        Start::Whole(data) => assert_eq!(data, b"payload"),
        Start::Partial(_) => panic!("one fragment is whole"),
    }
}

#[test]
fn reassemble_multi_fragment() {
    let addr = "1.2.3.4:80";
    let mut frag0 = build_udp_header(100, 9, 0, 2, addr);
    frag0.extend_from_slice(b"abcde");
    let mut frag1 = build_udp_header(100, 9, 1, 2, addr);
    frag1.extend_from_slice(b"fghij");
    match start_reassembly(&frag0).unwrap() {
        Start::Whole(_) => panic!("a fragment is missing"),
        Start::Partial(mut r) => {
            r.offer(&frag1);
            assert!(r.complete());
            assert_eq!(r.finish(), b"abcdefghij");
        }
    }
}

fn literal_block(fields: &[(&[u8], &[u8])]) -> Vec<u8> {
    let mut payload = vec![0x00, 0x00];
    for (name, value) in fields {
        let nlen = name.len();
        if nlen < 7 {
            payload.push(0x20 | nlen as u8);
        } else {
            payload.push(0x27);
            payload.push((nlen - 7) as u8);
        }
        payload.extend_from_slice(name);
        payload.push(value.len() as u8);
        payload.extend_from_slice(value);
    }
    payload
}

#[test]
fn qpack_headers_parse_status_and_extras() {
    let payload = literal_block(&[
        (b":status", b"233"),
        (b"hysteria-udp", b"true"),
        (b"hysteria-cc-rx", b"50000000"),
    ]);
    let headers = parse_headers_from_qpack(&payload).unwrap();
    assert_eq!(headers.len(), 3);
    assert_eq!(headers[0], (":status".to_string(), "233".to_string()));
    assert_eq!(headers[1], ("hysteria-udp".to_string(), "true".to_string()));
    assert_eq!(headers[2], ("hysteria-cc-rx".to_string(), "50000000".to_string()));

    let info = auth_result(&headers, 100_000_000).unwrap();
    assert!(info.udp_enabled);
    assert_eq!(info.tx_bps, 50_000_000);
}

#[test]
fn qpack_cc_rx_auto() {
    let payload = literal_block(&[(b":status", b"233"), (b"hysteria-cc-rx", b"auto")]);
    let headers = parse_headers_from_qpack(&payload).unwrap();
    let local_tx: u64 = 80_000_000;
    let info = auth_result(&headers, local_tx).unwrap();
    assert_eq!(info.tx_bps, local_tx);
}

#[test]
fn random_padding_length() {
    let p = random_padding(64, 512);
    assert!(p.len() >= 64 && p.len() < 512);
}

#[test]
fn padding_header_format() {
    let hdr = generate_padding_header();
    assert!(hdr.len() >= 30 && hdr.len() <= 61);
    for b in hdr.bytes().take(16) {
        assert!(PADDING_HEADER_CHARSET.contains(&b), "char {} not in charset", b);
    }
    for b in hdr.bytes().skip(16) {
        assert_eq!(b, b'~');
    }
}

fn naive_config(tls_enabled: bool, quic: bool, cc: &str) -> NaiveOutboundConfig {
    NaiveOutboundConfig {
        tag: "test".into(),
        server: "example.com".into(),
        server_port: 443,
        username: String::new(),
        password: String::new(),
        extra_headers: Vec::new(),
        udp_over_tcp: None,
        quic,
        quic_congestion_control: cc.to_string(),
        tls: TlsConfig { enabled: tls_enabled, ..Default::default() },
    }
}

#[test]
fn validate_rejects_no_tls() {
    let mut cfg = naive_config(false, false, "");
    assert!(validate(&cfg).is_err());
    cfg.tls.enabled = true;
    assert!(validate(&cfg).is_ok());
}

#[test]
fn validate_rejects_quic_mode() {
    assert!(validate(&naive_config(true, true, "")).is_err());
}

#[test]
fn validate_quic_congestion_control_values() {
    let valid = ["", "bbr", "bbr2", "cubic", "reno"];
    for cc in &valid {
        assert!(validate(&naive_config(true, false, cc)).is_ok(), "should accept cc='{cc}'");
    }
    assert!(validate(&naive_config(true, false, "invalid")).is_err());
}

#[test]
fn base64_auth_encoding() {
    let auth = base64::engine::general_purpose::STANDARD.encode("user:pass");
    assert_eq!(auth, "dXNlcjpwYXNz");
    assert_eq!(build_basic_auth_value("user", "pass"), "Basic dXNlcjpwYXNz");
}

#[test]
fn target_to_socks_addr_domain() {
    let addr = target_to_socks_addr(&domain("example.com", 443));
    assert_eq!(addr.port, 443);
    match addr.addr {
        AddrOrDomain::Domain(v) => assert_eq!(v, b"example.com"),
        _ => panic!("expected domain"),
    }
}

#[test]
fn target_to_socks_addr_ipv4() {
    let addr = target_to_socks_addr(&socket_target("1.2.3.4", 80));
    assert_eq!(addr.port, 80);
    match addr.addr {
        AddrOrDomain::V4(octets) => assert_eq!(octets, [1, 2, 3, 4]),
        _ => panic!("expected ipv4"),
    }
}

#[test]
fn host_to_socks_addr_ip() {
    let addr = host_to_socks_addr("10.0.0.1", 8080);
    assert_eq!(addr.port, 8080);
    assert!(matches!(addr.addr, AddrOrDomain::V4(_)));
}

#[test]
fn host_to_socks_addr_domain() {
    let addr = host_to_socks_addr("example.com", 443);
    assert_eq!(addr.port, 443);
    assert!(matches!(addr.addr, AddrOrDomain::Domain(_)));
}

fn sq_config(cc: &str, brutal_bandwidth: u64) -> ShadowQuicOutboundConfig {
    ShadowQuicOutboundConfig {
        tag: "test".into(),
        server: "example.com".into(),
        server_port: 443,
        password: "pass".into(),
        username: "user".into(),
        server_name: "camo.example.com".into(),
        alpn: vec!["h3".into()],
        initial_mtu: 1400,
        congestion_control: cc.into(),
        brutal_bandwidth,
        zero_rtt: true,
        over_stream: false,
        min_mtu: 1290,
        keep_alive_interval: 0,
        gso: true,
        mtu_discovery: true,
        blackhole_detection: false,
    }
}

#[test]
fn build_sq_config_defaults() {
    let cfg = sq_config("bbr", 10_000_000);
    let sq = build_sq_config(&cfg, socket("1.2.3.4", 443), 0);
    assert_eq!(sq.username, "user");
    assert_eq!(sq.password, "pass");
    assert_eq!(sq.addr, "1.2.3.4:443");
    assert_eq!(sq.server_name, "camo.example.com");
    assert_eq!(sq.alpn, vec!["h3".to_string()]);
    assert_eq!(sq.initial_mtu, 1400);
    assert!(matches!(sq.congestion_control, CongestionControl::Bbr));
    assert!(sq.zero_rtt);
    assert!(!sq.over_stream);
    assert_eq!(sq.fw_mark, None);
}

#[test]
fn build_sq_config_brutal() {
    let cfg = sq_config("brutal", 50_000_000);
    let sq = build_sq_config(&cfg, socket("1.2.3.4", 443), 256);
    match sq.congestion_control {
        CongestionControl::Brutal(bandwidth) => assert_eq!(bandwidth, 50_000_000),
        _ => panic!("expected brutal"),
    }
    assert_eq!(sq.fw_mark, Some(256));
}

fn socks_config(version: Option<&str>) -> SocksOutboundConfig {
    SocksOutboundConfig {
        tag: "test".into(),
        server: "127.0.0.1".into(),
        server_port: 1080,
        version: version.map(str::to_string),
        username: None,
        password: None,
    }
}

#[test]
fn version_parsing() {
    assert_eq!(socks_config(None).parsed_version().unwrap(), SocksVersion::V5);
    assert_eq!(socks_config(Some("5")).parsed_version().unwrap(), SocksVersion::V5);
    assert_eq!(socks_config(Some("4a")).parsed_version().unwrap(), SocksVersion::V4a);
    assert_eq!(socks_config(Some("4")).parsed_version().unwrap(), SocksVersion::V4);
    assert!(socks_config(Some("6")).parsed_version().is_err());
}

#[test]
fn udp_strip_header_ipv4() {
    let mut buf = vec![0x00, 0x00, 0x00, SOCKS5_ATYP_IPV4];
    buf.extend_from_slice(&[1, 2, 3, 4]);
    buf.extend_from_slice(&[0x00, 0x50]);
    buf.extend_from_slice(b"hello");
    let payload = socks5_udp_strip_header(&buf).unwrap();
    assert_eq!(payload, b"hello");
}

#[test]
fn udp_strip_header_domain() {
    let name = b"example.com";
    let mut buf = vec![0x00, 0x00, 0x00, SOCKS5_ATYP_DOMAIN, name.len() as u8];
    buf.extend_from_slice(name);
    buf.extend_from_slice(&[0x01, 0xBB]);
    buf.extend_from_slice(b"world");
    let payload = socks5_udp_strip_header(&buf).unwrap();
    assert_eq!(payload, b"world");
}

fn v4(a: u8, b: u8, c: u8, d: u8) -> IpAddr {
    IpAddr::V4(u32::from_be_bytes([a, b, c, d]))
}

#[test]
fn domain_strategy_orders_and_filters() {
    let ips = vec![IpAddr::V6(1), v4(1, 1, 1, 1), IpAddr::V6(1), v4(2, 2, 2, 2)];
    let got = apply_domain_strategy(&ips, ResolveStrategy::PreferIpv4);
    assert_eq!(got, vec![v4(1, 1, 1, 1), v4(2, 2, 2, 2), IpAddr::V6(1), IpAddr::V6(1)]);
    let got = apply_domain_strategy(&ips, ResolveStrategy::PreferIpv6);
    assert_eq!(got[0], IpAddr::V6(1));
    let got = apply_domain_strategy(&ips, ResolveStrategy::Ipv4Only);
    assert!(got.iter().all(|ip| ip.is_ipv4()) && got.len() == 2);
    let got = apply_domain_strategy(&ips, ResolveStrategy::Ipv6Only);
    assert!(got.iter().all(|ip| ip.is_ipv6()) && got.len() == 2);
}

#[test]
fn local_loopback_guard_rejects_own_subnet_but_allows_exact_self() {
    let mut ranges = LocalRanges::new();
    ranges.set_for_test(vec![(v4(192, 0, 2, 7), 24)], 1_000);
    assert!(ranges.is_local_loopback(v4(192, 0, 2, 100), true));
    assert!(!ranges.is_local_loopback(v4(192, 0, 2, 7), true));
    assert!(!ranges.is_local_loopback(v4(198, 51, 100, 1), true));
    assert!(!ranges.is_local_loopback(parse_ip("2001:db8::1").unwrap(), true));
}
