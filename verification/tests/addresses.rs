use reflex_outbound::common::interface_finder::{
    choose_interface, collect, default_route_interface, find_interface_by_addr, ip_in_subnet,
    list_interfaces, Interface, ListedAddr,
};
use reflex_outbound::common::local_ranges::{is_local_in, LocalRanges};
use reflex_outbound::common::physical::{
    is_loopback, macos_bind_option, network_index, physical_if_index_v4, physical_if_index_v6,
    physical_src_ip_for, physical_src_ip_v4, physical_src_ip_v6, set_physical_if_index_v4,
    set_physical_if_index_v6, set_physical_src_ip_v4, set_physical_src_ip_v6, system_dns_servers,
    windows_bind_options, BindOption, DnsAdapter, PhysicalInterface,
};
use reflex_outbound::ip_text::parse_ip;
use reflex_outbound::net::{same_target, IpAddr, SocketAddr, Target};
use reflex_outbound::outbound::{
    default_status, global_routing_mark, resolver_answer, server_lookup, set_global_routing_mark,
    socket_mark, system_answer, target_lookup, CopyHalf, CopyStep, LiveCounters, LookupError,
    Platform, RoutingMark, ServerLookup,
};
use reflex_outbound::words::split_words;

fn ip(s: &str) -> IpAddr {
    parse_ip(s).unwrap()
}

#[test]
fn addresses_are_read_back_from_their_text() {
    for text in [
        "0.0.0.0",
        "255.1.20.3",
        "::",
        "::1",
        "1::",
        "2001:db8::1",
        "1:2:3:4:5:6:7:8",
        "1:0:0:2::3",
        "::ffff:1.2.3.4",
        "fe80::aaaa:0:1",
    ] {
        assert_eq!(ip(text).to_text(), text);
    }
    assert_eq!(ip("1:0:0:0:0:0:0:8").to_text(), "1::8");
    assert_eq!(ip("1::1.2.3.4"), IpAddr::V6(0x0001_0000_0000_0000_0000_0000_0102_0304));
}

#[test]
fn bad_addresses_are_refused() {
    for text in [
        "", "1.2.3", "1.2.3.4.5", "01.2.3.4", "256.1.1.1", "1.2.3.+4", "1.2.3.", ":", ":::",
        "1:2:3:4:5:6:7", "1:2:3:4:5:6:7:8:9", "::1::2", "12345::", "1.2.3.4::", "g::", "+1::",
        "1:2:3:4:5:6:7::8:9", "example.com",
    ] {
        assert_eq!(parse_ip(text), None, "{text}");
    }
}

#[test]
fn socket_texts() {
    assert_eq!(SocketAddr::new(ip("::1"), 53).to_text(), "[::1]:53");
    let target = Target::Socket(SocketAddr::new(ip("1.2.3.4"), 80));
    assert_eq!(target.to_text(), "1.2.3.4:80");
    assert_eq!(target.host(), "1.2.3.4");
    assert_eq!(target.port(), 80);
    assert!(same_target(&target, &target));
    assert!(!same_target(&target, &Target::Domain("1.2.3.4".into(), 80)));
    assert!(!same_target(&Target::Domain("a".into(), 80), &Target::Domain("b".into(), 80)));
}

#[test]
fn subnets() {
    assert!(ip_in_subnet(ip("192.0.2.7"), 24, ip("192.0.2.200")));
    assert!(!ip_in_subnet(ip("192.0.2.7"), 24, ip("192.0.3.7")));
    assert!(ip_in_subnet(ip("192.0.2.7"), 0, ip("8.8.8.8")));
    assert!(!ip_in_subnet(ip("192.0.2.7"), 0, ip("::1")));
    assert!(ip_in_subnet(ip("10.0.0.1"), 32, ip("10.0.0.1")));
    assert!(!ip_in_subnet(ip("10.0.0.1"), 200, ip("10.0.0.2")));
    assert!(ip_in_subnet(ip("2001:db8::1"), 64, ip("2001:db8::ffff")));
    assert!(!ip_in_subnet(ip("2001:db8::1"), 64, ip("2001:db8:0:1::1")));
    assert!(!ip_in_subnet(ip("::1"), 128, ip("::2")));
}

fn iface(name: &str, addrs: Vec<(IpAddr, u8)>) -> Interface {
    Interface { name: name.into(), addrs }
}

#[test]
fn interface_of_a_subnet_comes_first() {
    let list = vec![
        iface("eth0", vec![(ip("192.0.2.7"), 24)]),
        iface("eth1", vec![(ip("10.0.0.1"), 8), (ip("fd00::1"), 64)]),
    ];
    assert_eq!(find_interface_by_addr(ip("10.9.9.9"), &list), Some(1));
    assert_eq!(find_interface_by_addr(ip("fd00::2"), &list), Some(1));
    assert_eq!(find_interface_by_addr(ip("192.0.2.7"), &list), None);
    assert_eq!(find_interface_by_addr(ip("8.8.8.8"), &list), None);
    let routes = "Iface Destination Gateway Flags RefCnt Use Metric Mask\n\
                  eth0 0002A8C0 00000000 0001 0 0 0 00FFFFFF\n\
                  ppp0 00000000 0101A8C0 0003 0 0 100 00000000\n";
    assert_eq!(choose_interface(ip("10.9.9.9"), &list, Some(routes)).as_deref(), Some("eth1"));
    assert_eq!(choose_interface(ip("8.8.8.8"), &list, Some(routes)).as_deref(), Some("ppp0"));
    assert_eq!(choose_interface(ip("8.8.8.8"), &list, None), None);
}

#[test]
fn route_tables() {
    let head = "Iface\tDestination\tGateway\tFlags\tRefCnt\tUse\tMetric\tMask\tMTU\n";
    let table = |rows: &str| format!("{head}{rows}");
    let row = "eth0\t00000000\t0101A8C0\t0003\t0\t0\t100\t00000000\t0\t0\t0\n";
    assert_eq!(default_route_interface(&table(row)).as_deref(), Some("eth0"));
    assert_eq!(default_route_interface(row), None);
    assert_eq!(default_route_interface(""), None);
    let short = "lo\t00000000\n";
    assert_eq!(default_route_interface(&table(&format!("{short}{row}"))).as_deref(), Some("eth0"));
    let bad = "wl0\tzz\t0\t0\t0\t0\t0\t00000000\n";
    assert_eq!(default_route_interface(&table(&format!("{bad}{row}"))), None);
    let masked = "wl0\t00000000\t0\t0\t0\t0\t0\t000000FF\r\n";
    assert_eq!(default_route_interface(&table(&format!("{masked}{row}"))).as_deref(), Some("eth0"));
}

fn listed(name: &str, up: bool, loopback: bool, addr: &str, mask: Option<&str>) -> ListedAddr {
    ListedAddr { name: name.into(), up, loopback, ip: ip(addr), netmask: mask.map(ip) }
}

#[test]
fn interfaces_are_grouped_by_name() {
    let all = vec![
        listed("lo", true, true, "127.0.0.1", Some("255.0.0.0")),
        listed("eth0", true, false, "192.0.2.7", Some("255.255.255.0")),
        listed("eth1", false, false, "10.0.0.1", None),
        listed("wl0", true, false, "10.0.0.2", None),
        listed("eth0", true, false, "fd00::1", Some("ffff:ffff:ffff:ffff::")),
    ];
    let found = list_interfaces(&all);
    assert_eq!(found.len(), 2);
    assert_eq!(found[0].name, "eth0");
    assert_eq!(found[0].addrs, vec![(ip("192.0.2.7"), 24), (ip("fd00::1"), 64)]);
    assert_eq!(found[1].name, "wl0");
    assert_eq!(found[1].addrs, vec![(ip("10.0.0.2"), 32)]);
    assert_eq!(
        collect(&all),
        vec![(ip("192.0.2.7"), 24), (ip("10.0.0.2"), 32), (ip("fd00::1"), 64)]
    );
}

#[test]
fn local_ranges_grow_old() {
    let mut ranges = LocalRanges::new();
    assert!(ranges.stale(1_000));
    ranges.refresh(vec![(ip("10.0.0.1"), 8)], 1_000);
    assert!(!ranges.stale(1_010));
    assert!(ranges.stale(1_011));
    assert!(!ranges.stale(5));
    assert!(ranges.is_own_address(ip("10.0.0.1")));
    assert!(!ranges.is_own_address(ip("10.0.0.2")));
    assert!(ranges.is_local_loopback(ip("10.0.0.1"), false));
    assert!(!is_local_in(ip("10.0.0.1"), &[(ip("10.0.0.1"), 8)], true));
}

#[test]
fn physical_interface_state() {
    let mut state = PhysicalInterface::new();
    assert_eq!(physical_if_index_v4(&state), None);
    assert_eq!(physical_if_index_v6(&state), None);
    assert_eq!(physical_src_ip_for(&state, ip("::1")), None);
    set_physical_if_index_v4(&mut state, 7);
    set_physical_src_ip_v4(&mut state, 0x0a000001);
    assert_eq!(physical_if_index_v4(&state), Some(7));
    assert_eq!(physical_src_ip_v4(&state), Some(0x0a000001));
    assert_eq!(physical_src_ip_for(&state, ip("2001:db8::1")), Some(ip("10.0.0.1")));
    set_physical_src_ip_v6(&mut state, 1);
    assert_eq!(physical_src_ip_v6(&state), Some(1));
    assert_eq!(physical_src_ip_for(&state, ip("2001:db8::1")), Some(ip("::1")));
    assert_eq!(physical_src_ip_for(&state, ip("8.8.8.8")), Some(ip("10.0.0.1")));
    set_physical_if_index_v6(&mut state, 9);
    assert_eq!(
        windows_bind_options(&state, ip("2001:db8::1")),
        vec![BindOption::UnicastV6(9), BindOption::MulticastV6(9), BindOption::UnicastV4(7)]
    );
    assert_eq!(
        windows_bind_options(&state, ip("8.8.8.8")),
        vec![BindOption::UnicastV4(7), BindOption::MulticastV4(7)]
    );
    assert!(windows_bind_options(&state, ip("127.0.0.1")).is_empty());
    assert_eq!(macos_bind_option(&state, ip("127.0.0.1")), Some(BindOption::UnicastV4(7)));
    assert_eq!(macos_bind_option(&state, ip("::1")), Some(BindOption::UnicastV6(9)));
    assert_eq!(network_index(0x01020304), vec![1, 2, 3, 4]);
    assert!(is_loopback(ip("127.9.9.9")) && is_loopback(ip("::1")) && !is_loopback(ip("::2")));
}

#[test]
fn dns_servers_of_the_physical_interface() {
    let adapter = |up, loopback, if_index, servers: &[&str]| DnsAdapter {
        up,
        loopback,
        if_index,
        servers: servers.iter().map(|s| ip(s)).collect(),
    };
    let adapters = vec![
        adapter(true, false, 3, &["1.1.1.1", "0.0.0.0", "1.1.1.1", "172.31.0.1"]),
        adapter(true, false, 4, &["9.9.9.9", "::"]),
        adapter(false, false, 3, &["8.8.8.8"]),
        adapter(true, true, 3, &["8.8.4.4"]),
    ];
    let own = vec![(ip("172.31.0.1"), 30)];
    let mut state = PhysicalInterface::new();
    assert_eq!(system_dns_servers(&state, &own, &adapters), vec![ip("1.1.1.1"), ip("9.9.9.9")]);
    set_physical_if_index_v4(&mut state, 4);
    assert_eq!(system_dns_servers(&state, &own, &adapters), vec![ip("9.9.9.9")]);
}

#[test]
fn words_of_a_line() {
    let chars: Vec<char> = " a\tbc \u{3000}d".chars().collect();
    assert_eq!(split_words(&chars), vec!["a", "bc", "d"]);
    assert!(split_words(&[' ', '\n']).is_empty());
}

#[test]
fn servers_named_by_address_are_not_looked_up() {
    assert_eq!(
        server_lookup("10.0.0.1", 80, true),
        ServerLookup::Known(SocketAddr::new(ip("10.0.0.1"), 80))
    );
    assert_eq!(server_lookup("example.com", 80, true), ServerLookup::AskResolver);
    assert_eq!(server_lookup("example.com", 80, false), ServerLookup::AskSystem);
    assert_eq!(
        target_lookup(&Target::Domain("10.0.0.1".into(), 80), false),
        ServerLookup::AskSystem
    );
    let known = SocketAddr::new(ip("::1"), 1);
    assert_eq!(target_lookup(&Target::Socket(known), true), ServerLookup::Known(known));
    assert_eq!(resolver_answer(Ok(ip("::1")), 1), Ok(known));
    assert_eq!(resolver_answer(Err(LookupError::Timeout), 1), Err(LookupError::Timeout));
    assert_eq!(system_answer(Ok(&[known])), Ok(known));
    assert_eq!(system_answer(Ok(&[])), Err(LookupError::NoAddress));
    assert_eq!(system_answer(Err(LookupError::Failed)), Err(LookupError::Failed));
}

#[test]
fn marks() {
    let mut mark = RoutingMark::new();
    assert_eq!(global_routing_mark(&mark), 0);
    set_global_routing_mark(&mut mark, 255);
    assert_eq!(global_routing_mark(&mark), 255);
    assert_eq!(socket_mark(Platform::Linux, 0), None);
    assert_eq!(socket_mark(Platform::Linux, 255), Some(255));
    assert_eq!(socket_mark(Platform::Android, 0), Some(0x20000));
    assert_eq!(socket_mark(Platform::Other, 255), None);
}

#[test]
fn copied_bytes_count_once_flushed() {
    let mut half = CopyHalf::new();
    assert_eq!(half.on_read(10), CopyStep::Write);
    half.on_written(10, true, true);
    half.on_written(5, true, false);
    assert_eq!(half.total, 10);
    assert!(half.ended);
    assert_eq!(half.on_read(0), CopyStep::End);
    let mut live = LiveCounters { live_up: 1, live_down: 2 };
    live.on_read(4, 9);
    live.on_read(9, 9);
    live.on_write(3);
    assert_eq!(live, LiveCounters { live_up: 4, live_down: 7 });
    let status = default_status(&"out".to_string());
    assert_eq!((status.name.as_str(), status.kind.as_str()), ("out", "Proxy"));
}
