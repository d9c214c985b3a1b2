use reflex_outbound::common::group::{
    lookup_outbound, GroupError, SelectorOutbound, SelectorOutboundConfig,
};
use reflex_outbound::common::interrupt::{InterruptGroup, RelayState, RelayStep, Way};
use reflex_outbound::common::probe::{
    judge_response, parse_probe_path, parse_probe_url, probe_request, ProbeError,
};
use reflex_outbound::common::url_test::{
    choose_node, Measured, UrlTestOutbound, UrlTestOutboundConfig,
};

fn tags(list: &[&str]) -> Vec<String> {
    list.iter().map(|s| s.to_string()).collect()
}

fn selector(outbounds: &[&str], default: Option<&str>, saved: Option<&str>) -> SelectorOutbound {
    SelectorOutbound::new(
        SelectorOutboundConfig {
            tag: "sel".into(),
            outbounds: tags(outbounds),
            default: default.map(str::to_string),
            interrupt_existing_connections: false,
        },
        saved.map(str::to_string),
    )
}

#[test]
fn first_choice_of_a_selector() {
    assert_eq!(selector(&["a", "b"], Some("b"), Some("a")).current_tag(), "a");
    assert_eq!(selector(&["a", "b"], Some("b"), Some("gone")).current_tag(), "b");
    assert_eq!(selector(&["a", "b"], None, None).current_tag(), "a");
    assert_eq!(selector(&["a", "b"], Some("zzz"), None).current_tag(), "a");
    assert_eq!(selector(&[], None, Some("a")).current_tag(), "");
}

#[test]
fn refreshed_nodes_follow_the_fixed_ones() {
    let mut s = selector(&["a", "b"], None, None);
    s.refresh_provider_nodes(&tags(&["p1", "b", "p2", "p1"]));
    assert_eq!(s.all_tags_snapshot(), tags(&["a", "b", "p1", "p2"]));
    s.set_selected("p2", &[]).unwrap();
    s.refresh_provider_nodes(&tags(&["p2", "p3"]));
    assert_eq!(s.all_tags_snapshot(), tags(&["a", "b", "p2", "p3"]));
    assert_eq!(s.current_tag(), "p2");
    s.refresh_provider_nodes(&[]);
    assert_eq!(s.current_tag(), "a");
    assert_eq!(s.selected, "a");
}

#[test]
fn choosing_cuts_connections_off() {
    let mut s = selector(&["a", "b"], None, None);
    s.interrupt_group.register(1, true, &[]);
    s.interrupt_group.register(2, false, &[]);
    s.interrupt_group.register(3, false, &[]);
    assert_eq!(s.set_selected("c", &[]).unwrap_err(), GroupError::NotContained);
    assert!(s.set_selected("a", &[]).unwrap().is_none());
    let switch = s.set_selected("b", &[3]).unwrap().unwrap();
    assert_eq!(switch.store, ("sel".to_string(), "b".to_string()));
    assert_eq!(switch.signals, vec![2]);
    assert_eq!(s.interrupt_group.conns.len(), 1);
    let status = s.status();
    assert_eq!(status.kind, "Selector");
    assert_eq!(status.now.as_deref(), Some("b"));
    assert_eq!(status.all, tags(&["a", "b"]));
}

#[test]
fn interruption_reaches_those_from_outside_when_meant_to() {
    let mut g = InterruptGroup::new();
    g.register(1, true, &[]);
    g.register(2, false, &[]);
    g.register(3, true, &[1]);
    assert_eq!(g.conns.iter().map(|c| c.id).collect::<Vec<_>>(), vec![2, 3]);
    assert_eq!(g.interrupt(true, &[]), vec![2, 3]);
    assert!(g.conns.is_empty());
}

#[test]
fn relay_counts_what_was_written() {
    let mut r = RelayState::new();
    assert_eq!(r.on_read(Way::Up, 5), RelayStep::Write);
    r.on_write(Way::Up, 5, true);
    assert_eq!(r.on_read(Way::Up, 0), RelayStep::Shutdown);
    assert!(!r.is_done());
    assert_eq!(r.on_read(Way::Down, 7), RelayStep::Write);
    r.on_write(Way::Down, 7, true);
    r.on_write(Way::Down, 9, false);
    assert!(r.is_done());
    assert_eq!((r.up_bytes, r.dn_bytes), (5, 7));
}

fn measured(list: &[(&str, Option<u64>)]) -> Vec<Measured> {
    list.iter().map(|(t, l)| Measured { tag: t.to_string(), latency: *l }).collect()
}

fn url_test(outbounds: &[&str], providers: &[&str], url: &str) -> Result<UrlTestOutbound, GroupError> {
    UrlTestOutbound::new(UrlTestOutboundConfig {
        tag: "auto".into(),
        outbounds: tags(outbounds),
        providers: tags(providers),
        url: url.into(),
        interval_ms: 1_000,
        tolerance: 50,
    })
}

#[test]
fn url_test_settings_are_checked() {
    assert_eq!(url_test(&[], &[], "http://h").err(), Some(GroupError::NoOutbounds));
    assert!(url_test(&[], &["p"], "http://h").is_ok());
    assert_eq!(
        url_test(&["a"], &[], "ftp://h").err(),
        Some(GroupError::BadUrl(ProbeError::Scheme))
    );
}

#[test]
fn fastest_node_is_chosen_within_the_tolerance() {
    let results = measured(&[("a", Some(120)), ("b", Some(80)), ("c", None), ("d", Some(200))]);
    assert_eq!(choose_node(&None, &results, 50).as_deref(), Some("b"));
    assert_eq!(choose_node(&Some("a".into()), &results, 50).as_deref(), Some("a"));
    assert_eq!(choose_node(&Some("a".into()), &results, 39).as_deref(), Some("b"));
    assert_eq!(choose_node(&Some("c".into()), &results, 50).as_deref(), Some("b"));
    assert_eq!(choose_node(&Some("d".into()), &results, u64::MAX).as_deref(), Some("d"));
    let none = measured(&[("a", None)]);
    assert_eq!(choose_node(&Some("x".into()), &none, 0).as_deref(), Some("x"));
    let twice = measured(&[("a", Some(1)), ("b", Some(5)), ("a", None)]);
    assert_eq!(choose_node(&None, &twice, 0).as_deref(), Some("b"));
}

#[test]
fn url_test_measures_when_due() {
    let mut g = url_test(&["a", "b"], &["p"], "http://h/x").unwrap();
    assert_eq!(g.current_tag(0), ("a".to_string(), true));
    assert_eq!(g.current_tag(0), ("a".to_string(), false));
    g.begin_check(100);
    g.finish_check(measured(&[("a", None), ("b", Some(3))]));
    assert!(!g.should_check(1_099));
    assert!(g.should_check(1_100));
    assert_eq!(g.current_tag(1_099), ("b".to_string(), false));
    let status = g.status_snapshot();
    assert_eq!(status.kind, "URLTest");
    assert_eq!(status.history.len(), 1);
    assert_eq!((status.history[0].name.as_str(), status.history[0].delay), ("b", 3));
    assert_eq!(g.force_selected("zzz"), Err(GroupError::NotContained));
    g.refresh_provider_nodes(&tags(&["p1"]));
    assert_eq!(g.selected.as_deref(), Some("b"));
    assert_eq!(g.force_selected("p1"), Ok(()));
    g.refresh_provider_nodes(&[]);
    assert_eq!(g.selected, None);
    assert!(g.should_check(0));
    assert_eq!(g.status_snapshot().now.as_deref(), Some("a"));
}

#[test]
fn outbounds_are_found_by_tag() {
    assert_eq!(lookup_outbound(&tags(&["a", "b"]), "b"), Ok(1));
    assert_eq!(lookup_outbound(&tags(&["a", "b"]), "c"), Err(GroupError::NotFound));
}

#[test]
fn probe_addresses() {
    let ok = |u: &str| parse_probe_url(u).unwrap();
    assert_eq!(ok("https://www.gstatic.com/generate_204"), ("www.gstatic.com".into(), 443));
    assert_eq!(ok("http://h:8080/x"), ("h".into(), 8080));
    assert_eq!(ok("http://[::1]:81/x"), ("::1".into(), 81));
    assert_eq!(ok("https://[::1]"), ("::1".into(), 443));
    assert_eq!(parse_probe_url("h:80").unwrap_err(), ProbeError::Scheme);
    assert_eq!(parse_probe_url("http:///x").unwrap_err(), ProbeError::MissingHost);
    assert_eq!(parse_probe_url("http://:80").unwrap_err(), ProbeError::MissingHost);
    assert_eq!(parse_probe_url("http://[::1").unwrap_err(), ProbeError::UnterminatedIpv6);
    assert_eq!(parse_probe_url("http://h:99999").unwrap_err(), ProbeError::InvalidPort);
    assert_eq!(parse_probe_path("https://h/a/b?q=1"), "/a/b?q=1");
    assert_eq!(parse_probe_path("https://h"), "/");
    assert_eq!(
        probe_request("h", "/x"),
        "HEAD /x HTTP/1.1\r\nHost: h\r\nUser-Agent: reflex/1.0\r\nConnection: close\r\n\r\n"
    );
}

#[test]
fn probe_answers() {
    assert_eq!(judge_response(b"HTTP/1.1 204 No Content\r\n\r\n"), Ok(()));
    assert_eq!(judge_response(b"HTTP/1.1 399\r\n"), Ok(()));
    assert_eq!(judge_response(b""), Err(ProbeError::EmptyResponse));
    assert_eq!(judge_response(b"HTT"), Err(ProbeError::NotHttp));
    assert_eq!(judge_response(b"SSH-2.0-x"), Err(ProbeError::NotHttp));
    assert_eq!(judge_response(b"HTTP/1.1 503 x\r\n"), Err(ProbeError::Unhealthy(503)));
    assert_eq!(judge_response(b"HTTP/1.1\r\n200"), Err(ProbeError::Unhealthy(0)));
    assert_eq!(judge_response(b"HTTP/1.1 200 \xff\r\n"), Err(ProbeError::Unhealthy(0)));
}
