use std::collections::BTreeMap;
use tailscale_ui::config::AppConfig;
use tailscale_ui::json::JsonValue;
use tailscale_ui::status::{ExitNodeChoice, TailscaleSnapshot};

fn s(v: &str) -> JsonValue {
    JsonValue::Str(v.to_string())
}

fn n(v: i64) -> JsonValue {
    JsonValue::Number(Some(v))
}

fn arr(items: Vec<JsonValue>) -> JsonValue {
    JsonValue::Array(items)
}

fn obj(entries: Vec<(&str, JsonValue)>) -> JsonValue {
    let mut m = BTreeMap::new();
    for (k, v) in entries {
        m.insert(k.to_string(), v);
    }
    JsonValue::Object(m.into_iter().collect())
}

fn peers() -> JsonValue {
    obj(vec![
        ("k1", obj(vec![
            ("ExitNodeOption", JsonValue::Bool(true)),
            ("TailscaleIPs", arr(vec![s("100.1.1.3"), s("fd7a::3")])),
            ("HostName", s("beta")),
            ("DNSName", s("beta.ts.net.")),
            ("Online", JsonValue::Bool(false)),
            ("ID", n(3)),
        ])),
        ("k2", obj(vec![
            ("ExitNodeOption", JsonValue::Bool(true)),
            ("TailscaleIPs", arr(vec![s("100.1.1.2")])),
            ("HostName", s("Alpha")),
            ("DNSName", s("alpha-2.ts.net.")),
            ("Online", JsonValue::Bool(true)),
            ("ID", n(2)),
        ])),
        ("k3", obj(vec![
            ("ExitNodeOption", JsonValue::Bool(false)),
            ("TailscaleIPs", arr(vec![s("100.1.1.9")])),
            ("HostName", s("gamma")),
        ])),
        ("k4", obj(vec![
            ("ExitNodeOption", JsonValue::Bool(true)),
            ("TailscaleIPs", arr(vec![])),
            ("HostName", s("delta")),
        ])),
        ("k5", obj(vec![
            ("ExitNodeOption", JsonValue::Bool(true)),
            ("TailscaleIPs", arr(vec![n(5), s("100.1.1.1")])),
            ("HostName", s("alpha")),
            ("Online", JsonValue::Bool(true)),
            ("ID", n(1)),
        ])),
        ("k6", s("not a node")),
    ])
}

fn status(current: JsonValue) -> JsonValue {
    obj(vec![
        ("BackendState", s("Running")),
        ("AuthURL", s("")),
        ("Self", obj(vec![
            ("HostName", s("laptop")),
            ("DNSName", s("laptop.ts.net.")),
            ("TailscaleIPs", arr(vec![s("100.64.0.1"), JsonValue::Null, s("fd7a::1")])),
        ])),
        ("ExitNodeStatus", current),
        ("Peer", peers()),
    ])
}

fn choice(id: &str, host: &str, dns: &str, ip: &str, online: bool) -> ExitNodeChoice {
    ExitNodeChoice {
        node_id: id.to_string(),
        host_name: host.to_string(),
        dns_name: dns.to_string(),
        ip: ip.to_string(),
        online,
    }
}

fn config(id: &str, name: &str, ip: &str, dns: &str) -> AppConfig {
    let mut c = AppConfig::default();
    c.preferred_exit_node_id = id.to_string();
    c.preferred_exit_node_name = name.to_string();
    c.preferred_exit_node_ip = ip.to_string();
    c.preferred_exit_node_dns = dns.to_string();
    c
}

#[test]
fn from_json_reads_fields_and_sorts_exit_nodes() {
    let snap = TailscaleSnapshot::from_json(&status(obj(vec![]))).unwrap();
    assert_eq!(snap.backend_state, "Running");
    assert!(snap.connected());
    assert!(!snap.login_required());
    assert_eq!(snap.self_host, "laptop");
    assert_eq!(snap.self_dns, "laptop.ts.net");
    assert_eq!(snap.self_ips, vec!["100.64.0.1".to_string(), "fd7a::1".to_string()]);
    assert_eq!(snap.current_exit_node_id, "");
    assert_eq!(snap.current_exit_node_name, "");
    assert_eq!(snap.current_exit_node_ip, "");
    let names: Vec<(&str, &str, &str, bool)> = snap
        .peers
        .iter()
        .map(|p| (p.node_id.as_str(), p.host_name.as_str(), p.ip.as_str(), p.online))
        .collect();
    assert_eq!(names, vec![
        ("1", "alpha", "100.1.1.1", true),
        ("2", "Alpha", "100.1.1.2", true),
        ("3", "beta", "100.1.1.3", false),
    ]);
    assert_eq!(snap.peers[2].dns_name, "beta.ts.net");
    assert_eq!(snap.peers[0].dns_name, "");
}

#[test]
fn from_json_defaults_for_missing_members() {
    let snap = TailscaleSnapshot::from_json(&JsonValue::Null).unwrap();
    assert_eq!(snap.backend_state, "Unknown");
    assert_eq!(snap.auth_url, "");
    assert!(snap.peers.is_empty());
    assert!(snap.self_ips.is_empty());
    let login = obj(vec![("BackendState", s("NeedsLogin")), ("AuthURL", s("https://login"))]);
    let snap = TailscaleSnapshot::from_json(&login).unwrap();
    assert!(snap.login_required());
    assert!(!snap.connected());
}

#[test]
fn current_exit_node_named_from_peer_with_its_id() {
    let current = obj(vec![("ID", n(2)), ("TailscaleIPs", arr(vec![s("100.1.1.2")]))]);
    let snap = TailscaleSnapshot::from_json(&status(current)).unwrap();
    assert_eq!(snap.current_exit_node_id, "2");
    assert_eq!(snap.current_exit_node_name, "Alpha");
    assert_eq!(snap.current_exit_node_ip, "100.1.1.2");
}

#[test]
fn current_exit_node_address_from_peer_with_its_id() {
    let current = obj(vec![("ID", n(3))]);
    let snap = TailscaleSnapshot::from_json(&status(current)).unwrap();
    assert_eq!(snap.current_exit_node_name, "beta");
    assert_eq!(snap.current_exit_node_ip, "100.1.1.3");
    let current = obj(vec![("ID", n(1))]);
    let snap = TailscaleSnapshot::from_json(&status(current)).unwrap();
    assert_eq!(snap.current_exit_node_name, "alpha");
    assert_eq!(snap.current_exit_node_ip, "");
}

#[test]
fn current_exit_node_named_from_peer_with_its_address() {
    let current = obj(vec![("ID", s("nStable")), ("TailscaleIPs", arr(vec![s("fd7a::3")]))]);
    let snap = TailscaleSnapshot::from_json(&status(current)).unwrap();
    assert_eq!(snap.current_exit_node_id, "");
    assert_eq!(snap.current_exit_node_name, "beta");
    assert_eq!(snap.current_exit_node_ip, "fd7a::3");
}

#[test]
fn current_exit_node_name_prefers_host_name_member() {
    let current = obj(vec![("HostName", JsonValue::Bool(true)), ("DNSName", s("x.ts.net."))]);
    let snap = TailscaleSnapshot::from_json(&status(current)).unwrap();
    assert_eq!(snap.current_exit_node_name, "");
    let current = obj(vec![("DNSName", s("x.ts.net.."))]);
    let snap = TailscaleSnapshot::from_json(&status(current)).unwrap();
    assert_eq!(snap.current_exit_node_name, "x.ts.net");
}

#[test]
fn normalize_trims_drops_dots_lowercases() {
    assert_eq!(TailscaleSnapshot::normalize("  Host.Example.. "), "host.example");
    assert_eq!(TailscaleSnapshot::normalize("ÄB"), "äb");
    assert_eq!(TailscaleSnapshot::normalize(" . "), "");
}

#[test]
fn display_name_variants() {
    assert_eq!(choice("1", "alpha", "a.ts.net", "100.1.1.1", true).display_name(), "alpha (100.1.1.1)");
    assert_eq!(choice("1", "", "a.ts.net", "100.1.1.1", false).display_name(), "a.ts.net (100.1.1.1, offline)");
    assert_eq!(choice("1", "", "", "100.1.1.1", true).display_name(), "100.1.1.1 (100.1.1.1)");
}

#[test]
fn preferred_peer_found_by_any_identifier() {
    let snap = TailscaleSnapshot::from_json(&status(obj(vec![]))).unwrap();
    let p = snap.find_preferred_peer(&config("", "  ALPHA. ", "", "")).unwrap();
    assert_eq!(p.node_id, "1");
    let p = snap.find_preferred_peer(&config("", "", "100.1.1.3", "")).unwrap();
    assert_eq!(p.host_name, "beta");
    let p = snap.find_preferred_peer(&config("2", "", "", "")).unwrap();
    assert_eq!(p.host_name, "Alpha");
    let p = snap.find_preferred_peer(&config("", "", "", "Beta.TS.net.")).unwrap();
    assert_eq!(p.node_id, "3");
    assert!(snap.find_preferred_peer(&config("", "", "", "")).is_none());
    assert!(snap.find_preferred_peer(&config("9", "omega", "1.2.3.4", "omega.ts.net")).is_none());
}

#[test]
fn saved_peer_is_found_again() {
    let snap = TailscaleSnapshot::from_json(&status(obj(vec![]))).unwrap();
    for p in &snap.peers {
        let c = config(&p.node_id, &p.host_name, &p.ip, &p.dns_name);
        let found = snap.find_preferred_peer(&c).unwrap();
        let shares = [&found.node_id, &found.host_name, &found.dns_name, &found.ip].iter().any(|a| {
            let a = TailscaleSnapshot::normalize(a);
            !a.is_empty()
                && [&p.node_id, &p.host_name, &p.dns_name, &p.ip]
                    .iter()
                    .any(|b| TailscaleSnapshot::normalize(b) == a)
        });
        assert!(shares);
    }
}

#[test]
fn no_peers_means_no_preferred_peer() {
    let snap = TailscaleSnapshot::from_json(&obj(vec![("BackendState", s("Running"))])).unwrap();
    assert!(snap.find_preferred_peer(&config("1", "alpha", "100.1.1.1", "")).is_none());
}

#[test]
fn status_output_parse_errors_are_reported() {
    let err = TailscaleSnapshot::from_status_output(Err("EOF while parsing a value".to_string()));
    assert_eq!(err.unwrap_err(), "failed to parse tailscale status json: EOF while parsing a value");
    let ok = TailscaleSnapshot::from_status_output(Ok(status(obj(vec![])))).unwrap();
    assert_eq!(ok.backend_state, "Running");
    assert_eq!(ok.self_dns, "laptop.ts.net");
}
