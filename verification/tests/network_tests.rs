use serde_json::Value;
use v2rayv::models::DetectedVpn;
use v2rayv::network::{
    choose_default_gateway, classify_vpn_type, collect_bypass_subnets, filter_dns_servers_by_subnet,
    ip_in_cidr, is_default_route, is_host_route, is_link_local, is_private_dns_ip,
    is_virtual_interface, is_vpn_interface, local_ip_from_addr_json, parse_resolv_conf, parse_routes, pick_local_ip,
    IpRoute,
};

fn field(obj: &serde_json::Map<String, Value>, key: &str) -> Result<Option<String>, ()> {
    match obj.get(key) {
        None | Some(Value::Null) => Ok(None),
        Some(Value::String(s)) => Ok(Some(s.clone())),
        Some(_) => Err(()),
    }
}

/// Reads `ip -j route show` output the way the application does: a JSON
/// array of route objects, nothing when it does not parse.
fn routes_from_json(json: &str) -> Option<Vec<IpRoute>> {
    let value: Value = serde_json::from_str(json).ok()?;
    let items = value.as_array()?;
    let mut routes = Vec::new();
    for item in items {
        let obj = item.as_object()?;
        routes.push(IpRoute {
            dst: field(obj, "dst").ok()?,
            dev: field(obj, "dev").ok()?,
            gateway: field(obj, "gateway").ok()?,
            protocol: field(obj, "protocol").ok()?,
            scope: field(obj, "scope").ok()?,
        });
    }
    Some(routes)
}

fn parse_routes_json(json: &str) -> Vec<DetectedVpn> {
    match routes_from_json(json) {
        Some(routes) => parse_routes(&routes),
        None => Vec::new(),
    }
}

fn route(dst: Option<&str>, dev: Option<&str>, gateway: Option<&str>, protocol: Option<&str>) -> IpRoute {
    IpRoute {
        dst: dst.map(|s| s.to_string()),
        dev: dev.map(|s| s.to_string()),
        gateway: gateway.map(|s| s.to_string()),
        protocol: protocol.map(|s| s.to_string()),
        scope: None,
    }
}

#[test]
fn test_parse_vpn_routes_with_tun() {
    let json = r#"[
        {"dst": "default", "gateway": "192.168.1.1", "dev": "wlp2s0", "protocol": "dhcp"},
        {"dst": "10.8.0.0/24", "dev": "tun0", "protocol": "kernel", "scope": "link"},
        {"dst": "172.20.0.0/16", "dev": "tun0", "gateway": "10.8.0.1", "protocol": "static"},
        {"dst": "192.168.1.0/24", "dev": "wlp2s0", "protocol": "kernel", "scope": "link"}
    ]"#;

    let vpns = parse_routes_json(json);
    assert_eq!(vpns.len(), 1);
    assert_eq!(vpns[0].interface, "tun0");
    assert_eq!(vpns[0].vpn_type, "OpenVPN");
    assert_eq!(vpns[0].subnets.len(), 2);
    assert!(vpns[0].subnets.contains(&"10.8.0.0/24".to_string()));
    assert!(vpns[0].subnets.contains(&"172.20.0.0/16".to_string()));
}

#[test]
fn test_parse_vpn_routes_wireguard() {
    let json = r#"[
        {"dst": "default", "gateway": "192.168.1.1", "dev": "eth0", "protocol": "dhcp"},
        {"dst": "10.0.0.0/8", "dev": "wg0", "protocol": "kernel", "scope": "link"},
        {"dst": "192.168.1.0/24", "dev": "eth0", "protocol": "kernel", "scope": "link"}
    ]"#;

    let vpns = parse_routes_json(json);
    assert_eq!(vpns.len(), 1);
    assert_eq!(vpns[0].interface, "wg0");
    assert_eq!(vpns[0].vpn_type, "WireGuard");
    assert_eq!(vpns[0].subnets, vec!["10.0.0.0/8"]);
}

#[test]
fn test_no_vpn_interfaces() {
    let json = r#"[
        {"dst": "default", "gateway": "192.168.1.1", "dev": "wlp2s0", "protocol": "dhcp"},
        {"dst": "192.168.1.0/24", "dev": "wlp2s0", "protocol": "kernel", "scope": "link"},
        {"dst": "169.254.0.0/16", "dev": "wlp2s0", "protocol": "kernel", "scope": "link"}
    ]"#;

    let vpns = parse_routes_json(json);
    assert!(vpns.is_empty());
}

#[test]
fn test_is_vpn_interface() {
    assert!(is_vpn_interface("tun0"));
    assert!(is_vpn_interface("tun1"));
    assert!(is_vpn_interface("tap0"));
    assert!(is_vpn_interface("wg0"));
    assert!(is_vpn_interface("wg1"));
    assert!(is_vpn_interface("ppp0"));
    assert!(is_vpn_interface("nordlynx"));
    assert!(is_vpn_interface("tailscale0"));

    assert!(!is_vpn_interface("eth0"));
    assert!(!is_vpn_interface("wlp2s0"));
    assert!(!is_vpn_interface("enp3s0"));
    assert!(!is_vpn_interface("lo"));
    assert!(!is_vpn_interface("docker0"));
    assert!(!is_vpn_interface("br-abc123"));
}

#[test]
fn test_skips_default_routes() {
    let json = r#"[
        {"dst": "default", "dev": "tun0", "gateway": "10.8.0.1"},
        {"dst": "0.0.0.0/0", "dev": "tun0", "gateway": "10.8.0.1"},
        {"dst": "0.0.0.0/1", "dev": "tun0", "gateway": "10.8.0.1"},
        {"dst": "128.0.0.0/1", "dev": "tun0", "gateway": "10.8.0.1"},
        {"dst": "10.8.0.0/24", "dev": "tun0", "protocol": "kernel", "scope": "link"}
    ]"#;

    let vpns = parse_routes_json(json);
    assert_eq!(vpns.len(), 1);
    assert_eq!(vpns[0].subnets, vec!["10.8.0.0/24"]);
}

#[test]
fn test_detects_server_endpoint() {
    let json = r#"[
        {"dst": "default", "gateway": "192.168.1.1", "dev": "wlp2s0", "protocol": "dhcp"},
        {"dst": "10.8.0.0/24", "dev": "tun0", "protocol": "kernel", "scope": "link"},
        {"dst": "185.100.50.25/32", "gateway": "192.168.1.1", "dev": "wlp2s0", "protocol": "static"},
        {"dst": "192.168.1.0/24", "dev": "wlp2s0", "protocol": "kernel", "scope": "link"}
    ]"#;

    let vpns = parse_routes_json(json);
    assert_eq!(vpns.len(), 1);
    assert_eq!(vpns[0].server_ip, Some("185.100.50.25".to_string()));
}

#[test]
fn test_collect_bypass_subnets() {
    let vpns = vec![
        DetectedVpn {
            interface: "tun0".to_string(),
            vpn_type: "OpenVPN".to_string(),
            subnets: vec!["10.8.0.0/24".to_string(), "172.20.0.0/16".to_string()],
            server_ip: Some("185.100.50.25".to_string()),
        },
        DetectedVpn {
            interface: "wg0".to_string(),
            vpn_type: "WireGuard".to_string(),
            subnets: vec!["10.0.0.0/8".to_string()],
            server_ip: None,
        },
    ];

    let subnets = collect_bypass_subnets(&vpns);
    assert!(subnets.contains(&"10.0.0.0/8".to_string()));
    assert!(subnets.contains(&"172.16.0.0/12".to_string()));
    assert!(subnets.contains(&"192.168.0.0/16".to_string()));
    assert!(subnets.contains(&"10.8.0.0/24".to_string()));
    assert!(subnets.contains(&"172.20.0.0/16".to_string()));
    assert!(subnets.contains(&"185.100.50.25/32".to_string()));
    assert_eq!(subnets.len(), 6);
}

#[test]
fn test_collect_bypass_subnets_deduplicates() {
    let vpns = vec![
        DetectedVpn {
            interface: "tun0".to_string(),
            vpn_type: "OpenVPN".to_string(),
            subnets: vec!["10.0.0.0/8".to_string()],
            server_ip: None,
        },
        DetectedVpn {
            interface: "wg0".to_string(),
            vpn_type: "WireGuard".to_string(),
            subnets: vec!["10.0.0.0/8".to_string()],
            server_ip: None,
        },
    ];

    let subnets = collect_bypass_subnets(&vpns);
    assert_eq!(subnets.len(), 3);
    assert!(subnets.contains(&"10.0.0.0/8".to_string()));
    assert!(subnets.contains(&"172.16.0.0/12".to_string()));
    assert!(subnets.contains(&"192.168.0.0/16".to_string()));
}

#[test]
fn test_empty_json_array() {
    let vpns = parse_routes_json("[]");
    assert!(vpns.is_empty());
}

#[test]
fn test_invalid_json() {
    let vpns = parse_routes_json("not json at all");
    assert!(vpns.is_empty());
}

#[test]
fn test_is_virtual_interface() {
    assert!(is_virtual_interface("docker0"));
    assert!(is_virtual_interface("br-abc123"));
    assert!(is_virtual_interface("veth12345"));
    assert!(is_virtual_interface("virbr0"));
    assert!(is_virtual_interface("lxcbr0"));

    assert!(!is_virtual_interface("eth0"));
    assert!(!is_virtual_interface("wlp2s0"));
    assert!(!is_virtual_interface("enp3s0"));
    assert!(!is_virtual_interface("lo"));
    assert!(!is_virtual_interface("tun0"));
}

#[test]
fn test_ip_in_cidr() {
    assert!(ip_in_cidr("10.6.4.36", "10.6.0.0/16"));
    assert!(ip_in_cidr("10.6.4.36", "10.0.0.0/8"));
    assert!(ip_in_cidr("10.6.255.255", "10.6.0.0/16"));
    assert!(ip_in_cidr("192.168.1.1", "192.168.1.0/24"));

    assert!(!ip_in_cidr("10.7.0.1", "10.6.0.0/16"));
    assert!(!ip_in_cidr("192.168.1.1", "10.6.0.0/16"));
    assert!(!ip_in_cidr("not-an-ip", "10.0.0.0/8"));
    assert!(!ip_in_cidr("10.6.4.36", "not-a-cidr"));
}

#[test]
fn test_filter_dns_servers_by_subnet() {
    let dns = vec![
        "10.6.4.36".to_string(),
        "10.6.8.36".to_string(),
        "192.168.1.1".to_string(),
    ];
    let subnets = vec!["10.6.0.0/16".to_string(), "10.201.0.0/16".to_string()];
    let filtered = filter_dns_servers_by_subnet(&dns, &subnets);
    assert_eq!(filtered, vec!["192.168.1.1"]);
}

#[test]
fn test_filter_dns_servers_no_subnets() {
    let dns = vec!["10.6.4.36".to_string(), "192.168.1.1".to_string()];
    let filtered = filter_dns_servers_by_subnet(&dns, &[]);
    assert_eq!(filtered, dns);
}

#[test]
fn test_filter_dns_servers_all_removed() {
    let dns = vec!["10.6.4.36".to_string()];
    let subnets = vec!["10.0.0.0/8".to_string()];
    let filtered = filter_dns_servers_by_subnet(&dns, &subnets);
    assert!(filtered.is_empty());
}

#[test]
fn test_is_private_dns_ip() {
    assert!(is_private_dns_ip("10.8.0.1"));
    assert!(is_private_dns_ip("10.0.0.1"));
    assert!(is_private_dns_ip("10.255.255.255"));
    assert!(is_private_dns_ip("172.16.0.1"));
    assert!(is_private_dns_ip("172.31.255.255"));
    assert!(is_private_dns_ip("192.168.1.1"));
    assert!(is_private_dns_ip("192.168.0.1"));

    assert!(!is_private_dns_ip("1.1.1.1"));
    assert!(!is_private_dns_ip("8.8.8.8"));
    assert!(!is_private_dns_ip("172.15.0.1"));
    assert!(!is_private_dns_ip("172.32.0.1"));
    assert!(!is_private_dns_ip("not-an-ip"));
    assert!(!is_private_dns_ip(""));
}

#[test]
fn test_parse_resolv_conf_private_only() {
    let content = "\
nameserver 10.8.0.1
nameserver 1.1.1.1
nameserver 8.8.8.8
";
    let servers = parse_resolv_conf(content);
    assert_eq!(servers, vec!["10.8.0.1"]);
}

#[test]
fn test_parse_resolv_conf_no_private() {
    let content = "\
nameserver 1.1.1.1
nameserver 8.8.8.8
";
    let servers = parse_resolv_conf(content);
    assert!(servers.is_empty());
}

#[test]
fn test_parse_resolv_conf_multiple_private() {
    let content = "\
nameserver 10.8.0.1
nameserver 192.168.1.1
nameserver 1.1.1.1
";
    let servers = parse_resolv_conf(content);
    assert_eq!(servers, vec!["10.8.0.1", "192.168.1.1"]);
}

#[test]
fn test_parse_resolv_conf_deduplicates() {
    let content = "\
nameserver 10.8.0.1
nameserver 10.8.0.1
";
    let servers = parse_resolv_conf(content);
    assert_eq!(servers.len(), 1);
    assert_eq!(servers[0], "10.8.0.1");
}

#[test]
fn test_parse_resolv_conf_ignores_comments_and_other_lines() {
    let content = "\
# Generated by vpn
search example.com
domain example.com
nameserver 10.8.0.1
options ndots:5
";
    let servers = parse_resolv_conf(content);
    assert_eq!(servers, vec!["10.8.0.1"]);
}

#[test]
fn test_host_route_bare_ip() {
    let json = r#"[
        {"dst": "10.8.0.0/24", "dev": "tun0", "protocol": "kernel", "scope": "link"},
        {"dst": "203.0.113.5", "gateway": "192.168.1.1", "dev": "eth0", "protocol": "static"}
    ]"#;

    let vpns = parse_routes_json(json);
    assert_eq!(vpns.len(), 1);
    assert_eq!(vpns[0].server_ip, Some("203.0.113.5".to_string()));
}

// ---------------------------------------------------------------------------

#[test]
fn bypass_subnets_empty_without_vpn() {
    assert!(collect_bypass_subnets(&[]).is_empty());
}

#[test]
fn bypass_subnets_are_sorted_and_unique() {
    let vpns = vec![DetectedVpn {
        interface: "wg0".to_string(),
        vpn_type: "WireGuard".to_string(),
        subnets: vec!["172.20.0.0/16".to_string(), "10.8.0.0/24".to_string(), "10.8.0.0/24".to_string()],
        server_ip: Some("10.9.9.0/24".to_string()),
    }];
    let subnets = collect_bypass_subnets(&vpns);
    let mut expected = subnets.clone();
    expected.sort();
    expected.dedup();
    assert_eq!(subnets, expected);
    // A server address that already has a prefix is kept as it is.
    assert!(subnets.contains(&"10.9.9.0/24".to_string()));
    assert_eq!(subnets.len(), 6);
}

#[test]
fn vpn_types_by_interface_name() {
    assert_eq!(classify_vpn_type("tun0"), "OpenVPN");
    assert_eq!(classify_vpn_type("wg0"), "WireGuard");
    assert_eq!(classify_vpn_type("ppp0"), "PPP/L2TP");
    assert_eq!(classify_vpn_type("tap0"), "OpenVPN (TAP)");
    assert_eq!(classify_vpn_type("nordlynx"), "NordVPN");
    assert_eq!(classify_vpn_type("tailscale0"), "Tailscale");
}

#[test]
fn default_and_host_routes() {
    assert!(is_default_route("default"));
    assert!(is_default_route("0.0.0.0/0"));
    assert!(is_default_route("128.0.0.0/1"));
    assert!(!is_default_route("10.0.0.0/8"));
    assert!(is_host_route("1.2.3.4/32"));
    assert!(is_host_route("1.2.3.4"));
    assert!(!is_host_route("1.2.3.0/24"));
    assert!(!is_host_route("1.2.3"));
    assert!(!is_host_route("1.2.3.256"));
}

#[test]
fn link_local_addresses() {
    assert!(is_link_local("169.254.10.1"));
    assert!(!is_link_local("192.168.1.10"));
}

#[test]
fn default_gateway_prefers_physical_interface() {
    let routes = vec![
        route(Some("default"), Some("tun0"), Some("10.8.0.1"), None),
        route(Some("default"), Some("docker0"), Some("172.17.0.1"), None),
        route(Some("default"), Some("eth0"), Some("192.168.1.1"), None),
    ];
    assert_eq!(
        choose_default_gateway(&routes),
        Some(("192.168.1.1".to_string(), "eth0".to_string()))
    );
    let only_vpn = vec![route(Some("default"), Some("tun0"), Some("10.8.0.1"), None)];
    assert_eq!(
        choose_default_gateway(&only_vpn),
        Some(("10.8.0.1".to_string(), "tun0".to_string()))
    );
    assert_eq!(choose_default_gateway(&[route(Some("default"), Some("eth0"), None, None)]), None);
}

#[test]
fn local_ip_skips_link_local() {
    let ips = vec!["169.254.3.4".to_string(), "192.168.1.20".to_string()];
    assert_eq!(pick_local_ip(&ips), Some("192.168.1.20".to_string()));
    assert_eq!(pick_local_ip(&["169.254.3.4".to_string()]), None);
}

#[test]
fn private_dns_needs_four_numeric_octets() {
    assert!(!is_private_dns_ip("10.x.1.2.3"));
    assert!(!is_private_dns_ip("10.1.2"));
    assert!(!is_private_dns_ip("10.0.0.1.5"));
    assert!(!is_private_dns_ip("192.168.1.256"));
    assert!(is_private_dns_ip("172.20.3.4"));
}

#[test]
fn local_ip_from_ip_addr_output() {
    let out = br#"[{"ifindex":2,"ifname":"eth0","addr_info":[{"family":"inet","local":"169.254.1.2","prefixlen":16},{"family":"inet","local":"192.168.1.5","prefixlen":24}]}]"#;
    assert_eq!(local_ip_from_addr_json(out), Some("192.168.1.5".to_string()));
    assert_eq!(local_ip_from_addr_json(b"[]"), None);
    assert_eq!(local_ip_from_addr_json(b"not json"), None);
    assert_eq!(local_ip_from_addr_json(br#"[{"ifname":"eth0"}]"#), None);
    assert_eq!(local_ip_from_addr_json(br#"[{"addr_info":[{"local":"169.254.0.9"}]}]"#), None);
    assert_eq!(local_ip_from_addr_json(br#"[{"addr_info":[{"local":7},{"local":"10.0.0.2"}]}]"#), Some("10.0.0.2".to_string()));
}
