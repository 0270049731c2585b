use v2rayv::network::IpRoute;
use v2rayv::tun::{
    detect_default_gateway, hev_config, is_valid_iface, is_valid_ip, manual_cleanup_commands,
    plan_force_cleanup, plan_start_tun, resolve_helper, saved_route_args_of, stop_tun_args,
    ForceCleanup, INSTALLED_HELPER,
};

#[test]
fn ip_and_interface_checks() {
    assert!(is_valid_ip("192.168.1.1"));
    assert!(is_valid_ip("0.0.0.0"));
    assert!(is_valid_ip("+1.2.3.4"));
    assert!(!is_valid_ip("1.2.3"));
    assert!(!is_valid_ip("1.2.3.4.5"));
    assert!(!is_valid_ip("1.2.3.256"));
    assert!(!is_valid_ip("1.2.3.4; rm -rf /"));
    assert!(!is_valid_ip(""));
    assert!(is_valid_iface("eth0"));
    assert!(is_valid_iface("wlp2s0_x-1"));
    assert!(!is_valid_iface(""));
    assert!(!is_valid_iface("a234567890123456x"));
    assert!(is_valid_iface("a234567890123456"));
    assert!(!is_valid_iface("eth0;reboot"));
    assert!(!is_valid_iface("é"));
}

#[test]
fn start_plan_and_saved_file() {
    let subnets = vec![" 10.0.0.0/8 ".to_string(), "".to_string(), "172.16.0.0/12".to_string()];
    let plan = plan_start_tun(
        "/usr/local/bin/v2rayv-helper",
        "/opt/hev",
        "/data/hev_config.yml",
        "/data/hev.pid",
        10808,
        "45.1.2.3",
        &subnets,
        "192.168.1.1",
        "eth0",
        "192.168.1.20",
        4242,
    )
    .unwrap();
    assert_eq!(plan.gateway_file, "45.1.2.3\n192.168.1.1\neth0\n192.168.1.20");
    assert_eq!(
        plan.args,
        vec![
            "/usr/local/bin/v2rayv-helper", "start", "/opt/hev", "/data/hev_config.yml",
            "/data/hev.pid", "rvpn0", "198.18.0.1/15", "8500", "198.18.0.0", "45.1.2.3",
            "192.168.1.1", "eth0", "4242", "192.168.1.20", "10.0.0.0/8", "172.16.0.0/12",
        ]
    );
    assert!(plan.hev_config.contains("  port: 10808\n"));
    assert!(plan.hev_config.contains("  pid-file: /data/hev.pid\n"));
    assert_eq!(plan.hev_config, hev_config(10808, "/data/hev.pid"));

    // What the stop reads back from the saved file.
    let stop = stop_tun_args("h", "/data/hev.pid", Some(&plan.gateway_file));
    assert_eq!(
        stop,
        vec!["h", "stop", "/data/hev.pid", "rvpn0", "198.18.0.0", "45.1.2.3", "192.168.1.1", "eth0", "192.168.1.20"]
    );
}

#[test]
fn start_needs_local_ip() {
    let err = plan_start_tun("h", "b", "c", "p", 1, "1.1.1.1", &[], "g", "d", "", 1).err().unwrap();
    assert_eq!(
        err.to_string(),
        "Configuration error: Failed to detect local IP address for TUN routing. Cannot start TUN mode."
    );
}

#[test]
fn hev_config_text() {
    assert_eq!(
        hev_config(1080, "/p"),
        "tunnel:\n  name: rvpn0\n  mtu: 8500\n\nsocks5:\n  port: 1080\n  address: 127.0.0.1\n  udp: 'udp'\n\nmisc:\n  task-stack-size: 81920\n  connect-timeout: 5000\n  read-write-timeout: 60000\n  log-level: warn\n  pid-file: /p\n  limit-nofile: 65535\n"
    );
}

#[test]
fn saved_file_is_checked() {
    assert_eq!(saved_route_args_of("1.1.1.1\n2.2.2.2\neth0"), vec!["1.1.1.1", "2.2.2.2", "eth0"]);
    assert_eq!(saved_route_args_of("1.1.1.1\r\n2.2.2.2\r\neth0\r\nbad"), vec!["1.1.1.1", "2.2.2.2", "eth0"]);
    assert!(saved_route_args_of("1.1.1.1\n2.2.2.2").is_empty());
    assert!(saved_route_args_of("1.1.1.1\n$(reboot)\neth0\n3.3.3.3").is_empty());
    assert_eq!(stop_tun_args("h", "p", None), vec!["h", "stop", "p", "rvpn0", "198.18.0.0"]);
}

#[test]
fn helper_location() {
    assert_eq!(resolve_helper(true, Some("/dev/helper")).unwrap(), INSTALLED_HELPER);
    assert_eq!(resolve_helper(false, Some("/dev/helper")).unwrap(), "/dev/helper");
    assert_eq!(
        resolve_helper(false, None).unwrap_err().to_string(),
        "Configuration error: v2rayv-helper not found. Run: sudo ./scripts/install-helper.sh"
    );
}

#[test]
fn tunnel_gateway_skips_vpn_only() {
    let r = |dev: &str, gw: Option<&str>| IpRoute {
        dst: Some("default".to_string()),
        dev: Some(dev.to_string()),
        gateway: gw.map(|g| g.to_string()),
        protocol: None,
        scope: None,
    };
    let routes = vec![r("wg0", Some("10.0.0.1")), r("docker0", Some("172.17.0.1")), r("eth0", Some("192.168.1.1"))];
    assert_eq!(
        detect_default_gateway(&routes).unwrap(),
        ("172.17.0.1".to_string(), "docker0".to_string())
    );
    assert_eq!(
        detect_default_gateway(&[r("wg0", Some("10.0.0.1"))]).unwrap(),
        ("10.0.0.1".to_string(), "wg0".to_string())
    );
    assert_eq!(
        detect_default_gateway(&[r("eth0", None)]).unwrap_err().to_string(),
        "Configuration error: No default gateway found"
    );
}

#[test]
fn manual_cleanup() {
    let cmds = manual_cleanup_commands();
    assert_eq!(cmds.len(), 4);
    assert_eq!(cmds[0], vec!["pkill", "-f", "hev-socks5-tunnel"]);
    assert_eq!(cmds[3], vec!["ip", "link", "del", "rvpn0"]);
}

#[test]
fn forced_cleanup_plan() {
    let saved = "5.6.7.8\n192.168.1.1\neth0\n192.168.1.20\n";
    match plan_force_cleanup(Ok("/usr/lib/v2rayv/helper".to_string()), "/cfg/hev.pid", Some(saved)) {
        ForceCleanup::Helper(args) => {
            assert_eq!(args, stop_tun_args("/usr/lib/v2rayv/helper", "/cfg/hev.pid", Some(saved)));
            assert_eq!(args[0], "/usr/lib/v2rayv/helper");
            assert_eq!(args[1], "stop");
        }
        ForceCleanup::Manual(_) => panic!("a helper was given"),
    }
    let missing = resolve_helper(false, None);
    match plan_force_cleanup(missing, "/cfg/hev.pid", None) {
        ForceCleanup::Manual(cmds) => assert_eq!(cmds, manual_cleanup_commands()),
        ForceCleanup::Helper(_) => panic!("no helper was given"),
    }
}
