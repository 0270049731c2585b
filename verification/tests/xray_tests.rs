use v2rayv::models::{ConnectionStatus, DetectedVpn, RealitySettings, ServerConfig, SpeedStats, VirtualNetSettings};
use v2rayv::xray::{
    choose_stats_output, is_sudo_rejection, parse_stats_entries, virtualnet_enabled, StatEntry,
    stat_entries_of,
    XrayAction, XrayEvent, XrayManager, DEFAULT_SOCKS_PORT, MAX_LOG_ENTRIES,
};

fn server() -> ServerConfig {
    ServerConfig {
        id: "id-1".to_string(),
        name: "Srv".to_string(),
        address: "1.2.3.4".to_string(),
        port: 443,
        uuid: "aaaaaaaa-bbbb-cccc-dddd-eeeeeeeeeeee".to_string(),
        flow: "xtls-rprx-vision".to_string(),
        reality: RealitySettings::default(),
        virtualnet: None,
        subscription_id: None,
    }
}

fn l3_server() -> ServerConfig {
    ServerConfig {
        virtualnet: Some(VirtualNetSettings {
            enabled: true,
            subnet: "10.0.0.0/24".to_string(),
            vnet_ip: "10.0.0.5".to_string(),
            default_route: true,
            interface_name: None,
            mtu: None,
        }),
        ..server()
    }
}

fn out(line: &str) -> XrayEvent {
    XrayEvent::Stdout(line.as_bytes().to_vec())
}

fn err(line: &str) -> XrayEvent {
    XrayEvent::Stderr(line.as_bytes().to_vec())
}

#[test]
fn fresh_manager_is_disconnected() {
    let m = XrayManager::new();
    let s = m.status();
    assert_eq!(s.status, ConnectionStatus::Disconnected);
    assert!(s.server_name.is_none());
    assert!(m.get_logs().is_empty());
    assert_eq!(m.socks_port(), DEFAULT_SOCKS_PORT);
    assert_eq!(m.cached_stats().total_upload, 0);
    let d = XrayManager::default();
    assert_eq!(d.status().status, ConnectionStatus::Disconnected);
    assert!(!d.is_connected() && !d.l3_mode());
}

#[test]
fn start_then_started_line_connects_once() {
    let mut m = XrayManager::new();
    m.begin_start(&server()).unwrap();
    assert_eq!(m.status().status, ConnectionStatus::Connecting);
    assert_eq!(m.status().server_name.as_deref(), Some("Srv"));
    assert!(m.begin_start(&server()).is_err());

    assert_eq!(m.handle_event(&out("  Xray 1.8 starting "), "Srv", "1.2.3.4", 10), XrayAction::Nothing);
    assert_eq!(
        m.handle_event(&out("Xray 1.8 started"), "Srv", "1.2.3.4", 11),
        XrayAction::Connected { enable_proxy: true }
    );
    let s = m.status();
    assert_eq!(s.status, ConnectionStatus::Connected);
    assert_eq!(s.connected_since, Some(11));
    assert_eq!(m.handle_event(&out("started again"), "Srv", "1.2.3.4", 12), XrayAction::Nothing);
    assert_eq!(m.status().connected_since, Some(11));
    let logs = m.get_logs();
    assert_eq!(logs.len(), 3);
    assert_eq!(logs[0].message, "Xray 1.8 starting");
    assert_eq!(logs[0].level, "info");
    // Once up, a timeout does nothing.
    assert!(!m.on_connect_timeout(30));
    assert_eq!(m.status().status, ConnectionStatus::Connected);
    let e = m.begin_start(&server()).unwrap_err();
    assert_eq!(e.to_string(), "xray process error: Already connected or connecting");
}

#[test]
fn stderr_levels() {
    let mut m = XrayManager::new();
    m.begin_start(&server()).unwrap();
    m.handle_event(&err("[Warning] something"), "Srv", "1.2.3.4", 1);
    m.handle_event(&err("[Error] bad"), "Srv", "1.2.3.4", 2);
    m.handle_event(&err("plain"), "Srv", "1.2.3.4", 3);
    let levels: Vec<String> = m.get_logs().iter().map(|e| e.level.clone()).collect();
    assert_eq!(levels, vec!["warning", "error", "info"]);
}

#[test]
fn l3_connection_leaves_system_proxy_alone() {
    let mut m = XrayManager::new();
    m.begin_start(&l3_server()).unwrap();
    assert!(m.l3_mode());
    assert_eq!(
        m.handle_event(&err("core: Xray started"), "Srv", "1.2.3.4", 5),
        XrayAction::Connected { enable_proxy: false }
    );
    assert_eq!(
        m.handle_event(&XrayEvent::Terminated { code: Some(0), signal: None }, "Srv", "1.2.3.4", 6),
        XrayAction::Terminated { disable_proxy: false }
    );
}

#[test]
fn unexpected_exit_is_an_error() {
    let mut m = XrayManager::new();
    m.begin_start(&server()).unwrap();
    m.handle_event(&out("started"), "Srv", "1.2.3.4", 1);
    let a = m.handle_event(&XrayEvent::Terminated { code: Some(-9), signal: Some(9) }, "Srv", "1.2.3.4", 2);
    assert_eq!(a, XrayAction::Terminated { disable_proxy: true });
    let s = m.status();
    assert_eq!(s.status, ConnectionStatus::Error);
    assert_eq!(s.error_message.as_deref(), Some("xray exited unexpectedly (code: Some(-9))"));
    assert!(s.connected_since.is_none());
    let last = m.get_logs().pop().unwrap();
    assert_eq!(last.message, "xray terminated (code: Some(-9), signal: Some(9))");
    assert_eq!(last.level, "warning");
    // After an error a new start is allowed.
    assert!(m.begin_start(&server()).is_ok());
}

#[test]
fn stop_sequence() {
    let mut m = XrayManager::new();
    m.begin_start(&server()).unwrap();
    m.handle_event(&out("started"), "Srv", "1.2.3.4", 1);
    m.record_stats(100, 200);
    m.begin_stop();
    assert_eq!(m.status().status, ConnectionStatus::Disconnecting);
    m.handle_event(&XrayEvent::Terminated { code: None, signal: Some(9) }, "Srv", "1.2.3.4", 2);
    assert_eq!(m.status().status, ConnectionStatus::Disconnected);
    m.finish_stop();
    let s = m.status();
    assert_eq!(s.status, ConnectionStatus::Disconnected);
    assert!(s.server_name.is_none() && s.server_address.is_none() && s.error_message.is_none());
    assert_eq!(m.cached_stats().total_download, 0);
}

#[test]
fn timeout_while_connecting() {
    let mut m = XrayManager::new();
    m.begin_start(&server()).unwrap();
    assert!(m.on_connect_timeout(15));
    let s = m.status();
    assert_eq!(s.status, ConnectionStatus::Error);
    assert_eq!(
        s.error_message.as_deref(),
        Some("Connection timeout — server unreachable or config invalid")
    );
    assert_eq!(m.get_logs().pop().unwrap().message, "Connection timeout after 15 seconds");
    // A late "started" does not bring it up.
    assert_eq!(m.handle_event(&out("started"), "Srv", "1.2.3.4", 16), XrayAction::Nothing);
    assert_eq!(m.status().status, ConnectionStatus::Error);
}

#[test]
fn log_keeps_the_newest_entries() {
    let mut m = XrayManager::new();
    for i in 0..(MAX_LOG_ENTRIES + 5) {
        m.push_log("info", &format!("line {i}"), i as u64);
    }
    let logs = m.get_logs();
    assert_eq!(logs.len(), MAX_LOG_ENTRIES);
    assert_eq!(logs[0].message, "line 5");
    assert_eq!(logs[MAX_LOG_ENTRIES - 1].message, format!("line {}", MAX_LOG_ENTRIES + 4));
    m.clear_logs();
    assert!(m.get_logs().is_empty());
}

#[test]
fn speeds_are_deltas() {
    let mut m = XrayManager::new();
    let a = m.record_stats(1000, 5000);
    assert_eq!((a.upload_speed, a.download_speed, a.total_upload, a.total_download), (1000, 5000, 1000, 5000));
    let b = m.record_stats(1500, 5200);
    assert_eq!((b.upload_speed, b.download_speed), (500, 200));
    let c = m.record_stats(10, 5200);
    assert_eq!((c.upload_speed, c.download_speed, c.total_upload), (0, 0, 10));
    assert_eq!(m.cached_stats(), c);
}

#[test]
fn stats_output_parsing() {
    let entries = vec![
        StatEntry { name: "outbound>>>proxy>>>traffic>>>uplink".to_string(), number: Some(11), text: None },
        StatEntry { name: "outbound>>>direct>>>traffic>>>uplink".to_string(), number: Some(99), text: None },
        StatEntry { name: "outbound>>>proxy>>>traffic>>>downlink".to_string(), number: None, text: Some("42".to_string()) },
    ];
    assert_eq!(parse_stats_entries(&entries), (11, 42));
    let bad = vec![StatEntry { name: "outbound>>>proxy>>>traffic>>>uplink".to_string(), number: None, text: Some("x".to_string()) }];
    assert_eq!(parse_stats_entries(&bad), (0, 0));
    assert_eq!(parse_stats_entries(&[]), (0, 0));
    assert_eq!(choose_stats_output("a>>>b", "err"), "a>>>b");
    assert_eq!(choose_stats_output("{}", "err"), "err");
}

#[test]
fn environment_is_recorded() {
    let mut m = XrayManager::new();
    let vpn = DetectedVpn { interface: "wg0".to_string(), vpn_type: "WireGuard".to_string(), subnets: vec![], server_ip: None };
    m.record_environment(vec![vpn], vec!["10.0.0.0/8".to_string()], &["a.com".to_string()]);
    assert_eq!(m.get_detected_vpns().len(), 1);
    assert_eq!(m.bypass_subnets(), vec!["10.0.0.0/8"]);
    assert_eq!(m.bypass_domains(), vec!["a.com"]);
}

#[test]
fn virtualnet_needs_enabled_flag() {
    assert!(virtualnet_enabled(&server()).is_none());
    assert!(virtualnet_enabled(&l3_server()).is_some());
    let mut off = l3_server();
    off.virtualnet.as_mut().unwrap().enabled = false;
    assert!(virtualnet_enabled(&off).is_none());
}

#[test]
fn sudo_rejections() {
    assert!(is_sudo_rejection("Sorry, try again."));
    assert!(is_sudo_rejection("sudo: 3 incorrect password attempts"));
    assert!(is_sudo_rejection("SUDO: 1 INCORRECT PASSWORD ATTEMPT"));
    assert!(!is_sudo_rejection("Xray started"));
}

#[test]
fn sudo_stderr_and_exit() {
    let mut m = XrayManager::new();
    m.begin_start(&l3_server()).unwrap();
    let msg = "Saved sudo password is no longer valid — please re-enter it next time you connect.";
    let a = m.handle_sudo_stderr(b"Sorry, try again.\n", msg, "Srv", "1.2.3.4", 3);
    assert_eq!(a, XrayAction::SudoRejected);
    let last = m.get_logs().pop().unwrap();
    assert_eq!((last.level.as_str(), last.message.as_str()), ("error", msg));
    assert_eq!(m.status().status, ConnectionStatus::Connecting);
    let b = m.handle_sudo_stderr(b"[Warning] core: Xray 1.8 started", msg, "Srv", "1.2.3.4", 4);
    assert_eq!(b, XrayAction::Connected { enable_proxy: false });
    assert_eq!(m.get_logs().pop().unwrap().level, "warning");
    m.handle_sudo_exit(Some(1), 5);
    let s = m.status();
    assert_eq!(s.status, ConnectionStatus::Error);
    assert_eq!(s.error_message.as_deref(), Some("xray exited unexpectedly (code: Some(1))"));
    assert_eq!(m.get_logs().pop().unwrap().message, "xray terminated (code: Some(1))");
}

#[test]
fn traffic_checks() {
    let mut m = XrayManager::new();
    assert_eq!(m.check_traffic(false, 1), None);
    m.begin_start(&server()).unwrap();
    m.handle_event(&out("started"), "Srv", "1.2.3.4", 1);
    assert_eq!(m.check_traffic(false, 2), Some(true));
    assert_eq!(
        m.get_logs().pop().unwrap().message,
        "[verify] No traffic detected after 5s — VPN may not be routing correctly"
    );
    assert_eq!(m.check_traffic(true, 3), Some(false));
    assert_eq!(m.get_logs().pop().unwrap().level, "error");
    m.record_stats(12, 34);
    assert_eq!(m.check_traffic(false, 4), Some(false));
    assert_eq!(
        m.get_logs().pop().unwrap().message,
        "[verify] Traffic flowing — upload: 12 bytes, download: 34 bytes"
    );
    m.check_traffic(true, 5);
    assert_eq!(
        m.get_logs().pop().unwrap().message,
        "[verify] Traffic detected after 15s — upload: 12 bytes, download: 34 bytes"
    );
}

#[test]
fn stats_output_parsed_from_json() {
    let out = r#"{"stat":[{"name":"outbound>>>proxy>>>traffic>>>uplink","value":"123"},{"name":"outbound>>>proxy>>>traffic>>>downlink","value":456},{"name":"outbound>>>direct>>>traffic>>>uplink","value":9}]}"#;
    assert_eq!(XrayManager::parse_stats_output(out), (123, 456));
    assert_eq!(XrayManager::parse_stats_output("not json"), (0, 0));
    assert_eq!(XrayManager::parse_stats_output("{}"), (0, 0));
    assert_eq!(XrayManager::parse_stats_output(r#"{"stat":{}}"#), (0, 0));
    let odd = r#"{"stat":[{"name":"outbound>>>proxy>>>traffic>>>uplink","value":-5},{"name":"outbound>>>proxy>>>traffic>>>downlink","value":1.5}]}"#;
    assert_eq!(XrayManager::parse_stats_output(odd), (0, 0));
    let big = r#"{"stat":[{"name":"outbound>>>proxy>>>traffic>>>uplink","value":18446744073709551615}]}"#;
    assert_eq!(XrayManager::parse_stats_output(big), (18446744073709551615, 0));
    assert!(stat_entries_of(&None).is_empty());
}

#[test]
fn failed_poll_answers_cached_stats() {
    let m = XrayManager::new();
    let polled = SpeedStats { upload_speed: 1, download_speed: 2, total_upload: 3, total_download: 4 };
    assert_eq!(m.stats_or_cached(Some(polled)), polled);
    assert_eq!(m.stats_or_cached(None), m.cached_stats());
}
