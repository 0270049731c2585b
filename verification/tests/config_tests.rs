use serde_json::Value;
use v2rayv::config::{client_config_text, generate_client_config};
use v2rayv::json::Json;
use v2rayv::models::{RealitySettings, ServerConfig};

fn to_value(j: &Json) -> Value {
    match j {
        Json::Null => Value::Null,
        Json::Bool(b) => Value::Bool(*b),
        Json::Num(n) => Value::from(*n),
        Json::NumText(t) => t.parse::<serde_json::Number>().map(Value::Number).unwrap_or(Value::Null),
        Json::Str(s) => Value::String(s.clone()),
        Json::Arr(v) => Value::Array(v.iter().map(to_value).collect()),
        Json::Obj(m) => {
            let mut map = serde_json::Map::new();
            for (k, v) in m {
                map.insert(k.clone(), to_value(v));
            }
            Value::Object(map)
        }
    }
}

/// The configuration as the application writes it: pretty-printed JSON.
fn config_text(
    server: &ServerConfig,
    socks_port: u16,
    bypass_domains: &[String],
    bypass_subnets: &[String],
    send_through: Option<&str>,
    vpn_dns_servers: &[String],
) -> String {
    client_config_text(server, socks_port, bypass_domains, bypass_subnets, send_through, vpn_dns_servers)
}

#[test]
fn test_generate_config() {
    let server = ServerConfig {
        id: "test-config-id".to_string(),
        name: "Test Server".to_string(),
        address: "45.151.233.107".to_string(),
        port: 443,
        uuid: "b472a988-1cd7-4221-b76f-9cea35f2df2f".to_string(),
        flow: "xtls-rprx-vision".to_string(),
        reality: RealitySettings {
            public_key: "kieJgZYLW9ZiKbGLpKnv4XyVo6_42inSONJrr-96tUU".to_string(),
            short_id: "d64736262cd50811".to_string(),
            server_name: "www.microsoft.com".to_string(),
            fingerprint: "chrome".to_string(),
        },
        virtualnet: None,
        subscription_id: None,
    };

    let config_str = config_text(&server, 10808, &[], &[], None, &[]);
    let config: Value = serde_json::from_str(&config_str).unwrap();

    assert_eq!(config["inbounds"][0]["port"], 10808);
    assert_eq!(config["inbounds"][0]["listen"], "127.0.0.1");
    assert_eq!(config["inbounds"][0]["protocol"], "socks");

    let vnext = &config["outbounds"][0]["settings"]["vnext"][0];
    assert_eq!(vnext["address"], "45.151.233.107");
    assert_eq!(vnext["port"], 443);
    assert_eq!(
        vnext["users"][0]["id"],
        "b472a988-1cd7-4221-b76f-9cea35f2df2f"
    );
    assert_eq!(vnext["users"][0]["flow"], "xtls-rprx-vision");

    let reality = &config["outbounds"][0]["streamSettings"]["realitySettings"];
    assert_eq!(
        reality["publicKey"],
        "kieJgZYLW9ZiKbGLpKnv4XyVo6_42inSONJrr-96tUU"
    );
    assert_eq!(reality["shortId"], "d64736262cd50811");
    assert_eq!(reality["serverName"], "www.microsoft.com");
    assert_eq!(reality["fingerprint"], "chrome");

    let dns = config["dns"]["servers"].as_array().unwrap();
    assert_eq!(dns[0], "localhost");
    assert_eq!(dns[1], "1.1.1.1");
    assert_eq!(dns[2], "8.8.8.8");
}

#[test]
fn test_config_custom_socks_port() {
    let server = ServerConfig::default();
    let config_str = config_text(&server, 1080, &[], &[], None, &[]);
    let config: Value = serde_json::from_str(&config_str).unwrap();

    assert_eq!(config["inbounds"][0]["port"], 1080);
}

#[test]
fn test_config_has_required_outbounds() {
    let server = ServerConfig::default();
    let config_str = config_text(&server, 10808, &[], &[], None, &[]);
    let config: Value = serde_json::from_str(&config_str).unwrap();

    let outbounds = config["outbounds"].as_array().unwrap();
    assert_eq!(outbounds.len(), 3);

    assert_eq!(outbounds[0]["tag"], "proxy");
    assert_eq!(outbounds[0]["protocol"], "vless");

    assert_eq!(outbounds[1]["tag"], "direct");
    assert_eq!(outbounds[1]["protocol"], "freedom");

    assert_eq!(outbounds[2]["tag"], "block");
    assert_eq!(outbounds[2]["protocol"], "blackhole");
}

#[test]
fn test_config_reality_security() {
    let server = ServerConfig::default();
    let config_str = config_text(&server, 10808, &[], &[], None, &[]);
    let config: Value = serde_json::from_str(&config_str).unwrap();

    let stream = &config["outbounds"][0]["streamSettings"];
    assert_eq!(stream["network"], "tcp");
    assert_eq!(stream["security"], "reality");
    assert_eq!(stream["realitySettings"]["show"], false);
}

#[test]
fn test_config_encryption_is_none() {
    let server = ServerConfig::default();
    let config_str = config_text(&server, 10808, &[], &[], None, &[]);
    let config: Value = serde_json::from_str(&config_str).unwrap();

    let user = &config["outbounds"][0]["settings"]["vnext"][0]["users"][0];
    assert_eq!(user["encryption"], "none");
}

#[test]
fn test_config_routing_rules() {
    let server = ServerConfig::default();
    let config_str = config_text(&server, 10808, &[], &[], None, &[]);
    let config: Value = serde_json::from_str(&config_str).unwrap();

    assert_eq!(config["routing"]["domainStrategy"], "IPIfNonMatch");
    let rules = config["routing"]["rules"].as_array().unwrap();
    assert_eq!(rules.len(), 2);
    assert_eq!(rules[0]["outboundTag"], "direct");
    assert!(rules[0]["domain"]
        .as_array()
        .unwrap()
        .contains(&Value::String("localhost".to_string())));
    assert_eq!(rules[1]["outboundTag"], "direct");
    let ips = rules[1]["ip"].as_array().unwrap();
    assert!(ips.contains(&Value::String("127.0.0.0/8".to_string())));
    assert!(ips.contains(&Value::String("10.0.0.0/8".to_string())));
    assert!(ips.contains(&Value::String("192.168.0.0/16".to_string())));
}

#[test]
fn test_config_sniffing_enabled() {
    let server = ServerConfig::default();
    let config_str = config_text(&server, 10808, &[], &[], None, &[]);
    let config: Value = serde_json::from_str(&config_str).unwrap();

    let sniffing = &config["inbounds"][0]["sniffing"];
    assert_eq!(sniffing["enabled"], true);
    let overrides = sniffing["destOverride"].as_array().unwrap();
    assert!(overrides.contains(&Value::String("http".to_string())));
    assert!(overrides.contains(&Value::String("tls".to_string())));
}

#[test]
fn test_config_is_valid_json() {
    let server = ServerConfig {
        id: "test-valid-json-id".to_string(),
        name: "Prod".to_string(),
        address: "1.2.3.4".to_string(),
        port: 443,
        uuid: "00000000-0000-0000-0000-000000000000".to_string(),
        flow: "xtls-rprx-vision".to_string(),
        reality: RealitySettings {
            public_key: "pubkey".to_string(),
            short_id: "shortid".to_string(),
            server_name: "example.com".to_string(),
            fingerprint: "chrome".to_string(),
        },
        virtualnet: None,
        subscription_id: None,
    };
    let config_str = config_text(&server, 10808, &[], &[], None, &[]);
    let parsed: Result<Value, _> = serde_json::from_str(&config_str);
    assert!(
        parsed.is_ok(),
        "generate_client_config output is not valid JSON"
    );
}

#[test]
fn test_config_server_address_uuid_port() {
    let server = ServerConfig {
        id: "test-addr-uuid-port-id".to_string(),
        name: "S".to_string(),
        address: "99.88.77.66".to_string(),
        port: 1234,
        uuid: "cafe0000-cafe-cafe-cafe-cafe00000000".to_string(),
        flow: "xtls-rprx-vision".to_string(),
        reality: RealitySettings::default(),
        virtualnet: None,
        subscription_id: None,
    };
    let config_str = config_text(&server, 10808, &[], &[], None, &[]);
    let config: Value = serde_json::from_str(&config_str).unwrap();

    let vnext = &config["outbounds"][0]["settings"]["vnext"][0];
    assert_eq!(vnext["address"], "99.88.77.66");
    assert_eq!(vnext["port"], 1234);
    assert_eq!(
        vnext["users"][0]["id"],
        "cafe0000-cafe-cafe-cafe-cafe00000000"
    );
}

#[test]
fn test_config_reality_settings_all_fields_present() {
    let server = ServerConfig {
        id: "test-reality-all-fields-id".to_string(),
        name: "R".to_string(),
        address: "5.5.5.5".to_string(),
        port: 443,
        uuid: "uuid".to_string(),
        flow: "xtls-rprx-vision".to_string(),
        reality: RealitySettings {
            public_key: "mypublickey".to_string(),
            short_id: "myshortid".to_string(),
            server_name: "www.cloudflare.com".to_string(),
            fingerprint: "safari".to_string(),
        },
        virtualnet: None,
        subscription_id: None,
    };
    let config_str = config_text(&server, 10808, &[], &[], None, &[]);
    let config: Value = serde_json::from_str(&config_str).unwrap();

    let reality = &config["outbounds"][0]["streamSettings"]["realitySettings"];
    assert_eq!(reality["publicKey"], "mypublickey");
    assert_eq!(reality["shortId"], "myshortid");
    assert_eq!(reality["serverName"], "www.cloudflare.com");
    assert_eq!(reality["fingerprint"], "safari");
}

#[test]
fn test_config_has_stats_section() {
    let server = ServerConfig::default();
    let config_str = config_text(&server, 10808, &[], &[], None, &[]);
    let config: Value = serde_json::from_str(&config_str).unwrap();

    assert!(
        config.get("stats").is_some(),
        "config must contain 'stats' key"
    );
}

#[test]
fn test_config_has_api_section() {
    let server = ServerConfig::default();
    let config_str = config_text(&server, 10808, &[], &[], None, &[]);
    let config: Value = serde_json::from_str(&config_str).unwrap();

    let api = &config["api"];
    assert_eq!(api["tag"], "api");
    assert_eq!(api["listen"], "127.0.0.1:10085");
    let services = api["services"].as_array().unwrap();
    assert!(services.contains(&Value::String("StatsService".to_string())));
}

#[test]
fn test_config_with_vpn_bypass_subnets_proxy_mode() {
    let server = ServerConfig::default();
    let bypass_subnets = vec!["10.8.0.0/24".to_string(), "172.20.0.0/16".to_string()];
    let config_str = config_text(&server, 10808, &[], &bypass_subnets, None, &[]);
    let config: Value = serde_json::from_str(&config_str).unwrap();

    let rules = config["routing"]["rules"].as_array().unwrap();
    let ip_rule = rules
        .iter()
        .find(|r| {
            r.get("ip").is_some()
                && r.get("outboundTag").and_then(|t| t.as_str()) == Some("direct")
        })
        .unwrap();
    let ips = ip_rule["ip"].as_array().unwrap();
    assert!(ips.contains(&Value::String("10.8.0.0/24".to_string())));
    assert!(ips.contains(&Value::String("172.20.0.0/16".to_string())));
    assert!(ips.contains(&Value::String("127.0.0.0/8".to_string())));
    assert!(ips.contains(&Value::String("192.168.0.0/16".to_string())));
    let outbounds = config["outbounds"].as_array().unwrap();
    assert!(!outbounds
        .iter()
        .any(|o| o.get("tag").and_then(|t| t.as_str()) == Some("direct-vpn")));
}

#[test]
fn test_config_with_vpn_bypass_subnets_tun_mode() {
    let server = ServerConfig::default();
    let bypass_subnets = vec!["10.8.0.0/24".to_string(), "185.62.200.0/22".to_string()];
    let config_str = config_text(
        &server,
        10808,
        &[],
        &bypass_subnets,
        Some("192.168.1.100"),
        &[],
    );
    let config: Value = serde_json::from_str(&config_str).unwrap();

    let outbounds = config["outbounds"].as_array().unwrap();
    let direct_vpn = outbounds
        .iter()
        .find(|o| o.get("tag").and_then(|t| t.as_str()) == Some("direct-vpn"))
        .expect("direct-vpn outbound must exist in TUN mode with bypass subnets");
    assert!(
        direct_vpn.get("sendThrough").is_none(),
        "direct-vpn must NOT have sendThrough"
    );
    assert_eq!(direct_vpn["protocol"], "freedom");

    let rules = config["routing"]["rules"].as_array().unwrap();
    let vpn_rule = rules
        .iter()
        .find(|r| r.get("outboundTag").and_then(|t| t.as_str()) == Some("direct-vpn"))
        .expect("direct-vpn routing rule must exist");
    let vpn_ips = vpn_rule["ip"].as_array().unwrap();
    assert!(vpn_ips.contains(&Value::String("10.8.0.0/24".to_string())));
    assert!(vpn_ips.contains(&Value::String("185.62.200.0/22".to_string())));

    let direct_rule = rules
        .iter()
        .find(|r| {
            r.get("ip").is_some()
                && r.get("outboundTag").and_then(|t| t.as_str()) == Some("direct")
        })
        .unwrap();
    let direct_ips = direct_rule["ip"].as_array().unwrap();
    assert!(!direct_ips.contains(&Value::String("10.8.0.0/24".to_string())));
    assert!(!direct_ips.contains(&Value::String("185.62.200.0/22".to_string())));
    assert!(direct_ips.contains(&Value::String("127.0.0.0/8".to_string())));
    assert!(direct_ips.contains(&Value::String("10.0.0.0/8".to_string())));
}

#[test]
fn test_config_tun_mode_dns_no_localhost() {
    let server = ServerConfig::default();
    let config_str = config_text(&server, 10808, &[], &[], Some("192.168.1.100"), &[]);
    let config: Value = serde_json::from_str(&config_str).unwrap();

    let dns = config["dns"]["servers"].as_array().unwrap();
    assert_eq!(
        dns.len(),
        2,
        "TUN mode with no VPN DNS must only include 1.1.1.1 and 8.8.8.8"
    );
    assert_eq!(dns[0], "1.1.1.1");
    assert_eq!(dns[1], "8.8.8.8");
}

#[test]
fn test_config_tun_mode_with_vpn_dns_servers() {
    let server = ServerConfig::default();
    let vpn_dns = vec!["10.8.0.1".to_string()];
    let bypass_subnets = vec!["10.0.0.0/8".to_string(), "185.62.200.0/22".to_string()];
    let config_str = config_text(
        &server,
        10808,
        &[],
        &bypass_subnets,
        Some("192.168.1.100"),
        &vpn_dns,
    );
    let config: Value = serde_json::from_str(&config_str).unwrap();

    let dns = config["dns"]["servers"].as_array().unwrap();
    assert_eq!(dns.len(), 3);
    assert_eq!(dns[0]["address"], "10.8.0.1");
    let expect_ips = dns[0]["expectIPs"].as_array().unwrap();
    assert!(expect_ips.iter().any(|v| v == "10.0.0.0/8"));
    assert!(expect_ips.iter().any(|v| v == "185.62.200.0/22"));
    assert_eq!(dns[1], "1.1.1.1");
    assert_eq!(dns[2], "8.8.8.8");
}

#[test]
fn test_config_tun_mode_vpn_dns_fallback_private_cidrs() {
    let server = ServerConfig::default();
    let vpn_dns = vec!["10.8.0.1".to_string()];
    let config_str = config_text(&server, 10808, &[], &[], Some("192.168.1.100"), &vpn_dns);
    let config: Value = serde_json::from_str(&config_str).unwrap();

    let dns = config["dns"]["servers"].as_array().unwrap();
    assert_eq!(dns.len(), 3);
    assert_eq!(dns[0]["address"], "10.8.0.1");
    let expect_ips = dns[0]["expectIPs"].as_array().unwrap();
    assert!(expect_ips.iter().any(|v| v == "10.0.0.0/8"));
    assert!(expect_ips.iter().any(|v| v == "172.16.0.0/12"));
    assert!(expect_ips.iter().any(|v| v == "192.168.0.0/16"));
}

#[test]
fn test_config_proxy_mode_dns_includes_localhost() {
    let server = ServerConfig::default();
    let config_str = config_text(&server, 10808, &[], &[], None, &[]);
    let config: Value = serde_json::from_str(&config_str).unwrap();

    let dns = config["dns"]["servers"].as_array().unwrap();
    assert_eq!(dns[0], "localhost");
    assert_eq!(dns[1], "1.1.1.1");
    assert_eq!(dns[2], "8.8.8.8");
}

#[test]
fn test_config_server_ip_in_direct_rules() {
    let server = ServerConfig {
        id: "test-server-ip-direct".to_string(),
        name: "S".to_string(),
        address: "45.151.233.107".to_string(),
        port: 443,
        uuid: "00000000-0000-0000-0000-000000000000".to_string(),
        flow: "xtls-rprx-vision".to_string(),
        reality: RealitySettings::default(),
        virtualnet: None,
        subscription_id: None,
    };
    let config_str = config_text(&server, 10808, &[], &[], None, &[]);
    let config: Value = serde_json::from_str(&config_str).unwrap();

    let rules = config["routing"]["rules"].as_array().unwrap();
    let ip_rule = rules.iter().find(|r| r.get("ip").is_some()).unwrap();
    let ips = ip_rule["ip"].as_array().unwrap();
    assert!(
        ips.contains(&Value::String("45.151.233.107/32".to_string())),
        "Server IP should be in direct routing rules"
    );
}

#[test]
fn test_config_send_through_sets_outbounds() {
    let server = ServerConfig::default();
    let config_str = config_text(&server, 10808, &[], &[], Some("192.168.1.50"), &[]);
    let config: Value = serde_json::from_str(&config_str).unwrap();

    let outbounds = config["outbounds"].as_array().unwrap();
    assert_eq!(outbounds[0]["sendThrough"], "192.168.1.50");
    assert_eq!(outbounds[1]["sendThrough"], "192.168.1.50");
    assert!(outbounds[2].get("sendThrough").is_none());
}

#[test]
fn test_config_has_stats_policy() {
    let server = ServerConfig::default();
    let config_str = config_text(&server, 10808, &[], &[], None, &[]);
    let config: Value = serde_json::from_str(&config_str).unwrap();

    let system = &config["policy"]["system"];
    assert_eq!(system["statsOutboundUplink"], true);
    assert_eq!(system["statsOutboundDownlink"], true);
}

// ---------------------------------------------------------------------------

#[test]
fn bypass_domains_become_direct_domain_rules() {
    let server = ServerConfig::default();
    let domains = vec![" Example.COM ".to_string(), "".to_string()];
    let config = to_value(&generate_client_config(&server, 10808, &domains, &[], None, &[]));
    let rules = config["routing"]["rules"].as_array().unwrap();
    assert_eq!(rules.len(), 3);
    let list = rules[0]["domain"].as_array().unwrap();
    assert_eq!(rules[0]["outboundTag"], "direct");
    assert_eq!(rules[1]["domain"][0], "localhost");
    assert_eq!(
        list,
        &vec![
            Value::String("domain:example.com".to_string()),
            Value::String("full:example.com".to_string()),
            Value::String("domain:".to_string()),
            Value::String("full:".to_string()),
        ]
    );
}

#[test]
fn http_inbound_listens_on_next_port() {
    let server = ServerConfig::default();
    let config = to_value(&generate_client_config(&server, 20000, &[], &[], None, &[]));
    let inbounds = config["inbounds"].as_array().unwrap();
    assert!(inbounds.iter().any(|i| i["port"] == 20001 && i["protocol"] == "http"));
}

#[test]
fn config_text_is_pretty_printed_value() {
    let server = ServerConfig {
        id: "id".to_string(),
        name: "S".to_string(),
        address: "1.2.3.4".to_string(),
        port: 8443,
        uuid: "b472a988-1cd7-4221-b76f-9cea35f2df2f".to_string(),
        flow: String::new(),
        reality: RealitySettings {
            public_key: "pk".to_string(),
            short_id: "sid".to_string(),
            server_name: "sni.example".to_string(),
            fingerprint: "chrome".to_string(),
        },
        virtualnet: None,
        subscription_id: None,
    };
    let domains = vec!["corp.example".to_string()];
    let text = client_config_text(&server, 20000, &domains, &[], None, &[]);
    let j = generate_client_config(&server, 20000, &domains, &[], None, &[]);
    assert_eq!(text, serde_json::to_string_pretty(&to_value(&j)).unwrap());
    assert!(text.starts_with("{\n  \""));
    let back: Value = serde_json::from_str(&text).unwrap();
    assert_eq!(back["inbounds"][0]["port"], 20000);
}
