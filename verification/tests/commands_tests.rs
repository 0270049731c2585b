use v2rayv::commands::{
    add_server, auto_connect_server, delete_server, delete_subscription, import_servers,
    mark_subscription_refreshed, migrate_settings, new_subscription, plan_bypass_update,
    refresh_subscription_servers, refresh_subscription_servers_with_ids, remember_last_server,
    require_servers, subscription_name, subscription_url, tag_new_servers, update_server,
    validate_config,
};
use v2rayv::models::{AppSettings, ConnectionStatus, RealitySettings, ServerConfig, Subscription};

fn valid_config() -> ServerConfig {
    ServerConfig {
        id: "test-id-1234".to_string(),
        name: "Test".to_string(),
        address: "1.2.3.4".to_string(),
        port: 443,
        uuid: "aaaaaaaa-bbbb-cccc-dddd-eeeeeeeeeeee".to_string(),
        flow: "xtls-rprx-vision".to_string(),
        reality: RealitySettings {
            public_key: "abc123".to_string(),
            short_id: "def456".to_string(),
            server_name: "example.com".to_string(),
            fingerprint: "chrome".to_string(),
        },
        virtualnet: None,
        subscription_id: None,
    }
}

#[test]
fn validate_config_accepts_valid_config() {
    let config = valid_config();
    assert!(validate_config(config).is_ok());
}

#[test]
fn validate_config_rejects_empty_address() {
    let mut config = valid_config();
    config.address = String::new();
    let err = validate_config(config).unwrap_err();
    assert!(
        err.contains("address"),
        "expected 'address' in error: {err}"
    );
}

#[test]
fn validate_config_rejects_port_zero() {
    let mut config = valid_config();
    config.port = 0;
    let err = validate_config(config).unwrap_err();
    assert!(err.contains("port"), "expected 'port' in error: {err}");
}

#[test]
fn validate_config_rejects_invalid_uuid() {
    let mut config = valid_config();
    config.uuid = "not-a-valid-uuid".to_string();
    let err = validate_config(config).unwrap_err();
    assert!(err.contains("UUID"), "expected 'UUID' in error: {err}");
}

// ---------------------------------------------------------------------------

fn server(id: &str, address: &str, sub: Option<&str>) -> ServerConfig {
    ServerConfig {
        id: id.to_string(),
        address: address.to_string(),
        subscription_id: sub.map(|s| s.to_string()),
        ..valid_config()
    }
}

fn ids(servers: &[ServerConfig]) -> Vec<String> {
    servers.iter().map(|s| s.id.clone()).collect()
}

#[test]
fn validation_order_and_blank_fields() {
    let mut c = valid_config();
    c.address = "   ".to_string();
    c.port = 0;
    assert_eq!(validate_config(c).unwrap_err(), "Server address must not be empty");
    let mut c = valid_config();
    c.reality.public_key = " ".to_string();
    assert_eq!(validate_config(c).unwrap_err(), "Reality public_key must not be empty");
    let mut c = valid_config();
    c.reality.short_id = String::new();
    assert_eq!(validate_config(c).unwrap_err(), "Reality short_id must not be empty");
    let mut c = valid_config();
    c.uuid = "AAAAAAAA-BBBB-CCCC-DDDD-EEEEEEEEEEEE".to_string();
    assert!(validate_config(c).is_ok());
}

#[test]
fn added_server_gets_fresh_id_and_is_appended() {
    let mut servers = vec![server("a", "1.1.1.1", None)];
    let saved = add_server(&mut servers, server("ignored", "2.2.2.2", None));
    assert_eq!(servers.len(), 2);
    assert_eq!(servers[1].id, saved.id);
    assert_ne!(saved.id, "ignored");
    assert_eq!(saved.id.len(), 36);
    assert_eq!(saved.address, "2.2.2.2");
}

#[test]
fn update_and_delete_by_id() {
    let mut servers = vec![server("a", "1.1.1.1", None), server("b", "2.2.2.2", None)];
    update_server(&mut servers, server("b", "9.9.9.9", None)).unwrap();
    assert_eq!(servers[1].address, "9.9.9.9");
    assert_eq!(
        update_server(&mut servers, server("zz", "1.1.1.1", None)).unwrap_err(),
        "Server with id zz not found"
    );
    delete_server(&mut servers, "a").unwrap();
    assert_eq!(ids(&servers), vec!["b"]);
    assert_eq!(delete_server(&mut servers, "a").unwrap_err(), "Server with id a not found");
    assert_eq!(ids(&servers), vec!["b"]);
}

#[test]
fn imported_servers_get_new_ids() {
    let mut servers = vec![server("a", "1.1.1.1", None)];
    let added = import_servers(&mut servers, vec![server("a", "3.3.3.3", None), server("x", "4.4.4.4", None)]);
    assert_eq!(added.len(), 2);
    assert_eq!(servers.len(), 3);
    assert_ne!(added[0].id, "a");
    assert_ne!(added[0].id, added[1].id);
    assert_eq!(servers[2].address, "4.4.4.4");
}

#[test]
fn subscription_inputs() {
    assert_eq!(subscription_name("  Work  ").unwrap(), "Work");
    assert_eq!(subscription_name("   ").unwrap_err(), "Subscription name must not be empty");
    assert_eq!(require_servers(&vec![]).unwrap_err(), "No vless:// servers found in subscription");
    assert!(require_servers(&vec![valid_config()]).is_ok());
}

#[test]
fn new_subscription_and_tagging() {
    let sub = new_subscription("Work".to_string(), " https://x/sub ", 1700, 2);
    assert_eq!(sub.name, "Work");
    assert_eq!(sub.url, "https://x/sub");
    assert_eq!(sub.last_updated_at, Some(1700));
    assert_eq!(sub.last_server_count, Some(2));
    let tagged = tag_new_servers(vec![valid_config(), valid_config()], &sub.id);
    assert_eq!(tagged.len(), 2);
    assert!(tagged.iter().all(|s| s.subscription_id.as_deref() == Some(sub.id.as_str())));
    assert_ne!(tagged[0].id, tagged[1].id);
    let subs = vec![sub.clone()];
    assert_eq!(subscription_url(&subs, &sub.id).unwrap(), "https://x/sub");
    assert_eq!(
        subscription_url(&subs, "nope").unwrap_err(),
        "Subscription with id nope not found"
    );
}

#[test]
fn refresh_keeps_ids_of_same_endpoints() {
    let mut servers = vec![
        server("manual", "1.1.1.1", None),
        server("s1", "2.2.2.2", Some("sub")),
        server("other", "3.3.3.3", Some("sub2")),
        server("s2", "4.4.4.4", Some("sub")),
    ];
    let parsed = vec![server("p1", "4.4.4.4", None), server("p2", "5.5.5.5", None)];
    let fresh = refresh_subscription_servers_with_ids(
        &mut servers,
        parsed,
        "sub",
        vec!["n1".to_string(), "n2".to_string()],
    );
    assert_eq!(ids(&fresh), vec!["s2", "n2"]);
    assert_eq!(ids(&servers), vec!["manual", "other", "s2", "n2"]);
    assert!(fresh.iter().all(|s| s.subscription_id.as_deref() == Some("sub")));

    let again = refresh_subscription_servers(&mut servers, vec![server("q", "5.5.5.5", None)], "sub");
    assert_eq!(ids(&again), vec!["n2"]);
    assert_eq!(ids(&servers), vec!["manual", "other", "n2"]);
}

#[test]
fn refreshed_subscription_is_stamped() {
    let mut subs = vec![Subscription {
        id: "sub".to_string(),
        name: "Work".to_string(),
        url: "https://x".to_string(),
        last_updated_at: None,
        last_server_count: None,
    }];
    let updated = mark_subscription_refreshed(&mut subs, "sub", 42, 7).unwrap();
    assert_eq!(updated.last_updated_at, Some(42));
    assert_eq!(subs[0].last_server_count, Some(7));
    assert!(mark_subscription_refreshed(&mut subs, "zz", 1, 1).is_err());
}

#[test]
fn deleting_a_subscription() {
    let make_subs = || {
        vec![
            Subscription { id: "sub".to_string(), name: "A".to_string(), url: "u".to_string(), last_updated_at: None, last_server_count: None },
            Subscription { id: "sub2".to_string(), name: "B".to_string(), url: "v".to_string(), last_updated_at: None, last_server_count: None },
        ]
    };
    let make_servers = || vec![server("m", "1.1.1.1", None), server("s", "2.2.2.2", Some("sub")), server("t", "3.3.3.3", Some("sub2"))];

    let mut subs = make_subs();
    let mut servers = make_servers();
    delete_subscription(&mut subs, &mut servers, "sub", true).unwrap();
    assert_eq!(subs.len(), 1);
    assert_eq!(ids(&servers), vec!["m", "t"]);

    let mut subs = make_subs();
    let mut servers = make_servers();
    delete_subscription(&mut subs, &mut servers, "sub", false).unwrap();
    assert_eq!(ids(&servers), vec!["m", "s", "t"]);
    assert!(servers[1].subscription_id.is_none());
    assert_eq!(servers[2].subscription_id.as_deref(), Some("sub2"));

    let mut subs = make_subs();
    let mut servers = make_servers();
    assert_eq!(
        delete_subscription(&mut subs, &mut servers, "zz", true).unwrap_err(),
        "Subscription with id zz not found"
    );
    assert_eq!(subs.len(), 2);
    assert_eq!(servers.len(), 3);
}

#[test]
fn settings_migration_and_last_server() {
    let settings = AppSettings { auto_connect: false, last_server_id: None, bypass_domains: vec![] };
    let migrated = migrate_settings(settings);
    assert_eq!(
        migrated.bypass_domains,
        vec!["wb.ru", "wildberries.ru"]
    );
    let custom = AppSettings { auto_connect: true, last_server_id: None, bypass_domains: vec!["x.org".to_string()] };
    assert_eq!(migrate_settings(custom).bypass_domains, vec!["x.org"]);

    let mut s = AppSettings { auto_connect: true, last_server_id: None, bypass_domains: vec![] };
    remember_last_server(&mut s, "b");
    assert_eq!(s.last_server_id.as_deref(), Some("b"));
    let servers = vec![server("a", "1.1.1.1", None), server("b", "2.2.2.2", None)];
    assert_eq!(auto_connect_server(&s, &servers), Some(1));
    s.auto_connect = false;
    assert_eq!(auto_connect_server(&s, &servers), None);
    s.auto_connect = true;
    remember_last_server(&mut s, "gone");
    assert_eq!(auto_connect_server(&s, &servers), None);
}

#[test]
fn bypass_update_restarts_only_when_needed() {
    let servers = vec![server("a", "1.1.1.1", None)];
    let mut s = AppSettings { auto_connect: false, last_server_id: Some("a".to_string()), bypass_domains: vec!["x".to_string()] };
    let same = vec!["x".to_string()];
    assert!(plan_bypass_update(&mut s, &same, ConnectionStatus::Connected, &servers).unwrap().is_none());
    let new = vec!["y".to_string()];
    assert!(plan_bypass_update(&mut s, &new, ConnectionStatus::Disconnected, &servers).unwrap().is_none());
    assert_eq!(s.bypass_domains, vec!["y"]);
    let newer = vec!["z".to_string()];
    let restart = plan_bypass_update(&mut s, &newer, ConnectionStatus::Connected, &servers).unwrap();
    assert_eq!(restart.unwrap().id, "a");
    s.last_server_id = None;
    let err = plan_bypass_update(&mut s, &vec!["w".to_string()], ConnectionStatus::Connecting, &servers).unwrap_err();
    assert_eq!(err, "No last_server_id; cannot reload bypass without a known server");
}

#[test]
fn refreshing_twice_keeps_ids() {
    let mut servers = vec![server("manual", "1.1.1.1", None)];
    let parsed = || vec![server("p1", "4.4.4.4", None), server("p2", "5.5.5.5", None), server("p3", "6.6.6.6", None)];
    let first = refresh_subscription_servers(&mut servers, parsed(), "sub");
    let second = refresh_subscription_servers(&mut servers, parsed(), "sub");
    assert_eq!(ids(&first), ids(&second));
    assert_eq!(servers.len(), 4);
    assert_eq!(servers[0].id, "manual");
}
