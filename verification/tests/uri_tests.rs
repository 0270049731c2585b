use v2rayv::models::{RealitySettings, ServerConfig, VirtualNetSettings};
use v2rayv::uri::{
    is_ipv4_literal, is_valid_ipv4_cidr, parse_vless_uri, parse_vless_uri_with_id, to_vless_uri,
    url_decode, url_encode,
};

fn sample_server() -> ServerConfig {
    ServerConfig {
        id: "test-uri-id".to_string(),
        name: "My Server".to_string(),
        address: "1.2.3.4".to_string(),
        port: 443,
        uuid: "aaaaaaaa-bbbb-cccc-dddd-eeeeeeeeeeee".to_string(),
        flow: "xtls-rprx-vision".to_string(),
        reality: RealitySettings {
            public_key: "kieJgZYLW9ZiKbGLpKnv4XyVo6_42inSONJrr-96tUU".to_string(),
            short_id: "d64736262cd50811".to_string(),
            server_name: "www.microsoft.com".to_string(),
            fingerprint: "chrome".to_string(),
        },
        virtualnet: None,
        subscription_id: None,
    }
}

#[test]
fn parse_valid_uri() {
    let uri = "vless://aaaaaaaa-bbbb-cccc-dddd-eeeeeeeeeeee@1.2.3.4:443?encryption=none&flow=xtls-rprx-vision&type=tcp&security=reality&sni=www.microsoft.com&fp=chrome&pbk=kieJgZYLW9ZiKbGLpKnv4XyVo6_42inSONJrr-96tUU&sid=d64736262cd50811#My%20Server";
    let config = parse_vless_uri(uri).unwrap();

    assert_eq!(config.uuid, "aaaaaaaa-bbbb-cccc-dddd-eeeeeeeeeeee");
    assert_eq!(config.address, "1.2.3.4");
    assert_eq!(config.port, 443);
    assert_eq!(config.flow, "xtls-rprx-vision");
    assert_eq!(config.name, "My Server");
    assert_eq!(config.reality.server_name, "www.microsoft.com");
    assert_eq!(config.reality.fingerprint, "chrome");
    assert_eq!(
        config.reality.public_key,
        "kieJgZYLW9ZiKbGLpKnv4XyVo6_42inSONJrr-96tUU"
    );
    assert_eq!(config.reality.short_id, "d64736262cd50811");
    assert!(!config.id.is_empty());
}

#[test]
fn parse_uri_no_fragment() {
    let uri = "vless://aaaaaaaa-bbbb-cccc-dddd-eeeeeeeeeeee@1.2.3.4:443?flow=xtls-rprx-vision&sni=example.com&pbk=key&sid=id";
    let config = parse_vless_uri(uri).unwrap();
    assert_eq!(config.name, "");
    assert_eq!(config.address, "1.2.3.4");
}

#[test]
fn parse_uri_invalid_scheme() {
    let result = parse_vless_uri("https://example.com");
    assert!(result.is_err());
}

#[test]
fn parse_uri_missing_at() {
    let result = parse_vless_uri("vless://no-at-sign:443");
    assert!(result.is_err());
}

#[test]
fn parse_uri_missing_port() {
    let result = parse_vless_uri("vless://uuid@1.2.3.4");
    assert!(result.is_err());
}

#[test]
fn parse_uri_invalid_port() {
    let result = parse_vless_uri("vless://uuid@1.2.3.4:abc");
    assert!(result.is_err());
}

#[test]
fn roundtrip() {
    let server = sample_server();
    let uri = to_vless_uri(&server);
    let parsed = parse_vless_uri(&uri).unwrap();

    assert_eq!(parsed.uuid, server.uuid);
    assert_eq!(parsed.address, server.address);
    assert_eq!(parsed.port, server.port);
    assert_eq!(parsed.flow, server.flow);
    assert_eq!(parsed.name, server.name);
    assert_eq!(parsed.reality.public_key, server.reality.public_key);
    assert_eq!(parsed.reality.short_id, server.reality.short_id);
    assert_eq!(parsed.reality.server_name, server.reality.server_name);
    assert_eq!(parsed.reality.fingerprint, server.reality.fingerprint);
}

#[test]
fn to_uri_format() {
    let server = sample_server();
    let uri = to_vless_uri(&server);
    assert!(uri.starts_with("vless://"));
    assert!(uri.contains("@1.2.3.4:443"));
    assert!(uri.contains("encryption=none"));
    assert!(uri.contains("security=reality"));
    assert!(uri.contains("#My%20Server"));
}

#[test]
fn url_encode_special_chars() {
    assert_eq!(url_encode("hello world"), "hello%20world");
    assert_eq!(url_encode("a+b"), "a%2Bb");
    assert_eq!(url_encode("simple"), "simple");
}

#[test]
fn url_decode_special_chars() {
    assert_eq!(url_decode("hello%20world"), "hello world");
    assert_eq!(url_decode("a%2Bb"), "a+b");
    assert_eq!(url_decode("simple"), "simple");
}

#[test]
fn parse_uri_empty_uuid() {
    let result = parse_vless_uri("vless://@1.2.3.4:443?flow=xtls-rprx-vision");
    if let Ok(config) = result {
        assert_eq!(config.uuid, "");
    }
}

#[test]
fn parse_uri_wrong_scheme() {
    let result = parse_vless_uri("vmess://aaaaaaaa-bbbb-cccc-dddd-eeeeeeeeeeee@1.2.3.4:443");
    assert!(result.is_err());
    let err = result.unwrap_err().to_string();
    assert!(
        err.contains("vless://"),
        "expected scheme hint in error: {err}"
    );
}

#[test]
fn parse_uri_trojan_scheme() {
    let result = parse_vless_uri("trojan://password@1.2.3.4:443");
    assert!(result.is_err());
}

#[test]
fn parse_uri_empty_string() {
    let result = parse_vless_uri("");
    assert!(result.is_err());
}

#[test]
fn parse_uri_port_out_of_range() {
    let result = parse_vless_uri("vless://aaaaaaaa-bbbb-cccc-dddd-eeeeeeeeeeee@1.2.3.4:65536");
    assert!(result.is_err());
}

#[test]
fn roundtrip_special_chars_in_name() {
    let mut server = sample_server();
    server.name = "My VPN Server (Fast)".to_string();
    let uri = to_vless_uri(&server);
    let parsed = parse_vless_uri(&uri).unwrap();
    assert_eq!(parsed.name, server.name);
}

#[test]
fn roundtrip_all_fields_match() {
    let server = ServerConfig {
        id: "some-id".to_string(),
        name: "Test Server".to_string(),
        address: "192.168.1.100".to_string(),
        port: 8443,
        uuid: "12345678-1234-1234-1234-123456789abc".to_string(),
        flow: "xtls-rprx-vision".to_string(),
        reality: RealitySettings {
            public_key: "ABC123xyz-public-key".to_string(),
            short_id: "abcd1234".to_string(),
            server_name: "www.example.org".to_string(),
            fingerprint: "firefox".to_string(),
        },
        virtualnet: None,
        subscription_id: None,
    };

    let uri = to_vless_uri(&server);
    let parsed = parse_vless_uri(&uri).unwrap();

    assert_eq!(parsed.uuid, server.uuid, "uuid mismatch");
    assert_eq!(parsed.address, server.address, "address mismatch");
    assert_eq!(parsed.port, server.port, "port mismatch");
    assert_eq!(parsed.flow, server.flow, "flow mismatch");
    assert_eq!(parsed.name, server.name, "name mismatch");
    assert_eq!(
        parsed.reality.public_key, server.reality.public_key,
        "public_key mismatch"
    );
    assert_eq!(
        parsed.reality.short_id, server.reality.short_id,
        "short_id mismatch"
    );
    assert_eq!(
        parsed.reality.server_name, server.reality.server_name,
        "server_name mismatch"
    );
    assert_eq!(
        parsed.reality.fingerprint, server.reality.fingerprint,
        "fingerprint mismatch"
    );
    assert!(!parsed.id.is_empty(), "parsed id must not be empty");
}

#[test]
fn parse_uri_unknown_params_ignored() {
    let uri = "vless://aaaaaaaa-bbbb-cccc-dddd-eeeeeeeeeeee@1.2.3.4:443?flow=xtls-rprx-vision&sni=example.com&pbk=key&sid=id&unknown_param=value&another=123";
    let config = parse_vless_uri(uri).unwrap();
    assert_eq!(config.address, "1.2.3.4");
    assert_eq!(config.flow, "xtls-rprx-vision");
}

#[test]
fn to_uri_contains_required_vless_fields() {
    let server = sample_server();
    let uri = to_vless_uri(&server);

    assert!(uri.starts_with("vless://"), "must start with vless://");
    assert!(uri.contains(&server.uuid), "must contain UUID");
    assert!(uri.contains(&server.address), "must contain server address");
    assert!(
        uri.contains(&format!(":{}", server.port)),
        "must contain port"
    );
    assert!(uri.contains("pbk="), "must contain public key param");
    assert!(uri.contains("sid="), "must contain short_id param");
    assert!(uri.contains("sni="), "must contain SNI param");
    assert!(uri.contains("flow="), "must contain flow param");
    assert!(
        uri.contains("security=reality"),
        "must declare reality security"
    );
}

#[test]
fn parse_vnet_share_link() {
    let uri = "vless://aaaaaaaa-bbbb-cccc-dddd-eeeeeeeeeeee@1.2.3.4:443?flow=xtls-rprx-vision&type=tcp&security=reality&sni=example.com&pbk=key&sid=id&vnet=1&vnetSubnet=10.0.0.0%2F24&vnetIp=10.0.0.5&vnetDefaultRoute=1#L3-Server";
    let config = parse_vless_uri(uri).unwrap();
    let vn = config
        .virtualnet
        .as_ref()
        .expect("virtualnet should be populated");
    assert!(vn.enabled);
    assert_eq!(vn.subnet, "10.0.0.0/24");
    assert_eq!(vn.vnet_ip, "10.0.0.5");
    assert!(vn.default_route);
}

#[test]
fn parse_vnet_missing_ip_falls_back_to_proxy_mode() {
    let uri = "vless://aaaaaaaa-bbbb-cccc-dddd-eeeeeeeeeeee@1.2.3.4:443?vnet=1&vnetSubnet=10.0.0.0/24&pbk=key&sid=id";
    let config = parse_vless_uri(uri).unwrap();
    assert!(config.virtualnet.is_none());
}

#[test]
fn parse_vnet_rejects_ipv6_literal() {
    let uri = "vless://aaaaaaaa-bbbb-cccc-dddd-eeeeeeeeeeee@1.2.3.4:443?vnet=1&vnetIp=::1&pbk=key&sid=id";
    let config = parse_vless_uri(uri).unwrap();
    assert!(config.virtualnet.is_none());
}

#[test]
fn parse_vnet_default_route_off() {
    let uri = "vless://aaaaaaaa-bbbb-cccc-dddd-eeeeeeeeeeee@1.2.3.4:443?vnet=1&vnetIp=10.0.0.5&vnetDefaultRoute=0&pbk=key&sid=id";
    let config = parse_vless_uri(uri).unwrap();
    let vn = config.virtualnet.unwrap();
    assert!(!vn.default_route);
}

#[test]
fn vnet_uri_roundtrip() {
    let server = ServerConfig {
        virtualnet: Some(VirtualNetSettings {
            enabled: true,
            subnet: "10.0.0.0/24".to_string(),
            vnet_ip: "10.0.0.42".to_string(),
            default_route: true,
            interface_name: None,
            mtu: None,
        }),
        ..sample_server()
    };
    let uri = to_vless_uri(&server);
    assert!(uri.contains("vnet=1"));
    assert!(uri.contains("vnetIp=10.0.0.42"));
    let parsed = parse_vless_uri(&uri).unwrap();
    let vn = parsed.virtualnet.unwrap();
    assert_eq!(vn.subnet, "10.0.0.0/24");
    assert_eq!(vn.vnet_ip, "10.0.0.42");
    assert!(vn.default_route);
}

// ---------------------------------------------------------------------------

#[test]
fn exact_uri_text() {
    let uri = to_vless_uri(&sample_server());
    assert_eq!(
        uri,
        "vless://aaaaaaaa-bbbb-cccc-dddd-eeeeeeeeeeee@1.2.3.4:443?encryption=none&flow=xtls-rprx-vision&type=tcp&security=reality&sni=www.microsoft.com&fp=chrome&pbk=kieJgZYLW9ZiKbGLpKnv4XyVo6_42inSONJrr-96tUU&sid=d64736262cd50811#My%20Server"
    );
}

#[test]
fn roundtrip_keeps_every_field_but_the_id() {
    let server = ServerConfig {
        name: "Ünïcode & friends #1".to_string(),
        virtualnet: Some(VirtualNetSettings {
            enabled: true,
            subnet: "10.1.0.0/16".to_string(),
            vnet_ip: "10.1.2.3".to_string(),
            default_route: false,
            interface_name: None,
            mtu: Some(1400),
        }),
        ..sample_server()
    };
    assert!(to_vless_uri(&server).contains("&vnetMtu=1400&vnetDefaultRoute=0#"));
    let parsed = parse_vless_uri_with_id(&to_vless_uri(&server), "fresh-id".to_string()).unwrap();
    assert_eq!(parsed.id, "fresh-id");
    assert_eq!(parsed.name, server.name);
    assert_eq!(parsed.uuid, server.uuid);
    assert_eq!(parsed.address, server.address);
    assert_eq!(parsed.port, server.port);
    let vn = parsed.virtualnet.unwrap();
    assert!(vn.enabled);
    assert_eq!(vn.subnet, "10.1.0.0/16");
    assert_eq!(vn.vnet_ip, "10.1.2.3");
    assert!(!vn.default_route);
    assert_eq!(vn.mtu, Some(1400));
    assert!(parsed.subscription_id.is_none());
}

#[test]
fn vnet_mtu_parameter() {
    let base = "vless://aaaaaaaa-bbbb-cccc-dddd-eeeeeeeeeeee@1.2.3.4:443?vnet=1&vnetIp=10.0.0.5&pbk=key&sid=id";
    let with = parse_vless_uri(&format!("{base}&vnetMtu=1280")).unwrap();
    assert_eq!(with.virtualnet.unwrap().mtu, Some(1280));
    let bad = parse_vless_uri(&format!("{base}&vnetMtu=big")).unwrap();
    assert_eq!(bad.virtualnet.unwrap().mtu, None);
    let too_big = parse_vless_uri(&format!("{base}&vnetMtu=4294967296")).unwrap();
    assert_eq!(too_big.virtualnet.unwrap().mtu, None);
    let none = parse_vless_uri(base).unwrap();
    assert_eq!(none.virtualnet.unwrap().mtu, None);
}

#[test]
fn parsed_ids_are_fresh_uuids() {
    let uri = to_vless_uri(&sample_server());
    let a = parse_vless_uri(&uri).unwrap().id;
    let b = parse_vless_uri(&uri).unwrap().id;
    assert_eq!(a.len(), 36);
    assert_eq!(&a[14..15], "4");
    assert_ne!(a, b);
    assert_ne!(a, "test-uri-id");
}

#[test]
fn url_decode_leaves_bad_escapes() {
    assert_eq!(url_decode("100%"), "100%");
    assert_eq!(url_decode("%zz"), "%zz");
    assert_eq!(url_decode("%41%42"), "AB");
    assert_eq!(url_encode("a/b?c=d"), "a%2Fb%3Fc%3Dd");
    assert_eq!(url_encode("A-Z_a.z~0"), "A-Z_a.z~0");
}

#[test]
fn ipv4_checks() {
    assert!(is_ipv4_literal("10.0.0.5"));
    assert!(!is_ipv4_literal("::1"));
    assert!(!is_ipv4_literal("10.0.0.256"));
    assert!(!is_ipv4_literal("10.0.0"));
    assert!(is_valid_ipv4_cidr("10.0.0.0/24"));
    assert!(!is_valid_ipv4_cidr("10.0.0.0/33"));
    assert!(!is_valid_ipv4_cidr("10.0.0.0"));
}

#[test]
fn parse_vnet_ip_with_prefix_length() {
    let uri = "vless://aaaaaaaa-bbbb-cccc-dddd-eeeeeeeeeeee@1.2.3.4:443?vnet=1&vnetIp=10.10.0.5/24&vnetSubnet=10.10.0.0/24&vnetDefaultRoute=1#NAME";
    let config = parse_vless_uri(uri).unwrap();
    let vn = config.virtualnet.as_ref().unwrap();
    assert!(vn.enabled);
    assert_eq!(vn.vnet_ip, "10.10.0.5/24");
    assert_eq!(vn.subnet, "10.10.0.0/24");
    assert!(vn.default_route);
    let back = parse_vless_uri(&to_vless_uri(&config)).unwrap();
    assert_eq!(back.virtualnet.as_ref().unwrap().vnet_ip, "10.10.0.5/24");
    let bad = "vless://aaaaaaaa-bbbb-cccc-dddd-eeeeeeeeeeee@1.2.3.4:443?vnet=1&vnetIp=10.10.0.5/33&pbk=key&sid=id";
    assert!(parse_vless_uri(bad).unwrap().virtualnet.is_none());
}
