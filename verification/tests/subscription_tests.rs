use base64::Engine;
use v2rayv::subscription::{
    check_body_size, check_http_status, check_subscription_url, decode_body,
    parse_subscription_body, servers_from_text, MAX_BODY_BYTES,
};

const SAMPLE_URI: &str = "vless://aaaaaaaa-bbbb-cccc-dddd-eeeeeeeeeeee@1.2.3.4:443?type=tcp&security=reality&pbk=abc&sid=def&sni=example.com&fp=chrome&flow=xtls-rprx-vision#Test";

#[test]
fn parses_plaintext_subscription() {
    let body = format!("{SAMPLE_URI}\nnot-a-vless-line\n{SAMPLE_URI}");
    let servers = parse_subscription_body(body.as_bytes());
    assert_eq!(servers.len(), 2);
    assert_eq!(servers[0].address, "1.2.3.4");
}

#[test]
fn parses_base64_subscription() {
    let inner = format!("{SAMPLE_URI}\n{SAMPLE_URI}\n");
    let encoded = base64::engine::general_purpose::STANDARD.encode(inner.as_bytes());
    let servers = parse_subscription_body(encoded.as_bytes());
    assert_eq!(servers.len(), 2);
}

#[test]
fn skips_unparseable_lines() {
    let body = "vless://garbage\n".to_string() + SAMPLE_URI;
    let servers = parse_subscription_body(body.as_bytes());
    assert_eq!(servers.len(), 1);
}

// ---------------------------------------------------------------------------

#[test]
fn url_safe_base64_body_is_decoded() {
    let inner = format!("{SAMPLE_URI}\r\n");
    let encoded = base64::engine::general_purpose::URL_SAFE.encode(inner.as_bytes());
    assert_eq!(decode_body(encoded.as_bytes()), inner);
    // Line breaks inside the encoded text are ignored.
    let std = base64::engine::general_purpose::STANDARD.encode(inner.as_bytes());
    let (a, b) = std.split_at(10);
    let wrapped = format!("{a}\n{b}\n");
    assert_eq!(decode_body(wrapped.as_bytes()), inner);
}

#[test]
fn plain_body_is_kept() {
    assert_eq!(decode_body(b"hello world"), "hello world");
    assert_eq!(decode_body(SAMPLE_URI.as_bytes()), SAMPLE_URI);
}

#[test]
fn indented_links_are_trimmed() {
    let body = format!("   {SAMPLE_URI}   \n\n\t{SAMPLE_URI}");
    let servers = parse_subscription_body(body.as_bytes());
    assert_eq!(servers.len(), 2);
    assert_eq!(servers[1].name, "Test");
}

#[test]
fn subscription_url_checks() {
    assert_eq!(check_subscription_url("  https://a.example/sub ").unwrap(), "https://a.example/sub");
    assert_eq!(check_subscription_url("http://a").unwrap(), "http://a");
    let err = check_subscription_url("ftp://a").unwrap_err();
    assert_eq!(
        err.to_string(),
        "Configuration error: Subscription URL must use http:// or https://"
    );
}

#[test]
fn http_status_checks() {
    assert!(check_http_status(200).is_ok());
    assert!(check_http_status(299).is_ok());
    assert_eq!(
        check_http_status(404).unwrap_err().to_string(),
        "Configuration error: Subscription returned HTTP 404"
    );
}

#[test]
fn body_size_limit() {
    assert!(check_body_size(MAX_BODY_BYTES).is_ok());
    assert!(check_body_size(MAX_BODY_BYTES + 1).is_err());
}

#[test]
fn servers_from_decoded_text() {
    let text = format!("  {SAMPLE_URI}  \r\n# comment\nvless://broken\n\nvmess://other\n{SAMPLE_URI}");
    let servers = servers_from_text(&text);
    assert_eq!(servers.len(), 2);
    assert_eq!(servers[0].name, "Test");
    assert_eq!(servers[0].address, "1.2.3.4");
    assert_ne!(servers[0].id, servers[1].id);
    assert!(servers_from_text("").is_empty());
}
