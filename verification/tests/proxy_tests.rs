use v2rayv::proxy::{
    disable_system_proxy, enable_system_proxy, gsettings_value, linux_ignore_hosts,
    reg_query_value, reset_stale_linux, reset_stale_system_proxy, reset_stale_windows,
    windows_proxy_override, Platform, ProxyCommand, StaleProxyCheck, INTERNET_SETTINGS_KEY,
};

fn show(c: &ProxyCommand) -> String {
    match c {
        ProxyCommand::GsettingsSet { schema, key, value } => format!("gsettings set {schema} {key} {value}"),
        ProxyCommand::RegSetDword { key, name, value } => format!("reg dword {key} {name} {value}"),
        ProxyCommand::RegSetString { key, name, value } => format!("reg sz {key} {name} {value}"),
        ProxyCommand::RegDelete { key, name } => format!("reg delete {key} {name}"),
        ProxyCommand::RefreshWindowsProxy => "refresh".to_string(),
    }
}

fn shown(v: &[ProxyCommand]) -> Vec<String> {
    v.iter().map(show).collect()
}

#[test]
fn gnome_ignore_hosts_value() {
    let v = linux_ignore_hosts(&[" corp.example ".to_string(), " ".to_string()], &["10.8.0.0/24".to_string()]);
    assert_eq!(
        v,
        "['localhost', '127.0.0.0/8', '10.0.0.0/8', '172.16.0.0/12', '192.168.0.0/16', '::1', 'corp.example', '*.corp.example', '10.8.0.0/24']"
    );
}

#[test]
fn windows_override_value() {
    let v = windows_proxy_override(&["a.com".to_string()], &[" 10.0.0.0/8 ".to_string(), "".to_string()]);
    assert_eq!(v, "localhost;127.*;10.*;172.16.*;192.168.*;<local>;a.com;*.a.com;10.0.0.0/8");
}

#[test]
fn linux_enable_and_disable() {
    let cmds = shown(&enable_system_proxy(Platform::Linux, true, 10808, &[], &[]));
    assert_eq!(cmds[0], "gsettings set org.gnome.system.proxy mode manual");
    assert!(cmds.contains(&"gsettings set org.gnome.system.proxy.socks host 127.0.0.1".to_string()));
    assert!(cmds.contains(&"gsettings set org.gnome.system.proxy.socks port 10808".to_string()));
    assert!(cmds.contains(&"gsettings set org.gnome.system.proxy.http port 10809".to_string()));
    assert!(cmds.contains(&"gsettings set org.gnome.system.proxy.https host 127.0.0.1".to_string()));
    assert!(cmds.last().unwrap().starts_with("gsettings set org.gnome.system.proxy ignore-hosts ['localhost'"));
    assert!(enable_system_proxy(Platform::Linux, false, 10808, &[], &[]).is_empty());
    assert_eq!(
        shown(&disable_system_proxy(Platform::Linux, true)),
        vec!["gsettings set org.gnome.system.proxy mode none"]
    );
    assert!(disable_system_proxy(Platform::Linux, false).is_empty());
}

#[test]
fn windows_enable_and_disable() {
    let cmds = shown(&enable_system_proxy(Platform::Windows, false, 10808, &[], &[]));
    assert_eq!(cmds[0], format!("reg dword {INTERNET_SETTINGS_KEY} ProxyEnable 1"));
    assert_eq!(cmds[1], format!("reg sz {INTERNET_SETTINGS_KEY} ProxyServer 127.0.0.1:10809"));
    assert_eq!(cmds.last().unwrap(), "refresh");
    let off = shown(&disable_system_proxy(Platform::Windows, false));
    assert_eq!(
        off,
        vec![
            format!("reg dword {INTERNET_SETTINGS_KEY} ProxyEnable 0"),
            format!("reg delete {INTERNET_SETTINGS_KEY} ProxyServer"),
            format!("reg delete {INTERNET_SETTINGS_KEY} ProxyOverride"),
            "refresh".to_string(),
        ]
    );
}

#[test]
fn macos_is_left_alone() {
    assert!(enable_system_proxy(Platform::MacOs, true, 10808, &[], &[]).is_empty());
    assert!(disable_system_proxy(Platform::MacOs, true).is_empty());
    assert!(matches!(reset_stale_system_proxy(Platform::MacOs), StaleProxyCheck::Nothing));
    assert!(matches!(reset_stale_system_proxy(Platform::Linux), StaleProxyCheck::Gnome));
    assert!(matches!(reset_stale_system_proxy(Platform::Windows), StaleProxyCheck::Registry));
}

#[test]
fn stale_gnome_proxy_is_reset_only_when_ours() {
    assert_eq!(
        shown(&reset_stale_linux(true, "manual", "127.0.0.1")),
        vec!["gsettings set org.gnome.system.proxy mode none"]
    );
    assert_eq!(reset_stale_linux(true, "manual", "localhost").len(), 1);
    assert!(reset_stale_linux(true, "manual", "10.0.0.1").is_empty());
    assert!(reset_stale_linux(true, "none", "127.0.0.1").is_empty());
    assert!(reset_stale_linux(false, "manual", "127.0.0.1").is_empty());
}

#[test]
fn stale_windows_proxy_is_reset_only_when_ours() {
    assert_eq!(reset_stale_windows(Some("127.0.0.1:10809")).len(), 4);
    assert!(reset_stale_windows(Some("proxy.corp:8080")).is_empty());
    assert!(reset_stale_windows(None).is_empty());
}

#[test]
fn gsettings_output_is_unquoted() {
    assert_eq!(gsettings_value(b"'manual'\n"), "manual");
    assert_eq!(gsettings_value(b"  '127.0.0.1'  "), "127.0.0.1");
    assert_eq!(gsettings_value(b""), "");
}

#[test]
fn registry_query_output() {
    let text = "\r\nHKEY_CURRENT_USER\\Software\\Microsoft\\Windows\\CurrentVersion\\Internet Settings\r\n    ProxyServer    REG_SZ    127.0.0.1:10809\r\n\r\n";
    assert_eq!(reg_query_value(text, "ProxyServer"), Some("127.0.0.1:10809".to_string()));
    assert_eq!(reg_query_value(text, "ProxyOverride"), None);
}
