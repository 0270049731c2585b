use v2rayv::macos_helper::{
    add_password_args, delete_password_args, find_password_args, security_delete_outcome,
    security_password, security_write_outcome, sudo_validate_args, validate_poll,
};
use v2rayv::macos_xray::{after_killpg, kill_outcome, sudo_kill_group_args, SignalResult};
use v2rayv::priv_xray::{
    kill_password, pkill_outcome, sudo_pkill_args, sudo_xray_args, xray_target_triple, Arch, SudoChild,
};
use v2rayv::proxy::Platform;
use v2rayv::models::AppError;
use v2rayv::secret_store::{
    delete_from, delete_outcome, has_from, password_from, read_from, write_outcome, write_with, StoreFailure,
};
use v2rayv::tray::{toggle_label, tray_toggle, TrayToggle};
use v2rayv::models::ConnectionStatus;

#[test]
fn sudo_command_lines() {
    assert_eq!(
        sudo_xray_args("/app/xray", "/data/cfg.json"),
        vec!["-S", "-p", "", "-k", "/app/xray", "run", "-c", "/data/cfg.json"]
    );
    assert_eq!(sudo_pkill_args("/app/xray"), vec!["-S", "-p", "", "pkill", "-9", "-f", "/app/xray"]);
    assert_eq!(sudo_kill_group_args(1234), vec!["-S", "-p", "", "kill", "-9", "-1234"]);
    assert_eq!(sudo_kill_group_args(-5), vec!["-S", "-p", "", "kill", "-9", "--5"]);
    let child = SudoChild { pgid: 7, xray_path: "/app/xray".to_string() };
    assert_eq!(child.pgid, 7);
}

#[test]
fn pkill_results() {
    assert!(pkill_outcome(Some(0), "exit status: 0", b"").0.is_ok());
    assert!(pkill_outcome(Some(1), "exit status: 1", b"").0.is_ok());
    assert!(pkill_outcome(None, "signal: 9", b"").0.is_ok());
    let (r, forget) = pkill_outcome(Some(1), "x", b"Sorry, try again.");
    assert!(r.is_ok() && !forget);
    let (r, forget) = pkill_outcome(Some(2), "exit status: 2", b"  pkill: bad pattern \n");
    assert!(!forget);
    assert_eq!(
        r.unwrap_err().to_string(),
        "xray process error: sudo pkill failed (exit status: 2): pkill: bad pattern"
    );
    let (r, forget) = pkill_outcome(Some(3), "exit status: 3", b"sudo: 3 incorrect password attempts\n");
    assert!(forget);
    assert!(r.unwrap_err().to_string().contains("Saved sudo password is no longer valid."));
}

#[test]
fn missing_password_for_kill() {
    assert_eq!(kill_password(Some("pw".to_string())).unwrap(), "pw");
    assert!(kill_password(None).unwrap_err().to_string().contains("no sudo password in the OS credential store"));
    assert!(v2rayv::macos_xray::kill_password(None).unwrap_err().to_string().contains("Keychain"));
}

#[test]
fn process_group_signals() {
    assert_eq!(after_killpg(5, SignalResult::Sent).unwrap(), false);
    assert_eq!(after_killpg(5, SignalResult::NoSuchProcess).unwrap(), false);
    assert_eq!(after_killpg(5, SignalResult::NotPermitted).unwrap(), true);
    assert_eq!(
        after_killpg(5, SignalResult::Failed("Invalid argument".to_string())).unwrap_err().to_string(),
        "xray process error: killpg(5) failed: Invalid argument"
    );
    assert!(kill_outcome(true, "exit status: 0", b"").0.is_ok());
    let (r, forget) = kill_outcome(false, "exit status: 1", b"Sorry, try again.\n");
    assert!(forget);
    assert!(r.unwrap_err().to_string().contains("Saved macOS password is no longer valid."));
    let (r, forget) = kill_outcome(false, "exit status: 1", b"kill: 5: No such process");
    assert!(!forget);
    assert_eq!(
        r.unwrap_err().to_string(),
        "xray process error: sudo kill failed (exit status: 1): kill: 5: No such process"
    );
}

#[test]
fn keychain_tool() {
    assert_eq!(
        find_password_args(true),
        vec!["find-generic-password", "-s", "v2rayV", "-a", "v2rayv-sudo", "-w"]
    );
    assert_eq!(find_password_args(false).len(), 5);
    assert_eq!(add_password_args("pw")[6], "pw");
    assert_eq!(add_password_args("pw")[7], "-U");
    assert_eq!(delete_password_args()[0], "delete-generic-password");
    assert_eq!(security_password(true, b"  secret\n"), Some("secret".to_string()));
    assert_eq!(security_password(true, b" \n"), None);
    assert_eq!(security_password(false, b"secret"), None);
    assert!(security_write_outcome(true, "").is_ok());
    assert_eq!(
        security_write_outcome(false, "exit status: 45").unwrap_err().to_string(),
        "xray process error: security add-generic-password exited with exit status: 45"
    );
    assert!(security_delete_outcome(false, Some(44), "exit status: 44").is_ok());
    assert!(security_delete_outcome(true, Some(0), "").is_ok());
    assert!(security_delete_outcome(false, Some(1), "exit status: 1").is_err());
}

#[test]
fn password_validation_polls() {
    assert_eq!(sudo_validate_args(), vec!["-S", "-p", "", "-k", "-v"]);
    assert_eq!(validate_poll(Some(true), 0).unwrap().unwrap(), true);
    assert_eq!(validate_poll(Some(false), 9_000_000_000).unwrap().unwrap(), false);
    assert!(validate_poll(None, 5_000_000_000).is_none());
    assert_eq!(
        validate_poll(None, 5_000_000_001).unwrap().unwrap_err().to_string(),
        "xray process error: sudo -v did not return within 5 seconds"
    );
}

#[test]
fn secret_store_password_values() {
    assert_eq!(password_from(Ok("pw".to_string())), Some("pw".to_string()));
    assert_eq!(password_from(Ok(String::new())), None);
    assert_eq!(password_from(Err(keyring::Error::NoEntry)), None);
}

#[test]
fn secret_store_without_entry() {
    let unbuilt = || Err(AppError::XrayProcess("no store".to_string()));
    assert_eq!(read_from(unbuilt()), None);
    assert!(!has_from(unbuilt()));
    assert!(delete_from(unbuilt()).is_ok());
    assert_eq!(
        write_with(unbuilt(), "pw").unwrap_err().to_string(),
        "xray process error: no store"
    );
}

#[test]
fn secret_store_outcomes() {
    assert!(write_outcome(Ok(())).is_ok());
    assert_eq!(
        write_outcome(Err("locked".to_string())).unwrap_err().to_string(),
        "xray process error: Failed to store password in Secret Service: locked"
    );
    assert!(delete_outcome(Ok(())).is_ok());
    assert!(delete_outcome(Err(StoreFailure::NoEntry)).is_ok());
    assert_eq!(
        delete_outcome(Err(StoreFailure::Other("denied".to_string()))).unwrap_err().to_string(),
        "xray process error: Failed to delete password from Secret Service: denied"
    );
}

#[test]
fn tray_toggle_by_status() {
    assert_eq!(tray_toggle(ConnectionStatus::Connected), TrayToggle::Disconnect);
    assert_eq!(tray_toggle(ConnectionStatus::Connecting), TrayToggle::Disconnect);
    assert_eq!(tray_toggle(ConnectionStatus::Disconnected), TrayToggle::RequestConnect);
    assert_eq!(tray_toggle(ConnectionStatus::Error), TrayToggle::RequestConnect);
    assert_eq!(tray_toggle(ConnectionStatus::Disconnecting), TrayToggle::Wait);
}

#[test]
fn tray_label_follows_events() {
    assert_eq!(toggle_label("\"connected\""), "Disconnect");
    assert_eq!(toggle_label("\"disconnected\""), "Connect");
    assert_eq!(toggle_label("\"disconnecting\""), "Connect");
    assert_eq!(toggle_label("\"connecting\""), "Connect");
}

#[test]
fn bundled_binary_suffixes() {
    assert_eq!(xray_target_triple(Platform::MacOs, Arch::Aarch64), Some("aarch64-apple-darwin"));
    assert_eq!(xray_target_triple(Platform::Linux, Arch::X86_64), Some("x86_64-unknown-linux-gnu"));
    assert_eq!(xray_target_triple(Platform::Linux, Arch::Aarch64), Some("aarch64-unknown-linux-gnu"));
    assert_eq!(xray_target_triple(Platform::Windows, Arch::X86_64), None);
}
