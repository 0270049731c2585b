//! xray run with root privileges through `sudo -S`, so that it can claim
//! the platform's TUN device in L3 mode: the command lines, and what
//! sudo's answers mean. Spawning, feeding the password, reading the
//! output and signalling are the caller's.
use vstd::prelude::*;
use vstd::string::*;

use crate::models::{strings_view, AppError, AppErrorView};
use crate::proxy::Platform;
use crate::text::{str_trim, string_from_utf8_lossy, string_of, trim_chars, utf8_lossy};
use crate::xray::{is_sudo_rejection, sudo_rejection};

verus! {

/// What is kept of xray run through sudo while it runs: the process group
/// of the sudo wrapper, and the path of the xray binary, by which the
/// process is found again to stop it.
pub struct SudoChild {
    pub pgid: i32,
    pub xray_path: String,
}

/// Logged when sudo rejects the saved password at start.
pub const SUDO_REJECTED_LOG: &'static str =
    "Saved sudo password is no longer valid — please re-enter it next time you connect.";

/// The error when the saved password no longer works for stopping xray.
pub const STALE_PASSWORD_ERROR: &'static str =
    "Saved sudo password is no longer valid. The xray process is still running and must be killed manually with `sudo killall xray`. You'll be re-prompted for your password on the next connect.";

/// The error when there is no saved password to stop xray with.
pub const NO_PASSWORD_ERROR: &'static str =
    "Cannot kill root-owned xray: no sudo password in the OS credential store. The xray process may need to be killed manually with `sudo killall xray`.";

/// The processor architectures the xray binary is bundled for.
#[derive(Debug, Clone, Copy, PartialEq, Eq, Structural)]
pub enum Arch {
    X86_64,
    Aarch64,
}

/// The target-triple suffix of the bundled xray binary's file name on the
/// desktops that run it through sudo; none on Windows.
pub fn xray_target_triple(platform: Platform, arch: Arch) -> (r: Option<&'static str>)
    ensures
        platform == Platform::MacOs && arch == Arch::Aarch64 ==> (r matches Some(t) && t@
            == "aarch64-apple-darwin"@),
        platform == Platform::MacOs && arch == Arch::X86_64 ==> (r matches Some(t) && t@
            == "x86_64-apple-darwin"@),
        platform == Platform::Linux && arch == Arch::X86_64 ==> (r matches Some(t) && t@
            == "x86_64-unknown-linux-gnu"@),
        platform == Platform::Linux && arch == Arch::Aarch64 ==> (r matches Some(t) && t@
            == "aarch64-unknown-linux-gnu"@),
        platform == Platform::Windows ==> r is None,
{
    match (platform, arch) {
        (Platform::MacOs, Arch::Aarch64) => Some("aarch64-apple-darwin"),
        (Platform::MacOs, Arch::X86_64) => Some("x86_64-apple-darwin"),
        (Platform::Linux, Arch::X86_64) => Some("x86_64-unknown-linux-gnu"),
        (Platform::Linux, Arch::Aarch64) => Some("aarch64-unknown-linux-gnu"),
        (Platform::Windows, _) => None,
    }
}

/// sudo's arguments to run xray with the configuration: the password on
/// standard input, no prompt, no cached credentials.
pub fn sudo_xray_args(xray_path: &str, config_path: &str) -> (r: Vec<String>)
    ensures
        strings_view(r@) == seq![
            "-S"@,
            "-p"@,
            ""@,
            "-k"@,
            xray_path@,
            "run"@,
            "-c"@,
            config_path@,
        ],
{
    let r = vec![
        string_of("-S"),
        string_of("-p"),
        string_of(""),
        string_of("-k"),
        string_of(xray_path),
        string_of("run"),
        string_of("-c"),
        string_of(config_path),
    ];
    assert(strings_view(r@) =~= seq![
        "-S"@,
        "-p"@,
        ""@,
        "-k"@,
        xray_path@,
        "run"@,
        "-c"@,
        config_path@,
    ]);
    r
}

/// The password to stop xray with: the saved one, or an error when there
/// is none.
pub fn kill_password(saved: Option<String>) -> (r: Result<String, AppError>)
    ensures
        saved matches Some(p) ==> (r matches Ok(q) && q@ == p@),
        saved is None ==> (r matches Err(e) && e@ == AppErrorView::XrayProcess(NO_PASSWORD_ERROR@)),
{
    match saved {
        Some(p) => Ok(p),
        None => Err(AppError::XrayProcess(string_of(NO_PASSWORD_ERROR))),
    }
}

/// sudo's arguments to kill every process running the xray binary.
pub fn sudo_pkill_args(xray_path: &str) -> (r: Vec<String>)
    ensures
        strings_view(r@) == seq!["-S"@, "-p"@, ""@, "pkill"@, "-9"@, "-f"@, xray_path@],
{
    let r = vec![
        string_of("-S"),
        string_of("-p"),
        string_of(""),
        string_of("pkill"),
        string_of("-9"),
        string_of("-f"),
        string_of(xray_path),
    ];
    assert(strings_view(r@) =~= seq!["-S"@, "-p"@, ""@, "pkill"@, "-9"@, "-f"@, xray_path@]);
    r
}

/// `pkill` succeeded: it signalled something (0), found nothing left (1),
/// or the sudo wrapper was itself killed by the signal (no exit code).
pub open spec fn pkill_done(code: Option<i32>) -> bool {
    match code {
        Some(c) => c == 0 || c == 1,
        None => true,
    }
}

/// What the exit of `sudo pkill` means: the result of the stop, and
/// whether the saved password must be forgotten because sudo rejected it.
/// `status` is how the exit status prints and `stderr` what sudo wrote.
pub fn pkill_outcome(code: Option<i32>, status: &str, stderr: &[u8]) -> (r: (Result<(), AppError>, bool))
    ensures
        pkill_done(code) ==> r.0 is Ok && !r.1,
        !pkill_done(code) && sudo_rejection(utf8_lossy(stderr@)) ==> (r.1 && (r.0 matches Err(e)
            && e@ == AppErrorView::XrayProcess(STALE_PASSWORD_ERROR@))),
        !pkill_done(code) && !sudo_rejection(utf8_lossy(stderr@)) ==> (!r.1 && (r.0 matches Err(e)
            && e@ == AppErrorView::XrayProcess(
            "sudo pkill failed ("@ + status@ + "): "@ + trim_chars(utf8_lossy(stderr@)),
        ))),
{
    let done = match code {
        Some(c) => c == 0 || c == 1,
        None => true,
    };
    if done {
        return (Ok(()), false);
    }
    let text = string_from_utf8_lossy(stderr);
    if is_sudo_rejection(text.as_str()) {
        return (Err(AppError::XrayProcess(string_of(STALE_PASSWORD_ERROR))), true);
    }
    let msg = string_of("sudo pkill failed (").concat(status).concat("): ").concat(
        str_trim(text.as_str()),
    );
    (Err(AppError::XrayProcess(msg)), false)
}

} // verus!
