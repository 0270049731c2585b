//! xray run through `sudo -S` on macOS, where it is stopped by killing its
//! whole process group (through sudo again when the group belongs to
//! root): what each answer of the system means. The command line to start
//! it is the one of [`crate::priv_xray`].
use vstd::prelude::*;
use vstd::string::*;

use crate::models::{AppError, AppErrorView, strings_view};
use crate::subscription::decimal_text;
use crate::text::{
    decimal_digits, str_trim, string_from_utf8_lossy, string_of, trim_chars, utf8_lossy,
};
use crate::xray::{is_sudo_rejection, sudo_rejection};

verus! {

/// What is kept of xray run through sudo while it runs: the process group.
pub struct SudoChild {
    pub pgid: i32,
}

/// Logged when sudo rejects the stored password at start.
pub const SUDO_REJECTED_LOG: &'static str =
    "Stored macOS password is no longer valid — please re-enter it next time you connect.";

/// The error when the saved password no longer works for stopping xray.
pub const STALE_PASSWORD_ERROR: &'static str =
    "Saved macOS password is no longer valid. The xray process is still running and must be killed manually with `sudo killall xray`. You'll be re-prompted for your password on the next connect.";

/// The error when there is no saved password to stop xray with.
pub const NO_PASSWORD_ERROR: &'static str =
    "Cannot kill root-owned xray: no sudo password in Keychain. The xray process may need to be killed manually with `sudo killall xray`.";

/// The decimal text of a signed number.
pub open spec fn i32_text(n: i32) -> Seq<char> {
    if n < 0 {
        "-"@ + utf8_lossy(decimal_digits((-n) as nat))
    } else {
        utf8_lossy(decimal_digits(n as nat))
    }
}

fn i32_string(n: i32) -> (r: String)
    ensures
        r@ == i32_text(n),
{
    if n < 0 {
        let m: i64 = 0i64 - (n as i64);
        let d = decimal_text(m as u64);
        string_of("-").concat(d.as_str())
    } else {
        decimal_text(n as u64)
    }
}

/// How sending a signal to the process group went.
pub enum SignalResult {
    /// It was sent.
    Sent,
    /// The group is gone (`ESRCH`).
    NoSuchProcess,
    /// The group belongs to another user, root here (`EPERM`).
    NotPermitted,
    /// Any other failure, with its text.
    Failed(String),
}

/// What to do after signalling the process group: done (`Ok(false)`) when
/// the signal went out or the group is gone; go through sudo (`Ok(true)`)
/// when it belongs to root; fail otherwise.
pub fn after_killpg(pgid: i32, sent: SignalResult) -> (r: Result<bool, AppError>)
    ensures
        sent is Sent || sent is NoSuchProcess ==> r == Ok::<bool, AppError>(false),
        sent is NotPermitted ==> r == Ok::<bool, AppError>(true),
        sent matches SignalResult::Failed(m) ==> (r matches Err(e) && e@ == AppErrorView::XrayProcess(
            "killpg("@ + i32_text(pgid) + ") failed: "@ + m@,
        )),
{
    match sent {
        SignalResult::Sent => Ok(false),
        SignalResult::NoSuchProcess => Ok(false),
        SignalResult::NotPermitted => Ok(true),
        SignalResult::Failed(m) => Err(
            AppError::XrayProcess(
                string_of("killpg(").concat(i32_string(pgid).as_str()).concat(") failed: ").concat(
                    m.as_str(),
                ),
            ),
        ),
    }
}

/// The password to stop xray with: the saved one, or an error when there
/// is none.
pub fn kill_password(saved: Option<String>) -> (r: Result<String, AppError>)
    ensures
        saved matches Some(p) ==> (r matches Ok(q) && q@ == p@),
        saved is None ==> (r matches Err(e) && e@ == AppErrorView::XrayProcess(NO_PASSWORD_ERROR@)),
{
    match saved {
        Some(p) => Ok(p),
        None => Err(AppError::XrayProcess(string_of(NO_PASSWORD_ERROR))),
    }
}

/// sudo's arguments to kill the whole process group.
pub fn sudo_kill_group_args(pgid: i32) -> (r: Vec<String>)
    ensures
        strings_view(r@) == seq!["-S"@, "-p"@, ""@, "kill"@, "-9"@, "-"@ + i32_text(pgid)],
{
    let g = string_of("-").concat(i32_string(pgid).as_str());
    let r = vec![
        string_of("-S"),
        string_of("-p"),
        string_of(""),
        string_of("kill"),
        string_of("-9"),
        g,
    ];
    assert(strings_view(r@) =~= seq!["-S"@, "-p"@, ""@, "kill"@, "-9"@, "-"@ + i32_text(pgid)]);
    r
}

/// What the exit of `sudo kill` means: the result of the stop, and
/// whether the saved password must be forgotten because sudo rejected it.
/// `status` is how the exit status prints and `stderr` what sudo wrote.
pub fn kill_outcome(success: bool, status: &str, stderr: &[u8]) -> (r: (Result<(), AppError>, bool))
    ensures
        success ==> r.0 is Ok && !r.1,
        !success && sudo_rejection(utf8_lossy(stderr@)) ==> (r.1 && (r.0 matches Err(e) && e@
            == AppErrorView::XrayProcess(STALE_PASSWORD_ERROR@))),
        !success && !sudo_rejection(utf8_lossy(stderr@)) ==> (!r.1 && (r.0 matches Err(e) && e@
            == AppErrorView::XrayProcess(
            "sudo kill failed ("@ + status@ + "): "@ + trim_chars(utf8_lossy(stderr@)),
        ))),
{
    if success {
        return (Ok(()), false);
    }
    let text = string_from_utf8_lossy(stderr);
    if is_sudo_rejection(text.as_str()) {
        return (Err(AppError::XrayProcess(string_of(STALE_PASSWORD_ERROR))), true);
    }
    let msg = string_of("sudo kill failed (").concat(status).concat("): ").concat(
        str_trim(text.as_str()),
    );
    (Err(AppError::XrayProcess(msg)), false)
}

} // verus!
