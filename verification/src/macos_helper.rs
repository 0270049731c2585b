//! The sudo password on macOS, kept in the login Keychain through the
//! `security` tool, and checked against sudo before it is saved: the
//! tools' command lines and what their answers mean. Running them is the
//! caller's.
use vstd::prelude::*;
use vstd::string::*;

use crate::models::{strings_view, AppError, AppErrorView};
use crate::secret_store::{ACCOUNT_NAME, SERVICE_NAME};
use crate::text::{str_trim, string_from_utf8_lossy, string_of, trim_chars, utf8_lossy};

verus! {

/// `security`'s arguments to look the entry up; with `-w` it prints the
/// password.
pub fn find_password_args(print_password: bool) -> (r: Vec<String>)
    ensures
        strings_view(r@) == seq![
            "find-generic-password"@,
            "-s"@,
            SERVICE_NAME@,
            "-a"@,
            ACCOUNT_NAME@,
        ] + if print_password {
            seq!["-w"@]
        } else {
            Seq::empty()
        },
{
    let mut r = vec![
        string_of("find-generic-password"),
        string_of("-s"),
        string_of(SERVICE_NAME),
        string_of("-a"),
        string_of(ACCOUNT_NAME),
    ];
    let ghost base = strings_view(r@);
    assert(base =~= seq!["find-generic-password"@, "-s"@, SERVICE_NAME@, "-a"@, ACCOUNT_NAME@]);
    if print_password {
        r.push(string_of("-w"));
        assert(strings_view(r@) =~= base + seq!["-w"@]);
    } else {
        assert(strings_view(r@) =~= base + Seq::<Seq<char>>::empty());
    }
    r
}

/// `security`'s arguments to save the password, replacing an entry.
pub fn add_password_args(password: &str) -> (r: Vec<String>)
    ensures
        strings_view(r@) == seq![
            "add-generic-password"@,
            "-s"@,
            SERVICE_NAME@,
            "-a"@,
            ACCOUNT_NAME@,
            "-w"@,
            password@,
            "-U"@,
        ],
{
    let r = vec![
        string_of("add-generic-password"),
        string_of("-s"),
        string_of(SERVICE_NAME),
        string_of("-a"),
        string_of(ACCOUNT_NAME),
        string_of("-w"),
        string_of(password),
        string_of("-U"),
    ];
    assert(strings_view(r@) =~= seq![
        "add-generic-password"@,
        "-s"@,
        SERVICE_NAME@,
        "-a"@,
        ACCOUNT_NAME@,
        "-w"@,
        password@,
        "-U"@,
    ]);
    r
}

/// `security`'s arguments to drop the entry.
pub fn delete_password_args() -> (r: Vec<String>)
    ensures
        strings_view(r@) == seq![
            "delete-generic-password"@,
            "-s"@,
            SERVICE_NAME@,
            "-a"@,
            ACCOUNT_NAME@,
        ],
{
    let r = vec![
        string_of("delete-generic-password"),
        string_of("-s"),
        string_of(SERVICE_NAME),
        string_of("-a"),
        string_of(ACCOUNT_NAME),
    ];
    assert(strings_view(r@) =~= seq![
        "delete-generic-password"@,
        "-s"@,
        SERVICE_NAME@,
        "-a"@,
        ACCOUNT_NAME@,
    ]);
    r
}

/// What `security find-generic-password -w` printed: the password,
/// trimmed, when the tool succeeded and it is not empty.
pub open spec fn security_password_text(success: bool, stdout: Seq<u8>) -> Option<Seq<char>> {
    let pw = trim_chars(utf8_lossy(stdout));
    if success && pw.len() > 0 {
        Some(pw)
    } else {
        None
    }
}

/// The password `security find-generic-password -w` printed (see
/// [`security_password_text`]).
pub fn security_password(success: bool, stdout: &[u8]) -> (r: Option<String>)
    ensures
        crate::models::opt_chars(r) == security_password_text(success, stdout@),
{
    if !success {
        return None;
    }
    let s = string_from_utf8_lossy(stdout);
    let pw = str_trim(s.as_str());
    if pw.unicode_len() == 0 {
        None
    } else {
        Some(string_of(pw))
    }
}

/// The outcome of `security add-generic-password`; `status` is how the
/// exit status prints.
pub fn security_write_outcome(success: bool, status: &str) -> (r: Result<(), AppError>)
    ensures
        success ==> r is Ok,
        !success ==> (r matches Err(e) && e@ == AppErrorView::XrayProcess(
            "security add-generic-password exited with "@ + status@,
        )),
{
    if !success {
        return Err(
            AppError::XrayProcess(string_of("security add-generic-password exited with ").concat(status)),
        );
    }
    Ok(())
}

/// The outcome of `security delete-generic-password`: success, or exit
/// code 44 (no such item), count as deleted; `status` is how the exit
/// status prints.
pub fn security_delete_outcome(success: bool, code: Option<i32>, status: &str) -> (r: Result<(), AppError>)
    ensures
        (success || code == Some(44i32)) ==> r is Ok,
        !(success || code == Some(44i32)) ==> (r matches Err(e) && e@ == AppErrorView::XrayProcess(
            "security delete-generic-password exited with "@ + status@,
        )),
{
    let no_item = match code {
        Some(c) => c == 44,
        None => false,
    };
    if !success && !no_item {
        return Err(
            AppError::XrayProcess(
                string_of("security delete-generic-password exited with ").concat(status),
            ),
        );
    }
    Ok(())
}

/// sudo's arguments to check a password: read it from standard input,
/// no prompt, forget cached credentials first, only validate.
pub fn sudo_validate_args() -> (r: Vec<String>)
    ensures
        strings_view(r@) == seq!["-S"@, "-p"@, ""@, "-k"@, "-v"@],
{
    let r = vec![string_of("-S"), string_of("-p"), string_of(""), string_of("-k"), string_of("-v")];
    assert(strings_view(r@) =~= seq!["-S"@, "-p"@, ""@, "-k"@, "-v"@]);
    r
}

/// How long sudo may take to check a password, in nanoseconds.
pub const VALIDATE_TIMEOUT_NANOS: u64 = 5_000_000_000;

/// One poll of the password check: when sudo has exited, whether it
/// accepted the password; when it has not and the time is up, a failure
/// (the caller kills sudo); otherwise `None`, poll again later.
pub fn validate_poll(exited: Option<bool>, elapsed_nanos: u64) -> (r: Option<Result<bool, AppError>>)
    ensures
        exited matches Some(ok) ==> r == Some(Ok::<bool, AppError>(ok)),
        exited is None && elapsed_nanos > VALIDATE_TIMEOUT_NANOS ==> (r matches Some(Err(e)) && e@
            == AppErrorView::XrayProcess("sudo -v did not return within 5 seconds"@)),
        exited is None && elapsed_nanos <= VALIDATE_TIMEOUT_NANOS ==> r is None,
{
    match exited {
        Some(ok) => Some(Ok(ok)),
        None => if elapsed_nanos > VALIDATE_TIMEOUT_NANOS {
            Some(Err(AppError::XrayProcess(string_of("sudo -v did not return within 5 seconds"))))
        } else {
            None
        },
    }
}

} // verus!
