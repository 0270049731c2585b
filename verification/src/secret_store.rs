//! The saved sudo password (needed to run xray with the privileges to claim
//! a TUN device) in the operating system's credential store, the Secret
//! Service, through the `keyring` crate.
use vstd::prelude::*;

use crate::models::{opt_chars, AppError, AppErrorView};
use crate::text::string_of;

verus! {

/// The service and account under which the password is saved.
pub const SERVICE_NAME: &'static str = "v2rayV";

pub const ACCOUNT_NAME: &'static str = "v2rayv-sudo";

#[verifier::external_type_specification]
#[verifier::external_body]
pub struct ExKeyringEntry(keyring::Entry);

#[verifier::external_type_specification]
#[verifier::external_body]
pub struct ExKeyringError(keyring::Error);

/// An entry of the credential store, with the service and account it was
/// built for and the last password handed to the store through it.
pub struct StoreEntry {
    entry: keyring::Entry,
    service: String,
    account: String,
    handed: Ghost<Option<Seq<char>>>,
}

impl StoreEntry {
    /// The service the entry was built for.
    pub closed spec fn service(&self) -> Seq<char> {
        self.service@
    }

    /// The account the entry was built for.
    pub closed spec fn account(&self) -> Seq<char> {
        self.account@
    }

    /// The last password handed to the store through this entry.
    pub closed spec fn handed(&self) -> Option<Seq<char>> {
        self.handed@
    }
}

/// `keyring::Entry::new(service, user)`: an entry of the default credential
/// store for that service and account, kept with the two names it was built
/// from. Whether it can be built depends on the platform and its store, so
/// nothing is stated of which outcome comes.
#[verifier::external_body]
fn keyring_entry_new(service: &str, user: &str) -> (r: Result<StoreEntry, keyring::Error>)
    ensures
        r matches Ok(e) ==> e.service() == service@ && e.account() == user@ && e.handed() is None,
{
    match keyring::Entry::new(service, user) {
        Ok(entry) => Ok(StoreEntry { entry, service: service.to_string(), account: user.to_string(), handed: Ghost(None) }),
        Err(e) => Err(e),
    }
}

/// `keyring::Entry::get_password`: the saved password, or an error (such
/// as `NoEntry`); it depends on the store, so nothing is stated.
#[verifier::external_body]
fn keyring_get_password(entry: &StoreEntry) -> (r: Result<String, keyring::Error>) {
    entry.entry.get_password()
}

/// `keyring::Entry::set_password`: hands `password` to the store through
/// the entry; whether the store takes it depends on the store, so only the
/// handing over is stated.
#[verifier::external_body]
fn keyring_set_password(entry: &mut StoreEntry, password: &str) -> (r: Result<(), keyring::Error>)
    ensures
        final(entry).service() == old(entry).service(),
        final(entry).account() == old(entry).account(),
        final(entry).handed() == Some(password@),
{
    entry.handed = Ghost(Some(password@));
    entry.entry.set_password(password)
}

/// `keyring::Entry::delete_credential`: removes the saved credential;
/// success depends on the store, so nothing is stated.
#[verifier::external_body]
fn keyring_delete_credential(entry: &StoreEntry) -> (r: Result<(), keyring::Error>) {
    entry.entry.delete_credential()
}

/// Whether a `keyring::Error` is the `NoEntry` variant (nothing saved).
#[verifier::external_body]
fn keyring_error_is_no_entry(e: &keyring::Error) -> (r: bool) {
    match e {
        keyring::Error::NoEntry => true,
        _ => false,
    }
}

/// The `Display` text of a `keyring::Error`.
#[verifier::external_body]
fn keyring_error_message(e: &keyring::Error) -> (r: String) {
    format!("{e}")
}

/// The message of the error given when no entry can be built, after the
/// store's own error text `m`.
pub open spec fn entry_failure_text(m: Seq<char>) -> Seq<char> {
    "Failed to build Secret Service entry ("@ + SERVICE_NAME@ + "/"@ + ACCOUNT_NAME@ + "): "@ + m
        + ". Is a Secret Service provider (gnome-keyring, kwallet, keepassxc, ...) running?"@
}

/// The message of the error given when saving fails with the store's
/// error text `m`.
pub open spec fn store_failure_text(m: Seq<char>) -> Seq<char> {
    "Failed to store password in Secret Service: "@ + m
}

/// The message of the error given when removing fails with the store's
/// error text `m`.
pub open spec fn delete_failure_text(m: Seq<char>) -> Seq<char> {
    "Failed to delete password from Secret Service: "@ + m
}

/// How a failed call into the store is read: nothing saved, or another
/// failure with its text.
pub enum StoreFailure {
    NoEntry,
    Other(String),
}

/// A store error as the library reads it.
fn store_failure(e: &keyring::Error) -> (r: StoreFailure) {
    if keyring_error_is_no_entry(e) {
        StoreFailure::NoEntry
    } else {
        StoreFailure::Other(keyring_error_message(e))
    }
}

/// The error for an entry that could not be built, with the store's text.
fn entry_error(m: &str) -> (r: AppError)
    ensures
        r@ == AppErrorView::XrayProcess(entry_failure_text(m@)),
{
    AppError::XrayProcess(
        string_of("Failed to build Secret Service entry (").concat(SERVICE_NAME).concat(
            "/",
        ).concat(ACCOUNT_NAME).concat("): ").concat(m).concat(
            ". Is a Secret Service provider (gnome-keyring, kwallet, keepassxc, ...) running?",
        ),
    )
}

/// The entry of the saved password, for the service and account of this
/// library; when the store cannot build it, the error carries the store's
/// own text.
fn entry() -> (r: Result<StoreEntry, AppError>)
    ensures
        r matches Ok(e) ==> e.service() == SERVICE_NAME@ && e.account() == ACCOUNT_NAME@ && e.handed() is None,
        r matches Err(e) ==> exists|m: Seq<char>| e@ == AppErrorView::XrayProcess(entry_failure_text(m)),
{
    match keyring_entry_new(SERVICE_NAME, ACCOUNT_NAME) {
        Ok(e) => Ok(e),
        Err(e) => {
            let m = keyring_error_message(&e);
            let err = entry_error(m.as_str());
            assert(err@ == AppErrorView::XrayProcess(entry_failure_text(m@)));
            Err(err)
        },
    }
}

/// What a read gives from the store's answer (`None` for any error): a
/// non-empty password, else nothing.
pub open spec fn read_result(got: Option<Seq<char>>) -> Option<Seq<char>> {
    match got {
        Some(pw) => if pw.len() > 0 {
            Some(pw)
        } else {
            None
        },
        None => None,
    }
}

/// A looked-up password counts only when it is not empty.
pub fn password_from(got: Result<String, keyring::Error>) -> (r: Option<String>)
    ensures
        opt_chars(r) == read_result(
            match got {
                Ok(pw) => Some(pw@),
                Err(_) => None,
            },
        ),
{
    match got {
        Ok(pw) => if pw.as_str().unicode_len() > 0 {
            Some(pw)
        } else {
            None
        },
        Err(_) => None,
    }
}

/// The saved password read through a built entry; nothing when the entry
/// could not be built.
pub fn read_from(built: Result<StoreEntry, AppError>) -> (r: Option<String>)
    ensures
        built is Err ==> r is None,
        r matches Some(pw) ==> pw@.len() > 0,
{
    match built {
        Err(_) => None,
        Ok(e) => password_from(keyring_get_password(&e)),
    }
}

/// The saved password; `None` when there is none, it is empty, or the
/// store cannot be reached.
pub fn read() -> (r: Option<String>)
    ensures
        r matches Some(pw) ==> pw@.len() > 0,
{
    read_from(entry())
}

/// Whether a non-empty password is saved, read through a built entry;
/// `false` when the entry could not be built.
pub fn has_from(built: Result<StoreEntry, AppError>) -> (r: bool)
    ensures
        built is Err ==> !r,
{
    match built {
        Err(_) => false,
        Ok(e) => password_from(keyring_get_password(&e)).is_some(),
    }
}

/// Whether a non-empty password is saved.
pub fn has() -> (r: bool) {
    has_from(entry())
}

/// The outcome of saving, from the store's answer (its error text on
/// failure).
pub fn write_outcome(res: Result<(), String>) -> (r: Result<(), AppError>)
    ensures
        res is Ok ==> r is Ok,
        res matches Err(m) ==> (r matches Err(e) && e@ == AppErrorView::XrayProcess(
            store_failure_text(m@),
        )),
{
    match res {
        Ok(()) => Ok(()),
        Err(m) => Err(
            AppError::XrayProcess(
                string_of("Failed to store password in Secret Service: ").concat(m.as_str()),
            ),
        ),
    }
}

/// Hands `password` to the store through `entry`, which keeps its service
/// and account; an error carries the store's text.
pub fn write_to(entry: &mut StoreEntry, password: &str) -> (r: Result<(), AppError>)
    ensures
        final(entry).service() == old(entry).service(),
        final(entry).account() == old(entry).account(),
        final(entry).handed() == Some(password@),
        r matches Err(e) ==> exists|m: Seq<char>| e@ == AppErrorView::XrayProcess(store_failure_text(m)),
{
    match keyring_set_password(entry, password) {
        Ok(()) => write_outcome(Ok(())),
        Err(err) => {
            let m = keyring_error_message(&err);
            let ghost mv = m@;
            let r = write_outcome(Err(m));
            assert(r matches Err(e) && e@ == AppErrorView::XrayProcess(store_failure_text(mv)));
            r
        },
    }
}

/// Saves the password through a built entry; the build error when the
/// entry could not be built.
pub fn write_with(built: Result<StoreEntry, AppError>, password: &str) -> (r: Result<(), AppError>)
    ensures
        built matches Err(b) ==> (r matches Err(e) && e@ == b@),
        built is Ok ==> (r matches Err(e) ==> exists|m: Seq<char>| e@ == AppErrorView::XrayProcess(store_failure_text(m))),
{
    match built {
        Err(b) => Err(b),
        Ok(mut e) => write_to(&mut e, password),
    }
}

/// Saves the password, replacing any saved one. An error says whether the
/// entry could not be built or the store refused the password.
pub fn write(password: &str) -> (r: Result<(), AppError>)
    ensures
        r matches Err(e) ==> exists|m: Seq<char>|
            e@ == AppErrorView::XrayProcess(entry_failure_text(m)) || e@
                == AppErrorView::XrayProcess(store_failure_text(m)),
{
    write_with(entry(), password)
}

/// The view of a store failure.
pub enum StoreFailureView {
    NoEntry,
    Other(Seq<char>),
}

impl View for StoreFailure {
    type V = StoreFailureView;

    open spec fn view(&self) -> StoreFailureView {
        match self {
            StoreFailure::NoEntry => StoreFailureView::NoEntry,
            StoreFailure::Other(m) => StoreFailureView::Other(m@),
        }
    }
}

/// What a deletion gives from the store's answer (`None` for success):
/// nothing saved counts as deleted, another failure is an error.
pub open spec fn delete_result(failed: Option<StoreFailureView>) -> Result<(), AppErrorView> {
    match failed {
        None => Ok(()),
        Some(StoreFailureView::NoEntry) => Ok(()),
        Some(StoreFailureView::Other(m)) => Err(AppErrorView::XrayProcess(delete_failure_text(m))),
    }
}

/// The view of a result with no value.
pub open spec fn unit_result_view(r: Result<(), AppError>) -> Result<(), AppErrorView> {
    match r {
        Ok(()) => Ok(()),
        Err(e) => Err(e@),
    }
}

/// The outcome of a deletion: nothing saved counts as deleted; another
/// failure is an error with the store's text.
pub fn delete_outcome(res: Result<(), StoreFailure>) -> (r: Result<(), AppError>)
    ensures
        unit_result_view(r) == delete_result(
            match res {
                Ok(()) => None,
                Err(f) => Some(f@),
            },
        ),
{
    match res {
        Ok(()) => Ok(()),
        Err(StoreFailure::NoEntry) => Ok(()),
        Err(StoreFailure::Other(m)) => Err(
            AppError::XrayProcess(
                string_of("Failed to delete password from Secret Service: ").concat(m.as_str()),
            ),
        ),
    }
}

/// Removes the saved password through a built entry; an entry that could
/// not be built counts as removed.
pub fn delete_from(built: Result<StoreEntry, AppError>) -> (r: Result<(), AppError>)
    ensures
        built is Err ==> r is Ok,
        r matches Err(e) ==> exists|m: Seq<char>| e@ == AppErrorView::XrayProcess(delete_failure_text(m)),
{
    match built {
        Err(_) => Ok(()),
        Ok(e) => match keyring_delete_credential(&e) {
            Ok(()) => delete_outcome(Ok(())),
            Err(err) => {
                let f = store_failure(&err);
                delete_outcome(Err(f))
            },
        },
    }
}

/// Removes the saved password; an unreachable store or nothing saved
/// counts as removed, and an error carries the store's text.
pub fn delete() -> (r: Result<(), AppError>)
    ensures
        r matches Err(e) ==> exists|m: Seq<char>| e@ == AppErrorView::XrayProcess(delete_failure_text(m)),
{
    delete_from(entry())
}

/// Removing is idempotent: when the store holds nothing, so that a
/// removal answers success or `NoEntry` and a lookup answers with an
/// error, removing again succeeds and a read finds nothing.
pub proof fn lemma_delete_idempotent(removal: Option<StoreFailureView>, lookup: Option<Seq<char>>)
    requires
        removal is None || removal == Some(StoreFailureView::NoEntry),
        lookup is None,
    ensures
        delete_result(removal) is Ok,
        read_result(lookup) is None,
{
}

/// The saved password, if a non-empty one is saved.
pub fn read_password() -> (r: Option<String>)
    ensures
        r matches Some(pw) ==> pw@.len() > 0,
{
    read()
}

/// Whether a password is saved.
pub fn has_password() -> (r: bool) {
    has()
}

/// Saves the password, replacing any saved one.
pub fn write_password(password: &str) -> (r: Result<(), AppError>)
    ensures
        r matches Err(e) ==> exists|m: Seq<char>|
            e@ == AppErrorView::XrayProcess(entry_failure_text(m)) || e@
                == AppErrorView::XrayProcess(store_failure_text(m)),
{
    write(password)
}

/// Removes the saved password, so that the next connect asks again.
pub fn delete_password() -> (r: Result<(), AppError>)
    ensures
        r matches Err(e) ==> exists|m: Seq<char>| e@ == AppErrorView::XrayProcess(delete_failure_text(m)),
{
    delete()
}

} // verus!
