//! The operating system's proxy settings: which settings to write to point
//! it at the local proxy, to restore it, and to clean up what a crashed
//! session left behind. Running `gsettings` or `reg` is the caller's.
use vstd::prelude::*;
use vstd::string::*;
use vstd::utf8::*;

use crate::models::{opt_chars, strings_view};
use crate::network::{strip_cr, text_lines};
use crate::subscription::decimal_text;
use crate::text::{
    copy_range, decimal_digits, find_byte, lemma_find_first_char, range_eq, starts_with, str_eq,
    str_trim, string_from_utf8_lossy, string_of, text_starts_with, trim_chars, utf8_lossy,
};

verus! {

/// Where the local proxies listen.
pub const SOCKS_HOST: &'static str = "127.0.0.1";

pub const HTTP_HOST: &'static str = "127.0.0.1";

pub const HTTP_PORT: u16 = 10809;

/// The operating system the application runs on.
#[derive(Debug, Clone, Copy, PartialEq, Eq, Structural)]
pub enum Platform {
    Linux,
    Windows,
    MacOs,
}

/// One change of the proxy settings.
#[derive(Debug)]
pub enum ProxyCommand {
    /// `gsettings set SCHEMA KEY VALUE`.
    GsettingsSet { schema: String, key: String, value: String },
    /// `reg add KEY /v NAME /t REG_DWORD /d VALUE /f`.
    RegSetDword { key: String, name: String, value: String },
    /// `reg add KEY /v NAME /t REG_SZ /d VALUE /f`.
    RegSetString { key: String, name: String, value: String },
    /// `reg delete KEY /v NAME /f`.
    RegDelete { key: String, name: String },
    /// Tell WinINet that the settings changed.
    RefreshWindowsProxy,
}

pub enum ProxyCommandView {
    GsettingsSet { schema: Seq<char>, key: Seq<char>, value: Seq<char> },
    RegSetDword { key: Seq<char>, name: Seq<char>, value: Seq<char> },
    RegSetString { key: Seq<char>, name: Seq<char>, value: Seq<char> },
    RegDelete { key: Seq<char>, name: Seq<char> },
    RefreshWindowsProxy,
}

impl View for ProxyCommand {
    type V = ProxyCommandView;

    open spec fn view(&self) -> ProxyCommandView {
        match self {
            ProxyCommand::GsettingsSet { schema, key, value } => ProxyCommandView::GsettingsSet {
                schema: schema@,
                key: key@,
                value: value@,
            },
            ProxyCommand::RegSetDword { key, name, value } => ProxyCommandView::RegSetDword {
                key: key@,
                name: name@,
                value: value@,
            },
            ProxyCommand::RegSetString { key, name, value } => ProxyCommandView::RegSetString {
                key: key@,
                name: name@,
                value: value@,
            },
            ProxyCommand::RegDelete { key, name } => ProxyCommandView::RegDelete {
                key: key@,
                name: name@,
            },
            ProxyCommand::RefreshWindowsProxy => ProxyCommandView::RefreshWindowsProxy,
        }
    }
}

pub open spec fn command_views(v: Seq<ProxyCommand>) -> Seq<ProxyCommandView> {
    v.map_values(|c: ProxyCommand| c@)
}

fn push_command(v: &mut Vec<ProxyCommand>, c: ProxyCommand)
    ensures
        command_views(final(v)@) == command_views(old(v)@).push(c@),
{
    let ghost before = command_views(v@);
    let ghost cv = c@;
    v.push(c);
    assert(command_views(v@) =~= before.push(cv));
}

pub open spec fn gset(schema: Seq<char>, key: Seq<char>, value: Seq<char>) -> ProxyCommandView {
    ProxyCommandView::GsettingsSet { schema, key, value }
}

fn gsettings(schema: &str, key: &str, value: &str) -> (r: ProxyCommand)
    ensures
        r@ == gset(schema@, key@, value@),
{
    ProxyCommand::GsettingsSet { schema: string_of(schema), key: string_of(key), value: string_of(value) }
}

// ---------------------------------------------------------------------------
// Joining and decimal text
// ---------------------------------------------------------------------------

/// The parts joined with `sep` between them.
pub open spec fn join_text(parts: Seq<Seq<char>>, sep: Seq<char>) -> Seq<char>
    decreases parts.len(),
{
    if parts.len() == 0 {
        Seq::empty()
    } else if parts.len() == 1 {
        parts[0]
    } else {
        parts[0] + sep + join_text(parts.drop_first(), sep)
    }
}

proof fn lemma_join_text_push(parts: Seq<Seq<char>>, x: Seq<char>, sep: Seq<char>)
    requires
        parts.len() > 0,
    ensures
        join_text(parts.push(x), sep) == join_text(parts, sep) + sep + x,
    decreases parts.len(),
{
    if parts.len() == 1 {
        assert(parts.push(x).drop_first() =~= seq![x]);
        assert(join_text(seq![x], sep) == x);
    } else {
        lemma_join_text_push(parts.drop_first(), x, sep);
        assert(parts.push(x).drop_first() =~= parts.drop_first().push(x));
    }
}

/// Joins the strings with `sep` between them.
pub fn join_strings(parts: &Vec<String>, sep: &str) -> (r: String)
    ensures
        r@ == join_text(strings_view(parts@), sep@),
{
    let ghost pv = strings_view(parts@);
    if parts.len() == 0 {
        return String::new();
    }
    let mut out = parts[0].clone();
    let mut i: usize = 1;
    assert(pv.take(1) =~= seq![pv[0]]);
    while i < parts.len()
        invariant
            1 <= i <= parts@.len(),
            pv == strings_view(parts@),
            out@ == join_text(pv.take(i as int), sep@),
        decreases parts@.len() - i,
    {
        proof {
            lemma_join_text_push(pv.take(i as int), pv[i as int], sep@);
            assert(pv.take(i as int).push(pv[i as int]) =~= pv.take(i + 1));
        }
        out = out.concat(sep).concat(parts[i].as_str());
        i = i + 1;
    }
    assert(pv.take(parts@.len() as int) =~= pv);
    out
}

/// The trimmed entries that are not empty.
pub open spec fn trimmed_entries(v: Seq<Seq<char>>) -> Seq<Seq<char>> {
    v.map_values(|s: Seq<char>| trim_chars(s)).filter(|s: Seq<char>| s.len() > 0)
}

pub(crate) fn trimmed_nonempty(v: &[String]) -> (r: Vec<String>)
    ensures
        strings_view(r@) == trimmed_entries(strings_view(v@)),
{
    let ghost ss = strings_view(v@);
    let ghost f = |s: Seq<char>| trim_chars(s);
    let ghost p = |s: Seq<char>| s.len() > 0;
    let mut out: Vec<String> = Vec::new();
    let mut i: usize = 0;
    while i < v.len()
        invariant
            i <= v@.len(),
            ss == strings_view(v@),
            f == (|s: Seq<char>| trim_chars(s)),
            p == (|s: Seq<char>| s.len() > 0),
            strings_view(out@) == ss.take(i as int).map_values(f).filter(p),
        decreases v@.len() - i,
    {
        let t = str_trim(v[i].as_str());
        proof {
            reveal(Seq::filter);
            let m = ss.take(i + 1).map_values(f);
            assert(m.drop_last() =~= ss.take(i as int).map_values(f));
            assert(m.last() == t@);
        }
        if t.unicode_len() > 0 {
            let ghost before = strings_view(out@);
            out.push(string_of(t));
            assert(strings_view(out@) =~= before.push(t@));
        }
        i = i + 1;
    }
    assert(ss.take(v@.len() as int) =~= ss);
    out
}

// ---------------------------------------------------------------------------
// GNOME
// ---------------------------------------------------------------------------

/// `'x'`.
pub open spec fn quoted(x: Seq<char>) -> Seq<char> {
    "'"@ + x + "'"@
}

/// The quoted domain and its subdomains: `'d'`, `'*.d'`.
pub open spec fn domain_hosts(domains: Seq<Seq<char>>) -> Seq<Seq<char>>
    decreases domains.len(),
{
    if domains.len() == 0 {
        Seq::empty()
    } else {
        domain_hosts(domains.drop_last()) + seq![
            quoted(domains.last()),
            quoted("*."@ + domains.last()),
        ]
    }
}

/// The hosts GNOME must not proxy: local and private ranges, then each
/// bypass domain with its subdomains, then each bypass subnet.
pub open spec fn gnome_ignore_list(domains: Seq<Seq<char>>, subnets: Seq<Seq<char>>) -> Seq<Seq<char>> {
    seq![
        "'localhost'"@,
        "'127.0.0.0/8'"@,
        "'10.0.0.0/8'"@,
        "'172.16.0.0/12'"@,
        "'192.168.0.0/16'"@,
        "'::1'"@,
    ] + domain_hosts(trimmed_entries(domains)) + trimmed_entries(subnets).map_values(
        |s: Seq<char>| quoted(s),
    )
}

/// Each domain gives two hosts, the domain and its subdomains, in order.
proof fn lemma_domain_hosts_shape(domains: Seq<Seq<char>>)
    ensures
        domain_hosts(domains).len() == 2 * domains.len(),
        forall|k: int|
            0 <= k < domains.len() ==> domain_hosts(domains)[2 * k] == "'"@ + #[trigger] domains[k] + "'"@
                && domain_hosts(domains)[2 * k + 1] == "'*."@ + domains[k] + "'"@,
    decreases domains.len(),
{
    if domains.len() > 0 {
        let init = domains.drop_last();
        lemma_domain_hosts_shape(init);
        let d = domains.last();
        reveal_strlit("'");
        reveal_strlit("*.");
        reveal_strlit("'*.");
        assert("'"@ + ("*."@ + d) + "'"@ =~= "'*."@ + d + "'"@);
        assert forall|k: int|
            0 <= k < domains.len() implies domain_hosts(domains)[2 * k] == "'"@ + #[trigger] domains[k]
            + "'"@ && domain_hosts(domains)[2 * k + 1] == "'*."@ + domains[k] + "'"@ by {
            if k < init.len() {
                assert(init[k] == domains[k]);
            }
        }
    }
}

/// GNOME is told to bypass every bypass domain and its subdomains, and
/// every bypass subnet: after the six local and private entries, each
/// non-blank domain `d` (trimmed, in order) appears as `'d'` followed by
/// `'*.d'`, and then each non-blank subnet `n` as `'n'`.
pub proof fn lemma_every_domain_ignored(domains: Seq<Seq<char>>, subnets: Seq<Seq<char>>)
    ensures
        ({
            let list = gnome_ignore_list(domains, subnets);
            let ds = trimmed_entries(domains);
            &&& list.len() == 6 + 2 * ds.len() + trimmed_entries(subnets).len()
            &&& forall|k: int|
                0 <= k < ds.len() ==> list[6 + 2 * k] == "'"@ + #[trigger] ds[k] + "'"@ && list[6 + 2 * k
                    + 1] == "'*."@ + ds[k] + "'"@
            &&& forall|k: int|
                0 <= k < trimmed_entries(subnets).len() ==> list[6 + 2 * ds.len() + k] == "'"@
                    + #[trigger] trimmed_entries(subnets)[k] + "'"@
        }),
{
    let ds = trimmed_entries(domains);
    lemma_domain_hosts_shape(ds);
    let list = gnome_ignore_list(domains, subnets);
    let base = seq![
        "'localhost'"@,
        "'127.0.0.0/8'"@,
        "'10.0.0.0/8'"@,
        "'172.16.0.0/12'"@,
        "'192.168.0.0/16'"@,
        "'::1'"@,
    ];
    assert forall|k: int|
        0 <= k < ds.len() implies list[6 + 2 * k] == "'"@ + #[trigger] ds[k] + "'"@ && list[6 + 2 * k
        + 1] == "'*."@ + ds[k] + "'"@ by {
        assert(list[6 + 2 * k] == domain_hosts(ds)[2 * k]);
        assert(list[6 + 2 * k + 1] == domain_hosts(ds)[2 * k + 1]);
    }
}

/// The `ignore-hosts` value: the list in brackets, comma-separated.
pub open spec fn gnome_ignore_hosts(domains: Seq<Seq<char>>, subnets: Seq<Seq<char>>) -> Seq<char> {
    "["@ + join_text(gnome_ignore_list(domains, subnets), ", "@) + "]"@
}

fn quote(x: &str) -> (r: String)
    ensures
        r@ == quoted(x@),
{
    string_of("'").concat(x).concat("'")
}

/// The `ignore-hosts` value for GNOME (see [`gnome_ignore_hosts`]).
pub fn linux_ignore_hosts(bypass_domains: &[String], bypass_subnets: &[String]) -> (r: String)
    ensures
        r@ == gnome_ignore_hosts(strings_view(bypass_domains@), strings_view(bypass_subnets@)),
{
    let mut hosts: Vec<String> = Vec::new();
    hosts.push(string_of("'localhost'"));
    hosts.push(string_of("'127.0.0.0/8'"));
    hosts.push(string_of("'10.0.0.0/8'"));
    hosts.push(string_of("'172.16.0.0/12'"));
    hosts.push(string_of("'192.168.0.0/16'"));
    hosts.push(string_of("'::1'"));
    let ghost base = strings_view(hosts@);
    let domains = trimmed_nonempty(bypass_domains);
    let ghost dv = strings_view(domains@);
    let mut i: usize = 0;
    while i < domains.len()
        invariant
            i <= domains@.len(),
            dv == strings_view(domains@),
            strings_view(hosts@) == base + domain_hosts(dv.take(i as int)),
        decreases domains@.len() - i,
    {
        let ghost before = strings_view(hosts@);
        hosts.push(quote(domains[i].as_str()));
        let sub = string_of("*.").concat(domains[i].as_str());
        hosts.push(quote(sub.as_str()));
        proof {
            assert(dv.take(i + 1).drop_last() =~= dv.take(i as int));
            assert(dv.take(i + 1).last() == dv[i as int]);
            assert(strings_view(hosts@) =~= before + seq![
                quoted(dv[i as int]),
                quoted("*."@ + dv[i as int]),
            ]);
        }
        i = i + 1;
    }
    assert(dv.take(domains@.len() as int) =~= dv);
    let ghost mid = strings_view(hosts@);
    let subnets = trimmed_nonempty(bypass_subnets);
    let ghost sv = strings_view(subnets@);
    let mut j: usize = 0;
    while j < subnets.len()
        invariant
            j <= subnets@.len(),
            sv == strings_view(subnets@),
            strings_view(hosts@) == mid + sv.take(j as int).map_values(|s: Seq<char>| quoted(s)),
        decreases subnets@.len() - j,
    {
        let ghost before = strings_view(hosts@);
        hosts.push(quote(subnets[j].as_str()));
        assert(sv.take(j + 1).map_values(|s: Seq<char>| quoted(s)) =~= sv.take(j as int).map_values(
            |s: Seq<char>| quoted(s),
        ).push(quoted(sv[j as int])));
        assert(strings_view(hosts@) =~= before.push(quoted(sv[j as int])));
        j = j + 1;
    }
    assert(sv.take(subnets@.len() as int) =~= sv);
    assert(strings_view(hosts@) =~= gnome_ignore_list(
        strings_view(bypass_domains@),
        strings_view(bypass_subnets@),
    ));
    let joined = join_strings(&hosts, ", ");
    string_of("[").concat(joined.as_str()).concat("]")
}

// ---------------------------------------------------------------------------
// Windows
// ---------------------------------------------------------------------------

/// The registry key of the Internet settings of the current user.
pub const INTERNET_SETTINGS_KEY: &'static str = "HKCU\\Software\\Microsoft\\Windows\\CurrentVersion\\Internet Settings";

/// Each domain and its subdomains: `d`, `*.d`.
pub open spec fn domain_patterns(domains: Seq<Seq<char>>) -> Seq<Seq<char>>
    decreases domains.len(),
{
    if domains.len() == 0 {
        Seq::empty()
    } else {
        domain_patterns(domains.drop_last()) + seq![domains.last(), "*."@ + domains.last()]
    }
}

/// What Windows must not proxy: local and private ranges, then each bypass
/// domain with its subdomains, then each bypass subnet.
pub open spec fn windows_bypass_list(domains: Seq<Seq<char>>, subnets: Seq<Seq<char>>) -> Seq<Seq<char>> {
    seq!["localhost"@, "127.*"@, "10.*"@, "172.16.*"@, "192.168.*"@, "<local>"@] + domain_patterns(
        trimmed_entries(domains),
    ) + trimmed_entries(subnets)
}

/// Each domain gives two patterns, the domain and its subdomains, in order.
proof fn lemma_domain_patterns_shape(domains: Seq<Seq<char>>)
    ensures
        domain_patterns(domains).len() == 2 * domains.len(),
        forall|k: int|
            0 <= k < domains.len() ==> domain_patterns(domains)[2 * k] == #[trigger] domains[k]
                && domain_patterns(domains)[2 * k + 1] == "*."@ + domains[k],
    decreases domains.len(),
{
    if domains.len() > 0 {
        let init = domains.drop_last();
        lemma_domain_patterns_shape(init);
        assert forall|k: int|
            0 <= k < domains.len() implies domain_patterns(domains)[2 * k] == #[trigger] domains[k]
            && domain_patterns(domains)[2 * k + 1] == "*."@ + domains[k] by {
            if k < init.len() {
                assert(init[k] == domains[k]);
            }
        }
    }
}

/// Windows is told to bypass every bypass domain and its subdomains, and
/// every bypass subnet: after the six local entries, each non-blank
/// domain `d` (trimmed, in order) appears as `d` followed by `*.d`, and
/// then each non-blank subnet.
pub proof fn lemma_every_domain_bypassed_on_windows(domains: Seq<Seq<char>>, subnets: Seq<Seq<char>>)
    ensures
        ({
            let list = windows_bypass_list(domains, subnets);
            let ds = trimmed_entries(domains);
            let ns = trimmed_entries(subnets);
            &&& list.len() == 6 + 2 * ds.len() + ns.len()
            &&& forall|k: int|
                0 <= k < ds.len() ==> list[6 + 2 * k] == #[trigger] ds[k] && list[6 + 2 * k + 1] == "*."@
                    + ds[k]
            &&& forall|k: int| 0 <= k < ns.len() ==> list[6 + 2 * ds.len() + k] == #[trigger] ns[k]
        }),
{
    let ds = trimmed_entries(domains);
    lemma_domain_patterns_shape(ds);
    let list = windows_bypass_list(domains, subnets);
    assert forall|k: int|
        0 <= k < ds.len() implies list[6 + 2 * k] == #[trigger] ds[k] && list[6 + 2 * k + 1] == "*."@
        + ds[k] by {
        assert(list[6 + 2 * k] == domain_patterns(ds)[2 * k]);
        assert(list[6 + 2 * k + 1] == domain_patterns(ds)[2 * k + 1]);
    }
}

/// The `ProxyOverride` value: the list joined with `;`.
pub open spec fn windows_override(domains: Seq<Seq<char>>, subnets: Seq<Seq<char>>) -> Seq<char> {
    join_text(windows_bypass_list(domains, subnets), ";"@)
}

/// The `ProxyOverride` value for Windows (see [`windows_override`]).
pub fn windows_proxy_override(bypass_domains: &[String], bypass_subnets: &[String]) -> (r: String)
    ensures
        r@ == windows_override(strings_view(bypass_domains@), strings_view(bypass_subnets@)),
{
    let mut list: Vec<String> = Vec::new();
    list.push(string_of("localhost"));
    list.push(string_of("127.*"));
    list.push(string_of("10.*"));
    list.push(string_of("172.16.*"));
    list.push(string_of("192.168.*"));
    list.push(string_of("<local>"));
    let ghost base = strings_view(list@);
    let domains = trimmed_nonempty(bypass_domains);
    let ghost dv = strings_view(domains@);
    let mut i: usize = 0;
    while i < domains.len()
        invariant
            i <= domains@.len(),
            dv == strings_view(domains@),
            strings_view(list@) == base + domain_patterns(dv.take(i as int)),
        decreases domains@.len() - i,
    {
        let ghost before = strings_view(list@);
        list.push(domains[i].clone());
        list.push(string_of("*.").concat(domains[i].as_str()));
        proof {
            assert(dv.take(i + 1).drop_last() =~= dv.take(i as int));
            assert(dv.take(i + 1).last() == dv[i as int]);
            assert(strings_view(list@) =~= before + seq![dv[i as int], "*."@ + dv[i as int]]);
        }
        i = i + 1;
    }
    assert(dv.take(domains@.len() as int) =~= dv);
    let ghost mid = strings_view(list@);
    let subnets = trimmed_nonempty(bypass_subnets);
    let ghost sv = strings_view(subnets@);
    let mut j: usize = 0;
    while j < subnets.len()
        invariant
            j <= subnets@.len(),
            sv == strings_view(subnets@),
            strings_view(list@) == mid + sv.take(j as int),
        decreases subnets@.len() - j,
    {
        let ghost before = strings_view(list@);
        list.push(subnets[j].clone());
        assert(strings_view(list@) =~= before.push(sv[j as int]));
        assert(sv.take(j + 1) =~= sv.take(j as int).push(sv[j as int]));
        j = j + 1;
    }
    assert(sv.take(subnets@.len() as int) =~= sv);
    assert(strings_view(list@) =~= windows_bypass_list(
        strings_view(bypass_domains@),
        strings_view(bypass_subnets@),
    ));
    join_strings(&list, ";")
}

pub open spec fn reg_dword(name: Seq<char>, value: Seq<char>) -> ProxyCommandView {
    ProxyCommandView::RegSetDword { key: INTERNET_SETTINGS_KEY@, name, value }
}

pub open spec fn reg_string(name: Seq<char>, value: Seq<char>) -> ProxyCommandView {
    ProxyCommandView::RegSetString { key: INTERNET_SETTINGS_KEY@, name, value }
}

pub open spec fn reg_delete(name: Seq<char>) -> ProxyCommandView {
    ProxyCommandView::RegDelete { key: INTERNET_SETTINGS_KEY@, name }
}

/// `127.0.0.1:10809`.
pub open spec fn http_proxy_address() -> Seq<char> {
    HTTP_HOST@ + ":"@ + utf8_lossy(decimal_digits(HTTP_PORT as nat))
}

fn http_proxy_address_text() -> (r: String)
    ensures
        r@ == http_proxy_address(),
{
    string_of(HTTP_HOST).concat(":").concat(decimal_text(HTTP_PORT as u64).as_str())
}

/// Turning the Windows proxy off: disabled, server and exceptions removed,
/// WinINet told.
pub open spec fn windows_disable_commands() -> Seq<ProxyCommandView> {
    seq![
        reg_dword("ProxyEnable"@, "0"@),
        reg_delete("ProxyServer"@),
        reg_delete("ProxyOverride"@),
        ProxyCommandView::RefreshWindowsProxy,
    ]
}

fn windows_disable() -> (r: Vec<ProxyCommand>)
    ensures
        command_views(r@) == windows_disable_commands(),
{
    let mut v: Vec<ProxyCommand> = Vec::new();
    push_command(&mut v, ProxyCommand::RegSetDword {
        key: string_of(INTERNET_SETTINGS_KEY),
        name: string_of("ProxyEnable"),
        value: string_of("0"),
    });
    push_command(&mut v, ProxyCommand::RegDelete {
        key: string_of(INTERNET_SETTINGS_KEY),
        name: string_of("ProxyServer"),
    });
    push_command(&mut v, ProxyCommand::RegDelete {
        key: string_of(INTERNET_SETTINGS_KEY),
        name: string_of("ProxyOverride"),
    });
    push_command(&mut v, ProxyCommand::RefreshWindowsProxy);
    assert(command_views(v@) =~= windows_disable_commands());
    v
}

// ---------------------------------------------------------------------------
// Enabling, disabling, cleaning up
// ---------------------------------------------------------------------------

/// Pointing the system proxy at the local one: on Linux (when `gsettings`
/// is there) GNOME's manual mode with the SOCKS, HTTP and HTTPS proxies and
/// the exceptions; on Windows the registry settings with the HTTP proxy and
/// the exceptions; nothing on macOS, whose build runs in L3 mode only.
pub open spec fn enable_commands(
    platform: Platform,
    gsettings_available: bool,
    socks_port: u16,
    domains: Seq<Seq<char>>,
    subnets: Seq<Seq<char>>,
) -> Seq<ProxyCommandView> {
    match platform {
        Platform::Linux => if gsettings_available {
            seq![
                gset("org.gnome.system.proxy"@, "mode"@, "manual"@),
                gset("org.gnome.system.proxy.socks"@, "host"@, SOCKS_HOST@),
                gset("org.gnome.system.proxy.socks"@, "port"@, utf8_lossy(decimal_digits(socks_port as nat))),
                gset("org.gnome.system.proxy.http"@, "host"@, HTTP_HOST@),
                gset("org.gnome.system.proxy.http"@, "port"@, utf8_lossy(decimal_digits(HTTP_PORT as nat))),
                gset("org.gnome.system.proxy.https"@, "host"@, HTTP_HOST@),
                gset("org.gnome.system.proxy.https"@, "port"@, utf8_lossy(decimal_digits(HTTP_PORT as nat))),
                gset("org.gnome.system.proxy"@, "ignore-hosts"@, gnome_ignore_hosts(domains, subnets)),
            ]
        } else {
            Seq::empty()
        },
        Platform::Windows => seq![
            reg_dword("ProxyEnable"@, "1"@),
            reg_string("ProxyServer"@, http_proxy_address()),
            reg_string("ProxyOverride"@, windows_override(domains, subnets)),
            ProxyCommandView::RefreshWindowsProxy,
        ],
        Platform::MacOs => Seq::empty(),
    }
}

/// The settings to write to point the system proxy at the local SOCKS
/// (`socks_port`) and HTTP proxies (see [`enable_commands`]).
pub fn enable_system_proxy(
    platform: Platform,
    gsettings_available: bool,
    socks_port: u16,
    bypass_domains: &[String],
    bypass_subnets: &[String],
) -> (r: Vec<ProxyCommand>)
    ensures
        command_views(r@) == enable_commands(
            platform,
            gsettings_available,
            socks_port,
            strings_view(bypass_domains@),
            strings_view(bypass_subnets@),
        ),
{
    let mut v: Vec<ProxyCommand> = Vec::new();
    match platform {
        Platform::Linux => {
            if !gsettings_available {
                assert(command_views(v@) =~= Seq::<ProxyCommandView>::empty());
                return v;
            }
            let http_port = decimal_text(HTTP_PORT as u64);
            push_command(&mut v, gsettings("org.gnome.system.proxy", "mode", "manual"));
            push_command(&mut v, gsettings("org.gnome.system.proxy.socks", "host", SOCKS_HOST));
            push_command(
                &mut v,
                gsettings("org.gnome.system.proxy.socks", "port", decimal_text(socks_port as u64).as_str()),
            );
            push_command(&mut v, gsettings("org.gnome.system.proxy.http", "host", HTTP_HOST));
            push_command(&mut v, gsettings("org.gnome.system.proxy.http", "port", http_port.as_str()));
            push_command(&mut v, gsettings("org.gnome.system.proxy.https", "host", HTTP_HOST));
            push_command(&mut v, gsettings("org.gnome.system.proxy.https", "port", http_port.as_str()));
            let hosts = linux_ignore_hosts(bypass_domains, bypass_subnets);
            push_command(&mut v, gsettings("org.gnome.system.proxy", "ignore-hosts", hosts.as_str()));
        },
        Platform::Windows => {
            push_command(&mut v, ProxyCommand::RegSetDword {
                key: string_of(INTERNET_SETTINGS_KEY),
                name: string_of("ProxyEnable"),
                value: string_of("1"),
            });
            push_command(&mut v, ProxyCommand::RegSetString {
                key: string_of(INTERNET_SETTINGS_KEY),
                name: string_of("ProxyServer"),
                value: http_proxy_address_text(),
            });
            push_command(&mut v, ProxyCommand::RegSetString {
                key: string_of(INTERNET_SETTINGS_KEY),
                name: string_of("ProxyOverride"),
                value: windows_proxy_override(bypass_domains, bypass_subnets),
            });
            push_command(&mut v, ProxyCommand::RefreshWindowsProxy);
        },
        Platform::MacOs => {},
    }
    assert(command_views(v@) =~= enable_commands(
        platform,
        gsettings_available,
        socks_port,
        strings_view(bypass_domains@),
        strings_view(bypass_subnets@),
    ));
    v
}

/// Restoring the system proxy: GNOME back to no proxy (when `gsettings`
/// is there), the Windows proxy turned off, nothing on macOS.
pub open spec fn disable_commands(platform: Platform, gsettings_available: bool) -> Seq<ProxyCommandView> {
    match platform {
        Platform::Linux => if gsettings_available {
            seq![gset("org.gnome.system.proxy"@, "mode"@, "none"@)]
        } else {
            Seq::empty()
        },
        Platform::Windows => windows_disable_commands(),
        Platform::MacOs => Seq::empty(),
    }
}

/// The settings to write to restore the system proxy (see
/// [`disable_commands`]).
pub fn disable_system_proxy(platform: Platform, gsettings_available: bool) -> (r: Vec<ProxyCommand>)
    ensures
        command_views(r@) == disable_commands(platform, gsettings_available),
{
    match platform {
        Platform::Linux => {
            let mut v: Vec<ProxyCommand> = Vec::new();
            if gsettings_available {
                push_command(&mut v, gsettings("org.gnome.system.proxy", "mode", "none"));
            }
            assert(command_views(v@) =~= disable_commands(platform, gsettings_available));
            v
        },
        Platform::Windows => windows_disable(),
        Platform::MacOs => {
            let v: Vec<ProxyCommand> = Vec::new();
            assert(command_views(v@) =~= Seq::<ProxyCommandView>::empty());
            v
        },
    }
}

/// What must be read at startup to find a proxy left behind by a
/// session that ended without restoring it.
#[derive(Debug, Clone, Copy, PartialEq, Eq, Structural)]
pub enum StaleProxyCheck {
    /// GNOME's proxy mode and SOCKS host (see [`reset_stale_linux`]).
    Gnome,
    /// The registry's `ProxyServer` (see [`reset_stale_windows`]).
    Registry,
    /// Nothing: macOS never touches the system proxy.
    Nothing,
}

/// Which settings to inspect at startup on the platform.
pub fn reset_stale_system_proxy(platform: Platform) -> (r: StaleProxyCheck)
    ensures
        r == match platform {
            Platform::Linux => StaleProxyCheck::Gnome,
            Platform::Windows => StaleProxyCheck::Registry,
            Platform::MacOs => StaleProxyCheck::Nothing,
        },
{
    match platform {
        Platform::Linux => StaleProxyCheck::Gnome,
        Platform::Windows => StaleProxyCheck::Registry,
        Platform::MacOs => StaleProxyCheck::Nothing,
    }
}

/// GNOME is left in manual mode with the SOCKS host pointing at this
/// machine: it is set back to no proxy. Nothing happens without
/// `gsettings` or when the user's own proxy is configured.
pub open spec fn stale_gnome_commands(gsettings_available: bool, mode: Seq<char>, socks_host: Seq<char>) -> Seq<ProxyCommandView> {
    if gsettings_available && mode == "manual"@ && (socks_host == SOCKS_HOST@ || socks_host
        == "localhost"@) {
        seq![gset("org.gnome.system.proxy"@, "mode"@, "none"@)]
    } else {
        Seq::empty()
    }
}

/// Cleans up a GNOME proxy left behind (see [`stale_gnome_commands`]);
/// `mode` and `socks_host` are what `gsettings get` reads.
pub fn reset_stale_linux(gsettings_available: bool, mode: &str, socks_host: &str) -> (r: Vec<ProxyCommand>)
    ensures
        command_views(r@) == stale_gnome_commands(gsettings_available, mode@, socks_host@),
{
    let mut v: Vec<ProxyCommand> = Vec::new();
    if gsettings_available && str_eq(mode, "manual") && (str_eq(socks_host, SOCKS_HOST) || str_eq(
        socks_host,
        "localhost",
    )) {
        push_command(&mut v, gsettings("org.gnome.system.proxy", "mode", "none"));
    }
    assert(command_views(v@) =~= stale_gnome_commands(gsettings_available, mode@, socks_host@));
    v
}

/// The Windows proxy still points at the local HTTP proxy: it is turned
/// off. Nothing happens when there is no proxy server or another one.
pub open spec fn stale_windows_commands(proxy_server: Option<Seq<char>>) -> Seq<ProxyCommandView> {
    if proxy_server == Some(http_proxy_address()) {
        windows_disable_commands()
    } else {
        Seq::empty()
    }
}

/// Cleans up a Windows proxy left behind (see [`stale_windows_commands`]);
/// `proxy_server` is the registry's `ProxyServer` value, if any.
pub fn reset_stale_windows(proxy_server: Option<&str>) -> (r: Vec<ProxyCommand>)
    ensures
        command_views(r@) == stale_windows_commands(
            match proxy_server {
                Some(s) => Some(s@),
                None => None,
            },
        ),
{
    match proxy_server {
        Some(s) => {
            let expected = http_proxy_address_text();
            if str_eq(s, expected.as_str()) {
                return windows_disable();
            }
        },
        None => {},
    }
    let v: Vec<ProxyCommand> = Vec::new();
    assert(command_views(v@) =~= Seq::<ProxyCommandView>::empty());
    v
}

// ---------------------------------------------------------------------------
// Reading what the tools print
// ---------------------------------------------------------------------------

/// `s` without leading `c`s.
pub open spec fn strip_start_char(s: Seq<char>, c: char) -> Seq<char>
    decreases s.len(),
{
    if s.len() > 0 && s[0] == c {
        strip_start_char(s.drop_first(), c)
    } else {
        s
    }
}

/// `s` without trailing `c`s.
pub open spec fn strip_end_char(s: Seq<char>, c: char) -> Seq<char>
    decreases s.len(),
{
    if s.len() > 0 && s.last() == c {
        strip_end_char(s.drop_last(), c)
    } else {
        s
    }
}

/// A value printed by `gsettings get`: trimmed, without the quotes around
/// a string.
pub open spec fn gsettings_text(out: Seq<u8>) -> Seq<char> {
    strip_end_char(strip_start_char(trim_chars(utf8_lossy(out)), '\''), '\'')
}

/// The value `gsettings get` printed (see [`gsettings_text`]).
pub fn gsettings_value(stdout: &[u8]) -> (r: String)
    ensures
        r@ == gsettings_text(stdout@),
{
    let s = string_from_utf8_lossy(stdout);
    let t = str_trim(s.as_str());
    let ghost tv = t@;
    let n = t.unicode_len();
    let mut i: usize = 0;
    assert(tv.subrange(0, n as int) =~= tv);
    while i < n && t.get_char(i) == '\''
        invariant
            i <= n == tv.len(),
            tv == t@,
            strip_start_char(tv, '\'') == strip_start_char(tv.subrange(i as int, n as int), '\''),
        decreases n - i,
    {
        assert(tv.subrange(i as int, n as int).drop_first() =~= tv.subrange(i + 1, n as int));
        i = i + 1;
    }
    let ghost mid = tv.subrange(i as int, n as int);
    assert(strip_start_char(tv, '\'') == mid);
    let mut j: usize = n;
    assert(mid.subrange(0, (j - i) as int) =~= mid);
    while j > i && t.get_char(j - 1) == '\''
        invariant
            i <= j <= n == tv.len(),
            tv == t@,
            mid == tv.subrange(i as int, n as int),
            strip_end_char(mid, '\'') == strip_end_char(tv.subrange(i as int, j as int), '\''),
        decreases j - i,
    {
        assert(tv.subrange(i as int, j as int).drop_last() =~= tv.subrange(i as int, j - 1));
        j = j - 1;
    }
    string_of(t.substring_char(i, j))
}

/// The first place where `p` occurs in `b`.
pub open spec fn find_sub(b: Seq<u8>, p: Seq<u8>) -> Option<int>
    decreases b.len(),
{
    if b.len() < p.len() {
        None
    } else if b.take(p.len() as int) == p {
        Some(0)
    } else if b.len() == 0 {
        None
    } else {
        match find_sub(b.drop_first(), p) {
            Some(i) => Some(i + 1),
            None => None,
        }
    }
}

/// Four spaces, which separate the columns of `reg query`.
pub open spec fn reg_separator() -> Seq<u8> {
    seq![32u8, 32, 32, 32]
}

/// The value on a line `NAME    TYPE    VALUE` of `reg query`: the line,
/// trimmed, starts with the name and has (at least) three columns; the
/// value is the trimmed rest after the second separator.
pub open spec fn reg_line_value(line: Seq<char>, name: Seq<char>) -> Option<Seq<char>> {
    let t = trim_chars(line);
    let b = encode_utf8(t);
    if !text_starts_with(t, name) {
        None
    } else {
        match find_sub(b, reg_separator()) {
            None => None,
            Some(i) => {
                let rest = b.skip(i + 4);
                match find_sub(rest, reg_separator()) {
                    None => None,
                    Some(k) => Some(trim_chars(utf8_lossy(rest.skip(k + 4)))),
                }
            },
        }
    }
}

/// The value on the first line that has it.
pub open spec fn reg_value_in_lines(lines: Seq<Seq<u8>>, name: Seq<char>) -> Option<Seq<char>>
    decreases lines.len(),
{
    if lines.len() == 0 {
        None
    } else {
        match reg_line_value(utf8_lossy(lines[0]), name) {
            Some(v) => Some(v),
            None => reg_value_in_lines(lines.drop_first(), name),
        }
    }
}

proof fn lemma_reg_value_append(a: Seq<Seq<u8>>, b: Seq<Seq<u8>>, name: Seq<char>)
    requires
        reg_value_in_lines(a, name) is None,
    ensures
        reg_value_in_lines(a + b, name) == reg_value_in_lines(b, name),
    decreases a.len(),
{
    if a.len() == 0 {
        assert(a + b =~= b);
    } else {
        assert((a + b).drop_first() =~= a.drop_first() + b);
        lemma_reg_value_append(a.drop_first(), b, name);
    }
}

proof fn lemma_reg_value_push(a: Seq<Seq<u8>>, x: Seq<u8>, name: Seq<char>)
    requires
        reg_value_in_lines(a, name) is None,
    ensures
        reg_value_in_lines(a.push(x), name) == reg_line_value(utf8_lossy(x), name),
{
    lemma_reg_value_append(a, seq![x], name);
    assert(a.push(x) =~= a + seq![x]);
    assert(seq![x].drop_first() =~= Seq::<Seq<u8>>::empty());
    assert(reg_value_in_lines(Seq::<Seq<u8>>::empty(), name) is None);
    assert(reg_value_in_lines(seq![x], name) == reg_line_value(utf8_lossy(x), name));
}

/// The first place in `b[lo..hi]` where the four-space separator occurs
/// (relative to `lo`).
fn find_separator(b: &[u8], lo: usize, hi: usize) -> (r: Option<usize>)
    requires
        lo <= hi <= b@.len(),
    ensures
        match find_sub(b@.subrange(lo as int, hi as int), reg_separator()) {
            Some(i) => r matches Some(k) && k == lo + i,
            None => r is None,
        },
        r matches Some(k) ==> lo <= k && k + 4 <= hi,
{
    let sep: &[u8] = &[32, 32, 32, 32];
    let mut i = lo;
    while hi - i >= 4
        invariant
            lo <= i <= hi <= b@.len(),
            sep@ == reg_separator(),
            match find_sub(b@.subrange(lo as int, hi as int), reg_separator()) {
                Some(k) => match find_sub(b@.subrange(i as int, hi as int), reg_separator()) {
                    Some(m) => k == i - lo + m,
                    None => false,
                },
                None => find_sub(b@.subrange(i as int, hi as int), reg_separator()) is None,
            },
        decreases hi - i,
    {
        let ghost cur = b@.subrange(i as int, hi as int);
        assert(cur.take(4) =~= b@.subrange(i as int, i + 4));
        if range_eq(b, i, i + 4, sep) {
            assert(find_sub(cur, reg_separator()) == Some(0int));
            return Some(i);
        }
        assert(cur.drop_first() =~= b@.subrange(i + 1, hi as int));
        i = i + 1;
    }
    proof {
        let cur = b@.subrange(i as int, hi as int);
        assert(cur.len() < 4);
    }
    None
}

/// The value of `name` in what `reg query KEY /v NAME` printed (see
/// [`reg_value_in_lines`]).
pub fn reg_query_value(text: &str, name: &str) -> (r: Option<String>)
    ensures
        opt_chars(r) == reg_value_in_lines(text_lines(encode_utf8(text@)), name@),
{
    let b = text.as_bytes();
    let n = b.len();
    let ghost whole = b@;
    let ghost mut done: Seq<Seq<u8>> = Seq::empty();
    let mut start: usize = 0;
    assert(whole.subrange(0, n as int) =~= whole);
    while start < n
        invariant
            start <= n == b@.len(),
            whole == b@,
            whole == encode_utf8(text@),
            text_lines(whole) == done + text_lines(b@.subrange(start as int, n as int)),
            reg_value_in_lines(done, name@) is None,
        decreases n - start,
    {
        let ghost cur = b@.subrange(start as int, n as int);
        proof {
            lemma_find_first_char(cur, 10);
        }
        let (lo, hi, next) = match find_byte(b, start, n, 10) {
            Some(k) => {
                let ghost piece = b@.subrange(start as int, k as int);
                assert(cur.take(k - start) =~= piece);
                assert(cur.skip(k - start + 1) =~= b@.subrange(k + 1, n as int));
                let end = if k > start && b[k - 1] == 13 {
                    k - 1
                } else {
                    k
                };
                assert(strip_cr(piece) =~= b@.subrange(start as int, end as int));
                (start, end, k + 1)
            },
            None => (start, n, n),
        };
        let ghost line = b@.subrange(lo as int, hi as int);
        let v = line_value(b, lo, hi, name);
        proof {
            let old_done = done;
            let rest_lines = text_lines(b@.subrange(next as int, n as int));
            if next == n && hi == n {
                assert(b@.subrange(n as int, n as int) =~= Seq::<u8>::empty());
                assert(text_lines(whole) =~= old_done + seq![line] + rest_lines);
            } else {
                assert(text_lines(whole) =~= old_done + seq![line] + rest_lines);
            }
            assert(old_done + seq![line] + rest_lines =~= old_done + (seq![line] + rest_lines));
            lemma_reg_value_append(old_done, seq![line] + rest_lines, name@);
            assert((seq![line] + rest_lines)[0] == line);
            assert((seq![line] + rest_lines).drop_first() =~= rest_lines);
            lemma_reg_value_push(old_done, line, name@);
            done = done.push(line);
            assert(done =~= old_done + seq![line]);
            assert(text_lines(whole) =~= done + rest_lines);
        }
        if v.is_some() {
            return v;
        }
        start = next;
    }
    proof {
        assert(b@.subrange(n as int, n as int) =~= Seq::<u8>::empty());
        assert(done + text_lines(Seq::<u8>::empty()) =~= done);
    }
    None
}

/// The value on the line `b[lo..hi]` (see [`reg_line_value`]).
fn line_value(b: &[u8], lo: usize, hi: usize, name: &str) -> (r: Option<String>)
    requires
        lo <= hi <= b@.len(),
    ensures
        opt_chars(r) == reg_line_value(utf8_lossy(b@.subrange(lo as int, hi as int)), name@),
{
    let v = copy_range(b, lo, hi);
    let line = string_from_utf8_lossy(v.as_slice());
    let t = str_trim(line.as_str());
    if !starts_with(t, name) {
        return None;
    }
    let tb = t.as_bytes();
    let tn = tb.len();
    let ghost tbv = tb@;
    assert(tbv == encode_utf8(t@));
    assert(tbv.subrange(0, tn as int) =~= tbv);
    let i = match find_separator(tb, 0, tn) {
        None => {
            assert(find_sub(tbv, reg_separator()) is None);
            return None;
        },
        Some(i) => i,
    };
    assert(find_sub(tbv, reg_separator()) == Some(i as int));
    let ghost rest = tbv.skip(i + 4);
    assert(rest =~= tbv.subrange(i + 4, tn as int));
    let k = match find_separator(tb, i + 4, tn) {
        None => {
            assert(find_sub(rest, reg_separator()) is None);
            return None;
        },
        Some(k) => k,
    };
    assert(find_sub(rest, reg_separator()) == Some(k - (i + 4)));
    assert(rest.skip(k - (i + 4) + 4) =~= tbv.subrange(k + 4, tn as int));
    let rv = copy_range(tb, k + 4, tn);
    let rest_text = string_from_utf8_lossy(rv.as_slice());
    Some(string_of(str_trim(rest_text.as_str())))
}

} // verus!
