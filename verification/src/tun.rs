//! TUN mode on Linux: the arguments the privileged helper runs with to
//! bring the tunnel up and to take it down, the tunnel program's
//! configuration, and the routing facts saved between the two. Running
//! the helper and touching files is the caller's.
use vstd::prelude::*;
use vstd::string::*;
use vstd::utf8::*;

use crate::models::{strings_view, AppError, AppErrorView};
use crate::network::{
    four_octet_parts, gateway_of, is_vpn_interface, is_vpn_name, lemma_filter_map_first, lemma_filter_map_take_step,
    octet_of, pair_view, route_views, strip_cr, text_lines, text_range_of, IpRoute, IpRouteView,
};
use crate::proxy::{trimmed_entries, trimmed_nonempty};
use crate::subscription::decimal_text;
use crate::roundtrip::{all_ascii, lemma_ascii_decode, lemma_decode_concat};
use crate::text::{
    all_digits, decimal_digits, find_byte, find_first, is_digit, lemma_find_first_at,
    lemma_find_first_char, lemma_find_first_none, string_of, utf8_lossy,
};
use crate::uri::{lemma_split_on_step, split_on};

verus! {

/// The tunnel device.
pub const TUN_NAME: &'static str = "rvpn0";

/// The tunnel's address and prefix.
pub const TUN_ADDR: &'static str = "198.18.0.1/15";

/// The tunnel's gateway.
pub const TUN_GW: &'static str = "198.18.0.0";

/// The tunnel's MTU.
pub const TUN_MTU: &'static str = "8500";

/// The privileged helper's file name.
pub const HELPER_NAME: &'static str = "v2rayv-helper";

/// Where an installed helper lives.
pub const INSTALLED_HELPER: &'static str = "/usr/local/bin/v2rayv-helper";

// ---------------------------------------------------------------------------
// Checking what goes on the helper's command line
// ---------------------------------------------------------------------------

/// An IPv4 address as `str::split('.')` and `str::parse::<u8>` see it:
/// exactly four parts, each a `u8`.
pub open spec fn valid_ip_text(s: Seq<char>) -> bool {
    let parts = split_on(encode_utf8(s), 46);
    parts.len() == 4 && forall|i: int| 0 <= i < 4 ==> (#[trigger] octet_of(parts[i])) is Some
}

/// Whether `s` looks like an IPv4 address (and so holds no shell
/// metacharacters).
pub fn is_valid_ip(s: &str) -> (r: bool)
    ensures
        r == valid_ip_text(s@),
{
    let b = s.as_bytes();
    assert(b@.subrange(0, b@.len() as int) =~= b@);
    four_octet_parts(b, 0, b.len())
}

/// A byte allowed in an interface name: ASCII letter or digit, `_`, `-`.
pub open spec fn iface_byte(c: u8) -> bool {
    (48 <= c <= 57) || (65 <= c <= 90) || (97 <= c <= 122) || c == 95 || c == 45
}

/// A safe interface name: one to sixteen bytes, each (and so each
/// character) an ASCII letter or digit, `_` or `-`.
pub open spec fn valid_iface_text(s: Seq<char>) -> bool {
    let b = encode_utf8(s);
    0 < b.len() <= 16 && forall|i: int| 0 <= i < b.len() ==> iface_byte(#[trigger] b[i])
}

/// Whether `s` looks like a safe interface name.
pub fn is_valid_iface(s: &str) -> (r: bool)
    ensures
        r == valid_iface_text(s@),
{
    let b = s.as_bytes();
    if b.len() == 0 || b.len() > 16 {
        return false;
    }
    let mut i: usize = 0;
    while i < b.len()
        invariant
            i <= b@.len(),
            b@ == encode_utf8(s@),
            forall|k: int| 0 <= k < i ==> iface_byte(#[trigger] b@[k]),
        decreases b@.len() - i,
    {
        let c = b[i];
        if !((c >= 48 && c <= 57) || (c >= 65 && c <= 90) || (c >= 97 && c <= 122) || c == 95 || c
            == 45) {
            assert(!iface_byte(b@[i as int]));
            return false;
        }
        i = i + 1;
    }
    true
}

// ---------------------------------------------------------------------------
// The saved routing facts
// ---------------------------------------------------------------------------

/// The lines of a saved file, as `str::lines` gives them.
pub open spec fn saved_lines(content: Seq<char>) -> Seq<Seq<char>> {
    text_lines(encode_utf8(content)).map_values(|l: Seq<u8>| utf8_lossy(l))
}

fn content_lines(content: &str) -> (r: Vec<String>)
    ensures
        strings_view(r@) == saved_lines(content@),
{
    let b = content.as_bytes();
    let n = b.len();
    let ghost whole = b@;
    let ghost f = |l: Seq<u8>| utf8_lossy(l);
    let ghost mut done: Seq<Seq<u8>> = Seq::empty();
    let mut lines: Vec<String> = Vec::new();
    let mut start: usize = 0;
    assert(whole.subrange(0, n as int) =~= whole);
    while start < n
        invariant
            start <= n == b@.len(),
            whole == b@,
            whole == encode_utf8(content@),
            f == (|l: Seq<u8>| utf8_lossy(l)),
            text_lines(whole) == done + text_lines(b@.subrange(start as int, n as int)),
            strings_view(lines@) == done.map_values(f),
        decreases n - start,
    {
        let ghost cur = b@.subrange(start as int, n as int);
        proof {
            lemma_find_first_char(cur, 10);
        }
        let ghost before = strings_view(lines@);
        match find_byte(b, start, n, 10) {
            Some(k) => {
                let ghost piece = b@.subrange(start as int, k as int);
                assert(cur.take(k - start) =~= piece);
                assert(cur.skip(k - start + 1) =~= b@.subrange(k + 1, n as int));
                let end = if k > start && b[k - 1] == 13 {
                    k - 1
                } else {
                    k
                };
                assert(strip_cr(piece) =~= b@.subrange(start as int, end as int));
                lines.push(text_range_of(b, start, end));
                proof {
                    let old_done = done;
                    done = done.push(strip_cr(piece));
                    assert(done.drop_last() =~= old_done);
                    assert(done.map_values(f) =~= old_done.map_values(f).push(f(strip_cr(piece))));
                    assert(strings_view(lines@) =~= before.push(utf8_lossy(strip_cr(piece))));
                    assert(text_lines(whole) =~= done + text_lines(b@.subrange(k + 1, n as int)));
                }
                start = k + 1;
            },
            None => {
                lines.push(text_range_of(b, start, n));
                proof {
                    let old_done = done;
                    done = done.push(cur);
                    assert(done.drop_last() =~= old_done);
                    assert(done.map_values(f) =~= old_done.map_values(f).push(f(cur)));
                    assert(strings_view(lines@) =~= before.push(utf8_lossy(cur)));
                    assert(text_lines(whole) =~= done);
                }
                start = n;
            },
        }
    }
    assert(b@.subrange(n as int, n as int) =~= Seq::<u8>::empty());
    assert(done + text_lines(Seq::<u8>::empty()) =~= done);
    lines
}

/// The route arguments the saved lines give: the server address, the
/// gateway and the device when the first three lines are a valid address,
/// address and interface name, then the local address when a fourth line
/// is one; nothing otherwise.
pub open spec fn saved_route_args(lines: Seq<Seq<char>>) -> Seq<Seq<char>> {
    if lines.len() >= 3 && valid_ip_text(lines[0]) && valid_ip_text(lines[1]) && valid_iface_text(
        lines[2],
    ) {
        if lines.len() >= 4 && valid_ip_text(lines[3]) {
            seq![lines[0], lines[1], lines[2], lines[3]]
        } else {
            seq![lines[0], lines[1], lines[2]]
        }
    } else {
        Seq::empty()
    }
}

/// The route arguments read from the saved file's content (see
/// [`saved_route_args`]).
pub fn saved_route_args_of(content: &str) -> (r: Vec<String>)
    ensures
        strings_view(r@) == saved_route_args(saved_lines(content@)),
{
    let lines = content_lines(content);
    let ghost ls = strings_view(lines@);
    let mut out: Vec<String> = Vec::new();
    if lines.len() >= 3 {
        assert(ls[0] == lines@[0]@ && ls[1] == lines@[1]@ && ls[2] == lines@[2]@);
        if is_valid_ip(lines[0].as_str()) && is_valid_ip(lines[1].as_str()) && is_valid_iface(
            lines[2].as_str(),
        ) {
            out.push(string_of(lines[0].as_str()));
            out.push(string_of(lines[1].as_str()));
            out.push(string_of(lines[2].as_str()));
            if lines.len() >= 4 {
                assert(ls[3] == lines@[3]@);
                if is_valid_ip(lines[3].as_str()) {
                    out.push(string_of(lines[3].as_str()));
                }
            }
        }
    }
    assert(strings_view(out@) =~= saved_route_args(ls));
    out
}

/// The helper's arguments to take the tunnel down: `stop`, the pid file,
/// the device and its gateway, then the route arguments of the saved file
/// when there is one.
pub open spec fn stop_args_spec(helper: Seq<char>, pid_file: Seq<char>, saved: Option<Seq<char>>) -> Seq<
    Seq<char>,
> {
    seq![helper, "stop"@, pid_file, TUN_NAME@, TUN_GW@] + match saved {
        Some(c) => saved_route_args(saved_lines(c)),
        None => Seq::empty(),
    }
}

/// The helper's arguments to take the tunnel down (see [`stop_args_spec`]);
/// `saved` is the content of the saved routing file, if it could be read.
pub fn stop_tun_args(helper: &str, pid_file: &str, saved: Option<&str>) -> (r: Vec<String>)
    ensures
        strings_view(r@) == stop_args_spec(
            helper@,
            pid_file@,
            match saved {
                Some(c) => Some(c@),
                None => None,
            },
        ),
{
    let mut args: Vec<String> = Vec::new();
    args.push(string_of(helper));
    args.push(string_of("stop"));
    args.push(string_of(pid_file));
    args.push(string_of(TUN_NAME));
    args.push(string_of(TUN_GW));
    let ghost base = strings_view(args@);
    assert(base =~= seq![helper@, "stop"@, pid_file@, TUN_NAME@, TUN_GW@]);
    match saved {
        Some(c) => {
            let extra = saved_route_args_of(c);
            let mut i: usize = 0;
            while i < extra.len()
                invariant
                    i <= extra@.len(),
                    strings_view(args@) == base + strings_view(extra@).take(i as int),
                decreases extra@.len() - i,
            {
                let ghost before = strings_view(args@);
                args.push(string_of(extra[i].as_str()));
                assert(strings_view(extra@).take(i + 1) =~= strings_view(extra@).take(i as int).push(
                    extra@[i as int]@,
                ));
                assert(strings_view(args@) =~= before.push(extra@[i as int]@));
                i = i + 1;
            }
            assert(strings_view(extra@).take(extra@.len() as int) =~= strings_view(extra@));
        },
        None => {
            assert(base + Seq::<Seq<char>>::empty() =~= base);
        },
    }
    args
}

// ---------------------------------------------------------------------------
// Bringing the tunnel up
// ---------------------------------------------------------------------------

/// Where the helper is: the installed copy when it exists, else the copy
/// in the source tree when there is one, else an error.
pub fn resolve_helper(installed_exists: bool, dev_helper: Option<&str>) -> (r: Result<String, AppError>)
    ensures
        installed_exists ==> (r matches Ok(p) && p@ == INSTALLED_HELPER@),
        !installed_exists && dev_helper is Some ==> (r matches Ok(p) && p@ == dev_helper->0@),
        !installed_exists && dev_helper is None ==> (r matches Err(e) && e@ == AppErrorView::Config(
            "v2rayv-helper not found. Run: sudo ./scripts/install-helper.sh"@,
        )),
{
    if installed_exists {
        return Ok(string_of(INSTALLED_HELPER));
    }
    match dev_helper {
        Some(p) => Ok(string_of(p)),
        None => Err(
            AppError::Config(string_of("v2rayv-helper not found. Run: sudo ./scripts/install-helper.sh")),
        ),
    }
}

/// The configuration of the tunnel program for the local SOCKS port and
/// the pid file.
pub open spec fn hev_config_spec(socks_port: u16, pid_file: Seq<char>) -> Seq<char> {
    "tunnel:\n  name: "@ + TUN_NAME@ + "\n  mtu: "@ + TUN_MTU@ + "\n\nsocks5:\n  port: "@ + utf8_lossy(
        decimal_digits(socks_port as nat),
    ) + "\n  address: 127.0.0.1\n  udp: 'udp'\n\nmisc:\n  task-stack-size: 81920\n  connect-timeout: 5000\n  read-write-timeout: 60000\n  log-level: warn\n  pid-file: "@
        + pid_file + "\n  limit-nofile: 65535\n"@
}

/// The tunnel program's configuration (see [`hev_config_spec`]).
pub fn hev_config(socks_port: u16, pid_file: &str) -> (r: String)
    ensures
        r@ == hev_config_spec(socks_port, pid_file@),
{
    let port = decimal_text(socks_port as u64);
    string_of("tunnel:\n  name: ").concat(TUN_NAME).concat("\n  mtu: ").concat(TUN_MTU).concat(
        "\n\nsocks5:\n  port: ",
    ).concat(port.as_str()).concat(
        "\n  address: 127.0.0.1\n  udp: 'udp'\n\nmisc:\n  task-stack-size: 81920\n  connect-timeout: 5000\n  read-write-timeout: 60000\n  log-level: warn\n  pid-file: ",
    ).concat(pid_file).concat("\n  limit-nofile: 65535\n")
}

/// What is saved for taking the tunnel down: one line each for the server
/// address, the gateway, the device and the local address.
pub open spec fn gateway_file_spec(
    server_ip: Seq<char>,
    gateway: Seq<char>,
    dev: Seq<char>,
    local_ip: Seq<char>,
) -> Seq<char> {
    server_ip + "\n"@ + gateway + "\n"@ + dev + "\n"@ + local_ip
}

/// The helper's arguments to bring the tunnel up: `start`, the tunnel
/// program, its configuration and pid file, the device, address, MTU and
/// gateway, the server address, the physical gateway and device, the
/// application's process id, the local address, then each bypass subnet
/// trimmed, empty ones left out.
pub open spec fn start_args_spec(
    helper: Seq<char>,
    hev_bin: Seq<char>,
    hev_config_path: Seq<char>,
    pid_file: Seq<char>,
    server_ip: Seq<char>,
    gateway: Seq<char>,
    dev: Seq<char>,
    app_pid: u32,
    local_ip: Seq<char>,
    bypass_subnets: Seq<Seq<char>>,
) -> Seq<Seq<char>> {
    seq![
        helper,
        "start"@,
        hev_bin,
        hev_config_path,
        pid_file,
        TUN_NAME@,
        TUN_ADDR@,
        TUN_MTU@,
        TUN_GW@,
        server_ip,
        gateway,
        dev,
        utf8_lossy(decimal_digits(app_pid as nat)),
        local_ip,
    ] + trimmed_entries(bypass_subnets)
}

/// Everything a start of the tunnel writes and runs.
pub struct TunStart {
    /// The tunnel program's configuration.
    pub hev_config: String,
    /// The routing facts saved for taking the tunnel down.
    pub gateway_file: String,
    /// The helper's arguments.
    pub args: Vec<String>,
}

/// Plans a start of the tunnel; refused when the local address is not
/// known, since the routes cannot be set up without it.
pub fn plan_start_tun(
    helper: &str,
    hev_bin: &str,
    hev_config_path: &str,
    pid_file: &str,
    socks_port: u16,
    server_ip: &str,
    bypass_subnets: &[String],
    gateway: &str,
    dev: &str,
    local_ip: &str,
    app_pid: u32,
) -> (r: Result<TunStart, AppError>)
    ensures
        local_ip@.len() == 0 ==> (r matches Err(e) && e@ == AppErrorView::Config(
            "Failed to detect local IP address for TUN routing. Cannot start TUN mode."@,
        )),
        local_ip@.len() > 0 ==> (r matches Ok(p) && p.hev_config@ == hev_config_spec(
            socks_port,
            pid_file@,
        ) && p.gateway_file@ == gateway_file_spec(server_ip@, gateway@, dev@, local_ip@)
            && strings_view(p.args@) == start_args_spec(
            helper@,
            hev_bin@,
            hev_config_path@,
            pid_file@,
            server_ip@,
            gateway@,
            dev@,
            app_pid,
            local_ip@,
            strings_view(bypass_subnets@),
        )),
{
    if local_ip.unicode_len() == 0 {
        return Err(
            AppError::Config(
                string_of("Failed to detect local IP address for TUN routing. Cannot start TUN mode."),
            ),
        );
    }
    let cfg = hev_config(socks_port, pid_file);
    let gw = string_of(server_ip).concat("\n").concat(gateway).concat("\n").concat(dev).concat(
        "\n",
    ).concat(local_ip);
    let pid = decimal_text(app_pid as u64);
    let mut args: Vec<String> = Vec::new();
    args.push(string_of(helper));
    args.push(string_of("start"));
    args.push(string_of(hev_bin));
    args.push(string_of(hev_config_path));
    args.push(string_of(pid_file));
    args.push(string_of(TUN_NAME));
    args.push(string_of(TUN_ADDR));
    args.push(string_of(TUN_MTU));
    args.push(string_of(TUN_GW));
    args.push(string_of(server_ip));
    args.push(string_of(gateway));
    args.push(string_of(dev));
    args.push(pid);
    args.push(string_of(local_ip));
    let ghost base = strings_view(args@);
    let extra = trimmed_nonempty(bypass_subnets);
    let mut i: usize = 0;
    while i < extra.len()
        invariant
            i <= extra@.len(),
            strings_view(args@) == base + strings_view(extra@).take(i as int),
        decreases extra@.len() - i,
    {
        let ghost before = strings_view(args@);
        args.push(string_of(extra[i].as_str()));
        assert(strings_view(extra@).take(i + 1) =~= strings_view(extra@).take(i as int).push(
            extra@[i as int]@,
        ));
        assert(strings_view(args@) =~= before.push(extra@[i as int]@));
        i = i + 1;
    }
    assert(strings_view(extra@).take(extra@.len() as int) =~= strings_view(extra@));
    Ok(TunStart { hev_config: cfg, gateway_file: gw, args })
}

/// Each command's arguments as text.
pub open spec fn argv_views(v: Seq<Vec<String>>) -> Seq<Seq<Seq<char>>> {
    v.map_values(|c: Vec<String>| strings_view(c@))
}

/// The commands that take a tunnel down without the helper: stop the
/// tunnel program, drop the routing rule and the default route through
/// the tunnel, delete the device.
pub open spec fn manual_cleanup_spec() -> Seq<Seq<Seq<char>>> {
    seq![
        seq!["pkill"@, "-f"@, "hev-socks5-tunnel"@],
        seq!["ip"@, "rule"@, "del"@, "lookup"@, "main"@, "priority"@, "100"@],
        seq!["ip"@, "route"@, "del"@, "default"@, "via"@, TUN_GW@, "dev"@, TUN_NAME@],
        seq!["ip"@, "link"@, "del"@, TUN_NAME@],
    ]
}

/// The commands of [`manual_cleanup_spec`].
pub fn manual_cleanup_commands() -> (r: Vec<Vec<String>>)
    ensures
        argv_views(r@) == manual_cleanup_spec(),
{
    let a = vec![string_of("pkill"), string_of("-f"), string_of("hev-socks5-tunnel")];
    let b = vec![
        string_of("ip"),
        string_of("rule"),
        string_of("del"),
        string_of("lookup"),
        string_of("main"),
        string_of("priority"),
        string_of("100"),
    ];
    let c = vec![
        string_of("ip"),
        string_of("route"),
        string_of("del"),
        string_of("default"),
        string_of("via"),
        string_of(TUN_GW),
        string_of("dev"),
        string_of(TUN_NAME),
    ];
    let d = vec![string_of("ip"), string_of("link"), string_of("del"), string_of(TUN_NAME)];
    assert(strings_view(a@) =~= seq!["pkill"@, "-f"@, "hev-socks5-tunnel"@]);
    assert(strings_view(b@) =~= seq!["ip"@, "rule"@, "del"@, "lookup"@, "main"@, "priority"@, "100"@]);
    assert(strings_view(c@) =~= seq![
        "ip"@,
        "route"@,
        "del"@,
        "default"@,
        "via"@,
        TUN_GW@,
        "dev"@,
        TUN_NAME@,
    ]);
    assert(strings_view(d@) =~= seq!["ip"@, "link"@, "del"@, TUN_NAME@]);
    let r = vec![a, b, c, d];
    assert(argv_views(r@) =~= manual_cleanup_spec());
    r
}

// ---------------------------------------------------------------------------
// The default gateway the tunnel routes around
// ---------------------------------------------------------------------------

/// A route's gateway and interface, when it names both and the interface
/// is not a VPN.
pub open spec fn non_vpn_gateway_of(r: IpRouteView) -> Option<(Seq<char>, Seq<char>)> {
    match gateway_of(r) {
        Some((g, d)) => if !is_vpn_name(d) {
            Some((g, d))
        } else {
            None
        },
        None => None,
    }
}

/// Gateway and interface of the default routes for the tunnel: the first
/// not through a VPN interface, else the first at all.
pub open spec fn tun_gateway(rs: Seq<IpRouteView>) -> Option<(Seq<char>, Seq<char>)> {
    let preferred = rs.filter_map(|r: IpRouteView| non_vpn_gateway_of(r));
    let any = rs.filter_map(|r: IpRouteView| gateway_of(r));
    if preferred.len() > 0 {
        Some(preferred[0])
    } else if any.len() > 0 {
        Some(any[0])
    } else {
        None
    }
}

fn gateway_candidates(routes: &[IpRoute], skip_vpn: bool) -> (r: Vec<(String, String)>)
    ensures
        r@.map_values(|p: (String, String)| pair_view(p)) == (if skip_vpn {
            route_views(routes@).filter_map(|r: IpRouteView| non_vpn_gateway_of(r))
        } else {
            route_views(routes@).filter_map(|r: IpRouteView| gateway_of(r))
        }),
{
    let ghost rs = route_views(routes@);
    let ghost f = if skip_vpn {
        |r: IpRouteView| non_vpn_gateway_of(r)
    } else {
        |r: IpRouteView| gateway_of(r)
    };
    let mut out: Vec<(String, String)> = Vec::new();
    let mut i: usize = 0;
    while i < routes.len()
        invariant
            i <= routes@.len(),
            rs == route_views(routes@),
            f == (if skip_vpn {
                |r: IpRouteView| non_vpn_gateway_of(r)
            } else {
                |r: IpRouteView| gateway_of(r)
            }),
            out@.map_values(|p: (String, String)| pair_view(p)) == rs.take(i as int).filter_map(f),
        decreases routes@.len() - i,
    {
        proof {
            lemma_filter_map_take_step(rs, f, i as int);
        }
        let ghost o = out@.map_values(|p: (String, String)| pair_view(p));
        match (&routes[i].gateway, &routes[i].dev) {
            (Some(g), Some(d)) => {
                if !skip_vpn || !is_vpn_interface(d.as_str()) {
                    out.push((g.clone(), d.clone()));
                    assert(out@.map_values(|p: (String, String)| pair_view(p)) =~= o + seq![
                        (g@, d@),
                    ]);
                }
            },
            _ => {},
        }
        i = i + 1;
    }
    assert(rs.take(routes@.len() as int) =~= rs);
    out
}

/// Of the default routes, the gateway and interface the tunnel's routes
/// go around (see [`tun_gateway`]); an error when no route names both.
pub fn detect_default_gateway(routes: &[IpRoute]) -> (r: Result<(String, String), AppError>)
    ensures
        match r {
            Ok(p) => tun_gateway(route_views(routes@)) == Some(pair_view(p)),
            Err(e) => tun_gateway(route_views(routes@)) is None && e@ == AppErrorView::Config(
                "No default gateway found"@,
            ),
        },
{
    let preferred = gateway_candidates(routes, true);
    if preferred.len() > 0 {
        assert(preferred@.map_values(|p: (String, String)| pair_view(p))[0] == pair_view(
            preferred@[0],
        ));
        return Ok((preferred[0].0.clone(), preferred[0].1.clone()));
    }
    let any = gateway_candidates(routes, false);
    if any.len() > 0 {
        assert(any@.map_values(|p: (String, String)| pair_view(p))[0] == pair_view(any@[0]));
        return Ok((any[0].0.clone(), any[0].1.clone()));
    }
    Err(AppError::Config(string_of("No default gateway found")))
}

// ---------------------------------------------------------------------------
// What is saved at the start is what the stop reads back
// ---------------------------------------------------------------------------

/// No line break in the bytes.
pub open spec fn line_safe(b: Seq<u8>) -> bool {
    forall|k: int| 0 <= k < b.len() ==> #[trigger] b[k] != 10 && b[k] != 13
}

/// Every byte of `b` other than `c` lies in one of the pieces of
/// `split_on(b, c)`.
proof fn lemma_split_covers(b: Seq<u8>, c: u8, k: int)
    requires
        0 <= k < b.len(),
        b[k] != c,
    ensures
        exists|j: int, m: int|
            #![trigger split_on(b, c)[j][m]]
            0 <= j < split_on(b, c).len() && 0 <= m < split_on(b, c)[j].len() && split_on(b, c)[j][m]
                == b[k],
    decreases b.len(),
{
    lemma_split_on_step(b, c);
    lemma_find_first_char(b, c);
    match find_first(b, c) {
        None => {
            assert(split_on(b, c)[0][k] == b[k]);
        },
        Some(i) => {
            if k < i {
                assert(split_on(b, c)[0] == b.take(i));
                assert(split_on(b, c)[0][k] == b[k]);
            } else {
                let rest = b.skip(i + 1);
                assert(rest[k - i - 1] == b[k]);
                lemma_split_covers(rest, c, k - i - 1);
                let (j, m) = choose|j: int, m: int|
                    #![trigger split_on(rest, c)[j][m]]
                    0 <= j < split_on(rest, c).len() && 0 <= m < split_on(rest, c)[j].len()
                        && split_on(rest, c)[j][m] == rest[k - i - 1];
                assert(split_on(b, c)[j + 1] == split_on(rest, c)[j]);
                assert(split_on(b, c)[j + 1][m] == b[k]);
            }
        },
    }
}

/// An address that passes [`valid_ip_text`] is one line: no line break,
/// not empty.
proof fn lemma_ip_line_safe(s: Seq<char>)
    requires
        valid_ip_text(s),
    ensures
        line_safe(encode_utf8(s)),
        encode_utf8(s).len() > 0,
{
    let b = encode_utf8(s);
    let parts = split_on(b, 46);
    if b.len() == 0 {
        lemma_split_on_step(b, 46);
        lemma_find_first_char(b, 46);
        assert(parts.len() == 1);
    }
    assert forall|k: int| 0 <= k < b.len() implies #[trigger] b[k] != 10 && b[k] != 13 by {
        if b[k] != 46 {
            lemma_split_covers(b, 46, k);
            let (j, m) = choose|j: int, m: int|
                #![trigger parts[j][m]]
                0 <= j < parts.len() && 0 <= m < parts[j].len() && parts[j][m] == b[k];
            let piece = parts[j];
            assert(octet_of(parts[j]) is Some);
            let d = if piece.len() > 0 && piece[0] == 43 {
                piece.drop_first()
            } else {
                piece
            };
            assert(all_digits(d));
            if piece.len() > 0 && piece[0] == 43 {
                if m > 0 {
                    assert(d[m - 1] == piece[m]);
                    assert(is_digit(d[m - 1]));
                }
            } else {
                assert(is_digit(d[m]));
            }
        }
    }
}

/// An interface name that passes [`valid_iface_text`] is one line.
proof fn lemma_iface_line_safe(s: Seq<char>)
    requires
        valid_iface_text(s),
    ensures
        line_safe(encode_utf8(s)),
        encode_utf8(s).len() > 0,
{
    let b = encode_utf8(s);
    assert forall|k: int| 0 <= k < b.len() implies #[trigger] b[k] != 10 && b[k] != 13 by {
        assert(iface_byte(b[k]));
    }
}

/// A line followed by a line break, then the rest.
proof fn lemma_lines_cons(x: Seq<u8>, y: Seq<u8>)
    requires
        line_safe(x),
    ensures
        text_lines(x + seq![10u8] + y) == seq![x] + text_lines(y),
{
    let b = x + seq![10u8] + y;
    assert forall|k: int| 0 <= k < x.len() implies b[k] != 10 by {
        assert(b[k] == x[k]);
    }
    lemma_find_first_at(b, 10, x.len() as int);
    assert(b.take(x.len() as int) =~= x);
    assert(b.skip(x.len() as int + 1) =~= y);
    if x.len() > 0 {
        assert(x.last() == x[x.len() - 1]);
    }
    assert(strip_cr(x) == x);
}

/// A last line without a line break.
proof fn lemma_lines_last(x: Seq<u8>)
    requires
        line_safe(x),
        x.len() > 0,
    ensures
        text_lines(x) == seq![x],
{
    lemma_find_first_none(x, 10);
}

/// What a start of the tunnel saves, a stop reads back: the helper is told
/// the same server address, gateway, device and local address, when they
/// are valid addresses and a valid interface name.
pub proof fn lemma_saved_gateway_readback(
    helper: Seq<char>,
    pid_file: Seq<char>,
    server_ip: Seq<char>,
    gateway: Seq<char>,
    dev: Seq<char>,
    local_ip: Seq<char>,
)
    requires
        valid_ip_text(server_ip),
        valid_ip_text(gateway),
        valid_iface_text(dev),
        valid_ip_text(local_ip),
    ensures
        stop_args_spec(helper, pid_file, Some(gateway_file_spec(server_ip, gateway, dev, local_ip)))
            == seq![helper, "stop"@, pid_file, TUN_NAME@, TUN_GW@, server_ip, gateway, dev, local_ip],
{
    let ea = encode_utf8(server_ip);
    let eb = encode_utf8(gateway);
    let ec = encode_utf8(dev);
    let ed = encode_utf8(local_ip);
    lemma_ip_line_safe(server_ip);
    lemma_ip_line_safe(gateway);
    lemma_iface_line_safe(dev);
    lemma_ip_line_safe(local_ip);
    let nl = seq![10u8];
    // The bytes of the saved text.
    let r3 = nl + ed;
    let r2 = ec + nl + ed;
    let r1 = eb + nl + r2;
    let all = ea + nl + r1;
    assert(all_ascii(nl));
    lemma_ascii_decode(nl);
    reveal_strlit("\n");
    assert(decode_utf8(nl) =~= "\n"@);
    encode_utf8_valid_utf8(server_ip);
    encode_utf8_valid_utf8(gateway);
    encode_utf8_valid_utf8(dev);
    encode_utf8_valid_utf8(local_ip);
    encode_utf8_decode_utf8(server_ip);
    encode_utf8_decode_utf8(gateway);
    encode_utf8_decode_utf8(dev);
    encode_utf8_decode_utf8(local_ip);
    lemma_decode_concat(ec, nl);
    lemma_decode_concat(ec + nl, ed);
    lemma_decode_concat(eb, nl);
    lemma_decode_concat(eb + nl, r2);
    lemma_decode_concat(ea, nl);
    lemma_decode_concat(ea + nl, r1);
    let text = gateway_file_spec(server_ip, gateway, dev, local_ip);
    assert(decode_utf8(all) =~= text);
    decode_utf8_encode_utf8(all);
    assert(encode_utf8(text) == all);
    // Its lines.
    lemma_lines_last(ed);
    lemma_lines_cons(ec, ed);
    lemma_lines_cons(eb, r2);
    lemma_lines_cons(ea, r1);
    assert(text_lines(all) =~= seq![ea, eb, ec, ed]);
    let lines = saved_lines(text);
    assert(lines =~= seq![server_ip, gateway, dev, local_ip]) by {
        assert(utf8_lossy(ea) == server_ip);
        assert(utf8_lossy(eb) == gateway);
        assert(utf8_lossy(ec) == dev);
        assert(utf8_lossy(ed) == local_ip);
    }
    assert(saved_route_args(lines) =~= seq![server_ip, gateway, dev, local_ip]);
}


/// What a forced cleanup does once the ordinary stop has failed.
pub enum ForceCleanup {
    /// Run the helper through `pkexec` with these arguments, then remove
    /// the tunnel's configuration and pid files.
    Helper(Vec<String>),
    /// No helper: run these commands one after another.
    Manual(Vec<Vec<String>>),
}

/// The forced cleanup: with a helper, its stop arguments (with the saved
/// routes, see [`stop_args_spec`]); without one, the manual commands.
pub fn plan_force_cleanup(helper: Result<String, AppError>, pid_file: &str, saved: Option<&str>) -> (r: ForceCleanup)
    ensures
        helper matches Ok(h) ==> (r matches ForceCleanup::Helper(args) && strings_view(args@) == stop_args_spec(
            h@,
            pid_file@,
            match saved {
                Some(c) => Some(c@),
                None => None,
            },
        )),
        helper is Err ==> (r matches ForceCleanup::Manual(cmds) && argv_views(cmds@) == manual_cleanup_spec()),
{
    match helper {
        Ok(h) => ForceCleanup::Helper(stop_tun_args(h.as_str(), pid_file, saved)),
        Err(_) => ForceCleanup::Manual(manual_cleanup_commands()),
    }
}

/// The gateway the tunnel keeps its server route through comes from a
/// default route with that gateway and interface: the first one not
/// through a VPN interface when there is such a route, else the first with
/// a gateway and an interface; none only when no route has both.
pub proof fn lemma_tun_gateway(rs: Seq<IpRouteView>)
    ensures
        tun_gateway(rs) is None <==> forall|i: int|
            0 <= i < rs.len() ==> (#[trigger] rs[i]).gateway is None || rs[i].dev is None,
        tun_gateway(rs) matches Some((g, d)) ==> exists|i: int|
            0 <= i < rs.len() && (#[trigger] rs[i]).gateway == Some(g) && rs[i].dev == Some(d),
        (exists|i: int|
            0 <= i < rs.len() && (#[trigger] rs[i]).gateway is Some && rs[i].dev is Some && !is_vpn_name(
                rs[i].dev->0,
            )) ==> (tun_gateway(rs) matches Some((g, d)) && !is_vpn_name(d) && exists|i: int|
            0 <= i < rs.len() && (#[trigger] rs[i]).gateway == Some(g) && rs[i].dev == Some(d)
                && forall|j: int|
                0 <= j < i ==> !((#[trigger] rs[j]).gateway is Some && rs[j].dev is Some && !is_vpn_name(
                    rs[j].dev->0,
                ))),
{
    let fp = |r: IpRouteView| non_vpn_gateway_of(r);
    let fa = |r: IpRouteView| gateway_of(r);
    lemma_filter_map_first(rs, fp);
    lemma_filter_map_first(rs, fa);
    assert forall|i: int| 0 <= i < rs.len() implies ((#[trigger] rs[i]).gateway is Some && rs[i].dev is Some
        && !is_vpn_name(rs[i].dev->0) <==> fp(rs[i]) is Some) && ((rs[i].gateway is Some
        && rs[i].dev is Some) <==> fa(rs[i]) is Some) by {}
    if exists|i: int|
        0 <= i < rs.len() && (#[trigger] rs[i]).gateway is Some && rs[i].dev is Some && !is_vpn_name(
            rs[i].dev->0,
        ) {
        let k = choose|i: int|
            0 <= i < rs.len() && (#[trigger] rs[i]).gateway is Some && rs[i].dev is Some && !is_vpn_name(
                rs[i].dev->0,
            );
        assert(fp(rs[k]) is Some);
        let i = choose|i: int|
            0 <= i < rs.len() && #[trigger] fp(rs[i]) == Some(rs.filter_map(fp)[0]) && forall|j: int|
                0 <= j < i ==> (#[trigger] fp(rs[j])) is None;
        assert forall|j: int| 0 <= j < i implies !((#[trigger] rs[j]).gateway is Some && rs[j].dev is Some
            && !is_vpn_name(rs[j].dev->0)) by {
            assert(fp(rs[j]) is None);
        }
    } else {
        if rs.filter_map(fp).len() > 0 {
            let i = choose|i: int| 0 <= i < rs.len() && (#[trigger] fp(rs[i])) is Some;
            assert(rs[i].gateway is Some);
        }
        if rs.filter_map(fa).len() > 0 {
            let i = choose|i: int|
                0 <= i < rs.len() && #[trigger] fa(rs[i]) == Some(rs.filter_map(fa)[0]) && forall|j: int|
                    0 <= j < i ==> (#[trigger] fa(rs[j])) is None;
            assert(rs[i].gateway is Some);
        }
    }
    if tun_gateway(rs) is None {
        assert forall|i: int| 0 <= i < rs.len() implies (#[trigger] rs[i]).gateway is None
            || rs[i].dev is None by {
            if rs[i].gateway is Some && rs[i].dev is Some {
                assert(fa(rs[i]) is Some);
            }
        }
    }
}

} // verus!
