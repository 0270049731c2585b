//! The connection state machine around the xray process: what each event
//! (start, a line of output, exit, timeout, stop, a statistics poll) does
//! to the connection state, the log and the counters, and what the caller
//! must do next. Running the process, timers and probes is the caller's.
use std::collections::VecDeque;
use vstd::prelude::*;
use vstd::utf8::*;

use crate::models::{
    clone_strings, opt_chars, strings_view, AppError, AppErrorView, ConnectionInfo,
    ConnectionInfoView, ConnectionStatus, DetectedVpn, DetectedVpnView, LogEntry, LogEntryView,
    ServerConfig, ServerView, SpeedStats, VirtualNetSettings, VirtualNetView,
};
use crate::config::{str_to_lowercase, unicode_lowercase};
use crate::json::{
    as_array, as_str, as_u64, get, json_as_array, json_as_str, json_as_u64, json_from_slice, json_get,
    json_text_value, json_views, opt_json_view, Json, JsonView,
};
use crate::network::vpn_views;
use crate::text::{
    decimal_digits, lemma_find_first_char, parse_unsigned, parse_unsigned_range, push_all,
    push_decimal, range_eq, str_eq, str_trim, string_from_utf8_lossy, string_of, trim_chars,
    utf8_lossy,
};

verus! {

/// The local SOCKS port xray listens on (HTTP on the next one).
pub const DEFAULT_SOCKS_PORT: u16 = 10808;

/// How many log lines are kept.
pub const MAX_LOG_ENTRIES: usize = 1000;

/// The L3 settings of a server, when it asks for a virtual network.
pub open spec fn virtualnet_enabled_spec(s: ServerView) -> Option<VirtualNetView> {
    match s.virtualnet {
        Some(v) => if v.enabled {
            Some(v)
        } else {
            None
        },
        None => None,
    }
}

/// The L3 settings of a server, when it asks for a virtual network: then
/// xray-core owns the TUN device and neither the system proxy nor the
/// SOCKS tunnel is used.
pub fn virtualnet_enabled(server: &ServerConfig) -> (r: Option<&VirtualNetSettings>)
    ensures
        match r {
            Some(v) => virtualnet_enabled_spec(server@) == Some(v@),
            None => virtualnet_enabled_spec(server@) is None,
        },
{
    match &server.virtualnet {
        Some(v) => if v.enabled {
            Some(v)
        } else {
            None
        },
        None => None,
    }
}

// ---------------------------------------------------------------------------
// Text
// ---------------------------------------------------------------------------

/// `str::contains` with a string pattern: the UTF-8 of `p` occurs in that
/// of `s`.
pub open spec fn text_contains(s: Seq<char>, p: Seq<char>) -> bool {
    let b = encode_utf8(s);
    let q = encode_utf8(p);
    exists|i: int| 0 <= i <= b.len() - q.len() && #[trigger] b.subrange(i, i + q.len()) == q
}

pub fn contains_text(s: &str, p: &str) -> (r: bool)
    ensures
        r == text_contains(s@, p@),
{
    let b = s.as_bytes();
    let q = p.as_bytes();
    if q.len() > b.len() {
        return false;
    }
    let n = b.len();
    let ql = q.len();
    let last = n - ql;
    let mut i: usize = 0;
    loop
        invariant
            n == b@.len(),
            ql == q@.len(),
            q@.len() <= b@.len(),
            last == b@.len() - q@.len(),
            i <= last,
            b@ == encode_utf8(s@),
            q@ == encode_utf8(p@),
            forall|j: int| 0 <= j < i ==> #[trigger] b@.subrange(j, j + q@.len()) != q@,
        decreases last - i,
    {
        if range_eq(b, i, i + ql, q) {
            return true;
        }
        if i == last {
            return false;
        }
        i = i + 1;
    }
}

/// The text of a process output line, trimmed.
pub open spec fn line_text(line: Seq<u8>) -> Seq<char> {
    trim_chars(utf8_lossy(line))
}

fn line_string(line: &[u8]) -> (r: String)
    ensures
        r@ == line_text(line@),
{
    let s = string_from_utf8_lossy(line);
    string_of(str_trim(s.as_str()))
}

/// The log level of a line xray writes to standard error.
pub open spec fn stderr_level(t: Seq<char>) -> Seq<char> {
    if text_contains(t, "[Warning]"@) {
        "warning"@
    } else if text_contains(t, "[Error]"@) {
        "error"@
    } else {
        "info"@
    }
}

fn classify_stderr(t: &str) -> (r: String)
    ensures
        r@ == stderr_level(t@),
{
    if contains_text(t, "[Warning]") {
        string_of("warning")
    } else if contains_text(t, "[Error]") {
        string_of("error")
    } else {
        string_of("info")
    }
}

/// `{:?}` of an `Option<i32>`.
pub open spec fn debug_opt_i32(o: Option<i32>) -> Seq<char> {
    match o {
        None => "None"@,
        Some(n) => "Some("@ + (if n < 0 {
            "-"@ + utf8_lossy(decimal_digits((-n) as nat))
        } else {
            utf8_lossy(decimal_digits(n as nat))
        }) + ")"@,
    }
}

fn debug_opt_i32_text(o: Option<i32>) -> (r: String)
    ensures
        r@ == debug_opt_i32(o),
{
    match o {
        None => string_of("None"),
        Some(n) => {
            let mut v: Vec<u8> = Vec::new();
            if n < 0 {
                let m: i64 = 0i64 - (n as i64);
                push_decimal(&mut v, m as u64);
                assert(v@ =~= decimal_digits((-n) as nat));
                let digits = string_from_utf8_lossy(v.as_slice());
                string_of("Some(").concat("-").concat(digits.as_str()).concat(")")
            } else {
                push_decimal(&mut v, n as u64);
                assert(v@ =~= decimal_digits(n as nat));
                let digits = string_from_utf8_lossy(v.as_slice());
                string_of("Some(").concat(digits.as_str()).concat(")")
            }
        },
    }
}

// ---------------------------------------------------------------------------
// The state
// ---------------------------------------------------------------------------

/// What the caller must do after an event.
#[derive(Debug, Clone, Copy, PartialEq, Eq, Structural)]
pub enum XrayAction {
    /// Nothing.
    Nothing,
    /// The connection came up: enable the system proxy when asked, and
    /// announce `connected`.
    Connected { enable_proxy: bool },
    /// xray exited: disable the system proxy when asked, drop the process
    /// handle, announce `disconnected` and stop reading events.
    Terminated { disable_proxy: bool },
    /// sudo rejected the saved password: forget it, tell the user, and
    /// kill the process group.
    SudoRejected,
}

/// One event of the xray process.
#[derive(Debug)]
pub enum XrayEvent {
    /// A line on standard output.
    Stdout(Vec<u8>),
    /// A line on standard error.
    Stderr(Vec<u8>),
    /// An error reading the process.
    Error(String),
    /// The process ended.
    Terminated { code: Option<i32>, signal: Option<i32> },
}

/// The connection state of the xray process, its log and its traffic
/// counters.
#[derive(Debug)]
pub struct XrayManager {
    state: ConnectionInfo,
    stats: SpeedStats,
    prev_uplink: u64,
    prev_downlink: u64,
    logs: VecDeque<LogEntry>,
    bypass_domains: Vec<String>,
    bypass_subnets: Vec<String>,
    detected_vpns: Vec<DetectedVpn>,
    started: bool,
    l3_mode: bool,
}

pub struct XrayView {
    pub state: ConnectionInfoView,
    pub stats: SpeedStats,
    pub prev_uplink: u64,
    pub prev_downlink: u64,
    pub logs: Seq<LogEntryView>,
    pub bypass_domains: Seq<Seq<char>>,
    pub bypass_subnets: Seq<Seq<char>>,
    pub detected_vpns: Seq<DetectedVpnView>,
    /// Whether the connection came up since the last start.
    pub started: bool,
    /// Whether the current server runs in L3 mode.
    pub l3_mode: bool,
}

pub open spec fn log_views(v: Seq<LogEntry>) -> Seq<LogEntryView> {
    v.map_values(|e: LogEntry| e@)
}

impl View for XrayManager {
    type V = XrayView;

    closed spec fn view(&self) -> XrayView {
        XrayView {
            state: self.state@,
            stats: self.stats,
            prev_uplink: self.prev_uplink,
            prev_downlink: self.prev_downlink,
            logs: log_views(self.logs@),
            bypass_domains: strings_view(self.bypass_domains@),
            bypass_subnets: strings_view(self.bypass_subnets@),
            detected_vpns: vpn_views(self.detected_vpns@),
            started: self.started,
            l3_mode: self.l3_mode,
        }
    }
}

/// The log keeps at most [`MAX_LOG_ENTRIES`] lines.
pub open spec fn xray_wf(v: XrayView) -> bool {
    v.logs.len() <= MAX_LOG_ENTRIES
}

impl XrayManager {
    /// Every manager keeps its log within [`MAX_LOG_ENTRIES`] lines.
    #[verifier::type_invariant]
    spec fn log_within_bound(self) -> bool {
        self.logs@.len() <= MAX_LOG_ENTRIES
    }
}

/// The status after `update_status`: the new status; the server's name and
/// address when one is given; everything cleared on `Disconnected`; the
/// error message when one is given.
pub open spec fn status_update(
    s: ConnectionInfoView,
    status: ConnectionStatus,
    server: Option<ServerView>,
    error: Option<Seq<char>>,
) -> ConnectionInfoView {
    let s1 = ConnectionInfoView { status, ..s };
    let s2 = match server {
        Some(srv) => ConnectionInfoView {
            server_name: Some(srv.name),
            server_address: Some(srv.address),
            ..s1
        },
        None => s1,
    };
    let s3 = if status == ConnectionStatus::Disconnected {
        ConnectionInfoView {
            server_name: None,
            server_address: None,
            connected_since: None,
            error_message: None,
            ..s2
        }
    } else {
        s2
    };
    match error {
        Some(e) => ConnectionInfoView { error_message: Some(e), ..s3 },
        None => s3,
    }
}

/// The log with one more line: the oldest one goes when it is full.
pub open spec fn log_push(logs: Seq<LogEntryView>, e: LogEntryView) -> Seq<LogEntryView> {
    if logs.len() >= MAX_LOG_ENTRIES {
        logs.drop_first().push(e)
    } else {
        logs.push(e)
    }
}

/// Zero counters.
pub open spec fn zero_stats() -> SpeedStats {
    SpeedStats { upload_speed: 0, download_speed: 0, total_upload: 0, total_download: 0 }
}

/// The state after a successful `mark_connected`.
pub open spec fn connected_state(
    name: Seq<char>,
    address: Seq<char>,
    now: u64,
    s: ConnectionInfoView,
) -> ConnectionInfoView {
    ConnectionInfoView {
        status: ConnectionStatus::Connected,
        connected_since: Some(now),
        server_name: Some(name),
        server_address: Some(address),
        error_message: None,
    }
}

/// `mark_connected`: only from `Connecting` and only once per start.
pub open spec fn mark_connected_spec(
    v: XrayView,
    name: Seq<char>,
    address: Seq<char>,
    now: u64,
) -> (XrayView, bool) {
    if v.state.status != ConnectionStatus::Connecting || v.started {
        (v, false)
    } else {
        (XrayView { started: true, state: connected_state(name, address, now, v.state), ..v }, true)
    }
}

/// The status after xray exits: `Disconnecting` ends in `Disconnected`;
/// any other live status becomes `Error` with the exit code; the
/// connection time is cleared.
pub open spec fn terminated_state(s: ConnectionInfoView, code: Option<i32>) -> ConnectionInfoView {
    let s1 = if s.status == ConnectionStatus::Disconnecting {
        ConnectionInfoView { status: ConnectionStatus::Disconnected, ..s }
    } else if s.status != ConnectionStatus::Disconnected && s.status != ConnectionStatus::Error {
        ConnectionInfoView {
            status: ConnectionStatus::Error,
            error_message: Some("xray exited unexpectedly (code: "@ + debug_opt_i32(code) + ")"@),
            ..s
        }
    } else {
        s
    };
    ConnectionInfoView { connected_since: None, ..s1 }
}

/// The message logged when xray exits.
pub open spec fn terminated_message(code: Option<i32>, signal: Option<i32>) -> Seq<char> {
    "xray terminated (code: "@ + debug_opt_i32(code) + ", signal: "@ + debug_opt_i32(signal) + ")"@
}

/// The message shown when the connection does not come up in time.
pub open spec fn timeout_message() -> Seq<char> {
    "Connection timeout — server unreachable or config invalid"@
}

/// The effect of one process event, with the time it came at (seconds).
pub open spec fn event_spec(
    v: XrayView,
    ev: XrayEventView,
    name: Seq<char>,
    address: Seq<char>,
    now: u64,
) -> (XrayView, XrayAction) {
    match ev {
        XrayEventView::Stdout(line) => output_spec(v, line_text(line), "info"@, name, address, now),
        XrayEventView::Stderr(line) => output_spec(
            v,
            line_text(line),
            stderr_level(line_text(line)),
            name,
            address,
            now,
        ),
        XrayEventView::Error(m) => (
            XrayView {
                logs: log_push(v.logs, LogEntryView { timestamp: now, level: "error"@, message: m }),
                ..v
            },
            XrayAction::Nothing,
        ),
        XrayEventView::Terminated { code, signal } => (
            XrayView {
                logs: log_push(
                    v.logs,
                    LogEntryView {
                        timestamp: now,
                        level: "warning"@,
                        message: terminated_message(code, signal),
                    },
                ),
                state: terminated_state(v.state, code),
                ..v
            },
            XrayAction::Terminated { disable_proxy: !v.l3_mode },
        ),
    }
}

/// A line of output: logged; when it announces `started` before the
/// connection came up, the connection is marked up.
pub open spec fn output_spec(
    v: XrayView,
    t: Seq<char>,
    level: Seq<char>,
    name: Seq<char>,
    address: Seq<char>,
    now: u64,
) -> (XrayView, XrayAction) {
    let v1 = XrayView {
        logs: log_push(v.logs, LogEntryView { timestamp: now, level, message: t }),
        ..v
    };
    if !v1.started && text_contains(t, "started"@) {
        let (v2, ok) = mark_connected_spec(v1, name, address, now);
        (
            v2,
            if ok {
                XrayAction::Connected { enable_proxy: !v.l3_mode }
            } else {
                XrayAction::Nothing
            },
        )
    } else {
        (v1, XrayAction::Nothing)
    }
}

pub enum XrayEventView {
    Stdout(Seq<u8>),
    Stderr(Seq<u8>),
    Error(Seq<char>),
    Terminated { code: Option<i32>, signal: Option<i32> },
}

impl View for XrayEvent {
    type V = XrayEventView;

    open spec fn view(&self) -> XrayEventView {
        match self {
            XrayEvent::Stdout(l) => XrayEventView::Stdout(l@),
            XrayEvent::Stderr(l) => XrayEventView::Stderr(l@),
            XrayEvent::Error(m) => XrayEventView::Error(m@),
            XrayEvent::Terminated { code, signal } => XrayEventView::Terminated {
                code: *code,
                signal: *signal,
            },
        }
    }
}

// ---------------------------------------------------------------------------
// Transitions
// ---------------------------------------------------------------------------

/// What a start does when it is allowed: counters reset, `Connecting`
/// with the server's name and address, not yet up, L3 mode as the server
/// asks.
pub open spec fn started_view(v: XrayView, server: ServerView) -> XrayView {
    XrayView {
        stats: zero_stats(),
        prev_uplink: 0,
        prev_downlink: 0,
        state: status_update(v.state, ConnectionStatus::Connecting, Some(server), None),
        started: false,
        l3_mode: virtualnet_enabled_spec(server) is Some,
        ..v
    }
}

/// A statistics poll with the counters `up` and `down`: the speed is the
/// growth since the previous poll (zero when a counter went back), the
/// totals are the counters.
pub open spec fn stats_update(v: XrayView, up: u64, down: u64) -> (XrayView, SpeedStats) {
    let s = SpeedStats {
        upload_speed: if up >= v.prev_uplink {
            (up - v.prev_uplink) as u64
        } else {
            0
        },
        download_speed: if down >= v.prev_downlink {
            (down - v.prev_downlink) as u64
        } else {
            0
        },
        total_upload: up,
        total_download: down,
    };
    (XrayView { stats: s, prev_uplink: up, prev_downlink: down, ..v }, s)
}

/// A fresh manager, as [`XrayManager::new`] makes it.
pub open spec fn fresh_view(v: XrayView) -> bool {
    &&& xray_wf(v)
    &&& v.state == (ConnectionInfoView {
        status: ConnectionStatus::Disconnected,
        server_name: None,
        server_address: None,
        connected_since: None,
        error_message: None,
    })
    &&& v.stats == zero_stats()
    &&& v.prev_uplink == 0 && v.prev_downlink == 0
    &&& v.logs.len() == 0
    &&& v.bypass_domains.len() == 0 && v.bypass_subnets.len() == 0
    &&& v.detected_vpns.len() == 0
    &&& !v.started && !v.l3_mode
}

impl Default for XrayManager {
    fn default() -> (r: Self)
        ensures
            fresh_view(r@),
    {
        XrayManager::new()
    }
}

impl XrayManager {
    /// No connection, empty log, zero counters.
    pub fn new() -> (r: Self)
        ensures
            xray_wf(r@),
            r@.state == (ConnectionInfoView {
                status: ConnectionStatus::Disconnected,
                server_name: None,
                server_address: None,
                connected_since: None,
                error_message: None,
            }),
            r@.stats == zero_stats(),
            r@.prev_uplink == 0 && r@.prev_downlink == 0,
            r@.logs.len() == 0,
            r@.bypass_domains.len() == 0 && r@.bypass_subnets.len() == 0,
            r@.detected_vpns.len() == 0,
            !r@.started && !r@.l3_mode,
    {
        let r = XrayManager {
            state: ConnectionInfo::default(),
            stats: SpeedStats::default(),
            prev_uplink: 0,
            prev_downlink: 0,
            logs: VecDeque::new(),
            bypass_domains: Vec::new(),
            bypass_subnets: Vec::new(),
            detected_vpns: Vec::new(),
            started: false,
            l3_mode: false,
        };
        assert(log_views(r.logs@) =~= Seq::<LogEntryView>::empty());
        assert(strings_view(r.bypass_domains@) =~= Seq::<Seq<char>>::empty());
        assert(strings_view(r.bypass_subnets@) =~= Seq::<Seq<char>>::empty());
        assert(vpn_views(r.detected_vpns@) =~= Seq::<DetectedVpnView>::empty());
        r
    }

    /// The corporate VPNs found at the last start.
    pub fn get_detected_vpns(&self) -> (r: Vec<DetectedVpn>)
        ensures
            vpn_views(r@) == self@.detected_vpns,
    {
        let mut out: Vec<DetectedVpn> = Vec::new();
        let mut i: usize = 0;
        while i < self.detected_vpns.len()
            invariant
                i <= self.detected_vpns@.len(),
                out@.len() == i,
                forall|j: int| 0 <= j < i ==> #[trigger] out@[j]@ == self.detected_vpns@[j]@,
            decreases self.detected_vpns@.len() - i,
        {
            out.push(self.detected_vpns[i].clone());
            i = i + 1;
        }
        assert(vpn_views(out@) =~= vpn_views(self.detected_vpns@));
        out
    }

    /// The connection as the interface shows it.
    pub fn status(&self) -> (r: ConnectionInfo)
        ensures
            r@ == self@.state,
    {
        self.state.clone()
    }

    /// The log, oldest line first.
    pub fn get_logs(&self) -> (r: Vec<LogEntry>)
        ensures
            log_views(r@) == self@.logs,
    {
        let mut out: Vec<LogEntry> = Vec::new();
        let mut i: usize = 0;
        while i < self.logs.len()
            invariant
                i <= self.logs@.len(),
                out@.len() == i,
                forall|j: int| 0 <= j < i ==> #[trigger] out@[j]@ == self.logs@[j]@,
            decreases self.logs@.len() - i,
        {
            out.push(self.logs[i].clone());
            i = i + 1;
        }
        assert(log_views(out@) =~= log_views(self.logs@));
        out
    }

    /// Empties the log.
    pub fn clear_logs(&mut self)
        ensures
            final(self)@ == (XrayView { logs: Seq::empty(), ..old(self)@ }),
    {
        proof {
            use_type_invariant(&*self);
        }
        self.logs = VecDeque::new();
        assert(log_views(self.logs@) =~= Seq::<LogEntryView>::empty());
    }

    /// The local SOCKS port.
    pub fn socks_port(&self) -> (r: u16)
        ensures
            r == DEFAULT_SOCKS_PORT,
    {
        DEFAULT_SOCKS_PORT
    }

    /// The counters of the last poll.
    pub fn cached_stats(&self) -> (r: SpeedStats)
        ensures
            r == self@.stats,
    {
        self.stats
    }

    /// What a statistics request answers: the polled counters, or the last
    /// ones when the poll failed.
    pub fn stats_or_cached(&self, polled: Option<SpeedStats>) -> (r: SpeedStats)
        ensures
            r == (match polled {
                Some(s) => s,
                None => self@.stats,
            }),
    {
        match polled {
            Some(s) => s,
            None => self.stats,
        }
    }

    /// The bypass domains of the current connection.
    pub fn bypass_domains(&self) -> (r: Vec<String>)
        ensures
            strings_view(r@) == self@.bypass_domains,
    {
        clone_strings(&self.bypass_domains)
    }

    /// The bypass subnets of the current connection.
    pub fn bypass_subnets(&self) -> (r: Vec<String>)
        ensures
            strings_view(r@) == self@.bypass_subnets,
    {
        clone_strings(&self.bypass_subnets)
    }

    /// Whether the current server runs in L3 mode.
    pub fn l3_mode(&self) -> (r: bool)
        ensures
            r == self@.l3_mode,
    {
        self.l3_mode
    }

    /// Whether the connection is up.
    pub fn is_connected(&self) -> (r: bool)
        ensures
            r == (self@.state.status == ConnectionStatus::Connected),
    {
        self.state.status == ConnectionStatus::Connected
    }

    fn update_status(&mut self, status: ConnectionStatus, server: Option<&ServerConfig>, error: Option<String>)
        ensures
            final(self)@ == (XrayView {
                state: status_update(
                    old(self)@.state,
                    status,
                    match server {
                        Some(s) => Some(s@),
                        None => None,
                    },
                    opt_chars(error),
                ),
                ..old(self)@
            }),
    {
        proof {
            use_type_invariant(&*self);
        }
        self.state.status = status;
        if let Some(srv) = server {
            self.state.server_name = Some(srv.name.clone());
            self.state.server_address = Some(srv.address.clone());
        }
        if status == ConnectionStatus::Disconnected {
            self.state.server_name = None;
            self.state.server_address = None;
            self.state.connected_since = None;
            self.state.error_message = None;
        }
        if let Some(err) = error {
            self.state.error_message = Some(err);
        }
    }

    fn reset_stats(&mut self)
        ensures
            final(self)@ == (XrayView {
                stats: zero_stats(),
                prev_uplink: 0,
                prev_downlink: 0,
                ..old(self)@
            }),
    {
        proof {
            use_type_invariant(&*self);
        }
        self.stats = SpeedStats::default();
        self.prev_uplink = 0;
        self.prev_downlink = 0;
    }

    /// Starts a connection to `server`, refused while one is up or coming
    /// up. The caller then detects the environment, writes the
    /// configuration and spawns xray.
    pub fn begin_start(&mut self, server: &ServerConfig) -> (r: Result<(), AppError>)
        ensures
            xray_wf(final(self)@),
            (old(self)@.state.status == ConnectionStatus::Connected || old(self)@.state.status
                == ConnectionStatus::Connecting) ==> (r matches Err(e) && e@ == AppErrorView::XrayProcess(
                "Already connected or connecting"@,
            ) && final(self)@ == old(self)@),
            !(old(self)@.state.status == ConnectionStatus::Connected || old(self)@.state.status
                == ConnectionStatus::Connecting) ==> (r is Ok && final(self)@ == started_view(
                old(self)@,
                server@,
            )),
    {
        proof {
            use_type_invariant(&*self);
        }
        if self.state.status == ConnectionStatus::Connected || self.state.status
            == ConnectionStatus::Connecting {
            return Err(AppError::XrayProcess(string_of("Already connected or connecting")));
        }
        self.reset_stats();
        self.update_status(ConnectionStatus::Connecting, Some(server), None);
        proof {
            use_type_invariant(&*self);
        }
        self.started = false;
        self.l3_mode = virtualnet_enabled(server).is_some();
        Ok(())
    }

    /// Records what the start found: the corporate VPNs, the subnets that
    /// bypass the tunnel and the bypass domains.
    pub fn record_environment(&mut self, vpns: Vec<DetectedVpn>, bypass_subnets: Vec<String>, bypass_domains: &[String])
        ensures
            xray_wf(final(self)@),
            final(self)@ == (XrayView {
                detected_vpns: vpn_views(vpns@),
                bypass_subnets: strings_view(bypass_subnets@),
                bypass_domains: strings_view(bypass_domains@),
                ..old(self)@
            }),
    {
        proof {
            use_type_invariant(&*self);
        }
        self.detected_vpns = vpns;
        self.bypass_subnets = bypass_subnets;
        self.bypass_domains = crate::config::strings_to_vec(bypass_domains);
    }

    /// Adds a line to the log, dropping the oldest when it is full.
    pub fn push_log(&mut self, level: &str, message: &str, now: u64)
        ensures
            xray_wf(final(self)@),
            final(self)@ == (XrayView {
                logs: log_push(
                    old(self)@.logs,
                    LogEntryView { timestamp: now, level: level@, message: message@ },
                ),
                ..old(self)@
            }),
    {
        proof {
            use_type_invariant(&*self);
        }
        let entry = LogEntry { timestamp: now, level: string_of(level), message: string_of(message) };
        let ghost ev = entry@;
        let ghost before = log_views(self.logs@);
        let mut logs = VecDeque::new();
        std::mem::swap(&mut logs, &mut self.logs);
        if logs.len() >= MAX_LOG_ENTRIES {
            let _ = logs.pop_front();
            assert(log_views(logs@) =~= before.drop_first());
        }
        let ghost mid = log_views(logs@);
        logs.push_back(entry);
        assert(log_views(logs@) =~= mid.push(ev));
        self.logs = logs;
    }

    /// Marks the connection up, unless it is not coming up or already came
    /// up since the start; true when this call did it (the caller then
    /// enables the system proxy and announces the connection).
    pub fn mark_connected(&mut self, server_name: &str, server_address: &str, now: u64) -> (r: bool)
        ensures
            xray_wf(final(self)@),
            (final(self)@, r) == mark_connected_spec(old(self)@, server_name@, server_address@, now),
    {
        proof {
            use_type_invariant(&*self);
        }
        if self.state.status != ConnectionStatus::Connecting {
            return false;
        }
        if self.started {
            return false;
        }
        self.started = true;
        self.state.status = ConnectionStatus::Connected;
        self.state.connected_since = Some(now);
        self.state.server_name = Some(string_of(server_name));
        self.state.server_address = Some(string_of(server_address));
        self.state.error_message = None;
        true
    }

    fn on_output(&mut self, t: String, level: String, server_name: &str, server_address: &str, now: u64) -> (r: XrayAction)
        ensures
            xray_wf(final(self)@),
            (final(self)@, r) == output_spec(old(self)@, t@, level@, server_name@, server_address@, now),
    {
        proof {
            use_type_invariant(&*self);
        }
        let enable_proxy = !self.l3_mode;
        self.push_log(level.as_str(), t.as_str(), now);
        if !self.started && contains_text(t.as_str(), "started") {
            if self.mark_connected(server_name, server_address, now) {
                return XrayAction::Connected { enable_proxy };
            }
        }
        XrayAction::Nothing
    }

    /// Reacts to one event of the xray process (see [`event_spec`]).
    pub fn handle_event(&mut self, ev: &XrayEvent, server_name: &str, server_address: &str, now: u64) -> (r: XrayAction)
        ensures
            xray_wf(final(self)@),
            (final(self)@, r) == event_spec(old(self)@, ev@, server_name@, server_address@, now),
    {
        proof {
            use_type_invariant(&*self);
        }
        match ev {
            XrayEvent::Stdout(line) => {
                let t = line_string(line.as_slice());
                self.on_output(t, string_of("info"), server_name, server_address, now)
            },
            XrayEvent::Stderr(line) => {
                let t = line_string(line.as_slice());
                let level = classify_stderr(t.as_str());
                self.on_output(t, level, server_name, server_address, now)
            },
            XrayEvent::Error(m) => {
                self.push_log("error", m.as_str(), now);
                XrayAction::Nothing
            },
            XrayEvent::Terminated { code, signal } => {
                let disable_proxy = !self.l3_mode;
                let msg = string_of("xray terminated (code: ").concat(
                    debug_opt_i32_text(*code).as_str(),
                ).concat(", signal: ").concat(debug_opt_i32_text(*signal).as_str()).concat(")");
                self.push_log("warning", msg.as_str(), now);
                if self.state.status == ConnectionStatus::Disconnecting {
                    self.state.status = ConnectionStatus::Disconnected;
                } else if self.state.status != ConnectionStatus::Disconnected && self.state.status
                    != ConnectionStatus::Error {
                    self.state.status = ConnectionStatus::Error;
                    self.state.error_message = Some(
                        string_of("xray exited unexpectedly (code: ").concat(
                            debug_opt_i32_text(*code).as_str(),
                        ).concat(")"),
                    );
                }
                self.state.connected_since = None;
                XrayAction::Terminated { disable_proxy }
            },
        }
    }

    /// The connection did not come up in time: unless it came up or was
    /// given up meanwhile, it fails with a timeout; true when the caller
    /// must kill xray and announce the disconnection.
    pub fn on_connect_timeout(&mut self, now: u64) -> (r: bool)
        ensures
            xray_wf(final(self)@),
            r == (!old(self)@.started && old(self)@.state.status == ConnectionStatus::Connecting),
            r ==> final(self)@ == (XrayView {
                logs: log_push(
                    old(self)@.logs,
                    LogEntryView {
                        timestamp: now,
                        level: "error"@,
                        message: "Connection timeout after 15 seconds"@,
                    },
                ),
                state: ConnectionInfoView {
                    status: ConnectionStatus::Error,
                    error_message: Some(timeout_message()),
                    connected_since: None,
                    ..old(self)@.state
                },
                ..old(self)@
            }),
            !r ==> final(self)@ == old(self)@,
    {
        proof {
            use_type_invariant(&*self);
        }
        if self.started || self.state.status != ConnectionStatus::Connecting {
            return false;
        }
        self.push_log("error", "Connection timeout after 15 seconds", now);
        self.state.status = ConnectionStatus::Error;
        self.state.error_message = Some(
            string_of("Connection timeout — server unreachable or config invalid"),
        );
        self.state.connected_since = None;
        true
    }

    /// A stop begins: `Disconnecting`. The caller then tears down the
    /// tunnel, the system proxy and the process.
    pub fn begin_stop(&mut self)
        ensures
            xray_wf(final(self)@),
            final(self)@ == (XrayView {
                state: status_update(old(self)@.state, ConnectionStatus::Disconnecting, None, None),
                ..old(self)@
            }),
    {
        proof {
            use_type_invariant(&*self);
        }
        self.update_status(ConnectionStatus::Disconnecting, None, None);
    }

    /// A stop completed: `Disconnected` with nothing of the server left,
    /// counters reset.
    pub fn finish_stop(&mut self)
        ensures
            xray_wf(final(self)@),
            final(self)@ == (XrayView {
                state: status_update(old(self)@.state, ConnectionStatus::Disconnected, None, None),
                stats: zero_stats(),
                prev_uplink: 0,
                prev_downlink: 0,
                ..old(self)@
            }),
    {
        proof {
            use_type_invariant(&*self);
        }
        self.update_status(ConnectionStatus::Disconnected, None, None);
        self.reset_stats();
    }

    /// Records a statistics poll (see [`stats_update`]) and returns the new
    /// counters.
    pub fn record_stats(&mut self, uplink: u64, downlink: u64) -> (r: SpeedStats)
        ensures
            xray_wf(final(self)@),
            (final(self)@, r) == stats_update(old(self)@, uplink, downlink),
    {
        proof {
            use_type_invariant(&*self);
        }
        let upload_speed = uplink.saturating_sub(self.prev_uplink);
        let download_speed = downlink.saturating_sub(self.prev_downlink);
        self.prev_uplink = uplink;
        self.prev_downlink = downlink;
        let s = SpeedStats { upload_speed, download_speed, total_upload: uplink, total_download: downlink };
        self.stats = s;
        s
    }
}

// ---------------------------------------------------------------------------
// Checking that traffic flows after the connection came up
// ---------------------------------------------------------------------------

/// What the traffic check logs, at which level, and whether to check once
/// more later: traffic counted is reported with the totals; none at the
/// first check is a warning and asks for a later check; none at the later
/// one is an error.
pub open spec fn traffic_report(s: SpeedStats, later_check: bool) -> (Seq<char>, Seq<char>, bool) {
    if s.total_upload > 0 || s.total_download > 0 {
        (
            "info"@,
            (if later_check {
                "[verify] Traffic detected after 15s — upload: "@
            } else {
                "[verify] Traffic flowing — upload: "@
            }) + utf8_lossy(decimal_digits(s.total_upload as nat)) + " bytes, download: "@
                + utf8_lossy(decimal_digits(s.total_download as nat)) + " bytes"@,
            false,
        )
    } else if later_check {
        (
            "error"@,
            "[verify] Still no traffic after 15s — connection may be broken. Check server config and network."@,
            false,
        )
    } else {
        ("warning"@, "[verify] No traffic detected after 5s — VPN may not be routing correctly"@, true)
    }
}

/// A traffic check: nothing while the connection is not up (`None`, stop
/// checking); otherwise the report of [`traffic_report`] is logged and
/// whether to check again is returned.
pub open spec fn traffic_check_spec(v: XrayView, later_check: bool, now: u64) -> (XrayView, Option<bool>) {
    if v.state.status != ConnectionStatus::Connected {
        (v, None)
    } else {
        let (level, message, again) = traffic_report(v.stats, later_check);
        (
            XrayView {
                logs: log_push(v.logs, LogEntryView { timestamp: now, level, message }),
                ..v
            },
            Some(again),
        )
    }
}

impl XrayManager {
    /// Checks that traffic flows after the connection came up (see
    /// [`traffic_check_spec`]).
    pub fn check_traffic(&mut self, later_check: bool, now: u64) -> (r: Option<bool>)
        ensures
            xray_wf(final(self)@),
            (final(self)@, r) == traffic_check_spec(old(self)@, later_check, now),
    {
        proof {
            use_type_invariant(&*self);
        }
        if self.state.status != ConnectionStatus::Connected {
            return None;
        }
        let up = self.stats.total_upload;
        let down = self.stats.total_download;
        if up > 0 || down > 0 {
            let mut a: Vec<u8> = Vec::new();
            push_decimal(&mut a, up);
            assert(a@ =~= decimal_digits(up as nat));
            let mut b: Vec<u8> = Vec::new();
            push_decimal(&mut b, down);
            assert(b@ =~= decimal_digits(down as nat));
            let head = if later_check {
                "[verify] Traffic detected after 15s — upload: "
            } else {
                "[verify] Traffic flowing — upload: "
            };
            let msg = string_of(head).concat(string_from_utf8_lossy(a.as_slice()).as_str()).concat(
                " bytes, download: ",
            ).concat(string_from_utf8_lossy(b.as_slice()).as_str()).concat(" bytes");
            self.push_log("info", msg.as_str(), now);
            Some(false)
        } else if later_check {
            self.push_log(
                "error",
                "[verify] Still no traffic after 15s — connection may be broken. Check server config and network.",
                now,
            );
            Some(false)
        } else {
            self.push_log(
                "warning",
                "[verify] No traffic detected after 5s — VPN may not be routing correctly",
                now,
            );
            Some(true)
        }
    }
}

// ---------------------------------------------------------------------------
// xray run through sudo
// ---------------------------------------------------------------------------

/// Whether a line sudo wrote says it rejected the password (compared
/// without case).
pub open spec fn sudo_rejection(t: Seq<char>) -> bool {
    let low = unicode_lowercase(t);
    text_contains(low, "incorrect password attempt"@) || text_contains(low, "sorry, try again"@)
        || text_contains(low, "3 incorrect password attempts"@)
}

/// Whether `t` says sudo rejected the password (see [`sudo_rejection`]).
pub fn is_sudo_rejection(t: &str) -> (r: bool)
    ensures
        r == sudo_rejection(t@),
{
    let low = str_to_lowercase(t);
    contains_text(low.as_str(), "incorrect password attempt") || contains_text(
        low.as_str(),
        "sorry, try again",
    ) || contains_text(low.as_str(), "3 incorrect password attempts")
}

/// A line on the standard error of xray run through sudo: sudo's
/// rejection of the password is logged as `rejected_message` and
/// reported; any other line is handled as xray's own.
pub open spec fn sudo_stderr_spec(
    v: XrayView,
    line: Seq<u8>,
    rejected_message: Seq<char>,
    name: Seq<char>,
    address: Seq<char>,
    now: u64,
) -> (XrayView, XrayAction) {
    let t = line_text(line);
    if sudo_rejection(t) {
        (
            XrayView {
                logs: log_push(
                    v.logs,
                    LogEntryView { timestamp: now, level: "error"@, message: rejected_message },
                ),
                ..v
            },
            XrayAction::SudoRejected,
        )
    } else {
        output_spec(v, t, stderr_level(t), name, address, now)
    }
}

/// The end of xray run through sudo: logged with its exit code, and the
/// connection ends as for any exit.
pub open spec fn sudo_exit_spec(v: XrayView, code: Option<i32>, now: u64) -> XrayView {
    XrayView {
        logs: log_push(
            v.logs,
            LogEntryView {
                timestamp: now,
                level: "warning"@,
                message: "xray terminated (code: "@ + debug_opt_i32(code) + ")"@,
            },
        ),
        state: terminated_state(v.state, code),
        ..v
    }
}

impl XrayManager {
    /// Reacts to a line on the standard error of xray run through sudo
    /// (see [`sudo_stderr_spec`]).
    pub fn handle_sudo_stderr(
        &mut self,
        line: &[u8],
        rejected_message: &str,
        server_name: &str,
        server_address: &str,
        now: u64,
    ) -> (r: XrayAction)
        ensures
            xray_wf(final(self)@),
            (final(self)@, r) == sudo_stderr_spec(
                old(self)@,
                line@,
                rejected_message@,
                server_name@,
                server_address@,
                now,
            ),
    {
        proof {
            use_type_invariant(&*self);
        }
        let t = line_string(line);
        if is_sudo_rejection(t.as_str()) {
            self.push_log("error", rejected_message, now);
            return XrayAction::SudoRejected;
        }
        let level = classify_stderr(t.as_str());
        self.on_output(t, level, server_name, server_address, now)
    }

    /// Records the end of xray run through sudo (see [`sudo_exit_spec`]).
    pub fn handle_sudo_exit(&mut self, code: Option<i32>, now: u64)
        ensures
            xray_wf(final(self)@),
            final(self)@ == sudo_exit_spec(old(self)@, code, now),
    {
        proof {
            use_type_invariant(&*self);
        }
        let msg = string_of("xray terminated (code: ").concat(debug_opt_i32_text(code).as_str()).concat(
            ")",
        );
        self.push_log("warning", msg.as_str(), now);
        if self.state.status == ConnectionStatus::Disconnecting {
            self.state.status = ConnectionStatus::Disconnected;
        } else if self.state.status != ConnectionStatus::Disconnected && self.state.status
            != ConnectionStatus::Error {
            self.state.status = ConnectionStatus::Error;
            self.state.error_message = Some(
                string_of("xray exited unexpectedly (code: ").concat(
                    debug_opt_i32_text(code).as_str(),
                ).concat(")"),
            );
        }
        self.state.connected_since = None;
    }
}

// ---------------------------------------------------------------------------
// Statistics output
// ---------------------------------------------------------------------------

/// `statsquery` prints its result to standard output when that holds
/// `>>>`, otherwise the output to read is on standard error.
pub fn choose_stats_output<'a>(stdout: &'a str, stderr: &'a str) -> (r: &'a str)
    ensures
        r@ == (if text_contains(stdout@, ">>>"@) {
            stdout@
        } else {
            stderr@
        }),
{
    if contains_text(stdout, ">>>") {
        stdout
    } else {
        stderr
    }
}

/// One entry of the `stat` array of xray's statistics output: its name
/// (empty when absent) and its value as a JSON number or a JSON string.
#[derive(Debug)]
pub struct StatEntry {
    pub name: String,
    pub number: Option<u64>,
    pub text: Option<String>,
}

pub struct StatEntryView {
    pub name: Seq<char>,
    pub number: Option<u64>,
    pub text: Option<Seq<char>>,
}

impl View for StatEntry {
    type V = StatEntryView;

    open spec fn view(&self) -> StatEntryView {
        StatEntryView { name: self.name@, number: self.number, text: opt_chars(self.text) }
    }
}

pub open spec fn stat_views(v: Seq<StatEntry>) -> Seq<StatEntryView> {
    v.map_values(|e: StatEntry| e@)
}

/// The value of an entry: the number, else the string parsed as a `u64`,
/// else 0.
pub open spec fn entry_value(e: StatEntryView) -> u64 {
    match e.number {
        Some(n) => n,
        None => match e.text {
            Some(t) => match parse_unsigned(encode_utf8(t), 18446744073709551615) {
                Some(n) => n as u64,
                None => 0,
            },
            None => 0,
        },
    }
}

/// The value of the last entry called `name`, 0 when there is none.
pub open spec fn last_stat(es: Seq<StatEntryView>, name: Seq<char>) -> u64
    decreases es.len(),
{
    if es.len() == 0 {
        0
    } else if es.last().name == name {
        entry_value(es.last())
    } else {
        last_stat(es.drop_last(), name)
    }
}

pub open spec fn uplink_name() -> Seq<char> {
    "outbound>>>proxy>>>traffic>>>uplink"@
}

pub open spec fn downlink_name() -> Seq<char> {
    "outbound>>>proxy>>>traffic>>>downlink"@
}

fn stat_entry_value(e: &StatEntry) -> (r: u64)
    ensures
        r == entry_value(e@),
{
    match e.number {
        Some(n) => n,
        None => match &e.text {
            Some(t) => {
                let b = t.as_str().as_bytes();
                assert(b@.subrange(0, b@.len() as int) =~= b@);
                match parse_unsigned_range(b, 0, b.len(), 18446744073709551615) {
                    Some(n) => n,
                    None => 0,
                }
            },
            None => 0,
        },
    }
}

/// The proxy outbound's uplink and downlink counters in the `stat`
/// entries (the last entry of each name counts; 0 when missing).
pub fn parse_stats_entries(entries: &[StatEntry]) -> (r: (u64, u64))
    ensures
        r.0 == last_stat(stat_views(entries@), uplink_name()),
        r.1 == last_stat(stat_views(entries@), downlink_name()),
{
    let ghost es = stat_views(entries@);
    let mut up: u64 = 0;
    let mut down: u64 = 0;
    let mut i: usize = 0;
    while i < entries.len()
        invariant
            i <= entries@.len(),
            es == stat_views(entries@),
            up == last_stat(es.take(i as int), uplink_name()),
            down == last_stat(es.take(i as int), downlink_name()),
        decreases entries@.len() - i,
    {
        let e = &entries[i];
        proof {
            assert(es.take(i + 1).drop_last() =~= es.take(i as int));
            assert(es.take(i + 1).last() == e@);
        }
        if str_eq(e.name.as_str(), "outbound>>>proxy>>>traffic>>>uplink") {
            up = stat_entry_value(e);
        } else if str_eq(e.name.as_str(), "outbound>>>proxy>>>traffic>>>downlink") {
            down = stat_entry_value(e);
            proof {
                reveal_strlit("outbound>>>proxy>>>traffic>>>uplink");
                reveal_strlit("outbound>>>proxy>>>traffic>>>downlink");
                assert(uplink_name() != downlink_name()) by {
                    assert(uplink_name().len() != downlink_name().len());
                }
            }
        }
        proof {
            if e@.name == uplink_name() {
                reveal_strlit("outbound>>>proxy>>>traffic>>>uplink");
                reveal_strlit("outbound>>>proxy>>>traffic>>>downlink");
                assert(uplink_name().len() != downlink_name().len());
            }
        }
        i = i + 1;
    }
    assert(es.take(entries@.len() as int) =~= es);
    (up, down)
}

/// The name of an entry: its `name` string, empty when absent.
pub open spec fn stat_entry_of(e: JsonView) -> StatEntryView {
    StatEntryView {
        name: match json_get(e, "name"@) {
            Some(n) => match json_as_str(n) {
                Some(t) => t,
                None => Seq::empty(),
            },
            None => Seq::empty(),
        },
        number: match json_get(e, "value"@) {
            Some(v) => json_as_u64(v),
            None => None,
        },
        text: match json_get(e, "value"@) {
            Some(v) => json_as_str(v),
            None => None,
        },
    }
}

/// The entries of the `stat` array of the statistics output, read as
/// JSON; none when the output is not JSON or has no such array.
pub open spec fn stat_entries_in(j: Option<JsonView>) -> Seq<StatEntryView> {
    match j {
        Some(v) => match json_get(v, "stat"@) {
            Some(s) => match json_as_array(s) {
                Some(items) => items.map_values(|e: JsonView| stat_entry_of(e)),
                None => Seq::empty(),
            },
            None => Seq::empty(),
        },
        None => Seq::empty(),
    }
}

fn stat_entry_from(e: &Json) -> (r: StatEntry)
    ensures
        r@ == stat_entry_of(e@),
{
    let name = match get(e, "name") {
        Some(n) => match as_str(n) {
            Some(t) => string_of(t),
            None => String::new(),
        },
        None => String::new(),
    };
    let (number, text) = match get(e, "value") {
        Some(v) => (
            as_u64(v),
            match as_str(v) {
                Some(t) => Some(string_of(t)),
                None => None,
            },
        ),
        None => (None, None),
    };
    StatEntry { name, number, text }
}

/// The entries of the `stat` array of a JSON value.
pub fn stat_entries_of(j: &Option<Json>) -> (r: Vec<StatEntry>)
    ensures
        stat_views(r@) == stat_entries_in(opt_json_view(*j)),
{
    let mut out: Vec<StatEntry> = Vec::new();
    let v = match j {
        Some(v) => v,
        None => {
            assert(stat_views(out@) =~= Seq::<StatEntryView>::empty());
            return out;
        },
    };
    let items = match get(v, "stat") {
        Some(s) => match as_array(s) {
            Some(items) => items,
            None => {
                assert(stat_views(out@) =~= Seq::<StatEntryView>::empty());
                return out;
            },
        },
        None => {
            assert(stat_views(out@) =~= Seq::<StatEntryView>::empty());
            return out;
        },
    };
    let ghost want = json_views(items@).map_values(|e: JsonView| stat_entry_of(e));
    let mut i: usize = 0;
    while i < items.len()
        invariant
            i <= items@.len(),
            want == json_views(items@).map_values(|e: JsonView| stat_entry_of(e)),
            stat_views(out@) == want.take(i as int),
        decreases items@.len() - i,
    {
        let e = stat_entry_from(&items[i]);
        let ghost ev = e@;
        let ghost before = out@;
        assert(json_views(items@)[i as int] == items@[i as int]@);
        assert(want[i as int] == ev);
        out.push(e);
        assert(out@ == before.push(e));
        assert(stat_views(out@) =~= stat_views(before).push(ev));
        assert(want.take(i + 1) =~= want.take(i as int).push(ev));
        assert(stat_views(out@) =~= want.take(i + 1));
        i = i + 1;
    }
    assert(want.take(items@.len() as int) =~= want);
    out
}

impl XrayManager {
    /// The proxy outbound's uplink and downlink counters in the output of
    /// `xray api statsquery` (JSON `{"stat": [{"name": .., "value": ..}]}`;
    /// the last entry of each name counts, 0 when missing or unreadable).
    pub fn parse_stats_output(output: &str) -> (r: (u64, u64))
        ensures
            r.0 == last_stat(stat_entries_in(json_text_value(encode_utf8(output@))), uplink_name()),
            r.1 == last_stat(stat_entries_in(json_text_value(encode_utf8(output@))), downlink_name()),
    {
        let j = json_from_slice(output.as_bytes());
        let entries = stat_entries_of(&j);
        parse_stats_entries(entries.as_slice())
    }
}

// ---------------------------------------------------------------------------
// Laws of the state machine
// ---------------------------------------------------------------------------

/// A connection comes up at most once per start: once `mark_connected`
/// succeeded, it fails until the next start.
pub proof fn lemma_connected_once(
    v: XrayView,
    name1: Seq<char>,
    addr1: Seq<char>,
    t1: u64,
    name2: Seq<char>,
    addr2: Seq<char>,
    t2: u64,
)
    ensures
        mark_connected_spec(v, name1, addr1, t1).1 ==> !mark_connected_spec(
            mark_connected_spec(v, name1, addr1, t1).0,
            name2,
            addr2,
            t2,
        ).1,
{
}

/// A connection that came up is never failed by the connection timeout.
pub proof fn lemma_no_timeout_after_connect(v: XrayView, name: Seq<char>, addr: Seq<char>, t: u64)
    ensures
        ({
            let (v1, ok) = mark_connected_spec(v, name, addr, t);
            ok ==> !(!v1.started && v1.state.status == ConnectionStatus::Connecting)
        }),
{
}

/// After xray exits the connection is neither up nor coming up, and has no
/// connection time.
pub proof fn lemma_exit_ends_connection(s: ConnectionInfoView, code: Option<i32>)
    ensures
        terminated_state(s, code).status != ConnectionStatus::Connected,
        terminated_state(s, code).status != ConnectionStatus::Connecting,
        terminated_state(s, code).connected_since is None,
{
}

/// A completed stop always allows a new start, and leaves nothing of the
/// old server behind.
pub proof fn lemma_stop_allows_start(s: ConnectionInfoView)
    ensures
        ({
            let t = status_update(s, ConnectionStatus::Disconnected, None, None);
            &&& t.status != ConnectionStatus::Connected
            &&& t.status != ConnectionStatus::Connecting
            &&& t.server_name is None
            &&& t.server_address is None
            &&& t.connected_since is None
            &&& t.error_message is None
        }),
{
}

/// The log never holds more than [`MAX_LOG_ENTRIES`] lines, and a new line
/// is always its last one, the lines before it kept in order.
pub proof fn lemma_log_bounded(logs: Seq<LogEntryView>, e: LogEntryView)
    requires
        logs.len() <= MAX_LOG_ENTRIES,
    ensures
        log_push(logs, e).len() <= MAX_LOG_ENTRIES,
        log_push(logs, e).last() == e,
        log_push(logs, e).drop_last().is_suffix_of(logs),
{
    let r = log_push(logs, e);
    assert(r.drop_last() =~= if logs.len() >= MAX_LOG_ENTRIES {
        logs.drop_first()
    } else {
        logs
    });
}

/// Successive polls: the totals are the last counters, and while the
/// counters grow the speeds add up to their growth since the first poll.
pub proof fn lemma_stats_add_up(v: XrayView, up1: u64, down1: u64, up2: u64, down2: u64)
    requires
        v.prev_uplink <= up1 <= up2,
        v.prev_downlink <= down1 <= down2,
    ensures
        ({
            let (v1, s1) = stats_update(v, up1, down1);
            let (v2, s2) = stats_update(v1, up2, down2);
            &&& s2.total_upload == up2 && s2.total_download == down2
            &&& s1.upload_speed + s2.upload_speed == up2 - v.prev_uplink
            &&& s1.download_speed + s2.download_speed == down2 - v.prev_downlink
        }),
{
}

} // verus!
