//! The data model: server definitions, subscriptions, settings, connection
//! state, and the library's error type, each with a mathematical view.
use vstd::prelude::*;
use vstd::utf8::*;

use crate::text::{str_trim, string_of, trim_chars};

verus! {

/// `Some(s@)` for `Some(s)`.
pub open spec fn opt_chars(o: Option<String>) -> Option<Seq<char>> {
    match o {
        Some(s) => Some(s@),
        None => None,
    }
}

/// A copy of an optional string.
pub fn clone_opt_string(o: &Option<String>) -> (r: Option<String>)
    ensures
        opt_chars(r) == opt_chars(*o),
{
    match o {
        Some(s) => Some(s.clone()),
        None => None,
    }
}

/// The views of a list of strings.
pub open spec fn strings_view(v: Seq<String>) -> Seq<Seq<char>> {
    v.map_values(|s: String| s@)
}

/// A copy of a list of strings.
pub fn clone_strings(v: &Vec<String>) -> (r: Vec<String>)
    ensures
        strings_view(r@) == strings_view(v@),
{
    let mut out: Vec<String> = Vec::new();
    let mut i: usize = 0;
    while i < v.len()
        invariant
            i <= v@.len(),
            out@.len() == i,
            forall|j: int| 0 <= j < i ==> #[trigger] out@[j]@ == v@[j]@,
        decreases v@.len() - i,
    {
        out.push(v[i].clone());
        i = i + 1;
    }
    assert(strings_view(out@) =~= strings_view(v@));
    out
}

/// REALITY transport parameters of a server.
#[derive(Debug, Default)]
pub struct RealitySettings {
    pub public_key: String,
    pub short_id: String,
    pub server_name: String,
    pub fingerprint: String,
}

pub struct RealityView {
    pub public_key: Seq<char>,
    pub short_id: Seq<char>,
    pub server_name: Seq<char>,
    pub fingerprint: Seq<char>,
}

impl View for RealitySettings {
    type V = RealityView;

    open spec fn view(&self) -> RealityView {
        RealityView {
            public_key: self.public_key@,
            short_id: self.short_id@,
            server_name: self.server_name@,
            fingerprint: self.fingerprint@,
        }
    }
}

impl Clone for RealitySettings {
    fn clone(&self) -> (r: Self)
        ensures
            r@ == self@,
    {
        RealitySettings {
            public_key: self.public_key.clone(),
            short_id: self.short_id.clone(),
            server_name: self.server_name.clone(),
            fingerprint: self.fingerprint.clone(),
        }
    }
}

/// L3 ("virtual network") parameters: xray-core owns a TUN adapter bound to
/// `vnet_ip` inside `subnet`.
#[derive(Debug, Default)]
pub struct VirtualNetSettings {
    pub enabled: bool,
    pub subnet: String,
    pub vnet_ip: String,
    pub default_route: bool,
    pub interface_name: Option<String>,
    pub mtu: Option<u32>,
}

pub struct VirtualNetView {
    pub enabled: bool,
    pub subnet: Seq<char>,
    pub vnet_ip: Seq<char>,
    pub default_route: bool,
    pub interface_name: Option<Seq<char>>,
    pub mtu: Option<u32>,
}

impl View for VirtualNetSettings {
    type V = VirtualNetView;

    open spec fn view(&self) -> VirtualNetView {
        VirtualNetView {
            enabled: self.enabled,
            subnet: self.subnet@,
            vnet_ip: self.vnet_ip@,
            default_route: self.default_route,
            interface_name: opt_chars(self.interface_name),
            mtu: self.mtu,
        }
    }
}

impl Clone for VirtualNetSettings {
    fn clone(&self) -> (r: Self)
        ensures
            r@ == self@,
    {
        VirtualNetSettings {
            enabled: self.enabled,
            subnet: self.subnet.clone(),
            vnet_ip: self.vnet_ip.clone(),
            default_route: self.default_route,
            interface_name: clone_opt_string(&self.interface_name),
            mtu: self.mtu,
        }
    }
}

pub open spec fn opt_vnet_view(o: Option<VirtualNetSettings>) -> Option<VirtualNetView> {
    match o {
        Some(v) => Some(v@),
        None => None,
    }
}

/// One VLESS + REALITY server.
#[derive(Debug, Default)]
pub struct ServerConfig {
    /// Internal identifier (a fresh UUID v4), not the VLESS user id.
    pub id: String,
    pub name: String,
    pub address: String,
    pub port: u16,
    /// VLESS user id.
    pub uuid: String,
    pub flow: String,
    pub reality: RealitySettings,
    pub virtualnet: Option<VirtualNetSettings>,
    /// The subscription this server was imported from, if any.
    pub subscription_id: Option<String>,
}

pub struct ServerView {
    pub id: Seq<char>,
    pub name: Seq<char>,
    pub address: Seq<char>,
    pub port: u16,
    pub uuid: Seq<char>,
    pub flow: Seq<char>,
    pub reality: RealityView,
    pub virtualnet: Option<VirtualNetView>,
    pub subscription_id: Option<Seq<char>>,
}

impl View for ServerConfig {
    type V = ServerView;

    open spec fn view(&self) -> ServerView {
        ServerView {
            id: self.id@,
            name: self.name@,
            address: self.address@,
            port: self.port,
            uuid: self.uuid@,
            flow: self.flow@,
            reality: self.reality@,
            virtualnet: opt_vnet_view(self.virtualnet),
            subscription_id: opt_chars(self.subscription_id),
        }
    }
}

impl Clone for ServerConfig {
    fn clone(&self) -> (r: Self)
        ensures
            r@ == self@,
    {
        ServerConfig {
            id: self.id.clone(),
            name: self.name.clone(),
            address: self.address.clone(),
            port: self.port,
            uuid: self.uuid.clone(),
            flow: self.flow.clone(),
            reality: self.reality.clone(),
            virtualnet: match &self.virtualnet {
                Some(v) => Some(v.clone()),
                None => None,
            },
            subscription_id: clone_opt_string(&self.subscription_id),
        }
    }
}

pub open spec fn servers_view(v: Seq<ServerConfig>) -> Seq<ServerView> {
    v.map_values(|s: ServerConfig| s@)
}

/// A copy of a list of servers.
pub fn clone_servers(v: &Vec<ServerConfig>) -> (r: Vec<ServerConfig>)
    ensures
        servers_view(r@) == servers_view(v@),
{
    let mut out: Vec<ServerConfig> = Vec::new();
    let mut i: usize = 0;
    while i < v.len()
        invariant
            i <= v@.len(),
            out@.len() == i,
            forall|j: int| 0 <= j < i ==> #[trigger] out@[j]@ == v@[j]@,
        decreases v@.len() - i,
    {
        out.push(v[i].clone());
        i = i + 1;
    }
    assert(servers_view(out@) =~= servers_view(v@));
    out
}

// ---------------------------------------------------------------------------
// Validation
// ---------------------------------------------------------------------------

pub open spec fn is_hex_digit(b: u8) -> bool {
    (48 <= b <= 57) || (65 <= b <= 70) || (97 <= b <= 102)
}

/// `xxxxxxxx-xxxx-xxxx-xxxx-xxxxxxxxxxxx` with hexadecimal `x`.
pub open spec fn is_uuid_format(b: Seq<u8>) -> bool {
    &&& b.len() == 36
    &&& forall|i: int|
        0 <= i < 36 ==> if i == 8 || i == 13 || i == 18 || i == 23 {
            #[trigger] b[i] == 45
        } else {
            is_hex_digit(b[i])
        }
}

/// The UUID check accepts exactly the hexadecimal digits: `0`-`9`,
/// `a`-`f` and `A`-`F`, the bytes to which percent-decoding gives a value.
pub proof fn lemma_hex_digits(b: u8)
    ensures
        is_hex_digit(b) <==> (('0' as u8) <= b <= ('9' as u8) || ('a' as u8) <= b <= ('f' as u8)
            || ('A' as u8) <= b <= ('F' as u8)),
        is_hex_digit(b) <==> crate::uri::hex_value(b) is Some,
{
}

/// Every text in the form `xxxxxxxx-xxxx-xxxx-xxxx-xxxxxxxxxxxx` with
/// hexadecimal `x` (either case) passes the UUID check.
pub proof fn lemma_uuid_texts_accepted(t: Seq<char>)
    requires
        t.len() == 36,
        forall|i: int|
            0 <= i < 36 ==> if i == 8 || i == 13 || i == 18 || i == 23 {
                #[trigger] t[i] == '-'
            } else {
                ('0' <= t[i] <= '9') || ('a' <= t[i] <= 'f') || ('A' <= t[i] <= 'F')
            },
    ensures
        is_uuid_format(encode_utf8(t)),
{
    assert(is_ascii_chars(t)) by {
        assert forall|i: int| 0 <= i < t.len() implies '\0' <= #[trigger] t[i] <= '\u{7f}' by {
            if i == 8 || i == 13 || i == 18 || i == 23 {
                assert(t[i] == '-');
            } else {
                assert(('0' <= t[i] <= '9') || ('a' <= t[i] <= 'f') || ('A' <= t[i] <= 'F'));
            }
        }
    }
    is_ascii_chars_encode_utf8(t);
    let b = encode_utf8(t);
    assert forall|i: int| 0 <= i < 36 implies if i == 8 || i == 13 || i == 18 || i == 23 {
        #[trigger] b[i] == 45
    } else {
        is_hex_digit(b[i])
    } by {
        assert(t[i] as u8 == b[i]);
        if i == 8 || i == 13 || i == 18 || i == 23 {
            assert(t[i] == '-');
        } else {
            assert(('0' <= t[i] <= '9') || ('a' <= t[i] <= 'f') || ('A' <= t[i] <= 'F'));
        }
    }
}

/// Every identifier the library generates (a random version-4 UUID in
/// lower case) passes the UUID check.
pub proof fn lemma_generated_uuid_accepted(t: Seq<char>)
    requires
        crate::uri::is_uuid_v4_text(t),
    ensures
        is_uuid_format(encode_utf8(t)),
{
    assert forall|i: int|
        0 <= i < 36 implies if i == 8 || i == 13 || i == 18 || i == 23 {
        #[trigger] t[i] == '-'
    } else {
        ('0' <= t[i] <= '9') || ('a' <= t[i] <= 'f') || ('A' <= t[i] <= 'F')
    } by {}
    lemma_uuid_texts_accepted(t);
}

/// True when `s` holds nothing but whitespace.
pub open spec fn is_blank(s: Seq<char>) -> bool {
    trim_chars(s).len() == 0
}

pub open spec fn msg_empty_address() -> Seq<char> {
    "Server address must not be empty"@
}

pub open spec fn msg_port_zero() -> Seq<char> {
    "Server port must be greater than 0"@
}

pub open spec fn msg_bad_uuid() -> Seq<char> {
    "UUID must match format xxxxxxxx-xxxx-xxxx-xxxx-xxxxxxxxxxxx (hex characters)"@
}

pub open spec fn msg_empty_public_key() -> Seq<char> {
    "Reality public_key must not be empty"@
}

pub open spec fn msg_empty_short_id() -> Seq<char> {
    "Reality short_id must not be empty"@
}

/// The first rule a server breaks, in the order address, port, UUID,
/// public key, short id; `None` when it breaks none.
pub open spec fn validation_error(s: ServerView) -> Option<Seq<char>> {
    if is_blank(s.address) {
        Some(msg_empty_address())
    } else if s.port == 0 {
        Some(msg_port_zero())
    } else if !is_uuid_format(encode_utf8(s.uuid)) {
        Some(msg_bad_uuid())
    } else if is_blank(s.reality.public_key) {
        Some(msg_empty_public_key())
    } else if is_blank(s.reality.short_id) {
        Some(msg_empty_short_id())
    } else {
        None
    }
}

/// Checks the UUID format of the given bytes.
pub fn check_uuid_format(b: &[u8]) -> (r: bool)
    ensures
        r == is_uuid_format(b@),
{
    if b.len() != 36 {
        return false;
    }
    let mut i: usize = 0;
    while i < 36
        invariant
            b@.len() == 36,
            i <= 36,
            forall|j: int|
                0 <= j < i ==> if j == 8 || j == 13 || j == 18 || j == 23 {
                    #[trigger] b@[j] == 45
                } else {
                    is_hex_digit(b@[j])
                },
        decreases 36 - i,
    {
        let c = b[i];
        if i == 8 || i == 13 || i == 18 || i == 23 {
            if c != 45 {
                return false;
            }
        } else {
            let hex = (48 <= c && c <= 57) || (65 <= c && c <= 70) || (97 <= c && c <= 102);
            if !hex {
                return false;
            }
        }
        i = i + 1;
    }
    true
}

impl ServerConfig {
    /// Checks the fields a connection needs; `Err` carries the message of
    /// the first rule broken.
    pub fn validate(&self) -> (r: Result<(), String>)
        ensures
            r is Ok <==> validation_error(self@) is None,
            r matches Err(m) ==> validation_error(self@) == Some(m@),
    {
        if str_trim(self.address.as_str()).is_empty() {
            return Err(string_of("Server address must not be empty"));
        }
        if self.port == 0 {
            return Err(string_of("Server port must be greater than 0"));
        }
        if !check_uuid_format(self.uuid.as_str().as_bytes()) {
            return Err(
                string_of(
                    "UUID must match format xxxxxxxx-xxxx-xxxx-xxxx-xxxxxxxxxxxx (hex characters)",
                ),
            );
        }
        if str_trim(self.reality.public_key.as_str()).is_empty() {
            return Err(string_of("Reality public_key must not be empty"));
        }
        if str_trim(self.reality.short_id.as_str()).is_empty() {
            return Err(string_of("Reality short_id must not be empty"));
        }
        Ok(())
    }
}

// ---------------------------------------------------------------------------
// Subscriptions and settings
// ---------------------------------------------------------------------------

/// A saved subscription URL whose servers are imported as a group.
#[derive(Debug, Default)]
pub struct Subscription {
    pub id: String,
    pub name: String,
    pub url: String,
    pub last_updated_at: Option<u64>,
    pub last_server_count: Option<u32>,
}

pub struct SubscriptionView {
    pub id: Seq<char>,
    pub name: Seq<char>,
    pub url: Seq<char>,
    pub last_updated_at: Option<u64>,
    pub last_server_count: Option<u32>,
}

impl View for Subscription {
    type V = SubscriptionView;

    open spec fn view(&self) -> SubscriptionView {
        SubscriptionView {
            id: self.id@,
            name: self.name@,
            url: self.url@,
            last_updated_at: self.last_updated_at,
            last_server_count: self.last_server_count,
        }
    }
}

impl Clone for Subscription {
    fn clone(&self) -> (r: Self)
        ensures
            r@ == self@,
    {
        Subscription {
            id: self.id.clone(),
            name: self.name.clone(),
            url: self.url.clone(),
            last_updated_at: self.last_updated_at,
            last_server_count: self.last_server_count,
        }
    }
}

pub open spec fn subscriptions_view(v: Seq<Subscription>) -> Seq<SubscriptionView> {
    v.map_values(|s: Subscription| s@)
}

/// User settings.
#[derive(Debug)]
pub struct AppSettings {
    /// Reconnect to `last_server_id` on startup.
    pub auto_connect: bool,
    pub last_server_id: Option<String>,
    /// Domains that must not go through the tunnel.
    pub bypass_domains: Vec<String>,
}

pub struct SettingsView {
    pub auto_connect: bool,
    pub last_server_id: Option<Seq<char>>,
    pub bypass_domains: Seq<Seq<char>>,
}

impl View for AppSettings {
    type V = SettingsView;

    open spec fn view(&self) -> SettingsView {
        SettingsView {
            auto_connect: self.auto_connect,
            last_server_id: opt_chars(self.last_server_id),
            bypass_domains: strings_view(self.bypass_domains@),
        }
    }
}

/// The bypass domains a fresh installation starts with.
pub open spec fn default_bypass_domains() -> Seq<Seq<char>> {
    seq!["wb.ru"@, "wildberries.ru"@]
}

/// The default bypass domain list.
pub fn default_bypass_domain_list() -> (r: Vec<String>)
    ensures
        strings_view(r@) == default_bypass_domains(),
{
    let mut v: Vec<String> = Vec::new();
    v.push(string_of("wb.ru"));
    v.push(string_of("wildberries.ru"));
    assert(strings_view(v@) =~= default_bypass_domains());
    v
}

impl Default for AppSettings {
    fn default() -> (r: Self)
        ensures
            r@ == (SettingsView {
                auto_connect: false,
                last_server_id: None,
                bypass_domains: default_bypass_domains(),
            }),
    {
        AppSettings {
            auto_connect: false,
            last_server_id: None,
            bypass_domains: default_bypass_domain_list(),
        }
    }
}

impl Clone for AppSettings {
    fn clone(&self) -> (r: Self)
        ensures
            r@ == self@,
    {
        AppSettings {
            auto_connect: self.auto_connect,
            last_server_id: clone_opt_string(&self.last_server_id),
            bypass_domains: clone_strings(&self.bypass_domains),
        }
    }
}

// ---------------------------------------------------------------------------
// Connection state
// ---------------------------------------------------------------------------

/// Where a connection stands.
#[derive(Debug, Clone, Copy, PartialEq, Eq, Structural)]
pub enum ConnectionStatus {
    Disconnected,
    Connecting,
    Connected,
    Disconnecting,
    Error,
}

/// The connection as the user interface shows it.
#[derive(Debug)]
pub struct ConnectionInfo {
    pub status: ConnectionStatus,
    pub server_name: Option<String>,
    pub server_address: Option<String>,
    /// Unix time (seconds) at which the connection came up.
    pub connected_since: Option<u64>,
    pub error_message: Option<String>,
}

pub struct ConnectionInfoView {
    pub status: ConnectionStatus,
    pub server_name: Option<Seq<char>>,
    pub server_address: Option<Seq<char>>,
    pub connected_since: Option<u64>,
    pub error_message: Option<Seq<char>>,
}

impl View for ConnectionInfo {
    type V = ConnectionInfoView;

    open spec fn view(&self) -> ConnectionInfoView {
        ConnectionInfoView {
            status: self.status,
            server_name: opt_chars(self.server_name),
            server_address: opt_chars(self.server_address),
            connected_since: self.connected_since,
            error_message: opt_chars(self.error_message),
        }
    }
}

impl Default for ConnectionInfo {
    fn default() -> (r: Self)
        ensures
            r@ == (ConnectionInfoView {
                status: ConnectionStatus::Disconnected,
                server_name: None,
                server_address: None,
                connected_since: None,
                error_message: None,
            }),
    {
        ConnectionInfo {
            status: ConnectionStatus::Disconnected,
            server_name: None,
            server_address: None,
            connected_since: None,
            error_message: None,
        }
    }
}

impl Clone for ConnectionInfo {
    fn clone(&self) -> (r: Self)
        ensures
            r@ == self@,
    {
        ConnectionInfo {
            status: self.status,
            server_name: clone_opt_string(&self.server_name),
            server_address: clone_opt_string(&self.server_address),
            connected_since: self.connected_since,
            error_message: clone_opt_string(&self.error_message),
        }
    }
}

/// Traffic counters of the proxy outbound.
#[derive(Debug, Clone, Copy, PartialEq, Eq, Structural)]
pub struct SpeedStats {
    /// Bytes per second since the previous poll.
    pub upload_speed: u64,
    pub download_speed: u64,
    /// Bytes since the connection came up.
    pub total_upload: u64,
    pub total_download: u64,
}

impl Default for SpeedStats {
    fn default() -> (r: Self)
        ensures
            r == (SpeedStats {
                upload_speed: 0,
                download_speed: 0,
                total_upload: 0,
                total_download: 0,
            }),
    {
        SpeedStats { upload_speed: 0, download_speed: 0, total_upload: 0, total_download: 0 }
    }
}

/// One line of the xray log.
#[derive(Debug)]
pub struct LogEntry {
    /// Unix time in seconds.
    pub timestamp: u64,
    /// `info`, `warning` or `error`.
    pub level: String,
    pub message: String,
}

pub struct LogEntryView {
    pub timestamp: u64,
    pub level: Seq<char>,
    pub message: Seq<char>,
}

impl View for LogEntry {
    type V = LogEntryView;

    open spec fn view(&self) -> LogEntryView {
        LogEntryView { timestamp: self.timestamp, level: self.level@, message: self.message@ }
    }
}

impl Clone for LogEntry {
    fn clone(&self) -> (r: Self)
        ensures
            r@ == self@,
    {
        LogEntry {
            timestamp: self.timestamp,
            level: self.level.clone(),
            message: self.message.clone(),
        }
    }
}

/// A corporate VPN found in the routing table.
#[derive(Debug)]
pub struct DetectedVpn {
    /// Interface name, e.g. `tun0`.
    pub interface: String,
    /// Human-readable kind, e.g. `WireGuard`.
    pub vpn_type: String,
    /// Destinations routed through the interface.
    pub subnets: Vec<String>,
    /// The VPN server's endpoint address, when a host route reveals it.
    pub server_ip: Option<String>,
}

pub struct DetectedVpnView {
    pub interface: Seq<char>,
    pub vpn_type: Seq<char>,
    pub subnets: Seq<Seq<char>>,
    pub server_ip: Option<Seq<char>>,
}

impl View for DetectedVpn {
    type V = DetectedVpnView;

    open spec fn view(&self) -> DetectedVpnView {
        DetectedVpnView {
            interface: self.interface@,
            vpn_type: self.vpn_type@,
            subnets: strings_view(self.subnets@),
            server_ip: opt_chars(self.server_ip),
        }
    }
}

impl Clone for DetectedVpn {
    fn clone(&self) -> (r: Self)
        ensures
            r@ == self@,
    {
        DetectedVpn {
            interface: self.interface.clone(),
            vpn_type: self.vpn_type.clone(),
            subnets: clone_strings(&self.subnets),
            server_ip: clone_opt_string(&self.server_ip),
        }
    }
}

// ---------------------------------------------------------------------------
// Errors
// ---------------------------------------------------------------------------

/// Errors of the library.
#[derive(Debug)]
pub enum AppError {
    /// A configuration or input problem.
    Config(String),
    /// A problem with the xray process or a helper process.
    XrayProcess(String),
    /// A file-system problem.
    Io(String),
    /// A JSON encoding or decoding problem.
    Json(String),
}

pub enum AppErrorView {
    Config(Seq<char>),
    XrayProcess(Seq<char>),
    Io(Seq<char>),
    Json(Seq<char>),
}

impl View for AppError {
    type V = AppErrorView;

    open spec fn view(&self) -> AppErrorView {
        match self {
            AppError::Config(m) => AppErrorView::Config(m@),
            AppError::XrayProcess(m) => AppErrorView::XrayProcess(m@),
            AppError::Io(m) => AppErrorView::Io(m@),
            AppError::Json(m) => AppErrorView::Json(m@),
        }
    }
}

/// The text an error is shown with.
pub open spec fn app_error_text(e: AppErrorView) -> Seq<char> {
    match e {
        AppErrorView::Config(m) => "Configuration error: "@ + m,
        AppErrorView::XrayProcess(m) => "xray process error: "@ + m,
        AppErrorView::Io(m) => "IO error: "@ + m,
        AppErrorView::Json(m) => "JSON error: "@ + m,
    }
}

impl AppError {
    /// The text the error is shown with.
    pub fn to_string(&self) -> (r: String)
        ensures
            r@ == app_error_text(self@),
    {
        let (prefix, m) = match self {
            AppError::Config(m) => (string_of("Configuration error: "), m),
            AppError::XrayProcess(m) => (string_of("xray process error: "), m),
            AppError::Io(m) => (string_of("IO error: "), m),
            AppError::Json(m) => (string_of("JSON error: "), m),
        };
        prefix.concat(m.as_str())
    }
}

} // verus!
