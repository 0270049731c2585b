//! The xray client configuration for a server: inbounds, outbounds, DNS
//! and routing, built as a JSON value.
use vstd::prelude::*;

use crate::json::{
    json_as_array, json_get, member_value,
    add_item, add_member, json_pretty_text, json_to_pretty_text, ja, jo, js, js_all, json_views, member_views, str_values, Json, JsonView,
};
use crate::models::{strings_view, ServerConfig, ServerView};
use crate::network::contains_str;
use crate::text::{has_byte, str_trim, string_of, text_has_byte, trim_chars};

verus! {

/// Where xray's statistics API listens.
pub const STATS_API_ADDR: &'static str = "127.0.0.1:10085";

/// What `str::to_lowercase` gives for a string (the Unicode lower-case
/// mapping, which may change the length).
pub uninterp spec fn unicode_lowercase(s: Seq<char>) -> Seq<char>;

/// `str::to_lowercase`: the result is named by [`unicode_lowercase`].
#[verifier::external_body]
pub(crate) fn str_to_lowercase(s: &str) -> (r: String)
    ensures
        r@ == unicode_lowercase(s@),
{
    s.to_lowercase()
}

// ---------------------------------------------------------------------------
// The configuration, as a value
// ---------------------------------------------------------------------------

/// The private IPv4 ranges.
pub open spec fn private_ranges() -> Seq<Seq<char>> {
    seq!["10.0.0.0/8"@, "172.16.0.0/12"@, "192.168.0.0/16"@]
}

/// DNS servers: in TUN mode (a `send_through` address) the corporate
/// servers first, each accepting only answers inside the bypass subnets
/// (the private ranges when there are none), then the public ones; in
/// proxy mode `localhost` first.
pub open spec fn dns_servers_spec(
    subnets: Seq<Seq<char>>,
    send_through: Option<Seq<char>>,
    vpn_dns: Seq<Seq<char>>,
) -> Seq<JsonView> {
    if send_through is Some {
        let expect = if subnets.len() == 0 {
            private_ranges()
        } else {
            subnets
        };
        vpn_dns.map_values(
            |ip: Seq<char>| jo(seq![("address"@, js(ip)), ("expectIPs"@, ja(js_all(expect)))]),
        ) + seq![js("1.1.1.1"@), js("8.8.8.8"@)]
    } else {
        seq![js("localhost"@), js("1.1.1.1"@), js("8.8.8.8"@)]
    }
}

/// Sniffing of HTTP and TLS destinations.
pub open spec fn sniffing_spec() -> JsonView {
    jo(seq![("enabled"@, JsonView::Bool(true)), ("destOverride"@, ja(seq![js("http"@), js("tls"@)]))])
}

/// The SOCKS inbound on `socks_port`.
pub open spec fn socks_inbound_spec(socks_port: u16) -> JsonView {
    jo(
        seq![
            ("tag"@, js("socks-in"@)),
            ("port"@, JsonView::Num(socks_port as u64)),
            ("listen"@, js("127.0.0.1"@)),
            ("protocol"@, js("socks"@)),
            ("settings"@, jo(seq![("udp"@, JsonView::Bool(true))])),
            ("sniffing"@, sniffing_spec()),
        ],
    )
}

/// The HTTP inbound on the next port.
pub open spec fn http_inbound_spec(socks_port: u16) -> JsonView {
    jo(
        seq![
            ("tag"@, js("http-in"@)),
            ("port"@, JsonView::Num((socks_port + 1) as u64)),
            ("listen"@, js("127.0.0.1"@)),
            ("protocol"@, js("http"@)),
            ("sniffing"@, sniffing_spec()),
        ],
    )
}

pub open spec fn inbounds_spec(socks_port: u16) -> Seq<JsonView> {
    seq![socks_inbound_spec(socks_port), http_inbound_spec(socks_port)]
}

/// `sendThrough` added to an outbound in TUN mode.
pub open spec fn with_send_through(
    members: Seq<(Seq<char>, JsonView)>,
    send_through: Option<Seq<char>>,
) -> JsonView {
    match send_through {
        Some(ip) => jo(members.push(("sendThrough"@, js(ip)))),
        None => jo(members),
    }
}

/// The VLESS user of the server.
pub open spec fn user_spec(s: ServerView) -> JsonView {
    jo(seq![("id"@, js(s.uuid)), ("flow"@, js(s.flow)), ("encryption"@, js("none"@))])
}

/// The server entry of the VLESS settings.
pub open spec fn vnext_spec(s: ServerView) -> JsonView {
    jo(
        seq![
            ("address"@, js(s.address)),
            ("port"@, JsonView::Num(s.port as u64)),
            ("users"@, ja(seq![user_spec(s)])),
        ],
    )
}

/// The REALITY parameters.
pub open spec fn reality_spec(s: ServerView) -> JsonView {
    jo(
        seq![
            ("show"@, JsonView::Bool(false)),
            ("fingerprint"@, js(s.reality.fingerprint)),
            ("serverName"@, js(s.reality.server_name)),
            ("publicKey"@, js(s.reality.public_key)),
            ("shortId"@, js(s.reality.short_id)),
        ],
    )
}

/// TCP with REALITY security.
pub open spec fn stream_spec(s: ServerView) -> JsonView {
    jo(
        seq![
            ("network"@, js("tcp"@)),
            ("security"@, js("reality"@)),
            ("realitySettings"@, reality_spec(s)),
        ],
    )
}

/// The VLESS + REALITY outbound to the server.
pub open spec fn proxy_members(s: ServerView) -> Seq<(Seq<char>, JsonView)> {
    seq![
        ("tag"@, js("proxy"@)),
        ("protocol"@, js("vless"@)),
        ("settings"@, jo(seq![("vnext"@, ja(seq![vnext_spec(s)]))])),
        ("streamSettings"@, stream_spec(s)),
    ]
}

/// Outbounds: proxy, direct (both with `sendThrough` in TUN mode), block,
/// and in TUN mode with bypass subnets a `direct-vpn` one without it.
pub open spec fn outbounds_spec(
    s: ServerView,
    subnets: Seq<Seq<char>>,
    send_through: Option<Seq<char>>,
) -> Seq<JsonView> {
    seq![
        with_send_through(proxy_members(s), send_through),
        with_send_through(seq![("tag"@, js("direct"@)), ("protocol"@, js("freedom"@))], send_through),
        jo(seq![("tag"@, js("block"@)), ("protocol"@, js("blackhole"@))]),
    ] + if send_through is Some && subnets.len() > 0 {
        seq![jo(seq![("tag"@, js("direct-vpn"@)), ("protocol"@, js("freedom"@))])]
    } else {
        Seq::empty()
    }
}

/// A routing rule.
pub open spec fn rule(tag: Seq<char>, key: Seq<char>, values: Seq<JsonView>) -> JsonView {
    jo(seq![("type"@, js("field"@)), ("outboundTag"@, js(tag)), (key, ja(values))])
}

/// `domain:` and `full:` entries of each bypass domain, trimmed and
/// lower-cased.
pub open spec fn domain_entries(domains: Seq<Seq<char>>) -> Seq<JsonView>
    decreases domains.len(),
{
    if domains.len() == 0 {
        Seq::empty()
    } else {
        let d = unicode_lowercase(trim_chars(domains.last()));
        domain_entries(domains.drop_last()) + seq![js("domain:"@ + d), js("full:"@ + d)]
    }
}

/// The subnets trimmed, empty ones dropped.
pub open spec fn trimmed_subnets(subnets: Seq<Seq<char>>) -> Seq<Seq<char>> {
    subnets.map_values(|s: Seq<char>| trim_chars(s)).filter(|s: Seq<char>| s.len() > 0)
}

/// `x` appended unless already there.
pub open spec fn add_unique(list: Seq<Seq<char>>, x: Seq<char>) -> Seq<Seq<char>> {
    if list.contains(x) {
        list
    } else {
        list.push(x)
    }
}

pub open spec fn add_all_unique(list: Seq<Seq<char>>, xs: Seq<Seq<char>>) -> Seq<Seq<char>>
    decreases xs.len(),
{
    if xs.len() == 0 {
        list
    } else {
        add_unique(add_all_unique(list, xs.drop_last()), xs.last())
    }
}

/// Loopback, private, multicast and IPv6 local ranges, always direct.
pub open spec fn base_direct_ips() -> Seq<Seq<char>> {
    seq![
        "127.0.0.0/8"@,
        "10.0.0.0/8"@,
        "172.16.0.0/12"@,
        "192.168.0.0/16"@,
        "224.0.0.0/4"@,
        "::1/128"@,
        "fc00::/7"@,
        "ff00::/8"@,
    ]
}

/// The server address as a route: as it stands when it holds a `/`,
/// otherwise with `/32`.
pub open spec fn server_cidr(address: Seq<char>) -> Seq<char> {
    if text_has_byte(address, 47) {
        address
    } else {
        address + "/32"@
    }
}

/// The direct IP list: the base ranges, the server's address (when there
/// is one), and in proxy mode the bypass subnets; each once.
pub open spec fn direct_ips_spec(
    s: ServerView,
    subnets: Seq<Seq<char>>,
    send_through: Option<Seq<char>>,
) -> Seq<Seq<char>> {
    let with_server = if s.address.len() > 0 {
        add_unique(base_direct_ips(), server_cidr(s.address))
    } else {
        base_direct_ips()
    };
    if send_through is None {
        add_all_unique(with_server, trimmed_subnets(subnets))
    } else {
        with_server
    }
}

/// Routing rules, in order: bypass domains (when any), `localhost`, in TUN
/// mode the bypass subnets through `direct-vpn` (when any are left after
/// trimming), then the direct IP list.
pub open spec fn rules_spec(
    s: ServerView,
    domains: Seq<Seq<char>>,
    subnets: Seq<Seq<char>>,
    send_through: Option<Seq<char>>,
) -> Seq<JsonView> {
    (if domains.len() > 0 {
        seq![rule("direct"@, "domain"@, domain_entries(domains))]
    } else {
        Seq::empty()
    }) + seq![rule("direct"@, "domain"@, seq![js("localhost"@)])] + (if send_through is Some
        && subnets.len() > 0 && trimmed_subnets(subnets).len() > 0 {
        seq![rule("direct-vpn"@, "ip"@, js_all(trimmed_subnets(subnets)))]
    } else {
        Seq::empty()
    }) + seq![rule("direct"@, "ip"@, js_all(direct_ips_spec(s, subnets, send_through)))]
}

/// The whole client configuration.
pub open spec fn client_config_spec(
    s: ServerView,
    socks_port: u16,
    domains: Seq<Seq<char>>,
    subnets: Seq<Seq<char>>,
    send_through: Option<Seq<char>>,
    vpn_dns: Seq<Seq<char>>,
) -> JsonView {
    jo(
        seq![
            ("log"@, jo(seq![("loglevel"@, js("info"@))])),
            ("dns"@, jo(seq![("servers"@, ja(dns_servers_spec(subnets, send_through, vpn_dns)))])),
            ("stats"@, jo(Seq::empty())),
            (
                "api"@,
                jo(
                    seq![
                        ("tag"@, js("api"@)),
                        ("listen"@, js(STATS_API_ADDR@)),
                        ("services"@, ja(seq![js("StatsService"@)])),
                    ],
                ),
            ),
            (
                "policy"@,
                jo(
                    seq![
                        (
                            "system"@,
                            jo(
                                seq![
                                    ("statsOutboundUplink"@, JsonView::Bool(true)),
                                    ("statsOutboundDownlink"@, JsonView::Bool(true)),
                                ],
                            ),
                        ),
                    ],
                ),
            ),
            ("inbounds"@, ja(inbounds_spec(socks_port))),
            ("outbounds"@, ja(outbounds_spec(s, subnets, send_through))),
            (
                "routing"@,
                jo(
                    seq![
                        ("domainStrategy"@, js("IPIfNonMatch"@)),
                        ("rules"@, ja(rules_spec(s, domains, subnets, send_through))),
                    ],
                ),
            ),
        ],
    )
}

// ---------------------------------------------------------------------------
// Building it
// ---------------------------------------------------------------------------

pub open spec fn opt_str(o: Option<&str>) -> Option<Seq<char>> {
    match o {
        Some(s) => Some(s@),
        None => None,
    }
}

fn private_range_list() -> (r: Vec<String>)
    ensures
        strings_view(r@) == private_ranges(),
{
    let mut v: Vec<String> = Vec::new();
    v.push(string_of("10.0.0.0/8"));
    v.push(string_of("172.16.0.0/12"));
    v.push(string_of("192.168.0.0/16"));
    assert(strings_view(v@) =~= private_ranges());
    v
}

fn dns_servers(bypass_subnets: &Vec<String>, send_through: Option<&str>, vpn_dns_servers: &Vec<String>) -> (r: Vec<Json>)
    ensures
        json_views(r@) == dns_servers_spec(
            strings_view(bypass_subnets@),
            opt_str(send_through),
            strings_view(vpn_dns_servers@),
        ),
{
    if send_through.is_none() {
        let mut v: Vec<Json> = Vec::new();
        add_item(&mut v, Json::str("localhost"));
        add_item(&mut v, Json::str("1.1.1.1"));
        add_item(&mut v, Json::str("8.8.8.8"));
        assert(json_views(v@) =~= seq![js("localhost"@), js("1.1.1.1"@), js("8.8.8.8"@)]);
        return v;
    }
    let expect = if bypass_subnets.len() == 0 {
        private_range_list()
    } else {
        crate::models::clone_strings(bypass_subnets)
    };
    let ghost ex = strings_view(expect@);
    let ghost f = |ip: Seq<char>| jo(seq![("address"@, js(ip)), ("expectIPs"@, ja(js_all(ex)))]);
    let mut v: Vec<Json> = Vec::new();
    let mut i: usize = 0;
    while i < vpn_dns_servers.len()
        invariant
            i <= vpn_dns_servers@.len(),
            ex == strings_view(expect@),
            f == (|ip: Seq<char>| jo(seq![("address"@, js(ip)), ("expectIPs"@, ja(js_all(ex)))])),
            json_views(v@) == strings_view(vpn_dns_servers@).take(i as int).map_values(f),
        decreases vpn_dns_servers@.len() - i,
    {
        let mut m: Vec<(String, Json)> = Vec::new();
        add_member(&mut m, "address", Json::str(vpn_dns_servers[i].as_str()));
        add_member(&mut m, "expectIPs", Json::arr(str_values(&expect)));
        assert(member_views(m@) =~= seq![
            ("address"@, js(vpn_dns_servers@[i as int]@)),
            ("expectIPs"@, ja(js_all(ex))),
        ]);
        let o = Json::obj(m);
        assert(o@ == f(vpn_dns_servers@[i as int]@));
        add_item(&mut v, o);
        assert(strings_view(vpn_dns_servers@).take(i + 1).map_values(f) =~= strings_view(
            vpn_dns_servers@,
        ).take(i as int).map_values(f).push(f(vpn_dns_servers@[i as int]@)));
        i = i + 1;
    }
    assert(strings_view(vpn_dns_servers@).take(vpn_dns_servers@.len() as int) =~= strings_view(
        vpn_dns_servers@,
    ));
    let ghost head = json_views(v@);
    add_item(&mut v, Json::str("1.1.1.1"));
    add_item(&mut v, Json::str("8.8.8.8"));
    assert(json_views(v@) =~= head + seq![js("1.1.1.1"@), js("8.8.8.8"@)]);
    v
}

fn sniffing() -> (r: Json)
    ensures
        r@ == sniffing_spec(),
{
    let mut o: Vec<Json> = Vec::new();
    add_item(&mut o, Json::str("http"));
    add_item(&mut o, Json::str("tls"));
    assert(json_views(o@) =~= seq![js("http"@), js("tls"@)]);
    let mut m: Vec<(String, Json)> = Vec::new();
    add_member(&mut m, "enabled", Json::Bool(true));
    add_member(&mut m, "destOverride", Json::arr(o));
    assert(member_views(m@) =~= seq![
        ("enabled"@, JsonView::Bool(true)),
        ("destOverride"@, ja(seq![js("http"@), js("tls"@)])),
    ]);
    Json::obj(m)
}

fn inbounds(socks_port: u16) -> (r: Vec<Json>)
    requires
        socks_port < 65535,
    ensures
        json_views(r@) == inbounds_spec(socks_port),
{
    let mut settings: Vec<(String, Json)> = Vec::new();
    add_member(&mut settings, "udp", Json::Bool(true));
    assert(member_views(settings@) =~= seq![("udp"@, JsonView::Bool(true))]);
    let mut socks: Vec<(String, Json)> = Vec::new();
    add_member(&mut socks, "tag", Json::str("socks-in"));
    add_member(&mut socks, "port", Json::Num(socks_port as u64));
    add_member(&mut socks, "listen", Json::str("127.0.0.1"));
    add_member(&mut socks, "protocol", Json::str("socks"));
    add_member(&mut socks, "settings", Json::obj(settings));
    add_member(&mut socks, "sniffing", sniffing());
    assert(member_views(socks@) =~= seq![
        ("tag"@, js("socks-in"@)),
        ("port"@, JsonView::Num(socks_port as u64)),
        ("listen"@, js("127.0.0.1"@)),
        ("protocol"@, js("socks"@)),
        ("settings"@, jo(seq![("udp"@, JsonView::Bool(true))])),
        ("sniffing"@, sniffing_spec()),
    ]);
    let mut http: Vec<(String, Json)> = Vec::new();
    add_member(&mut http, "tag", Json::str("http-in"));
    add_member(&mut http, "port", Json::Num((socks_port + 1) as u64));
    add_member(&mut http, "listen", Json::str("127.0.0.1"));
    add_member(&mut http, "protocol", Json::str("http"));
    add_member(&mut http, "sniffing", sniffing());
    assert(member_views(http@) =~= seq![
        ("tag"@, js("http-in"@)),
        ("port"@, JsonView::Num((socks_port + 1) as u64)),
        ("listen"@, js("127.0.0.1"@)),
        ("protocol"@, js("http"@)),
        ("sniffing"@, sniffing_spec()),
    ]);
    let mut v: Vec<Json> = Vec::new();
    add_item(&mut v, Json::obj(socks));
    add_item(&mut v, Json::obj(http));
    assert(json_views(v@) =~= inbounds_spec(socks_port));
    v
}

fn add_send_through(m: &mut Vec<(String, Json)>, send_through: Option<&str>)
    ensures
        jo(member_views(final(m)@)) == with_send_through(member_views(old(m)@), opt_str(send_through)),
{
    if let Some(ip) = send_through {
        add_member(m, "sendThrough", Json::str(ip));
    }
}

fn user_entry(server: &ServerConfig) -> (r: Json)
    ensures
        r@ == user_spec(server@),
{
    let mut user: Vec<(String, Json)> = Vec::new();
    add_member(&mut user, "id", Json::str(server.uuid.as_str()));
    add_member(&mut user, "flow", Json::str(server.flow.as_str()));
    add_member(&mut user, "encryption", Json::str("none"));
    assert(member_views(user@) =~= seq![
        ("id"@, js(server@.uuid)),
        ("flow"@, js(server@.flow)),
        ("encryption"@, js("none"@)),
    ]);
    Json::obj(user)
}

fn vnext_entry(server: &ServerConfig) -> (r: Json)
    ensures
        r@ == vnext_spec(server@),
{
    let mut users: Vec<Json> = Vec::new();
    add_item(&mut users, user_entry(server));
    assert(json_views(users@) =~= seq![user_spec(server@)]);
    let mut m: Vec<(String, Json)> = Vec::new();
    add_member(&mut m, "address", Json::str(server.address.as_str()));
    add_member(&mut m, "port", Json::Num(server.port as u64));
    add_member(&mut m, "users", Json::arr(users));
    assert(member_views(m@) =~= seq![
        ("address"@, js(server@.address)),
        ("port"@, JsonView::Num(server@.port as u64)),
        ("users"@, ja(seq![user_spec(server@)])),
    ]);
    Json::obj(m)
}

fn reality_entry(server: &ServerConfig) -> (r: Json)
    ensures
        r@ == reality_spec(server@),
{
    let mut m: Vec<(String, Json)> = Vec::new();
    add_member(&mut m, "show", Json::Bool(false));
    add_member(&mut m, "fingerprint", Json::str(server.reality.fingerprint.as_str()));
    add_member(&mut m, "serverName", Json::str(server.reality.server_name.as_str()));
    add_member(&mut m, "publicKey", Json::str(server.reality.public_key.as_str()));
    add_member(&mut m, "shortId", Json::str(server.reality.short_id.as_str()));
    assert(member_views(m@) =~= seq![
        ("show"@, JsonView::Bool(false)),
        ("fingerprint"@, js(server@.reality.fingerprint)),
        ("serverName"@, js(server@.reality.server_name)),
        ("publicKey"@, js(server@.reality.public_key)),
        ("shortId"@, js(server@.reality.short_id)),
    ]);
    Json::obj(m)
}

fn stream_entry(server: &ServerConfig) -> (r: Json)
    ensures
        r@ == stream_spec(server@),
{
    let mut m: Vec<(String, Json)> = Vec::new();
    add_member(&mut m, "network", Json::str("tcp"));
    add_member(&mut m, "security", Json::str("reality"));
    add_member(&mut m, "realitySettings", reality_entry(server));
    assert(member_views(m@) =~= seq![
        ("network"@, js("tcp"@)),
        ("security"@, js("reality"@)),
        ("realitySettings"@, reality_spec(server@)),
    ]);
    Json::obj(m)
}

fn proxy_outbound(server: &ServerConfig, send_through: Option<&str>) -> (r: Json)
    ensures
        r@ == with_send_through(proxy_members(server@), opt_str(send_through)),
{
    let mut vnext: Vec<Json> = Vec::new();
    add_item(&mut vnext, vnext_entry(server));
    assert(json_views(vnext@) =~= seq![vnext_spec(server@)]);
    let mut settings: Vec<(String, Json)> = Vec::new();
    add_member(&mut settings, "vnext", Json::arr(vnext));
    assert(member_views(settings@) =~= seq![("vnext"@, ja(seq![vnext_spec(server@)]))]);
    let mut m: Vec<(String, Json)> = Vec::new();
    add_member(&mut m, "tag", Json::str("proxy"));
    add_member(&mut m, "protocol", Json::str("vless"));
    add_member(&mut m, "settings", Json::obj(settings));
    add_member(&mut m, "streamSettings", stream_entry(server));
    assert(member_views(m@) =~= proxy_members(server@));
    add_send_through(&mut m, send_through);
    Json::obj(m)
}

fn tagged(tag: &str, protocol: &str) -> (r: Vec<(String, Json)>)
    ensures
        member_views(r@) == seq![("tag"@, js(tag@)), ("protocol"@, js(protocol@))],
{
    let mut m: Vec<(String, Json)> = Vec::new();
    add_member(&mut m, "tag", Json::str(tag));
    add_member(&mut m, "protocol", Json::str(protocol));
    assert(member_views(m@) =~= seq![("tag"@, js(tag@)), ("protocol"@, js(protocol@))]);
    m
}

fn outbounds(server: &ServerConfig, bypass_subnets: &Vec<String>, send_through: Option<&str>) -> (r: Vec<Json>)
    ensures
        json_views(r@) == outbounds_spec(server@, strings_view(bypass_subnets@), opt_str(send_through)),
{
    let mut v: Vec<Json> = Vec::new();
    add_item(&mut v, proxy_outbound(server, send_through));
    let mut direct = tagged("direct", "freedom");
    add_send_through(&mut direct, send_through);
    add_item(&mut v, Json::obj(direct));
    add_item(&mut v, Json::obj(tagged("block", "blackhole")));
    let ghost three = json_views(v@);
    if send_through.is_some() && bypass_subnets.len() > 0 {
        add_item(&mut v, Json::obj(tagged("direct-vpn", "freedom")));
    }
    assert(json_views(v@) =~= outbounds_spec(server@, strings_view(bypass_subnets@), opt_str(send_through)));
    v
}

/// A copy of a slice of strings.
pub fn strings_to_vec(s: &[String]) -> (r: Vec<String>)
    ensures
        strings_view(r@) == strings_view(s@),
{
    let mut out: Vec<String> = Vec::new();
    let mut i: usize = 0;
    while i < s.len()
        invariant
            i <= s@.len(),
            out@.len() == i,
            forall|j: int| 0 <= j < i ==> #[trigger] out@[j]@ == s@[j]@,
        decreases s@.len() - i,
    {
        out.push(s[i].clone());
        i = i + 1;
    }
    assert(strings_view(out@) =~= strings_view(s@));
    out
}

fn domain_rule_entries(domains: &Vec<String>) -> (r: Vec<Json>)
    ensures
        json_views(r@) == domain_entries(strings_view(domains@)),
{
    let ghost ds = strings_view(domains@);
    let mut out: Vec<Json> = Vec::new();
    let mut i: usize = 0;
    while i < domains.len()
        invariant
            i <= domains@.len(),
            ds == strings_view(domains@),
            json_views(out@) == domain_entries(ds.take(i as int)),
        decreases domains@.len() - i,
    {
        let t = str_trim(domains[i].as_str());
        let l = str_to_lowercase(t);
        let ghost before = json_views(out@);
        add_item(&mut out, Json::Str(string_of("domain:").concat(l.as_str())));
        add_item(&mut out, Json::Str(string_of("full:").concat(l.as_str())));
        proof {
            assert(ds.take(i + 1).drop_last() =~= ds.take(i as int));
            assert(ds.take(i + 1).last() == domains@[i as int]@);
            assert(json_views(out@) =~= before + seq![
                js("domain:"@ + unicode_lowercase(trim_chars(domains@[i as int]@))),
                js("full:"@ + unicode_lowercase(trim_chars(domains@[i as int]@))),
            ]);
        }
        i = i + 1;
    }
    assert(ds.take(domains@.len() as int) =~= ds);
    out
}

fn trimmed_nonempty(subnets: &Vec<String>) -> (r: Vec<String>)
    ensures
        strings_view(r@) == trimmed_subnets(strings_view(subnets@)),
{
    let ghost ss = strings_view(subnets@);
    let ghost f = |s: Seq<char>| trim_chars(s);
    let ghost p = |s: Seq<char>| s.len() > 0;
    let mut out: Vec<String> = Vec::new();
    let mut i: usize = 0;
    while i < subnets.len()
        invariant
            i <= subnets@.len(),
            ss == strings_view(subnets@),
            f == (|s: Seq<char>| trim_chars(s)),
            p == (|s: Seq<char>| s.len() > 0),
            strings_view(out@) == ss.take(i as int).map_values(f).filter(p),
        decreases subnets@.len() - i,
    {
        let t = str_trim(subnets[i].as_str());
        proof {
            reveal(Seq::filter);
            let m = ss.take(i + 1).map_values(f);
            assert(m.drop_last() =~= ss.take(i as int).map_values(f));
            assert(m.last() == t@);
        }
        if t.unicode_len() > 0 {
            let ghost before = strings_view(out@);
            out.push(string_of(t));
            assert(strings_view(out@) =~= before.push(t@));
        }
        i = i + 1;
    }
    assert(ss.take(subnets@.len() as int) =~= ss);
    out
}

fn push_unique(list: &mut Vec<String>, x: String)
    ensures
        strings_view(final(list)@) == add_unique(strings_view(old(list)@), x@),
{
    if !contains_str(list, x.as_str()) {
        let ghost before = strings_view(list@);
        let ghost xv = x@;
        list.push(x);
        assert(strings_view(list@) =~= before.push(xv));
    }
}

fn base_direct_list() -> (r: Vec<String>)
    ensures
        strings_view(r@) == base_direct_ips(),
{
    let mut v: Vec<String> = Vec::new();
    v.push(string_of("127.0.0.0/8"));
    v.push(string_of("10.0.0.0/8"));
    v.push(string_of("172.16.0.0/12"));
    v.push(string_of("192.168.0.0/16"));
    v.push(string_of("224.0.0.0/4"));
    v.push(string_of("::1/128"));
    v.push(string_of("fc00::/7"));
    v.push(string_of("ff00::/8"));
    assert(strings_view(v@) =~= base_direct_ips());
    v
}

fn direct_ip_list(server: &ServerConfig, bypass_subnets: &Vec<String>, send_through: Option<&str>) -> (r: Vec<String>)
    ensures
        strings_view(r@) == direct_ips_spec(server@, strings_view(bypass_subnets@), opt_str(send_through)),
{
    let mut list = base_direct_list();
    if server.address.as_str().unicode_len() > 0 {
        let cidr = if has_byte(server.address.as_str(), 47) {
            server.address.clone()
        } else {
            string_of(server.address.as_str()).concat("/32")
        };
        push_unique(&mut list, cidr);
    }
    let ghost with_server = strings_view(list@);
    if send_through.is_none() {
        let t = trimmed_nonempty(bypass_subnets);
        let ghost tv = strings_view(t@);
        let mut i: usize = 0;
        while i < t.len()
            invariant
                i <= t@.len(),
                tv == strings_view(t@),
                strings_view(list@) == add_all_unique(with_server, tv.take(i as int)),
            decreases t@.len() - i,
        {
            push_unique(&mut list, t[i].clone());
            assert(tv.take(i + 1).drop_last() =~= tv.take(i as int));
            i = i + 1;
        }
        assert(tv.take(t@.len() as int) =~= tv);
    }
    list
}

fn make_rule(tag: &str, key: &str, values: Vec<Json>) -> (r: Json)
    ensures
        r@ == rule(tag@, key@, json_views(values@)),
{
    let ghost vals = json_views(values@);
    let mut m: Vec<(String, Json)> = Vec::new();
    add_member(&mut m, "type", Json::str("field"));
    add_member(&mut m, "outboundTag", Json::str(tag));
    add_member(&mut m, key, Json::arr(values));
    assert(member_views(m@) =~= seq![("type"@, js("field"@)), ("outboundTag"@, js(tag@)), (key@, ja(vals))]);
    Json::obj(m)
}

fn rules(
    server: &ServerConfig,
    bypass_domains: &Vec<String>,
    bypass_subnets: &Vec<String>,
    send_through: Option<&str>,
) -> (r: Vec<Json>)
    ensures
        json_views(r@) == rules_spec(
            server@,
            strings_view(bypass_domains@),
            strings_view(bypass_subnets@),
            opt_str(send_through),
        ),
{
    let mut v: Vec<Json> = Vec::new();
    if bypass_domains.len() > 0 {
        add_item(&mut v, make_rule("direct", "domain", domain_rule_entries(bypass_domains)));
    }
    let ghost part1 = json_views(v@);
    let mut local: Vec<Json> = Vec::new();
    add_item(&mut local, Json::str("localhost"));
    assert(json_views(local@) =~= seq![js("localhost"@)]);
    add_item(&mut v, make_rule("direct", "domain", local));
    let ghost part2 = json_views(v@);
    if send_through.is_some() && bypass_subnets.len() > 0 {
        let vpn_ips = trimmed_nonempty(bypass_subnets);
        if vpn_ips.len() > 0 {
            add_item(&mut v, make_rule("direct-vpn", "ip", str_values(&vpn_ips)));
        }
    }
    let ghost part3 = json_views(v@);
    let direct = direct_ip_list(server, bypass_subnets, send_through);
    add_item(&mut v, make_rule("direct", "ip", str_values(&direct)));
    assert(json_views(v@) =~= rules_spec(
        server@,
        strings_view(bypass_domains@),
        strings_view(bypass_subnets@),
        opt_str(send_through),
    ));
    v
}

/// The configuration file's text: [`generate_client_config`] as serde_json
/// prints it, indented.
pub fn client_config_text(
    server: &ServerConfig,
    socks_port: u16,
    bypass_domains: &[String],
    bypass_subnets: &[String],
    send_through: Option<&str>,
    vpn_dns_servers: &[String],
) -> (r: String)
    requires
        socks_port < 65535,
    ensures
        r@ == json_pretty_text(
            client_config_spec(
                server@,
                socks_port,
                strings_view(bypass_domains@),
                strings_view(bypass_subnets@),
                opt_str(send_through),
                strings_view(vpn_dns_servers@),
            ),
        ),
{
    let j = generate_client_config(
        server,
        socks_port,
        bypass_domains,
        bypass_subnets,
        send_through,
        vpn_dns_servers,
    );
    json_to_pretty_text(&j)
}

/// The xray client configuration for `server`: SOCKS on `socks_port` and
/// HTTP on the next port, the VLESS + REALITY outbound, DNS and routing as
/// [`client_config_spec`] describes. `send_through` is the physical
/// interface's address in TUN mode, `None` in proxy mode.
pub fn generate_client_config(
    server: &ServerConfig,
    socks_port: u16,
    bypass_domains: &[String],
    bypass_subnets: &[String],
    send_through: Option<&str>,
    vpn_dns_servers: &[String],
) -> (r: Json)
    requires
        socks_port < 65535,
    ensures
        r@ == client_config_spec(
            server@,
            socks_port,
            strings_view(bypass_domains@),
            strings_view(bypass_subnets@),
            opt_str(send_through),
            strings_view(vpn_dns_servers@),
        ),
{
    let domains = strings_to_vec(bypass_domains);
    let subnets = strings_to_vec(bypass_subnets);
    let dns = strings_to_vec(vpn_dns_servers);
    let ghost sv = server@;
    let ghost dv = strings_view(bypass_domains@);
    let ghost nv = strings_view(bypass_subnets@);
    let ghost st = opt_str(send_through);
    let ghost pv = strings_view(vpn_dns_servers@);

    let mut log: Vec<(String, Json)> = Vec::new();
    add_member(&mut log, "loglevel", Json::str("info"));
    assert(member_views(log@) =~= seq![("loglevel"@, js("info"@))]);

    let mut dns_obj: Vec<(String, Json)> = Vec::new();
    let servers = dns_servers(&subnets, send_through, &dns);
    add_member(&mut dns_obj, "servers", Json::arr(servers));
    assert(member_views(dns_obj@) =~= seq![("servers"@, ja(dns_servers_spec(nv, st, pv)))]);

    let mut services: Vec<Json> = Vec::new();
    add_item(&mut services, Json::str("StatsService"));
    assert(json_views(services@) =~= seq![js("StatsService"@)]);
    let mut api: Vec<(String, Json)> = Vec::new();
    add_member(&mut api, "tag", Json::str("api"));
    add_member(&mut api, "listen", Json::str(STATS_API_ADDR));
    add_member(&mut api, "services", Json::arr(services));
    assert(member_views(api@) =~= seq![
        ("tag"@, js("api"@)),
        ("listen"@, js(STATS_API_ADDR@)),
        ("services"@, ja(seq![js("StatsService"@)])),
    ]);

    let mut system: Vec<(String, Json)> = Vec::new();
    add_member(&mut system, "statsOutboundUplink", Json::Bool(true));
    add_member(&mut system, "statsOutboundDownlink", Json::Bool(true));
    assert(member_views(system@) =~= seq![
        ("statsOutboundUplink"@, JsonView::Bool(true)),
        ("statsOutboundDownlink"@, JsonView::Bool(true)),
    ]);
    let ghost system_v = jo(member_views(system@));
    let mut policy: Vec<(String, Json)> = Vec::new();
    add_member(&mut policy, "system", Json::obj(system));
    assert(member_views(policy@) =~= seq![("system"@, system_v)]);

    let mut routing: Vec<(String, Json)> = Vec::new();
    add_member(&mut routing, "domainStrategy", Json::str("IPIfNonMatch"));
    add_member(&mut routing, "rules", Json::arr(rules(server, &domains, &subnets, send_through)));
    assert(member_views(routing@) =~= seq![
        ("domainStrategy"@, js("IPIfNonMatch"@)),
        ("rules"@, ja(rules_spec(sv, dv, nv, st))),
    ]);

    let stats: Vec<(String, Json)> = Vec::new();
    assert(member_views(stats@) =~= Seq::<(Seq<char>, JsonView)>::empty());

    let mut config: Vec<(String, Json)> = Vec::new();
    add_member(&mut config, "log", Json::obj(log));
    add_member(&mut config, "dns", Json::obj(dns_obj));
    add_member(&mut config, "stats", Json::obj(stats));
    add_member(&mut config, "api", Json::obj(api));
    add_member(&mut config, "policy", Json::obj(policy));
    add_member(&mut config, "inbounds", Json::arr(inbounds(socks_port)));
    add_member(&mut config, "outbounds", Json::arr(outbounds(server, &subnets, send_through)));
    add_member(&mut config, "routing", Json::obj(routing));
    assert(member_views(config@) =~= match client_config_spec(sv, socks_port, dv, nv, st, pv) {
        JsonView::Obj(m) => m,
        _ => Seq::empty(),
    });
    Json::obj(config)
}


// ---------------------------------------------------------------------------
// Laws of the configuration
// ---------------------------------------------------------------------------

/// The `dns.servers` list of a configuration value.
pub open spec fn config_dns_servers(cfg: JsonView) -> Option<Seq<JsonView>> {
    match json_get(cfg, "dns"@) {
        Some(d) => match json_get(d, "servers"@) {
            Some(list) => json_as_array(list),
            None => None,
        },
        None => None,
    }
}

/// In TUN mode every corporate DNS server is asked, in the order given:
/// the configuration's DNS list holds one entry per server, whose
/// `address` is that server and whose `expectIPs` are the bypass subnets
/// (the private ranges when there are none), and then the public
/// resolvers `1.1.1.1` and `8.8.8.8`.
pub proof fn lemma_tun_dns_servers(
    s: ServerView,
    socks_port: u16,
    domains: Seq<Seq<char>>,
    subnets: Seq<Seq<char>>,
    send_through: Seq<char>,
    vpn_dns: Seq<Seq<char>>,
)
    ensures
        ({
            let cfg = client_config_spec(s, socks_port, domains, subnets, Some(send_through), vpn_dns);
            let expect = if subnets.len() == 0 {
                seq!["10.0.0.0/8"@, "172.16.0.0/12"@, "192.168.0.0/16"@]
            } else {
                subnets
            };
            &&& config_dns_servers(cfg) is Some
            &&& config_dns_servers(cfg)->0.len() == vpn_dns.len() + 2
            &&& forall|k: int|
                0 <= k < vpn_dns.len() ==> {
                    let e = #[trigger] config_dns_servers(cfg)->0[k];
                    &&& json_get(e, "address"@) == Some(JsonView::Str(vpn_dns[k]))
                    &&& json_get(e, "expectIPs"@) == Some(
                        JsonView::Arr(expect.map_values(|x: Seq<char>| JsonView::Str(x))),
                    )
                }
            &&& config_dns_servers(cfg)->0[vpn_dns.len() as int] == JsonView::Str("1.1.1.1"@)
            &&& config_dns_servers(cfg)->0[vpn_dns.len() + 1int] == JsonView::Str("8.8.8.8"@)
        }),
{
    reveal_strlit("log");
    reveal_strlit("dns");
    reveal_strlit("servers");
    reveal_strlit("address");
    reveal_strlit("expectIPs");
    let cfg = client_config_spec(s, socks_port, domains, subnets, Some(send_through), vpn_dns);
    let top = match cfg {
        JsonView::Obj(ms) => ms,
        _ => Seq::empty(),
    };
    assert(top[0].0 == "log"@);
    assert(top[0].0[0] != "dns"@[0]);
    assert(top[0].0 != "dns"@);
    assert(top.skip(1)[0].0 == "dns"@);
    assert(member_value(top.skip(1), "dns"@) == Some(top[1].1));
    assert(member_value(top, "dns"@) == member_value(top.skip(1), "dns"@));
    assert(json_get(cfg, "dns"@) == Some(top[1].1));
    let d = top[1].1;
    let dms = match d {
        JsonView::Obj(ms) => ms,
        _ => Seq::empty(),
    };
    assert(json_get(d, "servers"@) == Some(dms[0].1));
    let list = dns_servers_spec(subnets, Some(send_through), vpn_dns);
    assert(config_dns_servers(cfg) == Some(list));
    let expect = if subnets.len() == 0 {
        private_ranges()
    } else {
        subnets
    };
    assert(js_all(expect) =~= expect.map_values(|x: Seq<char>| JsonView::Str(x)));
    assert forall|k: int| 0 <= k < vpn_dns.len() implies {
        let e = #[trigger] config_dns_servers(cfg)->0[k];
        &&& json_get(e, "address"@) == Some(JsonView::Str(vpn_dns[k]))
        &&& json_get(e, "expectIPs"@) == Some(
            JsonView::Arr(expect.map_values(|x: Seq<char>| JsonView::Str(x))),
        )
    } by {
        let e = list[k];
        let ems = seq![("address"@, js(vpn_dns[k])), ("expectIPs"@, ja(js_all(expect)))];
        assert(e == jo(ems));
        assert(ems.skip(1)[0] == ems[1]);
        assert("address"@.len() != "expectIPs"@.len());
        assert(member_value(ems, "address"@) == Some(js(vpn_dns[k])));
        assert(member_value(ems.skip(1), "expectIPs"@) == Some(ja(js_all(expect))));
        assert(member_value(ems, "expectIPs"@) == member_value(ems.skip(1), "expectIPs"@));
    }
}


/// Each bypass domain `d` gives, in order, a `domain:` entry and a `full:`
/// entry for `d` trimmed and lower-cased.
pub proof fn lemma_domain_entries(domains: Seq<Seq<char>>)
    ensures
        domain_entries(domains).len() == 2 * domains.len(),
        forall|k: int|
            0 <= k < domains.len() ==> domain_entries(domains)[2 * k] == JsonView::Str(
                "domain:"@ + unicode_lowercase(trim_chars(#[trigger] domains[k])),
            ) && domain_entries(domains)[2 * k + 1] == JsonView::Str(
                "full:"@ + unicode_lowercase(trim_chars(domains[k])),
            ),
    decreases domains.len(),
{
    if domains.len() > 0 {
        let init = domains.drop_last();
        lemma_domain_entries(init);
        assert forall|k: int|
            0 <= k < domains.len() implies domain_entries(domains)[2 * k] == JsonView::Str(
            "domain:"@ + unicode_lowercase(trim_chars(#[trigger] domains[k])),
        ) && domain_entries(domains)[2 * k + 1] == JsonView::Str(
            "full:"@ + unicode_lowercase(trim_chars(domains[k])),
        ) by {
            if k < init.len() {
                assert(init[k] == domains[k]);
            }
        }
    }
}

proof fn lemma_add_all_unique(list: Seq<Seq<char>>, xs: Seq<Seq<char>>)
    ensures
        forall|x: Seq<char>|
            #[trigger] add_all_unique(list, xs).contains(x) <==> (list.contains(x) || xs.contains(x)),
        list.no_duplicates() ==> add_all_unique(list, xs).no_duplicates(),
    decreases xs.len(),
{
    if xs.len() > 0 {
        let init = xs.drop_last();
        lemma_add_all_unique(list, init);
        let mid = add_all_unique(list, init);
        assert forall|x: Seq<char>| #[trigger] xs.contains(x) <==> (init.contains(x) || x == xs.last()) by {
            if xs.contains(x) {
                let i = choose|i: int| 0 <= i < xs.len() && xs[i] == x;
                if i < init.len() {
                    assert(init[i] == x);
                }
            }
            if init.contains(x) {
                let i = choose|i: int| 0 <= i < init.len() && init[i] == x;
                assert(xs[i] == x);
            }
            if x == xs.last() {
                assert(xs[xs.len() - 1] == x);
            }
        }
        if !mid.contains(xs.last()) {
            assert forall|x: Seq<char>| #[trigger] mid.push(xs.last()).contains(x) <==> (mid.contains(x)
                || x == xs.last()) by {
                if mid.push(xs.last()).contains(x) {
                    let i = choose|i: int| 0 <= i < mid.len() + 1 && mid.push(xs.last())[i] == x;
                    if i < mid.len() {
                        assert(mid[i] == x);
                    }
                }
                if mid.contains(x) {
                    let i = choose|i: int| 0 <= i < mid.len() && mid[i] == x;
                    assert(mid.push(xs.last())[i] == x);
                }
                if x == xs.last() {
                    assert(mid.push(xs.last())[mid.len() as int] == x);
                }
            }
        }
    }
}

/// The direct IP list holds the loopback, private, multicast and IPv6
/// local ranges, the server's own route (its address, with `/32` unless it
/// has a prefix) when it has an address, and in proxy mode every non-blank
/// bypass subnet (trimmed); in proxy mode nothing else, and nothing twice.
pub proof fn lemma_direct_ips(s: ServerView, subnets: Seq<Seq<char>>, send_through: Option<Seq<char>>)
    ensures
        ({
            let list = direct_ips_spec(s, subnets, send_through);
            let route = if text_has_byte(s.address, 47) {
                s.address
            } else {
                s.address + "/32"@
            };
            &&& list.no_duplicates()
            &&& forall|k: int| 0 <= k < base_direct_ips().len() ==> list.contains(#[trigger] base_direct_ips()[k])
            &&& s.address.len() > 0 ==> list.contains(route)
            &&& send_through is None ==> forall|n: Seq<char>|
                #[trigger] list.contains(n) <==> (base_direct_ips().contains(n) || (s.address.len() > 0
                    && n == route) || trimmed_subnets(subnets).contains(n))
        }),
{
    let base = base_direct_ips();
    reveal_strlit("127.0.0.0/8");
    reveal_strlit("10.0.0.0/8");
    reveal_strlit("172.16.0.0/12");
    reveal_strlit("192.168.0.0/16");
    reveal_strlit("224.0.0.0/4");
    reveal_strlit("::1/128");
    reveal_strlit("fc00::/7");
    reveal_strlit("ff00::/8");
    assert(base.no_duplicates()) by {
        assert forall|i: int, j: int| 0 <= i < base.len() && 0 <= j < base.len() && i != j implies base[i]
            != base[j] by {
            assert(base[i].len() != base[j].len() || base[i][0] != base[j][0] || base[i][1] != base[j][1]);
        }
    }
    let route = server_cidr(s.address);
    let with_server = if s.address.len() > 0 {
        add_unique(base, route)
    } else {
        base
    };
    assert forall|x: Seq<char>| #[trigger] with_server.contains(x) <==> (base.contains(x) || (
        s.address.len() > 0 && x == route)) by {
        if s.address.len() > 0 && !base.contains(route) {
            if with_server.contains(x) {
                let i = choose|i: int| 0 <= i < with_server.len() && with_server[i] == x;
                if i < base.len() {
                    assert(base[i] == x);
                }
            }
            if base.contains(x) {
                let i = choose|i: int| 0 <= i < base.len() && base[i] == x;
                assert(with_server[i] == x);
            }
            if x == route {
                assert(with_server[base.len() as int] == x);
            }
        }
    }
    assert(with_server.no_duplicates());
    assert forall|k: int| 0 <= k < base.len() implies with_server.contains(#[trigger] base[k]) by {
        assert(base.contains(base[k]));
    }
    lemma_add_all_unique(with_server, trimmed_subnets(subnets));
    let list = direct_ips_spec(s, subnets, send_through);
    assert forall|k: int| 0 <= k < base.len() implies list.contains(#[trigger] base[k]) by {
        assert(with_server.contains(base[k]));
    }
}

} // verus!
