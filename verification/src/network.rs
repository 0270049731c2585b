//! Corporate-VPN detection from the routing table and resolver
//! configuration: which interfaces are VPN tunnels, which destinations and
//! DNS servers must bypass the proxy, and IPv4 CIDR arithmetic.
use vstd::arithmetic::power2::{lemma2_to64, pow2};
use vstd::prelude::*;
use vstd::utf8::*;

use crate::models::{opt_chars, strings_view, DetectedVpn, DetectedVpnView};
use crate::text::{
    digits_value, range_eq, lemma_text_lt_total, lemma_text_lt_trans, str_less, text_lt, copy_range, ends_with, find_byte, find_first, str_trim, string_from_utf8_lossy, trim_chars,
    utf8_lossy, has_byte, lemma_find_first_char, parse_unsigned, parse_unsigned_range,
    starts_with, str_eq, string_of, text_ends_with, text_has_byte, text_starts_with,
};
use crate::json::{
    as_array, as_str, get, json_as_array, json_as_str, json_from_slice, json_get, json_text_value,
    json_views, Json, JsonView,
};
use crate::uri::{lemma_split_on_step, split_on};

verus! {

// ---------------------------------------------------------------------------
// Interface names
// ---------------------------------------------------------------------------

/// Names of VPN tunnel interfaces: `tun`, `tap`, `wg`, `ppp`, `nordlynx`,
/// `tailscale` followed by anything.
pub open spec fn is_vpn_name(n: Seq<char>) -> bool {
    ||| text_starts_with(n, "tun"@)
    ||| text_starts_with(n, "tap"@)
    ||| text_starts_with(n, "wg"@)
    ||| text_starts_with(n, "ppp"@)
    ||| text_starts_with(n, "nordlynx"@)
    ||| text_starts_with(n, "tailscale"@)
}

/// Names of container and bridge interfaces: `docker`, `br-`, `veth`,
/// `virbr`, `lxc`, `podman` followed by anything.
pub open spec fn is_virtual_name(n: Seq<char>) -> bool {
    ||| text_starts_with(n, "docker"@)
    ||| text_starts_with(n, "br-"@)
    ||| text_starts_with(n, "veth"@)
    ||| text_starts_with(n, "virbr"@)
    ||| text_starts_with(n, "lxc"@)
    ||| text_starts_with(n, "podman"@)
}

/// Whether an interface name looks like a VPN interface.
pub fn is_vpn_interface(name: &str) -> (r: bool)
    ensures
        r == is_vpn_name(name@),
{
    starts_with(name, "tun") || starts_with(name, "tap") || starts_with(name, "wg") || starts_with(
        name,
        "ppp",
    ) || starts_with(name, "nordlynx") || starts_with(name, "tailscale")
}

/// Whether an interface name looks like a virtual or container interface
/// (Docker, libvirt, ...), which gateway detection skips.
pub fn is_virtual_interface(name: &str) -> (r: bool)
    ensures
        r == is_virtual_name(name@),
{
    starts_with(name, "docker") || starts_with(name, "br-") || starts_with(name, "veth")
        || starts_with(name, "virbr") || starts_with(name, "lxc") || starts_with(name, "podman")
}

/// Link-local addresses: `169.254.` followed by anything.
pub open spec fn is_link_local_spec(ip: Seq<char>) -> bool {
    text_starts_with(ip, "169.254."@)
}

pub fn is_link_local(ip: &str) -> (r: bool)
    ensures
        r == is_link_local_spec(ip@),
{
    starts_with(ip, "169.254.")
}

/// The kind of VPN an interface name suggests.
pub open spec fn vpn_type_name(n: Seq<char>) -> Seq<char> {
    if text_starts_with(n, "tun"@) {
        "OpenVPN"@
    } else if text_starts_with(n, "tap"@) {
        "OpenVPN (TAP)"@
    } else if text_starts_with(n, "wg"@) {
        "WireGuard"@
    } else if text_starts_with(n, "ppp"@) {
        "PPP/L2TP"@
    } else if text_starts_with(n, "nordlynx"@) {
        "NordVPN"@
    } else if text_starts_with(n, "tailscale"@) {
        "Tailscale"@
    } else {
        "Unknown VPN"@
    }
}

pub fn classify_vpn_type(iface: &str) -> (r: String)
    ensures
        r@ == vpn_type_name(iface@),
{
    if starts_with(iface, "tun") {
        string_of("OpenVPN")
    } else if starts_with(iface, "tap") {
        string_of("OpenVPN (TAP)")
    } else if starts_with(iface, "wg") {
        string_of("WireGuard")
    } else if starts_with(iface, "ppp") {
        string_of("PPP/L2TP")
    } else if starts_with(iface, "nordlynx") {
        string_of("NordVPN")
    } else if starts_with(iface, "tailscale") {
        string_of("Tailscale")
    } else {
        string_of("Unknown VPN")
    }
}

// ---------------------------------------------------------------------------
// Route destinations
// ---------------------------------------------------------------------------

/// Catch-all destinations: `default`, `0.0.0.0/0`, `0.0.0.0/1`,
/// `128.0.0.0/1`.
pub open spec fn is_default_route_spec(dst: Seq<char>) -> bool {
    dst == "default"@ || dst == "0.0.0.0/0"@ || dst == "0.0.0.0/1"@ || dst == "128.0.0.0/1"@
}

pub fn is_default_route(dst: &str) -> (r: bool)
    ensures
        r == is_default_route_spec(dst@),
{
    str_eq(dst, "default") || str_eq(dst, "0.0.0.0/0") || str_eq(dst, "0.0.0.0/1") || str_eq(
        dst,
        "128.0.0.0/1",
    )
}

/// `str::parse::<u8>` of one dotted part.
pub open spec fn octet_of(p: Seq<u8>) -> Option<u8> {
    match parse_unsigned(p, 255) {
        Some(n) => Some(n as u8),
        None => None,
    }
}

/// Host routes: `/32` at the end, or no `/` but a `.` and exactly four
/// dot-separated parts that each parse as a `u8`.
pub open spec fn is_host_route_spec(dst: Seq<char>) -> bool {
    if text_ends_with(dst, "/32"@) {
        true
    } else if !text_has_byte(dst, 47) && text_has_byte(dst, 46) {
        let parts = split_on(encode_utf8(dst), 46);
        parts.len() == 4 && forall|i: int| 0 <= i < 4 ==> (#[trigger] octet_of(parts[i])) is Some
    } else {
        false
    }
}

pub fn is_host_route(dst: &str) -> (r: bool)
    ensures
        r == is_host_route_spec(dst@),
{
    if ends_with(dst, "/32") {
        return true;
    }
    if !has_byte(dst, 47) && has_byte(dst, 46) {
        let b = dst.as_bytes();
        assert(b@.subrange(0, b@.len() as int) =~= b@);
        four_octet_parts(b, 0, b.len())
    } else {
        false
    }
}

/// True when `b[lo..hi]` splits at `.` into exactly four parts that each
/// parse as a `u8`.
pub(crate) fn four_octet_parts(b: &[u8], lo: usize, hi: usize) -> (r: bool)
    requires
        lo <= hi <= b@.len(),
    ensures
        r == ({
            let parts = split_on(b@.subrange(lo as int, hi as int), 46);
            parts.len() == 4 && forall|i: int| 0 <= i < 4 ==> (#[trigger] octet_of(parts[i])) is Some
        }),
{
    let ghost whole = b@.subrange(lo as int, hi as int);
    let ghost mut done: Seq<Seq<u8>> = Seq::empty();
    let mut count: usize = 0;
    let mut all_ok = true;
    let mut start = lo;
    assert(split_on(whole, 46) =~= done + split_on(b@.subrange(start as int, hi as int), 46));
    loop
        invariant
            lo <= start <= hi <= b@.len(),
            whole == b@.subrange(lo as int, hi as int),
            split_on(whole, 46) == done + split_on(b@.subrange(start as int, hi as int), 46),
            count == done.len(),
            count <= 4,
            all_ok == forall|i: int| 0 <= i < done.len() ==> (#[trigger] octet_of(done[i])) is Some,
        decreases hi - start,
    {
        let ghost cur = b@.subrange(start as int, hi as int);
        proof {
            lemma_split_on_step(cur, 46);
        }
        let (end, last) = match find_byte(b, start, hi, 46) {
            Some(k) => (k, false),
            None => (hi, true),
        };
        let ghost piece = b@.subrange(start as int, end as int);
        let ok = parse_unsigned_range(b, start, end, 255).is_some();
        let ghost old_done = done;
        proof {
            done = done.push(piece);
            assert forall|i: int| 0 <= i < old_done.len() implies done[i] == old_done[i] by {}
            if last {
                assert(cur =~= piece);
                assert(split_on(whole, 46) =~= done);
            } else {
                assert(cur.take(end - start) =~= piece);
                assert(cur.skip(end - start + 1) =~= b@.subrange(end + 1, hi as int));
                assert(split_on(whole, 46) =~= done + split_on(b@.subrange(end + 1, hi as int), 46));
            }
            if all_ok && ok {
                assert forall|i: int| 0 <= i < done.len() implies (#[trigger] octet_of(
                    done[i],
                )) is Some by {
                    if i < old_done.len() {
                        assert(old_done[i] == done[i]);
                    }
                }
            } else if !ok {
                assert(octet_of(done[old_done.len() as int]) is None);
            } else {
                let j = choose|j: int| 0 <= j < old_done.len() && (octet_of(old_done[j]) is None);
                assert(done[j] == old_done[j]);
            }
        }
        if last {
            return count + 1 == 4 && all_ok && ok;
        }
        if count == 4 {
            proof {
                crate::uri::lemma_split_on_len(b@.subrange(end + 1, hi as int), 46);
            }
            return false;
        }
        all_ok = all_ok && ok;
        count = count + 1;
        start = end + 1;
    }
}

// ---------------------------------------------------------------------------
// IPv4 addresses and CIDR blocks
// ---------------------------------------------------------------------------

/// The dot-separated parts of `b` that parse as a `u8`, in order (parts
/// that do not parse are dropped, as `filter_map` does).
pub open spec fn dotted_octets(b: Seq<u8>) -> Seq<u8> {
    split_on(b, 46).filter_map(|p: Seq<u8>| octet_of(p))
}

/// `dotted_octets` of `b[lo..hi]`.
fn dotted_octets_range(b: &[u8], lo: usize, hi: usize) -> (r: Vec<u8>)
    requires
        lo <= hi <= b@.len(),
    ensures
        r@ == dotted_octets(b@.subrange(lo as int, hi as int)),
{
    let ghost whole = b@.subrange(lo as int, hi as int);
    let ghost f = |p: Seq<u8>| octet_of(p);
    let ghost mut done: Seq<Seq<u8>> = Seq::empty();
    let mut out: Vec<u8> = Vec::new();
    let mut start = lo;
    assert(split_on(whole, 46) =~= done + split_on(b@.subrange(start as int, hi as int), 46));
    loop
        invariant
            lo <= start <= hi <= b@.len(),
            whole == b@.subrange(lo as int, hi as int),
            split_on(whole, 46) == done + split_on(b@.subrange(start as int, hi as int), 46),
            out@ == done.filter_map(f),
            f == (|p: Seq<u8>| octet_of(p)),
        decreases hi - start,
    {
        let ghost cur = b@.subrange(start as int, hi as int);
        proof {
            lemma_split_on_step(cur, 46);
        }
        let (end, last) = match find_byte(b, start, hi, 46) {
            Some(k) => (k, false),
            None => (hi, true),
        };
        let ghost piece = b@.subrange(start as int, end as int);
        let parsed = parse_unsigned_range(b, start, end, 255);
        proof {
            let old_done = done;
            done = done.push(piece);
            assert(done.drop_last() =~= old_done);
            if last {
                assert(cur =~= piece);
                assert(split_on(whole, 46) =~= done);
            } else {
                assert(cur.take(end - start) =~= piece);
                assert(cur.skip(end - start + 1) =~= b@.subrange(end + 1, hi as int));
                assert(split_on(whole, 46) =~= done + split_on(b@.subrange(end + 1, hi as int), 46));
            }
        }
        match parsed {
            Some(v) => {
                out.push(v as u8);
            },
            None => {},
        }
        if last {
            return out;
        }
        start = end + 1;
    }
}

/// Private (RFC 1918) addresses: exactly four dot-separated decimal octets,
/// in 10.0.0.0/8, 172.16.0.0/12 or 192.168.0.0/16.
pub open spec fn is_private_ip_spec(ip: Seq<char>) -> bool {
    let parts = split_on(encode_utf8(ip), 46);
    &&& parts.len() == 4
    &&& forall|i: int| 0 <= i < 4 ==> (#[trigger] octet_of(parts[i])) is Some
    &&& {
        let a = octet_of(parts[0])->0;
        let b = octet_of(parts[1])->0;
        a == 10 || (a == 172 && 16 <= b <= 31) || (a == 192 && b == 168)
    }
}

/// Four parts that all parse give their four octets, in order.
proof fn lemma_four_octets(parts: Seq<Seq<u8>>)
    requires
        parts.len() == 4,
        forall|i: int| 0 <= i < 4 ==> (#[trigger] octet_of(parts[i])) is Some,
    ensures
        parts.filter_map(|p: Seq<u8>| octet_of(p)) == seq![
            octet_of(parts[0])->0,
            octet_of(parts[1])->0,
            octet_of(parts[2])->0,
            octet_of(parts[3])->0,
        ],
{
    let f = |p: Seq<u8>| octet_of(p);
    assert(octet_of(parts[0]) is Some);
    assert(octet_of(parts[1]) is Some);
    assert(octet_of(parts[2]) is Some);
    assert(octet_of(parts[3]) is Some);
    assert(parts.take(0).filter_map(f) =~= Seq::<u8>::empty());
    lemma_filter_map_take_step(parts, f, 0);
    lemma_filter_map_take_step(parts, f, 1);
    lemma_filter_map_take_step(parts, f, 2);
    lemma_filter_map_take_step(parts, f, 3);
    assert(parts.take(4) =~= parts);
    assert(parts.filter_map(f) =~= seq![
        octet_of(parts[0])->0,
        octet_of(parts[1])->0,
        octet_of(parts[2])->0,
        octet_of(parts[3])->0,
    ]);
}

/// Whether a nameserver address is private, i.e. pushed by a corporate VPN.
pub fn is_private_dns_ip(ip: &str) -> (r: bool)
    ensures
        r == is_private_ip_spec(ip@),
{
    let b = ip.as_bytes();
    assert(b@.subrange(0, b@.len() as int) =~= b@);
    if !four_octet_parts(b, 0, b.len()) {
        return false;
    }
    let o = dotted_octets_range(b, 0, b.len());
    proof {
        lemma_four_octets(split_on(b@, 46));
    }
    assert(o@.len() == 4);
    if o[0] == 10 {
        true
    } else if o[0] == 172 {
        o[1] >= 16 && o[1] <= 31
    } else if o[0] == 192 {
        o[1] == 168
    } else {
        false
    }
}

/// The 32-bit value of four octets.
pub open spec fn ipv4_value(o: Seq<u8>) -> nat {
    (o[0] as nat) * 16777216 + (o[1] as nat) * 65536 + (o[2] as nat) * 256 + (o[3] as nat)
}

/// `ip` lies in `cidr` (`a.b.c.d/n`, `n <= 32`, split at the first `/`):
/// both addresses have four octets and agree in their first `n` bits.
pub open spec fn ip_in_cidr_spec(ip: Seq<char>, cidr: Seq<char>) -> bool {
    let c = encode_utf8(cidr);
    match find_first(c, 47) {
        None => false,
        Some(k) => match parse_unsigned(c.skip(k + 1), 4294967295) {
            None => false,
            Some(len) => {
                let a = dotted_octets(encode_utf8(ip));
                let p = dotted_octets(c.take(k));
                &&& len <= 32
                &&& a.len() == 4
                &&& p.len() == 4
                &&& ipv4_value(a) / pow2((32 - len) as nat) == ipv4_value(p) / pow2(
                    (32 - len) as nat,
                )
            },
        },
    }
}

fn octets_value(o: &Vec<u8>) -> (r: u32)
    requires
        o@.len() == 4,
    ensures
        r as nat == ipv4_value(o@),
{
    let a = o[0] as u32;
    let b = o[1] as u32;
    let c = o[2] as u32;
    let d = o[3] as u32;
    let r = (a << 24u32) | (b << 16u32) | (c << 8u32) | d;
    assert(r == a * 16777216 + b * 65536 + c * 256 + d) by (bit_vector)
        requires
            a < 256 && b < 256 && c < 256 && d < 256 && r == (a << 24u32) | (b << 16u32) | (c
                << 8u32) | d,
    ;
    r
}

proof fn lemma_mask_compare(x: u32, y: u32, len: u32)
    requires
        1 <= len <= 32,
    ensures
        ((x & (!0u32 << ((32 - len) as u32))) == (y & (!0u32 << ((32 - len) as u32)))) == (x as nat
            / pow2((32 - len) as nat) == y as nat / pow2((32 - len) as nat)),
{
    let s: u32 = (32 - len) as u32;
    assert(((x & (!0u32 << s)) == (y & (!0u32 << s))) == ((x >> s) == (y >> s))) by (bit_vector)
        requires
            s < 32,
    ;
    vstd::bits::lemma_u32_shr_is_div(x, s);
    vstd::bits::lemma_u32_shr_is_div(y, s);
}

proof fn lemma_below_pow2_32(x: nat)
    requires
        x < 4294967296,
    ensures
        x / pow2(32) == 0,
{
    vstd::arithmetic::power2::lemma2_to64();
}

/// Whether `ip` falls within `cidr` (IPv4 only).
pub fn ip_in_cidr(ip: &str, cidr: &str) -> (r: bool)
    ensures
        r == ip_in_cidr_spec(ip@, cidr@),
{
    let c = cidr.as_bytes();
    let ghost cs = c@;
    assert(cs.subrange(0, cs.len() as int) =~= cs);
    let k = match find_byte(c, 0, c.len(), 47) {
        None => return false,
        Some(k) => k,
    };
    assert(cs.skip(k + 1) =~= cs.subrange(k + 1, cs.len() as int));
    assert(cs.take(k as int) =~= cs.subrange(0, k as int));
    let len = match parse_unsigned_range(c, k + 1, c.len(), 4294967295) {
        Some(n) => {
            if n > 32 {
                return false;
            }
            n as u32
        },
        None => return false,
    };
    let ib = ip.as_bytes();
    assert(ib@.subrange(0, ib@.len() as int) =~= ib@);
    let a = dotted_octets_range(ib, 0, ib.len());
    if a.len() != 4 {
        return false;
    }
    let p = dotted_octets_range(c, 0, k);
    if p.len() != 4 {
        return false;
    }
    let ipv = octets_value(&a);
    let pv = octets_value(&p);
    let mask: u32 = if len == 0 {
        0
    } else {
        !0u32 << (32 - len)
    };
    let r = (ipv & mask) == (pv & mask);
    proof {
        if len == 0 {
            assert(ipv & 0u32 == 0u32) by (bit_vector);
            assert(pv & 0u32 == 0u32) by (bit_vector);
            lemma_below_pow2_32(ipv as nat);
            lemma_below_pow2_32(pv as nat);
        } else {
            lemma_mask_compare(ipv, pv, len);
        }
    }
    r
}

/// Some subnet of `subnets` contains `ip`.
pub open spec fn in_any_subnet(ip: Seq<char>, subnets: Seq<Seq<char>>) -> bool {
    exists|i: int| 0 <= i < subnets.len() && ip_in_cidr_spec(ip, #[trigger] subnets[i])
}

fn in_any(ip: &str, subnets: &[String]) -> (r: bool)
    ensures
        r == in_any_subnet(ip@, strings_view(subnets@)),
{
    let mut i: usize = 0;
    while i < subnets.len()
        invariant
            i <= subnets@.len(),
            forall|j: int| 0 <= j < i ==> !ip_in_cidr_spec(ip@, #[trigger] subnets@[j]@),
        decreases subnets@.len() - i,
    {
        if ip_in_cidr(ip, subnets[i].as_str()) {
            assert(strings_view(subnets@)[i as int] == subnets@[i as int]@);
            return true;
        }
        i = i + 1;
    }
    assert forall|j: int| 0 <= j < subnets@.len() implies !ip_in_cidr_spec(
        ip@,
        #[trigger] strings_view(subnets@)[j],
    ) by {
        assert(strings_view(subnets@)[j] == subnets@[j]@);
    }
    false
}

/// The DNS servers that no bypass subnet contains, in their order.
///
/// A DNS server inside a VPN-routed subnet cannot be reached with the LAN
/// source address xray uses for direct traffic, and every query to it
/// would time out; only LAN-reachable servers are kept.
pub fn filter_dns_servers_by_subnet(dns_servers: &[String], bypass_subnets: &[String]) -> (r: Vec<
    String,
>)
    ensures
        strings_view(r@) == strings_view(dns_servers@).filter(
            |ip: Seq<char>| !in_any_subnet(ip, strings_view(bypass_subnets@)),
        ),
{
    let ghost subs = strings_view(bypass_subnets@);
    let ghost pred = |ip: Seq<char>| !in_any_subnet(ip, subs);
    let mut out: Vec<String> = Vec::new();
    let mut i: usize = 0;
    while i < dns_servers.len()
        invariant
            i <= dns_servers@.len(),
            subs == strings_view(bypass_subnets@),
            pred == (|ip: Seq<char>| !in_any_subnet(ip, subs)),
            strings_view(out@) == strings_view(dns_servers@.take(i as int)).filter(pred),
        decreases dns_servers@.len() - i,
    {
        let ghost before = dns_servers@.take(i as int);
        let ghost after = dns_servers@.take(i + 1);
        assert(strings_view(after).len() == i + 1);
        reveal(Seq::filter);
        assert(strings_view(after).drop_last() =~= strings_view(before));
        assert(strings_view(after).last() == dns_servers@[i as int]@);
        let keep = !in_any(dns_servers[i].as_str(), bypass_subnets);
        assert(keep == pred(dns_servers@[i as int]@));
        assert(strings_view(after).filter(pred) == (if pred(strings_view(after).last()) {
            strings_view(after).drop_last().filter(pred).push(strings_view(after).last())
        } else {
            strings_view(after).drop_last().filter(pred)
        }));
        if keep {
            let ghost o = out@;
            out.push(dns_servers[i].clone());
            assert(strings_view(out@) =~= strings_view(o).push(dns_servers@[i as int]@));
        }
        i = i + 1;
    }
    assert(dns_servers@.take(dns_servers@.len() as int) =~= dns_servers@);
    proof {
        reveal(Seq::filter);
    }
    out
}

// ---------------------------------------------------------------------------
// Resolver configuration
// ---------------------------------------------------------------------------

/// A line without the `\r` of a `\r\n` ending.
pub open spec fn strip_cr(l: Seq<u8>) -> Seq<u8> {
    if l.len() > 0 && l.last() == 13 {
        l.drop_last()
    } else {
        l
    }
}

/// The lines `str::lines` gives: split at each `\n`, a `\r` right before
/// a `\n` dropped, no empty line after a closing `\n`.
pub open spec fn text_lines(b: Seq<u8>) -> Seq<Seq<u8>>
    decreases b.len(),
{
    if b.len() == 0 {
        Seq::empty()
    } else {
        match find_first(b, 10) {
            None => seq![b],
            Some(i) => if 0 <= i < b.len() {
                seq![strip_cr(b.take(i))] + text_lines(b.skip(i + 1))
            } else {
                seq![b]
            },
        }
    }
}

/// The address a `nameserver` line names: the trimmed line starts with
/// `nameserver`, and the rest, trimmed, is the address.
pub open spec fn nameserver_entry(line: Seq<u8>) -> Option<Seq<char>> {
    let t = encode_utf8(trim_chars(utf8_lossy(line)));
    let key = encode_utf8("nameserver"@);
    if key.is_prefix_of(t) {
        Some(trim_chars(utf8_lossy(t.skip(key.len() as int))))
    } else {
        None
    }
}

/// One line read: a private nameserver not seen before is added.
pub open spec fn resolv_step(acc: Seq<Seq<char>>, line: Seq<u8>) -> Seq<Seq<char>> {
    match nameserver_entry(line) {
        Some(ip) => if is_private_ip_spec(ip) && !acc.contains(ip) {
            acc.push(ip)
        } else {
            acc
        },
        None => acc,
    }
}

pub open spec fn resolv_fold(lines: Seq<Seq<u8>>) -> Seq<Seq<char>>
    decreases lines.len(),
{
    if lines.len() == 0 {
        Seq::empty()
    } else {
        resolv_step(resolv_fold(lines.drop_last()), lines.last())
    }
}

/// The private nameservers of a resolver configuration, in order, each
/// once.
pub open spec fn resolv_servers(content: Seq<char>) -> Seq<Seq<char>> {
    resolv_fold(text_lines(encode_utf8(content)))
}

/// Whether the list holds the string.
pub fn contains_str(v: &Vec<String>, s: &str) -> (r: bool)
    ensures
        r == strings_view(v@).contains(s@),
{
    let mut i: usize = 0;
    while i < v.len()
        invariant
            i <= v@.len(),
            forall|j: int| 0 <= j < i ==> v@[j]@ != s@,
        decreases v@.len() - i,
    {
        if str_eq(v[i].as_str(), s) {
            assert(strings_view(v@)[i as int] == s@);
            return true;
        }
        i = i + 1;
    }
    assert forall|j: int| 0 <= j < strings_view(v@).len() implies strings_view(v@)[j] != s@ by {
        assert(strings_view(v@)[j] == v@[j]@);
    }
    false
}

/// Reads the line `b[lo..hi]` into the list.
fn read_resolv_line(servers: &mut Vec<String>, b: &[u8], lo: usize, hi: usize)
    requires
        lo <= hi <= b@.len(),
    ensures
        strings_view(final(servers)@) == resolv_step(
            strings_view(old(servers)@),
            b@.subrange(lo as int, hi as int),
        ),
{
    let line = text_range_of(b, lo, hi);
    let t = str_trim(line.as_str());
    if !starts_with(t, "nameserver") {
        return ;
    }
    let tb = t.as_bytes();
    let kl = "nameserver".as_bytes().len();
    let rest = text_range_of(tb, kl, tb.len());
    assert(tb@.skip(kl as int) =~= tb@.subrange(kl as int, tb@.len() as int));
    let ip = str_trim(rest.as_str());
    if is_private_dns_ip(ip) && !contains_str(servers, ip) {
        let ghost before = strings_view(servers@);
        servers.push(string_of(ip));
        assert(strings_view(servers@) =~= before.push(ip@));
    }
}

/// The text of `b[lo..hi]`.
pub(crate) fn text_range_of(b: &[u8], lo: usize, hi: usize) -> (r: String)
    requires
        lo <= hi <= b@.len(),
    ensures
        r@ == utf8_lossy(b@.subrange(lo as int, hi as int)),
{
    let v = copy_range(b, lo, hi);
    string_from_utf8_lossy(v.as_slice())
}

/// The private (corporate-VPN) nameservers of a resolver configuration
/// file's content, in order, each once.
pub fn parse_resolv_conf(content: &str) -> (r: Vec<String>)
    ensures
        strings_view(r@) == resolv_servers(content@),
{
    let b = content.as_bytes();
    let n = b.len();
    let ghost whole = b@;
    let ghost mut done: Seq<Seq<u8>> = Seq::empty();
    let mut servers: Vec<String> = Vec::new();
    let mut start: usize = 0;
    assert(whole.subrange(0, n as int) =~= whole);
    while start < n
        invariant
            start <= n == b@.len(),
            whole == b@,
            text_lines(whole) == done + text_lines(b@.subrange(start as int, n as int)),
            strings_view(servers@) == resolv_fold(done),
        decreases n - start,
    {
        let ghost cur = b@.subrange(start as int, n as int);
        proof {
            lemma_find_first_char(cur, 10);
        }
        match find_byte(b, start, n, 10) {
            Some(k) => {
                let ghost piece = b@.subrange(start as int, k as int);
                assert(cur.take(k - start) =~= piece);
                assert(cur.skip(k - start + 1) =~= b@.subrange(k + 1, n as int));
                let end = if k > start && b[k - 1] == 13 {
                    k - 1
                } else {
                    k
                };
                assert(strip_cr(piece) =~= b@.subrange(start as int, end as int));
                read_resolv_line(&mut servers, b, start, end);
                proof {
                    let old_done = done;
                    done = done.push(strip_cr(piece));
                    assert(done.drop_last() =~= old_done);
                    assert(text_lines(whole) =~= done + text_lines(b@.subrange(k + 1, n as int)));
                }
                start = k + 1;
            },
            None => {
                read_resolv_line(&mut servers, b, start, n);
                proof {
                    let old_done = done;
                    done = done.push(cur);
                    assert(done.drop_last() =~= old_done);
                    assert(text_lines(whole) =~= done);
                }
                start = n;
            },
        }
    }
    assert(b@.subrange(n as int, n as int) =~= Seq::<u8>::empty());
    assert(done + text_lines(Seq::<u8>::empty()) =~= done);
    servers
}

// ---------------------------------------------------------------------------
// Bypass lists
// ---------------------------------------------------------------------------

/// Strictly increasing in the order of strings: sorted, each once.
pub open spec fn sorted_strictly(s: Seq<Seq<char>>) -> bool {
    forall|i: int, j: int| 0 <= i < j < s.len() ==> text_lt(#[trigger] s[i], #[trigger] s[j])
}

proof fn lemma_insert_to_set(s: Seq<Seq<char>>, p: int, x: Seq<char>)
    requires
        0 <= p <= s.len(),
    ensures
        s.insert(p, x).to_set() == s.to_set().insert(x),
{
    let t = s.insert(p, x);
    assert forall|y: Seq<char>| t.to_set().contains(y) <==> s.to_set().insert(x).contains(y) by {
        if t.to_set().contains(y) {
            let k = choose|k: int| 0 <= k < t.len() && t[k] == y;
            if k < p {
                assert(s[k] == y);
            } else if k > p {
                assert(s[k - 1] == y);
            }
        }
        if s.to_set().contains(y) {
            let k = choose|k: int| 0 <= k < s.len() && s[k] == y;
            if k < p {
                assert(t[k] == y);
            } else {
                assert(t[k + 1] == y);
            }
        }
        if y == x {
            assert(t[p] == x);
        }
    }
    assert(t.to_set() =~= s.to_set().insert(x));
}

/// Adds `x` to a strictly increasing list, in its place, unless it is
/// already there.
fn insert_sorted(v: &mut Vec<String>, x: String)
    requires
        sorted_strictly(strings_view(old(v)@)),
    ensures
        sorted_strictly(strings_view(final(v)@)),
        strings_view(final(v)@).to_set() == strings_view(old(v)@).to_set().insert(x@),
{
    let ghost s = strings_view(v@);
    let mut p: usize = 0;
    while p < v.len() && str_less(v[p].as_str(), x.as_str())
        invariant
            p <= v@.len(),
            s == strings_view(v@),
            forall|j: int| 0 <= j < p ==> text_lt(#[trigger] s[j], x@),
        decreases v@.len() - p,
    {
        p = p + 1;
    }
    if p < v.len() && str_eq(v[p].as_str(), x.as_str()) {
        assert(s.to_set().insert(x@) =~= s.to_set()) by {
            assert(s[p as int] == x@);
        }
        return ;
    }
    proof {
        if p < s.len() {
            lemma_text_lt_total(s[p as int], x@);
        }
    }
    v.insert(p, x);
    proof {
        let t = strings_view(v@);
        assert(t =~= s.insert(p as int, x@));
        assert forall|i: int, j: int| 0 <= i < j < t.len() implies text_lt(
            #[trigger] t[i],
            #[trigger] t[j],
        ) by {
            if j < p {
                assert(t[i] == s[i] && t[j] == s[j]);
            } else if j == p {
                assert(t[i] == s[i]);
            } else if i < p {
                assert(t[i] == s[i] && t[j] == s[j - 1]);
                lemma_text_lt_trans(s[i], x@, s[p as int]);
                if j - 1 > p {
                    lemma_text_lt_trans(s[i], s[p as int], s[j - 1]);
                }
            } else if i == p {
                assert(t[j] == s[j - 1]);
                if j - 1 > p {
                    lemma_text_lt_trans(x@, s[p as int], s[j - 1]);
                }
            } else {
                assert(t[i] == s[i - 1] && t[j] == s[j - 1]);
            }
        }
        lemma_insert_to_set(s, p as int, x@);
    }
}

/// `sort` followed by `dedup`: the strings in increasing order, each once.
pub fn sorted_unique(items: Vec<String>) -> (r: Vec<String>)
    ensures
        sorted_strictly(strings_view(r@)),
        strings_view(r@).to_set() == strings_view(items@).to_set(),
{
    let mut out: Vec<String> = Vec::new();
    let mut i: usize = 0;
    assert(strings_view(items@).take(0).to_set() =~= Set::<Seq<char>>::empty());
    assert(strings_view(out@).to_set() =~= Set::<Seq<char>>::empty());
    while i < items.len()
        invariant
            i <= items@.len(),
            sorted_strictly(strings_view(out@)),
            strings_view(out@).to_set() == strings_view(items@).take(i as int).to_set(),
        decreases items@.len() - i,
    {
        let ghost before = strings_view(items@).take(i as int);
        insert_sorted(&mut out, items[i].clone());
        proof {
            let after = strings_view(items@).take(i + 1);
            assert(after =~= before.push(items@[i as int]@));
            assert(after.to_set() =~= before.to_set().insert(items@[i as int]@)) by {
                assert forall|y: Seq<char>| after.to_set().contains(y) <==> before.to_set().insert(
                    items@[i as int]@,
                ).contains(y) by {
                    if after.to_set().contains(y) {
                        let k = choose|k: int| 0 <= k < after.len() && after[k] == y;
                        if k < before.len() {
                            assert(before[k] == y);
                        }
                    }
                    if before.to_set().contains(y) {
                        let k = choose|k: int| 0 <= k < before.len() && before[k] == y;
                        assert(after[k] == y);
                    }
                    if y == items@[i as int]@ {
                        assert(after[i as int] == y);
                    }
                }
            }
        }
        i = i + 1;
    }
    assert(strings_view(items@).take(items@.len() as int) =~= strings_view(items@));
    out
}

/// The private ranges every bypass list starts from.
pub open spec fn rfc1918_ranges() -> Seq<Seq<char>> {
    seq!["10.0.0.0/8"@, "172.16.0.0/12"@, "192.168.0.0/16"@]
}

/// The bypass entry of a VPN server address: a bare address becomes a
/// `/32` route.
pub open spec fn server_entry(ip: Option<Seq<char>>) -> Seq<Seq<char>> {
    match ip {
        Some(a) => if text_has_byte(a, 47) {
            seq![a]
        } else {
            seq![a + "/32"@]
        },
        None => Seq::empty(),
    }
}

/// The subnets and server entries of the VPNs, in order.
pub open spec fn vpn_entries(vpns: Seq<DetectedVpnView>) -> Seq<Seq<char>>
    decreases vpns.len(),
{
    if vpns.len() == 0 {
        Seq::empty()
    } else {
        vpn_entries(vpns.drop_last()) + vpns.last().subnets + server_entry(vpns.last().server_ip)
    }
}

/// What must bypass the tunnel while corporate VPNs are up: nothing when
/// there are none; otherwise the RFC 1918 ranges, every VPN subnet and
/// every VPN server address.
pub open spec fn bypass_candidates(vpns: Seq<DetectedVpnView>) -> Seq<Seq<char>> {
    if vpns.len() == 0 {
        Seq::empty()
    } else {
        rfc1918_ranges() + vpn_entries(vpns)
    }
}

pub open spec fn vpn_views(v: Seq<DetectedVpn>) -> Seq<DetectedVpnView> {
    v.map_values(|x: DetectedVpn| x@)
}

/// All detected subnets and server addresses as one bypass list, sorted and
/// without duplicates. With any corporate VPN up, the RFC 1918 ranges come
/// first so that corporate DNS and internal hosts use the VPN's own route.
pub fn collect_bypass_subnets(vpns: &[DetectedVpn]) -> (r: Vec<String>)
    ensures
        sorted_strictly(strings_view(r@)),
        strings_view(r@).to_set() == bypass_candidates(vpn_views(vpns@)).to_set(),
{
    if vpns.len() == 0 {
        let r: Vec<String> = Vec::new();
        assert(strings_view(r@).to_set() =~= Set::<Seq<char>>::empty());
        assert(bypass_candidates(vpn_views(vpns@)).to_set() =~= Set::<Seq<char>>::empty());
        return r;
    }
    let mut all: Vec<String> = Vec::new();
    all.push(string_of("10.0.0.0/8"));
    all.push(string_of("172.16.0.0/12"));
    all.push(string_of("192.168.0.0/16"));
    assert(strings_view(all@) =~= rfc1918_ranges());
    let mut i: usize = 0;
    while i < vpns.len()
        invariant
            i <= vpns@.len(),
            strings_view(all@) == rfc1918_ranges() + vpn_entries(vpn_views(vpns@).take(i as int)),
        decreases vpns@.len() - i,
    {
        let ghost before = strings_view(all@);
        let vpn = &vpns[i];
        let mut k: usize = 0;
        while k < vpn.subnets.len()
            invariant
                k <= vpn.subnets@.len(),
                strings_view(all@) == before + strings_view(vpn.subnets@).take(k as int),
            decreases vpn.subnets@.len() - k,
        {
            let ghost b2 = strings_view(all@);
            all.push(vpn.subnets[k].clone());
            assert(strings_view(all@) =~= b2.push(vpn.subnets@[k as int]@));
            assert(strings_view(vpn.subnets@).take(k + 1) =~= strings_view(vpn.subnets@).take(
                k as int,
            ).push(vpn.subnets@[k as int]@));
            k = k + 1;
        }
        assert(strings_view(vpn.subnets@).take(vpn.subnets@.len() as int) =~= strings_view(
            vpn.subnets@,
        ));
        let ghost b3 = strings_view(all@);
        match &vpn.server_ip {
            Some(ip) => {
                if !has_byte(ip.as_str(), 47) {
                    all.push(string_of(ip.as_str()).concat("/32"));
                } else {
                    all.push(ip.clone());
                }
            },
            None => {},
        }
        proof {
            assert(strings_view(all@) =~= b3 + server_entry(vpn@.server_ip));
            let vs = vpn_views(vpns@);
            assert(vs.take(i + 1).drop_last() =~= vs.take(i as int));
            assert(vs.take(i + 1).last() == vpn@);
        }
        i = i + 1;
    }
    assert(vpn_views(vpns@).take(vpns@.len() as int) =~= vpn_views(vpns@));
    sorted_unique(all)
}

// ---------------------------------------------------------------------------
// Reading the routing table
// ---------------------------------------------------------------------------

/// One entry of the routing table, as `ip -j route show` lists it.
#[derive(Debug)]
pub struct IpRoute {
    pub dst: Option<String>,
    pub dev: Option<String>,
    pub gateway: Option<String>,
    pub protocol: Option<String>,
    pub scope: Option<String>,
}

pub struct IpRouteView {
    pub dst: Option<Seq<char>>,
    pub dev: Option<Seq<char>>,
    pub gateway: Option<Seq<char>>,
    pub protocol: Option<Seq<char>>,
    pub scope: Option<Seq<char>>,
}

impl View for IpRoute {
    type V = IpRouteView;

    open spec fn view(&self) -> IpRouteView {
        IpRouteView {
            dst: opt_chars(self.dst),
            dev: opt_chars(self.dev),
            gateway: opt_chars(self.gateway),
            protocol: opt_chars(self.protocol),
            scope: opt_chars(self.scope),
        }
    }
}

pub open spec fn route_views(v: Seq<IpRoute>) -> Seq<IpRouteView> {
    v.map_values(|r: IpRoute| r@)
}

/// A route through a VPN interface to a destination that is not a
/// catch-all: its interface and destination.
pub open spec fn vpn_route_of(r: IpRouteView) -> Option<(Seq<char>, Seq<char>)> {
    match (r.dev, r.dst) {
        (Some(d), Some(t)) => if is_vpn_name(d) && !is_default_route_spec(t) {
            Some((d, t))
        } else {
            None
        },
        _ => None,
    }
}

/// The interfaces of the VPN routes, in order, with repetitions.
pub open spec fn vpn_devs(rs: Seq<IpRouteView>) -> Seq<Seq<char>> {
    rs.filter_map(
        |r: IpRouteView|
            match vpn_route_of(r) {
                Some(p) => Some(p.0),
                None => None,
            },
    )
}

/// The destinations routed through `iface`, in order.
pub open spec fn iface_subnets(rs: Seq<IpRouteView>, iface: Seq<char>) -> Seq<Seq<char>> {
    rs.filter_map(
        |r: IpRouteView|
            match vpn_route_of(r) {
                Some(p) => if p.0 == iface {
                    Some(p.1)
                } else {
                    None
                },
                None => None,
            },
    )
}

/// Only VPN interfaces have subnets, and no catch-all route (`default`,
/// `0.0.0.0/0`, `0.0.0.0/1`, `128.0.0.0/1`) is ever listed as one.
pub proof fn lemma_vpn_subnets_not_catch_all(rs: Seq<IpRouteView>, iface: Seq<char>)
    ensures
        forall|k: int|
            0 <= k < iface_subnets(rs, iface).len() ==> !is_default_route_spec(
                #[trigger] iface_subnets(rs, iface)[k],
            ) && is_vpn_name(iface),
    decreases rs.len(),
{
    if rs.len() > 0 {
        let rest = rs.drop_last();
        lemma_vpn_subnets_not_catch_all(rest, iface);
        let prev = iface_subnets(rest, iface);
        let all = iface_subnets(rs, iface);
        assert forall|k: int| 0 <= k < all.len() implies !is_default_route_spec(#[trigger] all[k])
            && is_vpn_name(iface) by {
            if k < prev.len() {
                assert(all[k] == prev[k]);
            } else {
                let r = rs.last();
                assert(vpn_route_of(r) is Some);
            }
        }
    }
}

/// `b` with every trailing `p` removed (`str::trim_end_matches`).
pub open spec fn strip_all_suffix(b: Seq<u8>, p: Seq<u8>) -> Seq<u8>
    decreases b.len(),
{
    if p.len() > 0 && p.is_suffix_of(b) {
        strip_all_suffix(b.take(b.len() - p.len()), p)
    } else {
        b
    }
}

/// `/32`.
pub open spec fn host_suffix() -> Seq<u8> {
    seq![47u8, 51, 50]
}

/// A static host route with a gateway through a non-VPN interface: the
/// address of a VPN server, without `/32`.
pub open spec fn endpoint_of(r: IpRouteView) -> Option<Seq<char>> {
    match (r.dev, r.dst) {
        (Some(d), Some(t)) => if !is_vpn_name(d) && is_host_route_spec(t) && r.protocol == Some(
            "static"@,
        ) && r.gateway is Some {
            Some(utf8_lossy(strip_all_suffix(encode_utf8(t), host_suffix())))
        } else {
            None
        },
        _ => None,
    }
}

pub open spec fn endpoints(rs: Seq<IpRouteView>) -> Seq<Seq<char>> {
    rs.filter_map(|r: IpRouteView| endpoint_of(r))
}

/// The interface names of a list of VPNs.
pub open spec fn interfaces(v: Seq<DetectedVpnView>) -> Seq<Seq<char>> {
    v.map_values(|x: DetectedVpnView| x.interface)
}

fn opt_str_eq(o: &Option<String>, s: &str) -> (r: bool)
    ensures
        r == (opt_chars(*o) == Some(s@)),
{
    match o {
        Some(x) => str_eq(x.as_str(), s),
        None => false,
    }
}

/// The interface of a VPN route.
fn vpn_route_dev(r: &IpRoute) -> (d: Option<&String>)
    ensures
        match vpn_route_of(r@) {
            Some(p) => d matches Some(x) && x@ == p.0,
            None => d is None,
        },
{
    match (&r.dev, &r.dst) {
        (Some(d), Some(t)) => {
            if is_vpn_interface(d.as_str()) && !is_default_route(t.as_str()) {
                Some(d)
            } else {
                None
            }
        },
        _ => None,
    }
}

pub(crate) proof fn lemma_filter_map_take_step<A, B>(x: Seq<A>, f: spec_fn(A) -> Option<B>, i: int)
    requires
        0 <= i < x.len(),
    ensures
        x.take(i + 1).filter_map(f) == match f(x[i]) {
            Some(y) => x.take(i).filter_map(f) + seq![y],
            None => x.take(i).filter_map(f),
        },
{
    assert(x.take(i + 1).drop_last() =~= x.take(i));
}

/// The destinations routed through `iface`, in order.
fn subnets_through(routes: &[IpRoute], iface: &str) -> (r: Vec<String>)
    ensures
        strings_view(r@) == iface_subnets(route_views(routes@), iface@),
{
    let ghost rs = route_views(routes@);
    let mut out: Vec<String> = Vec::new();
    let mut i: usize = 0;
    while i < routes.len()
        invariant
            i <= routes@.len(),
            rs == route_views(routes@),
            strings_view(out@) == iface_subnets(rs.take(i as int), iface@),
        decreases routes@.len() - i,
    {
        proof {
            lemma_filter_map_take_step(
                rs,
                |r: IpRouteView|
                    match vpn_route_of(r) {
                        Some(p) => if p.0 == iface@ {
                            Some(p.1)
                        } else {
                            None
                        },
                        None => None,
                    },
                i as int,
            );
        }
        let ghost o = strings_view(out@);
        match vpn_route_dev(&routes[i]) {
            Some(d) => {
                if str_eq(d.as_str(), iface) {
                    match &routes[i].dst {
                        Some(t) => {
                            out.push(t.clone());
                            assert(strings_view(out@) =~= o + seq![t@]);
                        },
                        None => {},
                    }
                }
            },
            None => {},
        }
        i = i + 1;
    }
    assert(rs.take(routes@.len() as int) =~= rs);
    out
}

/// The interfaces of the VPN routes, in order, with repetitions.
fn vpn_route_devs(routes: &[IpRoute]) -> (r: Vec<String>)
    ensures
        strings_view(r@) == vpn_devs(route_views(routes@)),
{
    let ghost rs = route_views(routes@);
    let mut out: Vec<String> = Vec::new();
    let mut i: usize = 0;
    while i < routes.len()
        invariant
            i <= routes@.len(),
            rs == route_views(routes@),
            strings_view(out@) == vpn_devs(rs.take(i as int)),
        decreases routes@.len() - i,
    {
        proof {
            lemma_filter_map_take_step(
                rs,
                |r: IpRouteView|
                    match vpn_route_of(r) {
                        Some(p) => Some(p.0),
                        None => None,
                    },
                i as int,
            );
        }
        let ghost o = strings_view(out@);
        match vpn_route_dev(&routes[i]) {
            Some(d) => {
                out.push(d.clone());
                assert(strings_view(out@) =~= o + seq![d@]);
            },
            None => {},
        }
        i = i + 1;
    }
    assert(rs.take(routes@.len() as int) =~= rs);
    out
}

/// `b` without trailing `/32`s, as text.
fn strip_host_suffix(b: &[u8]) -> (r: String)
    ensures
        r@ == utf8_lossy(strip_all_suffix(b@, host_suffix())),
{
    let p: &[u8] = &[47, 51, 50];
    let mut hi = b.len();
    assert(b@.subrange(0, hi as int) =~= b@);
    while hi >= 3 && range_eq(b, hi - 3, hi, p)
        invariant
            hi <= b@.len(),
            p@ == host_suffix(),
            strip_all_suffix(b@, p@) == strip_all_suffix(b@.subrange(0, hi as int), p@),
        decreases hi,
    {
        proof {
            let cur = b@.subrange(0, hi as int);
            assert(cur.subrange(cur.len() - 3, cur.len() as int) =~= b@.subrange(hi - 3, hi as int));
            assert(p@.is_suffix_of(cur));
            assert(cur.take(cur.len() - p@.len()) =~= b@.subrange(0, hi - 3));
        }
        hi = hi - 3;
    }
    proof {
        let cur = b@.subrange(0, hi as int);
        if hi >= 3 {
            assert(cur.subrange(cur.len() - 3, cur.len() as int) =~= b@.subrange(hi - 3, hi as int));
        }
        assert(!(p@.len() > 0 && p@.is_suffix_of(cur)));
    }
    text_range_of(b, 0, hi)
}

/// The VPN server address a route reveals, if any.
fn route_endpoint(r: &IpRoute) -> (e: Option<String>)
    ensures
        opt_chars(e) == endpoint_of(r@),
{
    match (&r.dev, &r.dst) {
        (Some(d), Some(t)) => {
            if !is_vpn_interface(d.as_str()) && is_host_route(t.as_str()) && opt_str_eq(
                &r.protocol,
                "static",
            ) && r.gateway.is_some() {
                Some(strip_host_suffix(t.as_str().as_bytes()))
            } else {
                None
            }
        },
        _ => None,
    }
}

fn route_endpoints(routes: &[IpRoute]) -> (r: Vec<String>)
    ensures
        strings_view(r@) == endpoints(route_views(routes@)),
{
    let ghost rs = route_views(routes@);
    let mut out: Vec<String> = Vec::new();
    let mut i: usize = 0;
    while i < routes.len()
        invariant
            i <= routes@.len(),
            rs == route_views(routes@),
            strings_view(out@) == endpoints(rs.take(i as int)),
        decreases routes@.len() - i,
    {
        proof {
            lemma_filter_map_take_step(rs, |r: IpRouteView| endpoint_of(r), i as int);
        }
        let ghost o = strings_view(out@);
        match route_endpoint(&routes[i]) {
            Some(e) => {
                out.push(e);
                assert(strings_view(out@) =~= o + seq![out@[out@.len() - 1]@]);
            },
            None => {},
        }
        i = i + 1;
    }
    assert(rs.take(routes@.len() as int) =~= rs);
    out
}

/// The corporate VPNs a routing table shows: one per VPN interface with a
/// route that is not a catch-all, ordered by interface name, each with the
/// destinations routed through it in table order; the first gets the
/// first VPN server address found (a static host route via a gateway
/// through a physical interface).
pub fn parse_routes(routes: &[IpRoute]) -> (r: Vec<DetectedVpn>)
    ensures
        ({
            let rs = route_views(routes@);
            let v = vpn_views(r@);
            &&& sorted_strictly(interfaces(v))
            &&& interfaces(v).to_set() == vpn_devs(rs).to_set()
            &&& forall|i: int|
                0 <= i < v.len() ==> {
                    &&& (#[trigger] v[i]).vpn_type == vpn_type_name(v[i].interface)
                    &&& v[i].subnets == iface_subnets(rs, v[i].interface)
                    &&& v[i].server_ip == (if i == 0 && endpoints(rs).len() > 0 {
                        Some(endpoints(rs)[0])
                    } else {
                        None
                    })
                }
        }),
{
    let ghost rs = route_views(routes@);
    let names = sorted_unique(vpn_route_devs(routes));
    let eps = route_endpoints(routes);
    let mut out: Vec<DetectedVpn> = Vec::new();
    let mut j: usize = 0;
    while j < names.len()
        invariant
            j <= names@.len(),
            rs == route_views(routes@),
            strings_view(eps@) == endpoints(rs),
            out@.len() == j,
            interfaces(vpn_views(out@)) == strings_view(names@).take(j as int),
            forall|i: int|
                0 <= i < j ==> {
                    &&& (#[trigger] vpn_views(out@)[i]).vpn_type == vpn_type_name(
                        vpn_views(out@)[i].interface,
                    )
                    &&& vpn_views(out@)[i].subnets == iface_subnets(
                        rs,
                        vpn_views(out@)[i].interface,
                    )
                    &&& vpn_views(out@)[i].server_ip == (if i == 0 && endpoints(rs).len() > 0 {
                        Some(endpoints(rs)[0])
                    } else {
                        None
                    })
                },
        decreases names@.len() - j,
    {
        let name = &names[j];
        let server_ip = if j == 0 && eps.len() > 0 {
            Some(eps[0].clone())
        } else {
            None
        };
        let vpn = DetectedVpn {
            interface: name.clone(),
            vpn_type: classify_vpn_type(name.as_str()),
            subnets: subnets_through(routes, name.as_str()),
            server_ip,
        };
        let ghost before = vpn_views(out@);
        out.push(vpn);
        proof {
            assert(vpn_views(out@) =~= before.push(out@[j as int]@));
            assert(interfaces(vpn_views(out@)) =~= strings_view(names@).take(j + 1));
            assert forall|i: int| 0 <= i < j + 1 implies {
                &&& (#[trigger] vpn_views(out@)[i]).vpn_type == vpn_type_name(
                    vpn_views(out@)[i].interface,
                )
                &&& vpn_views(out@)[i].subnets == iface_subnets(rs, vpn_views(out@)[i].interface)
                &&& vpn_views(out@)[i].server_ip == (if i == 0 && endpoints(rs).len() > 0 {
                    Some(endpoints(rs)[0])
                } else {
                    None
                })
            } by {
                if i < j {
                    assert(vpn_views(out@)[i] == before[i]);
                }
            }
        }
        j = j + 1;
    }
    assert(strings_view(names@).take(names@.len() as int) =~= strings_view(names@));
    out
}

// ---------------------------------------------------------------------------
// The physical default gateway
// ---------------------------------------------------------------------------

/// A route's gateway and interface, when it names both.
pub open spec fn gateway_of(r: IpRouteView) -> Option<(Seq<char>, Seq<char>)> {
    match (r.gateway, r.dev) {
        (Some(g), Some(d)) => Some((g, d)),
        _ => None,
    }
}

/// The same, only through an interface that is neither a VPN nor a
/// virtual one.
pub open spec fn physical_gateway_of(r: IpRouteView) -> Option<(Seq<char>, Seq<char>)> {
    match gateway_of(r) {
        Some((g, d)) => if !is_vpn_name(d) && !is_virtual_name(d) {
            Some((g, d))
        } else {
            None
        },
        None => None,
    }
}

/// Gateway and interface of the default routes to use: the first through
/// a physical interface, else the first at all.
pub open spec fn chosen_gateway(rs: Seq<IpRouteView>) -> Option<(Seq<char>, Seq<char>)> {
    let phys = rs.filter_map(|r: IpRouteView| physical_gateway_of(r));
    let any = rs.filter_map(|r: IpRouteView| gateway_of(r));
    if phys.len() > 0 {
        Some(phys[0])
    } else if any.len() > 0 {
        Some(any[0])
    } else {
        None
    }
}

pub open spec fn pair_view(p: (String, String)) -> (Seq<char>, Seq<char>) {
    (p.0@, p.1@)
}

fn gateway_pairs(routes: &[IpRoute], physical_only: bool) -> (r: Vec<(String, String)>)
    ensures
        r@.map_values(|p: (String, String)| pair_view(p)) == (if physical_only {
            route_views(routes@).filter_map(|r: IpRouteView| physical_gateway_of(r))
        } else {
            route_views(routes@).filter_map(|r: IpRouteView| gateway_of(r))
        }),
{
    let ghost rs = route_views(routes@);
    let ghost f = if physical_only {
        |r: IpRouteView| physical_gateway_of(r)
    } else {
        |r: IpRouteView| gateway_of(r)
    };
    let mut out: Vec<(String, String)> = Vec::new();
    let mut i: usize = 0;
    while i < routes.len()
        invariant
            i <= routes@.len(),
            rs == route_views(routes@),
            f == (if physical_only {
                |r: IpRouteView| physical_gateway_of(r)
            } else {
                |r: IpRouteView| gateway_of(r)
            }),
            out@.map_values(|p: (String, String)| pair_view(p)) == rs.take(i as int).filter_map(f),
        decreases routes@.len() - i,
    {
        proof {
            lemma_filter_map_take_step(rs, f, i as int);
        }
        let ghost o = out@.map_values(|p: (String, String)| pair_view(p));
        match (&routes[i].gateway, &routes[i].dev) {
            (Some(g), Some(d)) => {
                if !physical_only || (!is_vpn_interface(d.as_str()) && !is_virtual_interface(
                    d.as_str(),
                )) {
                    out.push((g.clone(), d.clone()));
                    assert(out@.map_values(|p: (String, String)| pair_view(p)) =~= o + seq![
                        (g@, d@),
                    ]);
                }
            },
            _ => {},
        }
        i = i + 1;
    }
    assert(rs.take(routes@.len() as int) =~= rs);
    out
}

/// Of the default routes, gateway and interface to use: the first route
/// through a physical interface, else the first naming both.
pub fn choose_default_gateway(routes: &[IpRoute]) -> (r: Option<(String, String)>)
    ensures
        match r {
            Some(p) => chosen_gateway(route_views(routes@)) == Some(pair_view(p)),
            None => chosen_gateway(route_views(routes@)) is None,
        },
{
    let phys = gateway_pairs(routes, true);
    if phys.len() > 0 {
        assert(phys@.map_values(|p: (String, String)| pair_view(p))[0] == pair_view(phys@[0]));
        return Some((phys[0].0.clone(), phys[0].1.clone()));
    }
    let any = gateway_pairs(routes, false);
    if any.len() > 0 {
        assert(any@.map_values(|p: (String, String)| pair_view(p))[0] == pair_view(any@[0]));
        return Some((any[0].0.clone(), any[0].1.clone()));
    }
    None
}

/// The first address that is not link-local.
pub open spec fn first_routable(ips: Seq<Seq<char>>) -> Option<Seq<char>> {
    let usable = ips.filter(|ip: Seq<char>| !is_link_local_spec(ip));
    if usable.len() > 0 {
        Some(usable[0])
    } else {
        None
    }
}

/// The first of an interface's addresses that is not link-local.
pub fn pick_local_ip(ips: &[String]) -> (r: Option<String>)
    ensures
        opt_chars(r) == first_routable(strings_view(ips@)),
{
    let ghost pred = |ip: Seq<char>| !is_link_local_spec(ip);
    let mut i: usize = 0;
    while i < ips.len()
        invariant
            i <= ips@.len(),
            pred == (|ip: Seq<char>| !is_link_local_spec(ip)),
            strings_view(ips@.take(i as int)).filter(pred).len() == 0,
        decreases ips@.len() - i,
    {
        let ghost before = strings_view(ips@.take(i as int));
        let ghost after = strings_view(ips@.take(i + 1));
        assert(after.len() == i + 1);
        assert(after.drop_last() =~= before);
        assert(after.last() == ips@[i as int]@);
        reveal(Seq::filter);
        if !is_link_local(ips[i].as_str()) {
            proof {
                assert(strings_view(ips@).take(i as int) =~= before);
                lemma_filter_prefix(strings_view(ips@), pred, i as int);
            }
            return Some(ips[i].clone());
        }
        i = i + 1;
    }
    proof {
        assert(ips@.take(ips@.len() as int) =~= ips@);
    }
    None
}

/// When no element before `i` passes and element `i` does, it is the
/// first to pass.
proof fn lemma_filter_prefix(s: Seq<Seq<char>>, pred: spec_fn(Seq<char>) -> bool, i: int)
    requires
        0 <= i < s.len(),
        s.take(i).filter(pred).len() == 0,
        pred(s[i]),
    ensures
        s.filter(pred).len() > 0,
        s.filter(pred)[0] == s[i],
    decreases s.len(),
{
    reveal(Seq::filter);
    if i == s.len() - 1 {
        assert(s.drop_last() =~= s.take(i));
    } else {
        assert(s.drop_last().take(i) =~= s.take(i));
        lemma_filter_prefix(s.drop_last(), pred, i);
        assert(s.drop_last()[i] == s[i]);
    }
}

/// The `local` address of one `addr_info` record, when it is a string.
pub open spec fn local_of(info: JsonView) -> Option<Seq<char>> {
    match json_get(info, "local"@) {
        Some(l) => json_as_str(l),
        None => None,
    }
}

/// The `local` addresses of the first interface in the output of
/// `ip -j addr show`, read as JSON; `None` when the output is not an array
/// or its first record has no `addr_info` array.
pub open spec fn addr_locals(j: Option<JsonView>) -> Option<Seq<Seq<char>>> {
    match j {
        Some(v) => match json_as_array(v) {
            Some(ifaces) => if ifaces.len() > 0 {
                match json_get(ifaces[0], "addr_info"@) {
                    Some(ai) => match json_as_array(ai) {
                        Some(infos) => Some(infos.filter_map(|info: JsonView| local_of(info))),
                        None => None,
                    },
                    None => None,
                }
            } else {
                None
            },
            None => None,
        },
        None => None,
    }
}

/// The interface's first address that is not link-local.
pub open spec fn local_ip_of(j: Option<JsonView>) -> Option<Seq<char>> {
    match addr_locals(j) {
        Some(ls) => first_routable(ls),
        None => None,
    }
}

/// The `local` addresses of a list of `addr_info` records.
fn locals_of(infos: &Vec<Json>) -> (r: Vec<String>)
    ensures
        strings_view(r@) == json_views(infos@).filter_map(|info: JsonView| local_of(info)),
{
    let ghost f = |info: JsonView| local_of(info);
    let ghost x = json_views(infos@);
    let mut out: Vec<String> = Vec::new();
    let mut i: usize = 0;
    assert(x.take(0).filter_map(f) =~= Seq::<Seq<char>>::empty());
    while i < infos.len()
        invariant
            i <= infos@.len(),
            x == json_views(infos@),
            f == (|info: JsonView| local_of(info)),
            strings_view(out@) == x.take(i as int).filter_map(f),
        decreases infos@.len() - i,
    {
        proof {
            lemma_filter_map_take_step(x, f, i as int);
        }
        assert(x[i as int] == infos@[i as int]@);
        let local = match get(&infos[i], "local") {
            Some(l) => as_str(l),
            None => None,
        };
        match local {
            Some(t) => {
                let ghost before = out@;
                out.push(string_of(t));
                assert(strings_view(out@) =~= strings_view(before).push(t@));
            },
            None => {},
        }
        i = i + 1;
    }
    assert(x.take(infos@.len() as int) =~= x);
    out
}

/// The address of an interface from the output of `ip -j -4 addr show dev
/// ..`: the first of its first record's `addr_info` addresses that is not
/// link-local.
pub fn local_ip_from_addr_json(out: &[u8]) -> (r: Option<String>)
    ensures
        opt_chars(r) == local_ip_of(json_text_value(out@)),
{
    let j = json_from_slice(out);
    let v = match &j {
        Some(v) => v,
        None => return None,
    };
    let ifaces = match as_array(v) {
        Some(a) => a,
        None => return None,
    };
    if ifaces.len() == 0 {
        return None;
    }
    assert(json_views(ifaces@)[0] == ifaces@[0]@);
    let infos = match get(&ifaces[0], "addr_info") {
        Some(ai) => match as_array(ai) {
            Some(infos) => infos,
            None => return None,
        },
        None => return None,
    };
    let locals = locals_of(infos);
    pick_local_ip(locals.as_slice())
}


/// The first element of a `filter_map` comes from the first element that
/// the function keeps; there is one exactly when some element is kept.
pub(crate) proof fn lemma_filter_map_first<A, B>(x: Seq<A>, f: spec_fn(A) -> Option<B>)
    ensures
        x.filter_map(f).len() > 0 <==> exists|i: int| 0 <= i < x.len() && (#[trigger] f(x[i])) is Some,
        x.filter_map(f).len() > 0 ==> exists|i: int|
            0 <= i < x.len() && #[trigger] f(x[i]) == Some(x.filter_map(f)[0]) && forall|j: int|
                0 <= j < i ==> (#[trigger] f(x[j])) is None,
    decreases x.len(),
{
    if x.len() > 0 {
        let init = x.drop_last();
        lemma_filter_map_first(init, f);
        assert forall|i: int| 0 <= i < init.len() implies init[i] == x[i] by {}
        let fm = x.filter_map(f);
        let n = x.len() - 1;
        if init.filter_map(f).len() > 0 {
            let i = choose|i: int|
                0 <= i < init.len() && #[trigger] f(init[i]) == Some(init.filter_map(f)[0]) && forall|j: int|
                    0 <= j < i ==> (#[trigger] f(init[j])) is None;
            assert(fm[0] == init.filter_map(f)[0]);
            assert(f(x[i]) == Some(fm[0]));
            assert forall|j: int| 0 <= j < i implies (#[trigger] f(x[j])) is None by {
                assert(f(init[j]) is None);
            }
        } else {
            assert forall|i: int| 0 <= i < n implies (#[trigger] f(x[i])) is None by {
                assert(f(init[i]) is None);
            }
            if f(x[n]) is Some {
                assert(fm[0] == f(x[n])->0);
            } else {
                assert(fm.len() == 0);
            }
        }
    }
}

/// A route with a gateway through a physical interface (neither a VPN nor
/// a virtual one).
pub open spec fn physical_route(r: IpRouteView) -> bool {
    r.gateway is Some && r.dev is Some && !is_vpn_name(r.dev->0) && !is_virtual_name(r.dev->0)
}

/// The gateway chosen for the tunnel's bypass comes from a default route
/// with that gateway and interface: the first one through a physical
/// interface when there is such a route, else the first with a gateway and
/// an interface; none only when no route has both.
pub proof fn lemma_chosen_gateway(rs: Seq<IpRouteView>)
    ensures
        chosen_gateway(rs) is None <==> forall|i: int|
            0 <= i < rs.len() ==> (#[trigger] rs[i]).gateway is None || rs[i].dev is None,
        chosen_gateway(rs) matches Some((g, d)) ==> exists|i: int|
            0 <= i < rs.len() && (#[trigger] rs[i]).gateway == Some(g) && rs[i].dev == Some(d),
        (exists|i: int| 0 <= i < rs.len() && physical_route(#[trigger] rs[i])) ==> (chosen_gateway(rs) matches Some((g, d))
            && exists|i: int|
            0 <= i < rs.len() && (#[trigger] rs[i]).gateway == Some(g) && rs[i].dev == Some(d)
                && physical_route(rs[i]) && forall|j: int| 0 <= j < i ==> !physical_route(#[trigger] rs[j])),
{
    let fp = |r: IpRouteView| physical_gateway_of(r);
    let fa = |r: IpRouteView| gateway_of(r);
    lemma_filter_map_first(rs, fp);
    lemma_filter_map_first(rs, fa);
    assert forall|i: int| 0 <= i < rs.len() implies (physical_route(#[trigger] rs[i]) <==> fp(rs[i]) is Some)
        && ((rs[i].gateway is Some && rs[i].dev is Some) <==> fa(rs[i]) is Some) by {}
    if exists|i: int| 0 <= i < rs.len() && physical_route(#[trigger] rs[i]) {
        let k = choose|i: int| 0 <= i < rs.len() && physical_route(#[trigger] rs[i]);
        assert(fp(rs[k]) is Some);
        let i = choose|i: int|
            0 <= i < rs.len() && #[trigger] fp(rs[i]) == Some(rs.filter_map(fp)[0]) && forall|j: int|
                0 <= j < i ==> (#[trigger] fp(rs[j])) is None;
        assert forall|j: int| 0 <= j < i implies !physical_route(#[trigger] rs[j]) by {
            assert(fp(rs[j]) is None);
        }
    } else {
        if rs.filter_map(fp).len() > 0 {
            let i = choose|i: int| 0 <= i < rs.len() && (#[trigger] fp(rs[i])) is Some;
            assert(physical_route(rs[i]));
        }
        if rs.filter_map(fa).len() > 0 {
            let i = choose|i: int|
                0 <= i < rs.len() && #[trigger] fa(rs[i]) == Some(rs.filter_map(fa)[0]) && forall|j: int|
                    0 <= j < i ==> (#[trigger] fa(rs[j])) is None;
            assert(rs[i].gateway is Some);
        } else {
            assert forall|i: int| 0 <= i < rs.len() implies (#[trigger] rs[i]).gateway is None
                || rs[i].dev is None by {
                if rs[i].gateway is Some && rs[i].dev is Some {
                    assert(fa(rs[i]) is Some);
                }
            }
        }
    }
    if chosen_gateway(rs) is None {
        assert forall|i: int| 0 <= i < rs.len() implies (#[trigger] rs[i]).gateway is None
            || rs[i].dev is None by {
            if rs[i].gateway is Some && rs[i].dev is Some {
                assert(fa(rs[i]) is Some);
            }
        }
    }
}


/// Reading a resolver configuration keeps every private nameserver it
/// names and nothing else, each once: an address is in the result exactly
/// when some `nameserver` line gives it and it is private.
#[verifier::rlimit(80)]
pub proof fn lemma_resolv_fold(lines: Seq<Seq<u8>>)
    ensures
        resolv_fold(lines).no_duplicates(),
        forall|x: Seq<char>|
            #[trigger] resolv_fold(lines).contains(x) <==> (is_private_ip_spec(x) && exists|i: int|
                0 <= i < lines.len() && nameserver_entry(#[trigger] lines[i]) == Some(x)),
    decreases lines.len(),
{
    if lines.len() > 0 {
        let init = lines.drop_last();
        lemma_resolv_fold(init);
        let acc = resolv_fold(init);
        let n = lines.len() - 1;
        assert forall|i: int| 0 <= i < init.len() implies init[i] == lines[i] by {}
        assert forall|x: Seq<char>| #[trigger] resolv_fold(lines).contains(x) <==> (is_private_ip_spec(x)
            && exists|i: int| 0 <= i < lines.len() && nameserver_entry(#[trigger] lines[i]) == Some(x)) by {
            let r = resolv_fold(lines);
            if r.contains(x) {
                let k = choose|k: int| 0 <= k < r.len() && r[k] == x;
                if k < acc.len() {
                    assert(acc[k] == x);
                    assert(acc.contains(x));
                    let i = choose|i: int| 0 <= i < init.len() && nameserver_entry(#[trigger] init[i]) == Some(x);
                    assert(lines[i] == init[i]);
                } else {
                    assert(nameserver_entry(lines[n]) == Some(x));
                }
            }
            if is_private_ip_spec(x) && exists|i: int|
                0 <= i < lines.len() && nameserver_entry(#[trigger] lines[i]) == Some(x) {
                let i = choose|i: int| 0 <= i < lines.len() && nameserver_entry(#[trigger] lines[i]) == Some(x);
                if i < n {
                    assert(nameserver_entry(init[i]) == Some(x));
                    assert(acc.contains(x));
                    let k = choose|k: int| 0 <= k < acc.len() && acc[k] == x;
                    assert(r[k] == x);
                } else if !acc.contains(x) {
                    assert(r[acc.len() as int] == x);
                } else {
                    let k = choose|k: int| 0 <= k < acc.len() && acc[k] == x;
                    assert(r[k] == x);
                }
            }
        }
    }
}


/// The bytes of an ASCII text followed by `/` and a number's digits.
proof fn lemma_cidr_bytes(net: Seq<char>, d: Seq<char>)
    requires
        is_ascii_chars(net),
        is_ascii_chars(d),
        forall|i: int| 0 <= i < net.len() ==> net[i] != '/',
    ensures
        encode_utf8(net + seq!['/'] + d) == encode_utf8(net) + seq![47u8] + encode_utf8(d),
        find_first(encode_utf8(net + seq!['/'] + d), 47) == Some(net.len() as int),
        encode_utf8(net + seq!['/'] + d).take(net.len() as int) == encode_utf8(net),
        encode_utf8(net + seq!['/'] + d).skip(net.len() as int + 1) == encode_utf8(d),
{
    let all = net + seq!['/'] + d;
    assert(is_ascii_chars(all)) by {
        assert forall|i: int| 0 <= i < all.len() implies '\0' <= #[trigger] all[i] <= '\u{7f}' by {
            if i < net.len() {
                assert(all[i] == net[i]);
            } else if i > net.len() {
                assert(all[i] == d[i - net.len() - 1]);
            }
        }
    }
    is_ascii_chars_encode_utf8(all);
    is_ascii_chars_encode_utf8(net);
    is_ascii_chars_encode_utf8(d);
    let e = encode_utf8(all);
    let want = encode_utf8(net) + seq![47u8] + encode_utf8(d);
    assert forall|i: int| 0 <= i < e.len() implies e[i] == want[i] by {
        assert(all[i] as u8 == e[i]);
        if i < net.len() {
            assert(all[i] == net[i]);
            assert(net[i] as u8 == encode_utf8(net)[i]);
        } else if i > net.len() {
            assert(all[i] == d[i - net.len() - 1]);
            assert(d[i - net.len() - 1] as u8 == encode_utf8(d)[i - net.len() - 1]);
        }
    }
    assert(e =~= want);
    assert forall|k: int| 0 <= k < net.len() implies e[k] != 47 by {
        assert(all[k] == net[k]);
        assert(all[k] as u8 == e[k]);
        assert(net[k] != '/');
    }
    crate::text::lemma_find_first_at(e, 47, net.len() as int);
    assert(e.take(net.len() as int) =~= encode_utf8(net));
    assert(e.skip(net.len() as int + 1) =~= encode_utf8(d));
}

/// Four octets give the same 32-bit value only when they are the same.
proof fn lemma_ipv4_value_injective(a: Seq<u8>, p: Seq<u8>)
    requires
        a.len() == 4,
        p.len() == 4,
        ipv4_value(a) == ipv4_value(p),
    ensures
        a == p,
{
    let (a0, a1, a2, a3) = (a[0] as int, a[1] as int, a[2] as int, a[3] as int);
    let (p0, p1, p2, p3) = (p[0] as int, p[1] as int, p[2] as int, p[3] as int);
    assert(a0 == p0 && a1 == p1 && a2 == p2 && a3 == p3) by (nonlinear_arith)
        requires
            0 <= a0 < 256,
            0 <= a1 < 256,
            0 <= a2 < 256,
            0 <= a3 < 256,
            0 <= p0 < 256,
            0 <= p1 < 256,
            0 <= p2 < 256,
            0 <= p3 < 256,
            a0 * 16777216 + a1 * 65536 + a2 * 256 + a3 == p0 * 16777216 + p1 * 65536 + p2 * 256 + p3,
    ;
    assert(a =~= p);
}

/// A `/32` block holds exactly its own address, and a `/0` block every
/// address: for a network text `net` without `/`, an address lies in
/// `net/32` exactly when both have four octets and they are the same, and
/// in `net/0` exactly when both have four octets.
pub proof fn lemma_cidr_extremes(ip: Seq<char>, net: Seq<char>)
    requires
        is_ascii_chars(net),
        forall|i: int| 0 <= i < net.len() ==> net[i] != '/',
    ensures
        ip_in_cidr_spec(ip, net + "/32"@) <==> (dotted_octets(encode_utf8(ip)).len() == 4
            && dotted_octets(encode_utf8(ip)) == dotted_octets(encode_utf8(net))),
        ip_in_cidr_spec(ip, net + "/0"@) <==> (dotted_octets(encode_utf8(ip)).len() == 4
            && dotted_octets(encode_utf8(net)).len() == 4),
{
    reveal_strlit("/32");
    reveal_strlit("/0");
    let d32 = seq!['3', '2'];
    let d0 = seq!['0'];
    assert(net + "/32"@ =~= net + seq!['/'] + d32);
    assert(net + "/0"@ =~= net + seq!['/'] + d0);
    assert(is_ascii_chars(d32));
    assert(is_ascii_chars(d0));
    lemma_cidr_bytes(net, d32);
    lemma_cidr_bytes(net, d0);
    is_ascii_chars_encode_utf8(d32);
    is_ascii_chars_encode_utf8(d0);
    let e32 = encode_utf8(d32);
    let e0 = encode_utf8(d0);
    assert(e32 =~= seq![51u8, 50u8]);
    assert(e0 =~= seq![48u8]);
    assert(e32.drop_last() =~= seq![51u8]);
    assert(seq![51u8].drop_last() =~= Seq::<u8>::empty());
    assert(digits_value(Seq::<u8>::empty()) == 0);
    assert(seq![51u8].last() == 51u8);
    assert(digits_value(seq![51u8]) == digits_value(seq![51u8].drop_last()) * 10 + 3);
    assert(digits_value(seq![51u8]) == 3);
    assert(e32.last() == 50u8);
    assert(digits_value(e32) == 32);
    assert(digits_value(e0) == 0) by {
        assert(e0.drop_last() =~= Seq::<u8>::empty());
    }
    assert(parse_unsigned(e32, 4294967295) == Some(32nat));
    assert(parse_unsigned(e0, 4294967295) == Some(0nat));
    let a = dotted_octets(encode_utf8(ip));
    let p = dotted_octets(encode_utf8(net));
    lemma2_to64();
    if a.len() == 4 && p.len() == 4 {
        assert(ipv4_value(a) < 4294967296 && ipv4_value(p) < 4294967296) by {
            assert(ipv4_value(a) <= 255 * 16777216 + 255 * 65536 + 255 * 256 + 255);
            assert(ipv4_value(p) <= 255 * 16777216 + 255 * 65536 + 255 * 256 + 255);
        }
        assert(ipv4_value(a) / 4294967296 == 0);
        assert(ipv4_value(p) / 4294967296 == 0);
        assert(ipv4_value(a) / 1 == ipv4_value(a));
        assert(ipv4_value(p) / 1 == ipv4_value(p));
        if ipv4_value(a) == ipv4_value(p) {
            lemma_ipv4_value_injective(a, p);
        }
    }
}


/// The address picked for an interface is its first address outside
/// `169.254.0.0/16` (text starting `169.254.`): one of its addresses, not
/// link-local, with every address before it link-local; none only when all
/// are link-local.
pub proof fn lemma_first_routable(ips: Seq<Seq<char>>)
    ensures
        first_routable(ips) is None <==> forall|i: int|
            0 <= i < ips.len() ==> text_starts_with(#[trigger] ips[i], "169.254."@),
        first_routable(ips) matches Some(x) ==> exists|i: int|
            0 <= i < ips.len() && #[trigger] ips[i] == x && !text_starts_with(x, "169.254."@) && forall|j: int|
                0 <= j < i ==> text_starts_with(#[trigger] ips[j], "169.254."@),
{
    let f = |ip: Seq<char>| if !is_link_local_spec(ip) {
        Some(ip)
    } else {
        None
    };
    let pred = |ip: Seq<char>| !is_link_local_spec(ip);
    lemma_filter_is_filter_map(ips, pred, f);
    lemma_filter_map_first(ips, f);
    if ips.filter(pred).len() > 0 {
        let i = choose|i: int|
            0 <= i < ips.len() && #[trigger] f(ips[i]) == Some(ips.filter_map(f)[0]) && forall|j: int|
                0 <= j < i ==> (#[trigger] f(ips[j])) is None;
        assert(ips[i] == ips.filter(pred)[0]);
        assert forall|j: int| 0 <= j < i implies text_starts_with(#[trigger] ips[j], "169.254."@) by {
            assert(f(ips[j]) is None);
        }
    } else {
        assert forall|i: int| 0 <= i < ips.len() implies text_starts_with(#[trigger] ips[i], "169.254."@) by {
            if !text_starts_with(ips[i], "169.254."@) {
                assert(f(ips[i]) is Some);
            }
        }
    }
}

/// A filter is the `filter_map` that keeps what passes.
proof fn lemma_filter_is_filter_map(
    x: Seq<Seq<char>>,
    pred: spec_fn(Seq<char>) -> bool,
    f: spec_fn(Seq<char>) -> Option<Seq<char>>,
)
    requires
        forall|y: Seq<char>| #[trigger] f(y) == (if pred(y) {
            Some(y)
        } else {
            None
        }),
    ensures
        x.filter(pred) == x.filter_map(f),
    decreases x.len(),
{
    reveal(Seq::filter);
    if x.len() > 0 {
        lemma_filter_is_filter_map(x.drop_last(), pred, f);
        assert(f(x.last()) == (if pred(x.last()) {
            Some(x.last())
        } else {
            None
        }));
        if pred(x.last()) {
            assert(x.filter(pred) =~= x.drop_last().filter(pred).push(x.last()));
            assert(x.filter_map(f) =~= x.drop_last().filter_map(f) + seq![x.last()]);
        }
    }
}

} // verus!
