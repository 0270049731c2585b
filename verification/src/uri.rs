//! `vless://` share links: parsing into a [`ServerConfig`] and formatting
//! back, including the L3 `vnet*` parameters, plus the percent-encoding
//! used in them.
use vstd::prelude::*;
use vstd::utf8::*;

use crate::models::{
    opt_chars, opt_vnet_view, AppError, AppErrorView, RealitySettings, RealityView, ServerConfig, ServerView,
    VirtualNetSettings, VirtualNetView,
};
use crate::subscription::decimal_text;
use crate::text::{
    all_digits, copy_range, decimal_digits, digits_value, find_byte, find_first, find_last,
    lemma_find_first_char, parse_unsigned, parse_unsigned_range, push_all, push_decimal,
    range_eq, range_starts_with, rfind_byte, str_trim, string_from_utf8_lossy, string_of,
    trim_chars, utf8_lossy,
};

verus! {

// ---------------------------------------------------------------------------
// Byte constants
// ---------------------------------------------------------------------------

pub open spec fn vless_prefix() -> Seq<u8> {
    seq![118u8, 108, 101, 115, 115, 58, 47, 47]
}

pub open spec fn key_flow() -> Seq<u8> {
    seq![102u8, 108, 111, 119]
}

pub open spec fn key_sni() -> Seq<u8> {
    seq![115u8, 110, 105]
}

pub open spec fn key_fp() -> Seq<u8> {
    seq![102u8, 112]
}

pub open spec fn key_pbk() -> Seq<u8> {
    seq![112u8, 98, 107]
}

pub open spec fn key_sid() -> Seq<u8> {
    seq![115u8, 105, 100]
}

pub open spec fn key_vnet() -> Seq<u8> {
    seq![118u8, 110, 101, 116]
}

pub open spec fn key_vnet_subnet() -> Seq<u8> {
    seq![118u8, 110, 101, 116, 83, 117, 98, 110, 101, 116]
}

pub open spec fn key_vnet_ip() -> Seq<u8> {
    seq![118u8, 110, 101, 116, 73, 112]
}

pub open spec fn key_vnet_mtu() -> Seq<u8> {
    seq![118u8, 110, 101, 116, 77, 116, 117]
}

pub open spec fn key_vnet_default_route() -> Seq<u8> {
    seq![118u8, 110, 101, 116, 68, 101, 102, 97, 117, 108, 116, 82, 111, 117, 116, 101]
}

pub open spec fn key_encryption() -> Seq<u8> {
    seq![101u8, 110, 99, 114, 121, 112, 116, 105, 111, 110]
}

pub open spec fn key_type() -> Seq<u8> {
    seq![116u8, 121, 112, 101]
}

pub open spec fn key_security() -> Seq<u8> {
    seq![115u8, 101, 99, 117, 114, 105, 116, 121]
}

pub open spec fn val_none() -> Seq<u8> {
    seq![110u8, 111, 110, 101]
}

pub open spec fn val_tcp() -> Seq<u8> {
    seq![116u8, 99, 112]
}

pub open spec fn val_reality() -> Seq<u8> {
    seq![114u8, 101, 97, 108, 105, 116, 121]
}

// ---------------------------------------------------------------------------
// Percent-encoding
// ---------------------------------------------------------------------------

/// The value of a hexadecimal digit.
pub open spec fn hex_value(b: u8) -> Option<u8> {
    if 48 <= b <= 57 {
        Some((b - 48) as u8)
    } else if 97 <= b <= 102 {
        Some((b - 97 + 10) as u8)
    } else if 65 <= b <= 70 {
        Some((b - 65 + 10) as u8)
    } else {
        None
    }
}

/// The upper-case hexadecimal digit of `n < 16`.
pub open spec fn hex_upper(n: u8) -> u8 {
    if n < 10 {
        (n + 48) as u8
    } else {
        (n + 55) as u8
    }
}

/// Bytes that percent-encoding leaves as they are.
pub open spec fn is_unreserved(b: u8) -> bool {
    (65 <= b <= 90) || (97 <= b <= 122) || (48 <= b <= 57) || b == 45 || b == 95 || b == 46 || b
        == 126
}

pub open spec fn encode_byte(b: u8) -> Seq<u8> {
    if is_unreserved(b) {
        seq![b]
    } else {
        seq![37u8, hex_upper(b >> 4u8), hex_upper(b & 15u8)]
    }
}

/// Every byte outside `A-Z a-z 0-9 - _ . ~` becomes `%XX` (upper case).
pub open spec fn percent_encode(b: Seq<u8>) -> Seq<u8>
    decreases b.len(),
{
    if b.len() == 0 {
        seq![]
    } else {
        encode_byte(b[0]) + percent_encode(b.drop_first())
    }
}

/// `%XX` with two hexadecimal digits becomes that byte, `+` becomes a
/// space, anything else stays.
pub open spec fn percent_decode(b: Seq<u8>) -> Seq<u8>
    decreases b.len(),
{
    if b.len() == 0 {
        seq![]
    } else if b[0] == 37 && b.len() >= 3 && hex_value(b[1]) is Some && hex_value(b[2]) is Some {
        seq![(hex_value(b[1]).unwrap() * 16 + hex_value(b[2]).unwrap()) as u8] + percent_decode(
            b.skip(3),
        )
    } else if b[0] == 43 {
        seq![32u8] + percent_decode(b.skip(1))
    } else {
        seq![b[0]] + percent_decode(b.skip(1))
    }
}

/// The text a percent-encoded value stands for.
pub open spec fn url_decode_spec(b: Seq<u8>) -> Seq<char> {
    utf8_lossy(percent_decode(b))
}

/// The percent-encoding of the UTF-8 bytes of `s`.
pub open spec fn url_encode_spec(s: Seq<char>) -> Seq<u8> {
    percent_encode(encode_utf8(s))
}

fn hex_digit_value(b: u8) -> (r: Option<u8>)
    ensures
        r == hex_value(b),
{
    if 48 <= b && b <= 57 {
        Some(b - 48)
    } else if 97 <= b && b <= 102 {
        Some(b - 97 + 10)
    } else if 65 <= b && b <= 70 {
        Some(b - 65 + 10)
    } else {
        None
    }
}

/// The percent-decoding of `b[lo..hi]`.
pub fn percent_decode_range(b: &[u8], lo: usize, hi: usize) -> (r: Vec<u8>)
    requires
        lo <= hi <= b@.len(),
    ensures
        r@ == percent_decode(b@.subrange(lo as int, hi as int)),
{
    let mut out: Vec<u8> = Vec::new();
    let mut i = lo;
    while i < hi
        invariant
            lo <= i <= hi <= b@.len(),
            out@ + percent_decode(b@.subrange(i as int, hi as int)) == percent_decode(
                b@.subrange(lo as int, hi as int),
            ),
        decreases hi - i,
    {
        let ghost cur = b@.subrange(i as int, hi as int);
        if b[i] == 37 && hi - i > 2 {
            let h = hex_digit_value(b[i + 1]);
            let l = hex_digit_value(b[i + 2]);
            if h.is_some() && l.is_some() {
                let hv = h.unwrap();
                let lv = l.unwrap();
                assert(hv < 16 && lv < 16);
                let byte = (hv << 4u8) | lv;
                assert(byte == (hv * 16 + lv) as u8) by (bit_vector)
                    requires
                        hv < 16 && lv < 16 && byte == (hv << 4u8) | lv,
                ;
                assert(cur[0] == b[i as int] && cur[1] == b[i + 1] && cur[2] == b[i + 2]);
                assert(cur.skip(3) =~= b@.subrange(i + 3, hi as int));
                out.push(byte);
                assert(out@ + percent_decode(b@.subrange(i + 3, hi as int)) =~= out@.drop_last()
                    + percent_decode(cur));
                i = i + 3;
                continue;
            }
        }
        assert(cur[0] == b[i as int]);
        assert(cur.skip(1) =~= b@.subrange(i + 1, hi as int));
        if b[i] == 43 {
            out.push(32);
        } else {
            out.push(b[i]);
        }
        assert(out@ + percent_decode(b@.subrange(i + 1, hi as int)) =~= out@.drop_last()
            + percent_decode(cur));
        i = i + 1;
    }
    assert(b@.subrange(hi as int, hi as int) =~= Seq::<u8>::empty());
    assert(out@ + percent_decode(b@.subrange(hi as int, hi as int)) =~= out@);
    out
}

/// Decodes a percent-encoded string: `%XX` becomes that byte, `+` a space,
/// and the bytes are read as UTF-8 (invalid sequences replaced).
pub fn url_decode(s: &str) -> (r: String)
    ensures
        r@ == url_decode_spec(encode_utf8(s@)),
{
    let b = s.as_bytes();
    let v = percent_decode_range(b, 0, b.len());
    assert(b@.subrange(0, b@.len() as int) =~= b@);
    string_from_utf8_lossy(v.as_slice())
}

fn hex_upper_digit(n: u8) -> (r: u8)
    requires
        n < 16,
    ensures
        r == hex_upper(n),
{
    if n < 10 {
        n + 48
    } else {
        n + 55
    }
}

/// Appends the percent-encoding of `b` to `v`.
pub fn push_percent_encoded(v: &mut Vec<u8>, b: &[u8])
    ensures
        final(v)@ == old(v)@ + percent_encode(b@),
{
    let ghost v0 = v@;
    let mut i: usize = 0;
    assert(b@.skip(0) =~= b@);
    while i < b.len()
        invariant
            i <= b@.len(),
            v@ + percent_encode(b@.skip(i as int)) == v0 + percent_encode(b@),
        decreases b@.len() - i,
    {
        let c = b[i];
        let ghost before = v@;
        assert(b@.skip(i as int).drop_first() =~= b@.skip(i + 1));
        assert(b@.skip(i as int)[0] == c);
        let unreserved = (65 <= c && c <= 90) || (97 <= c && c <= 122) || (48 <= c && c <= 57)
            || c == 45 || c == 95 || c == 46 || c == 126;
        if unreserved {
            v.push(c);
            assert(v@ =~= before + seq![c]);
        } else {
            let hi = c >> 4u8;
            let lo = c & 15u8;
            assert(hi < 16 && lo < 16) by (bit_vector)
                requires
                    hi == c >> 4u8 && lo == c & 15u8,
            ;
            v.push(37);
            v.push(hex_upper_digit(hi));
            v.push(hex_upper_digit(lo));
            assert(v@ =~= before + seq![37u8, hex_upper(c >> 4u8), hex_upper(c & 15u8)]);
        }
        assert(v@ + percent_encode(b@.skip(i + 1)) =~= before + percent_encode(b@.skip(i as int)));
        i = i + 1;
    }
    assert(b@.skip(b@.len() as int) =~= Seq::<u8>::empty());
    assert(b@.skip(0) =~= b@);
    assert(v@ + percent_encode(b@.skip(i as int)) =~= v@);
}

/// Percent-encodes the UTF-8 bytes of `s` (see [`percent_encode`]).
pub fn url_encode(s: &str) -> (r: String)
    ensures
        r@ == utf8_lossy(url_encode_spec(s@)),
{
    let mut v: Vec<u8> = Vec::new();
    push_percent_encoded(&mut v, s.as_bytes());
    assert(v@ =~= url_encode_spec(s@));
    string_from_utf8_lossy(v.as_slice())
}

// ---------------------------------------------------------------------------
// Splitting and IPv4 checks
// ---------------------------------------------------------------------------

/// `str::split` on a single byte: the pieces between separators, always at
/// least one.
pub open spec fn split_on(b: Seq<u8>, c: u8) -> Seq<Seq<u8>>
    decreases b.len(),
{
    match find_first(b, c) {
        None => seq![b],
        Some(i) => if 0 <= i < b.len() {
            seq![b.take(i)] + split_on(b.skip(i + 1), c)
        } else {
            seq![b]
        },
    }
}

pub proof fn lemma_split_on_step(b: Seq<u8>, c: u8)
    ensures
        find_first(b, c) matches Some(i) ==> split_on(b, c) == seq![b.take(i)] + split_on(
            b.skip(i + 1),
            c,
        ),
        find_first(b, c) is None ==> split_on(b, c) == seq![b],
{
    lemma_find_first_char(b, c);
}

/// One dotted-quad component: one to three decimal digits, at most 255.
pub open spec fn ipv4_octet_ok(p: Seq<u8>) -> bool {
    0 < p.len() <= 3 && all_digits(p) && digits_value(p) <= 255
}

/// A dotted-quad IPv4 address without a prefix length.
pub open spec fn is_ipv4_literal_spec(b: Seq<u8>) -> bool {
    let parts = split_on(b, 46);
    parts.len() == 4 && forall|i: int| 0 <= i < 4 ==> ipv4_octet_ok(#[trigger] parts[i])
}

/// `a.b.c.d/n` with a dotted-quad address and `n <= 32`.
pub open spec fn is_valid_ipv4_cidr_spec(b: Seq<u8>) -> bool {
    match find_first(b, 47) {
        None => false,
        Some(i) => match parse_unsigned(b.skip(i + 1), 255) {
            Some(n) => n <= 32 && is_ipv4_literal_spec(b.take(i)),
            None => false,
        },
    }
}

fn octet_ok(b: &[u8], lo: usize, hi: usize) -> (r: bool)
    requires
        lo <= hi <= b@.len(),
    ensures
        r == ipv4_octet_ok(b@.subrange(lo as int, hi as int)),
{
    let ghost p = b@.subrange(lo as int, hi as int);
    if hi == lo || hi - lo > 3 {
        return false;
    }
    let mut k = lo;
    while k < hi
        invariant
            lo <= k <= hi <= b@.len(),
            p == b@.subrange(lo as int, hi as int),
            forall|j: int| lo <= j < k ==> 48 <= #[trigger] b@[j] <= 57,
        decreases hi - k,
    {
        if b[k] < 48 || b[k] > 57 {
            assert(p[k - lo] == b@[k as int]);
            return false;
        }
        k = k + 1;
    }
    assert(all_digits(p)) by {
        assert forall|i: int| 0 <= i < p.len() implies 48 <= #[trigger] p[i] <= 57 by {
            assert(p[i] == b@[lo + i]);
        }
    }
    match parse_unsigned_range(b, lo, hi, 65535) {
        Some(v) => {
            assert(p[0] != 43);
            v <= 255
        },
        None => {
            assert(p[0] != 43);
            false
        },
    }
}

/// True when `b[lo..hi]` is a dotted-quad IPv4 address.
pub fn ipv4_literal_range(b: &[u8], lo: usize, hi: usize) -> (r: bool)
    requires
        lo <= hi <= b@.len(),
    ensures
        r == is_ipv4_literal_spec(b@.subrange(lo as int, hi as int)),
{
    let ghost whole = b@.subrange(lo as int, hi as int);
    let ghost mut done: Seq<Seq<u8>> = Seq::empty();
    let mut count: usize = 0;
    let mut all_ok = true;
    let mut start = lo;
    assert(split_on(whole, 46) =~= done + split_on(b@.subrange(start as int, hi as int), 46));
    loop
        invariant
            lo <= start <= hi <= b@.len(),
            whole == b@.subrange(lo as int, hi as int),
            split_on(whole, 46) == done + split_on(b@.subrange(start as int, hi as int), 46),
            count == done.len(),
            count <= 4,
            all_ok == forall|i: int| 0 <= i < done.len() ==> ipv4_octet_ok(#[trigger] done[i]),
        decreases hi - start,
    {
        let ghost cur = b@.subrange(start as int, hi as int);
        proof {
            lemma_split_on_step(cur, 46);
        }
        match find_byte(b, start, hi, 46) {
            Some(k) => {
                let ghost piece = b@.subrange(start as int, k as int);
                let ghost rest = b@.subrange(k + 1, hi as int);
                assert(cur.take(k - start) =~= piece);
                assert(cur.skip(k - start + 1) =~= rest);
                let ok = octet_ok(b, start, k);
                let ghost old_done = done;
                proof {
                    done = done.push(piece);
                    assert(split_on(whole, 46) =~= done + split_on(rest, 46));
                }
                if count == 4 {
                    proof {
                        lemma_split_on_len(rest, 46);
                        assert(split_on(whole, 46).len() == done.len() + split_on(rest, 46).len());
                    }
                    return false;
                }
                proof {
                    assert forall|i: int| 0 <= i < old_done.len() implies done[i] == old_done[i] by {}
                    assert(done[old_done.len() as int] == piece);
                    if all_ok && ok {
                        assert forall|i: int| 0 <= i < done.len() implies ipv4_octet_ok(
                            #[trigger] done[i],
                        ) by {
                            if i < old_done.len() {
                                assert(old_done[i] == done[i]);
                            }
                        }
                    } else if !ok {
                        assert(!ipv4_octet_ok(done[old_done.len() as int]));
                    } else {
                        let j = choose|j: int| 0 <= j < old_done.len() && !ipv4_octet_ok(old_done[j]);
                        assert(done[j] == old_done[j]);
                    }
                }
                all_ok = all_ok && ok;
                count = count + 1;
                start = k + 1;
            },
            None => {
                let ok = octet_ok(b, start, hi);
                let ghost old_done = done;
                proof {
                    done = done.push(cur);
                    assert(split_on(whole, 46) =~= done);
                    assert forall|i: int| 0 <= i < old_done.len() implies done[i] == old_done[i] by {}
                    if all_ok && ok {
                        assert forall|i: int| 0 <= i < done.len() implies ipv4_octet_ok(
                            #[trigger] done[i],
                        ) by {
                            if i < old_done.len() {
                                assert(old_done[i] == done[i]);
                            }
                        }
                    } else if !ok {
                        assert(!ipv4_octet_ok(done[old_done.len() as int]));
                    } else {
                        let j = choose|j: int| 0 <= j < old_done.len() && !ipv4_octet_ok(old_done[j]);
                        assert(done[j] == old_done[j]);
                    }
                }
                return count + 1 == 4 && all_ok && ok;
            },
        }
    }
}

pub proof fn lemma_split_on_len(b: Seq<u8>, c: u8)
    ensures
        split_on(b, c).len() >= 1,
    decreases b.len(),
{
    lemma_find_first_char(b, c);
    if let Some(i) = find_first(b, c) {
        lemma_split_on_len(b.skip(i + 1), c);
    }
}

/// Strict IPv4 literal check: four dot-separated decimal octets 0-255, each
/// one to three digits, nothing else.
pub fn is_ipv4_literal(s: &str) -> (r: bool)
    ensures
        r == is_ipv4_literal_spec(encode_utf8(s@)),
{
    let b = s.as_bytes();
    assert(b@.subrange(0, b@.len() as int) =~= b@);
    ipv4_literal_range(b, 0, b.len())
}

/// IPv4 CIDR check: a dotted-quad address, `/`, and a prefix length of at
/// most 32.
pub fn is_valid_ipv4_cidr(s: &str) -> (r: bool)
    ensures
        r == is_valid_ipv4_cidr_spec(encode_utf8(s@)),
{
    let b = s.as_bytes();
    let ghost bs = b@;
    assert(bs.subrange(0, bs.len() as int) =~= bs);
    match find_byte(b, 0, b.len(), 47) {
        None => false,
        Some(i) => {
            assert(bs.skip(i + 1) =~= bs.subrange(i + 1, bs.len() as int));
            assert(bs.take(i as int) =~= bs.subrange(0, i as int));
            let p = parse_unsigned_range(b, i + 1, b.len(), 255);
            match p {
                Some(n) => {
                    if n <= 32 {
                        ipv4_literal_range(b, 0, i)
                    } else {
                        false
                    }
                },
                None => false,
            }
        },
    }
}

// ---------------------------------------------------------------------------
// Parsing: the mathematical reading of a share link
// ---------------------------------------------------------------------------

/// What the query string of a link sets, as it is read left to right.
pub struct QueryParams {
    pub flow: Seq<char>,
    pub sni: Seq<char>,
    pub fingerprint: Seq<char>,
    pub public_key: Seq<char>,
    pub short_id: Seq<char>,
    pub vnet: bool,
    pub vnet_subnet: Option<Seq<char>>,
    pub vnet_ip: Option<Seq<char>>,
    pub vnet_default_route: Option<bool>,
    pub vnet_mtu: Option<u32>,
}

/// Before any parameter: fingerprint `chrome`, everything else empty.
pub open spec fn query_init() -> QueryParams {
    QueryParams {
        flow: Seq::empty(),
        sni: Seq::empty(),
        fingerprint: seq!['c', 'h', 'r', 'o', 'm', 'e'],
        public_key: Seq::empty(),
        short_id: Seq::empty(),
        vnet: false,
        vnet_subnet: None,
        vnet_ip: None,
        vnet_default_route: None,
        vnet_mtu: None,
    }
}

/// `1` or `true`.
pub open spec fn is_true_word(v: Seq<char>) -> bool {
    v == seq!['1'] || v == seq!['t', 'r', 'u', 'e']
}

/// `0` or `false`.
pub open spec fn is_false_word(v: Seq<char>) -> bool {
    v == seq!['0'] || v == seq!['f', 'a', 'l', 's', 'e']
}

/// An address for the virtual network: an IPv4 address, alone or with its
/// prefix length (`10.10.0.5` or `10.10.0.5/24`).
pub open spec fn is_vnet_ip_spec(b: Seq<u8>) -> bool {
    is_ipv4_literal_spec(b) || is_valid_ipv4_cidr_spec(b)
}

/// An MTU value: the text parsed as a `u32`.
#[verifier::opaque]
pub open spec fn mtu_value(v: Seq<char>) -> Option<u32> {
    match parse_unsigned(encode_utf8(v), 4294967295) {
        Some(n) => Some(n as u32),
        None => None,
    }
}

/// The effect of the parameter `key` with the (decoded) value `v`; an
/// unknown key changes nothing, a `vnetSubnet` that is not an IPv4 CIDR, a
/// `vnetIp` that is neither an IPv4 address nor an IPv4 CIDR and a `vnetMtu` that is not a
/// `u32` are ignored.
pub open spec fn query_apply(q: QueryParams, key: Seq<u8>, v: Seq<char>) -> QueryParams {
    if key == key_flow() {
        QueryParams { flow: v, ..q }
    } else if key == key_sni() {
        QueryParams { sni: v, ..q }
    } else if key == key_fp() {
        QueryParams { fingerprint: v, ..q }
    } else if key == key_pbk() {
        QueryParams { public_key: v, ..q }
    } else if key == key_sid() {
        QueryParams { short_id: v, ..q }
    } else if key == key_vnet() {
        QueryParams { vnet: is_true_word(v), ..q }
    } else if key == key_vnet_subnet() {
        if is_valid_ipv4_cidr_spec(encode_utf8(v)) {
            QueryParams { vnet_subnet: Some(v), ..q }
        } else {
            q
        }
    } else if key == key_vnet_ip() {
        if is_vnet_ip_spec(encode_utf8(v)) {
            QueryParams { vnet_ip: Some(v), ..q }
        } else {
            q
        }
    } else if key == key_vnet_default_route() {
        QueryParams {
            vnet_default_route: if is_true_word(v) {
                Some(true)
            } else if is_false_word(v) {
                Some(false)
            } else {
                None
            },
            ..q
        }
    } else if key == key_vnet_mtu() {
        match mtu_value(v) {
            Some(n) => QueryParams { vnet_mtu: Some(n), ..q },
            None => q,
        }
    } else {
        q
    }
}

/// The effect of one piece of the query string: `key=value` split at the
/// first `=`, the value percent-decoded; a piece without `=` (the empty one
/// among them) changes nothing.
pub open spec fn query_step(q: QueryParams, piece: Seq<u8>) -> QueryParams {
    match find_first(piece, 61) {
        None => q,
        Some(e) => query_apply(q, piece.take(e), url_decode_spec(piece.skip(e + 1))),
    }
}

/// The pieces applied in order.
pub open spec fn query_fold(pieces: Seq<Seq<u8>>) -> QueryParams
    decreases pieces.len(),
{
    if pieces.len() == 0 {
        query_init()
    } else {
        query_step(query_fold(pieces.drop_last()), pieces.last())
    }
}

/// The subnet a virtual network gets when the link names none.
pub open spec fn default_vnet_subnet() -> Seq<char> {
    seq!['1', '0', '.', '0', '.', '0', '.', '0', '/', '2', '4']
}

/// The L3 settings a link asks for: only with `vnet` on and a (valid,
/// non-empty) `vnetIp`; the default route defaults to on.
pub open spec fn query_virtualnet(q: QueryParams) -> Option<VirtualNetView> {
    if q.vnet && (q.vnet_ip matches Some(ip) && ip.len() > 0) {
        Some(
            VirtualNetView {
                enabled: true,
                subnet: match q.vnet_subnet {
                    Some(s) => s,
                    None => default_vnet_subnet(),
                },
                vnet_ip: q.vnet_ip.unwrap(),
                default_route: match q.vnet_default_route {
                    Some(d) => d,
                    None => true,
                },
                interface_name: None,
                mtu: q.vnet_mtu,
            },
        )
    } else {
        None
    }
}

pub open spec fn config_error(m: Seq<char>) -> AppErrorView {
    AppErrorView::Config(m)
}

/// The port text: decimal, at most 65535.
pub open spec fn port_spec(addr: Seq<char>, ps: Seq<u8>) -> Result<(Seq<char>, u16), AppErrorView> {
    match parse_unsigned(ps, 65535) {
        Some(n) => Ok((addr, n as u16)),
        None => Err(config_error("Invalid port: "@ + utf8_lossy(ps))),
    }
}

/// `[v6]:port` or `host:port`, split at the last colon in the second form.
pub open spec fn host_port_spec(hp: Seq<u8>) -> Result<(Seq<char>, u16), AppErrorView> {
    if hp.len() > 0 && hp[0] == 91 {
        match find_first(hp, 93) {
            None => Err(config_error("Missing closing ] for IPv6 address"@)),
            Some(be) => {
                let ps = hp.skip(be + 1);
                if ps.len() > 0 && ps[0] == 58 {
                    port_spec(utf8_lossy(hp.subrange(1, be)), ps.skip(1))
                } else {
                    Err(config_error("Missing port after IPv6 address"@))
                }
            },
        }
    } else {
        match find_last(hp, 58) {
            None => Err(config_error("Missing port in vless URI"@)),
            Some(c) => port_spec(utf8_lossy(hp.take(c)), hp.skip(c + 1)),
        }
    }
}

/// A bracketed IPv6 host reads without its brackets: `[h]:p`, for an
/// ASCII host `h` without `]` and a port text `p` that reads as the number
/// `n`, gives the address `h` itself and the port `n`.
pub proof fn lemma_bracketed_host(h: Seq<char>, ps: Seq<u8>, n: nat)
    requires
        is_ascii_chars(h),
        forall|i: int| 0 <= i < h.len() ==> h[i] != ']',
        parse_unsigned(ps, 65535) == Some(n),
    ensures
        host_port_spec(seq![91u8] + encode_utf8(h) + seq![93u8, 58u8] + ps) == Ok::<
            (Seq<char>, u16),
            AppErrorView,
        >((h, n as u16)),
{
    let eh = encode_utf8(h);
    let hp = seq![91u8] + eh + seq![93u8, 58u8] + ps;
    is_ascii_chars_encode_utf8(h);
    let be: int = eh.len() as int + 1;
    assert forall|k: int| 0 <= k < be implies hp[k] != 93 by {
        if k > 0 {
            assert(hp[k] == eh[k - 1]);
            assert(h[k - 1] as u8 == eh[k - 1]);
            assert(h[k - 1] != ']');
        }
    }
    assert(hp[be] == 93);
    crate::text::lemma_find_first_at(hp, 93, be);
    assert(hp.skip(be + 1) =~= seq![58u8] + ps);
    assert(hp.skip(be + 1).skip(1) =~= ps);
    assert(hp.subrange(1, be) =~= eh);
    encode_utf8_valid_utf8(h);
    encode_utf8_decode_utf8(h);
}

/// The link without its `#name` part and the decoded name.
pub open spec fn split_fragment(rest: Seq<u8>) -> (Seq<u8>, Seq<char>) {
    match find_last(rest, 35) {
        Some(p) => (rest.take(p), url_decode_spec(rest.skip(p + 1))),
        None => (rest, Seq::empty()),
    }
}

/// `uuid@host:port` and the query string.
pub open spec fn split_query(rest: Seq<u8>) -> (Seq<u8>, Seq<u8>) {
    match find_first(rest, 63) {
        Some(p) => (rest.take(p), rest.skip(p + 1)),
        None => (rest, Seq::empty()),
    }
}

/// The server a link describes, from its `uuid@host:port` part, its query
/// string and its decoded name.
pub open spec fn server_from_parts(
    authority: Seq<u8>,
    query: Seq<u8>,
    name: Seq<char>,
    id: Seq<char>,
) -> Result<ServerView, AppErrorView> {
    match find_first(authority, 64) {
        None => Err(config_error("Missing @ in vless URI"@)),
        Some(at) => match host_port_spec(authority.skip(at + 1)) {
            Err(e) => Err(e),
            Ok((address, port)) => {
                let q = query_fold(split_on(query, 38));
                Ok(
                    ServerView {
                        id,
                        name,
                        address,
                        port,
                        uuid: utf8_lossy(authority.take(at)),
                        flow: q.flow,
                        reality: RealityView {
                            public_key: q.public_key,
                            short_id: q.short_id,
                            server_name: q.sni,
                            fingerprint: q.fingerprint,
                        },
                        virtualnet: query_virtualnet(q),
                        subscription_id: None,
                    },
                )
            },
        },
    }
}

/// What a (trimmed) share link given as UTF-8 bytes reads as, the server
/// getting the identifier `id`.
pub open spec fn parse_uri_spec(b: Seq<u8>, id: Seq<char>) -> Result<ServerView, AppErrorView> {
    if !(b.len() >= 8 && b.take(8) == vless_prefix()) {
        Err(config_error("URI must start with vless://"@))
    } else {
        let (rest, name) = split_fragment(b.skip(8));
        let (authority, query) = split_query(rest);
        server_from_parts(authority, query, name, id)
    }
}

/// The view of a parse result.
pub open spec fn server_result_view(r: Result<ServerConfig, AppError>) -> Result<ServerView, AppErrorView> {
    match r {
        Ok(s) => Ok(s@),
        Err(e) => Err(e@),
    }
}

// ---------------------------------------------------------------------------
// Parsing: the code
// ---------------------------------------------------------------------------

/// The percent-decoded text of `b[lo..hi]`.
fn decode_range(b: &[u8], lo: usize, hi: usize) -> (r: String)
    requires
        lo <= hi <= b@.len(),
    ensures
        r@ == url_decode_spec(b@.subrange(lo as int, hi as int)),
{
    let v = percent_decode_range(b, lo, hi);
    string_from_utf8_lossy(v.as_slice())
}

/// The text of `b[lo..hi]`.
fn text_range(b: &[u8], lo: usize, hi: usize) -> (r: String)
    requires
        lo <= hi <= b@.len(),
    ensures
        r@ == utf8_lossy(b@.subrange(lo as int, hi as int)),
{
    let v = copy_range(b, lo, hi);
    string_from_utf8_lossy(v.as_slice())
}

fn check_true_word(v: &str) -> (r: bool)
    ensures
        r == is_true_word(v@),
{
    let n = v.unicode_len();
    if n == 1 {
        let r = v.get_char(0) == '1';
        assert(r ==> v@ =~= seq!['1']);
        r
    } else if n == 4 {
        let r = v.get_char(0) == 't' && v.get_char(1) == 'r' && v.get_char(2) == 'u' && v.get_char(3)
            == 'e';
        assert(r ==> v@ =~= seq!['t', 'r', 'u', 'e']);
        r
    } else {
        false
    }
}

fn check_false_word(v: &str) -> (r: bool)
    ensures
        r == is_false_word(v@),
{
    let n = v.unicode_len();
    if n == 1 {
        let r = v.get_char(0) == '0';
        assert(r ==> v@ =~= seq!['0']);
        r
    } else if n == 5 {
        let r = v.get_char(0) == 'f' && v.get_char(1) == 'a' && v.get_char(2) == 'l' && v.get_char(3)
            == 's' && v.get_char(4) == 'e';
        assert(r ==> v@ =~= seq!['f', 'a', 'l', 's', 'e']);
        r
    } else {
        false
    }
}

/// The query parameters read so far.
struct QueryState {
    flow: String,
    sni: String,
    fingerprint: String,
    public_key: String,
    short_id: String,
    vnet: bool,
    vnet_subnet: Option<String>,
    vnet_ip: Option<String>,
    vnet_default_route: Option<bool>,
    vnet_mtu: Option<u32>,
}

impl View for QueryState {
    type V = QueryParams;

    closed spec fn view(&self) -> QueryParams {
        QueryParams {
            flow: self.flow@,
            sni: self.sni@,
            fingerprint: self.fingerprint@,
            public_key: self.public_key@,
            short_id: self.short_id@,
            vnet: self.vnet,
            vnet_subnet: opt_chars(self.vnet_subnet),
            vnet_ip: opt_chars(self.vnet_ip),
            vnet_default_route: self.vnet_default_route,
            vnet_mtu: self.vnet_mtu,
        }
    }
}

/// Applies the piece `b[lo..hi]` of a query string.
fn apply_query_piece(st: &mut QueryState, b: &[u8], lo: usize, hi: usize)
    requires
        lo <= hi <= b@.len(),
    ensures
        final(st)@ == query_step(old(st)@, b@.subrange(lo as int, hi as int)),
{
    let ghost piece = b@.subrange(lo as int, hi as int);
    let e = match find_byte(b, lo, hi, 61) {
        None => return ,
        Some(e) => e,
    };
    assert(piece.take(e - lo) =~= b@.subrange(lo as int, e as int));
    assert(piece.skip(e - lo + 1) =~= b@.subrange(e + 1, hi as int));
    let v = decode_range(b, e + 1, hi);
    if range_eq(b, lo, e, &[102, 108, 111, 119]) {
        st.flow = v;
    } else if range_eq(b, lo, e, &[115, 110, 105]) {
        st.sni = v;
    } else if range_eq(b, lo, e, &[102, 112]) {
        st.fingerprint = v;
    } else if range_eq(b, lo, e, &[112, 98, 107]) {
        st.public_key = v;
    } else if range_eq(b, lo, e, &[115, 105, 100]) {
        st.short_id = v;
    } else if range_eq(b, lo, e, &[118, 110, 101, 116]) {
        st.vnet = check_true_word(v.as_str());
    } else if range_eq(b, lo, e, &[118, 110, 101, 116, 83, 117, 98, 110, 101, 116]) {
        if is_valid_ipv4_cidr(v.as_str()) {
            st.vnet_subnet = Some(v);
        }
    } else if range_eq(b, lo, e, &[118, 110, 101, 116, 73, 112]) {
        if is_ipv4_literal(v.as_str()) || is_valid_ipv4_cidr(v.as_str()) {
            st.vnet_ip = Some(v);
        }
    } else if range_eq(
        b,
        lo,
        e,
        &[118, 110, 101, 116, 68, 101, 102, 97, 117, 108, 116, 82, 111, 117, 116, 101],
    ) {
        st.vnet_default_route = if check_true_word(v.as_str()) {
            Some(true)
        } else if check_false_word(v.as_str()) {
            Some(false)
        } else {
            None
        };
    } else if range_eq(b, lo, e, &[118, 110, 101, 116, 77, 116, 117]) {
        proof {
            reveal(mtu_value);
        }
        let vb = v.as_str().as_bytes();
        assert(vb@.subrange(0, vb@.len() as int) =~= vb@);
        match parse_unsigned_range(vb, 0, vb.len(), 4294967295) {
            Some(n) => {
                st.vnet_mtu = Some(n as u32);
            },
            None => {},
        }
    }
}

/// Reads the query string `b[lo..hi]`.
fn parse_query(b: &[u8], lo: usize, hi: usize) -> (st: QueryState)
    requires
        lo <= hi <= b@.len(),
    ensures
        st@ == query_fold(split_on(b@.subrange(lo as int, hi as int), 38)),
{
    let ghost whole = b@.subrange(lo as int, hi as int);
    let ghost mut done: Seq<Seq<u8>> = Seq::empty();
    let mut st = QueryState {
        flow: String::new(),
        sni: String::new(),
        fingerprint: string_of("chrome"),
        public_key: String::new(),
        short_id: String::new(),
        vnet: false,
        vnet_subnet: None,
        vnet_ip: None,
        vnet_default_route: None,
        vnet_mtu: None,
    };
    proof {
        reveal_strlit("chrome");
        assert("chrome"@ =~= seq!['c', 'h', 'r', 'o', 'm', 'e']);
        assert(st@ == query_init());
    }
    let mut start = lo;
    assert(split_on(whole, 38) =~= done + split_on(b@.subrange(start as int, hi as int), 38));
    loop
        invariant
            lo <= start <= hi <= b@.len(),
            whole == b@.subrange(lo as int, hi as int),
            split_on(whole, 38) == done + split_on(b@.subrange(start as int, hi as int), 38),
            st@ == query_fold(done),
        decreases hi - start,
    {
        let ghost cur = b@.subrange(start as int, hi as int);
        proof {
            lemma_split_on_step(cur, 38);
        }
        match find_byte(b, start, hi, 38) {
            Some(k) => {
                let ghost piece = b@.subrange(start as int, k as int);
                let ghost rest = b@.subrange(k + 1, hi as int);
                assert(cur.take(k - start) =~= piece);
                assert(cur.skip(k - start + 1) =~= rest);
                apply_query_piece(&mut st, b, start, k);
                proof {
                    let old_done = done;
                    done = done.push(piece);
                    assert(done.drop_last() =~= old_done);
                    assert(split_on(whole, 38) =~= done + split_on(rest, 38));
                }
                start = k + 1;
            },
            None => {
                apply_query_piece(&mut st, b, start, hi);
                proof {
                    let old_done = done;
                    done = done.push(cur);
                    assert(done.drop_last() =~= old_done);
                    assert(split_on(whole, 38) =~= done);
                }
                return st;
            },
        }
    }
}

/// The view of a host and port result.
pub open spec fn host_port_view(r: Result<(String, u16), AppError>) -> Result<(Seq<char>, u16), AppErrorView> {
    match r {
        Ok((a, p)) => Ok((a@, p)),
        Err(e) => Err(e@),
    }
}

fn parse_port(b: &[u8], lo: usize, hi: usize, addr: String) -> (r: Result<(String, u16), AppError>)
    requires
        lo <= hi <= b@.len(),
    ensures
        host_port_view(r) == port_spec(addr@, b@.subrange(lo as int, hi as int)),
{
    match parse_unsigned_range(b, lo, hi, 65535) {
        Some(n) => Ok((addr, n as u16)),
        None => {
            let t = text_range(b, lo, hi);
            Err(AppError::Config(string_of("Invalid port: ").concat(t.as_str())))
        },
    }
}

/// Splits `b[lo..hi]` into host and port.
fn parse_host_port(b: &[u8], lo: usize, hi: usize) -> (r: Result<(String, u16), AppError>)
    requires
        lo <= hi <= b@.len(),
    ensures
        host_port_view(r) == host_port_spec(b@.subrange(lo as int, hi as int)),
{
    let ghost hp = b@.subrange(lo as int, hi as int);
    if hi > lo && b[lo] == 91 {
        match find_byte(b, lo, hi, 93) {
            None => Err(AppError::Config(string_of("Missing closing ] for IPv6 address"))),
            Some(be) => {
                proof {
                    lemma_find_first_char(hp, 93);
                }
                assert(hp.skip(be - lo + 1) =~= b@.subrange(be + 1, hi as int));
                if hi > be + 1 && b[be + 1] == 58 {
                    assert(hp.skip(be - lo + 1).skip(1) =~= b@.subrange(be + 2, hi as int));
                    assert(hp.subrange(1, be - lo) =~= b@.subrange(lo + 1, be as int));
                    let addr = text_range(b, lo + 1, be);
                    parse_port(b, be + 2, hi, addr)
                } else {
                    Err(AppError::Config(string_of("Missing port after IPv6 address")))
                }
            },
        }
    } else {
        match rfind_byte(b, lo, hi, 58) {
            None => Err(AppError::Config(string_of("Missing port in vless URI"))),
            Some(c) => {
                assert(hp.take(c - lo) =~= b@.subrange(lo as int, c as int));
                assert(hp.skip(c - lo + 1) =~= b@.subrange(c + 1, hi as int));
                let addr = text_range(b, lo, c);
                parse_port(b, c + 1, hi, addr)
            },
        }
    }
}

/// The L3 settings the query asks for.
fn query_virtualnet_exec(q: QueryState) -> (r: Option<VirtualNetSettings>)
    ensures
        opt_vnet_view(r) == query_virtualnet(q@),
{
    let vnet_on = match &q.vnet_ip {
        Some(ip) => q.vnet && ip.as_str().unicode_len() > 0,
        None => false,
    };
    if vnet_on {
        proof {
            reveal_strlit("10.0.0.0/24");
            assert("10.0.0.0/24"@ =~= default_vnet_subnet());
        }
        Some(
            VirtualNetSettings {
                enabled: true,
                subnet: match q.vnet_subnet {
                    Some(s) => s,
                    None => string_of("10.0.0.0/24"),
                },
                vnet_ip: q.vnet_ip.unwrap(),
                default_route: match q.vnet_default_route {
                    Some(d) => d,
                    None => true,
                },
                interface_name: None,
                mtu: q.vnet_mtu,
            },
        )
    } else {
        None
    }
}

/// The server from `b[a_lo..a_hi]` (`uuid@host:port`), the query string
/// `b[q_lo..q_hi]` and the decoded name.
fn server_from_parts_exec(
    b: &[u8],
    a_lo: usize,
    a_hi: usize,
    q_lo: usize,
    q_hi: usize,
    name: String,
    id: String,
) -> (r: Result<ServerConfig, AppError>)
    requires
        a_lo <= a_hi <= b@.len(),
        q_lo <= q_hi <= b@.len(),
    ensures
        server_result_view(r) == server_from_parts(
            b@.subrange(a_lo as int, a_hi as int),
            b@.subrange(q_lo as int, q_hi as int),
            name@,
            id@,
        ),
{
    let ghost authority = b@.subrange(a_lo as int, a_hi as int);
    let at = match find_byte(b, a_lo, a_hi, 64) {
        None => {
            return Err(AppError::Config(string_of("Missing @ in vless URI")));
        },
        Some(at) => at,
    };
    assert(authority.take(at - a_lo) =~= b@.subrange(a_lo as int, at as int));
    assert(authority.skip(at - a_lo + 1) =~= b@.subrange(at + 1, a_hi as int));
    let (address, port) = match parse_host_port(b, at + 1, a_hi) {
        Err(e) => {
            return Err(e);
        },
        Ok(hp) => hp,
    };
    let uuid = text_range(b, a_lo, at);
    let q = parse_query(b, q_lo, q_hi);
    let ghost qv = q@;
    let flow = q.flow;
    let public_key = q.public_key;
    let short_id = q.short_id;
    let sni = q.sni;
    let fingerprint = q.fingerprint;
    let virtualnet = query_virtualnet_exec(QueryState {
        flow: String::new(),
        sni: String::new(),
        fingerprint: String::new(),
        public_key: String::new(),
        short_id: String::new(),
        vnet: q.vnet,
        vnet_subnet: q.vnet_subnet,
        vnet_ip: q.vnet_ip,
        vnet_default_route: q.vnet_default_route,
        vnet_mtu: q.vnet_mtu,
    });
    Ok(
        ServerConfig {
            id,
            name,
            address,
            port,
            uuid,
            flow,
            reality: RealitySettings { public_key, short_id, server_name: sni, fingerprint },
            virtualnet,
            subscription_id: None,
        },
    )
}

/// Reads a share link, giving the server the identifier `id`.
pub fn parse_vless_uri_with_id(uri: &str, id: String) -> (r: Result<ServerConfig, AppError>)
    ensures
        server_result_view(r) == parse_uri_spec(encode_utf8(trim_chars(uri@)), id@),
{
    let t = str_trim(uri);
    let b = t.as_bytes();
    let n = b.len();
    let ghost bs = b@;
    if !range_starts_with(b, 0, n, &[118, 108, 101, 115, 115, 58, 47, 47]) {
        assert(bs.subrange(0, 8) =~= bs.take(8));
        return Err(AppError::Config(string_of("URI must start with vless://")));
    }
    assert(bs.subrange(0, 8) =~= bs.take(8));
    let ghost rest = bs.skip(8);
    assert(rest =~= bs.subrange(8, n as int));
    let (e1, name) = match rfind_byte(b, 8, n, 35) {
        Some(k) => {
            assert(rest.take(k - 8) =~= bs.subrange(8, k as int));
            assert(rest.skip(k - 8 + 1) =~= bs.subrange(k + 1, n as int));
            (k, decode_range(b, k + 1, n))
        },
        None => (n, String::new()),
    };
    let ghost rest1 = bs.subrange(8, e1 as int);
    assert(split_fragment(rest).0 == rest1);
    assert(split_fragment(rest).1 == name@);
    let (a_end, q_lo) = match find_byte(b, 8, e1, 63) {
        Some(k) => {
            assert(rest1.take(k - 8) =~= bs.subrange(8, k as int));
            assert(rest1.skip(k - 8 + 1) =~= bs.subrange(k + 1, e1 as int));
            (k, k + 1)
        },
        None => {
            assert(bs.subrange(e1 as int, e1 as int) =~= Seq::<u8>::empty());
            (e1, e1)
        },
    };
    assert(split_query(rest1).0 == bs.subrange(8, a_end as int));
    assert(split_query(rest1).1 == bs.subrange(q_lo as int, e1 as int));
    server_from_parts_exec(b, 8, a_end, q_lo, e1, name, id)
}

// ---------------------------------------------------------------------------
// A fresh identifier
// ---------------------------------------------------------------------------

/// The text of a random version-4 UUID: 36 characters, lower-case
/// hexadecimal digits with dashes at 8, 13, 18 and 23, the version digit `4`
/// at 14 and one of `8 9 a b` at 19.
pub open spec fn is_uuid_v4_text(s: Seq<char>) -> bool {
    &&& s.len() == 36
    &&& forall|i: int|
        0 <= i < 36 ==> if i == 8 || i == 13 || i == 18 || i == 23 {
            #[trigger] s[i] == '-'
        } else {
            ('0' <= s[i] <= '9') || ('a' <= s[i] <= 'f')
        }
    &&& s[14] == '4'
    &&& (s[19] == '8' || s[19] == '9' || s[19] == 'a' || s[19] == 'b')
}

/// `uuid::Uuid::new_v4()` formatted with `to_string`: random bits with the
/// version and variant bits set, printed hyphenated in lower case. Which
/// value comes out is left open: it is random.
#[verifier::external_body]
pub(crate) fn new_uuid_v4_string() -> (r: String)
    ensures
        is_uuid_v4_text(r@),
{
    uuid::Uuid::new_v4().to_string()
}

/// Reads a share link `vless://UUID@HOST:PORT?PARAMS#NAME` (surrounding
/// whitespace ignored) into a server with a fresh random identifier. The
/// result is the reading [`parse_uri_spec`] describes, for the identifier
/// that was drawn; an error does not depend on it.
pub fn parse_vless_uri(uri: &str) -> (r: Result<ServerConfig, AppError>)
    ensures
        r matches Ok(s) ==> is_uuid_v4_text(s@.id) && parse_uri_spec(
            encode_utf8(trim_chars(uri@)),
            s@.id,
        ) == Ok::<ServerView, AppErrorView>(s@),
        r matches Err(e) ==> forall|id: Seq<char>|
            parse_uri_spec(encode_utf8(trim_chars(uri@)), id) == Err::<ServerView, AppErrorView>(e@),
{
    let id = new_uuid_v4_string();
    let ghost fresh = id@;
    let r = parse_vless_uri_with_id(uri, id);
    proof {
        if let Err(e) = &r {
            assert forall|id: Seq<char>|
                parse_uri_spec(encode_utf8(trim_chars(uri@)), id) == Err::<ServerView, AppErrorView>(e@) by {
                lemma_parse_error_ignores_id(encode_utf8(trim_chars(uri@)), id, fresh);
            }
        }
    }
    r
}

/// Whether parsing fails, and with which error, does not depend on the
/// identifier the server would get.
pub proof fn lemma_parse_error_ignores_id(b: Seq<u8>, id1: Seq<char>, id2: Seq<char>)
    ensures
        parse_uri_spec(b, id1) is Err ==> parse_uri_spec(b, id1) == parse_uri_spec(b, id2),
{
}

// ---------------------------------------------------------------------------
// Formatting
// ---------------------------------------------------------------------------

/// `key=value`.
pub open spec fn kv(key: Seq<u8>, value: Seq<u8>) -> Seq<u8> {
    key + seq![61u8] + value
}

/// The pieces joined with `sep` between them.
pub open spec fn join_on(pieces: Seq<Seq<u8>>, sep: u8) -> Seq<u8>
    decreases pieces.len(),
{
    if pieces.len() == 0 {
        Seq::empty()
    } else if pieces.len() == 1 {
        pieces[0]
    } else {
        pieces[0] + seq![sep] + join_on(pieces.drop_first(), sep)
    }
}

pub proof fn lemma_join_on_push(pieces: Seq<Seq<u8>>, x: Seq<u8>, sep: u8)
    requires
        pieces.len() > 0,
    ensures
        join_on(pieces.push(x), sep) == join_on(pieces, sep) + seq![sep] + x,
    decreases pieces.len(),
{
    if pieces.len() == 1 {
        assert(pieces.push(x).drop_first() =~= seq![x]);
        assert(join_on(seq![x], sep) == x);
    } else {
        lemma_join_on_push(pieces.drop_first(), x, sep);
        assert(pieces.push(x).drop_first() =~= pieces.drop_first().push(x));
    }
}

/// The decimal text of an MTU.
pub open spec fn mtu_text(m: u32) -> Seq<char> {
    utf8_lossy(decimal_digits(m as nat))
}

/// The `vnet*` pieces: only for an enabled virtual network; subnet and
/// address only when non-empty, the MTU when there is one.
pub open spec fn vnet_pieces(vn: Option<VirtualNetView>) -> Seq<Seq<u8>> {
    match vn {
        Some(v) => if v.enabled {
            seq![kv(key_vnet(), seq![49u8])] + (if v.subnet.len() > 0 {
                seq![kv(key_vnet_subnet(), url_encode_spec(v.subnet))]
            } else {
                Seq::empty()
            }) + (if v.vnet_ip.len() > 0 {
                seq![kv(key_vnet_ip(), url_encode_spec(v.vnet_ip))]
            } else {
                Seq::empty()
            }) + (match v.mtu {
                Some(m) => seq![kv(key_vnet_mtu(), url_encode_spec(mtu_text(m)))],
                None => Seq::empty(),
            }) + seq![
                kv(
                    key_vnet_default_route(),
                    if v.default_route {
                        seq![49u8]
                    } else {
                        seq![48u8]
                    },
                ),
            ]
        } else {
            Seq::empty()
        },
        None => Seq::empty(),
    }
}

/// The fixed query pieces of a link: `encryption=none`, `flow`,
/// `type=tcp`, `security=reality`, `sni`, `fp`, `pbk`, `sid`.
pub open spec fn core_query_pieces(s: ServerView) -> Seq<Seq<u8>> {
    seq![
        kv(key_encryption(), val_none()),
        kv(key_flow(), url_encode_spec(s.flow)),
        kv(key_type(), val_tcp()),
        kv(key_security(), val_reality()),
        kv(key_sni(), url_encode_spec(s.reality.server_name)),
        kv(key_fp(), url_encode_spec(s.reality.fingerprint)),
        kv(key_pbk(), url_encode_spec(s.reality.public_key)),
        kv(key_sid(), url_encode_spec(s.reality.short_id)),
    ]
}

/// The query pieces of a link: the fixed ones, then the `vnet*` ones.
pub open spec fn uri_query_pieces(s: ServerView) -> Seq<Seq<u8>> {
    core_query_pieces(s) + vnet_pieces(s.virtualnet)
}

/// Each piece preceded by `&`.
pub open spec fn amp_each(pieces: Seq<Seq<u8>>) -> Seq<u8>
    decreases pieces.len(),
{
    if pieces.len() == 0 {
        Seq::empty()
    } else {
        seq![38u8] + pieces[0] + amp_each(pieces.drop_first())
    }
}

pub proof fn lemma_join_on_append(a: Seq<Seq<u8>>, b: Seq<Seq<u8>>)
    requires
        a.len() > 0,
    ensures
        join_on(a + b, 38) == join_on(a, 38) + amp_each(b),
    decreases b.len(),
{
    if b.len() == 0 {
        assert(a + b =~= a);
    } else {
        lemma_join_on_push(a, b[0], 38);
        lemma_join_on_append(a.push(b[0]), b.drop_first());
        assert(a.push(b[0]) + b.drop_first() =~= a + b);
    }
}

/// `uuid@address:port`, as they stand.
pub open spec fn uri_authority(s: ServerView) -> Seq<u8> {
    encode_utf8(s.uuid) + seq![64u8] + encode_utf8(s.address) + seq![58u8] + decimal_digits(
        s.port as nat,
    )
}

/// The UTF-8 bytes of the share link of a server:
/// `vless://UUID@ADDRESS:PORT?PIECES#NAME` with the pieces joined by `&`
/// and the values and the name percent-encoded.
pub open spec fn uri_bytes(s: ServerView) -> Seq<u8> {
    vless_prefix() + uri_authority(s) + seq![63u8] + join_on(uri_query_pieces(s), 38) + seq![35u8]
        + url_encode_spec(s.name)
}

/// Appends `&key=` and the percent-encoding of `value`.
fn push_encoded_piece(v: &mut Vec<u8>, key: &[u8], value: &str)
    ensures
        final(v)@ == old(v)@ + seq![38u8] + kv(key@, url_encode_spec(value@)),
{
    v.push(38);
    push_all(v, key);
    v.push(61);
    push_percent_encoded(v, value.as_bytes());
}

/// Appends `&key=value`.
fn push_raw_piece(v: &mut Vec<u8>, key: &[u8], value: &[u8])
    ensures
        final(v)@ == old(v)@ + seq![38u8] + kv(key@, value@),
{
    v.push(38);
    push_all(v, key);
    v.push(61);
    push_all(v, value);
}

/// Appends the fixed query pieces joined by `&`.
#[verifier::rlimit(40)]
fn push_core_pieces(v: &mut Vec<u8>, server: &ServerConfig)
    ensures
        final(v)@ == old(v)@ + join_on(core_query_pieces(server@), 38),
{
    let ghost s = server@;
    let ghost head = v@;
    push_all(v, &[101, 110, 99, 114, 121, 112, 116, 105, 111, 110, 61, 110, 111, 110, 101]);
    push_encoded_piece(v, &[102, 108, 111, 119], server.flow.as_str());
    push_raw_piece(v, &[116, 121, 112, 101], &[116, 99, 112]);
    push_raw_piece(v, &[115, 101, 99, 117, 114, 105, 116, 121], &[114, 101, 97, 108, 105, 116, 121]);
    push_encoded_piece(v, &[115, 110, 105], server.reality.server_name.as_str());
    push_encoded_piece(v, &[102, 112], server.reality.fingerprint.as_str());
    push_encoded_piece(v, &[112, 98, 107], server.reality.public_key.as_str());
    push_encoded_piece(v, &[115, 105, 100], server.reality.short_id.as_str());
    proof {
        let p = core_query_pieces(s);
        assert(p.drop_first().drop_first().drop_first().drop_first().drop_first().drop_first().drop_first()
            =~= seq![p[7]]);
        assert(join_on(p, 38) =~= p[0] + seq![38u8] + p[1] + seq![38u8] + p[2] + seq![38u8] + p[3]
            + seq![38u8] + p[4] + seq![38u8] + p[5] + seq![38u8] + p[6] + seq![38u8] + p[7]) by {
            reveal_with_fuel(join_on, 9);
        }
        assert(v@ =~= head + join_on(p, 38));
    }
}

/// Appends the `vnet*` pieces, each preceded by `&`.
#[verifier::rlimit(40)]
fn push_vnet_pieces(v: &mut Vec<u8>, vnet: &Option<VirtualNetSettings>)
    ensures
        final(v)@ == old(v)@ + amp_each(vnet_pieces(opt_vnet_view(*vnet))),
{
    let ghost head = v@;
    match vnet {
        None => {
            assert(v@ =~= head + amp_each(Seq::empty()));
        },
        Some(vn) => {
            if !vn.enabled {
                assert(v@ =~= head + amp_each(Seq::empty()));
                return ;
            }
            let ghost mut pieces: Seq<Seq<u8>> = seq![kv(key_vnet(), seq![49u8])];
            push_raw_piece(v, &[118, 110, 101, 116], &[49]);
            assert(v@ =~= head + amp_each(pieces)) by {
                reveal_with_fuel(amp_each, 2);
            }
            if vn.subnet.as_str().unicode_len() > 0 {
                let ghost before = v@;
                push_encoded_piece(
                    v,
                    &[118, 110, 101, 116, 83, 117, 98, 110, 101, 116],
                    vn.subnet.as_str(),
                );
                proof {
                    let x = kv(key_vnet_subnet(), url_encode_spec(vn.subnet@));
                    lemma_amp_each_push(pieces, x);
                    pieces = pieces.push(x);
                }
            }
            if vn.vnet_ip.as_str().unicode_len() > 0 {
                push_encoded_piece(v, &[118, 110, 101, 116, 73, 112], vn.vnet_ip.as_str());
                proof {
                    let x = kv(key_vnet_ip(), url_encode_spec(vn.vnet_ip@));
                    lemma_amp_each_push(pieces, x);
                    pieces = pieces.push(x);
                }
            }
            match vn.mtu {
                Some(m) => {
                    let t = decimal_text(m as u64);
                    push_encoded_piece(v, &[118, 110, 101, 116, 77, 116, 117], t.as_str());
                    proof {
                        let x = kv(key_vnet_mtu(), url_encode_spec(mtu_text(m)));
                        lemma_amp_each_push(pieces, x);
                        pieces = pieces.push(x);
                    }
                },
                None => {},
            }
            let flag: u8 = if vn.default_route {
                49
            } else {
                48
            };
            push_raw_piece(
                v,
                &[118, 110, 101, 116, 68, 101, 102, 97, 117, 108, 116, 82, 111, 117, 116, 101],
                &[flag],
            );
            proof {
                let x = kv(key_vnet_default_route(), seq![flag]);
                lemma_amp_each_push(pieces, x);
                pieces = pieces.push(x);
                assert(pieces =~= vnet_pieces(opt_vnet_view(*vnet)));
            }
        },
    }
}

pub proof fn lemma_amp_each_push(pieces: Seq<Seq<u8>>, x: Seq<u8>)
    ensures
        amp_each(pieces.push(x)) == amp_each(pieces) + seq![38u8] + x,
    decreases pieces.len(),
{
    if pieces.len() == 0 {
        assert(seq![x].drop_first() =~= Seq::<Seq<u8>>::empty());
        assert(amp_each(Seq::<Seq<u8>>::empty()) =~= Seq::<u8>::empty());
        assert(amp_each(seq![x]) =~= seq![38u8] + x + amp_each(Seq::<Seq<u8>>::empty()));
        assert(pieces.push(x) =~= seq![x]);
    } else {
        lemma_amp_each_push(pieces.drop_first(), x);
        assert(pieces.push(x).drop_first() =~= pieces.drop_first().push(x));
    }
}

/// The share link of a server (see [`uri_bytes`] for its bytes).
pub fn to_vless_uri(server: &ServerConfig) -> (r: String)
    ensures
        r@ == utf8_lossy(uri_bytes(server@)),
{
    let ghost s = server@;
    let mut v: Vec<u8> = Vec::new();
    push_all(&mut v, &[118, 108, 101, 115, 115, 58, 47, 47]);
    push_all(&mut v, server.uuid.as_str().as_bytes());
    v.push(64);
    push_all(&mut v, server.address.as_str().as_bytes());
    v.push(58);
    push_decimal(&mut v, server.port as u64);
    v.push(63);
    let ghost head = v@;
    assert(head =~= vless_prefix() + uri_authority(s) + seq![63u8]);
    push_core_pieces(&mut v, server);
    push_vnet_pieces(&mut v, &server.virtualnet);
    proof {
        lemma_join_on_append(core_query_pieces(s), vnet_pieces(s.virtualnet));
    }
    let ghost mid = v@;
    assert(mid =~= head + join_on(uri_query_pieces(s), 38));
    v.push(35);
    push_percent_encoded(&mut v, server.name.as_str().as_bytes());
    assert(v@ =~= uri_bytes(s));
    string_from_utf8_lossy(v.as_slice())
}

} // verus!
