//! Reading back a formatted share link gives the server that was formatted.
use vstd::prelude::*;
use vstd::utf8::*;

use crate::models::{AppErrorView, RealityView, ServerView, VirtualNetView};
use crate::text::{
    all_digits, decimal_digits, digits_value, find_first, find_last, is_unicode_whitespace,
    lemma_decimal_digits_parse,
    lemma_find_first_at, lemma_find_first_char, lemma_find_first_none, lemma_find_last_at,
    parse_unsigned, trim_chars, trim_end_chars, trim_start_chars, utf8_lossy,
};
use crate::uri::{
    amp_each, core_query_pieces, default_vnet_subnet, encode_byte, hex_upper, hex_value, host_port_spec,
    is_ipv4_literal_spec, is_vnet_ip_spec, is_true_word, is_unreserved, is_valid_ipv4_cidr_spec, join_on, key_encryption,
    key_flow, key_fp, key_pbk, key_security, key_sid, key_sni, key_type, key_vnet,
    key_vnet_default_route, key_vnet_ip, key_vnet_mtu, key_vnet_subnet, kv, mtu_text, mtu_value, parse_uri_spec, percent_decode,
    percent_encode, query_apply, query_fold, query_init, query_step, query_virtualnet, split_on,
    uri_authority, uri_bytes, uri_query_pieces, url_decode_spec, url_encode_spec, val_none,
    val_reality, val_tcp, vless_prefix, vnet_pieces, QueryParams,
};

verus! {

broadcast use {encode_utf8_valid_utf8, encode_utf8_decode_utf8};

// ---------------------------------------------------------------------------
// Percent-encoding
// ---------------------------------------------------------------------------

/// The bytes percent-encoding produces: unreserved ones and `%`.
pub open spec fn is_encoded_byte(x: u8) -> bool {
    is_unreserved(x) || x == 37
}

proof fn lemma_nibbles(x: u8)
    ensures
        x >> 4u8 < 16,
        x & 15u8 < 16,
        (((x >> 4u8) * 16 + (x & 15u8)) as u8) == x,
{
    assert(x >> 4u8 < 16 && x & 15u8 < 16) by (bit_vector);
    assert((((x >> 4u8) * 16 + (x & 15u8)) as u8) == x) by (bit_vector);
}

proof fn lemma_hex_upper(n: u8)
    requires
        n < 16,
    ensures
        is_unreserved(hex_upper(n)),
        hex_value(hex_upper(n)) == Some(n),
{
}

pub proof fn lemma_percent_encode_bytes(b: Seq<u8>)
    ensures
        forall|i: int|
            0 <= i < percent_encode(b).len() ==> is_encoded_byte(#[trigger] percent_encode(b)[i]),
    decreases b.len(),
{
    if b.len() > 0 {
        lemma_percent_encode_bytes(b.drop_first());
        let x = b[0];
        lemma_nibbles(x);
        lemma_hex_upper(x >> 4u8);
        lemma_hex_upper(x & 15u8);
        let e = encode_byte(x);
        let r = percent_encode(b.drop_first());
        assert forall|i: int| 0 <= i < (e + r).len() implies is_encoded_byte(#[trigger] (e + r)[i]) by {
            if i >= e.len() {
                assert((e + r)[i] == r[i - e.len()]);
            }
        }
    }
}

/// Decoding undoes encoding.
pub proof fn lemma_percent_roundtrip(b: Seq<u8>)
    ensures
        percent_decode(percent_encode(b)) == b,
    decreases b.len(),
{
    if b.len() > 0 {
        let x = b[0];
        let r = b.drop_first();
        lemma_percent_roundtrip(r);
        let pe = percent_encode(b);
        lemma_nibbles(x);
        lemma_hex_upper(x >> 4u8);
        lemma_hex_upper(x & 15u8);
        if is_unreserved(x) {
            assert(pe.skip(1) =~= percent_encode(r));
        } else {
            assert(pe.skip(3) =~= percent_encode(r));
        }
        assert(b =~= seq![x] + r);
    }
}

/// Decoding the encoding of a text gives the text.
pub proof fn lemma_url_roundtrip(s: Seq<char>)
    ensures
        url_decode_spec(url_encode_spec(s)) == s,
{
    lemma_percent_roundtrip(encode_utf8(s));
}

// ---------------------------------------------------------------------------
// Keys
// ---------------------------------------------------------------------------

pub open spec fn is_letter(x: u8) -> bool {
    (65 <= x <= 90) || (97 <= x <= 122)
}

/// Every byte a letter, checked from the front.
pub open spec fn letters_only(s: Seq<u8>) -> bool
    decreases s.len(),
{
    s.len() == 0 || (is_letter(s[0]) && letters_only(s.drop_first()))
}

proof fn lemma_letters_only(s: Seq<u8>)
    requires
        letters_only(s),
    ensures
        forall|j: int| 0 <= j < s.len() ==> is_letter(#[trigger] s[j]),
    decreases s.len(),
{
    if s.len() > 0 {
        lemma_letters_only(s.drop_first());
        assert forall|j: int| 0 <= j < s.len() implies is_letter(#[trigger] s[j]) by {
            if j > 0 {
                assert(s[j] == s.drop_first()[j - 1]);
            }
        }
    }
}

proof fn lemma_keys_letters()
    ensures
        letters_only(key_flow()),
        letters_only(key_sni()),
        letters_only(key_fp()),
        letters_only(key_pbk()),
        letters_only(key_sid()),
        letters_only(key_vnet()),
        letters_only(key_vnet_subnet()),
        letters_only(key_vnet_ip()),
        letters_only(key_vnet_default_route()),
        letters_only(key_vnet_mtu()),
        letters_only(key_encryption()),
        letters_only(key_type()),
        letters_only(key_security()),
        letters_only(val_none()),
        letters_only(val_tcp()),
        letters_only(val_reality()),
{
    reveal_with_fuel(letters_only, 17);
    assert(letters_only(key_flow()));
    assert(letters_only(key_sni()));
    assert(letters_only(key_fp()));
    assert(letters_only(key_pbk()));
    assert(letters_only(key_sid()));
    assert(letters_only(key_vnet()));
    assert(letters_only(key_vnet_subnet()));
    assert(letters_only(key_vnet_ip()));
    assert(letters_only(key_vnet_default_route()));
    assert(letters_only(key_vnet_mtu()));
    assert(letters_only(key_encryption()));
    assert(letters_only(key_type()));
    assert(letters_only(key_security()));
    assert(letters_only(val_none()));
    assert(letters_only(val_tcp()));
    assert(letters_only(val_reality()));
}

// ---------------------------------------------------------------------------
// Splitting a joined query
// ---------------------------------------------------------------------------

pub open spec fn lacks(s: Seq<u8>, c: u8) -> bool {
    forall|j: int| 0 <= j < s.len() ==> #[trigger] s[j] != c
}

pub proof fn lemma_split_on_join(pieces: Seq<Seq<u8>>, c: u8)
    requires
        pieces.len() > 0,
        forall|i: int| 0 <= i < pieces.len() ==> lacks(#[trigger] pieces[i], c),
    ensures
        split_on(join_on(pieces, c), c) == pieces,
    decreases pieces.len(),
{
    let p0 = pieces[0];
    assert(lacks(p0, c));
    if pieces.len() == 1 {
        lemma_find_first_none(p0, c);
        assert(split_on(p0, c) == seq![p0]);
        assert(pieces =~= seq![p0]);
    } else {
        let rest = pieces.drop_first();
        assert forall|i: int| 0 <= i < rest.len() implies lacks(#[trigger] rest[i], c) by {
            assert(rest[i] == pieces[i + 1]);
        }
        lemma_split_on_join(rest, c);
        let j = join_on(pieces, c);
        assert(j == p0 + seq![c] + join_on(rest, c));
        lemma_find_first_at(j, c, p0.len() as int);
        assert(j.take(p0.len() as int) =~= p0);
        assert(j.skip(p0.len() as int + 1) =~= join_on(rest, c));
        assert(pieces =~= seq![p0] + rest);
    }
}

// ---------------------------------------------------------------------------
// Reading the query pieces
// ---------------------------------------------------------------------------

pub proof fn lemma_query_fold_push(p: Seq<Seq<u8>>, x: Seq<u8>)
    ensures
        query_fold(p.push(x)) == query_step(query_fold(p), x),
{
    assert(p.push(x).drop_last() =~= p);
}

pub proof fn lemma_step_kv(q: QueryParams, key: Seq<u8>, val: Seq<u8>)
    requires
        lacks(key, 61),
    ensures
        query_step(q, kv(key, val)) == query_apply(q, key, url_decode_spec(val)),
{
    let piece = kv(key, val);
    lemma_find_first_at(piece, 61, key.len() as int);
    assert(piece.take(key.len() as int) =~= key);
    assert(piece.skip(key.len() as int + 1) =~= val);
}

proof fn lemma_letters_lack(s: Seq<u8>)
    requires
        letters_only(s),
    ensures
        lacks(s, 61),
        lacks(s, 38),
        lacks(s, 35),
        lacks(s, 63),
{
    lemma_letters_only(s);
}

/// What the fixed pieces of a formatted link set.
pub open spec fn core_params(s: ServerView) -> QueryParams {
    QueryParams {
        flow: s.flow,
        sni: s.reality.server_name,
        fingerprint: s.reality.fingerprint,
        public_key: s.reality.public_key,
        short_id: s.reality.short_id,
        vnet: false,
        vnet_subnet: None,
        vnet_ip: None,
        vnet_default_route: None,
        vnet_mtu: None,
    }
}

pub proof fn lemma_fold_core(s: ServerView)
    ensures
        query_fold(core_query_pieces(s)) == core_params(s),
{
    lemma_keys_letters();
    lemma_letters_lack(key_flow());
    lemma_letters_lack(key_sni());
    lemma_letters_lack(key_fp());
    lemma_letters_lack(key_pbk());
    lemma_letters_lack(key_sid());
    lemma_letters_lack(key_encryption());
    lemma_letters_lack(key_type());
    lemma_letters_lack(key_security());
    lemma_url_roundtrip(s.flow);
    lemma_url_roundtrip(s.reality.server_name);
    lemma_url_roundtrip(s.reality.fingerprint);
    lemma_url_roundtrip(s.reality.public_key);
    lemma_url_roundtrip(s.reality.short_id);
    let p = core_query_pieces(s);
    let e: Seq<Seq<u8>> = Seq::empty();
    assert(p =~= e.push(p[0]).push(p[1]).push(p[2]).push(p[3]).push(p[4]).push(p[5]).push(p[6]).push(
        p[7],
    ));
    lemma_query_fold_push(e, p[0]);
    lemma_step_kv(query_init(), key_encryption(), val_none());
    let q1 = query_fold(e.push(p[0]));
    assert(q1 == query_init());
    lemma_query_fold_push(e.push(p[0]), p[1]);
    lemma_step_kv(q1, key_flow(), url_encode_spec(s.flow));
    let q2 = query_fold(e.push(p[0]).push(p[1]));
    assert(q2 == QueryParams { flow: s.flow, ..q1 });
    lemma_query_fold_push(e.push(p[0]).push(p[1]), p[2]);
    lemma_step_kv(q2, key_type(), val_tcp());
    let q3 = query_fold(e.push(p[0]).push(p[1]).push(p[2]));
    assert(q3 == q2);
    lemma_query_fold_push(e.push(p[0]).push(p[1]).push(p[2]), p[3]);
    lemma_step_kv(q3, key_security(), val_reality());
    let q4 = query_fold(e.push(p[0]).push(p[1]).push(p[2]).push(p[3]));
    assert(q4 == q3);
    lemma_query_fold_push(e.push(p[0]).push(p[1]).push(p[2]).push(p[3]), p[4]);
    lemma_step_kv(q4, key_sni(), url_encode_spec(s.reality.server_name));
    let q5 = query_fold(e.push(p[0]).push(p[1]).push(p[2]).push(p[3]).push(p[4]));
    assert(q5 == QueryParams { sni: s.reality.server_name, ..q4 });
    lemma_query_fold_push(e.push(p[0]).push(p[1]).push(p[2]).push(p[3]).push(p[4]), p[5]);
    lemma_step_kv(q5, key_fp(), url_encode_spec(s.reality.fingerprint));
    let q6 = query_fold(e.push(p[0]).push(p[1]).push(p[2]).push(p[3]).push(p[4]).push(p[5]));
    assert(q6 == QueryParams { fingerprint: s.reality.fingerprint, ..q5 });
    lemma_query_fold_push(e.push(p[0]).push(p[1]).push(p[2]).push(p[3]).push(p[4]).push(p[5]), p[6]);
    lemma_step_kv(q6, key_pbk(), url_encode_spec(s.reality.public_key));
    let q7 = query_fold(
        e.push(p[0]).push(p[1]).push(p[2]).push(p[3]).push(p[4]).push(p[5]).push(p[6]),
    );
    assert(q7 == QueryParams { public_key: s.reality.public_key, ..q6 });
    lemma_query_fold_push(
        e.push(p[0]).push(p[1]).push(p[2]).push(p[3]).push(p[4]).push(p[5]).push(p[6]),
        p[7],
    );
    lemma_step_kv(q7, key_sid(), url_encode_spec(s.reality.short_id));
}

// ---------------------------------------------------------------------------
// ASCII text
// ---------------------------------------------------------------------------

pub open spec fn all_ascii(b: Seq<u8>) -> bool {
    forall|i: int| 0 <= i < b.len() ==> #[trigger] b[i] < 128
}

/// ASCII bytes are valid UTF-8 and decode byte by byte.
pub proof fn lemma_ascii_decode(b: Seq<u8>)
    requires
        all_ascii(b),
    ensures
        valid_utf8(b),
        decode_utf8(b) == b.map_values(|x: u8| x as char),
    decreases b.len(),
{
    if b.len() > 0 {
        let x = b[0];
        assert(x < 128);
        assert(((x & 0x7Fu8) as u32) == x as u32) by (bit_vector)
            requires
                x < 128,
        ;
        assert(pop_first_scalar(b) =~= b.drop_first());
        lemma_ascii_decode(b.drop_first());
        assert(decode_utf8(b) =~= b.map_values(|x: u8| x as char));
    }
}

pub proof fn lemma_decode_flag(d: u8)
    requires
        d == 48 || d == 49,
    ensures
        url_decode_spec(seq![d]) == seq![d as char],
{
    assert(seq![d].skip(1) =~= Seq::<u8>::empty());
    assert(percent_decode(Seq::<u8>::empty()) =~= Seq::<u8>::empty());
    assert(percent_decode(seq![d]) =~= seq![d] + percent_decode(seq![d].skip(1)));
    lemma_ascii_decode(seq![d]);
    assert(seq![d].map_values(|x: u8| x as char) =~= seq![d as char]);
}

// ---------------------------------------------------------------------------
// The virtual-network pieces
// ---------------------------------------------------------------------------

/// The L3 settings that survive a round trip through a link: only an
/// enabled network with an IPv4 address (alone or with a prefix length)
/// comes back; a subnet that is not a valid IPv4 CIDR comes back as the
/// default one; the interface name is not part of a link.
pub open spec fn roundtrip_vnet(vn: Option<VirtualNetView>) -> Option<VirtualNetView> {
    match vn {
        Some(v) => if v.enabled && is_vnet_ip_spec(encode_utf8(v.vnet_ip)) {
            Some(
                VirtualNetView {
                    enabled: true,
                    subnet: if is_valid_ipv4_cidr_spec(encode_utf8(v.subnet)) {
                        v.subnet
                    } else {
                        default_vnet_subnet()
                    },
                    vnet_ip: v.vnet_ip,
                    default_route: v.default_route,
                    interface_name: None,
                    mtu: v.mtu,
                },
            )
        } else {
            None
        },
        None => None,
    }
}

proof fn lemma_empty_not_ipv4()
    ensures
        !is_ipv4_literal_spec(encode_utf8(Seq::<char>::empty())),
        !is_valid_ipv4_cidr_spec(encode_utf8(Seq::<char>::empty())),
{
    let e = encode_utf8(Seq::<char>::empty());
    assert(e =~= Seq::<u8>::empty());
    lemma_find_first_none(e, 46);
    lemma_find_first_none(e, 47);
}

proof fn lemma_step_vnet(q: QueryParams)
    ensures
        query_step(q, kv(key_vnet(), seq![49u8])) == (QueryParams { vnet: true, ..q }),
{
    lemma_keys_letters();
    lemma_letters_lack(key_vnet());
    lemma_step_kv(q, key_vnet(), seq![49u8]);
    lemma_decode_flag(49);
    assert(seq![49u8 as char] =~= seq!['1']);
}

proof fn lemma_step_subnet(q: QueryParams, subnet: Seq<char>)
    ensures
        query_step(q, kv(key_vnet_subnet(), url_encode_spec(subnet))) == (if is_valid_ipv4_cidr_spec(
            encode_utf8(subnet),
        ) {
            (QueryParams { vnet_subnet: Some(subnet), ..q })
        } else {
            q
        }),
{
    lemma_keys_letters();
    lemma_letters_lack(key_vnet_subnet());
    lemma_step_kv(q, key_vnet_subnet(), url_encode_spec(subnet));
    lemma_url_roundtrip(subnet);
}

proof fn lemma_step_ip(q: QueryParams, ip: Seq<char>)
    ensures
        query_step(q, kv(key_vnet_ip(), url_encode_spec(ip))) == (if is_vnet_ip_spec(
            encode_utf8(ip),
        ) {
            (QueryParams { vnet_ip: Some(ip), ..q })
        } else {
            q
        }),
{
    lemma_keys_letters();
    lemma_letters_lack(key_vnet_ip());
    lemma_step_kv(q, key_vnet_ip(), url_encode_spec(ip));
    lemma_url_roundtrip(ip);
}

/// The decimal text of an MTU is ASCII and encodes back to its digits.
proof fn lemma_mtu_text(m: u32)
    ensures
        encode_utf8(mtu_text(m)) == decimal_digits(m as nat),
{
    let d = decimal_digits(m as nat);
    lemma_decimal_digits_ascii(m as nat);
    lemma_ascii_decode(d);
    decode_utf8_encode_utf8(d);
}

proof fn lemma_step_mtu(q: QueryParams, m: u32)
    ensures
        query_step(q, kv(key_vnet_mtu(), url_encode_spec(mtu_text(m)))) == (QueryParams {
            vnet_mtu: Some(m),
            ..q
        }),
{
    lemma_keys_letters();
    lemma_letters_lack(key_vnet_mtu());
    lemma_step_kv(q, key_vnet_mtu(), url_encode_spec(mtu_text(m)));
    lemma_url_roundtrip(mtu_text(m));
    lemma_mtu_text(m);
    lemma_decimal_digits_parse(m as nat);
    let d = decimal_digits(m as nat);
    assert(parse_unsigned(d, 4294967295) == Some(m as nat));
    reveal(mtu_value);
}

proof fn lemma_step_default_route(q: QueryParams, on: bool)
    ensures
        query_step(
            q,
            kv(
                key_vnet_default_route(),
                if on {
                    seq![49u8]
                } else {
                    seq![48u8]
                },
            ),
        ) == (QueryParams { vnet_default_route: Some(on), ..q }),
{
    lemma_keys_letters();
    lemma_letters_lack(key_vnet_default_route());
    let flag: u8 = if on {
        49
    } else {
        48
    };
    assert((if on {
        seq![49u8]
    } else {
        seq![48u8]
    }) == seq![flag]);
    lemma_step_kv(q, key_vnet_default_route(), seq![flag]);
    lemma_decode_flag(flag);
    assert(seq![49u8 as char] =~= seq!['1']);
    assert(seq![48u8 as char] =~= seq!['0']);
}

/// What the whole query of a formatted link reads as.
pub proof fn lemma_fold_all(s: ServerView)
    ensures
        ({
            let q = query_fold(uri_query_pieces(s));
            &&& q.flow == s.flow
            &&& q.sni == s.reality.server_name
            &&& q.fingerprint == s.reality.fingerprint
            &&& q.public_key == s.reality.public_key
            &&& q.short_id == s.reality.short_id
            &&& query_virtualnet(q) == roundtrip_vnet(s.virtualnet)
        }),
{
    lemma_fold_core(s);
    lemma_empty_not_ipv4();
    let c = core_query_pieces(s);
    let vp = vnet_pieces(s.virtualnet);
    match s.virtualnet {
        None => {
            assert(c + vp =~= c);
        },
        Some(v) => {
            if !v.enabled {
                assert(c + vp =~= c);
            } else {
                let mut acc = c;
                let mut q = core_params(s);
                let mut rest: Seq<Seq<u8>> = Seq::empty();
                let a = kv(key_vnet(), seq![49u8]);
                lemma_query_fold_push(acc, a);
                lemma_step_vnet(q);
                acc = acc.push(a);
                rest = rest.push(a);
                q = QueryParams { vnet: true, ..q };
                if v.subnet.len() > 0 {
                    let x = kv(key_vnet_subnet(), url_encode_spec(v.subnet));
                    lemma_query_fold_push(acc, x);
                    lemma_step_subnet(q, v.subnet);
                    acc = acc.push(x);
                    rest = rest.push(x);
                    q = query_step(q, x);
                } else {
                    assert(v.subnet =~= Seq::<char>::empty());
                }
                if v.vnet_ip.len() > 0 {
                    let x = kv(key_vnet_ip(), url_encode_spec(v.vnet_ip));
                    lemma_query_fold_push(acc, x);
                    lemma_step_ip(q, v.vnet_ip);
                    acc = acc.push(x);
                    rest = rest.push(x);
                    q = query_step(q, x);
                } else {
                    assert(v.vnet_ip =~= Seq::<char>::empty());
                }
                if let Some(m) = v.mtu {
                    let x = kv(key_vnet_mtu(), url_encode_spec(mtu_text(m)));
                    lemma_query_fold_push(acc, x);
                    lemma_step_mtu(q, m);
                    acc = acc.push(x);
                    rest = rest.push(x);
                    q = query_step(q, x);
                }
                let d = kv(
                    key_vnet_default_route(),
                    if v.default_route {
                        seq![49u8]
                    } else {
                        seq![48u8]
                    },
                );
                lemma_query_fold_push(acc, d);
                lemma_step_default_route(q, v.default_route);
                acc = acc.push(d);
                rest = rest.push(d);
                q = query_step(q, d);
                assert(rest =~= vp);
                assert(acc =~= c + vp);
            }
        },
    }
}

// ---------------------------------------------------------------------------
// The bytes of a link are valid UTF-8 and need no trimming
// ---------------------------------------------------------------------------

/// Decoding a concatenation of valid UTF-8 decodes the parts.
pub proof fn lemma_decode_concat(b1: Seq<u8>, b2: Seq<u8>)
    requires
        valid_utf8(b1),
        valid_utf8(b2),
    ensures
        valid_utf8(b1 + b2),
        decode_utf8(b1 + b2) == decode_utf8(b1) + decode_utf8(b2),
    decreases b1.len(),
{
    valid_utf8_concat(b1, b2);
    if b1.len() == 0 {
        assert(b1 + b2 =~= b2);
    } else {
        let rest = pop_first_scalar(b1);
        assert(rest.len() < b1.len());
        lemma_decode_concat(rest, b2);
        assert(pop_first_scalar(b1 + b2) =~= rest + b2);
        assert(decode_first_scalar(b1 + b2) == decode_first_scalar(b1));
        assert(decode_utf8(b1 + b2) =~= decode_utf8(b1) + decode_utf8(b2));
    }
}

pub proof fn lemma_join_ascii(pieces: Seq<Seq<u8>>)
    requires
        forall|i: int| 0 <= i < pieces.len() ==> all_ascii(#[trigger] pieces[i]),
    ensures
        all_ascii(join_on(pieces, 38)),
    decreases pieces.len(),
{
    if pieces.len() > 1 {
        let rest = pieces.drop_first();
        assert forall|i: int| 0 <= i < rest.len() implies all_ascii(#[trigger] rest[i]) by {
            assert(rest[i] == pieces[i + 1]);
        }
        lemma_join_ascii(rest);
        assert(all_ascii(pieces[0]));
        let j = pieces[0] + seq![38u8] + join_on(rest, 38);
        assert forall|i: int| 0 <= i < j.len() implies #[trigger] j[i] < 128 by {
            if i < pieces[0].len() {
            } else if i == pieces[0].len() {
            } else {
                assert(j[i] == join_on(rest, 38)[i - pieces[0].len() - 1]);
            }
        }
    } else if pieces.len() == 1 {
        assert(all_ascii(pieces[0]));
    }
}

pub proof fn lemma_decimal_digits_ascii(n: nat)
    ensures
        all_ascii(decimal_digits(n)),
        lacks(decimal_digits(n), 58),
        lacks(decimal_digits(n), 63),
{
    lemma_decimal_digits_parse(n);
    let d = decimal_digits(n);
    assert forall|i: int| 0 <= i < d.len() implies #[trigger] d[i] < 128 && d[i] != 58 && d[i]
        != 63 by {
        assert(all_digits(d));
    }
}

/// Properties of one piece `key=value` of a formatted query.
pub open spec fn plain_piece(p: Seq<u8>) -> bool {
    all_ascii(p) && lacks(p, 38)
}

proof fn lemma_plain_kv(key: Seq<u8>, val: Seq<u8>)
    requires
        letters_only(key),
        all_ascii(val),
        lacks(val, 38),
    ensures
        plain_piece(kv(key, val)),
{
    lemma_letters_only(key);
    let p = kv(key, val);
    assert forall|i: int| 0 <= i < p.len() implies #[trigger] p[i] < 128 && p[i] != 38 by {
        if i < key.len() {
            assert(is_letter(key[i]));
        } else if i > key.len() {
            assert(p[i] == val[i - key.len() - 1]);
        }
    }
}

proof fn lemma_encoded_plain(s: Seq<char>)
    ensures
        all_ascii(url_encode_spec(s)),
        lacks(url_encode_spec(s), 38),
        lacks(url_encode_spec(s), 35),
{
    lemma_percent_encode_bytes(encode_utf8(s));
}

proof fn lemma_letters_plain(s: Seq<u8>)
    requires
        letters_only(s),
    ensures
        all_ascii(s),
        lacks(s, 38),
{
    lemma_letters_only(s);
}

pub proof fn lemma_pieces_plain(s: ServerView)
    ensures
        forall|i: int|
            0 <= i < uri_query_pieces(s).len() ==> plain_piece(#[trigger] uri_query_pieces(s)[i]),
        uri_query_pieces(s).len() > 0,
{
    lemma_keys_letters();
    lemma_letters_plain(val_none());
    lemma_letters_plain(val_tcp());
    lemma_letters_plain(val_reality());
    lemma_encoded_plain(s.flow);
    lemma_encoded_plain(s.reality.server_name);
    lemma_encoded_plain(s.reality.fingerprint);
    lemma_encoded_plain(s.reality.public_key);
    lemma_encoded_plain(s.reality.short_id);
    lemma_plain_kv(key_encryption(), val_none());
    lemma_plain_kv(key_flow(), url_encode_spec(s.flow));
    lemma_plain_kv(key_type(), val_tcp());
    lemma_plain_kv(key_security(), val_reality());
    lemma_plain_kv(key_sni(), url_encode_spec(s.reality.server_name));
    lemma_plain_kv(key_fp(), url_encode_spec(s.reality.fingerprint));
    lemma_plain_kv(key_pbk(), url_encode_spec(s.reality.public_key));
    lemma_plain_kv(key_sid(), url_encode_spec(s.reality.short_id));
    assert(all_ascii(seq![49u8]) && lacks(seq![49u8], 38));
    assert(all_ascii(seq![48u8]) && lacks(seq![48u8], 38));
    lemma_plain_kv(key_vnet(), seq![49u8]);
    lemma_plain_kv(key_vnet_default_route(), seq![49u8]);
    lemma_plain_kv(key_vnet_default_route(), seq![48u8]);
    if let Some(v) = s.virtualnet {
        lemma_encoded_plain(v.subnet);
        lemma_encoded_plain(v.vnet_ip);
        lemma_plain_kv(key_vnet_subnet(), url_encode_spec(v.subnet));
        lemma_plain_kv(key_vnet_ip(), url_encode_spec(v.vnet_ip));
        if let Some(m) = v.mtu {
            lemma_encoded_plain(mtu_text(m));
            lemma_plain_kv(key_vnet_mtu(), url_encode_spec(mtu_text(m)));
        }
    }
    let p = uri_query_pieces(s);
    let c = core_query_pieces(s);
    let vp = vnet_pieces(s.virtualnet);
    assert forall|i: int| 0 <= i < p.len() implies plain_piece(#[trigger] p[i]) by {
        if i < c.len() {
            assert(p[i] == c[i]);
        } else {
            assert(p[i] == vp[i - c.len()]);
        }
    }
}

proof fn lemma_trim_noop(c: Seq<char>)
    requires
        c.len() > 0,
        !is_unicode_whitespace(c[0]),
        !is_unicode_whitespace(c[c.len() - 1]),
    ensures
        trim_chars(c) == c,
{
    assert(trim_start_chars(c) == c);
    assert(trim_end_chars(c) == c);
}

/// `#` and the encoded name: ASCII, ending in a byte that is not
/// whitespace.
proof fn lemma_fragment_text(name: Seq<char>)
    ensures
        valid_utf8(seq![35u8] + url_encode_spec(name)),
        ({
            let c = decode_utf8(seq![35u8] + url_encode_spec(name));
            c.len() > 0 && !is_unicode_whitespace(c[c.len() - 1])
        }),
{
    let e = url_encode_spec(name);
    let p2 = seq![35u8] + e;
    lemma_percent_encode_bytes(encode_utf8(name));
    assert forall|i: int| 0 <= i < p2.len() implies #[trigger] p2[i] < 128 && (p2[i] == 35
        || is_encoded_byte(p2[i])) by {
        if i > 0 {
            assert(p2[i] == e[i - 1]);
        }
    }
    lemma_ascii_decode(p2);
    let last = p2[p2.len() - 1];
    assert(last == 35 || is_encoded_byte(last));
}

/// `vless://`: ASCII, starting with `v`.
proof fn lemma_prefix_text()
    ensures
        valid_utf8(vless_prefix()),
        decode_utf8(vless_prefix()).len() > 0,
        decode_utf8(vless_prefix())[0] == 'v',
{
    let p1 = vless_prefix();
    assert(all_ascii(p1));
    lemma_ascii_decode(p1);
}

/// Everything between `vless://` and `#`: valid UTF-8.
proof fn lemma_middle_valid(s: ServerView)
    ensures
        valid_utf8(uri_authority(s) + seq![63u8] + join_on(uri_query_pieces(s), 38)),
{
    let u = encode_utf8(s.uuid);
    let a = encode_utf8(s.address);
    let digits = decimal_digits(s.port as nat);
    let pieces = uri_query_pieces(s);
    let j = join_on(pieces, 38);
    lemma_pieces_plain(s);
    assert forall|i: int| 0 <= i < pieces.len() implies all_ascii(#[trigger] pieces[i]) by {
        assert(plain_piece(pieces[i]));
    }
    lemma_join_ascii(pieces);
    lemma_decimal_digits_ascii(s.port as nat);
    let tail1 = seq![58u8] + digits + seq![63u8] + j;
    assert forall|i: int| 0 <= i < tail1.len() implies #[trigger] tail1[i] < 128 by {
        if 1 <= i < 1 + digits.len() {
            assert(tail1[i] == digits[i - 1]);
        } else if i > 1 + digits.len() {
            assert(tail1[i] == j[i - 2 - digits.len()]);
        }
    }
    assert(all_ascii(seq![64u8]));
    lemma_ascii_decode(seq![64u8]);
    lemma_ascii_decode(tail1);
    lemma_decode_concat(u, seq![64u8]);
    lemma_decode_concat(u + seq![64u8], a);
    lemma_decode_concat(u + seq![64u8] + a, tail1);
    assert(uri_authority(s) + seq![63u8] + j =~= u + seq![64u8] + a + tail1);
}

/// The bytes of a formatted link are valid UTF-8, and the text they make
/// starts with `v` and ends with `#` or a percent-encoded byte, so trimming
/// leaves it as it is.
pub proof fn lemma_uri_text(s: ServerView)
    ensures
        valid_utf8(uri_bytes(s)),
        trim_chars(decode_utf8(uri_bytes(s))) == decode_utf8(uri_bytes(s)),
{
    let p1 = vless_prefix();
    let m = uri_authority(s) + seq![63u8] + join_on(uri_query_pieces(s), 38);
    let p2 = seq![35u8] + url_encode_spec(s.name);
    lemma_prefix_text();
    lemma_middle_valid(s);
    lemma_fragment_text(s.name);
    lemma_decode_concat(p1, m);
    lemma_decode_concat(p1 + m, p2);
    let b = uri_bytes(s);
    assert(b =~= p1 + m + p2);
    let c = decode_utf8(b);
    let c1 = decode_utf8(p1);
    let c2 = decode_utf8(p2);
    assert(c =~= c1 + decode_utf8(m) + c2);
    assert(c[0] == c1[0]);
    assert(c[c.len() - 1] == c2[c2.len() - 1]);
    lemma_trim_noop(c);
}

// ---------------------------------------------------------------------------
// Reading a formatted link back
// ---------------------------------------------------------------------------

/// What a link needs to read back: the UTF-8 bytes of the UUID hold
/// neither `@` nor `?`, those of the address hold no `?` and do not start
/// with `[` (UUID and address are written into the link as they stand).
pub open spec fn link_safe(s: ServerView) -> bool {
    &&& lacks(encode_utf8(s.uuid), 64)
    &&& lacks(encode_utf8(s.uuid), 63)
    &&& lacks(encode_utf8(s.address), 63)
    &&& !(encode_utf8(s.address).len() > 0 && encode_utf8(s.address)[0] == 91)
}

/// The server a link made from `s` reads back as, given the identifier
/// `id`: every field of `s`, with the L3 settings as [`roundtrip_vnet`]
/// says and no subscription.
pub open spec fn roundtrip_view(s: ServerView, id: Seq<char>) -> ServerView {
    ServerView { id, virtualnet: roundtrip_vnet(s.virtualnet), subscription_id: None, ..s }
}

proof fn lemma_host_port(s: ServerView)
    requires
        link_safe(s),
    ensures
        host_port_spec(encode_utf8(s.address) + seq![58u8] + decimal_digits(s.port as nat)) == Ok::<
            (Seq<char>, u16),
            AppErrorView,
        >((s.address, s.port)),
{
    let a = encode_utf8(s.address);
    let digits = decimal_digits(s.port as nat);
    let hp = a + seq![58u8] + digits;
    lemma_decimal_digits_ascii(s.port as nat);
    lemma_decimal_digits_parse(s.port as nat);
    assert(!(hp.len() > 0 && hp[0] == 91)) by {
        if a.len() == 0 {
            assert(hp[0] == 58);
        } else {
            assert(hp[0] == a[0]);
        }
    }
    assert forall|k: int| a.len() < k < hp.len() implies hp[k] != 58 by {
        assert(hp[k] == digits[k - a.len() - 1]);
    }
    lemma_find_last_at(hp, 58, a.len() as int);
    assert(hp.take(a.len() as int) =~= a);
    assert(hp.skip(a.len() as int + 1) =~= digits);
    assert(parse_unsigned(digits, 65535) == Some(s.port as nat));
}

proof fn lemma_authority(s: ServerView)
    requires
        link_safe(s),
    ensures
        lacks(uri_authority(s), 63),
        find_first(uri_authority(s), 64) == Some(encode_utf8(s.uuid).len() as int),
        uri_authority(s).take(encode_utf8(s.uuid).len() as int) == encode_utf8(s.uuid),
        uri_authority(s).skip(encode_utf8(s.uuid).len() as int + 1) == encode_utf8(s.address) + seq![58u8]
            + decimal_digits(s.port as nat),
{
    let u = encode_utf8(s.uuid);
    let a = encode_utf8(s.address);
    let digits = decimal_digits(s.port as nat);
    let auth = uri_authority(s);
    lemma_decimal_digits_ascii(s.port as nat);
    assert(auth =~= u + seq![64u8] + a + seq![58u8] + digits);
    assert forall|k: int| 0 <= k < auth.len() implies #[trigger] auth[k] != 63 by {
        if k < u.len() {
            assert(auth[k] == u[k]);
        } else if u.len() < k < u.len() + 1 + a.len() {
            assert(auth[k] == a[k - u.len() - 1]);
        } else if k > u.len() + 1 + a.len() {
            assert(auth[k] == digits[k - u.len() - 2 - a.len()]);
        }
    }
    assert forall|k: int| 0 <= k < u.len() implies auth[k] != 64 by {
        assert(auth[k] == u[k]);
    }
    lemma_find_first_at(auth, 64, u.len() as int);
    assert(auth.take(u.len() as int) =~= u);
    assert(auth.skip(u.len() as int + 1) =~= a + seq![58u8] + digits);
}

/// A share link made by `to_vless_uri` reads back, through
/// `parse_vless_uri_with_id`, as the server it was made from: same name,
/// address, port, UUID, flow and REALITY settings, the L3 settings as far
/// as a link carries them, the new identifier and no subscription.
pub proof fn lemma_uri_roundtrip(s: ServerView, id: Seq<char>)
    requires
        link_safe(s),
    ensures
        parse_uri_spec(encode_utf8(trim_chars(utf8_lossy(uri_bytes(s)))), id) == Ok::<
            ServerView,
            AppErrorView,
        >(roundtrip_view(s, id)),
{
    let b = uri_bytes(s);
    lemma_uri_text(s);
    decode_utf8_encode_utf8(b);
    assert(encode_utf8(trim_chars(utf8_lossy(b))) == b);
    let auth = uri_authority(s);
    let pieces = uri_query_pieces(s);
    let j = join_on(pieces, 38);
    let e = url_encode_spec(s.name);
    assert(b.take(8) =~= vless_prefix());
    let rest = b.skip(8);
    assert(rest =~= auth + seq![63u8] + j + seq![35u8] + e);
    lemma_encoded_plain(s.name);
    let k: int = auth.len() as int + 1 + j.len() as int;
    assert forall|i: int| k < i < rest.len() implies rest[i] != 35 by {
        assert(rest[i] == e[i - k - 1]);
    }
    lemma_find_last_at(rest, 35, k);
    assert(rest.take(k) =~= auth + seq![63u8] + j);
    assert(rest.skip(k + 1) =~= e);
    lemma_url_roundtrip(s.name);
    let rest1 = auth + seq![63u8] + j;
    lemma_authority(s);
    assert forall|i: int| 0 <= i < auth.len() implies rest1[i] != 63 by {
        assert(rest1[i] == auth[i]);
    }
    lemma_find_first_at(rest1, 63, auth.len() as int);
    assert(rest1.take(auth.len() as int) =~= auth);
    assert(rest1.skip(auth.len() as int + 1) =~= j);
    lemma_host_port(s);
    lemma_pieces_plain(s);
    assert forall|i: int| 0 <= i < pieces.len() implies lacks(#[trigger] pieces[i], 38) by {
        assert(plain_piece(pieces[i]));
    }
    lemma_split_on_join(pieces, 38);
    lemma_fold_all(s);
}

} // verus!
