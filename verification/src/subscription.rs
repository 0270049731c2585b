//! Subscriptions: a URL whose body lists share links, as plain text or
//! base64. Fetching is the caller's; this module checks the URL and the
//! response, decodes the body and reads the links in it.
use base64::Engine;
use vstd::prelude::*;
use vstd::utf8::*;

use crate::models::{AppError, AppErrorView, ServerConfig, ServerView};
use crate::network::{strip_cr, text_lines};
use crate::text::{
    copy_range, decimal_digits, find_byte, lemma_find_first_char, lemma_trim_idempotent,
    push_decimal, starts_with, str_trim, string_from_utf8, string_from_utf8_lossy, string_of,
    text_starts_with, trim_chars, utf8_lossy,
};
use crate::uri::{is_uuid_v4_text, lemma_parse_error_ignores_id, parse_uri_spec, parse_vless_uri};

verus! {

// ---------------------------------------------------------------------------
// URL and response checks
// ---------------------------------------------------------------------------

/// The trimmed URL starts with `https://` or `http://`.
pub open spec fn subscription_url_ok(url: Seq<char>) -> bool {
    text_starts_with(trim_chars(url), "https://"@) || text_starts_with(trim_chars(url), "http://"@)
}

/// The URL to fetch: the given one trimmed, which must use http or https.
pub fn check_subscription_url(url: &str) -> (r: Result<String, AppError>)
    ensures
        subscription_url_ok(url@) ==> (r matches Ok(t) && t@ == trim_chars(url@)),
        !subscription_url_ok(url@) ==> (r matches Err(e) && e@ == AppErrorView::Config(
            "Subscription URL must use http:// or https://"@,
        )),
{
    let t = str_trim(url);
    if !(starts_with(t, "https://") || starts_with(t, "http://")) {
        return Err(AppError::Config(string_of("Subscription URL must use http:// or https://")));
    }
    Ok(string_of(t))
}

/// The decimal text of `n`.
pub fn decimal_text(n: u64) -> (r: String)
    ensures
        r@ == utf8_lossy(decimal_digits(n as nat)),
{
    let mut v: Vec<u8> = Vec::new();
    push_decimal(&mut v, n);
    assert(v@ =~= decimal_digits(n as nat));
    string_from_utf8_lossy(v.as_slice())
}

/// A 2xx status passes; any other is reported with its code.
pub fn check_http_status(status: u16) -> (r: Result<(), AppError>)
    ensures
        200 <= status <= 299 ==> r is Ok,
        !(200 <= status <= 299) ==> (r matches Err(e) && e@ == AppErrorView::Config(
            "Subscription returned HTTP "@ + utf8_lossy(decimal_digits(status as nat)),
        )),
{
    if 200 <= status && status <= 299 {
        Ok(())
    } else {
        let code = decimal_text(status as u64);
        Err(AppError::Config(string_of("Subscription returned HTTP ").concat(code.as_str())))
    }
}

/// The largest body read: 2 MiB.
pub const MAX_BODY_BYTES: usize = 2097152;

/// A body of at most [`MAX_BODY_BYTES`] passes; a larger one is reported
/// with its size.
pub fn check_body_size(len: usize) -> (r: Result<(), AppError>)
    ensures
        len <= MAX_BODY_BYTES ==> r is Ok,
        len > MAX_BODY_BYTES ==> (r matches Err(e) && e@ == AppErrorView::Config(
            "Subscription body too large: "@ + utf8_lossy(decimal_digits(len as nat))
                + " bytes (limit "@ + utf8_lossy(decimal_digits(MAX_BODY_BYTES as nat)) + ")"@,
        )),
{
    if len <= MAX_BODY_BYTES {
        Ok(())
    } else {
        let n = decimal_text(len as u64);
        let limit = decimal_text(MAX_BODY_BYTES as u64);
        Err(
            AppError::Config(
                string_of("Subscription body too large: ").concat(n.as_str()).concat(
                    " bytes (limit ",
                ).concat(limit.as_str()).concat(")"),
            ),
        )
    }
}

// ---------------------------------------------------------------------------
// Decoding the body
// ---------------------------------------------------------------------------

/// What the `STANDARD` engine of the base64 crate decodes `input` to
/// (`None` where it reports an error).
pub uninterp spec fn base64_standard_decode(input: Seq<u8>) -> Option<Seq<u8>>;

/// What the `URL_SAFE` engine of the base64 crate decodes `input` to.
pub uninterp spec fn base64_url_safe_decode(input: Seq<u8>) -> Option<Seq<u8>>;

pub open spec fn opt_bytes(o: Option<Vec<u8>>) -> Option<Seq<u8>> {
    match o {
        Some(v) => Some(v@),
        None => None,
    }
}

/// `base64::engine::general_purpose::STANDARD.decode`: the result is named
/// by [`base64_standard_decode`] of the input; an error becomes `None`.
#[verifier::external_body]
fn b64_standard(input: &[u8]) -> (r: Option<Vec<u8>>)
    ensures
        opt_bytes(r) == base64_standard_decode(input@),
{
    base64::engine::general_purpose::STANDARD.decode(input).ok()
}

/// `base64::engine::general_purpose::URL_SAFE.decode`, likewise.
#[verifier::external_body]
fn b64_url_safe(input: &[u8]) -> (r: Option<Vec<u8>>)
    ensures
        opt_bytes(r) == base64_url_safe_decode(input@),
{
    base64::engine::general_purpose::URL_SAFE.decode(input).ok()
}

/// `u8::is_ascii_whitespace`: space, tab, line feed, form feed, carriage
/// return.
pub open spec fn is_ascii_ws(b: u8) -> bool {
    b == 32 || b == 9 || b == 10 || b == 12 || b == 13
}

/// The body without ASCII whitespace, which base64 decoding does not take.
pub open spec fn strip_ascii_ws(b: Seq<u8>) -> Seq<u8> {
    b.filter(|x: u8| !is_ascii_ws(x))
}

/// The body's text: base64 (standard, then URL-safe) when it decodes to
/// UTF-8, otherwise the body itself read as UTF-8 (invalid sequences
/// replaced).
pub open spec fn body_text(body: Seq<u8>) -> Seq<char> {
    let t = strip_ascii_ws(body);
    match base64_standard_decode(t) {
        Some(d) if valid_utf8(d) => decode_utf8(d),
        _ => match base64_url_safe_decode(t) {
            Some(d) if valid_utf8(d) => decode_utf8(d),
            _ => utf8_lossy(body),
        },
    }
}

fn strip_whitespace(body: &[u8]) -> (r: Vec<u8>)
    ensures
        r@ == strip_ascii_ws(body@),
{
    let mut out: Vec<u8> = Vec::new();
    let mut i: usize = 0;
    while i < body.len()
        invariant
            i <= body@.len(),
            out@ == strip_ascii_ws(body@.take(i as int)),
        decreases body@.len() - i,
    {
        proof {
            reveal(Seq::filter);
            assert(body@.take(i + 1).drop_last() =~= body@.take(i as int));
        }
        let c = body[i];
        if !(c == 32 || c == 9 || c == 10 || c == 12 || c == 13) {
            out.push(c);
        }
        i = i + 1;
    }
    assert(body@.take(body@.len() as int) =~= body@);
    out
}

/// The text of a subscription body (see [`body_text`]).
pub fn decode_body(body: &[u8]) -> (r: String)
    ensures
        r@ == body_text(body@),
{
    let trimmed = strip_whitespace(body);
    if let Some(decoded) = b64_standard(trimmed.as_slice()) {
        if let Some(s) = string_from_utf8(decoded) {
            return s;
        }
    }
    if let Some(decoded) = b64_url_safe(trimmed.as_slice()) {
        if let Some(s) = string_from_utf8(decoded) {
            return s;
        }
    }
    string_from_utf8_lossy(body)
}

// ---------------------------------------------------------------------------
// Reading the links
// ---------------------------------------------------------------------------

/// A line of the body, trimmed.
pub open spec fn trimmed_line(l: Seq<u8>) -> Seq<char> {
    trim_chars(utf8_lossy(l))
}

/// The trimmed lines of a text that start with `vless://`.
pub open spec fn link_lines(text: Seq<char>) -> Seq<Seq<char>> {
    text_lines(encode_utf8(text)).map_values(|l: Seq<u8>| trimmed_line(l)).filter(
        |l: Seq<char>| text_starts_with(l, "vless://"@),
    )
}

/// A link that reads as a server (whatever identifier it would get).
pub open spec fn link_parses(l: Seq<char>) -> bool {
    parse_uri_spec(encode_utf8(trim_chars(l)), Seq::empty()) is Ok
}

/// The links of a body that read as servers, in order.
pub open spec fn good_links(body: Seq<u8>) -> Seq<Seq<char>> {
    link_lines(body_text(body)).filter(|l: Seq<char>| link_parses(l))
}

pub open spec fn server_views(v: Seq<ServerConfig>) -> Seq<ServerView> {
    v.map_values(|s: ServerConfig| s@)
}

/// The servers read from `links`: one per link, in order, each the reading
/// of its link with a fresh random identifier.
pub open spec fn servers_from_links(r: Seq<ServerView>, links: Seq<Seq<char>>) -> bool {
    &&& r.len() == links.len()
    &&& forall|k: int|
        0 <= k < r.len() ==> is_uuid_v4_text((#[trigger] r[k]).id) && parse_uri_spec(
            encode_utf8(trim_chars(links[k])),
            r[k].id,
        ) == Ok::<ServerView, AppErrorView>(r[k])
}

/// One line of the body: a trimmed `vless://` line that reads as a server
/// adds it.
fn read_link_line(servers: &mut Vec<ServerConfig>, b: &[u8], lo: usize, hi: usize)
    requires
        lo <= hi <= b@.len(),
    ensures
        ({
            let l = trimmed_line(b@.subrange(lo as int, hi as int));
            if text_starts_with(l, "vless://"@) && link_parses(l) {
                server_views(final(servers)@).drop_last() == server_views(old(servers)@)
                    && servers_from_links(seq![server_views(final(servers)@).last()], seq![l])
                    && final(servers)@.len() == old(servers)@.len() + 1
            } else {
                final(servers)@ == old(servers)@
            }
        }),
{
    let v = copy_range(b, lo, hi);
    let text = string_from_utf8_lossy(v.as_slice());
    let line = str_trim(text.as_str());
    let ghost l = line@;
    if !starts_with(line, "vless://") {
        return ;
    }
    proof {
        lemma_trim_idempotent(text@);
    }
    match parse_vless_uri(line) {
        Ok(s) => {
            let ghost before = servers@;
            proof {
                lemma_parse_error_ignores_id(encode_utf8(trim_chars(l)), Seq::empty(), s@.id);
            }
            servers.push(s);
            assert(server_views(servers@).drop_last() =~= server_views(before));
        },
        Err(e) => {
            assert(parse_uri_spec(encode_utf8(trim_chars(l)), Seq::empty()) is Err);
        },
    }
}

/// Every share link in a subscription body that reads as a server, in
/// order; other lines and links that do not parse are skipped. Each server
/// gets a fresh random identifier.
pub fn parse_subscription_body(body: &[u8]) -> (r: Vec<ServerConfig>)
    ensures
        servers_from_links(server_views(r@), good_links(body@)),
{
    let text = decode_body(body);
    servers_from_text(text.as_str())
}

/// Every line of a decoded subscription text that, trimmed, starts with
/// `vless://` and reads as a server, in order; each server gets a fresh
/// random identifier.
pub fn servers_from_text(text: &str) -> (r: Vec<ServerConfig>)
    ensures
        servers_from_links(server_views(r@), link_lines(text@).filter(|l: Seq<char>| link_parses(l))),
{
    let b = text.as_bytes();
    let n = b.len();
    let ghost whole = b@;
    let ghost f = |l: Seq<u8>| trimmed_line(l);
    let ghost p1 = |l: Seq<char>| text_starts_with(l, "vless://"@);
    let ghost p2 = |l: Seq<char>| link_parses(l);
    let ghost mut done: Seq<Seq<u8>> = Seq::empty();
    let mut servers: Vec<ServerConfig> = Vec::new();
    let mut start: usize = 0;
    assert(whole.subrange(0, n as int) =~= whole);
    proof {
        reveal(Seq::filter);
        assert(done.map_values(f).filter(p1).filter(p2) =~= Seq::<Seq<char>>::empty());
    }
    while start < n
        invariant
            start <= n == b@.len(),
            whole == b@,
            f == (|l: Seq<u8>| trimmed_line(l)),
            p1 == (|l: Seq<char>| text_starts_with(l, "vless://"@)),
            p2 == (|l: Seq<char>| link_parses(l)),
            text_lines(whole) == done + text_lines(b@.subrange(start as int, n as int)),
            servers_from_links(server_views(servers@), done.map_values(f).filter(p1).filter(p2)),
        decreases n - start,
    {
        let ghost cur = b@.subrange(start as int, n as int);
        proof {
            lemma_find_first_char(cur, 10);
        }
        let (lo, hi, next) = match find_byte(b, start, n, 10) {
            Some(k) => {
                let ghost piece = b@.subrange(start as int, k as int);
                assert(cur.take(k - start) =~= piece);
                assert(cur.skip(k - start + 1) =~= b@.subrange(k + 1, n as int));
                let end = if k > start && b[k - 1] == 13 {
                    k - 1
                } else {
                    k
                };
                assert(strip_cr(piece) =~= b@.subrange(start as int, end as int));
                (start, end, k + 1)
            },
            None => (start, n, n),
        };
        let ghost line = b@.subrange(lo as int, hi as int);
        let ghost before = server_views(servers@);
        let ghost old_done = done;
        read_link_line(&mut servers, b, lo, hi);
        proof {
            done = done.push(line);
            assert(done.drop_last() =~= old_done);
            if next == n && hi == n {
                assert(text_lines(whole) =~= done);
            } else {
                assert(text_lines(whole) =~= done + text_lines(b@.subrange(next as int, n as int)));
            }
            lemma_link_step(old_done, line, f, p1, p2);
            let l = trimmed_line(line);
            let links = done.map_values(f).filter(p1).filter(p2);
            let old_links = old_done.map_values(f).filter(p1).filter(p2);
            let now = server_views(servers@);
            if p1(l) && p2(l) {
                assert(links == old_links.push(l));
                assert(now =~= before.push(now.last()));
                assert forall|k: int| 0 <= k < now.len() implies is_uuid_v4_text(
                    (#[trigger] now[k]).id,
                ) && parse_uri_spec(encode_utf8(trim_chars(links[k])), now[k].id) == Ok::<
                    ServerView,
                    AppErrorView,
                >(now[k]) by {
                    if k < before.len() {
                        assert(now[k] == before[k]);
                        assert(links[k] == old_links[k]);
                    } else {
                        let one = seq![now.last()];
                        assert(one[0] == now[k]);
                    }
                }
            } else {
                assert(links == old_links);
            }
        }
        start = next;
    }
    assert(b@.subrange(n as int, n as int) =~= Seq::<u8>::empty());
    assert(done + text_lines(Seq::<u8>::empty()) =~= done);
    servers
}

proof fn lemma_link_step(
    done: Seq<Seq<u8>>,
    line: Seq<u8>,
    f: spec_fn(Seq<u8>) -> Seq<char>,
    p1: spec_fn(Seq<char>) -> bool,
    p2: spec_fn(Seq<char>) -> bool,
)
    ensures
        done.push(line).map_values(f).filter(p1).filter(p2) == (if p1(f(line)) && p2(f(line)) {
            done.map_values(f).filter(p1).filter(p2).push(f(line))
        } else {
            done.map_values(f).filter(p1).filter(p2)
        }),
{
    reveal(Seq::filter);
    let m = done.push(line).map_values(f);
    assert(m =~= done.map_values(f).push(f(line)));
    assert(m.drop_last() =~= done.map_values(f));
    let a = m.filter(p1);
    if p1(f(line)) {
        assert(a == done.map_values(f).filter(p1).push(f(line)));
        assert(a.drop_last() =~= done.map_values(f).filter(p1));
    } else {
        assert(a == done.map_values(f).filter(p1));
    }
}

} // verus!
