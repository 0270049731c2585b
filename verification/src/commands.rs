//! What the commands of the user interface do to the saved data: the
//! server list, subscriptions and settings. Loading and saving them, and
//! talking to the running connection, is the caller's.
use vstd::prelude::*;

use crate::models::{
    clone_opt_string, clone_servers, default_bypass_domain_list, default_bypass_domains,
    opt_chars, servers_view, strings_view, subscriptions_view, validation_error, AppSettings,
    ConnectionStatus, ServerConfig, ServerView, SettingsView, Subscription, SubscriptionView,
};
use crate::text::{str_eq, str_trim, string_of, trim_chars};
use crate::uri::{is_uuid_v4_text, new_uuid_v4_string};
use crate::xray::{virtualnet_enabled, virtualnet_enabled_spec};

verus! {

/// The result of a connect request.
#[derive(Debug, Clone, Copy, PartialEq, Eq, Structural)]
pub enum ConnectOutcome {
    /// xray was started and is coming up (`Ok` to the user interface).
    Started,
    /// A password is needed before xray can be started with privileges;
    /// the user is asked for it and the request repeated.
    NeedsSudoPassword,
}

/// A subscription just added or refreshed, with the servers it brought.
#[derive(Debug)]
pub struct SubscriptionRefresh {
    pub subscription: Subscription,
    pub servers: Vec<ServerConfig>,
}

/// Checks a server before it is used (see `ServerConfig::validate`).
pub fn validate_config(server_config: ServerConfig) -> (r: Result<(), String>)
    ensures
        r is Ok <==> validation_error(server_config@) is None,
        r matches Err(m) ==> validation_error(server_config@) == Some(m@),
{
    server_config.validate()
}

/// `Server with id {id} not found`.
pub open spec fn server_not_found(id: Seq<char>) -> Seq<char> {
    "Server with id "@ + id + " not found"@
}

/// `Subscription with id {id} not found`.
pub open spec fn subscription_not_found(id: Seq<char>) -> Seq<char> {
    "Subscription with id "@ + id + " not found"@
}

fn server_not_found_text(id: &str) -> (r: String)
    ensures
        r@ == server_not_found(id@),
{
    string_of("Server with id ").concat(id).concat(" not found")
}

fn subscription_not_found_text(id: &str) -> (r: String)
    ensures
        r@ == subscription_not_found(id@),
{
    string_of("Subscription with id ").concat(id).concat(" not found")
}

// ---------------------------------------------------------------------------
// The server list
// ---------------------------------------------------------------------------

/// The server with another identifier.
pub open spec fn with_id(s: ServerView, id: Seq<char>) -> ServerView {
    ServerView { id, ..s }
}

/// Adds a server under a fresh random identifier and returns it as saved.
pub fn add_server(servers: &mut Vec<ServerConfig>, server_config: ServerConfig) -> (r: ServerConfig)
    ensures
        is_uuid_v4_text(r@.id),
        r@ == with_id(server_config@, r@.id),
        servers_view(final(servers)@) == servers_view(old(servers)@).push(r@),
{
    let mut new_server = server_config;
    new_server.id = new_uuid_v4_string();
    let ghost before = servers_view(servers@);
    let saved = new_server.clone();
    servers.push(new_server);
    assert(servers_view(servers@) =~= before.push(saved@));
    saved
}

fn position_of(servers: &Vec<ServerConfig>, id: &str) -> (r: Option<usize>)
    ensures
        match r {
            Some(i) => i < servers@.len() && servers@[i as int]@.id == id@ && forall|j: int|
                0 <= j < i ==> servers@[j]@.id != id@,
            None => forall|j: int| 0 <= j < servers@.len() ==> servers@[j]@.id != id@,
        },
{
    let mut i: usize = 0;
    while i < servers.len()
        invariant
            i <= servers@.len(),
            forall|j: int| 0 <= j < i ==> servers@[j]@.id != id@,
        decreases servers@.len() - i,
    {
        if str_eq(servers[i].id.as_str(), id) {
            return Some(i);
        }
        i = i + 1;
    }
    None
}

/// Replaces the first server with the same identifier; an error when there
/// is none.
pub fn update_server(servers: &mut Vec<ServerConfig>, server_config: ServerConfig) -> (r: Result<(), String>)
    ensures
        (exists|i: int| 0 <= i < old(servers)@.len() && old(servers)@[i]@.id == server_config@.id)
            <==> r is Ok,
        r matches Err(m) ==> m@ == server_not_found(server_config@.id) && final(servers)@
            == old(servers)@,
        r is Ok ==> exists|i: int|
            0 <= i < old(servers)@.len() && old(servers)@[i]@.id == server_config@.id && (forall|
                j: int,
            | 0 <= j < i ==> old(servers)@[j]@.id != server_config@.id) && servers_view(
                final(servers)@,
            ) == servers_view(old(servers)@).update(i, server_config@),
{
    match position_of(servers, server_config.id.as_str()) {
        None => Err(server_not_found_text(server_config.id.as_str())),
        Some(pos) => {
            let ghost before = servers_view(servers@);
            let ghost sv = server_config@;
            servers.set(pos, server_config);
            assert(servers_view(servers@) =~= before.update(pos as int, sv));
            Ok(())
        },
    }
}

/// Whether the server does not have the identifier.
pub open spec fn other_id(s: ServerView, id: Seq<char>) -> bool {
    s.id != id
}

/// Removes every server with the identifier; an error when there is none.
pub fn delete_server(servers: &mut Vec<ServerConfig>, id: &str) -> (r: Result<(), String>)
    ensures
        (exists|i: int| 0 <= i < old(servers)@.len() && old(servers)@[i]@.id == id@) <==> r is Ok,
        r matches Err(m) ==> m@ == server_not_found(id@),
        servers_view(final(servers)@) == servers_view(old(servers)@).filter(
            |s: ServerView| other_id(s, id@),
        ),
{
    let ghost pred = |s: ServerView| other_id(s, id@);
    let ghost before = servers_view(servers@);
    let mut kept: Vec<ServerConfig> = Vec::new();
    let mut i: usize = 0;
    let mut found = false;
    while i < servers.len()
        invariant
            i <= servers@.len(),
            before == servers_view(servers@),
            pred == (|s: ServerView| other_id(s, id@)),
            servers_view(kept@) == before.take(i as int).filter(pred),
            found == exists|j: int| 0 <= j < i && servers@[j]@.id == id@,
        decreases servers@.len() - i,
    {
        proof {
            reveal(Seq::filter);
            assert(before.take(i + 1).drop_last() =~= before.take(i as int));
            assert(before.take(i + 1).last() == servers@[i as int]@);
        }
        if str_eq(servers[i].id.as_str(), id) {
            found = true;
        } else {
            let ghost k = servers_view(kept@);
            kept.push(servers[i].clone());
            assert(servers_view(kept@) =~= k.push(servers@[i as int]@));
        }
        i = i + 1;
    }
    assert(before.take(servers@.len() as int) =~= before);
    if !found {
        assert(before.filter(pred) =~= before) by {
            lemma_filter_all(before, pred);
        }
        return Err(server_not_found_text(id));
    }
    *servers = kept;
    Ok(())
}

/// A filter that keeps everything changes nothing.
pub proof fn lemma_filter_all<A>(s: Seq<A>, p: spec_fn(A) -> bool)
    requires
        forall|i: int| 0 <= i < s.len() ==> p(#[trigger] s[i]),
    ensures
        s.filter(p) == s,
    decreases s.len(),
{
    reveal(Seq::filter);
    if s.len() > 0 {
        lemma_filter_all(s.drop_last(), p);
        assert(s.drop_last().push(s.last()) =~= s);
    }
}

/// Appends imported servers, each under a fresh random identifier, and
/// returns them as saved.
pub fn import_servers(servers: &mut Vec<ServerConfig>, imported: Vec<ServerConfig>) -> (r: Vec<ServerConfig>)
    ensures
        r@.len() == imported@.len(),
        forall|k: int|
            0 <= k < r@.len() ==> is_uuid_v4_text((#[trigger] r@[k])@.id) && r@[k]@ == with_id(
                imported@[k]@,
                r@[k]@.id,
            ),
        servers_view(final(servers)@) == servers_view(old(servers)@) + servers_view(r@),
{
    let mut fresh: Vec<ServerConfig> = Vec::new();
    let mut i: usize = 0;
    while i < imported.len()
        invariant
            i <= imported@.len(),
            fresh@.len() == i,
            forall|k: int|
                0 <= k < i ==> is_uuid_v4_text((#[trigger] fresh@[k])@.id) && fresh@[k]@ == with_id(
                    imported@[k]@,
                    fresh@[k]@.id,
                ),
        decreases imported@.len() - i,
    {
        let mut s = imported[i].clone();
        s.id = new_uuid_v4_string();
        fresh.push(s);
        i = i + 1;
    }
    let ghost before = servers_view(servers@);
    let mut j: usize = 0;
    while j < fresh.len()
        invariant
            j <= fresh@.len(),
            servers_view(servers@) == before + servers_view(fresh@.take(j as int)),
        decreases fresh@.len() - j,
    {
        let ghost cur = servers_view(servers@);
        servers.push(fresh[j].clone());
        assert(servers_view(servers@) =~= cur.push(fresh@[j as int]@));
        assert(servers_view(fresh@.take(j + 1)) =~= servers_view(fresh@.take(j as int)).push(
            fresh@[j as int]@,
        ));
        j = j + 1;
    }
    assert(fresh@.take(fresh@.len() as int) =~= fresh@);
    fresh
}

// ---------------------------------------------------------------------------
// Subscriptions
// ---------------------------------------------------------------------------

/// The trimmed name of a new subscription, which must not be empty.
pub fn subscription_name(name: &str) -> (r: Result<String, String>)
    ensures
        trim_chars(name@).len() > 0 ==> (r matches Ok(n) && n@ == trim_chars(name@)),
        trim_chars(name@).len() == 0 ==> (r matches Err(m) && m@
            == "Subscription name must not be empty"@),
{
    let t = str_trim(name);
    if t.unicode_len() == 0 {
        return Err(string_of("Subscription name must not be empty"));
    }
    Ok(string_of(t))
}

/// A fetch that brought no server is an error.
pub fn require_servers(parsed: &Vec<ServerConfig>) -> (r: Result<(), String>)
    ensures
        parsed@.len() > 0 ==> r is Ok,
        parsed@.len() == 0 ==> (r matches Err(m) && m@ == "No vless:// servers found in subscription"@),
{
    if parsed.len() == 0 {
        return Err(string_of("No vless:// servers found in subscription"));
    }
    Ok(())
}

/// The server as imported from subscription `sub`.
pub open spec fn tagged(s: ServerView, id: Seq<char>, sub: Seq<char>) -> ServerView {
    ServerView { id, subscription_id: Some(sub), ..s }
}

/// The fetched servers of a new subscription, each under a fresh random
/// identifier and tagged with the subscription.
pub fn tag_new_servers(parsed: Vec<ServerConfig>, sub_id: &str) -> (r: Vec<ServerConfig>)
    ensures
        r@.len() == parsed@.len(),
        forall|k: int|
            0 <= k < r@.len() ==> is_uuid_v4_text((#[trigger] r@[k])@.id) && r@[k]@ == tagged(
                parsed@[k]@,
                r@[k]@.id,
                sub_id@,
            ),
{
    let mut out: Vec<ServerConfig> = Vec::new();
    let mut i: usize = 0;
    while i < parsed.len()
        invariant
            i <= parsed@.len(),
            out@.len() == i,
            forall|k: int|
                0 <= k < i ==> is_uuid_v4_text((#[trigger] out@[k])@.id) && out@[k]@ == tagged(
                    parsed@[k]@,
                    out@[k]@.id,
                    sub_id@,
                ),
        decreases parsed@.len() - i,
    {
        let mut s = parsed[i].clone();
        s.id = new_uuid_v4_string();
        s.subscription_id = Some(string_of(sub_id));
        out.push(s);
        i = i + 1;
    }
    out
}

/// The record of a new subscription: a fresh identifier, the name, the
/// trimmed URL, the time and the number of servers.
pub fn new_subscription(name: String, url: &str, now: u64, count: usize) -> (r: Subscription)
    ensures
        is_uuid_v4_text(r@.id),
        r@.name == name@,
        r@.url == trim_chars(url@),
        r@.last_updated_at == Some(now),
        r@.last_server_count == Some(count as u32),
{
    Subscription {
        id: new_uuid_v4_string(),
        name,
        url: string_of(str_trim(url)),
        last_updated_at: Some(now),
        last_server_count: Some(count as u32),
    }
}

/// The URL of the subscription with the identifier.
pub fn subscription_url(subs: &Vec<Subscription>, id: &str) -> (r: Result<String, String>)
    ensures
        (exists|i: int| 0 <= i < subs@.len() && subs@[i]@.id == id@) <==> r is Ok,
        r matches Ok(u) ==> exists|i: int|
            0 <= i < subs@.len() && subs@[i]@.id == id@ && (forall|j: int|
                0 <= j < i ==> subs@[j]@.id != id@) && u@ == subs@[i]@.url,
        r matches Err(m) ==> m@ == subscription_not_found(id@),
{
    let mut i: usize = 0;
    while i < subs.len()
        invariant
            i <= subs@.len(),
            forall|j: int| 0 <= j < i ==> subs@[j]@.id != id@,
        decreases subs@.len() - i,
    {
        if str_eq(subs[i].id.as_str(), id) {
            return Ok(subs[i].url.clone());
        }
        i = i + 1;
    }
    Err(subscription_not_found_text(id))
}

/// Whether a server came from subscription `sub`.
pub open spec fn from_subscription(s: ServerView, sub: Seq<char>) -> bool {
    s.subscription_id == Some(sub)
}

/// The same server from the user's point of view: same address, port and
/// VLESS user.
pub open spec fn same_endpoint(a: ServerView, b: ServerView) -> bool {
    a.address == b.address && a.port == b.port && a.uuid == b.uuid
}

/// The identifier a re-fetched server keeps: that of the last server of
/// the subscription with the same endpoint, if any.
pub open spec fn preserved_id(servers: Seq<ServerView>, sub: Seq<char>, s: ServerView) -> Option<Seq<char>>
    decreases servers.len(),
{
    if servers.len() == 0 {
        None
    } else if from_subscription(servers.last(), sub) && same_endpoint(servers.last(), s) {
        Some(servers.last().id)
    } else {
        preserved_id(servers.drop_last(), sub, s)
    }
}

proof fn lemma_preserved_in_prefix(
    kept: Seq<ServerView>,
    parsed: Seq<ServerView>,
    fresh: Seq<ServerView>,
    sub: Seq<char>,
    k: int,
    n: int,
)
    requires
        fresh.len() == parsed.len(),
        forall|i: int| 0 <= i < fresh.len() ==> #[trigger] fresh[i] == tagged(parsed[i], fresh[i].id, sub),
        forall|i: int, j: int|
            0 <= i < j < parsed.len() ==> !same_endpoint(#[trigger] parsed[i], #[trigger] parsed[j]),
        0 <= k < n <= fresh.len(),
    ensures
        preserved_id(kept + fresh.take(n), sub, parsed[k]) == Some(fresh[k].id),
    decreases n,
{
    let xs = kept + fresh.take(n);
    assert(xs.last() == fresh[n - 1]);
    if n - 1 == k {
        assert(fresh[k] == tagged(parsed[k], fresh[k].id, sub));
    } else {
        assert(fresh[n - 1] == tagged(parsed[n - 1], fresh[n - 1].id, sub));
        assert(!same_endpoint(parsed[k], parsed[n - 1]));
        assert(xs.drop_last() =~= kept + fresh.take(n - 1));
        lemma_preserved_in_prefix(kept, parsed, fresh, sub, k, n - 1);
    }
}

/// A subscription refreshed twice with the same servers keeps the
/// identifiers the first refresh gave them: after the first refresh has
/// left `kept + fresh` (each of `fresh` a server of `parsed` tagged with the
/// subscription), every server of `parsed` finds its own identifier again,
/// provided no two of them share an endpoint.
pub proof fn lemma_refresh_keeps_ids(
    kept: Seq<ServerView>,
    parsed: Seq<ServerView>,
    fresh: Seq<ServerView>,
    sub: Seq<char>,
    k: int,
)
    requires
        fresh.len() == parsed.len(),
        forall|i: int| 0 <= i < fresh.len() ==> #[trigger] fresh[i] == tagged(parsed[i], fresh[i].id, sub),
        forall|i: int, j: int|
            0 <= i < j < parsed.len() ==> !same_endpoint(#[trigger] parsed[i], #[trigger] parsed[j]),
        0 <= k < parsed.len(),
    ensures
        preserved_id(kept + fresh, sub, parsed[k]) == Some(fresh[k].id),
{
    lemma_preserved_in_prefix(kept, parsed, fresh, sub, k, fresh.len() as int);
    assert(fresh.take(fresh.len() as int) =~= fresh);
}

/// A refreshed server inherits an identifier only from an old server of
/// the same subscription with the same address, the same port and the
/// same VLESS user; when there is such a server it inherits the
/// identifier of the last one.
pub proof fn lemma_preserved_id_source(servers: Seq<ServerView>, sub: Seq<char>, s: ServerView)
    ensures
        preserved_id(servers, sub, s) is Some <==> exists|i: int|
            0 <= i < servers.len() && (#[trigger] servers[i]).subscription_id == Some(sub)
                && servers[i].address == s.address && servers[i].port == s.port && servers[i].uuid
                == s.uuid,
        preserved_id(servers, sub, s) matches Some(id) ==> exists|i: int|
            0 <= i < servers.len() && (#[trigger] servers[i]).id == id && servers[i].subscription_id
                == Some(sub) && servers[i].address == s.address && servers[i].port == s.port
                && servers[i].uuid == s.uuid && forall|j: int|
                i < j < servers.len() ==> !((#[trigger] servers[j]).subscription_id == Some(sub)
                    && servers[j].address == s.address && servers[j].port == s.port && servers[j].uuid
                    == s.uuid),
    decreases servers.len(),
{
    if servers.len() > 0 {
        let init = servers.drop_last();
        lemma_preserved_id_source(init, sub, s);
        let n = servers.len() - 1;
        let last = servers[n];
        if last.subscription_id == Some(sub) && last.address == s.address && last.port == s.port
            && last.uuid == s.uuid {
            assert(servers[n] == last);
        } else {
            assert forall|i: int| 0 <= i < init.len() implies init[i] == servers[i] by {}
            if let Some(id) = preserved_id(servers, sub, s) {
                let i = choose|i: int|
                    0 <= i < init.len() && (#[trigger] init[i]).id == id && init[i].subscription_id
                        == Some(sub) && init[i].address == s.address && init[i].port == s.port
                        && init[i].uuid == s.uuid && forall|j: int|
                        i < j < init.len() ==> !((#[trigger] init[j]).subscription_id == Some(sub)
                            && init[j].address == s.address && init[j].port == s.port && init[j].uuid
                            == s.uuid);
                assert(servers[i] == init[i]);
                assert forall|j: int| i < j < servers.len() implies !((#[trigger] servers[j]).subscription_id
                    == Some(sub) && servers[j].address == s.address && servers[j].port == s.port
                    && servers[j].uuid == s.uuid) by {
                    if j < n {
                        assert(servers[j] == init[j]);
                    }
                }
            }
            if exists|i: int|
                0 <= i < servers.len() && (#[trigger] servers[i]).subscription_id == Some(sub)
                    && servers[i].address == s.address && servers[i].port == s.port && servers[i].uuid
                    == s.uuid {
                let i = choose|i: int|
                    0 <= i < servers.len() && (#[trigger] servers[i]).subscription_id == Some(sub)
                        && servers[i].address == s.address && servers[i].port == s.port
                        && servers[i].uuid == s.uuid;
                assert(i < n);
                assert(init[i] == servers[i]);
            }
        }
    }
}

fn find_preserved_id(servers: &Vec<ServerConfig>, sub_id: &str, s: &ServerConfig) -> (r: Option<String>)
    ensures
        opt_chars(r) == preserved_id(servers_view(servers@), sub_id@, s@),
{
    let ghost sv = servers_view(servers@);
    let mut found: Option<String> = None;
    let mut i: usize = 0;
    while i < servers.len()
        invariant
            i <= servers@.len(),
            sv == servers_view(servers@),
            opt_chars(found) == preserved_id(sv.take(i as int), sub_id@, s@),
        decreases servers@.len() - i,
    {
        let c = &servers[i];
        proof {
            assert(sv.take(i + 1).drop_last() =~= sv.take(i as int));
            assert(sv.take(i + 1).last() == c@);
        }
        let in_sub = match &c.subscription_id {
            Some(x) => str_eq(x.as_str(), sub_id),
            None => false,
        };
        if in_sub && str_eq(c.address.as_str(), s.address.as_str()) && c.port == s.port && str_eq(
            c.uuid.as_str(),
            s.uuid.as_str(),
        ) {
            found = Some(c.id.clone());
        }
        i = i + 1;
    }
    assert(sv.take(servers@.len() as int) =~= sv);
    found
}

/// Whether a server is not from subscription `sub`.
pub open spec fn not_from(s: ServerView, sub: Seq<char>) -> bool {
    !from_subscription(s, sub)
}

/// Replaces the servers of subscription `sub_id` with the re-fetched ones
/// and returns these: each keeps the identifier of the old server with the
/// same endpoint ([`preserved_id`]), otherwise it takes the identifier
/// `fresh_ids[k]`; all are tagged with the subscription. Manually added
/// servers and those of other subscriptions stay as they were, in order.
pub fn refresh_subscription_servers_with_ids(
    servers: &mut Vec<ServerConfig>,
    parsed: Vec<ServerConfig>,
    sub_id: &str,
    fresh_ids: Vec<String>,
) -> (r: Vec<ServerConfig>)
    requires
        fresh_ids@.len() >= parsed@.len(),
    ensures
        r@.len() == parsed@.len(),
        forall|k: int|
            0 <= k < r@.len() ==> (#[trigger] r@[k])@ == tagged(
                parsed@[k]@,
                match preserved_id(servers_view(old(servers)@), sub_id@, parsed@[k]@) {
                    Some(id) => id,
                    None => fresh_ids@[k]@,
                },
                sub_id@,
            ),
        servers_view(final(servers)@) == servers_view(old(servers)@).filter(
            |s: ServerView| not_from(s, sub_id@),
        ) + servers_view(r@),
{
    let ghost old_servers = servers_view(servers@);
    let mut fresh: Vec<ServerConfig> = Vec::new();
    let mut i: usize = 0;
    while i < parsed.len()
        invariant
            i <= parsed@.len(),
            fresh_ids@.len() >= parsed@.len(),
            old_servers == servers_view(servers@),
            fresh@.len() == i,
            forall|k: int|
                0 <= k < i ==> (#[trigger] fresh@[k])@ == tagged(
                    parsed@[k]@,
                    match preserved_id(old_servers, sub_id@, parsed@[k]@) {
                        Some(id) => id,
                        None => fresh_ids@[k]@,
                    },
                    sub_id@,
                ),
        decreases parsed@.len() - i,
    {
        let mut s = parsed[i].clone();
        s.id = match find_preserved_id(servers, sub_id, &parsed[i]) {
            Some(id) => id,
            None => fresh_ids[i].clone(),
        };
        s.subscription_id = Some(string_of(sub_id));
        fresh.push(s);
        i = i + 1;
    }
    let ghost pred = |s: ServerView| not_from(s, sub_id@);
    let mut kept: Vec<ServerConfig> = Vec::new();
    let mut j: usize = 0;
    while j < servers.len()
        invariant
            j <= servers@.len(),
            old_servers == servers_view(servers@),
            pred == (|s: ServerView| not_from(s, sub_id@)),
            servers_view(kept@) == old_servers.take(j as int).filter(pred),
        decreases servers@.len() - j,
    {
        proof {
            reveal(Seq::filter);
            assert(old_servers.take(j + 1).drop_last() =~= old_servers.take(j as int));
            assert(old_servers.take(j + 1).last() == servers@[j as int]@);
        }
        let in_sub = match &servers[j].subscription_id {
            Some(x) => str_eq(x.as_str(), sub_id),
            None => false,
        };
        if !in_sub {
            let ghost k = servers_view(kept@);
            kept.push(servers[j].clone());
            assert(servers_view(kept@) =~= k.push(servers@[j as int]@));
        }
        j = j + 1;
    }
    assert(old_servers.take(servers@.len() as int) =~= old_servers);
    let ghost kept_v = servers_view(kept@);
    let mut m: usize = 0;
    while m < fresh.len()
        invariant
            m <= fresh@.len(),
            servers_view(kept@) == kept_v + servers_view(fresh@.take(m as int)),
        decreases fresh@.len() - m,
    {
        let ghost cur = servers_view(kept@);
        kept.push(fresh[m].clone());
        assert(servers_view(kept@) =~= cur.push(fresh@[m as int]@));
        assert(servers_view(fresh@.take(m + 1)) =~= servers_view(fresh@.take(m as int)).push(
            fresh@[m as int]@,
        ));
        m = m + 1;
    }
    assert(fresh@.take(fresh@.len() as int) =~= fresh@);
    *servers = kept;
    fresh
}

/// Refreshes the servers of a subscription (see
/// [`refresh_subscription_servers_with_ids`]); a server with no old
/// counterpart gets a fresh random identifier.
pub fn refresh_subscription_servers(
    servers: &mut Vec<ServerConfig>,
    parsed: Vec<ServerConfig>,
    sub_id: &str,
) -> (r: Vec<ServerConfig>)
    ensures
        r@.len() == parsed@.len(),
        forall|k: int|
            0 <= k < r@.len() ==> match preserved_id(
                servers_view(old(servers)@),
                sub_id@,
                parsed@[k]@,
            ) {
                Some(id) => (#[trigger] r@[k])@ == tagged(parsed@[k]@, id, sub_id@),
                None => is_uuid_v4_text(r@[k]@.id) && r@[k]@ == tagged(parsed@[k]@, r@[k]@.id, sub_id@),
            },
        servers_view(final(servers)@) == servers_view(old(servers)@).filter(
            |s: ServerView| not_from(s, sub_id@),
        ) + servers_view(r@),
{
    let mut ids: Vec<String> = Vec::new();
    let mut i: usize = 0;
    while i < parsed.len()
        invariant
            i <= parsed@.len(),
            ids@.len() == i,
            forall|k: int| 0 <= k < i ==> is_uuid_v4_text(#[trigger] ids@[k]@),
        decreases parsed@.len() - i,
    {
        ids.push(new_uuid_v4_string());
        i = i + 1;
    }
    let ghost idv = ids@;
    let r = refresh_subscription_servers_with_ids(servers, parsed, sub_id, ids);
    assert forall|k: int| 0 <= k < r@.len() implies is_uuid_v4_text(idv[k]@) by {}
    r
}

/// Records a refresh of the subscription with the identifier: the time and
/// the number of servers; returns the updated record.
pub fn mark_subscription_refreshed(subs: &mut Vec<Subscription>, id: &str, now: u64, count: usize) -> (r: Result<Subscription, String>)
    ensures
        (exists|i: int| 0 <= i < old(subs)@.len() && old(subs)@[i]@.id == id@) <==> r is Ok,
        r matches Err(m) ==> m@ == subscription_not_found(id@) && final(subs)@ == old(subs)@,
        r matches Ok(u) ==> exists|i: int|
            0 <= i < old(subs)@.len() && old(subs)@[i]@.id == id@ && (forall|j: int|
                0 <= j < i ==> old(subs)@[j]@.id != id@) && u@ == (SubscriptionView {
                last_updated_at: Some(now),
                last_server_count: Some(count as u32),
                ..old(subs)@[i]@
            }) && subscriptions_view(final(subs)@) == subscriptions_view(old(subs)@).update(i, u@),
{
    let mut i: usize = 0;
    while i < subs.len()
        invariant
            i <= subs@.len(),
            subs@ == old(subs)@,
            forall|j: int| 0 <= j < i ==> subs@[j]@.id != id@,
        decreases subs@.len() - i,
    {
        if str_eq(subs[i].id.as_str(), id) {
            let mut u = subs[i].clone();
            u.last_updated_at = Some(now);
            u.last_server_count = Some(count as u32);
            let ghost before = subscriptions_view(subs@);
            let ghost uv = u@;
            let result = u.clone();
            subs.set(i, u);
            assert(subscriptions_view(subs@) =~= before.update(i as int, uv));
            return Ok(result);
        }
        i = i + 1;
    }
    Err(subscription_not_found_text(id))
}

/// Whether a subscription does not have the identifier.
pub open spec fn other_sub_id(s: SubscriptionView, id: Seq<char>) -> bool {
    s.id != id
}

/// A server no longer tagged with subscription `sub`.
pub open spec fn untagged(s: ServerView, sub: Seq<char>) -> ServerView {
    if from_subscription(s, sub) {
        ServerView { subscription_id: None, ..s }
    } else {
        s
    }
}

/// Deletes the subscription with the identifier (an error when there is
/// none, changing nothing); its servers are deleted too when asked,
/// otherwise only untagged.
pub fn delete_subscription(
    subs: &mut Vec<Subscription>,
    servers: &mut Vec<ServerConfig>,
    id: &str,
    delete_servers: bool,
) -> (r: Result<(), String>)
    ensures
        (exists|i: int| 0 <= i < old(subs)@.len() && old(subs)@[i]@.id == id@) <==> r is Ok,
        r matches Err(m) ==> m@ == subscription_not_found(id@) && final(subs)@ == old(subs)@
            && final(servers)@ == old(servers)@,
        r is Ok ==> subscriptions_view(final(subs)@) == subscriptions_view(old(subs)@).filter(
            |s: SubscriptionView| other_sub_id(s, id@),
        ),
        r is Ok && delete_servers ==> servers_view(final(servers)@) == servers_view(
            old(servers)@,
        ).filter(|s: ServerView| not_from(s, id@)),
        r is Ok && !delete_servers ==> servers_view(final(servers)@) == servers_view(
            old(servers)@,
        ).map_values(|s: ServerView| untagged(s, id@)),
{
    let ghost pred = |s: SubscriptionView| other_sub_id(s, id@);
    let ghost before = subscriptions_view(subs@);
    let mut kept: Vec<Subscription> = Vec::new();
    let mut found = false;
    let mut i: usize = 0;
    while i < subs.len()
        invariant
            i <= subs@.len(),
            before == subscriptions_view(subs@),
            pred == (|s: SubscriptionView| other_sub_id(s, id@)),
            subscriptions_view(kept@) == before.take(i as int).filter(pred),
            found == exists|j: int| 0 <= j < i && subs@[j]@.id == id@,
        decreases subs@.len() - i,
    {
        proof {
            reveal(Seq::filter);
            assert(before.take(i + 1).drop_last() =~= before.take(i as int));
            assert(before.take(i + 1).last() == subs@[i as int]@);
        }
        if str_eq(subs[i].id.as_str(), id) {
            found = true;
        } else {
            let ghost k = subscriptions_view(kept@);
            kept.push(subs[i].clone());
            assert(subscriptions_view(kept@) =~= k.push(subs@[i as int]@));
        }
        i = i + 1;
    }
    assert(before.take(subs@.len() as int) =~= before);
    if !found {
        return Err(subscription_not_found_text(id));
    }
    *subs = kept;
    let ghost sv = servers_view(servers@);
    if delete_servers {
        let ghost p2 = |s: ServerView| not_from(s, id@);
        let mut rest: Vec<ServerConfig> = Vec::new();
        let mut j: usize = 0;
        while j < servers.len()
            invariant
                j <= servers@.len(),
                sv == servers_view(servers@),
                p2 == (|s: ServerView| not_from(s, id@)),
                servers_view(rest@) == sv.take(j as int).filter(p2),
            decreases servers@.len() - j,
        {
            proof {
                reveal(Seq::filter);
                assert(sv.take(j + 1).drop_last() =~= sv.take(j as int));
                assert(sv.take(j + 1).last() == servers@[j as int]@);
            }
            let in_sub = match &servers[j].subscription_id {
                Some(x) => str_eq(x.as_str(), id),
                None => false,
            };
            if !in_sub {
                let ghost k = servers_view(rest@);
                rest.push(servers[j].clone());
                assert(servers_view(rest@) =~= k.push(servers@[j as int]@));
            }
            j = j + 1;
        }
        assert(sv.take(servers@.len() as int) =~= sv);
        *servers = rest;
    } else {
        let mut j: usize = 0;
        while j < servers.len()
            invariant
                j <= servers@.len(),
                servers@.len() == sv.len(),
                forall|k: int| 0 <= k < j ==> #[trigger] servers@[k]@ == untagged(sv[k], id@),
                forall|k: int| j <= k < servers@.len() ==> #[trigger] servers@[k]@ == sv[k],
            decreases servers@.len() - j,
        {
            let in_sub = match &servers[j].subscription_id {
                Some(x) => str_eq(x.as_str(), id),
                None => false,
            };
            if in_sub {
                let mut s = servers[j].clone();
                s.subscription_id = None;
                servers.set(j, s);
            }
            j = j + 1;
        }
        assert(servers_view(servers@) =~= sv.map_values(|s: ServerView| untagged(s, id@)));
    }
    Ok(())
}

// ---------------------------------------------------------------------------
// Settings
// ---------------------------------------------------------------------------

/// Settings as loaded: an empty bypass list (saved by an older version)
/// is replaced by the default one.
pub open spec fn migrated_settings(s: SettingsView) -> SettingsView {
    if s.bypass_domains.len() == 0 {
        SettingsView { bypass_domains: default_bypass_domains(), ..s }
    } else {
        s
    }
}

pub fn migrate_settings(settings: AppSettings) -> (r: AppSettings)
    ensures
        r@ == migrated_settings(settings@),
{
    let mut s = settings;
    if s.bypass_domains.len() == 0 {
        s.bypass_domains = default_bypass_domain_list();
    }
    s
}

/// Records the server connected to, for auto-connect and the tray.
pub fn remember_last_server(settings: &mut AppSettings, server_id: &str)
    ensures
        final(settings)@ == (SettingsView { last_server_id: Some(server_id@), ..old(settings)@ }),
{
    settings.last_server_id = Some(string_of(server_id));
}

/// Whether a connection is up or coming up.
pub open spec fn is_active(status: ConnectionStatus) -> bool {
    status == ConnectionStatus::Connected || status == ConnectionStatus::Connecting
}

fn same_strings(a: &Vec<String>, b: &Vec<String>) -> (r: bool)
    ensures
        r == (strings_view(a@) == strings_view(b@)),
{
    if a.len() != b.len() {
        assert(strings_view(a@).len() != strings_view(b@).len());
        return false;
    }
    let mut i: usize = 0;
    while i < a.len()
        invariant
            i <= a@.len(),
            a@.len() == b@.len(),
            forall|k: int| 0 <= k < i ==> a@[k]@ == b@[k]@,
        decreases a@.len() - i,
    {
        if !str_eq(a[i].as_str(), b[i].as_str()) {
            assert(strings_view(a@)[i as int] != strings_view(b@)[i as int]);
            return false;
        }
        i = i + 1;
    }
    assert(strings_view(a@) =~= strings_view(b@));
    true
}

/// A new bypass list: saved into the settings; whether the running
/// connection must be restarted with it, and with which server.
/// No restart when no connection is up or coming up, or the list did not
/// change; otherwise the last server must be known and in the list.
pub fn plan_bypass_update(
    settings: &mut AppSettings,
    domains: &Vec<String>,
    status: ConnectionStatus,
    servers: &Vec<ServerConfig>,
) -> (r: Result<Option<ServerConfig>, String>)
    ensures
        final(settings)@ == (SettingsView { bypass_domains: strings_view(domains@), ..old(settings)@ }),
        (!is_active(status) || old(settings)@.bypass_domains == strings_view(domains@)) ==> r
            matches Ok(None),
        (is_active(status) && old(settings)@.bypass_domains != strings_view(domains@)) ==> match old(
            settings,
        )@.last_server_id {
            None => r matches Err(m) && m@ == "No last_server_id; cannot reload bypass without a known server"@,
            Some(id) => if exists|i: int| 0 <= i < servers@.len() && servers@[i]@.id == id {
                r matches Ok(Some(s)) && exists|i: int|
                    0 <= i < servers@.len() && servers@[i]@.id == id && (forall|j: int|
                        0 <= j < i ==> servers@[j]@.id != id) && s@ == servers@[i]@
            } else {
                r matches Err(m) && m@ == server_not_found(id)
            },
        },
{
    let unchanged = same_strings(&settings.bypass_domains, domains);
    settings.bypass_domains = crate::models::clone_strings(domains);
    let active = status == ConnectionStatus::Connected || status == ConnectionStatus::Connecting;
    if !active || unchanged {
        return Ok(None);
    }
    let server_id = match &settings.last_server_id {
        None => {
            return Err(string_of("No last_server_id; cannot reload bypass without a known server"));
        },
        Some(id) => id,
    };
    match position_of(servers, server_id.as_str()) {
        None => Err(server_not_found_text(server_id.as_str())),
        Some(pos) => Ok(Some(servers[pos].clone())),
    }
}


/// The server to connect to at startup: with automatic connection on, the
/// first server whose identifier is the last one used; none otherwise.
pub open spec fn auto_connect_index(settings: SettingsView, servers: Seq<ServerView>) -> Option<int> {
    match settings.last_server_id {
        Some(id) => if settings.auto_connect && exists|j: int|
            0 <= j < servers.len() && #[trigger] servers[j].id == id {
            Some(
                choose|i: int|
                    0 <= i < servers.len() && servers[i].id == id && forall|j: int|
                        0 <= j < i ==> #[trigger] servers[j].id != id,
            )
        } else {
            None
        },
        None => None,
    }
}

/// Where in the list the server to connect to at startup is (see
/// [`auto_connect_index`]).
pub fn auto_connect_server(settings: &AppSettings, servers: &Vec<ServerConfig>) -> (r: Option<usize>)
    ensures
        match r {
            Some(i) => auto_connect_index(settings@, servers_view(servers@)) == Some(i as int),
            None => auto_connect_index(settings@, servers_view(servers@)) is None,
        },
{
    let ghost sv = servers_view(servers@);
    if !settings.auto_connect {
        return None;
    }
    match &settings.last_server_id {
        None => None,
        Some(id) => {
            let r = position_of(servers, id.as_str());
            match r {
                Some(i) => {
                    proof {
                        assert(sv[i as int].id == id@);
                        let c = choose|k: int|
                            0 <= k < sv.len() && sv[k].id == id@ && forall|j: int|
                                0 <= j < k ==> #[trigger] sv[j].id != id@;
                        assert(0 <= c < sv.len() && sv[c].id == id@);
                        if c < i {
                            assert(servers@[c]@.id != id@);
                        }
                        if i < c {
                            assert(sv[i as int].id != id@);
                        }
                    }
                    Some(i)
                },
                None => {
                    assert forall|j: int| 0 <= j < sv.len() implies #[trigger] sv[j].id != id@ by {
                        assert(sv[j] == servers@[j]@);
                    }
                    None
                },
            }
        },
    }
}


/// The error when a server without L3 settings is used where only L3 runs.
pub const L3_ONLY_ERROR: &'static str =
    "macOS build of v2rayV supports L3 (vnet=1) servers only. The selected server is missing vnet=1/vnetIp= parameters.";

/// What a connect request does before anything is started: an invalid
/// server is refused with its first problem; where only L3 servers run
/// (`l3_only`), a server without L3 settings is refused, and without a
/// saved password the user is asked for one (`Ok(Some(NeedsSudoPassword))`);
/// otherwise the start goes ahead (`Ok(None)`).
pub fn connect_precheck(server: &ServerConfig, l3_only: bool, has_password: bool) -> (r: Result<
    Option<ConnectOutcome>,
    String,
>)
    ensures
        validation_error(server@) matches Some(m) ==> (r matches Err(e) && e@ == m),
        validation_error(server@) is None && l3_only && virtualnet_enabled_spec(server@) is None ==> (
        r matches Err(e) && e@ == L3_ONLY_ERROR@),
        validation_error(server@) is None && l3_only && virtualnet_enabled_spec(server@) is Some
            && !has_password ==> r == Ok::<Option<ConnectOutcome>, String>(
            Some(ConnectOutcome::NeedsSudoPassword),
        ),
        validation_error(server@) is None && (!l3_only || (virtualnet_enabled_spec(server@) is Some
            && has_password)) ==> r == Ok::<Option<ConnectOutcome>, String>(None),
{
    server.validate()?;
    if l3_only {
        if virtualnet_enabled(server).is_none() {
            return Err(string_of(L3_ONLY_ERROR));
        }
        if !has_password {
            return Ok(Some(ConnectOutcome::NeedsSudoPassword));
        }
    }
    Ok(None)
}

/// A password offered for saving must not be empty.
pub fn check_offered_password(password: &str) -> (r: Result<(), String>)
    ensures
        password@.len() > 0 ==> r is Ok,
        password@.len() == 0 ==> (r matches Err(e) && e@ == "Password must not be empty"@),
{
    if password.unicode_len() == 0 {
        return Err(string_of("Password must not be empty"));
    }
    Ok(())
}

/// sudo's verdict on an offered password: accepted, or an error.
pub fn password_verdict(accepted: bool) -> (r: Result<(), String>)
    ensures
        accepted ==> r is Ok,
        !accepted ==> (r matches Err(e) && e@ == "Incorrect macOS password"@),
{
    if !accepted {
        return Err(string_of("Incorrect macOS password"));
    }
    Ok(())
}

} // verus!
