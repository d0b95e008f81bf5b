//! Edge wiring for custom domains: which Cloudflare zone owns a host, which
//! hosts production serves, and where the prod node is reachable.

use vstd::prelude::*;
use vstd::string::*;

use crate::manifest::AppManifest;
use crate::platform::NodesFile;
use crate::text::{
    chars_ends_with, chars_join, chars_of, ends_with, join, push_chars, push_str_chars, seq_lt, signed_decimal,
    signed_decimal_chars, str_eq, string_of, views,
};

verus! {

broadcast use vstd::string::group_string_axioms;

/// A Cloudflare zone.
#[derive(Debug, Clone)]
pub struct Zone {
    pub id: String,
    pub name: String,
}

/// `name` owns `host`: the same name, or a dot-separated suffix of it.
pub open spec fn zone_owns(host: Seq<char>, name: Seq<char>) -> bool {
    host == name || ends_with(host, "."@ + name)
}

/// A zone's name length in UTF-8 bytes, the key zones are ranked by.
pub open spec fn name_bytes(z: Zone) -> nat {
    vstd::utf8::encode_utf8(z.name@).len()
}

/// The zone `select_zone` picks: the owning zone with the longest name, the
/// last of equals; none when no zone owns the host.
pub open spec fn best_zone(host: Seq<char>, zones: Seq<Zone>, i: int) -> bool {
    &&& 0 <= i < zones.len()
    &&& zone_owns(host, zones[i].name@)
    &&& forall|j: int| 0 <= j < zones.len() && zone_owns(host, #[trigger] zones[j].name@) ==> name_bytes(zones[j]) <= name_bytes(zones[i])
    &&& forall|j: int| i < j < zones.len() && zone_owns(host, #[trigger] zones[j].name@) ==> name_bytes(zones[j]) < name_bytes(zones[i])
}

fn owns(host: &Vec<char>, name: &str) -> (b: bool)
    ensures
        b == zone_owns(host@, name@),
{
    let n = chars_of(name);
    if crate::text::chars_equal(host, &n) {
        return true;
    }
    let mut dotted = chars_of(".");
    crate::text::push_chars(&mut dotted, &n);
    chars_ends_with(host, &dotted)
}

/// The zone that owns `host`, longest match first.
pub fn select_zone<'a>(host: &str, zones: &'a [Zone]) -> (r: Option<&'a Zone>)
    ensures
        match r {
            Some(z) => exists|i: int| best_zone(host@, zones@, i) && zones@[i] == *z,
            None => forall|j: int| 0 <= j < zones@.len() ==> !zone_owns(host@, #[trigger] zones@[j].name@),
        },
{
    let h = chars_of(host);
    let mut best: Option<usize> = None;
    let mut i: usize = 0;
    while i < zones.len()
        invariant
            i <= zones.len(),
            h@ == host@,
            match best {
                Some(b) => b < i && zone_owns(host@, zones@[b as int].name@)
                    && (forall|j: int| 0 <= j < i && zone_owns(host@, #[trigger] zones@[j].name@) ==> name_bytes(zones@[j]) <= name_bytes(zones@[b as int]))
                    && (forall|j: int| b < j < i && zone_owns(host@, #[trigger] zones@[j].name@) ==> name_bytes(zones@[j]) < name_bytes(zones@[b as int])),
                None => forall|j: int| 0 <= j < i ==> !zone_owns(host@, #[trigger] zones@[j].name@),
            },
        decreases zones.len() - i,
    {
        let z = &zones[i];
        if owns(&h, z.name.as_str()) {
            let len = z.name.as_str().as_bytes().len();
            match best {
                None => {
                    best = Some(i);
                },
                Some(b) => {
                    if len >= zones[b].name.as_str().as_bytes().len() {
                        best = Some(i);
                    }
                },
            }
        }
        i = i + 1;
    }
    match best {
        Some(b) => Some(&zones[b]),
        None => None,
    }
}

/// The prod node's public address: its endpoint without the port.
pub open spec fn endpoint_host(endpoint: Seq<char>) -> Seq<char>
    decreases endpoint.len(),
{
    if endpoint.len() == 0 {
        endpoint
    } else if endpoint.last() == ':' {
        endpoint.drop_last()
    } else {
        endpoint_host_before_colon(endpoint.drop_last(), endpoint)
    }
}

/// `s` before its last `:`, or `whole` when there is none.
pub open spec fn endpoint_host_before_colon(s: Seq<char>, whole: Seq<char>) -> Seq<char>
    decreases s.len(),
{
    if s.len() == 0 {
        whole
    } else if s.last() == ':' {
        s.drop_last()
    } else {
        endpoint_host_before_colon(s.drop_last(), whole)
    }
}

fn strip_port(endpoint: &str) -> (r: String)
    ensures
        r@ == endpoint_host(endpoint@),
{
    let v = chars_of(endpoint);
    let mut j: usize = v.len();
    if j > 0 && v[j - 1] != ':' {
        assert(endpoint_host(v@) == endpoint_host_before_colon(v@.drop_last(), v@));
        j = j - 1;
        assert(v@.take(j as int) =~= v@.drop_last());
        while j > 0 && v[j - 1] != ':'
            invariant
                j < v.len(),
                v@ == endpoint@,
                endpoint_host(v@) == endpoint_host_before_colon(v@.take(j as int), v@),
            decreases j,
        {
            assert(v@.take(j as int).drop_last() =~= v@.take(j - 1));
            j = j - 1;
        }
        if j == 0 {
            assert(v@.take(0) =~= Seq::<char>::empty());
            return string_of(&v);
        }
        assert(v@.take(j as int).drop_last() =~= v@.take(j - 1));
        assert(v@.take(j - 1) =~= v@.subrange(0, j - 1));
        return string_of(&crate::text::sub_chars(&v, 0, j - 1));
    }
    if j == 0 {
        return string_of(&v);
    }
    assert(v@.drop_last() =~= v@.subrange(0, j - 1));
    string_of(&crate::text::sub_chars(&v, 0, j - 1))
}

/// Position `i` holds the first `prod` node.
pub open spec fn first_prod(nodes: Seq<crate::platform::Node>, i: int) -> bool {
    &&& 0 <= i < nodes.len()
    &&& nodes[i].role@ == "prod"@
    &&& forall|j: int| 0 <= j < i ==> #[trigger] nodes[j].role@ != "prod"@
}

/// The prod node's public IP: the first `prod` node's endpoint without its
/// port. No such node, or an empty address, is an error.
pub fn prod_public_ip(nodes: &NodesFile) -> (r: Result<String, String>)
    ensures
        match r {
            Ok(ip) => exists|i: int| #[trigger] first_prod(nodes.nodes@, i)
                && ip@ == endpoint_host(nodes.nodes@[i].public_endpoint@) && ip@.len() > 0,
            Err(m) => (m@ == "no prod node in nodes.yaml"@
                && forall|i: int| 0 <= i < nodes.nodes@.len() ==> #[trigger] nodes.nodes@[i].role@ != "prod"@)
                || (m@ == "prod node has no public endpoint yet"@ && exists|i: int| #[trigger] first_prod(nodes.nodes@, i)
                && endpoint_host(nodes.nodes@[i].public_endpoint@).len() == 0),
        },
{
    let prod = match nodes.by_role("prod") {
        Some(n) => n,
        None => {
            return Err("no prod node in nodes.yaml".to_string());
        },
    };
    let ghost i = choose|i: int| 0 <= i < nodes.nodes@.len() && nodes.nodes@[i] == *prod
        && prod.role@ == "prod"@ && forall|j: int| 0 <= j < i ==> #[trigger] nodes.nodes@[j].role@ != "prod"@;
    assert(first_prod(nodes.nodes@, i));
    let ip = strip_port(prod.public_endpoint.as_str());
    if ip.as_str().unicode_len() == 0 {
        return Err("prod node has no public endpoint yet".to_string());
    }
    Ok(ip)
}

/// A rendered file is an app manifest: a top-level `.yaml` (not under
/// `secrets/` or any other directory).
pub open spec fn is_manifest_path(path: Seq<char>) -> bool {
    !path.contains('/') && ends_with(path, ".yaml"@)
}

pub fn manifest_path(path: &str) -> (b: bool)
    ensures
        b == is_manifest_path(path@),
{
    let v = chars_of(path);
    let mut i: usize = 0;
    while i < v.len()
        invariant
            i <= v.len(),
            v@ == path@,
            forall|k: int| 0 <= k < i ==> v@[k] != '/',
        decreases v.len() - i,
    {
        if v[i] == '/' {
            assert(path@.contains(v@[i as int]));
            return false;
        }
        i = i + 1;
    }
    chars_ends_with(&v, &chars_of(".yaml"))
}

/// Some manifest's ingress serves `h`.
pub open spec fn served(ms: Seq<AppManifest>, h: Seq<char>) -> bool {
    exists|i: int| 0 <= i < ms.len() && (#[trigger] ms[i]).ingress is Some && ms[i].ingress->0.host@ == h
}

/// The hostnames production serves, from the rendered app manifests: in
/// ascending order, each once.
pub fn production_hosts(manifests: &[AppManifest]) -> (r: Vec<String>)
    ensures
        crate::strset::ascending(crate::run::strs(r@)),
        forall|h: Seq<char>| crate::run::strs(r@).contains(h) <==> served(manifests@, h),
{
    let mut hosts: Vec<String> = Vec::new();
    let mut i: usize = 0;
    while i < manifests.len()
        invariant
            i <= manifests.len(),
            crate::strset::ascending(crate::run::strs(hosts@)),
            forall|h: Seq<char>| crate::run::strs(hosts@).contains(h) <==> served(manifests@.take(i as int), h),
        decreases manifests.len() - i,
    {
        let m = &manifests[i];
        let ghost before = crate::run::strs(hosts@);
        match &m.ingress {
            Some(ing) => {
                crate::strset::insert_sorted(&mut hosts, ing.host.clone());
            },
            None => {},
        }
        assert forall|h: Seq<char>| crate::run::strs(hosts@).contains(h) <==> served(manifests@.take(i + 1), h) by {
            let t = manifests@.take(i + 1);
            if served(manifests@.take(i as int), h) {
                let k = choose|k: int| 0 <= k < manifests@.take(i as int).len() && (#[trigger] manifests@.take(i as int)[k]).ingress is Some
                    && manifests@.take(i as int)[k].ingress->0.host@ == h;
                assert(t[k] == manifests@.take(i as int)[k]);
            }
            if served(t, h) {
                let k = choose|k: int| 0 <= k < t.len() && (#[trigger] t[k]).ingress is Some && t[k].ingress->0.host@ == h;
                if k < i {
                    assert(manifests@.take(i as int)[k] == t[k]);
                }
            }
            if m.ingress is Some && m.ingress->0.host@ == h {
                assert(t[i as int] == *m);
            }
        }
        i = i + 1;
    }
    assert(manifests@.take(manifests.len() as int) =~= manifests@);
    hosts
}

// ── the DNS record and the API envelope ──────────────────────────────────────

/// One A record the zone already has.
#[derive(Debug, Clone)]
pub struct DnsRecord {
    pub id: String,
    pub content: String,
    pub proxied: bool,
}

/// What ensuring a proxied `name → ip` record takes.
#[derive(Debug, Clone, PartialEq, Eq)]
pub enum DnsAction {
    /// The first record already points at the address, proxied.
    Keep,
    /// Update the first record, at this API path.
    Update(String),
    /// Create the record, at this API path.
    Create(String),
}

/// The API path that lists a zone's A records named `name`.
pub fn dns_lookup_path(zone: &Zone, name: &str) -> (r: String)
    ensures
        r@ == "/zones/"@ + zone.id@ + "/dns_records?type=A&name="@ + name@,
{
    let mut r = "/zones/".to_string();
    r.append(zone.id.as_str());
    r.append("/dns_records?type=A&name=");
    r.append(name);
    r
}

/// The API path of a zone's SSL/TLS mode.
pub fn ssl_path(zone: &Zone) -> (r: String)
    ensures
        r@ == "/zones/"@ + zone.id@ + "/settings/ssl"@,
{
    let mut r = "/zones/".to_string();
    r.append(zone.id.as_str());
    r.append("/settings/ssl");
    r
}

/// Only the first record listed counts: one that already points at `ip`,
/// proxied, is kept; another is updated in place; with none, one is created.
pub fn dns_action(zone: &Zone, existing: &[DnsRecord], ip: &str) -> (a: DnsAction)
    ensures
        existing@.len() == 0 ==> (a matches DnsAction::Create(p) && p@ == "/zones/"@ + zone.id@ + "/dns_records"@),
        existing@.len() > 0 && existing@[0].content@ == ip@ && existing@[0].proxied ==> a == DnsAction::Keep,
        existing@.len() > 0 && !(existing@[0].content@ == ip@ && existing@[0].proxied) ==> (a matches DnsAction::Update(p)
            && p@ == "/zones/"@ + zone.id@ + "/dns_records/"@ + existing@[0].id@),
{
    let mut p = "/zones/".to_string();
    p.append(zone.id.as_str());
    p.append("/dns_records");
    if existing.len() == 0 {
        return DnsAction::Create(p);
    }
    let rec = &existing[0];
    if str_eq(rec.content.as_str(), ip) && rec.proxied {
        return DnsAction::Keep;
    }
    let mut u = "/zones/".to_string();
    u.append(zone.id.as_str());
    u.append("/dns_records/");
    u.append(rec.id.as_str());
    DnsAction::Update(u)
}

/// One error the Cloudflare API reports.
#[derive(Debug, Clone)]
pub struct CfApiError {
    pub code: i64,
    pub message: String,
}

/// One reported error, as the bot words it.
pub open spec fn cf_error_text(e: CfApiError) -> Seq<char> {
    "["@ + signed_decimal(e.code as int) + "] "@ + e.message@
}

/// Why an unsuccessful answer failed: each error, joined by `; `.
pub open spec fn cf_failure(status: Seq<char>, errors: Seq<CfApiError>) -> Seq<char> {
    "Cloudflare API error (HTTP "@ + status + "): "@ + join(errors.map_values(|e: CfApiError| cf_error_text(e)), "; "@)
}

/// What a Cloudflare answer amounts to: an unsuccessful one is an error
/// listing what the API reported; a successful one must carry a result.
/// `status` is the HTTP status as printed.
pub fn envelope_outcome<T>(status: &str, success: bool, errors: &[CfApiError], result: Option<T>) -> (r: Result<T, String>)
    ensures
        !success ==> (r matches Err(m) && m@ == cf_failure(status@, errors@)),
        success && result is Some ==> (r matches Ok(v) && v == result->0),
        success && result is None ==> (r matches Err(m) && m@ == "Cloudflare response had success=true but no result"@),
{
    if !success {
        let mut parts: Vec<Vec<char>> = Vec::new();
        let mut i: usize = 0;
        while i < errors.len()
            invariant
                i <= errors.len(),
                views(parts@) == errors@.take(i as int).map_values(|e: CfApiError| cf_error_text(e)),
            decreases errors.len() - i,
        {
            let e = &errors[i];
            let mut one: Vec<char> = vec!['['];
            push_chars(&mut one, &signed_decimal_chars(e.code));
            push_str_chars(&mut one, "] ");
            push_str_chars(&mut one, e.message.as_str());
            proof {
                reveal_strlit("] ");
                reveal_strlit("[");
            }
            assert(one@ =~= cf_error_text(*e));
            let ghost before = views(parts@);
            parts.push(one);
            assert(views(parts@) =~= before.push(cf_error_text(*e)));
            assert(errors@.take(i + 1).map_values(|e: CfApiError| cf_error_text(e)) =~= errors@.take(i as int).map_values(
                |e: CfApiError| cf_error_text(e),
            ).push(cf_error_text(errors@[i as int])));
            i = i + 1;
        }
        assert(errors@.take(errors.len() as int) =~= errors@);
        let joined = chars_join(&parts, &chars_of("; "));
        let mut m = "Cloudflare API error (HTTP ".to_string();
        m.append(status);
        m.append("): ");
        m.append(string_of(&joined).as_str());
        return Err(m);
    }
    match result {
        Some(v) => Ok(v),
        None => Err("Cloudflare response had success=true but no result".to_string()),
    }
}

} // verus!
