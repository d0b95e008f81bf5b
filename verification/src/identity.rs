//! Who the control plane thinks is calling. The API answers `login: null,
//! admin: true` for a call that carried no identity at all (`infra`); that
//! must read as "nobody checked", never as "you are an admin".

use vstd::prelude::*;
use vstd::string::*;

use crate::config::{describe_spec, Context};
use crate::text::{
    chars_of, chars_trim_end_char, eq_ignore_ascii_case, str_eq_ignore_ascii_case, string_of,
    trim_end_char,
};

verus! {

broadcast use vstd::string::group_string_axioms;

/// What `/api/whoami` answers.
#[derive(Debug, Clone)]
pub struct WhoAmI {
    pub login: Option<String>,
    pub admin: bool,
}

pub open spec fn infra_line() -> Seq<char> {
    "infra — unidentified (see `majnet whoami`)"@
}

/// The one-line identity: the login, marked when a platform admin, or
/// `infra` when no identity reached the API.
pub open spec fn identity_line_spec(who: WhoAmI) -> Seq<char> {
    match who.login {
        Some(login) => if who.admin {
            login@ + " (platform admin)"@
        } else {
            login@
        },
        None => infra_line(),
    }
}

pub fn identity_line(who: &WhoAmI) -> (r: String)
    ensures
        r@ == identity_line_spec(*who),
{
    match &who.login {
        Some(login) => {
            let mut r = login.clone();
            if who.admin {
                r.append(" (platform admin)");
            }
            r
        },
        None => "infra — unidentified (see `majnet whoami`)".to_string(),
    }
}

/// An unidentified caller reads as `infra` whatever the admin flag says: the
/// flag cannot make it look like an administrator.
pub proof fn law_an_unidentified_caller_is_infra(admin: bool)
    ensures
        identity_line_spec(WhoAmI { login: None, admin }) == infra_line(),
        identity_line_spec(WhoAmI { login: None, admin: true }) == identity_line_spec(
            WhoAmI { login: None, admin: false },
        ),
{
}

pub open spec fn unidentified_direct_note() -> Seq<char> {
    "\nThat is expected with --direct: the WireGuard-internal listeners are trusted\n\
     by bind address (§12.1), so no identity is sent and every role check passes.\n\
     Actions are audited as `infra` rather than as you. Use the dashboard URL to\n\
     act as yourself."@
}

pub open spec fn unidentified_note() -> Seq<char> {
    "\nThis is NOT you. The URL answered, but no Tailscale identity reached the API,\n\
     so anything you do would be recorded as `infra` and would bypass your project\n\
     roles. Usual causes:\n\
     \x20 · this machine is not on the tailnet — check `tailscale status`\n\
     \x20 · the URL is not the identity-injecting front door (that is the dashboard\n\
     \x20   origin, not a raw WireGuard address)\n\
     \x20 · your Tailscale login has no entry in people.yaml — a platform admin adds\n\
     \x20   it in the dashboard"@
}

/// The identity verdict, line by line: a named caller with their platform
/// standing, or the unidentified one with what that means here.
pub open spec fn identity_report_spec(who: WhoAmI, ctx: crate::config::ContextView) -> Seq<Seq<char>> {
    match who.login {
        Some(login) => seq![
            "you:      "@ + login@,
            "platform: "@ + if who.admin {
                "admin (may change platform config, terminal, control-plane pin)"@
            } else {
                "member (project roles decide the rest)"@
            },
            "endpoint: "@ + describe_spec(ctx),
        ],
        None => seq![
            "you:      (unidentified — the control plane sees this call as `infra`)"@,
            "endpoint: "@ + describe_spec(ctx),
            if ctx.direct {
                unidentified_direct_note()
            } else {
                unidentified_note()
            },
        ],
    }
}

fn joined(a: &str, b: &str) -> (r: String)
    ensures
        r@ == a@ + b@,
{
    let mut r = a.to_string();
    r.append(b);
    r
}

pub fn identity_report(who: &WhoAmI, ctx: &Context) -> (r: Vec<String>)
    ensures
        r@.map_values(|l: String| l@) == identity_report_spec(*who, ctx@),
{
    let mut r: Vec<String> = Vec::new();
    match &who.login {
        Some(login) => {
            r.push(joined("you:      ", login.as_str()));
            r.push(joined(
                "platform: ",
                if who.admin {
                    "admin (may change platform config, terminal, control-plane pin)"
                } else {
                    "member (project roles decide the rest)"
                },
            ));
            r.push(joined("endpoint: ", ctx.describe().as_str()));
        },
        None => {
            r.push("you:      (unidentified — the control plane sees this call as `infra`)".to_string());
            r.push(joined("endpoint: ", ctx.describe().as_str()));
            if ctx.direct {
                r.push("\nThat is expected with --direct: the WireGuard-internal listeners are trusted\n\
                     by bind address (§12.1), so no identity is sent and every role check passes.\n\
                     Actions are audited as `infra` rather than as you. Use the dashboard URL to\n\
                     act as yourself.".to_string());
            } else {
                r.push("\nThis is NOT you. The URL answered, but no Tailscale identity reached the API,\n\
                     so anything you do would be recorded as `infra` and would bypass your project\n\
                     roles. Usual causes:\n\
                     \x20 · this machine is not on the tailnet — check `tailscale status`\n\
                     \x20 · the URL is not the identity-injecting front door (that is the dashboard\n\
                     \x20   origin, not a raw WireGuard address)\n\
                     \x20 · your Tailscale login has no entry in people.yaml — a platform admin adds\n\
                     \x20   it in the dashboard".to_string());
            }
        },
    }
    assert(r@.map_values(|l: String| l@) =~= identity_report_spec(*who, ctx@));
    r
}

/// A caller's role in one project: the role of the first member whose user
/// matches the login ignoring ASCII case, else a dash (noting a platform
/// admin).
pub open spec fn project_role_spec(members: Seq<(String, String)>, login: Seq<char>, platform_admin: bool) -> Seq<char>
    decreases members.len(),
{
    if members.len() == 0 {
        if platform_admin {
            "— (platform admin)"@
        } else {
            "—"@
        }
    } else if eq_ignore_ascii_case(members[0].0@, login) {
        members[0].1@
    } else {
        project_role_spec(members.drop_first(), login, platform_admin)
    }
}

/// The caller's role from a project's `(user, role)` member list.
pub fn project_role(members: &[(String, String)], login: &str, platform_admin: bool) -> (r: String)
    ensures
        r@ == project_role_spec(members@, login@, platform_admin),
{
    let mut i: usize = 0;
    assert(members@.skip(0) =~= members@);
    while i < members.len()
        invariant
            i <= members.len(),
            project_role_spec(members@, login@, platform_admin) == project_role_spec(members@.skip(i as int), login@, platform_admin),
        decreases members.len() - i,
    {
        if str_eq_ignore_ascii_case(members[i].0.as_str(), login) {
            return members[i].1.clone();
        }
        assert(members@.skip(i as int).drop_first() =~= members@.skip(i + 1));
        i = i + 1;
    }
    if platform_admin {
        "— (platform admin)".to_string()
    } else {
        "—".to_string()
    }
}

// ── the tailnet ──────────────────────────────────────────────────────────────

/// One device of `tailscale status --json`: its DNS name and whether it is
/// online, where the output says.
#[derive(Debug, Clone)]
pub struct Device {
    pub dns_name: Option<String>,
    pub online: Option<bool>,
}

/// A device's host name: its DNS name without the trailing dot, if that
/// leaves anything.
pub open spec fn host_name(d: Device) -> Option<Seq<char>> {
    match d.dns_name {
        Some(n) => if trim_end_char(n@, '.').len() > 0 {
            Some(trim_end_char(n@, '.'))
        } else {
            None
        },
        None => None,
    }
}

/// The named devices worth probing, this device first: peers known to be
/// offline cannot be the control plane right now.
pub open spec fn candidate_hosts(me: Option<Device>, peers: Seq<Device>) -> Seq<Seq<char>>
    decreases peers.len(),
{
    if peers.len() == 0 {
        match me {
            Some(d) => match host_name(d) {
                Some(h) => seq![h],
                None => Seq::empty(),
            },
            None => Seq::empty(),
        }
    } else {
        let rest = candidate_hosts(me, peers.drop_last());
        let p = peers.last();
        if p.online == Some(false) {
            rest
        } else {
            match host_name(p) {
                Some(h) => rest.push(h),
                None => rest,
            }
        }
    }
}

/// `s` without consecutive repeats (`Vec::dedup`).
pub open spec fn dedup(s: Seq<Seq<char>>) -> Seq<Seq<char>>
    decreases s.len(),
{
    if s.len() == 0 {
        s
    } else if s.len() > 1 && s.last() == s[s.len() - 2] {
        dedup(s.drop_last())
    } else {
        dedup(s.drop_last()).push(s.last())
    }
}

fn host_of(d: &Device) -> (r: Option<String>)
    ensures
        crate::config::ov(r) == host_name(*d),
{
    match &d.dns_name {
        Some(n) => {
            let t = chars_trim_end_char(&chars_of(n.as_str()), '.');
            if t.len() > 0 {
                Some(string_of(&t))
            } else {
                None
            }
        },
        None => None,
    }
}

/// The tailnet's host names to search for a control plane, this device
/// first, without consecutive repeats.
pub fn tailnet_hosts(me: &Option<Device>, peers: &[Device]) -> (r: Vec<String>)
    ensures
        r@.map_values(|h: String| h@) == dedup(candidate_hosts(*me, peers@)),
{
    let mut cands: Vec<String> = Vec::new();
    match me {
        Some(d) => match host_of(d) {
            Some(h) => cands.push(h),
            None => {},
        },
        None => {},
    }
    assert(cands@.map_values(|h: String| h@) =~= candidate_hosts(*me, peers@.take(0)));
    let mut i: usize = 0;
    while i < peers.len()
        invariant
            i <= peers.len(),
            cands@.map_values(|h: String| h@) == candidate_hosts(*me, peers@.take(i as int)),
        decreases peers.len() - i,
    {
        let p = &peers[i];
        assert(peers@.take(i + 1).drop_last() =~= peers@.take(i as int));
        let ghost before = cands@.map_values(|h: String| h@);
        let offline = match p.online {
            Some(o) => !o,
            None => false,
        };
        if !offline {
            match host_of(p) {
                Some(h) => {
                    cands.push(h);
                    assert(cands@.map_values(|h: String| h@) =~= before.push(host_name(*p)->0));
                },
                None => {},
            }
        }
        i = i + 1;
    }
    assert(peers@.take(peers.len() as int) =~= peers@);
    let ghost cs = cands@.map_values(|h: String| h@);
    let mut out: Vec<String> = Vec::new();
    let mut k: usize = 0;
    while k < cands.len()
        invariant
            k <= cands.len(),
            cs == cands@.map_values(|h: String| h@),
            out@.map_values(|h: String| h@) == dedup(cs.take(k as int)),
        decreases cands.len() - k,
    {
        let ghost before = out@.map_values(|h: String| h@);
        assert(cs.take(k + 1).drop_last() =~= cs.take(k as int));
        if k > 0 && crate::text::str_eq(cands[k].as_str(), cands[k - 1].as_str()) {
            assert(cs.take(k + 1)[k - 1] == cs[k - 1]);
        } else {
            out.push(cands[k].clone());
            assert(out@.map_values(|h: String| h@) =~= before.push(cs[k as int]));
            if k > 0 {
                assert(cs.take(k + 1)[k - 1] == cs[k - 1]);
            }
        }
        k = k + 1;
    }
    assert(cs.take(cands.len() as int) =~= cs);
    out
}

} // verus!
