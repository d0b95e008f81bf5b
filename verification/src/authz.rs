//! The reconciler's gate for its human-facing endpoints: who is asking, and
//! which project a request addresses. A request without an identity header
//! comes from the WireGuard mesh (infra); a named caller is looked up in the
//! platform's people and project registry.

use vstd::prelude::*;
use vstd::string::*;

use crate::platform::{ProjectRegistryEntry, ProjectsFile};
use crate::text::str_eq;

verus! {

broadcast use vstd::string::group_string_axioms;

/// Who made a request, once the platform's people were consulted: no
/// identity header (`None`), or a person's GitHub login and whether they are
/// a platform admin.
pub type Caller = Option<(String, bool)>;

pub open spec fn no_identity_message() -> Seq<char> {
    "terminal requires an authenticated platform admin (no identity header)"@
}

/// The platform-admin gate. A named platform admin passes as their login;
/// any other named caller is refused. A caller without an identity header is
/// the mesh's own infra, which passes as `infra` unless the endpoint needs a
/// named human (the terminal: every session must be attributable).
pub fn platform_admin_gate(caller: &Caller, named_only: bool) -> (r: Result<String, String>)
    ensures
        match *caller {
            None => if named_only {
                r matches Err(m) && m@ == no_identity_message()
            } else {
                r matches Ok(label) && label@ == "infra"@
            },
            Some((github, true)) => r matches Ok(label) && label@ == github@,
            Some((_, false)) => r matches Err(m) && m@ == "platform admin required"@,
        },
{
    match caller {
        None => if named_only {
            Err("terminal requires an authenticated platform admin (no identity header)".to_string())
        } else {
            Ok("infra".to_string())
        },
        Some((github, admin)) => if *admin {
            Ok(github.clone())
        } else {
            Err("platform admin required".to_string())
        },
    }
}

/// The org of the first registered project whose name or org is `project`.
pub open spec fn registered_org_spec(entries: Seq<ProjectRegistryEntry>, project: Seq<char>) -> Option<Seq<char>>
    decreases entries.len(),
{
    if entries.len() == 0 {
        None
    } else if entries[0].name@ == project || entries[0].org@ == project {
        Some(entries[0].org@)
    } else {
        registered_org_spec(entries.drop_first(), project)
    }
}

/// The org a request's project addresses. Callers address a project by org
/// (the dashboard and the CLI do) while the registry keys on the project
/// name, so either is accepted; a project in neither is unknown.
pub fn registered_org(projects: &ProjectsFile, project: &str) -> (r: Result<String, String>)
    ensures
        match registered_org_spec(projects.projects@, project@) {
            Some(org) => r matches Ok(o) && o@ == org,
            None => r matches Err(m) && m@ == "unknown project "@ + project@,
        },
{
    let entries = &projects.projects;
    let mut i: usize = 0;
    assert(entries@.skip(0) =~= entries@);
    while i < entries.len()
        invariant
            i <= entries.len(),
            entries@ == projects.projects@,
            registered_org_spec(entries@, project@) == registered_org_spec(entries@.skip(i as int), project@),
        decreases entries.len() - i,
    {
        assert(entries@.skip(i as int)[0] == entries@[i as int]);
        if str_eq(entries[i].name.as_str(), project) || str_eq(entries[i].org.as_str(), project) {
            assert(entries@.skip(i as int).len() > 0);
            assert(registered_org_spec(entries@.skip(i as int), project@) == Some(entries@[i as int].org@));
            let org = entries[i].org.clone();
            assert(org@ == entries@[i as int].org@);
            return Ok(org);
        }
        assert(entries@.skip(i as int).drop_first() =~= entries@.skip(i + 1));
        i = i + 1;
    }
    let mut m = "unknown project ".to_string();
    m.append(project);
    Err(m)
}

} // verus!
