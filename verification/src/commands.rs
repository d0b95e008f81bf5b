//! The CLI's command arguments, and the checks and wordings that decide what a
//! command does before it talks to the control plane.

use vstd::prelude::*;
use vstd::string::*;

use crate::text::{chars_of, string_of};

verus! {

broadcast use vstd::string::group_string_axioms;

/// `majnet deploy` subcommands.
#[derive(Debug, Clone)]
pub enum DeployCmd {
    /// Copy the stable digest into the production overlay.
    Promote { project: Option<String>, app: Option<String> },
    /// Revert the ops repo's `main` head.
    Rollback { project: Option<String> },
    /// Restart an app's containers (imperative, audited).
    Restart { project: Option<String>, app: Option<String>, class: Option<String> },
    /// Render PRs waiting on an env branch.
    List { project: Option<String> },
    /// Merge a render PR, which ships it.
    Merge { number: u64, project: Option<String> },
    /// Close a render PR without merging.
    Close { number: u64, project: Option<String> },
    /// Rollouts currently in flight.
    Progress,
}

/// `majnet control-plane` subcommands.
#[derive(Debug, Clone)]
pub enum ControlPlaneCmd {
    /// Pinned vs published vs running.
    Status,
    /// Publish a new pin, or roll back to a past one.
    Pin {
        git_ref: Option<String>,
        image: Option<String>,
        dashboard: Option<String>,
        from_commit: Option<String>,
    },
}

/// An image reference pinned by digest names one.
pub open spec fn digest_pinned(image: Seq<char>) -> bool {
    image.contains('@')
}

fn has_at(s: &str) -> (b: bool)
    ensures
        b == digest_pinned(s@),
{
    let v = chars_of(s);
    let mut i: usize = 0;
    while i < v.len()
        invariant
            i <= v.len(),
            v@ == s@,
            forall|k: int| 0 <= k < i ==> v@[k] != '@',
        decreases v.len() - i,
    {
        if v[i] == '@' {
            assert(s@.contains(v@[i as int]));
            return true;
        }
        i = i + 1;
    }
    false
}

pub open spec fn pin_check_spec(
    git_ref: Option<Seq<char>>,
    image: Option<Seq<char>>,
    dashboard: Option<Seq<char>>,
    from_commit: Option<Seq<char>>,
) -> Result<(), Seq<char>> {
    if git_ref is None && from_commit is None {
        Err("pass --ref <git ref> to publish a pin, or --from-commit <sha> to roll back"@)
    } else if image matches Some(v) && !digest_pinned(v) {
        Err("--image must be pinned by digest (…@sha256:…), not by tag"@)
    } else if dashboard matches Some(v) && !digest_pinned(v) {
        Err("--dashboard must be pinned by digest (…@sha256:…), not by tag"@)
    } else {
        Ok(())
    }
}

/// A pin names a ref or a past commit, and images only by digest: a tag makes
/// "what is running" unanswerable.
pub fn check_pin(
    git_ref: &Option<String>,
    image: &Option<String>,
    dashboard: &Option<String>,
    from_commit: &Option<String>,
) -> (r: Result<(), String>)
    ensures
        match (r, pin_check_spec(crate::config::ov(*git_ref), crate::config::ov(*image), crate::config::ov(*dashboard), crate::config::ov(*from_commit))) {
            (Ok(()), Ok(())) => true,
            (Err(m), Err(s)) => m@ == s,
            _ => false,
        },
{
    if git_ref.is_none() && from_commit.is_none() {
        return Err("pass --ref <git ref> to publish a pin, or --from-commit <sha> to roll back".to_string());
    }
    if let Some(v) = image {
        if !has_at(v.as_str()) {
            return Err("--image must be pinned by digest (…@sha256:…), not by tag".to_string());
        }
    }
    if let Some(v) = dashboard {
        if !has_at(v.as_str()) {
            return Err("--dashboard must be pinned by digest (…@sha256:…), not by tag".to_string());
        }
    }
    Ok(())
}

/// How the control plane's convergence reads: `null` means the running build
/// did not report, a third state that must not read as "no".
pub fn converged_line(converged: Option<bool>) -> (r: &'static str)
    ensures
        r@ == match converged {
            Some(true) => "yes"@,
            Some(false) => "NO — rollout in flight"@,
            None => "unknown (the running build did not report)"@,
        },
{
    match converged {
        Some(true) => "yes",
        Some(false) => "NO — rollout in flight",
        None => "unknown (the running build did not report)",
    }
}

/// How a render PR's mergeability reads: `null` means GitHub is still
/// computing it, which is not a "no".
pub fn mergeable_cell(mergeable: Option<bool>) -> (r: &'static str)
    ensures
        r@ == match mergeable {
            Some(true) => "yes"@,
            Some(false) => "NO"@,
            None => "computing"@,
        },
{
    match mergeable {
        Some(true) => "yes",
        Some(false) => "NO",
        None => "computing",
    }
}

/// What `majnet agent-guide` was asked.
#[derive(Debug, Clone)]
pub struct GuideArgs {
    /// Write the guide into a repo as an agent skill file instead of printing it.
    pub install: bool,
    /// Directory to install into (default: the current directory).
    pub path: Option<String>,
}

pub open spec fn skill_frontmatter() -> Seq<char> {
    "---\n\
     name: majnet\n\
     description: >-\n\
     \x20 Operate a MajNet self-hosted PaaS from the command line with the `majnet` CLI:\n\
     \x20 check fleet or app status, read container logs, run a command inside a running\n\
     \x20 app, query an app's managed database with SQL, promote or roll back a deploy,\n\
     \x20 cut a release, and inspect nodes, manifests, secrets and members. Use whenever\n\
     \x20 a task mentions MajNet, an app's environment (production/stable/testing/\n\
     \x20 ephemeral), a deploy, a render PR, or `majnet`.\n\
     ---\n\n"@
}

/// The guide with the frontmatter a skill file needs.
pub fn skill(guide: &str) -> (r: String)
    ensures
        r@ == skill_frontmatter() + guide@,
{
    let mut r = "---\n\
         name: majnet\n\
         description: >-\n\
         \x20 Operate a MajNet self-hosted PaaS from the command line with the `majnet` CLI:\n\
         \x20 check fleet or app status, read container logs, run a command inside a running\n\
         \x20 app, query an app's managed database with SQL, promote or roll back a deploy,\n\
         \x20 cut a release, and inspect nodes, manifests, secrets and members. Use whenever\n\
         \x20 a task mentions MajNet, an app's environment (production/stable/testing/\n\
         \x20 ephemeral), a deploy, a render PR, or `majnet`.\n\
         ---\n\n".to_string();
    r.append(guide);
    r
}

/// The command ends with a newline when printed: added only when the text
/// lacks one.
pub fn needs_newline(text: &str) -> (b: bool)
    ensures
        b == !(text@.len() > 0 && text@.last() == '\n'),
{
    let v = chars_of(text);
    !(v.len() > 0 && v[v.len() - 1] == '\n')
}

} // verus!
