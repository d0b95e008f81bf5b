//! Releases as the CLI shows them. The bot's view of a release is git-shaped
//! and reads `done` once `env/stable` points at the new tag; the reconciler
//! knows whether containers actually moved. This module joins the two, and
//! never lets "could not ask" read as success.

use vstd::prelude::*;
use vstd::string::*;

use crate::text::{chars_of, str_eq, string_of, trim_ws};

verus! {

broadcast use vstd::string::group_string_axioms;

/// Project and app of a release command.
#[derive(Debug, Clone)]
pub struct AppRef {
    pub project: Option<String>,
    pub app: Option<String>,
}

/// `majnet release` subcommands.
#[derive(Debug, Clone)]
pub enum ReleaseCmd {
    /// Releases already cut for an app.
    List(AppRef),
    /// Every app across the fleet with a draft waiting.
    Drafts,
    /// Tag a new version now; `bump` is auto, patch, minor or major.
    Cut { app: AppRef, bump: String },
    /// The pending draft for an app.
    Draft(DraftCmd),
    /// Move an already-cut version into the stable track.
    Promote { version: String, app: AppRef },
    /// Live progress of releases moving through the pipeline.
    Progress { project: Option<String> },
}

/// `majnet release draft` subcommands.
#[derive(Debug, Clone)]
pub enum DraftCmd {
    Show(AppRef),
    Refresh(AppRef),
    /// Replace the changelog text (`-` reads it from stdin).
    Notes { notes: String, app: AppRef },
    Submit(AppRef),
    Discard(AppRef),
}

/// Release notes must say something.
pub fn check_notes(text: &str) -> (r: Result<(), String>)
    ensures
        r is Ok <==> trim_ws(text@).len() > 0,
        r matches Err(m) ==> m@ == "refusing to save empty release notes"@,
{
    if crate::text::chars_trim(&chars_of(text)).len() == 0 {
        return Err("refusing to save empty release notes".to_string());
    }
    Ok(())
}

/// One rollout the reconciler reports, each field as text.
#[derive(Debug, Clone)]
pub struct DeployRow {
    pub project: String,
    pub app: String,
    pub class: String,
    pub stage: String,
    pub status: String,
    pub detail: String,
}

/// The reconciler's word on an app's `stable` rollout.
#[derive(Debug, Clone)]
pub struct Fleet {
    pub status: String,
    pub stage: String,
    pub detail: String,
}

/// One release in flight, as the bot reports it, with the reconciler's word
/// when it could be asked.
#[derive(Debug, Clone)]
pub struct ReleaseRow {
    pub app: String,
    pub version: String,
    pub stage: String,
    pub status: String,
    pub detail: String,
    pub updated_at: String,
    pub fleet: Option<Fleet>,
}

/// The first rollout of `app` into `stable`.
pub open spec fn stable_rollout(rows: Seq<DeployRow>, app: Seq<char>) -> Option<DeployRow>
    decreases rows.len(),
{
    if rows.len() == 0 {
        None
    } else if rows[0].app@ == app && rows[0].class@ == "stable"@ {
        Some(rows[0])
    } else {
        stable_rollout(rows.drop_first(), app)
    }
}

/// The reconciler's word for `app`: its `stable` rollout, if there is one.
pub fn fleet_for(rows: &[DeployRow], app: &str) -> (r: Option<Fleet>)
    ensures
        match (r, stable_rollout(rows@, app@)) {
            (Some(f), Some(d)) => f.status@ == d.status@ && f.stage@ == d.stage@ && f.detail@ == d.detail@,
            (None, None) => true,
            _ => false,
        },
{
    let mut i: usize = 0;
    assert(rows@.skip(0) =~= rows@);
    while i < rows.len()
        invariant
            i <= rows.len(),
            stable_rollout(rows@, app@) == stable_rollout(rows@.skip(i as int), app@),
        decreases rows.len() - i,
    {
        let d = &rows[i];
        if str_eq(d.app.as_str(), app) && str_eq(d.class.as_str(), "stable") {
            return Some(Fleet { status: d.status.clone(), stage: d.stage.clone(), detail: d.detail.clone() });
        }
        assert(rows@.skip(i as int).drop_first() =~= rows@.skip(i + 1));
        i = i + 1;
    }
    None
}

/// What the `fleet (stable)` column shows: blank when the reconciler could
/// not be asked, `FAILED: <stage>` for a failed rollout, else the status and
/// stage.
pub open spec fn fleet_cell_spec(fleet: Option<Fleet>) -> Seq<char> {
    match fleet {
        None => ""@,
        Some(f) => if f.status@ == "failed"@ {
            "FAILED: "@ + f.stage@
        } else {
            f.status@ + " ("@ + f.stage@ + ")"@
        },
    }
}

pub fn fleet_cell(p: &ReleaseRow) -> (r: String)
    ensures
        r@ == fleet_cell_spec(p.fleet),
{
    match &p.fleet {
        None => "".to_string(),
        Some(f) => {
            if str_eq(f.status.as_str(), "failed") {
                let mut r = "FAILED: ".to_string();
                r.append(f.stage.as_str());
                r
            } else {
                let mut r = f.status.clone();
                r.append(" (");
                r.append(f.stage.as_str());
                r.append(")");
                r
            }
        },
    }
}

/// A release claiming success while the reconciler has its `stable` rollout
/// failed.
pub open spec fn contradicted_spec(p: ReleaseRow) -> bool {
    p.status@ == "done"@ && match p.fleet {
        Some(f) => f.status@ == "failed"@,
        None => false,
    }
}

pub fn contradicted(p: &ReleaseRow) -> (b: bool)
    ensures
        b == contradicted_spec(*p),
{
    str_eq(p.status.as_str(), "done") && match &p.fleet {
        Some(f) => str_eq(f.status.as_str(), "failed"),
        None => false,
    }
}

/// "Cannot confirm" never reads as success, nor as a contradiction: without
/// the reconciler's word the column is blank; and a contradiction is always
/// shown as a failure.
pub proof fn law_cannot_confirm_is_not_success(p: ReleaseRow)
    ensures
        p.fleet is None ==> fleet_cell_spec(p.fleet).len() == 0 && !contradicted_spec(p),
        contradicted_spec(p) ==> crate::text::starts_with(fleet_cell_spec(p.fleet), "FAILED: "@),
{
    reveal_strlit("");
    if contradicted_spec(p) {
        let f = p.fleet->0;
        assert(("FAILED: "@ + f.stage@).take("FAILED: "@.len() as int) =~= "FAILED: "@);
    }
}

/// Each release with the reconciler's word on its app's `stable` rollout,
/// or none for every release when the reconciler could not be asked.
pub fn join_fleet(releases: Vec<ReleaseRow>, fleet: Option<&[DeployRow]>) -> (r: Vec<ReleaseRow>)
    ensures
        r@.len() == releases@.len(),
        forall|k: int| 0 <= k < r@.len() ==> {
            let (a, b) = (#[trigger] r@[k], releases@[k]);
            &&& a.app == b.app && a.version == b.version && a.stage == b.stage && a.status == b.status
            &&& a.detail == b.detail && a.updated_at == b.updated_at
            &&& match fleet {
                None => a.fleet is None,
                Some(rows) => match (a.fleet, stable_rollout(rows@, b.app@)) {
                    (Some(f), Some(d)) => f.status@ == d.status@ && f.stage@ == d.stage@ && f.detail@ == d.detail@,
                    (None, None) => true,
                    _ => false,
                },
            }
        },
{
    let mut out: Vec<ReleaseRow> = Vec::new();
    let mut rest = releases;
    let ghost orig = rest@;
    let mut i: usize = 0;
    let n = rest.len();
    while i < n
        invariant
            n == orig.len(),
            i <= n,
            rest@.len() == n - i,
            forall|k: int| 0 <= k < rest@.len() ==> #[trigger] rest@[k] == orig[(n - rest@.len()) + k],
            out@.len() == i,
            i == n - rest@.len(),
            forall|k: int| 0 <= k < out@.len() ==> {
                let (a, b) = (#[trigger] out@[k], orig[k]);
                &&& a.app == b.app && a.version == b.version && a.stage == b.stage && a.status == b.status
                &&& a.detail == b.detail && a.updated_at == b.updated_at
                &&& match fleet {
                    None => a.fleet is None,
                    Some(rows) => match (a.fleet, stable_rollout(rows@, b.app@)) {
                        (Some(f), Some(d)) => f.status@ == d.status@ && f.stage@ == d.stage@ && f.detail@ == d.detail@,
                        (None, None) => true,
                        _ => false,
                    },
                }
            },
        decreases n - i,
    {
        let mut p = rest.remove(0);
        assert(p == orig[i as int]);
        p.fleet = match fleet {
            Some(rows) => fleet_for(rows, p.app.as_str()),
            None => None,
        };
        out.push(p);
        i = i + 1;
    }
    out
}

/// One row of the release progress table.
pub open spec fn progress_row(p: ReleaseRow) -> Seq<Seq<char>> {
    seq![
        p.app@,
        p.version@,
        p.stage@,
        p.status@,
        fleet_cell_spec(p.fleet),
        p.detail@,
        crate::output::elide_spec(p.updated_at@, 19),
    ]
}

/// The release progress table, with the bot's and the reconciler's view side
/// by side.
pub fn progress_table(rows: &[ReleaseRow]) -> (t: crate::output::Table)
    ensures
        t.headers_view() == seq!["app"@, "version"@, "stage"@, "status"@, "fleet (stable)"@, "detail"@, "updated"@]
            .map_values(|h: Seq<char>| crate::output::upper(h)),
        t.empty@ == "(no releases in flight)"@,
        t.rows_view() == rows@.map_values(|p: ReleaseRow| progress_row(p)),
{
    let headers: [&str; 7] = ["app", "version", "stage", "status", "fleet (stable)", "detail", "updated"];
    let mut t = crate::output::Table::new(&headers).empty_note("(no releases in flight)");
    assert(t.headers_view() =~= seq!["app"@, "version"@, "stage"@, "status"@, "fleet (stable)"@, "detail"@, "updated"@]
        .map_values(|h: Seq<char>| crate::output::upper(h)));
    let ghost want = rows@.map_values(|p: ReleaseRow| progress_row(p));
    let mut i: usize = 0;
    assert(t.rows_view() =~= want.take(0));
    while i < rows.len()
        invariant
            i <= rows.len(),
            t.headers_view() == seq!["app"@, "version"@, "stage"@, "status"@, "fleet (stable)"@, "detail"@, "updated"@]
                .map_values(|h: Seq<char>| crate::output::upper(h)),
            t.empty@ == "(no releases in flight)"@,
            want == rows@.map_values(|p: ReleaseRow| progress_row(p)),
            t.rows_view() == want.take(i as int),
        decreases rows.len() - i,
    {
        let p = &rows[i];
        let row: Vec<String> = vec![
            p.app.clone(),
            p.version.clone(),
            p.stage.clone(),
            p.status.clone(),
            fleet_cell(p),
            p.detail.clone(),
            crate::output::elide(p.updated_at.as_str(), 19),
        ];
        assert(row@.map_values(|c: String| c@) =~= want[i as int]);
        t.push(row);
        assert(want.take(i + 1) =~= want.take(i as int).push(want[i as int]));
        i = i + 1;
    }
    assert(want.take(rows.len() as int) =~= want);
    t
}

pub open spec fn contradiction_note() -> Seq<char> {
    "\n! a release reads done while the reconciler has its stable rollout failed —\n\
     \x20 the manifest was committed, the containers did not move. `majnet deploy progress`"@
}

/// The warning printed under the table when any release is contradicted.
pub fn contradiction_warning(rows: &[ReleaseRow]) -> (r: Option<String>)
    ensures
        r is Some <==> exists|k: int| 0 <= k < rows@.len() && contradicted_spec(#[trigger] rows@[k]),
        r matches Some(m) ==> m@ == contradiction_note(),
{
    let mut i: usize = 0;
    while i < rows.len()
        invariant
            i <= rows.len(),
            forall|k: int| 0 <= k < i ==> !contradicted_spec(#[trigger] rows@[k]),
        decreases rows.len() - i,
    {
        if contradicted(&rows[i]) {
            return Some("\n! a release reads done while the reconciler has its stable rollout failed —\n\
                 \x20 the manifest was committed, the containers did not move. `majnet deploy progress`".to_string());
        }
        i = i + 1;
    }
    None
}

} // verus!
