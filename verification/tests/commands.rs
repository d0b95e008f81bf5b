use majnet::cloudflare::{select_zone, Zone};
use majnet::read::{failed, select_events, EventArgs, EventRow};
use majnet::release::{contradicted, fleet_cell, Fleet, ReleaseRow};
use majnet::resolve::{confirm, Confirm};
use majnet::shell::resize;

fn zones() -> Vec<Zone> {
    ["majksa.net", "majksa.cz", "sub.majksa.net"]
        .iter()
        .map(|n| Zone { id: format!("id-{n}"), name: n.to_string() })
        .collect()
}

#[test]
fn picks_longest_matching_zone() {
    let z = zones();
    assert_eq!(select_zone("app.majksa.cz", &z).unwrap().name, "majksa.cz");
    assert_eq!(select_zone("majksa.net", &z).unwrap().name, "majksa.net");
    assert_eq!(select_zone("a.sub.majksa.net", &z).unwrap().name, "sub.majksa.net");
    assert!(select_zone("app.example.org", &z).is_none());
    assert!(select_zone("notmajksa.net", &z).is_none());
}

fn event(project: &str, result: &str) -> EventRow {
    EventRow {
        at: "2026-08-30 12:00:00".into(),
        project: project.into(),
        action: "converge".into(),
        commit: "abc123def".into(),
        result: result.into(),
    }
}

#[test]
fn failure_detection_matches_how_the_reconciler_words_it() {
    assert!(failed(&event("demo", "FAILED: boom")));
    assert!(failed(&event("demo", "container reported unhealthy")));
    assert!(failed(&event("demo", "render error")));
    assert!(!failed(&event("demo", "deployed abc123")));
}

#[test]
fn event_selection_filters_by_project_and_failure_and_respects_the_limit() {
    let all = vec![event("demo", "FAILED: boom"), event("demo", "deployed"), event("other", "FAILED: nope")];
    let args = EventArgs { limit: 10, project: Some("DEMO".into()), failed: true, follow: false, bot: false };
    let picked = select_events(&all, &args);
    assert_eq!(picked.len(), 1);
    assert_eq!(picked[0].result, "FAILED: boom");

    let capped = EventArgs { limit: 1, project: None, failed: false, follow: false, bot: false };
    assert_eq!(select_events(&all, &capped).len(), 1);
}

fn row(status: &str, fleet: Option<(&str, &str)>) -> ReleaseRow {
    ReleaseRow {
        app: "api".into(),
        version: String::new(),
        stage: String::new(),
        status: status.into(),
        detail: String::new(),
        updated_at: String::new(),
        fleet: fleet.map(|(s, st)| Fleet { status: s.into(), stage: st.into(), detail: String::new() }),
    }
}

#[test]
fn a_done_release_over_a_failed_rollout_is_contradicted() {
    let p = row("done", Some(("failed", "pulling")));
    assert!(contradicted(&p));
    assert_eq!(fleet_cell(&p), "FAILED: pulling");
}

#[test]
fn agreement_is_not_contradiction() {
    let p = row("done", Some(("done", "deployed")));
    assert!(!contradicted(&p));
    assert_eq!(fleet_cell(&p), "done (deployed)");
}

#[test]
fn an_unreachable_reconciler_reads_blank_not_ok() {
    let p = row("done", None);
    assert!(!contradicted(&p));
    assert_eq!(fleet_cell(&p), "");
}

#[test]
fn a_release_still_in_flight_is_not_contradicted() {
    let p = row("active", Some(("failed", "health")));
    assert!(!contradicted(&p));
}

#[test]
fn resize_matches_the_protocol_the_reconciler_parses() {
    assert_eq!(resize(120, 40), r#"{"resize":{"cols":120,"rows":40}}"#);
    let parsed: serde_json::Value = serde_json::from_str(&resize(80, 24)).unwrap();
    assert_eq!(parsed["resize"]["cols"], 80);
    assert_eq!(parsed["resize"]["rows"], 24);
}

#[test]
fn production_needs_confirmation_and_other_classes_do_not() {
    assert_eq!(confirm("restart", "demo/api", "stable", false, false), Confirm::Proceed);
    assert_eq!(confirm("restart", "demo/api", "production", true, false), Confirm::Proceed);
}
