use majnet::authz::{platform_admin_gate, registered_org};
use majnet::client::{check_response, indent, is_blank, misroute_hint, snippet, unreachable_message};
use majnet::cloudflare::{manifest_path, prod_public_ip, production_hosts, dns_action, dns_lookup_path, envelope_outcome, ssl_path, CfApiError, DnsAction, DnsRecord, Zone};
use majnet::commands::{check_pin, converged_line, mergeable_cell, needs_newline, skill};
use majnet::config::{output_format, patient_timeout, Config, Context, EnvOverrides, LoginArgs};
use majnet::console::{
    catalog_request, count_line, exec_command, exit_status, sql_path, statement_body, statement_source, Repl, ReplAction,
    SqlArgs, SqlReply, StatementSource,
};
use majnet::identity::{identity_report, project_role, tailnet_hosts, Device, WhoAmI};
use majnet::metrics::{parse_probe, probe_in_range};
use majnet::output::{display_len, Format, Table};
use majnet::manifest::{AppManifest, Ingress};
use majnet::platform::{require_seed_file, seed_key, with_enrolled, EnrolledNode, Node, NodesFile, ProjectRegistryEntry, ProjectsFile};
use majnet::project::{
    apply_member_change, check_name, is_valid_username, manifest_edit_record, manifest_file_refusal,
    manifest_file_role, member_change_record, Member, MemberChange, MemberChangeError, Role,
};
use majnet::read::{
    events_summary, in_flight, log_resume, masked, recent_failures, section_errors, EventRow, FollowOutput, Follower,
    TargetArgs, FOLLOW_WINDOW,
};
use majnet::release::{check_notes, contradiction_warning, fleet_cell, fleet_for, join_fleet, DeployRow, ReleaseRow};
use majnet::resolve::{app, check_answer, confirm, list, wanted_project, Confirm};
use majnet::images::{distinct_ids, protected_images, Reclaimed};
use majnet::envclass::EnvClass;
use majnet::run::{
    check_exec, client_invocation, parse_csv, parse_tsv, DbCreds, engine_name, exec_audit, exec_outcome, json_literal, one_line, sql_audit, sql_literal, sql_outcome, sql_result,
    sql_role, statement, tabular, Capture, DbEngine, ExecBody, OutStream, RunOutput, SqlBody, SqlQuery, MAX_OUTPUT,
};
use majnet::shell::{container_target, host_target, may_open, refusal, shell_step, ShellAction, ShellEvent};
use majnet::snapshot::{snapshot_answer, snapshot_url, urlencode, Snapshot, SnapshotAnswer};
use majnet::tarball::{unpack, untar, TarEntry};

fn member(user: &str, role: Role) -> Member {
    Member { user: user.into(), role }
}

fn change(user: &str, role: &str) -> MemberChange {
    MemberChange { user: user.into(), role: role.into() }
}

fn users(ms: &[Member]) -> Vec<(String, Role)> {
    ms.iter().map(|m| (m.user.clone(), m.role)).collect()
}

fn no_env() -> EnvOverrides {
    EnvOverrides { url: None, bot_url: None, recon_url: None, project: None }
}

// ── members ──────────────────────────────────────────────────────────────────

#[test]
fn setting_a_role_then_reading_it_gives_that_role() {
    let mut ms = vec![member("alice", Role::Developer)];
    let r = apply_member_change(&mut ms, &change("alice", "admin"));
    assert_eq!(r, Ok("alice → admin".to_string()));
    assert_eq!(users(&ms), vec![("alice".to_string(), Role::Admin)]);
}

#[test]
fn a_new_member_is_appended() {
    let mut ms = vec![member("alice", Role::Admin)];
    let r = apply_member_change(&mut ms, &change("bob-2", "developer"));
    assert_eq!(r, Ok("bob-2 → developer".to_string()));
    assert_eq!(
        users(&ms),
        vec![("alice".to_string(), Role::Admin), ("bob-2".to_string(), Role::Developer)]
    );
}

#[test]
fn setting_the_same_role_twice_changes_nothing_more() {
    let mut once = vec![member("alice", Role::Developer)];
    apply_member_change(&mut once, &change("carol", "admin")).unwrap();
    let mut twice = once.clone();
    apply_member_change(&mut twice, &change("carol", "admin")).unwrap();
    assert_eq!(users(&once), users(&twice));
}

#[test]
fn a_removed_user_is_gone() {
    let mut ms = vec![member("alice", Role::Admin), member("bob", Role::Developer), member("alice", Role::Developer)];
    let r = apply_member_change(&mut ms, &change("alice", "remove"));
    assert_eq!(r, Ok("remove alice".to_string()));
    assert_eq!(users(&ms), vec![("bob".to_string(), Role::Developer)]);
}

#[test]
fn removing_a_stranger_is_refused_and_changes_nothing() {
    let mut ms = vec![member("alice", Role::Admin)];
    let r = apply_member_change(&mut ms, &change("zed", "remove"));
    assert_eq!(r, Err(MemberChangeError::NotAMember("zed".into())));
    assert_eq!(r.unwrap_err().message(), "zed is not a member");
    assert_eq!(users(&ms), vec![("alice".to_string(), Role::Admin)]);
}

#[test]
fn an_unknown_role_is_refused() {
    let mut ms = vec![];
    let r = apply_member_change(&mut ms, &change("alice", "owner"));
    assert_eq!(r, Err(MemberChangeError::BadRole("owner".into())));
    assert_eq!(r.unwrap_err().message(), "role must be admin|developer|remove, got owner");
    assert!(ms.is_empty());
}

#[test]
fn an_invalid_username_is_refused_before_anything_else() {
    let mut ms = vec![member("alice", Role::Admin)];
    for bad in ["", "a b", "al_ice", "ålice"] {
        let r = apply_member_change(&mut ms, &change(bad, "remove"));
        assert_eq!(r, Err(MemberChangeError::InvalidUsername));
        assert_eq!(r.unwrap_err().message(), "invalid GitHub username");
    }
    assert_eq!(ms.len(), 1);
    assert!(is_valid_username("Some-User9"));
}

#[test]
fn member_change_record_words_the_commit() {
    let (commit, event, reply) = member_change_record("remove bob", "alice");
    assert_eq!(commit, "members: remove bob via dashboard by alice");
    assert_eq!(event, "remove bob by alice");
    assert_eq!(reply, "remove bob committed; org sync will propagate");
}

#[test]
fn app_names_are_lower_case_letters_digits_and_dashes() {
    assert!(check_name("my-app2"));
    assert!(!check_name(""));
    assert!(!check_name("MyApp"));
    assert!(!check_name("my_app"));
}

#[test]
fn the_production_overlay_needs_an_admin() {
    assert_eq!(manifest_file_role("production.yaml"), Some(Role::Admin));
    assert_eq!(manifest_file_role("base.yaml"), Some(Role::Developer));
    assert_eq!(manifest_file_role("stable.yaml"), Some(Role::Developer));
    assert_eq!(manifest_file_role("ephemeral.yaml"), Some(Role::Developer));
    assert_eq!(manifest_file_role("testing.yaml"), None);
    assert_eq!(manifest_file_role("apps/x/base.yaml"), None);
    assert_eq!(
        manifest_file_refusal(),
        "file must be one of [\"base.yaml\", \"stable.yaml\", \"production.yaml\", \"ephemeral.yaml\"]"
    );
}

#[test]
fn a_manifest_edit_is_recorded_against_its_path() {
    let (path, message, event, reply) = manifest_edit_record("web", "stable.yaml", "alice");
    assert_eq!(path, "apps/web/stable.yaml");
    assert_eq!(message, "manifest(web): edit stable.yaml via dashboard by alice");
    assert_eq!(event, "apps/web/stable.yaml by alice");
    assert_eq!(reply, "apps/web/stable.yaml committed; render PRs will propagate the change");
}

// ── contexts ─────────────────────────────────────────────────────────────────

fn ctx(url: &str) -> Context {
    Context { url: Some(url.into()), ..Default::default() }
}

#[test]
fn a_saved_context_resolves_to_what_was_saved() {
    let mut cfg = Config::default();
    cfg.insert("home".into(), ctx("http://home"));
    cfg.insert("work".into(), ctx("http://work"));
    let got = cfg.resolve(Some("work"), &no_env()).unwrap();
    assert_eq!(got.url.as_deref(), Some("http://work"));
    assert_eq!(cfg.names(), vec!["home", "work"]);
}

#[test]
fn saving_over_a_name_replaces_it() {
    let mut cfg = Config::default();
    cfg.insert("b".into(), ctx("http://one"));
    cfg.insert("a".into(), ctx("http://a"));
    cfg.insert("b".into(), ctx("http://two"));
    assert_eq!(cfg.names(), vec!["a", "b"]);
    assert_eq!(cfg.get("b").unwrap().url.as_deref(), Some("http://two"));
}

#[test]
fn removing_a_context_leaves_the_others() {
    let mut cfg = Config::default();
    cfg.insert("a".into(), ctx("http://a"));
    cfg.insert("b".into(), ctx("http://b"));
    assert!(cfg.remove("a"));
    assert!(!cfg.remove("a"));
    assert_eq!(cfg.names(), vec!["b"]);
}

#[test]
fn using_an_unknown_context_names_the_known_ones() {
    let mut cfg = Config::default();
    cfg.insert("a".into(), ctx("http://a"));
    cfg.insert("b".into(), ctx("http://b"));
    assert_eq!(cfg.use_context("c"), Err("no context named 'c' (have: a, b)".to_string()));
    assert_eq!(cfg.current, "");
    assert_eq!(cfg.use_context("b"), Ok(()));
    assert_eq!(cfg.current, "b");
}

#[test]
fn logging_out_of_the_current_context_moves_to_the_first_left() {
    let mut cfg = Config::default();
    cfg.insert("a".into(), ctx("http://a"));
    cfg.insert("b".into(), ctx("http://b"));
    cfg.use_context("b").unwrap();
    assert_eq!(cfg.logout(None), Ok("b".to_string()));
    assert_eq!(cfg.current, "a");
    assert!(cfg.logout(Some("zzz")).is_err());
}

#[test]
fn context_defaults_reject_an_unknown_class() {
    let mut cfg = Config::default();
    cfg.insert("a".into(), ctx("http://a"));
    cfg.use_context("a").unwrap();
    let r = cfg.set_defaults(&None, &None, &Some("web".into()), &None, &Some("prod".into()));
    assert_eq!(
        r,
        Err("unknown env class 'prod' — one of: production, stable, testing, ephemeral".to_string())
    );
    assert_eq!(cfg.get("a").unwrap().project, None);
    let r = cfg.set_defaults(&None, &Some("dash/".into()), &Some("web".into()), &None, &Some("testing".into()));
    assert_eq!(r, Ok("a".to_string()));
    let a = cfg.get("a").unwrap();
    assert_eq!(a.project.as_deref(), Some("web"));
    assert_eq!(a.class.as_deref(), Some("testing"));
    assert_eq!(a.url.as_deref(), Some("http://dash"));
    assert_eq!(
        cfg.set_defaults(&Some("nope".into()), &None, &None, &None, &None),
        Err("no context named 'nope'".to_string())
    );
}

#[test]
fn login_keeps_what_the_saved_context_had() {
    let mut cfg = Config::default();
    cfg.insert("home".into(), Context { project: Some("old".into()), ..ctx("http://x") });
    let args = LoginArgs { url: None, name: "home".into(), direct: false, project: None, class: Some("stable".into()) };
    let c = cfg.login_context(&args, "https://dash");
    assert_eq!(c.url.as_deref(), Some("https://dash"));
    assert_eq!(c.project.as_deref(), Some("old"));
    assert_eq!(c.class.as_deref(), Some("stable"));
    assert!(!c.direct);
}

#[test]
fn slow_commands_get_at_least_the_patient_timeout() {
    assert_eq!(patient_timeout(30), 150);
    assert_eq!(patient_timeout(150), 150);
    assert_eq!(patient_timeout(600), 600);
}

#[test]
fn a_terminal_gets_tables_and_a_pipe_gets_json() {
    assert_eq!(output_format(None, true), Format::Table);
    assert_eq!(output_format(None, false), Format::Json);
    assert_eq!(output_format(Some(Format::Json), true), Format::Json);
}

// ── responses ────────────────────────────────────────────────────────────────

#[test]
fn a_good_response_hands_back_its_body() {
    let r = check_response("http://x/api/a", 200, "200 OK", "application/json", "{\"a\":1}".into(), false);
    assert_eq!(r, Ok("{\"a\":1}".to_string()));
}

#[test]
fn a_failed_response_carries_the_servers_words_indented() {
    let r = check_response("http://x/api/a", 403, "403 Forbidden", "text/plain", " nope\nreally ".into(), true);
    assert_eq!(r, Err("http://x/api/a → 403 Forbidden\n  nope\n  really".to_string()));
    let r = check_response("http://x/api/a", 500, "500 Internal Server Error", "text/plain", "".into(), true);
    assert_eq!(r, Err("http://x/api/a → 500 Internal Server Error\n  (empty body)".to_string()));
}

#[test]
fn a_404_through_the_dashboard_hints_at_direct_mode() {
    let r = check_response("http://x/a", 404, "404 Not Found", "text/plain", "no".into(), false).unwrap_err();
    assert!(r.ends_with(misroute_hint(404, false)));
    assert!(misroute_hint(404, false).contains("--direct"));
    assert_eq!(misroute_hint(404, true), "");
    assert_eq!(misroute_hint(500, false), "");
}

#[test]
fn the_spa_shell_is_an_error_even_with_a_200() {
    let r = check_response("http://x/a", 200, "200 OK", "text/html", "<html>".into(), false);
    let m = r.unwrap_err();
    assert!(m.starts_with("http://x/a → 200 OK text/html, which is the dashboard's SPA shell"));
}

#[test]
fn long_bodies_are_cut_with_a_mark() {
    let long = "é".repeat(401);
    let s = snippet(&long);
    assert_eq!(s.chars().count(), 401);
    assert!(s.ends_with('…'));
    assert_eq!(snippet("short"), "short");
    assert_eq!(indent("  a\nb  "), "  a\n  b");
}

#[test]
fn an_unreachable_plane_gets_the_hint_for_its_mode() {
    assert!(unreachable_message("http://x", true).starts_with("cannot reach http://x\nThat is a WireGuard-internal listener"));
    assert!(unreachable_message("http://x", false).ends_with("reachable over the tailnet only."));
}

#[test]
fn a_blank_body_reads_as_null() {
    assert!(is_blank(""));
    assert!(is_blank(" \n\t"));
    assert!(!is_blank(" {} "));
}

// ── the SQL console ──────────────────────────────────────────────────────────

#[test]
fn a_statement_runs_once_it_ends_with_a_semicolon() {
    let mut repl = Repl::new();
    assert_eq!(repl.prompt("shop"), "shop=> ");
    assert_eq!(repl.step(Some("select 1\n")), ReplAction::More);
    assert_eq!(repl.prompt("shop"), "     -> ");
    assert_eq!(repl.step(Some("from t;  \n")), ReplAction::Run("select 1\nfrom t;  \n".into()));
    assert_eq!(repl.buffer, "");
}

#[test]
fn commands_are_read_only_at_the_start_of_a_statement() {
    let mut repl = Repl::new();
    assert_eq!(repl.step(Some("   \n")), ReplAction::More);
    assert_eq!(repl.step(Some("\\dt\n")), ReplAction::Tables);
    assert_eq!(repl.step(Some("\\d  orders \n")), ReplAction::Describe("orders".into()));
    assert_eq!(repl.step(Some("exit\n")), ReplAction::Quit);
    assert_eq!(repl.step(Some("select\n")), ReplAction::More);
    assert_eq!(repl.step(Some("\\q\n")), ReplAction::More);
    assert_eq!(repl.buffer, "select\n\\q\n");
    assert_eq!(repl.step(None), ReplAction::EndOfInput);
}

#[test]
fn the_count_line_says_when_the_cap_cut_rows() {
    assert_eq!(count_line(3, 3), "\n3 row(s)");
    assert_eq!(count_line(1200, 1000), "\n1200 row(s), 1000 shown — raise --limit for the rest");
}

#[test]
fn a_failing_command_never_exits_as_success() {
    assert_eq!(exit_status(0), None);
    assert_eq!(exit_status(137), Some(137));
    assert_eq!(exit_status(-1), Some(1));
    assert_eq!(exit_status(1 << 40), Some(255));
}

#[test]
fn literals_quote_what_they_hold() {
    assert_eq!(sql_literal("o'brien"), "'o''brien'");
    assert_eq!(sql_literal(""), "''");
    assert_eq!(json_literal("a\"b\\c\n"), "\"a\\\"b\\\\c\\n\"");
    assert_eq!(one_line("select *\nfrom t", 100), "select * from t");
}

// ── who and where ────────────────────────────────────────────────────────────

#[test]
fn a_role_is_read_ignoring_login_case() {
    let ms = vec![("Alice".to_string(), "admin".to_string()), ("bob".to_string(), "developer".to_string())];
    assert_eq!(project_role(&ms, "alice", false), "admin");
    assert_eq!(project_role(&ms, "BOB", true), "developer");
    assert_eq!(project_role(&ms, "carol", true), "— (platform admin)");
    assert_eq!(project_role(&ms, "carol", false), "—");
}

fn dev(name: Option<&str>, online: Option<bool>) -> Device {
    Device { dns_name: name.map(String::from), online }
}

#[test]
fn offline_and_nameless_peers_are_not_probed() {
    let me = Some(dev(Some("me.tail.net."), Some(true)));
    let peers = vec![
        dev(Some("a.tail.net."), Some(true)),
        dev(Some("b.tail.net."), Some(false)),
        dev(None, None),
        dev(Some("."), None),
        dev(Some("c.tail.net"), None),
        dev(Some("c.tail.net."), Some(true)),
    ];
    assert_eq!(tailnet_hosts(&me, &peers), vec!["me.tail.net", "a.tail.net", "c.tail.net"]);
    assert!(tailnet_hosts(&None, &[]).is_empty());
}

#[test]
fn production_asks_unless_told_not_to() {
    assert_eq!(confirm("restart", "org/web", "stable", false, false), Confirm::Proceed);
    assert_eq!(confirm("restart", "org/web", "production", true, false), Confirm::Proceed);
    assert_eq!(
        confirm("restart", "org/web", "production", false, true),
        Confirm::Ask("restart org/web in PRODUCTION? type the app name to confirm: ".into(), "web".into())
    );
    match confirm("roll back", "org", "production", false, false) {
        Confirm::Refuse(m) => assert!(m.starts_with("refusing to roll back org in production without confirmation\n")),
        other => panic!("{other:?}"),
    }
    assert_eq!(check_answer("web", " web\n"), Ok(()));
    assert_eq!(check_answer("web", "api"), Err("cancelled (expected 'web')".to_string()));
}

// ── tables ───────────────────────────────────────────────────────────────────

#[test]
fn a_table_pads_columns_to_their_widest_cell() {
    let mut t = Table::new(&["app", "status"]);
    t.push(vec!["web".into(), "ok".into()]);
    t.push(vec!["payments".into(), "failed".into()]);
    assert_eq!(t.len(), 2);
    assert_eq!(t.lines(), vec!["APP       STATUS", "web       ok", "payments  failed"]);
}

#[test]
fn an_empty_table_prints_its_note() {
    let t = Table::new(&["a"]).empty_note("nothing here");
    assert_eq!(t.lines(), vec!["nothing here"]);
    assert_eq!(Table::new(&["a"]).lines(), vec!["(none)"]);
}

#[test]
fn width_counts_characters_not_bytes() {
    assert_eq!(display_len("žluťoučký"), 9);
    let mut t = Table::new(&["n", "x"]);
    t.push(vec!["kůň".into(), "1".into()]);
    assert_eq!(t.lines(), vec!["N    X", "kůň  1"]);
}

// ── reading ──────────────────────────────────────────────────────────────────

#[test]
fn log_follow_resumes_after_the_last_line_seen() {
    let lines: Vec<String> = ["a", "b", "a", "c"].iter().map(|s| s.to_string()).collect();
    assert_eq!(log_resume(&lines, &None), (0, false));
    assert_eq!(log_resume(&lines, &Some("a".into())), (3, false));
    assert_eq!(log_resume(&lines, &Some("c".into())), (4, false));
    assert_eq!(log_resume(&lines, &Some("z".into())), (0, true));
}

#[test]
fn a_secret_is_shown_only_by_its_length_in_bytes() {
    assert_eq!(masked("hunter2"), "<7 chars — --reveal to show>");
    assert_eq!(masked("é"), "<2 chars — --reveal to show>");
}

#[test]
fn the_events_summary_agrees_in_number() {
    assert_eq!(events_summary(5, 1), "\n5 shown · 1 looks like a failure");
    assert_eq!(events_summary(5, 0), "\n5 shown · 0 look like a failure");
}

#[test]
fn empty_release_notes_are_refused() {
    assert_eq!(check_notes(" \n"), Err("refusing to save empty release notes".to_string()));
    assert_eq!(check_notes("fixes"), Ok(()));
}

// ── commands ─────────────────────────────────────────────────────────────────

#[test]
fn a_pin_needs_a_ref_and_digests() {
    let some = |s: &str| Some(s.to_string());
    assert_eq!(
        check_pin(&None, &None, &None, &None),
        Err("pass --ref <git ref> to publish a pin, or --from-commit <sha> to roll back".to_string())
    );
    assert_eq!(
        check_pin(&some("v1"), &some("ghcr.io/x:1"), &None, &None),
        Err("--image must be pinned by digest (…@sha256:…), not by tag".to_string())
    );
    assert_eq!(
        check_pin(&some("v1"), &None, &some("ghcr.io/d:1"), &None),
        Err("--dashboard must be pinned by digest (…@sha256:…), not by tag".to_string())
    );
    assert_eq!(check_pin(&None, &some("ghcr.io/x@sha256:ab"), &None, &some("abc")), Ok(()));
}

#[test]
fn unknown_is_a_third_state() {
    assert_eq!(converged_line(None), "unknown (the running build did not report)");
    assert_eq!(converged_line(Some(false)), "NO — rollout in flight");
    assert_eq!(mergeable_cell(None), "computing");
    assert_eq!(mergeable_cell(Some(true)), "yes");
}

#[test]
fn a_skill_is_the_guide_under_frontmatter() {
    let s = skill("# Guide\n");
    assert!(s.starts_with("---\nname: majnet\ndescription: >-\n"));
    assert!(s.ends_with("---\n\n# Guide\n"));
    assert!(needs_newline("no newline"));
    assert!(!needs_newline("done\n"));
}

// ── the terminal ─────────────────────────────────────────────────────────────

#[test]
fn a_session_needs_identity_and_a_terminal() {
    assert_eq!(may_open(false, true), Ok(()));
    assert!(may_open(true, true).unwrap_err().starts_with("a terminal session must be attributable"));
    assert!(may_open(false, false).unwrap_err().starts_with("`majnet shell` needs a terminal."));
    assert_eq!(refusal(400, "400 Bad Request", " bad \n"), "terminal refused (400 Bad Request): bad");
    assert!(refusal(403, "403 Forbidden", "no").contains("platform-admin only"));
}

#[test]
fn a_session_forwards_each_side_and_ends_with_either() {
    assert_eq!(shell_step(ShellEvent::Binary(vec![1, 2])), ShellAction::Show(vec![1, 2]));
    assert_eq!(shell_step(ShellEvent::Text("é".into())), ShellAction::Show(vec![0xc3, 0xa9]));
    assert_eq!(shell_step(ShellEvent::Typed(vec![b'l', b's'])), ShellAction::Send(vec![b'l', b's']));
    assert_eq!(shell_step(ShellEvent::Typed(vec![])), ShellAction::End);
    assert_eq!(shell_step(ShellEvent::Closed), ShellAction::End);
    assert_eq!(shell_step(ShellEvent::Control), ShellAction::Wait);
    assert_eq!(
        shell_step(ShellEvent::Resized(Some((80, 24)))),
        ShellAction::SendText("{\"resize\":{\"cols\":80,\"rows\":24}}".into())
    );
    assert_eq!(shell_step(ShellEvent::Resized(None)), ShellAction::Wait);
    assert_eq!(shell_step(ShellEvent::Lost("eof".into())), ShellAction::Fail("terminal connection lost: eof".into()));
    assert_eq!(shell_step(ShellEvent::StdinFailed("io".into())), ShellAction::Fail("reading stdin: io".into()));
}

// ── snapshots ────────────────────────────────────────────────────────────────

#[test]
fn a_branch_with_a_slash_stays_one_segment() {
    assert_eq!(urlencode("env/production"), "env%2Fproduction");
    assert_eq!(snapshot_url("http://bot", "org", "ops", "env/stable"), "http://bot/api/snapshot/org/ops/env%2Fstable");
}

#[test]
fn a_missing_snapshot_is_not_a_failure() {
    assert_eq!(snapshot_answer(200, "200 OK", "o", "r", "b"), SnapshotAnswer::Found);
    assert_eq!(snapshot_answer(404, "404 Not Found", "o", "r", "b"), SnapshotAnswer::Missing);
    assert_eq!(snapshot_answer(502, "502 Bad Gateway", "o", "r", "b"), SnapshotAnswer::Missing);
    assert_eq!(
        snapshot_answer(500, "500 Internal Server Error", "o", "r", "b"),
        SnapshotAnswer::Failed("snapshot o/r@b: bot returned 500 Internal Server Error".into())
    );
}

// ── the reconciler's captures and teardowns ─────────────────────────────────

#[test]
fn a_capture_keeps_the_head_of_each_stream_and_says_it_cut() {
    let mut c = Capture::new();
    c.take(OutStream::Stdout, b"hello ");
    c.take(OutStream::Stderr, b"warn");
    c.take(OutStream::Stdout, &vec![b'x'; MAX_OUTPUT]);
    let out = c.finish(Some(3));
    assert_eq!(out.exit_code, 3);
    assert!(out.truncated);
    assert_eq!(out.stdout.len(), MAX_OUTPUT);
    assert!(out.stdout.starts_with("hello xxx"));
    assert_eq!(out.stderr, "warn");
}

#[test]
fn invalid_utf8_is_replaced_not_dropped() {
    let mut c = Capture::new();
    c.take(OutStream::Stdout, &[b'a', 0xff, b'b']);
    let out = c.finish(None);
    assert_eq!(out.exit_code, -1);
    assert!(!out.truncated);
    assert_eq!(out.stdout, "a\u{fffd}b");
}

#[test]
fn a_teardown_releases_each_image_once() {
    let ids: Vec<String> = ["sha256:a", "", "sha256:b", "sha256:a", "sha256:c", "sha256:b"]
        .iter()
        .map(|s| s.to_string())
        .collect();
    assert_eq!(distinct_ids(&ids), vec!["sha256:a", "sha256:b", "sha256:c"]);
    assert!(distinct_ids(&[]).is_empty());
}

#[test]
fn a_removed_image_counts_its_bytes() {
    let mut r = Reclaimed::default();
    r.removed(1_000);
    r.removed(250);
    assert_eq!(r, Reclaimed { images: 2, bytes: 1_250 });
}

// ── Cloudflare ──────────────────────────────────────────────────────────────

fn zone() -> Zone {
    Zone { id: "z1".into(), name: "majksa.cz".into() }
}

fn rec(id: &str, content: &str, proxied: bool) -> DnsRecord {
    DnsRecord { id: id.into(), content: content.into(), proxied }
}

#[test]
fn a_record_already_in_place_is_kept() {
    assert_eq!(dns_action(&zone(), &[rec("r1", "1.2.3.4", true)], "1.2.3.4"), DnsAction::Keep);
}

#[test]
fn a_stale_or_unproxied_record_is_updated_in_place() {
    assert_eq!(
        dns_action(&zone(), &[rec("r1", "9.9.9.9", true), rec("r2", "1.2.3.4", true)], "1.2.3.4"),
        DnsAction::Update("/zones/z1/dns_records/r1".into())
    );
    assert_eq!(
        dns_action(&zone(), &[rec("r1", "1.2.3.4", false)], "1.2.3.4"),
        DnsAction::Update("/zones/z1/dns_records/r1".into())
    );
}

#[test]
fn a_missing_record_is_created() {
    assert_eq!(dns_action(&zone(), &[], "1.2.3.4"), DnsAction::Create("/zones/z1/dns_records".into()));
    assert_eq!(dns_lookup_path(&zone(), "app.majksa.cz"), "/zones/z1/dns_records?type=A&name=app.majksa.cz");
    assert_eq!(ssl_path(&zone()), "/zones/z1/settings/ssl");
}

#[test]
fn an_unsuccessful_answer_lists_every_error() {
    let errors = vec![
        CfApiError { code: 9109, message: "Invalid access token".into() },
        CfApiError { code: -1, message: "other".into() },
    ];
    let r: Result<u8, String> = envelope_outcome("403 Forbidden", false, &errors, Some(1));
    assert_eq!(
        r,
        Err("Cloudflare API error (HTTP 403 Forbidden): [9109] Invalid access token; [-1] other".to_string())
    );
}

#[test]
fn a_successful_answer_must_carry_a_result() {
    assert_eq!(envelope_outcome::<u8>("200 OK", true, &[], Some(7)), Ok(7));
    assert_eq!(
        envelope_outcome::<u8>("200 OK", true, &[], None),
        Err("Cloudflare response had success=true but no result".to_string())
    );
}

// ── the host probe ──────────────────────────────────────────────────────────

const DF: &str = "Filesystem           1K-blocks      Used Available Use% Mounted on\n\
                  overlay              152672636 149000000   1000000  99% /\n";

#[test]
fn parses_disk_when_the_probe_reports_it() {
    let s = format!(
        "MemTotal:       1000 kB\nMemAvailable:    400 kB\n---\n\
         cpu  50 0 50 100 0 0 0 0\ncpu  90 0 50 160 0 0 0 0\n---\n{DF}"
    );
    let h = parse_probe(&s).unwrap();
    assert_eq!(h.disk_total, 152_672_636 * 1024);
    assert_eq!(h.disk_used, 149_000_000 * 1024);
}

#[test]
fn a_probe_without_a_df_section_still_reports_cpu_and_memory() {
    let s = "MemTotal:       1000 kB\nMemAvailable:    400 kB\n---\n\
             cpu  50 0 50 100 0 0 0 0\ncpu  90 0 50 160 0 0 0 0\n";
    let h = parse_probe(s).unwrap();
    assert_eq!((h.disk_total, h.disk_used), (0, 0));
    assert_eq!(h.mem_total, 1000 * 1024);
}

#[test]
fn the_probe_hands_back_memory_in_bytes_and_the_cpu_samples_as_printed() {
    let s = "MemTotal:       1000 kB\nMemAvailable:    400 kB\n---\ncpu  1 2 3 4 5\ncpu  2 3 4 5 6\n---\nno df here";
    let h = parse_probe(s).unwrap();
    assert_eq!(h.mem_total, 1000 * 1024);
    assert_eq!(h.mem_used, 600 * 1024);
    assert_eq!(h.cpu, "\ncpu  1 2 3 4 5\ncpu  2 3 4 5 6\n");
    assert_eq!((h.disk_total, h.disk_used), (0, 0));
}

#[test]
fn a_probe_needs_memtotal_and_a_second_section() {
    assert_eq!(parse_probe("MemTotal: 1000 kB\n"), None);
    assert_eq!(parse_probe("MemAvailable: 400 kB\n---\ncpu 1 2 3 4 5\n"), None);
    let h = parse_probe("MemTotal: 8 kB\n---\n").unwrap();
    assert_eq!((h.mem_total, h.mem_used), (8192, 8192));
    assert_eq!(parse_probe("MemTotal: lots kB\n---\n"), None);
}

#[test]
fn the_skill_has_well_formed_frontmatter() {
    let text = skill("majnet agent guide: `majnet exec` runs a command, `majnet sql` queries a database.\n");
    let body = text.strip_prefix("---\n").expect("starts with frontmatter");
    let (front, rest) = body.split_once("\n---\n").expect("frontmatter terminator");
    let parsed: serde_yaml::Value = serde_yaml::from_str(front).expect("valid YAML");
    assert_eq!(parsed["name"], serde_yaml::Value::from("majnet"));
    assert!(parsed["description"].as_str().unwrap().contains("MajNet"));
    assert!(rest.contains("majnet exec"));
}

// ── seeding the platform repo ───────────────────────────────────────────────

fn seed_node(name: &str, ip: &str) -> Node {
    Node {
        name: name.into(),
        role: name.into(),
        wireguard_ip: ip.into(),
        public_endpoint: String::new(),
        wireguard_pubkey: String::new(),
    }
}

#[test]
fn renders_known_nodes_into_seed() {
    let seed = NodesFile {
        wireguard_subnet: "10.88.0.0/24".into(),
        docker_api_port: 2376,
        nodes: vec![seed_node("main", "10.88.0.1"), seed_node("prod", "10.88.0.2")],
    };
    let known = vec![EnrolledNode {
        name: "main".into(),
        public_endpoint: "203.0.113.1:51820".into(),
        wireguard_pubkey: "PUBKEY".into(),
    }];
    let out = with_enrolled(&seed, &known);
    assert_eq!(out.nodes[0].wireguard_pubkey, "PUBKEY");
    assert_eq!(out.nodes[0].public_endpoint, "203.0.113.1:51820");
    assert_eq!(out.nodes[1].wireguard_pubkey, ""); // prod not enrolled yet
    assert_eq!(out.nodes[1].wireguard_ip, "10.88.0.2");
    assert_eq!((out.wireguard_subnet.as_str(), out.docker_api_port), ("10.88.0.0/24", 2376));
}

// ── snapshot tarballs ───────────────────────────────────────────────────────

fn tarball(entries: &[(&str, Option<&[u8]>)]) -> Vec<u8> {
    let gz = flate2::write::GzEncoder::new(Vec::new(), flate2::Compression::default());
    let mut builder = tar::Builder::new(gz);
    for (path, content) in entries {
        let mut header = tar::Header::new_gnu();
        match content {
            Some(bytes) => {
                header.set_entry_type(tar::EntryType::Regular);
                header.set_size(bytes.len() as u64);
                header.set_mode(0o644);
                header.set_cksum();
                builder.append_data(&mut header, path, *bytes).unwrap();
            }
            None => {
                header.set_entry_type(tar::EntryType::Directory);
                header.set_size(0);
                header.set_mode(0o755);
                header.set_cksum();
                builder.append_data(&mut header, path, std::io::empty()).unwrap();
            }
        }
    }
    builder.into_inner().unwrap().finish().unwrap()
}

#[test]
fn a_snapshot_unpacks_without_its_top_level_directory() {
    let bytes = tarball(&[
        ("org-ops-abc1234/", None),
        ("org-ops-abc1234/project.yaml", Some(b"name: shop\n")),
        ("org-ops-abc1234/apps/", None),
        ("org-ops-abc1234/apps/web/base.yaml", Some(b"image: x\n")),
        ("org-ops-abc1234/a.yaml", Some(b"first")),
        ("org-ops-abc1234/a.yaml", Some(b"second")),
    ]);
    let files = untar(&bytes).unwrap();
    let paths: Vec<&str> = files.iter().map(|(p, _)| p.as_str()).collect();
    assert_eq!(paths, vec!["a.yaml", "apps/web/base.yaml", "project.yaml"]);
    assert_eq!(files[0].1, b"second".to_vec());
    assert_eq!(files[2].1, b"name: shop\n".to_vec());
    let snap = Snapshot { commit: "abc1234".into(), files };
    assert_eq!(snap.file("apps/web/base.yaml"), Some(&b"image: x\n".to_vec()));
    assert_eq!(snap.file("apps/web"), None);
}

#[test]
fn a_corrupt_tarball_is_an_error() {
    assert!(untar(b"definitely not gzip").is_err());
    assert_eq!(untar(&tarball(&[])).unwrap(), vec![]);
}

// ── following the event log ─────────────────────────────────────────────────

fn keys(ks: &[&str]) -> Vec<String> {
    ks.iter().map(|s| s.to_string()).collect()
}

#[test]
fn a_follower_prints_the_backlog_once_then_only_new_events() {
    let mut f = Follower::new();
    assert_eq!(f.step(&keys(&["e1", "e2", "e3"])), FollowOutput::Backlog(vec![2, 1, 0]));
    assert_eq!(f.step(&keys(&["e2", "e3", "e4", "e5"])), FollowOutput::Lines(vec![2, 3]));
    assert_eq!(f.step(&keys(&["e3", "e4", "e5"])), FollowOutput::Lines(vec![]));
    assert_eq!(f.seen, keys(&["e1", "e2", "e3", "e4", "e5"]));
}

#[test]
fn two_identical_events_in_one_poll_show_once() {
    let mut f = Follower::new();
    f.step(&[]);
    assert_eq!(f.step(&keys(&["x", "x", "y"])), FollowOutput::Lines(vec![0, 2]));
}

#[test]
fn a_follower_forgets_the_oldest_beyond_its_window() {
    let mut f = Follower::new();
    let many: Vec<String> = (0..=FOLLOW_WINDOW + 1).map(|i| format!("e{i}")).collect();
    f.step(&many);
    assert_eq!(f.seen.len(), FOLLOW_WINDOW + 1);
    assert_eq!(f.seen[0], "e1");
    assert_eq!(f.step(&keys(&["e0", "e5"])), FollowOutput::Lines(vec![0]));
}

// ── statements and their results ────────────────────────────────────────────

fn out(code: i64, stdout: &str, stderr: &str) -> RunOutput {
    RunOutput { exit_code: code, stdout: stdout.into(), stderr: stderr.into(), truncated: false }
}

#[test]
fn a_rejected_statement_carries_the_engines_words() {
    let r = sql_result(DbEngine::Postgres, "shop", false, 10, out(1, "", "  ERROR: relation \"x\" does not exist\n"));
    assert_eq!(r.unwrap_err(), "postgres rejected the statement (exit 1): ERROR: relation \"x\" does not exist");
    let r = sql_result(DbEngine::Mariadb, "shop", false, 10, out(2, "denied\n", " \n"));
    assert_eq!(r.unwrap_err(), "mariadb rejected the statement (exit 2): denied");
}

#[test]
fn rows_beyond_the_limit_are_counted_but_not_returned() {
    let r = sql_result(DbEngine::Postgres, "shop", false, 2, out(0, "id,name\n1,a\n2,b\n3,c\n", "")).unwrap();
    assert_eq!(r.columns, vec!["id", "name"]);
    assert_eq!(r.rows, vec![vec!["1", "a"], vec!["2", "b"]]);
    assert_eq!(r.row_count, 3);
    assert!(r.truncated);
    assert!(r.read_only);
    assert_eq!(r.engine, "postgres");
    assert_eq!(r.database, "shop");
    assert_eq!(r.raw, None);
    assert_eq!(r.notice, None);
}

#[test]
fn a_key_value_store_answers_raw_with_its_notices() {
    let r = sql_result(DbEngine::Valkey, "0", true, 10, out(0, "PONG\n", "warning: x\n")).unwrap();
    assert_eq!(r.raw.as_deref(), Some("PONG\n"));
    assert!(r.rows.is_empty() && r.columns.is_empty());
    assert_eq!(r.row_count, 0);
    assert_eq!(r.notice.as_deref(), Some("warning: x"));
    assert!(!r.read_only);
    assert_eq!(r.engine, "valkey");
}

fn query(write: bool, limit: Option<usize>, meta: Option<&str>, table: Option<&str>) -> SqlQuery {
    SqlQuery { write, limit, meta: meta.map(String::from), table: table.map(String::from) }
}

#[test]
fn a_statement_is_the_trimmed_body_and_a_catalog_listing_never_writes() {
    let body = SqlBody { sql: "  select 1;\n".into() };
    let st = statement(DbEngine::Postgres, &query(true, None, None, None), &body).unwrap();
    assert_eq!((st.sql.as_str(), st.write, st.limit), ("select 1;", true, 200));
    let st = statement(DbEngine::Postgres, &query(true, Some(5), Some("tables"), None), &body).unwrap();
    assert!(!st.write);
    assert_eq!(st.limit, 5);
    assert_eq!(
        statement(DbEngine::Postgres, &query(false, None, None, None), &SqlBody { sql: " \n".into() }).unwrap_err(),
        "sql must not be empty"
    );
    assert_eq!(
        statement(DbEngine::Postgres, &query(false, None, Some("columns"), None), &body).unwrap_err(),
        "meta=columns needs table="
    );
    assert_eq!(
        statement(DbEngine::Valkey, &query(false, None, Some("columns"), Some("k")), &body).unwrap_err(),
        "meta=columns is not supported for Valkey"
    );
}

#[test]
fn a_write_takes_an_admin_in_every_class() {
    assert_eq!(sql_role(EnvClass::Stable, &query(true, None, None, None)), Role::Admin);
    assert_eq!(sql_role(EnvClass::Stable, &query(false, None, None, None)), Role::Developer);
    assert_eq!(sql_role(EnvClass::Production, &query(false, None, None, None)), Role::Admin);
}

#[test]
fn audit_rows_name_the_actor_the_app_and_the_outcome() {
    assert_eq!(check_exec(&ExecBody { cmd: vec![], stdin: None, workdir: None }), Err("cmd must not be empty".to_string()));
    assert_eq!(check_exec(&ExecBody { cmd: vec!["ls".into()], stdin: None, workdir: None }), Ok(()));
    assert_eq!(exec_outcome(&Ok(out(3, "", ""))), "exit 3");
    assert_eq!(exec_outcome(&Err("timed out".into())), "FAILED: timed out");
    let cmd = vec!["rails".to_string(), "db:migrate".to_string()];
    assert_eq!(
        exec_audit("alice", "web", EnvClass::Production, &cmd, "exit 0"),
        ("exec web (production)".to_string(), "by alice: rails db:migrate → exit 0".to_string())
    );
    assert_eq!(
        sql_audit("bob", "web", EnvClass::Stable, false, "select *\n  from t", "2 row(s)"),
        ("sql web (stable)".to_string(), "by bob [read-only]: select * from t → 2 row(s)".to_string())
    );
    assert_eq!(sql_outcome(&Err("bad\nthing".into())), "FAILED: bad thing");
    assert!(tabular(DbEngine::Mariadb) && !tabular(DbEngine::Mongodb));
    assert_eq!(engine_name(DbEngine::Mongodb), "mongodb");
}

// ── the command line's requests ─────────────────────────────────────────────

fn sql_args(sql: Option<&str>, file: Option<&str>, tables: bool, columns: Option<&str>) -> SqlArgs {
    SqlArgs {
        target: TargetArgs { project: None, app: None, class: None },
        sql: sql.map(String::from),
        file: file.map(String::from),
        write: false,
        limit: 200,
        tables,
        columns: columns.map(String::from),
    }
}

#[test]
fn a_command_goes_after_the_double_dash_or_through_a_shell() {
    let cmd = vec!["ls".to_string(), "-la".to_string(), "/app".to_string()];
    assert_eq!(exec_command(&cmd, false), Ok(cmd.clone()));
    assert_eq!(exec_command(&cmd, true), Ok(vec!["sh".to_string(), "-c".to_string(), "ls -la /app".to_string()]));
    assert!(exec_command(&vec![], false).unwrap_err().starts_with("no command given — it goes after `--`"));
}

#[test]
fn a_catalog_flag_wins_over_a_statement_and_a_terminal_opens_the_repl() {
    assert_eq!(statement_source(&sql_args(Some("select 1"), None, true, None), true), StatementSource::Catalog);
    assert_eq!(statement_source(&sql_args(Some("select 1"), Some("q.sql"), false, None), true), StatementSource::Given("select 1".into()));
    assert_eq!(statement_source(&sql_args(None, Some("q.sql"), false, None), true), StatementSource::File("q.sql".into()));
    assert_eq!(statement_source(&sql_args(None, None, false, None), true), StatementSource::Repl);
    assert_eq!(statement_source(&sql_args(None, None, false, None), false), StatementSource::Stdin);
    assert_eq!(catalog_request(&sql_args(None, None, true, Some("t"))), Some(("tables".into(), None)));
    assert_eq!(catalog_request(&sql_args(None, None, false, Some("orders"))), Some(("columns".into(), Some("orders".into()))));
    assert_eq!(catalog_request(&sql_args(None, None, false, None)), None);
}

#[test]
fn the_sql_path_encodes_each_segment_and_names_the_listing() {
    assert_eq!(sql_path("org", "stable", "web", 50, false, &None), "/api/sql/org/stable/web?limit=50");
    assert_eq!(
        sql_path("my org", "production", "web", 10, true, &Some(("columns".into(), Some("a/b".into())))),
        "/api/sql/my%20org/production/web?limit=10&write=true&meta=columns&table=a%2Fb"
    );
    assert_eq!(statement_body(Some("select 1"), false), Ok("select 1".to_string()));
    assert_eq!(statement_body(Some("  "), false), Err("no statement given".to_string()));
    assert_eq!(statement_body(None, true), Ok(String::new()));
}

// ── releases ────────────────────────────────────────────────────────────────

fn deploy(app: &str, class: &str, status: &str, stage: &str) -> DeployRow {
    DeployRow {
        project: "p".into(),
        app: app.into(),
        class: class.into(),
        stage: stage.into(),
        status: status.into(),
        detail: "d".into(),
    }
}

fn release(app: &str, status: &str) -> ReleaseRow {
    ReleaseRow {
        app: app.into(),
        version: "v1.0.0".into(),
        stage: "publish".into(),
        status: status.into(),
        detail: String::new(),
        updated_at: "2024-01-01T00:00:00Z".into(),
        fleet: None,
    }
}

#[test]
fn a_release_is_joined_with_its_apps_stable_rollout() {
    let rows = vec![deploy("web", "production", "active", "pull"), deploy("web", "stable", "failed", "health"), deploy("api", "stable", "active", "pull")];
    let f = fleet_for(&rows, "web").unwrap();
    assert_eq!((f.status.as_str(), f.stage.as_str()), ("failed", "health"));
    assert!(fleet_for(&rows, "worker").is_none());
    let joined = join_fleet(vec![release("web", "done"), release("worker", "done")], Some(&rows));
    assert_eq!(fleet_cell(&joined[0]), "FAILED: health");
    assert_eq!(fleet_cell(&joined[1]), "");
    assert!(contradiction_warning(&joined).is_some());
    let unknown = join_fleet(vec![release("web", "done")], None);
    assert!(unknown[0].fleet.is_none());
    assert_eq!(contradiction_warning(&unknown), None);
}

// ── identity, projects, targets ─────────────────────────────────────────────

#[test]
fn the_identity_report_says_what_the_plane_sees() {
    let ctx = Context { url: Some("https://dash".into()), ..Default::default() };
    let who = WhoAmI { login: Some("alice".into()), admin: false };
    assert_eq!(
        identity_report(&who, &ctx),
        vec!["you:      alice", "platform: member (project roles decide the rest)", "endpoint: https://dash"]
    );
    let nobody = WhoAmI { login: None, admin: true };
    let lines = identity_report(&nobody, &ctx);
    assert_eq!(lines[0], "you:      (unidentified — the control plane sees this call as `infra`)");
    assert_eq!(lines.len(), 3);
}

#[test]
fn a_project_comes_from_the_argument_or_the_context() {
    let ctx = Context { project: Some("shop".into()), app: Some(String::new()), ..Default::default() };
    assert_eq!(wanted_project(&ctx, None), Ok("shop".to_string()));
    assert_eq!(wanted_project(&ctx, Some("blog")), Ok("blog".to_string()));
    assert!(wanted_project(&Context::default(), None).unwrap_err().starts_with("no project given"));
    assert!(app(&ctx, None).unwrap_err().starts_with("no app given"));
    assert_eq!(app(&ctx, Some("web")), Ok("web".to_string()));
    assert_eq!(list(&[]), "(none — the registry is empty)");
}

#[test]
fn a_shell_target_is_encoded_into_the_terminal_query() {
    assert_eq!(host_target("main"), ("mode=host&node=main".to_string(), "host shell on main".to_string()));
    assert_eq!(
        container_target("my org", "web", "stable"),
        ("mode=container&project=my%20org&app=web&class=stable".to_string(), "my org/web (stable)".to_string())
    );
}

#[test]
fn the_registry_maps_an_org_to_its_project_name() {
    let reg = ProjectsFile {
        projects: vec![
            ProjectRegistryEntry { name: "shop".into(), org: "shop-org".into() },
            ProjectRegistryEntry { name: "blog".into(), org: "blog".into() },
        ],
    };
    assert_eq!(reg.name_of("shop-org"), "shop");
    assert_eq!(reg.name_of("unknown-org"), "unknown-org");
}

#[test]
fn the_prod_node_is_found_by_role_and_its_port_dropped() {
    let mut nodes = NodesFile {
        wireguard_subnet: "10.88.0.0/24".into(),
        docker_api_port: 2376,
        nodes: vec![seed_node("main", "10.88.0.1"), seed_node("prod", "10.88.0.2")],
    };
    assert_eq!(prod_public_ip(&nodes), Err("prod node has no public endpoint yet".to_string()));
    nodes.nodes[1].public_endpoint = "203.0.113.9:51820".into();
    assert_eq!(prod_public_ip(&nodes), Ok("203.0.113.9".to_string()));
    assert_eq!(nodes.by_role("main").unwrap().name, "main");
    nodes.nodes.remove(1);
    assert_eq!(prod_public_ip(&nodes), Err("no prod node in nodes.yaml".to_string()));
}

fn manifest(name: &str, host: Option<&str>) -> AppManifest {
    AppManifest {
        name: name.into(),
        image: "ghcr.io/x@sha256:aa".into(),
        env: vec![],
        secrets: vec![],
        ingress: host.map(|h| Ingress { host: h.into(), port: 80 }),
        health: None,
        migration: None,
    }
}

#[test]
fn production_hosts_are_sorted_and_each_listed_once() {
    let ms = vec![manifest("b", Some("z.example.org")), manifest("a", Some("a.example.org")), manifest("c", None), manifest("d", Some("z.example.org"))];
    assert_eq!(production_hosts(&ms), vec!["a.example.org", "z.example.org"]);
    assert!(manifest_path("web.yaml"));
    assert!(!manifest_path("secrets/web.yaml"));
    assert!(!manifest_path("web.yml"));
}

#[test]
fn each_class_runs_on_its_node_from_its_branch() {
    assert_eq!(EnvClass::Production.node_role(), "prod");
    assert_eq!(EnvClass::Ephemeral.node_role(), "private");
    assert_eq!(EnvClass::Stable.env_branch(), "env/stable");
    assert!(!EnvClass::Production.auto_merges());
    assert!(EnvClass::Ephemeral.auto_merges());
}

#[test]
fn flags_override_the_saved_endpoint() {
    let c = Context { bot_url: Some("http://b".into()), ..ctx("http://a") };
    let d = c.duplicate().with_flags(Some("http://x".into()), false);
    assert_eq!((d.url.as_deref(), d.direct), (Some("http://x"), false));
    let e = c.with_flags(None, true);
    assert_eq!((e.url.as_deref(), e.direct), (Some("http://a"), true));
}

#[test]
fn a_result_prints_as_a_table_with_its_count() {
    let reply = SqlReply {
        columns: vec!["id".into(), "name".into()],
        rows: vec![vec!["1".into(), "ann".into()], vec!["22".into(), "bo".into()]],
        row_count: 5,
        raw: None,
        notice: Some("NOTICE: x  \n".into()),
    };
    let (out, notice) = reply.render();
    assert_eq!(out, "ID  NAME\n1   ann\n22  bo\n\n5 row(s), 2 shown — raise --limit for the rest\n");
    assert_eq!(notice.as_deref(), Some("NOTICE: x"));
}

#[test]
fn raw_output_prints_as_it_came_and_no_columns_says_so() {
    let raw = SqlReply { columns: vec![], rows: vec![], row_count: 0, raw: Some("PONG".into()), notice: Some("n".into()) };
    assert_eq!(raw.render(), ("PONG\n".to_string(), None));
    let none = SqlReply { columns: vec![], rows: vec![], row_count: 0, raw: None, notice: None };
    assert_eq!(none.render(), ("ok — no rows returned\n".to_string(), None));
    let empty = SqlReply { columns: vec!["a".into()], rows: vec![], row_count: 0, raw: None, notice: None };
    assert_eq!(empty.render(), ("(0 rows)\n\n0 row(s)\n".to_string(), None));
}

#[test]
fn an_escaped_backslash_before_n_stays_a_backslash_and_n() {
    let (cols, rows) = parse_tsv("v\nx\\\\ny\n");
    assert_eq!(cols, vec!["v"]);
    assert_eq!(rows, vec![vec!["x\\ny"]]);
    let (_, rows) = parse_tsv("v\na\\tb\\nc\\\\\\x\\\n");
    assert_eq!(rows, vec![vec!["a\tb\nc\\\\x\\"]]);
}

#[test]
fn a_mongodb_statement_travels_on_stdin() {
    let creds = DbCreds { engine: DbEngine::Mongodb, database: "shop".into(), user: "u".into(), password: "p".into() };
    let (argv, env, stdin) = client_invocation(&creds, "db.stats()", false);
    assert_eq!(argv, vec!["mongosh", "mongodb://u:p@localhost:27017/shop?authSource=shop", "--quiet"]);
    assert!(env.is_empty());
    assert_eq!(stdin.as_deref(), Some("db.stats()\n"));
    assert_eq!(client_invocation(&creds, "other()", true).0, argv);
}

fn entry(is_file: bool, path: &[&str], content: &[u8]) -> TarEntry {
    TarEntry { is_file, path: path.iter().map(|s| s.to_string()).collect(), content: content.to_vec() }
}

#[test]
fn unpacking_keeps_files_below_the_top_directory_and_the_last_copy() {
    let files = unpack(&[
        entry(false, &["top"], b""),
        entry(true, &["top"], b"top-level file"),
        entry(true, &["top", "b", "c.yaml"], b"1"),
        entry(true, &["top", "a.yaml"], b"old"),
        entry(false, &["top", "b"], b""),
        entry(true, &["top", "a.yaml"], b"new"),
    ]);
    assert_eq!(files, vec![("a.yaml".to_string(), b"new".to_vec()), ("b/c.yaml".to_string(), b"1".to_vec())]);
}

#[test]
fn written_csv_reads_back() {
    let recs = vec![vec!["id".to_string(), "note".to_string()], vec!["1".to_string(), "say \"hi\", then\nbye".to_string()], vec!["".to_string()]];
    let mut text = String::new();
    for r in &recs {
        let fields: Vec<String> = r.iter().map(|f| format!("\"{}\"", f.replace('"', "\"\""))).collect();
        text.push_str(&fields.join(","));
        text.push('\n');
    }
    assert_eq!(parse_csv(&text), (recs[0].clone(), recs[1..].to_vec()));
}

#[test]
fn the_status_page_picks_live_rollouts_and_recent_failures() {
    let rows = vec![deploy("a", "stable", "active", "pull"), deploy("b", "stable", "done", "x"), deploy("c", "production", "active", "health")];
    assert_eq!(in_flight(&rows), vec![0, 2]);
    let ev = |r: &str| EventRow { at: "t".into(), project: "p".into(), action: "a".into(), commit: "c".into(), result: r.into() };
    let events = vec![ev("ok"), ev("FAILED: pull"), ev("error: x"), ev("fine"), ev("unhealthy")];
    assert_eq!(recent_failures(&events, 10), vec![1, 2, 4]);
    assert_eq!(recent_failures(&events, 2), vec![1, 2]);
    let sections = vec![("projects".to_string(), None), ("metrics".to_string(), Some("timeout".to_string()))];
    assert_eq!(section_errors(&sections), vec![("metrics".to_string(), "timeout".to_string())]);
}

// ── the reconciler's gate ───────────────────────────────────────────────────

#[test]
fn only_a_named_platform_admin_passes_the_admin_gate() {
    assert_eq!(platform_admin_gate(&None, false), Ok("infra".to_string()));
    assert_eq!(
        platform_admin_gate(&None, true),
        Err("terminal requires an authenticated platform admin (no identity header)".to_string())
    );
    assert_eq!(platform_admin_gate(&Some(("alice".into(), true)), true), Ok("alice".to_string()));
    assert_eq!(platform_admin_gate(&Some(("bob".into(), false)), false), Err("platform admin required".to_string()));
}

#[test]
fn a_project_is_found_by_name_or_by_org() {
    let reg = ProjectsFile {
        projects: vec![
            ProjectRegistryEntry { name: "shop".into(), org: "shop-org".into() },
            ProjectRegistryEntry { name: "blog".into(), org: "blog".into() },
        ],
    };
    assert_eq!(registered_org(&reg, "shop"), Ok("shop-org".to_string()));
    assert_eq!(registered_org(&reg, "shop-org"), Ok("shop-org".to_string()));
    assert_eq!(registered_org(&reg, "wiki"), Err("unknown project wiki".to_string()));
}

#[test]
fn the_platform_keeps_its_own_images() {
    let set = protected_images(
        &["postgres:16".to_string(), "traefik:3".to_string()],
        &["traefik:3".to_string(), "oauth2-proxy:7".to_string()],
        "alpine:3",
        "ttyd:1",
    );
    assert_eq!(set, vec!["alpine:3", "oauth2-proxy:7", "postgres:16", "traefik:3", "ttyd:1"]);
}

#[test]
fn the_seed_tree_needs_nodes_and_version_files() {
    let files = vec![("nodes.yaml".to_string(), "x".to_string()), ("docs/a.md".to_string(), "y".to_string())];
    assert_eq!(require_seed_file(&files, "nodes.yaml", "/src/platform-seed"), Ok(()));
    assert_eq!(
        require_seed_file(&files, "version.yaml", "/src/platform-seed"),
        Err("platform-seed has no version.yaml at /src/platform-seed".to_string())
    );
    assert_eq!(seed_key("docs\\runbooks\\a.md"), "docs/runbooks/a.md");
}

#[test]
fn a_probe_is_in_range_unless_a_figure_overflows_as_bytes() {
    assert!(probe_in_range("MemTotal: 1000 kB\n---\ncpu 1 2 3 4 5\n"));
    assert!(probe_in_range("no sections"));
    assert!(!probe_in_range("MemTotal: 9223372036854775807 kB\n---\n"));
    assert!(!probe_in_range("MemTotal: 8 kB\n---\n---\nfs 9223372036854775807 1 1 1% /\n"));
    assert!(probe_in_range("MemTotal: 8 kB\n---\n---\nfs 100 40 60 40% /\n"));
}
