use majnet::envclass::EnvClass;
use majnet::images::{plan, reclaimable, ImageFacts};
use majnet::metrics::parse_df;
use majnet::project::Role;
use majnet::run::{catalog_query, client_invocation, min_role, one_line, parse_csv, parse_tsv, DbCreds, DbEngine};

const DF: &str = "Filesystem           1K-blocks      Used Available Use% Mounted on\n\
                  overlay              152672636 149000000   1000000  99% /\n";

#[test]
fn df_skips_the_header_row() {
    assert_eq!(parse_df(DF), Some((152_672_636 * 1024, 149_000_000 * 1024)));
}

#[test]
fn df_handles_a_wrapped_device_name() {
    let wrapped = "Filesystem 1K-blocks Used Available Use% Mounted on\n\
                   /dev/mapper/a-very-long-volume-group-name-here\n\
                   \u{20}         100 40 60 40% /\n";
    assert_eq!(parse_df(wrapped), Some((100 * 1024, 40 * 1024)));
}

#[test]
fn csv_handles_quotes_commas_and_newlines() {
    let (cols, rows) = parse_csv("id,name\n1,\"Smith, John\"\n2,\"line\nbreak\"\n");
    assert_eq!(cols, ["id", "name"]);
    assert_eq!(rows, [["1", "Smith, John"], ["2", "line\nbreak"]]);
}

#[test]
fn csv_doubles_are_one_quote_and_empty_input_is_empty() {
    let (_, rows) = parse_csv("v\n\"say \"\"hi\"\"\"\n");
    assert_eq!(rows, [["say \"hi\""]]);
    assert_eq!(parse_csv(""), (Vec::<String>::new(), Vec::<Vec<String>>::new()));
}

#[test]
fn csv_header_only_yields_no_rows() {
    let (cols, rows) = parse_csv("id,name\n");
    assert_eq!(cols, ["id", "name"]);
    assert!(rows.is_empty());
}

#[test]
fn tsv_unescapes_mysql_batch_output() {
    let (cols, rows) = parse_tsv("id\tnote\n1\ta\\nb\n");
    assert_eq!(cols, ["id", "note"]);
    assert_eq!(rows, [["1", "a\nb"]]);
}

#[test]
fn the_read_only_guard_rides_on_the_connection_not_the_script() {
    let t = DbCreds {
        engine: DbEngine::Postgres,
        database: "demo_api_stable".into(),
        user: "demo_api_stable".into(),
        password: "pw".into(),
    };
    let (cmd, env, stdin) = client_invocation(&t, "SELECT 1", false);
    assert_eq!(stdin.unwrap(), "SELECT 1", "nothing of ours may reach stdout");
    assert!(env.iter().any(|e| e == "PGOPTIONS=-c default_transaction_read_only=on"));
    assert!(env.iter().any(|e| e.starts_with("PGPASSWORD=")));
    assert!(cmd.contains(&"-q".to_string()));

    let (_, env, stdin) = client_invocation(&t, "INSERT INTO t VALUES (1)", true);
    assert_eq!(stdin.unwrap(), "INSERT INTO t VALUES (1)");
    assert!(!env.iter().any(|e| e.contains("read_only")), "write must not be guarded");
}

#[test]
fn mariadb_guards_at_connect_time() {
    let t = DbCreds {
        engine: DbEngine::Mariadb,
        database: "demo_api_stable".into(),
        user: "demo_api_stable".into(),
        password: "pw".into(),
    };
    let (cmd, _, stdin) = client_invocation(&t, "SELECT 1", false);
    assert_eq!(stdin.unwrap(), "SELECT 1");
    assert!(cmd.iter().any(|a| a == "SET SESSION TRANSACTION READ ONLY"));
    let (cmd, _, _) = client_invocation(&t, "SELECT 1", true);
    assert!(!cmd.iter().any(|a| a.contains("READ ONLY")));
}

#[test]
fn production_needs_admin_other_classes_do_not() {
    assert_eq!(min_role(EnvClass::Production), Role::Admin);
    assert_eq!(min_role(EnvClass::Stable), Role::Developer);
    assert_eq!(min_role(EnvClass::Ephemeral), Role::Developer);
}

#[test]
fn catalog_queries_are_engine_specific_and_refuse_what_they_cannot_do() {
    assert!(catalog_query(DbEngine::Postgres, "tables", None).unwrap().contains("information_schema.tables"));
    assert!(catalog_query(DbEngine::Postgres, "columns", None).is_err());
    assert!(catalog_query(DbEngine::Valkey, "columns", Some("x")).is_err());
    let q = catalog_query(DbEngine::Postgres, "columns", Some("o'brien")).unwrap();
    assert!(q.contains("'o''brien'"));
}

#[test]
fn audit_line_is_flattened_and_bounded() {
    assert_eq!(one_line("SELECT\n  1", 100), "SELECT 1");
    assert_eq!(one_line(&"x".repeat(400), 10).chars().count(), 10);
}

const HOUR: i64 = 3_600;
const NOW: i64 = 1_000 * HOUR;

fn img(id: &str, tags: &[&str], age_hours: i64) -> ImageFacts {
    ImageFacts {
        id: id.to_string(),
        repo_tags: tags.iter().map(|s| s.to_string()).collect(),
        created: NOW - age_hours * HOUR,
        size: 1_000,
    }
}

fn ids(v: Vec<&ImageFacts>) -> Vec<&str> {
    v.iter().map(|i| i.id.as_str()).collect()
}

fn strings(v: &[&str]) -> Vec<String> {
    v.iter().map(|s| s.to_string()).collect()
}

#[test]
fn reclaims_only_old_unused_unprotected_images() {
    let images = [
        img("dead-preview", &["ghcr.io/o/app@sha256:1"], 200),
        img("running", &["ghcr.io/o/app@sha256:2"], 200),
        img("platform", &["postgres:17"], 200),
        img("fresh", &["ghcr.io/o/app@sha256:3"], 1),
    ];
    let in_use = strings(&["running"]);
    let protected = strings(&["postgres:17"]);
    let got = reclaimable(&images, &in_use, &protected, NOW, 72 * HOUR);
    assert_eq!(ids(got), ["dead-preview"]);
}

#[test]
fn a_stopped_containers_image_is_in_use() {
    let images = [img("stopped-app", &["ghcr.io/o/app@sha256:1"], 500)];
    let in_use = strings(&["stopped-app"]);
    assert!(reclaimable(&images, &in_use, &[], NOW, 72 * HOUR).is_empty());
}

#[test]
fn an_untagged_image_is_still_reclaimable() {
    let images = [img("untagged", &[], 200)];
    let got = reclaimable(&images, &[], &[], NOW, 72 * HOUR);
    assert_eq!(ids(got), ["untagged"]);
}

#[test]
fn min_age_protects_an_image_pulled_for_a_rollout_in_flight() {
    let images = [img("just-pulled", &["ghcr.io/o/app@sha256:9"], 0)];
    assert!(reclaimable(&images, &[], &[], NOW, 72 * HOUR).is_empty());
}

#[test]
fn plan_takes_the_oldest_first_and_stops_once_it_has_enough() {
    let images = [img("newest", &[], 10), img("oldest", &[], 300), img("middle", &[], 100)];
    let all: Vec<&ImageFacts> = images.iter().collect();
    assert_eq!(ids(plan(all.clone(), 1_500)), ["oldest", "middle"]);
    assert!(plan(all.clone(), 0).is_empty());
    assert_eq!(ids(plan(all, i64::MAX)), ["oldest", "middle", "newest"]);
}

#[test]
fn a_fast_churning_node_is_still_reclaimable() {
    let images: Vec<ImageFacts> = (0..300).map(|k| img(&format!("preview-{k}"), &[], 6)).collect();
    let candidates = reclaimable(&images, &[], &[], NOW, HOUR);
    assert_eq!(candidates.len(), 300, "6 h-old images must be reclaimable");
    assert_eq!(plan(candidates, 2_500).len(), 3);
}

#[test]
fn the_safety_floor_still_protects_an_in_flight_pull() {
    let images = [img("just-pulled", &[], 0)];
    assert!(reclaimable(&images, &[], &[], NOW, HOUR).is_empty());
}

#[test]
fn one_protected_tag_shelters_the_whole_image() {
    let images = [img("multi", &["ghcr.io/o/app@sha256:1", "busybox:stable"], 900)];
    let protected = strings(&["busybox:stable"]);
    assert!(reclaimable(&images, &[], &protected, NOW, 72 * HOUR).is_empty());
}
