use majnet::client::{is_html, seg};
use majnet::config::{normalise, Config, Context, EnvOverrides, DEFAULT_BOT_URL, DEFAULT_RECON_URL};
use majnet::identity::{identity_line, WhoAmI};
use majnet::output::elide;
use majnet::resolve::{class, match_project, ProjectSummary};

fn no_env() -> EnvOverrides {
    EnvOverrides { url: None, bot_url: None, recon_url: None, project: None }
}

#[test]
fn the_spa_shell_is_recognised_by_type_or_by_body() {
    assert!(is_html("text/html; charset=utf-8", "{}"));
    assert!(is_html("application/octet-stream", "<!doctype html><html>"));
    assert!(!is_html("application/json", "{\"login\":\"majksa\"}"));
}

#[test]
fn path_segments_are_encoded() {
    assert_eq!(seg("sideline-server"), "sideline-server");
    assert_eq!(seg("@scope/leaf@1.2.3"), "%40scope%2Fleaf%401.2.3");
}

#[test]
fn a_bare_hostname_gets_a_scheme_and_loses_a_trailing_slash() {
    assert_eq!(normalise("majksa"), "http://majksa");
    assert_eq!(normalise("https://dash.example.net/"), "https://dash.example.net");
    assert_eq!(normalise("  http://x  "), "http://x");
}

#[test]
fn an_unidentified_caller_is_never_shown_as_an_admin() {
    let infra = WhoAmI { login: None, admin: true };
    assert!(identity_line(&infra).contains("unidentified"));
    assert!(!identity_line(&infra).contains("admin)"));
    let human = WhoAmI { login: Some("majksa".into()), admin: true };
    assert_eq!(identity_line(&human), "majksa (platform admin)");
}

#[test]
fn describe_names_both_listeners_in_direct_mode() {
    let direct = Context { direct: true, ..Default::default() };
    assert!(direct.describe().contains("no identity"));
}

#[test]
fn proxy_mode_prefixes_both_backends_and_strips_trailing_slash() {
    let ctx = Context { url: Some("http://majksa/".into()), ..Default::default() };
    assert_eq!(ctx.bot_base(), "http://majksa/api/bot");
    assert_eq!(ctx.recon_base(), "http://majksa/api/recon");
}

#[test]
fn direct_mode_talks_to_the_wg_listeners_unprefixed() {
    let ctx = Context { direct: true, ..Default::default() };
    assert_eq!(ctx.bot_base(), DEFAULT_BOT_URL);
    assert_eq!(ctx.recon_base(), DEFAULT_RECON_URL);
}

#[test]
fn terminal_ws_follows_the_scheme() {
    let http = Context { url: Some("http://majksa".into()), ..Default::default() };
    assert!(http.terminal_ws("mode=host").starts_with("ws://majksa/api/recon/api/terminal?"));
    let https = Context { url: Some("https://dash.example.net".into()), ..Default::default() };
    assert!(https.terminal_ws("mode=host").starts_with("wss://dash.example.net/"));
}

#[test]
fn an_unknown_named_context_is_an_error_but_an_unset_default_is_not() {
    let cfg = Config::default();
    assert!(cfg.resolve(Some("nope"), &no_env()).is_err());
    let ctx = cfg.resolve(None, &no_env()).expect("an unset default is not an error");
    let err = ctx.require_endpoint().unwrap_err();
    assert!(err.contains("majnet login"), "{err}");
    assert!(Context { url: Some("http://x".into()), ..Default::default() }.require_endpoint().is_ok());
    assert!(Context { direct: true, ..Default::default() }.require_endpoint().is_ok());
}

#[test]
fn the_default_class_is_the_safe_one() {
    assert_eq!(Context::default().class_or_default(), "stable");
}

#[test]
fn elide_is_char_safe_and_flattens_newlines() {
    assert_eq!(elide("abc", 8), "abc");
    assert_eq!(elide("abcdefgh", 4), "abc…");
    assert_eq!(elide("čárka", 3), "čá…");
    assert_eq!(elide("a\nb", 8), "a b");
}

fn p(name: &str, org: &str) -> ProjectSummary {
    ProjectSummary { name: name.into(), org: org.into() }
}

#[test]
fn a_project_is_addressable_by_name_or_by_org() {
    let all = [p("demo", "majksa-projects"), p("sideline", "sideline-cz")];
    assert_eq!(match_project(&all, "demo").unwrap(), "majksa-projects");
    assert_eq!(match_project(&all, "majksa-projects").unwrap(), "majksa-projects");
    assert_eq!(match_project(&all, "SIDELINE").unwrap(), "sideline-cz");
}

#[test]
fn an_exact_org_beats_a_fuzzy_name() {
    let all = [p("shared", "demo"), p("demo", "demo-org")];
    assert_eq!(match_project(&all, "demo").unwrap(), "demo");
}

#[test]
fn an_unknown_project_lists_the_real_ones() {
    let all = [p("demo", "majksa-projects")];
    let err = match_project(&all, "nope").unwrap_err();
    assert!(err.contains("demo (majksa-projects)"), "{err}");
}

#[test]
fn class_falls_back_to_the_context_and_rejects_typos() {
    let ctx = Context::default();
    assert_eq!(class(&ctx, None).unwrap(), "stable");
    assert_eq!(class(&ctx, Some("production")).unwrap(), "production");
    assert!(class(&ctx, Some("prod")).is_err());
}
