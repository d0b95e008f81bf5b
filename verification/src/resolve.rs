//! Turning what was typed into what the API wants. A project has a name and a
//! GitHub org; the API is addressed by org, people think in names, so what is
//! typed is matched against both. Project, app and env class fall back to the
//! context's defaults.

use vstd::prelude::*;
use vstd::string::*;

use crate::config::{ov, or_default, Context, DEFAULT_CLASS};
use crate::text::{
    chars_join, chars_of, eq_ignore_ascii_case, join, str_eq, str_eq_ignore_ascii_case, string_of,
    views,
};

verus! {

broadcast use vstd::string::group_string_axioms;

/// The env classes a command may name.
pub open spec fn known_class(c: Seq<char>) -> bool {
    c == "production"@ || c == "stable"@ || c == "testing"@ || c == "ephemeral"@
}

/// Whether `c` names an env class.
pub fn is_known_class(c: &str) -> (b: bool)
    ensures
        b == known_class(c@),
{
    str_eq(c, "production") || str_eq(c, "stable") || str_eq(c, "testing") || str_eq(c, "ephemeral")
}

/// A registered project: its name and its org.
#[derive(Debug, Clone)]
pub struct ProjectSummary {
    pub name: String,
    pub org: String,
}

/// The org of the first project whose org is `w`.
pub open spec fn first_by_org(ps: Seq<ProjectSummary>, w: Seq<char>) -> Option<Seq<char>>
    decreases ps.len(),
{
    if ps.len() == 0 {
        None
    } else if ps[0].org@ == w {
        Some(ps[0].org@)
    } else {
        first_by_org(ps.drop_first(), w)
    }
}

/// The org of the first project whose name is `w`.
pub open spec fn first_by_name(ps: Seq<ProjectSummary>, w: Seq<char>) -> Option<Seq<char>>
    decreases ps.len(),
{
    if ps.len() == 0 {
        None
    } else if ps[0].name@ == w {
        Some(ps[0].org@)
    } else {
        first_by_name(ps.drop_first(), w)
    }
}

/// Name or org equal to `w`, ignoring ASCII case.
pub open spec fn fuzzy_match(p: ProjectSummary, w: Seq<char>) -> bool {
    eq_ignore_ascii_case(p.name@, w) || eq_ignore_ascii_case(p.org@, w)
}

/// How the registry lists a project: its name, with the org in brackets when
/// it differs.
pub open spec fn label(p: ProjectSummary) -> Seq<char> {
    if p.name@ == p.org@ {
        p.name@
    } else {
        p.name@ + " ("@ + p.org@ + ")"@
    }
}

pub open spec fn list_spec(ps: Seq<ProjectSummary>) -> Seq<char> {
    if ps.len() == 0 {
        "(none — the registry is empty)"@
    } else {
        join(ps.map_values(|p: ProjectSummary| label(p)), ", "@)
    }
}

/// The org `w` addresses: an exact org first, then an exact name, then the
/// one project whose name or org matches ignoring case. None or several such
/// projects is an error that says which.
pub open spec fn match_project_spec(ps: Seq<ProjectSummary>, w: Seq<char>) -> Result<Seq<char>, Seq<char>> {
    match first_by_org(ps, w) {
        Some(o) => Ok(o),
        None => match first_by_name(ps, w) {
            Some(o) => Ok(o),
            None => {
                let fz = ps.filter(|p: ProjectSummary| fuzzy_match(p, w));
                if fz.len() == 1 {
                    Ok(fz[0].org@)
                } else if fz.len() == 0 {
                    Err("no project '"@ + w + "' in the registry\nKnown projects: "@ + list_spec(ps))
                } else {
                    Err("'"@ + w + "' matches more than one project ("@
                        + join(fz.map_values(|p: ProjectSummary| p.name@), ", "@) + ") — use the exact name"@)
                }
            },
        },
    }
}

fn find_by_org(ps: &[ProjectSummary], w: &str) -> (r: Option<String>)
    ensures
        ov(r) == first_by_org(ps@, w@),
{
    let mut i: usize = 0;
    assert(ps@.skip(0) =~= ps@);
    while i < ps.len()
        invariant
            i <= ps.len(),
            first_by_org(ps@, w@) == first_by_org(ps@.skip(i as int), w@),
        decreases ps.len() - i,
    {
        if str_eq(ps[i].org.as_str(), w) {
            return Some(ps[i].org.clone());
        }
        assert(ps@.skip(i as int).drop_first() =~= ps@.skip(i + 1));
        i = i + 1;
    }
    None
}

fn find_by_name(ps: &[ProjectSummary], w: &str) -> (r: Option<String>)
    ensures
        ov(r) == first_by_name(ps@, w@),
{
    let mut i: usize = 0;
    assert(ps@.skip(0) =~= ps@);
    while i < ps.len()
        invariant
            i <= ps.len(),
            first_by_name(ps@, w@) == first_by_name(ps@.skip(i as int), w@),
        decreases ps.len() - i,
    {
        if str_eq(ps[i].name.as_str(), w) {
            return Some(ps[i].org.clone());
        }
        assert(ps@.skip(i as int).drop_first() =~= ps@.skip(i + 1));
        i = i + 1;
    }
    None
}

/// The registry as one line, for error messages.
pub fn list(projects: &[ProjectSummary]) -> (r: String)
    ensures
        r@ == list_spec(projects@),
{
    if projects.len() == 0 {
        return "(none — the registry is empty)".to_string();
    }
    let ghost labels = projects@.map_values(|p: ProjectSummary| label(p));
    let mut parts: Vec<Vec<char>> = Vec::new();
    let mut i: usize = 0;
    while i < projects.len()
        invariant
            i <= projects.len(),
            labels == projects@.map_values(|p: ProjectSummary| label(p)),
            views(parts@) == labels.take(i as int),
        decreases projects.len() - i,
    {
        let p = &projects[i];
        let l = if str_eq(p.name.as_str(), p.org.as_str()) {
            chars_of(p.name.as_str())
        } else {
            let mut l = chars_of(p.name.as_str());
            crate::text::push_str_chars(&mut l, " (");
            crate::text::push_str_chars(&mut l, p.org.as_str());
            crate::text::push_str_chars(&mut l, ")");
            l
        };
        assert(l@ == label(projects@[i as int]));
        let ghost before = views(parts@);
        parts.push(l);
        assert(views(parts@) =~= before.push(labels[i as int]));
        assert(labels.take(i + 1) =~= labels.take(i as int).push(labels[i as int]));
        i = i + 1;
    }
    assert(labels.take(projects.len() as int) =~= labels);
    string_of(&chars_join(&parts, &chars_of(", ")))
}

/// Resolve `wanted` against the registry to the org the API is addressed by.
pub fn match_project(projects: &[ProjectSummary], wanted: &str) -> (r: Result<String, String>)
    ensures
        match (r, match_project_spec(projects@, wanted@)) {
            (Ok(o), Ok(s)) => o@ == s,
            (Err(m), Err(s)) => m@ == s,
            _ => false,
        },
{
    if let Some(o) = find_by_org(projects, wanted) {
        return Ok(o);
    }
    if let Some(o) = find_by_name(projects, wanted) {
        return Ok(o);
    }
    let ghost pred = |p: ProjectSummary| fuzzy_match(p, wanted@);
    let mut names: Vec<Vec<char>> = Vec::new();
    let mut orgs: Vec<Vec<char>> = Vec::new();
    let mut i: usize = 0;
    proof {
        reveal(Seq::filter);
        assert(projects@.take(0) =~= Seq::<ProjectSummary>::empty());
    }
    while i < projects.len()
        invariant
            i <= projects.len(),
            pred == (|p: ProjectSummary| fuzzy_match(p, wanted@)),
            views(names@) == projects@.take(i as int).filter(pred).map_values(|p: ProjectSummary| p.name@),
            views(orgs@) == projects@.take(i as int).filter(pred).map_values(|p: ProjectSummary| p.org@),
        decreases projects.len() - i,
    {
        let p = &projects[i];
        let hit = str_eq_ignore_ascii_case(p.name.as_str(), wanted) || str_eq_ignore_ascii_case(p.org.as_str(), wanted);
        let ghost before = projects@.take(i as int).filter(pred);
        proof {
            projects@.take(i as int).lemma_filter_push(*p, pred);
            assert(projects@.take(i as int).push(*p) =~= projects@.take(i + 1));
        }
        if hit {
            let ghost bn = views(names@);
            let ghost bo = views(orgs@);
            names.push(chars_of(p.name.as_str()));
            orgs.push(chars_of(p.org.as_str()));
            assert(views(names@) =~= bn.push(p.name@));
            assert(views(orgs@) =~= bo.push(p.org@));
            assert(before.push(*p).map_values(|p: ProjectSummary| p.name@) =~= before.map_values(|p: ProjectSummary| p.name@).push(p.name@));
            assert(before.push(*p).map_values(|p: ProjectSummary| p.org@) =~= before.map_values(|p: ProjectSummary| p.org@).push(p.org@));
        }
        i = i + 1;
    }
    assert(projects@.take(projects.len() as int) =~= projects@);
    let ghost fz = projects@.filter(pred);
    assert(views(orgs@).len() == fz.len());
    if orgs.len() == 1 {
        assert(views(orgs@)[0] == fz[0].org@);
        return Ok(string_of(&orgs[0]));
    }
    if orgs.len() == 0 {
        let mut m = "no project '".to_string();
        m.append(wanted);
        m.append("' in the registry\nKnown projects: ");
        m.append(list(projects).as_str());
        return Err(m);
    }
    let mut m = "'".to_string();
    m.append(wanted);
    m.append("' matches more than one project (");
    m.append(string_of(&chars_join(&names, &chars_of(", "))).as_str());
    m.append(") — use the exact name");
    Err(m)
}

/// The value given on the command line, or else the context's.
pub open spec fn given_or(given: Option<Seq<char>>, dflt: Option<Seq<char>>) -> Option<Seq<char>> {
    match given {
        Some(g) => Some(g),
        None => dflt,
    }
}

fn pick(given: Option<&str>, dflt: &Option<String>) -> (r: Option<String>)
    ensures
        ov(r) == given_or(crate::config::opt_str(given), ov(*dflt)),
{
    match given {
        Some(g) => Some(g.to_string()),
        None => crate::config::clone_opt(dflt),
    }
}

pub open spec fn no_project_message() -> Seq<char> {
    "no project given and none set for this context\n\
     Pass it (`majnet apps <project>`), or set a default: `majnet context set --project <name>`"@
}

pub open spec fn no_app_message() -> Seq<char> {
    "no app given and none set for this context\n\
     Pass it, or set a default: `majnet context set --app <name>`"@
}

/// The project to look up: the argument, or the context's default; an empty
/// or missing one is an error.
pub fn wanted_project(ctx: &Context, given: Option<&str>) -> (r: Result<String, String>)
    ensures
        match given_or(crate::config::opt_str(given), ctx@.project) {
            Some(v) if v.len() > 0 => r matches Ok(s) && s@ == v,
            _ => r matches Err(m) && m@ == no_project_message(),
        },
{
    match pick(given, &ctx.project) {
        Some(v) => {
            if v.as_str().unicode_len() > 0 {
                return Ok(v);
            }
        },
        None => {},
    }
    Err("no project given and none set for this context\n\
         Pass it (`majnet apps <project>`), or set a default: `majnet context set --project <name>`".to_string())
}

/// The app name, from the argument or the context default.
pub fn app(ctx: &Context, given: Option<&str>) -> (r: Result<String, String>)
    ensures
        match given_or(crate::config::opt_str(given), ctx@.app) {
            Some(v) if v.len() > 0 => r matches Ok(s) && s@ == v,
            _ => r matches Err(m) && m@ == no_app_message(),
        },
{
    match pick(given, &ctx.app) {
        Some(v) => {
            if v.as_str().unicode_len() > 0 {
                return Ok(v);
            }
        },
        None => {},
    }
    Err("no app given and none set for this context\n\
         Pass it, or set a default: `majnet context set --app <name>`".to_string())
}

/// The env class, from the flag or the context default (`stable`), checked
/// against the real classes before any request is made.
pub fn class(ctx: &Context, given: Option<&str>) -> (r: Result<String, String>)
    ensures
        ({
            let v = match given {
                Some(g) => g@,
                None => or_default(ctx@.class, DEFAULT_CLASS@),
            };
            if known_class(v) {
                r matches Ok(s) && s@ == v
            } else {
                r matches Err(m) && m@ == "unknown env class '"@ + v + "' — one of: production, stable, testing, ephemeral"@
            }
        }),
{
    let value = match given {
        Some(g) => g.to_string(),
        None => ctx.class_or_default(),
    };
    if !is_known_class(value.as_str()) {
        let mut m = "unknown env class '".to_string();
        m.append(value.as_str());
        m.append("' — one of: production, stable, testing, ephemeral");
        return Err(m);
    }
    Ok(value)
}

/// What to do before acting on a target.
#[derive(Debug, Clone, PartialEq, Eq)]
pub enum Confirm {
    /// Go ahead.
    Proceed,
    /// Stop with this message: there is nobody to ask.
    Refuse(String),
    /// Ask with this prompt; the answer must be the second string.
    Ask(String, String),
}

/// The last `/`-separated segment of `target`.
pub open spec fn last_segment(target: Seq<char>) -> Seq<char>
    decreases target.len(),
{
    if target.len() == 0 {
        target
    } else if target.last() == '/' {
        Seq::<char>::empty()
    } else {
        last_segment(target.drop_last()).push(target.last())
    }
}

fn last_segment_exec(target: &str) -> (r: String)
    ensures
        r@ == last_segment(target@),
{
    let t = chars_of(target);
    let mut j: usize = t.len();
    assert(t@.take(t.len() as int) =~= t@);
    assert(t@.skip(t.len() as int) =~= Seq::<char>::empty());
    assert(t@ + Seq::<char>::empty() =~= t@);
    while j > 0 && t[j - 1] != '/'
        invariant
            j <= t.len(),
            t@ == target@,
            last_segment(target@) == last_segment(t@.take(j as int)) + t@.skip(j as int),
        decreases j,
    {
        assert(t@.take(j as int).drop_last() =~= t@.take(j - 1));
        assert(t@.skip(j - 1) =~= seq![t@[j - 1]] + t@.skip(j as int));
        assert(last_segment(t@.take(j as int)) =~= last_segment(t@.take(j - 1)).push(t@[j - 1]));
        assert(last_segment(t@.take(j - 1)).push(t@[j - 1]) + t@.skip(j as int) =~= last_segment(t@.take(j - 1)) + t@.skip(j - 1));
        j = j - 1;
    }
    assert(last_segment(t@.take(j as int)) =~= Seq::<char>::empty()) by {
        if j > 0 {
            assert(t@.take(j as int).last() == '/');
        }
    }
    assert(t@.skip(j as int) =~= t@.subrange(j as int, t.len() as int));
    string_of(&crate::text::sub_chars(&t, j, t.len()))
}

/// Production is the one class the platform gates, so acting on it asks
/// first unless `yes` was given, and refuses when there is no terminal to ask
/// at. Every other class proceeds.
pub fn confirm(action: &str, target: &str, class: &str, yes: bool, interactive: bool) -> (r: Confirm)
    ensures
        (yes || class@ != "production"@) <==> r == Confirm::Proceed,
        r matches Confirm::Refuse(m) ==> !interactive && m@ == "refusing to "@ + action@ + " "@ + target@
            + " in production without confirmation\n\
               stdin is not a terminal, so there is nobody to ask — pass --yes if you mean it"@,
        r matches Confirm::Ask(prompt, expected) ==> interactive && prompt@ == action@ + " "@ + target@
            + " in PRODUCTION? type the app name to confirm: "@ && expected@ == last_segment(target@),
{
    if yes || !str_eq(class, "production") {
        return Confirm::Proceed;
    }
    if !interactive {
        let mut m = "refusing to ".to_string();
        m.append(action);
        m.append(" ");
        m.append(target);
        m.append(" in production without confirmation\n\
               stdin is not a terminal, so there is nobody to ask — pass --yes if you mean it");
        return Confirm::Refuse(m);
    }
    let mut p = action.to_string();
    p.append(" ");
    p.append(target);
    p.append(" in PRODUCTION? type the app name to confirm: ");
    Confirm::Ask(p, last_segment_exec(target))
}

/// The typed answer, trimmed, must be the expected name.
pub fn check_answer(expected: &str, answer: &str) -> (r: Result<(), String>)
    ensures
        r is Ok <==> crate::text::trim_ws(answer@) == expected@,
        r matches Err(m) ==> m@ == "cancelled (expected '"@ + expected@ + "')"@,
{
    let t = string_of(&crate::text::chars_trim(&chars_of(answer)));
    if str_eq(t.as_str(), expected) {
        Ok(())
    } else {
        let mut m = "cancelled (expected '".to_string();
        m.append(expected);
        m.append("')");
        Err(m)
    }
}

proof fn lemma_first_by_org(ps: Seq<ProjectSummary>, w: Seq<char>)
    ensures
        (exists|i: int| 0 <= i < ps.len() && #[trigger] ps[i].org@ == w) ==> first_by_org(ps, w) == Some(w),
        first_by_org(ps, w) is Some ==> first_by_org(ps, w) == Some(w),
    decreases ps.len(),
{
    if ps.len() > 0 {
        lemma_first_by_org(ps.drop_first(), w);
        if ps[0].org@ != w {
            if exists|i: int| 0 <= i < ps.len() && #[trigger] ps[i].org@ == w {
                let i = choose|i: int| 0 <= i < ps.len() && #[trigger] ps[i].org@ == w;
                assert(ps.drop_first()[i - 1].org@ == w);
            }
        }
    }
}

proof fn lemma_first_by_name(ps: Seq<ProjectSummary>, w: Seq<char>)
    ensures
        first_by_name(ps, w) matches Some(o) ==> exists|j: int| 0 <= j < ps.len() && #[trigger] ps[j].name@ == w
            && ps[j].org@ == o,
    decreases ps.len(),
{
    if ps.len() > 0 && ps[0].name@ != w {
        lemma_first_by_name(ps.drop_first(), w);
        if first_by_name(ps, w) is Some {
            let o = first_by_name(ps, w)->0;
            let j = choose|j: int| 0 <= j < ps.drop_first().len() && #[trigger] ps.drop_first()[j].name@ == w
                && ps.drop_first()[j].org@ == o;
            assert(ps[j + 1].name@ == w && ps[j + 1].org@ == o);
        }
    } else if ps.len() > 0 {
        assert(ps[0].name@ == w);
    }
}

/// An exact org always wins: typing a project's org addresses that project,
/// even when another project's name matches it, exactly or ignoring case.
pub proof fn law_an_exact_org_wins(ps: Seq<ProjectSummary>, w: Seq<char>)
    requires
        exists|i: int| 0 <= i < ps.len() && #[trigger] ps[i].org@ == w,
    ensures
        match_project_spec(ps, w) == Ok::<Seq<char>, Seq<char>>(w),
{
    lemma_first_by_org(ps, w);
}

/// Matching never invents a project: what it resolves to is the org of a
/// registered project whose org or name is what was typed, exactly or
/// ignoring ASCII case.
pub proof fn law_a_match_is_a_registered_project(ps: Seq<ProjectSummary>, w: Seq<char>)
    ensures
        match_project_spec(ps, w) matches Ok(o) ==> exists|j: int| 0 <= j < ps.len() && #[trigger] ps[j].org@ == o
            && (ps[j].org@ == w || ps[j].name@ == w || fuzzy_match(ps[j], w)),
{
    lemma_first_by_org(ps, w);
    lemma_first_by_name(ps, w);
    if first_by_org(ps, w) is Some {
        lemma_first_by_org_some(ps, w);
    } else if first_by_name(ps, w) is None {
        let pred = |p: ProjectSummary| fuzzy_match(p, w);
        let fz = ps.filter(pred);
        if fz.len() == 1 {
            ps.lemma_filter_pred(pred, 0);
            assert(fz.contains(fz[0]));
            ps.lemma_filter_contains_rev(pred, fz[0]);
            let j = choose|j: int| 0 <= j < ps.len() && ps[j] == fz[0];
            assert(ps[j].org@ == fz[0].org@);
        }
    }
}

/// Case is forgiven when it leaves no doubt: where no project's org or name
/// is exactly what was typed, and exactly one project has a name or an org
/// equal to it ignoring ASCII case, that project's org is the answer, whether
/// it was its name or its org that matched.
pub proof fn law_a_unique_case_insensitive_match_resolves(ps: Seq<ProjectSummary>, w: Seq<char>, j: int)
    requires
        0 <= j < ps.len(),
        forall|i: int| 0 <= i < ps.len() ==> #[trigger] ps[i].org@ != w && ps[i].name@ != w,
        eq_ignore_ascii_case(ps[j].name@, w) || eq_ignore_ascii_case(ps[j].org@, w),
        forall|i: int|
            0 <= i < ps.len() && i != j ==> !eq_ignore_ascii_case(#[trigger] ps[i].name@, w)
                && !eq_ignore_ascii_case(ps[i].org@, w),
    ensures
        match_project_spec(ps, w) == Ok::<Seq<char>, Seq<char>>(ps[j].org@),
{
    if first_by_org(ps, w) is Some {
        lemma_first_by_org_some(ps, w);
    }
    lemma_first_by_name(ps, w);
    let pred = |p: ProjectSummary| fuzzy_match(p, w);
    lemma_filter_single(ps, pred, j);
}

/// Filtering keeps exactly one item where exactly one passes.
proof fn lemma_filter_single(s: Seq<ProjectSummary>, pred: spec_fn(ProjectSummary) -> bool, j: int)
    requires
        0 <= j < s.len(),
        pred(s[j]),
        forall|i: int| 0 <= i < s.len() && i != j ==> !pred(#[trigger] s[i]),
    ensures
        s.filter(pred) == seq![s[j]],
    decreases s.len(),
{
    reveal(Seq::filter);
    let d = s.drop_last();
    if j == s.len() - 1 {
        if d.filter(pred).len() > 0 {
            d.lemma_filter_pred(pred, 0);
            assert(d.filter(pred).contains(d.filter(pred)[0]));
            d.lemma_filter_contains_rev(pred, d.filter(pred)[0]);
            let i = choose|i: int| 0 <= i < d.len() && d[i] == d.filter(pred)[0];
            assert(s[i] == d[i]);
        }
        assert(d.filter(pred).push(s.last()) =~= seq![s[j]]);
    } else {
        assert(forall|i: int| 0 <= i < d.len() ==> d[i] == s[i]);
        lemma_filter_single(d, pred, j);
        assert(!pred(s[s.len() - 1]));
    }
}

proof fn lemma_first_by_org_some(ps: Seq<ProjectSummary>, w: Seq<char>)
    requires
        first_by_org(ps, w) is Some,
    ensures
        exists|i: int| 0 <= i < ps.len() && #[trigger] ps[i].org@ == w,
    decreases ps.len(),
{
    if ps[0].org@ == w {
        assert(ps[0].org@ == w);
    } else {
        lemma_first_by_org_some(ps.drop_first(), w);
        let i = choose|i: int| 0 <= i < ps.drop_first().len() && #[trigger] ps.drop_first()[i].org@ == w;
        assert(ps[i + 1].org@ == w);
    }
}

} // verus!
