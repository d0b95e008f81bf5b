//! The read side: which events to show and how, where a log tail picks up,
//! and how a secret is shown without its value.

use vstd::prelude::*;
use vstd::string::*;

use crate::client::Api;
use crate::output::{elide, elide_spec, upper, Table};
use crate::text::{
    chars_contains, chars_of, chars_to_ascii_lower, contains_seq, decimal, decimal_chars,
    eq_ignore_ascii_case, str_eq, str_eq_ignore_ascii_case, string_of, to_ascii_lower,
};

verus! {

broadcast use vstd::string::group_string_axioms;

/// A project + app + class, the shape most commands need.
#[derive(Debug, Clone)]
pub struct TargetArgs {
    /// Project name or GitHub org (default: the context's).
    pub project: Option<String>,
    /// App name (default: the context's).
    pub app: Option<String>,
    /// Environment class.
    pub class: Option<String>,
}

/// What `majnet events` was asked.
#[derive(Debug, Clone)]
pub struct EventArgs {
    /// Show at most this many.
    pub limit: usize,
    /// Only this project (matched on the event's project field).
    pub project: Option<String>,
    /// Only entries that look like failures.
    pub failed: bool,
    /// Keep printing new entries as they arrive.
    pub follow: bool,
    /// Read the bot's log instead of the reconciler's.
    pub bot: bool,
}

/// What `majnet logs` was asked.
#[derive(Debug, Clone)]
pub struct LogArgs {
    pub target: TargetArgs,
    /// Lines to fetch.
    pub tail: usize,
    /// Keep printing as new lines arrive.
    pub follow: bool,
}

/// What `majnet secrets` was asked.
#[derive(Debug, Clone)]
pub struct SecretArgs {
    pub target: TargetArgs,
    /// Print the decrypted values, not just the names.
    pub reveal: bool,
}

/// One event as the audit feed shows it, each field as text.
#[derive(Debug, Clone)]
pub struct EventRow {
    pub at: String,
    pub project: String,
    pub action: String,
    pub commit: String,
    pub result: String,
}

/// How the reconciler words a failure in an event's result.
pub open spec fn failed_spec(e: EventRow) -> bool {
    let r = to_ascii_lower(e.result@);
    contains_seq(r, "failed"@) || contains_seq(r, "error"@) || contains_seq(r, "unhealthy"@)
}

pub fn failed(e: &EventRow) -> (b: bool)
    ensures
        b == failed_spec(*e),
{
    let r = chars_to_ascii_lower(&chars_of(e.result.as_str()));
    chars_contains(&r, &chars_of("failed")) || chars_contains(&r, &chars_of("error"))
        || chars_contains(&r, &chars_of("unhealthy"))
}

/// An event passes the filters: its project (ignoring ASCII case) and,
/// when asked, looking like a failure.
pub open spec fn wanted(e: EventRow, project: Option<Seq<char>>, only_failed: bool) -> bool {
    (match project {
        Some(p) => eq_ignore_ascii_case(e.project@, p),
        None => true,
    }) && (!only_failed || failed_spec(e))
}

/// The events to show: those that pass the filters, in order, at most
/// `limit` of them.
pub open spec fn select_spec(events: Seq<EventRow>, project: Option<Seq<char>>, only_failed: bool, limit: nat) -> Seq<EventRow> {
    let kept = events.filter(|e: EventRow| wanted(e, project, only_failed));
    if kept.len() > limit {
        kept.take(limit as int)
    } else {
        kept
    }
}

pub fn select_events(events: &[EventRow], args: &EventArgs) -> (r: Vec<EventRow>)
    ensures
        r@.map_values(|e: EventRow| (e.at@, e.project@, e.action@, e.commit@, e.result@)) == select_spec(
            events@,
            crate::config::ov(args.project),
            args.failed,
            args.limit as nat,
        ).map_values(|e: EventRow| (e.at@, e.project@, e.action@, e.commit@, e.result@)),
{
    let ghost project = crate::config::ov(args.project);
    let ghost pred = |e: EventRow| wanted(e, project, args.failed);
    let ghost f = |e: EventRow| (e.at@, e.project@, e.action@, e.commit@, e.result@);
    let mut out: Vec<EventRow> = Vec::new();
    let mut i: usize = 0;
    proof {
        reveal(Seq::filter);
        assert(events@.take(0) =~= Seq::<EventRow>::empty());
    }
    while i < events.len() && out.len() < args.limit
        invariant
            i <= events.len(),
            project == crate::config::ov(args.project),
            pred == (|e: EventRow| wanted(e, project, args.failed)),
            f == (|e: EventRow| (e.at@, e.project@, e.action@, e.commit@, e.result@)),
            out.len() <= args.limit,
            out@.map_values(f) == events@.take(i as int).filter(pred).map_values(f),
        decreases events.len() - i,
    {
        let e = &events[i];
        let proj_ok = match &args.project {
            Some(p) => str_eq_ignore_ascii_case(e.project.as_str(), p.as_str()),
            None => true,
        };
        let keep = proj_ok && (!args.failed || failed(e));
        assert(keep == pred(*e));
        let ghost before = out@.map_values(f);
        proof {
            events@.take(i as int).lemma_filter_push(*e, pred);
            assert(events@.take(i as int).push(*e) =~= events@.take(i + 1));
        }
        if keep {
            let copy = EventRow {
                at: e.at.clone(),
                project: e.project.clone(),
                action: e.action.clone(),
                commit: e.commit.clone(),
                result: e.result.clone(),
            };
            out.push(copy);
            assert(out@.map_values(f) =~= before.push(f(*e)));
            assert(events@.take(i as int).filter(pred).push(*e).map_values(f) =~= events@.take(i as int).filter(pred).map_values(f).push(f(*e)));
        }
        i = i + 1;
    }
    proof {
        let kept = events@.filter(pred);
        if i == events.len() {
            assert(events@.take(i as int) =~= events@);
        } else {
            // The cap was reached: the first `limit` kept events are exactly
            // those kept from the prefix read so far.
            lemma_filter_prefix(events@, pred, i as int);
        }
        if kept.len() > args.limit {
            lemma_filter_prefix_take(events@, pred, i as int, args.limit as int);
        }
    }
    out
}

proof fn lemma_filter_prefix(s: Seq<EventRow>, pred: spec_fn(EventRow) -> bool, i: int)
    requires
        0 <= i <= s.len(),
    ensures
        s.take(i).filter(pred).len() <= s.filter(pred).len(),
        forall|k: int| 0 <= k < s.take(i).filter(pred).len() ==> #[trigger] s.filter(pred)[k] == s.take(i).filter(pred)[k],
    decreases s.len() - i,
{
    if i < s.len() {
        lemma_filter_prefix(s, pred, i + 1);
        s.take(i).lemma_filter_push(s[i], pred);
        assert(s.take(i).push(s[i]) =~= s.take(i + 1));
    } else {
        assert(s.take(i) =~= s);
    }
}

proof fn lemma_filter_prefix_take(s: Seq<EventRow>, pred: spec_fn(EventRow) -> bool, i: int, limit: int)
    requires
        0 <= i <= s.len(),
        0 <= limit,
        s.take(i).filter(pred).len() == limit || i == s.len(),
    ensures
        i < s.len() ==> s.filter(pred).take(limit) == s.take(i).filter(pred),
{
    lemma_filter_prefix(s, pred, i);
    if i < s.len() {
        assert(s.filter(pred).take(limit) =~= s.take(i).filter(pred));
    }
}

/// The filters come before the limit: what is shown is the earliest events
/// that pass the filters, at most `limit` of them, each of them one of the
/// feed's events and passing the filters; and when fewer than `limit` are
/// shown, no event that passes the filters is left out, wherever in the feed
/// it stands.
pub proof fn law_filters_come_before_the_limit(
    events: Seq<EventRow>,
    project: Option<Seq<char>>,
    only_failed: bool,
    limit: nat,
)
    ensures
        select_spec(events, project, only_failed, limit).len() <= limit,
        forall|k: int| 0 <= k < select_spec(events, project, only_failed, limit).len() ==> wanted(
            #[trigger] select_spec(events, project, only_failed, limit)[k],
            project,
            only_failed,
        ) && events.contains(select_spec(events, project, only_failed, limit)[k]),
        select_spec(events, project, only_failed, limit).len() < limit ==> forall|i: int|
            0 <= i < events.len() && wanted(#[trigger] events[i], project, only_failed) ==> select_spec(
                events,
                project,
                only_failed,
                limit,
            ).contains(events[i]),
        select_spec(events, project, only_failed, limit) == events.filter(
            |e: EventRow| wanted(e, project, only_failed),
        ).take(select_spec(events, project, only_failed, limit).len() as int),
        select_spec(events, project, only_failed, limit).len() == if events.filter(
            |e: EventRow| wanted(e, project, only_failed),
        ).len() < limit {
            events.filter(|e: EventRow| wanted(e, project, only_failed)).len()
        } else {
            limit
        },
{
    let pred = |e: EventRow| wanted(e, project, only_failed);
    let kept = events.filter(pred);
    let r = select_spec(events, project, only_failed, limit);
    assert(r =~= kept.take(r.len() as int));
    assert forall|k: int| 0 <= k < r.len() implies wanted(#[trigger] r[k], project, only_failed) && events.contains(
        r[k],
    ) by {
        assert(r[k] == kept[k]);
        events.lemma_filter_pred(pred, k);
        assert(kept.contains(kept[k]));
        events.lemma_filter_contains_rev(pred, kept[k]);
    }
    if r.len() < limit {
        assert(r == kept);
        assert forall|i: int| 0 <= i < events.len() && wanted(#[trigger] events[i], project, only_failed) implies r.contains(
            events[i],
        ) by {
            events.lemma_filter_contains(pred, i);
        }
    }
}

/// The feed of events: the bot's (it keeps its own count) or the
/// reconciler's, asking for at least 200 so the filters have something to
/// work with.
pub fn events_source(args: &EventArgs) -> (r: (Api, String))
    ensures
        args.bot ==> r.0 == Api::Bot && r.1@ == "/api/events"@,
        !args.bot ==> r.0 == Api::Recon && r.1@ == "/api/events?limit="@ + decimal(
            if args.limit > 200 { args.limit as nat } else { 200 },
        ),
{
    if args.bot {
        return (Api::Bot, "/api/events".to_string());
    }
    let n: usize = if args.limit > 200 { args.limit } else { 200 };
    let mut p = "/api/events?limit=".to_string();
    p.append(string_of(&decimal_chars(n as u64)).as_str());
    (Api::Recon, p)
}

/// The table of events: the time and the commit shortened, the rest as is.
pub fn event_table(events: &[EventRow]) -> (t: Table)
    ensures
        t.headers_view() == seq!["at"@, "project"@, "action"@, "commit"@, "result"@].map_values(|h: Seq<char>| upper(h)),
        t.empty@ == "no matching events"@,
        t.rows_view() == events@.map_values(|e: EventRow| seq![
            elide_spec(e.at@, 19),
            e.project@,
            e.action@,
            elide_spec(e.commit@, 8),
            e.result@,
        ]),
{
    let headers: [&str; 5] = ["at", "project", "action", "commit", "result"];
    let mut t = Table::new(&headers).empty_note("no matching events");
    assert(t.headers_view() =~= seq!["at"@, "project"@, "action"@, "commit"@, "result"@].map_values(|h: Seq<char>| upper(h)));
    let ghost rows = events@.map_values(|e: EventRow| seq![
        elide_spec(e.at@, 19),
        e.project@,
        e.action@,
        elide_spec(e.commit@, 8),
        e.result@,
    ]);
    let mut i: usize = 0;
    assert(t.rows_view() =~= rows.take(0));
    while i < events.len()
        invariant
            i <= events.len(),
            t.headers_view() == seq!["at"@, "project"@, "action"@, "commit"@, "result"@].map_values(|h: Seq<char>| upper(h)),
            t.empty@ == "no matching events"@,
            rows == events@.map_values(|e: EventRow| seq![
                elide_spec(e.at@, 19),
                e.project@,
                e.action@,
                elide_spec(e.commit@, 8),
                e.result@,
            ]),
            t.rows_view() == rows.take(i as int),
        decreases events.len() - i,
    {
        let e = &events[i];
        let row: Vec<String> = vec![
            elide(e.at.as_str(), 19),
            e.project.clone(),
            e.action.clone(),
            elide(e.commit.as_str(), 8),
            e.result.clone(),
        ];
        assert(row@.map_values(|c: String| c@) =~= rows[i as int]);
        t.push(row);
        assert(rows.take(i + 1) =~= rows.take(i as int).push(rows[i as int]));
        i = i + 1;
    }
    assert(rows.take(events.len() as int) =~= rows);
    t
}

/// The line under the events table: how many were shown and how many look
/// like failures.
pub open spec fn events_summary_spec(count: nat, failures: nat) -> Seq<char> {
    "\n"@ + decimal(count) + " shown · "@ + decimal(failures) + " look"@ + (if failures == 1 {
        "s"@
    } else {
        ""@
    }) + " like a failure"@
}

pub fn events_summary(count: usize, failures: usize) -> (r: String)
    ensures
        r@ == events_summary_spec(count as nat, failures as nat),
{
    let mut r = "\n".to_string();
    r.append(string_of(&decimal_chars(count as u64)).as_str());
    r.append(" shown · ");
    r.append(string_of(&decimal_chars(failures as u64)).as_str());
    r.append(" look");
    r.append(if failures == 1 { "s" } else { "" });
    r.append(" like a failure");
    r
}

/// The position of the last line equal to `anchor`.
pub open spec fn last_index_of(lines: Seq<Seq<char>>, anchor: Seq<char>) -> Option<int>
    decreases lines.len(),
{
    if lines.len() == 0 {
        None
    } else if lines.last() == anchor {
        Some(lines.len() - 1)
    } else {
        last_index_of(lines.drop_last(), anchor)
    }
}

/// Where a followed log tail resumes: after the last line already shown, or
/// from the top (and say so) when that line has scrolled out of the window.
pub open spec fn resume_at(lines: Seq<Seq<char>>, anchor: Option<Seq<char>>) -> (nat, bool) {
    match anchor {
        None => (0, false),
        Some(a) => match last_index_of(lines, a) {
            Some(i) => ((i + 1) as nat, false),
            None => (0, true),
        },
    }
}

pub fn log_resume(lines: &Vec<String>, anchor: &Option<String>) -> (r: (usize, bool))
    ensures
        (r.0 as nat, r.1) == resume_at(crate::run::strs(lines@), crate::config::ov(*anchor)),
{
    match anchor {
        None => (0, false),
        Some(a) => {
            let ghost ls = crate::run::strs(lines@);
            let mut j: usize = lines.len();
            assert(ls.take(lines.len() as int) =~= ls);
            while j > 0 && !str_eq(lines[j - 1].as_str(), a.as_str())
                invariant
                    j <= lines.len(),
                    ls == crate::run::strs(lines@),
                    last_index_of(ls, a@) == last_index_of(ls.take(j as int), a@),
                decreases j,
            {
                assert(ls.take(j as int).drop_last() =~= ls.take(j - 1));
                j = j - 1;
            }
            if j == 0 {
                (0, true)
            } else {
                assert(ls.take(j as int).last() == a@);
                (j, false)
            }
        },
    }
}

/// How a secret is listed without `--reveal`: its length in bytes, and how
/// to see it.
pub open spec fn masked_spec(value: Seq<char>) -> Seq<char> {
    "<"@ + decimal(vstd::utf8::encode_utf8(value).len()) + " chars — --reveal to show>"@
}

pub fn masked(value: &str) -> (r: String)
    ensures
        r@ == masked_spec(value@),
{
    let mut r = "<".to_string();
    r.append(string_of(&decimal_chars(value.as_bytes().len() as u64)).as_str());
    r.append(" chars — --reveal to show>");
    r
}

// ── following the event log ──────────────────────────────────────────────────

/// How many event keys a follower remembers beyond the newest one.
pub const FOLLOW_WINDOW: usize = 500;

/// `seen` after remembering `key`: the oldest key is forgotten once more than
/// `FOLLOW_WINDOW` are held.
pub open spec fn remember(seen: Seq<Seq<char>>, key: Seq<char>) -> Seq<Seq<char>> {
    (if seen.len() > FOLLOW_WINDOW { seen.drop_first() } else { seen }).push(key)
}

/// What a follower makes of keys met in order: what it then remembers, and
/// which of them (by position) are new to it.
pub open spec fn follow_fold(seen: Seq<Seq<char>>, keys: Seq<Seq<char>>) -> (Seq<Seq<char>>, Seq<int>)
    decreases keys.len(),
{
    if keys.len() == 0 {
        (seen, Seq::empty())
    } else {
        let (s, fresh) = follow_fold(seen, keys.drop_last());
        let k = keys.last();
        if s.contains(k) {
            (s, fresh)
        } else {
            (remember(s, k), fresh.push(keys.len() - 1))
        }
    }
}

/// A follower of the event log: the keys of the events it has shown, oldest
/// first, and whether it has printed anything yet.
#[derive(Debug, Clone)]
pub struct Follower {
    pub seen: Vec<String>,
    pub started: bool,
}

/// What to print for one poll.
#[derive(Debug, Clone, PartialEq, Eq)]
pub enum FollowOutput {
    /// The first poll: the new events as a table, newest first (positions
    /// into the keys given).
    Backlog(Vec<usize>),
    /// A later poll: one line per new event, oldest first.
    Lines(Vec<usize>),
}

fn seen_contains(seen: &Vec<String>, key: &String) -> (b: bool)
    ensures
        b == crate::run::strs(seen@).contains(key@),
{
    let ghost v = crate::run::strs(seen@);
    let mut k: usize = 0;
    while k < seen.len()
        invariant
            k <= seen.len(),
            v == crate::run::strs(seen@),
            forall|j: int| 0 <= j < k ==> v[j] != key@,
        decreases seen.len() - k,
    {
        if str_eq(seen[k].as_str(), key.as_str()) {
            assert(v[k as int] == key@);
            return true;
        }
        k = k + 1;
    }
    proof {
        if v.contains(key@) {
            let j = choose|j: int| 0 <= j < v.len() && v[j] == key@;
            assert(v[j] != key@);
        }
    }
    false
}

impl Follower {
    pub fn new() -> (f: Follower)
        ensures
            f.seen@.len() == 0,
            !f.started,
    {
        Follower { seen: Vec::new(), started: false }
    }

    /// One poll of the log. `keys` identify the selected events, oldest
    /// first (each the event's whole text, so two events written within one
    /// second stay apart). An event already remembered is not shown again;
    /// the first poll prints its new events as a backlog, later ones as lines.
    pub fn step(&mut self, keys: &[String]) -> (out: FollowOutput)
        ensures
            crate::run::strs(final(self).seen@) == follow_fold(crate::run::strs(old(self).seen@), crate::run::strs(keys@)).0,
            final(self).started,
            ({
                let fresh = follow_fold(crate::run::strs(old(self).seen@), crate::run::strs(keys@)).1;
                if old(self).started {
                    out matches FollowOutput::Lines(v) && v@.map_values(|i: usize| i as int) == fresh
                } else {
                    out matches FollowOutput::Backlog(v) && v@.map_values(|i: usize| i as int) == fresh.reverse()
                }
            }),
    {
        let ghost ks = crate::run::strs(keys@);
        let ghost s0 = crate::run::strs(self.seen@);
        let mut fresh: Vec<usize> = Vec::new();
        let mut i: usize = 0;
        assert(ks.take(0) =~= Seq::<Seq<char>>::empty());
        while i < keys.len()
            invariant
                i <= keys.len(),
                ks == crate::run::strs(keys@),
                self.started == old(self).started,
                s0 == crate::run::strs(old(self).seen@),
                (crate::run::strs(self.seen@), fresh@.map_values(|x: usize| x as int)) == follow_fold(s0, ks.take(i as int)),
            decreases keys.len() - i,
        {
            let ghost t = ks.take(i + 1);
            assert(t.drop_last() =~= ks.take(i as int));
            assert(t.last() == keys@[i as int]@);
            let ghost before_seen = crate::run::strs(self.seen@);
            let ghost before_fresh = fresh@.map_values(|x: usize| x as int);
            if !seen_contains(&self.seen, &keys[i]) {
                if self.seen.len() > FOLLOW_WINDOW {
                    let _gone = self.seen.remove(0);
                    assert(crate::run::strs(self.seen@) =~= before_seen.drop_first());
                }
                let ghost mid = crate::run::strs(self.seen@);
                self.seen.push(keys[i].clone());
                assert(crate::run::strs(self.seen@) =~= mid.push(keys@[i as int]@));
                fresh.push(i);
                assert(fresh@.map_values(|x: usize| x as int) =~= before_fresh.push(i as int));
            }
            i = i + 1;
        }
        assert(ks.take(keys.len() as int) =~= ks);
        if self.started {
            FollowOutput::Lines(fresh)
        } else {
            self.started = true;
            let mut backlog: Vec<usize> = Vec::new();
            let mut j: usize = fresh.len();
            let ghost fv = fresh@.map_values(|x: usize| x as int);
            while j > 0
                invariant
                    j <= fresh.len(),
                    fv == fresh@.map_values(|x: usize| x as int),
                    backlog@.map_values(|x: usize| x as int) == fv.reverse().take(fresh.len() - j),
                decreases j,
            {
                j = j - 1;
                let ghost before = backlog@.map_values(|x: usize| x as int);
                backlog.push(fresh[j]);
                assert(backlog@.map_values(|x: usize| x as int) =~= before.push(fv[j as int]));
                assert(fv.reverse().take(fresh.len() - j) =~= fv.reverse().take(fresh.len() - j - 1).push(fv[j as int]));
            }
            assert(fv.reverse().take(fresh.len() as int) =~= fv.reverse());
            FollowOutput::Backlog(backlog)
        }
    }
}

/// A follower remembers at most one more key than `FOLLOW_WINDOW`, and what
/// it shows of one poll comes in the order met.
pub proof fn law_a_followers_memory_is_bounded(seen: Seq<Seq<char>>, keys: Seq<Seq<char>>)
    requires
        seen.len() <= FOLLOW_WINDOW + 1,
    ensures
        follow_fold(seen, keys).0.len() <= FOLLOW_WINDOW + 1,
        forall|i: int| 0 <= i < follow_fold(seen, keys).1.len() ==> 0 <= #[trigger] follow_fold(seen, keys).1[i] < keys.len(),
        forall|i: int, j: int| 0 <= i < j < follow_fold(seen, keys).1.len() ==> #[trigger] follow_fold(seen, keys).1[i] < #[trigger] follow_fold(seen, keys).1[j],
    decreases keys.len(),
{
    if keys.len() > 0 {
        law_a_followers_memory_is_bounded(seen, keys.drop_last());
    }
}

/// While nothing has to be forgotten, a follower shows exactly the events it
/// has not seen, each at its first occurrence: an event already shown is
/// never shown again.
pub proof fn law_a_follower_shows_each_event_once(seen: Seq<Seq<char>>, keys: Seq<Seq<char>>)
    requires
        seen.len() + keys.len() <= FOLLOW_WINDOW + 1,
    ensures
        forall|p: int| 0 <= p < keys.len() ==> (#[trigger] follow_fold(seen, keys).1.contains(p) <==> (!seen.contains(keys[p])
            && !keys.take(p).contains(keys[p]))),
        forall|k: Seq<char>| #[trigger] follow_fold(seen, keys).0.contains(k) <==> (seen.contains(k) || keys.contains(k)),
        follow_fold(seen, keys).0.len() <= seen.len() + keys.len(),
        forall|i: int| 0 <= i < follow_fold(seen, keys).1.len() ==> 0 <= #[trigger] follow_fold(seen, keys).1[i] < keys.len(),
    decreases keys.len(),
{
    if keys.len() > 0 {
        let n = keys.len() as int;
        let pre = keys.drop_last();
        law_a_follower_shows_each_event_once(seen, pre);
        let (s, f) = follow_fold(seen, pre);
        let k = keys.last();
        assert(pre =~= keys.take(n - 1));
        assert forall|q: int| 0 <= q < n - 1 implies keys.take(q) =~= #[trigger] pre.take(q) by {}
        assert forall|x: Seq<char>| keys.contains(x) <==> (pre.contains(x) || x == k) by {
            if keys.contains(x) {
                let j = choose|j: int| 0 <= j < n && keys[j] == x;
                if j < n - 1 {
                    assert(pre[j] == x);
                }
            }
            if pre.contains(x) {
                let j = choose|j: int| 0 <= j < n - 1 && pre[j] == x;
                assert(keys[j] == x);
            }
            if x == k {
                assert(keys[n - 1] == x);
            }
        }
        if s.contains(k) {
            assert(follow_fold(seen, keys) == (s, f));
            assert forall|x: Seq<char>| #[trigger] follow_fold(seen, keys).0.contains(x) <==> (seen.contains(x) || keys.contains(x)) by {
                assert(keys.contains(x) <==> (pre.contains(x) || x == k));
            }
            assert(!f.contains(n - 1)) by {
                if f.contains(n - 1) {
                    let j = choose|j: int| 0 <= j < f.len() && f[j] == n - 1;
                    assert(0 <= f[j] < pre.len());
                }
            }
        } else {
            assert(follow_fold(seen, keys) == (s.push(k), f.push(n - 1)));
            assert forall|x: Seq<char>| s.push(k).contains(x) <==> (s.contains(x) || x == k) by {
                if s.push(k).contains(x) {
                    let sp = s.push(k);
                    let j = choose|j: int| 0 <= j < sp.len() && #[trigger] sp[j] == x;
                    if j < s.len() {
                        assert(s[j] == x);
                    }
                }
                if s.contains(x) {
                    let j = choose|j: int| 0 <= j < s.len() && s[j] == x;
                    assert(s.push(k)[j] == x);
                }
                if x == k {
                    assert(s.push(k)[s.len() as int] == x);
                }
            }
            assert forall|x: Seq<char>| #[trigger] follow_fold(seen, keys).0.contains(x) <==> (seen.contains(x) || keys.contains(x)) by {
                assert(keys.contains(x) <==> (pre.contains(x) || x == k));
                assert(s.push(k).contains(x) <==> (s.contains(x) || x == k));
            }
            assert forall|p: int| 0 <= p < n implies (#[trigger] f.push(n - 1).contains(p) <==> f.contains(p) || p == n - 1) by {
                if f.push(n - 1).contains(p) {
                    let fp = f.push(n - 1);
                    let j = choose|j: int| 0 <= j < fp.len() && #[trigger] fp[j] == p;
                    if j < f.len() {
                        assert(f[j] == p);
                    }
                }
                if f.contains(p) {
                    let j = choose|j: int| 0 <= j < f.len() && f[j] == p;
                    assert(f.push(n - 1)[j] == p);
                }
                if p == n - 1 {
                    assert(f.push(n - 1)[f.len() as int] == p);
                }
            }
        }
        assert forall|p: int| 0 <= p < n - 1 implies keys[p] == #[trigger] pre[p] by {}
    }
}

// ── the status page ──────────────────────────────────────────────────────────

/// The positions of the rollouts still running (status `active`), in order.
pub open spec fn active_positions(rows: Seq<crate::release::DeployRow>) -> Seq<int>
    decreases rows.len(),
{
    if rows.len() == 0 {
        Seq::empty()
    } else {
        let p = active_positions(rows.drop_last());
        if rows.last().status@ == "active"@ {
            p.push(rows.len() - 1)
        } else {
            p
        }
    }
}

/// The positions of the events that look like failures, in order.
pub open spec fn failure_positions(events: Seq<EventRow>) -> Seq<int>
    decreases events.len(),
{
    if events.len() == 0 {
        Seq::empty()
    } else {
        let p = failure_positions(events.drop_last());
        if failed_spec(events.last()) {
            p.push(events.len() - 1)
        } else {
            p
        }
    }
}

/// The rollouts in flight: where, among `rows`, the status is `active`.
pub fn in_flight(rows: &[crate::release::DeployRow]) -> (r: Vec<usize>)
    ensures
        r@.map_values(|i: usize| i as int) == active_positions(rows@),
{
    let mut r: Vec<usize> = Vec::new();
    let mut i: usize = 0;
    assert(rows@.take(0) =~= Seq::<crate::release::DeployRow>::empty());
    while i < rows.len()
        invariant
            i <= rows.len(),
            r@.map_values(|x: usize| x as int) == active_positions(rows@.take(i as int)),
        decreases rows.len() - i,
    {
        let ghost t = rows@.take(i + 1);
        assert(t.drop_last() =~= rows@.take(i as int));
        assert(t.last() == rows@[i as int]);
        let ghost before = r@.map_values(|x: usize| x as int);
        if str_eq(rows[i].status.as_str(), "active") {
            r.push(i);
            assert(r@.map_values(|x: usize| x as int) =~= before.push(i as int));
        }
        i = i + 1;
    }
    assert(rows@.take(rows.len() as int) =~= rows@);
    r
}

/// The first `limit` events that look like failures, by position.
pub fn recent_failures(events: &[EventRow], limit: usize) -> (r: Vec<usize>)
    ensures
        r@.map_values(|i: usize| i as int) == if failure_positions(events@).len() > limit {
            failure_positions(events@).take(limit as int)
        } else {
            failure_positions(events@)
        },
{
    let mut r: Vec<usize> = Vec::new();
    let mut i: usize = 0;
    assert(events@.take(0) =~= Seq::<EventRow>::empty());
    while i < events.len()
        invariant
            i <= events.len(),
            r@.map_values(|x: usize| x as int) == failure_positions(events@.take(i as int)),
        decreases events.len() - i,
    {
        let ghost t = events@.take(i + 1);
        assert(t.drop_last() =~= events@.take(i as int));
        assert(t.last() == events@[i as int]);
        let ghost before = r@.map_values(|x: usize| x as int);
        if failed(&events[i]) {
            r.push(i);
            assert(r@.map_values(|x: usize| x as int) =~= before.push(i as int));
        }
        i = i + 1;
    }
    assert(events@.take(events.len() as int) =~= events@);
    if r.len() > limit {
        let ghost all = r@.map_values(|x: usize| x as int);
        r.truncate(limit);
        assert(r@.map_values(|x: usize| x as int) =~= all.take(limit as int));
    }
    r
}

/// The sections of the status page that could not be fetched, with why.
pub fn section_errors(sections: &[(String, Option<String>)]) -> (r: Vec<(String, String)>)
    ensures
        r@.map_values(|p: (String, String)| (p.0@, p.1@)) == section_errors_spec(sections@),
{
    let mut r: Vec<(String, String)> = Vec::new();
    let mut i: usize = 0;
    assert(sections@.take(0) =~= Seq::<(String, Option<String>)>::empty());
    while i < sections.len()
        invariant
            i <= sections.len(),
            r@.map_values(|p: (String, String)| (p.0@, p.1@)) == section_errors_spec(sections@.take(i as int)),
        decreases sections.len() - i,
    {
        let ghost t = sections@.take(i + 1);
        assert(t.drop_last() =~= sections@.take(i as int));
        assert(t.last() == sections@[i as int]);
        let ghost before = r@.map_values(|p: (String, String)| (p.0@, p.1@));
        match &sections[i].1 {
            Some(e) => {
                r.push((sections[i].0.clone(), e.clone()));
                assert(r@.map_values(|p: (String, String)| (p.0@, p.1@)) =~= before.push(
                    (sections@[i as int].0@, e@),
                ));
            },
            None => {},
        }
        i = i + 1;
    }
    assert(sections@.take(sections.len() as int) =~= sections@);
    r
}

/// The failed sections, named, with their errors, in order.
pub open spec fn section_errors_spec(sections: Seq<(String, Option<String>)>) -> Seq<(Seq<char>, Seq<char>)>
    decreases sections.len(),
{
    if sections.len() == 0 {
        Seq::empty()
    } else {
        let p = section_errors_spec(sections.drop_last());
        match sections.last().1 {
            Some(e) => p.push((sections.last().0@, e@)),
            None => p,
        }
    }
}

} // verus!
