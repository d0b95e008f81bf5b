//! The CLI's credential-free state: contexts, each bundling the control
//! plane's address with the defaults a command would otherwise need retyped.
//! There is no token here: identity is the Tailscale device the call comes
//! from.

use vstd::prelude::*;
use vstd::string::*;

use crate::text::{
    chars_lt, chars_of, chars_starts_with, chars_trim, chars_trim_end_char, seq_lt, starts_with,
    str_eq, string_of, trim_end_char, trim_ws, sub_chars,
};

use crate::keyed::{
    lemma_insert_at, lemma_lookup_at, lemma_lookup_none, lemma_remove_at, lemma_update_at, lookup, names_of,
};
use crate::strset::ascending;

verus! {

broadcast use vstd::string::group_string_axioms;

/// The default env class when neither the command line nor the context says:
/// the cheap default is the safe one.
pub const DEFAULT_CLASS: &'static str = "stable";

/// The bot's WireGuard-internal listener, the `direct` default.
pub const DEFAULT_BOT_URL: &'static str = "http://10.88.0.1:8081";

/// The reconciler's WireGuard-internal listener.
pub const DEFAULT_RECON_URL: &'static str = "http://10.88.0.1:9090";

/// One context: where the control plane is and the defaults for commands.
#[derive(Debug)]
pub struct Context {
    /// The dashboard origin, the front door that injects your identity.
    /// Unset in `direct` mode.
    pub url: Option<String>,
    /// Talk to the WireGuard-internal listeners instead of the dashboard;
    /// no identity is sent then.
    pub direct: bool,
    pub bot_url: Option<String>,
    pub recon_url: Option<String>,
    pub project: Option<String>,
    pub app: Option<String>,
    pub class: Option<String>,
}

/// A context as values.
pub struct ContextView {
    pub url: Option<Seq<char>>,
    pub direct: bool,
    pub bot_url: Option<Seq<char>>,
    pub recon_url: Option<Seq<char>>,
    pub project: Option<Seq<char>>,
    pub app: Option<Seq<char>>,
    pub class: Option<Seq<char>>,
}

pub open spec fn ov(o: Option<String>) -> Option<Seq<char>> {
    match o {
        Some(s) => Some(s@),
        None => None,
    }
}

impl View for Context {
    type V = ContextView;

    open spec fn view(&self) -> ContextView {
        ContextView {
            url: ov(self.url),
            direct: self.direct,
            bot_url: ov(self.bot_url),
            recon_url: ov(self.recon_url),
            project: ov(self.project),
            app: ov(self.app),
            class: ov(self.class),
        }
    }
}

/// The empty context: nothing set, not direct.
pub open spec fn empty_context() -> ContextView {
    ContextView {
        url: None,
        direct: false,
        bot_url: None,
        recon_url: None,
        project: None,
        app: None,
        class: None,
    }
}

impl Default for Context {
    fn default() -> (c: Context)
        ensures
            c@ == empty_context(),
    {
        Context {
            url: None,
            direct: false,
            bot_url: None,
            recon_url: None,
            project: None,
            app: None,
            class: None,
        }
    }
}

pub fn clone_opt(o: &Option<String>) -> (r: Option<String>)
    ensures
        ov(r) == ov(*o),
{
    match o {
        Some(s) => Some(s.clone()),
        None => None,
    }
}

/// `o`'s text, or `d` when unset.
pub open spec fn or_default(o: Option<Seq<char>>, d: Seq<char>) -> Seq<char> {
    match o {
        Some(s) => s,
        None => d,
    }
}

fn opt_or(o: &Option<String>, d: &str) -> (r: String)
    ensures
        r@ == or_default(ov(*o), d@),
{
    match o {
        Some(s) => s.clone(),
        None => d.to_string(),
    }
}

/// A URL without its trailing slashes.
pub open spec fn trim_url(url: Seq<char>) -> Seq<char> {
    trim_end_char(url, '/')
}

fn trim(url: &str) -> (r: String)
    ensures
        r@ == trim_url(url@),
{
    string_of(&chars_trim_end_char(&chars_of(url), '/'))
}

/// The bot's base URL: the WireGuard listener in `direct` mode, else the
/// dashboard's `/api/bot` prefix.
pub open spec fn bot_base_spec(c: ContextView) -> Seq<char> {
    if c.direct {
        trim_url(or_default(c.bot_url, DEFAULT_BOT_URL@))
    } else {
        trim_url(or_default(c.url, ""@)) + "/api/bot"@
    }
}

/// The reconciler's base URL, likewise.
pub open spec fn recon_base_spec(c: ContextView) -> Seq<char> {
    if c.direct {
        trim_url(or_default(c.recon_url, DEFAULT_RECON_URL@))
    } else {
        trim_url(or_default(c.url, ""@)) + "/api/recon"@
    }
}

/// `base` with an `http` scheme turned into the matching WebSocket one.
pub open spec fn ws_scheme(base: Seq<char>) -> Seq<char> {
    if starts_with(base, "https://"@) {
        "wss://"@ + base.skip(8)
    } else if starts_with(base, "http://"@) {
        "ws://"@ + base.skip(7)
    } else {
        base
    }
}

/// Whether a context still names no control plane.
pub open spec fn lacks_endpoint(c: ContextView) -> bool {
    c.url is None && !c.direct
}

pub open spec fn no_endpoint_message() -> Seq<char> {
    "no control plane configured — run `majnet login`, pass --url, or set \
     MAJNET_URL to the dashboard origin (the front door that resolves your \
     Tailscale identity)"@
}

/// Where a context points, in words: both listeners in `direct` mode, else
/// the dashboard origin.
pub open spec fn describe_spec(c: ContextView) -> Seq<char> {
    if c.direct {
        or_default(c.bot_url, DEFAULT_BOT_URL@) + " + "@ + or_default(c.recon_url, DEFAULT_RECON_URL@)
            + " (direct, no identity)"@
    } else {
        or_default(c.url, ""@)
    }
}

impl Context {
    /// A copy of this context.
    pub fn duplicate(&self) -> (c: Context)
        ensures
            c@ == self@,
    {
        Context {
            url: clone_opt(&self.url),
            direct: self.direct,
            bot_url: clone_opt(&self.bot_url),
            recon_url: clone_opt(&self.recon_url),
            project: clone_opt(&self.project),
            app: clone_opt(&self.app),
            class: clone_opt(&self.class),
        }
    }

    /// Fail if this context still names no control plane; called after every
    /// command-line override has been applied.
    pub fn require_endpoint(&self) -> (r: Result<(), String>)
        ensures
            r is Err <==> lacks_endpoint(self@),
            r matches Err(m) ==> m@ == no_endpoint_message(),
    {
        if self.url.is_none() && !self.direct {
            return Err("no control plane configured — run `majnet login`, pass --url, or set \
                 MAJNET_URL to the dashboard origin (the front door that resolves your \
                 Tailscale identity)".to_string());
        }
        Ok(())
    }

    pub fn bot_base(&self) -> (r: String)
        ensures
            r@ == bot_base_spec(self@),
    {
        if self.direct {
            return trim(opt_or(&self.bot_url, DEFAULT_BOT_URL).as_str());
        }
        let mut r = trim(opt_or(&self.url, "").as_str());
        r.append("/api/bot");
        r
    }

    pub fn recon_base(&self) -> (r: String)
        ensures
            r@ == recon_base_spec(self@),
    {
        if self.direct {
            return trim(opt_or(&self.recon_url, DEFAULT_RECON_URL).as_str());
        }
        let mut r = trim(opt_or(&self.url, "").as_str());
        r.append("/api/recon");
        r
    }

    /// The WebSocket URL of the reconciler's terminal, with the base's scheme.
    pub fn terminal_ws(&self, query: &str) -> (r: String)
        ensures
            r@ == ws_scheme(recon_base_spec(self@)) + "/api/terminal?"@ + query@,
    {
        let base = self.recon_base();
        let b = chars_of(base.as_str());
        let https = chars_of("https://");
        let http = chars_of("http://");
        proof {
            reveal_strlit("https://");
            reveal_strlit("http://");
        }
        let mut ws = if chars_starts_with(&b, &https) {
            let mut w = chars_of("wss://");
            crate::text::push_chars(&mut w, &sub_chars(&b, 8, b.len()));
            assert(b@.subrange(8, b@.len() as int) =~= b@.skip(8));
            w
        } else if chars_starts_with(&b, &http) {
            let mut w = chars_of("ws://");
            crate::text::push_chars(&mut w, &sub_chars(&b, 7, b.len()));
            assert(b@.subrange(7, b@.len() as int) =~= b@.skip(7));
            w
        } else {
            b
        };
        crate::text::push_str_chars(&mut ws, "/api/terminal?");
        crate::text::push_str_chars(&mut ws, query);
        string_of(&ws)
    }

    /// The context's env class, or the default.
    pub fn class_or_default(&self) -> (r: String)
        ensures
            r@ == or_default(self@.class, DEFAULT_CLASS@),
    {
        opt_or(&self.class, DEFAULT_CLASS)
    }

    /// Where this context points, in words.
    pub fn describe(&self) -> (r: String)
        ensures
            r@ == describe_spec(self@),
    {
        if self.direct {
            let mut r = opt_or(&self.bot_url, DEFAULT_BOT_URL);
            r.append(" + ");
            r.append(opt_or(&self.recon_url, DEFAULT_RECON_URL).as_str());
            r.append(" (direct, no identity)");
            r
        } else {
            opt_or(&self.url, "")
        }
    }
}

/// A typed URL made into a dashboard origin: trimmed, without trailing
/// slashes, and with `http://` when it names no scheme.
pub open spec fn normalise_spec(url: Seq<char>) -> Seq<char> {
    let t = trim_end_char(trim_ws(url), '/');
    if starts_with(t, "http://"@) || starts_with(t, "https://"@) {
        t
    } else {
        "http://"@ + t
    }
}

pub fn normalise(url: &str) -> (r: String)
    ensures
        r@ == normalise_spec(url@),
{
    let t = chars_trim_end_char(&chars_trim(&chars_of(url)), '/');
    if chars_starts_with(&t, &chars_of("http://")) || chars_starts_with(&t, &chars_of("https://")) {
        string_of(&t)
    } else {
        let mut r = chars_of("http://");
        crate::text::push_chars(&mut r, &t);
        string_of(&r)
    }
}

/// A base URL never ends in a slash, so a path joined to it never doubles
/// one; and the terminal's WebSocket URL keeps the base's security: an
/// `https` base gives `wss`, an `http` one `ws`.
pub proof fn law_bases_end_without_a_slash(c: ContextView)
    ensures
        bot_base_spec(c).len() == 0 || bot_base_spec(c).last() != '/',
        recon_base_spec(c).len() == 0 || recon_base_spec(c).last() != '/',
        starts_with(recon_base_spec(c), "https://"@) ==> starts_with(ws_scheme(recon_base_spec(c)), "wss://"@),
        starts_with(recon_base_spec(c), "http://"@) ==> starts_with(ws_scheme(recon_base_spec(c)), "ws://"@),
{
    reveal_strlit("wss://");
    reveal_strlit("ws://");
    reveal_strlit("https://");
    reveal_strlit("http://");
    reveal_strlit("/api/bot");
    reveal_strlit("/api/recon");
    lemma_trim_end_char_last(or_default(c.bot_url, DEFAULT_BOT_URL@), '/');
    lemma_trim_end_char_last(or_default(c.recon_url, DEFAULT_RECON_URL@), '/');
    let b = recon_base_spec(c);
    if starts_with(b, "https://"@) {
        assert(("wss://"@ + b.skip(8)).take(6) =~= "wss://"@);
    } else if starts_with(b, "http://"@) {
        assert(("ws://"@ + b.skip(7)).take(5) =~= "ws://"@);
    }
    if starts_with(b, "http://"@) {
        assert(b.take(7)[4] == "http://"@[4]);
        assert(b[4] == ':');
        if starts_with(b, "https://"@) {
            assert(b.take(8)[4] == "https://"@[4]);
        }
    }
}

proof fn lemma_trim_end_char_last(s: Seq<char>, c: char)
    ensures
        trim_end_char(s, c).len() == 0 || trim_end_char(s, c).last() != c,
    decreases s.len(),
{
    if s.len() > 0 && s.last() == c {
        lemma_trim_end_char_last(s.drop_last(), c);
    }
}

// ── the saved contexts ───────────────────────────────────────────────────────

/// The saved contexts, by name, and which one commands use by default.
#[derive(Debug)]
pub struct Config {
    /// Name of the context commands use unless told otherwise.
    pub current: String,
    /// The contexts, in ascending name order, each name once.
    pub contexts: Vec<(String, Context)>,
}

/// Environment overrides, as `MAJNET_URL`, `MAJNET_BOT_URL`,
/// `MAJNET_RECON_URL` and `MAJNET_PROJECT` give them.
#[derive(Debug, Clone)]
pub struct EnvOverrides {
    pub url: Option<String>,
    pub bot_url: Option<String>,
    pub recon_url: Option<String>,
    pub project: Option<String>,
}

pub open spec fn entries_view(e: Seq<(String, Context)>) -> Seq<(Seq<char>, ContextView)> {
    e.map_values(|p: (String, Context)| (p.0@, p.1@))
}

/// The context `name` after environment overrides: a non-empty `MAJNET_URL`
/// sets the dashboard origin and leaves direct mode, a non-empty bot or
/// reconciler URL sets that listener and enters it, a non-empty project sets
/// the default project.
pub open spec fn with_env(c: ContextView, env: EnvOverrides) -> ContextView {
    let c1 = match ov(env.url) {
        Some(v) if v.len() > 0 => ContextView { url: Some(v), direct: false, ..c },
        _ => c,
    };
    let c2 = match ov(env.bot_url) {
        Some(v) if v.len() > 0 => ContextView { bot_url: Some(v), direct: true, ..c1 },
        _ => c1,
    };
    let c3 = match ov(env.recon_url) {
        Some(v) if v.len() > 0 => ContextView { recon_url: Some(v), direct: true, ..c2 },
        _ => c2,
    };
    match ov(env.project) {
        Some(v) if v.len() > 0 => ContextView { project: Some(v), ..c3 },
        _ => c3,
    }
}

/// `ns` joined with `, `.
pub open spec fn comma_list(ns: Seq<Seq<char>>) -> Seq<char> {
    crate::text::join(ns, ", "@)
}

/// What `resolve` answers: the context named on the command line, or the
/// current one, with environment overrides. An explicitly named context that
/// does not exist is an error; a missing default is the empty context.
pub open spec fn resolve_spec(cfg: Config, name: Option<Seq<char>>, env: EnvOverrides) -> Result<ContextView, Seq<char>> {
    let wanted = match name {
        Some(n) => n,
        None => cfg.current@,
    };
    let e = entries_view(cfg.contexts@);
    if wanted.len() == 0 {
        Ok(with_env(empty_context(), env))
    } else {
        match lookup(e, wanted) {
            Some(c) => Ok(with_env(c, env)),
            None => if name is Some {
                Err("no context named '"@ + wanted + "' (have: "@ + comma_list(names_of(e)) + ")"@)
            } else {
                Ok(with_env(empty_context(), env))
            },
        }
    }
}

fn set_if_given(slot: &mut Option<String>, v: &Option<String>) -> (set: bool)
    ensures
        match ov(*v) {
            Some(x) if x.len() > 0 => ov(*final(slot)) == Some(x) && set,
            _ => ov(*final(slot)) == ov(*old(slot)) && !set,
        },
{
    match v {
        Some(x) => {
            if x.as_str().unicode_len() > 0 {
                *slot = Some(x.clone());
                true
            } else {
                false
            }
        },
        None => false,
    }
}

impl Default for Config {
    fn default() -> (c: Config)
        ensures
            c.wf(),
            c.current@ == Seq::<char>::empty(),
            c.contexts@.len() == 0,
    {
        Config { current: String::new(), contexts: Vec::new() }
    }
}

impl Config {
    /// Names ascend and none repeats.
    pub open spec fn wf(&self) -> bool {
        ascending(names_of(entries_view(self.contexts@)))
    }

    pub open spec fn entries(&self) -> Seq<(Seq<char>, ContextView)> {
        entries_view(self.contexts@)
    }

    /// The context names, in ascending order.
    pub fn names(&self) -> (r: Vec<&str>)
        ensures
            r@.map_values(|s: &str| s@) == names_of(self.entries()),
    {
        let mut r: Vec<&str> = Vec::new();
        let mut i: usize = 0;
        while i < self.contexts.len()
            invariant
                i <= self.contexts.len(),
                r@.map_values(|s: &str| s@) == names_of(self.entries()).take(i as int),
            decreases self.contexts.len() - i,
        {
            let ghost before = r@.map_values(|s: &str| s@);
            r.push(self.contexts[i].0.as_str());
            assert(r@.map_values(|s: &str| s@) =~= before.push(self.contexts@[i as int].0@));
            assert(names_of(self.entries()).take(i + 1) =~= names_of(self.entries()).take(i as int).push(self.contexts@[i as int].0@));
            i = i + 1;
        }
        assert(names_of(self.entries()).take(self.contexts.len() as int) =~= names_of(self.entries()));
        r
    }

    /// The names joined with `, `.
    fn names_line(&self) -> (r: String)
        ensures
            r@ == comma_list(names_of(self.entries())),
    {
        let names = self.names();
        let ghost ns = names@.map_values(|s: &str| s@);
        let mut parts: Vec<Vec<char>> = Vec::new();
        let mut i: usize = 0;
        while i < names.len()
            invariant
                i <= names.len(),
                ns == names@.map_values(|s: &str| s@),
                crate::text::views(parts@) == ns.take(i as int),
            decreases names.len() - i,
        {
            let ghost before = crate::text::views(parts@);
            parts.push(chars_of(names[i]));
            assert(crate::text::views(parts@) =~= before.push(ns[i as int]));
            assert(ns.take(i + 1) =~= ns.take(i as int).push(ns[i as int]));
            i = i + 1;
        }
        assert(ns.take(names.len() as int) =~= ns);
        string_of(&crate::text::chars_join(&parts, &chars_of(", ")))
    }

    /// Where `name` is saved.
    fn position(&self, name: &str) -> (r: Option<usize>)
        requires
            self.wf(),
        ensures
            match r {
                Some(i) => i < self.contexts.len() && self.contexts@[i as int].0@ == name@,
                None => forall|i: int| 0 <= i < self.contexts.len() ==> #[trigger] self.contexts@[i].0@ != name@,
            },
            lookup(self.entries(), name@) == match r {
                Some(i) => Some(self.contexts@[i as int].1@),
                None => None::<ContextView>,
            },
    {
        let mut i: usize = 0;
        while i < self.contexts.len()
            invariant
                self.wf(),
                i <= self.contexts.len(),
                forall|k: int| 0 <= k < i ==> #[trigger] self.contexts@[k].0@ != name@,
            decreases self.contexts.len() - i,
        {
            if str_eq(self.contexts[i].0.as_str(), name) {
                proof {
                    lemma_lookup_at(self.entries(), i as int);
                }
                return Some(i);
            }
            i = i + 1;
        }
        proof {
            assert forall|k: int| 0 <= k < self.entries().len() implies #[trigger] self.entries()[k].0 != name@ by {
                assert(self.entries()[k].0 == self.contexts@[k].0@);
            }
            lemma_lookup_none(self.entries(), name@);
        }
        None
    }

    /// The context saved under `name`.
    pub fn get(&self, name: &str) -> (r: Option<&Context>)
        requires
            self.wf(),
        ensures
            match r {
                Some(c) => lookup(self.entries(), name@) == Some(c@),
                None => lookup(self.entries(), name@) is None,
            },
    {
        match self.position(name) {
            Some(i) => Some(&self.contexts[i].1),
            None => None,
        }
    }

    /// The context `name` (or the current one), with environment overrides
    /// applied. An endpoint is not required here: the command line may still
    /// supply one.
    pub fn resolve(&self, name: Option<&str>, env: &EnvOverrides) -> (r: Result<Context, String>)
        requires
            self.wf(),
        ensures
            match (r, resolve_spec(*self, opt_str(name), *env)) {
                (Ok(c), Ok(v)) => c@ == v,
                (Err(m), Err(v)) => m@ == v,
                _ => false,
            },
    {
        let wanted: &str = match name {
            Some(n) => n,
            None => self.current.as_str(),
        };
        let mut ctx = if wanted.unicode_len() == 0 {
            Context::default()
        } else {
            match self.get(wanted) {
                Some(c) => c.duplicate(),
                None => {
                    if name.is_some() {
                        let mut m = "no context named '".to_string();
                        m.append(wanted);
                        m.append("' (have: ");
                        m.append(self.names_line().as_str());
                        m.append(")");
                        return Err(m);
                    }
                    Context::default()
                },
            }
        };
        let ghost c0 = ctx@;
        if set_if_given(&mut ctx.url, &env.url) {
            ctx.direct = false;
        }
        let ghost c1 = ctx@;
        assert(c1 == match ov(env.url) {
            Some(v) if v.len() > 0 => ContextView { url: Some(v), direct: false, ..c0 },
            _ => c0,
        });
        if set_if_given(&mut ctx.bot_url, &env.bot_url) {
            ctx.direct = true;
        }
        let ghost c2 = ctx@;
        assert(c2 == match ov(env.bot_url) {
            Some(v) if v.len() > 0 => ContextView { bot_url: Some(v), direct: true, ..c1 },
            _ => c1,
        });
        if set_if_given(&mut ctx.recon_url, &env.recon_url) {
            ctx.direct = true;
        }
        let ghost c3 = ctx@;
        assert(c3 == match ov(env.recon_url) {
            Some(v) if v.len() > 0 => ContextView { recon_url: Some(v), direct: true, ..c2 },
            _ => c2,
        });
        set_if_given(&mut ctx.project, &env.project);
        Ok(ctx)
    }
}

pub open spec fn opt_str(o: Option<&str>) -> Option<Seq<char>> {
    match o {
        Some(s) => Some(s@),
        None => None,
    }
}

impl Config {
    fn sorts_before(&self, i: usize, key: &Vec<char>) -> (b: bool)
        requires
            i < self.contexts.len(),
        ensures
            b == seq_lt(self.contexts@[i as int].0@, key@),
    {
        let here = chars_of(self.contexts[i].0.as_str());
        chars_lt(&here, key)
    }

    /// Save `ctx` under `name`, replacing what was there.
    pub fn insert(&mut self, name: String, ctx: Context)
        requires
            old(self).wf(),
        ensures
            final(self).wf(),
            final(self).current@ == old(self).current@,
            forall|k: Seq<char>| #[trigger] lookup(final(self).entries(), k) == if k == name@ {
                Some(ctx@)
            } else {
                lookup(old(self).entries(), k)
            },
    {
        let key = chars_of(name.as_str());
        let mut i: usize = 0;
        while i < self.contexts.len() && self.sorts_before(i, &key)
            invariant
                i <= self.contexts.len(),
                key@ == name@,
                forall|k: int| 0 <= k < i ==> seq_lt(#[trigger] self.contexts@[k].0@, name@),
            decreases self.contexts.len() - i,
        {
            i = i + 1;
        }
        let ghost e = self.entries();
        if i < self.contexts.len() && str_eq(self.contexts[i].0.as_str(), name.as_str()) {
            proof {
                lemma_update_at(e, i as int, ctx@);
            }
            let _old = self.contexts.remove(i);
            self.contexts.insert(i, (name, ctx));
            assert(self.entries() =~= e.update(i as int, (e[i as int].0, ctx@)));
        } else {
            proof {
                if i < self.contexts.len() {
                    assert(!seq_lt(e[i as int].0, name@));
                    crate::text::lemma_seq_lt_total(e[i as int].0, name@);
                }
                assert forall|k: int| 0 <= k < i implies seq_lt(#[trigger] e[k].0, name@) by {
                    assert(e[k].0 == self.contexts@[k].0@);
                }
                lemma_insert_at(e, i as int, name@, ctx@);
            }
            let ghost nv = name@;
            self.contexts.insert(i, (name, ctx));
            assert(self.entries() =~= e.insert(i as int, (nv, ctx@)));
        }
    }

    /// Drop the context `name`; whether there was one.
    pub fn remove(&mut self, name: &str) -> (found: bool)
        requires
            old(self).wf(),
        ensures
            final(self).wf(),
            final(self).current@ == old(self).current@,
            found == (lookup(old(self).entries(), name@) is Some),
            !found ==> final(self).contexts@ == old(self).contexts@,
            forall|k: Seq<char>| #[trigger] lookup(final(self).entries(), k) == if k == name@ {
                None
            } else {
                lookup(old(self).entries(), k)
            },
    {
        match self.position(name) {
            Some(i) => {
                let ghost e = self.entries();
                proof {
                    lemma_remove_at(e, i as int);
                }
                let _gone = self.contexts.remove(i);
                assert(self.entries() =~= e.remove(i as int));
                true
            },
            None => {
                proof {
                    assert forall|k: Seq<char>| #[trigger] lookup(self.entries(), k) == if k == name@ {
                        None
                    } else {
                        lookup(self.entries(), k)
                    } by {}
                }
                false
            },
        }
    }
}

/// What `majnet login` was asked.
#[derive(Debug, Clone)]
pub struct LoginArgs {
    /// Control-plane origin; when absent the tailnet is searched for one.
    pub url: Option<String>,
    /// The context to save under.
    pub name: String,
    /// Configure the WireGuard-internal listeners instead of a dashboard URL.
    pub direct: bool,
    pub project: Option<String>,
    pub class: Option<String>,
}

/// `a`, or else `b`.
pub open spec fn or_else(a: Option<Seq<char>>, b: Option<Seq<char>>) -> Option<Seq<char>> {
    match a {
        Some(x) => Some(x),
        None => b,
    }
}

/// The context login saves: the one already saved under that name (or the
/// empty one) with the given project and class, then either both
/// WireGuard listeners (keeping any already set) or the dashboard `origin`.
pub open spec fn login_context_spec(saved: Option<ContextView>, args: LoginArgs, origin: Seq<char>) -> ContextView {
    let base = match saved {
        Some(c) => c,
        None => empty_context(),
    };
    let c = ContextView {
        project: or_else(ov(args.project), base.project),
        class: or_else(ov(args.class), base.class),
        ..base
    };
    if args.direct {
        ContextView {
            direct: true,
            bot_url: Some(or_default(c.bot_url, DEFAULT_BOT_URL@)),
            recon_url: Some(or_default(c.recon_url, DEFAULT_RECON_URL@)),
            ..c
        }
    } else {
        ContextView { url: Some(origin), direct: false, ..c }
    }
}

fn first_given(a: &Option<String>, b: &Option<String>) -> (r: Option<String>)
    ensures
        ov(r) == or_else(ov(*a), ov(*b)),
{
    match a {
        Some(x) => Some(x.clone()),
        None => clone_opt(b),
    }
}

impl Config {
    /// The context `majnet login` saves, before it is checked against the
    /// control plane.
    pub fn login_context(&self, args: &LoginArgs, origin: &str) -> (c: Context)
        requires
            self.wf(),
        ensures
            c@ == login_context_spec(lookup(self.entries(), args.name@), *args, origin@),
    {
        let mut c = match self.get(args.name.as_str()) {
            Some(saved) => saved.duplicate(),
            None => Context::default(),
        };
        c.project = first_given(&args.project, &c.project);
        c.class = first_given(&args.class, &c.class);
        if args.direct {
            c.direct = true;
            c.bot_url = Some(opt_or(&c.bot_url, DEFAULT_BOT_URL));
            c.recon_url = Some(opt_or(&c.recon_url, DEFAULT_RECON_URL));
        } else {
            c.url = Some(origin.to_string());
            c.direct = false;
        }
        c
    }

    /// Make `name` the current context.
    pub fn use_context(&mut self, name: &str) -> (r: Result<(), String>)
        requires
            old(self).wf(),
        ensures
            final(self).wf(),
            final(self).entries() == old(self).entries(),
            r is Ok <==> lookup(old(self).entries(), name@) is Some,
            r is Ok ==> final(self).current@ == name@,
            r matches Err(m) ==> m@ == "no context named '"@ + name@ + "' (have: "@
                + comma_list(names_of(old(self).entries())) + ")"@ && final(self).current@ == old(self).current@,
    {
        if self.position(name).is_none() {
            let mut m = "no context named '".to_string();
            m.append(name);
            m.append("' (have: ");
            m.append(self.names_line().as_str());
            m.append(")");
            return Err(m);
        }
        self.current = name.to_string();
        Ok(())
    }

    /// Remove the context `name` (or the current one); when it was current,
    /// the first remaining name becomes current, or none. Gives the removed
    /// name.
    pub fn logout(&mut self, name: Option<&str>) -> (r: Result<String, String>)
        requires
            old(self).wf(),
        ensures
            final(self).wf(),
            ({
                let target = match name {
                    Some(n) => n@,
                    None => old(self).current@,
                };
                &&& r is Ok <==> lookup(old(self).entries(), target) is Some
                &&& r matches Ok(t) ==> {
                    &&& t@ == target
                    &&& forall|k: Seq<char>| #[trigger] lookup(final(self).entries(), k) == if k == target {
                        None
                    } else {
                        lookup(old(self).entries(), k)
                    }
                    &&& final(self).current@ == if old(self).current@ == target {
                        if final(self).entries().len() > 0 {
                            final(self).entries()[0].0
                        } else {
                            Seq::<char>::empty()
                        }
                    } else {
                        old(self).current@
                    }
                }
                &&& r matches Err(m) ==> m@ == "no context named '"@ + target + "'"@
                    && final(self).entries() == old(self).entries()
                    && final(self).current@ == old(self).current@
            }),
    {
        let target: String = match name {
            Some(n) => n.to_string(),
            None => self.current.clone(),
        };
        if !self.remove(target.as_str()) {
            let mut m = "no context named '".to_string();
            m.append(target.as_str());
            m.append("'");
            return Err(m);
        }
        if str_eq(self.current.as_str(), target.as_str()) {
            self.current = if self.contexts.len() > 0 {
                self.contexts[0].0.clone()
            } else {
                String::new()
            };
        }
        Ok(target)
    }
}

/// Whatever was saved before, a context saved under a name is exactly what
/// resolving that name gives back (absent environment overrides), and saving
/// keeps the names ascending and unique.
pub proof fn law_saved_context_resolves(cfg: Config, after: Config, name: Seq<char>, ctx: ContextView)
    requires
        cfg.wf(),
        after.wf(),
        name.len() > 0,
        forall|k: Seq<char>| #[trigger] lookup(after.entries(), k) == if k == name {
            Some(ctx)
        } else {
            lookup(cfg.entries(), k)
        },
    ensures
        resolve_spec(after, Some(name), no_overrides()) == Ok::<ContextView, Seq<char>>(ctx),
        ascending(names_of(after.entries())),
{
    assert(lookup(after.entries(), name) == Some(ctx));
    assert(with_env(ctx, no_overrides()) == ctx);
}

/// Environment overrides win over whatever the context holds: a non-empty
/// `MAJNET_PROJECT` is the resolved default project, a non-empty
/// `MAJNET_URL` the dashboard origin, a non-empty bot or reconciler URL that
/// listener (and direct mode), whatever the saved context had; the app and
/// class defaults, and a project no override replaces, are the saved
/// context's own.
pub proof fn law_environment_overrides_win(cfg: Config, name: Option<Seq<char>>, env: EnvOverrides, c: ContextView)
    requires
        resolve_spec(cfg, name, env) == Ok::<ContextView, Seq<char>>(c),
    ensures
        ov(env.project) is Some && ov(env.project)->0.len() > 0 ==> c.project == ov(env.project),
        ov(env.url) is Some && ov(env.url)->0.len() > 0 ==> c.url == ov(env.url),
        ov(env.bot_url) is Some && ov(env.bot_url)->0.len() > 0 ==> c.bot_url == ov(env.bot_url) && c.direct,
        ov(env.recon_url) is Some && ov(env.recon_url)->0.len() > 0 ==> c.recon_url == ov(env.recon_url) && c.direct,
        (match name { Some(n) => n, None => cfg.current@ }).len() > 0 ==>
            (lookup(cfg.entries(), match name { Some(n) => n, None => cfg.current@ }) matches Some(saved) ==> {
                &&& c.app == saved.app
                &&& c.class == saved.class
                &&& (ov(env.project) is None || ov(env.project)->0.len() == 0) ==> c.project == saved.project
            }),
{
}

/// No environment override set.
pub open spec fn no_overrides() -> EnvOverrides {
    EnvOverrides { url: None, bot_url: None, recon_url: None, project: None }
}

/// An explicitly requested context that does not exist is an error; an
/// unset or missing default is not: it resolves to the empty context, which
/// the command line may still fill in.
pub proof fn law_only_a_named_context_must_exist(cfg: Config, name: Seq<char>, env: EnvOverrides)
    requires
        cfg.wf(),
    ensures
        name.len() > 0 && lookup(cfg.entries(), name) is None ==> resolve_spec(cfg, Some(name), env) is Err,
        resolve_spec(cfg, None, env) is Ok,
{
}

/// `majnet context` subcommands.
#[derive(Debug, Clone)]
pub enum ContextCmd {
    /// List saved contexts.
    List,
    /// Switch the current context.
    Use { name: String },
    /// Change defaults on a context (the current one unless named).
    Update {
        name: Option<String>,
        url: Option<String>,
        project: Option<String>,
        app: Option<String>,
        class: Option<String>,
    },
    /// Show the current context in full.
    Show,
}

/// A context with new defaults: a URL (normalised, leaving direct mode), a
/// project, an app, a class, each only where given.
pub open spec fn with_defaults(
    c: ContextView,
    url: Option<Seq<char>>,
    project: Option<Seq<char>>,
    app: Option<Seq<char>>,
    class: Option<Seq<char>>,
) -> ContextView {
    let c1 = match url {
        Some(u) => ContextView { url: Some(normalise_spec(u)), direct: false, ..c },
        None => c,
    };
    ContextView {
        project: or_else(project, c1.project),
        app: or_else(app, c1.app),
        class: or_else(class, c1.class),
        ..c1
    }
}

impl Config {
    /// Change the defaults of the context `name` (or the current one). A class
    /// must be a real one; the context must exist. Gives the context's name.
    pub fn set_defaults(
        &mut self,
        name: &Option<String>,
        url: &Option<String>,
        project: &Option<String>,
        app: &Option<String>,
        class: &Option<String>,
    ) -> (r: Result<String, String>)
        requires
            old(self).wf(),
        ensures
            final(self).wf(),
            final(self).current@ == old(self).current@,
            ({
                let target = or_default(ov(*name), old(self).current@);
                match lookup(old(self).entries(), target) {
                    None => r matches Err(m) && m@ == "no context named '"@ + target + "'"@
                        && final(self).entries() == old(self).entries(),
                    Some(c) => match ov(*class) {
                        Some(v) if !crate::resolve::known_class(v) => r matches Err(m)
                            && m@ == "unknown env class '"@ + v + "' — one of: production, stable, testing, ephemeral"@
                            && final(self).entries() == old(self).entries(),
                        _ => r matches Ok(t) && t@ == target
                            && forall|k: Seq<char>| #[trigger] lookup(final(self).entries(), k) == if k == target {
                                Some(with_defaults(c, ov(*url), ov(*project), ov(*app), ov(*class)))
                            } else {
                                lookup(old(self).entries(), k)
                            },
                    },
                }
            }),
    {
        let target: String = match name {
            Some(n) => n.clone(),
            None => self.current.clone(),
        };
        let i = match self.position(target.as_str()) {
            Some(i) => i,
            None => {
                let mut m = "no context named '".to_string();
                m.append(target.as_str());
                m.append("'");
                return Err(m);
            },
        };
        if let Some(v) = class {
            if !crate::resolve::is_known_class(v.as_str()) {
                let mut m = "unknown env class '".to_string();
                m.append(v.as_str());
                m.append("' — one of: production, stable, testing, ephemeral");
                return Err(m);
            }
        }
        let ghost e = self.entries();
        let (key, mut ctx) = self.contexts.remove(i);
        let ghost c0 = ctx@;
        if let Some(u) = url {
            ctx.url = Some(normalise(u.as_str()));
            ctx.direct = false;
        }
        if let Some(p) = project {
            ctx.project = Some(p.clone());
        }
        if let Some(a) = app {
            ctx.app = Some(a.clone());
        }
        if let Some(c) = class {
            ctx.class = Some(c.clone());
        }
        assert(ctx@ == with_defaults(c0, ov(*url), ov(*project), ov(*app), ov(*class)));
        proof {
            lemma_update_at(e, i as int, ctx@);
        }
        self.contexts.insert(i, (key, ctx));
        assert(self.entries() =~= e.update(i as int, (e[i as int].0, with_defaults(c0, ov(*url), ov(*project), ov(*app), ov(*class)))));
        Ok(target)
    }
}

impl Context {
    /// The context after the command line's `--url` (which leaves direct mode)
    /// and `--direct` (which enters it).
    pub fn with_flags(self, url: Option<String>, direct: bool) -> (c: Context)
        ensures
            c@ == ({
                let c1 = match ov(url) {
                    Some(u) => ContextView { url: Some(u), direct: false, ..self@ },
                    None => self@,
                };
                if direct {
                    ContextView { direct: true, ..c1 }
                } else {
                    c1
                }
            }),
    {
        let mut c = self;
        if let Some(u) = url {
            c.url = Some(u);
            c.direct = false;
        }
        if direct {
            c.direct = true;
        }
        c
    }
}

/// The timeout for the long calls (`exec`, `sql`), which the reconciler
/// allows 120 s: at least 150 s, never shorter than asked.
pub fn patient_timeout(timeout: u64) -> (t: u64)
    ensures
        t == if timeout > 150 { timeout } else { 150 },
{
    if timeout > 150 {
        timeout
    } else {
        150
    }
}

/// The output format: the one asked for, else a table on a terminal and
/// JSON into a pipe.
pub fn output_format(asked: Option<crate::output::Format>, stdout_is_terminal: bool) -> (f: crate::output::Format)
    ensures
        f == match asked {
            Some(a) => a,
            None => if stdout_is_terminal {
                crate::output::Format::Table
            } else {
                crate::output::Format::Json
            },
        },
{
    match asked {
        Some(a) => a,
        None => if stdout_is_terminal {
            crate::output::Format::Table
        } else {
            crate::output::Format::Json
        },
    }
}

} // verus!
