//! Running things from the command line: a command inside an app's container,
//! and SQL against its managed database, including a small REPL. What these
//! commands decide lives here; reading the terminal and talking to the
//! control plane is the caller's.

use vstd::prelude::*;
use vstd::string::*;

use crate::client::{seg, seg_spec};
use crate::read::TargetArgs;
use crate::run::strs;
use crate::text::{
    chars_join, chars_of, chars_trim, chars_trim_end, decimal, decimal_chars, ends_with, join,
    starts_with, str_eq, string_of, trim_end_ws, trim_ws, views,
};

verus! {

broadcast use vstd::string::group_string_axioms;

/// What `majnet exec` was asked.
#[derive(Debug, Clone)]
pub struct ExecArgs {
    pub target: TargetArgs,
    /// Run the command through `sh -c` instead of executing argv directly.
    pub shell: bool,
    /// Working directory inside the container.
    pub workdir: Option<String>,
    /// Feed the command stdin; `-` reads this process's stdin.
    pub stdin: Option<String>,
    /// The command, after `--`.
    pub cmd: Vec<String>,
}

/// What `majnet sql` was asked.
#[derive(Debug, Clone)]
pub struct SqlArgs {
    pub target: TargetArgs,
    /// The statement; absent, it is read from stdin or a REPL starts.
    pub sql: Option<String>,
    /// Read the statement from a file.
    pub file: Option<String>,
    /// Allow the statement to write.
    pub write: bool,
    /// Rows to print.
    pub limit: usize,
    /// List the tables instead of running a statement.
    pub tables: bool,
    /// Describe one table's columns.
    pub columns: Option<String>,
}

pub open spec fn no_command_message() -> Seq<char> {
    "no command given — it goes after `--`, e.g.\n               majnet exec demo api -c stable -- ls -la /app"@
}

/// The argv a command request carries: the given one, or the words joined
/// and handed to `sh -c`. An empty command is refused, showing the `--`
/// people forget.
pub fn exec_command(cmd: &Vec<String>, shell: bool) -> (r: Result<Vec<String>, String>)
    ensures
        cmd.len() == 0 <==> r is Err,
        r matches Err(m) ==> m@ == no_command_message(),
        r matches Ok(argv) ==> strs(argv@) == (if shell {
            seq!["sh"@, "-c"@, join(strs(cmd@), " "@)]
        } else {
            strs(cmd@)
        }),
{
    if cmd.len() == 0 {
        return Err("no command given — it goes after `--`, e.g.\n               majnet exec demo api -c stable -- ls -la /app".to_string());
    }
    let mut argv: Vec<String> = Vec::new();
    if shell {
        let mut parts: Vec<Vec<char>> = Vec::new();
        let mut i: usize = 0;
        while i < cmd.len()
            invariant
                i <= cmd.len(),
                views(parts@) == strs(cmd@).take(i as int),
            decreases cmd.len() - i,
        {
            let ghost before = views(parts@);
            parts.push(chars_of(cmd[i].as_str()));
            assert(views(parts@) =~= before.push(cmd@[i as int]@));
            assert(strs(cmd@).take(i + 1) =~= strs(cmd@).take(i as int).push(cmd@[i as int]@));
            i = i + 1;
        }
        assert(strs(cmd@).take(cmd.len() as int) =~= strs(cmd@));
        argv.push("sh".to_string());
        argv.push("-c".to_string());
        argv.push(string_of(&chars_join(&parts, &chars_of(" "))));
        assert(strs(argv@) =~= seq!["sh"@, "-c"@, join(strs(cmd@), " "@)]);
    } else {
        let mut i: usize = 0;
        while i < cmd.len()
            invariant
                i <= cmd.len(),
                strs(argv@) == strs(cmd@).take(i as int),
            decreases cmd.len() - i,
        {
            let ghost before = strs(argv@);
            argv.push(cmd[i].clone());
            assert(strs(argv@) =~= before.push(cmd@[i as int]@));
            assert(strs(cmd@).take(i + 1) =~= strs(cmd@).take(i as int).push(cmd@[i as int]@));
            i = i + 1;
        }
        assert(strs(cmd@).take(cmd.len() as int) =~= strs(cmd@));
    }
    Ok(argv)
}

/// The process's exit status for a command's exit code: none for success,
/// else the code held within 1..=255 so a failure never reads as success.
pub fn exit_status(code: i64) -> (r: Option<i32>)
    ensures
        code == 0 <==> r is None,
        r matches Some(s) ==> (1 <= s <= 255 && (1 <= code <= 255 ==> s == code)
            && (code < 1 ==> s == 1) && (code > 255 ==> s == 255)),
{
    if code == 0 {
        None
    } else if code < 1 {
        Some(1)
    } else if code > 255 {
        Some(255)
    } else {
        Some(code as i32)
    }
}

/// Where a statement comes from.
#[derive(Debug, Clone, PartialEq, Eq)]
pub enum StatementSource {
    /// A catalog listing (`--tables`, `--columns`).
    Catalog,
    /// Given on the command line.
    Given(String),
    /// Read from this file.
    File(String),
    /// Read from a piped stdin.
    Stdin,
    /// Nothing given at a terminal: open the REPL.
    Repl,
}

/// A catalog listing wins; then the statement argument, then a file; with
/// nothing given, a pipe supplies the SQL and a terminal opens the REPL.
pub fn statement_source(args: &SqlArgs, stdin_is_terminal: bool) -> (r: StatementSource)
    ensures
        (args.tables || args.columns is Some) <==> r == StatementSource::Catalog,
        !(args.tables || args.columns is Some) ==> match args.sql {
            Some(s) => r matches StatementSource::Given(g) && g@ == s@,
            None => match args.file {
                Some(f) => r matches StatementSource::File(p) && p@ == f@,
                None => r == if stdin_is_terminal { StatementSource::Repl } else { StatementSource::Stdin },
            },
        },
{
    if args.tables || args.columns.is_some() {
        return StatementSource::Catalog;
    }
    match &args.sql {
        Some(s) => StatementSource::Given(s.clone()),
        None => match &args.file {
            Some(f) => StatementSource::File(f.clone()),
            None => if stdin_is_terminal {
                StatementSource::Repl
            } else {
                StatementSource::Stdin
            },
        },
    }
}

/// The catalog listing the flags ask for: `tables`, or `columns` of a table.
pub fn catalog_request(args: &SqlArgs) -> (r: Option<(String, Option<String>)>)
    ensures
        args.tables ==> (r matches Some((k, t)) && k@ == "tables"@ && t is None),
        !args.tables ==> match args.columns {
            Some(c) => (r matches Some((k, Some(t))) && k@ == "columns"@ && t@ == c@),
            None => r is None,
        },
{
    if args.tables {
        Some(("tables".to_string(), None))
    } else {
        match &args.columns {
            Some(t) => Some(("columns".to_string(), Some(t.clone()))),
            None => None,
        }
    }
}

/// The request path of one statement.
pub open spec fn sql_path_spec(
    org: Seq<char>,
    class: Seq<char>,
    name: Seq<char>,
    limit: usize,
    write: bool,
    kind: Option<Seq<char>>,
    table: Option<Seq<char>>,
) -> Seq<char> {
    let base = "/api/sql/"@ + seg_spec(vstd::utf8::encode_utf8(org)) + "/"@ + seg_spec(vstd::utf8::encode_utf8(class))
        + "/"@ + seg_spec(vstd::utf8::encode_utf8(name)) + "?limit="@ + decimal(limit as nat);
    let w = if write { base + "&write=true"@ } else { base };
    match kind {
        Some(k) => {
            let m = w + "&meta="@ + seg_spec(vstd::utf8::encode_utf8(k));
            match table {
                Some(t) => m + "&table="@ + seg_spec(vstd::utf8::encode_utf8(t)),
                None => m,
            }
        },
        None => w,
    }
}

pub open spec fn catalog_parts(meta: Option<(String, Option<String>)>) -> (Option<Seq<char>>, Option<Seq<char>>) {
    match meta {
        Some((k, t)) => (Some(k@), match t {
            Some(x) => Some(x@),
            None => None,
        }),
        None => (None, None),
    }
}

pub fn sql_path(org: &str, class: &str, name: &str, limit: usize, write: bool, meta: &Option<(String, Option<String>)>) -> (r: String)
    ensures
        r@ == sql_path_spec(org@, class@, name@, limit, write, catalog_parts(*meta).0, catalog_parts(*meta).1),
{
    let mut p = "/api/sql/".to_string();
    p.append(seg(org).as_str());
    p.append("/");
    p.append(seg(class).as_str());
    p.append("/");
    p.append(seg(name).as_str());
    p.append("?limit=");
    p.append(string_of(&decimal_chars(limit as u64)).as_str());
    if write {
        p.append("&write=true");
    }
    match meta {
        Some((kind, table)) => {
            p.append("&meta=");
            p.append(seg(kind.as_str()).as_str());
            match table {
                Some(t) => {
                    p.append("&table=");
                    p.append(seg(t.as_str()).as_str());
                },
                None => {},
            }
        },
        None => {},
    }
    p
}

/// The statement sent: the one given, or none for a catalog listing; a blank
/// statement is refused.
pub fn statement_body(statement: Option<&str>, catalog: bool) -> (r: Result<String, String>)
    ensures
        ({
            let sql = match statement {
                Some(s) => s@,
                None => ""@,
            };
            if !catalog && trim_ws(sql).len() == 0 {
                r matches Err(m) && m@ == "no statement given"@
            } else {
                r matches Ok(s) && s@ == sql
            }
        }),
{
    let sql = match statement {
        Some(s) => s.to_string(),
        None => "".to_string(),
    };
    if !catalog && chars_trim(&chars_of(sql.as_str())).len() == 0 {
        return Err("no statement given".to_string());
    }
    Ok(sql)
}

// ── the REPL ─────────────────────────────────────────────────────────────────

/// What the REPL does with a line.
#[derive(Debug, Clone, PartialEq, Eq)]
pub enum ReplAction {
    /// Input ended: finish the line and leave.
    EndOfInput,
    /// Leave.
    Quit,
    /// Read another line.
    More,
    /// List the tables.
    Tables,
    /// Describe this table's columns.
    Describe(String),
    /// Run this statement.
    Run(String),
}

/// A REPL action with its text as character sequences.
pub ghost enum ReplActionView {
    EndOfInput,
    Quit,
    More,
    Tables,
    Describe(Seq<char>),
    Run(Seq<char>),
}

impl View for ReplAction {
    type V = ReplActionView;

    open spec fn view(&self) -> ReplActionView {
        match self {
            ReplAction::EndOfInput => ReplActionView::EndOfInput,
            ReplAction::Quit => ReplActionView::Quit,
            ReplAction::More => ReplActionView::More,
            ReplAction::Tables => ReplActionView::Tables,
            ReplAction::Describe(t) => ReplActionView::Describe(t@),
            ReplAction::Run(s) => ReplActionView::Run(s@),
        }
    }
}

/// A REPL: statements end at a `;` and may span lines; `\dt` lists tables,
/// `\d <table>` describes one, `\q` leaves.
#[derive(Debug)]
pub struct Repl {
    /// The statement typed so far.
    pub buffer: String,
}

pub open spec fn is_quit(t: Seq<char>) -> bool {
    t == "\\q"@ || t == "quit"@ || t == "exit"@
}

/// What a line typed at an empty prompt means, when it is a command.
pub open spec fn command_spec(t: Seq<char>) -> Option<ReplActionView> {
    if t.len() == 0 {
        Some(ReplActionView::More)
    } else if is_quit(t) {
        Some(ReplActionView::Quit)
    } else if t == "\\dt"@ {
        Some(ReplActionView::Tables)
    } else {
        None
    }
}

/// One line (none at end of input) given the statement typed so far: the
/// statement typed afterwards, and what to do. Commands are only read at the
/// start of a statement; any other line joins the statement, which runs once
/// it ends with `;`.
pub open spec fn repl_next(buffer: Seq<char>, line: Option<Seq<char>>) -> (Seq<char>, ReplActionView) {
    match line {
        None => (buffer, ReplActionView::EndOfInput),
        Some(l) => {
            let t = trim_ws(l);
            if buffer.len() == 0 && command_spec(t) is Some {
                (buffer, command_spec(t)->0)
            } else if buffer.len() == 0 && starts_with(t, "\\d "@) {
                (buffer, ReplActionView::Describe(trim_ws(t.skip(3))))
            } else if ends_with(trim_end_ws(buffer + l), ";"@) {
                (Seq::empty(), ReplActionView::Run(buffer + l))
            } else {
                (buffer + l, ReplActionView::More)
            }
        },
    }
}

impl Repl {
    pub fn new() -> (r: Repl)
        ensures
            r.buffer@.len() == 0,
    {
        Repl { buffer: String::new() }
    }

    /// The prompt: the database's name at the start of a statement, a
    /// continuation mark inside one.
    pub fn prompt(&self, database: &str) -> (p: String)
        ensures
            p@ == if self.buffer@.len() == 0 { database@ + "=> "@ } else { "     -> "@ },
    {
        if self.buffer.as_str().unicode_len() == 0 {
            let mut p = database.to_string();
            p.append("=> ");
            p
        } else {
            "     -> ".to_string()
        }
    }

    /// Take one line (none at end of input). Commands are only read at the
    /// start of a statement; otherwise the line joins the statement, which
    /// runs once it ends with `;`.
    pub fn step(&mut self, line: Option<&str>) -> (a: ReplAction)
        ensures
            (final(self).buffer@, a@) == repl_next(old(self).buffer@, crate::config::opt_str(line)),
    {
        let l = match line {
            None => {
                return ReplAction::EndOfInput;
            },
            Some(l) => l,
        };
        let t = chars_trim(&chars_of(l));
        let ts = string_of(&t);
        let empty = self.buffer.as_str().unicode_len() == 0;
        if empty {
            if t.len() == 0 {
                return ReplAction::More;
            }
            if str_eq(ts.as_str(), "\\q") || str_eq(ts.as_str(), "quit") || str_eq(ts.as_str(), "exit") {
                return ReplAction::Quit;
            }
            if str_eq(ts.as_str(), "\\dt") {
                return ReplAction::Tables;
            }
            let prefix = chars_of("\\d ");
            if crate::text::chars_starts_with(&t, &prefix) {
                proof {
                    reveal_strlit("\\d ");
                }
                let rest = crate::text::sub_chars(&t, 3, t.len());
                assert(t@.subrange(3, t@.len() as int) =~= t@.skip(3));
                return ReplAction::Describe(string_of(&chars_trim(&rest)));
            }
        }
        self.buffer.append(l);
        let b = chars_trim_end(&chars_of(self.buffer.as_str()));
        let semi: Vec<char> = vec![';'];
        proof {
            reveal_strlit(";");
        }
        assert(semi@ =~= ";"@);
        if crate::text::chars_ends_with(&b, &semi) {
            let s = self.buffer.clone();
            self.buffer = String::new();
            ReplAction::Run(s)
        } else {
            ReplAction::More
        }
    }
}

/// A statement pasted over several lines runs as one, exactly as typed: once a
/// statement has begun, no line is read as a command, and the lines gather
/// until one leaves the statement ending in `;`.
pub proof fn law_a_statement_runs_as_typed(buffer: Seq<char>, line: Seq<char>)
    requires
        buffer.len() > 0,
    ensures
        ends_with(trim_end_ws(buffer + line), ";"@) ==> repl_next(buffer, Some(line)) == (
            Seq::<char>::empty(),
            ReplActionView::Run(buffer + line),
        ),
        !ends_with(trim_end_ws(buffer + line), ";"@) ==> repl_next(buffer, Some(line)) == (
            buffer + line,
            ReplActionView::More,
        ),
{
}

/// A line that completes a statement runs it at once, whether or not it is
/// the first line of the statement: for any statement typed so far (none
/// included), a line after which the text ends in `;`, ignoring trailing
/// whitespace, runs exactly the text typed, the line with it, and leaves the
/// prompt empty. The one exception is a `\d <table>` line typed at an empty
/// prompt, which describes that table.
pub proof fn law_a_completed_statement_runs_at_once(buffer: Seq<char>, line: Seq<char>)
    requires
        ends_with(trim_end_ws(buffer + line), ";"@),
        buffer.len() > 0 || !starts_with(trim_ws(line), "\\d "@),
    ensures
        repl_next(buffer, Some(line)) == (Seq::<char>::empty(), ReplActionView::Run(buffer + line)),
{
    if buffer.len() == 0 {
        reveal_strlit(";");
        reveal_strlit("\\q");
        reveal_strlit("quit");
        reveal_strlit("exit");
        reveal_strlit("\\dt");
        assert(buffer + line =~= line);
        let e = trim_end_ws(line);
        assert(e.skip(e.len() - 1)[0] == e.last());
        assert(";"@[0] == ';');
        crate::text::lemma_trim_keeps_last(line);
        let t = trim_ws(line);
        assert(t.last() == ';');
        assert(t.len() > 0);
        assert(t != "\\q"@ && t != "quit"@ && t != "exit"@ && t != "\\dt"@);
        assert(command_spec(t) is None);
    }
}

// ── printing a result ────────────────────────────────────────────────────────

/// A statement's result as the API returned it.
#[derive(Debug, Clone)]
pub struct SqlReply {
    pub columns: Vec<String>,
    pub rows: Vec<Vec<String>>,
    pub row_count: u64,
    pub raw: Option<String>,
    pub notice: Option<String>,
}

/// The summary under a result table: the row count, and how many were
/// shown when the cap cut some.
pub open spec fn count_line_spec(count: u64, shown: nat) -> Seq<char> {
    if count != shown {
        "\n"@ + decimal(count as nat) + " row(s), "@ + decimal(shown) + " shown — raise --limit for the rest"@
    } else {
        "\n"@ + decimal(count as nat) + " row(s)"@
    }
}

pub fn count_line(count: u64, shown: usize) -> (r: String)
    ensures
        r@ == count_line_spec(count, shown as nat),
{
    let mut r = "\n".to_string();
    r.append(string_of(&decimal_chars(count)).as_str());
    if count != shown as u64 {
        r.append(" row(s), ");
        r.append(string_of(&decimal_chars(shown as u64)).as_str());
        r.append(" shown — raise --limit for the rest");
    } else {
        r.append(" row(s)");
    }
    r
}

/// Lines as printed, each ended by a newline.
pub open spec fn printed(lines: Seq<Seq<char>>) -> Seq<char>
    decreases lines.len(),
{
    if lines.len() == 0 {
        Seq::empty()
    } else {
        printed(lines.drop_last()) + lines.last() + "\n"@
    }
}

/// What printing a statement's result writes: to standard output, and to
/// standard error. Raw output is printed as it came (ending in a newline);
/// a result without columns says so; rows are a table under their upper-cased
/// column names, with the count line under it. The client's notice goes to
/// standard error, except beside raw output.
pub open spec fn reply_text(r: SqlReply) -> (Seq<char>, Option<Seq<char>>) {
    match r.raw {
        Some(raw) => (raw@ + if raw@.len() > 0 && raw@.last() == '\n' { ""@ } else { "\n"@ }, None),
        None => (
            if r.columns@.len() == 0 {
                "ok — no rows returned\n"@
            } else {
                printed(crate::output::table_lines(
                    strs(r.columns@).map_values(|h: Seq<char>| crate::output::upper(h)),
                    crate::run::rows_view(r.rows@),
                    "(0 rows)"@,
                )) + count_line_spec(r.row_count, r.rows@.len()) + "\n"@
            },
            match r.notice {
                Some(n) => Some(trim_end_ws(n@)),
                None => None,
            },
        ),
    }
}

impl SqlReply {
    /// What printing this result writes to standard output and standard
    /// error. Rows must fit the columns (one extra cell at most), as a table
    /// prints them.
    pub fn render(self) -> (r: (String, Option<String>))
        requires
            self.raw is None ==> crate::output::rows_fit(strs(self.columns@), crate::run::rows_view(self.rows@)),
        ensures
            (r.0@, crate::run::opt_view(r.1)) == reply_text(self),
    {
        let ghost me = self;
        if let Some(raw) = self.raw {
            let mut out = raw;
            proof {
                reveal_strlit("");
                assert(out@ + ""@ =~= out@);
            }
            if crate::commands::needs_newline(out.as_str()) {
                out.append("\n");
            }
            return (out, None);
        }
        let notice = match self.notice {
            Some(n) => Some(string_of(&chars_trim_end(&chars_of(n.as_str())))),
            None => None,
        };
        if self.columns.len() == 0 {
            return ("ok — no rows returned\n".to_string(), notice);
        }
        let columns = self.columns;
        let mut headers: Vec<&str> = Vec::new();
        let mut i: usize = 0;
        while i < columns.len()
            invariant
                i <= columns.len(),
                headers@.map_values(|h: &str| h@) == strs(columns@).take(i as int),
            decreases columns.len() - i,
        {
            let ghost before = headers@.map_values(|h: &str| h@);
            headers.push(columns[i].as_str());
            assert(headers@.map_values(|h: &str| h@) =~= before.push(columns@[i as int]@));
            assert(strs(columns@).take(i + 1) =~= strs(columns@).take(i as int).push(columns@[i as int]@));
            i = i + 1;
        }
        assert(strs(columns@).take(columns.len() as int) =~= strs(columns@));
        let mut table = crate::output::Table::new(headers.as_slice()).empty_note("(0 rows)");
        assert(headers@.map_values(|h: &str| crate::output::upper(h@)) =~= strs(columns@).map_values(
            |h: Seq<char>| crate::output::upper(h),
        ));
        let mut rows = self.rows;
        let ghost all = crate::run::rows_view(rows@);
        let shown = rows.len();
        let mut k: usize = 0;
        assert(all.take(0) =~= table.rows_view());
        while rows.len() > 0
            invariant
                k + rows.len() == shown,
                shown == all.len(),
                table.rows_view() == all.take(k as int),
                crate::run::rows_view(rows@) == all.skip(k as int),
                table.headers_view() == strs(columns@).map_values(|h: Seq<char>| crate::output::upper(h)),
                table.empty@ == "(0 rows)"@,
            decreases rows.len(),
        {
            let ghost before = crate::run::rows_view(rows@);
            let row = rows.remove(0);
            assert(before[0] == strs(row@));
            assert(row@.map_values(|c: String| c@) =~= strs(row@));
            table.push(row);
            assert(all.take(k + 1) =~= all.take(k as int).push(all[k as int]));
            assert(all[k as int] == before[0]);
            assert(crate::run::rows_view(rows@) =~= before.drop_first());
            k = k + 1;
        }
        assert(all.take(shown as int) =~= all);
        let lines = table.lines();
        let ghost lv = lines@.map_values(|l: String| l@);
        let mut text = String::new();
        let mut j: usize = 0;
        assert(lv.take(0) =~= Seq::<Seq<char>>::empty());
        while j < lines.len()
            invariant
                j <= lines.len(),
                lv == lines@.map_values(|l: String| l@),
                text@ == printed(lv.take(j as int)),
            decreases lines.len() - j,
        {
            text.append(lines[j].as_str());
            text.append("\n");
            assert(lv.take(j + 1).drop_last() =~= lv.take(j as int));
            j = j + 1;
        }
        assert(lv.take(lines.len() as int) =~= lv);
        text.append(count_line(self.row_count, shown).as_str());
        text.append("\n");
        (text, notice)
    }
}


} // verus!
