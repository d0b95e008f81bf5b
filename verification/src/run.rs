//! The imperative run surface: one-shot commands in an app container and
//! statements against an app's managed database. This module holds what those
//! requests decide: who may make them, how a statement reaches the engine's
//! client, and how the client's output becomes rows.

use vstd::prelude::*;
use vstd::string::*;

use crate::envclass::EnvClass;
use crate::project::Role;
use crate::text::{
    chars_cut, chars_join, chars_lines, chars_of, chars_replace, chars_split_on, chars_words, cut,
    join, lines, replace_all, signed_decimal, split_on, string_of, trim_ws, words, chars_trim,
};

verus! {

broadcast use vstd::string::group_string_axioms;

/// The engines a managed database can run.
#[derive(Debug, Clone, Copy, PartialEq, Eq, Structural)]
pub enum DbEngine {
    Postgres,
    Mariadb,
    Valkey,
    Mongodb,
}

/// Cap on captured output, per stream, in bytes.
pub const MAX_OUTPUT: usize = 1048576;

/// Default row cap for a statement's result.
pub const DEFAULT_ROWS: usize = 200;

/// The role a caller needs to run anything against `class`: production is
/// admin-only, every other class is developer-and-up.
pub open spec fn min_role_spec(class: EnvClass) -> Role {
    if class == EnvClass::Production {
        Role::Admin
    } else {
        Role::Developer
    }
}

pub fn min_role(class: EnvClass) -> (r: Role)
    ensures
        r == min_role_spec(class),
{
    if class == EnvClass::Production {
        Role::Admin
    } else {
        Role::Developer
    }
}

/// The engine speaks SQL and returns rows.
pub open spec fn tabular_spec(engine: DbEngine) -> bool {
    engine == DbEngine::Postgres || engine == DbEngine::Mariadb
}

pub fn tabular(engine: DbEngine) -> (t: bool)
    ensures
        t == tabular_spec(engine),
{
    matches!(engine, DbEngine::Postgres | DbEngine::Mariadb)
}

/// The engine's name in lower case, as responses report it.
pub open spec fn engine_name_spec(engine: DbEngine) -> Seq<char> {
    match engine {
        DbEngine::Postgres => "postgres"@,
        DbEngine::Mariadb => "mariadb"@,
        DbEngine::Valkey => "valkey"@,
        DbEngine::Mongodb => "mongodb"@,
    }
}

/// The engine's name as written in a type (`Postgres`, ...), as errors name it.
pub open spec fn engine_type_name(engine: DbEngine) -> Seq<char> {
    match engine {
        DbEngine::Postgres => "Postgres"@,
        DbEngine::Mariadb => "Mariadb"@,
        DbEngine::Valkey => "Valkey"@,
        DbEngine::Mongodb => "Mongodb"@,
    }
}

pub fn engine_name(engine: DbEngine) -> (n: &'static str)
    ensures
        n@ == engine_name_spec(engine),
{
    match engine {
        DbEngine::Postgres => "postgres",
        DbEngine::Mariadb => "mariadb",
        DbEngine::Valkey => "valkey",
        DbEngine::Mongodb => "mongodb",
    }
}

fn engine_type_str(engine: DbEngine) -> (n: &'static str)
    ensures
        n@ == engine_type_name(engine),
{
    match engine {
        DbEngine::Postgres => "Postgres",
        DbEngine::Mariadb => "Mariadb",
        DbEngine::Valkey => "Valkey",
        DbEngine::Mongodb => "Mongodb",
    }
}

/// A statement collapsed to one audit-log line: its words joined by single
/// spaces, cut to `max` characters.
pub open spec fn one_line_spec(sql: Seq<char>, max: nat) -> Seq<char> {
    cut(join(words(sql), " "@), max)
}

pub fn one_line(sql: &str, max: usize) -> (r: String)
    ensures
        r@ == one_line_spec(sql@, max as nat),
{
    let v = chars_of(sql);
    let w = chars_words(&v);
    let sep = chars_of(" ");
    let flat = chars_join(&w, &sep);
    let out = chars_cut(&flat, max);
    string_of(&out)
}

/// A single-quoted SQL literal with each quote doubled.
pub open spec fn sql_literal_spec(s: Seq<char>) -> Seq<char> {
    seq!['\''] + replace_all(s, seq!['\''], seq!['\'', '\'']) + seq!['\'']
}

pub fn sql_literal(s: &str) -> (r: String)
    ensures
        r@ == sql_literal_spec(s@),
{
    let v = chars_of(s);
    let from: Vec<char> = vec!['\''];
    let to: Vec<char> = vec!['\'', '\''];
    assert(from@ =~= seq!['\'']);
    assert(to@ =~= seq!['\'', '\'']);
    let inner = chars_replace(&v, &from, &to);
    let mut out: Vec<char> = vec!['\''];
    assert(out@ =~= seq!['\'']);
    crate::text::push_chars(&mut out, &inner);
    out.push('\'');
    assert(out@ =~= sql_literal_spec(s@));
    string_of(&out)
}

/// A hexadecimal digit, lower case.
pub open spec fn hex_digit(d: int) -> char {
    if d < 10 {
        (('0' as int) + d) as char
    } else {
        (('a' as int) + d - 10) as char
    }
}

/// How a JSON string writes one character.
pub open spec fn json_escape(c: char) -> Seq<char> {
    if c == '"' {
        seq!['\\', '"']
    } else if c == '\\' {
        seq!['\\', '\\']
    } else if c == '\u{8}' {
        seq!['\\', 'b']
    } else if c == '\t' {
        seq!['\\', 't']
    } else if c == '\n' {
        seq!['\\', 'n']
    } else if c == '\u{c}' {
        seq!['\\', 'f']
    } else if c == '\r' {
        seq!['\\', 'r']
    } else if (c as int) < 0x20 {
        seq!['\\', 'u', '0', '0', hex_digit((c as int) / 16), hex_digit((c as int) % 16)]
    } else {
        seq![c]
    }
}

pub open spec fn json_escaped(s: Seq<char>) -> Seq<char>
    decreases s.len(),
{
    if s.len() == 0 {
        Seq::<char>::empty()
    } else {
        json_escaped(s.drop_last()) + json_escape(s.last())
    }
}

/// `s` as a JSON string: quoted, with `"`, `\` and the control characters
/// escaped.
pub open spec fn json_quoted(s: Seq<char>) -> Seq<char> {
    seq!['"'] + json_escaped(s) + seq!['"']
}

/// `serde_json::to_string` on a string. serde_json writes the string quoted,
/// escapes `"` and `\` with a backslash, writes `\b \t \n \f \r` for those
/// five control characters and `\u00xx` (lower-case hex) for the other
/// characters below U+0020, and copies every other character. Serialising a
/// string into its in-memory buffer has no failing step.
#[verifier::external_body]
fn json_string(s: &str) -> (r: Option<String>)
    ensures
        r is Some,
        r matches Some(t) ==> t@ == json_quoted(s@),
{
    serde_json::to_string(s).ok()
}

/// `s` as a JSON string literal.
pub fn json_literal(s: &str) -> (r: String)
    ensures
        r@ == json_quoted(s@),
{
    match json_string(s) {
        Some(t) => t,
        None => "\"\"".to_string(),
    }
}

/// Why a catalog listing could not be built.
#[derive(Debug, Clone, PartialEq, Eq)]
pub enum CatalogError {
    /// `columns` was asked for without a table.
    NeedsTable,
    /// The engine has no such listing; holds the listing's name and the engine.
    Unsupported(String, DbEngine),
}

impl CatalogError {
    /// The refusal, as the API words it.
    pub fn message(&self) -> (m: String)
        ensures
            m@ == catalog_error_message(*self),
    {
        match self {
            CatalogError::NeedsTable => "meta=columns needs table=".to_string(),
            CatalogError::Unsupported(kind, engine) => {
                let mut m = "meta=".to_string();
                m.append(kind.as_str());
                m.append(" is not supported for ");
                m.append(engine_type_str(*engine));
                m
            },
        }
    }
}

pub open spec fn catalog_error_message(e: CatalogError) -> Seq<char> {
    match e {
        CatalogError::NeedsTable => "meta=columns needs table="@,
        CatalogError::Unsupported(kind, engine) => "meta="@ + kind@ + " is not supported for "@
            + engine_type_name(engine),
    }
}

pub open spec fn pg_tables_query() -> Seq<char> {
    "SELECT table_schema, table_name \
     FROM information_schema.tables \
     WHERE table_schema NOT IN ('pg_catalog','information_schema') \
     ORDER BY 1, 2"@
}

pub open spec fn pg_columns_head() -> Seq<char> {
    "SELECT column_name, data_type, is_nullable, column_default \
     FROM information_schema.columns \
     WHERE table_name = "@
}

pub open spec fn columns_tail() -> Seq<char> {
    " ORDER BY ordinal_position"@
}

pub open spec fn maria_tables_query() -> Seq<char> {
    "SELECT table_name, table_rows \
     FROM information_schema.tables WHERE table_schema = DATABASE() ORDER BY 1"@
}

pub open spec fn maria_columns_head() -> Seq<char> {
    "SELECT column_name, column_type, is_nullable, column_default \
     FROM information_schema.columns \
     WHERE table_schema = DATABASE() AND table_name = "@
}

/// The listing exists in `engine`: `tables` everywhere, `columns` everywhere
/// but in valkey.
pub open spec fn catalog_supported(engine: DbEngine, kind: Seq<char>) -> bool {
    kind == "tables"@ || (kind == "columns"@ && engine != DbEngine::Valkey)
}

/// The catalog listing `kind` (`tables`, or `columns` of `table`) in
/// `engine`'s dialect, where there is one.
pub open spec fn catalog_text(engine: DbEngine, kind: Seq<char>, table: Option<Seq<char>>) -> Option<Seq<char>> {
    if kind == "tables"@ {
        match engine {
            DbEngine::Postgres => Some(pg_tables_query()),
            DbEngine::Mariadb => Some(maria_tables_query()),
            DbEngine::Valkey => Some("INFO keyspace"@),
            DbEngine::Mongodb => Some("db.getCollectionNames()"@),
        }
    } else if kind == "columns"@ && engine != DbEngine::Valkey {
        match table {
            None => None,
            Some(t) => match engine {
                DbEngine::Postgres => Some(pg_columns_head() + sql_literal_spec(t) + columns_tail()),
                DbEngine::Mariadb => Some(maria_columns_head() + sql_literal_spec(t) + columns_tail()),
                _ => Some("db.getCollection("@ + json_quoted(t) + ").findOne()"@),
            },
        }
    } else {
        None
    }
}

pub open spec fn opt_str_view(o: Option<&str>) -> Option<Seq<char>> {
    match o {
        Some(t) => Some(t@),
        None => None,
    }
}

/// The engine-specific "what's in here" query. `columns` without a table is
/// refused, and so is a listing the engine does not have, with its name and
/// the engine.
pub fn catalog_query(engine: DbEngine, kind: &str, table: Option<&str>) -> (r: Result<String, CatalogError>)
    ensures
        match r {
            Ok(q) => catalog_text(engine, kind@, opt_str_view(table)) == Some(q@),
            Err(CatalogError::NeedsTable) => catalog_supported(engine, kind@) && kind@ != "tables"@
                && table is None,
            Err(CatalogError::Unsupported(k, e)) => !catalog_supported(engine, kind@) && k@ == kind@
                && e == engine,
        },
        catalog_text(engine, kind@, opt_str_view(table)) is Some <==> r is Ok,
{
    let is_tables = crate::text::str_eq(kind, "tables");
    let is_columns = crate::text::str_eq(kind, "columns");
    if is_tables {
        let q = match engine {
            DbEngine::Postgres => "SELECT table_schema, table_name \
                 FROM information_schema.tables \
                 WHERE table_schema NOT IN ('pg_catalog','information_schema') \
                 ORDER BY 1, 2".to_string(),
            DbEngine::Mariadb => "SELECT table_name, table_rows \
                 FROM information_schema.tables WHERE table_schema = DATABASE() ORDER BY 1".to_string(),
            DbEngine::Valkey => "INFO keyspace".to_string(),
            DbEngine::Mongodb => "db.getCollectionNames()".to_string(),
        };
        return Ok(q);
    }
    if is_columns && engine != DbEngine::Valkey {
        let t = match table {
            None => {
                return Err(CatalogError::NeedsTable);
            },
            Some(t) => t,
        };
        let q = match engine {
            DbEngine::Postgres => {
                let mut q = "SELECT column_name, data_type, is_nullable, column_default \
                     FROM information_schema.columns \
                     WHERE table_name = ".to_string();
                let lit = sql_literal(t);
                q.append(lit.as_str());
                q.append(" ORDER BY ordinal_position");
                q
            },
            DbEngine::Mariadb => {
                let mut q = "SELECT column_name, column_type, is_nullable, column_default \
                     FROM information_schema.columns \
                     WHERE table_schema = DATABASE() AND table_name = ".to_string();
                let lit = sql_literal(t);
                q.append(lit.as_str());
                q.append(" ORDER BY ordinal_position");
                q
            },
            _ => {
                let mut q = "db.getCollection(".to_string();
                let lit = json_literal(t);
                q.append(lit.as_str());
                q.append(").findOne()");
                q
            },
        };
        return Ok(q);
    }
    Err(CatalogError::Unsupported(kind.to_string(), engine))
}

/// The credentials one statement runs with.
#[derive(Debug, Clone)]
pub struct DbCreds {
    pub engine: DbEngine,
    pub database: String,
    pub user: String,
    pub password: String,
}

/// The views of a list of strings.
pub open spec fn strs(v: Seq<String>) -> Seq<Seq<char>> {
    v.map_values(|s: String| s@)
}

pub open spec fn maria_script() -> Seq<char> {
    "if command -v mariadb >/dev/null 2>&1; then bin=mariadb; else bin=mysql; fi; \
     user=$1; db=$2; shift 2; \
     exec \"$bin\" --batch --raw -u \"$user\" -D \"$db\" \"$@\""@
}

pub open spec fn mongo_url(c: DbCreds) -> Seq<char> {
    "mongodb://"@ + c.user@ + ":"@ + c.password@ + "@localhost:27017/"@ + c.database@
        + "?authSource="@ + c.database@
}

/// The client's argv. Read-only is set when connecting (postgres through the
/// environment, mariadb through `--init-command`), never in the script.
pub open spec fn invocation_argv(c: DbCreds, sql: Seq<char>, write: bool) -> Seq<Seq<char>> {
    match c.engine {
        DbEngine::Postgres => seq![
            "psql"@, "--csv"@, "-q"@, "--no-psqlrc"@, "-v"@, "ON_ERROR_STOP=1"@,
            "--single-transaction"@, "-U"@, c.user@, "-d"@, c.database@, "-f"@, "-"@,
        ],
        DbEngine::Mariadb => seq!["sh"@, "-c"@, maria_script(), "majnet-sql"@, c.user@, c.database@]
            + if write {
            Seq::<Seq<char>>::empty()
        } else {
            seq!["--init-command"@, "SET SESSION TRANSACTION READ ONLY"@]
        },
        DbEngine::Valkey => seq![
            "valkey-cli"@, "--user"@, c.user@, "--pass"@, c.password@, "--no-auth-warning"@,
        ],
        DbEngine::Mongodb => seq!["mongosh"@, mongo_url(c), "--quiet"@],
    }
}

/// The client's environment: the password, and postgres's read-only option.
pub open spec fn invocation_env(c: DbCreds, write: bool) -> Seq<Seq<char>> {
    match c.engine {
        DbEngine::Postgres => seq!["PGPASSWORD="@ + c.password@] + if write {
            Seq::<Seq<char>>::empty()
        } else {
            seq!["PGOPTIONS=-c default_transaction_read_only=on"@]
        },
        DbEngine::Mariadb => seq!["MYSQL_PWD="@ + c.password@],
        _ => Seq::<Seq<char>>::empty(),
    }
}

/// What the client reads on stdin: the statement and nothing else, for
/// every engine — a statement never travels inside an argv string. The line
/// clients (valkey-cli, mongosh) get it ended by a newline.
pub open spec fn invocation_stdin(c: DbCreds, sql: Seq<char>) -> Option<Seq<char>> {
    match c.engine {
        DbEngine::Postgres | DbEngine::Mariadb => Some(sql),
        DbEngine::Valkey | DbEngine::Mongodb => Some(sql + "\n"@),
    }
}

pub open spec fn opt_string_view(o: Option<String>) -> Option<Seq<char>> {
    match o {
        Some(t) => Some(t@),
        None => None,
    }
}

fn owned(s: &str) -> (r: String)
    ensures
        r@ == s@,
{
    s.to_string()
}

fn joined(a: &str, b: &str) -> (r: String)
    ensures
        r@ == a@ + b@,
{
    let mut r = a.to_string();
    r.append(b);
    r
}

/// (argv, env, stdin) for one statement against one engine. The statement
/// travels on stdin, never inside an argv string: no argv depends on it.
pub fn client_invocation(target: &DbCreds, sql: &str, write: bool) -> (r: (Vec<String>, Vec<String>, Option<String>))
    ensures
        strs(r.0@) == invocation_argv(*target, sql@, write),
        strs(r.1@) == invocation_env(*target, write),
        opt_string_view(r.2) == invocation_stdin(*target, sql@),
{
    let mut cmd: Vec<String> = Vec::new();
    let mut env: Vec<String> = Vec::new();
    let stdin: Option<String>;
    match target.engine {
        DbEngine::Postgres => {
            env.push(joined("PGPASSWORD=", target.password.as_str()));
            if !write {
                env.push(owned("PGOPTIONS=-c default_transaction_read_only=on"));
            }
            cmd.push(owned("psql"));
            cmd.push(owned("--csv"));
            cmd.push(owned("-q"));
            cmd.push(owned("--no-psqlrc"));
            cmd.push(owned("-v"));
            cmd.push(owned("ON_ERROR_STOP=1"));
            cmd.push(owned("--single-transaction"));
            cmd.push(owned("-U"));
            cmd.push(target.user.clone());
            cmd.push(owned("-d"));
            cmd.push(target.database.clone());
            cmd.push(owned("-f"));
            cmd.push(owned("-"));
            stdin = Some(owned(sql));
        },
        DbEngine::Mariadb => {
            cmd.push(owned("sh"));
            cmd.push(owned("-c"));
            cmd.push(owned("if command -v mariadb >/dev/null 2>&1; then bin=mariadb; else bin=mysql; fi; \
                   user=$1; db=$2; shift 2; \
                   exec \"$bin\" --batch --raw -u \"$user\" -D \"$db\" \"$@\""));
            cmd.push(owned("majnet-sql"));
            cmd.push(target.user.clone());
            cmd.push(target.database.clone());
            if !write {
                cmd.push(owned("--init-command"));
                cmd.push(owned("SET SESSION TRANSACTION READ ONLY"));
            }
            env.push(joined("MYSQL_PWD=", target.password.as_str()));
            stdin = Some(owned(sql));
        },
        DbEngine::Valkey => {
            cmd.push(owned("valkey-cli"));
            cmd.push(owned("--user"));
            cmd.push(target.user.clone());
            cmd.push(owned("--pass"));
            cmd.push(target.password.clone());
            cmd.push(owned("--no-auth-warning"));
            stdin = Some(joined(sql, "\n"));
        },
        DbEngine::Mongodb => {
            cmd.push(owned("mongosh"));
            let mut url = joined("mongodb://", target.user.as_str());
            url.append(":");
            url.append(target.password.as_str());
            url.append("@localhost:27017/");
            url.append(target.database.as_str());
            url.append("?authSource=");
            url.append(target.database.as_str());
            cmd.push(url);
            cmd.push(owned("--quiet"));
            stdin = Some(joined(sql, "\n"));
        },
    }
    assert(strs(cmd@) =~= invocation_argv(*target, sql@, write));
    assert(strs(env@) =~= invocation_env(*target, write));
    (cmd, env, stdin)
}

/// A statement never reaches a command line: two statements against the same
/// target give the same argv and environment, and the statement is what the
/// client reads on stdin (newline-ended for the line clients).
pub proof fn law_a_statement_travels_on_stdin(c: DbCreds, sql: Seq<char>, other: Seq<char>, write: bool)
    ensures
        invocation_argv(c, sql, write) == invocation_argv(c, other, write),
        invocation_stdin(c, sql) == Some(sql) || invocation_stdin(c, sql) == Some(sql + "\n"@),
{
}

// ── output parsing ───────────────────────────────────────────────────────────

/// The views of a list of rows.
pub open spec fn rows_view(v: Seq<Vec<String>>) -> Seq<Seq<Seq<char>>> {
    v.map_values(|r: Vec<String>| strs(r@))
}

/// What the escape `\c` stands for, when `c` is one `mysql --batch` escapes.
pub open spec fn tsv_escaped(c: char) -> Option<char> {
    if c == 'n' {
        Some('\n')
    } else if c == 't' {
        Some('\t')
    } else if c == '\\' {
        Some('\\')
    } else {
        None
    }
}

/// One `mysql --batch` value unescaped, one escape at a time from the left:
/// `\n`, `\t` and `\\` stand for a newline, a tab and a backslash; any other
/// character, a lone backslash included, stands for itself.
pub open spec fn tsv_unescape(f: Seq<char>) -> Seq<char>
    decreases f.len(),
{
    if f.len() == 0 {
        Seq::empty()
    } else if f.len() >= 2 && f[0] == '\\' && tsv_escaped(f[1]) is Some {
        seq![tsv_escaped(f[1])->0] + tsv_unescape(f.skip(2))
    } else {
        seq![f[0]] + tsv_unescape(f.skip(1))
    }
}

fn tsv_unescape_exec(f: &Vec<char>) -> (out: Vec<char>)
    ensures
        out@ == tsv_unescape(f@),
{
    let mut out: Vec<char> = Vec::new();
    let mut i: usize = 0;
    assert(f@.skip(0) =~= f@);
    while i < f.len()
        invariant
            i <= f.len(),
            out@ + tsv_unescape(f@.skip(i as int)) == tsv_unescape(f@),
        decreases f.len() - i,
    {
        let ghost rest = f@.skip(i as int);
        let c = f[i];
        if c == '\\' && i + 1 < f.len() && (f[i + 1] == 'n' || f[i + 1] == 't' || f[i + 1] == '\\') {
            let d = f[i + 1];
            let e = if d == 'n' { '\n' } else if d == 't' { '\t' } else { '\\' };
            assert(rest[0] == c && rest[1] == d);
            assert(rest.skip(2) =~= f@.skip(i + 2));
            out.push(e);
            i = i + 2;
        } else {
            assert(rest[0] == c);
            assert(rest.skip(1) =~= f@.skip(i + 1));
            out.push(c);
            i = i + 1;
        }
    }
    assert(f@.skip(i as int) =~= Seq::<char>::empty());
    assert(out@ + Seq::<char>::empty() =~= out@);
    out
}

/// The values of one tab-separated line.
pub open spec fn tsv_fields(line: Seq<char>) -> Seq<Seq<char>> {
    split_on(line, '\t').map_values(|f: Seq<char>| tsv_unescape(f))
}

/// `mysql --batch` output: the first line is the header, each further line a
/// row.
pub open spec fn parse_tsv_spec(text: Seq<char>) -> (Seq<Seq<char>>, Seq<Seq<Seq<char>>>) {
    let ls = lines(text);
    if ls.len() == 0 {
        (Seq::<Seq<char>>::empty(), Seq::<Seq<Seq<char>>>::empty())
    } else {
        (tsv_fields(ls[0]), ls.drop_first().map_values(|l: Seq<char>| tsv_fields(l)))
    }
}

fn tsv_fields_exec(line: &Vec<char>) -> (out: Vec<String>)
    ensures
        strs(out@) == tsv_fields(line@),
{
    let pieces = chars_split_on(line, '\t');
    let mut out: Vec<String> = Vec::new();
    let mut i: usize = 0;
    while i < pieces.len()
        invariant
            i <= pieces.len(),
            pieces@.map_values(|v: Vec<char>| v@) == split_on(line@, '\t'),
            strs(out@) == split_on(line@, '\t').take(i as int).map_values(|f: Seq<char>| tsv_unescape(f)),
        decreases pieces.len() - i,
    {
        let d = tsv_unescape_exec(&pieces[i]);
        assert(pieces@[i as int]@ == split_on(line@, '\t')[i as int]);
        let ghost before = strs(out@);
        out.push(string_of(&d));
        assert(split_on(line@, '\t').take(i + 1) =~= split_on(line@, '\t').take(i as int).push(split_on(line@, '\t')[i as int]));
        assert(strs(out@) =~= before.push(tsv_unescape(split_on(line@, '\t')[i as int])));
        i = i + 1;
    }
    assert(split_on(line@, '\t').take(pieces.len() as int) =~= split_on(line@, '\t'));
    out
}

/// `mysql --batch` output as a header and rows.
pub fn parse_tsv(text: &str) -> (r: (Vec<String>, Vec<Vec<String>>))
    ensures
        (strs(r.0@), rows_view(r.1@)) == parse_tsv_spec(text@),
{
    let v = chars_of(text);
    let ls = chars_lines(&v);
    if ls.len() == 0 {
        let h: Vec<String> = Vec::new();
        let rows: Vec<Vec<String>> = Vec::new();
        assert(strs(h@) =~= Seq::<Seq<char>>::empty());
        assert(rows_view(rows@) =~= Seq::<Seq<Seq<char>>>::empty());
        return (h, rows);
    }
    let ghost lsv = lines(text@);
    assert(ls@[0]@ == lsv[0]);
    let header = tsv_fields_exec(&ls[0]);
    let mut rows: Vec<Vec<String>> = Vec::new();
    let mut i: usize = 1;
    while i < ls.len()
        invariant
            1 <= i <= ls.len(),
            ls@.map_values(|v: Vec<char>| v@) == lsv,
            rows_view(rows@) == lsv.drop_first().take(i - 1).map_values(|l: Seq<char>| tsv_fields(l)),
        decreases ls.len() - i,
    {
        assert(ls@[i as int]@ == lsv[i as int]);
        let f = tsv_fields_exec(&ls[i]);
        let ghost before = rows_view(rows@);
        rows.push(f);
        assert(lsv.drop_first().take(i as int) =~= lsv.drop_first().take(i - 1).push(lsv[i as int]));
        assert(rows_view(rows@) =~= before.push(tsv_fields(lsv[i as int])));
        i = i + 1;
    }
    assert(lsv.drop_first().take(ls.len() - 1) =~= lsv.drop_first());
    (header, rows)
}

/// Where the CSV reader stands: the finished records, the record being read,
/// the field being read, and whether it is inside quotes.
pub type CsvState = (Seq<Seq<Seq<char>>>, Seq<Seq<char>>, Seq<char>, bool);

/// The CSV reader run from position `i` of `s` to the end. Inside quotes a
/// doubled quote is one quote and a single one closes them; outside, a quote
/// opens a field only at its start, `,` ends a field, `\n` ends a record and
/// `\r` is dropped.
pub open spec fn csv_from(s: Seq<char>, i: int, st: CsvState) -> CsvState
    decreases s.len() - i,
{
    if i >= s.len() || i < 0 {
        st
    } else {
        let (records, record, field, quoted) = st;
        let c = s[i];
        if quoted {
            if c == '"' {
                if i + 1 < s.len() && s[i + 1] == '"' {
                    csv_from(s, i + 2, (records, record, field.push('"'), true))
                } else {
                    csv_from(s, i + 1, (records, record, field, false))
                }
            } else {
                csv_from(s, i + 1, (records, record, field.push(c), true))
            }
        } else if c == '"' && field.len() == 0 {
            csv_from(s, i + 1, (records, record, field, true))
        } else if c == ',' {
            csv_from(s, i + 1, (records, record.push(field), Seq::<char>::empty(), false))
        } else if c == '\r' {
            csv_from(s, i + 1, st)
        } else if c == '\n' {
            csv_from(s, i + 1, (records.push(record.push(field)), Seq::<Seq<char>>::empty(), Seq::<char>::empty(), false))
        } else {
            csv_from(s, i + 1, (records, record, field.push(c), false))
        }
    }
}

/// All records of `s`: those the reader finished, and the last one if the
/// text does not end with a line break.
pub open spec fn csv_records(s: Seq<char>) -> Seq<Seq<Seq<char>>> {
    let (records, record, field, _quoted) = csv_from(
        s,
        0,
        (Seq::<Seq<Seq<char>>>::empty(), Seq::<Seq<char>>::empty(), Seq::<char>::empty(), false),
    );
    if field.len() > 0 || record.len() > 0 {
        records.push(record.push(field))
    } else {
        records
    }
}

/// RFC 4180 CSV as `psql --csv` writes it: the first record is the header,
/// the rest are rows; no records, no header.
pub open spec fn parse_csv_spec(s: Seq<char>) -> (Seq<Seq<char>>, Seq<Seq<Seq<char>>>) {
    let all = csv_records(s);
    if s.len() == 0 || all.len() == 0 {
        (Seq::<Seq<char>>::empty(), Seq::<Seq<Seq<char>>>::empty())
    } else {
        (all[0], all.drop_first())
    }
}

// ── writing CSV, and reading it back ───────────────────────────────────────

/// A field's characters with each double quote doubled.
pub open spec fn csv_escape(f: Seq<char>) -> Seq<char>
    decreases f.len(),
{
    if f.len() == 0 {
        Seq::empty()
    } else {
        (if f[0] == '"' { seq!['"', '"'] } else { seq![f[0]] }) + csv_escape(f.skip(1))
    }
}

/// A field written quoted.
pub open spec fn csv_quoted(f: Seq<char>) -> Seq<char> {
    seq!['"'] + csv_escape(f) + seq!['"']
}

/// A record's fields written quoted and separated by `,`.
pub open spec fn csv_fields(r: Seq<Seq<char>>) -> Seq<char>
    decreases r.len(),
{
    if r.len() == 0 {
        Seq::empty()
    } else if r.len() == 1 {
        csv_quoted(r[0])
    } else {
        csv_quoted(r[0]) + seq![','] + csv_fields(r.skip(1))
    }
}

/// Records written as CSV, each on a line ended by `\n`.
pub open spec fn csv_write(recs: Seq<Seq<Seq<char>>>) -> Seq<char>
    decreases recs.len(),
{
    if recs.len() == 0 {
        Seq::empty()
    } else {
        csv_fields(recs[0]) + seq!['\n'] + csv_write(recs.skip(1))
    }
}

/// `w` stands in `s` at position `j`.
pub open spec fn stands_at(s: Seq<char>, j: int, w: Seq<char>) -> bool {
    0 <= j && j + w.len() <= s.len() && forall|k: int| 0 <= k < w.len() ==> s[j + k] == #[trigger] w[k]
}

proof fn lemma_stands_split(s: Seq<char>, j: int, a: Seq<char>, b: Seq<char>)
    requires
        stands_at(s, j, a + b),
    ensures
        stands_at(s, j, a),
        stands_at(s, j + a.len(), b),
{
    assert forall|k: int| 0 <= k < a.len() implies s[j + k] == #[trigger] a[k] by {
        assert((a + b)[k] == a[k]);
    }
    assert forall|k: int| 0 <= k < b.len() implies s[j + a.len() + k] == #[trigger] b[k] by {
        assert((a + b)[a.len() + k] == b[k]);
    }
}

/// Inside quotes, an escaped field reads back as the field up to its closing
/// quote, when what follows that quote is not another quote.
proof fn lemma_csv_escaped(s: Seq<char>, j: int, f: Seq<char>, st: CsvState)
    requires
        stands_at(s, j, csv_escape(f) + seq!['"']),
        j + csv_escape(f).len() + 1 >= s.len() || s[j + csv_escape(f).len() + 1] != '"',
        st.3,
    ensures
        csv_from(s, j, st) == csv_from(s, j + csv_escape(f).len() + 1, (st.0, st.1, st.2 + f, false)),
    decreases f.len(),
{
    let e = csv_escape(f);
    if f.len() == 0 {
        assert(e =~= Seq::<char>::empty());
        assert((e + seq!['"'])[0] == '"');
        assert(st.2 + f =~= st.2);
    } else {
        let head: Seq<char> = if f[0] == '"' { seq!['"', '"'] } else { seq![f[0]] };
        let rest = csv_escape(f.skip(1));
        assert(e == head + rest);
        assert(e + seq!['"'] =~= head + (rest + seq!['"']));
        lemma_stands_split(s, j, head, rest + seq!['"']);
        assert(s[j] == head[0]);
        if f[0] == '"' {
            assert(s[j + 1] == head[1]);
            lemma_csv_escaped(s, j + 2, f.skip(1), (st.0, st.1, st.2.push('"'), true));
            assert(st.2.push('"') + f.skip(1) =~= st.2 + f);
        } else {
            lemma_csv_escaped(s, j + 1, f.skip(1), (st.0, st.1, st.2.push(f[0]), true));
            assert(st.2.push(f[0]) + f.skip(1) =~= st.2 + f);
        }
    }
}

/// A record's fields read back as the record, its last field still open,
/// when they end the text or a line.
proof fn lemma_csv_fields(s: Seq<char>, j: int, r: Seq<Seq<char>>, records: Seq<Seq<Seq<char>>>, record: Seq<Seq<char>>)
    requires
        r.len() > 0,
        stands_at(s, j, csv_fields(r)),
        j + csv_fields(r).len() == s.len() || s[j + csv_fields(r).len()] == '\n',
    ensures
        csv_from(s, j, (records, record, Seq::<char>::empty(), false)) == csv_from(
            s,
            j + csv_fields(r).len(),
            (records, record + r.drop_last(), r.last(), false),
        ),
    decreases r.len(),
{
    let q = csv_quoted(r[0]);
    let e = csv_escape(r[0]);
    assert(q =~= seq!['"'] + (e + seq!['"']));
    if r.len() == 1 {
        assert(csv_fields(r) == q);
    } else {
        assert(csv_fields(r) == q + seq![','] + csv_fields(r.skip(1)));
        assert(csv_fields(r) =~= q + (seq![','] + csv_fields(r.skip(1))));
        lemma_stands_split(s, j, q, seq![','] + csv_fields(r.skip(1)));
    }
    lemma_stands_split(s, j, seq!['"'], e + seq!['"']);
    assert(seq!['"'][0] == '"');
    assert(s[j] == '"');
    let after = j + 1 + e.len() + 1;
    assert(q.len() == e.len() + 2);
    if r.len() > 1 {
        lemma_stands_split(s, j + q.len(), seq![','], csv_fields(r.skip(1)));
        assert(seq![','][0] == ',');
        assert(s[after] == ',');
    }
    lemma_csv_escaped(s, j + 1, r[0], (records, record, Seq::<char>::empty(), true));
    assert(Seq::<char>::empty() + r[0] =~= r[0]);
    if r.len() == 1 {
        assert(r.drop_last() =~= Seq::<Seq<char>>::empty());
        assert(record + r.drop_last() =~= record);
    } else {
        lemma_csv_fields(s, after + 1, r.skip(1), records, record.push(r[0]));
        assert(record.push(r[0]) + r.skip(1).drop_last() =~= record + r.drop_last());
        assert(r.skip(1).last() == r.last());
    }
}

/// Whole lines of records read back as those records.
proof fn lemma_csv_lines(s: Seq<char>, j: int, recs: Seq<Seq<Seq<char>>>, records: Seq<Seq<Seq<char>>>)
    requires
        forall|k: int| 0 <= k < recs.len() ==> (#[trigger] recs[k]).len() > 0,
        stands_at(s, j, csv_write(recs)),
    ensures
        csv_from(s, j, (records, Seq::<Seq<char>>::empty(), Seq::<char>::empty(), false)) == csv_from(
            s,
            j + csv_write(recs).len(),
            (records + recs, Seq::<Seq<char>>::empty(), Seq::<char>::empty(), false),
        ),
    decreases recs.len(),
{
    if recs.len() == 0 {
        assert(records + recs =~= records);
    } else {
        let r = recs[0];
        let line = csv_fields(r) + seq!['\n'];
        assert(csv_write(recs) =~= line + csv_write(recs.skip(1)));
        lemma_stands_split(s, j, line, csv_write(recs.skip(1)));
        lemma_stands_split(s, j, csv_fields(r), seq!['\n']);
        let n = j + csv_fields(r).len();
        assert(seq!['\n'][0] == '\n');
        assert(s[n] == '\n');
        lemma_csv_fields(s, j, r, records, Seq::<Seq<char>>::empty());
        assert(Seq::<Seq<char>>::empty() + r.drop_last() =~= r.drop_last());
        assert(r.drop_last().push(r.last()) =~= r);
        assert forall|k: int| 0 <= k < recs.skip(1).len() implies (#[trigger] recs.skip(1)[k]).len() > 0 by {
            assert(recs.skip(1)[k] == recs[k + 1]);
        }
        lemma_csv_lines(s, n + 1, recs.skip(1), records.push(r));
        assert(records.push(r) + recs.skip(1) =~= records + recs);
    }
}

/// CSV written field by field, every field quoted, reads back as what was
/// written: the first record is the header and the rest are the rows. With
/// the final line break left off the same holds, unless the last record is a
/// single empty field (which then writes no record at all).
pub proof fn law_written_csv_reads_back(recs: Seq<Seq<Seq<char>>>)
    requires
        recs.len() > 0,
        forall|k: int| 0 <= k < recs.len() ==> (#[trigger] recs[k]).len() > 0,
    ensures
        parse_csv_spec(csv_write(recs)) == (recs[0], recs.drop_first()),
        recs.last() != seq![Seq::<char>::empty()] ==> parse_csv_spec(csv_write(recs).drop_last()) == (
            recs[0],
            recs.drop_first(),
        ),
{
    let s = csv_write(recs);
    let init = (Seq::<Seq<Seq<char>>>::empty(), Seq::<Seq<char>>::empty(), Seq::<char>::empty(), false);
    assert(stands_at(s, 0, s));
    lemma_csv_lines(s, 0, recs, Seq::<Seq<Seq<char>>>::empty());
    assert(Seq::<Seq<Seq<char>>>::empty() + recs =~= recs);
    assert(s.len() > 0) by {
        assert(s =~= csv_fields(recs[0]) + seq!['\n'] + csv_write(recs.skip(1)));
    }
    assert(csv_records(s) == recs);
    // Without the final line break.
    let n = recs.len() - 1;
    let init_recs = recs.take(n);
    let last = recs[n];
    assert forall|k: int| 0 <= k < init_recs.len() implies (#[trigger] init_recs[k]).len() > 0 by {
        assert(init_recs[k] == recs[k]);
    }
    lemma_csv_write_last(recs);
    let t = s.drop_last();
    assert(t =~= csv_write(init_recs) + csv_fields(last));
    assert(stands_at(t, 0, t));
    lemma_stands_split(t, 0, csv_write(init_recs), csv_fields(last));
    lemma_csv_lines(t, 0, init_recs, Seq::<Seq<Seq<char>>>::empty());
    let j = csv_write(init_recs).len() as int;
    lemma_csv_fields(t, j, last, init_recs, Seq::<Seq<char>>::empty());
    assert(Seq::<Seq<Seq<char>>>::empty() + init_recs =~= init_recs);
    assert(Seq::<Seq<char>>::empty() + last.drop_last() =~= last.drop_last());
    assert(last.drop_last().push(last.last()) =~= last);
    if last != seq![Seq::<char>::empty()] {
        if last.len() == 1 {
            assert(last.last().len() > 0) by {
                if last.last().len() == 0 {
                    assert(last[0] =~= Seq::<char>::empty());
                    assert(last =~= seq![Seq::<char>::empty()]);
                }
            }
        }
        assert(csv_records(t) =~= init_recs.push(last));
        assert(init_recs.push(last) =~= recs);
        assert(t.len() > 0) by {
            lemma_csv_quoted_len(last[0]);
            lemma_csv_fields_len(last);
        }
    }
}

proof fn lemma_csv_quoted_len(f: Seq<char>)
    ensures
        csv_quoted(f).len() >= 2,
{
}

proof fn lemma_csv_fields_len(r: Seq<Seq<char>>)
    requires
        r.len() > 0,
    ensures
        csv_fields(r).len() >= 2,
{
    lemma_csv_quoted_len(r[0]);
    if r.len() > 1 {
        assert(csv_fields(r) == csv_quoted(r[0]) + seq![','] + csv_fields(r.skip(1)));
    }
}

/// Writing all records is writing all but the last, then the last.
proof fn lemma_csv_write_last(recs: Seq<Seq<Seq<char>>>)
    requires
        recs.len() > 0,
    ensures
        csv_write(recs) == csv_write(recs.take(recs.len() - 1)) + csv_fields(recs.last()) + seq!['\n'],
    decreases recs.len(),
{
    if recs.len() == 1 {
        assert(recs.take(0) =~= Seq::<Seq<Seq<char>>>::empty());
        assert(recs.skip(1) =~= Seq::<Seq<Seq<char>>>::empty());
        assert(csv_write(recs.skip(1)) =~= Seq::<char>::empty());
        assert(csv_write(recs) =~= csv_fields(recs[0]) + seq!['\n']);
        assert(csv_write(recs.take(0)) =~= Seq::<char>::empty());
        assert(csv_write(recs) =~= csv_write(recs.take(recs.len() - 1)) + csv_fields(recs.last()) + seq!['\n']);
    } else {
        let tail = recs.skip(1);
        lemma_csv_write_last(tail);
        assert(tail.take(tail.len() - 1) =~= recs.take(recs.len() - 1).skip(1));
        assert(recs.take(recs.len() - 1)[0] == recs[0]);
        assert(tail.last() == recs.last());
        assert(csv_write(recs.take(recs.len() - 1)) == csv_fields(recs[0]) + seq!['\n'] + csv_write(
            recs.take(recs.len() - 1).skip(1),
        ));
        assert(csv_write(recs) =~= csv_write(recs.take(recs.len() - 1)) + csv_fields(recs.last()) + seq!['\n']);
    }
}

/// The records, the record and the field of the reader's state as values.
spec fn csv_view(records: Seq<Vec<String>>, record: Seq<String>, field: Seq<char>, quoted: bool) -> CsvState {
    (rows_view(records), strs(record), field, quoted)
}

/// CSV text as a header and rows.
pub fn parse_csv(text: &str) -> (r: (Vec<String>, Vec<Vec<String>>))
    ensures
        (strs(r.0@), rows_view(r.1@)) == parse_csv_spec(text@),
{
    let s = chars_of(text);
    let mut records: Vec<Vec<String>> = Vec::new();
    let mut record: Vec<String> = Vec::new();
    let mut field: Vec<char> = Vec::new();
    let mut quoted = false;
    let ghost init: CsvState = (Seq::<Seq<Seq<char>>>::empty(), Seq::<Seq<char>>::empty(), Seq::<char>::empty(), false);
    assert(csv_view(records@, record@, field@, quoted) =~= init);
    let mut i: usize = 0;
    while i < s.len()
        invariant
            s@ == text@,
            i <= s.len(),
            csv_from(s@, i as int, csv_view(records@, record@, field@, quoted)) == csv_from(s@, 0, init),
        decreases s.len() - i,
    {
        let c = s[i];
        let ghost before = csv_view(records@, record@, field@, quoted);
        if quoted {
            if c == '"' {
                if i + 1 < s.len() && s[i + 1] == '"' {
                    field.push('"');
                    i = i + 2;
                } else {
                    quoted = false;
                    i = i + 1;
                }
            } else {
                field.push(c);
                i = i + 1;
            }
        } else if c == '"' && field.len() == 0 {
            quoted = true;
            i = i + 1;
        } else if c == ',' {
            let f = string_of(&field);
            record.push(f);
            field = Vec::new();
            assert(strs(record@) =~= before.1.push(before.2));
            i = i + 1;
        } else if c == '\r' {
            i = i + 1;
        } else if c == '\n' {
            let f = string_of(&field);
            record.push(f);
            assert(strs(record@) =~= before.1.push(before.2));
            let done = record;
            records.push(done);
            record = Vec::new();
            field = Vec::new();
            assert(rows_view(records@) =~= before.0.push(before.1.push(before.2)));
            assert(strs(record@) =~= Seq::<Seq<char>>::empty());
            i = i + 1;
        } else {
            field.push(c);
            i = i + 1;
        }
        assert(csv_view(records@, record@, field@, quoted) =~= csv_view(records@, record@, field@, quoted));
    }
    let ghost fin = csv_from(s@, 0, init);
    assert(csv_view(records@, record@, field@, quoted) == fin);
    if field.len() > 0 || record.len() > 0 {
        let ghost before = csv_view(records@, record@, field@, quoted);
        let f = string_of(&field);
        record.push(f);
        assert(strs(record@) =~= before.1.push(before.2));
        let done = record;
        records.push(done);
        assert(rows_view(records@) =~= before.0.push(before.1.push(before.2)));
    }
    assert(rows_view(records@) == csv_records(text@));
    if s.len() == 0 || records.len() == 0 {
        let h: Vec<String> = Vec::new();
        let rows: Vec<Vec<String>> = Vec::new();
        assert(strs(h@) =~= Seq::<Seq<char>>::empty());
        assert(rows_view(rows@) =~= Seq::<Seq<Seq<char>>>::empty());
        return (h, rows);
    }
    let ghost all = rows_view(records@);
    let header = records.remove(0);
    assert(rows_view(records@) =~= all.drop_first());
    (header, records)
}

// ── running a command ────────────────────────────────────────────────────────

/// What one command produced. `exit_code` is the command's own: a command
/// that fails is a successful request carrying a non-zero code.
#[derive(Debug, Clone)]
pub struct RunOutput {
    pub exit_code: i64,
    pub stdout: String,
    pub stderr: String,
    /// Output hit `MAX_OUTPUT` and was cut.
    pub truncated: bool,
}

/// Which stream a chunk of output came on (a console chunk counts as stdout).
#[derive(Debug, Clone, Copy, PartialEq, Eq, Structural)]
pub enum OutStream {
    Stdout,
    Stderr,
}

/// The output of a running command, captured chunk by chunk.
#[derive(Debug)]
pub struct Capture {
    pub stdout: Vec<u8>,
    pub stderr: Vec<u8>,
    pub truncated: bool,
}

/// The capture after `bytes` arrive on a stream holding `buf`: the stream
/// keeps what fits under `MAX_OUTPUT`.
pub open spec fn capped(buf: Seq<u8>, bytes: Seq<u8>) -> Seq<u8> {
    if buf.len() + bytes.len() <= MAX_OUTPUT {
        buf + bytes
    } else {
        (buf + bytes).take(MAX_OUTPUT as int)
    }
}

/// Something was dropped, or arrived on a full stream.
pub open spec fn cut_off(buf: Seq<u8>, bytes: Seq<u8>) -> bool {
    buf.len() >= MAX_OUTPUT || buf.len() + bytes.len() > MAX_OUTPUT
}

impl Capture {
    pub open spec fn wf(&self) -> bool {
        self.stdout.len() <= MAX_OUTPUT && self.stderr.len() <= MAX_OUTPUT
    }

    pub fn new() -> (c: Capture)
        ensures
            c.wf(),
            c.stdout@ == Seq::<u8>::empty(),
            c.stderr@ == Seq::<u8>::empty(),
            !c.truncated,
    {
        Capture { stdout: Vec::new(), stderr: Vec::new(), truncated: false }
    }

    /// Take one chunk of output.
    pub fn take(&mut self, stream: OutStream, bytes: &[u8])
        requires
            old(self).wf(),
        ensures
            final(self).wf(),
            stream == OutStream::Stdout ==> final(self).stdout@ == capped(old(self).stdout@, bytes@)
                && final(self).stderr@ == old(self).stderr@
                && final(self).truncated == (old(self).truncated || cut_off(old(self).stdout@, bytes@)),
            stream == OutStream::Stderr ==> final(self).stderr@ == capped(old(self).stderr@, bytes@)
                && final(self).stdout@ == old(self).stdout@
                && final(self).truncated == (old(self).truncated || cut_off(old(self).stderr@, bytes@)),
    {
        let cut = match stream {
            OutStream::Stdout => append_capped(&mut self.stdout, bytes),
            OutStream::Stderr => append_capped(&mut self.stderr, bytes),
        };
        if cut {
            self.truncated = true;
        }
    }

    /// The captured output, with the command's exit code (`-1` when Docker
    /// reported none).
    pub fn finish(self, exit_code: Option<i64>) -> (r: RunOutput)
        ensures
            r.exit_code == match exit_code {
                Some(c) => c,
                None => -1i64,
            },
            r.stdout@ == utf8_lossy(self.stdout@),
            r.stderr@ == utf8_lossy(self.stderr@),
            r.truncated == self.truncated,
    {
        let exit_code = match exit_code {
            Some(c) => c,
            None => -1,
        };
        RunOutput {
            exit_code,
            stdout: lossy_string(self.stdout.as_slice()),
            stderr: lossy_string(self.stderr.as_slice()),
            truncated: self.truncated,
        }
    }
}

/// Append to `buf` what fits under `MAX_OUTPUT`; whether anything was cut.
fn append_capped(buf: &mut Vec<u8>, bytes: &[u8]) -> (cut: bool)
    requires
        old(buf).len() <= MAX_OUTPUT,
    ensures
        final(buf)@ == capped(old(buf)@, bytes@),
        final(buf).len() <= MAX_OUTPUT,
        cut == cut_off(old(buf)@, bytes@),
{
    if buf.len() >= MAX_OUTPUT {
        assert(old(buf)@ + bytes@ == old(buf)@ + bytes@);
        assert((old(buf)@ + bytes@).take(MAX_OUTPUT as int) =~= old(buf)@) by {
            assert(old(buf)@.len() == MAX_OUTPUT);
        }
        return true;
    }
    let room = MAX_OUTPUT - buf.len();
    let n = if bytes.len() > room { room } else { bytes.len() };
    let ghost start = buf@;
    let mut i: usize = 0;
    while i < n
        invariant
            n <= bytes.len(),
            n <= room,
            room == MAX_OUTPUT - start.len(),
            i <= n,
            buf@ == start + bytes@.take(i as int),
        decreases n - i,
    {
        buf.push(bytes[i]);
        assert(bytes@.take(i + 1) =~= bytes@.take(i as int).push(bytes@[i as int]));
        i = i + 1;
    }
    if bytes.len() > room {
        assert(buf@ =~= (start + bytes@).take(MAX_OUTPUT as int));
        true
    } else {
        assert(bytes@.take(n as int) =~= bytes@);
        false
    }
}

/// The text `String::from_utf8_lossy` reads from `bytes`.
pub uninterp spec fn utf8_lossy(bytes: Seq<u8>) -> Seq<char>;

/// `String::from_utf8_lossy`: the bytes decoded as UTF-8, each invalid
/// sequence replaced by U+FFFD. The result is a function of the bytes alone
/// and is named here; what is stated is the documented case of valid UTF-8,
/// which decodes to exactly the characters it encodes. How invalid sequences
/// are replaced is left unsaid.
#[verifier::external_body]
fn lossy_string(bytes: &[u8]) -> (s: String)
    ensures
        s@ == utf8_lossy(bytes@),
        vstd::utf8::valid_utf8(bytes@) ==> s@ == vstd::utf8::decode_utf8(bytes@),
{
    String::from_utf8_lossy(bytes).into_owned()
}

// ── statements ───────────────────────────────────────────────────────────────

/// What a statement returned.
#[derive(Debug, Clone)]
pub struct SqlResult {
    pub engine: String,
    pub database: String,
    pub read_only: bool,
    pub columns: Vec<String>,
    pub rows: Vec<Vec<String>>,
    /// Rows the statement returned, before the cap.
    pub row_count: usize,
    /// Rows beyond the cap were dropped, or the output itself was cut.
    pub truncated: bool,
    /// Non-tabular engines report here instead of `rows`.
    pub raw: Option<String>,
    /// Anything the client wrote to stderr that was not fatal.
    pub notice: Option<String>,
}

/// Why a statement was refused: the engine's own words.
pub open spec fn rejection(engine: DbEngine, out: RunOutput) -> Seq<char> {
    let msg = if trim_ws(out.stderr@).len() == 0 { trim_ws(out.stdout@) } else { trim_ws(out.stderr@) };
    engine_name_spec(engine) + " rejected the statement (exit "@ + signed_decimal(out.exit_code as int)
        + "): "@ + msg
}

/// The header and rows the engine's client printed.
pub open spec fn parsed_output(engine: DbEngine, stdout: Seq<char>) -> (Seq<Seq<char>>, Seq<Seq<Seq<char>>>) {
    if engine == DbEngine::Postgres {
        parse_csv_spec(stdout)
    } else {
        parse_tsv_spec(stdout)
    }
}

fn trimmed(s: &str) -> (r: String)
    ensures
        r@ == trim_ws(s@),
{
    let v = chars_of(s);
    let t = chars_trim(&v);
    string_of(&t)
}

/// What a statement's run comes to: the engine's rejection when the client
/// exited non-zero, else its rows (at most `limit` of them) or, for the
/// non-tabular engines, its raw output.
pub fn sql_result(engine: DbEngine, database: &str, write: bool, limit: usize, out: RunOutput) -> (r: Result<SqlResult, String>)
    ensures
        out.exit_code != 0 <==> r is Err,
        r matches Err(m) ==> m@ == rejection(engine, out),
        r matches Ok(res) ==> {
            &&& res.engine@ == engine_name_spec(engine)
            &&& res.database@ == database@
            &&& res.read_only == !write
            &&& (trim_ws(out.stderr@).len() == 0 <==> res.notice is None)
            &&& (res.notice matches Some(n) ==> n@ == trim_ws(out.stderr@))
            &&& if tabular_spec(engine) {
                let (cols, rows) = parsed_output(engine, out.stdout@);
                &&& strs(res.columns@) == cols
                &&& res.row_count == rows.len()
                &&& rows_view(res.rows@) == if rows.len() > limit { rows.take(limit as int) } else { rows }
                &&& res.truncated == (rows.len() > limit || out.truncated)
                &&& res.raw is None
            } else {
                &&& res.columns@.len() == 0
                &&& res.rows@.len() == 0
                &&& res.row_count == 0
                &&& res.truncated == out.truncated
                &&& res.raw matches Some(raw) && raw@ == out.stdout@
            }
        },
{
    if out.exit_code != 0 {
        let err = trimmed(out.stderr.as_str());
        let msg = if err.as_str().unicode_len() == 0 { trimmed(out.stdout.as_str()) } else { err };
        let mut m = engine_name(engine).to_string();
        m.append(" rejected the statement (exit ");
        let code = crate::text::signed_decimal_chars(out.exit_code);
        m.append(string_of(&code).as_str());
        m.append("): ");
        m.append(msg.as_str());
        return Err(m);
    }
    let err = trimmed(out.stderr.as_str());
    let notice = if err.as_str().unicode_len() == 0 { None } else { Some(err) };
    if !tabular(engine) {
        return Ok(SqlResult {
            engine: engine_name(engine).to_string(),
            database: database.to_string(),
            read_only: !write,
            columns: Vec::new(),
            rows: Vec::new(),
            row_count: 0,
            truncated: out.truncated,
            raw: Some(out.stdout),
            notice,
        });
    }
    let (columns, mut rows) = match engine {
        DbEngine::Postgres => parse_csv(out.stdout.as_str()),
        _ => parse_tsv(out.stdout.as_str()),
    };
    let row_count = rows.len();
    let over = row_count > limit;
    if over {
        let ghost all = rows_view(rows@);
        rows.truncate(limit);
        assert(rows_view(rows@) =~= all.take(limit as int));
    }
    Ok(SqlResult {
        engine: engine_name(engine).to_string(),
        database: database.to_string(),
        read_only: !write,
        columns,
        rows,
        row_count,
        truncated: over || out.truncated,
        raw: None,
        notice,
    })
}

/// The capture, as `(stdout, stderr, truncated)`, after `chunks` arrived in
/// order on a fresh one.
pub open spec fn captured(chunks: Seq<(OutStream, Seq<u8>)>) -> (Seq<u8>, Seq<u8>, bool)
    decreases chunks.len(),
{
    if chunks.len() == 0 {
        (Seq::<u8>::empty(), Seq::<u8>::empty(), false)
    } else {
        let (out, err, t) = captured(chunks.drop_last());
        let (stream, bytes) = chunks.last();
        if stream == OutStream::Stdout {
            (capped(out, bytes), err, t || cut_off(out, bytes))
        } else {
            (out, capped(err, bytes), t || cut_off(err, bytes))
        }
    }
}

/// Everything that arrived on `stream`, in order.
pub open spec fn arrived(chunks: Seq<(OutStream, Seq<u8>)>, stream: OutStream) -> Seq<u8>
    decreases chunks.len(),
{
    if chunks.len() == 0 {
        Seq::<u8>::empty()
    } else if chunks.last().0 == stream {
        arrived(chunks.drop_last(), stream) + chunks.last().1
    } else {
        arrived(chunks.drop_last(), stream)
    }
}

/// The first `MAX_OUTPUT` bytes of `s`, or all of it.
pub open spec fn head(s: Seq<u8>) -> Seq<u8> {
    if s.len() <= MAX_OUTPUT {
        s
    } else {
        s.take(MAX_OUTPUT as int)
    }
}

proof fn lemma_capped_head(a: Seq<u8>, b: Seq<u8>)
    ensures
        capped(head(a), b) == head(a + b),
        cut_off(head(a), b) ==> (a + b).len() >= MAX_OUTPUT,
        (a + b).len() > MAX_OUTPUT ==> cut_off(head(a), b),
{
    if a.len() > MAX_OUTPUT {
        assert((a.take(MAX_OUTPUT as int) + b).take(MAX_OUTPUT as int) =~= (a + b).take(MAX_OUTPUT as int));
    } else if (a + b).len() > MAX_OUTPUT {
        assert((a + b).take(MAX_OUTPUT as int) =~= (a + b).take(MAX_OUTPUT as int));
    }
}

/// However a command's output arrives, each stream keeps exactly the first
/// `MAX_OUTPUT` bytes of what came on it, and the capture says it was
/// truncated whenever more came, and only when a stream reached the cap.
pub proof fn law_capture_keeps_the_head(chunks: Seq<(OutStream, Seq<u8>)>)
    ensures
        captured(chunks).0 == head(arrived(chunks, OutStream::Stdout)),
        captured(chunks).1 == head(arrived(chunks, OutStream::Stderr)),
        arrived(chunks, OutStream::Stdout).len() > MAX_OUTPUT ==> captured(chunks).2,
        arrived(chunks, OutStream::Stderr).len() > MAX_OUTPUT ==> captured(chunks).2,
        captured(chunks).2 ==> arrived(chunks, OutStream::Stdout).len() >= MAX_OUTPUT
            || arrived(chunks, OutStream::Stderr).len() >= MAX_OUTPUT,
    decreases chunks.len(),
{
    if chunks.len() > 0 {
        let rest = chunks.drop_last();
        law_capture_keeps_the_head(rest);
        let (stream, bytes) = chunks.last();
        if stream == OutStream::Stdout {
            lemma_capped_head(arrived(rest, OutStream::Stdout), bytes);
        } else {
            lemma_capped_head(arrived(rest, OutStream::Stderr), bytes);
        }
    }
}

/// The number of characters before the quote that closes a SQL string
/// literal whose content starts `s`: a doubled quote inside is one escaped
/// quote, a single one closes the literal.
pub open spec fn sql_string_content_len(s: Seq<char>) -> Option<nat>
    decreases s.len(),
{
    if s.len() == 0 {
        None
    } else if s[0] == '\'' {
        if s.len() > 1 && s[1] == '\'' {
            match sql_string_content_len(s.skip(2)) {
                Some(n) => Some(n + 2),
                None => None,
            }
        } else {
            Some(0)
        }
    } else {
        match sql_string_content_len(s.drop_first()) {
            Some(n) => Some(n + 1),
            None => None,
        }
    }
}

proof fn lemma_quoted_content_closes(t: Seq<char>)
    ensures
        sql_string_content_len(replace_all(t, seq!['\''], seq!['\'', '\'']) + seq!['\''])
            == Some(replace_all(t, seq!['\''], seq!['\'', '\'']).len()),
    decreases t.len(),
{
    let q = seq!['\''];
    let qq = seq!['\'', '\''];
    let r = replace_all(t, q, qq);
    if t.len() == 0 {
        assert(r + q =~= q);
    } else if crate::text::starts_with(t, q) {
        let rest = replace_all(t.skip(1), q, qq);
        lemma_quoted_content_closes(t.skip(1));
        assert(r == qq + rest);
        assert((r + q).skip(2) =~= rest + q);
        assert((r + q)[0] == '\'' && (r + q)[1] == '\'');
    } else {
        let rest = replace_all(t.drop_first(), q, qq);
        lemma_quoted_content_closes(t.drop_first());
        assert(t.take(1) =~= seq![t[0]]);
        assert(t[0] != '\'');
        assert(r == seq![t[0]] + rest);
        assert((r + q).drop_first() =~= rest + q);
    }
}

/// Whatever a table name holds, its SQL literal ends only at its last
/// character: no quote inside can close it early.
pub proof fn law_sql_literal_cannot_be_broken_out_of(t: Seq<char>)
    ensures
        sql_literal_spec(t)[0] == '\'',
        sql_string_content_len(sql_literal_spec(t).drop_first()) == Some((sql_literal_spec(t).len() - 2) as nat),
{
    let r = replace_all(t, seq!['\''], seq!['\'', '\'']);
    lemma_quoted_content_closes(t);
    assert(sql_literal_spec(t).drop_first() =~= r + seq!['\'']);
}

// ── requests ─────────────────────────────────────────────────────────────────

/// A command to run in an app container: argv, run directly (no shell).
#[derive(Debug, Clone)]
pub struct ExecBody {
    pub cmd: Vec<String>,
    pub stdin: Option<String>,
    pub workdir: Option<String>,
}

/// A command's output, with where it ran.
#[derive(Debug, Clone)]
pub struct ExecResult {
    pub output: RunOutput,
    pub container: String,
    pub node: String,
}

/// Where an app's managed database lives and what speaks to it (no password).
#[derive(Debug, Clone)]
pub struct DbInfo {
    pub engine: String,
    pub database: String,
    pub user: String,
    pub container: String,
    pub node: String,
    pub class: String,
    /// The engine speaks SQL and returns rows.
    pub tabular: bool,
}

/// The query string of a statement request.
#[derive(Debug, Clone)]
pub struct SqlQuery {
    /// Allow statements that write; otherwise the statement runs read-only.
    pub write: bool,
    /// Row cap on the response.
    pub limit: Option<usize>,
    /// A catalog listing to run instead of the body: `tables` or `columns`.
    pub meta: Option<String>,
    pub table: Option<String>,
}

#[derive(Debug, Clone)]
pub struct SqlBody {
    pub sql: String,
}

/// The statement a request runs, whether it may write, and the row cap.
#[derive(Debug, Clone)]
pub struct Statement {
    pub sql: String,
    pub write: bool,
    pub limit: usize,
}

/// The role a statement request needs: a write takes an admin in every class.
pub open spec fn sql_role_spec(class: EnvClass, write: bool) -> Role {
    if write {
        Role::Admin
    } else {
        min_role_spec(class)
    }
}

pub fn sql_role(class: EnvClass, q: &SqlQuery) -> (r: Role)
    ensures
        r == sql_role_spec(class, q.write),
{
    if q.write {
        Role::Admin
    } else {
        min_role(class)
    }
}

pub open spec fn opt_view(o: Option<String>) -> Option<Seq<char>> {
    match o {
        Some(t) => Some(t@),
        None => None,
    }
}

/// The statement text a request asks for: the body, trimmed, or the catalog
/// listing it names.
pub open spec fn statement_text(engine: DbEngine, q: SqlQuery, body: Seq<char>) -> Option<Seq<char>> {
    match q.meta {
        None => Some(trim_ws(body)),
        Some(kind) => catalog_text(engine, kind@, opt_view(q.table)),
    }
}

/// What a statement request runs. A catalog listing is a read whatever
/// `write` says; an empty statement is refused.
pub fn statement(engine: DbEngine, q: &SqlQuery, body: &SqlBody) -> (r: Result<Statement, String>)
    ensures
        match statement_text(engine, *q, body.sql@) {
            Some(text) => if text.len() == 0 {
                r matches Err(m) && m@ == "sql must not be empty"@
            } else {
                r matches Ok(st) && st.sql@ == text && st.write == (q.write && q.meta is None)
                    && st.limit == match q.limit {
                    Some(l) => l,
                    None => DEFAULT_ROWS,
                }
            },
            None => r matches Err(m) && m@ == if catalog_supported(engine, q.meta->0@) {
                "meta=columns needs table="@
            } else {
                "meta="@ + q.meta->0@ + " is not supported for "@ + engine_type_name(engine)
            },
        },
{
    let sql = match &q.meta {
        None => trimmed(body.sql.as_str()),
        Some(kind) => {
            let table = match &q.table {
                Some(t) => Some(t.as_str()),
                None => None,
            };
            assert(opt_str_view(table) == opt_view(q.table));
            match catalog_query(engine, kind.as_str(), table) {
                Ok(text) => text,
                Err(e) => {
                    let m = e.message();
                    assert(catalog_error_message(e) == m@);
                    return Err(m);
                },
            }
        },
    };
    if sql.as_str().unicode_len() == 0 {
        return Err("sql must not be empty".to_string());
    }
    let limit = match q.limit {
        Some(l) => l,
        None => DEFAULT_ROWS,
    };
    Ok(Statement { sql, write: q.write && q.meta.is_none(), limit })
}

/// An exec request is refused when it names no command.
pub fn check_exec(body: &ExecBody) -> (r: Result<(), String>)
    ensures
        r is Ok <==> body.cmd.len() > 0,
        r matches Err(m) ==> m@ == "cmd must not be empty"@,
{
    if body.cmd.len() == 0 {
        Err("cmd must not be empty".to_string())
    } else {
        Ok(())
    }
}

/// How an audit row summarises a command's result.
pub open spec fn exec_outcome_spec(r: Result<RunOutput, String>) -> Seq<char> {
    match r {
        Ok(o) => "exit "@ + signed_decimal(o.exit_code as int),
        Err(e) => "FAILED: "@ + e@,
    }
}

pub fn exec_outcome(r: &Result<RunOutput, String>) -> (s: String)
    ensures
        s@ == exec_outcome_spec(*r),
{
    match r {
        Ok(o) => {
            let mut s = "exit ".to_string();
            s.append(string_of(&crate::text::signed_decimal_chars(o.exit_code)).as_str());
            s
        },
        Err(e) => joined("FAILED: ", e.as_str()),
    }
}

/// The audit row for one command: its subject (`exec <app> (<class>)`) and its
/// detail (`by <actor>: <argv joined by spaces> → <outcome>`).
pub open spec fn exec_audit_spec(actor: Seq<char>, app: Seq<char>, class: EnvClass, cmd: Seq<Seq<char>>, outcome: Seq<char>) -> (Seq<char>, Seq<char>) {
    (
        "exec "@ + app + " ("@ + crate::envclass::class_name(class) + ")"@,
        "by "@ + actor + ": "@ + join(cmd, " "@) + " → "@ + outcome,
    )
}

fn strings_chars(v: &Vec<String>) -> (out: Vec<Vec<char>>)
    ensures
        crate::text::views(out@) == strs(v@),
{
    let mut out: Vec<Vec<char>> = Vec::new();
    let mut i: usize = 0;
    while i < v.len()
        invariant
            i <= v.len(),
            crate::text::views(out@) == strs(v@).take(i as int),
        decreases v.len() - i,
    {
        let ghost before = crate::text::views(out@);
        out.push(chars_of(v[i].as_str()));
        assert(crate::text::views(out@) =~= before.push(v@[i as int]@));
        assert(strs(v@).take(i + 1) =~= strs(v@).take(i as int).push(v@[i as int]@));
        i = i + 1;
    }
    assert(strs(v@).take(v.len() as int) =~= strs(v@));
    out
}

pub fn exec_audit(actor: &str, app: &str, class: EnvClass, cmd: &Vec<String>, outcome: &str) -> (r: (String, String))
    ensures
        (r.0@, r.1@) == exec_audit_spec(actor@, app@, class, strs(cmd@), outcome@),
{
    let mut what = joined("exec ", app);
    what.append(" (");
    what.append(class.as_str());
    what.append(")");
    let parts = strings_chars(cmd);
    let line = string_of(&chars_join(&parts, &chars_of(" ")));
    let mut detail = joined("by ", actor);
    detail.append(": ");
    detail.append(line.as_str());
    detail.append(" → ");
    detail.append(outcome);
    (what, detail)
}

/// How an audit row summarises a statement's result.
pub open spec fn sql_outcome_spec(r: Result<SqlResult, String>) -> Seq<char> {
    match r {
        Ok(res) => crate::text::decimal(res.row_count as nat) + " row(s)"@,
        Err(e) => "FAILED: "@ + one_line_spec(e@, 200),
    }
}

pub fn sql_outcome(r: &Result<SqlResult, String>) -> (s: String)
    ensures
        s@ == sql_outcome_spec(*r),
{
    match r {
        Ok(res) => {
            let mut s = string_of(&crate::text::decimal_chars(res.row_count as u64));
            s.append(" row(s)");
            s
        },
        Err(e) => {
            let line = one_line(e.as_str(), 200);
            joined("FAILED: ", line.as_str())
        },
    }
}

/// The audit row for one statement: `sql <app> (<class>)`, and
/// `by <actor> [write|read-only]: <statement on one line> → <outcome>`.
pub open spec fn sql_audit_spec(actor: Seq<char>, app: Seq<char>, class: EnvClass, write: bool, sql: Seq<char>, outcome: Seq<char>) -> (Seq<char>, Seq<char>) {
    (
        "sql "@ + app + " ("@ + crate::envclass::class_name(class) + ")"@,
        "by "@ + actor + " ["@ + (if write { "write"@ } else { "read-only"@ }) + "]: "@
            + one_line_spec(sql, 300) + " → "@ + outcome,
    )
}

pub fn sql_audit(actor: &str, app: &str, class: EnvClass, write: bool, sql: &str, outcome: &str) -> (r: (String, String))
    ensures
        (r.0@, r.1@) == sql_audit_spec(actor@, app@, class, write, sql@, outcome@),
{
    let mut what = joined("sql ", app);
    what.append(" (");
    what.append(class.as_str());
    what.append(")");
    let mut detail = joined("by ", actor);
    detail.append(" [");
    detail.append(if write { "write" } else { "read-only" });
    detail.append("]: ");
    detail.append(one_line(sql, 300).as_str());
    detail.append(" → ");
    detail.append(outcome);
    (what, detail)
}

} // verus!
