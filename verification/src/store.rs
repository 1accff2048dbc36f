//! Where a run's state is kept, and whether a database may hold it.

use vstd::prelude::*;
use vstd::string::*;

use crate::environment::{home_dir, is_dir_or_unset, path_join, path_of, Environment};
use crate::error::Error;
use crate::number::{decimal, decimal_text};
use crate::text::{concat2, concat3};

verus! {

/// The version of the database schema that this supervisor writes and reads.
pub const SCHEMA_VERSION: i64 = 1;

/// The tables of a run, and the version that says so.
pub const SCHEMA: &'static str = r#"
create table config(key text primary key, value text);
create table sessions(
  id integer primary key, name text not null, role text not null,
  external_session_id text not null unique, launched_head text,
  started_at int not null, stopped_at int,
  context int not null default 0, context_max int not null default 0,
  last_growth int not null, kicked_at int);
create table tasks(id integer primary key, text text, predicted_files int,
  predicted_lines int, session_id int references sessions(id),
  commit_sha text, created_at int, retry_of_task_id int references tasks(id),
  log_offset int default 0, base_head text, predicted_file_list text,
  context_size_start int);
create table task_events(
  id integer primary key autoincrement,
  task_id int not null references tasks(id), state text not null,
  reason text, created_at int not null);
create table commentary_deliveries(
  task_id int primary key references tasks(id), delivered_at int, woken_at int);
create table prompts(id integer primary key, session text, text text,
  sent_at int, landed_at int, attempts int);
create table calibrations(
  id integer primary key autoincrement,
  task_id int not null unique references tasks(id),
  predicted_files int not null, predicted_lines int not null,
  actual_files int not null, actual_lines int not null, wall_seconds real,
  created_at int not null, context_size_start int not null,
  context_size_end int not null);
create table observations(
  id integer primary key autoincrement,
  task_id int references tasks(id), text text not null,
  created_at int not null);
create table findings(
  id integer primary key autoincrement,
  task_id int not null references tasks(id),
  description text not null, verdict text,
  verdict_reason text, fix_task_id int references tasks(id),
  created_at int not null, resolved_at int);
create table human_waits(id integer primary key, started int, ended int);
create table events(at int, kind text, detail text);
pragma user_version=1;
"#;

/// The name of the database file in a run's log directory.
pub fn database_path(logs_dir: &str) -> (r: String)
    ensures
        r@ == path_of(logs_dir@, "chainsaw-supervisor.db"@),
{
    path_join(logs_dir, "chainsaw-supervisor.db")
}

/// `c`, or a dash where it is a slash or a dot.
pub open spec fn dashed(c: char) -> char {
    if c == '/' || c == '.' {
        '-'
    } else {
        c
    }
}

/// The name that the default CLI gives a project directory.
pub open spec fn project_name(run_dir: Seq<char>) -> Seq<char> {
    run_dir.map_values(|c: char| dashed(c))
}

/// The default CLI names a project directory after the session's cwd, replacing both separators and
/// dots with dashes: `/Users/alex/src/ui.wt/run` becomes `-Users-alex-src-ui-wt-run`, and
/// `/x/.bare` becomes `-x--bare`.
pub fn project_directory_name(canonical_run_dir: &str) -> (r: String)
    ensures
        r@ == project_name(canonical_run_dir@),
{
    let mut r = String::new();
    for c in it: canonical_run_dir.chars()
        invariant
            it.seq() == canonical_run_dir@,
            r@ == project_name(canonical_run_dir@.take(it.index() as int)),
    {
        if c == '/' || c == '.' {
            r.push('-');
        } else {
            r.push(c);
        }
        let ghost now = canonical_run_dir@.take(it.index() + 1);
        assert(now == canonical_run_dir@.take(it.index() as int).push(c));
        assert(project_name(now) == project_name(
            canonical_run_dir@.take(it.index() as int),
        ).push(dashed(c)));
    }
    assert(canonical_run_dir@.take(canonical_run_dir@.len() as int) == canonical_run_dir@);
    r
}

/// A project directory's name is one path component without a dot, as long as the path it
/// stands for.
pub proof fn law_project_name_is_one_plain_component(run_dir: Seq<char>)
    ensures
        project_name(run_dir).len() == run_dir.len(),
        !project_name(run_dir).contains('/'),
        !project_name(run_dir).contains('.'),
{
}

/// Where the default CLI keeps a session's transcripts. The supervisor's own database lives here too,
/// so a run's state sits beside the logs it is derived from.
pub open spec fn logs_dir_of(
    home: Option<Seq<char>>,
    default_cli: Seq<char>,
    run_dir: Seq<char>,
) -> Option<Seq<char>> {
    match home {
        Some(home) => Some(
            path_of(
                path_of(path_of(home, "."@ + default_cli), "projects"@),
                project_name(run_dir),
            ),
        ),
        None => None,
    }
}

/// Where the transcripts and the database of a run are kept.
pub fn logs_dir_for(env: &Environment, canonical_run_dir: &str) -> (r: Result<String, Error>)
    ensures
        is_dir_or_unset(r, logs_dir_of(env@.home, env@.default_cli, canonical_run_dir@)),
{
    match home_dir(env) {
        Ok(home) => {
            let home = path_join(home.as_str(), concat2(".", env.default_cli.as_str()).as_str());
            let projects = path_join(home.as_str(), "projects");
            Ok(path_join(projects.as_str(), project_directory_name(canonical_run_dir).as_str()))
        },
        Err(error) => Err(error),
    }
}

/// Milliseconds since the epoch, given the seconds and nanoseconds that have passed since then; 0
/// where the clock stands before the epoch. What does not fit is cut off as in any cast.
pub fn epoch_millis(since: Option<(u64, u32)>) -> (r: i64)
    ensures
        match since {
            Some((seconds, nanos)) => {
                &&& r == (seconds * 1000 + nanos as int / 1_000_000) as i64
                &&& seconds * 1000 + nanos as int / 1_000_000 <= i64::MAX ==> r == seconds * 1000
                    + nanos as int / 1_000_000
            },
            None => r == 0,
        },
{
    match since {
        Some((seconds, nanos)) => {
            let millis: u128 = seconds as u128 * 1000 + nanos as u128 / 1_000_000;
            #[verifier::truncate]
            (millis as i64)
        },
        None => 0,
    }
}

/// What is to be done with a database that was opened.
#[derive(Clone, Copy, Debug, PartialEq, Eq, Structural)]
pub enum SchemaAction {
    /// It is empty: create the schema in it.
    Create,
    /// It holds the schema already.
    Keep,
}

/// Why a database of this version, with this many tables of its own, cannot be used.
pub open spec fn schema_refusal(version: i64, table_count: i64) -> Option<Seq<char>> {
    if version == 0 && table_count != 0 {
        Some("database schema is unversioned; remove it before starting chainsaw"@)
    } else if version != 0 && version != SCHEMA_VERSION {
        Some(
            "database schema version "@ + decimal(version as int) + " is unsupported; expected "@
                + decimal(SCHEMA_VERSION as int)
                + ": remove the database and start a new run"@,
        )
    } else {
        None
    }
}

/// What is to be done with a database of this version, with this many tables of its own.
pub fn initialize_schema(version: i64, table_count: i64) -> (r: Result<SchemaAction, Error>)
    ensures
        match schema_refusal(version, table_count) {
            Some(message) => r matches Err(error) && error@ == seq![message],
            None => r matches Ok(action) && (action == SchemaAction::Create <==> version == 0),
        },
{
    if version == 0 {
        if table_count != 0 {
            return Err(
                Error::from_text(
                    "database schema is unversioned; remove it before starting chainsaw",
                ),
            );
        }
        Ok(SchemaAction::Create)
    } else if version == SCHEMA_VERSION {
        Ok(SchemaAction::Keep)
    } else {
        let mut message = concat3(
            "database schema version ",
            decimal_text(version).as_str(),
            " is unsupported; expected ",
        );
        message.append(decimal_text(SCHEMA_VERSION).as_str());
        message.append(": remove the database and start a new run");
        Err(Error::new(message))
    }
}

/// A project directory's name tells its path character by character, with a dash for each slash and
/// each dot and everything else as it is.
pub proof fn law_project_name_keeps_the_rest(run_dir: Seq<char>, i: int)
    requires
        0 <= i < run_dir.len(),
    ensures
        run_dir[i] == '/' || run_dir[i] == '.' ==> project_name(run_dir)[i] == '-',
        run_dir[i] != '/' && run_dir[i] != '.' ==> project_name(run_dir)[i] == run_dir[i],
{
}

/// A run's logs are kept in the home directory, below the default CLI's own directory, under the
/// project's name; without a home directory there is no place for them.
#[verifier::rlimit(40)]
pub proof fn law_logs_are_kept_by_project(
    home: Seq<char>,
    default_cli: Seq<char>,
    run_dir: Seq<char>,
)
    requires
        home.len() > 0,
        home.last() != '/',
        default_cli.len() > 0,
        default_cli.last() != '/',
    ensures
        logs_dir_of(Some(home), default_cli, run_dir) == Some(
            home + "/."@ + default_cli + "/projects/"@ + project_name(run_dir),
        ),
        logs_dir_of(None, default_cli, run_dir) is None,
{
    reveal_strlit(".");
    reveal_strlit("/.");
    reveal_strlit("projects");
    reveal_strlit("/projects/");
    let name = project_name(run_dir);
    if name.len() > 0 {
        assert(!name.contains('/'));
        assert(name.contains(name[0]));
    }
    let own = path_of(home, "."@ + default_cli);
    assert(("."@ + default_cli)[0] == '.');
    assert(own =~= home + "/."@ + default_cli);
    assert(own.last() == default_cli.last());
    let projects = path_of(own, "projects"@);
    assert("projects"@[0] == 'p');
    assert("projects"@[7] == 's');
    assert(projects =~= own.push('/') + "projects"@);
    assert(projects.last() == 's');
    assert(path_of(projects, name) =~= home + "/."@ + default_cli + "/projects/"@ + name);
}

/// A database is used exactly where it holds the schema in its first version, or holds nothing yet.
pub proof fn law_database_is_empty_or_of_the_first_version(version: i64, table_count: i64)
    ensures
        schema_refusal(version, table_count) is None <==> version == 1 || (version == 0
            && table_count == 0),
{
}

/// A database that cannot be used is refused in words: for want of a version, or with the version it
/// has beside the one that is expected.
pub proof fn law_database_is_refused_in_words(version: i64, table_count: i64)
    ensures
        version == 0 && table_count != 0 ==> schema_refusal(version, table_count) == Some(
            "database schema is unversioned; remove it before starting chainsaw"@,
        ),
        version != 0 && version != 1 ==> schema_refusal(version, table_count) == Some(
            "database schema version "@ + decimal(version as int) + " is unsupported; expected "@
                + decimal(1) + ": remove the database and start a new run"@,
        ),
{
}

} // verus!
