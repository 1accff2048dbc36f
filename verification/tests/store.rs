use rusqlite::Connection;

use chainsaw::environment::{absolute_path, claude_home, codex_home, cursor_home, home_dir, path_join, Environment};
use chainsaw::store::{
    database_path, epoch_millis, initialize_schema, logs_dir_for, project_directory_name, SchemaAction, SCHEMA,
};

#[test]
fn store_should_work() {
    assert_eq!(project_directory_name("/Users/a/src/chainsaw"), "-Users-a-src-chainsaw");
}

#[test]
fn should_dash_dots_when_the_run_directory_is_dotted() {
    assert_eq!(
        project_directory_name("/Users/a/src/ui.wt/refactor"),
        "-Users-a-src-ui-wt-refactor"
    );
}

#[test]
fn should_dash_a_leading_dot_directory() {
    assert_eq!(project_directory_name("/x/.bare"), "-x--bare");
}

fn number(db: &Connection, query: &str) -> i64 {
    db.query_row(query, [], |row| row.get::<_, i64>(0)).unwrap()
}

#[test]
fn creates_communication_storage_with_foreign_keys() {
    let db = Connection::open_in_memory().unwrap();
    let tables =
        "select count(*) from sqlite_schema where type='table' and name not like 'sqlite_%'";

    let action = initialize_schema(number(&db, "pragma user_version"), number(&db, tables)).unwrap();
    assert_eq!(action, SchemaAction::Create);
    db.execute_batch(SCHEMA).unwrap();

    assert_eq!(number(&db, "pragma user_version"), 1);
    assert_eq!(
        number(
            &db,
            "select \"notnull\" from pragma_table_info('findings') where name='task_id'"
        ),
        1
    );
    assert_eq!(
        number(
            &db,
            "select count(*) from pragma_foreign_key_list('findings')
       where \"table\"='tasks' and \"from\" in ('task_id', 'fix_task_id')"
        ),
        2
    );
    assert_eq!(
        number(
            &db,
            "select count(*) from pragma_foreign_key_list('observations')
       where \"table\"='tasks' and \"from\"='task_id'"
        ),
        1
    );
    assert_eq!(
        number(&db, "select count(*) from pragma_table_info('tasks') where name='state'"),
        0
    );
    assert_eq!(
        number(
            &db,
            "select count(*) from pragma_table_info('findings') where name='legacy_disposition'"
        ),
        0
    );
    assert_eq!(
        number(&db, "select count(*) from pragma_table_info('commentary_deliveries')"),
        3
    );

    let again = initialize_schema(number(&db, "pragma user_version"), number(&db, tables)).unwrap();
    assert_eq!(again, SchemaAction::Keep);
}

#[test]
fn foreign_databases_are_refused() {
    assert_eq!(
        initialize_schema(0, 2).unwrap_err().message(),
        "database schema is unversioned; remove it before starting chainsaw"
    );
    assert_eq!(
        initialize_schema(7, 2).unwrap_err().message(),
        "database schema version 7 is unsupported; expected 1: remove the database and start a new run"
    );
    assert_eq!(initialize_schema(1, 0).unwrap(), SchemaAction::Keep);
}

#[test]
fn a_run_is_kept_beside_its_transcripts() {
    let env = Environment {
        home: Some("/home/a".to_owned()),
        claude_config_dir: Some("/elsewhere".to_owned()),
        cursor_config_dir: None,
        codex_home: Some("/codex".to_owned()),
        chainsaw_config: None,
        default_cli: "default-cli".to_owned(),
    };
    let logs = logs_dir_for(&env, "/src/app").unwrap();
    assert_eq!(logs, "/home/a/.default-cli/projects/-src-app");
    assert_eq!(database_path(&logs), "/home/a/.default-cli/projects/-src-app/chainsaw-supervisor.db");
    assert_eq!(home_dir(&env).unwrap(), "/home/a");
    assert_eq!(claude_home(&env).unwrap(), "/elsewhere");
    assert_eq!(cursor_home(&env).unwrap(), "/home/a/.cursor");
    assert_eq!(codex_home(&env).unwrap(), "/codex");

    let unset = Environment { home: None, ..env };
    assert_eq!(logs_dir_for(&unset, "/src/app").unwrap_err().message(), "HOME is not set");
}

#[test]
fn paths_are_joined_as_they_stand() {
    assert_eq!(path_join("/a/b", "c"), "/a/b/c");
    assert_eq!(path_join("/a/b/", "c"), "/a/b/c");
    assert_eq!(path_join("/a/b", "/c"), "/c");
    assert_eq!(path_join("", "c"), "c");
    assert_eq!(absolute_path("prompt.md", "/work"), "/work/prompt.md");
    assert_eq!(absolute_path("/prompt.md", "/work"), "/prompt.md");
}

#[test]
fn the_clock_is_read_in_milliseconds() {
    assert_eq!(epoch_millis(None), 0);
    assert_eq!(epoch_millis(Some((0, 999_999))), 0);
    assert_eq!(epoch_millis(Some((1_700_000_000, 123_999_999))), 1_700_000_000_123);
}
