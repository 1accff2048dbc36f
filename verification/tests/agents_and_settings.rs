use chainsaw::agent::{AgentCli, AgentSpec};
use chainsaw::environment::Environment;
use chainsaw::error::Error;
use chainsaw::json::{parse, Json, JsonField};
use chainsaw::session::Role;
use chainsaw::session_runtime::SessionKind;
use chainsaw::settings::{
    global_config_path, global_config_path_from, load_from, run_settings_path, FileContent,
    Settings, SettingsFile,
};
use chainsaw::transcripts::{
    cursor_project_directory_name, expected_transcript, find_jsonl_containing, find_named_jsonl,
    find_session_transcript, session_log, DirEntry, FileRule, LogPlace, TranscriptWalk, WalkStep,
};

/// The name that the default CLI goes by here.
const DEFAULT: &str = "default-cli";

fn file(path: &str, text: &str) -> SettingsFile {
    SettingsFile { path: path.to_owned(), content: FileContent::Text(text.to_owned()) }
}

fn absent(path: &str) -> SettingsFile {
    SettingsFile { path: path.to_owned(), content: FileContent::Absent }
}

fn object(fields: Vec<(&str, Json)>) -> Json {
    Json::Object(
        fields.into_iter().map(|(key, value)| JsonField { key: key.to_owned(), value }).collect(),
    )
}

/// A tree of directories and files: each directory lists its entries by number.
fn search(mut walk: TranscriptWalk, tree: &[(u64, Vec<(u64, &str, bool)>)]) -> Option<u64> {
    loop {
        let Some(dir) = walk.next() else {
            return None;
        };
        let entries = tree.iter().find(|(id, _)| *id == dir).map(|(_, entries)| {
            entries
                .iter()
                .map(|(id, name, is_dir)| DirEntry {
                    id: *id,
                    name: Some((*name).to_owned()),
                    is_dir: *is_dir,
                })
                .collect::<Vec<_>>()
        });
        match walk.listed(entries) {
            WalkStep::Found(file) => return Some(file),
            WalkStep::Continue(next) => walk = next,
        }
    }
}

#[test]
fn tests_should_work() {
    assert_eq!(AgentCli::parse("default-cli", DEFAULT).unwrap(), AgentCli::Claude);
    assert_eq!(AgentCli::parse("default-cli-code", DEFAULT).unwrap(), AgentCli::Claude);
    assert_eq!(AgentCli::parse("cursor", DEFAULT).unwrap(), AgentCli::Cursor);
    assert_eq!(AgentCli::parse("cursor-agent", DEFAULT).unwrap(), AgentCli::Cursor);
    assert_eq!(AgentCli::parse("codex-cli", DEFAULT).unwrap(), AgentCli::Codex);
}

#[test]
fn spec_parse_should_work() {
    let spec = AgentSpec::parse(
        &object(vec![
            ("cli", Json::text("cursor")),
            ("model", Json::text("gpt-5")),
            ("args", Json::Array(vec![Json::text("--force")])),
        ]),
        DEFAULT,
    )
    .unwrap();

    assert_eq!(spec.cli(), AgentCli::Cursor);
    assert_eq!(spec.model(), Some("gpt-5"));
    assert_eq!(spec.args(), &["--force".to_owned()]);
}

#[test]
fn launch_flags_should_work() {
    let spec = AgentSpec::claude_opus();

    assert_eq!(
        spec.launch_flags(SessionKind::Implementer),
        [
            "--model",
            "opus",
            "--effort",
            "high",
            "--disable-slash-commands",
            "--strict-mcp-config",
            "--no-chrome",
            "--disallowedTools",
            "WebSearch,WebFetch,NotebookEdit,Task,Agent,AskUserQuestion,EnterPlanMode,ExitPlanMode,TaskOutput",
        ]
    );
}

#[test]
fn cursor_project_directory_name_should_work() {
    assert_eq!(cursor_project_directory_name("/Users/a/src/app"), "Users-a-src-app");
}

#[test]
fn find_named_jsonl_should_work() {
    // projects/app/agent-transcripts/sess-1/sess-1.jsonl
    let tree = vec![
        (0, vec![(1, "projects", true)]),
        (1, vec![(2, "app", true)]),
        (2, vec![(3, "agent-transcripts", true)]),
        (3, vec![(4, "sess-1", true)]),
        (4, vec![(5, "sess-1.jsonl", false)]),
    ];
    assert_eq!(search(find_named_jsonl(0, "sess-1.jsonl", 4), &tree), Some(5));
}

#[test]
fn should_work() {
    let run = file("/run/chainsaw.json", r#"{"prompt-landing-seconds": 3}"#);

    let settings = load_from(&run, None, DEFAULT).unwrap();

    assert_eq!(settings.prompt_landing_seconds(), 3);
}

#[test]
fn global_config_path_from_should_work() {
    assert_eq!(
        global_config_path_from(None, Some("/Users/a")).as_deref(),
        Some("/Users/a/.config/chainsaw/chainsaw.json")
    );
}

#[test]
fn settings_parse_should_work() {
    let settings = Settings::parse(r#"{"prompt-landing-seconds": -1}"#, DEFAULT).unwrap();

    assert_eq!(settings.prompt_landing_seconds(), -1);
}

#[test]
fn should_fail_when_the_cli_is_unknown() {
    let error = AgentCli::parse("hermes", DEFAULT).unwrap_err();
    assert_eq!(
        error.message(),
        r#"unknown agent cli "hermes"; expected default-cli, cursor, or codex"#
    );
}

#[test]
fn should_default_claude_to_opus_when_the_model_is_omitted() {
    let spec = AgentSpec::parse(&object(vec![("cli", Json::text("default-cli"))]), DEFAULT).unwrap();
    assert_eq!(spec, AgentSpec::claude_opus());
}

#[test]
fn should_omit_the_model_when_cursor_does_not_name_one() {
    let spec = AgentSpec::parse(&object(vec![("cli", Json::text("cursor"))]), DEFAULT).unwrap();
    assert_eq!(spec.model(), None);
}

#[test]
fn should_fail_when_cli_is_missing() {
    let error = AgentSpec::parse(&object(vec![("model", Json::text("opus"))]), DEFAULT).unwrap_err();
    assert_eq!(error.message(), "agent spec needs a cli");
}

#[test]
fn tests_should_fail_when_a_key_is_unknown() {
    let error = AgentSpec::parse(&object(vec![
        ("cli", Json::text("default-cli")),
        ("foo", Json::Integer(1)),
    ]), DEFAULT)
    .unwrap_err();
    assert_eq!(error.message(), r#"unknown agent setting "foo""#);
}

#[test]
fn should_fail_when_a_key_is_unknown() {
    let error = Settings::parse(r#"{"prompt-landing-secnds": 1}"#, DEFAULT).unwrap_err();
    assert_eq!(error.message(), r#"unknown setting "prompt-landing-secnds""#);
}

#[test]
fn should_omit_disable_slash_commands_for_a_commentator() {
    let spec = AgentSpec::claude_opus();
    let flags = spec.launch_flags(SessionKind::Commentator);

    assert!(!flags.iter().any(|flag| flag == "--disable-slash-commands"));
    assert_eq!(flags[0], "--model");
    assert_eq!(flags[1], "opus");
}

#[test]
fn should_trust_and_force_cursor() {
    let spec = AgentSpec::new(AgentCli::Cursor, Some("gpt-5".to_owned()), Vec::new()).unwrap();

    assert_eq!(
        spec.launch_flags(SessionKind::Implementer),
        ["--trust", "--force", "--model", "gpt-5"]
    );
}

#[test]
fn should_append_extra_args_after_cursor_defaults() {
    let spec =
        AgentSpec::new(AgentCli::Cursor, None, vec!["--approve-mcps".to_owned()]).unwrap();

    assert_eq!(
        spec.launch_flags(SessionKind::Implementer),
        ["--trust", "--force", "--approve-mcps"]
    );
}

#[test]
fn should_pass_no_flags_when_codex_has_no_model() {
    let spec = AgentSpec::new(AgentCli::Codex, None, Vec::new()).unwrap();

    assert!(spec.launch_flags(SessionKind::Implementer).is_empty());
}

#[test]
fn should_find_a_codex_rollout_by_session_id() {
    // sessions/2026/09/10/rollout-2026-09-10T01-00-00-sess-codex.jsonl
    let tree = vec![
        (0, vec![(1, "sessions", true)]),
        (1, vec![(2, "2026", true)]),
        (2, vec![(3, "09", true)]),
        (3, vec![(4, "10", true)]),
        (4, vec![(5, "rollout-2026-09-10T01-00-00-sess-codex.jsonl", false)]),
    ];
    assert_eq!(search(find_jsonl_containing(0, "sess-codex", 4), &tree), Some(5));
}

#[test]
fn search_keeps_to_its_depth_and_prefers_files_to_directories() {
    let tree = vec![
        (0, vec![(1, "a", true), (2, "b", true), (3, "other.jsonl", false)]),
        (1, vec![(4, "deep", true)]),
        (2, vec![(5, "x.jsonl", false)]),
        (4, vec![(6, "x.jsonl", false)]),
    ];
    // The tree is searched depth first, in the order of the listing.
    assert_eq!(search(find_named_jsonl(0, "x.jsonl", 2), &tree), Some(6));
    // One level less, and the deeper file is out of reach.
    assert_eq!(search(find_named_jsonl(0, "x.jsonl", 1), &tree), Some(5));
    assert_eq!(search(find_named_jsonl(0, "x.jsonl", 0), &tree), None);
    // Only the stem counts, and only for this extension.
    assert_eq!(search(find_jsonl_containing(0, "jsonl", 2), &tree), None);
    assert_eq!(search(find_jsonl_containing(0, "the", 0), &tree), Some(3));
    // A directory that cannot be listed holds nothing.
    assert_eq!(search(find_named_jsonl(9, "x.jsonl", 2), &tree), None);
}

fn environment() -> Environment {
    Environment {
        home: Some("/home/a".to_owned()),
        claude_config_dir: None,
        cursor_config_dir: Some("/etc/cursor".to_owned()),
        codex_home: None,
        chainsaw_config: None,
        default_cli: DEFAULT.to_owned(),
    }
}

#[test]
fn transcripts_are_looked_for_where_each_cli_keeps_them() {
    let env = environment();
    assert_eq!(
        expected_transcript(&env, AgentCli::Claude, "/src/ui.wt", "s").unwrap(),
        "/home/a/.default-cli/projects/-src-ui-wt/s.jsonl"
    );
    assert_eq!(
        expected_transcript(&env, AgentCli::Cursor, "/src/ui.wt", "s").unwrap(),
        "/etc/cursor/projects/src-ui.wt/agent-transcripts/s/s.jsonl"
    );
    let search = find_session_transcript(&env, AgentCli::Codex, "/src/ui.wt", "s");
    assert_eq!(search.expected.as_deref(), Some("/home/a/.codex/sessions/s.jsonl"));
    assert_eq!(search.root.as_deref(), Some("/home/a/.codex/sessions"));
    assert_eq!(search.max_depth, 4);
    assert!(matches!(search.rule, FileRule::JsonlContaining(needle) if needle == "s"));

    let nowhere = Environment { home: None, cursor_config_dir: None, ..environment() };
    let error = expected_transcript(&nowhere, AgentCli::Claude, "/src", "s").unwrap_err();
    assert_eq!(error.message(), "HOME is not set");
    let search = find_session_transcript(&nowhere, AgentCli::Cursor, "/src", "s");
    assert_eq!(search.expected, None);
    assert_eq!(search.root, None);
}

#[test]
fn a_session_log_is_looked_for_in_order() {
    let places = session_log(&environment(), AgentCli::Codex, "/src/ui.wt", "/logs", "s");
    assert_eq!(places.len(), 4);
    assert!(matches!(&places[0], LogPlace::File(path) if path == "/home/a/.codex/sessions/s.jsonl"));
    assert!(matches!(
        &places[1],
        LogPlace::Below { root, rule: FileRule::JsonlContaining(needle), max_depth: 4 }
            if root == "/home/a/.codex/sessions" && needle == "s"
    ));
    assert!(matches!(&places[2], LogPlace::File(path) if path == "/logs/s.jsonl"));
    assert!(matches!(&places[3], LogPlace::Beside(name) if name == "s.jsonl"));

    let nowhere = Environment { home: None, ..environment() };
    let places = session_log(&nowhere, AgentCli::Codex, "/src/ui.wt", "/logs", "s");
    assert_eq!(places.len(), 2);
    assert!(matches!(&places[0], LogPlace::File(path) if path == "/logs/s.jsonl"));
}

#[test]
fn agent_descriptions_are_refused_for_what_is_wrong_with_them() {
    let told = |text: &str| -> Error { AgentSpec::parse(&parse(text).unwrap(), DEFAULT).unwrap_err() };
    assert_eq!(told("[]").message(), "agent spec must be a JSON object");
    assert_eq!(told(r#"{"cli": 1}"#).message(), "agent cli must be a string");
    assert_eq!(told(r#"{"cli": "codex", "model": 1}"#).message(), "agent model must be a string");
    assert_eq!(
        told(r#"{"cli": "codex", "args": "x"}"#).message(),
        "agent args must be an array of strings"
    );
    assert_eq!(
        told(r#"{"cli": "codex", "args": [1]}"#).message(),
        "agent args must be an array of strings"
    );
    assert_eq!(told(r#"{"cli": "codex", "model": " "}"#).message(), "agent model cannot be blank");
    assert_eq!(
        told(r#"{"cli": "codex", "args": ["\t"]}"#).message(),
        "agent extra arg cannot be blank"
    );
}

#[test]
fn should_use_defaults_when_the_file_is_absent() {
    let settings = load_from(&absent("/run/chainsaw.json"), None, DEFAULT).unwrap();

    assert_eq!(settings, Settings::default());
}

#[test]
fn should_apply_the_global_file_when_the_run_file_is_absent() {
    let global = file(
        "/global/chainsaw.json",
        r#"{"agents":{"implementer":{"cli":"cursor","model":"composer-2.5"}}}"#,
    );

    let settings = load_from(&absent("/run/chainsaw.json"), Some(&global), DEFAULT).unwrap();

    assert_eq!(settings.agent(Role::Implementer).cli().as_str(DEFAULT), "cursor");
    assert_eq!(settings.agent(Role::Implementer).model(), Some("composer-2.5"));
    assert_eq!(settings.agent(Role::Lead), &AgentSpec::claude_opus());
}

#[test]
fn should_let_the_run_file_override_named_roles() {
    let global = file(
        "/global/chainsaw.json",
        r#"{
        "prompt-landing-seconds": 9,
        "agents": {
          "lead": {"cli": "default-cli", "model": "opus"},
          "implementer": {"cli": "cursor", "model": "composer-2.5"}
        }
      }"#,
    );
    let run = file(
        "/run/chainsaw.json",
        r#"{"agents":{"implementer":{"cli":"codex","model":"gpt-5.3-codex"}}}"#,
    );

    let settings = load_from(&run, Some(&global), DEFAULT).unwrap();

    assert_eq!(settings.prompt_landing_seconds(), 9);
    assert_eq!(settings.agent(Role::Lead).model(), Some("opus"));
    assert_eq!(settings.agent(Role::Implementer).cli().as_str(DEFAULT), "codex");
    assert_eq!(settings.agent(Role::Implementer).model(), Some("gpt-5.3-codex"));
}

#[test]
fn should_fail_naming_the_file_when_it_is_invalid() {
    let path = run_settings_path("/tmp/run");
    let error = load_from(&file(&path, "[]"), None, DEFAULT).unwrap_err();

    assert!(error.describe().contains(&format!("invalid settings in {}", path)));
    assert_eq!(
        error.message(),
        "invalid settings in /tmp/run/chainsaw.json: expected a JSON object at the top level"
    );
}

#[test]
fn should_fail_naming_the_global_file_when_it_is_invalid() {
    let path = "/tmp/global/chainsaw.json";
    let error =
        load_from(&absent("/tmp/run/chainsaw.json"), Some(&file(path, "[]")), DEFAULT).unwrap_err();

    assert!(error.describe().contains(&format!("invalid settings in {}", path)));
}

#[test]
fn should_use_the_env_path_when_set() {
    assert_eq!(
        global_config_path_from(Some("/tmp/custom.json".to_owned()), None).as_deref(),
        Some("/tmp/custom.json")
    );
}

#[test]
fn should_disable_the_global_file_when_the_env_is_empty() {
    assert_eq!(global_config_path_from(Some(String::new()), Some("/Users/a")), None);
}

#[test]
fn should_omit_the_global_file_when_home_is_unset() {
    assert_eq!(global_config_path_from(None, None), None);
}

#[test]
fn global_settings_are_found_through_the_environment() {
    assert_eq!(
        global_config_path(&environment()).as_deref(),
        Some("/home/a/.config/chainsaw/chainsaw.json")
    );
    let named =
        Environment { chainsaw_config: Some("/etc/c.json".to_owned()), ..environment() };
    assert_eq!(global_config_path(&named).as_deref(), Some("/etc/c.json"));
    let ignored = Environment { chainsaw_config: Some(String::new()), ..environment() };
    assert_eq!(global_config_path(&ignored), None);
}

#[test]
fn should_parse_per_role_agent_clis() {
    let settings = Settings::parse(
        r#"{
        "agents": {
          "lead": {"cli": "cursor", "model": "composer-2"},
          "implementer": {"cli": "codex", "model": "gpt-5.4", "args": ["--full-auto"]},
          "commentator": {"cli": "default-cli", "model": "sonnet"}
        }
      }"#, DEFAULT,)
    .unwrap();

    assert_eq!(settings.agent(Role::Lead).cli().as_str(DEFAULT), "cursor");
    assert_eq!(settings.agent(Role::Lead).model(), Some("composer-2"));
    assert_eq!(settings.agent(Role::Implementer).cli().as_str(DEFAULT), "codex");
    assert_eq!(settings.agent(Role::Implementer).model(), Some("gpt-5.4"));
    assert_eq!(settings.agent(Role::Implementer).args(), &["--full-auto".to_owned()]);
    assert_eq!(settings.agent(Role::Commentator).model(), Some("sonnet"));
}

#[test]
fn should_fail_when_an_agent_role_is_unknown() {
    let error = Settings::parse(r#"{"agents":{"watcher":{"cli":"default-cli"}}}"#, DEFAULT).unwrap_err();
    assert_eq!(error.message(), r#"unknown agent role "watcher""#);
}

#[test]
fn should_use_defaults_when_the_object_is_empty() {
    assert_eq!(Settings::parse("{}", DEFAULT).unwrap(), Settings::default());
}

#[test]
fn should_fail_when_the_top_level_is_not_an_object() {
    let error = Settings::parse("[1]", DEFAULT).unwrap_err();
    assert_eq!(error.message(), "expected a JSON object at the top level");
}

#[test]
fn should_fail_when_a_value_is_not_an_integer() {
    let error = Settings::parse(r#"{"prompt-landing-seconds": "15"}"#, DEFAULT).unwrap_err();
    assert_eq!(
        error.message(),
        r#"setting "prompt-landing-seconds" must be an integer, got "15""#
    );
}

#[test]
fn should_fail_when_the_text_is_not_json() {
    assert!(Settings::parse("nope", DEFAULT).is_err());
}

#[test]
fn settings_are_refused_for_what_is_wrong_with_them() {
    let told = |text: &str| Settings::parse(text, DEFAULT).unwrap_err();
    assert_eq!(told(r#"{"agents": 1}"#).message(), r#"setting "agents" must be a JSON object"#);
    assert_eq!(
        told(r#"{"agents": {"lead": {"model": "x"}}}"#).describe(),
        r#"setting "agents.lead": agent spec needs a cli"#
    );
    assert_eq!(
        told(r#"{"prompt-landing-seconds": 1.5}"#).message(),
        r#"setting "prompt-landing-seconds" must be an integer, got 1.5"#
    );
    assert_eq!(
        told(r#"{"prompt-landing-seconds": { "b" : [ 1, 2.50 ], "a" : null }}"#).message(),
        r#"setting "prompt-landing-seconds" must be an integer, got {"a":null,"b":[1,2.5]}"#
    );
    let unreadable = SettingsFile {
        path: "/run/chainsaw.json".to_owned(),
        content: FileContent::Unreadable("permission denied".to_owned()),
    };
    assert_eq!(
        load_from(&unreadable, None, DEFAULT).unwrap_err().describe(),
        "cannot read /run/chainsaw.json: permission denied"
    );
}

#[test]
fn a_later_file_keeps_what_it_does_not_name() {
    let global = file(
        "/global/chainsaw.json",
        r#"{"agents":{"lead":{"cli":"codex"},"commentator":{"cli":"cursor"}}}"#,
    );
    let run = file("/run/chainsaw.json", r#"{"agents":{"lead":{"cli":"default-cli"}}}"#);
    let settings = Settings::load(&run, Some(&global), DEFAULT).unwrap();

    assert_eq!(settings.agent(Role::Lead), &AgentSpec::claude_opus());
    assert_eq!(settings.agent(Role::Commentator).cli(), AgentCli::Cursor);
    assert_eq!(settings.agent(Role::Implementer), &AgentSpec::claude_opus());
    assert_eq!(settings.prompt_landing_seconds(), 15);
}
