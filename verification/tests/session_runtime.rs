use chainsaw::agent::{AgentCli, AgentSpec};
use chainsaw::dummy::{self, DummyOutcome, ZeroCostDummy};
use chainsaw::error::Error;
use chainsaw::herdr::{
    get_call, interrupt_call, prompt_call, query_result, reply, session_id_of, take_reply,
    wait_call, HerdrAction, HerdrOutput, HerdrSessionRuntime,
};
use chainsaw::json::{parse, parse_bytes, parse_document, parse_members, Json};
use chainsaw::session_runtime::{
    from_environment, unknown_runtime, RuntimeChoice, SessionKind, SessionQuery, StartSession,
    StartedSession,
};

/// Stands in for `herdr`: it keeps what it was called with, and answers in the shapes that the
/// command line answers in.
struct FakeHerdr {
    calls: Vec<Vec<String>>,
    rests: Vec<u64>,
}

impl FakeHerdr {
    fn new() -> FakeHerdr {
        FakeHerdr { calls: Vec::new(), rests: Vec::new() }
    }

    fn runtime(workspace: Option<&str>, tab_id: &str) -> HerdrSessionRuntime {
        HerdrSessionRuntime {
            program: "herdr".to_owned(),
            workspace: workspace.map(str::to_owned),
            tab_id: tab_id.to_owned(),
            default_cli: "default-cli".to_owned(),
            session_id_poll_interval_millis: 1,
            session_id_poll_attempts: 4,
        }
    }

    fn call(&mut self, args: Vec<String>) -> HerdrOutput {
        let verb = format!("{} {}", args[0], args[1]);
        let name = args.get(2).cloned().unwrap_or_default();
        let prompted = self.calls.iter().any(|call| call[1] == "prompt");
        self.calls.push(args);
        let text = |text: &str| HerdrOutput {
            success: true,
            stdout: text.as_bytes().to_vec(),
            stderr: String::new(),
        };
        let failure = |text: &str| HerdrOutput {
            success: false,
            stdout: Vec::new(),
            stderr: text.to_owned(),
        };
        match (verb.as_str(), name.as_str()) {
            ("tab create", _) => text(
                r#"{"result":{"root_pane":{"pane_id":"pane-7"},"tab":{"tab_id":"tab-7"}}}"#,
            ),
            ("pane split", _) => text(r#"{"result":{"pane":{"pane_id":"pane-9"}}}"#),
            ("agent start", "late-id" | "late-prompt" | "no-id" | "deaf") => {
                text(r#"{"result":{"agent":{"status":"starting"}}}"#)
            }
            ("agent start", "broken") => failure("pane is gone\n"),
            ("agent start", _) => text(
                r#"{"result":{"agent":{"agent_session":{"value":"sess-1"},"status":"idle"}}}"#,
            ),
            ("agent get", "missing" | "deaf") => failure("no such agent\n"),
            ("agent get", "malformed") => text("not json\n"),
            ("agent get", "no-id") => text(r#"{"result":{"agent":{"status":"starting"}}}"#),
            ("agent get", "late-prompt") if !prompted => {
                text(r#"{"result":{"agent":{"status":"starting"}}}"#)
            }
            ("agent get", "late-id" | "late-prompt") => text(
                r#"{"result":{"agent":{"agent_session":{"value":"abc"},"status":"idle"}}}"#,
            ),
            ("agent get", "live-shape") => text(
                r#"{"result":{"agent":{"agent_session":{"value":"sess-1"},"agent_status":"working"}}}"#,
            ),
            ("agent get", _) => text(
                r#"{"result":{"agent":{"agent_session":{"value":"sess-1"},"status":"busy"}}}"#,
            ),
            ("agent prompt" | "agent send-keys", _) => text(r#"{"result":{"delivered":true}}"#),
            ("agent wait", _) => text(r#"{"result":{"status":"idle"}}"#),
            _ => failure("unsupported"),
        }
    }

    fn start(
        &mut self,
        runtime: &HerdrSessionRuntime,
        id: &str,
        kind: SessionKind,
        agent: &AgentSpec,
    ) -> Result<StartedSession, Error> {
        let mut start = runtime.start(StartSession { id, run_dir: "/tmp/run", kind, agent })?;
        loop {
            start = match start.action() {
                HerdrAction::Request(args) => {
                    let output = self.call(args);
                    start.replied(reply(&output))
                }
                HerdrAction::Run(args) => {
                    let _ = self.call(args);
                    start.done()
                }
                HerdrAction::Rest(millis) => {
                    self.rests.push(millis);
                    start.done()
                }
                HerdrAction::Started(session) => return Ok(session),
                HerdrAction::Failed(error) => return Err(error),
            };
        }
    }

    fn query(&mut self, id: &str) -> Result<Option<SessionQuery>, Error> {
        let output = self.call(get_call(id));
        query_result(reply(&output))
    }
}

#[test]
fn session_runtime_should_work() {
    let mut herdr = FakeHerdr::new();
    let runtime = FakeHerdr::runtime(Some("workspace-1"), "ambient-tab");
    let agent = AgentSpec::claude_opus();

    let started = herdr.start(&runtime, "worker", SessionKind::Implementer, &agent).unwrap();

    assert_eq!(started.external_id, "sess-1");
    assert_eq!(started.pane_id, "pane-7");
    assert_eq!(started.tab_id, "tab-7");
    assert_eq!(
        herdr.calls[0],
        [
            "tab",
            "create",
            "--workspace",
            "workspace-1",
            "--label",
            "worker",
            "--cwd",
            "/tmp/run",
            "--no-focus"
        ]
    );
    assert_eq!(
        herdr.calls[1][..8],
        ["agent", "start", "worker", "--kind", "default-cli", "--pane", "pane-7", "--"]
    );
    assert_eq!(herdr.calls[1][8..], agent.launch_flags(SessionKind::Implementer)[..]);
}

#[test]
fn query_should_work() {
    let mut herdr = FakeHerdr::new();
    let session = herdr.query("worker").unwrap().unwrap();
    assert_eq!(session.external_id, "sess-1");
    assert_eq!(session.status, "busy");
    assert_eq!(herdr.calls[0], ["agent", "get", "worker"]);
}

#[test]
fn prompt_should_work() {
    assert_eq!(
        prompt_call("worker", "do the thing"),
        ["agent", "prompt", "worker", "do the thing"]
    );
}

#[test]
fn interrupt_should_work() {
    assert_eq!(interrupt_call("worker"), ["agent", "send-keys", "worker", "esc"]);
}

#[test]
fn wait_should_work() {
    assert_eq!(wait_call("worker", 30_000), ["agent", "wait", "worker", "--timeout", "30000"]);
}

#[test]
fn should_start_cursor_with_the_configured_model() {
    let mut herdr = FakeHerdr::new();
    let runtime = FakeHerdr::runtime(Some("workspace-1"), "ambient-tab");
    let agent = AgentSpec::new(AgentCli::Cursor, Some("gpt-5".to_owned()), Vec::new()).unwrap();

    herdr.start(&runtime, "worker", SessionKind::Implementer, &agent).unwrap();

    let start = &herdr.calls[1];
    assert_eq!(
        start[..8],
        ["agent", "start", "worker", "--kind", "cursor", "--pane", "pane-7", "--"]
    );
    assert_eq!(start[8..], ["--trust", "--force", "--model", "gpt-5"]);
}

#[test]
fn should_start_codex_with_the_configured_model() {
    let mut herdr = FakeHerdr::new();
    let runtime = FakeHerdr::runtime(Some("workspace-1"), "ambient-tab");
    let agent = AgentSpec::new(
        AgentCli::Codex,
        Some("gpt-5.4".to_owned()),
        vec!["--full-auto".to_owned()],
    )
    .unwrap();

    herdr.start(&runtime, "worker", SessionKind::Implementer, &agent).unwrap();

    let start = &herdr.calls[1];
    assert_eq!(start[4], "codex");
    assert_eq!(start[8..], ["--model", "gpt-5.4", "--full-auto"]);
}

#[test]
fn should_split_the_current_pane_and_keep_the_ambient_tab_for_a_commentator() {
    let mut herdr = FakeHerdr::new();
    let runtime = FakeHerdr::runtime(Some("workspace-1"), "ambient-tab");
    let agent = AgentSpec::claude_opus();

    let started = herdr.start(&runtime, "commentator", SessionKind::Commentator, &agent).unwrap();

    assert_eq!(started.pane_id, "pane-9");
    assert_eq!(started.tab_id, "ambient-tab");
    assert_eq!(
        herdr.calls[0],
        [
            "pane",
            "split",
            "--current",
            "--direction",
            "right",
            "--cwd",
            "/tmp/run",
            "--no-focus"
        ]
    );
}

#[test]
fn should_poll_agent_get_when_agent_start_reports_no_session_id() {
    let mut herdr = FakeHerdr::new();
    let runtime = FakeHerdr::runtime(Some("workspace-1"), "ambient-tab");
    let agent = AgentSpec::claude_opus();

    let started = herdr.start(&runtime, "late-id", SessionKind::Implementer, &agent).unwrap();

    assert_eq!(started.external_id, "abc");
    let calls = &herdr.calls;
    assert_eq!(calls[1][..3], ["agent", "start", "late-id"]);
    assert_eq!(calls[2], ["agent", "wait", "late-id", "--timeout", "60000"]);
    assert_eq!(calls[3], ["agent", "get", "late-id"]);
    assert!(!calls.iter().any(|call| call.get(1).map(String::as_str) == Some("prompt")));
}

#[test]
fn should_prompt_when_agent_get_has_no_session_id_until_then() {
    let mut herdr = FakeHerdr::new();
    let runtime = FakeHerdr::runtime(Some("workspace-1"), "ambient-tab");
    let agent = AgentSpec::claude_opus();

    let started = herdr.start(&runtime, "late-prompt", SessionKind::Implementer, &agent).unwrap();

    assert_eq!(started.external_id, "abc");
    assert!(herdr.calls.iter().any(|call| {
        call[..]
            == [
                "agent",
                "prompt",
                "late-prompt",
                "Ready. Wait for your task; do not edit files.",
            ]
    }));
}

#[test]
fn should_fail_when_agent_get_never_reports_a_session_id() {
    let mut herdr = FakeHerdr::new();
    let runtime = FakeHerdr::runtime(Some("workspace-1"), "ambient-tab");
    let agent = AgentSpec::claude_opus();

    let error = herdr.start(&runtime, "no-id", SessionKind::Implementer, &agent).unwrap_err();

    assert_eq!(error.message(), "herdr agent never reported a session id");
    assert_eq!(
        error.describe(),
        "herdr agent never reported a session id: herdr response lacks /result/agent/agent_session/value"
    );
    let gets = herdr.calls.iter().filter(|call| call[..2] == ["agent", "get"]).count();
    assert_eq!(gets as u64, runtime.session_id_poll_attempts + 1);
    assert!(herdr.calls.iter().any(|call| call[..3] == ["agent", "prompt", "no-id"]));
    assert_eq!(herdr.rests, [1, 1, 1, 1]);
}

#[test]
fn should_fail_when_the_supervisor_is_not_inside_a_herdr_pane() {
    let mut herdr = FakeHerdr::new();
    let runtime = FakeHerdr::runtime(None, "");
    let agent = AgentSpec::claude_opus();

    let error = herdr.start(&runtime, "worker", SessionKind::Implementer, &agent).unwrap_err();

    assert_eq!(error.message(), "supervisor: must run inside a Herdr pane");
    assert!(herdr.calls.is_empty());
}

#[test]
fn should_report_nothing_when_herdr_does_not_know_the_agent() {
    assert!(FakeHerdr::new().query("missing").unwrap().is_none());
}

#[test]
fn should_read_herdr_agent_status_when_status_is_absent() {
    let session = FakeHerdr::new().query("live-shape").unwrap().unwrap();

    assert_eq!(session.status, "working");
}

#[test]
fn should_report_nothing_when_herdr_answers_with_invalid_json() {
    assert!(FakeHerdr::new().query("malformed").unwrap().is_none());
}

#[test]
fn a_failing_start_is_tried_five_times() {
    let mut herdr = FakeHerdr::new();
    let runtime = FakeHerdr::runtime(Some("workspace-1"), "ambient-tab");
    let agent = AgentSpec::claude_opus();

    let error = herdr.start(&runtime, "broken", SessionKind::Implementer, &agent).unwrap_err();

    assert_eq!(error.message(), "herdr failed: pane is gone");
    assert_eq!(herdr.calls.iter().filter(|call| call[1] == "start").count(), 5);
    assert_eq!(herdr.rests, [2000, 2000, 2000, 2000]);
}

#[test]
fn an_agent_that_never_answers_is_missing_its_id() {
    let mut herdr = FakeHerdr::new();
    let runtime = FakeHerdr::runtime(Some("workspace-1"), "ambient-tab");
    let agent = AgentSpec::claude_opus();

    let error = herdr.start(&runtime, "deaf", SessionKind::Implementer, &agent).unwrap_err();

    assert_eq!(
        error.describe(),
        "herdr agent never reported a session id: missing session id"
    );
}

#[test]
fn replies_of_herdr_are_read_as_they_come() {
    let output = |success: bool, stdout: &[u8], stderr: &str| HerdrOutput {
        success,
        stdout: stdout.to_vec(),
        stderr: stderr.to_owned(),
    };
    assert_eq!(
        reply(&output(false, b"{}", " no such pane \n")).unwrap_err().message(),
        "herdr failed: no such pane"
    );
    let error = reply(&output(true, b"nope", "")).unwrap_err();
    assert_eq!(error.message(), "herdr returned invalid JSON");
    assert!(error.describe().starts_with("herdr returned invalid JSON: expected ident"));
    assert_eq!(
        reply(&output(true, &[34, 255, 34], "")).unwrap_err().message(),
        "herdr returned invalid JSON"
    );
    let value = reply(&output(true, br#"{"result":{"agent":{}}}"#, "")).unwrap();
    assert_eq!(
        session_id_of(&value).unwrap_err().message(),
        "herdr response lacks /result/agent/agent_session/value"
    );
    assert_eq!(
        take_reply(Err(Error::from_text("x"))).unwrap_err().describe(),
        "herdr returned invalid JSON: x"
    );
    // A session id without a status is an error of the reply.
    let value = parse(r#"{"result":{"agent":{"agent_session":{"value":"s"}}}}"#).unwrap();
    assert_eq!(
        query_result(Ok(value)).unwrap_err().message(),
        "herdr response lacks /result/agent/status"
    );
}

#[test]
fn the_pane_is_taken_from_the_environment() {
    let runtime = HerdrSessionRuntime::from_environment(None, None, "x".to_owned());
    assert_eq!(runtime.program, "herdr");
    assert_eq!(runtime.tab_id, "");
    assert_eq!(runtime.session_id_poll_interval_millis, 2000);
    assert_eq!(runtime.session_id_poll_attempts, 30);
}

#[test]
fn runtimes_are_chosen_by_name() {
    assert_eq!(from_environment(None).unwrap(), RuntimeChoice::Herdr);
    assert_eq!(from_environment(Some("herdr")).unwrap(), RuntimeChoice::Herdr);
    assert_eq!(from_environment(Some("dummy")).unwrap(), RuntimeChoice::ZeroCostDummy);
    assert_eq!(from_environment(Some("zero-cost-dummy")).unwrap(), RuntimeChoice::ZeroCostDummy);
    assert_eq!(
        from_environment(Some("tm\"ux")).unwrap_err().message(),
        r#"unknown CHAINSAW_SESSION_RUNTIME value "tm\"ux""#
    );
    assert_eq!(
        unknown_runtime("X").message(),
        "unknown CHAINSAW_SESSION_RUNTIME value X"
    );
    assert_eq!(
        ZeroCostDummy::from_environment(None).unwrap_err().message(),
        "CHAINSAW_ZERO_COST_DUMMY_STATE is not set"
    );
    assert_eq!(ZeroCostDummy::new("/s.json".to_owned()).state_path, "/s.json");
}

/// Writes a value without spaces, members in the order they stand.
fn show(value: &Json) -> String {
    match value {
        Json::Null => "null".to_owned(),
        Json::Bool(value) => value.to_string(),
        Json::Integer(value) => value.to_string(),
        Json::Decimal(text) => text.clone(),
        Json::Text(text) => format!("{text:?}"),
        Json::Array(items) => {
            format!("[{}]", items.iter().map(show).collect::<Vec<_>>().join(","))
        }
        Json::Object(fields) => format!(
            "{{{}}}",
            fields
                .iter()
                .map(|field| format!("{:?}:{}", field.key, show(&field.value)))
                .collect::<Vec<_>>()
                .join(",")
        ),
    }
}

fn agent<'a>(state: &'a Json, id: &str) -> &'a Json {
    state.get("agents").unwrap().get(id).unwrap()
}

fn entries<T>(outcome: &DummyOutcome<T>) -> Vec<String> {
    outcome
        .appends
        .iter()
        .map(|append| {
            format!("{} {} {}", append.run_dir, append.external_id, show(&append.entry))
        })
        .collect()
}

#[test]
fn should_clear_a_dummy_session_queue_and_make_it_idle() {
    let state = parse(
        r#"{
          "agents": {
            "worker": {
              "session_id": "session-worker-1",
              "status": "busy",
              "run_dir": "/tmp/run",
              "queued": ["stale work"]
            }
          },
          "panes": {},
          "sequence": 1,
          "drop_prompts": 0,
          "operations": []
        }"#,
    )
    .unwrap();

    let outcome = dummy::interrupt(state, "worker");

    let (state, ()) = outcome.result.unwrap();
    assert_eq!(agent(&state, "worker").get_str("status"), Some("idle"));
    assert_eq!(show(agent(&state, "worker").get("queued").unwrap()), "[]");
    assert_eq!(
        show(state.get("operations").unwrap()),
        r#"[{"operation":"interrupt","session_id":"worker"}]"#
    );
}

fn start_worker(state: Json) -> (Json, StartedSession) {
    let agent = AgentSpec::claude_opus();
    dummy::start(
        state,
        StartSession {
            id: "worker",
            run_dir: "/tmp/run",
            kind: SessionKind::Implementer,
            agent: &agent,
        },
    )
    .result
    .unwrap()
}

#[test]
fn a_dummy_session_lives_from_start_to_prompt() {
    let (state, started) = start_worker(dummy::empty_state());
    assert_eq!(started.external_id, "session-worker-1");
    assert_eq!(started.pane_id, "pane-1");
    assert_eq!(started.tab_id, "tab-1");

    let outcome = dummy::query(state, "worker");
    let (state, known) = outcome.result.unwrap();
    let known = known.unwrap();
    assert_eq!(known.external_id, "session-worker-1");
    assert_eq!(known.status, "idle");

    let outcome = dummy::prompt(state, "worker", "go", "now");
    assert_eq!(
        entries(&outcome),
        [r#"/tmp/run session-worker-1 {"type":"user","message":{"content":"go"}}"#]
    );
    let (state, ()) = outcome.result.unwrap();
    let state = state.with("reply_on_prompt", Json::text("done"));
    let outcome = dummy::prompt(state, "worker", "more", "now");
    assert_eq!(
        entries(&outcome),
        [
            r#"/tmp/run session-worker-1 {"type":"user","message":{"content":"more"}}"#,
            r#"/tmp/run session-worker-1 {"type":"assistant","message":{"content":[{"type":"text","text":"done"}]}}"#,
        ]
    );
    let (state, ()) = outcome.result.unwrap();
    assert_eq!(
        show(state.get("operations").unwrap()),
        concat_operations(&[
            r#"{"operation":"start","session_id":"worker","kind":"implementer"}"#,
            r#"{"operation":"query","session_id":"worker"}"#,
            r#"{"operation":"prompt","session_id":"worker","text":"go"}"#,
            r#"{"operation":"prompt","session_id":"worker","text":"more"}"#,
        ])
    );
    let (_, again) = start_worker(state);
    assert_eq!(again.external_id, "session-worker-2");
}

fn concat_operations(operations: &[&str]) -> String {
    format!("[{}]", operations.join(","))
}

#[test]
fn a_busy_dummy_session_queues_and_later_delivers_in_order() {
    let state = parse(
        r#"{"agents":{"w":{"session_id":"s","status":"busy","run_dir":"/r"}},
            "panes":{},"sequence":1,"drop_prompts":0,"operations":[]}"#,
    )
    .unwrap();
    let outcome = dummy::prompt(state, "w", "one", "t1");
    assert_eq!(
        entries(&outcome),
        [
            r#"/r s {"type":"queue-operation","operation":"enqueue","content":"one","timestamp":"t1"}"#
        ]
    );
    let (state, ()) = outcome.result.unwrap();
    let (state, ()) = dummy::prompt(state, "w", "two", "t2").result.unwrap();
    assert_eq!(show(agent(&state, "w").get("queued").unwrap()), r#"["one","two"]"#);

    let outcome = dummy::look_at(state, "w");
    assert!(outcome.appends.is_empty());
    let (state, idle) = outcome.result.unwrap();
    assert!(!idle);

    let agents = state.get("agents").unwrap().copy();
    let session = agents.get("w").unwrap().copy().with("status", Json::text("idle"));
    let state = state.with("agents", agents.with("w", session));
    let outcome = dummy::look_at(state, "w");
    assert_eq!(
        entries(&outcome),
        [
            r#"/r s {"type":"user","message":{"content":"one"}}"#,
            r#"/r s {"type":"user","message":{"content":"two"}}"#,
        ]
    );
    let (state, idle) = outcome.result.unwrap();
    assert!(idle);
    assert_eq!(show(agent(&state, "w").get("queued").unwrap()), "[]");
}

#[test]
fn dropped_and_held_prompts_leave_no_trace_in_the_transcript() {
    let state = parse(
        r#"{"agents":{"w":{"session_id":"s","status":"idle","run_dir":"/r"}},
            "panes":{},"sequence":1,"drop_prompts":1,"hold_transcript":true,"operations":[]}"#,
    )
    .unwrap();
    let outcome = dummy::prompt(state, "w", "one", "t");
    assert!(outcome.appends.is_empty());
    let (state, ()) = outcome.result.unwrap();
    assert_eq!(state.get("drop_prompts").unwrap().as_u64(), Some(0));
    assert_eq!(agent(&state, "w").get_str("status"), Some("idle"));

    let outcome = dummy::prompt(state, "w", "two", "t");
    assert!(outcome.appends.is_empty());
    let (state, ()) = outcome.result.unwrap();
    assert_eq!(agent(&state, "w").get_str("status"), Some("working"));
}

#[test]
fn dummy_operations_fail_on_what_the_state_lacks() {
    let told = |text: &str| -> String {
        let state = parse(text).unwrap();
        dummy::query(state, "w").result.unwrap_err().message().to_owned()
    };
    assert_eq!(told("{}"), "dummy runtime state field \"agents\" is not an object");
    assert_eq!(
        told(r#"{"agents":{}}"#),
        "dummy runtime state field \"operations\" is not an array"
    );
    assert_eq!(
        told(r#"{"agents":{"w":{}},"operations":[]}"#),
        "dummy session lacks session_id"
    );
    assert_eq!(
        told(r#"{"agents":{"w":{"queued":["x"]}},"operations":[]}"#),
        "dummy session lacks run_dir"
    );
    let bare = || parse(r#"{"agents":{},"operations":[]}"#).unwrap();
    assert_eq!(
        dummy::interrupt(bare(), "w").result.unwrap_err().message(),
        "dummy session w does not exist"
    );
    assert_eq!(
        dummy::prompt(bare(), "w", "x", "t").result.unwrap_err().message(),
        "dummy session w does not exist"
    );
    assert!(dummy::query(bare(), "w").result.unwrap().1.is_none());
    let agent = AgentSpec::claude_opus();
    let session = StartSession {
        id: "w",
        run_dir: "/r",
        kind: SessionKind::Commentator,
        agent: &agent,
    };
    assert_eq!(
        dummy::start(bare(), session).result.unwrap_err().message(),
        "dummy runtime state field \"panes\" is not an object"
    );
}

#[test]
fn a_wait_for_a_dummy_session_is_on_record() {
    let outcome = dummy::begin_wait(dummy::empty_state(), "w", 30_000);
    let (state, ()) = outcome.result.unwrap();
    assert_eq!(
        show(state.get("operations").unwrap()),
        r#"[{"operation":"wait","session_id":"w","timeout_ms":30000}]"#
    );
}

#[test]
fn json_is_read_whole() {
    let text = r#" {"b": [1, -2, 1.5, "x\n", true, null], "a": {"k": "v"}} "#;
    let value = parse(text).unwrap();
    assert_eq!(show(&value), r#"{"a":{"k":"v"},"b":[1,-2,1.5,"x\n",true,null]}"#);
    assert_eq!(show(&parse_bytes(&text.as_bytes().to_vec()).unwrap()), show(&value));
    assert!(parse("{").is_err());
    assert!(parse_bytes(&b"{".to_vec()).is_err());

    let document = parse_document(text).unwrap();
    assert_eq!(document.compact, r#"{"a":{"k":"v"},"b":[1,-2,1.5,"x\n",true,null]}"#);

    let members = parse_members(text).unwrap().unwrap();
    assert_eq!(members[0].key, "a");
    assert_eq!(members[0].compact, r#"{"k":"v"}"#);
    assert!(parse_members("[]").unwrap().is_none());
    assert!(parse_members("nope").is_err());

    assert_eq!(value.get("a").unwrap().get_str("k"), Some("v"));
    let changed = value.with("a", Json::Integer(7));
    assert_eq!(changed.get("a").unwrap().as_i64(), Some(7));
    assert_eq!(changed.get("b").unwrap().as_array().unwrap().len(), 6);
}

#[test]
fn a_wait_ends_with_the_work_or_with_the_time() {
    assert!(dummy::wait_is_over(true, 0, 30_000));
    assert!(!dummy::wait_is_over(false, 29_999, 30_000));
    assert!(dummy::wait_is_over(false, 30_000, 30_000));
    assert!(dummy::wait_is_over(false, 0, 0));
}

#[test]
fn a_nested_decimal_is_read_as_one_at_the_top() {
    for text in ["2.50", "0.1", "1e300", "9007199254740993.1", "8.41e21", "123456789012345678901234567890"] {
        let Ok(Json::Decimal(alone)) = parse(text) else {
            panic!("{text} is a decimal");
        };
        let Ok(Json::Array(outer)) = parse(&format!("[ [ [ {text} ] ] ]")) else {
            panic!("an array");
        };
        let Json::Array(middle) = &outer[0] else {
            panic!("an array");
        };
        let Json::Array(inner) = &middle[0] else {
            panic!("an array");
        };
        assert!(matches!(&inner[0], Json::Decimal(nested) if *nested == alone));
    }
}
