use chainsaw::abort::{
    abort_event, abort_message, abort_reached, abort_report, check_abort, failures_in_lineage,
    AbortReach,
};
use chainsaw::acceptance::{
    check_accept, forced_acceptance, gate_begins, gate_next, has_attribution_trailer,
    head_advanced_cleanly, new_commit_for, pass_the_gate, AcceptRoute, CommitQuestion, CommitShown,
    CommitStep, GateStage, GateVerdict,
};
use chainsaw::agent::{AgentCli, AgentSpec};
use chainsaw::calibration::{
    calibrated_commit, calibration_line, calibration_row, changed_lines, context_end, next_offset,
    number_captured, stat_number, time_out, CalibrationRow, StatNoun,
};
use chainsaw::command::{human_wait, is_lead_facing, stop, Command, HumanWaitAction, Verdict, WaitChange};
use chainsaw::commentator::{commentator_agent_name, commentator_brief, commentator_name};
use chainsaw::communication::{
    check_poll, launch_report, poll_report, require_finding, resolutions_report, resolved_line,
    unresolved, Finding, Observation,
};
use chainsaw::daemon::{
    abbreviation, commentator_log_mentions, goes_on, has_stalled, implementer_transcript_sizes,
    kick_if_stalled, line_says, observe_commentary, observe_implementer, observe_lead,
    register_lead, session_cli, should_compact, still_compacting, CommentaryStep, DaemonMemory,
    ImplementerStep,
};
use chainsaw::error::Error;
use chainsaw::json::{parse_document, Json};
use chainsaw::moments::{clock_time, Moment, FIRST_MILLIS, LAST_MILLIS};
use chainsaw::number::{decimal_text, parse_i64};
use chainsaw::planning::{
    check_dispatch, dispatch_event, dispatch_prompt, dispatch_report, files_changed_since_launch,
    plan_task_new, session_name, split_file_names,
};
use chainsaw::prompt::{
    agent_is_active, agent_is_idle, answer_text, unreachable_event, PromptLanding, PromptMissed,
    Prompting,
};
use chainsaw::remedies::{
    check_new_commit, check_record_commentary, check_record_commit, commit_revision,
    forced_commentary, forced_commit, forced_remedy_reason, is_commit_name, require_task,
};
use chainsaw::session::{Role, Session};
use chainsaw::sizes::NamedSize;
use chainsaw::state_report::{
    context_line, event_line, event_line_with, find_marks, is_asked_for, session_line, short_sha,
    state_line, state_report, task_line, task_line_with, time_line, time_spent, HumanWait, Mark,
    RecentEvent, RunState, TimeSpent,
};
use chainsaw::task::{Task, TaskEvent, TaskState};
use chainsaw::text::{join, lines, pad_left, pad_right, split, take_bytes, trim, trim_end};
use chainsaw::warnings::{duration_text, standing_warnings};

const DEFAULT: &str = "default-cli";

fn task(id: i64, state: TaskState) -> Task {
    Task {
        id,
        text: "do it\n".to_owned(),
        state,
        events: Vec::new(),
        session_id: None,
        commit_sha: None,
        base_head: None,
        log_offset: 0,
        retry_of_task_id: None,
        predicted_files: 2,
        predicted_lines: 30,
        context_size_start: None,
        reason: None,
    }
}

fn at(state: TaskState, created_at: i64) -> TaskEvent {
    TaskEvent { state, created_at }
}

fn session(id: i64, name: &str, role: Role, context: i64) -> Session {
    Session::new(
        id,
        name.to_owned(),
        role,
        format!("ext-{name}"),
        None,
        0,
        None,
        context,
        context,
        0,
        None,
    )
    .unwrap()
}

fn stopped(id: i64, name: &str, role: Role) -> Session {
    Session::new(
        id,
        name.to_owned(),
        role,
        format!("ext-{name}"),
        None,
        0,
        Some(5),
        0,
        0,
        0,
        Some(1),
    )
    .unwrap()
}

#[test]
fn sessions_are_refused_for_what_is_wrong_with_them() {
    let told = |id: i64, name: &str, context: i64, max: i64, stop: i64, growth: i64, kick: i64| {
        Session::new(
            id,
            name.to_owned(),
            Role::Lead,
            "x".to_owned(),
            None,
            10,
            Some(stop),
            context,
            max,
            growth,
            Some(kick),
        )
        .map(|_| ())
        .map_err(|error| error.message().to_owned())
    };
    assert_eq!(told(1, "a", 0, 0, 10, 10, 10), Ok(()));
    assert!(told(0, "a", 0, 0, 10, 10, 10).is_err());
    assert!(told(1, " ", 0, 0, 10, 10, 10).is_err());
    assert!(told(1, "a", -1, 0, 10, 10, 10).is_err());
    assert_eq!(
        told(1, "a", 2, 1, 10, 10, 10),
        Err("context_max cannot be below context".to_owned())
    );
    assert_eq!(
        told(1, "a", 0, 0, 9, 10, 10),
        Err("stopped_at cannot precede started_at".to_owned())
    );
    assert_eq!(
        told(1, "a", 0, 0, 10, 9, 10),
        Err("last_growth cannot precede started_at".to_owned())
    );
    assert_eq!(
        told(1, "a", 0, 0, 10, 10, 9),
        Err("kicked_at cannot precede started_at".to_owned())
    );
}

#[test]
fn roles_are_read_back() {
    for role in [Role::Lead, Role::Implementer, Role::Commentator] {
        assert_eq!(Role::try_from(role.as_str()).unwrap(), role);
    }
    assert_eq!(
        Role::try_from("boss").unwrap_err().message(),
        r#"unknown session role "boss""#
    );
}

#[test]
fn sessions_know_what_they_can_do() {
    let worker = session(1, "w", Role::Implementer, 5);
    assert!(worker.is_live() && worker.can_take_task() && worker.can_be_kicked());
    assert_eq!(worker.quiet_seconds(2999), 2);
    assert_eq!(worker.quiet_seconds(-5), 0);
    assert!(!session(1, "l", Role::Lead, 0).can_take_task());
    assert!(!stopped(1, "w", Role::Implementer).can_take_task());
}

#[test]
fn warnings_tell_what_the_lead_must_act_on() {
    let mut committed = task(3, TaskState::CommittedUnverified);
    committed.events = vec![at(TaskState::CommittedUnverified, 1_000)];
    let out = task(4, TaskState::InFlight);
    let warnings = standing_warnings(
        &vec![session(1, "lead", Role::Lead, 250_001)],
        &vec![committed, out],
        Some("400000"),
        None,
        602_000,
    );
    assert_eq!(
        warnings,
        [
            "lead context 250001 is past 250000: stop the run per the skill's Stopping section",
            "task 3 committed_unverified for 10m, not accepted or aborted",
            "no state read for 3m while task 4 is out: is a monitor armed on `state --task 4`?",
            "no daemon has run for this run: nothing observes sessions until `daemon` is started",
        ]
    );
    assert_eq!(
        standing_warnings(
            &vec![session(1, "lead", Role::Lead, 200_001)],
            &vec![task(4, TaskState::Dispatched)],
            None,
            Some("568999"),
            600_000,
        ),
        [
            "lead context 200001 of 250000",
            "state has never been read while task 4 is out: is a monitor armed on `state --task 4`?",
            "no daemon has polled for 31s: nothing observes sessions until `daemon` is started",
        ]
    );
    // Nothing is said when all is well.
    assert!(standing_warnings(
        &vec![session(1, "lead", Role::Lead, 200_000)],
        &vec![task(4, TaskState::Accepted)],
        None,
        Some("570000"),
        600_000,
    )
    .is_empty());
    assert_eq!(duration_text(59), "59s");
    assert_eq!(duration_text(60), "1m");
}

#[test]
fn commands_that_the_lead_reads_are_told_apart() {
    assert!(is_lead_facing(&Command::Resolutions));
    assert!(!is_lead_facing(&Command::Stop));
    assert!(!is_lead_facing(&Command::LogsDir));
    let outcome = stop();
    assert_eq!(outcome.event.kind, "stop");
    assert_eq!(outcome.line, "supervisor: stopped; the daemon will exit on its next poll");
}

#[test]
fn only_one_human_wait_is_open() {
    assert_eq!(human_wait(HumanWaitAction::Start, false), Some(WaitChange::Open));
    assert_eq!(human_wait(HumanWaitAction::Start, true), None);
    assert!(human_wait(HumanWaitAction::End, true).is_some());
}

#[test]
fn tasks_are_planned_or_refused() {
    let plan =
        plan_task_new("x", None, None, Some("a.rs, ,b.rs"), None, None).unwrap();
    assert_eq!(plan.predicted_files, 2);
    assert_eq!(plan.file_list.unwrap(), ["a.rs", "b.rs"]);
    assert!(plan.aborts.is_none());

    let told = |text: &str, retry: Option<i64>, before: Option<&Task>, files: Option<&str>, count: Option<i64>, reason: Option<&str>| {
        plan_task_new(text, retry, before, files, count, reason).unwrap_err().message().to_owned()
    };
    assert_eq!(
        told(" \n", None, None, None, Some(1), None),
        "supervisor: task text on stdin is empty"
    );
    assert_eq!(
        told("x", Some(7), None, None, Some(1), None),
        "supervisor: --retry-of 7 is not aborted, dispatched, or in flight"
    );
    let flying = task(7, TaskState::InFlight);
    assert_eq!(
        told("x", Some(7), Some(&flying), None, Some(1), Some(" ")),
        "supervisor: --retry-of 7 requires a non-empty --reason while the predecessor is in_flight"
    );
    assert_eq!(
        told("x", None, None, Some("a"), Some(3), None),
        "supervisor: --predicted-files 3 disagrees with --files (1 names); give one or the other"
    );
    assert_eq!(
        told("x", None, None, None, None, None),
        "supervisor: task new needs --files a,b,c or --predicted-files N"
    );
    let plan = plan_task_new("x", Some(7), Some(&flying), None, Some(1), Some("late")).unwrap();
    assert_eq!(plan.aborts, Some((7, "late".to_owned())));
    let aborted = task(7, TaskState::Aborted);
    let plan = plan_task_new("x", Some(7), Some(&aborted), None, Some(1), None).unwrap();
    assert!(plan.aborts.is_none());
    assert_eq!(split_file_names(" a ,,b "), ["a", "b"]);
}

#[test]
fn tasks_go_only_to_fresh_implementers() {
    let drafted = task(2, TaskState::Drafted);
    let worker = session(5, "w", Role::Implementer, 0);
    let people = vec![session(4, "v", Role::Implementer, 0)];
    assert!(check_dispatch(
        2,
        Some(&drafted),
        &vec![task(1, TaskState::Accepted)],
        &people,
        "w",
        Some(&worker),
        &Vec::new()
    )
    .is_ok());
    let told = |drafted: Option<&Task>, tasks: Vec<Task>, found: Option<&Session>, earlier: Vec<Task>| {
        check_dispatch(2, drafted, &tasks, &people, "w", found, &earlier)
            .map(|_| ())
            .unwrap_err()
            .message()
            .to_owned()
    };
    assert_eq!(
        told(None, vec![], Some(&worker), vec![]),
        "supervisor: task 2 is not in state drafted"
    );
    let mut flying = task(9, TaskState::Dispatched);
    flying.session_id = Some(4);
    assert_eq!(
        told(Some(&drafted), vec![flying], Some(&worker), vec![]),
        "supervisor: an implementer is already in flight (v is in flight on task 9)"
    );
    assert_eq!(
        told(Some(&drafted), vec![], None, vec![]),
        "supervisor: no session w; launch it first"
    );
    assert_eq!(
        told(Some(&drafted), vec![], Some(&session(6, "w", Role::Lead, 0)), vec![]),
        "supervisor: w is the lead, not an implementer; only implementers take tasks"
    );
    assert_eq!(
        told(Some(&drafted), vec![], Some(&stopped(6, "w", Role::Implementer)), vec![]),
        "supervisor: w is stopped; launch it again first"
    );
    assert_eq!(
        told(Some(&drafted), vec![], Some(&worker), vec![task(1, TaskState::Accepted)]),
        "supervisor: w already took task 1 (accepted); every task gets a fresh implementer"
    );
    assert_eq!(session_name(&people, Some(4)), "v");
    assert_eq!(session_name(&people, None), "-");
}

#[test]
fn a_dispatch_is_told_in_full() {
    assert_eq!(files_changed_since_launch(""), "");
    let preamble = files_changed_since_launch("a.rs\nb.rs");
    assert_eq!(
        preamble,
        "These files changed since your session started; read them first: a.rs, b.rs\n\n"
    );
    let prompt = dispatch_prompt(&preamble, "do it \n\n");
    assert!(prompt.starts_with(&format!("{preamble}do it\n\nVerify the tree is clean; stop if dirty.")));
    assert!(prompt.ends_with("(test name and one-line error)."));
    assert_eq!(
        dispatch_report(2, "w"),
        "task 2 dispatched to w; watch `state --task 2` \u{2014} it prints `2 committed_unverified` when the commit lands"
    );
    assert_eq!(dispatch_event(2, "w", true).detail, "task 2 -> w");
    assert_eq!(dispatch_event(2, "w", false).kind, "dispatch-failed");
    assert_eq!(dispatch_event(2, "w", false).detail, "task 2 -> w: prompt never landed");
}

#[test]
fn records_are_forced_only_with_a_reason() {
    assert_eq!(forced_remedy_reason("c", true, Some("why")).unwrap(), "why");
    let told = |force: bool, reason: Option<&str>| {
        forced_remedy_reason("c", force, reason).unwrap_err().message().to_owned()
    };
    assert_eq!(told(true, Some(" ")), "supervisor: c --force requires a non-empty --reason");
    assert_eq!(told(true, None), "supervisor: c --force requires a non-empty --reason");
    let remedy = "normally the coordinator records this on its own; use --force --reason only to remedy a coordinator failure";
    assert_eq!(
        told(false, Some("why")),
        format!("supervisor: --reason only applies with --force; {remedy}")
    );
    assert_eq!(told(false, None), format!("supervisor: {remedy}"));

    assert_eq!(
        require_task(None, 4).unwrap_err().message(),
        "supervisor: no task 4"
    );
    let drafted = task(4, TaskState::Drafted);
    assert_eq!(
        check_record_commit(4, Some(&drafted), true, Some("why")).unwrap_err().message(),
        "supervisor: task 4 is drafted, not awaiting a coordinator-recorded commit"
    );
    assert_eq!(
        check_record_commentary(4, Some(&drafted), true, Some("why")).unwrap_err().message(),
        "supervisor: task 4 is drafted, not ready for commentary delivery"
    );
    assert_eq!(
        check_record_commit(4, Some(&task(4, TaskState::InFlight)), true, Some("why")).unwrap(),
        "why"
    );
    let outcome = forced_commit(4, "abc", "why");
    assert_eq!(outcome.event.detail, "task 4 abc: why");
    assert_eq!(outcome.line, "task 4 commit recorded by force: abc");
    assert_eq!(
        forced_commentary(4, "why", true).unwrap().line,
        "task 4 commentary delivery recorded by force"
    );
    assert_eq!(
        forced_commentary(4, "why", false).unwrap_err().message(),
        "supervisor: commentary delivery is already recorded for task 4"
    );
}

#[test]
fn forced_commits_are_new_and_unshared() {
    assert!(is_commit_name("0123abc"));
    assert!(!is_commit_name("012abc"));
    assert!(!is_commit_name("0123ABC"));
    assert!(!is_commit_name(&"a".repeat(41)));
    assert_eq!(commit_revision("0123abc").as_deref(), Some("0123abc^{commit}"));
    assert_eq!(commit_revision("HEAD"), None);

    let mut flying = task(4, TaskState::InFlight);
    flying.base_head = Some("base".to_owned());
    let mut other = task(5, TaskState::Accepted);
    other.commit_sha = Some("0123abc".to_owned());
    let told = |task: &Task, commit: Option<&str>, base: Option<&str>, descends: bool, others: &Vec<Task>| {
        check_new_commit(task, "0123abc", commit, base, descends, others)
            .map_err(|error| error.message().to_owned())
    };
    let others = vec![other];
    let none: Vec<Task> = Vec::new();
    assert_eq!(told(&flying, Some("0123abcdef"), Some("fff"), true, &none), Ok(()));
    assert_eq!(
        told(&flying, None, None, true, &none),
        Err("supervisor: commit 0123abc does not exist in the run repository".to_owned())
    );
    assert_eq!(
        told(&flying, Some("0123abcdef"), Some("fff"), true, &others),
        Err("supervisor: commit 0123abc is already recorded for task 5".to_owned())
    );
    assert_eq!(
        told(&task(4, TaskState::InFlight), Some("0123abcdef"), None, true, &none),
        Err("supervisor: task 4 has no base_head to validate the commit against".to_owned())
    );
    let stale = "supervisor: commit 0123abc does not descend from task 4's base_head as a new commit";
    assert_eq!(
        told(&flying, Some("0123abcdef"), Some("0123abcdef"), true, &none),
        Err(stale.to_owned())
    );
    assert_eq!(
        told(&flying, Some("0123abcdef"), Some("fff"), false, &none),
        Err(stale.to_owned())
    );
}

fn search(shas: &[&str], base: Option<&str>, known: &[&str], descending: &[&str]) -> Option<String> {
    let shas: Vec<String> = shas.iter().map(|sha| (*sha).to_owned()).collect();
    let mut step = new_commit_for(&shas, base);
    loop {
        step = match step {
            CommitStep::Found(sha) => return Some(sha),
            CommitStep::Nothing => return None,
            CommitStep::Ask(search) => {
                assert_eq!(Some(search.base_head()), base);
                let yes = match search.question() {
                    CommitQuestion::Exists => known.contains(&search.candidate()),
                    CommitQuestion::Descends => descending.contains(&search.candidate()),
                };
                search.answered(yes)
            }
        };
    }
}

#[test]
fn the_last_new_commit_of_a_log_is_found() {
    assert_eq!(search(&["a1", "b2", "ba"], Some("base"), &["a1", "b2"], &["a1", "b2"]).as_deref(), Some("b2"));
    assert_eq!(search(&["a1", "b2"], Some("base"), &["a1", "b2"], &["a1"]).as_deref(), Some("a1"));
    assert_eq!(search(&["a1", "b2"], Some("base"), &["a1"], &["a1", "b2"]).as_deref(), Some("a1"));
    assert_eq!(search(&["ba", "base"], Some("base"), &["ba"], &["ba"]), None);
    assert_eq!(search(&["a1"], None, &["a1"], &["a1"]), None);
}

#[test]
fn acceptance_is_asked_for_in_one_of_two_ways() {
    let mut done = task(4, TaskState::CommittedUnverified);
    done.commit_sha = Some("abc".to_owned());
    assert!(matches!(check_accept(4, Some(&done), false, None), Ok(AcceptRoute::Gate)));
    assert!(matches!(
        check_accept(4, Some(&done), true, Some("why")),
        Ok(AcceptRoute::Forced("why"))
    ));
    let told = |task: Option<&Task>, force: bool, reason: Option<&str>| {
        check_accept(4, task, force, reason).map(|_| ()).unwrap_err().message().to_owned()
    };
    assert_eq!(told(None, false, None), "supervisor: no task 4");
    assert_eq!(
        told(Some(&done), true, None),
        "supervisor: accept --force requires a non-empty --reason"
    );
    assert_eq!(
        told(Some(&done), true, Some(" ")),
        "supervisor: accept --force requires a non-empty --reason"
    );
    assert_eq!(
        told(Some(&done), false, Some("why")),
        "supervisor: --reason only applies with --force; accept without it runs the checks"
    );
    assert_eq!(
        told(Some(&task(4, TaskState::InFlight)), true, Some("why")),
        "supervisor: task 4 is in_flight, not a committed unverified task"
    );
    let outcome = forced_acceptance(4, "why");
    assert_eq!(outcome.event.kind, "accepted");
    assert_eq!(outcome.line, "task 4 accepted without the checks: why");
}

#[test]
fn checks_pass_only_for_the_head_of_a_clean_tree() {
    let shown = |known: bool, text: &str, head: &str| {
        Some(CommitShown {
            sha: "abc".to_owned(),
            known,
            text: text.to_owned(),
            head: head.to_owned(),
        })
    };
    match pass_the_gate(4, &shown(true, "abcdef\nfix\n", "abcdef"), "", DEFAULT) {
        GateVerdict::Accepted { sha, reason, line } => {
            assert_eq!(sha, "abc");
            assert_eq!(reason, "checks passed at abc");
            assert_eq!(line, "task 4 accepted: checks passed at abc");
        }
        GateVerdict::Refused { lines } => panic!("{lines:?}"),
    }
    let told = |shown: Option<CommitShown>, status: &str| match pass_the_gate(4, &shown, status, DEFAULT) {
        GateVerdict::Accepted { .. } => Vec::new(),
        GateVerdict::Refused { lines } => lines,
    };
    assert_eq!(
        told(shown(true, "abcdef\n\nCo-Authored-By: x", "fedcba"), " M a"),
        [
            "task 4 NOT accepted:",
            " - commit carries an attribution trailer",
            " - commit is not HEAD",
            " - tree is dirty",
        ]
    );
    assert_eq!(
        told(shown(false, "", "x"), ""),
        ["task 4 NOT accepted:", " - commit abc not in git"]
    );
    assert_eq!(
        told(None, ""),
        ["task 4 NOT accepted:", " - no commit found in the implementer's log"]
    );
    assert!(has_attribution_trailer("a\nDEFAULT-CLI-Session: 1", DEFAULT));
    assert!(!has_attribution_trailer("a co-authored-by: b", DEFAULT));

    assert!(head_advanced_cleanly(Some("a"), "b", true, ""));
    assert!(!head_advanced_cleanly(Some("a"), "a", true, ""));
    assert!(!head_advanced_cleanly(Some("a"), "", true, ""));
    assert!(!head_advanced_cleanly(Some("a"), "b", false, ""));
    assert!(!head_advanced_cleanly(Some("a"), "b", true, "M"));
    assert!(!head_advanced_cleanly(None, "b", true, ""));
}

#[test]
fn the_log_is_read_again_only_after_the_head_moved() {
    assert_eq!(gate_begins(Some("abc")), GateStage::Judge);
    assert_eq!(gate_begins(None), GateStage::ReadLog);
    assert_eq!(gate_next(GateStage::ReadLog, true), GateStage::Judge);
    assert_eq!(gate_next(GateStage::ReadLog, false), GateStage::AskHead);
    assert_eq!(gate_next(GateStage::AskHead, true), GateStage::ReadLogAgain);
    assert_eq!(gate_next(GateStage::AskHead, false), GateStage::Judge);
    assert_eq!(gate_next(GateStage::ReadLogAgain, false), GateStage::Judge);
}

#[test]
fn aborts_are_counted_along_the_lineage() {
    let chain = |links: &[(i64, Option<i64>, TaskState)]| -> Vec<Task> {
        links
            .iter()
            .map(|(id, retry, state)| Task { retry_of_task_id: *retry, ..task(*id, *state) })
            .collect()
    };
    let tasks = chain(&[
        (1, None, TaskState::Aborted),
        (2, Some(1), TaskState::Accepted),
        (3, Some(2), TaskState::Aborted),
        (4, None, TaskState::Aborted),
    ]);
    assert_eq!(failures_in_lineage(&tasks, 3), Some(2));
    assert_eq!(failures_in_lineage(&tasks, 9), Some(0));
    let circle = chain(&[(1, Some(2), TaskState::Aborted), (2, Some(1), TaskState::Aborted)]);
    assert_eq!(failures_in_lineage(&circle, 1), None);
}

#[test]
fn aborts_are_told_in_full() {
    assert_eq!(
        abort_report(3, "late", 1, ""),
        [
            "task 3 aborted (1 abort in its lineage): late",
            "adjust the task and retry with a fresh implementer: task new --retry-of 3 < task.md",
        ]
    );
    assert_eq!(
        abort_report(3, "late", 3, " M a"),
        [
            "task 3 aborted (3 aborts in its lineage): late",
            "WARNING: tree is dirty \u{2014} the implementer did not leave it clean:\n M a",
            "three aborts on the same task: escalate to the human",
        ]
    );
    let told = |task: Option<&Task>, reason: &str| {
        check_abort(3, task, reason).map(|_| ()).unwrap_err().message().to_owned()
    };
    assert_eq!(told(None, "x"), "supervisor: no task 3");
    assert_eq!(
        told(Some(&task(3, TaskState::InFlight)), ""),
        "supervisor: abort requires a non-empty --reason"
    );
    assert_eq!(
        told(Some(&task(3, TaskState::Aborted)), "x"),
        "supervisor: task 3 is already aborted"
    );
    assert!(check_abort(3, Some(&task(3, TaskState::Drafted)), "x").is_ok());
    assert_eq!(abort_event(3, "x").detail, "task 3: x");
    assert_eq!(
        abort_message(3, "x"),
        "supervisor: task 3 is aborted: x. Stop, leave the tree clean, do not commit."
    );
    assert_eq!(abort_reached(3, "w", AbortReach::Told).kind, "abort-interrupt");
    assert_eq!(
        abort_reached(3, "w", AbortReach::NotInterrupted("gone")).detail,
        "task 3 -> w: gone"
    );
    assert_eq!(
        abort_reached(3, "w", AbortReach::NotTold).detail,
        "task 3 -> w: abort message did not reach w"
    );
}

#[test]
fn prompts_are_sent_three_times_at_most() {
    let long = "x".repeat(100);
    let mut prompt = Prompting::new("w", &long, 15);
    assert_eq!(prompt.needle(), "x".repeat(80));
    let mut sent = 0;
    loop {
        prompt = prompt.ready(Some("busy"), Some("/log".to_owned()), 7).sent(1_000);
        sent += 1;
        assert!(prompt.waiting(15_999));
        assert!(!prompt.waiting(16_000));
        assert_eq!(prompt.missed_line(), format!("prompt did not land (attempt {sent}), resending"));
        match prompt.missed() {
            PromptMissed::Resend(next) => prompt = next,
            PromptMissed::Failed { event, error } => {
                assert_eq!(event.kind, "prompt-failed");
                assert_eq!(event.detail, "w");
                assert_eq!(
                    error.message(),
                    "supervisor: prompt to w never landed after 3 attempts"
                );
                break;
            }
        }
    }
    assert_eq!(sent, 3);
}

#[test]
fn prompts_land_in_the_log_or_by_the_session_going_to_work() {
    let idle = Prompting::new("w", "go", 15).ready(Some("idle"), Some("/log".to_owned()), 7);
    assert_eq!(idle.landing(None, Some("working")), Some(PromptLanding::Landed));
    assert_eq!(idle.landing(None, Some("idle")), None);
    let unknown = Prompting::new("w", "go", 15).ready(None, None, 0);
    assert_eq!(unknown.landing(None, Some("blocked")), Some(PromptLanding::Landed));
    let busy = Prompting::new("w", "go", 15).ready(Some("busy"), Some("/log".to_owned()), 7);
    assert_eq!(busy.landing(None, Some("working")), None);
    assert_eq!(
        busy.landing(Some(PromptLanding::Queued), None),
        Some(PromptLanding::Queued)
    );
    assert_eq!(busy.landed(PromptLanding::Queued).unwrap().kind, "prompt-queued");
    assert!(busy.landed(PromptLanding::Landed).is_none());
    // Another log is read from its beginning, and stays so.
    let busy = busy.look(Some("/log"));
    assert_eq!(busy.offset(), 7);
    let moved = busy.look(Some("/other")).look(Some("/log"));
    assert_eq!(moved.offset(), 0);

    assert!(agent_is_idle("done") && !agent_is_idle("busy"));
    assert!(agent_is_active(Some("busy")) && !agent_is_active(None));
    assert_eq!(answer_text(None), "(no assistant text)");
    assert_eq!(answer_text(Some("yes".to_owned())), "yes");
    let event = unreachable_event("w", &Error::from_text("gone"));
    assert_eq!(event.kind, "prompt-unreachable");
    assert_eq!(event.detail, "w: gone");
}

#[test]
fn calibrations_count_what_a_commit_changed() {
    let stat = " 3 files changed, 20 insertions(+), 1 deletion(-)";
    assert_eq!(stat_number(stat, StatNoun::File), 3);
    assert_eq!(stat_number(stat, StatNoun::Insertion), 20);
    assert_eq!(stat_number(stat, StatNoun::Deletion), 1);
    assert_eq!(stat_number("", StatNoun::File), 0);
    assert_eq!(stat_number("99999999999999999999 files", StatNoun::File), 0);
    assert_eq!(number_captured(&Some("12".to_owned())), 12);
    assert_eq!(number_captured(&None), 0);
    assert_eq!(changed_lines(20, 1), Some(21));
    assert_eq!(changed_lines(i64::MAX, 1), None);

    let mut done = task(4, TaskState::CommittedUnverified);
    assert_eq!(
        calibrated_commit(4, Some(&done)).unwrap_err().message(),
        "supervisor: task 4 has no commit yet"
    );
    assert!(calibrated_commit(4, None).is_err());
    done.commit_sha = Some("abc".to_owned());
    assert_eq!(calibrated_commit(4, Some(&done)).unwrap(), "abc");
    assert_eq!(time_out(&done), None);
    done.events =
        vec![at(TaskState::Dispatched, 1_000), at(TaskState::CommittedUnverified, 9_500)];
    assert_eq!(time_out(&done), Some(8_500));
    done.context_size_start = Some(100);
    assert_eq!(
        calibration_line(&calibration_row(&done, 3, 21, 700, None), Some(8)),
        "task 4: predicted 2 files/30 lines, actual 3 files/21 lines, wall 8s, context 600 (session 700, base 100)"
    );
    assert_eq!(
        calibration_line(&calibration_row(&done, 3, 21, 50, None), None),
        "task 4: predicted 2 files/30 lines, actual 3 files/21 lines, wall Nones, context 0 (session 50, base 100)"
    );
    assert_eq!(
        calibration_row(&done, 3, 21, 0, Some(&session(1, "w", Role::Implementer, 77))),
        CalibrationRow {
            task_id: 4,
            predicted_files: 2,
            predicted_lines: 30,
            actual_files: 3,
            actual_lines: 21,
            context_size_start: 100,
            context_size_end: 77,
        }
    );
    assert_eq!(context_end(9, None), 9);
    assert_eq!(context_end(0, Some(&session(1, "w", Role::Implementer, 77))), 77);
    assert_eq!(context_end(0, None), 0);
    let mut later = task(6, TaskState::Accepted);
    later.log_offset = 50;
    assert_eq!(next_offset(&vec![task(5, TaskState::Accepted), later], 4), Some(50));
    assert_eq!(next_offset(&Vec::new(), 4), None);
}

fn text_of(value: &Json, path: &[&str]) -> Option<String> {
    let mut value = value;
    for key in path {
        value = value.get(key)?;
    }
    value.as_str().map(str::to_owned)
}

#[test]
fn polls_show_observations_and_findings() {
    assert_eq!(
        check_poll(-1).unwrap_err().message(),
        "supervisor: --after-observation must be nonnegative"
    );
    assert!(check_poll(0).is_ok());
    let finding = |verdict: Option<Verdict>| Finding {
        id: 8,
        task_id: 4,
        description: "odd".to_owned(),
        created_at: Moment::from_millis(0).unwrap(),
        verdict,
        verdict_reason: verdict.map(|_| "meh".to_owned()),
        fix_task_id: None,
        resolved_at: verdict.and_then(|_| Moment::from_millis(1_500)),
    };
    let observation = Observation {
        id: 11,
        task_id: None,
        text: "seen".to_owned(),
        created_at: Moment::from_millis(947_638_923_004).unwrap(),
    };
    let report = poll_report(3, &vec![observation], &vec![finding(None)]);
    assert_eq!(report.get("observation_cursor").unwrap().as_i64(), Some(11));
    let seen = &report.get("observations").unwrap().as_array().unwrap()[0];
    assert_eq!(text_of(seen, &["created_at"]).as_deref(), Some("2000-01-12T01:02:03.004+00:00"));
    assert!(matches!(seen.get("task_id"), Some(Json::Null)));
    let open = &report.get("findings").unwrap().as_array().unwrap()[0];
    assert_eq!(text_of(open, &["description"]).as_deref(), Some("odd"));
    assert_eq!(text_of(open, &["created_at"]).as_deref(), Some("1970-01-01T00:00:00+00:00"));
    let empty = poll_report(3, &Vec::new(), &Vec::new());
    assert_eq!(empty.get("observation_cursor").unwrap().as_i64(), Some(3));

    let report = resolutions_report(&vec![finding(Some(Verdict::Dropped))]);
    let shown = &report.get("resolutions").unwrap().as_array().unwrap()[0];
    assert_eq!(shown.get("finding_id").unwrap().as_i64(), Some(8));
    assert_eq!(text_of(shown, &["verdict"]).as_deref(), Some("dropped"));
    assert_eq!(text_of(shown, &["reason"]).as_deref(), Some("meh"));
    assert_eq!(
        text_of(shown, &["resolved_at"]).as_deref(),
        Some("1970-01-01T00:00:01.500+00:00")
    );
    assert_eq!(
        require_finding(None, 8).unwrap_err().message(),
        "supervisor: no finding 8"
    );
    assert_eq!(unresolved(&Error::from_text("closed")).message(), "supervisor: closed");
    assert_eq!(resolved_line(8), "finding 8 resolved");
    let launched = launch_report("w", "p", "t", "s");
    assert_eq!(text_of(&launched, &["session_id"]).as_deref(), Some("s"));
    assert_eq!(text_of(&launched, &["pane_id"]).as_deref(), Some("p"));
}

#[test]
fn moments_have_dates_between_two_bounds() {
    assert!(Moment::from_millis(FIRST_MILLIS).is_some());
    assert!(Moment::from_millis(FIRST_MILLIS - 1).is_none());
    assert!(Moment::from_millis(LAST_MILLIS).is_some());
    assert!(Moment::from_millis(LAST_MILLIS + 1).is_none());
    assert_eq!(Moment::from_millis(1_500).unwrap().millis(), 1_500);
    assert_eq!(event_line(LAST_MILLIS + 1, "k", "d"), "  - k d");
    let line = event_line(LAST_MILLIS, "k", "d");
    assert_eq!(line.len(), "  00:00:00 k d".len());
    assert_eq!(&line[4..5], ":");
    assert_eq!(event_line(FIRST_MILLIS, "k", "d").len(), "  00:00:00 k d".len());
}

#[test]
fn commentators_are_named_after_their_run() {
    // The digest of "hello world" begins with 2aae6c35.
    assert_eq!(commentator_agent_name("hello world"), "commentator-2aae6c35");
    assert_eq!(commentator_name("0123456789"), "commentator-01234567");
    let cursor = AgentSpec::new(AgentCli::Cursor, None, Vec::new()).unwrap();
    assert_eq!(
        commentator_brief("/p.md", "/logs", "/run", &cursor, &AgentSpec::claude_opus(), DEFAULT),
        "Read and follow this role prompt entirely: /p.md\nSession-log directory: /logs\nRun directory: /run\nImplementer CLI: cursor\nCommentator CLI: default-cli model opus"
    );
}

#[test]
fn missing_logs_are_told_once() {
    let (memory, told) = DaemonMemory::new().log_missing("lead", Role::Lead);
    let told = told.unwrap();
    assert_eq!(
        told.line,
        "WARNING: lead (lead): session log not found; the lead context stop threshold cannot fire"
    );
    assert_eq!(told.event.kind, "session-log-missing");
    let (memory, told) = memory.log_missing("lead", Role::Lead);
    assert!(told.is_none());
    let (memory, grew, told) = memory.log_found("lead", "/log", 9);
    assert!(grew);
    assert_eq!(told.unwrap().line, "supervisor: session log found for lead: /log");
    let (memory, grew, told) = memory.log_found("lead", "/log", 9);
    assert!(!grew && told.is_none());
    let (memory, grew, _) = memory.log_found("lead", "/log", 10);
    assert!(grew);
    let (memory, told) = memory.log_missing("w", Role::Implementer);
    assert_eq!(told.unwrap().event.detail, "w (implementer): session log not found");
    assert!(!memory.compacting());
    assert!(memory.with_compacting(true).compacting());
}

#[test]
fn stalled_sessions_are_kicked_once() {
    let worker = session(1, "w", Role::Implementer, 0);
    assert!(!has_stalled(&worker, 600_999));
    assert!(has_stalled(&worker, 601_000));
    assert!(kick_if_stalled(&worker, 601_000, Some("done")));
    assert!(!kick_if_stalled(&worker, 601_000, Some("busy")));
    assert!(!kick_if_stalled(&worker, 601_000, None));
    let kicked = Session::new(
        1,
        "w".to_owned(),
        Role::Implementer,
        "x".to_owned(),
        None,
        0,
        None,
        0,
        0,
        0,
        Some(601_000),
    )
    .unwrap();
    assert!(!kick_if_stalled(&kicked, 9_000_000, Some("idle")));
}

#[test]
fn the_lead_is_registered_once_per_incarnation() {
    let lead = session(1, "lead", Role::Lead, 0);
    assert!(!register_lead(Some(&lead), "ext-lead"));
    assert!(register_lead(Some(&lead), "other"));
    assert!(register_lead(None, "ext-lead"));
    assert!(register_lead(Some(&stopped(1, "lead", Role::Lead)), "ext-lead"));
    assert!(register_lead(Some(&session(1, "lead", Role::Implementer, 0)), "ext-lead"));
}

#[test]
fn implementers_are_followed_from_dispatch_to_commit() {
    assert!(matches!(observe_implementer(&Vec::new(), 9), ImplementerStep::Nothing));
    let mut sent = task(4, TaskState::Dispatched);
    sent.log_offset = 8;
    let tasks = vec![sent];
    assert!(matches!(observe_implementer(&tasks, 8), ImplementerStep::Nothing));
    assert!(matches!(
        observe_implementer(&tasks, 9),
        ImplementerStep::TakeFlight { offset: 8, .. }
    ));
    let tasks = vec![task(3, TaskState::InFlight), task(4, TaskState::Aborted)];
    match observe_implementer(&tasks, 0) {
        ImplementerStep::FindCommit { task, offset } => {
            assert_eq!(task.id, 3);
            assert_eq!(offset, 0);
        }
        step => panic!("{step:?}"),
    }
}

#[test]
fn commentary_is_recorded_or_asked_for_once() {
    let mut done = task(4, TaskState::CommittedUnverified);
    done.commit_sha = Some("0123456789".to_owned());
    let log = "{\"type\":\"user\",\"text\":\"0123456\"}\nnot json\n{\"type\":\"assistant\",\"text\":\"saw 0123456\"}\n";
    assert!(matches!(observe_commentary(&done, false, false, log), CommentaryStep::Record));
    assert!(matches!(observe_commentary(&done, true, false, log), CommentaryStep::Nothing));
    let silent = "{\"type\":\"user\",\"text\":\"0123456\"}\n";
    match observe_commentary(&done, false, false, silent) {
        CommentaryStep::Wake { message } => assert_eq!(
            message,
            "supervisor: commit 0123456789 landed for task 4; review it from git"
        ),
        step => panic!("{step:?}"),
    }
    assert!(matches!(observe_commentary(&done, false, true, silent), CommentaryStep::Nothing));
    assert!(matches!(
        observe_commentary(&task(4, TaskState::InFlight), false, false, log),
        CommentaryStep::Nothing
    ));
    assert!(commentator_log_mentions(log, "saw"));
    assert!(!commentator_log_mentions(silent, "0123456"));
    let document = parse_document("{\"type\":\"assistant\",\"n\":1}").unwrap();
    assert!(line_says(&document, "\"n\":1"));
    assert!(!line_says(&document, "\"n\": 1"));
    assert_eq!(abbreviation("0123456789"), "0123456");
    assert_eq!(abbreviation("012"), "012");
}

#[test]
fn compaction_is_asked_for_once() {
    assert!(should_compact(150_001, false));
    assert!(!should_compact(150_001, true));
    assert!(still_compacting(150_001, false, true));
    assert!(!still_compacting(150_001, false, false));
    assert!(still_compacting(150_000, true, false));
    assert!(!still_compacting(149_999, true, false));
}

#[test]
fn the_lead_crossing_its_limit_is_recorded_once() {
    assert_eq!(observe_lead(250_001, None).unwrap().detail, "context 250001");
    assert!(observe_lead(250_001, Some("1")).is_none());
    assert!(observe_lead(250_000, None).is_none());
    assert!(goes_on(None) && goes_on(Some("0")) && !goes_on(Some("1")));
    assert_eq!(session_cli(None, Role::Lead), AgentCli::Claude);
}

#[test]
fn only_implementers_are_watched() {
    let people = vec![
        session(1, "lead", Role::Lead, 0),
        session(2, "w", Role::Implementer, 0),
    ];
    let entries = vec![
        NamedSize { name: "ext-lead".to_owned(), size: 5 },
        NamedSize { name: "stray".to_owned(), size: 6 },
    ];
    let logs = vec![Some(1), Some(2)];
    let names = |cli: AgentCli| -> Vec<(String, u64)> {
        let sizes = implementer_transcript_sizes(&entries, &people, cli, &logs);
        sizes.entries().iter().map(|entry| (entry.name.clone(), entry.size)).collect()
    };
    assert_eq!(names(AgentCli::Claude), [("stray".to_owned(), 6)]);
    assert_eq!(names(AgentCli::Codex), [("stray".to_owned(), 6), ("ext-w".to_owned(), 2)]);
}

#[test]
fn the_state_of_a_run_is_told_line_by_line() {
    let mut done = task(4, TaskState::Accepted);
    done.session_id = Some(2);
    done.commit_sha = Some("0123456789abcdef".to_owned());
    done.retry_of_task_id = Some(3);
    done.reason = Some("ok".to_owned());
    done.events = vec![
        at(TaskState::Drafted, 1_000),
        at(TaskState::Dispatched, 2_000),
        at(TaskState::Dispatched, 3_000),
        at(TaskState::Accepted, 9_000),
    ];
    let marks = find_marks(&done, Some(9_500));
    assert_eq!(
        marks.iter().map(|mark| (mark.label.as_str(), mark.at)).collect::<Vec<_>>(),
        [
            ("drafted", 1_000),
            ("dispatched", 3_000),
            ("accepted", 9_000),
            ("commentary-delivered", 9_500),
        ]
    );
    let two = vec![
        Mark { label: "drafted".to_owned(), at: 0 },
        Mark { label: "accepted".to_owned(), at: 0 },
    ];
    assert_eq!(
        task_line_with(&done, "w", &two, &vec!["10:00:00".to_owned(), "11:00:00".to_owned()]),
        "    4 accepted w                0123456789 drafted@10:00:00 accepted@11:00:00  retry of 3  reason: ok"
    );
    assert!(task_line(&done, "w", None).starts_with("    4 accepted w                0123456789 drafted@"));
    assert_eq!(state_line(4, TaskState::CommittedUnverified), "4 committed_unverified");
    assert_eq!(short_sha("0123456789abcdef"), "0123456789");
    assert_eq!(event_line_with("10:00:00", "kick", "w"), "  10:00:00 kick w");

    let worker = session(2, "w", Role::Implementer, 100_001);
    assert_eq!(
        session_line(&worker, 5_000, true),
        "  w                implementer context  100001 (max 100001) quiet 5s OVER-LIMIT"
    );
    assert_eq!(
        session_line(&session(1, "lead", Role::Lead, 7), 5_000, false),
        "  lead             lead context UNAVAILABLE (session log not found; lead stop threshold disabled) quiet 5s"
    );
    assert_eq!(context_line("w", Some(12)), "w\t12");
    assert_eq!(context_line("w", None), "w\tUNAVAILABLE (session log not found)");
    assert!(is_asked_for(&worker, None) && is_asked_for(&worker, Some("w")));
    assert!(!is_asked_for(&worker, Some("v")));

    let spent = time_spent(
        &vec![done],
        &vec![
            HumanWait { started: 1_000, ended: Some(3_000) },
            HumanWait { started: 20_000, ended: None },
        ],
        21_000,
    )
    .unwrap();
    assert_eq!(spent, TimeSpent { wall: 20_000, busy: 6_000, human: 3_000 });
    assert_eq!(
        time_line(spent, "30"),
        "time  wall 20s  implementer-busy 6s (30%)  waiting-on-human 3s"
    );
    assert_eq!(
        time_line(TimeSpent { wall: -1_500, busy: -1, human: 0 }, "0"),
        "time  wall -1s  implementer-busy 0s (0%)  waiting-on-human 0s"
    );
    assert!(time_spent(&Vec::new(), &Vec::new(), 0).is_none());

    let report = state_report(&RunState {
        tasks: vec![task(1, TaskState::Drafted)],
        delivered_at: vec![None],
        sessions: vec![worker],
        has_log: vec![true],
        now: 5_000,
        time: Some("time".to_owned()),
        human_wait_open: true,
        events: vec![RecentEvent {
            at: LAST_MILLIS + 1,
            kind: "kick".to_owned(),
            detail: "w".to_owned(),
        }],
    });
    assert_eq!(
        report,
        [
            "tasks",
            "    1 drafted -                -          ",
            "sessions",
            "  w                implementer context  100001 (max 100001) quiet 5s OVER-LIMIT",
            "time",
            "  (a human wait is open)",
            "  - kick w",
        ]
    );
}

#[test]
fn texts_are_cut_as_std_cuts_them() {
    let text = "a\r\nb\n\nc";
    assert_eq!(lines(text), text.lines().collect::<Vec<_>>());
    assert_eq!(lines("a\n"), "a\n".lines().collect::<Vec<_>>());
    assert_eq!(split("a,,b", ','), ["a", "", "b"]);
    assert_eq!(join(&vec!["a".to_owned(), "b".to_owned()], ", "), "a, b");
    let padded = "\u{3000} \ta\u{a0}b \u{2028}\n";
    assert_eq!(trim(padded), padded.trim());
    assert_eq!(trim_end(padded), padded.trim_end());
    for size in 0..6 {
        let text = "h\u{e9}llo";
        assert_eq!(take_bytes(text, size), text.get(..size).unwrap_or(text));
    }
    assert_eq!(pad_right("\u{e9}", 3), format!("{:<3}", "\u{e9}"));
    assert_eq!(pad_left("12", 4), format!("{:>4}", 12));
    for text in ["12", "-7", "+3", "", "-", "1x", "9223372036854775808", "-9223372036854775808", "007"] {
        assert_eq!(parse_i64(text), text.parse::<i64>().ok(), "{text}");
    }
    for number in [0, 7, -12, i64::MAX, i64::MIN] {
        assert_eq!(decimal_text(number), number.to_string());
        assert_eq!(parse_i64(&decimal_text(number)), Some(number));
    }
}

#[test]
fn a_clock_shows_the_moment_it_is_asked_for() {
    let early = clock_time(0);
    let late = clock_time(1_000);
    assert_eq!(early.len(), 8);
    assert_eq!((&early[2..3], &early[5..6]), (":", ":"));
    assert_ne!(early, late);
    assert_eq!(clock_time(999), early);
    assert_eq!(clock_time(LAST_MILLIS + 1), "-");
}
