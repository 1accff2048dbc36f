//! What the supervisor can be told to do.

use vstd::prelude::*;
use vstd::string::*;

use crate::events::{Event, EventView, Outcome, OutcomeView};

verus! {

/// One command line, taken apart.
#[allow(inconsistent_fields)]
#[derive(Debug)]
pub enum Command {
    Daemon { lead: String, session_id: String, poll_interval_ms: u64 },
    StartCommentator { role_prompt: String },
    Launch { name: String },
    Prompt { name: String, text: String, wait: bool, timeout: u64 },
    Task { action: TaskCommand },
    Abort { task: i64, reason: String },
    Dispatch { task: i64, to: String, reason: Option<String> },
    Accept { task: i64, force: bool, reason: Option<String> },
    Calibrate { task: i64 },
    Observe { task: Option<i64>, text: String },
    Finding { task: i64, description: String },
    Poll { after_observation: i64, task: Option<i64> },
    Resolve { finding: i64, verdict: Verdict, fix_task_id: Option<i64>, reason: String },
    Resolutions,
    Config { key: String, value: Option<String> },
    State { task: Option<i64> },
    LogsDir,
    WatchTranscripts { interval_ms: u64 },
    Context { name: Option<String> },
    HumanWait { action: HumanWaitAction },
    Stop,
}

/// What can be done with a task by name.
#[allow(inconsistent_fields)]
#[derive(Debug)]
pub enum TaskCommand {
    New {
        files: Option<String>,
        predicted_files: Option<i64>,
        predicted_lines: i64,
        retry_of_task_id: Option<i64>,
        reason: Option<String>,
    },
    RecordCommit { task: i64, sha: String, force: bool, reason: Option<String> },
    RecordCommentary { task: i64, force: bool, reason: Option<String> },
}

/// What the lead makes of a finding: a task that fixes it, or nothing.
#[derive(Clone, Copy, Debug, PartialEq, Eq, Structural)]
pub enum Verdict {
    Task,
    Dropped,
}

impl Verdict {
    /// The name of this verdict.
    pub open spec fn name(self) -> Seq<char> {
        match self {
            Verdict::Task => "task"@,
            Verdict::Dropped => "dropped"@,
        }
    }

    /// The name of this verdict.
    pub fn as_str(self) -> (r: &'static str)
        ensures
            r@ == self.name(),
    {
        match self {
            Verdict::Task => "task",
            Verdict::Dropped => "dropped",
        }
    }
}

/// Whether the run begins to wait for the human, or no longer does.
#[derive(Clone, Copy, Debug, PartialEq, Eq, Structural)]
pub enum HumanWaitAction {
    Start,
    End,
}

/// Commands whose output the lead reads. The daemon and the commentator's watch never return; the
/// rest print a value the lead pipes somewhere.
pub open spec fn faces_the_lead(command: Command) -> bool {
    !(command is Daemon || command is WatchTranscripts || command is LogsDir || command is Context
        || command is Config || command is Stop)
}

/// Whether the lead reads what this command prints.
pub fn is_lead_facing(command: &Command) -> (r: bool)
    ensures
        r == faces_the_lead(*command),
{
    match command {
        Command::Daemon { .. } => false,
        Command::WatchTranscripts { .. } => false,
        Command::LogsDir => false,
        Command::Context { .. } => false,
        Command::Config { .. } => false,
        Command::Stop => false,
        _ => true,
    }
}

/// What a change of the wait for the human does to the waits on record.
#[derive(Clone, Copy, Debug, PartialEq, Eq, Structural)]
pub enum WaitChange {
    /// A new wait begins.
    Open,
    /// Every open wait ends.
    CloseAll,
}

/// What is to be done to the waits on record, given whether one is open: a wait begins only where
/// none is.
pub fn human_wait(action: HumanWaitAction, open: bool) -> (r: Option<WaitChange>)
    ensures
        r == (match action {
            HumanWaitAction::Start => if open {
                None
            } else {
                Some(WaitChange::Open)
            },
            HumanWaitAction::End => Some(WaitChange::CloseAll),
        }),
        r == wait_change(
            action,
            if open {
                1
            } else {
                0
            },
        ),
{
    match action {
        HumanWaitAction::Start => {
            if open {
                None
            } else {
                Some(WaitChange::Open)
            }
        },
        HumanWaitAction::End => Some(WaitChange::CloseAll),
    }
}

/// How many waits are open, after a change that `human_wait` asked for.
pub open spec fn open_after(open: nat, change: Option<WaitChange>) -> nat {
    match change {
        None => open,
        Some(WaitChange::Open) => open + 1,
        Some(WaitChange::CloseAll) => 0,
    }
}

/// What `human_wait` asks for where `open` waits are open.
pub open spec fn wait_change(action: HumanWaitAction, open: nat) -> Option<WaitChange> {
    match action {
        HumanWaitAction::Start => if open > 0 {
            None
        } else {
            Some(WaitChange::Open)
        },
        HumanWaitAction::End => Some(WaitChange::CloseAll),
    }
}

/// At most one wait for the human is open at a time, and none once the wait has ended.
pub proof fn law_one_human_wait_at_a_time(action: HumanWaitAction, open: nat)
    requires
        open <= 1,
    ensures
        open_after(open, wait_change(action, open)) == (match action {
            HumanWaitAction::Start => 1nat,
            HumanWaitAction::End => 0nat,
        }),
{
}

/// What the end of a run is recorded as, and how it is told.
pub fn stop() -> (r: Outcome)
    ensures
        r@ == (OutcomeView {
            event: EventView { kind: "stop"@, detail: "run ended by the lead"@ },
            line: "supervisor: stopped; the daemon will exit on its next poll"@,
        }),
{
    Outcome {
        event: Event::new("stop", "run ended by the lead".to_owned()),
        line: "supervisor: stopped; the daemon will exit on its next poll".to_owned(),
    }
}

/// The lead reads what every command prints that acts on the run or tells of it; it does not read
/// what runs on its own, what a setting or a directory is, or the end of a run.
pub proof fn law_lead_reads_what_acts_on_the_run(command: Command)
    ensures
        faces_the_lead(command) <==> {
            ||| command is StartCommentator
            ||| command is Launch
            ||| command is Prompt
            ||| command is Task
            ||| command is Abort
            ||| command is Dispatch
            ||| command is Accept
            ||| command is Calibrate
            ||| command is Observe
            ||| command is Finding
            ||| command is Poll
            ||| command is Resolve
            ||| command is Resolutions
            ||| command is State
            ||| command is HumanWait
        },
{
}

} // verus!
