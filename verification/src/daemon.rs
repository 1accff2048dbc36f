//! What the daemon makes of the sessions it watches.

use vstd::prelude::*;
use vstd::string::*;

use crate::agent::AgentCli;
use crate::events::{Event, EventView, Outcome, OutcomeView};
use crate::json::{parse_document, parsed_document, text_at, Document, DocumentView};
use crate::number::{decimal, decimal_text};
use crate::prompt::{agent_is_idle, is_idle};
use crate::remedies::{awaits_commentary, ready_for_commentary};
use crate::session::{opt_session, sessions_view, Role, Session, SessionView};
use crate::settings::Settings;
use crate::sizes::{entries_view, NamedSize, Sizes};
use crate::task::{
    find_last_out, last_out, law_last_task_that_is_out, tasks_view, Task, TaskState, TaskView,
};
use crate::text::{
    byte_prefix, contains, law_bytes_of_ascii_are_characters,
    law_line_is_what_stands_before_its_ending, law_lines_of_two_texts,
    law_text_mentions_what_stands_in_it, lines, lines_of, mentions, opt_str, same, take_bytes,
    texts,
};
use crate::warnings::LEAD_STOP_TOKENS;

verus! {

/// A commentator whose context grows past this is told to compact it.
pub const COMMENTATOR_COMPACT_TOKENS: i64 = 150_000;

/// A session that was quiet for longer than this has stalled.
pub const STALE_SECONDS: i64 = 600;

/// What the daemon remembers from one look at the sessions to the next.
#[derive(Debug)]
pub struct DaemonMemory {
    sizes: Sizes,
    missing: Vec<String>,
    compacting: bool,
}

pub struct DaemonMemoryView {
    /// How large each session's log was.
    pub sizes: Map<Seq<char>, u64>,
    /// The sessions that had no log.
    pub missing: Set<Seq<char>>,
    /// Whether the commentator was told to compact its context, and has not yet done so.
    pub compacting: bool,
}

impl View for DaemonMemory {
    type V = DaemonMemoryView;

    closed spec fn view(&self) -> DaemonMemoryView {
        DaemonMemoryView {
            sizes: self.sizes@,
            missing: texts(self.missing@).to_set(),
            compacting: self.compacting,
        }
    }
}

/// What is told when a session has no log.
pub open spec fn missing_notice(name: Seq<char>, role: Role) -> OutcomeView {
    let detail = name + " ("@ + role.name() + "): session log not found"@ + (if role == Role::Lead {
        "; the lead context stop threshold cannot fire"@
    } else {
        ""@
    });
    OutcomeView {
        event: EventView { kind: "session-log-missing"@, detail },
        line: "WARNING: "@ + detail,
    }
}

/// What is told when a session has a log after all.
pub open spec fn found_notice(name: Seq<char>, log: Seq<char>) -> OutcomeView {
    OutcomeView {
        event: EventView { kind: "session-log-found"@, detail: name + ": "@ + log },
        line: "supervisor: session log found for "@ + name + ": "@ + log,
    }
}

pub open spec fn opt_outcome(outcome: Option<Outcome>) -> Option<OutcomeView> {
    match outcome {
        Some(outcome) => Some(outcome@),
        None => None,
    }
}

impl DaemonMemoryView {
    /// What is told of a session without a log: only once, until the log is there.
    pub open spec fn told_missing(self, name: Seq<char>, role: Role) -> Option<OutcomeView> {
        if self.missing.contains(name) {
            None
        } else {
            Some(missing_notice(name, role))
        }
    }

    /// What is told of a session with a log: only where it had none before.
    pub open spec fn told_found(self, name: Seq<char>, log: Seq<char>) -> Option<OutcomeView> {
        if self.missing.contains(name) {
            Some(found_notice(name, log))
        } else {
            None
        }
    }

    /// Whether a session's log grew, or is seen for the first time.
    pub open spec fn grew(self, name: Seq<char>, size: u64) -> bool {
        !(self.sizes.contains_key(name) && self.sizes[name] == size)
    }

    /// The memory of a session without a log.
    pub open spec fn without_log(self, name: Seq<char>) -> DaemonMemoryView {
        DaemonMemoryView { missing: self.missing.insert(name), ..self }
    }

    /// The memory of a session whose log has this size.
    pub open spec fn with_log(self, name: Seq<char>, size: u64) -> DaemonMemoryView {
        DaemonMemoryView {
            missing: self.missing.remove(name),
            sizes: self.sizes.insert(name, size),
            ..self
        }
    }
}

fn find_text(list: &Vec<String>, text: &str) -> (r: Option<usize>)
    ensures
        match r {
            Some(at) => at < list@.len() && list@[at as int]@ == text@,
            None => !texts(list@).contains(text@),
        },
{
    let mut i: usize = 0;
    while i < list.len()
        invariant
            i <= list@.len(),
            forall|j: int| 0 <= j < i ==> (#[trigger] list@[j])@ != text@,
        decreases list.len() - i,
    {
        if same(list[i].as_str(), text) {
            return Some(i);
        }
        i += 1;
    }
    assert(!texts(list@).contains(text@)) by {
        assert(forall|j: int| 0 <= j < list@.len() ==> #[trigger] texts(list@)[j] == list@[j]@);
    }
    None
}

impl DaemonMemory {
    #[verifier::type_invariant]
    spec fn well_formed(self) -> bool {
        texts(self.missing@).no_duplicates()
    }

    /// The memory of a daemon that has not looked yet.
    pub fn new() -> (r: DaemonMemory)
        ensures
            r@ == (DaemonMemoryView {
                sizes: Map::empty(),
                missing: Set::empty(),
                compacting: false,
            }),
    {
        let r = DaemonMemory { sizes: Sizes::new(), missing: Vec::new(), compacting: false };
        assert(r@.missing =~= Set::empty());
        r
    }

    /// Takes note that a session has no log.
    pub fn log_missing(self, name: &str, role: Role) -> (r: (DaemonMemory, Option<Outcome>))
        ensures
            r.0@ == self@.without_log(name@),
            opt_outcome(r.1) == self@.told_missing(name@, role),
    {
        proof {
            use_type_invariant(&self);
        }
        let ghost before = texts(self.missing@);
        match find_text(&self.missing, name) {
            Some(at) => {
                assert(texts(self.missing@)[at as int] == name@);
                assert(self@.missing.insert(name@) =~= self@.missing);
                (self, None)
            },
            None => {
                let DaemonMemory { sizes, missing, compacting } = self;
                let mut missing = missing;
                missing.push(name.to_owned());
                assert(texts(missing@) =~= before.push(name@));
                assert(texts(missing@).to_set() =~= before.to_set().insert(name@)) by {
                    let after = texts(missing@);
                    let grown = before.to_set().insert(name@);
                    assert forall|other: Seq<char>|
                        after.to_set().contains(other) implies grown.contains(other) by {
                        let i = choose|i: int| 0 <= i < after.len() && after[i] == other;
                        if i < before.len() {
                            assert(before[i] == other);
                        }
                    }
                    assert forall|other: Seq<char>|
                        grown.contains(other) implies after.to_set().contains(other) by {
                        if before.contains(other) {
                            let i = choose|i: int| 0 <= i < before.len() && before[i] == other;
                            assert(after[i] == other);
                        } else {
                            assert(after[before.len() as int] == other);
                        }
                    }
                }
                assert(texts(missing@).no_duplicates()) by {
                    let after = texts(missing@);
                    assert forall|i: int, j: int|
                        0 <= i < after.len() && 0 <= j < after.len() && i != j implies after[i]
                        != after[j] by {
                        if i < before.len() && j < before.len() {
                            assert(before[i] != before[j]);
                        } else if i < before.len() {
                            assert(before.contains(before[i]));
                        } else {
                            assert(before.contains(before[j]));
                        }
                    }
                }
                let danger = if role == Role::Lead {
                    "; the lead context stop threshold cannot fire"
                } else {
                    ""
                };
                let detail = name.to_owned().concat(" (").concat(role.as_str()).concat(
                    "): session log not found",
                ).concat(danger);
                let line = "WARNING: ".to_owned().concat(detail.as_str());
                let outcome = Outcome { event: Event::new("session-log-missing", detail), line };
                (DaemonMemory { sizes, missing, compacting }, Some(outcome))
            },
        }
    }

    /// Takes note that a session has this log, of this size. The second answer tells whether it
    /// grew, or is seen for the first time.
    pub fn log_found(self, name: &str, log: &str, size: u64) -> (r: (
        DaemonMemory,
        bool,
        Option<Outcome>,
    ))
        ensures
            r.0@ == self@.with_log(name@, size),
            r.1 == self@.grew(name@, size),
            opt_outcome(r.2) == self@.told_found(name@, log@),
    {
        proof {
            use_type_invariant(&self);
        }
        let ghost before = texts(self.missing@);
        let grew = match self.sizes.get(name) {
            Some(known) => known != size,
            None => true,
        };
        let DaemonMemory { sizes, missing, compacting } = self;
        let mut missing = missing;
        let sizes = sizes.with(name, size);
        match find_text(&missing, name) {
            None => {
                assert(before.to_set().remove(name@) =~= before.to_set());
                (DaemonMemory { sizes, missing, compacting }, grew, None)
            },
            Some(at) => {
                let _ = missing.remove(at);
                assert(before[at as int] == name@);
                assert(texts(missing@) =~= before.remove(at as int));
                let ghost after = texts(missing@);
                assert(after.to_set() =~= before.to_set().remove(name@)) by {
                    let left = before.to_set().remove(name@);
                    assert forall|other: Seq<char>|
                        after.to_set().contains(other) implies left.contains(other) by {
                        let i = choose|i: int| 0 <= i < after.len() && after[i] == other;
                        let j = if i < at {
                            i
                        } else {
                            i + 1
                        };
                        assert(before[j] == other);
                        assert(before[j] != before[at as int]);
                    }
                    assert forall|other: Seq<char>|
                        left.contains(other) implies after.to_set().contains(other) by {
                        let j = choose|j: int| 0 <= j < before.len() && before[j] == other;
                        let i = if j < at {
                            j
                        } else {
                            j - 1
                        };
                        assert(after[i] == other);
                    }
                }
                assert(after.no_duplicates()) by {
                    assert forall|i: int, j: int|
                        0 <= i < after.len() && 0 <= j < after.len() && i != j implies after[i]
                        != after[j] by {
                        let k = if i < at {
                            i
                        } else {
                            i + 1
                        };
                        let l = if j < at {
                            j
                        } else {
                            j + 1
                        };
                        assert(before[k] != before[l]);
                    }
                }
                let detail = name.to_owned().concat(": ").concat(log);
                let line = "supervisor: session log found for ".to_owned().concat(name).concat(
                    ": ",
                ).concat(log);
                let outcome = Outcome { event: Event::new("session-log-found", detail), line };
                (DaemonMemory { sizes, missing, compacting }, grew, Some(outcome))
            },
        }
    }

    /// Whether the commentator was told to compact its context.
    pub fn compacting(&self) -> (r: bool)
        ensures
            r == self@.compacting,
    {
        self.compacting
    }

    /// Takes note of whether the commentator is compacting its context.
    pub fn with_compacting(self, compacting: bool) -> (r: DaemonMemory)
        ensures
            r@ == (DaemonMemoryView { compacting, ..self@ }),
    {
        proof {
            use_type_invariant(&self);
        }
        DaemonMemory { sizes: self.sizes, missing: self.missing, compacting }
    }
}

/// A missing log is told of once, and once more if it goes missing again after it was found.
pub proof fn law_missing_log_is_told_once(
    memory: DaemonMemoryView,
    name: Seq<char>,
    role: Role,
    log: Seq<char>,
    size: u64,
)
    ensures
        memory.without_log(name).told_missing(name, role) is None,
        memory.without_log(name).told_found(name, log) == Some(found_notice(name, log)),
        memory.with_log(name, size).told_missing(name, role) == Some(missing_notice(name, role)),
        memory.with_log(name, size).told_found(name, log) is None,
{
}

/// A log that has not changed since the last look has not grown, whatever was noted of other
/// sessions meanwhile.
pub proof fn law_unchanged_log_has_not_grown(
    memory: DaemonMemoryView,
    name: Seq<char>,
    size: u64,
    other: Seq<char>,
    other_size: u64,
)
    requires
        other != name,
    ensures
        !memory.with_log(name, size).grew(name, size),
        !memory.with_log(name, size).with_log(other, other_size).grew(name, size),
        !memory.with_log(name, size).without_log(name).grew(name, size),
{
}

/// Whether the lead is on record already: the same live session keeps its row.
pub open spec fn lead_is_registered(current: Option<SessionView>, session_id: Seq<char>) -> bool {
    &&& current matches Some(session)
    &&& session.is_live()
    &&& session.role == Role::Lead
    &&& session.external_session_id == session_id
}

/// Whether the lead is to be put on record: another session under its name is a new incarnation.
pub fn register_lead(current: Option<&Session>, lead_session_id: &str) -> (r: bool)
    ensures
        r == !lead_is_registered(opt_session(current), lead_session_id@),
{
    match current {
        Some(session) => !(session.is_live() && session.role() == Role::Lead && same(
            session.external_session_id(),
            lead_session_id,
        )),
        None => true,
    }
}

/// Whether a session has gone quiet and may be nudged.
pub open spec fn stalled(session: SessionView, now: i64) -> bool {
    session.quiet_seconds(now) > STALE_SECONDS && session.can_be_kicked()
}

/// Whether a session has gone quiet and may be nudged, so that the runtime is asked about it.
pub fn has_stalled(session: &Session, now: i64) -> (r: bool)
    ensures
        r == stalled(session@, now),
{
    session.quiet_seconds(now) > STALE_SECONDS && session.can_be_kicked()
}

/// Whether a stalled session is nudged, given its status: only where the runtime says that it is
/// idle.
pub fn kick_if_stalled(session: &Session, now: i64, status: Option<&str>) -> (r: bool)
    ensures
        r == (stalled(session@, now) && (opt_str(status) matches Some(status) && is_idle(status))),
{
    has_stalled(session, now) && match status {
        Some(status) => agent_is_idle(status),
        None => false,
    }
}

/// What a nudge that landed is recorded as.
pub fn kick_event(session: &Session) -> (r: Event)
    ensures
        r@ == (EventView { kind: "kick"@, detail: session@.name }),
{
    Event::new("kick", session.name().to_owned())
}

/// A session that was nudged is not nudged again, however long it stays quiet, until the nudge is
/// forgotten because its transcript grew.
pub proof fn law_one_kick_per_stall(session: SessionView, kicked_at: i64, now: i64, later: i64)
    requires
        stalled(session, now),
    ensures
        session.kicked_at is None,
        !stalled(SessionView { kicked_at: Some(kicked_at), ..session }, later),
{
}

/// What is to be done about an implementer.
#[derive(Debug)]
pub enum ImplementerStep<'a> {
    /// Nothing.
    Nothing,
    /// Its task has begun: the tree's head, and the context before `offset` of its log, are
    /// recorded.
    TakeFlight { task: &'a Task, offset: u64 },
    /// A commit is looked for in its log, from `offset` on. Where there is none it may have
    /// stalled.
    FindCommit { task: &'a Task, offset: u64 },
}

pub enum ImplementerStepView {
    Nothing,
    TakeFlight { task: TaskView, offset: u64 },
    FindCommit { task: TaskView, offset: u64 },
}

impl<'a> View for ImplementerStep<'a> {
    type V = ImplementerStepView;

    open spec fn view(&self) -> ImplementerStepView {
        match self {
            ImplementerStep::Nothing => ImplementerStepView::Nothing,
            ImplementerStep::TakeFlight { task, offset } => ImplementerStepView::TakeFlight {
                task: task@,
                offset: *offset,
            },
            ImplementerStep::FindCommit { task, offset } => ImplementerStepView::FindCommit {
                task: task@,
                offset: *offset,
            },
        }
    }
}

/// What is to be done about an implementer with these tasks, whose log has this size.
pub open spec fn implementer_step(tasks: Seq<TaskView>, log_size: u64) -> ImplementerStepView {
    match last_out(tasks) {
        None => ImplementerStepView::Nothing,
        Some(task) => {
            let offset = task.log_offset as u64;
            if task.state == TaskState::InFlight {
                ImplementerStepView::FindCommit { task, offset }
            } else if log_size <= offset {
                ImplementerStepView::Nothing
            } else {
                ImplementerStepView::TakeFlight { task, offset }
            }
        },
    }
}

/// What is to be done about an implementer with these tasks, whose log has this size.
pub fn observe_implementer(tasks: &Vec<Task>, log_size: u64) -> (r: ImplementerStep<'_>)
    ensures
        r@ == implementer_step(tasks_view(tasks@), log_size),
{
    match find_last_out(tasks) {
        None => ImplementerStep::Nothing,
        Some(task) => {
            proof {
                lemma_last_out_is_out(tasks_view(tasks@));
            }
            let offset = task.log_offset as u64;
            if task.state == TaskState::Dispatched {
                if log_size <= offset {
                    return ImplementerStep::Nothing;
                }
                ImplementerStep::TakeFlight { task, offset }
            } else {
                ImplementerStep::FindCommit { task, offset }
            }
        },
    }
}

proof fn lemma_last_out_is_out(tasks: Seq<TaskView>)
    ensures
        last_out(tasks) matches Some(task) ==> task.state.is_out(),
    decreases tasks.len(),
{
    if tasks.len() > 0 && !tasks.last().state.is_out() {
        lemma_last_out_is_out(tasks.drop_last());
    }
}

/// What a commit that was found is recorded as.
pub fn committed_event(task_id: i64, sha: &str) -> (r: Event)
    ensures
        r@ == (EventView {
            kind: "committed"@,
            detail: "task "@ + decimal(task_id as int) + " "@ + sha@,
        }),
{
    Event::new(
        "committed",
        "task ".to_owned().concat(decimal_text(task_id).as_str()).concat(" ").concat(sha),
    )
}

/// Whether one line of a transcript is something that the agent said, and names `needle`.
pub open spec fn says(document: Result<DocumentView, Seq<char>>, needle: Seq<char>) -> bool {
    &&& document matches Ok(document)
    &&& text_at(document.value, "type"@) == Some("assistant"@)
    &&& mentions(document.compact, needle)
}

/// Whether one line of a transcript, as it was read, is something that the agent said, and names
/// `needle`.
pub fn line_says(document: &Document, needle: &str) -> (r: bool)
    ensures
        r == says(Ok(document@), needle@),
{
    match document.value.get_str("type") {
        Some(kind) => same(kind, "assistant") && contains(document.compact.as_str(), needle),
        None => false,
    }
}

/// Whether the agent names `needle` somewhere in a transcript.
pub open spec fn transcript_says(text: Seq<char>, needle: Seq<char>) -> bool {
    exists|i: int|
        0 <= i < lines_of(text).len() && says(
            parsed_document(#[trigger] lines_of(text)[i]),
            needle,
        )
}

/// Whether the agent names `needle` somewhere in a transcript.
pub fn commentator_log_mentions(text: &str, needle: &str) -> (r: bool)
    ensures
        r == transcript_says(text@, needle@),
{
    let parts = lines(text);
    let ghost all = lines_of(text@);
    let mut i: usize = 0;
    while i < parts.len()
        invariant
            i <= parts@.len(),
            all == lines_of(text@),
            texts(parts@) == all,
            forall|j: int|
                0 <= j < i ==> !says(parsed_document(#[trigger] all[j]), needle@),
        decreases parts.len() - i,
    {
        assert(all[i as int] == texts(parts@)[i as int]);
        assert(all[i as int] == parts@[i as int]@);
        if let Ok(document) = parse_document(parts[i].as_str()) {
            if line_says(&document, needle) {
                return true;
            }
        }
        i += 1;
    }
    assert(texts(parts@).len() == parts@.len());
    false
}

/// The name by which the commentator is expected to mention a commit.
pub open spec fn abbreviated(sha: Seq<char>) -> Seq<char> {
    byte_prefix(sha, 7)
}

/// The name by which the commentator is expected to mention a commit.
pub fn abbreviation(sha: &str) -> (r: &str)
    ensures
        r@ == abbreviated(sha@),
{
    take_bytes(sha, 7)
}

/// What is to be done about commentary on a task.
#[derive(Debug)]
pub enum CommentaryStep {
    /// Nothing.
    Nothing,
    /// The commentary is there, and recorded.
    Record,
    /// The commentator is told of the commit.
    Wake { message: String },
}

pub enum CommentaryStepView {
    Nothing,
    Record,
    Wake { message: Seq<char> },
}

impl View for CommentaryStep {
    type V = CommentaryStepView;

    open spec fn view(&self) -> CommentaryStepView {
        match self {
            CommentaryStep::Nothing => CommentaryStepView::Nothing,
            CommentaryStep::Record => CommentaryStepView::Record,
            CommentaryStep::Wake { message } => CommentaryStepView::Wake { message: message@ },
        }
    }
}

/// What is to be done about commentary on a task, given whether it was delivered, whether the
/// commentator was told of the commit, and whether its log mentions it.
pub open spec fn commentary_step(
    task: TaskView,
    delivered: bool,
    woken: bool,
    mentioned: bool,
) -> CommentaryStepView {
    if !awaits_commentary(task) || delivered {
        CommentaryStepView::Nothing
    } else if mentioned {
        CommentaryStepView::Record
    } else if woken {
        CommentaryStepView::Nothing
    } else {
        CommentaryStepView::Wake {
            message: "supervisor: commit "@ + task.commit_sha->Some_0 + " landed for task "@
                + decimal(task.id as int) + "; review it from git"@,
        }
    }
}

/// What is to be done about commentary on a task, given the commentator's log.
pub fn observe_commentary(
    task: &Task,
    delivered: bool,
    woken: bool,
    log: &str,
) -> (r: CommentaryStep)
    ensures
        r@ == commentary_step(
            task@,
            delivered,
            woken,
            transcript_says(log@, abbreviated(task@.commit_sha->Some_0)),
        ),
{
    if !ready_for_commentary(task) || delivered {
        return CommentaryStep::Nothing;
    }
    match &task.commit_sha {
        Some(sha) => {
            if commentator_log_mentions(log, abbreviation(sha.as_str())) {
                CommentaryStep::Record
            } else if woken {
                CommentaryStep::Nothing
            } else {
                let message = "supervisor: commit ".to_owned().concat(sha.as_str()).concat(
                    " landed for task ",
                ).concat(decimal_text(task.id).as_str()).concat("; review it from git");
                CommentaryStep::Wake { message }
            }
        },
        None => CommentaryStep::Nothing,
    }
}

/// The commentator is told of a commit once, and never of one that it has commented on.
pub proof fn law_commentator_is_woken_once(task: TaskView, delivered: bool, mentioned: bool)
    ensures
        !(commentary_step(task, delivered, true, mentioned) is Wake),
        !(commentary_step(task, delivered, false, true) is Wake),
        commentary_step(task, true, false, mentioned) is Nothing,
{
}

/// What commentary that was delivered is recorded as.
pub fn delivered_event(task_id: i64) -> (r: Event)
    ensures
        r@ == (EventView {
            kind: "commentary-delivered"@,
            detail: "task "@ + decimal(task_id as int),
        }),
{
    Event::new("commentary-delivered", "task ".to_owned().concat(decimal_text(task_id).as_str()))
}

/// What telling the commentator of a commit is recorded as.
pub fn wake_event(task_id: i64, sha: &str) -> (r: Event)
    ensures
        r@ == (EventView {
            kind: "commentary-wake"@,
            detail: "task "@ + decimal(task_id as int) + " "@ + sha@,
        }),
{
    Event::new(
        "commentary-wake",
        "task ".to_owned().concat(decimal_text(task_id).as_str()).concat(" ").concat(sha),
    )
}

/// Whether the commentator is to be told to compact its context.
pub open spec fn compact_is_due(context: i64, compacting: bool) -> bool {
    context > COMMENTATOR_COMPACT_TOKENS && !compacting
}

/// Whether the commentator is to be told to compact its context.
pub fn should_compact(context: i64, compacting: bool) -> (r: bool)
    ensures
        r == compact_is_due(context, compacting),
{
    context > COMMENTATOR_COMPACT_TOKENS && !compacting
}

/// Whether the commentator counts as compacting after a look at its context, given whether the
/// word to do so landed where it was due.
pub open spec fn compacting_after(context: i64, compacting: bool, landed: bool) -> bool {
    if compact_is_due(context, compacting) {
        landed
    } else if context < COMMENTATOR_COMPACT_TOKENS {
        false
    } else {
        compacting
    }
}

/// Whether the commentator counts as compacting after a look at its context.
pub fn still_compacting(context: i64, compacting: bool, landed: bool) -> (r: bool)
    ensures
        r == compacting_after(context, compacting, landed),
{
    if should_compact(context, compacting) {
        landed
    } else if context < COMMENTATOR_COMPACT_TOKENS {
        false
    } else {
        compacting
    }
}

/// What the word to compact is recorded as once it has landed.
pub fn compact_event(name: &str, context: i64) -> (r: Event)
    ensures
        r@ == (EventView {
            kind: "compact"@,
            detail: name@ + " at "@ + decimal(context as int),
        }),
{
    Event::new("compact", name.to_owned().concat(" at ").concat(decimal_text(context).as_str()))
}

/// Once the word to compact has landed it is not given again before the context has shrunk.
pub proof fn law_compact_is_latched(context: i64, later: i64, landed: bool)
    requires
        compact_is_due(context, false),
    ensures
        compacting_after(context, false, true),
        !compact_is_due(later, true),
        compacting_after(later, true, landed) <==> later >= COMMENTATOR_COMPACT_TOKENS,
        !compacting_after(context, false, false),
{
}

/// Whether the lead's context has crossed its stop threshold and that is not on record.
pub open spec fn lead_crossed(context: i64, on_record: Option<Seq<char>>) -> bool {
    context > LEAD_STOP_TOKENS && on_record != Some("1"@)
}

/// What is recorded when the lead's context crosses its stop threshold, unless that is on record.
pub fn observe_lead(context: i64, on_record: Option<&str>) -> (r: Option<Event>)
    ensures
        match r {
            Some(event) => lead_crossed(context, opt_str(on_record)) && event@ == (EventView {
                kind: "stop-lead"@,
                detail: "context "@ + decimal(context as int),
            }),
            None => !lead_crossed(context, opt_str(on_record)),
        },
{
    if context <= LEAD_STOP_TOKENS {
        return None;
    }
    if let Some(value) = on_record {
        if same(value, "1") {
            return None;
        }
    }
    Some(Event::new("stop-lead", "context ".to_owned().concat(decimal_text(context).as_str())))
}

/// The CLI of the agents that play this role: the default one where the settings cannot be read.
pub fn session_cli(settings: Option<&Settings>, role: Role) -> (r: AgentCli)
    ensures
        r == (match settings {
            Some(settings) => settings@.agent(role).cli,
            None => AgentCli::Claude,
        }),
{
    match settings {
        Some(settings) => settings.agent(role).cli(),
        None => AgentCli::Claude,
    }
}

/// Whether a transcript of this name belongs to a session that is no implementer.
pub open spec fn is_excluded(sessions: Seq<SessionView>, name: Seq<char>) -> bool {
    exists|i: int|
        0 <= i < sessions.len() && (#[trigger] sessions[i]).role != Role::Implementer
            && sessions[i].external_session_id == name
}

fn excluded(sessions: &Vec<Session>, name: &str) -> (r: bool)
    ensures
        r == is_excluded(sessions_view(sessions@), name@),
{
    let ghost all = sessions_view(sessions@);
    let mut i: usize = 0;
    while i < sessions.len()
        invariant
            i <= sessions@.len(),
            all == sessions_view(sessions@),
            forall|j: int|
                0 <= j < i ==> !((#[trigger] all[j]).role != Role::Implementer
                    && all[j].external_session_id == name@),
        decreases sessions.len() - i,
    {
        assert(all[i as int] == sessions@[i as int]@);
        if sessions[i].role() != Role::Implementer && same(sessions[i].external_session_id(), name) {
            return true;
        }
        i += 1;
    }
    false
}

/// The sizes among these that belong to no lead and no commentator.
pub open spec fn kept_sizes(entries: Seq<(Seq<char>, u64)>, sessions: Seq<SessionView>) -> Map<
    Seq<char>,
    u64,
>
    decreases entries.len(),
{
    if entries.len() == 0 {
        Map::empty()
    } else if is_excluded(sessions, entries.last().0) {
        kept_sizes(entries.drop_last(), sessions)
    } else {
        kept_sizes(entries.drop_last(), sessions).insert(entries.last().0, entries.last().1)
    }
}

/// `sizes` with those of the implementers' logs set, where they were found.
pub open spec fn with_found_logs(
    sizes: Map<Seq<char>, u64>,
    sessions: Seq<SessionView>,
    logs: Seq<Option<u64>>,
) -> Map<Seq<char>, u64>
    decreases sessions.len(),
{
    if sessions.len() == 0 {
        sizes
    } else {
        let before = with_found_logs(sizes, sessions.drop_last(), logs);
        let last = sessions.len() - 1;
        if sessions.last().role == Role::Implementer && last < logs.len() && logs[last] is Some {
            before.insert(sessions.last().external_session_id, logs[last]->Some_0)
        } else {
            before
        }
    }
}

/// How large the implementers' transcripts are: those beside the run's logs that belong to no other
/// session, and, where implementers do not keep theirs there, each one's own.
pub open spec fn watched_sizes(
    entries: Seq<(Seq<char>, u64)>,
    sessions: Seq<SessionView>,
    cli: AgentCli,
    logs: Seq<Option<u64>>,
) -> Map<Seq<char>, u64> {
    let kept = kept_sizes(entries, sessions);
    if cli == AgentCli::Claude {
        kept
    } else {
        with_found_logs(kept, sessions, logs)
    }
}

/// How large the implementers' transcripts are. `logs` tells the size of each session's own log,
/// where it was found.
pub fn implementer_transcript_sizes(
    entries: &Vec<NamedSize>,
    sessions: &Vec<Session>,
    cli: AgentCli,
    logs: &Vec<Option<u64>>,
) -> (r: Sizes)
    ensures
        r@ == watched_sizes(entries_view(entries@), sessions_view(sessions@), cli, logs@),
{
    let ghost all = entries_view(entries@);
    let ghost people = sessions_view(sessions@);
    let mut sizes = Sizes::new();
    let mut i: usize = 0;
    while i < entries.len()
        invariant
            i <= entries@.len(),
            all == entries_view(entries@),
            people == sessions_view(sessions@),
            sizes@ == kept_sizes(all.take(i as int), people),
        decreases entries.len() - i,
    {
        assert(all.take(i + 1).drop_last() == all.take(i as int));
        assert(all.take(i + 1).last() == (entries@[i as int].name@, entries@[i as int].size));
        if !excluded(sessions, entries[i].name.as_str()) {
            sizes = sizes.with(entries[i].name.as_str(), entries[i].size);
        }
        i += 1;
    }
    assert(all.take(all.len() as int) == all);
    if cli == AgentCli::Claude {
        return sizes;
    }
    let ghost kept = sizes@;
    let mut j: usize = 0;
    assert(people.take(0) =~= Seq::empty());
    while j < sessions.len()
        invariant
            j <= sessions@.len(),
            people == sessions_view(sessions@),
            sizes@ == with_found_logs(kept, people.take(j as int), logs@),
        decreases sessions.len() - j,
    {
        assert(people.take(j + 1).drop_last() == people.take(j as int));
        assert(people.take(j + 1).last() == sessions@[j as int]@);
        if sessions[j].role() == Role::Implementer && j < logs.len() {
            if let Some(size) = logs[j] {
                sizes = sizes.with(sessions[j].external_session_id(), size);
            }
        }
        j += 1;
    }
    assert(people.take(people.len() as int) == people);
    sizes
}

/// No watched transcript belongs to the lead or the commentator, so that being woken never wakes
/// the commentator.
pub proof fn law_only_implementers_are_watched(
    entries: Seq<(Seq<char>, u64)>,
    sessions: Seq<SessionView>,
    cli: AgentCli,
    logs: Seq<Option<u64>>,
    name: Seq<char>,
)
    requires
        is_excluded(sessions, name),
        forall|i: int|
            0 <= i < sessions.len() && (#[trigger] sessions[i]).external_session_id == name
                ==> sessions[i].role != Role::Implementer,
    ensures
        !watched_sizes(entries, sessions, cli, logs).contains_key(name),
{
    lemma_excluded_is_not_kept(entries, sessions, name);
    lemma_found_logs_are_implementers(kept_sizes(entries, sessions), sessions, logs, name);
}

proof fn lemma_excluded_is_not_kept(
    entries: Seq<(Seq<char>, u64)>,
    sessions: Seq<SessionView>,
    name: Seq<char>,
)
    requires
        is_excluded(sessions, name),
    ensures
        !kept_sizes(entries, sessions).contains_key(name),
    decreases entries.len(),
{
    if entries.len() > 0 {
        lemma_excluded_is_not_kept(entries.drop_last(), sessions, name);
    }
}

proof fn lemma_found_logs_are_implementers(
    sizes: Map<Seq<char>, u64>,
    sessions: Seq<SessionView>,
    logs: Seq<Option<u64>>,
    name: Seq<char>,
)
    requires
        !sizes.contains_key(name),
        forall|i: int|
            0 <= i < sessions.len() && (#[trigger] sessions[i]).external_session_id == name
                ==> sessions[i].role != Role::Implementer,
    ensures
        !with_found_logs(sizes, sessions, logs).contains_key(name),
    decreases sessions.len(),
{
    if sessions.len() > 0 {
        let rest = sessions.drop_last();
        assert(forall|i: int| 0 <= i < rest.len() ==> #[trigger] rest[i] == sessions[i]);
        assert(sessions[sessions.len() - 1] == sessions.last());
        lemma_found_logs_are_implementers(sizes, rest, logs, name);
    }
}

/// Whether the daemon goes on, given what the store holds of a stop.
pub fn goes_on(stopped: Option<&str>) -> (r: bool)
    ensures
        r == (opt_str(stopped) != Some("1"@)),
{
    match stopped {
        Some(value) => !same(value, "1"),
        None => true,
    }
}

/// Whenever an implementer takes flight or a commit of it is looked for, that is for the last of
/// its tasks that is out, and from that task's own offset on, whatever the size of the log. A
/// commit is looked for exactly where that task is in flight; it takes flight exactly where it is
/// dispatched and the log has grown past the offset.
pub proof fn law_implementer_is_watched_from_its_tasks_offset(
    tasks: Seq<TaskView>,
    at: int,
    log_size: u64,
)
    requires
        0 <= at < tasks.len(),
        tasks[at].state == TaskState::Dispatched || tasks[at].state == TaskState::InFlight,
        forall|i: int|
            at < i < tasks.len() ==> (#[trigger] tasks[i]).state != TaskState::Dispatched
                && tasks[i].state != TaskState::InFlight,
        tasks[at].log_offset >= 0,
    ensures
        match implementer_step(tasks, log_size) {
            ImplementerStepView::FindCommit { task, offset } => {
                &&& tasks[at].state == TaskState::InFlight
                &&& task == tasks[at]
                &&& offset == tasks[at].log_offset
            },
            ImplementerStepView::TakeFlight { task, offset } => {
                &&& tasks[at].state == TaskState::Dispatched
                &&& log_size > tasks[at].log_offset
                &&& task == tasks[at]
                &&& offset == tasks[at].log_offset
            },
            ImplementerStepView::Nothing => {
                &&& tasks[at].state == TaskState::Dispatched
                &&& log_size <= tasks[at].log_offset
            },
        },
{
    law_last_task_that_is_out(tasks);
    let task = last_out(tasks)->Some_0;
    let i = choose|i: int|
        {
            &&& 0 <= i < tasks.len()
            &&& #[trigger] tasks[i] == task
            &&& task.state == TaskState::Dispatched || task.state == TaskState::InFlight
            &&& forall|j: int|
                i < j < tasks.len() ==> (#[trigger] tasks[j]).state != TaskState::Dispatched
                    && tasks[j].state != TaskState::InFlight
        };
    assert(i == at);
}

/// The same holds of any list and any log: a step names a task of the list that is out and no
/// offset but that task's, and where no task is out there is no step.
pub proof fn law_step_names_a_task_that_is_out(tasks: Seq<TaskView>, log_size: u64, other_size: u64)
    ensures
        match implementer_step(tasks, log_size) {
            ImplementerStepView::FindCommit { task, offset } => {
                &&& tasks.contains(task)
                &&& task.state == TaskState::InFlight
                &&& offset == task.log_offset as u64
                &&& implementer_step(tasks, other_size) == implementer_step(tasks, log_size)
            },
            ImplementerStepView::TakeFlight { task, offset } => {
                &&& tasks.contains(task)
                &&& task.state == TaskState::Dispatched
                &&& offset == task.log_offset as u64
                &&& offset < log_size
                &&& other_size >= log_size ==> implementer_step(tasks, other_size)
                    == implementer_step(tasks, log_size)
            },
            ImplementerStepView::Nothing => true,
        },
        (forall|i: int|
            0 <= i < tasks.len() ==> (#[trigger] tasks[i]).state != TaskState::Dispatched
                && tasks[i].state != TaskState::InFlight) ==> implementer_step(
            tasks,
            log_size,
        ) is Nothing,
{
    law_last_task_that_is_out(tasks);
}

/// Of a task whose commit awaits commentary that is not yet delivered, the commentary is recorded
/// exactly where the commentator's log mentions the commit, whether or not the commentator was told
/// of it; the commentator is told exactly where it was not and the log does not mention it. Once
/// commentary is delivered, and of any other task, nothing is done.
pub proof fn law_commentary_is_recorded_where_it_is_mentioned(
    task: TaskView,
    delivered: bool,
    woken: bool,
    mentioned: bool,
)
    ensures
        ({
            let step = commentary_step(task, delivered, woken, mentioned);
            let awaited = (task.state == TaskState::CommittedUnverified || task.state
                == TaskState::Accepted) && task.commit_sha is Some && !delivered;
            &&& awaited ==> (step is Record <==> mentioned)
            &&& awaited ==> (step is Wake <==> !mentioned && !woken)
            &&& !awaited ==> step is Nothing
            &&& step matches CommentaryStepView::Wake { message } ==> mentions(
                message,
                task.commit_sha->Some_0,
            ) && mentions(message, decimal(task.id as int))
        }),
{
    let sha = task.commit_sha->Some_0;
    let id = decimal(task.id as int);
    let head = "supervisor: commit "@;
    let middle = " landed for task "@;
    let tail = "; review it from git"@;
    law_text_mentions_what_stands_in_it(head, sha, middle + id + tail, Seq::empty());
    law_text_mentions_what_stands_in_it(head + sha + middle, id, tail, Seq::empty());
    assert(head + sha + (middle + id + tail) =~= head + sha + middle + id + tail);
}

/// What the agent says in two transcripts, of which the first is complete, it says in both together
/// and nothing besides.
pub proof fn law_what_was_said_stays_said(first: Seq<char>, second: Seq<char>, needle: Seq<char>)
    requires
        first.len() == 0 || first.last() == '\n',
    ensures
        transcript_says(first + second, needle) <==> transcript_says(first, needle)
            || transcript_says(second, needle),
{
    law_lines_of_two_texts(first, second);
    let one = lines_of(first);
    let two = lines_of(second);
    let both = lines_of(first + second);
    if transcript_says(first, needle) {
        let i = choose|i: int|
            0 <= i < one.len() && says(parsed_document(#[trigger] one[i]), needle);
        assert(both[i] == one[i]);
    }
    if transcript_says(second, needle) {
        let i = choose|i: int|
            0 <= i < two.len() && says(parsed_document(#[trigger] two[i]), needle);
        assert(both[one.len() + i] == two[i]);
    }
    if transcript_says(first + second, needle) {
        let i = choose|i: int|
            0 <= i < both.len() && says(parsed_document(#[trigger] both[i]), needle);
        if i < one.len() {
            assert(both[i] == one[i]);
        } else {
            assert(both[i] == two[i - one.len()]);
        }
    }
}

/// A line is something that the agent said, and names `needle`, exactly where it can be read, its
/// type is that of an agent's message, and it mentions `needle` as it is written out compactly.
pub proof fn law_line_says_by_its_type(line: Seq<char>, needle: Seq<char>)
    requires
        line.len() > 0,
        !line.contains('\n'),
    ensures
        transcript_says(line, needle) <==> {
            &&& parsed_document(line) is Ok
            &&& text_at(parsed_document(line)->Ok_0.value, "type"@) == Some("assistant"@)
            &&& mentions(parsed_document(line)->Ok_0.compact, needle)
        },
{
    law_line_is_what_stands_before_its_ending(line);
    assert(lines_of(line)[0] == line);
}

/// A commit's abbreviated name is made of its first seven characters, or of all where it is shorter.
pub proof fn law_abbreviation_is_seven_characters(sha: Seq<char>)
    requires
        vstd::utf8::is_ascii_chars(sha),
    ensures
        sha.len() >= 7 ==> abbreviated(sha).len() == 7,
        sha.len() < 7 ==> abbreviated(sha) == sha,
        forall|i: int| 0 <= i < abbreviated(sha).len() ==> #[trigger] abbreviated(sha)[i] == sha[i],
{
    law_bytes_of_ascii_are_characters(sha, 7);
}

/// A session is nudged only after more than ten minutes of quiet, and then only one that is live
/// and was not nudged since it last grew.
pub proof fn law_session_stalls_after_ten_minutes(session: SessionView, now: i64)
    ensures
        stalled(session, now) <==> {
            &&& now - session.last_growth >= 601_000
            &&& session.stopped_at is None
            &&& session.kicked_at is None
        },
{
}

/// The lead keeps its row exactly where the session under its name has not stopped, leads, and is
/// the same session.
pub proof fn law_lead_keeps_its_row(current: Option<SessionView>, session_id: Seq<char>)
    ensures
        lead_is_registered(current, session_id) <==> {
            &&& current is Some
            &&& current->Some_0.stopped_at is None
            &&& current->Some_0.role == Role::Lead
            &&& current->Some_0.external_session_id == session_id
        },
{
}

/// The commentator is told to compact its context once it is past 150000 and not while it does; the
/// lead is told to stop once its context is past 250000, and only while that is not on record.
pub proof fn law_contexts_are_held_to_their_limits(
    context: i64,
    compacting: bool,
    landed: bool,
    on_record: Option<Seq<char>>,
)
    ensures
        compact_is_due(context, compacting) <==> context >= 150_001 && !compacting,
        compacting_after(context, compacting, landed) <==> {
            ||| context >= 150_001 && (compacting || landed)
            ||| context == 150_000 && compacting
        },
        lead_crossed(context, on_record) <==> context >= 250_001 && on_record != Some("1"@),
{
}

/// A log that changed, or was never seen, has grown. What is noted of one session leaves what is
/// known of every other one, and of the commentator, as it was.
pub proof fn law_changed_log_has_grown(
    memory: DaemonMemoryView,
    name: Seq<char>,
    size: u64,
    other: Seq<char>,
    other_size: u64,
    role: Role,
    log: Seq<char>,
)
    requires
        other != name,
    ensures
        size != other_size ==> memory.with_log(name, size).grew(name, other_size),
        !memory.sizes.contains_key(name) ==> memory.grew(name, size),
        memory.with_log(name, size).grew(other, other_size) == memory.grew(other, other_size),
        memory.without_log(name).grew(other, other_size) == memory.grew(other, other_size),
        memory.with_log(name, size).told_missing(other, role) == memory.told_missing(other, role),
        memory.without_log(name).told_missing(other, role) == memory.told_missing(other, role),
        memory.with_log(name, size).told_found(other, log) == memory.told_found(other, log),
        memory.without_log(name).told_found(other, log) == memory.told_found(other, log),
        memory.with_log(name, size).compacting == memory.compacting,
        memory.without_log(name).compacting == memory.compacting,
{
}

/// A lead without a log is told of with what that means; another session is not.
#[verifier::rlimit(40)]
pub proof fn law_missing_log_of_the_lead_is_grave(name: Seq<char>, role: Role)
    ensures
        role == Role::Lead ==> missing_notice(name, role).line == "WARNING: "@ + name
            + " (lead): session log not found; the lead context stop threshold cannot fire"@,
        role == Role::Implementer ==> missing_notice(name, role).line == "WARNING: "@ + name
            + " (implementer): session log not found"@,
        role == Role::Commentator ==> missing_notice(name, role).line == "WARNING: "@ + name
            + " (commentator): session log not found"@,
        missing_notice(name, role).line == "WARNING: "@ + missing_notice(name, role).event.detail,
{
    reveal_strlit(" (");
    reveal_strlit("lead");
    reveal_strlit("implementer");
    reveal_strlit("commentator");
    reveal_strlit("): session log not found");
    reveal_strlit("; the lead context stop threshold cannot fire");
    reveal_strlit("");
    reveal_strlit(" (lead): session log not found; the lead context stop threshold cannot fire");
    reveal_strlit(" (implementer): session log not found");
    reveal_strlit(" (commentator): session log not found");
    let line = missing_notice(name, role).line;
    match role {
        Role::Lead => {
            assert(line =~= "WARNING: "@ + name
                + " (lead): session log not found; the lead context stop threshold cannot fire"@);
        },
        Role::Implementer => {
            assert(line =~= "WARNING: "@ + name + " (implementer): session log not found"@);
        },
        Role::Commentator => {
            assert(line =~= "WARNING: "@ + name + " (commentator): session log not found"@);
        },
    }
}

proof fn lemma_kept_size(
    entries: Seq<(Seq<char>, u64)>,
    sessions: Seq<SessionView>,
    name: Seq<char>,
    at: int,
)
    requires
        0 <= at < entries.len(),
        entries[at].0 == name,
        forall|i: int| at < i < entries.len() ==> (#[trigger] entries[i]).0 != name,
        !is_excluded(sessions, name),
    ensures
        kept_sizes(entries, sessions).contains_key(name),
        kept_sizes(entries, sessions)[name] == entries[at].1,
    decreases entries.len(),
{
    let rest = entries.drop_last();
    assert(forall|i: int| 0 <= i < rest.len() ==> #[trigger] rest[i] == entries[i]);
    if at < rest.len() {
        assert(entries[entries.len() - 1].0 != name);
        lemma_kept_size(rest, sessions, name, at);
    }
}

proof fn lemma_kept_entry(entries: Seq<(Seq<char>, u64)>, sessions: Seq<SessionView>, name: Seq<char>)
    requires
        kept_sizes(entries, sessions).contains_key(name),
    ensures
        exists|i: int| 0 <= i < entries.len() && (#[trigger] entries[i]).0 == name,
    decreases entries.len(),
{
    if entries.len() > 0 {
        let rest = entries.drop_last();
        if kept_sizes(rest, sessions).contains_key(name) {
            lemma_kept_entry(rest, sessions, name);
            let i = choose|i: int| 0 <= i < rest.len() && (#[trigger] rest[i]).0 == name;
            assert(entries[i].0 == name);
        } else {
            assert(entries[entries.len() - 1].0 == name);
        }
    }
}

proof fn lemma_other_logs(
    sizes: Map<Seq<char>, u64>,
    sessions: Seq<SessionView>,
    logs: Seq<Option<u64>>,
    name: Seq<char>,
    from: int,
)
    requires
        0 <= from <= sessions.len(),
        forall|i: int|
            from <= i < sessions.len() && i < logs.len() && (#[trigger] sessions[i]).role
                == Role::Implementer && sessions[i].external_session_id == name ==> logs[i] is None,
    ensures
        with_found_logs(sizes, sessions, logs).contains_key(name) == with_found_logs(
            sizes,
            sessions.take(from),
            logs,
        ).contains_key(name),
        with_found_logs(sizes, sessions, logs)[name] == with_found_logs(
            sizes,
            sessions.take(from),
            logs,
        )[name],
    decreases sessions.len(),
{
    if from == sessions.len() {
        assert(sessions.take(from) =~= sessions);
    } else {
        let rest = sessions.drop_last();
        let last = sessions.len() - 1;
        assert(forall|i: int| 0 <= i < rest.len() ==> #[trigger] rest[i] == sessions[i]);
        assert(sessions[last] == sessions.last());
        lemma_other_logs(sizes, rest, logs, name, from);
        assert(rest.take(from) =~= sessions.take(from));
    }
}

/// A transcript beside the run's logs that belongs to no lead and no commentator is watched, at the
/// size that was seen last, unless an implementer's own log was found under its name.
pub proof fn law_transcript_is_watched_at_its_size(
    entries: Seq<(Seq<char>, u64)>,
    sessions: Seq<SessionView>,
    cli: AgentCli,
    logs: Seq<Option<u64>>,
    name: Seq<char>,
    at: int,
)
    requires
        0 <= at < entries.len(),
        entries[at].0 == name,
        forall|i: int| at < i < entries.len() ==> (#[trigger] entries[i]).0 != name,
        forall|i: int|
            0 <= i < sessions.len() && (#[trigger] sessions[i]).external_session_id == name
                ==> sessions[i].role == Role::Implementer && (cli == AgentCli::Claude || i
                >= logs.len() || logs[i] is None),
    ensures
        watched_sizes(entries, sessions, cli, logs).contains_key(name),
        watched_sizes(entries, sessions, cli, logs)[name] == entries[at].1,
{
    lemma_kept_size(entries, sessions, name, at);
    if cli != AgentCli::Claude {
        lemma_other_logs(kept_sizes(entries, sessions), sessions, logs, name, 0);
        assert(sessions.take(0) =~= Seq::empty());
    }
}

/// Where implementers keep their transcripts elsewhere, each one's own log is watched at its size.
pub proof fn law_found_log_is_watched(
    entries: Seq<(Seq<char>, u64)>,
    sessions: Seq<SessionView>,
    cli: AgentCli,
    logs: Seq<Option<u64>>,
    at: int,
)
    requires
        cli != AgentCli::Claude,
        0 <= at < sessions.len(),
        at < logs.len(),
        logs[at] is Some,
        sessions[at].role == Role::Implementer,
        forall|i: int|
            at < i < sessions.len() && i < logs.len() && (#[trigger] sessions[i]).role
                == Role::Implementer && sessions[i].external_session_id
                == sessions[at].external_session_id ==> logs[i] is None,
    ensures
        watched_sizes(entries, sessions, cli, logs).contains_key(sessions[at].external_session_id),
        watched_sizes(entries, sessions, cli, logs)[sessions[at].external_session_id]
            == logs[at]->Some_0,
{
    let kept = kept_sizes(entries, sessions);
    let name = sessions[at].external_session_id;
    lemma_other_logs(kept, sessions, logs, name, at + 1);
    let early = sessions.take(at + 1);
    assert(early.last() == sessions[at]);
}

/// Every transcript that is watched is one that was seen beside the run's logs, or an implementer's
/// own where those are kept elsewhere.
pub proof fn law_watched_transcript_was_seen(
    entries: Seq<(Seq<char>, u64)>,
    sessions: Seq<SessionView>,
    cli: AgentCli,
    logs: Seq<Option<u64>>,
    name: Seq<char>,
)
    requires
        watched_sizes(entries, sessions, cli, logs).contains_key(name),
    ensures
        (exists|i: int| 0 <= i < entries.len() && (#[trigger] entries[i]).0 == name) || (cli
            != AgentCli::Claude && exists|i: int|
            0 <= i < sessions.len() && (#[trigger] sessions[i]).role == Role::Implementer
                && sessions[i].external_session_id == name),
{
    if kept_sizes(entries, sessions).contains_key(name) {
        lemma_kept_entry(entries, sessions, name);
    } else if forall|i: int|
        0 <= i < sessions.len() && (#[trigger] sessions[i]).external_session_id == name
            ==> sessions[i].role != Role::Implementer {
        lemma_found_logs_are_implementers(kept_sizes(entries, sessions), sessions, logs, name);
    }
}

/// No transcript of a session that is no implementer is watched, unless an implementer goes by the
/// same id.
pub proof fn law_other_sessions_are_not_watched(
    entries: Seq<(Seq<char>, u64)>,
    sessions: Seq<SessionView>,
    cli: AgentCli,
    logs: Seq<Option<u64>>,
    at: int,
)
    requires
        0 <= at < sessions.len(),
        sessions[at].role == Role::Lead || sessions[at].role == Role::Commentator,
        forall|i: int|
            0 <= i < sessions.len() && (#[trigger] sessions[i]).role == Role::Implementer
                ==> sessions[i].external_session_id != sessions[at].external_session_id,
    ensures
        !watched_sizes(entries, sessions, cli, logs).contains_key(sessions[at].external_session_id),
{
    let name = sessions[at].external_session_id;
    assert(is_excluded(sessions, name));
    law_only_implementers_are_watched(entries, sessions, cli, logs, name);
}

/// A log that is there after all is told of with the session and the place of the log, in the
/// journal and to the human.
pub proof fn law_found_log_is_told_with_its_place(name: Seq<char>, log: Seq<char>)
    ensures
        found_notice(name, log).event.kind == "session-log-found"@,
        found_notice(name, log).event.detail == name + ": "@ + log,
        found_notice(name, log).line == "supervisor: session log found for "@ + found_notice(
            name,
            log,
        ).event.detail,
        missing_notice(name, Role::Lead).event.kind == "session-log-missing"@,
        missing_notice(name, Role::Implementer).event.kind == "session-log-missing"@,
        missing_notice(name, Role::Commentator).event.kind == "session-log-missing"@,
{
    let head = "supervisor: session log found for "@;
    assert(head + name + ": "@ + log =~= head + (name + ": "@ + log));
}

/// The commentator is told of a commit by its full name, with its task and what to do.
pub proof fn law_commentator_is_told_what_to_review(task: TaskView, sha: Seq<char>)
    requires
        task.state == TaskState::CommittedUnverified || task.state == TaskState::Accepted,
        task.commit_sha == Some(sha),
    ensures
        commentary_step(task, false, false, false) == (CommentaryStepView::Wake {
            message: "supervisor: commit "@ + sha + " landed for task "@ + decimal(task.id as int)
                + "; review it from git"@,
        }),
{
}

/// What is to be done about an implementer, or about commentary, stands for what it says.
pub proof fn law_steps_stand_for_what_they_say<'a>(
    task: &'a Task,
    offset: u64,
    message: String,
    outcome: Outcome,
)
    ensures
        ImplementerStep::Nothing@ == ImplementerStepView::Nothing,
        (ImplementerStep::TakeFlight { task, offset })@ == (ImplementerStepView::TakeFlight {
            task: task@,
            offset,
        }),
        (ImplementerStep::FindCommit { task, offset })@ == (ImplementerStepView::FindCommit {
            task: task@,
            offset,
        }),
        CommentaryStep::Nothing@ == CommentaryStepView::Nothing,
        CommentaryStep::Record@ == CommentaryStepView::Record,
        (CommentaryStep::Wake { message })@ == (CommentaryStepView::Wake { message: message@ }),
        opt_outcome(Some(outcome)) == Some(outcome@),
        opt_outcome(None) is None,
{
}

} // verus!
