//! What the state of a run looks like, line by line.

use vstd::prelude::*;
use vstd::string::*;

use crate::moments::{clock_time, is_clock_text};
use crate::number::{decimal, decimal_text, unsigned_text};
use crate::planning::{name_of, session_name};
use crate::session::{sessions_view, Role, Session, SessionView};
use crate::task::{
    last_at, last_event_at, law_newest_event_is_found, tasks_view, Task, TaskEvent, TaskState,
    TaskView,
};
use crate::text::{
    byte_prefix, join, joined, law_joined_text_mentions_its_parts, law_mentions_are_passed_on,
    law_text_mentions_what_stands_in_it, mentions, pad_left, pad_right, padded_left, padded_right,
    same, take_bytes, texts,
};
use crate::warnings::whole_seconds;

verus! {

/// An implementer whose context grows past this is over its limit.
pub const IMPLEMENTER_LIMIT_TOKENS: i64 = 100_000;

/// A commit's name, short.
pub fn short_sha(sha: &str) -> (r: &str)
    ensures
        r@ == byte_prefix(sha@, 10),
{
    take_bytes(sha, 10)
}

/// The line that tells only a task's state.
pub fn state_line(task_id: i64, state: TaskState) -> (r: String)
    ensures
        r@ == decimal(task_id as int) + " "@ + state.name(),
{
    decimal_text(task_id).concat(" ").concat(state.as_str())
}

/// Something that happened to a task, and when.
#[derive(Debug)]
pub struct Mark {
    pub label: String,
    pub at: i64,
}

pub struct MarkView {
    pub label: Seq<char>,
    pub at: i64,
}

impl View for Mark {
    type V = MarkView;

    open spec fn view(&self) -> MarkView {
        MarkView { label: self.label@, at: self.at }
    }
}

pub open spec fn marks_view(marks: Seq<Mark>) -> Seq<MarkView> {
    marks.map_values(|mark: Mark| mark@)
}

/// The states among these that a task has come to, each with the last time it did.
pub open spec fn state_marks(events: Seq<TaskEvent>, states: Seq<TaskState>) -> Seq<MarkView>
    decreases states.len(),
{
    if states.len() == 0 {
        Seq::empty()
    } else {
        let before = state_marks(events, states.drop_last());
        match last_at(events, states.last()) {
            Some(at) => before.push(MarkView { label: states.last().name(), at }),
            None => before,
        }
    }
}

/// What happened to a task, state by state, and then whether commentary was delivered.
pub open spec fn task_marks(events: Seq<TaskEvent>, delivered_at: Option<i64>) -> Seq<MarkView> {
    let states = state_marks(events, TaskState::all());
    match delivered_at {
        Some(at) => states.push(MarkView { label: "commentary-delivered"@, at }),
        None => states,
    }
}

/// What happened to a task, state by state, and then whether commentary was delivered.
pub fn find_marks(task: &Task, delivered_at: Option<i64>) -> (r: Vec<Mark>)
    ensures
        marks_view(r@) == task_marks(task@.events, delivered_at),
{
    let states = TaskState::states();
    let ghost all = states@;
    let mut marks: Vec<Mark> = Vec::new();
    let mut i: usize = 0;
    assert(marks_view(marks@) =~= Seq::empty());
    while i < states.len()
        invariant
            i <= states@.len(),
            all == states@,
            marks_view(marks@) == state_marks(task@.events, all.take(i as int)),
        decreases states.len() - i,
    {
        let ghost before = marks@;
        assert(all.take(i + 1).drop_last() == all.take(i as int));
        assert(all.take(i + 1).last() == states@[i as int]);
        if let Some(at) = last_event_at(task, states[i]) {
            let mark = Mark { label: states[i].as_str().to_owned(), at };
            marks.push(mark);
            assert(marks_view(marks@) =~= marks_view(before).push(mark@));
        }
        i += 1;
    }
    assert(all.take(all.len() as int) == all);
    if let Some(at) = delivered_at {
        let ghost before = marks@;
        let mark = Mark { label: "commentary-delivered".to_owned(), at };
        marks.push(mark);
        assert(marks_view(marks@) =~= marks_view(before).push(mark@));
    }
    marks
}

/// What happened, each with what the clock showed.
pub open spec fn timeline_words(marks: Seq<MarkView>, clocks: Seq<Seq<char>>) -> Seq<Seq<char>> {
    Seq::new(marks.len(), |i: int| marks[i].label + "@"@ + clocks[i])
}

/// The line that tells of a task.
pub open spec fn task_words(
    task: TaskView,
    session_name: Seq<char>,
    timeline: Seq<char>,
) -> Seq<char> {
    "  "@ + padded_left(decimal(task.id as int), 3) + " "@ + task.state.name() + " "@ + padded_right(
        session_name,
        16,
    ) + " "@ + padded_right(
        match task.commit_sha {
            Some(sha) => byte_prefix(sha, 10),
            None => "-"@,
        },
        10,
    ) + " "@ + timeline + (match task.retry_of_task_id {
        Some(id) => "  retry of "@ + decimal(id as int),
        None => ""@,
    }) + (match task.reason {
        Some(reason) => "  reason: "@ + reason,
        None => ""@,
    })
}

/// The line that tells of a task, given its marks and what the clock showed at each of them.
pub fn task_line_with(
    task: &Task,
    session_name: &str,
    marks: &Vec<Mark>,
    clocks: &Vec<String>,
) -> (r: String)
    requires
        marks@.len() == clocks@.len(),
    ensures
        r@ == task_words(
            task@,
            session_name@,
            joined(timeline_words(marks_view(marks@), texts(clocks@)), " "@),
        ),
{
    let ghost told = timeline_words(marks_view(marks@), texts(clocks@));
    let mut parts: Vec<String> = Vec::new();
    let mut i: usize = 0;
    while i < marks.len()
        invariant
            i <= marks@.len(),
            marks@.len() == clocks@.len(),
            told == timeline_words(marks_view(marks@), texts(clocks@)),
            parts@.len() == i,
            forall|j: int| 0 <= j < i ==> (#[trigger] parts@[j])@ == told[j],
        decreases marks.len() - i,
    {
        let part = marks[i].label.clone().concat("@").concat(clocks[i].as_str());
        parts.push(part);
        i += 1;
    }
    assert(texts(parts@) =~= told);
    let timeline = join(&parts, " ");
    let retry = match task.retry_of_task_id {
        Some(id) => "  retry of ".to_owned().concat(decimal_text(id).as_str()),
        None => "".to_owned(),
    };
    let reason = match &task.reason {
        Some(reason) => "  reason: ".to_owned().concat(reason.as_str()),
        None => "".to_owned(),
    };
    let sha = match &task.commit_sha {
        Some(sha) => short_sha(sha.as_str()),
        None => "-",
    };
    "  ".to_owned().concat(pad_left(decimal_text(task.id).as_str(), 3).as_str()).concat(" ").concat(
        task.state.as_str(),
    ).concat(" ").concat(pad_right(session_name, 16).as_str()).concat(" ").concat(
        pad_right(sha, 10).as_str(),
    ).concat(" ").concat(timeline.as_str()).concat(retry.as_str()).concat(reason.as_str())
}

/// Whether `line` tells of a task, whatever the clock showed.
pub open spec fn is_task_line(
    line: Seq<char>,
    task: TaskView,
    session_name: Seq<char>,
    delivered_at: Option<i64>,
) -> bool {
    exists|clocks: Seq<Seq<char>>| #[trigger]
        clocks_read(task_marks(task.events, delivered_at), clocks) && line == task_words(
            task,
            session_name,
            joined(timeline_words(task_marks(task.events, delivered_at), clocks), " "@),
        )
}

/// The line that tells of a task, with the clock as this machine reads it.
pub fn task_line(task: &Task, session_name: &str, delivered_at: Option<i64>) -> (r: String)
    ensures
        is_task_line(r@, task@, session_name@, delivered_at),
{
    let marks = find_marks(task, delivered_at);
    let mut clocks: Vec<String> = Vec::new();
    let mut i: usize = 0;
    while i < marks.len()
        invariant
            i <= marks@.len(),
            clocks@.len() == i,
            forall|j: int| 0 <= j < i ==> is_clock_text((#[trigger] clocks@[j])@, marks@[j].at),
        decreases marks.len() - i,
    {
        clocks.push(clock_time(marks[i].at));
        i += 1;
    }
    assert(clocks_read(marks_view(marks@), texts(clocks@)));
    task_line_with(task, session_name, &marks, &clocks)
}

/// Whether these are what a clock can show at these marks.
pub open spec fn clocks_read(marks: Seq<MarkView>, clocks: Seq<Seq<char>>) -> bool {
    &&& clocks.len() == marks.len()
    &&& forall|i: int| 0 <= i < marks.len() ==> is_clock_text(#[trigger] clocks[i], marks[i].at)
}

/// The line that tells of an event.
pub fn event_line_with(clock: &str, kind: &str, detail: &str) -> (r: String)
    ensures
        r@ == "  "@ + clock@ + " "@ + kind@ + " "@ + detail@,
{
    "  ".to_owned().concat(clock).concat(" ").concat(kind).concat(" ").concat(detail)
}

/// Whether `line` tells of an event, whatever the clock showed.
pub open spec fn is_event_line(
    line: Seq<char>,
    at: i64,
    kind: Seq<char>,
    detail: Seq<char>,
) -> bool {
    exists|clock: Seq<char>| #[trigger]
        is_clock_text(clock, at) && line == "  "@ + clock + " "@ + kind + " "@ + detail
}

/// The line that tells of an event, with the clock as this machine reads it.
pub fn event_line(at: i64, kind: &str, detail: &str) -> (r: String)
    ensures
        is_event_line(r@, at, kind@, detail@),
{
    let clock = clock_time(at);
    assert(is_clock_text(clock@, at));
    event_line_with(clock.as_str(), kind, detail)
}

/// The line that tells of a session.
pub open spec fn session_words(session: SessionView, now: i64, has_log: bool) -> Seq<char> {
    let who = "  "@ + padded_right(session.name, 16) + " "@ + session.role.name() + " context "@;
    let quiet = decimal(session.quiet_seconds(now));
    let flags = if session.role == Role::Implementer && session.context > IMPLEMENTER_LIMIT_TOKENS {
        " OVER-LIMIT"@
    } else {
        ""@
    };
    if has_log {
        who + padded_left(decimal(session.context as int), 7) + " (max "@ + decimal(
            session.context_max as int,
        ) + ") quiet "@ + quiet + "s"@ + flags
    } else {
        who + "UNAVAILABLE (session log not found"@ + (if session.role == Role::Lead {
            "; lead stop threshold disabled"@
        } else {
            ""@
        }) + ") quiet "@ + quiet + "s"@ + flags
    }
}

/// The line that tells of a session.
pub fn session_line(session: &Session, now: i64, has_log: bool) -> (r: String)
    ensures
        r@ == session_words(session@, now, has_log),
{
    let flags = if session.role() == Role::Implementer && session.context()
        > IMPLEMENTER_LIMIT_TOKENS {
        " OVER-LIMIT"
    } else {
        ""
    };
    let quiet = decimal_text(session.quiet_seconds(now));
    let who = "  ".to_owned().concat(pad_right(session.name(), 16).as_str()).concat(" ").concat(
        session.role().as_str(),
    ).concat(" context ");
    if has_log {
        who.concat(pad_left(decimal_text(session.context()).as_str(), 7).as_str()).concat(
            " (max ",
        ).concat(decimal_text(session.context_max()).as_str()).concat(") quiet ").concat(
            quiet.as_str(),
        ).concat("s").concat(flags)
    } else {
        let danger = if session.role() == Role::Lead {
            "; lead stop threshold disabled"
        } else {
            ""
        };
        who.concat("UNAVAILABLE (session log not found").concat(danger).concat(") quiet ").concat(
            quiet.as_str(),
        ).concat("s").concat(flags)
    }
}

/// Whether a session is among those that were asked for.
pub fn is_asked_for(session: &Session, name: Option<&str>) -> (r: bool)
    ensures
        r == (name matches Some(name) ==> session@.name == name@),
{
    match name {
        Some(name) => same(session.name(), name),
        None => true,
    }
}

/// The line that tells how large a session's context is, where its log was found.
pub fn context_line(name: &str, size: Option<u64>) -> (r: String)
    ensures
        r@ == name@ + "\t"@ + (match size {
            Some(size) => decimal(size as int),
            None => "UNAVAILABLE (session log not found)"@,
        }),
{
    let told = match size {
        Some(size) => unsigned_text(size as u128),
        None => "UNAVAILABLE (session log not found)".to_owned(),
    };
    name.to_owned().concat("\t").concat(told.as_str())
}

/// The earliest of these events and `earliest`.
pub open spec fn earliest_event(events: Seq<TaskEvent>, earliest: Option<i64>) -> Option<i64>
    decreases events.len(),
{
    if events.len() == 0 {
        earliest
    } else {
        let before = earliest_event(events.drop_last(), earliest);
        match before {
            Some(at) if at <= events.last().created_at => before,
            _ => Some(events.last().created_at),
        }
    }
}

/// When the first thing happened to any of these tasks.
pub open spec fn run_began(tasks: Seq<TaskView>) -> Option<i64>
    decreases tasks.len(),
{
    if tasks.len() == 0 {
        None
    } else {
        earliest_event(tasks.last().events, run_began(tasks.drop_last()))
    }
}

fn find_beginning(tasks: &Vec<Task>) -> (r: Option<i64>)
    ensures
        r == run_began(tasks_view(tasks@)),
{
    let ghost all = tasks_view(tasks@);
    let mut earliest: Option<i64> = None;
    let mut i: usize = 0;
    while i < tasks.len()
        invariant
            i <= tasks@.len(),
            all == tasks_view(tasks@),
            earliest == run_began(all.take(i as int)),
        decreases tasks.len() - i,
    {
        assert(all.take(i + 1).drop_last() == all.take(i as int));
        assert(all.take(i + 1).last() == tasks@[i as int]@);
        let ghost before = earliest;
        let events = &tasks[i].events;
        let ghost happened = events@;
        let mut k: usize = 0;
        assert(happened.take(0) =~= Seq::empty());
        while k < events.len()
            invariant
                k <= events@.len(),
                happened == events@,
                earliest == earliest_event(happened.take(k as int), before),
            decreases events.len() - k,
        {
            assert(happened.take(k + 1).drop_last() == happened.take(k as int));
            assert(happened.take(k + 1).last() == events@[k as int]);
            let at = events[k].created_at;
            earliest = match earliest {
                Some(known) => if known <= at {
                    Some(known)
                } else {
                    Some(at)
                },
                None => Some(at),
            };
            k += 1;
        }
        assert(happened.take(happened.len() as int) == happened);
        i += 1;
    }
    assert(all.take(all.len() as int) == all);
    earliest
}

/// Whether a task in this state is in no implementer's hands any more.
pub open spec fn hands_off(state: TaskState) -> bool {
    state == TaskState::CommittedUnverified || state == TaskState::Accepted || state
        == TaskState::Aborted
}

/// When a task first left its implementer's hands.
pub open spec fn first_hands_off(events: Seq<TaskEvent>) -> Option<i64>
    decreases events.len(),
{
    if events.len() == 0 {
        None
    } else if hands_off(events[0].state) {
        Some(events[0].created_at)
    } else {
        first_hands_off(events.drop_first())
    }
}

fn find_hands_off(task: &Task) -> (r: Option<i64>)
    ensures
        r == first_hands_off(task@.events),
{
    let events = &task.events;
    let ghost all = events@;
    let mut i: usize = 0;
    assert(all.skip(0) == all);
    while i < events.len()
        invariant
            i <= events@.len(),
            all == events@,
            all == task@.events,
            first_hands_off(all.skip(i as int)) == first_hands_off(all),
        decreases events.len() - i,
    {
        assert(all.skip(i as int)[0] == events@[i as int]);
        assert(all.skip(i as int).drop_first() == all.skip(i + 1));
        let state = events[i].state;
        if state == TaskState::CommittedUnverified || state == TaskState::Accepted || state
            == TaskState::Aborted {
            return Some(events[i].created_at);
        }
        i += 1;
    }
    None
}

/// How long an implementer was busy with a task, in milliseconds: from its last dispatch to the
/// first time it was out of its hands, or until now.
pub open spec fn busy_with(task: TaskView, now: i64) -> int {
    match last_at(task.events, TaskState::Dispatched) {
        Some(start) => (match first_hands_off(task.events) {
            Some(end) => end,
            None => now,
        }) - start,
        None => 0,
    }
}

/// How long implementers were busy with these tasks, in milliseconds.
pub open spec fn busy_with_all(tasks: Seq<TaskView>, now: i64) -> int
    decreases tasks.len(),
{
    if tasks.len() == 0 {
        0
    } else {
        busy_with_all(tasks.drop_last(), now) + busy_with(tasks.last(), now)
    }
}

/// A time in which the run waited for the human.
#[derive(Clone, Copy, Debug, PartialEq, Eq, Structural)]
pub struct HumanWait {
    pub started: i64,
    pub ended: Option<i64>,
}

/// How long the run waited for the human, in milliseconds.
pub open spec fn waited(waits: Seq<HumanWait>, now: i64) -> int
    decreases waits.len(),
{
    if waits.len() == 0 {
        0
    } else {
        waited(waits.drop_last(), now) + ((match waits.last().ended {
            Some(end) => end,
            None => now,
        }) - waits.last().started)
    }
}

/// How a run spent its time, in milliseconds.
#[derive(Clone, Copy, Debug, PartialEq, Eq, Structural)]
pub struct TimeSpent {
    /// Since the first thing happened.
    pub wall: i128,
    /// With an implementer at work, added up over the tasks.
    pub busy: i128,
    /// Waiting for the human.
    pub human: i128,
}

/// How a run has spent its time, once something has happened.
pub fn time_spent(tasks: &Vec<Task>, waits: &Vec<HumanWait>, now: i64) -> (r: Option<TimeSpent>)
    requires
        tasks@.len() <= isize::MAX,
        waits@.len() <= isize::MAX,
    ensures
        match (run_began(tasks_view(tasks@)), r) {
            (Some(first), Some(spent)) => {
                &&& spent.wall == now - first
                &&& spent.busy == busy_with_all(tasks_view(tasks@), now)
                &&& spent.human == waited(waits@, now)
            },
            (None, None) => true,
            _ => false,
        },
{
    let first = match find_beginning(tasks) {
        Some(first) => first,
        None => {
            return None;
        },
    };
    let ghost all = tasks_view(tasks@);
    let mut busy: i128 = 0;
    let mut i: usize = 0;
    while i < tasks.len()
        invariant
            i <= tasks@.len(),
            all == tasks_view(tasks@),
            tasks@.len() <= isize::MAX,
            busy == busy_with_all(all.take(i as int), now),
            -0x1_0000_0000_0000_0000 * i <= busy <= 0x1_0000_0000_0000_0000 * i,
        decreases tasks.len() - i,
    {
        assert(all.take(i + 1).drop_last() == all.take(i as int));
        assert(all.take(i + 1).last() == tasks@[i as int]@);
        if let Some(start) = last_event_at(&tasks[i], TaskState::Dispatched) {
            let end = match find_hands_off(&tasks[i]) {
                Some(end) => end,
                None => now,
            };
            busy = busy + (end as i128 - start as i128);
        }
        i += 1;
    }
    assert(all.take(all.len() as int) == all);
    let mut human: i128 = 0;
    let mut k: usize = 0;
    let ghost all_waits = waits@;
    while k < waits.len()
        invariant
            k <= waits@.len(),
            all_waits == waits@,
            waits@.len() <= isize::MAX,
            human == waited(all_waits.take(k as int), now),
            -0x1_0000_0000_0000_0000 * k <= human <= 0x1_0000_0000_0000_0000 * k,
        decreases waits.len() - k,
    {
        assert(all_waits.take(k + 1).drop_last() == all_waits.take(k as int));
        assert(all_waits.take(k + 1).last() == waits@[k as int]);
        let end = match waits[k].ended {
            Some(end) => end,
            None => now,
        };
        human = human + (end as i128 - waits[k].started as i128);
        k += 1;
    }
    assert(all_waits.take(all_waits.len() as int) == all_waits);
    Some(TimeSpent { wall: now as i128 - first as i128, busy, human })
}

fn seconds_text(millis: i128) -> (r: String)
    ensures
        r@ == decimal(whole_seconds(millis as int)),
{
    if millis < 0 {
        let size: u128 = (-(millis + 1)) as u128 + 1;
        let seconds: u128 = size / 1000;
        if seconds == 0 {
            unsigned_text(0)
        } else {
            let digits = unsigned_text(seconds);
            let mut r = String::new();
            r.push('-');
            r.append(digits.as_str());
            r
        }
    } else {
        unsigned_text((millis / 1000) as u128)
    }
}

/// The line that tells how a run has spent its time, with the share of it in which implementers
/// were busy.
pub open spec fn time_words(wall: int, busy: int, human: int, percentage: Seq<char>) -> Seq<char> {
    "time  wall "@ + decimal(whole_seconds(wall)) + "s  implementer-busy "@ + decimal(
        whole_seconds(busy),
    ) + "s ("@ + percentage + "%)  waiting-on-human "@ + decimal(whole_seconds(human)) + "s"@
}

/// The line that tells how a run has spent its time.
pub fn time_line(spent: TimeSpent, percentage: &str) -> (r: String)
    ensures
        r@ == time_words(
            spent.wall as int,
            spent.busy as int,
            spent.human as int,
            percentage@,
        ),
{
    "time  wall ".to_owned().concat(seconds_text(spent.wall).as_str()).concat(
        "s  implementer-busy ",
    ).concat(seconds_text(spent.busy).as_str()).concat("s (").concat(percentage).concat(
        "%)  waiting-on-human ",
    ).concat(seconds_text(spent.human).as_str()).concat("s")
}

/// An event of the run's journal, and when it happened.
#[derive(Debug)]
pub struct RecentEvent {
    pub at: i64,
    pub kind: String,
    pub detail: String,
}

/// What is known of a run when its state is asked for.
#[derive(Debug)]
pub struct RunState {
    pub tasks: Vec<Task>,
    /// For each task, when commentary on it was delivered.
    pub delivered_at: Vec<Option<i64>>,
    pub sessions: Vec<Session>,
    /// For each session, whether its log was found.
    pub has_log: Vec<bool>,
    pub now: i64,
    /// How the run has spent its time, once something has happened.
    pub time: Option<String>,
    pub human_wait_open: bool,
    pub events: Vec<RecentEvent>,
}

impl RunState {
    /// Whether something is known of each task and of each session.
    pub open spec fn complete(self) -> bool {
        self.delivered_at@.len() == self.tasks@.len() && self.has_log@.len() == self.sessions@.len()
    }
}

/// Whether these lines tell of a run's tasks, one after the other.
pub open spec fn are_task_lines(lines: Seq<Seq<char>>, run: RunState) -> bool {
    &&& lines.len() == run.tasks@.len()
    &&& forall|i: int|
        0 <= i < lines.len() ==> is_task_line(
            #[trigger] lines[i],
            run.tasks@[i]@,
            name_of(sessions_view(run.sessions@), run.tasks@[i].session_id),
            run.delivered_at@[i],
        )
}

/// The lines that tell of a run's sessions.
pub open spec fn session_lines(run: RunState) -> Seq<Seq<char>> {
    Seq::new(
        run.sessions@.len(),
        |i: int| session_words(run.sessions@[i]@, run.now, run.has_log@[i]),
    )
}

/// Whether these lines tell of the last events of a run.
pub open spec fn are_event_lines(lines: Seq<Seq<char>>, run: RunState) -> bool {
    &&& lines.len() == run.events@.len()
    &&& forall|i: int|
        0 <= i < lines.len() ==> is_event_line(
            #[trigger] lines[i],
            run.events@[i].at,
            run.events@[i].kind@,
            run.events@[i].detail@,
        )
}

/// The lines between a run's sessions and its events.
pub open spec fn summary_lines(run: RunState) -> Seq<Seq<char>> {
    (match run.time {
        Some(time) => seq![time@],
        None => Seq::empty(),
    }) + (if run.human_wait_open {
        seq!["  (a human wait is open)"@]
    } else {
        Seq::empty()
    })
}

/// Whether these lines tell the state of a run.
pub open spec fn tells_state(lines: Seq<Seq<char>>, run: RunState) -> bool {
    exists|tasks: Seq<Seq<char>>, events: Seq<Seq<char>>|
        {
            &&& #[trigger] are_task_lines(tasks, run)
            &&& #[trigger] are_event_lines(events, run)
            &&& lines == seq!["tasks"@] + tasks + seq!["sessions"@] + session_lines(run)
                + summary_lines(run) + events
        }
}

/// The lines that tell the state of a run.
pub fn state_report(run: &RunState) -> (r: Vec<String>)
    requires
        run.complete(),
    ensures
        tells_state(texts(r@), *run),
{
    let mut report: Vec<String> = Vec::new();
    report.push("tasks".to_owned());
    let ghost mut tasks: Seq<Seq<char>> = Seq::empty();
    let mut i: usize = 0;
    assert(texts(report@) =~= seq!["tasks"@] + tasks);
    while i < run.tasks.len()
        invariant
            i <= run.tasks@.len(),
            run.complete(),
            tasks.len() == i,
            texts(report@) == seq!["tasks"@] + tasks,
            forall|j: int|
                0 <= j < i ==> is_task_line(
                    #[trigger] tasks[j],
                    run.tasks@[j]@,
                    name_of(sessions_view(run.sessions@), run.tasks@[j].session_id),
                    run.delivered_at@[j],
                ),
        decreases run.tasks.len() - i,
    {
        let name = session_name(&run.sessions, run.tasks[i].session_id);
        let line = task_line(&run.tasks[i], name.as_str(), run.delivered_at[i]);
        let ghost before = report@;
        let ghost told = line@;
        report.push(line);
        proof {
            tasks = tasks.push(told);
            assert(texts(report@) =~= texts(before).push(told));
        }
        i += 1;
    }
    report.push("sessions".to_owned());
    let ghost head = seq!["tasks"@] + tasks + seq!["sessions"@];
    assert(texts(report@) =~= head);
    let ghost people = session_lines(*run);
    let mut k: usize = 0;
    assert(head + people.take(0) =~= head);
    while k < run.sessions.len()
        invariant
            k <= run.sessions@.len(),
            run.complete(),
            people == session_lines(*run),
            texts(report@) == head + people.take(k as int),
        decreases run.sessions.len() - k,
    {
        let ghost before = report@;
        report.push(session_line(&run.sessions[k], run.now, run.has_log[k]));
        assert(people.take(k + 1) =~= people.take(k as int).push(people[k as int]));
        assert(texts(report@) =~= texts(before).push(people[k as int]));
        k += 1;
    }
    assert(people.take(people.len() as int) == people);
    let ghost before = texts(report@);
    if let Some(time) = &run.time {
        report.push(time.clone());
    }
    if run.human_wait_open {
        report.push("  (a human wait is open)".to_owned());
    }
    assert(texts(report@) =~= before + summary_lines(*run));
    let ghost body = texts(report@);
    let ghost mut events: Seq<Seq<char>> = Seq::empty();
    let mut m: usize = 0;
    assert(body + events =~= body);
    while m < run.events.len()
        invariant
            m <= run.events@.len(),
            events.len() == m,
            texts(report@) == body + events,
            forall|j: int|
                0 <= j < m ==> is_event_line(
                    #[trigger] events[j],
                    run.events@[j].at,
                    run.events@[j].kind@,
                    run.events@[j].detail@,
                ),
        decreases run.events.len() - m,
    {
        let line = event_line(
            run.events[m].at,
            run.events[m].kind.as_str(),
            run.events[m].detail.as_str(),
        );
        let ghost sofar = report@;
        let ghost told = line@;
        report.push(line);
        proof {
            events = events.push(told);
            assert(texts(report@) =~= texts(sofar).push(told));
        }
        m += 1;
    }
    assert(are_task_lines(tasks, *run));
    assert(are_event_lines(events, *run));
    report
}

proof fn lemma_marks_of_two(
    events: Seq<TaskEvent>,
    first: Seq<TaskState>,
    second: Seq<TaskState>,
)
    ensures
        state_marks(events, first + second) == state_marks(events, first) + state_marks(
            events,
            second,
        ),
    decreases second.len(),
{
    if second.len() == 0 {
        assert(first + second =~= first);
        assert(state_marks(events, first) + state_marks(events, second) =~= state_marks(
            events,
            first,
        ));
    } else {
        lemma_marks_of_two(events, first, second.drop_last());
        assert((first + second).drop_last() =~= first + second.drop_last());
        assert((first + second).last() == second.last());
        assert(state_marks(events, first + second) =~= state_marks(events, first) + state_marks(
            events,
            second,
        ));
    }
}

/// Each state that a task came to is marked with the last time it did, in the order of the states; a
/// state it never came to is not marked. That commentary was delivered comes last.
pub proof fn law_each_state_is_marked_with_its_last_time(
    events: Seq<TaskEvent>,
    before: Seq<TaskState>,
    state: TaskState,
    after: Seq<TaskState>,
    delivered_at: i64,
)
    ensures
        state_marks(events, before + seq![state] + after) == state_marks(events, before) + (match last_at(
            events,
            state,
        ) {
            Some(at) => seq![MarkView { label: state.name(), at }],
            None => Seq::empty(),
        }) + state_marks(events, after),
        state_marks(events, Seq::empty()).len() == 0,
        task_marks(events, None) == state_marks(events, TaskState::all()),
        task_marks(events, Some(delivered_at)) == task_marks(events, None).push(
            MarkView { label: "commentary-delivered"@, at: delivered_at },
        ),
{
    lemma_marks_of_two(events, before + seq![state], after);
    lemma_marks_of_two(events, before, seq![state]);
    assert(seq![state].drop_last() =~= Seq::<TaskState>::empty());
    assert(seq![state].last() == state);
    reveal_with_fuel(state_marks, 2);
    assert(state_marks(events, seq![state]) =~= match last_at(events, state) {
        Some(at) => seq![MarkView { label: state.name(), at }],
        None => Seq::empty(),
    });
}

/// The states of a task are marked from its draft to its end.
#[verifier::rlimit(40)]
pub proof fn law_states_are_marked_in_their_order(events: Seq<TaskEvent>)
    requires
        forall|state: TaskState| #[trigger] last_at(events, state) is Some,
    ensures
        ({
            let marks = task_marks(events, None);
            &&& marks.len() == 6
            &&& marks[0].label == "drafted"@
            &&& marks[1].label == "dispatched"@
            &&& marks[2].label == "in_flight"@
            &&& marks[3].label == "committed_unverified"@
            &&& marks[4].label == "accepted"@
            &&& marks[5].label == "aborted"@
        }),
{
    reveal_with_fuel(state_marks, 7);
    let all = TaskState::all();
    let five = all.drop_last();
    let four = five.drop_last();
    let three = four.drop_last();
    let two = three.drop_last();
    let one = two.drop_last();
    assert(one.drop_last().len() == 0);
    assert(last_at(events, TaskState::Drafted) is Some);
    assert(last_at(events, TaskState::Dispatched) is Some);
    assert(last_at(events, TaskState::InFlight) is Some);
    assert(last_at(events, TaskState::CommittedUnverified) is Some);
    assert(last_at(events, TaskState::Accepted) is Some);
    assert(last_at(events, TaskState::Aborted) is Some);
    assert(state_marks(events, one).len() == 1);
    assert(state_marks(events, two).len() == 2);
    assert(state_marks(events, three).len() == 3);
    assert(state_marks(events, four).len() == 4);
    assert(state_marks(events, five).len() == 5);
}

/// A run began when the first thing happened to any of its tasks: something happened then, and
/// nothing before. Where nothing has happened it has not begun.
pub proof fn law_run_began_with_its_first_event(tasks: Seq<TaskView>)
    ensures
        match run_began(tasks) {
            Some(at) => {
                &&& exists|i: int, k: int|
                    0 <= i < tasks.len() && 0 <= k < tasks[i].events.len()
                        && #[trigger] tasks[i].events[k].created_at == at
                &&& forall|i: int, k: int|
                    0 <= i < tasks.len() && 0 <= k < tasks[i].events.len() ==> at
                        <= #[trigger] tasks[i].events[k].created_at
            },
            None => forall|i: int|
                0 <= i < tasks.len() ==> (#[trigger] tasks[i]).events.len() == 0,
        },
    decreases tasks.len(),
{
    if tasks.len() > 0 {
        let rest = tasks.drop_last();
        let last = tasks.len() - 1;
        law_run_began_with_its_first_event(rest);
        assert(forall|i: int| 0 <= i < rest.len() ==> #[trigger] tasks[i] == rest[i]);
        assert(tasks[last] == tasks.last());
        let before = run_began(rest);
        lemma_earliest(tasks.last().events, before);
        if let Some(at) = run_began(tasks) {
            if before == Some(at) {
                let (i, k) = choose|i: int, k: int|
                    0 <= i < rest.len() && 0 <= k < rest[i].events.len()
                        && #[trigger] rest[i].events[k].created_at == at;
                assert(tasks[i].events[k].created_at == at);
            } else {
                let k = choose|k: int|
                    0 <= k < tasks.last().events.len() && (
                    #[trigger] tasks.last().events[k]).created_at == at;
                assert(tasks[last].events[k].created_at == at);
            }
            assert forall|i: int, k: int|
                0 <= i < tasks.len() && 0 <= k < tasks[i].events.len() implies at
                <= #[trigger] tasks[i].events[k].created_at by {
                if i < rest.len() {
                    assert(tasks[i] == rest[i]);
                    assert(before->Some_0 <= rest[i].events[k].created_at);
                } else {
                    assert(tasks[i] == tasks.last());
                    assert(at <= tasks.last().events[k].created_at);
                }
            }
        }
    }
}

proof fn lemma_earliest(events: Seq<TaskEvent>, earliest: Option<i64>)
    ensures
        match earliest_event(events, earliest) {
            Some(at) => {
                &&& earliest == Some(at) || exists|k: int|
                    0 <= k < events.len() && (#[trigger] events[k]).created_at == at
                &&& earliest matches Some(known) ==> at <= known
                &&& forall|k: int|
                    0 <= k < events.len() ==> at <= (#[trigger] events[k]).created_at
            },
            None => earliest is None && events.len() == 0,
        },
    decreases events.len(),
{
    if events.len() > 0 {
        let rest = events.drop_last();
        let last = events.len() - 1;
        lemma_earliest(rest, earliest);
        assert(forall|k: int| 0 <= k < rest.len() ==> #[trigger] events[k] == rest[k]);
        assert(events[last] == events.last());
        let before = earliest_event(rest, earliest);
        if before == earliest_event(events, earliest) && before != earliest {
            let at = before->Some_0;
            let k = choose|k: int|
                0 <= k < rest.len() && (#[trigger] rest[k]).created_at == at;
            assert(events[k].created_at == at);
        }
    }
}

/// A task leaves its implementer's hands with the first event that commits, accepts or aborts it.
pub proof fn law_task_leaves_the_hands_once(events: Seq<TaskEvent>, at: int)
    requires
        0 <= at <= events.len(),
        forall|j: int|
            0 <= j < at ==> (#[trigger] events[j]).state != TaskState::CommittedUnverified
                && events[j].state != TaskState::Accepted && events[j].state != TaskState::Aborted,
        at < events.len() ==> events[at].state == TaskState::CommittedUnverified
            || events[at].state == TaskState::Accepted || events[at].state == TaskState::Aborted,
    ensures
        first_hands_off(events) == (if at < events.len() {
            Some(events[at].created_at)
        } else {
            None
        }),
    decreases events.len(),
{
    if events.len() > 0 && at > 0 {
        let rest = events.drop_first();
        assert(events[0].state != TaskState::CommittedUnverified);
        assert forall|j: int| 0 <= j < at - 1 implies (#[trigger] rest[j]).state
            != TaskState::CommittedUnverified && rest[j].state != TaskState::Accepted
            && rest[j].state != TaskState::Aborted by {
            assert(rest[j] == events[j + 1]);
        }
        if at < events.len() {
            assert(rest[at - 1] == events[at]);
        }
        law_task_leaves_the_hands_once(rest, at - 1);
    }
}

/// An implementer was busy with a task from its last dispatch until it left the implementer's hands,
/// or until now where it has not; a task that was never dispatched kept nobody busy.
pub proof fn law_busy_from_dispatch_until_hands_off(
    task: TaskView,
    now: i64,
    start: int,
    end: int,
)
    requires
        -1 <= start < task.events.len(),
        start >= 0 ==> task.events[start].state == TaskState::Dispatched,
        forall|j: int|
            start < j < task.events.len() ==> (#[trigger] task.events[j]).state
                != TaskState::Dispatched,
        0 <= end <= task.events.len(),
        forall|j: int|
            0 <= j < end ==> (#[trigger] task.events[j]).state != TaskState::CommittedUnverified
                && task.events[j].state != TaskState::Accepted && task.events[j].state
                != TaskState::Aborted,
        end < task.events.len() ==> task.events[end].state == TaskState::CommittedUnverified
            || task.events[end].state == TaskState::Accepted || task.events[end].state
            == TaskState::Aborted,
    ensures
        start == -1 ==> busy_with(task, now) == 0,
        start >= 0 && end < task.events.len() ==> busy_with(task, now)
            == task.events[end].created_at - task.events[start].created_at,
        start >= 0 && end == task.events.len() ==> busy_with(task, now) == now
            - task.events[start].created_at,
{
    let events = task.events;
    law_task_leaves_the_hands_once(events, end);
    law_newest_event_is_found(events, TaskState::Dispatched);
    if let Some(at) = last_at(events, TaskState::Dispatched) {
        let i = choose|i: int|
            {
                &&& 0 <= i < events.len()
                &&& (#[trigger] events[i]).state == TaskState::Dispatched
                &&& events[i].created_at == at
                &&& forall|j: int|
                    i < j < events.len() ==> (#[trigger] events[j]).state != TaskState::Dispatched
            };
        assert(i == start);
    }
}

/// The time that implementers were busy with two lists of tasks is that of the first and that of the
/// second together, and of one task it is that task's.
pub proof fn law_busy_time_adds_up(first: Seq<TaskView>, second: Seq<TaskView>, now: i64)
    ensures
        busy_with_all(first + second, now) == busy_with_all(first, now) + busy_with_all(
            second,
            now,
        ),
        first.len() == 1 ==> busy_with_all(first, now) == busy_with(first[0], now),
        first.len() == 0 ==> busy_with_all(first, now) == 0,
    decreases second.len(),
{
    if second.len() == 0 {
        assert(first + second =~= first);
    } else {
        law_busy_time_adds_up(first, second.drop_last(), now);
        assert((first + second).drop_last() =~= first + second.drop_last());
        assert((first + second).last() == second.last());
    }
    if first.len() == 1 {
        reveal_with_fuel(busy_with_all, 2);
        assert(first.drop_last().len() == 0);
    }
}

/// The time that a run waited for the human adds up over the waits: each lasts until it ended, or
/// until now where it has not.
pub proof fn law_waiting_time_adds_up(first: Seq<HumanWait>, second: Seq<HumanWait>, now: i64)
    ensures
        waited(first + second, now) == waited(first, now) + waited(second, now),
        first.len() == 0 ==> waited(first, now) == 0,
        first.len() == 1 && first[0].ended is Some ==> waited(first, now) == first[0].ended->Some_0
            - first[0].started,
        first.len() == 1 && first[0].ended is None ==> waited(first, now) == now - first[0].started,
    decreases second.len(),
{
    if second.len() == 0 {
        assert(first + second =~= first);
    } else {
        law_waiting_time_adds_up(first, second.drop_last(), now);
        assert((first + second).drop_last() =~= first + second.drop_last());
        assert((first + second).last() == second.last());
    }
    if first.len() == 1 {
        reveal_with_fuel(waited, 2);
        assert(first.drop_last().len() == 0);
    }
}

/// A session's line ends by telling that it is over its limit exactly where an implementer's context
/// is past 100000; every other line ends with how long the session has been quiet.
#[verifier::rlimit(40)]
pub proof fn law_over_limit_is_told_of_implementers(session: SessionView, now: i64, has_log: bool)
    ensures
        ({
            let words = session_words(session, now, has_log);
            let quiet = ") quiet "@ + decimal(session.quiet_seconds(now)) + "s"@;
            let told = if session.role == Role::Implementer && session.context >= 100_001 {
                quiet + " OVER-LIMIT"@
            } else {
                quiet
            };
            told.is_suffix_of(words)
        }),
{
    reveal_strlit("");
    let words = session_words(session, now, has_log);
    let quiet = ") quiet "@ + decimal(session.quiet_seconds(now)) + "s"@;
    let over = session.role == Role::Implementer && session.context > IMPLEMENTER_LIMIT_TOKENS;
    let flags = if over {
        " OVER-LIMIT"@
    } else {
        ""@
    };
    let who = "  "@ + padded_right(session.name, 16) + " "@ + session.role.name() + " context "@;
    let head = if has_log {
        who + padded_left(decimal(session.context as int), 7) + " (max "@ + decimal(
            session.context_max as int,
        )
    } else {
        who + "UNAVAILABLE (session log not found"@ + (if session.role == Role::Lead {
            "; lead stop threshold disabled"@
        } else {
            ""@
        })
    };
    assert(words =~= head + (quiet + flags));
    let told = quiet + flags;
    assert(words.subrange(words.len() - told.len(), words.len() as int) =~= told);
    if !over {
        assert(told =~= quiet);
    }
}

/// A session with a log is told of with its context and the largest it had; one without is told of
/// as such, and of a lead without a log it is told what that means.
#[verifier::rlimit(40)]
pub proof fn law_session_is_told_with_its_context(session: SessionView, now: i64, has_log: bool)
    ensures
        ({
            let words = session_words(session, now, has_log);
            &&& has_log ==> mentions(
                words,
                " context "@ + padded_left(decimal(session.context as int), 7) + " (max "@
                    + decimal(session.context_max as int) + ") quiet "@,
            )
            &&& !has_log && session.role == Role::Lead ==> mentions(
                words,
                "UNAVAILABLE (session log not found; lead stop threshold disabled) quiet "@,
            )
            &&& !has_log && session.role != Role::Lead ==> mentions(
                words,
                "UNAVAILABLE (session log not found) quiet "@,
            )
            &&& ("  "@ + padded_right(session.name, 16) + " "@ + session.role.name()
                + " context "@).is_prefix_of(words)
        }),
{
    reveal_strlit("");
    reveal_strlit("UNAVAILABLE (session log not found");
    reveal_strlit("; lead stop threshold disabled");
    reveal_strlit(") quiet ");
    reveal_strlit("UNAVAILABLE (session log not found; lead stop threshold disabled) quiet ");
    reveal_strlit("UNAVAILABLE (session log not found) quiet ");
    let words = session_words(session, now, has_log);
    let lead_in = "  "@ + padded_right(session.name, 16) + " "@ + session.role.name();
    let who = lead_in + " context "@;
    let flags = if session.role == Role::Implementer && session.context > IMPLEMENTER_LIMIT_TOKENS {
        " OVER-LIMIT"@
    } else {
        ""@
    };
    let tail = decimal(session.quiet_seconds(now)) + "s"@ + flags;
    assert(words.subrange(0, who.len() as int) =~= who);
    if has_log {
        let middle = " context "@ + padded_left(decimal(session.context as int), 7) + " (max "@
            + decimal(session.context_max as int) + ") quiet "@;
        assert(words =~= lead_in + middle + tail);
        law_text_mentions_what_stands_in_it(lead_in, middle, tail, Seq::empty());
    } else if session.role == Role::Lead {
        let middle =
            "UNAVAILABLE (session log not found; lead stop threshold disabled) quiet "@;
        assert("UNAVAILABLE (session log not found"@ + "; lead stop threshold disabled"@
            + ") quiet "@ =~= middle);
        assert(words =~= who + middle + tail);
        law_text_mentions_what_stands_in_it(who, middle, tail, Seq::empty());
    } else {
        let middle = "UNAVAILABLE (session log not found) quiet "@;
        assert("UNAVAILABLE (session log not found"@ + ""@ + ") quiet "@ =~= middle);
        assert(words =~= who + middle + tail);
        law_text_mentions_what_stands_in_it(who, middle, tail, Seq::empty());
    }
}

/// A task's line begins with its number, its state, its session and its commit, goes on with what
/// happened to it, and ends with what it retries and why it ended, where that is known.
#[verifier::rlimit(40)]
pub proof fn law_task_is_told_whole(task: TaskView, session_name: Seq<char>, timeline: Seq<char>)
    ensures
        ({
            let words = task_words(task, session_name, timeline);
            let head = "  "@ + padded_left(decimal(task.id as int), 3) + " "@ + task.state.name()
                + " "@ + padded_right(session_name, 16) + " "@;
            &&& task.commit_sha is Some ==> (head + padded_right(
                byte_prefix(task.commit_sha->Some_0, 10),
                10,
            ) + " "@ + timeline).is_prefix_of(words)
            &&& task.commit_sha is None ==> (head + padded_right("-"@, 10) + " "@
                + timeline).is_prefix_of(words)
            &&& task.reason is Some ==> ("  reason: "@ + task.reason->Some_0).is_suffix_of(words)
            &&& task.reason is None && task.retry_of_task_id is Some ==> ("  retry of "@ + decimal(
                task.retry_of_task_id->Some_0 as int,
            )).is_suffix_of(words)
            &&& task.reason is Some && task.retry_of_task_id is Some ==> ("  retry of "@ + decimal(
                task.retry_of_task_id->Some_0 as int,
            ) + "  reason: "@ + task.reason->Some_0).is_suffix_of(words)
        }),
{
    reveal_strlit("");
    let words = task_words(task, session_name, timeline);
    let head = "  "@ + padded_left(decimal(task.id as int), 3) + " "@ + task.state.name() + " "@
        + padded_right(session_name, 16) + " "@ + padded_right(
        match task.commit_sha {
            Some(sha) => byte_prefix(sha, 10),
            None => "-"@,
        },
        10,
    ) + " "@ + timeline;
    let retry = match task.retry_of_task_id {
        Some(id) => "  retry of "@ + decimal(id as int),
        None => ""@,
    };
    let reason = match task.reason {
        Some(reason) => "  reason: "@ + reason,
        None => ""@,
    };
    assert(words == head + retry + reason);
    assert(words.subrange(0, head.len() as int) =~= head);
    assert(words.subrange(words.len() - reason.len(), words.len() as int) =~= reason);
    let both = retry + reason;
    assert(words =~= head + both);
    assert(words.subrange(words.len() - both.len(), words.len() as int) =~= both);
    if task.reason is None {
        assert(both =~= retry);
    }
    if task.reason is Some && task.retry_of_task_id is Some {
        assert(both =~= "  retry of "@ + decimal(task.retry_of_task_id->Some_0 as int)
            + "  reason: "@ + task.reason->Some_0);
    }
}

/// The state of a run is told line by line: a heading and a line for each task, a heading and a line
/// for each session, how the time was spent where that is known, whether a wait for the human is
/// open, and a line for each event, all in their order.
#[verifier::rlimit(40)]
pub proof fn law_state_is_told_line_by_line(lines: Seq<Seq<char>>, run: RunState)
    requires
        tells_state(lines, run),
    ensures
        ({
            let tasks = run.tasks@.len() as int;
            let sessions = run.sessions@.len() as int;
            let time: int = if run.time is Some {
                1
            } else {
                0
            };
            let wait: int = if run.human_wait_open {
                1
            } else {
                0
            };
            let events = lines.len() - run.events@.len();
            &&& events == 2 + tasks + sessions + time + wait
            &&& lines[0] == "tasks"@
            &&& forall|i: int|
                0 <= i < tasks ==> is_task_line(
                    #[trigger] lines[1 + i],
                    run.tasks@[i]@,
                    name_of(sessions_view(run.sessions@), run.tasks@[i].session_id),
                    run.delivered_at@[i],
                )
            &&& lines[1 + tasks] == "sessions"@
            &&& forall|i: int|
                0 <= i < sessions ==> #[trigger] lines[2 + tasks + i] == session_words(
                    run.sessions@[i]@,
                    run.now,
                    run.has_log@[i],
                )
            &&& run.time is Some ==> lines[2 + tasks + sessions] == run.time->Some_0@
            &&& run.human_wait_open ==> lines[2 + tasks + sessions + time]
                == "  (a human wait is open)"@
            &&& forall|i: int|
                0 <= i < run.events@.len() ==> is_event_line(
                    #[trigger] lines[events + i],
                    run.events@[i].at,
                    run.events@[i].kind@,
                    run.events@[i].detail@,
                )
        }),
{
    let (told, happened) = choose|told: Seq<Seq<char>>, happened: Seq<Seq<char>>|
        {
            &&& #[trigger] are_task_lines(told, run)
            &&& #[trigger] are_event_lines(happened, run)
            &&& lines == seq!["tasks"@] + told + seq!["sessions"@] + session_lines(run)
                + summary_lines(run) + happened
        };
    let tasks = run.tasks@.len() as int;
    let sessions = run.sessions@.len() as int;
    assert forall|i: int| 0 <= i < tasks implies is_task_line(
        #[trigger] lines[1 + i],
        run.tasks@[i]@,
        name_of(sessions_view(run.sessions@), run.tasks@[i].session_id),
        run.delivered_at@[i],
    ) by {
        assert(lines[1 + i] == told[i]);
    }
    assert forall|i: int| 0 <= i < sessions implies #[trigger] lines[2 + tasks + i]
        == session_words(run.sessions@[i]@, run.now, run.has_log@[i]) by {
        assert(lines[2 + tasks + i] == session_lines(run)[i]);
    }
    let events = lines.len() - run.events@.len();
    assert forall|i: int| 0 <= i < run.events@.len() implies is_event_line(
        #[trigger] lines[events + i],
        run.events@[i].at,
        run.events@[i].kind@,
        run.events@[i].detail@,
    ) by {
        assert(lines[events + i] == happened[i]);
    }
}

/// Each mark is told with what the clock showed at it, in the order of the marks.
pub proof fn law_each_mark_is_told_with_its_clock(
    marks: Seq<MarkView>,
    clocks: Seq<Seq<char>>,
    i: int,
)
    requires
        0 <= i < marks.len(),
        marks.len() == clocks.len(),
    ensures
        timeline_words(marks, clocks).len() == marks.len(),
        marks[i].label.is_prefix_of(timeline_words(marks, clocks)[i]),
        clocks[i].is_suffix_of(timeline_words(marks, clocks)[i]),
        timeline_words(marks, clocks)[i].len() == marks[i].label.len() + 1 + clocks[i].len(),
        timeline_words(marks, clocks)[i][marks[i].label.len() as int] == '@',
{
    reveal_strlit("@");
    let words = timeline_words(marks, clocks)[i];
    assert(words.subrange(0, marks[i].label.len() as int) =~= marks[i].label);
    assert(words.subrange(words.len() - clocks[i].len(), words.len() as int) =~= clocks[i]);
}

/// The line on a run's time tells how long it ran, how long implementers were busy and which share
/// that is, and how long it waited for the human, each in whole seconds.
#[verifier::rlimit(40)]
pub proof fn law_time_is_told_in_its_parts(
    wall: int,
    busy: int,
    human: int,
    percentage: Seq<char>,
)
    ensures
        ({
            let words = time_words(wall, busy, human, percentage);
            &&& ("time  wall "@ + decimal(whole_seconds(wall)) + "s"@).is_prefix_of(words)
            &&& ("%)  waiting-on-human "@ + decimal(whole_seconds(human)) + "s"@).is_suffix_of(
                words,
            )
            &&& mentions(
                words,
                "  implementer-busy "@ + decimal(whole_seconds(busy)) + "s ("@ + percentage,
            )
        }),
{
    reveal_strlit("s  implementer-busy ");
    reveal_strlit("  implementer-busy ");
    reveal_strlit("s");
    let words = time_words(wall, busy, human, percentage);
    let head = "time  wall "@ + decimal(whole_seconds(wall)) + "s"@;
    let middle = "  implementer-busy "@ + decimal(whole_seconds(busy)) + "s ("@ + percentage;
    let tail = "%)  waiting-on-human "@ + decimal(whole_seconds(human)) + "s"@;
    assert("s"@ + "  implementer-busy "@ =~= "s  implementer-busy "@);
    assert(words =~= head + middle + tail);
    assert(words.subrange(0, head.len() as int) =~= head);
    assert(words.subrange(words.len() - tail.len(), words.len() as int) =~= tail);
    law_text_mentions_what_stands_in_it(head, middle, tail, Seq::empty());
}

proof fn lemma_task_words_mention_the_timeline(
    task: TaskView,
    session_name: Seq<char>,
    timeline: Seq<char>,
)
    ensures
        mentions(task_words(task, session_name, timeline), timeline),
{
    let head = "  "@ + padded_left(decimal(task.id as int), 3) + " "@ + task.state.name() + " "@
        + padded_right(session_name, 16) + " "@ + padded_right(
        match task.commit_sha {
            Some(sha) => byte_prefix(sha, 10),
            None => "-"@,
        },
        10,
    ) + " "@;
    let retry = match task.retry_of_task_id {
        Some(id) => "  retry of "@ + decimal(id as int),
        None => ""@,
    };
    let reason = match task.reason {
        Some(reason) => "  reason: "@ + reason,
        None => ""@,
    };
    let words = task_words(task, session_name, timeline);
    assert(words == head + timeline + retry + reason);
    assert(words =~= head + timeline + (retry + reason));
    law_text_mentions_what_stands_in_it(head, timeline, retry + reason, words);
}

/// A task's line tells everything that happened to it, commentary included, between what the task is
/// and how it ended.
pub proof fn law_task_line_tells_every_mark(
    line: Seq<char>,
    task: TaskView,
    session_name: Seq<char>,
    delivered_at: Option<i64>,
    i: int,
)
    requires
        is_task_line(line, task, session_name, delivered_at),
        0 <= i < task_marks(task.events, delivered_at).len(),
    ensures
        mentions(line, task_marks(task.events, delivered_at)[i].label + "@"@),
        exists|timeline: Seq<char>| line == #[trigger] task_words(task, session_name, timeline),
{
    let marks = task_marks(task.events, delivered_at);
    let clocks = choose|clocks: Seq<Seq<char>>| #[trigger]
        clocks_read(marks, clocks) && line == task_words(
            task,
            session_name,
            joined(timeline_words(marks, clocks), " "@),
        );
    let told = timeline_words(marks, clocks);
    let timeline = joined(told, " "@);
    let label = marks[i].label + "@"@;
    let empty = Seq::<char>::empty();
    law_joined_text_mentions_its_parts(told, " "@, i);
    law_text_mentions_what_stands_in_it(empty, label, clocks[i], empty);
    assert(told[i] =~= empty + label + clocks[i]);
    law_mentions_are_passed_on(timeline, told[i], label);
    lemma_task_words_mention_the_timeline(task, session_name, timeline);
    law_mentions_are_passed_on(line, timeline, label);
}

/// An event's line ends with what kind of event it was and what it was about.
pub proof fn law_event_line_tells_kind_and_detail(
    line: Seq<char>,
    at: i64,
    kind: Seq<char>,
    detail: Seq<char>,
)
    requires
        is_event_line(line, at, kind, detail),
    ensures
        (" "@ + kind + " "@ + detail).is_suffix_of(line),
        "  "@.is_prefix_of(line),
        exists|clock: Seq<char>| #[trigger] is_clock_text(clock, at) && mentions(line, clock),
{
    let clock = choose|clock: Seq<char>| #[trigger]
        is_clock_text(clock, at) && line == "  "@ + clock + " "@ + kind + " "@ + detail;
    let tail = " "@ + kind + " "@ + detail;
    assert(line =~= "  "@ + clock + tail);
    assert(line.subrange(line.len() - tail.len(), line.len() as int) =~= tail);
    assert(line.subrange(0, "  "@.len() as int) =~= "  "@);
    law_text_mentions_what_stands_in_it("  "@, clock, tail, line);
}

} // verus!
