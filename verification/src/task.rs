//! The tasks of a run. Times are in milliseconds since the epoch.

use vstd::prelude::*;
use vstd::string::*;

use crate::text::opt_view;

verus! {

/// How far a task has got.
#[derive(Clone, Copy, Debug, PartialEq, Eq, Structural)]
pub enum TaskState {
    Drafted,
    Dispatched,
    InFlight,
    CommittedUnverified,
    Accepted,
    Aborted,
}

impl TaskState {
    /// The name of this state.
    pub open spec fn name(self) -> Seq<char> {
        match self {
            TaskState::Drafted => "drafted"@,
            TaskState::Dispatched => "dispatched"@,
            TaskState::InFlight => "in_flight"@,
            TaskState::CommittedUnverified => "committed_unverified"@,
            TaskState::Accepted => "accepted"@,
            TaskState::Aborted => "aborted"@,
        }
    }

    /// The name of this state.
    pub fn as_str(self) -> (r: &'static str)
        ensures
            r@ == self.name(),
    {
        match self {
            TaskState::Drafted => "drafted",
            TaskState::Dispatched => "dispatched",
            TaskState::InFlight => "in_flight",
            TaskState::CommittedUnverified => "committed_unverified",
            TaskState::Accepted => "accepted",
            TaskState::Aborted => "aborted",
        }
    }

    /// Whether an implementer is at work on a task in this state.
    pub open spec fn is_out(self) -> bool {
        self == TaskState::Dispatched || self == TaskState::InFlight
    }

    /// Whether an implementer is at work on a task in this state.
    pub fn out(self) -> (r: bool)
        ensures
            r == self.is_out(),
    {
        self == TaskState::Dispatched || self == TaskState::InFlight
    }

    /// Whether a task in this state stays in it.
    pub open spec fn is_final(self) -> bool {
        self == TaskState::Accepted || self == TaskState::Aborted
    }

    /// Whether a task in this state stays in it.
    pub fn is_terminal(self) -> (r: bool)
        ensures
            r == self.is_final(),
    {
        self == TaskState::Accepted || self == TaskState::Aborted
    }

    /// Every state, in the order in which a task comes to them.
    pub open spec fn all() -> Seq<TaskState> {
        seq![
            TaskState::Drafted,
            TaskState::Dispatched,
            TaskState::InFlight,
            TaskState::CommittedUnverified,
            TaskState::Accepted,
            TaskState::Aborted,
        ]
    }

    /// Every state, in the order in which a task comes to them.
    pub fn states() -> (r: Vec<TaskState>)
        ensures
            r@ == TaskState::all(),
    {
        let r = vec![
            TaskState::Drafted,
            TaskState::Dispatched,
            TaskState::InFlight,
            TaskState::CommittedUnverified,
            TaskState::Accepted,
            TaskState::Aborted,
        ];
        assert(r@ == TaskState::all());
        r
    }
}

/// That a task came to a state, and when.
#[derive(Clone, Copy, Debug, PartialEq, Eq, Structural)]
pub struct TaskEvent {
    pub state: TaskState,
    pub created_at: i64,
}

/// A piece of work that one session can finish.
#[derive(Debug)]
pub struct Task {
    pub id: i64,
    pub text: String,
    pub state: TaskState,
    /// What has happened to it, from the oldest on.
    pub events: Vec<TaskEvent>,
    pub session_id: Option<i64>,
    pub commit_sha: Option<String>,
    /// The commit that the tree was at when the task took flight.
    pub base_head: Option<String>,
    /// Where in the session's transcript the task begins.
    pub log_offset: i64,
    pub retry_of_task_id: Option<i64>,
    pub predicted_files: i64,
    pub predicted_lines: i64,
    pub context_size_start: Option<i64>,
    pub reason: Option<String>,
}

/// What a `Task` is.
pub struct TaskView {
    pub id: i64,
    pub text: Seq<char>,
    pub state: TaskState,
    pub events: Seq<TaskEvent>,
    pub session_id: Option<i64>,
    pub commit_sha: Option<Seq<char>>,
    pub base_head: Option<Seq<char>>,
    pub log_offset: i64,
    pub retry_of_task_id: Option<i64>,
    pub predicted_files: i64,
    pub predicted_lines: i64,
    pub context_size_start: Option<i64>,
    pub reason: Option<Seq<char>>,
}

impl View for Task {
    type V = TaskView;

    open spec fn view(&self) -> TaskView {
        TaskView {
            id: self.id,
            text: self.text@,
            state: self.state,
            events: self.events@,
            session_id: self.session_id,
            commit_sha: opt_view(self.commit_sha),
            base_head: opt_view(self.base_head),
            log_offset: self.log_offset,
            retry_of_task_id: self.retry_of_task_id,
            predicted_files: self.predicted_files,
            predicted_lines: self.predicted_lines,
            context_size_start: self.context_size_start,
            reason: opt_view(self.reason),
        }
    }
}

/// What the tasks of a list are.
pub open spec fn tasks_view(tasks: Seq<Task>) -> Seq<TaskView> {
    tasks.map_values(|task: Task| task@)
}

/// What an optional task is.
pub open spec fn opt_task(task: Option<&Task>) -> Option<TaskView> {
    match task {
        Some(task) => Some(task@),
        None => None,
    }
}

/// When the newest event of `events` that came to `state` happened.
pub open spec fn last_at(events: Seq<TaskEvent>, state: TaskState) -> Option<i64>
    decreases events.len(),
{
    if events.len() == 0 {
        None
    } else if events.last().state == state {
        Some(events.last().created_at)
    } else {
        last_at(events.drop_last(), state)
    }
}

/// When the oldest event of `events` that came to `state` happened.
pub open spec fn first_at(events: Seq<TaskEvent>, state: TaskState) -> Option<i64>
    decreases events.len(),
{
    if events.len() == 0 {
        None
    } else if events[0].state == state {
        Some(events[0].created_at)
    } else {
        first_at(events.drop_first(), state)
    }
}

/// When the newest event of `task` that came to `state` happened.
pub fn last_event_at(task: &Task, state: TaskState) -> (r: Option<i64>)
    ensures
        r == last_at(task@.events, state),
{
    let mut end: usize = task.events.len();
    assert(task@.events.take(end as int) == task@.events);
    while end > 0
        invariant
            end <= task.events@.len(),
            last_at(task@.events.take(end as int), state) == last_at(task@.events, state),
        decreases end,
    {
        assert(task@.events.take(end as int).drop_last() == task@.events.take(end - 1));
        if task.events[end - 1].state == state {
            return Some(task.events[end - 1].created_at);
        }
        end -= 1;
    }
    None
}

/// When the oldest event of `task` that came to `state` happened.
pub fn first_event_at(task: &Task, state: TaskState) -> (r: Option<i64>)
    ensures
        r == first_at(task@.events, state),
{
    let mut i: usize = 0;
    assert(task@.events.skip(0) == task@.events);
    while i < task.events.len()
        invariant
            i <= task.events@.len(),
            first_at(task@.events.skip(i as int), state) == first_at(task@.events, state),
        decreases task.events.len() - i,
    {
        assert(task@.events.skip(i as int).drop_first() == task@.events.skip(i + 1));
        if task.events[i].state == state {
            return Some(task.events[i].created_at);
        }
        i += 1;
    }
    None
}

/// The first task of `tasks` that an implementer is at work on.
pub open spec fn first_out(tasks: Seq<TaskView>) -> Option<TaskView>
    decreases tasks.len(),
{
    if tasks.len() == 0 {
        None
    } else if tasks[0].state.is_out() {
        Some(tasks[0])
    } else {
        first_out(tasks.drop_first())
    }
}

/// The first task of `tasks` that an implementer is at work on.
pub fn find_out(tasks: &Vec<Task>) -> (r: Option<&Task>)
    ensures
        opt_task(r) == first_out(tasks_view(tasks@)),
{
    let ghost all = tasks_view(tasks@);
    let mut i: usize = 0;
    assert(all.skip(0) == all);
    while i < tasks.len()
        invariant
            i <= tasks@.len(),
            all == tasks_view(tasks@),
            first_out(all.skip(i as int)) == first_out(all),
        decreases tasks.len() - i,
    {
        assert(all.skip(i as int)[0] == tasks@[i as int]@);
        assert(all.skip(i as int).drop_first() == all.skip(i + 1));
        if tasks[i].state.out() {
            return Some(&tasks[i]);
        }
        i += 1;
    }
    None
}

/// No task is found to be out exactly where none is.
pub proof fn lemma_first_out(tasks: Seq<TaskView>)
    ensures
        first_out(tasks) is None <==> forall|i: int|
            0 <= i < tasks.len() ==> !(#[trigger] tasks[i]).state.is_out(),
        first_out(tasks) matches Some(task) ==> tasks.contains(task) && task.state.is_out(),
    decreases tasks.len(),
{
    if tasks.len() > 0 && !tasks[0].state.is_out() {
        let rest = tasks.drop_first();
        lemma_first_out(rest);
        if first_out(rest) is None {
            assert forall|i: int| 0 <= i < tasks.len() implies !(#[trigger] tasks[i]).state.is_out() by {
                if i > 0 {
                    assert(tasks[i] == rest[i - 1]);
                }
            }
        } else {
            let task = first_out(rest)->Some_0;
            let k = choose|k: int| 0 <= k < rest.len() && rest[k] == task;
            assert(tasks[k + 1] == task);
        }
    } else if tasks.len() > 0 {
        assert(tasks[0] == first_out(tasks)->Some_0);
    }
}

/// The last task of `tasks` that is past its draft.
pub open spec fn last_undrafted(tasks: Seq<TaskView>) -> Option<TaskView>
    decreases tasks.len(),
{
    if tasks.len() == 0 {
        None
    } else if tasks.last().state != TaskState::Drafted {
        Some(tasks.last())
    } else {
        last_undrafted(tasks.drop_last())
    }
}

/// The last task of a session's tasks that is past its draft.
pub fn last_task_on(tasks: &Vec<Task>) -> (r: Option<&Task>)
    ensures
        opt_task(r) == last_undrafted(tasks_view(tasks@)),
{
    let ghost all = tasks_view(tasks@);
    let mut end: usize = tasks.len();
    assert(all.take(end as int) == all);
    while end > 0
        invariant
            end <= tasks@.len(),
            all == tasks_view(tasks@),
            last_undrafted(all.take(end as int)) == last_undrafted(all),
        decreases end,
    {
        assert(all.take(end as int).drop_last() == all.take(end - 1));
        assert(all.take(end as int).last() == tasks@[end - 1]@);
        if tasks[end - 1].state != TaskState::Drafted {
            return Some(&tasks[end - 1]);
        }
        end -= 1;
    }
    None
}

/// The last task of `tasks` that an implementer is at work on.
pub open spec fn last_out(tasks: Seq<TaskView>) -> Option<TaskView>
    decreases tasks.len(),
{
    if tasks.len() == 0 {
        None
    } else if tasks.last().state.is_out() {
        Some(tasks.last())
    } else {
        last_out(tasks.drop_last())
    }
}

/// The last task of a session's tasks that an implementer is at work on.
pub fn find_last_out(tasks: &Vec<Task>) -> (r: Option<&Task>)
    ensures
        opt_task(r) == last_out(tasks_view(tasks@)),
{
    let ghost all = tasks_view(tasks@);
    let mut end: usize = tasks.len();
    assert(all.take(end as int) == all);
    while end > 0
        invariant
            end <= tasks@.len(),
            all == tasks_view(tasks@),
            last_out(all.take(end as int)) == last_out(all),
        decreases end,
    {
        assert(all.take(end as int).drop_last() == all.take(end - 1));
        assert(all.take(end as int).last() == tasks@[end - 1]@);
        if tasks[end - 1].state.out() {
            return Some(&tasks[end - 1]);
        }
        end -= 1;
    }
    None
}

/// The newest event that came to a state is one that did, and none after it did; there is none
/// where no event did.
pub proof fn law_newest_event_is_found(events: Seq<TaskEvent>, state: TaskState)
    ensures
        match last_at(events, state) {
            Some(at) => exists|i: int|
                {
                    &&& 0 <= i < events.len()
                    &&& (#[trigger] events[i]).state == state
                    &&& events[i].created_at == at
                    &&& forall|j: int|
                        i < j < events.len() ==> (#[trigger] events[j]).state != state
                },
            None => forall|j: int| 0 <= j < events.len() ==> (#[trigger] events[j]).state != state,
        },
    decreases events.len(),
{
    if events.len() > 0 {
        let last = events.len() - 1;
        if events[last].state != state {
            let rest = events.drop_last();
            law_newest_event_is_found(rest, state);
            assert(forall|j: int| 0 <= j < rest.len() ==> #[trigger] events[j] == rest[j]);
            if let Some(at) = last_at(rest, state) {
                let i = choose|i: int|
                    {
                        &&& 0 <= i < rest.len()
                        &&& (#[trigger] rest[i]).state == state
                        &&& rest[i].created_at == at
                        &&& forall|j: int|
                            i < j < rest.len() ==> (#[trigger] rest[j]).state != state
                    };
                assert(events[i].state == state);
            }
        }
    }
}

/// The oldest event that came to a state is one that did, and none before it did; there is none
/// where no event did.
pub proof fn law_oldest_event_is_found(events: Seq<TaskEvent>, state: TaskState)
    ensures
        match first_at(events, state) {
            Some(at) => exists|i: int|
                {
                    &&& 0 <= i < events.len()
                    &&& (#[trigger] events[i]).state == state
                    &&& events[i].created_at == at
                    &&& forall|j: int| 0 <= j < i ==> (#[trigger] events[j]).state != state
                },
            None => forall|j: int| 0 <= j < events.len() ==> (#[trigger] events[j]).state != state,
        },
    decreases events.len(),
{
    if events.len() > 0 {
        if events[0].state != state {
            let rest = events.drop_first();
            law_oldest_event_is_found(rest, state);
            assert(forall|j: int| 0 < j < events.len() ==> #[trigger] events[j] == rest[j - 1]);
            if let Some(at) = first_at(rest, state) {
                let i = choose|i: int|
                    {
                        &&& 0 <= i < rest.len()
                        &&& (#[trigger] rest[i]).state == state
                        &&& rest[i].created_at == at
                        &&& forall|j: int| 0 <= j < i ==> (#[trigger] rest[j]).state != state
                    };
                assert(events[i + 1].state == state);
            }
        }
    }
}

/// The first task that is out is dispatched or in flight, and none before it is; there is none
/// where no task is.
pub proof fn law_first_task_that_is_out(tasks: Seq<TaskView>)
    ensures
        match first_out(tasks) {
            Some(task) => exists|i: int|
                {
                    &&& 0 <= i < tasks.len()
                    &&& #[trigger] tasks[i] == task
                    &&& task.state == TaskState::Dispatched || task.state == TaskState::InFlight
                    &&& forall|j: int|
                        0 <= j < i ==> (#[trigger] tasks[j]).state != TaskState::Dispatched
                            && tasks[j].state != TaskState::InFlight
                },
            None => forall|j: int|
                0 <= j < tasks.len() ==> (#[trigger] tasks[j]).state != TaskState::Dispatched
                    && tasks[j].state != TaskState::InFlight,
        },
    decreases tasks.len(),
{
    if tasks.len() > 0 {
        if tasks[0].state.is_out() {
            assert(tasks[0] == first_out(tasks)->Some_0);
        } else {
            let rest = tasks.drop_first();
            law_first_task_that_is_out(rest);
            assert(forall|j: int| 0 < j < tasks.len() ==> #[trigger] tasks[j] == rest[j - 1]);
            if let Some(task) = first_out(rest) {
                let i = choose|i: int|
                    {
                        &&& 0 <= i < rest.len()
                        &&& #[trigger] rest[i] == task
                        &&& forall|j: int|
                            0 <= j < i ==> (#[trigger] rest[j]).state != TaskState::Dispatched
                                && rest[j].state != TaskState::InFlight
                    };
                assert(tasks[i + 1] == task);
            }
        }
    }
}

/// The last task that is out is dispatched or in flight, and none after it is; there is none where
/// no task is.
pub proof fn law_last_task_that_is_out(tasks: Seq<TaskView>)
    ensures
        match last_out(tasks) {
            Some(task) => exists|i: int|
                {
                    &&& 0 <= i < tasks.len()
                    &&& #[trigger] tasks[i] == task
                    &&& task.state == TaskState::Dispatched || task.state == TaskState::InFlight
                    &&& forall|j: int|
                        i < j < tasks.len() ==> (#[trigger] tasks[j]).state
                            != TaskState::Dispatched && tasks[j].state != TaskState::InFlight
                },
            None => forall|j: int|
                0 <= j < tasks.len() ==> (#[trigger] tasks[j]).state != TaskState::Dispatched
                    && tasks[j].state != TaskState::InFlight,
        },
    decreases tasks.len(),
{
    if tasks.len() > 0 {
        let last = tasks.len() - 1;
        if tasks[last].state.is_out() {
            assert(tasks[last] == last_out(tasks)->Some_0);
        } else {
            let rest = tasks.drop_last();
            law_last_task_that_is_out(rest);
            assert(forall|j: int| 0 <= j < rest.len() ==> #[trigger] tasks[j] == rest[j]);
            if let Some(task) = last_out(rest) {
                let i = choose|i: int|
                    {
                        &&& 0 <= i < rest.len()
                        &&& #[trigger] rest[i] == task
                        &&& forall|j: int|
                            i < j < rest.len() ==> (#[trigger] rest[j]).state
                                != TaskState::Dispatched && rest[j].state != TaskState::InFlight
                    };
                assert(tasks[i] == task);
            }
        }
    }
}

/// The last task past its draft is one, and every task after it is a draft; there is none where all
/// are drafts.
pub proof fn law_last_task_past_its_draft(tasks: Seq<TaskView>)
    ensures
        match last_undrafted(tasks) {
            Some(task) => exists|i: int|
                {
                    &&& 0 <= i < tasks.len()
                    &&& #[trigger] tasks[i] == task
                    &&& task.state != TaskState::Drafted
                    &&& forall|j: int|
                        i < j < tasks.len() ==> (#[trigger] tasks[j]).state == TaskState::Drafted
                },
            None => forall|j: int|
                0 <= j < tasks.len() ==> (#[trigger] tasks[j]).state == TaskState::Drafted,
        },
    decreases tasks.len(),
{
    if tasks.len() > 0 {
        let last = tasks.len() - 1;
        if tasks[last].state != TaskState::Drafted {
            assert(tasks[last] == last_undrafted(tasks)->Some_0);
        } else {
            let rest = tasks.drop_last();
            law_last_task_past_its_draft(rest);
            assert(forall|j: int| 0 <= j < rest.len() ==> #[trigger] tasks[j] == rest[j]);
            if let Some(task) = last_undrafted(rest) {
                let i = choose|i: int|
                    {
                        &&& 0 <= i < rest.len()
                        &&& #[trigger] rest[i] == task
                        &&& forall|j: int|
                            i < j < rest.len() ==> (#[trigger] rest[j]).state
                                == TaskState::Drafted
                    };
                assert(tasks[i] == task);
            }
        }
    }
}

/// Every state is listed once, and no two states share a name. A task that is out is not at its
/// end, and only an accepted or aborted task is.
pub proof fn law_states_are_told_apart(state: TaskState, other: TaskState)
    ensures
        exists|i: int|
            0 <= i < TaskState::all().len() && #[trigger] TaskState::all()[i] == state && (forall|
                j: int,
            |
                0 <= j < TaskState::all().len() && #[trigger] TaskState::all()[j] == state ==> j
                    == i),
        state.name() == other.name() ==> state == other,
        state.is_out() <==> state == TaskState::Dispatched || state == TaskState::InFlight,
        state.is_final() <==> state == TaskState::Accepted || state == TaskState::Aborted,
{
    let all = TaskState::all();
    let i: int = match state {
        TaskState::Drafted => 0,
        TaskState::Dispatched => 1,
        TaskState::InFlight => 2,
        TaskState::CommittedUnverified => 3,
        TaskState::Accepted => 4,
        TaskState::Aborted => 5,
    };
    assert(all[i] == state);
    reveal_strlit("drafted");
    reveal_strlit("dispatched");
    reveal_strlit("in_flight");
    reveal_strlit("committed_unverified");
    reveal_strlit("accepted");
    reveal_strlit("aborted");
    assert("drafted"@.len() == 7 && "dispatched"@.len() == 10 && "in_flight"@.len() == 9);
    assert("committed_unverified"@.len() == 20 && "accepted"@.len() == 8 && "aborted"@.len() == 7);
    assert("drafted"@[0] != "aborted"@[0]);
    if state.name() == other.name() {
        assert(state.name().len() == other.name().len());
        assert(state.name()[0] == other.name()[0]);
    }
}

/// The tasks of a list stand for themselves one by one.
pub proof fn law_tasks_stand_for_themselves(tasks: Seq<Task>, task: Option<&Task>)
    ensures
        tasks_view(tasks).len() == tasks.len(),
        forall|i: int| 0 <= i < tasks.len() ==> #[trigger] tasks_view(tasks)[i] == tasks[i]@,
        opt_task(task) is Some <==> task is Some,
        task is Some ==> opt_task(task) == Some(task->Some_0@),
{
}

/// A task stands for what its fields hold.
pub proof fn law_task_stands_for_its_fields(task: Task)
    ensures
        task@.id == task.id,
        task@.text == task.text@,
        task@.state == task.state,
        task@.events == task.events@,
        task@.session_id == task.session_id,
        task@.commit_sha == opt_view(task.commit_sha),
        task@.base_head == opt_view(task.base_head),
        task@.log_offset == task.log_offset,
        task@.retry_of_task_id == task.retry_of_task_id,
        task@.predicted_files == task.predicted_files,
        task@.predicted_lines == task.predicted_lines,
        task@.context_size_start == task.context_size_start,
        task@.reason == opt_view(task.reason),
{
}

} // verus!
