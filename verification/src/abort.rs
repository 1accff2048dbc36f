//! Aborts: what may be aborted, how the session is told, and how often a task has failed.

use vstd::prelude::*;
use vstd::string::*;

use crate::error::{refuse, refused, Error};
use crate::events::{Event, EventView};
use crate::number::{decimal, decimal_text};
use crate::remedies::{no_task, require_task};
use crate::task::{opt_task, tasks_view, Task, TaskState, TaskView};
use crate::text::{blank, is_blank, texts};

verus! {

/// So many aborts of one task are for the human to look at.
pub const ABORTS_TO_ESCALATE: i64 = 3;

/// Why a task cannot be aborted.
pub open spec fn abort_refusal(task_id: i64, task: Option<TaskView>, reason: Seq<char>) -> Option<
    Seq<char>,
> {
    match task {
        None => Some(no_task(task_id)),
        Some(task) => if is_blank(reason) {
            Some("supervisor: abort requires a non-empty --reason"@)
        } else if task.state.is_final() {
            Some(
                "supervisor: task "@ + decimal(task_id as int) + " is already "@
                    + task.state.name(),
            )
        } else {
            None
        },
    }
}

/// The task to abort, where it can be.
pub fn check_abort<'a>(task_id: i64, task: Option<&'a Task>, reason: &str) -> (r: Result<
    &'a Task,
    Error,
>)
    ensures
        match abort_refusal(task_id, opt_task(task), reason@) {
            Some(message) => refused(r, message),
            None => r matches Ok(found) && task == Some(found),
        },
{
    let task = require_task(task, task_id)?;
    if blank(reason) {
        return refuse("supervisor: abort requires a non-empty --reason".to_owned());
    }
    if task.state.is_terminal() {
        return refuse(
            "supervisor: task ".to_owned().concat(decimal_text(task_id).as_str()).concat(
                " is already ",
            ).concat(task.state.as_str()),
        );
    }
    Ok(task)
}

/// What an abort is recorded as.
pub fn abort_event(task_id: i64, reason: &str) -> (r: Event)
    ensures
        r@ == (EventView {
            kind: "aborted"@,
            detail: "task "@ + decimal(task_id as int) + ": "@ + reason@,
        }),
{
    Event::new(
        "aborted",
        "task ".to_owned().concat(decimal_text(task_id).as_str()).concat(": ").concat(reason),
    )
}

/// What the session of an aborted task is told once it has been interrupted.
pub fn abort_message(task_id: i64, reason: &str) -> (r: String)
    ensures
        r@ == "supervisor: task "@ + decimal(task_id as int) + " is aborted: "@ + reason@
            + ". Stop, leave the tree clean, do not commit."@,
{
    "supervisor: task ".to_owned().concat(decimal_text(task_id).as_str()).concat(
        " is aborted: ",
    ).concat(reason).concat(". Stop, leave the tree clean, do not commit.")
}

/// Whether the abort reached the session.
pub enum AbortReach<'a> {
    /// It was interrupted and told.
    Told,
    /// It could not be interrupted.
    NotInterrupted(&'a str),
    /// It was interrupted, and the message did not land.
    NotTold,
}

/// What telling a session of an abort is recorded as.
pub open spec fn reach_event(task_id: i64, name: Seq<char>, reach: AbortReach) -> EventView {
    let detail = "task "@ + decimal(task_id as int) + " -> "@ + name;
    match reach {
        AbortReach::Told => EventView { kind: "abort-interrupt"@, detail },
        AbortReach::NotInterrupted(error) => EventView {
            kind: "abort-unreachable"@,
            detail: detail + ": "@ + error@,
        },
        AbortReach::NotTold => EventView {
            kind: "abort-unreachable"@,
            detail: detail + ": "@ + "abort message did not reach "@ + name,
        },
    }
}

/// What telling a session of an abort is recorded as.
pub fn abort_reached(task_id: i64, name: &str, reach: AbortReach) -> (r: Event)
    ensures
        r@ == reach_event(task_id, name@, reach),
{
    let detail = "task ".to_owned().concat(decimal_text(task_id).as_str()).concat(" -> ").concat(
        name,
    );
    match reach {
        AbortReach::Told => Event::new("abort-interrupt", detail),
        AbortReach::NotInterrupted(error) => Event::new(
            "abort-unreachable",
            detail.concat(": ").concat(error),
        ),
        AbortReach::NotTold => Event::new(
            "abort-unreachable",
            detail.concat(": ").concat("abort message did not reach ").concat(name),
        ),
    }
}

/// The lines that tell of an abort: how often the task has failed, what the tree looks like, and
/// what to do next.
pub open spec fn abort_lines(
    task_id: i64,
    reason: Seq<char>,
    failures: i64,
    dirty: Seq<char>,
) -> Seq<
    Seq<char>,
> {
    seq![
        "task "@ + decimal(task_id as int) + " aborted ("@ + decimal(failures as int) + " abort"@
            + (if failures == 1 {
            ""@
        } else {
            "s"@
        }) + " in its lineage): "@ + reason,
    ] + (if dirty.len() == 0 {
        Seq::<Seq<char>>::empty()
    } else {
        seq!["WARNING: tree is dirty — the implementer did not leave it clean:\n"@ + dirty]
    }) + seq![
        if failures >= ABORTS_TO_ESCALATE {
            "three aborts on the same task: escalate to the human"@
        } else {
            "adjust the task and retry with a fresh implementer: task new --retry-of "@ + decimal(
                task_id as int,
            ) + " < task.md"@
        },
    ]
}

/// The lines that tell of an abort.
pub fn abort_report(task_id: i64, reason: &str, failures: i64, dirty: &str) -> (r: Vec<String>)
    ensures
        texts(r@) == abort_lines(task_id, reason@, failures, dirty@),
{
    let id = decimal_text(task_id);
    let mut report: Vec<String> = Vec::new();
    let plural = if failures == 1 {
        ""
    } else {
        "s"
    };
    report.push(
        "task ".to_owned().concat(id.as_str()).concat(" aborted (").concat(
            decimal_text(failures).as_str(),
        ).concat(" abort").concat(plural).concat(" in its lineage): ").concat(reason),
    );
    if !dirty.is_empty() {
        report.push(
            "WARNING: tree is dirty — the implementer did not leave it clean:\n".to_owned().concat(
                dirty,
            ),
        );
    }
    if failures >= ABORTS_TO_ESCALATE {
        report.push("three aborts on the same task: escalate to the human".to_owned());
    } else {
        report.push(
            "adjust the task and retry with a fresh implementer: task new --retry-of ".to_owned().concat(
                id.as_str(),
            ).concat(" < task.md"),
        );
    }
    assert(texts(report@) =~= abort_lines(task_id, reason@, failures, dirty@));
    report
}

/// Where the task with this number stands among these.
pub open spec fn index_of(tasks: Seq<TaskView>, id: i64) -> Option<int>
    decreases tasks.len(),
{
    if tasks.len() == 0 {
        None
    } else {
        match index_of(tasks.drop_last(), id) {
            Some(at) => Some(at),
            None => if tasks.last().id == id {
                Some(tasks.len() - 1)
            } else {
                None
            },
        }
    }
}

proof fn lemma_index(tasks: Seq<TaskView>, id: i64)
    ensures
        match index_of(tasks, id) {
            Some(at) => {
                &&& 0 <= at < tasks.len()
                &&& tasks[at].id == id
                &&& forall|i: int| 0 <= i < at ==> (#[trigger] tasks[i]).id != id
            },
            None => forall|i: int| 0 <= i < tasks.len() ==> (#[trigger] tasks[i]).id != id,
        },
    decreases tasks.len(),
{
    if tasks.len() > 0 {
        let rest = tasks.drop_last();
        lemma_index(rest, id);
        assert(forall|i: int| 0 <= i < rest.len() ==> #[trigger] tasks[i] == rest[i]);
    }
}

/// The task that is `steps` retries back from the task with this number: where it stands.
pub open spec fn ancestor(tasks: Seq<TaskView>, id: i64, steps: nat) -> Option<int>
    decreases steps,
{
    if steps == 0 {
        index_of(tasks, id)
    } else {
        match ancestor(tasks, id, (steps - 1) as nat) {
            Some(at) => match tasks[at].retry_of_task_id {
                Some(earlier) => index_of(tasks, earlier),
                None => None,
            },
            None => None,
        }
    }
}

/// How many of the first `steps` tasks in a lineage were aborted.
pub open spec fn aborted_among(tasks: Seq<TaskView>, id: i64, steps: nat) -> nat
    decreases steps,
{
    if steps == 0 {
        0
    } else {
        let before = aborted_among(tasks, id, (steps - 1) as nat);
        match ancestor(tasks, id, (steps - 1) as nat) {
            Some(at) => if tasks[at].state == TaskState::Aborted {
                before + 1
            } else {
                before
            },
            None => before,
        }
    }
}

/// Whether a lineage comes to an end, as every lineage does whose tasks retry earlier ones.
pub open spec fn lineage_ends(tasks: Seq<TaskView>, id: i64) -> bool {
    exists|steps: nat| ancestor(tasks, id, steps) is None
}

/// How many tasks in a lineage were aborted: no lineage that ends is longer than the list.
pub open spec fn lineage_failures(tasks: Seq<TaskView>, id: i64) -> nat {
    aborted_among(tasks, id, tasks.len())
}

proof fn lemma_ancestor_in_range(tasks: Seq<TaskView>, id: i64, steps: nat)
    ensures
        ancestor(tasks, id, steps) matches Some(at) ==> 0 <= at < tasks.len(),
    decreases steps,
{
    if steps == 0 {
        lemma_index(tasks, id);
    } else {
        lemma_ancestor_in_range(tasks, id, (steps - 1) as nat);
        if let Some(at) = ancestor(tasks, id, (steps - 1) as nat) {
            if let Some(earlier) = tasks[at].retry_of_task_id {
                lemma_index(tasks, earlier);
            }
        }
    }
}

/// Two places in a lineage that hold the same task are followed by the same tasks.
proof fn lemma_lineage_repeats(tasks: Seq<TaskView>, id: i64, first: nat, second: nat, further: nat)
    requires
        ancestor(tasks, id, first) == ancestor(tasks, id, second),
    ensures
        ancestor(tasks, id, first + further) == ancestor(tasks, id, second + further),
    decreases further,
{
    if further > 0 {
        lemma_lineage_repeats(tasks, id, first, second, (further - 1) as nat);
        assert((first + further - 1) as nat == first + (further - 1) as nat);
        assert((second + further - 1) as nat == second + (further - 1) as nat);
    }
}

/// A lineage that is longer than the list comes back to some task.
proof fn lemma_long_lineage_repeats(tasks: Seq<TaskView>, id: i64) -> (places: (nat, nat))
    requires
        forall|steps: nat| steps <= tasks.len() ==> ancestor(tasks, id, steps) is Some,
    ensures
        places.0 < places.1 <= tasks.len(),
        ancestor(tasks, id, places.0) == ancestor(tasks, id, places.1),
{
    let visited = Seq::new(
        tasks.len() + 1,
        |steps: int| ancestor(tasks, id, steps as nat)->Some_0,
    );
    if visited.no_duplicates() {
        visited.unique_seq_to_set();
        let all = vstd::set_lib::set_int_range(0, tasks.len() as int);
        vstd::set_lib::lemma_int_range(0, tasks.len() as int);
        assert forall|at: int| visited.to_set().contains(at) implies all.contains(at) by {
            let steps = choose|steps: int| 0 <= steps < visited.len() && visited[steps] == at;
            assert(ancestor(tasks, id, steps as nat) is Some);
            lemma_ancestor_in_range(tasks, id, steps as nat);
        }
        vstd::set_lib::lemma_len_subset(visited.to_set(), all);
    }
    let (first, second) = choose|first: int, second: int|
        0 <= first < second < visited.len() && visited[first] == visited[second];
    assert(ancestor(tasks, id, first as nat) is Some);
    assert(ancestor(tasks, id, second as nat) is Some);
    (first as nat, second as nat)
}

proof fn lemma_long_lineage_never_ends(tasks: Seq<TaskView>, id: i64, steps: nat)
    requires
        forall|early: nat| early <= tasks.len() ==> ancestor(tasks, id, early) is Some,
    ensures
        ancestor(tasks, id, steps) is Some,
    decreases steps,
{
    if steps > tasks.len() {
        let (first, second) = lemma_long_lineage_repeats(tasks, id);
        let back = (steps - (second - first)) as nat;
        lemma_lineage_repeats(tasks, id, first, second, (steps - second) as nat);
        assert(first + (steps - second) as nat == back);
        lemma_long_lineage_never_ends(tasks, id, back);
    }
}

proof fn lemma_after_the_end(tasks: Seq<TaskView>, id: i64, end: nat, steps: nat)
    requires
        ancestor(tasks, id, end) is None,
        end <= steps,
    ensures
        ancestor(tasks, id, steps) is None,
        aborted_among(tasks, id, steps) == aborted_among(tasks, id, end),
    decreases steps,
{
    if end < steps {
        lemma_after_the_end(tasks, id, end, (steps - 1) as nat);
    }
}

/// A lineage that comes to an end does so within the length of the list, and then the number of
/// its failures is the same however far one looks past the end.
pub proof fn law_lineage_ends_within_the_list(tasks: Seq<TaskView>, id: i64, end: nat)
    requires
        ancestor(tasks, id, end) is None,
    ensures
        ancestor(tasks, id, tasks.len()) is None,
        lineage_failures(tasks, id) == aborted_among(tasks, id, end),
{
    if ancestor(tasks, id, tasks.len()) is Some {
        assert forall|early: nat| early <= tasks.len() implies ancestor(tasks, id, early) is Some by {
            if ancestor(tasks, id, early) is None {
                lemma_after_the_end(tasks, id, early, tasks.len());
            }
        }
        lemma_long_lineage_never_ends(tasks, id, end);
    }
    if end <= tasks.len() {
        lemma_after_the_end(tasks, id, end, tasks.len());
    } else {
        lemma_after_the_end(tasks, id, tasks.len(), end);
    }
}

/// Where every task retries a task of a smaller number, every lineage comes to an end.
pub proof fn law_retries_of_earlier_tasks_end(tasks: Seq<TaskView>, id: i64)
    requires
        forall|i: int|
            0 <= i < tasks.len() ==> ((#[trigger] tasks[i]).retry_of_task_id matches Some(earlier)
                ==> earlier < tasks[i].id),
    ensures
        lineage_ends(tasks, id),
{
    if forall|early: nat| early <= tasks.len() ==> ancestor(tasks, id, early) is Some {
        let (first, second) = lemma_long_lineage_repeats(tasks, id);
        lemma_ids_fall(tasks, id, first, second);
    }
}

proof fn lemma_ids_fall(tasks: Seq<TaskView>, id: i64, first: nat, second: nat)
    requires
        forall|i: int|
            0 <= i < tasks.len() ==> ((#[trigger] tasks[i]).retry_of_task_id matches Some(earlier)
                ==> earlier < tasks[i].id),
        first < second,
        ancestor(tasks, id, second) is Some,
    ensures
        ancestor(tasks, id, first) is Some,
        tasks[ancestor(tasks, id, second)->Some_0].id < tasks[ancestor(
            tasks,
            id,
            first,
        )->Some_0].id,
    decreases second,
{
    let prior = (second - 1) as nat;
    lemma_ancestor_in_range(tasks, id, prior);
    let at = ancestor(tasks, id, prior)->Some_0;
    lemma_index(tasks, tasks[at].retry_of_task_id->Some_0);
    if first < prior {
        lemma_ids_fall(tasks, id, first, prior);
    }
}

fn find_index(tasks: &Vec<Task>, id: i64) -> (r: Option<usize>)
    ensures
        match r {
            Some(at) => index_of(tasks_view(tasks@), id) == Some(at as int),
            None => index_of(tasks_view(tasks@), id) is None,
        },
{
    let ghost all = tasks_view(tasks@);
    let mut i: usize = 0;
    while i < tasks.len()
        invariant
            i <= tasks@.len(),
            all == tasks_view(tasks@),
            forall|j: int| 0 <= j < i ==> (#[trigger] all[j]).id != id,
        decreases tasks.len() - i,
    {
        assert(all[i as int] == tasks@[i as int]@);
        if tasks[i].id == id {
            proof {
                lemma_index(all, id);
            }
            return Some(i);
        }
        i += 1;
    }
    proof {
        lemma_index(all, id);
    }
    None
}

/// How many tasks in the lineage of the task with this number were aborted. A lineage that turns
/// in a circle has no such number.
pub fn failures_in_lineage(tasks: &Vec<Task>, task_id: i64) -> (r: Option<usize>)
    ensures
        match r {
            Some(failures) => {
                &&& lineage_ends(tasks_view(tasks@), task_id)
                &&& failures == lineage_failures(tasks_view(tasks@), task_id)
            },
            None => !lineage_ends(tasks_view(tasks@), task_id),
        },
{
    let ghost all = tasks_view(tasks@);
    let size = tasks.len();
    assert(all.len() == size);
    let mut failures: usize = 0;
    let mut steps: usize = 0;
    let mut current = find_index(tasks, task_id);
    while steps < size
        invariant
            steps <= size,
            size == tasks@.len(),
            all == tasks_view(tasks@),
            failures <= steps,
            failures == aborted_among(all, task_id, steps as nat),
            match current {
                Some(at) => ancestor(all, task_id, steps as nat) == Some(at as int),
                None => ancestor(all, task_id, steps as nat) is None,
            },
        decreases size - steps,
    {
        match current {
            None => {
                proof {
                    law_lineage_ends_within_the_list(all, task_id, steps as nat);
                }
                return Some(failures);
            },
            Some(at) => {
                proof {
                    lemma_ancestor_in_range(all, task_id, steps as nat);
                    assert(all[at as int] == tasks@[at as int]@);
                }
                if tasks[at].state == TaskState::Aborted {
                    failures += 1;
                }
                current = match tasks[at].retry_of_task_id {
                    Some(earlier) => find_index(tasks, earlier),
                    None => None,
                };
                steps += 1;
            },
        }
    }
    match current {
        None => Some(failures),
        Some(_) => {
            proof {
                if lineage_ends(all, task_id) {
                    let end = choose|end: nat| ancestor(all, task_id, end) is None;
                    law_lineage_ends_within_the_list(all, task_id, end);
                }
            }
            None
        },
    }
}

/// A lineage, but for its first task, is the lineage of the task that the first one retries.
proof fn lemma_lineage_of_the_predecessor(tasks: Seq<TaskView>, id: i64, at: int, steps: nat)
    requires
        index_of(tasks, id) == Some(at),
        0 <= at < tasks.len(),
    ensures
        ancestor(tasks, id, steps + 1) == (match tasks[at].retry_of_task_id {
            Some(earlier) => ancestor(tasks, earlier, steps),
            None => None,
        }),
        aborted_among(tasks, id, steps + 1) == (match tasks[at].retry_of_task_id {
            Some(earlier) => aborted_among(tasks, earlier, steps),
            None => 0,
        }) + (if tasks[at].state == TaskState::Aborted {
            1nat
        } else {
            0nat
        }),
    decreases steps,
{
    assert((steps + 1 - 1) as nat == steps);
    if steps == 0 {
        assert(ancestor(tasks, id, 0) == Some(at));
        assert(aborted_among(tasks, id, 0) == 0);
    } else {
        lemma_lineage_of_the_predecessor(tasks, id, at, (steps - 1) as nat);
        assert(((steps - 1) as nat) + 1 == steps);
    }
}

/// A task that retries nothing has failed once if it was aborted, else never. One that retries
/// another has failed as often as that one, and once more if it was aborted itself; its lineage
/// ends where that one's does.
pub proof fn law_each_abort_counts_once(tasks: Seq<TaskView>, id: i64, at: int)
    requires
        0 <= at < tasks.len(),
        tasks[at].id == id,
        forall|i: int| 0 <= i < at ==> (#[trigger] tasks[i]).id != id,
    ensures
        tasks[at].retry_of_task_id is None ==> {
            &&& lineage_ends(tasks, id)
            &&& lineage_failures(tasks, id) == (if tasks[at].state == TaskState::Aborted {
                1nat
            } else {
                0nat
            })
        },
        tasks[at].retry_of_task_id matches Some(earlier) ==> {
            &&& lineage_ends(tasks, id) <==> lineage_ends(tasks, earlier)
            &&& lineage_ends(tasks, earlier) ==> lineage_failures(tasks, id) == lineage_failures(
                tasks,
                earlier,
            ) + (if tasks[at].state == TaskState::Aborted {
                1nat
            } else {
                0nat
            })
        },
{
    lemma_index(tasks, id);
    assert(index_of(tasks, id) == Some(at));
    match tasks[at].retry_of_task_id {
        None => {
            lemma_lineage_of_the_predecessor(tasks, id, at, 0);
            assert(ancestor(tasks, id, 1) is None);
            law_lineage_ends_within_the_list(tasks, id, 1);
        },
        Some(earlier) => {
            if lineage_ends(tasks, earlier) {
                let end = choose|end: nat| ancestor(tasks, earlier, end) is None;
                lemma_lineage_of_the_predecessor(tasks, id, at, end);
                assert(ancestor(tasks, id, end + 1) is None);
                law_lineage_ends_within_the_list(tasks, earlier, end);
                law_lineage_ends_within_the_list(tasks, id, end + 1);
            }
            if lineage_ends(tasks, id) {
                let end = choose|end: nat| ancestor(tasks, id, end) is None;
                assert(end > 0);
                lemma_lineage_of_the_predecessor(tasks, id, at, (end - 1) as nat);
                assert(((end - 1) as nat) + 1 == end);
                assert(ancestor(tasks, earlier, (end - 1) as nat) is None);
            }
        },
    }
}

/// A task that is not in the list has no failures.
pub proof fn law_unknown_task_has_not_failed(tasks: Seq<TaskView>, id: i64)
    requires
        forall|i: int| 0 <= i < tasks.len() ==> (#[trigger] tasks[i]).id != id,
    ensures
        lineage_ends(tasks, id),
        lineage_failures(tasks, id) == 0,
{
    lemma_index(tasks, id);
    assert(ancestor(tasks, id, 0) is None);
    law_lineage_ends_within_the_list(tasks, id, 0);
}

/// A task has failed as often as there are aborted tasks among the places of its lineage, however
/// long that is: a lineage of aborted tasks alone counts every one of them.
#[verifier::rlimit(40)]
pub proof fn law_failures_are_the_aborted_places(tasks: Seq<TaskView>, places: Seq<int>)
    requires
        places.len() > 0,
        forall|k: int|
            #![trigger places[k]]
            0 <= k < places.len() ==> {
                &&& 0 <= places[k] < tasks.len()
                &&& forall|i: int|
                    0 <= i < places[k] ==> (#[trigger] tasks[i]).id != tasks[places[k]].id
            },
        forall|k: int, next: int|
            #![trigger places[k], places[next]]
            0 <= k && next == k + 1 && next < places.len() ==> tasks[places[k]].retry_of_task_id
                == Some(tasks[places[next]].id),
        tasks[places[places.len() - 1]].retry_of_task_id is None,
    ensures
        lineage_ends(tasks, tasks[places[0]].id),
        lineage_failures(tasks, tasks[places[0]].id) == places.filter(
            |at: int| tasks[at].state == TaskState::Aborted,
        ).len(),
        (forall|k: int|
            0 <= k < places.len() ==> tasks[#[trigger] places[k]].state == TaskState::Aborted)
            ==> lineage_failures(tasks, tasks[places[0]].id) == places.len(),
    decreases places.len(),
{
    let aborted = |at: int| tasks[at].state == TaskState::Aborted;
    let first = places[0];
    let rest = places.drop_first();
    law_each_abort_counts_once(tasks, tasks[first].id, first);
    assert(places =~= seq![first] + rest);
    Seq::<int>::filter_distributes_over_add(seq![first], rest, aborted);
    assert(seq![first].filter(aborted).len() == (if aborted(first) {
        1nat
    } else {
        0nat
    })) by {
        reveal(Seq::filter);
        assert(seq![first].drop_last() =~= Seq::<int>::empty());
        assert(Seq::<int>::empty().filter(aborted).len() == 0);
    }
    if rest.len() > 0 {
        assert forall|k: int|
            #![trigger rest[k]]
            0 <= k < rest.len() implies {
            &&& 0 <= rest[k] < tasks.len()
            &&& forall|i: int|
                0 <= i < rest[k] ==> (#[trigger] tasks[i]).id != tasks[rest[k]].id
        } by {
            assert(rest[k] == places[k + 1]);
        }
        assert forall|k: int, next: int|
            #![trigger rest[k], rest[next]]
            0 <= k && next == k + 1 && next < rest.len() implies tasks[rest[k]].retry_of_task_id
            == Some(tasks[rest[next]].id) by {
            assert(rest[k] == places[k + 1]);
            assert(rest[next] == places[next + 1]);
        }
        assert(rest[rest.len() - 1] == places[places.len() - 1]);
        law_failures_are_the_aborted_places(tasks, rest);
        assert(rest[0] == places[1]);
        assert(tasks[places[0]].retry_of_task_id == Some(tasks[places[1]].id));
    } else {
        assert(tasks[places[0]].retry_of_task_id is None);
        assert(rest.filter(aborted).len() == 0) by {
            reveal(Seq::filter);
        }
    }
    if forall|k: int|
        0 <= k < places.len() ==> tasks[#[trigger] places[k]].state == TaskState::Aborted {
        assert forall|k: int| 0 <= k < rest.len() implies tasks[#[trigger] rest[k]].state
            == TaskState::Aborted by {
            assert(rest[k] == places[k + 1]);
        }
    }
}

/// A task can be aborted where it is known, the reason is not blank and it is neither accepted nor
/// aborted already; otherwise it cannot.
pub proof fn law_abort_needs_a_reason_and_an_open_task(
    task_id: i64,
    task: Option<TaskView>,
    reason: Seq<char>,
)
    ensures
        abort_refusal(task_id, task, reason) is None <==> {
            &&& task is Some
            &&& !is_blank(reason)
            &&& task->Some_0.state != TaskState::Accepted
            &&& task->Some_0.state != TaskState::Aborted
        },
{
}

/// The report of an abort ends with word for the human from the third failure on, and before that
/// with how to try again; in between it tells of a dirty tree, and of nothing where it is clean.
pub proof fn law_third_failure_is_for_the_human(
    task_id: i64,
    reason: Seq<char>,
    failures: i64,
    dirty: Seq<char>,
)
    ensures
        failures >= 3 ==> abort_lines(task_id, reason, failures, dirty).last()
            == "three aborts on the same task: escalate to the human"@,
        failures < 3 ==> abort_lines(task_id, reason, failures, dirty).last()
            == "adjust the task and retry with a fresh implementer: task new --retry-of "@
            + decimal(task_id as int) + " < task.md"@,
        abort_lines(task_id, reason, failures, dirty).len() == (if dirty.len() == 0 {
            2nat
        } else {
            3nat
        }),
        dirty.len() > 0 ==> abort_lines(task_id, reason, failures, dirty)[1]
            == "WARNING: tree is dirty — the implementer did not leave it clean:\n"@ + dirty,
        failures == 1 ==> abort_lines(task_id, reason, failures, dirty)[0] == "task "@ + decimal(
            task_id as int,
        ) + " aborted ("@ + decimal(1) + " abort in its lineage): "@ + reason,
        failures != 1 ==> abort_lines(task_id, reason, failures, dirty)[0] == "task "@ + decimal(
            task_id as int,
        ) + " aborted ("@ + decimal(failures as int) + " aborts in its lineage): "@ + reason,
{
    reveal_strlit(" abort");
    reveal_strlit("");
    reveal_strlit("s");
    reveal_strlit(" in its lineage): ");
    reveal_strlit(" abort in its lineage): ");
    reveal_strlit(" aborts in its lineage): ");
    let head = "task "@ + decimal(task_id as int) + " aborted ("@ + decimal(failures as int);
    assert(head + " abort"@ + ""@ + " in its lineage): "@ + reason =~= head
        + " abort in its lineage): "@ + reason);
    assert(head + " abort"@ + "s"@ + " in its lineage): "@ + reason =~= head
        + " aborts in its lineage): "@ + reason);
}

/// That a session was told of an abort is recorded as one thing, and that it could not be as another,
/// with why; both name the task and the session.
pub proof fn law_unreached_session_is_recorded_as_such(
    task_id: i64,
    name: Seq<char>,
    reach: AbortReach,
)
    ensures
        ({
            let event = reach_event(task_id, name, reach);
            let who = "task "@ + decimal(task_id as int) + " -> "@ + name;
            &&& event.kind == "abort-interrupt"@ <==> reach is Told
            &&& event.kind == "abort-unreachable"@ <==> !(reach is Told)
            &&& reach is Told ==> event.detail == who
            &&& reach matches AbortReach::NotInterrupted(error) ==> event.detail == who + ": "@
                + error@
            &&& reach is NotTold ==> event.detail == who + ": abort message did not reach "@ + name
        }),
{
    reveal_strlit("abort-interrupt");
    reveal_strlit("abort-unreachable");
    reveal_strlit(": ");
    reveal_strlit("abort message did not reach ");
    reveal_strlit(": abort message did not reach ");
    assert("abort-interrupt"@.len() != "abort-unreachable"@.len());
    let who = "task "@ + decimal(task_id as int) + " -> "@ + name;
    assert(who + ": "@ + "abort message did not reach "@ + name =~= who
        + ": abort message did not reach "@ + name);
}

/// A task that is not known is told as such before anything else, then a blank reason, and last a
/// task that is at its end, with the state it ended in.
pub proof fn law_abort_is_refused_in_words(task_id: i64, task: TaskView, reason: Seq<char>)
    ensures
        abort_refusal(task_id, None, reason) == Some(
            "supervisor: no task "@ + decimal(task_id as int),
        ),
        is_blank(reason) ==> abort_refusal(task_id, Some(task), reason) == Some(
            "supervisor: abort requires a non-empty --reason"@,
        ),
        !is_blank(reason) && task.state == TaskState::Accepted ==> abort_refusal(
            task_id,
            Some(task),
            reason,
        ) == Some(
            "supervisor: task "@ + decimal(task_id as int) + " is already "@ + "accepted"@,
        ),
        !is_blank(reason) && task.state == TaskState::Aborted ==> abort_refusal(
            task_id,
            Some(task),
            reason,
        ) == Some("supervisor: task "@ + decimal(task_id as int) + " is already "@ + "aborted"@),
{
}

} // verus!
