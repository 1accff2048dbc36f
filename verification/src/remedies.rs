//! What the lead may record by force, to remedy a failure of the coordinator.

use vstd::prelude::*;
use vstd::string::*;

use crate::error::{refuse, refused, Error};
use crate::events::{Event, EventView, Outcome, OutcomeView};
use crate::number::{decimal, decimal_text};
use crate::task::{opt_task, tasks_view, Task, TaskState, TaskView};
use crate::text::{blank, is_blank, opt_str, same, starts_with, to_chars};

verus! {

/// What a command that only remedies failures says of itself.
pub open spec fn remedy_only() -> Seq<char> {
    "normally the coordinator records this on its own; use --force --reason only to remedy a coordinator failure"@
}

/// Why a record cannot be forced: it takes `--force` and a reason.
pub open spec fn force_refusal(
    command: Seq<char>,
    force: bool,
    reason: Option<Seq<char>>,
) -> Option<
    Seq<char>,
> {
    match (force, reason) {
        (true, Some(reason)) if !is_blank(reason) => None,
        (true, _) => Some("supervisor: "@ + command + " --force requires a non-empty --reason"@),
        (false, Some(_)) => Some(
            "supervisor: --reason only applies with --force; "@ + remedy_only(),
        ),
        (false, None) => Some("supervisor: "@ + remedy_only()),
    }
}

/// The reason for which a record is forced.
pub fn forced_remedy_reason<'a>(command: &str, force: bool, reason: Option<&'a str>) -> (r: Result<
    &'a str,
    Error,
>)
    ensures
        match force_refusal(command@, force, opt_str(reason)) {
            Some(message) => refused(r, message),
            None => r matches Ok(found) && reason == Some(found),
        },
{
    match (force, reason) {
        (true, Some(reason)) => {
            if blank(reason) {
                refuse(
                    "supervisor: ".to_owned().concat(command).concat(
                        " --force requires a non-empty --reason",
                    ),
                )
            } else {
                Ok(reason)
            }
        },
        (true, None) => refuse(
            "supervisor: ".to_owned().concat(command).concat(
                " --force requires a non-empty --reason",
            ),
        ),
        (false, Some(_)) => refuse(
            "supervisor: --reason only applies with --force; ".to_owned().concat(
                "normally the coordinator records this on its own; use --force --reason only to remedy a coordinator failure",
            ),
        ),
        (false, None) => refuse(
            "supervisor: ".to_owned().concat(
                "normally the coordinator records this on its own; use --force --reason only to remedy a coordinator failure",
            ),
        ),
    }
}

/// What is said where there is no task with this number.
pub open spec fn no_task(task_id: i64) -> Seq<char> {
    "supervisor: no task "@ + decimal(task_id as int)
}

/// What is said where there is no task with this number.
pub fn no_task_text(task_id: i64) -> (r: String)
    ensures
        r@ == no_task(task_id),
{
    "supervisor: no task ".to_owned().concat(decimal_text(task_id).as_str())
}

/// The task with this number, where it was found.
pub fn require_task<'a>(task: Option<&'a Task>, task_id: i64) -> (r: Result<&'a Task, Error>)
    ensures
        match task {
            Some(found) => r == Ok::<&'a Task, Error>(found),
            None => refused(r, no_task(task_id)),
        },
{
    match task {
        Some(found) => Ok(found),
        None => refuse(no_task_text(task_id)),
    }
}

/// What is said of a task whose state does not allow what was asked.
pub open spec fn wrong_state(task_id: i64, state: TaskState, rest: Seq<char>) -> Seq<char> {
    "supervisor: task "@ + decimal(task_id as int) + " is "@ + state.name() + rest
}

/// What is said of a task whose state does not allow what was asked.
pub fn wrong_state_text(task_id: i64, state: TaskState, rest: &str) -> (r: String)
    ensures
        r@ == wrong_state(task_id, state, rest@),
{
    "supervisor: task ".to_owned().concat(decimal_text(task_id).as_str()).concat(" is ").concat(
        state.as_str(),
    ).concat(rest)
}

/// Why a commit cannot be recorded by force for a task, before the commit is looked at.
pub open spec fn record_commit_refusal(
    task_id: i64,
    task: Option<TaskView>,
    force: bool,
    reason: Option<Seq<char>>,
) -> Option<Seq<char>> {
    match task {
        None => Some(no_task(task_id)),
        Some(task) => if force_refusal("task record-commit"@, force, reason) is Some {
            force_refusal("task record-commit"@, force, reason)
        } else if !task.state.is_out() {
            Some(wrong_state(task_id, task.state, ", not awaiting a coordinator-recorded commit"@))
        } else {
            None
        },
    }
}

/// The reason for which a commit is recorded by force for a task, where that may be.
pub fn check_record_commit<'a>(
    task_id: i64,
    task: Option<&Task>,
    force: bool,
    reason: Option<&'a str>,
) -> (r: Result<&'a str, Error>)
    ensures
        match record_commit_refusal(task_id, opt_task(task), force, opt_str(reason)) {
            Some(message) => refused(r, message),
            None => r matches Ok(found) && reason == Some(found),
        },
{
    let task = require_task(task, task_id)?;
    let reason = forced_remedy_reason("task record-commit", force, reason)?;
    if !task.state.out() {
        return refuse(
            wrong_state_text(task_id, task.state, ", not awaiting a coordinator-recorded commit"),
        );
    }
    Ok(reason)
}

/// Whether `c` is a digit of a commit's name.
pub open spec fn is_hex(c: char) -> bool {
    '0' <= c <= '9' || 'a' <= c <= 'f'
}

/// Whether `sha` can name a commit: seven to forty hexadecimal digits.
pub open spec fn names_a_commit(sha: Seq<char>) -> bool {
    &&& 7 <= sha.len() <= 40
    &&& forall|i: int| 0 <= i < sha.len() ==> is_hex(#[trigger] sha[i])
}

/// Whether `sha` can name a commit.
pub fn is_commit_name(sha: &str) -> (r: bool)
    ensures
        r == names_a_commit(sha@),
{
    let chars = to_chars(sha);
    if chars.len() < 7 || chars.len() > 40 {
        return false;
    }
    let mut i: usize = 0;
    while i < chars.len()
        invariant
            i <= chars@.len(),
            chars@ == sha@,
            forall|j: int| 0 <= j < i ==> is_hex(#[trigger] sha@[j]),
        decreases chars.len() - i,
    {
        let c = chars[i];
        if !(('0' <= c && c <= '9') || ('a' <= c && c <= 'f')) {
            return false;
        }
        i += 1;
    }
    true
}

/// The revision that git is asked for, so that it answers with a commit's full name.
pub fn commit_revision(sha: &str) -> (r: Option<String>)
    ensures
        match r {
            Some(revision) => names_a_commit(sha@) && revision@ == sha@ + "^{commit}"@,
            None => !names_a_commit(sha@),
        },
{
    if is_commit_name(sha) {
        Some(sha.to_owned().concat("^{commit}"))
    } else {
        None
    }
}

/// The first task besides `task_id` whose recorded commit `commit` is.
pub open spec fn owner_of(tasks: Seq<TaskView>, task_id: i64, commit: Seq<char>) -> Option<i64>
    decreases tasks.len(),
{
    if tasks.len() == 0 {
        None
    } else if tasks[0].id != task_id && (tasks[0].commit_sha matches Some(recorded)
        && recorded.is_prefix_of(commit)) {
        Some(tasks[0].id)
    } else {
        owner_of(tasks.drop_first(), task_id, commit)
    }
}

fn find_owner(tasks: &Vec<Task>, task_id: i64, commit: &str) -> (r: Option<i64>)
    ensures
        r == owner_of(tasks_view(tasks@), task_id, commit@),
{
    let ghost all = tasks_view(tasks@);
    let mut i: usize = 0;
    assert(all.skip(0) == all);
    while i < tasks.len()
        invariant
            i <= tasks@.len(),
            all == tasks_view(tasks@),
            owner_of(all.skip(i as int), task_id, commit@) == owner_of(all, task_id, commit@),
        decreases tasks.len() - i,
    {
        assert(all.skip(i as int)[0] == tasks@[i as int]@);
        assert(all.skip(i as int).drop_first() == all.skip(i + 1));
        if tasks[i].id != task_id {
            if let Some(recorded) = &tasks[i].commit_sha {
                if starts_with(commit, recorded.as_str()) {
                    return Some(tasks[i].id);
                }
            }
        }
        i += 1;
    }
    None
}

/// What git says of a commit that is to be recorded by force.
pub struct CommitFactsView {
    /// Its full name, where it exists.
    pub canonical: Option<Seq<char>>,
    /// The full name of the task's base, where that exists.
    pub canonical_base: Option<Seq<char>>,
    /// Whether it descends from the task's base.
    pub descends: bool,
}

/// Why this commit cannot be recorded for a task.
pub open spec fn commit_refusal(
    task: TaskView,
    sha: Seq<char>,
    facts: CommitFactsView,
    tasks: Seq<TaskView>,
) -> Option<Seq<char>> {
    match facts.canonical {
        None => Some("supervisor: commit "@ + sha + " does not exist in the run repository"@),
        Some(commit) => match owner_of(tasks, task.id, commit) {
            Some(owner) => Some(
                "supervisor: commit "@ + sha + " is already recorded for task "@ + decimal(
                    owner as int,
                ),
            ),
            None => if task.base_head is None {
                Some(
                    "supervisor: task "@ + decimal(task.id as int)
                        + " has no base_head to validate the commit against"@,
                )
            } else if commit == (match facts.canonical_base {
                Some(base) => base,
                None => Seq::empty(),
            }) || !facts.descends {
                Some(
                    "supervisor: commit "@ + sha + " does not descend from task "@ + decimal(
                        task.id as int,
                    ) + "'s base_head as a new commit"@,
                )
            } else {
                None
            },
        },
    }
}

/// Whether a commit may be recorded for a task, given what git says of it.
pub fn check_new_commit(
    task: &Task,
    sha: &str,
    canonical: Option<&str>,
    canonical_base: Option<&str>,
    descends: bool,
    tasks: &Vec<Task>,
) -> (r: Result<(), Error>)
    ensures
        match commit_refusal(
            task@,
            sha@,
            CommitFactsView {
                canonical: opt_str(canonical),
                canonical_base: opt_str(canonical_base),
                descends,
            },
            tasks_view(tasks@),
        ) {
            Some(message) => refused(r, message),
            None => r is Ok,
        },
{
    let commit = match canonical {
        Some(commit) => commit,
        None => {
            return refuse(
                "supervisor: commit ".to_owned().concat(sha).concat(
                    " does not exist in the run repository",
                ),
            );
        },
    };
    if let Some(owner) = find_owner(tasks, task.id, commit) {
        return refuse(
            "supervisor: commit ".to_owned().concat(sha).concat(
                " is already recorded for task ",
            ).concat(decimal_text(owner).as_str()),
        );
    }
    if task.base_head.is_none() {
        return refuse(
            "supervisor: task ".to_owned().concat(decimal_text(task.id).as_str()).concat(
                " has no base_head to validate the commit against",
            ),
        );
    }
    proof {
        reveal_strlit("");
        assert(""@ == Seq::<char>::empty());
    }
    let base = match canonical_base {
        Some(base) => base,
        None => "",
    };
    if same(commit, base) || !descends {
        return refuse(
            "supervisor: commit ".to_owned().concat(sha).concat(
                " does not descend from task ",
            ).concat(decimal_text(task.id).as_str()).concat("'s base_head as a new commit"),
        );
    }
    Ok(())
}

/// What a commit recorded by force is recorded as, and how it is told.
pub fn forced_commit(task_id: i64, sha: &str, reason: &str) -> (r: Outcome)
    ensures
        r@ == (OutcomeView {
            event: EventView {
                kind: "forced-commit"@,
                detail: "task "@ + decimal(task_id as int) + " "@ + sha@ + ": "@ + reason@,
            },
            line: "task "@ + decimal(task_id as int) + " commit recorded by force: "@ + sha@,
        }),
{
    let id = decimal_text(task_id);
    let detail = "task ".to_owned().concat(id.as_str()).concat(" ").concat(sha).concat(": ").concat(
        reason,
    );
    let line = "task ".to_owned().concat(id.as_str()).concat(
        " commit recorded by force: ",
    ).concat(sha);
    Outcome { event: Event::new("forced-commit", detail), line }
}

/// A commit that may be recorded exists, is new on top of the task's base, and is no other task's.
pub proof fn law_recorded_commit_is_new_and_unshared(
    task: TaskView,
    sha: Seq<char>,
    facts: CommitFactsView,
    tasks: Seq<TaskView>,
)
    requires
        commit_refusal(task, sha, facts, tasks) is None,
    ensures
        facts.canonical is Some,
        facts.descends,
        facts.canonical != facts.canonical_base,
        forall|i: int|
            0 <= i < tasks.len() && (#[trigger] tasks[i]).id != task.id ==> !(
            tasks[i].commit_sha matches Some(recorded) && recorded.is_prefix_of(
                facts.canonical->Some_0,
            )),
{
    lemma_no_owner(tasks, task.id, facts.canonical->Some_0);
}

proof fn lemma_no_owner(tasks: Seq<TaskView>, task_id: i64, commit: Seq<char>)
    requires
        owner_of(tasks, task_id, commit) is None,
    ensures
        forall|i: int|
            0 <= i < tasks.len() && (#[trigger] tasks[i]).id != task_id ==> !(
            tasks[i].commit_sha matches Some(recorded) && recorded.is_prefix_of(commit)),
    decreases tasks.len(),
{
    if tasks.len() > 0 {
        let rest = tasks.drop_first();
        lemma_no_owner(rest, task_id, commit);
        assert forall|i: int| 0 <= i < tasks.len() && (#[trigger] tasks[i]).id != task_id implies !(
        tasks[i].commit_sha matches Some(recorded) && recorded.is_prefix_of(commit)) by {
            if i > 0 {
                assert(tasks[i] == rest[i - 1]);
            }
        }
    }
}

/// Why the delivery of commentary on a task cannot be recorded by force.
pub open spec fn record_commentary_refusal(
    task_id: i64,
    task: Option<TaskView>,
    force: bool,
    reason: Option<Seq<char>>,
) -> Option<Seq<char>> {
    match task {
        None => Some(no_task(task_id)),
        Some(task) => if force_refusal("task record-commentary"@, force, reason) is Some {
            force_refusal("task record-commentary"@, force, reason)
        } else if !awaits_commentary(task) {
            Some(wrong_state(task_id, task.state, ", not ready for commentary delivery"@))
        } else {
            None
        },
    }
}

/// Whether a task has a commit that the commentator is to review.
pub open spec fn awaits_commentary(task: TaskView) -> bool {
    (task.state == TaskState::CommittedUnverified || task.state == TaskState::Accepted)
        && task.commit_sha is Some
}

/// Whether a task has a commit that the commentator is to review.
pub fn ready_for_commentary(task: &Task) -> (r: bool)
    ensures
        r == awaits_commentary(task@),
{
    (task.state == TaskState::CommittedUnverified || task.state == TaskState::Accepted)
        && task.commit_sha.is_some()
}

/// The reason for which the delivery of commentary on a task is recorded by force, where that may
/// be.
pub fn check_record_commentary<'a>(
    task_id: i64,
    task: Option<&Task>,
    force: bool,
    reason: Option<&'a str>,
) -> (r: Result<&'a str, Error>)
    ensures
        match record_commentary_refusal(task_id, opt_task(task), force, opt_str(reason)) {
            Some(message) => refused(r, message),
            None => r matches Ok(found) && reason == Some(found),
        },
{
    let task = require_task(task, task_id)?;
    let reason = forced_remedy_reason("task record-commentary", force, reason)?;
    if !ready_for_commentary(task) {
        return refuse(
            wrong_state_text(task_id, task.state, ", not ready for commentary delivery"),
        );
    }
    Ok(reason)
}

/// What commentary recorded by force is recorded as, and how it is told, unless its delivery was on
/// record before.
pub fn forced_commentary(task_id: i64, reason: &str, recorded: bool) -> (r: Result<Outcome, Error>)
    ensures
        if recorded {
            r matches Ok(outcome) && outcome@ == (OutcomeView {
                event: EventView {
                    kind: "forced-commentary"@,
                    detail: "task "@ + decimal(task_id as int) + ": "@ + reason@,
                },
                line: "task "@ + decimal(task_id as int)
                    + " commentary delivery recorded by force"@,
            })
        } else {
            refused(
                r,
                "supervisor: commentary delivery is already recorded for task "@ + decimal(
                    task_id as int,
                ),
            )
        },
{
    let id = decimal_text(task_id);
    if !recorded {
        return refuse(
            "supervisor: commentary delivery is already recorded for task ".to_owned().concat(
                id.as_str(),
            ),
        );
    }
    let detail = "task ".to_owned().concat(id.as_str()).concat(": ").concat(reason);
    let line = "task ".to_owned().concat(id.as_str()).concat(
        " commentary delivery recorded by force",
    );
    Ok(Outcome { event: Event::new("forced-commentary", detail), line })
}

/// A record is forced exactly where that was asked for and a reason was given that is not blank.
pub proof fn law_force_needs_a_reason(
    command: Seq<char>,
    force: bool,
    reason: Option<Seq<char>>,
)
    ensures
        force_refusal(command, force, reason) is None <==> force && reason is Some && !is_blank(
            reason->Some_0,
        ),
{
}

/// A commit is recorded by force only for a task that is dispatched or in flight, and commentary
/// only for one that is committed or accepted and has a commit; both only by force and for a reason.
pub proof fn law_records_are_forced_in_their_state(
    task_id: i64,
    task: Option<TaskView>,
    force: bool,
    reason: Option<Seq<char>>,
)
    ensures
        record_commit_refusal(task_id, task, force, reason) is None <==> {
            &&& task is Some
            &&& force
            &&& reason is Some
            &&& !is_blank(reason->Some_0)
            &&& task->Some_0.state == TaskState::Dispatched || task->Some_0.state
                == TaskState::InFlight
        },
        record_commentary_refusal(task_id, task, force, reason) is None <==> {
            &&& task is Some
            &&& force
            &&& reason is Some
            &&& !is_blank(reason->Some_0)
            &&& task->Some_0.state == TaskState::CommittedUnverified || task->Some_0.state
                == TaskState::Accepted
            &&& task->Some_0.commit_sha is Some
        },
        task is None ==> record_commit_refusal(task_id, task, force, reason) == Some(
            no_task(task_id),
        ) && record_commentary_refusal(task_id, task, force, reason) == Some(no_task(task_id)),
{
}

/// A commit's name has seven to forty characters, each a decimal digit or a small letter from a to
/// f; whatever has is a commit's name.
pub proof fn law_commit_is_named_in_hexadecimal(sha: Seq<char>)
    ensures
        names_a_commit(sha) <==> {
            &&& sha.len() > 6
            &&& sha.len() < 41
            &&& forall|i: int|
                0 <= i < sha.len() ==> (48 <= (#[trigger] sha[i]) as int <= 57) || (97
                    <= sha[i] as int <= 102)
        },
{
    if forall|i: int|
        0 <= i < sha.len() ==> (48 <= (#[trigger] sha[i]) as int <= 57) || (97 <= sha[i] as int
            <= 102) {
        assert forall|i: int| 0 <= i < sha.len() implies is_hex(#[trigger] sha[i]) by {}
    }
    if names_a_commit(sha) {
        assert forall|i: int| 0 <= i < sha.len() implies (48 <= (#[trigger] sha[i]) as int <= 57)
            || (97 <= sha[i] as int <= 102) by {
            assert(is_hex(sha[i]));
        }
    }
}

/// A commit belongs to the first other task whose recorded commit its name begins with, and to no
/// task where there is none.
pub proof fn law_commit_belongs_to_the_first_other_task(
    tasks: Seq<TaskView>,
    task_id: i64,
    commit: Seq<char>,
    at: int,
)
    requires
        0 <= at <= tasks.len(),
        forall|j: int|
            0 <= j < at ==> (#[trigger] tasks[j]).id == task_id || tasks[j].commit_sha is None || !(
            tasks[j].commit_sha->Some_0.len() <= commit.len() && commit.take(
                tasks[j].commit_sha->Some_0.len() as int,
            ) == tasks[j].commit_sha->Some_0),
        at < tasks.len() ==> {
            &&& tasks[at].id != task_id
            &&& tasks[at].commit_sha is Some
            &&& tasks[at].commit_sha->Some_0.len() <= commit.len()
            &&& commit.take(tasks[at].commit_sha->Some_0.len() as int)
                == tasks[at].commit_sha->Some_0
        },
    ensures
        owner_of(tasks, task_id, commit) == (if at < tasks.len() {
            Some(tasks[at].id)
        } else {
            None
        }),
    decreases tasks.len(),
{
    if tasks.len() > 0 {
        if at > 0 {
            let rest = tasks.drop_first();
            assert(forall|j: int| 0 < j < tasks.len() ==> #[trigger] tasks[j] == rest[j - 1]);
            assert forall|j: int| 0 <= j < at - 1 implies (#[trigger] rest[j]).id == task_id
                || rest[j].commit_sha is None || !(rest[j].commit_sha->Some_0.len() <= commit.len()
                && commit.take(rest[j].commit_sha->Some_0.len() as int)
                == rest[j].commit_sha->Some_0) by {
                assert(rest[j] == tasks[j + 1]);
            }
            law_commit_belongs_to_the_first_other_task(rest, task_id, commit, at - 1);
            assert(tasks[0].id == task_id || tasks[0].commit_sha is None || !(
            tasks[0].commit_sha->Some_0.is_prefix_of(commit)));
        }
    }
}

/// A commit is recorded exactly where git knows it, no other task's recorded commit begins its name,
/// the task has a base, and the commit is not that base and descends from it.
pub proof fn law_commit_is_refused_for_these_reasons_only(
    task: TaskView,
    sha: Seq<char>,
    facts: CommitFactsView,
    tasks: Seq<TaskView>,
)
    ensures
        commit_refusal(task, sha, facts, tasks) is None <==> {
            &&& facts.canonical is Some
            &&& owner_of(tasks, task.id, facts.canonical->Some_0) is None
            &&& task.base_head is Some
            &&& facts.canonical_base is Some ==> facts.canonical->Some_0
                != facts.canonical_base->Some_0
            &&& facts.canonical_base is None ==> facts.canonical->Some_0.len() > 0
            &&& facts.descends
        },
{
    if let Some(commit) = facts.canonical {
        if commit.len() == 0 {
            assert(commit =~= Seq::empty());
        }
    }
}

/// A task awaits commentary exactly where it is committed or accepted and its commit is recorded.
pub proof fn law_commentary_is_for_commits(task: TaskView)
    ensures
        task.commit_sha is None ==> !awaits_commentary(task),
        task.commit_sha is Some ==> (awaits_commentary(task) <==> task.state
            == TaskState::CommittedUnverified || task.state == TaskState::Accepted),
{
}

/// Records that cannot be forced are refused in words: a task that is not known first, then force
/// without a reason, a reason without force, and neither; and last the state of the task.
pub proof fn law_records_are_refused_in_words(
    command: Seq<char>,
    task_id: i64,
    task: TaskView,
    reason: Seq<char>,
)
    ensures
        is_blank(reason) ==> force_refusal(command, true, Some(reason)) == Some(
            "supervisor: "@ + command + " --force requires a non-empty --reason"@,
        ),
        force_refusal(command, true, None) == Some(
            "supervisor: "@ + command + " --force requires a non-empty --reason"@,
        ),
        force_refusal(command, false, Some(reason)) == Some(
            "supervisor: --reason only applies with --force; "@ + remedy_only(),
        ),
        force_refusal(command, false, None) == Some("supervisor: "@ + remedy_only()),
        record_commit_refusal(task_id, Some(task), false, None) == force_refusal(
            "task record-commit"@,
            false,
            None,
        ),
        record_commentary_refusal(task_id, Some(task), false, None) == force_refusal(
            "task record-commentary"@,
            false,
            None,
        ),
        record_commit_refusal(task_id, Some(task), true, None) == force_refusal(
            "task record-commit"@,
            true,
            None,
        ),
        record_commentary_refusal(task_id, Some(task), true, None) == force_refusal(
            "task record-commentary"@,
            true,
            None,
        ),
        no_task(task_id) == "supervisor: no task "@ + decimal(task_id as int),
        !is_blank(reason) && task.state != TaskState::Dispatched && task.state
            != TaskState::InFlight ==> record_commit_refusal(
            task_id,
            Some(task),
            true,
            Some(reason),
        ) == Some(
            "supervisor: task "@ + decimal(task_id as int) + " is "@ + task.state.name()
                + ", not awaiting a coordinator-recorded commit"@,
        ),
        !is_blank(reason) && task.commit_sha is None ==> record_commentary_refusal(
            task_id,
            Some(task),
            true,
            Some(reason),
        ) == Some(
            "supervisor: task "@ + decimal(task_id as int) + " is "@ + task.state.name()
                + ", not ready for commentary delivery"@,
        ),
{
}

/// A commit that cannot be recorded is refused in words: one that git does not know first, then one
/// that is another task's, with that task, then a task without a base, and last a commit that is
/// not new on top of the base.
pub proof fn law_commit_is_refused_in_words(
    task: TaskView,
    sha: Seq<char>,
    facts: CommitFactsView,
    tasks: Seq<TaskView>,
)
    ensures
        facts.canonical is None ==> commit_refusal(task, sha, facts, tasks) == Some(
            "supervisor: commit "@ + sha + " does not exist in the run repository"@,
        ),
        facts.canonical matches Some(commit) ==> {
            &&& owner_of(tasks, task.id, commit) matches Some(owner) ==> commit_refusal(
                task,
                sha,
                facts,
                tasks,
            ) == Some(
                "supervisor: commit "@ + sha + " is already recorded for task "@ + decimal(
                    owner as int,
                ),
            )
            &&& owner_of(tasks, task.id, commit) is None && task.base_head is None
                ==> commit_refusal(task, sha, facts, tasks) == Some(
                "supervisor: task "@ + decimal(task.id as int)
                    + " has no base_head to validate the commit against"@,
            )
            &&& owner_of(tasks, task.id, commit) is None && task.base_head is Some && (
            facts.canonical_base == Some(commit) || !facts.descends) ==> commit_refusal(
                task,
                sha,
                facts,
                tasks,
            ) == Some(
                "supervisor: commit "@ + sha + " does not descend from task "@ + decimal(
                    task.id as int,
                ) + "'s base_head as a new commit"@,
            )
        },
{
}

} // verus!
