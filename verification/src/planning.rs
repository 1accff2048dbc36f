//! New tasks, and handing them to implementers.

use vstd::prelude::*;
use vstd::string::*;

use crate::error::{refuse, refused, Error};
use crate::events::{Event, EventView};
use crate::number::{decimal, decimal_text};
use crate::session::{opt_session, sessions_view, Role, Session, SessionView};
use crate::task::{
    find_out, first_out, last_task_on, last_undrafted, law_first_task_that_is_out,
    law_last_task_past_its_draft, lemma_first_out, opt_task, tasks_view, Task, TaskState, TaskView,
};
use crate::text::{
    blank, is_blank, join, joined, law_line_is_what_stands_before_its_ending, law_lines_read_back,
    law_separator_ends_a_piece, law_trimming_takes_only_the_white_space_around, lines, lines_of,
    opt_str, pieces, split, texts, trim, trim_end, trimmed, trimmed_end,
};

verus! {

/// The names among `parts`: each without the white space around it, those that are nothing else
/// left out.
pub open spec fn names_among(parts: Seq<Seq<char>>) -> Seq<Seq<char>>
    decreases parts.len(),
{
    if parts.len() == 0 {
        Seq::empty()
    } else if trimmed(parts.last()).len() == 0 {
        names_among(parts.drop_last())
    } else {
        names_among(parts.drop_last()).push(trimmed(parts.last()))
    }
}

/// The file names in a list with commas between them.
pub open spec fn file_names(list: Seq<char>) -> Seq<Seq<char>> {
    names_among(pieces(list, ','))
}

/// The file names in a list with commas between them.
pub fn split_file_names(list: &str) -> (r: Vec<String>)
    ensures
        texts(r@) == file_names(list@),
{
    let parts = split(list, ',');
    let ghost all = texts(parts@);
    let mut names: Vec<String> = Vec::new();
    let mut i: usize = 0;
    assert(texts(names@) == names_among(all.take(0)));
    while i < parts.len()
        invariant
            i <= parts@.len(),
            all == texts(parts@),
            texts(names@) == names_among(all.take(i as int)),
        decreases parts.len() - i,
    {
        let ghost before = names@;
        let name = trim(parts[i].as_str());
        assert(all.take(i + 1).drop_last() == all.take(i as int));
        assert(all.take(i + 1).last() == parts@[i as int]@);
        if !name.as_str().is_empty() {
            names.push(name);
            assert(texts(names@) == texts(before).push(name@));
        }
        i += 1;
    }
    assert(all.take(parts@.len() as int) == all);
    names
}

/// A count as an `i64`; the largest one where it is larger still.
pub open spec fn as_count(n: nat) -> int {
    if n <= i64::MAX {
        n as int
    } else {
        i64::MAX as int
    }
}

fn count_of(list: &Vec<String>) -> (r: i64)
    ensures
        r == as_count(list@.len()),
{
    if list.len() as u64 <= 0x7fff_ffff_ffff_ffff {
        list.len() as i64
    } else {
        i64::MAX
    }
}

/// What `task new` was told.
pub struct NewTaskView {
    pub text: Seq<char>,
    pub retry_of: Option<i64>,
    /// The task that is to be retried, where there is one with that number.
    pub predecessor: Option<TaskView>,
    pub files: Option<Seq<char>>,
    pub predicted_files: Option<i64>,
    pub reason: Option<Seq<char>>,
}

impl NewTaskView {
    /// The files that the task was said to touch.
    pub open spec fn names(self) -> Seq<Seq<char>> {
        file_names(
            match self.files {
                Some(files) => files,
                None => Seq::empty(),
            },
        )
    }

    /// What is wrong with the task that is to be retried.
    pub open spec fn retry_refusal(self) -> Option<Seq<char>> {
        match self.retry_of {
            None => None,
            Some(id) => match self.predecessor {
                Some(task) if task.state == TaskState::Aborted => None,
                Some(task) if task.state.is_out() => if self.reason matches Some(reason)
                    && !is_blank(reason) {
                    None
                } else {
                    Some(
                        "supervisor: --retry-of "@ + decimal(id as int)
                            + " requires a non-empty --reason while the predecessor is "@
                            + task.state.name(),
                    )
                },
                _ => Some(
                    "supervisor: --retry-of "@ + decimal(id as int)
                        + " is not aborted, dispatched, or in flight"@,
                ),
            },
        }
    }

    /// What is wrong with the prediction of how many files the task touches.
    pub open spec fn prediction_refusal(self) -> Option<Seq<char>> {
        let count = as_count(self.names().len());
        match self.predicted_files {
            Some(predicted) => if count > 0 && predicted != count {
                Some(
                    "supervisor: --predicted-files "@ + decimal(predicted as int)
                        + " disagrees with --files ("@ + decimal(count)
                        + " names); give one or the other"@,
                )
            } else {
                None
            },
            None => if count == 0 {
                Some("supervisor: task new needs --files a,b,c or --predicted-files N"@)
            } else {
                None
            },
        }
    }

    /// Why there can be no such task.
    pub open spec fn refusal(self) -> Option<Seq<char>> {
        if is_blank(self.text) {
            Some("supervisor: task text on stdin is empty"@)
        } else if self.retry_refusal() is Some {
            self.retry_refusal()
        } else {
            self.prediction_refusal()
        }
    }

    /// The task that is to be aborted before this one takes its place, and why.
    pub open spec fn aborts(self) -> Option<(i64, Seq<char>)> {
        match (self.retry_of, self.predecessor, self.reason) {
            (Some(id), Some(task), Some(reason)) => if task.state.is_out() {
                Some((id, reason))
            } else {
                None
            },
            _ => None,
        }
    }
}

/// A task that may be created.
#[derive(Debug)]
pub struct NewTask {
    /// The task that is to be aborted first, and why.
    pub aborts: Option<(i64, String)>,
    pub predicted_files: i64,
    /// The files it is said to touch, where they were named.
    pub file_list: Option<Vec<String>>,
}

fn retry_needs_reason(id: i64, state: TaskState) -> (r: String)
    ensures
        r@ == "supervisor: --retry-of "@ + decimal(id as int)
            + " requires a non-empty --reason while the predecessor is "@ + state.name(),
{
    "supervisor: --retry-of ".to_owned().concat(decimal_text(id).as_str()).concat(
        " requires a non-empty --reason while the predecessor is ",
    ).concat(state.as_str())
}

/// What `task new` is to do, or why it cannot.
pub fn plan_task_new(
    text: &str,
    retry_of_task_id: Option<i64>,
    predecessor: Option<&Task>,
    files: Option<&str>,
    predicted_files: Option<i64>,
    reason: Option<&str>,
) -> (r: Result<NewTask, Error>)
    ensures
        ({
            let told = NewTaskView {
                text: text@,
                retry_of: retry_of_task_id,
                predecessor: opt_task(predecessor),
                files: opt_str(files),
                predicted_files,
                reason: opt_str(reason),
            };
            match told.refusal() {
                Some(message) => refused(r, message),
                None => r matches Ok(plan) && {
                    &&& told.aborts() == (match plan.aborts {
                        Some((id, reason)) => Some((id, reason@)),
                        None => None,
                    })
                    &&& match plan.file_list {
                        Some(list) => texts(list@) == told.names() && list@.len() > 0
                            && plan.predicted_files == as_count(list@.len()),
                        None => told.names().len() == 0 && predicted_files == Some(
                            plan.predicted_files,
                        ),
                    }
                },
            }
        }),
{
    if blank(text) {
        return refuse("supervisor: task text on stdin is empty".to_owned());
    }
    let mut aborts: Option<(i64, String)> = None;
    if let Some(id) = retry_of_task_id {
        let state = match predecessor {
            Some(task) => task.state,
            None => TaskState::Drafted,
        };
        if state.out() {
            match reason {
                Some(reason) => {
                    if blank(reason) {
                        return refuse(retry_needs_reason(id, state));
                    }
                    aborts = Some((id, reason.to_owned()));
                },
                None => {
                    return refuse(retry_needs_reason(id, state));
                },
            }
        } else if state != TaskState::Aborted {
            return refuse(
                "supervisor: --retry-of ".to_owned().concat(decimal_text(id).as_str()).concat(
                    " is not aborted, dispatched, or in flight",
                ),
            );
        }
    }
    let names = split_file_names(
        match files {
            Some(files) => files,
            None => "",
        },
    );
    proof {
        reveal_strlit("");
        assert(""@ == Seq::<char>::empty());
        assert(texts(names@).len() == names@.len());
    }
    if names.len() > 0 {
        let count = count_of(&names);
        if let Some(predicted) = predicted_files {
            if predicted != count {
                return refuse(
                    "supervisor: --predicted-files ".to_owned().concat(
                        decimal_text(predicted).as_str(),
                    ).concat(" disagrees with --files (").concat(
                        decimal_text(count).as_str(),
                    ).concat(" names); give one or the other"),
                );
            }
        }
        Ok(NewTask { aborts, predicted_files: count, file_list: Some(names) })
    } else {
        match predicted_files {
            Some(predicted_files) => Ok(NewTask { aborts, predicted_files, file_list: None }),
            None => refuse(
                "supervisor: task new needs --files a,b,c or --predicted-files N".to_owned(),
            ),
        }
    }
}

/// The name of the session with this number; a dash where there is none.
pub open spec fn name_of(sessions: Seq<SessionView>, id: Option<i64>) -> Seq<char>
    decreases sessions.len(),
{
    match id {
        None => "-"@,
        Some(number) => if sessions.len() == 0 {
            "-"@
        } else if sessions[0].id == number {
            sessions[0].name
        } else {
            name_of(sessions.drop_first(), id)
        },
    }
}

/// The name of the session with this number; a dash where there is none.
pub fn session_name(sessions: &Vec<Session>, id: Option<i64>) -> (r: String)
    ensures
        r@ == name_of(sessions_view(sessions@), id),
{
    let number = match id {
        Some(number) => number,
        None => {
            return "-".to_owned();
        },
    };
    let ghost all = sessions_view(sessions@);
    let mut i: usize = 0;
    assert(all.skip(0) == all);
    while i < sessions.len()
        invariant
            i <= sessions@.len(),
            id == Some(number),
            all == sessions_view(sessions@),
            name_of(all.skip(i as int), id) == name_of(all, id),
        decreases sessions.len() - i,
    {
        assert(all.skip(i as int)[0] == sessions@[i as int]@);
        assert(all.skip(i as int).drop_first() == all.skip(i + 1));
        if sessions[i].id() == number {
            return sessions[i].name().to_owned();
        }
        i += 1;
    }
    "-".to_owned()
}

/// What `dispatch` was told, and what the store holds.
pub struct DispatchView {
    pub task_id: i64,
    /// The task with that number, where there is one.
    pub task: Option<TaskView>,
    pub tasks: Seq<TaskView>,
    pub sessions: Seq<SessionView>,
    pub implementer: Seq<char>,
    /// The latest session with the implementer's name.
    pub session: Option<SessionView>,
    /// The tasks that were dispatched to that session.
    pub session_tasks: Seq<TaskView>,
}

impl DispatchView {
    /// Why the task cannot be dispatched so.
    pub open spec fn refusal(self) -> Option<Seq<char>> {
        if !(self.task matches Some(task) && task.state == TaskState::Drafted) {
            Some(
                "supervisor: task "@ + decimal(self.task_id as int) + " is not in state drafted"@,
            )
        } else if first_out(self.tasks) is Some {
            let flying = first_out(self.tasks)->Some_0;
            Some(
                "supervisor: an implementer is already in flight ("@ + name_of(
                    self.sessions,
                    flying.session_id,
                ) + " is in flight on task "@ + decimal(flying.id as int) + ")"@,
            )
        } else {
            match self.session {
                None => Some(
                    "supervisor: no session "@ + self.implementer + "; launch it first"@,
                ),
                Some(session) => if !session.is_live() {
                    Some(
                        "supervisor: "@ + self.implementer + " is stopped; launch it again first"@,
                    )
                } else if session.role != Role::Implementer {
                    Some(
                        "supervisor: "@ + self.implementer + " is the "@ + session.role.name()
                            + ", not an implementer; only implementers take tasks"@,
                    )
                } else {
                    match last_undrafted(self.session_tasks) {
                        Some(prior) => Some(
                            "supervisor: "@ + self.implementer + " already took task "@ + decimal(
                                prior.id as int,
                            ) + " ("@ + prior.state.name()
                                + "); every task gets a fresh implementer"@,
                        ),
                        None => None,
                    }
                },
            }
        }
    }
}

/// Whether a task may be dispatched to an implementer, or why not.
pub fn check_dispatch(
    task_id: i64,
    task: Option<&Task>,
    tasks: &Vec<Task>,
    sessions: &Vec<Session>,
    implementer: &str,
    session: Option<&Session>,
    session_tasks: &Vec<Task>,
) -> (r: Result<(), Error>)
    ensures
        ({
            let told = DispatchView {
                task_id,
                task: opt_task(task),
                tasks: tasks_view(tasks@),
                sessions: sessions_view(sessions@),
                implementer: implementer@,
                session: opt_session(session),
                session_tasks: tasks_view(session_tasks@),
            };
            match told.refusal() {
                Some(message) => refused(r, message),
                None => r is Ok,
            }
        }),
{
    let drafted = match task {
        Some(task) => task.state == TaskState::Drafted,
        None => false,
    };
    if !drafted {
        return refuse(
            "supervisor: task ".to_owned().concat(decimal_text(task_id).as_str()).concat(
                " is not in state drafted",
            ),
        );
    }
    if let Some(flying) = find_out(tasks) {
        return refuse(
            "supervisor: an implementer is already in flight (".to_owned().concat(
                session_name(sessions, flying.session_id).as_str(),
            ).concat(" is in flight on task ").concat(decimal_text(flying.id).as_str()).concat(")"),
        );
    }
    let session = match session {
        Some(session) => session,
        None => {
            return refuse(
                "supervisor: no session ".to_owned().concat(implementer).concat(
                    "; launch it first",
                ),
            );
        },
    };
    if !session.can_take_task() {
        if session.is_live() {
            return refuse(
                "supervisor: ".to_owned().concat(implementer).concat(" is the ").concat(
                    session.role().as_str(),
                ).concat(", not an implementer; only implementers take tasks"),
            );
        }
        return refuse(
            "supervisor: ".to_owned().concat(implementer).concat(
                " is stopped; launch it again first",
            ),
        );
    }
    if let Some(prior) = last_task_on(session_tasks) {
        return refuse(
            "supervisor: ".to_owned().concat(implementer).concat(" already took task ").concat(
                decimal_text(prior.id).as_str(),
            ).concat(" (").concat(prior.state.as_str()).concat(
                "); every task gets a fresh implementer",
            ),
        );
    }
    Ok(())
}

/// A task is dispatched only where it is drafted, no task is out, and the session is a live
/// implementer that has taken no task: one implementer at a time, and a fresh one for every task.
pub proof fn law_dispatch_is_to_a_fresh_implementer(told: DispatchView)
    requires
        told.refusal() is None,
    ensures
        told.task matches Some(task) && task.state == TaskState::Drafted,
        forall|i: int| 0 <= i < told.tasks.len() ==> !(#[trigger] told.tasks[i]).state.is_out(),
        told.session matches Some(session) && session.can_take_task(),
        forall|i: int|
            0 <= i < told.session_tasks.len() ==> (#[trigger] told.session_tasks[i]).state
                == TaskState::Drafted,
{
    lemma_first_out(told.tasks);
    lemma_last_undrafted(told.session_tasks);
}

proof fn lemma_last_undrafted(tasks: Seq<TaskView>)
    requires
        last_undrafted(tasks) is None,
    ensures
        forall|i: int| 0 <= i < tasks.len() ==> (#[trigger] tasks[i]).state == TaskState::Drafted,
    decreases tasks.len(),
{
    if tasks.len() > 0 {
        let before = tasks.drop_last();
        lemma_last_undrafted(before);
        assert forall|i: int| 0 <= i < tasks.len() implies (#[trigger] tasks[i]).state
            == TaskState::Drafted by {
            if i < before.len() {
                assert(before[i] == tasks[i]);
            }
        }
    }
}

/// What an implementer is told to do with any task.
pub open spec fn contract_text() -> Seq<char> {
    "Verify the tree is clean; stop if dirty. Implement that task only. Run the task's checks as you work; run the project's quality gate once, immediately before committing. Commit without attribution trailers, leave the tree clean, then run exactly `git log -1 --format='[chainsaw %h]'` (the supervisor reads that record), and finish with the commit id, changed-file manifest, a one-paragraph semantic delta, and any gate failures you judged pre-existing (test name and one-line error)."@
}

/// The prompt that hands a task over: what changed since the session started, the task, and what
/// is to be done with any task.
pub fn dispatch_prompt(preamble: &str, text: &str) -> (r: String)
    ensures
        r@ == preamble@ + trimmed_end(text@) + "\n\n"@ + contract_text(),
{
    preamble.to_owned().concat(trim_end(text).as_str()).concat("\n\n").concat(
        "Verify the tree is clean; stop if dirty. Implement that task only. Run the task's checks as you work; run the project's quality gate once, immediately before committing. Commit without attribution trailers, leave the tree clean, then run exactly `git log -1 --format='[chainsaw %h]'` (the supervisor reads that record), and finish with the commit id, changed-file manifest, a one-paragraph semantic delta, and any gate failures you judged pre-existing (test name and one-line error).",
    )
}

/// What a session is told of the files that changed since it started; nothing where none did.
pub open spec fn changed_files_words(files: Seq<char>) -> Seq<char> {
    if files.len() == 0 {
        Seq::empty()
    } else {
        "These files changed since your session started; read them first: "@ + joined(
            lines_of(files),
            ", "@,
        ) + "\n\n"@
    }
}

/// The session may have read the tree before its task arrived; name what moved since it started so
/// it rereads that first. Empty when nothing has. `files` is what git lists, a name on each line.
pub fn files_changed_since_launch(files: &str) -> (r: String)
    ensures
        r@ == changed_files_words(files@),
{
    if files.is_empty() {
        return String::new();
    }
    "These files changed since your session started; read them first: ".to_owned().concat(
        join(&lines(files), ", ").as_str(),
    ).concat("\n\n")
}

/// What is said once a task was dispatched.
pub fn dispatch_report(task_id: i64, implementer: &str) -> (r: String)
    ensures
        r@ == "task "@ + decimal(task_id as int) + " dispatched to "@ + implementer@
            + "; watch `state --task "@ + decimal(task_id as int) + "` \u{2014} it prints `"@ + decimal(
            task_id as int,
        ) + " committed_unverified` when the commit lands"@,
{
    let id = decimal_text(task_id);
    "task ".to_owned().concat(id.as_str()).concat(" dispatched to ").concat(implementer).concat(
        "; watch `state --task ",
    ).concat(id.as_str()).concat("` \u{2014} it prints `").concat(id.as_str()).concat(
        " committed_unverified` when the commit lands",
    )
}

/// What a dispatch is recorded as: its prompt landed, or it did not.
pub fn dispatch_event(task_id: i64, implementer: &str, landed: bool) -> (r: Event)
    ensures
        r@ == (if landed {
            EventView {
                kind: "dispatch"@,
                detail: "task "@ + decimal(task_id as int) + " -> "@ + implementer@,
            }
        } else {
            EventView {
                kind: "dispatch-failed"@,
                detail: "task "@ + decimal(task_id as int) + " -> "@ + implementer@
                    + ": prompt never landed"@,
            }
        }),
{
    let detail = "task ".to_owned().concat(decimal_text(task_id).as_str()).concat(" -> ").concat(
        implementer,
    );
    if landed {
        Event::new("dispatch", detail)
    } else {
        Event::new("dispatch-failed", detail.concat(": prompt never landed"))
    }
}

/// A task that is planned as a retry leaves nothing out: where its predecessor is dispatched or in
/// flight, exactly that one is aborted, for the reason that was given and that is not blank. Where
/// the predecessor was aborted already, or nothing is retried, nothing is aborted. No other
/// predecessor can be retried.
pub proof fn law_retry_aborts_what_is_out(told: NewTaskView)
    requires
        told.refusal() is None,
    ensures
        told.retry_of is None ==> told.aborts() is None,
        told.retry_of matches Some(id) ==> {
            &&& told.predecessor matches Some(task)
            &&& match task.state {
                TaskState::Dispatched | TaskState::InFlight => {
                    &&& told.reason matches Some(reason)
                    &&& !is_blank(reason)
                    &&& told.aborts() == Some((id, reason))
                },
                TaskState::Aborted => told.aborts() is None,
                _ => false,
            }
        },
{
}

/// There can be a task exactly where it has a text, retries nothing or a task that was aborted or
/// is out and is given a reason, and the number of its files is told in one way.
pub proof fn law_task_is_refused_for_these_reasons_only(told: NewTaskView)
    ensures
        told.refusal() is None <==> {
            &&& !is_blank(told.text)
            &&& told.retry_of is Some ==> {
                &&& told.predecessor is Some
                &&& {
                    ||| told.predecessor->Some_0.state == TaskState::Aborted
                    ||| {
                        &&& told.predecessor->Some_0.state == TaskState::Dispatched
                            || told.predecessor->Some_0.state == TaskState::InFlight
                        &&& told.reason is Some
                        &&& !is_blank(told.reason->Some_0)
                    }
                }
            }
            &&& told.predicted_files is None ==> told.names().len() > 0
            &&& told.predicted_files is Some && told.names().len() > 0 ==> {
                ||| told.predicted_files->Some_0 == told.names().len()
                ||| told.predicted_files->Some_0 == i64::MAX && told.names().len() > i64::MAX
            }
        },
        told.files matches Some(files) ==> told.names() == file_names(files),
        told.files is None ==> told.names().len() == 0,
{
    if told.files is None {
        let none = Seq::<char>::empty();
        law_names_stand_between_commas(none, none);
    }
}

/// The largest count is the largest number there is room for; every smaller one is told as it is.
pub proof fn law_counts_are_told_as_they_are(n: nat)
    ensures
        n <= i64::MAX ==> as_count(n) == n,
        n > i64::MAX ==> as_count(n) == i64::MAX,
{
}

proof fn lemma_names_of_two(first: Seq<Seq<char>>, second: Seq<Seq<char>>)
    ensures
        names_among(first + second) == names_among(first) + names_among(second),
    decreases second.len(),
{
    if second.len() == 0 {
        assert(first + second =~= first);
        assert(names_among(first) + names_among(second) =~= names_among(first));
    } else {
        lemma_names_of_two(first, second.drop_last());
        assert((first + second).drop_last() =~= first + second.drop_last());
        assert((first + second).last() == second.last());
        assert(names_among(first + second) =~= names_among(first) + names_among(second));
    }
}

/// A comma ends a file name: what stands before it, without the white space around it, is one name,
/// unless it is nothing else; the names of what stands after it follow.
pub proof fn law_names_stand_between_commas(before: Seq<char>, after: Seq<char>)
    requires
        !before.contains(','),
    ensures
        file_names(before) == (if is_blank(before) {
            Seq::<Seq<char>>::empty()
        } else {
            seq![trimmed(before)]
        }),
        file_names(before.push(',') + after) == file_names(before) + file_names(after),
{
    law_separator_ends_a_piece(before, after, ',');
    law_trimming_takes_only_the_white_space_around(before);
    lemma_names_of_two(seq![before], pieces(after, ','));
    assert(seq![before].drop_last() =~= Seq::<Seq<char>>::empty());
    assert(names_among(Seq::<Seq<char>>::empty()) =~= Seq::<Seq<char>>::empty());
    assert(seq![before].last() == before);
    assert(file_names(before) =~= if is_blank(before) {
        Seq::<Seq<char>>::empty()
    } else {
        seq![trimmed(before)]
    });
}

/// A session is named by the first one with its number, and a dash stands for one that is not there.
pub proof fn law_session_is_named_by_its_number(sessions: Seq<SessionView>, number: i64, at: int)
    requires
        0 <= at <= sessions.len(),
        forall|i: int| 0 <= i < at ==> (#[trigger] sessions[i]).id != number,
        at < sessions.len() ==> sessions[at].id == number,
    ensures
        name_of(sessions, Some(number)) == (if at < sessions.len() {
            sessions[at].name
        } else {
            "-"@
        }),
        name_of(sessions, None) == "-"@,
    decreases sessions.len(),
{
    if sessions.len() > 0 && sessions[0].id != number {
        let rest = sessions.drop_first();
        assert(forall|i: int| 0 < i < sessions.len() ==> #[trigger] sessions[i] == rest[i - 1]);
        assert forall|i: int| 0 <= i < at - 1 implies (#[trigger] rest[i]).id != number by {
            assert(rest[i] == sessions[i + 1]);
        }
        law_session_is_named_by_its_number(rest, number, at - 1);
    }
}

/// A task is dispatched exactly where it is a draft, no task is dispatched or in flight, and the
/// session is there, is not stopped, is an implementer and has no task but drafts.
pub proof fn law_dispatch_is_refused_for_these_reasons_only(told: DispatchView)
    ensures
        told.refusal() is None <==> {
            &&& told.task is Some
            &&& told.task->Some_0.state == TaskState::Drafted
            &&& forall|i: int|
                0 <= i < told.tasks.len() ==> (#[trigger] told.tasks[i]).state
                    != TaskState::Dispatched && told.tasks[i].state != TaskState::InFlight
            &&& told.session is Some
            &&& told.session->Some_0.stopped_at is None
            &&& told.session->Some_0.role == Role::Implementer
            &&& forall|i: int|
                0 <= i < told.session_tasks.len() ==> (#[trigger] told.session_tasks[i]).state
                    == TaskState::Drafted
        },
{
    law_first_task_that_is_out(told.tasks);
    law_last_task_past_its_draft(told.session_tasks);
}

/// Files that changed are told by name, with commas between them and an empty line after; where
/// none changed nothing is told.
pub proof fn law_changed_files_are_told_by_name(names: Seq<Seq<char>>)
    requires
        names.len() > 0,
        forall|i: int|
            0 <= i < names.len() ==> {
                &&& (#[trigger] names[i]).len() > 0
                &&& !names[i].contains('\n')
                &&& !names[i].contains('\r')
            },
    ensures
        changed_files_words(joined(names, seq!['\n']))
            == "These files changed since your session started; read them first: "@ + joined(
            names,
            ", "@,
        ) + "\n\n"@,
        changed_files_words(Seq::empty()).len() == 0,
{
    law_lines_read_back(names);
    law_line_is_what_stands_before_its_ending(Seq::empty());
    if joined(names, seq!['\n']).len() == 0 {
        assert(joined(names, seq!['\n']) =~= Seq::empty());
        assert(lines_of(joined(names, seq!['\n'])).len() == 0);
    }
}

/// A new task is refused in words: first for want of a text, then for the task it retries, which is
/// named with its state where that is what stands in the way, and last for its prediction.
pub proof fn law_new_task_is_refused_in_words(told: NewTaskView, id: i64, task: TaskView)
    ensures
        is_blank(told.text) ==> told.refusal() == Some("supervisor: task text on stdin is empty"@),
        !is_blank(told.text) && told.retry_of == Some(id) ==> {
            &&& told.predecessor is None ==> told.refusal() == Some(
                "supervisor: --retry-of "@ + decimal(id as int)
                    + " is not aborted, dispatched, or in flight"@,
            )
            &&& told.predecessor == Some(task) && (task.state == TaskState::Drafted || task.state
                == TaskState::CommittedUnverified || task.state == TaskState::Accepted)
                ==> told.refusal() == Some(
                "supervisor: --retry-of "@ + decimal(id as int)
                    + " is not aborted, dispatched, or in flight"@,
            )
            &&& told.predecessor == Some(task) && (task.state == TaskState::Dispatched || task.state
                == TaskState::InFlight) && (told.reason is None || is_blank(told.reason->Some_0))
                ==> told.refusal() == Some(
                "supervisor: --retry-of "@ + decimal(id as int)
                    + " requires a non-empty --reason while the predecessor is "@
                    + task.state.name(),
            )
        },
        !is_blank(told.text) && told.retry_of is None && told.predicted_files is None
            && told.names().len() == 0 ==> told.refusal() == Some(
            "supervisor: task new needs --files a,b,c or --predicted-files N"@,
        ),
        !is_blank(told.text) && told.retry_of is None && told.predicted_files is Some && 0
            < told.names().len() <= i64::MAX && told.predicted_files->Some_0 != told.names().len()
            ==> told.refusal() == Some(
            "supervisor: --predicted-files "@ + decimal(told.predicted_files->Some_0 as int)
                + " disagrees with --files ("@ + decimal(told.names().len() as int)
                + " names); give one or the other"@,
        ),
{
}

/// A dispatch is refused in words: the task that is no draft is named first, then the first task
/// that is out and the session it is out with, then what is wrong with the session, and last the
/// task that the session already took.
pub proof fn law_dispatch_is_refused_in_words(told: DispatchView, at: int)
    requires
        0 <= at <= told.tasks.len(),
        forall|j: int|
            0 <= j < at ==> (#[trigger] told.tasks[j]).state != TaskState::Dispatched
                && told.tasks[j].state != TaskState::InFlight,
        at < told.tasks.len() ==> told.tasks[at].state == TaskState::Dispatched
            || told.tasks[at].state == TaskState::InFlight,
    ensures
        ({
            let drafted = told.task is Some && told.task->Some_0.state == TaskState::Drafted;
            let free = drafted && at == told.tasks.len();
            &&& !drafted ==> told.refusal() == Some(
                "supervisor: task "@ + decimal(told.task_id as int) + " is not in state drafted"@,
            )
            &&& drafted && at < told.tasks.len() ==> told.refusal() == Some(
                "supervisor: an implementer is already in flight ("@ + name_of(
                    told.sessions,
                    told.tasks[at].session_id,
                ) + " is in flight on task "@ + decimal(told.tasks[at].id as int) + ")"@,
            )
            &&& free && told.session is None ==> told.refusal() == Some(
                "supervisor: no session "@ + told.implementer + "; launch it first"@,
            )
            &&& free && told.session is Some && told.session->Some_0.stopped_at is Some
                ==> told.refusal() == Some(
                "supervisor: "@ + told.implementer + " is stopped; launch it again first"@,
            )
            &&& free && told.session is Some && told.session->Some_0.stopped_at is None
                && told.session->Some_0.role != Role::Implementer ==> told.refusal() == Some(
                "supervisor: "@ + told.implementer + " is the "@ + told.session->Some_0.role.name()
                    + ", not an implementer; only implementers take tasks"@,
            )
        }),
{
    law_first_task_that_is_out(told.tasks);
    if let Some(task) = first_out(told.tasks) {
        let tasks = told.tasks;
        let i = choose|i: int|
            {
                &&& 0 <= i < tasks.len()
                &&& #[trigger] tasks[i] == task
                &&& task.state == TaskState::Dispatched || task.state == TaskState::InFlight
                &&& forall|j: int|
                    0 <= j < i ==> (#[trigger] tasks[j]).state != TaskState::Dispatched
                        && tasks[j].state != TaskState::InFlight
            };
        assert(i == at);
    }
}

/// A session that already took a task is refused with the last task it took, and that task's state.
pub proof fn law_fresh_implementer_is_asked_for_in_words(told: DispatchView, at: int)
    requires
        told.task is Some,
        told.task->Some_0.state == TaskState::Drafted,
        forall|j: int|
            0 <= j < told.tasks.len() ==> (#[trigger] told.tasks[j]).state != TaskState::Dispatched
                && told.tasks[j].state != TaskState::InFlight,
        told.session is Some,
        told.session->Some_0.stopped_at is None,
        told.session->Some_0.role == Role::Implementer,
        0 <= at < told.session_tasks.len(),
        told.session_tasks[at].state != TaskState::Drafted,
        forall|j: int|
            at < j < told.session_tasks.len() ==> (#[trigger] told.session_tasks[j]).state
                == TaskState::Drafted,
    ensures
        told.refusal() == Some(
            "supervisor: "@ + told.implementer + " already took task "@ + decimal(
                told.session_tasks[at].id as int,
            ) + " ("@ + told.session_tasks[at].state.name()
                + "); every task gets a fresh implementer"@,
        ),
{
    law_first_task_that_is_out(told.tasks);
    law_last_task_past_its_draft(told.session_tasks);
    let tasks = told.session_tasks;
    let task = last_undrafted(tasks)->Some_0;
    let i = choose|i: int|
        {
            &&& 0 <= i < tasks.len()
            &&& #[trigger] tasks[i] == task
            &&& task.state != TaskState::Drafted
            &&& forall|j: int|
                i < j < tasks.len() ==> (#[trigger] tasks[j]).state == TaskState::Drafted
        };
    assert(i == at);
}

/// Whatever git lists, each line of it is told, with a comma between any two.
pub proof fn law_every_changed_file_is_told(files: Seq<char>)
    requires
        files.len() > 0,
    ensures
        changed_files_words(files)
            == "These files changed since your session started; read them first: "@ + joined(
            lines_of(files),
            ", "@,
        ) + "\n\n"@,
{
}

} // verus!
