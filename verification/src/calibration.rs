//! What a task was predicted to take, held against what it took.

use regex::Regex;
use vstd::prelude::*;
use vstd::string::*;

use crate::error::{refuse, refused, Error};
use crate::number::{
    decimal, decimal_text, i64_of, law_decimal_reads_back, parse_i64, unsigned_text,
};
use crate::session::{opt_session, Session, SessionView};
use crate::task::{
    last_at, last_event_at, law_newest_event_is_found, opt_task, tasks_view, Task, TaskState,
    TaskView,
};
use crate::text::{law_texts_in_a_row, mentions, opt_view};

verus! {

/// What the summary of a commit counts.
pub open spec fn is_stat_noun(noun: Seq<char>) -> bool {
    noun == "file"@ || noun == "insertion"@ || noun == "deletion"@
}

/// The pattern by which a count is found in the summary of a commit.
pub open spec fn stat_pattern(noun: Seq<char>) -> Seq<char> {
    "(\\d+) "@ + noun + "s?"@
}

/// What the first group of a pattern captures at its first match in a text, as
/// `regex::Regex::captures` finds it.
pub uninterp spec fn first_capture(pattern: Seq<char>, text: Seq<char>) -> Option<Seq<char>>;

/// Looks for a pattern with `regex::Regex::captures` and takes its first group. The patterns that
/// are asked for are valid, and their first group takes part in every match; what is found depends
/// on the pattern and the text alone, and is `first_capture` of them.
#[verifier::external_body]
fn capture(pattern: &str, text: &str) -> (r: Option<String>)
    requires
        exists|noun: Seq<char>| #[trigger]
            is_stat_noun(noun) && pattern@ == stat_pattern(noun),
    ensures
        opt_view(r) == first_capture(pattern@, text@),
{
    Regex::new(pattern).expect("a valid pattern").captures(text).map(|found| found[1].to_owned())
}

/// The number that was captured: nothing, and what no number holds, count as none.
pub open spec fn captured_number(capture: Option<Seq<char>>) -> i64 {
    match capture {
        Some(digits) => match i64_of(digits) {
            Some(number) => number,
            None => 0,
        },
        None => 0,
    }
}

/// The number that was captured.
pub fn number_captured(capture: &Option<String>) -> (r: i64)
    ensures
        r == captured_number(opt_view(*capture)),
{
    match capture {
        Some(digits) => match parse_i64(digits.as_str()) {
            Some(number) => number,
            None => 0,
        },
        None => 0,
    }
}

/// What git counts in the summary of a commit: its files, and the lines that came and went.
#[derive(Clone, Copy, Debug, PartialEq, Eq, Structural)]
pub enum StatNoun {
    File,
    Insertion,
    Deletion,
}

impl StatNoun {
    /// The word for it.
    pub open spec fn name(self) -> Seq<char> {
        match self {
            StatNoun::File => "file"@,
            StatNoun::Insertion => "insertion"@,
            StatNoun::Deletion => "deletion"@,
        }
    }
}

/// How many of these the summary of a commit counts.
pub fn stat_number(text: &str, noun: StatNoun) -> (r: i64)
    ensures
        r == captured_number(first_capture(stat_pattern(noun.name()), text@)),
{
    let word = match noun {
        StatNoun::File => "file",
        StatNoun::Insertion => "insertion",
        StatNoun::Deletion => "deletion",
    };
    assert(is_stat_noun(word@));
    let pattern = "(\\d+) ".to_owned().concat(word).concat("s?");
    number_captured(&capture(pattern.as_str(), text))
}

/// The lines that a commit changed, where that number can be held.
pub fn changed_lines(insertions: i64, deletions: i64) -> (r: Option<i64>)
    ensures
        match r {
            Some(lines) => lines == insertions + deletions,
            None => !(i64::MIN <= insertions + deletions <= i64::MAX),
        },
{
    insertions.checked_add(deletions)
}

/// The commit of a task that can be calibrated.
pub fn calibrated_commit(task_id: i64, task: Option<&Task>) -> (r: Result<&str, Error>)
    ensures
        match opt_task(task) {
            Some(found) => match found.commit_sha {
                Some(sha) => r matches Ok(commit) && commit@ == sha,
                None => refused(
                    r,
                    "supervisor: task "@ + decimal(task_id as int) + " has no commit yet"@,
                ),
            },
            None => refused(
                r,
                "supervisor: task "@ + decimal(task_id as int) + " has no commit yet"@,
            ),
        },
{
    if let Some(task) = task {
        if let Some(sha) = &task.commit_sha {
            return Ok(sha.as_str());
        }
    }
    refuse(
        "supervisor: task ".to_owned().concat(decimal_text(task_id).as_str()).concat(
            " has no commit yet",
        ),
    )
}

/// How long a task was out, in milliseconds: from its last dispatch to its last commit.
pub open spec fn flight_millis(task: TaskView) -> Option<int> {
    match (
        last_at(task.events, TaskState::Dispatched),
        last_at(task.events, TaskState::CommittedUnverified),
    ) {
        (Some(start), Some(end)) => Some(end - start),
        _ => None,
    }
}

/// How long a task was out, in milliseconds.
pub fn time_out(task: &Task) -> (r: Option<i128>)
    ensures
        match r {
            Some(millis) => flight_millis(task@) == Some(millis as int),
            None => flight_millis(task@) is None,
        },
{
    match (
        last_event_at(task, TaskState::Dispatched),
        last_event_at(task, TaskState::CommittedUnverified),
    ) {
        (Some(start), Some(end)) => Some(end as i128 - start as i128),
        _ => None,
    }
}

/// Where in the session's transcript the next task begins: the first task of the session after
/// this one that was dispatched there.
pub open spec fn next_offset_of(tasks: Seq<TaskView>, task_id: i64) -> Option<u64>
    decreases tasks.len(),
{
    if tasks.len() == 0 {
        None
    } else if tasks[0].id > task_id && tasks[0].log_offset > 0 {
        Some(tasks[0].log_offset as u64)
    } else {
        next_offset_of(tasks.drop_first(), task_id)
    }
}

/// Where in the session's transcript the next task begins.
pub fn next_offset(tasks: &Vec<Task>, task_id: i64) -> (r: Option<u64>)
    ensures
        r == next_offset_of(tasks_view(tasks@), task_id),
{
    let ghost all = tasks_view(tasks@);
    let mut i: usize = 0;
    assert(all.skip(0) == all);
    while i < tasks.len()
        invariant
            i <= tasks@.len(),
            all == tasks_view(tasks@),
            next_offset_of(all.skip(i as int), task_id) == next_offset_of(all, task_id),
        decreases tasks.len() - i,
    {
        assert(all.skip(i as int)[0] == tasks@[i as int]@);
        assert(all.skip(i as int).drop_first() == all.skip(i + 1));
        if tasks[i].id > task_id && tasks[i].log_offset > 0 {
            return Some(tasks[i].log_offset as u64);
        }
        i += 1;
    }
    None
}

/// How large the context of a task's session grew: what its transcript shows, or else what was
/// recorded of the session.
pub open spec fn context_end_of(peak: i64, session: Option<SessionView>) -> i64 {
    if peak != 0 {
        peak
    } else {
        match session {
            Some(session) => session.context_max,
            None => 0,
        }
    }
}

/// How large the context of a task's session grew.
pub fn context_end(peak: i64, session: Option<&Session>) -> (r: i64)
    ensures
        r == context_end_of(peak, opt_session(session)),
{
    if peak != 0 {
        return peak;
    }
    match session {
        Some(session) => session.context_max(),
        None => 0,
    }
}

/// The context that the session brought to the task.
pub open spec fn context_base_of(task: TaskView) -> i64 {
    match task.context_size_start {
        Some(size) => size,
        None => 0,
    }
}

/// The context that the session brought to the task.
pub fn context_base(task: &Task) -> (r: i64)
    ensures
        r == context_base_of(task@),
{
    match task.context_size_start {
        Some(size) => size,
        None => 0,
    }
}

/// What is kept of a calibration, besides the time that the task was out.
#[derive(Clone, Copy, Debug, PartialEq, Eq, Structural)]
pub struct CalibrationRow {
    pub task_id: i64,
    pub predicted_files: i64,
    pub predicted_lines: i64,
    pub actual_files: i64,
    pub actual_lines: i64,
    /// The context that the session brought to the task.
    pub context_size_start: i64,
    /// How large the context of the session grew.
    pub context_size_end: i64,
}

/// What is kept of the calibration of a task, given what git counts in its commit, how large its
/// session's context grew by the transcript, and what was recorded of the session.
pub fn calibration_row(
    task: &Task,
    actual_files: i64,
    actual_lines: i64,
    peak: i64,
    session: Option<&Session>,
) -> (r: CalibrationRow)
    ensures
        r == (CalibrationRow {
            task_id: task@.id,
            predicted_files: task@.predicted_files,
            predicted_lines: task@.predicted_lines,
            actual_files,
            actual_lines,
            context_size_start: context_base_of(task@),
            context_size_end: context_end_of(peak, opt_session(session)),
        }),
{
    CalibrationRow {
        task_id: task.id,
        predicted_files: task.predicted_files,
        predicted_lines: task.predicted_lines,
        actual_files,
        actual_lines,
        context_size_start: context_base(task),
        context_size_end: context_end(peak, session),
    }
}

/// The context that a task took.
pub open spec fn context_taken(end: i64, base: i64) -> int {
    if end - base < 0 {
        0
    } else {
        end - base
    }
}

/// The line that tells of a calibration. The seconds that the task was out are told as they are
/// given.
pub open spec fn calibration_words(row: CalibrationRow, wall_seconds: Option<i64>) -> Seq<char> {
    "task "@ + decimal(row.task_id as int) + ": predicted "@ + decimal(row.predicted_files as int)
        + " files/"@ + decimal(row.predicted_lines as int) + " lines, actual "@ + decimal(
        row.actual_files as int,
    ) + " files/"@ + decimal(row.actual_lines as int) + " lines, wall "@ + (match wall_seconds {
        Some(seconds) => decimal(seconds as int),
        None => "None"@,
    }) + "s, context "@ + decimal(context_taken(row.context_size_end, row.context_size_start))
        + " (session "@ + decimal(row.context_size_end as int) + ", base "@ + decimal(
        row.context_size_start as int,
    ) + ")"@
}

/// The line that tells of a calibration.
pub fn calibration_line(row: &CalibrationRow, wall_seconds: Option<i64>) -> (r: String)
    ensures
        r@ == calibration_words(*row, wall_seconds),
{
    let wall = match wall_seconds {
        Some(seconds) => decimal_text(seconds),
        None => "None".to_owned(),
    };
    let taken = row.context_size_end as i128 - row.context_size_start as i128;
    let taken = if taken < 0 {
        unsigned_text(0)
    } else {
        unsigned_text(taken as u128)
    };
    "task ".to_owned().concat(decimal_text(row.task_id).as_str()).concat(": predicted ").concat(
        decimal_text(row.predicted_files).as_str(),
    ).concat(" files/").concat(decimal_text(row.predicted_lines).as_str()).concat(
        " lines, actual ",
    ).concat(decimal_text(row.actual_files).as_str()).concat(" files/").concat(
        decimal_text(row.actual_lines).as_str(),
    ).concat(" lines, wall ").concat(wall.as_str()).concat("s, context ").concat(
        taken.as_str(),
    ).concat(" (session ").concat(decimal_text(row.context_size_end).as_str()).concat(
        ", base ",
    ).concat(decimal_text(row.context_size_start).as_str()).concat(")")
}

/// A task was out from the last time it was dispatched to the last time it was committed, and for
/// no time that is known where it was not both.
pub proof fn law_time_out_is_from_dispatch_to_commit(task: TaskView, start: int, end: int)
    requires
        -1 <= start < task.events.len(),
        -1 <= end < task.events.len(),
        start >= 0 ==> task.events[start].state == TaskState::Dispatched,
        end >= 0 ==> task.events[end].state == TaskState::CommittedUnverified,
        forall|j: int|
            start < j < task.events.len() ==> (#[trigger] task.events[j]).state
                != TaskState::Dispatched,
        forall|j: int|
            end < j < task.events.len() ==> (#[trigger] task.events[j]).state
                != TaskState::CommittedUnverified,
    ensures
        flight_millis(task) == (if start >= 0 && end >= 0 {
            Some(task.events[end].created_at - task.events[start].created_at)
        } else {
            None
        }),
{
    let events = task.events;
    law_newest_event_is_found(events, TaskState::Dispatched);
    law_newest_event_is_found(events, TaskState::CommittedUnverified);
    if let Some(at) = last_at(events, TaskState::Dispatched) {
        let i = choose|i: int|
            {
                &&& 0 <= i < events.len()
                &&& (#[trigger] events[i]).state == TaskState::Dispatched
                &&& events[i].created_at == at
                &&& forall|j: int|
                    i < j < events.len() ==> (#[trigger] events[j]).state != TaskState::Dispatched
            };
        assert(i == start);
    }
    if let Some(at) = last_at(events, TaskState::CommittedUnverified) {
        let i = choose|i: int|
            {
                &&& 0 <= i < events.len()
                &&& (#[trigger] events[i]).state == TaskState::CommittedUnverified
                &&& events[i].created_at == at
                &&& forall|j: int|
                    i < j < events.len() ==> (#[trigger] events[j]).state
                        != TaskState::CommittedUnverified
            };
        assert(i == end);
    }
}

/// The next task in a transcript is the first of a larger number that has a place in it.
pub proof fn law_next_task_is_the_first_later_one(tasks: Seq<TaskView>, task_id: i64, at: int)
    requires
        0 <= at <= tasks.len(),
        forall|j: int|
            0 <= j < at ==> (#[trigger] tasks[j]).id <= task_id || tasks[j].log_offset <= 0,
        at < tasks.len() ==> tasks[at].id > task_id && tasks[at].log_offset > 0,
    ensures
        at == tasks.len() ==> next_offset_of(tasks, task_id) is None,
        at < tasks.len() ==> (next_offset_of(tasks, task_id) matches Some(offset) && offset
            == tasks[at].log_offset),
    decreases tasks.len(),
{
    if tasks.len() > 0 && at > 0 {
        let rest = tasks.drop_first();
        assert(tasks[0].id <= task_id || tasks[0].log_offset <= 0);
        assert forall|j: int| 0 <= j < at - 1 implies (#[trigger] rest[j]).id <= task_id
            || rest[j].log_offset <= 0 by {
            assert(rest[j] == tasks[j + 1]);
        }
        if at < tasks.len() {
            assert(rest[at - 1] == tasks[at]);
        }
        law_next_task_is_the_first_later_one(rest, task_id, at - 1);
    }
}

/// A context took what it grew by, and nothing where it did not grow. What the transcript shows of
/// it goes before what was recorded of the session.
pub proof fn law_context_taken_is_the_growth(
    end: i64,
    base: i64,
    peak: i64,
    session: Option<SessionView>,
    task: TaskView,
)
    ensures
        end >= base ==> context_taken(end, base) == end - base,
        end <= base ==> context_taken(end, base) == 0,
        peak != 0 ==> context_end_of(peak, session) == peak,
        session is Some ==> context_end_of(0, session) == session->Some_0.context_max,
        session is None ==> context_end_of(0, session) == 0,
        task.context_size_start is Some ==> context_base_of(task) == task.context_size_start->Some_0,
        task.context_size_start is None ==> context_base_of(task) == 0,
{
}

/// A number that was captured is the number that its digits write; nothing captured counts as none.
pub proof fn law_captured_digits_are_their_number(n: i64, text: Seq<char>)
    ensures
        captured_number(Some(decimal(n as int))) == n,
        captured_number(None) == 0,
        i64_of(text) is None ==> captured_number(Some(text)) == 0,
{
    law_decimal_reads_back(n);
}

/// A calibration is told with what was predicted and what it came to, how long the task was out, and
/// the context it took beside what the session's grew to and began with.
pub proof fn law_calibration_is_told_whole(row: CalibrationRow, wall_seconds: Option<i64>)
    ensures
        ({
            let words = calibration_words(row, wall_seconds);
            &&& ("task "@ + decimal(row.task_id as int) + ": predicted "@ + decimal(
                row.predicted_files as int,
            ) + " files/"@ + decimal(row.predicted_lines as int) + " lines, actual "@ + decimal(
                row.actual_files as int,
            ) + " files/"@ + decimal(row.actual_lines as int) + " lines, wall "@).is_prefix_of(
                words,
            )
            &&& ("s, context "@ + decimal(
                context_taken(row.context_size_end, row.context_size_start),
            ) + " (session "@ + decimal(row.context_size_end as int) + ", base "@ + decimal(
                row.context_size_start as int,
            ) + ")"@).is_suffix_of(words)
            &&& wall_seconds is Some ==> mentions(
                words,
                " lines, wall "@ + decimal(wall_seconds->Some_0 as int) + "s, context "@,
            )
            &&& wall_seconds is None ==> mentions(words, " lines, wall "@ + "None"@ + "s, context "@)
        }),
{
    let words = calibration_words(row, wall_seconds);
    let early = "task "@ + decimal(row.task_id as int) + ": predicted "@ + decimal(
        row.predicted_files as int,
    ) + " files/"@ + decimal(row.predicted_lines as int) + " lines, actual "@ + decimal(
        row.actual_files as int,
    ) + " files/"@ + decimal(row.actual_lines as int);
    let wall = match wall_seconds {
        Some(seconds) => decimal(seconds as int),
        None => "None"@,
    };
    let taken = decimal(context_taken(row.context_size_end, row.context_size_start));
    let end = decimal(row.context_size_end as int);
    let base = decimal(row.context_size_start as int);
    let head = early + " lines, wall "@ + wall;
    let opening = "s, context "@;
    let tail = opening + taken + " (session "@ + end + ", base "@ + base + ")"@;
    law_texts_in_a_row(head, opening, taken);
    law_texts_in_a_row(head, opening + taken, " (session "@);
    law_texts_in_a_row(head, opening + taken + " (session "@, end);
    law_texts_in_a_row(head, opening + taken + " (session "@ + end, ", base "@);
    law_texts_in_a_row(head, opening + taken + " (session "@ + end + ", base "@, base);
    law_texts_in_a_row(head, opening + taken + " (session "@ + end + ", base "@ + base, ")"@);
    assert(words == head + tail);
    law_texts_in_a_row(early + " lines, wall "@, wall, tail);
    let rest = taken + " (session "@ + end + ", base "@ + base + ")"@;
    law_texts_in_a_row(opening, taken, " (session "@);
    law_texts_in_a_row(opening, taken + " (session "@, end);
    law_texts_in_a_row(opening, taken + " (session "@ + end, ", base "@);
    law_texts_in_a_row(opening, taken + " (session "@ + end + ", base "@, base);
    law_texts_in_a_row(opening, taken + " (session "@ + end + ", base "@ + base, ")"@);
    assert(tail == opening + rest);
    let middle = " lines, wall "@ + wall + opening;
    law_texts_in_a_row(early, " lines, wall "@, wall);
    law_texts_in_a_row(early, " lines, wall "@ + wall, opening);
    law_texts_in_a_row(head, opening, rest);
    law_texts_in_a_row(early, middle, rest);
}

/// A count is looked for as a row of digits, a space and the word for what is counted, in the
/// singular or the plural; each of the three things has a word of its own.
pub proof fn law_count_is_looked_for_before_its_word(noun: StatNoun, other: StatNoun)
    ensures
        "(\\d+) "@.is_prefix_of(stat_pattern(noun.name())),
        (noun.name() + "s?"@).is_suffix_of(stat_pattern(noun.name())),
        stat_pattern(noun.name()).len() == "(\\d+) "@.len() + noun.name().len() + 2,
        stat_pattern(noun.name()) == stat_pattern(other.name()) ==> noun == other,
        is_stat_noun(noun.name()),
{
    reveal_strlit("s?");
    reveal_strlit("file");
    reveal_strlit("insertion");
    reveal_strlit("deletion");
    let head = "(\\d+) "@;
    let pattern = stat_pattern(noun.name());
    let tail = noun.name() + "s?"@;
    assert(pattern =~= head + tail);
    assert(pattern.subrange(0, head.len() as int) =~= head);
    assert(pattern.subrange(pattern.len() - tail.len(), pattern.len() as int) =~= tail);
    assert("file"@.len() == 4 && "insertion"@.len() == 9 && "deletion"@.len() == 8);
    assert(stat_pattern(other.name()).len() == head.len() + other.name().len() + 2);
}

} // verus!
