//! Facts the lead must act on, printed after every lead-facing command so they do not depend on
//! the lead remembering the skill. Each one is measured from the store, never inferred from what
//! the lead said.

use vstd::prelude::*;
use vstd::string::*;

use crate::number::{decimal, decimal_text, i64_of, parse_i64};
use crate::session::{sessions_view, Role, Session, SessionView};
use crate::task::{
    find_out, first_at, first_event_at, first_out, law_first_task_that_is_out,
    law_oldest_event_is_found, tasks_view, Task, TaskState, TaskView,
};
use crate::text::{concat2, concat3, opt_str, texts};

verus! {

/// The lead must stop past this much context.
pub const LEAD_STOP_TOKENS: i64 = 250_000;

/// The lead is warned past this much context.
pub const LEAD_WARN_TOKENS: i64 = 200_000;

/// A commit the lead has not judged after this long is being missed.
pub const COMMIT_UNATTENDED_SECONDS: i64 = 300;

/// Task monitors read state every few seconds; this much silence while a task is out means nothing
/// is watching.
pub const STATE_UNREAD_SECONDS: i64 = 120;

/// The daemon stamps `daemon-seen` on every poll; silence this long means no daemon is running,
/// whether it never started, was stopped, or died.
pub const DAEMON_SILENT_SECONDS: i64 = 30;

/// A span of milliseconds in whole seconds; what is over is dropped.
pub open spec fn whole_seconds(millis: int) -> int {
    if millis >= 0 {
        millis / 1000
    } else {
        -((-millis) / 1000)
    }
}

/// The whole seconds from `then` to `now`.
pub fn seconds_between(now: i64, then: i64) -> (r: i64)
    ensures
        r == whole_seconds(now - then),
{
    let millis: i128 = now as i128 - then as i128;
    if millis >= 0 {
        (millis / 1000) as i64
    } else {
        (-((-millis) / 1000)) as i64
    }
}

/// A duration as it is told: in seconds below a minute, else in whole minutes.
pub open spec fn duration_words(seconds: int) -> Seq<char> {
    if seconds < 60 {
        decimal(seconds) + "s"@
    } else {
        decimal(seconds / 60) + "m"@
    }
}

/// A duration as it is told.
pub fn duration_text(seconds: i64) -> (r: String)
    ensures
        r@ == duration_words(seconds as int),
{
    if seconds < 60 {
        concat2(decimal_text(seconds).as_str(), "s")
    } else {
        concat2(decimal_text(seconds / 60).as_str(), "m")
    }
}

/// The first live lead of `sessions`.
pub open spec fn live_lead(sessions: Seq<SessionView>) -> Option<SessionView>
    decreases sessions.len(),
{
    if sessions.len() == 0 {
        None
    } else if sessions[0].role == Role::Lead && sessions[0].is_live() {
        Some(sessions[0])
    } else {
        live_lead(sessions.drop_first())
    }
}

/// What is said of the lead's context.
pub open spec fn lead_warnings(sessions: Seq<SessionView>) -> Seq<Seq<char>> {
    match live_lead(sessions) {
        Some(lead) => if lead.context > LEAD_STOP_TOKENS {
            seq![
                "lead context "@ + decimal(lead.context as int) + " is past "@ + decimal(
                    LEAD_STOP_TOKENS as int,
                ) + ": stop the run per the skill's Stopping section"@,
            ]
        } else if lead.context > LEAD_WARN_TOKENS {
            seq![
                "lead context "@ + decimal(lead.context as int) + " of "@ + decimal(
                    LEAD_STOP_TOKENS as int,
                ),
            ]
        } else {
            Seq::empty()
        },
        None => Seq::empty(),
    }
}

/// How long a task has waited for the lead to judge its commit.
pub open spec fn unattended_seconds(task: TaskView, now: i64) -> int {
    match first_at(task.events, TaskState::CommittedUnverified) {
        Some(since) => whole_seconds(now - since),
        None => 0,
    }
}

/// What is said of a commit that the lead has not judged in time.
pub open spec fn unattended_warnings(task: TaskView, now: i64) -> Seq<Seq<char>> {
    if task.state == TaskState::CommittedUnverified && unattended_seconds(task, now)
        > COMMIT_UNATTENDED_SECONDS {
        seq![
            "task "@ + decimal(task.id as int) + " committed_unverified for "@ + duration_words(
                unattended_seconds(task, now),
            ) + ", not accepted or aborted"@,
        ]
    } else {
        Seq::empty()
    }
}

/// What is said of the commits that the lead has not judged in time, task by task.
pub open spec fn all_unattended(tasks: Seq<TaskView>, now: i64) -> Seq<Seq<char>>
    decreases tasks.len(),
{
    if tasks.len() == 0 {
        Seq::empty()
    } else {
        all_unattended(tasks.drop_last(), now) + unattended_warnings(tasks.last(), now)
    }
}

/// A moment that the store holds as text.
pub open spec fn moment(text: Option<Seq<char>>) -> Option<i64> {
    match text {
        Some(text) => i64_of(text),
        None => None,
    }
}

/// How the silence since a moment is told: nothing while it is within `limit` seconds.
pub open spec fn silence(
    since: Option<i64>,
    now: i64,
    limit: i64,
    silent_for: Seq<char>,
    never: Seq<char>,
) -> Option<Seq<char>> {
    match since {
        Some(since) => if whole_seconds(now - since) <= limit {
            None
        } else {
            Some(silent_for + duration_words(whole_seconds(now - since)))
        },
        None => Some(never),
    }
}

/// What is said where a task is out and nothing reads its state.
pub open spec fn unread_warnings(
    tasks: Seq<TaskView>,
    last_read: Option<Seq<char>>,
    now: i64,
) -> Seq<
    Seq<char>,
> {
    match (
        first_out(tasks),
        silence(
            moment(last_read),
            now,
            STATE_UNREAD_SECONDS,
            "no state read for "@,
            "state has never been read"@,
        ),
    ) {
        (Some(task), Some(unread)) => seq![
            unread + " while task "@ + decimal(task.id as int)
                + " is out: is a monitor armed on `state --task "@ + decimal(task.id as int) + "`?"@,
        ],
        _ => Seq::empty(),
    }
}

/// What is said where no daemon polls.
pub open spec fn daemon_warnings(seen: Option<Seq<char>>, now: i64) -> Seq<Seq<char>> {
    match silence(
        moment(seen),
        now,
        DAEMON_SILENT_SECONDS,
        "no daemon has polled for "@,
        "no daemon has run for this run"@,
    ) {
        Some(absent) => seq![absent + ": nothing observes sessions until `daemon` is started"@],
        None => Seq::empty(),
    }
}

/// Everything the lead must be told.
pub open spec fn warnings_of(
    sessions: Seq<SessionView>,
    tasks: Seq<TaskView>,
    last_state_read: Option<Seq<char>>,
    daemon_seen: Option<Seq<char>>,
    now: i64,
) -> Seq<Seq<char>> {
    lead_warnings(sessions) + all_unattended(tasks, now) + unread_warnings(
        tasks,
        last_state_read,
        now,
    ) + daemon_warnings(daemon_seen, now)
}

fn find_live_lead(sessions: &Vec<Session>) -> (r: Option<&Session>)
    ensures
        match r {
            Some(session) => live_lead(sessions_view(sessions@)) == Some(session@),
            None => live_lead(sessions_view(sessions@)) is None,
        },
{
    let ghost all = sessions_view(sessions@);
    let mut i: usize = 0;
    assert(all.skip(0) == all);
    while i < sessions.len()
        invariant
            i <= sessions@.len(),
            all == sessions_view(sessions@),
            live_lead(all.skip(i as int)) == live_lead(all),
        decreases sessions.len() - i,
    {
        assert(all.skip(i as int)[0] == sessions@[i as int]@);
        assert(all.skip(i as int).drop_first() == all.skip(i + 1));
        if sessions[i].role() == Role::Lead && sessions[i].is_live() {
            return Some(&sessions[i]);
        }
        i += 1;
    }
    None
}

fn parse_moment(text: Option<&str>) -> (r: Option<i64>)
    ensures
        r == moment(opt_str(text)),
{
    match text {
        Some(text) => parse_i64(text),
        None => None,
    }
}

fn tell_silence(
    since: Option<i64>,
    now: i64,
    limit: i64,
    silent_for: &str,
    never: &str,
) -> (r: Option<
    String,
>)
    ensures
        silence(since, now, limit, silent_for@, never@) == (match r {
            Some(text) => Some(text@),
            None => None,
        }),
{
    match since {
        Some(since) => {
            let seconds = seconds_between(now, since);
            if seconds <= limit {
                None
            } else {
                Some(concat2(silent_for, duration_text(seconds).as_str()))
            }
        },
        None => Some(never.to_owned()),
    }
}

/// Everything the lead must be told, from what the store holds at `timestamp`.
pub fn standing_warnings(
    sessions: &Vec<Session>,
    tasks: &Vec<Task>,
    last_state_read: Option<&str>,
    daemon_seen: Option<&str>,
    timestamp: i64,
) -> (r: Vec<String>)
    ensures
        texts(r@) == warnings_of(
            sessions_view(sessions@),
            tasks_view(tasks@),
            opt_str(last_state_read),
            opt_str(daemon_seen),
            timestamp,
        ),
{
    let mut warnings: Vec<String> = Vec::new();
    if let Some(lead) = find_live_lead(sessions) {
        let context = lead.context();
        if context > LEAD_STOP_TOKENS {
            let mut text = concat3("lead context ", decimal_text(context).as_str(), " is past ");
            text.append(decimal_text(LEAD_STOP_TOKENS).as_str());
            text.append(": stop the run per the skill's Stopping section");
            warnings.push(text);
        } else if context > LEAD_WARN_TOKENS {
            let mut text = concat3("lead context ", decimal_text(context).as_str(), " of ");
            text.append(decimal_text(LEAD_STOP_TOKENS).as_str());
            warnings.push(text);
        }
    }
    let ghost lead_part = lead_warnings(sessions_view(sessions@));
    assert(texts(warnings@) == lead_part);
    let ghost all = tasks_view(tasks@);
    let mut i: usize = 0;
    while i < tasks.len()
        invariant
            i <= tasks@.len(),
            all == tasks_view(tasks@),
            texts(warnings@) == lead_part + all_unattended(all.take(i as int), timestamp),
        decreases tasks.len() - i,
    {
        let task = &tasks[i];
        let ghost before = warnings@;
        assert(all.take(i + 1).drop_last() == all.take(i as int));
        assert(all.take(i + 1).last() == task@);
        if task.state == TaskState::CommittedUnverified {
            let age = match first_event_at(task, TaskState::CommittedUnverified) {
                Some(since) => seconds_between(timestamp, since),
                None => 0,
            };
            if age > COMMIT_UNATTENDED_SECONDS {
                let mut text = concat3(
                    "task ",
                    decimal_text(task.id).as_str(),
                    " committed_unverified for ",
                );
                text.append(duration_text(age).as_str());
                text.append(", not accepted or aborted");
                warnings.push(text);
                assert(texts(warnings@) == texts(before) + unattended_warnings(task@, timestamp));
            }
        }
        assert(texts(warnings@) == texts(before) + unattended_warnings(task@, timestamp));
        i += 1;
    }
    assert(all.take(tasks@.len() as int) == all);
    let ghost two_parts = texts(warnings@);
    if let Some(task) = find_out(tasks) {
        let unread = tell_silence(
            parse_moment(last_state_read),
            timestamp,
            STATE_UNREAD_SECONDS,
            "no state read for ",
            "state has never been read",
        );
        if let Some(unread) = unread {
            let mut text = concat3(
                unread.as_str(),
                " while task ",
                decimal_text(task.id).as_str(),
            );
            text.append(" is out: is a monitor armed on `state --task ");
            text.append(decimal_text(task.id).as_str());
            text.append("`?");
            warnings.push(text);
        }
    }
    assert(texts(warnings@) == two_parts + unread_warnings(all, opt_str(last_state_read), timestamp));
    let ghost three_parts = texts(warnings@);
    let absent = tell_silence(
        parse_moment(daemon_seen),
        timestamp,
        DAEMON_SILENT_SECONDS,
        "no daemon has polled for ",
        "no daemon has run for this run",
    );
    if let Some(absent) = absent {
        warnings.push(
            concat2(absent.as_str(), ": nothing observes sessions until `daemon` is started"),
        );
    }
    assert(texts(warnings@) == three_parts + daemon_warnings(opt_str(daemon_seen), timestamp));
    warnings
}

/// Nothing is said exactly when the lead's context is small, every commit was judged in time, the
/// state of a task that is out was read lately, and a daemon polls.
pub proof fn law_silence_means_all_is_well(
    sessions: Seq<SessionView>,
    tasks: Seq<TaskView>,
    last_state_read: Option<Seq<char>>,
    daemon_seen: Option<Seq<char>>,
    now: i64,
)
    ensures
        warnings_of(sessions, tasks, last_state_read, daemon_seen, now).len() == 0 <==> {
            &&& live_lead(sessions) matches Some(lead) ==> lead.context <= LEAD_WARN_TOKENS
            &&& forall|i: int|
                0 <= i < tasks.len() && (#[trigger] tasks[i]).state
                    == TaskState::CommittedUnverified ==> unattended_seconds(tasks[i], now)
                    <= COMMIT_UNATTENDED_SECONDS
            &&& first_out(tasks) is Some ==> (moment(last_state_read) matches Some(read)
                && whole_seconds(now - read) <= STATE_UNREAD_SECONDS)
            &&& moment(daemon_seen) matches Some(seen)
            &&& whole_seconds(now - seen) <= DAEMON_SILENT_SECONDS
        },
{
    lemma_attended(tasks, now);
}

proof fn lemma_attended(tasks: Seq<TaskView>, now: i64)
    ensures
        all_unattended(tasks, now).len() == 0 <==> forall|i: int|
            0 <= i < tasks.len() && (#[trigger] tasks[i]).state == TaskState::CommittedUnverified
                ==> unattended_seconds(tasks[i], now) <= COMMIT_UNATTENDED_SECONDS,
    decreases tasks.len(),
{
    if tasks.len() > 0 {
        let rest = tasks.drop_last();
        let last = tasks.len() - 1;
        lemma_attended(rest, now);
        assert(tasks[last] == tasks.last());
        assert(forall|i: int| 0 <= i < rest.len() ==> #[trigger] tasks[i] == rest[i]);
        if all_unattended(tasks, now).len() == 0 {
            assert(all_unattended(rest, now).len() == 0);
            assert(unattended_warnings(tasks.last(), now).len() == 0);
        } else if all_unattended(rest, now).len() > 0 {
            let i = choose|i: int|
                0 <= i < rest.len() && (#[trigger] rest[i]).state == TaskState::CommittedUnverified
                    && unattended_seconds(rest[i], now) > COMMIT_UNATTENDED_SECONDS;
            assert(tasks[i] == rest[i]);
        }
    }
}

/// Whole seconds are as many as fit into the span, before now as after it.
pub proof fn law_seconds_are_whole(millis: int)
    ensures
        millis >= 0 ==> 1000 * whole_seconds(millis) <= millis < 1000 * (whole_seconds(millis) + 1),
        whole_seconds(-millis) == -whole_seconds(millis),
{
}

/// Less than a minute is told in seconds, and anything more in the minutes that have passed whole.
pub proof fn law_duration_is_told_in_one_unit(seconds: int, minutes: int)
    ensures
        seconds < 60 ==> duration_words(seconds) == decimal(seconds) + "s"@,
        seconds >= 60 && 60 * minutes <= seconds < 60 * (minutes + 1) ==> duration_words(seconds)
            == decimal(minutes) + "m"@,
{
}

/// The lead that is warned is the first that leads and has not stopped; there is none where none
/// does.
pub proof fn law_live_lead_is_the_first(sessions: Seq<SessionView>)
    ensures
        match live_lead(sessions) {
            Some(lead) => exists|i: int|
                {
                    &&& 0 <= i < sessions.len()
                    &&& #[trigger] sessions[i] == lead
                    &&& lead.role == Role::Lead
                    &&& lead.stopped_at is None
                    &&& forall|j: int|
                        0 <= j < i ==> (#[trigger] sessions[j]).role != Role::Lead
                            || sessions[j].stopped_at is Some
                },
            None => forall|j: int|
                0 <= j < sessions.len() ==> (#[trigger] sessions[j]).role != Role::Lead
                    || sessions[j].stopped_at is Some,
        },
    decreases sessions.len(),
{
    if sessions.len() > 0 {
        if sessions[0].role == Role::Lead && sessions[0].is_live() {
            assert(sessions[0] == live_lead(sessions)->Some_0);
        } else {
            let rest = sessions.drop_first();
            law_live_lead_is_the_first(rest);
            assert(forall|j: int| 0 < j < sessions.len() ==> #[trigger] sessions[j] == rest[j - 1]);
            if let Some(lead) = live_lead(rest) {
                let i = choose|i: int|
                    {
                        &&& 0 <= i < rest.len()
                        &&& #[trigger] rest[i] == lead
                        &&& forall|j: int|
                            0 <= j < i ==> (#[trigger] rest[j]).role != Role::Lead
                                || rest[j].stopped_at is Some
                    };
                assert(sessions[i + 1] == lead);
            }
        }
    }
}

/// The lead's context is told of past 200000, and the lead is told to stop past 250000.
pub proof fn law_lead_is_warned_of_its_context(sessions: Seq<SessionView>, at: int)
    requires
        0 <= at < sessions.len(),
        sessions[at].role == Role::Lead,
        sessions[at].stopped_at is None,
        forall|j: int|
            0 <= j < at ==> (#[trigger] sessions[j]).role != Role::Lead || sessions[j].stopped_at
                is Some,
    ensures
        sessions[at].context <= 200_000 ==> lead_warnings(sessions).len() == 0,
        200_000 < sessions[at].context <= 250_000 ==> lead_warnings(sessions) == seq![
            "lead context "@ + decimal(sessions[at].context as int) + " of "@ + decimal(250_000),
        ],
        sessions[at].context > 250_000 ==> lead_warnings(sessions) == seq![
            "lead context "@ + decimal(sessions[at].context as int) + " is past "@ + decimal(
                250_000,
            ) + ": stop the run per the skill's Stopping section"@,
        ],
{
    law_live_lead_is_the_first(sessions);
    let lead = live_lead(sessions)->Some_0;
    let i = choose|i: int|
        {
            &&& 0 <= i < sessions.len()
            &&& #[trigger] sessions[i] == lead
            &&& lead.role == Role::Lead
            &&& lead.stopped_at is None
            &&& forall|j: int|
                0 <= j < i ==> (#[trigger] sessions[j]).role != Role::Lead
                    || sessions[j].stopped_at is Some
        };
    assert(i == at);
}

/// A commit is told of exactly where its task still awaits judgement more than five minutes after
/// it first did.
pub proof fn law_commit_is_missed_after_five_minutes(task: TaskView, now: i64, at: int)
    requires
        0 <= at < task.events.len(),
        task.events[at].state == TaskState::CommittedUnverified,
        forall|j: int|
            0 <= j < at ==> (#[trigger] task.events[j]).state != TaskState::CommittedUnverified,
    ensures
        unattended_warnings(task, now).len() == (if task.state == TaskState::CommittedUnverified
            && now - task.events[at].created_at >= 301_000 {
            1nat
        } else {
            0nat
        }),
        unattended_warnings(task, now).len() > 0 ==> unattended_warnings(task, now)[0] == "task "@
            + decimal(task.id as int) + " committed_unverified for "@ + duration_words(
            whole_seconds(now - task.events[at].created_at),
        ) + ", not accepted or aborted"@,
{
    law_oldest_event_is_found(task.events, TaskState::CommittedUnverified);
    let since = first_at(task.events, TaskState::CommittedUnverified)->Some_0;
    let events = task.events;
    let i = choose|i: int|
        {
            &&& 0 <= i < events.len()
            &&& (#[trigger] events[i]).state == TaskState::CommittedUnverified
            &&& events[i].created_at == since
            &&& forall|j: int|
                0 <= j < i ==> (#[trigger] events[j]).state != TaskState::CommittedUnverified
        };
    assert(i == at);
}

/// What is said of the commits of two lists is said of the first's and then of the second's.
pub proof fn law_commits_are_told_task_by_task(
    first: Seq<TaskView>,
    second: Seq<TaskView>,
    now: i64,
)
    ensures
        all_unattended(first + second, now) == all_unattended(first, now) + all_unattended(
            second,
            now,
        ),
        first.len() == 1 ==> all_unattended(first, now) == unattended_warnings(first[0], now),
        all_unattended(Seq::empty(), now).len() == 0,
    decreases second.len(),
{
    if second.len() == 0 {
        assert(first + second =~= first);
        assert(all_unattended(first, now) + all_unattended(second, now) =~= all_unattended(
            first,
            now,
        ));
    } else {
        law_commits_are_told_task_by_task(first, second.drop_last(), now);
        assert((first + second).drop_last() =~= first + second.drop_last());
        assert((first + second).last() == second.last());
        assert(all_unattended(first + second, now) =~= all_unattended(first, now)
            + all_unattended(second, now));
    }
    if first.len() == 1 {
        assert(first.drop_last() =~= Seq::empty());
        assert(all_unattended(first, now) =~= unattended_warnings(first[0], now));
    }
}

/// That nothing reads the state is told exactly where a task is dispatched or in flight and the
/// state was read more than two minutes ago or never; the first such task is named.
#[verifier::rlimit(40)]
pub proof fn law_unread_state_is_told_after_two_minutes(
    tasks: Seq<TaskView>,
    last_read: Option<Seq<char>>,
    now: i64,
    at: int,
)
    requires
        0 <= at <= tasks.len(),
        forall|j: int|
            0 <= j < at ==> (#[trigger] tasks[j]).state != TaskState::Dispatched && tasks[j].state
                != TaskState::InFlight,
        at < tasks.len() ==> tasks[at].state == TaskState::Dispatched || tasks[at].state
            == TaskState::InFlight,
    ensures
        unread_warnings(tasks, last_read, now).len() == (if at < tasks.len() && (last_read is None
            || i64_of(last_read->Some_0) is None || now - i64_of(last_read->Some_0)->Some_0
            >= 121_000) {
            1nat
        } else {
            0nat
        }),
        unread_warnings(tasks, last_read, now).len() > 0 ==> unread_warnings(
            tasks,
            last_read,
            now,
        )[0] == (if last_read is None || i64_of(last_read->Some_0) is None {
            "state has never been read"@
        } else {
            "no state read for "@ + duration_words(
                whole_seconds(now - i64_of(last_read->Some_0)->Some_0),
            )
        }) + " while task "@ + decimal(tasks[at].id as int)
            + " is out: is a monitor armed on `state --task "@ + decimal(tasks[at].id as int)
            + "`?"@,
{
    law_first_task_that_is_out(tasks);
    if let Some(task) = first_out(tasks) {
        let i = choose|i: int|
            {
                &&& 0 <= i < tasks.len()
                &&& #[trigger] tasks[i] == task
                &&& task.state == TaskState::Dispatched || task.state == TaskState::InFlight
                &&& forall|j: int|
                    0 <= j < i ==> (#[trigger] tasks[j]).state != TaskState::Dispatched
                        && tasks[j].state != TaskState::InFlight
            };
        assert(i == at);
    }
}

/// That no daemon polls is told exactly where none was seen within the last thirty seconds.
pub proof fn law_silent_daemon_is_told_after_thirty_seconds(seen: Option<Seq<char>>, now: i64)
    ensures
        daemon_warnings(seen, now).len() == (if seen is None || i64_of(seen->Some_0) is None || now
            - i64_of(seen->Some_0)->Some_0 >= 31_000 {
            1nat
        } else {
            0nat
        }),
        seen is None ==> daemon_warnings(seen, now) == seq![
            "no daemon has run for this run"@
                + ": nothing observes sessions until `daemon` is started"@,
        ],
{
}

/// Nothing that is to be told is left out, and nothing is added: the lead's context comes first,
/// then the commits, then the state that nothing reads, and the silent daemon last.
pub proof fn law_every_warning_is_told(
    sessions: Seq<SessionView>,
    tasks: Seq<TaskView>,
    last_state_read: Option<Seq<char>>,
    daemon_seen: Option<Seq<char>>,
    now: i64,
)
    ensures
        ({
            let all = warnings_of(sessions, tasks, last_state_read, daemon_seen, now);
            let lead = lead_warnings(sessions);
            let commits = all_unattended(tasks, now);
            let unread = unread_warnings(tasks, last_state_read, now);
            let daemon = daemon_warnings(daemon_seen, now);
            &&& all.len() == lead.len() + commits.len() + unread.len() + daemon.len()
            &&& all.take(lead.len() as int) == lead
            &&& all.subrange(lead.len() as int, (lead.len() + commits.len()) as int) == commits
            &&& all.skip((all.len() - daemon.len()) as int) == daemon
            &&& unread.len() > 0 ==> all[(lead.len() + commits.len()) as int] == unread[0]
        }),
{
    let all = warnings_of(sessions, tasks, last_state_read, daemon_seen, now);
    let lead = lead_warnings(sessions);
    let commits = all_unattended(tasks, now);
    let daemon = daemon_warnings(daemon_seen, now);
    assert(all.take(lead.len() as int) =~= lead);
    assert(all.subrange(lead.len() as int, (lead.len() + commits.len()) as int) =~= commits);
    assert(all.skip((all.len() - daemon.len()) as int) =~= daemon);
}

/// A daemon that was seen too long ago is told of with how long ago that was.
pub proof fn law_silent_daemon_is_told_in_words(seen: Seq<char>, at: i64, now: i64)
    requires
        i64_of(seen) == Some(at),
        now - at >= 31_000,
    ensures
        daemon_warnings(Some(seen), now) == seq![
            "no daemon has polled for "@ + duration_words(whole_seconds(now - at))
                + ": nothing observes sessions until `daemon` is started"@,
        ],
{
}

} // verus!
