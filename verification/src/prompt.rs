//! Delivery of a prompt: it is sent again until the session is seen to have it.

use vstd::prelude::*;
use vstd::string::*;

use crate::error::Error;
use crate::events::{Event, EventView};
use crate::number::{decimal, decimal_text};
use crate::text::{as_opt_str, opt_str, opt_view, same, take_chars};

verus! {

/// So often a prompt is sent before it is given up.
pub const PROMPT_ATTEMPTS: i64 = 3;

/// So much of a prompt is looked for in the session's log.
pub const NEEDLE_CHARS: usize = 80;

/// Whether a session of this status waits for something to do.
pub open spec fn is_idle(status: Seq<char>) -> bool {
    status == "idle"@ || status == "done"@
}

/// Whether a session of this status waits for something to do.
pub fn agent_is_idle(status: &str) -> (r: bool)
    ensures
        r == is_idle(status@),
{
    same(status, "idle") || same(status, "done")
}

/// Whether a session of this status is at work.
pub open spec fn is_active(status: Option<Seq<char>>) -> bool {
    status == Some("working"@) || status == Some("busy"@) || status == Some("blocked"@)
}

/// Whether a session of this status is at work.
pub fn agent_is_active(status: Option<&str>) -> (r: bool)
    ensures
        r == is_active(opt_str(status)),
{
    match status {
        Some(status) => same(status, "working") || same(status, "busy") || same(status, "blocked"),
        None => false,
    }
}

/// How a prompt arrived.
#[derive(Clone, Copy, Debug, PartialEq, Eq, Structural)]
pub enum PromptLanding {
    /// The session has it before it.
    Landed,
    /// The session will come to it.
    Queued,
}

/// A prompt on its way to a session.
#[derive(Debug)]
pub struct Prompting {
    name: String,
    needle: String,
    landing_seconds: i64,
    attempt: i64,
    prior_idle: bool,
    log_before: Option<String>,
    offset: u64,
    sent_at: i64,
}

pub struct PromptingView {
    /// The session.
    pub name: Seq<char>,
    /// What is looked for in its log.
    pub needle: Seq<char>,
    /// How long one sending is given to land.
    pub landing_seconds: i64,
    /// How many times the prompt has been sent, this time included.
    pub attempt: int,
    /// Whether the session had nothing to do before the first sending.
    pub prior_idle: bool,
    /// Where the session's log stood before this sending.
    pub log_before: Option<Seq<char>>,
    /// From where in the log the prompt is looked for.
    pub offset: u64,
    /// When it was sent this time, in milliseconds.
    pub sent_at: i64,
}

impl View for Prompting {
    type V = PromptingView;

    closed spec fn view(&self) -> PromptingView {
        PromptingView {
            name: self.name@,
            needle: self.needle@,
            landing_seconds: self.landing_seconds,
            attempt: self.attempt as int,
            prior_idle: self.prior_idle,
            log_before: opt_view(self.log_before),
            offset: self.offset,
            sent_at: self.sent_at,
        }
    }
}

/// The beginning of a prompt.
pub open spec fn needle_of(text: Seq<char>) -> Seq<char> {
    if text.len() <= NEEDLE_CHARS {
        text
    } else {
        text.take(NEEDLE_CHARS as int)
    }
}

impl PromptingView {
    /// This prompt's state before anything was sent.
    pub open spec fn fresh(
        name: Seq<char>,
        text: Seq<char>,
        landing_seconds: i64,
    ) -> PromptingView {
        PromptingView {
            name,
            needle: needle_of(text),
            landing_seconds,
            attempt: 1,
            prior_idle: true,
            log_before: None,
            offset: 0,
            sent_at: 0,
        }
    }

    /// Whether the number of sendings is one that can come about.
    pub open spec fn well_formed(self) -> bool {
        1 <= self.attempt <= PROMPT_ATTEMPTS
    }

    /// This prompt's state once the session was asked how it is, just before a sending.
    pub open spec fn readied(
        self,
        status: Option<Seq<char>>,
        log: Option<Seq<char>>,
        size: u64,
    ) -> PromptingView {
        PromptingView {
            prior_idle: if self.attempt == 1 {
                status matches Some(status) ==> is_idle(status)
            } else {
                self.prior_idle
            },
            log_before: log,
            offset: size,
            ..self
        }
    }

    /// Whether this sending is still given time at `now`.
    pub open spec fn is_waiting(self, now: i64) -> bool {
        now < self.sent_at + self.landing_seconds * 1000
    }

    /// This prompt's state once the log is looked at here: another log is read from its beginning.
    pub open spec fn looking(self, log: Option<Seq<char>>) -> PromptingView {
        PromptingView {
            offset: if log == self.log_before {
                self.offset
            } else {
                0
            },
            ..self
        }
    }

    /// This prompt's state after a sending that did not land: `None` where that was the last one.
    pub open spec fn after_miss(self) -> Option<PromptingView> {
        if self.attempt < PROMPT_ATTEMPTS {
            Some(PromptingView { attempt: self.attempt + 1, ..self })
        } else {
            None
        }
    }

    /// Whether the prompt has arrived: its words stand in the log, or a session that had nothing
    /// to do has gone to work.
    pub open spec fn landing(
        self,
        seen: Option<PromptLanding>,
        status: Option<Seq<char>>,
    ) -> Option<
        PromptLanding,
    > {
        match seen {
            Some(landing) => Some(landing),
            None => if self.prior_idle && is_active(status) {
                Some(PromptLanding::Landed)
            } else {
                None
            },
        }
    }
}

/// What follows a sending that did not land.
#[derive(Debug)]
pub enum PromptMissed {
    /// The prompt is sent once more.
    Resend(Prompting),
    /// The prompt is given up: this is recorded, and this is the error.
    Failed { event: Event, error: Error },
}

impl Prompting {
    #[verifier::type_invariant]
    spec fn well_formed(self) -> bool {
        1 <= self.attempt <= PROMPT_ATTEMPTS
    }

    /// A prompt for the session of this name. Each sending is given so many seconds to land.
    pub fn new(name: &str, text: &str, landing_seconds: i64) -> (r: Prompting)
        ensures
            r@ == PromptingView::fresh(name@, text@, landing_seconds),
    {
        let needle = take_chars(text, NEEDLE_CHARS);
        assert(text@.take(text@.len() as int) == text@);
        Prompting {
            name: name.to_owned(),
            needle,
            landing_seconds,
            attempt: 1,
            prior_idle: true,
            log_before: None,
            offset: 0,
            sent_at: 0,
        }
    }

    /// The session.
    pub fn name(&self) -> (r: &str)
        ensures
            r@ == self@.name,
    {
        self.name.as_str()
    }

    /// What is looked for in the session's log.
    pub fn needle(&self) -> (r: &str)
        ensures
            r@ == self@.needle,
    {
        self.needle.as_str()
    }

    /// Takes note of how the session is just before a sending: its status where it has one, and
    /// its log and the log's size.
    pub fn ready(self, status: Option<&str>, log: Option<String>, size: u64) -> (r: Prompting)
        ensures
            r@ == self@.readied(opt_str(status), opt_view(log), size),
    {
        proof {
            use_type_invariant(&self);
        }
        let prior_idle = if self.attempt == 1 {
            match status {
                Some(status) => agent_is_idle(status),
                None => true,
            }
        } else {
            self.prior_idle
        };
        Prompting {
            name: self.name,
            needle: self.needle,
            landing_seconds: self.landing_seconds,
            attempt: self.attempt,
            prior_idle,
            log_before: log,
            offset: size,
            sent_at: self.sent_at,
        }
    }

    /// Takes note of when the prompt was sent.
    pub fn sent(self, now: i64) -> (r: Prompting)
        ensures
            r@ == (PromptingView { sent_at: now, ..self@ }),
    {
        proof {
            use_type_invariant(&self);
        }
        Prompting {
            name: self.name,
            needle: self.needle,
            landing_seconds: self.landing_seconds,
            attempt: self.attempt,
            prior_idle: self.prior_idle,
            log_before: self.log_before,
            offset: self.offset,
            sent_at: now,
        }
    }

    /// Whether this sending is still given time.
    pub fn waiting(&self, now: i64) -> (r: bool)
        ensures
            r == self@.is_waiting(now),
    {
        (now as i128) < (self.sent_at as i128) + (self.landing_seconds as i128) * 1000
    }

    /// Takes note of where the log stands now.
    pub fn look(self, log: Option<&str>) -> (r: Prompting)
        ensures
            r@ == self@.looking(opt_str(log)),
    {
        proof {
            use_type_invariant(&self);
        }
        let unchanged = match (log, as_opt_str(&self.log_before)) {
            (Some(log), Some(before)) => same(log, before),
            (None, None) => true,
            _ => false,
        };
        let offset: u64 = if unchanged {
            self.offset
        } else {
            0
        };
        Prompting {
            name: self.name,
            needle: self.needle,
            landing_seconds: self.landing_seconds,
            attempt: self.attempt,
            prior_idle: self.prior_idle,
            log_before: self.log_before,
            offset,
            sent_at: self.sent_at,
        }
    }

    /// From where in the log the prompt is looked for.
    pub fn offset(&self) -> (r: u64)
        ensures
            r == self@.offset,
    {
        self.offset
    }

    /// Whether the prompt has arrived, given what was seen of it in the log and the session's
    /// status.
    pub fn landing(&self, seen: Option<PromptLanding>, status: Option<&str>) -> (r: Option<
        PromptLanding,
    >)
        ensures
            r == self@.landing(seen, opt_str(status)),
    {
        match seen {
            Some(landing) => Some(landing),
            None => if self.prior_idle && agent_is_active(status) {
                Some(PromptLanding::Landed)
            } else {
                None
            },
        }
    }

    /// What is recorded of a prompt that arrived in this way.
    pub fn landed(&self, landing: PromptLanding) -> (r: Option<Event>)
        ensures
            match landing {
                PromptLanding::Landed => r is None,
                PromptLanding::Queued => r matches Some(event) && event@ == (EventView {
                    kind: "prompt-queued"@,
                    detail: self@.name,
                }),
            },
    {
        match landing {
            PromptLanding::Landed => None,
            PromptLanding::Queued => Some(Event::new("prompt-queued", self.name.clone())),
        }
    }

    /// The line that tells that a sending did not land.
    pub fn missed_line(&self) -> (r: String)
        ensures
            r@ == "prompt did not land (attempt "@ + decimal(self@.attempt) + "), resending"@,
    {
        "prompt did not land (attempt ".to_owned().concat(
            decimal_text(self.attempt).as_str(),
        ).concat("), resending")
    }

    /// What follows a sending that did not land in its time.
    pub fn missed(self) -> (r: PromptMissed)
        ensures
            match r {
                PromptMissed::Resend(next) => self@.after_miss() == Some(next@),
                PromptMissed::Failed { event, error } => {
                    &&& self@.after_miss() is None
                    &&& event@ == (EventView { kind: "prompt-failed"@, detail: self@.name })
                    &&& error@ == seq![
                        "supervisor: prompt to "@ + self@.name + " never landed after "@ + decimal(
                            PROMPT_ATTEMPTS as int,
                        ) + " attempts"@,
                    ]
                },
            },
    {
        proof {
            use_type_invariant(&self);
        }
        if self.attempt < PROMPT_ATTEMPTS {
            return PromptMissed::Resend(
                Prompting {
                    name: self.name,
                    needle: self.needle,
                    landing_seconds: self.landing_seconds,
                    attempt: self.attempt + 1,
                    prior_idle: self.prior_idle,
                    log_before: self.log_before,
                    offset: self.offset,
                    sent_at: self.sent_at,
                },
            );
        }
        let message = "supervisor: prompt to ".to_owned().concat(self.name.as_str()).concat(
            " never landed after ",
        ).concat(decimal_text(PROMPT_ATTEMPTS).as_str()).concat(" attempts");
        PromptMissed::Failed {
            event: Event::new("prompt-failed", self.name),
            error: Error::new(message),
        }
    }
}

/// The state of a prompt after so many sendings that did not land: `None` once it was given up.
pub open spec fn after_misses(start: PromptingView, misses: nat) -> Option<PromptingView>
    decreases misses,
{
    if misses == 0 {
        Some(start)
    } else {
        match after_misses(start, (misses - 1) as nat) {
            Some(prompt) => prompt.after_miss(),
            None => None,
        }
    }
}

/// A prompt is sent three times at most: the third sending that does not land ends it.
pub proof fn law_prompt_is_sent_three_times_at_most(start: PromptingView, misses: nat)
    requires
        start.attempt == 1,
    ensures
        match after_misses(start, misses) {
            Some(prompt) => misses < PROMPT_ATTEMPTS && prompt.attempt == misses + 1,
            None => misses >= PROMPT_ATTEMPTS,
        },
    decreases misses,
{
    if misses > 0 {
        law_prompt_is_sent_three_times_at_most(start, (misses - 1) as nat);
    }
}

/// A session that was busy before the first sending is only believed to have the prompt once its
/// words stand in the log, at every sending.
pub proof fn law_busy_session_must_show_the_prompt(
    prompt: PromptingView,
    status: Option<Seq<char>>,
    log: Option<Seq<char>>,
    size: u64,
    attempt: int,
    later_status: Option<Seq<char>>,
    later_log: Option<Seq<char>>,
    later_size: u64,
    seen: Option<PromptLanding>,
    status_at_check: Option<Seq<char>>,
)
    requires
        prompt.attempt == 1,
        status matches Some(status) && !is_idle(status),
        attempt > 1,
    ensures
        ({
            let first = prompt.readied(status, log, size);
            let again = PromptingView { attempt, ..first }.readied(
                later_status,
                later_log,
                later_size,
            );
            &&& first.landing(seen, status_at_check) == seen
            &&& again.landing(seen, status_at_check) == seen
        }),
{
}

/// What a prompt prints that was waited for: the session's last words.
pub fn answer_text(latest: Option<String>) -> (r: String)
    ensures
        match latest {
            Some(text) => r@ == text@,
            None => r@ == "(no assistant text)"@,
        },
{
    match latest {
        Some(text) => text,
        None => "(no assistant text)".to_owned(),
    }
}

/// What is recorded of a session that a prompt of the daemon's own did not reach.
pub fn unreachable_event(name: &str, error: &Error) -> (r: Event)
    ensures
        r@ == (EventView {
            kind: "prompt-unreachable"@,
            detail: name@ + ": "@ + error@[0],
        }),
{
    Event::new("prompt-unreachable", name.to_owned().concat(": ").concat(error.message()))
}

/// A session waits for something to do exactly where its status is one of two, and is at work where
/// it is one of three others; it is never both.
pub proof fn law_idle_session_is_not_at_work(status: Seq<char>)
    ensures
        is_idle(status) <==> status == "idle"@ || status == "done"@,
        is_active(Some(status)) <==> status == "working"@ || status == "busy"@ || status
            == "blocked"@,
        !is_active(None),
        !(is_idle(status) && is_active(Some(status))),
{
    reveal_strlit("idle");
    reveal_strlit("done");
    reveal_strlit("working");
    reveal_strlit("busy");
    reveal_strlit("blocked");
    assert("idle"@.len() == 4 && "done"@.len() == 4 && "busy"@.len() == 4);
    assert("working"@.len() == 7 && "blocked"@.len() == 7);
    assert("busy"@[0] == 'b' && "idle"@[0] == 'i' && "done"@[0] == 'd');
}

/// What is looked for in a log is the beginning of the prompt: eighty characters, or all of it
/// where it is shorter.
pub proof fn law_prompt_is_known_by_its_beginning(
    name: Seq<char>,
    text: Seq<char>,
    landing_seconds: i64,
)
    ensures
        ({
            let fresh = PromptingView::fresh(name, text, landing_seconds);
            &&& fresh.needle.is_prefix_of(text)
            &&& fresh.needle.len() == (if text.len() < 80 {
                text.len()
            } else {
                80
            })
            &&& fresh.name == name
            &&& fresh.landing_seconds == landing_seconds
            &&& fresh.attempt == 1
        }),
{
    let fresh = PromptingView::fresh(name, text, landing_seconds);
    assert(fresh.needle =~= text.subrange(0, fresh.needle.len() as int));
}

/// Before each sending the log and its size are noted. Whether the session had nothing to do is
/// noted before the first sending only: it had not where its status says otherwise.
pub proof fn law_sending_begins_where_the_log_ends(
    prompt: PromptingView,
    status: Option<Seq<char>>,
    log: Option<Seq<char>>,
    size: u64,
)
    ensures
        ({
            let ready = prompt.readied(status, log, size);
            &&& ready.log_before == log
            &&& ready.offset == size
            &&& prompt.attempt == 1 ==> (ready.prior_idle <==> status is None || status == Some(
                "idle"@,
            ) || status == Some("done"@))
            &&& prompt.attempt != 1 ==> ready.prior_idle == prompt.prior_idle
            &&& ready.name == prompt.name
            &&& ready.needle == prompt.needle
            &&& ready.attempt == prompt.attempt
            &&& ready.landing_seconds == prompt.landing_seconds
            &&& ready.sent_at == prompt.sent_at
            &&& ready.looking(log) == ready
        }),
{
}

/// A sending is given its seconds from the moment it was sent, and no more.
pub proof fn law_sending_is_given_its_time(prompt: PromptingView, now: i64)
    ensures
        prompt.is_waiting(now) <==> now - prompt.sent_at < 1000 * prompt.landing_seconds,
{
}

/// The same log is read on from where it stood; another one is read from its beginning. Nothing
/// else of the prompt changes.
pub proof fn law_other_log_is_read_from_its_beginning(
    prompt: PromptingView,
    log: Option<Seq<char>>,
)
    ensures
        log == prompt.log_before ==> prompt.looking(log) == prompt,
        log != prompt.log_before ==> prompt.looking(log) == (PromptingView { offset: 0, ..prompt }),
{
}

/// What was seen of a prompt in the log decides whether it arrived. Where nothing was seen, it has
/// landed exactly where the session had nothing to do before and is at work now.
pub proof fn law_prompt_lands_when_seen_or_taken_up(
    prompt: PromptingView,
    seen: PromptLanding,
    status: Option<Seq<char>>,
)
    ensures
        prompt.landing(Some(seen), status) == Some(seen),
        prompt.prior_idle && (status == Some("working"@) || status == Some("busy"@) || status
            == Some("blocked"@)) ==> prompt.landing(None, status) == Some(PromptLanding::Landed),
        !(prompt.prior_idle && (status == Some("working"@) || status == Some("busy"@) || status
            == Some("blocked"@))) ==> prompt.landing(None, status) is None,
{
}

/// A sending that did not land is followed by another with everything as it was, and the third by
/// none.
pub proof fn law_third_miss_is_the_last(prompt: PromptingView)
    ensures
        prompt.attempt >= 3 ==> prompt.after_miss() is None,
        prompt.attempt < 3 ==> prompt.after_miss() == Some(
            PromptingView { attempt: prompt.attempt + 1, ..prompt },
        ),
{
}

} // verus!
