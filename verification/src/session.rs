//! The sessions under the supervisor's watch. Times are in milliseconds since the epoch.

use vstd::prelude::*;
use vstd::string::*;

use crate::error::Error;
use crate::text::{as_opt_str, blank, concat2, is_blank, opt_str, opt_view, quote, quoted, same};

verus! {

/// What a session is for. The lead runs the process, implementers take tasks, and the commentator
/// reviews commits; only implementers are ever dispatched to.
#[derive(Clone, Copy, Debug, PartialEq, Eq, Structural)]
pub enum Role {
    Lead,
    Implementer,
    Commentator,
}

impl Role {
    /// The name of this role.
    pub open spec fn name(self) -> Seq<char> {
        match self {
            Role::Lead => "lead"@,
            Role::Implementer => "implementer"@,
            Role::Commentator => "commentator"@,
        }
    }

    /// The role with this name.
    pub open spec fn named(value: Seq<char>) -> Option<Role> {
        if value == "lead"@ {
            Some(Role::Lead)
        } else if value == "implementer"@ {
            Some(Role::Implementer)
        } else if value == "commentator"@ {
            Some(Role::Commentator)
        } else {
            None
        }
    }

    /// The name of this role.
    pub fn as_str(self) -> (r: &'static str)
        ensures
            r@ == self.name(),
    {
        match self {
            Role::Lead => "lead",
            Role::Implementer => "implementer",
            Role::Commentator => "commentator",
        }
    }

    /// The role with this name.
    pub fn try_from(value: &str) -> (r: Result<Role, Error>)
        ensures
            match Role::named(value@) {
                Some(role) => r matches Ok(found) && found == role,
                None => r matches Err(error) && error@ == seq![
                    "unknown session role "@ + quoted(value@),
                ],
            },
    {
        if same(value, "lead") {
            Ok(Role::Lead)
        } else if same(value, "implementer") {
            Ok(Role::Implementer)
        } else if same(value, "commentator") {
            Ok(Role::Commentator)
        } else {
            Err(Error::new(concat2("unknown session role ", quote(value).as_str())))
        }
    }
}

/// A role is read back from its name.
pub proof fn law_role_name_is_read_back(role: Role)
    ensures
        Role::named(role.name()) == Some(role),
{
    reveal_strlit("lead");
    reveal_strlit("implementer");
    reveal_strlit("commentator");
    assert("lead"@[0] == 'l');
    assert("implementer"@[0] == 'i');
    assert("commentator"@[0] == 'c');
}

/// One agent session under the supervisor's watch. A row is one incarnation: relaunching the same
/// name stops this one and starts another.
#[derive(Debug, PartialEq)]
pub struct Session {
    id: i64,
    name: String,
    role: Role,
    external_session_id: String,
    launched_head: Option<String>,
    started_at: i64,
    stopped_at: Option<i64>,
    context: i64,
    context_max: i64,
    last_growth: i64,
    kicked_at: Option<i64>,
}

/// What a `Session` is.
pub struct SessionView {
    pub id: i64,
    pub name: Seq<char>,
    pub role: Role,
    pub external_session_id: Seq<char>,
    pub launched_head: Option<Seq<char>>,
    pub started_at: i64,
    pub stopped_at: Option<i64>,
    pub context: i64,
    pub context_max: i64,
    pub last_growth: i64,
    pub kicked_at: Option<i64>,
}

impl View for Session {
    type V = SessionView;

    closed spec fn view(&self) -> SessionView {
        SessionView {
            id: self.id,
            name: self.name@,
            role: self.role,
            external_session_id: self.external_session_id@,
            launched_head: opt_view(self.launched_head),
            started_at: self.started_at,
            stopped_at: self.stopped_at,
            context: self.context,
            context_max: self.context_max,
            last_growth: self.last_growth,
            kicked_at: self.kicked_at,
        }
    }
}

impl SessionView {
    /// Why there can be no such session: the first of its parts that is wrong.
    pub open spec fn refusal(self) -> Option<Seq<char>> {
        if self.id <= 0 {
            Some("id"@ + " must be positive"@)
        } else if is_blank(self.name) {
            Some("name"@ + " cannot be blank"@)
        } else if is_blank(self.external_session_id) {
            Some("external_session_id"@ + " cannot be blank"@)
        } else if self.launched_head matches Some(head) && is_blank(head) {
            Some("launched_head"@ + " cannot be blank"@)
        } else if self.context < 0 {
            Some("context"@ + " cannot be negative"@)
        } else if self.context_max < 0 {
            Some("context_max"@ + " cannot be negative"@)
        } else if self.context_max < self.context {
            Some("context_max cannot be below context"@)
        } else if self.stopped_at matches Some(stopped) && stopped < self.started_at {
            Some("stopped_at cannot precede started_at"@)
        } else if self.last_growth < self.started_at {
            Some("last_growth cannot precede started_at"@)
        } else if self.kicked_at matches Some(kicked) && kicked < self.started_at {
            Some("kicked_at cannot precede started_at"@)
        } else {
            None
        }
    }

    /// What holds of every session.
    pub open spec fn well_formed(self) -> bool {
        &&& self.id > 0
        &&& !is_blank(self.name)
        &&& !is_blank(self.external_session_id)
        &&& self.launched_head matches Some(head) ==> !is_blank(head)
        &&& 0 <= self.context <= self.context_max
        &&& self.started_at <= self.last_growth
        &&& self.stopped_at matches Some(stopped) ==> self.started_at <= stopped
        &&& self.kicked_at matches Some(kicked) ==> self.started_at <= kicked
    }

    /// A session is live until it is superseded or stopped.
    pub open spec fn is_live(self) -> bool {
        self.stopped_at is None
    }

    /// Only a live implementer can be dispatched a task.
    pub open spec fn can_take_task(self) -> bool {
        self.role == Role::Implementer && self.is_live()
    }

    /// Whether a stalled session may be nudged: once per stall.
    pub open spec fn can_be_kicked(self) -> bool {
        self.is_live() && self.kicked_at is None
    }

    /// Whole seconds since the transcript last grew; none where the clock runs behind.
    pub open spec fn quiet_seconds(self, now: i64) -> int {
        if now < self.last_growth {
            0
        } else {
            (now - self.last_growth) / 1000
        }
    }
}

fn require_positive(field: &str, value: i64) -> (r: Result<(), Error>)
    ensures
        if value > 0 {
            r is Ok
        } else {
            r matches Err(error) && error@ == seq![field@ + " must be positive"@]
        },
{
    if value > 0 {
        Ok(())
    } else {
        Err(Error::new(concat2(field, " must be positive")))
    }
}

fn require_nonnegative(field: &str, value: i64) -> (r: Result<(), Error>)
    ensures
        if value >= 0 {
            r is Ok
        } else {
            r matches Err(error) && error@ == seq![field@ + " cannot be negative"@]
        },
{
    if value >= 0 {
        Ok(())
    } else {
        Err(Error::new(concat2(field, " cannot be negative")))
    }
}

fn require_nonblank(field: &str, value: &str) -> (r: Result<(), Error>)
    ensures
        if is_blank(value@) {
            r matches Err(error) && error@ == seq![field@ + " cannot be blank"@]
        } else {
            r is Ok
        },
{
    if blank(value) {
        Err(Error::new(concat2(field, " cannot be blank")))
    } else {
        Ok(())
    }
}

fn require_optional_nonblank(field: &str, value: Option<&str>) -> (r: Result<(), Error>)
    ensures
        if opt_str(value) matches Some(text) && is_blank(text) {
            r matches Err(error) && error@ == seq![field@ + " cannot be blank"@]
        } else {
            r is Ok
        },
{
    match value {
        Some(text) => require_nonblank(field, text),
        None => Ok(()),
    }
}

impl Session {
    #[verifier::type_invariant]
    spec fn is_sound(self) -> bool {
        self@.well_formed()
    }

    /// A session with these parts, or what is wrong with them.
    #[allow(clippy::too_many_arguments)]
    pub fn new(
        id: i64,
        name: String,
        role: Role,
        external_session_id: String,
        launched_head: Option<String>,
        started_at: i64,
        stopped_at: Option<i64>,
        context: i64,
        context_max: i64,
        last_growth: i64,
        kicked_at: Option<i64>,
    ) -> (r: Result<Session, Error>)
        ensures
            ({
                let parts = SessionView {
                    id,
                    name: name@,
                    role,
                    external_session_id: external_session_id@,
                    launched_head: opt_view(launched_head),
                    started_at,
                    stopped_at,
                    context,
                    context_max,
                    last_growth,
                    kicked_at,
                };
                match parts.refusal() {
                    Some(message) => r matches Err(error) && error@ == seq![message],
                    None => r matches Ok(session) && session@ == parts && parts.well_formed(),
                }
            }),
    {
        require_positive("id", id)?;
        require_nonblank("name", name.as_str())?;
        require_nonblank("external_session_id", external_session_id.as_str())?;
        require_optional_nonblank("launched_head", as_opt_str(&launched_head))?;
        require_nonnegative("context", context)?;
        require_nonnegative("context_max", context_max)?;
        if context_max < context {
            return Err(Error::from_text("context_max cannot be below context"));
        }
        if let Some(stopped) = stopped_at {
            if stopped < started_at {
                return Err(Error::from_text("stopped_at cannot precede started_at"));
            }
        }
        if last_growth < started_at {
            return Err(Error::from_text("last_growth cannot precede started_at"));
        }
        if let Some(kicked) = kicked_at {
            if kicked < started_at {
                return Err(Error::from_text("kicked_at cannot precede started_at"));
            }
        }
        Ok(
            Session {
                id,
                name,
                role,
                external_session_id,
                launched_head,
                started_at,
                stopped_at,
                context,
                context_max,
                last_growth,
                kicked_at,
            },
        )
    }

    pub fn id(&self) -> (r: i64)
        ensures
            r == self@.id,
    {
        self.id
    }

    pub fn name(&self) -> (r: &str)
        ensures
            r@ == self@.name,
    {
        self.name.as_str()
    }

    pub fn role(&self) -> (r: Role)
        ensures
            r == self@.role,
    {
        self.role
    }

    pub fn external_session_id(&self) -> (r: &str)
        ensures
            r@ == self@.external_session_id,
    {
        self.external_session_id.as_str()
    }

    pub fn launched_head(&self) -> (r: Option<&str>)
        ensures
            opt_str(r) == self@.launched_head,
    {
        as_opt_str(&self.launched_head)
    }

    pub fn started_at(&self) -> (r: i64)
        ensures
            r == self@.started_at,
    {
        self.started_at
    }

    pub fn stopped_at(&self) -> (r: Option<i64>)
        ensures
            r == self@.stopped_at,
    {
        self.stopped_at
    }

    pub fn context(&self) -> (r: i64)
        ensures
            r == self@.context,
    {
        self.context
    }

    pub fn context_max(&self) -> (r: i64)
        ensures
            r == self@.context_max,
    {
        self.context_max
    }

    pub fn last_growth(&self) -> (r: i64)
        ensures
            r == self@.last_growth,
    {
        self.last_growth
    }

    pub fn kicked_at(&self) -> (r: Option<i64>)
        ensures
            r == self@.kicked_at,
    {
        self.kicked_at
    }

    /// A session is live until it is superseded or stopped.
    pub fn is_live(&self) -> (r: bool)
        ensures
            r == self@.is_live(),
    {
        self.stopped_at.is_none()
    }

    /// Only a live implementer can be dispatched a task.
    pub fn can_take_task(&self) -> (r: bool)
        ensures
            r == self@.can_take_task(),
    {
        self.role == Role::Implementer && self.is_live()
    }

    /// Whole seconds since the transcript last grew, as seen at `now`. Never negative, so a clock
    /// that runs behind reads as "just now".
    pub fn quiet_seconds(&self, now: i64) -> (r: i64)
        ensures
            r == self@.quiet_seconds(now),
            r >= 0,
    {
        if now < self.last_growth {
            0
        } else {
            ((now as i128 - self.last_growth as i128) / 1000) as i64
        }
    }

    /// Whether a stalled session may be nudged: once per stall, and not again until the transcript
    /// has grown since the last nudge.
    pub fn can_be_kicked(&self) -> (r: bool)
        ensures
            r == self@.can_be_kicked(),
    {
        self.is_live() && self.kicked_at.is_none()
    }
}

/// What the sessions of a list are.
pub open spec fn sessions_view(sessions: Seq<Session>) -> Seq<SessionView> {
    sessions.map_values(|session: Session| session@)
}

/// What an optional session is.
pub open spec fn opt_session(session: Option<&Session>) -> Option<SessionView> {
    match session {
        Some(session) => Some(session@),
        None => None,
    }
}

/// A session is sound exactly where its number is positive, its names are not blank, its contexts
/// are not negative and the largest is not below the present one, and it neither stopped, nor grew,
/// nor was nudged before it started.
pub proof fn law_session_is_refused_for_these_reasons_only(session: SessionView)
    ensures
        session.refusal() is None <==> {
            &&& session.id >= 1
            &&& !is_blank(session.name)
            &&& !is_blank(session.external_session_id)
            &&& session.launched_head is Some ==> !is_blank(session.launched_head->Some_0)
            &&& session.context >= 0
            &&& session.context_max >= session.context
            &&& session.last_growth >= session.started_at
            &&& session.stopped_at is Some ==> session.stopped_at->Some_0 >= session.started_at
            &&& session.kicked_at is Some ==> session.kicked_at->Some_0 >= session.started_at
        },
        session.well_formed() <==> session.refusal() is None,
{
}

/// A session has been quiet for as many seconds as have passed whole since it last grew, and for
/// none where the clock stands before that.
pub proof fn law_quiet_seconds_are_whole(session: SessionView, now: i64)
    ensures
        now <= session.last_growth ==> session.quiet_seconds(now) == 0,
        now > session.last_growth ==> 1000 * session.quiet_seconds(now) <= now
            - session.last_growth < 1000 * (session.quiet_seconds(now) + 1),
{
}

/// A stopped session takes no task and is not nudged; a live one takes a task if it is an
/// implementer, and is nudged if it has not been since it last grew.
pub proof fn law_stopped_session_is_left_alone(session: SessionView)
    ensures
        session.stopped_at is Some ==> !session.is_live() && !session.can_take_task()
            && !session.can_be_kicked(),
        session.stopped_at is None ==> {
            &&& session.is_live()
            &&& session.can_take_task() <==> session.role == Role::Implementer
            &&& session.can_be_kicked() <==> session.kicked_at is None
        },
{
}

/// What is wrong with a session is told of the first of its parts that is wrong.
pub proof fn law_session_is_refused_in_words(session: SessionView)
    ensures
        session.id <= 0 ==> session.refusal() == Some("id must be positive"@),
        session.id > 0 && is_blank(session.name) ==> session.refusal() == Some(
            "name cannot be blank"@,
        ),
        session.id > 0 && !is_blank(session.name) ==> {
            let named = !is_blank(session.external_session_id) && (session.launched_head is Some
                ==> !is_blank(session.launched_head->Some_0));
            &&& is_blank(session.external_session_id) ==> session.refusal() == Some(
                "external_session_id cannot be blank"@,
            )
            &&& named && session.context < 0 ==> session.refusal() == Some(
                "context cannot be negative"@,
            )
            &&& named && 0 <= session.context && session.context_max >= 0 && session.context_max
                < session.context ==> session.refusal() == Some(
                "context_max cannot be below context"@,
            )
            &&& named && 0 <= session.context <= session.context_max && session.stopped_at is Some
                && session.stopped_at->Some_0 < session.started_at ==> session.refusal() == Some(
                "stopped_at cannot precede started_at"@,
            )
        },
{
    reveal_strlit("id");
    reveal_strlit("name");
    reveal_strlit("external_session_id");
    reveal_strlit("context");
    reveal_strlit(" must be positive");
    reveal_strlit(" cannot be blank");
    reveal_strlit(" cannot be negative");
    reveal_strlit("id must be positive");
    reveal_strlit("name cannot be blank");
    reveal_strlit("external_session_id cannot be blank");
    reveal_strlit("context cannot be negative");
    assert("id"@ + " must be positive"@ =~= "id must be positive"@);
    assert("name"@ + " cannot be blank"@ =~= "name cannot be blank"@);
    assert("external_session_id"@ + " cannot be blank"@ =~= "external_session_id cannot be blank"@);
    assert("context"@ + " cannot be negative"@ =~= "context cannot be negative"@);
}

/// The sessions of a list stand for themselves one by one.
pub proof fn law_sessions_stand_for_themselves(sessions: Seq<Session>, session: Option<&Session>)
    ensures
        sessions_view(sessions).len() == sessions.len(),
        forall|i: int|
            0 <= i < sessions.len() ==> #[trigger] sessions_view(sessions)[i] == sessions[i]@,
        opt_session(session) is Some <==> session is Some,
        session is Some ==> opt_session(session) == Some(session->Some_0@),
{
}

} // verus!
