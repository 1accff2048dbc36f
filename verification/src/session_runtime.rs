//! Sessions as the runtime that drives them sees them.

use vstd::prelude::*;
use vstd::string::*;

use crate::agent::AgentSpec;
use crate::error::{refused, Error};
use crate::text::{opt_str, quote, quoted, same};

verus! {

/// The environment variable that names the runtime.
pub const RUNTIME_ENV: &'static str = "CHAINSAW_SESSION_RUNTIME";

/// The environment variable that names the state file of the zero-cost dummy.
pub const ZERO_COST_DUMMY_STATE_ENV: &'static str = "CHAINSAW_ZERO_COST_DUMMY_STATE";

/// What a session is started as.
#[derive(Clone, Copy, Debug, PartialEq, Eq, Structural)]
pub enum SessionKind {
    Implementer,
    Commentator,
}

impl SessionKind {
    /// The name of this kind.
    pub open spec fn name(self) -> Seq<char> {
        match self {
            SessionKind::Implementer => "implementer"@,
            SessionKind::Commentator => "commentator"@,
        }
    }

    /// The name of this kind.
    pub fn label(self) -> (r: &'static str)
        ensures
            r@ == self.name(),
    {
        match self {
            SessionKind::Implementer => "implementer",
            SessionKind::Commentator => "commentator",
        }
    }
}

/// A session to start.
pub struct StartSession<'a> {
    pub id: &'a str,
    pub run_dir: &'a str,
    pub kind: SessionKind,
    pub agent: &'a AgentSpec,
}

/// A session that was started.
#[derive(Debug)]
pub struct StartedSession {
    pub external_id: String,
    pub pane_id: String,
    pub tab_id: String,
}

pub struct StartedSessionView {
    pub external_id: Seq<char>,
    pub pane_id: Seq<char>,
    pub tab_id: Seq<char>,
}

impl View for StartedSession {
    type V = StartedSessionView;

    open spec fn view(&self) -> StartedSessionView {
        StartedSessionView {
            external_id: self.external_id@,
            pane_id: self.pane_id@,
            tab_id: self.tab_id@,
        }
    }
}

/// What a runtime knows of a session.
#[derive(Debug)]
pub struct SessionQuery {
    pub external_id: String,
    pub status: String,
}

pub struct SessionQueryView {
    pub external_id: Seq<char>,
    pub status: Seq<char>,
}

impl View for SessionQuery {
    type V = SessionQueryView;

    open spec fn view(&self) -> SessionQueryView {
        SessionQueryView { external_id: self.external_id@, status: self.status@ }
    }
}

/// What drives sessions. A timeout is in milliseconds.
pub trait SessionRuntime {
    fn start(&self, session: StartSession<'_>) -> Result<StartedSession, Error>;

    fn query(&self, session_id: &str) -> Result<Option<SessionQuery>, Error>;

    fn prompt(&self, session_id: &str, text: &str) -> Result<(), Error>;

    fn interrupt(&self, session_id: &str) -> Result<(), Error>;

    fn wait(&self, session_id: &str, timeout_ms: u128) -> Result<(), Error>;
}

/// The runtimes there are.
#[derive(Clone, Copy, Debug, PartialEq, Eq, Structural)]
pub enum RuntimeChoice {
    Herdr,
    ZeroCostDummy,
}

/// The runtime that this value of the environment names.
pub open spec fn named_runtime(value: Option<Seq<char>>) -> Option<RuntimeChoice> {
    match value {
        None => Some(RuntimeChoice::Herdr),
        Some(value) => if value == "herdr"@ {
            Some(RuntimeChoice::Herdr)
        } else if value == "zero-cost-dummy"@ || value == "dummy"@ {
            Some(RuntimeChoice::ZeroCostDummy)
        } else {
            None
        },
    }
}

/// What is said of a value of the environment that names no runtime, given the value as Rust
/// quotes it.
pub fn unknown_runtime(quoted_value: &str) -> (r: Error)
    ensures
        r@ == seq!["unknown "@ + RUNTIME_ENV@ + " value "@ + quoted_value@],
{
    Error::new("unknown ".to_owned().concat(RUNTIME_ENV).concat(" value ").concat(quoted_value))
}

/// The runtime that this value of the environment names.
pub fn from_environment(value: Option<&str>) -> (r: Result<RuntimeChoice, Error>)
    ensures
        match named_runtime(opt_str(value)) {
            Some(choice) => r == Ok::<RuntimeChoice, Error>(choice),
            None => refused(
                r,
                "unknown "@ + RUNTIME_ENV@ + " value "@ + quoted(value->Some_0@),
            ),
        },
{
    match value {
        None => Ok(RuntimeChoice::Herdr),
        Some(value) => if same(value, "herdr") {
            Ok(RuntimeChoice::Herdr)
        } else if same(value, "zero-cost-dummy") || same(value, "dummy") {
            Ok(RuntimeChoice::ZeroCostDummy)
        } else {
            Err(unknown_runtime(quote(value).as_str()))
        },
    }
}

/// Herdr is the runtime where none is named, or where it is named; the dummy goes by two names, and
/// any other name is no runtime's.
pub proof fn law_runtimes_go_by_these_names_only(value: Seq<char>)
    ensures
        named_runtime(None) == Some(RuntimeChoice::Herdr),
        named_runtime(Some(value)) == Some(RuntimeChoice::Herdr) <==> value == "herdr"@,
        named_runtime(Some(value)) == Some(RuntimeChoice::ZeroCostDummy) <==> value
            == "zero-cost-dummy"@ || value == "dummy"@,
{
    reveal_strlit("herdr");
    reveal_strlit("zero-cost-dummy");
    reveal_strlit("dummy");
    assert("herdr"@[0] == 'h' && "dummy"@[0] == 'd' && "zero-cost-dummy"@[0] == 'z');
}

} // verus!
