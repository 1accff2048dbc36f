//! Sessions driven through the `herdr` command line: what it is called with, and what its answers
//! mean.

use vstd::prelude::*;
use vstd::string::*;

use crate::error::{refuse, refused, Error};
use crate::json::{get_of, parse_bytes, parsed_bytes, text_of, Json, JsonView};
use crate::number::{decimal, unsigned_text};
use crate::session_runtime::{
    SessionKind, SessionQuery, SessionQueryView, StartSession, StartedSession, StartedSessionView,
};
use crate::text::{append_texts, opt_view, texts, trim, trimmed};

verus! {

/// What wakes a session that has no session id before its first prompt.
pub open spec fn session_id_wake() -> Seq<char> {
    "Ready. Wait for your task; do not edit files."@
}

/// So often a session is started before that is given up.
pub const START_ATTEMPTS: u64 = 5;

/// So many milliseconds pass between two attempts to start a session.
pub const START_REST_MILLIS: u64 = 2000;

/// So many milliseconds a started session is waited for.
pub const START_WAIT_MILLIS: u128 = 60000;

/// Sessions in panes of Herdr. The pane that the supervisor itself runs in is ambient, so it is
/// taken note of once.
#[derive(Debug)]
pub struct HerdrSessionRuntime {
    pub program: String,
    pub workspace: Option<String>,
    pub tab_id: String,
    /// The name of the default CLI.
    pub default_cli: String,
    /// How long, and how many times, a session id is asked for that the start did not report.
    pub session_id_poll_interval_millis: u64,
    pub session_id_poll_attempts: u64,
}

impl HerdrSessionRuntime {
    /// The runtime around the pane that the environment names: its workspace and its tab.
    pub fn from_environment(
        workspace: Option<String>,
        tab_id: Option<String>,
        default_cli: String,
    ) -> (r: HerdrSessionRuntime)
        ensures
            r.program@ == "herdr"@,
            r.workspace == workspace,
            r.default_cli == default_cli,
            r.tab_id@ == (match opt_view(tab_id) {
                Some(tab_id) => tab_id,
                None => Seq::empty(),
            }),
            r.session_id_poll_interval_millis == 2000,
            r.session_id_poll_attempts == 30,
    {
        HerdrSessionRuntime {
            program: "herdr".to_owned(),
            workspace,
            tab_id: match tab_id {
                Some(tab_id) => tab_id,
                None => String::new(),
            },
            default_cli,
            session_id_poll_interval_millis: 2000,
            session_id_poll_attempts: 30,
        }
    }
}

/// What one call of `herdr` gave.
#[derive(Debug)]
pub struct HerdrOutput {
    pub success: bool,
    pub stdout: Vec<u8>,
    pub stderr: String,
}

/// What a reply stands for.
pub open spec fn reply_view(reply: Result<Json, Error>) -> Result<JsonView, Seq<Seq<char>>> {
    match reply {
        Ok(value) => Ok(value@),
        Err(error) => Err(error@),
    }
}

/// What a call of `herdr` replies: its JSON, unless it failed or wrote something else.
pub open spec fn reply_of(success: bool, stdout: Seq<u8>, stderr: Seq<char>) -> Result<
    JsonView,
    Seq<Seq<char>>,
> {
    if !success {
        Err(seq!["herdr failed: "@ + trimmed(stderr)])
    } else {
        reply_from(parsed_bytes(stdout))
    }
}

/// What a call of `herdr` that did not fail replies, given what its output was read as.
pub open spec fn reply_from(read: Result<JsonView, Seq<char>>) -> Result<JsonView, Seq<Seq<char>>> {
    match read {
        Ok(value) => Ok(value),
        Err(message) => Err(seq!["herdr returned invalid JSON"@, message]),
    }
}

/// What a call of `herdr` that did not fail replies, given what its output was read as.
pub fn take_reply(read: Result<Json, Error>) -> (r: Result<Json, Error>)
    ensures
        match read {
            Ok(value) => r == Ok::<Json, Error>(value),
            Err(error) => r matches Err(told) && told@ == seq!["herdr returned invalid JSON"@]
                + error@,
        },
{
    match read {
        Ok(value) => Ok(value),
        Err(error) => Err(error.context("herdr returned invalid JSON".to_owned())),
    }
}

/// What a call of `herdr` replies.
pub fn reply(output: &HerdrOutput) -> (r: Result<Json, Error>)
    ensures
        reply_view(r) == reply_of(output.success, output.stdout@, output.stderr@),
{
    if !output.success {
        return refuse(
            "herdr failed: ".to_owned().concat(trim(output.stderr.as_str()).as_str()),
        );
    }
    let r = take_reply(parse_bytes(&output.stdout));
    assert(r matches Err(error) ==> error@ == seq![
        "herdr returned invalid JSON"@,
        parsed_bytes(output.stdout@)->Err_0,
    ]);
    r
}

/// The value within `value` to which these names lead, one object down after the other.
pub open spec fn value_within(value: JsonView, path: Seq<Seq<char>>) -> Option<JsonView>
    decreases path.len(),
{
    if path.len() == 0 {
        Some(value)
    } else {
        match value_within(value, path.drop_last()) {
            Some(parent) => get_of(parent, path.last()),
            None => None,
        }
    }
}

/// The string within `value` to which these names lead.
pub open spec fn text_within(value: JsonView, path: Seq<Seq<char>>) -> Option<Seq<char>> {
    match value_within(value, path) {
        Some(found) => text_of(found),
        None => None,
    }
}

/// These names as a pointer.
pub open spec fn pointer(path: Seq<Seq<char>>) -> Seq<char>
    decreases path.len(),
{
    if path.len() == 0 {
        ""@
    } else {
        pointer(path.drop_last()) + "/"@ + path.last()
    }
}

/// What is said of a reply that has no string there.
pub open spec fn lacks(path: Seq<Seq<char>>) -> Seq<char> {
    "herdr response lacks "@ + pointer(path)
}

/// What these names are.
pub open spec fn names(path: Seq<&str>) -> Seq<Seq<char>> {
    path.map_values(|name: &str| name@)
}

fn pointer_text(path: &Vec<&str>) -> (r: String)
    ensures
        r@ == pointer(names(path@)),
{
    let ghost all = names(path@);
    let mut r = "".to_owned();
    let mut i: usize = 0;
    while i < path.len()
        invariant
            i <= path@.len(),
            all == names(path@),
            r@ == pointer(all.take(i as int)),
        decreases path.len() - i,
    {
        assert(all.take(i + 1).drop_last() == all.take(i as int));
        assert(all.take(i + 1).last() == path@[i as int]@);
        r = r.concat("/").concat(path[i]);
        i += 1;
    }
    assert(all.take(all.len() as int) == all);
    r
}

fn json_string(value: &Json, path: &Vec<&str>) -> (r: Result<String, Error>)
    ensures
        match text_within(value@, names(path@)) {
            Some(text) => r matches Ok(found) && found@ == text,
            None => refused(r, lacks(names(path@))),
        },
{
    let ghost all = names(path@);
    let mut found: Option<&Json> = Some(value);
    let mut i: usize = 0;
    while i < path.len()
        invariant
            i <= path@.len(),
            all == names(path@),
            value_within(value@, all.take(i as int)) == (match found {
                Some(found) => Some(found@),
                None => None,
            }),
        decreases path.len() - i,
    {
        assert(all.take(i + 1).drop_last() == all.take(i as int));
        assert(all.take(i + 1).last() == path@[i as int]@);
        found = match found {
            Some(parent) => parent.get(path[i]),
            None => None,
        };
        i += 1;
    }
    assert(all.take(all.len() as int) == all);
    if let Some(found) = found {
        if let Some(text) = found.as_str() {
            return Ok(text.to_owned());
        }
    }
    refuse("herdr response lacks ".to_owned().concat(pointer_text(path).as_str()))
}

/// Where a reply names the session of an agent.
pub open spec fn session_id_path() -> Seq<Seq<char>> {
    seq!["result"@, "agent"@, "agent_session"@, "value"@]
}

fn path3<'a>(first: &'a str, second: &'a str, third: &'a str) -> (r: Vec<&'a str>)
    ensures
        names(r@) == seq![first@, second@, third@],
{
    let mut path: Vec<&'a str> = Vec::new();
    path.push(first);
    path.push(second);
    path.push(third);
    assert(names(path@) =~= seq![first@, second@, third@]);
    path
}

fn session_path<'a>() -> (r: Vec<&'a str>)
    ensures
        names(r@) == session_id_path(),
{
    let mut path = path3("result", "agent", "agent_session");
    let ghost before = names(path@);
    path.push("value");
    assert(names(path@) =~= before.push("value"@));
    assert(names(path@) =~= session_id_path());
    path
}

/// The session that a reply names.
pub fn session_id_of(value: &Json) -> (r: Result<String, Error>)
    ensures
        match text_within(value@, session_id_path()) {
            Some(id) => r matches Ok(found) && found@ == id,
            None => refused(r, lacks(session_id_path())),
        },
{
    json_string(value, &session_path())
}

/// The status that a reply tells of an agent: under its present name, or under its former one.
pub open spec fn status_within(value: JsonView) -> Option<Seq<char>> {
    match text_within(value, seq!["result"@, "agent"@, "agent_status"@]) {
        Some(status) => Some(status),
        None => text_within(value, seq!["result"@, "agent"@, "status"@]),
    }
}

/// The status that a reply tells of an agent.
pub fn agent_status_of(value: &Json) -> (r: Result<String, Error>)
    ensures
        match status_within(value@) {
            Some(status) => r matches Ok(found) && found@ == status,
            None => refused(r, lacks(seq!["result"@, "agent"@, "status"@])),
        },
{
    match json_string(value, &path3("result", "agent", "agent_status")) {
        Ok(status) => Ok(status),
        Err(_) => json_string(value, &path3("result", "agent", "status")),
    }
}

/// What a query for a session gives. An agent that `herdr` does not know, or of which it says
/// nothing that can be read, is no session.
pub fn query_result(reply: Result<Json, Error>) -> (r: Result<Option<SessionQuery>, Error>)
    ensures
        match reply_view(reply) {
            Err(_) => r matches Ok(None),
            Ok(value) => match (text_within(value, session_id_path()), status_within(value)) {
                (None, _) => refused(r, lacks(session_id_path())),
                (Some(_), None) => refused(r, lacks(seq!["result"@, "agent"@, "status"@])),
                (Some(external_id), Some(status)) => {
                    &&& r matches Ok(Some(query))
                    &&& query@ == (SessionQueryView { external_id, status })
                },
            },
        },
{
    let value = match reply {
        Ok(value) => value,
        Err(_) => {
            return Ok(None);
        },
    };
    let external_id = session_id_of(&value)?;
    let status = agent_status_of(&value)?;
    Ok(Some(SessionQuery { external_id, status }))
}

fn agent_call(verb: &str, session_id: &str) -> (r: Vec<String>)
    ensures
        texts(r@) == seq!["agent"@, verb@, session_id@],
{
    let mut call: Vec<String> = Vec::new();
    call.push("agent".to_owned());
    call.push(verb.to_owned());
    call.push(session_id.to_owned());
    assert(texts(call@) =~= seq!["agent"@, verb@, session_id@]);
    call
}

/// What `herdr` is called with to learn of a session.
pub fn get_call(session_id: &str) -> (r: Vec<String>)
    ensures
        texts(r@) == seq!["agent"@, "get"@, session_id@],
{
    agent_call("get", session_id)
}

/// What `herdr` is called with to prompt a session.
pub fn prompt_call(session_id: &str, text: &str) -> (r: Vec<String>)
    ensures
        texts(r@) == seq!["agent"@, "prompt"@, session_id@, text@],
{
    let mut call = agent_call("prompt", session_id);
    let ghost before = call@;
    call.push(text.to_owned());
    assert(texts(call@) =~= texts(before).push(text@));
    assert(texts(call@) =~= seq!["agent"@, "prompt"@, session_id@, text@]);
    call
}

/// What `herdr` is called with to interrupt a session.
pub fn interrupt_call(session_id: &str) -> (r: Vec<String>)
    ensures
        texts(r@) == seq!["agent"@, "send-keys"@, session_id@, "esc"@],
{
    let mut call = agent_call("send-keys", session_id);
    let ghost before = call@;
    call.push("esc".to_owned());
    assert(texts(call@) =~= texts(before).push("esc"@));
    assert(texts(call@) =~= seq!["agent"@, "send-keys"@, session_id@, "esc"@]);
    call
}

/// What `herdr` is called with to wait for a session, so many milliseconds at most.
pub open spec fn wait_words(session_id: Seq<char>, timeout_ms: u128) -> Seq<Seq<char>> {
    seq!["agent"@, "wait"@, session_id, "--timeout"@, decimal(timeout_ms as int)]
}

/// What `herdr` is called with to wait for a session, so many milliseconds at most.
pub fn wait_call(session_id: &str, timeout_ms: u128) -> (r: Vec<String>)
    ensures
        texts(r@) == wait_words(session_id@, timeout_ms),
{
    let mut call = agent_call("wait", session_id);
    let ghost before = call@;
    call.push("--timeout".to_owned());
    call.push(unsigned_text(timeout_ms));
    assert(texts(call@) =~= texts(before) + seq!["--timeout"@, decimal(timeout_ms as int)]);
    assert(texts(call@) =~= wait_words(session_id@, timeout_ms));
    call
}

/// How far the start of a session has come.
#[derive(Debug)]
pub enum HerdrStage {
    /// A pane is asked for.
    Open,
    /// The agent is started for the time after `failed` failures.
    Start { failed: u64 },
    /// A moment passes before the agent is started again.
    StartRest { failed: u64 },
    /// The agent is waited for, since its start reported no session id.
    Wait,
    /// The agent is asked for its session id.
    Get,
    /// The agent is woken, since it has no session id before its first prompt.
    Wake,
    /// A moment passes before the agent is asked again; `heard` tells whether it has answered.
    PollRest { asked: u64, heard: bool },
    /// The agent is asked once more.
    Poll { asked: u64, heard: bool },
    /// The session has started.
    Ready { external_id: String },
    /// The session could not be started.
    Failed { error: Error },
}

pub enum HerdrStageView {
    Open,
    Start { failed: int },
    StartRest { failed: int },
    Wait,
    Get,
    Wake,
    PollRest { asked: int, heard: bool },
    Poll { asked: int, heard: bool },
    Ready { external_id: Seq<char> },
    Failed { error: Seq<Seq<char>> },
}

impl View for HerdrStage {
    type V = HerdrStageView;

    open spec fn view(&self) -> HerdrStageView {
        match self {
            HerdrStage::Open => HerdrStageView::Open,
            HerdrStage::Start { failed } => HerdrStageView::Start { failed: *failed as int },
            HerdrStage::StartRest { failed } => HerdrStageView::StartRest { failed: *failed as int },
            HerdrStage::Wait => HerdrStageView::Wait,
            HerdrStage::Get => HerdrStageView::Get,
            HerdrStage::Wake => HerdrStageView::Wake,
            HerdrStage::PollRest { asked, heard } => HerdrStageView::PollRest {
                asked: *asked as int,
                heard: *heard,
            },
            HerdrStage::Poll { asked, heard } => HerdrStageView::Poll {
                asked: *asked as int,
                heard: *heard,
            },
            HerdrStage::Ready { external_id } => HerdrStageView::Ready { external_id: external_id@ },
            HerdrStage::Failed { error } => HerdrStageView::Failed { error: error@ },
        }
    }
}

/// The start of a session.
#[derive(Debug)]
pub struct HerdrStart {
    id: String,
    run_dir: String,
    kind: SessionKind,
    cli: String,
    flags: Vec<String>,
    workspace: String,
    ambient_tab: String,
    poll_interval_millis: u64,
    poll_attempts: u64,
    pane_id: String,
    tab_id: String,
    stage: HerdrStage,
}

pub struct HerdrStartView {
    pub id: Seq<char>,
    pub run_dir: Seq<char>,
    pub kind: SessionKind,
    /// The name by which Herdr knows this kind of agent.
    pub cli: Seq<char>,
    /// What the agent itself is called with.
    pub flags: Seq<Seq<char>>,
    pub workspace: Seq<char>,
    /// The tab that the supervisor runs in.
    pub ambient_tab: Seq<char>,
    pub poll_interval_millis: u64,
    pub poll_attempts: int,
    /// The pane and the tab of the session, once there is a pane.
    pub pane_id: Seq<char>,
    pub tab_id: Seq<char>,
    pub stage: HerdrStageView,
}

impl View for HerdrStart {
    type V = HerdrStartView;

    closed spec fn view(&self) -> HerdrStartView {
        HerdrStartView {
            id: self.id@,
            run_dir: self.run_dir@,
            kind: self.kind,
            cli: self.cli@,
            flags: texts(self.flags@),
            workspace: self.workspace@,
            ambient_tab: self.ambient_tab@,
            poll_interval_millis: self.poll_interval_millis,
            poll_attempts: self.poll_attempts as int,
            pane_id: self.pane_id@,
            tab_id: self.tab_id@,
            stage: self.stage@,
        }
    }
}

/// What is to be done for the start of a session.
#[derive(Debug)]
pub enum HerdrAction {
    /// Call `herdr` and hand back its reply.
    Request(Vec<String>),
    /// Call `herdr`, whatever it replies.
    Run(Vec<String>),
    /// Let so many milliseconds pass.
    Rest(u64),
    /// Nothing: the session has started.
    Started(StartedSession),
    /// Nothing: the session could not be started.
    Failed(Error),
}

pub enum HerdrActionView {
    Request(Seq<Seq<char>>),
    Run(Seq<Seq<char>>),
    Rest(u64),
    Started(StartedSessionView),
    Failed(Seq<Seq<char>>),
}

impl View for HerdrAction {
    type V = HerdrActionView;

    open spec fn view(&self) -> HerdrActionView {
        match self {
            HerdrAction::Request(call) => HerdrActionView::Request(texts(call@)),
            HerdrAction::Run(call) => HerdrActionView::Run(texts(call@)),
            HerdrAction::Rest(millis) => HerdrActionView::Rest(*millis),
            HerdrAction::Started(session) => HerdrActionView::Started(session@),
            HerdrAction::Failed(error) => HerdrActionView::Failed(error@),
        }
    }
}

impl HerdrStartView {
    /// Whether the counts are ones that can come about.
    pub open spec fn well_formed(self) -> bool {
        match self.stage {
            HerdrStageView::Start { failed } => 0 <= failed < START_ATTEMPTS,
            HerdrStageView::StartRest { failed } => 0 < failed < START_ATTEMPTS,
            HerdrStageView::PollRest { asked, .. } => 0 <= asked < self.poll_attempts,
            HerdrStageView::Poll { asked, .. } => 0 < asked <= self.poll_attempts,
            _ => true,
        }
    }

    /// What `herdr` is called with to get a pane: a tab of its own for an implementer, half of
    /// the present pane for a commentator.
    pub open spec fn open_words(self) -> Seq<Seq<char>> {
        match self.kind {
            SessionKind::Commentator => seq![
                "pane"@,
                "split"@,
                "--current"@,
                "--direction"@,
                "right"@,
                "--cwd"@,
                self.run_dir,
                "--no-focus"@,
            ],
            SessionKind::Implementer => seq![
                "tab"@,
                "create"@,
                "--workspace"@,
                self.workspace,
                "--label"@,
                self.id,
                "--cwd"@,
                self.run_dir,
                "--no-focus"@,
            ],
        }
    }

    /// What `herdr` is called with to start the agent.
    pub open spec fn start_words(self) -> Seq<Seq<char>> {
        seq![
            "agent"@,
            "start"@,
            self.id,
            "--kind"@,
            self.cli,
            "--pane"@,
            self.pane_id,
            "--"@,
        ] + self.flags
    }

    /// What is to be done now.
    pub open spec fn action(self) -> HerdrActionView {
        match self.stage {
            HerdrStageView::Open => HerdrActionView::Request(self.open_words()),
            HerdrStageView::Start { .. } => HerdrActionView::Request(self.start_words()),
            HerdrStageView::StartRest { .. } => HerdrActionView::Rest(START_REST_MILLIS),
            HerdrStageView::Wait => HerdrActionView::Run(wait_words(self.id, START_WAIT_MILLIS)),
            HerdrStageView::Get => HerdrActionView::Request(seq!["agent"@, "get"@, self.id]),
            HerdrStageView::Wake => HerdrActionView::Run(
                seq!["agent"@, "prompt"@, self.id, session_id_wake()],
            ),
            HerdrStageView::PollRest { .. } => HerdrActionView::Rest(self.poll_interval_millis),
            HerdrStageView::Poll { .. } => HerdrActionView::Request(
                seq!["agent"@, "get"@, self.id],
            ),
            HerdrStageView::Ready { external_id } => HerdrActionView::Started(
                StartedSessionView { external_id, pane_id: self.pane_id, tab_id: self.tab_id },
            ),
            HerdrStageView::Failed { error } => HerdrActionView::Failed(error),
        }
    }

    /// This start at another stage.
    pub open spec fn at(self, stage: HerdrStageView) -> HerdrStartView {
        HerdrStartView { stage, ..self }
    }

    /// This start once a reply to the request for a pane was read.
    pub open spec fn opened(self, value: JsonView) -> HerdrStartView {
        let pane_path = match self.kind {
            SessionKind::Commentator => seq!["result"@, "pane"@, "pane_id"@],
            SessionKind::Implementer => seq!["result"@, "root_pane"@, "pane_id"@],
        };
        let tab_path = seq!["result"@, "tab"@, "tab_id"@];
        match (text_within(value, pane_path), self.kind, text_within(value, tab_path)) {
            (None, _, _) => self.at(HerdrStageView::Failed { error: seq![lacks(pane_path)] }),
            (Some(pane_id), SessionKind::Commentator, _) => HerdrStartView {
                pane_id,
                tab_id: self.ambient_tab,
                stage: HerdrStageView::Start { failed: 0 },
                ..self
            },
            (Some(pane_id), SessionKind::Implementer, Some(tab_id)) => HerdrStartView {
                pane_id,
                tab_id,
                stage: HerdrStageView::Start { failed: 0 },
                ..self
            },
            (Some(_), SessionKind::Implementer, None) => self.at(
                HerdrStageView::Failed { error: seq![lacks(tab_path)] },
            ),
        }
    }

    /// This start once the woken agent was asked so often without a session id.
    pub open spec fn asked(self, asked: int, heard: bool) -> HerdrStartView {
        if asked < self.poll_attempts {
            self.at(HerdrStageView::PollRest { asked, heard })
        } else {
            self.at(
                HerdrStageView::Failed {
                    error: seq![
                        "herdr agent never reported a session id"@,
                        if heard {
                            lacks(session_id_path())
                        } else {
                            "missing session id"@
                        },
                    ],
                },
            )
        }
    }

    /// This start once its request was replied to. A stage that requests nothing stays.
    pub open spec fn replied(self, reply: Result<JsonView, Seq<Seq<char>>>) -> HerdrStartView {
        let external_id = match reply {
            Ok(value) => text_within(value, session_id_path()),
            Err(_) => None,
        };
        match self.stage {
            HerdrStageView::Open => match reply {
                Ok(value) => self.opened(value),
                Err(error) => self.at(HerdrStageView::Failed { error }),
            },
            HerdrStageView::Start { failed } => match reply {
                Ok(_) => match external_id {
                    Some(external_id) => self.at(HerdrStageView::Ready { external_id }),
                    None => self.at(HerdrStageView::Wait),
                },
                Err(error) => if failed + 1 == START_ATTEMPTS {
                    self.at(HerdrStageView::Failed { error })
                } else {
                    self.at(HerdrStageView::StartRest { failed: failed + 1 })
                },
            },
            HerdrStageView::Get => match external_id {
                Some(external_id) => self.at(HerdrStageView::Ready { external_id }),
                None => self.at(HerdrStageView::Wake),
            },
            HerdrStageView::Poll { asked, heard } => match external_id {
                Some(external_id) => self.at(HerdrStageView::Ready { external_id }),
                None => self.asked(asked, heard || reply is Ok),
            },
            _ => self,
        }
    }

    /// This start once its call was made or its moment has passed. A stage that requests a reply
    /// stays.
    pub open spec fn done(self) -> HerdrStartView {
        match self.stage {
            HerdrStageView::StartRest { failed } => self.at(HerdrStageView::Start { failed }),
            HerdrStageView::Wait => self.at(HerdrStageView::Get),
            HerdrStageView::Wake => self.asked(0, false),
            HerdrStageView::PollRest { asked, heard } => self.at(
                HerdrStageView::Poll { asked: asked + 1, heard },
            ),
            _ => self,
        }
    }

    /// Whether this start has come to its end.
    pub open spec fn ended(self) -> bool {
        self.stage is Ready || self.stage is Failed
    }

    /// A bound on the steps that are left.
    pub open spec fn steps_left(self) -> int {
        let polls = 2 * self.poll_attempts;
        match self.stage {
            HerdrStageView::Open => polls + 5 + 2 * START_ATTEMPTS,
            HerdrStageView::Start { failed } => polls + 4 + 2 * (START_ATTEMPTS - failed),
            HerdrStageView::StartRest { failed } => polls + 5 + 2 * (START_ATTEMPTS - failed),
            HerdrStageView::Wait => polls + 5,
            HerdrStageView::Get => polls + 4,
            HerdrStageView::Wake => polls + 3,
            HerdrStageView::PollRest { asked, .. } => polls - 2 * asked + 2,
            HerdrStageView::Poll { asked, .. } => polls - 2 * asked + 3,
            _ => 0,
        }
    }
}

/// The start of this session: none outside a Herdr pane.
pub open spec fn start_view(runtime: HerdrSessionRuntime, session: StartSession<'_>) -> Option<
    HerdrStartView,
> {
    match runtime.workspace {
        None => None,
        Some(workspace) => Some(
            HerdrStartView {
                id: session.id@,
                run_dir: session.run_dir@,
                kind: session.kind,
                cli: session.agent@.cli.name(runtime.default_cli@),
                flags: session.agent@.launch_flags(session.kind),
                workspace: workspace@,
                ambient_tab: runtime.tab_id@,
                poll_interval_millis: runtime.session_id_poll_interval_millis,
                poll_attempts: runtime.session_id_poll_attempts as int,
                pane_id: Seq::empty(),
                tab_id: Seq::empty(),
                stage: HerdrStageView::Open,
            },
        ),
    }
}

impl HerdrSessionRuntime {
    /// The start of a session: what is to be done for it is asked step by step.
    pub fn start(&self, session: StartSession<'_>) -> (r: Result<HerdrStart, Error>)
        ensures
            match start_view(*self, session) {
                Some(start) => r matches Ok(begun) && begun@ == start,
                None => refused(r, "supervisor: must run inside a Herdr pane"@),
            },
    {
        match &self.workspace {
            None => refuse("supervisor: must run inside a Herdr pane".to_owned()),
            Some(workspace) => Ok(
                HerdrStart {
                    id: session.id.to_owned(),
                    run_dir: session.run_dir.to_owned(),
                    kind: session.kind,
                    cli: session.agent.cli().herdr_kind(self.default_cli.as_str()).to_owned(),
                    flags: session.agent.launch_flags(session.kind),
                    workspace: workspace.clone(),
                    ambient_tab: self.tab_id.clone(),
                    poll_interval_millis: self.session_id_poll_interval_millis,
                    poll_attempts: self.session_id_poll_attempts,
                    pane_id: String::new(),
                    tab_id: String::new(),
                    stage: HerdrStage::Open,
                },
            ),
        }
    }
}

impl HerdrStart {
    #[verifier::type_invariant]
    spec fn well_formed(self) -> bool {
        match self.stage {
            HerdrStage::Start { failed } => failed < START_ATTEMPTS,
            HerdrStage::StartRest { failed } => 0 < failed < START_ATTEMPTS,
            HerdrStage::PollRest { asked, .. } => asked < self.poll_attempts,
            HerdrStage::Poll { asked, .. } => 0 < asked <= self.poll_attempts,
            _ => true,
        }
    }

    fn open_call(&self) -> (r: Vec<String>)
        ensures
            texts(r@) == self@.open_words(),
    {
        let mut call: Vec<String> = Vec::new();
        match self.kind {
            SessionKind::Commentator => {
                call.push("pane".to_owned());
                call.push("split".to_owned());
                call.push("--current".to_owned());
                call.push("--direction".to_owned());
                call.push("right".to_owned());
            },
            SessionKind::Implementer => {
                call.push("tab".to_owned());
                call.push("create".to_owned());
                call.push("--workspace".to_owned());
                call.push(self.workspace.clone());
                call.push("--label".to_owned());
                call.push(self.id.clone());
            },
        }
        call.push("--cwd".to_owned());
        call.push(self.run_dir.clone());
        call.push("--no-focus".to_owned());
        assert(texts(call@) =~= self@.open_words());
        call
    }

    fn start_call(&self) -> (r: Vec<String>)
        ensures
            texts(r@) == self@.start_words(),
    {
        let mut call: Vec<String> = Vec::new();
        call.push("agent".to_owned());
        call.push("start".to_owned());
        call.push(self.id.clone());
        call.push("--kind".to_owned());
        call.push(self.cli.clone());
        call.push("--pane".to_owned());
        call.push(self.pane_id.clone());
        call.push("--".to_owned());
        assert(texts(call@) =~= seq![
            "agent"@,
            "start"@,
            self.id@,
            "--kind"@,
            self.cli@,
            "--pane"@,
            self.pane_id@,
            "--"@,
        ]);
        append_texts(&mut call, &self.flags);
        call
    }

    /// What is to be done now.
    pub fn action(&self) -> (r: HerdrAction)
        ensures
            r@ == self@.action(),
            self@.well_formed(),
    {
        proof {
            use_type_invariant(self);
        }
        match &self.stage {
            HerdrStage::Open => HerdrAction::Request(self.open_call()),
            HerdrStage::Start { .. } => HerdrAction::Request(self.start_call()),
            HerdrStage::StartRest { .. } => HerdrAction::Rest(START_REST_MILLIS),
            HerdrStage::Wait => HerdrAction::Run(wait_call(self.id.as_str(), START_WAIT_MILLIS)),
            HerdrStage::Get => HerdrAction::Request(get_call(self.id.as_str())),
            HerdrStage::Wake => HerdrAction::Run(
                prompt_call(self.id.as_str(), "Ready. Wait for your task; do not edit files."),
            ),
            HerdrStage::PollRest { .. } => HerdrAction::Rest(self.poll_interval_millis),
            HerdrStage::Poll { .. } => HerdrAction::Request(get_call(self.id.as_str())),
            HerdrStage::Ready { external_id } => HerdrAction::Started(
                StartedSession {
                    external_id: external_id.clone(),
                    pane_id: self.pane_id.clone(),
                    tab_id: self.tab_id.clone(),
                },
            ),
            HerdrStage::Failed { error } => HerdrAction::Failed(error.clone()),
        }
    }

    fn at(self, stage: HerdrStage) -> (r: HerdrStart)
        requires
            match stage {
                HerdrStage::Start { failed } => failed < START_ATTEMPTS,
                HerdrStage::StartRest { failed } => 0 < failed < START_ATTEMPTS,
                HerdrStage::PollRest { asked, .. } => asked < self@.poll_attempts,
                HerdrStage::Poll { asked, .. } => 0 < asked <= self@.poll_attempts,
                _ => true,
            },
        ensures
            r@ == self@.at(stage@),
    {
        HerdrStart {
            id: self.id,
            run_dir: self.run_dir,
            kind: self.kind,
            cli: self.cli,
            flags: self.flags,
            workspace: self.workspace,
            ambient_tab: self.ambient_tab,
            poll_interval_millis: self.poll_interval_millis,
            poll_attempts: self.poll_attempts,
            pane_id: self.pane_id,
            tab_id: self.tab_id,
            stage,
        }
    }

    fn opened(self, value: &Json) -> (r: HerdrStart)
        ensures
            r@ == self@.opened(value@),
    {
        let path = match self.kind {
            SessionKind::Commentator => path3("result", "pane", "pane_id"),
            SessionKind::Implementer => path3("result", "root_pane", "pane_id"),
        };
        let pane_id = match json_string(value, &path) {
            Ok(pane_id) => pane_id,
            Err(error) => {
                return self.at(HerdrStage::Failed { error });
            },
        };
        let tab_id = match self.kind {
            SessionKind::Commentator => self.ambient_tab.clone(),
            SessionKind::Implementer => match json_string(value, &path3("result", "tab", "tab_id")) {
                Ok(tab_id) => tab_id,
                Err(error) => {
                    return self.at(HerdrStage::Failed { error });
                },
            },
        };
        HerdrStart {
            id: self.id,
            run_dir: self.run_dir,
            kind: self.kind,
            cli: self.cli,
            flags: self.flags,
            workspace: self.workspace,
            ambient_tab: self.ambient_tab,
            poll_interval_millis: self.poll_interval_millis,
            poll_attempts: self.poll_attempts,
            pane_id,
            tab_id,
            stage: HerdrStage::Start { failed: 0 },
        }
    }

    fn asked(self, asked: u64, heard: bool) -> (r: HerdrStart)
        ensures
            r@ == self@.asked(asked as int, heard),
    {
        if asked < self.poll_attempts {
            return self.at(HerdrStage::PollRest { asked, heard });
        }
        let missing = if heard {
            "herdr response lacks ".to_owned().concat(pointer_text(&session_path()).as_str())
        } else {
            "missing session id".to_owned()
        };
        let error = Error::new(missing).context(
            "herdr agent never reported a session id".to_owned(),
        );
        assert(error@ =~= seq!["herdr agent never reported a session id"@, missing@]);
        self.at(HerdrStage::Failed { error })
    }

    /// Takes note of the reply to this start's request.
    pub fn replied(self, reply: Result<Json, Error>) -> (r: HerdrStart)
        ensures
            r@ == self@.replied(reply_view(reply)),
    {
        proof {
            use_type_invariant(&self);
        }
        match &self.stage {
            HerdrStage::Open => match reply {
                Ok(value) => self.opened(&value),
                Err(error) => self.at(HerdrStage::Failed { error }),
            },
            HerdrStage::Start { failed } => {
                let failed = *failed;
                match reply {
                    Ok(value) => match session_id_of(&value) {
                        Ok(external_id) => self.at(HerdrStage::Ready { external_id }),
                        Err(_) => self.at(HerdrStage::Wait),
                    },
                    Err(error) => if failed + 1 == START_ATTEMPTS {
                        self.at(HerdrStage::Failed { error })
                    } else {
                        self.at(HerdrStage::StartRest { failed: failed + 1 })
                    },
                }
            },
            HerdrStage::Get => match reply {
                Ok(value) => match session_id_of(&value) {
                    Ok(external_id) => self.at(HerdrStage::Ready { external_id }),
                    Err(_) => self.at(HerdrStage::Wake),
                },
                Err(_) => self.at(HerdrStage::Wake),
            },
            HerdrStage::Poll { asked, heard } => {
                let asked = *asked;
                let heard = *heard;
                match reply {
                    Ok(value) => match session_id_of(&value) {
                        Ok(external_id) => self.at(HerdrStage::Ready { external_id }),
                        Err(_) => self.asked(asked, true),
                    },
                    Err(_) => self.asked(asked, heard),
                }
            },
            _ => self,
        }
    }

    /// Takes note that this start's call was made, or that its moment has passed.
    pub fn done(self) -> (r: HerdrStart)
        ensures
            r@ == self@.done(),
    {
        proof {
            use_type_invariant(&self);
        }
        match &self.stage {
            HerdrStage::StartRest { failed } => {
                let failed = *failed;
                self.at(HerdrStage::Start { failed })
            },
            HerdrStage::Wait => self.at(HerdrStage::Get),
            HerdrStage::Wake => self.asked(0, false),
            HerdrStage::PollRest { asked, heard } => {
                let asked = *asked;
                let heard = *heard;
                self.at(HerdrStage::Poll { asked: asked + 1, heard })
            },
            _ => self,
        }
    }
}

/// Every step brings the end of a start nearer, whatever `herdr` replies, and keeps its counts in
/// order.
pub proof fn law_start_ends(start: HerdrStartView, reply: Result<JsonView, Seq<Seq<char>>>)
    requires
        start.well_formed(),
        start.poll_attempts >= 0,
        !start.ended(),
    ensures
        ({
            let next = match start.action() {
                HerdrActionView::Request(_) => start.replied(reply),
                _ => start.done(),
            };
            &&& next.well_formed()
            &&& next.poll_attempts == start.poll_attempts
            &&& 0 <= next.steps_left() < start.steps_left()
        }),
{
}

/// A start that ends well ends with the session id of some reply, in the pane that was opened for
/// it.
pub proof fn law_started_session_was_reported(
    start: HerdrStartView,
    reply: Result<JsonView, Seq<Seq<char>>>,
)
    requires
        !(start.stage is Ready),
        start.replied(reply).stage is Ready,
    ensures
        reply is Ok,
        text_within(reply->Ok_0, session_id_path()) == Some(
            start.replied(reply).stage->external_id,
        ),
        start.replied(reply).pane_id == start.pane_id,
        start.replied(reply).tab_id == start.tab_id,
        start.action() is Request,
{
}

/// An agent is woken only where neither its start nor a query reported a session id.
pub proof fn law_agent_is_woken_only_for_its_id(
    start: HerdrStartView,
    reply: Result<JsonView, Seq<Seq<char>>>,
)
    requires
        !(start.stage is Wake),
        start.replied(reply).stage is Wake || start.done().stage is Wake,
    ensures
        start.stage is Get,
        reply matches Ok(value) ==> text_within(value, session_id_path()) is None,
{
}

/// A value within another is found name by name: the first name leads to a member, and the rest
/// lead on from there. No name at all leads to the value itself.
pub proof fn law_names_lead_down_one_by_one(value: JsonView, name: Seq<char>, rest: Seq<Seq<char>>)
    ensures
        value_within(value, Seq::empty()) == Some(value),
        value_within(value, seq![name] + rest) == (match get_of(value, name) {
            Some(member) => value_within(member, rest),
            None => None,
        }),
        text_within(value, rest) == (match value_within(value, rest) {
            Some(JsonView::Text(text)) => Some(text),
            _ => None,
        }),
        pointer(seq![name] + rest) == "/"@ + name + pointer(rest),
        pointer(Seq::empty()).len() == 0,
    decreases rest.len(),
{
    reveal_strlit("");
    let path = seq![name] + rest;
    if rest.len() == 0 {
        assert(path =~= seq![name]);
        assert(path.drop_last() =~= Seq::empty());
        assert(path.last() == name);
        reveal_with_fuel(value_within, 2);
        reveal_with_fuel(pointer, 2);
        assert(rest =~= Seq::empty());
        assert(pointer(path) =~= "/"@ + name + pointer(rest));
    } else {
        law_names_lead_down_one_by_one(value, name, rest.drop_last());
        assert(path.drop_last() =~= seq![name] + rest.drop_last());
        assert(path.last() == rest.last());
        assert(pointer(path) =~= "/"@ + name + pointer(rest));
    }
}

/// A call that failed is told with what it wrote, trimmed; one that did not is what it wrote where
/// that can be read, and an error where it cannot. What an agent's status is called at present goes
/// before what it was called.
pub proof fn law_failed_call_is_told_as_such(
    stdout: Seq<u8>,
    stderr: Seq<char>,
    value: JsonView,
)
    ensures
        reply_of(false, stdout, stderr) == Err::<JsonView, Seq<Seq<char>>>(
            seq!["herdr failed: "@ + trimmed(stderr)],
        ),
        parsed_bytes(stdout) matches Ok(read) ==> reply_of(true, stdout, stderr) == Ok::<
            JsonView,
            Seq<Seq<char>>,
        >(read),
        parsed_bytes(stdout) matches Err(message) ==> reply_of(true, stdout, stderr) == Err::<
            JsonView,
            Seq<Seq<char>>,
        >(seq!["herdr returned invalid JSON"@, message]),
        text_within(value, seq!["result"@, "agent"@, "agent_status"@]) is Some ==> status_within(
            value,
        ) == text_within(value, seq!["result"@, "agent"@, "agent_status"@]),
        text_within(value, seq!["result"@, "agent"@, "agent_status"@]) is None ==> status_within(
            value,
        ) == text_within(value, seq!["result"@, "agent"@, "status"@]),
{
}

/// A commentator gets half of the present pane and stays in the supervisor's tab; an implementer gets
/// a tab of its own in the workspace, under its name. Either starts in the run's directory, and
/// without taking the focus.
pub proof fn law_sessions_open_where_they_belong(start: HerdrStartView, value: JsonView)
    ensures
        ({
            let words = start.open_words();
            let size = words.len() as int;
            &&& words[size - 3] == "--cwd"@ && words[size - 2] == start.run_dir
            &&& words[size - 1] == "--no-focus"@
            &&& start.kind == SessionKind::Commentator ==> words.take(5) == seq![
                "pane"@,
                "split"@,
                "--current"@,
                "--direction"@,
                "right"@,
            ] && size == 8
            &&& start.kind == SessionKind::Implementer ==> words.take(6) == seq![
                "tab"@,
                "create"@,
                "--workspace"@,
                start.workspace,
                "--label"@,
                start.id,
            ] && size == 9
        }),
        start.kind == SessionKind::Commentator ==> match text_within(
            value,
            seq!["result"@, "pane"@, "pane_id"@],
        ) {
            Some(pane) => {
                &&& start.opened(value).pane_id == pane
                &&& start.opened(value).tab_id == start.ambient_tab
                &&& start.opened(value).stage == HerdrStageView::Start { failed: 0 }
            },
            None => start.opened(value).stage is Failed,
        },
        start.kind == SessionKind::Implementer ==> match (
            text_within(value, seq!["result"@, "root_pane"@, "pane_id"@]),
            text_within(value, seq!["result"@, "tab"@, "tab_id"@]),
        ) {
            (Some(pane), Some(tab)) => {
                &&& start.opened(value).pane_id == pane
                &&& start.opened(value).tab_id == tab
                &&& start.opened(value).stage == HerdrStageView::Start { failed: 0 }
            },
            _ => start.opened(value).stage is Failed,
        },
{
    let words = start.open_words();
    match start.kind {
        SessionKind::Commentator => {
            assert(words.take(5) =~= seq![
                "pane"@,
                "split"@,
                "--current"@,
                "--direction"@,
                "right"@,
            ]);
        },
        SessionKind::Implementer => {
            assert(words.take(6) =~= seq![
                "tab"@,
                "create"@,
                "--workspace"@,
                start.workspace,
                "--label"@,
                start.id,
            ]);
        },
    }
}

/// An agent is started under its name, as its kind, in the pane that was opened, with all of its
/// flags behind everything else.
pub proof fn law_agent_starts_in_its_pane_with_its_flags(start: HerdrStartView, failed: int)
    requires
        start.stage == (HerdrStageView::Start { failed }),
    ensures
        start.action() matches HerdrActionView::Request(words) && {
            &&& words.take(3) == seq!["agent"@, "start"@, start.id]
            &&& words.subrange(3, 8) == seq![
                "--kind"@,
                start.cli,
                "--pane"@,
                start.pane_id,
                "--"@,
            ]
            &&& words.skip(8) == start.flags
        },
{
    let words = start.start_words();
    assert(words.take(3) =~= seq!["agent"@, "start"@, start.id]);
    assert(words.subrange(3, 8) =~= seq!["--kind"@, start.cli, "--pane"@, start.pane_id, "--"@]);
    assert(words.skip(8) =~= start.flags);
}

/// A start that fails is tried again two seconds later, five times in all; the fifth error ends it.
/// A start that succeeds is over once it reports a session id, and else the agent is waited for.
pub proof fn law_start_is_tried_five_times(
    start: HerdrStartView,
    failed: int,
    error: Seq<Seq<char>>,
    value: JsonView,
)
    requires
        start.stage == (HerdrStageView::Start { failed }),
        0 <= failed < 5,
    ensures
        failed < 4 ==> {
            &&& start.replied(Err(error)).action() == HerdrActionView::Rest(2000)
            &&& start.replied(Err(error)).done() == (HerdrStartView {
                stage: HerdrStageView::Start { failed: failed + 1 },
                ..start
            })
        },
        failed == 4 ==> start.replied(Err(error)).action() == HerdrActionView::Failed(error),
        match text_within(value, seq!["result"@, "agent"@, "agent_session"@, "value"@]) {
            Some(external_id) => start.replied(Ok(value)).action() == HerdrActionView::Started(
                StartedSessionView { external_id, pane_id: start.pane_id, tab_id: start.tab_id },
            ),
            None => start.replied(Ok(value)).action() == HerdrActionView::Run(
                seq!["agent"@, "wait"@, start.id, "--timeout"@, decimal(60_000)],
            ),
        },
{
}

/// An agent that reported no session id at its start is waited for, then asked; if that gives none
/// it is woken, and asked again after each rest, as often as the runtime says and no more.
pub proof fn law_session_id_is_asked_for_until_it_is_there(
    start: HerdrStartView,
    reply: Result<JsonView, Seq<Seq<char>>>,
    asked: int,
    heard: bool,
)
    requires
        0 <= asked <= start.poll_attempts,
        !(reply is Ok && text_within(
            reply->Ok_0,
            seq!["result"@, "agent"@, "agent_session"@, "value"@],
        ) is Some),
    ensures
        start.at(HerdrStageView::Wait).done().stage == HerdrStageView::Get,
        start.at(HerdrStageView::Get).action() == HerdrActionView::Request(
            seq!["agent"@, "get"@, start.id],
        ),
        start.at(HerdrStageView::Get).replied(reply).stage == HerdrStageView::Wake,
        start.at(HerdrStageView::Wake).action() matches HerdrActionView::Run(words) && words.take(3)
            == seq!["agent"@, "prompt"@, start.id],
        start.poll_attempts > 0 ==> start.at(HerdrStageView::Wake).done().stage
            == (HerdrStageView::PollRest { asked: 0, heard: false }),
        start.at(HerdrStageView::PollRest { asked, heard }).action() == HerdrActionView::Rest(
            start.poll_interval_millis,
        ),
        start.at(HerdrStageView::PollRest { asked, heard }).done().stage == (HerdrStageView::Poll {
            asked: asked + 1,
            heard,
        }),
        start.at(HerdrStageView::Poll { asked, heard }).action() == HerdrActionView::Request(
            seq!["agent"@, "get"@, start.id],
        ),
        asked < start.poll_attempts ==> start.at(HerdrStageView::Poll { asked, heard }).replied(
            reply,
        ).stage == (HerdrStageView::PollRest { asked, heard: heard || reply is Ok }),
        asked == start.poll_attempts ==> start.at(HerdrStageView::Poll { asked, heard }).replied(
            reply,
        ).stage is Failed,
{
    let words = seq!["agent"@, "prompt"@, start.id, session_id_wake()];
    assert(words.take(3) =~= seq!["agent"@, "prompt"@, start.id]);
}

/// A start is begun only inside a pane, and with what was asked for: the session's name, directory
/// and kind, the CLI by its name and with the flags of that kind.
pub proof fn law_start_begins_with_what_was_asked(
    runtime: HerdrSessionRuntime,
    session: StartSession<'_>,
)
    ensures
        start_view(runtime, session) is Some <==> runtime.workspace is Some,
        start_view(runtime, session) matches Some(start) ==> {
            &&& start.id == session.id@
            &&& start.run_dir == session.run_dir@
            &&& start.kind == session.kind
            &&& start.cli == session.agent@.cli.name(runtime.default_cli@)
            &&& start.flags == session.agent@.launch_flags(session.kind)
            &&& start.workspace == runtime.workspace->Some_0@
            &&& start.ambient_tab == runtime.tab_id@
            &&& start.poll_interval_millis == runtime.session_id_poll_interval_millis
            &&& start.poll_attempts == runtime.session_id_poll_attempts
            &&& start.stage == HerdrStageView::Open
            &&& start.well_formed()
        },
{
}

} // verus!
