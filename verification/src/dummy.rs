//! A runtime that costs nothing: sessions that live in a state file and do what they are told.
//!
//! Each operation takes the state that the file held and gives the state that it holds afterwards,
//! along with the entries that the sessions' transcripts gain. An operation that fails leaves the
//! file alone.

use vstd::prelude::*;
use vstd::string::*;

use crate::error::{refuse, refused, Error};
use crate::json::{
    array_of, field, fields_view, find_member, get_of, items_view, law_set_member_is_read_back,
    member_of, object_of, place_from, set_member, takes_members, text_at, text_of, u64_value,
    with_member, with_value, Json, JsonField, JsonView,
};
use crate::number::{decimal, unsigned_text};
use crate::session_runtime::{
    SessionKind, SessionQuery, SessionQueryView, StartSession, StartedSession, StartedSessionView,
    ZERO_COST_DUMMY_STATE_ENV,
};
use crate::text::{opt_str, same, texts};

verus! {

/// A runtime of sessions that live in a state file.
#[derive(Debug)]
pub struct ZeroCostDummy {
    pub state_path: String,
}

impl ZeroCostDummy {
    /// The runtime whose sessions live in this file.
    pub fn new(state_path: String) -> (r: ZeroCostDummy)
        ensures
            r.state_path == state_path,
    {
        ZeroCostDummy { state_path }
    }

    /// The runtime whose file the environment names.
    pub fn from_environment(state_path: Option<String>) -> (r: Result<ZeroCostDummy, Error>)
        ensures
            match state_path {
                Some(path) => r matches Ok(dummy) && dummy.state_path == path,
                None => refused(r, ZERO_COST_DUMMY_STATE_ENV@ + " is not set"@),
            },
    {
        match state_path {
            Some(path) => Ok(ZeroCostDummy::new(path)),
            None => refuse(ZERO_COST_DUMMY_STATE_ENV.to_owned().concat(" is not set")),
        }
    }
}

/// The state of a runtime that nothing was done with.
pub open spec fn empty_state_view() -> JsonView {
    JsonView::Object(
        seq![
            ("agents"@, JsonView::Object(Seq::empty())),
            ("panes"@, JsonView::Object(Seq::empty())),
            ("sequence"@, JsonView::Integer(0)),
            ("drop_prompts"@, JsonView::Integer(0)),
            ("operations"@, JsonView::Array(Seq::empty())),
        ],
    )
}

/// The state of a runtime that nothing was done with.
pub fn empty_state() -> (r: Json)
    ensures
        r@ == empty_state_view(),
{
    let mut fields: Vec<JsonField> = Vec::new();
    let agents: Vec<JsonField> = Vec::new();
    let panes: Vec<JsonField> = Vec::new();
    let operations: Vec<Json> = Vec::new();
    assert(fields_view(agents@) =~= Seq::empty());
    assert(fields_view(panes@) =~= Seq::empty());
    assert(items_view(operations@) =~= Seq::empty());
    fields.push(field("agents", Json::object(agents)));
    fields.push(field("panes", Json::object(panes)));
    fields.push(field("sequence", Json::Integer(0)));
    fields.push(field("drop_prompts", Json::Integer(0)));
    fields.push(field("operations", Json::array(operations)));
    assert(fields_view(fields@) =~= empty_state_view()->Object_0);
    Json::object(fields)
}

/// What a transcript gains.
#[derive(Debug)]
pub struct LogAppend {
    /// Where the session runs.
    pub run_dir: String,
    /// Which session it is.
    pub external_id: String,
    pub entry: Json,
}

pub struct LogAppendView {
    pub run_dir: Seq<char>,
    pub external_id: Seq<char>,
    pub entry: JsonView,
}

impl View for LogAppend {
    type V = LogAppendView;

    open spec fn view(&self) -> LogAppendView {
        LogAppendView {
            run_dir: self.run_dir@,
            external_id: self.external_id@,
            entry: self.entry@,
        }
    }
}

pub open spec fn appends_view(appends: Seq<LogAppend>) -> Seq<LogAppendView> {
    appends.map_values(|append: LogAppend| append@)
}

/// What an operation comes to: the transcripts gain these entries, one after the other, and then
/// the file holds this state, or nothing more is done.
#[derive(Debug)]
pub struct DummyOutcome<T> {
    pub appends: Vec<LogAppend>,
    pub result: Result<(Json, T), Error>,
}

/// What an operation comes to, told by what its answer stands for.
pub struct OutcomeOf<V> {
    pub appends: Seq<LogAppendView>,
    pub result: Result<(JsonView, V), Seq<char>>,
}

impl<V> OutcomeOf<V> {
    /// An operation that fails before anything was done.
    pub open spec fn failed(message: Seq<char>) -> OutcomeOf<V> {
        OutcomeOf { appends: Seq::empty(), result: Err(message) }
    }
}

/// Whether `outcome` is `told`, where answers stand for themselves.
pub open spec fn comes_to<T>(outcome: DummyOutcome<T>, told: OutcomeOf<T>) -> bool {
    &&& appends_view(outcome.appends@) == told.appends
    &&& match told.result {
        Ok((state, answer)) => {
            &&& outcome.result matches Ok((found, given))
            &&& found@ == state
            &&& given == answer
        },
        Err(message) => refused(outcome.result, message),
    }
}

/// Whether `outcome` is `told`, where answers stand for something else.
pub open spec fn comes_to_as<T, V>(
    outcome: DummyOutcome<T>,
    told: OutcomeOf<V>,
    stands_for: spec_fn(T) -> V,
) -> bool {
    &&& appends_view(outcome.appends@) == told.appends
    &&& match told.result {
        Ok((state, answer)) => {
            &&& outcome.result matches Ok((found, given))
            &&& found@ == state
            &&& stands_for(given) == answer
        },
        Err(message) => refused(outcome.result, message),
    }
}

/// What is said where a field of the state is no object.
pub open spec fn not_an_object(key: Seq<char>) -> Seq<char> {
    "dummy runtime state field \""@ + key + "\" is not an object"@
}

/// What is said where the state has no list of operations.
pub open spec fn no_operations() -> Seq<char> {
    "dummy runtime state field \"operations\" is not an array"@
}

/// The members of a field of the state.
pub open spec fn object_at(state: JsonView, key: Seq<char>) -> Option<Seq<(Seq<char>, JsonView)>> {
    match get_of(state, key) {
        Some(found) => object_of(found),
        None => None,
    }
}

/// The operations that the state lists.
pub open spec fn operations_of(state: JsonView) -> Option<Seq<JsonView>> {
    match get_of(state, "operations"@) {
        Some(found) => array_of(found),
        None => None,
    }
}

/// The state with one more operation.
pub open spec fn with_operation(state: JsonView, operation: JsonView) -> Option<JsonView> {
    match operations_of(state) {
        Some(operations) => Some(
            with_value(state, "operations"@, JsonView::Array(operations.push(operation))),
        ),
        None => None,
    }
}

/// The session of this name, where the state has one.
pub open spec fn agent_of(state: JsonView, id: Seq<char>) -> Option<JsonView> {
    match object_at(state, "agents"@) {
        Some(agents) => member_of(agents, id),
        None => None,
    }
}

/// The state with the session of this name set.
pub open spec fn with_agent(state: JsonView, id: Seq<char>, agent: JsonView) -> JsonView {
    with_value(
        state,
        "agents"@,
        JsonView::Object(with_member(object_at(state, "agents"@)->Some_0, id, agent)),
    )
}

/// Whether a session is busy.
pub open spec fn busy(session: JsonView) -> bool {
    text_at(session, "status"@) == Some("busy"@)
}

/// Whether a session is busy.
pub fn is_busy(session: &Json) -> (r: bool)
    ensures
        r == busy(session@),
{
    match session.get_str("status") {
        Some(status) => same(status, "busy"),
        None => false,
    }
}

/// The strings among these values.
pub open spec fn strings_among(items: Seq<JsonView>) -> Seq<Seq<char>>
    decreases items.len(),
{
    if items.len() == 0 {
        Seq::empty()
    } else {
        match text_of(items.last()) {
            Some(text) => strings_among(items.drop_last()).push(text),
            None => strings_among(items.drop_last()),
        }
    }
}

/// What a session has queued.
pub open spec fn queue_of(session: JsonView) -> Seq<Seq<char>> {
    match get_of(session, "queued"@) {
        Some(JsonView::Array(items)) => strings_among(items),
        _ => Seq::empty(),
    }
}

fn queued(session: &Json) -> (r: Vec<String>)
    ensures
        texts(r@) == queue_of(session@),
{
    let mut found: Vec<String> = Vec::new();
    if let Some(value) = session.get("queued") {
        if let Some(items) = value.as_array() {
            let ghost all = items_view(items@);
            let mut i: usize = 0;
            while i < items.len()
                invariant
                    i <= items@.len(),
                    all == items_view(items@),
                    texts(found@) == strings_among(all.take(i as int)),
                decreases items.len() - i,
            {
                let ghost before = found@;
                assert(all.take(i + 1).drop_last() == all.take(i as int));
                assert(all.take(i + 1).last() == items@[i as int]@);
                if let Some(text) = items[i].as_str() {
                    found.push(text.to_owned());
                    assert(texts(found@) =~= texts(before).push(text@));
                }
                i += 1;
            }
            assert(all.take(all.len() as int) == all);
        }
    }
    assert(texts(found@) =~= queue_of(session@));
    found
}

/// The entries that a session's transcript gains when it picks up a prompt: the prompt itself, and
/// the reply that the state has for it, if any.
pub open spec fn delivery(
    reply: Option<Seq<char>>,
    run_dir: Seq<char>,
    external_id: Seq<char>,
    text: Seq<char>,
) -> Seq<LogAppendView> {
    let told = LogAppendView {
        run_dir,
        external_id,
        entry: JsonView::Object(
            seq![
                ("type"@, JsonView::Text("user"@)),
                ("message"@, JsonView::Object(seq![("content"@, JsonView::Text(text))])),
            ],
        ),
    };
    match reply {
        None => seq![told],
        Some(reply) => seq![
            told,
            LogAppendView {
                run_dir,
                external_id,
                entry: JsonView::Object(
                    seq![
                        ("type"@, JsonView::Text("assistant"@)),
                        (
                            "message"@,
                            JsonView::Object(
                                seq![
                                    (
                                        "content"@,
                                        JsonView::Array(
                                            seq![
                                                JsonView::Object(
                                                    seq![
                                                        ("type"@, JsonView::Text("text"@)),
                                                        ("text"@, JsonView::Text(reply)),
                                                    ],
                                                ),
                                            ],
                                        ),
                                    ),
                                ],
                            ),
                        ),
                    ],
                ),
            },
        ],
    }
}

/// The entries that a session's transcript gains when it picks up these prompts.
pub open spec fn deliveries(
    reply: Option<Seq<char>>,
    run_dir: Seq<char>,
    external_id: Seq<char>,
    prompts: Seq<Seq<char>>,
) -> Seq<LogAppendView>
    decreases prompts.len(),
{
    if prompts.len() == 0 {
        Seq::empty()
    } else {
        deliveries(reply, run_dir, external_id, prompts.drop_last()) + delivery(
            reply,
            run_dir,
            external_id,
            prompts.last(),
        )
    }
}

/// Where a session's transcript is: why that cannot be told, or the session's run directory and
/// its id.
pub open spec fn transcript_of(session: JsonView) -> Result<(Seq<char>, Seq<char>), Seq<char>> {
    match (text_at(session, "run_dir"@), text_at(session, "session_id"@)) {
        (None, _) => Err("dummy session lacks run_dir"@),
        (Some(_), None) => Err("dummy session lacks session_id"@),
        (Some(run_dir), Some(external_id)) => Ok((run_dir, external_id)),
    }
}

fn transcript<'a>(session: &'a Json) -> (r: Result<(&'a str, &'a str), Error>)
    ensures
        match transcript_of(session@) {
            Ok((run_dir, external_id)) => r matches Ok(found) && found.0@ == run_dir && found.1@
                == external_id,
            Err(message) => refused(r, message),
        },
{
    let run_dir = match session.get_str("run_dir") {
        Some(run_dir) => run_dir,
        None => {
            return refuse("dummy session lacks run_dir".to_owned());
        },
    };
    let external_id = match session.get_str("session_id") {
        Some(external_id) => external_id,
        None => {
            return refuse("dummy session lacks session_id".to_owned());
        },
    };
    Ok((run_dir, external_id))
}

fn one_field(key: &str, value: Json) -> (r: Json)
    ensures
        r@ == JsonView::Object(seq![(key@, value@)]),
{
    let mut fields: Vec<JsonField> = Vec::new();
    fields.push(field(key, value));
    assert(fields_view(fields@) =~= seq![(key@, value@)]);
    Json::object(fields)
}

fn two_fields(first: &str, first_value: Json, second: &str, second_value: Json) -> (r: Json)
    ensures
        r@ == JsonView::Object(seq![(first@, first_value@), (second@, second_value@)]),
{
    let mut fields: Vec<JsonField> = Vec::new();
    fields.push(field(first, first_value));
    fields.push(field(second, second_value));
    assert(fields_view(fields@) =~= seq![(first@, first_value@), (second@, second_value@)]);
    Json::object(fields)
}

fn deliver(
    appends: &mut Vec<LogAppend>,
    reply: Option<&str>,
    run_dir: &str,
    external_id: &str,
    text: &str,
)
    ensures
        appends_view(final(appends)@) == appends_view(old(appends)@) + delivery(
            opt_str(reply),
            run_dir@,
            external_id@,
            text@,
        ),
{
    let ghost before = appends@;
    let told = two_fields(
        "type",
        Json::text("user"),
        "message",
        one_field("content", Json::text(text)),
    );
    appends.push(
        LogAppend { run_dir: run_dir.to_owned(), external_id: external_id.to_owned(), entry: told },
    );
    if let Some(reply) = reply {
        let mut items: Vec<Json> = Vec::new();
        let words = two_fields("type", Json::text("text"), "text", Json::text(reply));
        items.push(words);
        assert(items_view(items@) =~= seq![words@]);
        let answered = two_fields(
            "type",
            Json::text("assistant"),
            "message",
            one_field("content", Json::array(items)),
        );
        appends.push(
            LogAppend {
                run_dir: run_dir.to_owned(),
                external_id: external_id.to_owned(),
                entry: answered,
            },
        );
    }
    assert(appends_view(appends@) =~= appends_view(before) + delivery(
        opt_str(reply),
        run_dir@,
        external_id@,
        text@,
    ));
}

/// What becomes of the state when a session that is not busy works through its queue, and what its
/// transcript gains.
pub open spec fn drained(state: JsonView, id: Seq<char>) -> OutcomeOf<()> {
    let nothing = OutcomeOf { appends: Seq::empty(), result: Ok((state, ())) };
    match object_at(state, "agents"@) {
        None => OutcomeOf::failed(not_an_object("agents"@)),
        Some(agents) => match member_of(agents, id) {
            None => nothing,
            Some(session) => if busy(session) || queue_of(session).len() == 0 {
                nothing
            } else {
                match transcript_of(session) {
                    Err(message) => OutcomeOf::failed(message),
                    Ok((run_dir, external_id)) => OutcomeOf {
                        appends: deliveries(
                            text_at(state, "reply_on_prompt"@),
                            run_dir,
                            external_id,
                            queue_of(session),
                        ),
                        result: Ok(
                            (
                                with_agent(
                                    state,
                                    id,
                                    with_value(
                                        session,
                                        "queued"@,
                                        JsonView::Array(Seq::empty()),
                                    ),
                                ),
                                (),
                            ),
                        ),
                    },
                }
            },
        },
    }
}

fn fail<T>(message: String) -> (r: DummyOutcome<T>)
    ensures
        comes_to(r, OutcomeOf::failed(message@)),
{
    let appends: Vec<LogAppend> = Vec::new();
    assert(appends_view(appends@) =~= Seq::empty());
    DummyOutcome { appends, result: refuse(message) }
}

fn not_an_object_text(key: &str) -> (r: String)
    ensures
        r@ == not_an_object(key@),
{
    "dummy runtime state field \"".to_owned().concat(key).concat("\" is not an object")
}

fn members<'a>(state: &'a Json, key: &str) -> (r: Option<&'a Vec<JsonField>>)
    ensures
        object_at(state@, key@) == (match r {
            Some(fields) => Some(fields_view(fields@)),
            None => None,
        }),
{
    match state.get(key) {
        Some(value) => value.as_object(),
        None => None,
    }
}

fn agent<'a>(agents: &'a Vec<JsonField>, id: &str) -> (r: Option<&'a Json>)
    ensures
        member_of(fields_view(agents@), id@) == (match r {
            Some(session) => Some(session@),
            None => None,
        }),
{
    match find_member(agents, id) {
        Some(i) => Some(&agents[i].value),
        None => None,
    }
}

fn copy_fields(fields: &Vec<JsonField>) -> (r: Vec<JsonField>)
    ensures
        fields_view(r@) == fields_view(fields@),
{
    let mut copies: Vec<JsonField> = Vec::new();
    let mut i: usize = 0;
    while i < fields.len()
        invariant
            i <= fields@.len(),
            copies@.len() == i,
            forall|j: int|
                0 <= j < i ==> (#[trigger] copies@[j]).key@ == fields@[j].key@
                    && copies@[j].value@ == fields@[j].value@,
        decreases fields.len() - i,
    {
        copies.push(field(fields[i].key.as_str(), fields[i].value.copy()));
        i += 1;
    }
    assert(fields_view(copies@) =~= fields_view(fields@));
    copies
}

fn set_agent(state: Json, id: &str, session: Json) -> (r: Json)
    requires
        object_at(state@, "agents"@) is Some,
    ensures
        r@ == with_agent(state@, id@, session@),
{
    let mut agents: Vec<JsonField> = match members(&state, "agents") {
        Some(agents) => copy_fields(agents),
        None => Vec::new(),
    };
    set_member(&mut agents, id, session);
    state.with("agents", Json::object(agents))
}

fn push_operation(state: Json, operation: Json) -> (r: Option<Json>)
    ensures
        with_operation(state@, operation@) == (match r {
            Some(after) => Some(after@),
            None => None,
        }),
{
    let mut operations: Vec<Json> = match state.get("operations") {
        Some(value) => match value.as_array() {
            Some(items) => copy_items(items),
            None => {
                return None;
            },
        },
        None => {
            return None;
        },
    };
    let ghost before = operations@;
    operations.push(operation);
    assert(items_view(operations@) =~= items_view(before).push(operation@));
    Some(state.with("operations", Json::array(operations)))
}

fn copy_items(items: &Vec<Json>) -> (r: Vec<Json>)
    ensures
        items_view(r@) == items_view(items@),
{
    let mut copies: Vec<Json> = Vec::new();
    let mut i: usize = 0;
    while i < items.len()
        invariant
            i <= items@.len(),
            copies@.len() == i,
            forall|j: int| 0 <= j < i ==> (#[trigger] copies@[j])@ == items@[j]@,
        decreases items.len() - i,
    {
        copies.push(items[i].copy());
        i += 1;
    }
    assert(items_view(copies@) =~= items_view(items@));
    copies
}

/// Lets a session that is not busy work through its queue.
pub fn drain_queue(state: Json, id: &str) -> (r: DummyOutcome<()>)
    ensures
        comes_to(r, drained(state@, id@)),
{
    let mut appends: Vec<LogAppend> = Vec::new();
    assert(appends_view(appends@) =~= Seq::empty());
    let session = match members(&state, "agents") {
        None => {
            return fail(not_an_object_text("agents"));
        },
        Some(agents) => match agent(agents, id) {
            None => {
                return DummyOutcome { appends, result: Ok((state, ())) };
            },
            Some(session) => session.copy(),
        },
    };
    if is_busy(&session) {
        return DummyOutcome { appends, result: Ok((state, ())) };
    }
    let prompts = queued(&session);
    assert(texts(prompts@).len() == prompts@.len());
    if prompts.len() == 0 {
        return DummyOutcome { appends, result: Ok((state, ())) };
    }
    match transcript(&session) {
        Err(error) => {
            return DummyOutcome { appends, result: Err(error) };
        },
        Ok((run_dir, external_id)) => {
            let reply = state.get_str("reply_on_prompt");
            let ghost all = texts(prompts@);
            let mut i: usize = 0;
            while i < prompts.len()
                invariant
                    i <= prompts@.len(),
                    all == texts(prompts@),
                    appends_view(appends@) == deliveries(
                        opt_str(reply),
                        run_dir@,
                        external_id@,
                        all.take(i as int),
                    ),
                decreases prompts.len() - i,
            {
                assert(all.take(i + 1).drop_last() == all.take(i as int));
                assert(all.take(i + 1).last() == prompts@[i as int]@);
                deliver(&mut appends, reply, run_dir, external_id, prompts[i].as_str());
                i += 1;
            }
            assert(all.take(all.len() as int) == all);
        },
    }
    let none: Vec<Json> = Vec::new();
    assert(items_view(none@) =~= Seq::empty());
    let session = session.with("queued", Json::array(none));
    let state = set_agent(state, id, session);
    DummyOutcome { appends, result: Ok((state, ())) }
}

/// The number that the next session gets.
pub open spec fn next_number(state: JsonView) -> int {
    1 + match get_of(state, "sequence"@) {
        Some(value) => match u64_value(value) {
            Some(number) => number as int,
            None => 0,
        },
        None => 0,
    }
}

/// What the state says of an operation on a session.
pub open spec fn operation_on(name: Seq<char>, id: Seq<char>) -> Seq<(Seq<char>, JsonView)> {
    seq![("operation"@, JsonView::Text(name)), ("session_id"@, JsonView::Text(id))]
}

/// What a session is when it has just been started.
pub open spec fn new_session(external_id: Seq<char>, run_dir: Seq<char>) -> JsonView {
    JsonView::Object(
        seq![
            ("session_id"@, JsonView::Text(external_id)),
            ("status"@, JsonView::Text("idle"@)),
            ("run_dir"@, JsonView::Text(run_dir)),
        ],
    )
}

/// What starting a session comes to.
pub open spec fn started(
    state: JsonView,
    id: Seq<char>,
    run_dir: Seq<char>,
    kind: SessionKind,
) -> OutcomeOf<
    StartedSessionView,
> {
    let number = next_number(state);
    let session = StartedSessionView {
        external_id: "session-"@ + id + "-"@ + decimal(number),
        pane_id: "pane-"@ + decimal(number),
        tab_id: "tab-"@ + decimal(number),
    };
    let numbered = with_value(state, "sequence"@, JsonView::Integer(number));
    match object_at(numbered, "panes"@) {
        None => OutcomeOf::failed(not_an_object("panes"@)),
        Some(panes) => {
            let pane = JsonView::Object(seq![("cwd"@, JsonView::Text(run_dir))]);
            let paned = with_value(
                numbered,
                "panes"@,
                JsonView::Object(with_member(panes, session.pane_id, pane)),
            );
            if object_at(paned, "agents"@) is None {
                OutcomeOf::failed(not_an_object("agents"@))
            } else {
                let staffed = with_agent(paned, id, new_session(session.external_id, run_dir));
                let operation = operation_on("start"@, id).push(
                    ("kind"@, JsonView::Text(kind.name())),
                );
                match with_operation(staffed, JsonView::Object(operation)) {
                    None => OutcomeOf::failed(no_operations()),
                    Some(after) => OutcomeOf { appends: Seq::empty(), result: Ok((after, session)) },
                }
            }
        },
    }
}

fn operation(name: &str, id: &str) -> (r: Vec<JsonField>)
    ensures
        fields_view(r@) == operation_on(name@, id@),
{
    let mut fields: Vec<JsonField> = Vec::new();
    fields.push(field("operation", Json::text(name)));
    fields.push(field("session_id", Json::text(id)));
    assert(fields_view(fields@) =~= operation_on(name@, id@));
    fields
}

fn no_operations_text() -> (r: String)
    ensures
        r@ == no_operations(),
{
    "dummy runtime state field \"operations\" is not an array".to_owned()
}

fn succeed<T>(state: Json, answer: T) -> (r: DummyOutcome<T>)
    ensures
        comes_to(r, OutcomeOf { appends: Seq::empty(), result: Ok((state@, answer)) }),
{
    let appends: Vec<LogAppend> = Vec::new();
    assert(appends_view(appends@) =~= Seq::empty());
    DummyOutcome { appends, result: Ok((state, answer)) }
}

/// Starts a session.
pub fn start(state: Json, session: StartSession<'_>) -> (r: DummyOutcome<StartedSession>)
    requires
        takes_members(state@),
        next_number(state@) <= u64::MAX,
    ensures
        comes_to_as(
            r,
            started(state@, session.id@, session.run_dir@, session.kind),
            |started: StartedSession| started@,
        ),
{
    let last: u64 = match state.get("sequence") {
        Some(value) => match value.as_u64() {
            Some(number) => number,
            None => 0,
        },
        None => 0,
    };
    let number: u64 = last + 1;
    let digits = unsigned_text(number as u128);
    let pane_id = "pane-".to_owned().concat(digits.as_str());
    let tab_id = "tab-".to_owned().concat(digits.as_str());
    let external_id = "session-".to_owned().concat(session.id).concat("-").concat(digits.as_str());
    let state = state.with("sequence", Json::Integer(number as i128));
    let mut panes = match members(&state, "panes") {
        Some(panes) => copy_fields(panes),
        None => {
            return fail(not_an_object_text("panes"));
        },
    };
    let pane = one_field("cwd", Json::text(session.run_dir));
    set_member(&mut panes, pane_id.as_str(), pane);
    let state = state.with("panes", Json::object(panes));
    if members(&state, "agents").is_none() {
        return fail(not_an_object_text("agents"));
    }
    let mut fields: Vec<JsonField> = Vec::new();
    fields.push(field("session_id", Json::text(external_id.as_str())));
    fields.push(field("status", Json::text("idle")));
    fields.push(field("run_dir", Json::text(session.run_dir)));
    assert(fields_view(fields@) =~= new_session(external_id@, session.run_dir@)->Object_0);
    let state = set_agent(state, session.id, Json::object(fields));
    let mut done = operation("start", session.id);
    let ghost before = done@;
    done.push(field("kind", Json::text(session.kind.label())));
    assert(fields_view(done@) =~= fields_view(before).push(
        ("kind"@, JsonView::Text(session.kind.name())),
    ));
    match push_operation(state, Json::object(done)) {
        Some(state) => succeed(state, StartedSession { external_id, pane_id, tab_id }),
        None => fail(no_operations_text()),
    }
}

/// What is known of a session.
pub open spec fn known_of(session: JsonView) -> Result<SessionQueryView, Seq<char>> {
    match text_at(session, "session_id"@) {
        None => Err("dummy session lacks session_id"@),
        Some(external_id) => Ok(
            SessionQueryView {
                external_id,
                status: match text_at(session, "status"@) {
                    Some(status) => status,
                    None => "idle"@,
                },
            },
        ),
    }
}

/// What a query for a session comes to: the session works through its queue first.
pub open spec fn queried(state: JsonView, id: Seq<char>) -> OutcomeOf<Option<SessionQueryView>> {
    let drain = drained(state, id);
    OutcomeOf {
        appends: drain.appends,
        result: match drain.result {
            Err(message) => Err(message),
            Ok((state, _)) => match with_operation(
                state,
                JsonView::Object(operation_on("query"@, id)),
            ) {
                None => Err(no_operations()),
                Some(after) => match agent_of(state, id) {
                    None => Ok((after, None)),
                    Some(session) => match known_of(session) {
                        Ok(known) => Ok((after, Some(known))),
                        Err(message) => Err(message),
                    },
                },
            },
        },
    }
}

/// What a query's answer stands for.
pub open spec fn query_view(answer: Option<SessionQuery>) -> Option<SessionQueryView> {
    match answer {
        Some(query) => Some(query@),
        None => None,
    }
}

fn known(session: &Json) -> (r: Result<SessionQuery, Error>)
    ensures
        match known_of(session@) {
            Ok(told) => r matches Ok(query) && query@ == told,
            Err(message) => refused(r, message),
        },
{
    let external_id = match session.get_str("session_id") {
        Some(external_id) => external_id.to_owned(),
        None => {
            return refuse("dummy session lacks session_id".to_owned());
        },
    };
    let status = match session.get_str("status") {
        Some(status) => status.to_owned(),
        None => "idle".to_owned(),
    };
    Ok(SessionQuery { external_id, status })
}

proof fn lemma_drained_keeps_agents(state: JsonView, id: Seq<char>)
    ensures
        drained(state, id).result matches Ok((after, _)) ==> {
            &&& object_at(state, "agents"@) is Some
            &&& object_at(after, "agents"@) is Some
        },
{
    if let Some(agents) = object_at(state, "agents"@) {
        if let Some(session) = member_of(agents, id) {
            let fields = object_of(state)->Some_0;
            let value = with_value(session, "queued"@, JsonView::Array(Seq::empty()));
            law_set_member_is_read_back(
                fields,
                "agents"@,
                JsonView::Object(with_member(agents, id, value)),
                "agents"@,
            );
        }
    }
}

/// Asks for a session.
pub fn query(state: Json, id: &str) -> (r: DummyOutcome<Option<SessionQuery>>)
    ensures
        comes_to_as(r, queried(state@, id@), |answer: Option<SessionQuery>| query_view(answer)),
{
    proof {
        lemma_drained_keeps_agents(state@, id@);
    }
    let DummyOutcome { appends, result } = drain_queue(state, id);
    let state = match result {
        Ok((state, _)) => state,
        Err(error) => {
            return DummyOutcome { appends, result: Err(error) };
        },
    };
    let session = match members(&state, "agents") {
        Some(agents) => match agent(agents, id) {
            Some(session) => Some(session.copy()),
            None => None,
        },
        None => None,
    };
    let state = match push_operation(state, Json::object(operation("query", id))) {
        Some(state) => state,
        None => {
            return DummyOutcome { appends, result: refuse(no_operations_text()) };
        },
    };
    match session {
        None => DummyOutcome { appends, result: Ok((state, None)) },
        Some(session) => match known(&session) {
            Ok(query) => DummyOutcome { appends, result: Ok((state, Some(query))) },
            Err(error) => DummyOutcome { appends, result: Err(error) },
        },
    }
}

/// What interrupting a session comes to: it is idle, and what it had queued is gone.
pub open spec fn interrupted(state: JsonView, id: Seq<char>) -> OutcomeOf<()> {
    match object_at(state, "agents"@) {
        None => OutcomeOf::failed(not_an_object("agents"@)),
        Some(agents) => match member_of(agents, id) {
            None => OutcomeOf::failed("dummy session "@ + id + " does not exist"@),
            Some(session) => {
                let idle = with_value(
                    with_value(session, "status"@, JsonView::Text("idle"@)),
                    "queued"@,
                    JsonView::Array(Seq::empty()),
                );
                match with_operation(
                    with_agent(state, id, idle),
                    JsonView::Object(operation_on("interrupt"@, id)),
                ) {
                    None => OutcomeOf::failed(no_operations()),
                    Some(after) => OutcomeOf { appends: Seq::empty(), result: Ok((after, ())) },
                }
            },
        },
    }
}

/// Whether the session of this name, where there is one, can have members.
pub open spec fn agent_takes_members(state: JsonView, id: Seq<char>) -> bool {
    agent_of(state, id) matches Some(session) ==> takes_members(session)
}

fn no_session(id: &str) -> (r: String)
    ensures
        r@ == "dummy session "@ + id@ + " does not exist"@,
{
    "dummy session ".to_owned().concat(id).concat(" does not exist")
}

fn empty_array() -> (r: Json)
    ensures
        r@ == JsonView::Array(Seq::empty()),
{
    let none: Vec<Json> = Vec::new();
    assert(items_view(none@) =~= Seq::empty());
    Json::array(none)
}

/// Interrupts a session.
pub fn interrupt(state: Json, id: &str) -> (r: DummyOutcome<()>)
    requires
        agent_takes_members(state@, id@),
    ensures
        comes_to(r, interrupted(state@, id@)),
{
    let session = match members(&state, "agents") {
        None => {
            return fail(not_an_object_text("agents"));
        },
        Some(agents) => match agent(agents, id) {
            None => {
                return fail(no_session(id));
            },
            Some(session) => session.copy(),
        },
    };
    let session = session.with("status", Json::text("idle"));
    let session = session.with("queued", empty_array());
    let state = set_agent(state, id, session);
    match push_operation(state, Json::object(operation("interrupt", id))) {
        Some(state) => succeed(state, ()),
        None => fail(no_operations_text()),
    }
}

/// The entry that a session's transcript gains when it queues a prompt.
pub open spec fn enqueued(
    run_dir: Seq<char>,
    external_id: Seq<char>,
    text: Seq<char>,
    timestamp: Seq<char>,
) -> LogAppendView {
    LogAppendView {
        run_dir,
        external_id,
        entry: JsonView::Object(
            seq![
                ("type"@, JsonView::Text("queue-operation"@)),
                ("operation"@, JsonView::Text("enqueue"@)),
                ("content"@, JsonView::Text(text)),
                ("timestamp"@, JsonView::Text(timestamp)),
            ],
        ),
    }
}

/// A session with one more prompt in its queue.
pub open spec fn with_queued(session: JsonView, text: Seq<char>) -> JsonView {
    let queue = match get_of(session, "queued"@) {
        Some(JsonView::Array(items)) => items,
        _ => Seq::empty(),
    };
    with_value(session, "queued"@, JsonView::Array(queue.push(JsonView::Text(text))))
}

/// How many prompts the state lets drop.
pub open spec fn drops_left(state: JsonView) -> int {
    match get_of(state, "drop_prompts"@) {
        Some(value) => match u64_value(value) {
            Some(number) => number as int,
            None => 0,
        },
        None => 0,
    }
}

/// Whether the state lets prompts be worked on without a word in the transcript.
pub open spec fn holds_transcript(state: JsonView) -> bool {
    get_of(state, "hold_transcript"@) == Some(JsonView::Bool(true))
}

/// What prompting a session comes to at this time.
pub open spec fn prompted(
    state: JsonView,
    id: Seq<char>,
    text: Seq<char>,
    timestamp: Seq<char>,
) -> OutcomeOf<
    (),
> {
    match with_operation(
        state,
        JsonView::Object(operation_on("prompt"@, id).push(("text"@, JsonView::Text(text)))),
    ) {
        None => OutcomeOf::failed(no_operations()),
        Some(state) => if drops_left(state) > 0 {
            OutcomeOf {
                appends: Seq::empty(),
                result: Ok(
                    (
                        with_value(
                            state,
                            "drop_prompts"@,
                            JsonView::Integer(drops_left(state) - 1),
                        ),
                        (),
                    ),
                ),
            }
        } else {
            match object_at(state, "agents"@) {
                None => OutcomeOf::failed(not_an_object("agents"@)),
                Some(agents) => match member_of(agents, id) {
                    None => if holds_transcript(state) {
                        OutcomeOf { appends: Seq::empty(), result: Ok((state, ())) }
                    } else {
                        OutcomeOf::failed("dummy session "@ + id + " does not exist"@)
                    },
                    Some(session) => if holds_transcript(state) {
                        let working = with_value(session, "status"@, JsonView::Text("working"@));
                        OutcomeOf {
                            appends: Seq::empty(),
                            result: Ok((with_agent(state, id, working), ())),
                        }
                    } else {
                        reached(state, id, session, text, timestamp)
                    },
                },
            }
        },
    }
}

/// What a prompt that reaches a session comes to: a busy session queues it, another one works
/// through its queue and then picks it up.
pub open spec fn reached(
    state: JsonView,
    id: Seq<char>,
    session: JsonView,
    text: Seq<char>,
    timestamp: Seq<char>,
) -> OutcomeOf<()> {
    if busy(session) {
        match transcript_of(session) {
            Err(message) => OutcomeOf::failed(message),
            Ok((run_dir, external_id)) => OutcomeOf {
                appends: seq![enqueued(run_dir, external_id, text, timestamp)],
                result: Ok((with_agent(state, id, with_queued(session, text)), ())),
            },
        }
    } else {
        let drain = drained(state, id);
        match (drain.result, transcript_of(session)) {
            (Err(_), _) => drain,
            (Ok(_), Err(message)) => OutcomeOf { appends: drain.appends, result: Err(message) },
            (Ok((after, _)), Ok((run_dir, external_id))) => OutcomeOf {
                appends: drain.appends + delivery(
                    text_at(after, "reply_on_prompt"@),
                    run_dir,
                    external_id,
                    text,
                ),
                result: drain.result,
            },
        }
    }
}

fn reach(state: Json, id: &str, session: Json, text: &str, timestamp: &str) -> (r: DummyOutcome<()>)
    requires
        object_at(state@, "agents"@) is Some,
        agent_of(state@, id@) == Some(session@),
    ensures
        comes_to(r, reached(state@, id@, session@, text@, timestamp@)),
{
    if is_busy(&session) {
        let mut appends: Vec<LogAppend> = Vec::new();
        match transcript(&session) {
            Err(error) => {
                assert(appends_view(appends@) =~= Seq::empty());
                return DummyOutcome { appends, result: Err(error) };
            },
            Ok((run_dir, external_id)) => {
                let mut fields: Vec<JsonField> = Vec::new();
                fields.push(field("type", Json::text("queue-operation")));
                fields.push(field("operation", Json::text("enqueue")));
                fields.push(field("content", Json::text(text)));
                fields.push(field("timestamp", Json::text(timestamp)));
                let ghost told = enqueued(run_dir@, external_id@, text@, timestamp@);
                assert(fields_view(fields@) =~= told.entry->Object_0);
                let entry = Json::object(fields);
                appends.push(
                    LogAppend {
                        run_dir: run_dir.to_owned(),
                        external_id: external_id.to_owned(),
                        entry,
                    },
                );
                assert(appends_view(appends@) =~= seq![told]);
            },
        }
        let mut queue: Vec<Json> = match session.get("queued") {
            Some(value) => match value.as_array() {
                Some(items) => copy_items(items),
                None => Vec::new(),
            },
            None => Vec::new(),
        };
        let ghost before = items_view(queue@);
        assert(before =~= match get_of(session@, "queued"@) {
            Some(JsonView::Array(items)) => items,
            _ => Seq::empty(),
        });
        queue.push(Json::text(text));
        assert(items_view(queue@) =~= before.push(JsonView::Text(text@)));
        let session = session.with("queued", Json::array(queue));
        let state = set_agent(state, id, session);
        return DummyOutcome { appends, result: Ok((state, ())) };
    }
    let DummyOutcome { appends, result } = drain_queue(state, id);
    let state = match result {
        Ok((state, _)) => state,
        Err(error) => {
            return DummyOutcome { appends, result: Err(error) };
        },
    };
    match transcript(&session) {
        Err(error) => DummyOutcome { appends, result: Err(error) },
        Ok((run_dir, external_id)) => {
            let mut appends = appends;
            deliver(&mut appends, state.get_str("reply_on_prompt"), run_dir, external_id, text);
            DummyOutcome { appends, result: Ok((state, ())) }
        },
    }
}

/// Prompts a session at this time.
pub fn prompt(state: Json, id: &str, text: &str, timestamp: &str) -> (r: DummyOutcome<()>)
    requires
        operations_of(state@) is Some && drops_left(state@) == 0 && holds_transcript(state@)
            ==> agent_takes_members(state@, id@),
    ensures
        comes_to(r, prompted(state@, id@, text@, timestamp@)),
{
    let mut done = operation("prompt", id);
    let ghost before = done@;
    done.push(field("text", Json::text(text)));
    assert(fields_view(done@) =~= fields_view(before).push(("text"@, JsonView::Text(text@))));
    proof {
        let operation = JsonView::Object(fields_view(done@));
        lemma_names_differ();
        lemma_operation_keeps_agents(state@, operation, id@);
        lemma_operation_keeps_fields(state@, operation, "drop_prompts"@);
        lemma_operation_keeps_fields(state@, operation, "hold_transcript"@);
    }
    let state = match push_operation(state, Json::object(done)) {
        Some(state) => state,
        None => {
            return fail(no_operations_text());
        },
    };
    let drops: u64 = match state.get("drop_prompts") {
        Some(value) => match value.as_u64() {
            Some(number) => number,
            None => 0,
        },
        None => 0,
    };
    if drops > 0 {
        return succeed(state.with("drop_prompts", Json::Integer((drops - 1) as i128)), ());
    }
    let holds = match state.get("hold_transcript") {
        Some(value) => match value.as_bool() {
            Some(holds) => holds,
            None => false,
        },
        None => false,
    };
    let session = match members(&state, "agents") {
        None => {
            return fail(not_an_object_text("agents"));
        },
        Some(agents) => match agent(agents, id) {
            None => {
                if holds {
                    return succeed(state, ());
                }
                return fail(no_session(id));
            },
            Some(session) => session.copy(),
        },
    };
    if holds {
        let working = session.with("status", Json::text("working"));
        return succeed(set_agent(state, id, working), ());
    }
    reach(state, id, session, text, timestamp)
}

/// Another operation on record leaves the other fields of the state as they are.
proof fn lemma_operation_keeps_fields(state: JsonView, operation: JsonView, key: Seq<char>)
    requires
        key != "operations"@,
    ensures
        with_operation(state, operation) matches Some(after) ==> get_of(after, key) == get_of(
            state,
            key,
        ),
{
    if let Some(operations) = operations_of(state) {
        law_set_member_is_read_back(
            object_of(state)->Some_0,
            "operations"@,
            JsonView::Array(operations.push(operation)),
            key,
        );
    }
}

proof fn lemma_operation_keeps_agents(state: JsonView, operation: JsonView, id: Seq<char>)
    ensures
        with_operation(state, operation) matches Some(after) ==> {
            &&& object_at(after, "agents"@) == object_at(state, "agents"@)
            &&& agent_of(after, id) == agent_of(state, id)
        },
{
    lemma_names_differ();
    lemma_operation_keeps_fields(state, operation, "agents"@);
}

/// What beginning to wait for a session comes to, so many milliseconds at most.
pub open spec fn awaited(state: JsonView, id: Seq<char>, timeout_ms: u64) -> OutcomeOf<()> {
    let operation = operation_on("wait"@, id).push(
        ("timeout_ms"@, JsonView::Integer(timeout_ms as int)),
    );
    match with_operation(state, JsonView::Object(operation)) {
        None => OutcomeOf::failed(no_operations()),
        Some(after) => OutcomeOf { appends: Seq::empty(), result: Ok((after, ())) },
    }
}

/// Begins to wait for a session, so many milliseconds at most.
pub fn begin_wait(state: Json, id: &str, timeout_ms: u64) -> (r: DummyOutcome<()>)
    ensures
        comes_to(r, awaited(state@, id@, timeout_ms)),
{
    let mut done = operation("wait", id);
    let ghost before = done@;
    done.push(field("timeout_ms", Json::Integer(timeout_ms as i128)));
    assert(fields_view(done@) =~= fields_view(before).push(
        ("timeout_ms"@, JsonView::Integer(timeout_ms as int)),
    ));
    match push_operation(state, Json::object(done)) {
        Some(state) => succeed(state, ()),
        None => fail(no_operations_text()),
    }
}

/// What a look at a session that is waited for comes to: whether it is not busy any more.
pub open spec fn looked_at(state: JsonView, id: Seq<char>) -> OutcomeOf<bool> {
    let drain = drained(state, id);
    OutcomeOf {
        appends: drain.appends,
        result: match drain.result {
            Err(message) => Err(message),
            Ok((after, _)) => Ok(
                (after, agent_of(after, id) matches Some(session) ==> !busy(session)),
            ),
        },
    }
}

/// Looks at a session that is waited for.
pub fn look_at(state: Json, id: &str) -> (r: DummyOutcome<bool>)
    ensures
        comes_to(r, looked_at(state@, id@)),
{
    proof {
        lemma_drained_keeps_agents(state@, id@);
    }
    let DummyOutcome { appends, result } = drain_queue(state, id);
    match result {
        Ok((state, _)) => {
            let idle = match members(&state, "agents") {
                Some(agents) => match agent(agents, id) {
                    Some(session) => !is_busy(session),
                    None => true,
                },
                None => true,
            };
            DummyOutcome { appends, result: Ok((state, idle)) }
        },
        Err(error) => DummyOutcome { appends, result: Err(error) },
    }
}

/// So many milliseconds pass between two looks at a session that is waited for.
pub const WAIT_REST_MILLIS: u64 = 10;

/// Whether the wait for a session is over after so many milliseconds: the session is not busy any
/// more, or the time is up.
pub fn wait_is_over(idle: bool, waited_ms: u128, timeout_ms: u64) -> (r: bool)
    ensures
        r == (idle || waited_ms >= timeout_ms),
{
    idle || waited_ms >= timeout_ms as u128
}

/// The names that the state's fields go by differ.
proof fn lemma_names_differ()
    ensures
        "agents"@ != "operations"@,
        "agents"@ != "panes"@,
        "agents"@ != "sequence"@,
        "agents"@ != "drop_prompts"@,
        "operations"@ != "drop_prompts"@,
        "operations"@ != "hold_transcript"@,
        "operations"@ != "reply_on_prompt"@,
        "status"@ != "queued"@,
        "status"@ != "session_id"@,
        "queued"@ != "session_id"@,
        "queued"@ != "run_dir"@,
        "busy"@ != "idle"@,
{
    reveal_strlit("agents");
    reveal_strlit("operations");
    reveal_strlit("panes");
    reveal_strlit("sequence");
    reveal_strlit("drop_prompts");
    reveal_strlit("hold_transcript");
    reveal_strlit("reply_on_prompt");
    reveal_strlit("status");
    reveal_strlit("queued");
    reveal_strlit("session_id");
    reveal_strlit("run_dir");
    reveal_strlit("busy");
    reveal_strlit("idle");
    assert("agents"@.len() == 6);
    assert("operations"@.len() == 10);
    assert("panes"@.len() == 5);
    assert("sequence"@.len() == 8);
    assert("drop_prompts"@.len() == 12);
    assert("hold_transcript"@.len() == 15);
    assert("reply_on_prompt"@.len() == 15);
    assert("session_id"@.len() == 10);
    assert("run_dir"@.len() == 7);
    assert("status"@[0] == 's');
    assert("queued"@[0] == 'q');
    assert("status"@.len() == 6);
    assert("queued"@.len() == 6);
    assert("busy"@[0] == 'b');
    assert("idle"@[0] == 'i');
}

proof fn lemma_set_agent_is_read_back(
    state: JsonView,
    id: Seq<char>,
    agent: JsonView,
    other: Seq<char>,
)
    requires
        object_at(state, "agents"@) is Some,
    ensures
        object_at(with_agent(state, id, agent), "agents"@) is Some,
        agent_of(with_agent(state, id, agent), id) == Some(agent),
        other != id ==> agent_of(with_agent(state, id, agent), other) == agent_of(state, other),
{
    let agents = object_at(state, "agents"@)->Some_0;
    law_set_member_is_read_back(
        object_of(state)->Some_0,
        "agents"@,
        JsonView::Object(with_member(agents, id, agent)),
        "agents"@,
    );
    law_set_member_is_read_back(agents, id, agent, other);
}

/// An interrupted session is idle and has nothing queued, and every other session is as it was.
pub proof fn law_interrupt_clears_the_queue(state: JsonView, id: Seq<char>, other: Seq<char>)
    requires
        agent_takes_members(state, id),
        interrupted(state, id).result is Ok,
    ensures
        ({
            let after = interrupted(state, id).result->Ok_0.0;
            &&& agent_of(after, id) matches Some(session)
            &&& text_at(session, "status"@) == Some("idle"@)
            &&& !busy(session)
            &&& queue_of(session) == Seq::<Seq<char>>::empty()
            &&& other != id ==> agent_of(after, other) == agent_of(state, other)
        }),
{
    lemma_names_differ();
    let session = agent_of(state, id)->Some_0;
    let idle = with_value(session, "status"@, JsonView::Text("idle"@));
    let cleared = with_value(idle, "queued"@, JsonView::Array(Seq::empty()));
    let operation = JsonView::Object(operation_on("interrupt"@, id));
    lemma_set_agent_is_read_back(state, id, cleared, other);
    lemma_operation_keeps_agents(with_agent(state, id, cleared), operation, id);
    lemma_operation_keeps_agents(with_agent(state, id, cleared), operation, other);
    lemma_with_value(session, "status"@, JsonView::Text("idle"@), "status"@);
    lemma_with_value(idle, "queued"@, JsonView::Array(Seq::empty()), "queued"@);
    lemma_with_value(idle, "queued"@, JsonView::Array(Seq::empty()), "status"@);
}

proof fn lemma_with_value(value: JsonView, key: Seq<char>, member: JsonView, other: Seq<char>)
    requires
        takes_members(value),
    ensures
        get_of(with_value(value, key, member), key) == Some(member),
        other != key ==> get_of(with_value(value, key, member), other) == get_of(value, other),
{
    match value {
        JsonView::Object(fields) => {
            law_set_member_is_read_back(fields, key, member, other);
        },
        _ => {
            law_set_member_is_read_back(Seq::empty(), key, member, other);
            assert(with_member(Seq::empty(), key, member) =~= seq![(key, member)]);
        },
    }
}

/// A prompt for a busy session joins the end of its queue, and the session stays busy.
pub proof fn law_busy_session_queues_in_order(
    state: JsonView,
    id: Seq<char>,
    session: JsonView,
    text: Seq<char>,
    timestamp: Seq<char>,
)
    requires
        agent_of(state, id) == Some(session),
        busy(session),
        reached(state, id, session, text, timestamp).result is Ok,
    ensures
        ({
            let after = reached(state, id, session, text, timestamp).result->Ok_0.0;
            &&& agent_of(after, id) matches Some(later)
            &&& busy(later)
            &&& queue_of(later) == queue_of(session).push(text)
            &&& transcript_of(later) == transcript_of(session)
        }),
{
    lemma_names_differ();
    let later = with_queued(session, text);
    let queue = match get_of(session, "queued"@) {
        Some(JsonView::Array(items)) => items,
        _ => Seq::empty(),
    };
    let longer = queue.push(JsonView::Text(text));
    lemma_set_agent_is_read_back(state, id, later, id);
    lemma_with_value(session, "queued"@, JsonView::Array(longer), "status"@);
    lemma_with_value(session, "queued"@, JsonView::Array(longer), "run_dir"@);
    lemma_with_value(session, "queued"@, JsonView::Array(longer), "session_id"@);
    assert(longer.drop_last() =~= queue);
    assert(strings_among(longer) == strings_among(queue).push(text));
}

/// A session that is not busy works through its whole queue in order, and then has nothing queued.
pub proof fn law_queue_is_delivered_in_order(state: JsonView, id: Seq<char>, session: JsonView)
    requires
        agent_of(state, id) == Some(session),
        !busy(session),
        drained(state, id).result is Ok,
    ensures
        ({
            let drain = drained(state, id);
            let after = drain.result->Ok_0.0;
            &&& queue_of(session).len() > 0 ==> {
                &&& transcript_of(session) matches Ok((run_dir, external_id))
                &&& drain.appends == deliveries(
                    text_at(state, "reply_on_prompt"@),
                    run_dir,
                    external_id,
                    queue_of(session),
                )
            }
            &&& agent_of(after, id) matches Some(later)
            &&& queue_of(later) == Seq::<Seq<char>>::empty()
            &&& !busy(later)
        }),
{
    lemma_names_differ();
    if queue_of(session).len() > 0 {
        let later = with_value(session, "queued"@, JsonView::Array(Seq::empty()));
        lemma_with_value(session, "queued"@, JsonView::Array(Seq::empty()), "status"@);
        lemma_set_agent_is_read_back(state, id, later, id);
    } else {
        assert(queue_of(session) =~= Seq::empty());
    }
}

/// A session that was started is found by a query: under the id that its start gave, and idle.
pub proof fn law_started_session_is_found(
    state: JsonView,
    id: Seq<char>,
    run_dir: Seq<char>,
    kind: SessionKind,
)
    requires
        takes_members(state),
        started(state, id, run_dir, kind).result is Ok,
    ensures
        ({
            let (after, session) = started(state, id, run_dir, kind).result->Ok_0;
            &&& queried(after, id).result matches Ok((_, Some(known)))
            &&& known == (SessionQueryView { external_id: session.external_id, status: "idle"@ })
            &&& queried(after, id).appends == Seq::<LogAppendView>::empty()
        }),
{
    lemma_names_differ();
    let number = next_number(state);
    let session = started(state, id, run_dir, kind).result->Ok_0.1;
    let numbered = with_value(state, "sequence"@, JsonView::Integer(number));
    let panes = object_at(numbered, "panes"@)->Some_0;
    let pane = JsonView::Object(seq![("cwd"@, JsonView::Text(run_dir))]);
    let paned = with_value(
        numbered,
        "panes"@,
        JsonView::Object(with_member(panes, session.pane_id, pane)),
    );
    let agent = new_session(session.external_id, run_dir);
    let staffed = with_agent(paned, id, agent);
    let operation = JsonView::Object(
        operation_on("start"@, id).push(("kind"@, JsonView::Text(kind.name()))),
    );
    lemma_set_agent_is_read_back(paned, id, agent, id);
    lemma_operation_keeps_agents(staffed, operation, id);
    let after = with_operation(staffed, operation)->Some_0;
    lemma_operations_stay(staffed, operation);
    lemma_new_session(session.external_id, run_dir);
    let query = JsonView::Object(operation_on("query"@, id));
    lemma_operations_stay(after, query);
}

proof fn lemma_operations_stay(state: JsonView, operation: JsonView)
    ensures
        with_operation(state, operation) matches Some(after) ==> operations_of(after) is Some,
{
    if let Some(operations) = operations_of(state) {
        lemma_with_value(
            state,
            "operations"@,
            JsonView::Array(operations.push(operation)),
            "operations"@,
        );
    }
}

proof fn lemma_new_session(external_id: Seq<char>, run_dir: Seq<char>)
    ensures
        ({
            let session = new_session(external_id, run_dir);
            &&& text_at(session, "session_id"@) == Some(external_id)
            &&& text_at(session, "status"@) == Some("idle"@)
            &&& !busy(session)
            &&& queue_of(session).len() == 0
        }),
{
    lemma_names_differ();
    reveal_strlit("run_dir");
    reveal_strlit("queued");
    let fields = new_session(external_id, run_dir)->Object_0;
    reveal_with_fuel(place_from, 5);
    assert("session_id"@ != "status"@);
    assert(fields[0].0 == "session_id"@);
    assert(fields[1].0 == "status"@);
    assert(fields[2].0 == "run_dir"@);
}

/// An operation joins the end of those that the state lists, and leaves everything else in the state
/// as it was; a state that lists none takes none.
pub proof fn law_operation_is_listed_last(state: JsonView, operation: JsonView, other: Seq<char>)
    ensures
        with_operation(state, operation) is None <==> operations_of(state) is None,
        with_operation(state, operation) matches Some(after) ==> {
            &&& operations_of(after) == Some(operations_of(state)->Some_0.push(operation))
            &&& other != "operations"@ ==> get_of(after, other) == get_of(state, other)
        },
{
    if let Some(operations) = operations_of(state) {
        lemma_with_value(
            state,
            "operations"@,
            JsonView::Array(operations.push(operation)),
            "operations"@,
        );
        lemma_with_value(
            state,
            "operations"@,
            JsonView::Array(operations.push(operation)),
            other,
        );
    }
}

/// Whatever is done with a session, it is listed last among the operations, by its name and with the
/// session's, and nothing that was listed before is lost.
#[verifier::rlimit(40)]
pub proof fn law_every_operation_is_listed(
    state: JsonView,
    id: Seq<char>,
    text: Seq<char>,
    timestamp: Seq<char>,
    timeout_ms: u64,
)
    ensures
        awaited(state, id, timeout_ms).result matches Ok((after, _)) ==> {
            &&& operations_of(state) matches Some(before)
            &&& operations_of(after) matches Some(listed)
            &&& listed.len() == before.len() + 1
            &&& listed.drop_last() == before
            &&& listed.last() matches JsonView::Object(fields)
            &&& fields.contains(("operation"@, JsonView::Text("wait"@)))
            &&& fields.contains(("session_id"@, JsonView::Text(id)))
            &&& fields.contains(("timeout_ms"@, JsonView::Integer(timeout_ms as int)))
        },
        interrupted(state, id).result matches Ok((after, _)) ==> {
            &&& operations_of(state) matches Some(before)
            &&& operations_of(after) matches Some(listed)
            &&& listed.drop_last() == before
            &&& listed.last() matches JsonView::Object(fields)
            &&& fields.contains(("operation"@, JsonView::Text("interrupt"@)))
            &&& fields.contains(("session_id"@, JsonView::Text(id)))
        },
        prompted(state, id, text, timestamp).result matches Ok((after, _)) ==> {
            &&& operations_of(state) matches Some(before)
            &&& operations_of(after) matches Some(listed)
            &&& listed.drop_last() == before
            &&& listed.last() matches JsonView::Object(fields)
            &&& fields.contains(("operation"@, JsonView::Text("prompt"@)))
            &&& fields.contains(("session_id"@, JsonView::Text(id)))
            &&& fields.contains(("text"@, JsonView::Text(text)))
        },
{
    lemma_names_differ();
    lemma_operation_words("wait"@, id);
    lemma_operation_words("interrupt"@, id);
    lemma_operation_words("prompt"@, id);
    let wait = operation_on("wait"@, id).push(
        ("timeout_ms"@, JsonView::Integer(timeout_ms as int)),
    );
    law_operation_is_listed_last(state, JsonView::Object(wait), "agents"@);
    if awaited(state, id, timeout_ms).result is Ok {
        let before = operations_of(state)->Some_0;
        assert(before.push(JsonView::Object(wait)).drop_last() =~= before);
        assert(wait[0] == operation_on("wait"@, id)[0]);
        assert(wait[1] == operation_on("wait"@, id)[1]);
        assert(wait[2].0 == "timeout_ms"@);
    }
    if let Ok((after, _)) = interrupted(state, id).result {
        let session = agent_of(state, id)->Some_0;
        let idle = with_value(
            with_value(session, "status"@, JsonView::Text("idle"@)),
            "queued"@,
            JsonView::Array(Seq::empty()),
        );
        let operation = JsonView::Object(operation_on("interrupt"@, id));
        let staffed = with_agent(state, id, idle);
        law_operation_is_listed_last(staffed, operation, "agents"@);
        lemma_agent_keeps_operations(state, id, idle);
        let before = operations_of(state)->Some_0;
        assert(before.push(operation).drop_last() =~= before);
    }
    if let Ok((after, _)) = prompted(state, id, text, timestamp).result {
        let words = operation_on("prompt"@, id).push(("text"@, JsonView::Text(text)));
        let operation = JsonView::Object(words);
        assert(words[0] == operation_on("prompt"@, id)[0]);
        assert(words[1] == operation_on("prompt"@, id)[1]);
        assert(words[2] == ("text"@, JsonView::Text(text)));
        law_operation_is_listed_last(state, operation, "agents"@);
        let before = operations_of(state)->Some_0;
        let listed = with_operation(state, operation)->Some_0;
        assert(before.push(operation).drop_last() =~= before);
        assert(operations_of(after) == operations_of(listed)) by {
            if drops_left(listed) > 0 {
                lemma_with_value(
                    listed,
                    "drop_prompts"@,
                    JsonView::Integer(drops_left(listed) - 1),
                    "operations"@,
                );
            } else if let Some(session) = agent_of(listed, id) {
                if holds_transcript(listed) {
                    let working = with_value(session, "status"@, JsonView::Text("working"@));
                    lemma_agent_keeps_operations(listed, id, working);
                } else if busy(session) {
                    lemma_agent_keeps_operations(listed, id, with_queued(session, text));
                } else {
                    lemma_agent_keeps_operations(
                        listed,
                        id,
                        with_value(session, "queued"@, JsonView::Array(Seq::empty())),
                    );
                }
            }
        }
    }
}

proof fn lemma_operation_words(name: Seq<char>, id: Seq<char>)
    ensures
        operation_on(name, id).len() == 2,
        operation_on(name, id)[0] == ("operation"@, JsonView::Text(name)),
        operation_on(name, id)[1] == ("session_id"@, JsonView::Text(id)),
{
}

proof fn lemma_agent_keeps_operations(state: JsonView, id: Seq<char>, agent: JsonView)
    requires
        object_at(state, "agents"@) is Some,
    ensures
        operations_of(with_agent(state, id, agent)) == operations_of(state),
        drops_left(with_agent(state, id, agent)) == drops_left(state),
{
    lemma_names_differ();
    let agents = JsonView::Object(with_member(object_at(state, "agents"@)->Some_0, id, agent));
    lemma_with_value(state, "agents"@, agents, "operations"@);
    lemma_with_value(state, "agents"@, agents, "drop_prompts"@);
}

/// A prompt that the state lets drop reaches no transcript and no session, and one fewer is dropped
/// from then on; while none is to be dropped, that stays so.
pub proof fn law_dropped_prompts_are_counted_down(
    state: JsonView,
    id: Seq<char>,
    text: Seq<char>,
    timestamp: Seq<char>,
    other: Seq<char>,
)
    requires
        prompted(state, id, text, timestamp).result is Ok,
    ensures
        ({
            let outcome = prompted(state, id, text, timestamp);
            let after = outcome.result->Ok_0.0;
            &&& drops_left(state) > 0 ==> {
                &&& outcome.appends.len() == 0
                &&& drops_left(after) == drops_left(state) - 1
                &&& agent_of(after, other) == agent_of(state, other)
            }
            &&& drops_left(state) == 0 ==> drops_left(after) == 0
        }),
{
    lemma_names_differ();
    let operation = JsonView::Object(
        operation_on("prompt"@, id).push(("text"@, JsonView::Text(text))),
    );
    law_operation_is_listed_last(state, operation, "drop_prompts"@);
    law_operation_is_listed_last(state, operation, "agents"@);
    let listed = with_operation(state, operation)->Some_0;
    if drops_left(listed) > 0 {
        let fewer = JsonView::Integer(drops_left(listed) - 1);
        lemma_with_value(listed, "drop_prompts"@, fewer, "drop_prompts"@);
        lemma_with_value(listed, "drop_prompts"@, fewer, "agents"@);
    } else if let Some(session) = agent_of(listed, id) {
        if holds_transcript(listed) {
            let working = with_value(session, "status"@, JsonView::Text("working"@));
            lemma_agent_keeps_operations(listed, id, working);
        } else if busy(session) {
            lemma_agent_keeps_operations(listed, id, with_queued(session, text));
        } else {
            lemma_agent_keeps_operations(
                listed,
                id,
                with_value(session, "queued"@, JsonView::Array(Seq::empty())),
            );
        }
    }
}

/// A prompt that is not dropped fails where there is no such session and the transcripts are not
/// held. Where they are held, the session goes to work without a word; where not, a session that is
/// not busy has the prompt in its transcript behind all that it had queued.
#[verifier::rlimit(40)]
pub proof fn law_prompt_reaches_its_session(
    state: JsonView,
    id: Seq<char>,
    text: Seq<char>,
    timestamp: Seq<char>,
)
    requires
        operations_of(state) is Some,
        drops_left(state) == 0,
        object_at(state, "agents"@) is Some,
    ensures
        ({
            let outcome = prompted(state, id, text, timestamp);
            let held = get_of(state, "hold_transcript"@) == Some(JsonView::Bool(true));
            match agent_of(state, id) {
                None => {
                    &&& outcome.appends.len() == 0
                    &&& outcome.result is Ok <==> held
                },
                Some(session) => {
                    &&& held && takes_members(session) ==> {
                        &&& outcome.appends.len() == 0
                        &&& outcome.result matches Ok((after, _))
                        &&& agent_of(after, id) matches Some(later)
                        &&& text_at(later, "status"@) == Some("working"@)
                    }
                    &&& !held && !busy(session) && outcome.result is Ok ==> {
                        &&& transcript_of(session) matches Ok((run_dir, external_id))
                        &&& outcome.appends == deliveries(
                            text_at(state, "reply_on_prompt"@),
                            run_dir,
                            external_id,
                            queue_of(session).push(text),
                        )
                    }
                },
            }
        }),
{
    lemma_names_differ();
    let operation = JsonView::Object(
        operation_on("prompt"@, id).push(("text"@, JsonView::Text(text))),
    );
    law_operation_is_listed_last(state, operation, "drop_prompts"@);
    law_operation_is_listed_last(state, operation, "agents"@);
    law_operation_is_listed_last(state, operation, "hold_transcript"@);
    law_operation_is_listed_last(state, operation, "reply_on_prompt"@);
    let listed = with_operation(state, operation)->Some_0;
    let outcome = prompted(state, id, text, timestamp);
    if let Some(session) = agent_of(state, id) {
        assert(agent_of(listed, id) == Some(session));
        if holds_transcript(listed) {
            let working = with_value(session, "status"@, JsonView::Text("working"@));
            lemma_set_agent_is_read_back(listed, id, working, id);
            if takes_members(session) {
                lemma_with_value(session, "status"@, JsonView::Text("working"@), "status"@);
            }
        } else if !busy(session) && outcome.result is Ok {
            let (run_dir, external_id) = transcript_of(session)->Ok_0;
            let reply = text_at(state, "reply_on_prompt"@);
            let queue = queue_of(session);
            let after = drained(listed, id).result->Ok_0.0;
            assert(get_of(after, "reply_on_prompt"@) == get_of(listed, "reply_on_prompt"@)) by {
                reveal_strlit("agents");
                reveal_strlit("reply_on_prompt");
                assert("agents"@.len() != "reply_on_prompt"@.len());
                let cleared = with_value(session, "queued"@, JsonView::Array(Seq::empty()));
                lemma_with_value(
                    listed,
                    "agents"@,
                    JsonView::Object(
                        with_member(object_at(listed, "agents"@)->Some_0, id, cleared),
                    ),
                    "reply_on_prompt"@,
                );
            }
            assert(queue.push(text).drop_last() =~= queue);
            assert(queue.push(text).last() == text);
            if queue.len() == 0 {
                assert(deliveries(reply, run_dir, external_id, queue) =~= Seq::empty());
            }
            assert(outcome.appends =~= deliveries(reply, run_dir, external_id, queue.push(text)));
        }
    }
}

/// Prompts are delivered one after the other: each is written as the user's words, and where the
/// state has a reply, the agent's words follow.
#[verifier::rlimit(40)]
pub proof fn law_each_prompt_is_written_and_answered(
    reply: Option<Seq<char>>,
    run_dir: Seq<char>,
    external_id: Seq<char>,
    first: Seq<Seq<char>>,
    second: Seq<Seq<char>>,
    text: Seq<char>,
)
    ensures
        deliveries(reply, run_dir, external_id, first + second) == deliveries(
            reply,
            run_dir,
            external_id,
            first,
        ) + deliveries(reply, run_dir, external_id, second),
        deliveries(reply, run_dir, external_id, Seq::empty()).len() == 0,
        ({
            let entries = deliveries(reply, run_dir, external_id, seq![text]);
            &&& entries.len() == (if reply is Some {
                2nat
            } else {
                1nat
            })
            &&& forall|i: int|
                0 <= i < entries.len() ==> (#[trigger] entries[i]).run_dir == run_dir
                    && entries[i].external_id == external_id
            &&& entries[0].entry == JsonView::Object(
                seq![
                    ("type"@, JsonView::Text("user"@)),
                    ("message"@, JsonView::Object(seq![("content"@, JsonView::Text(text))])),
                ],
            )
            &&& reply matches Some(words) ==> {
                &&& entries[1].entry matches JsonView::Object(fields)
                &&& fields[0] == ("type"@, JsonView::Text("assistant"@))
                &&& fields[1].1 matches JsonView::Object(message)
                &&& message[0].1 matches JsonView::Array(items)
                &&& items.len() == 1
                &&& items[0] == JsonView::Object(
                    seq![("type"@, JsonView::Text("text"@)), ("text"@, JsonView::Text(words))],
                )
            }
        }),
    decreases second.len(),
{
    if second.len() == 0 {
        assert(first + second =~= first);
        assert(deliveries(reply, run_dir, external_id, first) + deliveries(
            reply,
            run_dir,
            external_id,
            second,
        ) =~= deliveries(reply, run_dir, external_id, first));
    } else {
        law_each_prompt_is_written_and_answered(
            reply,
            run_dir,
            external_id,
            first,
            second.drop_last(),
            text,
        );
        assert((first + second).drop_last() =~= first + second.drop_last());
        assert((first + second).last() == second.last());
        assert(deliveries(reply, run_dir, external_id, first + second) =~= deliveries(
            reply,
            run_dir,
            external_id,
            first,
        ) + deliveries(reply, run_dir, external_id, second));
    }
    let one = seq![text];
    assert(one.drop_last() =~= Seq::<Seq<char>>::empty());
    assert(one.last() == text);
    reveal_with_fuel(deliveries, 2);
    assert(deliveries(reply, run_dir, external_id, one) =~= delivery(
        reply,
        run_dir,
        external_id,
        text,
    ));
}

/// Each start counts one further, so that no two sessions share a number; the number stands in the
/// names of the session, its pane and its tab, and the pane is kept with the run's directory.
#[verifier::rlimit(40)]
pub proof fn law_sessions_are_numbered_upwards(
    state: JsonView,
    id: Seq<char>,
    run_dir: Seq<char>,
    kind: SessionKind,
    other: Seq<char>,
)
    requires
        takes_members(state),
        next_number(state) <= u64::MAX,
        started(state, id, run_dir, kind).result is Ok,
    ensures
        ({
            let (after, session) = started(state, id, run_dir, kind).result->Ok_0;
            let number = next_number(state);
            &&& next_number(after) == number + 1
            &&& session.external_id == "session-"@ + id + "-"@ + decimal(number)
            &&& session.pane_id == "pane-"@ + decimal(number)
            &&& session.tab_id == "tab-"@ + decimal(number)
            &&& object_at(after, "panes"@) matches Some(panes)
            &&& member_of(panes, session.pane_id) == Some(
                JsonView::Object(seq![("cwd"@, JsonView::Text(run_dir))]),
            )
            &&& other != id ==> agent_of(after, other) == agent_of(state, other)
            &&& operations_of(after) matches Some(listed)
            &&& operations_of(state) matches Some(before)
            &&& listed == before.push(
                JsonView::Object(
                    seq![
                        ("operation"@, JsonView::Text("start"@)),
                        ("session_id"@, JsonView::Text(id)),
                        ("kind"@, JsonView::Text(kind.name())),
                    ],
                ),
            )
        }),
{
    lemma_names_differ();
    reveal_strlit("panes");
    reveal_strlit("sequence");
    reveal_strlit("operations");
    reveal_strlit("agents");
    assert("panes"@.len() == 5 && "sequence"@.len() == 8 && "operations"@.len() == 10);
    let number = next_number(state);
    let session = started(state, id, run_dir, kind).result->Ok_0.1;
    let count = JsonView::Integer(number);
    let numbered = with_value(state, "sequence"@, count);
    lemma_with_value(state, "sequence"@, count, "sequence"@);
    lemma_with_value(state, "sequence"@, count, "agents"@);
    lemma_with_value(state, "sequence"@, count, "operations"@);
    let panes = object_at(numbered, "panes"@)->Some_0;
    let pane = JsonView::Object(seq![("cwd"@, JsonView::Text(run_dir))]);
    let wider = JsonView::Object(with_member(panes, session.pane_id, pane));
    law_set_member_is_read_back(panes, session.pane_id, pane, other);
    let paned = with_value(numbered, "panes"@, wider);
    lemma_with_value(numbered, "panes"@, wider, "sequence"@);
    lemma_with_value(numbered, "panes"@, wider, "agents"@);
    lemma_with_value(numbered, "panes"@, wider, "operations"@);
    let agent = new_session(session.external_id, run_dir);
    let staffed = with_agent(paned, id, agent);
    let agents = JsonView::Object(with_member(object_at(paned, "agents"@)->Some_0, id, agent));
    lemma_with_value(paned, "agents"@, agents, "sequence"@);
    lemma_with_value(paned, "agents"@, agents, "panes"@);
    lemma_with_value(paned, "agents"@, agents, "operations"@);
    lemma_set_agent_is_read_back(paned, id, agent, other);
    let words = operation_on("start"@, id).push(("kind"@, JsonView::Text(kind.name())));
    let operation = JsonView::Object(words);
    law_operation_is_listed_last(staffed, operation, "sequence"@);
    law_operation_is_listed_last(staffed, operation, "panes"@);
    law_operation_is_listed_last(staffed, operation, "agents"@);
    assert(words =~= seq![
        ("operation"@, JsonView::Text("start"@)),
        ("session_id"@, JsonView::Text(id)),
        ("kind"@, JsonView::Text(kind.name())),
    ]);
}

/// A query tells of a session its id and its status, and of one that is not there nothing. A look at
/// a session tells whether it is anything but busy; a session that is not there is.
pub proof fn law_query_tells_id_and_status(state: JsonView, id: Seq<char>, session: JsonView)
    ensures
        agent_of(state, id) is None && queried(state, id).result is Ok ==> queried(
            state,
            id,
        ).result->Ok_0.1 is None,
        agent_of(state, id) is None && looked_at(state, id).result is Ok ==> looked_at(
            state,
            id,
        ).result->Ok_0.1,
        agent_of(state, id) == Some(session) && looked_at(state, id).result is Ok ==> (looked_at(
            state,
            id,
        ).result->Ok_0.1 <==> text_at(session, "status"@) != Some("busy"@)),
        agent_of(state, id) == Some(session) && queried(state, id).result is Ok ==> {
            &&& queried(state, id).result->Ok_0.1 matches Some(known)
            &&& text_at(session, "session_id"@) == Some(known.external_id)
            &&& text_at(session, "status"@) is Some ==> known.status == text_at(
                session,
                "status"@,
            )->Some_0
            &&& text_at(session, "status"@) is None ==> known.status == "idle"@
        },
        interrupted(state, id).result is Ok ==> agent_of(state, id) is Some,
{
    lemma_names_differ();
    if agent_of(state, id) == Some(session) && !busy(session) && queue_of(session).len() > 0
        && drained(state, id).result is Ok {
        let cleared = with_value(session, "queued"@, JsonView::Array(Seq::empty()));
        lemma_with_value(session, "queued"@, JsonView::Array(Seq::empty()), "status"@);
        lemma_with_value(session, "queued"@, JsonView::Array(Seq::empty()), "session_id"@);
        lemma_set_agent_is_read_back(state, id, cleared, id);
    }
}

/// A session that is busy or not there delivers nothing, and asking it to leaves the state as it is.
pub proof fn law_busy_session_delivers_nothing(state: JsonView, id: Seq<char>)
    requires
        object_at(state, "agents"@) is Some,
        agent_of(state, id) matches Some(session) ==> text_at(session, "status"@) == Some("busy"@),
    ensures
        drained(state, id).appends.len() == 0,
        drained(state, id).result == Ok::<(JsonView, ()), Seq<char>>((state, ())),
{
}

/// What a session has queued are the strings of its queue, in their order: an item that is a string
/// adds itself, any other adds nothing, and a session without a queue has nothing queued.
pub proof fn law_queue_holds_its_strings(
    session: JsonView,
    first: Seq<JsonView>,
    second: Seq<JsonView>,
    text: Seq<char>,
)
    ensures
        strings_among(first + second) == strings_among(first) + strings_among(second),
        strings_among(seq![JsonView::Text(text)]) == seq![text],
        first.len() == 1 && !(first[0] is Text) ==> strings_among(first).len() == 0,
        get_of(session, "queued"@) == Some(JsonView::Array(first)) ==> queue_of(session)
            == strings_among(first),
        get_of(session, "queued"@) is None ==> queue_of(session).len() == 0,
    decreases second.len(),
{
    reveal_with_fuel(strings_among, 2);
    if second.len() == 0 {
        assert(first + second =~= first);
        assert(strings_among(first) + strings_among(second) =~= strings_among(first));
    } else {
        law_queue_holds_its_strings(session, first, second.drop_last(), text);
        assert((first + second).drop_last() =~= first + second.drop_last());
        assert((first + second).last() == second.last());
        assert(strings_among(first + second) =~= strings_among(first) + strings_among(second));
    }
    let one = seq![JsonView::Text(text)];
    assert(one.drop_last() =~= Seq::<JsonView>::empty());
    assert(one.last() == JsonView::Text(text));
    assert(strings_among(one) =~= seq![text]);
    if first.len() == 1 {
        assert(first.drop_last() =~= Seq::<JsonView>::empty());
    }
}

/// A prompt for a busy session is written as queued, with its words and its time, and as nothing
/// else.
pub proof fn law_queued_prompt_is_written_as_such(
    state: JsonView,
    id: Seq<char>,
    session: JsonView,
    text: Seq<char>,
    timestamp: Seq<char>,
)
    requires
        text_at(session, "status"@) == Some("busy"@),
        text_at(session, "run_dir"@) is Some,
        text_at(session, "session_id"@) is Some,
    ensures
        ({
            let outcome = reached(state, id, session, text, timestamp);
            &&& outcome.result is Ok
            &&& outcome.appends.len() == 1
            &&& outcome.appends[0].run_dir == text_at(session, "run_dir"@)->Some_0
            &&& outcome.appends[0].external_id == text_at(session, "session_id"@)->Some_0
            &&& outcome.appends[0].entry matches JsonView::Object(fields)
            &&& fields.contains(("type"@, JsonView::Text("queue-operation"@)))
            &&& fields.contains(("operation"@, JsonView::Text("enqueue"@)))
            &&& fields.contains(("content"@, JsonView::Text(text)))
            &&& fields.contains(("timestamp"@, JsonView::Text(timestamp)))
        }),
{
    let fields = reached(state, id, session, text, timestamp).appends[0].entry->Object_0;
    assert(fields[0] == ("type"@, JsonView::Text("queue-operation"@)));
    assert(fields[1] == ("operation"@, JsonView::Text("enqueue"@)));
    assert(fields[2] == ("content"@, JsonView::Text(text)));
    assert(fields[3] == ("timestamp"@, JsonView::Text(timestamp)));
}

/// A runtime that nothing was done with has no session, no operation and nothing to drop, and its
/// first session is number one.
#[verifier::rlimit(40)]
pub proof fn law_empty_runtime_has_nothing(id: Seq<char>)
    ensures
        object_at(empty_state_view(), "agents"@) is Some,
        object_at(empty_state_view(), "panes"@) is Some,
        agent_of(empty_state_view(), id) is None,
        operations_of(empty_state_view()) matches Some(operations) && operations.len() == 0,
        drops_left(empty_state_view()) == 0,
        next_number(empty_state_view()) == 1,
        takes_members(empty_state_view()),
{
    lemma_names_differ();
    reveal_strlit("agents");
    reveal_strlit("panes");
    reveal_strlit("sequence");
    reveal_strlit("drop_prompts");
    reveal_strlit("operations");
    assert("agents"@.len() == 6 && "panes"@.len() == 5 && "sequence"@.len() == 8);
    assert("drop_prompts"@.len() == 12 && "operations"@.len() == 10);
    reveal_with_fuel(place_from, 6);
    let fields = empty_state_view()->Object_0;
    assert(fields[0].0 == "agents"@);
    assert(fields[1].0 == "panes"@);
    assert(fields[2].0 == "sequence"@);
    assert(fields[3].0 == "drop_prompts"@);
    assert(fields[4].0 == "operations"@);
}

/// What an operation comes to is what was told of it: the same entries, and the same state and
/// answer, or the same failure.
pub proof fn law_operation_comes_to_what_is_told<T>(outcome: DummyOutcome<T>, told: OutcomeOf<T>)
    requires
        comes_to(outcome, told),
    ensures
        appends_view(outcome.appends@) == told.appends,
        outcome.result is Ok <==> told.result is Ok,
        told.result is Ok ==> outcome.result->Ok_0.0@ == told.result->Ok_0.0
            && outcome.result->Ok_0.1 == told.result->Ok_0.1,
        told.result is Err ==> outcome.result->Err_0@ == seq![told.result->Err_0],
{
}

/// A query is listed last among the operations, with the session's name, whether or not the session
/// is there.
pub proof fn law_query_is_listed(state: JsonView, id: Seq<char>)
    ensures
        queried(state, id).result matches Ok((after, _)) ==> {
            &&& operations_of(state) matches Some(before)
            &&& operations_of(after) == Some(
                before.push(
                    JsonView::Object(
                        seq![
                            ("operation"@, JsonView::Text("query"@)),
                            ("session_id"@, JsonView::Text(id)),
                        ],
                    ),
                ),
            )
        },
{
    if queried(state, id).result is Ok {
        let drain = drained(state, id).result->Ok_0.0;
        if let Some(session) = agent_of(state, id) {
            lemma_agent_keeps_operations(
                state,
                id,
                with_value(session, "queued"@, JsonView::Array(Seq::empty())),
            );
        }
        assert(operations_of(drain) == operations_of(state));
        law_operation_is_listed_last(
            drain,
            JsonView::Object(operation_on("query"@, id)),
            "agents"@,
        );
    }
}

/// Operations succeed wherever the state has what they need: a start panes, sessions and operations,
/// a query operations and sessions that can be told of, and a wait operations.
pub proof fn law_sound_state_lets_operations_succeed(
    state: JsonView,
    id: Seq<char>,
    run_dir: Seq<char>,
    kind: SessionKind,
    timeout_ms: u64,
)
    requires
        state is Object,
        object_at(state, "panes"@) is Some,
        object_at(state, "agents"@) is Some,
        operations_of(state) is Some,
        agent_of(state, id) matches Some(session) ==> text_at(session, "run_dir"@) is Some
            && text_at(session, "session_id"@) is Some,
    ensures
        started(state, id, run_dir, kind).result is Ok,
        drained(state, id).result is Ok,
        queried(state, id).result is Ok,
        looked_at(state, id).result is Ok,
        awaited(state, id, timeout_ms).result is Ok,
        interrupted(state, id).result is Ok <==> agent_of(state, id) is Some,
{
    lemma_names_differ();
    reveal_strlit("panes");
    reveal_strlit("sequence");
    reveal_strlit("operations");
    reveal_strlit("agents");
    assert("panes"@.len() == 5 && "sequence"@.len() == 8 && "operations"@.len() == 10);
    let number = next_number(state);
    let count = JsonView::Integer(number);
    let numbered = with_value(state, "sequence"@, count);
    lemma_with_value(state, "sequence"@, count, "panes"@);
    lemma_with_value(state, "sequence"@, count, "agents"@);
    lemma_with_value(state, "sequence"@, count, "operations"@);
    let panes = object_at(numbered, "panes"@)->Some_0;
    let pane = JsonView::Object(seq![("cwd"@, JsonView::Text(run_dir))]);
    let pane_id = "pane-"@ + decimal(number);
    let wider = JsonView::Object(with_member(panes, pane_id, pane));
    let paned = with_value(numbered, "panes"@, wider);
    lemma_with_value(numbered, "panes"@, wider, "agents"@);
    lemma_with_value(numbered, "panes"@, wider, "operations"@);
    let external_id = "session-"@ + id + "-"@ + decimal(number);
    lemma_agent_keeps_operations(paned, id, new_session(external_id, run_dir));
    if let Some(session) = agent_of(state, id) {
        let cleared = with_value(session, "queued"@, JsonView::Array(Seq::empty()));
        lemma_agent_keeps_operations(state, id, cleared);
        lemma_set_agent_is_read_back(state, id, cleared, id);
        if session is Object {
            lemma_with_value(session, "queued"@, JsonView::Array(Seq::empty()), "session_id"@);
        }
        let idle = with_value(
            with_value(session, "status"@, JsonView::Text("idle"@)),
            "queued"@,
            JsonView::Array(Seq::empty()),
        );
        lemma_agent_keeps_operations(state, id, idle);
    }
}

/// A prompt for a busy session is queued behind what it has queued already, and written as queued,
/// unless prompts are dropped or transcripts held.
pub proof fn law_prompt_for_a_busy_session_is_queued(
    state: JsonView,
    id: Seq<char>,
    session: JsonView,
    text: Seq<char>,
    timestamp: Seq<char>,
)
    requires
        operations_of(state) is Some,
        drops_left(state) == 0,
        get_of(state, "hold_transcript"@) != Some(JsonView::Bool(true)),
        agent_of(state, id) == Some(session),
        text_at(session, "status"@) == Some("busy"@),
        text_at(session, "run_dir"@) is Some,
        text_at(session, "session_id"@) is Some,
    ensures
        ({
            let outcome = prompted(state, id, text, timestamp);
            &&& outcome.appends.len() == 1
            &&& outcome.appends[0].entry matches JsonView::Object(fields)
            &&& fields.contains(("content"@, JsonView::Text(text)))
            &&& outcome.result matches Ok((after, _))
            &&& agent_of(after, id) matches Some(later)
            &&& queue_of(later) == queue_of(session).push(text)
        }),
{
    lemma_names_differ();
    let operation = JsonView::Object(
        operation_on("prompt"@, id).push(("text"@, JsonView::Text(text))),
    );
    law_operation_is_listed_last(state, operation, "drop_prompts"@);
    law_operation_is_listed_last(state, operation, "agents"@);
    law_operation_is_listed_last(state, operation, "hold_transcript"@);
    let listed = with_operation(state, operation)->Some_0;
    assert(agent_of(listed, id) == Some(session));
    law_queued_prompt_is_written_as_such(listed, id, session, text, timestamp);
    law_busy_session_queues_in_order(listed, id, session, text, timestamp);
}

} // verus!
