//! What sessions tell each other through the run: observations, findings and their resolutions.

use vstd::prelude::*;
use vstd::string::*;

use crate::command::Verdict;
use crate::error::{refuse, refused, Error};
use crate::json::{field, fields_view, items_view, Json, JsonField, JsonView};
use crate::moments::{Moment, MomentView};
use crate::number::{decimal, decimal_text};
use crate::text::opt_view;

verus! {

/// Something that was seen, about a task or about the run.
#[derive(Debug)]
pub struct Observation {
    pub id: i64,
    pub task_id: Option<i64>,
    pub text: String,
    pub created_at: Moment,
}

pub struct ObservationView {
    pub id: i64,
    pub task_id: Option<i64>,
    pub text: Seq<char>,
    pub created_at: MomentView,
}

impl View for Observation {
    type V = ObservationView;

    open spec fn view(&self) -> ObservationView {
        ObservationView {
            id: self.id,
            task_id: self.task_id,
            text: self.text@,
            created_at: self.created_at@,
        }
    }
}

/// Something that is wrong with what a task left behind, and what came of it.
#[derive(Debug)]
pub struct Finding {
    pub id: i64,
    pub task_id: i64,
    pub description: String,
    pub created_at: Moment,
    pub verdict: Option<Verdict>,
    pub verdict_reason: Option<String>,
    pub fix_task_id: Option<i64>,
    pub resolved_at: Option<Moment>,
}

pub struct FindingView {
    pub id: i64,
    pub task_id: i64,
    pub description: Seq<char>,
    pub created_at: MomentView,
    pub verdict: Option<Verdict>,
    pub verdict_reason: Option<Seq<char>>,
    pub fix_task_id: Option<i64>,
    pub resolved_at: Option<MomentView>,
}

impl View for Finding {
    type V = FindingView;

    open spec fn view(&self) -> FindingView {
        FindingView {
            id: self.id,
            task_id: self.task_id,
            description: self.description@,
            created_at: self.created_at@,
            verdict: self.verdict,
            verdict_reason: opt_view(self.verdict_reason),
            fix_task_id: self.fix_task_id,
            resolved_at: match self.resolved_at {
                Some(moment) => Some(moment@),
                None => None,
            },
        }
    }
}

pub open spec fn observations_view(list: Seq<Observation>) -> Seq<ObservationView> {
    list.map_values(|observation: Observation| observation@)
}

pub open spec fn findings_view(list: Seq<Finding>) -> Seq<FindingView> {
    list.map_values(|finding: Finding| finding@)
}

/// A number, or nothing.
pub open spec fn number_or_null(number: Option<i64>) -> JsonView {
    match number {
        Some(number) => JsonView::Integer(number as int),
        None => JsonView::Null,
    }
}

/// A string, or nothing.
pub open spec fn text_or_null(text: Option<Seq<char>>) -> JsonView {
    match text {
        Some(text) => JsonView::Text(text),
        None => JsonView::Null,
    }
}

fn opt_number(number: Option<i64>) -> (r: Json)
    ensures
        r@ == number_or_null(number),
{
    match number {
        Some(number) => Json::Integer(number as i128),
        None => Json::Null,
    }
}

fn opt_text(text: &Option<String>) -> (r: Json)
    ensures
        r@ == text_or_null(opt_view(*text)),
{
    match text {
        Some(text) => Json::text(text.as_str()),
        None => Json::Null,
    }
}

/// What a poll shows of an observation.
pub open spec fn shown_observation(observation: ObservationView) -> JsonView {
    JsonView::Object(
        seq![
            ("id"@, JsonView::Integer(observation.id as int)),
            ("task_id"@, number_or_null(observation.task_id)),
            ("text"@, JsonView::Text(observation.text)),
            ("created_at"@, JsonView::Text(observation.created_at.text)),
        ],
    )
}

/// What a poll shows of a finding.
pub open spec fn shown_finding(finding: FindingView) -> JsonView {
    JsonView::Object(
        seq![
            ("id"@, JsonView::Integer(finding.id as int)),
            ("task_id"@, JsonView::Integer(finding.task_id as int)),
            ("description"@, JsonView::Text(finding.description)),
            ("created_at"@, JsonView::Text(finding.created_at.text)),
        ],
    )
}

fn show_observation(observation: &Observation) -> (r: Json)
    ensures
        r@ == shown_observation(observation@),
{
    let mut fields: Vec<JsonField> = Vec::new();
    fields.push(field("id", Json::Integer(observation.id as i128)));
    fields.push(field("task_id", opt_number(observation.task_id)));
    fields.push(field("text", Json::text(observation.text.as_str())));
    fields.push(field("created_at", Json::text(observation.created_at.text())));
    assert(fields_view(fields@) =~= shown_observation(observation@)->Object_0);
    Json::object(fields)
}

fn show_finding(finding: &Finding) -> (r: Json)
    ensures
        r@ == shown_finding(finding@),
{
    let mut fields: Vec<JsonField> = Vec::new();
    fields.push(field("id", Json::Integer(finding.id as i128)));
    fields.push(field("task_id", Json::Integer(finding.task_id as i128)));
    fields.push(field("description", Json::text(finding.description.as_str())));
    fields.push(field("created_at", Json::text(finding.created_at.text())));
    assert(fields_view(fields@) =~= shown_finding(finding@)->Object_0);
    Json::object(fields)
}

/// Whether a poll can ask for what came after this observation.
pub fn check_poll(after_observation: i64) -> (r: Result<(), Error>)
    ensures
        if after_observation < 0 {
            refused(r, "supervisor: --after-observation must be nonnegative"@)
        } else {
            r is Ok
        },
{
    if after_observation < 0 {
        return refuse("supervisor: --after-observation must be nonnegative".to_owned());
    }
    Ok(())
}

/// The observation from which the next poll goes on.
pub open spec fn cursor(after_observation: i64, observations: Seq<ObservationView>) -> i64 {
    if observations.len() == 0 {
        after_observation
    } else {
        observations.last().id
    }
}

/// What a poll shows.
pub open spec fn poll_view(
    after_observation: i64,
    observations: Seq<ObservationView>,
    findings: Seq<FindingView>,
) -> JsonView {
    JsonView::Object(
        seq![
            ("observation_cursor"@, JsonView::Integer(cursor(after_observation, observations) as int)),
            (
                "observations"@,
                JsonView::Array(
                    observations.map_values(
                        |observation: ObservationView| shown_observation(observation),
                    ),
                ),
            ),
            (
                "findings"@,
                JsonView::Array(
                    findings.map_values(|finding: FindingView| shown_finding(finding)),
                ),
            ),
        ],
    )
}

/// What a poll shows.
pub fn poll_report(
    after_observation: i64,
    observations: &Vec<Observation>,
    findings: &Vec<Finding>,
) -> (r: Json)
    ensures
        r@ == poll_view(
            after_observation,
            observations_view(observations@),
            findings_view(findings@),
        ),
{
    let ghost told = poll_view(
        after_observation,
        observations_view(observations@),
        findings_view(findings@),
    );
    let last: i64 = if observations.len() == 0 {
        after_observation
    } else {
        observations[observations.len() - 1].id
    };
    let mut shown: Vec<Json> = Vec::new();
    let mut i: usize = 0;
    while i < observations.len()
        invariant
            i <= observations@.len(),
            shown@.len() == i,
            forall|j: int|
                0 <= j < i ==> (#[trigger] shown@[j])@ == shown_observation(observations@[j]@),
        decreases observations.len() - i,
    {
        shown.push(show_observation(&observations[i]));
        i += 1;
    }
    let mut open: Vec<Json> = Vec::new();
    let mut k: usize = 0;
    while k < findings.len()
        invariant
            k <= findings@.len(),
            open@.len() == k,
            forall|j: int| 0 <= j < k ==> (#[trigger] open@[j])@ == shown_finding(findings@[j]@),
        decreases findings.len() - k,
    {
        open.push(show_finding(&findings[k]));
        k += 1;
    }
    assert(items_view(shown@) =~= observations_view(observations@).map_values(
        |observation: ObservationView| shown_observation(observation),
    ));
    assert(items_view(open@) =~= findings_view(findings@).map_values(
        |finding: FindingView| shown_finding(finding),
    ));
    let mut fields: Vec<JsonField> = Vec::new();
    fields.push(field("observation_cursor", Json::Integer(last as i128)));
    fields.push(field("observations", Json::array(shown)));
    fields.push(field("findings", Json::array(open)));
    assert(fields_view(fields@) =~= told->Object_0);
    Json::object(fields)
}

/// A poll that goes on from another one's cursor misses nothing and shows nothing twice, where
/// observations are numbered upwards: what comes after the cursor is what was not shown.
pub proof fn law_polls_continue(
    after_observation: i64,
    observations: Seq<ObservationView>,
    next: ObservationView,
)
    requires
        forall|i: int, j: int|
            0 <= i < j < observations.len() ==> (#[trigger] observations[i]).id < (
            #[trigger] observations[j]).id,
        forall|i: int|
            0 <= i < observations.len() ==> (#[trigger] observations[i]).id > after_observation,
        observations.contains(next) || forall|i: int|
            0 <= i < observations.len() ==> (#[trigger] observations[i]).id < next.id,
        next.id > after_observation,
    ensures
        next.id > cursor(after_observation, observations) <==> !observations.contains(next),
{
    if observations.contains(next) {
        let i = choose|i: int| 0 <= i < observations.len() && observations[i] == next;
        let last = observations.len() - 1;
        if i < last {
            assert(observations[i].id < observations[last].id);
        }
    }
}

/// What is shown of a resolved finding.
pub open spec fn shown_resolution(finding: FindingView) -> JsonView {
    JsonView::Object(
        seq![
            ("finding_id"@, JsonView::Integer(finding.id as int)),
            ("task_id"@, JsonView::Integer(finding.task_id as int)),
            ("description"@, JsonView::Text(finding.description)),
            (
                "verdict"@,
                match finding.verdict {
                    Some(verdict) => JsonView::Text(verdict.name()),
                    None => JsonView::Null,
                },
            ),
            ("reason"@, text_or_null(finding.verdict_reason)),
            ("fix_task_id"@, number_or_null(finding.fix_task_id)),
            (
                "resolved_at"@,
                match finding.resolved_at {
                    Some(moment) => JsonView::Text(moment.text),
                    None => JsonView::Null,
                },
            ),
        ],
    )
}

fn show_resolution(finding: &Finding) -> (r: Json)
    ensures
        r@ == shown_resolution(finding@),
{
    let verdict = match finding.verdict {
        Some(verdict) => Json::text(verdict.as_str()),
        None => Json::Null,
    };
    let resolved_at = match &finding.resolved_at {
        Some(moment) => Json::text(moment.text()),
        None => Json::Null,
    };
    let mut fields: Vec<JsonField> = Vec::new();
    fields.push(field("finding_id", Json::Integer(finding.id as i128)));
    fields.push(field("task_id", Json::Integer(finding.task_id as i128)));
    fields.push(field("description", Json::text(finding.description.as_str())));
    fields.push(field("verdict", verdict));
    fields.push(field("reason", opt_text(&finding.verdict_reason)));
    fields.push(field("fix_task_id", opt_number(finding.fix_task_id)));
    fields.push(field("resolved_at", resolved_at));
    assert(fields_view(fields@) =~= shown_resolution(finding@)->Object_0);
    Json::object(fields)
}

/// What is shown of the resolved findings.
pub fn resolutions_report(findings: &Vec<Finding>) -> (r: Json)
    ensures
        r@ == JsonView::Object(
            seq![
                (
                    "resolutions"@,
                    JsonView::Array(
                        findings_view(findings@).map_values(
                            |finding: FindingView| shown_resolution(finding),
                        ),
                    ),
                ),
            ],
        ),
{
    let mut shown: Vec<Json> = Vec::new();
    let mut i: usize = 0;
    while i < findings.len()
        invariant
            i <= findings@.len(),
            shown@.len() == i,
            forall|j: int| 0 <= j < i ==> (#[trigger] shown@[j])@ == shown_resolution(findings@[j]@),
        decreases findings.len() - i,
    {
        shown.push(show_resolution(&findings[i]));
        i += 1;
    }
    assert(items_view(shown@) =~= findings_view(findings@).map_values(
        |finding: FindingView| shown_resolution(finding),
    ));
    let mut fields: Vec<JsonField> = Vec::new();
    let list = Json::array(shown);
    fields.push(field("resolutions", list));
    assert(fields_view(fields@) =~= seq![("resolutions"@, list@)]);
    Json::object(fields)
}

/// The finding with this number, where it was found.
pub fn require_finding(finding: Option<&Finding>, finding_id: i64) -> (r: Result<&Finding, Error>)
    ensures
        match finding {
            Some(found) => r == Ok::<&Finding, Error>(found),
            None => refused(r, "supervisor: no finding "@ + decimal(finding_id as int)),
        },
{
    match finding {
        Some(found) => Ok(found),
        None => refuse(
            "supervisor: no finding ".to_owned().concat(decimal_text(finding_id).as_str()),
        ),
    }
}

/// What is said where a finding could not be resolved, for this reason.
pub fn unresolved(error: &Error) -> (r: Error)
    ensures
        r@ == seq!["supervisor: "@ + error@[0]],
{
    Error::new("supervisor: ".to_owned().concat(error.message()))
}

/// The line that tells that a finding is resolved.
pub fn resolved_line(finding_id: i64) -> (r: String)
    ensures
        r@ == "finding "@ + decimal(finding_id as int) + " resolved"@,
{
    "finding ".to_owned().concat(decimal_text(finding_id).as_str()).concat(" resolved")
}

/// What is shown of a session that was launched.
pub fn launch_report(name: &str, pane_id: &str, tab_id: &str, session_id: &str) -> (r: Json)
    ensures
        r@ == JsonView::Object(
            seq![
                ("name"@, JsonView::Text(name@)),
                ("pane_id"@, JsonView::Text(pane_id@)),
                ("tab_id"@, JsonView::Text(tab_id@)),
                ("session_id"@, JsonView::Text(session_id@)),
            ],
        ),
{
    let mut fields: Vec<JsonField> = Vec::new();
    fields.push(field("name", Json::text(name)));
    fields.push(field("pane_id", Json::text(pane_id)));
    fields.push(field("tab_id", Json::text(tab_id)));
    fields.push(field("session_id", Json::text(session_id)));
    assert(fields_view(fields@) =~= seq![
        ("name"@, JsonView::Text(name@)),
        ("pane_id"@, JsonView::Text(pane_id@)),
        ("tab_id"@, JsonView::Text(tab_id@)),
        ("session_id"@, JsonView::Text(session_id@)),
    ]);
    Json::object(fields)
}

/// A poll shows of an observation its number, its task, its text and when it was made.
pub proof fn law_observation_is_shown_whole(observation: ObservationView)
    ensures
        shown_observation(observation) matches JsonView::Object(fields) && {
            &&& fields.len() == 4
            &&& fields.contains(("id"@, JsonView::Integer(observation.id as int)))
            &&& fields.contains(("text"@, JsonView::Text(observation.text)))
            &&& fields.contains(("created_at"@, JsonView::Text(observation.created_at.text)))
            &&& observation.task_id is Some ==> fields.contains(
                ("task_id"@, JsonView::Integer(observation.task_id->Some_0 as int)),
            )
            &&& observation.task_id is None ==> fields.contains(("task_id"@, JsonView::Null))
        },
{
    let fields = shown_observation(observation)->Object_0;
    assert(fields[0] == ("id"@, JsonView::Integer(observation.id as int)));
    assert(fields[1].0 == "task_id"@);
    assert(fields[2] == ("text"@, JsonView::Text(observation.text)));
    assert(fields[3] == ("created_at"@, JsonView::Text(observation.created_at.text)));
}

/// A poll shows of a finding its number, its task, what it is and when it was made.
pub proof fn law_finding_is_shown_whole(finding: FindingView)
    ensures
        shown_finding(finding) matches JsonView::Object(fields) && {
            &&& fields.len() == 4
            &&& fields.contains(("id"@, JsonView::Integer(finding.id as int)))
            &&& fields.contains(("task_id"@, JsonView::Integer(finding.task_id as int)))
            &&& fields.contains(("description"@, JsonView::Text(finding.description)))
            &&& fields.contains(("created_at"@, JsonView::Text(finding.created_at.text)))
        },
{
    let fields = shown_finding(finding)->Object_0;
    assert(fields[0] == ("id"@, JsonView::Integer(finding.id as int)));
    assert(fields[1] == ("task_id"@, JsonView::Integer(finding.task_id as int)));
    assert(fields[2] == ("description"@, JsonView::Text(finding.description)));
    assert(fields[3] == ("created_at"@, JsonView::Text(finding.created_at.text)));
}

/// What is shown of a resolved finding tells what it was and of which task, how and why and when it
/// was resolved, and which task fixes it; what is not known of these is shown as nothing.
pub proof fn law_resolution_is_shown_whole(finding: FindingView)
    ensures
        shown_resolution(finding) matches JsonView::Object(fields) && {
            &&& fields.len() == 7
            &&& fields.contains(("finding_id"@, JsonView::Integer(finding.id as int)))
            &&& fields.contains(("task_id"@, JsonView::Integer(finding.task_id as int)))
            &&& fields.contains(("description"@, JsonView::Text(finding.description)))
            &&& finding.verdict == Some(Verdict::Task) ==> fields.contains(
                ("verdict"@, JsonView::Text("task"@)),
            )
            &&& finding.verdict == Some(Verdict::Dropped) ==> fields.contains(
                ("verdict"@, JsonView::Text("dropped"@)),
            )
            &&& finding.verdict is None ==> fields.contains(("verdict"@, JsonView::Null))
            &&& finding.verdict_reason is Some ==> fields.contains(
                ("reason"@, JsonView::Text(finding.verdict_reason->Some_0)),
            )
            &&& finding.verdict_reason is None ==> fields.contains(("reason"@, JsonView::Null))
            &&& finding.fix_task_id is Some ==> fields.contains(
                ("fix_task_id"@, JsonView::Integer(finding.fix_task_id->Some_0 as int)),
            )
            &&& finding.fix_task_id is None ==> fields.contains(("fix_task_id"@, JsonView::Null))
            &&& finding.resolved_at is Some ==> fields.contains(
                ("resolved_at"@, JsonView::Text(finding.resolved_at->Some_0.text)),
            )
            &&& finding.resolved_at is None ==> fields.contains(("resolved_at"@, JsonView::Null))
        },
{
    let fields = shown_resolution(finding)->Object_0;
    assert(fields[0] == ("finding_id"@, JsonView::Integer(finding.id as int)));
    assert(fields[1] == ("task_id"@, JsonView::Integer(finding.task_id as int)));
    assert(fields[2] == ("description"@, JsonView::Text(finding.description)));
    assert(fields[3].0 == "verdict"@);
    assert(fields[4].0 == "reason"@);
    assert(fields[5].0 == "fix_task_id"@);
    assert(fields[6].0 == "resolved_at"@);
}

/// A poll shows every observation and every finding that it found, in their order, and the number
/// of the last observation; where there is none, the number that it was asked with.
pub proof fn law_poll_shows_all_it_found(
    after_observation: i64,
    observations: Seq<ObservationView>,
    findings: Seq<FindingView>,
)
    ensures
        poll_view(after_observation, observations, findings) matches JsonView::Object(fields) && {
            &&& fields.len() == 3
            &&& observations.len() == 0 ==> fields.contains(
                ("observation_cursor"@, JsonView::Integer(after_observation as int)),
            )
            &&& observations.len() > 0 ==> fields.contains(
                ("observation_cursor"@, JsonView::Integer(observations.last().id as int)),
            )
            &&& fields.contains(
                (
                    "observations"@,
                    JsonView::Array(
                        Seq::new(
                            observations.len(),
                            |i: int| shown_observation(observations[i]),
                        ),
                    ),
                ),
            )
            &&& fields.contains(
                (
                    "findings"@,
                    JsonView::Array(Seq::new(findings.len(), |i: int| shown_finding(findings[i]))),
                ),
            )
        },
{
    let fields = poll_view(after_observation, observations, findings)->Object_0;
    assert(fields[0].0 == "observation_cursor"@);
    assert(fields[1].1->Array_0 =~= Seq::new(
        observations.len(),
        |i: int| shown_observation(observations[i]),
    ));
    assert(fields[2].1->Array_0 =~= Seq::new(findings.len(), |i: int| shown_finding(findings[i])));
    assert(fields[1].0 == "observations"@);
    assert(fields[2].0 == "findings"@);
}

/// An observation and a finding stand for what their fields hold, and lists of them for each.
pub proof fn law_communications_stand_for_their_fields(
    observation: Observation,
    finding: Finding,
    observations: Seq<Observation>,
    findings: Seq<Finding>,
)
    ensures
        observation@.id == observation.id,
        observation@.task_id == observation.task_id,
        observation@.text == observation.text@,
        observation@.created_at == observation.created_at@,
        finding@.id == finding.id,
        finding@.task_id == finding.task_id,
        finding@.description == finding.description@,
        finding@.created_at == finding.created_at@,
        finding@.verdict == finding.verdict,
        finding@.verdict_reason == opt_view(finding.verdict_reason),
        finding@.fix_task_id == finding.fix_task_id,
        finding.resolved_at is Some ==> finding@.resolved_at == Some(finding.resolved_at->Some_0@),
        finding.resolved_at is None ==> finding@.resolved_at is None,
        observations_view(observations).len() == observations.len(),
        findings_view(findings).len() == findings.len(),
        forall|i: int|
            0 <= i < observations.len() ==> #[trigger] observations_view(observations)[i]
                == observations[i]@,
        forall|i: int|
            0 <= i < findings.len() ==> #[trigger] findings_view(findings)[i] == findings[i]@,
{
}

} // verus!
