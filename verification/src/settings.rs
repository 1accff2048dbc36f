//! Human-tuned settings, read from `chainsaw.json`.
//!
//! These are inputs to a run, not state of it, so they live in files the human edits rather than
//! in the supervisor database, which is disposable. A global file supplies defaults; the run
//! directory overlays named keys and roles.

use vstd::prelude::*;
use vstd::string::*;

use crate::agent::{described_agent, AgentCli, AgentSpec, AgentSpecView};
use crate::environment::{path_join, path_of, Environment};
use crate::error::Error;
use crate::json::{
    fields_view, i64_value, members_view, object_of, parse_members, parsed_members, Json, JsonView,
    Member, MemberView,
};
use crate::session::{law_role_name_is_read_back, Role};
use crate::text::{concat2, concat3, opt_str, opt_view, quote, quoted, same};

verus! {

/// How long a prompt may take to land, where no settings say otherwise.
pub const DEFAULT_PROMPT_LANDING_SECONDS: i64 = 15;

/// The settings of a run.
#[derive(Debug, PartialEq, Eq)]
pub struct Settings {
    prompt_landing_seconds: i64,
    lead: AgentSpec,
    implementer: AgentSpec,
    commentator: AgentSpec,
}

/// What `Settings` are.
pub struct SettingsView {
    pub prompt_landing_seconds: i64,
    pub lead: AgentSpecView,
    pub implementer: AgentSpecView,
    pub commentator: AgentSpecView,
}

impl View for Settings {
    type V = SettingsView;

    closed spec fn view(&self) -> SettingsView {
        SettingsView {
            prompt_landing_seconds: self.prompt_landing_seconds,
            lead: self.lead@,
            implementer: self.implementer@,
            commentator: self.commentator@,
        }
    }
}

impl SettingsView {
    /// The settings of a run that no file says anything about.
    pub open spec fn defaults() -> SettingsView {
        SettingsView {
            prompt_landing_seconds: DEFAULT_PROMPT_LANDING_SECONDS,
            lead: AgentSpecView::claude_opus(),
            implementer: AgentSpecView::claude_opus(),
            commentator: AgentSpecView::claude_opus(),
        }
    }

    /// What a role runs.
    pub open spec fn agent(self, role: Role) -> AgentSpecView {
        match role {
            Role::Lead => self.lead,
            Role::Implementer => self.implementer,
            Role::Commentator => self.commentator,
        }
    }

    /// These settings with another agent for one role.
    pub open spec fn with_agent(self, role: Role, spec: AgentSpecView) -> SettingsView {
        match role {
            Role::Lead => SettingsView { lead: spec, ..self },
            Role::Implementer => SettingsView { implementer: spec, ..self },
            Role::Commentator => SettingsView { commentator: spec, ..self },
        }
    }
}

/// `settings` with the agent that one member of `agents` describes, or what is wrong with it.
pub open spec fn with_role(
    settings: SettingsView,
    key: Seq<char>,
    value: JsonView,
    default: Seq<char>,
) -> Result<
    SettingsView,
    Seq<Seq<char>>,
> {
    match described_agent(value, default) {
        Err(message) => Err(seq!["setting \"agents."@ + key + "\""@, message]),
        Ok(spec) => match Role::named(key) {
            Some(role) => Ok(settings.with_agent(role, spec)),
            None => Err(seq!["unknown agent role "@ + quoted(key)]),
        },
    }
}

/// `settings` with the agents that the members of `agents` describe; or what is wrong with the
/// first bad one.
pub open spec fn with_roles(
    settings: SettingsView,
    fields: Seq<(Seq<char>, JsonView)>,
    default: Seq<char>,
) -> Result<
    SettingsView,
    Seq<Seq<char>>,
>
    decreases fields.len(),
{
    if fields.len() == 0 {
        Ok(settings)
    } else {
        match with_roles(settings, fields.drop_last(), default) {
            Err(chain) => Err(chain),
            Ok(before) => with_role(before, fields.last().0, fields.last().1, default),
        }
    }
}

/// `settings` with what one member of a settings file says, or what is wrong with it.
pub open spec fn with_setting(
    settings: SettingsView,
    member: MemberView,
    default: Seq<char>,
) -> Result<
    SettingsView,
    Seq<Seq<char>>,
> {
    if member.key == "prompt-landing-seconds"@ {
        match i64_value(member.value) {
            Some(seconds) => Ok(SettingsView { prompt_landing_seconds: seconds, ..settings }),
            None => Err(
                seq![
                    "setting "@ + quoted(member.key) + " must be an integer, got "@ + member.compact,
                ],
            ),
        }
    } else if member.key == "agents"@ {
        match object_of(member.value) {
            Some(fields) => with_roles(settings, fields, default),
            None => Err(seq!["setting \"agents\" must be a JSON object"@]),
        }
    } else {
        Err(seq!["unknown setting "@ + quoted(member.key)])
    }
}

/// `settings` with what the members of a settings file say; or what is wrong with the first bad
/// one.
pub open spec fn with_settings(
    settings: SettingsView,
    members: Seq<MemberView>,
    default: Seq<char>,
) -> Result<
    SettingsView,
    Seq<Seq<char>>,
>
    decreases members.len(),
{
    if members.len() == 0 {
        Ok(settings)
    } else {
        match with_settings(settings, members.drop_last(), default) {
            Err(chain) => Err(chain),
            Ok(before) => with_setting(before, members.last(), default),
        }
    }
}

/// `settings` with what the text of a settings file says, or what is wrong with it.
pub open spec fn with_text(settings: SettingsView, text: Seq<char>, default: Seq<char>) -> Result<
    SettingsView,
    Seq<Seq<char>>,
> {
    match parsed_members(text) {
        Err(message) => Err(seq![message]),
        Ok(None) => Err(seq!["expected a JSON object at the top level"@]),
        Ok(Some(members)) => with_settings(settings, members, default),
    }
}

proof fn lemma_roles_fail_early(
    settings: SettingsView,
    fields: Seq<(Seq<char>, JsonView)>,
    size: int, default: Seq<char>,
)
    requires
        0 <= size <= fields.len(),
        with_roles(settings, fields.take(size), default) is Err,
    ensures
        with_roles(settings, fields, default) == with_roles(settings, fields.take(size), default),
    decreases fields.len(),
{
    if size < fields.len() {
        assert(fields.drop_last().take(size) == fields.take(size));
        lemma_roles_fail_early(settings, fields.drop_last(), size, default);
    } else {
        assert(fields.take(size) == fields);
    }
}

proof fn lemma_settings_fail_early(
    settings: SettingsView,
    members: Seq<MemberView>,
    size: int,
    default: Seq<char>,
)
    requires
        0 <= size <= members.len(),
        with_settings(settings, members.take(size), default) is Err,
    ensures
        with_settings(settings, members, default) == with_settings(settings, members.take(size), default),
    decreases members.len(),
{
    if size < members.len() {
        assert(members.drop_last().take(size) == members.take(size));
        lemma_settings_fail_early(settings, members.drop_last(), size, default);
    } else {
        assert(members.take(size) == members);
    }
}

/// What came of changing settings is what `expected` says.
pub open spec fn is_outcome(
    r: Result<Settings, Error>,
    expected: Result<SettingsView, Seq<Seq<char>>>,
) -> bool {
    match expected {
        Ok(settings) => r matches Ok(found) && found@ == settings,
        Err(chain) => r matches Err(error) && error@ == chain,
    }
}

/// What a settings file holds.
#[derive(Debug)]
pub enum FileContent {
    /// There is no such file.
    Absent,
    Text(String),
    /// It is there and could not be read, for this reason.
    Unreadable(String),
}

/// A settings file.
#[derive(Debug)]
pub struct SettingsFile {
    pub path: String,
    pub content: FileContent,
}

/// `settings` with what a settings file says, or what is wrong with it.
pub open spec fn with_file(
    settings: SettingsView,
    file: SettingsFile,
    default: Seq<char>,
) -> Result<
    SettingsView,
    Seq<Seq<char>>,
> {
    match file.content {
        FileContent::Absent => Ok(settings),
        FileContent::Unreadable(reason) => Err(seq!["cannot read "@ + file.path@, reason@]),
        FileContent::Text(text) => match with_text(settings, text@, default) {
            Ok(settings) => Ok(settings),
            Err(chain) => Err(seq!["invalid settings in "@ + file.path@ + ": "@ + chain[0]]),
        },
    }
}

/// The settings that a global file and a run's own file make together.
pub open spec fn loaded(
    run: SettingsFile,
    global: Option<&SettingsFile>,
    default: Seq<char>,
) -> Result<
    SettingsView,
    Seq<Seq<char>>,
> {
    let base = match global {
        Some(file) => with_file(SettingsView::defaults(), *file, default),
        None => Ok(SettingsView::defaults()),
    };
    match base {
        Ok(settings) => with_file(settings, run, default),
        Err(chain) => Err(chain),
    }
}

impl Default for Settings {
    fn default() -> (r: Settings)
        ensures
            r@ == SettingsView::defaults(),
    {
        Settings {
            prompt_landing_seconds: DEFAULT_PROMPT_LANDING_SECONDS,
            lead: AgentSpec::claude_opus(),
            implementer: AgentSpec::claude_opus(),
            commentator: AgentSpec::claude_opus(),
        }
    }
}

impl Settings {
    /// Global file, then `chainsaw.json` in the run directory. Either file may be absent. A present
    /// file must be a JSON object whose known keys hold the documented types.
    pub fn load(
        run: &SettingsFile,
        global: Option<&SettingsFile>,
        default: &str,
    ) -> (r: Result<Settings, Error>)
        ensures
            is_outcome(r, loaded(*run, global, default@)),
    {
        load_from(run, global, default)
    }

    /// The settings that the text of one file makes.
    pub fn parse(text: &str, default: &str) -> (r: Result<Settings, Error>)
        ensures
            is_outcome(r, with_text(SettingsView::defaults(), text@, default@)),
    {
        Settings::default().apply(text, default)
    }

    pub fn prompt_landing_seconds(&self) -> (r: i64)
        ensures
            r == self@.prompt_landing_seconds,
    {
        self.prompt_landing_seconds
    }

    /// What a role runs.
    pub fn agent(&self, role: Role) -> (r: &AgentSpec)
        ensures
            r@ == self@.agent(role),
    {
        match role {
            Role::Lead => &self.lead,
            Role::Implementer => &self.implementer,
            Role::Commentator => &self.commentator,
        }
    }

    /// These settings with what the text of a settings file says.
    pub fn apply(self, text: &str, default: &str) -> (r: Result<Settings, Error>)
        ensures
            is_outcome(r, with_text(self@, text@, default@)),
    {
        match parse_members(text) {
            Err(error) => Err(error),
            Ok(None) => Err(Error::from_text("expected a JSON object at the top level")),
            Ok(Some(members)) => self.apply_members(&members, default),
        }
    }

    /// These settings with what the members of a settings file say.
    pub fn apply_members(self, members: &Vec<Member>, default: &str) -> (r: Result<Settings, Error>)
        ensures
            is_outcome(r, with_settings(self@, members_view(members@), default@)),
    {
        let ghost all = members_view(members@);
        let ghost before = self@;
        let mut settings = self;
        let mut i: usize = 0;
        while i < members.len()
            invariant
                i <= members@.len(),
                all == members_view(members@),
                before == self@,
                with_settings(before, all.take(i as int), default@) == Ok::<SettingsView, Seq<Seq<char>>>(
                    settings@,
                ),
            decreases members.len() - i,
        {
            let member = &members[i];
            proof {
                assert(all.take(i + 1).drop_last() == all.take(i as int));
                assert(all.take(i + 1).last() == member@);
                if with_setting(settings@, member@, default@) is Err {
                    lemma_settings_fail_early(before, all, i + 1, default@);
                }
            }
            if same(member.key.as_str(), "prompt-landing-seconds") {
                match member.value.as_i64() {
                    Some(seconds) => {
                        settings.prompt_landing_seconds = seconds;
                    },
                    None => {
                        return Err(
                            not_an_integer(
                                quote(member.key.as_str()).as_str(),
                                member.compact.as_str(),
                            ),
                        );
                    },
                }
            } else if same(member.key.as_str(), "agents") {
                match settings.apply_agents(&member.value, default) {
                    Ok(changed) => {
                        settings = changed;
                    },
                    Err(error) => {
                        return Err(error);
                    },
                }
            } else {
                return Err(
                    Error::new(
                        concat2("unknown setting ", quote(member.key.as_str()).as_str()),
                    ),
                );
            }
            i += 1;
        }
        assert(all.take(members@.len() as int) == all);
        Ok(settings)
    }

    /// These settings with the agents that the value of `agents` describes.
    pub fn apply_agents(self, value: &Json, default: &str) -> (r: Result<Settings, Error>)
        ensures
            is_outcome(
                r,
                match object_of(value@) {
                    Some(fields) => with_roles(self@, fields, default@),
                    None => Err(seq!["setting \"agents\" must be a JSON object"@]),
                },
            ),
    {
        let fields = match value.as_object() {
            Some(fields) => fields,
            None => {
                return Err(Error::from_text("setting \"agents\" must be a JSON object"));
            },
        };
        let ghost all = fields_view(fields@);
        let ghost before = self@;
        let mut settings = self;
        let mut i: usize = 0;
        while i < fields.len()
            invariant
                i <= fields@.len(),
                all == fields_view(fields@),
                object_of(value@) == Some(all),
                before == self@,
                with_roles(before, all.take(i as int), default@) == Ok::<SettingsView, Seq<Seq<char>>>(
                    settings@,
                ),
            decreases fields.len() - i,
        {
            let field = &fields[i];
            proof {
                assert(all.take(i + 1).drop_last() == all.take(i as int));
                assert(all.take(i + 1).last() == (field.key@, field.value@));
                if with_role(settings@, field.key@, field.value@, default@) is Err {
                    lemma_roles_fail_early(before, all, i + 1, default@);
                }
            }
            let spec = match AgentSpec::parse(&field.value, default) {
                Ok(spec) => spec,
                Err(error) => {
                    let place = concat3("setting \"agents.", field.key.as_str(), "\"");
                    let failure = error.context(place);
                    assert(failure@ == with_role(settings@, field.key@, field.value@, default@)->Err_0);
                    return Err(failure);
                },
            };
            match Role::try_from(field.key.as_str()) {
                Ok(Role::Lead) => {
                    settings.lead = spec;
                },
                Ok(Role::Implementer) => {
                    settings.implementer = spec;
                },
                Ok(Role::Commentator) => {
                    settings.commentator = spec;
                },
                Err(_) => {
                    return Err(
                        Error::new(
                            concat2("unknown agent role ", quote(field.key.as_str()).as_str()),
                        ),
                    );
                },
            }
            i += 1;
        }
        assert(all.take(fields@.len() as int) == all);
        Ok(settings)
    }

    /// These settings with what a settings file says.
    pub fn apply_file(self, file: &SettingsFile, default: &str) -> (r: Result<Settings, Error>)
        ensures
            is_outcome(r, with_file(self@, *file, default@)),
    {
        match &file.content {
            FileContent::Absent => Ok(self),
            FileContent::Unreadable(reason) => {
                let error = Error::new(reason.clone()).context(
                    concat2("cannot read ", file.path.as_str()),
                );
                assert(error@ == seq!["cannot read "@ + file.path@, reason@]);
                Err(error)
            },
            FileContent::Text(text) => match self.apply(text.as_str(), default) {
                Ok(settings) => Ok(settings),
                Err(error) => {
                    let mut message = concat3("invalid settings in ", file.path.as_str(), ": ");
                    message.append(error.message());
                    Err(Error::new(message))
                },
            },
        }
    }
}

/// The error of a setting that must be an integer, given how its key is quoted and what it holds.
pub fn not_an_integer(quoted_key: &str, compact: &str) -> (r: Error)
    ensures
        r@ == seq!["setting "@ + quoted_key@ + " must be an integer, got "@ + compact@],
{
    let mut message = concat3("setting ", quoted_key, " must be an integer, got ");
    message.append(compact);
    Error::new(message)
}

/// The settings that a global file and a run's own file make together.
pub fn load_from(
    run: &SettingsFile,
    global: Option<&SettingsFile>,
    default: &str,
) -> (r: Result<Settings, Error>)
    ensures
        is_outcome(r, loaded(*run, global, default@)),
{
    let mut settings = Settings::default();
    if let Some(file) = global {
        match settings.apply_file(file, default) {
            Ok(changed) => {
                settings = changed;
            },
            Err(error) => {
                return Err(error);
            },
        }
    }
    settings.apply_file(run, default)
}

/// The path of a run's own settings file.
pub fn run_settings_path(run_dir: &str) -> (r: String)
    ensures
        r@ == path_of(run_dir@, "chainsaw.json"@),
{
    path_join(run_dir, "chainsaw.json")
}

/// The path of the global settings file: the one that the variable names, none where it is set to
/// nothing, and the usual one below the home directory where it is not set.
pub open spec fn global_path(config: Option<Seq<char>>, home: Option<Seq<char>>) -> Option<
    Seq<char>,
> {
    match (config, home) {
        (Some(path), _) => if path.len() == 0 {
            None
        } else {
            Some(path)
        },
        (None, Some(home)) => Some(
            path_of(path_of(home, ".config/chainsaw"@), "chainsaw.json"@),
        ),
        (None, None) => None,
    }
}

/// `CHAINSAW_CONFIG` names a file. Unset: `~/.config/chainsaw/chainsaw.json`. Empty: no global
/// file.
pub fn global_config_path(env: &Environment) -> (r: Option<String>)
    ensures
        opt_view(r) == global_path(env@.chainsaw_config, env@.home),
{
    let config = match &env.chainsaw_config {
        Some(path) => Some(path.clone()),
        None => None,
    };
    let home = match &env.home {
        Some(home) => Some(home.as_str()),
        None => None,
    };
    global_config_path_from(config, home)
}

/// The path of the global settings file, from what `CHAINSAW_CONFIG` and the home directory are.
pub fn global_config_path_from(
    config_env: Option<String>,
    home: Option<&str>,
) -> (r: Option<String>)
    ensures
        opt_view(r) == global_path(opt_view(config_env), opt_str(home)),
{
    match config_env {
        Some(path) => {
            if path.as_str().is_empty() {
                None
            } else {
                Some(path)
            }
        },
        None => match home {
            Some(home) => Some(
                path_join(path_join(home, ".config/chainsaw").as_str(), "chainsaw.json"),
            ),
            None => None,
        },
    }
}

/// A role that `agents` does not name keeps its agent.
pub proof fn law_unnamed_roles_are_kept(
    settings: SettingsView,
    fields: Seq<(Seq<char>, JsonView)>,
    role: Role, default: Seq<char>,
)
    requires
        forall|i: int| 0 <= i < fields.len() ==> (#[trigger] fields[i]).0 != role.name(),
    ensures
        with_roles(settings, fields, default) matches Ok(after) ==> after.agent(role) == settings.agent(role)
            && after.prompt_landing_seconds == settings.prompt_landing_seconds,
    decreases fields.len(),
{
    if fields.len() > 0 {
        let before = fields.drop_last();
        assert forall|i: int| 0 <= i < before.len() implies (#[trigger] before[i]).0
            != role.name() by {
            assert(fields[i].0 != role.name());
        }
        law_unnamed_roles_are_kept(settings, before, role, default);
        assert(fields[fields.len() - 1].0 != role.name());
    }
}

/// A role that `agents` names gets the agent described there.
pub proof fn law_named_role_is_overlaid(
    settings: SettingsView,
    fields: Seq<(Seq<char>, JsonView)>,
    role: Role,
    place: int, default: Seq<char>,
)
    requires
        0 <= place < fields.len(),
        fields[place].0 == role.name(),
        forall|i: int| place < i < fields.len() ==> (#[trigger] fields[i]).0 != role.name(),
    ensures
        with_roles(settings, fields, default) matches Ok(after) ==> described_agent(fields[place].1, default)
            == Ok::<AgentSpecView, Seq<char>>(after.agent(role)),
    decreases fields.len(),
{
    law_role_name_is_read_back(role);
    let before = fields.drop_last();
    if place < before.len() {
        assert forall|i: int| place < i < before.len() implies (#[trigger] before[i]).0
            != role.name() by {
            assert(fields[i].0 != role.name());
        }
        law_named_role_is_overlaid(settings, before, role, place, default);
        assert(fields[fields.len() - 1].0 != role.name());
    }
}

/// Whether a member of a settings file says what `role` runs.
pub open spec fn names_role(member: MemberView, role: Role) -> bool {
    &&& member.key == "agents"@
    &&& object_of(member.value) matches Some(fields) && exists|i: int|
        0 <= i < fields.len() && (#[trigger] fields[i]).0 == role.name()
}

/// A file that does not name a role leaves the agent of that role as it was, and one that does
/// not set the landing time leaves that as it was: the run's file overlays the global file.
pub proof fn law_unnamed_settings_are_kept(
    settings: SettingsView,
    members: Seq<MemberView>,
    role: Role, default: Seq<char>,
)
    ensures
        with_settings(settings, members, default) matches Ok(after) ==> {
            &&& (forall|i: int| 0 <= i < members.len() ==> !names_role(#[trigger] members[i], role))
                ==> after.agent(role) == settings.agent(role)
            &&& (forall|i: int|
                0 <= i < members.len() ==> (#[trigger] members[i]).key
                    != "prompt-landing-seconds"@) ==> after.prompt_landing_seconds
                == settings.prompt_landing_seconds
        },
    decreases members.len(),
{
    if members.len() > 0 && with_settings(settings, members, default) is Ok {
        let before = members.drop_last();
        let last = members.last();
        law_unnamed_settings_are_kept(settings, before, role, default);
        let middle = with_settings(settings, before, default)->Ok_0;
        let after = with_settings(settings, members, default)->Ok_0;
        if forall|i: int| 0 <= i < members.len() ==> !names_role(#[trigger] members[i], role) {
            assert forall|i: int| 0 <= i < before.len() implies !names_role(
                #[trigger] before[i],
                role,
            ) by {
                assert(!names_role(members[i], role));
            }
            assert(!names_role(members[members.len() - 1], role));
            if last.key == "agents"@ && last.key != "prompt-landing-seconds"@ {
                let fields = object_of(last.value)->Some_0;
                assert(forall|i: int|
                    0 <= i < fields.len() ==> (#[trigger] fields[i]).0 != role.name());
                law_unnamed_roles_are_kept(middle, fields, role, default);
            }
        }
        if forall|i: int|
            0 <= i < members.len() ==> (#[trigger] members[i]).key != "prompt-landing-seconds"@ {
            assert forall|i: int| 0 <= i < before.len() implies (#[trigger] before[i]).key
                != "prompt-landing-seconds"@ by {
                assert(members[i].key != "prompt-landing-seconds"@);
            }
            assert(members[members.len() - 1].key != "prompt-landing-seconds"@);
            let fields = object_of(last.value)->Some_0;
            lemma_roles_keep_the_landing_time(middle, fields, default);
        }
    }
}

proof fn lemma_roles_keep_the_landing_time(
    settings: SettingsView,
    fields: Seq<(Seq<char>, JsonView)>, default: Seq<char>,
)
    ensures
        with_roles(settings, fields, default) matches Ok(after) ==> after.prompt_landing_seconds
            == settings.prompt_landing_seconds,
    decreases fields.len(),
{
    if fields.len() > 0 {
        lemma_roles_keep_the_landing_time(settings, fields.drop_last(), default);
    }
}

/// Where neither file is there, the settings are the defaults.
pub proof fn law_absent_files_mean_defaults(
    run: SettingsFile,
    global: Option<&SettingsFile>,
    default: Seq<char>,
)
    requires
        run.content is Absent,
        global matches Some(file) ==> file.content is Absent,
    ensures
        loaded(run, global, default) == Ok::<SettingsView, Seq<Seq<char>>>(SettingsView::defaults()),
{
}

/// An agent that was set for a role is that role's agent; every other role keeps its own, and the
/// landing time is kept.
pub proof fn law_set_agent_is_read_back(
    settings: SettingsView,
    role: Role,
    spec: AgentSpecView,
    other: Role,
)
    ensures
        settings.with_agent(role, spec).agent(role) == spec,
        other != role ==> settings.with_agent(role, spec).agent(other) == settings.agent(other),
        settings.with_agent(role, spec).prompt_landing_seconds == settings.prompt_landing_seconds,
        SettingsView::defaults().prompt_landing_seconds == 15,
        SettingsView::defaults().agent(role) == (AgentSpecView {
            cli: AgentCli::Claude,
            model: Some("opus"@),
            args: Seq::empty(),
        }),
{
}

proof fn lemma_keys_differ()
    ensures
        "prompt-landing-seconds"@ != "agents"@,
{
    reveal_strlit("prompt-landing-seconds");
    reveal_strlit("agents");
    assert("prompt-landing-seconds"@.len() != "agents"@.len());
}

/// The landing time is what the last member of its name says, which must be a whole number.
pub proof fn law_landing_time_is_the_last_one_set(
    settings: SettingsView,
    members: Seq<MemberView>,
    place: int,
    default: Seq<char>,
)
    requires
        0 <= place < members.len(),
        members[place].key == "prompt-landing-seconds"@,
        forall|i: int|
            place < i < members.len() ==> (#[trigger] members[i]).key != "prompt-landing-seconds"@,
    ensures
        with_settings(settings, members, default) matches Ok(after) ==> members[place].value
            == JsonView::Integer(after.prompt_landing_seconds as int),
    decreases members.len(),
{
    lemma_keys_differ();
    let before = members.drop_last();
    let last = members.last();
    if place < before.len() && with_settings(settings, members, default) is Ok {
        assert forall|i: int| place < i < before.len() implies (#[trigger] before[i]).key
            != "prompt-landing-seconds"@ by {
            assert(members[i].key != "prompt-landing-seconds"@);
        }
        assert(before[place] == members[place]);
        law_landing_time_is_the_last_one_set(settings, before, place, default);
        assert(members[members.len() - 1].key != "prompt-landing-seconds"@);
        let middle = with_settings(settings, before, default)->Ok_0;
        lemma_roles_keep_the_landing_time(middle, object_of(last.value)->Some_0, default);
    }
}

/// A role's agent is the one that the last member to name the role describes for it.
pub proof fn law_agent_is_the_last_one_described(
    settings: SettingsView,
    members: Seq<MemberView>,
    role: Role,
    place: int,
    at: int,
    default: Seq<char>,
)
    requires
        0 <= place < members.len(),
        members[place].key == "agents"@,
        members[place].value is Object,
        0 <= at < members[place].value->Object_0.len(),
        members[place].value->Object_0[at].0 == role.name(),
        forall|i: int|
            at < i < members[place].value->Object_0.len() ==> (
            #[trigger] members[place].value->Object_0[i]).0 != role.name(),
        forall|i: int| place < i < members.len() ==> !names_role(#[trigger] members[i], role),
    ensures
        with_settings(settings, members, default) matches Ok(after) ==> described_agent(
            members[place].value->Object_0[at].1,
            default,
        ) == Ok::<AgentSpecView, Seq<char>>(after.agent(role)),
    decreases members.len(),
{
    lemma_keys_differ();
    let before = members.drop_last();
    let last = members.last();
    if with_settings(settings, members, default) is Ok {
        let middle = with_settings(settings, before, default)->Ok_0;
        if place < before.len() {
            assert forall|i: int| place < i < before.len() implies !names_role(
                #[trigger] before[i],
                role,
            ) by {
                assert(!names_role(members[i], role));
            }
            assert(before[place] == members[place]);
            law_agent_is_the_last_one_described(settings, before, role, place, at, default);
            assert(!names_role(members[members.len() - 1], role));
            if last.key == "agents"@ {
                let fields = object_of(last.value)->Some_0;
                assert(forall|i: int|
                    0 <= i < fields.len() ==> (#[trigger] fields[i]).0 != role.name());
                law_unnamed_roles_are_kept(middle, fields, role, default);
            }
        } else {
            law_named_role_is_overlaid(middle, members[place].value->Object_0, role, at, default);
        }
    }
}

/// One member that is unknown, or does not hold what it must, spoils a settings file.
pub proof fn law_bad_member_spoils_the_file(
    settings: SettingsView,
    members: Seq<MemberView>,
    place: int,
    default: Seq<char>,
)
    requires
        0 <= place < members.len(),
        (members[place].key != "prompt-landing-seconds"@ && members[place].key != "agents"@) || (
        members[place].key == "prompt-landing-seconds"@ && !(members[place].value is Integer)) || (
        members[place].key == "agents"@ && !(members[place].value is Object)),
    ensures
        with_settings(settings, members, default) is Err,
    decreases members.len(),
{
    lemma_keys_differ();
    let before = members.drop_last();
    if place < before.len() {
        assert(before[place] == members[place]);
        law_bad_member_spoils_the_file(settings, before, place, default);
    }
}

/// A role that is unknown, or whose agent is not described, spoils the agents of a file.
pub proof fn law_bad_role_spoils_the_agents(
    settings: SettingsView,
    fields: Seq<(Seq<char>, JsonView)>,
    place: int,
    default: Seq<char>,
)
    requires
        0 <= place < fields.len(),
        (fields[place].0 != "lead"@ && fields[place].0 != "implementer"@ && fields[place].0
            != "commentator"@) || described_agent(fields[place].1, default) is Err,
    ensures
        with_roles(settings, fields, default) is Err,
    decreases fields.len(),
{
    let before = fields.drop_last();
    if place < before.len() {
        assert(before[place] == fields[place]);
        law_bad_role_spoils_the_agents(settings, before, place, default);
    }
}

/// The run's own file is laid over the global one: what it sets goes before what the global file
/// sets, and what it does not set is as the global file has it. A file that is bad or cannot be
/// read spoils the settings, whichever of the two it is.
pub proof fn law_run_file_is_laid_over_the_global_one(
    run: SettingsFile,
    absent: SettingsFile,
    global: Option<&SettingsFile>,
    default: Seq<char>,
)
    requires
        absent.content is Absent,
    ensures
        loaded(absent, global, default) is Err ==> loaded(run, global, default) == loaded(
            absent,
            global,
            default,
        ),
        run.content is Unreadable ==> loaded(run, global, default) is Err,
        global is Some && global->Some_0.content is Unreadable ==> loaded(run, global, default)
            is Err,
        run.content matches FileContent::Text(text) ==> (loaded(run, global, default) matches Ok(
            after,
        ) ==> {
            &&& loaded(absent, global, default) matches Ok(base)
            &&& parsed_members(text@) matches Ok(Some(members))
            &&& with_settings(base, members, default) == Ok::<SettingsView, Seq<Seq<char>>>(after)
        }),
        global matches Some(file) ==> (file.content matches FileContent::Text(text) ==> (loaded(
            absent,
            global,
            default,
        ) matches Ok(base) ==> {
            &&& parsed_members(text@) matches Ok(Some(members))
            &&& with_settings(SettingsView::defaults(), members, default) == Ok::<
                SettingsView,
                Seq<Seq<char>>,
            >(base)
        })),
{
}

/// The global file is the one that the variable names; set to nothing, the variable means that there
/// is none, and unset that it is in its usual place below the home directory.
pub proof fn law_global_file_is_where_the_variable_says(
    path: Seq<char>,
    home: Seq<char>,
    anywhere: Option<Seq<char>>,
)
    requires
        path.len() > 0,
        home.len() > 0,
        home.last() != '/',
    ensures
        global_path(Some(path), anywhere) == Some(path),
        global_path(Some(Seq::empty()), anywhere) is None,
        global_path(None, Some(home)) == Some(home + "/.config/chainsaw/chainsaw.json"@),
        global_path(None, None) is None,
{
    reveal_strlit(".config/chainsaw");
    reveal_strlit("chainsaw.json");
    reveal_strlit("/.config/chainsaw/chainsaw.json");
    assert(".config/chainsaw"@[0] == '.');
    assert(".config/chainsaw"@[15] == 'w');
    assert("chainsaw.json"@[0] == 'c');
    let dir = path_of(home, ".config/chainsaw"@);
    assert(dir.last() == 'w');
    assert(path_of(dir, "chainsaw.json"@) =~= home + "/.config/chainsaw/chainsaw.json"@);
}

/// What is wrong with a settings file is told in words: a member that is unknown by its name, a
/// landing time that is no whole number by what it is, and an agent by the role it is for.
pub proof fn law_bad_settings_are_told_in_words(
    settings: SettingsView,
    member: MemberView,
    key: Seq<char>,
    value: JsonView,
    path: String,
    text: String,
    reason: String,
    default: Seq<char>,
)
    ensures
        member.key != "prompt-landing-seconds"@ && member.key != "agents"@ ==> with_setting(
            settings,
            member,
            default,
        ) == Err::<SettingsView, Seq<Seq<char>>>(seq!["unknown setting "@ + quoted(member.key)]),
        member.key == "prompt-landing-seconds"@ && !(member.value is Integer) ==> with_setting(
            settings,
            member,
            default,
        ) == Err::<SettingsView, Seq<Seq<char>>>(
            seq![
                "setting "@ + quoted(member.key) + " must be an integer, got "@ + member.compact,
            ],
        ),
        member.key == "agents"@ && !(member.value is Object) ==> with_setting(
            settings,
            member,
            default,
        ) == Err::<SettingsView, Seq<Seq<char>>>(seq!["setting \"agents\" must be a JSON object"@]),
        described_agent(value, default) matches Err(message) ==> with_role(
            settings,
            key,
            value,
            default,
        ) == Err::<SettingsView, Seq<Seq<char>>>(
            seq!["setting \"agents."@ + key + "\""@, message],
        ),
        described_agent(value, default) is Ok && Role::named(key) is None ==> with_role(
            settings,
            key,
            value,
            default,
        ) == Err::<SettingsView, Seq<Seq<char>>>(seq!["unknown agent role "@ + quoted(key)]),
        with_file(
            settings,
            SettingsFile { path, content: FileContent::Unreadable(reason) },
            default,
        ) == Err::<SettingsView, Seq<Seq<char>>>(seq!["cannot read "@ + path@, reason@]),
        with_text(settings, text@, default) matches Err(chain) ==> with_file(
            settings,
            SettingsFile { path, content: FileContent::Text(text) },
            default,
        ) == Err::<SettingsView, Seq<Seq<char>>>(
            seq!["invalid settings in "@ + path@ + ": "@ + chain[0]],
        ),
        with_text(settings, text@, default) matches Ok(after) ==> with_file(
            settings,
            SettingsFile { path, content: FileContent::Text(text) },
            default,
        ) == Ok::<SettingsView, Seq<Seq<char>>>(after),
        parsed_members(text@) matches Ok(None) ==> with_text(settings, text@, default) == Err::<
            SettingsView,
            Seq<Seq<char>>,
        >(seq!["expected a JSON object at the top level"@]),
{
    lemma_keys_differ();
}

/// What came of changing settings is the settings or the error that was expected, and nothing else.
pub proof fn law_settings_come_out_as_expected(
    r: Result<Settings, Error>,
    expected: Result<SettingsView, Seq<Seq<char>>>,
)
    requires
        is_outcome(r, expected),
    ensures
        r is Ok <==> expected is Ok,
        expected is Ok ==> r->Ok_0@ == expected->Ok_0,
        expected is Err ==> r->Err_0@ == expected->Err_0,
{
}

/// A settings file is read member by member, and the agents in it role by role: what comes later is
/// laid over what came before. A landing time is read where it is a whole number that there is room
/// for, and an agent where its role is known and the agent is described.
pub proof fn law_settings_are_read_member_by_member(
    settings: SettingsView,
    members: Seq<MemberView>,
    member: MemberView,
    fields: Seq<(Seq<char>, JsonView)>,
    role: Role,
    value: JsonView,
    default: Seq<char>,
)
    ensures
        with_settings(settings, Seq::empty(), default) == Ok::<SettingsView, Seq<Seq<char>>>(
            settings,
        ),
        with_roles(settings, Seq::empty(), default) == Ok::<SettingsView, Seq<Seq<char>>>(settings),
        with_settings(settings, members, default) matches Err(chain) ==> with_settings(
            settings,
            members.push(member),
            default,
        ) == Err::<SettingsView, Seq<Seq<char>>>(chain),
        with_settings(settings, members, default) matches Ok(before) ==> {
            let after = with_settings(settings, members.push(member), default);
            &&& member.key == "prompt-landing-seconds"@ ==> match member.value {
                JsonView::Integer(n) => if i64::MIN <= n <= i64::MAX {
                    after == Ok::<SettingsView, Seq<Seq<char>>>(
                        SettingsView { prompt_landing_seconds: n as i64, ..before },
                    )
                } else {
                    after is Err
                },
                _ => after is Err,
            }
            &&& member.key == "agents"@ ==> match member.value {
                JsonView::Object(roles) => after == with_roles(before, roles, default),
                _ => after is Err,
            }
        },
        with_roles(settings, fields, default) matches Ok(before) ==> (described_agent(
            value,
            default,
        ) matches Ok(spec) ==> with_roles(
            settings,
            fields.push((role.name(), value)),
            default,
        ) == Ok::<SettingsView, Seq<Seq<char>>>(before.with_agent(role, spec))),
{
    lemma_keys_differ();
    law_role_name_is_read_back(role);
    let longer = members.push(member);
    assert(longer.drop_last() =~= members);
    assert(longer.last() == member);
    let wider = fields.push((role.name(), value));
    assert(wider.drop_last() =~= fields);
    assert(wider.last() == (role.name(), value));
}

} // verus!
