//! Which interactive CLI a role runs, and how to launch it.
//!
//! The supervisor talks to Herdr, and Herdr starts the CLI. Each role in `chainsaw.json` picks a CLI
//! and a model.

use vstd::prelude::*;
use vstd::string::*;

use crate::error::Error;
use crate::json::{array_of, fields_view, items_view, object_of, text_of, Json, JsonView};
use crate::session_runtime::SessionKind;
use crate::text::{
    append_texts, as_opt_str, blank, concat2, copy_texts, is_blank, is_whitespace, opt_str,
    opt_view, quote, quoted, same, texts,
};

verus! {

/// An interactive CLI that Herdr can start.
#[derive(Clone, Copy, Debug, PartialEq, Eq, Structural)]
pub enum AgentCli {
    Claude,
    Cursor,
    Codex,
}

impl AgentCli {
    /// The name that settings and messages use. That of the default CLI is `default`.
    pub open spec fn name(self, default: Seq<char>) -> Seq<char> {
        match self {
            AgentCli::Claude => default,
            AgentCli::Cursor => "cursor"@,
            AgentCli::Codex => "codex"@,
        }
    }

    /// The name that settings and messages use.
    pub fn as_str<'a>(self, default: &'a str) -> (r: &'a str)
        ensures
            r@ == self.name(default@),
    {
        match self {
            AgentCli::Claude => default,
            AgentCli::Cursor => "cursor",
            AgentCli::Codex => "codex",
        }
    }

    /// The name by which Herdr knows this kind of agent.
    pub fn herdr_kind<'a>(self, default: &'a str) -> (r: &'a str)
        ensures
            r@ == self.name(default@),
    {
        self.as_str(default)
    }

    /// The CLI that a setting names, where it names one.
    pub open spec fn named(value: Seq<char>, default: Seq<char>) -> Option<AgentCli> {
        if value == default || value == default + "-code"@ {
            Some(AgentCli::Claude)
        } else if value == "cursor"@ || value == "cursor-cli"@ || value == "cursor-agent"@ {
            Some(AgentCli::Cursor)
        } else if value == "codex"@ || value == "codex-cli"@ {
            Some(AgentCli::Codex)
        } else {
            None
        }
    }

    /// What is said of a name that no CLI has.
    pub open spec fn unknown(value: Seq<char>, default: Seq<char>) -> Seq<char> {
        "unknown agent cli "@ + quoted(value) + "; expected "@ + default + ", cursor, or codex"@
    }

    /// The CLI that a setting names.
    pub fn parse(value: &str, default: &str) -> (r: Result<AgentCli, Error>)
        ensures
            match AgentCli::named(value@, default@) {
                Some(cli) => r matches Ok(found) && found == cli,
                None => r matches Err(error) && error@ == seq![AgentCli::unknown(value@, default@)],
            },
    {
        if same(value, default) || same(value, concat2(default, "-code").as_str()) {
            Ok(AgentCli::Claude)
        } else if same(value, "cursor") || same(value, "cursor-cli") || same(value, "cursor-agent") {
            Ok(AgentCli::Cursor)
        } else if same(value, "codex") || same(value, "codex-cli") {
            Ok(AgentCli::Codex)
        } else {
            Err(unknown_cli(quote(value).as_str(), default))
        }
    }
}

/// The error of a name that no CLI has, given how the name is quoted.
pub fn unknown_cli(quoted_name: &str, default: &str) -> (r: Error)
    ensures
        r@ == seq![
            "unknown agent cli "@ + quoted_name@ + "; expected "@ + default@ + ", cursor, or codex"@,
        ],
{
    Error::new(
        "unknown agent cli ".to_owned().concat(quoted_name).concat("; expected ").concat(
            default,
        ).concat(", cursor, or codex"),
    )
}

/// A CLI's own name names it, where the default CLI goes by no other one's name.
pub proof fn law_cli_name_is_parsed_back(cli: AgentCli, default: Seq<char>)
    requires
        default != "cursor"@,
        default != "codex"@,
    ensures
        AgentCli::named(cli.name(default), default) == Some(cli),
{
    reveal_strlit("cursor");
    reveal_strlit("cursor-cli");
    reveal_strlit("cursor-agent");
    reveal_strlit("codex");
    reveal_strlit("-code");
    assert("cursor"@[1] == 'u');
    assert("codex"@[1] == 'o');
    assert((default + "-code"@).last() == 'e');
    assert("cursor"@.last() == 'r');
    assert("codex"@.last() == 'x');
    assert("cursor-cli"@[1] == 'u');
    assert("cursor-agent"@[1] == 'u');
}

/// What a role runs: a CLI, the model it is asked for, and the flags that go to it besides.
#[derive(Debug, PartialEq, Eq)]
pub struct AgentSpec {
    cli: AgentCli,
    model: Option<String>,
    args: Vec<String>,
}

/// What an `AgentSpec` is.
pub struct AgentSpecView {
    pub cli: AgentCli,
    pub model: Option<Seq<char>>,
    pub args: Seq<Seq<char>>,
}

impl AgentSpecView {
    /// The default: Opus, and no flags of its own.
    pub open spec fn claude_opus() -> AgentSpecView {
        AgentSpecView { cli: AgentCli::Claude, model: Some("opus"@), args: Seq::empty() }
    }

    /// Neither the model nor any flag is blank.
    pub open spec fn well_formed(self) -> bool {
        &&& self.model matches Some(model) ==> !is_blank(model)
        &&& forall|i: int| 0 <= i < self.args.len() ==> !is_blank(#[trigger] self.args[i])
    }
}

impl View for AgentSpec {
    type V = AgentSpecView;

    closed spec fn view(&self) -> AgentSpecView {
        AgentSpecView { cli: self.cli, model: opt_view(self.model), args: texts(self.args@) }
    }
}

/// Why a model and flags cannot make an `AgentSpec`.
pub open spec fn spec_refusal(model: Option<Seq<char>>, args: Seq<Seq<char>>) -> Option<Seq<char>> {
    if model matches Some(name) && is_blank(name) {
        Some("agent model cannot be blank"@)
    } else if exists|i: int| 0 <= i < args.len() && is_blank(#[trigger] args[i]) {
        Some("agent extra arg cannot be blank"@)
    } else {
        None
    }
}

/// What is left out of a spec stays out, except that the default CLI without a model means Opus.
pub open spec fn defaulted_model(cli: AgentCli, model: Option<Seq<char>>) -> Option<Seq<char>> {
    if cli == AgentCli::Claude && model is None {
        Some("opus"@)
    } else {
        model
    }
}

/// What the members of an agent's settings have said so far.
pub struct AgentDraft {
    pub cli: Option<AgentCli>,
    pub model: Option<Seq<char>>,
    pub args: Seq<Seq<char>>,
}

/// The texts of `items`, where all of them are strings.
pub open spec fn strings_of(items: Seq<JsonView>) -> Option<Seq<Seq<char>>> {
    if forall|i: int| 0 <= i < items.len() ==> text_of(#[trigger] items[i]) is Some {
        Some(items.map_values(|item: JsonView| text_of(item)->Some_0))
    } else {
        None
    }
}

/// What `draft` is once the member `key` has been read, or why it cannot be.
pub open spec fn draft_with(
    draft: AgentDraft,
    key: Seq<char>,
    value: JsonView,
    default: Seq<char>,
) -> Result<
    AgentDraft,
    Seq<char>,
> {
    if key == "cli"@ {
        match text_of(value) {
            None => Err("agent cli must be a string"@),
            Some(text) => match AgentCli::named(text, default) {
                Some(cli) => Ok(AgentDraft { cli: Some(cli), ..draft }),
                None => Err(AgentCli::unknown(text, default)),
            },
        }
    } else if key == "model"@ {
        match text_of(value) {
            None => Err("agent model must be a string"@),
            Some(text) => Ok(AgentDraft { model: Some(text), ..draft }),
        }
    } else if key == "args"@ {
        match array_of(value) {
            None => Err("agent args must be an array of strings"@),
            Some(items) => match strings_of(items) {
                None => Err("agent args must be an array of strings"@),
                Some(args) => Ok(AgentDraft { args: draft.args + args, ..draft }),
            },
        }
    } else {
        Err("unknown agent setting "@ + quoted(key))
    }
}

/// What an agent's settings say, read member by member; or why the first bad member is bad.
pub open spec fn drafted(
    fields: Seq<(Seq<char>, JsonView)>,
    default: Seq<char>,
) -> Result<AgentDraft, Seq<char>>
    decreases fields.len(),
{
    if fields.len() == 0 {
        Ok(AgentDraft { cli: None, model: None, args: Seq::empty() })
    } else {
        match drafted(fields.drop_last(), default) {
            Err(message) => Err(message),
            Ok(draft) => draft_with(draft, fields.last().0, fields.last().1, default),
        }
    }
}

/// The agent that a settings value describes, or why it describes none.
pub open spec fn described_agent(
    value: JsonView,
    default: Seq<char>,
) -> Result<AgentSpecView, Seq<char>> {
    match object_of(value) {
        None => Err("agent spec must be a JSON object"@),
        Some(fields) => match drafted(fields, default) {
            Err(message) => Err(message),
            Ok(AgentDraft { cli: None, model, args }) => Err("agent spec needs a cli"@),
            Ok(AgentDraft { cli: Some(cli), model, args }) => {
                let model = defaulted_model(cli, model);
                match spec_refusal(model, args) {
                    Some(message) => Err(message),
                    None => Ok(AgentSpecView { cli, model, args }),
                }
            },
        },
    }
}

proof fn lemma_draft_fails_early(fields: Seq<(Seq<char>, JsonView)>, size: int, default: Seq<char>)
    requires
        0 <= size <= fields.len(),
        drafted(fields.take(size), default) is Err,
    ensures
        drafted(fields, default) == drafted(fields.take(size), default),
    decreases fields.len(),
{
    if size < fields.len() {
        assert(fields.drop_last().take(size) == fields.take(size));
        lemma_draft_fails_early(fields.drop_last(), size, default);
    } else {
        assert(fields.take(size) == fields);
    }
}

/// The flags of the default CLI.
pub open spec fn claude_flags_of(model: Seq<char>, kind: SessionKind) -> Seq<Seq<char>> {
    seq!["--model"@, model, "--effort"@, "high"@] + (if kind == SessionKind::Implementer {
        seq!["--disable-slash-commands"@]
    } else {
        Seq::empty()
    }) + seq![
        "--strict-mcp-config"@,
        "--no-chrome"@,
        "--disallowedTools"@,
        "WebSearch,WebFetch,NotebookEdit,Task,Agent,AskUserQuestion,EnterPlanMode,ExitPlanMode,TaskOutput"@,
    ]
}

/// The flags of Cursor.
pub open spec fn cursor_flags_of(model: Option<Seq<char>>) -> Seq<Seq<char>> {
    seq!["--trust"@, "--force"@] + model_flags_of(model)
}

/// The flags that ask for a model.
pub open spec fn model_flags_of(model: Option<Seq<char>>) -> Seq<Seq<char>> {
    match model {
        Some(model) => seq!["--model"@, model],
        None => Seq::empty(),
    }
}

impl AgentSpecView {
    /// The flags passed to the CLI: its own, then those that the settings add.
    pub open spec fn launch_flags(self, kind: SessionKind) -> Seq<Seq<char>> {
        (match self.cli {
            AgentCli::Claude => claude_flags_of(
                match self.model {
                    Some(model) => model,
                    None => "opus"@,
                },
                kind,
            ),
            AgentCli::Cursor => cursor_flags_of(self.model),
            AgentCli::Codex => model_flags_of(self.model),
        }) + self.args
    }
}

fn strings(items: &Vec<Json>) -> (r: Option<Vec<String>>)
    ensures
        match r {
            Some(list) => strings_of(items_view(items@)) == Some(texts(list@)),
            None => strings_of(items_view(items@)) is None,
        },
{
    let ghost all = items_view(items@);
    let mut list: Vec<String> = Vec::new();
    let mut i: usize = 0;
    while i < items.len()
        invariant
            i <= items@.len(),
            all == items_view(items@),
            list@.len() == i,
            forall|j: int| 0 <= j < i ==> text_of(#[trigger] all[j]) == Some(list@[j]@),
        decreases items.len() - i,
    {
        assert(all[i as int] == items@[i as int]@);
        match items[i].as_str() {
            Some(text) => list.push(text.to_owned()),
            None => {
                return None;
            },
        }
        i += 1;
    }
    assert(all.map_values(|item: JsonView| text_of(item)->Some_0) == texts(list@));
    Some(list)
}

impl AgentSpec {
    #[verifier::type_invariant]
    spec fn holds_no_blank(self) -> bool {
        self@.well_formed()
    }

    /// The default: Opus, and no flags of its own.
    pub fn claude_opus() -> (r: AgentSpec)
        ensures
            r@ == AgentSpecView::claude_opus(),
    {
        proof {
            reveal_strlit("opus");
            assert(!is_whitespace("opus"@[0]));
        }
        let args: Vec<String> = Vec::new();
        assert(texts(args@) == Seq::<Seq<char>>::empty());
        AgentSpec { cli: AgentCli::Claude, model: Some("opus".to_owned()), args }
    }

    /// An agent with these parts, of which none may be blank.
    pub fn new(cli: AgentCli, model: Option<String>, args: Vec<String>) -> (r: Result<
        AgentSpec,
        Error,
    >)
        ensures
            match spec_refusal(opt_view(model), texts(args@)) {
                Some(message) => r matches Err(error) && error@ == seq![message],
                None => r matches Ok(spec) && spec@ == (AgentSpecView {
                    cli,
                    model: opt_view(model),
                    args: texts(args@),
                }),
            },
    {
        if let Some(model) = &model {
            if blank(model.as_str()) {
                return Err(Error::from_text("agent model cannot be blank"));
            }
        }
        let ghost all = texts(args@);
        let mut i: usize = 0;
        while i < args.len()
            invariant
                i <= args@.len(),
                all == texts(args@),
                forall|j: int| 0 <= j < i ==> !is_blank(#[trigger] all[j]),
                opt_view(model) matches Some(name) ==> !is_blank(name),
            decreases args.len() - i,
        {
            assert(all[i as int] == args@[i as int]@);
            if blank(args[i].as_str()) {
                return Err(Error::from_text("agent extra arg cannot be blank"));
            }
            i += 1;
        }
        Ok(AgentSpec { cli, model, args })
    }

    /// The agent that a settings value describes.
    pub fn parse(value: &Json, default: &str) -> (r: Result<AgentSpec, Error>)
        ensures
            match described_agent(value@, default@) {
                Ok(spec) => r matches Ok(found) && found@ == spec,
                Err(message) => r matches Err(error) && error@ == seq![message],
            },
    {
        let fields = match value.as_object() {
            Some(fields) => fields,
            None => {
                return Err(Error::from_text("agent spec must be a JSON object"));
            },
        };
        let ghost all = fields_view(fields@);
        let mut cli: Option<AgentCli> = None;
        let mut model: Option<String> = None;
        let mut args: Vec<String> = Vec::new();
        let mut i: usize = 0;
        assert(texts(args@) == Seq::<Seq<char>>::empty());
        while i < fields.len()
            invariant
                i <= fields@.len(),
                all == fields_view(fields@),
                object_of(value@) == Some(all),
                drafted(all.take(i as int), default@) == Ok::<AgentDraft, Seq<char>>(
                    AgentDraft { cli, model: opt_view(model), args: texts(args@) },
                ),
            decreases fields.len() - i,
        {
            let field = &fields[i];
            let ghost draft = AgentDraft { cli, model: opt_view(model), args: texts(args@) };
            proof {
                assert(all.take(i + 1).drop_last() == all.take(i as int));
                assert(all.take(i + 1).last() == (field.key@, field.value@));
                assert(drafted(all.take(i + 1), default@) == draft_with(draft, field.key@, field.value@, default@));
                if draft_with(draft, field.key@, field.value@, default@) is Err {
                    lemma_draft_fails_early(all, i + 1, default@);
                }
            }
            if same(field.key.as_str(), "cli") {
                match field.value.as_str() {
                    Some(text) => match AgentCli::parse(text, default) {
                        Ok(found) => {
                            cli = Some(found);
                        },
                        Err(error) => {
                            return Err(error);
                        },
                    },
                    None => {
                        return Err(Error::from_text("agent cli must be a string"));
                    },
                }
            } else if same(field.key.as_str(), "model") {
                match field.value.as_str() {
                    Some(text) => {
                        model = Some(text.to_owned());
                    },
                    None => {
                        return Err(Error::from_text("agent model must be a string"));
                    },
                }
            } else if same(field.key.as_str(), "args") {
                match field.value.as_array() {
                    Some(items) => match strings(items) {
                        Some(list) => append_texts(&mut args, &list),
                        None => {
                            return Err(Error::from_text("agent args must be an array of strings"));
                        },
                    },
                    None => {
                        return Err(Error::from_text("agent args must be an array of strings"));
                    },
                }
            } else {
                let message = concat2("unknown agent setting ", quote(field.key.as_str()).as_str());
                return Err(Error::new(message));
            }
            i += 1;
        }
        assert(all.take(fields@.len() as int) == all);
        match cli {
            None => Err(Error::from_text("agent spec needs a cli")),
            Some(cli) => {
                let model = match (cli, model) {
                    (AgentCli::Claude, None) => Some("opus".to_owned()),
                    (_, model) => model,
                };
                AgentSpec::new(cli, model, args)
            },
        }
    }

    pub fn cli(&self) -> (r: AgentCli)
        ensures
            r == self@.cli,
    {
        self.cli
    }

    pub fn model(&self) -> (r: Option<&str>)
        ensures
            opt_str(r) == self@.model,
    {
        as_opt_str(&self.model)
    }

    pub fn args(&self) -> (r: &Vec<String>)
        ensures
            texts(r@) == self@.args,
    {
        &self.args
    }

    /// Flags passed to the CLI after `herdr agent start … --`.
    pub fn launch_flags(&self, kind: SessionKind) -> (r: Vec<String>)
        ensures
            texts(r@) == self@.launch_flags(kind),
    {
        let mut flags = match self.cli {
            AgentCli::Claude => claude_flags(
                match &self.model {
                    Some(model) => model.as_str(),
                    None => "opus",
                },
                kind,
            ),
            AgentCli::Cursor => cursor_flags(as_opt_str(&self.model)),
            AgentCli::Codex => model_flags(as_opt_str(&self.model)),
        };
        append_texts(&mut flags, &self.args);
        flags
    }
}

impl Clone for AgentSpec {
    fn clone(&self) -> (r: AgentSpec)
        ensures
            r@ == self@,
    {
        proof {
            use_type_invariant(self);
        }
        let model = match &self.model {
            Some(model) => Some(model.clone()),
            None => None,
        };
        AgentSpec { cli: self.cli, model, args: copy_texts(&self.args) }
    }
}

fn claude_flags(model: &str, kind: SessionKind) -> (r: Vec<String>)
    ensures
        texts(r@) == claude_flags_of(model@, kind),
{
    let mut flags: Vec<String> = Vec::new();
    flags.push("--model".to_owned());
    flags.push(model.to_owned());
    flags.push("--effort".to_owned());
    flags.push("high".to_owned());
    if kind == SessionKind::Implementer {
        flags.push("--disable-slash-commands".to_owned());
    }
    flags.push("--strict-mcp-config".to_owned());
    flags.push("--no-chrome".to_owned());
    flags.push("--disallowedTools".to_owned());
    flags.push(
        "WebSearch,WebFetch,NotebookEdit,Task,Agent,AskUserQuestion,EnterPlanMode,ExitPlanMode,TaskOutput".to_owned(),
    );
    assert(texts(flags@) == claude_flags_of(model@, kind));
    flags
}

fn cursor_flags(model: Option<&str>) -> (r: Vec<String>)
    ensures
        texts(r@) == cursor_flags_of(opt_str(model)),
{
    let mut flags: Vec<String> = Vec::new();
    flags.push("--trust".to_owned());
    flags.push("--force".to_owned());
    let ghost before = texts(flags@);
    append_texts(&mut flags, &model_flags(model));
    assert(before == seq!["--trust"@, "--force"@]);
    flags
}

fn model_flags(model: Option<&str>) -> (r: Vec<String>)
    ensures
        texts(r@) == model_flags_of(opt_str(model)),
{
    let mut flags: Vec<String> = Vec::new();
    if let Some(model) = model {
        flags.push("--model".to_owned());
        flags.push(model.to_owned());
    }
    assert(texts(flags@) == model_flags_of(opt_str(model)));
    flags
}

/// Every agent that can be described is free of blank parts.
pub proof fn law_described_agent_is_well_formed(value: JsonView, default: Seq<char>)
    ensures
        described_agent(value, default) matches Ok(spec) ==> spec.well_formed(),
{
}

/// The flags that the settings add come last, in their order, whatever the CLI.
pub proof fn law_extra_args_come_last(spec: AgentSpecView, kind: SessionKind)
    ensures
        spec.args.is_suffix_of(spec.launch_flags(kind)),
{
    let flags = spec.launch_flags(kind);
    assert(flags.subrange(flags.len() - spec.args.len(), flags.len() as int) == spec.args);
}

/// Cursor always gets `--trust --force`, so it never stops on workspace trust or shell approval.
pub proof fn law_cursor_is_trusted_and_forced(spec: AgentSpecView, kind: SessionKind)
    requires
        spec.cli == AgentCli::Cursor,
    ensures
        seq!["--trust"@, "--force"@].is_prefix_of(spec.launch_flags(kind)),
{
}

/// Each CLI is named by its own names and by no others, and the default CLI's go before the rest.
pub proof fn law_clis_go_by_these_names_only(value: Seq<char>, default: Seq<char>)
    ensures
        AgentCli::named(value, default) == Some(AgentCli::Claude) <==> value == default || value
            == default + "-code"@,
        AgentCli::named(value, default) == Some(AgentCli::Cursor) <==> value != default && value
            != default + "-code"@ && (value == "cursor"@ || value == "cursor-cli"@ || value
            == "cursor-agent"@),
        AgentCli::named(value, default) == Some(AgentCli::Codex) <==> value != default && value
            != default + "-code"@ && (value == "codex"@ || value == "codex-cli"@),
{
    reveal_strlit("cursor");
    reveal_strlit("cursor-cli");
    reveal_strlit("cursor-agent");
    reveal_strlit("codex");
    reveal_strlit("codex-cli");
    assert("cursor"@[1] == 'u' && "cursor-cli"@[1] == 'u' && "cursor-agent"@[1] == 'u');
    assert("codex"@[1] == 'o' && "codex-cli"@[1] == 'o');
}

/// A model and flags make an agent exactly where none of them is blank. Only the default CLI is
/// given a model that was not asked for.
pub proof fn law_agent_is_refused_for_blanks_only(
    cli: AgentCli,
    model: Option<Seq<char>>,
    args: Seq<Seq<char>>,
)
    ensures
        spec_refusal(model, args) is None <==> (model is Some ==> !is_blank(model->Some_0)) && (
        forall|i: int| 0 <= i < args.len() ==> !is_blank(#[trigger] args[i])),
        model is Some ==> defaulted_model(cli, model) == model,
        cli == AgentCli::Claude ==> defaulted_model(cli, None) == Some("opus"@),
        cli != AgentCli::Claude ==> defaulted_model(cli, None) is None,
{
}

/// An agent's settings are read member by member: a later one goes before an earlier one, except
/// that flags are added to those before them. Each member sets what it is named after and nothing
/// else, and one bad member spoils them all.
pub proof fn law_agent_is_read_member_by_member(
    fields: Seq<(Seq<char>, JsonView)>,
    key: Seq<char>,
    value: JsonView,
    default: Seq<char>,
)
    ensures
        drafted(Seq::empty(), default) == Ok::<AgentDraft, Seq<char>>(
            AgentDraft { cli: None, model: None, args: Seq::empty() },
        ),
        drafted(fields, default) is Err ==> drafted(fields.push((key, value)), default) == drafted(
            fields,
            default,
        ),
        drafted(fields, default) matches Ok(before) ==> {
            let after = drafted(fields.push((key, value)), default);
            &&& key == "cli"@ ==> (after is Ok <==> value is Text && AgentCli::named(
                value->Text_0,
                default,
            ) is Some)
            &&& key == "model"@ ==> (after is Ok <==> value is Text)
            &&& key == "args"@ ==> (after is Ok <==> value is Array && forall|i: int|
                0 <= i < value->Array_0.len() ==> (#[trigger] value->Array_0[i]) is Text)
            &&& key != "cli"@ && key != "model"@ && key != "args"@ ==> after is Err
            &&& after matches Ok(draft) ==> {
                &&& draft.cli == (if key == "cli"@ {
                    AgentCli::named(value->Text_0, default)
                } else {
                    before.cli
                })
                &&& draft.model == (if key == "model"@ {
                    Some(value->Text_0)
                } else {
                    before.model
                })
                &&& key != "args"@ ==> draft.args == before.args
                &&& key == "args"@ ==> draft.args == before.args + Seq::new(
                    value->Array_0.len(),
                    |i: int| value->Array_0[i]->Text_0,
                )
            }
        },
{
    reveal_strlit("cli");
    reveal_strlit("model");
    reveal_strlit("args");
    assert("cli"@.len() == 3 && "model"@.len() == 5 && "args"@.len() == 4);
    let longer = fields.push((key, value));
    assert(longer.drop_last() =~= fields);
    assert(longer.last() == (key, value));
    if let JsonView::Array(items) = value {
        if forall|i: int| 0 <= i < items.len() ==> (#[trigger] items[i]) is Text {
            assert forall|i: int| 0 <= i < items.len() implies text_of(
                #[trigger] items[i],
            ) is Some by {}
            assert(strings_of(items)->Some_0 =~= Seq::new(
                items.len(),
                |i: int| items[i]->Text_0,
            ));
        } else {
            let i = choose|i: int| 0 <= i < items.len() && !((#[trigger] items[i]) is Text);
            assert(text_of(items[i]) is None);
        }
    }
}

/// A value describes an agent only where it is an object that names a CLI; the agent is then what
/// the members say, with the default CLI's own model where they name none.
pub proof fn law_described_agent_is_what_its_members_say(value: JsonView, default: Seq<char>)
    ensures
        described_agent(value, default) is Ok ==> value is Object,
        value matches JsonView::Object(fields) ==> match drafted(fields, default) {
            Err(message) => described_agent(value, default) == Err::<AgentSpecView, Seq<char>>(
                message,
            ),
            Ok(draft) => {
                &&& draft.cli is None ==> described_agent(value, default) is Err
                &&& described_agent(value, default) matches Ok(spec) ==> {
                    &&& draft.cli == Some(spec.cli)
                    &&& draft.model is Some ==> spec.model == draft.model
                    &&& draft.model is None && spec.cli == AgentCli::Claude ==> spec.model == Some(
                        "opus"@,
                    )
                    &&& draft.model is None && spec.cli != AgentCli::Claude ==> spec.model is None
                    &&& spec.args == draft.args
                }
                &&& draft.cli is Some && (draft.model is Some ==> !is_blank(draft.model->Some_0))
                    && (forall|i: int|
                    0 <= i < draft.args.len() ==> !is_blank(#[trigger] draft.args[i]))
                    ==> described_agent(value, default) is Ok
            },
        },
{
    reveal_strlit("opus");
    assert("opus"@[0] == 'o');
    assert(!is_whitespace("opus"@[0]));
    assert(!is_blank("opus"@));
}

/// Every CLI is started with the model that was asked for; the default CLI with its own where none
/// was, and the others then without one.
pub proof fn law_model_is_passed_on(spec: AgentSpecView, kind: SessionKind)
    ensures
        ({
            let flags = spec.launch_flags(kind);
            &&& spec.cli == AgentCli::Claude ==> flags[0] == "--model"@ && flags[1] == (
            if spec.model is Some {
                spec.model->Some_0
            } else {
                "opus"@
            })
            &&& spec.cli == AgentCli::Cursor && spec.model is Some ==> flags[2] == "--model"@
                && flags[3] == spec.model->Some_0 && flags.len() == 4 + spec.args.len()
            &&& spec.cli == AgentCli::Cursor && spec.model is None ==> flags.len() == 2
                + spec.args.len()
            &&& spec.cli == AgentCli::Codex && spec.model is Some ==> flags[0] == "--model"@
                && flags[1] == spec.model->Some_0 && flags.len() == 2 + spec.args.len()
            &&& spec.cli == AgentCli::Codex && spec.model is None ==> flags == spec.args
        }),
{
    if spec.cli == AgentCli::Codex && spec.model is None {
        assert(spec.launch_flags(kind) =~= spec.args);
    }
}

/// The default CLI is started at high effort, with no servers and tools but those it is given, and
/// without slash commands exactly where it is an implementer.
pub proof fn law_default_cli_is_held_short(spec: AgentSpecView, kind: SessionKind)
    requires
        spec.cli == AgentCli::Claude,
    ensures
        ({
            let flags = spec.launch_flags(kind);
            let own = flags.len() - spec.args.len();
            &&& own == (if kind == SessionKind::Implementer {
                9int
            } else {
                8int
            })
            &&& flags[2] == "--effort"@ && flags[3] == "high"@
            &&& kind == SessionKind::Implementer ==> flags[4] == "--disable-slash-commands"@
            &&& flags[own - 4] == "--strict-mcp-config"@
            &&& flags[own - 3] == "--no-chrome"@
            &&& flags[own - 2] == "--disallowedTools"@
            &&& flags[own - 1]
                == "WebSearch,WebFetch,NotebookEdit,Task,Agent,AskUserQuestion,EnterPlanMode,ExitPlanMode,TaskOutput"@
        }),
{
}

/// What is wrong with an agent's settings is told in words: a name that no CLI has with the names
/// that there are, a member of the wrong kind by what it must be, and one that is unknown by name.
pub proof fn law_bad_agent_is_told_in_words(
    draft: AgentDraft,
    key: Seq<char>,
    value: JsonView,
    default: Seq<char>,
)
    ensures
        key == "cli"@ && !(value is Text) ==> draft_with(draft, key, value, default) == Err::<
            AgentDraft,
            Seq<char>,
        >("agent cli must be a string"@),
        key == "cli"@ && value is Text && AgentCli::named(value->Text_0, default) is None
            ==> draft_with(draft, key, value, default) == Err::<AgentDraft, Seq<char>>(
            "unknown agent cli "@ + quoted(value->Text_0) + "; expected "@ + default
                + ", cursor, or codex"@,
        ),
        key == "model"@ && !(value is Text) ==> draft_with(draft, key, value, default) == Err::<
            AgentDraft,
            Seq<char>,
        >("agent model must be a string"@),
        key == "args"@ && !(value is Array) ==> draft_with(draft, key, value, default) == Err::<
            AgentDraft,
            Seq<char>,
        >("agent args must be an array of strings"@),
        key != "cli"@ && key != "model"@ && key != "args"@ ==> draft_with(
            draft,
            key,
            value,
            default,
        ) == Err::<AgentDraft, Seq<char>>("unknown agent setting "@ + quoted(key)),
        !(value is Object) ==> described_agent(value, default) == Err::<AgentSpecView, Seq<char>>(
            "agent spec must be a JSON object"@,
        ),
{
    reveal_strlit("cli");
    reveal_strlit("model");
    reveal_strlit("args");
    assert("cli"@.len() == 3 && "model"@.len() == 5 && "args"@.len() == 4);
}

} // verus!
