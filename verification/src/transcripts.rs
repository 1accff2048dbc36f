//! Where each CLI writes the transcript of a session, and how to find it when it is elsewhere.

use vstd::prelude::*;
use vstd::string::*;

use crate::agent::AgentCli;
use crate::environment::{
    claude_home, codex_home, config_dir, cursor_home, is_dir_or_unset, path_join, path_of,
    Environment, EnvironmentView,
};
use crate::error::Error;
use crate::store::{project_directory_name, project_name};
use crate::text::{concat2, contains, mentions, opt_view, same, to_chars};

verus! {

/// `path` without the slashes it starts with.
pub open spec fn without_leading_slashes(path: Seq<char>) -> Seq<char>
    decreases path.len(),
{
    if path.len() > 0 && path[0] == '/' {
        without_leading_slashes(path.drop_first())
    } else {
        path
    }
}

/// The name that Cursor gives a project directory.
pub open spec fn cursor_project_name(run_dir: Seq<char>) -> Seq<char> {
    without_leading_slashes(run_dir).map_values(
        |c: char|
            if c == '/' {
                '-'
            } else {
                c
            },
    )
}

/// Cursor names a project by the cwd with slashes turned into dashes and the leading slash
/// dropped: `/Users/a/src/app` becomes `Users-a-src-app`.
pub fn cursor_project_directory_name(canonical_run_dir: &str) -> (r: String)
    ensures
        r@ == cursor_project_name(canonical_run_dir@),
{
    let chars = to_chars(canonical_run_dir);
    let ghost all = canonical_run_dir@;
    let mut from: usize = 0;
    assert(all.skip(0) == all);
    while from < chars.len() && chars[from] == '/'
        invariant
            from <= chars@.len(),
            chars@ == all,
            without_leading_slashes(all.skip(from as int)) == without_leading_slashes(all),
        decreases chars.len() - from,
    {
        assert(all.skip(from as int).drop_first() == all.skip(from + 1));
        from += 1;
    }
    let ghost rest = all.skip(from as int);
    let ghost dash = |c: char|
        if c == '/' {
            '-'
        } else {
            c
        };
    assert(without_leading_slashes(all) == rest);
    let mut r = String::new();
    let mut i: usize = from;
    while i < chars.len()
        invariant
            from <= i <= chars@.len(),
            chars@ == all,
            rest == all.skip(from as int),
            dash == (|c: char|
                if c == '/' {
                    '-'
                } else {
                    c
                }),
            r@ == rest.take(i - from).map_values(dash),
        decreases chars.len() - i,
    {
        let c = chars[i];
        assert(rest.take(i - from + 1) == rest.take(i - from).push(c));
        if c == '/' {
            r.push('-');
        } else {
            r.push(c);
        }
        assert(rest.take(i - from + 1).map_values(dash) == rest.take(i - from).map_values(dash).push(
            dash(c),
        ));
        i += 1;
    }
    assert(rest.take(all.len() - from) == rest);
    r
}

/// The directory that holds what a CLI writes.
pub open spec fn cli_home(env: EnvironmentView, cli: AgentCli) -> Option<Seq<char>> {
    match cli {
        AgentCli::Claude => config_dir(env.claude_config_dir, env.home, "."@ + env.default_cli),
        AgentCli::Cursor => config_dir(env.cursor_config_dir, env.home, ".cursor"@),
        AgentCli::Codex => config_dir(env.codex_home, env.home, ".codex"@),
    }
}

fn home_of(env: &Environment, cli: AgentCli) -> (r: Result<String, Error>)
    ensures
        is_dir_or_unset(r, cli_home(env@, cli)),
{
    match cli {
        AgentCli::Claude => claude_home(env),
        AgentCli::Cursor => cursor_home(env),
        AgentCli::Codex => codex_home(env),
    }
}

/// Where a CLI keeps the transcripts of all its sessions.
pub open spec fn transcripts_root(env: EnvironmentView, cli: AgentCli) -> Option<Seq<char>> {
    match cli_home(env, cli) {
        None => None,
        Some(home) => Some(
            path_of(
                home,
                if cli == AgentCli::Codex {
                    "sessions"@
                } else {
                    "projects"@
                },
            ),
        ),
    }
}

/// The transcript's file name: the session's id, then `.jsonl`.
pub open spec fn transcript_name(session_id: Seq<char>) -> Seq<char> {
    session_id + ".jsonl"@
}

/// The path at which a CLI is expected to write a session's transcript. Codex shards by date, so
/// its expected path is only a first guess.
pub open spec fn expected_path(
    env: EnvironmentView,
    cli: AgentCli,
    run_dir: Seq<char>,
    session_id: Seq<char>,
) -> Option<Seq<char>> {
    match transcripts_root(env, cli) {
        None => None,
        Some(root) => Some(
            match cli {
                AgentCli::Claude => path_of(
                    path_of(root, project_name(run_dir)),
                    transcript_name(session_id),
                ),
                AgentCli::Cursor => path_of(
                    path_of(
                        path_of(path_of(root, cursor_project_name(run_dir)), "agent-transcripts"@),
                        session_id,
                    ),
                    transcript_name(session_id),
                ),
                AgentCli::Codex => path_of(root, transcript_name(session_id)),
            },
        ),
    }
}

fn root_of(env: &Environment, cli: AgentCli) -> (r: Result<String, Error>)
    ensures
        is_dir_or_unset(r, transcripts_root(env@, cli)),
{
    match home_of(env, cli) {
        Ok(home) => {
            let part = match cli {
                AgentCli::Codex => "sessions",
                _ => "projects",
            };
            Ok(path_join(home.as_str(), part))
        },
        Err(error) => Err(error),
    }
}

/// The path at which a CLI is expected to write a session's transcript.
pub fn expected_transcript(
    env: &Environment,
    cli: AgentCli,
    canonical_run_dir: &str,
    session_id: &str,
) -> (r: Result<String, Error>)
    ensures
        is_dir_or_unset(r, expected_path(env@, cli, canonical_run_dir@, session_id@)),
{
    let root = match root_of(env, cli) {
        Ok(root) => root,
        Err(error) => {
            return Err(error);
        },
    };
    let file = concat2(session_id, ".jsonl");
    Ok(
        match cli {
            AgentCli::Claude => {
                let project = project_directory_name(canonical_run_dir);
                path_join(path_join(root.as_str(), project.as_str()).as_str(), file.as_str())
            },
            AgentCli::Cursor => {
                let project = cursor_project_directory_name(canonical_run_dir);
                let dir = path_join(root.as_str(), project.as_str());
                let dir = path_join(dir.as_str(), "agent-transcripts");
                let dir = path_join(dir.as_str(), session_id);
                path_join(dir.as_str(), file.as_str())
            },
            AgentCli::Codex => path_join(root.as_str(), file.as_str()),
        },
    )
}

/// Which file a search is after.
#[derive(Debug)]
pub enum FileRule {
    /// The file with this name.
    Named(String),
    /// A `.jsonl` file whose name, without that extension, holds this text.
    JsonlContaining(String),
}

/// What a `FileRule` is.
pub enum FileRuleView {
    Named(Seq<char>),
    JsonlContaining(Seq<char>),
}

impl View for FileRule {
    type V = FileRuleView;

    open spec fn view(&self) -> FileRuleView {
        match self {
            FileRule::Named(name) => FileRuleView::Named(name@),
            FileRule::JsonlContaining(needle) => FileRuleView::JsonlContaining(needle@),
        }
    }
}

/// The place of the last dot of `name` that has something before it.
pub open spec fn extension_dot(name: Seq<char>) -> Option<int>
    decreases name.len(),
{
    if name.len() == 0 {
        None
    } else if name.last() == '.' {
        if name.len() > 1 {
            Some(name.len() - 1)
        } else {
            None
        }
    } else {
        extension_dot(name.drop_last())
    }
}

impl FileRuleView {
    /// Whether a file with this name is the one; a name that is no text never is.
    pub open spec fn accepts(self, name: Option<Seq<char>>) -> bool {
        match (self, name) {
            (FileRuleView::Named(wanted), Some(name)) => name == wanted,
            (FileRuleView::JsonlContaining(needle), Some(name)) => match extension_dot(name) {
                Some(dot) => name.skip(dot + 1) == "jsonl"@ && mentions(name.take(dot), needle),
                None => false,
            },
            (_, None) => false,
        }
    }
}

fn find_extension_dot(chars: &Vec<char>) -> (r: Option<usize>)
    ensures
        match r {
            Some(dot) => extension_dot(chars@) == Some(dot as int) && dot < chars@.len(),
            None => extension_dot(chars@) is None,
        },
{
    let mut end: usize = chars.len();
    assert(chars@.take(end as int) == chars@);
    while end > 0
        invariant
            end <= chars@.len(),
            extension_dot(chars@.take(end as int)) == extension_dot(chars@),
        decreases end,
    {
        assert(chars@.take(end as int).drop_last() == chars@.take(end - 1));
        if chars[end - 1] == '.' {
            return if end > 1 {
                Some(end - 1)
            } else {
                None
            };
        }
        end -= 1;
    }
    None
}

impl FileRule {
    /// Whether a file with this name is the one.
    pub fn accepts(&self, name: &Option<String>) -> (r: bool)
        ensures
            r == self@.accepts(opt_view(*name)),
    {
        match name {
            None => false,
            Some(name) => match self {
                FileRule::Named(wanted) => same(name.as_str(), wanted.as_str()),
                FileRule::JsonlContaining(needle) => {
                    let chars = to_chars(name.as_str());
                    let size = chars.len();
                    match find_extension_dot(&chars) {
                        Some(dot) => {
                            let stem = name.as_str().substring_char(0, dot);
                            let extension = name.as_str().substring_char(dot + 1, size);
                            assert(stem@ == name@.take(dot as int));
                            assert(extension@ == name@.skip(dot + 1));
                            same(extension, "jsonl") && contains(stem, needle.as_str())
                        },
                        None => false,
                    }
                },
            },
        }
    }
}

/// One entry of a directory: what its name is, where it is text, and a number to find it by.
#[derive(Debug)]
pub struct DirEntry {
    pub id: u64,
    pub name: Option<String>,
    pub is_dir: bool,
}

/// What a `DirEntry` is.
pub struct DirEntryView {
    pub id: u64,
    pub name: Option<Seq<char>>,
    pub is_dir: bool,
}

impl View for DirEntry {
    type V = DirEntryView;

    open spec fn view(&self) -> DirEntryView {
        DirEntryView { id: self.id, name: opt_view(self.name), is_dir: self.is_dir }
    }
}

/// What the entries of a list are.
pub open spec fn entries_view(entries: Seq<DirEntry>) -> Seq<DirEntryView> {
    entries.map_values(|entry: DirEntry| entry@)
}

/// The first file of `entries` that the rule accepts.
pub open spec fn first_accepted(rule: FileRuleView, entries: Seq<DirEntryView>) -> Option<u64>
    decreases entries.len(),
{
    if entries.len() == 0 {
        None
    } else if !entries[0].is_dir && rule.accepts(entries[0].name) {
        Some(entries[0].id)
    } else {
        first_accepted(rule, entries.drop_first())
    }
}

/// The directories of `entries`, in their order.
pub open spec fn subdirs(entries: Seq<DirEntryView>) -> Seq<u64>
    decreases entries.len(),
{
    if entries.len() == 0 {
        Seq::empty()
    } else if entries.last().is_dir {
        subdirs(entries.drop_last()).push(entries.last().id)
    } else {
        subdirs(entries.drop_last())
    }
}

/// A tree of directories: the entries of each one that can be read.
pub type Tree = spec_fn(u64) -> Option<Seq<DirEntryView>>;

/// The file that a search of the directory `id` comes upon: a file of the directory itself first,
/// then one below its subdirectories in their order, at most `budget` levels down.
pub open spec fn found_below(tree: Tree, rule: FileRuleView, id: u64, budget: nat) -> Option<u64>
    decreases budget, 1nat, 0nat,
{
    match tree(id) {
        None => None,
        Some(entries) => match first_accepted(rule, entries) {
            Some(file) => Some(file),
            None => if budget == 0 {
                None
            } else {
                found_in_any(tree, rule, subdirs(entries), (budget - 1) as nat)
            },
        },
    }
}

/// The file that a search of the directories `ids`, one after another, comes upon.
pub open spec fn found_in_any(tree: Tree, rule: FileRuleView, ids: Seq<u64>, budget: nat) -> Option<
    u64,
>
    decreases budget, 2nat, ids.len(),
{
    if ids.len() == 0 {
        None
    } else {
        match found_below(tree, rule, ids[0], budget) {
            Some(file) => Some(file),
            None => found_in_any(tree, rule, ids.drop_first(), budget),
        }
    }
}

/// A directory that is still to be searched, and how many levels below it may be.
#[derive(Clone, Copy, Debug, PartialEq, Eq, Structural)]
pub struct PendingDir {
    pub id: u64,
    pub budget: usize,
}

/// A search of a directory tree that has got so far.
#[derive(Debug)]
pub struct TranscriptWalk {
    rule: FileRule,
    /// The directories still to be searched; the next one is the last.
    pending: Vec<PendingDir>,
}

/// What a `TranscriptWalk` is.
pub struct WalkView {
    pub rule: FileRuleView,
    pub pending: Seq<PendingDir>,
}

impl View for TranscriptWalk {
    type V = WalkView;

    closed spec fn view(&self) -> WalkView {
        WalkView { rule: self.rule@, pending: self.pending@ }
    }
}

/// What the answer to a directory's listing is.
#[derive(Debug)]
pub enum WalkStep {
    /// The search is over: this file is the one.
    Found(u64),
    /// The search goes on.
    Continue(TranscriptWalk),
}

/// The directories `ids` as they are put on the pile: the first on top.
pub open spec fn piled(ids: Seq<u64>, budget: usize) -> Seq<PendingDir> {
    Seq::new(ids.len(), |i: int| PendingDir { id: ids[ids.len() - 1 - i], budget })
}

/// The pile once the directory on top of it was listed and held no accepted file.
pub open spec fn pile_after(pending: Seq<PendingDir>, entries: Option<Seq<DirEntryView>>) -> Seq<
    PendingDir,
>
    recommends
        pending.len() > 0,
{
    match entries {
        Some(entries) if pending.last().budget > 0 => pending.drop_last() + piled(
            subdirs(entries),
            (pending.last().budget - 1) as usize,
        ),
        _ => pending.drop_last(),
    }
}

impl WalkView {
    /// What the search will come upon in `tree`.
    pub open spec fn outcome(self, tree: Tree) -> Option<u64>
        decreases self.pending.len(),
    {
        if self.pending.len() == 0 {
            None
        } else {
            let top = self.pending.last();
            match found_below(tree, self.rule, top.id, top.budget as nat) {
                Some(file) => Some(file),
                None => (WalkView { pending: self.pending.drop_last(), ..self }).outcome(tree),
            }
        }
    }
}

/// A search of the directory `root`, at most `max_depth` levels down, for the file named
/// `filename`.
pub fn find_named_jsonl(root: u64, filename: &str, max_depth: usize) -> (r: TranscriptWalk)
    ensures
        r@ == (WalkView {
            rule: FileRuleView::Named(filename@),
            pending: seq![PendingDir { id: root, budget: max_depth }],
        }),
{
    TranscriptWalk::begin(root, FileRule::Named(filename.to_owned()), max_depth)
}

/// A search of the directory `root`, at most `max_depth` levels down, for a `.jsonl` file whose
/// name holds `needle`.
pub fn find_jsonl_containing(root: u64, needle: &str, max_depth: usize) -> (r: TranscriptWalk)
    ensures
        r@ == (WalkView {
            rule: FileRuleView::JsonlContaining(needle@),
            pending: seq![PendingDir { id: root, budget: max_depth }],
        }),
{
    TranscriptWalk::begin(root, FileRule::JsonlContaining(needle.to_owned()), max_depth)
}

fn directories(entries: &Vec<DirEntry>) -> (r: Vec<u64>)
    ensures
        r@ == subdirs(entries_view(entries@)),
{
    let ghost all = entries_view(entries@);
    let mut r: Vec<u64> = Vec::new();
    let mut i: usize = 0;
    while i < entries.len()
        invariant
            i <= entries@.len(),
            all == entries_view(entries@),
            r@ == subdirs(all.take(i as int)),
        decreases entries.len() - i,
    {
        assert(all.take(i + 1).drop_last() == all.take(i as int));
        assert(all.take(i + 1).last() == entries@[i as int]@);
        if entries[i].is_dir {
            r.push(entries[i].id);
        }
        i += 1;
    }
    assert(all.take(entries@.len() as int) == all);
    r
}

fn accepted_file(rule: &FileRule, entries: &Vec<DirEntry>) -> (r: Option<u64>)
    ensures
        r == first_accepted(rule@, entries_view(entries@)),
{
    let ghost all = entries_view(entries@);
    let mut i: usize = 0;
    assert(all.skip(0) == all);
    while i < entries.len()
        invariant
            i <= entries@.len(),
            all == entries_view(entries@),
            first_accepted(rule@, all) == first_accepted(rule@, all.skip(i as int)),
        decreases entries.len() - i,
    {
        assert(all.skip(i as int)[0] == entries@[i as int]@);
        assert(all.skip(i as int).drop_first() == all.skip(i + 1));
        if !entries[i].is_dir && rule.accepts(&entries[i].name) {
            return Some(entries[i].id);
        }
        i += 1;
    }
    None
}

/// What the entries of an optional listing are.
pub open spec fn listing_view(entries: Option<Vec<DirEntry>>) -> Option<Seq<DirEntryView>> {
    match entries {
        Some(entries) => Some(entries_view(entries@)),
        None => None,
    }
}

impl TranscriptWalk {
    fn begin(root: u64, rule: FileRule, max_depth: usize) -> (r: TranscriptWalk)
        ensures
            r@ == (WalkView {
                rule: rule@,
                pending: seq![PendingDir { id: root, budget: max_depth }],
            }),
    {
        let mut pending: Vec<PendingDir> = Vec::new();
        pending.push(PendingDir { id: root, budget: max_depth });
        assert(pending@ == seq![PendingDir { id: root, budget: max_depth }]);
        TranscriptWalk { rule, pending }
    }

    /// The directory to list next; `None` when the search has come upon nothing.
    pub fn next(&self) -> (r: Option<u64>)
        ensures
            r == (if self@.pending.len() == 0 {
                None
            } else {
                Some(self@.pending.last().id)
            }),
    {
        if self.pending.len() == 0 {
            None
        } else {
            Some(self.pending[self.pending.len() - 1].id)
        }
    }

    /// Takes the listing of the directory that `next` asked for; `None` where it cannot be read.
    pub fn listed(self, entries: Option<Vec<DirEntry>>) -> (r: WalkStep)
        requires
            self@.pending.len() > 0,
        ensures
            ({
                let found = match listing_view(entries) {
                    Some(entries) => first_accepted(self@.rule, entries),
                    None => None,
                };
                match found {
                    Some(file) => r matches WalkStep::Found(id) && id == file,
                    None => r matches WalkStep::Continue(walk) && walk@ == (WalkView {
                        rule: self@.rule,
                        pending: pile_after(self@.pending, listing_view(entries)),
                    }),
                }
            }),
    {
        let TranscriptWalk { rule, mut pending } = self;
        let ghost all = pending@;
        let top = match pending.pop() {
            Some(top) => top,
            None => {
                return WalkStep::Continue(TranscriptWalk { rule, pending });
            },
        };
        if let Some(entries) = &entries {
            if let Some(file) = accepted_file(&rule, entries) {
                return WalkStep::Found(file);
            }
            if top.budget > 0 {
                let dirs = directories(entries);
                let mut left: usize = dirs.len();
                while left > 0
                    invariant
                        left <= dirs@.len(),
                        top.budget > 0,
                        pending@ == all.drop_last() + Seq::new(
                            (dirs@.len() - left) as nat,
                            |i: int|
                                PendingDir {
                                    id: dirs@[dirs@.len() - 1 - i],
                                    budget: (top.budget - 1) as usize,
                                },
                        ),
                    decreases left,
                {
                    left -= 1;
                    pending.push(PendingDir { id: dirs[left], budget: top.budget - 1 });
                }
                assert(pending@ == pile_after(all, listing_view(Some(*entries))));
            }
        }
        WalkStep::Continue(TranscriptWalk { rule, pending })
    }
}

proof fn lemma_outcome_of_pile(tree: Tree, walk: WalkView, ids: Seq<u64>, budget: usize)
    ensures
        (WalkView { pending: walk.pending + piled(ids, budget), ..walk }).outcome(tree) == (
        match found_in_any(tree, walk.rule, ids, budget as nat) {
            Some(file) => Some(file),
            None => walk.outcome(tree),
        }),
    decreases ids.len(),
{
    let whole = WalkView { pending: walk.pending + piled(ids, budget), ..walk };
    if ids.len() == 0 {
        assert(whole.pending == walk.pending);
    } else {
        let rest = ids.drop_first();
        assert(whole.pending.last() == (PendingDir { id: ids[0], budget }));
        assert(whole.pending.drop_last() == walk.pending + piled(rest, budget));
        lemma_outcome_of_pile(tree, walk, rest, budget);
    }
}

/// Answering a search with the true listing of the directory it asks for does not change what it
/// will come upon.
pub proof fn law_walk_step_keeps_the_outcome(tree: Tree, walk: WalkView)
    requires
        walk.pending.len() > 0,
    ensures
        ({
            let entries = tree(walk.pending.last().id);
            let found = match entries {
                Some(entries) => first_accepted(walk.rule, entries),
                None => None,
            };
            walk.outcome(tree) == (match found {
                Some(file) => Some(file),
                None => (WalkView {
                    pending: pile_after(walk.pending, entries),
                    ..walk
                }).outcome(tree),
            })
        }),
{
    let top = walk.pending.last();
    let below = WalkView { pending: walk.pending.drop_last(), ..walk };
    if let Some(entries) = tree(top.id) {
        if first_accepted(walk.rule, entries) is None && top.budget > 0 {
            lemma_outcome_of_pile(tree, below, subdirs(entries), (top.budget - 1) as usize);
        }
    }
}

/// A search that has just begun will come upon what a search of its root comes upon, and one that
/// has nothing left to list comes upon nothing.
pub proof fn law_walk_begins_at_the_root(
    tree: Tree,
    rule: FileRuleView,
    root: u64,
    max_depth: usize,
)
    ensures
        (WalkView { rule, pending: seq![PendingDir { id: root, budget: max_depth }] }).outcome(tree)
            == found_below(tree, rule, root, max_depth as nat),
        (WalkView { rule, pending: Seq::empty() }).outcome(tree) is None,
{
    let walk = WalkView { rule, pending: seq![PendingDir { id: root, budget: max_depth }] };
    assert(walk.pending.drop_last() == Seq::<PendingDir>::empty());
    reveal_with_fuel(WalkView::outcome, 2);
}

/// Whether an accepted file named `file` stands in the directory `id` or at most `budget` levels
/// below it.
pub open spec fn stands_below(
    tree: Tree,
    rule: FileRuleView,
    id: u64,
    budget: nat,
    file: u64,
) -> bool
    decreases budget,
{
    tree(id) matches Some(entries) && {
        ||| exists|i: int|
            0 <= i < entries.len() && !(#[trigger] entries[i]).is_dir && rule.accepts(
                entries[i].name,
            ) && entries[i].id == file
        ||| budget > 0 && exists|i: int|
            0 <= i < entries.len() && (#[trigger] entries[i]).is_dir && stands_below(
                tree,
                rule,
                entries[i].id,
                (budget - 1) as nat,
                file,
            )
    }
}

proof fn lemma_first_accepted(rule: FileRuleView, entries: Seq<DirEntryView>)
    ensures
        first_accepted(rule, entries) matches Some(file) ==> exists|i: int|
            0 <= i < entries.len() && !(#[trigger] entries[i]).is_dir && rule.accepts(
                entries[i].name,
            ) && entries[i].id == file,
        first_accepted(rule, entries) is None ==> forall|i: int|
            0 <= i < entries.len() ==> (#[trigger] entries[i]).is_dir || !rule.accepts(
                entries[i].name,
            ),
    decreases entries.len(),
{
    if entries.len() > 0 && (entries[0].is_dir || !rule.accepts(entries[0].name)) {
        let rest = entries.drop_first();
        lemma_first_accepted(rule, rest);
        if let Some(file) = first_accepted(rule, rest) {
            let i = choose|i: int|
                0 <= i < rest.len() && !(#[trigger] rest[i]).is_dir && rule.accepts(rest[i].name)
                    && rest[i].id == file;
            assert(entries[i + 1] == rest[i]);
        } else {
            assert forall|i: int| 0 <= i < entries.len() implies (#[trigger] entries[i]).is_dir
                || !rule.accepts(entries[i].name) by {
                if i > 0 {
                    assert(entries[i] == rest[i - 1]);
                }
            }
        }
    }
}

spec fn is_subdir(entries: Seq<DirEntryView>, id: u64) -> bool {
    exists|i: int| 0 <= i < entries.len() && (#[trigger] entries[i]).is_dir && entries[i].id == id
}

proof fn lemma_subdirs(entries: Seq<DirEntryView>)
    ensures
        forall|k: int|
            0 <= k < subdirs(entries).len() ==> is_subdir(entries, #[trigger] subdirs(entries)[k]),
        forall|i: int|
            0 <= i < entries.len() && (#[trigger] entries[i]).is_dir ==> subdirs(entries).contains(
                entries[i].id,
            ),
    decreases entries.len(),
{
    if entries.len() > 0 {
        let rest = entries.drop_last();
        lemma_subdirs(rest);
        let all = subdirs(entries);
        let before = subdirs(rest);
        assert forall|k: int| 0 <= k < all.len() implies is_subdir(entries, #[trigger] all[k]) by {
            if k < before.len() {
                assert(is_subdir(rest, before[k]));
                let i = choose|i: int|
                    0 <= i < rest.len() && (#[trigger] rest[i]).is_dir && rest[i].id == before[k];
                assert(entries[i] == rest[i]);
            } else {
                assert(entries[entries.len() - 1].is_dir);
            }
        }
        assert forall|i: int| 0 <= i < entries.len() && (#[trigger] entries[i]).is_dir implies all.contains(
            entries[i].id,
        ) by {
            if i < rest.len() {
                assert(rest[i] == entries[i]);
                let k = choose|k: int| 0 <= k < before.len() && before[k] == entries[i].id;
                assert(all[k] == entries[i].id);
            } else {
                assert(all[all.len() - 1] == entries[i].id);
            }
        }
    }
}

/// A search comes upon an accepted file that stands within its depth; and where one stands there,
/// it comes upon one.
pub proof fn law_search_is_sound_and_complete(tree: Tree, rule: FileRuleView, id: u64, budget: nat)
    ensures
        found_below(tree, rule, id, budget) matches Some(file) ==> stands_below(
            tree,
            rule,
            id,
            budget,
            file,
        ),
        forall|file: u64| #[trigger]
            stands_below(tree, rule, id, budget, file) ==> found_below(tree, rule, id, budget) is Some,
    decreases budget, 1nat, 0nat,
{
    if let Some(entries) = tree(id) {
        lemma_first_accepted(rule, entries);
        if first_accepted(rule, entries) is None && budget > 0 {
            let dirs = subdirs(entries);
            lemma_search_of_any(tree, rule, dirs, (budget - 1) as nat);
            lemma_subdirs(entries);
            if let Some(file) = found_in_any(tree, rule, dirs, (budget - 1) as nat) {
                let k = choose|k: int|
                    0 <= k < dirs.len() && #[trigger] stands_below(
                        tree,
                        rule,
                        dirs[k],
                        (budget - 1) as nat,
                        file,
                    );
                assert(is_subdir(entries, dirs[k]));
            }
            assert forall|file: u64| #[trigger]
                stands_below(tree, rule, id, budget, file) implies found_below(
                tree,
                rule,
                id,
                budget,
            ) is Some by {
                let i = choose|i: int|
                    0 <= i < entries.len() && (#[trigger] entries[i]).is_dir && stands_below(
                        tree,
                        rule,
                        entries[i].id,
                        (budget - 1) as nat,
                        file,
                    );
                assert(dirs.contains(entries[i].id));
                let k = choose|k: int| 0 <= k < dirs.len() && dirs[k] == entries[i].id;
                assert(stands_below(tree, rule, dirs[k], (budget - 1) as nat, file));
            }
        }
    }
}

proof fn lemma_search_of_any(tree: Tree, rule: FileRuleView, ids: Seq<u64>, budget: nat)
    ensures
        found_in_any(tree, rule, ids, budget) matches Some(file) ==> exists|k: int|
            0 <= k < ids.len() && #[trigger] stands_below(tree, rule, ids[k], budget, file),
        forall|k: int, file: u64|
            0 <= k < ids.len() && #[trigger] stands_below(tree, rule, ids[k], budget, file)
                ==> found_in_any(tree, rule, ids, budget) is Some,
    decreases budget, 2nat, ids.len(),
{
    if ids.len() > 0 {
        let rest = ids.drop_first();
        law_search_is_sound_and_complete(tree, rule, ids[0], budget);
        lemma_search_of_any(tree, rule, rest, budget);
        if found_below(tree, rule, ids[0], budget) is None {
            if let Some(file) = found_in_any(tree, rule, rest, budget) {
                let k = choose|k: int|
                    0 <= k < rest.len() && #[trigger] stands_below(tree, rule, rest[k], budget, file);
                assert(rest[k] == ids[k + 1]);
                assert(stands_below(tree, rule, ids[k + 1], budget, file));
            }
            assert forall|k: int, file: u64|
                0 <= k < ids.len() && #[trigger] stands_below(tree, rule, ids[k], budget, file) implies found_in_any(
                tree,
                rule,
                ids,
                budget,
            ) is Some by {
                if k > 0 {
                    assert(rest[k - 1] == ids[k]);
                    assert(stands_below(tree, rule, rest[k - 1], budget, file));
                }
            }
        }
    }
}

/// How to look for a session's transcript: at the path where it should be, else by a search below
/// `root`.
#[derive(Debug)]
pub struct TranscriptSearch {
    pub expected: Option<String>,
    pub root: Option<String>,
    pub rule: FileRule,
    pub max_depth: usize,
}

/// The rule and the depth of the search for a session's transcript.
pub open spec fn search_rule(cli: AgentCli, session_id: Seq<char>) -> (FileRuleView, usize) {
    match cli {
        AgentCli::Claude => (FileRuleView::Named(transcript_name(session_id)), 2),
        AgentCli::Cursor => (FileRuleView::Named(transcript_name(session_id)), 4),
        AgentCli::Codex => (FileRuleView::JsonlContaining(session_id), 4),
    }
}

/// How to look for the transcript of a session that `cli` runs.
pub fn find_session_transcript(
    env: &Environment,
    cli: AgentCli,
    canonical_run_dir: &str,
    session_id: &str,
) -> (r: TranscriptSearch)
    ensures
        opt_view(r.expected) == expected_path(env@, cli, canonical_run_dir@, session_id@),
        opt_view(r.root) == transcripts_root(env@, cli),
        (r.rule@, r.max_depth) == search_rule(cli, session_id@),
{
    let expected = match expected_transcript(env, cli, canonical_run_dir, session_id) {
        Ok(path) => Some(path),
        Err(_) => None,
    };
    let root = match root_of(env, cli) {
        Ok(root) => Some(root),
        Err(_) => None,
    };
    let (rule, max_depth): (FileRule, usize) = match cli {
        AgentCli::Claude => (FileRule::Named(concat2(session_id, ".jsonl")), 2),
        AgentCli::Cursor => (FileRule::Named(concat2(session_id, ".jsonl")), 4),
        AgentCli::Codex => (FileRule::JsonlContaining(session_id.to_owned()), 4),
    };
    TranscriptSearch { expected, root, rule, max_depth }
}

/// Where a session's log may be.
#[derive(Debug)]
pub enum LogPlace {
    /// At this path.
    File(String),
    /// Below this directory, under a name that follows the rule.
    Below { root: String, rule: FileRule, max_depth: usize },
    /// In some directory beside that of the run's logs, under this name.
    Beside(String),
}

pub enum LogPlaceView {
    File(Seq<char>),
    Below { root: Seq<char>, rule: FileRuleView, max_depth: usize },
    Beside(Seq<char>),
}

impl View for LogPlace {
    type V = LogPlaceView;

    open spec fn view(&self) -> LogPlaceView {
        match self {
            LogPlace::File(path) => LogPlaceView::File(path@),
            LogPlace::Below { root, rule, max_depth } => LogPlaceView::Below {
                root: root@,
                rule: rule@,
                max_depth: *max_depth,
            },
            LogPlace::Beside(name) => LogPlaceView::Beside(name@),
        }
    }
}

pub open spec fn places_view(places: Seq<LogPlace>) -> Seq<LogPlaceView> {
    places.map_values(|place: LogPlace| place@)
}

/// Where the log of a session may be, in the order in which the places are tried: where its CLI
/// writes it, anywhere else that its CLI writes, among the run's logs, and beside them.
pub open spec fn log_places(
    env: EnvironmentView,
    cli: AgentCli,
    run_dir: Seq<char>,
    logs_dir: Seq<char>,
    session_id: Seq<char>,
) -> Seq<LogPlaceView> {
    let (rule, max_depth) = search_rule(cli, session_id);
    (match expected_path(env, cli, run_dir, session_id) {
        Some(path) => seq![LogPlaceView::File(path)],
        None => Seq::empty(),
    }) + (match transcripts_root(env, cli) {
        Some(root) => seq![LogPlaceView::Below { root, rule, max_depth }],
        None => Seq::empty(),
    }) + seq![
        LogPlaceView::File(path_of(logs_dir, session_id + ".jsonl"@)),
        LogPlaceView::Beside(session_id + ".jsonl"@),
    ]
}

/// Where the log of a session may be: the first of these places that has it is the one.
pub fn session_log(
    env: &Environment,
    cli: AgentCli,
    canonical_run_dir: &str,
    logs_dir: &str,
    session_id: &str,
) -> (r: Vec<LogPlace>)
    ensures
        places_view(r@) == log_places(
            env@,
            cli,
            canonical_run_dir@,
            logs_dir@,
            session_id@,
        ),
{
    let search = find_session_transcript(env, cli, canonical_run_dir, session_id);
    let file_name = concat2(session_id, ".jsonl");
    let mut places: Vec<LogPlace> = Vec::new();
    if let Some(path) = search.expected {
        places.push(LogPlace::File(path));
    }
    if let Some(root) = search.root {
        places.push(LogPlace::Below { root, rule: search.rule, max_depth: search.max_depth });
    }
    places.push(LogPlace::File(path_join(logs_dir, file_name.as_str())));
    places.push(LogPlace::Beside(file_name));
    assert(places_view(places@) =~= log_places(
        env@,
        cli,
        canonical_run_dir@,
        logs_dir@,
        session_id@,
    ));
    places
}

/// The name that Cursor gives a project is the path without the slashes it starts with, character
/// by character, a dash for each other slash.
pub proof fn law_cursor_project_is_named_by_its_path(run_dir: Seq<char>)
    ensures
        cursor_project_name(seq!['/'] + run_dir) == cursor_project_name(run_dir),
        run_dir.len() == 0 || run_dir[0] != '/' ==> {
            &&& cursor_project_name(run_dir).len() == run_dir.len()
            &&& forall|i: int|
                0 <= i < run_dir.len() ==> #[trigger] cursor_project_name(run_dir)[i] == (
                if run_dir[i] == '/' {
                    '-'
                } else {
                    run_dir[i]
                })
        },
        !cursor_project_name(run_dir).contains('/'),
{
    let longer = seq!['/'] + run_dir;
    assert(longer[0] == '/');
    assert(longer.drop_first() =~= run_dir);
}

/// Each CLI keeps its files where its own variable says, and else in the home directory under its
/// own name; no other variable matters.
pub proof fn law_each_cli_has_its_own_home(env: EnvironmentView)
    ensures
        cli_home(env, AgentCli::Claude) == (if env.claude_config_dir is Some {
            env.claude_config_dir
        } else if env.home is Some {
            Some(path_of(env.home->Some_0, "."@ + env.default_cli))
        } else {
            None
        }),
        cli_home(env, AgentCli::Cursor) == (if env.cursor_config_dir is Some {
            env.cursor_config_dir
        } else if env.home is Some {
            Some(path_of(env.home->Some_0, ".cursor"@))
        } else {
            None
        }),
        cli_home(env, AgentCli::Codex) == (if env.codex_home is Some {
            env.codex_home
        } else if env.home is Some {
            Some(path_of(env.home->Some_0, ".codex"@))
        } else {
            None
        }),
{
}

/// A transcript is expected below the CLI's directory: by project and session for the default CLI,
/// by project and in a directory of the session's own for Cursor, and by session for Codex.
#[verifier::rlimit(40)]
pub proof fn law_transcript_is_expected_below_its_cli(
    env: EnvironmentView,
    home: Seq<char>,
    cli: AgentCli,
    run_dir: Seq<char>,
    session_id: Seq<char>,
)
    requires
        cli_home(env, cli) == Some(home),
        home.len() > 0,
        home.last() != '/',
        session_id.len() > 0,
        session_id[0] != '/',
        session_id.last() != '/',
        project_name(run_dir).len() > 0,
        cursor_project_name(run_dir).len() > 0,
    ensures
        cli == AgentCli::Claude ==> expected_path(env, cli, run_dir, session_id) == Some(
            home + "/projects/"@ + project_name(run_dir) + "/"@ + session_id + ".jsonl"@,
        ),
        cli == AgentCli::Cursor ==> expected_path(env, cli, run_dir, session_id) == Some(
            home + "/projects/"@ + cursor_project_name(run_dir) + "/agent-transcripts/"@
                + session_id + "/"@ + session_id + ".jsonl"@,
        ),
        cli == AgentCli::Codex ==> expected_path(env, cli, run_dir, session_id) == Some(
            home + "/sessions/"@ + session_id + ".jsonl"@,
        ),
        transcripts_root(env, cli) == Some(
            home + (if cli == AgentCli::Codex {
                "/sessions"@
            } else {
                "/projects"@
            }),
        ),
{
    reveal_strlit("projects");
    reveal_strlit("/projects");
    reveal_strlit("/projects/");
    reveal_strlit("sessions");
    reveal_strlit("/sessions");
    reveal_strlit("/sessions/");
    reveal_strlit("agent-transcripts");
    reveal_strlit("/agent-transcripts/");
    reveal_strlit("/");
    reveal_strlit(".jsonl");
    assert("projects"@[0] == 'p' && "projects"@[7] == 's');
    assert("sessions"@[0] == 's' && "sessions"@[7] == 's');
    assert("agent-transcripts"@[0] == 'a' && "agent-transcripts"@[16] == 's');
    let file = transcript_name(session_id);
    assert(file[0] == session_id[0]);
    match cli {
        AgentCli::Claude => {
            let root = path_of(home, "projects"@);
            assert(root.last() == 's');
            assert(root =~= home + "/projects"@);
            let name = project_name(run_dir);
            assert(!name.contains('/'));
            assert(name.contains(name[0]) && name.contains(name.last()));
            let dir = path_of(root, name);
            assert(dir.last() == name.last());
            assert(path_of(dir, file) =~= home + "/projects/"@ + name + "/"@ + session_id
                + ".jsonl"@);
        },
        AgentCli::Cursor => {
            let root = path_of(home, "projects"@);
            assert(root.last() == 's');
            assert(root =~= home + "/projects"@);
            let name = cursor_project_name(run_dir);
            law_cursor_project_is_named_by_its_path(run_dir);
            assert(name.contains(name[0]) && name.contains(name.last()));
            let dir = path_of(root, name);
            assert(dir.last() == name.last());
            let deeper = path_of(dir, "agent-transcripts"@);
            assert(deeper.last() == 's');
            let deepest = path_of(deeper, session_id);
            assert(deepest.last() == session_id.last());
            assert(path_of(deepest, file) =~= home + "/projects/"@ + name
                + "/agent-transcripts/"@ + session_id + "/"@ + session_id + ".jsonl"@);
        },
        AgentCli::Codex => {
            let root = path_of(home, "sessions"@);
            assert(root.last() == 's');
            assert(root =~= home + "/sessions"@);
            assert(path_of(root, file) =~= home + "/sessions/"@ + session_id + ".jsonl"@);
        },
    }
}

proof fn lemma_extension(name: Seq<char>, dot: int)
    requires
        0 <= dot < name.len(),
        name[dot] == '.',
        forall|i: int| dot < i < name.len() ==> #[trigger] name[i] != '.',
    ensures
        extension_dot(name) == (if dot > 0 {
            Some(dot)
        } else {
            None
        }),
    decreases name.len(),
{
    if dot < name.len() - 1 {
        assert(name[name.len() - 1] != '.');
        let rest = name.drop_last();
        assert forall|i: int| dot < i < rest.len() implies #[trigger] rest[i] != '.' by {
            assert(rest[i] == name[i]);
        }
        lemma_extension(rest, dot);
    }
}

proof fn lemma_no_extension(name: Seq<char>)
    ensures
        extension_dot(name) matches Some(dot) ==> 0 < dot < name.len() && name[dot] == '.' && (
        forall|i: int| dot < i < name.len() ==> #[trigger] name[i] != '.'),
    decreases name.len(),
{
    if name.len() > 0 && name.last() != '.' {
        lemma_no_extension(name.drop_last());
        if let Some(dot) = extension_dot(name) {
            assert forall|i: int| dot < i < name.len() implies #[trigger] name[i] != '.' by {
                if i < name.len() - 1 {
                    assert(name.drop_last()[i] == name[i]);
                }
            }
        }
    }
}

/// A search by name accepts the file of that name alone. A search by a part of the name accepts a
/// file exactly where its name ends in the extension and what stands before it, which is not
/// nothing, holds that part. A name that is no text is never accepted.
pub proof fn law_files_are_accepted_by_name(
    wanted: Seq<char>,
    needle: Seq<char>,
    name: Seq<char>,
    stem: Seq<char>,
)
    ensures
        FileRuleView::Named(wanted).accepts(Some(name)) <==> name == wanted,
        FileRuleView::JsonlContaining(needle).accepts(Some(stem + ".jsonl"@)) <==> stem.len() > 0
            && mentions(stem, needle),
        FileRuleView::JsonlContaining(needle).accepts(Some(name)) ==> name.len() > 6 && name.skip(
            name.len() - 6,
        ) == ".jsonl"@,
        !FileRuleView::Named(wanted).accepts(None),
        !FileRuleView::JsonlContaining(needle).accepts(None),
{
    reveal_strlit(".jsonl");
    reveal_strlit("jsonl");
    let whole = stem + ".jsonl"@;
    let dot = stem.len() as int;
    assert(whole[dot] == '.');
    assert forall|i: int| dot < i < whole.len() implies #[trigger] whole[i] != '.' by {
        assert(whole[i] == ".jsonl"@[i - dot]);
    }
    lemma_extension(whole, dot);
    assert(whole.skip(dot + 1) =~= "jsonl"@);
    assert(whole.take(dot) =~= stem);
    lemma_no_extension(name);
    if FileRuleView::JsonlContaining(needle).accepts(Some(name)) {
        let place = extension_dot(name)->Some_0;
        assert(name.skip(place + 1).len() == 5);
        assert(name.skip(name.len() - 6) =~= ".jsonl"@) by {
            assert forall|i: int| 0 <= i < 6 implies name.skip(name.len() - 6)[i]
                == ".jsonl"@[i] by {
                if i > 0 {
                    assert(name.skip(place + 1)[i - 1] == "jsonl"@[i - 1]);
                }
            }
        }
    }
}

/// The file that a directory is searched for is the first of its entries that is a file and is
/// accepted; there is none where no entry is.
pub proof fn law_first_file_is_taken(rule: FileRuleView, entries: Seq<DirEntryView>, at: int)
    requires
        0 <= at <= entries.len(),
        forall|i: int|
            0 <= i < at ==> (#[trigger] entries[i]).is_dir || !rule.accepts(entries[i].name),
        at < entries.len() ==> !entries[at].is_dir && rule.accepts(entries[at].name),
    ensures
        first_accepted(rule, entries) == (if at < entries.len() {
            Some(entries[at].id)
        } else {
            None
        }),
    decreases entries.len(),
{
    if entries.len() > 0 && at > 0 {
        let rest = entries.drop_first();
        assert(entries[0].is_dir || !rule.accepts(entries[0].name));
        assert forall|i: int| 0 <= i < at - 1 implies (#[trigger] rest[i]).is_dir || !rule.accepts(
            rest[i].name,
        ) by {
            assert(rest[i] == entries[i + 1]);
        }
        if at < entries.len() {
            assert(rest[at - 1] == entries[at]);
        }
        law_first_file_is_taken(rule, rest, at - 1);
    }
}

/// The directories among two rows of entries are those of the first and then those of the second; a
/// single entry is among them exactly where it is a directory.
pub proof fn law_directories_keep_their_order(
    first: Seq<DirEntryView>,
    second: Seq<DirEntryView>,
)
    ensures
        subdirs(first + second) == subdirs(first) + subdirs(second),
        first.len() == 1 && first[0].is_dir ==> subdirs(first) == seq![first[0].id],
        first.len() == 1 && !first[0].is_dir ==> subdirs(first).len() == 0,
    decreases second.len(),
{
    if second.len() == 0 {
        assert(first + second =~= first);
        assert(subdirs(first) + subdirs(second) =~= subdirs(first));
    } else {
        law_directories_keep_their_order(first, second.drop_last());
        assert((first + second).drop_last() =~= first + second.drop_last());
        assert((first + second).last() == second.last());
        assert(subdirs(first + second) =~= subdirs(first) + subdirs(second));
    }
    if first.len() == 1 {
        reveal_with_fuel(subdirs, 2);
        assert(first.drop_last().len() == 0);
    }
}

/// A directory's own files go before those below it, whatever the depth; below it, the first
/// directory in which something is found goes before the rest; and nothing is found deeper than
/// the search may go.
pub proof fn law_nearer_files_go_first(
    tree: Tree,
    rule: FileRuleView,
    id: u64,
    budget: nat,
    ids: Seq<u64>,
    more: Seq<u64>,
)
    ensures
        tree(id) is None ==> found_below(tree, rule, id, budget) is None,
        tree(id) matches Some(entries) ==> {
            &&& first_accepted(rule, entries) is Some ==> found_below(tree, rule, id, budget)
                == first_accepted(rule, entries)
            &&& first_accepted(rule, entries) is None ==> found_below(tree, rule, id, 0) is None
            &&& first_accepted(rule, entries) is None ==> found_below(tree, rule, id, budget + 1)
                == found_in_any(tree, rule, subdirs(entries), budget)
        },
        found_in_any(tree, rule, ids, budget) is Some ==> found_in_any(
            tree,
            rule,
            ids + more,
            budget,
        ) == found_in_any(tree, rule, ids, budget),
        found_in_any(tree, rule, ids, budget) is None ==> found_in_any(
            tree,
            rule,
            ids + more,
            budget,
        ) == found_in_any(tree, rule, more, budget),
        found_in_any(tree, rule, seq![id], budget) == found_below(tree, rule, id, budget),
{
    lemma_any_of_two(tree, rule, ids, more, budget);
    assert(((budget + 1) - 1) as nat == budget);
    assert(seq![id].drop_first() =~= Seq::<u64>::empty());
    assert(found_in_any(tree, rule, Seq::<u64>::empty(), budget) is None);
    assert(seq![id][0] == id);
}

proof fn lemma_any_of_two(
    tree: Tree,
    rule: FileRuleView,
    ids: Seq<u64>,
    more: Seq<u64>,
    budget: nat,
)
    ensures
        found_in_any(tree, rule, ids + more, budget) == (match found_in_any(
            tree,
            rule,
            ids,
            budget,
        ) {
            Some(file) => Some(file),
            None => found_in_any(tree, rule, more, budget),
        }),
    decreases ids.len(),
{
    if ids.len() == 0 {
        assert(ids + more =~= more);
    } else {
        lemma_any_of_two(tree, rule, ids.drop_first(), more, budget);
        assert((ids + more).drop_first() =~= ids.drop_first() + more);
        assert((ids + more)[0] == ids[0]);
    }
}

/// A session's log is looked for by its file name, two levels down for the default CLI and four for
/// Cursor; for Codex, four levels down by the session's id anywhere in the name.
pub proof fn law_log_is_looked_for_by_the_session(session_id: Seq<char>)
    ensures
        search_rule(AgentCli::Claude, session_id) == (
            FileRuleView::Named(session_id + ".jsonl"@),
            2usize,
        ),
        search_rule(AgentCli::Cursor, session_id) == (
            FileRuleView::Named(session_id + ".jsonl"@),
            4usize,
        ),
        search_rule(AgentCli::Codex, session_id) == (
            FileRuleView::JsonlContaining(session_id),
            4usize,
        ),
{
}

/// A session's log is looked for first where its CLI is expected to write it, then anywhere its CLI
/// writes, then among the run's logs and at last beside them; without a home for the CLI only the
/// last two remain.
pub proof fn law_log_places_are_tried_in_order(
    env: EnvironmentView,
    cli: AgentCli,
    run_dir: Seq<char>,
    logs_dir: Seq<char>,
    session_id: Seq<char>,
)
    ensures
        ({
            let places = log_places(env, cli, run_dir, logs_dir, session_id);
            let known = cli_home(env, cli) is Some;
            &&& places.len() == (if known {
                4nat
            } else {
                2nat
            })
            &&& known ==> {
                &&& expected_path(env, cli, run_dir, session_id) matches Some(path)
                &&& places[0] == LogPlaceView::File(path)
                &&& transcripts_root(env, cli) matches Some(top)
                &&& places[1] matches LogPlaceView::Below { root, rule, max_depth }
                &&& root == top
                &&& (rule, max_depth) == search_rule(cli, session_id)
            }
            &&& places[places.len() - 2] == LogPlaceView::File(
                path_of(logs_dir, session_id + ".jsonl"@),
            )
            &&& places[places.len() - 1] == LogPlaceView::Beside(session_id + ".jsonl"@)
        }),
{
}

} // verus!
