//! Acceptance of a task: the commit that an implementer left behind, and the checks it passes.

use vstd::prelude::*;
use vstd::string::*;

use crate::error::{refuse, refused, Error};
use crate::events::{Event, EventView, Outcome, OutcomeView};
use crate::number::{decimal, decimal_text};
use crate::remedies::{no_task, require_task, wrong_state, wrong_state_text};
use crate::task::{opt_task, Task, TaskState, TaskView};
use crate::text::{
    ascii_lowercase, blank, concat2, copy_texts, is_blank, law_line_is_what_stands_before_its_ending,
    law_lines_of_two_texts, lemma_pieces, lines, lines_of, opt_str, pieces, same, starts_with, texts,
    to_ascii_lowercase, without_carriage_return,
};

verus! {

/// How acceptance is asked for.
#[derive(Debug)]
pub enum AcceptRoute<'a> {
    /// For this reason, whatever the checks would say.
    Forced(&'a str),
    /// Only if the checks pass.
    Gate,
}

/// Why acceptance cannot be asked for in this way.
pub open spec fn accept_refusal(
    task_id: i64,
    task: Option<TaskView>,
    force: bool,
    reason: Option<Seq<char>>,
) -> Option<Seq<char>> {
    match task {
        None => Some(no_task(task_id)),
        Some(task) => match (force, reason) {
            (true, Some(reason)) => if is_blank(reason) {
                Some("supervisor: accept --force requires a non-empty --reason"@)
            } else if task.state != TaskState::CommittedUnverified || task.commit_sha is None {
                Some(wrong_state(task_id, task.state, ", not a committed unverified task"@))
            } else {
                None
            },
            (true, None) => Some("supervisor: accept --force requires a non-empty --reason"@),
            (false, Some(_)) => Some(
                "supervisor: --reason only applies with --force; accept without it runs the checks"@,
            ),
            (false, None) => None,
        },
    }
}

/// How a task is to be accepted.
pub fn check_accept<'a>(
    task_id: i64,
    task: Option<&Task>,
    force: bool,
    reason: Option<&'a str>,
) -> (r: Result<AcceptRoute<'a>, Error>)
    ensures
        match accept_refusal(task_id, opt_task(task), force, opt_str(reason)) {
            Some(message) => refused(r, message),
            None => match r {
                Ok(AcceptRoute::Forced(given)) => force && reason == Some(given),
                Ok(AcceptRoute::Gate) => !force,
                Err(_) => false,
            },
        },
{
    let task = require_task(task, task_id)?;
    match (force, reason) {
        (true, Some(reason)) => {
            if blank(reason) {
                return refuse(
                    "supervisor: accept --force requires a non-empty --reason".to_owned(),
                );
            }
            if task.state != TaskState::CommittedUnverified || task.commit_sha.is_none() {
                return refuse(
                    wrong_state_text(task_id, task.state, ", not a committed unverified task"),
                );
            }
            Ok(AcceptRoute::Forced(reason))
        },
        (true, None) => refuse(
            "supervisor: accept --force requires a non-empty --reason".to_owned(),
        ),
        (false, Some(_)) => refuse(
            "supervisor: --reason only applies with --force; accept without it runs the checks".to_owned(),
        ),
        (false, None) => Ok(AcceptRoute::Gate),
    }
}

/// What a forced acceptance is recorded as, and how it is told.
pub fn forced_acceptance(task_id: i64, reason: &str) -> (r: Outcome)
    ensures
        r@ == (OutcomeView {
            event: EventView {
                kind: "accepted"@,
                detail: "task "@ + decimal(task_id as int) + ": "@ + reason@,
            },
            line: "task "@ + decimal(task_id as int) + " accepted without the checks: "@ + reason@,
        }),
{
    let id = decimal_text(task_id);
    let detail = "task ".to_owned().concat(id.as_str()).concat(": ").concat(reason);
    let line = "task ".to_owned().concat(id.as_str()).concat(
        " accepted without the checks: ",
    ).concat(reason);
    Outcome { event: Event::new("accepted", detail), line }
}

/// Whether a commit is new on top of the base, if git answers in this way.
pub open spec fn is_new_commit(
    sha: Seq<char>,
    base_head: Seq<char>,
    exists_in_git: spec_fn(Seq<char>) -> bool,
    descends: spec_fn(Seq<char>) -> bool,
) -> bool {
    !sha.is_prefix_of(base_head) && exists_in_git(sha) && descends(sha)
}

/// The last of these commits that is new on top of the base: not the base itself, known to git,
/// and descending from the base.
pub open spec fn new_commit(
    shas: Seq<Seq<char>>,
    base_head: Seq<char>,
    exists_in_git: spec_fn(Seq<char>) -> bool,
    descends: spec_fn(Seq<char>) -> bool,
) -> Option<Seq<char>>
    decreases shas.len(),
{
    if shas.len() == 0 {
        None
    } else if is_new_commit(shas.last(), base_head, exists_in_git, descends) {
        Some(shas.last())
    } else {
        new_commit(shas.drop_last(), base_head, exists_in_git, descends)
    }
}

/// What a search for a new commit wants to know next.
#[derive(Clone, Copy, Debug, PartialEq, Eq, Structural)]
pub enum CommitQuestion {
    /// Does git know this commit?
    Exists,
    /// Does this commit descend from the base?
    Descends,
}

/// A search for the commit that an implementer made, among those that its log names.
#[derive(Debug)]
pub struct CommitSearch {
    shas: Vec<String>,
    base_head: String,
    question: CommitQuestion,
}

pub struct CommitSearchView {
    /// The commits that have not been ruled out, oldest first.
    pub shas: Seq<Seq<char>>,
    pub base_head: Seq<char>,
    pub question: CommitQuestion,
}

impl View for CommitSearch {
    type V = CommitSearchView;

    closed spec fn view(&self) -> CommitSearchView {
        CommitSearchView {
            shas: texts(self.shas@),
            base_head: self.base_head@,
            question: self.question,
        }
    }
}

impl CommitSearchView {
    /// The commit that this search asks about.
    pub open spec fn candidate(self) -> Seq<char> {
        self.shas.last()
    }

    /// Whether this search asks about a commit that is worth asking about.
    pub open spec fn well_formed(self) -> bool {
        self.shas.len() > 0 && !self.candidate().is_prefix_of(self.base_head)
    }

    /// What this search finds, if git answers in this way.
    pub open spec fn outcome(
        self,
        exists_in_git: spec_fn(Seq<char>) -> bool,
        descends: spec_fn(Seq<char>) -> bool,
    ) -> Option<Seq<char>> {
        if self.question == CommitQuestion::Descends && descends(self.candidate()) {
            Some(self.candidate())
        } else if self.question == CommitQuestion::Descends {
            new_commit(self.shas.drop_last(), self.base_head, exists_in_git, descends)
        } else {
            new_commit(self.shas, self.base_head, exists_in_git, descends)
        }
    }
}

/// These commits without those at the end that the base's name begins with.
pub open spec fn without_base(shas: Seq<Seq<char>>, base_head: Seq<char>) -> Seq<Seq<char>>
    decreases shas.len(),
{
    if shas.len() > 0 && shas.last().is_prefix_of(base_head) {
        without_base(shas.drop_last(), base_head)
    } else {
        shas
    }
}

/// The search over these commits: none where all of them are the base.
pub open spec fn search_over(shas: Seq<Seq<char>>, base_head: Seq<char>) -> Option<
    CommitSearchView,
> {
    let left = without_base(shas, base_head);
    if left.len() == 0 {
        None
    } else {
        Some(CommitSearchView { shas: left, base_head, question: CommitQuestion::Exists })
    }
}

proof fn lemma_without_base(
    shas: Seq<Seq<char>>,
    base_head: Seq<char>,
    exists_in_git: spec_fn(Seq<char>) -> bool,
    descends: spec_fn(Seq<char>) -> bool,
)
    ensures
        new_commit(without_base(shas, base_head), base_head, exists_in_git, descends) == new_commit(
            shas,
            base_head,
            exists_in_git,
            descends,
        ),
        without_base(shas, base_head).len() <= shas.len(),
        without_base(shas, base_head).len() > 0 ==> !without_base(
            shas,
            base_head,
        ).last().is_prefix_of(base_head),
    decreases shas.len(),
{
    if shas.len() > 0 && shas.last().is_prefix_of(base_head) {
        lemma_without_base(shas.drop_last(), base_head, exists_in_git, descends);
    }
}

/// Where an answered question leads.
#[derive(Debug)]
pub enum CommitStep {
    /// To the commit.
    Found(String),
    /// To another question.
    Ask(CommitSearch),
    /// To no commit.
    Nothing,
}

pub enum CommitStepView {
    Found(Seq<char>),
    Ask(CommitSearchView),
    Nothing,
}

impl View for CommitStep {
    type V = CommitStepView;

    open spec fn view(&self) -> CommitStepView {
        match self {
            CommitStep::Found(sha) => CommitStepView::Found(sha@),
            CommitStep::Ask(search) => CommitStepView::Ask(search@),
            CommitStep::Nothing => CommitStepView::Nothing,
        }
    }
}

/// The step to a search over these commits.
pub open spec fn step_over(shas: Seq<Seq<char>>, base_head: Seq<char>) -> CommitStepView {
    match search_over(shas, base_head) {
        Some(search) => CommitStepView::Ask(search),
        None => CommitStepView::Nothing,
    }
}

impl CommitStepView {
    /// What is found from here, if git answers in this way.
    pub open spec fn outcome(
        self,
        exists_in_git: spec_fn(Seq<char>) -> bool,
        descends: spec_fn(Seq<char>) -> bool,
    ) -> Option<Seq<char>> {
        match self {
            CommitStepView::Found(sha) => Some(sha),
            CommitStepView::Ask(search) => search.outcome(exists_in_git, descends),
            CommitStepView::Nothing => None,
        }
    }
}

impl CommitSearchView {
    /// Where an answer to this search's question leads.
    pub open spec fn answered(self, yes: bool) -> CommitStepView {
        match (self.question, yes) {
            (CommitQuestion::Exists, true) => CommitStepView::Ask(
                CommitSearchView { question: CommitQuestion::Descends, ..self },
            ),
            (CommitQuestion::Descends, true) => CommitStepView::Found(self.candidate()),
            (_, false) => step_over(self.shas.drop_last(), self.base_head),
        }
    }
}

fn ask_over(shas: Vec<String>, base_head: String) -> (r: CommitStep)
    ensures
        r@ == step_over(texts(shas@), base_head@),
{
    let mut left = shas;
    let ghost all = texts(shas@);
    loop
        invariant
            all == texts(shas@),
            texts(left@).len() <= all.len(),
            without_base(texts(left@), base_head@) == without_base(all, base_head@),
        decreases left@.len(),
    {
        let size = left.len();
        if size == 0 {
            return CommitStep::Nothing;
        }
        assert(texts(left@).last() == left@.last()@);
        if !starts_with(base_head.as_str(), left[size - 1].as_str()) {
            return CommitStep::Ask(
                CommitSearch { shas: left, base_head, question: CommitQuestion::Exists },
            );
        }
        let ghost before = left@;
        let _ = left.pop();
        assert(texts(left@) == texts(before).drop_last());
    }
}

/// The first step of the search for the commit that an implementer made since its base. Where the
/// base is not known there is nothing to find.
pub fn new_commit_for(shas: &Vec<String>, base_head: Option<&str>) -> (r: CommitStep)
    ensures
        r@ == match opt_str(base_head) {
            Some(base_head) => step_over(texts(shas@), base_head),
            None => CommitStepView::Nothing,
        },
{
    match base_head {
        Some(base_head) => ask_over(copy_texts(shas), base_head.to_owned()),
        None => CommitStep::Nothing,
    }
}

impl CommitSearch {
    #[verifier::type_invariant]
    spec fn well_formed(self) -> bool {
        self@.shas.len() > 0 && !self@.shas.last().is_prefix_of(self@.base_head)
    }

    /// What this search asks.
    pub fn question(&self) -> (r: CommitQuestion)
        ensures
            r == self@.question,
    {
        self.question
    }

    /// The commit that this search asks about.
    pub fn candidate(&self) -> (r: &str)
        ensures
            r@ == self@.candidate(),
            self@.well_formed(),
    {
        proof {
            use_type_invariant(self);
        }
        let size = self.shas.len();
        assert(texts(self.shas@).len() == size);
        self.shas[size - 1].as_str()
    }

    /// The base that the commit is to descend from.
    pub fn base_head(&self) -> (r: &str)
        ensures
            r@ == self@.base_head,
    {
        self.base_head.as_str()
    }

    /// Where this answer leads.
    pub fn answered(self, yes: bool) -> (r: CommitStep)
        ensures
            r@ == self@.answered(yes),
    {
        proof {
            use_type_invariant(&self);
        }
        let ghost before = self@;
        let CommitSearch { shas, base_head, question } = self;
        let size = shas.len();
        assert(texts(shas@).len() == size);
        if yes {
            match question {
                CommitQuestion::Exists => CommitStep::Ask(
                    CommitSearch { shas, base_head, question: CommitQuestion::Descends },
                ),
                CommitQuestion::Descends => {
                    let sha = shas[size - 1].clone();
                    CommitStep::Found(sha)
                },
            }
        } else {
            let mut shas = shas;
            let ghost all = shas@;
            let _ = shas.pop();
            assert(texts(shas@) == texts(all).drop_last());
            ask_over(shas, base_head)
        }
    }
}

/// A search that is begun finds the last new commit of the log, if git's answers are told to it.
pub proof fn law_search_begins_with_all_commits(
    shas: Seq<Seq<char>>,
    base_head: Seq<char>,
    exists_in_git: spec_fn(Seq<char>) -> bool,
    descends: spec_fn(Seq<char>) -> bool,
)
    ensures
        step_over(shas, base_head).outcome(exists_in_git, descends) == new_commit(
            shas,
            base_head,
            exists_in_git,
            descends,
        ),
{
    lemma_without_base(shas, base_head, exists_in_git, descends);
}

/// A truthful answer does not change what a search finds, and brings its end nearer.
pub proof fn law_answer_keeps_what_is_found(
    search: CommitSearchView,
    exists_in_git: spec_fn(Seq<char>) -> bool,
    descends: spec_fn(Seq<char>) -> bool,
)
    requires
        search.well_formed(),
        search.question == CommitQuestion::Descends ==> exists_in_git(search.candidate()),
    ensures
        ({
            let yes = match search.question {
                CommitQuestion::Exists => exists_in_git(search.candidate()),
                CommitQuestion::Descends => descends(search.candidate()),
            };
            let step = search.answered(yes);
            &&& step.outcome(exists_in_git, descends) == search.outcome(exists_in_git, descends)
            &&& step matches CommitStepView::Ask(next) ==> {
                &&& next.well_formed()
                &&& next.question == CommitQuestion::Descends ==> exists_in_git(next.candidate())
                &&& next.shas.len() < search.shas.len() || (next.shas == search.shas
                    && search.question == CommitQuestion::Exists && next.question
                    == CommitQuestion::Descends)
            }
        }),
{
    lemma_without_base(
        search.shas.drop_last(),
        search.base_head,
        exists_in_git,
        descends,
    );
}

/// What a search finds is one of the log's commits and new, and every commit that the log names
/// after it is not. Where it finds nothing, none of them is new.
pub proof fn law_last_new_commit_is_found(
    shas: Seq<Seq<char>>,
    base_head: Seq<char>,
    exists_in_git: spec_fn(Seq<char>) -> bool,
    descends: spec_fn(Seq<char>) -> bool,
)
    ensures
        match new_commit(shas, base_head, exists_in_git, descends) {
            Some(sha) => exists|i: int|
                {
                    &&& 0 <= i < shas.len()
                    &&& #[trigger] shas[i] == sha
                    &&& is_new_commit(sha, base_head, exists_in_git, descends)
                    &&& forall|j: int|
                        i < j < shas.len() ==> !is_new_commit(
                            #[trigger] shas[j],
                            base_head,
                            exists_in_git,
                            descends,
                        )
                },
            None => forall|j: int|
                0 <= j < shas.len() ==> !is_new_commit(
                    #[trigger] shas[j],
                    base_head,
                    exists_in_git,
                    descends,
                ),
        },
    decreases shas.len(),
{
    if shas.len() > 0 {
        let last = shas.len() - 1;
        if is_new_commit(shas.last(), base_head, exists_in_git, descends) {
            assert(shas[last] == shas.last());
        } else {
            let rest = shas.drop_last();
            law_last_new_commit_is_found(rest, base_head, exists_in_git, descends);
            assert forall|j: int| 0 <= j < shas.len() && (j < last ==> !is_new_commit(
                rest[j],
                base_head,
                exists_in_git,
                descends,
            )) implies !is_new_commit(#[trigger] shas[j], base_head, exists_in_git, descends) by {
                if j < last {
                    assert(rest[j] == shas[j]);
                }
            }
            match new_commit(rest, base_head, exists_in_git, descends) {
                Some(sha) => {
                    let i = choose|i: int|
                        {
                            &&& 0 <= i < rest.len()
                            &&& #[trigger] rest[i] == sha
                            &&& is_new_commit(sha, base_head, exists_in_git, descends)
                            &&& forall|j: int|
                                i < j < rest.len() ==> !is_new_commit(
                                    #[trigger] rest[j],
                                    base_head,
                                    exists_in_git,
                                    descends,
                                )
                        };
                    assert(shas[i] == sha);
                },
                None => {},
            }
        }
    }
}

/// Whether the tree's head moved on from the base and left the tree clean.
pub open spec fn advanced_cleanly(
    base_head: Option<Seq<char>>,
    head: Seq<char>,
    descends: bool,
    status: Seq<char>,
) -> bool {
    base_head is Some && head.len() > 0 && base_head != Some(head) && descends && status.len() == 0
}

/// Whether the tree's head moved on from the base and left the tree clean.
pub fn head_advanced_cleanly(
    base_head: Option<&str>,
    head: &str,
    descends: bool,
    status: &str,
) -> (r: bool)
    ensures
        r == advanced_cleanly(opt_str(base_head), head@, descends, status@),
{
    match base_head {
        Some(base_head) => !head.is_empty() && !same(head, base_head) && descends
            && status.is_empty(),
        None => false,
    }
}

/// Whether this line credits someone besides the author.
pub open spec fn is_attribution(line: Seq<char>, default: Seq<char>) -> bool {
    "co-authored-by:"@.is_prefix_of(ascii_lowercase(line)) || (default
        + "-session:"@).is_prefix_of(ascii_lowercase(line))
}

/// Whether a commit message credits someone besides the author.
pub open spec fn attributed(message: Seq<char>, default: Seq<char>) -> bool {
    exists|i: int|
        0 <= i < lines_of(message).len() && is_attribution(
            #[trigger] lines_of(message)[i],
            default,
        )
}

/// Whether a commit message credits someone besides the author.
pub fn has_attribution_trailer(message: &str, default: &str) -> (r: bool)
    ensures
        r == attributed(message@, default@),
{
    let parts = lines(message);
    let ghost all = lines_of(message@);
    let mut i: usize = 0;
    while i < parts.len()
        invariant
            i <= parts@.len(),
            all == lines_of(message@),
            texts(parts@) == all,
            forall|j: int| 0 <= j < i ==> !is_attribution(#[trigger] all[j], default@),
        decreases parts.len() - i,
    {
        let lowercase = to_ascii_lowercase(parts[i].as_str());
        assert(all[i as int] == texts(parts@)[i as int]);
        assert(all[i as int] == parts@[i as int]@);
        if starts_with(lowercase.as_str(), "co-authored-by:") || starts_with(
            lowercase.as_str(),
            concat2(default, "-session:").as_str(),
        ) {
            return true;
        }
        i += 1;
    }
    assert(texts(parts@).len() == parts@.len());
    false
}

/// What git says of a commit: its full name and message, where it knows the commit.
#[derive(Debug)]
pub struct CommitShown {
    pub sha: String,
    pub known: bool,
    /// The full name on a line of its own, then the message.
    pub text: String,
    /// The name of the tree's head.
    pub head: String,
}

pub struct CommitShownView {
    pub sha: Seq<char>,
    pub known: bool,
    pub text: Seq<char>,
    pub head: Seq<char>,
}

impl View for CommitShown {
    type V = CommitShownView;

    open spec fn view(&self) -> CommitShownView {
        CommitShownView {
            sha: self.sha@,
            known: self.known,
            text: self.text@,
            head: self.head@,
        }
    }
}

pub open spec fn opt_shown(shown: Option<CommitShown>) -> Option<CommitShownView> {
    match shown {
        Some(shown) => Some(shown@),
        None => None,
    }
}

impl CommitShownView {
    /// The full name that git gives this commit.
    pub open spec fn full_sha(self) -> Seq<char> {
        if lines_of(self.text).len() == 0 {
            Seq::empty()
        } else {
            lines_of(self.text)[0]
        }
    }

    /// What keeps this commit from being accepted.
    pub open spec fn problems(self, default: Seq<char>) -> Seq<Seq<char>> {
        if !self.known {
            seq!["commit "@ + self.sha + " not in git"@]
        } else {
            (if attributed(self.text, default) {
                seq!["commit carries an attribution trailer"@]
            } else {
                Seq::<Seq<char>>::empty()
            }) + (if self.full_sha().is_prefix_of(self.head) {
                Seq::<Seq<char>>::empty()
            } else {
                seq!["commit is not HEAD"@]
            })
        }
    }
}

/// What keeps a task from being accepted: its commit, as git shows it, and the tree's status.
pub open spec fn gate_problems(
    shown: Option<CommitShownView>,
    status: Seq<char>,
    default: Seq<char>,
) -> Seq<Seq<char>> {
    (match shown {
        Some(shown) => shown.problems(default),
        None => seq!["no commit found in the implementer's log"@],
    }) + (if status.len() == 0 {
        Seq::<Seq<char>>::empty()
    } else {
        seq!["tree is dirty"@]
    })
}

/// The checks let a task through exactly when its commit is known to git, credits nobody else and
/// is the head of a clean tree.
pub proof fn law_gate_opens_only_for_a_clean_head(
    shown: Option<CommitShownView>,
    status: Seq<char>,
    default: Seq<char>,
)
    ensures
        gate_problems(shown, status, default).len() == 0 <==> {
            &&& shown matches Some(shown)
            &&& shown.known
            &&& !attributed(shown.text, default)
            &&& shown.full_sha().is_prefix_of(shown.head)
            &&& status.len() == 0
        },
{
}

fn full_sha(text: &str) -> (r: String)
    ensures
        r@ == (if lines_of(text@).len() == 0 {
            Seq::<char>::empty()
        } else {
            lines_of(text@)[0]
        }),
{
    let parts = lines(text);
    assert(texts(parts@).len() == parts@.len());
    if parts.len() == 0 {
        String::new()
    } else {
        assert(texts(parts@)[0] == parts@[0]@);
        parts[0].clone()
    }
}

/// What keeps a task from being accepted.
pub fn find_gate_problems(
    shown: &Option<CommitShown>,
    status: &str,
    default: &str,
) -> (r: Vec<String>)
    ensures
        texts(r@) == gate_problems(opt_shown(*shown), status@, default@),
{
    let mut problems: Vec<String> = Vec::new();
    match shown {
        Some(shown) => {
            if !shown.known {
                problems.push("commit ".to_owned().concat(shown.sha.as_str()).concat(" not in git"));
            } else {
                if has_attribution_trailer(shown.text.as_str(), default) {
                    problems.push("commit carries an attribution trailer".to_owned());
                }
                let full = full_sha(shown.text.as_str());
                if !starts_with(shown.head.as_str(), full.as_str()) {
                    problems.push("commit is not HEAD".to_owned());
                }
            }
            assert(texts(problems@) == shown@.problems(default@));
        },
        None => {
            problems.push("no commit found in the implementer's log".to_owned());
        },
    }
    let ghost before = texts(problems@);
    if !status.is_empty() {
        problems.push("tree is dirty".to_owned());
        assert(texts(problems@) == before.push("tree is dirty"@));
    }
    problems
}

/// What the checks do with a task.
#[derive(Debug)]
pub enum GateVerdict {
    /// The task is accepted for this reason, and this line tells of it.
    Accepted { sha: String, reason: String, line: String },
    /// The task stays as it is, and these lines tell why.
    Refused { lines: Vec<String> },
}

/// The lines that tell why a task is not accepted.
pub open spec fn refusal_lines(task_id: i64, problems: Seq<Seq<char>>) -> Seq<Seq<char>> {
    seq!["task "@ + decimal(task_id as int) + " NOT accepted:"@] + problems.map_values(
        |problem: Seq<char>| " - "@ + problem,
    )
}

/// What the checks do with a task, given its commit as git shows it and the tree's status.
pub fn pass_the_gate(
    task_id: i64,
    shown: &Option<CommitShown>,
    status: &str,
    default: &str,
) -> (r: GateVerdict)
    ensures
        match r {
            GateVerdict::Accepted { sha, reason, line } => {
                &&& gate_problems(opt_shown(*shown), status@, default@).len() == 0
                &&& opt_shown(*shown) matches Some(commit)
                &&& sha@ == commit.sha
                &&& reason@ == "checks passed at "@ + commit.sha
                &&& line@ == "task "@ + decimal(task_id as int) + " accepted: checks passed at "@
                    + commit.sha
            },
            GateVerdict::Refused { lines } => {
                &&& gate_problems(opt_shown(*shown), status@, default@).len() > 0
                &&& texts(lines@) == refusal_lines(
                    task_id,
                    gate_problems(opt_shown(*shown), status@, default@),
                )
            },
        },
{
    let problems = find_gate_problems(shown, status, default);
    assert(texts(problems@).len() == problems@.len());
    let id = decimal_text(task_id);
    if problems.len() == 0 {
        if let Some(commit) = shown {
            let sha = commit.sha.clone();
            let reason = "checks passed at ".to_owned().concat(sha.as_str());
            let line = "task ".to_owned().concat(id.as_str()).concat(
                " accepted: checks passed at ",
            ).concat(sha.as_str());
            return GateVerdict::Accepted { sha, reason, line };
        }
    }
    let ghost all = texts(problems@);
    let mut lines: Vec<String> = Vec::new();
    lines.push("task ".to_owned().concat(id.as_str()).concat(" NOT accepted:"));
    let mut i: usize = 0;
    assert(texts(lines@) == refusal_lines(task_id, all.take(0)));
    while i < problems.len()
        invariant
            i <= problems@.len(),
            all == texts(problems@),
            texts(lines@) == refusal_lines(task_id, all.take(i as int)),
        decreases problems.len() - i,
    {
        let ghost before = lines@;
        lines.push(" - ".to_owned().concat(problems[i].as_str()));
        assert(all[i as int] == problems@[i as int]@);
        assert(texts(lines@) == texts(before).push(" - "@ + all[i as int]));
        assert(all.take(i + 1) == all.take(i as int).push(all[i as int]));
        assert(texts(lines@) == refusal_lines(task_id, all.take(i + 1)));
        i += 1;
    }
    assert(all.take(all.len() as int) == all);
    GateVerdict::Refused { lines }
}

/// What has to be found out before a task can be judged.
#[derive(Clone, Copy, Debug, PartialEq, Eq, Structural)]
pub enum GateStage {
    /// Which commit the implementer's log names.
    ReadLog,
    /// Whether the tree's head moved on although the log names no commit.
    AskHead,
    /// Which commit the log names after a moment in which it could catch up.
    ReadLogAgain,
    /// Nothing more.
    Judge,
}

/// Where acceptance begins: a recorded commit needs no log.
pub fn gate_begins(recorded: Option<&str>) -> (r: GateStage)
    ensures
        r == if recorded is Some {
            GateStage::Judge
        } else {
            GateStage::ReadLog
        },
{
    if recorded.is_some() {
        GateStage::Judge
    } else {
        GateStage::ReadLog
    }
}

/// Where acceptance goes once this stage's question is answered by yes or no.
pub open spec fn gate_after(stage: GateStage, yes: bool) -> GateStage {
    match (stage, yes) {
        (GateStage::ReadLog, false) => GateStage::AskHead,
        (GateStage::AskHead, true) => GateStage::ReadLogAgain,
        _ => GateStage::Judge,
    }
}

/// Where acceptance goes once this stage's question is answered by yes or no.
pub fn gate_next(stage: GateStage, yes: bool) -> (r: GateStage)
    ensures
        r == gate_after(stage, yes),
{
    match (stage, yes) {
        (GateStage::ReadLog, false) => GateStage::AskHead,
        (GateStage::AskHead, true) => GateStage::ReadLogAgain,
        _ => GateStage::Judge,
    }
}

/// Whatever the answers, a task is judged after at most three questions, and the log is read again
/// only where it named no commit and the head had moved on cleanly.
pub proof fn law_gate_reads_the_log_at_most_twice(log: bool, advanced: bool, again: bool)
    ensures
        gate_after(GateStage::ReadLog, log) == GateStage::Judge <==> log,
        gate_after(gate_after(GateStage::ReadLog, log), advanced) == GateStage::ReadLogAgain <==> !log
            && advanced,
        gate_after(gate_after(gate_after(GateStage::ReadLog, log), advanced), again)
            == GateStage::Judge,
{
}

/// Two texts, of which the first is complete, credit someone exactly where one of them does: no
/// line that stands before or after a credit takes it back, and none makes one up.
pub proof fn law_credit_is_kept_among_other_lines(
    first: Seq<char>,
    second: Seq<char>,
    default: Seq<char>,
)
    requires
        first.len() == 0 || first.last() == '\n',
    ensures
        attributed(first + second, default) <==> attributed(first, default) || attributed(
            second,
            default,
        ),
{
    law_lines_of_two_texts(first, second);
    let one = lines_of(first);
    let two = lines_of(second);
    let both = lines_of(first + second);
    if attributed(first, default) {
        let i = choose|i: int| 0 <= i < one.len() && is_attribution(#[trigger] one[i], default);
        assert(both[i] == one[i]);
    }
    if attributed(second, default) {
        let i = choose|i: int| 0 <= i < two.len() && is_attribution(#[trigger] two[i], default);
        assert(both[one.len() + i] == two[i]);
    }
    if attributed(first + second, default) {
        let i = choose|i: int| 0 <= i < both.len() && is_attribution(#[trigger] both[i], default);
        if i < one.len() {
            assert(both[i] == one[i]);
        } else {
            assert(both[i] == two[i - one.len()]);
        }
    }
}

proof fn lemma_attribution(line: Seq<char>, word: Seq<char>)
    ensures
        word.is_prefix_of(ascii_lowercase(line)) <==> {
            &&& word.len() <= line.len()
            &&& forall|k: int|
                0 <= k < word.len() ==> (#[trigger] word[k]) as int == (if 65 <= line[k] as int
                    <= 90 {
                    line[k] as int + 32
                } else {
                    line[k] as int
                })
        },
{
    let lowercase = ascii_lowercase(line);
    if word.is_prefix_of(lowercase) {
        assert forall|k: int| 0 <= k < word.len() implies (#[trigger] word[k]) as int == (if 65
            <= line[k] as int <= 90 {
            line[k] as int + 32
        } else {
            line[k] as int
        }) by {
            assert(lowercase.subrange(0, word.len() as int)[k] == word[k]);
            assert(lowercase[k] == word[k]);
        }
    }
    if word.len() <= line.len() && (forall|k: int|
        0 <= k < word.len() ==> (#[trigger] word[k]) as int == (if 65 <= line[k] as int <= 90 {
            line[k] as int + 32
        } else {
            line[k] as int
        })) {
        assert forall|k: int| 0 <= k < word.len() implies #[trigger] word[k] == lowercase.subrange(
            0,
            word.len() as int,
        )[k] by {
            assert(lowercase[k] as int == word[k] as int);
        }
        assert(word =~= lowercase.subrange(0, word.len() as int));
    }
}

/// A single line credits someone exactly where it begins with one of the two trailers, each capital
/// of ASCII read as its small letter. It does so with a line ending behind it and without.
#[verifier::rlimit(40)]
pub proof fn law_line_credits_by_how_it_begins(line: Seq<char>, default: Seq<char>)
    requires
        !line.contains('\n'),
    ensures
        attributed(line, default) <==> {
            ||| {
                &&& "co-authored-by:"@.len() <= line.len()
                &&& forall|k: int|
                    0 <= k < "co-authored-by:"@.len() ==> (#[trigger] "co-authored-by:"@[k]) as int
                        == (if 65 <= line[k] as int <= 90 {
                        line[k] as int + 32
                    } else {
                        line[k] as int
                    })
            }
            ||| {
                &&& (default + "-session:"@).len() <= line.len()
                &&& forall|k: int|
                    0 <= k < (default + "-session:"@).len() ==> (#[trigger] (default
                        + "-session:"@)[k]) as int == (if 65 <= line[k] as int <= 90 {
                        line[k] as int + 32
                    } else {
                        line[k] as int
                    })
            }
        },
        attributed(line.push('\n'), default) <==> attributed(line, default),
{
    reveal_strlit("co-authored-by:");
    reveal_strlit("-session:");
    let one = "co-authored-by:"@;
    let two = default + "-session:"@;
    lemma_attribution(line, one);
    lemma_attribution(line, two);
    law_line_is_what_stands_before_its_ending(line);
    if line.len() > 0 {
        assert(lines_of(line)[0] == line);
    } else {
        assert(one.len() > 0 && two.len() > 0);
    }
    assert(attributed(line, default) <==> is_attribution(line, default));
    if line.len() > 0 && line.last() == '\r' {
        let bare = line.drop_last();
        assert(lines_of(line.push('\n'))[0] == bare);
        lemma_attribution(bare, one);
        lemma_attribution(bare, two);
        assert(one[one.len() - 1] == ':');
        assert(two[two.len() - 1] == ':');
        assert(is_attribution(bare, default) <==> is_attribution(line, default)) by {
            assert forall|k: int| 0 <= k < bare.len() implies bare[k] == line[k] by {}
            assert(line[line.len() - 1] == '\r');
        }
    } else {
        assert(lines_of(line.push('\n'))[0] == line);
    }
}

/// A message that holds, among whatever other lines, one that begins with one of the two trailers,
/// capitals of ASCII read as small letters, credits someone, and the checks refuse its commit.
#[verifier::rlimit(40)]
pub proof fn law_credit_on_any_line_is_refused(
    before: Seq<char>,
    line: Seq<char>,
    after: Seq<char>,
    word: Seq<char>,
    default: Seq<char>,
    shown: CommitShownView,
    status: Seq<char>,
)
    requires
        before.len() == 0 || before.last() == '\n',
        !line.contains('\n'),
        after.len() == 0 || after[0] == '\n',
        word == "co-authored-by:"@ || word == default + "-session:"@,
        word.len() <= line.len(),
        forall|k: int|
            0 <= k < word.len() ==> (#[trigger] word[k]) as int == (if 65 <= line[k] as int <= 90 {
                line[k] as int + 32
            } else {
                line[k] as int
            }),
        shown.known,
        shown.text == before + line + after,
    ensures
        attributed(before + line + after, default),
        gate_problems(Some(shown), status, default).contains(
            "commit carries an attribution trailer"@,
        ),
{
    lemma_attribution(line, word);
    law_line_credits_by_how_it_begins(line, default);
    reveal_strlit("co-authored-by:");
    reveal_strlit("-session:");
    law_line_is_what_stands_before_its_ending(line);
    assert(lines_of(line)[0] == line);
    assert(is_attribution(line, default));
    assert(attributed(line, default));
    if after.len() == 0 {
        assert(before + line + after =~= before + line);
    } else {
        let rest = after.drop_first();
        assert(before + line + after =~= before + (line.push('\n') + rest));
        law_credit_is_kept_among_other_lines(line.push('\n'), rest, default);
        law_credit_is_kept_among_other_lines(before, line.push('\n') + rest, default);
    }
    law_credit_is_kept_among_other_lines(before, line, default);
    let problems = gate_problems(Some(shown), status, default);
    assert(problems[0] == "commit carries an attribution trailer"@);
}

/// Each thing that keeps a commit from being accepted is told where it holds and nowhere else. The
/// commit's full name is the first line of what git shows of it.
#[verifier::rlimit(40)]
pub proof fn law_each_problem_is_told(
    shown: CommitShownView,
    name: Seq<char>,
    message: Seq<char>,
    status: Seq<char>,
    default: Seq<char>,
)
    requires
        !name.contains('\n'),
        !name.contains('\r'),
        shown.text == name.push('\n') + message,
    ensures
        shown.full_sha() == name,
        gate_problems(Some(shown), status, default).contains("tree is dirty"@) <==> status.len()
            > 0,
        shown.known ==> {
            &&& gate_problems(Some(shown), status, default).contains(
                "commit carries an attribution trailer"@,
            ) <==> attributed(shown.text, default)
            &&& gate_problems(Some(shown), status, default).contains("commit is not HEAD"@) <==> !(
            name.len() <= shown.head.len() && shown.head.take(name.len() as int) == name)
        },
        !shown.known ==> gate_problems(Some(shown), status, default).contains(
            "commit "@ + shown.sha + " not in git"@,
        ),
        gate_problems(None, status, default).contains("no commit found in the implementer's log"@),
{
    reveal_strlit("tree is dirty");
    reveal_strlit("commit carries an attribution trailer");
    reveal_strlit("commit is not HEAD");
    reveal_strlit("commit ");
    reveal_strlit(" not in git");
    law_lines_of_two_texts(name.push('\n'), message);
    if name.len() > 0 {
        assert(name.contains(name.last()));
    }
    law_line_is_what_stands_before_its_ending(name);
    assert(lines_of(shown.text)[0] == name);
    assert("tree is dirty"@[0] == 't');
    assert("commit "@[0] == 'c');
    assert("commit carries an attribution trailer"@[7] == 'c');
    assert("commit is not HEAD"@[7] == 'i');
    assert(("commit "@ + shown.sha + " not in git"@)[0] == 'c');
    let problems = gate_problems(Some(shown), status, default);
    let first = shown.problems(default);
    assert(name.is_prefix_of(shown.head) <==> name.len() <= shown.head.len() && shown.head.take(
        name.len() as int,
    ) == name);
    if status.len() > 0 {
        assert(problems[first.len() as int] == "tree is dirty"@);
    }
    if shown.known {
        if attributed(shown.text, default) {
            assert(problems[0] == "commit carries an attribution trailer"@);
        }
        if !name.is_prefix_of(shown.head) {
            assert(problems[first.len() - 1] == "commit is not HEAD"@);
        }
    } else {
        assert(problems[0] == "commit "@ + shown.sha + " not in git"@);
    }
    assert(gate_problems(None, status, default)[0] == "no commit found in the implementer's log"@);
}

/// Acceptance can be asked for only of a task that is known. By force, only of one whose commit is
/// recorded and not yet accepted, and for a reason that is not blank; otherwise only without one.
pub proof fn law_acceptance_is_asked_for_rightly(
    task_id: i64,
    task: Option<TaskView>,
    force: bool,
    reason: Option<Seq<char>>,
)
    ensures
        task is None ==> accept_refusal(task_id, task, force, reason) is Some,
        task matches Some(task) ==> {
            &&& force ==> (accept_refusal(task_id, Some(task), force, reason) is None <==> {
                &&& reason is Some
                &&& !is_blank(reason->Some_0)
                &&& task.state == TaskState::CommittedUnverified
                &&& task.commit_sha is Some
            })
            &&& !force ==> (accept_refusal(task_id, Some(task), force, reason) is None <==> reason
                is None)
        },
{
}

/// A commit that a search finds is named in the log, is none that the base's name begins with, is
/// known to git and descends from the base; whatever the log names after it fails in one of these.
pub proof fn law_found_commit_is_the_last_that_is_new(
    shas: Seq<Seq<char>>,
    base_head: Seq<char>,
    exists_in_git: spec_fn(Seq<char>) -> bool,
    descends: spec_fn(Seq<char>) -> bool,
)
    ensures
        match step_over(shas, base_head).outcome(exists_in_git, descends) {
            Some(sha) => exists|i: int|
                {
                    &&& 0 <= i < shas.len()
                    &&& #[trigger] shas[i] == sha
                    &&& !sha.is_prefix_of(base_head)
                    &&& exists_in_git(sha)
                    &&& descends(sha)
                    &&& forall|j: int|
                        i < j < shas.len() ==> {
                            ||| (#[trigger] shas[j]).is_prefix_of(base_head)
                            ||| !exists_in_git(shas[j])
                            ||| !descends(shas[j])
                        }
                },
            None => forall|j: int|
                0 <= j < shas.len() ==> {
                    ||| (#[trigger] shas[j]).is_prefix_of(base_head)
                    ||| !exists_in_git(shas[j])
                    ||| !descends(shas[j])
                },
        },
{
    law_search_begins_with_all_commits(shas, base_head, exists_in_git, descends);
    law_last_new_commit_is_found(shas, base_head, exists_in_git, descends);
}

/// A search finds a commit only once git says that it descends from the base, and then the commit
/// it asked about. A commit that git knows is asked about once more; one that fails is put aside.
pub proof fn law_search_finds_what_it_asked_about(search: CommitSearchView, yes: bool)
    requires
        search.shas.len() > 0,
    ensures
        search.answered(yes) is Found <==> yes && search.question == CommitQuestion::Descends,
        search.answered(yes) matches CommitStepView::Found(sha) ==> sha == search.shas.last(),
        yes && search.question == CommitQuestion::Exists ==> (search.answered(yes) matches
            CommitStepView::Ask(next) && next.shas == search.shas && next.question
            == CommitQuestion::Descends),
        !yes ==> (search.answered(yes) matches CommitStepView::Ask(next) ==> next.question
            == CommitQuestion::Exists && next.shas.is_prefix_of(search.shas.drop_last())),
{
    lemma_without_base_is_prefix(search.shas.drop_last(), search.base_head);
}

proof fn lemma_without_base_is_prefix(shas: Seq<Seq<char>>, base_head: Seq<char>)
    ensures
        without_base(shas, base_head).is_prefix_of(shas),
    decreases shas.len(),
{
    if shas.len() > 0 && shas.last().is_prefix_of(base_head) {
        lemma_without_base_is_prefix(shas.drop_last(), base_head);
        let less = without_base(shas.drop_last(), base_head);
        assert(less =~= shas.subrange(0, less.len() as int)) by {
            assert(shas.drop_last().subrange(0, less.len() as int) =~= shas.subrange(
                0,
                less.len() as int,
            ));
        }
    }
}

/// The head has moved on cleanly where there was a base, the head has a name other than the base's
/// and descends from it, and the tree's status is empty. Where one of these fails, it has not.
pub proof fn law_clean_advance_needs_all_of_it(
    base: Seq<char>,
    head: Seq<char>,
    descends: bool,
    status: Seq<char>,
)
    ensures
        !advanced_cleanly(None, head, descends, status),
        !advanced_cleanly(Some(base), base, descends, status),
        !advanced_cleanly(Some(base), Seq::empty(), descends, status),
        !advanced_cleanly(Some(base), head, false, status),
        status.len() > 0 ==> !advanced_cleanly(Some(base), head, descends, status),
        head != base && head.len() > 0 ==> advanced_cleanly(Some(base), head, true, Seq::empty()),
{
}

/// A task that is not accepted is told of with every problem, one on each line and in their order.
pub proof fn law_every_problem_has_its_line(task_id: i64, problems: Seq<Seq<char>>)
    ensures
        refusal_lines(task_id, problems).len() == problems.len() + 1,
        refusal_lines(task_id, problems)[0] == "task "@ + decimal(task_id as int)
            + " NOT accepted:"@,
        forall|i: int|
            0 <= i < problems.len() ==> #[trigger] refusal_lines(task_id, problems)[i + 1] == " - "@
                + problems[i],
{
}

/// A task that is not known is told as such before anything else; a forced acceptance then needs a
/// reason, and last the right state, which is told; one that is not forced takes none.
pub proof fn law_acceptance_is_refused_in_words(
    task_id: i64,
    task: TaskView,
    force: bool,
    reason: Option<Seq<char>>,
)
    ensures
        accept_refusal(task_id, None, force, reason) == Some(
            "supervisor: no task "@ + decimal(task_id as int),
        ),
        force && (reason is None || is_blank(reason->Some_0)) ==> accept_refusal(
            task_id,
            Some(task),
            force,
            reason,
        ) == Some("supervisor: accept --force requires a non-empty --reason"@),
        force && reason is Some && !is_blank(reason->Some_0) && task.state
            != TaskState::CommittedUnverified ==> accept_refusal(
            task_id,
            Some(task),
            force,
            reason,
        ) == Some(
            "supervisor: task "@ + decimal(task_id as int) + " is "@ + task.state.name()
                + ", not a committed unverified task"@,
        ),
        !force && reason is Some ==> accept_refusal(task_id, Some(task), force, reason) == Some(
            "supervisor: --reason only applies with --force; accept without it runs the checks"@,
        ),
{
}

proof fn lemma_attribution_survives_its_ending(line: Seq<char>, default: Seq<char>)
    ensures
        is_attribution(without_carriage_return(line), default) <==> is_attribution(line, default),
{
    reveal_strlit("co-authored-by:");
    reveal_strlit("-session:");
    let one = "co-authored-by:"@;
    let two = default + "-session:"@;
    let bare = without_carriage_return(line);
    lemma_attribution(line, one);
    lemma_attribution(line, two);
    lemma_attribution(bare, one);
    lemma_attribution(bare, two);
    assert(one[one.len() - 1] == ':');
    assert(two[two.len() - 1] == ':');
    assert forall|k: int| 0 <= k < bare.len() implies bare[k] == line[k] by {}
}

/// Whatever lines are added behind a message, or before it, one that credits someone still does.
pub proof fn law_further_lines_keep_the_credit(
    message: Seq<char>,
    more: Seq<char>,
    default: Seq<char>,
)
    requires
        attributed(message, default),
    ensures
        attributed(message.push('\n') + more, default),
        attributed(more.push('\n') + message, default),
{
    let ended = message.push('\n');
    let parts = pieces(message, '\n');
    let all = lines_of(message);
    let longer = lines_of(ended);
    lemma_pieces(message, '\n');
    assert(ended.drop_last() =~= message);
    assert(pieces(ended, '\n') =~= parts.push(Seq::empty()));
    assert(pieces(ended, '\n').drop_last() =~= parts);
    let i = choose|i: int| 0 <= i < all.len() && is_attribution(#[trigger] all[i], default);
    assert(longer[i] == without_carriage_return(parts[i]));
    if i < parts.len() - 1 {
        assert(all[i] == longer[i]);
    } else {
        assert(all[i] == parts[i]);
        lemma_attribution_survives_its_ending(parts[i], default);
    }
    assert(is_attribution(longer[i], default));
    law_credit_is_kept_among_other_lines(ended, more, default);
    law_credit_is_kept_among_other_lines(more.push('\n'), message, default);
}

/// A commit's full name is the first line of what git shows of it, however that line ends, and
/// nothing where git shows nothing.
pub proof fn law_full_name_is_the_first_line(shown: CommitShownView, line: Seq<char>)
    requires
        !line.contains('\n'),
    ensures
        shown.text == line ==> shown.full_sha() == line,
        lines_of(shown.text).len() > 0 ==> shown.full_sha() == lines_of(shown.text)[0],
        shown.text.len() == 0 ==> shown.full_sha().len() == 0,
{
    law_line_is_what_stands_before_its_ending(line);
    law_line_is_what_stands_before_its_ending(Seq::empty());
    if shown.text.len() == 0 {
        assert(shown.text =~= Seq::empty());
    }
    if line.len() == 0 {
        assert(line =~= Seq::empty());
    }
}

/// What git says of a commit stands for what its fields hold.
pub proof fn law_shown_commit_stands_for_its_fields(shown: CommitShown)
    ensures
        opt_shown(Some(shown)) == Some(shown@),
        opt_shown(None) is None,
        shown@.sha == shown.sha@,
        shown@.known == shown.known,
        shown@.text == shown.text@,
        shown@.head == shown.head@,
{
}

} // verus!
