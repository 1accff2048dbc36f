//! The commentator: its name, and what it is told when it starts.

use sha1::{Digest, Sha1};
use vstd::prelude::*;
use vstd::string::*;

use crate::agent::{AgentSpec, AgentSpecView};
use crate::text::take_chars;

verus! {

/// The SHA-1 digest of a text's UTF-8 bytes in lower-case hexadecimal digits, as `sha1::Sha1`
/// computes it.
pub uninterp spec fn sha1_digits(text: Seq<char>) -> Seq<char>;

/// Digests a text's UTF-8 bytes with `sha1::Sha1::digest` and writes the twenty bytes of the
/// digest in lower-case hexadecimal. The digits depend on the text alone, and are `sha1_digits` of
/// it; there are two for each byte.
#[verifier::external_body]
fn sha1_hex(text: &str) -> (r: String)
    ensures
        r@ == sha1_digits(text@),
        r@.len() == 40,
{
    format!("{:x}", Sha1::digest(text.as_bytes()))
}

/// The name of the commentator of a run, given the digest of the run's directory.
pub open spec fn name_from_digest(digest: Seq<char>) -> Seq<char> {
    "commentator-"@ + digest.take(8)
}

/// The name of the commentator of a run, given the digest of the run's directory.
pub fn commentator_name(digest: &str) -> (r: String)
    requires
        digest@.len() >= 8,
    ensures
        r@ == name_from_digest(digest@),
{
    "commentator-".to_owned().concat(take_chars(digest, 8).as_str())
}

/// The name of the commentator of the run in this directory: the same for every run in it.
pub fn commentator_agent_name(run_dir: &str) -> (r: String)
    ensures
        r@ == name_from_digest(sha1_digits(run_dir@)),
        r@.len() == 20,
{
    let digest = sha1_hex(run_dir);
    let r = commentator_name(digest.as_str());
    proof {
        reveal_strlit("commentator-");
        assert(r@.len() == 20);
    }
    r
}

/// An agent's command line and, where it names one, its model.
pub open spec fn agent_words(agent: AgentSpecView, default: Seq<char>) -> Seq<char> {
    agent.cli.name(default) + (match agent.model {
        Some(model) => " model "@ + model,
        None => ""@,
    })
}

fn agent_text(agent: &AgentSpec, default: &str) -> (r: String)
    ensures
        r@ == agent_words(agent@, default@),
{
    let model = match agent.model() {
        Some(model) => " model ".to_owned().concat(model),
        None => "".to_owned(),
    };
    agent.cli().as_str(default).to_owned().concat(model.as_str())
}

/// What a commentator is told when it starts.
pub fn commentator_brief(
    role_prompt: &str,
    logs_dir: &str,
    run_dir: &str,
    implementer: &AgentSpec,
    commentator: &AgentSpec,
    default: &str,
) -> (r: String)
    ensures
        r@ == "Read and follow this role prompt entirely: "@ + role_prompt@
            + "\nSession-log directory: "@ + logs_dir@ + "\nRun directory: "@ + run_dir@
            + "\nImplementer CLI: "@ + agent_words(implementer@, default@) + "\nCommentator CLI: "@
            + agent_words(commentator@, default@),
{
    "Read and follow this role prompt entirely: ".to_owned().concat(role_prompt).concat(
        "\nSession-log directory: ",
    ).concat(logs_dir).concat("\nRun directory: ").concat(run_dir).concat(
        "\nImplementer CLI: ",
    ).concat(agent_text(implementer, default).as_str()).concat("\nCommentator CLI: ").concat(
        agent_text(commentator, default).as_str(),
    )
}

/// A commentator's name ends with the first eight digits of the digest, so that it differs where
/// they do.
pub proof fn law_commentator_is_named_by_the_digest(digest: Seq<char>, other: Seq<char>)
    requires
        digest.len() >= 8,
        other.len() >= 8,
    ensures
        name_from_digest(digest).len() == 20,
        "commentator-"@.is_prefix_of(name_from_digest(digest)),
        forall|i: int| 0 <= i < 8 ==> #[trigger] name_from_digest(digest)[12 + i] == digest[i],
        name_from_digest(digest) == name_from_digest(other) <==> digest.take(8) == other.take(8),
{
    reveal_strlit("commentator-");
    let one = name_from_digest(digest);
    let two = name_from_digest(other);
    assert(one.skip(12) =~= digest.take(8));
    assert(two.skip(12) =~= other.take(8));
}

/// An agent is told of by its command line and by its model where it has one.
pub proof fn law_agent_is_told_with_its_model(agent: AgentSpecView, default: Seq<char>)
    ensures
        agent.model is None ==> agent_words(agent, default) == agent.cli.name(default),
        agent.model is Some ==> agent_words(agent, default) == agent.cli.name(default) + " model "@
            + agent.model->Some_0,
{
    reveal_strlit("");
    if let Some(model) = agent.model {
        assert(agent.cli.name(default) + (" model "@ + model) =~= agent.cli.name(default)
            + " model "@ + model);
    } else {
        assert(agent.cli.name(default) + ""@ =~= agent.cli.name(default));
    }
}

} // verus!
