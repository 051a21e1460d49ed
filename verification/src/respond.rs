//! Prompt building and answer extraction: the pure halves of responding to
//! a query.  The application obtains the completion response over the
//! network and hands it back here as a value.

use vstd::prelude::*;
use crate::completion::CompletionResponse;
use crate::completion::first_choice_content;
use crate::context::NeighborMatch;
use crate::context::context_spec;
use crate::corpus::Sentence;
use crate::error::ChatError;

verus! {

/// The advisor prompt: a fixed persona framing, the context block, and the
/// user's question, embedded verbatim.
pub open spec fn prompt_spec(context: Seq<char>, question: Seq<char>) -> Seq<char> {
    "You are a personalized AI financial advisor. Your role is to provide tailored financial advice\nbased on user-specific data and queries. You help users understand their financial situation,\nmake informed decisions, and achieve their financial goals.\n\nBelow is some detailed financial information about the user. Use this information to provide\nspecific and actionable financial advice.\n----\nContext:\n"@
        + context
        + "\n\n--------------------------------------\n\nHere is the financial query from the user that you need to address:\n"@
        + question + "\n"@
}

/// Builds the advisor prompt for the given context and question, as
/// `prompt_spec` states.
pub fn build_prompt(context: &str, question: &str) -> (r: String)
    ensures
        r@ == prompt_spec(context@, question@),
{
    let mut r = String::from_str(
        "You are a personalized AI financial advisor. Your role is to provide tailored financial advice\nbased on user-specific data and queries. You help users understand their financial situation,\nmake informed decisions, and achieve their financial goals.\n\nBelow is some detailed financial information about the user. Use this information to provide\nspecific and actionable financial advice.\n----\nContext:\n",
    );
    r.append(context);
    r.append(
        "\n\n--------------------------------------\n\nHere is the financial query from the user that you need to address:\n",
    );
    r.append(question);
    r.append("\n");
    proof {
        assert(r@ =~= prompt_spec(context@, question@));
    }
    r
}

/// The prompt that asks the model to break a markdown blob into sentences,
/// one per line with blank lines between them.
pub open spec fn split_prompt_spec(blob: Seq<char>) -> Seq<char> {
    "\n             I will paste a block of markdown. I need you to remove all the formatting, and break each sentence onto its own line\n                    Make sure each sentence has a blank line between it. Code blocks should be considered a single sentence.\n        "@
        + blob
}

/// Builds the sentence-splitting prompt for `blob`, as `split_prompt_spec`
/// states.
pub fn split_prompt(blob: &str) -> (r: String)
    ensures
        r@ == split_prompt_spec(blob@),
{
    let mut r = String::from_str(
        "\n             I will paste a block of markdown. I need you to remove all the formatting, and break each sentence onto its own line\n                    Make sure each sentence has a blank line between it. Code blocks should be considered a single sentence.\n        ",
    );
    r.append(blob);
    r
}

/// The outcome of answering with a given completion response and context:
/// the first choice's content paired with the context that produced it, or
/// `MissingChoice` when the response holds no choices.
pub open spec fn answer_of(response: CompletionResponse, context: Seq<char>) -> Result<
    (Seq<char>, Seq<char>),
    ChatError,
> {
    if response.choices@.len() > 0 {
        Ok((response.choices@[0].message.content@, context))
    } else {
        Err(ChatError::MissingChoice)
    }
}

/// Turns a completion response into the final `(answer, context_used)`
/// pair, as `answer_of` states.  Fails with `MissingChoice` exactly when
/// the response holds no choices.
pub fn answer_from_response(response: &CompletionResponse, context: String) -> (r: Result<
    (String, String),
    ChatError,
>)
    ensures
        response.choices@.len() > 0 ==> (r matches Ok(p) && p.0@
            == response.choices@[0].message.content@ && p.1@ == context@),
        response.choices@.len() == 0 ==> r == Err::<(String, String), ChatError>(
            ChatError::MissingChoice,
        ),
{
    match first_choice_content(response) {
        Ok(answer) => Ok((answer, context)),
        Err(e) => Err(e),
    }
}

/// Law: retrieval round trip.  Answering a query through retrieval reaches
/// the same prompt, and therefore — given the same completion response from
/// a deterministic provider — the same `(answer, context_used)` pair, as
/// supplying the retrieved context directly.
pub proof fn lemma_retrieval_round_trip(
    v: Seq<Sentence>,
    matches: Seq<NeighborMatch>,
    question: Seq<char>,
    context: Seq<char>,
    response: CompletionResponse,
)
    requires
        context == context_spec(v, matches),
    ensures
        prompt_spec(context, question) == prompt_spec(context_spec(v, matches), question),
        answer_of(response, context) == answer_of(response, context_spec(v, matches)),
{
}

} // verus!
