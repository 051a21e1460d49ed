//! The chat-completion request and response shapes, and the extraction of
//! an answer from a response.

use vstd::prelude::*;
use crate::error::ChatError;

verus! {

/// One chat message: a role (such as `user`) and its content.
#[derive(Debug, Clone)]
pub struct Message {
    pub content: String,
    pub role: String,
}

/// A single-turn chat-completion request: an ordered list of messages and
/// the model to answer them.
#[derive(Debug, Clone)]
pub struct CompletionRequest {
    pub messages: Vec<Message>,
    pub model: String,
}

impl CompletionRequest {
    /// A request for the fixed chat model carrying `prompt` as the sole
    /// user-role message.
    pub fn gpt_3_5_turbo(prompt: &str) -> (r: Self)
        ensures
            r.model@ == "gpt-3.5-turbo"@,
            r.messages@.len() == 1,
            r.messages@[0].content@ == prompt@,
            r.messages@[0].role@ == "user"@,
    {
        let mut messages: Vec<Message> = Vec::new();
        messages.push(Message { content: prompt.to_owned(), role: String::from_str("user") });
        CompletionRequest { model: String::from_str("gpt-3.5-turbo"), messages }
    }
}

/// One returned completion choice.
#[derive(Debug, Clone)]
pub struct CompletionChoice {
    pub finish_reason: String,
    pub index: i64,
    pub message: Message,
}

/// Token accounting reported with a completion response.
#[derive(Debug, Clone)]
pub struct CompletionUsage {
    pub completion_tokens: i64,
    pub prompt_tokens: i64,
    pub total_tokens: i64,
}

/// A chat-completion response: the returned choices and their metadata.
#[derive(Debug, Clone)]
pub struct CompletionResponse {
    pub choices: Vec<CompletionChoice>,
    pub created: i64,
    pub id: String,
    pub model: String,
    pub object: String,
    pub usage: CompletionUsage,
}

/// Extracts the first choice's message content.  Fails with `MissingChoice`
/// exactly when the response holds no choices, rather than crashing.
pub fn first_choice_content(response: &CompletionResponse) -> (r: Result<String, ChatError>)
    ensures
        response.choices@.len() > 0 ==> (r matches Ok(a) && a@ == response.choices@[0].message.content@),
        response.choices@.len() == 0 ==> r == Err::<String, ChatError>(ChatError::MissingChoice),
{
    if response.choices.len() > 0 {
        Ok(response.choices[0].message.content.clone())
    } else {
        Err(ChatError::MissingChoice)
    }
}

} // verus!
