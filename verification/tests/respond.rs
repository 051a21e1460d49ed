//! Tests for prompt building, completion types and answer extraction.

use chatbot_rs::completion::first_choice_content;
use chatbot_rs::completion::CompletionChoice;
use chatbot_rs::completion::CompletionRequest;
use chatbot_rs::completion::CompletionResponse;
use chatbot_rs::completion::CompletionUsage;
use chatbot_rs::completion::Message;
use chatbot_rs::config::Config;
use chatbot_rs::context::get_context;
use chatbot_rs::context::NeighborMatch;
use chatbot_rs::corpus::Sentence;
use chatbot_rs::corpus::SentenceStore;
use chatbot_rs::error::ChatError;
use chatbot_rs::respond::answer_from_response;
use chatbot_rs::respond::build_prompt;
use chatbot_rs::respond::split_prompt;

fn response_with(contents: &[&str]) -> CompletionResponse {
    let choices = contents
        .iter()
        .enumerate()
        .map(|(i, c)| CompletionChoice {
            finish_reason: "stop".to_string(),
            index: i as i64,
            message: Message { content: c.to_string(), role: "assistant".to_string() },
        })
        .collect();
    CompletionResponse {
        choices,
        created: 0,
        id: "resp-1".to_string(),
        model: "gpt-3.5-turbo".to_string(),
        object: "chat.completion".to_string(),
        usage: CompletionUsage { completion_tokens: 0, prompt_tokens: 0, total_tokens: 0 },
    }
}

#[test]
fn prompt_embeds_context_and_question() {
    let p = build_prompt("CTX", "QUESTION");
    let expected = "You are a personalized AI financial advisor. Your role is to provide tailored financial advice\nbased on user-specific data and queries. You help users understand their financial situation,\nmake informed decisions, and achieve their financial goals.\n\nBelow is some detailed financial information about the user. Use this information to provide\nspecific and actionable financial advice.\n----\nContext:\nCTX\n\n--------------------------------------\n\nHere is the financial query from the user that you need to address:\nQUESTION\n";
    assert_eq!(p, expected);
}

#[test]
fn split_prompt_embeds_blob() {
    let p = split_prompt("BLOB");
    assert!(p.starts_with("\n             I will paste a block of markdown."));
    assert!(p.ends_with("        BLOB"));
}

#[test]
fn request_carries_prompt_as_single_user_message() {
    let r = CompletionRequest::gpt_3_5_turbo("hello");
    assert_eq!(r.model, "gpt-3.5-turbo");
    assert_eq!(r.messages.len(), 1);
    assert_eq!(r.messages[0].content, "hello");
    assert_eq!(r.messages[0].role, "user");
}

#[test]
fn first_choice_is_extracted() {
    let resp = response_with(&["the answer", "another"]);
    assert_eq!(first_choice_content(&resp), Ok("the answer".to_string()));
}

#[test]
fn empty_choices_fail_with_missing_choice() {
    // A response with no choices fails with `MissingChoice`, not a crash.
    let resp = response_with(&[]);
    assert_eq!(first_choice_content(&resp), Err(ChatError::MissingChoice));
    let r = answer_from_response(&resp, "ctx".to_string());
    assert_eq!(r, Err(ChatError::MissingChoice));
}

#[test]
fn answer_pairs_content_with_context() {
    let resp = response_with(&["advice"]);
    let r = answer_from_response(&resp, "ctx".to_string());
    assert_eq!(r, Ok(("advice".to_string(), "ctx".to_string())));
}

#[test]
fn retrieval_round_trip() {
    // Answering through retrieval equals answering with the retrieved
    // context supplied directly, given the same (deterministic) response.
    let mut store = SentenceStore::new();
    for i in 0..6u32 {
        let text = format!("s{}", i);
        assert!(store.insert(Sentence { row_id: i, page_id: 1, page_index: i, text }));
    }
    let matches = vec![NeighborMatch { row_id: 2, distance: 5 }];
    let question = "what now?".to_string();

    // Path one: retrieve, then answer with the retrieved context.
    let (context, echoed) = get_context(&store, &matches, question.clone()).unwrap();
    let prompt_one = build_prompt(&context, &echoed);
    let resp = response_with(&["do this"]);
    let one = answer_from_response(&resp, context.clone()).unwrap();

    // Path two: the caller supplies the same context directly.
    let prompt_two = build_prompt(&context, &question);
    let two = answer_from_response(&resp, context).unwrap();

    assert_eq!(prompt_one, prompt_two);
    assert_eq!(one, two);
}

#[test]
fn authorization_header_value() {
    let config = Config::new("test-key".to_string());
    assert_eq!(config.authorization_value(), "Bearer test-key");
}
