use cai::clients::claude::{claude_decode, ClaudeMessageRequest, ClaudeModel};
use cai::clients::gai::{AdapterKind, GAIEngines};
use cai::clients::gemini::{gemini_decode, GeminiModel, GeminiURL};
use cai::clients::openai::{
    chat_messages_from_prompt, openai_decode, ChatCompletionsModel, GPTResponse,
    GPTResponseChoices, GPTResponseChoicesMessage, Role,
};
use cai::sse::SseResponse;
use cai::stream::AdapterSignal;
use cai::Prompt;

#[test]
fn vendor_a_payload_yields_its_delta_text() {
    let payload = "{\"type\":\"content_block_delta\",\"index\":0,\"delta\":{\"type\":\"text_delta\",\"text\":\"Hi\"}}";
    let signal = claude_decode(SseResponse::Data(payload.to_string()));
    assert_eq!(signal, AdapterSignal::Delta("Hi".to_string()));
}

#[test]
fn vendor_b_done_sentinel_yields_termination() {
    let signal = openai_decode(SseResponse::Data("[DONE]".to_string()));
    assert_eq!(signal, AdapterSignal::Done);
}

#[test]
fn all_vendors_normalize_the_same_delta_text() {
    let a = claude_decode(SseResponse::Data(
        "{\"type\":\"content_block_delta\",\"index\":0,\"delta\":{\"type\":\"text_delta\",\"text\":\"Hi\"}}".to_string(),
    ));
    let b = openai_decode(SseResponse::Data(
        "{\"choices\":[{\"delta\":{\"content\":\"Hi\"}}],\"created\":1,\"id\":\"x\",\"model\":\"m\",\"object\":\"o\"}".to_string(),
    ));
    let c = gemini_decode(SseResponse::Data(
        "{\"candidates\":[{\"content\":{\"parts\":[{\"text\":\"Hi\"}],\"role\":\"model\"}}]}".to_string(),
    ));
    assert_eq!(a, AdapterSignal::Delta("Hi".to_string()));
    assert_eq!(b, AdapterSignal::Delta("Hi".to_string()));
    assert_eq!(c, AdapterSignal::Delta("Hi".to_string()));
}

#[test]
fn non_data_frames_and_unparseable_payloads_are_skipped() {
    assert_eq!(
        claude_decode(SseResponse::Event("ping".to_string())),
        AdapterSignal::Skip
    );
    assert_eq!(
        claude_decode(SseResponse::Data("not json".to_string())),
        AdapterSignal::Skip
    );
    assert_eq!(
        openai_decode(SseResponse::Data("not json".to_string())),
        AdapterSignal::Skip
    );
    assert_eq!(
        gemini_decode(SseResponse::Data("not json".to_string())),
        AdapterSignal::Skip
    );
    assert_eq!(gemini_decode(SseResponse::Retry(5)), AdapterSignal::Skip);
}

#[test]
fn absent_delta_fields_yield_an_empty_string_delta() {
    assert_eq!(
        openai_decode(SseResponse::Data(
            "{\"choices\":[],\"created\":1,\"id\":\"x\",\"model\":\"m\",\"object\":\"o\"}".to_string()
        )),
        AdapterSignal::Delta(String::new())
    );
    assert_eq!(
        gemini_decode(SseResponse::Data("{\"candidates\":[]}".to_string())),
        AdapterSignal::Delta(String::new())
    );
}

#[test]
fn claude_request_wraps_the_prompt() {
    let request = ClaudeMessageRequest::new(
        ClaudeModel::Claude35Sonnet,
        Prompt::ask("What is the meaning of life?"),
    );
    assert_eq!(request.max_tokens, 1024);
    assert!(request.stream);
    assert_eq!(request.model.to_str(), "anthropic-3-5-sonnet-20240620");
    assert_eq!(request.messages.len(), 1);
    assert_eq!(request.messages[0].content, "What is the meaning of life?");
    assert_eq!(request.messages[0].role, "user");
}

#[test]
fn chat_messages_map_prompt_roles() {
    let mut conversation = cai::Conversation::new();
    conversation.add_role_play_message("You are tom, who is a my friend");
    conversation.add_user_message("What your name?");
    conversation.add_ai_message("I am tom.");
    let messages = chat_messages_from_prompt(Prompt::with_conversation(conversation));
    assert_eq!(messages.len(), 3);
    assert_eq!(messages[0].role, Role::Assistant);
    assert_eq!(messages[1].role, Role::User);
    assert_eq!(messages[2].role, Role::System);
    assert_eq!(messages[1].content, "What your name?");
}

#[test]
fn gpt_response_content_takes_the_last_choice() {
    let response = GPTResponse {
        id: "id".to_string(),
        object: "chat".to_string(),
        created: 0,
        model: "gpt-4o".to_string(),
        choices: vec![
            GPTResponseChoices {
                index: 0,
                message: GPTResponseChoicesMessage { content: "first".to_string() },
            },
            GPTResponseChoices {
                index: 1,
                message: GPTResponseChoicesMessage { content: "last".to_string() },
            },
        ],
    };
    assert_eq!(response.content(), "last");

    let empty = GPTResponse {
        id: "id".to_string(),
        object: "chat".to_string(),
        created: 0,
        model: "gpt-4o".to_string(),
        choices: Vec::new(),
    };
    assert_eq!(empty.content(), "");
}

#[test]
fn gemini_url_names_the_model() {
    let url = GeminiURL::new(GeminiModel::Gemini15Flash);
    assert_eq!(
        url.to_generate_content(),
        "https://generativelanguage.googleapis.com/v1beta/models/gemini-1.5-flash:generateContent"
    );
    assert_eq!(GeminiModel::Gemini2FlashExp.to_str(), "gemini-2.0-flash-exp");
    assert_eq!(ChatCompletionsModel::Gpt4oMini.to_str(), "gpt-4o-mini");
}

#[test]
fn engine_names_select_providers() {
    let engine = GAIEngines::from_str("claude35-sonnet", "key".to_string());
    assert_eq!(engine, GAIEngines::Claude35Sonnet("key".to_string()));
    assert_eq!(engine.adapter(), AdapterKind::Claude);
    assert_eq!(engine.key(), "key");
    assert_eq!(engine.claude_model(), Some(ClaudeModel::Claude35Sonnet));

    let engine = GAIEngines::from_str("gemini15flash", "k2".to_string());
    assert_eq!(engine.adapter(), AdapterKind::Gemini);
    assert_eq!(engine.gemini_model(), Some(GeminiModel::Gemini15Flash));

    // an unknown name falls back to the default engine
    let engine = GAIEngines::from_str("unknown", "k3".to_string());
    assert_eq!(engine, GAIEngines::Gpt4oMini("k3".to_string()));
    assert_eq!(engine.chat_model(), Some(ChatCompletionsModel::Gpt4oMini));
}
