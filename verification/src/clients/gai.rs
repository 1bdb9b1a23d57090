//! The engine registry: maps an engine name to a provider identifier, the
//! model it selects and the API key it will use.  The transport client for
//! an engine is constructed outside the library from this identifier.

use vstd::prelude::*;

use crate::clients::claude::ClaudeModel;
use crate::clients::gemini::GeminiModel;
use crate::clients::openai::ChatCompletionsModel;

verus! {

/// Which provider adapter an engine speaks through.
#[derive(Debug, Clone, Copy, PartialEq, Eq, Structural)]
pub enum AdapterKind {
    Claude,
    OpenAi,
    Gemini,
}

/// One selectable engine: a provider, a model and the API key to use.
#[derive(Debug, Clone, PartialEq)]
pub enum GAIEngines {
    Gpt4(String),
    Gpt4o(String),
    Gpt4oMini(String),
    Gpt3Dot5Turbo(String),
    Gemini15Flash(String),
    Gemini20FlashExp(String),
    Claude3Haiku(String),
    Claude3Ops(String),
    Claude35Sonnet(String),
    Claude3Sonnet(String),
}

/// The engine an engine name selects; an unknown name falls back to
/// `Gpt4oMini`.
pub open spec fn engine_of(name: Seq<char>, key: String) -> GAIEngines {
    if name == "gpt4"@ {
        GAIEngines::Gpt4(key)
    } else if name == "gpt4-o"@ {
        GAIEngines::Gpt4o(key)
    } else if name == "gpt4-o-mini"@ {
        GAIEngines::Gpt4oMini(key)
    } else if name == "gpt3-5-turbo"@ {
        GAIEngines::Gpt3Dot5Turbo(key)
    } else if name == "gemini15flash"@ {
        GAIEngines::Gemini15Flash(key)
    } else if name == "gemini2flashexp"@ {
        GAIEngines::Gemini20FlashExp(key)
    } else if name == "claude3-haiku"@ {
        GAIEngines::Claude3Haiku(key)
    } else if name == "claude3-ops"@ {
        GAIEngines::Claude3Ops(key)
    } else if name == "claude35-sonnet"@ {
        GAIEngines::Claude35Sonnet(key)
    } else if name == "claude3-sonnet"@ {
        GAIEngines::Claude3Sonnet(key)
    } else {
        GAIEngines::Gpt4oMini(key)
    }
}

impl GAIEngines {
    /// Select an engine by name, with `key` as its API key.
    pub fn from_str(engine: &str, key: String) -> (r: GAIEngines)
        ensures
            r == engine_of(engine@, key),
    {
        if crate::text::str_eq(engine, "gpt4") {
            GAIEngines::Gpt4(key)
        } else if crate::text::str_eq(engine, "gpt4-o") {
            GAIEngines::Gpt4o(key)
        } else if crate::text::str_eq(engine, "gpt4-o-mini") {
            GAIEngines::Gpt4oMini(key)
        } else if crate::text::str_eq(engine, "gpt3-5-turbo") {
            GAIEngines::Gpt3Dot5Turbo(key)
        } else if crate::text::str_eq(engine, "gemini15flash") {
            GAIEngines::Gemini15Flash(key)
        } else if crate::text::str_eq(engine, "gemini2flashexp") {
            GAIEngines::Gemini20FlashExp(key)
        } else if crate::text::str_eq(engine, "claude3-haiku") {
            GAIEngines::Claude3Haiku(key)
        } else if crate::text::str_eq(engine, "claude3-ops") {
            GAIEngines::Claude3Ops(key)
        } else if crate::text::str_eq(engine, "claude35-sonnet") {
            GAIEngines::Claude35Sonnet(key)
        } else if crate::text::str_eq(engine, "claude3-sonnet") {
            GAIEngines::Claude3Sonnet(key)
        } else {
            GAIEngines::Gpt4oMini(key)
        }
    }

    /// The provider adapter this engine's streamed payloads go through.
    pub fn adapter(&self) -> (r: AdapterKind)
        ensures
            r == adapter_of(*self),
    {
        match self {
            GAIEngines::Gpt4(_) => AdapterKind::OpenAi,
            GAIEngines::Gpt4o(_) => AdapterKind::OpenAi,
            GAIEngines::Gpt4oMini(_) => AdapterKind::OpenAi,
            GAIEngines::Gpt3Dot5Turbo(_) => AdapterKind::OpenAi,
            GAIEngines::Gemini15Flash(_) => AdapterKind::Gemini,
            GAIEngines::Gemini20FlashExp(_) => AdapterKind::Gemini,
            GAIEngines::Claude3Haiku(_) => AdapterKind::Claude,
            GAIEngines::Claude3Ops(_) => AdapterKind::Claude,
            GAIEngines::Claude35Sonnet(_) => AdapterKind::Claude,
            GAIEngines::Claude3Sonnet(_) => AdapterKind::Claude,
        }
    }

    /// The API key this engine was selected with.
    pub fn key(&self) -> (r: &str)
        ensures
            r@ == key_of(*self),
    {
        match self {
            GAIEngines::Gpt4(k) => k.as_str(),
            GAIEngines::Gpt4o(k) => k.as_str(),
            GAIEngines::Gpt4oMini(k) => k.as_str(),
            GAIEngines::Gpt3Dot5Turbo(k) => k.as_str(),
            GAIEngines::Gemini15Flash(k) => k.as_str(),
            GAIEngines::Gemini20FlashExp(k) => k.as_str(),
            GAIEngines::Claude3Haiku(k) => k.as_str(),
            GAIEngines::Claude3Ops(k) => k.as_str(),
            GAIEngines::Claude35Sonnet(k) => k.as_str(),
            GAIEngines::Claude3Sonnet(k) => k.as_str(),
        }
    }

    /// The chat-completions model an OpenAI-style engine selects.
    pub fn chat_model(&self) -> (r: Option<ChatCompletionsModel>)
        ensures
            r == chat_model_of(*self),
    {
        match self {
            GAIEngines::Gpt4(_) => Some(ChatCompletionsModel::Gpt4),
            GAIEngines::Gpt4o(_) => Some(ChatCompletionsModel::Gpt4o),
            GAIEngines::Gpt4oMini(_) => Some(ChatCompletionsModel::Gpt4oMini),
            GAIEngines::Gpt3Dot5Turbo(_) => Some(ChatCompletionsModel::Gpt3Dot5Turbo),
            _ => None,
        }
    }

    /// The model a Gemini-style engine selects.
    pub fn gemini_model(&self) -> (r: Option<GeminiModel>)
        ensures
            r == gemini_model_of(*self),
    {
        match self {
            GAIEngines::Gemini15Flash(_) => Some(GeminiModel::Gemini15Flash),
            GAIEngines::Gemini20FlashExp(_) => Some(GeminiModel::Gemini2FlashExp),
            _ => None,
        }
    }

    /// The model an Anthropic-style engine selects.
    pub fn claude_model(&self) -> (r: Option<ClaudeModel>)
        ensures
            r == claude_model_of(*self),
    {
        match self {
            GAIEngines::Claude3Haiku(_) => Some(ClaudeModel::Claude3Haiku),
            GAIEngines::Claude3Ops(_) => Some(ClaudeModel::Claude3Ops),
            GAIEngines::Claude35Sonnet(_) => Some(ClaudeModel::Claude35Sonnet),
            GAIEngines::Claude3Sonnet(_) => Some(ClaudeModel::Claude3Sonnet),
            _ => None,
        }
    }
}

pub open spec fn adapter_of(e: GAIEngines) -> AdapterKind {
    match e {
        GAIEngines::Gpt4(_) => AdapterKind::OpenAi,
        GAIEngines::Gpt4o(_) => AdapterKind::OpenAi,
        GAIEngines::Gpt4oMini(_) => AdapterKind::OpenAi,
        GAIEngines::Gpt3Dot5Turbo(_) => AdapterKind::OpenAi,
        GAIEngines::Gemini15Flash(_) => AdapterKind::Gemini,
        GAIEngines::Gemini20FlashExp(_) => AdapterKind::Gemini,
        GAIEngines::Claude3Haiku(_) => AdapterKind::Claude,
        GAIEngines::Claude3Ops(_) => AdapterKind::Claude,
        GAIEngines::Claude35Sonnet(_) => AdapterKind::Claude,
        GAIEngines::Claude3Sonnet(_) => AdapterKind::Claude,
    }
}

pub open spec fn key_of(e: GAIEngines) -> Seq<char> {
    match e {
        GAIEngines::Gpt4(k) => k@,
        GAIEngines::Gpt4o(k) => k@,
        GAIEngines::Gpt4oMini(k) => k@,
        GAIEngines::Gpt3Dot5Turbo(k) => k@,
        GAIEngines::Gemini15Flash(k) => k@,
        GAIEngines::Gemini20FlashExp(k) => k@,
        GAIEngines::Claude3Haiku(k) => k@,
        GAIEngines::Claude3Ops(k) => k@,
        GAIEngines::Claude35Sonnet(k) => k@,
        GAIEngines::Claude3Sonnet(k) => k@,
    }
}

pub open spec fn chat_model_of(e: GAIEngines) -> Option<ChatCompletionsModel> {
    match e {
        GAIEngines::Gpt4(_) => Some(ChatCompletionsModel::Gpt4),
        GAIEngines::Gpt4o(_) => Some(ChatCompletionsModel::Gpt4o),
        GAIEngines::Gpt4oMini(_) => Some(ChatCompletionsModel::Gpt4oMini),
        GAIEngines::Gpt3Dot5Turbo(_) => Some(ChatCompletionsModel::Gpt3Dot5Turbo),
        _ => None,
    }
}

pub open spec fn gemini_model_of(e: GAIEngines) -> Option<GeminiModel> {
    match e {
        GAIEngines::Gemini15Flash(_) => Some(GeminiModel::Gemini15Flash),
        GAIEngines::Gemini20FlashExp(_) => Some(GeminiModel::Gemini2FlashExp),
        _ => None,
    }
}

pub open spec fn claude_model_of(e: GAIEngines) -> Option<ClaudeModel> {
    match e {
        GAIEngines::Claude3Haiku(_) => Some(ClaudeModel::Claude3Haiku),
        GAIEngines::Claude3Ops(_) => Some(ClaudeModel::Claude3Ops),
        GAIEngines::Claude35Sonnet(_) => Some(ClaudeModel::Claude35Sonnet),
        GAIEngines::Claude3Sonnet(_) => Some(ClaudeModel::Claude3Sonnet),
        _ => None,
    }
}

} // verus!
