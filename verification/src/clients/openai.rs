//! The OpenAI-style chat-completions API: request shapes built from
//! prompts, the non-streaming response model, and the adapter that
//! normalizes streamed payloads, including the `"[DONE]"` end sentinel.

use vstd::prelude::*;

use crate::Prompt;
use crate::sse::{FrameView, SseResponse};
use crate::stream::{AdapterSignal, SignalView};
use crate::text::{match_here, starts_with};

verus! {

/// The models this client can ask for.
#[derive(Debug, Clone, Copy, PartialEq, Eq, Structural)]
pub enum ChatCompletionsModel {
    Gpt3Dot5Turbo,
    Gpt4,
    Gpt4oMini,
    Gpt4o,
}

/// The wire name of each model.
pub open spec fn chat_model_name(m: ChatCompletionsModel) -> Seq<char> {
    match m {
        ChatCompletionsModel::Gpt3Dot5Turbo => "gpt-3.5-turbo"@,
        ChatCompletionsModel::Gpt4 => "gpt-4"@,
        ChatCompletionsModel::Gpt4oMini => "gpt-4o-mini"@,
        ChatCompletionsModel::Gpt4o => "gpt-4o"@,
    }
}

impl ChatCompletionsModel {
    pub fn to_str(&self) -> (r: &'static str)
        ensures
            r@ == chat_model_name(*self),
    {
        match self {
            ChatCompletionsModel::Gpt3Dot5Turbo => "gpt-3.5-turbo",
            ChatCompletionsModel::Gpt4 => "gpt-4",
            ChatCompletionsModel::Gpt4oMini => "gpt-4o-mini",
            ChatCompletionsModel::Gpt4o => "gpt-4o",
        }
    }
}

/// The role a request message is sent under.
#[derive(Debug, Clone, Copy, PartialEq, Eq, Structural)]
pub enum Role {
    User,
    System,
    Assistant,
}

impl Role {
    /// The request role of a prompt role: user turns stay `User`, the
    /// model's turns are sent as `System`, role-play framing as `Assistant`.
    pub fn from_role(value: crate::Role) -> (r: Role)
        ensures
            r == role_of(value),
    {
        match value {
            crate::Role::User => Role::User,
            crate::Role::AI => Role::System,
            crate::Role::RolePlay => Role::Assistant,
        }
    }
}

pub open spec fn role_of(value: crate::Role) -> Role {
    match value {
        crate::Role::User => Role::User,
        crate::Role::AI => Role::System,
        crate::Role::RolePlay => Role::Assistant,
    }
}

/// One message of a request body.
#[derive(Debug, Clone, PartialEq)]
pub struct Message {
    pub role: Role,
    pub content: String,
}

/// The model of one request message.
pub struct ChatMsgView {
    pub role: Role,
    pub content: Seq<char>,
}

impl View for Message {
    type V = ChatMsgView;

    open spec fn view(&self) -> ChatMsgView {
        ChatMsgView { role: self.role, content: self.content@ }
    }
}

pub open spec fn chat_msg_views(s: Seq<Message>) -> Seq<ChatMsgView> {
    s.map_values(|m: Message| m@)
}

/// The request messages a prompt expands to: the prompt's messages, each
/// with its role mapped by [`role_of`].
pub open spec fn chat_messages_spec(p: Prompt) -> Seq<ChatMsgView> {
    crate::prompt_messages(p).map_values(
        |m: crate::MessageView| ChatMsgView { role: role_of(m.role), content: m.content },
    )
}

/// Expand a prompt into the request messages of this vendor.
pub fn chat_messages_from_prompt(prompt: Prompt) -> (r: Vec<Message>)
    ensures
        chat_msg_views(r@) == chat_messages_spec(prompt),
{
    let ghost p = prompt;
    let msgs = prompt.messages();
    let ghost orig = crate::msg_views(msgs@);
    let mut r: Vec<Message> = Vec::new();
    let mut rest = msgs;
    while rest.len() > 0
        invariant
            r@.len() + rest@.len() == orig.len(),
            crate::msg_views(rest@) == orig.skip(r@.len() as int),
            orig == crate::prompt_messages(p),
            forall|i: int|
                0 <= i < r@.len() ==> #[trigger] chat_msg_views(r@)[i] == (ChatMsgView {
                    role: role_of(orig[i].role),
                    content: orig[i].content,
                }),
        decreases rest@.len(),
    {
        let ghost j = r@.len() as int;
        let ghost prev = rest@;
        let m = rest.remove(0);
        proof {
            assert(crate::msg_views(prev)[0] == orig.skip(j)[0]);
            assert(orig.skip(j)[0] == orig[j]);
            assert(rest@ =~= prev.skip(1));
            assert forall|t: int| 0 <= t < rest@.len() implies crate::msg_views(rest@)[t]
                == orig.skip(j + 1)[t] by {
                assert(crate::msg_views(prev)[t + 1] == orig.skip(j)[t + 1]);
            }
            assert(crate::msg_views(rest@) =~= orig.skip(j + 1));
        }
        let role = Role::from_role(m.role);
        let ghost prev_r = r@;
        r.push(Message { role, content: m.content });
        proof {
            assert(chat_msg_views(r@)[j] == (ChatMsgView {
                role: role_of(orig[j].role),
                content: orig[j].content,
            }));
            assert(forall|i: int|
                0 <= i < j ==> #[trigger] chat_msg_views(r@)[i] == chat_msg_views(prev_r)[i]);
        }
    }
    proof {
        assert(chat_msg_views(r@) =~= chat_messages_spec(p));
    }
    r
}

/// The body of a non-streaming response.
#[derive(Debug, Clone, PartialEq)]
pub struct GPTResponse {
    pub id: String,
    pub object: String,
    pub created: usize,
    pub model: String,
    pub choices: Vec<GPTResponseChoices>,
}

#[derive(Debug, Clone, PartialEq)]
pub struct GPTResponseChoices {
    pub index: usize,
    pub message: GPTResponseChoicesMessage,
}

#[derive(Debug, Clone, PartialEq)]
pub struct GPTResponseChoicesMessage {
    pub content: String,
}

impl GPTResponse {
    /// The content of the last choice, or the empty string when there is
    /// no choice.
    pub fn content(self) -> (r: String)
        ensures
            r@ == (if self.choices@.len() == 0 {
                Seq::<char>::empty()
            } else {
                self.choices@.last().message.content@
            }),
    {
        let mut choices = self.choices;
        match choices.pop() {
            Some(c) => c.message.content,
            None => String::new(),
        }
    }
}

/// One normalized streamed payload: either the end sentinel or a delta
/// fragment, possibly empty.
#[derive(Debug, Clone, PartialEq)]
pub enum ChatResponse {
    Done,
    DeltaContent(String),
}

impl Default for ChatResponse {
    /// The default payload is an empty delta.
    fn default() -> (r: ChatResponse)
        ensures
            r matches ChatResponse::DeltaContent(s) && s@ == Seq::<char>::empty(),
    {
        ChatResponse::DeltaContent(String::new())
    }
}

/// The end sentinel this vendor puts in a `Data` frame.
pub open spec fn done_prefix() -> Seq<char> {
    seq!['[', 'D', 'O', 'N', 'E', ']']
}

/// The delta content this vendor's payload carries: `None` when the
/// payload is not JSON with a `choices` list, the last choice's delta
/// content otherwise, with the empty string standing in for an absent
/// content field.  The result depends on the payload text alone.
pub uninterp spec fn openai_delta_of(s: Seq<char>) -> Option<Seq<char>>;

/// Relies on `serde_json::from_str` and `serde_json::Value::{get,
/// as_array, as_str}`: parses a payload `{"choices": [{"delta":
/// {"content"}}, ..], ..}` and extracts the last choice's delta content;
/// an absent content field or an empty choice list yields an empty string.
#[verifier::external_body]
fn openai_stream_content(s: &str) -> (r: Option<String>)
    ensures
        match r {
            Some(t) => openai_delta_of(s@) == Some(t@),
            None => openai_delta_of(s@) is None,
        },
{
    let v: serde_json::Value = match serde_json::from_str(s) {
        Ok(v) => v,
        Err(_) => return None,
    };
    let choices = match v.get("choices").and_then(|c| c.as_array()) {
        Some(c) => c,
        None => return None,
    };
    match choices.last() {
        None => Some(String::new()),
        Some(c) => match c.get("delta").and_then(|d| d.get("content")).and_then(|t| t.as_str()) {
            Some(t) => Some(t.to_string()),
            None => Some(String::new()),
        },
    }
}

/// Decode one payload text: the `"[DONE]"` sentinel prefix means the
/// stream is over; otherwise a payload that parses yields its delta.
pub fn chat_response_from_data(s: &str) -> (r: Option<ChatResponse>)
    ensures
        starts_with(s@, done_prefix()) ==> (r matches Some(c) && c is Done),
        !starts_with(s@, done_prefix()) ==> match openai_delta_of(s@) {
            Some(t) => (r matches Some(c) && (c matches ChatResponse::DeltaContent(d) && d@ == t)),
            None => r is None,
        },
{
    proof {
        reveal_strlit("[DONE]");
        assert("[DONE]"@ =~= done_prefix());
    }
    let n = s.unicode_len();
    if n >= 6 && match_here(s, "[DONE]", 0) {
        Some(ChatResponse::Done)
    } else {
        match openai_stream_content(s) {
            Some(t) => Some(ChatResponse::DeltaContent(t)),
            None => None,
        }
    }
}

/// What this vendor's adapter makes of a frame: only `Data` frames carry
/// payload; the `"[DONE]"` sentinel signals termination; a payload that
/// parses yields its delta, possibly empty; anything else is skipped.
pub open spec fn openai_signal(f: FrameView) -> SignalView {
    match f {
        FrameView::Data(s) => if starts_with(s, done_prefix()) {
            SignalView::Done
        } else {
            match openai_delta_of(s) {
                Some(t) => SignalView::Delta(t),
                None => SignalView::Skip,
            }
        },
        _ => SignalView::Skip,
    }
}

/// Termination semantics: the adapter signals termination for exactly the
/// `Data` frames whose payload starts with the `"[DONE]"` sentinel, and
/// such a frame never yields a delta.
pub proof fn lemma_openai_done_sentinel(f: FrameView)
    ensures
        (openai_signal(f) is Done) <==> (f matches FrameView::Data(s) && starts_with(
            s,
            done_prefix(),
        )),
{
}

/// Decode one frame through this vendor's adapter.
pub fn openai_decode(frame: SseResponse) -> (r: AdapterSignal)
    ensures
        r@ == openai_signal(frame@),
{
    match frame {
        SseResponse::Data(s) => match chat_response_from_data(s.as_str()) {
            Some(ChatResponse::Done) => AdapterSignal::Done,
            Some(ChatResponse::DeltaContent(t)) => AdapterSignal::Delta(t),
            None => AdapterSignal::Skip,
        },
        _ => AdapterSignal::Skip,
    }
}

} // verus!
