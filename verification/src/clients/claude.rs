//! The Anthropic-style message API: request shapes built from prompts, and
//! the adapter that extracts delta text from streamed payloads.

use vstd::prelude::*;

use crate::{Prompt, Role};
use crate::sse::{FrameView, SseResponse};
use crate::stream::{AdapterSignal, SignalView};

verus! {

/// The models this client can ask for.
#[derive(Debug, Clone, Copy, PartialEq, Eq, Structural)]
pub enum ClaudeModel {
    Claude35Sonnet,
    Claude3Ops,
    Claude3Sonnet,
    Claude3Haiku,
}

/// The wire name of each model.
pub open spec fn claude_model_name(m: ClaudeModel) -> Seq<char> {
    match m {
        ClaudeModel::Claude35Sonnet => "anthropic-3-5-sonnet-20240620"@,
        ClaudeModel::Claude3Ops => "anthropic-3-opus-20240229"@,
        ClaudeModel::Claude3Sonnet => "anthropic-3-sonnet-20240229"@,
        ClaudeModel::Claude3Haiku => "anthropic-3-haiku-20240307"@,
    }
}

impl ClaudeModel {
    pub fn to_str(&self) -> (r: &'static str)
        ensures
            r@ == claude_model_name(*self),
    {
        match self {
            ClaudeModel::Claude35Sonnet => "anthropic-3-5-sonnet-20240620",
            ClaudeModel::Claude3Ops => "anthropic-3-opus-20240229",
            ClaudeModel::Claude3Sonnet => "anthropic-3-sonnet-20240229",
            ClaudeModel::Claude3Haiku => "anthropic-3-haiku-20240307",
        }
    }
}

/// One message of a request body.
#[derive(Debug, Clone, PartialEq)]
pub struct ClaudeMessageRequestMessages {
    pub content: String,
    pub role: String,
}

/// The model of one request message: its content and its wire role.
pub struct ClaudeMsgView {
    pub content: Seq<char>,
    pub role: Seq<char>,
}

impl View for ClaudeMessageRequestMessages {
    type V = ClaudeMsgView;

    open spec fn view(&self) -> ClaudeMsgView {
        ClaudeMsgView { content: self.content@, role: self.role@ }
    }
}

pub open spec fn claude_msg_views(s: Seq<ClaudeMessageRequestMessages>) -> Seq<ClaudeMsgView> {
    s.map_values(|m: ClaudeMessageRequestMessages| m@)
}

/// The wire role of a message role: the model's own turns are
/// `"assistant"`, everything else is `"user"`.
pub open spec fn claude_role_name(r: Role) -> Seq<char> {
    if r == Role::User {
        "user"@
    } else {
        "assistant"@
    }
}

/// The request messages a prompt expands to.  A single question yields one
/// or two user messages; a conversation maps each message to its wire role.
pub open spec fn claude_messages_spec(p: Prompt) -> Seq<ClaudeMsgView> {
    match p {
        Prompt::Ask(a) => match a.role_play {
            Some(rp) => seq![
                ClaudeMsgView { content: rp@, role: "user"@ },
                ClaudeMsgView { content: a.question@, role: "user"@ },
            ],
            None => seq![ClaudeMsgView { content: a.question@, role: "user"@ }],
        },
        Prompt::Conversation(c) => c.messages@.map_values(
            |m: crate::Message| ClaudeMsgView { content: m.content@, role: claude_role_name(m.role) },
        ),
    }
}

/// Expand a prompt into the request messages of this vendor.
pub fn claude_messages_from_prompt(prompt: Prompt) -> (r: Vec<ClaudeMessageRequestMessages>)
    ensures
        claude_msg_views(r@) == claude_messages_spec(prompt),
{
    let ghost p = prompt;
    let mut r: Vec<ClaudeMessageRequestMessages> = Vec::new();
    match prompt {
        Prompt::Ask(ask) => {
            match ask.role_play {
                Some(role_play) => {
                    r.push(
                        ClaudeMessageRequestMessages {
                            content: role_play,
                            role: "user".to_owned(),
                        },
                    );
                    r.push(
                        ClaudeMessageRequestMessages {
                            content: ask.question,
                            role: "user".to_owned(),
                        },
                    );
                    proof {
                        assert(claude_msg_views(r@) =~= claude_messages_spec(p));
                    }
                },
                None => {
                    r.push(
                        ClaudeMessageRequestMessages {
                            content: ask.question,
                            role: "user".to_owned(),
                        },
                    );
                    proof {
                        assert(claude_msg_views(r@) =~= claude_messages_spec(p));
                    }
                },
            }
        },
        Prompt::Conversation(conversation) => {
            let ghost orig = conversation.messages@;
            let mut rest = conversation.messages;
            while rest.len() > 0
                invariant
                    r@.len() + rest@.len() == orig.len(),
                    rest@ == orig.skip(r@.len() as int),
                    forall|i: int|
                        0 <= i < r@.len() ==> #[trigger] claude_msg_views(r@)[i]
                            == (ClaudeMsgView {
                            content: orig[i].content@,
                            role: claude_role_name(orig[i].role),
                        }),
                decreases rest@.len(),
            {
                let ghost j = r@.len() as int;
                let m = rest.remove(0);
                proof {
                    assert(m == orig.skip(j)[0]);
                    assert(orig.skip(j)[0] == orig[j]);
                    assert(orig.skip(j).remove(0) =~= orig.skip(j + 1));
                }
                let role = if m.role == Role::User {
                    "user"
                } else {
                    "assistant"
                };
                let ghost prev_r = r@;
                r.push(ClaudeMessageRequestMessages { content: m.content, role: role.to_owned() });
                proof {
                    assert(claude_msg_views(r@)[j] == (ClaudeMsgView {
                        content: orig[j].content@,
                        role: claude_role_name(orig[j].role),
                    }));
                    assert(forall|i: int|
                        0 <= i < j ==> #[trigger] claude_msg_views(r@)[i] == claude_msg_views(
                            prev_r,
                        )[i]);
                }
            }
            proof {
                assert(claude_msg_views(r@) =~= claude_messages_spec(p));
            }
        },
    }
    r
}

/// One streaming request body.
#[derive(Debug, Clone, PartialEq)]
pub struct ClaudeMessageRequest {
    pub max_tokens: usize,
    pub messages: Vec<ClaudeMessageRequestMessages>,
    pub model: ClaudeModel,
    pub stream: bool,
}

impl ClaudeMessageRequest {
    pub fn new(model: ClaudeModel, prompt: Prompt) -> (r: ClaudeMessageRequest)
        ensures
            r.max_tokens == 1024,
            r.model == model,
            r.stream == true,
            claude_msg_views(r.messages@) == claude_messages_spec(prompt),
    {
        ClaudeMessageRequest {
            max_tokens: 1024,
            messages: claude_messages_from_prompt(prompt),
            model,
            stream: true,
        }
    }
}

/// One streamed delta payload, already decoded.
#[derive(Debug, Clone, PartialEq)]
pub struct ClaudeMessageStreamResponse {
    pub delta: ClaudeMessageStreamResponseDelta,
    pub index: usize,
    pub kind: String,
}

#[derive(Debug, Clone, PartialEq)]
pub struct ClaudeMessageStreamResponseDelta {
    pub text: String,
    pub kind: String,
}

impl ClaudeMessageStreamResponse {
    pub fn into_string(self) -> (r: String)
        ensures
            r@ == self.delta.text@,
    {
        self.delta.text
    }
}

/// The delta text this vendor's payload carries, when the payload is valid
/// JSON of the expected shape.  The result depends on the payload text alone.
pub uninterp spec fn claude_delta_of(s: Seq<char>) -> Option<Seq<char>>;

/// Relies on `serde_json::from_str` and `serde_json::Value::{get, as_str}`:
/// parses the payload as JSON and extracts the nested delta text at
/// `delta.text`, `None` when the payload does not parse or has no such
/// string field.
#[verifier::external_body]
fn claude_stream_text(s: &str) -> (r: Option<String>)
    ensures
        match r {
            Some(t) => claude_delta_of(s@) == Some(t@),
            None => claude_delta_of(s@) is None,
        },
{
    let v: serde_json::Value = match serde_json::from_str(s) {
        Ok(v) => v,
        Err(_) => return None,
    };
    match v.get("delta").and_then(|d| d.get("text")).and_then(|t| t.as_str()) {
        Some(t) => Some(t.to_string()),
        None => None,
    }
}

/// What this vendor's adapter makes of a frame: only `Data` frames carry
/// payload, a payload that decodes yields its delta text, and everything
/// else is skipped.  There is no explicit termination signal: stream end is
/// the transport's closure.
pub open spec fn claude_signal(f: FrameView) -> SignalView {
    match f {
        FrameView::Data(s) => match claude_delta_of(s) {
            Some(t) => SignalView::Delta(t),
            None => SignalView::Skip,
        },
        _ => SignalView::Skip,
    }
}

/// This adapter never signals termination: for every frame the signal is a
/// delta or a skip.
pub proof fn lemma_claude_never_terminates(f: FrameView)
    ensures
        !(claude_signal(f) is Done),
{
}

/// Decode one frame through this vendor's adapter.
pub fn claude_decode(frame: SseResponse) -> (r: AdapterSignal)
    ensures
        r@ == claude_signal(frame@),
{
    match frame {
        SseResponse::Data(s) => match claude_stream_text(s.as_str()) {
            Some(t) => AdapterSignal::Delta(t),
            None => AdapterSignal::Skip,
        },
        _ => AdapterSignal::Skip,
    }
}

} // verus!
