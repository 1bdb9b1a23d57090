//! The Gemini-style generate-content API: request shapes built from
//! prompts, the response model, and the adapter that extracts the first
//! candidate's text from streamed payloads.

use vstd::prelude::*;

use crate::{Prompt, Role};
use crate::sse::{FrameView, SseResponse};
use crate::stream::{AdapterSignal, SignalView};

verus! {

/// The models this client can ask for.
#[derive(Debug, Clone, Copy, PartialEq, Eq, Structural)]
pub enum GeminiModel {
    Gemini15Flash,
    Gemini2FlashExp,
}

/// The wire name of each model.
pub open spec fn gemini_model_name(m: GeminiModel) -> Seq<char> {
    match m {
        GeminiModel::Gemini15Flash => "gemini-1.5-flash"@,
        GeminiModel::Gemini2FlashExp => "gemini-2.0-flash-exp"@,
    }
}

impl GeminiModel {
    pub fn to_str(&self) -> (r: &'static str)
        ensures
            r@ == gemini_model_name(*self),
    {
        match self {
            GeminiModel::Gemini15Flash => "gemini-1.5-flash",
            GeminiModel::Gemini2FlashExp => "gemini-2.0-flash-exp",
        }
    }
}

/// The URL a generate-content request goes to.
pub open spec fn gemini_generate_url(m: GeminiModel) -> Seq<char> {
    "https://generativelanguage.googleapis.com/v1beta/models/"@ + gemini_model_name(m)
        + ":generateContent"@
}

/// Builds the endpoint URL for a model.
#[derive(Debug, Clone, Copy, PartialEq, Eq, Structural)]
pub struct GeminiURL {
    pub model: GeminiModel,
}

impl GeminiURL {
    pub fn new(model: GeminiModel) -> (r: GeminiURL)
        ensures
            r.model == model,
    {
        GeminiURL { model }
    }

    pub fn to_generate_content(&self) -> (r: String)
        ensures
            r@ == gemini_generate_url(self.model),
    {
        let mut s = "https://generativelanguage.googleapis.com/v1beta/models/".to_owned();
        s.append(self.model.to_str());
        s.append(":generateContent");
        s
    }
}

/// The role a content entry is attributed to.
#[derive(Debug, Clone, Copy, PartialEq, Eq, Structural)]
pub enum GeminiRole {
    User,
    Model,
}

pub open spec fn gemini_role_of(role: Role) -> GeminiRole {
    match role {
        Role::User => GeminiRole::User,
        Role::AI => GeminiRole::Model,
        Role::RolePlay => GeminiRole::User,
    }
}

impl GeminiRole {
    /// The content role of a prompt role: the model's turns map to
    /// `Model`, user and role-play turns to `User`.
    pub fn from_role(role: Role) -> (r: GeminiRole)
        ensures
            r == gemini_role_of(role),
    {
        match role {
            Role::User => GeminiRole::User,
            Role::AI => GeminiRole::Model,
            Role::RolePlay => GeminiRole::User,
        }
    }
}

/// One text part of a content entry.
#[derive(Debug, Clone, PartialEq)]
pub struct GeminiContentPart {
    pub text: String,
}

/// One content entry: its parts and the role it is attributed to.
#[derive(Debug, Clone, PartialEq)]
pub struct GeminiContent {
    pub parts: Vec<GeminiContentPart>,
    pub role: GeminiRole,
}

/// The model of one content entry.
pub struct GeminiContentView {
    pub parts: Seq<Seq<char>>,
    pub role: GeminiRole,
}

impl View for GeminiContent {
    type V = GeminiContentView;

    open spec fn view(&self) -> GeminiContentView {
        GeminiContentView {
            parts: self.parts@.map_values(|p: GeminiContentPart| p.text@),
            role: self.role,
        }
    }
}

pub open spec fn gemini_content_views(s: Seq<GeminiContent>) -> Seq<GeminiContentView> {
    s.map_values(|c: GeminiContent| c@)
}

/// A request body: the ordered content entries.
#[derive(Debug, Clone, PartialEq)]
pub struct GeminiRequest {
    pub contents: Vec<GeminiContent>,
}

/// The content entries a prompt expands to: one single-part entry per
/// message, each with its role mapped by [`gemini_role_of`].
pub open spec fn gemini_contents_spec(p: Prompt) -> Seq<GeminiContentView> {
    match p {
        Prompt::Ask(a) => match a.role_play {
            Some(rp) => seq![
                GeminiContentView { parts: seq![rp@], role: GeminiRole::User },
                GeminiContentView { parts: seq![a.question@], role: GeminiRole::User },
            ],
            None => seq![GeminiContentView { parts: seq![a.question@], role: GeminiRole::User }],
        },
        Prompt::Conversation(c) => c.messages@.map_values(
            |m: crate::Message| GeminiContentView {
                parts: seq![m.content@],
                role: gemini_role_of(m.role),
            },
        ),
    }
}

impl GeminiRequest {
    /// Expand a prompt into a request body.
    pub fn from_prompt(prompt: Prompt) -> (r: GeminiRequest)
        ensures
            gemini_content_views(r.contents@) == gemini_contents_spec(prompt),
    {
        let ghost p = prompt;
        let mut contents: Vec<GeminiContent> = Vec::new();
        match prompt {
            Prompt::Ask(ask) => {
                match ask.role_play {
                    Some(role_play) => {
                        let mut parts: Vec<GeminiContentPart> = Vec::new();
                        parts.push(GeminiContentPart { text: role_play });
                        contents.push(GeminiContent { parts, role: GeminiRole::User });
                        let mut parts2: Vec<GeminiContentPart> = Vec::new();
                        parts2.push(GeminiContentPart { text: ask.question });
                        contents.push(GeminiContent { parts: parts2, role: GeminiRole::User });
                        proof {
                            assert(gemini_content_views(contents@)[0].parts =~= gemini_contents_spec(
                                p,
                            )[0].parts);
                            assert(gemini_content_views(contents@)[1].parts =~= gemini_contents_spec(
                                p,
                            )[1].parts);
                            assert(gemini_content_views(contents@) =~~= gemini_contents_spec(p));
                        }
                    },
                    None => {
                        let mut parts: Vec<GeminiContentPart> = Vec::new();
                        parts.push(GeminiContentPart { text: ask.question });
                        contents.push(GeminiContent { parts, role: GeminiRole::User });
                        proof {
                            assert(gemini_content_views(contents@)[0].parts =~= gemini_contents_spec(
                                p,
                            )[0].parts);
                            assert(gemini_content_views(contents@) =~~= gemini_contents_spec(p));
                        }
                    },
                }
            },
            Prompt::Conversation(conversation) => {
                let ghost orig = conversation.messages@;
                let mut rest = conversation.messages;
                while rest.len() > 0
                    invariant
                        contents@.len() + rest@.len() == orig.len(),
                        rest@ == orig.skip(contents@.len() as int),
                        forall|i: int|
                            0 <= i < contents@.len() ==> #[trigger] gemini_content_views(
                                contents@,
                            )[i] == (GeminiContentView {
                                parts: seq![orig[i].content@],
                                role: gemini_role_of(orig[i].role),
                            }),
                    decreases rest@.len(),
                {
                    let ghost j = contents@.len() as int;
                    let m = rest.remove(0);
                    proof {
                        assert(m == orig.skip(j)[0]);
                        assert(orig.skip(j)[0] == orig[j]);
                        assert(orig.skip(j).remove(0) =~= orig.skip(j + 1));
                    }
                    let role = GeminiRole::from_role(m.role);
                    let mut parts: Vec<GeminiContentPart> = Vec::new();
                    parts.push(GeminiContentPart { text: m.content });
                    let ghost prev = contents@;
                    contents.push(GeminiContent { parts, role });
                    proof {
                        assert(gemini_content_views(contents@)[j].parts =~= seq![orig[j].content@]);
                        assert(gemini_content_views(contents@)[j] == (GeminiContentView {
                            parts: seq![orig[j].content@],
                            role: gemini_role_of(orig[j].role),
                        }));
                        assert(forall|i: int|
                            0 <= i < j ==> #[trigger] gemini_content_views(contents@)[i]
                                == gemini_content_views(prev)[i]);
                    }
                }
                proof {
                    assert(gemini_content_views(contents@) =~~= gemini_contents_spec(p));
                }
            },
        }
        GeminiRequest { contents }
    }
}

/// A response body: the candidate list.
#[derive(Debug, Clone, PartialEq)]
pub struct GeminiResponse {
    pub candidates: Vec<GeminiResponseCandidate>,
}

/// One response candidate.
#[derive(Debug, Clone, PartialEq)]
pub struct GeminiResponseCandidate {
    pub content: GeminiContent,
}

/// The text a response carries: the first candidate's first part, or the
/// empty string when candidates or parts are absent.
pub open spec fn gemini_response_text(r: GeminiResponse) -> Seq<char> {
    if r.candidates@.len() == 0 {
        Seq::empty()
    } else {
        gemini_candidate_text(r.candidates@[0])
    }
}

pub open spec fn gemini_candidate_text(c: GeminiResponseCandidate) -> Seq<char> {
    if c.content.parts@.len() == 0 {
        Seq::empty()
    } else {
        c.content.parts@[0].text@
    }
}

impl GeminiResponseCandidate {
    pub fn into_text(self) -> (r: String)
        ensures
            r@ == gemini_candidate_text(self),
    {
        let mut parts = self.content.parts;
        if parts.len() == 0 {
            String::new()
        } else {
            let p = parts.remove(0);
            p.text
        }
    }
}

impl GeminiResponse {
    pub fn into_text(self) -> (r: String)
        ensures
            r@ == gemini_response_text(self),
    {
        let mut candidates = self.candidates;
        if candidates.len() == 0 {
            String::new()
        } else {
            let c = candidates.remove(0);
            c.into_text()
        }
    }
}

/// The delta text this vendor's streamed payload carries: `None` when the
/// payload is not JSON with a `candidates` list, the first candidate's
/// first part text otherwise, with the empty string standing in for absent
/// parts.  The result depends on the payload text alone.
pub uninterp spec fn gemini_delta_of(s: Seq<char>) -> Option<Seq<char>>;

/// Relies on `serde_json::from_str` and `serde_json::Value::{get,
/// as_array, pointer, as_str}`: parses a payload `{"candidates":
/// [{"content": {"parts": [{"text"}, ..]}}, ..]}` and extracts the first
/// candidate's first part text; absent candidates or parts yield an empty
/// string.
#[verifier::external_body]
fn gemini_stream_text(s: &str) -> (r: Option<String>)
    ensures
        match r {
            Some(t) => gemini_delta_of(s@) == Some(t@),
            None => gemini_delta_of(s@) is None,
        },
{
    let v: serde_json::Value = match serde_json::from_str(s) {
        Ok(v) => v,
        Err(_) => return None,
    };
    if v.get("candidates").and_then(|c| c.as_array()).is_none() {
        return None;
    }
    match v.pointer("/candidates/0/content/parts/0/text").and_then(|t| t.as_str()) {
        Some(t) => Some(t.to_string()),
        None => Some(String::new()),
    }
}

/// What this vendor's adapter makes of a frame: only `Data` frames carry
/// payload, a payload that decodes yields its delta text, and everything
/// else is skipped.  There is no explicit termination signal: stream end is
/// the transport's closure.
pub open spec fn gemini_signal(f: FrameView) -> SignalView {
    match f {
        FrameView::Data(s) => match gemini_delta_of(s) {
            Some(t) => SignalView::Delta(t),
            None => SignalView::Skip,
        },
        _ => SignalView::Skip,
    }
}

/// This adapter never signals termination: for every frame the signal is a
/// delta or a skip.
pub proof fn lemma_gemini_never_terminates(f: FrameView)
    ensures
        !(gemini_signal(f) is Done),
{
}

/// Decode one frame through this vendor's adapter.
pub fn gemini_decode(frame: SseResponse) -> (r: AdapterSignal)
    ensures
        r@ == gemini_signal(frame@),
{
    match frame {
        SseResponse::Data(s) => match gemini_stream_text(s.as_str()) {
            Some(t) => AdapterSignal::Delta(t),
            None => AdapterSignal::Skip,
        },
        _ => AdapterSignal::Skip,
    }
}

} // verus!
