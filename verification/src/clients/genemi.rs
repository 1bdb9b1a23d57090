//! The earlier generate-content client, kept for its callers: a
//! single-model variant of the Gemini data model with the same prompt
//! expansion and response extraction.

use vstd::prelude::*;

use crate::{Prompt, Role};

verus! {

/// The one model this client speaks to.
#[derive(Debug, Clone, Copy, PartialEq, Eq, Structural)]
pub enum GeminiModel {
    Gemini15Flash,
}

pub open spec fn model_name(m: GeminiModel) -> Seq<char> {
    match m {
        GeminiModel::Gemini15Flash => "gemini-1.5-flash"@,
    }
}

impl GeminiModel {
    pub fn to_str(&self) -> (r: &'static str)
        ensures
            r@ == model_name(*self),
    {
        match self {
            GeminiModel::Gemini15Flash => "gemini-1.5-flash",
        }
    }
}

/// The role a content entry is attributed to.
#[derive(Debug, Clone, Copy, PartialEq, Eq, Structural)]
pub enum GeminiRole {
    User,
    Model,
}

pub open spec fn role_of(role: Role) -> GeminiRole {
    match role {
        Role::User => GeminiRole::User,
        Role::AI => GeminiRole::Model,
        Role::RolePlay => GeminiRole::User,
    }
}

impl GeminiRole {
    pub fn from_role(role: Role) -> (r: GeminiRole)
        ensures
            r == role_of(role),
    {
        match role {
            Role::User => GeminiRole::User,
            Role::AI => GeminiRole::Model,
            Role::RolePlay => GeminiRole::User,
        }
    }
}

/// One text part of a content entry.
#[derive(Debug, Clone, PartialEq)]
pub struct GeminiContentPart {
    pub text: String,
}

/// One content entry: its parts and the role it is attributed to.
#[derive(Debug, Clone, PartialEq)]
pub struct GeminiContent {
    pub parts: Vec<GeminiContentPart>,
    pub role: GeminiRole,
}

/// The model of one content entry.
pub struct ContentView {
    pub parts: Seq<Seq<char>>,
    pub role: GeminiRole,
}

impl View for GeminiContent {
    type V = ContentView;

    open spec fn view(&self) -> ContentView {
        ContentView {
            parts: self.parts@.map_values(|p: GeminiContentPart| p.text@),
            role: self.role,
        }
    }
}

pub open spec fn content_views(s: Seq<GeminiContent>) -> Seq<ContentView> {
    s.map_values(|c: GeminiContent| c@)
}

/// A request body: the ordered content entries.
#[derive(Debug, Clone, PartialEq)]
pub struct GeminiRequest {
    pub contents: Vec<GeminiContent>,
}

/// The content entries a prompt expands to: one single-part entry per
/// message, each with its role mapped by [`role_of`].
pub open spec fn contents_spec(p: Prompt) -> Seq<ContentView> {
    match p {
        Prompt::Ask(a) => match a.role_play {
            Some(rp) => seq![
                ContentView { parts: seq![rp@], role: GeminiRole::User },
                ContentView { parts: seq![a.question@], role: GeminiRole::User },
            ],
            None => seq![ContentView { parts: seq![a.question@], role: GeminiRole::User }],
        },
        Prompt::Conversation(c) => c.messages@.map_values(
            |m: crate::Message| ContentView { parts: seq![m.content@], role: role_of(m.role) },
        ),
    }
}

impl GeminiRequest {
    /// Expand a prompt into a request body.
    pub fn from_prompt(prompt: Prompt) -> (r: GeminiRequest)
        ensures
            content_views(r.contents@) == contents_spec(prompt),
    {
        let ghost p = prompt;
        let mut contents: Vec<GeminiContent> = Vec::new();
        match prompt {
            Prompt::Ask(ask) => {
                match ask.role_play {
                    Some(role_play) => {
                        let mut parts: Vec<GeminiContentPart> = Vec::new();
                        parts.push(GeminiContentPart { text: role_play });
                        contents.push(GeminiContent { parts, role: GeminiRole::User });
                        let mut parts2: Vec<GeminiContentPart> = Vec::new();
                        parts2.push(GeminiContentPart { text: ask.question });
                        contents.push(GeminiContent { parts: parts2, role: GeminiRole::User });
                        proof {
                            assert(content_views(contents@)[0].parts =~= contents_spec(p)[0].parts);
                            assert(content_views(contents@)[1].parts =~= contents_spec(p)[1].parts);
                            assert(content_views(contents@) =~~= contents_spec(p));
                        }
                    },
                    None => {
                        let mut parts: Vec<GeminiContentPart> = Vec::new();
                        parts.push(GeminiContentPart { text: ask.question });
                        contents.push(GeminiContent { parts, role: GeminiRole::User });
                        proof {
                            assert(content_views(contents@)[0].parts =~= contents_spec(p)[0].parts);
                            assert(content_views(contents@) =~~= contents_spec(p));
                        }
                    },
                }
            },
            Prompt::Conversation(conversation) => {
                let ghost orig = conversation.messages@;
                let mut rest = conversation.messages;
                while rest.len() > 0
                    invariant
                        contents@.len() + rest@.len() == orig.len(),
                        rest@ == orig.skip(contents@.len() as int),
                        forall|i: int|
                            0 <= i < contents@.len() ==> #[trigger] content_views(contents@)[i]
                                == (ContentView {
                                parts: seq![orig[i].content@],
                                role: role_of(orig[i].role),
                            }),
                    decreases rest@.len(),
                {
                    let ghost j = contents@.len() as int;
                    let m = rest.remove(0);
                    proof {
                        assert(m == orig.skip(j)[0]);
                        assert(orig.skip(j)[0] == orig[j]);
                        assert(orig.skip(j).remove(0) =~= orig.skip(j + 1));
                    }
                    let role = GeminiRole::from_role(m.role);
                    let mut parts: Vec<GeminiContentPart> = Vec::new();
                    parts.push(GeminiContentPart { text: m.content });
                    let ghost prev = contents@;
                    contents.push(GeminiContent { parts, role });
                    proof {
                        assert(content_views(contents@)[j].parts =~= seq![orig[j].content@]);
                        assert(content_views(contents@)[j] == (ContentView {
                            parts: seq![orig[j].content@],
                            role: role_of(orig[j].role),
                        }));
                        assert(forall|i: int|
                            0 <= i < j ==> #[trigger] content_views(contents@)[i] == content_views(
                                prev,
                            )[i]);
                    }
                }
                proof {
                    assert(content_views(contents@) =~~= contents_spec(p));
                }
            },
        }
        GeminiRequest { contents }
    }
}

/// A response body: the candidate list.
#[derive(Debug, Clone, PartialEq)]
pub struct GeminiResponse {
    pub candidates: Vec<GeminiResponseCandidate>,
}

/// One response candidate.
#[derive(Debug, Clone, PartialEq)]
pub struct GeminiResponseCandidate {
    pub content: GeminiContent,
}

pub open spec fn candidate_text(c: GeminiResponseCandidate) -> Seq<char> {
    if c.content.parts@.len() == 0 {
        Seq::empty()
    } else {
        c.content.parts@[0].text@
    }
}

/// The text a response carries: the first candidate's first part, or the
/// empty string when candidates or parts are absent.
pub open spec fn response_text(r: GeminiResponse) -> Seq<char> {
    if r.candidates@.len() == 0 {
        Seq::empty()
    } else {
        candidate_text(r.candidates@[0])
    }
}

impl GeminiResponseCandidate {
    pub fn into_text(self) -> (r: String)
        ensures
            r@ == candidate_text(self),
    {
        let mut parts = self.content.parts;
        if parts.len() == 0 {
            String::new()
        } else {
            let p = parts.remove(0);
            p.text
        }
    }
}

impl GeminiResponse {
    pub fn into_text(self) -> (r: String)
        ensures
            r@ == response_text(self),
    {
        let mut candidates = self.candidates;
        if candidates.len() == 0 {
            String::new()
        } else {
            let c = candidates.remove(0);
            c.into_text()
        }
    }
}

} // verus!
