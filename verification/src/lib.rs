//! Streaming client library for text-generation providers.
//!
//! The core is an incremental wire-format parser for server-sent-event style
//! framing, a chunk reassembler that makes the parser resilient to arbitrary
//! network fragmentation, provider adapters that normalize vendor payloads
//! into a uniform delta stream, and pluggable handler sinks that consume it.

pub mod clients;
pub mod fragmentation;
pub mod handlers;
pub mod server;
pub mod sse;
pub mod stream;
pub mod text;
pub mod tools;

use vstd::prelude::*;

verus! {

/// Error produced when a provider request cannot be completed.
/// Its view is the error message.
#[derive(Debug)]
pub struct AIError {
    message: String,
}

impl View for AIError {
    type V = Seq<char>;

    closed spec fn view(&self) -> Seq<char> {
        self.message@
    }
}

impl AIError {
    pub fn new(message: String) -> (r: AIError)
        ensures
            r@ == message@,
    {
        AIError { message }
    }

    pub fn message(&self) -> (r: &str)
        ensures
            r@ == self@,
    {
        self.message.as_str()
    }
}

/// Error produced when a handler sink rejects a fragment.
/// Its view is the error message.
#[derive(Debug)]
pub struct HandlerError {
    message: String,
}

impl View for HandlerError {
    type V = Seq<char>;

    closed spec fn view(&self) -> Seq<char> {
        self.message@
    }
}

impl HandlerError {
    pub fn new(message: String) -> (r: HandlerError)
        ensures
            r@ == message@,
    {
        HandlerError { message }
    }

    pub fn message(&self) -> (r: &str)
        ensures
            r@ == self@,
    {
        self.message.as_str()
    }
}

/// A read-only sink: accepts a text fragment, performs a side effect, and
/// signals success or failure.  It retains no state observable to the caller.
pub trait Handler {
    fn handle(&self, resp: &str) -> Result<(), HandlerError>;
}

/// A mutable sink: accepts a text fragment and accumulates it into state
/// that the owner can observe later.  `content` is the accumulated text: a
/// successful delivery appends exactly the fragment to it, and a rejected
/// delivery leaves it as it was.  `may_reject` says on which fragments, in
/// which states, the sink may fail at all: every failure must be covered
/// by it, so a sink whose `may_reject` is false cannot fail.
pub trait MutHandler {
    spec fn content(&self) -> Seq<char>;

    spec fn may_reject(&self, resp: Seq<char>) -> bool;

    fn handle_mut(&mut self, resp: &str) -> (r: Result<(), HandlerError>)
        ensures
            r is Ok ==> final(self).content() == old(self).content() + resp@,
            r is Err ==> final(self).content() == old(self).content(),
            r is Err ==> old(self).may_reject(resp@),
    ;
}

/// The capability set a provider client offers: drive one prompt's
/// response stream into a read-only or a stateful sink.  Implementations
/// live with the transport that embeds the library.
pub trait GenerativeAIInterface {
    fn request<H: Handler>(&self, prompt: Prompt, handler: &H) -> Result<(), AIError>;

    fn request_mut<H: MutHandler>(&self, prompt: Prompt, handler: &mut H) -> Result<(), AIError>;
}

// ---------------------------------------------------------------------------
// Prompts
// ---------------------------------------------------------------------------

/// Who a conversation message is attributed to.
#[derive(Debug, Clone, Copy, PartialEq, Eq, Structural)]
pub enum Role {
    User,
    AI,
    RolePlay,
}

/// One message of a conversation.
#[derive(Debug, Clone, PartialEq)]
pub struct Message {
    pub role: Role,
    pub content: String,
}

/// The mathematical model of a message.
pub struct MessageView {
    pub role: Role,
    pub content: Seq<char>,
}

impl View for Message {
    type V = MessageView;

    open spec fn view(&self) -> MessageView {
        MessageView { role: self.role, content: self.content@ }
    }
}

/// The message models of a message sequence.
pub open spec fn msg_views(s: Seq<Message>) -> Seq<MessageView> {
    s.map_values(|m: Message| m@)
}

/// A single question, optionally framed by a role-play instruction.
#[derive(Debug, Clone, PartialEq)]
pub struct Ask {
    pub question: String,
    pub role_play: Option<String>,
}

/// The messages an `Ask` expands to: the role-play instruction first,
/// when present, then the question.
pub open spec fn ask_messages(a: Ask) -> Seq<MessageView> {
    match a.role_play {
        Some(rp) => seq![
            MessageView { role: Role::RolePlay, content: rp@ },
            MessageView { role: Role::User, content: a.question@ },
        ],
        None => seq![MessageView { role: Role::User, content: a.question@ }],
    }
}

impl Ask {
    pub fn messages(self) -> (r: Vec<Message>)
        ensures
            msg_views(r@) == ask_messages(self),
    {
        let ghost a = self;
        let mut r: Vec<Message> = Vec::new();
        match self.role_play {
            Some(role_play) => {
                r.push(Message { role: Role::RolePlay, content: role_play });
                r.push(Message { role: Role::User, content: self.question });
                proof {
                    assert(msg_views(r@) =~= ask_messages(a));
                }
            },
            None => {
                r.push(Message { role: Role::User, content: self.question });
                proof {
                    assert(msg_views(r@) =~= ask_messages(a));
                }
            },
        }
        r
    }
}

/// An ordered transcript of role-play, user and model messages.
#[derive(Debug, Clone, PartialEq)]
pub struct Conversation {
    pub messages: Vec<Message>,
}

impl Conversation {
    pub fn new() -> (r: Conversation)
        ensures
            r.messages@.len() == 0,
    {
        Conversation { messages: Vec::new() }
    }

    pub fn add_role_play_message(&mut self, content: &str)
        ensures
            msg_views(final(self).messages@) == msg_views(old(self).messages@).push(
                MessageView { role: Role::RolePlay, content: content@ },
            ),
    {
        self.messages.push(Message { role: Role::RolePlay, content: content.to_owned() });
        proof {
            assert(msg_views(self.messages@) =~= msg_views(old(self).messages@).push(
                MessageView { role: Role::RolePlay, content: content@ },
            ));
        }
    }

    pub fn add_user_message(&mut self, content: &str)
        ensures
            msg_views(final(self).messages@) == msg_views(old(self).messages@).push(
                MessageView { role: Role::User, content: content@ },
            ),
    {
        self.messages.push(Message { role: Role::User, content: content.to_owned() });
        proof {
            assert(msg_views(self.messages@) =~= msg_views(old(self).messages@).push(
                MessageView { role: Role::User, content: content@ },
            ));
        }
    }

    pub fn add_ai_message(&mut self, content: &str)
        ensures
            msg_views(final(self).messages@) == msg_views(old(self).messages@).push(
                MessageView { role: Role::AI, content: content@ },
            ),
    {
        self.messages.push(Message { role: Role::AI, content: content.to_owned() });
        proof {
            assert(msg_views(self.messages@) =~= msg_views(old(self).messages@).push(
                MessageView { role: Role::AI, content: content@ },
            ));
        }
    }

    pub fn messages(self) -> (r: Vec<Message>)
        ensures
            r == self.messages,
    {
        self.messages
    }
}

/// What is sent to a provider: a single question or a whole conversation.
#[derive(Debug, Clone, PartialEq)]
pub enum Prompt {
    Ask(Ask),
    Conversation(Conversation),
}

/// The characters that end a sentence when splitting a long message.
pub open spec fn is_sentence_end(c: char) -> bool {
    c == '.' || c == '!' || c == '?' || c == '\u{3002}' || c == '\u{ff01}' || c == '\u{ff1f}'
}

fn is_sentence_end_exec(c: char) -> (r: bool)
    ensures
        r == is_sentence_end(c),
{
    c == '.' || c == '!' || c == '?' || c == '\u{3002}' || c == '\u{ff01}' || c == '\u{ff1f}'
}

/// Split a message at every sentence-ending character, the separators
/// themselves removed.  Always yields at least one (possibly empty) piece.
pub open spec fn split_sentences(s: Seq<char>) -> Seq<Seq<char>>
    decreases s.len(),
{
    if s.len() == 0 {
        seq![Seq::<char>::empty()]
    } else if is_sentence_end(s[0]) {
        seq![Seq::<char>::empty()] + split_sentences(s.skip(1))
    } else {
        let r = split_sentences(s.skip(1));
        seq![seq![s[0]] + r[0]] + r.skip(1)
    }
}

pub proof fn lemma_split_sentences_len(s: Seq<char>)
    ensures
        split_sentences(s).len() >= 1,
    decreases s.len(),
{
    if s.len() == 0 {
    } else {
        lemma_split_sentences_len(s.skip(1));
    }
}

/// `r` with `pre` prepended to its first piece.
pub open spec fn prepend_first(r: Seq<Seq<char>>, pre: Seq<char>) -> Seq<Seq<char>> {
    seq![pre + r[0]] + r.skip(1)
}

/// Pack sentences into questions of at most `max` characters: each new
/// question starts with `base`, each sentence gets its period back, and a
/// sentence joins the last question only when it still fits.
pub open spec fn pack_asks(
    base: Seq<char>,
    sents: Seq<Seq<char>>,
    max: int,
    acc: Seq<Seq<char>>,
) -> Seq<Seq<char>>
    decreases sents.len(),
{
    if sents.len() == 0 {
        acc
    } else {
        let st = sents[0];
        let rest = sents.skip(1);
        if st.len() == 0 {
            pack_asks(base, rest, max, acc)
        } else if acc.len() == 0 {
            pack_asks(base, rest, max, acc.push(base + st + seq!['.']))
        } else if acc.last().len() + st.len() + 1 <= max {
            pack_asks(base, rest, max, acc.update(acc.len() - 1, acc.last() + st + seq!['.']))
        } else {
            pack_asks(base, rest, max, acc.push(base + st + seq!['.']))
        }
    }
}

/// The messages a prompt expands to.
pub open spec fn prompt_messages(p: Prompt) -> Seq<MessageView> {
    match p {
        Prompt::Ask(a) => ask_messages(a),
        Prompt::Conversation(c) => msg_views(c.messages@),
    }
}

impl Prompt {
    pub fn ask(question: &str) -> (r: Prompt)
        ensures
            r matches Prompt::Ask(a) && a.question@ == question@ && a.role_play is None,
    {
        Prompt::Ask(Ask { question: question.to_owned(), role_play: None })
    }

    pub fn ask_with_role_play(question: &str, role_play: &str) -> (r: Prompt)
        ensures
            r matches Prompt::Ask(a) && a.question@ == question@ && (a.role_play matches Some(rp)
                && rp@ == role_play@),
    {
        Prompt::Ask(Ask { question: question.to_owned(), role_play: Some(role_play.to_owned()) })
    }

    pub fn with_conversation(conversation: Conversation) -> (r: Prompt)
        ensures
            r == Prompt::Conversation(conversation),
    {
        Prompt::Conversation(conversation)
    }

    pub fn messages(self) -> (r: Vec<Message>)
        ensures
            msg_views(r@) == prompt_messages(self),
    {
        match self {
            Prompt::Ask(ask) => ask.messages(),
            Prompt::Conversation(conversation) => conversation.messages(),
        }
    }

    /// Split `message` into sentence-sized pieces and pack them into
    /// questions of at most `max_length` characters, each prefixed once by
    /// `base_message`.  See [`pack_asks`] for the exact packing.
    pub fn split_by_max_length(base_message: &str, message: &str, max_length: usize) -> (r: Vec<
        Prompt,
    >)
        ensures
            ({
                let packs = pack_asks(
                    base_message@,
                    split_sentences(message@),
                    max_length as int,
                    Seq::empty(),
                );
                r@.len() == packs.len() && forall|i: int|
                    0 <= i < r@.len() ==> (#[trigger] r@[i] matches Prompt::Ask(a) && a.question@
                        == packs[i] && a.role_play is None)
            }),
    {
        let n = message.unicode_len();
        let mut sents: Vec<String> = Vec::new();
        let mut start: usize = 0;
        let mut i: usize = 0;
        proof {
            lemma_split_sentences_len(message@);
            assert(message@.skip(0) =~= message@);
            assert(message@.subrange(0, 0) =~= Seq::<char>::empty());
            assert(crate::text::str_views(sents@) =~= Seq::<Seq<char>>::empty());
            assert(prepend_first(split_sentences(message@), Seq::<char>::empty())
                =~~= split_sentences(message@));
            assert(Seq::<Seq<char>>::empty() + split_sentences(message@) =~= split_sentences(
                message@,
            ));
        }
        while i < n
            invariant
                start <= i <= n,
                n == message@.len(),
                split_sentences(message@) == crate::text::str_views(sents@) + prepend_first(
                    split_sentences(message@.skip(i as int)),
                    message@.subrange(start as int, i as int),
                ),
            decreases n - i,
        {
            let ghost cur = message@.subrange(start as int, i as int);
            let ghost s_i = split_sentences(message@.skip(i as int));
            let ghost s_n = split_sentences(message@.skip(i + 1));
            proof {
                lemma_split_sentences_len(message@.skip(i + 1));
                assert(message@.skip(i as int)[0] == message@[i as int]);
                assert(message@.skip(i as int).skip(1) =~= message@.skip(i + 1));
            }
            let c = message.get_char(i);
            if is_sentence_end_exec(c) {
                proof {
                    assert(s_i == seq![Seq::<char>::empty()] + s_n);
                    assert(s_i[0] =~= Seq::<char>::empty());
                    assert(s_i.skip(1) =~= s_n);
                }
                let piece = message.substring_char(start, i).to_owned();
                let ghost old_views = crate::text::str_views(sents@);
                sents.push(piece);
                start = i + 1;
                proof {
                    assert(crate::text::str_views(sents@) =~= old_views.push(cur));
                    assert(message@.subrange(start as int, i + 1) =~= Seq::<char>::empty());
                    assert(prepend_first(s_n, Seq::<char>::empty()) =~~= s_n);
                    assert(old_views + prepend_first(s_i, cur) =~~= old_views.push(cur) + s_n);
                }
            } else {
                proof {
                    assert(s_i == seq![seq![message@[i as int]] + s_n[0]] + s_n.skip(1));
                    assert(message@.subrange(start as int, i + 1) =~= cur.push(
                        message@[i as int],
                    ));
                    assert(prepend_first(s_i, cur) =~~= prepend_first(
                        s_n,
                        message@.subrange(start as int, i + 1),
                    ));
                }
            }
            i = i + 1;
        }
        let last_piece = message.substring_char(start, n).to_owned();
        let ghost pre_views = crate::text::str_views(sents@);
        sents.push(last_piece);
        proof {
            assert(message@.skip(n as int) =~= Seq::<char>::empty());
            assert(split_sentences(Seq::<char>::empty()) == seq![Seq::<char>::empty()]);
            assert(prepend_first(
                seq![Seq::<char>::empty()],
                message@.subrange(start as int, n as int),
            ) =~~= seq![message@.subrange(start as int, n as int)]);
            assert(crate::text::str_views(sents@) =~= pre_views.push(
                message@.subrange(start as int, n as int),
            ));
            assert(pre_views + seq![message@.subrange(start as int, n as int)] =~= pre_views.push(
                message@.subrange(start as int, n as int),
            ));
            assert(split_sentences(message@) == crate::text::str_views(sents@));
        }
        // pack the sentences into questions
        let mut qs: Vec<String> = Vec::new();
        let mut k: usize = 0;
        let m = sents.len();
        proof {
            assert(crate::text::str_views(qs@) =~= Seq::<Seq<char>>::empty());
            assert(crate::text::str_views(sents@).skip(0) =~= crate::text::str_views(sents@));
        }
        while k < m
            invariant
                k <= m,
                m == sents@.len(),
                pack_asks(
                    base_message@,
                    crate::text::str_views(sents@),
                    max_length as int,
                    Seq::empty(),
                ) == pack_asks(
                    base_message@,
                    crate::text::str_views(sents@).skip(k as int),
                    max_length as int,
                    crate::text::str_views(qs@),
                ),
            decreases m - k,
        {
            let ghost svs = crate::text::str_views(sents@);
            let ghost qv = crate::text::str_views(qs@);
            let ghost st_spec = svs[k as int];
            proof {
                reveal_strlit(".");
                assert(svs.skip(k as int)[0] == svs[k as int]);
                assert(svs.skip(k as int).skip(1) =~= svs.skip(k + 1));
                assert("."@ =~= seq!['.']);
            }
            let st_len = sents[k].as_str().unicode_len();
            if st_len == 0 {
                proof {
                    assert(st_spec.len() == 0);
                }
            } else if qs.len() == 0 {
                let mut q = base_message.to_owned();
                q.append(sents[k].as_str());
                q.append(".");
                qs.push(q);
                proof {
                    assert(crate::text::str_views(qs@) =~= qv.push(
                        base_message@ + st_spec + seq!['.'],
                    ));
                }
            } else {
                let lq_len = qs[qs.len() - 1].as_str().unicode_len();
                proof {
                    assert(qs@[qs@.len() - 1]@ == qv.last());
                }
                if st_len < max_length && lq_len <= max_length - st_len - 1 {
                    let mut lq = qs.pop().unwrap();
                    lq.append(sents[k].as_str());
                    lq.append(".");
                    qs.push(lq);
                    proof {
                        assert(crate::text::str_views(qs@) =~= qv.update(
                            qv.len() - 1,
                            qv.last() + st_spec + seq!['.'],
                        ));
                        assert(qv.last().len() + st_spec.len() + 1 <= max_length as int);
                    }
                } else {
                    let mut q = base_message.to_owned();
                    q.append(sents[k].as_str());
                    q.append(".");
                    qs.push(q);
                    proof {
                        assert(crate::text::str_views(qs@) =~= qv.push(
                            base_message@ + st_spec + seq!['.'],
                        ));
                        assert(!(qv.last().len() + st_spec.len() + 1 <= max_length as int));
                    }
                }
            }
            k = k + 1;
        }
        proof {
            assert(crate::text::str_views(sents@).skip(m as int) =~= Seq::<Seq<char>>::empty());
        }
        // wrap each packed question in a prompt
        let mut r: Vec<Prompt> = Vec::new();
        let ghost qsv = qs@;
        let ghost packed = crate::text::str_views(qs@);
        let mut rest = qs;
        while rest.len() > 0
            invariant
                r@.len() + rest@.len() == qsv.len(),
                packed == crate::text::str_views(qsv),
                rest@ == qsv.skip(r@.len() as int),
                forall|i: int|
                    0 <= i < r@.len() ==> (#[trigger] r@[i] matches Prompt::Ask(a) && a.question@
                        == packed[i] && a.role_play is None),
            decreases rest@.len(),
        {
            let ghost j = r@.len() as int;
            let q = rest.remove(0);
            proof {
                assert(q == qsv.skip(j)[0]);
                assert(qsv.skip(j)[0] == qsv[j]);
                assert(q@ == packed[j]);
                assert(qsv.skip(j).remove(0) =~= qsv.skip(j + 1));
            }
            r.push(Prompt::Ask(Ask { question: q, role_play: None }));
        }
        r
    }

    /// Rebuild the prompt with every message content passed through `f`;
    /// roles and the role-play framing are kept as they are.
    pub fn replace_messages<F: Fn(String) -> String>(self, f: F) -> (r: Prompt)
        requires
            forall|x: String| call_requires(f, (x,)),
        ensures
            match (self, r) {
                (Prompt::Ask(a), Prompt::Ask(b)) => b.role_play == a.role_play && call_ensures(
                    f,
                    (a.question,),
                    b.question,
                ),
                (Prompt::Conversation(c), Prompt::Conversation(d)) => d.messages@.len()
                    == c.messages@.len() && forall|i: int|
                    0 <= i < c.messages@.len() ==> (#[trigger] d.messages@[i]).role
                        == c.messages@[i].role && call_ensures(
                        f,
                        (c.messages@[i].content,),
                        d.messages@[i].content,
                    ),
                _ => false,
            },
    {
        match self {
            Prompt::Ask(ask) => Prompt::Ask(
                Ask { question: f(ask.question), role_play: ask.role_play },
            ),
            Prompt::Conversation(conversation) => {
                let ghost orig = conversation.messages@;
                let mut rest = conversation.messages;
                let mut done: Vec<Message> = Vec::new();
                while rest.len() > 0
                    invariant
                        forall|x: String| call_requires(f, (x,)),
                        done@.len() + rest@.len() == orig.len(),
                        rest@ == orig.skip(done@.len() as int),
                        forall|i: int|
                            0 <= i < done@.len() ==> (#[trigger] done@[i]).role == orig[i].role
                                && call_ensures(f, (orig[i].content,), done@[i].content),
                    decreases rest@.len(),
                {
                    let ghost k = done@.len() as int;
                    let m = rest.remove(0);
                    proof {
                        assert(m == orig.skip(k)[0]);
                        assert(orig.skip(k)[0] == orig[k]);
                        assert(orig.skip(k).remove(0) =~= orig.skip(k + 1));
                    }
                    let content = f(m.content);
                    done.push(Message { role: m.role, content });
                }
                Prompt::Conversation(Conversation { messages: done })
            },
        }
    }
}

} // verus!
