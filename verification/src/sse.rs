//! Incremental wire-format parser for server-sent-event style framing.
//!
//! A chunk of text is split into records on a per-chunk delimiter
//! (`"\r\n\r\n"` when it occurs anywhere in the chunk, `"\n\n"` otherwise),
//! each record is classified by its line prefix, and the trailing record
//! decides whether the chunk is complete or ends mid-frame.

use vstd::prelude::*;

use crate::text::{
    contains_seq, contains_str, find_from, find_str, lemma_find_from_props, match_at, match_here,
    starts_with, trim_spec, trim_str, parse_u32_str, u32_value,
};

verus! {

// ---------------------------------------------------------------------------
// The wire grammar's fixed tokens, as character sequences
// ---------------------------------------------------------------------------

pub open spec fn data_prefix() -> Seq<char> {
    seq!['d', 'a', 't', 'a', ':']
}

pub open spec fn event_prefix() -> Seq<char> {
    seq!['e', 'v', 'e', 'n', 't', ':']
}

pub open spec fn id_prefix() -> Seq<char> {
    seq!['i', 'd', ':']
}

pub open spec fn retry_prefix() -> Seq<char> {
    seq!['r', 'e', 't', 'r', 'y', ':']
}

/// The separator that packs an event name and its payload into one record.
pub open spec fn event_data_sep() -> Seq<char> {
    seq!['\n', 'd', 'a', 't', 'a', ':', ' ']
}

pub open spec fn crlf_delim() -> Seq<char> {
    seq!['\r', '\n', '\r', '\n']
}

pub open spec fn lf_delim() -> Seq<char> {
    seq!['\n', '\n']
}

/// The record delimiter used for a chunk: `"\r\n\r\n"` when it occurs
/// anywhere in the chunk, `"\n\n"` otherwise.
pub open spec fn delim_of(s: Seq<char>) -> Seq<char> {
    if contains_seq(s, crlf_delim()) {
        crlf_delim()
    } else {
        lf_delim()
    }
}

// ---------------------------------------------------------------------------
// Frames
// ---------------------------------------------------------------------------

/// One classified wire record.
#[derive(Debug, Clone, PartialEq)]
pub enum SseResponse {
    Event(String),
    Data(String),
    Id(String),
    Retry(u32),
}

/// The mathematical model of a frame.
pub enum FrameView {
    Event(Seq<char>),
    Data(Seq<char>),
    Id(Seq<char>),
    Retry(u32),
}

impl View for SseResponse {
    type V = FrameView;

    open spec fn view(&self) -> FrameView {
        match self {
            SseResponse::Event(s) => FrameView::Event(s@),
            SseResponse::Data(s) => FrameView::Data(s@),
            SseResponse::Id(s) => FrameView::Id(s@),
            SseResponse::Retry(v) => FrameView::Retry(*v),
        }
    }
}

/// The frame models of a frame sequence.
pub open spec fn views_of(v: Seq<SseResponse>) -> Seq<FrameView> {
    v.map_values(|r: SseResponse| r@)
}

impl SseResponse {
    pub fn data(&self) -> (r: Option<&str>)
        ensures
            match r {
                Some(s) => self@ == FrameView::Data(s@),
                None => !(self@ is Data),
            },
    {
        match self {
            SseResponse::Data(data) => Some(data.as_str()),
            _ => None,
        }
    }

    pub fn event(&self) -> (r: Option<&str>)
        ensures
            match r {
                Some(s) => self@ == FrameView::Event(s@),
                None => !(self@ is Event),
            },
    {
        match self {
            SseResponse::Event(event) => Some(event.as_str()),
            _ => None,
        }
    }

    pub fn id(&self) -> (r: Option<&str>)
        ensures
            match r {
                Some(s) => self@ == FrameView::Id(s@),
                None => !(self@ is Id),
            },
    {
        match self {
            SseResponse::Id(id) => Some(id.as_str()),
            _ => None,
        }
    }

    pub fn retry(&self) -> (r: Option<u32>)
        ensures
            match r {
                Some(v) => self@ == FrameView::Retry(v),
                None => !(self@ is Retry),
            },
    {
        match self {
            SseResponse::Retry(retry) => Some(*retry),
            _ => None,
        }
    }
}

// ---------------------------------------------------------------------------
// Record classification
// ---------------------------------------------------------------------------

/// What a single non-empty record contributes to the frame sequence:
/// one or two frames, nothing (an unparseable `retry:` value is dropped),
/// or no classification at all.
pub enum RecordClass {
    Frames(Seq<FrameView>),
    Dropped,
    Unknown,
}

/// Classify one record by its line prefix.  An `event:` record whose
/// trimmed text contains `"\ndata: "` is split at the first occurrence
/// into an `Event` frame followed by a `Data` frame.
pub open spec fn classify_spec(rec: Seq<char>) -> RecordClass {
    if starts_with(rec, data_prefix()) {
        RecordClass::Frames(seq![FrameView::Data(trim_spec(rec.skip(5)))])
    } else if starts_with(rec, event_prefix()) {
        let t = trim_spec(rec.skip(6));
        match find_from(t, event_data_sep(), 0) {
            Some(j) => RecordClass::Frames(
                seq![
                    FrameView::Event(t.subrange(0, j)),
                    FrameView::Data(t.subrange(j + 7, t.len() as int)),
                ],
            ),
            None => RecordClass::Frames(seq![FrameView::Event(t)]),
        }
    } else if starts_with(rec, id_prefix()) {
        RecordClass::Frames(seq![FrameView::Id(trim_spec(rec.skip(3)))])
    } else if starts_with(rec, retry_prefix()) {
        match u32_value(trim_spec(rec.skip(6))) {
            Some(v) => RecordClass::Frames(seq![FrameView::Retry(v)]),
            None => RecordClass::Dropped,
        }
    } else {
        RecordClass::Unknown
    }
}

// ---------------------------------------------------------------------------
// Splitting a chunk into records
// ---------------------------------------------------------------------------

/// Split `s` on every occurrence of the delimiter `d`, keeping empty
/// segments.  The final segment is empty exactly when `s` ends on a
/// delimiter boundary.
pub open spec fn split_seq(s: Seq<char>, d: Seq<char>) -> Seq<Seq<char>>
    decreases s.len(),
    when d.len() >= 1
    via split_seq_decreases
{
    match find_from(s, d, 0) {
        None => seq![s],
        Some(j) => seq![s.subrange(0, j)] + split_seq(s.skip(j + d.len() as int), d),
    }
}

#[via_fn]
proof fn split_seq_decreases(s: Seq<char>, d: Seq<char>) {
    lemma_find_from_props(s, d, 0);
}

/// The records of a chunk, split on the chunk's own delimiter.
pub open spec fn chunk_records(s: Seq<char>) -> Seq<Seq<char>> {
    split_seq(s, delim_of(s))
}

pub proof fn lemma_split_seq_len(s: Seq<char>, d: Seq<char>)
    requires
        d.len() >= 1,
    ensures
        split_seq(s, d).len() >= 1,
    decreases s.len(),
{
    lemma_find_from_props(s, d, 0);
    match find_from(s, d, 0) {
        None => {},
        Some(j) => {
            lemma_split_seq_len(s.skip(j + d.len() as int), d);
        },
    }
}

// ---------------------------------------------------------------------------
// From records to the chunk's outcome
// ---------------------------------------------------------------------------

/// The frames contributed by a record sequence, in order; empty records
/// and dropped records contribute nothing.
pub open spec fn frames_of_records(recs: Seq<Seq<char>>) -> Seq<FrameView>
    decreases recs.len(),
{
    if recs.len() == 0 {
        Seq::empty()
    } else {
        let rest = frames_of_records(recs.skip(1));
        if recs[0].len() == 0 {
            rest
        } else {
            match classify_spec(recs[0]) {
                RecordClass::Frames(fs) => fs + rest,
                _ => rest,
            }
        }
    }
}

/// The first non-empty record that no known prefix classifies, if any.
pub open spec fn first_unknown(recs: Seq<Seq<char>>) -> Option<Seq<char>>
    decreases recs.len(),
{
    if recs.len() == 0 {
        None
    } else if recs[0].len() > 0 && classify_spec(recs[0]) is Unknown {
        Some(recs[0])
    } else {
        first_unknown(recs.skip(1))
    }
}

/// The outcome of parsing one chunk.
pub enum ParseOutcome {
    /// Every record is delimiter-terminated and classifiable: the frames, in order.
    Frames(Seq<FrameView>),
    /// The chunk ends mid-record; the caller must retry with more bytes.
    Incomplete,
    /// A delimiter-terminated record has no known prefix: malformed input.
    Malformed(Seq<char>),
}

/// What parsing a chunk yields.  A non-final unclassifiable record is a
/// hard parse failure; a non-empty final record means the chunk ends
/// mid-frame and is recoverable.
pub open spec fn chunk_outcome(s: Seq<char>) -> ParseOutcome {
    let recs = chunk_records(s);
    let body = recs.drop_last();
    match first_unknown(body) {
        Some(u) => ParseOutcome::Malformed(u),
        None => if recs.last().len() > 0 {
            ParseOutcome::Incomplete
        } else {
            ParseOutcome::Frames(frames_of_records(body))
        },
    }
}

// ---------------------------------------------------------------------------
// Helper lemmas
// ---------------------------------------------------------------------------

pub proof fn lemma_frames_of_records_append(a: Seq<Seq<char>>, b: Seq<Seq<char>>)
    ensures
        frames_of_records(a + b) == frames_of_records(a) + frames_of_records(b),
    decreases a.len(),
{
    if a.len() == 0 {
        assert(a + b =~= b);
        assert(frames_of_records(a) + frames_of_records(b) =~= frames_of_records(b));
    } else {
        assert((a + b).skip(1) =~= a.skip(1) + b);
        lemma_frames_of_records_append(a.skip(1), b);
        assert((a + b)[0] == a[0]);
        match classify_spec(a[0]) {
            RecordClass::Frames(fs) => {
                if a[0].len() > 0 {
                    assert(fs + (frames_of_records(a.skip(1)) + frames_of_records(b)) =~= (fs
                        + frames_of_records(a.skip(1))) + frames_of_records(b));
                }
            },
            _ => {},
        }
    }
}

pub proof fn lemma_first_unknown_append(a: Seq<Seq<char>>, b: Seq<Seq<char>>)
    ensures
        first_unknown(a + b) == match first_unknown(a) {
            Some(u) => Some(u),
            None => first_unknown(b),
        },
    decreases a.len(),
{
    if a.len() == 0 {
        assert(a + b =~= b);
    } else {
        assert((a + b)[0] == a[0]);
        assert((a + b).skip(1) =~= a.skip(1) + b);
        lemma_first_unknown_append(a.skip(1), b);
    }
}

/// Unfolding lemmas for singleton record sequences.
pub proof fn lemma_records_singleton(r: Seq<char>)
    ensures
        frames_of_records(seq![r]) == (if r.len() == 0 {
            Seq::<FrameView>::empty()
        } else {
            match classify_spec(r) {
                RecordClass::Frames(fs) => fs,
                _ => Seq::<FrameView>::empty(),
            }
        }),
        first_unknown(seq![r]) == (if r.len() > 0 && classify_spec(r) is Unknown {
            Some(r)
        } else {
            Option::<Seq<char>>::None
        }),
{
    let s = seq![r];
    assert(s.len() == 1);
    assert(s[0] == r);
    assert(s.skip(1) =~= Seq::<Seq<char>>::empty());
    assert(frames_of_records(Seq::<Seq<char>>::empty()) == Seq::<FrameView>::empty());
    assert(first_unknown(Seq::<Seq<char>>::empty()) is None);
    match classify_spec(r) {
        RecordClass::Frames(fs) => {
            if r.len() > 0 {
                assert(fs + Seq::<FrameView>::empty() =~= fs);
            }
        },
        _ => {},
    }
}

// ---------------------------------------------------------------------------
// Errors
// ---------------------------------------------------------------------------

/// Why a chunk failed to parse.
#[derive(Debug, Clone, PartialEq)]
pub enum SseResponseParseError {
    /// A delimiter-terminated record has no known prefix: malformed input,
    /// carried for diagnostics.
    InvalidFormat(String),
    /// A `retry:` value is not a valid integer.  Such records are dropped
    /// by the parser, so this variant is never produced by it.
    InvalidRetry(String),
    /// The chunk ends mid-record; the whole chunk text is carried so the
    /// caller can retry once more bytes arrive.
    InterruptedData(String),
}

// ---------------------------------------------------------------------------
// The parser
// ---------------------------------------------------------------------------

/// Outcome of classifying one record in executable code.
enum Classified {
    Frames(Vec<SseResponse>),
    Dropped,
    Unknown,
}

fn classify_record(rec: &str) -> (r: Classified)
    ensures
        match classify_spec(rec@) {
            RecordClass::Frames(fs) => r matches Classified::Frames(v) && views_of(v@) == fs,
            RecordClass::Dropped => r matches Classified::Dropped,
            RecordClass::Unknown => r matches Classified::Unknown,
        },
{
    proof {
        reveal_strlit("data:");
        reveal_strlit("event:");
        reveal_strlit("id:");
        reveal_strlit("retry:");
        reveal_strlit("\ndata: ");
        assert("data:"@ =~= data_prefix());
        assert("event:"@ =~= event_prefix());
        assert("id:"@ =~= id_prefix());
        assert("retry:"@ =~= retry_prefix());
        assert("\ndata: "@ =~= event_data_sep());
    }
    let n = rec.unicode_len();
    if n >= 5 && match_here(rec, "data:", 0) {
        let t = trim_str(rec.substring_char(5, n));
        proof {
            assert(rec@.subrange(5, n as int) =~= rec@.skip(5));
        }
        let mut v: Vec<SseResponse> = Vec::new();
        v.push(SseResponse::Data(t));
        proof {
            assert(views_of(v@) =~= seq![FrameView::Data(trim_spec(rec@.skip(5)))]);
        }
        Classified::Frames(v)
    } else if n >= 6 && match_here(rec, "event:", 0) {
        let t = trim_str(rec.substring_char(6, n));
        proof {
            assert(rec@.subrange(6, n as int) =~= rec@.skip(6));
        }
        let tlen = t.as_str().unicode_len();
        match find_str(t.as_str(), "\ndata: ") {
            Some(j) => {
                proof {
                    lemma_find_from_props(t@, event_data_sep(), 0);
                }
                let ev = t.as_str().substring_char(0, j).to_owned();
                let da = t.as_str().substring_char(j + 7, tlen).to_owned();
                let mut v: Vec<SseResponse> = Vec::new();
                v.push(SseResponse::Event(ev));
                v.push(SseResponse::Data(da));
                proof {
                    assert(views_of(v@) =~= seq![
                        FrameView::Event(t@.subrange(0, j as int)),
                        FrameView::Data(t@.subrange(j + 7, t@.len() as int)),
                    ]);
                }
                Classified::Frames(v)
            },
            None => {
                let mut v: Vec<SseResponse> = Vec::new();
                v.push(SseResponse::Event(t));
                proof {
                    assert(views_of(v@) =~= seq![FrameView::Event(trim_spec(rec@.skip(6)))]);
                }
                Classified::Frames(v)
            },
        }
    } else if n >= 3 && match_here(rec, "id:", 0) {
        let t = trim_str(rec.substring_char(3, n));
        proof {
            assert(rec@.subrange(3, n as int) =~= rec@.skip(3));
        }
        let mut v: Vec<SseResponse> = Vec::new();
        v.push(SseResponse::Id(t));
        proof {
            assert(views_of(v@) =~= seq![FrameView::Id(trim_spec(rec@.skip(3)))]);
        }
        Classified::Frames(v)
    } else if n >= 6 && match_here(rec, "retry:", 0) {
        let t = trim_str(rec.substring_char(6, n));
        proof {
            assert(rec@.subrange(6, n as int) =~= rec@.skip(6));
        }
        match parse_u32_str(t.as_str()) {
            Some(value) => {
                let mut v: Vec<SseResponse> = Vec::new();
                v.push(SseResponse::Retry(value));
                proof {
                    assert(views_of(v@) =~= seq![FrameView::Retry(value)]);
                }
                Classified::Frames(v)
            },
            None => Classified::Dropped,
        }
    } else {
        Classified::Unknown
    }
}

impl SseResponse {
    /// Parse one chunk of text into the ordered frames it fully contains.
    ///
    /// The chunk is split on its own delimiter.  A non-final record that no
    /// known prefix classifies is a hard parse failure; a non-empty final
    /// record means the chunk ends mid-frame, and the whole chunk is handed
    /// back for reassembly with later bytes.
    pub fn from_chunk(chunk: &str) -> (r: Result<Vec<SseResponse>, SseResponseParseError>)
        ensures
            match chunk_outcome(chunk@) {
                ParseOutcome::Frames(fs) => r matches Ok(v) && views_of(v@) == fs,
                ParseOutcome::Incomplete => r matches Err(SseResponseParseError::InterruptedData(t))
                    && t@ == chunk@,
                ParseOutcome::Malformed(u) => r matches Err(SseResponseParseError::InvalidFormat(t))
                    && t@ == u,
            },
    {
        proof {
            reveal_strlit("\r\n\r\n");
            reveal_strlit("\n\n");
            assert("\r\n\r\n"@ =~= crlf_delim());
            assert("\n\n"@ =~= lf_delim());
        }
        let d: &str = if contains_str(chunk, "\r\n\r\n") {
            "\r\n\r\n"
        } else {
            "\n\n"
        };
        let dl = d.unicode_len();
        let mut rem: &str = chunk;
        let mut frames: Vec<SseResponse> = Vec::new();
        let ghost mut processed: Seq<Seq<char>> = Seq::empty();
        proof {
            assert(processed + split_seq(rem@, d@) =~= split_seq(rem@, d@));
        }
        loop
            invariant
                d@ == delim_of(chunk@),
                1 <= d@.len() <= 4,
                dl == d@.len(),
                chunk_records(chunk@) == processed + split_seq(rem@, d@),
                first_unknown(processed) is None,
                views_of(frames@) == frames_of_records(processed),
            decreases rem@.len(),
        {
            let rem_len = rem.unicode_len();
            match find_str(rem, d) {
                None => {
                    proof {
                        lemma_split_seq_len(rem@, d@);
                        assert(split_seq(rem@, d@) =~= seq![rem@]);
                        assert((processed + seq![rem@]).drop_last() =~= processed);
                        assert((processed + seq![rem@]).last() == rem@);
                    }
                    if rem_len == 0 {
                        return Ok(frames);
                    } else {
                        return Err(SseResponseParseError::InterruptedData(chunk.to_owned()));
                    }
                },
                Some(j) => {
                    proof {
                        lemma_find_from_props(rem@, d@, 0);
                    }
                    let rec = rem.substring_char(0, j);
                    let next = rem.substring_char(j + dl, rem_len);
                    proof {
                        assert(rem@.subrange(j + dl, rem_len as int) =~= rem@.skip(j + d@.len()));
                        assert(split_seq(rem@, d@) == seq![rem@.subrange(0, j as int)] + split_seq(
                            rem@.skip(j + d@.len()),
                            d@,
                        ));
                    }
                    if j == 0 {
                        proof {
                            assert(rec@ =~= Seq::<char>::empty());
                            lemma_step_keep(processed, rec@, next@, d@, frames@);
                            processed = processed.push(rec@);
                        }
                    } else {
                        match classify_record(rec) {
                            Classified::Frames(mut fs) => {
                                proof {
                                    lemma_step_frames(processed, rec@, next@, d@, frames@, views_of(fs@));
                                    processed = processed.push(rec@);
                                }
                                frames.append(&mut fs);
                                proof {
                                    assert(views_of(frames@) =~= frames_of_records(processed));
                                }
                            },
                            Classified::Dropped => {
                                proof {
                                    lemma_step_keep(processed, rec@, next@, d@, frames@);
                                    processed = processed.push(rec@);
                                }
                            },
                            Classified::Unknown => {
                                proof {
                                    lemma_step_unknown(processed, rec@, next@, d@);
                                }
                                return Err(SseResponseParseError::InvalidFormat(rec.to_owned()));
                            },
                        }
                    }
                    rem = next;
                },
            }
        }
    }
}

// ---------------------------------------------------------------------------
// Frame-level handlers
// ---------------------------------------------------------------------------

/// Error produced when a frame-level handler rejects a frame.
/// Its view is the error message.
#[derive(Debug)]
pub struct SseHandlerError {
    message: String,
}

impl View for SseHandlerError {
    type V = Seq<char>;

    closed spec fn view(&self) -> Seq<char> {
        self.message@
    }
}

impl SseHandlerError {
    pub fn new(message: String) -> (r: SseHandlerError)
        ensures
            r@ == message@,
    {
        SseHandlerError { message }
    }

    pub fn message(&self) -> (r: &str)
        ensures
            r@ == self@,
    {
        self.message.as_str()
    }
}

/// Error produced when driving a whole frame stream fails.
/// Its view is the error message.
#[derive(Debug)]
pub struct SseHandleStreamError {
    message: String,
}

impl View for SseHandleStreamError {
    type V = Seq<char>;

    closed spec fn view(&self) -> Seq<char> {
        self.message@
    }
}

impl SseHandleStreamError {
    pub fn new(message: String) -> (r: SseHandleStreamError)
        ensures
            r@ == message@,
    {
        SseHandleStreamError { message }
    }

    pub fn message(&self) -> (r: &str)
        ensures
            r@ == self@,
    {
        self.message.as_str()
    }
}

/// A read-only consumer of parsed frames.
pub trait SseHandler {
    fn handle(&self, frame: SseResponse) -> Result<(), SseHandlerError>;
}

/// A stateful consumer of parsed frames.
pub trait SseMutHandler {
    fn handle(&mut self, frame: SseResponse) -> Result<(), SseHandlerError>;
}

// ---------------------------------------------------------------------------
// Laws of the parser
// ---------------------------------------------------------------------------

/// Delimiter auto-detection: a chunk containing any `"\r\n\r\n"` occurrence
/// is split on that delimiter for the entire chunk, even where `"\n\n"`
/// also occurs inside a value.
pub proof fn lemma_delimiter_auto_detection(s: Seq<char>)
    requires
        contains_seq(s, crlf_delim()),
    ensures
        delim_of(s) == crlf_delim(),
        chunk_records(s) == split_seq(s, crlf_delim()),
{
}

/// An `event:` record whose trimmed text contains `"\ndata: "` yields
/// exactly two frames, `Event` then `Data`, with the content split at the
/// first occurrence only.
pub proof fn lemma_event_data_split(rec: Seq<char>, j: int)
    requires
        starts_with(rec, event_prefix()),
        find_from(trim_spec(rec.skip(6)), event_data_sep(), 0) == Some(j),
    ensures
        classify_spec(rec) == RecordClass::Frames(
            seq![
                FrameView::Event(trim_spec(rec.skip(6)).subrange(0, j)),
                FrameView::Data(
                    trim_spec(rec.skip(6)).subrange(j + 7, trim_spec(rec.skip(6)).len() as int),
                ),
            ],
        ),
        forall|k: int| 0 <= k < j ==> !match_at(trim_spec(rec.skip(6)), event_data_sep(), k),
{
    assert(rec.subrange(0, 6)[0] == rec[0]);
    assert(rec[0] == 'e');
    if starts_with(rec, data_prefix()) {
        assert(rec.subrange(0, 5)[0] == rec[0]);
        assert(rec[0] == 'd');
    }
    lemma_find_from_props(trim_spec(rec.skip(6)), event_data_sep(), 0);
}

// ---------------------------------------------------------------------------
// Stream reassembly
// ---------------------------------------------------------------------------

/// A buffered tail may absorb at most this many further chunks before the
/// stream fails instead of buffering forever.
pub const REASSEMBLY_LIMIT: usize = 10;

/// Why a stream of chunks failed.
#[derive(Debug, Clone, PartialEq)]
pub enum SseStreamError {
    /// A delimiter-terminated record had no known prefix.
    Malformed(String),
    /// A buffered tail absorbed more than `REASSEMBLY_LIMIT` chunks
    /// without completing a record.
    LimitExceeded,
}

/// The abstract state of a reassembler: the buffered incomplete tail, if
/// any, and how many chunks have been merged into it.
pub struct ReaderView {
    pub tail: Option<Seq<char>>,
    pub attempts: int,
}

/// Stateful wrapper around the frame parser: buffers an incomplete tail
/// and prepends it to the next chunk, with a bound on how many chunks one
/// tail may absorb.
pub struct SseStreamReader {
    interrupted_data: Option<String>,
    attempts: usize,
}

impl View for SseStreamReader {
    type V = ReaderView;

    closed spec fn view(&self) -> ReaderView {
        ReaderView {
            tail: match self.interrupted_data {
                Some(t) => Some(t@),
                None => None,
            },
            attempts: self.attempts as int,
        }
    }
}

/// The text a reassembler parses on its next chunk: the buffered tail, if
/// any, followed by the chunk.
pub open spec fn merged_text(v: ReaderView, chunk: Seq<char>) -> Seq<char> {
    match v.tail {
        Some(t) => t + chunk,
        None => chunk,
    }
}

/// How one reassembly step relates the parsed text to the result and the
/// state after the call.
pub open spec fn reader_step(
    text: Seq<char>,
    merges: int,
    r: Result<Option<Vec<SseResponse>>, SseStreamError>,
    post: ReaderView,
) -> bool {
    match chunk_outcome(text) {
        ParseOutcome::Frames(fs) => r matches Ok(Some(v)) && views_of(v@) == fs && post.tail
            is None && post.attempts == 0,
        ParseOutcome::Incomplete => r matches Ok(None) && post.tail == Some(text) && post.attempts
            == merges,
        ParseOutcome::Malformed(u) => r matches Err(SseStreamError::Malformed(m)) && m@ == u
            && post.tail is None && post.attempts == 0,
    }
}

/// No loss on an exact boundary: when the parsed text ends on a delimiter
/// boundary (its final split segment is empty), a reassembly step never
/// buffers a tail.
pub proof fn lemma_no_loss_on_exact_boundary(
    text: Seq<char>,
    merges: int,
    r: Result<Option<Vec<SseResponse>>, SseStreamError>,
    post: ReaderView,
)
    requires
        reader_step(text, merges, r, post),
        chunk_records(text).last().len() == 0,
    ensures
        post.tail is None,
{
}

impl SseStreamReader {
    pub fn new() -> (r: SseStreamReader)
        ensures
            r@.tail is None,
            r@.attempts == 0,
    {
        SseStreamReader { interrupted_data: None, attempts: 0 }
    }

    /// Feed one chunk.  If a tail is buffered it is prepended first; the
    /// merged text is parsed from scratch.  `Ok(Some(frames))` delivers the
    /// frames of a complete text, `Ok(None)` means the text still ends
    /// mid-record and was buffered, and an error is fatal to the stream.
    pub fn maybe_parse(&mut self, chunk: &str) -> (r: Result<
        Option<Vec<SseResponse>>,
        SseStreamError,
    >)
        ensures
            match old(self)@.tail {
                Some(t) => if old(self)@.attempts >= REASSEMBLY_LIMIT {
                    r matches Err(SseStreamError::LimitExceeded) && final(self)@.tail is None
                        && final(self)@.attempts == 0
                } else {
                    reader_step(t + chunk@, old(self)@.attempts + 1, r, final(self)@)
                },
                None => reader_step(chunk@, 1, r, final(self)@),
            },
    {
        let mut tail: Option<String> = None;
        core::mem::swap(&mut self.interrupted_data, &mut tail);
        let text: String = match tail {
            Some(t) => {
                if self.attempts >= REASSEMBLY_LIMIT {
                    self.attempts = 0;
                    return Err(SseStreamError::LimitExceeded);
                }
                self.attempts = self.attempts + 1;
                let mut s = t;
                s.append(chunk);
                s
            },
            None => {
                self.attempts = 1;
                chunk.to_owned()
            },
        };
        match SseResponse::from_chunk(text.as_str()) {
            Ok(frames) => {
                self.attempts = 0;
                Ok(Some(frames))
            },
            Err(SseResponseParseError::InterruptedData(t)) => {
                self.interrupted_data = Some(t);
                Ok(None)
            },
            Err(SseResponseParseError::InvalidFormat(m)) => {
                self.attempts = 0;
                Err(SseStreamError::Malformed(m))
            },
            Err(SseResponseParseError::InvalidRetry(m)) => {
                proof {
                    assert(false);
                }
                Err(SseStreamError::Malformed(m))
            },
        }
    }
}

/// Stepping past a record that contributes no frames (empty or dropped)
/// preserves the loop's bookkeeping.
proof fn lemma_step_keep(
    processed: Seq<Seq<char>>,
    rec: Seq<char>,
    next: Seq<char>,
    d: Seq<char>,
    frames: Seq<SseResponse>,
)
    requires
        d.len() >= 1,
        first_unknown(processed) is None,
        views_of(frames) == frames_of_records(processed),
        rec.len() == 0 || classify_spec(rec) is Dropped,
    ensures
        processed + (seq![rec] + split_seq(next, d)) =~= processed.push(rec) + split_seq(next, d),
        first_unknown(processed.push(rec)) is None,
        views_of(frames) == frames_of_records(processed.push(rec)),
{
    assert(processed.push(rec) =~= processed + seq![rec]);
    lemma_records_singleton(rec);
    lemma_first_unknown_append(processed, seq![rec]);
    lemma_frames_of_records_append(processed, seq![rec]);
    assert(frames_of_records(processed) + Seq::<FrameView>::empty() =~= frames_of_records(
        processed,
    ));
    assert(processed + (seq![rec] + split_seq(next, d)) =~= (processed + seq![rec]) + split_seq(
        next,
        d,
    ));
}

/// Stepping past a record that contributes frames appends exactly those
/// frames to the loop's bookkeeping.
proof fn lemma_step_frames(
    processed: Seq<Seq<char>>,
    rec: Seq<char>,
    next: Seq<char>,
    d: Seq<char>,
    frames: Seq<SseResponse>,
    fs: Seq<FrameView>,
)
    requires
        d.len() >= 1,
        first_unknown(processed) is None,
        views_of(frames) == frames_of_records(processed),
        rec.len() > 0,
        classify_spec(rec) == RecordClass::Frames(fs),
    ensures
        processed + (seq![rec] + split_seq(next, d)) =~= processed.push(rec) + split_seq(next, d),
        first_unknown(processed.push(rec)) is None,
        frames_of_records(processed.push(rec)) == views_of(frames) + fs,
{
    assert(processed.push(rec) =~= processed + seq![rec]);
    lemma_records_singleton(rec);
    lemma_first_unknown_append(processed, seq![rec]);
    lemma_frames_of_records_append(processed, seq![rec]);
    assert(processed + (seq![rec] + split_seq(next, d)) =~= (processed + seq![rec]) + split_seq(
        next,
        d,
    ));
}

/// An unclassifiable non-final record makes the whole chunk malformed,
/// and it is the first such record.
proof fn lemma_step_unknown(processed: Seq<Seq<char>>, rec: Seq<char>, next: Seq<char>, d: Seq<char>)
    requires
        d.len() >= 1,
        first_unknown(processed) is None,
        rec.len() > 0,
        classify_spec(rec) is Unknown,
    ensures
        first_unknown((processed + (seq![rec] + split_seq(next, d))).drop_last()) == Some(rec),
{
    let tail = seq![rec] + split_seq(next, d);
    lemma_split_seq_len(next, d);
    assert((processed + tail).drop_last() =~= processed + tail.drop_last());
    assert(tail.drop_last() =~= seq![rec] + split_seq(next, d).drop_last());
    lemma_first_unknown_append(processed, tail.drop_last());
    lemma_first_unknown_append(seq![rec], split_seq(next, d).drop_last());
    lemma_records_singleton(rec);
}

} // verus!
