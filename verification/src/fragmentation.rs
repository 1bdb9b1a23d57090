//! Fragmentation invariance: parsing a complete, well-formed wire payload
//! in one pass and parsing it split across chunks through the stream
//! reassembler yield the same frames, in the same order.

use vstd::prelude::*;

use crate::sse::{
    chunk_outcome, chunk_records, classify_spec, crlf_delim, delim_of, first_unknown,
    frames_of_records, lemma_frames_of_records_append, lf_delim, FrameView, ParseOutcome,
    ReaderView, SseResponse, SseStreamError, reader_step, split_seq, views_of, REASSEMBLY_LIMIT,
};
use crate::text::{contains_seq, find_from, lemma_find_from_props, match_at};

verus! {

// ---------------------------------------------------------------------------
// Well-formed payloads
// ---------------------------------------------------------------------------

/// A record that fragmentation cannot confuse: non-empty, classifiable,
/// carrying no carriage return, no embedded blank line, and not touching
/// the delimiter at either end.
pub open spec fn wf_record(r: Seq<char>) -> bool {
    r.len() > 0 && !(classify_spec(r) is Unknown) && (forall|i: int|
        0 <= i < r.len() ==> r[i] != '\r') && (forall|i: int| !match_at(r, lf_delim(), i))
        && r[0] != '\n' && r[r.len() - 1] != '\n'
}

pub open spec fn wf_records(rs: Seq<Seq<char>>) -> bool {
    forall|i: int| 0 <= i < rs.len() ==> wf_record(#[trigger] rs[i])
}

/// The wire text of a record sequence: each record terminated by `"\n\n"`.
pub open spec fn payload_of(rs: Seq<Seq<char>>) -> Seq<char>
    decreases rs.len(),
{
    if rs.len() == 0 {
        Seq::empty()
    } else {
        rs[0] + lf_delim() + payload_of(rs.skip(1))
    }
}

/// A clean unterminated tail: what may trail the last complete record
/// of a partially received payload.
pub open spec fn tail_clean(s: Seq<char>) -> bool {
    (forall|i: int| 0 <= i < s.len() ==> s[i] != '\r') && (forall|i: int|
        !match_at(s, lf_delim(), i)) && (s.len() > 0 ==> s[0] != '\n')
}

pub open spec fn concat_chunks(cs: Seq<Seq<char>>) -> Seq<char>
    decreases cs.len(),
{
    if cs.len() == 0 {
        Seq::empty()
    } else {
        cs[0] + concat_chunks(cs.skip(1))
    }
}

// ---------------------------------------------------------------------------
// Basic lemmas
// ---------------------------------------------------------------------------

/// A text without carriage returns is split on the `"\n\n"` delimiter.
proof fn lemma_no_cr_delim(t: Seq<char>)
    requires
        forall|i: int| 0 <= i < t.len() ==> t[i] != '\r',
    ensures
        delim_of(t) == lf_delim(),
{
    if contains_seq(t, crlf_delim()) {
        let i = choose|i: int| match_at(t, crlf_delim(), i);
        assert(t.subrange(i, i + 4)[0] == t[i]);
        assert(t[i] == '\r');
    }
}

proof fn lemma_payload_append(a: Seq<Seq<char>>, b: Seq<Seq<char>>)
    ensures
        payload_of(a + b) == payload_of(a) + payload_of(b),
    decreases a.len(),
{
    if a.len() == 0 {
        assert(a + b =~= b);
        assert(payload_of(a) + payload_of(b) =~= payload_of(b));
    } else {
        assert((a + b)[0] == a[0]);
        assert((a + b).skip(1) =~= a.skip(1) + b);
        lemma_payload_append(a.skip(1), b);
        assert(a[0] + lf_delim() + (payload_of(a.skip(1)) + payload_of(b)) =~= (a[0] + lf_delim()
            + payload_of(a.skip(1))) + payload_of(b));
    }
}

/// A payload is at least twice as long as its record count: each record
/// contributes itself and a delimiter.
proof fn lemma_payload_len(rs: Seq<Seq<char>>)
    ensures
        payload_of(rs).len() >= rs.len() * 2,
    decreases rs.len(),
{
    if rs.len() > 0 {
        lemma_payload_len(rs.skip(1));
    }
}

/// No character of a well-formed payload plus a clean tail is a carriage
/// return.
proof fn lemma_payload_no_cr(rs: Seq<Seq<char>>, s: Seq<char>)
    requires
        wf_records(rs),
        tail_clean(s),
    ensures
        forall|i: int| 0 <= i < (payload_of(rs) + s).len() ==> (payload_of(rs) + s)[i] != '\r',
    decreases rs.len(),
{
    if rs.len() == 0 {
        assert(payload_of(rs) + s =~= s);
    } else {
        assert(wf_records(rs.skip(1))) by {
            assert(forall|i: int|
                0 <= i < rs.len() - 1 ==> rs.skip(1)[i] == #[trigger] rs[i + 1]);
        }
        lemma_payload_no_cr(rs.skip(1), s);
        let t = payload_of(rs) + s;
        let rest = payload_of(rs.skip(1)) + s;
        assert(wf_record(rs[0]));
        assert forall|i: int| 0 <= i < t.len() implies t[i] != '\r' by {
            assert(t =~= rs[0] + lf_delim() + rest);
            if i < rs[0].len() {
                assert(t[i] == rs[0][i]);
            } else if i < rs[0].len() + 2 {
                assert(t[i] == lf_delim()[i - rs[0].len()]);
            } else {
                assert(t[i] == rest[i - rs[0].len() - 2]);
            }
        }
    }
}

/// In `r + "\n\n" + rest`, the first `"\n\n"` occurrence is exactly at the
/// end of `r`, provided `r` is well formed and `rest` does not begin with
/// a newline.
proof fn lemma_first_delim(r: Seq<char>, rest: Seq<char>)
    requires
        wf_record(r),
        rest.len() > 0 ==> rest[0] != '\n',
    ensures
        find_from(r + lf_delim() + rest, lf_delim(), 0) == Some(r.len() as int),
{
    let t = r + lf_delim() + rest;
    let n = r.len() as int;
    assert(t.len() == n + 2 + rest.len());
    assert forall|i: int| 0 <= i < n implies !match_at(t, lf_delim(), i) by {
        if match_at(t, lf_delim(), i) {
            assert(t.subrange(i, i + 2)[0] == t[i]);
            assert(t.subrange(i, i + 2)[1] == t[i + 1]);
            assert(t[i] == '\n' && t[i + 1] == '\n');
            if i + 1 < n {
                assert(t[i] == r[i] && t[i + 1] == r[i + 1]);
                assert(r.subrange(i, i + 2) =~= lf_delim());
                assert(match_at(r, lf_delim(), i));
            } else {
                assert(i + 1 == n);
                assert(t[i] == r[n - 1]);
            }
        }
    }
    assert(match_at(t, lf_delim(), n)) by {
        assert(t[n] == lf_delim()[0]);
        assert(t[n + 1] == lf_delim()[1]);
        assert(t.subrange(n, n + 2) =~= lf_delim());
    }
    lemma_find_from_props(t, lf_delim(), 0);
    if find_from(t, lf_delim(), 0) is None {
        assert(!match_at(t, lf_delim(), n));
    }
    let j = find_from(t, lf_delim(), 0)->Some_0;
    if j < n {
        assert(!match_at(t, lf_delim(), j));
    }
    if j > n {
        assert(!match_at(t, lf_delim(), n));
    }
}

/// Splitting a well-formed payload followed by a clean tail recovers the
/// records, with the tail as final segment.
proof fn lemma_split_payload(rs: Seq<Seq<char>>, s: Seq<char>)
    requires
        wf_records(rs),
        tail_clean(s),
    ensures
        split_seq(payload_of(rs) + s, lf_delim()) == rs + seq![s],
    decreases rs.len(),
{
    if rs.len() == 0 {
        let t = payload_of(rs) + s;
        assert(t =~= s);
        lemma_find_from_props(s, lf_delim(), 0);
        match find_from(s, lf_delim(), 0) {
            None => {
                assert(split_seq(t, lf_delim()) =~= rs + seq![s]);
            },
            Some(j) => {
                assert(match_at(s, lf_delim(), j));
            },
        }
    } else {
        assert(wf_records(rs.skip(1))) by {
            assert(forall|i: int|
                0 <= i < rs.len() - 1 ==> rs.skip(1)[i] == #[trigger] rs[i + 1]);
        }
        let rest = payload_of(rs.skip(1)) + s;
        let t = payload_of(rs) + s;
        assert(t =~= rs[0] + lf_delim() + rest);
        if rs.skip(1).len() > 0 {
            assert(rest[0] == rs.skip(1)[0][0]) by {
                let p1 = payload_of(rs.skip(1));
                assert(p1 =~= rs.skip(1)[0] + lf_delim() + payload_of(rs.skip(1).skip(1)));
                assert(wf_record(rs.skip(1)[0]));
                assert(p1[0] == rs.skip(1)[0][0]);
                assert(rest[0] == p1[0]);
            }
            assert(rest.len() > 0 ==> rest[0] != '\n');
        } else {
            assert(payload_of(rs.skip(1)) =~= Seq::<char>::empty());
            assert(rest =~= s);
        }
        lemma_first_delim(rs[0], rest);
        assert(split_seq(t, lf_delim()) == seq![t.subrange(0, rs[0].len() as int)] + split_seq(
            t.skip(rs[0].len() + 2int),
            lf_delim(),
        ));
        assert(t.subrange(0, rs[0].len() as int) =~= rs[0]);
        assert(t.skip(rs[0].len() + 2int) =~= rest);
        lemma_split_payload(rs.skip(1), s);
        assert(seq![rs[0]] + (rs.skip(1) + seq![s]) =~= rs + seq![s]);
    }
}

/// Every record of a well-formed sequence is classifiable.
proof fn lemma_first_unknown_none(rs: Seq<Seq<char>>)
    requires
        wf_records(rs),
    ensures
        first_unknown(rs) is None,
    decreases rs.len(),
{
    if rs.len() > 0 {
        assert(wf_record(rs[0]));
        assert(wf_records(rs.skip(1))) by {
            assert(forall|i: int|
                0 <= i < rs.len() - 1 ==> rs.skip(1)[i] == #[trigger] rs[i + 1]);
        }
        lemma_first_unknown_none(rs.skip(1));
    }
}

/// Parsing a well-formed payload followed by a clean tail: a complete
/// payload yields exactly its records' frames, and a payload with a
/// non-empty unterminated tail is incomplete.
pub proof fn lemma_prefix_outcome(rs: Seq<Seq<char>>, s: Seq<char>)
    requires
        wf_records(rs),
        tail_clean(s),
    ensures
        chunk_outcome(payload_of(rs) + s) == (if s.len() == 0 {
            ParseOutcome::Frames(frames_of_records(rs))
        } else {
            ParseOutcome::Incomplete
        }),
{
    let t = payload_of(rs) + s;
    lemma_payload_no_cr(rs, s);
    lemma_no_cr_delim(t);
    lemma_split_payload(rs, s);
    assert(chunk_records(t) == rs + seq![s]);
    assert((rs + seq![s]).drop_last() =~= rs);
    assert((rs + seq![s]).last() == s);
    lemma_first_unknown_none(rs);
}

// ---------------------------------------------------------------------------
// The reassembler, in specification form
// ---------------------------------------------------------------------------

/// The buffered tail of a reassembler state, as text.
pub open spec fn tail_text(v: ReaderView) -> Seq<char> {
    match v.tail {
        Some(t) => t,
        None => Seq::empty(),
    }
}

/// Whether feeding one more chunk trips the reassembly bound.
pub open spec fn feed_hits_limit(v: ReaderView) -> bool {
    v.tail is Some && v.attempts >= REASSEMBLY_LIMIT as int
}

/// The reassembler state after feeding one chunk.
pub open spec fn feed_state(v: ReaderView, c: Seq<char>) -> ReaderView {
    if feed_hits_limit(v) {
        ReaderView { tail: None, attempts: 0 }
    } else {
        let merged = tail_text(v) + c;
        match chunk_outcome(merged) {
            ParseOutcome::Frames(_) => ReaderView { tail: None, attempts: 0 },
            ParseOutcome::Incomplete => ReaderView {
                tail: Some(merged),
                attempts: if v.tail is Some {
                    v.attempts + 1
                } else {
                    1
                },
            },
            ParseOutcome::Malformed(_) => ReaderView { tail: None, attempts: 0 },
        }
    }
}

/// The frames one chunk feeds out of the reassembler.
pub open spec fn feed_frames(v: ReaderView, c: Seq<char>) -> Seq<FrameView> {
    if feed_hits_limit(v) {
        Seq::empty()
    } else {
        match chunk_outcome(tail_text(v) + c) {
            ParseOutcome::Frames(fs) => fs,
            _ => Seq::empty(),
        }
    }
}

/// Whether feeding one chunk leaves the stream alive.
pub open spec fn feed_ok(v: ReaderView, c: Seq<char>) -> bool {
    !feed_hits_limit(v) && !(chunk_outcome(tail_text(v) + c) is Malformed)
}

/// The contract of `SseStreamReader::maybe_parse` says exactly what
/// `feed_state`, `feed_frames` and `feed_ok` say: this lemma carries a
/// call's pre and post state over to the specification-level reassembler.
pub proof fn lemma_feed_agrees(
    pre: ReaderView,
    chunk: Seq<char>,
    r: Result<Option<Vec<SseResponse>>, SseStreamError>,
    post: ReaderView,
)
    requires
        match pre.tail {
            Some(t) => if pre.attempts >= REASSEMBLY_LIMIT as int {
                (r matches Err(e) && e == SseStreamError::LimitExceeded) && post.tail is None
                    && post.attempts == 0
            } else {
                reader_step(t + chunk, pre.attempts + 1, r, post)
            },
            None => reader_step(chunk, 1, r, post),
        },
    ensures
        post == feed_state(pre, chunk),
        (r is Ok) == feed_ok(pre, chunk),
        match r {
            Ok(Some(v)) => views_of(v@) == feed_frames(pre, chunk),
            Ok(None) => feed_frames(pre, chunk) == Seq::<FrameView>::empty(),
            Err(_) => true,
        },
{
    match pre.tail {
        Some(t) => {
            assert(tail_text(pre) + chunk =~= t + chunk);
        },
        None => {
            assert(tail_text(pre) + chunk =~= chunk);
        },
    }
}

/// Feeding a whole chunk sequence: the state afterwards, the frames fed
/// out in order, and whether every step kept the stream alive.
pub open spec fn run_state(v: ReaderView, cs: Seq<Seq<char>>) -> ReaderView
    decreases cs.len(),
{
    if cs.len() == 0 {
        v
    } else {
        run_state(feed_state(v, cs[0]), cs.skip(1))
    }
}

pub open spec fn run_frames(v: ReaderView, cs: Seq<Seq<char>>) -> Seq<FrameView>
    decreases cs.len(),
{
    if cs.len() == 0 {
        Seq::empty()
    } else {
        feed_frames(v, cs[0]) + run_frames(feed_state(v, cs[0]), cs.skip(1))
    }
}

pub open spec fn run_ok(v: ReaderView, cs: Seq<Seq<char>>) -> bool
    decreases cs.len(),
{
    if cs.len() == 0 {
        true
    } else {
        feed_ok(v, cs[0]) && run_ok(feed_state(v, cs[0]), cs.skip(1))
    }
}

// ---------------------------------------------------------------------------
// Decomposing a payload prefix
// ---------------------------------------------------------------------------

/// How many whole delimiter-terminated records fit into a prefix `q` of
/// the payload of `rs`.
pub open spec fn cut_records(rs: Seq<Seq<char>>, q: Seq<char>) -> int
    decreases rs.len(),
{
    if rs.len() == 0 {
        0
    } else if q.len() <= rs[0].len() + 1 {
        0
    } else {
        1 + cut_records(rs.skip(1), q.skip(rs[0].len() + 2int))
    }
}

/// Any prefix of a well-formed payload is some whole records followed by a
/// clean unterminated tail; the whole payload is exactly all its records.
proof fn lemma_cut(rs: Seq<Seq<char>>, q: Seq<char>)
    requires
        wf_records(rs),
        q.len() <= payload_of(rs).len(),
        q == payload_of(rs).take(q.len() as int),
    ensures
        ({
            let j = cut_records(rs, q);
            let done = payload_of(rs.take(j));
            0 <= j <= rs.len() && done.len() <= q.len() && q.subrange(0, done.len() as int) == done
                && tail_clean(q.skip(done.len() as int)) && (q.len() == payload_of(rs).len() ==> j
                == rs.len() && q.skip(done.len() as int).len() == 0)
        }),
    decreases rs.len(),
{
    let j = cut_records(rs, q);
    if rs.len() == 0 {
        assert(q =~= Seq::<char>::empty());
        assert(rs.take(0) =~= rs);
        assert(q.subrange(0, 0) =~= payload_of(rs.take(0)));
        assert(tail_clean(q.skip(0))) by {
            assert(q.skip(0) =~= q);
        }
    } else {
        let r0 = rs[0];
        let p = payload_of(rs);
        let rest = payload_of(rs.skip(1));
        assert(p =~= r0 + lf_delim() + rest);
        assert(wf_record(r0));
        if q.len() <= r0.len() + 1 {
            assert(j == 0);
            assert(rs.take(0) =~= Seq::<Seq<char>>::empty());
            assert(payload_of(rs.take(0)).len() == 0);
            assert(q.subrange(0, 0) =~= payload_of(rs.take(0)));
            let s = q.skip(0);
            assert(s =~= q);
            // q is a prefix of r0 + "\n": clean
            assert forall|i: int| 0 <= i < q.len() implies q[i] != '\r' by {
                assert(q[i] == p[i]);
                if i < r0.len() {
                    assert(p[i] == r0[i]);
                } else {
                    assert(p[i] == lf_delim()[i - r0.len()]);
                }
            }
            assert forall|i: int| !match_at(q, lf_delim(), i) by {
                if match_at(q, lf_delim(), i) {
                    assert(q.subrange(i, i + 2)[0] == q[i]);
                    assert(q.subrange(i, i + 2)[1] == q[i + 1]);
                    assert(q[i] == '\n' && q[i + 1] == '\n');
                    assert(q[i] == p[i] && q[i + 1] == p[i + 1]);
                    if i + 1 < r0.len() {
                        assert(p[i] == r0[i] && p[i + 1] == r0[i + 1]);
                        assert(r0.subrange(i, i + 2) =~= lf_delim());
                        assert(match_at(r0, lf_delim(), i));
                    } else {
                        assert(i + 1 == r0.len());
                        assert(p[i] == r0[r0.len() - 1]);
                    }
                }
            }
            if q.len() > 0 {
                assert(q[0] == p[0]);
                assert(p[0] == r0[0]);
            }
            lemma_payload_len(rs.skip(1));
            assert(p.len() >= r0.len() + 2);
            assert(q.len() < p.len());
        } else {
            assert(wf_records(rs.skip(1))) by {
                assert(forall|i: int|
                    0 <= i < rs.len() - 1 ==> rs.skip(1)[i] == #[trigger] rs[i + 1]);
            }
            let q2 = q.skip(r0.len() + 2int);
            assert(q.len() >= r0.len() + 2) by {
                if q.len() == r0.len() + 2 {
                } else {
                }
            }
            assert(q2.len() <= rest.len());
            assert(q2 =~= rest.take(q2.len() as int)) by {
                assert forall|i: int| 0 <= i < q2.len() implies q2[i] == rest[i] by {
                    assert(q2[i] == q[r0.len() + 2 + i]);
                    assert(q[r0.len() + 2 + i] == p[r0.len() + 2 + i]);
                    assert(p[r0.len() + 2 + i] == rest[i]);
                }
            }
            lemma_cut(rs.skip(1), q2);
            let j2 = cut_records(rs.skip(1), q2);
            assert(j == 1 + j2);
            let done2 = payload_of(rs.skip(1).take(j2));
            assert(rs.take(j).skip(1) =~= rs.skip(1).take(j2));
            assert(rs.take(j)[0] == r0);
            let done = payload_of(rs.take(j));
            assert(done =~= r0 + lf_delim() + done2);
            assert(done.len() == r0.len() + 2 + done2.len());
            assert(q.subrange(0, done.len() as int) =~= done) by {
                assert forall|i: int| 0 <= i < done.len() implies q[i] == done[i] by {
                    assert(q[i] == p[i]);
                    if i < r0.len() {
                        assert(p[i] == r0[i] && done[i] == r0[i]);
                    } else if i < r0.len() + 2 {
                        assert(p[i] == lf_delim()[i - r0.len()]);
                        assert(done[i] == lf_delim()[i - r0.len()]);
                    } else {
                        assert(p[i] == rest[i - r0.len() - 2]);
                        assert(done[i] == done2[i - r0.len() - 2]);
                        assert(q2.subrange(0, done2.len() as int) == done2);
                        assert(q2.subrange(0, done2.len() as int)[i - r0.len() - 2] == q2[i - r0
                            .len() - 2]);
                        assert(q2[i - r0.len() - 2] == rest[i - r0.len() - 2]);
                    }
                }
            }
            assert(q.skip(done.len() as int) =~= q2.skip(done2.len() as int)) by {
                assert forall|i: int| 0 <= i < q.len() - done.len() implies q.skip(
                    done.len() as int,
                )[i] == q2.skip(done2.len() as int)[i] by {
                    assert(q.skip(done.len() as int)[i] == q[done.len() + i]);
                    assert(q2.skip(done2.len() as int)[i] == q2[done2.len() + i]);
                    assert(q2[done2.len() + i] == q[r0.len() + 2 + done2.len() + i]);
                }
            }
            if q.len() == p.len() {
                assert(q2.len() == rest.len());
            }
        }
    }
}

// ---------------------------------------------------------------------------
// The fragmentation-invariance theorem
// ---------------------------------------------------------------------------

/// Feeding chunks that together cover the remaining records of a
/// well-formed payload delivers exactly those records' frames and leaves
/// no buffered tail.
#[verifier::rlimit(100)]
proof fn lemma_run(rs: Seq<Seq<char>>, j: int, v: ReaderView, cs: Seq<Seq<char>>)
    requires
        wf_records(rs),
        0 <= j <= rs.len(),
        tail_text(v) + concat_chunks(cs) == payload_of(rs.skip(j)),
        v.tail matches Some(t) ==> t.len() > 0,
        v.attempts + cs.len() <= REASSEMBLY_LIMIT as int,
        v.attempts >= 0,
        cs.len() == 0 ==> v.tail is None,
    ensures
        run_ok(v, cs),
        run_frames(v, cs) == frames_of_records(rs.skip(j)),
        run_state(v, cs).tail is None,
    decreases cs.len(),
{
    let suffix = rs.skip(j);
    assert(wf_records(suffix)) by {
        assert(forall|i: int|
            0 <= i < rs.len() - j ==> rs.skip(j)[i] == #[trigger] rs[i + j]);
    }
    if cs.len() == 0 {
        assert(tail_text(v) =~= payload_of(suffix));
        assert(tail_text(v) =~= Seq::<char>::empty());
        lemma_payload_len(suffix);
        assert(suffix.len() == 0);
        assert(frames_of_records(suffix) =~= Seq::<FrameView>::empty());
    } else {
        let c0 = cs[0];
        let merged = tail_text(v) + c0;
        let rest_text = concat_chunks(cs.skip(1));
        assert(payload_of(suffix) =~= merged + rest_text) by {
            assert(concat_chunks(cs) == c0 + rest_text);
            assert(tail_text(v) + (c0 + rest_text) =~= (tail_text(v) + c0) + rest_text);
        }
        assert(merged.len() <= payload_of(suffix).len());
        assert(merged == payload_of(suffix).take(merged.len() as int)) by {
            assert forall|i: int| 0 <= i < merged.len() implies payload_of(suffix).take(
                merged.len() as int,
            )[i] == merged[i] by {
                assert(payload_of(suffix)[i] == merged[i]);
            }
            assert(payload_of(suffix).take(merged.len() as int) =~= merged);
        }
        lemma_cut(suffix, merged);
        let j2 = cut_records(suffix, merged);
        let done = payload_of(suffix.take(j2));
        let s = merged.skip(done.len() as int);
        assert(merged =~= done + s) by {
            assert(merged.subrange(0, done.len() as int) == done);
            assert forall|i: int| 0 <= i < merged.len() implies merged[i] == (done + s)[i] by {
                if i < done.len() {
                    assert(merged.subrange(0, done.len() as int)[i] == merged[i]);
                }
            }
        }
        assert(wf_records(suffix.take(j2))) by {
            assert(forall|i: int|
                0 <= i < j2 ==> suffix.take(j2)[i] == #[trigger] suffix[i]);
        }
        lemma_prefix_outcome(suffix.take(j2), s);
        assert(!feed_hits_limit(v));
        if cs.len() == 1 {
            // the final chunk: the merged text is the whole remaining payload
            assert(rest_text =~= Seq::<char>::empty());
            assert(merged =~= payload_of(suffix));
            assert(merged.len() == payload_of(suffix).len());
            assert(j2 == suffix.len() && s.len() == 0);
            assert(suffix.take(j2) =~= suffix);
            assert(chunk_outcome(merged) == ParseOutcome::Frames(frames_of_records(suffix)));
            assert(feed_frames(v, c0) == frames_of_records(suffix));
            let v2 = feed_state(v, c0);
            assert(v2 == (ReaderView { tail: None, attempts: 0 }));
            assert(cs.skip(1).len() == 0);
            assert(run_frames(v2, cs.skip(1)) =~= Seq::<FrameView>::empty());
            assert(run_frames(v, cs) =~= frames_of_records(suffix));
            assert(feed_ok(v, c0));
            assert(run_ok(v2, cs.skip(1)));
            assert(run_ok(v, cs));
            assert(run_state(v, cs) == run_state(v2, cs.skip(1)));
            assert(run_state(v, cs).tail is None);
        } else {
            if s.len() == 0 {
                // the merged text ends on a record boundary: frames come out
                assert(merged =~= done);
                assert(chunk_outcome(merged) == ParseOutcome::Frames(
                    frames_of_records(suffix.take(j2)),
                ));
                let v2 = feed_state(v, c0);
                assert(v2 == (ReaderView { tail: None, attempts: 0 }));
                assert(suffix =~= suffix.take(j2) + suffix.skip(j2));
                lemma_payload_append(suffix.take(j2), suffix.skip(j2));
                assert(payload_of(suffix) == done + payload_of(suffix.skip(j2)));
                assert(tail_text(v2) + rest_text =~= payload_of(rs.skip(j + j2))) by {
                    assert(suffix.skip(j2) =~= rs.skip(j + j2));
                    assert forall|i: int| 0 <= i < rest_text.len() implies rest_text[i]
                        == payload_of(suffix.skip(j2))[i] by {
                        assert(payload_of(suffix)[done.len() + i] == rest_text[i]);
                        assert(payload_of(suffix)[done.len() + i] == payload_of(suffix.skip(j2))[
                            i
                        ]);
                    }
                    assert(rest_text =~= payload_of(suffix.skip(j2)));
                    assert(tail_text(v2) + rest_text =~= rest_text);
                }
                lemma_run(rs, j + j2, v2, cs.skip(1));
                assert(suffix.skip(j2) =~= rs.skip(j + j2));
                lemma_frames_of_records_append(suffix.take(j2), suffix.skip(j2));
                assert(frames_of_records(suffix.take(j2) + suffix.skip(j2)) == frames_of_records(
                    suffix.take(j2),
                ) + frames_of_records(suffix.skip(j2)));
                assert(frames_of_records(suffix) == frames_of_records(suffix.take(j2))
                    + frames_of_records(rs.skip(j + j2)));
                assert(run_frames(v, cs) == frames_of_records(suffix.take(j2)) + run_frames(
                    v2,
                    cs.skip(1),
                ));
                assert(feed_ok(v, c0));
                assert(run_ok(v, cs) == (feed_ok(v, c0) && run_ok(v2, cs.skip(1))));
                assert(run_state(v, cs) == run_state(v2, cs.skip(1)));
            } else {
                // the merged text still ends mid-record: it is buffered whole
                assert(chunk_outcome(merged) == ParseOutcome::Incomplete);
                let v2 = feed_state(v, c0);
                assert(v2.tail == Some(merged));
                assert(merged.len() > 0);
                assert(v2.attempts <= v.attempts + 1);
                assert(tail_text(v2) + rest_text =~= payload_of(rs.skip(j))) by {
                    assert(tail_text(v2) =~= merged);
                }
                lemma_run(rs, j, v2, cs.skip(1));
                assert(feed_frames(v, c0) =~= Seq::<FrameView>::empty());
                assert(run_frames(v, cs) =~= frames_of_records(rs.skip(j)));
                assert(feed_ok(v, c0));
                assert(run_ok(v, cs) == (feed_ok(v, c0) && run_ok(v2, cs.skip(1))));
                assert(run_state(v, cs) == run_state(v2, cs.skip(1)));
            }
        }
    }
}

/// Fragmentation invariance: for a complete well-formed wire payload,
/// feeding it to a fresh reassembler split into any chunk sequence, at
/// most `REASSEMBLY_LIMIT` chunks long, succeeds, buffers nothing at the
/// end, and feeds out exactly the frames that parsing the payload in one
/// pass yields.
pub proof fn theorem_fragmentation_invariance(rs: Seq<Seq<char>>, cs: Seq<Seq<char>>)
    requires
        wf_records(rs),
        concat_chunks(cs) == payload_of(rs),
        1 <= cs.len() <= REASSEMBLY_LIMIT as int,
    ensures
        run_ok(ReaderView { tail: None, attempts: 0 }, cs),
        run_state(ReaderView { tail: None, attempts: 0 }, cs).tail is None,
        run_frames(ReaderView { tail: None, attempts: 0 }, cs) == frames_of_records(rs),
        chunk_outcome(payload_of(rs)) == ParseOutcome::Frames(frames_of_records(rs)),
{
    let init = ReaderView { tail: None, attempts: 0 };
    assert(rs.skip(0) =~= rs);
    assert(tail_text(init) + concat_chunks(cs) =~= concat_chunks(cs));
    lemma_run(rs, 0, init, cs);
    assert(tail_clean(Seq::<char>::empty()));
    lemma_prefix_outcome(rs, Seq::<char>::empty());
    assert(payload_of(rs) + Seq::<char>::empty() =~= payload_of(rs));
}

} // verus!
