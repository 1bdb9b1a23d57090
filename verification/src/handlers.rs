//! Handler sinks: the consumers of the normalized delta stream.
//!
//! `Printer` displays fragments, `Recorder` accumulates them into a
//! transcript, and `Fanout` drives an ordered list of member sinks from one
//! stream, stopping at the first failure.

use std::io::Write;

use vstd::prelude::*;

use crate::{Handler, HandlerError, MutHandler};

verus! {

/// Relies on `std::io::Write::write_fmt` via the `write!` macro on standard
/// output: writes the fragment and reports whether the write succeeded.
#[verifier::external_body]
fn write_stdout(s: &str) -> bool {
    write!(std::io::stdout(), "{}", s).is_ok()
}

/// Relies on `std::io::Write::flush` on standard output: flushes buffered
/// output and reports whether that succeeded.
#[verifier::external_body]
fn flush_stdout() -> bool {
    std::io::stdout().flush().is_ok()
}

/// A sink that prints each fragment to standard output as it arrives.
/// Its abstract content is the text printed so far.
pub struct Printer {
    log: Ghost<Seq<char>>,
}

impl Printer {
    pub fn new() -> (r: Printer)
        ensures
            r.content() == Seq::<char>::empty(),
    {
        Printer { log: Ghost(Seq::empty()) }
    }
}

impl Handler for Printer {
    fn handle(&self, resp: &str) -> Result<(), HandlerError> {
        if write_stdout(resp) && flush_stdout() {
            Ok(())
        } else {
            Err(HandlerError::new("failed to write to stdout".to_owned()))
        }
    }
}

impl MutHandler for Printer {
    closed spec fn content(&self) -> Seq<char> {
        self.log@
    }

    /// Writing to standard output may fail at any time.
    open spec fn may_reject(&self, resp: Seq<char>) -> bool {
        true
    }

    fn handle_mut(&mut self, resp: &str) -> (r: Result<(), HandlerError>) {
        if write_stdout(resp) && flush_stdout() {
            self.log = Ghost(self.log@ + resp@);
            Ok(())
        } else {
            Err(HandlerError::new("failed to write to stdout".to_owned()))
        }
    }
}

/// A sink that appends every fragment to an owned transcript, retrievable
/// by the owner across streaming passes.
pub struct Recorder {
    buf: String,
}

impl Recorder {
    pub fn new() -> (r: Recorder)
        ensures
            r.content() == Seq::<char>::empty(),
    {
        Recorder { buf: String::new() }
    }

    /// The accumulated transcript.
    pub fn message(&self) -> (r: &str)
        ensures
            r@ == self.content(),
    {
        self.buf.as_str()
    }

    /// Hand out the accumulated transcript and reset the recorder.
    pub fn take(&mut self) -> (r: String)
        ensures
            r@ == old(self).content(),
            final(self).content() == Seq::<char>::empty(),
    {
        let mut s = String::new();
        core::mem::swap(&mut self.buf, &mut s);
        s
    }
}

impl MutHandler for Recorder {
    closed spec fn content(&self) -> Seq<char> {
        self.buf@
    }

    /// A recorder accepts every fragment.
    open spec fn may_reject(&self, resp: Seq<char>) -> bool {
        false
    }

    fn handle_mut(&mut self, resp: &str) -> (r: Result<(), HandlerError>)
        ensures
            r is Ok,
    {
        self.buf.append(resp);
        Ok(())
    }
}

/// A transcript sink with a fixed capacity: a fragment that would push the
/// accumulated text past the capacity is rejected and changes nothing.
pub struct BoundedRecorder {
    buf: String,
    capacity: usize,
}

impl BoundedRecorder {
    pub closed spec fn capacity(&self) -> usize {
        self.capacity
    }

    pub fn new(capacity: usize) -> (r: BoundedRecorder)
        ensures
            r.content() == Seq::<char>::empty(),
            r.capacity() == capacity,
    {
        BoundedRecorder { buf: String::new(), capacity }
    }

    /// The accumulated transcript.
    pub fn message(&self) -> (r: &str)
        ensures
            r@ == self.content(),
    {
        self.buf.as_str()
    }
}

impl MutHandler for BoundedRecorder {
    closed spec fn content(&self) -> Seq<char> {
        self.buf@
    }

    /// A fragment is rejected exactly when it no longer fits.
    open spec fn may_reject(&self, resp: Seq<char>) -> bool {
        self.content().len() + resp.len() > self.capacity()
    }

    /// A fragment is accepted exactly when it still fits; a rejected
    /// fragment leaves the transcript as it was.
    fn handle_mut(&mut self, resp: &str) -> (r: Result<(), HandlerError>)
        ensures
            final(self).capacity() == old(self).capacity(),
            (r is Ok) == (old(self).content().len() + resp@.len() <= old(self).capacity()),
            r is Err ==> final(self).content() == old(self).content(),
    {
        let have = self.buf.as_str().unicode_len();
        let incoming = resp.unicode_len();
        if incoming <= self.capacity && have <= self.capacity - incoming {
            self.buf.append(resp);
            Ok(())
        } else {
            Err(HandlerError::new("capacity exceeded".to_owned()))
        }
    }
}

/// A composite sink holding an ordered list of member sinks.  Each fragment
/// is delivered to the members in declared order; the first failure stops
/// the pass and propagates, and later members are not invoked for that
/// fragment.  Its own abstract content is the fragments every member
/// accepted.
pub struct Fanout<M> {
    members: Vec<M>,
    log: Ghost<Seq<char>>,
}

impl<M: MutHandler> Fanout<M> {
    pub closed spec fn members(&self) -> Seq<M> {
        self.members@
    }

    pub fn new(members: Vec<M>) -> (r: Fanout<M>)
        ensures
            r.members() == members@,
            r.content() == Seq::<char>::empty(),
    {
        Fanout { members, log: Ghost(Seq::empty()) }
    }

    /// Hand the member sinks back to the owner.
    pub fn into_members(self) -> (r: Vec<M>)
        ensures
            r@ == self.members(),
    {
        self.members
    }
}

/// Delivery of `resp` stopped at member `k`: every member before `k`
/// accepted the fragment, member `k` was one that may reject it, and the
/// rejecting member and every member after it kept their content
/// unchanged.
pub open spec fn short_circuited_at<M: MutHandler>(
    olds: Seq<M>,
    news: Seq<M>,
    resp: Seq<char>,
    k: int,
) -> bool {
    0 <= k < olds.len() && olds[k].may_reject(resp) && (forall|i: int|
        0 <= i < k ==> (#[trigger] news[i]).content() == olds[i].content() + resp) && (forall|
        i: int,
    |
        k <= i < olds.len() ==> (#[trigger] news[i]).content() == olds[i].content())
}

impl<M: MutHandler> MutHandler for Fanout<M> {
    closed spec fn content(&self) -> Seq<char> {
        self.log@
    }

    /// The composite may reject a fragment only where some member may.
    open spec fn may_reject(&self, resp: Seq<char>) -> bool {
        exists|i: int|
            0 <= i < self.members().len() && (#[trigger] self.members()[i]).may_reject(resp)
    }

    /// Fan-out short-circuit: on success every member accepted the
    /// fragment; on failure the members before the failing one accepted it,
    /// the failing member and every member after it are unchanged, and the
    /// composite's own content is unchanged.
    fn handle_mut(&mut self, resp: &str) -> (r: Result<(), HandlerError>)
        ensures
            final(self).members().len() == old(self).members().len(),
            r is Ok ==> forall|i: int|
                0 <= i < old(self).members().len() ==> (#[trigger] final(self).members()[i]).content()
                    == old(self).members()[i].content() + resp@,
            r is Err ==> final(self).content() == old(self).content(),
            r is Err ==> exists|k: int|
                short_circuited_at(old(self).members(), final(self).members(), resp@, k),
    {
        let ghost olds = self.members@;
        let mut rest: Vec<M> = Vec::new();
        core::mem::swap(&mut self.members, &mut rest);
        let mut done: Vec<M> = Vec::new();
        let mut failure: Option<HandlerError> = None;
        let ghost mut fail_at: int = 0;
        while rest.len() > 0
            invariant
                done@.len() + rest@.len() == olds.len(),
                rest@ == olds.skip(done@.len() as int),
                failure is None ==> forall|i: int|
                    0 <= i < done@.len() ==> (#[trigger] done@[i]).content() == olds[i].content()
                        + resp@,
                failure is Some ==> 0 <= fail_at < done@.len() && olds[fail_at].may_reject(
                    resp@,
                ) && (forall|i: int|
                    0 <= i < fail_at ==> (#[trigger] done@[i]).content() == olds[i].content()
                        + resp@) && (forall|i: int|
                    fail_at <= i < done@.len() ==> (#[trigger] done@[i]).content()
                        == olds[i].content()),
            decreases rest@.len(),
        {
            let ghost j = done@.len() as int;
            let mut m = rest.remove(0);
            proof {
                assert(m == olds.skip(j)[0]);
                assert(olds.skip(j)[0] == olds[j]);
                assert(olds.skip(j).remove(0) =~= olds.skip(j + 1));
            }
            if failure.is_some() {
                done.push(m);
            } else {
                match m.handle_mut(resp) {
                    Ok(_) => {
                        done.push(m);
                    },
                    Err(e) => {
                        failure = Some(e);
                        proof {
                            fail_at = j;
                        }
                        done.push(m);
                    },
                }
            }
        }
        core::mem::swap(&mut self.members, &mut done);
        match failure {
            Some(e) => {
                proof {
                    assert(short_circuited_at(olds, self.members@, resp@, fail_at));
                }
                Err(e)
            },
            None => {
                self.log = Ghost(self.log@ + resp@);
                Ok(())
            },
        }
    }
}

} // verus!
