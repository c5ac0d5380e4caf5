//! The dispatch of completions.
//!
//! Every connection goes through three operations, one after the other:
//! it is accepted, the response is written to it, and it is closed. Nothing
//! moves a connection forward but the completion of the operation before.
//! [`EventLoop::handle_completion`] takes one completion, works out from its
//! tag what has finished, and answers with the operations to submit next:
//!
//! | completion | result     | submitted next                                   |
//! |------------|------------|--------------------------------------------------|
//! | `Accept`   | positive   | a write to the new descriptor, then a new accept |
//! | `Accept`   | otherwise  | a new accept                                     |
//! | `Write`    | any        | a close of the descriptor in the tag             |
//! | `Close`    | any        | nothing                                          |
//!
//! The loop owns the accept counter, which numbers the accepts, and the
//! pending-operation store, which keeps their address buffers. The buffer of
//! an accept leaves the store when the accept completes, whatever its result.
//!
//! A completion whose tag names no kind of operation is none of the
//! responder's: the responder submits no such tag. There is nothing to do for
//! it but to stop, and the driver does so before it calls the loop.

use crate::config::ACCEPT_POOL;
use crate::count::{count, equal_to, lemma_count_empty, lemma_count_push, one_if};
use crate::store::PendingStore;
use crate::submit::{
    accept_submission, accepts, close_submission, id_descriptor, id_to_descriptor,
    lemma_descriptor_round_trip, send_submission, submit_accept, submit_close, submit_send,
    Submission,
};
use crate::tag::{EventKind, UserData};
use vstd::prelude::*;

verus! {

/// A finished operation, as the completion ring reports it.
#[derive(Clone, Copy, PartialEq, Eq, Debug)]
pub struct Completion {
    /// The value the operation was submitted with.
    pub user_data: u64,
    /// What the operation came to. A negative number is an error code of the
    /// operating system. For an accept, a positive number is the descriptor of
    /// the new connection.
    pub result: i32,
}

impl Completion {
    /// The tag of the operation that has finished, if the value that came
    /// with the completion stands for a tag.
    pub open spec fn tagged(self) -> Option<UserData> {
        UserData::decoding(self.user_data)
    }

    /// Returns the tag of the operation that has finished, or `None` if the
    /// value that came with the completion names no kind of operation.
    pub fn tag(&self) -> (tag: Option<UserData>)
        ensures
            tag == self.tagged(),
    {
        UserData::decode(self.user_data)
    }
}

/// What an [`EventLoop`] remembers.
pub struct LoopState<B> {
    /// The identifier the next accept is given.
    pub counter: u32,
    /// The address buffers of accepts that the ring has taken, by identifier.
    pub pending: Map<u32, B>,
}

/// The value of the accept counter after `steps` accepts were numbered,
/// starting from `counter`. The counter wraps around after `u32::MAX`.
pub open spec fn advance(counter: u32, steps: nat) -> u32 {
    ((counter + steps) % 0x1_0000_0000) as u32
}

/// The operations that follow the completion of the operation tagged `tag`
/// with the result `result`, in the order in which they are submitted, when
/// the accept counter stands at `counter`.
pub open spec fn reaction(counter: u32, tag: UserData, result: i32) -> Seq<Submission> {
    match tag.kind {
        EventKind::Accept => if result > 0 {
            seq![send_submission(result), accept_submission(counter)]
        } else {
            seq![accept_submission(counter)]
        },
        EventKind::Write => seq![close_submission(id_descriptor(tag.id))],
        EventKind::Close => seq![],
    }
}

/// What the loop remembers after it has numbered one more accept.
pub open spec fn after_numbering<B>(state: LoopState<B>) -> LoopState<B> {
    LoopState { counter: advance(state.counter, 1), pending: state.pending }
}

/// What the loop remembers after it was told that the ring has taken the
/// accept numbered `id`, whose address buffer is `buffer`.
pub open spec fn after_submission<B>(state: LoopState<B>, id: u32, buffer: B) -> LoopState<B> {
    LoopState { counter: state.counter, pending: state.pending.insert(id, buffer) }
}

/// What the loop remembers after the completion of the operation tagged `tag`
/// with the result `result`.
///
/// A completed accept gives up its address buffer, whether it has produced a
/// connection or not, and uses up one value of the counter for the accept
/// that takes its place.
pub open spec fn after_completion<B>(state: LoopState<B>, tag: UserData, result: i32) -> LoopState<
    B,
> {
    match tag.kind {
        EventKind::Accept => after_numbering(
            LoopState { counter: state.counter, pending: state.pending.remove(tag.id) },
        ),
        _ => state,
    }
}

/// The state of the responder: the accept counter and the pending-operation
/// store.
pub struct EventLoop<B> {
    counter: u32,
    store: PendingStore<B>,
}

impl<B> View for EventLoop<B> {
    type V = LoopState<B>;

    closed spec fn view(&self) -> LoopState<B> {
        LoopState { counter: self.counter, pending: self.store@ }
    }
}

impl<B> EventLoop<B> {
    /// Creates a loop that has numbered no accept and keeps no buffer.
    pub fn new() -> (el: Self)
        ensures
            el@.counter == 0,
            el@.pending == Map::<u32, B>::empty(),
    {
        EventLoop { counter: 0, store: PendingStore::new() }
    }

    /// Returns the identifier the next accept is given.
    pub fn counter(&self) -> (counter: u32)
        ensures
            counter == self@.counter,
    {
        self.counter
    }

    /// Returns the number of address buffers the loop keeps.
    pub fn pending_count(&self) -> (count: usize)
        ensures
            self@.pending.dom().finite(),
            count == self@.pending.len(),
    {
        self.store.len()
    }

    /// Tells whether the loop keeps an address buffer under `id`.
    pub fn is_pending(&self, id: u32) -> (held: bool)
        ensures
            held == self@.pending.contains_key(id),
    {
        self.store.contains(id)
    }

    /// Prepares the next accept: it is numbered with the counter, and the
    /// counter moves on.
    pub fn next_accept(&mut self) -> (submission: Submission)
        ensures
            submission == accept_submission(old(self)@.counter),
            final(self)@ == after_numbering(old(self)@),
    {
        let id: u32 = self.counter;
        self.counter = id.wrapping_add(1);
        submit_accept(id)
    }

    /// Prepares the accepts that fill the pool before the first wait:
    /// `ACCEPT_POOL` of them, numbered with successive values of the counter.
    pub fn prime(&mut self) -> (accepts: Vec<Submission>)
        ensures
            accepts@.len() == ACCEPT_POOL,
            forall|k: int|
                0 <= k < ACCEPT_POOL ==> #[trigger] accepts@[k] == accept_submission(
                    advance(old(self)@.counter, k as nat),
                ),
            final(self)@.counter == advance(old(self)@.counter, ACCEPT_POOL as nat),
            final(self)@.pending == old(self)@.pending,
    {
        let ghost start: u32 = self.counter;
        let mut accepts: Vec<Submission> = Vec::new();
        let mut made: u32 = 0;
        while made < ACCEPT_POOL
            invariant
                made <= ACCEPT_POOL,
                accepts@.len() == made,
                forall|k: int|
                    0 <= k < made ==> #[trigger] accepts@[k] == accept_submission(
                        advance(start, k as nat),
                    ),
                self@.counter == advance(start, made as nat),
                self@.pending == old(self)@.pending,
            decreases ACCEPT_POOL - made,
        {
            let submission = self.next_accept();
            accepts.push(submission);
            made = made + 1;
        }
        accepts
    }

    /// Records that the ring has taken the accept numbered `id`: from now on
    /// the loop keeps `buffer`, the address buffer of that accept, until the
    /// accept completes.
    ///
    /// This must be called after the accept has been pushed and not before,
    /// and for every accept that has been pushed.
    ///
    /// If the loop already keeps a buffer under `id`, that buffer is handed
    /// back. The accept it belongs to may still be in flight.
    pub fn accept_submitted(&mut self, id: u32, buffer: B) -> (displaced: Option<B>)
        ensures
            final(self)@ == after_submission(old(self)@, id, buffer),
            displaced == (if old(self)@.pending.contains_key(id) {
                Some(old(self)@.pending[id])
            } else {
                None
            }),
    {
        self.store.insert(id, buffer)
    }

    /// Reacts to one completion. Returns the operations to submit next, in
    /// the order in which to submit them.
    ///
    /// * A completed accept, whatever its result, gives up its address
    ///   buffer, which is dropped. If the loop keeps no buffer under the
    ///   accept's number, nothing is dropped and nothing is amiss.
    /// * An accept that completed with a positive result has produced a
    ///   connection: the response is written to the new descriptor.
    /// * Every completed accept, whatever its result, is replaced by a new
    ///   accept, numbered with the counter. A failed accept has no other
    ///   effect.
    /// * A completed write, whatever its result, is followed by the close of
    ///   the descriptor in the tag.
    /// * A completed close is followed by nothing.
    ///
    /// The completion must carry a tag: one that names no kind of operation
    /// is no input of this function. The driver tests for it with
    /// [`Completion::tag`] and stops.
    pub fn handle_completion(&mut self, completion: Completion) -> (submissions: Vec<Submission>)
        requires
            completion.tagged() is Some,
        ensures
            submissions@ == reaction(
                old(self)@.counter,
                completion.tagged()->Some_0,
                completion.result,
            ),
            final(self)@ == after_completion(
                old(self)@,
                completion.tagged()->Some_0,
                completion.result,
            ),
    {
        let tag = completion.tag().unwrap();
        let mut submissions: Vec<Submission> = Vec::new();
        match tag.kind {
            EventKind::Accept => {
                let _ = self.store.remove(tag.id);
                if completion.result > 0 {
                    submissions.push(submit_send(completion.result));
                }
                let accept = self.next_accept();
                submissions.push(accept);
            },
            EventKind::Write => {
                submissions.push(submit_close(id_to_descriptor(tag.id)));
            },
            EventKind::Close => {},
        }
        proof {
            assert(submissions@ =~= reaction(old(self)@.counter, tag, completion.result));
        }
        submissions
    }
}

/// How many of the operations of a reaction satisfy the predicate `p`.
pub proof fn lemma_count_reaction(
    counter: u32,
    tag: UserData,
    result: i32,
    p: spec_fn(Submission) -> bool,
)
    ensures
        count(reaction(counter, tag, result), p) == match tag.kind {
            EventKind::Accept => one_if(result > 0 && p(send_submission(result))) + one_if(
                p(accept_submission(counter)),
            ),
            EventKind::Write => one_if(p(close_submission(id_descriptor(tag.id)))),
            EventKind::Close => 0,
        },
{
    let empty = Seq::<Submission>::empty();
    lemma_count_empty(p);
    match tag.kind {
        EventKind::Accept => {
            let accept = accept_submission(counter);
            if result > 0 {
                let send = send_submission(result);
                assert(reaction(counter, tag, result) =~= empty.push(send).push(accept));
                lemma_count_push(empty, send, p);
                lemma_count_push(empty.push(send), accept, p);
            } else {
                assert(reaction(counter, tag, result) =~= empty.push(accept));
                lemma_count_push(empty, accept, p);
            }
        },
        EventKind::Write => {
            let close = close_submission(id_descriptor(tag.id));
            assert(reaction(counter, tag, result) =~= empty.push(close));
            lemma_count_push(empty, close, p);
        },
        EventKind::Close => {
            assert(reaction(counter, tag, result) =~= empty);
        },
    }
}

/// Every completed accept is replaced by one accept, and nothing else brings
/// an accept about: the reaction to a completed accept holds exactly one
/// accept, whatever the result, and that accept is numbered with the counter;
/// the reaction to anything else holds none.
pub proof fn lemma_one_accept_for_each_accept(counter: u32, tag: UserData, result: i32)
    ensures
        count(reaction(counter, tag, result), accepts()) == one_if(tag.kind == EventKind::Accept),
        forall|id: u32|
            count(reaction(counter, tag, result), #[trigger] equal_to(accept_submission(id))) == one_if(
                tag.kind == EventKind::Accept && id == counter,
            ),
{
    lemma_count_reaction(counter, tag, result, accepts());
    assert forall|id: u32|
        count(reaction(counter, tag, result), #[trigger] equal_to(accept_submission(id))) == one_if(
            tag.kind == EventKind::Accept && id == counter,
        ) by {
        lemma_count_reaction(counter, tag, result, equal_to(accept_submission(id)));
    }
}

/// A write is followed by the close of the descriptor it wrote to, and by
/// nothing else, whatever the write came to: a client that has gone away
/// before the response was written is closed like any other.
pub proof fn lemma_close_after_any_write(counter: u32, fd: i32, result: i32)
    ensures
        reaction(counter, send_submission(fd).user_data, result) == seq![close_submission(fd)],
{
    lemma_descriptor_round_trip(fd);
}

} // verus!
