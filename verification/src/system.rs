//! The responder and the kernel, as one system.
//!
//! [`System`] puts the memory of the event loop next to what the loop cannot
//! see: the operations that the ring has taken and the kernel has not yet
//! completed. An [`Event`] is one turn of the loop. Either the driver adds an
//! accept to the pool, or the kernel completes one of the operations in
//! flight, with any result, and the loop reacts as
//! [`reaction`](crate::event_loop::reaction) and
//! [`after_completion`](crate::event_loop::after_completion) say. Operations
//! may complete in any order.
//!
//! The laws at the end of this module hold in every state that any sequence of
//! events leads to.

use crate::config::{ACCEPT_POOL, RESPONSE};
use crate::count::{
    count, equal_to, lemma_count_all, lemma_count_concat, lemma_count_empty, lemma_count_none,
    lemma_count_positive, lemma_count_push, lemma_count_remove, lemma_count_replace, one_if,
};
use crate::event_loop::{
    advance, after_completion, after_numbering, after_submission, lemma_count_reaction, reaction,
    LoopState,
};
use crate::submit::{
    accept_submission, accepts, close_submission, id_descriptor, lemma_descriptor_round_trip,
    send_submission, Operation, Submission,
};
use crate::tag::{lemma_decode_encode, EventKind, UserData};
use vstd::prelude::*;

verus! {

/// The responder together with the kernel side of its ring.
pub struct System<B> {
    /// What the event loop remembers.
    pub state: LoopState<B>,
    /// The operations that the ring has taken and that have not completed.
    pub in_flight: Seq<Submission>,
    /// Every operation that was ever submitted, in the order of submission.
    pub issued: Seq<Submission>,
    /// The number of accepts that were submitted to fill the pool.
    pub primed: nat,
    /// The descriptors of the connections that accepts have produced, in the
    /// order in which the accepts completed.
    pub accepted: Seq<i32>,
    /// The number of accepts that completed without a connection.
    pub failed: nat,
}

/// One turn of the loop.
pub enum Event<B> {
    /// The driver submits one more accept to fill the pool, and hands its
    /// address buffer to the loop.
    Prime { buffer: B },
    /// The kernel completes the operation at `index` of those in flight, with
    /// the result `result`. The loop reacts, and the driver submits what the
    /// loop asks for. `buffer` is the address buffer of the accept among
    /// these operations, if there is one.
    Complete { index: int, result: i32, buffer: B },
}

/// The predicate that holds of the events that add an accept to the pool.
pub open spec fn priming<B>() -> spec_fn(Event<B>) -> bool {
    |e: Event<B>| e is Prime
}

/// Whether `x` is a submission as the responder prepares them: an accept with
/// an accept's tag, a write of the response tagged with its descriptor, or a
/// close with a close's tag.
pub open spec fn own(x: Submission) -> bool {
    match x.operation {
        Operation::Accept => x == accept_submission(x.user_data.id),
        Operation::Send { fd, .. } => x == send_submission(fd),
        Operation::Close { fd } => x == close_submission(fd),
    }
}

impl<B> System<B> {
    /// The system before anything has happened.
    pub open spec fn fresh() -> System<B> {
        System {
            state: LoopState { counter: 0, pending: Map::empty() },
            in_flight: Seq::empty(),
            issued: Seq::empty(),
            primed: 0,
            accepted: Seq::empty(),
            failed: 0,
        }
    }

    /// The system after the driver has submitted one more accept for the
    /// pool: the loop numbers the accept, the ring takes it, and the loop
    /// keeps its address buffer.
    pub open spec fn prime(self, buffer: B) -> System<B> {
        let accept = accept_submission(self.state.counter);
        System {
            state: after_submission(after_numbering(self.state), self.state.counter, buffer),
            in_flight: self.in_flight.push(accept),
            issued: self.issued.push(accept),
            primed: self.primed + 1,
            accepted: self.accepted,
            failed: self.failed,
        }
    }

    /// The system after the kernel has completed the operation at `index` of
    /// those in flight with the result `result`.
    ///
    /// The completion carries the encoded tag of the operation. The loop
    /// decodes it and reacts; the ring takes the operations of the reaction;
    /// and if an accept is among them, the loop keeps `buffer` under the
    /// accept's identifier. Nothing happens if no operation is in flight at
    /// `index`. Nothing happens either if the tag does not decode, which is
    /// the case of no tag that was encoded.
    pub open spec fn complete(self, index: int, result: i32, buffer: B) -> System<B> {
        if 0 <= index < self.in_flight.len() {
            match UserData::decoding(self.in_flight[index].user_data.encoding()) {
                Some(tag) => {
                    let submitted = reaction(self.state.counter, tag, result);
                    let handled = after_completion(self.state, tag, result);
                    let accept = tag.kind == EventKind::Accept;
                    System {
                        state: if accept {
                            after_submission(handled, self.state.counter, buffer)
                        } else {
                            handled
                        },
                        in_flight: self.in_flight.remove(index) + submitted,
                        issued: self.issued + submitted,
                        primed: self.primed,
                        accepted: if accept && result > 0 {
                            self.accepted.push(result)
                        } else {
                            self.accepted
                        },
                        failed: if accept && result <= 0 {
                            self.failed + 1
                        } else {
                            self.failed
                        },
                    }
                },
                None => self,
            }
        } else {
            self
        }
    }

    /// The system after the event `e`.
    pub open spec fn step(self, e: Event<B>) -> System<B> {
        match e {
            Event::Prime { buffer } => self.prime(buffer),
            Event::Complete { index, result, buffer } => self.complete(index, result, buffer),
        }
    }

    /// The system that the events `events` lead to, starting from the fresh
    /// system.
    pub open spec fn run(events: Seq<Event<B>>) -> System<B>
        decreases events.len(),
    {
        if events.len() == 0 {
            Self::fresh()
        } else {
            Self::run(events.drop_last()).step(events.last())
        }
    }

    /// The events that fill the pool: one accept for each of `buffers`.
    pub open spec fn filling(buffers: Seq<B>) -> Seq<Event<B>> {
        Seq::new(buffers.len(), |k: int| Event::Prime { buffer: buffers[k] })
    }

    /// The number of accepts in flight.
    pub open spec fn accepts_in_flight(self) -> nat {
        count(self.in_flight, accepts())
    }

    /// The number of accepts in flight that are numbered `id`.
    pub open spec fn accepts_in_flight_as(self, id: u32) -> nat {
        count(self.in_flight, equal_to(accept_submission(id)))
    }

    /// The number of writes to `fd` in flight.
    pub open spec fn sends_in_flight(self, fd: i32) -> nat {
        count(self.in_flight, equal_to(send_submission(fd)))
    }

    /// The number of writes to `fd` that were ever submitted.
    pub open spec fn sends_issued(self, fd: i32) -> nat {
        count(self.issued, equal_to(send_submission(fd)))
    }

    /// The number of closes of `fd` that were ever submitted.
    pub open spec fn closes_issued(self, fd: i32) -> nat {
        count(self.issued, equal_to(close_submission(fd)))
    }

    /// The number of times an accept has produced the descriptor `fd`.
    pub open spec fn times_accepted(self, fd: i32) -> nat {
        count(self.accepted, equal_to(fd))
    }

    /// The number of accepts that have completed, with or without a
    /// connection.
    pub open spec fn accepts_completed(self) -> nat {
        self.accepted.len() + self.failed
    }

    /// The number of accepts that were ever numbered.
    pub open spec fn numbered(self) -> nat {
        self.primed + self.accepts_completed()
    }

    /// What holds in every state, however long the system has run.
    pub open spec fn steady(self) -> bool {
        &&& forall|i: int| 0 <= i < self.in_flight.len() ==> own(#[trigger] self.in_flight[i])
        &&& forall|i: int| 0 <= i < self.issued.len() ==> own(#[trigger] self.issued[i])
        &&& self.accepts_in_flight() == self.primed
        &&& forall|fd: i32| #[trigger]
            self.times_accepted(fd) == self.sends_in_flight(fd) + self.closes_issued(fd)
        &&& forall|fd: i32| #[trigger] self.sends_issued(fd) == self.times_accepted(fd)
        &&& self.state.counter == advance(0, self.numbered())
    }

    /// What holds as long as the accept counter has not wrapped around, that
    /// is, as long as no identifier has been given out twice: the accepts in
    /// flight have identifiers of their own, and the loop keeps a buffer
    /// under exactly these identifiers.
    pub open spec fn orderly(self) -> bool {
        self.numbered() <= 0x1_0000_0000 ==> {
            &&& forall|id: u32| #[trigger] self.accepts_in_flight_as(id) <= 1
            &&& forall|id: u32| #[trigger] self.accepts_in_flight_as(id) > 0 ==> id < self.numbered()
            &&& forall|id: u32| #[trigger]
                self.state.pending.contains_key(id) <==> self.accepts_in_flight_as(id) > 0
            &&& self.state.pending.dom().finite()
            &&& self.state.pending.len() == self.primed
        }
    }
}

/// Every operation of a reaction is one of the responder's own.
proof fn lemma_reaction_own(counter: u32, tag: UserData, result: i32, i: int)
    requires
        0 <= i < reaction(counter, tag, result).len(),
    ensures
        own(reaction(counter, tag, result)[i]),
{
}

impl<B> System<B> {
    proof fn lemma_steady_fresh()
        ensures
            Self::fresh().steady(),
    {
        let s = Self::fresh();
        lemma_count_empty(accepts());
        assert forall|fd: i32| #[trigger]
            s.times_accepted(fd) == s.sends_in_flight(fd) + s.closes_issued(fd) by {
            lemma_count_empty(equal_to(fd));
            lemma_count_empty(equal_to(send_submission(fd)));
            lemma_count_empty(equal_to(close_submission(fd)));
        }
        assert forall|fd: i32| #[trigger] s.sends_issued(fd) == s.times_accepted(fd) by {
            lemma_count_empty(equal_to(fd));
            lemma_count_empty(equal_to(send_submission(fd)));
        }
    }

    proof fn lemma_steady_prime(self, buffer: B)
        requires
            self.steady(),
        ensures
            self.prime(buffer).steady(),
    {
        let t = self.prime(buffer);
        let accept = accept_submission(self.state.counter);
        lemma_count_push(self.in_flight, accept, accepts());
        assert forall|fd: i32| #[trigger]
            t.times_accepted(fd) == t.sends_in_flight(fd) + t.closes_issued(fd) by {
            assert(self.times_accepted(fd) == self.sends_in_flight(fd) + self.closes_issued(fd));
            lemma_count_push(self.in_flight, accept, equal_to(send_submission(fd)));
            lemma_count_push(self.issued, accept, equal_to(close_submission(fd)));
        }
        assert forall|fd: i32| #[trigger] t.sends_issued(fd) == t.times_accepted(fd) by {
            assert(self.sends_issued(fd) == self.times_accepted(fd));
            lemma_count_push(self.issued, accept, equal_to(send_submission(fd)));
        }
    }

    proof fn lemma_steady_complete(self, index: int, result: i32, buffer: B)
        requires
            self.steady(),
        ensures
            self.complete(index, result, buffer).steady(),
    {
        if 0 <= index < self.in_flight.len() {
            let t = self.complete(index, result, buffer);
            let op = self.in_flight[index];
            let tag = op.user_data;
            let counter = self.state.counter;
            let submitted = reaction(counter, tag, result);
            lemma_decode_encode(tag);
            assert(own(op));
            assert forall|i: int| 0 <= i < t.in_flight.len() implies own(
                #[trigger] t.in_flight[i],
            ) by {
                if i < self.in_flight.len() - 1 {
                    if i < index {
                        assert(t.in_flight[i] == self.in_flight[i]);
                    } else {
                        assert(t.in_flight[i] == self.in_flight[i + 1]);
                    }
                } else {
                    lemma_reaction_own(counter, tag, result, i - (self.in_flight.len() - 1));
                }
            }
            assert forall|i: int| 0 <= i < t.issued.len() implies own(#[trigger] t.issued[i]) by {
                if i < self.issued.len() {
                    assert(t.issued[i] == self.issued[i]);
                } else {
                    lemma_reaction_own(counter, tag, result, i - self.issued.len());
                }
            }
            lemma_count_replace(self.in_flight, index, submitted, accepts());
            lemma_count_reaction(counter, tag, result, accepts());
            assert forall|fd: i32| #[trigger]
                t.times_accepted(fd) == t.sends_in_flight(fd) + t.closes_issued(fd) by {
                assert(self.times_accepted(fd) == self.sends_in_flight(fd) + self.closes_issued(
                    fd,
                ));
                lemma_count_replace(self.in_flight, index, submitted, equal_to(send_submission(fd)));
                lemma_count_reaction(counter, tag, result, equal_to(send_submission(fd)));
                lemma_count_concat(self.issued, submitted, equal_to(close_submission(fd)));
                lemma_count_reaction(counter, tag, result, equal_to(close_submission(fd)));
                lemma_count_push(self.accepted, result, equal_to(fd));
                if let Operation::Send { fd: sent, .. } = op.operation {
                    lemma_descriptor_round_trip(sent);
                }
            }
            assert forall|fd: i32| #[trigger] t.sends_issued(fd) == t.times_accepted(fd) by {
                assert(self.sends_issued(fd) == self.times_accepted(fd));
                lemma_count_concat(self.issued, submitted, equal_to(send_submission(fd)));
                lemma_count_reaction(counter, tag, result, equal_to(send_submission(fd)));
                lemma_count_push(self.accepted, result, equal_to(fd));
            }
        }
    }
}

impl<B> System<B> {
    proof fn lemma_orderly_fresh()
        ensures
            Self::fresh().orderly(),
    {
        let s = Self::fresh();
        assert forall|id: u32| #[trigger] s.accepts_in_flight_as(id) == 0 by {
            lemma_count_empty(equal_to(accept_submission(id)));
        }
    }

    proof fn lemma_orderly_prime(self, buffer: B)
        requires
            self.steady(),
            self.orderly(),
        ensures
            self.prime(buffer).orderly(),
    {
        let t = self.prime(buffer);
        if t.numbered() <= 0x1_0000_0000 {
            let fresh = self.state.counter;
            let accept = accept_submission(fresh);
            assert(fresh == self.numbered());
            assert forall|id: u32|
                #[trigger] t.accepts_in_flight_as(id) == self.accepts_in_flight_as(id) + one_if(
                    id == fresh,
                ) by {
                lemma_count_push(self.in_flight, accept, equal_to(accept_submission(id)));
            }
            assert forall|id: u32| #[trigger] t.accepts_in_flight_as(id) <= 1 by {
                assert(self.accepts_in_flight_as(id) <= 1);
                assert(self.accepts_in_flight_as(id) > 0 ==> id < self.numbered());
            }
            assert forall|id: u32| #[trigger]
                t.state.pending.contains_key(id) <==> t.accepts_in_flight_as(id) > 0 by {
                assert(self.state.pending.contains_key(id) <==> self.accepts_in_flight_as(id) > 0);
            }
            assert(!self.state.pending.contains_key(fresh)) by {
                assert(self.accepts_in_flight_as(fresh) > 0 ==> fresh < self.numbered());
            }
        }
    }

    proof fn lemma_orderly_complete(self, index: int, result: i32, buffer: B)
        requires
            self.steady(),
            self.orderly(),
        ensures
            self.complete(index, result, buffer).orderly(),
    {
        let t = self.complete(index, result, buffer);
        if 0 <= index < self.in_flight.len() && t.numbered() <= 0x1_0000_0000 {
            let op = self.in_flight[index];
            let tag = op.user_data;
            let fresh = self.state.counter;
            let submitted = reaction(fresh, tag, result);
            let accept = tag.kind == EventKind::Accept;
            lemma_decode_encode(tag);
            assert(own(op));
            assert forall|id: u32|
                #[trigger] t.accepts_in_flight_as(id) + one_if(accept && id == tag.id)
                    == self.accepts_in_flight_as(id) + one_if(accept && id == fresh) by {
                lemma_count_replace(
                    self.in_flight,
                    index,
                    submitted,
                    equal_to(accept_submission(id)),
                );
                lemma_count_reaction(fresh, tag, result, equal_to(accept_submission(id)));
            }
            if accept {
                let done = tag.id;
                assert(fresh == self.numbered());
                assert(op == accept_submission(done));
                assert(self.accepts_in_flight_as(done) > 0) by {
                    lemma_count_positive(self.in_flight, equal_to(accept_submission(done)));
                    assert(equal_to(accept_submission(done))(self.in_flight[index]));
                }
                assert(self.accepts_in_flight_as(done) <= 1);
                assert(done < self.numbered());
                assert(self.state.pending.contains_key(done));
                assert(!self.state.pending.contains_key(fresh)) by {
                    assert(self.accepts_in_flight_as(fresh) > 0 ==> fresh < self.numbered());
                }
                assert forall|id: u32| #[trigger] t.accepts_in_flight_as(id) <= 1 by {
                    assert(self.accepts_in_flight_as(id) <= 1);
                    assert(self.accepts_in_flight_as(id) > 0 ==> id < self.numbered());
                }
                assert forall|id: u32| #[trigger]
                    t.state.pending.contains_key(id) <==> t.accepts_in_flight_as(id) > 0 by {
                    assert(self.state.pending.contains_key(id) <==> self.accepts_in_flight_as(id)
                        > 0);
                    assert(self.accepts_in_flight_as(id) <= 1);
                }
            } else {
                assert forall|id: u32| #[trigger] t.accepts_in_flight_as(id) <= 1 by {
                    assert(self.accepts_in_flight_as(id) <= 1);
                }
                assert forall|id: u32| #[trigger]
                    t.state.pending.contains_key(id) <==> t.accepts_in_flight_as(id) > 0 by {
                    assert(self.state.pending.contains_key(id) <==> self.accepts_in_flight_as(id)
                        > 0);
                }
            }
        }
    }
}

impl<B> System<B> {
    /// Every state that a sequence of events leads to is steady and orderly.
    pub proof fn lemma_run_invariant(events: Seq<Event<B>>)
        ensures
            Self::run(events).steady(),
            Self::run(events).orderly(),
        decreases events.len(),
    {
        if events.len() == 0 {
            Self::lemma_steady_fresh();
            Self::lemma_orderly_fresh();
        } else {
            let before = Self::run(events.drop_last());
            Self::lemma_run_invariant(events.drop_last());
            match events.last() {
                Event::Prime { buffer } => {
                    before.lemma_steady_prime(buffer);
                    before.lemma_orderly_prime(buffer);
                },
                Event::Complete { index, result, buffer } => {
                    before.lemma_steady_complete(index, result, buffer);
                    before.lemma_orderly_complete(index, result, buffer);
                },
            }
        }
    }

    /// The accept pool keeps its size. The number of accepts in flight is the
    /// number of accepts that were submitted to fill the pool: no completion,
    /// whatever it completes and with whatever result, leaves the pool larger
    /// or smaller than it found it.
    pub proof fn lemma_accept_pool(events: Seq<Event<B>>)
        ensures
            Self::run(events).accepts_in_flight() == count(events, priming()),
            forall|index: int, result: i32, buffer: B|
                (#[trigger] Self::run(events).complete(index, result, buffer)).accepts_in_flight()
                    == Self::run(events).accepts_in_flight(),
    {
        let s = Self::run(events);
        Self::lemma_run_invariant(events);
        assert(s.primed == count(events, priming())) by {
            Self::lemma_primed(events);
        }
        assert forall|index: int, result: i32, buffer: B|
            (#[trigger] s.complete(index, result, buffer)).accepts_in_flight()
                == s.accepts_in_flight() by {
            s.lemma_steady_complete(index, result, buffer);
        }
    }

    /// Once the pool has been filled with `ACCEPT_POOL` accepts, that many
    /// accepts are in flight after every completion, whatever completes, in
    /// whatever order and with whatever result.
    pub proof fn lemma_pool_stays_full(buffers: Seq<B>, completions: Seq<Event<B>>)
        requires
            buffers.len() == ACCEPT_POOL,
            forall|i: int| 0 <= i < completions.len() ==> #[trigger] completions[i] is Complete,
        ensures
            Self::run(Self::filling(buffers) + completions).accepts_in_flight() == ACCEPT_POOL,
    {
        let filling = Self::filling(buffers);
        Self::lemma_accept_pool(filling + completions);
        lemma_count_concat(filling, completions, priming());
        lemma_count_all(filling, priming());
        lemma_count_none(completions, priming());
    }

    proof fn lemma_primed(events: Seq<Event<B>>)
        ensures
            Self::run(events).primed == count(events, priming()),
        decreases events.len(),
    {
        if events.len() > 0 {
            Self::lemma_primed(events.drop_last());
        }
    }

    /// Every accepted connection is written to once and closed once. For
    /// every descriptor, as many writes were submitted as accepts have
    /// produced the descriptor; and of these writes, each is either still in
    /// flight or has been followed by a close. So there are never more closes
    /// of a descriptor than accepts of it, and a close is missing only while
    /// the write before it has not completed. The result of the write plays
    /// no part in this.
    pub proof fn lemma_one_close_per_connection(events: Seq<Event<B>>, fd: i32)
        ensures
            Self::run(events).sends_issued(fd) == Self::run(events).times_accepted(fd),
            Self::run(events).closes_issued(fd) + Self::run(events).sends_in_flight(fd)
                == Self::run(events).times_accepted(fd),
    {
        let s = Self::run(events);
        Self::lemma_run_invariant(events);
        assert(s.times_accepted(fd) == s.sends_in_flight(fd) + s.closes_issued(fd));
        assert(s.sends_issued(fd) == s.times_accepted(fd));
    }

    /// Nothing is ever submitted but accepts, writes of the response and
    /// closes, each under its own kind of tag. A write carries `RESPONSE` and
    /// is tagged with the descriptor it writes to.
    pub proof fn lemma_submissions_own(events: Seq<Event<B>>, i: int)
        requires
            0 <= i < Self::run(events).issued.len(),
        ensures
            own(Self::run(events).issued[i]),
            match Self::run(events).issued[i].operation {
                Operation::Send { fd, payload } => payload == RESPONSE && id_descriptor(
                    Self::run(events).issued[i].user_data.id,
                ) == fd,
                _ => true,
            },
    {
        let s = Self::run(events);
        Self::lemma_run_invariant(events);
        assert(own(s.issued[i]));
        if let Operation::Send { fd, .. } = s.issued[i].operation {
            lemma_descriptor_round_trip(fd);
        }
    }

    /// As long as no identifier has been given out twice, the loop keeps the
    /// address buffer of every accept that is in flight, and no two accepts in
    /// flight share an identifier.
    pub proof fn lemma_buffers_kept(events: Seq<Event<B>>, i: int, j: int)
        requires
            Self::run(events).numbered() <= 0x1_0000_0000,
            0 <= i < Self::run(events).in_flight.len(),
            0 <= j < Self::run(events).in_flight.len(),
            Self::run(events).in_flight[i].operation is Accept,
        ensures
            Self::run(events).state.pending.contains_key(
                Self::run(events).in_flight[i].user_data.id,
            ),
            i != j && Self::run(events).in_flight[j].operation is Accept
                ==> Self::run(events).in_flight[j].user_data.id
                != Self::run(events).in_flight[i].user_data.id,
    {
        let s = Self::run(events);
        let id = s.in_flight[i].user_data.id;
        let p = equal_to(accept_submission(id));
        Self::lemma_run_invariant(events);
        assert(own(s.in_flight[i]));
        assert(own(s.in_flight[j]));
        assert(s.accepts_in_flight_as(id) <= 1);
        assert(s.state.pending.contains_key(id) <==> s.accepts_in_flight_as(id) > 0);
        lemma_count_positive(s.in_flight, p);
        assert(p(s.in_flight[i]));
        if i != j && s.in_flight[j] == s.in_flight[i] {
            let (lo, hi) = if i < j {
                (i, j)
            } else {
                (j, i)
            };
            lemma_count_remove(s.in_flight, hi, p);
            lemma_count_positive(s.in_flight.remove(hi), p);
            assert(p(s.in_flight.remove(hi)[lo]));
        }
    }

    /// No buffer outlives the completion of its accept. As long as no
    /// identifier has been given out twice, the loop keeps a buffer under an
    /// identifier exactly while the accept with that identifier is in flight:
    /// the buffer of an accept that has completed is gone, whether the accept
    /// has produced a connection or not. So the loop keeps as many buffers as
    /// accepts were submitted to fill the pool, however many accepts have
    /// completed.
    pub proof fn lemma_store_size(events: Seq<Event<B>>)
        requires
            Self::run(events).numbered() <= 0x1_0000_0000,
        ensures
            forall|id: u32| #[trigger]
                Self::run(events).state.pending.contains_key(id) <==> Self::run(
                    events,
                ).accepts_in_flight_as(id) > 0,
            Self::run(events).state.pending.dom().finite(),
            Self::run(events).state.pending.len() == Self::run(events).primed,
            Self::run(events).state.pending.len() == Self::run(events).accepts_in_flight(),
    {
        Self::lemma_run_invariant(events);
    }

    /// Once the pool has been filled with `ACCEPT_POOL` accepts, and as long
    /// as no identifier has been given out twice, the loop keeps
    /// `ACCEPT_POOL` buffers after every completion: a completed accept takes
    /// its buffer out, with or without a connection, and the accept that
    /// replaces it puts one in.
    pub proof fn lemma_store_after_filling(buffers: Seq<B>, completions: Seq<Event<B>>)
        requires
            buffers.len() == ACCEPT_POOL,
            forall|i: int| 0 <= i < completions.len() ==> #[trigger] completions[i] is Complete,
            Self::run(Self::filling(buffers) + completions).numbered() <= 0x1_0000_0000,
        ensures
            Self::run(Self::filling(buffers) + completions).state.pending.dom().finite(),
            Self::run(Self::filling(buffers) + completions).state.pending.len() == ACCEPT_POOL,
    {
        let filling = Self::filling(buffers);
        Self::lemma_store_size(filling + completions);
        Self::lemma_primed(filling + completions);
        lemma_count_concat(filling, completions, priming());
        lemma_count_all(filling, priming());
        lemma_count_none(completions, priming());
    }
}

} // verus!
