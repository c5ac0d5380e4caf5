//! What the responder asks the ring to do, and how a request gets there.
//!
//! A [`Submission`] describes one operation together with its tag. The driver
//! turns it into a ring entry and takes it through the steps of
//! [`SubmitStep`]: push it, flush the ring and push again for as long as the
//! ring is full, then publish the ring's new tail. The address buffer of an
//! accept goes to the event loop after that, when the ring has the accept.

use crate::config::RESPONSE;
use crate::count::one_if;
use crate::tag::{EventKind, UserData};
use vstd::prelude::*;

verus! {

/// An operation the kernel is asked to perform.
#[derive(Clone, Copy, PartialEq, Eq, Debug)]
pub enum Operation {
    /// Take the next connection from the listening socket. The driver supplies
    /// the listening socket and a fresh address buffer.
    Accept,
    /// Write `payload` to the connection `fd`.
    Send { fd: i32, payload: &'static str },
    /// Close the connection `fd`.
    Close { fd: i32 },
}

/// An operation and the tag it is submitted with.
#[derive(Clone, Copy, PartialEq, Eq, Debug)]
pub struct Submission {
    pub operation: Operation,
    pub user_data: UserData,
}

/// The identifier that stands for the descriptor `fd` in a tag: the same 32
/// bits, read as an unsigned number.
pub open spec fn descriptor_id(fd: i32) -> u32 {
    if fd >= 0 {
        fd as u32
    } else {
        (fd + 0x1_0000_0000) as u32
    }
}

/// The descriptor that the identifier `id` stands for: the same 32 bits, read
/// as a signed number.
pub open spec fn id_descriptor(id: u32) -> i32 {
    if id < 0x8000_0000 {
        id as i32
    } else {
        (id - 0x1_0000_0000) as i32
    }
}

/// The submission that accepts a connection under the identifier `id`.
pub open spec fn accept_submission(id: u32) -> Submission {
    Submission {
        operation: Operation::Accept,
        user_data: UserData { kind: EventKind::Accept, id },
    }
}

/// The submission that writes the response to `fd`. Its tag carries `fd`, so
/// that the completion says which connection to close.
pub open spec fn send_submission(fd: i32) -> Submission {
    Submission {
        operation: Operation::Send { fd, payload: RESPONSE },
        user_data: UserData { kind: EventKind::Write, id: descriptor_id(fd) },
    }
}

/// The submission that closes `fd`.
pub open spec fn close_submission(fd: i32) -> Submission {
    Submission {
        operation: Operation::Close { fd },
        user_data: UserData { kind: EventKind::Close, id: 0 },
    }
}

/// The predicate that holds of the submissions that ask for an accept.
pub open spec fn accepts() -> spec_fn(Submission) -> bool {
    |x: Submission| x.operation is Accept
}

impl Submission {
    /// Returns the 64-bit value the operation is submitted with.
    pub fn token(&self) -> (raw: u64)
        ensures
            raw == self.user_data.encoding(),
    {
        self.user_data.encode()
    }
}

/// Returns the identifier that stands for the descriptor `fd` in a tag.
pub fn descriptor_to_id(fd: i32) -> (id: u32)
    ensures
        id == descriptor_id(fd),
{
    let id: u32 = fd as u32;
    assert(id == descriptor_id(fd)) by (bit_vector)
        requires
            id == fd as u32,
    ;
    id
}

/// Returns the descriptor that the identifier `id` of a tag stands for.
pub fn id_to_descriptor(id: u32) -> (fd: i32)
    ensures
        fd == id_descriptor(id),
{
    let fd: i32 = id as i32;
    assert(fd == id_descriptor(id)) by (bit_vector)
        requires
            fd == id as i32,
    ;
    fd
}

/// Prepares an accept on the listening socket, tagged `(Accept, id)`.
///
/// Once the ring has taken the operation, its address buffer has to be put
/// into the pending-operation store under `id`.
pub fn submit_accept(id: u32) -> (submission: Submission)
    ensures
        submission == accept_submission(id),
{
    Submission { operation: Operation::Accept, user_data: UserData { kind: EventKind::Accept, id } }
}

/// Prepares the write of the response to the connection `fd`, tagged
/// `(Write, fd)`.
pub fn submit_send(fd: i32) -> (submission: Submission)
    ensures
        submission == send_submission(fd),
{
    Submission {
        operation: Operation::Send { fd, payload: RESPONSE },
        user_data: UserData { kind: EventKind::Write, id: descriptor_to_id(fd) },
    }
}

/// Prepares the close of the connection `fd`, tagged `(Close, 0)`.
pub fn submit_close(fd: i32) -> (submission: Submission)
    ensures
        submission == close_submission(fd),
{
    Submission {
        operation: Operation::Close { fd },
        user_data: UserData { kind: EventKind::Close, id: 0 },
    }
}

/// A descriptor survives the trip through a tag: the identifier that stands
/// for `fd` stands for no other descriptor. A descriptor that is not negative
/// is its own identifier.
pub proof fn lemma_descriptor_round_trip(fd: i32)
    ensures
        id_descriptor(descriptor_id(fd)) == fd,
        fd >= 0 ==> descriptor_id(fd) == fd,
{
}

/// An identifier survives the trip through a descriptor.
pub proof fn lemma_id_round_trip(id: u32)
    ensures
        descriptor_id(id_descriptor(id)) == id,
{
}

/// What the driver does next to get one prepared operation onto the ring.
#[derive(Clone, Copy, PartialEq, Eq, Debug, Structural)]
pub enum SubmitStep {
    /// Try to push the entry onto the submission ring.
    Push,
    /// The ring was full: hand the queued entries to the kernel, without
    /// waiting for any completion, so that the ring has room again.
    Flush,
    /// The entry is on the ring: publish the ring's tail so that the kernel
    /// sees the entry.
    Publish,
    /// The ring has taken an accept: hand the accept's address buffer to the
    /// event loop, which keeps it while the accept is in flight.
    Keep,
    /// Nothing is left to do for this operation.
    Done,
}

impl SubmitStep {
    /// The step that follows this one in the submission of `operation`.
    /// `pushed` tells whether the ring took the entry; it matters only after
    /// a `Push`.
    ///
    /// A rejected push is followed by a flush and a flush by another push, so
    /// a full ring is retried without limit. The address buffer of an accept
    /// changes hands once the accept is on the ring and published, and not
    /// before.
    pub open spec fn following(self, operation: Operation, pushed: bool) -> SubmitStep {
        match self {
            SubmitStep::Push => if pushed {
                SubmitStep::Publish
            } else {
                SubmitStep::Flush
            },
            SubmitStep::Flush => SubmitStep::Push,
            SubmitStep::Publish => if operation is Accept {
                SubmitStep::Keep
            } else {
                SubmitStep::Done
            },
            SubmitStep::Keep => SubmitStep::Done,
            SubmitStep::Done => SubmitStep::Done,
        }
    }

    /// The steps of the submission of `operation` when the first `rejected`
    /// pushes find the ring full: that many rounds of push and flush, then
    /// the push that succeeds, the publication and, for an accept, the
    /// handing over of the address buffer.
    pub open spec fn script(operation: Operation, rejected: nat) -> Seq<SubmitStep>
        decreases rejected,
    {
        if rejected > 0 {
            seq![SubmitStep::Push, SubmitStep::Flush] + Self::script(
                operation,
                (rejected - 1) as nat,
            )
        } else if operation is Accept {
            seq![SubmitStep::Push, SubmitStep::Publish, SubmitStep::Keep, SubmitStep::Done]
        } else {
            seq![SubmitStep::Push, SubmitStep::Publish, SubmitStep::Done]
        }
    }

    /// Returns the step a submission starts with.
    pub fn first() -> (step: SubmitStep)
        ensures
            step == SubmitStep::Push,
    {
        SubmitStep::Push
    }

    /// Returns the step that follows this one in the submission of
    /// `operation`, where `pushed` tells whether the last push was taken by
    /// the ring.
    pub fn next(self, operation: Operation, pushed: bool) -> (step: SubmitStep)
        ensures
            step == self.following(operation, pushed),
    {
        match self {
            SubmitStep::Push => if pushed {
                SubmitStep::Publish
            } else {
                SubmitStep::Flush
            },
            SubmitStep::Flush => SubmitStep::Push,
            SubmitStep::Publish => match operation {
                Operation::Accept => SubmitStep::Keep,
                _ => SubmitStep::Done,
            },
            SubmitStep::Keep => SubmitStep::Done,
            SubmitStep::Done => SubmitStep::Done,
        }
    }

    /// A submission whose first `rejected` pushes are rejected and whose next
    /// push is taken goes through exactly the steps of its script. Each step
    /// of the script follows from the one before it, and only the last is
    /// `Done`. The ring is flushed once after every rejected push and at no
    /// other time. The entry is published once, right after the push that was
    /// taken. An address buffer is handed over once if the operation is an
    /// accept, right after the publication, and never otherwise.
    pub proof fn lemma_script(operation: Operation, rejected: nat, i: int)
        requires
            0 <= i < Self::script(operation, rejected).len() - 1,
        ensures
            Self::script(operation, rejected).len() == 2 * rejected + 3 + one_if(
                operation is Accept,
            ),
            Self::script(operation, rejected)[0] == SubmitStep::Push,
            Self::script(operation, rejected).last() == SubmitStep::Done,
            Self::script(operation, rejected)[i] != SubmitStep::Done,
            Self::script(operation, rejected)[i + 1] == Self::script(
                operation,
                rejected,
            )[i].following(operation, i == 2 * rejected),
            Self::script(operation, rejected)[i] == SubmitStep::Flush <==> i < 2 * rejected && i % 2
                == 1,
            Self::script(operation, rejected)[i] == SubmitStep::Publish <==> i == 2 * rejected + 1,
            Self::script(operation, rejected)[i] == SubmitStep::Keep <==> operation is Accept && i
                == 2 * rejected + 2,
        decreases rejected,
    {
        if rejected > 0 {
            let rest = Self::script(operation, (rejected - 1) as nat);
            Self::lemma_script(operation, (rejected - 1) as nat, 0);
            assert(Self::script(operation, rejected).last() == rest.last());
            if i >= 2 {
                Self::lemma_script(operation, (rejected - 1) as nat, i - 2);
            }
        }
    }
}

} // verus!
