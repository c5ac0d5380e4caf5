use uring_responder::config::{ACCEPT_POOL, RESPONSE, URING_QUEUE_SIZE};
use uring_responder::event_loop::{Completion, EventLoop};
use uring_responder::submit::{Operation, Submission, SubmitStep};
use uring_responder::tag::EventKind;

/// A stand-in for the driver and the kernel: it keeps what was submitted and
/// lets a test complete any operation in flight with any result.
struct Rig {
    el: EventLoop<Box<[u8; 20]>>,
    in_flight: Vec<Submission>,
    issued: Vec<Submission>,
    capacity: usize,
    queued: usize,
    flushes: usize,
    publishes: usize,
}

impl Rig {
    fn launch() -> Rig {
        let mut rig = Rig {
            el: EventLoop::new(),
            in_flight: Vec::new(),
            issued: Vec::new(),
            capacity: URING_QUEUE_SIZE as usize,
            queued: 0,
            flushes: 0,
            publishes: 0,
        };
        for submission in rig.el.prime() {
            rig.submit(submission);
        }
        rig
    }

    fn submit(&mut self, submission: Submission) {
        let mut buffer = match submission.operation {
            Operation::Accept => Some(Box::new([0u8; 20])),
            _ => None,
        };
        let mut step = SubmitStep::first();
        let mut pushed = false;
        while step != SubmitStep::Done {
            match step {
                SubmitStep::Push => {
                    pushed = self.queued < self.capacity;
                    if pushed {
                        self.queued += 1;
                        self.in_flight.push(submission);
                        self.issued.push(submission);
                    }
                }
                SubmitStep::Flush => {
                    self.queued = 0;
                    self.flushes += 1;
                }
                SubmitStep::Publish => self.publishes += 1,
                SubmitStep::Keep => {
                    assert!(self.in_flight.contains(&submission));
                    let displaced =
                        self.el.accept_submitted(submission.user_data.id, buffer.take().unwrap());
                    assert!(displaced.is_none());
                }
                SubmitStep::Done => {}
            }
            step = step.next(submission.operation, pushed);
        }
        assert!(buffer.is_none());
    }

    fn complete(&mut self, index: usize, result: i32) -> Vec<Submission> {
        self.queued = 0;
        let done = self.in_flight.remove(index);
        let completion = Completion { user_data: done.token(), result };
        assert!(completion.tag().is_some());
        let next = self.el.handle_completion(completion);
        for submission in &next {
            self.submit(*submission);
        }
        next
    }

    fn find(&self, wanted: impl Fn(&Submission) -> bool) -> usize {
        self.in_flight.iter().position(wanted).unwrap()
    }

    fn complete_accept(&mut self, result: i32) -> (u32, Vec<Submission>) {
        let index = self.find(|s| s.operation == Operation::Accept);
        let id = self.in_flight[index].user_data.id;
        (id, self.complete(index, result))
    }

    fn complete_send(&mut self, fd: i32, result: i32) -> Vec<Submission> {
        let index = self.find(|s| matches!(s.operation, Operation::Send { fd: to, .. } if to == fd));
        self.complete(index, result)
    }

    fn complete_close(&mut self, fd: i32) -> Vec<Submission> {
        let index = self.find(|s| s.operation == Operation::Close { fd });
        self.complete(index, 0)
    }

    fn accepts_in_flight(&self) -> usize {
        self.in_flight.iter().filter(|s| s.operation == Operation::Accept).count()
    }

    fn sends_issued(&self, fd: i32) -> usize {
        self.issued
            .iter()
            .filter(|s| s.operation == Operation::Send { fd, payload: RESPONSE })
            .count()
    }

    fn closes_issued(&self, fd: i32) -> usize {
        self.issued.iter().filter(|s| s.operation == Operation::Close { fd }).count()
    }
}

#[test]
fn the_pool_is_full_before_the_first_wait() {
    let rig = Rig::launch();
    assert_eq!(rig.accepts_in_flight(), 64);
    assert_eq!(rig.in_flight.len(), 64);
    assert_eq!(rig.el.pending_count(), 64);
    for id in 0..64 {
        assert!(rig.el.is_pending(id));
    }
    assert_eq!(rig.flushes, 0);
    assert_eq!(rig.publishes, 64);
}

#[test]
fn one_connection_is_answered_and_closed() {
    let mut rig = Rig::launch();
    let (_, next) = rig.complete_accept(7);
    assert_eq!(next.len(), 2);
    assert_eq!(next[0].operation, Operation::Send { fd: 7, payload: RESPONSE });
    assert_eq!(next[0].user_data.kind, EventKind::Write);
    assert_eq!(next[1].operation, Operation::Accept);
    let next = rig.complete_send(7, RESPONSE.len() as i32);
    assert_eq!(next.len(), 1);
    assert_eq!(next[0].operation, Operation::Close { fd: 7 });
    let next = rig.complete_close(7);
    assert!(next.is_empty());
    assert_eq!(rig.sends_issued(7), 1);
    assert_eq!(rig.closes_issued(7), 1);
    assert_eq!(rig.in_flight.len(), 64);
    assert_eq!(rig.accepts_in_flight(), 64);
}

#[test]
fn sixty_four_connections_at_once_are_all_answered_and_closed() {
    let mut rig = Rig::launch();
    let fds: Vec<i32> = (100..164).collect();
    for fd in &fds {
        rig.complete_accept(*fd);
    }
    assert_eq!(rig.accepts_in_flight(), 64);
    for fd in fds.iter().rev() {
        let next = rig.complete_send(*fd, 73);
        assert_eq!(next.len(), 1);
        assert_eq!(next[0].operation, Operation::Close { fd: *fd });
    }
    for fd in &fds {
        assert!(rig.complete_close(*fd).is_empty());
    }
    for fd in &fds {
        assert_eq!(rig.sends_issued(*fd), 1);
        assert_eq!(rig.closes_issued(*fd), 1);
    }
    assert_eq!(rig.in_flight.len(), 64);
}

#[test]
fn every_accept_completion_is_followed_by_one_new_accept() {
    let mut rig = Rig::launch();
    let results = [5, -24, 6, 0, -11, 7, 8, -103, 9, 10];
    for (n, result) in results.iter().enumerate() {
        let (_, next) = rig.complete_accept(*result);
        let accepts: Vec<&Submission> =
            next.iter().filter(|s| s.operation == Operation::Accept).collect();
        assert_eq!(accepts.len(), 1);
        assert_eq!(accepts[0].user_data.id, 64 + n as u32);
        assert_eq!(rig.accepts_in_flight(), ACCEPT_POOL as usize);
    }
    rig.complete_send(5, 73);
    assert_eq!(rig.accepts_in_flight(), 64);
    rig.complete_close(5);
    assert_eq!(rig.accepts_in_flight(), 64);
}

#[test]
fn no_buffer_outlives_its_accept() {
    let mut rig = Rig::launch();
    let results = [5, -24, 6, 0, -11, 7, 8, -103, 9, 10];
    let mut completed = Vec::new();
    for result in results {
        let (id, _) = rig.complete_accept(result);
        completed.push(id);
        assert_eq!(rig.el.pending_count(), 64);
    }
    assert_eq!(completed.len(), 10);
    for id in completed {
        assert!(!rig.el.is_pending(id));
    }
    for submission in &rig.in_flight {
        if submission.operation == Operation::Accept {
            assert!(rig.el.is_pending(submission.user_data.id));
        }
    }
    assert_eq!(rig.accepts_in_flight(), 64);
}

#[test]
fn a_failed_accept_leaves_the_other_buffers_alone() {
    let mut rig = Rig::launch();
    let index = rig.find(|s| s.user_data.id == 5);
    let next = rig.complete(index, -24);
    assert_eq!(next.len(), 1);
    assert_eq!(next[0].operation, Operation::Accept);
    assert_eq!(next[0].user_data.id, 64);
    assert!(!rig.el.is_pending(5));
    assert!(rig.el.is_pending(64));
    assert_eq!(rig.el.pending_count(), 64);
    for id in (0..64).filter(|id| *id != 5) {
        assert!(rig.el.is_pending(id));
    }
}

#[test]
fn a_descriptor_is_closed_once_for_every_time_it_is_accepted() {
    let mut rig = Rig::launch();
    rig.complete_accept(5);
    rig.complete_accept(6);
    rig.complete_send(5, 73);
    rig.complete_close(5);
    assert_eq!(rig.closes_issued(5), 1);
    assert_eq!(rig.closes_issued(6), 0);
    rig.complete_accept(5);
    assert_eq!(rig.sends_issued(5), 2);
    assert_eq!(rig.closes_issued(5), 1);
    rig.complete_send(5, 73);
    rig.complete_send(6, 73);
    assert_eq!(rig.closes_issued(5), 2);
    assert_eq!(rig.closes_issued(6), 1);
    rig.complete_close(5);
    rig.complete_close(6);
    assert_eq!(rig.closes_issued(5), 2);
    assert_eq!(rig.closes_issued(6), 1);
    assert_eq!(rig.closes_issued(7), 0);
}

#[test]
fn a_client_that_hangs_up_early_is_still_closed_once() {
    let mut rig = Rig::launch();
    rig.complete_accept(12);
    let next = rig.complete_send(12, -32);
    assert_eq!(next.len(), 1);
    assert_eq!(next[0].operation, Operation::Close { fd: 12 });
    rig.complete_accept(13);
    let next = rig.complete_send(13, -104);
    assert_eq!(next.len(), 1);
    assert_eq!(next[0].operation, Operation::Close { fd: 13 });
    assert!(rig.complete_close(12).is_empty());
    assert!(rig.complete_close(13).is_empty());
    assert_eq!(rig.closes_issued(12), 1);
    assert_eq!(rig.closes_issued(13), 1);
}

#[test]
fn a_hundred_connections_find_the_pool_full() {
    let mut rig = Rig::launch();
    let mut waiting: Vec<i32> = Vec::new();
    for n in 0..100 {
        assert_eq!(rig.accepts_in_flight(), 64);
        let fd = 1000 + n;
        let (_, next) = rig.complete_accept(fd);
        assert_eq!(next[0].operation, Operation::Send { fd, payload: RESPONSE });
        waiting.push(fd);
        if n % 3 == 2 {
            let early = waiting.remove(0);
            rig.complete_send(early, 73);
            rig.complete_close(early);
        }
    }
    assert_eq!(rig.accepts_in_flight(), 64);
    while let Some(fd) = waiting.pop() {
        rig.complete_send(fd, 73);
        rig.complete_close(fd);
    }
    for n in 0..100 {
        assert_eq!(rig.sends_issued(1000 + n), 1);
        assert_eq!(rig.closes_issued(1000 + n), 1);
    }
    assert_eq!(rig.in_flight.len(), 64);
    assert_eq!(rig.el.counter(), 164);
    assert_eq!(rig.el.pending_count(), 64);
}

#[test]
fn completions_may_come_in_any_order() {
    let mut rig = Rig::launch();
    let last = rig.in_flight.len() - 1;
    let next = rig.complete(last, 21);
    assert_eq!(next[0].operation, Operation::Send { fd: 21, payload: RESPONSE });
    assert!(!rig.el.is_pending(63));
    let next = rig.complete(0, 22);
    assert_eq!(next[0].operation, Operation::Send { fd: 22, payload: RESPONSE });
    assert!(!rig.el.is_pending(0));
    let next = rig.complete_send(22, 73);
    assert_eq!(next[0].operation, Operation::Close { fd: 22 });
    let next = rig.complete_send(21, 73);
    assert_eq!(next[0].operation, Operation::Close { fd: 21 });
    assert_eq!(rig.accepts_in_flight(), 64);
}

#[test]
fn a_full_ring_is_flushed_before_the_push_is_repeated() {
    let mut rig = Rig::launch();
    rig.capacity = 1;
    let (_, next) = rig.complete_accept(31);
    assert_eq!(next.len(), 2);
    assert_eq!(rig.flushes, 1);
    assert_eq!(rig.publishes, 66);
    assert_eq!(rig.in_flight.len(), 65);
    assert_eq!(rig.accepts_in_flight(), 64);
    assert_eq!(rig.sends_issued(31), 1);
}

#[test]
fn any_schedule_keeps_the_books_balanced() {
    let mut rig = Rig::launch();
    let mut seed: u64 = 0x2545_f491_4f6c_dd1d;
    let mut accepted: Vec<i32> = Vec::new();
    let mut failed: Vec<u32> = Vec::new();
    let mut succeeded: Vec<u32> = Vec::new();
    for _ in 0..5000 {
        seed = seed.wrapping_mul(6364136223846793005).wrapping_add(1442695040888963407);
        let index = (seed >> 33) as usize % rig.in_flight.len();
        let result = match (seed >> 20) % 5 {
            0 => -(((seed >> 8) % 130) as i32),
            _ => 3 + ((seed >> 8) % 40) as i32,
        };
        let done = rig.in_flight[index];
        rig.complete(index, result);
        if done.operation == Operation::Accept {
            if result > 0 {
                accepted.push(result);
                succeeded.push(done.user_data.id);
            } else {
                failed.push(done.user_data.id);
            }
            assert!(!rig.el.is_pending(done.user_data.id));
        }

        assert_eq!(rig.accepts_in_flight(), 64);
        assert_eq!(rig.el.pending_count(), 64);
        for fd in 3..43 {
            let times = accepted.iter().filter(|x| **x == fd).count();
            let sending = rig
                .in_flight
                .iter()
                .filter(|s| s.operation == Operation::Send { fd, payload: RESPONSE })
                .count();
            assert_eq!(rig.sends_issued(fd), times);
            assert_eq!(rig.closes_issued(fd) + sending, times);
        }
    }
    for submission in &rig.in_flight {
        if submission.operation == Operation::Accept {
            assert!(rig.el.is_pending(submission.user_data.id));
        }
    }
    for id in failed.iter().chain(succeeded.iter()) {
        assert!(!rig.el.is_pending(*id));
    }
    assert_eq!(rig.el.counter() as usize, 64 + accepted.len() + failed.len());
}
