//! The decision-making core of a single-threaded TCP responder that is driven
//! by a submission/completion ring.
//!
//! The responder keeps a fixed pool of accept operations outstanding. Every
//! accepted connection is sent [`config::RESPONSE`] and is then closed. All
//! three steps are asynchronous operations whose completions come back through
//! the ring carrying nothing but a result code and the 64-bit tag that the
//! operation was submitted with.
//!
//! This crate holds everything the responder decides and remembers, and none of
//! what it does to the outside world:
//!
//! * [`tag`]: the typed operation tag and its 64-bit encoding;
//! * [`store`]: the table that keeps the address buffer of every accept that
//!   is in flight;
//! * [`submit`]: the operations the responder asks the ring to perform, and
//!   the push/flush/publish protocol that gets one of them onto the ring;
//! * [`event_loop`]: the dispatch of one completion to the operations that
//!   follow it;
//! * [`system`]: a model of the responder together with the kernel side of
//!   the ring, and the invariants that every reachable state satisfies;
//! * [`count`]: counting in sequences, which the invariants are stated with.
//!
//! A driver owns the sockets and the ring. It performs the operations that this
//! crate hands out and reports back what happened.

pub mod config;
pub mod count;
pub mod event_loop;
pub mod store;
pub mod submit;
pub mod system;
pub mod tag;
