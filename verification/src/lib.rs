//! Decision core of a caching forward proxy.
//!
//! The proxy relays every request to one upstream host and keeps what came
//! back on a storage medium, so that a later request for the same target is
//! answered without asking upstream again. This crate holds the decisions:
//! which key a target has, where its artifacts live, what a request does
//! next, where each chunk of a streamed body goes, and when a stored body
//! becomes visible. Sockets and files belong to the program around it, which
//! performs the actions decided here and reports what happened.
//!
//! The parts, leaves first:
//!
//! - [`octets`]: helpers for building byte strings.
//! - [`key`]: the cache key of a request target, and why no two targets
//!   share one.
//! - [`layout`]: the names of the artifacts of a key.
//! - [`wire`]: what is asked of the HTTP library, and the byte strings built
//!   for it.
//! - [`protocol`]: the events reported to the core and the actions it asks
//!   for.
//! - [`store`]: the cache store, as operations on a medium of named
//!   artifacts.
//! - [`recorder`]: how a redirect is recorded and answered again.
//! - [`tee`]: where the chunks of a streamed body go.
//! - [`exchange`]: one request, from its arrival to its outcome.
//! - [`dispatcher`]: the configuration of a deployment and the source of
//!   exchanges.
//! - [`session`]: an exchange together with the medium and upstream, and
//!   what holds of the whole.
//!
//! Requests that miss on the same key at the same time are not made to wait
//! for each other. Each fetches on its own and writes to a pending artifact
//! of its own; the first to commit provides the body, and a later commit
//! leaves that body as it is.

pub mod octets;
pub mod key;
pub mod layout;
pub mod wire;
pub mod protocol;
pub mod store;
pub mod recorder;
pub mod tee;
pub mod exchange;
pub mod dispatcher;
pub mod session;
