//! Client for a replicated metadata service: selectively activated
//! sub-protocols (heartbeat, router, store, lock) behind one object. The
//! client decides what may go out and what it carries, and turns replies
//! into results; models of the service state the key-value, routing and
//! lock semantics that the replies follow.

pub mod bytes;
pub mod client;
pub mod heartbeat;
pub mod kv;
pub mod lock;
pub mod route;
pub mod store;
