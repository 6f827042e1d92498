//! The core of a message-driven key-value store.
//!
//! One consumer owns the storage engine and serves commands one at a time:
//! a write, a read, or a read that waits until its key holds a value. This
//! crate holds what the consumer decides: the registry of waiting readers
//! ([`registry`]), the rules by which each command changes the registry and
//! answers readers ([`actor`]), the consumer itself with one-shot channels
//! for reply slots ([`store`]), and what follows from the rules over whole
//! runs of commands ([`laws`]). The storage engine and the mailbox are the
//! caller's: each rule takes what the engine answered as an argument.
//!
//! Beside the store stands the static configuration that the protocol
//! around it reads ([`config`]).

pub mod actor;
pub mod config;
pub mod error;
pub mod laws;
pub mod registry;
pub mod store;
pub mod text;

pub use crate::config::{Authority, Committee, Parameters};
pub use crate::error::{StoreError, StoreResult};
pub use crate::registry::Registry;
pub use crate::store::{Store, StoreCommand};
