//! A verified core for a keyboard-remapping engine.
//!
//! The library models physical keys and modifiers, compiles declarative
//! remapping rules, tracks the set of exclusively grabbed key/modifier
//! combinations with transactional undo, decodes captured input records,
//! plans the synthetic event bursts that a matched rule emits, and drives
//! the supervisor state machine that keeps a worker process alive.
//!
//! All interaction with a windowing server or the operating system happens
//! outside this crate: the engine consumes plain decoded values and produces
//! explicit command lists for a thin unverified shell to execute.

pub mod config;
pub mod engine;
pub mod events;
pub mod key;
pub mod key_grabber;
pub mod supervisor;
