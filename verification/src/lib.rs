//! Core of an event-driven finite state machine library.
//!
//! A machine is described by a [`table::Table`]: transition rules from
//! (source state, event tag) to a target state, each optionally arming a
//! per-state timeout, plus at most one wildcard timeout handler. States and
//! events are opaque `u64` tags. [`table::Table::validate`] proves, at
//! construction time, that every state the table declares is reachable from
//! the initial state — wildcard timeout edges included — and rejects the
//! table otherwise, naming the first unreachable state; no machine with dead
//! states can ever run.
//!
//! The [`engine::Engine`] kernel drives one validated table: per event it
//! looks up the earliest matching rule, adopts the transition the handler
//! returns, publishes the new state, reprogrammes the single per-instance
//! timer, and honours the set-once shutdown signal — graceful shutdown
//! drains the queued events, immediate shutdown abandons them. The kernel is
//! deterministic and synchronous; an asynchronous host owns the queue, the
//! clock and the wires, and consults the kernel for every decision.
//!
//! [`duration::parse_duration`] reads the timeout literals (`"30s"`,
//! `"500ms"`) used in configuration; it is a plain utility with no machine
//! semantics.

pub mod duration;
pub mod engine;
pub mod reach;
pub mod table;
pub mod transition;

pub use duration::Duration;
pub use duration::parse_duration;
pub use engine::Engine;
pub use engine::Event;
pub use engine::Handlers;
pub use engine::ShutdownAction;
pub use engine::Step;
pub use engine::TimerCmd;
pub use table::ConfigError;
pub use table::FsmArgs;
pub use table::Rule;
pub use table::Table;
pub use table::ValidTable;
pub use table::default_channel_size;
pub use transition::ShutdownMode;
pub use transition::TaskError;
pub use transition::Transition;
