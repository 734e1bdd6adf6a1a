//! A circuit breaker built on a ring buffer with time-based rollover.
//!
//! The intention is to give a failing system a break so it can recover.
//!
//! The circuit breaker records the result of each request into a ring buffer
//! of `Settings.buffer_size` nodes. Each [Node] is used for
//! `Settings.buffer_span_duration` to record into before the cursor moves to
//! the next [Node]. At each look the error rate of the completed spans is held
//! against `Settings.error_threshold`, as long as those spans contain at least
//! `Settings.min_eval_size` events. If the error rate is above the threshold
//! the [State] of the [CircuitBreaker] becomes `Open`. The open state ignores
//! all events. After `Settings.retry_timeout` the [State] becomes `HalfOpen`.
//! `Settings.trial_success_required` successful events in succession close the
//! circuit again; a single failed event opens it again for another
//! `Settings.retry_timeout`.
//!
//! Checking for the state of the [CircuitBreaker] allows userland to decide
//! what to do.
//!
//! This implementation is not thread-safe and should be wrapped in a Mutex if
//! used in a multi-thread context.
//!
//! The modules:
//! - [`ring_buffer`]: the ring buffer and its error rate
//! - [`circuit_breaker`]: the settings, the states and the breaker
//! - [`clock`]: the clock that a breaker reads
//! - [`cli_args`], [`cli_helpers`]: settings from a command line, usage text
//! - [`decimal`]: numbers written in base ten
//! - [`visualizer`]: the breaker drawn for a terminal
//! - [`circuitbreaker`]: a plain ring of nodes without tallies per outcome
pub mod circuit_breaker;
pub mod circuitbreaker;
pub mod cli_args;
pub mod cli_helpers;
pub mod clock;
pub mod decimal;
pub mod ring_buffer;
pub mod visualizer;

pub use circuit_breaker::{CircuitBreaker, Settings, State};
pub use ring_buffer::{Node, NodeInfo, RingBuffer};
