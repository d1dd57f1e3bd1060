//! A small computation library built around two cooperating pieces: an
//! overflow-aware Fibonacci engine, and an ownership-transfer protocol for
//! handing heap-allocated, NUL-terminated text across a component boundary.
//!
//! The engine computes Fibonacci numbers under two explicit overflow
//! policies: a wide (128-bit) variant that clamps both the index and the
//! value and reports the clamping through diagnostics, and a narrow (64-bit)
//! variant that silently wraps.  The exchange module formats results as
//! owned byte buffers that a caller releases exactly once.  Around them sit
//! a checked division utility, timing statistics, and the decision core of
//! a small metrics server.

pub mod clock;
pub mod digits;
pub mod divide;
pub mod exchange;
pub mod fib;
pub mod server;
pub mod stats;
pub mod text;

pub use exchange::calculate_fibonacci_and_greet;
pub use exchange::calculate_fibonacci_batch;
pub use exchange::free_string;
pub use exchange::ExchangedString;
pub use fib::fibonacci;
pub use fib::fibonacci_computation;
pub use fib::fibonacci_ffi;
