//! Resumable, in-place radix-2 Fourier transform engines.
//!
//! The forward and inverse transforms are explicit state machines that
//! perform one butterfly (or one bookkeeping transition) per step, so a
//! cooperative host can interleave other work between steps.  The twiddle
//! factors come from a quarter-wave sine table whose entries are produced
//! by a fixed-iteration CORDIC rotator.
//!
//! Sample arithmetic is abstracted behind the [`common::Float`] trait, so
//! the engines are verified once for every scalar type a caller binds.
//! Over that abstraction the contracts pin down, for every step, exactly
//! which buffer slots change and to which combination of their old
//! values; that every reachable state keeps all cursors in bounds, so no
//! step can panic; that both engines terminate, with a step count that
//! depends on the buffer size alone; that the blocking operations equal
//! the closure of the single-step transitions; and that the reordering
//! passes apply the bit-reversal permutation, which is proved to be its
//! own inverse.

pub mod common;
pub mod cordic;
pub mod fft;
pub mod ifft;

pub use common::Base;
pub use common::ConfigurationError;
pub use common::Float;
pub use fft::EmbFft;
pub use ifft::EmbIfft;
