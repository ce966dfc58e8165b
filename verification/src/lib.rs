//! A deterministic pseudorandom number generator implementing the Mersenne
//! Twister (MT19937) algorithm, extended with a bounded lookahead buffer that
//! lets callers peek at future output words without consuming them.

pub mod laws;
pub mod mt19937;

pub use mt19937::DEFAULT_SEED;
pub use mt19937::DEFAULT_SEED_PS2;
pub use mt19937::MT19937;
pub use mt19937::MTState;
