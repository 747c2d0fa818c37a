//! Runtime glue for a bare-metal program: the entry trampoline that turns the
//! result of `main` into an exit status, and the two terminal handlers (for an
//! unrecoverable error and for allocation exhaustion), modelled as machines
//! that yield one indicator action after another, forever.

pub mod halt;
pub mod termination;

pub use halt::{Action, CycleLeds, FlashAllLeds, BLINK_MS};
pub use termination::{start, Termination};
