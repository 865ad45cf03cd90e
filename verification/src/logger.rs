//! The capability through which a generation pass reports diagnostics.

use vstd::prelude::*;

verus! {

/// Receives the diagnostics of a generation pass. Both methods are called on
/// the thread that runs the pass, at the moment the condition is found.
pub trait Logger {
    /// A condition that aborts the pass.
    fn error(&self, msg: &str);

    /// A condition that the pass survives.
    fn warn(&self, msg: &str);
}

/// A logger that discards every message.
pub struct DummyLogger;

impl Logger for DummyLogger {
    fn error(&self, _msg: &str) {
    }

    fn warn(&self, _msg: &str) {
    }
}

} // verus!
