//! The flag that stops the server's ticker.

use std::sync::atomic::AtomicBool;
use std::sync::Arc;
use vstd::prelude::*;

verus! {

/// A flag shared by the ticker and by whoever may stop it. Once it is
/// raised, the ticker ends at its next turn. Any holder may raise it at any
/// moment, so what one holder reads says nothing of what the next read
/// gives.
#[derive(Clone)]
pub struct TickerShutdown(Arc<AtomicBool>);

impl TickerShutdown {
    /// A flag that is not raised.
    pub fn new() -> TickerShutdown {
        TickerShutdown(Arc::new(AtomicBool::new(false)))
    }

    /// Whether the flag was raised when it was read.
    pub fn is_shutdown(&self) -> bool {
        self.0.load(std::sync::atomic::Ordering::Relaxed)
    }

    /// Raises the flag.
    pub fn do_shutdown(&self) {
        self.0.store(true, std::sync::atomic::Ordering::Relaxed);
    }
}

} // verus!
