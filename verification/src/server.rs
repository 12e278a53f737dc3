use vstd::prelude::*;
use core::sync::atomic::{AtomicBool, Ordering};
use std::sync::Arc;

verus! {

/// Server-level errors, surfaced as events; none of them stops a worker.
#[derive(Debug)]
pub enum Error {
    /// The poller failed.
    PollError(std::io::Error),
    /// Registering a socket with the poller failed.
    RegisterError(std::io::Error),
    /// Application code panicked while a session with this id was driven;
    /// the session is closed, its siblings go on.
    Panicked(u64),
    /// A worker could not be created.
    WorkerNotCreated(std::io::Error),
    /// A worker thread panicked.
    WorkerPanicked,
}

/// A shared flag to stop all workers; each polls it at the top of its
/// cycle. Nothing can be promised about the value a reader sees: the flag
/// is shared between threads.
#[derive(Clone)]
pub struct Stopper {
    need_stop: Arc<AtomicBool>,
}

impl Stopper {
    /// A stopper that has not been asked to stop.
    pub fn new() -> Stopper {
        Stopper { need_stop: Arc::new(AtomicBool::new(false)) }
    }

    /// Asks every worker to stop after its in-flight cycle.
    pub fn stop(&self) {
        self.need_stop.store(true, Ordering::SeqCst);
    }

    /// True once some holder has asked to stop.
    pub fn need_stop(&self) -> bool {
        self.need_stop.load(Ordering::SeqCst)
    }
}

} // verus!
