use vstd::prelude::*;

verus! {

/// The recoverable failures of the chain and of the work queue.
#[derive(Debug, Clone, Copy, PartialEq, Eq, Structural)]
pub enum Error {
    /// A work queue was asked for with no workers.
    ConfigurationError,
    /// A task was handed to a queue that is shutting down or shut down.
    QueueClosed,
    /// A block without a proof was hashed or linked from.
    NotMined,
    /// Every candidate of the searched range was tried and none is valid.
    ExhaustedSearch,
}

} // verus!
