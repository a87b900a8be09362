//! Why the construction of a pool can fail.

use vstd::prelude::*;
use vstd::string::*;

verus! {

/// Text carried by [`PoolCreationError::ZeroThreads`].
pub const ZERO_THREADS_MESSAGE: &'static str = "Cant initialize ThreadPool with zero threads";

/// Text that opens the message of [`PoolCreationError::OsError`].
pub const OS_ERROR_PREFIX: &'static str = "Os Error: ";

/// Why a pool could not be built.
#[derive(Debug)]
pub enum PoolCreationError {
    /// A pool of zero workers was asked for.
    ZeroThreads(&'static str),
    /// The operating system refused to start one of the worker threads.
    OsError(String),
}

/// The message of the error reported when starting a thread failed for the
/// reason described by `cause`.
pub open spec fn os_error_text(cause: Seq<char>) -> Seq<char> {
    OS_ERROR_PREFIX@ + cause
}

impl PoolCreationError {
    /// The error for a request of zero workers.
    pub fn zero_threads() -> (e: PoolCreationError)
        ensures
            e == PoolCreationError::ZeroThreads(ZERO_THREADS_MESSAGE),
    {
        PoolCreationError::ZeroThreads(ZERO_THREADS_MESSAGE)
    }

    /// The error for a thread that could not be started; `cause` describes
    /// what the operating system reported.
    pub fn os_error(cause: &str) -> (e: PoolCreationError)
        ensures
            e matches PoolCreationError::OsError(message) && message@ == os_error_text(cause@),
    {
        let message = OS_ERROR_PREFIX.to_owned().concat(cause);
        PoolCreationError::OsError(message)
    }
}

} // verus!
