//! The time limit of an outbound dial.
use crate::io_error::{ErrorKind, IoError};
use crate::text;
use vstd::prelude::*;

verus! {

/// Most time that one dial may take: 5 seconds, in nanoseconds.
pub const DIAL_TIMEOUT: u128 = 5_000_000_000;

/// Errors of the kernel.
#[derive(Debug)]
pub enum MeowError {
    Io(IoError),
    /// A proxy failed.
    Proxy(String),
}

/// The outcome of a dial under [`DIAL_TIMEOUT`]: what the dial itself came to,
/// or that it took too long, which counts as an input or output error.
pub fn with_dial_timeout<T>(via: &str, finished: Option<Result<T, MeowError>>) -> (r: Result<
    T,
    MeowError,
>)
    ensures
        match finished {
            Some(result) => r == result,
            None => r matches Err(MeowError::Io(e)) && e.is_error(
                ErrorKind::TimedOut,
                "dial via "@ + via@ + " timed out after 5s"@,
            ),
        },
{
    match finished {
        Some(result) => result,
        None => Err(
            MeowError::Io(
                IoError {
                    kind: ErrorKind::TimedOut,
                    message: text::join3("dial via ", via, " timed out after 5s"),
                },
            ),
        ),
    }
}

} // verus!
