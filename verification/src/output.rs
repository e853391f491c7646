//! Outputs deliver one formatted message to a destination.

use vstd::prelude::*;

use crate::fmt::Error;
use crate::record::Record;

verus! {

/// A destination for formatted log messages.
pub trait Output {
    /// Delivers one formatted message for the given record.
    fn write(&self, rec: &Record, message: &str) -> Result<(), Error>;
}

/// The output that merely exists: it never writes and never fails.
pub struct NullOutput;

impl Output for NullOutput {
    fn write(&self, rec: &Record, message: &str) -> (r: Result<(), Error>)
        ensures
            r is Ok,
    {
        Ok(())
    }
}

} // verus!
