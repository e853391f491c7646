//! Loggers accept records; adapters wrap a logger with a decision made
//! before the wrapped logger sees the record.

use vstd::prelude::*;

use crate::record::Record;

verus! {

/// Something that accepts log events. The delivery itself — writing,
/// queueing, crossing threads — belongs to the implementation.
pub trait Logger {
    /// Logs the given record with its deferred message text.
    fn log(&mut self, rec: &mut Record, message: String);
}

/// Wraps a logger with a fast severity threshold: records below the
/// threshold never reach the wrapped logger.
pub struct SeverityFilteredLoggerAdapter<L: Logger> {
    logger: L,
    threshold: i32,
}

impl<L: Logger> SeverityFilteredLoggerAdapter<L> {
    /// The current threshold.
    pub closed spec fn spec_threshold(self) -> i32 {
        self.threshold
    }

    /// The wrapped logger.
    pub closed spec fn spec_logger(self) -> L {
        self.logger
    }

    /// Wraps the given logger; the threshold starts at zero.
    pub fn new(logger: L) -> (r: SeverityFilteredLoggerAdapter<L>)
        ensures
            r.spec_threshold() == 0,
    {
        SeverityFilteredLoggerAdapter { logger: logger, threshold: 0 }
    }

    /// Replaces the threshold with the given one.
    pub fn filter(&mut self, value: i32)
        ensures
            final (self).spec_threshold() == value,
    {
        self.threshold = value;
    }

    /// The decision this adapter makes: a record passes exactly when
    /// its severity reaches the threshold.
    pub fn should_log(&self, sev: i32) -> (r: bool)
        ensures
            r == (sev >= self.spec_threshold()),
    {
        sev >= self.threshold
    }

    /// Unwraps the adapter, giving the wrapped logger back.
    pub fn into_inner(self) -> (r: L)
        ensures
            r == self.spec_logger(),
    {
        self.logger
    }

    /// Hands the record to the wrapped logger exactly when its severity
    /// reaches the threshold.
    pub fn log(&mut self, rec: &mut Record, message: String)
        ensures
            final (self).spec_threshold() == old(self).spec_threshold(),
    {
        if rec.severity() >= self.threshold {
            self.logger.log(rec, message);
        }
    }
}

} // verus!
