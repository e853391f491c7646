//! Severity: a record stores a plain `i32` for fast filtering, and a
//! severity-capable type says how that number turns back into text.

use vstd::prelude::*;

use crate::fmt::Error;
use crate::fmt::Format;
use crate::fmt::FormatSpec;
use crate::fmt::Formatter;
use crate::fmt::spec_render_int;
use crate::fmt::wrote;

verus! {

/// A type that stands for a severity level: it yields the number a
/// record stores, and renders any such number's display form.
pub trait Severity {
    /// What rendering the number `val` under `fs` produces.
    spec fn formatted(val: int, fs: FormatSpec) -> Seq<char>;

    /// The integer severity representation.
    fn as_i32(&self) -> i32;

    /// Renders the display form of `val` into the formatter's sink.
    fn format(val: i32, f: &mut Formatter) -> (r: Result<(), Error>)
        ensures
            final (f).fspec == old(f).fspec,
            wrote(old(f).sink, final (f).sink, Self::formatted(val as int, old(f).fspec)),
            (r is Ok) == old(f).sink.accepts(Self::formatted(val as int, old(f).fspec).len()),
            r is Err ==> r == Result::<(), Error>::Err(Error::Io),
    ;
}

impl Severity for i32 {
    open spec fn formatted(val: int, fs: FormatSpec) -> Seq<char> {
        spec_render_int(val, fs)
    }

    fn as_i32(&self) -> (r: i32)
        ensures
            r == *self,
    {
        *self
    }

    fn format(val: i32, f: &mut Formatter) -> (r: Result<(), Error>) {
        val.format(f)
    }
}

} // verus!
