//! Writing rendered HTML into `fmt::Write` and `io::Write` sinks.

use std::fmt;

use vstd::prelude::*;

verus! {

/// The error type of `fmt::Write`.
#[verifier::external_type_specification]
#[verifier::external_body]
pub struct ExFmtError(core::fmt::Error);

/// Hands `s` to the writer `out`.
///
/// Calls `fmt::Write::write_str`. Whether it succeeds depends on the writer
/// (a `String` never fails, an I/O sink may), so nothing is stated of the
/// result, nor of the writer's state afterwards.
#[verifier::external_body]
pub(crate) fn write_str_into<W: fmt::Write>(out: &mut W, s: &str) -> Result<(), fmt::Error> {
    out.write_str(s)
}

/// Adapts `std::io::Write` to `std::fmt::Write`, so that rendering can write
/// directly to files, sockets or any other I/O sink.
pub struct IoWriteAdapter<W>(pub W);

impl<W: std::io::Write> fmt::Write for IoWriteAdapter<W> {
    /// Writes all of `s` as UTF-8 bytes with `io::Write::write_all`; an I/O
    /// error becomes `fmt::Error`.
    #[verifier::external_body]
    fn write_str(&mut self, s: &str) -> Result<(), fmt::Error> {
        self.0.write_all(s.as_bytes()).map_err(|_| fmt::Error)
    }
}

} // verus!
