//! The uniform contract of the auxiliary sinks: accept one formatted
//! value. Failures are a sink's own business — it logs and swallows them,
//! so a broken sink never aborts the pipeline.
use vstd::prelude::*;

verus! {

/// A one-value-at-a-time writer.
pub trait ValueLogger<T> {
    /// Write one value, best effort.
    fn log(&mut self, value: T);
}

} // verus!
