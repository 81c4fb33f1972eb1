//! Failures that abort the processing of a stream.

use vstd::prelude::*;

verus! {

/// Why a block could not be described or rebuilt.
///
/// A prediction that turns out wrong is never an error: it becomes a
/// correction. These are the structural failures, after which the stream
/// cannot be processed any further.
#[derive(Clone, Copy, Debug, PartialEq, Eq, Structural)]
pub enum PreflateError {
    /// A token covers more plaintext than is left.
    PlaintextTooShort,
    /// A reference is expected at a place where no match can be searched.
    NoSpaceForReference,
    /// The search with extended depth found no match either.
    NoMatchFound,
    /// The hash chain ended, or went past the target, before the distance was met.
    ChainExhausted,
    /// The number of hops leads past the end of the hash chain.
    HopsOutOfRange,
    /// A length outside of the range a reference can describe.
    InvalidLength,
    /// A block type code other than stored, static or dynamic.
    InvalidBlockType,
    /// A code type other than the four of the run-length encoding.
    InvalidTreeCodeType,
    /// The run-length encoding does not cover the bit lengths exactly.
    RleLengthMismatch,
    /// A field of a header that does not fit its range.
    InvalidHeader,
    /// The events are not those of a description: where the rebuilding
    /// reads an event, an event of another kind or width stands, or none.
    /// This is what the model of the rebuilding makes of such a sequence
    /// of events. The rebuilding itself asks its decoder for each event by
    /// the kind and width that belong at its place, and never comes to it.
    EventsOutOfStep,
    /// The bytes ended inside of a field.
    EndOfStream,
    /// A seek to a place before the first byte or beyond what can be addressed.
    InvalidSeek,
    /// A read of bits beyond the range that the reader may read.
    ReadPastEnd,
    /// A read of more than 32 bits at once.
    TooManyBits,
    /// A read of a whole byte while bits are still buffered.
    BufferNotFlushed,
}

} // verus!
