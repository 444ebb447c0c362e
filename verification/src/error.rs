//! The ways in which lowering a class file can fail.

use vstd::prelude::*;

verus! {

/// Why a class file could not be turned into an image.
///
/// The variants with an `offset` are decoding errors; the offset counts bytes
/// from the start of the stream that was being decoded.
#[derive(Clone, Copy, Debug, PartialEq, Eq, Structural)]
pub enum BaliError {
    /// The stream ends before the field that starts at `offset` is complete.
    Truncated { offset: usize },
    /// The byte at `offset` is not the tag of any constant-pool entry.
    UnknownTag { offset: usize },
    /// The text of the UTF-8 constant that starts at `offset` is not UTF-8.
    InvalidUtf8 { offset: usize },
    /// The constant-pool count at `offset` is zero.
    EmptyPool { offset: usize },
    /// The two-slot constant at `offset` starts in the last slot of the pool.
    PoolOverrun { offset: usize },
    /// The structure is complete at `offset`, but bytes follow it.
    TrailingBytes { offset: usize },
    /// A constant-pool index does not lead to an entry of the kind it must name.
    BadReference,
    /// A signature has no well-formed parameter list or return type.
    BadDescriptor,
    /// The bytecode holds an opcode that the opcode table does not list.
    UnknownOpcode,
    /// The bytecode ends inside operands that have to be read.
    TruncatedCode,
    /// The class has no `main` method with bytecode.
    MissingMain,
    /// A method reference names a method that the image does not hold.
    UnresolvedMethod,
    /// An `ldc` instruction loads a constant that is not an integer.
    NotAnInteger,
    /// The image does not fit into a 16-bit address space.
    ImageTooLarge,
    /// A method needs more than 255 local variables.
    TooManyLocals,
    /// An integer constant would get a table index above 255.
    TooManyConstants,
    /// The image has more bytes than the length that is sent ahead of it can say.
    TransferTooLong,
}

/// Whether `r` is the result `expected`, its value seen through its view.
pub open spec fn is_result<T: View>(
    r: Result<T, BaliError>,
    expected: Result<T::V, BaliError>,
) -> bool {
    match r {
        Ok(value) => expected == Ok::<T::V, BaliError>(value@),
        Err(e) => expected == Err::<T::V, BaliError>(e),
    }
}

} // verus!
