use vstd::prelude::*;

verus! {

/// What can go wrong while decoding a profile or evaluating one of its tables.
#[derive(Debug, Clone, Copy, PartialEq, Eq, Structural)]
pub enum IccError {
    /// A read of `size` bytes at `offset` would pass the end of a buffer of `length` bytes.
    OutOfBounds { offset: usize, size: usize, length: usize },
    /// The profile is shorter than its 128-byte header.
    ProfileTooShort { length: usize },
    /// `entries` items of `width` bytes each were needed where only `length`
    /// bytes were left: a batch conversion's input, or a lut tag's tables.
    DataShortage { entries: usize, width: usize, length: usize },
    /// A table declares zero grid points or zero entries.
    DivideByZero,
}

/// An error that decoding a profile or a tag can give: a read past the end,
/// tables that do not fit, or a lut that declares zero grid points or entries.
pub open spec fn decode_error(e: IccError) -> bool {
    e is OutOfBounds || e is DataShortage || e is DivideByZero
}

} // verus!
