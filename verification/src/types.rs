//! The enumerations that configure a traversal, and the codec's error type.

use vstd::prelude::*;

verus! {

/// Byte order for every multi-byte scalar transferred during one traversal.
#[derive(Copy, Clone, PartialEq, Eq, Structural, Debug)]
pub enum Endianness {
    BigEndian,
    LittleEndian,
}

/// A forced width for a length field or a tagged-composite discriminant,
/// bypassing the automatic smallest-fitting width selection.
#[derive(Copy, Clone, PartialEq, Eq, Structural, Debug)]
pub enum SizePolicy {
    U8,
    U16,
    U32,
    U64,
}

/// Whether a reflector encodes values into bytes or decodes bytes into values.
#[derive(Copy, Clone, PartialEq, Eq, Structural, Debug)]
pub enum Direction {
    Writing,
    Reading,
}

/// Everything that can go wrong during a traversal. Any failure aborts the
/// traversal immediately; the destination value may be left partially
/// populated.
#[derive(Copy, Clone, PartialEq, Eq, Structural, Debug)]
pub enum CodecError {
    /// The input ended before the operation had all the bytes it required.
    ShortRead,
    /// The output sink accepted fewer bytes than the operation produced.
    ShortWrite,
    /// A size-codec width tag outside {1, 2, 4, 8} was found in the input.
    CorruptSizeTag,
    /// A tagged-composite discriminant matched no variant of the type.
    UnknownTag,
}

/// Turns a required condition into a codec result: `Ok` when the condition
/// holds, the given error otherwise.
pub fn check(cond: bool, err: CodecError) -> (r: Result<(), CodecError>)
    ensures
        cond ==> r == Ok::<(), CodecError>(()),
        !cond ==> r == Err::<(), CodecError>(err),
{
    if cond {
        Ok(())
    } else {
        Err(err)
    }
}

} // verus!
