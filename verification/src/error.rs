//! The ways in which decoding a snapshot or deriving a metric can fail.

use vstd::prelude::*;

verus! {

/// Why a byte stream was rejected as a snapshot.
#[derive(Clone, Copy, Debug, PartialEq, Eq, Structural)]
pub enum DecodeError {
    /// The leading four bytes are not the format's magic constant.
    BadMagic,
    /// The stream ends before a field that the layout requires.
    Truncated,
    /// An entry's offsets imply a negative name or value length, or a
    /// 64-bit value is given fewer than eight bytes.
    MalformedEntry,
    /// A name or a text value is not valid UTF-8.
    InvalidText,
    /// An entry's type tag is neither text (`'B'`) nor 64-bit integer (`'J'`).
    UnsupportedType,
}

/// Why a derived metric has no value.
#[derive(Clone, Copy, Debug, PartialEq, Eq, Structural)]
pub enum MetricError {
    /// The tick frequency that the metric divides by is absent or zero.
    MissingPrerequisite,
    /// The metric does not fit in a signed 64-bit integer.
    Overflow,
}

} // verus!
