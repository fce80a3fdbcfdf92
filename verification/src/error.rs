//! The ways in which building or merging a frame set can fail.

use vstd::prelude::*;

verus! {

/// The metadata fields that a frame is built from.
#[derive(Clone, Copy, Debug, PartialEq, Eq, Structural)]
pub enum MetadataField {
    /// Width of the raw plane, in pixels.
    Width,
    /// Height of the raw plane, in pixels.
    Height,
    /// One-based number of the capture within its series.
    SequenceNumber,
    /// Byte offset at which the raw samples start.
    Offset,
}

/// Why a frame, a frame set or a merge was refused.
///
/// Every error is fatal for the merge it occurs in: there is no partial output.
#[derive(Clone, Copy, Debug, PartialEq, Eq, Structural)]
pub enum MergeError {
    /// A line of the metadata listing has no `:` between key and value.
    /// Holds the zero-based index of the line.
    MetadataLineMalformed(usize),
    /// The metadata listing has no entry for the field.
    MetadataFieldMissing(MetadataField),
    /// The field's value is not a number that fits 32 bits, or it is zero.
    MetadataFieldInvalid(MetadataField),
    /// The sequence number lies outside `1..=16`.
    InvalidSequence(u32),
    /// No frame of the set sits at the slot `4 * group + position`,
    /// and every lower slot is taken.
    IncompleteFrameSet(u32),
    /// The frame at the slot has other dimensions than the frame at slot 0.
    DimensionMismatch(u32),
    /// The set holds this many frames, which is neither 4 nor 16.
    UnsupportedFrameCount(usize),
}

} // verus!
