//! From a capture's sequence number to its place in the shift pattern.
//!
//! The camera fires its shots in an order of its own. Sequence numbers count
//! the shots in firing order, starting at 1; the merge wants them in raster
//! order of the sensor positions. One fixed permutation of four restores that
//! order, both for the position of a shot within its group of four and for
//! the group within a series of sixteen.

use vstd::prelude::*;
use crate::error::MergeError;

verus! {

/// The highest sequence number of a series.
pub const MAX_SEQUENCE: u32 = 16;

/// The permutation from firing order (1 to 4) to raster order (0 to 3):
///
/// | fired | raster |
/// |-------|--------|
/// | 1     | 1      |
/// | 2     | 0      |
/// | 3     | 3      |
/// | 4     | 2      |
pub open spec fn raster_index(fired: int) -> int
    recommends
        1 <= fired <= 4,
{
    if fired == 1 {
        1
    } else if fired == 2 {
        0
    } else if fired == 3 {
        3
    } else {
        2
    }
}

/// The group of the capture with sequence number `seq`.
pub open spec fn group_of(seq: int) -> int
    recommends
        1 <= seq <= 16,
{
    raster_index(1 + (seq - 1) / 4)
}

/// The position within its group of the capture with sequence number `seq`.
pub open spec fn position_of(seq: int) -> int
    recommends
        1 <= seq <= 16,
{
    raster_index(1 + (seq - 1) % 4)
}

/// Whether `seq` is a sequence number of a series.
pub open spec fn valid_sequence(seq: int) -> bool {
    1 <= seq <= 16
}

fn permute(fired: u32) -> (raster: u32)
    requires
        1 <= fired <= 4,
    ensures
        raster == raster_index(fired as int),
{
    match fired {
        1 => 1,
        2 => 0,
        3 => 3,
        _ => 2,
    }
}

/// Maps a sequence number to its group and its position in the group.
///
/// Sequence numbers 1 to 16 are mapped; any other is refused.
pub fn map_sequence(seq: u32) -> (slot: Result<(u32, u32), MergeError>)
    ensures
        valid_sequence(seq as int) ==> slot == Ok::<(u32, u32), MergeError>(
            (group_of(seq as int) as u32, position_of(seq as int) as u32),
        ),
        !valid_sequence(seq as int) ==> slot == Err::<(u32, u32), MergeError>(
            MergeError::InvalidSequence(seq),
        ),
        slot matches Ok((group, position)) ==> group < 4 && position < 4,
{
    if seq == 0 || seq > MAX_SEQUENCE {
        return Err(MergeError::InvalidSequence(seq));
    }
    let s: u32 = seq - 1;
    let position: u32 = permute(1 + s % 4);
    let group: u32 = permute(1 + s / 4);
    Ok((group, position))
}

/// Group and position are both in `0..4`.
pub proof fn slot_in_range(seq: int)
    requires
        valid_sequence(seq),
    ensures
        0 <= group_of(seq) < 4,
        0 <= position_of(seq) < 4,
{
}

/// No two sequence numbers share a slot.
pub proof fn slots_are_distinct(a: int, b: int)
    requires
        valid_sequence(a),
        valid_sequence(b),
        group_of(a) == group_of(b),
        position_of(a) == position_of(b),
    ensures
        a == b,
{
}

/// Every one of the sixteen slots belongs to a sequence number, which is returned.
pub proof fn every_slot_is_taken(group: int, position: int) -> (seq: int)
    requires
        0 <= group < 4,
        0 <= position < 4,
    ensures
        valid_sequence(seq),
        group_of(seq) == group,
        position_of(seq) == position,
{
    let quotient: int = if group == 0 { 1 } else if group == 1 { 0 } else if group == 2 { 3 } else { 2 };
    let rest: int = if position == 0 { 1 } else if position == 1 { 0 } else if position == 2 { 3 } else { 2 };
    4 * quotient + rest + 1
}

/// Four consecutive shots that start a group share that group, and take its
/// four positions: within such a run the position alone tells the shots apart.
pub proof fn run_of_four_is_one_group(a: int, b: int)
    requires
        valid_sequence(a),
        valid_sequence(b),
        (a - 1) / 4 == (b - 1) / 4,
    ensures
        group_of(a) == group_of(b),
        position_of(a) == position_of(b) ==> a == b,
{
}

/// Within the run of four consecutive shots that holds `seq`, every position
/// is taken by one shot, which is returned.
pub proof fn run_of_four_takes_every_position(seq: int, position: int) -> (other: int)
    requires
        valid_sequence(seq),
        0 <= position < 4,
    ensures
        valid_sequence(other),
        (other - 1) / 4 == (seq - 1) / 4,
        position_of(other) == position,
{
    let rest: int = if position == 0 { 1 } else if position == 1 { 0 } else if position == 2 { 3 } else { 2 };
    4 * ((seq - 1) / 4) + rest + 1
}

} // verus!
