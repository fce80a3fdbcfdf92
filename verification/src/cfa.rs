//! The colour filter array of the sensor.

use vstd::prelude::*;

verus! {

/// The three filter colours of the sensor's photosites.
#[derive(Clone, Copy, Debug, PartialEq, Eq, Structural)]
pub enum Color {
    Red,
    Green,
    Blue,
}

/// The filter colour at a sensor site, for any integer coordinate.
///
/// The tiling is
///
/// ```text
/// R G R G
/// G B G B
/// ```
///
/// and repeats every two rows and every two columns.
pub open spec fn filter_color_spec(row: int, col: int) -> Color {
    if row % 2 == 0 {
        if col % 2 == 0 {
            Color::Red
        } else {
            Color::Green
        }
    } else {
        if col % 2 == 0 {
            Color::Green
        } else {
            Color::Blue
        }
    }
}

/// The filter colour at sensor site (`row`, `col`).
pub fn filter_color(row: u32, col: u32) -> (color: Color)
    ensures
        color == filter_color_spec(row as int, col as int),
{
    match (row % 2, col % 2) {
        (0, 0) => Color::Red,
        (0, _) => Color::Green,
        (_, 0) => Color::Green,
        (_, _) => Color::Blue,
    }
}

/// One if the site (`row`, `col`) carries the filter `color`, else zero.
pub open spec fn site_count(row: int, col: int, color: Color) -> nat {
    if filter_color_spec(row, col) == color {
        1
    } else {
        0
    }
}

/// How many of the four sites of the 2-by-2 block whose upper left corner is
/// (`row`, `col`) carry the filter `color`.
pub open spec fn block_count(row: int, col: int, color: Color) -> nat {
    site_count(row, col, color) + site_count(row, col + 1, color) + site_count(
        row + 1,
        col,
        color,
    ) + site_count(row + 1, col + 1, color)
}

/// The tiling repeats every two rows and every four columns
/// (every two columns, in fact).
pub proof fn filter_color_is_periodic(row: int, col: int)
    ensures
        filter_color_spec(row + 2, col) == filter_color_spec(row, col),
        filter_color_spec(row, col + 4) == filter_color_spec(row, col),
        filter_color_spec(row, col + 2) == filter_color_spec(row, col),
{
}

/// Every 2-by-2 block of sites, wherever it starts, holds two green sites,
/// one red and one blue.
pub proof fn block_holds_each_color(row: int, col: int)
    ensures
        block_count(row, col, Color::Green) == 2,
        block_count(row, col, Color::Red) == 1,
        block_count(row, col, Color::Blue) == 1,
{
}

} // verus!
