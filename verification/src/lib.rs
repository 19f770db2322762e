//! Placement of five-cell pieces inside a 5×5×5 box, with the box's
//! occupancy bookkeeping.

use vstd::prelude::*;

pub mod combination;
pub mod cube;
pub mod ge_cube;
pub mod order;
pub mod piece;

verus! {

/// The character that stands for a cell value when a box is printed:
/// `'.'` for an empty cell (any negative value), `'a'` to `'y'` for the
/// piece names `0` to `24`, and `'#'` for anything above.
pub open spec fn i2c_spec(index: int) -> char {
    if index < 0 {
        '.'
    } else if index > 24 {
        '#'
    } else {
        (index + 97) as char
    }
}

/// Converts a cell value to the character it is printed as.
pub fn i2c(index: isize) -> (c: char)
    ensures
        c == i2c_spec(index as int),
{
    if index < 0 {
        return '.';
    }
    if index > 24 {
        return '#';
    }
    let index: u8 = index as u8;
    (index + 97) as char
}

} // verus!
