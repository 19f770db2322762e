//! Equality and order of pieces. Both go by the name alone: where a piece
//! lies plays no part.

use std::cmp::Ordering;
use vstd::prelude::*;
use vstd::std_specs::cmp::{PartialEqSpecImpl, PartialOrdSpecImpl};
use crate::piece::Piece;

verus! {

impl PartialEq for Piece {
    fn eq(&self, other: &Piece) -> (equal: bool) {
        self.name_index == other.name_index
    }
}

impl PartialEqSpecImpl for Piece {
    open spec fn obeys_eq_spec() -> bool {
        true
    }

    open spec fn eq_spec(&self, other: &Piece) -> bool {
        self.name_index == other.name_index
    }
}

impl PartialOrd for Piece {
    fn partial_cmp(&self, other: &Piece) -> (order: Option<Ordering>) {
        if self.name_index == other.name_index {
            return Some(Ordering::Equal);
        }
        if self.name_index < other.name_index {
            return Some(Ordering::Less);
        }
        Some(Ordering::Greater)
    }
}

impl PartialOrdSpecImpl for Piece {
    open spec fn obeys_partial_cmp_spec() -> bool {
        true
    }

    open spec fn partial_cmp_spec(&self, other: &Piece) -> Option<Ordering> {
        if self.name_index == other.name_index {
            Some(Ordering::Equal)
        } else if self.name_index < other.name_index {
            Some(Ordering::Less)
        } else {
            Some(Ordering::Greater)
        }
    }
}

} // verus!
