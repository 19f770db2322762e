//! Genomes: a row of pieces, the box they fill, and how that box is
//! scored.

use vstd::prelude::*;
use crate::combination::{step, steps, zero};
use crate::cube::{Cell, Grid, PrintBox, conflict_cells, deposit, empty_grid, lemma_deposit_two};
use crate::piece::{
    PIECES, Piece, first_at, fits_box, lemma_fits_on_walk, lemma_placed_distinct, placed, valid,
};

verus! {

/// Whether every piece of `genome` has a name and lies inside the box.
pub open spec fn packable(genome: Seq<Piece>) -> bool {
    forall|i: int|
        0 <= i < genome.len() ==> (#[trigger] genome[i]).name_index < PIECES && fits_box(
            genome[i].cells(),
        )
}

/// The box after the first `n` pieces of `genome` were put into an empty
/// box, in their order.
pub open spec fn filled_first(genome: Seq<Piece>, n: int) -> Grid
    decreases n,
{
    if n <= 0 {
        empty_grid()
    } else {
        deposit(
            filled_first(genome, n - 1),
            genome[n - 1].cells(),
            genome[n - 1].name_index as int,
        )
    }
}

/// The box after every piece of `genome` was put into an empty box.
pub open spec fn filled(genome: Seq<Piece>) -> Grid {
    filled_first(genome, genome.len() as int)
}

/// The box that the pieces of `genome` fill.
pub fn as_printbox(genome: &Vec<Piece>) -> (b: PrintBox)
    requires
        packable(genome@),
    ensures
        b@ == filled(genome@),
{
    let mut b = PrintBox::new();
    for i in 0..genome.len()
        invariant
            packable(genome@),
            b@ == filled_first(genome@, i as int),
    {
        genome[i].add_to_box(&mut b);
    }
    b
}

/// The score of a genome: the number of cells of its box that are in
/// conflict.
pub fn fitness_of(genome: &Vec<Piece>) -> (fitness: usize)
    requires
        packable(genome@),
    ensures
        fitness == conflict_cells(filled(genome@)).len(),
        fitness <= 125,
{
    let b = as_printbox(genome);
    b.occupied_positions()
}

pub fn highest_possible_fitness() -> (fitness: usize)
    ensures
        fitness == 125,
{
    125
}

pub fn lowest_possible_fitness() -> (fitness: usize)
    ensures
        fitness == 0,
{
    0
}

/// The piece after `value`: the same piece at the first combination after
/// its own at which it fits, laid out there; `None` if there is no such
/// combination.
pub fn mutated(value: &Piece) -> (next: Option<Piece>)
    requires
        value.wf(),
        value.z < isize::MAX,
    ensures
        match next {
            Some(p) => {
                &&& p.wf()
                &&& p.name_index == value.name_index
                &&& p.cells() == placed(p.combination())
                &&& exists|n: nat|
                    first_at(value.name_index as int, step(value.combination()), true, n)
                        && p.combination() == steps(step(value.combination()), n)
            },
            None => forall|n: nat|
                !valid(value.name_index as int, #[trigger] steps(step(value.combination()), n)),
        },
{
    let mut p = value.clone();
    if p.seek_next_config() {
        Some(p)
    } else {
        None
    }
}

/// One piece of each name, in the order of the names, each at the first
/// combination at which it fits and laid out there.
pub fn build_genome() -> (genome: Vec<Piece>)
    ensures
        genome.len() == PIECES,
        packable(genome@),
        forall|i: int|
            0 <= i < PIECES ==> {
                let p = #[trigger] genome[i];
                &&& p.wf()
                &&& p.name_index == i
                &&& p.cells() == placed(p.combination())
                &&& exists|n: nat|
                    first_at(i, zero(), true, n) && p.combination() == steps(zero(), n)
            },
{
    let mut genome: Vec<Piece> = Vec::new();
    for index in 0..PIECES
        invariant
            genome.len() == index,
            forall|i: int|
                0 <= i < index ==> {
                    let p = #[trigger] genome[i];
                    &&& p.wf()
                    &&& p.name_index == i
                    &&& p.cells() == placed(p.combination())
                    &&& valid(i, p.combination())
                    &&& exists|n: nat|
                        first_at(i, zero(), true, n) && p.combination() == steps(zero(), n)
                },
    {
        let mut p = Piece::new(index);
        let found = p.seek_config();
        proof {
            lemma_fits_on_walk(index as int);
        }
        assert(found);
        proof {
            let n = choose|n: nat|
                first_at(index as int, zero(), true, n) && p.combination() == steps(zero(), n);
            assert(valid(index as int, p.combination()));
        }
        let ghost before = genome@;
        genome.push(p);
        assert forall|i: int| 0 <= i < index + 1 implies {
            let q = #[trigger] genome[i];
            &&& q.wf()
            &&& q.name_index == i
            &&& q.cells() == placed(q.combination())
            &&& valid(i, q.combination())
            &&& exists|n: nat| first_at(i, zero(), true, n) && q.combination() == steps(zero(), n)
        } by {
            if i < index {
                assert(genome[i] == before[i]);
            }
        }
    }
    genome
}

/// Two pieces, each laid out where it fits: the cells in conflict are the
/// cells that both pieces cover. So the score of the two is at least 1
/// where they share a cell, and 0 where they share none.
pub proof fn lemma_fitness_of_two(p: Piece, q: Piece)
    requires
        p.name_index < PIECES,
        q.name_index < PIECES,
        valid(p.name_index as int, p.combination()),
        valid(q.name_index as int, q.combination()),
        p.cells() == placed(p.combination()),
        q.cells() == placed(q.combination()),
    ensures
        packable(seq![p, q]),
        ({
            let conflicts = conflict_cells(filled(seq![p, q]));
            let shared = Set::new(|c: Cell| p.cells().contains(c) && q.cells().contains(c));
            &&& conflicts == shared
            &&& conflicts.finite()
            &&& !shared.is_empty() ==> conflicts.len() >= 1
            &&& shared.is_empty() ==> conflicts.len() == 0
        }),
{
    let genome = seq![p, q];
    lemma_placed_distinct(p.combination());
    lemma_placed_distinct(q.combination());
    lemma_deposit_two(p.cells(), p.name_index as int, q.cells(), q.name_index as int);
    assert(filled_first(genome, 0) == empty_grid());
    assert(filled_first(genome, 1) == deposit(empty_grid(), p.cells(), p.name_index as int));
    assert(filled(genome) == deposit(filled_first(genome, 1), q.cells(), q.name_index as int));
}

} // verus!
