//! A piece: five cells in one of 24 orientations, moved to an offset
//! inside the box.
//!
//! Each piece has a name from 0 to 24. All pieces have the same shape; the
//! name says which cell of the box the piece has to cover, if any. A piece
//! keeps the cells it covers as they were last laid out, so that they
//! follow a change of its combination only when they are laid out anew.

use vstd::prelude::*;
use crate::combination::{Combination, first_outside, in_range, index_of, lemma_index_nth, lemma_walk, pack, step, steps, unpack, zero, lemma_pack_sum, lemma_steps_add, lemma_steps_z};
use crate::cube::{HEIGHT, LENGTH, WIDTH, AddToBox, Cell, PrintBox, deposit, deposit_first, in_box};

verus! {

pub const ROTATIONS: usize = 24;

pub const SHAPE_POINT: usize = 5;

pub const DIMENSIONS: usize = 3;

pub const PIECES: usize = 25;

/// The five cells of the piece in each of its orientations, relative to
/// its first cell. The orientations stand in three groups of eight, one
/// for each plane the piece can lie in. The first entry is the pattern
/// that a fresh piece has; it has changed places with the first of the
/// y - z patterns.
pub const ROT_MAP: [[[isize; DIMENSIONS]; SHAPE_POINT]; ROTATIONS] = [
    // y - z plane; the first entry is the pattern of a fresh piece, which
    // lies in the x - y plane
    [[0, 0, 0], [1, 0, 0], [2, 0, 0], [2, 1, 0], [3, 1, 0]],
    [[0, 0, 0], [0, 0, 1], [0, 1, 1], [0, 1, 2], [0, 1, 3]],
    [[0, 0, 0], [0, 0, 1], [0, 0, 2], [0, -1, 2], [0, -1, 3]],
    [[0, 0, 0], [0, 0, 1], [0, -1, 1], [0, -1, 2], [0, -1, 3]],
    [[0, 0, 0], [0, 1, 0], [0, 2, 0], [0, 2, 1], [0, 3, 1]],
    [[0, 0, 0], [0, 1, 0], [0, 1, 1], [0, 2, 1], [0, 3, 1]],
    [[0, 0, 0], [0, 1, 0], [0, 2, 0], [0, 2, -1], [0, 3, -1]],
    [[0, 0, 0], [0, 1, 0], [0, 1, -1], [0, 2, -1], [0, 3, -1]],
    // x - z plane
    [[0, 0, 0], [0, 0, 1], [0, 0, 2], [1, 0, 2], [1, 0, 3]],
    [[0, 0, 0], [0, 0, 1], [1, 0, 1], [1, 0, 2], [1, 0, 3]],
    [[0, 0, 0], [0, 0, 1], [0, 0, 2], [-1, 0, 2], [-1, 0, 3]],
    [[0, 0, 0], [0, 0, 1], [-1, 0, 1], [-1, 0, 2], [-1, 0, 3]],
    [[0, 0, 0], [1, 0, 0], [2, 0, 0], [2, 0, 1], [3, 0, 1]],
    [[0, 0, 0], [1, 0, 0], [1, 0, 1], [2, 0, 1], [3, 0, 1]],
    [[0, 0, 0], [1, 0, 0], [2, 0, 0], [2, 0, -1], [3, 0, -1]],
    [[0, 0, 0], [1, 0, 0], [1, 0, -1], [2, 0, -1], [3, 0, -1]],
    // x - y plane, but for its fifth entry
    [[0, 0, 0], [0, 1, 0], [0, 2, 0], [1, 2, 0], [1, 3, 0]],
    [[0, 0, 0], [0, 1, 0], [1, 1, 0], [1, 2, 0], [1, 3, 0]],
    [[0, 0, 0], [0, 1, 0], [0, 2, 0], [-1, 2, 0], [-1, 3, 0]],
    [[0, 0, 0], [0, 1, 0], [-1, 1, 0], [-1, 2, 0], [-1, 3, 0]],
    // the y - z pattern whose place the first entry of the table has taken
    [[0, 0, 0], [0, 0, 1], [0, 0, 2], [0, 1, 2], [0, 1, 3]],
    [[0, 0, 0], [1, 0, 0], [1, 1, 0], [2, 1, 0], [3, 1, 0]],
    [[0, 0, 0], [1, 0, 0], [2, 0, 0], [2, -1, 0], [3, -1, 0]],
    [[0, 0, 0], [1, 0, 0], [1, -1, 0], [2, -1, 0], [3, -1, 0]],
];

/// The cell that each piece has to cover, by the piece's name. The last
/// three pieces are free; their entry is outside the box.
pub const FIXED_MAP: [[isize; DIMENSIONS]; PIECES] = [
    // corners are 'a' to 'h'
    [0, 0, 0],
    [0, 4, 0],
    [0, 0, 4],
    [0, 4, 4],
    [4, 0, 0],
    [4, 4, 0],
    [4, 0, 4],
    [4, 4, 4],
    // inner corners are 'i' to 'p'
    [1, 1, 1],
    [1, 3, 1],
    [1, 1, 3],
    [1, 3, 3],
    [3, 1, 1],
    [3, 3, 1],
    [3, 1, 3],
    [3, 3, 3],
    // midpoints of sides are 'q' to 'v'
    [0, 2, 2],
    [2, 0, 2],
    [2, 2, 0],
    [4, 2, 2],
    [2, 4, 2],
    [2, 2, 4],
    // free pieces are 'w' to 'y'
    [-1, -1, -1],
    [-1, -1, -1],
    [-1, -1, -1],
];

/// Cell `i` of the piece in orientation `rotation`, relative to its first
/// cell.
pub open spec fn shape_cell(rotation: int, i: int) -> Cell {
    (
        ROT_MAP[rotation][i][0] as int,
        ROT_MAP[rotation][i][1] as int,
        ROT_MAP[rotation][i][2] as int,
    )
}

/// The five cells that a piece at combination `c` covers.
pub open spec fn placed(c: Combination) -> Seq<Cell> {
    Seq::new(
        SHAPE_POINT as nat,
        |i: int|
            (
                shape_cell(c.rotation, i).0 + c.x,
                shape_cell(c.rotation, i).1 + c.y,
                shape_cell(c.rotation, i).2 + c.z,
            ),
    )
}

/// The cells of a piece at rotation 0 and offset 0.
pub open spec fn base_cells() -> Seq<Cell> {
    seq![(0, 0, 0), (1, 0, 0), (2, 0, 0), (2, 1, 0), (3, 1, 0)]
}

/// Whether every cell of `cells` lies inside the box.
pub open spec fn fits_box(cells: Seq<Cell>) -> bool {
    forall|i: int| 0 <= i < cells.len() ==> in_box(#[trigger] cells[i])
}

/// Whether the piece named `name` may lie anywhere.
pub open spec fn is_free(name: int) -> bool {
    name > 21
}

/// The cell that the piece named `name` has to cover, for a piece that is
/// not free.
pub open spec fn anchor(name: int) -> Cell {
    (FIXED_MAP[name][0] as int, FIXED_MAP[name][1] as int, FIXED_MAP[name][2] as int)
}

/// Whether `cells` are a place for the piece named `name`: the piece is
/// free, or one of the cells is its anchor.
pub open spec fn fits_anchor(name: int, cells: Seq<Cell>) -> bool {
    is_free(name) || exists|i: int| 0 <= i < cells.len() && #[trigger] cells[i] == anchor(name)
}

/// Whether the piece named `name` can lie at combination `c`: the rotation
/// exists, the cells are inside the box, and the anchor is covered.
pub open spec fn valid(name: int, c: Combination) -> bool {
    &&& 0 <= c.rotation < ROTATIONS
    &&& fits_box(placed(c))
    &&& fits_anchor(name, placed(c))
}

/// Whether `n` is the least number of steps from `c` after which the piece
/// named `name` fits (for `fits`), or no longer fits (for `!fits`).
pub open spec fn first_at(name: int, c: Combination, fits: bool, n: nat) -> bool {
    &&& valid(name, steps(c, n)) == fits
    &&& forall|m: nat| m < n ==> valid(name, #[trigger] steps(c, m)) != fits
}

/// Whether the piece named `name` fits at `c` or at a combination after
/// it.
pub open spec fn fits_from(name: int, c: Combination) -> bool {
    exists|n: nat| valid(name, steps(c, n))
}

/// A bound on the steps that are left before the offset leaves the box,
/// for offsets and rotations that an index can hold.
spec fn steps_left(c: Combination) -> int {
    if c.z >= HEIGHT {
        0
    } else {
        7680 - (1536 * c.z + 192 * c.y + 24 * c.x + c.rotation)
    }
}

#[derive(Debug)]
pub struct Piece {
    /// The name of the piece, 0 to 24.
    pub name_index: usize,
    pub x: isize,
    pub y: isize,
    pub z: isize,
    pub rotation: usize,
    /// The cells that the piece covers, as last laid out.
    pub piece: [[isize; DIMENSIONS]; SHAPE_POINT],
}

impl Clone for Piece {
    fn clone(&self) -> (p: Piece)
        ensures
            p == *self,
    {
        Piece {
            name_index: self.name_index,
            x: self.x,
            y: self.y,
            z: self.z,
            rotation: self.rotation,
            piece: self.piece,
        }
    }
}

impl Piece {
    /// The combination the piece is at.
    pub open spec fn combination(&self) -> Combination {
        Combination {
            x: self.x as int,
            y: self.y as int,
            z: self.z as int,
            rotation: self.rotation as int,
        }
    }

    /// The cells that the piece covers, as last laid out.
    pub open spec fn cells(&self) -> Seq<Cell> {
        Seq::new(
            SHAPE_POINT as nat,
            |i: int| (self.piece[i][0] as int, self.piece[i][1] as int, self.piece[i][2] as int),
        )
    }

    /// The name is one of the 25, and the offset and the rotation are
    /// what an index can hold or what stepping on from there gives.
    pub open spec fn wf(&self) -> bool {
        &&& self.name_index < PIECES
        &&& 0 <= self.x <= 7
        &&& 0 <= self.y <= 7
        &&& 0 <= self.z
        &&& self.rotation <= 31
    }

    /// The piece `name` at rotation 0 and offset 0.
    pub fn new(name: usize) -> (p: Piece)
        requires
            name <= 24,
        ensures
            p.name_index == name,
            p.combination() == zero(),
            p.cells() == placed(p.combination()),
            p.cells() == base_cells(),
            fits_box(p.cells()),
            p.wf(),
    {
        let p = Piece {
            name_index: name,
            x: 0,
            y: 0,
            z: 0,
            rotation: 0,
            piece: [[0, 0, 0], [1, 0, 0], [2, 0, 0], [2, 1, 0], [3, 1, 0]],
        };
        assert(p.cells() =~= base_cells());
        assert(p.cells() =~= placed(zero()));
        p
    }

    /// The index of the combination the piece is at.
    pub fn get_combination(self: &Piece) -> (combination: u16)
        ensures
            combination == pack(self.x as u16, self.y as u16, self.z as u16, self.rotation as u16),
            self.wf() && self.z <= 7 ==> combination == self.x + 8 * self.y + 64 * self.z + 512
                * self.rotation,
    {
        let r: u16 = #[verifier::truncate] (self.rotation as u16);
        let z: u16 = #[verifier::truncate] (self.z as u16);
        let y: u16 = #[verifier::truncate] (self.y as u16);
        let x: u16 = #[verifier::truncate] (self.x as u16);
        let combination: u16 = r << 3;
        let combination: u16 = (combination | z) << 3;
        let combination: u16 = (combination | y) << 3;
        proof {
            assert((((((r << 3) | z) << 3) | y) << 3) | x == pack(x, y, z, r)) by (bit_vector);
            if self.wf() && self.z <= 7 {
                lemma_pack_sum(x, y, z, r);
            }
        }
        combination | x
    }

    /// Moves the piece to the combination that `combination` stands for,
    /// or to rotation 0 and offset 0. The cells stay as they were laid out.
    pub fn set_combination(self: &mut Piece, combination: Option<u16>)
        ensures
            final(self).combination() == match combination {
                None => zero(),
                Some(c) => unpack(c),
            },
            final(self).name_index == old(self).name_index,
            final(self).piece == old(self).piece,
            old(self).name_index < PIECES ==> final(self).wf(),
    {
        match combination {
            None => {
                self.x = 0;
                self.y = 0;
                self.z = 0;
                self.rotation = 0;
            },
            Some(combination) => {
                proof {
                    let c = combination;
                    assert(c & 0x7 <= 7 && (c >> 3) & 0x7 <= 7 && (c >> 6) & 0x7 <= 7 && (c >> 9)
                        & 0x1f <= 31) by (bit_vector);
                    assert((c >> 3) >> 3 == c >> 6 && ((c >> 3) >> 3) >> 3 == c >> 9)
                        by (bit_vector);
                }
                self.x = (combination & 0x7) as isize;
                let combination: u16 = combination >> 3;
                self.y = (combination & 0x7) as isize;
                let combination: u16 = combination >> 3;
                self.z = (combination & 0x7) as isize;
                self.rotation = ((combination >> 3) & 0x1f) as usize;
            },
        }
    }

    /// Moves the piece to the next combination and says whether the offset
    /// is still inside the box, that is, whether the walk has not ended.
    /// The cells stay as they were laid out.
    pub fn next_config(self: &mut Piece) -> (more: bool)
        requires
            old(self).wf(),
            old(self).z < isize::MAX,
        ensures
            final(self).combination() == step(old(self).combination()),
            final(self).name_index == old(self).name_index,
            final(self).piece == old(self).piece,
            final(self).wf(),
            more == (final(self).z < HEIGHT),
    {
        self.rotation = self.rotation + 1;
        if self.rotation >= ROTATIONS {
            self.rotation = 0;
            self.x = self.x + 1;
        }
        if self.x >= LENGTH as isize {
            self.x = 0;
            self.y = self.y + 1;
        }
        if self.y >= WIDTH as isize {
            self.y = 0;
            self.z = self.z + 1;
        }
        self.z < HEIGHT as isize
    }

    /// Whether the cells, as last laid out, are all inside the box.
    pub fn fit_in_box(self: &Piece) -> (fits: bool)
        ensures
            fits == fits_box(self.cells()),
    {
        for i in 0..SHAPE_POINT
            invariant
                forall|j: int| 0 <= j < i ==> in_box(#[trigger] self.cells()[j]),
        {
            if self.piece[i][0] < 0 || self.piece[i][0] >= LENGTH as isize {
                assert(!in_box(self.cells()[i as int]));
                return false;
            }
            if self.piece[i][1] < 0 || self.piece[i][1] >= WIDTH as isize {
                assert(!in_box(self.cells()[i as int]));
                return false;
            }
            if self.piece[i][2] < 0 || self.piece[i][2] >= HEIGHT as isize {
                assert(!in_box(self.cells()[i as int]));
                return false;
            }
        }
        true
    }

    /// Whether the cells, as last laid out, cover the cell that the piece
    /// is bound to by its name. A free piece fits everywhere.
    pub fn fit_to_position(self: &Piece) -> (fits: bool)
        ensures
            fits == fits_anchor(self.name_index as int, self.cells()),
    {
        if self.name_index > 21 {
            return true;
        }
        for i in 0..SHAPE_POINT
            invariant
                self.name_index <= 21,
                forall|j: int| 0 <= j < i ==> #[trigger] self.cells()[j] != anchor(self.name_index as int),
        {
            let fit: bool = self.piece[i][0] == FIXED_MAP[self.name_index][0];
            let fit: bool = fit && self.piece[i][1] == FIXED_MAP[self.name_index][1];
            let fit: bool = fit && self.piece[i][2] == FIXED_MAP[self.name_index][2];
            if fit {
                assert(self.cells()[i as int] == anchor(self.name_index as int));
                return true;
            }
        }
        false
    }

    /// Lays the cells out anew for the combination the piece is at.
    pub fn set_piece(self: &mut Piece) -> (p: &mut Piece)
        requires
            old(self).wf(),
            old(self).rotation < ROTATIONS,
            old(self).z <= isize::MAX - 3,
        ensures
            p.cells() == placed(old(self).combination()),
            p.combination() == old(self).combination(),
            p.name_index == old(self).name_index,
            *final(self) == *final(p),
    {
        for i in 0..SHAPE_POINT
            invariant
                self.combination() == old(self).combination(),
                self.name_index == old(self).name_index,
                self.wf(),
                self.rotation < ROTATIONS,
                self.z <= isize::MAX - 3,
                forall|j: int| 0 <= j < i ==> #[trigger] self.cells()[j] == placed(self.combination())[j],
        {
            let ghost before = *self;
            self.piece[i][0] = ROT_MAP[self.rotation][i][0] + self.x;
            self.piece[i][1] = ROT_MAP[self.rotation][i][1] + self.y;
            self.piece[i][2] = ROT_MAP[self.rotation][i][2] + self.z;
            proof {
                assert forall|j: int| 0 <= j < i + 1 implies #[trigger] self.cells()[j] == placed(
                    self.combination(),
                )[j] by {
                    if j < i {
                        assert(self.piece[j] == before.piece[j]);
                        assert(before.cells()[j] == placed(before.combination())[j]);
                    }
                }
            }
        }
        assert(self.cells() =~= placed(self.combination()));
        self
    }

    /// Puts the cells, as last laid out, into the box under the piece's
    /// name.
    pub fn add_to_box(self: &Piece, b: &mut PrintBox)
        requires
            self.name_index < PIECES,
            fits_box(self.cells()),
        ensures
            final(b)@ == deposit(old(b)@, self.cells(), self.name_index as int),
    {
        for i in 0..SHAPE_POINT
            invariant
                self.name_index < PIECES,
                fits_box(self.cells()),
                b@ == deposit_first(old(b)@, self.cells(), self.name_index as int, i as int),
        {
            assert(in_box(self.cells()[i as int]));
            b.add(
                self.piece[i][0] as usize,
                self.piece[i][1] as usize,
                self.piece[i][2] as usize,
                self.name_index,
            );
        }
    }

    /// Lays the cells out anew and says whether the piece can lie at the
    /// combination it is at.
    pub fn is_config(self: &mut Piece) -> (fits: bool)
        requires
            old(self).wf(),
            old(self).rotation < ROTATIONS,
            old(self).z <= isize::MAX - 3,
        ensures
            fits == valid(old(self).name_index as int, old(self).combination()),
            final(self).cells() == placed(old(self).combination()),
            final(self).combination() == old(self).combination(),
            final(self).name_index == old(self).name_index,
    {
        self.set_piece();
        self.fit_in_box() && self.fit_to_position()
    }

    pub fn get_name(self: &Piece) -> (name: usize)
        ensures
            name == self.name_index,
    {
        self.name_index
    }

    /// Moves the piece to `combination` and from there on to the first
    /// combination at which it fits, and lays its cells out there. Where
    /// the piece fits at `combination` itself, it stays there. Where it fits
    /// nowhere from there on, the offset has left the box.
    pub fn set_next_valid(self: &mut Piece, combination: u16)
        requires
            old(self).name_index < PIECES,
            unpack(combination).rotation < ROTATIONS,
        ensures
            final(self).name_index == old(self).name_index,
            final(self).wf(),
            final(self).rotation < ROTATIONS,
            fits_from(old(self).name_index as int, unpack(combination)) ==> final(self).cells()
                == placed(final(self).combination()) && exists|n: nat|
                first_at(old(self).name_index as int, unpack(combination), true, n)
                    && final(self).combination() == steps(unpack(combination), n),
            !fits_from(old(self).name_index as int, unpack(combination)) ==> exists|n: nat|
                first_outside(unpack(combination), n) && final(self).combination() == steps(
                    unpack(combination),
                    n,
                ) && final(self).cells() == placed(steps(unpack(combination), (n - 1) as nat)),
    {
        self.set_combination(Some(combination));
        assert((combination >> 6) & 0x7 <= 7) by (bit_vector);
        let _ = self.seek_config();
    }

    /// Moves the piece on, from the combination it is at, to the first
    /// combination at which it fits, and lays its cells out there. Says
    /// whether there is one; if not, the offset has left the box.
    pub fn seek_config(self: &mut Piece) -> (found: bool)
        requires
            old(self).wf(),
            old(self).rotation < ROTATIONS,
            old(self).z <= isize::MAX - 3,
        ensures
            final(self).name_index == old(self).name_index,
            final(self).wf(),
            final(self).rotation < ROTATIONS,
            found <==> fits_from(old(self).name_index as int, old(self).combination()),
            found ==> final(self).cells() == placed(final(self).combination()) && exists|n: nat|
                first_at(old(self).name_index as int, old(self).combination(), true, n)
                    && final(self).combination() == steps(old(self).combination(), n),
            !found ==> exists|n: nat|
                first_outside(old(self).combination(), n) && final(self).combination() == steps(
                    old(self).combination(),
                    n,
                ) && final(self).cells() == placed(steps(old(self).combination(), (n - 1) as nat)),
    {
        let ghost start = self.combination();
        let ghost name = self.name_index as int;
        let ghost mut n: nat = 0;
        while !self.is_config()
            invariant
                self.wf(),
                self.rotation < ROTATIONS,
                self.z <= isize::MAX - 3,
                self.name_index == name,
                start == old(self).combination(),
                name == old(self).name_index,
                self.combination() == steps(start, n),
                forall|m: nat| m < n ==> !valid(name, #[trigger] steps(start, m)),
                forall|m: nat| 1 <= m <= n ==> (#[trigger] steps(start, m)).z < HEIGHT,
            decreases steps_left(self.combination()),
        {
            let more = self.next_config();
            proof {
                n = n + 1;
            }
            if !more {
                proof {
                    assert(first_outside(start, n));
                    assert forall|k: nat| !valid(name, #[trigger] steps(start, k)) by {
                        if k >= n {
                            lemma_steps_add(start, n, (k - n) as nat);
                            lemma_steps_z(steps(start, n), (k - n) as nat);
                            lemma_outside_not_valid(name, steps(start, k));
                        }
                    }
                }
                return false;
            }
        }
        assert(first_at(name, start, true, n));
        true
    }

    /// Moves the piece to the first combination after the one it is at, at
    /// which it fits, and lays its cells out there. Says whether there is
    /// one; if not, the offset has left the box.
    pub fn seek_next_config(self: &mut Piece) -> (found: bool)
        requires
            old(self).wf(),
            old(self).z < isize::MAX,
        ensures
            final(self).name_index == old(self).name_index,
            final(self).wf(),
            final(self).rotation < ROTATIONS,
            found <==> fits_from(old(self).name_index as int, step(old(self).combination())),
            found ==> final(self).cells() == placed(final(self).combination()) && exists|n: nat|
                first_at(old(self).name_index as int, step(old(self).combination()), true, n)
                    && final(self).combination() == steps(step(old(self).combination()), n),
            !found ==> exists|n: nat|
                first_outside(old(self).combination(), n) && final(self).combination() == steps(
                    old(self).combination(),
                    n,
                ) && final(self).cells() == if n == 1 {
                    old(self).cells()
                } else {
                    placed(steps(old(self).combination(), (n - 1) as nat))
                },
    {
        let ghost start = self.combination();
        if !self.next_config() {
            proof {
                let name = self.name_index as int;
                let next = self.combination();
                assert(steps(start, 1) == step(steps(start, 0)));
                assert(first_outside(start, 1));
                assert forall|k: nat| !valid(name, #[trigger] steps(next, k)) by {
                    lemma_steps_z(next, k);
                    lemma_outside_not_valid(name, steps(next, k));
                }
            }
            return false;
        }
        let found = self.seek_config();
        proof {
            if !found {
                let n = choose|n: nat|
                    first_outside(step(start), n) && self.combination() == steps(step(start), n)
                        && self.cells() == placed(steps(step(start), (n - 1) as nat));
                assert(steps(start, 1) == step(steps(start, 0)));
                lemma_steps_add(start, 1, n);
                lemma_steps_add(start, 1, (n - 1) as nat);
                assert forall|m: nat| 1 <= m < n + 1 implies (#[trigger] steps(start, m)).z
                    < HEIGHT by {
                    lemma_steps_add(start, 1, (m - 1) as nat);
                }
                assert(first_outside(start, n + 1));
            }
        }
        found
    }
}

/// A piece fits only where its offset is inside the box and its rotation
/// is one of the 24.
pub proof fn lemma_valid_in_range(name: int, c: Combination)
    requires
        valid(name, c),
    ensures
        0 <= c.x < LENGTH,
        0 <= c.y < WIDTH,
        0 <= c.z < HEIGHT,
        0 <= c.rotation < ROTATIONS,
{
    assert(placed(c)[0] == (c.x, c.y, c.z));
    assert(in_box(placed(c)[0]));
}

/// A piece whose offset has left the box does not fit.
pub proof fn lemma_outside_not_valid(name: int, c: Combination)
    requires
        c.z >= HEIGHT,
    ensures
        !valid(name, c),
{
    if valid(name, c) {
        lemma_valid_in_range(name, c);
    }
}

/// A piece that is bound to a cell fits where its cells cover that cell,
/// and nowhere else. The first piece is bound to the corner `(0, 0, 0)`.
pub proof fn lemma_bound_piece(name: int, cells: Seq<Cell>)
    requires
        0 <= name <= 21,
    ensures
        fits_anchor(name, cells) <==> cells.contains(anchor(name)),
        anchor(0) == (0int, 0int, 0int),
{
}

/// The three free pieces fit whatever their cells are.
pub proof fn lemma_free_piece(name: int, cells: Seq<Cell>)
    requires
        22 <= name <= 24,
    ensures
        fits_anchor(name, cells),
{
}

/// The five cells of a piece in any of its orientations are five
/// different cells, first among them the one the offset names.
pub proof fn lemma_shape_distinct(rotation: int)
    requires
        0 <= rotation < ROTATIONS,
    ensures
        shape_cell(rotation, 0) == (0int, 0int, 0int),
        forall|i: int, j: int|
            0 <= i < j < SHAPE_POINT ==> shape_cell(rotation, i) != shape_cell(rotation, j),
{
}

/// A piece laid out at a combination covers five different cells.
pub proof fn lemma_placed_distinct(c: Combination)
    requires
        0 <= c.rotation < ROTATIONS,
    ensures
        placed(c).len() == SHAPE_POINT,
        placed(c).no_duplicates(),
{
    lemma_shape_distinct(c.rotation);
}

/// The cells at rotation 0 and offset 0 are the cells that a piece laid
/// out there covers, five different ones.
pub proof fn lemma_base_distinct()
    ensures
        base_cells() == placed(zero()),
        base_cells().len() == SHAPE_POINT,
        base_cells().no_duplicates(),
{
    assert(base_cells() =~= placed(zero()));
    lemma_placed_distinct(zero());
}

/// Every piece fits somewhere inside the box.
pub proof fn lemma_fits_somewhere(name: int)
    requires
        0 <= name < PIECES,
    ensures
        exists|c: Combination| in_range(c) && valid(name, c),
{
    if name == 0 {
        let c = Combination { x: 0, y: 0, z: 0, rotation: 0 };
        assert(placed(c)[0] == anchor(0));
        assert(in_range(c) && valid(name, c));
    } else if name == 1 {
        let c = Combination { x: 1, y: 1, z: 0, rotation: 18 };
        assert(placed(c)[4] == anchor(1));
        assert(in_range(c) && valid(name, c));
    } else if name == 2 {
        let c = Combination { x: 1, y: 0, z: 1, rotation: 10 };
        assert(placed(c)[4] == anchor(2));
        assert(in_range(c) && valid(name, c));
    } else if name == 3 {
        let c = Combination { x: 0, y: 3, z: 1, rotation: 1 };
        assert(placed(c)[4] == anchor(3));
        assert(in_range(c) && valid(name, c));
    } else if name == 4 {
        let c = Combination { x: 4, y: 0, z: 0, rotation: 1 };
        assert(placed(c)[0] == anchor(4));
        assert(in_range(c) && valid(name, c));
    } else if name == 5 {
        let c = Combination { x: 3, y: 1, z: 0, rotation: 16 };
        assert(placed(c)[4] == anchor(5));
        assert(in_range(c) && valid(name, c));
    } else if name == 6 {
        let c = Combination { x: 3, y: 0, z: 1, rotation: 8 };
        assert(placed(c)[4] == anchor(6));
        assert(in_range(c) && valid(name, c));
    } else if name == 7 {
        let c = Combination { x: 4, y: 3, z: 1, rotation: 1 };
        assert(placed(c)[4] == anchor(7));
        assert(in_range(c) && valid(name, c));
    } else if name == 8 {
        let c = Combination { x: 1, y: 0, z: 0, rotation: 1 };
        assert(placed(c)[2] == anchor(8));
        assert(in_range(c) && valid(name, c));
    } else if name == 9 {
        let c = Combination { x: 1, y: 0, z: 0, rotation: 4 };
        assert(placed(c)[4] == anchor(9));
        assert(in_range(c) && valid(name, c));
    } else if name == 10 {
        let c = Combination { x: 1, y: 0, z: 0, rotation: 1 };
        assert(placed(c)[4] == anchor(10));
        assert(in_range(c) && valid(name, c));
    } else if name == 11 {
        let c = Combination { x: 1, y: 2, z: 0, rotation: 1 };
        assert(placed(c)[4] == anchor(11));
        assert(in_range(c) && valid(name, c));
    } else if name == 12 {
        let c = Combination { x: 3, y: 0, z: 0, rotation: 1 };
        assert(placed(c)[2] == anchor(12));
        assert(in_range(c) && valid(name, c));
    } else if name == 13 {
        let c = Combination { x: 3, y: 0, z: 0, rotation: 4 };
        assert(placed(c)[4] == anchor(13));
        assert(in_range(c) && valid(name, c));
    } else if name == 14 {
        let c = Combination { x: 3, y: 0, z: 0, rotation: 1 };
        assert(placed(c)[4] == anchor(14));
        assert(in_range(c) && valid(name, c));
    } else if name == 15 {
        let c = Combination { x: 3, y: 2, z: 0, rotation: 1 };
        assert(placed(c)[4] == anchor(15));
        assert(in_range(c) && valid(name, c));
    } else if name == 16 {
        let c = Combination { x: 0, y: 1, z: 0, rotation: 1 };
        assert(placed(c)[3] == anchor(16));
        assert(in_range(c) && valid(name, c));
    } else if name == 17 {
        let c = Combination { x: 1, y: 0, z: 0, rotation: 8 };
        assert(placed(c)[3] == anchor(17));
        assert(in_range(c) && valid(name, c));
    } else if name == 18 {
        let c = Combination { x: 1, y: 0, z: 0, rotation: 16 };
        assert(placed(c)[3] == anchor(18));
        assert(in_range(c) && valid(name, c));
    } else if name == 19 {
        let c = Combination { x: 4, y: 1, z: 0, rotation: 1 };
        assert(placed(c)[3] == anchor(19));
        assert(in_range(c) && valid(name, c));
    } else if name == 20 {
        let c = Combination { x: 2, y: 3, z: 0, rotation: 1 };
        assert(placed(c)[3] == anchor(20));
        assert(in_range(c) && valid(name, c));
    } else if name == 21 {
        let c = Combination { x: 2, y: 1, z: 1, rotation: 1 };
        assert(placed(c)[4] == anchor(21));
        assert(in_range(c) && valid(name, c));
    } else {
        let c = zero();
        assert(in_range(c) && valid(name, c));
    }
}

/// The walk from rotation 0 and offset 0 passes a combination at which the
/// piece fits.
pub proof fn lemma_fits_on_walk(name: int)
    requires
        0 <= name < PIECES,
    ensures
        exists|n: nat| n < 3000 && valid(name, steps(zero(), n)),
{
    lemma_fits_somewhere(name);
    let c = choose|c: Combination| in_range(c) && valid(name, c);
    lemma_index_nth(c);
    lemma_walk(index_of(c) as nat);
    assert(valid(name, steps(zero(), index_of(c) as nat)));
}

/// There is one least number of steps after which a piece fits, if any,
/// so that what the piece is moved to is one combination.
pub proof fn lemma_first_at_unique(name: int, c: Combination, fits: bool, n: nat, m: nat)
    requires
        first_at(name, c, fits, n),
        first_at(name, c, fits, m),
    ensures
        n == m,
{
}

} // verus!
