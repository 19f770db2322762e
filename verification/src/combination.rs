//! Combinations: an orientation and an offset, their 16-bit index, and the
//! walk through them.
//!
//! The index holds the fields of a combination side by side:
//!
//! ```text
//! +-------+-------+-------+-----------+-----+
//! | 0 1 2 | 3 4 5 | 6 7 8 | 9 A B C D | E F |
//! | x     | y     | z     | rotation  | 0 0 |
//! +-------+-------+-------+-----------+-----+
//! ```
//!
//! The two top bits are not used. Rotations run from 0 to 23 and the
//! offsets inside the box from 0 to 4, so that an index holds more
//! combinations than there are inside the box.
//! The walk goes through the 3000 combinations inside the box with the
//! rotation running fastest, then x, then y, then z.

use vstd::prelude::*;
use crate::cube::{HEIGHT, LENGTH, WIDTH};
use crate::piece::ROTATIONS;

verus! {

/// An orientation and an offset: what a combination index stands for.
pub struct Combination {
    pub x: int,
    pub y: int,
    pub z: int,
    pub rotation: int,
}

/// The combination a fresh piece is at.
pub open spec fn zero() -> Combination {
    Combination { x: 0, y: 0, z: 0, rotation: 0 }
}

/// Whether the offset of `c` is inside the box and its rotation is one of
/// the 24.
pub open spec fn in_range(c: Combination) -> bool {
    &&& 0 <= c.x < LENGTH
    &&& 0 <= c.y < WIDTH
    &&& 0 <= c.z < HEIGHT
    &&& 0 <= c.rotation < ROTATIONS
}

/// The index of a combination: x in bits 0 to 2, y in bits 3 to 5, z in
/// bits 6 to 8, the rotation in bits 9 to 13.
pub open spec fn pack(x: u16, y: u16, z: u16, rotation: u16) -> u16 {
    x | (y << 3) | (z << 6) | (rotation << 9)
}

/// The combination that an index stands for. Its two top bits play no
/// part.
pub open spec fn unpack(combination: u16) -> Combination {
    Combination {
        x: (combination & 0x7) as int,
        y: ((combination >> 3) & 0x7) as int,
        z: ((combination >> 6) & 0x7) as int,
        rotation: ((combination >> 9) & 0x1f) as int,
    }
}

/// The combination after `c`: the rotation runs fastest, then x, then y,
/// then z.
pub open spec fn step(c: Combination) -> Combination {
    let (rotation, x) = if c.rotation + 1 >= ROTATIONS {
        (0, c.x + 1)
    } else {
        (c.rotation + 1, c.x)
    };
    let (x, y) = if x >= LENGTH {
        (0, c.y + 1)
    } else {
        (x, c.y)
    };
    let (y, z) = if y >= WIDTH {
        (0, c.z + 1)
    } else {
        (y, c.z)
    };
    Combination { x, y, z, rotation }
}

/// The combination `n` steps after `c`.
pub open spec fn steps(c: Combination, n: nat) -> Combination
    decreases n,
{
    if n == 0 {
        c
    } else {
        step(steps(c, (n - 1) as nat))
    }
}

/// The index of `c` in the walk that starts at rotation 0 and offset 0.
pub open spec fn index_of(c: Combination) -> int {
    600 * c.z + 120 * c.y + 24 * c.x + c.rotation
}

/// The combination at place `n` of the walk: the rotation runs fastest,
/// then x, then y, then z.
pub open spec fn nth(n: int) -> Combination {
    Combination { rotation: n % 24, x: (n / 24) % 5, y: (n / 120) % 5, z: n / 600 }
}

/// Whether `n` is the least number of steps from `c`, at least one, after
/// which the offset has left the box.
pub open spec fn first_outside(c: Combination, n: nat) -> bool {
    &&& n >= 1
    &&& steps(c, n).z >= HEIGHT
    &&& forall|m: nat| 1 <= m < n ==> (#[trigger] steps(c, m)).z < HEIGHT
}

/// For fields that fit their bits, the index is the sum of the fields,
/// each at its place.
pub proof fn lemma_pack_sum(x: u16, y: u16, z: u16, rotation: u16)
    requires
        x <= 7,
        y <= 7,
        z <= 7,
        rotation <= 31,
    ensures
        pack(x, y, z, rotation) == x + 8 * y + 64 * z + 512 * rotation,
        pack(x, y, z, rotation) < 0x4000,
{
    assert(x <= 7 && y <= 7 && z <= 7 && rotation <= 31 ==> (x | (y << 3) | (z << 6) | (rotation
        << 9)) == x + 8 * y + 64 * z + 512 * rotation) by (bit_vector);
}

/// An index that was packed from a combination unpacks to it.
pub proof fn lemma_unpack_pack(x: u16, y: u16, z: u16, rotation: u16)
    requires
        x <= 7,
        y <= 7,
        z <= 7,
        rotation <= 31,
    ensures
        unpack(pack(x, y, z, rotation)) == (Combination {
            x: x as int,
            y: y as int,
            z: z as int,
            rotation: rotation as int,
        }),
{
    assert(x <= 7 && y <= 7 && z <= 7 && rotation <= 31 ==> {
        let c = x | (y << 3) | (z << 6) | (rotation << 9);
        c & 0x7 == x && (c >> 3) & 0x7 == y && (c >> 6) & 0x7 == z && (c >> 9) & 0x1f == rotation
    }) by (bit_vector);
}

/// A combination that was unpacked from an index packs to that index
/// without its two top bits: to the index itself, if it is below 2^14.
pub proof fn lemma_pack_unpack(combination: u16)
    ensures
        pack(
            unpack(combination).x as u16,
            unpack(combination).y as u16,
            unpack(combination).z as u16,
            unpack(combination).rotation as u16,
        ) == combination & 0x3fff,
        combination < 0x4000 ==> combination & 0x3fff == combination,
{
    let c = combination;
    assert((c & 0x7) | (((c >> 3) & 0x7) << 3) | (((c >> 6) & 0x7) << 6) | (((c >> 9) & 0x1f) << 9)
        == c & 0x3fff) by (bit_vector);
    assert(c < 0x4000 ==> c & 0x3fff == c) by (bit_vector);
}

/// `a` steps and then `b` steps are `a + b` steps.
pub proof fn lemma_steps_add(c: Combination, a: nat, b: nat)
    ensures
        steps(steps(c, a), b) == steps(c, a + b),
    decreases b,
{
    if b > 0 {
        lemma_steps_add(c, a, (b - 1) as nat);
    }
}

/// Stepping never lowers z.
pub proof fn lemma_steps_z(c: Combination, n: nat)
    ensures
        steps(c, n).z >= c.z,
    decreases n,
{
    if n > 0 {
        lemma_steps_z(c, (n - 1) as nat);
    }
}

/// `n` steps from rotation 0 and offset 0 lead to place `n` of the walk,
/// up to the first combination outside the box.
pub proof fn lemma_walk(n: nat)
    requires
        n <= 3000,
    ensures
        steps(zero(), n) == nth(n as int),
    decreases n,
{
    if n > 0 {
        lemma_walk((n - 1) as nat);
    }
}

/// Place `n` of the walk, for `n` below 3000, is inside the box and has
/// the index `n`.
pub proof fn lemma_nth_index(n: int)
    requires
        0 <= n < 3000,
    ensures
        in_range(nth(n)),
        index_of(nth(n)) == n,
{
    let q = n / 24;
    let p = n / 120;
    assert(n == 24 * q + n % 24);
    assert(n == 120 * p + n % 120);
    assert(q == 5 * p + q % 5);
    assert(p == 5 * (n / 600) + p % 5);
}

/// A combination inside the box stands at the place of its index.
pub proof fn lemma_index_nth(c: Combination)
    requires
        in_range(c),
    ensures
        0 <= index_of(c) < 3000,
        nth(index_of(c)) == c,
{
    let n = index_of(c);
    assert(n == 24 * (25 * c.z + 5 * c.y + c.x) + c.rotation);
    assert(n / 24 == 25 * c.z + 5 * c.y + c.x);
    assert(n == 120 * (5 * c.z + c.y) + (24 * c.x + c.rotation));
    assert(n / 120 == 5 * c.z + c.y);
    assert(n / 600 == c.z);
}

/// The walk from rotation 0 and offset 0 passes each combination inside
/// the box once, in the order of their indices, and leaves the box with
/// its step 3000.
pub proof fn lemma_enumeration()
    ensures
        forall|n: nat| n < 3000 ==> in_range(#[trigger] steps(zero(), n)),
        forall|n: nat| n < 3000 ==> index_of(#[trigger] steps(zero(), n)) == n,
        forall|c: Combination| #[trigger]
            in_range(c) ==> 0 <= index_of(c) < 3000 && steps(zero(), index_of(c) as nat) == c,
        forall|i: nat, j: nat|
            i < 3000 && j < 3000 && i != j ==> #[trigger] steps(zero(), i) != #[trigger] steps(
                zero(),
                j,
            ),
        steps(zero(), 3000).z == HEIGHT,
{
    assert forall|n: nat| n < 3000 implies in_range(#[trigger] steps(zero(), n)) && index_of(
        steps(zero(), n),
    ) == n by {
        lemma_walk(n);
        lemma_nth_index(n as int);
    }
    assert forall|c: Combination| #[trigger] in_range(c) implies 0 <= index_of(c) < 3000 && steps(
        zero(),
        index_of(c) as nat,
    ) == c by {
        lemma_index_nth(c);
        lemma_walk(index_of(c) as nat);
    }
    assert(steps(zero(), 3000).z == HEIGHT) by {
        lemma_walk(3000);
    }
}

} // verus!
