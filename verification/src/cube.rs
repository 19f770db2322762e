//! The 5×5×5 box and what occupies each of its cells.
//!
//! A box is modelled as a map from cell coordinates to cell values. A
//! negative value is an empty cell, a value from `0` to `24` names the
//! piece that occupies the cell, and a larger value marks a cell that more
//! than one piece has claimed.

use vstd::prelude::*;
use crate::{i2c, i2c_spec};

verus! {

pub const LENGTH: usize = 5;

pub const WIDTH: usize = 5;

pub const HEIGHT: usize = 5;

pub const MIN_VAL: isize = 0;

pub const MAX_VAL: isize = 24;

/// The coordinates `(x, y, z)` of a cell.
pub type Cell = (int, int, int);

/// What a box holds: the value of each of its cells.
pub type Grid = Map<Cell, int>;

/// Whether `c` lies inside the box.
pub open spec fn in_box(c: Cell) -> bool {
    &&& 0 <= c.0 < LENGTH
    &&& 0 <= c.1 < WIDTH
    &&& 0 <= c.2 < HEIGHT
}

/// The box in which every cell is empty.
pub open spec fn empty_grid() -> Grid {
    Map::new(|c: Cell| in_box(c), |c: Cell| -1int)
}

/// Whether the value `v` marks an empty cell.
pub open spec fn is_empty(v: int) -> bool {
    v < MIN_VAL
}

/// Whether the value `v` marks a cell that several pieces claimed.
pub open spec fn is_conflict(v: int) -> bool {
    v > MAX_VAL
}

/// The box after `val` was put at cell `c`: an empty cell takes the value,
/// any other cell becomes a conflict.
pub open spec fn add_spec(g: Grid, c: Cell, val: int) -> Grid {
    g.insert(
        c,
        if is_empty(g[c]) {
            val
        } else {
            MAX_VAL + 1
        },
    )
}

/// The box after the first `n` cells of `cells` were each given `val`, in
/// their order.
pub open spec fn deposit_first(g: Grid, cells: Seq<Cell>, val: int, n: int) -> Grid
    decreases n,
{
    if n <= 0 {
        g
    } else {
        add_spec(deposit_first(g, cells, val, n - 1), cells[n - 1], val)
    }
}

/// The box after every cell of `cells` was given `val`, in their order.
pub open spec fn deposit(g: Grid, cells: Seq<Cell>, val: int) -> Grid {
    deposit_first(g, cells, val, cells.len() as int)
}

/// The cells of the box that are in conflict.
pub open spec fn conflict_cells(g: Grid) -> Set<Cell> {
    Set::new(|c: Cell| g.dom().contains(c) && is_conflict(g[c]))
}

/// The position of a cell when the box is walked x first, then y, then z.
spec fn flat(c: Cell) -> int {
    25 * c.0 + 5 * c.1 + c.2
}

/// The conflict cells among the first `n` cells of the walk.
spec fn conflicts_before(g: Grid, n: int) -> Set<Cell> {
    Set::new(|c: Cell| in_box(c) && is_conflict(g[c]) && flat(c) < n)
}

/// The text of one row of the box: its five cells along z, then a line end.
pub open spec fn row_text(g: Grid, i: int, j: int) -> Seq<char> {
    Seq::new(HEIGHT as nat, |k: int| i2c_spec(g[(i, j, k)])).push('\n')
}

/// The text of the first `n` rows of section `i`.
pub open spec fn rows_text(g: Grid, i: int, n: int) -> Seq<char>
    decreases n,
{
    if n <= 0 {
        Seq::empty()
    } else {
        rows_text(g, i, n - 1) + row_text(g, i, n - 1)
    }
}

/// The text of section `i`: its five rows, closed by an empty line.
pub open spec fn section_text(g: Grid, i: int) -> Seq<char> {
    rows_text(g, i, WIDTH as int).push('\n')
}

/// The text of the first `n` sections.
pub open spec fn sections_text(g: Grid, n: int) -> Seq<char>
    decreases n,
{
    if n <= 0 {
        Seq::empty()
    } else {
        sections_text(g, n - 1) + section_text(g, n - 1)
    }
}

/// The printed form of a box: an empty line, the five sections (one per x,
/// each with one row per y), and a closing line end.
pub open spec fn render_spec(g: Grid) -> Seq<char> {
    seq!['\n'] + sections_text(g, LENGTH as int) + seq!['\n']
}

/// Something that values can be put into, cell by cell.
pub trait AddToBox {
    /// The cells and their values.
    spec fn grid(&self) -> Grid;

    /// Puts `val` at `(x, y, z)`; a cell that was not empty becomes a
    /// conflict, whatever it held.
    fn add(&mut self, x: usize, y: usize, z: usize, val: usize)
        requires
            old(self).grid().dom().contains((x as int, y as int, z as int)),
            val <= MAX_VAL,
        ensures
            final(self).grid() == add_spec(
                old(self).grid(),
                (x as int, y as int, z as int),
                val as int,
            ),
    ;
}

#[derive(Debug, PartialEq, Eq)]
pub struct PrintBox {
    pub value: [[[isize; LENGTH]; WIDTH]; HEIGHT],
}

impl View for PrintBox {
    type V = Grid;

    open spec fn view(&self) -> Grid {
        Map::new(|c: Cell| in_box(c), |c: Cell| self.value[c.0][c.1][c.2] as int)
    }
}

impl AddToBox for PrintBox {
    open spec fn grid(&self) -> Grid {
        self@
    }

    fn add(&mut self, x: usize, y: usize, z: usize, val: usize) {
        if self.value[x][y][z] < MIN_VAL {
            self.value[x][y][z] = val as isize;
        } else {
            self.value[x][y][z] = MAX_VAL + 1;
        }
        proof {
            let c = (x as int, y as int, z as int);
            assert(self@ =~= add_spec(old(self)@, c, val as int));
        }
    }
}

/// Appends one character to a string, by `String::push`: the string then
/// holds what it held, followed by `c`.
#[verifier::external_body]
fn push_char(s: &mut String, c: char)
    ensures
        final(s)@ == old(s)@.push(c),
{
    s.push(c);
}

impl PrintBox {
    /// A box with every cell empty.
    pub fn new() -> (b: PrintBox)
        ensures
            b@ == empty_grid(),
            forall|c: Cell| in_box(c) ==> b.value[c.0][c.1][c.2] == -1,
    {
        let b = PrintBox { value: [[[-1; LENGTH]; WIDTH]; HEIGHT] };
        assert(b@ =~= empty_grid());
        b
    }

    /// Counts the cells that are in conflict.
    pub fn occupied_positions(self) -> (count: usize)
        ensures
            count == conflict_cells(self@).len(),
            count <= 125,
    {
        let mut count: usize = 0;
        proof {
            assert(conflicts_before(self@, 0) =~= Set::<Cell>::empty());
        }
        for x in 0..5usize
            invariant
                count <= 25 * x,
                conflicts_before(self@, 25 * x).finite(),
                count == conflicts_before(self@, 25 * x).len(),
        {
            for y in 0..5usize
                invariant
                    x < 5,
                    count <= 25 * x + 5 * y,
                    conflicts_before(self@, 25 * x + 5 * y).finite(),
                    count == conflicts_before(self@, 25 * x + 5 * y).len(),
            {
                for z in 0..5usize
                    invariant
                        x < 5,
                        y < 5,
                        count <= 25 * x + 5 * y + z,
                        conflicts_before(self@, 25 * x + 5 * y + z).finite(),
                        count == conflicts_before(self@, 25 * x + 5 * y + z).len(),
                {
                    proof {
                        lemma_conflicts_step(self@, (x as int, y as int, z as int));
                    }
                    if self.value[x][y][z] > MIN_VAL && self.value[x][y][z] > MAX_VAL {
                        count += 1;
                    }
                }
            }
        }
        proof {
            assert(conflicts_before(self@, 125) =~= conflict_cells(self@));
        }
        count
    }

    /// The box as text, one character per cell.
    pub fn render(&self) -> (s: String)
        ensures
            s@ == render_spec(self@),
    {
        let mut s = String::new();
        push_char(&mut s, '\n');
        for i in 0..5usize
            invariant
                s@ == seq!['\n'] + sections_text(self@, i as int),
        {
            let ghost head = s@;
            for j in 0..5usize
                invariant
                    i < 5,
                    s@ == head + rows_text(self@, i as int, j as int),
            {
                let ghost start = s@;
                for k in 0..5usize
                    invariant
                        i < 5,
                        j < 5,
                        s@ == start + Seq::new(k as nat, |k: int| i2c_spec(self@[(i as int, j as int, k)])),
                {
                    push_char(&mut s, i2c(self.value[i][j][k]));
                    proof {
                        let cell = |k: int| i2c_spec(self@[(i as int, j as int, k)]);
                        assert(Seq::new((k + 1) as nat, cell) =~= Seq::new(k as nat, cell).push(
                            cell(k as int),
                        ));
                        assert(s@ =~= start + Seq::new((k + 1) as nat, cell));
                    }
                }
                push_char(&mut s, '\n');
                proof {
                    assert(s@ =~= head + rows_text(self@, i as int, j + 1));
                }
            }
            push_char(&mut s, '\n');
            proof {
                assert(s@ =~= seq!['\n'] + sections_text(self@, i + 1));
            }
        }
        push_char(&mut s, '\n');
        proof {
            assert(s@ =~= render_spec(self@));
        }
        s
    }
}

/// Walking one cell further adds that cell to the conflict cells seen so
/// far exactly if it is in conflict.
proof fn lemma_conflicts_step(g: Grid, c: Cell)
    requires
        in_box(c),
        conflicts_before(g, flat(c)).finite(),
    ensures
        conflicts_before(g, flat(c) + 1).finite(),
        conflicts_before(g, flat(c) + 1).len() == conflicts_before(g, flat(c)).len() + (if is_conflict(
            g[c],
        ) {
            1int
        } else {
            0int
        }),
{
    let before = conflicts_before(g, flat(c));
    let after = conflicts_before(g, flat(c) + 1);
    assert forall|d: Cell| in_box(d) && flat(d) == flat(c) implies d == c by {}
    if is_conflict(g[c]) {
        assert(after =~= before.insert(c));
    } else {
        assert(after =~= before);
    }
}

} // verus!

verus! {

/// Depositing leaves the set of cells of the box as it was.
pub proof fn lemma_deposit_dom(g: Grid, cells: Seq<Cell>, val: int, n: int)
    requires
        0 <= n <= cells.len(),
        forall|i: int| 0 <= i < cells.len() ==> g.dom().contains(#[trigger] cells[i]),
    ensures
        deposit_first(g, cells, val, n).dom() == g.dom(),
    decreases n,
{
    if n > 0 {
        lemma_deposit_dom(g, cells, val, n - 1);
        assert(deposit_first(g, cells, val, n).dom() =~= g.dom());
    }
}

/// What the first `n` of some distinct cells do to a cell `c` of the box.
proof fn lemma_deposit_first_cell(g: Grid, cells: Seq<Cell>, val: int, n: int, c: Cell)
    requires
        0 <= n <= cells.len(),
        cells.no_duplicates(),
    ensures
        deposit_first(g, cells, val, n)[c] == if cells.take(n).contains(c) {
            if is_empty(g[c]) {
                val
            } else {
                MAX_VAL + 1
            }
        } else {
            g[c]
        },
    decreases n,
{
    if n > 0 {
        lemma_deposit_first_cell(g, cells, val, n - 1, c);
        let last = cells[n - 1];
        let before = cells.take(n - 1);
        assert(cells.take(n) =~= before.push(last));
        assert(cells.take(n)[n - 1] == last);
        if c == last {
            assert(!before.contains(c)) by {
                if before.contains(c) {
                    let i = choose|i: int| 0 <= i < before.len() && before[i] == c;
                    assert(cells[i] == cells[n - 1]);
                }
            }
        } else if before.contains(c) {
            let i = choose|i: int| 0 <= i < before.len() && before[i] == c;
            assert(cells.take(n)[i] == c);
        } else {
            assert(!cells.take(n).contains(c)) by {
                if cells.take(n).contains(c) {
                    let i = choose|i: int| 0 <= i < n && cells.take(n)[i] == c;
                    assert(before[i] == c);
                }
            }
        }
    }
}

/// Depositing distinct cells under `val` gives each of them that was empty
/// the value `val`, makes a conflict of each of them that was not, and
/// leaves every other cell as it was.
pub proof fn lemma_deposit_cell(g: Grid, cells: Seq<Cell>, val: int, c: Cell)
    requires
        cells.no_duplicates(),
    ensures
        deposit(g, cells, val)[c] == if cells.contains(c) {
            if is_empty(g[c]) {
                val
            } else {
                MAX_VAL + 1
            }
        } else {
            g[c]
        },
{
    lemma_deposit_first_cell(g, cells, val, cells.len() as int, c);
    assert(cells.take(cells.len() as int) =~= cells);
}

/// Two pieces deposited into an empty box are in conflict exactly in the
/// cells that both cover: where they share a cell at least one cell is in
/// conflict, and where they share none, no cell is.
pub proof fn lemma_deposit_two(a: Seq<Cell>, name_a: int, b: Seq<Cell>, name_b: int)
    requires
        a.no_duplicates(),
        b.no_duplicates(),
        forall|i: int| 0 <= i < a.len() ==> in_box(#[trigger] a[i]),
        forall|i: int| 0 <= i < b.len() ==> in_box(#[trigger] b[i]),
        0 <= name_a <= MAX_VAL,
        0 <= name_b <= MAX_VAL,
    ensures
        ({
            let g = deposit(deposit(empty_grid(), a, name_a), b, name_b);
            let shared = Set::new(|c: Cell| a.contains(c) && b.contains(c));
            &&& conflict_cells(g) == shared
            &&& shared.finite()
            &&& !shared.is_empty() ==> conflict_cells(g).len() >= 1
            &&& shared.is_empty() ==> conflict_cells(g).len() == 0
        }),
{
    let first = deposit(empty_grid(), a, name_a);
    let g = deposit(first, b, name_b);
    let shared = Set::new(|c: Cell| a.contains(c) && b.contains(c));
    lemma_deposit_dom(empty_grid(), a, name_a, a.len() as int);
    lemma_deposit_dom(first, b, name_b, b.len() as int);
    assert forall|c: Cell| conflict_cells(g).contains(c) <==> shared.contains(c) by {
        lemma_deposit_cell(empty_grid(), a, name_a, c);
        lemma_deposit_cell(first, b, name_b, c);
        if a.contains(c) {
            let i = choose|i: int| 0 <= i < a.len() && a[i] == c;
            assert(in_box(a[i]));
        }
    }
    assert(conflict_cells(g) =~= shared);
    assert(shared.subset_of(a.to_set()));
    vstd::seq_lib::seq_to_set_is_finite(a);
    vstd::set_lib::lemma_len_subset(shared, a.to_set());
    if !shared.is_empty() {
        assert(shared.len() != 0) by {
            if shared.len() == 0 {
                shared.lemma_len0_is_empty();
            }
        }
    }
}

} // verus!
