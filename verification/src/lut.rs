use vstd::prelude::*;

verus! {

/// Number of grid points along each colour axis of a lookup table.
pub const LUT_SIZE: usize = 64;

/// Number of stored channel values: three channels for each of the
/// `LUT_SIZE`³ grid cells.
pub const LUT_LEN: usize = 786432;

/// Position of the first channel of cell `(r, g, b)` in the flat table.
pub open spec fn cell_offset(r: int, g: int, b: int) -> int {
    (r * 64 * 64 + g * 64 + b) * 3
}

/// `(r, g, b)` names a cell of the grid.
pub open spec fn in_grid(r: int, g: int, b: int) -> bool {
    0 <= r < 64 && 0 <= g < 64 && 0 <= b < 64
}

/// The three channel values of cell `(r, g, b)` of a flat table `cells`.
pub open spec fn cell_at<T>(cells: Seq<T>, r: int, g: int, b: int) -> [T; 3] {
    let i = cell_offset(r, g, b);
    [cells[i], cells[i + 1], cells[i + 2]]
}

/// The flat table `cells` with cell `(r, g, b)` set to `(x, y, z)`.
pub open spec fn with_cell<T>(cells: Seq<T>, r: int, g: int, b: int, x: T, y: T, z: T) -> Seq<T> {
    let i = cell_offset(r, g, b);
    cells.update(i, x).update(i + 1, y).update(i + 2, z)
}

/// A colour lookup table: a `LUT_SIZE`³ grid of cells, each holding three
/// channel values, stored flat with the blue index varying fastest.
pub struct LUT<T> {
    cells: Vec<T>,
}

impl<T> View for LUT<T> {
    type V = Seq<T>;

    closed spec fn view(&self) -> Seq<T> {
        self.cells@
    }
}

impl<T> LUT<T> {
    /// The table holds exactly one value per channel of every cell.
    #[verifier::type_invariant]
    spec fn holds_every_cell(&self) -> bool {
        self.cells@.len() == LUT_LEN
    }
}

impl<T: Copy> Clone for LUT<T> {
    /// A table with the same values in every cell.
    fn clone(&self) -> (copy: Self)
        ensures
            copy@ == self@,
    {
        proof {
            use_type_invariant(self);
        }
        let mut cells: Vec<T> = Vec::new();
        let n = self.cells.len();
        for i in 0..n
            invariant
                n == self@.len(),
                cells@ == self@.take(i as int),
        {
            cells.push(self.cells[i]);
            assert(cells@ =~= self@.take(i + 1));
        }
        assert(cells@ =~= self@);
        LUT { cells }
    }
}

/// `(r, g, b)` has a flat position whose three channels lie inside the table:
/// every cell of the grid, and any other coordinates that land inside it.
pub open spec fn in_table(r: int, g: int, b: int) -> bool {
    0 <= cell_offset(r, g, b) && cell_offset(r, g, b) + 2 < LUT_LEN
}

impl<T: Copy> LUT<T> {
    /// Number of grid points along each colour axis.
    pub const SIZE: usize = LUT_SIZE;

    /// The three channel values of cell `(r, g, b)` as an array.
    pub open spec fn cell_array(&self, r: int, g: int, b: int) -> [T; 3] {
        cell_at(self@, r, g, b)
    }

    /// Flat position of the first channel of cell `(r, g, b)`.
    pub fn index(r: usize, g: usize, b: usize) -> (i: usize)
        requires
            cell_offset(r as int, g as int, b as int) <= usize::MAX,
        ensures
            i == cell_offset(r as int, g as int, b as int),
    {
        (r * LUT_SIZE * LUT_SIZE + g * LUT_SIZE + b) * 3
    }

    /// The three channel values stored at the flat position of `(r, g, b)`.
    pub fn lookup_cell_unchecked(&self, r: usize, g: usize, b: usize) -> (c: [T; 3])
        requires
            in_table(r as int, g as int, b as int),
        ensures
            c == self.cell_array(r as int, g as int, b as int),
    {
        proof {
            use_type_invariant(self);
        }
        let i = Self::index(r, g, b);
        [self.cells[i], self.cells[i + 1], self.cells[i + 2]]
    }

    /// Overwrites the three channel values at the flat position of
    /// `(r, g, b)`; every other stored value is left as it was.
    pub fn set_cell_unchecked(&mut self, r: usize, g: usize, b: usize, new_r: T, new_g: T, new_b: T)
        requires
            in_table(r as int, g as int, b as int),
        ensures
            final(self)@ == with_cell(old(self)@, r as int, g as int, b as int, new_r, new_g, new_b),
            final(self).cell_array(r as int, g as int, b as int) == [new_r, new_g, new_b],
            forall|r2: int, g2: int, b2: int|
                in_grid(r2, g2, b2) && cell_offset(r2, g2, b2) != cell_offset(
                    r as int,
                    g as int,
                    b as int,
                ) ==> #[trigger] final(self).cell_array(r2, g2, b2) == old(self).cell_array(
                    r2,
                    g2,
                    b2,
                ),
    {
        proof {
            use_type_invariant(&*self);
        }
        let i = Self::index(r, g, b);
        self.cells[i] = new_r;
        self.cells[i + 1] = new_g;
        self.cells[i + 2] = new_b;
    }
}

/// Cells of the grid occupy disjoint stretches of the flat table, all
/// inside it: distinct cells start at least three positions apart, and every
/// cell's last channel lies before `LUT_LEN`.
pub proof fn law_cells_disjoint(r1: int, g1: int, b1: int, r2: int, g2: int, b2: int)
    requires
        in_grid(r1, g1, b1),
        in_grid(r2, g2, b2),
    ensures
        0 <= cell_offset(r1, g1, b1),
        cell_offset(r1, g1, b1) + 2 < LUT_LEN,
        (r1, g1, b1) != (r2, g2, b2) ==> cell_offset(r1, g1, b1) + 3 <= cell_offset(r2, g2, b2)
            || cell_offset(r2, g2, b2) + 3 <= cell_offset(r1, g1, b1),
{
}

/// Writing a cell and reading it back gives the values written; every cell
/// of the grid at another flat position reads as it did before the write.
pub proof fn law_read_after_write<T>(
    cells: Seq<T>,
    r: int,
    g: int,
    b: int,
    x: T,
    y: T,
    z: T,
    r2: int,
    g2: int,
    b2: int,
)
    requires
        cells.len() == LUT_LEN,
        in_table(r, g, b),
        in_grid(r2, g2, b2),
    ensures
        cell_at(with_cell(cells, r, g, b, x, y, z), r, g, b) == [x, y, z],
        cell_offset(r2, g2, b2) != cell_offset(r, g, b) ==> cell_at(
            with_cell(cells, r, g, b, x, y, z),
            r2,
            g2,
            b2,
        ) == cell_at(cells, r2, g2, b2),
{
}

/// Grid index nearest to the 8-bit channel value `c`: `c · 63 / 255` rounded
/// to the nearest integer (the exact quotient is never halfway between two
/// integers, so no tie rule is needed).
pub open spec fn nearest_grid(c: int) -> int {
    (c * 126 + 255) / 510
}


/// Distance, scaled by 255, between the channel value `c` and the channel
/// value `k · 255 / 63` of grid index `k`.
pub open spec fn grid_distance(c: int, k: int) -> int {
    let d = 63 * c - 255 * k;
    if d >= 0 {
        d
    } else {
        -d
    }
}

/// The grid index that `lookup` uses for a channel value is a grid index,
/// strictly the nearest one to that value, and moves with the value: 0 maps
/// to 0, 255 to the last index, and a larger value never to a smaller index.
pub proof fn law_nearest_grid(c: int, k: int, c2: int)
    requires
        0 <= c <= 255,
        0 <= k < 64,
        c <= c2 <= 255,
    ensures
        0 <= nearest_grid(c) < 64,
        k != nearest_grid(c) ==> grid_distance(c, nearest_grid(c)) < grid_distance(c, k),
        nearest_grid(0) == 0,
        nearest_grid(255) == 63,
        nearest_grid(c) <= nearest_grid(c2),
{
    let n = nearest_grid(c);
    assert(510 * n <= 126 * c + 255 < 510 * n + 510);
    assert(126 * c + 255 <= 126 * c2 + 255);
}

fn nearest_grid_index(c: u8) -> (i: usize)
    ensures
        i == nearest_grid(c as int),
        i < LUT_SIZE,
{
    (c as usize * 126 + 255) / 510
}

impl LUT<u8> {
    /// Colour stored at the grid cell nearest to `(r, g, b)`.
    pub fn lookup(&self, r: u8, g: u8, b: u8) -> (c: [u8; 3])
        ensures
            c == self.cell_array(
                nearest_grid(r as int),
                nearest_grid(g as int),
                nearest_grid(b as int),
            ),
    {
        let ri = nearest_grid_index(r);
        let gi = nearest_grid_index(g);
        let bi = nearest_grid_index(b);
        self.lookup_cell_unchecked(ri, gi, bi)
    }

    /// Builds a table whose cell `(r, g, b)` holds `cell_color(r, g, b)`, for
    /// every cell of the grid.
    pub fn from_interpolation<F: Fn(usize, usize, usize) -> [u8; 3]>(cell_color: F) -> (lut: Self)
        requires
            forall|r: usize, g: usize, b: usize|
                in_grid(r as int, g as int, b as int) ==> call_requires(cell_color, (r, g, b)),
        ensures
            forall|r: int, g: int, b: int|
                in_grid(r, g, b) ==> call_ensures(
                    cell_color,
                    (r as usize, g as usize, b as usize),
                    #[trigger] lut.cell_array(r, g, b),
                ),
    {
        let mut cells: Vec<u8> = Vec::new();
        for r in 0..LUT_SIZE
            invariant
                forall|r: usize, g: usize, b: usize|
                    in_grid(r as int, g as int, b as int) ==> call_requires(cell_color, (r, g, b)),
                cells@.len() == cell_offset(r as int, 0, 0),
                forall|r2: int, g2: int, b2: int|
                    in_grid(r2, g2, b2) && r2 < r ==> call_ensures(
                        cell_color,
                        (r2 as usize, g2 as usize, b2 as usize),
                        #[trigger] cell_at(cells@, r2, g2, b2),
                    ),
        {
            for g in 0..LUT_SIZE
                invariant
                    0 <= r < 64,
                    forall|r: usize, g: usize, b: usize|
                        in_grid(r as int, g as int, b as int) ==> call_requires(
                            cell_color,
                            (r, g, b),
                        ),
                    cells@.len() == cell_offset(r as int, g as int, 0),
                    forall|r2: int, g2: int, b2: int|
                        in_grid(r2, g2, b2) && (r2 < r || (r2 == r && g2 < g)) ==> call_ensures(
                            cell_color,
                            (r2 as usize, g2 as usize, b2 as usize),
                            #[trigger] cell_at(cells@, r2, g2, b2),
                        ),
            {
                for b in 0..LUT_SIZE
                    invariant
                        0 <= r < 64,
                        0 <= g < 64,
                        forall|r: usize, g: usize, b: usize|
                            in_grid(r as int, g as int, b as int) ==> call_requires(
                                cell_color,
                                (r, g, b),
                            ),
                        cells@.len() == cell_offset(r as int, g as int, b as int),
                        forall|r2: int, g2: int, b2: int|
                            in_grid(r2, g2, b2) && (r2 < r || (r2 == r && g2 < g) || (r2 == r
                                && g2 == g && b2 < b)) ==> call_ensures(
                                cell_color,
                                (r2 as usize, g2 as usize, b2 as usize),
                                #[trigger] cell_at(cells@, r2, g2, b2),
                            ),
                {
                    assert(in_grid(r as int, g as int, b as int));
                    let c = cell_color(r, g, b);
                    let ghost before = cells@;
                    cells.push(c[0]);
                    cells.push(c[1]);
                    cells.push(c[2]);
                    assert forall|r2: int, g2: int, b2: int|
                        in_grid(r2, g2, b2) && (r2 < r || (r2 == r && g2 < g) || (r2 == r && g2
                            == g && b2 <= b)) implies call_ensures(
                        cell_color,
                        (r2 as usize, g2 as usize, b2 as usize),
                        #[trigger] cell_at(cells@, r2, g2, b2),
                    ) by {
                        if r2 == r && g2 == g && b2 == b {
                            assert(cell_at(cells@, r2, g2, b2) == c);
                        } else {
                            assert(cell_at(cells@, r2, g2, b2) == cell_at(before, r2, g2, b2));
                        }
                    }
                }
            }
        }
        let lut = LUT { cells };
        assert forall|r: int, g: int, b: int| in_grid(r, g, b) implies call_ensures(
            cell_color,
            (r as usize, g as usize, b as usize),
            #[trigger] lut.cell_array(r, g, b),
        ) by {
            assert(lut.cell_array(r, g, b) == cell_at(cells@, r, g, b));
        }
        lut
    }
}

} // verus!
