//! A two-dimensional rectangular grid with periodic neighbours.
use vstd::prelude::*;

use crate::lattice::{D2Q9, LATTICE_SIZE};
use vstd::arithmetic::div_mod::lemma_fundamental_div_mod_converse;
use vstd::arithmetic::mul::lemma_mul_inequality;

verus! {

/// Linear index of a cell of the grid.
#[derive(Clone, Copy, PartialEq, Eq, Structural, Debug)]
pub struct Idx(pub usize);

impl Idx {
    /// The cell with linear index `v`.
    pub fn new(v: usize) -> (r: Idx)
        ensures
            r.0 == v,
    {
        Idx(v)
    }
}

/// Coordinates `(x, y)` of a cell of the grid.
#[derive(Clone, Copy, PartialEq, Eq, Structural, Debug)]
pub struct X(pub usize, pub usize);

/// One coordinate moved by `d` in `{-1, 0, 1}`, wrapping around in `0..m`.
pub open spec fn wrap(v: int, d: int, m: int) -> int {
    if d > 0 {
        if v == m - 1 {
            0
        } else {
            v + 1
        }
    } else if d < 0 {
        if v == 0 {
            m - 1
        } else {
            v - 1
        }
    } else {
        v
    }
}

/// Rectangular grid of `x` columns and `y` rows; cells are numbered row by row.
#[derive(Clone, Copy, PartialEq, Eq, Structural, Debug)]
pub struct StructuredRectangular {
    pub x: usize,
    pub y: usize,
}

impl StructuredRectangular {
    /// Both dimensions are positive, and one value per cell and velocity fits
    /// in memory.
    pub open spec fn wf(self) -> bool {
        &&& self.x > 0
        &&& self.y > 0
        &&& self.x * self.y * LATTICE_SIZE <= usize::MAX
    }

    /// Number of cells.
    pub open spec fn cells(self) -> nat {
        (self.x * self.y) as nat
    }

    /// Coordinates of the cell with linear index `i`.
    pub open spec fn coord_of(self, i: int) -> (int, int) {
        (i % self.x as int, i / self.x as int)
    }

    /// Linear index of the cell at `(a, b)`.
    pub open spec fn id_of(self, a: int, b: int) -> int {
        a + self.x * b
    }

    /// Linear index of the periodic neighbour of cell `i` in direction `n`.
    pub open spec fn neighbor_of(self, i: int, n: D2Q9) -> int {
        let (a, b) = self.coord_of(i);
        let (dx, dy) = n.heading().step();
        self.id_of(wrap(a, dx, self.x as int), wrap(b, dy, self.y as int))
    }

    /// Number of cells.
    pub fn size(&self) -> (r: usize)
        requires
            self.wf(),
        ensures
            r == self.cells(),
    {
        proof {
            lemma_mul_inequality(1, LATTICE_SIZE as int, (self.x * self.y) as int);
        }
        self.x * self.y
    }

    /// The indices of all cells, in increasing order.
    pub fn ids(&self) -> (r: Vec<Idx>)
        requires
            self.wf(),
        ensures
            r@.len() == self.cells(),
            forall|i: int| 0 <= i < r@.len() ==> (#[trigger] r@[i]).0 == i,
    {
        let n = self.size();
        let mut r: Vec<Idx> = Vec::new();
        let mut i: usize = 0;
        while i < n
            invariant
                i <= n,
                n == self.cells(),
                r@.len() == i,
                forall|k: int| 0 <= k < r@.len() ==> (#[trigger] r@[k]).0 == k,
            decreases n - i,
        {
            r.push(Idx::new(i));
            i = i + 1;
        }
        r
    }

    /// Coordinates of the cell `i`.
    pub fn x(&self, i: Idx) -> (r: X)
        requires
            self.x > 0,
        ensures
            (r.0 as int, r.1 as int) == self.coord_of(i.0 as int),
    {
        X(i.0 % self.x, i.0 / self.x)
    }

    /// Linear index of the cell at coordinates `c`.
    pub fn idx(&self, c: X) -> (r: Idx)
        requires
            c.0 + self.x * c.1 <= usize::MAX,
        ensures
            r.0 == self.id_of(c.0 as int, c.1 as int),
    {
        Idx(c.0 + self.x * c.1)
    }

    /// The cell reached from `c` in direction `dir`, wrapping around each
    /// axis independently.
    pub fn neighbor(&self, c: Idx, dir: D2Q9) -> (r: Idx)
        requires
            self.wf(),
            c.0 < self.cells(),
        ensures
            r.0 == self.neighbor_of(c.0 as int, dir),
            r.0 < self.cells(),
    {
        let X(x_i, y_i) = self.x(c);
        proof {
            self.lemma_coord_in_range(c.0 as int);
        }
        let x_e = if x_i == self.x - 1 { 0 } else { x_i + 1 };
        let x_w = if x_i == 0 { self.x - 1 } else { x_i - 1 };
        let y_n = if y_i == self.y - 1 { 0 } else { y_i + 1 };
        let y_s = if y_i == 0 { self.y - 1 } else { y_i - 1 };
        let (a, b) = match dir {
            D2Q9::C => (x_i, y_i),
            D2Q9::E => (x_e, y_i),
            D2Q9::N => (x_i, y_n),
            D2Q9::W => (x_w, y_i),
            D2Q9::S => (x_i, y_s),
            D2Q9::NE => (x_e, y_n),
            D2Q9::NW => (x_w, y_n),
            D2Q9::SW => (x_w, y_s),
            D2Q9::SE => (x_e, y_s),
        };
        proof {
            self.lemma_id_in_range(a as int, b as int);
        }
        self.idx(X(a, b))
    }

    /// The coordinates of a cell lie inside the grid.
    pub proof fn lemma_coord_in_range(self, i: int)
        requires
            self.wf(),
            0 <= i < self.cells(),
        ensures
            0 <= self.coord_of(i).0 < self.x,
            0 <= self.coord_of(i).1 < self.y,
            self.id_of(self.coord_of(i).0, self.coord_of(i).1) == i,
    {
        let (a, b) = self.coord_of(i);
        vstd::arithmetic::div_mod::lemma_fundamental_div_mod(i, self.x as int);
        assert(0 <= a < self.x);
        assert(b >= 0) by {
            vstd::arithmetic::div_mod::lemma_div_pos_is_pos(i, self.x as int);
        }
        if b >= self.y {
            lemma_mul_inequality(self.y as int, b, self.x as int);
            assert(self.x * b >= self.x * self.y) by (nonlinear_arith)
                requires
                    self.y <= b,
                    self.x > 0,
            ;
        }
    }

    /// A cell inside the grid has an index below the number of cells.
    pub proof fn lemma_id_in_range(self, a: int, b: int)
        requires
            self.wf(),
            0 <= a < self.x,
            0 <= b < self.y,
        ensures
            0 <= self.id_of(a, b) < self.cells(),
    {
        assert(self.x * b <= self.x * (self.y - 1)) by (nonlinear_arith)
            requires
                b <= self.y - 1,
                self.x > 0,
        ;
        assert(self.x * (self.y - 1) == self.x * self.y - self.x) by (nonlinear_arith);
        assert(self.x * b >= 0) by (nonlinear_arith)
            requires
                b >= 0,
                self.x > 0,
        ;
    }

    /// Coordinates inside the grid survive the trip through a linear index.
    pub proof fn lemma_coord_of_id(self, a: int, b: int)
        requires
            self.wf(),
            0 <= a < self.x,
            0 <= b < self.y,
        ensures
            self.coord_of(self.id_of(a, b)) == (a, b),
    {
        assert(self.id_of(a, b) == b * self.x + a) by (nonlinear_arith);
        lemma_fundamental_div_mod_converse(self.id_of(a, b), self.x as int, b, a);
    }

    /// Moving to the neighbour in direction `n` and then in the opposite
    /// direction comes back to the starting cell.
    pub proof fn lemma_neighbor_round_trip(self, i: int, n: D2Q9)
        requires
            self.wf(),
            0 <= i < self.cells(),
        ensures
            0 <= self.neighbor_of(i, n) < self.cells(),
            self.neighbor_of(self.neighbor_of(i, n), n.reverse()) == i,
    {
        let (a, b) = self.coord_of(i);
        self.lemma_coord_in_range(i);
        let (dx, dy) = n.heading().step();
        let a2 = wrap(a, dx, self.x as int);
        let b2 = wrap(b, dy, self.y as int);
        self.lemma_id_in_range(a2, b2);
        self.lemma_coord_of_id(a2, b2);
    }
}

} // verus!
