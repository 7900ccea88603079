//! Directions and the geometric predicates that classify grid cells.
use vstd::prelude::*;

use crate::grid::X;

verus! {

/// One of the nine lattice directions.
#[derive(Clone, Copy, PartialEq, Eq, Structural, Debug)]
pub enum Direction {
    C,
    E,
    N,
    W,
    S,
    NE,
    NW,
    SW,
    SE,
}

impl Direction {
    /// The integer step `(dx, dy)` of the direction.
    pub open spec fn step(self) -> (int, int) {
        match self {
            Direction::C => (0, 0),
            Direction::E => (1, 0),
            Direction::N => (0, 1),
            Direction::W => (-1, 0),
            Direction::S => (0, -1),
            Direction::NE => (1, 1),
            Direction::NW => (-1, 1),
            Direction::SW => (-1, -1),
            Direction::SE => (1, -1),
        }
    }

    /// The integer step of the direction as `[dx, dy]`.
    pub fn array(&self) -> (r: [i8; 2])
        ensures
            r@ == seq![self.step().0 as i8, self.step().1 as i8],
    {
        let r: [i8; 2] = match self {
            Direction::C => [0, 0],
            Direction::E => [1, 0],
            Direction::N => [0, 1],
            Direction::W => [-1, 0],
            Direction::S => [0, -1],
            Direction::NE => [1, 1],
            Direction::NW => [-1, 1],
            Direction::SW => [-1, -1],
            Direction::SE => [1, -1],
        };
        assert(r@ =~= seq![self.step().0 as i8, self.step().1 as i8]);
        r
    }
}


/// A region of the plane, asked cell by cell whether it holds a cell.
pub trait Geometry {
    /// The region is one that `contains` can be asked about.
    spec fn valid(&self) -> bool;

    /// The region holds the cell `c`.
    spec fn holds(&self, c: X) -> bool;

    /// Whether the region holds the cell `c`.
    fn contains(&self, c: X) -> (r: bool)
        requires
            self.valid(),
        ensures
            r == self.holds(c),
    ;

    /// Whether `contains` can be asked of the region.
    fn is_valid(&self) -> (r: bool)
        ensures
            r == self.valid(),
    ;
}

/// The half-plane on one side of an axis-aligned line through `x`, with
/// normal `n`. The normals `(1, 0)`, `(0, 1)` and `(0, -1)` are supported.
#[derive(Clone, Copy, Debug)]
pub struct Plane {
    pub n: (isize, isize),
    pub x: (usize, usize),
}

impl Plane {
    pub open spec fn normal(self) -> (isize, isize) {
        self.n
    }

    pub open spec fn point(self) -> (usize, usize) {
        self.x
    }

    /// The normal is one of those with a defined half-plane.
    pub open spec fn supported(self) -> bool {
        self.n == (1isize, 0isize) || self.n == (0isize, 1isize) || self.n == (0isize, -1isize)
    }

    /// The half-plane with normal `n` bounded by the line through `x`.
    pub fn new(n: (isize, isize), x: (usize, usize)) -> (r: Plane)
        ensures
            r.normal() == n,
            r.point() == x,
    {
        Plane { n, x }
    }
}

impl Geometry for Plane {
    open spec fn valid(&self) -> bool {
        self.supported()
    }

    fn is_valid(&self) -> (r: bool) {
        (self.n.0 == 1 && self.n.1 == 0) || (self.n.0 == 0 && self.n.1 == 1) || (self.n.0 == 0
            && self.n.1 == -1)
    }

    /// Normal `(1, 0)`: the cells left of or on the line; `(0, 1)`: below or
    /// on it; `(0, -1)`: above or on it.
    open spec fn holds(&self, c: X) -> bool {
        if self.n == (1isize, 0isize) {
            c.0 <= self.x.0
        } else if self.n == (0isize, 1isize) {
            c.1 <= self.x.1
        } else {
            c.1 >= self.x.1
        }
    }

    fn contains(&self, c: X) -> (r: bool) {
        if self.n.0 == 1 && self.n.1 == 0 {
            c.0 <= self.x.0
        } else if self.n.0 == 0 && self.n.1 == 1 {
            c.1 <= self.x.1
        } else {
            c.1 >= self.x.1
        }
    }
}

/// Circle coordinates are multiples of `1 / CIRCLE_SCALE`.
pub const CIRCLE_SCALE: u64 = 40;

/// The open disc of centre `(x_c, y_c)` and radius `r`, each given in units of
/// `1 / CIRCLE_SCALE`.
#[derive(Clone, Copy, Debug)]
pub struct Circle {
    pub x_c: u64,
    pub y_c: u64,
    pub r: u64,
}

/// The square of `a - b`.
pub open spec fn sq_diff(a: int, b: int) -> int {
    (a - b) * (a - b)
}

impl Circle {
    pub open spec fn center(self) -> (int, int) {
        (self.x_c as int, self.y_c as int)
    }

    pub open spec fn radius(self) -> int {
        self.r as int
    }

    /// The obstacle of a channel of `lx` by `ly` cells: centred at
    /// `(0.3 lx, 0.5 ly)` with radius `0.125 ly`.
    pub fn new(lx: usize, ly: usize) -> (r: Circle)
        requires
            lx <= u32::MAX,
            ly <= u32::MAX,
        ensures
            r.center() == (12 * lx, 20 * ly),
            r.radius() == 5 * ly,
    {
        let lx = lx as u64;
        let ly = ly as u64;
        Circle { x_c: 12 * lx, y_c: 20 * ly, r: 5 * ly }
    }
}

impl Geometry for Circle {
    open spec fn valid(&self) -> bool {
        &&& self.x_c < 0x100_0000_0000
        &&& self.y_c < 0x100_0000_0000
        &&& self.r < 0x100_0000_0000
    }

    fn is_valid(&self) -> (r: bool) {
        self.x_c < 0x100_0000_0000 && self.y_c < 0x100_0000_0000 && self.r < 0x100_0000_0000
    }

    /// The centre of the cell lies strictly inside the circle.
    open spec fn holds(&self, c: X) -> bool {
        let s = CIRCLE_SCALE as int;
        sq_diff(self.x_c as int, s * c.0) + sq_diff(self.y_c as int, s * c.1) < self.r * self.r
    }

    fn contains(&self, c: X) -> (r: bool) {
        let px = (CIRCLE_SCALE as u128) * (c.0 as u128);
        let py = (CIRCLE_SCALE as u128) * (c.1 as u128);
        let cx = self.x_c as u128;
        let cy = self.y_c as u128;
        let dx = if cx >= px { cx - px } else { px - cx };
        let dy = if cy >= py { cy - py } else { py - cy };
        let r = self.r as u128;
        if dx >= r || dy >= r {
            assert(dx * dx >= r * r || dy * dy >= r * r) by (nonlinear_arith)
                requires
                    dx >= r || dy >= r,
                    r >= 0,
            ;
            assert(dx * dx >= 0 && dy * dy >= 0) by (nonlinear_arith);
            assert(sq_diff(self.x_c as int, CIRCLE_SCALE as int * c.0) == dx * dx) by (nonlinear_arith)
                requires
                    dx == if cx >= px { cx - px } else { px - cx },
                    cx == self.x_c,
                    px == CIRCLE_SCALE as int * c.0,
            ;
            assert(sq_diff(self.y_c as int, CIRCLE_SCALE as int * c.1) == dy * dy) by (nonlinear_arith)
                requires
                    dy == if cy >= py { cy - py } else { py - cy },
                    cy == self.y_c,
                    py == CIRCLE_SCALE as int * c.1,
            ;
            return false;
        }
        assert(dx < 0x100_0000_0000 && dy < 0x100_0000_0000);
        assert(dx * dx < 0x1_0000_0000_0000_0000_0000u128) by (nonlinear_arith)
            requires
                dx < 0x100_0000_0000u128,
        ;
        assert(dy * dy < 0x1_0000_0000_0000_0000_0000u128) by (nonlinear_arith)
            requires
                dy < 0x100_0000_0000u128,
        ;
        assert(sq_diff(self.x_c as int, CIRCLE_SCALE as int * c.0) == dx * dx) by (nonlinear_arith)
            requires
                dx == if cx >= px { cx - px } else { px - cx },
                cx == self.x_c,
                px == CIRCLE_SCALE as int * c.0,
        ;
        assert(sq_diff(self.y_c as int, CIRCLE_SCALE as int * c.1) == dy * dy) by (nonlinear_arith)
            requires
                dy == if cy >= py { cy - py } else { py - cy },
                cy == self.y_c,
                py == CIRCLE_SCALE as int * c.1,
        ;
        assert(r * r < 0x1_0000_0000_0000_0000_0000u128) by (nonlinear_arith)
            requires
                r < 0x100_0000_0000u128,
        ;
        let rr = r * r;
        dx * dx + dy * dy < rr
    }
}

/// The regions that a boundary condition can cover.
#[derive(Clone, Copy, Debug)]
pub enum Shape {
    Circle(Circle),
    Plane(Plane),
}

impl Geometry for Shape {
    open spec fn valid(&self) -> bool {
        match self {
            Shape::Circle(g) => g.valid(),
            Shape::Plane(g) => g.valid(),
        }
    }

    fn is_valid(&self) -> (r: bool) {
        match self {
            Shape::Circle(g) => g.is_valid(),
            Shape::Plane(g) => g.is_valid(),
        }
    }

    open spec fn holds(&self, c: X) -> bool {
        match self {
            Shape::Circle(g) => g.holds(c),
            Shape::Plane(g) => g.holds(c),
        }
    }

    fn contains(&self, c: X) -> (r: bool) {
        match self {
            Shape::Circle(g) => g.contains(c),
            Shape::Plane(g) => g.contains(c),
        }
    }
}

} // verus!
