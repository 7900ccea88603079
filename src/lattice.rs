//! The nine-velocity two-dimensional lattice (D2Q9).
use vstd::prelude::*;

use crate::geometry::Direction;

verus! {

/// Lattice weights are multiples of `1 / WEIGHT_SCALE`.
pub const WEIGHT_SCALE: u8 = 36;

/// Number of discrete velocities of the lattice.
pub const LATTICE_SIZE: usize = 9;

/// One of the nine discrete velocities, in canonical order.
#[derive(Clone, Copy, PartialEq, Eq, Structural, Debug)]
pub enum D2Q9 {
    C,
    E,
    N,
    W,
    S,
    NE,
    NW,
    SW,
    SE,
}

impl D2Q9 {
    /// Position of the velocity in the canonical order.
    pub open spec fn index(self) -> nat {
        match self {
            D2Q9::C => 0,
            D2Q9::E => 1,
            D2Q9::N => 2,
            D2Q9::W => 3,
            D2Q9::S => 4,
            D2Q9::NE => 5,
            D2Q9::NW => 6,
            D2Q9::SW => 7,
            D2Q9::SE => 8,
        }
    }

    /// The velocity at position `i` of the canonical order.
    pub open spec fn at(i: int) -> D2Q9 {
        if i == 0 {
            D2Q9::C
        } else if i == 1 {
            D2Q9::E
        } else if i == 2 {
            D2Q9::N
        } else if i == 3 {
            D2Q9::W
        } else if i == 4 {
            D2Q9::S
        } else if i == 5 {
            D2Q9::NE
        } else if i == 6 {
            D2Q9::NW
        } else if i == 7 {
            D2Q9::SW
        } else {
            D2Q9::SE
        }
    }

    /// The velocity pointing the other way.
    pub open spec fn reverse(self) -> D2Q9 {
        match self {
            D2Q9::C => D2Q9::C,
            D2Q9::E => D2Q9::W,
            D2Q9::N => D2Q9::S,
            D2Q9::W => D2Q9::E,
            D2Q9::S => D2Q9::N,
            D2Q9::NE => D2Q9::SW,
            D2Q9::NW => D2Q9::SE,
            D2Q9::SW => D2Q9::NE,
            D2Q9::SE => D2Q9::NW,
        }
    }

    /// The lattice weight, in units of `1 / WEIGHT_SCALE`.
    pub open spec fn weight(self) -> nat {
        match self {
            D2Q9::C => 16,
            D2Q9::E | D2Q9::N | D2Q9::W | D2Q9::S => 4,
            _ => 1,
        }
    }

    /// The geometric direction of the velocity.
    pub open spec fn heading(self) -> Direction {
        match self {
            D2Q9::C => Direction::C,
            D2Q9::E => Direction::E,
            D2Q9::N => Direction::N,
            D2Q9::W => Direction::W,
            D2Q9::S => Direction::S,
            D2Q9::NE => Direction::NE,
            D2Q9::NW => Direction::NW,
            D2Q9::SW => Direction::SW,
            D2Q9::SE => Direction::SE,
        }
    }

    /// The velocity at position `v` of the canonical order.
    pub fn new(v: usize) -> (r: D2Q9)
        requires
            v < LATTICE_SIZE,
        ensures
            r.index() == v,
            r == D2Q9::at(v as int),
    {
        match v {
            0 => D2Q9::C,
            1 => D2Q9::E,
            2 => D2Q9::N,
            3 => D2Q9::W,
            4 => D2Q9::S,
            5 => D2Q9::NE,
            6 => D2Q9::NW,
            7 => D2Q9::SW,
            _ => D2Q9::SE,
        }
    }

    /// Position of the velocity in the canonical order.
    pub fn value(&self) -> (r: usize)
        ensures
            r == self.index(),
            r < LATTICE_SIZE,
    {
        match self {
            D2Q9::C => 0,
            D2Q9::E => 1,
            D2Q9::N => 2,
            D2Q9::W => 3,
            D2Q9::S => 4,
            D2Q9::NE => 5,
            D2Q9::NW => 6,
            D2Q9::SW => 7,
            D2Q9::SE => 8,
        }
    }

    /// Number of discrete velocities.
    pub fn size() -> (r: usize)
        ensures
            r == LATTICE_SIZE,
    {
        LATTICE_SIZE
    }

    /// The rest velocity.
    pub fn center() -> (r: D2Q9)
        ensures
            r == D2Q9::C,
    {
        D2Q9::C
    }

    /// The velocity pointing the other way.
    pub fn opposite(&self) -> (r: D2Q9)
        ensures
            r == self.reverse(),
    {
        match self {
            D2Q9::C => D2Q9::C,
            D2Q9::E => D2Q9::W,
            D2Q9::N => D2Q9::S,
            D2Q9::W => D2Q9::E,
            D2Q9::S => D2Q9::N,
            D2Q9::NE => D2Q9::SW,
            D2Q9::NW => D2Q9::SE,
            D2Q9::SW => D2Q9::NE,
            D2Q9::SE => D2Q9::NW,
        }
    }

    /// The lattice weight in units of `1 / WEIGHT_SCALE`: 16 for the rest
    /// velocity, 4 along the axes and 1 along the diagonals.
    pub fn weight36(&self) -> (r: u8)
        ensures
            r == self.weight(),
    {
        match self {
            D2Q9::C => 16,
            D2Q9::E | D2Q9::N | D2Q9::W | D2Q9::S => 4,
            _ => 1,
        }
    }

    /// The geometric direction of the velocity.
    pub fn direction(&self) -> (r: Direction)
        ensures
            r == self.heading(),
    {
        match self {
            D2Q9::C => Direction::C,
            D2Q9::E => Direction::E,
            D2Q9::N => Direction::N,
            D2Q9::W => Direction::W,
            D2Q9::S => Direction::S,
            D2Q9::NE => Direction::NE,
            D2Q9::NW => Direction::NW,
            D2Q9::SW => Direction::SW,
            D2Q9::SE => Direction::SE,
        }
    }

    /// The velocity with the given direction; every direction has one.
    pub fn from_direction(d: Direction) -> (r: Option<D2Q9>)
        ensures
            r matches Some(n) && n.heading() == d,
    {
        Some(
            match d {
                Direction::C => D2Q9::C,
                Direction::E => D2Q9::E,
                Direction::N => D2Q9::N,
                Direction::W => D2Q9::W,
                Direction::S => D2Q9::S,
                Direction::NE => D2Q9::NE,
                Direction::NW => D2Q9::NW,
                Direction::SW => D2Q9::SW,
                Direction::SE => D2Q9::SE,
            },
        )
    }

    /// The velocities at positions `lo..hi` of the canonical order.
    fn range(lo: usize, hi: usize) -> (r: Vec<D2Q9>)
        requires
            lo <= hi <= LATTICE_SIZE,
        ensures
            r@.len() == hi - lo,
            forall|i: int| 0 <= i < r@.len() ==> #[trigger] r@[i] == D2Q9::at(lo + i),
    {
        let mut r: Vec<D2Q9> = Vec::new();
        let mut v: usize = lo;
        while v < hi
            invariant
                lo <= v <= hi <= LATTICE_SIZE,
                r@.len() == v - lo,
                forall|i: int| 0 <= i < r@.len() ==> #[trigger] r@[i] == D2Q9::at(lo + i),
            decreases hi - v,
        {
            r.push(D2Q9::new(v));
            v = v + 1;
        }
        r
    }

    /// All nine velocities in canonical order.
    pub fn all() -> (r: Vec<D2Q9>)
        ensures
            r@.len() == LATTICE_SIZE,
            forall|i: int| 0 <= i < LATTICE_SIZE ==> #[trigger] r@[i] == D2Q9::at(i),
    {
        D2Q9::range(0, LATTICE_SIZE)
    }
}

/// A lattice whose axis-aligned velocities can be listed.
pub trait DirectDistribution: Sized {
    /// The axis-aligned velocities, in canonical order.
    spec fn direct_velocities() -> Seq<Self>;

    /// The axis-aligned velocities, in canonical order.
    fn direct() -> (r: Vec<Self>)
        ensures
            r@ == Self::direct_velocities(),
    ;
}

/// A lattice whose diagonal velocities can be listed.
pub trait DiagonalDistribution: Sized {
    /// The diagonal velocities, in canonical order.
    spec fn diagonal_velocities() -> Seq<Self>;

    /// The diagonal velocities, in canonical order.
    fn diagonal() -> (r: Vec<Self>)
        ensures
            r@ == Self::diagonal_velocities(),
    ;
}

impl DirectDistribution for D2Q9 {
    open spec fn direct_velocities() -> Seq<D2Q9> {
        seq![D2Q9::E, D2Q9::N, D2Q9::W, D2Q9::S]
    }

    fn direct() -> (r: Vec<D2Q9>) {
        let r = D2Q9::range(1, 5);
        assert(r@ =~= seq![D2Q9::E, D2Q9::N, D2Q9::W, D2Q9::S]);
        r
    }
}

impl DiagonalDistribution for D2Q9 {
    open spec fn diagonal_velocities() -> Seq<D2Q9> {
        seq![D2Q9::NE, D2Q9::NW, D2Q9::SW, D2Q9::SE]
    }

    fn diagonal() -> (r: Vec<D2Q9>) {
        let r = D2Q9::range(5, 9);
        assert(r@ =~= seq![D2Q9::NE, D2Q9::NW, D2Q9::SW, D2Q9::SE]);
        r
    }
}

/// Sum of the weights of the first `k` velocities of the canonical order.
pub open spec fn weight_sum(k: nat) -> nat
    decreases k,
{
    if k == 0 {
        0
    } else {
        weight_sum((k - 1) as nat) + D2Q9::at(k - 1).weight()
    }
}

/// Every velocity has a position, and the position names it back.
pub proof fn lemma_index_at(n: D2Q9)
    ensures
        n.index() < LATTICE_SIZE,
        D2Q9::at(n.index() as int) == n,
{
}

/// Reversing a velocity twice gives it back, the rest velocity is its own
/// reverse, and the weights of all nine velocities add up to one.
pub proof fn lemma_lattice_invariants(n: D2Q9)
    ensures
        n.reverse().reverse() == n,
        D2Q9::C.reverse() == D2Q9::C,
        weight_sum(LATTICE_SIZE as nat) == WEIGHT_SCALE,
{
    reveal_with_fuel(weight_sum, 10);
}

} // verus!
