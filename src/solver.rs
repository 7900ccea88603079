//! The lattice-Boltzmann driver: double-buffered distributions advanced by
//! streaming, collision and boundary phases.
use vstd::prelude::*;

use crate::boundary::{outcome, solid, Condition, Handler};
use crate::geometry::Geometry;
use crate::grid::{Idx, StructuredRectangular, X};
use crate::lattice::{D2Q9, LATTICE_SIZE};

verus! {

/// The values of cell `c` in a buffer holding nine values per cell.
pub open spec fn cell<T>(buf: Seq<T>, c: int) -> Seq<T> {
    buf.subrange(c * LATTICE_SIZE, c * LATTICE_SIZE + LATTICE_SIZE)
}

/// The coordinates of cell `c` of grid `g`.
pub open spec fn coord<T>(g: StructuredRectangular, c: int) -> X {
    X(g.coord_of(c).0 as usize, g.coord_of(c).1 as usize)
}

/// Cell `c` of `f` holds a distribution that `init` can give for the
/// coordinates of the cell.
pub open spec fn initialized_cell<T, F: Fn(X) -> Vec<T>>(
    init: F,
    g: StructuredRectangular,
    f: Seq<T>,
    c: int,
) -> bool {
    exists|v: Vec<T>| #[trigger] init.ensures((coord::<T>(g, c),), v) && cell(f, c) == v@
}

/// Position of velocity `n` of cell `c` in a buffer.
pub open spec fn slot(c: int, n: D2Q9) -> int {
    c * LATTICE_SIZE + n.index()
}

/// After the collision phase, cell `c` of `after` is cell `c` of `before` when
/// a bounce-back condition holds it, and otherwise what `op` gives for the
/// streamed values `streamed` of the cell.
pub open spec fn collided_cell<T, F: Fn(Vec<T>) -> Vec<T>>(
    op: F,
    conds: Seq<Condition<T>>,
    g: StructuredRectangular,
    streamed: Seq<T>,
    before: Seq<T>,
    after: Seq<T>,
    c: int,
) -> bool {
    if solid(conds, coord::<T>(g, c)) {
        cell(after, c) == cell(before, c)
    } else {
        exists|v: Vec<T>, w: Vec<T>|
            v@ == cell(streamed, c) && #[trigger] op.ensures((v,), w) && cell(after, c) == w@
    }
}

/// After the boundary phase, cell `c` of `after` is what the conditions make
/// of it, or cell `c` of `before` when none holds it.
pub open spec fn bounded_cell<T, F: Fn(T, T, T, T, u8) -> (T, T)>(
    transfer: F,
    conds: Seq<Condition<T>>,
    g: StructuredRectangular,
    streamed: Seq<T>,
    before: Seq<T>,
    after: Seq<T>,
    c: int,
) -> bool {
    exists|r: Option<Seq<T>>|
        #[trigger] outcome(conds, coord::<T>(g, c), cell(before, c), cell(streamed, c), transfer, r)
            && cell(after, c) == match r {
            Some(v) => v,
            None => cell(before, c),
        }
}

/// Whether iteration `iter` of a run writes output when output is asked for
/// every `n_out` iterations (never when `n_out` is zero).
pub fn output_due(iter: usize, n_out: usize) -> (r: bool)
    ensures
        r == (n_out > 0 && iter % n_out == 0),
{
    n_out > 0 && iter % n_out == 0
}

/// Solver state: the grid, the boundary conditions, the current
/// distributions `f` and the streamed distributions `f_hlp`, nine values per
/// cell, cell after cell.
pub struct Solver<T> {
    pub grid: StructuredRectangular,
    pub bcs: Handler<T>,
    pub f: Vec<T>,
    pub f_hlp: Vec<T>,
}

/// The copy of cell `c` of `buf`.
fn read_cell<T: Copy>(buf: &Vec<T>, c: usize) -> (r: Vec<T>)
    requires
        c * LATTICE_SIZE + LATTICE_SIZE <= buf@.len(),
    ensures
        r@ == cell(buf@, c as int),
{
    let len = buf.len();
    let base = c * LATTICE_SIZE;
    let mut r: Vec<T> = Vec::new();
    let mut n: usize = 0;
    while n < LATTICE_SIZE
        invariant
            n <= LATTICE_SIZE,
            base == c * LATTICE_SIZE,
            base + LATTICE_SIZE <= buf@.len(),
            r@ == buf@.subrange(base as int, base + n),
            len == buf@.len(),
        decreases LATTICE_SIZE - n,
    {
        r.push(buf[base + n]);
        n = n + 1;
        assert(r@ =~= buf@.subrange(base as int, base + n));
    }
    r
}

/// Overwrites cell `c` of `buf` with `v`.
fn write_cell<T: Copy>(buf: &mut Vec<T>, c: usize, v: &Vec<T>)
    requires
        c * LATTICE_SIZE + LATTICE_SIZE <= old(buf)@.len(),
        v@.len() == LATTICE_SIZE,
    ensures
        final(buf)@.len() == old(buf)@.len(),
        cell(final(buf)@, c as int) == v@,
        forall|k: int|
            0 <= k < old(buf)@.len() && !(c * LATTICE_SIZE <= k < c * LATTICE_SIZE + LATTICE_SIZE)
                ==> #[trigger] final(buf)@[k] == old(buf)@[k],
{
    let len = buf.len();
    let base = c * LATTICE_SIZE;
    let mut n: usize = 0;
    while n < LATTICE_SIZE
        invariant
            n <= LATTICE_SIZE,
            base == c * LATTICE_SIZE,
            base + LATTICE_SIZE <= buf@.len(),
            buf@.len() == old(buf)@.len(),
            len == buf@.len(),
            v@.len() == LATTICE_SIZE,
            forall|j: int| 0 <= j < n ==> #[trigger] buf@[base + j] == v@[j],
            forall|k: int|
                0 <= k < buf@.len() && !(base <= k < base + n) ==> #[trigger] buf@[k] == old(buf)@[k],
        decreases LATTICE_SIZE - n,
    {
        buf.set(base + n, v[n]);
        n = n + 1;
    }
    assert(cell(buf@, c as int) =~= v@) by {
        assert forall|j: int| 0 <= j < LATTICE_SIZE implies #[trigger] cell(buf@, c as int)[j] == v@[j] by {
            assert(buf@[base + j] == v@[j]);
        }
    }
}

/// Cells other than `c` are untouched by a write that keeps every index
/// outside cell `c`.
proof fn lemma_other_cells<T>(before: Seq<T>, after: Seq<T>, c: int)
    requires
        before.len() == after.len(),
        forall|k: int|
            0 <= k < before.len() && !(c * LATTICE_SIZE <= k < c * LATTICE_SIZE + LATTICE_SIZE)
                ==> #[trigger] after[k] == before[k],
    ensures
        forall|d: int|
            0 <= d && d != c && d * LATTICE_SIZE + LATTICE_SIZE <= before.len() ==> #[trigger] cell(after, d)
                == cell(before, d),
{
    assert forall|d: int|
        0 <= d && d != c && d * LATTICE_SIZE + LATTICE_SIZE <= before.len() implies #[trigger] cell(after, d)
        == cell(before, d) by {
        assert(cell(after, d) =~= cell(before, d));
    }
}

impl<T: Copy> Solver<T> {
    /// Both buffers hold nine values per cell of a well-formed grid, and the
    /// boundary conditions can be evaluated.
    pub open spec fn wf(&self) -> bool {
        &&& self.grid.wf()
        &&& self.bcs.wf()
        &&& self.f@.len() == self.grid.cells() * LATTICE_SIZE
        &&& self.f_hlp@.len() == self.grid.cells() * LATTICE_SIZE
    }

    /// A solver on `grid` with no boundary condition and both buffers filled
    /// with `zero`.
    pub fn new(grid: StructuredRectangular, zero: T) -> (r: Solver<T>)
        requires
            grid.wf(),
        ensures
            r.wf(),
            r.grid == grid,
            r.bcs@ == Seq::<Condition<T>>::empty(),
            r.f@ == Seq::new((grid.cells() * LATTICE_SIZE) as nat, |_i: int| zero),
            r.f_hlp@ == Seq::new((grid.cells() * LATTICE_SIZE) as nat, |_i: int| zero),
    {
        let len = grid.size() * LATTICE_SIZE;
        let mut f: Vec<T> = Vec::new();
        let mut i: usize = 0;
        while i < len
            invariant
                i <= len,
                f@ == Seq::new(i as nat, |_i: int| zero),
            decreases len - i,
        {
            f.push(zero);
            i = i + 1;
            assert(f@ =~= Seq::new(i as nat, |_i: int| zero));
        }
        let f_hlp = crate::boundary::copy_cell(&f);
        Solver { grid, bcs: Handler::new(), f, f_hlp }
    }

    /// The current value of velocity `n` at cell `c`.
    pub fn f_ref(&self, c: Idx, n: D2Q9) -> (r: T)
        requires
            self.wf(),
            c.0 < self.grid.cells(),
        ensures
            r == self.f@[c.0 * LATTICE_SIZE + n.index()],
    {
        self.f[c.0 * LATTICE_SIZE + n.value()]
    }

    /// The current values of cell `c`, in canonical order.
    pub fn distribution(&self, c: Idx) -> (r: Vec<T>)
        requires
            self.wf(),
            c.0 < self.grid.cells(),
        ensures
            r@ == cell(self.f@, c.0 as int),
    {
        read_cell(&self.f, c.0)
    }

    /// Whether cell `c` lies in a bounce-back region.
    pub fn solid_boundary(&self, c: Idx) -> (r: bool)
        requires
            self.wf(),
        ensures
            r == solid(self.bcs@, coord::<T>(self.grid, c.0 as int)),
    {
        let x = self.grid.x(c);
        assert(x == coord::<T>(self.grid, c.0 as int));
        self.bcs.solid_boundary(x)
    }

    /// Sets every cell to the values that `init` gives for its coordinates.
    pub fn initialize<F: Fn(X) -> Vec<T>>(&mut self, init: &F)
        requires
            old(self).wf(),
            forall|x: X| init.requires((x,)),
            forall|x: X, v: Vec<T>| init.ensures((x,), v) ==> v@.len() == LATTICE_SIZE,
        ensures
            final(self).wf(),
            final(self).grid == old(self).grid,
            final(self).bcs@ == old(self).bcs@,
            final(self).f_hlp@ == old(self).f_hlp@,
            forall|c: int|
                0 <= c < final(self).grid.cells() ==> #[trigger] initialized_cell(
                    *init,
                    final(self).grid,
                    final(self).f@,
                    c,
                ),
    {
        let n = self.grid.size();
        let mut c: usize = 0;
        while c < n
            invariant
                self.wf(),
                self.grid == old(self).grid,
                self.bcs@ == old(self).bcs@,
                self.f_hlp@ == old(self).f_hlp@,
                n == self.grid.cells(),
                c <= n,
                forall|x: X| init.requires((x,)),
                forall|x: X, v: Vec<T>| init.ensures((x,), v) ==> v@.len() == LATTICE_SIZE,
                forall|d: int|
                    0 <= d < c ==> #[trigger] initialized_cell(*init, self.grid, self.f@, d),
            decreases n - c,
        {
            let x = self.grid.x(Idx(c));
            assert(x == coord::<T>(self.grid, c as int));
            let v = init(x);
            let ghost before = self.f@;
            write_cell(&mut self.f, c, &v);
            proof {
                lemma_other_cells(before, self.f@, c as int);
                assert forall|d: int| 0 <= d < c + 1 implies #[trigger] initialized_cell(
                    *init,
                    self.grid,
                    self.f@,
                    d,
                ) by {
                    if d < c {
                        assert(cell(self.f@, d) == cell(before, d));
                        assert(initialized_cell(*init, self.grid, before, d));
                    } else {
                        assert(init.ensures((coord::<T>(self.grid, d),), v));
                    }
                }
            }
            c = c + 1;
        }
    }

    /// Streaming phase: every cell gathers, for each velocity `n`, the current
    /// value of `n` at its neighbour in the direction of `n`.
    pub fn streaming(&mut self)
        requires
            old(self).wf(),
        ensures
            final(self).wf(),
            final(self).grid == old(self).grid,
            final(self).bcs@ == old(self).bcs@,
            final(self).f@ == old(self).f@,
            forall|c: int, n: D2Q9|
                0 <= c < old(self).grid.cells() ==> #[trigger] final(self).f_hlp@[slot(c, n)]
                    == old(self).f@[slot(old(self).grid.neighbor_of(c, n), n)],
    {
        let cells = self.grid.size();
        let mut c: usize = 0;
        while c < cells
            invariant
                self.wf(),
                self.grid == old(self).grid,
                self.bcs@ == old(self).bcs@,
                self.f@ == old(self).f@,
                cells == self.grid.cells(),
                c <= cells,
                forall|c2: int, n: D2Q9|
                    0 <= c2 < c ==> #[trigger] self.f_hlp@[slot(c2, n)] == self.f@[slot(
                        self.grid.neighbor_of(c2, n),
                        n,
                    )],
            decreases cells - c,
        {
            let mut i: usize = 0;
            while i < LATTICE_SIZE
                invariant
                    self.wf(),
                    self.grid == old(self).grid,
                    self.bcs@ == old(self).bcs@,
                    self.f@ == old(self).f@,
                    cells == self.grid.cells(),
                    c < cells,
                    i <= LATTICE_SIZE,
                    forall|c2: int, n: D2Q9|
                        0 <= c2 < c ==> #[trigger] self.f_hlp@[slot(c2, n)] == self.f@[slot(
                            self.grid.neighbor_of(c2, n),
                            n,
                        )],
                    forall|n: D2Q9|
                        n.index() < i ==> #[trigger] self.f_hlp@[slot(c as int, n)] == self.f@[slot(
                            self.grid.neighbor_of(c as int, n),
                            n,
                        )],
                decreases LATTICE_SIZE - i,
            {
                let n = D2Q9::new(i);
                let nb = self.grid.neighbor(Idx(c), n);
                let v = self.f[nb.0 * LATTICE_SIZE + n.value()];
                self.f_hlp.set(c * LATTICE_SIZE + n.value(), v);
                proof {
                    assert forall|m: D2Q9| m.index() < i + 1 implies #[trigger] self.f_hlp@[slot(
                        c as int,
                        m,
                    )] == self.f@[slot(self.grid.neighbor_of(c as int, m), m)] by {
                        if m.index() == i {
                            crate::lattice::lemma_index_at(m);
                        }
                    }
                }
                i = i + 1;
            }
            proof {
                assert forall|c2: int, n: D2Q9| 0 <= c2 < c + 1 implies #[trigger] self.f_hlp@[slot(
                    c2,
                    n,
                )] == self.f@[slot(self.grid.neighbor_of(c2, n), n)] by {
                    crate::lattice::lemma_index_at(n);
                }
            }
            c = c + 1;
        }
    }

    /// Collision phase: every cell that no bounce-back condition holds gets
    /// what `op` makes of its streamed values; the other cells keep theirs.
    pub fn collision<F: Fn(Vec<T>) -> Vec<T>>(&mut self, op: &F)
        requires
            old(self).wf(),
            forall|v: Vec<T>| op.requires((v,)),
            forall|v: Vec<T>, w: Vec<T>| op.ensures((v,), w) ==> w@.len() == LATTICE_SIZE,
        ensures
            final(self).wf(),
            final(self).grid == old(self).grid,
            final(self).bcs@ == old(self).bcs@,
            final(self).f_hlp@ == old(self).f_hlp@,
            forall|c: int|
                0 <= c < old(self).grid.cells() ==> #[trigger] collided_cell(
                    *op,
                    old(self).bcs@,
                    old(self).grid,
                    old(self).f_hlp@,
                    old(self).f@,
                    final(self).f@,
                    c,
                ),
    {
        let cells = self.grid.size();
        let mut c: usize = 0;
        while c < cells
            invariant
                self.wf(),
                self.grid == old(self).grid,
                self.bcs@ == old(self).bcs@,
                self.f_hlp@ == old(self).f_hlp@,
                self.f@.len() == old(self).f@.len(),
                cells == self.grid.cells(),
                c <= cells,
                forall|v: Vec<T>| op.requires((v,)),
                forall|v: Vec<T>, w: Vec<T>| op.ensures((v,), w) ==> w@.len() == LATTICE_SIZE,
                forall|d: int|
                    0 <= d < c ==> #[trigger] collided_cell(
                        *op,
                        self.bcs@,
                        self.grid,
                        self.f_hlp@,
                        old(self).f@,
                        self.f@,
                        d,
                    ),
                forall|d: int| c <= d < cells ==> #[trigger] cell(self.f@, d) == cell(old(self).f@, d),
            decreases cells - c,
        {
            if !self.solid_boundary(Idx(c)) {
                let v = read_cell(&self.f_hlp, c);
                let w = op(v);
                let ghost before = self.f@;
                write_cell(&mut self.f, c, &w);
                proof {
                    lemma_other_cells(before, self.f@, c as int);
                    assert forall|d: int| 0 <= d < c implies #[trigger] collided_cell(
                        *op,
                        self.bcs@,
                        self.grid,
                        self.f_hlp@,
                        old(self).f@,
                        self.f@,
                        d,
                    ) by {
                        assert(cell(self.f@, d) == cell(before, d));
                        assert(collided_cell(
                            *op,
                            self.bcs@,
                            self.grid,
                            self.f_hlp@,
                            old(self).f@,
                            before,
                            d,
                        ));
                        if !solid(self.bcs@, coord::<T>(self.grid, d)) {
                            let (v1, w1) = choose|v1: Vec<T>, w1: Vec<T>|
                                v1@ == cell(self.f_hlp@, d) && #[trigger] op.ensures((v1,), w1)
                                    && cell(before, d) == w1@;
                            assert(op.ensures((v1,), w1));
                        }
                    }
                    assert(op.ensures((v,), w));
                }
            } else {
                assert(cell(self.f@, c as int) == cell(old(self).f@, c as int));
            }
            c = c + 1;
        }
    }

    /// Boundary phase: every cell that a condition holds gets what the
    /// conditions make of its current and streamed values, with `transfer`
    /// moving the mass of each inflow; the other cells keep their values.
    pub fn apply_boundary_conditions<F: Fn(T, T, T, T, u8) -> (T, T)>(&mut self, transfer: &F)
        requires
            old(self).wf(),
            forall|args: (T, T, T, T, u8)| transfer.requires(args),
        ensures
            final(self).wf(),
            final(self).grid == old(self).grid,
            final(self).bcs@ == old(self).bcs@,
            final(self).f_hlp@ == old(self).f_hlp@,
            forall|c: int|
                0 <= c < old(self).grid.cells() ==> #[trigger] bounded_cell(
                    *transfer,
                    old(self).bcs@,
                    old(self).grid,
                    old(self).f_hlp@,
                    old(self).f@,
                    final(self).f@,
                    c,
                ),
    {
        let cells = self.grid.size();
        let mut c: usize = 0;
        while c < cells
            invariant
                self.wf(),
                self.grid == old(self).grid,
                self.bcs@ == old(self).bcs@,
                self.f_hlp@ == old(self).f_hlp@,
                self.f@.len() == old(self).f@.len(),
                cells == self.grid.cells(),
                c <= cells,
                forall|args: (T, T, T, T, u8)| transfer.requires(args),
                forall|d: int|
                    0 <= d < c ==> #[trigger] bounded_cell(
                        *transfer,
                        self.bcs@,
                        self.grid,
                        self.f_hlp@,
                        old(self).f@,
                        self.f@,
                        d,
                    ),
                forall|d: int| c <= d < cells ==> #[trigger] cell(self.f@, d) == cell(old(self).f@, d),
            decreases cells - c,
        {
            let x = self.grid.x(Idx(c));
            assert(x == coord::<T>(self.grid, c as int));
            let current = read_cell(&self.f, c);
            let streamed = read_cell(&self.f_hlp, c);
            let r = self.bcs.apply(&current, &streamed, transfer, x);
            assert(current@ == cell(old(self).f@, c as int));
            match r {
                Some(v) => {
                    let ghost before = self.f@;
                    write_cell(&mut self.f, c, &v);
                    proof {
                        lemma_other_cells(before, self.f@, c as int);
                        assert forall|d: int| 0 <= d < c implies #[trigger] bounded_cell(
                            *transfer,
                            self.bcs@,
                            self.grid,
                            self.f_hlp@,
                            old(self).f@,
                            self.f@,
                            d,
                        ) by {
                            assert(cell(self.f@, d) == cell(before, d));
                            assert(bounded_cell(
                                *transfer,
                                self.bcs@,
                                self.grid,
                                self.f_hlp@,
                                old(self).f@,
                                before,
                                d,
                            ));
                            let r1 = choose|r1: Option<Seq<T>>|
                                #[trigger] outcome(
                                    self.bcs@,
                                    coord::<T>(self.grid, d),
                                    cell(old(self).f@, d),
                                    cell(self.f_hlp@, d),
                                    *transfer,
                                    r1,
                                ) && cell(before, d) == match r1 {
                                    Some(v) => v,
                                    None => cell(old(self).f@, d),
                                };
                            assert(outcome(
                                self.bcs@,
                                coord::<T>(self.grid, d),
                                cell(old(self).f@, d),
                                cell(self.f_hlp@, d),
                                *transfer,
                                r1,
                            ));
                        }
                        assert(outcome(
                            self.bcs@,
                            x,
                            current@,
                            streamed@,
                            *transfer,
                            Some(v@),
                        ));
                    }
                },
                None => {
                    assert(outcome(self.bcs@, x, current@, streamed@, *transfer, None));
                },
            }
            c = c + 1;
        }
    }
}

/// On a grid without boundary conditions, a uniform field `u` that the
/// collision operator maps to itself stays the same through a whole step:
/// streaming `f` into `h`, colliding into `f2` and applying boundaries into `f3`.
pub proof fn lemma_uniform_field_is_steady<
    T,
    F: Fn(Vec<T>) -> Vec<T>,
    G: Fn(T, T, T, T, u8) -> (T, T),
>(
    g: StructuredRectangular,
    conds: Seq<Condition<T>>,
    op: F,
    transfer: G,
    u: Seq<T>,
    f: Seq<T>,
    h: Seq<T>,
    f2: Seq<T>,
    f3: Seq<T>,
)
    requires
        g.wf(),
        conds.len() == 0,
        u.len() == LATTICE_SIZE,
        f.len() == g.cells() * LATTICE_SIZE,
        h.len() == g.cells() * LATTICE_SIZE,
        forall|c: int| 0 <= c < g.cells() ==> #[trigger] cell(f, c) == u,
        forall|v: Vec<T>, w: Vec<T>| v@ == u && #[trigger] op.ensures((v,), w) ==> w@ == u,
        forall|c: int, n: D2Q9|
            0 <= c < g.cells() ==> #[trigger] h[slot(c, n)] == f[slot(g.neighbor_of(c, n), n)],
        forall|c: int| 0 <= c < g.cells() ==> #[trigger] collided_cell(op, conds, g, h, f, f2, c),
        forall|c: int|
            0 <= c < g.cells() ==> #[trigger] bounded_cell(transfer, conds, g, h, f2, f3, c),
    ensures
        forall|c: int| 0 <= c < g.cells() ==> #[trigger] cell(f3, c) == u,
{
    assert forall|c: int| 0 <= c < g.cells() implies #[trigger] cell(h, c) == u by {
        assert forall|j: int| 0 <= j < LATTICE_SIZE implies #[trigger] cell(h, c)[j] == u[j] by {
            let n = D2Q9::at(j);
            assert(n.index() == j);
            g.lemma_neighbor_round_trip(c, n);
            let m = g.neighbor_of(c, n);
            assert(cell(f, m) == u);
            assert(h[slot(c, n)] == f[slot(m, n)]);
            assert(cell(f, m)[j] == f[slot(m, n)]);
        }
        assert(cell(h, c) =~= u);
    }
    assert forall|c: int| 0 <= c < g.cells() implies #[trigger] cell(f2, c) == u by {
        assert(collided_cell(op, conds, g, h, f, f2, c));
        assert(!solid(conds, coord::<T>(g, c)));
        let (v, w) = choose|v: Vec<T>, w: Vec<T>|
            v@ == cell(h, c) && #[trigger] op.ensures((v,), w) && cell(f2, c) == w@;
        assert(op.ensures((v,), w));
    }
    assert forall|c: int| 0 <= c < g.cells() implies #[trigger] cell(f3, c) == u by {
        assert(bounded_cell(transfer, conds, g, h, f2, f3, c));
        assert(crate::boundary::plan(conds, coord::<T>(g, c), 0) is None);
        let r = choose|r: Option<Seq<T>>|
            #[trigger] outcome(conds, coord::<T>(g, c), cell(f2, c), cell(h, c), transfer, r)
                && cell(f3, c) == match r {
                Some(v) => v,
                None => cell(f2, c),
            };
        assert(outcome(conds, coord::<T>(g, c), cell(f2, c), cell(h, c), transfer, r));
        assert(cell(f2, c) == u);
    }
}

} // verus!
