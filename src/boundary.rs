//! Boundary conditions and the order-dependent rule that composes them.
use vstd::prelude::*;

use crate::geometry::{Geometry, Shape};
use crate::grid::X;
use crate::lattice::{D2Q9, LATTICE_SIZE};

verus! {

/// The kind of a boundary condition.
#[derive(Clone, Copy, Debug)]
pub enum Type<T> {
    /// No-slip wall: every component is replaced by the reflected streamed one.
    BounceBack,
    /// Forced inflow of the given density and acceleration.
    Inflow(T, T),
}

/// A boundary condition: a kind applied on a region.
#[derive(Clone, Copy, Debug)]
pub struct Condition<T> {
    pub condition: Type<T>,
    pub geometry: Shape,
}

impl<T: Copy> Condition<T> {
    /// The condition of kind `c` on the region `g`.
    pub fn new(c: Type<T>, g: Shape) -> (r: Condition<T>)
        ensures
            r.condition == c,
            r.geometry == g,
    {
        Condition { condition: c, geometry: g }
    }
}

/// The distribution of a bounce-back cell: component `n` is the streamed
/// value of the opposite velocity.
pub open spec fn reflected<T>(streamed: Seq<T>) -> Seq<T> {
    Seq::new(LATTICE_SIZE as nat, |i: int| streamed[D2Q9::at(i).reverse().index() as int])
}

/// `r` is the distribution `s` after one forced-inflow step of density `d`
/// and acceleration `a`, where `transfer` moves mass along a pair of opposite
/// velocities (from the westward one to the eastward one, given the weight of
/// the westward one). The rest, north and south components stay.
pub open spec fn inflow_step<T, F: Fn(T, T, T, T, u8) -> (T, T)>(
    transfer: F,
    s: Seq<T>,
    d: T,
    a: T,
    r: Seq<T>,
) -> bool {
    let (c, e, n, w, so) = (0int, 1int, 2int, 3int, 4int);
    let (ne, nw, sw, se) = (5int, 6int, 7int, 8int);
    &&& s.len() == LATTICE_SIZE
    &&& r.len() == LATTICE_SIZE
    &&& r[c] == s[c]
    &&& r[n] == s[n]
    &&& r[so] == s[so]
    &&& transfer.ensures((s[w], s[e], d, a, 4u8), (r[w], r[e]))
    &&& transfer.ensures((s[nw], s[se], d, a, 1u8), (r[nw], r[se]))
    &&& transfer.ensures((s[sw], s[ne], d, a, 1u8), (r[sw], r[ne]))
}

/// `r` is `s0` after the forced-inflow steps `steps`, in order: some sequence
/// of intermediate distributions leads from `s0` to `r`, one step at a time.
pub open spec fn inflow_chain<T, F: Fn(T, T, T, T, u8) -> (T, T)>(
    transfer: F,
    s0: Seq<T>,
    steps: Seq<(T, T)>,
    r: Seq<T>,
) -> bool {
    exists|ms: Seq<Seq<T>>| #[trigger] chain_through(transfer, s0, steps, r, ms)
}

/// `ms` lists the distributions from `s0` to `r` through the inflow steps `steps`.
pub open spec fn chain_through<T, F: Fn(T, T, T, T, u8) -> (T, T)>(
    transfer: F,
    s0: Seq<T>,
    steps: Seq<(T, T)>,
    r: Seq<T>,
    ms: Seq<Seq<T>>,
) -> bool {
    &&& ms.len() == steps.len() + 1
    &&& ms[0] == s0
    &&& ms.last() == r
    &&& forall|i: int|
        0 <= i < steps.len() ==> inflow_step(
            transfer,
            #[trigger] ms[i],
            steps[i].0,
            steps[i].1,
            ms[i + 1],
        )
}

/// What the first `k` conditions make of a cell at `x`: nothing when none of
/// them holds the cell; otherwise whether the result starts from the reflected
/// streamed values (a bounce-back condition held it, the last of them wins) or
/// from the current values, and the inflows applied after that start, in order.
pub open spec fn plan<T>(conds: Seq<Condition<T>>, x: X, k: int) -> Option<(bool, Seq<(T, T)>)>
    decreases k,
{
    if k <= 0 {
        None
    } else {
        let p = plan(conds, x, k - 1);
        let c = conds[k - 1];
        if !c.geometry.holds(x) {
            p
        } else {
            match c.condition {
                Type::BounceBack => Some((true, Seq::empty())),
                Type::Inflow(d, a) => match p {
                    None => Some((false, seq![(d, a)])),
                    Some((b, steps)) => Some((b, steps.push((d, a)))),
                },
            }
        }
    }
}

/// `r` is what the conditions `conds` make of the cell at `x` whose current
/// values are `current` and whose streamed values are `streamed`.
pub open spec fn outcome<T, F: Fn(T, T, T, T, u8) -> (T, T)>(
    conds: Seq<Condition<T>>,
    x: X,
    current: Seq<T>,
    streamed: Seq<T>,
    transfer: F,
    r: Option<Seq<T>>,
) -> bool {
    match plan(conds, x, conds.len() as int) {
        None => r is None,
        Some((b, steps)) => r matches Some(v) && inflow_chain(
            transfer,
            if b {
                reflected(streamed)
            } else {
                current
            },
            steps,
            v,
        ),
    }
}

/// The values held by an optional vector.
pub open spec fn seq_of<T>(r: Option<Vec<T>>) -> Option<Seq<T>> {
    match r {
        Some(v) => Some(v@),
        None => None,
    }
}

/// One more inflow step extends a chain of them.
proof fn lemma_chain_extend<T, F: Fn(T, T, T, T, u8) -> (T, T)>(
    transfer: F,
    s0: Seq<T>,
    steps: Seq<(T, T)>,
    m: Seq<T>,
    d: T,
    a: T,
    r: Seq<T>,
)
    requires
        inflow_chain(transfer, s0, steps, m),
        inflow_step(transfer, m, d, a, r),
    ensures
        inflow_chain(transfer, s0, steps.push((d, a)), r),
{
    let ms = choose|ms: Seq<Seq<T>>| #[trigger] chain_through(transfer, s0, steps, m, ms);
    let ms2 = ms.push(r);
    assert forall|i: int| 0 <= i < steps.len() + 1 implies inflow_step(
        transfer,
        #[trigger] ms2[i],
        steps.push((d, a))[i].0,
        steps.push((d, a))[i].1,
        ms2[i + 1],
    ) by {
        if i < steps.len() {
            assert(ms2[i] == ms[i]);
            assert(ms2[i + 1] == ms[i + 1]);
        }
    }
    assert(chain_through(transfer, s0, steps.push((d, a)), r, ms2));
}

/// No inflow step leaves a distribution as it is.
proof fn lemma_chain_empty<T, F: Fn(T, T, T, T, u8) -> (T, T)>(transfer: F, s0: Seq<T>)
    ensures
        inflow_chain(transfer, s0, Seq::empty(), s0),
{
    assert(chain_through(transfer, s0, Seq::empty(), s0, seq![s0]));
}

/// A bounce-back condition holds the cell at `x`.
pub open spec fn solid<T>(conds: Seq<Condition<T>>, x: X) -> bool {
    exists|i: int|
        0 <= i < conds.len() && (#[trigger] conds[i]).geometry.holds(x) && conds[i].condition is BounceBack
}

/// Some condition among the first `k` holds the cell at `x`.
pub open spec fn any_holds<T>(conds: Seq<Condition<T>>, x: X, k: int) -> bool {
    exists|i: int| 0 <= i < k && (#[trigger] conds[i]).geometry.holds(x)
}

/// The distribution of a bounce-back cell: component `n` is `streamed[opposite(n)]`.
pub fn reflect<T: Copy>(streamed: &Vec<T>) -> (r: Vec<T>)
    requires
        streamed@.len() == LATTICE_SIZE,
    ensures
        r@ == reflected(streamed@),
{
    let mut r: Vec<T> = Vec::new();
    let mut i: usize = 0;
    while i < LATTICE_SIZE
        invariant
            i <= LATTICE_SIZE,
            streamed@.len() == LATTICE_SIZE,
            r@.len() == i,
            forall|k: int| 0 <= k < i ==> #[trigger] r@[k] == reflected(streamed@)[k],
        decreases LATTICE_SIZE - i,
    {
        let n = D2Q9::new(i);
        r.push(streamed[n.opposite().value()]);
        i = i + 1;
    }
    assert(r@ =~= reflected(streamed@));
    r
}

/// A copy of the values of a cell.
pub fn copy_cell<T: Copy>(v: &Vec<T>) -> (r: Vec<T>)
    ensures
        r@ == v@,
{
    let mut r: Vec<T> = Vec::new();
    let mut i: usize = 0;
    while i < v.len()
        invariant
            i <= v@.len(),
            r@ == v@.subrange(0, i as int),
        decreases v@.len() - i,
    {
        r.push(v[i]);
        i = i + 1;
        assert(r@ =~= v@.subrange(0, i as int));
    }
    assert(r@ =~= v@);
    r
}

/// Moves mass of one forced-inflow step along the pairs W to E, NW to SE and
/// SW to NE; the rest, north and south components stay.
fn inflow<T: Copy, F: Fn(T, T, T, T, u8) -> (T, T)>(s: Vec<T>, d: T, a: T, transfer: &F) -> (r:
    Vec<T>)
    requires
        s@.len() == LATTICE_SIZE,
        forall|args: (T, T, T, T, u8)| transfer.requires(args),
    ensures
        inflow_step(*transfer, s@, d, a, r@),
{
    let mut r = s;
    let w = D2Q9::W.value();
    let e = D2Q9::E.value();
    let (rw, re) = transfer(r[w], r[e], d, a, D2Q9::W.weight36());
    r.set(w, rw);
    r.set(e, re);
    let nw = D2Q9::NW.value();
    let se = D2Q9::SE.value();
    let (rnw, rse) = transfer(r[nw], r[se], d, a, D2Q9::NW.weight36());
    r.set(nw, rnw);
    r.set(se, rse);
    let sw = D2Q9::SW.value();
    let ne = D2Q9::NE.value();
    let (rsw, rne) = transfer(r[sw], r[ne], d, a, D2Q9::SW.weight36());
    r.set(sw, rsw);
    r.set(ne, rne);
    r
}

/// An ordered list of boundary conditions.
pub struct Handler<T> {
    boundary_conditions: Vec<Condition<T>>,
}

impl<T: Copy> View for Handler<T> {
    type V = Seq<Condition<T>>;

    closed spec fn view(&self) -> Seq<Condition<T>> {
        self.boundary_conditions@
    }
}

impl<T: Copy> Handler<T> {
    /// Every region of the list can be asked whether it holds a cell.
    pub open spec fn wf(&self) -> bool {
        forall|i: int| 0 <= i < self@.len() ==> (#[trigger] self@[i]).geometry.valid()
    }

    /// The empty list.
    pub fn new() -> (r: Handler<T>)
        ensures
            r@ == Seq::<Condition<T>>::empty(),
            r.wf(),
    {
        Handler { boundary_conditions: Vec::new() }
    }

    /// Appends `bc` at the end of the list.
    pub fn push(&mut self, bc: Condition<T>)
        requires
            old(self).wf(),
            bc.geometry.valid(),
        ensures
            final(self)@ == old(self)@.push(bc),
            final(self).wf(),
    {
        self.boundary_conditions.push(bc);
    }

    /// Whether a bounce-back condition holds the cell at `x`.
    pub fn solid_boundary(&self, x: X) -> (r: bool)
        requires
            self.wf(),
        ensures
            r == solid(self@, x),
    {
        let mut i: usize = 0;
        while i < self.boundary_conditions.len()
            invariant
                self.wf(),
                i <= self@.len(),
                forall|k: int|
                    0 <= k < i ==> !((#[trigger] self@[k]).geometry.holds(x)
                        && self@[k].condition is BounceBack),
            decreases self@.len() - i,
        {
            let bc = &self.boundary_conditions[i];
            if bc.geometry.contains(x) && matches!(bc.condition, Type::BounceBack) {
                return true;
            }
            i = i + 1;
        }
        false
    }

    /// Position of the first condition that holds the cell at `x`, if any.
    pub fn idx(&self, x: X) -> (r: Option<usize>)
        requires
            self.wf(),
        ensures
            r matches Some(i) ==> i < self@.len() && self@[i as int].geometry.holds(x)
                && !any_holds(self@, x, i as int),
            r is None <==> !any_holds(self@, x, self@.len() as int),
    {
        let mut i: usize = 0;
        while i < self.boundary_conditions.len()
            invariant
                self.wf(),
                i <= self@.len(),
                !any_holds(self@, x, i as int),
            decreases self@.len() - i,
        {
            if self.boundary_conditions[i].geometry.contains(x) {
                return Some(i);
            }
            i = i + 1;
        }
        None
    }

    /// The new values of the cell at `x`, or `None` when no condition holds
    /// it. The conditions that hold the cell act in list order on a running
    /// result: a bounce-back replaces it with the reflected `streamed` values;
    /// an inflow starts it from `current` when there is none yet and then
    /// moves mass with `transfer` along the pairs W to E, NW to SE and SW to NE.
    pub fn apply<F: Fn(T, T, T, T, u8) -> (T, T)>(
        &self,
        current: &Vec<T>,
        streamed: &Vec<T>,
        transfer: &F,
        x: X,
    ) -> (r: Option<Vec<T>>)
        requires
            self.wf(),
            current@.len() == LATTICE_SIZE,
            streamed@.len() == LATTICE_SIZE,
            forall|args: (T, T, T, T, u8)| transfer.requires(args),
        ensures
            outcome(self@, x, current@, streamed@, *transfer, seq_of(r)),
            r matches Some(v) ==> v@.len() == LATTICE_SIZE,
    {
        let mut r: Option<Vec<T>> = None;
        let mut i: usize = 0;
        while i < self.boundary_conditions.len()
            invariant
                self.wf(),
                i <= self@.len(),
                current@.len() == LATTICE_SIZE,
                streamed@.len() == LATTICE_SIZE,
                forall|args: (T, T, T, T, u8)| transfer.requires(args),
                r matches Some(v) ==> v@.len() == LATTICE_SIZE,
                match plan(self@, x, i as int) {
                    None => r is None,
                    Some((b, steps)) => r matches Some(v) && inflow_chain(
                        *transfer,
                        if b {
                            reflected(streamed@)
                        } else {
                            current@
                        },
                        steps,
                        v@,
                    ),
                },
            decreases self@.len() - i,
        {
            let bc = &self.boundary_conditions[i];
            if bc.geometry.contains(x) {
                match bc.condition {
                    Type::BounceBack => {
                        let v = reflect(streamed);
                        proof {
                            lemma_chain_empty(*transfer, v@);
                        }
                        r = Some(v);
                    },
                    Type::Inflow(density, accel) => {
                        let s = match r {
                            Some(s) => s,
                            None => copy_cell(current),
                        };
                        let s2 = inflow(s, density, accel, transfer);
                        proof {
                            let p = plan(self@, x, i as int);
                            let (b0, steps0) = match p {
                                Some((b, st)) => (b, st),
                                None => (false, Seq::empty()),
                            };
                            let steps = steps0.push((density, accel));
                            let base = if b0 {
                                reflected(streamed@)
                            } else {
                                current@
                            };
                            if p is None {
                                lemma_chain_empty(*transfer, current@);
                            }
                            assert(inflow_chain(*transfer, base, steps0, s@));
                            lemma_chain_extend(*transfer, base, steps0, s@, density, accel, s2@);
                            if p is None {
                                assert(steps =~= seq![(density, accel)]);
                            }
                        }
                        r = Some(s2);
                    },
                }
            }
            i = i + 1;
        }
        r
    }
}

/// The last condition that holds a cell decides it when it is a bounce-back:
/// every component `n` of the result is the streamed value of `opposite(n)`.
pub proof fn lemma_bounce_back_reflects<T, F: Fn(T, T, T, T, u8) -> (T, T)>(
    conds: Seq<Condition<T>>,
    x: X,
    current: Seq<T>,
    streamed: Seq<T>,
    transfer: F,
    r: Option<Seq<T>>,
    k: int,
)
    requires
        0 <= k < conds.len(),
        conds[k].geometry.holds(x),
        conds[k].condition is BounceBack,
        forall|j: int| k < j < conds.len() ==> !(#[trigger] conds[j]).geometry.holds(x),
        streamed.len() == LATTICE_SIZE,
        outcome(conds, x, current, streamed, transfer, r),
    ensures
        r matches Some(v) && v.len() == LATTICE_SIZE && forall|n: D2Q9|
            #[trigger] v[n.index() as int] == streamed[n.reverse().index() as int],
{
    lemma_plan_after_bounce_back(conds, x, k, conds.len() as int);
    let v = r->0;
    assert(v == reflected(streamed));
    assert forall|n: D2Q9| #[trigger] v[n.index() as int] == streamed[n.reverse().index() as int] by {
        crate::lattice::lemma_index_at(n);
    }
}

/// After a bounce-back condition that holds the cell, followed only by
/// conditions that do not, the plan is the reflection with no inflow.
proof fn lemma_plan_after_bounce_back<T>(conds: Seq<Condition<T>>, x: X, k: int, m: int)
    requires
        0 <= k < m <= conds.len(),
        conds[k].geometry.holds(x),
        conds[k].condition is BounceBack,
        forall|j: int| k < j < conds.len() ==> !(#[trigger] conds[j]).geometry.holds(x),
    ensures
        plan(conds, x, m) == Some((true, Seq::<(T, T)>::empty())),
    decreases m,
{
    if m > k + 1 {
        lemma_plan_after_bounce_back(conds, x, k, m - 1);
        assert(!conds[m - 1].geometry.holds(x));
    }
}

/// A cell that exactly one condition holds, an inflow of density `d` and
/// acceleration `a`, gets one inflow step from its current values: the rest,
/// north and south components stay, and `transfer` moves mass from W to E,
/// from NW to SE and from SW to NE.
pub proof fn lemma_single_inflow<T, F: Fn(T, T, T, T, u8) -> (T, T)>(
    conds: Seq<Condition<T>>,
    x: X,
    current: Seq<T>,
    streamed: Seq<T>,
    transfer: F,
    r: Option<Seq<T>>,
    k: int,
    d: T,
    a: T,
)
    requires
        0 <= k < conds.len(),
        conds[k].geometry.holds(x),
        conds[k].condition == Type::Inflow(d, a),
        forall|j: int| 0 <= j < conds.len() && j != k ==> !(#[trigger] conds[j]).geometry.holds(x),
        outcome(conds, x, current, streamed, transfer, r),
    ensures
        r matches Some(v) && inflow_step(transfer, current, d, a, v),
{
    lemma_plan_single(conds, x, k, d, a, conds.len() as int);
    let v = r->0;
    let ms = choose|ms: Seq<Seq<T>>| #[trigger] chain_through(transfer, current, seq![(d, a)], v, ms);
    assert(ms[0] == current);
    assert(ms[1] == v);
    assert(inflow_step(transfer, ms[0int], seq![(d, a)][0int].0, seq![(d, a)][0int].1, ms[0int + 1]));
}

/// With one inflow condition holding the cell and no other, the plan is
/// that inflow from the current values.
proof fn lemma_plan_single<T>(conds: Seq<Condition<T>>, x: X, k: int, d: T, a: T, m: int)
    requires
        0 <= k < conds.len(),
        0 <= m <= conds.len(),
        conds[k].geometry.holds(x),
        conds[k].condition == Type::Inflow(d, a),
        forall|j: int| 0 <= j < conds.len() && j != k ==> !(#[trigger] conds[j]).geometry.holds(x),
    ensures
        m <= k ==> plan(conds, x, m) is None,
        m > k ==> plan(conds, x, m) == Some((false, seq![(d, a)])),
    decreases m,
{
    if m > 0 {
        lemma_plan_single(conds, x, k, d, a, m - 1);
        if m - 1 != k {
            assert(!conds[m - 1].geometry.holds(x));
        }
    }
}

} // verus!
