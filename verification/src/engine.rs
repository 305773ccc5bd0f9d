use vstd::prelude::*;

use crate::cell::{context_vector_of, devectorize_spec, Cell};
use crate::grid::{area_model, grid_model_wf, Grid};
use crate::kernel::Kernel;
use crate::memory::{lemma_degenerate_retrieval, retrieve_spec, Retriever, TrainingPair};
use vstd::arithmetic::div_mod::{
    lemma_div_is_ordered, lemma_div_plus_one, lemma_fundamental_div_mod_converse,
};

verus! {

/// One full grid pass: every cell of the result is the retrieval for the
/// 24-component context vector of its toroidal 3x3 neighborhood in the old
/// grid.
pub open spec fn step_model(m: Seq<Seq<Cell>>, ps: Seq<TrainingPair>, k: Kernel) -> Seq<Seq<Cell>>
    recommends
        grid_model_wf(m),
        ps.len() >= 1,
{
    Seq::new(
        m.len(),
        |x: int|
            Seq::new(
                m[0].len(),
                |y: int| retrieve_spec(ps, k, context_vector_of(area_model(m, x, y))),
            ),
    )
}

/// `n` successive grid passes.
pub open spec fn iter_step(
    m: Seq<Seq<Cell>>,
    ps: Seq<TrainingPair>,
    k: Kernel,
    n: nat,
) -> Seq<Seq<Cell>>
    decreases n,
{
    if n == 0 {
        m
    } else {
        step_model(iter_step(m, ps, k, (n - 1) as nat), ps, k)
    }
}

/// The grid-evolution engine: two same-shaped toroidal grids whose roles
/// (`current`, `next`) exchange after every full pass, and a fixed-timestep
/// accumulator that decides when a pass is due. Time is counted in
/// microseconds.
pub struct Simulation {
    buf_a: Grid,
    buf_b: Grid,
    a_current: bool,
    acc: u64,
    timestep: u64,
}

impl Simulation {
    /// Both buffers well-formed and of identical shape, with a positive
    /// timestep and less than one timestep of unspent time.
    pub closed spec fn wf(self) -> bool {
        &&& self.buf_a.wf()
        &&& self.buf_b.wf()
        &&& self.buf_a.width == self.buf_b.width
        &&& self.buf_a.height == self.buf_b.height
        &&& self.timestep >= 1
        &&& self.acc < self.timestep
    }

    /// The grid the display reads: the buffer currently labeled `current`.
    pub closed spec fn current_model(self) -> Seq<Seq<Cell>> {
        if self.a_current {
            self.buf_a.model()
        } else {
            self.buf_b.model()
        }
    }

    /// The other buffer: the write target of the next pass.
    pub closed spec fn scratch_model(self) -> Seq<Seq<Cell>> {
        if self.a_current {
            self.buf_b.model()
        } else {
            self.buf_a.model()
        }
    }

    /// Which buffer identity holds the `current` role.
    pub closed spec fn a_is_current(self) -> bool {
        self.a_current
    }

    /// Unspent elapsed time, always less than one timestep.
    pub closed spec fn acc_spec(self) -> u64 {
        self.acc
    }

    pub closed spec fn timestep_spec(self) -> u64 {
        self.timestep
    }

    /// Start a simulation from a seeded grid: both buffers begin as copies
    /// of it, the time accumulator at zero.
    pub fn new(initial: Grid, timestep: u64) -> (s: Simulation)
        requires
            initial.wf(),
            timestep >= 1,
        ensures
            s.wf(),
            grid_model_wf(s.current_model()),
            s.current_model() == initial.model(),
            s.scratch_model() == initial.model(),
            s.a_is_current(),
            s.acc_spec() == 0,
            s.timestep_spec() == timestep,
    {
        let copy = initial.duplicate();
        proof {
            initial.lemma_model_wf();
        }
        Simulation { buf_a: initial, buf_b: copy, a_current: true, acc: 0, timestep }
    }

    /// Which of the two buffer identities holds the `current` role; it
    /// flips exactly once per pass.
    pub fn first_buffer_is_current(&self) -> (b: bool)
        ensures
            b == self.a_is_current(),
    {
        self.a_current
    }

    /// The grid to display.
    pub fn current(&self) -> (g: &Grid)
        requires
            self.wf(),
        ensures
            g.wf(),
            g.model() == self.current_model(),
    {
        if self.a_current {
            &self.buf_a
        } else {
            &self.buf_b
        }
    }

    /// One full pass: recompute every cell of the scratch buffer from the
    /// current one through the retriever, then exchange the two roles —
    /// exactly once, moving no cell data.
    pub fn step(&mut self, retriever: &Retriever)
        requires
            old(self).wf(),
            retriever.wf(),
        ensures
            final(self).wf(),
            final(self).current_model() == step_model(
                old(self).current_model(),
                retriever.memory@,
                retriever.kernel,
            ),
            final(self).scratch_model() == old(self).current_model(),
            final(self).a_is_current() == !old(self).a_is_current(),
            final(self).acc_spec() == old(self).acc_spec(),
            final(self).timestep_spec() == old(self).timestep_spec(),
    {
        if self.a_current {
            compute_step(&self.buf_a, &mut self.buf_b, retriever);
            self.a_current = false;
        } else {
            compute_step(&self.buf_b, &mut self.buf_a, retriever);
            self.a_current = true;
        }
    }

    /// Account `dt` of elapsed time and perform every pass that has come
    /// due: one per whole timestep accumulated. Returns how many ran.
    pub fn advance(&mut self, dt: u64, retriever: &Retriever) -> (steps: u64)
        requires
            old(self).wf(),
            retriever.wf(),
            old(self).acc_spec() + dt <= u64::MAX,
        ensures
            final(self).wf(),
            final(self).timestep_spec() == old(self).timestep_spec(),
            steps == (old(self).acc_spec() + dt) as int / old(self).timestep_spec() as int,
            final(self).acc_spec() + steps * old(self).timestep_spec() == old(self).acc_spec()
                + dt,
            final(self).acc_spec() < final(self).timestep_spec(),
            final(self).current_model() == iter_step(
                old(self).current_model(),
                retriever.memory@,
                retriever.kernel,
                steps as nat,
            ),
    {
        let ghost total = old(self).acc as int + dt;
        self.acc = self.acc + dt;
        let mut steps: u64 = 0;
        while self.acc >= self.timestep
            invariant
                self.buf_a.wf(),
                self.buf_b.wf(),
                self.buf_a.width == self.buf_b.width,
                self.buf_a.height == self.buf_b.height,
                self.timestep >= 1,
                retriever.wf(),
                self.timestep == old(self).timestep,
                self.acc + steps * self.timestep == total,
                steps <= total <= u64::MAX,
                self.current_model() == iter_step(
                    old(self).current_model(),
                    retriever.memory@,
                    retriever.kernel,
                    steps as nat,
                ),
            decreases self.acc,
        {
            compute_pass(self, retriever);
            self.acc = self.acc - self.timestep;
            proof {
                assert((steps + 1) * self.timestep == steps * self.timestep + self.timestep)
                    by (nonlinear_arith)
                ;
                assert(steps + 1 <= total) by (nonlinear_arith)
                    requires
                        self.timestep >= 1 && (steps + 1) * self.timestep <= total && steps >= 0,
                ;
            }
            steps = steps + 1;
        }
        proof {
            lemma_fundamental_div_mod_converse(
                total,
                self.timestep as int,
                steps as int,
                self.acc as int,
            );
        }
        steps
    }
}

/// One pass on a simulation known piecewise well-formed; keeps `advance`'s
/// loop free of the full `wf` (whose accumulator bound does not hold
/// mid-update).
fn compute_pass(s: &mut Simulation, retriever: &Retriever)
    requires
        old(s).buf_a.wf(),
        old(s).buf_b.wf(),
        old(s).buf_a.width == old(s).buf_b.width,
        old(s).buf_a.height == old(s).buf_b.height,
        old(s).timestep >= 1,
        retriever.wf(),
    ensures
        final(s).buf_a.wf(),
        final(s).buf_b.wf(),
        final(s).buf_a.width == final(s).buf_b.width,
        final(s).buf_a.height == final(s).buf_b.height,
        final(s).timestep == old(s).timestep,
        final(s).acc == old(s).acc,
        final(s).current_model() == step_model(
            old(s).current_model(),
            retriever.memory@,
            retriever.kernel,
        ),
        final(s).scratch_model() == old(s).current_model(),
        final(s).a_current == !old(s).a_current,
{
    if s.a_current {
        compute_step(&s.buf_a, &mut s.buf_b, retriever);
        s.a_current = false;
    } else {
        compute_step(&s.buf_b, &mut s.buf_a, retriever);
        s.a_current = true;
    }
}

/// Recompute every cell of `dst` from `src` through the retriever.
fn compute_step(src: &Grid, dst: &mut Grid, retriever: &Retriever)
    requires
        src.wf(),
        old(dst).wf(),
        old(dst).width == src.width,
        old(dst).height == src.height,
        retriever.wf(),
    ensures
        final(dst).wf(),
        final(dst).width == old(dst).width,
        final(dst).height == old(dst).height,
        final(dst).model() == step_model(src.model(), retriever.memory@, retriever.kernel),
{
    let ghost target = step_model(src.model(), retriever.memory@, retriever.kernel);
    proof {
        src.lemma_model_wf();
    }
    let mut x: usize = 0;
    while x < src.width
        invariant
            src.wf(),
            retriever.wf(),
            dst.wf(),
            dst.width == src.width,
            dst.height == src.height,
            target == step_model(src.model(), retriever.memory@, retriever.kernel),
            x <= src.width,
            forall|xi: int| 0 <= xi < x ==> dst.model()[xi] == target[xi],
        decreases src.width - x,
    {
        let mut y: usize = 0;
        while y < src.height
            invariant
                src.wf(),
                retriever.wf(),
                dst.wf(),
                dst.width == src.width,
                dst.height == src.height,
                target == step_model(src.model(), retriever.memory@, retriever.kernel),
                x < src.width,
                y <= src.height,
                forall|xi: int| 0 <= xi < x ==> dst.model()[xi] == target[xi],
                forall|yj: int| 0 <= yj < y ==> dst.model()[x as int][yj] == target[x as int][yj],
            decreases src.height - y,
        {
            let area = src.area_at(x, y);
            let q = area.vectorize();
            let c = retriever.get(&q);
            dst.set_cell(x, y, c);
            y = y + 1;
        }
        proof {
            assert(dst.model()[x as int] =~= target[x as int]);
        }
        x = x + 1;
    }
    proof {
        assert(dst.model() =~= target);
    }
}

/// Tick cadence law: starting under one timestep of unspent time, the
/// number of passes performed over an elapsed duration `dt` with timestep
/// `t` — as `advance` accounts it — is `dt / t`, give or take one.
pub proof fn lemma_tick_cadence(acc0: int, dt: int, t: int, steps: int, acc1: int)
    requires
        t >= 1,
        0 <= acc0 < t,
        0 <= acc1 < t,
        dt >= 0,
        acc1 + steps * t == acc0 + dt,
    ensures
        steps == (acc0 + dt) / t,
        dt / t <= steps <= dt / t + 1,
{
    lemma_fundamental_div_mod_converse(acc0 + dt, t, steps, acc1);
    lemma_div_is_ordered(dt, acc0 + dt, t);
    lemma_div_is_ordered(acc0 + dt, dt + t, t);
    lemma_div_plus_one(dt, t);
}

/// End-to-end single-pattern law: with exactly one trained pair, one pass
/// turns every cell of the written buffer into that pair's decoded target,
/// whatever grid it started from — degenerate retrieval applies grid-wide.
pub proof fn lemma_single_pattern_step(m: Seq<Seq<Cell>>, ps: Seq<TrainingPair>, k: Kernel)
    requires
        grid_model_wf(m),
        ps.len() == 1,
        ps[0].wf(),
        k.wf(),
    ensures
        forall|x: int, y: int|
            0 <= x < m.len() && 0 <= y < m[0].len() ==> step_model(m, ps, k)[x][y]
                == devectorize_spec(ps[0].target@),
{
    assert forall|x: int, y: int|
        0 <= x < m.len() && 0 <= y < m[0].len() implies step_model(m, ps, k)[x][y]
        == devectorize_spec(ps[0].target@) by {
        lemma_degenerate_retrieval(ps, k, context_vector_of(area_model(m, x, y)));
    }
}

} // verus!
