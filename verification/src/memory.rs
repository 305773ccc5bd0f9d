use vstd::prelude::*;

use crate::cell::{devectorize_spec, vec_wf, Area, Cell};
use crate::kernel::{lemma_weight_bounds, Kernel, WEIGHT_ONE};

verus! {

/// The squared Euclidean distance between the first `n` components of two
/// vectors, in squared units of 1/255.
pub open spec fn sq_dist_upto(a: Seq<u16>, b: Seq<u16>, n: nat) -> int
    recommends
        n <= a.len(),
        n <= b.len(),
    decreases n,
{
    if n == 0 {
        0
    } else {
        sq_dist_upto(a, b, (n - 1) as nat) + (a[n - 1] - b[n - 1]) * (a[n - 1] - b[n - 1])
    }
}

/// The squared Euclidean distance between two equal-length vectors.
pub open spec fn sq_dist_spec(a: Seq<u16>, b: Seq<u16>) -> int
    recommends
        a.len() == b.len(),
{
    sq_dist_upto(a, b, a.len())
}

/// The integer square root: the largest `r` with `r * r <= n`.
pub open spec fn isqrt_spec(n: int) -> int
    decreases (if n >= 0 { n } else { 0 }),
{
    if n <= 0 {
        0
    } else {
        let p = isqrt_spec(n - 1);
        if (p + 1) * (p + 1) <= n {
            p + 1
        } else {
            p
        }
    }
}

/// The Euclidean distance between two equal-length vectors, rounded down
/// to an integer number of 1/255 units.
pub open spec fn dist_spec(a: Seq<u16>, b: Seq<u16>) -> int {
    isqrt_spec(sq_dist_spec(a, b))
}

pub proof fn lemma_isqrt_props(n: int)
    requires
        n >= 0,
    ensures
        0 <= isqrt_spec(n),
        isqrt_spec(n) * isqrt_spec(n) <= n,
        n < (isqrt_spec(n) + 1) * (isqrt_spec(n) + 1),
    decreases n,
{
    if n > 0 {
        lemma_isqrt_props(n - 1);
        let p = isqrt_spec(n - 1);
        if (p + 1) * (p + 1) <= n {
            assert(n == (p + 1) * (p + 1) || n < (p + 2) * (p + 2)) by (nonlinear_arith)
                requires
                    0 <= p && n - 1 < (p + 1) * (p + 1) && (p + 1) * (p + 1) <= n,
            ;
            assert((p + 1) * (p + 1) < (p + 2) * (p + 2)) by (nonlinear_arith)
                requires
                    0 <= p,
            ;
        }
    }
}

/// The integer square root is the only nonnegative integer whose square
/// brackets `n`.
pub proof fn lemma_isqrt_char(n: int, r: int)
    requires
        0 <= r,
        r * r <= n,
        n < (r + 1) * (r + 1),
    ensures
        r == isqrt_spec(n),
{
    lemma_isqrt_props(n);
    let s = isqrt_spec(n);
    assert(!(r < s) && !(s < r)) by (nonlinear_arith)
        requires
            0 <= r && 0 <= s && r * r <= n && s * s <= n && n < (r + 1) * (r + 1) && n < (s + 1) * (
            s + 1),
    ;
}

/// Squared Euclidean distance between two equal-length well-formed vectors.
pub fn sq_dist(a: &Vec<u16>, b: &Vec<u16>) -> (d: u64)
    requires
        a@.len() == b@.len(),
        a@.len() <= 65000,
        vec_wf(a@),
        vec_wf(b@),
    ensures
        d == sq_dist_spec(a@, b@),
        d <= 65025 * a@.len(),
{
    let n = a.len();
    let mut d: u64 = 0;
    let mut i: usize = 0;
    while i < n
        invariant
            n == a@.len() == b@.len(),
            n <= 65000,
            vec_wf(a@),
            vec_wf(b@),
            i <= n,
            d == sq_dist_upto(a@, b@, i as nat),
            d <= 65025 * i,
        decreases n - i,
    {
        let ai = a[i];
        let bi = b[i];
        let diff: u64 = if ai >= bi {
            (ai - bi) as u64
        } else {
            (bi - ai) as u64
        };
        proof {
            assert(diff * diff <= 65025 && diff * diff == (a@[i as int] - b@[i as int]) * (a@[
                i as int] - b@[i as int])) by (nonlinear_arith)
                requires
                    0 <= diff <= 255 && (diff == a@[i as int] - b@[i as int] || diff == b@[
                        i as int] - a@[i as int]),
            ;
        }
        d = d + diff * diff;
        i = i + 1;
    }
    d
}

/// Integer square root, rounding down.
pub fn isqrt(x: u64) -> (r: u64)
    requires
        x < 0x1_0000_0000,
    ensures
        r == isqrt_spec(x as int),
        r * r <= x < (r + 1) * (r + 1),
{
    let mut r: u64 = 0;
    loop
        invariant_except_break
            x < 0x1_0000_0000,
            r * r <= x,
            r < 0x1_0000,
            r <= x,
        ensures
            r * r <= x < (r + 1) * (r + 1),
        decreases x - r,
    {
        proof {
            assert((r + 1) * (r + 1) <= 0x1_0000_0000) by (nonlinear_arith)
                requires
                    0 <= r < 0x1_0000,
            ;
        }
        let s = (r + 1) * (r + 1);
        if s > x {
            break;
        }
        proof {
            assert(r + 1 < 0x1_0000 && r + 1 <= x) by (nonlinear_arith)
                requires
                    0 <= r && (r + 1) * (r + 1) <= x && x < 0x1_0000_0000,
            ;
        }
        r = r + 1;
    }
    proof {
        lemma_isqrt_char(x as int, r as int);
    }
    r
}

/// One learned exemplar: a 24-component context vector mapped to the
/// 3-component numeric form of its center color. Immutable once created.
pub struct TrainingPair {
    pub context: Vec<u16>,
    pub target: Vec<u16>,
}

impl TrainingPair {
    pub open spec fn wf(self) -> bool {
        &&& self.context@.len() == 24
        &&& vec_wf(self.context@)
        &&& self.target@.len() == 3
        &&& vec_wf(self.target@)
    }

    pub fn new(context: Vec<u16>, target: Vec<u16>) -> (p: TrainingPair)
        requires
            context@.len() == 24,
            vec_wf(context@),
            target@.len() == 3,
            vec_wf(target@),
        ensures
            p.wf(),
            p.context@ == context@,
            p.target@ == target@,
    {
        TrainingPair { context, target }
    }
}

/// The retrieval weight one stored pair contributes for a query: the kernel
/// applied to the Euclidean distance between the query and the pair's
/// context.
pub open spec fn pair_weight(p: TrainingPair, k: Kernel, q: Seq<u16>) -> int {
    k.weight_spec(dist_spec(q, p.context@))
}

/// The sum of the retrieval weights of the first `n` stored pairs.
pub open spec fn sum_weights(ps: Seq<TrainingPair>, k: Kernel, q: Seq<u16>, n: nat) -> int
    decreases n,
{
    if n == 0 {
        0
    } else {
        sum_weights(ps, k, q, (n - 1) as nat) + pair_weight(ps[n - 1], k, q)
    }
}

/// The weight-scaled sum of channel `ch` of the targets of the first `n`
/// stored pairs.
pub open spec fn weighted_sum(ps: Seq<TrainingPair>, k: Kernel, q: Seq<u16>, ch: int, n: nat) -> int
    decreases n,
{
    if n == 0 {
        0
    } else {
        weighted_sum(ps, k, q, ch, (n - 1) as nat) + pair_weight(ps[n - 1], k, q) * ps[n
            - 1].target@[ch]
    }
}

/// The index of the stored pair nearest to the query among the first `n`,
/// earliest on ties.
pub open spec fn nearest_upto(ps: Seq<TrainingPair>, q: Seq<u16>, n: nat) -> int
    recommends
        n >= 1,
    decreases n,
{
    if n <= 1 {
        0
    } else {
        let p = nearest_upto(ps, q, (n - 1) as nat);
        if sq_dist_spec(q, ps[n - 1].context@) < sq_dist_spec(q, ps[p].context@) {
            n - 1
        } else {
            p
        }
    }
}

/// Clamp an integer to one 8-bit channel.
pub open spec fn clamp_int(x: int) -> u8 {
    if x < 0 {
        0u8
    } else if x > 255 {
        255u8
    } else {
        x as u8
    }
}

/// One blended channel: the weighted average of the stored targets'
/// channel `ch`, rounded down.
pub open spec fn blend_channel(ps: Seq<TrainingPair>, k: Kernel, q: Seq<u16>, ch: int) -> int {
    weighted_sum(ps, k, q, ch, ps.len()) / sum_weights(ps, k, q, ps.len())
}

/// What retrieval returns: the weighted average of all stored targets under
/// the kernel's weights, decoded to a cell; if every weight rounds to zero,
/// the target of the single nearest pair.
pub open spec fn retrieve_spec(ps: Seq<TrainingPair>, k: Kernel, q: Seq<u16>) -> Cell
    recommends
        ps.len() >= 1,
{
    if sum_weights(ps, k, q, ps.len()) == 0 {
        devectorize_spec(ps[nearest_upto(ps, q, ps.len())].target@)
    } else {
        Cell {
            r: clamp_int(blend_channel(ps, k, q, 0)),
            g: clamp_int(blend_channel(ps, k, q, 1)),
            b: clamp_int(blend_channel(ps, k, q, 2)),
        }
    }
}

/// An append-only store of training pairs: insertion order preserved, never
/// deduplicated or pruned.
pub struct PatternMemory {
    pairs: Vec<TrainingPair>,
}

impl View for PatternMemory {
    type V = Seq<TrainingPair>;

    closed spec fn view(&self) -> Seq<TrainingPair> {
        self.pairs@
    }
}

impl PatternMemory {
    pub open spec fn wf(self) -> bool {
        forall|i: int| 0 <= i < self@.len() ==> (#[trigger] self@[i]).wf()
    }

    pub fn new() -> (m: PatternMemory)
        ensures
            m.wf(),
            m@.len() == 0,
    {
        PatternMemory { pairs: Vec::new() }
    }

    /// Append one pair. Later pairs never overwrite earlier ones: all are
    /// retained and all participate in retrieval.
    pub fn map(&mut self, pair: TrainingPair)
        requires
            old(self).wf(),
            pair.wf(),
        ensures
            final(self).wf(),
            final(self)@ == old(self)@.push(pair),
    {
        self.pairs.push(pair);
    }

    /// Append one pair per element of a training set, in its order.
    pub fn train(&mut self, pairs: Vec<TrainingPair>)
        requires
            old(self).wf(),
            forall|i: int| 0 <= i < pairs@.len() ==> (#[trigger] pairs@[i]).wf(),
        ensures
            final(self).wf(),
            final(self)@ == old(self)@ + pairs@,
    {
        let ghost orig = pairs@;
        let mut pairs = pairs;
        while pairs.len() > 0
            invariant
                self.wf(),
                forall|i: int| 0 <= i < pairs@.len() ==> (#[trigger] pairs@[i]).wf(),
                old(self)@ + orig == self@ + pairs@,
            decreases pairs@.len(),
        {
            let p = pairs.remove(0);
            self.map(p);
            proof {
                assert(old(self)@ + orig =~= self@ + pairs@);
            }
        }
        proof {
            assert(self@ =~= old(self)@ + orig);
        }
    }

    /// Record one 3x3 block as an exemplar: its context vector mapped to
    /// the numeric form of its center cell.
    pub fn map_area(&mut self, area: &Area)
        requires
            old(self).wf(),
            area.wf(),
        ensures
            final(self).wf(),
            final(self)@.len() == old(self)@.len() + 1,
            final(self)@ == old(self)@.push(final(self)@.last()),
            final(self)@.last().wf(),
            final(self)@.last().context@ == area.vector_spec(),
            final(self)@.last().target@ == area.cells@[4].vector_spec(),
    {
        let context = area.vectorize();
        let center = area.center();
        let target = center.vectorize();
        let pair = TrainingPair::new(context, target);
        self.map(pair);
    }

    pub fn len(&self) -> (n: usize)
        ensures
            n == self@.len(),
    {
        self.pairs.len()
    }

    /// Bind a kernel to the (now frozen) memory, yielding a queryable
    /// retriever. The memory must have been trained first.
    pub fn evaluate(&self, kernel: Kernel) -> (r: Retriever)
        requires
            self.wf(),
            kernel.wf(),
            self@.len() >= 1,
        ensures
            r.memory@ == self@,
            r.kernel == kernel,
            r.wf(),
    {
        Retriever { memory: self, kernel }
    }
}

/// A kernel bound to a trained pattern memory, ready for queries.
pub struct Retriever<'a> {
    pub memory: &'a PatternMemory,
    pub kernel: Kernel,
}

impl<'a> Retriever<'a> {
    pub open spec fn wf(self) -> bool {
        &&& self.memory.wf()
        &&& self.kernel.wf()
        &&& self.memory@.len() >= 1
    }

    /// Distance-weighted retrieval: for every stored pair, weight its
    /// target by the kernel at the pair's distance from the query, and
    /// return the normalized weighted average, decoded to a cell; if the
    /// weights sum to zero, fall back to the nearest pair's target.
    pub fn get(&self, query: &Vec<u16>) -> (c: Cell)
        requires
            self.wf(),
            query@.len() == 24,
            vec_wf(query@),
        ensures
            c == retrieve_spec(self.memory@, self.kernel, query@),
    {
        let ps = &self.memory.pairs;
        let n = ps.len();
        let mut sum_w: u128 = 0;
        let mut acc_r: u128 = 0;
        let mut acc_g: u128 = 0;
        let mut acc_b: u128 = 0;
        let mut best_i: usize = 0;
        let mut best_d2: u64 = 0;
        let mut i: usize = 0;
        while i < n
            invariant
                self.wf(),
                query@.len() == 24,
                vec_wf(query@),
                ps@ == self.memory@,
                n == ps@.len(),
                i <= n,
                sum_w == sum_weights(ps@, self.kernel, query@, i as nat),
                acc_r == weighted_sum(ps@, self.kernel, query@, 0, i as nat),
                acc_g == weighted_sum(ps@, self.kernel, query@, 1, i as nat),
                acc_b == weighted_sum(ps@, self.kernel, query@, 2, i as nat),
                sum_w <= i * (WEIGHT_ONE as int),
                acc_r <= 255 * sum_w,
                acc_g <= 255 * sum_w,
                acc_b <= 255 * sum_w,
                i >= 1 ==> best_i < i && best_i == nearest_upto(ps@, query@, i as nat) && best_d2
                    == sq_dist_spec(query@, ps@[best_i as int].context@),
            decreases n - i,
        {
            let p = &ps[i];
            let d2 = sq_dist(query, &p.context);
            let d = isqrt(d2);
            let w = self.kernel.weight(d);
            proof {
                lemma_weight_bounds(self.kernel, d as int);
                assert(w * ps@[i as int].target@[0] <= 255 * w && w * ps@[i as int].target@[1]
                    <= 255 * w && w * ps@[i as int].target@[2] <= 255 * w) by (nonlinear_arith)
                    requires
                        0 <= w && 0 <= ps@[i as int].target@[0] <= 255 && 0 <= ps@[
                            i as int].target@[1] <= 255 && 0 <= ps@[i as int].target@[2] <= 255,
                ;
            }
            sum_w = sum_w + w as u128;
            acc_r = acc_r + (w as u128) * (p.target[0] as u128);
            acc_g = acc_g + (w as u128) * (p.target[1] as u128);
            acc_b = acc_b + (w as u128) * (p.target[2] as u128);
            if i == 0 || d2 < best_d2 {
                best_i = i;
                best_d2 = d2;
            }
            i = i + 1;
        }
        if sum_w == 0 {
            Cell::devectorize(&ps[best_i].target)
        } else {
            proof {
                assert(acc_r / sum_w <= 255 && acc_g / sum_w <= 255 && acc_b / sum_w <= 255)
                    by (nonlinear_arith)
                    requires
                        0 < sum_w && acc_r <= 255 * sum_w && acc_g <= 255 * sum_w && acc_b <= 255
                            * sum_w,
                ;
            }
            let cr = (acc_r / sum_w) as u16;
            let cg = (acc_g / sum_w) as u16;
            let cb = (acc_b / sum_w) as u16;
            let mut v: Vec<u16> = Vec::new();
            v.push(cr);
            v.push(cg);
            v.push(cb);
            let c = Cell::devectorize(&v);
            proof {
                assert(c == retrieve_spec(self.memory@, self.kernel, query@));
            }
            c
        }
    }
}

/// Threshold calibration from two reference blocks: the "near" case is a
/// query identical to a stored context (distance zero, expected to score
/// the full near weight); the "far" case is the Euclidean distance between
/// the two reference context vectors (expected to score no more than the
/// far weight). Returns no kernel when the two references coincide.
pub fn calibrate_from_references(
    near: &Area,
    far: &Area,
    w_near: u32,
    w_far: u32,
) -> (r: Option<Kernel>)
    requires
        near.wf(),
        far.wf(),
        w_far < w_near,
        w_near <= WEIGHT_ONE,
    ensures
        r is None <==> dist_spec(near.vector_spec(), far.vector_spec()) == 0,
        r matches Some(k) ==> {
            &&& k.calibrated(
                0,
                dist_spec(near.vector_spec(), far.vector_spec()),
                w_near as int,
                w_far as int,
            )
            &&& k.weight_spec(0) == w_near
            &&& 0 <= k.weight_spec(dist_spec(near.vector_spec(), far.vector_spec())) <= w_far
        },
{
    let a = near.vectorize();
    let b = far.vectorize();
    let d2 = sq_dist(&a, &b);
    let d = isqrt(d2);
    if d == 0 {
        None
    } else {
        proof {
            assert(d <= 1249) by (nonlinear_arith)
                requires
                    0 <= d && d * d <= 65025 * 24,
            ;
        }
        let k = Kernel::calibrate(0, d as u32, w_near, w_far);
        Some(k)
    }
}

/// Degenerate retrieval law: a memory holding exactly one pair returns that
/// pair's decoded target for any query and any kernel, since the single
/// weight normalizes to one over itself.
pub proof fn lemma_degenerate_retrieval(ps: Seq<TrainingPair>, k: Kernel, q: Seq<u16>)
    requires
        ps.len() == 1,
        ps[0].wf(),
        k.wf(),
    ensures
        retrieve_spec(ps, k, q) == devectorize_spec(ps[0].target@),
{
    let w = pair_weight(ps[0], k, q);
    lemma_weight_bounds(k, dist_spec(q, ps[0].context@));
    assert(sum_weights(ps, k, q, 0) == 0);
    assert(sum_weights(ps, k, q, 1) == w);
    if w == 0 {
        assert(nearest_upto(ps, q, 1) == 0);
    } else {
        assert forall|ch: int| 0 <= ch < 3 implies blend_channel(ps, k, q, ch) == ps[0].target@[ch] by {
            let t = ps[0].target@[ch] as int;
            assert(weighted_sum(ps, k, q, ch, 0) == 0);
            assert(weighted_sum(ps, k, q, ch, 1) == w * t);
            assert(w * t / w == t) by (nonlinear_arith)
                requires
                    0 < w && 0 <= t,
            ;
        }
    }
}

} // verus!
