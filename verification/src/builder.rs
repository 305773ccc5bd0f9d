use vstd::prelude::*;

use crate::cell::{context_vector_of, Cell};
use crate::grid::{area_model, cell_model, grid_model_wf, Grid};
use crate::memory::TrainingPair;

verus! {

/// Whether the training-set builder keeps the coordinate with linear index
/// `t` (column-major: column `t / height`, row `t % height`). A coordinate
/// is kept when either of the two interleaved diagonal stripe conditions
/// hits: its column-major or its row-major linear index is a multiple of
/// the stride.
pub open spec fn selected(m: Seq<Seq<Cell>>, stride: int, t: int) -> bool
    recommends
        grid_model_wf(m),
        stride >= 1,
{
    let w = m.len() as int;
    let h = m[0].len() as int;
    let i = t / h;
    let j = t % h;
    (i * h + j) % stride == 0 || (j * w + i) % stride == 0
}

/// The linear indices of the coordinates kept among the first `n`, in
/// scan order.
pub open spec fn selected_upto(m: Seq<Seq<Cell>>, stride: int, n: nat) -> Seq<int>
    decreases n,
{
    if n == 0 {
        Seq::empty()
    } else {
        let rest = selected_upto(m, stride, (n - 1) as nat);
        if selected(m, stride, n - 1) {
            rest.push(n - 1)
        } else {
            rest
        }
    }
}

/// Whether a pair sequence is exactly the training set extracted from the
/// first `n` coordinates of a grid model: one pair per kept coordinate, in
/// scan order, each mapping the coordinate's 24-component context vector to
/// the numeric form of its center cell.
pub open spec fn pairs_match(
    r: Seq<TrainingPair>,
    m: Seq<Seq<Cell>>,
    stride: int,
    n: nat,
) -> bool {
    let h = m[0].len() as int;
    let sel = selected_upto(m, stride, n);
    &&& r.len() == sel.len()
    &&& forall|k: int|
        0 <= k < sel.len() ==> {
            &&& (#[trigger] r[k]).wf()
            &&& r[k].context@ == context_vector_of(area_model(m, sel[k] / h, sel[k] % h))
            &&& r[k].target@ == cell_model(m, sel[k] / h, sel[k] % h).vector_spec()
        }
}

/// How many of the integers below `n` are multiples of `s`: the number of
/// coordinates a single-stride pass keeps.
pub open spec fn count_multiples(n: nat, s: int) -> int
    decreases n,
{
    if n == 0 {
        0
    } else {
        count_multiples((n - 1) as nat, s) + if (n - 1) % s == 0 {
            1int
        } else {
            0int
        }
    }
}

proof fn lemma_selected_on_multiple(m: Seq<Seq<Cell>>, stride: int, t: int)
    requires
        grid_model_wf(m),
        stride >= 1,
        t >= 0,
        t % stride == 0,
    ensures
        selected(m, stride, t),
{
    let h = m[0].len() as int;
    assert((t / h) * h + t % h == t) by (nonlinear_arith)
        requires
            h >= 1 && t >= 0,
    ;
}

proof fn lemma_coverage_counts(m: Seq<Seq<Cell>>, stride: int, n: nat)
    requires
        grid_model_wf(m),
        stride >= 1,
    ensures
        selected_upto(m, stride, n).len() >= count_multiples(n, stride),
    decreases n,
{
    if n > 0 {
        lemma_coverage_counts(m, stride, (n - 1) as nat);
        if (n - 1) % stride == 0 {
            lemma_selected_on_multiple(m, stride, n - 1);
        }
    }
}

proof fn lemma_count_multiples_exact(n: nat, s: int)
    requires
        s >= 1,
        n >= 1,
    ensures
        count_multiples(n, s) == (n - 1) / s + 1,
    decreases n,
{
    assert(count_multiples(0, s) == 0);
    if n == 1 {
        assert(0int % s == 0 && 0int / s == 0) by (nonlinear_arith)
            requires
                s >= 1,
        ;
    } else {
        lemma_count_multiples_exact((n - 1) as nat, s);
        let t = n - 1;
        assert(if t % s == 0 {
            t / s == (t - 1) / s + 1
        } else {
            t / s == (t - 1) / s
        }) by (nonlinear_arith)
            requires
                s >= 1 && t >= 1,
        ;
    }
}

/// Stratified sampling coverage law: over `total` coordinates the builder
/// keeps at least as many pairs as a single-stride pass would (one per
/// multiple of the stride), and that is at least `total / stride`.
pub proof fn lemma_sampling_coverage(m: Seq<Seq<Cell>>, stride: int, total: nat)
    requires
        grid_model_wf(m),
        stride >= 1,
        total >= 1,
    ensures
        selected_upto(m, stride, total).len() >= count_multiples(total, stride),
        selected_upto(m, stride, total).len() >= total as int / stride,
{
    lemma_coverage_counts(m, stride, total);
    lemma_count_multiples_exact(total, stride);
    assert((total - 1) / stride + 1 >= total as int / stride) by (nonlinear_arith)
        requires
            stride >= 1 && total >= 1,
    ;
}

/// Scan the whole source grid on its toroidal topology and extract the
/// stratified sample of (context vector -> center color) training pairs:
/// a coordinate is kept when either interleaved diagonal stripe condition
/// hits, giving denser coverage than a single stride.
pub fn build_training_set(img: &Grid, sample_count: usize) -> (r: Vec<TrainingPair>)
    requires
        img.wf(),
        sample_count >= 1,
        sample_count <= img.width * img.height,
    ensures
        pairs_match(
            r@,
            img.model(),
            (img.width * img.height) as int / sample_count as int,
            (img.width * img.height) as nat,
        ),
        r@.len() >= 1,
{
    let width = img.width;
    let height = img.height;
    let total = width * height;
    let stride = total / sample_count;
    proof {
        img.lemma_model_wf();
        assert(stride >= 1 && stride <= total) by (nonlinear_arith)
            requires
                1 <= sample_count <= total && stride == total as int / sample_count as int
                    && total >= 1,
        ;
    }
    let ghost m = img.model();
    let mut r: Vec<TrainingPair> = Vec::new();
    let mut i: usize = 0;
    while i < width
        invariant
            img.wf(),
            m == img.model(),
            width == img.width,
            height == img.height,
            total == width * height,
            stride >= 1,
            i <= width,
            pairs_match(r@, m, stride as int, (i * height) as nat),
            i * height <= total,
        decreases width - i,
    {
        let mut j: usize = 0;
        proof {
            assert(i * height + height <= total) by (nonlinear_arith)
                requires
                    0 <= i < width && total == width * height,
            ;
        }
        while j < height
            invariant
                img.wf(),
                m == img.model(),
                width == img.width,
                height == img.height,
                total == width * height,
                stride >= 1,
                i < width,
                j <= height,
                i * height + height <= total,
                pairs_match(r@, m, stride as int, (i * height + j) as nat),
            decreases height - j,
        {
            proof {
                assert(j * width + i < total && i * height + j < total) by (nonlinear_arith)
                    requires
                        0 <= i < width && 0 <= j < height && total == width * height,
                ;
            }
            let t = i * height + j;
            let u = j * width + i;
            proof {
                assert(t as int / height as int == i && t as int % height as int == j)
                    by (nonlinear_arith)
                    requires
                        height >= 1 && 0 <= j < height && t == i * height + j && i >= 0,
                ;
            }
            if t % stride == 0 || u % stride == 0 {
                let area = img.area_at(i, j);
                let ctx = area.vectorize();
                let center = area.center();
                let tgt = center.vectorize();
                let pair = TrainingPair::new(ctx, tgt);
                r.push(pair);
                proof {
                    assert(selected_upto(m, stride as int, (t + 1) as nat) == selected_upto(
                        m,
                        stride as int,
                        t as nat,
                    ).push(t as int));
                    assert(pairs_match(r@, m, stride as int, (t + 1) as nat));
                }
            } else {
                proof {
                    assert(selected_upto(m, stride as int, (t + 1) as nat) == selected_upto(
                        m,
                        stride as int,
                        t as nat,
                    ));
                }
            }
            j = j + 1;
        }
        proof {
            assert((i + 1) * height == i * height + height) by (nonlinear_arith);
        }
        i = i + 1;
    }
    proof {
        assert(width * height == total);
        lemma_sampling_coverage(m, stride as int, total as nat);
        assert(total as int / stride as int >= 1) by (nonlinear_arith)
            requires
                1 <= stride <= total,
        ;
    }
    r
}

} // verus!
