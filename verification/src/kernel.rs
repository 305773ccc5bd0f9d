use vstd::prelude::*;

verus! {

/// Retrieval weights are fixed-point numbers in units of 1/65536:
/// `WEIGHT_ONE` stands for the full weight 1.0.
pub const WEIGHT_ONE: u32 = 65536;

/// Exponential decay in fixed point: starting from `w`, one multiplication
/// by `rho / 65536` per unit of distance, each product rounded down. This is
/// the quantized form of `w * (rho / 65536) ^ k`.
pub open spec fn decay(w: int, rho: int, k: nat) -> int
    decreases k,
{
    if k == 0 {
        w
    } else {
        decay(w, rho, (k - 1) as nat) * rho / 65536
    }
}

/// Decay from a weight in range stays in range: it never goes negative and
/// never exceeds its starting point.
pub proof fn lemma_decay_bounds(w: int, rho: int, k: nat)
    requires
        0 <= w,
        0 <= rho <= 65536,
    ensures
        0 <= decay(w, rho, k) <= w,
    decreases k,
{
    if k > 0 {
        lemma_decay_bounds(w, rho, (k - 1) as nat);
        let prev = decay(w, rho, (k - 1) as nat);
        assert(0 <= prev * rho / 65536 <= prev) by (nonlinear_arith)
            requires
                0 <= prev && 0 <= rho <= 65536,
        ;
    }
}

/// Decay by the full scale 65536 changes nothing.
pub proof fn lemma_decay_at_scale(w: int, k: nat)
    requires
        0 <= w,
    ensures
        decay(w, 65536, k) == w,
    decreases k,
{
    if k > 0 {
        lemma_decay_at_scale(w, (k - 1) as nat);
        assert(w * 65536 / 65536 == w) by (nonlinear_arith)
            requires
                0 <= w,
        ;
    }
}

/// Decay by a zero factor reaches zero after one step.
pub proof fn lemma_decay_at_zero(w: int, k: nat)
    requires
        0 <= w,
        k >= 1,
    ensures
        decay(w, 0, k) == 0,
    decreases k,
{
    if k > 1 {
        lemma_decay_at_zero(w, (k - 1) as nat);
    }
}

/// A distance kernel of the exponential-decay family, in fixed point.
/// A distance up to `d_near` gets the full near weight `w_near`; past it,
/// the weight decays geometrically by `rho / 65536` per unit of distance.
#[derive(Clone, Copy, Debug, PartialEq, Eq, Structural)]
pub struct Kernel {
    pub d_near: u32,
    pub w_near: u32,
    pub rho: u32,
}

impl Kernel {
    pub open spec fn wf(self) -> bool {
        &&& self.w_near <= WEIGHT_ONE
        &&& self.rho <= WEIGHT_ONE
    }

    /// The retrieval weight this kernel assigns to a distance.
    pub open spec fn weight_spec(self, d: int) -> int {
        if d <= self.d_near {
            self.w_near as int
        } else {
            decay(self.w_near as int, self.rho as int, (d - self.d_near) as nat)
        }
    }

    /// Evaluate the kernel at a distance.
    pub fn weight(&self, d: u64) -> (w: u32)
        requires
            self.wf(),
        ensures
            w == self.weight_spec(d as int),
            w <= self.w_near,
    {
        if d <= self.d_near as u64 {
            return self.w_near;
        }
        let steps = d - self.d_near as u64;
        let mut w: u32 = self.w_near;
        let mut k: u64 = 0;
        while k < steps
            invariant
                self.wf(),
                k <= steps,
                w == decay(self.w_near as int, self.rho as int, k as nat),
                w <= self.w_near,
            decreases steps - k,
        {
            proof {
                lemma_decay_bounds(self.w_near as int, self.rho as int, (k + 1) as nat);
            }
            w = ((w as u64 * self.rho as u64) / 65536) as u32;
            k = k + 1;
        }
        w
    }

    /// Whether this kernel is the calibrated member of its family for the
    /// reference distances `d_near < d_far` and target weights
    /// `w_far < w_near`: it keeps the full near weight through `d_near`,
    /// and its decay factor is the largest one whose weight at `d_far` has
    /// fallen to the far target weight or below.
    pub open spec fn calibrated(self, d_near: int, d_far: int, w_near: int, w_far: int) -> bool {
        &&& self.wf()
        &&& self.d_near == d_near
        &&& self.w_near == w_near
        &&& decay(w_near, self.rho as int, (d_far - d_near) as nat) <= w_far
        &&& decay(w_near, self.rho as int + 1, (d_far - d_near) as nat) > w_far
    }

    /// Threshold calibration: derive the kernel sharpness from two reference
    /// distances and their target weights. The result is the kernel of the
    /// exponential family whose weight is exactly `w_near` at `d_near` and
    /// has decayed to at most `w_far` at `d_far`, as sharply as needed but
    /// no more.
    pub fn calibrate(d_near: u32, d_far: u32, w_near: u32, w_far: u32) -> (k: Kernel)
        requires
            d_near < d_far,
            w_far < w_near,
            w_near <= WEIGHT_ONE,
        ensures
            k.calibrated(d_near as int, d_far as int, w_near as int, w_far as int),
            k.weight_spec(d_near as int) == w_near,
            0 <= k.weight_spec(d_far as int) <= w_far,
    {
        let dd = d_far - d_near;
        let mut lo: u32 = 0;
        let mut hi: u32 = 65535;
        proof {
            lemma_decay_at_zero(w_near as int, dd as nat);
            lemma_decay_at_scale(w_near as int, dd as nat);
        }
        while lo < hi
            invariant
                lo <= hi < WEIGHT_ONE,
                dd >= 1,
                w_far < w_near <= WEIGHT_ONE,
                decay(w_near as int, lo as int, dd as nat) <= w_far,
                decay(w_near as int, hi as int + 1, dd as nat) > w_far,
            decreases hi - lo,
        {
            let mid = lo + (hi - lo + 1) / 2;
            let w = decay_exec(w_near, mid, dd);
            if w <= w_far {
                lo = mid;
            } else {
                hi = mid - 1;
            }
        }
        let k = Kernel { d_near, w_near, rho: lo };
        proof {
            lemma_decay_bounds(w_near as int, lo as int, dd as nat);
        }
        k
    }
}

/// Evaluate the decay recurrence.
fn decay_exec(w: u32, rho: u32, k: u32) -> (r: u32)
    requires
        w <= WEIGHT_ONE,
        rho <= WEIGHT_ONE,
    ensures
        r == decay(w as int, rho as int, k as nat),
        r <= w,
{
    let mut r: u32 = w;
    let mut i: u32 = 0;
    while i < k
        invariant
            w <= WEIGHT_ONE,
            rho <= WEIGHT_ONE,
            i <= k,
            r == decay(w as int, rho as int, i as nat),
            r <= w,
        decreases k - i,
    {
        proof {
            lemma_decay_bounds(w as int, rho as int, (i + 1) as nat);
        }
        r = ((r as u64 * rho as u64) / 65536) as u32;
        i = i + 1;
    }
    r
}

/// A well-formed kernel's weight always lies between zero and its near
/// weight, whatever the distance.
pub proof fn lemma_weight_bounds(k: Kernel, d: int)
    requires
        k.wf(),
    ensures
        0 <= k.weight_spec(d) <= k.w_near,
{
    if d > k.d_near {
        lemma_decay_bounds(k.w_near as int, k.rho as int, (d - k.d_near) as nat);
    }
}

/// Kernel calibration bounds law: a calibrated kernel returns the near
/// target weight exactly at the near reference distance, and a weight
/// within `tol` of the far target weight at the far reference distance,
/// for any tolerance at least as large as the far target weight itself.
pub proof fn lemma_kernel_calibration(
    k: Kernel,
    d_near: int,
    d_far: int,
    w_near: int,
    w_far: int,
    tol: int,
)
    requires
        k.calibrated(d_near, d_far, w_near, w_far),
        0 <= d_near < d_far,
        0 <= w_far < w_near,
        w_far <= tol,
    ensures
        k.weight_spec(d_near) == w_near,
        w_far - tol <= k.weight_spec(d_far) <= w_far + tol,
{
    lemma_decay_bounds(w_near, k.rho as int, (d_far - d_near) as nat);
}

} // verus!
