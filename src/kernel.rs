use vstd::prelude::*;
use crate::grid::{Grid, grid_cells, grid_shape, grid_from_vec, grid_get};

verus! {

/// Largest side of a convolution kernel.
pub const MAX_KERNEL_SIZE: usize = 31;

/// Largest magnitude of a single kernel weight.
pub const MAX_WEIGHT: i32 = 65536;

/// A square convolution kernel of odd side, in exact rational form: the
/// weight of tap `(kx, ky)` is `weights[[ky, kx]] / divisor`.
pub struct Kernel {
    pub size: usize,
    pub weights: Grid,
    pub divisor: u32,
}

/// Mathematical form of a kernel: side, integer weights and divisor.
pub struct KernelModel {
    pub size: int,
    pub weights: Seq<i32>,
    pub divisor: int,
}

impl View for Kernel {
    type V = KernelModel;

    open spec fn view(&self) -> KernelModel {
        KernelModel {
            size: self.size as int,
            weights: grid_cells(self.weights),
            divisor: self.divisor as int,
        }
    }
}

impl KernelModel {
    /// A kernel of positive side whose weights sum to its divisor: it
    /// averages, so a uniform plane passes through it unchanged.
    pub open spec fn is_averaging(&self) -> bool {
        &&& self.size >= 1
        &&& self.weights.len() == self.size * self.size
        &&& self.divisor > 0
        &&& weight_sum(self.weights, self.weights.len() as int) == self.divisor
    }
}

/// The box kernel of side `n`: `n²` unit weights over a divisor of `n²`.
pub open spec fn box_model(n: int) -> KernelModel {
    KernelModel { size: n, weights: Seq::new((n * n) as nat, |i: int| 1i32), divisor: n * n }
}

/// Sum of the first `n` weights.
pub open spec fn weight_sum(w: Seq<i32>, n: int) -> int
    decreases n,
{
    if n <= 0 {
        0
    } else {
        weight_sum(w, n - 1) + w[n - 1] as int
    }
}

/// Every weight lies within `[-MAX_WEIGHT, MAX_WEIGHT]`.
pub open spec fn weights_bounded(w: Seq<i32>) -> bool {
    forall|i: int| 0 <= i < w.len() ==> -MAX_WEIGHT <= #[trigger] w[i] <= MAX_WEIGHT
}

impl Kernel {
    pub open spec fn wf(&self) -> bool {
        &&& self.size % 2 == 1
        &&& self.size <= MAX_KERNEL_SIZE
        &&& grid_shape(self.weights) == (self.size, self.size)
        &&& grid_cells(self.weights).len() == self.size * self.size
        &&& self.divisor > 0
        &&& weights_bounded(grid_cells(self.weights))
    }

    /// The weights sum to the divisor, so the kernel's rational weights sum to one.
    pub open spec fn is_normalized(&self) -> bool {
        weight_sum(self@.weights, self@.weights.len() as int) == self.divisor as int
    }
}

/// Kernel sizes selected by the quality setting.
#[derive(PartialEq, Eq, Structural, Clone, Copy, Debug)]
pub enum Quality {
    Fine,
    Normal,
    Coarse,
    SuperCoarse,
    ExtraCoarse,
    /// No box kernel: tones come from the Sobel edge magnitude.
    Sketch,
}

/// The quality a setting name selects; unknown names select `Normal`.
pub open spec fn quality_of(name: Seq<char>) -> Quality {
    if name == "fine"@ {
        Quality::Fine
    } else if name == "coarse"@ {
        Quality::Coarse
    } else if name == "superCoarse"@ {
        Quality::SuperCoarse
    } else if name == "extraCoarse"@ {
        Quality::ExtraCoarse
    } else if name == "sketch"@ {
        Quality::Sketch
    } else {
        Quality::Normal
    }
}

/// Side of the box kernel of each quality; `None` for the sketch path.
pub open spec fn box_size(q: Quality) -> Option<usize> {
    match q {
        Quality::Fine => Some(5),
        Quality::Normal => Some(7),
        Quality::Coarse => Some(9),
        Quality::SuperCoarse => Some(11),
        Quality::ExtraCoarse => Some(13),
        Quality::Sketch => None,
    }
}

fn name_is(name: &str, lit: &str) -> (r: bool)
    ensures
        r == (name@ == lit@),
{
    let a = name.to_owned();
    let b = lit.to_owned();
    a.eq(&b)
}

impl Quality {
    /// Reads a quality setting by its name.
    pub fn from_name(name: &str) -> (q: Quality)
        ensures
            q == quality_of(name@),
    {
        if name_is(name, "fine") {
            Quality::Fine
        } else if name_is(name, "coarse") {
            Quality::Coarse
        } else if name_is(name, "superCoarse") {
            Quality::SuperCoarse
        } else if name_is(name, "extraCoarse") {
            Quality::ExtraCoarse
        } else if name_is(name, "sketch") {
            Quality::Sketch
        } else {
            Quality::Normal
        }
    }
}

pub proof fn lemma_square_bound(size: usize)
    requires
        size <= MAX_KERNEL_SIZE,
    ensures
        size * size <= MAX_KERNEL_SIZE * MAX_KERNEL_SIZE,
        size >= 1 ==> size * size >= 1,
{
    assert(size >= 1 ==> size * size >= 1) by (nonlinear_arith);
    assert(size * size <= 31 * 31) by (nonlinear_arith)
        requires
            size <= 31,
    ;
}

pub proof fn lemma_weight_sum_ones(w: Seq<i32>, n: int)
    requires
        0 <= n <= w.len(),
        forall|i: int| 0 <= i < w.len() ==> w[i] == 1,
    ensures
        weight_sum(w, n) == n,
    decreases n,
{
    if n > 0 {
        lemma_weight_sum_ones(w, n - 1);
    }
}

/// Box (average) kernel of side `size`: every weight is `1 / size²`.
pub fn average_kernel(size: usize) -> (k: Kernel)
    requires
        size % 2 == 1,
        size <= MAX_KERNEL_SIZE,
    ensures
        k.wf(),
        k.is_normalized(),
        k.size == size,
        k.divisor == size * size,
        forall|i: int| 0 <= i < k@.weights.len() ==> k@.weights[i] == 1,
        k@ == box_model(size as int),
{
    proof {
        lemma_square_bound(size);
    }
    let total = size * size;
    let mut weights: Vec<i32> = Vec::new();
    let mut i: usize = 0;
    while i < total
        invariant
            total == size * size,
            weights@.len() == i,
            i <= total,
            forall|j: int| 0 <= j < i ==> weights@[j] == 1,
        decreases total - i,
    {
        weights.push(1);
        i += 1;
    }
    proof {
        lemma_weight_sum_ones(weights@, total as int);
        assert(weights_bounded(weights@));
    }
    assert(weights@ =~= Seq::new((size * size) as nat, |i: int| 1i32));
    Kernel { size, weights: grid_from_vec(size, weights), divisor: total as u32 }
}

/// The box kernel a quality selects, or `None` for the sketch path.
pub fn get_kernel(quality: Quality) -> (k: Option<Kernel>)
    ensures
        k is Some <==> box_size(quality) is Some,
        k matches Some(kk) ==> kk.wf() && kk.is_normalized() && kk.size == box_size(quality).unwrap()
            && kk.divisor == kk.size * kk.size && kk@ == box_model(kk.size as int),
{
    match quality {
        Quality::Fine => Some(average_kernel(5)),
        Quality::Normal => Some(average_kernel(7)),
        Quality::Coarse => Some(average_kernel(9)),
        Quality::SuperCoarse => Some(average_kernel(11)),
        Quality::ExtraCoarse => Some(average_kernel(13)),
        Quality::Sketch => None,
    }
}

/// A kernel of the given side and weights can be normalized: it is well
/// formed and its weights have a positive sum.
pub open spec fn normalizable(size: usize, w: Seq<i32>) -> bool {
    &&& size % 2 == 1
    &&& size <= MAX_KERNEL_SIZE
    &&& w.len() == size * size
    &&& weights_bounded(w)
    &&& weight_sum(w, w.len() as int) > 0
}

/// Normalizes integer weights: the divisor becomes their sum, so a uniform
/// plane passes through the kernel unchanged.
pub fn normalized_kernel(size: usize, weights: Vec<i32>) -> (k: Option<Kernel>)
    ensures
        k is Some <==> normalizable(size, weights@),
        k matches Some(kk) ==> kk.wf() && kk.is_normalized() && kk.size == size
            && kk@.weights == weights@,
{
    if size % 2 != 1 || size > MAX_KERNEL_SIZE {
        return None;
    }
    proof {
        lemma_square_bound(size);
    }
    if weights.len() != size * size {
        return None;
    }
    let n = weights.len();
    let mut sum: i64 = 0;
    let mut i: usize = 0;
    while i < n
        invariant
            n == weights@.len(),
            n <= MAX_KERNEL_SIZE * MAX_KERNEL_SIZE,
            i <= n,
            sum == weight_sum(weights@, i as int),
            forall|j: int| 0 <= j < i ==> -MAX_WEIGHT <= #[trigger] weights@[j] <= MAX_WEIGHT,
            -(i as int) * (MAX_WEIGHT as int) <= sum <= (i as int) * (MAX_WEIGHT as int),
        decreases n - i,
    {
        let wt = weights[i];
        if wt < -MAX_WEIGHT || wt > MAX_WEIGHT {
            return None;
        }
        sum = sum + wt as i64;
        i += 1;
    }
    if sum <= 0 {
        return None;
    }
    Some(Kernel { size, weights: grid_from_vec(size, weights), divisor: sum as u32 })
}

/// Outer product of a column vector and a row vector, as a 3 x 3 kernel.
fn outer_product(col: [i32; 3], row: [i32; 3]) -> (k: Kernel)
    requires
        forall|i: int| 0 <= i < 3 ==> -256 <= #[trigger] col@[i] <= 256,
        forall|i: int| 0 <= i < 3 ==> -256 <= #[trigger] row@[i] <= 256,
    ensures
        k.wf(),
        k.size == 3,
        k.divisor == 1,
        forall|i: int, j: int|
            0 <= i < 3 && 0 <= j < 3 ==> k@.weights[i * 3 + j] == col@[i] * row@[j],
{
    let mut weights: Vec<i32> = Vec::new();
    let mut i: usize = 0;
    while i < 3
        invariant
            i <= 3,
            weights@.len() == i * 3,
            forall|a: int| 0 <= a < 3 ==> -256 <= #[trigger] col@[a] <= 256,
            forall|a: int| 0 <= a < 3 ==> -256 <= #[trigger] row@[a] <= 256,
            forall|a: int, b: int|
                0 <= a < i && 0 <= b < 3 ==> weights@[a * 3 + b] == col@[a] * row@[b],
            weights_bounded(weights@),
        decreases 3 - i,
    {
        let mut j: usize = 0;
        while j < 3
            invariant
                i < 3,
                j <= 3,
                weights@.len() == i * 3 + j,
                forall|a: int| 0 <= a < 3 ==> -256 <= #[trigger] col@[a] <= 256,
                forall|a: int| 0 <= a < 3 ==> -256 <= #[trigger] row@[a] <= 256,
                forall|a: int, b: int|
                    0 <= a < i && 0 <= b < 3 ==> weights@[a * 3 + b] == col@[a] * row@[b],
                forall|b: int| 0 <= b < j ==> weights@[i * 3 + b] == col@[i as int] * row@[b],
                weights_bounded(weights@),
            decreases 3 - j,
        {
            let c = col[i];
            let r = row[j];
            assert(-65536 <= c * r <= 65536) by (nonlinear_arith)
                requires
                    -256 <= c <= 256,
                    -256 <= r <= 256,
            ;
            weights.push(c * r);
            j += 1;
        }
        i += 1;
    }
    Kernel { size: 3, weights: grid_from_vec(3, weights), divisor: 1 }
}

/// Horizontal Sobel operator: smoothing `[1, 2, 1]` down the rows times the
/// difference `[-1, 0, 1]` along the columns.
pub fn sobel_x_kernel() -> (k: Kernel)
    ensures
        k.wf(),
        k.size == 3,
        k.divisor == 1,
        k@.weights == seq![-1i32, 0i32, 1i32, -2i32, 0i32, 2i32, -1i32, 0i32, 1i32],
{
    let k = outer_product([1, 2, 1], [-1, 0, 1]);
    assert(k@.weights =~= seq![-1i32, 0i32, 1i32, -2i32, 0i32, 2i32, -1i32, 0i32, 1i32]) by {
        assert forall|t: int| 0 <= t < 9 implies k@.weights[t] == seq![-1i32, 0i32, 1i32, -2i32, 0i32, 2i32, -1i32, 0i32, 1i32][t] by {
            let i = t / 3;
            let j = t % 3;
            assert(t == i * 3 + j);
            assert(k@.weights[i * 3 + j] == seq![1i32, 2i32, 1i32][i] * seq![-1i32, 0i32, 1i32][j]);
        }
    }
    k
}

/// Vertical Sobel operator: the difference `[-1, 0, 1]` down the rows times
/// smoothing `[1, 2, 1]` along the columns.
pub fn sobel_y_kernel() -> (k: Kernel)
    ensures
        k.wf(),
        k.size == 3,
        k.divisor == 1,
        k@.weights == seq![-1i32, -2i32, -1i32, 0i32, 0i32, 0i32, 1i32, 2i32, 1i32],
{
    let k = outer_product([-1, 0, 1], [1, 2, 1]);
    assert(k@.weights =~= seq![-1i32, -2i32, -1i32, 0i32, 0i32, 0i32, 1i32, 2i32, 1i32]) by {
        assert forall|t: int| 0 <= t < 9 implies k@.weights[t] == seq![-1i32, -2i32, -1i32, 0i32, 0i32, 0i32, 1i32, 2i32, 1i32][t] by {
            let i = t / 3;
            let j = t % 3;
            assert(t == i * 3 + j);
            assert(k@.weights[i * 3 + j] == seq![-1i32, 0i32, 1i32][i] * seq![1i32, 2i32, 1i32][j]);
        }
    }
    k
}

impl Kernel {
    /// The weights in row-major order.
    pub fn weights_row_major(&self) -> (r: Vec<i32>)
        requires
            self.wf(),
        ensures
            r@ == self@.weights,
    {
        let n = self.size;
        let mut out: Vec<i32> = Vec::new();
        let mut row: usize = 0;
        while row < n
            invariant
                self.wf(),
                n == self.size,
                row <= n,
                out@.len() == row * n,
                forall|j: int| 0 <= j < out@.len() ==> out@[j] == self@.weights[j],
            decreases n - row,
        {
            let mut col: usize = 0;
            while col < n
                invariant
                    self.wf(),
                    n == self.size,
                    row < n,
                    col <= n,
                    out@.len() == row * n + col,
                    forall|j: int| 0 <= j < out@.len() ==> out@[j] == self@.weights[j],
                decreases n - col,
            {
                out.push(grid_get(&self.weights, row, col));
                col += 1;
            }
            assert((row + 1) * n == row * n + n) by (nonlinear_arith);
            row += 1;
        }
        assert(out@ =~= self@.weights);
        out
    }
}

/// Box kernels average.
pub proof fn lemma_box_model_averages(n: int)
    requires
        n >= 1,
    ensures
        box_model(n).is_averaging(),
{
    assert(n * n >= 1) by (nonlinear_arith)
        requires
            n >= 1,
    ;
    lemma_weight_sum_ones(box_model(n).weights, n * n);
}

/// A well-formed normalized kernel averages.
pub proof fn lemma_normalized_averages(k: Kernel)
    requires
        k.wf(),
        k.is_normalized(),
    ensures
        k@.is_averaging(),
{
}

} // verus!
