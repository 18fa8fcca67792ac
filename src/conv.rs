use vstd::arithmetic::div_mod::lemma_fundamental_div_mod_converse;
use vstd::prelude::*;

use crate::bias::{add_bias, bias_at, broadcastable};
use crate::gemm::{gemm_entry, gemm_fits, in_i64, mat_mul, panel_at};
use crate::layout::{
    flat_batch,
    flat_channel,
    flat_spatial,
    in_tile,
    lemma_flat_decode,
    scatter,
};
use crate::shape::{spec_c_axis, DataFormat, KernelFormat, Patch};
use crate::tensor::{
    checked_range_product,
    dims_product,
    lemma_range_product_split,
    range_product,
    range_product_fits,
    Matrix,
    Tensor,
};

verus! {

/// Why a convolution could not be built or evaluated.
#[derive(Clone, Copy, Debug, PartialEq, Eq, Structural)]
pub enum ConvError {
    /// Shapes of the configuration or of the input are mutually inconsistent.
    ShapeMismatch,
    /// An intermediate or final value left the `i64` range.
    Overflow,
    /// The operator was handed a number of inputs other than one.
    InputCount,
}

/// Element types of tensors.
#[derive(Clone, Copy, Debug, PartialEq, Eq, Structural)]
pub enum DatumType {
    I64,
}

/// What the operator declares for type and shape inference: its input and output
/// counts, their element types, and the exact output shape.
#[derive(Clone, Debug)]
pub struct InferenceRules {
    pub inputs_len: usize,
    pub outputs_len: usize,
    pub input_datum_type: DatumType,
    pub output_datum_type: DatumType,
    pub output_shape: Vec<usize>,
}

/// Column of the mega-matrix for spatial position `s` of the tile of batch element
/// `b` and group `g`.
pub open spec fn tile_col(n: int, group: int, b: int, g: int, s: int) -> int {
    n * (g + b * group) + s
}

/// The matrix view of a rank-2 tensor.
pub open spec fn matrix_of(t: Tensor) -> Matrix {
    Matrix { rows: t.shape@[0], cols: t.shape@[1], data: t.data }
}

/// A grouped convolution computed as one matrix product per batch element and group.
#[derive(Clone, Debug)]
pub struct ConvGemm {
    pub patch: Patch,
    pub full_output_shape: Vec<usize>,
    pub m: usize,
    pub k: usize,
    pub n: usize,
    pub kernel_fmt: KernelFormat,
    pub kernel: Matrix,
    pub bias: Option<Tensor>,
    pub group: usize,
}

/// Copies a sequence of sizes.
fn copy_dims(v: &Vec<usize>) -> (r: Vec<usize>)
    ensures
        r@ == v@,
{
    let mut r: Vec<usize> = Vec::new();
    let mut i: usize = 0;
    while i < v.len()
        invariant
            i <= v@.len(),
            r@ == v@.subrange(0, i as int),
        decreases v@.len() - i,
    {
        r.push(v[i]);
        i += 1;
        assert(r@ =~= v@.subrange(0, i as int));
    }
    assert(r@ =~= v@);
    r
}

/// A vector of `len` zeros.
fn zeros(len: usize) -> (r: Vec<i64>)
    ensures
        r@.len() == len,
{
    let mut r: Vec<i64> = Vec::new();
    let mut i: usize = 0;
    while i < len
        invariant
            i <= len,
            r@.len() == i,
        decreases len - i,
    {
        r.push(0);
        i += 1;
    }
    r
}

/// A channel inside the block of group `g` belongs to group `g`.
proof fn lemma_group_of(c: int, m: int, g: int)
    requires
        m > 0,
        g * m <= c < g * m + m,
    ensures
        c / m == g,
{
    lemma_fundamental_div_mod_converse(c, m, g, c - g * m);
}

/// The product over a single axis is that axis' size.
proof fn lemma_range_product_single(s: Seq<usize>, i: int)
    requires
        0 <= i < s.len(),
    ensures
        range_product(s, i, i + 1) == s[i] as int,
{
    let t = s.subrange(i, i + 1);
    assert(t.drop_last() =~= Seq::<usize>::empty());
    assert(t.last() == s[i]);
    assert(dims_product(t.drop_last()) == 1);
}

impl ConvGemm {
    /// Layout of the output.
    pub open spec fn fmt(&self) -> DataFormat {
        self.patch.input_shape.fmt
    }

    /// Rank of the output.
    pub open spec fn rank(&self) -> int {
        self.full_output_shape@.len() as int
    }

    /// Channel axis of the output.
    pub open spec fn channel_axis(&self) -> int {
        spec_c_axis(self.fmt(), self.rank())
    }

    /// Number of batch elements.
    pub open spec fn batch(&self) -> int {
        self.full_output_shape@[0] as int
    }

    /// Number of output channels over all groups.
    pub open spec fn channels(&self) -> int {
        self.full_output_shape@[self.channel_axis()] as int
    }

    /// First spatial axis of the output.
    pub open spec fn spatial_lo(&self) -> int {
        match self.fmt() {
            DataFormat::NCHW => 2,
            DataFormat::NHWC => 1,
        }
    }

    /// One past the last spatial axis of the output.
    pub open spec fn spatial_hi(&self) -> int {
        match self.fmt() {
            DataFormat::NCHW => self.rank(),
            DataFormat::NHWC => self.rank() - 1,
        }
    }

    /// Number of elements of the output.
    pub open spec fn total(&self) -> int {
        dims_product(self.full_output_shape@)
    }

    /// The configuration is consistent: rank at least 2, a kernel laid out output
    /// channels first, input batch equal to output batch, `m` output channels per group, kernel of shape `(m * group, k)`, `n` the
    /// spatial size, an output size that fits in memory, and a bias whose size fits in
    /// memory and that broadcasts onto the output.
    pub open spec fn wf(&self) -> bool {
        &&& self.rank() >= 2
        &&& self.kernel_fmt == KernelFormat::OIHW
        &&& self.patch.input_shape.shape@.len() == self.rank()
        &&& self.patch.input_shape.shape@[0] == self.full_output_shape@[0]
        &&& self.group > 0
        &&& self.kernel.wf()
        &&& self.kernel.rows == self.m * self.group
        &&& self.kernel.cols == self.k
        &&& self.channels() == self.m * self.group
        &&& range_product_fits(self.full_output_shape@, self.spatial_lo(), self.spatial_hi())
        &&& self.n == range_product(self.full_output_shape@, self.spatial_lo(), self.spatial_hi())
        &&& range_product_fits(self.full_output_shape@, 0, self.rank())
        &&& self.bias matches Some(b) ==> {
            &&& b.wf()
            &&& range_product_fits(b.shape@, 0, b.shape@.len() as int)
            &&& broadcastable(b.shape@, self.full_output_shape@)
        }
    }

    /// The mega-matrix fits the configuration: at least `k` rows and one block of `n`
    /// columns per batch element and group.
    pub open spec fn accepts(&self, mega: &Matrix) -> bool {
        &&& mega.wf()
        &&& mega.rows >= self.k
        &&& mega.cols == self.n * self.group * self.batch()
    }

    /// Column of the mega-matrix that feeds output element (batch `b`, channel `c`,
    /// spatial position `s`): tiles are laid out batch-major, group-minor.
    pub open spec fn mega_col(&self, b: int, c: int, s: int) -> int {
        tile_col(self.n as int, self.group as int, b, c / (self.m as int), s)
    }

    /// The product value at flat output position `j`, before bias.
    pub open spec fn gemm_value(&self, mega: &Matrix, j: int) -> int {
        let cs = self.channels();
        let n = self.n as int;
        let c = flat_channel(self.fmt(), cs, n, j);
        gemm_entry(
            &self.kernel,
            mega,
            c,
            self.mega_col(flat_batch(self.fmt(), cs, n, j), c, flat_spatial(self.fmt(), cs, n, j)),
        )
    }

    /// The bias value at flat output position `j`, zero without bias.
    pub open spec fn bias_value(&self, j: int) -> int {
        match self.bias {
            Some(b) => bias_at(self.full_output_shape@, b, j),
            None => 0,
        }
    }

    /// The output value at flat position `j`.
    pub open spec fn output_value(&self, mega: &Matrix, j: int) -> int {
        self.gemm_value(mega, j) + self.bias_value(j)
    }

    /// Every product entry is computed without leaving the `i64` range.
    pub open spec fn gemm_ok(&self, mega: &Matrix) -> bool {
        forall|b: int, c: int, s: int|
            0 <= b < self.batch() && 0 <= c < self.channels() && 0 <= s < self.n ==> #[trigger] gemm_fits(
                &self.kernel,
                mega,
                c,
                self.mega_col(b, c, s),
            )
    }

    /// The whole evaluation stays within the `i64` range.
    pub open spec fn computable(&self, mega: &Matrix) -> bool {
        &&& self.gemm_ok(mega)
        &&& self.bias is Some ==> forall|j: int|
            0 <= j < self.total() ==> in_i64(#[trigger] self.output_value(mega, j))
    }

    /// `r` is what evaluating on `mega` yields: `ShapeMismatch` exactly when the
    /// configuration or the mega-matrix is inconsistent, otherwise `Overflow` exactly
    /// when a value leaves the `i64` range, otherwise the output of shape
    /// `full_output_shape` holding `output_value` at each flat position.
    pub open spec fn conv_result(&self, mega: &Matrix, r: Result<Tensor, ConvError>) -> bool {
        &&& !(self.wf() && self.accepts(mega)) <==> r == Err::<Tensor, ConvError>(ConvError::ShapeMismatch)
        &&& self.wf() && self.accepts(mega) ==> {
            &&& r is Ok <==> self.computable(mega)
            &&& r is Err ==> r == Err::<Tensor, ConvError>(ConvError::Overflow)
            &&& r matches Ok(t) ==> {
                &&& t.shape@ == self.full_output_shape@
                &&& t.data@.len() == self.total()
                &&& forall|j: int| 0 <= j < self.total() ==> #[trigger] t.data@[j] == self.output_value(mega, j)
            }
        }
    }

    /// Builds a convolution, failing with `ShapeMismatch` exactly when the
    /// configuration is inconsistent (among others, when `m * group` differs from the
    /// channel count of `full_output_shape`).
    pub fn new(
        patch: Patch,
        full_output_shape: Vec<usize>,
        m: usize,
        k: usize,
        n: usize,
        kernel_fmt: KernelFormat,
        kernel: Matrix,
        bias: Option<Tensor>,
        group: usize,
    ) -> (r: Result<ConvGemm, ConvError>)
        ensures
            r is Ok <==> (ConvGemm { patch, full_output_shape, m, k, n, kernel_fmt, kernel, bias, group }).wf(),
            r is Err ==> r == Err::<ConvGemm, ConvError>(ConvError::ShapeMismatch),
            r matches Ok(c) ==> c == (ConvGemm { patch, full_output_shape, m, k, n, kernel_fmt, kernel, bias, group }),
    {
        let c = ConvGemm { patch, full_output_shape, m, k, n, kernel_fmt, kernel, bias, group };
        if c.is_well_formed() {
            Ok(c)
        } else {
            Err(ConvError::ShapeMismatch)
        }
    }

    /// The operator's name.
    pub fn name(&self) -> (r: String)
        ensures
            r@ == "ConvGemm"@,
    {
        "ConvGemm".to_owned()
    }

    /// The constraints the operator declares for inference: one input and one output,
    /// both of the kernel's element type, the output of shape `full_output_shape`.
    pub fn rules(&self) -> (r: InferenceRules)
        ensures
            r.inputs_len == 1,
            r.outputs_len == 1,
            r.input_datum_type == DatumType::I64,
            r.output_datum_type == DatumType::I64,
            r.output_shape@ == self.full_output_shape@,
    {
        InferenceRules {
            inputs_len: 1,
            outputs_len: 1,
            input_datum_type: DatumType::I64,
            output_datum_type: DatumType::I64,
            output_shape: copy_dims(&self.full_output_shape),
        }
    }

    /// Runs the operator on its inputs: exactly one rank-2 tensor, the mega-matrix.
    /// Fails with `InputCount` when there is not exactly one input and with
    /// `ShapeMismatch` when it is not of rank 2; otherwise yields what `conv_gemm`
    /// yields, its output as the single result.
    pub fn eval(&self, inputs: Vec<Tensor>) -> (r: Result<Vec<Tensor>, ConvError>)
        ensures
            inputs@.len() != 1 ==> r == Err::<Vec<Tensor>, ConvError>(ConvError::InputCount),
            inputs@.len() == 1 && inputs@[0].shape@.len() != 2 ==> r == Err::<Vec<Tensor>, ConvError>(
                ConvError::ShapeMismatch,
            ),
            r matches Ok(v) ==> v@.len() == 1,
            inputs@.len() == 1 && inputs@[0].shape@.len() == 2 ==> self.conv_result(
                &matrix_of(inputs@[0]),
                match r {
                    Ok(v) => Ok(v@[0]),
                    Err(e) => Err(e),
                },
            ),
    {
        let mut inputs = inputs;
        if inputs.len() != 1 {
            return Err(ConvError::InputCount);
        }
        let input = match inputs.pop() {
            Some(t) => t,
            None => {
                return Err(ConvError::InputCount);
            },
        };
        if input.shape.len() != 2 {
            return Err(ConvError::ShapeMismatch);
        }
        let mega = Matrix { rows: input.shape[0], cols: input.shape[1], data: input.data };
        match self.conv_gemm(&mega) {
            Ok(t) => {
                let mut v: Vec<Tensor> = Vec::new();
                v.push(t);
                Ok(v)
            },
            Err(e) => Err(e),
        }
    }

    /// Checks the configuration.
    pub fn is_well_formed(&self) -> (r: bool)
        ensures
            r == self.wf(),
    {
        let rank = self.full_output_shape.len();
        if rank < 2 || self.patch.input_shape.shape.len() != rank || self.group == 0 {
            return false;
        }
        match self.kernel_fmt {
            KernelFormat::OIHW => {},
            KernelFormat::HWIO => {
                return false;
            },
        }
        if self.patch.input_shape.shape[0] != self.full_output_shape[0] {
            return false;
        }
        if !self.kernel.is_well_formed() || self.kernel.cols != self.k {
            return false;
        }
        let mg = match self.m.checked_mul(self.group) {
            Some(v) => v,
            None => {
                return false;
            },
        };
        if self.kernel.rows != mg {
            return false;
        }
        let c_axis = self.patch.input_shape.c_axis();
        if self.full_output_shape[c_axis] != mg {
            return false;
        }
        let (lo, hi) = match self.patch.input_shape.fmt {
            DataFormat::NCHW => (2, rank),
            DataFormat::NHWC => (1, rank - 1),
        };
        match checked_range_product(&self.full_output_shape, lo, hi) {
            Some(p) => {
                if p != self.n {
                    return false;
                }
            },
            None => {
                return false;
            },
        }
        if checked_range_product(&self.full_output_shape, 0, rank).is_none() {
            return false;
        }
        match &self.bias {
            Some(b) => {
                let bias_len = b.data.len();
                proof {
                    assert(b.shape@.subrange(0, b.shape@.len() as int) =~= b.shape@);
                }
                match checked_range_product(&b.shape, 0, b.shape.len()) {
                    Some(p) => {
                        if p != bias_len {
                            return false;
                        }
                    },
                    None => {
                        return false;
                    },
                }
                let b_rank = b.shape.len();
                if b_rank > rank {
                    return false;
                }
                let offset = rank - b_rank;
                let mut a: usize = 0;
                while a < b_rank
                    invariant
                        self.bias == Some(*b),
                        a <= b_rank,
                        b_rank == b.shape@.len(),
                        rank == self.full_output_shape@.len(),
                        offset + b_rank == rank,
                        forall|i: int|
                            0 <= i < a ==> #[trigger] b.shape@[i] == 1 || b.shape@[i]
                                == self.full_output_shape@[i + offset],
                    decreases b_rank - a,
                {
                    if b.shape[a] != 1 && b.shape[a] != self.full_output_shape[a + offset] {
                        assert(!broadcastable(b.shape@, self.full_output_shape@)) by {
                            assert(!(b.shape@[a as int] == 1 || b.shape@[a as int]
                                == self.full_output_shape@[a + offset]));
                        };
                        return false;
                    }
                    a += 1;
                }
            },
            None => {},
        }
        true
    }
    /// The output holds one element per batch element, channel and spatial position.
    pub proof fn lemma_total(&self)
        requires
            self.wf(),
        ensures
            self.total() == self.batch() * self.channels() * self.n,
            self.batch() >= 0,
            self.channels() >= 0,
    {
        let s = self.full_output_shape@;
        let r = self.rank();
        assert(s.subrange(0, r) =~= s);
        lemma_range_product_single(s, 0);
        lemma_range_product_split(s, 0, 1, r);
        match self.fmt() {
            DataFormat::NCHW => {
                lemma_range_product_single(s, 1);
                lemma_range_product_split(s, 1, 2, r);
                assert(s[0] * (s[1] * self.n) == s[0] * s[1] * self.n) by (nonlinear_arith);
            },
            DataFormat::NHWC => {
                lemma_range_product_single(s, r - 1);
                lemma_range_product_split(s, 1, r - 1, r);
                assert(s[0] * (self.n * s[r - 1]) == s[0] * s[r - 1] * self.n) by (nonlinear_arith);
            },
        }
    }

    /// Evaluates the convolution on a mega-matrix whose column block
    /// `n * (g + i * group) ..` holds the receptive fields of batch element `i` and
    /// group `g`: output channel `c` of batch element `i` at spatial position `s` is
    /// row `c` of the kernel times column `n * (c / m + i * group) + s` of the
    /// mega-matrix, plus the broadcast bias. Fails with `ShapeMismatch` exactly when the
    /// configuration or the mega-matrix is inconsistent, and otherwise with `Overflow`
    /// exactly when a value leaves the `i64` range.
    pub fn conv_gemm(&self, mega: &Matrix) -> (r: Result<Tensor, ConvError>)
        ensures
            self.conv_result(mega, r),
    {
        if !self.is_well_formed() || !mega.is_well_formed() || mega.rows < self.k {
            return Err(ConvError::ShapeMismatch);
        }
        let batch = self.full_output_shape[0];
        let group = self.group;
        let m = self.m;
        let n = self.n;
        let cols: usize = if batch == 0 {
            0
        } else {
            match n.checked_mul(group) {
                Some(v) => match v.checked_mul(batch) {
                    Some(w) => w,
                    None => {
                        return Err(ConvError::ShapeMismatch);
                    },
                },
                None => {
                    assert(n * group * batch >= n * group) by (nonlinear_arith)
                        requires
                            batch >= 1,
                            n * group >= 0,
                    ;
                    return Err(ConvError::ShapeMismatch);
                },
            }
        };
        if cols != mega.cols {
            return Err(ConvError::ShapeMismatch);
        }
        let rank = self.full_output_shape.len();
        let total = match checked_range_product(&self.full_output_shape, 0, rank) {
            Some(p) => p,
            None => {
                return Err(ConvError::ShapeMismatch);
            },
        };
        let fmt = self.patch.input_shape.fmt;
        let c_axis = self.patch.input_shape.c_axis();
        let cs = self.full_output_shape[c_axis];
        proof {
            assert(self.full_output_shape@.subrange(0, rank as int) =~= self.full_output_shape@);
            self.lemma_total();
        }
        let panel_len: usize = if batch > 0 {
            assert(m * n <= total) by (nonlinear_arith)
                requires
                    total == batch * (m * group) * n,
                    batch >= 1,
                    group >= 1,
            ;
            m * n
        } else {
            0
        };
        let mut output = zeros(total);
        let mut panel = zeros(panel_len);
        proof {
            assert forall|j: int| 0 <= j < total implies 0 <= #[trigger] flat_batch(fmt, cs as int, n as int, j) by {
                lemma_flat_decode(fmt, cs as int, n as int, batch as int, j);
            };
        }
        let mut col0: usize = 0;
        let mut i: usize = 0;
        while i < batch
            invariant
                col0 == n * (i * group),
                self.wf(),
                self.accepts(mega),
                batch == self.batch(),
                group == self.group,
                m == self.m,
                n == self.n,
                fmt == self.fmt(),
                cs == self.channels(),
                cs == m * group,
                total == self.total(),
                total == batch * cs * n,
                output@.len() == total,
                batch > 0 ==> panel@.len() == m * n,
                i <= batch,
                forall|b: int, c: int, s: int|
                    0 <= b < i && 0 <= c < cs && 0 <= s < n ==> #[trigger] gemm_fits(
                        &self.kernel,
                        mega,
                        c,
                        self.mega_col(b, c, s),
                    ),
                forall|j: int|
                    0 <= j < total && flat_batch(fmt, cs as int, n as int, j) < i ==> #[trigger] output@[j]
                        == self.gemm_value(mega, j),
            decreases batch - i,
        {
            proof {
                assert forall|j: int| 0 <= j < total implies 0 <= #[trigger] flat_channel(fmt, cs as int, n as int, j) by {
                    lemma_flat_decode(fmt, cs as int, n as int, batch as int, j);
                };
                assert(n * (0 + i * group) == n * (i * group));
            }
            let mut g: usize = 0;
            while g < group
                invariant
                    col0 == n * (g + i * group),
                    self.wf(),
                    self.accepts(mega),
                    batch == self.batch(),
                    group == self.group,
                    m == self.m,
                    n == self.n,
                    fmt == self.fmt(),
                    cs == self.channels(),
                    cs == m * group,
                    total == self.total(),
                    total == batch * cs * n,
                    output@.len() == total,
                    panel@.len() == m * n,
                    i < batch,
                    g <= group,
                    forall|b: int, c: int, s: int|
                        (0 <= b < i && 0 <= c < cs && 0 <= s < n) || (b == i && 0 <= c < g * m && 0
                            <= s < n) ==> #[trigger] gemm_fits(&self.kernel, mega, c, self.mega_col(b, c, s)),
                    forall|j: int|
                        0 <= j < total && (flat_batch(fmt, cs as int, n as int, j) < i || (flat_batch(
                            fmt,
                            cs as int,
                            n as int,
                            j,
                        ) == i && flat_channel(fmt, cs as int, n as int, j) < g * m)) ==> #[trigger] output@[j]
                            == self.gemm_value(mega, j),
                decreases group - g,
            {
                proof {
                    assert(g * m + m <= m * group) by (nonlinear_arith)
                        requires
                            g < group,
                    ;
                    assert((g + i * group) * n + n <= n * group * batch) by (nonlinear_arith)
                        requires
                            g < group,
                            i < batch,
                    ;
                    assert(n * (g + i * group) == (g + i * group) * n) by (nonlinear_arith);
                }
                let c0 = g * m;
                assert((g + 1) * m == g * m + m) by (nonlinear_arith);
                let ok = mat_mul(&self.kernel, c0, mega, col0, m, n, &mut panel);
                if !ok {
                    proof {
                        if self.gemm_ok(mega) {
                            assert forall|c: int, col: int|
                                c0 <= c < c0 + m && col0 <= col < col0 + n implies #[trigger] gemm_fits(
                                &self.kernel,
                                mega,
                                c,
                                col,
                            ) by {
                                lemma_group_of(c, m as int, g as int);
                                assert(c < cs);
                                assert(self.mega_col(i as int, c, col - col0) == col);
                            };
                        }
                    }
                    return Err(ConvError::Overflow);
                }
                proof {
                    assert forall|c: int, s: int|
                        c0 <= c < c0 + m && 0 <= s < n implies self.mega_col(i as int, c, s) == col0 + s by {
                        lemma_group_of(c, m as int, g as int);
                    };
                }
                let ghost before = output@;
                scatter(&mut output, &panel, fmt, cs, n, batch, i, c0, m);
                proof {
                    assert forall|b: int, c: int, s: int|
                        (0 <= b < i && 0 <= c < cs && 0 <= s < n) || (b == i && 0 <= c < (g + 1) * m
                            && 0 <= s < n) implies #[trigger] gemm_fits(
                        &self.kernel,
                        mega,
                        c,
                        self.mega_col(b, c, s),
                    ) by {
                        if b == i && c >= g * m {
                            assert(self.mega_col(i as int, c, s) == col0 + s);
                        }
                    };
                    assert forall|j: int|
                        0 <= j < total && (flat_batch(fmt, cs as int, n as int, j) < i || (flat_batch(
                            fmt,
                            cs as int,
                            n as int,
                            j,
                        ) == i && flat_channel(fmt, cs as int, n as int, j) < (g + 1) * m)) implies #[trigger] output@[j]
                        == self.gemm_value(mega, j) by {
                        lemma_flat_decode(fmt, cs as int, n as int, batch as int, j);
                        let ch = flat_channel(fmt, cs as int, n as int, j);
                        let sp = flat_spatial(fmt, cs as int, n as int, j);
                        if in_tile(fmt, cs as int, n as int, i as int, c0 as int, m as int, j) {
                            assert(self.mega_col(i as int, ch, sp) == col0 + sp);
                            assert(output@[j] == panel_at(panel@, n as int, ch - c0, sp));
                            assert(panel_at(panel@, n as int, ch - c0, (col0 + sp) - col0)
                                == gemm_entry(&self.kernel, mega, ch, col0 + sp));
                        } else {
                            assert(output@[j] == before[j]);
                        }
                    };
                }
                col0 = col0 + n;
                assert(col0 == n * ((g + 1) + i * group)) by (nonlinear_arith)
                    requires
                        col0 == n * (g + i * group) + n,
                ;
                g += 1;
            }
            proof {
                assert(group * m == cs) by (nonlinear_arith)
                    requires
                        cs == m * group,
                ;
                assert(n * (group + i * group) == n * ((i + 1) * group)) by (nonlinear_arith);
                assert forall|j: int|
                    0 <= j < total && flat_batch(fmt, cs as int, n as int, j) < i + 1 implies #[trigger] output@[j]
                    == self.gemm_value(mega, j) by {
                    lemma_flat_decode(fmt, cs as int, n as int, batch as int, j);
                };
            }
            i += 1;
        }
        proof {
            assert forall|j: int| 0 <= j < total implies #[trigger] output@[j] == self.gemm_value(mega, j) by {
                lemma_flat_decode(fmt, cs as int, n as int, batch as int, j);
            };
        }
        match &self.bias {
            Some(b) => {
                let ghost before = output@;
                if !add_bias(&mut output, &self.full_output_shape, b) {
                    proof {
                        if self.computable(mega) {
                            assert forall|j: int| 0 <= j < total implies in_i64(
                                #[trigger] before[j] + bias_at(self.full_output_shape@, *b, j),
                            ) by {
                                assert(before[j] == self.gemm_value(mega, j));
                                assert(in_i64(self.output_value(mega, j)));
                            };
                        }
                    }
                    return Err(ConvError::Overflow);
                }
                proof {
                    assert forall|j: int| 0 <= j < total implies in_i64(#[trigger] self.output_value(mega, j)) by {
                        assert(before[j] == self.gemm_value(mega, j));
                        assert(in_i64(before[j] + bias_at(self.full_output_shape@, *b, j)));
                    };
                }
            },
            None => {},
        }
        Ok(Tensor { shape: copy_dims(&self.full_output_shape), data: output })
    }
}

} // verus!
