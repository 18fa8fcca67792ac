use vstd::prelude::*;

use crate::bias::{bias_at, lemma_bcast_index_bound};
use crate::conv::{tile_col, ConvGemm};
use crate::gemm::{dot_sum, gemm_entry, gemm_fits, lemma_dot_agree, lemma_dot_fits_in_range};
use crate::layout::{flat_batch, flat_channel, flat_spatial, lemma_flat_decode, lemma_out_index, out_index};
use crate::shape::DataFormat;
use crate::tensor::{Matrix, Tensor};

verus! {

/// Two configurations with the same output shape, layout, tile sizes and group count;
/// their patches, kernel formats, kernels and biases are left unconstrained.
pub open spec fn same_shape(cfg1: &ConvGemm, cfg2: &ConvGemm) -> bool {
    &&& cfg1.full_output_shape@ == cfg2.full_output_shape@
    &&& cfg1.fmt() == cfg2.fmt()
    &&& cfg1.m == cfg2.m
    &&& cfg1.k == cfg2.k
    &&& cfg1.n == cfg2.n
    &&& cfg1.group == cfg2.group
}

/// One product entry depends only on its kernel row and its mega-matrix column.
proof fn lemma_gemm_entry_agree(k1: &Matrix, k2: &Matrix, m1: &Matrix, m2: &Matrix, c: int, col: int)
    requires
        k1.cols == k2.cols,
        m1.cols == m2.cols,
        forall|t: int| 0 <= t < k1.cols ==> #[trigger] k1.at(c, t) == k2.at(c, t),
        forall|t: int| 0 <= t < k1.cols ==> #[trigger] m1.at(t, col) == m2.at(t, col),
    ensures
        gemm_entry(k1, m1, c, col) == gemm_entry(k2, m2, c, col),
        gemm_fits(k1, m1, c, col) == gemm_fits(k2, m2, c, col),
{
    let ao = c * k1.cols;
    let bs = m1.cols as int;
    assert forall|u: int| 0 <= u < k1.cols implies #[trigger] k1.data@[ao + u] == k2.data@[ao + u] by {
        assert(k1.at(c, u) == k2.at(c, u));
    };
    assert forall|u: int| 0 <= u < k1.cols implies #[trigger] m1.data@[col + u * bs] == m2.data@[col + u * bs] by {
        assert(m1.at(u, col) == m2.at(u, col));
        assert(u * bs + col == col + u * bs);
    };
    lemma_dot_agree(k1.data@, k2.data@, ao, m1.data@, m2.data@, col, bs, k1.cols as nat);
}

/// Output position `j` agrees between two runs whose kernel row and mega-matrix column
/// for `j` agree.
proof fn lemma_output_agree(
    cfg1: &ConvGemm,
    mega1: &Matrix,
    t1: Tensor,
    cfg2: &ConvGemm,
    mega2: &Matrix,
    t2: Tensor,
    j: int,
)
    requires
        cfg1.wf(),
        cfg2.wf(),
        cfg1.accepts(mega1),
        cfg2.accepts(mega2),
        same_shape(cfg1, cfg2),
        cfg1.bias == cfg2.bias,
        cfg1.conv_result(mega1, Ok(t1)),
        cfg2.conv_result(mega2, Ok(t2)),
        0 <= j < cfg1.total(),
        forall|t: int|
            0 <= t < cfg1.k ==> #[trigger] cfg1.kernel.at(
                flat_channel(cfg1.fmt(), cfg1.channels(), cfg1.n as int, j),
                t,
            ) == cfg2.kernel.at(flat_channel(cfg1.fmt(), cfg1.channels(), cfg1.n as int, j), t),
        forall|t: int|
            0 <= t < cfg1.k ==> #[trigger] mega1.at(
                t,
                cfg1.mega_col(
                    flat_batch(cfg1.fmt(), cfg1.channels(), cfg1.n as int, j),
                    flat_channel(cfg1.fmt(), cfg1.channels(), cfg1.n as int, j),
                    flat_spatial(cfg1.fmt(), cfg1.channels(), cfg1.n as int, j),
                ),
            ) == mega2.at(
                t,
                cfg1.mega_col(
                    flat_batch(cfg1.fmt(), cfg1.channels(), cfg1.n as int, j),
                    flat_channel(cfg1.fmt(), cfg1.channels(), cfg1.n as int, j),
                    flat_spatial(cfg1.fmt(), cfg1.channels(), cfg1.n as int, j),
                ),
            ),
    ensures
        t1.data@[j] == t2.data@[j],
{
    let cs = cfg1.channels();
    let n = cfg1.n as int;
    let c = flat_channel(cfg1.fmt(), cs, n, j);
    let col = cfg1.mega_col(flat_batch(cfg1.fmt(), cs, n, j), c, flat_spatial(cfg1.fmt(), cs, n, j));
    assert(mega1.cols == mega2.cols);
    lemma_gemm_entry_agree(&cfg1.kernel, &cfg2.kernel, mega1, mega2, c, col);
    assert(t1.data@[j] == cfg1.output_value(mega1, j));
    assert(t2.data@[j] == cfg2.output_value(mega2, j));
}

/// With one group and one batch element the whole convolution is a single product:
/// output channel `c` at spatial position `s` is row `c` of the kernel times column
/// `s` of the mega-matrix, plus the bias.
pub proof fn lemma_single_tile(cfg: &ConvGemm, mega: &Matrix, t: Tensor, c: int, s: int)
    requires
        cfg.wf(),
        cfg.accepts(mega),
        cfg.group == 1,
        cfg.batch() == 1,
        cfg.conv_result(mega, Ok(t)),
        0 <= c < cfg.channels(),
        0 <= s < cfg.n,
    ensures
        t.data@[out_index(cfg.fmt(), cfg.channels(), cfg.n as int, 0, c, s)] == gemm_entry(
            &cfg.kernel,
            mega,
            c,
            s,
        ) + cfg.bias_value(out_index(cfg.fmt(), cfg.channels(), cfg.n as int, 0, c, s)),
{
    let cs = cfg.channels();
    let n = cfg.n as int;
    cfg.lemma_total();
    lemma_out_index(cfg.fmt(), cs, n, 1, 0, c, s);
    vstd::arithmetic::div_mod::lemma_fundamental_div_mod_converse(c, cfg.m as int, 0, c);
    assert(n * (0 + 0 * 1) + s == s) by (nonlinear_arith);
}

/// Flat spatial position of output row `oy`, column `ox` in an output of width `ow`.
pub open spec fn spatial_pos(ow: int, oy: int, ox: int) -> int {
    oy * ow + ox
}

/// The input value that kernel column `u` meets at output position `(oy, ox)` of a
/// convolution with a `kh` by `kw` kernel, strides `sh` and `sw` and no padding, over a
/// single channel-first input of height `h` and width `w`: column `u` stands for input
/// channel `u / (kh * kw)`, kernel row `(u / kw) % kh` and kernel column `u % kw`.
pub open spec fn receptive_value(
    input: Seq<i64>,
    h: int,
    w: int,
    kh: int,
    kw: int,
    sh: int,
    sw: int,
    oy: int,
    ox: int,
    u: int,
) -> int {
    input[((u / (kh * kw)) * h + oy * sh + (u / kw) % kh) * w + ox * sw + u % kw] as int
}

/// Direct convolution at output channel `co`, position `(oy, ox)`: the sum, over the
/// first `t` (input channel, kernel row, kernel column) triples in row-major order, of
/// kernel weight times the input value it meets.
pub open spec fn direct_conv(
    kernel: &Matrix,
    input: Seq<i64>,
    h: int,
    w: int,
    kh: int,
    kw: int,
    sh: int,
    sw: int,
    co: int,
    oy: int,
    ox: int,
    t: nat,
) -> int
    decreases t,
{
    if t == 0 {
        0
    } else {
        direct_conv(kernel, input, h, w, kh, kw, sh, sw, co, oy, ox, (t - 1) as nat) + kernel.at(
            co,
            t - 1,
        ) * receptive_value(input, h, w, kh, kw, sh, sw, oy, ox, t - 1)
    }
}

/// `mega` holds the receptive fields of `input` as columns: entry `(u, oy * ow + ox)`
/// is the input value that kernel column `u` meets at output position `(oy, ox)`.
pub open spec fn is_im2col(
    mega: &Matrix,
    input: Seq<i64>,
    h: int,
    w: int,
    kh: int,
    kw: int,
    sh: int,
    sw: int,
    oh: int,
    ow: int,
    k: int,
) -> bool {
    forall|u: int, oy: int, ox: int|
        0 <= u < k && 0 <= oy < oh && 0 <= ox < ow ==> #[trigger] mega.at(u, spatial_pos(ow, oy, ox))
            == receptive_value(input, h, w, kh, kw, sh, sw, oy, ox, u)
}

proof fn lemma_dot_is_direct(
    kernel: &Matrix,
    mega: &Matrix,
    input: Seq<i64>,
    h: int,
    w: int,
    kh: int,
    kw: int,
    sh: int,
    sw: int,
    oh: int,
    ow: int,
    co: int,
    oy: int,
    ox: int,
    t: nat,
)
    requires
        t <= kernel.cols,
        0 <= oy < oh,
        0 <= ox < ow,
        is_im2col(mega, input, h, w, kh, kw, sh, sw, oh, ow, kernel.cols as int),
    ensures
        dot_sum(
            kernel.data@,
            co * kernel.cols,
            mega.data@,
            spatial_pos(ow, oy, ox),
            mega.cols as int,
            t,
        ) == direct_conv(kernel, input, h, w, kh, kw, sh, sw, co, oy, ox, t),
    decreases t,
{
    if t > 0 {
        lemma_dot_is_direct(kernel, mega, input, h, w, kh, kw, sh, sw, oh, ow, co, oy, ox, (t - 1) as nat);
        let u = t - 1;
        assert(mega.at(u, spatial_pos(ow, oy, ox)) == receptive_value(input, h, w, kh, kw, sh, sw, oy, ox, u));
        assert(spatial_pos(ow, oy, ox) + u * mega.cols == u * mega.cols + spatial_pos(ow, oy, ox));
    }
}

/// With one group, one batch element, channel-first storage and no bias, evaluating on
/// the receptive fields of an input gives the direct convolution of that input: output
/// channel `co` at position `(oy, ox)` is the sum over input channels and kernel rows
/// and columns of kernel weight times the input value it meets.
pub proof fn lemma_direct_convolution(
    cfg: &ConvGemm,
    mega: &Matrix,
    t: Tensor,
    input: Seq<i64>,
    h: int,
    w: int,
    kh: int,
    kw: int,
    sh: int,
    sw: int,
    oh: int,
    ow: int,
)
    requires
        cfg.wf(),
        cfg.accepts(mega),
        cfg.group == 1,
        cfg.batch() == 1,
        cfg.fmt() == DataFormat::NCHW,
        cfg.bias is None,
        cfg.n == oh * ow,
        is_im2col(mega, input, h, w, kh, kw, sh, sw, oh, ow, cfg.k as int),
        cfg.conv_result(mega, Ok(t)),
    ensures
        forall|co: int, oy: int, ox: int|
            0 <= co < cfg.channels() && 0 <= oy < oh && 0 <= ox < ow ==> t.data@[co * cfg.n + spatial_pos(
                ow,
                oy,
                ox,
            )] == #[trigger] direct_conv(&cfg.kernel, input, h, w, kh, kw, sh, sw, co, oy, ox, cfg.k as nat),
{
    assert forall|co: int, oy: int, ox: int|
        0 <= co < cfg.channels() && 0 <= oy < oh && 0 <= ox < ow implies t.data@[co * cfg.n + spatial_pos(
        ow,
        oy,
        ox,
    )] == #[trigger] direct_conv(&cfg.kernel, input, h, w, kh, kw, sh, sw, co, oy, ox, cfg.k as nat) by {
        let s = spatial_pos(ow, oy, ox);
        assert(0 <= s < cfg.n) by (nonlinear_arith)
            requires
                s == oy * ow + ox,
                0 <= oy < oh,
                0 <= ox < ow,
                cfg.n == oh * ow,
        ;
        lemma_single_tile(cfg, mega, t, co, s);
        assert(out_index(DataFormat::NCHW, cfg.channels(), cfg.n as int, 0, co, s) == co * cfg.n + s) by (
        nonlinear_arith);
        lemma_dot_is_direct(&cfg.kernel, mega, input, h, w, kh, kw, sh, sw, oh, ow, co, oy, ox, cfg.k as nat);
    };
}

/// Group isolation: the outputs of group `g` depend only on the kernel rows of group
/// `g` and on the mega-matrix columns of group `g`; values outside them do not change
/// those outputs.
pub proof fn lemma_group_isolation(
    cfg1: &ConvGemm,
    mega1: &Matrix,
    t1: Tensor,
    cfg2: &ConvGemm,
    mega2: &Matrix,
    t2: Tensor,
    g: int,
)
    requires
        cfg1.wf(),
        cfg2.wf(),
        cfg1.accepts(mega1),
        cfg2.accepts(mega2),
        same_shape(cfg1, cfg2),
        cfg1.bias == cfg2.bias,
        cfg1.conv_result(mega1, Ok(t1)),
        cfg2.conv_result(mega2, Ok(t2)),
        0 <= g < cfg1.group,
        forall|c: int, t: int|
            g * cfg1.m <= c < g * cfg1.m + cfg1.m && 0 <= t < cfg1.k ==> #[trigger] cfg1.kernel.at(c, t)
                == cfg2.kernel.at(c, t),
        forall|t: int, b: int, s: int|
            0 <= t < cfg1.k && 0 <= b < cfg1.batch() && 0 <= s < cfg1.n ==> #[trigger] mega1.at(
                t,
                tile_col(cfg1.n as int, cfg1.group as int, b, g, s),
            ) == mega2.at(t, tile_col(cfg1.n as int, cfg1.group as int, b, g, s)),
    ensures
        forall|j: int|
            0 <= j < cfg1.total() && g * cfg1.m <= flat_channel(cfg1.fmt(), cfg1.channels(), cfg1.n as int, j)
                < g * cfg1.m + cfg1.m ==> #[trigger] t1.data@[j] == t2.data@[j],
{
    let cs = cfg1.channels();
    let n = cfg1.n as int;
    let m = cfg1.m as int;
    cfg1.lemma_total();
    assert forall|j: int|
        0 <= j < cfg1.total() && g * cfg1.m <= flat_channel(cfg1.fmt(), cs, n, j) < g * cfg1.m
            + cfg1.m implies #[trigger] t1.data@[j] == t2.data@[j] by {
        lemma_flat_decode(cfg1.fmt(), cs, n, cfg1.batch(), j);
        let c = flat_channel(cfg1.fmt(), cs, n, j);
        assert(m > 0) by (nonlinear_arith)
            requires
                g * m <= c < g * m + m,
        ;
        vstd::arithmetic::div_mod::lemma_fundamental_div_mod_converse(c, m, g, c - g * m);
        lemma_output_agree(cfg1, mega1, t1, cfg2, mega2, t2, j);
    };
}

/// Batch isolation: the outputs of batch element `i` depend only on the mega-matrix
/// columns of batch element `i`.
pub proof fn lemma_batch_isolation(
    cfg: &ConvGemm,
    mega1: &Matrix,
    t1: Tensor,
    mega2: &Matrix,
    t2: Tensor,
    i: int,
)
    requires
        cfg.wf(),
        cfg.accepts(mega1),
        cfg.accepts(mega2),
        cfg.conv_result(mega1, Ok(t1)),
        cfg.conv_result(mega2, Ok(t2)),
        0 <= i < cfg.batch(),
        forall|t: int, g: int, s: int|
            0 <= t < cfg.k && 0 <= g < cfg.group && 0 <= s < cfg.n ==> #[trigger] mega1.at(
                t,
                tile_col(cfg.n as int, cfg.group as int, i, g, s),
            ) == mega2.at(t, tile_col(cfg.n as int, cfg.group as int, i, g, s)),
    ensures
        forall|j: int|
            0 <= j < cfg.total() && flat_batch(cfg.fmt(), cfg.channels(), cfg.n as int, j) == i
                ==> #[trigger] t1.data@[j] == t2.data@[j],
{
    let cs = cfg.channels();
    let n = cfg.n as int;
    let m = cfg.m as int;
    cfg.lemma_total();
    assert forall|j: int|
        0 <= j < cfg.total() && flat_batch(cfg.fmt(), cs, n, j) == i implies #[trigger] t1.data@[j]
        == t2.data@[j] by {
        lemma_flat_decode(cfg.fmt(), cs, n, cfg.batch(), j);
        let c = flat_channel(cfg.fmt(), cs, n, j);
        assert(m > 0 && 0 <= c / m < cfg.group) by (nonlinear_arith)
            requires
                0 <= c < cs,
                cs == m * cfg.group,
                m >= 0,
        ;
        lemma_output_agree(cfg, mega1, t1, cfg, mega2, t2, j);
    };
}

/// Layout equivalence: the same convolution stored channel-first and channel-last
/// holds the same value for every batch element, channel and spatial position.
pub proof fn lemma_layout_equivalence(
    cfg1: &ConvGemm,
    t1: Tensor,
    cfg2: &ConvGemm,
    t2: Tensor,
    mega: &Matrix,
)
    requires
        cfg1.wf(),
        cfg2.wf(),
        cfg1.accepts(mega),
        cfg2.accepts(mega),
        cfg1.fmt() == DataFormat::NCHW,
        cfg2.fmt() == DataFormat::NHWC,
        cfg1.batch() == cfg2.batch(),
        cfg1.channels() == cfg2.channels(),
        cfg1.m == cfg2.m,
        cfg1.n == cfg2.n,
        cfg1.group == cfg2.group,
        cfg1.kernel == cfg2.kernel,
        forall|b: int, c: int, s: int|
            0 <= b < cfg1.batch() && 0 <= c < cfg1.channels() && 0 <= s < cfg1.n ==> #[trigger] cfg1.bias_value(
                out_index(DataFormat::NCHW, cfg1.channels(), cfg1.n as int, b, c, s),
            ) == cfg2.bias_value(out_index(DataFormat::NHWC, cfg1.channels(), cfg1.n as int, b, c, s)),
        cfg1.conv_result(mega, Ok(t1)),
        cfg2.conv_result(mega, Ok(t2)),
    ensures
        forall|b: int, c: int, s: int|
            0 <= b < cfg1.batch() && 0 <= c < cfg1.channels() && 0 <= s < cfg1.n ==> #[trigger] t1.data@[out_index(
                DataFormat::NCHW,
                cfg1.channels(),
                cfg1.n as int,
                b,
                c,
                s,
            )] == t2.data@[out_index(DataFormat::NHWC, cfg1.channels(), cfg1.n as int, b, c, s)],
{
    let cs = cfg1.channels();
    let n = cfg1.n as int;
    cfg1.lemma_total();
    cfg2.lemma_total();
    assert forall|b: int, c: int, s: int|
        0 <= b < cfg1.batch() && 0 <= c < cs && 0 <= s < n implies #[trigger] t1.data@[out_index(
        DataFormat::NCHW,
        cs,
        n,
        b,
        c,
        s,
    )] == t2.data@[out_index(DataFormat::NHWC, cs, n, b, c, s)] by {
        lemma_out_index(DataFormat::NCHW, cs, n, cfg1.batch(), b, c, s);
        lemma_out_index(DataFormat::NHWC, cs, n, cfg1.batch(), b, c, s);
    };
}

/// A bias of zeros leaves the evaluation unchanged: it succeeds exactly when the
/// evaluation without bias does, with the same values.
pub proof fn lemma_zero_bias(
    cfg: &ConvGemm,
    zcfg: &ConvGemm,
    mega: &Matrix,
    r: Result<Tensor, crate::conv::ConvError>,
    zr: Result<Tensor, crate::conv::ConvError>,
)
    requires
        cfg.wf(),
        zcfg.wf(),
        cfg.accepts(mega),
        same_shape(cfg, zcfg),
        cfg.kernel == zcfg.kernel,
        cfg.bias is None,
        zcfg.bias matches Some(z) && forall|i: int| 0 <= i < z.data@.len() ==> #[trigger] z.data@[i] == 0,
        cfg.conv_result(mega, r),
        zcfg.conv_result(mega, zr),
    ensures
        r is Ok <==> zr is Ok,
        r matches Ok(t) ==> zr matches Ok(zt) && forall|j: int|
            0 <= j < cfg.total() ==> #[trigger] t.data@[j] == zt.data@[j],
{
    let cs = cfg.channels();
    let n = cfg.n as int;
    let z = zcfg.bias->Some_0;
    cfg.lemma_total();
    assert(zcfg.accepts(mega));
    assert forall|j: int| 0 <= j < cfg.total() implies zcfg.bias_value(j) == 0 && #[trigger] zcfg.output_value(mega, j)
        == cfg.output_value(mega, j) by {
        lemma_bcast_index_bound(cfg.full_output_shape@, z.shape@, j);
    };
    assert(cfg.batch() == zcfg.batch() && cfg.channels() == zcfg.channels());
    if cfg.gemm_ok(mega) {
        assert forall|b: int, c: int, s: int|
            0 <= b < zcfg.batch() && 0 <= c < zcfg.channels() && 0 <= s < zcfg.n implies #[trigger] gemm_fits(
            &zcfg.kernel,
            mega,
            c,
            zcfg.mega_col(b, c, s),
        ) by {
            assert(gemm_fits(&cfg.kernel, mega, c, cfg.mega_col(b, c, s)));
        };
    }
    if zcfg.gemm_ok(mega) {
        assert forall|b: int, c: int, s: int|
            0 <= b < cfg.batch() && 0 <= c < cfg.channels() && 0 <= s < cfg.n implies #[trigger] gemm_fits(
            &cfg.kernel,
            mega,
            c,
            cfg.mega_col(b, c, s),
        ) by {
            assert(gemm_fits(&zcfg.kernel, mega, c, zcfg.mega_col(b, c, s)));
        };
    }
    if cfg.gemm_ok(mega) {
        assert forall|j: int| 0 <= j < cfg.total() implies crate::gemm::in_i64(#[trigger] zcfg.output_value(mega, j)) by {
            lemma_flat_decode(cfg.fmt(), cs, n, cfg.batch(), j);
            let b = flat_batch(cfg.fmt(), cs, n, j);
            let c = flat_channel(cfg.fmt(), cs, n, j);
            let s = flat_spatial(cfg.fmt(), cs, n, j);
            assert(gemm_fits(&cfg.kernel, mega, c, cfg.mega_col(b, c, s)));
            lemma_dot_fits_in_range(
                cfg.kernel.data@,
                c * cfg.kernel.cols,
                mega.data@,
                cfg.mega_col(b, c, s),
                mega.cols as int,
                cfg.kernel.cols as nat,
            );
        };
    }
}

/// Adding a bias and then subtracting it again gives back the evaluation without
/// bias: each element differs from it by exactly the broadcast bias value.
pub proof fn lemma_bias_offset(
    cfg: &ConvGemm,
    bcfg: &ConvGemm,
    mega: &Matrix,
    t: Tensor,
    bt: Tensor,
    bias: Tensor,
)
    requires
        cfg.wf(),
        bcfg.wf(),
        cfg.accepts(mega),
        same_shape(cfg, bcfg),
        cfg.kernel == bcfg.kernel,
        cfg.bias is None,
        bcfg.bias == Some(bias),
        cfg.conv_result(mega, Ok(t)),
        bcfg.conv_result(mega, Ok(bt)),
    ensures
        forall|j: int|
            0 <= j < cfg.total() ==> #[trigger] bt.data@[j] - bias_at(cfg.full_output_shape@, bias, j)
                == t.data@[j],
{
    assert(bcfg.accepts(mega));
    assert forall|j: int| 0 <= j < cfg.total() implies #[trigger] bt.data@[j] - bias_at(
        cfg.full_output_shape@,
        bias,
        j,
    ) == t.data@[j] by {
        assert(bt.data@[j] == bcfg.output_value(mega, j));
        assert(t.data@[j] == cfg.output_value(mega, j));
    };
}

/// A configuration whose `m * group` is not the channel count of its output shape is
/// rejected.
pub proof fn lemma_channel_mismatch_rejected(cfg: &ConvGemm)
    requires
        cfg.m * cfg.group != cfg.channels(),
    ensures
        !cfg.wf(),
{
}

} // verus!
