use vstd::arithmetic::div_mod::{
    lemma_fundamental_div_mod,
    lemma_fundamental_div_mod_converse,
    lemma_mod_bound,
};
use vstd::prelude::*;

use crate::gemm::panel_at;
use crate::shape::DataFormat;

verus! {

/// Flat position of the logical output element (batch `b`, channel `c`, spatial
/// position `s`) in an output with `cs` channels and `n` spatial positions.
pub open spec fn out_index(fmt: DataFormat, cs: int, n: int, b: int, c: int, s: int) -> int {
    match fmt {
        DataFormat::NCHW => (b * cs + c) * n + s,
        DataFormat::NHWC => (b * n + s) * cs + c,
    }
}

/// Size of the innermost (fastest-varying) logical factor.
pub open spec fn inner_dim(fmt: DataFormat, cs: int, n: int) -> int {
    match fmt {
        DataFormat::NCHW => n,
        DataFormat::NHWC => cs,
    }
}

/// Size of the middle logical factor, between batch and the innermost one.
pub open spec fn mid_dim(fmt: DataFormat, cs: int, n: int) -> int {
    match fmt {
        DataFormat::NCHW => cs,
        DataFormat::NHWC => n,
    }
}

/// Batch index of flat position `j`.
pub open spec fn flat_batch(fmt: DataFormat, cs: int, n: int, j: int) -> int {
    j / inner_dim(fmt, cs, n) / mid_dim(fmt, cs, n)
}

/// Channel of flat position `j`.
pub open spec fn flat_channel(fmt: DataFormat, cs: int, n: int, j: int) -> int {
    match fmt {
        DataFormat::NCHW => (j / n) % cs,
        DataFormat::NHWC => j % cs,
    }
}

/// Spatial position of flat position `j`.
pub open spec fn flat_spatial(fmt: DataFormat, cs: int, n: int, j: int) -> int {
    match fmt {
        DataFormat::NCHW => j % n,
        DataFormat::NHWC => (j / cs) % n,
    }
}

proof fn lemma_encode(b: int, x: int, y: int, xs: int, ys: int, bs: int)
    requires
        0 <= b < bs,
        0 <= x < xs,
        0 <= y < ys,
    ensures
        ((b * xs + x) * ys + y) % ys == y,
        ((b * xs + x) * ys + y) / ys == b * xs + x,
        (b * xs + x) % xs == x,
        (b * xs + x) / xs == b,
        0 <= (b * xs + x) * ys + y < bs * xs * ys,
{
    lemma_fundamental_div_mod_converse((b * xs + x) * ys + y, ys, b * xs + x, y);
    lemma_fundamental_div_mod_converse(b * xs + x, xs, b, x);
    assert(0 <= (b * xs + x) * ys + y < bs * xs * ys) by (nonlinear_arith)
        requires
            0 <= b < bs,
            0 <= x < xs,
            0 <= y < ys,
    ;
}

proof fn lemma_decode(j: int, xs: int, ys: int, bs: int)
    requires
        0 <= j < bs * xs * ys,
        xs > 0,
        ys > 0,
    ensures
        0 <= j % ys < ys,
        0 <= (j / ys) % xs < xs,
        0 <= j / ys / xs < bs,
        j == ((j / ys / xs) * xs + (j / ys) % xs) * ys + j % ys,
{
    lemma_fundamental_div_mod(j, ys);
    lemma_fundamental_div_mod(j / ys, xs);
    lemma_mod_bound(j, ys);
    lemma_mod_bound(j / ys, xs);
    let q = j / ys;
    let b = q / xs;
    assert(q >= 0 && b >= 0) by (nonlinear_arith)
        requires
            j >= 0,
            xs > 0,
            ys > 0,
            q == j / ys,
            b == q / xs,
    ;
    assert(j == (b * xs + q % xs) * ys + j % ys) by (nonlinear_arith)
        requires
            j == ys * q + j % ys,
            q == xs * b + q % xs,
    ;
    assert(b < bs) by (nonlinear_arith)
        requires
            j == (b * xs + q % xs) * ys + j % ys,
            0 <= q % xs,
            0 <= j % ys,
            xs > 0,
            ys > 0,
            j < bs * xs * ys,
    ;
}

/// The flat position of an in-range logical element lies in the output and decodes
/// back to that element.
pub proof fn lemma_out_index(fmt: DataFormat, cs: int, n: int, bs: int, b: int, c: int, s: int)
    requires
        0 <= b < bs,
        0 <= c < cs,
        0 <= s < n,
    ensures
        0 <= out_index(fmt, cs, n, b, c, s) < bs * cs * n,
        flat_batch(fmt, cs, n, out_index(fmt, cs, n, b, c, s)) == b,
        flat_channel(fmt, cs, n, out_index(fmt, cs, n, b, c, s)) == c,
        flat_spatial(fmt, cs, n, out_index(fmt, cs, n, b, c, s)) == s,
{
    match fmt {
        DataFormat::NCHW => {
            lemma_encode(b, c, s, cs, n, bs);
        },
        DataFormat::NHWC => {
            lemma_encode(b, s, c, n, cs, bs);
            assert(bs * n * cs == bs * cs * n) by (nonlinear_arith);
        },
    }
}

/// Every flat position of the output decodes to an in-range logical element, whose
/// flat position it is.
pub proof fn lemma_flat_decode(fmt: DataFormat, cs: int, n: int, bs: int, j: int)
    requires
        0 <= j < bs * cs * n,
        bs >= 0,
        cs >= 0,
        n >= 0,
    ensures
        0 <= flat_batch(fmt, cs, n, j) < bs,
        0 <= flat_channel(fmt, cs, n, j) < cs,
        0 <= flat_spatial(fmt, cs, n, j) < n,
        out_index(
            fmt,
            cs,
            n,
            flat_batch(fmt, cs, n, j),
            flat_channel(fmt, cs, n, j),
            flat_spatial(fmt, cs, n, j),
        ) == j,
{
    assert(cs > 0 && n > 0) by (nonlinear_arith)
        requires
            0 <= j < bs * cs * n,
            bs >= 0,
            cs >= 0,
            n >= 0,
    ;
    match fmt {
        DataFormat::NCHW => {
            lemma_decode(j, cs, n, bs);
        },
        DataFormat::NHWC => {
            assert(bs * n * cs == bs * cs * n) by (nonlinear_arith);
            lemma_decode(j, n, cs, bs);
        },
    }
}

/// Whether flat position `j` belongs to the tile of batch `b` and channels
/// `[c0, c0 + m)`.
pub open spec fn in_tile(fmt: DataFormat, cs: int, n: int, b: int, c0: int, m: int, j: int) -> bool {
    flat_batch(fmt, cs, n, j) == b && c0 <= flat_channel(fmt, cs, n, j) < c0 + m
}

/// Writes a row-major `(m, n)` panel into the output tile of batch `b` and channels
/// `[c0, c0 + m)`. With channel-first storage the tile is the panel in its own order;
/// with channel-last storage it is the panel transposed. Nothing else is touched.
pub fn scatter(
    output: &mut Vec<i64>,
    panel: &Vec<i64>,
    fmt: DataFormat,
    cs: usize,
    n: usize,
    bs: usize,
    b: usize,
    c0: usize,
    m: usize,
)
    requires
        old(output)@.len() == bs * cs * n,
        panel@.len() == m * n,
        b < bs,
        c0 + m <= cs,
    ensures
        final(output)@.len() == old(output)@.len(),
        forall|j: int|
            0 <= j < old(output)@.len() ==> #[trigger] final(output)@[j] == if in_tile(
                fmt,
                cs as int,
                n as int,
                b as int,
                c0 as int,
                m as int,
                j,
            ) {
                panel_at(
                    panel@,
                    n as int,
                    flat_channel(fmt, cs as int, n as int, j) - c0,
                    flat_spatial(fmt, cs as int, n as int, j),
                )
            } else {
                old(output)@[j]
            },
{
    let ghost orig = output@;
    let out_len = output.len();
    let panel_len = panel.len();
    let mut r: usize = 0;
    while r < m
        invariant
            out_len == output@.len(),
            output@.len() == bs * cs * n,
            orig.len() == output@.len(),
            panel_len == panel@.len(),
            panel@.len() == m * n,
            b < bs,
            c0 + m <= cs,
            r <= m,
            forall|j: int|
                0 <= j < output@.len() ==> #[trigger] output@[j] == if in_tile(
                    fmt,
                    cs as int,
                    n as int,
                    b as int,
                    c0 as int,
                    m as int,
                    j,
                ) && flat_channel(fmt, cs as int, n as int, j) - c0 < r {
                    panel_at(
                        panel@,
                        n as int,
                        flat_channel(fmt, cs as int, n as int, j) - c0,
                        flat_spatial(fmt, cs as int, n as int, j),
                    )
                } else {
                    orig[j]
                },
        decreases m - r,
    {
        proof {
            assert forall|j: int| 0 <= j < output@.len() implies 0 <= #[trigger] flat_spatial(
                fmt,
                cs as int,
                n as int,
                j,
            ) < n by {
                lemma_flat_decode(fmt, cs as int, n as int, bs as int, j);
            };
        }
        let mut s: usize = 0;
        while s < n
            invariant
                out_len == output@.len(),
                output@.len() == bs * cs * n,
                orig.len() == output@.len(),
                panel_len == panel@.len(),
                panel@.len() == m * n,
                b < bs,
                c0 + m <= cs,
                r < m,
                s <= n,
                forall|j: int|
                    0 <= j < output@.len() ==> #[trigger] output@[j] == if in_tile(
                        fmt,
                        cs as int,
                        n as int,
                        b as int,
                        c0 as int,
                        m as int,
                        j,
                    ) && (flat_channel(fmt, cs as int, n as int, j) - c0 < r || (flat_channel(
                        fmt,
                        cs as int,
                        n as int,
                        j,
                    ) - c0 == r && flat_spatial(fmt, cs as int, n as int, j) < s)) {
                        panel_at(
                            panel@,
                            n as int,
                            flat_channel(fmt, cs as int, n as int, j) - c0,
                            flat_spatial(fmt, cs as int, n as int, j),
                        )
                    } else {
                        orig[j]
                    },
            decreases n - s,
        {
            let c = c0 + r;
            proof {
                lemma_out_index(fmt, cs as int, n as int, bs as int, b as int, c as int, s as int);
                assert(r * n + s < m * n) by (nonlinear_arith)
                    requires
                        r < m,
                        s < n,
                ;
                assert(b * cs + c < bs * cs * n && b * n + s < bs * cs * n) by (nonlinear_arith)
                    requires
                        b < bs,
                        c < cs,
                        s < n,
                ;
            }
            let pos = match fmt {
                DataFormat::NCHW => (b * cs + c) * n + s,
                DataFormat::NHWC => (b * n + s) * cs + c,
            };
            let v = panel[r * n + s];
            let ghost before = output@;
            output.set(pos, v);
            proof {
                assert forall|j: int| 0 <= j < output@.len() implies #[trigger] output@[j] == if in_tile(
                    fmt,
                    cs as int,
                    n as int,
                    b as int,
                    c0 as int,
                    m as int,
                    j,
                ) && (flat_channel(fmt, cs as int, n as int, j) - c0 < r || (flat_channel(
                    fmt,
                    cs as int,
                    n as int,
                    j,
                ) - c0 == r && flat_spatial(fmt, cs as int, n as int, j) < s + 1)) {
                    panel_at(
                        panel@,
                        n as int,
                        flat_channel(fmt, cs as int, n as int, j) - c0,
                        flat_spatial(fmt, cs as int, n as int, j),
                    )
                } else {
                    orig[j]
                } by {
                    lemma_flat_decode(fmt, cs as int, n as int, bs as int, j);
                    if j != pos {
                        assert(before[j] == output@[j]);
                    }
                };
            }
            s += 1;
        }
        proof {
            assert forall|j: int| 0 <= j < output@.len() implies 0 <= #[trigger] flat_spatial(
                fmt,
                cs as int,
                n as int,
                j,
            ) < n by {
                lemma_flat_decode(fmt, cs as int, n as int, bs as int, j);
            };
        }
        r += 1;
    }
}

} // verus!
