use vstd::prelude::*;

use crate::tensor::Matrix;

verus! {

/// Whether an integer is representable as an `i64`.
pub open spec fn in_i64(x: int) -> bool {
    i64::MIN <= x <= i64::MAX
}

/// Sum of the first `t` products of entries `ao, ao + 1, ...` of `a` with entries
/// `bo, bo + bs, ...` of `b`, in exact integer arithmetic.
pub open spec fn dot_sum(a: Seq<i64>, ao: int, b: Seq<i64>, bo: int, bs: int, t: nat) -> int
    decreases t,
{
    if t == 0 {
        0
    } else {
        dot_sum(a, ao, b, bo, bs, (t - 1) as nat) + a[ao + t - 1] * b[bo + (t - 1) * bs]
    }
}

/// Whether every product and every partial sum of `dot_sum(.., t)`, taken in order,
/// fits in an `i64`.
pub open spec fn dot_fits(a: Seq<i64>, ao: int, b: Seq<i64>, bo: int, bs: int, t: nat) -> bool
    decreases t,
{
    t == 0 || (dot_fits(a, ao, b, bo, bs, (t - 1) as nat) && in_i64(
        a[ao + t - 1] * b[bo + (t - 1) * bs],
    ) && in_i64(dot_sum(a, ao, b, bo, bs, t)))
}

/// A dot product computed within range ends within range.
pub proof fn lemma_dot_fits_in_range(a: Seq<i64>, ao: int, b: Seq<i64>, bo: int, bs: int, t: nat)
    requires
        dot_fits(a, ao, b, bo, bs, t),
    ensures
        in_i64(dot_sum(a, ao, b, bo, bs, t)),
{
}

/// Two dot products over equal entries are equal, and overflow alike.
pub proof fn lemma_dot_agree(
    a1: Seq<i64>,
    a2: Seq<i64>,
    ao: int,
    b1: Seq<i64>,
    b2: Seq<i64>,
    bo: int,
    bs: int,
    t: nat,
)
    requires
        forall|u: int| 0 <= u < t ==> #[trigger] a1[ao + u] == a2[ao + u],
        forall|u: int| 0 <= u < t ==> #[trigger] b1[bo + u * bs] == b2[bo + u * bs],
    ensures
        dot_sum(a1, ao, b1, bo, bs, t) == dot_sum(a2, ao, b2, bo, bs, t),
        dot_fits(a1, ao, b1, bo, bs, t) == dot_fits(a2, ao, b2, bo, bs, t),
    decreases t,
{
    if t > 0 {
        lemma_dot_agree(a1, a2, ao, b1, b2, bo, bs, (t - 1) as nat);
        assert(a1[ao + (t - 1)] == a2[ao + (t - 1)]);
        assert(b1[bo + (t - 1) * bs] == b2[bo + (t - 1) * bs]);
    }
}

proof fn lemma_dot_fits_prefix(a: Seq<i64>, ao: int, b: Seq<i64>, bo: int, bs: int, t: nat, u: nat)
    requires
        u <= t,
        dot_fits(a, ao, b, bo, bs, t),
    ensures
        dot_fits(a, ao, b, bo, bs, u),
    decreases t,
{
    if u < t {
        lemma_dot_fits_prefix(a, ao, b, bo, bs, (t - 1) as nat, u);
    }
}

/// Entry `(c, col)` of the product of `kernel` with the first `kernel.cols` rows of
/// `mega`, in exact integer arithmetic.
pub open spec fn gemm_entry(kernel: &Matrix, mega: &Matrix, c: int, col: int) -> int {
    dot_sum(kernel.data@, c * kernel.cols, mega.data@, col, mega.cols as int, kernel.cols as nat)
}

/// Whether entry `(c, col)` of the product is computed without leaving the `i64` range.
pub open spec fn gemm_fits(kernel: &Matrix, mega: &Matrix, c: int, col: int) -> bool {
    dot_fits(kernel.data@, c * kernel.cols, mega.data@, col, mega.cols as int, kernel.cols as nat)
}

/// Entry `(r, s)` of a row-major panel with `n` columns.
pub open spec fn panel_at(p: Seq<i64>, n: int, r: int, s: int) -> i64 {
    p[r * n + s]
}

/// Checked dot product; `None` exactly when a product or a partial sum overflows.
fn dot(a: &Vec<i64>, ao: usize, b: &Vec<i64>, bo: usize, bs: usize, k: usize) -> (r: Option<i64>)
    requires
        ao + k <= a@.len(),
        k == 0 || bo + (k - 1) * bs < b@.len(),
    ensures
        r.is_some() == dot_fits(a@, ao as int, b@, bo as int, bs as int, k as nat),
        r matches Some(v) ==> v == dot_sum(a@, ao as int, b@, bo as int, bs as int, k as nat),
{
    let a_len = a.len();
    let b_len = b.len();
    let mut acc: i64 = 0;
    let mut t: usize = 0;
    while t < k
        invariant
            t <= k,
            a_len == a@.len(),
            b_len == b@.len(),
            ao + k <= a@.len(),
            k == 0 || bo + (k - 1) * bs < b@.len(),
            dot_fits(a@, ao as int, b@, bo as int, bs as int, t as nat),
            acc == dot_sum(a@, ao as int, b@, bo as int, bs as int, t as nat),
        decreases k - t,
    {
        assert(t * bs <= (k - 1) * bs) by (nonlinear_arith)
            requires
                t < k,
        ;
        let bi = bo + t * bs;
        let p = match a[ao + t].checked_mul(b[bi]) {
            Some(p) => p,
            None => {
                proof {
                    if dot_fits(a@, ao as int, b@, bo as int, bs as int, k as nat) {
                        lemma_dot_fits_prefix(a@, ao as int, b@, bo as int, bs as int, k as nat, (t + 1) as nat);
                    }
                }
                return None;
            },
        };
        acc = match acc.checked_add(p) {
            Some(v) => v,
            None => {
                proof {
                    if dot_fits(a@, ao as int, b@, bo as int, bs as int, k as nat) {
                        lemma_dot_fits_prefix(a@, ao as int, b@, bo as int, bs as int, k as nat, (t + 1) as nat);
                    }
                }
                return None;
            },
        };
        t += 1;
    }
    Some(acc)
}

/// Computes one tile of the product: panel entry `(r, s)` becomes entry
/// `(row0 + r, col0 + s)` of `kernel` times `mega`. Returns `false`, leaving the panel
/// partly written, exactly when some entry of the tile overflows.
pub fn mat_mul(
    kernel: &Matrix,
    row0: usize,
    mega: &Matrix,
    col0: usize,
    m: usize,
    n: usize,
    panel: &mut Vec<i64>,
) -> (ok: bool)
    requires
        kernel.wf(),
        mega.wf(),
        kernel.cols <= mega.rows,
        row0 + m <= kernel.rows,
        col0 + n <= mega.cols,
        old(panel)@.len() == m * n,
    ensures
        final(panel)@.len() == m * n,
        ok == (forall|c: int, col: int|
            row0 <= c < row0 + m && col0 <= col < col0 + n ==> #[trigger] gemm_fits(
                kernel,
                mega,
                c,
                col,
            )),
        ok ==> forall|c: int, col: int|
            row0 <= c < row0 + m && col0 <= col < col0 + n ==> panel_at(
                final(panel)@,
                n as int,
                c - row0,
                col - col0,
            ) == #[trigger] gemm_entry(kernel, mega, c, col),
{
    let k = kernel.cols;
    let kernel_len = kernel.data.len();
    let panel_len = panel.len();
    let mut r: usize = 0;
    while r < m
        invariant
            kernel.wf(),
            mega.wf(),
            k == kernel.cols,
            kernel_len == kernel.data@.len(),
            panel_len == m * n,
            k <= mega.rows,
            row0 + m <= kernel.rows,
            col0 + n <= mega.cols,
            r <= m,
            panel@.len() == m * n,
            forall|c: int, col: int|
                row0 <= c < row0 + r && col0 <= col < col0 + n ==> #[trigger] gemm_fits(
                    kernel,
                    mega,
                    c,
                    col,
                ),
            forall|c: int, col: int|
                row0 <= c < row0 + r && col0 <= col < col0 + n ==> panel_at(
                    panel@,
                    n as int,
                    c - row0,
                    col - col0,
                ) == #[trigger] gemm_entry(kernel, mega, c, col),
        decreases m - r,
    {
        let mut s: usize = 0;
        while s < n
            invariant
                kernel.wf(),
                mega.wf(),
                k == kernel.cols,
                kernel_len == kernel.data@.len(),
                panel_len == m * n,
                k <= mega.rows,
                row0 + m <= kernel.rows,
                col0 + n <= mega.cols,
                r < m,
                s <= n,
                panel@.len() == m * n,
                forall|c: int, col: int|
                    (row0 <= c < row0 + r && col0 <= col < col0 + n) || (c == row0 + r && col0
                        <= col < col0 + s) ==> #[trigger] gemm_fits(kernel, mega, c, col),
                forall|c: int, col: int|
                    (row0 <= c < row0 + r && col0 <= col < col0 + n) || (c == row0 + r && col0
                        <= col < col0 + s) ==> panel_at(panel@, n as int, c - row0, col - col0)
                        == #[trigger] gemm_entry(kernel, mega, c, col),
            decreases n - s,
        {
            let c = row0 + r;
            let col = col0 + s;
            proof {
                assert((c + 1) * k <= kernel.rows * k) by (nonlinear_arith)
                    requires
                        c < kernel.rows,
                ;
                assert(c * k + k == (c + 1) * k) by (nonlinear_arith);
                if k > 0 {
                    assert((k - 1) * mega.cols + col < mega.rows * mega.cols) by (nonlinear_arith)
                        requires
                            k <= mega.rows,
                            col < mega.cols,
                            k > 0,
                    ;
                }
                assert(r * n + s < m * n) by (nonlinear_arith)
                    requires
                        r < m,
                        s < n,
                ;
            }
            let v = match dot(&kernel.data, c * k, &mega.data, col, mega.cols, k) {
                Some(v) => v,
                None => {
                    assert(!gemm_fits(kernel, mega, c as int, col as int));
                    return false;
                },
            };
            let ghost before = panel@;
            panel.set(r * n + s, v);
            proof {
                assert forall|c2: int, col2: int|
                    (row0 <= c2 < row0 + r && col0 <= col2 < col0 + n) || (c2 == row0 + r && col0
                        <= col2 < col0 + s + 1) implies panel_at(
                    panel@,
                    n as int,
                    c2 - row0,
                    col2 - col0,
                ) == #[trigger] gemm_entry(kernel, mega, c2, col2) by {
                    let r2 = c2 - row0;
                    let s2 = col2 - col0;
                    if r2 != r || s2 != s {
                        assert(r2 * n + s2 != r * n + s) by (nonlinear_arith)
                            requires
                                r2 != r || s2 != s,
                                0 <= s2 < n,
                                0 <= s < n,
                        ;
                        assert(0 <= r2 * n + s2 < m * n) by (nonlinear_arith)
                            requires
                                0 <= r2 <= r < m,
                                0 <= s2 < n,
                        ;
                    }
                };
            }
            s += 1;
        }
        r += 1;
    }
    true
}

} // verus!
