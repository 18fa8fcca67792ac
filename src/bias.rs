use vstd::prelude::*;

use crate::gemm::in_i64;
use crate::tensor::{dims_product, lemma_dims_product_nonneg, lemma_dims_product_positive, Tensor};

verus! {

/// Whether a tensor of shape `bs` broadcasts onto one of shape `os`: axes are lined up
/// from the last one, `bs` has at most as many, and each of its axes is 1 or the size
/// of the axis of `os` it lines up with. Missing leading axes count as size 1.
pub open spec fn broadcastable(bs: Seq<usize>, os: Seq<usize>) -> bool {
    &&& bs.len() <= os.len()
    &&& forall|a: int|
        0 <= a < bs.len() ==> #[trigger] bs[a] == 1 || bs[a] == os[a + os.len() - bs.len()]
}

/// Flat position, in a row-major tensor of shape `bs`, of the element that broadcasts
/// onto flat position `j` of a row-major tensor of shape `os`.
pub open spec fn bcast_index(os: Seq<usize>, bs: Seq<usize>, j: int) -> int
    decreases os.len(),
{
    if os.len() == 0 || bs.len() == 0 {
        0
    } else {
        bcast_index(os.drop_last(), bs.drop_last(), j / (os.last() as int)) * (bs.last() as int) + (
        if bs.last() == 1 {
            0
        } else {
            j % (os.last() as int)
        })
    }
}

/// The bias value added at flat position `j` of an output of shape `os`.
pub open spec fn bias_at(os: Seq<usize>, bias: Tensor, j: int) -> int {
    bias.data@[bcast_index(os, bias.shape@, j)] as int
}

/// Every flat position of the output maps into the bias tensor.
pub proof fn lemma_bcast_index_bound(os: Seq<usize>, bs: Seq<usize>, j: int)
    requires
        broadcastable(bs, os),
        0 <= j < dims_product(os),
    ensures
        0 <= bcast_index(os, bs, j) < dims_product(bs),
    decreases os.len(),
{
    if os.len() > 0 && bs.len() > 0 {
        let ot = os.drop_last();
        let bt = bs.drop_last();
        let d = os.last() as int;
        let e = bs.last() as int;
        lemma_dims_product_nonneg(ot);
        let p = dims_product(ot);
        assert(d > 0 && p > 0 && j / d < p && j % d >= 0 && j % d < d) by (nonlinear_arith)
            requires
                0 <= j < p * d,
                p >= 0,
                d >= 0,
        ;
        assert(broadcastable(bt, ot)) by {
            assert forall|a: int| 0 <= a < bt.len() implies #[trigger] bt[a] == 1 || bt[a] == ot[a
                + ot.len() - bt.len()] by {
                assert(bs[a] == 1 || bs[a] == os[a + os.len() - bs.len()]);
            };
        };
        lemma_bcast_index_bound(ot, bt, j / d);
        let q = bcast_index(ot, bt, j / d);
        let x = if e == 1 {
            0
        } else {
            j % d
        };
        assert(bs[bs.len() - 1] == 1 || bs[bs.len() - 1] == os[os.len() - 1]);
        assert(0 <= x < e);
        assert(0 <= q * e + x < dims_product(bt) * e) by (nonlinear_arith)
            requires
                0 <= q < dims_product(bt),
                0 <= x < e,
        ;
    } else if os.len() > 0 {
        assert(dims_product(bs) == 1);
    }
}

fn bias_index(os: &Vec<usize>, bs: &Vec<usize>, j: usize, bias_len: usize) -> (r: usize)
    requires
        broadcastable(bs@, os@),
        j < dims_product(os@),
        bias_len == dims_product(bs@),
    ensures
        r == bcast_index(os@, bs@, j as int),
{
    let os_len = os.len();
    let off = os_len - bs.len();
    proof {
        lemma_dims_product_positive(os@);
        lemma_dims_product_positive(bs@);
        assert forall|a: int| 0 <= a < bs@.len() implies bs@[a] > 0 by {
            assert(bs@[a] == 1 || bs@[a] == os@[a + os@.len() - bs@.len()]);
        };
    }
    let mut b: usize = bs.len();
    let mut rem: usize = j;
    let mut acc: usize = 0;
    let mut mult: usize = 1;
    assert(os@.take(b + off) =~= os@);
    assert(bs@.take(b as int) =~= bs@);
    while b > 0
        invariant
            b <= bs@.len(),
            off + bs@.len() == os@.len(),
            os_len == os@.len(),
            broadcastable(bs@, os@),
            forall|i: int| 0 <= i < bs@.len() ==> bs@[i] > 0,
            forall|i: int| 0 <= i < os@.len() ==> os@[i] > 0,
            bias_len == dims_product(bs@),
            bcast_index(os@, bs@, j as int) == bcast_index(
                os@.take(b + off),
                bs@.take(b as int),
                rem as int,
            ) * mult + acc,
            rem < dims_product(os@.take(b + off)),
            mult * dims_product(bs@.take(b as int)) == dims_product(bs@),
            acc < mult,
        decreases b,
    {
        let a = b + off;
        let d = os[a - 1];
        let e = bs[b - 1];
        let ghost ot = os@.take(a - 1);
        let ghost bt = bs@.take(b - 1);
        assert(os@.take(a as int).drop_last() =~= ot);
        assert(bs@.take(b as int).drop_last() =~= bt);
        let x: usize = if e == 1 {
            0
        } else {
            rem % d
        };
        proof {
            assert(bs@[b - 1] == 1 || bs@[b - 1] == os@[b - 1 + os@.len() - bs@.len()]);
            lemma_dims_product_positive(bt);
            assert forall|i: int| 0 <= i < bt.len() implies bt[i] > 0 by {
                assert(bt[i] == bs@[i]);
            };
            let pb = dims_product(bt);
            let po = dims_product(ot);
            let q = bcast_index(ot, bt, (rem / d) as int);
            assert(x < e);
            assert(mult * e * pb == dims_product(bs@)) by (nonlinear_arith)
                requires
                    mult * (pb * e) == dims_product(bs@),
            ;
            assert(acc + x * mult < mult * e && mult * e <= dims_product(bs@)) by (nonlinear_arith)
                requires
                    acc < mult,
                    x < e,
                    mult * e * pb == dims_product(bs@),
                    pb > 0,
                    mult >= 1,
            ;
            assert(rem / d < po) by (nonlinear_arith)
                requires
                    rem < po * d,
                    d > 0,
            ;
            assert((q * e + x) * mult + acc == q * (mult * e) + (acc + x * mult)) by (nonlinear_arith);
        }
        acc = acc + x * mult;
        mult = mult * e;
        rem = rem / d;
        b = b - 1;
    }
    proof {
        assert(bs@.take(0).len() == 0);
    }
    acc
}

/// Adds the broadcast bias onto every element of `output`, a row-major tensor of
/// shape `os`. Returns `false`, leaving `output` partly updated, exactly when some sum
/// leaves the `i64` range.
pub fn add_bias(output: &mut Vec<i64>, os: &Vec<usize>, bias: &Tensor) -> (ok: bool)
    requires
        old(output)@.len() == dims_product(os@),
        bias.wf(),
        broadcastable(bias.shape@, os@),
    ensures
        final(output)@.len() == old(output)@.len(),
        ok == forall|j: int|
            0 <= j < old(output)@.len() ==> in_i64(
                #[trigger] old(output)@[j] + bias_at(os@, *bias, j),
            ),
        ok ==> forall|j: int|
            0 <= j < old(output)@.len() ==> #[trigger] final(output)@[j] == old(output)@[j]
                + bias_at(os@, *bias, j),
{
    let ghost orig = output@;
    let len = output.len();
    let bias_len = bias.data.len();
    let mut j: usize = 0;
    while j < len
        invariant
            len == output@.len(),
            orig == old(output)@,
            orig.len() == len,
            len == dims_product(os@),
            bias.wf(),
            bias_len == bias.data@.len(),
            broadcastable(bias.shape@, os@),
            j <= len,
            forall|i: int| 0 <= i < j ==> in_i64(#[trigger] orig[i] + bias_at(os@, *bias, i)),
            forall|i: int|
                0 <= i < len ==> #[trigger] output@[i] == if i < j {
                    orig[i] + bias_at(os@, *bias, i)
                } else {
                    orig[i] as int
                },
        decreases len - j,
    {
        let bi = bias_index(os, &bias.shape, j, bias_len);
        proof {
            lemma_bcast_index_bound(os@, bias.shape@, j as int);
        }
        let v = output[j];
        match v.checked_add(bias.data[bi]) {
            Some(w) => {
                output.set(j, w);
            },
            None => {
                assert(!in_i64(orig[j as int] + bias_at(os@, *bias, j as int)));
                return false;
            },
        }
        j += 1;
    }
    true
}

} // verus!
