use vstd::prelude::*;

verus! {

/// A dense row-major matrix of `i64`.
#[derive(Clone, Debug)]
pub struct Matrix {
    pub rows: usize,
    pub cols: usize,
    pub data: Vec<i64>,
}

impl Matrix {
    /// The storage holds exactly `rows * cols` entries.
    pub open spec fn wf(&self) -> bool {
        self.data@.len() == self.rows * self.cols
    }

    /// Entry at row `r`, column `c`.
    pub open spec fn at(&self, r: int, c: int) -> i64 {
        self.data@[r * self.cols + c]
    }

    /// Whether the storage length matches the dimensions.
    pub fn is_well_formed(&self) -> (r: bool)
        ensures
            r == self.wf(),
    {
        let data_len = self.data.len();
        match self.rows.checked_mul(self.cols) {
            Some(len) => len == data_len,
            None => false,
        }
    }
}

/// Product of a sequence of dimension sizes.
pub open spec fn dims_product(s: Seq<usize>) -> int
    decreases s.len(),
{
    if s.len() == 0 {
        1
    } else {
        dims_product(s.drop_last()) * s.last()
    }
}

/// Product of the sizes `s[lo..hi]`.
pub open spec fn range_product(s: Seq<usize>, lo: int, hi: int) -> int {
    dims_product(s.subrange(lo, hi))
}

/// Whether every partial product `s[lo..a]`, for `lo <= a <= hi`, fits in a `usize`.
pub open spec fn range_product_fits(s: Seq<usize>, lo: int, hi: int) -> bool {
    forall|a: int| lo <= a <= hi ==> #[trigger] range_product(s, lo, a) <= usize::MAX
}

/// A product of sizes is never negative.
pub proof fn lemma_dims_product_nonneg(s: Seq<usize>)
    ensures
        dims_product(s) >= 0,
    decreases s.len(),
{
    if s.len() > 0 {
        lemma_dims_product_nonneg(s.drop_last());
        let p = dims_product(s.drop_last());
        let d = s.last() as int;
        assert(p * d >= 0) by (nonlinear_arith)
            requires
                p >= 0,
                d >= 0,
        ;
    }
}

/// A product of sizes is positive exactly when every size is.
pub proof fn lemma_dims_product_positive(s: Seq<usize>)
    ensures
        dims_product(s) > 0 <==> forall|a: int| 0 <= a < s.len() ==> s[a] > 0,
    decreases s.len(),
{
    if s.len() > 0 {
        let t = s.drop_last();
        lemma_dims_product_positive(t);
        lemma_dims_product_nonneg(t);
        let p = dims_product(t);
        let d = s.last() as int;
        assert(p * d > 0 <==> (p > 0 && d > 0)) by (nonlinear_arith)
            requires
                p >= 0,
                d >= 0,
        ;
        if dims_product(s) > 0 {
            assert forall|a: int| 0 <= a < s.len() implies s[a] > 0 by {
                if a < s.len() - 1 {
                    assert(t[a] == s[a]);
                }
            };
        }
        if forall|a: int| 0 <= a < s.len() ==> s[a] > 0 {
            assert forall|a: int| 0 <= a < t.len() implies t[a] > 0 by {
                assert(t[a] == s[a]);
            };
        }
    }
}

/// The product over `[lo, hi)` splits at any `mid` in between.
pub proof fn lemma_range_product_split(s: Seq<usize>, lo: int, mid: int, hi: int)
    requires
        0 <= lo <= mid <= hi <= s.len(),
    ensures
        range_product(s, lo, hi) == range_product(s, lo, mid) * range_product(s, mid, hi),
    decreases hi - mid,
{
    if hi == mid {
        assert(s.subrange(mid, hi).len() == 0);
    } else {
        lemma_range_product_split(s, lo, mid, hi - 1);
        assert(s.subrange(lo, hi).drop_last() =~= s.subrange(lo, hi - 1));
        assert(s.subrange(mid, hi).drop_last() =~= s.subrange(mid, hi - 1));
        let a = range_product(s, lo, mid);
        let b = range_product(s, mid, hi - 1);
        let d = s[hi - 1] as int;
        assert(a * b * d == a * (b * d)) by (nonlinear_arith);
    }
}

/// Product of `s[lo..hi]`, or `None` exactly when one of its partial products
/// overflows a `usize`.
pub fn checked_range_product(s: &Vec<usize>, lo: usize, hi: usize) -> (r: Option<usize>)
    requires
        lo <= hi <= s@.len(),
    ensures
        r.is_some() == range_product_fits(s@, lo as int, hi as int),
        r matches Some(p) ==> p == range_product(s@, lo as int, hi as int),
{
    let mut acc: usize = 1;
    let mut a: usize = lo;
    assert(s@.subrange(lo as int, lo as int).len() == 0);
    while a < hi
        invariant
            lo <= a <= hi <= s@.len(),
            acc == range_product(s@, lo as int, a as int),
            forall|b: int| lo <= b <= a ==> #[trigger] range_product(s@, lo as int, b) <= usize::MAX,
        decreases hi - a,
    {
        assert(s@.subrange(lo as int, a + 1).drop_last() =~= s@.subrange(lo as int, a as int));
        match acc.checked_mul(s[a]) {
            Some(p) => {
                acc = p;
            },
            None => {
                assert(range_product(s@, lo as int, a + 1) > usize::MAX);
                return None;
            },
        }
        a += 1;
    }
    Some(acc)
}

/// A dense row-major tensor of `i64` of any rank.
#[derive(Clone, Debug)]
pub struct Tensor {
    pub shape: Vec<usize>,
    pub data: Vec<i64>,
}

impl Tensor {
    /// The storage holds exactly as many entries as the shape describes.
    pub open spec fn wf(&self) -> bool {
        self.data@.len() == dims_product(self.shape@)
    }
}

} // verus!
