//! The convolution and correlation engine: 1D linear convolution with
//! selectable output-length mode, cross- and autocorrelation derived from
//! it, and 2D convolution with zero-fill boundary handling.
//!
//! The discrete convolution of `a` and `b` is `y[i] = sum_k a[i-k] * b[k]`,
//! with out-of-range samples contributing zero. `conv_at` states that sum
//! once, and every routine here is specified against it.

use crate::matrix::Matrix;
use crate::matrix::matrix_all_zero;
use vstd::prelude::*;

verus! {

/// Output-length policy for 1D convolution.
#[derive(Clone, Copy, Debug, PartialEq, Eq)]
pub enum ConvMode {
    /// All overlaps, including partial ones: output length `N + M - 1`.
    Full,
    /// Centered trim of the full result: output length `max(N, M)`. When
    /// the trimmed margin is odd, the extra sample is dropped at the end
    /// (the window starts at `(min(N, M) - 1) / 2`, rounded down).
    Same,
    /// Only complete overlaps: output length `max(N, M) - min(N, M) + 1`.
    Valid,
}

/// Boundary policy for 2D convolution at the image edges.
#[derive(Clone, Copy, Debug, PartialEq, Eq)]
pub enum Boundary {
    /// Samples outside the image count as zero.
    Fill,
}

/// Explicit failure signals for dimension errors; no operation writes a
/// partial result before reporting one of these.
#[derive(Clone, Copy, Debug, PartialEq, Eq)]
pub enum ConvError {
    /// A 1D input sequence was empty.
    EmptyInput,
    /// The 2D kernel exceeds the image in some axis.
    KernelTooLarge,
    /// The caller-provided 2D output matrix is smaller than the image.
    OutputTooSmall,
}

/// Largest accepted input length, so that sums of products stay inside
/// `i64`.
pub const MAX_LEN: usize = 1048576;

/// Largest accepted sample magnitude, so that sums of products stay
/// inside `i64`.
pub const MAX_SAMPLE: i64 = 1048576;

/// `MAX_SAMPLE * MAX_SAMPLE`: a bound on the magnitude of one product.
pub const MAX_TERM: i64 = 1099511627776;

/// Every sample's magnitude is at most `MAX_SAMPLE`.
pub open spec fn bounded_samples(s: Seq<i64>) -> bool {
    forall|i: int| 0 <= i < s.len() ==> -MAX_SAMPLE <= #[trigger] s[i] <= MAX_SAMPLE
}

/// The `k`-th addend of the convolution sum at output index `i`:
/// `a[i-k] * b[k]`, or zero where either index is out of range.
pub open spec fn conv_term(a: Seq<i64>, b: Seq<i64>, i: int, k: int) -> int {
    if 0 <= k && k < b.len() && 0 <= i - k && i - k < a.len() {
        a[i - k] * b[k]
    } else {
        0
    }
}

/// The convolution sum at output index `i`, truncated to the addends with
/// `k < n`.
pub open spec fn conv_partial(a: Seq<i64>, b: Seq<i64>, i: int, n: int) -> int
    decreases n,
{
    if n <= 0 {
        0
    } else {
        conv_partial(a, b, i, n - 1) + conv_term(a, b, i, n - 1)
    }
}

/// The full convolution sum at output index `i`:
/// `sum over k in [0, len(b)) of a[i-k] * b[k]`, out-of-range samples zero.
pub open spec fn conv_at(a: Seq<i64>, b: Seq<i64>, i: int) -> int {
    conv_partial(a, b, i, b.len() as int)
}

/// Output length of a full convolution.
pub open spec fn full_len(a: Seq<i64>, b: Seq<i64>) -> int {
    a.len() + b.len() - 1
}

/// Output length selected by `mode`.
pub open spec fn mode_len(a: Seq<i64>, b: Seq<i64>, mode: ConvMode) -> int {
    let n = a.len() as int;
    let m = b.len() as int;
    let mx = if n >= m { n } else { m };
    let mn = if n <= m { n } else { m };
    match mode {
        ConvMode::Full => n + m - 1,
        ConvMode::Same => mx,
        ConvMode::Valid => mx - mn + 1,
    }
}

/// Index into the full result where the window selected by `mode` starts.
pub open spec fn mode_offset(a: Seq<i64>, b: Seq<i64>, mode: ConvMode) -> int {
    let n = a.len() as int;
    let m = b.len() as int;
    let mn = if n <= m { n } else { m };
    match mode {
        ConvMode::Full => 0,
        ConvMode::Same => (mn - 1) / 2,
        ConvMode::Valid => mn - 1,
    }
}

/// The convolution of `a` and `b` under `mode`: the window of the full
/// result that the mode selects.
pub open spec fn conv_spec(a: Seq<i64>, b: Seq<i64>, mode: ConvMode) -> Seq<int> {
    Seq::new(
        mode_len(a, b, mode) as nat,
        |i: int| conv_at(a, b, i + mode_offset(a, b, mode)),
    )
}

/// The cross-correlation of `a` and `b`: `a` convolved with the
/// index-reversal of `b`.
pub open spec fn xcorr_spec(a: Seq<i64>, b: Seq<i64>, mode: ConvMode) -> Seq<int> {
    conv_spec(a, b.reverse(), mode)
}

/// The autocorrelation half: the suffix of the full cross-correlation
/// starting at the midpoint index (zero and positive lags).
pub open spec fn autocorr_spec(a: Seq<i64>, b: Seq<i64>) -> Seq<int> {
    let full = xcorr_spec(a, b, ConvMode::Full);
    full.subrange(full.len() as int / 2, full.len() as int)
}

/// Bounded factors give a bounded product.
proof fn lemma_product_bound(x: int, y: int, m: int)
    by (nonlinear_arith)
    requires
        -m <= x <= m,
        -m <= y <= m,
        0 <= m,
    ensures
        -(m * m) <= x * y <= m * m,
{
}

/// A truncated convolution sum of `n` bounded addends stays within
/// `n * MAX_TERM`.
proof fn lemma_conv_partial_bound(a: Seq<i64>, b: Seq<i64>, i: int, n: int)
    requires
        bounded_samples(a),
        bounded_samples(b),
        0 <= n,
    ensures
        -(n * (MAX_TERM as int)) <= conv_partial(a, b, i, n) <= n * (MAX_TERM as int),
    decreases n,
{
    if n > 0 {
        lemma_conv_partial_bound(a, b, i, n - 1);
        let k = n - 1;
        if 0 <= k && k < b.len() && 0 <= i - k && i - k < a.len() {
            lemma_product_bound(a[i - k] as int, b[k] as int, MAX_SAMPLE as int);
        }
    }
}

/// Addends that are all zero on `[lo, hi)` do not change the truncated
/// sum.
proof fn lemma_conv_partial_zero_range(a: Seq<i64>, b: Seq<i64>, i: int, lo: int, hi: int)
    requires
        0 <= lo <= hi,
        forall|k: int| lo <= k < hi ==> #[trigger] conv_term(a, b, i, k) == 0,
    ensures
        conv_partial(a, b, i, hi) == conv_partial(a, b, i, lo),
    decreases hi - lo,
{
    if hi > lo {
        lemma_conv_partial_zero_range(a, b, i, lo, hi - 1);
    }
}

/// The convolution sum at index `i` equals its truncation to the first
/// `i + 1` addends: every later addend reads past the output index.
proof fn lemma_conv_at_window(a: Seq<i64>, b: Seq<i64>, i: int)
    requires
        0 <= i,
    ensures
        conv_partial(a, b, i, i + 1) == conv_at(a, b, i),
{
    let m = b.len() as int;
    if m <= i + 1 {
        assert forall|k: int| m <= k < i + 1 implies #[trigger] conv_term(a, b, i, k) == 0 by {}
        lemma_conv_partial_zero_range(a, b, i, m, i + 1);
    } else {
        assert forall|k: int| i + 1 <= k < m implies #[trigger] conv_term(a, b, i, k) == 0 by {}
        lemma_conv_partial_zero_range(a, b, i, i + 1, m);
    }
}

/// Reading the convolution sum at index `i` with the operands swapped
/// walks the same addends in the opposite order.
proof fn lemma_conv_partial_flip(a: Seq<i64>, b: Seq<i64>, i: int, n: int)
    requires
        0 <= n <= i + 1,
    ensures
        conv_partial(a, b, i, n) == conv_partial(b, a, i, i + 1) - conv_partial(b, a, i, i + 1 - n),
    decreases n,
{
    if n > 0 {
        lemma_conv_partial_flip(a, b, i, n - 1);
        assert(conv_partial(b, a, i, i + 2 - n)
            == conv_partial(b, a, i, i + 1 - n) + conv_term(b, a, i, i + 1 - n));
        assert(conv_term(a, b, i, n - 1) == conv_term(b, a, i, i - (n - 1)));
    }
}

/// Convolution is commutative at every output index.
proof fn lemma_conv_at_commutes(a: Seq<i64>, b: Seq<i64>, i: int)
    requires
        0 <= i,
    ensures
        conv_at(a, b, i) == conv_at(b, a, i),
{
    lemma_conv_at_window(a, b, i);
    lemma_conv_at_window(b, a, i);
    lemma_conv_partial_flip(a, b, i, i + 1);
}

/// Law: convolution is commutative. Under every mode, the convolution of
/// `a` with `b` equals the convolution of `b` with `a`.
pub proof fn lemma_conv_commutes(a: Seq<i64>, b: Seq<i64>, mode: ConvMode)
    requires
        a.len() >= 1,
        b.len() >= 1,
    ensures
        conv_spec(a, b, mode) == conv_spec(b, a, mode),
{
    assert forall|i: int| 0 <= i < conv_spec(a, b, mode).len()
        implies conv_spec(a, b, mode)[i] == conv_spec(b, a, mode)[i] by {
        lemma_conv_at_commutes(a, b, i + mode_offset(a, b, mode));
    }
    assert(conv_spec(a, b, mode) =~= conv_spec(b, a, mode));
}

/// Law: the length-1 unit kernel is the identity of convolution: the full
/// convolution of any sequence with `[1]` is that sequence.
pub proof fn lemma_conv_identity(a: Seq<i64>)
    requires
        a.len() >= 1,
    ensures
        conv_spec(a, seq![1i64], ConvMode::Full).len() == a.len(),
        forall|i: int| 0 <= i < a.len()
            ==> #[trigger] conv_spec(a, seq![1i64], ConvMode::Full)[i] == a[i],
{
    let u = seq![1i64];
    assert forall|i: int| 0 <= i < a.len()
        implies #[trigger] conv_spec(a, u, ConvMode::Full)[i] == a[i] by {
        assert(conv_partial(a, u, i, 1) == conv_partial(a, u, i, 0) + conv_term(a, u, i, 0));
        assert(conv_term(a, u, i, 0) == a[i] * 1);
    }
}

/// Reversing both operands reverses the full convolution: addend `n - 1`
/// of the reversed sum is addend `len(b) - n` of the unreversed sum at the
/// mirrored output index.
proof fn lemma_conv_partial_reverse(a: Seq<i64>, b: Seq<i64>, i: int, n: int)
    requires
        a.len() >= 1,
        b.len() >= 1,
        0 <= n <= b.len(),
    ensures
        conv_partial(a.reverse(), b.reverse(), i, n)
            == conv_partial(a, b, a.len() + b.len() - 2 - i, b.len() as int)
                - conv_partial(a, b, a.len() + b.len() - 2 - i, b.len() - n),
    decreases n,
{
    let t = a.len() + b.len() - 2 - i;
    if n > 0 {
        lemma_conv_partial_reverse(a, b, i, n - 1);
        assert(conv_partial(a, b, t, b.len() - n + 1)
            == conv_partial(a, b, t, b.len() - n) + conv_term(a, b, t, b.len() - n));
        assert(conv_term(a.reverse(), b.reverse(), i, n - 1)
            == conv_term(a, b, t, b.len() - n));
    }
}

/// The full convolution of the reversed operands, read at index `i`, is
/// the full convolution of the operands read at the mirrored index.
proof fn lemma_conv_at_reverse(a: Seq<i64>, b: Seq<i64>, i: int)
    requires
        a.len() >= 1,
        b.len() >= 1,
    ensures
        conv_at(a.reverse(), b.reverse(), i) == conv_at(a, b, a.len() + b.len() - 2 - i),
{
    lemma_conv_partial_reverse(a, b, i, b.len() as int);
}

/// Law: the full cross-correlation of a sequence with itself is symmetric
/// about its midpoint index.
pub proof fn lemma_xcorr_self_symmetric(a: Seq<i64>)
    requires
        a.len() >= 1,
    ensures
        forall|i: int| 0 <= i < xcorr_spec(a, a, ConvMode::Full).len()
            ==> #[trigger] xcorr_spec(a, a, ConvMode::Full)[i]
                == xcorr_spec(a, a, ConvMode::Full)[
                    xcorr_spec(a, a, ConvMode::Full).len() - 1 - i],
{
    let r = a.reverse();
    assert forall|i: int| 0 <= i < xcorr_spec(a, a, ConvMode::Full).len()
        implies #[trigger] xcorr_spec(a, a, ConvMode::Full)[i]
            == xcorr_spec(a, a, ConvMode::Full)[
                xcorr_spec(a, a, ConvMode::Full).len() - 1 - i] by {
        assert(r.reverse() =~= a);
        lemma_conv_at_reverse(a, r, i);
        lemma_conv_at_commutes(a.reverse(), a, i);
    }
}

/// Copies `len` samples of `v` starting at `off` into a fresh vector.
fn copy_window(v: &Vec<i64>, off: usize, len: usize) -> (w: Vec<i64>)
    requires
        off + len <= v@.len(),
    ensures
        w@.len() == len,
        forall|i: int| 0 <= i < len ==> w@[i] == v@[off + i],
{
    let mut w: Vec<i64> = Vec::new();
    let vlen = v.len();
    let mut i: usize = 0;
    while i < len
        invariant
            i <= len,
            vlen == v@.len(),
            off + len <= vlen,
            w@.len() == i,
            forall|j: int| 0 <= j < i ==> w@[j] == v@[off + j],
        decreases len - i,
    {
        w.push(v[off + i]);
        i += 1;
    }
    w
}

/// The canonical full convolution: each output sample is written once,
/// summing only the addends whose indices are in range.
#[verifier::loop_isolation(false)]
fn conv_full(a: &Vec<i64>, b: &Vec<i64>) -> (y: Vec<i64>)
    requires
        1 <= a@.len() <= MAX_LEN,
        1 <= b@.len() <= MAX_LEN,
        bounded_samples(a@),
        bounded_samples(b@),
    ensures
        y@.len() == full_len(a@, b@),
        forall|i: int| 0 <= i < y@.len() ==> y@[i] == conv_at(a@, b@, i),
{
    let n = a.len();
    let m = b.len();
    let out_len = n + m - 1;
    let mut y: Vec<i64> = Vec::new();
    let mut i: usize = 0;
    while i < out_len
        invariant
            i <= out_len,
            y@.len() == i,
            forall|j: int| 0 <= j < i ==> y@[j] == conv_at(a@, b@, j),
        decreases out_len - i,
    {
        let start: usize = if i >= n { i - n + 1 } else { 0 };
        let end: usize = if i < m { i + 1 } else { m };
        let mut acc: i64 = 0;
        let mut k: usize = start;
        proof {
            assert forall|k2: int| 0 <= k2 < start
                implies #[trigger] conv_term(a@, b@, i as int, k2) == 0 by {}
            lemma_conv_partial_zero_range(a@, b@, i as int, 0, start as int);
        }
        while k < end
            invariant
                start <= k <= end,
                acc == conv_partial(a@, b@, i as int, k as int),
            decreases end - k,
        {
            proof {
                lemma_conv_partial_bound(a@, b@, i as int, k as int);
                lemma_product_bound(a@[i - k] as int, b@[k as int] as int, MAX_SAMPLE as int);
            }
            let prod = a[i - k] * b[k];
            acc = acc + prod;
            k += 1;
        }
        proof {
            assert forall|k2: int| end <= k2 < b@.len()
                implies #[trigger] conv_term(a@, b@, i as int, k2) == 0 by {}
            lemma_conv_partial_zero_range(a@, b@, i as int, end as int, b@.len() as int);
        }
        y.push(acc);
        i += 1;
    }
    y
}

/// The scatter formulation of the full convolution, kept as a reference
/// variant for equivalence testing: it walks every pair of input samples
/// and accumulates each product into its output slot, so each output
/// sample is written many times. Its contract is identical to the
/// range-restricted form's.
#[verifier::loop_isolation(false)]
pub fn conv_full_scatter(a: &Vec<i64>, b: &Vec<i64>) -> (y: Vec<i64>)
    requires
        1 <= a@.len() <= MAX_LEN,
        1 <= b@.len() <= MAX_LEN,
        bounded_samples(a@),
        bounded_samples(b@),
    ensures
        y@.len() == full_len(a@, b@),
        forall|i: int| 0 <= i < y@.len() ==> y@[i] == conv_at(a@, b@, i),
{
    let n = a.len();
    let m = b.len();
    let out_len = n + m - 1;
    let mut y: Vec<i64> = Vec::new();
    let mut i: usize = 0;
    while i < out_len
        invariant
            i <= out_len,
            y@.len() == i,
            forall|j: int| 0 <= j < i ==> y@[j] == 0i64,
        decreases out_len - i,
    {
        y.push(0i64);
        i += 1;
    }
    let mut p: usize = 0;
    while p < n
        invariant
            p <= n,
            y@.len() == out_len,
            forall|j: int| 0 <= j < out_len ==> y@[j] == conv_partial(b@, a@, j, p as int),
        decreases n - p,
    {
        let mut q: usize = 0;
        while q < m
            invariant
                q <= m,
                y@.len() == out_len,
                forall|j: int| 0 <= j < out_len
                    ==> y@[j] == if p <= j < p + q {
                        conv_partial(b@, a@, j, p as int + 1)
                    } else {
                        conv_partial(b@, a@, j, p as int)
                    },
            decreases m - q,
        {
            let idx = p + q;
            proof {
                lemma_conv_partial_bound(b@, a@, idx as int, p as int);
                lemma_product_bound(a@[p as int] as int, b@[q as int] as int, MAX_SAMPLE as int);
                assert(conv_term(b@, a@, idx as int, p as int) == b@[q as int] * a@[p as int]);
            }
            let prod = a[p] * b[q];
            let updated = y[idx] + prod;
            y.set(idx, updated);
            q += 1;
        }
        proof {
            assert forall|j: int| 0 <= j < out_len && !(p <= j < p + m)
                implies conv_partial(b@, a@, j, p as int + 1)
                    == conv_partial(b@, a@, j, p as int) by {
                assert(conv_term(b@, a@, j, p as int) == 0);
            }
        }
        p += 1;
    }
    proof {
        assert forall|j: int| 0 <= j < out_len
            implies conv_partial(b@, a@, j, n as int) == conv_at(a@, b@, j) by {
            lemma_conv_at_commutes(b@, a@, j);
        }
    }
    y
}

/// 1D linear convolution of `a` and `b` under the given output-length
/// mode. Empty inputs are rejected; otherwise the result is the window of
/// the full convolution `y[i] = sum_k a[i-k] * b[k]` that the mode
/// selects.
pub fn conv(a: &Vec<i64>, b: &Vec<i64>, mode: ConvMode) -> (res: Result<Vec<i64>, ConvError>)
    requires
        a@.len() <= MAX_LEN,
        b@.len() <= MAX_LEN,
        bounded_samples(a@),
        bounded_samples(b@),
    ensures
        res is Ok <==> a@.len() >= 1 && b@.len() >= 1,
        match res {
            Ok(y) => y@.len() == mode_len(a@, b@, mode) && forall|i: int|
                0 <= i < y@.len() ==> y@[i] == conv_spec(a@, b@, mode)[i],
            Err(e) => e == ConvError::EmptyInput,
        },
{
    if a.len() == 0 || b.len() == 0 {
        return Err(ConvError::EmptyInput);
    }
    let n = a.len();
    let m = b.len();
    let full = conv_full(a, b);
    match mode {
        ConvMode::Full => Ok(full),
        ConvMode::Same => {
            let mn = if n <= m { n } else { m };
            let mx = if n >= m { n } else { m };
            let off = (mn - 1) / 2;
            Ok(copy_window(&full, off, mx))
        },
        ConvMode::Valid => {
            let mn = if n <= m { n } else { m };
            let mx = if n >= m { n } else { m };
            let off = mn - 1;
            Ok(copy_window(&full, off, mx - mn + 1))
        },
    }
}

/// Cross-correlation of `a` and `b`: `a` convolved with the
/// index-reversal of `b`, under the given mode.
pub fn xcorr(a: &Vec<i64>, b: &Vec<i64>, mode: ConvMode) -> (res: Result<Vec<i64>, ConvError>)
    requires
        a@.len() <= MAX_LEN,
        b@.len() <= MAX_LEN,
        bounded_samples(a@),
        bounded_samples(b@),
    ensures
        res is Ok <==> a@.len() >= 1 && b@.len() >= 1,
        match res {
            Ok(y) => y@.len() == mode_len(a@, b@, mode) && forall|i: int|
                0 <= i < y@.len() ==> y@[i] == xcorr_spec(a@, b@, mode)[i],
            Err(e) => e == ConvError::EmptyInput,
        },
{
    if a.len() == 0 || b.len() == 0 {
        return Err(ConvError::EmptyInput);
    }
    let m = b.len();
    let mut brev: Vec<i64> = Vec::new();
    let mut j: usize = 0;
    while j < m
        invariant
            j <= m,
            m == b@.len(),
            brev@.len() == j,
            forall|t: int| 0 <= t < j ==> brev@[t] == b@[m - 1 - t],
        decreases m - j,
    {
        brev.push(b[m - 1 - j]);
        j += 1;
    }
    proof {
        assert(brev@ =~= b@.reverse());
    }
    conv(a, &brev, mode)
}

/// Autocorrelation half: the full cross-correlation of `a` and `b`,
/// truncated to the suffix that starts at the midpoint index (the zero
/// and positive lags). Callers wanting a meaningful autocorrelation pass
/// the same sequence twice; equal lengths are not enforced.
pub fn autocorr(a: &Vec<i64>, b: &Vec<i64>) -> (res: Result<Vec<i64>, ConvError>)
    requires
        a@.len() <= MAX_LEN,
        b@.len() <= MAX_LEN,
        bounded_samples(a@),
        bounded_samples(b@),
    ensures
        res is Ok <==> a@.len() >= 1 && b@.len() >= 1,
        match res {
            Ok(y) => y@.len() == autocorr_spec(a@, b@).len() && forall|i: int|
                0 <= i < y@.len() ==> y@[i] == autocorr_spec(a@, b@)[i],
            Err(e) => e == ConvError::EmptyInput,
        },
{
    let full = match xcorr(a, b, ConvMode::Full) {
        Ok(f) => f,
        Err(e) => {
            return Err(e);
        },
    };
    let mid = full.len() / 2;
    let out = copy_window(&full, mid, full.len() - mid);
    Ok(out)
}

/// Every sample's magnitude is at most `MAX_SAMPLE`.
pub open spec fn bounded_matrix(m: Matrix) -> bool {
    forall|r: int, c: int|
        0 <= r < m.nrows() && 0 <= c < m.ncols()
            ==> -MAX_SAMPLE <= #[trigger] m.at(r, c) <= MAX_SAMPLE
}

/// The image sample at `(r, c)` under the zero-fill boundary policy:
/// positions outside the image read as zero.
pub open spec fn fill_sample(a: Matrix, r: int, c: int) -> int {
    if 0 <= r < a.nrows() && 0 <= c < a.ncols() {
        a.at(r, c) as int
    } else {
        0
    }
}

/// One addend of the 2D convolution sum at output position `(r, c)`:
/// kernel cell `(k, l)` against the zero-filled image sample one step up
/// and left of `(r, c)` plus the kernel offset.
pub open spec fn conv2d_term(a: Matrix, b: Matrix, r: int, c: int, k: int, l: int) -> int {
    fill_sample(a, r - 1 + k, c - 1 + l) * (b.at(k, l) as int)
}

/// The 2D convolution sum at `(r, c)` over kernel row `k`, truncated to
/// the addends with column `l < n`.
pub open spec fn conv2d_row_partial(a: Matrix, b: Matrix, r: int, c: int, k: int, n: int) -> int
    decreases n,
{
    if n <= 0 {
        0
    } else {
        conv2d_row_partial(a, b, r, c, k, n - 1) + conv2d_term(a, b, r, c, k, n - 1)
    }
}

/// The 2D convolution sum at `(r, c)`, truncated to the kernel rows
/// `k < n` (each row summed across all kernel columns).
pub open spec fn conv2d_partial(a: Matrix, b: Matrix, r: int, c: int, n: int) -> int
    decreases n,
{
    if n <= 0 {
        0
    } else {
        conv2d_partial(a, b, r, c, n - 1) + conv2d_row_partial(a, b, r, c, n - 1, b.ncols() as int)
    }
}

/// The 2D convolution sum at output position `(r, c)`:
/// `sum over (k, l) of a[r-1+k, c-1+l] * b[k, l]`, image samples outside
/// the image reading as zero.
pub open spec fn conv2d_at(a: Matrix, b: Matrix, r: int, c: int) -> int {
    conv2d_partial(a, b, r, c, b.nrows() as int)
}

/// A kernel row sum of `n` bounded addends stays within `n * MAX_TERM`.
proof fn lemma_conv2d_row_bound(a: Matrix, b: Matrix, r: int, c: int, k: int, n: int)
    requires
        bounded_matrix(a),
        bounded_matrix(b),
        0 <= k < b.nrows(),
        0 <= n <= b.ncols(),
    ensures
        -(n * (MAX_TERM as int)) <= conv2d_row_partial(a, b, r, c, k, n) <= n * (MAX_TERM as int),
    decreases n,
{
    if n > 0 {
        lemma_conv2d_row_bound(a, b, r, c, k, n - 1);
        let l = n - 1;
        lemma_product_bound(
            fill_sample(a, r - 1 + k, c - 1 + l),
            b.at(k, l) as int,
            MAX_SAMPLE as int,
        );
    }
}

/// The 2D convolution sum over `n` kernel rows stays within
/// `n * ncols(b) * MAX_TERM`.
proof fn lemma_conv2d_partial_bound(a: Matrix, b: Matrix, r: int, c: int, n: int)
    requires
        bounded_matrix(a),
        bounded_matrix(b),
        0 <= n <= b.nrows(),
    ensures
        -(n * ((b.ncols() as int) * (MAX_TERM as int)))
            <= conv2d_partial(a, b, r, c, n)
            <= n * ((b.ncols() as int) * (MAX_TERM as int)),
    decreases n,
{
    if n > 0 {
        lemma_conv2d_partial_bound(a, b, r, c, n - 1);
        lemma_conv2d_row_bound(a, b, r, c, n - 1, b.ncols() as int);
        let cbound = (b.ncols() as int) * (MAX_TERM as int);
        assert((n - 1) * cbound + cbound == n * cbound) by (nonlinear_arith);
    }
}

/// With the kernel area capped, the accumulated 2D sum after one more
/// kernel row still fits the overall cap.
proof fn lemma_conv2d_acc_bound(k: int, nb: int, mb: int, cap: int, t: int)
    by (nonlinear_arith)
    requires
        0 <= k < nb,
        0 <= mb,
        0 <= t,
        nb * mb <= cap,
    ensures
        k * (mb * t) + mb * t <= cap * t,
        -(cap * t) <= -(k * (mb * t)) - mb * t,
{
}

/// A factor of a capped product is itself capped.
proof fn lemma_factor_le_product(n: int, m: int, cap: int)
    by (nonlinear_arith)
    requires
        1 <= n,
        0 <= m,
        n * m <= cap,
    ensures
        m <= cap,
{
}

/// The full 2D convolution sum at one output position.
#[verifier::loop_isolation(false)]
fn conv2d_cell(a: &Matrix, b: &Matrix, r: usize, c: usize) -> (v: i64)
    requires
        a.wf(),
        b.wf(),
        bounded_matrix(*a),
        bounded_matrix(*b),
        a.nrows() <= MAX_LEN,
        a.ncols() <= MAX_LEN,
        b.nrows() <= a.nrows(),
        b.ncols() <= a.ncols(),
        b.nrows() * b.ncols() <= MAX_LEN,
        r < a.nrows(),
        c < a.ncols(),
    ensures
        v == conv2d_at(*a, *b, r as int, c as int),
{
    let na = a.rows();
    let ma = a.cols();
    let nb = b.rows();
    let mb = b.cols();
    let mut acc: i64 = 0;
    let mut k: usize = 0;
    while k < nb
        invariant
            k <= nb,
            acc == conv2d_partial(*a, *b, r as int, c as int, k as int),
        decreases nb - k,
    {
        proof {
            lemma_factor_le_product(nb as int, mb as int, MAX_LEN as int);
        }
        let mut row_acc: i64 = 0;
        let mut l: usize = 0;
        while l < mb
            invariant
                l <= mb,
                mb <= MAX_LEN,
                row_acc == conv2d_row_partial(*a, *b, r as int, c as int, k as int, l as int),
            decreases mb - l,
        {
            let ri = r + k;
            let ci = c + l;
            let sample: i64 = if ri >= 1 && ri <= na && ci >= 1 && ci <= ma {
                a.get(ri - 1, ci - 1)
            } else {
                0
            };
            proof {
                assert(sample as int
                    == fill_sample(*a, r as int - 1 + k as int, c as int - 1 + l as int));
                lemma_conv2d_row_bound(*a, *b, r as int, c as int, k as int, l as int);
                lemma_product_bound(sample as int, b.at(k as int, l as int) as int, MAX_SAMPLE as int);
            }
            let prod = sample * b.get(k, l);
            row_acc = row_acc + prod;
            l += 1;
        }
        proof {
            lemma_conv2d_partial_bound(*a, *b, r as int, c as int, k as int);
            lemma_conv2d_row_bound(*a, *b, r as int, c as int, k as int, mb as int);
            lemma_conv2d_acc_bound(k as int, nb as int, mb as int, MAX_LEN as int, MAX_TERM as int);
        }
        acc = acc + row_acc;
        k += 1;
    }
    acc
}

/// 2D convolution of the image `a` with the kernel `b` into the
/// caller-provided matrix `out`, under the given boundary policy.
///
/// Every output position inside the image region gets the kernel sum
/// centered one step up and left of it; under `Boundary::Fill`, samples
/// that the kernel would read outside the image count as zero, so border
/// pixels are computed rather than left stale. Cells of `out` beyond the
/// image region keep their previous values. A kernel larger than the
/// image in either axis, or an output smaller than the image, is
/// rejected before anything is written. The exclusive borrow of `out`
/// already rules out aliasing with `a` or `b`.
#[verifier::loop_isolation(false)]
pub fn conv2d(a: &Matrix, b: &Matrix, out: &mut Matrix, boundary: Boundary) -> (res: Result<
    (),
    ConvError,
>)
    requires
        a.wf(),
        b.wf(),
        old(out).wf(),
        bounded_matrix(*a),
        bounded_matrix(*b),
        a.nrows() <= MAX_LEN,
        a.ncols() <= MAX_LEN,
        b.nrows() * b.ncols() <= MAX_LEN,
    ensures
        final(out).wf(),
        final(out).nrows() == old(out).nrows(),
        final(out).ncols() == old(out).ncols(),
        res is Ok <==> (b.nrows() <= a.nrows() && b.ncols() <= a.ncols()
            && a.nrows() <= old(out).nrows() && a.ncols() <= old(out).ncols()),
        match res {
            Ok(()) => forall|r: int, c: int|
                0 <= r < old(out).nrows() && 0 <= c < old(out).ncols()
                    ==> #[trigger] final(out).at(r, c) == if r < a.nrows() && c < a.ncols() {
                        conv2d_at(*a, *b, r, c)
                    } else {
                        old(out).at(r, c) as int
                    },
            Err(e) => *final(out) == *old(out) && e == (
                if b.nrows() > a.nrows() || b.ncols() > a.ncols() {
                    ConvError::KernelTooLarge
                } else {
                    ConvError::OutputTooSmall
                }),
        },
{
    let na = a.rows();
    let ma = a.cols();
    let nb = b.rows();
    let mb = b.cols();
    if nb > na || mb > ma {
        return Err(ConvError::KernelTooLarge);
    }
    if out.rows() < na || out.cols() < ma {
        return Err(ConvError::OutputTooSmall);
    }
    match boundary {
        Boundary::Fill => {},
    }
    let mut r: usize = 0;
    while r < na
        invariant
            r <= na,
            out.wf(),
            out.nrows() == old(out).nrows(),
            out.ncols() == old(out).ncols(),
            forall|r2: int, c2: int|
                0 <= r2 < old(out).nrows() && 0 <= c2 < old(out).ncols()
                    ==> #[trigger] out.at(r2, c2) == if r2 < r && c2 < a.ncols() {
                        conv2d_at(*a, *b, r2, c2)
                    } else {
                        old(out).at(r2, c2) as int
                    },
        decreases na - r,
    {
        let mut c: usize = 0;
        while c < ma
            invariant
                c <= ma,
                r < na,
                out.wf(),
                out.nrows() == old(out).nrows(),
                out.ncols() == old(out).ncols(),
                forall|r2: int, c2: int|
                    0 <= r2 < old(out).nrows() && 0 <= c2 < old(out).ncols()
                        ==> #[trigger] out.at(r2, c2) == if (r2 < r && c2 < a.ncols())
                            || (r2 == r && c2 < c) {
                            conv2d_at(*a, *b, r2, c2)
                        } else {
                            old(out).at(r2, c2) as int
                        },
            decreases ma - c,
        {
            let v = conv2d_cell(a, b, r, c);
            out.set(r, c, v);
            c += 1;
        }
        r += 1;
    }
    Ok(())
}

/// Addends read from an all-zero image are all zero, so each kernel row
/// sums to zero.
proof fn lemma_conv2d_row_zero(a: Matrix, b: Matrix, r: int, c: int, k: int, n: int)
    requires
        matrix_all_zero(a),
    ensures
        conv2d_row_partial(a, b, r, c, k, n) == 0,
    decreases n,
{
    if n > 0 {
        lemma_conv2d_row_zero(a, b, r, c, k, n - 1);
        assert(fill_sample(a, r - 1 + k, c - 1 + (n - 1)) == 0);
    }
}

/// Law: 2D convolution of an all-zero image with any kernel yields zero
/// at every output position, under the zero-fill boundary policy.
pub proof fn lemma_conv2d_zero_image(a: Matrix, b: Matrix)
    requires
        matrix_all_zero(a),
    ensures
        forall|r: int, c: int| #[trigger] conv2d_at(a, b, r, c) == 0,
{
    assert forall|r: int, c: int| #[trigger] conv2d_at(a, b, r, c) == 0 by {
        lemma_conv2d_partial_zero(a, b, r, c, b.nrows() as int);
    }
}

/// The truncated 2D sum over an all-zero image is zero for any number of
/// kernel rows.
proof fn lemma_conv2d_partial_zero(a: Matrix, b: Matrix, r: int, c: int, n: int)
    requires
        matrix_all_zero(a),
    ensures
        conv2d_partial(a, b, r, c, n) == 0,
    decreases n,
{
    if n > 0 {
        lemma_conv2d_partial_zero(a, b, r, c, n - 1);
        lemma_conv2d_row_zero(a, b, r, c, n - 1, b.ncols() as int);
    }
}

} // verus!

