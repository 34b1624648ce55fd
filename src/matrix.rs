use vstd::prelude::*;

verus! {

/// Largest number of items (columns) that a rating matrix may have, so that the exact integer
/// arithmetic on centered rows and their dot products fits in 64 and 128 bits.
pub const MAX_ITEMS: usize = 1048576;

/// Bound on the magnitude of a centered entry of a row of at most `MAX_ITEMS` ratings.
pub open spec fn centered_bound() -> int {
    0x10_0000_0000_0000
}

/// Bound on the magnitude of the product of two centered entries.
pub open spec fn product_bound() -> int {
    0x100_0000_0000_0000_0000_0000_0000
}

/// Entry `j` of `row` holds a rating, not the sentinel.
pub open spec fn is_observed(row: Seq<i32>, s: i32, j: int) -> bool {
    row[j] != s
}

/// The mask of a row: true where the row holds a rating.
pub open spec fn mask_row(row: Seq<i32>, s: i32) -> Seq<bool> {
    Seq::new(row.len(), |j: int| row[j] != s)
}

/// Number of ratings among the first `n` entries of `row`.
pub open spec fn count_upto(row: Seq<i32>, s: i32, n: int) -> int
    decreases n,
{
    if n <= 0 {
        0
    } else {
        count_upto(row, s, n - 1) + if row[n - 1] != s { 1int } else { 0int }
    }
}

/// Sum of the ratings among the first `n` entries of `row`.
pub open spec fn sum_upto(row: Seq<i32>, s: i32, n: int) -> int
    decreases n,
{
    if n <= 0 {
        0
    } else {
        sum_upto(row, s, n - 1) + if row[n - 1] != s { row[n - 1] as int } else { 0int }
    }
}

pub open spec fn observed_count(row: Seq<i32>, s: i32) -> int {
    count_upto(row, s, row.len() as int)
}

pub open spec fn observed_sum(row: Seq<i32>, s: i32) -> int {
    sum_upto(row, s, row.len() as int)
}

/// The centered row, scaled by the row's number of ratings so that it stays exact: an observed
/// entry `r` becomes `count * r - sum`, which is `count * (r - mean)`; an unobserved entry is 0.
/// Scaling a row by a positive factor changes none of its cosine similarities.
pub open spec fn centered_row(row: Seq<i32>, s: i32) -> Seq<int> {
    Seq::new(
        row.len(),
        |j: int|
            if row[j] != s {
                observed_count(row, s) * row[j] - observed_sum(row, s)
            } else {
                0
            },
    )
}

/// Sum of the first `n` entries of `a`.
pub open spec fn sum_of(a: Seq<int>, n: int) -> int
    decreases n,
{
    if n <= 0 {
        0
    } else {
        sum_of(a, n - 1) + a[n - 1]
    }
}

/// Dot product of the first `n` entries of `a` and `b`.
pub open spec fn dot_upto(a: Seq<int>, b: Seq<int>, n: int) -> int
    decreases n,
{
    if n <= 0 {
        0
    } else {
        dot_upto(a, b, n - 1) + a[n - 1] * b[n - 1]
    }
}

pub open spec fn dot(a: Seq<int>, b: Seq<int>) -> int {
    dot_upto(a, b, a.len() as int)
}

pub open spec fn ints(v: Seq<i64>) -> Seq<int> {
    v.map_values(|x: i64| x as int)
}

proof fn lemma_count_sum_bounds(row: Seq<i32>, s: i32, n: int)
    requires
        0 <= n <= row.len(),
    ensures
        0 <= count_upto(row, s, n) <= n,
        -n * 0x8000_0000 <= sum_upto(row, s, n) <= n * 0x8000_0000,
    decreases n,
{
    if n > 0 {
        lemma_count_sum_bounds(row, s, n - 1);
    }
}

/// Every entry of a centered row of at most `MAX_ITEMS` ratings is within `centered_bound()`.
pub proof fn lemma_centered_bound(row: Seq<i32>, s: i32)
    requires
        row.len() <= MAX_ITEMS,
    ensures
        forall|j: int| 0 <= j < row.len() ==> -centered_bound() <= #[trigger] centered_row(row, s)[j] <= centered_bound(),
{
    let n = row.len() as int;
    lemma_count_sum_bounds(row, s, n);
    let c = observed_count(row, s);
    let t = observed_sum(row, s);
    assert forall|j: int| 0 <= j < row.len() implies -centered_bound() <= #[trigger] centered_row(row, s)[j] <= centered_bound() by {
        let r = row[j] as int;
        assert(-0x8000_0000 <= r <= 0x8000_0000);
        assert(0 <= c <= 1048576);
        assert(-0x8_0000_0000_0000 <= c * r <= 0x8_0000_0000_0000) by (nonlinear_arith)
            requires
                -0x8000_0000 <= r <= 0x8000_0000,
                0 <= c <= 1048576,
        ;
        assert(-0x8_0000_0000_0000 <= t <= 0x8_0000_0000_0000) by (nonlinear_arith)
            requires
                -n * 0x8000_0000 <= t <= n * 0x8000_0000,
                0 <= n <= 1048576,
        ;
    }
}

proof fn lemma_centered_sum_prefix(row: Seq<i32>, s: i32, n: int)
    requires
        0 <= n <= row.len(),
    ensures
        sum_of(centered_row(row, s), n) == observed_count(row, s) * sum_upto(row, s, n) - count_upto(
            row,
            s,
            n,
        ) * observed_sum(row, s),
    decreases n,
{
    if n > 0 {
        lemma_centered_sum_prefix(row, s, n - 1);
        let c = observed_count(row, s);
        let t = observed_sum(row, s);
        let a = sum_upto(row, s, n - 1);
        let b = count_upto(row, s, n - 1);
        let r = row[n - 1] as int;
        if row[n - 1] != s {
            assert(c * (a + r) - (b + 1) * t == (c * a - b * t) + (c * r - t)) by (nonlinear_arith);
        }
    }
}

/// A centered row sums to zero, so the mean of its observed entries is zero, and each of its
/// unobserved entries is zero.
pub proof fn lemma_centered_row_mean_zero(row: Seq<i32>, s: i32)
    ensures
        sum_of(centered_row(row, s), row.len() as int) == 0,
        forall|j: int| 0 <= j < row.len() && row[j] == s ==> #[trigger] centered_row(row, s)[j] == 0,
{
    lemma_centered_sum_prefix(row, s, row.len() as int);
    let c = observed_count(row, s);
    let t = observed_sum(row, s);
    assert(c * t - c * t == 0);
}

/// The dot product does not depend on the order of its arguments.
pub proof fn lemma_dot_symmetric(a: Seq<int>, b: Seq<int>, n: int)
    ensures
        dot_upto(a, b, n) == dot_upto(b, a, n),
    decreases n,
{
    if n > 0 {
        lemma_dot_symmetric(a, b, n - 1);
        assert(a[n - 1] * b[n - 1] == b[n - 1] * a[n - 1]) by (nonlinear_arith);
    }
}

proof fn lemma_dot_self_nonneg(a: Seq<int>, n: int)
    ensures
        dot_upto(a, a, n) >= 0,
    decreases n,
{
    if n > 0 {
        lemma_dot_self_nonneg(a, n - 1);
        assert(a[n - 1] * a[n - 1] >= 0) by (nonlinear_arith);
    }
}

proof fn lemma_cross_term(p: int, q: int, x: int, y: int, d: int)
    requires
        p >= 0,
        q >= 0,
        d * d <= p * q,
    ensures
        2 * d * x * y <= p * y * y + q * x * x,
{
    let lhs = 2 * d * x * y;
    let rhs = p * y * y + q * x * x;
    assert(rhs >= 0) by (nonlinear_arith)
        requires
            p >= 0,
            q >= 0,
            rhs == p * y * y + q * x * x,
    ;
    if lhs > 0 {
        // lhs^2 = 4 d^2 x^2 y^2 <= 4 p q x^2 y^2 <= rhs^2, since rhs^2 - 4 p q x^2 y^2 = (p y^2 - q x^2)^2
        assert(lhs * lhs <= 4 * (p * q) * (x * x) * (y * y)) by (nonlinear_arith)
            requires
                lhs == 2 * d * x * y,
                d * d <= p * q,
        ;
        assert(4 * (p * q) * (x * x) * (y * y) <= rhs * rhs) by (nonlinear_arith)
            requires
                rhs == p * y * y + q * x * x,
        ;
        assert(lhs <= rhs) by (nonlinear_arith)
            requires
                lhs > 0,
                rhs >= 0,
                lhs * lhs <= rhs * rhs,
        ;
    }
}

/// Cauchy–Schwarz: the squared dot product of two vectors is at most the product of their
/// squared norms, so a cosine similarity lies in [-1, 1].
pub proof fn lemma_cauchy_schwarz(a: Seq<int>, b: Seq<int>, n: int)
    ensures
        dot_upto(a, b, n) * dot_upto(a, b, n) <= dot_upto(a, a, n) * dot_upto(b, b, n),
        dot_upto(a, a, n) >= 0,
    decreases n,
{
    lemma_dot_self_nonneg(a, n);
    if n > 0 {
        lemma_cauchy_schwarz(a, b, n - 1);
        lemma_dot_self_nonneg(b, n - 1);
        let d = dot_upto(a, b, n - 1);
        let p = dot_upto(a, a, n - 1);
        let q = dot_upto(b, b, n - 1);
        let x = a[n - 1];
        let y = b[n - 1];
        lemma_cross_term(p, q, x, y, d);
        assert((d + x * y) * (d + x * y) == d * d + 2 * d * x * y + (x * x) * (y * y)) by (nonlinear_arith);
        assert((p + x * x) * (q + y * y) == p * q + p * y * y + q * x * x + (x * x) * (y * y)) by (nonlinear_arith);
    }
}

/// The mask of one row.
pub fn mask_of_row(row: &Vec<i32>, s: i32) -> (r: Vec<bool>)
    ensures
        r@ == mask_row(row@, s),
{
    let mut out: Vec<bool> = Vec::new();
    let mut j: usize = 0;
    while j < row.len()
        invariant
            j <= row@.len(),
            out@ == mask_row(row@, s).subrange(0, j as int),
        decreases row@.len() - j,
    {
        out.push(row[j] != s);
        j = j + 1;
    }
    assert(out@ =~= mask_row(row@, s));
    out
}

/// The centered row, scaled by the row's number of ratings (see `centered_row`).
pub fn center_row(row: &Vec<i32>, s: i32) -> (r: Vec<i64>)
    requires
        row@.len() <= MAX_ITEMS,
    ensures
        ints(r@) == centered_row(row@, s),
{
    let n = row.len();
    let mut count: i64 = 0;
    let mut sum: i64 = 0;
    let mut j: usize = 0;
    while j < n
        invariant
            n == row@.len() <= MAX_ITEMS,
            j <= n,
            count == count_upto(row@, s, j as int),
            sum == sum_upto(row@, s, j as int),
        decreases n - j,
    {
        proof {
            lemma_count_sum_bounds(row@, s, j as int);
            assert(-0x8_0000_0000_0000 <= sum <= 0x8_0000_0000_0000) by (nonlinear_arith)
                requires
                    -j * 0x8000_0000 <= sum <= j * 0x8000_0000,
                    0 <= j <= 1048576,
            ;
        }
        if row[j] != s {
            count = count + 1;
            sum = sum + row[j] as i64;
        }
        j = j + 1;
    }
    proof {
        lemma_centered_bound(row@, s);
        lemma_count_sum_bounds(row@, s, n as int);
    }
    let mut out: Vec<i64> = Vec::new();
    let mut j: usize = 0;
    while j < n
        invariant
            n == row@.len() <= MAX_ITEMS,
            j <= n,
            count == observed_count(row@, s),
            sum == observed_sum(row@, s),
            0 <= count <= n,
            forall|i: int| 0 <= i < n ==> -centered_bound() <= #[trigger] centered_row(row@, s)[i] <= centered_bound(),
            ints(out@) == centered_row(row@, s).subrange(0, j as int),
        decreases n - j,
    {
        let v: i64;
        if row[j] != s {
            let r = row[j] as i64;
            assert(-0x8_0000_0000_0000 <= count * r <= 0x8_0000_0000_0000) by (nonlinear_arith)
                requires
                    -0x8000_0000 <= r <= 0x8000_0000,
                    0 <= count <= 1048576,
            ;
            assert(centered_row(row@, s)[j as int] == count * r - sum);
            v = count * r - sum;
        } else {
            v = 0;
        }
        let ghost before = out@;
        out.push(v);
        proof {
            assert(ints(out@) =~= ints(before).push(v as int));
            assert(v as int == centered_row(row@, s)[j as int]);
            assert(ints(out@) =~= centered_row(row@, s).subrange(0, j as int + 1));
        }
        j = j + 1;
    }
    assert(ints(out@) =~= centered_row(row@, s));
    out
}

/// Exact dot product of two centered rows.
pub fn dot_rows(a: &Vec<i64>, b: &Vec<i64>) -> (r: i128)
    requires
        a@.len() == b@.len() <= MAX_ITEMS,
        forall|j: int| 0 <= j < a@.len() ==> -centered_bound() <= #[trigger] a@[j] <= centered_bound(),
        forall|j: int| 0 <= j < b@.len() ==> -centered_bound() <= #[trigger] b@[j] <= centered_bound(),
    ensures
        r == dot(ints(a@), ints(b@)),
{
    let n = a.len();
    let mut acc: i128 = 0;
    let mut j: usize = 0;
    while j < n
        invariant
            n == a@.len() == b@.len() <= MAX_ITEMS,
            j <= n,
            forall|i: int| 0 <= i < a@.len() ==> -centered_bound() <= #[trigger] a@[i] <= centered_bound(),
            forall|i: int| 0 <= i < b@.len() ==> -centered_bound() <= #[trigger] b@[i] <= centered_bound(),
            acc == dot_upto(ints(a@), ints(b@), j as int),
            -j * product_bound() <= acc <= j * product_bound(),
        decreases n - j,
    {
        let x = a[j] as i128;
        let y = b[j] as i128;
        assert(-product_bound() <= x * y <= product_bound()) by (nonlinear_arith)
            requires
                -centered_bound() <= x <= centered_bound(),
                -centered_bound() <= y <= centered_bound(),
        ;
        assert(-(j + 1) * product_bound() <= acc + x * y <= (j + 1) * product_bound()) by (nonlinear_arith)
            requires
                -j * product_bound() <= acc <= j * product_bound(),
                -product_bound() <= x * y <= product_bound(),
        ;
        assert(-0x1000_0000_0000_0000_0000_0000_0000_0000 <= (j + 1) * product_bound() <= 0x1000_0000_0000_0000_0000_0000_0000_0000) by (nonlinear_arith)
            requires
                0 <= j < 1048576,
        ;
        acc = acc + x * y;
        j = j + 1;
    }
    acc
}

} // verus!
