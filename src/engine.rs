use vstd::prelude::*;
use crate::matrix::{
    MAX_ITEMS, centered_bound, mask_row, count_upto, observed_count, centered_row, dot,
    ints, mask_of_row, center_row, dot_rows, lemma_centered_bound, lemma_centered_row_mean_zero,
    lemma_dot_symmetric, lemma_cauchy_schwarz, sum_of,
};
use crate::ranking::{is_top_k, top_k};

verus! {

/// Number of items of a matrix held as a sequence of rows: the length of its first row.
pub open spec fn width(v: Seq<Seq<i32>>) -> int {
    if v.len() == 0 {
        0
    } else {
        v[0].len() as int
    }
}

/// `v` is a dense rating matrix that the engine can hold: all rows have the same length, at
/// most `MAX_ITEMS`, and the number of cells fits in `usize`.
pub open spec fn is_matrix(v: Seq<Seq<i32>>) -> bool {
    &&& forall|i: int| 0 <= i < v.len() ==> #[trigger] v[i].len() == width(v)
    &&& width(v) <= MAX_ITEMS
    &&& v.len() * width(v) <= usize::MAX
}

pub open spec fn rows_view(v: Seq<Vec<i32>>) -> Seq<Seq<i32>> {
    Seq::new(v.len(), |i: int| v[i]@)
}

/// The mask of a rating matrix: true exactly where the matrix does not hold the sentinel.
pub open spec fn mask_matrix(v: Seq<Seq<i32>>, s: i32) -> Seq<Seq<bool>> {
    Seq::new(v.len(), |i: int| mask_row(v[i], s))
}

/// The row-centered matrix, each row scaled by its number of ratings (see `centered_row`).
pub open spec fn centered_matrix(v: Seq<Seq<i32>>, s: i32) -> Seq<Seq<int>> {
    Seq::new(v.len(), |i: int| centered_row(v[i], s))
}

/// The table of dot products between the rows of `c`. The cosine similarity of rows `i` and `j`
/// is `g[i][j] / sqrt(g[i][i] * g[j][j])`, taken as 0 when either row has norm 0.
pub open spec fn gram_matrix(c: Seq<Seq<int>>) -> Seq<Seq<int>> {
    Seq::new(c.len(), |i: int| Seq::new(c.len(), |j: int| dot(c[i], c[j])))
}

/// Number of ratings in the first `n` rows of `v`.
pub open spec fn total_observed(v: Seq<Seq<i32>>, s: i32, n: int) -> int
    decreases n,
{
    if n <= 0 {
        0
    } else {
        total_observed(v, s, n - 1) + observed_count(v[n - 1], s)
    }
}

/// Column `j` of a mask: which rows hold a rating for item `j`.
pub open spec fn mask_column(m: Seq<Seq<bool>>, j: int) -> Seq<bool> {
    Seq::new(m.len(), |i: int| m[i][j])
}

/// Every row may be a neighbour.
pub open spec fn all_rows(n: int) -> Seq<bool> {
    Seq::new(n as nat, |i: int| true)
}

/// The exact parts of a cosine similarity: `dot / sqrt(left * right)`, or 0 when `left` or
/// `right` is 0 (a row with no spread has no direction).
#[derive(Clone, Copy, Debug, PartialEq, Eq)]
pub struct Cosine {
    pub dot: i128,
    pub left: i128,
    pub right: i128,
}

/// A neighbourhood recommender built once from a dense rating matrix: the mask of observed
/// cells, the centered rows and the table of their dot products.
pub struct RecEngine {
    rating: Vec<Vec<i32>>,
    mask: Vec<Vec<bool>>,
    mask_value: i32,
    centered: Vec<Vec<i64>>,
    sim_table: Vec<Vec<i128>>,
    cols: usize,
    observed: usize,
    k: usize,
}

impl RecEngine {
    pub closed spec fn ratings(&self) -> Seq<Seq<i32>> {
        rows_view(self.rating@)
    }

    pub closed spec fn mask_view(&self) -> Seq<Seq<bool>> {
        Seq::new(self.mask@.len(), |i: int| self.mask@[i]@)
    }

    pub closed spec fn centered_view(&self) -> Seq<Seq<int>> {
        Seq::new(self.centered@.len(), |i: int| ints(self.centered@[i]@))
    }

    pub closed spec fn gram_view(&self) -> Seq<Seq<int>> {
        Seq::new(
            self.sim_table@.len(),
            |i: int| Seq::new(self.sim_table@[i]@.len(), |j: int| self.sim_table@[i]@[j] as int),
        )
    }

    pub closed spec fn sentinel(&self) -> i32 {
        self.mask_value
    }

    pub closed spec fn items(&self) -> int {
        self.cols as int
    }

    pub closed spec fn observed_total(&self) -> int {
        self.observed as int
    }

    pub closed spec fn neighbourhood(&self) -> int {
        self.k as int
    }

    /// The engine holds what construction from rating matrix `v` and sentinel `s` yields.
    pub open spec fn is_built_from(&self, v: Seq<Seq<i32>>, s: i32) -> bool {
        &&& self.ratings() == v
        &&& self.sentinel() == s
        &&& self.items() == width(v)
        &&& self.mask_view() == mask_matrix(v, s)
        &&& self.centered_view() == centered_matrix(v, s)
        &&& self.gram_view() == gram_matrix(centered_matrix(v, s))
        &&& self.observed_total() == total_observed(v, s, v.len() as int)
    }

    pub open spec fn wf(&self) -> bool {
        &&& is_matrix(self.ratings())
        &&& self.is_built_from(self.ratings(), self.sentinel())
        &&& self.inner_wf()
    }

    pub closed spec fn inner_wf(&self) -> bool {
        &&& self.mask@.len() == self.rating@.len()
        &&& self.centered@.len() == self.rating@.len()
        &&& self.sim_table@.len() == self.rating@.len()
        &&& forall|i: int| 0 <= i < self.rating@.len() ==> #[trigger] self.rating@[i]@.len() == self.cols
        &&& forall|i: int| 0 <= i < self.rating@.len() ==> #[trigger] self.mask@[i]@.len() == self.cols
        &&& forall|i: int| 0 <= i < self.rating@.len() ==> #[trigger] self.centered@[i]@.len() == self.cols
        &&& forall|i: int|
            0 <= i < self.rating@.len() ==> #[trigger] self.sim_table@[i]@.len() == self.rating@.len()
    }

    /// Builds the engine from a dense rating matrix `v`, the value `mask_value` that marks a
    /// missing rating, and the default neighbourhood size `top_k`.
    pub fn new(v: Vec<Vec<i32>>, mask_value: i32, top_k: usize) -> (r: RecEngine)
        requires
            is_matrix(rows_view(v@)),
        ensures
            r.wf(),
            r.is_built_from(rows_view(v@), mask_value),
            r.neighbourhood() == top_k,
    {
        let ghost m = rows_view(v@);
        let rows = v.len();
        let cols: usize = if rows == 0 {
            0
        } else {
            v[0].len()
        };
        let (mask, centered, observed) = Self::mask_and_center(&v, mask_value);
        proof {
            assert forall|a: int, j: int| 0 <= a < rows && 0 <= j < centered@[a]@.len() implies -centered_bound()
                <= #[trigger] centered@[a]@[j] <= centered_bound() by {
                lemma_row_entries_bounded(m, mask_value, centered@[a]@, a);
            }
            assert forall|a: int| 0 <= a < rows implies #[trigger] centered@[a]@.len() == cols by {
                lemma_row_entries_bounded(m, mask_value, centered@[a]@, a);
            }
        }
        let sim_table = Self::get_sim_table(&centered, cols);
        let r = RecEngine {
            rating: v,
            mask,
            mask_value,
            centered,
            sim_table,
            cols,
            observed,
            k: top_k,
        };
        proof {
            assert(r.mask_view() =~= mask_matrix(m, mask_value));
            assert(r.centered_view() =~= centered_matrix(m, mask_value));
            let c = centered_matrix(m, mask_value);
            assert forall|a: int| 0 <= a < rows implies #[trigger] r.gram_view()[a] == gram_matrix(c)[a] by {
                assert forall|b: int| 0 <= b < rows implies r.gram_view()[a][b] == #[trigger] gram_matrix(c)[a][b] by {
                    assert(ints(r.centered@[a]@) == c[a]);
                    assert(ints(r.centered@[b]@) == c[b]);
                }
                assert(r.gram_view()[a] =~= gram_matrix(c)[a]);
            }
            assert(r.gram_view() =~= gram_matrix(c));
            assert(r.ratings() =~= m);
            assert forall|a: int| 0 <= a < rows implies #[trigger] r.rating@[a]@.len() == cols by {
                assert(m[a] == r.rating@[a]@);
            }
            assert forall|a: int| 0 <= a < rows implies #[trigger] r.mask@[a]@.len() == cols by {
                assert(m[a] == r.rating@[a]@);
                assert(r.mask@[a]@ == mask_row(m[a], mask_value));
            }
            assert forall|a: int| 0 <= a < rows implies #[trigger] r.centered@[a]@.len() == cols by {
                assert(m[a] == r.rating@[a]@);
                assert(ints(r.centered@[a]@) == centered_row(m[a], mask_value));
                assert(ints(r.centered@[a]@).len() == r.centered@[a]@.len());
            }
            assert(r.inner_wf());
        }
        r
    }

    /// The mask and the centered rows of `v`, and its number of ratings.
    pub fn mask_and_center(v: &Vec<Vec<i32>>, mask_value: i32) -> (r: (Vec<Vec<bool>>, Vec<Vec<i64>>, usize))
        requires
            is_matrix(rows_view(v@)),
        ensures
            r.0@.len() == v@.len(),
            r.1@.len() == v@.len(),
            forall|a: int| 0 <= a < v@.len() ==> (#[trigger] r.0@[a])@ == mask_row(v@[a]@, mask_value),
            forall|a: int| 0 <= a < v@.len() ==> ints((#[trigger] r.1@[a])@) == centered_row(v@[a]@, mask_value),
            r.2 == total_observed(rows_view(v@), mask_value, v@.len() as int),
    {
        let ghost m = rows_view(v@);
        let rows = v.len();
        let cols: usize = if rows == 0 {
            0
        } else {
            v[0].len()
        };
        let mut mask: Vec<Vec<bool>> = Vec::new();
        let mut centered: Vec<Vec<i64>> = Vec::new();
        let mut observed: usize = 0;
        let mut i: usize = 0;
        while i < rows
            invariant
                m == rows_view(v@),
                rows == v@.len(),
                is_matrix(m),
                cols == width(m),
                i <= rows,
                mask@.len() == i,
                centered@.len() == i,
                forall|a: int| 0 <= a < i ==> #[trigger] mask@[a]@ == mask_row(m[a], mask_value),
                forall|a: int| 0 <= a < i ==> #[trigger] ints(centered@[a]@) == centered_row(m[a], mask_value),
                observed == total_observed(m, mask_value, i as int),
                observed <= i * cols,
            decreases rows - i,
        {
            assert(m[i as int] == v@[i as int]@);
            let row_mask = mask_of_row(&v[i], mask_value);
            let row_centered = center_row(&v[i], mask_value);
            let n = count_true(&row_mask);
            proof {
                lemma_count_matches(m[i as int], mask_value, m[i as int].len() as int);
                assert(n <= cols);
                assert(i * cols + cols == (i + 1) * cols) by (nonlinear_arith);
                assert((i + 1) * cols <= rows * cols) by (nonlinear_arith)
                    requires
                        i + 1 <= rows,
                ;
            }
            observed = observed + n;
            mask.push(row_mask);
            centered.push(row_centered);
            i = i + 1;
        }
        (mask, centered, observed)
    }

    /// The table of dot products between the centered rows.
    fn get_sim_table(centered: &Vec<Vec<i64>>, cols: usize) -> (r: Vec<Vec<i128>>)
        requires
            cols <= MAX_ITEMS,
            forall|a: int| 0 <= a < centered@.len() ==> (#[trigger] centered@[a])@.len() == cols,
            forall|a: int, j: int|
                0 <= a < centered@.len() && 0 <= j < centered@[a]@.len() ==> -centered_bound() <= #[trigger] centered@[a]@[j]
                    <= centered_bound(),
        ensures
            r@.len() == centered@.len(),
            forall|a: int| 0 <= a < r@.len() ==> (#[trigger] r@[a])@.len() == centered@.len(),
            forall|a: int, b: int|
                0 <= a < r@.len() && 0 <= b < r@.len() ==> r@[a]@[b] as int == dot(
                    ints(#[trigger] centered@[a]@),
                    ints(#[trigger] centered@[b]@),
                ),
    {
        let rows = centered.len();
        let mut table: Vec<Vec<i128>> = Vec::new();
        let mut i: usize = 0;
        while i < rows
            invariant
                rows == centered@.len(),
                cols <= MAX_ITEMS,
                forall|a: int| 0 <= a < centered@.len() ==> (#[trigger] centered@[a])@.len() == cols,
                forall|a: int, j: int|
                    0 <= a < centered@.len() && 0 <= j < centered@[a]@.len() ==> -centered_bound()
                        <= #[trigger] centered@[a]@[j] <= centered_bound(),
                i <= rows,
                table@.len() == i,
                forall|a: int| 0 <= a < i ==> #[trigger] table@[a]@.len() == rows,
                forall|a: int, b: int|
                    0 <= a < i && 0 <= b < rows ==> table@[a]@[b] as int == dot(
                        ints(#[trigger] centered@[a]@),
                        ints(#[trigger] centered@[b]@),
                    ),
            decreases rows - i,
        {
            let mut line: Vec<i128> = Vec::new();
            let mut j: usize = 0;
            while j < rows
                invariant
                    rows == centered@.len(),
                    cols <= MAX_ITEMS,
                    forall|a: int| 0 <= a < centered@.len() ==> (#[trigger] centered@[a])@.len() == cols,
                    forall|a: int, j: int|
                        0 <= a < centered@.len() && 0 <= j < centered@[a]@.len() ==> -centered_bound()
                            <= #[trigger] centered@[a]@[j] <= centered_bound(),
                    i < rows,
                    j <= rows,
                    line@.len() == j,
                    forall|b: int|
                        0 <= b < j ==> line@[b] as int == dot(ints(centered@[i as int]@), ints(#[trigger] centered@[b]@)),
                decreases rows - j,
            {
                let d = dot_rows(&centered[i], &centered[j]);
                line.push(d);
                j = j + 1;
            }
            table.push(line);
            i = i + 1;
        }
        table
    }

    /// Whether row `i` holds a rating for item `j`.
    pub fn is_rated(&self, i: usize, j: usize) -> (r: bool)
        requires
            self.wf(),
            i < self.ratings().len(),
            j < self.items(),
        ensures
            r == (self.ratings()[i as int][j as int] != self.sentinel()),
    {
        assert(self.mask_view()[i as int] == self.mask@[i as int]@);
        self.mask[i][j]
    }

    /// The exact parts of the cosine similarity of rows `i` and `j`; `None` when either row
    /// does not exist.
    pub fn sim(&self, i: usize, j: usize) -> (r: Option<Cosine>)
        requires
            self.wf(),
        ensures
            r.is_some() == (i < self.ratings().len() && j < self.ratings().len()),
            r matches Some(c) ==> {
                &&& c.dot == self.gram_view()[i as int][j as int]
                &&& c.left == self.gram_view()[i as int][i as int]
                &&& c.right == self.gram_view()[j as int][j as int]
            },
    {
        if i < self.sim_table.len() && j < self.sim_table.len() {
            Some(Cosine { dot: self.sim_table[i][j], left: self.sim_table[i][i], right: self.sim_table[j][j] })
        } else {
            None
        }
    }

    /// The table of dot products between centered rows.
    pub fn get_sim(&self) -> (r: &Vec<Vec<i128>>)
        requires
            self.wf(),
        ensures
            r@.len() == self.ratings().len(),
            forall|i: int| 0 <= i < r@.len() ==> (#[trigger] r@[i])@.len() == r@.len(),
            forall|i: int, j: int|
                0 <= i < r@.len() && 0 <= j < r@.len() ==> r@[i]@[j] as int == self.gram_view()[i][j],
    {
        assert forall|i: int, j: int|
            0 <= i < self.sim_table@.len() && 0 <= j < self.sim_table@.len() implies self.sim_table@[i]@[j] as int
            == self.gram_view()[i][j] by {
            assert(self.gram_view()[i][j] == self.sim_table@[i]@[j] as int);
        }
        &self.sim_table
    }

    /// The sentinel that marks a missing rating.
    pub fn get_mask_value(&self) -> (r: i32)
        ensures
            r == self.sentinel(),
    {
        self.mask_value
    }

    /// The default neighbourhood size.
    pub fn default_k(&self) -> (r: usize)
        ensures
            r == self.neighbourhood(),
    {
        self.k
    }

    /// The number of users (rows) and items (columns).
    pub fn dim(&self) -> (r: (usize, usize))
        requires
            self.wf(),
        ensures
            r.0 == self.ratings().len(),
            r.1 == self.items(),
    {
        (self.rating.len(), self.cols)
    }

    /// The number of observed cells of the rating matrix.
    pub fn observed_count(&self) -> (r: usize)
        ensures
            r == self.observed_total(),
    {
        self.observed
    }

    /// The rating matrix the engine was built from.
    pub fn get_ratings(&self) -> (r: &Vec<Vec<i32>>)
        ensures
            rows_view(r@) == self.ratings(),
    {
        &self.rating
    }

    /// The mask of observed cells.
    pub fn get_mask(&self) -> (r: &Vec<Vec<bool>>)
        requires
            self.wf(),
        ensures
            r@.len() == self.mask_view().len(),
            forall|i: int| 0 <= i < r@.len() ==> (#[trigger] r@[i])@ == self.mask_view()[i],
    {
        &self.mask
    }

    /// The centered rows, each scaled by its number of ratings.
    pub fn get_centered(&self) -> (r: &Vec<Vec<i64>>)
        requires
            self.wf(),
        ensures
            r@.len() == self.centered_view().len(),
            forall|i: int| 0 <= i < r@.len() ==> ints((#[trigger] r@[i])@) == self.centered_view()[i],
    {
        &self.centered
    }

    fn rated_column(&self, j: usize) -> (r: Vec<bool>)
        requires
            self.wf(),
            j < self.items(),
        ensures
            r@ == mask_column(self.mask_view(), j as int),
    {
        let mut out: Vec<bool> = Vec::new();
        let mut i: usize = 0;
        while i < self.mask.len()
            invariant
                self.wf(),
                j < self.items(),
                i <= self.mask@.len(),
                out@ == mask_column(self.mask_view(), j as int).subrange(0, i as int),
            decreases self.mask@.len() - i,
        {
            assert(self.mask_view()[i as int] == self.mask@[i as int]@);
            out.push(self.mask[i][j]);
            assert(out@ =~= mask_column(self.mask_view(), j as int).subrange(0, i as int + 1));
            i = i + 1;
        }
        assert(out@ =~= mask_column(self.mask_view(), j as int));
        out
    }

    /// For every cell of the rating matrix: `None` where it holds a rating, and where it does
    /// not, the users whose ratings of that item its prediction averages: the default number
    /// of users most similar to the cell's user among those who rated the item, best first.
    /// `keys[i][c]` is the similarity of user `c` to user `i` as an order key.
    pub fn get_prediction_neighbours(&self, keys: &Vec<Vec<i64>>) -> (r: Vec<Vec<Option<Vec<usize>>>>)
        requires
            self.wf(),
            keys@.len() == self.ratings().len(),
            forall|i: int| 0 <= i < keys@.len() ==> (#[trigger] keys@[i])@.len() == self.ratings().len(),
        ensures
            r@.len() == self.ratings().len(),
            forall|i: int| 0 <= i < r@.len() ==> (#[trigger] r@[i])@.len() == self.items(),
            forall|i: int, j: int|
                0 <= i < r@.len() && 0 <= j < self.items() ==> {
                    let cell = #[trigger] r@[i]@[j];
                    &&& cell.is_none() == self.mask_view()[i][j]
                    &&& cell matches Some(n) ==> is_top_k(
                        keys@[i]@,
                        mask_column(self.mask_view(), j),
                        i,
                        self.neighbourhood(),
                        n@,
                    )
                },
    {
        let (rows, cols) = self.dim();
        let mut out: Vec<Vec<Option<Vec<usize>>>> = Vec::new();
        let mut i: usize = 0;
        while i < rows
            invariant
                self.wf(),
                rows == self.ratings().len(),
                cols == self.items(),
                keys@.len() == rows,
                forall|a: int| 0 <= a < keys@.len() ==> (#[trigger] keys@[a])@.len() == rows,
                i <= rows,
                out@.len() == i,
                forall|a: int| 0 <= a < i ==> (#[trigger] out@[a])@.len() == cols,
                forall|a: int, j: int|
                    0 <= a < i && 0 <= j < cols ==> {
                        let cell = #[trigger] out@[a]@[j];
                        &&& cell.is_none() == self.mask_view()[a][j]
                        &&& cell matches Some(n) ==> is_top_k(
                            keys@[a]@,
                            mask_column(self.mask_view(), j),
                            a,
                            self.neighbourhood(),
                            n@,
                        )
                    },
            decreases rows - i,
        {
            let mut line: Vec<Option<Vec<usize>>> = Vec::new();
            let mut j: usize = 0;
            while j < cols
                invariant
                    self.wf(),
                    rows == self.ratings().len(),
                    cols == self.items(),
                    keys@.len() == rows,
                    forall|a: int| 0 <= a < keys@.len() ==> (#[trigger] keys@[a])@.len() == rows,
                    i < rows,
                    j <= cols,
                    line@.len() == j,
                    forall|b: int|
                        0 <= b < j ==> {
                            let cell = #[trigger] line@[b];
                            &&& cell.is_none() == self.mask_view()[i as int][b]
                            &&& cell matches Some(n) ==> is_top_k(
                                keys@[i as int]@,
                                mask_column(self.mask_view(), b),
                                i as int,
                                self.neighbourhood(),
                                n@,
                            )
                        },
                decreases cols - j,
            {
                assert(self.mask_view()[i as int] == self.mask@[i as int]@);
                if self.mask[i][j] {
                    line.push(None);
                } else {
                    let eligible = self.rated_column(j);
                    let n = top_k(&keys[i], &eligible, i, self.k);
                    line.push(Some(n));
                }
                j = j + 1;
            }
            out.push(line);
            i = i + 1;
        }
        out
    }

    /// The `k` users most similar to user `i`, best first, as (score, user) pairs; `scores[c]`
    /// is the similarity of user `c` to user `i` as an order key.
    pub fn get_top_k_sim(&self, scores: &Vec<i64>, i: usize, k: usize) -> (r: Vec<(i64, usize)>)
        requires
            self.wf(),
            scores@.len() == self.ratings().len(),
        ensures
            is_top_k(scores@, all_rows(scores@.len() as int), i as int, k as int, r@.map_values(|p: (i64, usize)| p.1)),
            forall|p: int| 0 <= p < r@.len() ==> (#[trigger] r@[p]).1 < scores@.len() && r@[p].0 == scores@[r@[p].1 as int],
    {
        let eligible = all_of(scores.len());
        let users = top_k(scores, &eligible, i, k);
        with_scores(scores, &users)
    }

    /// The `k` users most similar to user `i` among those who rated item `j`, best first, as
    /// (score, user) pairs; `scores[c]` is the similarity of user `c` to user `i` as an order key.
    pub fn get_top_k_sim_with_rating(&self, scores: &Vec<i64>, i: usize, k: usize, j: usize) -> (r: Vec<(i64, usize)>)
        requires
            self.wf(),
            scores@.len() == self.ratings().len(),
            j < self.items(),
        ensures
            is_top_k(scores@, mask_column(self.mask_view(), j as int), i as int, k as int, r@.map_values(|p: (i64, usize)| p.1)),
            forall|p: int| 0 <= p < r@.len() ==> (#[trigger] r@[p]).1 < scores@.len() && r@[p].0 == scores@[r@[p].1 as int],
    {
        let eligible = self.rated_column(j);
        let users = top_k(scores, &eligible, i, k);
        with_scores(scores, &users)
    }

    /// The `k` users most similar to user `i`, best first.
    pub fn get_top_k_sim_users(&self, scores: &Vec<i64>, i: usize, k: usize) -> (r: Vec<usize>)
        requires
            self.wf(),
            scores@.len() == self.ratings().len(),
        ensures
            is_top_k(scores@, all_rows(scores@.len() as int), i as int, k as int, r@),
    {
        let eligible = all_of(scores.len());
        top_k(scores, &eligible, i, k)
    }
}

/// Masking: a cell of the mask is set exactly when the rating matrix does not hold the
/// sentinel there.
pub proof fn lemma_mask_correct(e: &RecEngine, i: int, j: int)
    requires
        e.wf(),
        0 <= i < e.ratings().len(),
        0 <= j < e.items(),
    ensures
        e.mask_view()[i][j] <==> e.ratings()[i][j] != e.sentinel(),
{
}

/// Centering: every centered row with at least one rating has mean zero over its observed
/// entries (its entries sum to zero), and every unobserved entry is exactly zero.
pub proof fn lemma_centered_mean_zero(e: &RecEngine, i: int)
    requires
        e.wf(),
        0 <= i < e.ratings().len(),
    ensures
        sum_of(e.centered_view()[i], e.items()) == 0,
        forall|j: int|
            0 <= j < e.items() && !e.mask_view()[i][j] ==> #[trigger] e.centered_view()[i][j] == 0,
{
    let row = e.ratings()[i];
    lemma_centered_row_mean_zero(row, e.sentinel());
}

/// Similarity is symmetric: the dot product of rows `i` and `j` equals that of rows `j` and
/// `i`.
pub proof fn lemma_similarity_symmetric(e: &RecEngine, i: int, j: int)
    requires
        e.wf(),
        0 <= i < e.ratings().len(),
        0 <= j < e.ratings().len(),
    ensures
        e.gram_view()[i][j] == e.gram_view()[j][i],
{
    let c = centered_matrix(e.ratings(), e.sentinel());
    lemma_dot_symmetric(c[i], c[j], c[i].len() as int);
    assert(c[i].len() == c[j].len());
}

/// Similarity is bounded: the squared dot product of two rows is at most the product of their
/// squared norms, so `-1 <= dot / sqrt(left * right) <= 1` whenever both norms are nonzero.
pub proof fn lemma_similarity_bound(e: &RecEngine, i: int, j: int)
    requires
        e.wf(),
        0 <= i < e.ratings().len(),
        0 <= j < e.ratings().len(),
    ensures
        e.gram_view()[i][i] >= 0,
        e.gram_view()[i][j] * e.gram_view()[i][j] <= e.gram_view()[i][i] * e.gram_view()[j][j],
{
    let c = centered_matrix(e.ratings(), e.sentinel());
    assert(c[i].len() == c[j].len());
    lemma_cauchy_schwarz(c[i], c[j], c[i].len() as int);
    lemma_cauchy_schwarz(c[j], c[i], c[j].len() as int);
}

/// Construction is deterministic: two engines built from the same rating matrix and sentinel
/// hold the same mask, the same centered rows and the same similarity table.
pub proof fn lemma_construction_deterministic(a: &RecEngine, b: &RecEngine, v: Seq<Seq<i32>>, s: i32)
    requires
        a.is_built_from(v, s),
        b.is_built_from(v, s),
    ensures
        a.mask_view() == b.mask_view(),
        a.centered_view() == b.centered_view(),
        a.gram_view() == b.gram_view(),
{
}

fn all_of(n: usize) -> (r: Vec<bool>)
    ensures
        r@ == all_rows(n as int),
{
    let mut out: Vec<bool> = Vec::new();
    let mut i: usize = 0;
    while i < n
        invariant
            i <= n,
            out@ == all_rows(n as int).subrange(0, i as int),
        decreases n - i,
    {
        out.push(true);
        assert(out@ =~= all_rows(n as int).subrange(0, i as int + 1));
        i = i + 1;
    }
    assert(out@ =~= all_rows(n as int));
    out
}

fn with_scores(scores: &Vec<i64>, users: &Vec<usize>) -> (r: Vec<(i64, usize)>)
    requires
        forall|p: int| 0 <= p < users@.len() ==> (#[trigger] users@[p]) < scores@.len(),
    ensures
        r@.map_values(|p: (i64, usize)| p.1) == users@,
        forall|p: int| 0 <= p < r@.len() ==> (#[trigger] r@[p]).1 < scores@.len() && r@[p].0 == scores@[r@[p].1 as int],
{
    let mut out: Vec<(i64, usize)> = Vec::new();
    let mut p: usize = 0;
    while p < users.len()
        invariant
            forall|q: int| 0 <= q < users@.len() ==> (#[trigger] users@[q]) < scores@.len(),
            p <= users@.len(),
            out@.map_values(|x: (i64, usize)| x.1) == users@.subrange(0, p as int),
            forall|q: int| 0 <= q < out@.len() ==> (#[trigger] out@[q]).1 < scores@.len() && out@[q].0 == scores@[out@[q].1 as int],
        decreases users@.len() - p,
    {
        let u = users[p];
        let ghost before = out@;
        out.push((scores[u], u));
        assert(out@ == before.push((scores@[u as int], u)));
        assert(out@.map_values(|x: (i64, usize)| x.1) =~= before.map_values(|x: (i64, usize)| x.1).push(u));
        assert(out@.map_values(|x: (i64, usize)| x.1) =~= users@.subrange(0, p as int + 1));
        p = p + 1;
    }
    assert(users@.subrange(0, users@.len() as int) =~= users@);
    out
}

fn count_true(m: &Vec<bool>) -> (r: usize)
    ensures
        r == count_trues(m@, m@.len() as int),
        r <= m@.len(),
{
    let mut n: usize = 0;
    let mut j: usize = 0;
    while j < m.len()
        invariant
            j <= m@.len(),
            n == count_trues(m@, j as int),
            n <= j,
        decreases m@.len() - j,
    {
        if m[j] {
            n = n + 1;
        }
        j = j + 1;
    }
    n
}

spec fn count_trues(m: Seq<bool>, n: int) -> int
    decreases n,
{
    if n <= 0 {
        0
    } else {
        count_trues(m, n - 1) + if m[n - 1] { 1int } else { 0int }
    }
}

proof fn lemma_count_matches(row: Seq<i32>, s: i32, n: int)
    requires
        0 <= n <= row.len(),
    ensures
        count_trues(mask_row(row, s), n) == count_upto(row, s, n),
    decreases n,
{
    if n > 0 {
        lemma_count_matches(row, s, n - 1);
    }
}

proof fn lemma_row_entries_bounded(m: Seq<Seq<i32>>, s: i32, c: Seq<i64>, i: int)
    requires
        is_matrix(m),
        0 <= i < m.len(),
        ints(c) == centered_row(m[i], s),
    ensures
        c.len() == m[i].len() <= MAX_ITEMS,
        forall|j: int| 0 <= j < c.len() ==> -centered_bound() <= #[trigger] c[j] <= centered_bound(),
{
    lemma_centered_bound(m[i], s);
    assert(c.len() == ints(c).len());
    assert forall|j: int| 0 <= j < c.len() implies -centered_bound() <= #[trigger] c[j] <= centered_bound() by {
        assert(ints(c)[j] == c[j] as int);
    }
}

} // verus!
