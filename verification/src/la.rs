//! Linear algebra: a rectangular numeric container with runtime-checked
//! dimensions, together with the usual elementwise and product operations.
//!
//! A matrix holds `rows * cols` elements of type `i64` in row-major order.
//! A vector is simply a matrix with a single row.  Fractional quantities
//! (mesh coordinates, magnitudes) are carried in fixed point: the integer
//! `n` stands for the rational `n / SCALE`.

use vstd::prelude::*;

verus! {

/// Fixed-point scale: the element `n` of a fixed-point vector stands for
/// the rational number `n / SCALE`.
pub const SCALE: i64 = 1_000_000;

/// Errors of the algebra engine: every dimension mismatch is rejected by an
/// explicit runtime check, and normalizing the zero vector is refused.
#[derive(Clone, Copy, Debug, PartialEq, Eq, Structural)]
pub enum LaError {
    DimensionMismatch,
    ZeroMagnitude,
}

/// A rectangular grid of `rows * cols` elements in row-major order.
#[derive(Debug)]
pub struct Matrix {
    rows: usize,
    cols: usize,
    elems: Vec<i64>,
}

impl View for Matrix {
    type V = Seq<Seq<int>>;

    closed spec fn view(&self) -> Seq<Seq<int>> {
        Seq::new(
            self.rows as nat,
            |r: int| Seq::new(self.cols as nat, |c: int| self.elems[r * self.cols + c] as int),
        )
    }
}

/// Does `x` fit in a signed 64-bit element?
pub open spec fn in_i64(x: int) -> bool {
    i64::MIN <= x <= i64::MAX
}

/// `g` is a rectangular grid of `r` rows and `c` columns.
pub open spec fn is_grid(g: Seq<Seq<int>>, r: nat, c: nat) -> bool {
    g.len() == r && (forall|i: int| 0 <= i < r ==> (#[trigger] g[i]).len() == c)
}

/// Every entry of the grid fits in a signed 64-bit element.
pub open spec fn grid_in_i64(g: Seq<Seq<int>>) -> bool {
    forall|i: int, j: int|
        0 <= i < g.len() && 0 <= j < g[i].len() ==> in_i64(#[trigger] g[i][j])
}

impl Matrix {
    /// Number of rows.
    pub closed spec fn nrows(&self) -> nat {
        self.rows as nat
    }

    /// Number of columns.
    pub closed spec fn ncols(&self) -> nat {
        self.cols as nat
    }

    /// Well-formedness: the backing storage holds exactly one element per cell.
    pub closed spec fn wf(&self) -> bool {
        self.elems.len() == self.rows * self.cols
    }

    /// A well-formed matrix views as a rectangular grid of 64-bit elements.
    pub proof fn lemma_grid(&self)
        requires
            self.wf(),
        ensures
            is_grid(self@, self.nrows(), self.ncols()),
            grid_in_i64(self@),
    {
        assert forall|i: int, j: int|
            0 <= i < self@.len() && 0 <= j < self@[i].len() implies in_i64(#[trigger] self@[i][j]) by {
            assert(0 <= i * self.cols + j < self.rows * self.cols) by (nonlinear_arith)
                requires
                    0 <= i < self.rows,
                    0 <= j < self.cols,
            ;
        }
    }

    /// The number of rows, as an executable value.
    pub fn rows(&self) -> (r: usize)
        ensures
            r == self.nrows(),
    {
        self.rows
    }

    /// The number of columns, as an executable value.
    pub fn cols(&self) -> (c: usize)
        ensures
            c == self.ncols(),
    {
        self.cols
    }

    /// The element in row `r`, column `c`.
    pub fn get(&self, r: usize, c: usize) -> (v: i64)
        requires
            self.wf(),
            r < self.nrows(),
            c < self.ncols(),
        ensures
            v == self@[r as int][c as int],
    {
        proof {
            assert(0 <= r * self.cols + c < self.rows * self.cols) by (nonlinear_arith)
                requires
                    0 <= r < self.rows,
                    0 <= c < self.cols,
            ;
        }
        self.elems[r * self.cols + c]
    }
}

/// The grid whose cell `(i, j)` holds `f(i, j)`.
pub open spec fn grid_of(r: nat, c: nat, f: spec_fn(int, int) -> int) -> Seq<Seq<int>> {
    Seq::new(r, |i: int| Seq::new(c, |j: int| f(i, j)))
}

impl Matrix {
    /// Builds the `rows * cols` matrix whose cell `(r, c)` holds `f(r, c)`,
    /// where `f` agrees with the ghost cell description `g`.
    fn build<F: Fn(usize, usize) -> i64>(
        rows: usize,
        cols: usize,
        f: F,
        Ghost(g): Ghost<spec_fn(int, int) -> int>,
    ) -> (m: Matrix)
        requires
            rows * cols <= usize::MAX,
            forall|r: usize, c: usize| r < rows && c < cols ==> call_requires(f, (r, c)),
            forall|r: usize, c: usize, v: i64|
                r < rows && c < cols && call_ensures(f, (r, c), v) ==> v == g(r as int, c as int),
        ensures
            m.wf(),
            m.nrows() == rows,
            m.ncols() == cols,
            m@ == grid_of(rows as nat, cols as nat, g),
    {
        let mut elems: Vec<i64> = Vec::new();
        let mut r: usize = 0;
        while r < rows
            invariant
                r <= rows,
                rows * cols <= usize::MAX,
                elems@.len() == r * cols,
                forall|rr: usize, cc: usize| rr < rows && cc < cols ==> call_requires(f, (rr, cc)),
                forall|rr: usize, cc: usize, v: i64|
                    rr < rows && cc < cols && call_ensures(f, (rr, cc), v) ==> v == g(
                        rr as int,
                        cc as int,
                    ),
                forall|i: int, j: int|
                    0 <= i < r && 0 <= j < cols ==> elems@[i * cols + j] == #[trigger] g(i, j),
            decreases rows - r,
        {
            let mut c: usize = 0;
            while c < cols
                invariant
                    r < rows,
                    c <= cols,
                    rows * cols <= usize::MAX,
                    elems@.len() == r * cols + c,
                    forall|rr: usize, cc: usize| rr < rows && cc < cols ==> call_requires(f, (rr, cc)),
                    forall|rr: usize, cc: usize, v: i64|
                        rr < rows && cc < cols && call_ensures(f, (rr, cc), v) ==> v == g(
                            rr as int,
                            cc as int,
                        ),
                    forall|i: int, j: int|
                        0 <= i < r && 0 <= j < cols ==> elems@[i * cols + j] == #[trigger] g(i, j),
                    forall|j: int| 0 <= j < c ==> elems@[r * cols + j] == #[trigger] g(r as int, j),
                decreases cols - c,
            {
                let v = f(r, c);
                elems.push(v);
                proof {
                    assert forall|i: int, j: int|
                        0 <= i < r && 0 <= j < cols implies elems@[i * cols + j] == #[trigger] g(i, j) by {
                        assert(0 <= i * cols + j < r * cols) by (nonlinear_arith)
                            requires
                                0 <= i < r,
                                0 <= j < cols,
                        ;
                    }
                }
                c += 1;
            }
            proof {
                assert(r * cols + cols == (r + 1) * cols) by (nonlinear_arith);
            }
            r += 1;
        }
        let m = Matrix { rows, cols, elems };
        proof {
            assert(m.wf());
            assert forall|i: int| 0 <= i < rows implies m@[i] =~= grid_of(
                rows as nat,
                cols as nat,
                g,
            )[i] by {
                assert forall|j: int| 0 <= j < cols implies m@[i][j] == g(i, j) by {
                    assert(0 <= i * cols + j < rows * cols) by (nonlinear_arith)
                        requires
                            0 <= i < rows,
                            0 <= j < cols,
                    ;
                }
            }
            assert(m@ =~~= grid_of(rows as nat, cols as nat, g));
        }
        m
    }

    /// The matrix with every cell equal to the scalar `value`.
    pub fn from_scalar(rows: usize, cols: usize, value: i64) -> (m: Result<Matrix, LaError>)
        ensures
            match m {
                Ok(m) => {
                    &&& rows * cols <= usize::MAX
                    &&& m.wf()
                    &&& m.nrows() == rows
                    &&& m.ncols() == cols
                    &&& m@ == grid_of(rows as nat, cols as nat, (|i: int, j: int| value as int))
                },
                Err(e) => e == LaError::DimensionMismatch && rows * cols > usize::MAX,
            },
    {
        if cols != 0 && rows > usize::MAX / cols {
            proof {
                lemma_mul_div_le(usize::MAX as int, cols as int, rows as int);
            }
            return Err(LaError::DimensionMismatch);
        }
        proof {
            if cols == 0 {
                assert(rows * cols == 0) by (nonlinear_arith)
                    requires
                        cols == 0int,
                ;
            } else {
                lemma_mul_div_le(usize::MAX as int, cols as int, rows as int);
            }
        }
        let cell = |r: usize, c: usize| -> (v: i64)
            ensures
                v == value,
            { value };
        Ok(Matrix::build(rows, cols, cell, Ghost((|i: int, j: int| value as int))))
    }
}

/// Elementwise sum of two same-shape grids.
pub open spec fn madd(a: Seq<Seq<int>>, b: Seq<Seq<int>>) -> Seq<Seq<int>> {
    Seq::new(a.len(), |i: int| Seq::new(a[i].len(), |j: int| a[i][j] + b[i][j]))
}

/// Elementwise difference of two same-shape grids.
pub open spec fn msub(a: Seq<Seq<int>>, b: Seq<Seq<int>>) -> Seq<Seq<int>> {
    Seq::new(a.len(), |i: int| Seq::new(a[i].len(), |j: int| a[i][j] - b[i][j]))
}

/// Every elementwise sum fits in an `i64`.
pub open spec fn add_fits(a: Seq<Seq<int>>, b: Seq<Seq<int>>) -> bool {
    forall|i: int, j: int|
        0 <= i < a.len() && 0 <= j < a[i].len() ==> in_i64((#[trigger] a[i][j]) + b[i][j])
}

/// Every elementwise difference fits in an `i64`.
pub open spec fn sub_fits(a: Seq<Seq<int>>, b: Seq<Seq<int>>) -> bool {
    forall|i: int, j: int|
        0 <= i < a.len() && 0 <= j < a[i].len() ==> in_i64((#[trigger] a[i][j]) - b[i][j])
}

impl Matrix {
    /// Do `self` and `rhs` have the same shape?
    pub open spec fn same_shape(&self, rhs: &Matrix) -> bool {
        self.nrows() == rhs.nrows() && self.ncols() == rhs.ncols()
    }

    /// Elementwise sum; the shapes must match.
    pub fn add(&self, rhs: &Matrix) -> (res: Result<Matrix, LaError>)
        requires
            self.wf(),
            rhs.wf(),
            self.same_shape(rhs) ==> add_fits(self@, rhs@),
        ensures
            match res {
                Ok(m) => {
                    &&& self.same_shape(rhs)
                    &&& m.wf()
                    &&& m.nrows() == self.nrows()
                    &&& m.ncols() == self.ncols()
                    &&& m@ == madd(self@, rhs@)
                },
                Err(e) => e == LaError::DimensionMismatch && !self.same_shape(rhs),
            },
    {
        if self.rows != rhs.rows || self.cols != rhs.cols {
            return Err(LaError::DimensionMismatch);
        }
        let cell = |r: usize, c: usize| -> (v: i64)
            requires
                self.wf() && rhs.wf() && self.same_shape(rhs),
                add_fits(self@, rhs@),
                r < self.nrows() && c < self.ncols(),
            ensures
                v == self@[r as int][c as int] + rhs@[r as int][c as int],
            {
                let a = self.get(r, c);
                let b = rhs.get(r, c);
                a + b
            };
        let m = Matrix::build(
            self.rows,
            self.cols,
            cell,
            Ghost((|i: int, j: int| self@[i][j] + rhs@[i][j])),
        );
        proof {
            assert(m@ =~~= madd(self@, rhs@));
        }
        Ok(m)
    }

    /// Elementwise difference; the shapes must match.
    pub fn sub(&self, rhs: &Matrix) -> (res: Result<Matrix, LaError>)
        requires
            self.wf(),
            rhs.wf(),
            self.same_shape(rhs) ==> sub_fits(self@, rhs@),
        ensures
            match res {
                Ok(m) => {
                    &&& self.same_shape(rhs)
                    &&& m.wf()
                    &&& m.nrows() == self.nrows()
                    &&& m.ncols() == self.ncols()
                    &&& m@ == msub(self@, rhs@)
                },
                Err(e) => e == LaError::DimensionMismatch && !self.same_shape(rhs),
            },
    {
        if self.rows != rhs.rows || self.cols != rhs.cols {
            return Err(LaError::DimensionMismatch);
        }
        let cell = |r: usize, c: usize| -> (v: i64)
            requires
                self.wf() && rhs.wf() && self.same_shape(rhs),
                sub_fits(self@, rhs@),
                r < self.nrows() && c < self.ncols(),
            ensures
                v == self@[r as int][c as int] - rhs@[r as int][c as int],
            {
                let a = self.get(r, c);
                let b = rhs.get(r, c);
                a - b
            };
        let m = Matrix::build(
            self.rows,
            self.cols,
            cell,
            Ghost((|i: int, j: int| self@[i][j] - rhs@[i][j])),
        );
        proof {
            assert(m@ =~~= msub(self@, rhs@));
        }
        Ok(m)
    }

    /// The matrix whose every row is a copy of `row`.
    pub fn from_row(rows: usize, row: &Vec<i64>) -> (m: Result<Matrix, LaError>)
        ensures
            match m {
                Ok(m) => {
                    &&& rows * row@.len() <= usize::MAX
                    &&& m.wf()
                    &&& m.nrows() == rows
                    &&& m.ncols() == row@.len()
                    &&& m@ == grid_of(rows as nat, row@.len(), (|i: int, j: int| row@[j] as int))
                },
                Err(e) => e == LaError::DimensionMismatch && rows * row@.len() > usize::MAX,
            },
    {
        let cols = row.len();
        if cols != 0 && rows > usize::MAX / cols {
            proof {
                lemma_mul_div_le(usize::MAX as int, cols as int, rows as int);
            }
            return Err(LaError::DimensionMismatch);
        }
        proof {
            if cols == 0 {
                assert(rows * cols == 0) by (nonlinear_arith)
                    requires
                        cols == 0int,
                ;
            } else {
                lemma_mul_div_le(usize::MAX as int, cols as int, rows as int);
            }
        }
        let cell = |r: usize, c: usize| -> (v: i64)
            requires
                c < row@.len(),
            ensures
                v == row@[c as int],
            { row[c] };
        Ok(Matrix::build(rows, cols, cell, Ghost((|i: int, j: int| row@[j] as int))))
    }

    /// The matrix holding exactly the cells of the rectangular 2-D literal
    /// `grid`; a ragged literal is rejected.
    pub fn from_grid(grid: &Vec<Vec<i64>>) -> (m: Result<Matrix, LaError>)
        ensures
            match m {
                Ok(m) => {
                    &&& forall|i: int|
                        0 <= i < grid@.len() ==> (#[trigger] grid@[i])@.len() == grid@[0]@.len()
                    &&& m.wf()
                    &&& m.nrows() == grid@.len()
                    &&& m.ncols() == (if grid@.len() == 0 { 0nat } else { grid@[0]@.len() })
                    &&& m@ == grid_of(
                        m.nrows(),
                        m.ncols(),
                        (|i: int, j: int| grid@[i]@[j] as int),
                    )
                },
                Err(e) => {
                    &&& e == LaError::DimensionMismatch
                    &&& (exists|i: int|
                        0 <= i < grid@.len() && (#[trigger] grid@[i])@.len() != grid@[0]@.len())
                        || grid@.len() * (if grid@.len() == 0 { 0nat } else { grid@[0]@.len() })
                        > usize::MAX
                },
            },
    {
        let rows = grid.len();
        let cols = if rows == 0 { 0 } else { grid[0].len() };
        let mut i: usize = 0;
        while i < rows
            invariant
                i <= rows,
                rows == grid@.len(),
                rows == 0 ==> cols == 0,
                rows > 0 ==> cols == grid@[0]@.len(),
                forall|k: int| 0 <= k < i ==> (#[trigger] grid@[k])@.len() == cols,
            decreases rows - i,
        {
            if grid[i].len() != cols {
                return Err(LaError::DimensionMismatch);
            }
            i += 1;
        }
        if cols != 0 && rows > usize::MAX / cols {
            proof {
                lemma_mul_div_le(usize::MAX as int, cols as int, rows as int);
            }
            return Err(LaError::DimensionMismatch);
        }
        proof {
            if cols == 0 {
                assert(rows * cols == 0) by (nonlinear_arith)
                    requires
                        cols == 0int,
                ;
            } else {
                lemma_mul_div_le(usize::MAX as int, cols as int, rows as int);
            }
        }
        let cell = |r: usize, c: usize| -> (v: i64)
            requires
                r < grid@.len() && c < grid@[r as int]@.len(),
            ensures
                v == grid@[r as int]@[c as int],
            { grid[r][c] };
        Ok(Matrix::build(rows, cols, cell, Ghost((|i: int, j: int| grid@[i]@[j] as int))))
    }
}

/// Column `j` of the grid `b`, as a sequence.
pub open spec fn col_of(b: Seq<Seq<int>>, j: int) -> Seq<int> {
    Seq::new(b.len(), |m: int| b[m][j])
}

/// Sum of the first `k` products `x[m] * y[m]`.
pub open spec fn dot_prefix(x: Seq<int>, y: Seq<int>, k: int) -> int
    decreases k,
{
    if k <= 0 {
        0
    } else {
        dot_prefix(x, y, k - 1) + x[k - 1] * y[k - 1]
    }
}

/// The matrix product of `a` (rows x inner) and `b` (inner x cols).
pub open spec fn mmul(a: Seq<Seq<int>>, b: Seq<Seq<int>>, inner: nat, cols: nat) -> Seq<Seq<int>> {
    Seq::new(
        a.len(),
        |i: int| Seq::new(cols, |j: int| dot_prefix(a[i], col_of(b, j), inner as int)),
    )
}

/// Every partial sum and every single product of the matrix product fits in
/// an `i64`.
pub open spec fn mul_fits(a: Seq<Seq<int>>, b: Seq<Seq<int>>, inner: nat, cols: nat) -> bool {
    &&& (forall|i: int, j: int, k: int|
        0 <= i < a.len() && 0 <= j < cols && 0 <= k <= inner ==> in_i64(
            #[trigger] dot_prefix(a[i], col_of(b, j), k),
        ))
    &&& (forall|i: int, j: int, k: int|
        #![trigger a[i][k], b[k][j]]
        0 <= i < a.len() && 0 <= j < cols && 0 <= k < inner ==> in_i64(a[i][k] * b[k][j]))
}

impl Matrix {
    /// Matrix product; the left operand's column count must equal the right
    /// operand's row count.
    pub fn mul(&self, rhs: &Matrix) -> (res: Result<Matrix, LaError>)
        requires
            self.wf(),
            rhs.wf(),
            self.ncols() == rhs.nrows() ==> mul_fits(self@, rhs@, self.ncols(), rhs.ncols()),
        ensures
            match res {
                Ok(m) => {
                    &&& self.ncols() == rhs.nrows()
                    &&& self.nrows() * rhs.ncols() <= usize::MAX
                    &&& m.wf()
                    &&& m.nrows() == self.nrows()
                    &&& m.ncols() == rhs.ncols()
                    &&& m@ == mmul(self@, rhs@, self.ncols(), rhs.ncols())
                },
                Err(e) => {
                    &&& e == LaError::DimensionMismatch
                    &&& (self.ncols() != rhs.nrows() || self.nrows() * rhs.ncols() > usize::MAX)
                },
            },
    {
        if self.cols != rhs.rows {
            return Err(LaError::DimensionMismatch);
        }
        let rows = self.rows;
        let cols = rhs.cols;
        if cols != 0 && rows > usize::MAX / cols {
            proof {
                lemma_mul_div_le(usize::MAX as int, cols as int, rows as int);
            }
            return Err(LaError::DimensionMismatch);
        }
        proof {
            if cols == 0 {
                assert(rows * cols == 0) by (nonlinear_arith)
                    requires
                        cols == 0int,
                ;
            } else {
                lemma_mul_div_le(usize::MAX as int, cols as int, rows as int);
            }
        }
        let cell = |r: usize, c: usize| -> (v: i64)
            requires
                self.wf() && rhs.wf() && self.ncols() == rhs.nrows(),
                mul_fits(self@, rhs@, self.ncols(), rhs.ncols()),
                r < self.nrows() && c < rhs.ncols(),
            ensures
                v == dot_prefix(self@[r as int], col_of(rhs@, c as int), self.ncols() as int),
            {
                let inner = self.cols;
                let mut acc: i64 = 0;
                let mut k: usize = 0;
                while k < inner
                    invariant
                        self.wf() && rhs.wf() && self.ncols() == rhs.nrows(),
                        mul_fits(self@, rhs@, self.ncols(), rhs.ncols()),
                        r < self.nrows() && c < rhs.ncols(),
                        inner == self.ncols(),
                        k <= inner,
                        acc == dot_prefix(self@[r as int], col_of(rhs@, c as int), k as int),
                    decreases inner - k,
                {
                    let x = self.get(r, k);
                    let y = rhs.get(k, c);
                    proof {
                        assert(col_of(rhs@, c as int)[k as int] == rhs@[k as int][c as int]);
                        assert(in_i64(dot_prefix(self@[r as int], col_of(rhs@, c as int), k + 1)));
                    }
                    acc = acc + x * y;
                    k += 1;
                }
                acc
            };
        let m = Matrix::build(
            rows,
            cols,
            cell,
            Ghost((|i: int, j: int| dot_prefix(self@[i], col_of(rhs@, j), self.ncols() as int))),
        );
        proof {
            assert(m@ =~~= mmul(self@, rhs@, self.ncols(), rhs.ncols()));
        }
        Ok(m)
    }
}

/// `g` is the `n` by `n` identity grid.
pub open spec fn is_identity(g: Seq<Seq<int>>, n: nat) -> bool {
    is_grid(g, n, n) && (forall|i: int, j: int|
        0 <= i < n && 0 <= j < n ==> #[trigger] g[i][j] == (if i == j {
            1int
        } else {
            0int
        }))
}

/// Multiplying the prefix of a row with the matching prefix of an identity
/// column picks out at most the one entry `x[j]`.
proof fn lemma_dot_prefix_identity(x: Seq<int>, col: Seq<int>, j: int, k: int)
    requires
        0 <= j < x.len(),
        0 <= k <= x.len(),
        forall|m: int| 0 <= m < k ==> #[trigger] col[m] == (if m == j {
            1int
        } else {
            0int
        }),
    ensures
        dot_prefix(x, col, k) == (if j < k {
            x[j]
        } else {
            0int
        }),
    decreases k,
{
    if k > 0 {
        lemma_dot_prefix_identity(x, col, j, k - 1);
    }
}

/// Multiplying by the identity gives back the original: for an `r` by `n`
/// grid `a` and the `n` by `n` identity `id`, `a * id == a`.
pub proof fn lemma_mul_identity(a: Seq<Seq<int>>, id: Seq<Seq<int>>, r: nat, n: nat)
    requires
        is_grid(a, r, n),
        is_identity(id, n),
    ensures
        mmul(a, id, n, n) == a,
{
    assert forall|i: int, j: int| 0 <= i < r && 0 <= j < n implies #[trigger] mmul(
        a,
        id,
        n,
        n,
    )[i][j] == a[i][j] by {
        let col = col_of(id, j);
        assert(forall|m: int| 0 <= m < n ==> #[trigger] col[m] == id[m][j]);
        lemma_dot_prefix_identity(a[i], col, j, n as int);
    }
    assert(mmul(a, id, n, n) =~~= a);
}

/// The transpose of a grid with `cols` columns.
pub open spec fn mtranspose(a: Seq<Seq<int>>, cols: nat) -> Seq<Seq<int>> {
    Seq::new(cols, |i: int| Seq::new(a.len(), |j: int| a[j][i]))
}

/// Transposing twice gives back the original grid.
pub proof fn lemma_transpose_involutive(a: Seq<Seq<int>>, r: nat, c: nat)
    requires
        is_grid(a, r, c),
    ensures
        mtranspose(mtranspose(a, c), r) == a,
{
    assert(mtranspose(mtranspose(a, c), r) =~~= a);
}

/// Elementwise scaling of a grid by the factor `k`.
pub open spec fn mscale(a: Seq<Seq<int>>, k: int) -> Seq<Seq<int>> {
    Seq::new(a.len(), |i: int| Seq::new(a[i].len(), |j: int| a[i][j] * k))
}

/// Every scaled element fits in an `i64`.
pub open spec fn scale_fits(a: Seq<Seq<int>>, k: int) -> bool {
    forall|i: int, j: int|
        0 <= i < a.len() && 0 <= j < a[i].len() ==> in_i64((#[trigger] a[i][j]) * k)
}

/// Transposition: rows become columns and columns become rows.
pub trait Transpose: Sized {
    /// When may `transpose` be called?
    spec fn transpose_req(&self) -> bool;

    /// What does `transpose` return?
    spec fn transpose_post(&self, r: &Self) -> bool;

    /// The transposed value.
    fn transpose(&self) -> (r: Self)
        requires
            self.transpose_req(),
        ensures
            self.transpose_post(&r),
    ;
}

impl Transpose for Matrix {
    open spec fn transpose_req(&self) -> bool {
        self.wf()
    }

    open spec fn transpose_post(&self, r: &Self) -> bool {
        &&& r.wf()
        &&& r.nrows() == self.ncols()
        &&& r.ncols() == self.nrows()
        &&& r@ == mtranspose(self@, self.ncols())
    }

    fn transpose(&self) -> (r: Self) {
        let cell = |rr: usize, cc: usize| -> (v: i64)
            requires
                self.wf(),
                rr < self.ncols() && cc < self.nrows(),
            ensures
                v == self@[cc as int][rr as int],
            { self.get(cc, rr) };
        proof {
            assert(self.ncols() * self.nrows() == self.nrows() * self.ncols()) by (nonlinear_arith);
        }
        let m = Matrix::build(self.cols, self.rows, cell, Ghost((|i: int, j: int| self@[j][i])));
        proof {
            assert(m@ =~~= mtranspose(self@, self.ncols()));
        }
        m
    }
}

/// In-place transposition, defined for square matrices only.
pub trait TransposeAssign: Sized {
    /// When may `transpose_assign` be called?
    spec fn transpose_assign_req(&self) -> bool;

    /// How does the new value relate to the old one?
    spec fn transpose_assign_post(&self, prev: Self, r: Result<(), LaError>) -> bool;

    /// Replaces `self` by its transpose; a non-square receiver is rejected.
    fn transpose_assign(&mut self) -> (r: Result<(), LaError>)
        requires
            old(self).transpose_assign_req(),
        ensures
            final(self).transpose_assign_post(*old(self), r),
    ;
}

impl TransposeAssign for Matrix {
    open spec fn transpose_assign_req(&self) -> bool {
        self.wf()
    }

    open spec fn transpose_assign_post(&self, prev: Self, r: Result<(), LaError>) -> bool {
        match r {
            Ok(_) => {
                &&& prev.nrows() == prev.ncols()
                &&& self.wf()
                &&& self.nrows() == prev.nrows()
                &&& self.ncols() == prev.ncols()
                &&& self@ == mtranspose(prev@, prev.ncols())
            },
            Err(e) => {
                &&& e == LaError::DimensionMismatch
                &&& prev.nrows() != prev.ncols()
                &&& *self == prev
            },
        }
    }

    fn transpose_assign(&mut self) -> (r: Result<(), LaError>) {
        if self.rows != self.cols {
            return Err(LaError::DimensionMismatch);
        }
        let t = self.transpose();
        *self = t;
        Ok(())
    }
}

/// Multiplication of every element by one scalar factor.
pub trait Scale: Sized {
    /// When may `scale` be called?
    spec fn scale_req(&self, factor: i64) -> bool;

    /// What does `scale` return?
    spec fn scale_post(&self, factor: i64, r: &Self) -> bool;

    /// The value with every element multiplied by `factor`.
    fn scale(&self, factor: i64) -> (r: Self)
        requires
            self.scale_req(factor),
        ensures
            self.scale_post(factor, &r),
    ;
}

impl Scale for Matrix {
    open spec fn scale_req(&self, factor: i64) -> bool {
        self.wf() && scale_fits(self@, factor as int)
    }

    open spec fn scale_post(&self, factor: i64, r: &Self) -> bool {
        &&& r.wf()
        &&& r.nrows() == self.nrows()
        &&& r.ncols() == self.ncols()
        &&& r@ == mscale(self@, factor as int)
    }

    fn scale(&self, factor: i64) -> (r: Self) {
        let cell = |rr: usize, cc: usize| -> (v: i64)
            requires
                self.wf(),
                scale_fits(self@, factor as int),
                rr < self.nrows() && cc < self.ncols(),
            ensures
                v == self@[rr as int][cc as int] * factor,
            {
                let x = self.get(rr, cc);
                x * factor
            };
        let m = Matrix::build(
            self.rows,
            self.cols,
            cell,
            Ghost((|i: int, j: int| self@[i][j] * factor)),
        );
        proof {
            assert(m@ =~~= mscale(self@, factor as int));
        }
        m
    }
}

/// In-place scaling by one scalar factor.
pub trait ScaleAssign: Sized {
    /// When may `scale_assign` be called?
    spec fn scale_assign_req(&self, factor: i64) -> bool;

    /// How does the new value relate to the old one?
    spec fn scale_assign_post(&self, factor: i64, prev: Self) -> bool;

    /// Multiplies every element of `self` by `factor`.
    fn scale_assign(&mut self, factor: i64)
        requires
            old(self).scale_assign_req(factor),
        ensures
            final(self).scale_assign_post(factor, *old(self)),
    ;
}

impl ScaleAssign for Matrix {
    open spec fn scale_assign_req(&self, factor: i64) -> bool {
        self.wf() && scale_fits(self@, factor as int)
    }

    open spec fn scale_assign_post(&self, factor: i64, prev: Self) -> bool {
        &&& self.wf()
        &&& self.nrows() == prev.nrows()
        &&& self.ncols() == prev.ncols()
        &&& self@ == mscale(prev@, factor as int)
    }

    fn scale_assign(&mut self, factor: i64) {
        let s = self.scale(factor);
        *self = s;
    }
}

/// Is `m` a vector (a single-row matrix)?
pub open spec fn is_vector(m: &Matrix) -> bool {
    m.nrows() == 1
}

/// Every partial sum and every single product of the dot product of `x` and
/// `y` fits in an `i64`.
pub open spec fn dot_fits(x: Seq<int>, y: Seq<int>) -> bool {
    &&& (forall|k: int| 0 <= k <= x.len() ==> in_i64(#[trigger] dot_prefix(x, y, k)))
    &&& (forall|k: int| 0 <= k < x.len() ==> in_i64((#[trigger] x[k]) * y[k]))
}

/// Dot product of two vectors of the same length.
pub trait Dot: Sized {
    /// When may `dot` be called?
    spec fn dot_req(&self, rhs: &Self) -> bool;

    /// What does `dot` return?
    spec fn dot_post(&self, rhs: &Self, r: Result<i64, LaError>) -> bool;

    /// The sum of the elementwise products; operands that are not two
    /// vectors of one length are rejected.
    fn dot(&self, rhs: &Self) -> (r: Result<i64, LaError>)
        requires
            self.dot_req(rhs),
        ensures
            self.dot_post(rhs, r),
    ;
}

impl Dot for Matrix {
    open spec fn dot_req(&self, rhs: &Self) -> bool {
        &&& self.wf()
        &&& rhs.wf()
        &&& (is_vector(self) && is_vector(rhs) && self.ncols() == rhs.ncols() ==> dot_fits(
            self@[0],
            rhs@[0],
        ))
    }

    open spec fn dot_post(&self, rhs: &Self, r: Result<i64, LaError>) -> bool {
        match r {
            Ok(v) => {
                &&& is_vector(self) && is_vector(rhs) && self.ncols() == rhs.ncols()
                &&& v == dot_prefix(self@[0], rhs@[0], self.ncols() as int)
            },
            Err(e) => {
                &&& e == LaError::DimensionMismatch
                &&& !(is_vector(self) && is_vector(rhs) && self.ncols() == rhs.ncols())
            },
        }
    }

    fn dot(&self, rhs: &Self) -> (r: Result<i64, LaError>) {
        if self.rows != 1 || rhs.rows != 1 || self.cols != rhs.cols {
            return Err(LaError::DimensionMismatch);
        }
        let n = self.cols;
        let mut acc: i64 = 0;
        let mut k: usize = 0;
        while k < n
            invariant
                self.wf() && rhs.wf(),
                is_vector(self) && is_vector(rhs) && self.ncols() == rhs.ncols(),
                dot_fits(self@[0], rhs@[0]),
                n == self.ncols(),
                k <= n,
                acc == dot_prefix(self@[0], rhs@[0], k as int),
            decreases n - k,
        {
            let x = self.get(0, k);
            let y = rhs.get(0, k);
            proof {
                assert(self@[0].len() == self.ncols());
                assert(in_i64(dot_prefix(self@[0], rhs@[0], k + 1)));
            }
            acc = acc + x * y;
            k += 1;
        }
        Ok(acc)
    }
}

/// The dot product does not depend on the order of its operands.
pub proof fn lemma_dot_comm(x: Seq<int>, y: Seq<int>, k: int)
    ensures
        dot_prefix(x, y, k) == dot_prefix(y, x, k),
    decreases k,
{
    if k > 0 {
        lemma_dot_comm(x, y, k - 1);
        assert(x[k - 1] * y[k - 1] == y[k - 1] * x[k - 1]) by (nonlinear_arith);
    }
}

/// The cross product of two 3-element rows.
pub open spec fn vcross(x: Seq<int>, y: Seq<int>) -> Seq<int> {
    seq![
        x[1] * y[2] - x[2] * y[1],
        x[2] * y[0] - x[0] * y[2],
        x[0] * y[1] - x[1] * y[0],
    ]
}

/// Every product and every difference of the cross product of `x` and `y`
/// fits in an `i64`.
pub open spec fn cross_fits(x: Seq<int>, y: Seq<int>) -> bool {
    &&& in_i64(x[1] * y[2])
    &&& in_i64(x[2] * y[1])
    &&& in_i64(x[1] * y[2] - x[2] * y[1])
    &&& in_i64(x[2] * y[0])
    &&& in_i64(x[0] * y[2])
    &&& in_i64(x[2] * y[0] - x[0] * y[2])
    &&& in_i64(x[0] * y[1])
    &&& in_i64(x[1] * y[0])
    &&& in_i64(x[0] * y[1] - x[1] * y[0])
}

/// Is `m` a 3-element vector?
pub open spec fn is_vector3(m: &Matrix) -> bool {
    m.nrows() == 1 && m.ncols() == 3
}

/// Cross product of two 3-element vectors.
pub trait Cross: Sized {
    /// When may `cross` be called?
    spec fn cross_req(&self, rhs: &Self) -> bool;

    /// What does `cross` return?
    spec fn cross_post(&self, rhs: &Self, r: Result<Self, LaError>) -> bool;

    /// The cross product; operands that are not two 3-element vectors are
    /// rejected.
    fn cross(&self, rhs: &Self) -> (r: Result<Self, LaError>)
        requires
            self.cross_req(rhs),
        ensures
            self.cross_post(rhs, r),
    ;
}

impl Cross for Matrix {
    open spec fn cross_req(&self, rhs: &Self) -> bool {
        &&& self.wf()
        &&& rhs.wf()
        &&& (is_vector3(self) && is_vector3(rhs) ==> cross_fits(self@[0], rhs@[0]))
    }

    open spec fn cross_post(&self, rhs: &Self, r: Result<Self, LaError>) -> bool {
        match r {
            Ok(m) => {
                &&& is_vector3(self) && is_vector3(rhs)
                &&& m.wf()
                &&& is_vector3(&m)
                &&& m@[0] == vcross(self@[0], rhs@[0])
            },
            Err(e) => {
                &&& e == LaError::DimensionMismatch
                &&& !(is_vector3(self) && is_vector3(rhs))
            },
        }
    }

    fn cross(&self, rhs: &Self) -> (r: Result<Self, LaError>) {
        if self.rows != 1 || self.cols != 3 || rhs.rows != 1 || rhs.cols != 3 {
            return Err(LaError::DimensionMismatch);
        }
        let x0 = self.get(0, 0);
        let x1 = self.get(0, 1);
        let x2 = self.get(0, 2);
        let y0 = rhs.get(0, 0);
        let y1 = rhs.get(0, 1);
        let y2 = rhs.get(0, 2);
        let mut elems: Vec<i64> = Vec::new();
        elems.push(x1 * y2 - x2 * y1);
        elems.push(x2 * y0 - x0 * y2);
        elems.push(x0 * y1 - x1 * y0);
        let m = Matrix { rows: 1, cols: 3, elems };
        proof {
            assert(m@[0] =~= vcross(self@[0], rhs@[0]));
        }
        Ok(m)
    }
}

/// The cross product is anti-commutative: swapping the operands negates
/// every element of the result.
pub proof fn lemma_cross_antisym(x: Seq<int>, y: Seq<int>)
    ensures
        vcross(x, y).len() == 3,
        forall|i: int| 0 <= i < 3 ==> #[trigger] vcross(x, y)[i] == -vcross(y, x)[i],
{
    assert forall|i: int| 0 <= i < 3 implies #[trigger] vcross(x, y)[i] == -vcross(y, x)[i] by {
        assert(x[1] * y[2] == y[2] * x[1]) by (nonlinear_arith);
        assert(x[2] * y[1] == y[1] * x[2]) by (nonlinear_arith);
        assert(x[2] * y[0] == y[0] * x[2]) by (nonlinear_arith);
        assert(x[0] * y[2] == y[2] * x[0]) by (nonlinear_arith);
        assert(x[0] * y[1] == y[1] * x[0]) by (nonlinear_arith);
        assert(x[1] * y[0] == y[0] * x[1]) by (nonlinear_arith);
    }
}

/// In-place cross product of two 3-element vectors.
pub trait CrossAssign: Sized {
    /// When may `cross_assign` be called?
    spec fn cross_assign_req(&self, rhs: &Self) -> bool;

    /// How does the new value relate to the old one?
    spec fn cross_assign_post(&self, rhs: &Self, prev: Self, r: Result<(), LaError>) -> bool;

    /// Replaces `self` by `self x rhs`; operands that are not two 3-element
    /// vectors are rejected.
    fn cross_assign(&mut self, rhs: &Self) -> (r: Result<(), LaError>)
        requires
            old(self).cross_assign_req(rhs),
        ensures
            final(self).cross_assign_post(rhs, *old(self), r),
    ;
}

impl CrossAssign for Matrix {
    open spec fn cross_assign_req(&self, rhs: &Self) -> bool {
        self.cross_req(rhs)
    }

    open spec fn cross_assign_post(&self, rhs: &Self, prev: Self, r: Result<(), LaError>) -> bool {
        match r {
            Ok(_) => {
                &&& is_vector3(&prev) && is_vector3(rhs)
                &&& self.wf()
                &&& is_vector3(self)
                &&& self@[0] == vcross(prev@[0], rhs@[0])
            },
            Err(e) => {
                &&& e == LaError::DimensionMismatch
                &&& !(is_vector3(&prev) && is_vector3(rhs))
                &&& *self == prev
            },
        }
    }

    fn cross_assign(&mut self, rhs: &Self) -> (r: Result<(), LaError>) {
        match self.cross(rhs) {
            Ok(m) => {
                *self = m;
                Ok(())
            },
            Err(e) => Err(e),
        }
    }
}

/// The sum of the squares of the elements of `x`.
pub open spec fn ssq(x: Seq<int>) -> int {
    dot_prefix(x, x, x.len() as int)
}

/// Every partial sum of squares is nonnegative.
pub proof fn lemma_sq_sum_nonneg(x: Seq<int>, k: int)
    ensures
        dot_prefix(x, x, k) >= 0,
    decreases k,
{
    if k > 0 {
        lemma_sq_sum_nonneg(x, k - 1);
        assert(x[k - 1] * x[k - 1] >= 0) by (nonlinear_arith);
    }
}

/// The integer square root, rounded down.
pub fn isqrt64(n: u64) -> (r: u64)
    ensures
        r * r <= n < (r + 1) * (r + 1),
{
    let mut lo: u64 = 0;
    let mut hi: u64 = 4294967295;
    proof {
        assert((4294967295u64 + 1) * (4294967295u64 + 1) > u64::MAX) by (nonlinear_arith);
    }
    while lo < hi
        invariant
            lo <= hi <= 4294967295,
            lo * lo <= n,
            n < (hi + 1) * (hi + 1),
        decreases hi - lo,
    {
        let mid = lo + (hi - lo + 1) / 2;
        proof {
            assert(mid * mid <= u64::MAX) by (nonlinear_arith)
                requires
                    mid <= 4294967295u64,
            ;
        }
        if mid * mid <= n {
            lo = mid;
        } else {
            hi = mid - 1;
        }
    }
    lo
}

/// Some integer square root exists for every nonnegative `n`.
proof fn lemma_isqrt_exists(n: int)
    requires
        n >= 0,
    ensures
        exists|r: int| r >= 0 && #[trigger] (r * r) <= n && n < (r + 1) * (r + 1),
    decreases n,
{
    if n == 0 {
        assert(0int >= 0 && 0int * 0int <= 0 && 0 < (0int + 1) * (0int + 1)) by (nonlinear_arith);
    } else {
        lemma_isqrt_exists(n - 1);
        let r = choose|r: int| r >= 0 && #[trigger] (r * r) <= n - 1 && n - 1 < (r + 1) * (r + 1);
        if (r + 1) * (r + 1) <= n {
            let s = r + 1;
            assert(s >= 0 && s * s <= n && n < (s + 1) * (s + 1)) by (nonlinear_arith)
                requires
                    s == r + 1,
                    r >= 0,
                    (r + 1) * (r + 1) <= n,
                    n - 1 < (r + 1) * (r + 1),
            ;
        } else {
            assert(r >= 0 && r * r <= n && n < (r + 1) * (r + 1));
        }
    }
}

/// The integer square root of `n`, as a mathematical value.
pub open spec fn isqrt_spec(n: int) -> int {
    choose|r: int| r >= 0 && #[trigger] (r * r) <= n && n < (r + 1) * (r + 1)
}

/// The defining bounds of `isqrt_spec`.
pub proof fn lemma_isqrt_bounds(n: int)
    requires
        n >= 0,
    ensures
        isqrt_spec(n) >= 0,
        isqrt_spec(n) * isqrt_spec(n) <= n < (isqrt_spec(n) + 1) * (isqrt_spec(n) + 1),
{
    lemma_isqrt_exists(n);
}

/// At most one nonnegative integer square root exists.
pub proof fn lemma_isqrt_unique(n: int, r1: int, r2: int)
    requires
        r1 >= 0 && r1 * r1 <= n < (r1 + 1) * (r1 + 1),
        r2 >= 0 && r2 * r2 <= n < (r2 + 1) * (r2 + 1),
    ensures
        r1 == r2,
{
    assert(r1 == r2) by (nonlinear_arith)
        requires
            r1 >= 0 && r1 * r1 <= n < (r1 + 1) * (r1 + 1),
            r2 >= 0 && r2 * r2 <= n < (r2 + 1) * (r2 + 1),
    ;
}

/// Magnitude of a vector: the square root of the sum of the squared
/// elements, rounded down (the elements and the result share one fixed-point
/// scale).
pub trait Magnitude: Sized {
    /// When may `magnitude` be called?
    spec fn magnitude_req(&self) -> bool;

    /// What does `magnitude` return?
    spec fn magnitude_post(&self, r: Result<i64, LaError>) -> bool;

    /// The magnitude; a receiver that is not a vector is rejected.
    fn magnitude(&self) -> (r: Result<i64, LaError>)
        requires
            self.magnitude_req(),
        ensures
            self.magnitude_post(r),
    ;
}

impl Magnitude for Matrix {
    open spec fn magnitude_req(&self) -> bool {
        &&& self.wf()
        &&& (is_vector(self) ==> dot_fits(self@[0], self@[0]))
    }

    open spec fn magnitude_post(&self, r: Result<i64, LaError>) -> bool {
        match r {
            Ok(v) => {
                &&& is_vector(self)
                &&& v == isqrt_spec(ssq(self@[0]))
            },
            Err(e) => {
                &&& e == LaError::DimensionMismatch
                &&& !is_vector(self)
            },
        }
    }

    fn magnitude(&self) -> (r: Result<i64, LaError>) {
        let s = match self.dot(self) {
            Ok(s) => s,
            Err(e) => {
                return Err(e);
            },
        };
        proof {
            assert(self@[0].len() == self.ncols());
            lemma_sq_sum_nonneg(self@[0], self.ncols() as int);
        }
        let root = isqrt64(s as u64);
        proof {
            assert(root <= 3037000499u64) by (nonlinear_arith)
                requires
                    root * root <= s as u64,
                    s as u64 <= i64::MAX,
            ;
            lemma_isqrt_bounds(ssq(self@[0]));
            lemma_isqrt_unique(ssq(self@[0]), root as int, isqrt_spec(ssq(self@[0])));
        }
        Ok(root as i64)
    }
}

/// Signed division that truncates toward zero, as Rust's `/` does.
pub open spec fn div_trunc(a: int, b: int) -> int {
    if a >= 0 {
        a / b
    } else {
        -((-a) / b)
    }
}

/// Every element of `x`, multiplied by the fixed-point scale, fits in an
/// `i64` in both signs.
pub open spec fn norm_fits(x: Seq<int>) -> bool {
    forall|k: int|
        0 <= k < x.len() ==> in_i64((#[trigger] x[k]) * SCALE) && in_i64(-(x[k] * SCALE))
}

/// Normalization: every element is divided by the magnitude, in fixed point.
pub trait Normal: Sized {
    /// When may `normal` be called?
    spec fn normal_req(&self) -> bool;

    /// What does `normal` return?
    spec fn normal_post(&self, r: Result<Self, LaError>) -> bool;

    /// The normalized vector, at the fixed-point scale [`SCALE`]; a receiver
    /// that is not a vector, or whose magnitude is zero, is rejected.
    fn normal(&self) -> (r: Result<Self, LaError>)
        requires
            self.normal_req(),
        ensures
            self.normal_post(r),
    ;
}

impl Normal for Matrix {
    open spec fn normal_req(&self) -> bool {
        &&& self.wf()
        &&& (is_vector(self) ==> dot_fits(self@[0], self@[0]) && norm_fits(self@[0]))
    }

    open spec fn normal_post(&self, r: Result<Self, LaError>) -> bool {
        match r {
            Ok(m) => {
                &&& is_vector(self)
                &&& isqrt_spec(ssq(self@[0])) > 0
                &&& m.wf()
                &&& m.nrows() == 1
                &&& m.ncols() == self.ncols()
                &&& (forall|j: int|
                    0 <= j < self.ncols() ==> #[trigger] m@[0][j] == div_trunc(
                        self@[0][j] * SCALE,
                        isqrt_spec(ssq(self@[0])),
                    ))
            },
            Err(e) => {
                match e {
                    LaError::DimensionMismatch => !is_vector(self),
                    LaError::ZeroMagnitude => is_vector(self) && isqrt_spec(ssq(self@[0])) == 0,
                }
            },
        }
    }

    fn normal(&self) -> (r: Result<Self, LaError>) {
        let mag = match self.magnitude() {
            Ok(v) => v,
            Err(e) => {
                return Err(e);
            },
        };
        if mag == 0 {
            return Err(LaError::ZeroMagnitude);
        }
        proof {
            assert(self@[0].len() == self.ncols());
            lemma_sq_sum_nonneg(self@[0], self.ncols() as int);
            lemma_isqrt_bounds(ssq(self@[0]));
        }
        let cell = |rr: usize, cc: usize| -> (v: i64)
            requires
                self.wf(),
                is_vector(self),
                norm_fits(self@[0]),
                mag > 0,
                rr < 1 && cc < self.ncols(),
            ensures
                v == div_trunc(self@[0][cc as int] * SCALE, mag as int),
            {
                let xi = self.get(0, cc);
                proof {
                    assert(in_i64(-xi) && in_i64(xi * SCALE) && in_i64(-xi * SCALE) && (xi < 0
                        ==> -xi * SCALE == -(xi * SCALE) && xi * SCALE < 0)) by (nonlinear_arith)
                        requires
                            in_i64(xi * SCALE) && in_i64(-(xi as int * SCALE)),
                            SCALE == 1_000_000,
                    ;
                }
                let a: i64 = if xi < 0 {
                    -xi
                } else {
                    xi
                };
                let prod: i64 = a * SCALE;
                let q: u64 = (prod as u64) / (mag as u64);
                proof {
                    assert(q <= prod as u64) by (nonlinear_arith)
                        requires
                            mag as u64 >= 1,
                            q == (prod as u64) / (mag as u64),
                            prod >= 0,
                    ;
                }
                if xi < 0 {
                    -(q as i64)
                } else {
                    q as i64
                }
            };
        let m = Matrix::build(
            1,
            self.cols,
            cell,
            Ghost((|i: int, j: int| div_trunc(self@[0][j] * SCALE, mag as int))),
        );
        Ok(m)
    }
}

/// The sum of squares bounds each single square from above.
proof fn lemma_sq_le_ssq(x: Seq<int>, j: int, k: int)
    requires
        0 <= j < k <= x.len(),
    ensures
        dot_prefix(x, x, k) >= x[j] * x[j],
    decreases k,
{
    if k - 1 == j {
        lemma_sq_sum_nonneg(x, k - 1);
    } else {
        lemma_sq_le_ssq(x, j, k - 1);
        assert(x[k - 1] * x[k - 1] >= 0) by (nonlinear_arith);
    }
}

/// Every component of a normalized vector lies within one fixed-point
/// unit: dividing a component by the vector's magnitude, both at the same
/// scale, can never leave `[-SCALE, SCALE]`.
pub proof fn lemma_normal_component_in_range(x: Seq<int>, j: int)
    requires
        0 <= j < x.len(),
        isqrt_spec(ssq(x)) >= 1,
    ensures
        -SCALE <= div_trunc(x[j] * SCALE, isqrt_spec(ssq(x))) <= SCALE,
{
    let m = isqrt_spec(ssq(x));
    lemma_sq_sum_nonneg(x, x.len() as int);
    lemma_isqrt_bounds(ssq(x));
    lemma_sq_le_ssq(x, j, x.len() as int);
    assert(-m <= x[j] <= m) by (nonlinear_arith)
        requires
            x[j] * x[j] < (m + 1) * (m + 1),
            m >= 1,
    ;
    vstd::arithmetic::div_mod::lemma_div_multiples_vanish(SCALE as int, m);
    if x[j] >= 0 {
        assert(0 <= x[j] * SCALE <= m * SCALE) by (nonlinear_arith)
            requires
                0 <= x[j] <= m,
                SCALE == 1_000_000,
        ;
        vstd::arithmetic::div_mod::lemma_div_pos_is_pos(x[j] * SCALE, m);
        vstd::arithmetic::div_mod::lemma_div_is_ordered(x[j] * SCALE, m * SCALE, m);
    } else {
        assert(0 <= -(x[j] * SCALE) <= m * SCALE && x[j] * SCALE < 0) by (nonlinear_arith)
            requires
                -m <= x[j] < 0,
                SCALE == 1_000_000,
        ;
        vstd::arithmetic::div_mod::lemma_div_pos_is_pos(-(x[j] * SCALE), m);
        vstd::arithmetic::div_mod::lemma_div_is_ordered(-(x[j] * SCALE), m * SCALE, m);
    }
}

/// Dividing `a` by `m` with truncation keeps the square of the scaled
/// quotient within `2 * m * m * SCALE` below the square of `a`.
proof fn lemma_div_trunc_sq(a: int, m: int)
    requires
        m >= 1,
        -m * SCALE <= a <= m * SCALE,
    ensures
        m * m * (div_trunc(a, m) * div_trunc(a, m)) <= a * a,
        m * m * (div_trunc(a, m) * div_trunc(a, m)) >= a * a - 2 * m * m * SCALE,
{
    let b = if a >= 0 {
        a
    } else {
        -a
    };
    vstd::arithmetic::div_mod::lemma_fundamental_div_mod(b, m);
    vstd::arithmetic::div_mod::lemma_mod_bound(b, m);
    let q = b / m;
    vstd::arithmetic::div_mod::lemma_div_pos_is_pos(b, m);
    assert(m * m * (q * q) <= b * b && m * m * (q * q) >= b * b - 2 * m * m * SCALE)
        by (nonlinear_arith)
        requires
            m >= 1,
            0 <= b <= m * SCALE,
            b == m * q + b % m,
            0 <= b % m < m,
            q >= 0,
            SCALE == 1_000_000,
    ;
    if a >= 0 {
        assert(div_trunc(a, m) == q);
    } else {
        assert(div_trunc(a, m) == -q);
        assert((-q) * (-q) == q * q && (-b) * (-b) == b * b) by (nonlinear_arith);
    }
}

/// The scaled sum of squares of a truncation-normalized prefix stays within
/// `2 * m * m * SCALE` per component of the scaled original sum.
proof fn lemma_normal_ssq_bounds(x: Seq<int>, n: Seq<int>, m: int, k: int)
    requires
        m >= 1,
        0 <= k <= x.len(),
        n.len() == x.len(),
        forall|j: int| 0 <= j < x.len() ==> -m <= #[trigger] x[j] <= m,
        forall|j: int| 0 <= j < x.len() ==> #[trigger] n[j] == div_trunc(x[j] * SCALE, m),
    ensures
        m * m * dot_prefix(n, n, k) <= SCALE * SCALE * dot_prefix(x, x, k),
        m * m * dot_prefix(n, n, k) >= SCALE * SCALE * dot_prefix(x, x, k) - 2 * m * m * SCALE
            * k,
    decreases k,
{
    if k > 0 {
        lemma_normal_ssq_bounds(x, n, m, k - 1);
        let a = x[k - 1] * SCALE;
        assert(-m * SCALE <= a <= m * SCALE) by (nonlinear_arith)
            requires
                -m <= x[k - 1] <= m,
                a == x[k - 1] * SCALE,
                SCALE == 1_000_000,
        ;
        lemma_div_trunc_sq(a, m);
        assert(m * m * dot_prefix(n, n, k) <= SCALE * SCALE * dot_prefix(x, x, k) && m * m
            * dot_prefix(n, n, k) >= SCALE * SCALE * dot_prefix(x, x, k) - 2 * m * m * SCALE * k)
            by (nonlinear_arith)
            requires
                dot_prefix(n, n, k) == dot_prefix(n, n, k - 1) + n[k - 1] * n[k - 1],
                dot_prefix(x, x, k) == dot_prefix(x, x, k - 1) + x[k - 1] * x[k - 1],
                m * m * dot_prefix(n, n, k - 1) <= SCALE * SCALE * dot_prefix(x, x, k - 1),
                m * m * dot_prefix(n, n, k - 1) >= SCALE * SCALE * dot_prefix(x, x, k - 1) - 2 * m
                    * m * SCALE * (k - 1),
                m * m * (n[k - 1] * n[k - 1]) <= a * a,
                m * m * (n[k - 1] * n[k - 1]) >= a * a - 2 * m * m * SCALE,
                a == x[k - 1] * SCALE,
                k >= 1,
        ;
    }
}

/// Normalizing keeps the magnitude close to one: for any nonzero vector
/// `x`, the truncation-normalized vector's magnitude `mag` (in fixed point)
/// satisfies `SCALE - 2 * len <= mag` and `m * mag < (m + 1) * SCALE`,
/// where `m` is the magnitude of `x`; so `mag` lies within a few
/// millionths of `1.0` whenever `x` is at least one unit long.
pub proof fn lemma_normal_magnitude_close(x: Seq<int>)
    requires
        isqrt_spec(ssq(x)) >= 1,
        2 * x.len() <= SCALE,
    ensures
        ({
            let m = isqrt_spec(ssq(x));
            let n = Seq::new(x.len(), |j: int| div_trunc(x[j] * SCALE, m));
            let mag = isqrt_spec(ssq(n));
            SCALE - 2 * x.len() <= mag && m * mag < (m + 1) * SCALE
        }),
{
    let s = SCALE as int;
    let m = isqrt_spec(ssq(x));
    let n = Seq::new(x.len(), |j: int| div_trunc(x[j] * SCALE, m));
    let k = x.len() as int;
    lemma_sq_sum_nonneg(x, k);
    lemma_isqrt_bounds(ssq(x));
    assert forall|j: int| 0 <= j < x.len() implies -m <= #[trigger] x[j] <= m by {
        lemma_sq_le_ssq(x, j, k);
        assert(-m <= x[j] <= m) by (nonlinear_arith)
            requires
                x[j] * x[j] < (m + 1) * (m + 1),
                m >= 1,
        ;
    }
    lemma_normal_ssq_bounds(x, n, m, k);
    lemma_sq_sum_nonneg(n, k);
    lemma_isqrt_bounds(ssq(n));
    let mag = isqrt_spec(ssq(n));
    assert(m * mag < (m + 1) * s) by (nonlinear_arith)
        requires
            m >= 1,
            s >= 1,
            mag >= 0,
            mag * mag <= ssq(n),
            m * m * ssq(n) <= s * s * ssq(x),
            ssq(x) < (m + 1) * (m + 1),
    ;
    assert(s - 2 * k <= mag) by (nonlinear_arith)
        requires
            m >= 1,
            0 <= 2 * k <= s,
            mag >= 0,
            ssq(n) < (mag + 1) * (mag + 1),
            m * m * ssq(n) >= s * s * ssq(x) - 2 * m * m * s * k,
            ssq(x) >= m * m,
    ;
}

/// In-place normalization.
pub trait NormalAssign: Sized {
    /// When may `normal_aasign` be called?
    spec fn normal_assign_req(&self) -> bool;

    /// How does the new value relate to the old one?
    spec fn normal_assign_post(&self, prev: Self, r: Result<(), LaError>) -> bool;

    /// Replaces `self` by its normalized value; a receiver that is not a
    /// vector, or whose magnitude is zero, is rejected and left unchanged.
    fn normal_aasign(&mut self) -> (r: Result<(), LaError>)
        requires
            old(self).normal_assign_req(),
        ensures
            final(self).normal_assign_post(*old(self), r),
    ;
}

impl NormalAssign for Matrix {
    open spec fn normal_assign_req(&self) -> bool {
        self.normal_req()
    }

    open spec fn normal_assign_post(&self, prev: Self, r: Result<(), LaError>) -> bool {
        match r {
            Ok(_) => {
                &&& is_vector(&prev)
                &&& isqrt_spec(ssq(prev@[0])) > 0
                &&& self.wf()
                &&& self.nrows() == 1
                &&& self.ncols() == prev.ncols()
                &&& (forall|j: int|
                    0 <= j < prev.ncols() ==> #[trigger] self@[0][j] == div_trunc(
                        prev@[0][j] * SCALE,
                        isqrt_spec(ssq(prev@[0])),
                    ))
            },
            Err(e) => {
                &&& *self == prev
                &&& match e {
                    LaError::DimensionMismatch => !is_vector(&prev),
                    LaError::ZeroMagnitude => is_vector(&prev) && isqrt_spec(ssq(prev@[0])) == 0,
                }
            },
        }
    }

    fn normal_aasign(&mut self) -> (r: Result<(), LaError>) {
        match self.normal() {
            Ok(m) => {
                *self = m;
                Ok(())
            },
            Err(e) => Err(e),
        }
    }
}

/// The first positional component of a vector (storage slot 0).
pub trait X {
    /// When may `x` be called?
    spec fn x_req(&self) -> bool;

    /// The value that `x` returns.
    spec fn x_spec(&self) -> int;

    /// The component in slot 0.
    fn x(&self) -> (v: i64)
        requires
            self.x_req(),
        ensures
            v == self.x_spec(),
    ;
}

impl X for Matrix {
    open spec fn x_req(&self) -> bool {
        self.wf() && is_vector(self) && self.ncols() >= 1
    }

    open spec fn x_spec(&self) -> int {
        self@[0][0]
    }

    fn x(&self) -> (v: i64) {
        self.get(0, 0)
    }
}

/// The second positional component of a vector (storage slot 1).
pub trait Y {
    /// When may `y` be called?
    spec fn y_req(&self) -> bool;

    /// The value that `y` returns.
    spec fn y_spec(&self) -> int;

    /// The component in slot 1.
    fn y(&self) -> (v: i64)
        requires
            self.y_req(),
        ensures
            v == self.y_spec(),
    ;
}

impl Y for Matrix {
    open spec fn y_req(&self) -> bool {
        self.wf() && is_vector(self) && self.ncols() >= 2
    }

    open spec fn y_spec(&self) -> int {
        self@[0][1]
    }

    fn y(&self) -> (v: i64) {
        self.get(0, 1)
    }
}

/// The third positional component of a vector (storage slot 2).
pub trait Z {
    /// When may `z` be called?
    spec fn z_req(&self) -> bool;

    /// The value that `z` returns.
    spec fn z_spec(&self) -> int;

    /// The component in slot 2.
    fn z(&self) -> (v: i64)
        requires
            self.z_req(),
        ensures
            v == self.z_spec(),
    ;
}

impl Z for Matrix {
    open spec fn z_req(&self) -> bool {
        self.wf() && is_vector(self) && self.ncols() >= 3
    }

    open spec fn z_spec(&self) -> int {
        self@[0][2]
    }

    fn z(&self) -> (v: i64) {
        self.get(0, 2)
    }
}

/// The fourth positional component of a vector (storage slot 3).
pub trait W {
    /// When may `w` be called?
    spec fn w_req(&self) -> bool;

    /// The value that `w` returns.
    spec fn w_spec(&self) -> int;

    /// The component in slot 3.
    fn w(&self) -> (v: i64)
        requires
            self.w_req(),
        ensures
            v == self.w_spec(),
    ;
}

impl W for Matrix {
    open spec fn w_req(&self) -> bool {
        self.wf() && is_vector(self) && self.ncols() >= 4
    }

    open spec fn w_spec(&self) -> int {
        self@[0][3]
    }

    fn w(&self) -> (v: i64) {
        self.get(0, 3)
    }
}

/// The red color component: an alias of storage slot 0, the same slot that
/// [`X`] reads.
pub trait R {
    /// When may `r` be called?
    spec fn r_req(&self) -> bool;

    /// The value that `r` returns.
    spec fn r_spec(&self) -> int;

    /// The component in slot 0.
    fn r(&self) -> (v: i64)
        requires
            self.r_req(),
        ensures
            v == self.r_spec(),
    ;
}

impl R for Matrix {
    open spec fn r_req(&self) -> bool {
        self.x_req()
    }

    open spec fn r_spec(&self) -> int {
        self.x_spec()
    }

    fn r(&self) -> (v: i64) {
        self.get(0, 0)
    }
}

/// The green color component: an alias of storage slot 1, the same slot that
/// [`Y`] reads.
pub trait G {
    /// When may `g` be called?
    spec fn g_req(&self) -> bool;

    /// The value that `g` returns.
    spec fn g_spec(&self) -> int;

    /// The component in slot 1.
    fn g(&self) -> (v: i64)
        requires
            self.g_req(),
        ensures
            v == self.g_spec(),
    ;
}

impl G for Matrix {
    open spec fn g_req(&self) -> bool {
        self.y_req()
    }

    open spec fn g_spec(&self) -> int {
        self.y_spec()
    }

    fn g(&self) -> (v: i64) {
        self.get(0, 1)
    }
}

/// The blue color component: an alias of storage slot 2, the same slot that
/// [`Z`] reads.
pub trait B {
    /// When may `b` be called?
    spec fn b_req(&self) -> bool;

    /// The value that `b` returns.
    spec fn b_spec(&self) -> int;

    /// The component in slot 2.
    fn b(&self) -> (v: i64)
        requires
            self.b_req(),
        ensures
            v == self.b_spec(),
    ;
}

impl B for Matrix {
    open spec fn b_req(&self) -> bool {
        self.z_req()
    }

    open spec fn b_spec(&self) -> int {
        self.z_spec()
    }

    fn b(&self) -> (v: i64) {
        self.get(0, 2)
    }
}

/// The alpha color component: an alias of storage slot 3, the same slot that
/// [`W`] reads.
pub trait A {
    /// When may `a` be called?
    spec fn a_req(&self) -> bool;

    /// The value that `a` returns.
    spec fn a_spec(&self) -> int;

    /// The component in slot 3.
    fn a(&self) -> (v: i64)
        requires
            self.a_req(),
        ensures
            v == self.a_spec(),
    ;
}

impl A for Matrix {
    open spec fn a_req(&self) -> bool {
        self.w_req()
    }

    open spec fn a_spec(&self) -> int {
        self.w_spec()
    }

    fn a(&self) -> (v: i64) {
        self.get(0, 3)
    }
}

impl Matrix {
    /// The vector holding exactly the leading `n` components of `self`, by
    /// elementwise copy; trailing components are dropped.  A receiver that
    /// is not a vector, or a width above the receiver's, is rejected.
    pub fn narrow(&self, n: usize) -> (res: Result<Matrix, LaError>)
        requires
            self.wf(),
        ensures
            match res {
                Ok(m) => {
                    &&& is_vector(self) && n <= self.ncols()
                    &&& m.wf()
                    &&& m.nrows() == 1
                    &&& m.ncols() == n
                    &&& m@[0] == self@[0].take(n as int)
                },
                Err(e) => {
                    &&& e == LaError::DimensionMismatch
                    &&& !(is_vector(self) && n <= self.ncols())
                },
            },
    {
        if self.rows != 1 || n > self.cols {
            return Err(LaError::DimensionMismatch);
        }
        let cell = |rr: usize, cc: usize| -> (v: i64)
            requires
                self.wf(),
                is_vector(self),
                rr < 1 && cc < self.ncols(),
            ensures
                v == self@[0][cc as int],
            { self.get(0, cc) };
        let m = Matrix::build(1, n, cell, Ghost((|i: int, j: int| self@[0][j])));
        proof {
            assert(m@[0] =~= self@[0].take(n as int));
        }
        Ok(m)
    }
}

impl PartialEq for Matrix {
    /// Elementwise comparison: equal shapes and equal elements, exactly.
    fn eq(&self, other: &Self) -> (r: bool) {
        if self.rows != other.rows || self.cols != other.cols
            || self.elems.len() != other.elems.len() {
            return false;
        }
        let n = self.elems.len();
        let mut k: usize = 0;
        while k < n
            invariant
                k <= n,
                n == self.elems@.len() == other.elems@.len(),
                forall|i: int| 0 <= i < k ==> self.elems@[i] == other.elems@[i],
            decreases n - k,
        {
            if self.elems[k] != other.elems[k] {
                return false;
            }
            k += 1;
        }
        proof {
            assert(self.elems@ =~= other.elems@);
        }
        true
    }
}

impl vstd::std_specs::cmp::PartialEqSpecImpl for Matrix {
    open spec fn obeys_eq_spec() -> bool {
        true
    }

    closed spec fn eq_spec(&self, other: &Self) -> bool {
        self.nrows() == other.nrows() && self.ncols() == other.ncols() && self.elems@
            == other.elems@
    }
}

/// Adding a grid and then subtracting it again gives back the original:
/// for same-shape grids `a` and `b`, `(a + b) - b == a` elementwise.
pub proof fn lemma_add_sub_cancel(a: Seq<Seq<int>>, b: Seq<Seq<int>>, r: nat, c: nat)
    requires
        is_grid(a, r, c),
        is_grid(b, r, c),
    ensures
        msub(madd(a, b), b) == a,
{
    assert(msub(madd(a, b), b) =~~= a);
}

/// For positive `c` and nonnegative `m`: `r * c <= m` exactly when `r <= m / c`.
proof fn lemma_mul_div_le(m: int, c: int, r: int)
    requires
        c > 0,
        m >= 0,
    ensures
        r * c <= m <==> r <= m / c,
{
    vstd::arithmetic::div_mod::lemma_fundamental_div_mod(m, c);
    vstd::arithmetic::div_mod::lemma_mod_bound(m, c);
    assert(r * c <= m <==> r <= m / c) by (nonlinear_arith)
        requires
            m == c * (m / c) + m % c,
            0 <= m % c < c,
            c > 0,
    ;
}

} // verus!
