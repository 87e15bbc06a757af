use vstd::prelude::*;
use vstd::std_specs::ops::{AddSpec, SubSpec, MulSpec, DivSpec, AddSpecImpl, SubSpecImpl, MulSpecImpl, DivSpecImpl};
use vstd::std_specs::cmp::PartialOrdSpec;
use core::ops::{Add, Sub, Mul, Div};

verus! {

/// The numeric element a matrix holds: copyable, with a default (zero) value,
/// the four arithmetic operators and a partial order.
pub trait MatrixCell<T>: Default + Clone + Copy + Sub<Output = T> + Mul<Output = T> + Add<
    Output = T,
> + Div<Output = T> + PartialOrd + Sized {

}

impl<T> MatrixCell<T> for T where
    T: Default + Clone + Copy + Sub<Output = T> + Mul<Output = T> + Add<Output = T> + Div<
        Output = T,
    > + PartialOrd,
 {

}

/// A `HEIGHT` x `WIDTH` matrix stored row-major. The extents are part of the
/// type, so operands of incompatible shapes are rejected when the program is built.
#[derive(Clone, Copy, Debug, PartialEq)]
pub struct Matrix<T, const HEIGHT: usize, const WIDTH: usize> where T: MatrixCell<T> {
    data: [[T; WIDTH]; HEIGHT],
}

/// The rows of a literal array of arrays, as sequences.
pub open spec fn rows_of<T, const HEIGHT: usize, const WIDTH: usize>(
    data: [[T; WIDTH]; HEIGHT],
) -> Seq<Seq<T>> {
    data@.map_values(|r: [T; WIDTH]| r@)
}

/// `v` is a value that `T::default()` may return.
pub open spec fn is_default<T: Default>(v: T) -> bool {
    call_ensures(T::default, (), v)
}

/// `c` is a possible outcome of `a + b`.
pub open spec fn is_sum<T: Add<Output = T>>(a: T, b: T, c: T) -> bool {
    call_ensures(T::add, (a, b), c)
}

/// `c` is a possible outcome of `a - b`.
pub open spec fn is_difference<T: Sub<Output = T>>(a: T, b: T, c: T) -> bool {
    call_ensures(T::sub, (a, b), c)
}

/// `c` is a possible outcome of `a * b`.
pub open spec fn is_product<T: Mul<Output = T>>(a: T, b: T, c: T) -> bool {
    call_ensures(T::mul, (a, b), c)
}

/// `a > b` may answer `true`.
pub open spec fn is_greater<T: PartialOrd>(a: T, b: T) -> bool {
    call_ensures(T::gt, (&a, &b), true)
}

/// `c` is a possible outcome of `a / b`.
pub open spec fn is_quotient<T: Div<Output = T>>(a: T, b: T, c: T) -> bool {
    call_ensures(T::div, (a, b), c)
}

/// `sums` and `prods` record one run of adding the products `a[k] * b[k]`
/// onto `z` in increasing `k`: `prods[k]` is an outcome of `a[k] * b[k]`, and
/// `sums[k + 1]` of `sums[k] + prods[k]`, from `sums[0] == z`.
pub open spec fn is_fold<T: MatrixCell<T>>(z: T, a: Seq<T>, b: Seq<T>, sums: Seq<T>, prods: Seq<T>) -> bool {
    &&& sums.len() == prods.len() + 1
    &&& sums[0] == z
    &&& forall|k: int|
        0 <= k < prods.len() ==> is_product(a[k], b[k], #[trigger] prods[k]) && is_sum(
            sums[k],
            prods[k],
            sums[k + 1],
        )
}

/// `r` is a possible outcome of adding the products `a[k] * b[k]` for
/// `k < n` onto `z`, one after the other in increasing `k`.
pub open spec fn is_dot<T: MatrixCell<T>>(z: T, a: Seq<T>, b: Seq<T>, n: int, r: T) -> bool {
    exists|sums: Seq<T>, prods: Seq<T>|
        #[trigger] is_fold(z, a, b, sums, prods) && prods.len() == n && sums[n] == r
}

/// Each step of the sum described by `is_dot` is allowed: every product, and
/// the addition of a product onto any possible partial sum before it.
pub open spec fn dot_defined<T: MatrixCell<T>>(z: T, a: Seq<T>, b: Seq<T>, n: int) -> bool {
    forall|k: int|
        #![trigger a[k], b[k]]
        0 <= k < n ==> a[k].mul_req(b[k]) && forall|sums: Seq<T>, prods: Seq<T>, p: T|
            #![trigger is_fold(z, a, b, sums, prods), is_product(a[k], b[k], p)]
            is_fold(z, a, b, sums, prods) && prods.len() == k && is_product(a[k], b[k], p)
                ==> sums[k].add_req(p)
}

/// The rows of `m` read as columns: `width` rows of `m.len()` cells.
pub open spec fn transposed<T>(m: Seq<Seq<T>>, width: int) -> Seq<Seq<T>> {
    Seq::new(width as nat, |i: int| Seq::new(m.len(), |j: int| m[j][i]))
}

/// Addition, subtraction and multiplication of `T` are allowed on every pair
/// of values (as for floating-point numbers).
pub open spec fn total_arithmetic<T: MatrixCell<T>>() -> bool {
    forall|x: T, y: T|
        #![trigger x.add_req(y)]
        #![trigger x.sub_req(y)]
        #![trigger x.mul_req(y)]
        x.add_req(y) && x.sub_req(y) && x.mul_req(y)
}

/// With total arithmetic every matrix product is allowed.
pub proof fn lemma_product_defined<T: MatrixCell<T>, const HEIGHT: usize, const INNER: usize, const WIDTH: usize>(
    a: Matrix<T, HEIGHT, INNER>,
    b: Matrix<T, INNER, WIDTH>,
)
    requires
        total_arithmetic::<T>(),
    ensures
        a.product_defined(b),
{
}

/// `a + b`, for combining cells.
fn add_cells<T: MatrixCell<T>>(a: T, b: T) -> (r: T)
    requires
        a.add_req(b),
    ensures
        is_sum(a, b, r),
{
    a + b
}

/// `a - b`, for combining cells.
fn sub_cells<T: MatrixCell<T>>(a: T, b: T) -> (r: T)
    requires
        a.sub_req(b),
    ensures
        is_difference(a, b, r),
{
    a - b
}

/// `a * b`, for combining cells.
fn mul_cells<T: MatrixCell<T>>(a: T, b: T) -> (r: T)
    requires
        a.mul_req(b),
    ensures
        is_product(a, b, r),
{
    a * b
}

/// `a / b`, for combining cells.
fn div_cells<T: MatrixCell<T>>(a: T, b: T) -> (r: T)
    requires
        a.div_req(b),
    ensures
        is_quotient(a, b, r),
{
    a / b
}

/// The view of any matrix has `HEIGHT` rows of `WIDTH` cells each.
pub broadcast proof fn lemma_shape<T: MatrixCell<T>, const HEIGHT: usize, const WIDTH: usize>(
    m: Matrix<T, HEIGHT, WIDTH>,
)
    ensures
        #![trigger m@]
        m@.len() == HEIGHT,
        forall|i: int| 0 <= i < HEIGHT ==> (#[trigger] m@[i]).len() == WIDTH,
{
}

impl<T, const HEIGHT: usize, const WIDTH: usize> Matrix<T, HEIGHT, WIDTH> where T: MatrixCell<T> {
    /// The cells, row by row.
    pub closed spec fn view(&self) -> Seq<Seq<T>> {
        rows_of(self.data)
    }

    /// `r` is a possible outcome of adding `a` and `b` cell by cell.
    pub open spec fn sum_of(a: Self, b: Self, r: Self) -> bool {
        forall|i: int, j: int|
            0 <= i < HEIGHT && 0 <= j < WIDTH ==> is_sum(a@[i][j], b@[i][j], r@[i][j])
    }

    /// `r` is a possible outcome of subtracting `b` from `a` cell by cell.
    pub open spec fn difference_of(a: Self, b: Self, r: Self) -> bool {
        forall|i: int, j: int|
            0 <= i < HEIGHT && 0 <= j < WIDTH ==> is_difference(a@[i][j], b@[i][j], r@[i][j])
    }

    /// `r` is a possible outcome of multiplying `a` and `b` cell by cell.
    pub open spec fn hadamard_of(a: Self, b: Self, r: Self) -> bool {
        forall|i: int, j: int|
            0 <= i < HEIGHT && 0 <= j < WIDTH ==> is_product(a@[i][j], b@[i][j], r@[i][j])
    }

    /// `r` is a possible outcome of multiplying every cell of `a` by `c`.
    pub open spec fn scaled(a: Self, c: T, r: Self) -> bool {
        forall|i: int, j: int|
            0 <= i < HEIGHT && 0 <= j < WIDTH ==> is_product(a@[i][j], c, r@[i][j])
    }

    /// `r` is a possible outcome of dividing every cell of `a` by `c`.
    pub open spec fn divided(a: Self, c: T, r: Self) -> bool {
        forall|i: int, j: int|
            0 <= i < HEIGHT && 0 <= j < WIDTH ==> is_quotient(a@[i][j], c, r@[i][j])
    }

    /// `r` is a possible outcome of applying `f` to every cell of `a`.
    pub open spec fn applied<F: Fn(T) -> T>(a: Self, f: F, r: Self) -> bool {
        forall|i: int, j: int|
            0 <= i < HEIGHT && 0 <= j < WIDTH ==> f.ensures((a@[i][j],), r@[i][j])
    }

    /// `r` is a possible outcome of the matrix product `a · b`: each cell adds
    /// the products along a row of `a` and a column of `b` onto one value
    /// that `T::default()` returns.
    pub open spec fn product_of<const INNER: usize>(
        a: Matrix<T, HEIGHT, INNER>,
        b: Matrix<T, INNER, WIDTH>,
        r: Self,
    ) -> bool {
        exists|z: T|
            #[trigger] is_default(z) && forall|i: int, j: int|
                0 <= i < HEIGHT && 0 <= j < WIDTH ==> #[trigger] is_dot(
                    z,
                    a@[i],
                    b.column(j),
                    INNER as int,
                    r@[i][j],
                )
    }

    /// Every cell of `self` holds `v`.
    pub open spec fn filled_with(&self, v: T) -> bool {
        forall|i: int, j: int| 0 <= i < HEIGHT && 0 <= j < WIDTH ==> self@[i][j] == v
    }

    /// A matrix whose cells all hold `T::default()`.
    pub fn new() -> (r: Self)
        ensures
            exists|v: T| is_default(v) && r.filled_with(v),
    {
        let v = T::default();
        assert(is_default(v));
        Matrix::fill_with(v)
    }

    /// A matrix whose cells all hold `val`.
    pub fn fill_with(val: T) -> (r: Self)
        ensures
            r.filled_with(val),
    {
        let row: [T; WIDTH] = vstd::array::array_fill_for_copy_types::<T, WIDTH>(val);
        let data: [[T; WIDTH]; HEIGHT] = vstd::array::array_fill_for_copy_types::<[T; WIDTH], HEIGHT>(row);
        Self { data }
    }

    /// A matrix holding the given rows.
    pub fn from_arrays(data: [[T; WIDTH]; HEIGHT]) -> (r: Self)
        ensures
            r@ == rows_of(data),
    {
        Self { data }
    }

    /// The cell at `row`, `col`; `None` when either index is out of range.
    pub fn get(&self, row: usize, col: usize) -> (r: Option<&T>)
        ensures
            row < HEIGHT && col < WIDTH ==> r == Some(&self@[row as int][col as int]),
            row >= HEIGHT || col >= WIDTH ==> r.is_none(),
    {
        if row >= HEIGHT || col >= WIDTH {
            None
        } else {
            Some(&self.data[row][col])
        }
    }

    /// A mutable reference to the cell at `row`, `col`; `None` when either
    /// index is out of range. What is written through it lands in that cell.
    pub fn get_mut(&mut self, row: usize, col: usize) -> (r: Option<&mut T>)
        ensures
            row < HEIGHT && col < WIDTH ==> r.is_some() && *r.unwrap() == old(self)@[row as int][col as int]
                && final(self)@ == old(self)@.update(
                row as int,
                old(self)@[row as int].update(col as int, *final(r.unwrap())),
            ),
            row >= HEIGHT || col >= WIDTH ==> r.is_none() && final(self)@ == old(self)@,
    {
        if row >= HEIGHT || col >= WIDTH {
            None
        } else {
            Some(&mut self.data[row][col])
        }
    }

    /// Writes `val` into the cell at `row`, `col`.
    pub fn set(&mut self, row: usize, col: usize, val: T)
        requires
            row < HEIGHT,
            col < WIDTH,
        ensures
            final(self)@ == old(self)@.update(row as int, old(self)@[row as int].update(col as int, val)),
    {
        broadcast use lemma_shape;
        let mut r: [T; WIDTH] = self.data[row];
        r[col] = val;
        self.data[row] = r;
        proof {
            assert(final(self)@ =~= old(self)@.update(row as int, old(self)@[row as int].update(col as int, val)));
        }
    }

    /// The cell at `row`, `col`, by value.
    fn at(&self, row: usize, col: usize) -> (r: T)
        requires
            row < HEIGHT,
            col < WIDTH,
        ensures
            r == self@[row as int][col as int],
    {
        self.data[row][col]
    }

    /// The elementwise sum of `self` and `rhs`.
    pub fn plus(self, rhs: Self) -> (r: Self)
        requires
            forall|i: int, j: int|
                0 <= i < HEIGHT && 0 <= j < WIDTH ==> (#[trigger] self@[i][j]).add_req(rhs@[i][j]),
        ensures
            Self::sum_of(self, rhs, r),
    {
        self.zip_with(rhs, add_cells::<T>)
    }

    /// The elementwise difference of `self` and `rhs`.
    pub fn minus(self, rhs: Self) -> (r: Self)
        requires
            forall|i: int, j: int|
                0 <= i < HEIGHT && 0 <= j < WIDTH ==> (#[trigger] self@[i][j]).sub_req(rhs@[i][j]),
        ensures
            Self::difference_of(self, rhs, r),
    {
        self.zip_with(rhs, sub_cells::<T>)
    }

    /// Adds `rhs` into `self`, cell by cell.
    pub fn add_in_place(&mut self, rhs: Self)
        requires
            forall|i: int, j: int|
                0 <= i < HEIGHT && 0 <= j < WIDTH ==> (#[trigger] old(self)@[i][j]).add_req(rhs@[i][j]),
        ensures
            Self::sum_of(*old(self), rhs, *final(self)),
    {
        *self = self.plus(rhs);
    }

    /// Subtracts `rhs` from `self`, cell by cell.
    pub fn sub_in_place(&mut self, rhs: Self)
        requires
            forall|i: int, j: int|
                0 <= i < HEIGHT && 0 <= j < WIDTH ==> (#[trigger] old(self)@[i][j]).sub_req(rhs@[i][j]),
        ensures
            Self::difference_of(*old(self), rhs, *final(self)),
    {
        *self = self.minus(rhs);
    }

    /// Every cell multiplied by `c`.
    pub fn scale(self, c: T) -> (r: Self)
        requires
            forall|i: int, j: int|
                0 <= i < HEIGHT && 0 <= j < WIDTH ==> (#[trigger] self@[i][j]).mul_req(c),
        ensures
            Self::scaled(self, c, r),
    {
        self.zip_with(Self::fill_with(c), mul_cells::<T>)
    }

    /// Every cell divided by `c`.
    pub fn divide(self, c: T) -> (r: Self)
        requires
            forall|i: int, j: int|
                0 <= i < HEIGHT && 0 <= j < WIDTH ==> (#[trigger] self@[i][j]).div_req(c),
        ensures
            Self::divided(self, c, r),
    {
        self.zip_with(Self::fill_with(c), div_cells::<T>)
    }

    /// `func` applied to each pair of cells of `self` and `other` at the same place.
    fn zip_with<F: Fn(T, T) -> T>(self, other: Self, func: F) -> (r: Self)
        requires
            forall|i: int, j: int|
                0 <= i < HEIGHT && 0 <= j < WIDTH ==> func.requires(((#[trigger] self@[i][j]), other@[i][j])),
        ensures
            forall|i: int, j: int|
                0 <= i < HEIGHT && 0 <= j < WIDTH ==> func.ensures((self@[i][j], other@[i][j]), r@[i][j]),
    {
        broadcast use lemma_shape;
        let ghost orig = self;
        let mut mat = self;
        for row in 0..HEIGHT
            invariant
                forall|i: int, j: int|
                    0 <= i < HEIGHT && 0 <= j < WIDTH ==> func.requires(((#[trigger] orig@[i][j]), other@[i][j])),
                forall|i: int, j: int| 0 <= i < HEIGHT && 0 <= j < WIDTH ==> {
                    if i < row { func.ensures((orig@[i][j], other@[i][j]), mat@[i][j]) }
                    else { mat@[i][j] == orig@[i][j] }
                },
        {
            for col in 0..WIDTH
                invariant
                    row < HEIGHT,
                    forall|i: int, j: int|
                        0 <= i < HEIGHT && 0 <= j < WIDTH ==> func.requires(((#[trigger] orig@[i][j]), other@[i][j])),
                    forall|i: int, j: int| 0 <= i < HEIGHT && 0 <= j < WIDTH ==> {
                        if i < row || (i == row && j < col) { func.ensures((orig@[i][j], other@[i][j]), mat@[i][j]) }
                        else { mat@[i][j] == orig@[i][j] }
                    },
            {
                let v = func(mat.at(row, col), other.at(row, col));
                mat.set(row, col, v);
            }
        }
        mat
    }

    /// `func` applied to every cell.
    pub fn apply<F: Fn(T) -> T>(self, func: F) -> (r: Self)
        requires
            forall|i: int, j: int|
                0 <= i < HEIGHT && 0 <= j < WIDTH ==> func.requires(((#[trigger] self@[i][j]),)),
        ensures
            Self::applied(self, func, r),
    {
        broadcast use lemma_shape;
        let ghost orig = self;
        let mut mat = self;
        for row in 0..HEIGHT
            invariant
                forall|i: int, j: int|
                    0 <= i < HEIGHT && 0 <= j < WIDTH ==> func.requires(((#[trigger] orig@[i][j]),)),
                forall|i: int, j: int| 0 <= i < HEIGHT && 0 <= j < WIDTH ==> {
                    if i < row { func.ensures((orig@[i][j],), mat@[i][j]) }
                    else { mat@[i][j] == orig@[i][j] }
                },
        {
            for col in 0..WIDTH
                invariant
                    row < HEIGHT,
                    forall|i: int, j: int|
                        0 <= i < HEIGHT && 0 <= j < WIDTH ==> func.requires(((#[trigger] orig@[i][j]),)),
                    forall|i: int, j: int| 0 <= i < HEIGHT && 0 <= j < WIDTH ==> {
                        if i < row || (i == row && j < col) { func.ensures((orig@[i][j],), mat@[i][j]) }
                        else { mat@[i][j] == orig@[i][j] }
                    },
            {
                let v = func(mat.at(row, col));
                mat.set(row, col, v);
            }
        }
        mat
    }

    /// The cell at flat position `n`, counting row by row.
    pub open spec fn flat_at(&self, n: int) -> T {
        self@[n / WIDTH as int][n % WIDTH as int]
    }

    /// The position that a scan of the first `n` flat positions settles on:
    /// each next position replaces the one held unless the held cell compares
    /// greater, so of equal greatest cells the last one wins.
    pub open spec fn arg_max_prefix(&self, n: int) -> int
        decreases n,
    {
        if n <= 1 {
            0
        } else {
            let b = self.arg_max_prefix(n - 1);
            if self.flat_at(b).partial_cmp_spec(&self.flat_at(n - 1)) == Some(
                core::cmp::Ordering::Greater,
            ) {
                b
            } else {
                n - 1
            }
        }
    }

    /// The flat position, row by row, of the greatest cell; of equal greatest
    /// cells, the last.
    pub fn max_index(&self) -> (r: usize)
        requires
            HEIGHT > 0,
            WIDTH > 0,
            HEIGHT * WIDTH <= usize::MAX,
        ensures
            r < HEIGHT * WIDTH,
            forall|n: int| r < n < HEIGHT * WIDTH ==> #[trigger] is_greater(self.flat_at(r as int), self.flat_at(n)),
            T::obeys_partial_cmp_spec() ==> r == self.arg_max_prefix(HEIGHT * WIDTH),
    {
        broadcast use lemma_shape;
        let total: usize = HEIGHT * WIDTH;
        assert(total >= 1) by (nonlinear_arith)
            requires
                total == HEIGHT * WIDTH,
                HEIGHT > 0,
                WIDTH > 0,
        ;
        let mut best: usize = 0;
        let mut n: usize = 1;
        while n < total
            invariant
                1 <= n <= total,
                total == HEIGHT * WIDTH,
                best < n,
                forall|m: int| best < m < n ==> #[trigger] is_greater(self.flat_at(best as int), self.flat_at(m)),
                T::obeys_partial_cmp_spec() ==> best == self.arg_max_prefix(n as int),
            decreases total - n,
        {
            let held = self.flat(best);
            let next = self.flat(n);
            if !(held > next) {
                best = n;
            }
            n = n + 1;
        }
        best
    }

    /// The cell at flat position `n`.
    fn flat(&self, n: usize) -> (r: T)
        requires
            WIDTH > 0,
            n < HEIGHT * WIDTH,
        ensures
            r == self.flat_at(n as int),
    {
        let row = n / WIDTH;
        let col = n % WIDTH;
        assert(row < HEIGHT) by (nonlinear_arith)
            requires
                row == n / WIDTH,
                n < HEIGHT * WIDTH,
                WIDTH > 0,
        ;
        self.at(row, col)
    }

    /// The greatest cell: the one at `max_index`.
    pub fn max(&self) -> (r: T)
        requires
            HEIGHT > 0,
            WIDTH > 0,
            HEIGHT * WIDTH <= usize::MAX,
        ensures
            exists|n: int|
                0 <= n < HEIGHT * WIDTH && r == #[trigger] self.flat_at(n) && forall|m: int|
                    n < m < HEIGHT * WIDTH ==> #[trigger] is_greater(r, self.flat_at(m)),
            T::obeys_partial_cmp_spec() ==> r == self.flat_at(self.arg_max_prefix(HEIGHT * WIDTH)),
    {
        let n = self.max_index();
        let r = self.flat(n);
        assert(r == self.flat_at(n as int));
        r
    }

    /// Column `j`, top to bottom.
    pub open spec fn column(&self, j: int) -> Seq<T> {
        Seq::new(HEIGHT as nat, |k: int| self@[k][j])
    }

    /// Every sum that `product` computes is allowed, from any default value.
    pub open spec fn product_defined<const OTHER: usize>(&self, rhs: Matrix<T, WIDTH, OTHER>) -> bool {
        forall|z: T|
            #[trigger] is_default(z) ==> forall|i: int, j: int|
                0 <= i < HEIGHT && 0 <= j < OTHER ==> #[trigger] dot_defined(
                    z,
                    self@[i],
                    rhs.column(j),
                    WIDTH as int,
                )
    }

    /// The cells row by row, as one vector.
    pub fn iter(&self) -> (r: Vec<T>)
        requires
            HEIGHT * WIDTH <= usize::MAX,
        ensures
            r@.len() == HEIGHT * WIDTH,
            forall|n: int| 0 <= n < HEIGHT * WIDTH ==> r@[n] == self.flat_at(n),
    {
        let mut out: Vec<T> = Vec::new();
        if WIDTH == 0 {
            return out;
        }
        let total: usize = HEIGHT * WIDTH;
        for n in 0..total
            invariant
                WIDTH > 0,
                total == HEIGHT * WIDTH,
                out@.len() == n,
                forall|m: int| 0 <= m < n ==> out@[m] == self.flat_at(m),
        {
            out.push(self.flat(n));
        }
        out
    }

    /// The matrix whose cells, row by row, are `draws` in order: one value
    /// per cell.
    pub fn from_draws(draws: &Vec<T>) -> (r: Self)
        requires
            draws@.len() == HEIGHT * WIDTH,
        ensures
            forall|n: int| 0 <= n < HEIGHT * WIDTH ==> #[trigger] r.flat_at(n) == draws@[n],
    {
        broadcast use lemma_shape;
        let mut mat = Matrix::<T, HEIGHT, WIDTH>::new();
        if WIDTH == 0 {
            return mat;
        }
        let total: usize = draws.len();
        for n in 0..total
            invariant
                WIDTH > 0,
                total == HEIGHT * WIDTH,
                draws@.len() == total,
                forall|m: int| 0 <= m < n ==> #[trigger] mat.flat_at(m) == draws@[m],
        {
            let row = n / WIDTH;
            let col = n % WIDTH;
            assert(row < HEIGHT) by (nonlinear_arith)
                requires
                    row == n / WIDTH,
                    n < HEIGHT * WIDTH,
                    WIDTH > 0,
            ;
            let ghost before = mat;
            mat.set(row, col, draws[n]);
            assert forall|m: int| 0 <= m < n + 1 implies #[trigger] mat.flat_at(m) == draws@[m] by {
                if m < n {
                    assert(m / WIDTH as int != row || m % WIDTH as int != col) by {
                        vstd::arithmetic::div_mod::lemma_fundamental_div_mod(m, WIDTH as int);
                        vstd::arithmetic::div_mod::lemma_fundamental_div_mod(n as int, WIDTH as int);
                    }
                    assert(0 <= m / WIDTH as int) by {
                        vstd::arithmetic::div_mod::lemma_div_pos_is_pos(m, WIDTH as int);
                    }
                    assert(m / WIDTH as int <= row) by {
                        vstd::arithmetic::div_mod::lemma_div_is_ordered(m, n as int, WIDTH as int);
                    }
                    assert(mat.flat_at(m) == before.flat_at(m));
                }
            }
        }
        mat
    }

    /// The rows, top to bottom.
    pub fn rows(&self) -> (r: Vec<Vec<T>>)
        ensures
            r@.len() == HEIGHT,
            forall|i: int| 0 <= i < HEIGHT ==> (#[trigger] r@[i])@ == self@[i],
    {
        broadcast use lemma_shape;
        let mut out: Vec<Vec<T>> = Vec::new();
        for i in 0..HEIGHT
            invariant
                out@.len() == i,
                forall|ii: int| 0 <= ii < i ==> (#[trigger] out@[ii])@ == self@[ii],
        {
            let mut row: Vec<T> = Vec::new();
            for j in 0..WIDTH
                invariant
                    i < HEIGHT,
                    row@.len() == j,
                    forall|jj: int| 0 <= jj < j ==> row@[jj] == self@[i as int][jj],
            {
                row.push(self.at(i, j));
            }
            assert(row@ =~= self@[i as int]);
            out.push(row);
        }
        out
    }

    /// The columns, left to right.
    pub fn cols(&self) -> (r: Vec<Vec<T>>)
        ensures
            r@.len() == WIDTH,
            forall|j: int| 0 <= j < WIDTH ==> (#[trigger] r@[j])@ == self.column(j),
    {
        broadcast use lemma_shape;
        let mut out: Vec<Vec<T>> = Vec::new();
        for j in 0..WIDTH
            invariant
                out@.len() == j,
                forall|jj: int| 0 <= jj < j ==> (#[trigger] out@[jj])@ == self.column(jj),
        {
            let mut col: Vec<T> = Vec::new();
            for i in 0..HEIGHT
                invariant
                    j < WIDTH,
                    col@.len() == i,
                    forall|ii: int| 0 <= ii < i ==> col@[ii] == self@[ii][j as int],
            {
                col.push(self.at(i, j));
            }
            assert(col@ =~= self.column(j as int));
            out.push(col);
        }
        out
    }

    /// The matrix product `self · rhs`: cell `i`, `j` adds the products of row `i`
    /// of `self` with column `j` of `rhs` onto `T::default()`, in increasing order.
    pub fn product<const OTHER: usize>(self, rhs: Matrix<T, WIDTH, OTHER>) -> (r: Matrix<
        T,
        HEIGHT,
        OTHER,
    >)
        requires
            self.product_defined(rhs),
        ensures
            Matrix::<T, HEIGHT, OTHER>::product_of(self, rhs, r),
    {
        broadcast use lemma_shape;
        let zero = T::default();
        assert(is_default(zero));
        assert(forall|i: int, j: int|
            0 <= i < HEIGHT && 0 <= j < OTHER ==> #[trigger] dot_defined(
                zero,
                self@[i],
                rhs.column(j),
                WIDTH as int,
            ));
        let mut out = Matrix::<T, HEIGHT, OTHER>::new();
        for i in 0..HEIGHT
            invariant
                is_default(zero),
                forall|ii: int, j: int|
                    0 <= ii < HEIGHT && 0 <= j < OTHER ==> #[trigger] dot_defined(
                        zero,
                        self@[ii],
                        rhs.column(j),
                        WIDTH as int,
                    ),
                forall|ii: int, j: int|
                    0 <= ii < i && 0 <= j < OTHER ==> #[trigger] is_dot(
                        zero,
                        self@[ii],
                        rhs.column(j),
                        WIDTH as int,
                        out@[ii][j],
                    ),
        {
            for j in 0..OTHER
                invariant
                    i < HEIGHT,
                    is_default(zero),
                    forall|ii: int, jj: int|
                        0 <= ii < HEIGHT && 0 <= jj < OTHER ==> #[trigger] dot_defined(
                            zero,
                            self@[ii],
                            rhs.column(jj),
                            WIDTH as int,
                        ),
                    forall|ii: int, jj: int|
                        0 <= ii < i && 0 <= jj < OTHER ==> #[trigger] is_dot(
                            zero,
                            self@[ii],
                            rhs.column(jj),
                            WIDTH as int,
                            out@[ii][jj],
                        ),
                    forall|jj: int|
                        0 <= jj < j ==> #[trigger] is_dot(
                            zero,
                            self@[i as int],
                            rhs.column(jj),
                            WIDTH as int,
                            out@[i as int][jj],
                        ),
            {
                let ghost a = self@[i as int];
                let ghost b = rhs.column(j as int);
                assert(dot_defined(zero, a, b, WIDTH as int));
                let mut sum = zero;
                let ghost mut sums = seq![zero];
                let ghost mut prods = Seq::<T>::empty();
                for k in 0..WIDTH
                    invariant
                        i < HEIGHT,
                        j < OTHER,
                        a == self@[i as int],
                        b == rhs.column(j as int),
                        dot_defined(zero, a, b, WIDTH as int),
                        is_fold(zero, a, b, sums, prods),
                        prods.len() == k,
                        sums[k as int] == sum,
                {
                    let x = self.at(i, k);
                    let y = rhs.at(k, j);
                    assert(a[k as int] == x && b[k as int] == y);
                    let p = x * y;
                    let ghost prev = sum;
                    assert(is_product(a[k as int], b[k as int], p));
                    assert(prev.add_req(p));
                    sum = sum + p;
                    proof {
                        let ghost s0 = sums;
                        let ghost p0 = prods;
                        sums = sums.push(sum);
                        prods = prods.push(p);
                        assert forall|m: int| 0 <= m < prods.len() implies is_product(a[m], b[m], #[trigger] prods[m]) && is_sum(
                            sums[m],
                            prods[m],
                            sums[m + 1],
                        ) by {
                            if m < k {
                                assert(prods[m] == p0[m] && sums[m] == s0[m] && sums[m + 1] == s0[m + 1]);
                            }
                        }
                    }
                }
                assert(is_fold(zero, a, b, sums, prods));
                out.set(i, j, sum);
            }
        }
        out
    }

    /// The matrix with rows and columns exchanged.
    pub fn transpose(&self) -> (r: Matrix<T, WIDTH, HEIGHT>)
        ensures
            r@ == transposed(self@, WIDTH as int),
    {
        broadcast use lemma_shape;
        let mut mat = Matrix::<T, WIDTH, HEIGHT>::new();
        for row in 0..HEIGHT
            invariant
                forall|i: int, j: int| 0 <= i < WIDTH && 0 <= j < row ==> mat@[i][j] == self@[j][i],
        {
            for col in 0..WIDTH
                invariant
                    row < HEIGHT,
                    forall|i: int, j: int| 0 <= i < WIDTH && 0 <= j < row ==> mat@[i][j] == self@[j][i],
                    forall|i: int| 0 <= i < col ==> mat@[i][row as int] == self@[row as int][i],
            {
                mat.set(col, row, self.at(row, col));
            }
        }
        assert forall|i: int| 0 <= i < WIDTH implies #[trigger] mat@[i] =~= transposed(
            self@,
            WIDTH as int,
        )[i] by {}
        assert(mat@ =~= transposed(self@, WIDTH as int));
        mat
    }

    /// The elementwise product of `self` and `other`.
    pub fn hadamard(self, other: Self) -> (r: Self)
        requires
            forall|i: int, j: int|
                0 <= i < HEIGHT && 0 <= j < WIDTH ==> (#[trigger] self@[i][j]).mul_req(other@[i][j]),
        ensures
            Self::hadamard_of(self, other, r),
    {
        self.zip_with(other, mul_cells::<T>)
    }
}

impl<T, const HEIGHT: usize> Matrix<T, HEIGHT, 1> where T: MatrixCell<T> {
    /// The outer product of two column vectors: cell `i`, `j` is `self[i] * other[j]`.
    pub fn outer<const OTHER: usize>(&self, other: Matrix<T, OTHER, 1>) -> (r: Matrix<
        T,
        HEIGHT,
        OTHER,
    >)
        requires
            forall|i: int, j: int|
                0 <= i < HEIGHT && 0 <= j < OTHER ==> (#[trigger] self@[i][0]).mul_req(
                    #[trigger] other@[j][0],
                ),
        ensures
            forall|i: int, j: int|
                0 <= i < HEIGHT && 0 <= j < OTHER ==> is_product(self@[i][0], other@[j][0], r@[i][j]),
    {
        broadcast use lemma_shape;
        let mut m = Matrix::<T, HEIGHT, OTHER>::new();
        for row in 0..HEIGHT
            invariant
                forall|i: int, j: int|
                    0 <= i < HEIGHT && 0 <= j < OTHER ==> (#[trigger] self@[i][0]).mul_req(
                        #[trigger] other@[j][0],
                    ),
                forall|i: int, j: int|
                    0 <= i < row && 0 <= j < OTHER ==> is_product(self@[i][0], other@[j][0], m@[i][j]),
        {
            for col in 0..OTHER
                invariant
                    row < HEIGHT,
                forall|i: int, j: int|
                    0 <= i < HEIGHT && 0 <= j < OTHER ==> (#[trigger] self@[i][0]).mul_req(
                        #[trigger] other@[j][0],
                    ),
                    forall|i: int, j: int|
                        0 <= i < row && 0 <= j < OTHER ==> is_product(self@[i][0], other@[j][0], m@[i][j]),
                    forall|j: int|
                        0 <= j < col ==> is_product(self@[row as int][0], other@[j][0], m@[row as int][j]),
            {
                let v = self.at(row, 0) * other.at(col, 0);
                m.set(row, col, v);
            }
        }
        m
    }
}

impl<T, const HEIGHT: usize, const WIDTH: usize> Matrix<T, HEIGHT, WIDTH> where
    T: MatrixCell<T>,
    rand::distributions::Standard: rand::distributions::Distribution<T>,
 {
    /// A matrix whose cells are independent draws from the thread's random source.
    /// A matrix of independent draws from the thread's random source:
    /// `HEIGHT * WIDTH` values of `rand::random`, laid out row by row by
    /// `from_draws`.
    pub fn random() -> (r: Self)
        requires
            HEIGHT * WIDTH <= usize::MAX,
        ensures
            exists|d: Seq<T>|
                {
                    &&& d.len() == HEIGHT * WIDTH
                    &&& forall|n: int| 0 <= n < d.len() ==> call_ensures(rand::random::<T>, (), #[trigger] d[n])
                    &&& forall|n: int| 0 <= n < HEIGHT * WIDTH ==> #[trigger] r.flat_at(n) == d[n]
                },
    {
        let total: usize = HEIGHT * WIDTH;
        let mut draws: Vec<T> = Vec::new();
        for n in 0..total
            invariant
                total == HEIGHT * WIDTH,
                draws@.len() == n,
                forall|k: int| 0 <= k < n ==> call_ensures(rand::random::<T>, (), #[trigger] draws@[k]),
        {
            let v = rand::random::<T>();
            draws.push(v);
        }
        let r = Self::from_draws(&draws);
        assert(forall|n: int| 0 <= n < draws@.len() ==> call_ensures(rand::random::<T>, (), #[trigger] draws@[n]));
        r
    }
}

/// Relies on rand::random: a value drawn from the thread-local generator;
/// nothing is promised of which.
pub assume_specification<T>[ rand::random::<T> ]() -> (r: T)
    where
        rand::distributions::Standard: rand::distributions::Distribution<T>,
;

impl<T, const HEIGHT: usize, const WIDTH: usize> Add for Matrix<T, HEIGHT, WIDTH> where
    T: MatrixCell<T>,
 {
    type Output = Self;

    fn add(self, rhs: Self) -> (r: Self)
        ensures
            Self::sum_of(self, rhs, r),
    {
        self.plus(rhs)
    }
}

impl<T, const HEIGHT: usize, const WIDTH: usize> AddSpecImpl for Matrix<T, HEIGHT, WIDTH> where
    T: MatrixCell<T>,
 {
    open spec fn obeys_add_spec() -> bool {
        false
    }

    open spec fn add_req(self, rhs: Self) -> bool {
        forall|i: int, j: int|
            0 <= i < HEIGHT && 0 <= j < WIDTH ==> (#[trigger] self@[i][j]).add_req(rhs@[i][j])
    }

    open spec fn add_spec(self, rhs: Self) -> Self {
        arbitrary()
    }
}

impl<T, const HEIGHT: usize, const WIDTH: usize> Sub for Matrix<T, HEIGHT, WIDTH> where
    T: MatrixCell<T>,
 {
    type Output = Self;

    fn sub(self, rhs: Self) -> (r: Self)
        ensures
            Self::difference_of(self, rhs, r),
    {
        self.minus(rhs)
    }
}

impl<T, const HEIGHT: usize, const WIDTH: usize> SubSpecImpl for Matrix<T, HEIGHT, WIDTH> where
    T: MatrixCell<T>,
 {
    open spec fn obeys_sub_spec() -> bool {
        false
    }

    open spec fn sub_req(self, rhs: Self) -> bool {
        forall|i: int, j: int|
            0 <= i < HEIGHT && 0 <= j < WIDTH ==> (#[trigger] self@[i][j]).sub_req(rhs@[i][j])
    }

    open spec fn sub_spec(self, rhs: Self) -> Self {
        arbitrary()
    }
}

impl<T, const HEIGHT: usize, const WIDTH: usize> Mul<T> for Matrix<T, HEIGHT, WIDTH> where
    T: MatrixCell<T>,
 {
    type Output = Self;

    fn mul(self, rhs: T) -> (r: Self)
        ensures
            Self::scaled(self, rhs, r),
    {
        self.scale(rhs)
    }
}

impl<T, const HEIGHT: usize, const WIDTH: usize> MulSpecImpl<T> for Matrix<T, HEIGHT, WIDTH> where
    T: MatrixCell<T>,
 {
    open spec fn obeys_mul_spec() -> bool {
        false
    }

    open spec fn mul_req(self, rhs: T) -> bool {
        forall|i: int, j: int|
            0 <= i < HEIGHT && 0 <= j < WIDTH ==> (#[trigger] self@[i][j]).mul_req(rhs)
    }

    open spec fn mul_spec(self, rhs: T) -> Self {
        arbitrary()
    }
}

impl<T, const HEIGHT: usize, const WIDTH: usize, const OTHER: usize> Mul<
    Matrix<T, WIDTH, OTHER>,
> for Matrix<T, HEIGHT, WIDTH> where T: MatrixCell<T> {
    type Output = Matrix<T, HEIGHT, OTHER>;

    fn mul(self, rhs: Matrix<T, WIDTH, OTHER>) -> (r: Matrix<T, HEIGHT, OTHER>)
        ensures
            Matrix::<T, HEIGHT, OTHER>::product_of(self, rhs, r),
    {
        self.product(rhs)
    }
}

impl<T, const HEIGHT: usize, const WIDTH: usize, const OTHER: usize> MulSpecImpl<
    Matrix<T, WIDTH, OTHER>,
> for Matrix<T, HEIGHT, WIDTH> where T: MatrixCell<T> {
    open spec fn obeys_mul_spec() -> bool {
        false
    }

    open spec fn mul_req(self, rhs: Matrix<T, WIDTH, OTHER>) -> bool {
        self.product_defined(rhs)
    }

    open spec fn mul_spec(self, rhs: Matrix<T, WIDTH, OTHER>) -> Matrix<T, HEIGHT, OTHER> {
        arbitrary()
    }
}

impl<T, const HEIGHT: usize, const WIDTH: usize> Div<T> for Matrix<T, HEIGHT, WIDTH> where
    T: MatrixCell<T>,
 {
    type Output = Self;

    fn div(self, rhs: T) -> (r: Self)
        ensures
            Self::divided(self, rhs, r),
    {
        self.divide(rhs)
    }
}

impl<T, const HEIGHT: usize, const WIDTH: usize> DivSpecImpl<T> for Matrix<T, HEIGHT, WIDTH> where
    T: MatrixCell<T>,
 {
    open spec fn obeys_div_spec() -> bool {
        false
    }

    open spec fn div_req(self, rhs: T) -> bool {
        forall|i: int, j: int|
            0 <= i < HEIGHT && 0 <= j < WIDTH ==> (#[trigger] self@[i][j]).div_req(rhs)
    }

    open spec fn div_spec(self, rhs: T) -> Self {
        arbitrary()
    }
}

} // verus!
