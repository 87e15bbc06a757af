//! Properties that relate several operators of the matrix library.
use vstd::prelude::*;
use vstd::std_specs::ops::{AddSpec, MulSpec};
use vstd::std_specs::cmp::PartialOrdSpec;
use crate::matrix::{Matrix, MatrixCell, transposed, is_product, is_sum, is_dot, is_fold, is_default, lemma_shape};

verus! {

/// Transposing twice gives back the original matrix, cell for cell.
pub proof fn law_transpose_involution<T: MatrixCell<T>, const HEIGHT: usize, const WIDTH: usize>(
    m: Matrix<T, HEIGHT, WIDTH>,
)
    ensures
        transposed(transposed(m@, WIDTH as int), HEIGHT as int) == m@,
{
    broadcast use lemma_shape;
    let t = transposed(transposed(m@, WIDTH as int), HEIGHT as int);
    assert forall|i: int| 0 <= i < HEIGHT implies #[trigger] t[i] =~= m@[i] by {}
    assert(t =~= m@);
}

/// `z + a[0]·b[0] + a[1]·b[1] + ... + a[n-1]·b[n-1]`, added from the left.
pub open spec fn dot_value<T: MatrixCell<T>>(z: T, a: Seq<T>, b: Seq<T>, n: int) -> T
    decreases n,
{
    if n <= 0 {
        z
    } else {
        dot_value(z, a, b, n - 1).add_spec(a[n - 1].mul_spec(b[n - 1]))
    }
}

/// A recorded run of the sum holds the exact partial sums when addition and
/// multiplication are functions of their operands.
proof fn lemma_fold_exact<T: MatrixCell<T>>(z: T, a: Seq<T>, b: Seq<T>, sums: Seq<T>, prods: Seq<T>, n: int)
    requires
        T::obeys_add_spec(),
        T::obeys_mul_spec(),
        is_fold(z, a, b, sums, prods),
        0 <= n <= prods.len(),
    ensures
        sums[n] == dot_value(z, a, b, n),
    decreases n,
{
    if n > 0 {
        lemma_fold_exact(z, a, b, sums, prods, n - 1);
        assert(is_product(a[n - 1], b[n - 1], prods[n - 1]));
    }
}

/// Each cell of a matrix product is the sum, from the left, of the products
/// along its row and column, starting from the element's default (zero), when
/// addition and multiplication are functions of their operands.
pub proof fn law_product_exact<
    T: MatrixCell<T>,
    const HEIGHT: usize,
    const INNER: usize,
    const WIDTH: usize,
>(a: Matrix<T, HEIGHT, INNER>, b: Matrix<T, INNER, WIDTH>, r: Matrix<T, HEIGHT, WIDTH>)
    requires
        T::obeys_add_spec(),
        T::obeys_mul_spec(),
        Matrix::product_of(a, b, r),
    ensures
        exists|z: T|
            #[trigger] is_default(z) && forall|i: int, j: int|
                0 <= i < HEIGHT && 0 <= j < WIDTH ==> r@[i][j] == #[trigger] dot_value(
                    z,
                    a@[i],
                    b.column(j),
                    INNER as int,
                ),
{
    let z = choose|z: T|
        #[trigger] is_default(z) && forall|i: int, j: int|
            0 <= i < HEIGHT && 0 <= j < WIDTH ==> #[trigger] is_dot(
                z,
                a@[i],
                b.column(j),
                INNER as int,
                r@[i][j],
            );
    assert forall|i: int, j: int| 0 <= i < HEIGHT && 0 <= j < WIDTH implies r@[i][j]
        == #[trigger] dot_value(z, a@[i], b.column(j), INNER as int) by {
        assert(is_dot(z, a@[i], b.column(j), INNER as int, r@[i][j]));
        let (sums, prods) = choose|sums: Seq<T>, prods: Seq<T>|
            #[trigger] is_fold(z, a@[i], b.column(j), sums, prods) && prods.len() == INNER as int
                && sums[INNER as int] == r@[i][j];
        lemma_fold_exact(z, a@[i], b.column(j), sums, prods, INNER as int);
    }
}

/// `a + b` and `b + a` hold the same cells, for an element type whose addition
/// is a commutative function of its operands.
pub proof fn law_sum_commutes<T: MatrixCell<T>, const HEIGHT: usize, const WIDTH: usize>(
    a: Matrix<T, HEIGHT, WIDTH>,
    b: Matrix<T, HEIGHT, WIDTH>,
    ab: Matrix<T, HEIGHT, WIDTH>,
    ba: Matrix<T, HEIGHT, WIDTH>,
)
    requires
        T::obeys_add_spec(),
        forall|x: T, y: T| #[trigger] x.add_spec(y) == y.add_spec(x),
        Matrix::sum_of(a, b, ab),
        Matrix::sum_of(b, a, ba),
    ensures
        ab@ == ba@,
{
    broadcast use lemma_shape;
    assert forall|i: int| 0 <= i < HEIGHT implies #[trigger] ab@[i] =~= ba@[i] by {
        assert forall|j: int| 0 <= j < WIDTH implies ab@[i][j] == ba@[i][j] by {
            assert(is_sum(a@[i][j], b@[i][j], ab@[i][j]));
            assert(is_sum(b@[i][j], a@[i][j], ba@[i][j]));
            assert(ab@[i][j] == a@[i][j].add_spec(b@[i][j]));
            assert(ba@[i][j] == b@[i][j].add_spec(a@[i][j]));
        }
    }
    assert(ab@ =~= ba@);
}

/// With commutative multiplication the sum of products does not depend on
/// which operand comes first.
proof fn lemma_dot_swap<T: MatrixCell<T>>(z: T, a: Seq<T>, b: Seq<T>, a2: Seq<T>, b2: Seq<T>, n: int)
    requires
        forall|x: T, y: T| #[trigger] x.mul_spec(y) == y.mul_spec(x),
        forall|k: int| 0 <= k < n ==> a2[k] == b[k] && b2[k] == a[k],
    ensures
        dot_value(z, a, b, n) == dot_value(z, a2, b2, n),
    decreases n,
{
    if n > 0 {
        lemma_dot_swap(z, a, b, a2, b2, n - 1);
        assert(a[n - 1].mul_spec(b[n - 1]) == b[n - 1].mul_spec(a[n - 1]));
    }
}

/// The transpose of `a · b` is `bᵗ · aᵗ`, for an element type whose addition
/// and multiplication are functions of their operands, whose multiplication
/// commutes, and whose default value is one value.
pub proof fn law_transpose_of_product<
    T: MatrixCell<T>,
    const HEIGHT: usize,
    const INNER: usize,
    const WIDTH: usize,
>(
    a: Matrix<T, HEIGHT, INNER>,
    b: Matrix<T, INNER, WIDTH>,
    ab: Matrix<T, HEIGHT, WIDTH>,
    at: Matrix<T, INNER, HEIGHT>,
    bt: Matrix<T, WIDTH, INNER>,
    btat: Matrix<T, WIDTH, HEIGHT>,
)
    requires
        T::obeys_add_spec(),
        T::obeys_mul_spec(),
        forall|x: T, y: T| #[trigger] x.mul_spec(y) == y.mul_spec(x),
        forall|x: T, y: T| #[trigger] is_default(x) && #[trigger] is_default(y) ==> x == y,
        Matrix::product_of(a, b, ab),
        at@ == transposed(a@, INNER as int),
        bt@ == transposed(b@, WIDTH as int),
        Matrix::product_of(bt, at, btat),
    ensures
        transposed(ab@, WIDTH as int) == btat@,
{
    broadcast use lemma_shape;
    law_product_exact(a, b, ab);
    law_product_exact(bt, at, btat);
    let z1 = choose|z: T|
        #[trigger] is_default(z) && forall|i: int, j: int|
            0 <= i < HEIGHT && 0 <= j < WIDTH ==> ab@[i][j] == #[trigger] dot_value(
                z,
                a@[i],
                b.column(j),
                INNER as int,
            );
    let z2 = choose|z: T|
        #[trigger] is_default(z) && forall|i: int, j: int|
            0 <= i < WIDTH && 0 <= j < HEIGHT ==> btat@[i][j] == #[trigger] dot_value(
                z,
                bt@[i],
                at.column(j),
                INNER as int,
            );
    assert(z1 == z2);
    let t = transposed(ab@, WIDTH as int);
    assert forall|i: int| 0 <= i < WIDTH implies #[trigger] t[i] =~= btat@[i] by {
        assert forall|j: int| 0 <= j < HEIGHT implies t[i][j] == btat@[i][j] by {
            assert(t[i][j] == ab@[j][i]);
            assert(ab@[j][i] == dot_value(z1, a@[j], b.column(i), INNER as int));
            assert(btat@[i][j] == dot_value(z2, bt@[i], at.column(j), INNER as int));
            lemma_dot_swap(z1, a@[j], b.column(i), bt@[i], at.column(j), INNER as int);
        }
    }
    assert(t =~= btat@);
}

/// Applying `x -> c·x` to every cell gives the same matrix as scaling every
/// cell by `c` (`m * c`), for an element type whose multiplication is a
/// function of its operands and where `c` commutes with every value.
pub proof fn law_apply_scaling<
    T: MatrixCell<T>,
    F: Fn(T) -> T,
    const HEIGHT: usize,
    const WIDTH: usize,
>(
    m: Matrix<T, HEIGHT, WIDTH>,
    c: T,
    f: F,
    applied: Matrix<T, HEIGHT, WIDTH>,
    scaled: Matrix<T, HEIGHT, WIDTH>,
)
    requires
        T::obeys_mul_spec(),
        forall|x: T| #[trigger] c.mul_spec(x) == x.mul_spec(c),
        forall|x: T, y: T| #[trigger] f.ensures((x,), y) ==> is_product(c, x, y),
        Matrix::applied(m, f, applied),
        Matrix::scaled(m, c, scaled),
    ensures
        applied@ == scaled@,
{
    broadcast use lemma_shape;
    assert forall|i: int| 0 <= i < HEIGHT implies #[trigger] applied@[i] =~= scaled@[i] by {
        assert forall|j: int| 0 <= j < WIDTH implies applied@[i][j] == scaled@[i][j] by {
            let x = m@[i][j];
            assert(f.ensures((x,), applied@[i][j]));
            assert(applied@[i][j] == c.mul_spec(x));
            assert(scaled@[i][j] == x.mul_spec(c));
        }
    }
    assert(applied@ =~= scaled@);
}

/// The arg-max scan never settles before `n`'s first position.
proof fn lemma_arg_max_in_range<T: MatrixCell<T>, const HEIGHT: usize, const WIDTH: usize>(
    m: Matrix<T, HEIGHT, WIDTH>,
    n: int,
)
    requires
        n >= 1,
    ensures
        0 <= m.arg_max_prefix(n) < n,
    decreases n,
{
    if n > 1 {
        lemma_arg_max_in_range(m, n - 1);
    }
}

/// Once the scan has passed a cell that no cell compares greater than, it
/// holds that position or a later one.
proof fn lemma_arg_max_from<T: MatrixCell<T>, const HEIGHT: usize, const WIDTH: usize>(
    m: Matrix<T, HEIGHT, WIDTH>,
    q: int,
    n: int,
)
    requires
        0 <= q < n <= HEIGHT * WIDTH,
        forall|k: int|
            0 <= k < HEIGHT * WIDTH ==> (#[trigger] m.flat_at(k)).partial_cmp_spec(&m.flat_at(q))
                != Some(core::cmp::Ordering::Greater),
    ensures
        m.arg_max_prefix(n) >= q,
    decreases n,
{
    if n > 1 {
        if n - 1 > q {
            lemma_arg_max_from(m, q, n - 1);
        } else {
            lemma_arg_max_in_range(m, n - 1);
            let b = m.arg_max_prefix(n - 1);
            assert(m.flat_at(b).partial_cmp_spec(&m.flat_at(q)) != Some(
                core::cmp::Ordering::Greater,
            ));
        }
    }
}

/// `x > y` by the comparison's specification.
pub open spec fn greater<T: MatrixCell<T>>(x: T, y: T) -> bool {
    x.partial_cmp_spec(&y) == Some(core::cmp::Ordering::Greater)
}

/// The comparison orders all values: `>` is asymmetric and "not greater" is
/// transitive (as for integers, and for floats without NaN).
pub open spec fn total_order<T: MatrixCell<T>>() -> bool {
    &&& forall|x: T, y: T| #[trigger] greater(x, y) ==> !greater(y, x)
    &&& forall|x: T, y: T, z: T|
        #![trigger greater(x, y), greater(y, z)]
        !greater(x, y) && !greater(y, z) ==> !greater(x, z)
}

/// No cell among the first `n` compares greater than the one the scan holds.
proof fn lemma_arg_max_is_max<T: MatrixCell<T>, const HEIGHT: usize, const WIDTH: usize>(
    m: Matrix<T, HEIGHT, WIDTH>,
    n: int,
)
    requires
        total_order::<T>(),
        n >= 1,
    ensures
        forall|k: int| 0 <= k < n ==> !greater(#[trigger] m.flat_at(k), m.flat_at(m.arg_max_prefix(n))),
    decreases n,
{
    if n > 1 {
        lemma_arg_max_is_max(m, n - 1);
        let b = m.arg_max_prefix(n - 1);
        let last = m.flat_at(n - 1);
        if greater(m.flat_at(b), last) {
            assert(!greater(last, m.flat_at(b)));
        } else {
            assert forall|k: int| 0 <= k < n implies !greater(#[trigger] m.flat_at(k), last) by {
                if k < n - 1 {
                    assert(!greater(m.flat_at(k), m.flat_at(b)));
                    assert(!greater(m.flat_at(b), last));
                }
            }
        }
    }
}

/// Under a total order, the cell at the arg-max position is a greatest cell:
/// no cell compares greater than it.
pub proof fn law_arg_max_is_greatest<T: MatrixCell<T>, const HEIGHT: usize, const WIDTH: usize>(
    m: Matrix<T, HEIGHT, WIDTH>,
)
    requires
        total_order::<T>(),
        HEIGHT * WIDTH >= 1,
    ensures
        0 <= m.arg_max_prefix(HEIGHT * WIDTH) < HEIGHT * WIDTH,
        forall|k: int|
            0 <= k < HEIGHT * WIDTH ==> !greater(
                #[trigger] m.flat_at(k),
                m.flat_at(m.arg_max_prefix(HEIGHT * WIDTH)),
            ),
{
    lemma_arg_max_in_range(m, HEIGHT * WIDTH);
    lemma_arg_max_is_max(m, HEIGHT * WIDTH);
}

/// Every cell after the scan's position compares less than the cell it holds.
proof fn lemma_arg_max_later_less<T: MatrixCell<T>, const HEIGHT: usize, const WIDTH: usize>(
    m: Matrix<T, HEIGHT, WIDTH>,
    n: int,
)
    requires
        n >= 1,
    ensures
        forall|k: int|
            m.arg_max_prefix(n) < k < n ==> greater(m.flat_at(m.arg_max_prefix(n)), #[trigger] m.flat_at(k)),
    decreases n,
{
    if n > 1 {
        lemma_arg_max_later_less(m, n - 1);
    }
}

/// The arg-max position holds the last greatest cell: under a total order no
/// cell compares greater than it, and every later cell compares less.
pub proof fn law_arg_max_last_greatest<T: MatrixCell<T>, const HEIGHT: usize, const WIDTH: usize>(
    m: Matrix<T, HEIGHT, WIDTH>,
)
    requires
        total_order::<T>(),
        HEIGHT * WIDTH >= 1,
    ensures
        forall|k: int|
            0 <= k < HEIGHT * WIDTH ==> !greater(
                #[trigger] m.flat_at(k),
                m.flat_at(m.arg_max_prefix(HEIGHT * WIDTH)),
            ),
        forall|k: int|
            m.arg_max_prefix(HEIGHT * WIDTH) < k < HEIGHT * WIDTH ==> greater(
                m.flat_at(m.arg_max_prefix(HEIGHT * WIDTH)),
                #[trigger] m.flat_at(k),
            ),
{
    law_arg_max_is_greatest(m);
    lemma_arg_max_later_less(m, HEIGHT * WIDTH);
}

/// Each cell of the elementwise product is the product of the two cells, when
/// multiplication is a function of its operands.
pub proof fn law_hadamard_exact<T: MatrixCell<T>, const HEIGHT: usize, const WIDTH: usize>(
    a: Matrix<T, HEIGHT, WIDTH>,
    b: Matrix<T, HEIGHT, WIDTH>,
    r: Matrix<T, HEIGHT, WIDTH>,
)
    requires
        T::obeys_mul_spec(),
        Matrix::hadamard_of(a, b, r),
    ensures
        forall|i: int, j: int|
            0 <= i < HEIGHT && 0 <= j < WIDTH ==> #[trigger] r@[i][j] == a@[i][j].mul_spec(b@[i][j]),
{
    assert forall|i: int, j: int| 0 <= i < HEIGHT && 0 <= j < WIDTH implies #[trigger] r@[i][j]
        == a@[i][j].mul_spec(b@[i][j]) by {
        assert(is_product(a@[i][j], b@[i][j], r@[i][j]));
    }
}

/// Of two equal greatest cells, the arg-max scan settles on the later one:
/// the position it returns is never the earlier cell's, and not before the later.
pub proof fn law_arg_max_last_wins<T: MatrixCell<T>, const HEIGHT: usize, const WIDTH: usize>(
    m: Matrix<T, HEIGHT, WIDTH>,
    p: int,
    q: int,
)
    requires
        0 <= p < q < HEIGHT * WIDTH,
        m.flat_at(p) == m.flat_at(q),
        forall|k: int|
            0 <= k < HEIGHT * WIDTH ==> (#[trigger] m.flat_at(k)).partial_cmp_spec(&m.flat_at(q))
                != Some(core::cmp::Ordering::Greater),
    ensures
        m.arg_max_prefix(HEIGHT * WIDTH) >= q,
        m.arg_max_prefix(HEIGHT * WIDTH) != p,
{
    lemma_arg_max_from(m, q, HEIGHT * WIDTH);
}

} // verus!
