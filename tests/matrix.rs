use neuralnet::matrix::Matrix;
use neuralnet::text::layout;

#[test]
fn test_mult() {
    let a = Matrix::<f32, 2, 2>::from_arrays([[0.1, 0.4], [0.5, -0.3]]);
    let b = Matrix::<f32, 2, 2>::from_arrays([[-2.3, 4.1], [2.0, 2.0]]);
    let res = Matrix::<f32, 2, 2>::from_arrays([[0.57, 1.21], [-1.75, 1.4499999]]);
    assert_eq!(res, a * b);
}

#[test]
fn test_apply() {
    let a = Matrix::<f32, 2, 2>::from_arrays([[0.1, 0.4], [0.5, -0.3]]);
    let b = a.apply(|x| 2.0 * x);
    let res = Matrix::<f32, 2, 2>::from_arrays([[0.2, 0.8], [1.0, -0.6]]);
    assert_eq!(res, b);
}

#[test]
fn test_transpose() {
    let a = Matrix::<f32, 3, 2>::from_arrays([[0.1, -0.2], [4.3, 2.1], [-2.0, 2.0]]);
    let res = Matrix::<f32, 2, 3>::from_arrays([[0.1, 4.3, -2.0], [-0.2, 2.1, 2.0]]);
    assert_eq!(res, a.transpose());
}

#[test]
fn test_hadamard() {
    let a = Matrix::<f32, 3, 2>::from_arrays([[0.1, -0.2], [4.0, 2.1], [-2.0, 2.0]]);
    let b = Matrix::<f32, 3, 2>::from_arrays([[1.0, 2.0], [3.0, 4.0], [5.0, 6.0]]);
    let res = Matrix::<f32, 3, 2>::from_arrays([[0.1, -0.4], [12.0, 8.4], [-10.0, 12.0]]);
    assert_eq!(res, a.hadamard(b));
}

#[test]
fn product_of_integers_is_exact() {
    let a = Matrix::<i64, 2, 3>::from_arrays([[1, 2, 3], [4, 5, 6]]);
    let b = Matrix::<i64, 3, 2>::from_arrays([[7, 8], [9, 10], [11, 12]]);
    let res = Matrix::<i64, 2, 2>::from_arrays([[58, 64], [139, 154]]);
    assert_eq!(res, a.product(b));
    assert_eq!(res, a * b);
}

#[test]
fn product_against_hand_computed_floats() {
    let a = Matrix::<f32, 2, 2>::from_arrays([[0.1, 0.4], [0.5, -0.3]]);
    let b = Matrix::<f32, 2, 2>::from_arrays([[-2.3, 4.1], [2.0, 2.0]]);
    let r = a * b;
    let expected = [[0.57f32, 1.21], [-1.75, 1.45]];
    for i in 0..2 {
        for j in 0..2 {
            assert!((r.get(i, j).unwrap() - expected[i][j]).abs() < 1e-5);
        }
    }
}

#[test]
fn transpose_twice_is_identity() {
    let a = Matrix::<f32, 3, 2>::from_arrays([[0.1, -0.2], [4.3, 2.1], [-2.0, 2.0]]);
    assert_eq!(a, a.transpose().transpose());
}

#[test]
fn apply_scaling_equals_scale() {
    let a = Matrix::<f32, 2, 3>::from_arrays([[0.1, 0.4, -7.5], [0.5, -0.3, 3.25]]);
    let c = 1.5f32;
    assert_eq!(a.apply(|x| x * c), a * c);
    assert_eq!(a.apply(|x| x * c), a.scale(c));
}

#[test]
fn max_index_prefers_last_of_equal_maxima() {
    let v = Matrix::<f32, 5, 1>::from_arrays([[0.2], [0.9], [0.1], [0.9], [0.3]]);
    assert_eq!(3, v.max_index());
    assert_eq!(0.9, v.max());
    let w = Matrix::<i32, 2, 3>::from_arrays([[4, 7, 1], [7, 2, 0]]);
    assert_eq!(3, w.max_index());
    assert_eq!(7, w.max());
}

#[test]
fn max_index_single_maximum() {
    let v = Matrix::<f32, 4, 1>::from_arrays([[0.2], [0.1], [0.8], [0.3]]);
    assert_eq!(2, v.max_index());
}

#[test]
fn get_is_bounds_checked() {
    let a = Matrix::<i32, 2, 3>::from_arrays([[1, 2, 3], [4, 5, 6]]);
    assert_eq!(Some(&6), a.get(1, 2));
    assert_eq!(None, a.get(2, 0));
    assert_eq!(None, a.get(0, 3));
}

#[test]
fn set_writes_one_cell() {
    let mut a = Matrix::<i32, 2, 2>::new();
    a.set(1, 0, 9);
    assert_eq!(Matrix::<i32, 2, 2>::from_arrays([[0, 0], [9, 0]]), a);
}

#[test]
fn new_and_fill_with() {
    assert_eq!(Matrix::<f32, 2, 3>::fill_with(0.0), Matrix::<f32, 2, 3>::new());
    let f = Matrix::<i32, 2, 2>::fill_with(5);
    assert_eq!(Matrix::<i32, 2, 2>::from_arrays([[5, 5], [5, 5]]), f);
}

#[test]
fn add_and_subtract() {
    let a = Matrix::<i32, 2, 2>::from_arrays([[1, 2], [3, 4]]);
    let b = Matrix::<i32, 2, 2>::from_arrays([[10, 20], [30, 40]]);
    assert_eq!(Matrix::<i32, 2, 2>::from_arrays([[11, 22], [33, 44]]), a + b);
    assert_eq!(Matrix::<i32, 2, 2>::from_arrays([[9, 18], [27, 36]]), b - a);
    assert_eq!(a + b, a.plus(b));
    assert_eq!(b - a, b.minus(a));
}

#[test]
fn accumulate_in_place() {
    let mut a = Matrix::<i32, 2, 2>::from_arrays([[1, 2], [3, 4]]);
    let b = Matrix::<i32, 2, 2>::from_arrays([[10, 20], [30, 40]]);
    a.add_in_place(b);
    assert_eq!(Matrix::<i32, 2, 2>::from_arrays([[11, 22], [33, 44]]), a);
    a.sub_in_place(b);
    a.sub_in_place(b);
    assert_eq!(Matrix::<i32, 2, 2>::from_arrays([[-9, -18], [-27, -36]]), a);
    assert_eq!(Matrix::<i32, 2, 2>::from_arrays([[10, 20], [30, 40]]), b);
}

#[test]
fn scale_and_divide() {
    let a = Matrix::<f32, 1, 3>::from_arrays([[1.0, -2.0, 4.0]]);
    assert_eq!(Matrix::<f32, 1, 3>::from_arrays([[2.5, -5.0, 10.0]]), a * 2.5);
    assert_eq!(Matrix::<f32, 1, 3>::from_arrays([[0.5, -1.0, 2.0]]), a / 2.0);
    assert_eq!(a / 2.0, a.divide(2.0));
}

#[test]
fn outer_product_of_columns() {
    let a = Matrix::<i32, 2, 1>::from_arrays([[2], [3]]);
    let b = Matrix::<i32, 3, 1>::from_arrays([[1], [-1], [10]]);
    let res = Matrix::<i32, 2, 3>::from_arrays([[2, -2, 20], [3, -3, 30]]);
    assert_eq!(res, a.outer(b));
}

#[test]
fn iter_rows_and_cols() {
    let a = Matrix::<i32, 2, 3>::from_arrays([[1, 2, 3], [4, 5, 6]]);
    assert_eq!(vec![1, 2, 3, 4, 5, 6], a.iter());
    assert_eq!(vec![vec![1, 2, 3], vec![4, 5, 6]], a.rows());
    assert_eq!(vec![vec![1, 4], vec![2, 5], vec![3, 6]], a.cols());
}

#[test]
fn random_cells_lie_in_unit_interval() {
    let m = Matrix::<f32, 4, 5>::random();
    for x in m.iter() {
        assert!((0.0..1.0).contains(&x));
    }
}

#[test]
fn get_mut_writes_through_and_is_bounds_checked() {
    let mut a = Matrix::<i32, 2, 2>::from_arrays([[1, 2], [3, 4]]);
    *a.get_mut(0, 1).unwrap() = 20;
    assert_eq!(Matrix::<i32, 2, 2>::from_arrays([[1, 20], [3, 4]]), a);
    assert!(a.get_mut(2, 0).is_none());
    assert!(a.get_mut(0, 2).is_none());
}

#[test]
fn text_rendering_separates_cells_and_rows() {
    let a = Matrix::<i32, 2, 3>::from_arrays([[1, 2, 3], [4, 5, 6]]);
    assert_eq!("1 2 3 \n4 5 6 ", a.to_text(|x| x.to_string()));
    let v = Matrix::<f32, 1, 2>::from_arrays([[0.5, -1.25]]);
    assert_eq!("0.5 -1.25 ", v.to_text(|x| x.to_string()));
}

#[test]
fn layout_of_cell_texts() {
    let cells = vec![
        vec!["a".to_string(), "bc".to_string()],
        vec!["d".to_string(), "e".to_string()],
        vec!["f".to_string(), "g".to_string()],
    ];
    assert_eq!("a bc \nd e \nf g ", layout(&cells));
    assert_eq!("", layout(&Vec::new()));
}

#[test]
fn from_draws_fills_row_by_row() {
    let m = Matrix::<i32, 2, 3>::from_draws(&vec![1, 2, 3, 4, 5, 6]);
    assert_eq!(Matrix::<i32, 2, 3>::from_arrays([[1, 2, 3], [4, 5, 6]]), m);
    assert_eq!(vec![1, 2, 3, 4, 5, 6], m.iter());
}

#[test]
fn random_fills_every_cell() {
    let m = Matrix::<u64, 3, 3>::random();
    let zeros = m.iter().iter().filter(|&&x| x == 0).count();
    assert!(zeros < 9);
}

#[test]
fn sum_commutes_for_integers() {
    let a = Matrix::<i32, 2, 2>::from_arrays([[1, -2], [3, 40]]);
    let b = Matrix::<i32, 2, 2>::from_arrays([[7, 8], [-9, 10]]);
    assert_eq!(a + b, b + a);
}

#[test]
fn transpose_of_product_is_product_of_transposes() {
    let a = Matrix::<i64, 2, 3>::from_arrays([[1, 2, 3], [4, 5, 6]]);
    let b = Matrix::<i64, 3, 2>::from_arrays([[7, 8], [9, 10], [11, 12]]);
    assert_eq!((a * b).transpose(), b.transpose() * a.transpose());
}

#[test]
fn operators_match_named_functions() {
    let a = Matrix::<i32, 2, 2>::from_arrays([[1, 2], [3, 4]]);
    let b = Matrix::<i32, 2, 2>::from_arrays([[5, 6], [7, 8]]);
    assert_eq!(a.product(b), a * b);
    assert_eq!(Matrix::<i32, 2, 2>::from_arrays([[19, 22], [43, 50]]), a * b);
    assert_eq!(Matrix::<i32, 2, 2>::from_arrays([[3, 6], [9, 12]]), a * 3);
    assert_eq!(Matrix::<i32, 2, 2>::from_arrays([[2, 3], [3, 4]]), b / 2);
    assert_eq!(Matrix::<i32, 2, 2>::from_arrays([[-4, -4], [-4, -4]]), a - b);
}

#[test]
fn max_is_not_exceeded_by_any_cell() {
    let m = Matrix::<i32, 3, 3>::from_arrays([[3, 9, 1], [9, -4, 2], [0, 9, 5]]);
    let k = m.max_index();
    assert_eq!(7, k);
    assert!(m.iter().iter().all(|&x| x <= m.max()));
}
