use neuralnet::matrix::Matrix;
use neuralnet::network::Network;

fn sigmoid(x: f32) -> f32 {
    1.0 / (1.0 + (-x).exp())
}

fn sigmoid_d(x: f32) -> f32 {
    sigmoid(x) * (1.0 - sigmoid(x))
}

fn fixed<const R: usize, const C: usize>(seed: usize) -> Matrix<f32, R, C> {
    let mut m = Matrix::<f32, R, C>::new();
    for i in 0..R {
        for j in 0..C {
            m.set(i, j, ((i * 7 + j * 3 + seed) % 10) as f32 / 10.0);
        }
    }
    m
}

fn dataset() -> (Vec<Matrix<f32, 2, 1>>, Vec<Matrix<f32, 2, 1>>) {
    let points = [
        (0.9, 0.1),
        (0.8, 0.2),
        (0.7, 0.1),
        (0.9, 0.3),
        (0.1, 0.9),
        (0.2, 0.8),
        (0.1, 0.7),
        (0.3, 0.9),
    ];
    let mut xs = Vec::new();
    let mut ys = Vec::new();
    for (k, &(a, b)) in points.iter().enumerate() {
        xs.push(Matrix::<f32, 2, 1>::from_arrays([[a], [b]]));
        let mut y = Matrix::<f32, 2, 1>::new();
        y.set(if k < 4 { 0 } else { 1 }, 0, 1.0);
        ys.push(y);
    }
    (xs, ys)
}

#[test]
fn training_reaches_zero_errors_on_separable_data() {
    let (xs, ys) = dataset();
    let mut net = Network::<f32, 2, 4, 4, 2>::with_weights(fixed(1), fixed(2), fixed(3));
    let mut history = Vec::new();
    for _ in 0..300 {
        history.push(net.train_epoch(&xs, &ys, 0.5, sigmoid, sigmoid_d));
    }
    let first_zero = history.iter().position(|&e| e == 0);
    assert!(first_zero.is_some());
    let half = history.len() / 2;
    let early: usize = history[..half].iter().sum();
    let late: usize = history[half..].iter().sum();
    assert!(late <= early);
    assert_eq!(0, net.evaluate(&xs, &ys, sigmoid));
    for (x, y) in xs.iter().zip(ys.iter()) {
        assert_eq!(y.max_index(), net.predict(*x, sigmoid));
    }
}

#[test]
fn train_sample_reports_misclassification_and_moves_weights() {
    let (xs, ys) = dataset();
    let mut net = Network::<f32, 2, 4, 4, 2>::with_weights(fixed(1), fixed(2), fixed(3));
    let before = net.w3;
    let predicted = net.predict(xs[0], sigmoid);
    let missed = net.train_sample(xs[0], ys[0], 0.5, sigmoid, sigmoid_d);
    assert_eq!(predicted != ys[0].max_index(), missed);
    assert_ne!(before, net.w3);
}

#[test]
fn forward_matches_layer_by_layer_computation() {
    let net = Network::<f32, 2, 4, 4, 2>::with_weights(fixed(1), fixed(2), fixed(3));
    let x = Matrix::<f32, 2, 1>::from_arrays([[0.9], [0.1]]);
    let pass = net.forward(x, sigmoid);
    let z1 = net.w1 * x + net.b1;
    assert_eq!(z1, pass.z1);
    assert_eq!(z1.apply(sigmoid), pass.a1);
    let z3 = net.w3 * pass.a2 + net.b3;
    assert_eq!(z3.apply(sigmoid), pass.a3);
}

#[test]
fn backward_output_gradient_is_twice_the_error() {
    let net = Network::<f32, 2, 4, 4, 2>::with_weights(fixed(1), fixed(2), fixed(3));
    let x = Matrix::<f32, 2, 1>::from_arrays([[0.9], [0.1]]);
    let y = Matrix::<f32, 2, 1>::from_arrays([[1.0], [0.0]]);
    let pass = net.forward(x, sigmoid);
    let g = net.backward(&pass, x, y, sigmoid_d);
    assert_eq!((pass.a3 - y) * 2.0, g.delta3);
    assert_eq!(pass.z3.apply(sigmoid_d).hadamard(g.delta3), g.dz3);
    assert_eq!(g.dz3 * pass.a2.transpose(), g.dw3);
    assert_eq!(net.w3.transpose() * g.dz3, g.delta2);
}

#[test]
fn random_network_has_zero_biases() {
    let net = Network::<f32, 3, 2, 2, 2>::random();
    assert_eq!(Matrix::<f32, 2, 1>::new(), net.b1);
    assert_eq!(Matrix::<f32, 2, 1>::new(), net.b3);
    for w in net.w1.iter() {
        assert!((0.0..1.0).contains(&w));
    }
}
