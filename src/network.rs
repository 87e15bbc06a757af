//! A three-layer fully connected network: forward propagation, backpropagation
//! of the squared-error gradient, and one step of stochastic gradient descent.
use vstd::prelude::*;
use vstd::std_specs::cmp::PartialOrdSpec;
use crate::matrix::{Matrix, MatrixCell, transposed, total_arithmetic, lemma_product_defined, is_default};

verus! {

/// The six parameter matrices: a weight matrix and a bias column per layer.
/// Layer widths are `IN` (input), `HID1`, `HID2` and `OUT` (class scores).
#[derive(Clone, Copy, Debug, PartialEq)]
pub struct Network<T, const IN: usize, const HID1: usize, const HID2: usize, const OUT: usize> where
    T: MatrixCell<T>,
 {
    pub w1: Matrix<T, HID1, IN>,
    pub b1: Matrix<T, HID1, 1>,
    pub w2: Matrix<T, HID2, HID1>,
    pub b2: Matrix<T, HID2, 1>,
    pub w3: Matrix<T, OUT, HID2>,
    pub b3: Matrix<T, OUT, 1>,
}

/// The pre-activations and activations of one forward pass.
#[derive(Clone, Copy, Debug, PartialEq)]
pub struct Pass<T, const HID1: usize, const HID2: usize, const OUT: usize> where T: MatrixCell<T> {
    pub z1: Matrix<T, HID1, 1>,
    pub a1: Matrix<T, HID1, 1>,
    pub z2: Matrix<T, HID2, 1>,
    pub a2: Matrix<T, HID2, 1>,
    pub z3: Matrix<T, OUT, 1>,
    pub a3: Matrix<T, OUT, 1>,
}

/// The gradients of one backward pass: for each layer the gradient with
/// respect to its activation (`delta`), its pre-activation (`dz`, which is
/// also the bias gradient) and its weights (`dw`).
#[derive(Clone, Copy, Debug, PartialEq)]
pub struct Gradients<T, const IN: usize, const HID1: usize, const HID2: usize, const OUT: usize> where
    T: MatrixCell<T>,
 {
    pub delta3: Matrix<T, OUT, 1>,
    pub dz3: Matrix<T, OUT, 1>,
    pub dw3: Matrix<T, OUT, HID2>,
    pub delta2: Matrix<T, HID2, 1>,
    pub dz2: Matrix<T, HID2, 1>,
    pub dw2: Matrix<T, HID2, HID1>,
    pub delta1: Matrix<T, HID1, 1>,
    pub dz1: Matrix<T, HID1, 1>,
    pub dw1: Matrix<T, HID1, IN>,
}

/// `f` may be called on every value.
pub open spec fn total_fn<T, F: Fn(T) -> T>(f: F) -> bool {
    forall|x: T| #[trigger] f.requires((x,))
}

/// One layer: `z = w · input + b` and `a = act(z)`, cell by cell.
pub open spec fn is_layer<T: MatrixCell<T>, F: Fn(T) -> T, const R: usize, const C: usize>(
    w: Matrix<T, R, C>,
    b: Matrix<T, R, 1>,
    input: Matrix<T, C, 1>,
    act: F,
    z: Matrix<T, R, 1>,
    a: Matrix<T, R, 1>,
) -> bool {
    &&& exists|p: Matrix<T, R, 1>|
        #[trigger] Matrix::product_of(w, input, p) && Matrix::sum_of(p, b, z)
    &&& Matrix::applied(z, act, a)
}

/// `pass` is a forward pass of `net` on `x`.
pub open spec fn is_forward<
    T: MatrixCell<T>,
    F: Fn(T) -> T,
    const IN: usize,
    const HID1: usize,
    const HID2: usize,
    const OUT: usize,
>(net: Network<T, IN, HID1, HID2, OUT>, x: Matrix<T, IN, 1>, act: F, pass: Pass<T, HID1, HID2, OUT>) -> bool {
    &&& is_layer(net.w1, net.b1, x, act, pass.z1, pass.a1)
    &&& is_layer(net.w2, net.b2, pass.a1, act, pass.z2, pass.a2)
    &&& is_layer(net.w3, net.b3, pass.a2, act, pass.z3, pass.a3)
}

/// The gradient at the output: `2 · (a3 - y)`, formed as `diff + diff`.
pub open spec fn is_output_delta<T: MatrixCell<T>, const OUT: usize>(
    a3: Matrix<T, OUT, 1>,
    y: Matrix<T, OUT, 1>,
    delta: Matrix<T, OUT, 1>,
) -> bool {
    exists|diff: Matrix<T, OUT, 1>|
        #[trigger] Matrix::difference_of(a3, y, diff) && Matrix::sum_of(diff, diff, delta)
}

/// The gradients of one layer: `dz = act_d(z) ⊙ delta` and `dw = dz · prevᵗ`.
pub open spec fn is_layer_gradient<T: MatrixCell<T>, F: Fn(T) -> T, const R: usize, const C: usize>(
    z: Matrix<T, R, 1>,
    delta: Matrix<T, R, 1>,
    act_d: F,
    prev: Matrix<T, C, 1>,
    dz: Matrix<T, R, 1>,
    dw: Matrix<T, R, C>,
) -> bool {
    &&& exists|d: Matrix<T, R, 1>|
        #[trigger] Matrix::applied(z, act_d, d) && Matrix::hadamard_of(d, delta, dz)
    &&& exists|pt: Matrix<T, 1, C>|
        pt@ == transposed(prev@, 1) && #[trigger] Matrix::product_of(dz, pt, dw)
}

/// The gradient passed to the layer below: `delta = wᵗ · dz`.
pub open spec fn is_back_delta<T: MatrixCell<T>, const R: usize, const C: usize>(
    w: Matrix<T, R, C>,
    dz: Matrix<T, R, 1>,
    delta: Matrix<T, C, 1>,
) -> bool {
    exists|wt: Matrix<T, C, R>| wt@ == transposed(w@, C as int) && #[trigger] Matrix::product_of(wt, dz, delta)
}

/// `g` is a backward pass of `net` for the sample `x`, `y` through `pass`.
pub open spec fn is_backward<
    T: MatrixCell<T>,
    F: Fn(T) -> T,
    const IN: usize,
    const HID1: usize,
    const HID2: usize,
    const OUT: usize,
>(
    net: Network<T, IN, HID1, HID2, OUT>,
    pass: Pass<T, HID1, HID2, OUT>,
    x: Matrix<T, IN, 1>,
    y: Matrix<T, OUT, 1>,
    act_d: F,
    g: Gradients<T, IN, HID1, HID2, OUT>,
) -> bool {
    &&& is_output_delta(pass.a3, y, g.delta3)
    &&& is_layer_gradient(pass.z3, g.delta3, act_d, pass.a2, g.dz3, g.dw3)
    &&& is_back_delta(net.w3, g.dz3, g.delta2)
    &&& is_layer_gradient(pass.z2, g.delta2, act_d, pass.a1, g.dz2, g.dw2)
    &&& is_back_delta(net.w2, g.dz2, g.delta1)
    &&& is_layer_gradient(pass.z1, g.delta1, act_d, x, g.dz1, g.dw1)
}

/// One descent step on one parameter: `new = old - grad · rate`.
pub open spec fn is_descent<T: MatrixCell<T>, const R: usize, const C: usize>(
    old: Matrix<T, R, C>,
    grad: Matrix<T, R, C>,
    rate: T,
    new: Matrix<T, R, C>,
) -> bool {
    exists|s: Matrix<T, R, C>| #[trigger] Matrix::scaled(grad, rate, s) && Matrix::difference_of(old, s, new)
}

/// `new` is `old` after one descent step on every parameter with gradients `g`.
pub open spec fn is_update<T: MatrixCell<T>, const IN: usize, const HID1: usize, const HID2: usize, const OUT: usize>(
    old: Network<T, IN, HID1, HID2, OUT>,
    g: Gradients<T, IN, HID1, HID2, OUT>,
    rate: T,
    new: Network<T, IN, HID1, HID2, OUT>,
) -> bool {
    &&& is_descent(old.w1, g.dw1, rate, new.w1)
    &&& is_descent(old.b1, g.dz1, rate, new.b1)
    &&& is_descent(old.w2, g.dw2, rate, new.w2)
    &&& is_descent(old.b2, g.dz2, rate, new.b2)
    &&& is_descent(old.w3, g.dw3, rate, new.w3)
    &&& is_descent(old.b3, g.dz3, rate, new.b3)
}

/// The class a score column names: the position of its greatest cell, the
/// last of equal greatest cells.
pub open spec fn class_of<T: MatrixCell<T>, const OUT: usize>(v: Matrix<T, OUT, 1>) -> int {
    v.arg_max_prefix(OUT as int)
}

/// `missed` says whether the class of `net`'s forward pass on `x` differs from
/// the class of `y`, where the comparison of `T` is a function of its operands.
pub open spec fn is_miss<
    T: MatrixCell<T>,
    F: Fn(T) -> T,
    const IN: usize,
    const HID1: usize,
    const HID2: usize,
    const OUT: usize,
>(net: Network<T, IN, HID1, HID2, OUT>, x: Matrix<T, IN, 1>, y: Matrix<T, OUT, 1>, act: F, missed: bool) -> bool {
    exists|p: Pass<T, HID1, HID2, OUT>|
        #[trigger] is_forward(net, x, act, p) && (T::obeys_partial_cmp_spec() ==> missed == (
        class_of(p.a3) != class_of(y)))
}

/// `new` is `old` after training on the sample `x`, `y`: a forward pass, a
/// backward pass through it, and a descent step with those gradients;
/// `missed` says whether the pass's class differed from `y`'s.
pub open spec fn is_train_step<
    T: MatrixCell<T>,
    F: Fn(T) -> T,
    G: Fn(T) -> T,
    const IN: usize,
    const HID1: usize,
    const HID2: usize,
    const OUT: usize,
>(
    old: Network<T, IN, HID1, HID2, OUT>,
    x: Matrix<T, IN, 1>,
    y: Matrix<T, OUT, 1>,
    rate: T,
    act: F,
    act_d: G,
    new: Network<T, IN, HID1, HID2, OUT>,
    missed: bool,
) -> bool {
    exists|p: Pass<T, HID1, HID2, OUT>, g: Gradients<T, IN, HID1, HID2, OUT>|
        #![trigger is_forward(old, x, act, p), is_backward(old, p, x, y, act_d, g)]
        {
            &&& is_forward(old, x, act, p)
            &&& is_backward(old, p, x, y, act_d, g)
            &&& is_update(old, g, rate, new)
            &&& T::obeys_partial_cmp_spec() ==> missed == (class_of(p.a3) != class_of(y))
        }
}

/// How many entries of `s` are `true`.
pub open spec fn count_true(s: Seq<bool>) -> nat
    decreases s.len(),
{
    if s.len() == 0 {
        0
    } else {
        count_true(s.drop_last()) + if s.last() {
            1nat
        } else {
            0nat
        }
    }
}

/// One layer of the forward pass.
fn layer<T: MatrixCell<T>, F: Fn(T) -> T + Copy, const R: usize, const C: usize>(
    w: Matrix<T, R, C>,
    b: Matrix<T, R, 1>,
    input: Matrix<T, C, 1>,
    act: F,
) -> (r: (Matrix<T, R, 1>, Matrix<T, R, 1>))
    requires
        total_arithmetic::<T>(),
        total_fn(act),
    ensures
        is_layer(w, b, input, act, r.0, r.1),
{
    proof {
        lemma_product_defined(w, input);
    }
    let p = w.product(input);
    let z = p.plus(b);
    let a = z.apply(act);
    (z, a)
}

/// The gradients of one layer.
fn layer_gradient<T: MatrixCell<T>, F: Fn(T) -> T + Copy, const R: usize, const C: usize>(
    z: Matrix<T, R, 1>,
    delta: Matrix<T, R, 1>,
    act_d: F,
    prev: Matrix<T, C, 1>,
) -> (r: (Matrix<T, R, 1>, Matrix<T, R, C>))
    requires
        total_arithmetic::<T>(),
        total_fn(act_d),
    ensures
        is_layer_gradient(z, delta, act_d, prev, r.0, r.1),
{
    let d = z.apply(act_d);
    let dz = d.hadamard(delta);
    let pt = prev.transpose();
    proof {
        lemma_product_defined(dz, pt);
    }
    let dw = dz.product(pt);
    (dz, dw)
}

/// The gradient passed to the layer below.
fn back_delta<T: MatrixCell<T>, const R: usize, const C: usize>(
    w: Matrix<T, R, C>,
    dz: Matrix<T, R, 1>,
) -> (r: Matrix<T, C, 1>)
    requires
        total_arithmetic::<T>(),
    ensures
        is_back_delta(w, dz, r),
{
    let wt = w.transpose();
    proof {
        lemma_product_defined(wt, dz);
    }
    wt.product(dz)
}

/// One descent step on one parameter.
fn descend<T: MatrixCell<T>, const R: usize, const C: usize>(
    param: &mut Matrix<T, R, C>,
    grad: Matrix<T, R, C>,
    rate: T,
)
    requires
        total_arithmetic::<T>(),
    ensures
        is_descent(*old(param), grad, rate, *final(param)),
{
    let s = grad.scale(rate);
    param.sub_in_place(s);
}

impl<T, const IN: usize, const HID1: usize, const HID2: usize, const OUT: usize> Network<
    T,
    IN,
    HID1,
    HID2,
    OUT,
> where T: MatrixCell<T> {
    /// The forward pass on the input column `x`.
    pub fn forward<F: Fn(T) -> T + Copy>(&self, x: Matrix<T, IN, 1>, act: F) -> (r: Pass<
        T,
        HID1,
        HID2,
        OUT,
    >)
        requires
            total_arithmetic::<T>(),
            total_fn(act),
        ensures
            is_forward(*self, x, act, r),
    {
        let (z1, a1) = layer(self.w1, self.b1, x, act);
        let (z2, a2) = layer(self.w2, self.b2, a1, act);
        let (z3, a3) = layer(self.w3, self.b3, a2, act);
        Pass { z1, a1, z2, a2, z3, a3 }
    }

    /// The predicted class of `x`: the position of the greatest output
    /// activation, the last of equal greatest ones.
    pub fn predict<F: Fn(T) -> T + Copy>(&self, x: Matrix<T, IN, 1>, act: F) -> (r: usize)
        requires
            OUT > 0,
            total_arithmetic::<T>(),
            total_fn(act),
        ensures
            r < OUT,
            exists|p: Pass<T, HID1, HID2, OUT>|
                #[trigger] is_forward(*self, x, act, p) && (T::obeys_partial_cmp_spec() ==> r
                    == class_of(p.a3)),
    {
        let pass = self.forward(x, act);
        pass.a3.max_index()
    }

    /// Trains on one sample: forward pass, backward pass, then a descent step
    /// with learning rate `rate`. Returns whether the sample was misclassified
    /// before the step.
    pub fn train_sample<F: Fn(T) -> T + Copy, G: Fn(T) -> T + Copy>(
        &mut self,
        x: Matrix<T, IN, 1>,
        y: Matrix<T, OUT, 1>,
        rate: T,
        act: F,
        act_d: G,
    ) -> (missed: bool)
        requires
            OUT > 0,
            total_arithmetic::<T>(),
            total_fn(act),
            total_fn(act_d),
        ensures
            is_train_step(*old(self), x, y, rate, act, act_d, *final(self), missed),
    {
        let pass = self.forward(x, act);
        let pred = pass.a3.max_index();
        let actual = y.max_index();
        let g = self.backward(&pass, x, y, act_d);
        self.update(&g, rate);
        pred != actual
    }

    /// Trains on every sample in order and returns how many were misclassified
    /// at the moment they were trained on.
    pub fn train_epoch<F: Fn(T) -> T + Copy, G: Fn(T) -> T + Copy>(
        &mut self,
        xs: &Vec<Matrix<T, IN, 1>>,
        ys: &Vec<Matrix<T, OUT, 1>>,
        rate: T,
        act: F,
        act_d: G,
    ) -> (errors: usize)
        requires
            OUT > 0,
            xs.len() == ys.len(),
            total_arithmetic::<T>(),
            total_fn(act),
            total_fn(act_d),
        ensures
            errors <= xs.len(),
            exists|nets: Seq<Network<T, IN, HID1, HID2, OUT>>, misses: Seq<bool>|
                {
                    &&& nets.len() == xs.len() + 1
                    &&& misses.len() == xs.len()
                    &&& nets[0] == *old(self)
                    &&& nets[xs.len() as int] == *final(self)
                    &&& forall|k: int|
                        0 <= k < xs.len() ==> #[trigger] is_train_step(
                            nets[k],
                            xs@[k],
                            ys@[k],
                            rate,
                            act,
                            act_d,
                            nets[k + 1],
                            misses[k],
                        )
                    &&& errors == count_true(misses)
                },
    {
        let mut errors: usize = 0;
        let ghost mut nets = seq![*self];
        let ghost mut misses = Seq::<bool>::empty();
        for i in 0..xs.len()
            invariant
                OUT > 0,
                xs.len() == ys.len(),
                total_arithmetic::<T>(),
                total_fn(act),
                total_fn(act_d),
                nets.len() == i + 1,
                misses.len() == i,
                nets[0] == *old(self),
                nets[i as int] == *self,
                forall|k: int|
                    0 <= k < i ==> #[trigger] is_train_step(
                        nets[k],
                        xs@[k],
                        ys@[k],
                        rate,
                        act,
                        act_d,
                        nets[k + 1],
                        misses[k],
                    ),
                errors == count_true(misses),
                errors <= i,
        {
            let missed = self.train_sample(xs[i], ys[i], rate, act, act_d);
            proof {
                let ghost n0 = nets;
                let ghost m0 = misses;
                nets = nets.push(*self);
                misses = misses.push(missed);
                assert(misses.drop_last() =~= m0);
                assert forall|k: int| 0 <= k < i + 1 implies #[trigger] is_train_step(
                    nets[k],
                    xs@[k],
                    ys@[k],
                    rate,
                    act,
                    act_d,
                    nets[k + 1],
                    misses[k],
                ) by {
                    if k < i {
                        assert(nets[k] == n0[k] && nets[k + 1] == n0[k + 1] && misses[k] == m0[k]);
                    }
                }
            }
            if missed {
                errors = errors + 1;
            }
        }
        errors
    }

    /// Counts the samples whose predicted class differs from their target's,
    /// without changing the network.
    pub fn evaluate<F: Fn(T) -> T + Copy>(
        &self,
        xs: &Vec<Matrix<T, IN, 1>>,
        ys: &Vec<Matrix<T, OUT, 1>>,
        act: F,
    ) -> (errors: usize)
        requires
            OUT > 0,
            xs.len() == ys.len(),
            total_arithmetic::<T>(),
            total_fn(act),
        ensures
            errors <= xs.len(),
            exists|misses: Seq<bool>|
                {
                    &&& misses.len() == xs.len()
                    &&& forall|k: int|
                        0 <= k < xs.len() ==> #[trigger] is_miss(*self, xs@[k], ys@[k], act, misses[k])
                    &&& errors == count_true(misses)
                },
    {
        let mut errors: usize = 0;
        let ghost mut misses = Seq::<bool>::empty();
        for i in 0..xs.len()
            invariant
                OUT > 0,
                xs.len() == ys.len(),
                total_arithmetic::<T>(),
                total_fn(act),
                misses.len() == i,
                forall|k: int|
                    0 <= k < i ==> #[trigger] is_miss(*self, xs@[k], ys@[k], act, misses[k]),
                errors == count_true(misses),
                errors <= i,
        {
            let x = xs[i];
            let y = ys[i];
            let pass = self.forward(x, act);
            let missed = pass.a3.max_index() != y.max_index();
            proof {
                let ghost m0 = misses;
                misses = misses.push(missed);
                assert(misses.drop_last() =~= m0);
                assert(is_miss(*self, xs@[i as int], ys@[i as int], act, missed));
                assert forall|k: int| 0 <= k < i + 1 implies #[trigger] is_miss(
                    *self,
                    xs@[k],
                    ys@[k],
                    act,
                    misses[k],
                ) by {
                    if k < i {
                        assert(misses[k] == m0[k]);
                    }
                }
            }
            if missed {
                errors = errors + 1;
            }
        }
        errors
    }

    /// The gradients of the squared error of `pass` against the target `y`.
    pub fn backward<F: Fn(T) -> T + Copy>(
        &self,
        pass: &Pass<T, HID1, HID2, OUT>,
        x: Matrix<T, IN, 1>,
        y: Matrix<T, OUT, 1>,
        act_d: F,
    ) -> (r: Gradients<T, IN, HID1, HID2, OUT>)
        requires
            total_arithmetic::<T>(),
            total_fn(act_d),
        ensures
            is_backward(*self, *pass, x, y, act_d, r),
    {
        let diff = pass.a3.minus(y);
        let delta3 = diff.plus(diff);
        let (dz3, dw3) = layer_gradient(pass.z3, delta3, act_d, pass.a2);
        let delta2 = back_delta(self.w3, dz3);
        let (dz2, dw2) = layer_gradient(pass.z2, delta2, act_d, pass.a1);
        let delta1 = back_delta(self.w2, dz2);
        let (dz1, dw1) = layer_gradient(pass.z1, delta1, act_d, x);
        Gradients { delta3, dz3, dw3, delta2, dz2, dw2, delta1, dz1, dw1 }
    }

    /// A network with the given weights and all-default (zero) biases.
    pub fn with_weights(w1: Matrix<T, HID1, IN>, w2: Matrix<T, HID2, HID1>, w3: Matrix<T, OUT, HID2>) -> (r: Self)
        ensures
            r.w1 == w1 && r.w2 == w2 && r.w3 == w3,
            exists|v: T| #[trigger] is_default(v) && r.b1.filled_with(v),
            exists|v: T| #[trigger] is_default(v) && r.b2.filled_with(v),
            exists|v: T| #[trigger] is_default(v) && r.b3.filled_with(v),
    {
        Network { w1, b1: Matrix::new(), w2, b2: Matrix::new(), w3, b3: Matrix::new() }
    }

    /// Subtracts every gradient, scaled by `rate`, from its parameter.
    pub fn update(&mut self, g: &Gradients<T, IN, HID1, HID2, OUT>, rate: T)
        requires
            total_arithmetic::<T>(),
        ensures
            is_update(*old(self), *g, rate, *final(self)),
    {
        descend(&mut self.w3, g.dw3, rate);
        descend(&mut self.w2, g.dw2, rate);
        descend(&mut self.w1, g.dw1, rate);
        descend(&mut self.b3, g.dz3, rate);
        descend(&mut self.b2, g.dz2, rate);
        descend(&mut self.b1, g.dz1, rate);
    }
}

impl<T, const IN: usize, const HID1: usize, const HID2: usize, const OUT: usize> Network<
    T,
    IN,
    HID1,
    HID2,
    OUT,
> where T: MatrixCell<T>, rand::distributions::Standard: rand::distributions::Distribution<T> {
    /// A network whose weights are independent random draws and whose biases
    /// are all-default (zero).
    pub fn random() -> (r: Self)
        requires
            HID1 * IN <= usize::MAX,
            HID2 * HID1 <= usize::MAX,
            OUT * HID2 <= usize::MAX,
        ensures
            call_ensures(Matrix::<T, HID1, IN>::random, (), r.w1),
            call_ensures(Matrix::<T, HID2, HID1>::random, (), r.w2),
            call_ensures(Matrix::<T, OUT, HID2>::random, (), r.w3),
            exists|v: T| #[trigger] is_default(v) && r.b1.filled_with(v),
            exists|v: T| #[trigger] is_default(v) && r.b2.filled_with(v),
            exists|v: T| #[trigger] is_default(v) && r.b3.filled_with(v),
    {
        let w1 = Matrix::<T, HID1, IN>::random();
        let w2 = Matrix::<T, HID2, HID1>::random();
        let w3 = Matrix::<T, OUT, HID2>::random();
        Self::with_weights(w1, w2, w3)
    }
}

} // verus!
