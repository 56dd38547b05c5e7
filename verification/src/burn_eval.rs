//! burn as a target.
//!
//! burn computes with 32-bit floating-point numbers, which are bit patterns here. What its
//! calls do to shapes and to the order of elements is stated exactly. What its arithmetic
//! yields for an element depends on the machine and on the backend, so each operation has
//! a relation: whether burn may answer with the given bits. Signs, the rectifier and
//! clamping, which only select, are stated exactly for numbers.
//!
//! burn has no errors: where it cannot go on it panics. The evaluation of instructions
//! leaves it no reason to. Its backward pass does panic, on a root without a gradient
//! graph, so that pass is not part of this module.

use vstd::prelude::*;
use crate::autograd::Action;
use crate::matrix::{Aggregate, Elementwise, Matrix, Numerics, Pairwise};
use crate::ops::{ResolvedInstr, exponent_to_text};
use crate::shape::Shape2;

verus! {

#[verifier::external_type_specification]
#[verifier::external_body]
pub struct ExDevice(burn::tensor::Device);

/// A tensor of two dimensions that burn holds. burn's own type takes a parameter that is
/// bound by one of burn's traits.
#[verifier::external_body]
pub struct BurnTensor {
    pub inner: burn::tensor::Tensor<2>,
}

/// The dimensions of a tensor, outermost first.
pub uninterp spec fn burn_dims(t: BurnTensor) -> Seq<usize>;

/// The bit patterns of the elements of a tensor of 32-bit floating-point numbers, row by
/// row whatever its layout; none for a tensor of another element type.
pub uninterp spec fn burn_bits(t: BurnTensor) -> Seq<u32>;

/// Where a tensor lives: its device, with or without gradient tracking. Tensors work
/// together where they live at the same place.
pub uninterp spec fn burn_place(t: BurnTensor) -> int;

/// Where the tensors live that are made on a device.
pub uninterp spec fn burn_home(device: burn::tensor::Device) -> int;

/// Whether a tensor was made from data, not by an operation.
pub uninterp spec fn burn_is_leaf(t: BurnTensor) -> bool;

/// Whether burn keeps the gradient of a tensor.
pub uninterp spec fn burn_is_tracked(t: BurnTensor) -> bool;

/// The number of a tensor's node in the gradient graph.
pub uninterp spec fn burn_node(t: BurnTensor) -> int;

/// The tracked leaves, by the numbers of their nodes, that a backward pass from a tensor
/// reaches: those that the tensor was computed from. There are none where gradients are
/// not tracked.
pub uninterp spec fn burn_sources(t: BurnTensor) -> Set<int>;

/// Whether gradients are tracked at a place.
pub uninterp spec fn burn_differentiates(place: int) -> bool;

/// Whether `z` are bits that burn may give for the sum `x + y`.
pub uninterp spec fn burn_add(x: u32, y: u32, z: u32) -> bool;

/// Whether `z` are bits that burn may give for the difference `x - y`.
pub uninterp spec fn burn_sub(x: u32, y: u32, z: u32) -> bool;

/// Whether `z` are bits that burn may give for the product `x * y`.
pub uninterp spec fn burn_mul(x: u32, y: u32, z: u32) -> bool;

/// Whether `z` are bits that burn may give for the quotient `x / y`.
pub uninterp spec fn burn_div(x: u32, y: u32, z: u32) -> bool;

/// Whether `z` are bits that burn may give for the exponential of `x`.
pub uninterp spec fn burn_exp(x: u32, z: u32) -> bool;

/// Whether `z` are bits that burn may give for the natural logarithm of `x`.
pub uninterp spec fn burn_log(x: u32, z: u32) -> bool;

/// Whether `z` are bits that burn may give for the square root of `x`.
pub uninterp spec fn burn_sqrt(x: u32, z: u32) -> bool;

/// Whether `z` are bits that burn may give for the logistic function of `x`.
pub uninterp spec fn burn_sigmoid(x: u32, z: u32) -> bool;

/// Whether `z` are bits that burn may give for the hyperbolic tangent of `x`.
pub uninterp spec fn burn_tanh(x: u32, z: u32) -> bool;

/// Whether `z` are bits that burn may give for `x` to the power that is written in decimal
/// notation.
pub uninterp spec fn burn_powf(x: u32, exponent: Seq<char>, z: u32) -> bool;

/// Whether `z` are bits that burn may give for the inner product of a row and a column in
/// a matrix product.
pub uninterp spec fn burn_matmul(row: Seq<u32>, column: Seq<u32>, z: u32) -> bool;

/// Whether `z` are bits that burn may give for the sum of all elements of a tensor.
pub uninterp spec fn burn_sum(xs: Seq<u32>, z: u32) -> bool;

/// Whether `z` are bits that burn may give for the mean of all elements of a tensor.
pub uninterp spec fn burn_mean(xs: Seq<u32>, z: u32) -> bool;

/// Whether `z` are bits that burn may give for the sum along one dimension.
pub uninterp spec fn burn_sum_dim(xs: Seq<u32>, z: u32) -> bool;

/// Whether `z` are bits that burn may give for the mean along one dimension.
pub uninterp spec fn burn_mean_dim(xs: Seq<u32>, z: u32) -> bool;

impl BurnTensor {
    /// The tensor as a matrix; a tensor of another element type is none.
    pub open spec fn grid(self) -> Matrix {
        Matrix { dims: burn_dims(self), bits: burn_bits(self) }
    }
}

/// Whether a tensor is a matrix of the given shape.
pub open spec fn burn_shaped(t: BurnTensor, shape: Shape2) -> bool {
    t.grid().is_shaped(shape)
}

/// Whether `z` is the larger of `x` and zero. A NaN stays a NaN or becomes zero, and
/// negative zero becomes a zero of either sign.
pub open spec fn is_rectified(x: u32, z: u32) -> bool {
    if crate::oracle::is_nan(x) {
        crate::oracle::is_nan(z) || z == 0
    } else if x > 0x80000000 {
        z == 0
    } else if x == 0x80000000 {
        z == 0 || z == 0x80000000
    } else {
        z == x
    }
}

/// Whether `z` is `x` brought between two whole numbers. A NaN stays a NaN or becomes a
/// bound.
pub open spec fn is_limited(x: u32, min: int, max: int, z: u32) -> bool {
    ||| crate::float::is_clamped(x, min, max, z)
    ||| crate::oracle::is_nan(x) && (z == crate::float::whole_bits(min) || z
        == crate::float::whole_bits(max))
}

/// Whether `z` are bits that burn may give for the operation on `x`.
pub open spec fn burn_may_map(op: Elementwise, x: u32, z: u32) -> bool {
    match op {
        Elementwise::Neg => crate::float::is_negated(x, z),
        Elementwise::Abs => crate::float::is_absolute(x, z),
        Elementwise::Exp => burn_exp(x, z),
        Elementwise::Log => burn_log(x, z),
        Elementwise::Sqrt => burn_sqrt(x, z),
        Elementwise::Powf(exponent) => burn_powf(x, exponent, z),
        Elementwise::Relu => is_rectified(x, z),
        Elementwise::Sigmoid => burn_sigmoid(x, z),
        Elementwise::Tanh => burn_tanh(x, z),
        Elementwise::Clamp(min, max) => is_limited(x, min, max, z),
    }
}

/// Whether `z` are bits that burn may give for the operation on `x` and `y`.
pub open spec fn burn_may_combine(op: Pairwise, x: u32, y: u32, z: u32) -> bool {
    match op {
        Pairwise::Add => burn_add(x, y, z),
        Pairwise::Sub => burn_sub(x, y, z),
        Pairwise::Mul => burn_mul(x, y, z),
        Pairwise::Div => burn_div(x, y, z),
    }
}

/// Whether `z` are bits that burn may give for the operation on several elements.
pub open spec fn burn_may_aggregate(op: Aggregate, xs: Seq<u32>, z: u32) -> bool {
    match op {
        Aggregate::SumAll => burn_sum(xs, z),
        Aggregate::MeanAll => burn_mean(xs, z),
        Aggregate::SumDim => burn_sum_dim(xs, z),
        Aggregate::MeanDim => burn_mean_dim(xs, z),
    }
}

/// burn's arithmetic.
pub open spec fn burn_numerics() -> Numerics {
    Numerics {
        map: |op: Elementwise, x: u32, z: u32| burn_may_map(op, x, z),
        combine: |op: Pairwise, x: u32, y: u32, z: u32| burn_may_combine(op, x, y, z),
        product: |row: Seq<u32>, column: Seq<u32>, z: u32| burn_matmul(row, column, z),
        aggregate: |op: Aggregate, xs: Seq<u32>, z: u32| burn_may_aggregate(op, xs, z),
    }
}

/// The registers as matrices.
pub open spec fn burn_grids(regs: Seq<BurnTensor>) -> Seq<Matrix> {
    regs.map_values(|t: BurnTensor| t.grid())
}

/// A leaf itself where gradients are tracked at its place, and nothing elsewhere.
pub open spec fn own_source(t: BurnTensor) -> Set<int> {
    if burn_differentiates(burn_place(t)) {
        Set::<int>::empty().insert(burn_node(t))
    } else {
        Set::<int>::empty()
    }
}

/// Whether the node of a tensor is none of those of the registers that live at its place.
pub open spec fn burn_is_new(t: BurnTensor, regs: Seq<BurnTensor>) -> bool {
    forall|i: int|
        0 <= i < regs.len() && burn_place(#[trigger] regs[i]) == burn_place(t) ==> burn_node(
            regs[i],
        ) != burn_node(t)
}

/// The tracked leaves behind the result of an instruction: those behind its operands, but
/// none behind a power with the exponent zero.
pub open spec fn burn_operand_sources(op: ResolvedInstr, regs: Seq<BurnTensor>) -> Set<int> {
    let left = burn_sources(regs[op.left() as int]);
    match op {
        ResolvedInstr::PowfScalar(_, 0) => Set::<int>::empty(),
        _ => match op.right() {
            Some(b) => left.union(burn_sources(regs[b as int])),
            None => left,
        },
    }
}

/// Whether `z` is what burn may compute for an instruction on the registers: what the
/// instruction means, the very tensor where it passes a register on, and in the gradient
/// graph a node behind which the tracked leaves of all operands are.
pub open spec fn burn_may_compute(
    op: ResolvedInstr,
    regs: Seq<BurnTensor>,
    z: BurnTensor,
) -> bool {
    &&& crate::matrix::means(burn_numerics(), op, burn_grids(regs), z.grid())
    &&& burn_sources(z) == burn_operand_sources(op, regs)
    &&& crate::matrix::passed_on(op) matches Some(a) ==> z == regs[a as int]
}

/// Whether two matrices live at the same place and can be stretched to each other, to no
/// more elements than a register may hold.
pub open spec fn can_combine(x: BurnTensor, y: BurnTensor) -> bool {
    &&& x.grid().valid()
    &&& y.grid().valid()
    &&& burn_place(x) == burn_place(y)
    &&& x.grid().joins(y.grid())
    &&& crate::matrix::is_capped(
        crate::shape::larger(burn_dims(x)[0], burn_dims(y)[0]) as int,
        crate::shape::larger(burn_dims(x)[1], burn_dims(y)[1]) as int,
    )
}

/// `Tensor::add`, as the operator `+`: the sum of each pair of elements of two
/// matrices, a dimension of length one being stretched.
#[verifier::external_body]
fn added(x: &BurnTensor, y: &BurnTensor) -> (z: BurnTensor)
    requires
        can_combine(*x, *y),
    ensures
        burn_place(z) == burn_place(*x),
        x.grid().is_joined(y.grid(), z.grid()),
        forall|i: int, j: int|
            0 <= i < burn_dims(z)[0] && 0 <= j < burn_dims(z)[1] ==> burn_add(
                x.grid().broadcast_at(i, j),
                y.grid().broadcast_at(i, j),
                #[trigger] z.grid().at(i, j),
            ),
        burn_sources(z) == burn_sources(*x).union(burn_sources(*y)),
{
    BurnTensor { inner: x.inner.clone() + y.inner.clone() }
}

/// `Tensor::sub`, as the operator `-`: the difference of each pair of elements of two
/// matrices, a dimension of length one being stretched.
#[verifier::external_body]
fn subtracted(x: &BurnTensor, y: &BurnTensor) -> (z: BurnTensor)
    requires
        can_combine(*x, *y),
    ensures
        burn_place(z) == burn_place(*x),
        x.grid().is_joined(y.grid(), z.grid()),
        forall|i: int, j: int|
            0 <= i < burn_dims(z)[0] && 0 <= j < burn_dims(z)[1] ==> burn_sub(
                x.grid().broadcast_at(i, j),
                y.grid().broadcast_at(i, j),
                #[trigger] z.grid().at(i, j),
            ),
        burn_sources(z) == burn_sources(*x).union(burn_sources(*y)),
{
    BurnTensor { inner: x.inner.clone() - y.inner.clone() }
}

/// `Tensor::mul`, as the operator `*`: the product of each pair of elements of two
/// matrices, a dimension of length one being stretched.
#[verifier::external_body]
fn multiplied(x: &BurnTensor, y: &BurnTensor) -> (z: BurnTensor)
    requires
        can_combine(*x, *y),
    ensures
        burn_place(z) == burn_place(*x),
        x.grid().is_joined(y.grid(), z.grid()),
        forall|i: int, j: int|
            0 <= i < burn_dims(z)[0] && 0 <= j < burn_dims(z)[1] ==> burn_mul(
                x.grid().broadcast_at(i, j),
                y.grid().broadcast_at(i, j),
                #[trigger] z.grid().at(i, j),
            ),
        burn_sources(z) == burn_sources(*x).union(burn_sources(*y)),
{
    BurnTensor { inner: x.inner.clone() * y.inner.clone() }
}

/// `Tensor::div`, as the operator `/`: the quotient of each pair of elements of two
/// matrices, a dimension of length one being stretched.
#[verifier::external_body]
fn divided(x: &BurnTensor, y: &BurnTensor) -> (z: BurnTensor)
    requires
        can_combine(*x, *y),
    ensures
        burn_place(z) == burn_place(*x),
        x.grid().is_joined(y.grid(), z.grid()),
        forall|i: int, j: int|
            0 <= i < burn_dims(z)[0] && 0 <= j < burn_dims(z)[1] ==> burn_div(
                x.grid().broadcast_at(i, j),
                y.grid().broadcast_at(i, j),
                #[trigger] z.grid().at(i, j),
            ),
        burn_sources(z) == burn_sources(*x).union(burn_sources(*y)),
{
    BurnTensor { inner: x.inner.clone() / y.inner.clone() }
}

/// `Tensor::matmul`: the matrix product, each element from one row and one column.
#[verifier::external_body]
fn matmul(x: &BurnTensor, y: &BurnTensor) -> (z: BurnTensor)
    requires
        x.grid().valid(),
        y.grid().valid(),
        burn_place(*x) == burn_place(*y),
        burn_dims(*x)[1] == burn_dims(*y)[0],
        crate::matrix::is_capped(burn_dims(*x)[0] as int, burn_dims(*y)[1] as int),
    ensures
        burn_place(z) == burn_place(*x),
        z.grid().is_shaped(Shape2(burn_dims(*x)[0], burn_dims(*y)[1])),
        forall|i: int, j: int|
            0 <= i < burn_dims(z)[0] && 0 <= j < burn_dims(z)[1] ==> burn_matmul(
                x.grid().row(i),
                y.grid().column(j),
                #[trigger] z.grid().at(i, j),
            ),
        burn_sources(z) == burn_sources(*x).union(burn_sources(*y)),
{
    BurnTensor { inner: x.inner.clone().matmul(y.inner.clone()) }
}

/// `Tensor::neg`: every sign flipped.
#[verifier::external_body]
fn neg(x: &BurnTensor) -> (z: BurnTensor)
    requires
        x.grid().valid(),
    ensures
        burn_place(z) == burn_place(*x),
        x.grid().is_map(burn_numerics(), Elementwise::Neg, z.grid()),
        burn_sources(z) == burn_sources(*x),
{
    BurnTensor { inner: x.inner.clone().neg() }
}

/// `Tensor::abs`: every sign cleared.
#[verifier::external_body]
fn abs(x: &BurnTensor) -> (z: BurnTensor)
    requires
        x.grid().valid(),
    ensures
        burn_place(z) == burn_place(*x),
        x.grid().is_map(burn_numerics(), Elementwise::Abs, z.grid()),
        burn_sources(z) == burn_sources(*x),
{
    BurnTensor { inner: x.inner.clone().abs() }
}

/// `activation::relu`: the larger of each element and zero.
#[verifier::external_body]
fn relu(x: &BurnTensor) -> (z: BurnTensor)
    requires
        x.grid().valid(),
    ensures
        burn_place(z) == burn_place(*x),
        x.grid().is_map(burn_numerics(), Elementwise::Relu, z.grid()),
        burn_sources(z) == burn_sources(*x),
{
    BurnTensor { inner: burn::tensor::activation::relu(x.inner.clone()) }
}

/// `Tensor::clamp`: each element brought between two whole numbers that a 32-bit
/// floating-point number can hold.
#[verifier::external_body]
fn clamp(x: &BurnTensor, min: i64, max: i64) -> (z: BurnTensor)
    requires
        x.grid().valid(),
        -0x1000000 < min <= max < 0x1000000,
    ensures
        burn_place(z) == burn_place(*x),
        x.grid().is_map(
            burn_numerics(),
            Elementwise::Clamp(min as int, max as int),
            z.grid(),
        ),
        burn_sources(z) == burn_sources(*x),
{
    BurnTensor { inner: x.inner.clone().clamp(min, max) }
}

/// `Tensor::exp`: the exponential of each element.
#[verifier::external_body]
fn exp(x: &BurnTensor) -> (z: BurnTensor)
    requires
        x.grid().valid(),
    ensures
        burn_place(z) == burn_place(*x),
        x.grid().is_like(z.grid()),
        forall|i: int|
            0 <= i < burn_bits(z).len() ==> burn_exp(
                burn_bits(*x)[i],
                #[trigger] burn_bits(z)[i],
            ),
        burn_sources(z) == burn_sources(*x),
{
    BurnTensor { inner: x.inner.clone().exp() }
}

/// `Tensor::log`: the natural logarithm of each element.
#[verifier::external_body]
fn log(x: &BurnTensor) -> (z: BurnTensor)
    requires
        x.grid().valid(),
    ensures
        burn_place(z) == burn_place(*x),
        x.grid().is_like(z.grid()),
        forall|i: int|
            0 <= i < burn_bits(z).len() ==> burn_log(
                burn_bits(*x)[i],
                #[trigger] burn_bits(z)[i],
            ),
        burn_sources(z) == burn_sources(*x),
{
    BurnTensor { inner: x.inner.clone().log() }
}

/// `Tensor::sqrt`: the square root of each element.
#[verifier::external_body]
fn sqrt(x: &BurnTensor) -> (z: BurnTensor)
    requires
        x.grid().valid(),
    ensures
        burn_place(z) == burn_place(*x),
        x.grid().is_like(z.grid()),
        forall|i: int|
            0 <= i < burn_bits(z).len() ==> burn_sqrt(
                burn_bits(*x)[i],
                #[trigger] burn_bits(z)[i],
            ),
        burn_sources(z) == burn_sources(*x),
{
    BurnTensor { inner: x.inner.clone().sqrt() }
}

/// `activation::sigmoid`: the logistic function of each element.
#[verifier::external_body]
fn sigmoid(x: &BurnTensor) -> (z: BurnTensor)
    requires
        x.grid().valid(),
    ensures
        burn_place(z) == burn_place(*x),
        x.grid().is_like(z.grid()),
        forall|i: int|
            0 <= i < burn_bits(z).len() ==> burn_sigmoid(
                burn_bits(*x)[i],
                #[trigger] burn_bits(z)[i],
            ),
        burn_sources(z) == burn_sources(*x),
{
    BurnTensor { inner: burn::tensor::activation::sigmoid(x.inner.clone()) }
}

/// `activation::tanh`: the hyperbolic tangent of each element.
#[verifier::external_body]
fn tanh(x: &BurnTensor) -> (z: BurnTensor)
    requires
        x.grid().valid(),
    ensures
        burn_place(z) == burn_place(*x),
        x.grid().is_like(z.grid()),
        forall|i: int|
            0 <= i < burn_bits(z).len() ==> burn_tanh(
                burn_bits(*x)[i],
                #[trigger] burn_bits(z)[i],
            ),
        burn_sources(z) == burn_sources(*x),
{
    BurnTensor { inner: burn::tensor::activation::tanh(x.inner.clone()) }
}

/// `Tensor::powf_scalar`: each element to a power. The exponent comes in decimal notation
/// and is a number of halves; one so large that burn could not count it is left out. For
/// the exponent zero burn makes new ones, behind which there is no leaf.
#[verifier::external_body]
fn powf(x: &BurnTensor, exponent: &str) -> (r: Option<BurnTensor>)
    requires
        x.grid().valid(),
        exists|halves: i8| exponent@ == #[trigger] crate::ops::exponent_text(halves as int),
    ensures
        r is Some,
        r matches Some(z) ==> burn_place(z) == burn_place(*x) && x.grid().is_like(z.grid())
            && forall|i: int|
            0 <= i < burn_bits(z).len() ==> burn_powf(
                burn_bits(*x)[i],
                exponent@,
                #[trigger] burn_bits(z)[i],
            ),
        r matches Some(z) ==> burn_sources(z) == if exponent@ == crate::ops::exponent_text(0) {
            Set::<int>::empty()
        } else {
            burn_sources(*x)
        },
{
    match exponent.parse().map(burn::tensor::Scalar::Float) {
        Ok(burn::tensor::Scalar::Float(e)) => Some(
            BurnTensor { inner: x.inner.clone().powf_scalar(e) },
        ),
        _ => None,
    }
}

/// `Tensor::sum`, brought to two dimensions by `Tensor::unsqueeze`: the sum of all elements.
#[verifier::external_body]
fn sum(x: &BurnTensor) -> (z: BurnTensor)
    requires
        x.grid().valid(),
    ensures
        burn_place(z) == burn_place(*x),
        z.grid().is_shaped(Shape2(1, 1)),
        burn_sum(burn_bits(*x), burn_bits(z)[0]),
        burn_sources(z) == burn_sources(*x),
{
    BurnTensor { inner: x.inner.clone().sum().unsqueeze::<2>() }
}

/// `Tensor::sum_dim`: the sum along one dimension, which is kept with length one.
#[verifier::external_body]
fn sum_dim(x: &BurnTensor, dim: usize) -> (z: BurnTensor)
    requires
        x.grid().valid(),
        dim < 2,
    ensures
        burn_place(z) == burn_place(*x),
        x.grid().is_reduced(dim as int, z.grid()),
        forall|i: int|
            0 <= i < burn_bits(z).len() ==> burn_sum_dim(
                x.grid().lane(dim as int, i),
                #[trigger] burn_bits(z)[i],
            ),
        burn_sources(z) == burn_sources(*x),
{
    BurnTensor { inner: x.inner.clone().sum_dim(dim) }
}

/// `Tensor::mean`, brought to two dimensions by `Tensor::unsqueeze`: the mean of all elements.
#[verifier::external_body]
fn mean(x: &BurnTensor) -> (z: BurnTensor)
    requires
        x.grid().valid(),
    ensures
        burn_place(z) == burn_place(*x),
        z.grid().is_shaped(Shape2(1, 1)),
        burn_mean(burn_bits(*x), burn_bits(z)[0]),
        burn_sources(z) == burn_sources(*x),
{
    BurnTensor { inner: x.inner.clone().mean().unsqueeze::<2>() }
}

/// `Tensor::mean_dim`: the mean along one dimension, which is kept with length one.
#[verifier::external_body]
fn mean_dim(x: &BurnTensor, dim: usize) -> (z: BurnTensor)
    requires
        x.grid().valid(),
        dim < 2,
    ensures
        burn_place(z) == burn_place(*x),
        x.grid().is_reduced(dim as int, z.grid()),
        forall|i: int|
            0 <= i < burn_bits(z).len() ==> burn_mean_dim(
                x.grid().lane(dim as int, i),
                #[trigger] burn_bits(z)[i],
            ),
        burn_sources(z) == burn_sources(*x),
{
    BurnTensor { inner: x.inner.clone().mean_dim(dim) }
}

/// `Tensor::transpose`: rows and columns exchanged.
#[verifier::external_body]
fn transpose(x: &BurnTensor) -> (z: BurnTensor)
    requires
        x.grid().valid(),
    ensures
        burn_place(z) == burn_place(*x),
        x.grid().is_transposed(z.grid()),
        burn_sources(z) == burn_sources(*x),
{
    BurnTensor { inner: x.inner.clone().transpose() }
}

/// `Tensor::cat` of two matrices along a dimension: the second after the first.
#[verifier::external_body]
fn cat(x: &BurnTensor, y: &BurnTensor, dim: usize) -> (z: BurnTensor)
    requires
        x.grid().valid(),
        y.grid().valid(),
        burn_place(*x) == burn_place(*y),
        dim < 2,
        dim == 0 ==> burn_dims(*x)[1] == burn_dims(*y)[1],
        dim == 1 ==> burn_dims(*x)[0] == burn_dims(*y)[0],
        dim == 0 ==> crate::matrix::is_capped(
            burn_dims(*x)[0] + burn_dims(*y)[0],
            burn_dims(*x)[1] as int,
        ),
        dim == 1 ==> crate::matrix::is_capped(
            burn_dims(*x)[0] as int,
            burn_dims(*x)[1] + burn_dims(*y)[1],
        ),
    ensures
        burn_place(z) == burn_place(*x),
        x.grid().is_concatenation(y.grid(), dim as int, z.grid()),
        burn_sources(z) == burn_sources(*x).union(burn_sources(*y)),
{
    BurnTensor { inner: burn::tensor::Tensor::cat(vec![x.inner.clone(), y.inner.clone()], dim) }
}

/// `Tensor::repeat_dim`: copies of a matrix, one after the other along a dimension.
#[verifier::external_body]
fn repeat_dim(x: &BurnTensor, dim: usize, count: usize) -> (z: BurnTensor)
    requires
        x.grid().valid(),
        dim < 2,
        count >= 1,
        dim == 0 ==> crate::matrix::is_capped(burn_dims(*x)[0] * count, burn_dims(*x)[1] as int),
        dim == 1 ==> crate::matrix::is_capped(burn_dims(*x)[0] as int, burn_dims(*x)[1] * count),
    ensures
        burn_place(z) == burn_place(*x),
        dim == 0 ==> x.grid().is_tiled(count as int, 1, z.grid()),
        dim == 1 ==> x.grid().is_tiled(1, count as int, z.grid()),
        burn_sources(z) == burn_sources(*x),
{
    BurnTensor { inner: x.inner.clone().repeat_dim(dim, count) }
}

/// `Tensor::clone`: the same tensor once more, its node in the gradient graph and all.
#[verifier::external_body]
fn share(x: &BurnTensor) -> (z: BurnTensor)
    ensures
        z == *x,
{
    BurnTensor { inner: x.inner.clone() }
}

/// `Tensor::from_data` with 32-bit floating-point elements: a matrix with the given
/// elements, row by row. Where gradients are tracked it is a node of its own, so its number
/// is that of no tensor that there is already.
#[verifier::external_body]
fn from_bits(
    bits: &[u32],
    shape: Shape2,
    device: &burn::tensor::Device,
    known: &[BurnTensor],
) -> (t: BurnTensor)
    requires
        shape.valid(),
        bits.len() == shape.0 * shape.1,
    ensures
        burn_place(t) == burn_home(*device),
        burn_shaped(t, shape),
        burn_bits(t) == bits@,
        burn_is_leaf(t),
        burn_sources(t) == Set::<int>::empty(),
        burn_differentiates(burn_home(*device)) ==> burn_is_new(t, known@),
{
    let bytes: Vec<u8> = bits.iter().flat_map(|b| b.to_ne_bytes()).collect();
    let kind = burn::tensor::DType::F32;
    let data = burn::tensor::TensorData::from_bytes_vec(bytes, [shape.0, shape.1], kind);
    BurnTensor { inner: burn::tensor::Tensor::from_data(data, (device, kind)) }
}

/// `Tensor::require_grad`: the same matrix and the same node, whose gradient is kept where
/// gradients are tracked.
#[verifier::external_body]
fn track(x: &BurnTensor) -> (t: BurnTensor)
    requires
        burn_is_leaf(*x),
    ensures
        burn_place(t) == burn_place(*x),
        t.grid() == x.grid(),
        burn_node(t) == burn_node(*x),
        burn_is_tracked(t) == burn_differentiates(burn_place(*x)),
        burn_sources(t) == own_source(t),
{
    BurnTensor { inner: x.inner.clone().require_grad() }
}

/// `Tensor::into_data`: the elements of a matrix, row by row whatever its layout.
#[verifier::external_body]
fn to_bits(t: &BurnTensor) -> (r: Vec<u32>)
    requires
        t.grid().valid(),
    ensures
        r@ == burn_bits(*t),
{
    let data = t.inner.clone().into_data();
    let words = data.as_bytes().chunks_exact(4);
    words.map(|b| u32::from_ne_bytes([b[0], b[1], b[2], b[3]])).collect()
}

/// Evaluate one instruction on the registers with the meaning that every target gives it.
/// The registers live at one place: burn panics where it is to combine tensors of two
/// devices, or one that tracks gradients with one that does not.
pub fn compute_burn(regs: &[BurnTensor], shapes: &[Shape2], op: &ResolvedInstr) -> (r: BurnTensor)
    requires
        regs.len() == shapes.len(),
        forall|i: int| 0 <= i < shapes.len() ==> (#[trigger] shapes@[i]).valid(),
        forall|i: int| 0 <= i < regs.len() ==> burn_shaped(#[trigger] regs@[i], shapes@[i]),
        forall|i: int| 0 <= i < regs.len() ==> burn_place(#[trigger] regs@[i]) == burn_place(
            regs@[0],
        ),
        op.legal(shapes@),
        op.fits(shapes@),
        op.out_shape(shapes@).valid(),
    ensures
        burn_may_compute(*op, regs@, r),
        burn_shaped(r, op.out_shape(shapes@)),
        burn_place(r) == burn_place(regs@[0]),
{
    match *op {
        ResolvedInstr::Add(a, b) => added(&regs[a], &regs[b]),
        ResolvedInstr::Sub(a, b) => subtracted(&regs[a], &regs[b]),
        ResolvedInstr::Mul(a, b) => multiplied(&regs[a], &regs[b]),
        ResolvedInstr::Div(a, b) => divided(&regs[a], &regs[b]),
        ResolvedInstr::Matmul(a, b) => matmul(&regs[a], &regs[b]),
        ResolvedInstr::MatmulPassthrough(a) | ResolvedInstr::ConcatPassthrough(a) => share(
            &regs[a],
        ),
        ResolvedInstr::Neg(a) => neg(&regs[a]),
        ResolvedInstr::Abs(a) => abs(&regs[a]),
        ResolvedInstr::Exp(a) => exp(&regs[a]),
        ResolvedInstr::Log(a) => log(&regs[a]),
        ResolvedInstr::Sqrt(a) => sqrt(&regs[a]),
        ResolvedInstr::PowfScalar(a, halves) => {
            proof {
                crate::ops::only_zero_is_written_as_zero(halves as int);
            }
            powf(&regs[a], exponent_to_text(halves).as_str()).unwrap()
        },
        ResolvedInstr::Relu(a) => relu(&regs[a]),
        ResolvedInstr::Sigmoid(a) => sigmoid(&regs[a]),
        ResolvedInstr::Tanh(a) => tanh(&regs[a]),
        ResolvedInstr::SumAll(a) => sum(&regs[a]),
        ResolvedInstr::MeanAll(a) => mean(&regs[a]),
        ResolvedInstr::SumDim(a, dim) => sum_dim(&regs[a], dim),
        ResolvedInstr::MeanDim(a, dim) => mean_dim(&regs[a], dim),
        ResolvedInstr::Transpose(a) => transpose(&regs[a]),
        ResolvedInstr::Concat(a, b, dim) => cat(&regs[a], &regs[b], dim),
        ResolvedInstr::Repeat(a, dim, count) => repeat_dim(&regs[a], dim, count),
        ResolvedInstr::Clamp(a) => clamp(&regs[a], -1000000, 1000000),
    }
}

/// burn on one of its devices.
pub struct Burn {
    pub device: burn::tensor::Device,
}

impl Burn {
    /// Build a plain input from the bit patterns of its elements, row by row.
    pub fn input(&self, data: &[u32], shape: Shape2) -> (t: BurnTensor)
        requires
            shape.valid(),
            data.len() == shape.0 * shape.1,
        ensures
            burn_shaped(t, shape),
            burn_bits(t) == data@,
            burn_place(t) == burn_home(self.device),
            burn_sources(t) == Set::<int>::empty(),
    {
        let none: Vec<BurnTensor> = Vec::new();
        from_bits(data, shape, &self.device, none.as_slice())
    }

    /// Build a leaf beside the registers that there are. Its gradient is kept where the
    /// device tracks gradients, at a node that is none of theirs.
    pub fn leaf(&self, regs: &[BurnTensor], data: &[u32], shape: Shape2) -> (t: BurnTensor)
        requires
            shape.valid(),
            data.len() == shape.0 * shape.1,
        ensures
            burn_shaped(t, shape),
            burn_bits(t) == data@,
            burn_place(t) == burn_home(self.device),
            burn_is_tracked(t) == burn_differentiates(burn_home(self.device)),
            burn_sources(t) == own_source(t),
            burn_differentiates(burn_home(self.device)) ==> burn_is_new(t, regs@),
    {
        track(&from_bits(data, shape, &self.device, regs))
    }

    /// Refer to a register once more. Both have one node in the gradient graph.
    pub fn alias(&self, tensor: &BurnTensor) -> (t: BurnTensor)
        ensures
            t == *tensor,
    {
        share(tensor)
    }

    /// Read a matrix out row by row, as the bit patterns of its elements.
    pub fn to_vec(&self, tensor: &BurnTensor) -> (r: Vec<u32>)
        requires
            tensor.grid().valid(),
        ensures
            r@ == burn_bits(*tensor),
    {
        to_bits(tensor)
    }
}

/// Whether burn computes register `r` from the leaf: as the program does, but that a power
/// with the exponent zero is computed from nothing.
pub open spec fn burn_depends_on(actions: Seq<Action>, r: int, leaf: int) -> bool
    decreases r,
{
    match actions[r] {
        Action::Leaf { .. } => r == leaf,
        Action::Alias(src) => src < r && burn_depends_on(actions, src as int, leaf),
        Action::Eval(_, ResolvedInstr::PowfScalar(_, 0)) => false,
        Action::Eval(_, op) => {
            ||| op.left() < r && burn_depends_on(actions, op.left() as int, leaf)
            ||| op.right() matches Some(b) && b < r && burn_depends_on(actions, b as int, leaf)
        },
    }
}

/// Whether `z` is a register that burn makes of the action among the earlier ones: a new
/// leaf, the very tensor that an alias refers to, or what an instruction computes.
pub open spec fn burn_may_make(action: Action, regs: Seq<BurnTensor>, z: BurnTensor) -> bool {
    match action {
        Action::Leaf { .. } => burn_sources(z) == own_source(z) && burn_is_new(z, regs),
        Action::Alias(src) => src < regs.len() && z == regs[src as int],
        Action::Eval(_, op) => {
            &&& op.left() < regs.len()
            &&& op.right() matches Some(b) ==> b < regs.len()
            &&& burn_may_compute(op, regs, z)
        },
    }
}

/// Where burn tracks gradients, the tracked leaves behind a register are those that it is
/// computed from, and no other, whatever the actions are.
pub proof fn burn_sources_are_the_dependences(
    actions: Seq<Action>,
    regs: Seq<BurnTensor>,
    place: int,
    r: int,
    leaf: int,
)
    requires
        regs.len() == actions.len(),
        burn_differentiates(place),
        forall|i: int| 0 <= i < regs.len() ==> burn_place(#[trigger] regs[i]) == place,
        forall|i: int|
            0 <= i < regs.len() ==> burn_may_make(#[trigger] actions[i], regs.take(i), regs[i]),
        0 <= r < regs.len(),
        0 <= leaf < regs.len(),
        actions[leaf] is Leaf,
    ensures
        burn_sources(regs[r]).contains(burn_node(regs[leaf])) <==> burn_depends_on(
            actions,
            r,
            leaf,
        ),
    decreases r,
{
    let before = regs.take(r);
    assert(burn_may_make(actions[r], before, regs[r]));
    match actions[r] {
        Action::Leaf { .. } => {
            if leaf < r {
                assert(before[leaf] == regs[leaf]);
                assert(burn_place(before[leaf]) == place);
            } else if leaf > r {
                assert(burn_may_make(actions[leaf], regs.take(leaf), regs[leaf]));
                assert(regs.take(leaf)[r] == regs[r]);
                assert(burn_place(regs.take(leaf)[r]) == place);
            }
        },
        Action::Alias(src) => {
            assert(before[src as int] == regs[src as int]);
            burn_sources_are_the_dependences(actions, regs, place, src as int, leaf);
        },
        Action::Eval(_, op) => {
            let a = op.left() as int;
            assert(before[a] == regs[a]);
            burn_sources_are_the_dependences(actions, regs, place, a, leaf);
            if let Some(b) = op.right() {
                assert(before[b as int] == regs[b as int]);
                burn_sources_are_the_dependences(actions, regs, place, b as int, leaf);
            }
        },
    }
}

/// burn computes a register from no leaf that the program does not compute it from, and
/// from the same leaves where no power with the exponent zero is before it.
pub proof fn burn_depends_as_the_program_does(actions: Seq<Action>, r: int, leaf: int)
    ensures
        burn_depends_on(actions, r, leaf) ==> crate::autograd::depends_on(actions, r, leaf),
        (forall|i: int|
            0 <= i <= r ==> !((#[trigger] actions[i]) matches Action::Eval(
                _,
                ResolvedInstr::PowfScalar(_, 0),
            ))) ==> burn_depends_on(actions, r, leaf) == crate::autograd::depends_on(
            actions,
            r,
            leaf,
        ),
    decreases r,
{
    match actions[r] {
        Action::Leaf { .. } => {},
        Action::Alias(src) => {
            if src < r {
                burn_depends_as_the_program_does(actions, src as int, leaf);
            }
        },
        Action::Eval(_, op) => {
            if op.left() < r {
                burn_depends_as_the_program_does(actions, op.left() as int, leaf);
            }
            if let Some(b) = op.right() {
                if b < r {
                    burn_depends_as_the_program_does(actions, b as int, leaf);
                }
            }
        },
    }
}

/// burn and candle agree bit for bit on an instruction that only moves elements.
pub proof fn burn_and_candle_agree_on_moves(
    op: ResolvedInstr,
    left: Seq<BurnTensor>,
    right: Seq<crate::candle::CandleTensor>,
    x: BurnTensor,
    z: candle_core::Tensor,
)
    requires
        crate::matrix::only_moves(op),
        burn_grids(left) == crate::candle::grids(right),
        burn_may_compute(op, left, x),
        crate::candle::may_compute(op, right, z),
    ensures
        burn_bits(x) == crate::candle::candle_bits(z),
        burn_dims(x) == crate::candle::candle_dims(z),
{
    crate::matrix::targets_agree_on_moves(
        burn_numerics(),
        crate::candle::candle_numerics(),
        op,
        burn_grids(left),
        x.grid(),
        crate::candle::grid(z),
    );
}

/// Which arithmetic of burn stands behind each operation: burn's own answer where the
/// arithmetic rounds, and where it does not the sign changed, the sign taken away, zero for
/// what is negative, and the bound for what lies beyond it.
pub proof fn burn_answers_each_operation_by_its_own(
    x: u32,
    y: u32,
    xs: Seq<u32>,
    ys: Seq<u32>,
    exponent: Seq<char>,
    z: u32,
)
    ensures
        ({
            let n = burn_numerics();
            &&& (n.combine)(Pairwise::Add, x, y, z) == burn_add(x, y, z)
            &&& (n.combine)(Pairwise::Sub, x, y, z) == burn_sub(x, y, z)
            &&& (n.combine)(Pairwise::Mul, x, y, z) == burn_mul(x, y, z)
            &&& (n.combine)(Pairwise::Div, x, y, z) == burn_div(x, y, z)
            &&& (n.product)(xs, ys, z) == burn_matmul(xs, ys, z)
            &&& (n.map)(Elementwise::Exp, x, z) == burn_exp(x, z)
            &&& (n.map)(Elementwise::Log, x, z) == burn_log(x, z)
            &&& (n.map)(Elementwise::Sqrt, x, z) == burn_sqrt(x, z)
            &&& (n.map)(Elementwise::Sigmoid, x, z) == burn_sigmoid(x, z)
            &&& (n.map)(Elementwise::Tanh, x, z) == burn_tanh(x, z)
            &&& (n.map)(Elementwise::Powf(exponent), x, z) == burn_powf(x, exponent, z)
            &&& (n.aggregate)(Aggregate::SumAll, xs, z) == burn_sum(xs, z)
            &&& (n.aggregate)(Aggregate::MeanAll, xs, z) == burn_mean(xs, z)
            &&& (n.aggregate)(Aggregate::SumDim, xs, z) == burn_sum_dim(xs, z)
            &&& (n.aggregate)(Aggregate::MeanDim, xs, z) == burn_mean_dim(xs, z)
        }),
{
}

/// What burn makes of an element that is no NaN, by its bits, where nothing is rounded.
pub proof fn burn_is_exact_where_nothing_is_rounded(x: u32, z: u32)
    requires
        !crate::oracle::is_nan(x),
    ensures
        ({
            let n = burn_numerics();
            let size = x as int % 2147483648;
            &&& (n.map)(Elementwise::Neg, x, z) <==> z as int % 2147483648 == size && z != x
            &&& (n.map)(Elementwise::Abs, x, z) <==> z == size
            &&& x < 2147483648 ==> ((n.map)(Elementwise::Relu, x, z) <==> z == x)
            &&& x > 2147483648 ==> ((n.map)(Elementwise::Relu, x, z) <==> z == 0)
            &&& x == 2147483648 ==> ((n.map)(Elementwise::Relu, x, z) <==> z as int % 2147483648
                == 0)
            &&& (n.map)(Elementwise::Clamp(-1000000, 1000000), x, z) <==> {
                &&& size <= 0x49742400 ==> z == x
                &&& size > 0x49742400 && x < 2147483648 ==> z == 0x49742400
                &&& size > 0x49742400 && x >= 2147483648 ==> z == 0x49742400 + 2147483648
            }
        }),
{
    crate::float::signs_are_the_highest_bit(x, z);
    if crate::float::is_clamped(x, -1000000, 1000000, z) {
        crate::float::a_million_bounds_what_is_clamped(x, z);
    }
    crate::float::whole_numbers_are_exact(1000000);
    reveal_with_fuel(crate::float::scaled, 6);
}

/// What burn computes for an instruction is what the instruction means by burn's arithmetic;
/// behind it in the gradient graph is exactly what is behind its operands, but nothing
/// behind a power with the exponent zero; and a passthrough is the tensor itself.
pub proof fn burn_computes_what_is_meant(
    op: ResolvedInstr,
    regs: Seq<BurnTensor>,
    z: BurnTensor,
    source: int,
)
    requires
        burn_may_compute(op, regs, z),
        op.left() < regs.len(),
        op.right() matches Some(b) ==> b < regs.len(),
    ensures
        crate::matrix::means(burn_numerics(), op, burn_grids(regs), z.grid()),
        burn_grids(regs).len() == regs.len(),
        forall|i: int|
            0 <= i < regs.len() ==> (#[trigger] burn_grids(regs)[i]).dims == burn_dims(regs[i])
                && burn_grids(regs)[i].bits == burn_bits(regs[i]),
        ({
            let flat = op is PowfScalar && op->PowfScalar_1 == 0;
            burn_sources(z).contains(source) <==> !flat && (burn_sources(
                regs[op.left() as int],
            ).contains(source) || (op.right() is Some && burn_sources(
                regs[op.right()->Some_0 as int],
            ).contains(source)))
        }),
        op is MatmulPassthrough || op is ConcatPassthrough ==> z == regs[op.left() as int],
{
}

} // verus!
