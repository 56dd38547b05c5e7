//! candle as a target.
//!
//! candle computes with 32-bit floating-point numbers, which are bit patterns here.
//! What its calls do to shapes and to the order of elements is stated exactly. What
//! its arithmetic yields for an element depends on the machine, so each operation
//! has a relation: whether candle may answer with the given bits. Signs, the rectifier
//! and clamping, which only select, are stated exactly.

use vstd::prelude::*;
use vstd::string::*;
use crate::driver::Framework;
use crate::matrix::{Aggregate, Elementwise, Matrix, Numerics, Pairwise};
use crate::ops::{ResolvedInstr, TensorInstr, exponent_to_text, reg_to_text};
use crate::shape::Shape2;

verus! {

#[verifier::external_type_specification]
#[verifier::external_body]
pub struct ExTensor(candle_core::Tensor);

#[verifier::external_type_specification]
#[verifier::external_body]
pub struct ExError(candle_core::Error);

#[verifier::external_type_specification]
#[verifier::external_body]
pub struct ExGradStore(candle_core::backprop::GradStore);

/// The dimensions of a tensor, outermost first.
pub uninterp spec fn candle_dims(t: candle_core::Tensor) -> Seq<usize>;

/// The bit patterns of the elements of a tensor of 32-bit floating-point numbers in main
/// memory, row by row whatever its layout; none for a tensor of another element type or
/// on another device.
pub uninterp spec fn candle_bits(t: candle_core::Tensor) -> Seq<u32>;

/// The number of a tensor's node in the gradient graph.
pub uninterp spec fn candle_node(t: candle_core::Tensor) -> int;

/// Whether a tensor is a variable, at which the backward pass leaves a gradient.
pub uninterp spec fn candle_is_variable(t: candle_core::Tensor) -> bool;

/// The variables, by the numbers of their nodes, that a backward pass from a tensor
/// reaches: those that the tensor was computed from.
pub uninterp spec fn candle_sources(t: candle_core::Tensor) -> Set<int>;

/// The gradients of a store, each under the number of its node: the bit patterns of
/// the elements, row by row.
pub uninterp spec fn candle_gradients(grads: candle_core::backprop::GradStore) -> Map<
    int,
    Seq<u32>,
>;

/// Whether `z` are bits that candle may give for the sum `x + y`.
pub uninterp spec fn candle_add(x: u32, y: u32, z: u32) -> bool;

/// Whether `z` are bits that candle may give for the difference `x - y`.
pub uninterp spec fn candle_sub(x: u32, y: u32, z: u32) -> bool;

/// Whether `z` are bits that candle may give for the product `x * y`.
pub uninterp spec fn candle_mul(x: u32, y: u32, z: u32) -> bool;

/// Whether `z` are bits that candle may give for the quotient `x / y`.
pub uninterp spec fn candle_div(x: u32, y: u32, z: u32) -> bool;

/// Whether `z` are bits that candle may give for the exponential of `x`.
pub uninterp spec fn candle_exp(x: u32, z: u32) -> bool;

/// Whether `z` are bits that candle may give for the natural logarithm of `x`.
pub uninterp spec fn candle_log(x: u32, z: u32) -> bool;

/// Whether `z` are bits that candle may give for the square root of `x`.
pub uninterp spec fn candle_sqrt(x: u32, z: u32) -> bool;

/// Whether `z` are bits that candle may give for the logistic function of `x`.
pub uninterp spec fn candle_sigmoid(x: u32, z: u32) -> bool;

/// Whether `z` are bits that candle may give for the hyperbolic tangent of `x`.
pub uninterp spec fn candle_tanh(x: u32, z: u32) -> bool;

/// Whether `z` are bits that candle may give for `x` to the power that is written in
/// decimal notation.
pub uninterp spec fn candle_powf(x: u32, exponent: Seq<char>, z: u32) -> bool;

/// Whether `z` are bits that candle may give for the inner product of a row and a
/// column in a matrix product.
pub uninterp spec fn candle_matmul(row: Seq<u32>, column: Seq<u32>, z: u32) -> bool;

/// Whether `z` are bits that candle may give for the sum of all elements of a tensor.
pub uninterp spec fn candle_sum_all(xs: Seq<u32>, z: u32) -> bool;

/// Whether `z` are bits that candle may give for the mean of all elements of a tensor.
pub uninterp spec fn candle_mean_all(xs: Seq<u32>, z: u32) -> bool;

/// Whether `z` are bits that candle may give for the sum along one dimension.
pub uninterp spec fn candle_sum_keepdim(xs: Seq<u32>, z: u32) -> bool;

/// Whether `z` are bits that candle may give for the mean along one dimension.
pub uninterp spec fn candle_mean_keepdim(xs: Seq<u32>, z: u32) -> bool;

/// Whether `grads` are gradients that candle may give for a backward pass from the
/// node, seeded with ones.
pub uninterp spec fn candle_backward(root: int, grads: Map<int, Seq<u32>>) -> bool;

/// A store that holds ones in the shape of a tensor, under the tensor's node, and
/// nothing else.
pub open spec fn seed_alone(root: candle_core::Tensor) -> Map<int, Seq<u32>> {
    Map::empty().insert(
        candle_node(root),
        Seq::new(candle_bits(root).len(), |i: int| 0x3f800000u32),
    )
}

/// Whether the node of a tensor is none of those of the registers.
pub open spec fn is_new(t: candle_core::Tensor, regs: Seq<CandleTensor>) -> bool {
    forall|i: int|
        0 <= i < regs.len() ==> candle_node((#[trigger] regs[i]).tensor()) != candle_node(t)
}

/// Whether, of all variables, the gradients are there of those that the root was computed
/// from, and of no other.
pub open spec fn holds_what_is_reached(
    root: candle_core::Tensor,
    gradients: Map<int, Seq<u32>>,
) -> bool {
    forall|v: candle_core::Tensor|
        candle_is_variable(v) ==> (gradients.contains_key(#[trigger] candle_node(v))
            <==> candle_sources(root).contains(candle_node(v)))
}

/// A tensor of 32-bit floating-point numbers in main memory as a matrix; a tensor of
/// another kind is none.
pub open spec fn grid(t: candle_core::Tensor) -> Matrix {
    Matrix { dims: candle_dims(t), bits: candle_bits(t) }
}

/// Whether `z` is the larger of `x` and zero. A NaN becomes zero, and negative zero
/// becomes a zero of either sign.
pub open spec fn is_rectified(x: u32, z: u32) -> bool {
    if crate::oracle::is_nan(x) || x > 0x80000000 {
        z == 0
    } else if x == 0x80000000 {
        z == 0 || z == 0x80000000
    } else {
        z == x
    }
}

/// Whether `z` are bits that candle may give for the operation on `x`.
pub open spec fn may_map(op: Elementwise, x: u32, z: u32) -> bool {
    match op {
        Elementwise::Neg => crate::float::is_negated(x, z),
        Elementwise::Abs => crate::float::is_absolute(x, z),
        Elementwise::Exp => candle_exp(x, z),
        Elementwise::Log => candle_log(x, z),
        Elementwise::Sqrt => candle_sqrt(x, z),
        Elementwise::Powf(exponent) => candle_powf(x, exponent, z),
        Elementwise::Relu => is_rectified(x, z),
        Elementwise::Sigmoid => candle_sigmoid(x, z),
        Elementwise::Tanh => candle_tanh(x, z),
        Elementwise::Clamp(min, max) => crate::float::is_clamped(x, min, max, z),
    }
}

/// Whether `z` are bits that candle may give for the operation on `x` and `y`.
pub open spec fn may_combine(op: Pairwise, x: u32, y: u32, z: u32) -> bool {
    match op {
        Pairwise::Add => candle_add(x, y, z),
        Pairwise::Sub => candle_sub(x, y, z),
        Pairwise::Mul => candle_mul(x, y, z),
        Pairwise::Div => candle_div(x, y, z),
    }
}

/// Whether `z` are bits that candle may give for the operation on several elements.
pub open spec fn may_aggregate(op: Aggregate, xs: Seq<u32>, z: u32) -> bool {
    match op {
        Aggregate::SumAll => candle_sum_all(xs, z),
        Aggregate::MeanAll => candle_mean_all(xs, z),
        Aggregate::SumDim => candle_sum_keepdim(xs, z),
        Aggregate::MeanDim => candle_mean_keepdim(xs, z),
    }
}

/// candle's arithmetic.
pub open spec fn candle_numerics() -> Numerics {
    Numerics {
        map: |op: Elementwise, x: u32, z: u32| may_map(op, x, z),
        combine: |op: Pairwise, x: u32, y: u32, z: u32| may_combine(op, x, y, z),
        product: |row: Seq<u32>, column: Seq<u32>, z: u32| candle_matmul(row, column, z),
        aggregate: |op: Aggregate, xs: Seq<u32>, z: u32| may_aggregate(op, xs, z),
    }
}

/// The registers as matrices.
pub open spec fn grids(regs: Seq<CandleTensor>) -> Seq<Matrix> {
    regs.map_values(|t: CandleTensor| grid(t.tensor()))
}

/// The variables that the operands of an instruction were computed from.
pub open spec fn operand_sources(op: ResolvedInstr, regs: Seq<CandleTensor>) -> Set<int> {
    let left = candle_sources(regs[op.left() as int].tensor());
    match op.right() {
        Some(b) => left.union(candle_sources(regs[b as int].tensor())),
        None => left,
    }
}

/// Whether `z` is what candle may compute for an instruction on the registers: what the
/// instruction means, the very tensor where it passes a register on, and in the gradient
/// graph a node behind which the variables of all operands are.
pub open spec fn may_compute(
    op: ResolvedInstr,
    regs: Seq<CandleTensor>,
    z: candle_core::Tensor,
) -> bool {
    &&& crate::matrix::means(candle_numerics(), op, grids(regs), grid(z))
    &&& candle_sources(z) == operand_sources(op, regs)
    &&& crate::matrix::passed_on(op) matches Some(a) ==> z == regs[a as int].tensor()
}

/// `Tensor::broadcast_add`: the sum of each pair of elements of two matrices, a
/// dimension of length one being stretched.
/// It succeeds exactly where the dimensions can be stretched to each other.
#[verifier::external_body]
fn broadcast_add(x: &candle_core::Tensor, y: &candle_core::Tensor) -> (r: Result<
    candle_core::Tensor,
    candle_core::Error,
>)
    requires
        grid(*x).valid(),
        grid(*y).valid(),
        crate::matrix::is_capped(
            crate::shape::larger(candle_dims(*x)[0], candle_dims(*y)[0]) as int,
            crate::shape::larger(candle_dims(*x)[1], candle_dims(*y)[1]) as int,
        ),
    ensures
        r is Ok <==> grid(*x).joins(grid(*y)),
        r matches Ok(z) ==> grid(*x).is_joined(grid(*y), grid(z)) && forall|i: int, j: int|
            0 <= i < candle_dims(z)[0] && 0 <= j < candle_dims(z)[1] ==> candle_add(
                grid(*x).broadcast_at(i, j),
                grid(*y).broadcast_at(i, j),
                #[trigger] grid(z).at(i, j),
            ),
        r matches Ok(z) ==> candle_sources(z) == candle_sources(*x).union(candle_sources(*y)),
{
    x.broadcast_add(y)
}

/// `Tensor::broadcast_sub`: the difference of each pair of elements of two matrices, a
/// dimension of length one being stretched.
/// It succeeds exactly where the dimensions can be stretched to each other.
#[verifier::external_body]
fn broadcast_sub(x: &candle_core::Tensor, y: &candle_core::Tensor) -> (r: Result<
    candle_core::Tensor,
    candle_core::Error,
>)
    requires
        grid(*x).valid(),
        grid(*y).valid(),
        crate::matrix::is_capped(
            crate::shape::larger(candle_dims(*x)[0], candle_dims(*y)[0]) as int,
            crate::shape::larger(candle_dims(*x)[1], candle_dims(*y)[1]) as int,
        ),
    ensures
        r is Ok <==> grid(*x).joins(grid(*y)),
        r matches Ok(z) ==> grid(*x).is_joined(grid(*y), grid(z)) && forall|i: int, j: int|
            0 <= i < candle_dims(z)[0] && 0 <= j < candle_dims(z)[1] ==> candle_sub(
                grid(*x).broadcast_at(i, j),
                grid(*y).broadcast_at(i, j),
                #[trigger] grid(z).at(i, j),
            ),
        r matches Ok(z) ==> candle_sources(z) == candle_sources(*x).union(candle_sources(*y)),
{
    x.broadcast_sub(y)
}

/// `Tensor::broadcast_mul`: the product of each pair of elements of two matrices, a
/// dimension of length one being stretched.
/// It succeeds exactly where the dimensions can be stretched to each other.
#[verifier::external_body]
fn broadcast_mul(x: &candle_core::Tensor, y: &candle_core::Tensor) -> (r: Result<
    candle_core::Tensor,
    candle_core::Error,
>)
    requires
        grid(*x).valid(),
        grid(*y).valid(),
        crate::matrix::is_capped(
            crate::shape::larger(candle_dims(*x)[0], candle_dims(*y)[0]) as int,
            crate::shape::larger(candle_dims(*x)[1], candle_dims(*y)[1]) as int,
        ),
    ensures
        r is Ok <==> grid(*x).joins(grid(*y)),
        r matches Ok(z) ==> grid(*x).is_joined(grid(*y), grid(z)) && forall|i: int, j: int|
            0 <= i < candle_dims(z)[0] && 0 <= j < candle_dims(z)[1] ==> candle_mul(
                grid(*x).broadcast_at(i, j),
                grid(*y).broadcast_at(i, j),
                #[trigger] grid(z).at(i, j),
            ),
        r matches Ok(z) ==> candle_sources(z) == candle_sources(*x).union(candle_sources(*y)),
{
    x.broadcast_mul(y)
}

/// `Tensor::broadcast_div`: the quotient of each pair of elements of two matrices, a
/// dimension of length one being stretched.
/// It succeeds exactly where the dimensions can be stretched to each other.
#[verifier::external_body]
fn broadcast_div(x: &candle_core::Tensor, y: &candle_core::Tensor) -> (r: Result<
    candle_core::Tensor,
    candle_core::Error,
>)
    requires
        grid(*x).valid(),
        grid(*y).valid(),
        crate::matrix::is_capped(
            crate::shape::larger(candle_dims(*x)[0], candle_dims(*y)[0]) as int,
            crate::shape::larger(candle_dims(*x)[1], candle_dims(*y)[1]) as int,
        ),
    ensures
        r is Ok <==> grid(*x).joins(grid(*y)),
        r matches Ok(z) ==> grid(*x).is_joined(grid(*y), grid(z)) && forall|i: int, j: int|
            0 <= i < candle_dims(z)[0] && 0 <= j < candle_dims(z)[1] ==> candle_div(
                grid(*x).broadcast_at(i, j),
                grid(*y).broadcast_at(i, j),
                #[trigger] grid(z).at(i, j),
            ),
        r matches Ok(z) ==> candle_sources(z) == candle_sources(*x).union(candle_sources(*y)),
{
    x.broadcast_div(y)
}

/// `Tensor::contiguous`: the same matrix in row-major memory.
/// It succeeds on every matrix.
#[verifier::external_body]
fn contiguous(x: &candle_core::Tensor) -> (r: Result<candle_core::Tensor, candle_core::Error>)
    requires
        grid(*x).valid(),
    ensures
        r is Ok,
        r matches Ok(z) ==> grid(*x).is_like(grid(z)) && candle_bits(z) == candle_bits(*x),
        r matches Ok(z) ==> candle_sources(z) == candle_sources(*x),
{
    x.contiguous()
}

/// `Tensor::matmul`: the matrix product, each element from one row and one column.
/// It succeeds exactly where the inner dimensions agree.
#[verifier::external_body]
fn matmul(x: &candle_core::Tensor, y: &candle_core::Tensor) -> (r: Result<
    candle_core::Tensor,
    candle_core::Error,
>)
    requires
        grid(*x).valid(),
        grid(*y).valid(),
        crate::matrix::is_capped(candle_dims(*x)[0] as int, candle_dims(*y)[1] as int),
    ensures
        r is Ok <==> candle_dims(*x)[1] == candle_dims(*y)[0],
        r matches Ok(z) ==> grid(z).is_shaped(
            Shape2(candle_dims(*x)[0], candle_dims(*y)[1]),
        ) && forall|i: int, j: int|
            0 <= i < candle_dims(z)[0] && 0 <= j < candle_dims(z)[1] ==> candle_matmul(
                grid(*x).row(i),
                grid(*y).column(j),
                #[trigger] grid(z).at(i, j),
            ),
        r matches Ok(z) ==> candle_sources(z) == candle_sources(*x).union(candle_sources(*y)),
{
    x.matmul(y)
}

/// `Tensor::neg`: every sign flipped.
/// It succeeds on every matrix.
#[verifier::external_body]
fn neg(x: &candle_core::Tensor) -> (r: Result<candle_core::Tensor, candle_core::Error>)
    requires
        grid(*x).valid(),
    ensures
        r is Ok,
        r matches Ok(z) ==> grid(*x).is_map(candle_numerics(), Elementwise::Neg, grid(z)),
        r matches Ok(z) ==> candle_sources(z) == candle_sources(*x),
{
    x.neg()
}

/// `Tensor::abs`: every sign cleared.
/// It succeeds on every matrix.
#[verifier::external_body]
fn abs(x: &candle_core::Tensor) -> (r: Result<candle_core::Tensor, candle_core::Error>)
    requires
        grid(*x).valid(),
    ensures
        r is Ok,
        r matches Ok(z) ==> grid(*x).is_map(candle_numerics(), Elementwise::Abs, grid(z)),
        r matches Ok(z) ==> candle_sources(z) == candle_sources(*x),
{
    x.abs()
}

/// `Tensor::exp`: the exponential of each element.
/// It succeeds on every matrix.
#[verifier::external_body]
fn exp(x: &candle_core::Tensor) -> (r: Result<candle_core::Tensor, candle_core::Error>)
    requires
        grid(*x).valid(),
    ensures
        r is Ok,
        r matches Ok(z) ==> grid(*x).is_like(grid(z)) && forall|i: int|
            0 <= i < candle_bits(z).len() ==> candle_exp(
                candle_bits(*x)[i],
                #[trigger] candle_bits(z)[i],
            ),
        r matches Ok(z) ==> candle_sources(z) == candle_sources(*x),
{
    x.exp()
}

/// `Tensor::log`: the natural logarithm of each element.
/// It succeeds on every matrix.
#[verifier::external_body]
fn log(x: &candle_core::Tensor) -> (r: Result<candle_core::Tensor, candle_core::Error>)
    requires
        grid(*x).valid(),
    ensures
        r is Ok,
        r matches Ok(z) ==> grid(*x).is_like(grid(z)) && forall|i: int|
            0 <= i < candle_bits(z).len() ==> candle_log(
                candle_bits(*x)[i],
                #[trigger] candle_bits(z)[i],
            ),
        r matches Ok(z) ==> candle_sources(z) == candle_sources(*x),
{
    x.log()
}

/// `Tensor::sqrt`: the square root of each element.
/// It succeeds on every matrix.
#[verifier::external_body]
fn sqrt(x: &candle_core::Tensor) -> (r: Result<candle_core::Tensor, candle_core::Error>)
    requires
        grid(*x).valid(),
    ensures
        r is Ok,
        r matches Ok(z) ==> grid(*x).is_like(grid(z)) && forall|i: int|
            0 <= i < candle_bits(z).len() ==> candle_sqrt(
                candle_bits(*x)[i],
                #[trigger] candle_bits(z)[i],
            ),
        r matches Ok(z) ==> candle_sources(z) == candle_sources(*x),
{
    x.sqrt()
}

/// `Tensor::relu`: the larger of each element and zero.
/// It succeeds on every matrix.
#[verifier::external_body]
fn relu(x: &candle_core::Tensor) -> (r: Result<candle_core::Tensor, candle_core::Error>)
    requires
        grid(*x).valid(),
    ensures
        r is Ok,
        r matches Ok(z) ==> grid(*x).is_map(candle_numerics(), Elementwise::Relu, grid(z)),
        r matches Ok(z) ==> candle_sources(z) == candle_sources(*x),
{
    x.relu()
}

/// `Tensor::tanh`: the hyperbolic tangent of each element.
/// It succeeds on every matrix.
#[verifier::external_body]
fn tanh(x: &candle_core::Tensor) -> (r: Result<candle_core::Tensor, candle_core::Error>)
    requires
        grid(*x).valid(),
    ensures
        r is Ok,
        r matches Ok(z) ==> grid(*x).is_like(grid(z)) && forall|i: int|
            0 <= i < candle_bits(z).len() ==> candle_tanh(
                candle_bits(*x)[i],
                #[trigger] candle_bits(z)[i],
            ),
        r matches Ok(z) ==> candle_sources(z) == candle_sources(*x),
{
    x.tanh()
}

/// `candle_nn::ops::sigmoid`: the logistic function of each element.
/// It succeeds on every matrix.
#[verifier::external_body]
fn sigmoid(x: &candle_core::Tensor) -> (r: Result<candle_core::Tensor, candle_core::Error>)
    requires
        grid(*x).valid(),
    ensures
        r is Ok,
        r matches Ok(z) ==> grid(*x).is_like(grid(z)) && forall|i: int|
            0 <= i < candle_bits(z).len() ==> candle_sigmoid(
                candle_bits(*x)[i],
                #[trigger] candle_bits(z)[i],
            ),
        r matches Ok(z) ==> candle_sources(z) == candle_sources(*x),
{
    candle_nn::ops::sigmoid(x)
}

/// `Tensor::powf`: each element to a power. The exponent comes in decimal notation; a
/// text that is no number is an error.
/// It succeeds on every exponent that is a number of halves.
#[verifier::external_body]
fn powf(x: &candle_core::Tensor, exponent: &str) -> (r: Result<
    candle_core::Tensor,
    candle_core::Error,
>)
    requires
        grid(*x).valid(),
    ensures
        (exists|halves: int| exponent@ == #[trigger] crate::ops::exponent_text(halves)) ==> r is Ok,
        r matches Ok(z) ==> grid(*x).is_like(grid(z)) && forall|i: int|
            0 <= i < candle_bits(z).len() ==> candle_powf(
                candle_bits(*x)[i],
                exponent@,
                #[trigger] candle_bits(z)[i],
            ),
        r matches Ok(z) ==> candle_sources(z) == candle_sources(*x),
{
    x.powf(exponent.parse().map_err(candle_core::Error::wrap)?)
}

/// `Tensor::clamp`: each element brought between two whole numbers that a 32-bit
/// floating-point number can hold.
/// It succeeds on every matrix.
#[verifier::external_body]
fn clamp(x: &candle_core::Tensor, min: i64, max: i64) -> (r: Result<
    candle_core::Tensor,
    candle_core::Error,
>)
    requires
        grid(*x).valid(),
        -0x1000000 < min <= max < 0x1000000,
    ensures
        r is Ok,
        r matches Ok(z) ==> grid(*x).is_map(
            candle_numerics(),
            Elementwise::Clamp(min as int, max as int),
            grid(z),
        ),
        r matches Ok(z) ==> candle_sources(z) == candle_sources(*x),
{
    x.clamp(min, max)
}

/// `Tensor::sum_all`: the sum of all elements, as a tensor without dimensions.
/// It succeeds on every matrix.
#[verifier::external_body]
fn sum_all(x: &candle_core::Tensor) -> (r: Result<candle_core::Tensor, candle_core::Error>)
    requires
        grid(*x).valid(),
    ensures
        r is Ok,
        r matches Ok(z) ==> candle_dims(z).len() == 0 && candle_bits(z).len() == 1
            && candle_sum_all(candle_bits(*x), candle_bits(z)[0]),
        r matches Ok(z) ==> candle_sources(z) == candle_sources(*x),
{
    x.sum_all()
}

/// `Tensor::sum_keepdim`: the sum along one dimension, which is kept with length one.
/// It succeeds on every matrix.
#[verifier::external_body]
fn sum_keepdim(x: &candle_core::Tensor, dim: usize) -> (r: Result<
    candle_core::Tensor,
    candle_core::Error,
>)
    requires
        grid(*x).valid(),
        dim < 2,
    ensures
        r is Ok,
        r matches Ok(z) ==> grid(*x).is_reduced(dim as int, grid(z)) && forall|i: int|
            0 <= i < candle_bits(z).len() ==> candle_sum_keepdim(
                grid(*x).lane(dim as int, i),
                #[trigger] candle_bits(z)[i],
            ),
        r matches Ok(z) ==> candle_sources(z) == candle_sources(*x),
{
    x.sum_keepdim(dim)
}

/// `Tensor::mean_all`: the mean of all elements, as a tensor without dimensions.
/// It succeeds on every matrix.
#[verifier::external_body]
fn mean_all(x: &candle_core::Tensor) -> (r: Result<candle_core::Tensor, candle_core::Error>)
    requires
        grid(*x).valid(),
    ensures
        r is Ok,
        r matches Ok(z) ==> candle_dims(z).len() == 0 && candle_bits(z).len() == 1
            && candle_mean_all(candle_bits(*x), candle_bits(z)[0]),
        r matches Ok(z) ==> candle_sources(z) == candle_sources(*x),
{
    x.mean_all()
}

/// `Tensor::mean_keepdim`: the mean along one dimension, which is kept with length one.
/// It succeeds on every matrix.
#[verifier::external_body]
fn mean_keepdim(x: &candle_core::Tensor, dim: usize) -> (r: Result<
    candle_core::Tensor,
    candle_core::Error,
>)
    requires
        grid(*x).valid(),
        dim < 2,
    ensures
        r is Ok,
        r matches Ok(z) ==> grid(*x).is_reduced(dim as int, grid(z)) && forall|i: int|
            0 <= i < candle_bits(z).len() ==> candle_mean_keepdim(
                grid(*x).lane(dim as int, i),
                #[trigger] candle_bits(z)[i],
            ),
        r matches Ok(z) ==> candle_sources(z) == candle_sources(*x),
{
    x.mean_keepdim(dim)
}

/// `Tensor::reshape`: the same elements in the same order, as a matrix of the given
/// shape.
/// It succeeds where the number of elements is right.
#[verifier::external_body]
fn reshape(x: &candle_core::Tensor, shape: Shape2) -> (r: Result<
    candle_core::Tensor,
    candle_core::Error,
>)
    requires
        shape.valid(),
        candle_bits(*x).len() == shape.0 * shape.1,
    ensures
        r is Ok,
        r matches Ok(z) ==> grid(z).is_shaped(shape) && candle_bits(z) == candle_bits(*x),
        r matches Ok(z) ==> candle_sources(z) == candle_sources(*x),
{
    x.reshape((shape.0, shape.1))
}

/// `Tensor::transpose` of the two dimensions: rows and columns exchanged.
/// It succeeds on every matrix.
#[verifier::external_body]
fn transpose(x: &candle_core::Tensor) -> (r: Result<candle_core::Tensor, candle_core::Error>)
    requires
        grid(*x).valid(),
    ensures
        r is Ok,
        r matches Ok(z) ==> grid(*x).is_transposed(grid(z)),
        r matches Ok(z) ==> candle_sources(z) == candle_sources(*x),
{
    x.transpose(0, 1)
}

/// `Tensor::cat` of two matrices along a dimension: the second after the first.
/// It succeeds exactly where the other dimension agrees.
#[verifier::external_body]
fn cat(x: &candle_core::Tensor, y: &candle_core::Tensor, dim: usize) -> (r: Result<
    candle_core::Tensor,
    candle_core::Error,
>)
    requires
        grid(*x).valid(),
        grid(*y).valid(),
        dim < 2,
        dim == 0 ==> crate::matrix::is_capped(
            candle_dims(*x)[0] + candle_dims(*y)[0],
            candle_dims(*x)[1] as int,
        ),
        dim == 1 ==> crate::matrix::is_capped(
            candle_dims(*x)[0] as int,
            candle_dims(*x)[1] + candle_dims(*y)[1],
        ),
    ensures
        r is Ok <==> if dim == 0 {
            candle_dims(*x)[1] == candle_dims(*y)[1]
        } else {
            candle_dims(*x)[0] == candle_dims(*y)[0]
        },
        r matches Ok(z) ==> grid(*x).is_concatenation(grid(*y), dim as int, grid(z)),
        r matches Ok(z) ==> candle_sources(z) == candle_sources(*x).union(candle_sources(*y)),
{
    candle_core::Tensor::cat(&[x, y], dim)
}

/// `Tensor::repeat`: copies of a matrix, so many downwards and so many to the right.
/// It succeeds on every matrix.
#[verifier::external_body]
fn repeat(x: &candle_core::Tensor, rows: usize, cols: usize) -> (r: Result<
    candle_core::Tensor,
    candle_core::Error,
>)
    requires
        grid(*x).valid(),
        rows >= 1,
        cols >= 1,
        crate::matrix::is_capped(candle_dims(*x)[0] * rows, candle_dims(*x)[1] * cols),
    ensures
        r is Ok,
        r matches Ok(z) ==> grid(*x).is_tiled(rows as int, cols as int, grid(z)),
        r matches Ok(z) ==> candle_sources(z) == candle_sources(*x),
{
    x.repeat((rows, cols))
}

/// `Tensor::clone`: the same tensor once more, node and all. It is a shared pointer.
#[verifier::external_body]
fn share(x: &candle_core::Tensor) -> (r: candle_core::Tensor)
    ensures
        r == *x,
{
    x.clone()
}

/// `Tensor::from_raw_buffer` with 32-bit floating-point elements on the processor: a
/// matrix with the given elements, row by row.
/// It succeeds where the number of elements is right.
#[verifier::external_body]
fn from_bits(bits: &[u32], shape: Shape2) -> (r: Result<candle_core::Tensor, candle_core::Error>)
    requires
        shape.valid(),
        bits.len() == shape.0 * shape.1,
    ensures
        r is Ok,
        r matches Ok(t) ==> grid(t).is_shaped(shape) && candle_bits(t) == bits@,
        r matches Ok(t) ==> candle_sources(t) == Set::<int>::empty() && !candle_is_variable(t),
{
    let bytes: Vec<u8> = bits.iter().flat_map(|b| b.to_ne_bytes()).collect();
    candle_core::Tensor::from_raw_buffer(
        &bytes,
        candle_core::DType::F32,
        &[shape.0, shape.1],
        &candle_core::Device::Cpu,
    )
}

/// `Var::from_tensor`, unwrapped: a variable with the same elements. Every variable is a
/// node of its own, so its number is that of no tensor that there is already.
/// It succeeds on every matrix.
#[verifier::external_body]
fn to_variable(x: &candle_core::Tensor, known: &[CandleTensor]) -> (r: Result<
    candle_core::Tensor,
    candle_core::Error,
>)
    requires
        grid(*x).valid(),
        !candle_is_variable(*x),
    ensures
        r is Ok,
        r matches Ok(t) ==> grid(*x).is_like(grid(t)) && candle_is_variable(t) && candle_bits(t)
            == candle_bits(*x),
        r matches Ok(t) ==> candle_sources(t) == Set::<int>::empty().insert(candle_node(t)),
        r matches Ok(t) ==> is_new(t, known@),
{
    candle_core::Var::from_tensor(x).map(|v| v.into_inner())
}

/// `Tensor::write_bytes`: the elements of a matrix, row by row whatever its layout.
/// It succeeds on every matrix.
#[verifier::external_body]
fn to_bits(t: &candle_core::Tensor) -> (r: Result<Vec<u32>, candle_core::Error>)
    requires
        grid(*t).valid(),
    ensures
        r is Ok,
        r matches Ok(bits) ==> bits@ == candle_bits(*t),
{
    let mut bytes: Vec<u8> = Vec::new();
    t.write_bytes(&mut bytes)?;
    Ok(bytes.chunks_exact(4).map(|b| u32::from_le_bytes([b[0], b[1], b[2], b[3]])).collect())
}

/// `Tensor::dims`.
#[verifier::external_body]
fn dims_of(t: &candle_core::Tensor) -> (r: Vec<usize>)
    ensures
        r@ == candle_dims(*t),
{
    t.dims().to_vec()
}

/// The text of an error. Nothing is said of it: it may show where the error arose.
#[verifier::external_body]
fn describe(error: &candle_core::Error) -> (r: String) {
    format!("{error}")
}

/// `Tensor::backward`: gradients from the node of the root, seeded with ones. It
/// succeeds on every `CandleTensor`: the tensors of this module alone are one, so the
/// graph behind it is made of the operations above, and candle differentiates each of
/// them. Of all variables, those have a gradient then that the root was computed from. A
/// root that is a variable keeps the seed, and nothing else is stored.
/// candle walks the graph by recursion, so the stack bounds how deep it may be.
#[verifier::external_body]
fn differentiate(root: &CandleTensor) -> (r: Result<
    candle_core::backprop::GradStore,
    candle_core::Error,
>)
    ensures
        r is Ok,
        r matches Ok(grads) ==> candle_backward(
            candle_node(root.tensor()),
            candle_gradients(grads),
        ),
        r matches Ok(grads) ==> candle_is_variable(root.tensor()) ==> candle_gradients(grads)
            == seed_alone(root.tensor()),
        r matches Ok(grads) ==> holds_what_is_reached(root.tensor(), candle_gradients(grads)),
{
    root.inner.backward()
}

/// `GradStore::get`, cloned: the gradient under the node of the leaf, if there is one.
/// In a store that a backward pass filled it has the leaf's dimensions.
#[verifier::external_body]
fn gradient_of(grads: &CandleGrads, leaf: &CandleTensor) -> (r: Option<candle_core::Tensor>)
    requires
        grid(leaf.tensor()).valid(),
    ensures
        r is Some <==> candle_gradients(grads.store()).contains_key(candle_node(leaf.tensor())),
        r matches Some(g) ==> grid(leaf.tensor()).is_like(grid(g)) && candle_bits(g)
            == candle_gradients(grads.store())[candle_node(leaf.tensor())],
{
    grads.inner.get(&leaf.inner).cloned()
}

/// `Tensor::detach`: the same elements without a gradient graph.
#[verifier::external_body]
fn detach(x: &candle_core::Tensor) -> (r: candle_core::Tensor)
    ensures
        candle_dims(r) == candle_dims(*x),
        candle_bits(r) == candle_bits(*x),
        candle_sources(r) == Set::<int>::empty(),
{
    x.detach()
}

/// A matrix that candle holds, made by the operations of this module alone.
pub struct CandleTensor {
    inner: candle_core::Tensor,
}

impl CandleTensor {
    pub closed spec fn tensor(self) -> candle_core::Tensor {
        self.inner
    }

    #[verifier::type_invariant]
    spec fn holds_a_matrix(self) -> bool {
        grid(self.inner).valid()
    }

    /// The dimensions, outermost first.
    pub fn dims(&self) -> (r: Vec<usize>)
        ensures
            r@ == candle_dims(self.tensor()),
    {
        dims_of(&self.inner)
    }
}

/// The gradients of a backward pass.
pub struct CandleGrads {
    inner: candle_core::backprop::GradStore,
}

impl CandleGrads {
    pub closed spec fn store(self) -> candle_core::backprop::GradStore {
        self.inner
    }
}

/// How candle says that it failed.
#[derive(Debug)]
pub struct CandleFault {
    pub message: String,
}

/// A fault whose message is the given text followed by that of the error.
fn fault(start: &str, error: &candle_core::Error) -> (r: CandleFault)
    ensures
        crate::text::begins_with(r.message@, start@),
{
    let mut message: String = start.to_owned();
    message.append(describe(error).as_str());
    assert(message@.take(start@.len() as int) =~= start@);
    CandleFault { message }
}

/// What a target makes of candle's answer: the matrix if there is one, and otherwise a
/// fault whose message begins with the given text.
fn conclude(answer: Result<candle_core::Tensor, candle_core::Error>, start: &str) -> (r: Result<
    CandleTensor,
    CandleFault,
>)
    requires
        answer matches Ok(t) ==> grid(t).valid(),
    ensures
        r is Ok <==> answer is Ok,
        r matches Ok(t) ==> t.tensor() == answer->Ok_0,
        r matches Err(fault) ==> crate::text::begins_with(fault.message@, start@),
{
    match answer {
        Ok(inner) => Ok(CandleTensor { inner }),
        Err(error) => Err(fault(start, &error)),
    }
}

/// The matrix product. candle refuses some strided layouts, and a transposition leaves
/// one, so both operands are brought into row-major memory first.
fn product(x: &candle_core::Tensor, y: &candle_core::Tensor) -> (r: Result<
    candle_core::Tensor,
    candle_core::Error,
>)
    requires
        grid(*x).valid(),
        grid(*y).valid(),
        crate::matrix::is_capped(candle_dims(*x)[0] as int, candle_dims(*y)[1] as int),
    ensures
        r is Ok <==> candle_dims(*x)[1] == candle_dims(*y)[0],
        r matches Ok(z) ==> grid(*x).is_product(candle_numerics(), grid(*y), grid(z)),
        r matches Ok(z) ==> candle_sources(z) == candle_sources(*x).union(candle_sources(*y)),
{
    let left = match contiguous(x) {
        Ok(left) => left,
        Err(error) => {
            return Err(error);
        },
    };
    let right = match contiguous(y) {
        Ok(right) => right,
        Err(error) => {
            return Err(error);
        },
    };
    assert forall|i: int| #[trigger] grid(left).row(i) == grid(*x).row(i) by {
        assert(grid(left).row(i) =~= grid(*x).row(i));
    }
    assert forall|j: int| #[trigger] grid(right).column(j) == grid(*y).column(j) by {
        assert(grid(right).column(j) =~= grid(*y).column(j));
    }
    matmul(&left, &right)
}

/// A tensor of one element as a matrix.
fn single(x: &candle_core::Tensor) -> (r: Result<candle_core::Tensor, candle_core::Error>)
    requires
        candle_bits(*x).len() == 1,
    ensures
        r is Ok,
        r matches Ok(z) ==> grid(z).is_shaped(Shape2(1, 1)) && candle_bits(z) == candle_bits(*x),
        r matches Ok(z) ==> candle_sources(z) == candle_sources(*x),
{
    let shape = Shape2(1, 1);
    assert(shape.0 * shape.1 == 1) by (nonlinear_arith)
        requires
            shape.0 == 1,
            shape.1 == 1,
    ;
    reshape(x, shape)
}

/// Evaluate one instruction on the registers with the meaning that every target gives
/// it: operands broadcast, reductions keep their dimension, a reduction of the whole
/// tensor is a matrix of one element, and repetition tiles. candle evaluates every
/// instruction that is legal.
fn compute(regs: &[CandleTensor], shapes: &[Shape2], op: &ResolvedInstr) -> (r: Result<
    candle_core::Tensor,
    candle_core::Error,
>)
    requires
        regs.len() == shapes.len(),
        forall|i: int| 0 <= i < shapes.len() ==> (#[trigger] shapes@[i]).valid(),
        forall|i: int|
            0 <= i < regs.len() ==> grid((#[trigger] regs@[i]).tensor()).is_shaped(shapes@[i]),
        op.legal(shapes@),
        op.fits(shapes@),
        op.out_shape(shapes@).valid(),
    ensures
        r is Ok,
        r matches Ok(z) ==> may_compute(*op, regs@, z) && grid(z).is_shaped(op.out_shape(shapes@)),
{
    match *op {
        ResolvedInstr::Add(a, b) => broadcast_add(&regs[a].inner, &regs[b].inner),
        ResolvedInstr::Sub(a, b) => broadcast_sub(&regs[a].inner, &regs[b].inner),
        ResolvedInstr::Mul(a, b) => broadcast_mul(&regs[a].inner, &regs[b].inner),
        ResolvedInstr::Div(a, b) => broadcast_div(&regs[a].inner, &regs[b].inner),
        ResolvedInstr::Matmul(a, b) => product(&regs[a].inner, &regs[b].inner),
        ResolvedInstr::MatmulPassthrough(a)
        | ResolvedInstr::ConcatPassthrough(a) => Ok(share(&regs[a].inner)),
        ResolvedInstr::Neg(a) => neg(&regs[a].inner),
        ResolvedInstr::Abs(a) => abs(&regs[a].inner),
        ResolvedInstr::Exp(a) => exp(&regs[a].inner),
        ResolvedInstr::Log(a) => log(&regs[a].inner),
        ResolvedInstr::Sqrt(a) => sqrt(&regs[a].inner),
        ResolvedInstr::PowfScalar(a, halves) => powf(
            &regs[a].inner,
            exponent_to_text(halves).as_str(),
        ),
        ResolvedInstr::Relu(a) => relu(&regs[a].inner),
        ResolvedInstr::Sigmoid(a) => sigmoid(&regs[a].inner),
        ResolvedInstr::Tanh(a) => tanh(&regs[a].inner),
        ResolvedInstr::SumAll(a) => {
            match sum_all(&regs[a].inner) {
                Ok(sum) => single(&sum),
                Err(error) => Err(error),
            }
        },
        ResolvedInstr::MeanAll(a) => {
            match mean_all(&regs[a].inner) {
                Ok(mean) => single(&mean),
                Err(error) => Err(error),
            }
        },
        ResolvedInstr::SumDim(a, dim) => sum_keepdim(&regs[a].inner, dim),
        ResolvedInstr::MeanDim(a, dim) => mean_keepdim(&regs[a].inner, dim),
        ResolvedInstr::Transpose(a) => transpose(&regs[a].inner),
        ResolvedInstr::Concat(a, b, dim) => cat(&regs[a].inner, &regs[b].inner, dim),
        ResolvedInstr::Repeat(a, dim, count) => {
            if dim == 0 {
                repeat(&regs[a].inner, count, 1)
            } else {
                repeat(&regs[a].inner, 1, count)
            }
        },
        ResolvedInstr::Clamp(a) => clamp(&regs[a].inner, -1000000, 1000000),
    }
}

/// candle as a target.
pub struct Candle;

/// Whether a tensor holds the given elements as a matrix of the given shape.
pub open spec fn holds(t: CandleTensor, data: Seq<u32>, shape: Shape2) -> bool {
    grid(t.tensor()).is_shaped(shape) && candle_bits(t.tensor()) == data
}

/// How the report of a failed instruction begins: with its line as it is written.
pub open spec fn failure_text(instr: TensorInstr, n: int) -> Seq<char> {
    "candle failed on `"@ + crate::ops::reg_text(n) + " = "@ + instr.literal(n).text() + "`: "@
}

/// The beginning of the report of a failed instruction among `n` registers.
pub fn failure_start(instr: &TensorInstr, n: usize) -> (r: String)
    requires
        n > 0,
    ensures
        r@ == failure_text(*instr, n as int),
{
    let mut start: String = "candle failed on `".to_owned();
    start.append(instr.ssa_line(reg_to_text(n).as_str(), n).as_str());
    start.append("`: ");
    assert(start@ =~= failure_text(*instr, n as int));
    start
}

/// Every answer is a success on whatever the driver asks for.
impl Framework for Candle {
    type Tensor = CandleTensor;

    type Grads = CandleGrads;

    type Fault = CandleFault;

    open spec fn has_shape(&self, t: CandleTensor, shape: Shape2) -> bool {
        grid(t.tensor()).is_shaped(shape)
    }

    open spec fn input_gives(
        &self,
        data: Seq<u32>,
        shape: Shape2,
        r: Result<CandleTensor, CandleFault>,
    ) -> bool {
        r matches Ok(t) && holds(t, data, shape)
    }

    /// A leaf is a variable, the only one that it is computed from, and a new node.
    open spec fn leaf_gives(
        &self,
        regs: Seq<CandleTensor>,
        data: Seq<u32>,
        shape: Shape2,
        r: Result<CandleTensor, CandleFault>,
    ) -> bool {
        &&& r matches Ok(t)
        &&& holds(t, data, shape)
        &&& candle_is_variable(t.tensor())
        &&& candle_sources(t.tensor()) == Set::<int>::empty().insert(candle_node(t.tensor()))
        &&& is_new(t.tensor(), regs)
    }

    /// The alias is the tensor itself, so both have one node.
    open spec fn alias_gives(&self, of: CandleTensor, t: CandleTensor) -> bool {
        t.tensor() == of.tensor()
    }

    open spec fn eval_gives(
        &self,
        regs: Seq<CandleTensor>,
        shapes: Seq<Shape2>,
        instr: TensorInstr,
        r: Result<CandleTensor, CandleFault>,
    ) -> bool {
        r matches Ok(t) && may_compute(
            crate::resolve::resolution(shapes, instr),
            regs,
            t.tensor(),
        )
    }

    open spec fn backward_gives(
        &self,
        root: CandleTensor,
        r: Result<CandleGrads, CandleFault>,
    ) -> bool {
        &&& r matches Ok(grads)
        &&& candle_backward(candle_node(root.tensor()), candle_gradients(grads.store()))
        &&& holds_what_is_reached(root.tensor(), candle_gradients(grads.store()))
        &&& candle_is_variable(root.tensor()) ==> candle_gradients(grads.store()) == seed_alone(
            root.tensor(),
        )
    }

    open spec fn grad_gives(
        &self,
        grads: CandleGrads,
        leaf: CandleTensor,
        t: Option<CandleTensor>,
    ) -> bool {
        let stored = candle_gradients(grads.store());
        let node = candle_node(leaf.tensor());
        match t {
            Some(g) => stored.contains_key(node) && grid(leaf.tensor()).is_like(grid(g.tensor()))
                && candle_bits(g.tensor()) == stored[node],
            None => !stored.contains_key(node),
        }
    }

    open spec fn reads_as(&self, t: CandleTensor, r: Result<Seq<u32>, CandleFault>) -> bool {
        r matches Ok(bits) && bits == candle_bits(t.tensor())
    }

    fn input(&self, data: &[u32], shape: Shape2) -> (r: Result<CandleTensor, CandleFault>) {
        conclude(from_bits(data, shape), "candle input construction failed: ")
    }

    /// candle tracks gradients for variables, so a leaf is one.
    fn leaf(&self, regs: &[CandleTensor], data: &[u32], shape: Shape2) -> (r: Result<
        CandleTensor,
        CandleFault,
    >) {
        let variable = match from_bits(data, shape) {
            Ok(plain) => to_variable(&plain, regs),
            Err(error) => Err(error),
        };
        conclude(variable, "candle leaf construction failed: ")
    }

    fn alias(&self, tensor: &CandleTensor) -> (t: CandleTensor) {
        proof {
            use_type_invariant(tensor);
        }
        CandleTensor { inner: share(&tensor.inner) }
    }

    fn eval(
        &self,
        regs: &[CandleTensor],
        shapes: &[Shape2],
        instr: &TensorInstr,
        op: &ResolvedInstr,
    ) -> (r: Result<CandleTensor, CandleFault>) {
        assert forall|i: int| 0 <= i < regs.len() implies grid(
            (#[trigger] regs@[i]).tensor(),
        ).is_shaped(shapes@[i]) by {
            assert(self.has_shape(regs@[i], shapes@[i]));
        }
        conclude(compute(regs, shapes, op), failure_start(instr, regs.len()).as_str())
    }

    fn backward(&self, root: &CandleTensor) -> (r: Result<CandleGrads, CandleFault>) {
        match differentiate(root) {
            Ok(inner) => Ok(CandleGrads { inner }),
            Err(error) => Err(fault("candle backward failed: ", &error)),
        }
    }

    fn grad(&self, grads: &CandleGrads, leaf: &CandleTensor) -> (t: Option<CandleTensor>) {
        proof {
            use_type_invariant(leaf);
        }
        match gradient_of(grads, leaf) {
            Some(g) => Some(CandleTensor { inner: detach(&g) }),
            None => None,
        }
    }

    fn to_vec(&self, tensor: &CandleTensor) -> (r: Result<Vec<u32>, CandleFault>) {
        proof {
            use_type_invariant(tensor);
        }
        match to_bits(&tensor.inner) {
            Ok(bits) => Ok(bits),
            Err(error) => Err(fault("candle into_data failed: ", &error)),
        }
    }
}

/// Whatever program candle runs, every register is a matrix of the shape that the
/// program predicts, and what is read out of it has as many elements.
pub proof fn registers_have_the_predicted_shapes(
    prog: crate::program::TensorProgram,
    regs: Seq<CandleTensor>,
    i: int,
    bits: Seq<u32>,
)
    requires
        crate::driver::is_run(&Candle, prog, regs),
        0 <= i < regs.len(),
        Candle.reads_as(regs[i], Ok(bits)),
    ensures
        grid(regs[i].tensor()).is_shaped(prog.shapes()[i]),
        bits.len() == prog.shapes()[i].0 * prog.shapes()[i].1,
{
    assert(Candle.has_shape(regs[i], prog.shapes()[i]));
}

/// candle runs every tensor program to its end: resolution leaves it nothing to refuse.
pub proof fn every_tensor_program_runs(prog: crate::program::TensorProgram, fault: CandleFault)
    ensures
        !crate::driver::is_run_fault(&Candle, prog, fault),
{
}

/// candle runs every autograd program to its end, the backward pass and the reading of
/// every gradient included.
pub proof fn every_autograd_program_runs(
    prog: crate::autograd::AutogradProgram,
    max_leaves: int,
    fault: CandleFault,
)
    ensures
        !crate::driver::is_grad_fault(&Candle, prog, max_leaves, fault),
{
}

/// The backward pass is seeded with ones: a program without instructions, whose root is
/// the seed leaf itself, reports a gradient of ones.
pub proof fn the_seed_is_ones(
    prog: crate::autograd::AutogradProgram,
    max_leaves: int,
    regs: Seq<CandleTensor>,
    reports: Seq<Vec<u32>>,
)
    requires
        prog.ops@.len() == 0,
        crate::driver::is_grad_report(&Candle, prog, max_leaves, regs, reports),
    ensures
        reports.len() == 1,
        reports[0]@ == Seq::new(
            (prog.first_shape().0 * prog.first_shape().1) as nat,
            |i: int| 0x3f800000u32,
        ),
{
    let state = prog.run_state(max_leaves);
    assert(state.actions[0] is Leaf);
    assert(Candle.has_shape(regs[0], state.shapes[0]));
    let grads = choose|grads: CandleGrads| #[trigger]
        Candle.backward_gives(regs.last(), Ok(grads)) && forall|k: int|
            0 <= k < reports.len() ==> crate::driver::is_leaf_report(
                &Candle,
                grads,
                regs[state.leaves[k] as int],
                state.shapes[state.leaves[k] as int],
                (#[trigger] reports[k])@,
            );
    assert(crate::driver::is_leaf_report(
        &Candle,
        grads,
        regs[0],
        state.shapes[0],
        reports[0]@,
    ));
    assert(candle_is_variable(regs[0].tensor()));
}

/// Every gradient that candle reports has as many elements as its leaf.
pub proof fn gradients_have_the_shape_of_their_leaf(
    prog: crate::autograd::AutogradProgram,
    max_leaves: int,
    regs: Seq<CandleTensor>,
    reports: Seq<Vec<u32>>,
    k: int,
)
    requires
        prog.ops@.len() <= usize::MAX,
        crate::driver::is_grad_report(&Candle, prog, max_leaves, regs, reports),
        0 <= k < reports.len(),
    ensures
        ({
            let state = prog.run_state(max_leaves);
            let shape = state.shapes[state.leaves[k] as int];
            reports[k]@.len() == shape.0 * shape.1
        }),
{
    let state = prog.run_state(max_leaves);
    let reg = state.leaves[k] as int;
    prog.run_is_well_built(max_leaves, prog.ops@.len() as int);
    assert(Candle.has_shape(regs[reg], state.shapes[reg]));
    let grads = choose|grads: CandleGrads| #[trigger]
        Candle.backward_gives(regs.last(), Ok(grads)) && forall|k: int|
            0 <= k < reports.len() ==> crate::driver::is_leaf_report(
                &Candle,
                grads,
                regs[state.leaves[k] as int],
                state.shapes[state.leaves[k] as int],
                (#[trigger] reports[k])@,
            );
    assert(crate::driver::is_leaf_report(
        &Candle,
        grads,
        regs[reg],
        state.shapes[reg],
        reports[k]@,
    ));
}

/// Behind a register of a run are the leaves that the program computes it from, and no
/// other: the node of a leaf is among its sources exactly if it depends on that leaf.
#[verifier::rlimit(40)]
pub proof fn sources_are_the_dependences(
    prog: crate::autograd::AutogradProgram,
    max_leaves: int,
    regs: Seq<CandleTensor>,
    r: int,
    leaf: int,
)
    requires
        prog.ops@.len() <= usize::MAX,
        crate::driver::is_grad_run(&Candle, prog, max_leaves, regs),
        0 <= r < regs.len(),
        0 <= leaf < regs.len(),
        prog.run_state(max_leaves).actions[leaf] is Leaf,
    ensures
        candle_sources(regs[r].tensor()).contains(candle_node(regs[leaf].tensor()))
            <==> crate::autograd::depends_on(prog.run_state(max_leaves).actions, r, leaf),
    decreases r,
{
    let state = prog.run_state(max_leaves);
    prog.run_is_well_built(max_leaves, prog.ops@.len() as int);
    let before = regs.take(r);
    let shapes = state.shapes.take(r);
    match state.actions[r] {
        crate::autograd::Action::Leaf { .. } => {
            assert(is_new(regs[r].tensor(), before));
            if leaf < r {
                assert(before[leaf] == regs[leaf]);
            } else if leaf > r {
                assert(state.actions[leaf] is Leaf);
                assert(is_new(regs[leaf].tensor(), regs.take(leaf)));
                assert(regs.take(leaf)[r] == regs[r]);
            }
        },
        crate::autograd::Action::Alias(src) => {
            assert(before[src as int] == regs[src as int]);
            sources_are_the_dependences(prog, max_leaves, regs, src as int, leaf);
        },
        crate::autograd::Action::Eval(instr, op) => {
            assert(op == crate::resolve::resolution(shapes, instr));
            assert(op.legal(shapes));
            assert(may_compute(op, before, regs[r].tensor()));
            let a = op.left() as int;
            assert(a < r);
            assert(before[a] == regs[a]);
            sources_are_the_dependences(prog, max_leaves, regs, a, leaf);
            if let Some(b) = op.right() {
                assert(b < r);
                assert(before[b as int] == regs[b as int]);
                sources_are_the_dependences(prog, max_leaves, regs, b as int, leaf);
            }
        },
    }
}

/// Whether `bits` is what is reported for leaf `k` when the given gradients are stored: the
/// gradient under the leaf's node, which is there, if the root depends on the leaf, and
/// otherwise zeros of the leaf's shape, where none is.
pub open spec fn is_dependence_report(
    prog: crate::autograd::AutogradProgram,
    max_leaves: int,
    regs: Seq<CandleTensor>,
    gradients: Map<int, Seq<u32>>,
    k: int,
    bits: Seq<u32>,
) -> bool {
    let state = prog.run_state(max_leaves);
    let leaf = state.leaves[k] as int;
    let node = candle_node(regs[leaf].tensor());
    if crate::autograd::depends_on(state.actions, regs.len() - 1, leaf) {
        gradients.contains_key(node) && bits == gradients[node]
    } else {
        !gradients.contains_key(node) && bits == Seq::new(
            (state.shapes[leaf].0 * state.shapes[leaf].1) as nat,
            |i: int| 0u32,
        )
    }
}

/// What candle reports for a leaf is the gradient that the backward pass left there exactly
/// if the root depends on the leaf in the program, and zeros of the leaf's shape otherwise.
pub proof fn leaves_are_reported_by_dependence(
    prog: crate::autograd::AutogradProgram,
    max_leaves: int,
    regs: Seq<CandleTensor>,
    reports: Seq<Vec<u32>>,
)
    requires
        prog.ops@.len() <= usize::MAX,
        crate::driver::is_grad_report(&Candle, prog, max_leaves, regs, reports),
    ensures
        exists|grads: CandleGrads| #[trigger]
            Candle.backward_gives(regs.last(), Ok(grads)) && forall|k: int|
                0 <= k < reports.len() ==> is_dependence_report(
                    prog,
                    max_leaves,
                    regs,
                    candle_gradients(grads.store()),
                    k,
                    (#[trigger] reports[k])@,
                ),
{
    let state = prog.run_state(max_leaves);
    prog.run_is_well_built(max_leaves, prog.ops@.len() as int);
    let grads = choose|grads: CandleGrads| #[trigger]
        Candle.backward_gives(regs.last(), Ok(grads)) && forall|k: int|
            0 <= k < reports.len() ==> crate::driver::is_leaf_report(
                &Candle,
                grads,
                regs[state.leaves[k] as int],
                state.shapes[state.leaves[k] as int],
                (#[trigger] reports[k])@,
            );
    assert forall|k: int| 0 <= k < reports.len() implies is_dependence_report(
        prog,
        max_leaves,
        regs,
        candle_gradients(grads.store()),
        k,
        (#[trigger] reports[k])@,
    ) by {
        let leaf = state.leaves[k] as int;
        assert(state.actions[leaf] is Leaf);
        assert(candle_is_variable(regs[leaf].tensor()));
        sources_are_the_dependences(prog, max_leaves, regs, regs.len() - 1, leaf);
        assert(crate::driver::is_leaf_report(
            &Candle,
            grads,
            regs[leaf],
            state.shapes[leaf],
            reports[k]@,
        ));
    }
}

/// An alias has the gradient of the register that it refers to: there is one for both
/// or for neither, and it is the same.
pub proof fn an_alias_shares_the_gradient(
    grads: CandleGrads,
    of: CandleTensor,
    t: CandleTensor,
    left: Option<CandleTensor>,
    right: Option<CandleTensor>,
)
    requires
        Candle.alias_gives(of, t),
        Candle.grad_gives(grads, of, left),
        Candle.grad_gives(grads, t, right),
    ensures
        left is Some <==> right is Some,
        left is Some && right is Some ==> candle_bits(left.unwrap().tensor()) == candle_bits(
            right.unwrap().tensor(),
        ),
{
}

/// Which arithmetic of candle stands behind each operation: candle's own answer where the
/// arithmetic rounds, and where it does not the sign changed, the sign taken away, zero for
/// what is negative, and the bound for what lies beyond it.
pub proof fn candle_answers_each_operation_by_its_own(
    x: u32,
    y: u32,
    xs: Seq<u32>,
    ys: Seq<u32>,
    exponent: Seq<char>,
    z: u32,
)
    ensures
        ({
            let n = candle_numerics();
            &&& (n.combine)(Pairwise::Add, x, y, z) == candle_add(x, y, z)
            &&& (n.combine)(Pairwise::Sub, x, y, z) == candle_sub(x, y, z)
            &&& (n.combine)(Pairwise::Mul, x, y, z) == candle_mul(x, y, z)
            &&& (n.combine)(Pairwise::Div, x, y, z) == candle_div(x, y, z)
            &&& (n.product)(xs, ys, z) == candle_matmul(xs, ys, z)
            &&& (n.map)(Elementwise::Exp, x, z) == candle_exp(x, z)
            &&& (n.map)(Elementwise::Log, x, z) == candle_log(x, z)
            &&& (n.map)(Elementwise::Sqrt, x, z) == candle_sqrt(x, z)
            &&& (n.map)(Elementwise::Sigmoid, x, z) == candle_sigmoid(x, z)
            &&& (n.map)(Elementwise::Tanh, x, z) == candle_tanh(x, z)
            &&& (n.map)(Elementwise::Powf(exponent), x, z) == candle_powf(x, exponent, z)
            &&& (n.aggregate)(Aggregate::SumAll, xs, z) == candle_sum_all(xs, z)
            &&& (n.aggregate)(Aggregate::MeanAll, xs, z) == candle_mean_all(xs, z)
            &&& (n.aggregate)(Aggregate::SumDim, xs, z) == candle_sum_keepdim(xs, z)
            &&& (n.aggregate)(Aggregate::MeanDim, xs, z) == candle_mean_keepdim(xs, z)
        }),
{
}

/// What candle makes of an element that is no NaN, by its bits, where nothing is rounded.
pub proof fn candle_is_exact_where_nothing_is_rounded(x: u32, z: u32)
    requires
        !crate::oracle::is_nan(x),
    ensures
        ({
            let n = candle_numerics();
            let size = x as int % 2147483648;
            &&& (n.map)(Elementwise::Neg, x, z) <==> z as int % 2147483648 == size && z != x
            &&& (n.map)(Elementwise::Abs, x, z) <==> z == size
            &&& x < 2147483648 ==> ((n.map)(Elementwise::Relu, x, z) <==> z == x)
            &&& x > 2147483648 ==> ((n.map)(Elementwise::Relu, x, z) <==> z == 0)
            &&& x == 2147483648 ==> ((n.map)(Elementwise::Relu, x, z) <==> z as int % 2147483648
                == 0)
            &&& (n.map)(Elementwise::Clamp(-1000000, 1000000), x, z) <==> {
                &&& size <= 0x49742400 ==> z == x
                &&& size > 0x49742400 && x < 2147483648 ==> z == 0x49742400
                &&& size > 0x49742400 && x >= 2147483648 ==> z == 0x49742400 + 2147483648
            }
        }),
{
    crate::float::signs_are_the_highest_bit(x, z);
    if crate::float::is_clamped(x, -1000000, 1000000, z) {
        crate::float::a_million_bounds_what_is_clamped(x, z);
    }
    crate::float::whole_numbers_are_exact(1000000);
    reveal_with_fuel(crate::float::scaled, 6);
}

/// What candle computes for an instruction is what the instruction means by candle's
/// arithmetic; behind it in the gradient graph is exactly what is behind its operands, and a
/// passthrough is the tensor itself.
pub proof fn candle_computes_what_is_meant(
    op: ResolvedInstr,
    regs: Seq<CandleTensor>,
    z: candle_core::Tensor,
    source: int,
)
    requires
        may_compute(op, regs, z),
        op.left() < regs.len(),
        op.right() matches Some(b) ==> b < regs.len(),
    ensures
        crate::matrix::means(candle_numerics(), op, grids(regs), grid(z)),
        grids(regs).len() == regs.len(),
        forall|i: int|
            0 <= i < regs.len() ==> (#[trigger] grids(regs)[i]).dims == candle_dims(
                regs[i].tensor(),
            ) && grids(regs)[i].bits == candle_bits(regs[i].tensor()),
        candle_sources(z).contains(source) <==> candle_sources(
            regs[op.left() as int].tensor(),
        ).contains(source) || (op.right() is Some && candle_sources(
            regs[op.right()->Some_0 as int].tensor(),
        ).contains(source)),
        op is MatmulPassthrough || op is ConcatPassthrough ==> z == regs[op.left() as int].tensor(),
{
}

/// The report of a failed instruction shows the register that it was to make and the
/// instruction as it is written.
pub proof fn a_failure_shows_the_instruction_as_written(instr: TensorInstr, n: int)
    ensures
        failure_text(instr, n) == "candle failed on `"@ + (crate::ops::reg_text(n) + " = "@
            + instr.literal(n).text()) + "`: "@,
{
    assert(failure_text(instr, n) =~= "candle failed on `"@ + (crate::ops::reg_text(n) + " = "@
        + instr.literal(n).text()) + "`: "@);
}

/// What candle is asked for, and what it answers: an input or a leaf holds the data that it
/// was made with, in the given shape; a leaf is a variable behind which is nothing but
/// itself; an alias is the tensor itself; and what is read out of a tensor are its elements.
pub proof fn candle_holds_what_it_is_given(
    regs: Seq<CandleTensor>,
    data: Seq<u32>,
    shape: Shape2,
    t: CandleTensor,
    u: CandleTensor,
    bits: Seq<u32>,
)
    ensures
        Candle.input_gives(data, shape, Ok(t)) ==> candle_bits(t.tensor()) == data && candle_dims(
            t.tensor(),
        ) == seq![shape.0, shape.1],
        Candle.leaf_gives(regs, data, shape, Ok(t)) ==> candle_bits(t.tensor()) == data
            && candle_dims(t.tensor()) == seq![shape.0, shape.1] && candle_is_variable(t.tensor())
            && forall|i: int|
            0 <= i < regs.len() ==> candle_node((#[trigger] regs[i]).tensor()) != candle_node(
                t.tensor(),
            ),
        Candle.leaf_gives(regs, data, shape, Ok(t)) ==> forall|v: int| #[trigger]
            candle_sources(t.tensor()).contains(v) <==> v == candle_node(t.tensor()),
        Candle.alias_gives(t, u) <==> u.tensor() == t.tensor(),
        Candle.reads_as(t, Ok(bits)) <==> bits == candle_bits(t.tensor()),
{
    if grid(t.tensor()).is_shaped(shape) {
        assert(candle_dims(t.tensor()) =~= seq![shape.0, shape.1]);
    }
}

/// What candle answers to an instruction, to the backward pass and to the request for a
/// gradient: what it computes for the instruction as it is resolved among the shapes; the
/// gradients of the node that it started from, those of the variables behind it and of no
/// other; and the gradient under the node of the leaf, in the leaf's shape, exactly if there
/// is one.
pub proof fn candle_answers_by_its_graph(
    regs: Seq<CandleTensor>,
    shapes: Seq<Shape2>,
    instr: TensorInstr,
    t: CandleTensor,
    grads: CandleGrads,
    g: CandleTensor,
)
    ensures
        Candle.eval_gives(regs, shapes, instr, Ok(t)) <==> may_compute(
            crate::resolve::resolution(shapes, instr),
            regs,
            t.tensor(),
        ),
        Candle.backward_gives(t, Ok(grads)) ==> {
            let stored = candle_gradients(grads.store());
            &&& candle_backward(candle_node(t.tensor()), stored)
            &&& forall|v: candle_core::Tensor|
                candle_is_variable(v) ==> (stored.contains_key(#[trigger] candle_node(v))
                    <==> candle_sources(t.tensor()).contains(candle_node(v)))
            &&& candle_is_variable(t.tensor()) ==> stored.contains_key(candle_node(t.tensor()))
                && stored[candle_node(t.tensor())] == Seq::new(
                candle_bits(t.tensor()).len(),
                |i: int| 0x3f800000u32,
            )
        },
        Candle.grad_gives(grads, t, Some(g)) ==> {
            let stored = candle_gradients(grads.store());
            &&& stored.contains_key(candle_node(t.tensor()))
            &&& candle_bits(g.tensor()) == stored[candle_node(t.tensor())]
            &&& candle_dims(g.tensor()) == candle_dims(t.tensor())
        },
        Candle.grad_gives(grads, t, None) <==> !candle_gradients(grads.store()).contains_key(
            candle_node(t.tensor()),
        ),
{
}

} // verus!
