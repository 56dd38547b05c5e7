//! What every instruction means, as far as no arithmetic is involved.
//!
//! A tensor is a matrix of 32-bit floating-point numbers here: its dimensions and the
//! bit patterns of its elements. What an instruction does to dimensions and to the
//! order of elements is the same for every target and stated exactly. What the
//! arithmetic yields for an element is up to the target, which brings its `Numerics`.

use vstd::prelude::*;
use crate::ops::ResolvedInstr;
use crate::shape::Shape2;

verus! {

/// A matrix: its dimensions, outermost first, and the bit patterns of its elements,
/// row by row.
pub struct Matrix {
    pub dims: Seq<usize>,
    pub bits: Seq<u32>,
}

/// An operation on each element by itself.
pub enum Elementwise {
    Neg,
    Abs,
    Exp,
    Log,
    Sqrt,
    /// The exponent in decimal notation.
    Powf(Seq<char>),
    Relu,
    Sigmoid,
    Tanh,
    Clamp(int, int),
}

/// An operation on pairs of elements.
pub enum Pairwise {
    Add,
    Sub,
    Mul,
    Div,
}

/// An operation on several elements at once.
pub enum Aggregate {
    SumAll,
    MeanAll,
    SumDim,
    MeanDim,
}

/// The arithmetic of a target: which bits it may answer with.
pub struct Numerics {
    pub map: spec_fn(Elementwise, u32, u32) -> bool,
    pub combine: spec_fn(Pairwise, u32, u32, u32) -> bool,
    /// For one row and one column of a matrix product.
    pub product: spec_fn(Seq<u32>, Seq<u32>, u32) -> bool,
    pub aggregate: spec_fn(Aggregate, Seq<u32>, u32) -> bool,
}

impl Matrix {
    /// There are two dimensions, neither of them zero, and as many elements as they say.
    pub open spec fn valid(self) -> bool {
        &&& self.dims.len() == 2
        &&& self.dims[0] >= 1
        &&& self.dims[1] >= 1
        &&& self.bits.len() == self.dims[0] * self.dims[1]
    }

    pub open spec fn is_shaped(self, shape: Shape2) -> bool {
        self.valid() && self.dims[0] == shape.0 && self.dims[1] == shape.1
    }

    /// The element in the given row and column.
    pub open spec fn at(self, r: int, c: int) -> u32 {
        self.bits[r * self.dims[1] + c]
    }

    pub open spec fn row(self, r: int) -> Seq<u32> {
        Seq::new(self.dims[1] as nat, |c: int| self.at(r, c))
    }

    pub open spec fn column(self, c: int) -> Seq<u32> {
        Seq::new(self.dims[0] as nat, |r: int| self.at(r, c))
    }

    /// The elements that are reduced to element `i` when dimension `dim` is.
    pub open spec fn lane(self, dim: int, i: int) -> Seq<u32> {
        if dim == 0 {
            self.column(i)
        } else {
            self.row(i)
        }
    }

    /// The element that is read for the given row and column of a broadcast result: a
    /// dimension of length one is stretched.
    pub open spec fn broadcast_at(self, r: int, c: int) -> u32 {
        self.at(
            if self.dims[0] == 1 {
                0
            } else {
                r
            },
            if self.dims[1] == 1 {
                0
            } else {
                c
            },
        )
    }

    /// Whether `z` has the same dimensions.
    pub open spec fn is_like(self, z: Matrix) -> bool {
        z.valid() && z.dims == self.dims
    }

    /// Whether the dimensions of two matrices can be stretched to each other.
    pub open spec fn joins(self, y: Matrix) -> bool {
        &&& crate::shape::dims_broadcast(self.dims[0], y.dims[0])
        &&& crate::shape::dims_broadcast(self.dims[1], y.dims[1])
    }

    /// Whether `z` has the dimensions of a broadcast result.
    pub open spec fn is_joined(self, y: Matrix, z: Matrix) -> bool {
        z.is_shaped(
            Shape2(
                crate::shape::larger(self.dims[0], y.dims[0]),
                crate::shape::larger(self.dims[1], y.dims[1]),
            ),
        )
    }

    /// Whether `z` has these dimensions, but for dimension `dim`, whose length is one.
    pub open spec fn is_reduced(self, dim: int, z: Matrix) -> bool {
        if dim == 0 {
            z.is_shaped(Shape2(1, self.dims[1]))
        } else {
            z.is_shaped(Shape2(self.dims[0], 1))
        }
    }

    /// Whether `z` is this matrix with the operation done on each element.
    pub open spec fn is_map(self, n: Numerics, op: Elementwise, z: Matrix) -> bool {
        &&& self.is_like(z)
        &&& forall|i: int|
            0 <= i < z.bits.len() ==> (n.map)(op, self.bits[i], #[trigger] z.bits[i])
    }

    /// Whether `z` is the operation done on each pair of elements, where a dimension of
    /// length one is stretched to the other's length.
    pub open spec fn is_combination(self, n: Numerics, op: Pairwise, y: Matrix, z: Matrix) -> bool {
        &&& self.is_joined(y, z)
        &&& forall|i: int, j: int|
            0 <= i < z.dims[0] && 0 <= j < z.dims[1] ==> (n.combine)(
                op,
                self.broadcast_at(i, j),
                y.broadcast_at(i, j),
                #[trigger] z.at(i, j),
            )
    }

    /// Whether `z` is the matrix product.
    pub open spec fn is_product(self, n: Numerics, y: Matrix, z: Matrix) -> bool {
        &&& z.is_shaped(Shape2(self.dims[0], y.dims[1]))
        &&& forall|i: int, j: int|
            0 <= i < z.dims[0] && 0 <= j < z.dims[1] ==> (n.product)(
                self.row(i),
                y.column(j),
                #[trigger] z.at(i, j),
            )
    }

    /// Whether `z` is the one element that the operation makes of all.
    pub open spec fn is_total(self, n: Numerics, op: Aggregate, z: Matrix) -> bool {
        z.is_shaped(Shape2(1, 1)) && (n.aggregate)(op, self.bits, z.bits[0])
    }

    /// Whether `z` is the operation done along one dimension, which is kept with length
    /// one.
    pub open spec fn is_reduction(self, n: Numerics, op: Aggregate, dim: int, z: Matrix) -> bool {
        &&& self.is_reduced(dim, z)
        &&& forall|i: int|
            0 <= i < z.bits.len() ==> (n.aggregate)(op, self.lane(dim, i), #[trigger] z.bits[i])
    }

    /// Whether `z` has the same elements with rows and columns exchanged.
    pub open spec fn is_transposed(self, z: Matrix) -> bool {
        &&& z.is_shaped(Shape2(self.dims[1], self.dims[0]))
        &&& forall|r: int, c: int|
            0 <= r < z.dims[0] && 0 <= c < z.dims[1] ==> #[trigger] z.at(r, c) == self.at(c, r)
    }

    /// Whether `z` is this matrix with `y` below it, or to the right of it where `dim` is
    /// one.
    pub open spec fn is_concatenation(self, y: Matrix, dim: int, z: Matrix) -> bool {
        let xs = self.dims;
        let ys = y.dims;
        let zs = z.dims;
        &&& z.valid()
        &&& dim == 0 ==> zs[0] == xs[0] + ys[0] && zs[1] == xs[1]
        &&& dim != 0 ==> zs[0] == xs[0] && zs[1] == xs[1] + ys[1]
        &&& forall|r: int, c: int|
            0 <= r < zs[0] && 0 <= c < zs[1] ==> #[trigger] z.at(r, c) == if r < xs[0] && c
                < xs[1] {
                self.at(r, c)
            } else if dim == 0 {
                y.at(r - xs[0], c)
            } else {
                y.at(r, c - xs[1])
            }
    }

    /// Whether `z` is tiled with this matrix, `rows` times downwards and `cols` times to
    /// the right: whole copies side by side, no element doubled in place.
    pub open spec fn is_tiled(self, rows: int, cols: int, z: Matrix) -> bool {
        let xs = self.dims;
        let zs = z.dims;
        &&& z.valid()
        &&& zs[0] == xs[0] * rows
        &&& zs[1] == xs[1] * cols
        &&& forall|r: int, c: int|
            0 <= r < zs[0] && 0 <= c < zs[1] ==> #[trigger] z.at(r, c) == self.at(
                r % (xs[0] as int),
                c % (xs[1] as int),
            )
    }
}

/// Whether `rows` by `cols` elements are few enough for a register.
pub open spec fn is_capped(rows: int, cols: int) -> bool {
    !crate::shape::over_cap(rows, cols)
}

/// Whether `z` is what the instruction means on the registers, for a target with the
/// given arithmetic: operands are broadcast, reductions keep their dimension, a reduction
/// of the whole matrix is a matrix of one element, and repetition tiles.
pub open spec fn means(n: Numerics, op: ResolvedInstr, regs: Seq<Matrix>, z: Matrix) -> bool {
    match op {
        ResolvedInstr::Add(a, b) => regs[a as int].is_combination(
            n,
            Pairwise::Add,
            regs[b as int],
            z,
        ),
        ResolvedInstr::Sub(a, b) => regs[a as int].is_combination(
            n,
            Pairwise::Sub,
            regs[b as int],
            z,
        ),
        ResolvedInstr::Mul(a, b) => regs[a as int].is_combination(
            n,
            Pairwise::Mul,
            regs[b as int],
            z,
        ),
        ResolvedInstr::Div(a, b) => regs[a as int].is_combination(
            n,
            Pairwise::Div,
            regs[b as int],
            z,
        ),
        ResolvedInstr::Matmul(a, b) => regs[a as int].is_product(n, regs[b as int], z),
        ResolvedInstr::MatmulPassthrough(a) | ResolvedInstr::ConcatPassthrough(a) => z
            == regs[a as int],
        ResolvedInstr::Neg(a) => regs[a as int].is_map(n, Elementwise::Neg, z),
        ResolvedInstr::Abs(a) => regs[a as int].is_map(n, Elementwise::Abs, z),
        ResolvedInstr::Exp(a) => regs[a as int].is_map(n, Elementwise::Exp, z),
        ResolvedInstr::Log(a) => regs[a as int].is_map(n, Elementwise::Log, z),
        ResolvedInstr::Sqrt(a) => regs[a as int].is_map(n, Elementwise::Sqrt, z),
        ResolvedInstr::PowfScalar(a, halves) => regs[a as int].is_map(
            n,
            Elementwise::Powf(crate::ops::exponent_text(halves as int)),
            z,
        ),
        ResolvedInstr::Relu(a) => regs[a as int].is_map(n, Elementwise::Relu, z),
        ResolvedInstr::Sigmoid(a) => regs[a as int].is_map(n, Elementwise::Sigmoid, z),
        ResolvedInstr::Tanh(a) => regs[a as int].is_map(n, Elementwise::Tanh, z),
        ResolvedInstr::SumAll(a) => regs[a as int].is_total(n, Aggregate::SumAll, z),
        ResolvedInstr::MeanAll(a) => regs[a as int].is_total(n, Aggregate::MeanAll, z),
        ResolvedInstr::SumDim(a, dim) => regs[a as int].is_reduction(
            n,
            Aggregate::SumDim,
            dim as int,
            z,
        ),
        ResolvedInstr::MeanDim(a, dim) => regs[a as int].is_reduction(
            n,
            Aggregate::MeanDim,
            dim as int,
            z,
        ),
        ResolvedInstr::Transpose(a) => regs[a as int].is_transposed(z),
        ResolvedInstr::Concat(a, b, dim) => regs[a as int].is_concatenation(
            regs[b as int],
            dim as int,
            z,
        ),
        ResolvedInstr::Repeat(a, dim, count) => if dim == 0 {
            regs[a as int].is_tiled(count as int, 1, z)
        } else {
            regs[a as int].is_tiled(1, count as int, z)
        },
        ResolvedInstr::Clamp(a) => regs[a as int].is_map(
            n,
            Elementwise::Clamp(-1000000, 1000000),
            z,
        ),
    }
}

/// What an instruction means has the shape that the instruction predicts.
pub proof fn results_have_the_predicted_shape(
    n: Numerics,
    op: ResolvedInstr,
    regs: Seq<Matrix>,
    shapes: Seq<Shape2>,
    z: Matrix,
)
    requires
        regs.len() == shapes.len(),
        forall|i: int| 0 <= i < regs.len() ==> (#[trigger] regs[i]).is_shaped(shapes[i]),
        op.legal(shapes),
        op.fits(shapes),
        means(n, op, regs, z),
    ensures
        z.is_shaped(op.out_shape(shapes)),
{
}

/// The register that the instruction passes on, if it only does that.
pub open spec fn passed_on(op: ResolvedInstr) -> Option<usize> {
    match op {
        ResolvedInstr::MatmulPassthrough(a) | ResolvedInstr::ConcatPassthrough(a) => Some(a),
        _ => None,
    }
}

/// Whether the instruction only moves elements.
pub open spec fn only_moves(op: ResolvedInstr) -> bool {
    match op {
        ResolvedInstr::MatmulPassthrough(_)
        | ResolvedInstr::ConcatPassthrough(_)
        | ResolvedInstr::Transpose(_)
        | ResolvedInstr::Concat(_, _, _)
        | ResolvedInstr::Repeat(_, _, _) => true,
        _ => false,
    }
}

/// A matrix of which every element is known is known.
proof fn elements_determine(x: Matrix, z: Matrix)
    requires
        x.valid(),
        z.valid(),
        x.dims == z.dims,
        forall|r: int, c: int|
            0 <= r < z.dims[0] && 0 <= c < z.dims[1] ==> #[trigger] z.at(r, c) == x.at(r, c),
    ensures
        x == z,
{
    let rows = z.dims[0] as int;
    let cols = z.dims[1] as int;
    assert forall|i: int| 0 <= i < z.bits.len() implies x.bits[i] == z.bits[i] by {
        let r = i / cols;
        let c = i % cols;
        assert(i == r * cols + c && 0 <= c < cols && 0 <= r < rows) by (nonlinear_arith)
            requires
                r == i / cols,
                c == i % cols,
                0 <= i < rows * cols,
                cols >= 1,
        ;
        assert(z.at(r, c) == x.at(r, c));
    }
    assert(x.bits =~= z.bits);
}

/// Targets agree bit for bit on an instruction that only moves elements, whatever their
/// arithmetic.
pub proof fn targets_agree_on_moves(
    left: Numerics,
    right: Numerics,
    op: ResolvedInstr,
    regs: Seq<Matrix>,
    x: Matrix,
    z: Matrix,
)
    requires
        only_moves(op),
        means(left, op, regs, x),
        means(right, op, regs, z),
    ensures
        x == z,
{
    match op {
        ResolvedInstr::Transpose(_)
        | ResolvedInstr::Concat(_, _, _)
        | ResolvedInstr::Repeat(_, _, _) => {
            assert(x.dims =~= z.dims);
            assert forall|r: int, c: int| 0 <= r < z.dims[0] && 0 <= c < z.dims[1] implies
                #[trigger] z.at(r, c) == x.at(r, c) by {}
            elements_determine(x, z);
        },
        _ => {},
    }
}

/// Repeating a row to the right writes the whole row again and again.
pub proof fn a_repeated_row_is_tiled(
    n: Numerics,
    regs: Seq<Matrix>,
    a: usize,
    count: usize,
    z: Matrix,
    i: int,
)
    requires
        regs[a as int].valid(),
        regs[a as int].dims[0] == 1,
        means(n, ResolvedInstr::Repeat(a, 1, count), regs, z),
        0 <= i < z.bits.len(),
    ensures
        z.bits[i] == regs[a as int].bits[i % regs[a as int].bits.len() as int],
{
    let x = regs[a as int];
    let width = x.dims[1] as int;
    assert(x.is_tiled(1, count as int, z));
    assert(1 * width == width);
    assert(z.dims[0] * z.dims[1] == z.dims[1]) by (nonlinear_arith)
        requires
            z.dims[0] == 1,
    ;
    assert(z.at(0, i) == z.bits[i]);
    assert(0int % 1int == 0);
    assert(x.at(0, i % width) == x.bits[i % width]);
}

/// An instruction on each element by itself gives a matrix of the same dimensions, and each
/// of its elements comes from the element in the same place, by the operation that the
/// instruction names. A power has the exponent of the instruction, and clamping is between
/// minus and plus a million.
pub proof fn elements_are_mapped_in_place(
    n: Numerics,
    op: ResolvedInstr,
    regs: Seq<Matrix>,
    z: Matrix,
    i: int,
)
    requires
        means(n, op, regs, z),
        0 <= i < z.bits.len(),
    ensures
        match op {
            ResolvedInstr::Neg(a) => z.dims == regs[a as int].dims && (n.map)(
                Elementwise::Neg,
                regs[a as int].bits[i],
                z.bits[i],
            ),
            ResolvedInstr::Abs(a) => z.dims == regs[a as int].dims && (n.map)(
                Elementwise::Abs,
                regs[a as int].bits[i],
                z.bits[i],
            ),
            ResolvedInstr::Exp(a) => z.dims == regs[a as int].dims && (n.map)(
                Elementwise::Exp,
                regs[a as int].bits[i],
                z.bits[i],
            ),
            ResolvedInstr::Log(a) => z.dims == regs[a as int].dims && (n.map)(
                Elementwise::Log,
                regs[a as int].bits[i],
                z.bits[i],
            ),
            ResolvedInstr::Sqrt(a) => z.dims == regs[a as int].dims && (n.map)(
                Elementwise::Sqrt,
                regs[a as int].bits[i],
                z.bits[i],
            ),
            ResolvedInstr::Relu(a) => z.dims == regs[a as int].dims && (n.map)(
                Elementwise::Relu,
                regs[a as int].bits[i],
                z.bits[i],
            ),
            ResolvedInstr::Sigmoid(a) => z.dims == regs[a as int].dims && (n.map)(
                Elementwise::Sigmoid,
                regs[a as int].bits[i],
                z.bits[i],
            ),
            ResolvedInstr::Tanh(a) => z.dims == regs[a as int].dims && (n.map)(
                Elementwise::Tanh,
                regs[a as int].bits[i],
                z.bits[i],
            ),
            ResolvedInstr::PowfScalar(a, halves) => z.dims == regs[a as int].dims && (n.map)(
                Elementwise::Powf(crate::ops::exponent_text(halves as int)),
                regs[a as int].bits[i],
                z.bits[i],
            ),
            ResolvedInstr::Clamp(a) => z.dims == regs[a as int].dims && (n.map)(
                Elementwise::Clamp(-1000000, 1000000),
                regs[a as int].bits[i],
                z.bits[i],
            ),
            ResolvedInstr::MatmulPassthrough(a) | ResolvedInstr::ConcatPassthrough(a) => z
                == regs[a as int],
            _ => true,
        },
{
}

/// An instruction on pairs of elements has, in each dimension, the larger length of its
/// operands', and each element comes from the first operand's element there and the second
/// operand's, in this order, by the operation that the instruction names. An operand of
/// length one in a dimension has its only element there read throughout.
pub proof fn elements_are_combined_in_order(
    n: Numerics,
    op: ResolvedInstr,
    regs: Seq<Matrix>,
    z: Matrix,
    i: int,
    j: int,
)
    requires
        means(n, op, regs, z),
        0 <= i < z.dims[0],
        0 <= j < z.dims[1],
    ensures
        match op {
            ResolvedInstr::Add(a, b) => {
                let x = regs[a as int];
                let y = regs[b as int];
                let from = |m: Matrix|
                    m.bits[(if m.dims[0] == 1 {
                        0
                    } else {
                        i
                    }) * m.dims[1] + (if m.dims[1] == 1 {
                        0
                    } else {
                        j
                    })];
                &&& z.dims.len() == 2
                &&& z.dims[0] >= x.dims[0] && z.dims[0] >= y.dims[0]
                &&& z.dims[0] == x.dims[0] || z.dims[0] == y.dims[0]
                &&& z.dims[1] >= x.dims[1] && z.dims[1] >= y.dims[1]
                &&& z.dims[1] == x.dims[1] || z.dims[1] == y.dims[1]
                &&& (n.combine)(Pairwise::Add, from(x), from(y), z.bits[i * z.dims[1] + j])
            },
            ResolvedInstr::Sub(a, b) => {
                let x = regs[a as int];
                let y = regs[b as int];
                let from = |m: Matrix|
                    m.bits[(if m.dims[0] == 1 {
                        0
                    } else {
                        i
                    }) * m.dims[1] + (if m.dims[1] == 1 {
                        0
                    } else {
                        j
                    })];
                &&& z.dims.len() == 2
                &&& z.dims[0] >= x.dims[0] && z.dims[0] >= y.dims[0]
                &&& z.dims[0] == x.dims[0] || z.dims[0] == y.dims[0]
                &&& z.dims[1] >= x.dims[1] && z.dims[1] >= y.dims[1]
                &&& z.dims[1] == x.dims[1] || z.dims[1] == y.dims[1]
                &&& (n.combine)(Pairwise::Sub, from(x), from(y), z.bits[i * z.dims[1] + j])
            },
            ResolvedInstr::Mul(a, b) => {
                let x = regs[a as int];
                let y = regs[b as int];
                let from = |m: Matrix|
                    m.bits[(if m.dims[0] == 1 {
                        0
                    } else {
                        i
                    }) * m.dims[1] + (if m.dims[1] == 1 {
                        0
                    } else {
                        j
                    })];
                &&& z.dims.len() == 2
                &&& z.dims[0] >= x.dims[0] && z.dims[0] >= y.dims[0]
                &&& z.dims[0] == x.dims[0] || z.dims[0] == y.dims[0]
                &&& z.dims[1] >= x.dims[1] && z.dims[1] >= y.dims[1]
                &&& z.dims[1] == x.dims[1] || z.dims[1] == y.dims[1]
                &&& (n.combine)(Pairwise::Mul, from(x), from(y), z.bits[i * z.dims[1] + j])
            },
            ResolvedInstr::Div(a, b) => {
                let x = regs[a as int];
                let y = regs[b as int];
                let from = |m: Matrix|
                    m.bits[(if m.dims[0] == 1 {
                        0
                    } else {
                        i
                    }) * m.dims[1] + (if m.dims[1] == 1 {
                        0
                    } else {
                        j
                    })];
                &&& z.dims.len() == 2
                &&& z.dims[0] >= x.dims[0] && z.dims[0] >= y.dims[0]
                &&& z.dims[0] == x.dims[0] || z.dims[0] == y.dims[0]
                &&& z.dims[1] >= x.dims[1] && z.dims[1] >= y.dims[1]
                &&& z.dims[1] == x.dims[1] || z.dims[1] == y.dims[1]
                &&& (n.combine)(Pairwise::Div, from(x), from(y), z.bits[i * z.dims[1] + j])
            },
            _ => true,
        },
{
    assert(z.at(i, j) == z.bits[i * z.dims[1] + j]);
}

/// A product has the rows of its first operand and the columns of its second, and each
/// element comes from the row of the first operand and the column of the second in whose
/// places it stands.
pub proof fn products_are_of_rows_and_columns(
    n: Numerics,
    a: usize,
    b: usize,
    regs: Seq<Matrix>,
    z: Matrix,
    i: int,
    j: int,
)
    requires
        means(n, ResolvedInstr::Matmul(a, b), regs, z),
        0 <= i < z.dims[0],
        0 <= j < z.dims[1],
    ensures
        ({
            let x = regs[a as int];
            let y = regs[b as int];
            let row = Seq::new(x.dims[1] as nat, |c: int| x.bits[i * x.dims[1] + c]);
            let column = Seq::new(y.dims[0] as nat, |r: int| y.bits[r * y.dims[1] + j]);
            &&& z.dims.len() == 2
            &&& z.dims[0] == x.dims[0]
            &&& z.dims[1] == y.dims[1]
            &&& (n.product)(row, column, z.bits[i * z.dims[1] + j])
        }),
{
    let x = regs[a as int];
    let y = regs[b as int];
    assert(z.at(i, j) == z.bits[i * z.dims[1] + j]);
    assert(x.row(i) =~= Seq::new(x.dims[1] as nat, |c: int| x.bits[i * x.dims[1] + c]));
    assert(y.column(j) =~= Seq::new(y.dims[0] as nat, |r: int| y.bits[r * y.dims[1] + j]));
}

/// A sum or a mean of a whole matrix is one element, made of all elements; one along the
/// rows has an element for each column, made of that column, and one along the columns an
/// element for each row, made of that row.
pub proof fn sums_and_means_are_of_what_is_reduced(
    n: Numerics,
    op: ResolvedInstr,
    regs: Seq<Matrix>,
    z: Matrix,
    i: int,
)
    requires
        means(n, op, regs, z),
        0 <= i < z.bits.len(),
    ensures
        match op {
            ResolvedInstr::SumAll(a) => {
                &&& z.dims.len() == 2 && z.dims[0] == 1 && z.dims[1] == 1
                &&& z.bits.len() == 1
                &&& (n.aggregate)(Aggregate::SumAll, regs[a as int].bits, z.bits[i])
            },
            ResolvedInstr::MeanAll(a) => {
                &&& z.dims.len() == 2 && z.dims[0] == 1 && z.dims[1] == 1
                &&& z.bits.len() == 1
                &&& (n.aggregate)(Aggregate::MeanAll, regs[a as int].bits, z.bits[i])
            },
            ResolvedInstr::SumDim(a, dim) => {
                let x = regs[a as int];
                let column = Seq::new(x.dims[0] as nat, |r: int| x.bits[r * x.dims[1] + i]);
                let row = Seq::new(x.dims[1] as nat, |c: int| x.bits[i * x.dims[1] + c]);
                &&& z.dims.len() == 2
                &&& dim == 0 ==> z.dims[0] == 1 && z.dims[1] == x.dims[1] && (n.aggregate)(
                    Aggregate::SumDim,
                    column,
                    z.bits[i],
                )
                &&& dim == 1 ==> z.dims[0] == x.dims[0] && z.dims[1] == 1 && (n.aggregate)(
                    Aggregate::SumDim,
                    row,
                    z.bits[i],
                )
            },
            ResolvedInstr::MeanDim(a, dim) => {
                let x = regs[a as int];
                let column = Seq::new(x.dims[0] as nat, |r: int| x.bits[r * x.dims[1] + i]);
                let row = Seq::new(x.dims[1] as nat, |c: int| x.bits[i * x.dims[1] + c]);
                &&& z.dims.len() == 2
                &&& dim == 0 ==> z.dims[0] == 1 && z.dims[1] == x.dims[1] && (n.aggregate)(
                    Aggregate::MeanDim,
                    column,
                    z.bits[i],
                )
                &&& dim == 1 ==> z.dims[0] == x.dims[0] && z.dims[1] == 1 && (n.aggregate)(
                    Aggregate::MeanDim,
                    row,
                    z.bits[i],
                )
            },
            _ => true,
        },
{
    match op {
        ResolvedInstr::SumAll(_) | ResolvedInstr::MeanAll(_) => {
            assert(z.bits.len() == 1) by (nonlinear_arith)
                requires
                    z.bits.len() == z.dims[0] * z.dims[1],
                    z.dims[0] == 1,
                    z.dims[1] == 1,
            ;
        },
        ResolvedInstr::SumDim(a, dim) | ResolvedInstr::MeanDim(a, dim) => {
            let x = regs[a as int];
            assert(x.column(i) =~= Seq::new(
                x.dims[0] as nat,
                |r: int| x.bits[r * x.dims[1] + i],
            ));
            assert(x.row(i) =~= Seq::new(x.dims[1] as nat, |c: int| x.bits[i * x.dims[1] + c]));
        },
        _ => {},
    }
}

/// Where an instruction that only moves elements takes each from: a transposition from the
/// place with row and column exchanged; a concatenation along the rows from the first
/// operand as far as it has rows and then from the second, one along the columns likewise
/// by columns; and a repetition from the place that is left when whole copies are taken
/// away.
pub proof fn moved_elements_come_from_their_places(
    n: Numerics,
    op: ResolvedInstr,
    regs: Seq<Matrix>,
    z: Matrix,
    i: int,
    j: int,
)
    requires
        means(n, op, regs, z),
        0 <= i < z.dims[0],
        0 <= j < z.dims[1],
    ensures
        ({
            let element = z.bits[i * z.dims[1] + j];
            let x = regs[op.left() as int];
            let rows = x.dims[0] as int;
            let cols = x.dims[1] as int;
            match op {
                ResolvedInstr::Transpose(_) => {
                    &&& z.dims[0] == cols && z.dims[1] == rows
                    &&& element == x.bits[j * cols + i]
                },
                ResolvedInstr::Concat(_, b, dim) => {
                    let y = regs[b as int];
                    &&& dim == 0 ==> z.dims[0] == rows + y.dims[0] && z.dims[1] == cols
                    &&& dim == 1 ==> z.dims[0] == rows && z.dims[1] == cols + y.dims[1]
                    &&& dim == 0 && i < rows ==> element == x.bits[i * cols + j]
                    &&& dim == 0 && i >= rows ==> element == y.bits[(i - rows) * y.dims[1] + j]
                    &&& dim == 1 && j < cols ==> element == x.bits[i * cols + j]
                    &&& dim == 1 && j >= cols ==> element == y.bits[i * y.dims[1] + (j - cols)]
                },
                ResolvedInstr::Repeat(_, dim, count) => {
                    &&& dim == 0 ==> z.dims[0] == rows * count && z.dims[1] == cols
                    &&& dim == 1 ==> z.dims[0] == rows && z.dims[1] == cols * count
                    &&& element == x.bits[(i % rows) * cols + j % cols]
                },
                _ => true,
            }
        }),
{
    assert(z.at(i, j) == z.bits[i * z.dims[1] + j]);
    if let ResolvedInstr::Repeat(a, dim, count) = op {
        let x = regs[a as int];
        assert(x.dims[0] * 1 == x.dims[0] && x.dims[1] * 1 == x.dims[1]);
        assert(x.at(i % (x.dims[0] as int), j % (x.dims[1] as int)) == x.bits[(i % (
        x.dims[0] as int)) * x.dims[1] + j % (x.dims[1] as int)]);
    }
}

/// The instructions that only hand a register on are the two passthroughs, and besides them
/// transposition, concatenation and repetition only move elements.
pub proof fn what_moves_elements_and_what_hands_them_on(op: ResolvedInstr)
    ensures
        passed_on(op) is Some <==> op is MatmulPassthrough || op is ConcatPassthrough,
        passed_on(op) matches Some(a) ==> a == op.left(),
        only_moves(op) <==> op is MatmulPassthrough || op is ConcatPassthrough || op is Transpose
            || op is Concat || op is Repeat,
{
}

/// A matrix is written row by row: the element in a given row and column is as many places
/// from the first as there are elements in the rows before it and before it in its row.
pub proof fn matrices_are_written_row_by_row(x: Matrix, r: int, c: int)
    requires
        x.valid(),
        0 <= r < x.dims[0],
        0 <= c < x.dims[1],
    ensures
        x.bits.len() == x.dims[0] * x.dims[1],
        0 <= r * x.dims[1] + c < x.bits.len(),
        x.at(r, c) == x.bits[r * x.dims[1] + c],
        x.row(r).len() == x.dims[1],
        x.row(r)[c] == x.bits[r * x.dims[1] + c],
        x.column(c).len() == x.dims[0],
        x.column(c)[r] == x.bits[r * x.dims[1] + c],
{
    assert(0 <= r * x.dims[1] + c < x.dims[0] * x.dims[1]) by (nonlinear_arith)
        requires
            0 <= r < x.dims[0],
            0 <= c < x.dims[1],
    ;
}

} // verus!
