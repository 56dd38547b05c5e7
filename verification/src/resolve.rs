//! Operand resolution and output shapes.
//!
//! Any byte string is a program, so most instructions would be illegal if they
//! were taken literally. Resolution turns each into a legal one: the first operand
//! is taken as written, and the second is replaced by the latest register whose
//! shape fits when the one written does not.

use vstd::prelude::*;
use crate::ops::{DiffOp, Reg, ResolvedInstr, TensorInstr, dimension_of};
use crate::shape::Shape2;

verus! {

/// What an operation asks of the shapes of its two operands.
#[derive(Debug, Clone, Copy, PartialEq, Eq, Structural)]
pub enum Pairing {
    Broadcast,
    Matmul,
    /// Concatenation along the given dimension.
    Concat(usize),
}

impl Pairing {
    pub open spec fn accepts(self, a: Shape2, b: Shape2) -> bool {
        match self {
            Pairing::Broadcast => a.broadcasts(b),
            Pairing::Matmul => a.multiplies(b),
            Pairing::Concat(dim) => a.concatenates(b, dim as int),
        }
    }

    pub fn allows(self, a: Shape2, b: Shape2) -> (r: bool)
        ensures
            r == self.accepts(a, b),
    {
        match self {
            Pairing::Broadcast => a.broadcast_compatible(b),
            Pairing::Matmul => a.matmul_compatible(b),
            Pairing::Concat(dim) => a.concat_compatible(b, dim),
        }
    }
}

/// The latest of the first `n` registers that pairs with register `a`.
pub open spec fn latest_partner(shapes: Seq<Shape2>, a: int, pairing: Pairing, n: int) -> Option<
    int,
>
    decreases n,
{
    if n <= 0 {
        None
    } else if pairing.accepts(shapes[a], shapes[n - 1]) {
        Some(n - 1)
    } else {
        latest_partner(shapes, a, pairing, n - 1)
    }
}

/// The second operand for register `a`: the register that `b` means if it pairs
/// with `a`, else the latest register that does, if there is one.
pub open spec fn partner(shapes: Seq<Shape2>, a: int, b: Reg, pairing: Pairing) -> Option<int> {
    let wanted = b.index(shapes.len() as int);
    if pairing.accepts(shapes[a], shapes[wanted]) {
        Some(wanted)
    } else {
        latest_partner(shapes, a, pairing, shapes.len() as int)
    }
}

/// The second operand of an elementwise operation. Register `a` stands in where no
/// register pairs with it, which cannot happen: every shape broadcasts with itself.
pub open spec fn broadcast_partner(shapes: Seq<Shape2>, a: int, b: Reg) -> int {
    match partner(shapes, a, b, Pairing::Broadcast) {
        Some(i) => i,
        None => a,
    }
}

/// What `latest_partner` finds: the greatest index below `n` that pairs with `a`,
/// and nothing exactly when no index below `n` does.
pub proof fn latest_partner_is_greatest(
    shapes: Seq<Shape2>,
    a: int,
    pairing: Pairing,
    n: int,
)
    ensures
        match latest_partner(shapes, a, pairing, n) {
            Some(i) => {
                &&& 0 <= i < n
                &&& pairing.accepts(shapes[a], shapes[i])
                &&& forall|j: int|
                    i < j < n ==> !pairing.accepts(shapes[a], #[trigger] shapes[j])
            },
            None => forall|j: int|
                0 <= j < n ==> !pairing.accepts(shapes[a], #[trigger] shapes[j]),
        },
    decreases n,
{
    if n > 0 && !pairing.accepts(shapes[a], shapes[n - 1]) {
        latest_partner_is_greatest(shapes, a, pairing, n - 1);
    }
}

/// A second operand is found exactly when some register pairs with the first, and
/// the one found does pair with it. It is the register as written whenever that
/// one pairs, and otherwise no later register pairs.
pub proof fn partner_is_legal(shapes: Seq<Shape2>, a: int, b: Reg, pairing: Pairing)
    requires
        shapes.len() > 0,
    ensures
        partner(shapes, a, b, pairing) is Some <==> exists|j: int|
            0 <= j < shapes.len() && pairing.accepts(shapes[a], #[trigger] shapes[j]),
        partner(shapes, a, b, pairing) matches Some(i) ==> {
            &&& 0 <= i < shapes.len()
            &&& pairing.accepts(shapes[a], shapes[i])
            &&& pairing.accepts(shapes[a], shapes[b.index(shapes.len() as int)]) ==> i == b.index(
                shapes.len() as int,
            )
            &&& !pairing.accepts(shapes[a], shapes[b.index(shapes.len() as int)]) ==> forall|j: int|
                i < j < shapes.len() ==> !pairing.accepts(shapes[a], #[trigger] shapes[j])
        },
{
    latest_partner_is_greatest(shapes, a, pairing, shapes.len() as int);
    let wanted = b.index(shapes.len() as int);
    assert(0 <= wanted < shapes.len());
    if pairing.accepts(shapes[a], shapes[wanted]) {
        assert(pairing.accepts(shapes[a], shapes[wanted]));
    }
}

/// An elementwise operation always finds a second operand that broadcasts with the
/// first.
pub proof fn broadcast_partner_is_legal(shapes: Seq<Shape2>, a: int, b: Reg)
    requires
        0 <= a < shapes.len(),
    ensures
        partner(shapes, a, b, Pairing::Broadcast) is Some,
        0 <= broadcast_partner(shapes, a, b) < shapes.len(),
        shapes[a].broadcasts(shapes[broadcast_partner(shapes, a, b)]),
{
    assert(Pairing::Broadcast.accepts(shapes[a], shapes[a]));
    partner_is_legal(shapes, a, b, Pairing::Broadcast);
}

fn find_partner(shapes: &[Shape2], a_idx: usize, b_raw: &Reg, pairing: Pairing) -> (r: Option<
    usize,
>)
    requires
        a_idx < shapes.len(),
    ensures
        r matches Some(i) ==> partner(shapes@, a_idx as int, *b_raw, pairing) == Some(i as int),
        r is None ==> partner(shapes@, a_idx as int, *b_raw, pairing) is None,
{
    let n: usize = shapes.len();
    let b_idx: usize = b_raw.resolve(n);
    let sa = shapes[a_idx];
    if pairing.allows(sa, shapes[b_idx]) {
        return Some(b_idx);
    }
    let mut i: usize = n;
    while i > 0
        invariant
            i <= n,
            n == shapes@.len(),
            a_idx < n,
            sa == shapes@[a_idx as int],
            !pairing.accepts(sa, shapes@[b_raw.index(n as int)]),
            latest_partner(shapes@, a_idx as int, pairing, n as int) == latest_partner(
                shapes@,
                a_idx as int,
                pairing,
                i as int,
            ),
        decreases i,
    {
        i = i - 1;
        if pairing.allows(sa, shapes[i]) {
            return Some(i);
        }
    }
    None
}

/// Resolve `b_raw` to a register that broadcasts with register `a_idx`.
pub fn resolve_broadcast_compatible(shapes: &[Shape2], a_idx: usize, b_raw: &Reg) -> (r: usize)
    requires
        a_idx < shapes.len(),
    ensures
        r == broadcast_partner(shapes@, a_idx as int, *b_raw),
        r < shapes.len(),
{
    proof {
        broadcast_partner_is_legal(shapes@, a_idx as int, *b_raw);
    }
    match find_partner(shapes, a_idx, b_raw, Pairing::Broadcast) {
        Some(i) => i,
        None => a_idx,
    }
}

/// Resolve `b_raw` to a register whose rows match the columns of register `a_idx`.
/// `None` if there is none; the product then passes its first operand through.
pub fn resolve_matmul_compatible(shapes: &[Shape2], a_idx: usize, b_raw: &Reg) -> (r: Option<usize>)
    requires
        a_idx < shapes.len(),
    ensures
        r matches Some(i) ==> partner(shapes@, a_idx as int, *b_raw, Pairing::Matmul) == Some(
            i as int,
        ) && i < shapes.len(),
        r is None ==> partner(shapes@, a_idx as int, *b_raw, Pairing::Matmul) is None,
{
    proof {
        partner_is_legal(shapes@, a_idx as int, *b_raw, Pairing::Matmul);
    }
    find_partner(shapes, a_idx, b_raw, Pairing::Matmul)
}

/// Resolve `b_raw` to a register that can be concatenated to register `a_idx` along
/// `dim`. `None` if there is none.
pub fn resolve_concat_compatible(
    shapes: &[Shape2],
    a_idx: usize,
    b_raw: &Reg,
    dim: usize,
) -> (r: Option<usize>)
    requires
        a_idx < shapes.len(),
    ensures
        r matches Some(i) ==> partner(shapes@, a_idx as int, *b_raw, Pairing::Concat(dim)) == Some(
            i as int,
        ) && i < shapes.len(),
        r is None ==> partner(shapes@, a_idx as int, *b_raw, Pairing::Concat(dim)) is None,
{
    proof {
        partner_is_legal(shapes@, a_idx as int, *b_raw, Pairing::Concat(dim));
    }
    find_partner(shapes, a_idx, b_raw, Pairing::Concat(dim))
}

/// `instr` among registers of the given shapes, with legal operands: what it says
/// literally, but for the second operand of an operation on two registers.
pub open spec fn resolution(shapes: Seq<Shape2>, instr: TensorInstr) -> ResolvedInstr {
    let n = shapes.len() as int;
    match instr {
        TensorInstr::Add(a, b) => ResolvedInstr::Add(
            a.index(n) as usize,
            broadcast_partner(shapes, a.index(n), b) as usize,
        ),
        TensorInstr::Sub(a, b) => ResolvedInstr::Sub(
            a.index(n) as usize,
            broadcast_partner(shapes, a.index(n), b) as usize,
        ),
        TensorInstr::Mul(a, b) => ResolvedInstr::Mul(
            a.index(n) as usize,
            broadcast_partner(shapes, a.index(n), b) as usize,
        ),
        TensorInstr::Div(a, b) => ResolvedInstr::Div(
            a.index(n) as usize,
            broadcast_partner(shapes, a.index(n), b) as usize,
        ),
        TensorInstr::Matmul(a, b) => match partner(shapes, a.index(n), b, Pairing::Matmul) {
            Some(i) => ResolvedInstr::Matmul(a.index(n) as usize, i as usize),
            None => ResolvedInstr::MatmulPassthrough(a.index(n) as usize),
        },
        TensorInstr::Concat(a, b, d) => match partner(
            shapes,
            a.index(n),
            b,
            Pairing::Concat(crate::ops::dimension(d) as usize),
        ) {
            Some(i) => ResolvedInstr::Concat(
                a.index(n) as usize,
                i as usize,
                crate::ops::dimension(d) as usize,
            ),
            None => ResolvedInstr::ConcatPassthrough(a.index(n) as usize),
        },
        _ => instr.literal(n),
    }
}

/// Resolve every operand of `instr` against the registers that exist.
pub fn resolve_instr(shapes: &[Shape2], instr: &TensorInstr) -> (r: ResolvedInstr)
    requires
        shapes.len() > 0,
    ensures
        r == resolution(shapes@, *instr),
{
    let n: usize = shapes.len();
    match *instr {
        TensorInstr::Add(a, b) => {
            let ai: usize = a.resolve(n);
            ResolvedInstr::Add(ai, resolve_broadcast_compatible(shapes, ai, &b))
        },
        TensorInstr::Sub(a, b) => {
            let ai: usize = a.resolve(n);
            ResolvedInstr::Sub(ai, resolve_broadcast_compatible(shapes, ai, &b))
        },
        TensorInstr::Mul(a, b) => {
            let ai: usize = a.resolve(n);
            ResolvedInstr::Mul(ai, resolve_broadcast_compatible(shapes, ai, &b))
        },
        TensorInstr::Div(a, b) => {
            let ai: usize = a.resolve(n);
            ResolvedInstr::Div(ai, resolve_broadcast_compatible(shapes, ai, &b))
        },
        TensorInstr::Matmul(a, b) => {
            let ai: usize = a.resolve(n);
            match resolve_matmul_compatible(shapes, ai, &b) {
                Some(bi) => ResolvedInstr::Matmul(ai, bi),
                None => ResolvedInstr::MatmulPassthrough(ai),
            }
        },
        TensorInstr::Concat(a, b, d) => {
            let ai: usize = a.resolve(n);
            let dim: usize = dimension_of(d);
            match resolve_concat_compatible(shapes, ai, &b, dim) {
                Some(bi) => ResolvedInstr::Concat(ai, bi, dim),
                None => ResolvedInstr::ConcatPassthrough(ai),
            }
        },
        _ => instr.as_written(n),
    }
}

impl ResolvedInstr {
    /// Whether the instruction is legal among registers of the given shapes: it
    /// reads registers that exist, the shapes of its operands fit together, and its
    /// dimension and count are in range.
    pub open spec fn legal(self, shapes: Seq<Shape2>) -> bool {
        let n = shapes.len();
        match self {
            ResolvedInstr::Add(a, b)
            | ResolvedInstr::Sub(a, b)
            | ResolvedInstr::Mul(a, b)
            | ResolvedInstr::Div(a, b) => a < n && b < n && shapes[a as int].broadcasts(
                shapes[b as int],
            ),
            ResolvedInstr::Matmul(a, b) => a < n && b < n && shapes[a as int].multiplies(
                shapes[b as int],
            ),
            ResolvedInstr::MatmulPassthrough(a)
            | ResolvedInstr::ConcatPassthrough(a)
            | ResolvedInstr::Neg(a)
            | ResolvedInstr::Abs(a)
            | ResolvedInstr::Exp(a)
            | ResolvedInstr::Log(a)
            | ResolvedInstr::Sqrt(a)
            | ResolvedInstr::PowfScalar(a, _)
            | ResolvedInstr::Relu(a)
            | ResolvedInstr::Sigmoid(a)
            | ResolvedInstr::Tanh(a)
            | ResolvedInstr::SumAll(a)
            | ResolvedInstr::MeanAll(a)
            | ResolvedInstr::Transpose(a)
            | ResolvedInstr::Clamp(a) => a < n,
            ResolvedInstr::SumDim(a, dim) | ResolvedInstr::MeanDim(a, dim) => a < n && dim < 2,
            ResolvedInstr::Concat(a, b, dim) => a < n && b < n && dim < 2
                && shapes[a as int].concatenates(shapes[b as int], dim as int),
            ResolvedInstr::Repeat(a, dim, count) => a < n && dim < 2 && 1 <= count <= 4,
        }
    }

    /// Rows and columns of what the instruction produces, as whole numbers of any
    /// size.
    pub open spec fn out_dims(self, shapes: Seq<Shape2>) -> (int, int) {
        match self {
            ResolvedInstr::Add(a, b)
            | ResolvedInstr::Sub(a, b)
            | ResolvedInstr::Mul(a, b)
            | ResolvedInstr::Div(a, b) => {
                let joined = shapes[a as int].joined(shapes[b as int]);
                (joined.0 as int, joined.1 as int)
            },
            ResolvedInstr::Matmul(a, b) => (shapes[a as int].0 as int, shapes[b as int].1 as int),
            ResolvedInstr::MatmulPassthrough(a)
            | ResolvedInstr::ConcatPassthrough(a)
            | ResolvedInstr::Neg(a)
            | ResolvedInstr::Abs(a)
            | ResolvedInstr::Exp(a)
            | ResolvedInstr::Log(a)
            | ResolvedInstr::Sqrt(a)
            | ResolvedInstr::PowfScalar(a, _)
            | ResolvedInstr::Relu(a)
            | ResolvedInstr::Sigmoid(a)
            | ResolvedInstr::Tanh(a)
            | ResolvedInstr::Clamp(a) => (shapes[a as int].0 as int, shapes[a as int].1 as int),
            ResolvedInstr::SumAll(_) | ResolvedInstr::MeanAll(_) => (1, 1),
            ResolvedInstr::SumDim(a, dim) | ResolvedInstr::MeanDim(a, dim) => if dim == 0 {
                (1, shapes[a as int].1 as int)
            } else {
                (shapes[a as int].0 as int, 1)
            },
            ResolvedInstr::Transpose(a) => (shapes[a as int].1 as int, shapes[a as int].0 as int),
            ResolvedInstr::Concat(a, b, dim) => if dim == 0 {
                (shapes[a as int].0 + shapes[b as int].0, shapes[a as int].1 as int)
            } else {
                (shapes[a as int].0 as int, shapes[a as int].1 + shapes[b as int].1)
            },
            ResolvedInstr::Repeat(a, dim, count) => if dim == 0 {
                (shapes[a as int].0 * count, shapes[a as int].1 as int)
            } else {
                (shapes[a as int].0 as int, shapes[a as int].1 * count)
            },
        }
    }

    /// Whether the shape of what the instruction produces can be represented.
    pub open spec fn fits(self, shapes: Seq<Shape2>) -> bool {
        self.out_dims(shapes).0 <= usize::MAX && self.out_dims(shapes).1 <= usize::MAX
    }

    /// The shape of what the instruction produces.
    pub open spec fn out_shape(self, shapes: Seq<Shape2>) -> Shape2 {
        Shape2(self.out_dims(shapes).0 as usize, self.out_dims(shapes).1 as usize)
    }
}

/// Resolution makes every instruction legal, whatever registers it names.
pub proof fn resolution_is_legal(shapes: Seq<Shape2>, instr: TensorInstr)
    requires
        0 < shapes.len() <= usize::MAX,
    ensures
        resolution(shapes, instr).legal(shapes),
{
    let n = shapes.len() as int;
    match instr {
        TensorInstr::Add(a, b)
        | TensorInstr::Sub(a, b)
        | TensorInstr::Mul(a, b)
        | TensorInstr::Div(a, b) => {
            broadcast_partner_is_legal(shapes, a.index(n), b);
        },
        TensorInstr::Matmul(a, b) => {
            partner_is_legal(shapes, a.index(n), b, Pairing::Matmul);
        },
        TensorInstr::Concat(a, b, d) => {
            partner_is_legal(
                shapes,
                a.index(n),
                b,
                Pairing::Concat(crate::ops::dimension(d) as usize),
            );
        },
        _ => {},
    }
}

/// An instruction that is legal as it is written is left as it is written.
pub proof fn resolution_keeps_legal_instructions(shapes: Seq<Shape2>, instr: TensorInstr)
    requires
        0 < shapes.len() <= usize::MAX,
        instr.literal(shapes.len() as int).legal(shapes),
    ensures
        resolution(shapes, instr) == instr.literal(shapes.len() as int),
{
}

/// Resolving what has been resolved changes nothing: a program that names the
/// resolved second operand runs the same instruction.
pub proof fn resolution_is_stable(shapes: Seq<Shape2>, a: int, b: Reg, c: Reg, pairing: Pairing)
    requires
        shapes.len() > 0,
        partner(shapes, a, b, pairing) == Some(c.index(shapes.len() as int)),
    ensures
        partner(shapes, a, c, pairing) == partner(shapes, a, b, pairing),
{
    partner_is_legal(shapes, a, b, pairing);
}

/// Non-empty registers yield non-empty results, and no result is more than four
/// times as long on a side as the longest register.
pub proof fn result_grows_at_most_fourfold(
    shapes: Seq<Shape2>,
    op: ResolvedInstr,
    longest: int,
)
    requires
        op.legal(shapes),
        forall|i: int|
            0 <= i < shapes.len() ==> 1 <= (#[trigger] shapes[i]).0 <= longest && 1 <= shapes[i].1
                <= longest,
    ensures
        1 <= op.out_dims(shapes).0 <= 4 * longest,
        1 <= op.out_dims(shapes).1 <= 4 * longest,
{
    assert(1 <= shapes[0].0 <= longest);
    if let ResolvedInstr::Repeat(a, dim, count) = op {
        let s = shapes[a as int];
        assert(1 <= s.0 * count <= 4 * longest) by (nonlinear_arith)
            requires
                1 <= s.0 <= longest,
                1 <= count <= 4,
        ;
        assert(1 <= s.1 * count <= 4 * longest) by (nonlinear_arith)
            requires
                1 <= s.1 <= longest,
                1 <= count <= 4,
        ;
    }
}

/// The shape of what `instr` produces, resolved against the registers that exist.
pub fn after_tensor_instr(shapes: &[Shape2], instr: &TensorInstr) -> (r: Shape2)
    requires
        shapes.len() > 0,
        resolution(shapes@, *instr).fits(shapes@),
    ensures
        r.0 == resolution(shapes@, *instr).out_dims(shapes@).0,
        r.1 == resolution(shapes@, *instr).out_dims(shapes@).1,
        r == resolution(shapes@, *instr).out_shape(shapes@),
{
    proof {
        resolution_is_legal(shapes@, *instr);
    }
    shape_after(shapes, &resolve_instr(shapes, instr))
}

/// The shape of what a resolved instruction produces.
pub fn shape_after(shapes: &[Shape2], op: &ResolvedInstr) -> (r: Shape2)
    requires
        op.legal(shapes@),
        op.fits(shapes@),
    ensures
        r.0 == op.out_dims(shapes@).0,
        r.1 == op.out_dims(shapes@).1,
        r == op.out_shape(shapes@),
{
    match *op {
        ResolvedInstr::Add(a, b)
        | ResolvedInstr::Sub(a, b)
        | ResolvedInstr::Mul(a, b)
        | ResolvedInstr::Div(a, b) => shapes[a].broadcast_result(shapes[b]),
        ResolvedInstr::Matmul(a, b) => Shape2(shapes[a].0, shapes[b].1),
        ResolvedInstr::MatmulPassthrough(a)
        | ResolvedInstr::ConcatPassthrough(a)
        | ResolvedInstr::Neg(a)
        | ResolvedInstr::Abs(a)
        | ResolvedInstr::Exp(a)
        | ResolvedInstr::Log(a)
        | ResolvedInstr::Sqrt(a)
        | ResolvedInstr::PowfScalar(a, _)
        | ResolvedInstr::Relu(a)
        | ResolvedInstr::Sigmoid(a)
        | ResolvedInstr::Tanh(a)
        | ResolvedInstr::Clamp(a) => shapes[a],
        ResolvedInstr::SumAll(_) | ResolvedInstr::MeanAll(_) => Shape2(1, 1),
        ResolvedInstr::SumDim(a, dim) | ResolvedInstr::MeanDim(a, dim) => {
            if dim == 0 {
                Shape2(1, shapes[a].1)
            } else {
                Shape2(shapes[a].0, 1)
            }
        },
        ResolvedInstr::Transpose(a) => Shape2(shapes[a].1, shapes[a].0),
        ResolvedInstr::Concat(a, b, dim) => {
            if dim == 0 {
                Shape2(shapes[a].0 + shapes[b].0, shapes[a].1)
            } else {
                Shape2(shapes[a].0, shapes[a].1 + shapes[b].1)
            }
        },
        ResolvedInstr::Repeat(a, dim, count) => {
            if dim == 0 {
                Shape2(shapes[a].0 * count, shapes[a].1)
            } else {
                Shape2(shapes[a].0, shapes[a].1 * count)
            }
        },
    }
}

/// The shape of what a resolved instruction produces, or `None` if it cannot be
/// represented.
pub fn checked_shape_after(shapes: &[Shape2], op: &ResolvedInstr) -> (r: Option<Shape2>)
    requires
        op.legal(shapes@),
    ensures
        r is Some <==> op.fits(shapes@),
        r matches Some(shape) ==> shape == op.out_shape(shapes@),
{
    let room: bool = match *op {
        ResolvedInstr::Concat(a, b, dim) => {
            if dim == 0 {
                shapes[a].0.checked_add(shapes[b].0).is_some()
            } else {
                shapes[a].1.checked_add(shapes[b].1).is_some()
            }
        },
        ResolvedInstr::Repeat(a, dim, count) => {
            if dim == 0 {
                shapes[a].0.checked_mul(count).is_some()
            } else {
                shapes[a].1.checked_mul(count).is_some()
            }
        },
        _ => true,
    };
    if room {
        Some(shape_after(shapes, op))
    } else {
        None
    }
}

/// The shape of what an instruction of an autograd program produces among registers of the
/// given shapes, if it depends on them.
pub open spec fn diff_op_shape(shapes: Seq<Shape2>, op: DiffOp) -> Option<Shape2> {
    match op {
        DiffOp::Leaf { .. } => None,
        DiffOp::Instr(instr) => Some(resolution(shapes, instr).out_shape(shapes)),
    }
}

/// The shape of what `op` produces, or `None` for a leaf, whose shape does not
/// depend on the registers.
pub fn after_diff_op(shapes: &[Shape2], op: &DiffOp) -> (r: Option<Shape2>)
    requires
        shapes.len() > 0,
        *op matches DiffOp::Instr(instr) ==> resolution(shapes@, instr).fits(shapes@),
    ensures
        *op is Leaf ==> r is None,
        *op matches DiffOp::Instr(instr) ==> r == Some(
            resolution(shapes@, instr).out_shape(shapes@),
        ),
        r == diff_op_shape(shapes@, *op),
{
    match op {
        DiffOp::Leaf { .. } => None,
        DiffOp::Instr(instr) => Some(after_tensor_instr(shapes, instr)),
    }
}

/// The first operand is never replaced, nor is the kind of instruction: what is run reads
/// first the register that the first reference means modulo the number of registers, and
/// does with it what was asked for, a passthrough being all that is left of a product or
/// a concatenation that has no second operand.
pub proof fn the_first_operand_and_the_kind_are_kept(shapes: Seq<Shape2>, instr: TensorInstr)
    requires
        0 < shapes.len() <= usize::MAX,
    ensures
        ({
            let n = shapes.len() as int;
            match (instr, resolution(shapes, instr)) {
                (TensorInstr::Add(r, _), ResolvedInstr::Add(a, _))
                | (TensorInstr::Sub(r, _), ResolvedInstr::Sub(a, _))
                | (TensorInstr::Mul(r, _), ResolvedInstr::Mul(a, _))
                | (TensorInstr::Div(r, _), ResolvedInstr::Div(a, _))
                | (TensorInstr::Matmul(r, _), ResolvedInstr::Matmul(a, _))
                | (TensorInstr::Matmul(r, _), ResolvedInstr::MatmulPassthrough(a))
                | (TensorInstr::Neg(r), ResolvedInstr::Neg(a))
                | (TensorInstr::Abs(r), ResolvedInstr::Abs(a))
                | (TensorInstr::Exp(r), ResolvedInstr::Exp(a))
                | (TensorInstr::Log(r), ResolvedInstr::Log(a))
                | (TensorInstr::Sqrt(r), ResolvedInstr::Sqrt(a))
                | (TensorInstr::PowfScalar(r, _), ResolvedInstr::PowfScalar(a, _))
                | (TensorInstr::Relu(r), ResolvedInstr::Relu(a))
                | (TensorInstr::Sigmoid(r), ResolvedInstr::Sigmoid(a))
                | (TensorInstr::Tanh(r), ResolvedInstr::Tanh(a))
                | (TensorInstr::SumAll(r), ResolvedInstr::SumAll(a))
                | (TensorInstr::MeanAll(r), ResolvedInstr::MeanAll(a))
                | (TensorInstr::SumDim(r, _), ResolvedInstr::SumDim(a, _))
                | (TensorInstr::MeanDim(r, _), ResolvedInstr::MeanDim(a, _))
                | (TensorInstr::Transpose(r), ResolvedInstr::Transpose(a))
                | (TensorInstr::Concat(r, _, _), ResolvedInstr::Concat(a, _, _))
                | (TensorInstr::Concat(r, _, _), ResolvedInstr::ConcatPassthrough(a))
                | (TensorInstr::Repeat(r, _, _), ResolvedInstr::Repeat(a, _, _))
                | (TensorInstr::Clamp(r), ResolvedInstr::Clamp(a)) => a as int == r.0 as int % n
                    && resolution(shapes, instr).left() == a,
                _ => false,
            }
        }),
{
}

/// The bytes that are no register references select what the instruction does: a
/// dimension modulo two, a count of copies from one to four, and an exponent by the eight
/// numbers of the table, over and over.
pub proof fn the_parameters_are_kept(shapes: Seq<Shape2>, instr: TensorInstr)
    requires
        0 < shapes.len() <= usize::MAX,
    ensures
        match (instr, resolution(shapes, instr)) {
            (TensorInstr::SumDim(_, d), ResolvedInstr::SumDim(_, dim))
            | (TensorInstr::MeanDim(_, d), ResolvedInstr::MeanDim(_, dim))
            | (TensorInstr::Concat(_, _, d), ResolvedInstr::Concat(_, _, dim)) => dim as int
                == d as int % 2,
            (TensorInstr::Repeat(_, d, c), ResolvedInstr::Repeat(_, dim, count)) => {
                &&& dim as int == d as int % 2
                &&& 1 <= count <= 4
                &&& 1 <= c <= 4 ==> count == c
                &&& c == 0 ==> count == 1
                &&& c > 4 ==> count == 4
            },
            (TensorInstr::PowfScalar(_, e), ResolvedInstr::PowfScalar(_, halves)) => halves as int
                == seq![-4int, -2, -1, 0, 1, 2, 4, 6][e as int % 8],
            _ => true,
        },
{
}

/// An operation on two registers that broadcast reads, as its second operand, the
/// register that is written if that broadcasts with the first, and else the register of
/// greatest index that does. It always reads one.
pub proof fn an_elementwise_operation_reads_what_broadcasts(
    shapes: Seq<Shape2>,
    instr: TensorInstr,
)
    requires
        0 < shapes.len() <= usize::MAX,
    ensures
        match (instr, resolution(shapes, instr)) {
            (TensorInstr::Add(_, r), ResolvedInstr::Add(a, b))
            | (TensorInstr::Sub(_, r), ResolvedInstr::Sub(a, b))
            | (TensorInstr::Mul(_, r), ResolvedInstr::Mul(a, b))
            | (TensorInstr::Div(_, r), ResolvedInstr::Div(a, b)) => {
                let written = r.0 as int % (shapes.len() as int);
                &&& resolution(shapes, instr).right() == Some(b)
                &&& b < shapes.len()
                &&& pair_up(shapes[a as int], shapes[b as int])
                &&& pair_up(shapes[a as int], shapes[written]) ==> b == written
                &&& !pair_up(shapes[a as int], shapes[written]) ==> forall|j: int|
                    b < j < shapes.len() ==> !pair_up(shapes[a as int], #[trigger] shapes[j])
            },
            (TensorInstr::Add(..), _)
            | (TensorInstr::Sub(..), _)
            | (TensorInstr::Mul(..), _)
            | (TensorInstr::Div(..), _) => false,
            _ => true,
        },
{
    let n = shapes.len() as int;
    match instr {
        TensorInstr::Add(a, r)
        | TensorInstr::Sub(a, r)
        | TensorInstr::Mul(a, r)
        | TensorInstr::Div(a, r) => {
            broadcast_partner_is_legal(shapes, a.index(n), r);
            partner_is_legal(shapes, a.index(n), r, Pairing::Broadcast);
            assert forall|j: int| 0 <= j < n implies pair_up(
                shapes[a.index(n)],
                #[trigger] shapes[j],
            ) == Pairing::Broadcast.accepts(shapes[a.index(n)], shapes[j]) by {}
        },
        _ => {},
    }
}

/// Whether two shapes broadcast: in each dimension they are of one size, or one of them
/// is of size one.
pub open spec fn pair_up(a: Shape2, b: Shape2) -> bool {
    (a.0 == b.0 || a.0 == 1 || b.0 == 1) && (a.1 == b.1 || a.1 == 1 || b.1 == 1)
}

/// A product has as its second operand the register that is written if that has as many
/// rows as the first operand has columns, and else the register of greatest index that
/// has. It is a passthrough only if no register at all has.
pub proof fn a_product_is_given_up_only_if_nothing_multiplies(
    shapes: Seq<Shape2>,
    x: Reg,
    y: Reg,
)
    requires
        0 < shapes.len() <= usize::MAX,
    ensures
        ({
            let n = shapes.len() as int;
            let columns = shapes[x.0 as int % n].1;
            let written = y.0 as int % n;
            match resolution(shapes, TensorInstr::Matmul(x, y)) {
                ResolvedInstr::Matmul(a, b) => {
                    &&& a as int == x.0 as int % n
                    &&& b < n
                    &&& shapes[b as int].0 == columns
                    &&& shapes[written].0 == columns ==> b == written
                    &&& shapes[written].0 != columns ==> forall|j: int|
                        b < j < n ==> (#[trigger] shapes[j]).0 != columns
                },
                ResolvedInstr::MatmulPassthrough(a) => {
                    &&& a as int == x.0 as int % n
                    &&& forall|j: int| 0 <= j < n ==> (#[trigger] shapes[j]).0 != columns
                },
                _ => false,
            }
        }),
{
    let n = shapes.len() as int;
    partner_is_legal(shapes, x.index(n), y, Pairing::Matmul);
    assert forall|j: int| 0 <= j < n implies Pairing::Matmul.accepts(
        shapes[x.index(n)],
        #[trigger] shapes[j],
    ) == (shapes[j].0 == shapes[x.index(n)].1) by {}
}

/// A concatenation along the rows has as its second operand the register that is written
/// if that has as many columns as the first operand, one along the columns if it has as
/// many rows, and else the register of greatest index that has. It is a passthrough only
/// if no register at all has.
pub proof fn a_concatenation_is_given_up_only_if_nothing_fits(
    shapes: Seq<Shape2>,
    x: Reg,
    y: Reg,
    d: u8,
)
    requires
        0 < shapes.len() <= usize::MAX,
    ensures
        ({
            let n = shapes.len() as int;
            let first = shapes[x.0 as int % n];
            let written = y.0 as int % n;
            let fits = |s: Shape2|
                if d as int % 2 == 0 {
                    s.1 == first.1
                } else {
                    s.0 == first.0
                };
            match resolution(shapes, TensorInstr::Concat(x, y, d)) {
                ResolvedInstr::Concat(a, b, dim) => {
                    &&& a as int == x.0 as int % n
                    &&& dim as int == d as int % 2
                    &&& b < n
                    &&& fits(shapes[b as int])
                    &&& fits(shapes[written]) ==> b == written
                    &&& !fits(shapes[written]) ==> forall|j: int|
                        b < j < n ==> !fits(#[trigger] shapes[j])
                },
                ResolvedInstr::ConcatPassthrough(a) => {
                    &&& a as int == x.0 as int % n
                    &&& forall|j: int| 0 <= j < n ==> !fits(#[trigger] shapes[j])
                },
                _ => false,
            }
        }),
{
    let n = shapes.len() as int;
    let dim = crate::ops::dimension(d) as usize;
    partner_is_legal(shapes, x.index(n), y, Pairing::Concat(dim));
    assert forall|j: int| 0 <= j < n implies Pairing::Concat(dim).accepts(
        shapes[x.index(n)],
        #[trigger] shapes[j],
    ) == (if d as int % 2 == 0 {
        shapes[j].1 == shapes[x.index(n)].1
    } else {
        shapes[j].0 == shapes[x.index(n)].0
    }) by {}
}

/// The shape of a result, side by side with those of the operands: an elementwise
/// operation takes the larger side of the two, a product the rows of the first and the
/// columns of the second, a reduction leaves one row, one column or both, a transposition
/// exchanges the sides, a concatenation adds up the side it runs along and a repetition
/// multiplies it. All else keeps the shape of its operand.
pub proof fn results_are_shaped_by_their_operands(shapes: Seq<Shape2>, op: ResolvedInstr)
    requires
        op.legal(shapes),
        op.fits(shapes),
    ensures
        ({
            let r = op.out_shape(shapes);
            let s = shapes[op.left() as int];
            match op {
                ResolvedInstr::Add(_, b)
                | ResolvedInstr::Sub(_, b)
                | ResolvedInstr::Mul(_, b)
                | ResolvedInstr::Div(_, b) => {
                    let t = shapes[b as int];
                    &&& r.0 >= s.0 && r.0 >= t.0 && (r.0 == s.0 || r.0 == t.0)
                    &&& r.1 >= s.1 && r.1 >= t.1 && (r.1 == s.1 || r.1 == t.1)
                },
                ResolvedInstr::Matmul(_, b) => r.0 == s.0 && r.1 == shapes[b as int].1,
                ResolvedInstr::SumAll(_) | ResolvedInstr::MeanAll(_) => r.0 == 1 && r.1 == 1,
                ResolvedInstr::SumDim(_, dim) | ResolvedInstr::MeanDim(_, dim) => {
                    &&& dim == 0 ==> r.0 == 1 && r.1 == s.1
                    &&& dim == 1 ==> r.0 == s.0 && r.1 == 1
                },
                ResolvedInstr::Transpose(_) => r.0 == s.1 && r.1 == s.0,
                ResolvedInstr::Concat(_, b, dim) => {
                    let t = shapes[b as int];
                    &&& dim == 0 ==> r.0 == s.0 + t.0 && r.1 == s.1 && r.1 == t.1
                    &&& dim == 1 ==> r.1 == s.1 + t.1 && r.0 == s.0 && r.0 == t.0
                },
                ResolvedInstr::Repeat(_, dim, count) => {
                    &&& dim == 0 ==> r.0 == s.0 * count && r.1 == s.1
                    &&& dim == 1 ==> r.0 == s.0 && r.1 == s.1 * count
                },
                _ => r == s,
            }
        }),
{
}

/// The sides of a result as whole numbers of any size, by the sides of the operands, and when
/// they can be represented.
pub proof fn the_sides_of_a_result(shapes: Seq<Shape2>, op: ResolvedInstr)
    requires
        op.legal(shapes),
    ensures
        op.fits(shapes) <==> op.out_dims(shapes).0 <= usize::MAX && op.out_dims(shapes).1
            <= usize::MAX,
        op.fits(shapes) ==> op.out_shape(shapes).0 == op.out_dims(shapes).0 && op.out_shape(
            shapes,
        ).1 == op.out_dims(shapes).1,
        ({
            let r = op.out_dims(shapes);
            let s = shapes[op.left() as int];
            match op {
                ResolvedInstr::Concat(_, b, dim) => {
                    let t = shapes[b as int];
                    &&& dim == 0 ==> r.0 == s.0 + t.0 && r.1 == s.1
                    &&& dim == 1 ==> r.0 == s.0 && r.1 == s.1 + t.1
                },
                ResolvedInstr::Repeat(_, dim, count) => {
                    &&& dim == 0 ==> r.0 == s.0 * count && r.1 == s.1
                    &&& dim == 1 ==> r.0 == s.0 && r.1 == s.1 * count
                },
                _ => op.fits(shapes),
            }
        }),
{
    let r = op.out_dims(shapes);
    assert(0 <= r.0 && 0 <= r.1) by {
        if let ResolvedInstr::Repeat(a, dim, count) = op {
            let s = shapes[a as int];
            assert(s.0 * count >= 0 && s.1 * count >= 0) by (nonlinear_arith);
        }
    }
}

/// What makes an instruction legal: the registers that it reads exist, two operands of an
/// elementwise operation broadcast, those of a product have inner sides that agree, those of
/// a concatenation agree in the side that it leaves alone, a dimension is the first or the
/// second, and a count is from one to four.
pub proof fn what_makes_an_instruction_legal(shapes: Seq<Shape2>, op: ResolvedInstr)
    ensures
        op.legal(shapes) <==> {
            let n = shapes.len();
            let s = shapes[op.left() as int];
            &&& op.left() < n
            &&& op.right() matches Some(b) ==> b < n
            &&& match op {
                ResolvedInstr::Add(_, b)
                | ResolvedInstr::Sub(_, b)
                | ResolvedInstr::Mul(_, b)
                | ResolvedInstr::Div(_, b) => pair_up(s, shapes[b as int]),
                ResolvedInstr::Matmul(_, b) => s.1 == shapes[b as int].0,
                ResolvedInstr::SumDim(_, dim) | ResolvedInstr::MeanDim(_, dim) => dim == 0 || dim
                    == 1,
                ResolvedInstr::Concat(_, b, dim) => {
                    ||| dim == 0 && s.1 == shapes[b as int].1
                    ||| dim == 1 && s.0 == shapes[b as int].0
                },
                ResolvedInstr::Repeat(_, dim, count) => (dim == 0 || dim == 1) && 1 <= count <= 4,
                _ => true,
            }
        },
{
}

/// A leaf has no shape by the registers, and every other instruction has the sides of what it
/// produces once it is resolved among them.
pub proof fn only_a_leaf_has_no_shape_by_the_registers(shapes: Seq<Shape2>, op: DiffOp)
    ensures
        diff_op_shape(shapes, op) is None <==> op is Leaf,
        op matches DiffOp::Instr(instr) ==> {
            let r = resolution(shapes, instr);
            let dims = r.out_dims(shapes);
            let shape = diff_op_shape(shapes, op)->Some_0;
            r.legal(shapes) && r.fits(shapes) ==> shape.0 == dims.0 && shape.1 == dims.1
        },
{
    if let DiffOp::Instr(instr) = op {
        let r = resolution(shapes, instr);
        if r.legal(shapes) {
            the_sides_of_a_result(shapes, r);
        }
    }
}

} // verus!
