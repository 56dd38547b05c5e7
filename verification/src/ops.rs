//! The instruction vocabulary of the tensor language.
//!
//! A program names registers loosely: any byte is a register reference, taken
//! modulo the number of registers that exist. A `ResolvedInstr` is an instruction
//! whose loose parts have been pinned down, ready to be executed or printed.

use vstd::prelude::*;
use vstd::string::*;
use crate::text::decimal_text;

verus! {

/// A loose register reference.
#[derive(Debug, Clone, Copy, PartialEq, Eq, Structural)]
pub struct Reg(pub u8);

impl Reg {
    /// The register that the reference means when there are `n` of them.
    pub open spec fn index(self, n: int) -> int {
        self.0 as int % n
    }

    pub fn resolve(self, n: usize) -> (r: usize)
        requires
            n > 0,
        ensures
            r == self.index(n as int),
            r < n,
    {
        self.0 as usize % n
    }
}

/// One instruction of a tensor program. Dimensions, repeat counts and exponent
/// numbers are raw bytes, legalised when the instruction is resolved.
#[derive(Debug, Clone, Copy, PartialEq, Eq, Structural)]
pub enum TensorInstr {
    Add(Reg, Reg),
    Sub(Reg, Reg),
    Mul(Reg, Reg),
    Div(Reg, Reg),
    Matmul(Reg, Reg),
    Neg(Reg),
    Abs(Reg),
    Exp(Reg),
    Log(Reg),
    Sqrt(Reg),
    PowfScalar(Reg, u8),
    Relu(Reg),
    Sigmoid(Reg),
    Tanh(Reg),
    SumAll(Reg),
    MeanAll(Reg),
    SumDim(Reg, u8),
    MeanDim(Reg, u8),
    Transpose(Reg),
    Concat(Reg, Reg, u8),
    Repeat(Reg, u8, u8),
    Clamp(Reg),
}

/// One instruction of an autograd program.
#[derive(Debug, Clone, Copy, PartialEq, Eq, Structural)]
pub enum DiffOp {
    /// Introduce a differentiated leaf, or an alias once the leaf cap is reached.
    Leaf { seed: u8, rows: u8, cols: u8 },
    Instr(TensorInstr),
}

/// An instruction whose registers, dimension, count and exponent are fixed.
///
/// The two passthrough variants stand for a product or a concatenation for which
/// no register was a legal second operand: the first operand is handed on.
#[derive(Debug, Clone, Copy, PartialEq, Eq, Structural)]
pub enum ResolvedInstr {
    Add(usize, usize),
    Sub(usize, usize),
    Mul(usize, usize),
    Div(usize, usize),
    Matmul(usize, usize),
    MatmulPassthrough(usize),
    Neg(usize),
    Abs(usize),
    Exp(usize),
    Log(usize),
    Sqrt(usize),
    /// The exponent is counted in halves.
    PowfScalar(usize, i8),
    Relu(usize),
    Sigmoid(usize),
    Tanh(usize),
    SumAll(usize),
    MeanAll(usize),
    SumDim(usize, usize),
    MeanDim(usize, usize),
    Transpose(usize),
    Concat(usize, usize, usize),
    ConcatPassthrough(usize),
    Repeat(usize, usize, usize),
    Clamp(usize),
}

/// The exponents of `PowfScalar`, in halves: -2, -1, -0.5, 0, 0.5, 1, 2 and 3.
pub const POWF_EXPONENT_HALVES: [i8; 8] = [-4, -2, -1, 0, 1, 2, 4, 6];

/// The exponent, in halves, that the raw byte `e` selects.
pub open spec fn exponent_halves(e: u8) -> i8 {
    POWF_EXPONENT_HALVES[e as int % 8]
}

pub fn powf_exponent_halves(e: u8) -> (r: i8)
    ensures
        r == exponent_halves(e),
{
    POWF_EXPONENT_HALVES[e as usize % 8]
}

/// The dimension that the raw byte `d` selects.
pub open spec fn dimension(d: u8) -> int {
    d as int % 2
}

/// The repeat count that the raw byte `c` selects: `c` brought into `1..=4`.
pub open spec fn repeat_count(c: u8) -> int {
    if c < 1 {
        1
    } else if c > 4 {
        4
    } else {
        c as int
    }
}

pub fn dimension_of(d: u8) -> (r: usize)
    ensures
        r == dimension(d),
        r < 2,
{
    d as usize % 2
}

pub fn repeat_count_of(c: u8) -> (r: usize)
    ensures
        r == repeat_count(c),
        1 <= r <= 4,
{
    if c < 1 {
        1
    } else if c > 4 {
        4
    } else {
        c as usize
    }
}

/// Half of `halves`, in decimal notation: `-0.5`, `0`, `3`.
pub open spec fn exponent_text(halves: int) -> Seq<char> {
    let size = if halves < 0 {
        -halves
    } else {
        halves
    };
    let whole = (if halves < 0 {
        "-"@
    } else {
        ""@
    }) + crate::text::decimal(size / 2);
    if size % 2 == 1 {
        whole + ".5"@
    } else {
        whole
    }
}

pub fn exponent_to_text(halves: i8) -> (r: String)
    ensures
        r@ == exponent_text(halves as int),
{
    let wide: i16 = halves as i16;
    let size: i16 = if wide < 0 {
        -wide
    } else {
        wide
    };
    let mut s: String = if wide < 0 {
        "-".to_owned()
    } else {
        "".to_owned()
    };
    s.append(decimal_text((size / 2) as usize).as_str());
    if size % 2 == 1 {
        s.append(".5");
    }
    s
}

/// `r` followed by a register number.
pub open spec fn reg_text(i: int) -> Seq<char> {
    "r"@ + crate::text::decimal(i)
}

pub fn reg_to_text(i: usize) -> (r: String)
    ensures
        r@ == reg_text(i as int),
{
    let mut s: String = "r".to_owned();
    s.append(decimal_text(i).as_str());
    s
}

/// `before`, a register, `after`.
pub open spec fn unary_text(before: Seq<char>, a: int, after: Seq<char>) -> Seq<char> {
    before + reg_text(a) + after
}

/// A register, an infix operator, a register.
pub open spec fn binary_text(a: int, operator: Seq<char>, b: int) -> Seq<char> {
    reg_text(a) + operator + reg_text(b)
}

/// A reduction along one dimension.
pub open spec fn reduction_text(before: Seq<char>, a: int, dim: int) -> Seq<char> {
    before + reg_text(a) + ", dim="@ + crate::text::decimal(dim) + ")"@
}

fn unary_to_text(before: &str, a: usize, after: &str) -> (r: String)
    ensures
        r@ == unary_text(before@, a as int, after@),
{
    let mut s: String = before.to_owned();
    s.append(reg_to_text(a).as_str());
    s.append(after);
    s
}

fn binary_to_text(a: usize, operator: &str, b: usize) -> (r: String)
    ensures
        r@ == binary_text(a as int, operator@, b as int),
{
    let mut s: String = reg_to_text(a);
    s.append(operator);
    s.append(reg_to_text(b).as_str());
    s
}

fn reduction_to_text(before: &str, a: usize, dim: usize) -> (r: String)
    ensures
        r@ == reduction_text(before@, a as int, dim as int),
{
    let mut s: String = before.to_owned();
    s.append(reg_to_text(a).as_str());
    s.append(", dim=");
    s.append(decimal_text(dim).as_str());
    s.append(")");
    s
}

impl ResolvedInstr {
    /// The first register that the instruction reads.
    pub open spec fn left(self) -> usize {
        match self {
            ResolvedInstr::Add(a, _)
            | ResolvedInstr::Sub(a, _)
            | ResolvedInstr::Mul(a, _)
            | ResolvedInstr::Div(a, _)
            | ResolvedInstr::Matmul(a, _)
            | ResolvedInstr::MatmulPassthrough(a)
            | ResolvedInstr::Neg(a)
            | ResolvedInstr::Abs(a)
            | ResolvedInstr::Exp(a)
            | ResolvedInstr::Log(a)
            | ResolvedInstr::Sqrt(a)
            | ResolvedInstr::PowfScalar(a, _)
            | ResolvedInstr::Relu(a)
            | ResolvedInstr::Sigmoid(a)
            | ResolvedInstr::Tanh(a)
            | ResolvedInstr::SumAll(a)
            | ResolvedInstr::MeanAll(a)
            | ResolvedInstr::SumDim(a, _)
            | ResolvedInstr::MeanDim(a, _)
            | ResolvedInstr::Transpose(a)
            | ResolvedInstr::Concat(a, _, _)
            | ResolvedInstr::ConcatPassthrough(a)
            | ResolvedInstr::Repeat(a, _, _)
            | ResolvedInstr::Clamp(a) => a,
        }
    }

    /// The second register that the instruction reads, if it reads two.
    pub open spec fn right(self) -> Option<usize> {
        match self {
            ResolvedInstr::Add(_, b)
            | ResolvedInstr::Sub(_, b)
            | ResolvedInstr::Mul(_, b)
            | ResolvedInstr::Div(_, b)
            | ResolvedInstr::Matmul(_, b)
            | ResolvedInstr::Concat(_, b, _) => Some(b),
            _ => None,
        }
    }

    /// The right-hand side of the instruction in a program listing.
    pub open spec fn text(self) -> Seq<char> {
        match self {
            ResolvedInstr::Add(a, b) => binary_text(a as int, " + "@, b as int),
            ResolvedInstr::Sub(a, b) => binary_text(a as int, " - "@, b as int),
            ResolvedInstr::Mul(a, b) => binary_text(a as int, " * "@, b as int),
            ResolvedInstr::Div(a, b) => binary_text(a as int, " / "@, b as int),
            ResolvedInstr::Matmul(a, b) => binary_text(a as int, " @ "@, b as int),
            ResolvedInstr::MatmulPassthrough(a) => unary_text(
                ""@,
                a as int,
                "  # matmul: no compatible b, passthrough"@,
            ),
            ResolvedInstr::Neg(a) => unary_text("-"@, a as int, ""@),
            ResolvedInstr::Abs(a) => unary_text("abs("@, a as int, ")"@),
            ResolvedInstr::Exp(a) => unary_text("exp("@, a as int, ")"@),
            ResolvedInstr::Log(a) => unary_text("log("@, a as int, ")"@),
            ResolvedInstr::Sqrt(a) => unary_text("sqrt("@, a as int, ")"@),
            ResolvedInstr::PowfScalar(a, halves) => reg_text(a as int) + ".powf("@ + exponent_text(
                halves as int,
            ) + ")"@,
            ResolvedInstr::Relu(a) => unary_text("relu("@, a as int, ")"@),
            ResolvedInstr::Sigmoid(a) => unary_text("sigmoid("@, a as int, ")"@),
            ResolvedInstr::Tanh(a) => unary_text("tanh("@, a as int, ")"@),
            ResolvedInstr::SumAll(a) => unary_text("sum("@, a as int, ")  # → [1×1]"@),
            ResolvedInstr::MeanAll(a) => unary_text("mean("@, a as int, ")  # → [1×1]"@),
            ResolvedInstr::SumDim(a, dim) => reduction_text("sum("@, a as int, dim as int),
            ResolvedInstr::MeanDim(a, dim) => reduction_text("mean("@, a as int, dim as int),
            ResolvedInstr::Transpose(a) => unary_text(""@, a as int, ".T"@),
            ResolvedInstr::Concat(a, b, dim) => "cat(["@ + reg_text(a as int) + ", "@ + reg_text(
                b as int,
            ) + "], dim="@ + crate::text::decimal(dim as int) + ")"@,
            ResolvedInstr::ConcatPassthrough(a) => unary_text(
                ""@,
                a as int,
                "  # concat: no compatible b, passthrough"@,
            ),
            ResolvedInstr::Repeat(a, dim, count) => reg_text(a as int) + ".repeat(dim="@
                + crate::text::decimal(dim as int) + ", ×"@ + crate::text::decimal(count as int)
                + ")"@,
            ResolvedInstr::Clamp(a) => unary_text("clamp("@, a as int, ", -1e6, 1e6)"@),
        }
    }

    pub fn to_text(&self) -> (r: String)
        ensures
            r@ == self.text(),
    {
        match *self {
            ResolvedInstr::Add(a, b) => binary_to_text(a, " + ", b),
            ResolvedInstr::Sub(a, b) => binary_to_text(a, " - ", b),
            ResolvedInstr::Mul(a, b) => binary_to_text(a, " * ", b),
            ResolvedInstr::Div(a, b) => binary_to_text(a, " / ", b),
            ResolvedInstr::Matmul(a, b) => binary_to_text(a, " @ ", b),
            ResolvedInstr::MatmulPassthrough(a) => unary_to_text(
                "",
                a,
                "  # matmul: no compatible b, passthrough",
            ),
            ResolvedInstr::Neg(a) => unary_to_text("-", a, ""),
            ResolvedInstr::Abs(a) => unary_to_text("abs(", a, ")"),
            ResolvedInstr::Exp(a) => unary_to_text("exp(", a, ")"),
            ResolvedInstr::Log(a) => unary_to_text("log(", a, ")"),
            ResolvedInstr::Sqrt(a) => unary_to_text("sqrt(", a, ")"),
            ResolvedInstr::PowfScalar(a, halves) => {
                let mut s: String = reg_to_text(a);
                s.append(".powf(");
                s.append(exponent_to_text(halves).as_str());
                s.append(")");
                s
            },
            ResolvedInstr::Relu(a) => unary_to_text("relu(", a, ")"),
            ResolvedInstr::Sigmoid(a) => unary_to_text("sigmoid(", a, ")"),
            ResolvedInstr::Tanh(a) => unary_to_text("tanh(", a, ")"),
            ResolvedInstr::SumAll(a) => unary_to_text("sum(", a, ")  # → [1×1]"),
            ResolvedInstr::MeanAll(a) => unary_to_text("mean(", a, ")  # → [1×1]"),
            ResolvedInstr::SumDim(a, dim) => reduction_to_text("sum(", a, dim),
            ResolvedInstr::MeanDim(a, dim) => reduction_to_text("mean(", a, dim),
            ResolvedInstr::Transpose(a) => unary_to_text("", a, ".T"),
            ResolvedInstr::Concat(a, b, dim) => {
                let mut s: String = "cat([".to_owned();
                s.append(reg_to_text(a).as_str());
                s.append(", ");
                s.append(reg_to_text(b).as_str());
                s.append("], dim=");
                s.append(decimal_text(dim).as_str());
                s.append(")");
                s
            },
            ResolvedInstr::ConcatPassthrough(a) => unary_to_text(
                "",
                a,
                "  # concat: no compatible b, passthrough",
            ),
            ResolvedInstr::Repeat(a, dim, count) => {
                let mut s: String = reg_to_text(a);
                s.append(".repeat(dim=");
                s.append(decimal_text(dim).as_str());
                s.append(", ×");
                s.append(decimal_text(count).as_str());
                s.append(")");
                s
            },
            ResolvedInstr::Clamp(a) => unary_to_text("clamp(", a, ", -1e6, 1e6)"),
        }
    }
}

impl TensorInstr {
    /// The instruction as it is written among `n` registers, each reference taken
    /// modulo `n` with no regard to shapes.
    pub open spec fn literal(self, n: int) -> ResolvedInstr {
        match self {
            TensorInstr::Add(a, b) => ResolvedInstr::Add(a.index(n) as usize, b.index(n) as usize),
            TensorInstr::Sub(a, b) => ResolvedInstr::Sub(a.index(n) as usize, b.index(n) as usize),
            TensorInstr::Mul(a, b) => ResolvedInstr::Mul(a.index(n) as usize, b.index(n) as usize),
            TensorInstr::Div(a, b) => ResolvedInstr::Div(a.index(n) as usize, b.index(n) as usize),
            TensorInstr::Matmul(a, b) => ResolvedInstr::Matmul(
                a.index(n) as usize,
                b.index(n) as usize,
            ),
            TensorInstr::Neg(r) => ResolvedInstr::Neg(r.index(n) as usize),
            TensorInstr::Abs(r) => ResolvedInstr::Abs(r.index(n) as usize),
            TensorInstr::Exp(r) => ResolvedInstr::Exp(r.index(n) as usize),
            TensorInstr::Log(r) => ResolvedInstr::Log(r.index(n) as usize),
            TensorInstr::Sqrt(r) => ResolvedInstr::Sqrt(r.index(n) as usize),
            TensorInstr::PowfScalar(r, e) => ResolvedInstr::PowfScalar(
                r.index(n) as usize,
                exponent_halves(e),
            ),
            TensorInstr::Relu(r) => ResolvedInstr::Relu(r.index(n) as usize),
            TensorInstr::Sigmoid(r) => ResolvedInstr::Sigmoid(r.index(n) as usize),
            TensorInstr::Tanh(r) => ResolvedInstr::Tanh(r.index(n) as usize),
            TensorInstr::SumAll(r) => ResolvedInstr::SumAll(r.index(n) as usize),
            TensorInstr::MeanAll(r) => ResolvedInstr::MeanAll(r.index(n) as usize),
            TensorInstr::SumDim(r, d) => ResolvedInstr::SumDim(
                r.index(n) as usize,
                dimension(d) as usize,
            ),
            TensorInstr::MeanDim(r, d) => ResolvedInstr::MeanDim(
                r.index(n) as usize,
                dimension(d) as usize,
            ),
            TensorInstr::Transpose(r) => ResolvedInstr::Transpose(r.index(n) as usize),
            TensorInstr::Concat(a, b, d) => ResolvedInstr::Concat(
                a.index(n) as usize,
                b.index(n) as usize,
                dimension(d) as usize,
            ),
            TensorInstr::Repeat(r, d, c) => ResolvedInstr::Repeat(
                r.index(n) as usize,
                dimension(d) as usize,
                repeat_count(c) as usize,
            ),
            TensorInstr::Clamp(r) => ResolvedInstr::Clamp(r.index(n) as usize),
        }
    }

    /// The instruction with every register reference taken modulo `n`.
    pub fn as_written(&self, n: usize) -> (r: ResolvedInstr)
        requires
            n > 0,
        ensures
            r == self.literal(n as int),
    {
        match *self {
            TensorInstr::Add(a, b) => ResolvedInstr::Add(a.resolve(n), b.resolve(n)),
            TensorInstr::Sub(a, b) => ResolvedInstr::Sub(a.resolve(n), b.resolve(n)),
            TensorInstr::Mul(a, b) => ResolvedInstr::Mul(a.resolve(n), b.resolve(n)),
            TensorInstr::Div(a, b) => ResolvedInstr::Div(a.resolve(n), b.resolve(n)),
            TensorInstr::Matmul(a, b) => ResolvedInstr::Matmul(a.resolve(n), b.resolve(n)),
            TensorInstr::Neg(r) => ResolvedInstr::Neg(r.resolve(n)),
            TensorInstr::Abs(r) => ResolvedInstr::Abs(r.resolve(n)),
            TensorInstr::Exp(r) => ResolvedInstr::Exp(r.resolve(n)),
            TensorInstr::Log(r) => ResolvedInstr::Log(r.resolve(n)),
            TensorInstr::Sqrt(r) => ResolvedInstr::Sqrt(r.resolve(n)),
            TensorInstr::PowfScalar(r, e) => ResolvedInstr::PowfScalar(
                r.resolve(n),
                powf_exponent_halves(e),
            ),
            TensorInstr::Relu(r) => ResolvedInstr::Relu(r.resolve(n)),
            TensorInstr::Sigmoid(r) => ResolvedInstr::Sigmoid(r.resolve(n)),
            TensorInstr::Tanh(r) => ResolvedInstr::Tanh(r.resolve(n)),
            TensorInstr::SumAll(r) => ResolvedInstr::SumAll(r.resolve(n)),
            TensorInstr::MeanAll(r) => ResolvedInstr::MeanAll(r.resolve(n)),
            TensorInstr::SumDim(r, d) => ResolvedInstr::SumDim(r.resolve(n), dimension_of(d)),
            TensorInstr::MeanDim(r, d) => ResolvedInstr::MeanDim(r.resolve(n), dimension_of(d)),
            TensorInstr::Transpose(r) => ResolvedInstr::Transpose(r.resolve(n)),
            TensorInstr::Concat(a, b, d) => ResolvedInstr::Concat(
                a.resolve(n),
                b.resolve(n),
                dimension_of(d),
            ),
            TensorInstr::Repeat(r, d, c) => ResolvedInstr::Repeat(
                r.resolve(n),
                dimension_of(d),
                repeat_count_of(c),
            ),
            TensorInstr::Clamp(r) => ResolvedInstr::Clamp(r.resolve(n)),
        }
    }

    /// One line of single-assignment code: `dst = ...`, as the instruction is
    /// written among `n` registers.
    pub fn ssa_line(&self, dst: &str, n: usize) -> (r: String)
        requires
            n > 0,
        ensures
            r@ == dst@ + " = "@ + self.literal(n as int).text(),
    {
        let mut s: String = dst.to_owned();
        s.append(" = ");
        s.append(self.as_written(n).to_text().as_str());
        s
    }
}

/// Whether a character is a line break or the letter that only a note of skipped
/// instructions has.
pub open spec fn is_foreign(c: char) -> bool {
    c == '\n' || c == 'k'
}

/// The text of a register is one word.
pub proof fn reg_text_lacks(i: int, c: char)
    requires
        0 <= i,
        c != 'r',
        !crate::text::is_digit(c),
    ensures
        crate::text::lacks(reg_text(i), c),
{
    reveal_strlit("r");
    crate::text::decimal_lacks(i, c);
}

/// A line begins with at most one register and a blank after it.
pub proof fn register_at_the_start_is_unique(line: Seq<char>, i: int, j: int)
    requires
        0 <= i,
        0 <= j,
        crate::text::begins_with(line, reg_text(i) + " "@),
        crate::text::begins_with(line, reg_text(j) + " "@),
    ensures
        i == j,
{
    reveal_strlit("r");
    reveal_strlit(" ");
    let a = reg_text(i) + " "@;
    let b = reg_text(j) + " "@;
    reg_text_lacks(i, ' ');
    reg_text_lacks(j, ' ');
    assert(line[a.len() - 1] == a[a.len() - 1]);
    assert(line[b.len() - 1] == b[b.len() - 1]);
    if a.len() < b.len() {
        assert(line[a.len() - 1] == line.take(b.len() as int)[a.len() - 1]);
        assert(reg_text(j)[a.len() - 1] == ' ');
    }
    if b.len() < a.len() {
        assert(line[b.len() - 1] == line.take(a.len() as int)[b.len() - 1]);
        assert(reg_text(i)[b.len() - 1] == ' ');
    }
    assert(a == b);
    assert(crate::text::decimal(i) =~= a.subrange(1, a.len() - 1));
    assert(crate::text::decimal(j) =~= b.subrange(1, b.len() - 1));
    crate::text::decimal_is_digits(i);
    crate::text::decimal_is_digits(j);
}

/// A line that begins with something else than a register's digits begins with no
/// register.
pub proof fn no_register_at_the_start(line: Seq<char>, i: int)
    requires
        0 <= i,
        line.len() >= 2,
        line[0] != 'r' || !crate::text::is_digit(line[1]),
    ensures
        !crate::text::begins_with(line, reg_text(i) + " "@),
{
    reveal_strlit("r");
    reveal_strlit(" ");
    crate::text::decimal_is_digits(i);
    let start = reg_text(i) + " "@;
    if crate::text::begins_with(line, start) {
        assert(line[0] == line.take(start.len() as int)[0]);
        assert(line[1] == line.take(start.len() as int)[1]);
        assert(start[1] == crate::text::decimal(i)[0]);
    }
}

proof fn unary_text_lacks(before: Seq<char>, a: int, after: Seq<char>, c: char)
    requires
        0 <= a,
        is_foreign(c),
        crate::text::lacks(before, c),
        crate::text::lacks(after, c),
    ensures
        crate::text::lacks(unary_text(before, a, after), c),
{
    reg_text_lacks(a, c);
}

proof fn binary_text_lacks(a: int, operator: Seq<char>, b: int, c: char)
    requires
        0 <= a,
        0 <= b,
        is_foreign(c),
        crate::text::lacks(operator, c),
    ensures
        crate::text::lacks(binary_text(a, operator, b), c),
{
    reg_text_lacks(a, c);
    reg_text_lacks(b, c);
}

proof fn reduction_text_lacks(before: Seq<char>, a: int, dim: int, c: char)
    requires
        0 <= a,
        0 <= dim,
        is_foreign(c),
        crate::text::lacks(before, c),
    ensures
        crate::text::lacks(reduction_text(before, a, dim), c),
{
    reveal_strlit(", dim=");
    reveal_strlit(")");
    reg_text_lacks(a, c);
    crate::text::decimal_lacks(dim, c);
    crate::text::joined_lack(before, reg_text(a), c);
    crate::text::joined_lack(before + reg_text(a), ", dim="@, c);
    crate::text::joined_lack(before + reg_text(a) + ", dim="@, crate::text::decimal(dim), c);
}

/// No other exponent is written as zero is.
pub proof fn only_zero_is_written_as_zero(halves: int)
    ensures
        exponent_text(halves) == exponent_text(0) <==> halves == 0,
{
    let size = if halves < 0 {
        -halves
    } else {
        halves
    };
    reveal_strlit("");
    reveal_strlit("-");
    reveal_strlit(".5");
    crate::text::decimal_is_digits(0);
    crate::text::decimal_is_digits(size / 2);
    let zero = crate::text::decimal(0);
    let whole = crate::text::decimal(size / 2);
    assert(exponent_text(0) =~= zero);
    let text = exponent_text(halves);
    if text == zero && halves != 0 {
        if size % 2 == 1 {
            assert(text[text.len() - 2] == '.');
        } else if halves < 0 {
            assert(text[0] == '-');
        } else {
            assert(text =~= whole);
        }
    }
}

proof fn exponent_text_lacks(halves: int, c: char)
    requires
        is_foreign(c),
    ensures
        crate::text::lacks(exponent_text(halves), c),
{
    reveal_strlit("-");
    reveal_strlit("");
    reveal_strlit(".5");
    let size = if halves < 0 {
        -halves
    } else {
        halves
    };
    crate::text::decimal_lacks(size / 2, c);
}

/// An instruction is printed on one line, without the letter that marks skipped ones.
pub proof fn resolved_text_lacks(op: ResolvedInstr, c: char)
    requires
        is_foreign(c),
    ensures
        crate::text::lacks(op.text(), c),
{
    match op {
        ResolvedInstr::Add(a, b) => {
            reveal_strlit(" + ");
            binary_text_lacks(a as int, " + "@, b as int, c);
        },
        ResolvedInstr::Sub(a, b) => {
            reveal_strlit(" - ");
            binary_text_lacks(a as int, " - "@, b as int, c);
        },
        ResolvedInstr::Mul(a, b) => {
            reveal_strlit(" * ");
            binary_text_lacks(a as int, " * "@, b as int, c);
        },
        ResolvedInstr::Div(a, b) => {
            reveal_strlit(" / ");
            binary_text_lacks(a as int, " / "@, b as int, c);
        },
        ResolvedInstr::Matmul(a, b) => {
            reveal_strlit(" @ ");
            binary_text_lacks(a as int, " @ "@, b as int, c);
        },
        ResolvedInstr::MatmulPassthrough(a) => {
            reveal_strlit("");
            reveal_strlit("  # matmul: no compatible b, passthrough");
            unary_text_lacks(""@, a as int, "  # matmul: no compatible b, passthrough"@, c);
        },
        ResolvedInstr::Neg(a) => {
            reveal_strlit("-");
            reveal_strlit("");
            unary_text_lacks("-"@, a as int, ""@, c);
        },
        ResolvedInstr::Abs(a) => {
            reveal_strlit("abs(");
            reveal_strlit(")");
            unary_text_lacks("abs("@, a as int, ")"@, c);
        },
        ResolvedInstr::Exp(a) => {
            reveal_strlit("exp(");
            reveal_strlit(")");
            unary_text_lacks("exp("@, a as int, ")"@, c);
        },
        ResolvedInstr::Log(a) => {
            reveal_strlit("log(");
            reveal_strlit(")");
            unary_text_lacks("log("@, a as int, ")"@, c);
        },
        ResolvedInstr::Sqrt(a) => {
            reveal_strlit("sqrt(");
            reveal_strlit(")");
            unary_text_lacks("sqrt("@, a as int, ")"@, c);
        },
        ResolvedInstr::Relu(a) => {
            reveal_strlit("relu(");
            reveal_strlit(")");
            unary_text_lacks("relu("@, a as int, ")"@, c);
        },
        ResolvedInstr::Sigmoid(a) => {
            reveal_strlit("sigmoid(");
            reveal_strlit(")");
            unary_text_lacks("sigmoid("@, a as int, ")"@, c);
        },
        ResolvedInstr::Tanh(a) => {
            reveal_strlit("tanh(");
            reveal_strlit(")");
            unary_text_lacks("tanh("@, a as int, ")"@, c);
        },
        ResolvedInstr::SumAll(a) => {
            reveal_strlit("sum(");
            reveal_strlit(")  # → [1×1]");
            unary_text_lacks("sum("@, a as int, ")  # → [1×1]"@, c);
        },
        ResolvedInstr::MeanAll(a) => {
            reveal_strlit("mean(");
            reveal_strlit(")  # → [1×1]");
            unary_text_lacks("mean("@, a as int, ")  # → [1×1]"@, c);
        },
        ResolvedInstr::Transpose(a) => {
            reveal_strlit("");
            reveal_strlit(".T");
            unary_text_lacks(""@, a as int, ".T"@, c);
        },
        ResolvedInstr::ConcatPassthrough(a) => {
            reveal_strlit("");
            reveal_strlit("  # concat: no compatible b, passthrough");
            unary_text_lacks(""@, a as int, "  # concat: no compatible b, passthrough"@, c);
        },
        ResolvedInstr::Clamp(a) => {
            reveal_strlit("clamp(");
            reveal_strlit(", -1e6, 1e6)");
            unary_text_lacks("clamp("@, a as int, ", -1e6, 1e6)"@, c);
        },
        ResolvedInstr::SumDim(a, dim) => {
            reveal_strlit("sum(");
            reduction_text_lacks("sum("@, a as int, dim as int, c);
        },
        ResolvedInstr::MeanDim(a, dim) => {
            reveal_strlit("mean(");
            reduction_text_lacks("mean("@, a as int, dim as int, c);
        },
        ResolvedInstr::PowfScalar(a, halves) => {
            reveal_strlit(".powf(");
            reveal_strlit(")");
            reg_text_lacks(a as int, c);
            exponent_text_lacks(halves as int, c);
        },
        ResolvedInstr::Concat(a, b, dim) => {
            reveal_strlit("cat([");
            reveal_strlit(", ");
            reveal_strlit("], dim=");
            reveal_strlit(")");
            reg_text_lacks(a as int, c);
            reg_text_lacks(b as int, c);
            crate::text::decimal_lacks(dim as int, c);
            let front = "cat(["@ + reg_text(a as int) + ", "@ + reg_text(b as int);
            assert(crate::text::lacks(front, c));
            assert(crate::text::lacks(front + "], dim="@ + crate::text::decimal(dim as int), c));
        },
        ResolvedInstr::Repeat(a, dim, count) => {
            reveal_strlit(".repeat(dim=");
            reveal_strlit(", ×");
            reveal_strlit(")");
            reg_text_lacks(a as int, c);
            crate::text::decimal_lacks(dim as int, c);
            crate::text::decimal_lacks(count as int, c);
            let front = reg_text(a as int) + ".repeat(dim="@ + crate::text::decimal(dim as int);
            assert(crate::text::lacks(front, c));
            assert(crate::text::lacks(front + ", ×"@ + crate::text::decimal(count as int), c));
        },
    }
}

/// What an instruction is printed as, operand by operand: of two registers the first is
/// shown before the second, with the sign of the operation between them; of one register
/// the operation is shown around it, with its parameters behind the register.
pub proof fn the_text_shows_the_operands_in_order(op: ResolvedInstr)
    ensures
        match op {
            ResolvedInstr::Add(a, b) => {
                &&& crate::text::begins_with(op.text(), reg_text(a as int) + " + "@)
                &&& op.text() == reg_text(a as int) + " + "@ + reg_text(b as int)
            },
            ResolvedInstr::Sub(a, b) => {
                &&& crate::text::begins_with(op.text(), reg_text(a as int) + " - "@)
                &&& op.text() == reg_text(a as int) + " - "@ + reg_text(b as int)
            },
            ResolvedInstr::Mul(a, b) => {
                &&& crate::text::begins_with(op.text(), reg_text(a as int) + " * "@)
                &&& op.text() == reg_text(a as int) + " * "@ + reg_text(b as int)
            },
            ResolvedInstr::Div(a, b) => {
                &&& crate::text::begins_with(op.text(), reg_text(a as int) + " / "@)
                &&& op.text() == reg_text(a as int) + " / "@ + reg_text(b as int)
            },
            ResolvedInstr::Matmul(a, b) => {
                &&& crate::text::begins_with(op.text(), reg_text(a as int) + " @ "@)
                &&& op.text() == reg_text(a as int) + " @ "@ + reg_text(b as int)
            },
            ResolvedInstr::Neg(a) => op.text() == "-"@ + reg_text(a as int),
            ResolvedInstr::Abs(a) => op.text() == "abs("@ + reg_text(a as int) + ")"@,
            ResolvedInstr::Exp(a) => op.text() == "exp("@ + reg_text(a as int) + ")"@,
            ResolvedInstr::Log(a) => op.text() == "log("@ + reg_text(a as int) + ")"@,
            ResolvedInstr::Sqrt(a) => op.text() == "sqrt("@ + reg_text(a as int) + ")"@,
            ResolvedInstr::Relu(a) => op.text() == "relu("@ + reg_text(a as int) + ")"@,
            ResolvedInstr::Sigmoid(a) => op.text() == "sigmoid("@ + reg_text(a as int) + ")"@,
            ResolvedInstr::Tanh(a) => op.text() == "tanh("@ + reg_text(a as int) + ")"@,
            ResolvedInstr::SumAll(a) => op.text() == "sum("@ + reg_text(a as int)
                + ")  # → [1×1]"@,
            ResolvedInstr::MeanAll(a) => op.text() == "mean("@ + reg_text(a as int)
                + ")  # → [1×1]"@,
            ResolvedInstr::Transpose(a) => op.text() == reg_text(a as int) + ".T"@,
            ResolvedInstr::MatmulPassthrough(a) => op.text() == reg_text(a as int)
                + "  # matmul: no compatible b, passthrough"@,
            ResolvedInstr::ConcatPassthrough(a) => op.text() == reg_text(a as int)
                + "  # concat: no compatible b, passthrough"@,
            ResolvedInstr::Clamp(a) => op.text() == "clamp("@ + reg_text(a as int)
                + ", -1e6, 1e6)"@,
            ResolvedInstr::SumDim(a, dim) => op.text() == "sum("@ + reg_text(a as int)
                + ", dim="@ + crate::text::decimal(dim as int) + ")"@,
            ResolvedInstr::MeanDim(a, dim) => op.text() == "mean("@ + reg_text(a as int)
                + ", dim="@ + crate::text::decimal(dim as int) + ")"@,
            ResolvedInstr::PowfScalar(a, halves) => op.text() == reg_text(a as int) + ".powf("@
                + exponent_text(halves as int) + ")"@,
            ResolvedInstr::Concat(a, b, dim) => op.text() == "cat(["@ + reg_text(a as int) + ", "@
                + reg_text(b as int) + "], dim="@ + crate::text::decimal(dim as int) + ")"@,
            ResolvedInstr::Repeat(a, dim, count) => op.text() == reg_text(a as int)
                + ".repeat(dim="@ + crate::text::decimal(dim as int) + ", ×"@
                + crate::text::decimal(count as int) + ")"@,
        },
{
    reveal_strlit("");
    match op {
        ResolvedInstr::Add(a, b) => {
            let front = reg_text(a as int) + " + "@;
            assert(op.text().take(front.len() as int) =~= front);
        },
        ResolvedInstr::Sub(a, b) => {
            let front = reg_text(a as int) + " - "@;
            assert(op.text().take(front.len() as int) =~= front);
        },
        ResolvedInstr::Mul(a, b) => {
            let front = reg_text(a as int) + " * "@;
            assert(op.text().take(front.len() as int) =~= front);
        },
        ResolvedInstr::Div(a, b) => {
            let front = reg_text(a as int) + " / "@;
            assert(op.text().take(front.len() as int) =~= front);
        },
        ResolvedInstr::Matmul(a, b) => {
            let front = reg_text(a as int) + " @ "@;
            assert(op.text().take(front.len() as int) =~= front);
        },
        ResolvedInstr::Neg(a) => {
            assert(op.text() =~= "-"@ + reg_text(a as int));
        },
        ResolvedInstr::Transpose(a) => {
            assert(op.text() =~= reg_text(a as int) + ".T"@);
        },
        ResolvedInstr::MatmulPassthrough(a) => {
            assert(op.text() =~= reg_text(a as int) + "  # matmul: no compatible b, passthrough"@);
        },
        ResolvedInstr::ConcatPassthrough(a) => {
            assert(op.text() =~= reg_text(a as int) + "  # concat: no compatible b, passthrough"@);
        },
        _ => {},
    }
}


/// What stands before the first register in the text of an instruction.
spec fn opening(op: ResolvedInstr) -> Seq<char> {
    match op {
        ResolvedInstr::Neg(_) => "-"@,
        ResolvedInstr::Abs(_) => "abs("@,
        ResolvedInstr::Exp(_) => "exp("@,
        ResolvedInstr::Log(_) => "log("@,
        ResolvedInstr::Sqrt(_) => "sqrt("@,
        ResolvedInstr::Relu(_) => "relu("@,
        ResolvedInstr::Sigmoid(_) => "sigmoid("@,
        ResolvedInstr::Tanh(_) => "tanh("@,
        ResolvedInstr::SumAll(_) => "sum("@,
        ResolvedInstr::MeanAll(_) => "mean("@,
        ResolvedInstr::Clamp(_) => "clamp("@,
        ResolvedInstr::SumDim(_, _) => "sum("@,
        ResolvedInstr::MeanDim(_, _) => "mean("@,
        ResolvedInstr::Concat(_, _, _) => "cat(["@,
        _ => Seq::empty(),
    }
}

/// What stands behind it.
spec fn ending(op: ResolvedInstr) -> Seq<char> {
    match op {
        ResolvedInstr::Add(_, b) => " + "@ + reg_text(b as int),
        ResolvedInstr::Sub(_, b) => " - "@ + reg_text(b as int),
        ResolvedInstr::Mul(_, b) => " * "@ + reg_text(b as int),
        ResolvedInstr::Div(_, b) => " / "@ + reg_text(b as int),
        ResolvedInstr::Matmul(_, b) => " @ "@ + reg_text(b as int),
        ResolvedInstr::Neg(_) => Seq::empty(),
        ResolvedInstr::Abs(_) => ")"@,
        ResolvedInstr::Exp(_) => ")"@,
        ResolvedInstr::Log(_) => ")"@,
        ResolvedInstr::Sqrt(_) => ")"@,
        ResolvedInstr::Relu(_) => ")"@,
        ResolvedInstr::Sigmoid(_) => ")"@,
        ResolvedInstr::Tanh(_) => ")"@,
        ResolvedInstr::SumAll(_) => ")  # → [1×1]"@,
        ResolvedInstr::MeanAll(_) => ")  # → [1×1]"@,
        ResolvedInstr::Transpose(_) => ".T"@,
        ResolvedInstr::MatmulPassthrough(_) => "  # matmul: no compatible b, passthrough"@,
        ResolvedInstr::ConcatPassthrough(_) => "  # concat: no compatible b, passthrough"@,
        ResolvedInstr::Clamp(_) => ", -1e6, 1e6)"@,
        ResolvedInstr::SumDim(_, dim) => ", dim="@ + (crate::text::decimal(dim as int) + ")"@),
        ResolvedInstr::MeanDim(_, dim) => ", dim="@ + (crate::text::decimal(dim as int) + ")"@),
        ResolvedInstr::PowfScalar(_, halves) => ".powf("@ + (exponent_text(halves as int) + ")"@),
        ResolvedInstr::Concat(_, b, dim) => ", "@ + (reg_text(b as int) + ("], dim="@ + (
        crate::text::decimal(dim as int) + ")"@))),
        ResolvedInstr::Repeat(_, dim, count) => ".repeat(dim="@ + (crate::text::decimal(dim as int)
            + (", ×"@ + (crate::text::decimal(count as int) + ")"@))),
    }
}


/// A number for the kind of an instruction.
spec fn kind(op: ResolvedInstr) -> int {
    match op {
        ResolvedInstr::Add(..) => 0,
        ResolvedInstr::Sub(..) => 1,
        ResolvedInstr::Mul(..) => 2,
        ResolvedInstr::Div(..) => 3,
        ResolvedInstr::Matmul(..) => 4,
        ResolvedInstr::Neg(..) => 5,
        ResolvedInstr::Abs(..) => 6,
        ResolvedInstr::Exp(..) => 7,
        ResolvedInstr::Log(..) => 8,
        ResolvedInstr::Sqrt(..) => 9,
        ResolvedInstr::Relu(..) => 10,
        ResolvedInstr::Sigmoid(..) => 11,
        ResolvedInstr::Tanh(..) => 12,
        ResolvedInstr::SumAll(..) => 13,
        ResolvedInstr::MeanAll(..) => 14,
        ResolvedInstr::Transpose(..) => 15,
        ResolvedInstr::MatmulPassthrough(..) => 16,
        ResolvedInstr::ConcatPassthrough(..) => 17,
        ResolvedInstr::Clamp(..) => 18,
        ResolvedInstr::SumDim(..) => 19,
        ResolvedInstr::MeanDim(..) => 20,
        ResolvedInstr::PowfScalar(..) => 21,
        ResolvedInstr::Concat(..) => 22,
        ResolvedInstr::Repeat(..) => 23,
    }
}

/// The kind of an instruction, read off its text before and behind the first register.
spec fn kind_read(before: Seq<char>, after: Seq<char>) -> int {
    if before.len() == 0 {
        if after[0] == ' ' {
            if after[1] == '+' {
                0
            } else if after[1] == '-' {
                1
            } else if after[1] == '*' {
                2
            } else if after[1] == '/' {
                3
            } else if after[1] == '@' {
                4
            } else if after[4] == 'm' {
                16
            } else {
                17
            }
        } else if after[1] == 'p' {
            21
        } else if after[1] == 'T' {
            15
        } else {
            23
        }
    } else if before[0] == '-' {
        5
    } else if before[0] == 'a' {
        6
    } else if before[0] == 'e' {
        7
    } else if before[0] == 'l' {
        8
    } else if before[0] == 'r' {
        10
    } else if before[0] == 't' {
        12
    } else if before[0] == 's' {
        if before[1] == 'q' {
            9
        } else if before[1] == 'i' {
            11
        } else if after[0] == ')' {
            13
        } else {
            19
        }
    } else if before[0] == 'm' {
        if after[0] == ')' {
            14
        } else {
            20
        }
    } else if before[1] == 'a' {
        22
    } else {
        18
    }
}

/// What stands before the first register, read off the whole text.
spec fn opening_read(text: Seq<char>) -> Seq<char> {
    if text[0] == '-' {
        "-"@
    } else if text[0] == 'a' {
        "abs("@
    } else if text[0] == 'e' {
        "exp("@
    } else if text[0] == 'l' {
        "log("@
    } else if text[0] == 't' {
        "tanh("@
    } else if text[0] == 'm' {
        "mean("@
    } else if text[0] == 's' {
        if text[1] == 'q' {
            "sqrt("@
        } else if text[1] == 'i' {
            "sigmoid("@
        } else {
            "sum("@
        }
    } else if text[0] == 'c' {
        if text[1] == 'a' {
            "cat(["@
        } else {
            "clamp("@
        }
    } else if text[1] == 'e' {
        "relu("@
    } else {
        Seq::empty()
    }
}


proof fn the_text_of_two_registers(op: ResolvedInstr)
    requires
        op is Add
            || op is Sub
            || op is Mul
            || op is Div
            || op is Matmul,
    ensures
        op.text() == opening(op) + (reg_text(op.left() as int) + ending(op)),
        ending(op).len() == 0 || !crate::text::is_digit(ending(op)[0]),
        opening(op) == opening_read(op.text()),
        kind(op) == kind_read(opening(op), ending(op)),
{
    reveal_strlit("");
    reveal_strlit("r");
    crate::text::decimal_is_digits(op.left() as int);
    let whole = opening(op) + (reg_text(op.left() as int) + ending(op));
    match op {
        ResolvedInstr::Add(a, b) => {
            reveal_strlit(" + ");
            assert(op.text() =~= whole);
        },
        ResolvedInstr::Sub(a, b) => {
            reveal_strlit(" - ");
            assert(op.text() =~= whole);
        },
        ResolvedInstr::Mul(a, b) => {
            reveal_strlit(" * ");
            assert(op.text() =~= whole);
        },
        ResolvedInstr::Div(a, b) => {
            reveal_strlit(" / ");
            assert(op.text() =~= whole);
        },
        ResolvedInstr::Matmul(a, b) => {
            reveal_strlit(" @ ");
            assert(op.text() =~= whole);
        },
        _ => {},
    }
}

proof fn the_text_behind_its_name(op: ResolvedInstr)
    requires
        op is Neg
            || op is Abs
            || op is Exp
            || op is Log
            || op is Sqrt,
    ensures
        op.text() == opening(op) + (reg_text(op.left() as int) + ending(op)),
        ending(op).len() == 0 || !crate::text::is_digit(ending(op)[0]),
        opening(op) == opening_read(op.text()),
        kind(op) == kind_read(opening(op), ending(op)),
{
    reveal_strlit("");
    reveal_strlit("r");
    crate::text::decimal_is_digits(op.left() as int);
    let whole = opening(op) + (reg_text(op.left() as int) + ending(op));
    match op {
        ResolvedInstr::Neg(a) => {
            reveal_strlit("-");
            assert(op.text() =~= whole);
        },
        ResolvedInstr::Abs(a) => {
            reveal_strlit("abs(");
            reveal_strlit(")");
            assert(op.text() =~= whole);
        },
        ResolvedInstr::Exp(a) => {
            reveal_strlit("exp(");
            reveal_strlit(")");
            assert(op.text() =~= whole);
        },
        ResolvedInstr::Log(a) => {
            reveal_strlit("log(");
            reveal_strlit(")");
            assert(op.text() =~= whole);
        },
        ResolvedInstr::Sqrt(a) => {
            reveal_strlit("sqrt(");
            reveal_strlit(")");
            assert(op.text() =~= whole);
        },
        _ => {},
    }
}

proof fn the_text_behind_its_longer_name(op: ResolvedInstr)
    requires
        op is Relu
            || op is Sigmoid
            || op is Tanh
            || op is SumAll
            || op is MeanAll
            || op is Clamp,
    ensures
        op.text() == opening(op) + (reg_text(op.left() as int) + ending(op)),
        ending(op).len() == 0 || !crate::text::is_digit(ending(op)[0]),
        opening(op) == opening_read(op.text()),
        kind(op) == kind_read(opening(op), ending(op)),
{
    reveal_strlit("");
    reveal_strlit("r");
    crate::text::decimal_is_digits(op.left() as int);
    let whole = opening(op) + (reg_text(op.left() as int) + ending(op));
    match op {
        ResolvedInstr::Relu(a) => {
            reveal_strlit("relu(");
            reveal_strlit(")");
            assert(op.text() =~= whole);
        },
        ResolvedInstr::Sigmoid(a) => {
            reveal_strlit("sigmoid(");
            reveal_strlit(")");
            assert(op.text() =~= whole);
        },
        ResolvedInstr::Tanh(a) => {
            reveal_strlit("tanh(");
            reveal_strlit(")");
            assert(op.text() =~= whole);
        },
        ResolvedInstr::SumAll(a) => {
            reveal_strlit("sum(");
            reveal_strlit(")  # → [1×1]");
            assert(op.text() =~= whole);
        },
        ResolvedInstr::MeanAll(a) => {
            reveal_strlit("mean(");
            reveal_strlit(")  # → [1×1]");
            assert(op.text() =~= whole);
        },
        ResolvedInstr::Clamp(a) => {
            reveal_strlit("clamp(");
            reveal_strlit(", -1e6, 1e6)");
            assert(op.text() =~= whole);
        },
        _ => {},
    }
}

proof fn the_text_before_its_name(op: ResolvedInstr)
    requires
        op is Transpose
            || op is MatmulPassthrough
            || op is ConcatPassthrough
            || op is PowfScalar
            || op is Repeat,
    ensures
        op.text() == opening(op) + (reg_text(op.left() as int) + ending(op)),
        ending(op).len() == 0 || !crate::text::is_digit(ending(op)[0]),
        opening(op) == opening_read(op.text()),
        kind(op) == kind_read(opening(op), ending(op)),
{
    reveal_strlit("");
    reveal_strlit("r");
    crate::text::decimal_is_digits(op.left() as int);
    let whole = opening(op) + (reg_text(op.left() as int) + ending(op));
    match op {
        ResolvedInstr::Transpose(a) => {
            reveal_strlit(".T");
            assert(op.text() =~= whole);
        },
        ResolvedInstr::MatmulPassthrough(a) => {
            reveal_strlit("  # matmul: no compatible b, passthrough");
            assert(op.text() =~= whole);
        },
        ResolvedInstr::ConcatPassthrough(a) => {
            reveal_strlit("  # concat: no compatible b, passthrough");
            assert(op.text() =~= whole);
        },
        ResolvedInstr::PowfScalar(a, halves) => {
            reveal_strlit(".powf(");
            assert(op.text() =~= whole);
        },
        ResolvedInstr::Repeat(a, dim, count) => {
            reveal_strlit(".repeat(dim=");
            assert(op.text() =~= whole);
        },
        _ => {},
    }
}

proof fn the_text_with_a_dimension(op: ResolvedInstr)
    requires
        op is SumDim
            || op is MeanDim
            || op is Concat,
    ensures
        op.text() == opening(op) + (reg_text(op.left() as int) + ending(op)),
        ending(op).len() == 0 || !crate::text::is_digit(ending(op)[0]),
        opening(op) == opening_read(op.text()),
        kind(op) == kind_read(opening(op), ending(op)),
{
    reveal_strlit("");
    reveal_strlit("r");
    crate::text::decimal_is_digits(op.left() as int);
    let whole = opening(op) + (reg_text(op.left() as int) + ending(op));
    match op {
        ResolvedInstr::SumDim(a, dim) => {
            reveal_strlit("sum(");
            reveal_strlit(", dim=");
            assert(op.text() =~= whole);
        },
        ResolvedInstr::MeanDim(a, dim) => {
            reveal_strlit("mean(");
            reveal_strlit(", dim=");
            assert(op.text() =~= whole);
        },
        ResolvedInstr::Concat(a, b, dim) => {
            reveal_strlit("cat([");
            reveal_strlit(", ");
            assert(op.text() =~= whole);
        },
        _ => {},
    }
}

/// The text of an instruction is its opening, its first register and its ending, and
/// opening and kind can be read off it.
proof fn the_text_can_be_taken_apart(op: ResolvedInstr)
    ensures
        op.text() == opening(op) + (reg_text(op.left() as int) + ending(op)),
        ending(op).len() == 0 || !crate::text::is_digit(ending(op)[0]),
        opening(op) == opening_read(op.text()),
        kind(op) == kind_read(opening(op), ending(op)),
{
    match op {
        ResolvedInstr::Add(..)
        | ResolvedInstr::Sub(..)
        | ResolvedInstr::Mul(..)
        | ResolvedInstr::Div(..)
        | ResolvedInstr::Matmul(..) => {
            the_text_of_two_registers(op);
        },
        ResolvedInstr::Neg(..)
        | ResolvedInstr::Abs(..)
        | ResolvedInstr::Exp(..)
        | ResolvedInstr::Log(..)
        | ResolvedInstr::Sqrt(..) => {
            the_text_behind_its_name(op);
        },
        ResolvedInstr::Relu(..)
        | ResolvedInstr::Sigmoid(..)
        | ResolvedInstr::Tanh(..)
        | ResolvedInstr::SumAll(..)
        | ResolvedInstr::MeanAll(..)
        | ResolvedInstr::Clamp(..) => {
            the_text_behind_its_longer_name(op);
        },
        ResolvedInstr::Transpose(..)
        | ResolvedInstr::MatmulPassthrough(..)
        | ResolvedInstr::ConcatPassthrough(..)
        | ResolvedInstr::PowfScalar(..)
        | ResolvedInstr::Repeat(..) => {
            the_text_before_its_name(op);
        },
        ResolvedInstr::SumDim(..)
        | ResolvedInstr::MeanDim(..)
        | ResolvedInstr::Concat(..) => {
            the_text_with_a_dimension(op);
        },
    }
}

/// Different exponents are written differently.
pub proof fn exponents_read_back(h: int, k: int)
    requires
        exponent_text(h) == exponent_text(k),
    ensures
        h == k,
{
    reveal_strlit("");
    reveal_strlit("-");
    reveal_strlit(".5");
    let a = if h < 0 {
        -h
    } else {
        h
    };
    let b = if k < 0 {
        -k
    } else {
        k
    };
    crate::text::decimal_is_digits(a / 2);
    crate::text::decimal_is_digits(b / 2);
    let s = exponent_text(h);
    let da = crate::text::decimal(a / 2);
    let db = crate::text::decimal(b / 2);
    let fa = if a % 2 == 1 {
        ".5"@
    } else {
        Seq::empty()
    };
    let fb = if b % 2 == 1 {
        ".5"@
    } else {
        Seq::empty()
    };
    let sa = if h < 0 {
        "-"@
    } else {
        Seq::empty()
    };
    let sb = if k < 0 {
        "-"@
    } else {
        Seq::empty()
    };
    assert(s =~= sa + (da + fa));
    assert(s =~= sb + (db + fb));
    assert((h < 0) == (s[0] == '-')) by {
        assert(crate::text::is_digit(da[0]));
    }
    assert((k < 0) == (s[0] == '-')) by {
        assert(crate::text::is_digit(db[0]));
    }
    assert(da + fa =~= s.skip(sa.len() as int));
    assert(db + fb =~= s.skip(sb.len() as int));
    crate::text::a_leading_number_is_unique(a / 2, fa, b / 2, fb);
    assert(fa.len() == fb.len());
}

/// How an exponent is written: a whole number in decimal notation, with `.5` behind it for
/// half a unit more, and with a minus sign before it below zero.
pub proof fn an_exponent_is_written_in_halves(halves: int)
    ensures
        halves >= 0 && halves % 2 == 0 ==> exponent_text(halves) == crate::text::decimal(
            halves / 2,
        ),
        halves >= 0 && halves % 2 == 1 ==> exponent_text(halves) == crate::text::decimal(
            halves / 2,
        ) + ".5"@,
        halves < 0 ==> exponent_text(halves) == "-"@ + exponent_text(-halves),
{
    reveal_strlit("");
    assert(""@ + crate::text::decimal(halves / 2) =~= crate::text::decimal(halves / 2));
    if halves < 0 {
        assert(""@ + crate::text::decimal(-halves / 2) =~= crate::text::decimal(-halves / 2));
        assert(exponent_text(halves) =~= "-"@ + exponent_text(-halves));
    }
}

/// A register is written as the letter `r` and its number, so that different registers are
/// written differently.
pub proof fn registers_read_back(i: int, j: int)
    requires
        0 <= i,
        0 <= j,
    ensures
        reg_text(i)[0] == 'r',
        reg_text(i).skip(1) == crate::text::decimal(i),
        reg_text(i) == reg_text(j) ==> i == j,
{
    reveal_strlit("r");
    assert(reg_text(i).skip(1) =~= crate::text::decimal(i));
    assert(reg_text(j).skip(1) =~= crate::text::decimal(j));
    crate::text::decimal_is_digits(i);
    crate::text::decimal_is_digits(j);
}

proof fn the_endings_read_back(p: ResolvedInstr, q: ResolvedInstr)
    requires
        kind(p) == kind(q),
        p.left() == q.left(),
        ending(p) == ending(q),
    ensures
        p == q,
{
    match (p, q) {
        (ResolvedInstr::Add(_, b), ResolvedInstr::Add(_, c)) => {
            the_rest_is_equal(" + "@, reg_text(b as int), reg_text(c as int));
            registers_read_back(b as int, c as int);
        },
        (ResolvedInstr::Sub(_, b), ResolvedInstr::Sub(_, c)) => {
            the_rest_is_equal(" - "@, reg_text(b as int), reg_text(c as int));
            registers_read_back(b as int, c as int);
        },
        (ResolvedInstr::Mul(_, b), ResolvedInstr::Mul(_, c)) => {
            the_rest_is_equal(" * "@, reg_text(b as int), reg_text(c as int));
            registers_read_back(b as int, c as int);
        },
        (ResolvedInstr::Div(_, b), ResolvedInstr::Div(_, c)) => {
            the_rest_is_equal(" / "@, reg_text(b as int), reg_text(c as int));
            registers_read_back(b as int, c as int);
        },
        (ResolvedInstr::Matmul(_, b), ResolvedInstr::Matmul(_, c)) => {
            the_rest_is_equal(" @ "@, reg_text(b as int), reg_text(c as int));
            registers_read_back(b as int, c as int);
        },
        (ResolvedInstr::SumDim(_, d), ResolvedInstr::SumDim(_, e)) => {
            reveal_strlit(")");
            let (x, y) = (crate::text::decimal(d as int), crate::text::decimal(e as int));
            the_rest_is_equal(", dim="@, x + ")"@, y + ")"@);
            crate::text::a_leading_number_is_unique(d as int, ")"@, e as int, ")"@);
        },
        (ResolvedInstr::MeanDim(_, d), ResolvedInstr::MeanDim(_, e)) => {
            reveal_strlit(")");
            let (x, y) = (crate::text::decimal(d as int), crate::text::decimal(e as int));
            the_rest_is_equal(", dim="@, x + ")"@, y + ")"@);
            crate::text::a_leading_number_is_unique(d as int, ")"@, e as int, ")"@);
        },
        (ResolvedInstr::PowfScalar(_, h), ResolvedInstr::PowfScalar(_, k)) => {
            let (x, y) = (exponent_text(h as int), exponent_text(k as int));
            the_rest_is_equal(".powf("@, x + ")"@, y + ")"@);
            assert((x + ")"@).len() == (y + ")"@).len());
            assert(x =~= (x + ")"@).take(x.len() as int));
            assert(y =~= (y + ")"@).take(y.len() as int));
            exponents_read_back(h as int, k as int);
        },
        (ResolvedInstr::Concat(_, b, d), ResolvedInstr::Concat(_, c, e)) => {
            reveal_strlit(")");
            reveal_strlit("], dim=");
            let (x, y) = (crate::text::decimal(d as int), crate::text::decimal(e as int));
            let u = "], dim="@ + (x + ")"@);
            let v = "], dim="@ + (y + ")"@);
            the_rest_is_equal(", "@, reg_text(b as int) + u, reg_text(c as int) + v);
            assert(reg_text(b as int) + u =~= "r"@ + (crate::text::decimal(b as int) + u));
            assert(reg_text(c as int) + v =~= "r"@ + (crate::text::decimal(c as int) + v));
            the_rest_is_equal(
                "r"@,
                crate::text::decimal(b as int) + u,
                crate::text::decimal(c as int) + v,
            );
            crate::text::a_leading_number_is_unique(b as int, u, c as int, v);
            the_rest_is_equal("], dim="@, x + ")"@, y + ")"@);
            crate::text::a_leading_number_is_unique(d as int, ")"@, e as int, ")"@);
        },
        (ResolvedInstr::Repeat(_, d, m), ResolvedInstr::Repeat(_, e, n)) => {
            reveal_strlit(")");
            reveal_strlit(", ×");
            let (x, y) = (crate::text::decimal(m as int), crate::text::decimal(n as int));
            let u = ", ×"@ + (x + ")"@);
            let v = ", ×"@ + (y + ")"@);
            the_rest_is_equal(
                ".repeat(dim="@,
                crate::text::decimal(d as int) + u,
                crate::text::decimal(e as int) + v,
            );
            crate::text::a_leading_number_is_unique(d as int, u, e as int, v);
            the_rest_is_equal(", ×"@, x + ")"@, y + ")"@);
            crate::text::a_leading_number_is_unique(m as int, ")"@, n as int, ")"@);
        },
        _ => {},
    }
}

proof fn the_rest_is_equal(before: Seq<char>, x: Seq<char>, y: Seq<char>)
    requires
        before + x == before + y,
    ensures
        x == y,
{
    let n = before.len() as int;
    assert(x =~= (before + x).skip(n));
    assert(y =~= (before + y).skip(n));
}

/// An instruction can be read back from its text: different instructions, or one
/// instruction with other operands or parameters, are printed differently.
pub proof fn instructions_read_back(p: ResolvedInstr, q: ResolvedInstr)
    requires
        p.text() == q.text(),
    ensures
        p == q,
{
    the_text_can_be_taken_apart(p);
    the_text_can_be_taken_apart(q);
    let (i, j) = (p.left() as int, q.left() as int);
    the_rest_is_equal(opening(p), reg_text(i) + ending(p), reg_text(j) + ending(q));
    assert(reg_text(i) + ending(p) =~= "r"@ + (crate::text::decimal(i) + ending(p)));
    assert(reg_text(j) + ending(q) =~= "r"@ + (crate::text::decimal(j) + ending(q)));
    the_rest_is_equal(
        "r"@,
        crate::text::decimal(i) + ending(p),
        crate::text::decimal(j) + ending(q),
    );
    crate::text::a_leading_number_is_unique(i, ending(p), j, ending(q));
    the_endings_read_back(p, q);
}


/// An instruction that is taken as it is written keeps its kind, reads the registers that
/// its references mean modulo the number of registers, in the order in which they are
/// written, and has the dimension, count and exponent that its bytes select.
pub proof fn what_is_written_is_kept(instr: TensorInstr, n: int)
    requires
        0 < n <= usize::MAX,
    ensures
        match (instr, instr.literal(n)) {
            (TensorInstr::Neg(r), ResolvedInstr::Neg(a))
            | (TensorInstr::Abs(r), ResolvedInstr::Abs(a))
            | (TensorInstr::Exp(r), ResolvedInstr::Exp(a))
            | (TensorInstr::Log(r), ResolvedInstr::Log(a))
            | (TensorInstr::Sqrt(r), ResolvedInstr::Sqrt(a))
            | (TensorInstr::Relu(r), ResolvedInstr::Relu(a))
            | (TensorInstr::Sigmoid(r), ResolvedInstr::Sigmoid(a))
            | (TensorInstr::Tanh(r), ResolvedInstr::Tanh(a))
            | (TensorInstr::SumAll(r), ResolvedInstr::SumAll(a))
            | (TensorInstr::MeanAll(r), ResolvedInstr::MeanAll(a))
            | (TensorInstr::Transpose(r), ResolvedInstr::Transpose(a))
            | (TensorInstr::Clamp(r), ResolvedInstr::Clamp(a)) => a as int == r.0 as int % n,
            (TensorInstr::Add(r, s), ResolvedInstr::Add(a, b))
            | (TensorInstr::Sub(r, s), ResolvedInstr::Sub(a, b))
            | (TensorInstr::Mul(r, s), ResolvedInstr::Mul(a, b))
            | (TensorInstr::Div(r, s), ResolvedInstr::Div(a, b))
            | (TensorInstr::Matmul(r, s), ResolvedInstr::Matmul(a, b)) => {
                &&& a as int == r.0 as int % n
                &&& b as int == s.0 as int % n
            },
            (TensorInstr::Concat(r, s, d), ResolvedInstr::Concat(a, b, dim)) => {
                &&& a as int == r.0 as int % n
                &&& b as int == s.0 as int % n
                &&& dim as int == d as int % 2
            },
            (TensorInstr::SumDim(r, d), ResolvedInstr::SumDim(a, dim))
            | (TensorInstr::MeanDim(r, d), ResolvedInstr::MeanDim(a, dim)) => a as int == r.0
                as int % n && dim as int == d as int % 2,
            (TensorInstr::Repeat(r, d, c), ResolvedInstr::Repeat(a, dim, count)) => {
                &&& a as int == r.0 as int % n
                &&& dim as int == d as int % 2
                &&& 1 <= count <= 4
                &&& 1 <= c <= 4 ==> count == c
                &&& c == 0 ==> count == 1
                &&& c > 4 ==> count == 4
            },
            (TensorInstr::PowfScalar(r, e), ResolvedInstr::PowfScalar(a, halves)) => a as int
                == r.0 as int % n && halves as int == seq![-4int, -2, -1, 0, 1, 2, 4, 6][e as int
                % 8],
            _ => false,
        },
{
}

/// The registers that an instruction reads are the ones it holds, in their order.
pub proof fn the_operands_are_the_registers_held(op: ResolvedInstr)
    ensures
        match op {
            ResolvedInstr::Add(a, b)
            | ResolvedInstr::Sub(a, b)
            | ResolvedInstr::Mul(a, b)
            | ResolvedInstr::Div(a, b)
            | ResolvedInstr::Matmul(a, b)
            | ResolvedInstr::Concat(a, b, _) => op.left() == a && op.right() == Some(b),
            ResolvedInstr::Neg(a)
            | ResolvedInstr::Abs(a)
            | ResolvedInstr::Exp(a)
            | ResolvedInstr::Log(a)
            | ResolvedInstr::Sqrt(a)
            | ResolvedInstr::Relu(a)
            | ResolvedInstr::Sigmoid(a)
            | ResolvedInstr::Tanh(a)
            | ResolvedInstr::SumAll(a)
            | ResolvedInstr::MeanAll(a)
            | ResolvedInstr::Transpose(a)
            | ResolvedInstr::MatmulPassthrough(a)
            | ResolvedInstr::ConcatPassthrough(a)
            | ResolvedInstr::Clamp(a)
            | ResolvedInstr::PowfScalar(a, _)
            | ResolvedInstr::SumDim(a, _)
            | ResolvedInstr::MeanDim(a, _)
            | ResolvedInstr::Repeat(a, _, _) => op.left() == a && op.right() is None,
        },
{
}

} // verus!
