//! `Shape2`: the two-dimensional shape of a register, and the shape algebra.

use vstd::prelude::*;
use vstd::string::*;
use crate::text::decimal_text;

verus! {

/// Largest number of elements a register may hold: one Mi of 32-bit elements.
pub const MAX_TENSOR_ELEMENTS: usize = 1048576;

/// The shape of a register: rows, then columns.
#[derive(Debug, Clone, Copy, PartialEq, Eq, Structural)]
pub struct Shape2(pub usize, pub usize);

/// The larger of two dimensions.
pub open spec fn larger(a: usize, b: usize) -> usize {
    if a >= b {
        a
    } else {
        b
    }
}

/// Two dimensions broadcast when they are equal or one of them is 1.
pub open spec fn dims_broadcast(a: usize, b: usize) -> bool {
    a == b || a == 1 || b == 1
}

/// Whether `rows` by `cols` elements are more than a register may hold.
pub open spec fn over_cap(rows: int, cols: int) -> bool {
    rows * cols > MAX_TENSOR_ELEMENTS
}

impl Shape2 {
    pub open spec fn broadcasts(self, other: Shape2) -> bool {
        dims_broadcast(self.0, other.0) && dims_broadcast(self.1, other.1)
    }

    pub open spec fn joined(self, other: Shape2) -> Shape2 {
        Shape2(larger(self.0, other.0), larger(self.1, other.1))
    }

    /// The inner dimensions of a matrix product agree.
    pub open spec fn multiplies(self, other: Shape2) -> bool {
        self.1 == other.0
    }

    /// The dimension that concatenation along `dim` leaves alone agrees.
    pub open spec fn concatenates(self, other: Shape2, dim: int) -> bool {
        if dim == 0 {
            self.1 == other.1
        } else {
            self.0 == other.0
        }
    }

    /// A shape that a register can have: neither empty nor over the cap.
    pub open spec fn valid(self) -> bool {
        self.0 >= 1 && self.1 >= 1 && !over_cap(self.0 as int, self.1 as int)
    }

    /// The shape as it is printed, `[rows×cols]`.
    pub open spec fn text(self) -> Seq<char> {
        "["@ + crate::text::decimal(self.0 as int) + "×"@ + crate::text::decimal(self.1 as int)
            + "]"@
    }

    pub fn rows(self) -> (r: usize)
        ensures
            r == self.0,
    {
        self.0
    }

    pub fn cols(self) -> (r: usize)
        ensures
            r == self.1,
    {
        self.1
    }

    /// The number of elements, saturating on pathological shapes.
    pub fn elements(self) -> (r: usize)
        ensures
            self.0 * self.1 <= usize::MAX ==> r == self.0 * self.1,
            self.0 * self.1 > usize::MAX ==> r == usize::MAX,
    {
        match self.0.checked_mul(self.1) {
            Some(product) => product,
            None => usize::MAX,
        }
    }

    pub fn exceeds_cap(self) -> (r: bool)
        ensures
            r == over_cap(self.0 as int, self.1 as int),
    {
        self.elements() > MAX_TENSOR_ELEMENTS
    }

    pub fn broadcast_compatible(self, other: Shape2) -> (r: bool)
        ensures
            r == self.broadcasts(other),
    {
        (self.0 == other.0 || self.0 == 1 || other.0 == 1)
            && (self.1 == other.1 || self.1 == 1 || other.1 == 1)
    }

    pub fn broadcast_result(self, other: Shape2) -> (r: Shape2)
        ensures
            r == self.joined(other),
    {
        Shape2(
            if self.0 >= other.0 { self.0 } else { other.0 },
            if self.1 >= other.1 { self.1 } else { other.1 },
        )
    }

    pub fn matmul_compatible(self, other: Shape2) -> (r: bool)
        ensures
            r == self.multiplies(other),
    {
        self.1 == other.0
    }

    pub fn concat_compatible(self, other: Shape2, dim: usize) -> (r: bool)
        ensures
            r == self.concatenates(other, dim as int),
    {
        if dim == 0 {
            self.1 == other.1
        } else {
            self.0 == other.0
        }
    }

    /// The shape in the notation of program listings, `[rows×cols]`.
    pub fn to_text(self) -> (r: String)
        ensures
            r@ == self.text(),
    {
        let mut s: String = "[".to_owned();
        s.append(decimal_text(self.rows()).as_str());
        s.append("×");
        s.append(decimal_text(self.cols()).as_str());
        s.append("]");
        s
    }
}

/// Every shape broadcasts with itself, and the result is that shape.
pub proof fn broadcast_is_reflexive(a: Shape2)
    ensures
        a.broadcasts(a),
        a.joined(a) == a,
{
}

/// Broadcasting does not depend on the order of its operands.
pub proof fn broadcast_is_symmetric(a: Shape2, b: Shape2)
    ensures
        a.broadcasts(b) == b.broadcasts(a),
        a.joined(b) == b.joined(a),
{
}

/// When two non-empty shapes broadcast, each dimension of the result is the
/// dimension of one operand, and the other operand has that dimension or 1: the
/// result stretches only dimensions of size 1.
pub proof fn broadcast_stretches_only_ones(a: Shape2, b: Shape2)
    requires
        a.broadcasts(b),
        a.0 >= 1 && a.1 >= 1 && b.0 >= 1 && b.1 >= 1,
    ensures
        a.joined(b).0 == (if a.0 == 1 { b.0 } else { a.0 }),
        a.joined(b).1 == (if a.1 == 1 { b.1 } else { a.1 }),
        a.joined(b).broadcasts(a),
        a.joined(b).broadcasts(b),
{
}

/// Each side of a shape that a register can have is itself within the cap.
pub proof fn valid_sides_are_capped(a: Shape2)
    requires
        a.valid(),
    ensures
        a.0 <= MAX_TENSOR_ELEMENTS,
        a.1 <= MAX_TENSOR_ELEMENTS,
{
    assert(a.0 <= a.0 * a.1) by (nonlinear_arith)
        requires
            a.1 >= 1,
    ;
    assert(a.1 <= a.0 * a.1) by (nonlinear_arith)
        requires
            a.0 >= 1,
    ;
}

/// A printed shape has no character but digits, its brackets and the sign between.
pub proof fn shape_text_lacks(shape: Shape2, c: char)
    requires
        !crate::text::is_digit(c),
        c != '[',
        c != ']',
        c != '×',
    ensures
        crate::text::lacks(shape.text(), c),
{
    reveal_strlit("[");
    reveal_strlit("×");
    reveal_strlit("]");
    crate::text::decimal_lacks(shape.0 as int, c);
    crate::text::decimal_lacks(shape.1 as int, c);
}

/// A register holds at most 1048576 elements, and at least one.
pub proof fn the_cap_is_on_the_number_of_elements(a: Shape2, rows: int, cols: int)
    ensures
        over_cap(rows, cols) <==> rows * cols > 1048576,
        a.valid() <==> a.0 >= 1 && a.1 >= 1 && a.0 * a.1 <= 1048576,
{
}

/// What shapes go together, side by side: two broadcast if in each dimension they are of
/// one size or one of them is of size one, and the result has the larger size of the two
/// there; two multiply if the first has as many columns as the second has rows; two can be
/// put one below the other if they have as many columns, and side by side if they have as
/// many rows.
pub proof fn shapes_go_together_by_their_sides(a: Shape2, b: Shape2)
    ensures
        a.broadcasts(b) <==> (a.0 == b.0 || a.0 == 1 || b.0 == 1) && (a.1 == b.1 || a.1 == 1
            || b.1 == 1),
        a.joined(b).0 >= a.0 && a.joined(b).0 >= b.0,
        a.joined(b).0 == a.0 || a.joined(b).0 == b.0,
        a.joined(b).1 >= a.1 && a.joined(b).1 >= b.1,
        a.joined(b).1 == a.1 || a.joined(b).1 == b.1,
        a.multiplies(b) <==> a.1 == b.0,
        a.concatenates(b, 0) <==> a.1 == b.1,
        a.concatenates(b, 1) <==> a.0 == b.0,
{
}

/// A shape is printed between brackets, its rows before its columns, so that different
/// shapes are printed differently.
pub proof fn shapes_read_back(a: Shape2, b: Shape2)
    ensures
        a.text() == "["@ + crate::text::decimal(a.0 as int) + "×"@ + crate::text::decimal(
            a.1 as int,
        ) + "]"@,
        a.text() == b.text() ==> a == b,
{
    if a.text() == b.text() {
        reveal_strlit("[");
        reveal_strlit("×");
        reveal_strlit("]");
        let x = "×"@ + (crate::text::decimal(a.1 as int) + "]"@);
        let y = "×"@ + (crate::text::decimal(b.1 as int) + "]"@);
        let p = crate::text::decimal(a.0 as int) + x;
        let q = crate::text::decimal(b.0 as int) + y;
        assert(a.text() =~= "["@ + p);
        assert(b.text() =~= "["@ + q);
        assert(p =~= a.text().skip(1));
        assert(q =~= b.text().skip(1));
        crate::text::a_leading_number_is_unique(a.0 as int, x, b.0 as int, y);
        assert(crate::text::decimal(a.1 as int) + "]"@ =~= x.skip(1));
        assert(crate::text::decimal(b.1 as int) + "]"@ =~= y.skip(1));
        crate::text::a_leading_number_is_unique(a.1 as int, "]"@, b.1 as int, "]"@);
    }
}

} // verus!
