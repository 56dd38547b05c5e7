//! Tensor programs: what they run, and how they are printed.

use vstd::prelude::*;
use vstd::string::*;
use crate::ops::{ResolvedInstr, TensorInstr, reg_to_text};
use crate::resolve::{after_tensor_instr, resolve_instr, shape_after};
use crate::shape::Shape2;
use crate::text::decimal_text;

verus! {

/// A raw dimension byte brought into `1..=16`.
pub open spec fn side(raw: u8) -> usize {
    if raw < 1 {
        1
    } else if raw > 16 {
        16
    } else {
        raw as usize
    }
}

/// Bring a raw dimension byte into `1..=16`. Every framework gets the same bound:
/// another one would make it run another program.
pub fn clamp_dim(raw: u8) -> (r: usize)
    ensures
        r == side(raw),
        1 <= r <= 16,
{
    if raw < 1 {
        1
    } else if raw > 16 {
        16
    } else {
        raw as usize
    }
}

/// A tensor program. Register `r0` is the input, built from `values`; every
/// instruction appends one register.
#[derive(Debug)]
pub struct TensorProgram {
    pub rows: u8,
    pub cols: u8,
    pub values: Vec<u8>,
    pub ops: Vec<TensorInstr>,
}

/// What a tensor program runs: the shape of every register, and the instruction
/// that produces each register after the first.
pub struct TensorPlan {
    pub shapes: Vec<Shape2>,
    pub steps: Vec<ResolvedInstr>,
}

impl TensorProgram {
    pub open spec fn input_shape(self) -> Shape2 {
        Shape2(side(self.rows), side(self.cols))
    }

    /// The shapes of the registers that exist once `k` instructions have been
    /// considered. The first instruction whose result would be over the cap ends
    /// the program: from there on there are no more than `k` registers.
    pub open spec fn shapes_after(self, k: int) -> Seq<Shape2>
        decreases k,
    {
        if k <= 0 {
            seq![self.input_shape()]
        } else {
            let shapes = self.shapes_after(k - 1);
            let op = crate::resolve::resolution(shapes, self.ops@[k - 1]);
            let dims = op.out_dims(shapes);
            if shapes.len() < k || crate::shape::over_cap(dims.0, dims.1) {
                shapes
            } else {
                shapes.push(op.out_shape(shapes))
            }
        }
    }

    /// The shapes of all registers of the program.
    pub open spec fn shapes(self) -> Seq<Shape2> {
        self.shapes_after(self.ops@.len() as int)
    }

    /// The instruction that produces register `i + 1`.
    pub open spec fn step(self, i: int) -> ResolvedInstr {
        crate::resolve::resolution(self.shapes().take(i + 1), self.ops@[i])
    }

    /// The instructions that are run, in order.
    pub open spec fn steps(self) -> Seq<ResolvedInstr> {
        Seq::new((self.shapes().len() - 1) as nat, |i: int| self.step(i))
    }

    proof fn shapes_after_len(self, k: int)
        requires
            0 <= k,
        ensures
            1 <= self.shapes_after(k).len() <= k + 1,
        decreases k,
    {
        if k > 0 {
            self.shapes_after_len(k - 1);
        }
    }

    proof fn shapes_after_halt(self, j: int, k: int)
        requires
            0 <= j <= k,
            self.shapes_after(j).len() <= j,
        ensures
            self.shapes_after(k) == self.shapes_after(j),
        decreases k - j,
    {
        if j < k {
            self.shapes_after_halt(j, k - 1);
        }
    }

    proof fn shapes_after_prefix(self, j: int, k: int)
        requires
            0 <= j <= k,
            self.shapes_after(k).len() > j,
        ensures
            self.shapes_after(j) == self.shapes_after(k).take(j + 1),
        decreases k - j,
    {
        self.shapes_after_len(j);
        self.shapes_after_len(k);
        if j == k {
            assert(self.shapes_after(k).take(j + 1) =~= self.shapes_after(k));
        } else {
            self.shapes_after_len(k - 1);
            self.shapes_after_prefix(j, k - 1);
            assert(self.shapes_after(k).take(j + 1) =~= self.shapes_after(k - 1).take(j + 1));
        }
    }

    /// Every register of a tensor program is non-empty and within the element cap,
    /// at every point of its run.
    pub proof fn registers_are_valid(self, k: int)
        requires
            0 <= k <= self.ops@.len() <= usize::MAX,
        ensures
            forall|i: int|
                0 <= i < self.shapes_after(k).len() ==> (#[trigger] self.shapes_after(k)[i]).valid(),
        decreases k,
    {
        if k <= 0 {
            let s = self.input_shape();
            assert(s.0 * s.1 <= 16 * 16) by (nonlinear_arith)
                requires
                    s.0 <= 16,
                    s.1 <= 16,
            ;
        } else {
            self.registers_are_valid(k - 1);
            self.shapes_after_len(k - 1);
            let shapes = self.shapes_after(k - 1);
            let op = crate::resolve::resolution(shapes, self.ops@[k - 1]);
            if shapes.len() == k {
                registers_allow_next(shapes, self.ops@[k - 1]);
            }
        }
    }

    /// A program is never cut short before its first instruction whose result would
    /// be over the cap, and always there: the registers are the input and the
    /// results of the instructions before it.
    pub proof fn runs_until_the_cap(self)
        requires
            self.ops@.len() <= usize::MAX,
        ensures
            1 <= self.shapes().len() <= self.ops@.len() + 1,
            self.shapes()[0] == self.input_shape(),
            forall|i: int|
                0 <= i < self.shapes().len() - 1 ==> {
                    let before = self.shapes().take(i + 1);
                    let dims = (#[trigger] self.step(i)).out_dims(before);
                    &&& !crate::shape::over_cap(dims.0, dims.1)
                    &&& self.step(i).legal(before)
                    &&& self.step(i).fits(before)
                    &&& self.shapes()[i + 1] == self.step(i).out_shape(before)
                },
            self.shapes().len() <= self.ops@.len() ==> {
                let i = self.shapes().len() - 1;
                let dims = self.step(i).out_dims(self.shapes());
                crate::shape::over_cap(dims.0, dims.1) && self.step(i).fits(self.shapes())
            },
    {
        let n = self.ops@.len() as int;
        let shapes = self.shapes();
        self.shapes_after_len(n);
        self.shapes_after_prefix(0, n);
        assert(shapes[0] == shapes.take(1)[0]);
        assert forall|i: int| 0 <= i < shapes.len() - 1 implies {
            let before = shapes.take(i + 1);
            let dims = (#[trigger] self.step(i)).out_dims(before);
            &&& !crate::shape::over_cap(dims.0, dims.1)
            &&& self.step(i).legal(before)
            &&& self.step(i).fits(before)
            &&& shapes[i + 1] == self.step(i).out_shape(before)
        } by {
            self.shapes_after_prefix(i, n);
            self.shapes_after_prefix(i + 1, n);
            self.registers_are_valid(i);
            registers_allow_next(shapes.take(i + 1), self.ops@[i]);
            assert(shapes[i + 1] == shapes.take(i + 2)[i + 1]);
        }
        if shapes.len() <= n {
            let i = shapes.len() - 1;
            self.shapes_after_prefix(i, n);
            assert(shapes.take(i + 1) =~= shapes);
            self.registers_are_valid(i);
            registers_allow_next(shapes, self.ops@[i]);
            let dims = self.step(i).out_dims(shapes);
            if !crate::shape::over_cap(dims.0, dims.1) {
                assert(self.shapes_after(i + 1).len() == i + 2);
                self.shapes_after_grows(i + 1, n);
            }
        }
    }

    proof fn shapes_after_grows(self, j: int, k: int)
        requires
            0 <= j <= k,
        ensures
            self.shapes_after(j).len() <= self.shapes_after(k).len(),
        decreases k - j,
    {
        if j < k {
            self.shapes_after_grows(j, k - 1);
        }
    }

    /// The listing's line for register `i + 1`.
    pub open spec fn line(self, i: int) -> Seq<char> {
        crate::ops::reg_text(i + 1) + " "@ + self.shapes()[i + 1].text() + " = "@ + self.step(
            i,
        ).text() + "\n"@
    }

    /// The heading and the line of the input register.
    pub open spec fn heading(self) -> Seq<char> {
        "=== TensorProgram "@ + self.input_shape().text() + " ===\n"@ + "r0 "@
            + self.input_shape().text() + " = input("@ + crate::text::decimal(
            self.values@.len() as int,
        ) + " seed bytes)\n"@
    }

    /// The heading and the lines of the first `k` instructions.
    pub open spec fn listing(self, k: int) -> Seq<char>
        decreases k,
    {
        if k <= 0 {
            self.heading()
        } else {
            self.listing(k - 1) + self.line(k - 1)
        }
    }

    /// The note that the instructions from the first one over the cap on are not
    /// run, with the shape that it would have had.
    pub open spec fn skip_note(self) -> Seq<char> {
        let n = self.shapes().len() as int;
        "... ("@ + crate::text::decimal(self.ops@.len() - (n - 1)) + " remaining op(s) skipped: "@
            + crate::ops::reg_text(n) + " would be "@ + self.step(n - 1).out_shape(
            self.shapes(),
        ).text() + ")\n"@
    }

    /// The program as it is printed: a heading, one line for each register that is
    /// computed, a note if the rest is skipped, and the result register.
    pub open spec fn text(self) -> Seq<char> {
        let last = self.shapes().len() - 1;
        let lines = self.listing(last);
        (if last < self.ops@.len() {
            lines + self.skip_note()
        } else {
            lines
        }) + "result = "@ + crate::ops::reg_text(last)
    }

    proof fn listing_shows(self, i: int, k: int)
        requires
            0 <= i < k,
        ensures
            crate::text::occurs(self.line(i), self.listing(k)),
        decreases k,
    {
        if i == k - 1 {
            crate::text::occurs_at_the_end(self.listing(i), self.line(i));
        } else {
            self.listing_shows(i, k - 1);
            crate::text::occurs_in_longer(self.line(i), self.listing(k - 1), self.line(k - 1));
        }
    }

    /// The printed program shows every instruction that is run, with the operands
    /// and the shape that it is run with.
    pub proof fn every_step_is_printed(self, i: int)
        requires
            0 <= i < self.steps().len(),
        ensures
            crate::text::occurs(self.line(i), self.text()),
            self.line(i) == crate::ops::reg_text(i + 1) + " "@ + self.shapes()[i + 1].text()
                + " = "@ + self.steps()[i].text() + "\n"@,
    {
        self.shapes_after_len(self.ops@.len() as int);
        let last = self.shapes().len() - 1;
        self.listing_shows(i, last);
        let lines = self.listing(last);
        let noted = if last < self.ops@.len() {
            lines + self.skip_note()
        } else {
            lines
        };
        if last < self.ops@.len() {
            crate::text::occurs_in_longer(self.line(i), lines, self.skip_note());
        }
        crate::text::occurs_in_longer(self.line(i), noted, "result = "@);
        crate::text::occurs_in_longer(
            self.line(i),
            noted + "result = "@,
            crate::ops::reg_text(last),
        );
    }

    /// The first line of the printed program.
    pub open spec fn title(self) -> Seq<char> {
        "=== TensorProgram "@ + self.input_shape().text() + " ==="@
    }

    /// The line of register `i`: the register, its shape, and how it comes about.
    pub open spec fn register_line(self, i: int) -> Seq<char> {
        crate::ops::reg_text(i) + " "@ + self.shapes()[i].text() + " = "@ + if i == 0 {
            "input("@ + crate::text::decimal(self.values@.len() as int) + " seed bytes)"@
        } else {
            self.step(i - 1).text()
        }
    }

    /// The title and the lines of registers up to `k`.
    pub open spec fn lines_up_to(self, k: int) -> Seq<Seq<char>> {
        seq![self.title()] + Seq::new((k + 1) as nat, |i: int| self.register_line(i))
    }

    /// The line that says what is skipped.
    pub open spec fn skip_line(self) -> Seq<char> {
        let n = self.shapes().len() as int;
        "... ("@ + crate::text::decimal(self.ops@.len() - (n - 1)) + " remaining op(s) skipped: "@
            + crate::ops::reg_text(n) + " would be "@ + self.step(n - 1).out_shape(
            self.shapes(),
        ).text() + ")"@
    }

    /// All lines of the printed program: the title, one line for each register, a line
    /// for what is skipped if anything is, and the result.
    pub open spec fn lines(self) -> Seq<Seq<char>> {
        let last = self.shapes().len() - 1;
        let registers = self.lines_up_to(last);
        (if last < self.ops@.len() {
            registers.push(self.skip_line())
        } else {
            registers
        }).push("result = "@ + crate::ops::reg_text(last))
    }

    proof fn register_line_lacks(self, i: int, c: char)
        requires
            0 <= i,
            crate::ops::is_foreign(c),
        ensures
            crate::text::lacks(self.register_line(i), c),
    {
        reveal_strlit(" ");
        reveal_strlit(" = ");
        reveal_strlit("input(");
        reveal_strlit(" seed bytes)");
        crate::ops::reg_text_lacks(i, c);
        crate::shape::shape_text_lacks(self.shapes()[i], c);
        let front = crate::ops::reg_text(i) + " "@ + self.shapes()[i].text() + " = "@;
        assert(crate::text::lacks(front, c));
        if i == 0 {
            crate::text::decimal_lacks(self.values@.len() as int, c);
            let tail = "input("@ + crate::text::decimal(self.values@.len() as int)
                + " seed bytes)"@;
            crate::text::joined_lack(front, tail, c);
        } else {
            crate::ops::resolved_text_lacks(self.step(i - 1), c);
            crate::text::joined_lack(front, self.step(i - 1).text(), c);
        }
    }

    proof fn title_lacks(self, c: char)
        requires
            crate::ops::is_foreign(c),
        ensures
            crate::text::lacks(self.title(), c),
    {
        reveal_strlit("=== TensorProgram ");
        reveal_strlit(" ===");
        crate::shape::shape_text_lacks(self.input_shape(), c);
    }

    proof fn heading_is_two_lines(self)
        requires
            self.shapes()[0] == self.input_shape(),
        ensures
            self.heading() == self.title() + "\n"@ + (self.register_line(0) + "\n"@),
    {
        reveal_strlit(" ===\n");
        reveal_strlit(" ===");
        reveal_strlit("\n");
        reveal_strlit("r0 ");
        reveal_strlit("r");
        reveal_strlit("0");
        reveal_strlit(" ");
        reveal_strlit(" = input(");
        reveal_strlit(" = ");
        reveal_strlit("input(");
        reveal_strlit(" seed bytes)\n");
        reveal_strlit(" seed bytes)");
        assert(" ===\n"@ =~= " ==="@ + "\n"@);
        assert("r0 "@ =~= crate::ops::reg_text(0) + " "@);
        assert(" = input("@ =~= " = "@ + "input("@);
        assert(" seed bytes)\n"@ =~= " seed bytes)"@ + "\n"@);
        assert(self.heading() =~= self.title() + "\n"@ + (self.register_line(0) + "\n"@));
    }

    proof fn listing_is_lines(self, k: int)
        requires
            0 <= k,
            self.shapes()[0] == self.input_shape(),
        ensures
            crate::text::split(self.listing(k), '\n') == self.lines_up_to(k).push(Seq::empty()),
        decreases k,
    {
        if k <= 0 {
            self.heading_is_two_lines();
            self.title_lacks('\n');
            self.register_line_lacks(0, '\n');
            let nothing = Seq::<char>::empty();
            assert(crate::text::split(nothing, '\n') =~= Seq::<Seq<char>>::empty().push(nothing));
            crate::text::line_appended(nothing, Seq::empty(), self.title());
            assert(nothing + (self.title() + "\n"@) =~= self.title() + "\n"@);
            crate::text::line_appended(
                self.title() + "\n"@,
                Seq::empty().push(self.title()),
                self.register_line(0),
            );
            assert(self.lines_up_to(0) =~= Seq::empty().push(self.title()).push(
                self.register_line(0),
            ));
        } else {
            self.listing_is_lines(k - 1);
            self.register_line_lacks(k, '\n');
            assert(self.line(k - 1) =~= self.register_line(k) + "\n"@);
            crate::text::line_appended(
                self.listing(k - 1),
                self.lines_up_to(k - 1),
                self.register_line(k),
            );
            assert(self.lines_up_to(k) =~= self.lines_up_to(k - 1).push(self.register_line(k)));
        }
    }

    proof fn skip_line_is_one_line(self)
        requires
            self.shapes().len() <= self.ops@.len(),
            self.shapes().len() >= 1,
        ensures
            self.skip_note() == self.skip_line() + "\n"@,
            crate::text::lacks(self.skip_line(), '\n'),
            crate::text::occurs("skipped"@, self.skip_line()),
            self.skip_line().len() >= 2,
            self.skip_line()[0] == '.',
    {
        let n = self.shapes().len() as int;
        let shape = self.step(n - 1).out_shape(self.shapes());
        reveal_strlit("... (");
        reveal_strlit(" remaining op(s) skipped: ");
        reveal_strlit(" would be ");
        reveal_strlit(")\n");
        reveal_strlit(")");
        reveal_strlit("\n");
        reveal_strlit("skipped");
        assert(")\n"@ =~= ")"@ + "\n"@);
        assert(self.skip_note() =~= self.skip_line() + "\n"@);
        crate::text::decimal_lacks(self.ops@.len() - (n - 1), '\n');
        crate::ops::reg_text_lacks(n, '\n');
        crate::shape::shape_text_lacks(shape, '\n');
        let count = "... ("@ + crate::text::decimal(self.ops@.len() - (n - 1));
        let front = count + " remaining op(s) skipped: "@;
        assert(crate::text::lacks(front, '\n'));
        let middle = front + crate::ops::reg_text(n) + " would be "@;
        assert(crate::text::lacks(middle, '\n'));
        assert(crate::text::lacks(middle + shape.text(), '\n'));
        assert(" remaining op(s) skipped: "@.subrange(17, 24) =~= "skipped"@);
        assert(crate::text::occurs_at("skipped"@, " remaining op(s) skipped: "@, 17));
        crate::text::occurs_after("skipped"@, count, " remaining op(s) skipped: "@);
        crate::text::occurs_in_longer("skipped"@, front, crate::ops::reg_text(n));
        crate::text::occurs_in_longer(
            "skipped"@,
            front + crate::ops::reg_text(n),
            " would be "@,
        );
        crate::text::occurs_in_longer("skipped"@, middle, shape.text());
        crate::text::occurs_in_longer("skipped"@, middle + shape.text(), ")"@);
    }

    proof fn listing_lacks(self, k: int, c: char)
        requires
            0 <= k,
            c == 'k',
            self.shapes()[0] == self.input_shape(),
        ensures
            crate::text::lacks(self.listing(k), c),
        decreases k,
    {
        reveal_strlit("\n");
        if k <= 0 {
            self.heading_is_two_lines();
            self.title_lacks(c);
            self.register_line_lacks(0, c);
            crate::text::joined_lack(self.title(), "\n"@, c);
            crate::text::joined_lack(self.register_line(0), "\n"@, c);
        } else {
            self.listing_lacks(k - 1, c);
            self.register_line_lacks(k, c);
            assert(self.line(k - 1) =~= self.register_line(k) + "\n"@);
            crate::text::joined_lack(self.register_line(k), "\n"@, c);
        }
    }

    /// The printed program is made of a title, exactly one line for each register in
    /// order, a line for what is skipped exactly if something is, and the result.
    pub proof fn one_line_for_each_register(self)
        requires
            self.ops@.len() <= usize::MAX,
        ensures
            crate::text::split(self.text(), '\n') == self.lines(),
            self.lines().len() == self.shapes().len() + if self.shapes().len()
                <= self.ops@.len() {
                3int
            } else {
                2
            },
            self.lines()[0] == self.title(),
            forall|i: int|
                0 <= i < self.shapes().len() ==> self.lines()[i + 1]
                    == #[trigger] self.register_line(i),
            self.shapes().len() <= self.ops@.len() ==> self.lines()[(self.shapes().len()
                + 1) as int] == self.skip_line(),
            self.lines().last() == "result = "@ + crate::ops::reg_text(self.shapes().len() - 1),
    {
        self.runs_until_the_cap();
        let last = self.shapes().len() - 1;
        let result = "result = "@ + crate::ops::reg_text(last);
        assert(crate::text::lacks(result, '\n')) by {
            reveal_strlit("result = ");
            crate::ops::reg_text_lacks(last, '\n');
        }
        self.listing_is_lines(last);
        let registers = self.lines_up_to(last);
        if last < self.ops@.len() {
            self.skip_line_is_one_line();
            crate::text::line_appended(self.listing(last), registers, self.skip_line());
            let noted = self.listing(last) + self.skip_note();
            crate::text::last_line_appended(noted, registers.push(self.skip_line()), result);
            assert(self.text() =~= noted + result);
        } else {
            crate::text::last_line_appended(self.listing(last), registers, result);
            assert(self.text() =~= self.listing(last) + result);
        }
        assert forall|i: int| 0 <= i < self.shapes().len() implies self.lines()[i + 1]
            == #[trigger] self.register_line(i) by {
            assert(registers[i + 1] == self.register_line(i));
        }
    }

    /// A line of the printed program begins with a register exactly if it is that
    /// register's own.
    pub proof fn only_its_line_begins_with_a_register(self, m: int, i: int)
        requires
            self.ops@.len() <= usize::MAX,
            0 <= m < self.lines().len(),
            0 <= i,
        ensures
            crate::text::begins_with(self.lines()[m], crate::ops::reg_text(i) + " "@) <==> m == i
                + 1 && i < self.shapes().len(),
    {
        self.runs_until_the_cap();
        self.one_line_for_each_register();
        let last = self.shapes().len() - 1;
        let line = self.lines()[m];
        if 1 <= m <= last + 1 {
            let own = crate::ops::reg_text(m - 1) + " "@;
            assert(line == self.register_line(m - 1));
            assert(line.take(own.len() as int) =~= own);
            if crate::text::begins_with(line, crate::ops::reg_text(i) + " "@) {
                crate::ops::register_at_the_start_is_unique(line, i, m - 1);
            }
        } else {
            if m == 0 {
                reveal_strlit("=== TensorProgram ");
                assert(line[0] == '=');
            } else if m == self.lines().len() - 1 {
                reveal_strlit("result = ");
                assert(line[0] == 'r' && line[1] == 'e');
            } else {
                self.skip_line_is_one_line();
            }
            crate::ops::no_register_at_the_start(line, i);
        }
    }

    /// The printed program says that something is skipped exactly when not every
    /// instruction is run.
    pub proof fn skipping_is_said_exactly(self)
        requires
            self.ops@.len() <= usize::MAX,
        ensures
            crate::text::occurs("skipped"@, self.text()) <==> self.steps().len()
                < self.ops@.len(),
    {
        self.runs_until_the_cap();
        let last = self.shapes().len() - 1;
        let result = "result = "@ + crate::ops::reg_text(last);
        reveal_strlit("skipped");
        reveal_strlit("result = ");
        if last < self.ops@.len() {
            self.skip_line_is_one_line();
            crate::text::occurs_in_longer("skipped"@, self.skip_line(), "\n"@);
            crate::text::occurs_after("skipped"@, self.listing(last), self.skip_note());
            let noted = self.listing(last) + self.skip_note();
            crate::text::occurs_in_longer("skipped"@, noted, result);
            assert(self.text() =~= noted + result);
        } else {
            self.listing_lacks(last, 'k');
            crate::ops::reg_text_lacks(last, 'k');
            crate::text::joined_lack("result = "@, crate::ops::reg_text(last), 'k');
            assert(self.text() =~= self.listing(last) + result);
            crate::text::absent_by_character("skipped"@, self.text(), 1);
        }
    }

    /// The input register has the program's sides, at least 1 and at most 16; every register
    /// after it is the result of the instruction in its place, resolved among the registers
    /// before it and run on them, and has no more than 1048576 elements. The program ends
    /// before its first instruction whose result would have more.
    pub proof fn registers_come_from_the_instructions(self)
        requires
            self.ops@.len() <= usize::MAX,
        ensures
            ({
                let shapes = self.shapes();
                let n = shapes.len() as int;
                &&& 1 <= n <= self.ops@.len() + 1
                &&& self.steps().len() == n - 1
                &&& 1 <= shapes[0].0 <= 16 && 1 <= shapes[0].1 <= 16
                &&& 1 <= self.rows <= 16 ==> shapes[0].0 == self.rows
                &&& self.rows == 0 ==> shapes[0].0 == 1
                &&& self.rows > 16 ==> shapes[0].0 == 16
                &&& 1 <= self.cols <= 16 ==> shapes[0].1 == self.cols
                &&& self.cols == 0 ==> shapes[0].1 == 1
                &&& self.cols > 16 ==> shapes[0].1 == 16
                &&& forall|i: int|
                    0 <= i < n ==> (#[trigger] shapes[i]).0 >= 1 && shapes[i].1 >= 1 && shapes[i].0
                        * shapes[i].1 <= 1048576
                &&& forall|i: int|
                    0 <= i < n - 1 ==> {
                        let op = #[trigger] self.steps()[i];
                        let before = shapes.take(i + 1);
                        &&& op == crate::resolve::resolution(before, self.ops@[i])
                        &&& shapes[i + 1].0 == op.out_dims(before).0
                        &&& shapes[i + 1].1 == op.out_dims(before).1
                    }
                &&& n <= self.ops@.len() ==> {
                    let dims = crate::resolve::resolution(shapes, self.ops@[n - 1]).out_dims(
                        shapes,
                    );
                    dims.0 * dims.1 > 1048576
                }
            }),
    {
        let shapes = self.shapes();
        let n = shapes.len() as int;
        self.runs_until_the_cap();
        self.registers_are_valid(self.ops@.len() as int);
        assert forall|i: int| 0 <= i < n implies (#[trigger] shapes[i]).0 >= 1 && shapes[i].1 >= 1
            && shapes[i].0 * shapes[i].1 <= 1048576 by {
            assert(shapes[i].valid());
        }
        assert forall|i: int| 0 <= i < n - 1 implies {
            let op = #[trigger] self.steps()[i];
            let before = shapes.take(i + 1);
            &&& op == crate::resolve::resolution(before, self.ops@[i])
            &&& shapes[i + 1].0 == op.out_dims(before).0
            &&& shapes[i + 1].1 == op.out_dims(before).1
        } by {
            assert(self.steps()[i] == self.step(i));
            let before = shapes.take(i + 1);
            assert(self.step(i).fits(before));
            assert forall|j: int| 0 <= j < before.len() implies (#[trigger] before[j]).valid() by {
                assert(before[j] == shapes[j]);
                assert(shapes[j].valid());
            }
            registers_allow_next(before, self.ops@[i]);
        }
        if n <= self.ops@.len() {
            assert(shapes.take(n) =~= shapes);
        }
    }

    /// What is printed, line by line: a title with the shape of the input; the input with its
    /// shape and the number of seed bytes; each further register with its shape and the
    /// instruction that it is the result of; if anything is skipped, how many instructions
    /// are, and the register and the shape that the first of them would have made; and the
    /// last register as the result.
    #[verifier::rlimit(40)]
    pub proof fn the_printed_lines(self)
        requires
            self.ops@.len() <= usize::MAX,
        ensures
            ({
                let lines = crate::text::split(self.text(), '\n');
                let shapes = self.shapes();
                let n = shapes.len() as int;
                let total = self.ops@.len() as int;
                &&& n == total + 1 ==> lines.len() == n + 2
                &&& n <= total ==> lines.len() == n + 3
                &&& lines[0] == "=== TensorProgram "@ + shapes[0].text() + " ==="@
                &&& lines[1] == crate::ops::reg_text(0) + " "@ + shapes[0].text() + " = "@
                    + "input("@ + crate::text::decimal(self.values@.len() as int)
                    + " seed bytes)"@
                &&& forall|i: int|
                    1 <= i < n ==> #[trigger] lines[i + 1] == crate::ops::reg_text(i) + " "@
                        + shapes[i].text() + " = "@ + self.steps()[i - 1].text()
                &&& n <= total ==> lines[n + 1] == "... ("@ + crate::text::decimal(
                    total - (n - 1),
                ) + " remaining op(s) skipped: "@ + crate::ops::reg_text(n) + " would be "@
                    + crate::resolve::resolution(shapes, self.ops@[n - 1]).out_shape(shapes).text()
                    + ")"@
                &&& lines.last() == "result = "@ + crate::ops::reg_text(n - 1)
            }),
    {
        self.runs_until_the_cap();
        self.one_line_for_each_register();
        let lines = crate::text::split(self.text(), '\n');
        let shapes = self.shapes();
        let n = shapes.len() as int;
        assert(lines[1] == self.register_line(0));
        assert(lines[1] =~= crate::ops::reg_text(0) + " "@ + shapes[0].text() + " = "@ + "input("@
            + crate::text::decimal(self.values@.len() as int) + " seed bytes)"@);
        assert forall|i: int| 1 <= i < n implies #[trigger] lines[i + 1] == crate::ops::reg_text(i)
            + " "@ + shapes[i].text() + " = "@ + self.steps()[i - 1].text() by {
            assert(lines[i + 1] == self.register_line(i));
        }
        if n <= self.ops@.len() {
            assert(shapes.take(n) =~= shapes);
        }
    }

    /// The program in single-assignment notation, every operand and shape as it is
    /// run.
    pub fn to_text(&self) -> (r: String)
        ensures
            r@ == self.text(),
    {
        let total: usize = self.ops.len();
        proof {
            self.runs_until_the_cap();
        }
        let plan = self.plan();
        let first = plan.shapes[0].to_text();
        let mut s: String = "=== TensorProgram ".to_owned();
        s.append(first.as_str());
        s.append(" ===\n");
        s.append("r0 ");
        s.append(first.as_str());
        s.append(" = input(");
        s.append(decimal_text(self.values.len()).as_str());
        s.append(" seed bytes)\n");

        let last: usize = plan.steps.len();
        let mut i: usize = 0;
        while i < last
            invariant
                plan.shapes@ == self.shapes(),
                plan.steps@ == self.steps(),
                last == plan.steps@.len(),
                plan.shapes@.len() == last + 1,
                i <= last,
                s@ == self.listing(i as int),
            decreases last - i,
        {
            let mut line: String = reg_to_text(i + 1);
            line.append(" ");
            line.append(plan.shapes[i + 1].to_text().as_str());
            line.append(" = ");
            line.append(plan.steps[i].to_text().as_str());
            line.append("\n");
            s.append(line.as_str());
            i = i + 1;
        }
        if last < total {
            assert(plan.shapes@.take(last + 1) =~= plan.shapes@);
            let would_be = after_tensor_instr(plan.shapes.as_slice(), &self.ops[last]);
            let mut note: String = "... (".to_owned();
            note.append(decimal_text(total - last).as_str());
            note.append(" remaining op(s) skipped: ");
            note.append(reg_to_text(last + 1).as_str());
            note.append(" would be ");
            note.append(would_be.to_text().as_str());
            note.append(")\n");
            s.append(note.as_str());
        }
        s.append("result = ");
        s.append(reg_to_text(last).as_str());
        s
    }

    /// Work out what the program runs.
    pub fn plan(&self) -> (r: TensorPlan)
        ensures
            r.shapes@ == self.shapes(),
            r.steps@ == self.steps(),
    {
        let first = Shape2(clamp_dim(self.rows), clamp_dim(self.cols));
        let mut shapes: Vec<Shape2> = Vec::new();
        shapes.push(first);
        let mut steps: Vec<ResolvedInstr> = Vec::new();
        let total: usize = self.ops.len();
        let mut i: usize = 0;
        assert(shapes@ =~= self.shapes_after(0));
        while i < total
            invariant
                total == self.ops@.len(),
                i <= total,
                shapes@ == self.shapes_after(i as int),
                shapes@.len() == i + 1,
                steps@ == Seq::new(
                    i as nat,
                    |j: int| crate::resolve::resolution(shapes@.take(j + 1), self.ops@[j]),
                ),
            decreases total - i,
        {
            proof {
                self.registers_are_valid(i as int);
                registers_allow_next(shapes@, self.ops@[i as int]);
            }
            let op = resolve_instr(shapes.as_slice(), &self.ops[i]);
            let out_shape = shape_after(shapes.as_slice(), &op);
            if out_shape.exceeds_cap() {
                proof {
                    self.shapes_after_halt(i + 1, total as int);
                }
                return TensorPlan { shapes, steps };
            }
            let ghost before = shapes@;
            steps.push(op);
            shapes.push(out_shape);
            proof {
                assert(before.take(i + 1) =~= before);
                assert forall|j: int| 0 <= j <= i implies shapes@.take(j + 1) == #[trigger] before.take(
                    j + 1,
                ) by {
                    assert(shapes@.take(j + 1) =~= before.take(j + 1));
                }
                assert(steps@ =~= Seq::new(
                    (i + 1) as nat,
                    |j: int| crate::resolve::resolution(shapes@.take(j + 1), self.ops@[j]),
                ));
            }
            i = i + 1;
        }
        TensorPlan { shapes, steps }
    }
}

/// Among valid registers every instruction resolves to a legal one whose result
/// has a shape that can be represented and is not empty.
pub proof fn registers_allow_next(shapes: Seq<Shape2>, instr: TensorInstr)
    requires
        0 < shapes.len() <= usize::MAX,
        forall|i: int| 0 <= i < shapes.len() ==> (#[trigger] shapes[i]).valid(),
    ensures
        crate::resolve::resolution(shapes, instr).legal(shapes),
        crate::resolve::resolution(shapes, instr).fits(shapes),
        crate::resolve::resolution(shapes, instr).out_dims(shapes).0 >= 1,
        crate::resolve::resolution(shapes, instr).out_dims(shapes).1 >= 1,
{
    let op = crate::resolve::resolution(shapes, instr);
    let cap = crate::shape::MAX_TENSOR_ELEMENTS as int;
    crate::resolve::resolution_is_legal(shapes, instr);
    assert forall|i: int| 0 <= i < shapes.len() implies 1 <= (#[trigger] shapes[i]).0 <= cap && 1
        <= shapes[i].1 <= cap by {
        crate::shape::valid_sides_are_capped(shapes[i]);
    }
    crate::resolve::result_grows_at_most_fourfold(shapes, op, cap);
}

} // verus!
