//! Autograd programs: what they run, and how they are printed.

use vstd::prelude::*;
use vstd::string::*;
use crate::ops::{DiffOp, ResolvedInstr, TensorInstr, reg_to_text};
use crate::program::clamp_dim;
use crate::resolve::{checked_shape_after, resolve_instr};
use crate::shape::Shape2;
use crate::text::decimal_text;

verus! {

/// An autograd program.
///
/// Register `r0` is always the seed leaf. `DiffOp::Leaf` introduces further
/// differentiated leaves up to a cap, and beyond it aliases of existing registers;
/// every other instruction appends a computed register. Leaves and computed
/// registers share one index space, so any graph can be composed.
#[derive(Debug)]
pub struct AutogradProgram {
    pub rows: u8,
    pub cols: u8,
    /// Pool of seed bytes for the leaves.
    pub leaf_seeds: Vec<Vec<u8>>,
    pub ops: Vec<DiffOp>,
}

/// How one register of an autograd program comes about.
#[derive(Debug, Clone, Copy, PartialEq, Eq, Structural)]
pub enum Action {
    /// A leaf of the given shape, from the seed bytes at `pool`.
    Leaf { pool: usize, shape: Shape2 },
    /// Another reference to an existing register.
    Alias(usize),
    /// The result of an instruction, as it is written and as it is resolved.
    Eval(TensorInstr, ResolvedInstr),
}

/// What an autograd program runs: the shape of every register, how each comes
/// about, and which of them are leaves, in the order of their introduction.
pub struct GradPlan {
    pub shapes: Vec<Shape2>,
    pub actions: Vec<Action>,
    pub leaves: Vec<usize>,
}

/// The registers of an autograd program at some point of its run.
#[verifier::ext_equal]
pub struct GradState {
    pub shapes: Seq<Shape2>,
    pub actions: Seq<Action>,
    pub leaves: Seq<usize>,
    /// Whether an instruction over the cap has ended the run.
    pub halted: bool,
}

/// The entry of a pool of `count` seeds that the byte `seed` selects.
pub open spec fn pool_index(seed: u8, count: int) -> int {
    if count == 0 {
        0
    } else {
        seed as int % count
    }
}

fn select_pool(seed: u8, count: usize) -> (r: usize)
    ensures
        r == pool_index(seed, count as int),
{
    if count == 0 {
        0
    } else {
        seed as usize % count
    }
}

/// Whether register `r` is computed from the leaf: it is the leaf itself, another reference
/// to a register that is, or the result of an instruction that reads one.
pub open spec fn depends_on(actions: Seq<Action>, r: int, leaf: int) -> bool
    decreases r,
{
    match actions[r] {
        Action::Leaf { .. } => r == leaf,
        Action::Alias(src) => src < r && depends_on(actions, src as int, leaf),
        Action::Eval(_, op) => {
            ||| op.left() < r && depends_on(actions, op.left() as int, leaf)
            ||| op.right() matches Some(b) && b < r && depends_on(actions, b as int, leaf)
        },
    }
}

impl GradState {
    /// The shapes, actions and leaf numbers belong together: one action for each
    /// register, `r0` the first leaf, the leaves in ascending order, and exactly
    /// the registers that a leaf action produced among them.
    pub open spec fn consistent(self) -> bool {
        &&& self.shapes.len() >= 1
        &&& self.actions.len() == self.shapes.len()
        &&& self.leaves.len() >= 1
        &&& self.leaves[0] == 0
        &&& forall|k: int|
            0 <= k < self.leaves.len() ==> (#[trigger] self.leaves[k]) < self.shapes.len()
        &&& forall|k: int|
            0 <= k < self.leaves.len() ==> self.actions[(#[trigger] self.leaves[k]) as int] is Leaf
        &&& forall|j: int, k: int|
            0 <= j < k < self.leaves.len() ==> (#[trigger] self.leaves[j]) < (
            #[trigger] self.leaves[k])
        &&& forall|i: int|
            0 <= i < self.actions.len() && (#[trigger] self.actions[i]) is Leaf
                ==> self.leaves.contains(i as usize)
    }

    /// Whether the registers agree with their actions: a leaf has the shape it was
    /// introduced with, an alias refers to an earlier register and has its shape,
    /// and an instruction is resolved against the earlier registers, legal among
    /// them, and has the shape of its result.
    pub open spec fn well_built(self) -> bool {
        forall|i: int|
            0 <= i < self.actions.len() ==> match #[trigger] self.actions[i] {
                Action::Leaf { pool, shape } => self.shapes[i] == shape,
                Action::Alias(src) => src < i && self.shapes[i] == self.shapes[src as int],
                Action::Eval(instr, op) => {
                    let before = self.shapes.take(i);
                    &&& op == crate::resolve::resolution(before, instr)
                    &&& op.legal(before)
                    &&& op.fits(before)
                    &&& self.shapes[i] == op.out_shape(before)
                },
            }
    }
}

impl AutogradProgram {
    /// The seed bytes at `pool`; none if the pool does not reach that far.
    pub open spec fn seed_bytes(self, pool: int) -> Seq<u8> {
        if pool < self.leaf_seeds@.len() {
            self.leaf_seeds@[pool]@
        } else {
            Seq::empty()
        }
    }

    pub open spec fn first_shape(self) -> Shape2 {
        Shape2(crate::program::side(self.rows), crate::program::side(self.cols))
    }

    pub open spec fn first_state(self) -> GradState {
        GradState {
            shapes: seq![self.first_shape()],
            actions: seq![Action::Leaf { pool: 0, shape: self.first_shape() }],
            leaves: seq![0usize],
            halted: false,
        }
    }

    /// The registers after one more instruction, with at most `max_leaves` leaves.
    /// If `capped`, an instruction whose result would be over the element cap ends
    /// the run.
    pub open spec fn next_state(
        self,
        state: GradState,
        op: DiffOp,
        max_leaves: int,
        capped: bool,
    ) -> GradState {
        let n = state.shapes.len() as int;
        if state.halted {
            state
        } else {
            match op {
                DiffOp::Leaf { seed, rows, cols } => if state.leaves.len() < max_leaves {
                    let shape = Shape2(crate::program::side(rows), crate::program::side(cols));
                    let pool = pool_index(seed, self.leaf_seeds@.len() as int) as usize;
                    GradState {
                        shapes: state.shapes.push(shape),
                        actions: state.actions.push(Action::Leaf { pool, shape }),
                        leaves: state.leaves.push(n as usize),
                        halted: false,
                    }
                } else {
                    let src = seed as int % n;
                    GradState {
                        shapes: state.shapes.push(state.shapes[src]),
                        actions: state.actions.push(Action::Alias(src as usize)),
                        leaves: state.leaves,
                        halted: false,
                    }
                },
                DiffOp::Instr(instr) => {
                    let op = crate::resolve::resolution(state.shapes, instr);
                    let dims = op.out_dims(state.shapes);
                    if capped && crate::shape::over_cap(dims.0, dims.1) {
                        GradState { halted: true, ..state }
                    } else {
                        GradState {
                            shapes: state.shapes.push(op.out_shape(state.shapes)),
                            actions: state.actions.push(Action::Eval(instr, op)),
                            leaves: state.leaves,
                            halted: false,
                        }
                    }
                },
            }
        }
    }

    /// The registers once `k` instructions have been considered.
    pub open spec fn state(self, max_leaves: int, capped: bool, k: int) -> GradState
        decreases k,
    {
        if k <= 0 {
            self.first_state()
        } else {
            self.next_state(
                self.state(max_leaves, capped, k - 1),
                self.ops@[k - 1],
                max_leaves,
                capped,
            )
        }
    }

    /// All registers of the program when it is run.
    pub open spec fn run_state(self, max_leaves: int) -> GradState {
        self.state(max_leaves, true, self.ops@.len() as int)
    }

    /// All registers of the program when it is listed, which does not stop at the
    /// element cap.
    pub open spec fn list_state(self, max_leaves: int) -> GradState {
        self.state(max_leaves, false, self.ops@.len() as int)
    }

    /// Whether the shape of every register can be represented without the element
    /// cap.
    pub open spec fn listable(self, max_leaves: int) -> bool {
        forall|k: int|
            0 <= k < self.ops@.len() ==> self.listable_at(max_leaves, k)
    }

    /// Whether the shape of what instruction `k` produces can be represented.
    pub open spec fn listable_at(self, max_leaves: int, k: int) -> bool {
        let shapes = self.state(max_leaves, false, k).shapes;
        self.ops@[k] matches DiffOp::Instr(instr) ==> crate::resolve::resolution(
            shapes,
            instr,
        ).fits(shapes)
    }

    proof fn state_step(self, max_leaves: int, capped: bool, k: int)
        requires
            0 < k <= self.ops@.len() <= usize::MAX,
            self.state(max_leaves, capped, k - 1).consistent(),
            self.state(max_leaves, capped, k - 1).well_built(),
            self.state(max_leaves, capped, k - 1).shapes.len() <= k,
            !capped ==> self.listable_at(max_leaves, k - 1),
            capped ==> forall|i: int|
                0 <= i < self.state(max_leaves, true, k - 1).shapes.len() ==> (
                #[trigger] self.state(max_leaves, true, k - 1).shapes[i]).valid(),
        ensures
            self.state(max_leaves, capped, k).consistent(),
            self.state(max_leaves, capped, k).well_built(),
            self.state(max_leaves, capped, k).shapes.len() <= k + 1,
            capped ==> forall|i: int|
                0 <= i < self.state(max_leaves, true, k).shapes.len() ==> (
                #[trigger] self.state(max_leaves, true, k).shapes[i]).valid(),
    {
        let before = self.state(max_leaves, capped, k - 1);
        let after = self.state(max_leaves, capped, k);
        let n = before.shapes.len() as int;
        if !before.halted {
            match self.ops@[k - 1] {
                DiffOp::Leaf { seed, rows, cols } => {
                    let s = Shape2(crate::program::side(rows), crate::program::side(cols));
                    assert(s.0 * s.1 <= 16 * 16) by (nonlinear_arith)
                        requires
                            s.0 <= 16,
                            s.1 <= 16,
                    ;
                },
                DiffOp::Instr(instr) => {
                    crate::resolve::resolution_is_legal(before.shapes, instr);
                    if capped {
                        crate::program::registers_allow_next(before.shapes, instr);
                    }
                },
            }
        }
        if after.shapes.len() > n {
            assert(after.shapes.take(n) =~= before.shapes);
            assert forall|i: int| 0 <= i < n implies after.shapes.take(i) == #[trigger] before.shapes.take(
                i,
            ) by {
                assert(after.shapes.take(i) =~= before.shapes.take(i));
            }
            assert forall|i: int| 0 <= i < after.actions.len() implies match #[trigger] after.actions[i] {
                Action::Leaf { pool, shape } => after.shapes[i] == shape,
                Action::Alias(src) => src < i && after.shapes[i] == after.shapes[src as int],
                Action::Eval(instr, op) => {
                    let prior = after.shapes.take(i);
                    &&& op == crate::resolve::resolution(prior, instr)
                    &&& op.legal(prior)
                    &&& op.fits(prior)
                    &&& after.shapes[i] == op.out_shape(prior)
                },
            } by {
                if i < n {
                    assert(after.actions[i] == before.actions[i]);
                    assert(after.shapes.take(i) == before.shapes.take(i));
                }
            }
            assert forall|i: int|
                0 <= i < after.actions.len() && (#[trigger] after.actions[i]) is Leaf implies after.leaves.contains(
                i as usize,
            ) by {
                if i < n {
                    assert(before.actions[i] is Leaf);
                    let k0 = choose|k0: int|
                        0 <= k0 < before.leaves.len() && before.leaves[k0] == i as usize;
                    assert(after.leaves[k0] == i as usize);
                } else {
                    assert(after.leaves[after.leaves.len() - 1] == i as usize);
                }
            }
        }
    }

    /// At every point of a run the registers agree with their actions, the leaves
    /// are numbered in the order of their introduction, and every register is
    /// non-empty and within the element cap.
    pub proof fn run_is_well_built(self, max_leaves: int, k: int)
        requires
            0 <= k <= self.ops@.len() <= usize::MAX,
        ensures
            self.state(max_leaves, true, k).consistent(),
            self.state(max_leaves, true, k).well_built(),
            self.state(max_leaves, true, k).shapes.len() <= k + 1,
            forall|i: int|
                0 <= i < self.state(max_leaves, true, k).shapes.len() ==> (
                #[trigger] self.state(max_leaves, true, k).shapes[i]).valid(),
        decreases k,
    {
        if k <= 0 {
            let s = self.first_shape();
            assert(s.0 * s.1 <= 16 * 16) by (nonlinear_arith)
                requires
                    s.0 <= 16,
                    s.1 <= 16,
            ;
            self.first_is_well_built();
        } else {
            self.run_is_well_built(max_leaves, k - 1);
            self.state_step(max_leaves, true, k);
        }
    }

    /// The same of a listing, but for the cap, which it does not observe.
    pub proof fn list_is_well_built(self, max_leaves: int, k: int)
        requires
            0 <= k <= self.ops@.len() <= usize::MAX,
            self.listable(max_leaves),
        ensures
            self.state(max_leaves, false, k).consistent(),
            self.state(max_leaves, false, k).well_built(),
            self.state(max_leaves, false, k).shapes.len() == k + 1,
            !self.state(max_leaves, false, k).halted,
        decreases k,
    {
        if k <= 0 {
            self.first_is_well_built();
        } else {
            self.list_is_well_built(max_leaves, k - 1);
            assert(self.listable_at(max_leaves, k - 1));
            self.state_step(max_leaves, false, k);
        }
    }

    proof fn first_is_well_built(self)
        ensures
            self.first_state().consistent(),
            self.first_state().well_built(),
    {
        let first = self.first_state();
        assert(first.leaves[0] == 0);
        assert(first.leaves.contains(0usize));
    }

    /// There are never more leaves than the leaf cap allows, but for the seed leaf,
    /// which is always there.
    pub proof fn leaves_respect_the_cap(self, max_leaves: int, capped: bool, k: int)
        ensures
            self.state(max_leaves, capped, k).leaves.len() <= (if max_leaves < 1 {
                1
            } else {
                max_leaves
            }),
        decreases k,
    {
        if k > 0 {
            self.leaves_respect_the_cap(max_leaves, capped, k - 1);
        }
    }

    /// A run that the element cap does not end is the run that is listed.
    pub proof fn listing_shows_the_run(self, max_leaves: int, k: int)
        requires
            0 <= k,
            !self.state(max_leaves, true, k).halted,
        ensures
            self.state(max_leaves, false, k) == self.state(max_leaves, true, k),
        decreases k,
    {
        if k > 0 {
            self.listing_shows_the_run(max_leaves, k - 1);
        }
    }

    /// What is run is the beginning of what is listed: the same registers up to the
    /// point where the element cap ends the run, and the leaves among them.
    pub proof fn the_listing_begins_with_the_run(self, max_leaves: int, k: int)
        requires
            0 <= k <= self.ops@.len() <= usize::MAX,
            self.listable(max_leaves),
        ensures
            ({
                let run = self.state(max_leaves, true, k);
                let list = self.state(max_leaves, false, k);
                &&& run.shapes.is_prefix_of(list.shapes)
                &&& run.actions.is_prefix_of(list.actions)
                &&& run.leaves.is_prefix_of(list.leaves)
                &&& !run.halted ==> run == list
                &&& forall|j: int|
                    run.leaves.len() <= j < list.leaves.len() ==> run.shapes.len()
                        <= #[trigger] list.leaves[j]
            }),
        decreases k,
    {
        if k > 0 {
            self.the_listing_begins_with_the_run(max_leaves, k - 1);
            self.list_is_well_built(max_leaves, k - 1);
            let run = self.state(max_leaves, true, k);
            let list = self.state(max_leaves, false, k);
            assert(run.shapes =~= list.shapes.take(run.shapes.len() as int));
            assert(run.actions =~= list.actions.take(run.actions.len() as int));
            assert(run.leaves =~= list.leaves.take(run.leaves.len() as int));
        }
    }

    proof fn state_after_halt(self, max_leaves: int, j: int, k: int)
        requires
            0 <= j <= k,
            self.state(max_leaves, true, j).halted,
        ensures
            self.state(max_leaves, true, k) == self.state(max_leaves, true, j),
        decreases k - j,
    {
        if j < k {
            self.state_after_halt(max_leaves, j, k - 1);
        }
    }

    /// Work out the registers, or `None` if a shape cannot be represented, which
    /// the element cap rules out.
    fn walk(&self, max_leaves: usize, capped: bool) -> (r: Option<GradPlan>)
        ensures
            r is Some <==> capped || self.listable(max_leaves as int),
            r matches Some(plan) ==> {
                let state = self.state(max_leaves as int, capped, self.ops@.len() as int);
                &&& plan.shapes@ == state.shapes
                &&& plan.actions@ == state.actions
                &&& plan.leaves@ == state.leaves
            },
    {
        let first = Shape2(clamp_dim(self.rows), clamp_dim(self.cols));
        let mut shapes: Vec<Shape2> = Vec::new();
        shapes.push(first);
        let mut actions: Vec<Action> = Vec::new();
        actions.push(Action::Leaf { pool: 0, shape: first });
        let mut leaves: Vec<usize> = Vec::new();
        leaves.push(0);
        let total: usize = self.ops.len();
        let ghost most = max_leaves as int;
        let mut i: usize = 0;
        assert(shapes@ =~= self.first_state().shapes);
        assert(actions@ =~= self.first_state().actions);
        assert(leaves@ =~= self.first_state().leaves);
        while i < total
            invariant
                total == self.ops@.len(),
                most == max_leaves,
                i <= total,
                shapes@ == self.state(most, capped, i as int).shapes,
                actions@ == self.state(most, capped, i as int).actions,
                leaves@ == self.state(most, capped, i as int).leaves,
                !self.state(most, capped, i as int).halted,
                shapes@.len() == i + 1,
                forall|k: int| 0 <= k < i ==> capped || self.listable_at(most, k),
            decreases total - i,
        {
            let n: usize = shapes.len();
            match &self.ops[i] {
                DiffOp::Leaf { seed, rows, cols } => {
                    if leaves.len() < max_leaves {
                        let pool: usize = select_pool(*seed, self.leaf_seeds.len());
                        let shape = Shape2(clamp_dim(*rows), clamp_dim(*cols));
                        shapes.push(shape);
                        actions.push(Action::Leaf { pool, shape });
                        leaves.push(n);
                    } else {
                        let src: usize = *seed as usize % n;
                        let shape = shapes[src];
                        shapes.push(shape);
                        actions.push(Action::Alias(src));
                    }
                },
                DiffOp::Instr(instr) => {
                    proof {
                        crate::resolve::resolution_is_legal(shapes@, *instr);
                        if capped {
                            self.run_is_well_built(most, i as int);
                            crate::program::registers_allow_next(shapes@, *instr);
                        }
                    }
                    let op = resolve_instr(shapes.as_slice(), instr);
                    match checked_shape_after(shapes.as_slice(), &op) {
                        None => {
                            assert(!self.listable_at(most, i as int));
                            return None;
                        },
                        Some(shape) => {
                            if capped && shape.exceeds_cap() {
                                proof {
                                    self.state_after_halt(most, i + 1, total as int);
                                }
                                return Some(GradPlan { shapes, actions, leaves });
                            }
                            shapes.push(shape);
                            actions.push(Action::Eval(*instr, op));
                        },
                    }
                },
            }
            i = i + 1;
        }
        Some(GradPlan { shapes, actions, leaves })
    }

    /// Work out what the program runs with at most `max_leaves` leaves.
    pub fn plan(&self, max_leaves: usize) -> (r: GradPlan)
        ensures
            r.shapes@ == self.run_state(max_leaves as int).shapes,
            r.actions@ == self.run_state(max_leaves as int).actions,
            r.leaves@ == self.run_state(max_leaves as int).leaves,
    {
        self.walk(max_leaves, true).unwrap()
    }

    /// Whether the program can be listed: without the element cap, a chain of
    /// repetitions can outgrow every representable shape.
    pub fn is_listable(&self, max_leaves: usize) -> (r: bool)
        ensures
            r == self.listable(max_leaves as int),
    {
        self.walk(max_leaves, false).is_some()
    }

    /// `leaf(rows×cols, n seed bytes)  [requires_grad, `, the part of a leaf's line
    /// that all leaves share.
    pub open spec fn leaf_text(self, pool: int, shape: Shape2) -> Seq<char> {
        "leaf("@ + crate::text::decimal(shape.0 as int) + "×"@ + crate::text::decimal(
            shape.1 as int,
        ) + ", "@ + crate::text::decimal(self.seed_bytes(pool).len() as int)
            + " seed bytes)  [requires_grad, "@
    }

    /// The heading and the line of the seed leaf.
    pub open spec fn heading(self, max_leaves: int) -> Seq<char> {
        "=== AutogradProgram "@ + self.first_shape().text() + " (max_leaves="@
            + crate::text::decimal(max_leaves) + ") ===\n"@ + "r0 "@ + self.first_shape().text()
            + " = "@ + self.leaf_text(0, self.first_shape()) + "seed]\n"@
    }

    /// The right-hand side of the line of register `i + 1`. A leaf shows its number
    /// among the leaves, an instruction is shown as it is written.
    pub open spec fn line_body(self, max_leaves: int, i: int) -> Seq<char> {
        let state = self.list_state(max_leaves);
        match state.actions[i + 1] {
            Action::Leaf { pool, shape } => self.leaf_text(pool as int, shape) + "leaf #"@
                + crate::text::decimal(state.leaves.index_of((i + 1) as usize)) + "]"@,
            Action::Alias(src) => crate::ops::reg_text(src as int)
                + "  # leaf cap reached, alias"@,
            Action::Eval(instr, _) => instr.literal(i + 1).text(),
        }
    }

    /// The listing's line for register `i + 1`.
    pub open spec fn line(self, max_leaves: int, i: int) -> Seq<char> {
        crate::ops::reg_text(i + 1) + " "@ + self.list_state(max_leaves).shapes[i + 1].text()
            + " = "@ + self.line_body(max_leaves, i) + "\n"@
    }

    /// The heading and the lines of the first `k` instructions.
    pub open spec fn listing(self, max_leaves: int, k: int) -> Seq<char>
        decreases k,
    {
        if k <= 0 {
            self.heading(max_leaves)
        } else {
            self.listing(max_leaves, k - 1) + self.line(max_leaves, k - 1)
        }
    }

    /// The line that asks for the gradient of register `reg`.
    pub open spec fn grad_line(self, max_leaves: int, reg: usize) -> Seq<char> {
        "grad "@ + crate::ops::reg_text(reg as int) + " "@ + self.list_state(
            max_leaves,
        ).shapes[reg as int].text() + " = "@ + crate::ops::reg_text(reg as int)
            + ".grad(grads)  # None → zeros if unreachable\n"@
    }

    /// The lines that ask for the gradients of the first `k` leaves.
    pub open spec fn grad_lines(self, max_leaves: int, k: int) -> Seq<char>
        decreases k,
    {
        if k <= 0 {
            Seq::empty()
        } else {
            self.grad_lines(max_leaves, k - 1) + self.grad_line(
                max_leaves,
                self.list_state(max_leaves).leaves[k - 1],
            )
        }
    }

    /// The program as it is printed: a heading, one line for each register, the
    /// backward pass from the last register, and one line for each leaf's gradient.
    pub open spec fn text(self, max_leaves: int) -> Seq<char> {
        self.listing(max_leaves, self.ops@.len() as int) + "grads = backward("@
            + crate::ops::reg_text(self.ops@.len() as int) + ")\n"@ + self.grad_lines(
            max_leaves,
            self.list_state(max_leaves).leaves.len() as int,
        )
    }

    fn seed_len(&self, pool: usize) -> (r: usize)
        ensures
            r == self.seed_bytes(pool as int).len(),
    {
        if pool < self.leaf_seeds.len() {
            self.leaf_seeds[pool].len()
        } else {
            0
        }
    }

    fn leaf_to_text(&self, pool: usize, shape: Shape2) -> (r: String)
        ensures
            r@ == self.leaf_text(pool as int, shape),
    {
        let mut s: String = "leaf(".to_owned();
        s.append(decimal_text(shape.0).as_str());
        s.append("×");
        s.append(decimal_text(shape.1).as_str());
        s.append(", ");
        s.append(decimal_text(self.seed_len(pool)).as_str());
        s.append(" seed bytes)  [requires_grad, ");
        s
    }

    /// The program in single-assignment notation, every line with the shape of its
    /// register.
    pub fn ssa(&self, max_leaves: usize) -> (r: String)
        requires
            self.listable(max_leaves as int),
        ensures
            r@ == self.text(max_leaves as int),
    {
        let total: usize = self.ops.len();
        let ghost most = max_leaves as int;
        let ghost state = self.list_state(most);
        proof {
            self.list_is_well_built(most, total as int);
        }
        let plan = self.walk(max_leaves, false).unwrap();
        let first = Shape2(clamp_dim(self.rows), clamp_dim(self.cols));
        let mut s: String = "=== AutogradProgram ".to_owned();
        s.append(first.to_text().as_str());
        s.append(" (max_leaves=");
        s.append(decimal_text(max_leaves).as_str());
        s.append(") ===\n");
        s.append("r0 ");
        s.append(first.to_text().as_str());
        s.append(" = ");
        s.append(self.leaf_to_text(0, first).as_str());
        s.append("seed]\n");

        let count: usize = plan.leaves.len();
        let mut leaf_count: usize = 1;
        let mut i: usize = 0;
        while i < total
            invariant
                total == self.ops@.len(),
                most == max_leaves,
                state == self.list_state(most),
                state.consistent(),
                state.shapes.len() == total + 1,
                plan.shapes@ == state.shapes,
                plan.actions@ == state.actions,
                plan.leaves@ == state.leaves,
                count == state.leaves.len(),
                i <= total,
                1 <= leaf_count <= state.leaves.len(),
                forall|k: int| 0 <= k < leaf_count ==> (#[trigger] state.leaves[k]) <= i,
                leaf_count < state.leaves.len() ==> state.leaves[leaf_count as int] > i,
                s@ == self.listing(most, i as int),
                self.listable(most),
            decreases total - i,
        {
            let mut line: String = reg_to_text(i + 1);
            line.append(" ");
            line.append(plan.shapes[i + 1].to_text().as_str());
            line.append(" = ");
            let body: String = match plan.actions[i + 1] {
                Action::Leaf { pool, shape } => {
                    proof {
                        let k = choose|k: int|
                            0 <= k < state.leaves.len() && state.leaves[k] == (i + 1) as usize;
                        assert(state.leaves.contains((i + 1) as usize));
                        assert(k == leaf_count);
                        let found = state.leaves.index_of((i + 1) as usize);
                        assert(0 <= found < state.leaves.len() && state.leaves[found] == (i
                            + 1) as usize);
                        assert(found == k);
                    }
                    let mut b: String = self.leaf_to_text(pool, shape);
                    b.append("leaf #");
                    b.append(decimal_text(leaf_count).as_str());
                    b.append("]");
                    leaf_count = leaf_count + 1;
                    b
                },
                Action::Alias(src) => {
                    let mut b: String = reg_to_text(src);
                    b.append("  # leaf cap reached, alias");
                    b
                },
                Action::Eval(instr, _) => instr.as_written(i + 1).to_text(),
            };
            line.append(body.as_str());
            line.append("\n");
            s.append(line.as_str());
            i = i + 1;
        }
        s.append("grads = backward(");
        s.append(reg_to_text(total).as_str());
        s.append(")\n");

        let mut tail: String = String::new();
        let mut k: usize = 0;
        while k < count
            invariant
                most == max_leaves,
                state == self.list_state(most),
                state.consistent(),
                plan.shapes@ == state.shapes,
                plan.leaves@ == state.leaves,
                count == state.leaves.len(),
                k <= count,
                tail@ == self.grad_lines(most, k as int),
            decreases count - k,
        {
            let reg: usize = plan.leaves[k];
            let mut line: String = "grad ".to_owned();
            line.append(reg_to_text(reg).as_str());
            line.append(" ");
            line.append(plan.shapes[reg].to_text().as_str());
            line.append(" = ");
            line.append(reg_to_text(reg).as_str());
            line.append(".grad(grads)  # None → zeros if unreachable\n");
            tail.append(line.as_str());
            k = k + 1;
        }
        s.append(tail.as_str());
        s
    }

    /// The program as it is printed with the default leaf cap.
    pub open spec fn default_text(self) -> Seq<char> {
        self.text(4)
    }

    /// The leaf cap that is printed by default is that of the default settings.
    pub proof fn the_default_leaf_cap_is_printed(self, config: crate::config::FuzzConfig)
        requires
            config.is_default(),
        ensures
            self.default_text() == self.text(config.max_leaves as int),
    {
    }

    /// The program in single-assignment notation with the default leaf cap.
    pub fn to_text(&self) -> (r: String)
        requires
            self.listable(4),
        ensures
            r@ == self.text(4),
            r@ == self.default_text(),
    {
        self.ssa(4)
    }

    proof fn listing_shows(self, max_leaves: int, i: int, k: int)
        requires
            0 <= i < k,
        ensures
            crate::text::occurs(self.line(max_leaves, i), self.listing(max_leaves, k)),
        decreases k,
    {
        if i == k - 1 {
            crate::text::occurs_at_the_end(
                self.listing(max_leaves, i),
                self.line(max_leaves, i),
            );
        } else {
            self.listing_shows(max_leaves, i, k - 1);
            crate::text::occurs_in_longer(
                self.line(max_leaves, i),
                self.listing(max_leaves, k - 1),
                self.line(max_leaves, k - 1),
            );
        }
    }

    proof fn grad_lines_show(self, max_leaves: int, i: int, k: int)
        requires
            0 <= i < k,
        ensures
            crate::text::occurs(
                self.grad_line(max_leaves, self.list_state(max_leaves).leaves[i]),
                self.grad_lines(max_leaves, k),
            ),
        decreases k,
    {
        let leaves = self.list_state(max_leaves).leaves;
        if i == k - 1 {
            crate::text::occurs_at_the_end(
                self.grad_lines(max_leaves, i),
                self.grad_line(max_leaves, leaves[i]),
            );
        } else {
            self.grad_lines_show(max_leaves, i, k - 1);
            crate::text::occurs_in_longer(
                self.grad_line(max_leaves, leaves[i]),
                self.grad_lines(max_leaves, k - 1),
                self.grad_line(max_leaves, leaves[k - 1]),
            );
        }
    }

    /// The printed program shows every register with its shape.
    pub proof fn every_register_is_printed(self, max_leaves: int, i: int)
        requires
            0 <= i < self.ops@.len(),
        ensures
            crate::text::occurs(self.line(max_leaves, i), self.text(max_leaves)),
    {
        let n = self.ops@.len() as int;
        let line = self.line(max_leaves, i);
        let lines = self.listing(max_leaves, n);
        let tail = self.grad_lines(
            max_leaves,
            self.list_state(max_leaves).leaves.len() as int,
        );
        let root = crate::ops::reg_text(n);
        self.listing_shows(max_leaves, i, n);
        crate::text::occurs_in_longer(line, lines, "grads = backward("@);
        crate::text::occurs_in_longer(line, lines + "grads = backward("@, root);
        crate::text::occurs_in_longer(line, lines + "grads = backward("@ + root, ")\n"@);
        crate::text::occurs_in_longer(line, lines + "grads = backward("@ + root + ")\n"@, tail);
    }

    /// The printed program asks for the gradient of every leaf.
    pub proof fn every_gradient_is_printed(self, max_leaves: int, k: int)
        requires
            0 <= k < self.list_state(max_leaves).leaves.len(),
        ensures
            crate::text::occurs(
                self.grad_line(max_leaves, self.list_state(max_leaves).leaves[k]),
                self.text(max_leaves),
            ),
    {
        let leaves = self.list_state(max_leaves).leaves;
        let part = self.grad_line(max_leaves, leaves[k]);
        let tail = self.grad_lines(max_leaves, leaves.len() as int);
        let head = self.listing(max_leaves, self.ops@.len() as int) + "grads = backward("@
            + crate::ops::reg_text(self.ops@.len() as int) + ")\n"@;
        self.grad_lines_show(max_leaves, k, leaves.len() as int);
        crate::text::occurs_after(part, head, tail);
    }

    /// The first line of the printed program.
    pub open spec fn title(self, max_leaves: int) -> Seq<char> {
        "=== AutogradProgram "@ + self.first_shape().text() + " (max_leaves="@
            + crate::text::decimal(max_leaves) + ") ==="@
    }

    /// The line of register `i`: the register, its shape, and how it comes about.
    pub open spec fn register_line(self, max_leaves: int, i: int) -> Seq<char> {
        crate::ops::reg_text(i) + " "@ + self.list_state(max_leaves).shapes[i].text() + " = "@
            + if i == 0 {
            self.leaf_text(0, self.first_shape()) + "seed]"@
        } else {
            self.line_body(max_leaves, i - 1)
        }
    }

    /// The line of the backward pass.
    pub open spec fn backward_line(self) -> Seq<char> {
        "grads = backward("@ + crate::ops::reg_text(self.ops@.len() as int) + ")"@
    }

    /// The line that asks for the gradient of register `reg`, without its line break.
    pub open spec fn grad_request(self, max_leaves: int, reg: usize) -> Seq<char> {
        "grad "@ + crate::ops::reg_text(reg as int) + " "@ + self.list_state(
            max_leaves,
        ).shapes[reg as int].text() + " = "@ + crate::ops::reg_text(reg as int)
            + ".grad(grads)  # None → zeros if unreachable"@
    }

    /// The title and the lines of registers up to `k`.
    pub open spec fn lines_up_to(self, max_leaves: int, k: int) -> Seq<Seq<char>> {
        seq![self.title(max_leaves)] + Seq::new(
            (k + 1) as nat,
            |i: int| self.register_line(max_leaves, i),
        )
    }

    /// The lines before the first `k` gradients, and those.
    pub open spec fn lines_with_gradients(self, max_leaves: int, k: int) -> Seq<Seq<char>> {
        self.lines_up_to(max_leaves, self.ops@.len() as int).push(self.backward_line()) + Seq::new(
            k as nat,
            |j: int| self.grad_request(max_leaves, self.list_state(max_leaves).leaves[j]),
        )
    }

    proof fn first_register_stays(self, max_leaves: int, capped: bool, k: int)
        ensures
            self.state(max_leaves, capped, k).shapes.len() >= 1,
            self.state(max_leaves, capped, k).shapes[0] == self.first_shape(),
        decreases k,
    {
        if k > 0 {
            self.first_register_stays(max_leaves, capped, k - 1);
        }
    }

    proof fn leaf_text_is_one_line(self, pool: int, shape: Shape2)
        ensures
            crate::text::lacks(self.leaf_text(pool, shape), '\n'),
    {
        reveal_strlit("leaf(");
        reveal_strlit("×");
        reveal_strlit(", ");
        reveal_strlit(" seed bytes)  [requires_grad, ");
        crate::text::decimal_lacks(shape.0 as int, '\n');
        crate::text::decimal_lacks(shape.1 as int, '\n');
        crate::text::decimal_lacks(self.seed_bytes(pool).len() as int, '\n');
        let front = "leaf("@ + crate::text::decimal(shape.0 as int) + "×"@
            + crate::text::decimal(shape.1 as int);
        assert(crate::text::lacks(front, '\n'));
        let middle = front + ", "@ + crate::text::decimal(self.seed_bytes(pool).len() as int);
        assert(crate::text::lacks(middle, '\n'));
        crate::text::joined_lack(middle, " seed bytes)  [requires_grad, "@, '\n');
    }

    proof fn line_body_is_one_line(self, max_leaves: int, i: int)
        requires
            0 <= i < self.ops@.len() <= usize::MAX,
            self.listable(max_leaves),
        ensures
            crate::text::lacks(self.line_body(max_leaves, i), '\n'),
    {
        let state = self.list_state(max_leaves);
        self.list_is_well_built(max_leaves, self.ops@.len() as int);
        match state.actions[i + 1] {
            Action::Leaf { pool, shape } => {
                reveal_strlit("leaf #");
                reveal_strlit("]");
                let reg = (i + 1) as usize;
                assert(state.leaves.contains(reg));
                let k = state.leaves.index_of(reg);
                assert(0 <= k < state.leaves.len());
                self.leaf_text_is_one_line(pool as int, shape);
                crate::text::decimal_lacks(k, '\n');
                let front = self.leaf_text(pool as int, shape) + "leaf #"@;
                assert(crate::text::lacks(front, '\n'));
                assert(crate::text::lacks(front + crate::text::decimal(k), '\n'));
            },
            Action::Alias(src) => {
                reveal_strlit("  # leaf cap reached, alias");
                crate::ops::reg_text_lacks(src as int, '\n');
            },
            Action::Eval(instr, _) => {
                crate::ops::resolved_text_lacks(instr.literal(i + 1), '\n');
            },
        }
    }

    proof fn register_line_is_one_line(self, max_leaves: int, i: int)
        requires
            0 <= i <= self.ops@.len() <= usize::MAX,
            self.listable(max_leaves),
        ensures
            crate::text::lacks(self.register_line(max_leaves, i), '\n'),
    {
        reveal_strlit(" ");
        reveal_strlit(" = ");
        let shape = self.list_state(max_leaves).shapes[i];
        crate::ops::reg_text_lacks(i, '\n');
        crate::shape::shape_text_lacks(shape, '\n');
        let front = crate::ops::reg_text(i) + " "@ + shape.text() + " = "@;
        assert(crate::text::lacks(front, '\n'));
        if i == 0 {
            reveal_strlit("seed]");
            self.leaf_text_is_one_line(0, self.first_shape());
            let tail = self.leaf_text(0, self.first_shape()) + "seed]"@;
            assert(crate::text::lacks(tail, '\n'));
            crate::text::joined_lack(front, tail, '\n');
        } else {
            self.line_body_is_one_line(max_leaves, i - 1);
            crate::text::joined_lack(front, self.line_body(max_leaves, i - 1), '\n');
        }
    }

    proof fn heading_is_two_lines(self, max_leaves: int)
        requires
            0 <= max_leaves,
            self.list_state(max_leaves).shapes[0] == self.first_shape(),
        ensures
            crate::text::lacks(self.title(max_leaves), '\n'),
            self.heading(max_leaves) == self.title(max_leaves) + "\n"@ + (self.register_line(
                max_leaves,
                0,
            ) + "\n"@),
    {
        reveal_strlit("=== AutogradProgram ");
        reveal_strlit(" (max_leaves=");
        reveal_strlit(") ===\n");
        reveal_strlit(") ===");
        reveal_strlit("\n");
        reveal_strlit("r0 ");
        reveal_strlit("r");
        reveal_strlit("0");
        reveal_strlit(" ");
        reveal_strlit("seed]\n");
        reveal_strlit("seed]");
        crate::shape::shape_text_lacks(self.first_shape(), '\n');
        crate::text::decimal_lacks(max_leaves, '\n');
        let front = "=== AutogradProgram "@ + self.first_shape().text() + " (max_leaves="@;
        assert(crate::text::lacks(front, '\n'));
        assert(crate::text::lacks(front + crate::text::decimal(max_leaves), '\n'));
        assert(") ===\n"@ =~= ") ==="@ + "\n"@);
        assert("r0 "@ =~= crate::ops::reg_text(0) + " "@);
        assert("seed]\n"@ =~= "seed]"@ + "\n"@);
        assert(self.heading(max_leaves) =~= self.title(max_leaves) + "\n"@ + (self.register_line(
            max_leaves,
            0,
        ) + "\n"@));
    }

    proof fn listing_is_lines(self, max_leaves: int, k: int)
        requires
            0 <= max_leaves,
            0 <= k <= self.ops@.len() <= usize::MAX,
            self.listable(max_leaves),
        ensures
            crate::text::split(self.listing(max_leaves, k), '\n') == self.lines_up_to(
                max_leaves,
                k,
            ).push(Seq::empty()),
        decreases k,
    {
        self.register_line_is_one_line(max_leaves, k);
        if k <= 0 {
            self.first_register_stays(max_leaves, false, self.ops@.len() as int);
            self.heading_is_two_lines(max_leaves);
            let title = self.title(max_leaves);
            let nothing = Seq::<char>::empty();
            assert(crate::text::split(nothing, '\n') =~= Seq::<Seq<char>>::empty().push(nothing));
            crate::text::line_appended(nothing, Seq::empty(), title);
            assert(nothing + (title + "\n"@) =~= title + "\n"@);
            crate::text::line_appended(
                title + "\n"@,
                Seq::empty().push(title),
                self.register_line(max_leaves, 0),
            );
            assert(self.lines_up_to(max_leaves, 0) =~= Seq::empty().push(title).push(
                self.register_line(max_leaves, 0),
            ));
        } else {
            self.listing_is_lines(max_leaves, k - 1);
            assert(self.line(max_leaves, k - 1) =~= self.register_line(max_leaves, k) + "\n"@);
            crate::text::line_appended(
                self.listing(max_leaves, k - 1),
                self.lines_up_to(max_leaves, k - 1),
                self.register_line(max_leaves, k),
            );
            assert(self.lines_up_to(max_leaves, k) =~= self.lines_up_to(max_leaves, k - 1).push(
                self.register_line(max_leaves, k),
            ));
        }
    }

    proof fn grad_request_is_one_line(self, max_leaves: int, reg: usize)
        ensures
            crate::text::lacks(self.grad_request(max_leaves, reg), '\n'),
            self.grad_line(max_leaves, reg) == self.grad_request(max_leaves, reg) + "\n"@,
    {
        let shape = self.list_state(max_leaves).shapes[reg as int];
        let name = crate::ops::reg_text(reg as int);
        crate::ops::reg_text_lacks(reg as int, '\n');
        crate::shape::shape_text_lacks(shape, '\n');
        let front = "grad "@ + name + " "@ + shape.text() + " = "@ + name;
        assert(crate::text::lacks(front, '\n')) by {
            reveal_strlit("grad ");
            reveal_strlit(" ");
            reveal_strlit(" = ");
            assert(crate::text::lacks("grad "@ + name + " "@, '\n'));
            assert(crate::text::lacks("grad "@ + name + " "@ + shape.text(), '\n'));
            assert(crate::text::lacks("grad "@ + name + " "@ + shape.text() + " = "@, '\n'));
        }
        reveal_strlit(".grad(grads)  # None → zeros if unreachable");
        reveal_strlit(".grad(grads)  # None → zeros if unreachable\n");
        reveal_strlit("\n");
        assert(".grad(grads)  # None → zeros if unreachable\n"@
            =~= ".grad(grads)  # None → zeros if unreachable"@ + "\n"@);
        crate::text::joined_lack(front, ".grad(grads)  # None → zeros if unreachable"@, '\n');
        assert(self.grad_line(max_leaves, reg) =~= self.grad_request(max_leaves, reg) + "\n"@);
    }

    proof fn gradients_are_lines(self, max_leaves: int, k: int)
        requires
            0 <= max_leaves,
            0 <= k <= self.list_state(max_leaves).leaves.len(),
            self.ops@.len() <= usize::MAX,
            self.listable(max_leaves),
        ensures
            crate::text::split(
                self.listing(max_leaves, self.ops@.len() as int) + (self.backward_line() + "\n"@)
                    + self.grad_lines(max_leaves, k),
                '\n',
            ) == self.lines_with_gradients(max_leaves, k).push(Seq::empty()),
        decreases k,
    {
        let n = self.ops@.len() as int;
        let head = self.listing(max_leaves, n) + (self.backward_line() + "\n"@);
        if k <= 0 {
            assert(crate::text::lacks(self.backward_line(), '\n')) by {
                reveal_strlit("grads = backward(");
                reveal_strlit(")");
                crate::ops::reg_text_lacks(n, '\n');
            }
            self.listing_is_lines(max_leaves, n);
            crate::text::line_appended(
                self.listing(max_leaves, n),
                self.lines_up_to(max_leaves, n),
                self.backward_line(),
            );
            assert(head + self.grad_lines(max_leaves, 0) =~= head);
            assert(self.lines_with_gradients(max_leaves, 0) =~= self.lines_up_to(
                max_leaves,
                n,
            ).push(self.backward_line()));
        } else {
            let reg = self.list_state(max_leaves).leaves[k - 1];
            self.gradients_are_lines(max_leaves, k - 1);
            self.grad_request_is_one_line(max_leaves, reg);
            crate::text::line_appended(
                head + self.grad_lines(max_leaves, k - 1),
                self.lines_with_gradients(max_leaves, k - 1),
                self.grad_request(max_leaves, reg),
            );
            assert(head + self.grad_lines(max_leaves, k) =~= head + self.grad_lines(
                max_leaves,
                k - 1,
            ) + (self.grad_request(max_leaves, reg) + "\n"@));
            assert(self.lines_with_gradients(max_leaves, k) =~= self.lines_with_gradients(
                max_leaves,
                k - 1,
            ).push(self.grad_request(max_leaves, reg)));
        }
    }

    /// All lines of the printed program, without the empty one after its last line
    /// break.
    pub open spec fn lines(self, max_leaves: int) -> Seq<Seq<char>> {
        self.lines_with_gradients(
            max_leaves,
            self.list_state(max_leaves).leaves.len() as int,
        )
    }

    /// The printed program is made of a title, exactly one line for each register in
    /// order, the backward pass, and exactly one line for each leaf's gradient, in the
    /// order of the leaves.
    pub proof fn one_line_for_each_register_and_gradient(self, max_leaves: int)
        requires
            0 <= max_leaves,
            self.ops@.len() <= usize::MAX,
            self.listable(max_leaves),
        ensures
            crate::text::split(self.text(max_leaves), '\n') == self.lines(max_leaves).push(
                Seq::empty(),
            ),
            self.lines(max_leaves).len() == self.ops@.len() + 3 + self.list_state(
                max_leaves,
            ).leaves.len(),
            self.lines(max_leaves)[0] == self.title(max_leaves),
            forall|i: int|
                0 <= i <= self.ops@.len() ==> self.lines(max_leaves)[i + 1]
                    == #[trigger] self.register_line(max_leaves, i),
            self.lines(max_leaves)[(self.ops@.len() + 2) as int] == self.backward_line(),
            forall|k: int|
                0 <= k < self.list_state(max_leaves).leaves.len() ==> self.lines(
                    max_leaves,
                )[self.ops@.len() + 3 + k] == self.grad_request(
                    max_leaves,
                    #[trigger] self.list_state(max_leaves).leaves[k],
                ),
    {
        let n = self.ops@.len() as int;
        let count = self.list_state(max_leaves).leaves.len() as int;
        self.gradients_are_lines(max_leaves, count);
        reveal_strlit(")\n");
        reveal_strlit(")");
        reveal_strlit("\n");
        assert(")\n"@ =~= ")"@ + "\n"@);
        assert(self.text(max_leaves) =~= self.listing(max_leaves, n) + (self.backward_line()
            + "\n"@) + self.grad_lines(max_leaves, count));
        assert forall|i: int| 0 <= i <= n implies self.lines(max_leaves)[i + 1]
            == #[trigger] self.register_line(max_leaves, i) by {
            assert(self.lines_up_to(max_leaves, n)[i + 1] == self.register_line(max_leaves, i));
        }
    }

    proof fn title_starts(self, max_leaves: int)
        ensures
            self.title(max_leaves).len() >= 2,
            self.title(max_leaves)[0] == '=',
    {
        reveal_strlit("=== AutogradProgram ");
    }

    proof fn register_line_starts(self, max_leaves: int, i: int)
        ensures
            self.register_line(max_leaves, i).len() >= 2,
            self.register_line(max_leaves, i)[0] == 'r',
            crate::text::begins_with(
                self.register_line(max_leaves, i),
                crate::ops::reg_text(i) + " "@,
            ),
    {
        reveal_strlit("r");
        reveal_strlit(" ");
        let line = self.register_line(max_leaves, i);
        let own = crate::ops::reg_text(i) + " "@;
        assert(line.take(own.len() as int) =~= own);
    }

    proof fn backward_line_starts(self)
        ensures
            self.backward_line().len() >= 6,
            self.backward_line()[0] == 'g',
            self.backward_line()[4] == 's',
    {
        reveal_strlit("grads = backward(");
    }

    proof fn grad_request_starts(self, max_leaves: int, reg: usize)
        ensures
            self.grad_request(max_leaves, reg).len() >= 6,
            self.grad_request(max_leaves, reg)[0] == 'g',
            crate::text::begins_with(self.grad_request(max_leaves, reg), "grad r"@),
    {
        reveal_strlit("grad r");
        reveal_strlit("grad ");
        reveal_strlit("r");
        assert(self.grad_request(max_leaves, reg).take(6) =~= "grad r"@);
    }

    proof fn line_starts(self, max_leaves: int, m: int)
        requires
            0 <= max_leaves,
            self.ops@.len() <= usize::MAX,
            self.listable(max_leaves),
            0 <= m < self.lines(max_leaves).len(),
        ensures
            ({
                let n = self.ops@.len() as int;
                let line = self.lines(max_leaves)[m];
                &&& line.len() >= 2
                &&& m == 0 ==> line[0] == '='
                &&& 1 <= m <= n + 1 ==> line[0] == 'r' && crate::text::begins_with(
                    line,
                    crate::ops::reg_text(m - 1) + " "@,
                )
                &&& m == n + 2 ==> line.len() >= 6 && line[0] == 'g' && line[4] == 's'
                &&& m >= n + 3 ==> line[0] == 'g' && crate::text::begins_with(line, "grad r"@)
            }),
    {
        self.one_line_for_each_register_and_gradient(max_leaves);
        let n = self.ops@.len() as int;
        let line = self.lines(max_leaves)[m];
        if m == 0 {
            self.title_starts(max_leaves);
        } else if m <= n + 1 {
            assert(line == self.register_line(max_leaves, m - 1));
            self.register_line_starts(max_leaves, m - 1);
        } else if m == n + 2 {
            self.backward_line_starts();
        } else {
            let reg = self.list_state(max_leaves).leaves[m - n - 3];
            assert(line == self.grad_request(max_leaves, reg));
            self.grad_request_starts(max_leaves, reg);
        }
    }

    /// A line of the printed program asks for a gradient exactly if it is one of the
    /// lines after the backward pass.
    pub proof fn only_the_last_lines_ask_for_gradients(self, max_leaves: int, m: int)
        requires
            0 <= max_leaves,
            self.ops@.len() <= usize::MAX,
            self.listable(max_leaves),
            0 <= m < self.lines(max_leaves).len(),
        ensures
            crate::text::begins_with(self.lines(max_leaves)[m], "grad r"@) <==> m
                >= self.ops@.len() + 3,
    {
        self.line_starts(max_leaves, m);
        let line = self.lines(max_leaves)[m];
        reveal_strlit("grad r");
        if crate::text::begins_with(line, "grad r"@) {
            assert(line[0] == line.take(6)[0] && line[4] == line.take(6)[4]);
        }
    }

    /// A line of the printed program begins with a register exactly if it is that
    /// register's own.
    pub proof fn only_its_line_begins_with_a_register(self, max_leaves: int, m: int, i: int)
        requires
            0 <= max_leaves,
            self.ops@.len() <= usize::MAX,
            self.listable(max_leaves),
            0 <= m < self.lines(max_leaves).len(),
            0 <= i,
        ensures
            crate::text::begins_with(
                self.lines(max_leaves)[m],
                crate::ops::reg_text(i) + " "@,
            ) <==> m == i + 1 && i <= self.ops@.len(),
    {
        self.line_starts(max_leaves, m);
        let line = self.lines(max_leaves)[m];
        if 1 <= m <= self.ops@.len() + 1 {
            if crate::text::begins_with(line, crate::ops::reg_text(i) + " "@) {
                crate::ops::register_at_the_start_is_unique(line, i, m - 1);
            }
        } else {
            crate::ops::no_register_at_the_start(line, i);
        }
    }

    /// What is printed, line by line: a title with the shape of the seed leaf and the leaf
    /// cap; the seed leaf; each further register with its shape and how it comes about, a
    /// leaf by its sides, the number of its seed bytes and its number among the leaves, an
    /// alias by the register it refers to, an instruction as it is written; the backward pass
    /// from the last register; and for each leaf a request for its gradient.
    pub proof fn the_printed_lines(self, max_leaves: int)
        requires
            0 <= max_leaves,
            self.ops@.len() <= usize::MAX,
            self.listable(max_leaves),
        ensures
            ({
                let lines = crate::text::split(self.text(max_leaves), '\n');
                let state = self.list_state(max_leaves);
                let n = self.ops@.len() as int;
                let count = state.leaves.len() as int;
                &&& lines.len() == n + 4 + count
                &&& lines[0] == "=== AutogradProgram "@ + state.shapes[0].text()
                    + " (max_leaves="@ + crate::text::decimal(max_leaves) + ") ==="@
                &&& lines[1] == crate::ops::reg_text(0) + " "@ + state.shapes[0].text() + " = "@ + (
                "leaf("@ + crate::text::decimal(state.shapes[0].0 as int) + "×"@
                    + crate::text::decimal(state.shapes[0].1 as int) + ", "@
                    + crate::text::decimal(
                    if self.leaf_seeds@.len() > 0 {
                        self.leaf_seeds@[0]@.len() as int
                    } else {
                        0
                    },
                ) + " seed bytes)  [requires_grad, "@ + "seed]"@)
                &&& lines[n + 2] == "grads = backward("@ + crate::ops::reg_text(n) + ")"@
                &&& forall|k: int|
                    0 <= k < count ==> {
                        let reg = #[trigger] state.leaves[k] as int;
                        lines[n + 3 + k] == "grad "@ + crate::ops::reg_text(reg) + " "@
                            + state.shapes[reg].text() + " = "@ + crate::ops::reg_text(reg)
                            + ".grad(grads)  # None → zeros if unreachable"@
                    }
                &&& lines[n + 3 + count] == Seq::<char>::empty()
            }),
    {
        let lines = crate::text::split(self.text(max_leaves), '\n');
        let n = self.ops@.len() as int;
        let state = self.list_state(max_leaves);
        self.one_line_for_each_register_and_gradient(max_leaves);
        self.first_register_stays(max_leaves, false, n);
        assert(lines[1] == self.register_line(max_leaves, 0));
        assert forall|k: int| 0 <= k < state.leaves.len() implies {
            let reg = #[trigger] state.leaves[k] as int;
            lines[n + 3 + k] == "grad "@ + crate::ops::reg_text(reg) + " "@
                + state.shapes[reg].text() + " = "@ + crate::ops::reg_text(reg)
                + ".grad(grads)  # None → zeros if unreachable"@
        } by {
            assert(self.lines(max_leaves)[n + 3 + k] == self.grad_request(
                max_leaves,
                state.leaves[k],
            ));
        }
    }

    /// The line of a register after the first: the register, its shape, and how it comes
    /// about.
    #[verifier::rlimit(40)]
    pub proof fn the_printed_line_of_a_register(self, max_leaves: int, i: int)
        requires
            0 <= max_leaves,
            1 <= i <= self.ops@.len() <= usize::MAX,
            self.listable(max_leaves),
        ensures
            ({
                let line = crate::text::split(self.text(max_leaves), '\n')[i + 1];
                let state = self.list_state(max_leaves);
                let start = crate::ops::reg_text(i) + " "@ + state.shapes[i].text() + " = "@;
                &&& crate::text::begins_with(line, start)
                &&& match state.actions[i] {
                    Action::Leaf { pool, shape } => exists|k: int|
                        0 < k < state.leaves.len() && (#[trigger] state.leaves[k]) == i
                            && line.skip(start.len() as int) == "leaf("@ + crate::text::decimal(
                            shape.0 as int,
                        ) + "×"@ + crate::text::decimal(shape.1 as int) + ", "@
                            + crate::text::decimal(
                            if pool < self.leaf_seeds@.len() {
                                self.leaf_seeds@[pool as int]@.len() as int
                            } else {
                                0
                            },
                        ) + " seed bytes)  [requires_grad, "@ + "leaf #"@ + crate::text::decimal(k)
                            + "]"@,
                    Action::Alias(src) => line.skip(start.len() as int) == crate::ops::reg_text(
                        src as int,
                    ) + "  # leaf cap reached, alias"@,
                    Action::Eval(instr, _) => line.skip(start.len() as int) == instr.literal(
                        i,
                    ).text(),
                }
            }),
    {
        let line = crate::text::split(self.text(max_leaves), '\n')[i + 1];
        let state = self.list_state(max_leaves);
        let start = crate::ops::reg_text(i) + " "@ + state.shapes[i].text() + " = "@;
        self.list_is_well_built(max_leaves, self.ops@.len() as int);
        self.one_line_for_each_register_and_gradient(max_leaves);
        assert(line == self.register_line(max_leaves, i));
        let body = self.line_body(max_leaves, i - 1);
        assert(line == start + body);
        assert(line.take(start.len() as int) =~= start);
        assert(line.skip(start.len() as int) =~= body);
        if state.actions[i] is Leaf {
            assert(state.leaves.contains(i as usize));
            let k = state.leaves.index_of(i as usize);
            assert(state.leaves[k] == i);
            assert(k > 0);
        }
    }

    /// After `k` instructions no side of a register is longer than sixteen times
    /// four to the `k`, as long as that can be represented.
    proof fn sides_are_bounded(self, max_leaves: int, k: int)
        requires
            0 <= k <= self.ops@.len() <= usize::MAX,
            longest_side(k) <= usize::MAX,
        ensures
            forall|j: int| 0 <= j < k ==> self.listable_at(max_leaves, j),
            self.state(max_leaves, false, k).shapes.len() == k + 1,
            !self.state(max_leaves, false, k).halted,
            forall|i: int|
                0 <= i <= k ==> 1 <= (#[trigger] self.state(max_leaves, false, k).shapes[i]).0
                    <= longest_side(k) && 1 <= self.state(max_leaves, false, k).shapes[i].1
                    <= longest_side(k),
        decreases k,
    {
        if k > 0 {
            longest_side_grows(k - 1);
            self.sides_are_bounded(max_leaves, k - 1);
            let before = self.state(max_leaves, false, k - 1);
            if let DiffOp::Instr(instr) = self.ops@[k - 1] {
                crate::resolve::resolution_is_legal(before.shapes, instr);
                crate::resolve::result_grows_at_most_fourfold(
                    before.shapes,
                    crate::resolve::resolution(before.shapes, instr),
                    longest_side(k - 1),
                );
            } else {
                longest_side_at_least(k - 1);
            }
        }
    }

    /// A program can be listed if sixteen times four to the number of its
    /// instructions can be represented; a program of at most thirteen instructions
    /// can always be listed.
    pub proof fn short_programs_are_listable(self, max_leaves: int)
        requires
            self.ops@.len() <= 13 || (longest_side(self.ops@.len() as int) <= usize::MAX
                && self.ops@.len() <= usize::MAX),
        ensures
            self.listable(max_leaves),
    {
        let n = self.ops@.len() as int;
        if n <= 13 {
            reveal_with_fuel(longest_side, 14);
        }
        self.sides_are_bounded(max_leaves, n);
    }

    /// Every register after the first comes from the instruction in its place, and the
    /// run is over only where no register is added.
    proof fn registers_are_numbered_by_instructions(self, max_leaves: int, capped: bool, k: int)
        requires
            0 <= k <= self.ops@.len() <= usize::MAX,
            capped || self.listable(max_leaves),
        ensures
            self.state(max_leaves, capped, k).consistent(),
            self.state(max_leaves, capped, k).well_built(),
            self.state(max_leaves, capped, k).shapes.len() <= k + 1,
            !self.state(max_leaves, capped, k).halted ==> self.state(
                max_leaves,
                capped,
                k,
            ).shapes.len() == k + 1,
        decreases k,
    {
        if capped {
            self.run_is_well_built(max_leaves, k);
        } else {
            self.list_is_well_built(max_leaves, k);
        }
        if k > 0 {
            self.registers_are_numbered_by_instructions(max_leaves, capped, k - 1);
        }
    }

    /// Whether register `i` comes from instruction `i - 1`.
    #[verifier::opaque]
    spec fn register_is_right(self, max_leaves: int, state: GradState, i: int) -> bool {
        let count = self.leaf_seeds@.len() as int;
        match (self.ops@[i - 1], state.actions[i]) {
            (DiffOp::Leaf { seed, rows, cols }, Action::Leaf { pool, shape }) => {
                &&& exists|j: int|
                    0 < j < state.leaves.len() && j < max_leaves && (
                    #[trigger] state.leaves[j]) == i
                &&& count > 0 ==> pool < count && pool as int == seed as int % count
                &&& count == 0 ==> pool == 0
                &&& state.shapes[i] == shape
                &&& 1 <= shape.0 <= 16 && 1 <= shape.1 <= 16
                &&& 1 <= rows <= 16 ==> shape.0 == rows
                &&& rows == 0 ==> shape.0 == 1
                &&& rows > 16 ==> shape.0 == 16
                &&& 1 <= cols <= 16 ==> shape.1 == cols
                &&& cols == 0 ==> shape.1 == 1
                &&& cols > 16 ==> shape.1 == 16
            },
            (DiffOp::Leaf { seed, .. }, Action::Alias(src)) => {
                &&& max_leaves >= 1 ==> state.leaves.len() >= max_leaves
                    && state.leaves[max_leaves - 1] < i
                &&& src as int == seed as int % i
                &&& state.shapes[i] == state.shapes[src as int]
            },
            (DiffOp::Instr(instr), Action::Eval(written, op)) => {
                let before = state.shapes.take(i);
                &&& written == instr
                &&& op == crate::resolve::resolution(before, instr)
                &&& state.shapes[i] == op.out_shape(before)
            },
            _ => false,
        }
    }

    proof fn earlier_registers_stay_right(
        self,
        max_leaves: int,
        before: GradState,
        after: GradState,
        i: int,
    )
        requires
            0 <= i < before.actions.len(),
            before.consistent(),
            before.well_built(),
            before.shapes.is_prefix_of(after.shapes),
            before.actions.is_prefix_of(after.actions),
            before.leaves.is_prefix_of(after.leaves),
            self.register_is_right(max_leaves, before, i),
        ensures
            self.register_is_right(max_leaves, after, i),
    {
        reveal(AutogradProgram::register_is_right);
        assert(after.shapes.take(i) =~= before.shapes.take(i));
        assert(after.actions[i] == before.actions[i]);
        assert(after.shapes[i] == before.shapes[i]);
        match after.actions[i] {
            Action::Leaf { .. } => {
                let j = choose|j: int|
                    0 < j < before.leaves.len() && j < max_leaves && (#[trigger] before.leaves[j])
                        == i;
                assert(after.leaves[j] == i);
            },
            Action::Alias(src) => {
                assert(src < i);
                assert(after.shapes[src as int] == before.shapes[src as int]);
                if max_leaves >= 1 {
                    assert(after.leaves[max_leaves - 1] == before.leaves[max_leaves - 1]);
                }
            },
            Action::Eval(..) => {},
        }
    }

    proof fn the_next_register_is_right(
        self,
        max_leaves: int,
        capped: bool,
        before: GradState,
        i: int,
    )
        requires
            before.consistent(),
            before.shapes.len() == i,
            1 <= i <= self.ops@.len() <= usize::MAX,
            before.leaves.len() <= (if max_leaves < 1 {
                1
            } else {
                max_leaves
            }),
            !before.halted,
            !self.next_state(before, self.ops@[i - 1], max_leaves, capped).halted,
        ensures
            self.register_is_right(
                max_leaves,
                self.next_state(before, self.ops@[i - 1], max_leaves, capped),
                i,
            ),
    {
        reveal(AutogradProgram::register_is_right);
        let after = self.next_state(before, self.ops@[i - 1], max_leaves, capped);
        assert(self.leaf_seeds.len() == self.leaf_seeds@.len());
        assert(after.shapes.take(i) =~= before.shapes);
        if after.actions[i] is Leaf {
            assert(after.leaves[after.leaves.len() - 1] == i);
        }
    }

    /// What each register of an autograd program is. Register `i` comes from instruction
    /// `i - 1`. A leaf instruction introduces a leaf as long as fewer than `max_leaves`
    /// stand before it: its seed bytes are those at the place of the pool that its byte
    /// means modulo the size of the pool, and its sides are the bytes given, at least 1
    /// and at most 16. Afterwards it is another reference to the register that its byte
    /// means modulo the number of registers before it. Any other instruction is carried
    /// out as it is resolved among the registers before it.
    pub proof fn registers_come_from_the_instructions(
        self,
        max_leaves: int,
        capped: bool,
        k: int,
        i: int,
    )
        requires
            0 <= k <= self.ops@.len() <= usize::MAX,
            capped || self.listable(max_leaves),
            1 <= i < self.state(max_leaves, capped, k).actions.len(),
        ensures
            i <= k,
            ({
                let state = self.state(max_leaves, capped, k);
                let count = self.leaf_seeds@.len() as int;
                match (self.ops@[i - 1], state.actions[i]) {
                    (DiffOp::Leaf { seed, rows, cols }, Action::Leaf { pool, shape }) => {
                        &&& exists|j: int|
                            0 < j < state.leaves.len() && j < max_leaves && (
                            #[trigger] state.leaves[j]) == i
                        &&& count > 0 ==> pool < count && pool as int == seed as int % count
                        &&& count == 0 ==> pool == 0
                        &&& state.shapes[i] == shape
                        &&& 1 <= shape.0 <= 16 && 1 <= shape.1 <= 16
                        &&& 1 <= rows <= 16 ==> shape.0 == rows
                        &&& rows == 0 ==> shape.0 == 1
                        &&& rows > 16 ==> shape.0 == 16
                        &&& 1 <= cols <= 16 ==> shape.1 == cols
                        &&& cols == 0 ==> shape.1 == 1
                        &&& cols > 16 ==> shape.1 == 16
                    },
                    (DiffOp::Leaf { seed, .. }, Action::Alias(src)) => {
                        &&& max_leaves >= 1 ==> state.leaves.len() >= max_leaves
                            && state.leaves[max_leaves - 1] < i
                        &&& src as int == seed as int % i
                        &&& state.shapes[i] == state.shapes[src as int]
                    },
                    (DiffOp::Instr(instr), Action::Eval(written, op)) => {
                        let before = state.shapes.take(i);
                        &&& written == instr
                        &&& op == crate::resolve::resolution(before, instr)
                        &&& state.shapes[i] == op.out_shape(before)
                    },
                    _ => false,
                }
            }),
    {
        reveal(AutogradProgram::register_is_right);
        self.registers_are_numbered_by_instructions(max_leaves, capped, k);
        self.registers_are_right(max_leaves, capped, k, i);
    }

    /// One more instruction adds at most one register, and changes none.
    proof fn a_step_keeps_what_there_is(
        self,
        before: GradState,
        op: DiffOp,
        max_leaves: int,
        capped: bool,
    )
        requires
            before.consistent(),
        ensures
            ({
                let after = self.next_state(before, op, max_leaves, capped);
                &&& before.shapes.is_prefix_of(after.shapes)
                &&& before.actions.is_prefix_of(after.actions)
                &&& before.leaves.is_prefix_of(after.leaves)
                &&& after.actions.len() <= before.actions.len() + 1
                &&& after.actions.len() > before.actions.len() ==> !before.halted && !after.halted
            }),
    {
        let after = self.next_state(before, op, max_leaves, capped);
        assert(before.shapes =~= after.shapes.take(before.shapes.len() as int));
        assert(before.actions =~= after.actions.take(before.actions.len() as int));
        assert(before.leaves =~= after.leaves.take(before.leaves.len() as int));
    }

    proof fn registers_are_right(self, max_leaves: int, capped: bool, k: int, i: int)
        requires
            0 <= k <= self.ops@.len() <= usize::MAX,
            capped || self.listable(max_leaves),
            1 <= i < self.state(max_leaves, capped, k).actions.len(),
        ensures
            i <= k,
            self.register_is_right(max_leaves, self.state(max_leaves, capped, k), i),
        decreases k,
    {
        self.registers_are_numbered_by_instructions(max_leaves, capped, k);
        if k > 0 {
            self.registers_are_numbered_by_instructions(max_leaves, capped, k - 1);
            self.leaves_respect_the_cap(max_leaves, capped, k - 1);
            let before = self.state(max_leaves, capped, k - 1);
            let after = self.state(max_leaves, capped, k);
            self.a_step_keeps_what_there_is(before, self.ops@[k - 1], max_leaves, capped);
            if i < before.actions.len() {
                self.registers_are_right(max_leaves, capped, k - 1, i);
                self.earlier_registers_stay_right(max_leaves, before, after, i);
            } else {
                self.the_next_register_is_right(max_leaves, capped, before, i);
            }
        }
    }

    /// The first register is a leaf with the first seed bytes of the pool, and its sides
    /// are the program's bytes, at least 1 and at most 16.
    pub proof fn the_first_register_is_the_seed_leaf(self, max_leaves: int, capped: bool, k: int)
        requires
            0 <= k <= self.ops@.len() <= usize::MAX,
            capped || self.listable(max_leaves),
        ensures
            ({
                let state = self.state(max_leaves, capped, k);
                let shape = state.shapes[0];
                &&& state.shapes.len() >= 1
                &&& state.actions[0] == (Action::Leaf { pool: 0, shape })
                &&& state.leaves[0] == 0
                &&& 1 <= shape.0 <= 16 && 1 <= shape.1 <= 16
                &&& 1 <= self.rows <= 16 ==> shape.0 == self.rows
                &&& self.rows == 0 ==> shape.0 == 1
                &&& self.rows > 16 ==> shape.0 == 16
                &&& 1 <= self.cols <= 16 ==> shape.1 == self.cols
                &&& self.cols == 0 ==> shape.1 == 1
                &&& self.cols > 16 ==> shape.1 == 16
            }),
        decreases k,
    {
        self.registers_are_numbered_by_instructions(max_leaves, capped, k);
        if k > 0 {
            self.the_first_register_is_the_seed_leaf(max_leaves, capped, k - 1);
            let before = self.state(max_leaves, capped, k - 1);
            let after = self.state(max_leaves, capped, k);
            self.registers_are_numbered_by_instructions(max_leaves, capped, k - 1);
            assert(after.actions[0] == before.actions[0]);
            assert(after.shapes[0] == before.shapes[0]);
        }
    }

    /// A run adds one register for each instruction until the result of one would have
    /// more than 1048576 elements; with that one, which is no leaf, it is over. No register
    /// has more elements than that.
    pub proof fn a_run_ends_where_a_result_is_too_large(self, max_leaves: int)
        requires
            self.ops@.len() <= usize::MAX,
        ensures
            ({
                let state = self.run_state(max_leaves);
                let n = state.shapes.len() as int;
                &&& state.actions.len() == n
                &&& 1 <= n <= self.ops@.len() + 1
                &&& forall|i: int|
                    0 <= i < n ==> (#[trigger] state.shapes[i]).0 * state.shapes[i].1 <= 1048576
                &&& n <= self.ops@.len() ==> (self.ops@[n - 1] matches DiffOp::Instr(instr) && {
                    let dims = crate::resolve::resolution(state.shapes, instr).out_dims(
                        state.shapes,
                    );
                    dims.0 * dims.1 > 1048576
                })
            }),
    {
        let k = self.ops@.len() as int;
        self.run_is_well_built(max_leaves, k);
        self.a_halted_run_is_too_large(max_leaves, k);
        let state = self.run_state(max_leaves);
        assert forall|i: int| 0 <= i < state.shapes.len() implies (#[trigger] state.shapes[i]).0
            * state.shapes[i].1 <= 1048576 by {
            assert(state.shapes[i].valid());
        }
    }

    proof fn a_halted_run_is_too_large(self, max_leaves: int, k: int)
        requires
            0 <= k <= self.ops@.len() <= usize::MAX,
        ensures
            ({
                let state = self.state(max_leaves, true, k);
                let n = state.shapes.len() as int;
                &&& !state.halted ==> n == k + 1
                &&& state.halted ==> 1 <= n <= k && (self.ops@[n - 1] matches DiffOp::Instr(instr)
                    && {
                    let dims = crate::resolve::resolution(state.shapes, instr).out_dims(
                        state.shapes,
                    );
                    dims.0 * dims.1 > 1048576
                })
            }),
        decreases k,
    {
        if k > 0 {
            self.a_halted_run_is_too_large(max_leaves, k - 1);
        }
    }

    /// The leaves are the registers that leaf instructions introduced, and no others, each
    /// once and in the order of the registers; and there is one shape and one action for each
    /// register.
    pub proof fn the_leaves_are_the_registers_introduced_as_such(
        self,
        max_leaves: int,
        capped: bool,
        k: int,
    )
        requires
            0 <= k <= self.ops@.len() <= usize::MAX,
            capped || self.listable(max_leaves),
        ensures
            ({
                let state = self.state(max_leaves, capped, k);
                &&& state.actions.len() == state.shapes.len()
                &&& forall|i: int|
                    0 <= i < state.actions.len() ==> ((#[trigger] state.actions[i]) is Leaf
                        <==> exists|j: int|
                        0 <= j < state.leaves.len() && #[trigger] state.leaves[j] == i)
                &&& forall|j: int|
                    0 <= j < state.leaves.len() ==> (#[trigger] state.leaves[j])
                        < state.actions.len()
                &&& forall|j: int, m: int|
                    0 <= j < m < state.leaves.len() ==> (#[trigger] state.leaves[j]) < (
                    #[trigger] state.leaves[m])
                &&& 1 <= state.leaves.len()
                &&& max_leaves >= 1 ==> state.leaves.len() <= max_leaves
                &&& max_leaves < 1 ==> state.leaves.len() == 1
            }),
    {
        let state = self.state(max_leaves, capped, k);
        self.registers_are_numbered_by_instructions(max_leaves, capped, k);
        self.leaves_respect_the_cap(max_leaves, capped, k);
        assert forall|i: int| 0 <= i < state.actions.len() implies ((#[trigger] state.actions[i])
            is Leaf <==> exists|j: int|
            0 <= j < state.leaves.len() && #[trigger] state.leaves[j] == i) by {
            if state.actions[i] is Leaf {
                assert(state.leaves.contains(i as usize));
                let j = state.leaves.index_of(i as usize);
                assert(state.leaves[j] == i);
            }
            if exists|j: int| 0 <= j < state.leaves.len() && #[trigger] state.leaves[j] == i {
                let j = choose|j: int|
                    0 <= j < state.leaves.len() && #[trigger] state.leaves[j] == i;
                assert(state.actions[state.leaves[j] as int] is Leaf);
            }
        }
    }

    /// What is run and what is listed are both made of all instructions with the leaf cap that
    /// is given; the element cap ends the run and not the listing.
    pub proof fn all_instructions_are_run_and_listed(self, max_leaves: int)
        ensures
            self.run_state(max_leaves) == self.state(max_leaves, true, self.ops@.len() as int),
            self.list_state(max_leaves) == self.state(max_leaves, false, self.ops@.len() as int),
    {
    }

    /// A program can be listed exactly if no side of a result, worked out without the element
    /// cap, is too large to be represented.
    pub proof fn a_program_is_listable_if_its_sides_are(self, max_leaves: int)
        ensures
            self.listable(max_leaves) <==> forall|k: int|
                #![trigger self.ops@[k]]
                0 <= k < self.ops@.len() ==> match self.ops@[k] {
                    DiffOp::Leaf { .. } => true,
                    DiffOp::Instr(instr) => {
                        let shapes = self.state(max_leaves, false, k).shapes;
                        let dims = crate::resolve::resolution(shapes, instr).out_dims(shapes);
                        dims.0 <= usize::MAX && dims.1 <= usize::MAX
                    },
                },
    {
        if self.listable(max_leaves) {
            assert forall|k: int| #![trigger self.ops@[k]] 0 <= k < self.ops@.len() implies match
                self.ops@[k] {
                DiffOp::Leaf { .. } => true,
                DiffOp::Instr(instr) => {
                    let shapes = self.state(max_leaves, false, k).shapes;
                    let dims = crate::resolve::resolution(shapes, instr).out_dims(shapes);
                    dims.0 <= usize::MAX && dims.1 <= usize::MAX
                },
            } by {
                assert(self.listable_at(max_leaves, k));
            }
        }
    }

    /// A listing has one register for each instruction and one more, however large they
    /// are.
    pub proof fn a_listing_goes_to_the_end(self, max_leaves: int)
        requires
            self.ops@.len() <= usize::MAX,
            self.listable(max_leaves),
        ensures
            self.list_state(max_leaves).shapes.len() == self.ops@.len() + 1,
            self.list_state(max_leaves).actions.len() == self.ops@.len() + 1,
    {
        self.list_is_well_built(max_leaves, self.ops@.len() as int);
    }

    /// As long as leaves can be introduced, each of the first 256 entries of the pool can
    /// be had: the byte that equals its index selects it.
    pub proof fn every_entry_of_the_pool_can_be_had(
        self,
        max_leaves: int,
        capped: bool,
        k: int,
        entry: u8,
        rows: u8,
        cols: u8,
    )
        requires
            0 <= k < self.ops@.len() <= usize::MAX,
            capped || self.listable(max_leaves),
            entry < self.leaf_seeds@.len(),
            self.ops@[k] == (DiffOp::Leaf { seed: entry, rows, cols }),
            !self.state(max_leaves, capped, k).halted,
            self.state(max_leaves, capped, k).leaves.len() < max_leaves,
        ensures
            self.state(max_leaves, capped, k + 1).actions[k + 1] matches Action::Leaf { pool, .. }
                && pool == entry,
            self.seed_bytes(entry as int) == self.leaf_seeds@[entry as int]@,
    {
        self.registers_are_numbered_by_instructions(max_leaves, capped, k);
        self.registers_come_from_the_instructions(max_leaves, capped, k + 1, k + 1);
        assert(entry as int % (self.leaf_seeds@.len() as int) == entry as int) by (nonlinear_arith)
            requires
                0 <= entry as int,
                (entry as int) < self.leaf_seeds@.len(),
        ;
    }
}

/// Sixteen times four to the `k`.
pub open spec fn longest_side(k: int) -> int
    decreases k,
{
    if k <= 0 {
        16
    } else {
        4 * longest_side(k - 1)
    }
}

proof fn longest_side_at_least(k: int)
    ensures
        longest_side(k) >= 16,
    decreases k,
{
    if k > 0 {
        longest_side_at_least(k - 1);
    }
}

proof fn longest_side_grows(k: int)
    requires
        0 <= k,
    ensures
        longest_side(k) <= longest_side(k + 1),
{
    longest_side_at_least(k);
}

/// Whether register `r` is made from register `s` in one step: it is another reference to
/// it, or the result of an instruction that reads it.
pub open spec fn reads(actions: Seq<Action>, r: int, s: int) -> bool {
    match actions[r] {
        Action::Leaf { .. } => false,
        Action::Alias(src) => s == src,
        Action::Eval(_, op) => s == op.left() || op.right() == Some(s as usize) && 0 <= s
            <= usize::MAX,
    }
}

/// Whether a register in a chain comes after the next one and is made from it.
pub open spec fn goes_down(actions: Seq<Action>, chain: Seq<int>, k: int) -> bool {
    chain[k + 1] < chain[k] && reads(actions, chain[k], chain[k + 1])
}

/// Whether a chain of registers leads down from its first to its last, each made from the
/// next.
pub open spec fn leads_down(actions: Seq<Action>, chain: Seq<int>) -> bool {
    &&& chain.len() >= 1
    &&& forall|k: int| 0 <= k < chain.len() - 1 ==> #[trigger] goes_down(actions, chain, k)
}

/// A register depends on a leaf exactly when a chain of registers leads from it down to
/// that leaf, each an alias of the next or the result of an instruction that reads it.
pub proof fn dependence_is_a_chain_of_reads(actions: Seq<Action>, r: int, leaf: int)
    requires
        0 <= r < actions.len(),
    ensures
        depends_on(actions, r, leaf) <==> 0 <= leaf <= r && actions[leaf] is Leaf && exists|
            chain: Seq<int>,
        |
            #[trigger] leads_down(actions, chain) && chain[0] == r && chain.last() == leaf,
{
    if depends_on(actions, r, leaf) {
        let chain = dependence_has_a_chain(actions, r, leaf);
        assert(leads_down(actions, chain));
    }
    if actions[leaf] is Leaf && 0 <= leaf <= r {
        assert forall|chain: Seq<int>|
            #[trigger] leads_down(actions, chain) && chain[0] == r && chain.last()
                == leaf implies depends_on(actions, r, leaf) by {
            a_chain_is_dependence(actions, chain, leaf);
        }
    }
}

proof fn a_chain_grows(actions: Seq<Action>, r: int, rest: Seq<int>)
    requires
        leads_down(actions, rest),
        rest[0] < r,
        reads(actions, r, rest[0]),
    ensures
        leads_down(actions, seq![r] + rest),
{
    let chain = seq![r] + rest;
    assert forall|k: int| 0 <= k < chain.len() - 1 implies #[trigger] goes_down(
        actions,
        chain,
        k,
    ) by {
        if k > 0 {
            assert(goes_down(actions, rest, k - 1));
        }
    }
}

proof fn dependence_has_a_chain(actions: Seq<Action>, r: int, leaf: int) -> (chain: Seq<int>)
    requires
        0 <= r < actions.len(),
        depends_on(actions, r, leaf),
    ensures
        0 <= leaf <= r,
        actions[leaf] is Leaf,
        leads_down(actions, chain),
        chain[0] == r,
        chain.last() == leaf,
    decreases r,
{
    match actions[r] {
        Action::Leaf { .. } => seq![r],
        Action::Alias(src) => {
            let rest = dependence_has_a_chain(actions, src as int, leaf);
            a_chain_grows(actions, r, rest);
            seq![r] + rest
        },
        Action::Eval(_, op) => {
            let s = if op.left() < r && depends_on(actions, op.left() as int, leaf) {
                op.left() as int
            } else {
                op.right()->Some_0 as int
            };
            let rest = dependence_has_a_chain(actions, s, leaf);
            a_chain_grows(actions, r, rest);
            seq![r] + rest
        },
    }
}

proof fn a_chain_is_dependence(actions: Seq<Action>, chain: Seq<int>, leaf: int)
    requires
        leads_down(actions, chain),
        chain[0] < actions.len(),
        0 <= leaf,
        chain.last() == leaf,
        actions[leaf] is Leaf,
    ensures
        leaf <= chain[0],
        depends_on(actions, chain[0], leaf),
    decreases chain.len(),
{
    if chain.len() > 1 {
        let rest = chain.skip(1);
        assert forall|k: int| 0 <= k < rest.len() - 1 implies #[trigger] goes_down(
            actions,
            rest,
            k,
        ) by {
            assert(goes_down(actions, chain, k + 1));
        }
        assert(goes_down(actions, chain, 0));
        assert(rest.last() == leaf);
        a_chain_is_dependence(actions, rest, leaf);
    }
}

} // verus!
