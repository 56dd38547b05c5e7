//! The driver that every framework shares.
//!
//! A framework answers the questions of `Framework`; which questions are asked, in
//! which order and about which registers, is decided here and by the plan of the
//! program alone. All frameworks therefore run the same program.

use vstd::prelude::*;
use vstd::slice::slice_subrange;
use crate::autograd::{Action, AutogradProgram};
use crate::config::FuzzConfig;
use crate::float::to_float_bits;
use crate::ops::{ResolvedInstr, TensorInstr};
use crate::program::TensorProgram;
use crate::shape::Shape2;

verus! {

/// Element `i` of the data that seed bytes stand for, in units of 1/128: the bytes
/// are cycled and centred, and no bytes at all stand for one half throughout.
pub open spec fn sample(raw: Seq<u8>, i: int) -> int {
    if raw.len() == 0 {
        64
    } else {
        raw[i % raw.len() as int] - 128
    }
}

/// The first `n` elements of the data that seed bytes stand for, as bit patterns.
pub open spec fn floats(raw: Seq<u8>, n: int) -> Seq<u32> {
    Seq::new(n as nat, |i: int| crate::float::float_bits(sample(raw, i)) as u32)
}

/// `n` elements of data from seed bytes, as the bit patterns of numbers in `-1..1`.
pub fn bytes_to_floats(raw: &[u8], n: usize) -> (r: Vec<u32>)
    ensures
        r@ == floats(raw@, n as int),
{
    let mut data: Vec<u32> = Vec::new();
    let mut i: usize = 0;
    while i < n
        invariant
            i <= n,
            data@ == floats(raw@, i as int),
        decreases n - i,
    {
        let value: i16 = if raw.len() == 0 {
            64
        } else {
            raw[i % raw.len()] as i16 - 128
        };
        data.push(to_float_bits(value));
        i = i + 1;
        assert(data@ =~= floats(raw@, i as int));
    }
    data
}

/// Every element lies in `-1..1`, whatever the seed bytes, and its bits stand for
/// it exactly.
pub proof fn data_is_bounded_and_exact(raw: Seq<u8>, n: int, i: int)
    requires
        0 <= i < n,
    ensures
        -128 <= sample(raw, i) < 128,
        floats(raw, n).len() == n,
        crate::float::stands_for(floats(raw, n)[i] as int, sample(raw, i)),
{
    crate::float::samples_are_exact(sample(raw, i));
}

/// One framework's answers. Each method has a relation beside it: what the framework
/// may answer to the given question. A relation that an implementation leaves out
/// allows every answer. The driver is verified whatever the relations are.
pub trait Framework {
    type Tensor;

    /// What the backward pass hands back.
    type Grads;

    /// How the framework says that it failed.
    type Fault;

    /// Whether a tensor has the given shape.
    open spec fn has_shape(&self, t: Self::Tensor, shape: Shape2) -> bool {
        true
    }

    open spec fn input_gives(
        &self,
        data: Seq<u32>,
        shape: Shape2,
        r: Result<Self::Tensor, Self::Fault>,
    ) -> bool {
        true
    }

    open spec fn leaf_gives(
        &self,
        regs: Seq<Self::Tensor>,
        data: Seq<u32>,
        shape: Shape2,
        r: Result<Self::Tensor, Self::Fault>,
    ) -> bool {
        true
    }

    open spec fn alias_gives(&self, of: Self::Tensor, t: Self::Tensor) -> bool {
        true
    }

    open spec fn eval_gives(
        &self,
        regs: Seq<Self::Tensor>,
        shapes: Seq<Shape2>,
        instr: TensorInstr,
        r: Result<Self::Tensor, Self::Fault>,
    ) -> bool {
        true
    }

    open spec fn backward_gives(
        &self,
        root: Self::Tensor,
        r: Result<Self::Grads, Self::Fault>,
    ) -> bool {
        true
    }

    open spec fn grad_gives(
        &self,
        grads: Self::Grads,
        leaf: Self::Tensor,
        t: Option<Self::Tensor>,
    ) -> bool {
        true
    }

    open spec fn reads_as(&self, t: Self::Tensor, r: Result<Seq<u32>, Self::Fault>) -> bool {
        true
    }

    /// Build a plain input from the bit patterns of its elements, row by row.
    fn input(&self, data: &[u32], shape: Shape2) -> (r: Result<Self::Tensor, Self::Fault>)
        requires
            shape.valid(),
            data.len() == shape.0 * shape.1,
        ensures
            self.input_gives(data@, shape, r),
            r matches Ok(t) ==> self.has_shape(t, shape),
    ;

    /// Build a leaf that gradients are tracked for, beside the registers that there are:
    /// it has a node of its own in the gradient graph, which is none of theirs.
    fn leaf(&self, regs: &[Self::Tensor], data: &[u32], shape: Shape2) -> (r: Result<
        Self::Tensor,
        Self::Fault,
    >)
        requires
            shape.valid(),
            data.len() == shape.0 * shape.1,
        ensures
            self.leaf_gives(regs@, data@, shape, r),
            r matches Ok(t) ==> self.has_shape(t, shape),
    ;

    /// Refer to a register once more. The node of the gradient graph must be shared:
    /// a copy would drop part of the gradient.
    fn alias(&self, tensor: &Self::Tensor) -> (t: Self::Tensor)
        ensures
            self.alias_gives(*tensor, t),
            forall|shape: Shape2| #[trigger]
                self.has_shape(*tensor, shape) ==> self.has_shape(t, shape),
    ;

    /// Evaluate one instruction, which among the registers means `op`. The result must
    /// have the shape that the instruction predicts.
    fn eval(
        &self,
        regs: &[Self::Tensor],
        shapes: &[Shape2],
        instr: &TensorInstr,
        op: &ResolvedInstr,
    ) -> (r: Result<Self::Tensor, Self::Fault>)
        requires
            regs.len() == shapes.len(),
            regs.len() > 0,
            forall|i: int| 0 <= i < shapes.len() ==> (#[trigger] shapes@[i]).valid(),
            forall|i: int| 0 <= i < regs.len() ==> self.has_shape(#[trigger] regs@[i], shapes@[i]),
            *op == crate::resolve::resolution(shapes@, *instr),
            op.legal(shapes@),
            op.fits(shapes@),
            op.out_shape(shapes@).valid(),
        ensures
            self.eval_gives(regs@, shapes@, *instr, r),
            r matches Ok(t) ==> self.has_shape(t, op.out_shape(shapes@)),
    ;

    /// Differentiate the root, seeded with ones of its shape.
    fn backward(&self, root: &Self::Tensor) -> (r: Result<Self::Grads, Self::Fault>)
        ensures
            self.backward_gives(*root, r),
    ;

    /// The gradient of a leaf, or `None` if the leaf never reached the root.
    fn grad(&self, grads: &Self::Grads, leaf: &Self::Tensor) -> (t: Option<Self::Tensor>)
        ensures
            self.grad_gives(*grads, *leaf, t),
    ;

    /// Read a tensor out row by row, as the bit patterns of its 32-bit elements.
    fn to_vec(&self, tensor: &Self::Tensor) -> (r: Result<Vec<u32>, Self::Fault>)
        ensures
            r matches Ok(bits) ==> self.reads_as(*tensor, Ok(bits@)),
            r matches Err(fault) ==> self.reads_as(*tensor, Err(fault)),
    ;
}

/// The data of the input register.
pub open spec fn input_data(prog: TensorProgram) -> Seq<u32> {
    let shape = prog.input_shape();
    floats(prog.values@, shape.0 * shape.1)
}

/// Whether register `i + 1` is what the framework made of instruction `i`.
pub open spec fn step_is_done<F: Framework>(
    f: &F,
    prog: TensorProgram,
    regs: Seq<F::Tensor>,
    i: int,
) -> bool {
    f.eval_gives(
        regs.take(i + 1),
        prog.shapes().take(i + 1),
        prog.ops@[i],
        Ok(regs[i + 1]),
    )
}

/// Whether `regs` are the first registers of a run of `prog`: the input built from
/// the seed bytes, and after it what the framework made of each instruction, in
/// order, every register with the shape that the program predicts.
pub open spec fn is_begun<F: Framework>(f: &F, prog: TensorProgram, regs: Seq<F::Tensor>) -> bool {
    let shapes = prog.shapes();
    &&& 1 <= regs.len() <= shapes.len()
    &&& f.input_gives(input_data(prog), shapes[0], Ok(regs[0]))
    &&& forall|i: int| 0 <= i < regs.len() - 1 ==> #[trigger] step_is_done(f, prog, regs, i)
    &&& forall|i: int| 0 <= i < regs.len() ==> f.has_shape(#[trigger] regs[i], shapes[i])
}

/// Whether `regs` are all registers of a run of `prog`.
pub open spec fn is_run<F: Framework>(f: &F, prog: TensorProgram, regs: Seq<F::Tensor>) -> bool {
    is_begun(f, prog, regs) && regs.len() == prog.shapes().len()
}

/// Whether `fault` is how the framework fails on `prog`: building the input,
/// evaluating the next instruction after the first registers of a run, or reading
/// the last register of a run.
pub open spec fn is_run_fault<F: Framework>(f: &F, prog: TensorProgram, fault: F::Fault) -> bool {
    let shapes = prog.shapes();
    ||| f.input_gives(input_data(prog), shapes[0], Err(fault))
    ||| exists|regs: Seq<F::Tensor>|
        #![trigger is_begun(f, prog, regs)]
        is_begun(f, prog, regs) && regs.len() < shapes.len() && f.eval_gives(
            regs,
            shapes.take(regs.len() as int),
            prog.ops@[regs.len() - 1],
            Err(fault),
        )
    ||| exists|regs: Seq<F::Tensor>| #[trigger]
        is_run(f, prog, regs) && f.reads_as(regs.last(), Err(fault))
}

/// Whether `r` is what running `prog` comes to.
pub open spec fn is_result<F: Framework>(
    f: &F,
    prog: TensorProgram,
    r: Result<Vec<u32>, F::Fault>,
) -> bool {
    match r {
        Ok(bits) => exists|regs: Seq<F::Tensor>| #[trigger]
            is_run(f, prog, regs) && f.reads_as(regs.last(), Ok(bits@)),
        Err(fault) => is_run_fault(f, prog, fault),
    }
}

/// Run a tensor program; what is returned is the last register read out, or the
/// framework's first fault.
pub fn eval_program<F: Framework>(f: &F, prog: &TensorProgram) -> (r: Result<Vec<u32>, F::Fault>)
    ensures
        r matches Ok(bits) ==> exists|regs: Seq<F::Tensor>| #[trigger]
            is_run(f, *prog, regs) && f.reads_as(regs.last(), Ok(bits@)),
        r matches Err(fault) ==> is_run_fault(f, *prog, fault),
        is_result(f, *prog, r),
{
    let total: usize = prog.ops.len();
    proof {
        prog.runs_until_the_cap();
        prog.registers_are_valid(total as int);
    }
    let plan = prog.plan();
    let first = plan.shapes[0];
    let data = bytes_to_floats(prog.values.as_slice(), first.elements());
    let mut regs: Vec<F::Tensor> = Vec::new();
    match f.input(data.as_slice(), first) {
        Ok(t) => {
            regs.push(t);
        },
        Err(fault) => {
            return Err(fault);
        },
    }
    let mut i: usize = 0;
    while i < plan.steps.len()
        invariant
            total == prog.ops@.len(),
            plan.shapes@ == prog.shapes(),
            plan.steps@ == prog.steps(),
            plan.shapes@.len() == plan.steps@.len() + 1,
            plan.shapes@.len() <= total + 1,
            forall|k: int| 0 <= k < plan.shapes@.len() ==> (#[trigger] plan.shapes@[k]).valid(),
            i <= plan.steps.len(),
            regs@.len() == i + 1,
            is_begun(f, *prog, regs@),
        decreases plan.steps.len() - i,
    {
        proof {
            prog.runs_until_the_cap();
            assert(prog.step(i as int).legal(plan.shapes@.take(i + 1)));
            assert(plan.shapes@[i + 1].valid());
        }
        let before = slice_subrange(plan.shapes.as_slice(), 0, i + 1);
        assert(before@ =~= plan.shapes@.take(i + 1));
        let ghost older = regs@;
        match f.eval(regs.as_slice(), before, &prog.ops[i], &plan.steps[i]) {
            Ok(t) => {
                regs.push(t);
            },
            Err(fault) => {
                return Err(fault);
            },
        }
        proof {
            assert(regs@.take(i + 1) =~= older);
            assert forall|j: int| 0 <= j < regs@.len() - 1 implies #[trigger] step_is_done(
                f,
                *prog,
                regs@,
                j,
            ) by {
                if j < i {
                    assert(step_is_done(f, *prog, older, j));
                    assert(regs@.take(j + 1) =~= older.take(j + 1));
                }
            }
            assert forall|j: int| 0 <= j < regs@.len() implies f.has_shape(
                #[trigger] regs@[j],
                plan.shapes@[j],
            ) by {
                if j <= i {
                    assert(f.has_shape(older[j], plan.shapes@[j]));
                }
            }
        }
        i = i + 1;
    }
    assert(is_run(f, *prog, regs@));
    f.to_vec(&regs[regs.len() - 1])
}

/// Whether `r` is what the framework may make of `action` among earlier registers.
pub open spec fn is_made_by<F: Framework>(
    f: &F,
    prog: AutogradProgram,
    action: Action,
    regs: Seq<F::Tensor>,
    shapes: Seq<Shape2>,
    r: Result<F::Tensor, F::Fault>,
) -> bool {
    match action {
        Action::Leaf { pool, shape } => f.leaf_gives(
            regs,
            floats(prog.seed_bytes(pool as int), shape.0 * shape.1),
            shape,
            r,
        ),
        Action::Alias(src) => r matches Ok(t) && f.alias_gives(regs[src as int], t),
        Action::Eval(instr, _) => f.eval_gives(regs, shapes, instr, r),
    }
}

/// Whether `regs` are the first registers of a run of `prog`: what the framework
/// made of each action, in order, every register with the shape that the program
/// predicts.
pub open spec fn is_grad_begun<F: Framework>(
    f: &F,
    prog: AutogradProgram,
    max_leaves: int,
    regs: Seq<F::Tensor>,
) -> bool {
    let state = prog.run_state(max_leaves);
    &&& regs.len() <= state.shapes.len()
    &&& forall|i: int|
        0 <= i < regs.len() ==> is_made_by(
            f,
            prog,
            #[trigger] state.actions[i],
            regs.take(i),
            state.shapes.take(i),
            Ok(regs[i]),
        )
    &&& forall|i: int| 0 <= i < regs.len() ==> f.has_shape(#[trigger] regs[i], state.shapes[i])
}

/// Whether `regs` are all registers of a run of `prog`.
pub open spec fn is_grad_run<F: Framework>(
    f: &F,
    prog: AutogradProgram,
    max_leaves: int,
    regs: Seq<F::Tensor>,
) -> bool {
    is_grad_begun(f, prog, max_leaves, regs) && regs.len() == prog.run_state(
        max_leaves,
    ).shapes.len()
}

/// Whether `fault` is how the framework fails on the next action after the first
/// registers of a run.
pub open spec fn is_action_fault<F: Framework>(
    f: &F,
    prog: AutogradProgram,
    max_leaves: int,
    fault: F::Fault,
) -> bool {
    let state = prog.run_state(max_leaves);
    exists|regs: Seq<F::Tensor>|
        #![trigger is_grad_begun(f, prog, max_leaves, regs)]
        is_grad_begun(f, prog, max_leaves, regs) && regs.len() < state.shapes.len() && is_made_by(
            f,
            prog,
            state.actions[regs.len() as int],
            regs,
            state.shapes.take(regs.len() as int),
            Err(fault),
        )
}

/// Whether `bits` is what is reported for a leaf of the given shape: the gradient
/// read out, or zeros of the leaf's shape where there is none.
pub open spec fn is_leaf_report<F: Framework>(
    f: &F,
    grads: F::Grads,
    leaf: F::Tensor,
    shape: Shape2,
    bits: Seq<u32>,
) -> bool {
    ||| exists|g: F::Tensor| #[trigger]
        f.grad_gives(grads, leaf, Some(g)) && f.reads_as(g, Ok(bits))
    ||| f.grad_gives(grads, leaf, None) && bits == Seq::new(
        (shape.0 * shape.1) as nat,
        |i: int| 0u32,
    )
}

/// Whether `reports` is what a run with the given registers reports: a backward
/// pass from the last register, and one report for each leaf, in the order of their
/// introduction.
pub open spec fn is_grad_report<F: Framework>(
    f: &F,
    prog: AutogradProgram,
    max_leaves: int,
    regs: Seq<F::Tensor>,
    reports: Seq<Vec<u32>>,
) -> bool {
    let state = prog.run_state(max_leaves);
    &&& is_grad_run(f, prog, max_leaves, regs)
    &&& reports.len() == state.leaves.len()
    &&& exists|grads: F::Grads| #[trigger]
        f.backward_gives(regs.last(), Ok(grads)) && forall|k: int|
            0 <= k < reports.len() ==> is_leaf_report(
                f,
                grads,
                regs[state.leaves[k] as int],
                state.shapes[state.leaves[k] as int],
                (#[trigger] reports[k])@,
            )
}

/// Whether `fault` is how the framework fails on reading out a gradient of a run.
pub open spec fn is_reading_fault<F: Framework>(
    f: &F,
    prog: AutogradProgram,
    max_leaves: int,
    regs: Seq<F::Tensor>,
    fault: F::Fault,
) -> bool {
    let leaves = prog.run_state(max_leaves).leaves;
    exists|grads: F::Grads, k: int, g: F::Tensor|
        #![trigger f.grad_gives(grads, regs[leaves[k] as int], Some(g))]
        0 <= k < leaves.len() && f.backward_gives(regs.last(), Ok(grads)) && f.grad_gives(
            grads,
            regs[leaves[k] as int],
            Some(g),
        ) && f.reads_as(g, Err(fault))
}

/// Whether `fault` is how the framework fails on `prog`: making a register, in the
/// backward pass of a run, or reading out one of its gradients.
pub open spec fn is_grad_fault<F: Framework>(
    f: &F,
    prog: AutogradProgram,
    max_leaves: int,
    fault: F::Fault,
) -> bool {
    ||| is_action_fault(f, prog, max_leaves, fault)
    ||| exists|regs: Seq<F::Tensor>|
        #![trigger is_grad_run(f, prog, max_leaves, regs)]
        is_grad_run(f, prog, max_leaves, regs) && (f.backward_gives(regs.last(), Err(fault))
            || is_reading_fault(f, prog, max_leaves, regs, fault))
}

/// Zeros in the shape of a leaf: the bit pattern of zero, once for each element.
pub fn zeros_of(shape: Shape2) -> (r: Vec<u32>)
    requires
        shape.valid(),
    ensures
        r@ == Seq::new((shape.0 * shape.1) as nat, |i: int| 0u32),
{
    let n: usize = shape.elements();
    let mut zeros: Vec<u32> = Vec::new();
    let mut i: usize = 0;
    while i < n
        invariant
            i <= n,
            zeros@ == Seq::new(i as nat, |j: int| 0u32),
        decreases n - i,
    {
        zeros.push(0);
        i = i + 1;
        assert(zeros@ =~= Seq::new(i as nat, |j: int| 0u32));
    }
    zeros
}

/// Make every register of an autograd program.
fn run_actions<F: Framework>(f: &F, prog: &AutogradProgram, max_leaves: usize) -> (r: Result<
    Vec<F::Tensor>,
    F::Fault,
>)
    ensures
        r matches Ok(regs) ==> is_grad_run(f, *prog, max_leaves as int, regs@),
        r matches Err(fault) ==> is_action_fault(f, *prog, max_leaves as int, fault),
{
    let total: usize = prog.ops.len();
    let ghost most = max_leaves as int;
    let ghost state = prog.run_state(most);
    proof {
        prog.run_is_well_built(most, total as int);
    }
    let plan = prog.plan(max_leaves);
    let mut regs: Vec<F::Tensor> = Vec::new();
    let mut i: usize = 0;
    while i < plan.actions.len()
        invariant
            most == max_leaves,
            state == prog.run_state(most),
            state.consistent(),
            state.well_built(),
            forall|k: int| 0 <= k < state.shapes.len() ==> (#[trigger] state.shapes[k]).valid(),
            plan.shapes@ == state.shapes,
            plan.actions@ == state.actions,
            i <= plan.actions.len(),
            regs@.len() == i,
            is_grad_begun(f, *prog, most, regs@),
        decreases plan.actions.len() - i,
    {
        let action = plan.actions[i];
        assert(action == state.actions[i as int]);
        assert(state.shapes[i as int].valid());
        let made: Result<F::Tensor, F::Fault> = match action {
            Action::Leaf { pool, shape } => {
                assert(state.shapes[i as int] == shape);
                let data: Vec<u32> = if pool < prog.leaf_seeds.len() {
                    bytes_to_floats(prog.leaf_seeds[pool].as_slice(), shape.elements())
                } else {
                    let none: Vec<u8> = Vec::new();
                    assert(none@ =~= prog.seed_bytes(pool as int));
                    bytes_to_floats(none.as_slice(), shape.elements())
                };
                f.leaf(regs.as_slice(), data.as_slice(), shape)
            },
            Action::Alias(src) => {
                assert(f.has_shape(regs@[src as int], state.shapes[src as int]));
                Ok(f.alias(&regs[src]))
            },
            Action::Eval(instr, op) => {
                let before = slice_subrange(plan.shapes.as_slice(), 0, i);
                assert(before@ =~= state.shapes.take(i as int));
                assert(state.actions[0] is Leaf) by {
                    assert(state.actions[state.leaves[0] as int] is Leaf);
                }
                f.eval(regs.as_slice(), before, &instr, &op)
            },
        };
        assert(regs@.take(i as int) =~= regs@);
        assert(is_made_by(f, *prog, action, regs@, state.shapes.take(i as int), made));
        let ghost older = regs@;
        match made {
            Ok(t) => {
                regs.push(t);
            },
            Err(fault) => {
                return Err(fault);
            },
        }
        proof {
            assert(regs@.take(i as int) =~= older);
            assert forall|j: int| 0 <= j < regs@.len() implies is_made_by(
                f,
                *prog,
                #[trigger] state.actions[j],
                regs@.take(j),
                state.shapes.take(j),
                Ok(regs@[j]),
            ) by {
                if j < i {
                    assert(regs@.take(j) =~= older.take(j));
                }
            }
            assert forall|j: int| 0 <= j < regs@.len() implies f.has_shape(
                #[trigger] regs@[j],
                state.shapes[j],
            ) by {
                if j < i {
                    assert(f.has_shape(older[j], state.shapes[j]));
                }
            }
        }
        i = i + 1;
    }
    Ok(regs)
}

/// Whether `r` is what running `prog` with the given leaf cap and differentiating it comes
/// to.
pub open spec fn is_gradient_result<F: Framework>(
    f: &F,
    prog: AutogradProgram,
    max_leaves: int,
    r: Result<Vec<Vec<u32>>, F::Fault>,
) -> bool {
    match r {
        Ok(reports) => exists|regs: Seq<F::Tensor>| #[trigger]
            is_grad_report(f, prog, max_leaves, regs, reports@),
        Err(fault) => is_grad_fault(f, prog, max_leaves, fault),
    }
}

/// Run an autograd program; what is returned is one gradient for each leaf, in the
/// order of their introduction, zeros of the leaf's shape where a leaf never reached
/// the root, or the framework's first fault.
pub fn collect_grads<F: Framework>(f: &F, prog: &AutogradProgram, config: &FuzzConfig) -> (r:
    Result<Vec<Vec<u32>>, F::Fault>)
    ensures
        r matches Ok(reports) ==> exists|regs: Seq<F::Tensor>| #[trigger]
            is_grad_report(f, *prog, config.max_leaves as int, regs, reports@),
        r matches Err(fault) ==> is_grad_fault(f, *prog, config.max_leaves as int, fault),
        is_gradient_result(f, *prog, config.max_leaves as int, r),
{
    let total: usize = prog.ops.len();
    let ghost most = config.max_leaves as int;
    let ghost state = prog.run_state(most);
    proof {
        prog.run_is_well_built(most, total as int);
    }
    let plan = prog.plan(config.max_leaves);
    let regs: Vec<F::Tensor> = match run_actions(f, prog, config.max_leaves) {
        Ok(regs) => regs,
        Err(fault) => {
            return Err(fault);
        },
    };
    let grads: F::Grads = match f.backward(&regs[regs.len() - 1]) {
        Ok(grads) => grads,
        Err(fault) => {
            return Err(fault);
        },
    };
    let mut reports: Vec<Vec<u32>> = Vec::new();
    let mut k: usize = 0;
    while k < plan.leaves.len()
        invariant
            most == config.max_leaves,
            state == prog.run_state(most),
            state.consistent(),
            forall|i: int| 0 <= i < state.shapes.len() ==> (#[trigger] state.shapes[i]).valid(),
            plan.shapes@ == state.shapes,
            plan.leaves@ == state.leaves,
            is_grad_run(f, *prog, most, regs@),
            f.backward_gives(regs@.last(), Ok(grads)),
            k <= plan.leaves.len(),
            reports@.len() == k,
            forall|j: int|
                0 <= j < k ==> is_leaf_report(
                    f,
                    grads,
                    regs@[state.leaves[j] as int],
                    state.shapes[state.leaves[j] as int],
                    (#[trigger] reports@[j])@,
                ),
        decreases plan.leaves.len() - k,
    {
        let reg: usize = plan.leaves[k];
        assert(reg == state.leaves[k as int]);
        let report: Vec<u32> = match f.grad(&grads, &regs[reg]) {
            Some(g) => match f.to_vec(&g) {
                Ok(bits) => bits,
                Err(fault) => {
                    assert(f.grad_gives(
                        grads,
                        regs@[state.leaves[k as int] as int],
                        Some(g),
                    ));
                    assert(is_reading_fault(f, *prog, most, regs@, fault));
                    return Err(fault);
                },
            },
            None => zeros_of(plan.shapes[reg]),
        };
        reports.push(report);
        k = k + 1;
    }
    assert(is_grad_report(f, *prog, most, regs@, reports@));
    let ghost out = reports@;
    let result: Result<Vec<Vec<u32>>, F::Fault> = Ok(reports);
    assert(result->Ok_0@ == out);
    result
}

/// Two frameworks run the same program: a run of either has the same number of
/// registers, whose data, instructions, operands and shapes the program alone
/// determines.
pub proof fn frameworks_run_the_same_program<F: Framework, G: Framework>(
    f: &F,
    g: &G,
    prog: TensorProgram,
    left: Seq<F::Tensor>,
    right: Seq<G::Tensor>,
)
    requires
        prog.ops@.len() <= usize::MAX,
        is_run(f, prog, left),
        is_run(g, prog, right),
    ensures
        left.len() == right.len(),
        1 <= left.len() <= prog.ops@.len() + 1,
        f.input_gives(input_data(prog), prog.input_shape(), Ok(left[0])),
        g.input_gives(input_data(prog), prog.input_shape(), Ok(right[0])),
        forall|i: int|
            0 <= i < left.len() - 1 ==> {
                let shapes = prog.shapes().take(i + 1);
                let instr = prog.ops@[i];
                &&& f.eval_gives(left.take(i + 1), shapes, instr, Ok(left[i + 1]))
                &&& g.eval_gives(right.take(i + 1), shapes, instr, Ok(right[i + 1]))
                &&& #[trigger] prog.step(i) == crate::resolve::resolution(shapes, instr)
                &&& prog.step(i).legal(shapes)
            },
        forall|i: int|
            0 <= i < left.len() ==> f.has_shape(#[trigger] left[i], prog.shapes()[i])
                && g.has_shape(right[i], prog.shapes()[i]),
{
    prog.runs_until_the_cap();
    assert forall|i: int| 0 <= i < left.len() - 1 implies {
        let shapes = prog.shapes().take(i + 1);
        let instr = prog.ops@[i];
        &&& f.eval_gives(left.take(i + 1), shapes, instr, Ok(left[i + 1]))
        &&& g.eval_gives(right.take(i + 1), shapes, instr, Ok(right[i + 1]))
        &&& #[trigger] prog.step(i) == crate::resolve::resolution(shapes, instr)
        &&& prog.step(i).legal(shapes)
    } by {
        assert(step_is_done(f, prog, left, i));
        assert(step_is_done(g, prog, right, i));
    }
    assert forall|i: int| 0 <= i < left.len() implies f.has_shape(
        #[trigger] left[i],
        prog.shapes()[i],
    ) && g.has_shape(right[i], prog.shapes()[i]) by {
        assert(g.has_shape(right[i], prog.shapes()[i]));
    }
}

/// Two frameworks report gradients for the same leaves: as many as the program has,
/// at least the seed leaf's and no more than the leaf cap allows.
pub proof fn frameworks_report_the_same_leaves<F: Framework, G: Framework>(
    f: &F,
    g: &G,
    prog: AutogradProgram,
    max_leaves: int,
    left: Seq<F::Tensor>,
    right: Seq<G::Tensor>,
    left_reports: Seq<Vec<u32>>,
    right_reports: Seq<Vec<u32>>,
)
    requires
        prog.ops@.len() <= usize::MAX,
        is_grad_report(f, prog, max_leaves, left, left_reports),
        is_grad_report(g, prog, max_leaves, right, right_reports),
    ensures
        left.len() == right.len(),
        left_reports.len() == right_reports.len(),
        1 <= left_reports.len() <= (if max_leaves < 1 {
            1
        } else {
            max_leaves
        }),
{
    let n = prog.ops@.len() as int;
    prog.run_is_well_built(max_leaves, n);
    prog.leaves_respect_the_cap(max_leaves, true, n);
}

/// The printed program shows the run: as many register lines as the run has registers,
/// each with the shape that the register has, and a line for what is skipped exactly if
/// the run leaves instructions out.
pub proof fn a_tensor_listing_shows_the_run<F: Framework>(
    f: &F,
    prog: TensorProgram,
    regs: Seq<F::Tensor>,
)
    requires
        prog.ops@.len() <= usize::MAX,
        is_run(f, prog, regs),
    ensures
        forall|m: int, i: int|
            0 <= m < prog.lines().len() && 0 <= i ==> (crate::text::begins_with(
                #[trigger] prog.lines()[m],
                #[trigger] crate::ops::reg_text(i) + " "@,
            ) <==> m == i + 1 && i < regs.len()),
        forall|i: int|
            0 <= i < regs.len() ==> prog.lines()[i + 1] == #[trigger] prog.register_line(i)
                && f.has_shape(regs[i], prog.shapes()[i]),
        crate::text::occurs("skipped"@, prog.text()) <==> regs.len() < prog.ops@.len() + 1,
{
    prog.runs_until_the_cap();
    prog.one_line_for_each_register();
    prog.skipping_is_said_exactly();
    assert forall|m: int, i: int| 0 <= m < prog.lines().len() && 0 <= i implies (
    crate::text::begins_with(
        #[trigger] prog.lines()[m],
        #[trigger] crate::ops::reg_text(i) + " "@,
    ) <==> m == i + 1 && i < regs.len()) by {
        prog.only_its_line_begins_with_a_register(m, i);
    }
    assert forall|i: int| 0 <= i < regs.len() implies prog.lines()[i + 1]
        == #[trigger] prog.register_line(i) && f.has_shape(regs[i], prog.shapes()[i]) by {
        assert(f.has_shape(regs[i], prog.shapes()[i]));
    }
}

/// The printed program asks for the gradients that are reported: report `k` belongs to
/// gradient line `k`, and there are as many of them as reports exactly if the element cap
/// does not end the run before the last leaf. Each register of the run has its line.
#[verifier::rlimit(40)]
pub proof fn an_autograd_listing_shows_the_run<F: Framework>(
    f: &F,
    prog: AutogradProgram,
    max_leaves: int,
    regs: Seq<F::Tensor>,
    reports: Seq<Vec<u32>>,
)
    requires
        prog.ops@.len() <= usize::MAX,
        0 <= max_leaves,
        prog.listable(max_leaves),
        is_grad_report(f, prog, max_leaves, regs, reports),
    ensures
        forall|m: int|
            0 <= m < prog.lines(max_leaves).len() ==> (crate::text::begins_with(
                #[trigger] prog.lines(max_leaves)[m],
                "grad r"@,
            ) <==> prog.ops@.len() + 3 <= m),
        prog.lines(max_leaves).len() >= prog.ops@.len() + 3 + reports.len(),
        prog.lines(max_leaves).len() == prog.ops@.len() + 3 + reports.len() <==> prog.list_state(
            max_leaves,
        ).leaves.last() < regs.len(),
        !prog.run_state(max_leaves).halted ==> prog.lines(max_leaves).len() == prog.ops@.len() + 3
            + reports.len() && regs.len() == prog.ops@.len() + 1,
        forall|k: int|
            0 <= k < reports.len() ==> #[trigger] prog.lines(max_leaves)[prog.ops@.len() + 3 + k]
                == prog.grad_request(max_leaves, prog.run_state(max_leaves).leaves[k]),
        forall|i: int|
            0 <= i < regs.len() ==> prog.lines(max_leaves)[i + 1]
                == #[trigger] prog.register_line(max_leaves, i) && f.has_shape(
                regs[i],
                prog.list_state(max_leaves).shapes[i],
            ),
{
    let n = prog.ops@.len() as int;
    let run = prog.run_state(max_leaves);
    let list = prog.list_state(max_leaves);
    prog.the_listing_begins_with_the_run(max_leaves, n);
    prog.run_is_well_built(max_leaves, n);
    prog.list_is_well_built(max_leaves, n);
    prog.one_line_for_each_register_and_gradient(max_leaves);
    assert forall|m: int| 0 <= m < prog.lines(max_leaves).len() implies (crate::text::begins_with(
        #[trigger] prog.lines(max_leaves)[m],
        "grad r"@,
    ) <==> prog.ops@.len() + 3 <= m) by {
        prog.only_the_last_lines_ask_for_gradients(max_leaves, m);
    }
    assert forall|k: int| 0 <= k < reports.len() implies #[trigger] prog.lines(max_leaves)[n + 3
        + k] == prog.grad_request(max_leaves, run.leaves[k]) by {
        assert(run.leaves[k] == list.leaves[k]);
    }
    assert forall|i: int| 0 <= i < regs.len() implies prog.lines(max_leaves)[i + 1]
        == #[trigger] prog.register_line(max_leaves, i) && f.has_shape(
        regs[i],
        list.shapes[i],
    ) by {
        assert(f.has_shape(regs[i], run.shapes[i]));
        assert(run.shapes[i] == list.shapes[i]);
    }
    if run.leaves.len() == list.leaves.len() {
        assert(list.leaves.last() == run.leaves.last());
    }
}

/// The data that seed bytes stand for: element `i` is byte `i` of the seed bytes, taken over
/// and over, less 128, in parts of 128; without seed bytes every element is one half. Its
/// bits are those of that number in the format of 32-bit floating-point numbers.
pub proof fn seed_bytes_are_cycled_and_centred(raw: Seq<u8>, n: int, i: int)
    requires
        0 <= i < n,
    ensures
        floats(raw, n).len() == n,
        raw.len() > 0 ==> floats(raw, n)[i] == crate::float::float_bits(
            raw[i % (raw.len() as int)] - 128,
        ),
        raw.len() == 0 ==> floats(raw, n)[i] == crate::float::float_bits(64),
        raw.len() > 0 && i + raw.len() < n ==> floats(raw, n)[i + raw.len()] == floats(raw, n)[i],
        raw.len() == 0 ==> floats(raw, n)[i] == 0x3f000000,
{
    data_is_bounded_and_exact(raw, n, i);
    crate::float::samples_are_exact(sample(raw, i));
    if raw.len() > 0 {
        let len = raw.len() as int;
        assert(0 <= i % len < len);
        vstd::arithmetic::div_mod::lemma_mod_add_multiples_vanish(i, len);
        if i + len < n {
            crate::float::samples_are_exact(sample(raw, i + len));
            assert((i + len) % len == i % len);
        }
    } else {
        crate::float::the_bits_follow_the_number(64);
    }
}

/// What a run of a tensor program is, step by step: the framework is asked for an input with
/// the shape of the first register and the data of the seed bytes, as many elements as the
/// shape has, and then for each instruction in turn, on the registers that there are and
/// with their shapes.
pub proof fn a_run_asks_for_each_instruction_in_turn<F: Framework>(
    f: &F,
    prog: TensorProgram,
    regs: Seq<F::Tensor>,
)
    requires
        prog.ops@.len() <= usize::MAX,
        is_run(f, prog, regs),
    ensures
        ({
            let shapes = prog.shapes();
            let count = shapes[0].0 * shapes[0].1;
            &&& regs.len() == shapes.len()
            &&& input_data(prog).len() == count
            &&& forall|j: int|
                0 <= j < count ==> #[trigger] input_data(prog)[j] == floats(prog.values@, count)[j]
            &&& f.input_gives(input_data(prog), shapes[0], Ok(regs[0]))
            &&& forall|i: int|
                0 <= i < regs.len() - 1 ==> f.eval_gives(
                    regs.take(i + 1),
                    shapes.take(i + 1),
                    #[trigger] prog.ops@[i],
                    Ok(regs[i + 1]),
                )
        }),
{
    prog.runs_until_the_cap();
    let shapes = prog.shapes();
    let count = shapes[0].0 * shapes[0].1;
    assert(count >= 0) by (nonlinear_arith)
        requires
            count == shapes[0].0 * shapes[0].1,
    ;
    assert forall|i: int| 0 <= i < regs.len() - 1 implies f.eval_gives(
        regs.take(i + 1),
        shapes.take(i + 1),
        #[trigger] prog.ops@[i],
        Ok(regs[i + 1]),
    ) by {
        assert(step_is_done(f, prog, regs, i));
    }
}

/// What a run of an autograd program is, step by step: a leaf is asked for with the data of
/// its own seed bytes, or of none where the pool is empty, an alias with the register that it
/// refers to, and any other register as the instruction that it comes from, on the registers
/// that there are and with their shapes.
pub proof fn a_gradient_run_asks_for_each_register_in_turn<F: Framework>(
    f: &F,
    prog: AutogradProgram,
    max_leaves: int,
    regs: Seq<F::Tensor>,
    i: int,
)
    requires
        prog.ops@.len() <= usize::MAX,
        is_grad_run(f, prog, max_leaves, regs),
        0 <= i < regs.len(),
    ensures
        ({
            let state = prog.run_state(max_leaves);
            let before = regs.take(i);
            &&& regs.len() == state.shapes.len()
            &&& match state.actions[i] {
                Action::Leaf { pool, shape } => {
                    let count = shape.0 * shape.1;
                    let data = if pool < prog.leaf_seeds@.len() {
                        floats(prog.leaf_seeds@[pool as int]@, count)
                    } else {
                        floats(Seq::empty(), count)
                    };
                    &&& data.len() == count
                    &&& f.leaf_gives(before, data, shape, Ok(regs[i]))
                },
                Action::Alias(src) => src < i && f.alias_gives(regs[src as int], regs[i]),
                Action::Eval(instr, _) => i > 0 && prog.ops@[i - 1] == crate::ops::DiffOp::Instr(
                    instr,
                ) && f.eval_gives(before, state.shapes.take(i), instr, Ok(regs[i])),
            }
        }),
{
    let state = prog.run_state(max_leaves);
    let n = prog.ops@.len() as int;
    prog.run_is_well_built(max_leaves, n);
    prog.the_first_register_is_the_seed_leaf(max_leaves, true, n);
    if i > 0 {
        prog.registers_come_from_the_instructions(max_leaves, true, n, i);
    }
    assert(is_made_by(
        f,
        prog,
        state.actions[i],
        regs.take(i),
        state.shapes.take(i),
        Ok(regs[i]),
    ));
    if let Action::Leaf { shape, .. } = state.actions[i] {
        assert(shape.0 * shape.1 >= 0) by (nonlinear_arith);
    }
}

/// What is reported of a leaf is the gradient that the framework has for it, read out, or,
/// where it has none, a zero for each element of the leaf.
pub proof fn a_leaf_is_reported_by_its_gradient_or_by_zeros<F: Framework>(
    f: &F,
    grads: F::Grads,
    leaf: F::Tensor,
    shape: Shape2,
    bits: Seq<u32>,
)
    requires
        is_leaf_report(f, grads, leaf, shape, bits),
    ensures
        (exists|g: F::Tensor| #[trigger]
            f.grad_gives(grads, leaf, Some(g)) && f.reads_as(g, Ok(bits))) || {
            &&& f.grad_gives(grads, leaf, None)
            &&& bits.len() == shape.0 * shape.1
            &&& forall|j: int| 0 <= j < bits.len() ==> #[trigger] bits[j] == 0
        },
{
    assert(shape.0 * shape.1 >= 0) by (nonlinear_arith);
}

/// What is reported of an autograd run: the backward pass starts from the last register, and
/// there is one report for each register that is a leaf, in the order of the registers.
pub proof fn one_gradient_is_reported_for_each_leaf<F: Framework>(
    f: &F,
    prog: AutogradProgram,
    max_leaves: int,
    regs: Seq<F::Tensor>,
    reports: Seq<Vec<u32>>,
) -> (grads: F::Grads)
    requires
        prog.ops@.len() <= usize::MAX,
        is_grad_report(f, prog, max_leaves, regs, reports),
    ensures
        is_grad_run(f, prog, max_leaves, regs),
        reports.len() == prog.run_state(max_leaves).leaves.len(),
        forall|i: int|
            0 <= i < regs.len() && (#[trigger] prog.run_state(max_leaves).actions[i]) is Leaf
                ==> exists|k: int|
                0 <= k < reports.len() && (#[trigger] prog.run_state(max_leaves).leaves[k]) == i,
        forall|j: int, k: int|
            0 <= j < k < reports.len() ==> (#[trigger] prog.run_state(max_leaves).leaves[j]) < (
            #[trigger] prog.run_state(max_leaves).leaves[k]),
        f.backward_gives(regs[regs.len() - 1], Ok(grads)),
        forall|k: int|
            0 <= k < reports.len() ==> is_leaf_report(
                f,
                grads,
                regs[prog.run_state(max_leaves).leaves[k] as int],
                prog.run_state(max_leaves).shapes[prog.run_state(max_leaves).leaves[k] as int],
                (#[trigger] reports[k])@,
            ),
{
    let state = prog.run_state(max_leaves);
    prog.run_is_well_built(max_leaves, prog.ops@.len() as int);
    assert forall|i: int|
        0 <= i < regs.len() && (#[trigger] state.actions[i]) is Leaf implies exists|k: int|
        0 <= k < reports.len() && (#[trigger] state.leaves[k]) == i by {
        assert(state.leaves.contains(i as usize));
        let k = state.leaves.index_of(i as usize);
        assert(state.leaves[k] == i);
    }
    let grads = choose|grads: F::Grads| #[trigger]
        f.backward_gives(regs.last(), Ok(grads)) && forall|k: int|
            0 <= k < reports.len() ==> is_leaf_report(
                f,
                grads,
                regs[state.leaves[k] as int],
                state.shapes[state.leaves[k] as int],
                (#[trigger] reports[k])@,
            );
    grads
}

/// A fault of a tensor run is one that the framework answered with: to the input; to an
/// instruction after it had made all registers before; or to reading the last register.
pub proof fn a_fault_is_an_answer_of_the_framework<F: Framework>(
    f: &F,
    prog: TensorProgram,
    fault: F::Fault,
) -> (regs: Seq<F::Tensor>)
    requires
        prog.ops@.len() <= usize::MAX,
        is_run_fault(f, prog, fault),
    ensures
        ({
            let shapes = prog.shapes();
            let n = regs.len() as int;
            ||| f.input_gives(input_data(prog), shapes[0], Err(fault))
            ||| is_begun(f, prog, regs) && n < shapes.len() && f.eval_gives(
                regs,
                shapes.take(n),
                prog.ops@[n - 1],
                Err(fault),
            )
            ||| is_run(f, prog, regs) && f.reads_as(regs[n - 1], Err(fault))
        }),
{
    let shapes = prog.shapes();
    if f.input_gives(input_data(prog), shapes[0], Err(fault)) {
        Seq::empty()
    } else if exists|regs: Seq<F::Tensor>| #[trigger]
        is_run(f, prog, regs) && f.reads_as(regs.last(), Err(fault)) {
        choose|regs: Seq<F::Tensor>| #[trigger]
            is_run(f, prog, regs) && f.reads_as(regs.last(), Err(fault))
    } else {
        choose|regs: Seq<F::Tensor>|
            #![trigger is_begun(f, prog, regs)]
            is_begun(f, prog, regs) && regs.len() < shapes.len() && f.eval_gives(
                regs,
                shapes.take(regs.len() as int),
                prog.ops@[regs.len() - 1],
                Err(fault),
            )
    }
}

/// What the first registers of a tensor run are: at least the input and at most as many as
/// the program has, each made of what stands before it and of the shape that the program
/// predicts.
pub proof fn a_run_is_begun_with_the_input<F: Framework>(
    f: &F,
    prog: TensorProgram,
    regs: Seq<F::Tensor>,
)
    requires
        is_begun(f, prog, regs),
    ensures
        1 <= regs.len() <= prog.shapes().len(),
        f.input_gives(input_data(prog), prog.shapes()[0], Ok(regs[0])),
        forall|i: int|
            0 <= i < regs.len() - 1 ==> f.eval_gives(
                regs.take(i + 1),
                prog.shapes().take(i + 1),
                #[trigger] prog.ops@[i],
                Ok(regs[i + 1]),
            ),
        forall|i: int|
            0 <= i < regs.len() ==> f.has_shape(#[trigger] regs[i], prog.shapes()[i]),
{
    assert forall|i: int| 0 <= i < regs.len() - 1 implies f.eval_gives(
        regs.take(i + 1),
        prog.shapes().take(i + 1),
        #[trigger] prog.ops@[i],
        Ok(regs[i + 1]),
    ) by {
        assert(step_is_done(f, prog, regs, i));
    }
}

/// A fault of an autograd run is one that the framework answered with: to the register after
/// those it had made; to the backward pass from the last register; or to reading the
/// gradient that it had for a leaf.
pub proof fn a_gradient_fault_is_an_answer_of_the_framework<F: Framework>(
    f: &F,
    prog: AutogradProgram,
    max_leaves: int,
    fault: F::Fault,
) -> (regs: Seq<F::Tensor>)
    requires
        is_grad_fault(f, prog, max_leaves, fault),
    ensures
        ({
            let state = prog.run_state(max_leaves);
            let n = regs.len() as int;
            ||| is_grad_begun(f, prog, max_leaves, regs) && n < state.shapes.len() && match
                state.actions[n] {
                Action::Leaf { pool, shape } => f.leaf_gives(
                    regs,
                    floats(prog.seed_bytes(pool as int), shape.0 * shape.1),
                    shape,
                    Err(fault),
                ),
                Action::Alias(_) => false,
                Action::Eval(instr, _) => f.eval_gives(
                    regs,
                    state.shapes.take(n),
                    instr,
                    Err(fault),
                ),
            }
            ||| is_grad_run(f, prog, max_leaves, regs) && f.backward_gives(regs[n - 1], Err(fault))
            ||| is_grad_run(f, prog, max_leaves, regs) && exists|
                grads: F::Grads,
                k: int,
                g: F::Tensor,
            |
                #![trigger f.grad_gives(grads, regs[state.leaves[k] as int], Some(g))]
                0 <= k < state.leaves.len() && f.backward_gives(regs[n - 1], Ok(grads))
                    && f.grad_gives(grads, regs[state.leaves[k] as int], Some(g)) && f.reads_as(
                    g,
                    Err(fault),
                )
        }),
{
    let state = prog.run_state(max_leaves);
    if is_action_fault(f, prog, max_leaves, fault) {
        choose|regs: Seq<F::Tensor>|
            #![trigger is_grad_begun(f, prog, max_leaves, regs)]
            is_grad_begun(f, prog, max_leaves, regs) && regs.len() < state.shapes.len()
                && is_made_by(
                f,
                prog,
                state.actions[regs.len() as int],
                regs,
                state.shapes.take(regs.len() as int),
                Err(fault),
            )
    } else {
        choose|regs: Seq<F::Tensor>|
            #![trigger is_grad_run(f, prog, max_leaves, regs)]
            is_grad_run(f, prog, max_leaves, regs) && (f.backward_gives(regs.last(), Err(fault))
                || is_reading_fault(f, prog, max_leaves, regs, fault))
    }
}

/// What running a tensor program comes to is the last of all its registers, read out.
pub proof fn the_last_register_is_read_out<F: Framework>(
    f: &F,
    prog: TensorProgram,
    bits: Vec<u32>,
) -> (regs: Seq<F::Tensor>)
    requires
        is_result(f, prog, Ok(bits)),
    ensures
        is_run(f, prog, regs),
        regs.len() == prog.shapes().len(),
        f.reads_as(regs[prog.shapes().len() - 1], Ok(bits@)),
{
    choose|regs: Seq<F::Tensor>| #[trigger]
        is_run(f, prog, regs) && f.reads_as(regs.last(), Ok(bits@))
}

/// What differentiating an autograd program comes to is the report of a whole run with the
/// leaf cap that is given.
pub proof fn a_whole_run_is_reported<F: Framework>(
    f: &F,
    prog: AutogradProgram,
    max_leaves: int,
    reports: Vec<Vec<u32>>,
) -> (regs: Seq<F::Tensor>)
    requires
        is_gradient_result(f, prog, max_leaves, Ok(reports)),
    ensures
        is_grad_report(f, prog, max_leaves, regs, reports@),
        regs.len() == prog.run_state(max_leaves).shapes.len(),
        reports@.len() == prog.run_state(max_leaves).leaves.len(),
{
    choose|regs: Seq<F::Tensor>| #[trigger]
        is_grad_report(f, prog, max_leaves, regs, reports@)
}

/// Neither a run nor a report of gradients fails but by a fault of the framework.
pub proof fn only_the_framework_fails<F: Framework>(
    f: &F,
    prog: TensorProgram,
    other: AutogradProgram,
    max_leaves: int,
    fault: F::Fault,
)
    ensures
        is_result(f, prog, Err(fault)) ==> is_run_fault(f, prog, fault),
        is_gradient_result(f, other, max_leaves, Err(fault)) ==> is_grad_fault(
            f,
            other,
            max_leaves,
            fault,
        ),
{
}

} // verus!
