use burnmark::autograd::AutogradProgram;
use burnmark::ops::{DiffOp, Reg, TensorInstr};
use burnmark::program::TensorProgram;
use burnmark::resolve::after_tensor_instr;
use burnmark::shape::Shape2;

#[test]
fn display_shows_resolved_operands_not_raw_reg() {
    let prog = TensorProgram {
        rows: 2,
        cols: 3,
        values: vec![1, 2, 3],
        ops: vec![
            TensorInstr::Neg(Reg(0)),
            TensorInstr::Add(Reg(1), Reg(255)),
        ],
    };
    let s = prog.to_text();
    assert!(
        s.contains("r1 + r1"),
        "expected 'r1 + r1' (Reg(255) % 2 = 1) in:\n{s}"
    );
    assert!(!s.contains("skipped"), "no instructions should be skipped: {s}");
}

#[test]
fn display_shows_fallback_register_when_preferred_b_is_incompatible() {
    let prog = TensorProgram {
        rows: 2,
        cols: 3,
        values: vec![1, 2, 3],
        ops: vec![
            TensorInstr::Transpose(Reg(0)),
            TensorInstr::Add(Reg(0), Reg(1)),
        ],
    };
    let s = prog.to_text();
    assert!(
        s.contains("r0 + r0"),
        "expected fallback 'r0 + r0' ([2×3] incompatible with [3×2]) in:\n{s}"
    );
}

#[test]
fn display_notes_truncation_on_cap_overflow() {
    let mut ops = vec![];
    for i in 0..12u8 {
        ops.push(TensorInstr::Repeat(Reg(i), 0, 4));
    }
    let prog = TensorProgram { rows: 1, cols: 1, values: vec![42], ops };
    let s = prog.to_text();
    assert!(
        s.contains("skipped"),
        "expected truncation note in:\n{s}"
    );
}

#[test]
fn display_shape_annotations_match_predictor() {
    let prog = TensorProgram {
        rows: 3,
        cols: 4,
        values: vec![0u8; 12],
        ops: vec![
            TensorInstr::Transpose(Reg(0)),
            TensorInstr::SumDim(Reg(1), 0),
            TensorInstr::Abs(Reg(2)),
        ],
    };
    let s = prog.to_text();
    assert!(s.contains("[4×3]"), "transpose output shape missing in:\n{s}");
    assert!(s.contains("[1×3]"), "sum_dim output shape missing in:\n{s}");

    let mut shapes = vec![Shape2(3, 4)];
    for instr in &prog.ops {
        let predicted = after_tensor_instr(&shapes, instr);
        shapes.push(predicted);
    }
    assert_eq!(shapes[1], Shape2(4, 3));
    assert_eq!(shapes[2], Shape2(1, 3));
    assert_eq!(shapes[3], Shape2(1, 3));
}

#[test]
fn whole_tensor_listing() {
    let prog = TensorProgram {
        rows: 2,
        cols: 20,
        values: vec![7; 5],
        ops: vec![
            TensorInstr::Transpose(Reg(0)),
            TensorInstr::Matmul(Reg(0), Reg(1)),
            TensorInstr::Concat(Reg(0), Reg(1), 1),
            TensorInstr::PowfScalar(Reg(2), 2),
            TensorInstr::Repeat(Reg(4), 3, 9),
            TensorInstr::Clamp(Reg(5)),
            TensorInstr::SumAll(Reg(6)),
            TensorInstr::MeanDim(Reg(1), 4),
            TensorInstr::Sub(Reg(0), Reg(7)),
        ],
    };
    assert_eq!(
        prog.to_text(),
        "=== TensorProgram [2×16] ===\n\
         r0 [2×16] = input(5 seed bytes)\n\
         r1 [16×2] = r0.T\n\
         r2 [2×2] = r0 @ r1\n\
         r3 [2×18] = cat([r0, r2], dim=1)\n\
         r4 [2×2] = r2.powf(-0.5)\n\
         r5 [2×8] = r4.repeat(dim=1, ×4)\n\
         r6 [2×8] = clamp(r5, -1e6, 1e6)\n\
         r7 [1×1] = sum(r6)  # → [1×1]\n\
         r8 [1×2] = mean(r1, dim=0)\n\
         r9 [2×16] = r0 - r7\n\
         result = r9"
    );
}

#[test]
fn passthroughs_and_the_skip_note_are_shown() {
    let prog = TensorProgram {
        rows: 2,
        cols: 3,
        values: vec![],
        ops: vec![
            TensorInstr::Matmul(Reg(0), Reg(0)),
            TensorInstr::SumDim(Reg(0), 0),
            TensorInstr::Concat(Reg(2), Reg(0), 1),
        ],
    };
    let s = prog.to_text();
    assert!(s.contains("r1 [2×3] = r0  # matmul: no compatible b, passthrough\n"), "{s}");
    assert!(s.contains("r3 [1×6] = cat([r2, r2], dim=1)\n"), "{s}");

    let mut ops = vec![];
    for i in 0..12u8 {
        ops.push(TensorInstr::Repeat(Reg(i), 0, 4));
    }
    let s = TensorProgram { rows: 1, cols: 1, values: vec![42], ops }.to_text();
    assert!(
        s.ends_with(
            "r10 [1048576×1] = r9.repeat(dim=0, ×4)\n\
             ... (2 remaining op(s) skipped: r11 would be [4194304×1])\n\
             result = r10"
        ),
        "{s}"
    );
}

#[test]
fn every_right_hand_side() {
    let r = Reg(0);
    let lines = [
        (TensorInstr::Add(r, r), "r0 + r0"),
        (TensorInstr::Sub(r, r), "r0 - r0"),
        (TensorInstr::Mul(r, r), "r0 * r0"),
        (TensorInstr::Div(r, r), "r0 / r0"),
        (TensorInstr::Matmul(r, r), "r0 @ r0"),
        (TensorInstr::Neg(r), "-r0"),
        (TensorInstr::Abs(r), "abs(r0)"),
        (TensorInstr::Exp(r), "exp(r0)"),
        (TensorInstr::Log(r), "log(r0)"),
        (TensorInstr::Sqrt(r), "sqrt(r0)"),
        (TensorInstr::PowfScalar(r, 3), "r0.powf(0)"),
        (TensorInstr::PowfScalar(r, 8), "r0.powf(-2)"),
        (TensorInstr::PowfScalar(r, 4), "r0.powf(0.5)"),
        (TensorInstr::PowfScalar(r, 255), "r0.powf(3)"),
        (TensorInstr::Relu(r), "relu(r0)"),
        (TensorInstr::Sigmoid(r), "sigmoid(r0)"),
        (TensorInstr::Tanh(r), "tanh(r0)"),
        (TensorInstr::SumAll(r), "sum(r0)  # → [1×1]"),
        (TensorInstr::MeanAll(r), "mean(r0)  # → [1×1]"),
        (TensorInstr::SumDim(r, 1), "sum(r0, dim=1)"),
        (TensorInstr::MeanDim(r, 2), "mean(r0, dim=0)"),
        (TensorInstr::Transpose(r), "r0.T"),
        (TensorInstr::Concat(r, r, 1), "cat([r0, r0], dim=1)"),
        (TensorInstr::Repeat(r, 1, 0), "r0.repeat(dim=1, ×1)"),
        (TensorInstr::Clamp(r), "clamp(r0, -1e6, 1e6)"),
    ];
    for (instr, rhs) in lines {
        assert_eq!(instr.ssa_line("r1", 1), format!("r1 = {rhs}"));
    }
    assert_eq!(TensorInstr::Add(Reg(5), Reg(12)).ssa_line("_", 7), "_ = r5 + r5");
}

/// The listing of a program that was once reduced from a run.
#[test]
fn autograd_listing_of_a_reduced_program() {
    let prog = AutogradProgram {
        rows: 1,
        cols: 16,
        leaf_seeds: vec![vec![9]],
        ops: vec![
            DiffOp::Instr(TensorInstr::PowfScalar(Reg(0), 3)),
            DiffOp::Instr(TensorInstr::PowfScalar(Reg(1), 3)),
            DiffOp::Instr(TensorInstr::PowfScalar(Reg(1), 3)),
            DiffOp::Instr(TensorInstr::Neg(Reg(1))),
            DiffOp::Instr(TensorInstr::SumDim(Reg(2), 0)),
        ],
    };
    assert!(prog.is_listable(8));
    assert_eq!(
        prog.ssa(8),
        "=== AutogradProgram [1×16] (max_leaves=8) ===\n\
         r0 [1×16] = leaf(1×16, 1 seed bytes)  [requires_grad, seed]\n\
         r1 [1×16] = r0.powf(0)\n\
         r2 [1×16] = r1.powf(0)\n\
         r3 [1×16] = r1.powf(0)\n\
         r4 [1×16] = -r1\n\
         r5 [1×16] = sum(r2, dim=0)\n\
         grads = backward(r5)\n\
         grad r0 [1×16] = r0.grad(grads)  # None → zeros if unreachable\n"
    );
}

#[test]
fn autograd_listing_with_leaves_and_aliases() {
    let prog = AutogradProgram {
        rows: 0,
        cols: 200,
        leaf_seeds: vec![vec![1, 2], vec![3, 4, 5]],
        ops: vec![
            DiffOp::Leaf { seed: 7, rows: 2, cols: 5 },
            DiffOp::Instr(TensorInstr::Tanh(Reg(0))),
            DiffOp::Leaf { seed: 2, rows: 99, cols: 0 },
            DiffOp::Leaf { seed: 6, rows: 3, cols: 3 },
        ],
    };
    assert_eq!(
        prog.ssa(3),
        "=== AutogradProgram [1×16] (max_leaves=3) ===\n\
         r0 [1×16] = leaf(1×16, 2 seed bytes)  [requires_grad, seed]\n\
         r1 [2×5] = leaf(2×5, 3 seed bytes)  [requires_grad, leaf #1]\n\
         r2 [1×16] = tanh(r0)\n\
         r3 [16×1] = leaf(16×1, 2 seed bytes)  [requires_grad, leaf #2]\n\
         r4 [1×16] = r2  # leaf cap reached, alias\n\
         grads = backward(r4)\n\
         grad r0 [1×16] = r0.grad(grads)  # None → zeros if unreachable\n\
         grad r1 [2×5] = r1.grad(grads)  # None → zeros if unreachable\n\
         grad r3 [16×1] = r3.grad(grads)  # None → zeros if unreachable\n"
    );
    assert!(prog.to_text().contains("(max_leaves=4)"));
    assert!(prog.to_text().contains("r4 [3×3] = leaf(3×3, 2 seed bytes)  [requires_grad, leaf #3]"));

    let bare = AutogradProgram {
        rows: 1,
        cols: 1,
        leaf_seeds: vec![],
        ops: vec![DiffOp::Leaf { seed: 5, rows: 1, cols: 1 }],
    };
    assert!(bare.ssa(2).contains("r1 [1×1] = leaf(1×1, 0 seed bytes)  [requires_grad, leaf #1]"));
}

#[test]
fn endless_repetition_cannot_be_listed() {
    let chain = |n: u8| AutogradProgram {
        rows: 16,
        cols: 1,
        leaf_seeds: vec![],
        ops: (0..n).map(|i| DiffOp::Instr(TensorInstr::Repeat(Reg(i), 0, 4))).collect(),
    };
    assert!(chain(13).is_listable(4));
    assert!(!chain(40).is_listable(4));
    assert_eq!(chain(40).plan(4).shapes.len(), 9);
}

#[test]
fn a_listing_has_one_line_for_each_register() {
    let ops: Vec<TensorInstr> = (0..12u8).map(|i| TensorInstr::Repeat(Reg(i), 0, 4)).collect();
    for count in [0, 5, 10, 12] {
        let prog =
            TensorProgram { rows: 1, cols: 1, values: vec![42], ops: ops[..count].to_vec() };
        let text = prog.to_text();
        let lines: Vec<&str> = text.split('\n').collect();
        let registers = prog.plan().shapes.len();
        let skips = registers <= count;
        assert_eq!(lines.len(), registers + if skips { 3 } else { 2 });
        for i in 0..registers + 2 {
            let begins = |line: &&&str| line.starts_with(&format!("r{i} "));
            let found = lines.iter().filter(begins).count();
            assert_eq!(found, usize::from(i < registers));
        }
        assert_eq!(text.contains("skipped"), skips);
    }
}

#[test]
fn an_autograd_listing_has_one_line_for_each_gradient() {
    let prog = AutogradProgram {
        rows: 1,
        cols: 1,
        leaf_seeds: vec![vec![1], vec![2, 3]],
        ops: vec![
            DiffOp::Leaf { seed: 1, rows: 2, cols: 2 },
            DiffOp::Leaf { seed: 0, rows: 1, cols: 1 },
            DiffOp::Instr(TensorInstr::Add(Reg(0), Reg(1))),
            DiffOp::Leaf { seed: 9, rows: 3, cols: 1 },
        ],
    };
    for max_leaves in 0..5 {
        let text = prog.ssa(max_leaves);
        let lines: Vec<&str> = text.lines().collect();
        let plan = prog.plan(max_leaves);
        let asks: Vec<&&str> = lines.iter().filter(|l| l.starts_with("grad r")).collect();
        assert_eq!(asks.len(), plan.leaves.len());
        for (ask, reg) in asks.iter().zip(&plan.leaves) {
            let shape = plan.shapes[*reg].to_text();
            assert!(ask.starts_with(&format!("grad r{reg} {shape} = r{reg}.grad(grads)")));
        }
        for i in 0..plan.shapes.len() {
            let own = lines.iter().filter(|l| l.starts_with(&format!("r{i} "))).count();
            assert_eq!(own, 1);
        }
        assert_eq!(lines.len(), 2 + plan.shapes.len() + plan.leaves.len());
    }
}
