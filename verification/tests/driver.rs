use std::cell::RefCell;

use burnmark::autograd::{Action, AutogradProgram};
use burnmark::config::FuzzConfig;
use burnmark::driver::{
    bytes_to_floats, collect_grads, eval_program, zeros_of, Framework,
};
use burnmark::float::to_float_bits;
use burnmark::ops::{DiffOp, Reg, ResolvedInstr, TensorInstr};
use burnmark::program::TensorProgram;
use burnmark::resolve::resolve_instr;
use burnmark::shape::Shape2;

/// A framework that writes down what it is asked. A tensor is a name; leaves whose
/// name is in `detached` have no gradient, and a request that begins with `failing`
/// fails.
struct Scribe {
    log: RefCell<Vec<String>>,
    detached: Vec<String>,
    failing: String,
}

impl Scribe {
    fn new(detached: &[&str]) -> Scribe {
        Scribe {
            log: RefCell::new(Vec::new()),
            detached: detached.iter().map(|s| s.to_string()).collect(),
            failing: "nothing".to_string(),
        }
    }

    fn failing(what: &str) -> Scribe {
        Scribe { failing: what.to_string(), ..Scribe::new(&[]) }
    }

    fn attempt(&self, what: String) -> Result<String, String> {
        if what.starts_with(&self.failing) {
            Err(what)
        } else {
            Ok(self.note(what))
        }
    }

    fn note(&self, what: String) -> String {
        self.log.borrow_mut().push(what.clone());
        what
    }
}

fn numbers(data: &[u32]) -> Vec<f32> {
    data.iter().map(|&bits| f32::from_bits(bits)).collect()
}

impl Framework for Scribe {
    type Tensor = String;
    type Grads = String;
    type Fault = String;

    fn input(&self, data: &[u32], shape: Shape2) -> Result<String, String> {
        self.attempt(format!("input {:?} {}", numbers(data), shape.to_text()))
    }

    fn leaf(&self, _regs: &[String], data: &[u32], shape: Shape2) -> Result<String, String> {
        self.attempt(format!("leaf {} {}", numbers(data)[0], shape.to_text()))
    }

    fn alias(&self, tensor: &String) -> String {
        self.note(format!("alias({tensor})"))
    }

    fn eval(
        &self,
        regs: &[String],
        shapes: &[Shape2],
        instr: &TensorInstr,
        op: &ResolvedInstr,
    ) -> Result<String, String> {
        assert_eq!(regs.len(), shapes.len());
        assert_eq!(*op, resolve_instr(shapes, instr));
        self.attempt(format!("{} of {}", op.to_text(), regs.len()))
    }

    fn backward(&self, root: &String) -> Result<String, String> {
        self.attempt(format!("backward({root})"))
    }

    fn grad(&self, _grads: &String, leaf: &String) -> Option<String> {
        if self.detached.contains(leaf) {
            None
        } else {
            Some(format!("grad {leaf}"))
        }
    }

    fn to_vec(&self, tensor: &String) -> Result<Vec<u32>, String> {
        self.attempt(format!("read {tensor}"))?;
        Ok(vec![tensor.len() as u32])
    }
}

#[test]
fn seed_bytes_become_floats() {
    assert_eq!(numbers(&bytes_to_floats(&[], 3)), vec![0.5, 0.5, 0.5]);
    assert_eq!(
        numbers(&bytes_to_floats(&[0, 128, 255], 5)),
        vec![-1.0, 0.0, 0.9921875, -1.0, 0.0]
    );
    assert_eq!(bytes_to_floats(&[1], 0), Vec::<u32>::new());
    for byte in 0..=255u8 {
        assert_eq!(
            bytes_to_floats(&[byte], 1),
            vec![(byte as f32 / 128.0 - 1.0).to_bits()]
        );
    }
    assert_eq!(zeros_of(Shape2(2, 3)), vec![0; 6]);
}

#[test]
fn float_bits_are_exact() {
    for n in i16::MIN..=i16::MAX {
        assert_eq!(to_float_bits(n), (n as f32 / 128.0).to_bits());
    }
}

#[test]
fn tensor_programs_are_driven_step_by_step() {
    let prog = TensorProgram {
        rows: 1,
        cols: 2,
        values: vec![160, 192],
        ops: vec![
            TensorInstr::Transpose(Reg(0)),
            TensorInstr::Add(Reg(0), Reg(1)),
            TensorInstr::Matmul(Reg(2), Reg(0)),
        ],
    };
    let scribe = Scribe::new(&[]);
    let out = eval_program(&scribe, &prog).unwrap();
    assert_eq!(
        *scribe.log.borrow(),
        vec![
            "input [0.25, 0.5] [1×2]",
            "r0.T of 1",
            "r0 + r1 of 2",
            "r2 @ r2 of 3",
            "read r2 @ r2 of 3",
        ]
    );
    assert_eq!(out, vec!["r2 @ r2 of 3".len() as u32]);
}

#[test]
fn runs_end_at_the_cap() {
    let ops = (0..12u8).map(|i| TensorInstr::Repeat(Reg(i), 0, 4)).collect();
    let prog = TensorProgram { rows: 1, cols: 1, values: vec![42], ops };
    let plan = prog.plan();
    assert_eq!(plan.shapes.len(), 11);
    assert_eq!(plan.steps.len(), 10);
    assert_eq!(plan.shapes[10], Shape2(1048576, 1));
    let scribe = Scribe::new(&[]);
    eval_program(&scribe, &prog).unwrap();
    assert_eq!(scribe.log.borrow().len(), 12);
}

#[test]
fn leaves_aliases_and_missing_gradients() {
    let prog = AutogradProgram {
        rows: 3,
        cols: 3,
        leaf_seeds: vec![vec![10], vec![20]],
        ops: vec![
            DiffOp::Leaf { seed: 1, rows: 2, cols: 5 },
            DiffOp::Instr(TensorInstr::Tanh(Reg(0))),
            DiffOp::Leaf { seed: 5, rows: 3, cols: 3 },
            DiffOp::Instr(TensorInstr::Mul(Reg(2), Reg(3))),
        ],
    };
    let mut config = FuzzConfig::default();
    config.max_leaves = 2;
    let plan = prog.plan(2);
    assert_eq!(plan.leaves, vec![0, 1]);
    assert_eq!(plan.shapes, vec![Shape2(3, 3), Shape2(2, 5), Shape2(3, 3), Shape2(3, 3), Shape2(3, 3)]);
    assert_eq!(plan.actions[0], Action::Leaf { pool: 0, shape: Shape2(3, 3) });
    assert_eq!(plan.actions[1], Action::Leaf { pool: 1, shape: Shape2(2, 5) });
    assert_eq!(plan.actions[3], Action::Alias(2));

    let scribe = Scribe::new(&["leaf -0.84375 [2×5]"]);
    let grads = collect_grads(&scribe, &prog, &config).unwrap();
    assert_eq!(
        *scribe.log.borrow(),
        vec![
            "leaf -0.921875 [3×3]",
            "leaf -0.84375 [2×5]",
            "tanh(r0) of 2",
            "alias(tanh(r0) of 2)",
            "r2 * r3 of 4",
            "backward(r2 * r3 of 4)",
            "read grad leaf -0.921875 [3×3]",
        ]
    );
    assert_eq!(grads, vec![vec!["grad leaf -0.921875 [3×3]".len() as u32], vec![0; 10]]);
}

#[test]
fn the_seed_leaf_is_always_there() {
    let prog = AutogradProgram {
        rows: 2,
        cols: 2,
        leaf_seeds: vec![],
        ops: vec![DiffOp::Leaf { seed: 200, rows: 4, cols: 4 }],
    };
    let mut config = FuzzConfig::default();
    config.max_leaves = 0;
    let scribe = Scribe::new(&[]);
    let grads = collect_grads(&scribe, &prog, &config).unwrap();
    assert_eq!(scribe.log.borrow()[0], "leaf 0.5 [2×2]");
    assert_eq!(scribe.log.borrow()[1], "alias(leaf 0.5 [2×2])");
    assert_eq!(grads.len(), 1);
}

#[test]
fn gradient_runs_end_at_the_cap() {
    let mut ops: Vec<DiffOp> =
        (0..10u8).map(|i| DiffOp::Instr(TensorInstr::Repeat(Reg(i), 1, 4))).collect();
    ops.push(DiffOp::Leaf { seed: 0, rows: 1, cols: 1 });
    let prog = AutogradProgram { rows: 1, cols: 16, leaf_seeds: vec![], ops };
    let plan = prog.plan(4);
    assert_eq!(plan.shapes.len(), 9);
    assert_eq!(plan.leaves, vec![0]);
}

#[test]
fn the_first_fault_ends_a_run() {
    let prog = TensorProgram {
        rows: 1,
        cols: 2,
        values: vec![],
        ops: vec![TensorInstr::Neg(Reg(0)), TensorInstr::Exp(Reg(1)), TensorInstr::Abs(Reg(2))],
    };
    let run = |what: &str| {
        let scribe = Scribe::failing(what);
        let out = eval_program(&scribe, &prog);
        let steps = scribe.log.borrow().len();
        (out, steps)
    };
    assert_eq!(run("input"), (Err("input [0.5, 0.5] [1×2]".to_string()), 0));
    assert_eq!(run("exp"), (Err("exp(r1) of 2".to_string()), 2));
    assert_eq!(run("read"), (Err("read abs(r2) of 3".to_string()), 4));
}

#[test]
fn the_first_fault_ends_a_gradient_run() {
    let prog = AutogradProgram {
        rows: 1,
        cols: 1,
        leaf_seeds: vec![vec![128]],
        ops: vec![DiffOp::Instr(TensorInstr::Neg(Reg(0)))],
    };
    let run = |what: &str| {
        let scribe = Scribe::failing(what);
        let out = collect_grads(&scribe, &prog, &FuzzConfig::default());
        let steps = scribe.log.borrow().len();
        (out, steps)
    };
    assert_eq!(run("leaf"), (Err("leaf 0 [1×1]".to_string()), 0));
    assert_eq!(run("-r0"), (Err("-r0 of 1".to_string()), 1));
    assert_eq!(run("backward"), (Err("backward(-r0 of 1)".to_string()), 2));
    assert_eq!(run("read"), (Err("read grad leaf 0 [1×1]".to_string()), 3));
}
