use burnmark::autograd::AutogradProgram;
use burnmark::candle::{failure_start, Candle, CandleTensor};
use burnmark::config::FuzzConfig;
use burnmark::driver::{bytes_to_floats, collect_grads, eval_program, Framework};
use burnmark::ops::{DiffOp, Reg, TensorInstr, POWF_EXPONENT_HALVES};
use burnmark::program::TensorProgram;
use burnmark::resolve::{after_tensor_instr, resolve_instr};
use burnmark::shape::Shape2;

/// Strictly positive, bounded away from 0 and 1, all distinct.
const WELL_BEHAVED: [u8; 9] = [160, 176, 192, 208, 224, 240, 255, 144, 200];

fn make_tensor(raw: &[u8], rows: usize, cols: usize) -> CandleTensor {
    Candle.input(&bytes_to_floats(raw, rows * cols), Shape2(rows, cols)).unwrap()
}

fn eval(regs: &[CandleTensor], shapes: &[Shape2], instr: &TensorInstr) -> CandleTensor {
    let op = resolve_instr(shapes, instr);
    match Candle.eval(regs, shapes, instr, &op) {
        Ok(t) => t,
        Err(fault) => panic!("{}", fault.message),
    }
}

fn to_vec(t: &CandleTensor) -> Vec<f32> {
    Candle.to_vec(t).unwrap().into_iter().map(f32::from_bits).collect()
}

/// Every instruction, on a square `r0` so that products, concatenations and
/// transpositions are all legal as written.
fn every_instruction() -> Vec<TensorInstr> {
    let r = Reg(0);
    let mut all = vec![
        TensorInstr::Add(r, r),
        TensorInstr::Sub(r, r),
        TensorInstr::Mul(r, r),
        TensorInstr::Div(r, r),
        TensorInstr::Neg(r),
        TensorInstr::Abs(r),
        TensorInstr::Exp(r),
        TensorInstr::Log(r),
        TensorInstr::Sqrt(r),
        TensorInstr::Relu(r),
        TensorInstr::Sigmoid(r),
        TensorInstr::Tanh(r),
        TensorInstr::SumAll(r),
        TensorInstr::MeanAll(r),
        TensorInstr::Transpose(r),
        TensorInstr::Matmul(r, r),
        TensorInstr::Clamp(r),
    ];
    for dim in 0..2_u8 {
        all.push(TensorInstr::SumDim(r, dim));
        all.push(TensorInstr::MeanDim(r, dim));
        all.push(TensorInstr::Concat(r, r, dim));
        for count in 1..=4_u8 {
            all.push(TensorInstr::Repeat(r, dim, count));
        }
    }
    for e in 0..POWF_EXPONENT_HALVES.len() as u8 {
        all.push(TensorInstr::PowfScalar(r, e));
    }
    all
}

fn assert_shapes_match_prediction(ops: &[TensorInstr], rows: usize, cols: usize) {
    let mut regs = vec![make_tensor(&WELL_BEHAVED, rows, cols)];
    let mut shapes = vec![Shape2(rows, cols)];
    for instr in ops {
        let predicted = after_tensor_instr(&shapes, instr);
        let line = instr.ssa_line(&format!("r{}", regs.len()), regs.len());
        let val = eval(&regs, &shapes, instr);
        assert_eq!(
            val.dims(),
            [predicted.rows(), predicted.cols()],
            "candle's shape for `{line}` is not what after_tensor_instr predicted"
        );
        regs.push(val);
        shapes.push(predicted);
    }
}

#[test]
fn shapes_match_the_ir_prediction() {
    for instr in every_instruction() {
        assert_shapes_match_prediction(&[instr], 3, 3);
    }
    for instr in every_instruction() {
        assert_shapes_match_prediction(&[TensorInstr::Transpose(Reg(0)), instr], 2, 5);
    }
}

#[test]
fn whole_tensor_reductions_are_rank_2() {
    for instr in [TensorInstr::SumAll(Reg(0)), TensorInstr::MeanAll(Reg(0))] {
        let regs = vec![make_tensor(&WELL_BEHAVED, 2, 5)];
        let out = eval(&regs, &[Shape2(2, 5)], &instr);
        assert_eq!(out.dims(), [1, 1], "candle reductions squeeze by default");
    }
}

#[test]
fn repeat_tiles_rather_than_interleaves() {
    let regs = vec![make_tensor(&[160, 192], 1, 2)]; // [0.25, 0.5]
    let out = eval(&regs, &[Shape2(1, 2)], &TensorInstr::Repeat(Reg(0), 1, 2));
    assert_eq!(
        to_vec(&out),
        vec![0.25, 0.5, 0.25, 0.5],
        "tile is [a,b,a,b]; interleave would be [a,a,b,b]"
    );
}

/// The last register of a program on a 2 by 2 input.
fn run(values: &[u8], ops: &[TensorInstr]) -> Vec<f32> {
    let prog = TensorProgram { rows: 2, cols: 2, values: values.to_vec(), ops: ops.to_vec() };
    eval_program(&Candle, &prog).unwrap().into_iter().map(f32::from_bits).collect()
}

/// -0.5, 0.25, 0.5, 0.75
const MIXED: [u8; 4] = [64, 160, 192, 224];

#[test]
fn inputs_are_read_back() {
    assert_eq!(run(&MIXED, &[]), vec![-0.5, 0.25, 0.5, 0.75]);
    assert_eq!(run(&[], &[]), vec![0.5; 4]);
}

#[test]
fn arithmetic_is_elementwise() {
    let r = Reg(0);
    assert_eq!(run(&MIXED, &[TensorInstr::Add(r, r)]), vec![-1.0, 0.5, 1.0, 1.5]);
    assert_eq!(run(&MIXED, &[TensorInstr::Sub(r, r)]), vec![0.0; 4]);
    assert_eq!(run(&MIXED, &[TensorInstr::Mul(r, r)]), vec![0.25, 0.0625, 0.25, 0.5625]);
    assert_eq!(run(&MIXED, &[TensorInstr::Div(r, r)]), vec![1.0; 4]);
}

#[test]
fn operands_broadcast_along_both_dimensions() {
    let down = TensorInstr::SumDim(Reg(0), 0);
    let right = TensorInstr::SumDim(Reg(0), 1);
    assert_eq!(run(&MIXED, &[down]), vec![0.0, 1.0]);
    assert_eq!(run(&MIXED, &[right]), vec![-0.25, 1.25]);
    assert_eq!(
        run(&MIXED, &[down, TensorInstr::Sub(Reg(0), Reg(1))]),
        vec![-0.5, -0.75, 0.5, -0.25]
    );
    assert_eq!(
        run(&MIXED, &[right, TensorInstr::Sub(Reg(1), Reg(0))]),
        vec![0.25, -0.5, 0.75, 0.5]
    );
    assert_eq!(
        run(&MIXED, &[down, right, TensorInstr::Add(Reg(1), Reg(2))]),
        vec![-0.25, 0.75, 1.25, 2.25]
    );
}

#[test]
fn unary_operations_are_elementwise() {
    let r = Reg(0);
    assert_eq!(run(&MIXED, &[TensorInstr::Neg(r)]), vec![0.5, -0.25, -0.5, -0.75]);
    assert_eq!(run(&MIXED, &[TensorInstr::Abs(r)]), vec![0.5, 0.25, 0.5, 0.75]);
    assert_eq!(run(&MIXED, &[TensorInstr::Relu(r)]), vec![0.0, 0.25, 0.5, 0.75]);
    let zero = run(&[128], &[TensorInstr::Exp(r)]);
    assert_eq!(zero, vec![1.0; 4]);
    assert_eq!(run(&[128], &[TensorInstr::Sigmoid(r)]), vec![0.5; 4]);
    assert_eq!(run(&[128], &[TensorInstr::Exp(r), TensorInstr::Log(Reg(1))]), vec![0.0; 4]);
    assert_eq!(run(&[160], &[TensorInstr::Sqrt(r)]), vec![0.5; 4]);
    for (x, y) in MIXED.iter().zip(run(&MIXED, &[TensorInstr::Tanh(r)])) {
        let x = *x as f32 / 128.0 - 1.0;
        assert!((x.tanh() - y).abs() < 1e-6);
    }
    assert!(run(&[64], &[TensorInstr::Log(r)]).iter().all(|v| v.is_nan()));
}

#[test]
fn signs_and_zeros_of_special_values() {
    let nan = [TensorInstr::Log(Reg(0))];
    assert!(run(&[0], &[nan[0], TensorInstr::Neg(Reg(1))])[0].is_nan());
    assert!(run(&[0], &[nan[0], TensorInstr::Abs(Reg(1))])[0].is_nan());
    assert_eq!(run(&[0], &[nan[0], TensorInstr::Relu(Reg(1))])[0].to_bits(), 0);
    assert_eq!(run(&[128], &[TensorInstr::Neg(Reg(0))])[0].to_bits(), 0x8000_0000);
}

#[test]
fn every_exponent_is_raised_to() {
    let expected: [f32; 8] = [16.0, 4.0, 2.0, 1.0, 0.5, 0.25, 0.0625, 0.015625];
    for (e, &y) in expected.iter().enumerate() {
        let out = run(&[160], &[TensorInstr::PowfScalar(Reg(0), e as u8)]);
        assert!(out.iter().all(|v| (v - y).abs() < 1e-5), "exponent {e}: {out:?}");
    }
}

#[test]
fn reductions_cover_what_they_should() {
    assert_eq!(run(&MIXED, &[TensorInstr::SumAll(Reg(0))]), vec![1.0]);
    assert_eq!(run(&MIXED, &[TensorInstr::MeanAll(Reg(0))]), vec![0.25]);
    assert_eq!(run(&MIXED, &[TensorInstr::MeanDim(Reg(0), 0)]), vec![0.0, 0.5]);
    assert_eq!(run(&MIXED, &[TensorInstr::MeanDim(Reg(0), 1)]), vec![-0.125, 0.625]);
}

#[test]
fn elements_keep_their_order_through_layouts() {
    let t = TensorInstr::Transpose(Reg(0));
    assert_eq!(run(&MIXED, &[t]), vec![-0.5, 0.5, 0.25, 0.75]);
    assert_eq!(run(&MIXED, &[t, TensorInstr::Transpose(Reg(1))]), vec![-0.5, 0.25, 0.5, 0.75]);
    assert_eq!(
        run(&MIXED, &[t, TensorInstr::Concat(Reg(0), Reg(1), 0)]),
        vec![-0.5, 0.25, 0.5, 0.75, -0.5, 0.5, 0.25, 0.75]
    );
    assert_eq!(
        run(&MIXED, &[t, TensorInstr::Concat(Reg(0), Reg(1), 1)]),
        vec![-0.5, 0.25, -0.5, 0.5, 0.5, 0.75, 0.25, 0.75]
    );
    assert_eq!(
        run(&MIXED, &[t, TensorInstr::Repeat(Reg(1), 0, 2)]),
        vec![-0.5, 0.5, 0.25, 0.75, -0.5, 0.5, 0.25, 0.75]
    );
    assert_eq!(
        run(&MIXED, &[t, TensorInstr::Repeat(Reg(1), 1, 2)]),
        vec![-0.5, 0.5, -0.5, 0.5, 0.25, 0.75, 0.25, 0.75]
    );
    assert_eq!(
        run(&MIXED, &[t, TensorInstr::Matmul(Reg(0), Reg(1))]),
        vec![0.3125, -0.0625, -0.0625, 0.8125]
    );
}

#[test]
fn clamping_bounds_infinities() {
    let ops = [
        TensorInstr::Sub(Reg(0), Reg(0)),
        TensorInstr::Div(Reg(0), Reg(1)),
        TensorInstr::Clamp(Reg(2)),
    ];
    assert_eq!(run(&MIXED, &ops), vec![-1e6, 1e6, 1e6, 1e6]);
    assert_eq!(run(&MIXED, &[TensorInstr::Clamp(Reg(0))]), vec![-0.5, 0.25, 0.5, 0.75]);
}

/// The gradients of a program whose seed leaf is -0.5, 0.25, 0.5, 0.75.
fn gradients(max_leaves: usize, ops: Vec<DiffOp>) -> Vec<Vec<f32>> {
    let prog = AutogradProgram { rows: 2, cols: 2, leaf_seeds: vec![MIXED.to_vec(), vec![192]], ops };
    let config = FuzzConfig { max_leaves, ..FuzzConfig::default() };
    let grads = collect_grads(&Candle, &prog, &config).unwrap();
    grads.into_iter().map(|g| g.into_iter().map(f32::from_bits).collect()).collect()
}

#[test]
fn the_backward_pass_is_seeded_with_ones() {
    assert_eq!(gradients(4, vec![]), vec![vec![1.0; 4]]);
    let r = Reg(0);
    assert_eq!(
        gradients(4, vec![DiffOp::Instr(TensorInstr::Mul(r, r))]),
        vec![vec![-1.0, 0.5, 1.0, 1.5]]
    );
    assert_eq!(gradients(4, vec![DiffOp::Instr(TensorInstr::SumAll(r))]), vec![vec![1.0; 4]]);
    assert_eq!(gradients(4, vec![DiffOp::Instr(TensorInstr::MeanAll(r))]), vec![vec![0.25; 4]]);
    assert_eq!(
        gradients(4, vec![DiffOp::Instr(TensorInstr::Repeat(r, 1, 3))]),
        vec![vec![3.0; 4]]
    );
}

#[test]
fn unreachable_leaves_have_zero_gradients() {
    let grads = gradients(
        4,
        vec![
            DiffOp::Leaf { seed: 1, rows: 2, cols: 5 },
            DiffOp::Instr(TensorInstr::Neg(Reg(0))),
        ],
    );
    assert_eq!(grads, vec![vec![-1.0; 4], vec![0.0; 10]]);
}

#[test]
fn aliases_add_to_the_gradient_of_their_leaf() {
    let ops = vec![
        DiffOp::Leaf { seed: 1, rows: 2, cols: 2 },
        DiffOp::Instr(TensorInstr::Mul(Reg(0), Reg(1))),
    ];
    assert_eq!(
        gradients(4, ops.clone()),
        vec![vec![0.5; 4], vec![-0.5, 0.25, 0.5, 0.75]]
    );
    assert_eq!(gradients(1, ops), vec![vec![-1.0, 0.5, 1.0, 1.5]]);
}

#[test]
fn an_alias_is_the_same_node() {
    let leaf = Candle.leaf(&[], &bytes_to_floats(&MIXED, 4), Shape2(2, 2)).unwrap();
    let alias = Candle.alias(&leaf);
    let grads = Candle.backward(&alias).unwrap();
    let gradient = Candle.grad(&grads, &leaf).unwrap();
    assert_eq!(to_vec(&gradient), vec![1.0; 4]);
    assert_eq!(gradient.dims(), [2, 2]);
    let other = Candle.leaf(&[], &bytes_to_floats(&MIXED, 4), Shape2(2, 2)).unwrap();
    assert!(Candle.grad(&grads, &other).is_none());
}

#[test]
fn faults_name_what_failed() {
    let input = Candle.input(&[0, 0, 0], Shape2(2, 2)).err().unwrap();
    assert!(input.message.starts_with("candle input construction failed: "));
    let leaf = Candle.leaf(&[], &[0, 0, 0], Shape2(2, 2)).err().unwrap();
    assert!(leaf.message.starts_with("candle leaf construction failed: "));
    let regs = vec![make_tensor(&MIXED, 2, 2), make_tensor(&WELL_BEHAVED, 3, 3)];
    let claimed = [Shape2(2, 2), Shape2(2, 2)];
    let instr = TensorInstr::Add(Reg(0), Reg(1));
    let op = resolve_instr(&claimed, &instr);
    let eval = Candle.eval(&regs, &claimed, &instr, &op).err().unwrap();
    assert!(eval.message.starts_with("candle failed on `r2 = r0 + r1`: "), "{}", eval.message);
}

#[test]
fn failures_show_the_line_as_written() {
    assert_eq!(failure_start(&TensorInstr::Neg(Reg(5)), 3), "candle failed on `r3 = -r2`: ");
}

#[test]
fn every_legalised_program_runs() {
    for first in every_instruction() {
        for second in every_instruction() {
            let prog = TensorProgram {
                rows: 2,
                cols: 3,
                values: WELL_BEHAVED.to_vec(),
                ops: vec![first, second, TensorInstr::Matmul(Reg(1), Reg(2))],
            };
            assert!(eval_program(&Candle, &prog).is_ok());
        }
    }
}

#[test]
fn clamping_is_exact() {
    let bits = [
        0x4974_2400_u32,
        0x4974_2401,
        0xc974_2400,
        0xc974_2401,
        0x8000_0000,
        0x7f80_0000,
        0xff80_0000,
        1,
    ];
    let input = Candle.input(&bits, Shape2(2, 4)).unwrap();
    let shapes = [Shape2(2, 4)];
    let out = eval(&[input], &shapes, &TensorInstr::Clamp(Reg(0)));
    assert_eq!(
        Candle.to_vec(&out).unwrap(),
        vec![
            0x4974_2400,
            0x4974_2400,
            0xc974_2400,
            0xc974_2400,
            0x8000_0000,
            0x4974_2400,
            0xc974_2400,
            1
        ]
    );
    let nan = Candle.input(&[0x7fc0_0000], Shape2(1, 1)).unwrap();
    assert!(to_vec(&eval(&[nan], &[Shape2(1, 1)], &TensorInstr::Clamp(Reg(0))))[0].is_nan());
}

#[test]
fn every_instruction_can_be_differentiated() {
    for first in every_instruction() {
        for second in every_instruction() {
            let prog = AutogradProgram {
                rows: 2,
                cols: 3,
                leaf_seeds: vec![WELL_BEHAVED.to_vec()],
                ops: vec![DiffOp::Instr(first), DiffOp::Instr(second)],
            };
            let grads = collect_grads(&Candle, &prog, &FuzzConfig::default()).unwrap();
            assert_eq!(grads.len(), 1);
            assert_eq!(grads[0].len(), 6);
        }
    }
}

#[test]
fn a_gradient_is_a_plain_matrix() {
    let leaf = Candle.leaf(&[], &bytes_to_floats(&MIXED, 4), Shape2(2, 2)).unwrap();
    let shapes = [Shape2(2, 2)];
    let squared = eval(&[Candle.alias(&leaf)], &shapes, &TensorInstr::Mul(Reg(0), Reg(0)));
    let grads = Candle.backward(&squared).unwrap();
    let gradient = Candle.grad(&grads, &leaf).unwrap();
    assert_eq!(to_vec(&gradient), vec![-1.0, 0.5, 1.0, 1.5]);
    let again = Candle.backward(&gradient).unwrap();
    assert!(Candle.grad(&again, &leaf).is_none());
}

#[test]
fn results_stay_connected_to_their_leaves() {
    let shapes = [Shape2(2, 2), Shape2(2, 2)];
    let leaves = || {
        let mut regs = Vec::new();
        for _ in 0..2 {
            let leaf = Candle.leaf(&regs, &bytes_to_floats(&WELL_BEHAVED, 4), shapes[0]).unwrap();
            regs.push(leaf);
        }
        regs
    };
    for instr in every_instruction() {
        let regs = leaves();
        let grads = Candle.backward(&eval(&regs, &shapes, &instr)).unwrap();
        assert!(Candle.grad(&grads, &regs[0]).is_some(), "{instr:?}");
        assert!(Candle.grad(&grads, &regs[1]).is_none(), "{instr:?}");
    }
    for instr in [
        TensorInstr::Add(Reg(0), Reg(1)),
        TensorInstr::Sub(Reg(0), Reg(1)),
        TensorInstr::Mul(Reg(0), Reg(1)),
        TensorInstr::Div(Reg(0), Reg(1)),
        TensorInstr::Matmul(Reg(0), Reg(1)),
        TensorInstr::Concat(Reg(0), Reg(1), 0),
        TensorInstr::Concat(Reg(0), Reg(1), 1),
    ] {
        let regs = leaves();
        let grads = Candle.backward(&eval(&regs, &shapes, &instr)).unwrap();
        assert!(regs.iter().all(|leaf| Candle.grad(&grads, leaf).is_some()), "{instr:?}");
    }
}

#[test]
fn leaves_are_reported_by_dependence() {
    let ops = vec![
        DiffOp::Leaf { seed: 1, rows: 2, cols: 2 },
        DiffOp::Leaf { seed: 1, rows: 1, cols: 3 },
        DiffOp::Leaf { seed: 1, rows: 2, cols: 2 },
        DiffOp::Instr(TensorInstr::Mul(Reg(0), Reg(3))),
        DiffOp::Leaf { seed: 1, rows: 1, cols: 1 },
        DiffOp::Instr(TensorInstr::Neg(Reg(4))),
    ];
    assert_eq!(
        gradients(4, ops),
        vec![vec![-0.5; 4], vec![0.0; 4], vec![0.0; 3], vec![0.5, -0.25, -0.5, -0.75]]
    );
}
