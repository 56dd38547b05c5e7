use std::convert::Infallible;

use burn::tensor::{Device, Gradients};
use burnmark::autograd::AutogradProgram;
use burnmark::burn_eval::{compute_burn, Burn, BurnTensor};
use burnmark::candle::Candle;
use burnmark::config::FuzzConfig;
use burnmark::driver::{collect_grads, eval_program, Framework};
use burnmark::ops::{DiffOp, Reg, ResolvedInstr, TensorInstr, POWF_EXPONENT_HALVES};
use burnmark::program::TensorProgram;
use burnmark::resolve::{after_tensor_instr, resolve_instr, shape_after};
use burnmark::shape::Shape2;

/// burn behind the driver, with its own backward pass.
struct Target {
    burn: Burn,
}

#[allow(deprecated)]
fn plain() -> Target {
    Target { burn: Burn { device: Device::ndarray() } }
}

#[allow(deprecated)]
fn tracking() -> Target {
    Target { burn: Burn { device: Device::ndarray().autodiff() } }
}

impl Framework for Target {
    type Tensor = BurnTensor;
    type Grads = Gradients;
    type Fault = Infallible;

    fn input(&self, data: &[u32], shape: Shape2) -> Result<BurnTensor, Infallible> {
        Ok(self.burn.input(data, shape))
    }

    fn leaf(
        &self,
        regs: &[BurnTensor],
        data: &[u32],
        shape: Shape2,
    ) -> Result<BurnTensor, Infallible> {
        Ok(self.burn.leaf(regs, data, shape))
    }

    fn alias(&self, tensor: &BurnTensor) -> BurnTensor {
        self.burn.alias(tensor)
    }

    fn eval(
        &self,
        regs: &[BurnTensor],
        shapes: &[Shape2],
        _instr: &TensorInstr,
        op: &ResolvedInstr,
    ) -> Result<BurnTensor, Infallible> {
        let made = compute_burn(regs, shapes, op);
        let predicted = shape_after(shapes, op);
        assert_eq!(made.inner.dims(), [predicted.rows(), predicted.cols()]);
        Ok(made)
    }

    fn backward(&self, root: &BurnTensor) -> Result<Gradients, Infallible> {
        Ok(root.inner.backward())
    }

    fn grad(&self, grads: &Gradients, leaf: &BurnTensor) -> Option<BurnTensor> {
        leaf.inner.grad(grads).map(|inner| BurnTensor { inner })
    }

    fn to_vec(&self, tensor: &BurnTensor) -> Result<Vec<u32>, Infallible> {
        Ok(self.burn.to_vec(tensor))
    }
}

/// -0.5, 0.25, 0.5, 0.75.
const MIXED: [u8; 4] = [64, 160, 192, 224];

fn program(values: &[u8], ops: &[TensorInstr]) -> TensorProgram {
    TensorProgram { rows: 2, cols: 2, values: values.to_vec(), ops: ops.to_vec() }
}

fn bits(values: &[u8], ops: &[TensorInstr]) -> Vec<u32> {
    let out = eval_program(&plain(), &program(values, ops)).unwrap();
    assert_eq!(out, eval_program(&tracking(), &program(values, ops)).unwrap());
    out
}

fn run(values: &[u8], ops: &[TensorInstr]) -> Vec<f32> {
    bits(values, ops).into_iter().map(f32::from_bits).collect()
}

fn every_kind_of_instruction() -> Vec<TensorInstr> {
    let r = Reg(0);
    let mut all = vec![
        TensorInstr::Add(r, r),
        TensorInstr::Sub(r, r),
        TensorInstr::Mul(r, r),
        TensorInstr::Div(r, r),
        TensorInstr::Matmul(r, r),
        TensorInstr::Neg(r),
        TensorInstr::Abs(r),
        TensorInstr::Exp(r),
        TensorInstr::Log(r),
        TensorInstr::Sqrt(r),
        TensorInstr::Relu(r),
        TensorInstr::Sigmoid(r),
        TensorInstr::Tanh(r),
        TensorInstr::SumAll(r),
        TensorInstr::MeanAll(r),
        TensorInstr::Transpose(r),
        TensorInstr::Clamp(r),
    ];
    for dim in 0..2_u8 {
        all.push(TensorInstr::SumDim(r, dim));
        all.push(TensorInstr::MeanDim(r, dim));
        all.push(TensorInstr::Concat(r, r, dim));
        for count in 1..=4_u8 {
            all.push(TensorInstr::Repeat(r, dim, count));
        }
    }
    for e in 0..POWF_EXPONENT_HALVES.len() as u8 {
        all.push(TensorInstr::PowfScalar(r, e));
    }
    all
}

#[test]
fn burn_reads_back_what_it_was_given() {
    assert_eq!(run(&MIXED, &[]), vec![-0.5, 0.25, 0.5, 0.75]);
    let burn = plain().burn;
    let data = [0x7fc0_0001, 0xff80_0000, 0x8000_0000, 1, 0x3f80_0000, 0x7f7f_ffff];
    let t = burn.input(&data, Shape2(2, 3));
    assert_eq!(t.inner.dims(), [2, 3]);
    assert_eq!(burn.to_vec(&t), data.to_vec());
    assert_eq!(burn.to_vec(&burn.alias(&t)), data.to_vec());
}

#[test]
fn burn_arithmetic_is_elementwise() {
    let r = Reg(0);
    assert_eq!(run(&MIXED, &[TensorInstr::Add(r, r)]), vec![-1.0, 0.5, 1.0, 1.5]);
    assert_eq!(run(&MIXED, &[TensorInstr::Sub(r, r)]), vec![0.0; 4]);
    assert_eq!(run(&MIXED, &[TensorInstr::Mul(r, r)]), vec![0.25, 0.0625, 0.25, 0.5625]);
    assert_eq!(run(&MIXED, &[TensorInstr::Div(r, r)]), vec![1.0; 4]);
}

#[test]
fn burn_broadcasts_along_both_dimensions() {
    let down = TensorInstr::SumDim(Reg(0), 0);
    let right = TensorInstr::SumDim(Reg(0), 1);
    assert_eq!(
        run(&MIXED, &[down, TensorInstr::Sub(Reg(0), Reg(1))]),
        vec![-0.5, -0.75, 0.5, -0.25]
    );
    assert_eq!(
        run(&MIXED, &[right, TensorInstr::Sub(Reg(1), Reg(0))]),
        vec![0.25, -0.5, 0.75, 0.5]
    );
    assert_eq!(
        run(&MIXED, &[down, right, TensorInstr::Add(Reg(1), Reg(2))]),
        vec![-0.25, 0.75, 1.25, 2.25]
    );
}

#[test]
fn burn_unary_operations_are_elementwise() {
    let r = Reg(0);
    assert_eq!(run(&MIXED, &[TensorInstr::Neg(r)]), vec![0.5, -0.25, -0.5, -0.75]);
    assert_eq!(run(&MIXED, &[TensorInstr::Abs(r)]), vec![0.5, 0.25, 0.5, 0.75]);
    assert_eq!(run(&MIXED, &[TensorInstr::Relu(r)]), vec![0.0, 0.25, 0.5, 0.75]);
    assert_eq!(run(&[128], &[TensorInstr::Exp(r)]), vec![1.0; 4]);
    assert_eq!(run(&[128], &[TensorInstr::Sigmoid(r)]), vec![0.5; 4]);
    assert_eq!(run(&[128], &[TensorInstr::Exp(r), TensorInstr::Log(Reg(1))]), vec![0.0; 4]);
    assert_eq!(run(&[160], &[TensorInstr::Sqrt(r)]), vec![0.5; 4]);
    for (x, y) in MIXED.iter().zip(run(&MIXED, &[TensorInstr::Tanh(r)])) {
        let x = *x as f32 / 128.0 - 1.0;
        assert!((x.tanh() - y).abs() < 1e-6);
    }
}

#[test]
fn burn_signs_and_special_values() {
    let nan = TensorInstr::Log(Reg(0));
    assert!(run(&[0], &[nan, TensorInstr::Neg(Reg(1))]).iter().all(|v| v.is_nan()));
    assert!(run(&[0], &[nan, TensorInstr::Abs(Reg(1))]).iter().all(|v| v.is_nan()));
    let rectified = run(&[0], &[nan, TensorInstr::Relu(Reg(1))]);
    assert!(rectified.iter().all(|v| v.is_nan() || v.to_bits() == 0));
    assert_eq!(bits(&[128], &[TensorInstr::Neg(Reg(0))]), vec![0x8000_0000; 4]);
    let quotient = [TensorInstr::Sub(Reg(0), Reg(0)), TensorInstr::Div(Reg(0), Reg(1))];
    assert_eq!(
        run(&MIXED, &[quotient[0], quotient[1], TensorInstr::Clamp(Reg(2))]),
        vec![-1e6, 1e6, 1e6, 1e6]
    );
    assert_eq!(run(&MIXED, &[TensorInstr::Clamp(Reg(0))]), vec![-0.5, 0.25, 0.5, 0.75]);
}

#[test]
fn burn_raises_to_every_exponent() {
    let expected: [f32; 8] = [16.0, 4.0, 2.0, 1.0, 0.5, 0.25, 0.0625, 0.015625];
    for (e, &y) in expected.iter().enumerate() {
        let out = run(&[160], &[TensorInstr::PowfScalar(Reg(0), e as u8)]);
        assert!(out.iter().all(|v| (v - y).abs() < 1e-5), "exponent {e}: {out:?}");
    }
}

#[test]
fn burn_reductions_keep_two_dimensions() {
    assert_eq!(run(&MIXED, &[TensorInstr::SumAll(Reg(0))]), vec![1.0]);
    assert_eq!(run(&MIXED, &[TensorInstr::MeanAll(Reg(0))]), vec![0.25]);
    assert_eq!(run(&MIXED, &[TensorInstr::SumDim(Reg(0), 0)]), vec![0.0, 1.0]);
    assert_eq!(run(&MIXED, &[TensorInstr::SumDim(Reg(0), 1)]), vec![-0.25, 1.25]);
    assert_eq!(run(&MIXED, &[TensorInstr::MeanDim(Reg(0), 0)]), vec![0.0, 0.5]);
    assert_eq!(run(&MIXED, &[TensorInstr::MeanDim(Reg(0), 1)]), vec![-0.125, 0.625]);
}

#[test]
fn burn_moves_elements_as_stated() {
    let t = TensorInstr::Transpose(Reg(0));
    assert_eq!(run(&MIXED, &[t]), vec![-0.5, 0.5, 0.25, 0.75]);
    assert_eq!(
        run(&MIXED, &[t, TensorInstr::Concat(Reg(0), Reg(1), 0)]),
        vec![-0.5, 0.25, 0.5, 0.75, -0.5, 0.5, 0.25, 0.75]
    );
    assert_eq!(
        run(&MIXED, &[t, TensorInstr::Concat(Reg(0), Reg(1), 1)]),
        vec![-0.5, 0.25, -0.5, 0.5, 0.5, 0.75, 0.25, 0.75]
    );
    assert_eq!(
        run(&MIXED, &[t, TensorInstr::Repeat(Reg(1), 0, 2)]),
        vec![-0.5, 0.5, 0.25, 0.75, -0.5, 0.5, 0.25, 0.75]
    );
    assert_eq!(
        run(&MIXED, &[t, TensorInstr::Repeat(Reg(1), 1, 2)]),
        vec![-0.5, 0.5, -0.5, 0.5, 0.25, 0.75, 0.25, 0.75]
    );
    assert_eq!(
        run(&MIXED, &[t, TensorInstr::Matmul(Reg(0), Reg(1))]),
        vec![0.3125, -0.0625, -0.0625, 0.8125]
    );
}

#[test]
fn burn_passes_registers_on() {
    let burn = plain().burn;
    let data: Vec<u32> = [0.5_f32, -2.0, 8.0].iter().map(|v| v.to_bits()).collect();
    let regs = [burn.input(&data, Shape2(1, 3))];
    let shapes = [Shape2(1, 3)];
    for op in [ResolvedInstr::MatmulPassthrough(0), ResolvedInstr::ConcatPassthrough(0)] {
        assert_eq!(burn.to_vec(&compute_burn(&regs, &shapes, &op)), data);
    }
}

#[test]
fn burn_and_candle_agree() {
    let values: [u8; 9] = [160, 176, 192, 208, 224, 240, 255, 144, 200];
    for first in every_kind_of_instruction() {
        for second in every_kind_of_instruction() {
            let prog = TensorProgram {
                rows: 2,
                cols: 3,
                values: values.to_vec(),
                ops: vec![TensorInstr::Transpose(Reg(0)), first, second],
            };
            let burn = eval_program(&plain(), &prog).unwrap();
            let candle = eval_program(&Candle, &prog).unwrap();
            assert_eq!(burn.len(), candle.len());
            for (x, y) in burn.iter().zip(&candle) {
                let (x, y) = (f32::from_bits(*x), f32::from_bits(*y));
                let close = (x - y).abs() <= 1e-4 * x.abs().max(y.abs()).max(1.0);
                assert!(close || x == y || x.is_nan() && y.is_nan(), "{first:?} {second:?}");
            }
        }
    }
}

#[test]
fn gradient_tracking_changes_no_result() {
    for first in every_kind_of_instruction() {
        for second in [TensorInstr::Add(Reg(0), Reg(1)), TensorInstr::Concat(Reg(1), Reg(0), 0)] {
            bits(&MIXED, &[first, second]);
        }
    }
}

#[test]
fn burn_and_candle_move_the_same_bits() {
    let moves = [
        TensorInstr::Transpose(Reg(0)),
        TensorInstr::Concat(Reg(0), Reg(0), 0),
        TensorInstr::Concat(Reg(0), Reg(0), 1),
        TensorInstr::Repeat(Reg(0), 0, 3),
        TensorInstr::Repeat(Reg(0), 1, 3),
        TensorInstr::Matmul(Reg(0), Reg(0)),
    ];
    let data: Vec<u32> = vec![0x7fc0_1234, 0x8000_0000, 0x7f80_0000, 1, 0xff80_0000, 0x42];
    let shapes = [Shape2(2, 3)];
    let burn = plain().burn;
    let left = [burn.input(&data, shapes[0])];
    let right = [Candle.input(&data, shapes[0]).unwrap()];
    for instr in moves {
        let op = resolve_instr(&shapes, &instr);
        let x = compute_burn(&left, &shapes, &op);
        let z = Candle.eval(&right, &shapes, &instr, &op).unwrap();
        let out = after_tensor_instr(&shapes, &instr);
        assert_eq!(x.inner.dims(), [out.rows(), out.cols()]);
        assert_eq!(burn.to_vec(&x), Candle.to_vec(&z).unwrap(), "{instr:?}");
    }
}

#[test]
fn burn_keeps_the_gradients_of_leaves() {
    let prog = AutogradProgram {
        rows: 2,
        cols: 2,
        leaf_seeds: vec![MIXED.to_vec(), vec![192]],
        ops: vec![
            DiffOp::Leaf { seed: 1, rows: 2, cols: 2 },
            DiffOp::Instr(TensorInstr::Mul(Reg(0), Reg(1))),
        ],
    };
    let grads = |max_leaves: usize| -> Vec<Vec<f32>> {
        let config = FuzzConfig { max_leaves, ..FuzzConfig::default() };
        let reports = collect_grads(&tracking(), &prog, &config).unwrap();
        reports.into_iter().map(|g| g.into_iter().map(f32::from_bits).collect()).collect()
    };
    assert_eq!(grads(4), vec![vec![0.5; 4], vec![-0.5, 0.25, 0.5, 0.75]]);
    assert_eq!(grads(1), vec![vec![-1.0, 0.5, 1.0, 1.5]]);
    let leaf = tracking().burn.leaf(&[], &[0; 4], Shape2(2, 2));
    assert!(leaf.inner.is_require_grad());
    let input = tracking().burn.input(&[0; 4], Shape2(2, 2));
    assert!(!input.inner.is_require_grad());
}

/// Two leaves of two rows and columns, both positive.
fn two_leaves(burn: &Burn) -> Vec<BurnTensor> {
    let data: Vec<u32> = [0.25_f32, 0.5, 0.75, 0.625].iter().map(|v| v.to_bits()).collect();
    let mut regs = Vec::new();
    for _ in 0..2 {
        let leaf = burn.leaf(&regs, &data, Shape2(2, 2));
        regs.push(leaf);
    }
    regs
}

#[test]
fn burn_results_stay_connected_to_their_leaves() {
    let target = tracking();
    let shapes = [Shape2(2, 2), Shape2(2, 2)];
    for instr in every_kind_of_instruction() {
        let regs = two_leaves(&target.burn);
        let op = resolve_instr(&shapes, &instr);
        if matches!(op, ResolvedInstr::PowfScalar(_, 0)) {
            continue;
        }
        let grads = compute_burn(&regs, &shapes, &op).inner.backward();
        assert!(regs[0].inner.grad(&grads).is_some(), "{instr:?}");
        assert!(regs[1].inner.grad(&grads).is_none(), "{instr:?}");
    }
    for instr in [
        TensorInstr::Add(Reg(0), Reg(1)),
        TensorInstr::Sub(Reg(0), Reg(1)),
        TensorInstr::Mul(Reg(0), Reg(1)),
        TensorInstr::Div(Reg(0), Reg(1)),
        TensorInstr::Matmul(Reg(0), Reg(1)),
        TensorInstr::Concat(Reg(0), Reg(1), 0),
        TensorInstr::Concat(Reg(0), Reg(1), 1),
    ] {
        let regs = two_leaves(&target.burn);
        let op = resolve_instr(&shapes, &instr);
        let grads = compute_burn(&regs, &shapes, &op).inner.backward();
        assert!(regs.iter().all(|leaf| leaf.inner.grad(&grads).is_some()), "{instr:?}");
    }
}

#[test]
fn burn_computes_the_power_of_zero_from_nothing() {
    let target = tracking();
    let mut regs = two_leaves(&target.burn);
    let mut shapes = vec![Shape2(2, 2); 2];
    let ones = compute_burn(&regs, &shapes, &ResolvedInstr::PowfScalar(0, 0));
    assert_eq!(target.burn.to_vec(&ones), vec![1.0_f32.to_bits(); 4]);
    regs.push(ones);
    shapes.push(Shape2(2, 2));
    let grads = compute_burn(&regs, &shapes, &ResolvedInstr::Add(2, 1)).inner.backward();
    assert!(regs[0].inner.grad(&grads).is_none());
    assert!(regs[1].inner.grad(&grads).is_some());
}
