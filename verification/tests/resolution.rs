use burnmark::ops::{DiffOp, Reg, ResolvedInstr, TensorInstr};
use burnmark::program::clamp_dim;
use burnmark::resolve::{
    after_diff_op, after_tensor_instr, checked_shape_after, resolve_broadcast_compatible,
    resolve_concat_compatible, resolve_instr, resolve_matmul_compatible,
};
use burnmark::shape::{Shape2, MAX_TENSOR_ELEMENTS};

const SHAPES: [Shape2; 4] = [Shape2(2, 3), Shape2(3, 2), Shape2(1, 3), Shape2(5, 7)];

#[test]
fn shape_algebra() {
    let s = Shape2(2, 3);
    assert_eq!((s.rows(), s.cols(), s.elements()), (2, 3, 6));
    assert_eq!(Shape2(usize::MAX, 2).elements(), usize::MAX);
    assert!(Shape2(usize::MAX, 2).exceeds_cap());
    assert!(!Shape2(MAX_TENSOR_ELEMENTS, 1).exceeds_cap());
    assert!(Shape2(MAX_TENSOR_ELEMENTS + 1, 1).exceeds_cap());
    assert!(Shape2(1, 3).broadcast_compatible(Shape2(2, 1)));
    assert_eq!(Shape2(1, 3).broadcast_result(Shape2(2, 1)), Shape2(2, 3));
    assert!(!Shape2(2, 3).broadcast_compatible(Shape2(3, 2)));
    assert!(Shape2(2, 3).matmul_compatible(Shape2(3, 9)));
    assert!(!Shape2(2, 3).matmul_compatible(Shape2(2, 3)));
    assert!(Shape2(2, 3).concat_compatible(Shape2(9, 3), 0));
    assert!(!Shape2(2, 3).concat_compatible(Shape2(9, 3), 1));
    assert_eq!(Shape2(10, 205).to_text(), "[10×205]");
}

#[test]
fn dimension_bytes_are_clamped() {
    assert_eq!(clamp_dim(0), 1);
    assert_eq!(clamp_dim(9), 9);
    assert_eq!(clamp_dim(255), 16);
}

#[test]
fn the_operand_as_written_is_kept_if_it_fits() {
    assert_eq!(Reg(255).resolve(2), 1);
    assert_eq!(resolve_broadcast_compatible(&SHAPES, 0, &Reg(2)), 2);
    assert_eq!(resolve_matmul_compatible(&SHAPES, 0, &Reg(1)), Some(1));
    assert_eq!(resolve_concat_compatible(&SHAPES, 0, &Reg(4), 0), Some(0));
}

#[test]
fn the_latest_fitting_register_stands_in() {
    assert_eq!(resolve_broadcast_compatible(&SHAPES, 0, &Reg(1)), 2);
    assert_eq!(resolve_broadcast_compatible(&SHAPES, 3, &Reg(0)), 3);
    assert_eq!(resolve_matmul_compatible(&SHAPES, 1, &Reg(3)), Some(0));
    assert_eq!(resolve_matmul_compatible(&SHAPES, 3, &Reg(0)), None);
    assert_eq!(resolve_concat_compatible(&SHAPES, 0, &Reg(3), 0), Some(2));
    assert_eq!(resolve_concat_compatible(&SHAPES[..3], 2, &Reg(1), 1), Some(2));
}

#[test]
fn resolved_instructions() {
    assert_eq!(
        resolve_instr(&SHAPES, &TensorInstr::Mul(Reg(4), Reg(7))),
        ResolvedInstr::Mul(0, 2)
    );
    assert_eq!(
        resolve_instr(&SHAPES, &TensorInstr::Matmul(Reg(3), Reg(0))),
        ResolvedInstr::MatmulPassthrough(3)
    );
    assert_eq!(
        resolve_instr(&SHAPES, &TensorInstr::Concat(Reg(0), Reg(3), 2)),
        ResolvedInstr::Concat(0, 2, 0)
    );
    assert_eq!(
        resolve_instr(&SHAPES, &TensorInstr::Repeat(Reg(9), 5, 200)),
        ResolvedInstr::Repeat(1, 1, 4)
    );
    assert_eq!(
        resolve_instr(&SHAPES, &TensorInstr::PowfScalar(Reg(1), 10)),
        ResolvedInstr::PowfScalar(1, -1)
    );
}

#[test]
fn predicted_shapes() {
    let after = |instr| after_tensor_instr(&SHAPES, &instr);
    assert_eq!(after(TensorInstr::Add(Reg(2), Reg(0))), Shape2(2, 3));
    assert_eq!(after(TensorInstr::Matmul(Reg(0), Reg(1))), Shape2(2, 2));
    assert_eq!(after(TensorInstr::Matmul(Reg(3), Reg(1))), Shape2(5, 7));
    assert_eq!(after(TensorInstr::Sigmoid(Reg(3))), Shape2(5, 7));
    assert_eq!(after(TensorInstr::MeanAll(Reg(3))), Shape2(1, 1));
    assert_eq!(after(TensorInstr::SumDim(Reg(3), 0)), Shape2(1, 7));
    assert_eq!(after(TensorInstr::MeanDim(Reg(3), 1)), Shape2(5, 1));
    assert_eq!(after(TensorInstr::Transpose(Reg(3))), Shape2(7, 5));
    assert_eq!(after(TensorInstr::Concat(Reg(0), Reg(2), 0)), Shape2(3, 3));
    assert_eq!(after(TensorInstr::Concat(Reg(3), Reg(0), 1)), Shape2(5, 14));
    assert_eq!(after(TensorInstr::Repeat(Reg(0), 0, 3)), Shape2(6, 3));
    assert_eq!(after(TensorInstr::Repeat(Reg(0), 1, 0)), Shape2(2, 3));
    assert_eq!(
        after_diff_op(&SHAPES, &DiffOp::Instr(TensorInstr::Neg(Reg(1)))),
        Some(Shape2(3, 2))
    );
    assert_eq!(after_diff_op(&SHAPES, &DiffOp::Leaf { seed: 0, rows: 1, cols: 1 }), None);
}

#[test]
fn shapes_beyond_the_machine_are_noticed() {
    let huge = [Shape2(usize::MAX / 2, 1)];
    assert_eq!(checked_shape_after(&huge, &ResolvedInstr::Repeat(0, 0, 3)), None);
    assert_eq!(
        checked_shape_after(&huge, &ResolvedInstr::Repeat(0, 1, 3)),
        Some(Shape2(usize::MAX / 2, 3))
    );
    let full = [Shape2(1, usize::MAX)];
    assert_eq!(checked_shape_after(&full, &ResolvedInstr::Concat(0, 0, 1)), None);
    assert_eq!(
        checked_shape_after(&full, &ResolvedInstr::Concat(0, 0, 0)),
        Some(Shape2(2, usize::MAX))
    );
}
