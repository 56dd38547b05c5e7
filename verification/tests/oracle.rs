use burnmark::oracle::{
    assert_agreement, compare_gradients, grad_run, leaf_count_message, leaf_label, settle,
    tensor_run, Divergence, Finding, GradVerdict, Reading,
};

const TOLERANCE: f32 = 1e-4;

fn beyond(a: f32, b: f32) -> bool {
    (a - b).abs() > TOLERANCE * a.abs().max(b.abs()).max(1.0)
}

fn values_diverge(a: f32, b: f32) -> bool {
    burnmark::oracle::values_diverge(a.to_bits(), b.to_bits(), beyond(a, b))
}

fn reading(reference: &[f32], values: &[f32]) -> Reading {
    Reading {
        values: values.iter().map(|v| v.to_bits()).collect(),
        beyond: values
            .iter()
            .enumerate()
            .map(|(i, b)| reference.get(i).map_or(false, |a| beyond(*a, *b)))
            .collect(),
    }
}

fn divergences(results: &[(&str, &[f32])], label: &str) -> Vec<String> {
    let reference: &[f32] = results.first().map(|r| r.1).unwrap_or(&[]);
    let readings: Vec<Reading> = results.iter().map(|r| reading(reference, r.1)).collect();
    let report = burnmark::oracle::divergences(&readings.iter().collect());
    report
        .iter()
        .map(|d| {
            let (name, values) = results[d.run];
            let (shown, reference_shown) = match d.finding {
                Finding::Values { first, .. } => {
                    (format!("{:?}", values[first]), format!("{:?}", reference[first]))
                }
                Finding::Length { .. } => (String::new(), String::new()),
            };
            d.to_text(label, name, results[0].0, &shown, &reference_shown)
        })
        .collect()
}

#[test]
fn special_value_divergence_is_detected() {
    assert!(values_diverge(f32::NAN, -0.0));
    assert!(values_diverge(-0.0, f32::NAN), "and in the other direction");
    assert!(values_diverge(f32::NAN, 42.0));
    assert!(values_diverge(f32::INFINITY, f32::NEG_INFINITY));
    assert!(values_diverge(f32::INFINITY, 1.0));
    assert!(values_diverge(1.0, f32::NEG_INFINITY));
}

#[test]
fn matching_special_values_agree() {
    assert!(!values_diverge(f32::NAN, f32::NAN));
    assert!(!values_diverge(f32::INFINITY, f32::INFINITY));
    assert!(!values_diverge(f32::NEG_INFINITY, f32::NEG_INFINITY));
}

#[test]
fn finite_comparison_still_honours_tolerance() {
    assert!(!values_diverge(1.0, 1.0));
    assert!(!values_diverge(1.0, 1.000_01), "inside 1e-4 relative");
    assert!(values_diverge(1.0, 1.01), "outside 1e-4 relative");
    assert!(!values_diverge(0.0, -0.0));
}

#[test]
fn every_diverging_backend_is_reported() {
    let libtorch = [-0.0_f32, -4.0, 0.5, -0.0];
    let ndarray = [-2.0_f32, -4.0, 0.5, -0.333_333_34];
    let flex = [f32::NAN, -4.0, 0.5, f32::NAN];

    let report = divergences(
        &[("libtorch", &libtorch), ("ndarray", &ndarray), ("flex", &flex)],
        "grad r0",
    );
    assert_eq!(report.len(), 2, "both wrong backends must be named: {report:?}");
    assert!(report[0].contains("ndarray") && report[0].contains("2/4"));
    assert!(report[1].contains("flex") && report[1].contains("2/4"));
    assert!(report[1].contains("NaN"), "report should show the offending value");
    assert_eq!(
        report[0],
        "grad r0: ndarray diverges from libtorch at 2/4 elements \
         (first at [0]: ndarray=-2.0, libtorch=-0.0)"
    );
}

#[test]
fn reference_side_is_the_first_entry() {
    let ndarray = [-2.0_f32, -4.0];
    let flex = [f32::NAN, -4.0];
    let report = divergences(&[("flex", &flex), ("ndarray", &ndarray)], "g");
    assert_eq!(report.len(), 1);
    assert!(report[0].contains("ndarray diverges from flex"), "{report:?}");
}

#[test]
fn agreement_and_single_backend_produce_no_report() {
    let a = [1.0_f32, 2.0];
    assert!(divergences(&[("ref", &a), ("other", &a)], "x").is_empty());
    assert!(divergences(&[("ref", &a)], "x").is_empty());
    assert!(divergences(&[], "x").is_empty());
}

#[test]
fn shape_mismatch_is_reported_not_panicked() {
    let short = [1.0_f32];
    let long = [1.0_f32, 2.0];
    let report = divergences(&[("ref", &long), ("other", &short)], "x");
    assert_eq!(report.len(), 1);
    assert!(report[0].contains("1 elements"));
    assert_eq!(report[0], "x: other produced 1 elements, ref produced 2");
}

#[test]
fn every_bit_pattern_class_is_told_apart() {
    let finite = [0.0_f32, -0.0, f32::MIN_POSITIVE, 1e-45, f32::MAX, f32::MIN, -1.5];
    for a in finite {
        assert!(!values_diverge(a, a));
        assert!(values_diverge(a, f32::INFINITY));
        assert!(values_diverge(f32::NEG_INFINITY, a));
        assert!(values_diverge(a, f32::NAN));
    }
    for payload in [0x7f80_0001_u32, 0x7fc0_0000, 0xff80_0001, 0xffff_ffff] {
        assert!(!burnmark::oracle::values_diverge(payload, 0x7fc0_0000, true));
        assert!(burnmark::oracle::values_diverge(payload, 0x7f80_0000, false));
    }
}

#[test]
fn findings_count_and_locate() {
    let reference = [1.0_f32, 2.0, 3.0, 4.0];
    let other = [1.0_f32, 2.5, 3.0, 5.0];
    assert_eq!(
        reading(&reference, &other).compare(&reading(&reference, &reference)),
        Some(Finding::Values { count: 2, total: 4, first: 1 })
    );
    assert_eq!(reading(&reference, &reference).compare(&reading(&[], &reference)), None);
}

#[test]
fn gradients_are_compared_leaf_by_leaf() {
    let one = |values: &[f32]| reading(values, values);
    assert!(matches!(compare_gradients(&vec![]), GradVerdict::Agree));
    assert!(matches!(compare_gradients(&vec![vec![one(&[1.0])]]), GradVerdict::Agree));
    assert!(matches!(
        compare_gradients(&vec![vec![one(&[1.0])], vec![one(&[1.0])], vec![]]),
        GradVerdict::LeafCount { run: 2 }
    ));
    let runs = vec![
        vec![one(&[1.0]), one(&[2.0, 3.0])],
        vec![one(&[1.0]), reading(&[2.0, 3.0], &[2.0, 9.0])],
    ];
    match compare_gradients(&runs) {
        GradVerdict::Diverged { leaf, report } => {
            assert_eq!(leaf, 1);
            let expected = Finding::Values { count: 1, total: 2, first: 1 };
            assert_eq!(report, vec![Divergence { run: 1, finding: expected }]);
        }
        other => panic!("{other:?}"),
    }
}

#[test]
fn messages() {
    assert_eq!(assert_agreement(&vec![]), Ok(()));
    assert_eq!(
        assert_agreement(&vec!["a".to_string(), "b".to_string(), "c".to_string()]),
        Err("differential divergence:\na\nb\nc".to_string())
    );
    assert_eq!(leaf_label(12), "grad r12");
    assert_eq!(leaf_count_message("cpu", 3, "flex", 10), "leaf count mismatch: cpu=3, flex=10");
}

#[test]
fn a_run_ends_with_its_first_failure() {
    let fine: Vec<Result<u8, String>> = vec![Ok(3), Ok(1)];
    assert_eq!(settle(fine), Ok(vec![3, 1]));
    assert_eq!(settle(Vec::<Result<u8, String>>::new()), Ok(vec![]));
    let failing = vec![Ok(3), Err("first".to_string()), Ok(1), Err("second".to_string())];
    assert_eq!(settle(failing), Err("first".to_string()));
}

#[test]
fn a_tensor_run_reports_every_divergence() {
    let reference = [1.0, 2.0];
    let outcome = |values: &[f32]| Ok(reading(&reference, values));
    let (readings, report) = tensor_run(vec![
        outcome(&[1.0, 2.0]),
        outcome(&[1.0, 3.0]),
        outcome(&[1.0, 2.0]),
        outcome(&[1.0]),
    ])
    .unwrap();
    assert_eq!(readings.len(), 4);
    assert_eq!(
        report,
        vec![
            Divergence { run: 1, finding: Finding::Values { count: 1, total: 2, first: 1 } },
            Divergence { run: 3, finding: Finding::Length { len: 1, expected: 2 } },
        ]
    );
    let (_, report) = tensor_run(vec![outcome(&[1.0, 2.0]), outcome(&[1.0, 2.0])]).unwrap();
    assert!(report.is_empty());
    let failed = tensor_run(vec![outcome(&[1.0, 2.0]), Err("burn panicked".to_string())]);
    assert_eq!(failed.unwrap_err(), "burn panicked");
}

#[test]
fn an_autograd_run_has_a_verdict() {
    let reference = [1.0, 2.0];
    let leaf = |values: &[f32]| reading(&reference, values);
    let same = || Ok(vec![leaf(&[1.0, 2.0]), leaf(&[1.0, 2.0])]);
    let (runs, verdict) = grad_run(vec![same(), same()]).unwrap();
    assert_eq!(runs.len(), 2);
    assert!(matches!(verdict, GradVerdict::Agree));
    let (_, verdict) = grad_run(vec![same(), Ok(vec![leaf(&[1.0, 2.0])])]).unwrap();
    assert!(matches!(verdict, GradVerdict::LeafCount { run: 1 }));
    let other = Ok(vec![leaf(&[1.0, 2.0]), leaf(&[1.0, 2.5])]);
    let (_, verdict) = grad_run(vec![same(), same(), other]).unwrap();
    match verdict {
        GradVerdict::Diverged { leaf, report } => {
            assert_eq!(leaf, 1);
            assert_eq!(report.len(), 1);
            assert_eq!(report[0].run, 2);
        }
        _ => panic!("the gradients differ"),
    }
    assert_eq!(grad_run(vec![same(), Err("lost".to_string()), same()]).unwrap_err(), "lost");
}

#[test]
fn reports_on_joined_lists_are_joined() {
    let reference = [1.0, 2.0];
    let left = [reading(&reference, &reference), reading(&reference, &[1.0, 9.0])];
    let right = [
        reading(&reference, &reference),
        reading(&reference, &[1.0]),
        reading(&reference, &[1.0, 2.0]),
        reading(&reference, &[7.0, 8.0]),
    ];
    let report = |list: Vec<&Reading>| burnmark::oracle::divergences(&list);
    let mut expected = report(left.iter().collect());
    for d in report(right.iter().collect()) {
        let raised = Divergence { run: d.run + left.len() - 1, finding: d.finding };
        assert_eq!(raised.to_text("l", "n", "r", "x", "y"), d.to_text("l", "n", "r", "x", "y"));
        expected.push(raised);
    }
    let joined = left.iter().chain(&right[1..]).collect();
    assert_eq!(report(joined), expected);
    assert_eq!(expected.iter().map(|d| d.run).collect::<Vec<_>>(), vec![1, 2, 4]);
}

#[test]
fn each_tolerance_outcome_counts() {
    let values: Vec<u32> = [1.0_f32, 2.0, 3.0].iter().map(|v| v.to_bits()).collect();
    let reference = Reading { values: values.clone(), beyond: vec![false; 3] };
    for i in 0..3 {
        let mut beyond = vec![false; 3];
        beyond[i] = true;
        let other = Reading { values: values.clone(), beyond };
        assert_eq!(
            other.compare(&reference),
            Some(Finding::Values { count: 1, total: 3, first: i })
        );
    }
    assert_eq!(reference.compare(&reference), None);
    let unfinished = Reading { values, beyond: vec![] };
    assert_eq!(unfinished.compare(&reference), None);
}
