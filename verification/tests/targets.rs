use burnmark::config::{EnvVars, FuzzConfig, HarnessMode};
use burnmark::selection::{
    names_in, select_targets, targets_from_env, targets_from_list, SelectionError,
};
use burnmark::target::{Backend, Features, Target};

const NONE: Features = Features { flex: false, tch: false, cpu: false, tch_raw: false, candle: false };
const ALL: Features = Features { flex: true, tch: true, cpu: true, tch_raw: true, candle: true };

fn position(backend: Backend) -> Option<usize> {
    Backend::ALL.iter().position(|x| *x == backend)
}

fn place(target: Target) -> Option<usize> {
    Target::all().iter().position(|x| *x == target)
}

#[test]
fn ndarray_is_always_available() {
    assert!(Backend::NdArray.is_compiled_in());
    assert!(Backend::available().contains(&Backend::NdArray));
}

#[test]
fn available_lists_reference_side_first() {
    let available = Backend::available();
    if available.contains(&Backend::Cpu) {
        assert_eq!(available[0], Backend::Cpu);
    } else if available.contains(&Backend::LibTorch) {
        assert_eq!(available[0], Backend::LibTorch);
    }
    assert!(available.iter().all(|b| b.is_compiled_in()));
}

#[test]
fn cpu_outranks_libtorch_as_reference() {
    assert!(position(Backend::Cpu) < position(Backend::LibTorch));
    assert!(position(Backend::LibTorch) < position(Backend::NdArray));
}

#[test]
fn names_round_trip() {
    for backend in Backend::ALL {
        assert_eq!(
            Backend::from_name(backend.name()),
            Some(backend),
            "{} must parse back to itself",
            backend.name()
        );
    }
    assert_eq!(Backend::from_name("tch"), Some(Backend::LibTorch));
    assert_eq!(Backend::from_name("cubecl-cpu"), Some(Backend::Cpu));
    assert_eq!(Backend::from_name("nonsense"), None);
}

#[test]
fn target_names_round_trip() {
    for target in Target::all() {
        assert_eq!(
            Target::from_name(target.name()),
            Some(target),
            "{} must parse back to itself",
            target.name()
        );
    }
    assert_eq!(Target::from_name("nonsense"), None);
}

#[test]
fn raw_tch_and_burns_libtorch_backend_are_distinct() {
    for burn_name in ["libtorch", "tch", "torch"] {
        assert_eq!(
            Target::from_name(burn_name),
            Some(Target::Burn(Backend::LibTorch)),
            "{burn_name:?} must stay burn's tch backend"
        );
    }
    for raw_name in ["tch-raw", "raw-tch", "tch_raw", "rawtch"] {
        assert_eq!(
            Target::from_name(raw_name),
            Some(Target::TchRaw),
            "{raw_name:?} must be the non-burn target"
        );
    }
    assert_ne!(Target::TchRaw.name(), Target::Burn(Backend::LibTorch).name());
}

#[test]
fn raw_tch_leads_the_trust_order() {
    assert!(place(Target::TchRaw) < place(Target::Candle));
    assert!(place(Target::Candle) < place(Target::Burn(Backend::Cpu)));
    assert!(place(Target::Burn(Backend::Cpu)) < place(Target::Burn(Backend::LibTorch)));
    assert!(place(Target::Burn(Backend::LibTorch)) < place(Target::Burn(Backend::NdArray)));
}

#[test]
fn non_burn_targets_outrank_every_burn_target() {
    let all = Target::all();
    let last_non_burn = all
        .iter()
        .rposition(|t| !matches!(t, Target::Burn(_)))
        .expect("at least one non-burn target");
    let first_burn = all
        .iter()
        .position(|t| matches!(t, Target::Burn(_)))
        .expect("at least one burn target");
    assert!(last_non_burn < first_burn, "{:?}", all);
}

#[test]
fn every_burn_backend_has_a_target_slot() {
    for backend in Backend::ALL {
        assert!(
            Target::all().contains(&Target::Burn(backend)),
            "{} has no Target slot",
            backend.name()
        );
    }
    assert_eq!(
        Target::all().len(),
        Backend::ALL.len() + 2,
        "burn backends + the two non-burn targets (tch-raw, candle)"
    );
}

#[test]
fn burn_ordering_is_preserved_inside_target_ordering() {
    let lifted: Vec<Backend> = Target::all()
        .iter()
        .filter_map(|t| match t {
            Target::Burn(b) => Some(*b),
            Target::TchRaw | Target::Candle => None,
        })
        .collect();
    assert_eq!(lifted, Backend::ALL.to_vec());
}

#[test]
fn available_targets_are_compiled_in() {
    let available = Target::available();
    assert!(available.iter().all(|t| t.is_compiled_in()));
    assert!(available.contains(&Target::Burn(Backend::NdArray)));
}

#[test]
fn aliases_and_features() {
    assert_eq!(Backend::from_name("nd"), Some(Backend::NdArray));
    assert_eq!(Backend::from_name("torch"), Some(Backend::LibTorch));
    assert_eq!(Backend::from_name("cubecl"), None);
    assert_eq!(Target::from_name("candle-core"), Some(Target::Candle));
    assert_eq!(Target::Burn(Backend::NdArray).feature(), "ndarray (always compiled in)");
    assert_eq!(Target::Burn(Backend::Flex).feature(), "oracle-flex");
    assert_eq!(Target::Burn(Backend::LibTorch).feature(), "oracle-tch");
    assert_eq!(Target::Burn(Backend::Cpu).feature(), "oracle-cpu");
    assert_eq!(Target::TchRaw.feature(), "oracle-tch-raw");
    assert_eq!(Target::Candle.feature(), "oracle-candle");
}

#[test]
fn a_build_runs_what_it_is_linked_with() {
    assert_eq!(Backend::available_in(NONE), vec![Backend::NdArray]);
    assert_eq!(Backend::available_in(ALL), Backend::ALL.to_vec());
    assert_eq!(Target::available_in(NONE), vec![Target::Burn(Backend::NdArray)]);
    assert_eq!(Target::available_in(ALL), Target::all().to_vec());
    let some = Features { flex: true, cpu: true, ..NONE };
    assert_eq!(
        Target::available_in(some),
        vec![
            Target::Burn(Backend::Cpu),
            Target::Burn(Backend::NdArray),
            Target::Burn(Backend::Flex)
        ]
    );
    assert_eq!(Target::available(), Target::available_in(Features::enabled()));
    assert!(!Target::TchRaw.is_compiled_in());
}

#[test]
fn lists_select_in_the_order_of_first_mention() {
    let picked = targets_from_list(Some(" Flex, tch-raw ,,FLEX,Candle"), ALL).unwrap();
    assert_eq!(picked, vec![Target::Burn(Backend::Flex), Target::TchRaw, Target::Candle]);
    let again = targets_from_list(Some("nd\t,\u{3000}ndarray\n"), NONE).unwrap();
    assert_eq!(again, vec![Target::Burn(Backend::NdArray)]);
}

#[test]
fn blank_and_all_select_everything() {
    assert_eq!(targets_from_list(None, ALL).unwrap(), Target::all().to_vec());
    assert_eq!(targets_from_list(Some("  \t "), ALL).unwrap(), Target::all().to_vec());
    assert_eq!(targets_from_list(Some(" aLL "), ALL).unwrap(), Target::all().to_vec());
    assert_eq!(targets_from_env(None).unwrap(), Target::available());
    assert!(matches!(
        targets_from_list(Some("all,flex"), ALL),
        Err(SelectionError::Unknown { name }) if name == "all"
    ));
}

#[test]
fn unknown_names_are_refused() {
    let error = targets_from_list(Some("flex, Bogus\"x, nope"), ALL).unwrap_err();
    assert!(matches!(&error, SelectionError::Unknown { name } if name == "bogus\"x"));
    assert_eq!(
        error.message(ALL),
        "invalid BACKENDS entry \"bogus\\\"x\": expected one of \
         ndarray, flex, libtorch, cpu, tch-raw, candle (or `all`)"
    );
}

#[test]
fn unlinked_targets_are_refused() {
    let features = Features { candle: true, ..NONE };
    let error = targets_from_list(Some("candle,raw-tch"), features).unwrap_err();
    assert!(matches!(
        &error,
        SelectionError::Unavailable { name, target: Target::TchRaw } if name == "raw-tch"
    ));
    assert_eq!(
        error.message(features),
        "BACKENDS requested \"raw-tch\", which this build does not support \
         — rebuild with --features oracle-tch-raw. Available: [\"candle\", \"ndarray\"]"
    );
    assert_eq!(
        error.message_showing("<x>", NONE),
        "BACKENDS requested <x>, which this build does not support \
         — rebuild with --features oracle-tch-raw. Available: [\"ndarray\"]"
    );
}

#[test]
fn lists_without_names_are_refused() {
    let error = targets_from_list(Some(" , ,"), ALL).unwrap_err();
    assert!(matches!(error, SelectionError::Nothing));
    assert_eq!(error.message(ALL), "BACKENDS named no usable target");
}

#[test]
fn names_are_trimmed_lowered_and_split() {
    assert_eq!(names_in("A, b c ,,\u{a0}D\u{c9}\u{2003},"), vec!["a", "b c", "d\u{e9}"]);
    assert_eq!(names_in(""), Vec::<String>::new());
    assert_eq!(
        select_targets(&vec!["cpu".to_string(), "cubecl-cpu".to_string()], ALL).unwrap(),
        vec![Target::Burn(Backend::Cpu)]
    );
}

fn unset() -> EnvVars {
    EnvVars {
        max_leaves: None,
        min_ops: None,
        mode: None,
        min_dim: None,
        max_dim: None,
        backends: None,
    }
}

fn set(value: &str) -> Option<String> {
    Some(value.to_string())
}

#[test]
fn an_unset_environment_gives_the_default() {
    let config = FuzzConfig::from_env(&unset()).unwrap();
    let default = FuzzConfig::default();
    assert_eq!(config.max_leaves, 4);
    assert_eq!(config.min_ops, 0);
    assert_eq!(config.mode, HarnessMode::PanicOnFirstError);
    assert_eq!(config.min_dim, 1);
    assert_eq!(config.max_dim, 16);
    assert_eq!(config.targets, Target::available());
    assert_eq!(default.max_leaves, 4);
    assert_eq!(default.min_ops, 0);
    assert_eq!(default.mode, HarnessMode::PanicOnFirstError);
    assert_eq!(default.min_dim, 1);
    assert_eq!(default.max_dim, 16);
    assert_eq!(default.targets, Target::available());
}

#[test]
fn settings_are_read_and_clamped() {
    let config = FuzzConfig::from_env(&EnvVars {
        max_leaves: set("99"),
        min_ops: set("+12"),
        mode: set("ConTinuous"),
        min_dim: set("20"),
        max_dim: set("3"),
        backends: set("ndarray"),
    })
    .unwrap();
    assert_eq!(config.max_leaves, 8);
    assert_eq!(config.min_ops, 12);
    assert_eq!(config.mode, HarnessMode::Continuous);
    assert_eq!(config.min_dim, 20);
    assert_eq!(config.max_dim, 20);
    assert_eq!(config.targets, vec![Target::Burn(Backend::NdArray)]);

    let config = FuzzConfig::from_env(&EnvVars {
        max_leaves: set("0"),
        min_ops: set(" 7"),
        mode: set("continuously"),
        min_dim: set("0"),
        max_dim: set("99999999999999999999999999"),
        backends: None,
    })
    .unwrap();
    assert_eq!(config.max_leaves, 1);
    assert_eq!(config.min_ops, 0);
    assert_eq!(config.mode, HarnessMode::PanicOnFirstError);
    assert_eq!(config.min_dim, 1);
    assert_eq!(config.max_dim, 16);

    for bad in ["", "+", "-1", "1.5", "0x10", "++1"] {
        let env = EnvVars { max_leaves: set(bad), max_dim: set("5000"), ..unset() };
        let config = FuzzConfig::from_env(&env).unwrap();
        assert_eq!(config.max_leaves, 4, "{bad:?} is no number");
        assert_eq!(config.max_dim, 4096);
    }
    assert!(FuzzConfig::from_env(&EnvVars { backends: set("bogus"), ..unset() }).is_err());
}

#[test]
fn settings_follow_the_linked_features() {
    let env = EnvVars { backends: set("tch-raw,NdArray"), mode: set("CONTINUOUS"), ..unset() };
    let config = FuzzConfig::from_env_in(&env, ALL).unwrap();
    assert_eq!(config.targets, vec![Target::TchRaw, Target::Burn(Backend::NdArray)]);
    assert_eq!(config.mode, HarnessMode::Continuous);
    let error = FuzzConfig::from_env_in(&env, NONE).unwrap_err();
    assert!(matches!(
        error,
        SelectionError::Unavailable { name, target: Target::TchRaw } if name == "tch-raw"
    ));
    let all = FuzzConfig::from_env_in(&unset(), ALL).unwrap();
    assert_eq!(all.targets, Target::all().to_vec());
    let none = FuzzConfig::from_env_in(&unset(), NONE).unwrap();
    assert_eq!(none.targets, vec![Target::Burn(Backend::NdArray)]);
}

#[test]
fn a_build_runs_its_backends_after_the_other_targets() {
    for bits in 0..32_u8 {
        let features = Features {
            flex: bits & 1 != 0,
            tch: bits & 2 != 0,
            cpu: bits & 4 != 0,
            tch_raw: bits & 8 != 0,
            candle: bits & 16 != 0,
        };
        let mut expected = Vec::new();
        if features.tch_raw {
            expected.push(Target::TchRaw);
        }
        if features.candle {
            expected.push(Target::Candle);
        }
        expected.extend(Backend::available_in(features).into_iter().map(Target::Burn));
        assert_eq!(Target::available_in(features), expected);
    }
}
