use c0_tester::checker::{compare_behaviors, resolve_behaviors, run_test, Failure, TestResult};
use c0_tester::executer::{Executer, ExecuterKind, ExecuterProperties, HarnessError};
use c0_tester::parse_spec::{parse, ParseOptions};
use c0_tester::spec::{Behavior, ImplementationPredicate, Spec, TestExecutionInfo, TestInfo};
use std::cell::Cell;

const ALL: [Behavior; 11] = [
    Behavior::CompileError,
    Behavior::Runs,
    Behavior::InfiniteLoop,
    Behavior::Abort,
    Behavior::Failure,
    Behavior::Segfault,
    Behavior::DivZero,
    Behavior::Return(None),
    Behavior::Return(Some(0)),
    Behavior::Return(Some(-3)),
    Behavior::Skipped,
];

fn props(safe: bool) -> ExecuterProperties {
    ExecuterProperties {
        libraries: true,
        typechecked: true,
        garbage_collected: true,
        safe,
        name: "cc0".to_string(),
    }
}

fn test_info(specs: Vec<Spec>) -> TestInfo {
    TestInfo {
        execution: TestExecutionInfo {
            sources: vec!["/tests/basic/t.c0".to_string()],
            compiler_options: vec![],
            directory: "/tests/basic".to_string(),
        },
        specs,
    }
}

fn safe_returns_zero() -> Vec<Spec> {
    vec![Spec::Implication(ImplementationPredicate::Safe, Box::new(Spec::Behavior(Behavior::Return(Some(0)))))]
}

struct Fake {
    props: ExecuterProperties,
    outcome: Behavior,
    runs: Cell<usize>,
}

impl Executer for Fake {
    fn run_test(&self, _test: &TestExecutionInfo) -> Result<(String, Behavior), HarnessError> {
        self.runs.set(self.runs.get() + 1);
        Ok(("out".to_string(), self.outcome))
    }

    fn properties(&self) -> ExecuterProperties {
        ExecuterProperties { name: self.props.name.clone(), ..self.props }
    }
}

struct Broken;

impl Executer for Broken {
    fn run_test(&self, _test: &TestExecutionInfo) -> Result<(String, Behavior), HarnessError> {
        Err(HarnessError::MissingReturnValue)
    }

    fn properties(&self) -> ExecuterProperties {
        props(true)
    }
}

#[test]
fn wildcard_return_matches_any_value() {
    for x in [i32::MIN, -1, 0, 3, i32::MAX] {
        assert!(Behavior::Return(None) == Behavior::Return(Some(x)));
        assert!(Behavior::Return(Some(x)) == Behavior::Return(None));
    }
}

#[test]
fn skipped_matches_everything() {
    for b in ALL {
        assert!(Behavior::Skipped == b);
        assert!(b == Behavior::Skipped);
    }
}

#[test]
fn distinct_values_and_variants_differ() {
    assert!(Behavior::Return(Some(3)) != Behavior::Return(Some(4)));
    assert!(Behavior::Segfault != Behavior::DivZero);
    assert!(Behavior::Runs != Behavior::Return(None));
}

#[test]
fn safe_implication_resolves_for_safe_executer() {
    let specs = safe_returns_zero();
    let behaviors = resolve_behaviors(&specs, &props(true));
    assert_eq!(behaviors.len(), 1);
    assert!(matches!(behaviors[0], Behavior::Return(Some(0))));
}

#[test]
fn safe_implication_is_vacuous_for_unsafe_executer() {
    let specs = safe_returns_zero();
    assert!(resolve_behaviors(&specs, &props(false)).is_empty());
    for actual in ALL {
        let fake = Fake { props: props(false), outcome: actual, runs: Cell::new(0) };
        let result = run_test(&fake, &test_info(safe_returns_zero()));
        assert!(matches!(result, Ok(TestResult::Success)));
        assert_eq!(fake.runs.get(), 0);
    }
}

#[test]
fn mismatch_carries_both_behaviors_and_output() {
    let fake = Fake { props: props(true), outcome: Behavior::Segfault, runs: Cell::new(0) };
    match run_test(&fake, &test_info(safe_returns_zero())) {
        Ok(TestResult::Mismatch(f)) => {
            assert!(matches!(f.expected, Behavior::Return(Some(0))));
            assert!(matches!(f.actual, Behavior::Segfault));
            assert_eq!(f.output, "out");
        }
        other => panic!("unexpected {:?}", other),
    }
    assert_eq!(fake.runs.get(), 1);
}

#[test]
fn matching_run_succeeds() {
    let fake = Fake { props: props(true), outcome: Behavior::Return(Some(0)), runs: Cell::new(0) };
    assert!(matches!(run_test(&fake, &test_info(safe_returns_zero())), Ok(TestResult::Success)));
}

#[test]
fn harness_errors_pass_through() {
    assert!(matches!(
        run_test(&Broken, &test_info(safe_returns_zero())),
        Err(HarnessError::MissingReturnValue)
    ));
}

#[test]
fn every_applicable_entry_must_match() {
    // Two entries that both apply and disagree can never pass
    let specs = parse("safe => runs; lib => segfault", ParseOptions { require_test_marker: false }).unwrap();
    let expected = resolve_behaviors(&specs, &props(true));
    assert_eq!(expected.len(), 2);
    match compare_behaviors(&expected, String::new(), Behavior::Segfault) {
        TestResult::Mismatch(f) => assert!(matches!(f.expected, Behavior::Runs)),
        other => panic!("unexpected {:?}", other),
    }
    match compare_behaviors(&expected, String::new(), Behavior::Runs) {
        TestResult::Mismatch(f) => assert!(matches!(f.expected, Behavior::Segfault)),
        other => panic!("unexpected {:?}", other),
    }
    assert!(matches!(compare_behaviors(&expected, String::new(), Behavior::Skipped), TestResult::Success));
}

#[test]
fn executer_kinds_have_their_properties() {
    let cc0 = ExecuterKind::CC0.properties();
    assert!(cc0.libraries && cc0.typechecked && cc0.garbage_collected && cc0.safe);
    assert_eq!(cc0.name, "cc0");
    let vm = ExecuterKind::C0VM.properties();
    assert!(!vm.garbage_collected && vm.safe);
    assert_eq!(vm.name, "cc0_c0vm");
    let coin = ExecuterKind::Coin.properties();
    assert!(!coin.garbage_collected);
    assert_eq!(coin.name, "coin");
}

#[test]
fn predicates_evaluate_against_properties() {
    let p = props(true);
    let name = ImplementationPredicate::ImplementationName("cc0".to_string());
    assert!(p.matches_predicate(&name));
    let other = ImplementationPredicate::ImplementationName("coin".to_string());
    assert!(!p.matches_predicate(&other));
    assert!(!p.matches_predicate(&ImplementationPredicate::False));
    let not_gc = ImplementationPredicate::Not(Box::new(ImplementationPredicate::GarbageCollected));
    assert!(!p.matches_predicate(&not_gc));
    let either = ImplementationPredicate::Or(Box::new(ImplementationPredicate::False), Box::new(other));
    assert!(!p.matches_predicate(&either));
    let both = ImplementationPredicate::And(Box::new(ImplementationPredicate::Library), Box::new(name));
    assert!(p.matches_predicate(&both));
}

#[test]
fn timeouts_are_infinite_loops() {
    let f = Failure { expected: Behavior::Runs, actual: Behavior::InfiniteLoop, output: String::new() };
    assert!(f.is_timeout());
    let f = Failure { expected: Behavior::Runs, actual: Behavior::Abort, output: String::new() };
    assert!(!f.is_timeout());
    let f = Failure { expected: Behavior::Runs, actual: Behavior::Skipped, output: String::new() };
    assert!(!f.is_timeout());
}

#[test]
fn texts_of_behaviors_and_specs() {
    assert_eq!(Behavior::Return(Some(-42)).to_string(), "return -42");
    assert_eq!(Behavior::Return(None).to_string(), "return *");
    assert_eq!(Behavior::Failure.to_string(), "fail");
    assert_eq!(Behavior::Skipped.to_string(), "<skipped>");
    let specs = parse("safe, !gc or coin => return 7", ParseOptions { require_test_marker: false }).unwrap();
    assert_eq!(specs[0].to_string(), "safe, !gc or coin => return 7");
    let f = Failure { expected: Behavior::Runs, actual: Behavior::Segfault, output: "boom".to_string() };
    assert_eq!(f.to_string(), "expected runs, got segfault\nboom");
    let f = Failure { expected: Behavior::Runs, actual: Behavior::Segfault, output: String::new() };
    assert_eq!(f.to_string(), "expected runs, got segfault");
}

#[test]
fn text_of_a_test() {
    let mut info = test_info(parse("safe => segfault; runs", ParseOptions { require_test_marker: false }).unwrap());
    info.execution.sources.push("lib.c1".to_string());
    info.execution.compiler_options.push("-d".to_string());
    assert_eq!(info.to_string(), "basic/t.c0 lib.c1 -d: safe => segfault; runs");
}
