use c0_tester::executer::HarnessError;
use c0_tester::implementations::{compiler_args, interpreter_args, interpreter_skip, is_source_arg};
use c0_tester::launcher::{
    artifact_path, classify_compile, classify_execution, decode_result, resource_limits, result_file_env,
    ProcessStatus, TermSignal,
};
use c0_tester::spec::{Behavior, TestExecutionInfo};

fn behavior_of(status: ProcessStatus, result: Option<i32>) -> Behavior {
    classify_execution(status, result, "captured".to_string()).unwrap().1
}

fn info(sources: &[&str], options: &[&str]) -> TestExecutionInfo {
    TestExecutionInfo {
        sources: sources.iter().map(|s| s.to_string()).collect(),
        compiler_options: options.iter().map(|s| s.to_string()).collect(),
        directory: "/tests/x".to_string(),
    }
}

#[test]
fn division_by_zero_classifies_as_div_zero() {
    assert!(matches!(behavior_of(ProcessStatus::Signaled(TermSignal::Fpe), None), Behavior::DivZero));
}

#[test]
fn cpu_ceiling_classifies_as_infinite_loop() {
    assert!(matches!(behavior_of(ProcessStatus::Signaled(TermSignal::Xcpu), None), Behavior::InfiniteLoop));
    assert!(matches!(behavior_of(ProcessStatus::Signaled(TermSignal::Kill), None), Behavior::InfiniteLoop));
}

#[test]
fn invalid_address_classifies_as_segfault() {
    assert!(matches!(behavior_of(ProcessStatus::Signaled(TermSignal::Segv), None), Behavior::Segfault));
}

#[test]
fn abort_signal_classifies_as_abort() {
    assert!(matches!(behavior_of(ProcessStatus::Signaled(TermSignal::Abrt), None), Behavior::Abort));
}

#[test]
fn clean_exit_with_result_file_returns_its_value() {
    let value = decode_result(&vec![0, 0, 0, 0, 0]);
    assert_eq!(value, Some(0));
    assert!(matches!(behavior_of(ProcessStatus::Exited(0), value), Behavior::Return(Some(0))));
    let (output, _) = classify_execution(ProcessStatus::Exited(0), value, "hi".to_string()).unwrap();
    assert_eq!(output, "hi");
}

#[test]
fn exit_codes_classify() {
    assert!(matches!(behavior_of(ProcessStatus::Exited(1), None), Behavior::Failure));
    assert!(matches!(behavior_of(ProcessStatus::Exited(2), None), Behavior::CompileError));
    assert!(matches!(behavior_of(ProcessStatus::Exited(4), None), Behavior::Failure));
}

#[test]
fn infrastructure_failures_are_errors() {
    let r = |s| classify_execution(s, None, "o".to_string());
    assert!(matches!(r(ProcessStatus::Exited(0)), Err(HarnessError::MissingReturnValue)));
    assert!(matches!(r(ProcessStatus::Exited(100)), Err(HarnessError::ExecFailed { .. })));
    assert!(matches!(r(ProcessStatus::Exited(101)), Err(HarnessError::ChildPanicked { .. })));
    assert!(matches!(r(ProcessStatus::Exited(7)), Err(HarnessError::UnexpectedExit { code: 7, .. })));
    assert!(matches!(
        r(ProcessStatus::Signaled(TermSignal::Other(13))),
        Err(HarnessError::UnexpectedSignal { signal: 13, .. })
    ));
    assert!(matches!(r(ProcessStatus::Other), Err(HarnessError::UnexpectedStatus { .. })));
}

#[test]
fn compiler_outcomes() {
    assert!(matches!(classify_compile(ProcessStatus::Exited(0), String::new()), Ok(Ok(()))));
    match classify_compile(ProcessStatus::Exited(1), "t.c0:1: type error".to_string()) {
        Ok(Err(text)) => assert_eq!(text, "t.c0:1: type error"),
        other => panic!("unexpected {:?}", other),
    }
    assert!(matches!(
        classify_compile(ProcessStatus::Exited(2), String::new()),
        Err(HarnessError::CompilerBackendFailed { .. })
    ));
    assert!(matches!(
        classify_compile(ProcessStatus::Signaled(TermSignal::Xcpu), String::new()),
        Err(HarnessError::CompilerTimedOut { .. })
    ));
    assert!(matches!(classify_compile(ProcessStatus::Exited(100), String::new()), Err(HarnessError::ExecFailed { .. })));
}

#[test]
fn result_file_decoding() {
    let bytes = 1234567i32.to_ne_bytes();
    let file = vec![9, bytes[0], bytes[1], bytes[2], bytes[3]];
    assert_eq!(decode_result(&file), Some(1234567));
    let bytes = (-5i32).to_ne_bytes();
    assert_eq!(decode_result(&vec![0, bytes[0], bytes[1], bytes[2], bytes[3]]), Some(-5));
    assert_eq!(decode_result(&vec![0, 1, 2, 3]), None);
    assert_eq!(decode_result(&vec![]), None);
    assert_eq!(decode_result(&vec![0, 1, 2, 3, 4, 5]), None);
}

#[test]
fn repeated_classification_is_stable() {
    for _ in 0..5 {
        assert!(matches!(behavior_of(ProcessStatus::Signaled(TermSignal::Fpe), None), Behavior::DivZero));
        assert!(matches!(behavior_of(ProcessStatus::Exited(0), Some(3)), Behavior::Return(Some(3))));
    }
}

#[test]
fn artifact_paths_are_unique_per_number() {
    assert_eq!(artifact_path("/work", "a.out", 0, ""), "/work/a.out0");
    assert_eq!(artifact_path("/work", "a.out", 12, ".bc0"), "/work/a.out12.bc0");
    assert_eq!(artifact_path("/w", "c0_result", 907, ""), "/w/c0_result907");
    let mut seen = std::collections::HashSet::new();
    for id in 0..200u64 {
        assert!(seen.insert(artifact_path("/work", "a.out", id, ".bc0")));
    }
    assert_eq!(result_file_env("/w/c0_result3"), "C0_RESULT_FILE=/w/c0_result3");
}

#[test]
fn resource_ceilings() {
    let limits = resource_limits(1 << 30, 10);
    assert_eq!(limits.memory, 1 << 30);
    assert_eq!((limits.cpu_soft, limits.cpu_hard), (10, 15));
    let limits = resource_limits(0, u64::MAX - 2);
    assert_eq!(limits.cpu_hard, u64::MAX);
}

#[test]
fn arguments_for_the_tools() {
    let t = info(&["/t/a.c0", "/t/b.c0"], &["-d", "-lstring"]);
    assert_eq!(
        compiler_args(&t, "-vo", "/w/a.out1"),
        vec!["-d", "-lstring", "/t/a.c0", "/t/b.c0", "-vo", "/w/a.out1"]
    );
    assert_eq!(interpreter_args(&t), vec!["-d", "-lstring", "/t/a.c0", "/t/b.c0"]);
}

#[test]
fn interpreter_skips_c1_tests() {
    let (text, behavior) = interpreter_skip(&info(&["/t/a.c0", "/t/b.c1"], &[])).unwrap();
    assert_eq!(text, "<C1 test skipped>");
    assert!(matches!(behavior, Behavior::Skipped));
    assert!(interpreter_skip(&info(&["/t/a.c0", "/t/c1"], &[])).is_none());
}

#[test]
fn manifest_tokens() {
    assert!(is_source_arg("a.c0"));
    assert!(is_source_arg("lib/x.h1"));
    assert!(!is_source_arg("-lstring"));
    assert!(!is_source_arg("-x.c0"));
    assert!(!is_source_arg("a.c2"));
    assert!(!is_source_arg("c0"));
}

#[test]
fn counter_hands_out_each_number_once() {
    let mut counter = c0_tester::launcher::ArtifactCounter::new();
    assert_eq!(counter.fresh(), Some(0));
    assert_eq!(counter.fresh(), Some(1));
    assert_eq!(counter.fresh(), Some(2));
}
