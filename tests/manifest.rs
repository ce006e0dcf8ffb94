use c0_tester::implementations::after_compile;
use c0_tester::manifest::{parse_manifest_line, ManifestError};
use c0_tester::parse_spec::SpecParseError;
use c0_tester::spec::{Behavior, Spec};

#[test]
fn manifest_line_with_sources_and_flags() {
    let test = parse_manifest_line("/t/lib", "safe => return 0 ~ -d a.c0  -lstring\tsub/b.h0 /abs/c.c1")
        .unwrap()
        .unwrap();
    assert_eq!(test.execution.sources, vec!["/t/lib/a.c0", "/t/lib/sub/b.h0", "/abs/c.c1"]);
    assert_eq!(test.execution.compiler_options, vec!["-d", "-lstring"]);
    assert_eq!(test.execution.directory, "/t/lib");
    assert_eq!(test.specs.len(), 1);
    assert!(matches!(test.specs[0], Spec::Implication(..)));
}

#[test]
fn manifest_directory_with_trailing_separator() {
    let test = parse_manifest_line("/t/", "runs~x.c0").unwrap().unwrap();
    assert_eq!(test.execution.sources, vec!["/t/x.c0"]);
    assert!(test.execution.compiler_options.is_empty());
    assert!(matches!(test.specs[0], Spec::Behavior(Behavior::Runs)));
}

#[test]
fn blank_manifest_lines_hold_no_test() {
    assert!(matches!(parse_manifest_line("/t", ""), Ok(None)));
    assert!(matches!(parse_manifest_line("/t", "  \t "), Ok(None)));
}

#[test]
fn manifest_line_errors() {
    assert!(matches!(parse_manifest_line("/t", "return 0 a.c0"), Err(ManifestError::MissingTilde)));
    assert!(matches!(
        parse_manifest_line("/t", "safe => ~ a.c0"),
        Err(ManifestError::Spec(SpecParseError::UnexpectedEOF { .. }))
    ));
    assert!(matches!(parse_manifest_line("/t", " ~ a.c0"), Err(ManifestError::Spec(SpecParseError::NotSpec))));
}

#[test]
fn compile_errors_end_the_test() {
    match after_compile(Err("t.c0:3: error".to_string())) {
        Some((output, Behavior::CompileError)) => assert_eq!(output, "t.c0:3: error"),
        other => panic!("unexpected {:?}", other),
    }
    assert!(after_compile(Ok(())).is_none());
}
