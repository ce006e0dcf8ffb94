use c0_tester::parse_spec::{lex_spec, parse, ParseOptions, SpecParseError, SpecToken};
use c0_tester::spec::{Behavior, ImplementationPredicate, Spec};

fn parse_test(input: &str, valid: bool) {
    let result = parse(input, ParseOptions { require_test_marker: true });

    println!("{}: {:?}", input, result);
    if result.is_ok() != valid {
        panic!("{} {}", input, if result.is_ok() { "parsed" } else { "did not parse" })
    }
}

fn parse_plain(input: &str) -> Vec<Spec> {
    parse(input, ParseOptions { require_test_marker: false }).unwrap()
}

fn is_name(p: &ImplementationPredicate, expected: &str) -> bool {
    matches!(p, ImplementationPredicate::ImplementationName(n) if n == expected)
}

#[test]
fn parse_spec_test() {
    parse_test("//test return 5", true);
    parse_test("//test safe => return 5", true);
    parse_test("//test safe, typecheck => return 5", true);
    parse_test("//test cc0 or coin => return 5", true);

    parse_test("//test safe => segfault; !safe => runs", true);
    parse_test("//test safe => !cc0_c0vm => div-by-zero", true)
}

#[test]
fn lexer_test() {
    let tokens: Vec<SpecToken> = lex_spec("safe => return 5").iter().map(|l| l.token).collect();
    assert_eq!(tokens, vec![SpecToken::Safe, SpecToken::FatArrow, SpecToken::Return(Some(5))]);
    let tokens: Vec<SpecToken> = lex_spec("safe => return *").iter().map(|l| l.token).collect();
    assert_eq!(tokens, vec![SpecToken::Safe, SpecToken::FatArrow, SpecToken::Return(None)]);
    let tokens: Vec<SpecToken> = lex_spec("safe => return *").iter().map(|l| l.token).collect();
    assert_eq!(tokens, vec![SpecToken::Safe, SpecToken::FatArrow, SpecToken::Return(None)]);
}

#[test]
fn lexer_spans_and_words() {
    let lexemes = lex_spec("//test cc0_c0vm or returns");
    let tokens: Vec<SpecToken> = lexemes.iter().map(|l| l.token).collect();
    assert_eq!(
        tokens,
        vec![SpecToken::TestStartMarker, SpecToken::Implementation, SpecToken::Or, SpecToken::Implementation]
    );
    assert_eq!((lexemes[1].start, lexemes[1].end), (7, 15));
    assert_eq!((lexemes[3].start, lexemes[3].end), (19, 26));
}

#[test]
fn lexer_numbers() {
    let tokens: Vec<SpecToken> = lex_spec("return -7 return 0x1F return +3").iter().map(|l| l.token).collect();
    assert_eq!(
        tokens,
        vec![SpecToken::Return(Some(-7)), SpecToken::Return(Some(31)), SpecToken::Return(Some(3))]
    );
    let tokens: Vec<SpecToken> = lex_spec("return -2147483648").iter().map(|l| l.token).collect();
    assert_eq!(tokens, vec![SpecToken::Return(Some(i32::MIN))]);
    // Out of range, or a return without its argument
    let tokens: Vec<SpecToken> = lex_spec("return 2147483648").iter().map(|l| l.token).collect();
    assert_eq!(tokens, vec![SpecToken::Error]);
    let tokens: Vec<SpecToken> = lex_spec("return").iter().map(|l| l.token).collect();
    assert_eq!(tokens, vec![SpecToken::Error]);
}

#[test]
fn parses_bare_return() {
    let specs = parse_plain("return 5");
    assert_eq!(specs.len(), 1);
    assert!(matches!(specs[0], Spec::Behavior(Behavior::Return(Some(5)))));
}

#[test]
fn parses_implication() {
    let specs = parse_plain("safe => return 5");
    assert_eq!(specs.len(), 1);
    match &specs[0] {
        Spec::Implication(ImplementationPredicate::Safe, c) => {
            assert!(matches!(**c, Spec::Behavior(Behavior::Return(Some(5)))))
        }
        other => panic!("unexpected {:?}", other),
    }
}

#[test]
fn parses_conjunction() {
    let specs = parse_plain("safe, typecheck => return 5");
    match &specs[0] {
        Spec::Implication(ImplementationPredicate::And(a, b), _) => {
            assert!(matches!(**a, ImplementationPredicate::Safe));
            assert!(matches!(**b, ImplementationPredicate::Typechecked));
        }
        other => panic!("unexpected {:?}", other),
    }
}

#[test]
fn parses_disjunction_of_names() {
    let specs = parse_plain("cc0 or coin => return 5");
    match &specs[0] {
        Spec::Implication(ImplementationPredicate::Or(a, b), _) => {
            assert!(is_name(a, "cc0"));
            assert!(is_name(b, "coin"));
        }
        other => panic!("unexpected {:?}", other),
    }
}

#[test]
fn parses_two_entries() {
    let specs = parse_plain("safe => segfault; !safe => runs");
    assert_eq!(specs.len(), 2);
    assert!(matches!(&specs[0], Spec::Implication(ImplementationPredicate::Safe, c) if matches!(**c, Spec::Behavior(Behavior::Segfault))));
    match &specs[1] {
        Spec::Implication(ImplementationPredicate::Not(p), c) => {
            assert!(matches!(**p, ImplementationPredicate::Safe));
            assert!(matches!(**c, Spec::Behavior(Behavior::Runs)));
        }
        other => panic!("unexpected {:?}", other),
    }
}

#[test]
fn and_binds_tighter_than_or() {
    let specs = parse_plain("a or b, c => runs");
    match &specs[0] {
        Spec::Implication(ImplementationPredicate::Or(a, bc), _) => {
            assert!(is_name(a, "a"));
            match &**bc {
                ImplementationPredicate::And(b, c) => {
                    assert!(is_name(b, "b"));
                    assert!(is_name(c, "c"));
                }
                other => panic!("unexpected {:?}", other),
            }
        }
        other => panic!("unexpected {:?}", other),
    }
}

#[test]
fn chained_implications() {
    let specs = parse_plain("safe => !cc0_c0vm => div-by-zero");
    match &specs[0] {
        Spec::Implication(ImplementationPredicate::Safe, c) => match &**c {
            Spec::Implication(ImplementationPredicate::Not(n), d) => {
                assert!(is_name(n, "cc0_c0vm"));
                assert!(matches!(**d, Spec::Behavior(Behavior::DivZero)));
            }
            other => panic!("unexpected {:?}", other),
        },
        other => panic!("unexpected {:?}", other),
    }
}

#[test]
fn missing_marker_is_not_a_spec() {
    assert!(matches!(
        parse("return 5", ParseOptions { require_test_marker: true }),
        Err(SpecParseError::NotSpec)
    ));
    assert!(matches!(parse("", ParseOptions { require_test_marker: true }), Err(SpecParseError::NotSpec)));
}

#[test]
fn unexpected_token_reports_its_text() {
    match parse("safe lib => runs", ParseOptions { require_test_marker: false }) {
        Err(SpecParseError::UnexpectedToken { actual, range, .. }) => {
            assert_eq!(actual, "lib");
            assert_eq!(range, 5..8);
        }
        other => panic!("unexpected {:?}", other),
    }
}

#[test]
fn unexpected_end_of_input() {
    assert!(matches!(
        parse("safe =>", ParseOptions { require_test_marker: false }),
        Err(SpecParseError::UnexpectedEOF { .. })
    ));
    assert!(matches!(
        parse("", ParseOptions { require_test_marker: false }),
        Err(SpecParseError::NotSpec)
    ));
    assert!(matches!(
        parse(" \t ", ParseOptions { require_test_marker: false }),
        Err(SpecParseError::NotSpec)
    ));
    assert!(matches!(
        parse("//test return 1;", ParseOptions { require_test_marker: true }),
        Err(SpecParseError::UnexpectedEOF { .. })
    ));
}

fn error_of(input: &str, require_test_marker: bool) -> SpecParseError {
    parse(input, ParseOptions { require_test_marker }).unwrap_err()
}

#[test]
fn error_kinds_and_expectations() {
    match error_of("//test safe", true) {
        SpecParseError::UnexpectedEOF { msg } => assert_eq!(msg, "'=>' between implementation and behavior"),
        other => panic!("unexpected {:?}", other),
    }
    match error_of("safe =>", false) {
        SpecParseError::UnexpectedEOF { msg } => assert_eq!(msg, "implementation or behavior"),
        other => panic!("unexpected {:?}", other),
    }
    match error_of("safe or", false) {
        SpecParseError::UnexpectedEOF { msg } => assert_eq!(msg, "implementation predicate"),
        other => panic!("unexpected {:?}", other),
    }
    match error_of("safe lib => runs", false) {
        SpecParseError::UnexpectedToken { actual, msg, .. } => {
            assert_eq!(actual, "lib");
            assert_eq!(msg, "'=>' between implementation and behavior");
        }
        other => panic!("unexpected {:?}", other),
    }
    match error_of("return 1 return 2", false) {
        SpecParseError::UnexpectedToken { actual, range, msg } => {
            assert_eq!(actual, "return 2");
            assert_eq!(range, 9..17);
            assert_eq!(msg, "semicolon to separate tests");
        }
        other => panic!("unexpected {:?}", other),
    }
    match error_of("=> runs", false) {
        SpecParseError::UnexpectedToken { actual, msg, .. } => {
            assert_eq!(actual, "=>");
            assert_eq!(msg, "implementation predicate type or prefix operator");
        }
        other => panic!("unexpected {:?}", other),
    }
}
