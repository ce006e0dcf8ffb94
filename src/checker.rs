use vstd::prelude::*;

use crate::executer::{satisfies, Executer, ExecuterProperties, HarnessError};
use crate::spec::{behavior_text, behaviors_match, Behavior, ImplementationPredicate, Spec, TestInfo};

verus! {

/// Test cases either succeed or have a mismatch between the expected
/// behavior and the actual behavior
#[derive(Debug)]
pub enum TestResult {
    Success,
    Mismatch(Failure),
}

/// Contains all information from a failed test run,
/// including stdout/stderr from the compiler or program
/// (depending on which stage failed)
#[derive(Debug)]
pub struct Failure {
    pub expected: Behavior,
    pub actual: Behavior,
    pub output: String,
}

impl Failure {
    /// Whether the test failed by running out of time
    pub fn is_timeout(&self) -> (r: bool)
        ensures
            r == (self.actual is InfiniteLoop),
    {
        matches!(self.actual, Behavior::InfiniteLoop)
    }
}

/// The behavior a spec prescribes for an implementation with properties `p`:
/// the behavior at the end of the chain of implications, if every predicate
/// along the chain holds
pub open spec fn prescribed(spec: Spec, p: ExecuterProperties) -> Option<Behavior>
    decreases spec,
{
    match spec {
        Spec::Behavior(b) => Some(b),
        Spec::Implication(predicate, consequent) => if satisfies(p, predicate) {
            prescribed(*consequent, p)
        } else {
            None
        },
    }
}

/// The behaviors that the specs prescribe for `p`, in order, skipping the
/// specs that prescribe nothing
pub open spec fn expected_behaviors(specs: Seq<Spec>, p: ExecuterProperties) -> Seq<Behavior>
    decreases specs.len(),
{
    if specs.len() == 0 {
        seq![]
    } else {
        let rest = expected_behaviors(specs.drop_last(), p);
        match prescribed(specs.last(), p) {
            Some(b) => rest.push(b),
            None => rest,
        }
    }
}

/// The verdict on a run that showed `actual`: a mismatch with the first
/// expected behavior that `actual` does not match, if any
pub open spec fn verdict(expected: Seq<Behavior>, actual: Behavior, output: String) -> TestResult
    decreases expected.len(),
{
    if expected.len() == 0 {
        TestResult::Success
    } else if !behaviors_match(expected[0], actual) {
        TestResult::Mismatch(Failure { expected: expected[0], actual, output })
    } else {
        verdict(expected.drop_first(), actual, output)
    }
}

/// The result of a test whose specs prescribe `expected` and whose run, if
/// one was needed, gave `run`
pub open spec fn test_outcome(
    expected: Seq<Behavior>,
    run: Result<(String, Behavior), HarnessError>,
) -> Result<TestResult, HarnessError> {
    if expected.len() == 0 {
        Ok(TestResult::Success)
    } else {
        match run {
            Ok((output, actual)) => Ok(verdict(expected, actual, output)),
            Err(e) => Err(e),
        }
    }
}

/// Finds the behavior a given spec prescribes. This basically just involves
/// checking if the execution strategy has the properties that the spec
/// needs (e.g. a garbage collected executor can run tests which require
/// garbage collection)
fn find_behavior(spec: &Spec, properties: &ExecuterProperties) -> (r: Option<Behavior>)
    ensures
        r == prescribed(*spec, *properties),
    decreases spec,
{
    match spec {
        Spec::Behavior(b) => Some(*b),
        Spec::Implication(predicate, consequent) => {
            if properties.matches_predicate(predicate) {
                find_behavior(consequent, properties)
            } else {
                None
            }
        },
    }
}

/// Collects the behaviors that the specs prescribe for an implementation
/// with the given properties
pub fn resolve_behaviors(specs: &Vec<Spec>, properties: &ExecuterProperties) -> (r: Vec<Behavior>)
    ensures
        r@ == expected_behaviors(specs@, *properties),
{
    let mut behaviors: Vec<Behavior> = Vec::new();
    let mut i: usize = 0;
    while i < specs.len()
        invariant
            i <= specs@.len(),
            behaviors@ == expected_behaviors(specs@.take(i as int), *properties),
        decreases specs@.len() - i,
    {
        let found = find_behavior(&specs[i], properties);
        assert(specs@.take(i + 1).drop_last() == specs@.take(i as int));
        match found {
            Some(b) => behaviors.push(b),
            None => {},
        }
        i = i + 1;
    }
    assert(specs@.take(specs@.len() as int) == specs@);
    behaviors
}

/// Compares the behavior a test showed with every expected behavior
pub fn compare_behaviors(expected: &Vec<Behavior>, output: String, actual: Behavior) -> (r:
    TestResult)
    ensures
        r == verdict(expected@, actual, output),
{
    let mut i: usize = 0;
    assert(expected@.skip(0) == expected@);
    while i < expected.len()
        invariant
            i <= expected@.len(),
            verdict(expected@, actual, output) == verdict(
                expected@.skip(i as int),
                actual,
                output,
            ),
        decreases expected@.len() - i,
    {
        let behavior = expected[i];
        assert(expected@.skip(i as int)[0] == behavior);
        if behavior != actual {
            return TestResult::Mismatch(Failure { expected: behavior, actual, output });
        }
        assert(expected@.skip(i as int).drop_first() == expected@.skip(i + 1));
        i = i + 1;
    }
    TestResult::Success
}

/// Runs the given test case using the given execution strategy. The test is
/// only run if its specs prescribe some behavior for the executer; the
/// result is then the verdict on what the run showed, whatever that was.
pub fn run_test<E: Executer>(executer: &E, test: &TestInfo) -> (r: Result<
    TestResult,
    HarnessError,
>)
    ensures
        exists|p: ExecuterProperties, run: Result<(String, Behavior), HarnessError>|
            {
                &&& call_ensures(E::properties, (executer,), p)
                &&& expected_behaviors(test.specs@, p).len() > 0 ==> call_ensures(
                    E::run_test,
                    (executer, &test.execution),
                    run,
                )
                &&& r == test_outcome(expected_behaviors(test.specs@, p), run)
            },
{
    let properties = executer.properties();

    // See if any behaviors apply
    let behaviors = resolve_behaviors(&test.specs, &properties);
    if behaviors.len() == 0 {
        let ghost run: Result<(String, Behavior), HarnessError> = Err(
            HarnessError::MissingReturnValue,
        );
        assert(test_outcome(expected_behaviors(test.specs@, properties), run) == Ok::<
            TestResult,
            HarnessError,
        >(TestResult::Success));
        return Ok(TestResult::Success);
    }
    match executer.run_test(&test.execution) {
        Ok((output, actual)) => {
            let ghost run: Result<(String, Behavior), HarnessError> = Ok((output, actual));
            let result = compare_behaviors(&behaviors, output, actual);
            assert(test_outcome(expected_behaviors(test.specs@, properties), run) == Ok::<
                TestResult,
                HarnessError,
            >(result));
            Ok(result)
        },
        Err(e) => {
            let ghost run: Result<(String, Behavior), HarnessError> = Err(e);
            assert(test_outcome(expected_behaviors(test.specs@, properties), run) == Err::<
                TestResult,
                HarnessError,
            >(e));
            Err(e)
        },
    }
}

/// A test whose specs prescribe nothing for an implementation succeeds,
/// whatever a run would have shown
pub proof fn lemma_inapplicable_test_succeeds(
    specs: Seq<Spec>,
    p: ExecuterProperties,
    run: Result<(String, Behavior), HarnessError>,
)
    requires
        expected_behaviors(specs, p).len() == 0,
    ensures
        test_outcome(expected_behaviors(specs, p), run) == Ok::<TestResult, HarnessError>(
            TestResult::Success,
        ),
{
}

/// A single spec `<predicate> => <behavior>` gives its behavior exactly when
/// the implementation satisfies the predicate, and nothing otherwise
pub proof fn lemma_prescribed_implication(
    predicate: ImplementationPredicate,
    b: Behavior,
    p: ExecuterProperties,
)
    ensures
        prescribed(Spec::Implication(predicate, Box::new(Spec::Behavior(b))), p) == if satisfies(
            p,
            predicate,
        ) {
            Some(b)
        } else {
            None
        },
{
    assert(prescribed(Spec::Behavior(b), p) == Some(b));
}

/// A spec `<predicate> => <behavior>` prescribes its behavior to exactly the
/// implementations that satisfy its predicate
pub proof fn lemma_implication_resolution(
    predicate: ImplementationPredicate,
    b: Behavior,
    p: ExecuterProperties,
)
    ensures
        expected_behaviors(seq![Spec::Implication(predicate, Box::new(Spec::Behavior(b)))], p)
            == if satisfies(p, predicate) {
            seq![b]
        } else {
            seq![]
        },
{
    let spec = Spec::Implication(predicate, Box::new(Spec::Behavior(b)));
    let specs = seq![spec];
    assert(specs.last() == spec);
    assert(prescribed(Spec::Behavior(b), p) == Some(b));
    assert(prescribed(spec, p) == if satisfies(p, predicate) {
        Some(b)
    } else {
        None
    });
    assert(specs.drop_last() =~= seq![]);
    assert(expected_behaviors(specs.drop_last(), p) =~= seq![]);
    if satisfies(p, predicate) {
        assert(seq![].push(b) =~= seq![b]);
    }
}

/// A run passes exactly when what it showed matches every expected
/// behavior; otherwise the mismatch names the first one it does not match
pub proof fn lemma_verdict_all(expected: Seq<Behavior>, actual: Behavior, output: String)
    ensures
        verdict(expected, actual, output) is Success <==> forall|k: int|
            0 <= k < expected.len() ==> behaviors_match(#[trigger] expected[k], actual),
        verdict(expected, actual, output) matches TestResult::Mismatch(f) ==> f.actual == actual
            && f.output == output && !behaviors_match(f.expected, actual) && exists|k: int|
            0 <= k < expected.len() && #[trigger] expected[k] == f.expected,
    decreases expected.len(),
{
    if expected.len() > 0 {
        let rest = expected.drop_first();
        lemma_verdict_all(rest, actual, output);
        if behaviors_match(expected[0], actual) {
            if verdict(rest, actual, output) is Success {
                assert forall|k: int| 0 <= k < expected.len() implies behaviors_match(
                    #[trigger] expected[k],
                    actual,
                ) by {
                    if k > 0 {
                        assert(expected[k] == rest[k - 1]);
                    }
                }
            } else {
                let k = choose|k: int| 0 <= k < rest.len() && !behaviors_match(#[trigger] rest[k], actual);
                assert(!behaviors_match(expected[k + 1], actual));
            }
            if let TestResult::Mismatch(f) = verdict(rest, actual, output) {
                let k = choose|k: int| 0 <= k < rest.len() && #[trigger] rest[k] == f.expected;
                assert(expected[k + 1] == f.expected);
            }
        } else {
            assert(expected[0] == expected[0]);
        }
    }
}

/// The text of a failure: both behaviors, then the captured output if any
pub open spec fn failure_text(f: Failure) -> Seq<char> {
    let head = "expected "@ + behavior_text(f.expected) + ", got "@ + behavior_text(f.actual);
    if f.output@.len() == 0 {
        head
    } else {
        head + "\n"@ + f.output@
    }
}

impl Failure {
    /// A description of this failure
    pub fn to_string(&self) -> (r: String)
        ensures
            r@ == failure_text(*self),
    {
        let mut text = String::from_str("expected ");
        let expected = self.expected.to_string();
        text.append(expected.as_str());
        text.append(", got ");
        let actual = self.actual.to_string();
        text.append(actual.as_str());
        if self.output.as_str().unicode_len() != 0 {
            text.append("\n");
            text.append(self.output.as_str());
        }
        text
    }
}

/// Each spec contributes at most one expected behavior
pub proof fn lemma_at_most_one_per_entry(specs: Seq<Spec>, p: ExecuterProperties)
    ensures
        expected_behaviors(specs, p).len() <= specs.len(),
    decreases specs.len(),
{
    if specs.len() > 0 {
        lemma_at_most_one_per_entry(specs.drop_last(), p);
    }
}

} // verus!
