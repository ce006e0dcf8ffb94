use vstd::prelude::*;

use crate::decimal::{i32_text, int_text};

verus! {

/// Holds metadata about a test, as well as the parsed spec
#[derive(Debug)]
pub struct TestInfo {
    pub execution: TestExecutionInfo,
    pub specs: Specs,
}

/// Test metadata
#[derive(Debug)]
pub struct TestExecutionInfo {
    /// Absolute paths to C0/C1 source files
    pub sources: Vec<String>,
    /// Any prescribed compiler options
    pub compiler_options: Vec<String>,
    /// The directory the test came from. Necessary since some
    /// test cases (e.g. <img> library tests) load resources
    pub directory: String,
}

/// Specs are of the form 'predicate => spec' or just a '<behavior>'
#[derive(Debug)]
pub enum Spec {
    Implication(ImplementationPredicate, Box<Spec>),
    Behavior(Behavior),
}

/// Test cases can have multiple specs i.e. if tests have one outcome in cc0
/// but another in coin
pub type Specs = Vec<Spec>;

/// Describes an implementation
#[derive(Debug)]
pub enum ImplementationPredicate {
    Library,
    Typechecked,
    GarbageCollected,
    Safe,
    False,
    ImplementationName(String),
    Not(Box<ImplementationPredicate>),
    And(Box<ImplementationPredicate>, Box<ImplementationPredicate>),
    Or(Box<ImplementationPredicate>, Box<ImplementationPredicate>),
}

/// An expected test behavior/test outcome.
/// Note that 'skipped' might be generated if the
/// test was not actually run for some reason
/// (e.g. C1 tests in coin)
#[derive(Debug, Clone, Copy)]
pub enum Behavior {
    CompileError,
    Runs,
    InfiniteLoop,
    Abort,
    Failure,
    Segfault,
    DivZero,
    Return(Option<i32>),
    Skipped,
}

/// When an observed behavior agrees with an expected one: `return *`
/// agrees with any return value, `Skipped` agrees with everything, and
/// otherwise the variants (and return values) must be the same.
pub open spec fn behaviors_match(a: Behavior, b: Behavior) -> bool {
    match (a, b) {
        (Behavior::Skipped, _) => true,
        (_, Behavior::Skipped) => true,
        (Behavior::Return(x), Behavior::Return(y)) => x is None || y is None || x == y,
        _ => a == b,
    }
}

impl PartialEq for Behavior {
    fn eq(&self, other: &Behavior) -> (r: bool) {
        match (self, other) {
            (Behavior::CompileError, Behavior::CompileError) => true,
            (Behavior::Runs, Behavior::Runs) => true,
            (Behavior::InfiniteLoop, Behavior::InfiniteLoop) => true,
            (Behavior::Abort, Behavior::Abort) => true,
            (Behavior::Failure, Behavior::Failure) => true,
            (Behavior::Segfault, Behavior::Segfault) => true,
            (Behavior::DivZero, Behavior::DivZero) => true,
            (Behavior::Return(x), Behavior::Return(y)) => match (x, y) {
                (None, _) => true,
                (_, None) => true,
                (Some(a), Some(b)) => *a == *b,
            },
            (Behavior::Skipped, _) => true,
            (_, Behavior::Skipped) => true,
            _ => false,
        }
    }
}

impl vstd::std_specs::cmp::PartialEqSpecImpl for Behavior {
    open spec fn obeys_eq_spec() -> bool {
        true
    }

    open spec fn eq_spec(&self, other: &Behavior) -> bool {
        behaviors_match(*self, *other)
    }
}

impl Eq for Behavior {}

/// The mathematical model of a predicate: names are character sequences
pub enum PredicateModel {
    Library,
    Typechecked,
    GarbageCollected,
    Safe,
    False,
    Name(Seq<char>),
    Not(Box<PredicateModel>),
    And(Box<PredicateModel>, Box<PredicateModel>),
    Or(Box<PredicateModel>, Box<PredicateModel>),
}

/// The mathematical model of a spec
pub enum SpecModel {
    Implication(PredicateModel, Box<SpecModel>),
    Behavior(Behavior),
}

pub open spec fn predicate_model(p: ImplementationPredicate) -> PredicateModel
    decreases p,
{
    match p {
        ImplementationPredicate::Library => PredicateModel::Library,
        ImplementationPredicate::Typechecked => PredicateModel::Typechecked,
        ImplementationPredicate::GarbageCollected => PredicateModel::GarbageCollected,
        ImplementationPredicate::Safe => PredicateModel::Safe,
        ImplementationPredicate::False => PredicateModel::False,
        ImplementationPredicate::ImplementationName(name) => PredicateModel::Name(name@),
        ImplementationPredicate::Not(q) => PredicateModel::Not(Box::new(predicate_model(*q))),
        ImplementationPredicate::And(q1, q2) => PredicateModel::And(
            Box::new(predicate_model(*q1)),
            Box::new(predicate_model(*q2)),
        ),
        ImplementationPredicate::Or(q1, q2) => PredicateModel::Or(
            Box::new(predicate_model(*q1)),
            Box::new(predicate_model(*q2)),
        ),
    }
}

pub open spec fn spec_model(s: Spec) -> SpecModel
    decreases s,
{
    match s {
        Spec::Implication(p, c) => SpecModel::Implication(predicate_model(p), Box::new(spec_model(*c))),
        Spec::Behavior(b) => SpecModel::Behavior(b),
    }
}

pub open spec fn specs_model(specs: Seq<Spec>) -> Seq<SpecModel> {
    specs.map_values(|s: Spec| spec_model(s))
}

/// `return *` matches every return value, whichever side it stands on
pub proof fn lemma_return_wildcard(x: Option<i32>)
    ensures
        behaviors_match(Behavior::Return(None), Behavior::Return(x)),
        behaviors_match(Behavior::Return(x), Behavior::Return(None)),
{
}

/// `Skipped` matches every behavior, whichever side it stands on
pub proof fn lemma_skipped_matches_all(b: Behavior)
    ensures
        behaviors_match(Behavior::Skipped, b),
        behaviors_match(b, Behavior::Skipped),
{
}

/// Two given return values match only when they are equal
pub proof fn lemma_return_values(x: i32, y: i32)
    ensures
        behaviors_match(Behavior::Return(Some(x)), Behavior::Return(Some(y))) <==> x == y,
{
}

/// Matching does not depend on the order of the two behaviors
pub proof fn lemma_match_symmetric(a: Behavior, b: Behavior)
    ensures
        behaviors_match(a, b) == behaviors_match(b, a),
{
}

/// The text of a behavior, as written in specs
pub open spec fn behavior_text(b: Behavior) -> Seq<char> {
    match b {
        Behavior::CompileError => "error"@,
        Behavior::Runs => "runs"@,
        Behavior::InfiniteLoop => "infloop"@,
        Behavior::Abort => "abort"@,
        Behavior::Failure => "fail"@,
        Behavior::Segfault => "segfault"@,
        Behavior::DivZero => "div-by-zero"@,
        Behavior::Return(None) => "return *"@,
        Behavior::Return(Some(x)) => "return "@ + int_text(x as int),
        Behavior::Skipped => "<skipped>"@,
    }
}

/// The text of a predicate, as written in specs
pub open spec fn predicate_text(p: ImplementationPredicate) -> Seq<char>
    decreases p,
{
    match p {
        ImplementationPredicate::Library => "lib"@,
        ImplementationPredicate::Typechecked => "typecheck"@,
        ImplementationPredicate::GarbageCollected => "gc"@,
        ImplementationPredicate::Safe => "safe"@,
        ImplementationPredicate::False => "false"@,
        ImplementationPredicate::ImplementationName(name) => name@,
        ImplementationPredicate::Not(q) => "!"@ + predicate_text(*q),
        ImplementationPredicate::And(q1, q2) => predicate_text(*q1) + ", "@ + predicate_text(*q2),
        ImplementationPredicate::Or(q1, q2) => predicate_text(*q1) + " or "@ + predicate_text(*q2),
    }
}

/// The text of a spec, as written in spec lines
pub open spec fn spec_text(s: Spec) -> Seq<char>
    decreases s,
{
    match s {
        Spec::Behavior(b) => behavior_text(b),
        Spec::Implication(p, c) => predicate_text(p) + " => "@ + spec_text(*c),
    }
}

impl Behavior {
    /// The text of this behavior
    pub fn to_string(&self) -> (r: String)
        ensures
            r@ == behavior_text(*self),
    {
        match self {
            Behavior::CompileError => String::from_str("error"),
            Behavior::Runs => String::from_str("runs"),
            Behavior::InfiniteLoop => String::from_str("infloop"),
            Behavior::Abort => String::from_str("abort"),
            Behavior::Failure => String::from_str("fail"),
            Behavior::Segfault => String::from_str("segfault"),
            Behavior::DivZero => String::from_str("div-by-zero"),
            Behavior::Return(None) => String::from_str("return *"),
            Behavior::Return(Some(x)) => {
                let mut text = String::from_str("return ");
                let number = i32_text(*x);
                text.append(number.as_str());
                text
            },
            Behavior::Skipped => String::from_str("<skipped>"),
        }
    }
}

impl ImplementationPredicate {
    /// The text of this predicate
    pub fn to_string(&self) -> (r: String)
        ensures
            r@ == predicate_text(*self),
        decreases self,
    {
        match self {
            ImplementationPredicate::Library => String::from_str("lib"),
            ImplementationPredicate::Typechecked => String::from_str("typecheck"),
            ImplementationPredicate::GarbageCollected => String::from_str("gc"),
            ImplementationPredicate::Safe => String::from_str("safe"),
            ImplementationPredicate::False => String::from_str("false"),
            ImplementationPredicate::ImplementationName(name) => name.clone(),
            ImplementationPredicate::Not(p) => {
                let mut text = String::from_str("!");
                let inner = p.to_string();
                text.append(inner.as_str());
                text
            },
            ImplementationPredicate::And(p1, p2) => {
                let mut text = p1.to_string();
                text.append(", ");
                let right = p2.to_string();
                text.append(right.as_str());
                text
            },
            ImplementationPredicate::Or(p1, p2) => {
                let mut text = p1.to_string();
                text.append(" or ");
                let right = p2.to_string();
                text.append(right.as_str());
                text
            },
        }
    }
}

impl Spec {
    /// The text of this spec
    pub fn to_string(&self) -> (r: String)
        ensures
            r@ == spec_text(*self),
        decreases self,
    {
        match self {
            Spec::Behavior(b) => b.to_string(),
            Spec::Implication(p, spec) => {
                let mut text = p.to_string();
                text.append(" => ");
                let rest = spec.to_string();
                text.append(rest.as_str());
                text
            },
        }
    }
}

/// The position of the last `/` before position `j`, or -1
pub open spec fn last_slash_before(s: Seq<char>, j: int) -> int
    decreases j,
{
    if j <= 0 {
        -1
    } else if s[j - 1] == '/' {
        j - 1
    } else {
        last_slash_before(s, j - 1)
    }
}

/// The last two components of a path (the whole path if it has fewer)
pub open spec fn short_path(s: Seq<char>) -> Seq<char> {
    let i1 = last_slash_before(s, s.len() as int);
    let i2 = if i1 < 0 {
        -1
    } else {
        last_slash_before(s, i1)
    };
    s.subrange(i2 + 1, s.len() as int)
}

/// The parts, with `sep` between each two
pub open spec fn joined(parts: Seq<Seq<char>>, sep: Seq<char>) -> Seq<char>
    decreases parts.len(),
{
    if parts.len() == 0 {
        seq![]
    } else if parts.len() == 1 {
        parts[0]
    } else {
        joined(parts.drop_last(), sep) + sep + parts.last()
    }
}

/// Each option preceded by a space
pub open spec fn options_text(options: Seq<String>) -> Seq<char>
    decreases options.len(),
{
    if options.len() == 0 {
        seq![]
    } else {
        options_text(options.drop_last()) + " "@ + options.last()@
    }
}

/// A one-line description of a test: its sources (by their last two path
/// components), its options, and its specs
pub open spec fn test_text(t: TestInfo) -> Seq<char> {
    joined(t.execution.sources@.map_values(|s: String| short_path(s@)), " "@) + options_text(
        t.execution.compiler_options@,
    ) + ": "@ + joined(t.specs@.map_values(|s: Spec| spec_text(s)), "; "@)
}

fn last_slash_at(s: &str, j: usize) -> (r: Option<usize>)
    requires
        j <= s@.len(),
    ensures
        match r {
            Some(k) => k == last_slash_before(s@, j as int) && k < j,
            None => last_slash_before(s@, j as int) == -1,
        },
{
    let mut k = j;
    while k > 0 && s.get_char(k - 1) != '/'
        invariant
            k <= j <= s@.len(),
            last_slash_before(s@, j as int) == last_slash_before(s@, k as int),
        decreases k,
    {
        k = k - 1;
    }
    if k == 0 {
        None
    } else {
        Some(k - 1)
    }
}

fn short_path_of(path: &String) -> (r: String)
    ensures
        r@ == short_path(path@),
{
    let s = path.as_str();
    let n = s.unicode_len();
    let start = match last_slash_at(s, n) {
        None => 0,
        Some(i1) => match last_slash_at(s, i1) {
            None => 0,
            Some(i2) => i2 + 1,
        },
    };
    s.substring_char(start, n).to_owned()
}

impl TestInfo {
    /// A one-line description of this test
    pub fn to_string(&self) -> (r: String)
        ensures
            r@ == test_text(*self),
    {
        let sources = &self.execution.sources;
        let ghost short = sources@.map_values(|s: String| short_path(s@));
        let mut text = String::new();
        let mut i: usize = 0;
        while i < sources.len()
            invariant
                i <= sources@.len(),
                short == sources@.map_values(|s: String| short_path(s@)),
                text@ == joined(short.take(i as int), " "@),
            decreases sources@.len() - i,
        {
            let part = short_path_of(&sources[i]);
            if i != 0 {
                text.append(" ");
            }
            text.append(part.as_str());
            assert(short.take(i + 1).drop_last() =~= short.take(i as int));
            i = i + 1;
        }
        assert(short.take(sources@.len() as int) =~= short);
        let options = &self.execution.compiler_options;
        let ghost sources_text = text@;
        let mut j: usize = 0;
        while j < options.len()
            invariant
                j <= options@.len(),
                text@ == sources_text + options_text(options@.take(j as int)),
            decreases options@.len() - j,
        {
            text.append(" ");
            text.append(options[j].as_str());
            assert(options@.take(j + 1).drop_last() =~= options@.take(j as int));
            j = j + 1;
        }
        assert(options@.take(options@.len() as int) =~= options@);
        text.append(": ");
        let ghost head = text@;
        let specs = &self.specs;
        let ghost spec_texts = specs@.map_values(|s: Spec| spec_text(s));
        let mut m: usize = 0;
        while m < specs.len()
            invariant
                m <= specs@.len(),
                spec_texts == specs@.map_values(|s: Spec| spec_text(s)),
                text@ == head + joined(spec_texts.take(m as int), "; "@),
            decreases specs@.len() - m,
        {
            let part = specs[m].to_string();
            if m != 0 {
                text.append("; ");
            }
            text.append(part.as_str());
            assert(spec_texts.take(m + 1).drop_last() =~= spec_texts.take(m as int));
            m = m + 1;
        }
        assert(spec_texts.take(specs@.len() as int) =~= spec_texts);
        text
    }
}

} // verus!
