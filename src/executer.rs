use vstd::prelude::*;

use crate::spec::{Behavior, ImplementationPredicate, TestExecutionInfo};

verus! {

/// The static properties of an implementation, against which spec
/// predicates are evaluated
#[derive(Debug)]
pub struct ExecuterProperties {
    pub libraries: bool,
    pub typechecked: bool,
    pub garbage_collected: bool,
    pub safe: bool,
    pub name: String,
}

/// Whether `predicate` holds of an implementation with properties `p`
pub open spec fn satisfies(p: ExecuterProperties, predicate: ImplementationPredicate) -> bool
    decreases predicate,
{
    match predicate {
        ImplementationPredicate::Library => p.libraries,
        ImplementationPredicate::Typechecked => p.typechecked,
        ImplementationPredicate::GarbageCollected => p.garbage_collected,
        ImplementationPredicate::Safe => p.safe,
        ImplementationPredicate::False => false,
        ImplementationPredicate::ImplementationName(name) => p.name@ == name@,
        ImplementationPredicate::Not(q) => !satisfies(p, *q),
        ImplementationPredicate::And(q1, q2) => satisfies(p, *q1) && satisfies(p, *q2),
        ImplementationPredicate::Or(q1, q2) => satisfies(p, *q1) || satisfies(p, *q2),
    }
}

impl ExecuterProperties {
    /// Checks if the given predicate is true for this executer
    pub fn matches_predicate(&self, predicate: &ImplementationPredicate) -> (r: bool)
        ensures
            r == satisfies(*self, *predicate),
        decreases predicate,
    {
        match predicate {
            ImplementationPredicate::Library => self.libraries,
            ImplementationPredicate::Typechecked => self.typechecked,
            ImplementationPredicate::GarbageCollected => self.garbage_collected,
            ImplementationPredicate::Safe => self.safe,
            ImplementationPredicate::False => false,
            ImplementationPredicate::ImplementationName(name) => self.name == *name,
            ImplementationPredicate::Not(p) => !self.matches_predicate(p),
            ImplementationPredicate::And(p1, p2) => self.matches_predicate(p1)
                && self.matches_predicate(p2),
            ImplementationPredicate::Or(p1, p2) => self.matches_predicate(p1)
                || self.matches_predicate(p2),
        }
    }
}

/// The three implementations of the toolchain that can be tested
#[derive(Clone, Copy, Debug, PartialEq, Eq, Structural)]
pub enum ExecuterKind {
    /// The native-code backend (cc0 with GCC)
    CC0,
    /// The bytecode compiler and virtual machine
    C0VM,
    /// The interpreter
    Coin,
}

/// The properties of each implementation: all three use the libraries and
/// are typechecked and memory safe; only the native backend is garbage
/// collected.
pub open spec fn kind_properties(kind: ExecuterKind) -> (bool, bool, bool, bool, Seq<char>) {
    match kind {
        ExecuterKind::CC0 => (true, true, true, true, seq!['c', 'c', '0']),
        ExecuterKind::C0VM => (true, true, false, true, seq!['c', 'c', '0', '_', 'c', '0', 'v', 'm']),
        ExecuterKind::Coin => (true, true, false, true, seq!['c', 'o', 'i', 'n']),
    }
}

impl ExecuterKind {
    /// Gets the properties of this kind of executer
    pub fn properties(&self) -> (r: ExecuterProperties)
        ensures
            (r.libraries, r.typechecked, r.garbage_collected, r.safe, r.name@) == kind_properties(
                *self,
            ),
    {
        match self {
            ExecuterKind::CC0 => {
                let name = String::from_str("cc0");
                proof {
                    reveal_strlit("cc0");
                }
                ExecuterProperties {
                    libraries: true,
                    typechecked: true,
                    garbage_collected: true,
                    safe: true,
                    name,
                }
            },
            ExecuterKind::C0VM => {
                let name = String::from_str("cc0_c0vm");
                proof {
                    reveal_strlit("cc0_c0vm");
                }
                ExecuterProperties {
                    libraries: true,
                    typechecked: true,
                    garbage_collected: false,
                    safe: true,
                    name,
                }
            },
            ExecuterKind::Coin => {
                let name = String::from_str("coin");
                proof {
                    reveal_strlit("coin");
                }
                ExecuterProperties {
                    libraries: true,
                    typechecked: true,
                    garbage_collected: false,
                    safe: true,
                    name,
                }
            },
        }
    }
}

/// A failure of the harness's own machinery, as opposed to a test whose
/// behavior differs from its spec
#[derive(Debug)]
pub enum HarnessError {
    /// The compiler could not invoke its code generator
    CompilerBackendFailed { output: String },
    /// The compiler ran out of CPU time
    CompilerTimedOut { output: String },
    /// The child process could not start the program
    ExecFailed { output: String },
    /// The child process aborted before it could start the program
    ChildPanicked { output: String },
    /// The program exited successfully but wrote no return value
    MissingReturnValue,
    /// The program exited with a status outside the known taxonomy
    UnexpectedExit { code: i32, output: String },
    /// The program was killed by a signal outside the known taxonomy
    UnexpectedSignal { signal: i32, output: String },
    /// The program stopped in some other way
    UnexpectedStatus { output: String },
    /// A system call of the harness failed
    System { message: String },
}

/// A way of running tests: one of the toolchain implementations
pub trait Executer {
    /// How to run a test.
    /// Returns (Test output, Test actual behavior)
    fn run_test(&self, test: &TestExecutionInfo) -> Result<(String, Behavior), HarnessError>;

    /// Gets the properties of this executer
    fn properties(&self) -> ExecuterProperties;
}

} // verus!
