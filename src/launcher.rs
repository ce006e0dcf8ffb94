use vstd::prelude::*;

use crate::decimal::{lemma_nat_text_injective, nat_text, u64_text};
use crate::executer::HarnessError;
use crate::spec::Behavior;

verus! {

/// Exit code of the compiler when it fails to invoke GCC
pub const CC0_GCC_FAILURE_CODE: i32 = 2;

/// Exit code of a child process that could not start its program
pub const EXEC_FAILURE_CODE: i32 = 100;

/// Exit code of a child process that aborted before starting its program
pub const RUST_PANIC_CODE: i32 = 101;

/// Seconds between the soft and the hard CPU-time limit, so that running out
/// of time raises SIGXCPU before the process is killed
pub const CPU_GRACE_SECONDS: u64 = 5;

/// The signals that the harness tells apart
#[derive(Clone, Copy, Debug, PartialEq, Eq, Structural)]
pub enum TermSignal {
    Segv,
    Xcpu,
    Fpe,
    Abrt,
    Kill,
    Other(i32),
}

/// How a child process ended
#[derive(Clone, Copy, Debug, PartialEq, Eq, Structural)]
pub enum ProcessStatus {
    /// It exited with this code
    Exited(i32),
    /// It was terminated by this signal
    Signaled(TermSignal),
    /// It stopped in some other way
    Other,
}

/// The resource ceilings a child process runs under
#[derive(Clone, Copy, Debug, PartialEq, Eq, Structural)]
pub struct ResourceLimits {
    /// Address-space ceiling in bytes, soft and hard alike
    pub memory: u64,
    /// CPU seconds in user mode after which SIGXCPU is raised
    pub cpu_soft: u64,
    /// CPU seconds after which the process is killed
    pub cpu_hard: u64,
}

/// The ceilings for a child process: the memory limit as given, and a CPU
/// limit whose hard bound lies a few seconds above the soft one (saturating)
pub fn resource_limits(memory: u64, time: u64) -> (r: ResourceLimits)
    ensures
        r.memory == memory,
        r.cpu_soft == time,
        r.cpu_hard == if time + CPU_GRACE_SECONDS <= u64::MAX {
            time + CPU_GRACE_SECONDS
        } else {
            u64::MAX as int
        },
{
    let cpu_hard = if time <= u64::MAX - CPU_GRACE_SECONDS {
        time + CPU_GRACE_SECONDS
    } else {
        u64::MAX
    };
    ResourceLimits { memory, cpu_soft: time, cpu_hard }
}

/// What a compilation ended with: `Ok(Ok(()))` when it succeeded,
/// `Ok(Err(output))` when the compiler rejected the program, and a harness
/// error otherwise
pub open spec fn compile_outcome(status: ProcessStatus, output: String) -> Result<
    Result<(), String>,
    HarnessError,
> {
    match status {
        ProcessStatus::Exited(0) => Ok(Ok(())),
        ProcessStatus::Exited(1) => Ok(Err(output)),
        ProcessStatus::Exited(CC0_GCC_FAILURE_CODE) => Err(
            HarnessError::CompilerBackendFailed { output },
        ),
        ProcessStatus::Exited(EXEC_FAILURE_CODE) => Err(HarnessError::ExecFailed { output }),
        ProcessStatus::Exited(RUST_PANIC_CODE) => Err(HarnessError::ChildPanicked { output }),
        ProcessStatus::Exited(code) => Err(HarnessError::UnexpectedExit { code, output }),
        ProcessStatus::Signaled(TermSignal::Xcpu) => Err(HarnessError::CompilerTimedOut { output }),
        ProcessStatus::Signaled(_) => Err(HarnessError::UnexpectedStatus { output }),
        ProcessStatus::Other => Err(HarnessError::UnexpectedStatus { output }),
    }
}

/// Classifies how the compiler ended
pub fn classify_compile(status: ProcessStatus, output: String) -> (r: Result<
    Result<(), String>,
    HarnessError,
>)
    ensures
        r == compile_outcome(status, output),
{
    match status {
        ProcessStatus::Exited(0) => Ok(Ok(())),
        ProcessStatus::Exited(1) => Ok(Err(output)),
        ProcessStatus::Exited(CC0_GCC_FAILURE_CODE) => Err(
            HarnessError::CompilerBackendFailed { output },
        ),
        ProcessStatus::Exited(EXEC_FAILURE_CODE) => Err(HarnessError::ExecFailed { output }),
        ProcessStatus::Exited(RUST_PANIC_CODE) => Err(HarnessError::ChildPanicked { output }),
        ProcessStatus::Exited(code) => Err(HarnessError::UnexpectedExit { code, output }),
        ProcessStatus::Signaled(TermSignal::Xcpu) => Err(HarnessError::CompilerTimedOut { output }),
        ProcessStatus::Signaled(_) => Err(HarnessError::UnexpectedStatus { output }),
        ProcessStatus::Other => Err(HarnessError::UnexpectedStatus { output }),
    }
}

/// The behavior a test program showed, given how it ended and the return
/// value it wrote, if any; `None` where the outcome is no behavior but a
/// failure of the harness
pub open spec fn execution_behavior(status: ProcessStatus, result: Option<i32>) -> Option<Behavior> {
    match status {
        ProcessStatus::Exited(0) => match result {
            Some(x) => Some(Behavior::Return(Some(x))),
            None => None,
        },
        ProcessStatus::Exited(1) => Some(Behavior::Failure),
        // The interpreter reports compile errors by its exit code
        ProcessStatus::Exited(2) => Some(Behavior::CompileError),
        ProcessStatus::Exited(4) => Some(Behavior::Failure),
        ProcessStatus::Exited(_) => None,
        ProcessStatus::Signaled(TermSignal::Segv) => Some(Behavior::Segfault),
        ProcessStatus::Signaled(TermSignal::Xcpu) => Some(Behavior::InfiniteLoop),
        ProcessStatus::Signaled(TermSignal::Kill) => Some(Behavior::InfiniteLoop),
        ProcessStatus::Signaled(TermSignal::Fpe) => Some(Behavior::DivZero),
        ProcessStatus::Signaled(TermSignal::Abrt) => Some(Behavior::Abort),
        ProcessStatus::Signaled(TermSignal::Other(_)) => None,
        ProcessStatus::Other => None,
    }
}

/// The harness error for a run that showed no behavior
pub open spec fn execution_error(status: ProcessStatus, output: String) -> HarnessError {
    match status {
        ProcessStatus::Exited(0) => HarnessError::MissingReturnValue,
        ProcessStatus::Exited(EXEC_FAILURE_CODE) => HarnessError::ExecFailed { output },
        ProcessStatus::Exited(RUST_PANIC_CODE) => HarnessError::ChildPanicked { output },
        ProcessStatus::Exited(code) => HarnessError::UnexpectedExit { code, output },
        ProcessStatus::Signaled(TermSignal::Other(signal)) => HarnessError::UnexpectedSignal {
            signal,
            output,
        },
        _ => HarnessError::UnexpectedStatus { output },
    }
}

/// Classifies how a test program ended into the behavior it showed
pub fn classify_execution(status: ProcessStatus, result: Option<i32>, output: String) -> (r: Result<
    (String, Behavior),
    HarnessError,
>)
    ensures
        match execution_behavior(status, result) {
            Some(b) => r == Ok::<(String, Behavior), HarnessError>((output, b)),
            None => r == Err::<(String, Behavior), HarnessError>(execution_error(status, output)),
        },
{
    let behavior = match status {
        ProcessStatus::Exited(0) => match result {
            Some(exit_code) => Behavior::Return(Some(exit_code)),
            None => {
                return Err(HarnessError::MissingReturnValue);
            },
        },
        ProcessStatus::Exited(1) => Behavior::Failure,
        // Coin only. Hopefully other exit codes don't conflict
        ProcessStatus::Exited(2) => Behavior::CompileError,
        ProcessStatus::Exited(4) => Behavior::Failure,
        ProcessStatus::Exited(EXEC_FAILURE_CODE) => {
            return Err(HarnessError::ExecFailed { output });
        },
        ProcessStatus::Exited(RUST_PANIC_CODE) => {
            return Err(HarnessError::ChildPanicked { output });
        },
        ProcessStatus::Exited(code) => {
            return Err(HarnessError::UnexpectedExit { code, output });
        },
        ProcessStatus::Signaled(signal) => match signal {
            TermSignal::Segv => Behavior::Segfault,
            TermSignal::Xcpu => Behavior::InfiniteLoop,
            TermSignal::Kill => Behavior::InfiniteLoop,
            TermSignal::Fpe => Behavior::DivZero,
            TermSignal::Abrt => Behavior::Abort,
            TermSignal::Other(signal) => {
                return Err(HarnessError::UnexpectedSignal { signal, output });
            },
        },
        ProcessStatus::Other => {
            return Err(HarnessError::UnexpectedStatus { output });
        },
    };
    Ok((output, behavior))
}

/// The value of four bytes, least significant first, as a two's complement
/// 32-bit integer
pub open spec fn word_le(b: Seq<u8>) -> int {
    let u = b[0] as int + 256 * b[1] as int + 65536 * b[2] as int + 16777216 * b[3] as int;
    if u >= 0x8000_0000 {
        u - 0x1_0000_0000
    } else {
        u
    }
}

/// The value of four bytes, most significant first, as a two's complement
/// 32-bit integer
pub open spec fn word_be(b: Seq<u8>) -> int {
    word_le(seq![b[3], b[2], b[1], b[0]])
}

/// Relies on i32::from_ne_bytes: the bytes read in the machine's own byte
/// order, which is little or big endian
#[verifier::external_body]
fn i32_from_native_bytes(bytes: [u8; 4]) -> (r: i32)
    ensures
        r as int == word_le(bytes@) || r as int == word_be(bytes@),
{
    i32::from_ne_bytes(bytes)
}

/// Reads the result file a test program writes on a clean exit: a tag byte
/// followed by the return value as a native-endian 32-bit integer. Anything
/// but exactly five bytes holds no return value.
pub fn decode_result(bytes: &Vec<u8>) -> (r: Option<i32>)
    ensures
        r is Some <==> bytes@.len() == 5,
        r matches Some(x) ==> x as int == word_le(bytes@.subrange(1, 5)) || x as int == word_be(
            bytes@.subrange(1, 5),
        ),
{
    if bytes.len() == 5 {
        let word = [bytes[1], bytes[2], bytes[3], bytes[4]];
        assert(word@ == bytes@.subrange(1, 5));
        Some(i32_from_native_bytes(word))
    } else {
        None
    }
}

/// The path `<dir>/<stem><id><suffix>` of a temporary file
pub open spec fn artifact_path_text(
    dir: Seq<char>,
    stem: Seq<char>,
    id: nat,
    suffix: Seq<char>,
) -> Seq<char> {
    dir + seq!['/'] + stem + nat_text(id) + suffix
}

/// Names a temporary file in `dir` after a unique number
pub fn artifact_path(dir: &str, stem: &str, id: u64, suffix: &str) -> (r: String)
    ensures
        r@ == artifact_path_text(dir@, stem@, id as nat, suffix@),
{
    let mut path = String::from_str(dir);
    proof {
        reveal_strlit("/");
    }
    path.append("/");
    path.append(stem);
    let number = u64_text(id);
    path.append(number.as_str());
    path.append(suffix);
    path
}

/// Temporary files named after different numbers are different files
pub proof fn lemma_artifact_paths_distinct(
    dir: Seq<char>,
    stem: Seq<char>,
    a: nat,
    b: nat,
    suffix: Seq<char>,
)
    requires
        a != b,
    ensures
        artifact_path_text(dir, stem, a, suffix) != artifact_path_text(dir, stem, b, suffix),
{
    let prefix = dir + seq!['/'] + stem;
    let pa = artifact_path_text(dir, stem, a, suffix);
    let pb = artifact_path_text(dir, stem, b, suffix);
    if pa == pb {
        let ta = nat_text(a);
        let tb = nat_text(b);
        assert(pa == prefix + ta + suffix);
        assert(pb == prefix + tb + suffix);
        assert(ta.len() == tb.len());
        assert(pa.subrange(prefix.len() as int, (prefix.len() + ta.len()) as int) =~= ta);
        assert(pb.subrange(prefix.len() as int, (prefix.len() + tb.len()) as int) =~= tb);
        lemma_nat_text_injective(a, b);
    }
}

/// The environment entry that tells a test program where to write its
/// return value
pub fn result_file_env(path: &str) -> (r: String)
    ensures
        r@ == "C0_RESULT_FILE="@ + path@,
{
    let mut entry = String::from_str("C0_RESULT_FILE=");
    entry.append(path);
    entry
}

/// Hands out the numbers that keep temporary file names apart: each number
/// once, in increasing order
pub struct ArtifactCounter {
    next: u64,
}

impl ArtifactCounter {
    /// The next number this counter will hand out
    pub closed spec fn next_id(&self) -> nat {
        self.next as nat
    }

    pub fn new() -> (r: ArtifactCounter)
        ensures
            r.next_id() == 0,
    {
        ArtifactCounter { next: 0 }
    }

    /// A number never handed out before by this counter, or `None` once all
    /// 64-bit numbers are spent
    pub fn fresh(&mut self) -> (r: Option<u64>)
        ensures
            old(self).next_id() < u64::MAX ==> r == Some(old(self).next_id() as u64)
                && final(self).next_id() == old(self).next_id() + 1,
            old(self).next_id() >= u64::MAX ==> r is None && final(self).next_id() == old(
                self,
            ).next_id(),
    {
        if self.next < u64::MAX {
            let id = self.next;
            self.next = self.next + 1;
            Some(id)
        } else {
            None
        }
    }
}

/// Two numbers drawn one after the other from a counter differ, and so do
/// the temporary files named after them: the first is below the counter's
/// value between the draws, and the second is at least that value
pub proof fn lemma_fresh_paths_distinct(
    between: nat,
    a: nat,
    b: nat,
    dir: Seq<char>,
    stem: Seq<char>,
    suffix: Seq<char>,
)
    requires
        a < between,
        between <= b,
    ensures
        a != b,
        artifact_path_text(dir, stem, a, suffix) != artifact_path_text(dir, stem, b, suffix),
{
    lemma_artifact_paths_distinct(dir, stem, a, b, suffix);
}

} // verus!
