use vstd::prelude::*;

use crate::spec::{Behavior, TestExecutionInfo};

verus! {

/// The texts of a sequence of strings
pub open spec fn texts(v: Seq<String>) -> Seq<Seq<char>> {
    v.map_values(|s: String| s@)
}

/// Whether a source file is written in C1, which the interpreter does not
/// support
pub open spec fn is_c1_source(path: Seq<char>) -> bool {
    path.len() >= 3 && path.subrange(path.len() - 3, path.len() as int) == seq!['.', 'c', '1']
}

pub open spec fn uses_c1(test: TestExecutionInfo) -> bool {
    exists|k: int| 0 <= k < test.sources@.len() && is_c1_source(#[trigger] test.sources@[k]@)
}

/// Appends copies of `src` to `dst`
fn append_copies(dst: &mut Vec<String>, src: &Vec<String>)
    ensures
        texts(final(dst)@) == texts(old(dst)@) + texts(src@),
{
    let ghost start = dst@;
    let mut i: usize = 0;
    while i < src.len()
        invariant
            i <= src@.len(),
            texts(dst@) == texts(start) + texts(src@.take(i as int)),
        decreases src@.len() - i,
    {
        let ghost before = dst@;
        dst.push(src[i].clone());
        assert(texts(dst@) =~= texts(before).push(src@[i as int]@));
        assert(texts(src@.take(i + 1)) =~= texts(src@.take(i as int)).push(src@[i as int]@));
        i = i + 1;
    }
    assert(src@.take(src@.len() as int) =~= src@);
}

/// The compiler's arguments for a test: its options, its sources, then the
/// flag that names the output file, and that file
pub fn compiler_args(test: &TestExecutionInfo, output_flag: &str, out_file: &str) -> (r: Vec<
    String,
>)
    ensures
        texts(r@) == texts(test.compiler_options@) + texts(test.sources@) + seq![
            output_flag@,
            out_file@,
        ],
{
    let mut args: Vec<String> = Vec::new();
    assert(texts(args@) =~= seq![]);
    append_copies(&mut args, &test.compiler_options);
    append_copies(&mut args, &test.sources);
    let ghost before = args@;
    args.push(String::from_str(output_flag));
    args.push(String::from_str(out_file));
    assert(texts(args@) =~= texts(before) + seq![output_flag@, out_file@]);
    args
}

/// The interpreter's arguments for a test: its options, then its sources
pub fn interpreter_args(test: &TestExecutionInfo) -> (r: Vec<String>)
    ensures
        texts(r@) == texts(test.compiler_options@) + texts(test.sources@),
{
    let mut args: Vec<String> = Vec::new();
    assert(texts(args@) =~= seq![]);
    append_copies(&mut args, &test.compiler_options);
    append_copies(&mut args, &test.sources);
    args
}

fn is_c1_path(path: &String) -> (r: bool)
    ensures
        r == is_c1_source(path@),
{
    let text = path.as_str();
    let n = text.unicode_len();
    if n < 3 {
        return false;
    }
    let r = text.get_char(n - 3) == '.' && text.get_char(n - 2) == 'c' && text.get_char(n - 1)
        == '1';
    assert(r == (path@.subrange(n - 3, n as int) =~= seq!['.', 'c', '1']));
    r
}

/// The interpreter declines tests that use C1: their outcome is `Skipped`
/// without a run
pub fn interpreter_skip(test: &TestExecutionInfo) -> (r: Option<(String, Behavior)>)
    ensures
        r is Some <==> uses_c1(*test),
        r matches Some((output, behavior)) ==> behavior == Behavior::Skipped && output@
            == "<C1 test skipped>"@,
{
    let mut i: usize = 0;
    while i < test.sources.len()
        invariant
            i <= test.sources@.len(),
            forall|k: int| 0 <= k < i ==> !is_c1_source(#[trigger] test.sources@[k]@),
        decreases test.sources@.len() - i,
    {
        if is_c1_path(&test.sources[i]) {
            return Some((String::from_str("<C1 test skipped>"), Behavior::Skipped));
        }
        i = i + 1;
    }
    None
}

/// Whether a token of a manifest command line names a source file: it is no
/// flag and ends in one of the toolchain's extensions
pub open spec fn is_source_token(arg: Seq<char>) -> bool {
    !(arg.len() > 0 && arg[0] == '-') && arg.len() >= 3 && arg[arg.len() - 3] == '.' && (
    arg[arg.len() - 2] == 'c' || arg[arg.len() - 2] == 'h') && (arg[arg.len() - 1] == '0' || arg[arg.len() - 1] == '1')
}

/// Tells the source files of a manifest command line from its flags
pub fn is_source_arg(arg: &str) -> (r: bool)
    ensures
        r == is_source_token(arg@),
{
    let n = arg.unicode_len();
    if n > 0 && arg.get_char(0) == '-' {
        return false;
    }
    if n < 3 {
        return false;
    }
    let dot = arg.get_char(n - 3);
    let kind = arg.get_char(n - 2);
    let version = arg.get_char(n - 1);
    dot == '.' && (kind == 'c' || kind == 'h') && (version == '0' || version == '1')
}

/// What a compilation means for the test: a compiler-reported error is the
/// test's outcome (`CompileError`, with the compiler's output), without a run;
/// a successful compilation leaves the outcome to the run
pub fn after_compile(compiled: Result<(), String>) -> (r: Option<(String, Behavior)>)
    ensures
        match compiled {
            Ok(()) => r is None,
            Err(output) => r == Some((output, Behavior::CompileError)),
        },
{
    match compiled {
        Ok(()) => None,
        Err(output) => Some((output, Behavior::CompileError)),
    }
}

} // verus!
