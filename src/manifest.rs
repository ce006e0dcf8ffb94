use vstd::prelude::*;

use crate::implementations::{is_source_arg, is_source_token, texts};
use crate::options::{is_blank, is_blank_char};
use crate::parse_spec::{chars_of, parse, parsed_specs, ParseOptions, SpecParseError};
use crate::spec::{specs_model, TestExecutionInfo, TestInfo};

verus! {

// A manifest (`sources.test`) holds one test per line, written
// `<spec>~<command line>`: the command line's words that name source files
// (relative to the manifest's directory) are the test's sources, and the
// other words are its flags.

/// Why a manifest line holds no test
#[derive(Debug)]
pub enum ManifestError {
    /// The line has no `~` between its spec and its command line
    MissingTilde,
    /// The spec before the `~` does not parse
    Spec(SpecParseError),
}

pub open spec fn is_blank_line(s: Seq<char>) -> bool {
    forall|k: int| 0 <= k < s.len() ==> is_blank(#[trigger] s[k])
}

/// The position of the first `~` at or after `i`, or -1
pub open spec fn tilde_from(s: Seq<char>, i: int) -> int
    decreases s.len() - i,
{
    if i < 0 || i >= s.len() {
        -1
    } else if s[i] == '~' {
        i
    } else {
        tilde_from(s, i + 1)
    }
}

pub open spec fn has_tilde(s: Seq<char>) -> bool {
    tilde_from(s, 0) >= 0
}

/// The text before the first `~`
pub open spec fn before_tilde(s: Seq<char>) -> Seq<char> {
    s.subrange(0, tilde_from(s, 0))
}

/// The text after the first `~`
pub open spec fn after_tilde(s: Seq<char>) -> Seq<char> {
    s.subrange(tilde_from(s, 0) + 1, s.len() as int)
}

/// ASCII white space, as `split_ascii_whitespace` knows it
pub open spec fn is_ascii_space(c: char) -> bool {
    c == ' ' || c == '\t' || c == '\n' || c == '\x0C' || c == '\r'
}

/// The first position at or after `i` that holds no ASCII white space
pub open spec fn word_start(s: Seq<char>, i: int) -> int
    decreases s.len() - i,
{
    if 0 <= i < s.len() && is_ascii_space(s[i]) {
        word_start(s, i + 1)
    } else {
        i
    }
}

/// The end of the word that starts at `i`
pub open spec fn word_end(s: Seq<char>, i: int) -> int
    decreases s.len() - i,
{
    if 0 <= i < s.len() && !is_ascii_space(s[i]) {
        word_end(s, i + 1)
    } else {
        i
    }
}

/// The words of `s` from position `i` on, separated by ASCII white space
pub open spec fn words_from(s: Seq<char>, i: int) -> Seq<Seq<char>>
    decreases s.len() - i,
{
    let k = word_start(s, i);
    if k < i || k >= s.len() {
        seq![]
    } else {
        let e = word_end(s, k);
        if k < e <= s.len() {
            seq![s.subrange(k, e)] + words_from(s, e)
        } else {
            seq![]
        }
    }
}

pub open spec fn ascii_words(s: Seq<char>) -> Seq<Seq<char>> {
    words_from(s, 0)
}

/// `path` resolved against `dir`: an absolute path stands alone, and a
/// relative one follows `dir` after a separator, unless `dir` is empty or
/// already ends with one
pub open spec fn path_join(dir: Seq<char>, path: Seq<char>) -> Seq<char> {
    if path.len() > 0 && path[0] == '/' {
        path
    } else if dir.len() == 0 || dir.last() == '/' {
        dir + path
    } else {
        dir + seq!['/'] + path
    }
}

/// The words that name source files, resolved against `dir`, in order
pub open spec fn manifest_sources(dir: Seq<char>, words: Seq<Seq<char>>) -> Seq<Seq<char>>
    decreases words.len(),
{
    if words.len() == 0 {
        seq![]
    } else {
        let rest = manifest_sources(dir, words.drop_last());
        if is_source_token(words.last()) {
            rest.push(path_join(dir, words.last()))
        } else {
            rest
        }
    }
}

/// The words that are flags, in order
pub open spec fn manifest_flags(words: Seq<Seq<char>>) -> Seq<Seq<char>>
    decreases words.len(),
{
    if words.len() == 0 {
        seq![]
    } else {
        let rest = manifest_flags(words.drop_last());
        if is_source_token(words.last()) {
            rest
        } else {
            rest.push(words.last())
        }
    }
}

fn is_ascii_space_char(c: char) -> (r: bool)
    ensures
        r == is_ascii_space(c),
{
    c == ' ' || c == '\t' || c == '\n' || c == '\x0C' || c == '\r'
}

fn path_join_exec(dir: &str, path: &String) -> (r: String)
    ensures
        r@ == path_join(dir@, path@),
{
    let p = path.as_str();
    if p.unicode_len() > 0 && p.get_char(0) == '/' {
        return path.clone();
    }
    let n = dir.unicode_len();
    let mut joined = String::from_str(dir);
    if n != 0 && dir.get_char(n - 1) != '/' {
        proof {
            reveal_strlit("/");
        }
        joined.append("/");
    }
    joined.append(p);
    joined
}

/// Splits `text` into its words
fn words_of(text: &str) -> (r: Vec<String>)
    ensures
        texts(r@) == ascii_words(text@),
{
    let s = chars_of(text);
    let mut words: Vec<String> = Vec::new();
    let mut i: usize = 0;
    loop
        invariant
            i <= s@.len(),
            s@ == text@,
            ascii_words(text@) == texts(words@) + words_from(s@, i as int),
        ensures
            ascii_words(text@) == texts(words@),
        decreases s@.len() - i,
    {
        let mut k = i;
        while k < s.len() && is_ascii_space_char(s[k])
            invariant
                i <= k <= s@.len(),
                word_start(s@, i as int) == word_start(s@, k as int),
            decreases s@.len() - k,
        {
            k = k + 1;
        }
        if k >= s.len() {
            assert(texts(words@) + words_from(s@, i as int) =~= texts(words@));
            break;
        }
        let mut e = k + 1;
        while e < s.len() && !is_ascii_space_char(s[e])
            invariant
                k < e <= s@.len(),
                word_end(s@, k as int) == word_end(s@, e as int),
            decreases s@.len() - e,
        {
            e = e + 1;
        }
        let word = text.substring_char(k, e).to_owned();
        let ghost before = words@;
        words.push(word);
        assert(texts(words@) =~= texts(before).push(s@.subrange(k as int, e as int)));
        assert(texts(before) + words_from(s@, i as int) =~= texts(words@) + words_from(
            s@,
            e as int,
        ));
        i = e;
    }
    words
}

/// Reads one line of a manifest in directory `dir`: a blank line holds no
/// test; any other line must be `<spec>~<command line>`
pub fn parse_manifest_line(dir: &str, line: &str) -> (r: Result<Option<TestInfo>, ManifestError>)
    ensures
        r matches Ok(None) <==> is_blank_line(line@),
        !is_blank_line(line@) && !has_tilde(line@) ==> r matches Err(ManifestError::MissingTilde),
        r matches Ok(Some(_)) <==> (!is_blank_line(line@) && has_tilde(line@) && parsed_specs(
            before_tilde(line@),
            false,
        ) is Some),
        r matches Err(ManifestError::Spec(_)) <==> (!is_blank_line(line@) && has_tilde(line@)
            && parsed_specs(before_tilde(line@), false) is None),
        r matches Ok(Some(t)) ==> {
            &&& specs_model(t.specs@) == parsed_specs(before_tilde(line@), false)->Some_0
            &&& texts(t.execution.sources@) == manifest_sources(
                dir@,
                ascii_words(after_tilde(line@)),
            )
            &&& texts(t.execution.compiler_options@) == manifest_flags(
                ascii_words(after_tilde(line@)),
            )
            &&& t.execution.directory@ == dir@
        },
{
    let s = chars_of(line);
    let n = s.len();
    let mut k: usize = 0;
    while k < n && is_blank_char(s[k])
        invariant
            k <= n == s@.len(),
            s@ == line@,
            forall|m: int| 0 <= m < k ==> is_blank(#[trigger] s@[m]),
        decreases n - k,
    {
        k = k + 1;
    }
    if k == n {
        return Ok(None);
    }
    assert(!is_blank(s@[k as int]));
    let mut t: usize = 0;
    while t < n && s[t] != '~'
        invariant
            t <= n == s@.len(),
            tilde_from(s@, 0) == tilde_from(s@, t as int),
        decreases n - t,
    {
        t = t + 1;
    }
    if t == n {
        return Err(ManifestError::MissingTilde);
    }
    let before = line.substring_char(0, t);
    let after = line.substring_char(t + 1, n);
    let specs = match parse(before, ParseOptions { require_test_marker: false }) {
        Ok(specs) => specs,
        Err(e) => {
            return Err(ManifestError::Spec(e));
        },
    };
    let words = words_of(after);
    let ghost w = ascii_words(after@);
    let mut sources: Vec<String> = Vec::new();
    let mut compiler_options: Vec<String> = Vec::new();
    let mut i: usize = 0;
    while i < words.len()
        invariant
            i <= words@.len(),
            texts(words@) == w,
            texts(sources@) == manifest_sources(dir@, w.take(i as int)),
            texts(compiler_options@) == manifest_flags(w.take(i as int)),
        decreases words@.len() - i,
    {
        assert(w.take(i + 1).drop_last() =~= w.take(i as int));
        assert(w[i as int] == words@[i as int]@);
        let ghost old_sources = sources@;
        let ghost old_options = compiler_options@;
        if is_source_arg(words[i].as_str()) {
            sources.push(path_join_exec(dir, &words[i]));
            assert(texts(sources@) =~= texts(old_sources).push(path_join(dir@, w[i as int])));
        } else {
            compiler_options.push(words[i].clone());
            assert(texts(compiler_options@) =~= texts(old_options).push(w[i as int]));
        }
        i = i + 1;
    }
    assert(w.take(words@.len() as int) =~= w);
    let directory = String::from_str(dir);
    Ok(Some(TestInfo { execution: TestExecutionInfo { sources, compiler_options, directory }, specs }))
}

} // verus!
