//! What running a shell command gave, and where commands run.

use std::path::PathBuf;
use vstd::prelude::*;

verus! {

/// What a command gave: its combined output, its exit code (`-1` when there is none)
/// and, when it could not be started at all, why.
#[derive(Debug, PartialEq, Eq)]
pub struct ExecutionResult {
    pub output: String,
    pub returncode: i32,
    pub exception_info: String,
}

/// An execution result as a mathematical value.
pub struct ExecutionResultView {
    pub output: Seq<char>,
    pub returncode: i32,
    pub exception_info: Seq<char>,
}

impl View for ExecutionResult {
    type V = ExecutionResultView;

    open spec fn view(&self) -> ExecutionResultView {
        ExecutionResultView {
            output: self.output@,
            returncode: self.returncode,
            exception_info: self.exception_info@,
        }
    }
}

impl Clone for ExecutionResult {
    fn clone(&self) -> (r: Self)
        ensures
            r@ == self@,
    {
        ExecutionResult {
            output: self.output.clone(),
            returncode: self.returncode,
            exception_info: self.exception_info.clone(),
        }
    }
}

/// Standard output and standard error as one text: either alone when the other is
/// empty, else both, joined by a line break.
pub open spec fn combined_output(stdout: Seq<char>, stderr: Seq<char>) -> Seq<char> {
    if stderr.len() == 0 {
        stdout
    } else if stdout.len() == 0 {
        stderr
    } else {
        stdout + "\n"@ + stderr
    }
}

/// How a command's output reads: what it wrote to standard output, then, when it also
/// wrote to standard error, a line break and that; either alone when the other is
/// empty.
pub proof fn lemma_output_combined(stdout: Seq<char>, stderr: Seq<char>)
    ensures
        stdout.len() > 0 && stderr.len() > 0 ==> combined_output(stdout, stderr) == stdout
            + seq!['\n'] + stderr,
        stderr.len() == 0 ==> combined_output(stdout, stderr) == stdout,
        stdout.len() == 0 ==> combined_output(stdout, stderr) == stderr,
{
    reveal_strlit("\n");
    assert("\n"@ =~= seq!['\n']);
    if stdout.len() == 0 && stderr.len() == 0 {
        assert(stdout =~= stderr);
    }
}

/// The exit code that a result records: the process's own, or `-1` when it has none
/// (it was ended by a signal).
pub open spec fn recorded_code(code: Option<i32>) -> i32 {
    match code {
        Some(c) => c,
        None => -1i32,
    }
}

/// The text that `String::from_utf8_lossy` makes of `bytes`.
pub uninterp spec fn lossy_utf8(bytes: Seq<u8>) -> Seq<char>;

/// Calls `String::from_utf8_lossy` and takes the text out of the `Cow`. Claimed: the
/// text depends on the bytes alone; it is their decoding where they are valid UTF-8,
/// and where they are not it holds the replacement character U+FFFD, which the
/// documentation puts in place of each invalid sequence (where exactly is left to the
/// name).
#[verifier::external_body]
fn decode_lossy(bytes: &[u8]) -> (s: String)
    ensures
        s@ == lossy_utf8(bytes@),
        vstd::utf8::valid_utf8(bytes@) ==> s@ == vstd::utf8::decode_utf8(bytes@),
        !vstd::utf8::valid_utf8(bytes@) ==> s@.contains('\u{FFFD}'),
{
    String::from_utf8_lossy(bytes).into_owned()
}

/// What the output of a command reads as: its decoding when it is valid UTF-8, else
/// the text that `String::from_utf8_lossy` makes of it.
pub open spec fn output_text(bytes: Seq<u8>) -> Seq<char> {
    if vstd::utf8::valid_utf8(bytes) {
        vstd::utf8::decode_utf8(bytes)
    } else {
        lossy_utf8(bytes)
    }
}

/// Joins two texts with a line break between them.
fn join_lines(first: String, second: &str) -> (s: String)
    ensures
        s@ == first@ + "\n"@ + second@,
{
    let mut s = first;
    s.append("\n");
    s.append(second);
    s
}

impl ExecutionResult {
    /// The result of a command that ran, from its output as text and its exit code.
    pub fn from_text(stdout: String, stderr: String, code: Option<i32>) -> (r: Self)
        ensures
            r@.output == combined_output(stdout@, stderr@),
            r@.returncode == recorded_code(code),
            r@.exception_info == Seq::<char>::empty(),
    {
        let output = if stderr.as_str().unicode_len() == 0 {
            stdout
        } else if stdout.as_str().unicode_len() == 0 {
            stderr
        } else {
            join_lines(stdout, stderr.as_str())
        };
        let returncode = match code {
            Some(c) => c,
            None => -1,
        };
        ExecutionResult { output, returncode, exception_info: String::new() }
    }

    /// The result of a command that ran, from the bytes that it wrote and its exit code;
    /// the bytes are read as UTF-8, invalid sequences replaced by U+FFFD.
    pub fn from_output(stdout: &[u8], stderr: &[u8], code: Option<i32>) -> (r: Self)
        ensures
            r@.output == combined_output(lossy_utf8(stdout@), lossy_utf8(stderr@)),
            r@.output == combined_output(output_text(stdout@), output_text(stderr@)),
            !vstd::utf8::valid_utf8(stdout@) || !vstd::utf8::valid_utf8(stderr@)
                ==> r@.output.contains('\u{FFFD}'),
            r@.returncode == recorded_code(code),
            r@.exception_info == Seq::<char>::empty(),
    {
        let out = decode_lossy(stdout);
        let err = decode_lossy(stderr);
        proof {
            reveal_strlit("\n");
            let o = out@;
            let e = err@;
            if !vstd::utf8::valid_utf8(stdout@) {
                let k = choose|k: int| 0 <= k < o.len() && o[k] == '\u{FFFD}';
                if e.len() > 0 {
                    assert((o + "\n"@ + e)[k] == '\u{FFFD}');
                }
            } else if !vstd::utf8::valid_utf8(stderr@) {
                let k = choose|k: int| 0 <= k < e.len() && e[k] == '\u{FFFD}';
                if o.len() > 0 {
                    assert((o + "\n"@ + e)[o.len() + 1 + k] == '\u{FFFD}');
                }
            }
        }
        Self::from_text(out, err, code)
    }

    /// The result of a command that could not be started: no output, code `-1`, and
    /// the reason.
    pub fn spawn_failed(reason: &str) -> (r: Self)
        ensures
            r@.output == Seq::<char>::empty(),
            r@.returncode == -1,
            r@.exception_info == "Failed to execute command: "@ + reason@,
    {
        let info = String::from_str("Failed to execute command: ").concat(reason);
        ExecutionResult { output: String::new(), returncode: -1, exception_info: info }
    }
}

#[verifier::external_type_specification]
#[verifier::external_body]
pub struct ExPathBuf(PathBuf);

/// The path that `PathBuf::from` makes of a text.
pub uninterp spec fn path_of_text(s: Seq<char>) -> PathBuf;

/// Calls `PathBuf::from` on a text. Claimed: the path depends on the text alone.
#[verifier::external_body]
fn path_from_text(s: &str) -> (p: PathBuf)
    ensures
        p == path_of_text(s@),
{
    PathBuf::from(s)
}

/// Where commands run.
pub struct LocalEnvironment {
    pub cwd: PathBuf,
}

impl LocalEnvironment {
    /// Commands run in `cwd` when it is given, else in `current_dir` (the process's
    /// working directory, where it could be read), else in `.`.
    pub fn new(cwd: Option<PathBuf>, current_dir: Option<PathBuf>) -> (e: Self)
        ensures
            e.cwd == (match (cwd, current_dir) {
                (Some(p), _) => p,
                (None, Some(d)) => d,
                (None, None) => path_of_text("."@),
            }),
    {
        let dir = match cwd {
            Some(p) => p,
            None => match current_dir {
                Some(d) => d,
                None => path_from_text("."),
            },
        };
        LocalEnvironment { cwd: dir }
    }
}

} // verus!
