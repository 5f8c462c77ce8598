//! Interpreting a finished subprocess. The unverified shell spawns the
//! process and captures its streams; everything after that — mapping the exit
//! status to a structured result and composing the failure message around the
//! trimmed error text — is verified here. A failure to spawn at all is kept
//! apart from a nonzero exit, so callers can tell a missing tool from a tool
//! that ran and failed.

use vstd::prelude::*;
use vstd::string::StringExecFns;
use vstd::utf8::decode_utf8;
use vstd::utf8::valid_utf8;

use crate::scan::trim_bytes;
use crate::scan::trim_spec;

verus! {

/// The outcome of a subprocess that ran to completion: its captured streams,
/// and on a nonzero exit a composed human-readable message.
pub enum ExecutionResult {
    Success { stdout: Vec<u8>, stderr: Vec<u8> },
    Failure { stdout: Vec<u8>, stderr: Vec<u8>, exit_info: String },
}

/// The mathematical image of an `ExecutionResult`.
pub enum ExecutionResultView {
    Success { stdout: Seq<u8>, stderr: Seq<u8> },
    Failure { stdout: Seq<u8>, stderr: Seq<u8>, exit_info: Seq<char> },
}

impl View for ExecutionResult {
    type V = ExecutionResultView;

    open spec fn view(&self) -> ExecutionResultView {
        match self {
            ExecutionResult::Success { stdout, stderr } => ExecutionResultView::Success {
                stdout: stdout@,
                stderr: stderr@,
            },
            ExecutionResult::Failure { stdout, stderr, exit_info } => ExecutionResultView::Failure {
                stdout: stdout@,
                stderr: stderr@,
                exit_info: exit_info@,
            },
        }
    }
}

/// How a run ends overall: the process completed (with either exit status),
/// or it could not even be spawned — a missing or unexecutable tool.
pub enum RunOutcome {
    Completed(ExecutionResult),
    SpawnFailed { message: String },
}

/// The arguments joined by single spaces, as the command line is echoed.
pub open spec fn joined_args(args: Seq<Seq<char>>) -> Seq<char>
    decreases args.len(),
{
    if args.len() == 0 {
        Seq::<char>::empty()
    } else if args.len() == 1 {
        args[0]
    } else {
        joined_args(args.drop_last()) + seq![' '] + args.last()
    }
}

/// How captured error bytes are shown: decoded when they are valid UTF-8
/// after trimming, a fixed placeholder otherwise.
pub open spec fn stderr_display(stderr: Seq<u8>) -> Seq<char> {
    if valid_utf8(trim_spec(stderr)) {
        decode_utf8(trim_spec(stderr))
    } else {
        ("failed to read stderr (non-utf8)")@
    }
}

/// The message composed for a nonzero exit: the joined command, the working
/// directory, and the trimmed error text.
pub open spec fn failure_info_spec(args: Seq<Seq<char>>, workdir: Seq<char>, stderr: Seq<u8>) -> Seq<
    char,
> {
    ("command `")@ + joined_args(args) + ("` executed in `")@ + workdir + ("` failed with: ")@
        + stderr_display(stderr)
}

/// The message composed when the process could not be spawned at all.
pub open spec fn spawn_info_spec(args: Seq<Seq<char>>, workdir: Seq<char>, oserr: Seq<char>) -> Seq<
    char,
> {
    ("failed to execute command `")@ + joined_args(args) + ("` in directory `")@ + workdir + ("`: ")@
        + oserr
}

/// What interpreting a completed run yields: the streams as captured, plus
/// the composed message exactly when the exit status was nonzero.
pub open spec fn run_result_spec(
    exit_ok: bool,
    stdout: Seq<u8>,
    stderr: Seq<u8>,
    args: Seq<Seq<char>>,
    workdir: Seq<char>,
) -> ExecutionResultView {
    if exit_ok {
        ExecutionResultView::Success { stdout, stderr }
    } else {
        ExecutionResultView::Failure {
            stdout,
            stderr,
            exit_info: failure_info_spec(args, workdir, stderr),
        }
    }
}

/// Relies on `String::from_utf8`: it succeeds exactly on input that is valid
/// UTF-8 and then decodes it.
#[verifier::external_body]
fn bytes_to_string(v: Vec<u8>) -> (r: Option<String>)
    ensures
        r matches Some(s) ==> valid_utf8(v@) && s@ == decode_utf8(v@),
        r is None ==> !valid_utf8(v@),
{
    match String::from_utf8(v) {
        Ok(s) => Some(s),
        Err(_) => None,
    }
}

/// Joins arguments with single spaces, as `joined_args` describes.
pub fn join_args(args: &Vec<String>) -> (r: String)
    ensures
        r@ == joined_args(args.deep_view()),
{
    let ghost dv = args.deep_view();
    let mut r = String::new();
    let mut i: usize = 0;
    proof {
        assert(r@ =~= joined_args(dv.take(0)));
    }
    while i < args.len()
        invariant
            dv == args.deep_view(),
            dv.len() == args@.len(),
            0 <= i <= args@.len(),
            r@ == joined_args(dv.take(i as int)),
        decreases args@.len() - i,
    {
        proof {
            assert(args@[i as int].deep_view() == dv[i as int]);
            assert(dv.take(i + 1).drop_last() =~= dv.take(i as int));
            assert(dv.take(i + 1).last() == dv[i as int]);
        }
        if i > 0 {
            r.append(" ");
            proof {
                reveal_strlit(" ");
                assert(" "@ =~= seq![' ']);
            }
        }
        r.append(args[i].as_str());
        proof {
            if i == 0 {
                assert(dv.take(1)[0] == dv[0]);
                assert(r@ =~= joined_args(dv.take(1)));
            }
        }
        i += 1;
    }
    proof {
        assert(dv.take(args@.len() as int) =~= dv);
    }
    r
}

/// Composes the nonzero-exit message, as `failure_info_spec` describes.
pub fn failure_info(args: &Vec<String>, workdir: &str, stderr: &[u8]) -> (r: String)
    ensures
        r@ == failure_info_spec(args.deep_view(), workdir@, stderr@),
{
    let trimmed = trim_bytes(stderr);
    let ghost tv = trimmed@;
    let tail: String = match bytes_to_string(trimmed) {
        Some(s) => s,
        None => String::from_str("failed to read stderr (non-utf8)"),
    };
    proof {
        assert(tail@ == stderr_display(stderr@));
    }
    let joined = join_args(args);
    let mut r = String::from_str("command `");
    r.append(joined.as_str());
    r.append("` executed in `");
    r.append(workdir);
    r.append("` failed with: ");
    r.append(tail.as_str());
    r
}

/// Composes the spawn-failure message, as `spawn_info_spec` describes.
pub fn spawn_failure_info(args: &Vec<String>, workdir: &str, oserr: &str) -> (r: String)
    ensures
        r@ == spawn_info_spec(args.deep_view(), workdir@, oserr@),
{
    let joined = join_args(args);
    let mut r = String::from_str("failed to execute command `");
    r.append(joined.as_str());
    r.append("` in directory `");
    r.append(workdir);
    r.append("`: ");
    r.append(oserr);
    r
}

/// Interprets a completed subprocess, as `run_result_spec` describes: a zero
/// exit carries the streams through untouched, a nonzero exit composes the
/// failure message around the trimmed error text.
pub fn interpret_exit(
    exit_ok: bool,
    stdout: Vec<u8>,
    stderr: Vec<u8>,
    args: &Vec<String>,
    workdir: &str,
) -> (r: ExecutionResult)
    ensures
        r@ == run_result_spec(exit_ok, stdout@, stderr@, args.deep_view(), workdir@),
{
    if exit_ok {
        ExecutionResult::Success { stdout, stderr }
    } else {
        let exit_info = failure_info(args, workdir, stderr.as_slice());
        ExecutionResult::Failure { stdout, stderr, exit_info }
    }
}

/// The repository root as the root-discovery subcommand reports it: its
/// output with surrounding whitespace trimmed.
pub fn root_from_output(stdout: &[u8]) -> (r: Vec<u8>)
    ensures
        r@ == trim_spec(stdout@),
{
    trim_bytes(stdout)
}

} // verus!
