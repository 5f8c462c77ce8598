//! The three pipeline stages as decision logic: planning a step (dry run
//! previews the fully assembled command and never reaches the process
//! runner; a live run hands the same arguments over for execution) and
//! interpreting a finished step (success output goes to the matching
//! summarizer, failure text to the error translator). The unverified shell
//! only spawns processes and prints.

use vstd::prelude::*;
use vstd::string::StringExecFns;

use crate::command::commit_args;
use crate::command::commit_args_spec;
use crate::command::push_args;
use crate::command::push_args_spec;
use crate::command::stage_args;
use crate::command::stage_args_spec;
use crate::commit_summary::passthrough_lines;
use crate::commit_summary::passthrough_spec;
use crate::commit_summary::summarize_commit;
use crate::commit_summary::summarize_commit_spec;
use crate::commit_summary::ChangeSummary;
use crate::errors::classify;
use crate::errors::classify_commit_spec;
use crate::errors::classify_stage;
use crate::errors::classify_stage_spec;
use crate::errors::ErrorCategory;
use crate::push_summary::summarize_push;
use crate::push_summary::summarize_push_spec;
use crate::push_summary::PushSummary;
use crate::runner::run_result_spec;
use crate::runner::ExecutionResult;
use crate::runner::ExecutionResultView;

verus! {

/// A planned step. A preview is what dry-run mode shows; only an `Execute`
/// plan may be handed to the process runner, so a dry run by construction
/// never invokes it.
pub enum CommandPlan {
    Preview { args: Vec<String> },
    Execute { args: Vec<String> },
}

/// The argument vector a plan carries, previewed or executed alike.
pub open spec fn plan_args_view(p: CommandPlan) -> Seq<Seq<char>> {
    match p {
        CommandPlan::Preview { args } => args.deep_view(),
        CommandPlan::Execute { args } => args.deep_view(),
    }
}

/// Plans the staging step: a preview exactly in dry-run mode, carrying the
/// fully assembled staging command either way.
pub fn plan_stage(files: &Option<Vec<String>>, dryrun: bool) -> (p: CommandPlan)
    ensures
        (p is Preview) == dryrun,
        plan_args_view(p) == stage_args_spec(
            match files {
                Some(fs) => Some(fs.deep_view()),
                None => None,
            },
        ),
{
    let args = stage_args(files);
    if dryrun {
        CommandPlan::Preview { args }
    } else {
        CommandPlan::Execute { args }
    }
}

/// Plans the commit step: a preview exactly in dry-run mode, carrying the
/// fully assembled commit command either way.
pub fn plan_commit(message: &str, dryrun: bool) -> (p: CommandPlan)
    ensures
        (p is Preview) == dryrun,
        plan_args_view(p) == commit_args_spec(message@),
{
    let args = commit_args(message);
    if dryrun {
        CommandPlan::Preview { args }
    } else {
        CommandPlan::Execute { args }
    }
}

/// Plans the push step: a preview exactly in dry-run mode, carrying the fully
/// assembled push command either way.
pub fn plan_push(upstream: &Option<String>, dryrun: bool, force: u8) -> (p: CommandPlan)
    ensures
        (p is Preview) == dryrun,
        plan_args_view(p) == push_args_spec(
            match upstream {
                Some(u) => Some(u@),
                None => None,
            },
            force,
        ),
{
    let args = push_args(upstream, force);
    if dryrun {
        CommandPlan::Preview { args }
    } else {
        CommandPlan::Execute { args }
    }
}

/// The fixed user-facing message for each error category on the commit path.
pub open spec fn commit_error_message_spec(c: ErrorCategory) -> Seq<char> {
    match c {
        ErrorCategory::EmailNotConfigured => (
        "could not detect email address. use git config --global user.email \"you@email.com\"")@,
        ErrorCategory::NothingToCommit => ("    nothing to commit :3 meow")@,
        ErrorCategory::EmptyMessage => ("    provide a valid commit message")@,
        ErrorCategory::NoMatchingFiles => ("    could not stage files: files not found")@,
        ErrorCategory::PushRejected => ("    push was rejected by the remote")@,
        ErrorCategory::Generic => ("    could not commit files. are there any changes to commit?")@,
    }
}

/// The fixed user-facing message for a failed staging step: one message when
/// everything was being staged, otherwise one of two depending on whether the
/// named files were found.
pub open spec fn stage_error_message_spec(c: ErrorCategory, all: bool) -> Seq<char> {
    if all {
        ("could not stage all")@
    } else if c is NoMatchingFiles {
        ("    could not stage files: files not found")@
    } else {
        ("    could not stage files")@
    }
}

/// The fixed user-facing message for a failed push.
pub open spec fn push_error_message_spec() -> Seq<char> {
    ("could not push to remote")@
}

/// The message for a commit error category, as `commit_error_message_spec`
/// describes.
pub fn commit_error_message(c: ErrorCategory) -> (r: String)
    ensures
        r@ == commit_error_message_spec(c),
{
    match c {
        ErrorCategory::EmailNotConfigured => String::from_str(
            "could not detect email address. use git config --global user.email \"you@email.com\"",
        ),
        ErrorCategory::NothingToCommit => String::from_str("    nothing to commit :3 meow"),
        ErrorCategory::EmptyMessage => String::from_str("    provide a valid commit message"),
        ErrorCategory::NoMatchingFiles => String::from_str(
            "    could not stage files: files not found",
        ),
        ErrorCategory::PushRejected => String::from_str("    push was rejected by the remote"),
        ErrorCategory::Generic => String::from_str(
            "    could not commit files. are there any changes to commit?",
        ),
    }
}

/// How the staging step ends: the passthrough lines of the staged output, or
/// a translated failure.
pub enum StageOutcome {
    Staged { lines: Vec<Vec<u8>> },
    StageFailed { category: ErrorCategory, message: String },
}

/// How the commit step ends: a condensed summary, or a translated failure.
pub enum CommitOutcome {
    Committed { summary: ChangeSummary },
    CommitFailed { category: ErrorCategory, message: String },
}

/// How the push step ends: a condensed summary, or a failure with the fixed
/// push message.
pub enum PushOutcome {
    Pushed { summary: PushSummary },
    PushFailed { message: String },
}

/// Interprets a finished staging step: success output passes through
/// verbatim, failure text goes to the staging error translator.
pub fn stage_outcome(r: &ExecutionResult, all: bool) -> (o: StageOutcome)
    ensures
        r@ matches ExecutionResultView::Success { stdout, .. } ==> (o matches
            StageOutcome::Staged { lines } && lines.deep_view() == passthrough_spec(stdout)),
        r@ matches ExecutionResultView::Failure { stderr, .. } ==> (o matches
            StageOutcome::StageFailed { category, message } && category == classify_stage_spec(
            stderr,
        ) && message@ == stage_error_message_spec(classify_stage_spec(stderr), all)),
{
    match r {
        ExecutionResult::Success { stdout, .. } => {
            StageOutcome::Staged { lines: passthrough_lines(stdout.as_slice()) }
        },
        ExecutionResult::Failure { stderr, .. } => {
            let category = classify_stage(stderr.as_slice());
            let message = if all {
                String::from_str("could not stage all")
            } else {
                match category {
                    ErrorCategory::NoMatchingFiles => String::from_str(
                        "    could not stage files: files not found",
                    ),
                    _ => String::from_str("    could not stage files"),
                }
            };
            StageOutcome::StageFailed { category, message }
        },
    }
}

/// Interprets a finished commit step: success output goes to the commit
/// summarizer, failure text to the commit error translator, whose category
/// picks the fixed message.
pub fn commit_outcome(r: &ExecutionResult) -> (o: CommitOutcome)
    ensures
        r@ matches ExecutionResultView::Success { stdout, .. } ==> (o matches
            CommitOutcome::Committed { summary } && summary@ == summarize_commit_spec(stdout)),
        r@ matches ExecutionResultView::Failure { stderr, .. } ==> (o matches
            CommitOutcome::CommitFailed { category, message } && category == classify_commit_spec(
            stderr,
        ) && message@ == commit_error_message_spec(classify_commit_spec(stderr))),
{
    match r {
        ExecutionResult::Success { stdout, .. } => {
            CommitOutcome::Committed { summary: summarize_commit(stdout.as_slice()) }
        },
        ExecutionResult::Failure { stderr, .. } => {
            let category = classify(stderr.as_slice());
            let message = commit_error_message(category);
            CommitOutcome::CommitFailed { category, message }
        },
    }
}

/// Interprets a finished push step: success output (both streams) goes to the
/// push summarizer, and any failure carries the fixed push message.
pub fn push_outcome(r: &ExecutionResult) -> (o: PushOutcome)
    ensures
        r@ matches ExecutionResultView::Success { stdout, stderr } ==> (o matches
            PushOutcome::Pushed { summary } && summary@ == summarize_push_spec(stdout, stderr)),
        r@ matches ExecutionResultView::Failure { .. } ==> (o matches PushOutcome::PushFailed {
            message,
        } && message@ == push_error_message_spec()),
{
    match r {
        ExecutionResult::Success { stdout, stderr } => {
            PushOutcome::Pushed { summary: summarize_push(stdout.as_slice(), stderr.as_slice()) }
        },
        ExecutionResult::Failure { .. } => {
            PushOutcome::PushFailed { message: String::from_str("could not push to remote") }
        },
    }
}

/// The success note printed after a push, naming the upstream when one was
/// set.
pub open spec fn pushed_note_spec(upstream: Option<Seq<char>>) -> Seq<char> {
    match upstream {
        Some(u) => ("  pushed to remote ")@ + u,
        None => ("  pushed to remote")@,
    }
}

/// Composes the push success note, as `pushed_note_spec` describes.
pub fn pushed_note(upstream: &Option<String>) -> (r: String)
    ensures
        r@ == pushed_note_spec(
            match upstream {
                Some(u) => Some(u@),
                None => None,
            },
        ),
{
    match upstream {
        Some(u) => {
            let mut r = String::from_str("  pushed to remote ");
            r.append(u.as_str());
            r
        },
        None => String::from_str("  pushed to remote"),
    }
}

/// What the streaming push variant reports: success exactly on a zero exit
/// status. It echoes lines as they arrive and cannot summarize, so the exit
/// status is all it classifies.
pub open spec fn streaming_push_ok(exit_ok: bool) -> bool {
    exit_ok
}

/// The streaming variant's terminal classification of a finished push.
pub fn streaming_push_status(exit_ok: bool) -> (ok: bool)
    ensures
        ok == streaming_push_ok(exit_ok),
{
    exit_ok
}

/// Streaming and buffered push classify a finished subprocess identically:
/// whatever the two streams carried, the buffered interpretation is a success
/// exactly when the streaming variant reports success, both being the exit
/// status itself.
pub proof fn lemma_streaming_matches_buffered(
    exit_ok: bool,
    stdout: Seq<u8>,
    stderr: Seq<u8>,
    args: Seq<Seq<char>>,
    workdir: Seq<char>,
)
    ensures
        (run_result_spec(exit_ok, stdout, stderr, args, workdir) is Success) == streaming_push_ok(
            exit_ok,
        ),
{
}

} // verus!
