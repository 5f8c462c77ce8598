use meow::command::createcommand;
use meow::command::commit_args;
use meow::command::push_args;
use meow::command::stage_args;
use meow::errors::ErrorCategory;
use meow::paths::clean_root;
use meow::pipeline::commit_outcome;
use meow::pipeline::plan_commit;
use meow::pipeline::plan_push;
use meow::pipeline::plan_stage;
use meow::pipeline::push_outcome;
use meow::pipeline::pushed_note;
use meow::pipeline::stage_outcome;
use meow::pipeline::streaming_push_status;
use meow::pipeline::CommandPlan;
use meow::pipeline::CommitOutcome;
use meow::pipeline::PushOutcome;
use meow::pipeline::StageOutcome;
use meow::runner::interpret_exit;
use meow::runner::root_from_output;
use meow::runner::spawn_failure_info;
use meow::runner::ExecutionResult;

/// A stand-in for the process runner that only counts how often it is asked
/// to run something.
struct RecordingRunner {
    calls: usize,
}

impl RecordingRunner {
    fn run(&mut self, _args: &[String]) -> ExecutionResult {
        self.calls += 1;
        ExecutionResult::Success { stdout: Vec::new(), stderr: Vec::new() }
    }

    fn drive(&mut self, plan: CommandPlan) -> Option<ExecutionResult> {
        match plan {
            CommandPlan::Preview { args: _ } => None,
            CommandPlan::Execute { args } => Some(self.run(&args)),
        }
    }
}

fn strings(v: &[&str]) -> Vec<String> {
    v.iter().map(|s| s.to_string()).collect()
}

#[test]
fn dry_run_never_invokes_the_runner() {
    let mut runner = RecordingRunner { calls: 0 };
    let p1 = plan_stage(&None, true);
    let p2 = plan_commit("msg", true);
    let p3 = plan_push(&Some("dev".to_string()), true, 1);
    // Each dry-run plan is a preview carrying the fully assembled command.
    match &p1 {
        CommandPlan::Preview { args } => assert_eq!(args, &strings(&["add", "."])),
        CommandPlan::Execute { .. } => panic!("dry run planned an execution"),
    }
    match &p2 {
        CommandPlan::Preview { args } => assert_eq!(args, &strings(&["commit", "-m", "msg"])),
        CommandPlan::Execute { .. } => panic!("dry run planned an execution"),
    }
    match &p3 {
        CommandPlan::Preview { args } => assert_eq!(
            args,
            &strings(&["push", "--set-upstream", "origin", "dev", "--force-with-lease"])
        ),
        CommandPlan::Execute { .. } => panic!("dry run planned an execution"),
    }
    runner.drive(p1);
    runner.drive(p2);
    runner.drive(p3);
    assert_eq!(runner.calls, 0);
}

#[test]
fn live_run_reaches_the_runner() {
    let mut runner = RecordingRunner { calls: 0 };
    runner.drive(plan_stage(&None, false));
    runner.drive(plan_commit("msg", false));
    runner.drive(plan_push(&None, false, 0));
    assert_eq!(runner.calls, 3);
}

#[test]
fn staging_arguments_name_the_files() {
    let files = Some(strings(&["a.txt", "b.txt"]));
    assert_eq!(stage_args(&files), strings(&["add", "a.txt", "b.txt"]));
    assert_eq!(stage_args(&None), strings(&["add", "."]));
}

#[test]
fn commit_arguments_carry_the_message() {
    assert_eq!(commit_args("fix bug"), strings(&["commit", "-m", "fix bug"]));
}

#[test]
fn force_level_selects_exactly_one_flag() {
    assert_eq!(push_args(&None, 0), strings(&["push"]));
    assert_eq!(push_args(&None, 1), strings(&["push", "--force-with-lease"]));
    assert_eq!(push_args(&None, 2), strings(&["push", "--force"]));
    assert_eq!(push_args(&None, 5), strings(&["push", "--force"]));
    assert_eq!(
        push_args(&Some("dev".to_string()), 2),
        strings(&["push", "--set-upstream", "origin", "dev", "--force"])
    );
}

#[test]
fn createcommand_prepends_the_tool() {
    assert_eq!(createcommand(&["push", "--force"]), vec!["git", "push", "--force"]);
    assert_eq!(createcommand(&[]), vec!["git"]);
}

#[test]
fn zero_exit_is_a_success_with_the_streams() {
    let r = interpret_exit(
        true,
        b"out".to_vec(),
        b"err".to_vec(),
        &strings(&["git", "add", "."]),
        "/tmp/repo",
    );
    match r {
        ExecutionResult::Success { stdout, stderr } => {
            assert_eq!(stdout, b"out".to_vec());
            assert_eq!(stderr, b"err".to_vec());
        },
        ExecutionResult::Failure { .. } => panic!("zero exit mapped to failure"),
    }
}

#[test]
fn nonzero_exit_composes_the_failure_message() {
    let r = interpret_exit(
        false,
        Vec::new(),
        b"  fatal: oops \n".to_vec(),
        &strings(&["git", "push"]),
        "/tmp/repo",
    );
    match r {
        ExecutionResult::Failure { exit_info, .. } => {
            assert_eq!(
                exit_info,
                "command `git push` executed in `/tmp/repo` failed with: fatal: oops"
            );
        },
        ExecutionResult::Success { .. } => panic!("nonzero exit mapped to success"),
    }
}

#[test]
fn invalid_utf8_stderr_falls_back_to_placeholder() {
    let r = interpret_exit(
        false,
        Vec::new(),
        vec![0xff, 0xfe],
        &strings(&["git", "push"]),
        "/r",
    );
    match r {
        ExecutionResult::Failure { exit_info, .. } => {
            assert_eq!(
                exit_info,
                "command `git push` executed in `/r` failed with: failed to read stderr (non-utf8)"
            );
        },
        ExecutionResult::Success { .. } => panic!("nonzero exit mapped to success"),
    }
}

#[test]
fn spawn_failure_is_worded_apart_from_exit_failure() {
    let msg = spawn_failure_info(&strings(&["git", "add", "."]), "/tmp/repo", "No such file");
    assert_eq!(
        msg,
        "failed to execute command `git add .` in directory `/tmp/repo`: No such file"
    );
}

#[test]
fn streaming_and_buffered_push_classify_alike() {
    // The same captured output, through both paths, with both exit statuses.
    let stdout = b"To example.com:me/repo.git\n".to_vec();
    let stderr = b"noise\n".to_vec();
    let args = strings(&["git", "push"]);
    for exit_ok in [true, false] {
        let buffered = interpret_exit(exit_ok, stdout.clone(), stderr.clone(), &args, "/r");
        let buffered_ok = matches!(buffered, ExecutionResult::Success { .. });
        assert_eq!(buffered_ok, streaming_push_status(exit_ok));
    }
}

#[test]
fn commit_success_is_summarized() {
    let r = ExecutionResult::Success {
        stdout: b"[main a1b2c3d] fix bug\n 2 files changed, 3 insertions(+), 1 deletion(-)\n"
            .to_vec(),
        stderr: Vec::new(),
    };
    match commit_outcome(&r) {
        CommitOutcome::Committed { summary } => {
            assert!(summary.parsed);
            assert_eq!(summary.insertions, 3);
            assert_eq!(summary.deletions, 1);
        },
        CommitOutcome::CommitFailed { .. } => panic!("success interpreted as failure"),
    }
}

#[test]
fn commit_failure_is_translated() {
    let r = ExecutionResult::Failure {
        stdout: Vec::new(),
        stderr: b"On branch main\nnothing to commit, working tree clean\n".to_vec(),
        exit_info: String::new(),
    };
    match commit_outcome(&r) {
        CommitOutcome::CommitFailed { category, message } => {
            assert_eq!(category, ErrorCategory::NothingToCommit);
            assert_eq!(message, "    nothing to commit :3 meow");
        },
        CommitOutcome::Committed { .. } => panic!("failure interpreted as success"),
    }
}

#[test]
fn stage_failure_messages_depend_on_mode() {
    let missing = ExecutionResult::Failure {
        stdout: Vec::new(),
        stderr: b"fatal: pathspec 'x' did not match any files".to_vec(),
        exit_info: String::new(),
    };
    match stage_outcome(&missing, false) {
        StageOutcome::StageFailed { category, message } => {
            assert_eq!(category, ErrorCategory::NoMatchingFiles);
            assert_eq!(message, "    could not stage files: files not found");
        },
        StageOutcome::Staged { .. } => panic!("failure interpreted as success"),
    }
    match stage_outcome(&missing, true) {
        StageOutcome::StageFailed { message, .. } => {
            assert_eq!(message, "could not stage all");
        },
        StageOutcome::Staged { .. } => panic!("failure interpreted as success"),
    }
}

#[test]
fn stage_success_passes_output_through() {
    let r = ExecutionResult::Success { stdout: b"warning: CRLF\n".to_vec(), stderr: Vec::new() };
    match stage_outcome(&r, true) {
        StageOutcome::Staged { lines } => assert_eq!(lines, vec![b"warning: CRLF".to_vec()]),
        StageOutcome::StageFailed { .. } => panic!("success interpreted as failure"),
    }
}

#[test]
fn push_outcomes_summarize_or_carry_the_fixed_message() {
    let ok = ExecutionResult::Success {
        stdout: Vec::new(),
        stderr: b"Everything up-to-date\n".to_vec(),
    };
    match push_outcome(&ok) {
        PushOutcome::Pushed { summary } => assert!(summary.up_to_date),
        PushOutcome::PushFailed { .. } => panic!("success interpreted as failure"),
    }
    let bad = ExecutionResult::Failure {
        stdout: Vec::new(),
        stderr: b"! [rejected] main -> main\n".to_vec(),
        exit_info: String::new(),
    };
    match push_outcome(&bad) {
        PushOutcome::PushFailed { message } => assert_eq!(message, "could not push to remote"),
        PushOutcome::Pushed { .. } => panic!("failure interpreted as success"),
    }
}

#[test]
fn pushed_note_names_the_upstream() {
    assert_eq!(pushed_note(&Some("dev".to_string())), "  pushed to remote dev");
    assert_eq!(pushed_note(&None), "  pushed to remote");
}

#[test]
fn root_output_is_trimmed() {
    assert_eq!(root_from_output(b"/home/me/proj\n"), b"/home/me/proj".to_vec());
}

#[test]
fn home_prefix_becomes_tilde() {
    assert_eq!(
        clean_root(b"/home/me/proj", Some(b"/home/me")),
        b"~/proj".to_vec()
    );
    assert_eq!(
        clean_root(b"/home/me/a/b", Some(b"/home/me")),
        b"~/a/b".to_vec()
    );
    assert_eq!(clean_root(b"/home/me", Some(b"/home/me")), b"~/".to_vec());
}

#[test]
fn component_boundaries_guard_the_prefix_test() {
    // A sibling directory that merely extends the last component is not under
    // the home directory.
    assert_eq!(
        clean_root(b"/home/meow/proj", Some(b"/home/me")),
        b"/home/meow/proj".to_vec()
    );
}

#[test]
fn roots_outside_home_are_unchanged() {
    assert_eq!(clean_root(b"/srv/data", Some(b"/home/me")), b"/srv/data".to_vec());
    assert_eq!(clean_root(b"/srv/data", None), b"/srv/data".to_vec());
}
