use meow::push_summary::summarize_push;

#[test]
fn up_to_date_short_circuits() {
    let s = summarize_push(b"Everything up-to-date\n", b"");
    assert!(s.up_to_date);
    assert_eq!(s.remote, None);
    assert_eq!(s.ref_update, None);
    assert_eq!(s.upstream, None);
}

#[test]
fn up_to_date_on_stderr_counts_too() {
    let s = summarize_push(b"", b"Everything up-to-date\n");
    assert!(s.up_to_date);
}

#[test]
fn up_to_date_wins_over_other_lines() {
    let s = summarize_push(b"To github.com:me/repo.git\nEverything up-to-date\n", b"");
    assert!(s.up_to_date);
    assert_eq!(s.remote, None);
}

#[test]
fn recognized_lines_are_kept_trimmed() {
    let stderr = b"To github.com:me/repo.git\n   abc123..def456  main -> main\nBranch 'dev' set up to track remote branch 'dev' from 'origin'.\n";
    let s = summarize_push(b"", stderr);
    assert!(!s.up_to_date);
    assert_eq!(s.remote, Some(b"To github.com:me/repo.git".to_vec()));
    assert_eq!(s.ref_update, Some(b"abc123..def456  main -> main".to_vec()));
    assert_eq!(
        s.upstream,
        Some(b"Branch 'dev' set up to track remote branch 'dev' from 'origin'.".to_vec())
    );
}

#[test]
fn last_matching_line_wins() {
    let stderr = b"To one.example\nTo two.example\n";
    let s = summarize_push(b"", stderr);
    assert_eq!(s.remote, Some(b"To two.example".to_vec()));
}

#[test]
fn both_streams_are_scanned_in_order() {
    let s = summarize_push(b"To from-stdout.example\n", b"To from-stderr.example\n");
    assert_eq!(s.remote, Some(b"To from-stderr.example".to_vec()));
}

#[test]
fn remote_line_takes_priority_over_arrow() {
    // A line that both starts with the remote marker and holds an arrow is
    // the remote-target line, not the ref-update line.
    let s = summarize_push(b"To x -> y\n", b"");
    assert_eq!(s.remote, Some(b"To x -> y".to_vec()));
    assert_eq!(s.ref_update, None);
}

#[test]
fn unrecognized_output_is_unparsed() {
    let s = summarize_push(b"remote: nothing interesting\n", b"noise\n");
    assert!(!s.up_to_date);
    assert_eq!(s.remote, None);
    assert_eq!(s.ref_update, None);
    assert_eq!(s.upstream, None);
}

#[test]
fn up_to_date_must_match_exactly_after_trim() {
    let s = summarize_push(b"  Everything up-to-date  \n", b"");
    assert!(s.up_to_date);
    let s2 = summarize_push(b"Everything up-to-date!\n", b"");
    assert!(!s2.up_to_date);
}
