use meow::commit_summary::split_mode_line;
use meow::commit_summary::summarize_commit;
use meow::commit_summary::passthrough_lines;
use meow::scan::parsecount;

#[test]
fn full_commit_output_is_condensed() {
    let out = b"[main a1b2c3d] fix bug\n 2 files changed, 3 insertions(+), 1 deletion(-)\n create mode 100644 foo.txt\n";
    let s = summarize_commit(out);
    assert!(s.parsed);
    assert_eq!(s.branch, Some(b"main".to_vec()));
    assert_eq!(s.hash, Some(b"a1b2c3d".to_vec()));
    assert_eq!(s.files_changed, 2);
    assert_eq!(s.insertions, 3);
    assert_eq!(s.deletions, 1);
    assert_eq!(s.mode_line, Some(b" create mode 100644 foo.txt".to_vec()));
}

#[test]
fn mode_line_splits_into_three_parts() {
    let parts = split_mode_line(b" create mode 100644 foo.txt").unwrap();
    assert_eq!(parts.0, b"create".to_vec());
    assert_eq!(parts.1, b"mode".to_vec());
    assert_eq!(parts.2, b"100644 foo.txt".to_vec());
}

#[test]
fn mode_line_with_two_tokens_does_not_split() {
    assert!(split_mode_line(b"create mode").is_none());
}

#[test]
fn counts_found_with_deletions_before_insertions() {
    let out = b"[dev 00ff00] swap\n 4 files changed, 7 deletions(-), 5 insertions(+)\n";
    let s = summarize_commit(out);
    assert!(s.parsed);
    assert_eq!(s.insertions, 5);
    assert_eq!(s.deletions, 7);
    assert_eq!(s.files_changed, 4);
}

#[test]
fn missing_insertion_clause_defaults_to_zero() {
    let out = b"[main beef01] prune\n 1 file changed, 9 deletions(-)\n";
    let s = summarize_commit(out);
    assert!(s.parsed);
    assert_eq!(s.insertions, 0);
    assert_eq!(s.deletions, 9);
    assert_eq!(s.files_changed, 1);
}

#[test]
fn missing_deletion_clause_defaults_to_zero() {
    let out = b"[main beef02] grow\n 1 file changed, 6 insertions(+)\n";
    let s = summarize_commit(out);
    assert!(s.parsed);
    assert_eq!(s.insertions, 6);
    assert_eq!(s.deletions, 0);
}

#[test]
fn no_stats_line_degrades_to_unparsed() {
    let out = b"On branch main\nYour branch is up to date\n";
    let s = summarize_commit(out);
    assert!(!s.parsed);
    assert_eq!(s.branch, None);
    assert_eq!(s.hash, None);
    assert_eq!(s.files_changed, 0);
    assert_eq!(s.insertions, 0);
    assert_eq!(s.deletions, 0);
    assert_eq!(s.mode_line, None);
}

#[test]
fn empty_output_degrades_to_unparsed() {
    let s = summarize_commit(b"");
    assert!(!s.parsed);
}

#[test]
fn unparsable_insertion_count_degrades_to_unparsed() {
    let out = b"[main f00] odd\n 1 file changed, many insertions(+), 1 deletion(-)\n";
    let s = summarize_commit(out);
    assert!(!s.parsed);
    assert_eq!(s.insertions, 0);
    assert_eq!(s.deletions, 0);
}

#[test]
fn oversized_insertion_count_degrades_to_unparsed() {
    let out = b"[main f01] big\n 1 file changed, 99999999999 insertions(+)\n";
    let s = summarize_commit(out);
    assert!(!s.parsed);
}

#[test]
fn unparsable_files_count_defaults_to_zero() {
    let out = b"[main f02] odd\n some files changed, 2 insertions(+), 1 deletion(-)\n";
    let s = summarize_commit(out);
    assert!(s.parsed);
    assert_eq!(s.files_changed, 0);
    assert_eq!(s.insertions, 2);
    assert_eq!(s.deletions, 1);
}

#[test]
fn short_header_line_leaves_branch_and_hash_empty() {
    let out = b"done\n 1 file changed, 1 insertion(+)\n";
    let s = summarize_commit(out);
    assert!(s.parsed);
    assert_eq!(s.branch, None);
    assert_eq!(s.hash, None);
}

#[test]
fn last_stats_line_wins() {
    let out = b"head\n 1 file changed, 1 insertion(+)\n 3 files changed, 4 insertions(+), 2 deletions(-)\n";
    let s = summarize_commit(out);
    assert!(s.parsed);
    assert_eq!(s.files_changed, 3);
    assert_eq!(s.insertions, 4);
    assert_eq!(s.deletions, 2);
}

#[test]
fn stats_line_on_header_position_is_ignored() {
    // The scan covers only the lines after the header.
    let out = b" 2 files changed, 2 insertions(+)";
    let s = summarize_commit(out);
    assert!(!s.parsed);
}

#[test]
fn passthrough_keeps_lines_of_nonblank_output() {
    let lines = passthrough_lines(b"alpha\n\nbeta\n");
    assert_eq!(lines, vec![b"alpha".to_vec(), b"".to_vec(), b"beta".to_vec()]);
}

#[test]
fn passthrough_of_blank_output_is_empty() {
    assert_eq!(passthrough_lines(b"  \n \t\n"), Vec::<Vec<u8>>::new());
    assert_eq!(passthrough_lines(b""), Vec::<Vec<u8>>::new());
}

#[test]
fn parsecount_reads_leading_token() {
    assert_eq!(parsecount(b"  42 insertions(+)"), Some(42));
    assert_eq!(parsecount(b""), Some(0));
    assert_eq!(parsecount(b"   "), Some(0));
    assert_eq!(parsecount(b"x7"), None);
    assert_eq!(parsecount(b"7x"), None);
    assert_eq!(parsecount(b"0"), Some(0));
    assert_eq!(parsecount(b"4294967295"), Some(u32::MAX));
    assert_eq!(parsecount(b"4294967296"), None);
}
