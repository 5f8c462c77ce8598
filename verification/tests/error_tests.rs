use meow::errors::classify;
use meow::errors::classify_stage;
use meow::errors::classify_with;
use meow::errors::commit_rules;
use meow::errors::ErrorCategory;
use meow::pipeline::commit_error_message;

#[test]
fn email_phrase_maps_to_email_not_configured() {
    let t = b"fatal: unable to auto-detect email address (got 'me@host')";
    assert_eq!(classify(t), ErrorCategory::EmailNotConfigured);
}

#[test]
fn clean_tree_phrase_maps_to_nothing_to_commit() {
    let t = b"On branch main\nnothing to commit, working tree clean\n";
    assert_eq!(classify(t), ErrorCategory::NothingToCommit);
}

#[test]
fn no_changes_phrase_maps_to_nothing_to_commit() {
    let t = b"No changes to commit; try staging first";
    assert_eq!(classify(t), ErrorCategory::NothingToCommit);
}

#[test]
fn empty_message_phrase_maps_to_empty_message() {
    let t = b"Aborting commit due to empty commit message.";
    assert_eq!(classify(t), ErrorCategory::EmptyMessage);
}

#[test]
fn unknown_text_maps_to_generic() {
    assert_eq!(classify(b"something else entirely"), ErrorCategory::Generic);
    assert_eq!(classify(b""), ErrorCategory::Generic);
}

#[test]
fn earlier_rule_wins_when_both_phrases_occur() {
    // The clean-tree rule stands before the empty-message rule, so it decides
    // whichever order the phrases appear in the text.
    let t1 = b"empty commit message and nothing to commit, working tree clean";
    let t2 = b"nothing to commit, working tree clean and empty commit message";
    assert_eq!(classify(t1), ErrorCategory::NothingToCommit);
    assert_eq!(classify(t2), ErrorCategory::NothingToCommit);
}

#[test]
fn classification_is_deterministic() {
    let t = b"empty commit message / nothing to commit, working tree clean";
    let first = classify(t);
    for _ in 0..10 {
        assert_eq!(classify(t), first);
    }
}

#[test]
fn stage_classifier_recognizes_missing_files() {
    let t = b"fatal: pathspec 'nope.txt' did not match any files";
    assert_eq!(classify_stage(t), ErrorCategory::NoMatchingFiles);
    assert_eq!(classify_stage(b"fatal: other"), ErrorCategory::Generic);
}

#[test]
fn rule_list_is_evaluated_in_order() {
    let rules = commit_rules();
    let t = b"fatal: unable to auto-detect email address; nothing to commit, working tree clean";
    assert_eq!(classify_with(&rules, t), ErrorCategory::EmailNotConfigured);
}

#[test]
fn each_category_has_its_fixed_message() {
    assert_eq!(
        commit_error_message(ErrorCategory::EmailNotConfigured),
        "could not detect email address. use git config --global user.email \"you@email.com\""
    );
    assert_eq!(
        commit_error_message(ErrorCategory::NothingToCommit),
        "    nothing to commit :3 meow"
    );
    assert_eq!(
        commit_error_message(ErrorCategory::EmptyMessage),
        "    provide a valid commit message"
    );
    assert_eq!(
        commit_error_message(ErrorCategory::Generic),
        "    could not commit files. are there any changes to commit?"
    );
}
