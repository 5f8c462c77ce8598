//! Error translation: maps raw subprocess error text onto a small set of
//! user-facing categories by substring inspection. The rules are a prioritized
//! list of (pattern, category) pairs evaluated in order, first match wins;
//! they test for the exact phrases the version-control tool emits, so they are
//! deliberately shallow and sensitive to that tool's wording.

use vstd::prelude::*;
use vstd::string::StringSliceAdditionalSpecFns;

use crate::scan::contains_seq;
use crate::scan::contains_sub;
use crate::scan::lit_bytes;

verus! {

/// The user-facing categories an error text can fall under.
#[derive(Clone, Copy, Debug, PartialEq, Eq, Structural)]
pub enum ErrorCategory {
    NoMatchingFiles,
    EmailNotConfigured,
    NothingToCommit,
    EmptyMessage,
    PushRejected,
    Generic,
}

/// One translation rule: when `pattern` occurs in the error text, the text
/// falls under `category`.
pub struct Rule {
    pub pattern: Vec<u8>,
    pub category: ErrorCategory,
}

/// The mathematical image of a `Rule`.
pub struct RuleView {
    pub pattern: Seq<u8>,
    pub category: ErrorCategory,
}

impl View for Rule {
    type V = RuleView;

    open spec fn view(&self) -> RuleView {
        RuleView { pattern: self.pattern@, category: self.category }
    }
}

/// The category of the first rule whose pattern occurs in `t`, or `Generic`
/// when no rule matches.
pub open spec fn first_rule_match(rules: Seq<RuleView>, t: Seq<u8>) -> ErrorCategory
    decreases rules.len(),
{
    if rules.len() == 0 {
        ErrorCategory::Generic
    } else if contains_seq(t, rules[0].pattern) {
        rules[0].category
    } else {
        first_rule_match(rules.drop_first(), t)
    }
}

/// The views of a rule list.
pub open spec fn rule_views(rules: Seq<Rule>) -> Seq<RuleView> {
    rules.map_values(|r: Rule| r@)
}

/// Evaluates a prioritized rule list against an error text: the first rule
/// whose pattern occurs in `t` decides, and `Generic` is the fallback.
pub fn classify_with(rules: &Vec<Rule>, t: &[u8]) -> (r: ErrorCategory)
    ensures
        r == first_rule_match(rule_views(rules@), t@),
{
    let ghost all = rule_views(rules@);
    let mut i: usize = 0;
    proof {
        assert(all.skip(0) =~= all);
    }
    while i < rules.len()
        invariant
            all == rule_views(rules@),
            all.len() == rules@.len(),
            0 <= i <= rules@.len(),
            first_rule_match(all, t@) == first_rule_match(all.skip(i as int), t@),
        decreases rules@.len() - i,
    {
        let hit = contains_sub(t, rules[i].pattern.as_slice());
        proof {
            assert(all.skip(i as int)[0] == rules@[i as int]@);
        }
        if hit {
            return rules[i].category;
        }
        proof {
            assert(all.skip(i as int).drop_first() =~= all.skip(i + 1));
        }
        i += 1;
    }
    proof {
        assert(all.skip(i as int).len() == 0);
    }
    ErrorCategory::Generic
}

/// The phrase announcing that no email address could be detected.
pub open spec fn email_pattern() -> Seq<u8> {
    ("fatal: unable to auto-detect email address").spec_bytes()
}

/// One of the two phrases announcing that there is nothing to commit.
pub open spec fn no_changes_pattern() -> Seq<u8> {
    ("No changes to commit").spec_bytes()
}

/// The other phrase announcing that there is nothing to commit.
pub open spec fn clean_tree_pattern() -> Seq<u8> {
    ("nothing to commit, working tree clean").spec_bytes()
}

/// The phrase announcing an empty commit message.
pub open spec fn empty_message_pattern() -> Seq<u8> {
    ("empty commit message").spec_bytes()
}

/// The phrase announcing that a path matched no files.
pub open spec fn no_match_pattern() -> Seq<u8> {
    ("did not match any files").spec_bytes()
}

/// Where commit error text falls, by the fixed rule priority: email detection
/// first, then the two nothing-to-commit phrases, then the empty message, and
/// `Generic` when none of the phrases occurs.
pub open spec fn classify_commit_spec(t: Seq<u8>) -> ErrorCategory {
    if contains_seq(t, email_pattern()) {
        ErrorCategory::EmailNotConfigured
    } else if contains_seq(t, no_changes_pattern()) || contains_seq(t, clean_tree_pattern()) {
        ErrorCategory::NothingToCommit
    } else if contains_seq(t, empty_message_pattern()) {
        ErrorCategory::EmptyMessage
    } else {
        ErrorCategory::Generic
    }
}

/// Where staging error text falls: only the no-matching-files phrase is
/// recognized.
pub open spec fn classify_stage_spec(t: Seq<u8>) -> ErrorCategory {
    if contains_seq(t, no_match_pattern()) {
        ErrorCategory::NoMatchingFiles
    } else {
        ErrorCategory::Generic
    }
}

/// The rule list for the commit path, in priority order.
pub fn commit_rules() -> (r: Vec<Rule>)
    ensures
        rule_views(r@) == seq![
            RuleView { pattern: email_pattern(), category: ErrorCategory::EmailNotConfigured },
            RuleView { pattern: no_changes_pattern(), category: ErrorCategory::NothingToCommit },
            RuleView { pattern: clean_tree_pattern(), category: ErrorCategory::NothingToCommit },
            RuleView { pattern: empty_message_pattern(), category: ErrorCategory::EmptyMessage },
        ],
{
    let mut r: Vec<Rule> = Vec::new();
    r.push(
        Rule {
            pattern: lit_bytes("fatal: unable to auto-detect email address"),
            category: ErrorCategory::EmailNotConfigured,
        },
    );
    r.push(
        Rule {
            pattern: lit_bytes("No changes to commit"),
            category: ErrorCategory::NothingToCommit,
        },
    );
    r.push(
        Rule {
            pattern: lit_bytes("nothing to commit, working tree clean"),
            category: ErrorCategory::NothingToCommit,
        },
    );
    r.push(
        Rule {
            pattern: lit_bytes("empty commit message"),
            category: ErrorCategory::EmptyMessage,
        },
    );
    proof {
        assert(rule_views(r@) =~= seq![
            RuleView { pattern: email_pattern(), category: ErrorCategory::EmailNotConfigured },
            RuleView { pattern: no_changes_pattern(), category: ErrorCategory::NothingToCommit },
            RuleView { pattern: clean_tree_pattern(), category: ErrorCategory::NothingToCommit },
            RuleView { pattern: empty_message_pattern(), category: ErrorCategory::EmptyMessage },
        ]);
    }
    r
}

/// The rule list for the staging path.
pub fn stage_rules() -> (r: Vec<Rule>)
    ensures
        rule_views(r@) == seq![
            RuleView { pattern: no_match_pattern(), category: ErrorCategory::NoMatchingFiles },
        ],
{
    let mut r: Vec<Rule> = Vec::new();
    r.push(
        Rule {
            pattern: lit_bytes("did not match any files"),
            category: ErrorCategory::NoMatchingFiles,
        },
    );
    proof {
        assert(rule_views(r@) =~= seq![
            RuleView { pattern: no_match_pattern(), category: ErrorCategory::NoMatchingFiles },
        ]);
    }
    r
}

/// Translates commit error text into its category, as `classify_commit_spec`
/// describes: the fixed priority order decides, first matching rule wins.
pub fn classify(t: &[u8]) -> (r: ErrorCategory)
    ensures
        r == classify_commit_spec(t@),
{
    let rules = commit_rules();
    let c = classify_with(&rules, t);
    proof {
        lemma_commit_rules_order(t@);
    }
    c
}

/// Translates staging error text into its category, as `classify_stage_spec`
/// describes.
pub fn classify_stage(t: &[u8]) -> (r: ErrorCategory)
    ensures
        r == classify_stage_spec(t@),
{
    let rules = stage_rules();
    let c = classify_with(&rules, t);
    proof {
        let rs = rule_views(rules@);
        assert(rs.drop_first() =~= Seq::<RuleView>::empty());
        if contains_seq(t@, no_match_pattern()) {
            assert(first_rule_match(rs, t@) == ErrorCategory::NoMatchingFiles);
        } else {
            assert(first_rule_match(rs, t@) == first_rule_match(rs.drop_first(), t@));
            assert(first_rule_match(rs.drop_first(), t@) == ErrorCategory::Generic);
        }
    }
    c
}

/// Evaluating the commit rule list in order is the same as the fixed nested
/// priority test.
proof fn lemma_commit_rules_order(t: Seq<u8>)
    ensures
        first_rule_match(
            seq![
                RuleView { pattern: email_pattern(), category: ErrorCategory::EmailNotConfigured },
                RuleView {
                    pattern: no_changes_pattern(),
                    category: ErrorCategory::NothingToCommit,
                },
                RuleView { pattern: clean_tree_pattern(), category: ErrorCategory::NothingToCommit },
                RuleView { pattern: empty_message_pattern(), category: ErrorCategory::EmptyMessage },
            ],
            t,
        ) == classify_commit_spec(t),
{
    let r0 = seq![
        RuleView { pattern: email_pattern(), category: ErrorCategory::EmailNotConfigured },
        RuleView { pattern: no_changes_pattern(), category: ErrorCategory::NothingToCommit },
        RuleView { pattern: clean_tree_pattern(), category: ErrorCategory::NothingToCommit },
        RuleView { pattern: empty_message_pattern(), category: ErrorCategory::EmptyMessage },
    ];
    let r1 = r0.drop_first();
    let r2 = r1.drop_first();
    let r3 = r2.drop_first();
    let r4 = r3.drop_first();
    assert(r1 =~= seq![
        RuleView { pattern: no_changes_pattern(), category: ErrorCategory::NothingToCommit },
        RuleView { pattern: clean_tree_pattern(), category: ErrorCategory::NothingToCommit },
        RuleView { pattern: empty_message_pattern(), category: ErrorCategory::EmptyMessage },
    ]);
    assert(r2 =~= seq![
        RuleView { pattern: clean_tree_pattern(), category: ErrorCategory::NothingToCommit },
        RuleView { pattern: empty_message_pattern(), category: ErrorCategory::EmptyMessage },
    ]);
    assert(r3 =~= seq![
        RuleView { pattern: empty_message_pattern(), category: ErrorCategory::EmptyMessage },
    ]);
    assert(r4 =~= Seq::<RuleView>::empty());
    if contains_seq(t, email_pattern()) {
        assert(first_rule_match(r0, t) == ErrorCategory::EmailNotConfigured);
    } else {
        assert(first_rule_match(r0, t) == first_rule_match(r1, t));
        if contains_seq(t, no_changes_pattern()) {
            assert(first_rule_match(r1, t) == ErrorCategory::NothingToCommit);
        } else {
            assert(first_rule_match(r1, t) == first_rule_match(r2, t));
            if contains_seq(t, clean_tree_pattern()) {
                assert(first_rule_match(r2, t) == ErrorCategory::NothingToCommit);
            } else {
                assert(first_rule_match(r2, t) == first_rule_match(r3, t));
                if contains_seq(t, empty_message_pattern()) {
                    assert(first_rule_match(r3, t) == ErrorCategory::EmptyMessage);
                } else {
                    assert(first_rule_match(r3, t) == first_rule_match(r4, t));
                    assert(first_rule_match(r4, t) == ErrorCategory::Generic);
                }
            }
        }
    }
}

/// The rules are priority-ordered: when the error text holds both the
/// empty-message phrase and the clean-tree phrase, and the only rule ahead of
/// them (email detection) does not match, the earlier rule in the list wins
/// and the text falls under `NothingToCommit`.
pub proof fn lemma_classify_priority(t: Seq<u8>)
    requires
        contains_seq(t, empty_message_pattern()),
        contains_seq(t, clean_tree_pattern()),
        !contains_seq(t, email_pattern()),
    ensures
        classify_commit_spec(t) == ErrorCategory::NothingToCommit,
{
}

} // verus!
