//! Condensing push output: the tool may report on either stream, so stdout
//! and stderr are concatenated and scanned line by line. An up-to-date line
//! short-circuits the summary; otherwise the last remote-target, ref-update
//! and upstream-tracking lines are kept, and a summary with none of them is
//! unparsed and falls back to raw passthrough.

use vstd::prelude::*;
use vstd::string::StringSliceAdditionalSpecFns;

use crate::scan::contains_seq;
use crate::scan::contains_sub;
use crate::scan::eq_bytes;
use crate::scan::lines_spec;
use crate::scan::lit_bytes;
use crate::scan::split_lines;
use crate::scan::starts_with_bytes;
use crate::scan::starts_with_spec;
use crate::scan::trim_bytes;
use crate::scan::trim_spec;

verus! {

/// The condensed summary of push output. The three line fields hold trimmed
/// lines; when `up_to_date` is set nothing else is populated.
pub struct PushSummary {
    pub up_to_date: bool,
    pub remote: Option<Vec<u8>>,
    pub ref_update: Option<Vec<u8>>,
    pub upstream: Option<Vec<u8>>,
}

/// The mathematical image of a `PushSummary`.
pub struct PushSummaryView {
    pub up_to_date: bool,
    pub remote: Option<Seq<u8>>,
    pub ref_update: Option<Seq<u8>>,
    pub upstream: Option<Seq<u8>>,
}

impl View for PushSummary {
    type V = PushSummaryView;

    open spec fn view(&self) -> PushSummaryView {
        PushSummaryView {
            up_to_date: self.up_to_date,
            remote: match self.remote {
                Some(v) => Some(v@),
                None => None,
            },
            ref_update: match self.ref_update {
                Some(v) => Some(v@),
                None => None,
            },
            upstream: match self.upstream {
                Some(v) => Some(v@),
                None => None,
            },
        }
    }
}

/// A remote-target line: its trimmed form starts with `To `.
pub open spec fn is_remote_line(l: Seq<u8>) -> bool {
    starts_with_spec(trim_spec(l), ("To ").spec_bytes())
}

/// A ref-update line: not a remote-target line, and it mentions an arrow.
pub open spec fn is_ref_line(l: Seq<u8>) -> bool {
    &&& !is_remote_line(l)
    &&& contains_seq(trim_spec(l), ("->").spec_bytes())
}

/// An upstream-tracking line: neither of the above, and its trimmed form
/// starts with `Branch `.
pub open spec fn is_upstream_line(l: Seq<u8>) -> bool {
    &&& !is_remote_line(l)
    &&& !is_ref_line(l)
    &&& starts_with_spec(trim_spec(l), ("Branch ").spec_bytes())
}

/// An up-to-date line: none of the above, and its trimmed form is exactly the
/// up-to-date phrase.
pub open spec fn is_up_to_date_line(l: Seq<u8>) -> bool {
    &&& !is_remote_line(l)
    &&& !is_ref_line(l)
    &&& !is_upstream_line(l)
    &&& trim_spec(l) == ("Everything up-to-date").spec_bytes()
}

/// The last element of `ls` satisfying `p`, trimmed, if any.
pub open spec fn last_trimmed(ls: Seq<Seq<u8>>, p: spec_fn(Seq<u8>) -> bool) -> Option<Seq<u8>>
    decreases ls.len(),
{
    if ls.len() == 0 {
        None
    } else if p(ls.last()) {
        Some(trim_spec(ls.last()))
    } else {
        last_trimmed(ls.drop_last(), p)
    }
}

/// Some element of `ls` satisfies `p`.
pub open spec fn any_where(ls: Seq<Seq<u8>>, p: spec_fn(Seq<u8>) -> bool) -> bool
    decreases ls.len(),
{
    if ls.len() == 0 {
        false
    } else {
        any_where(ls.drop_last(), p) || p(ls.last())
    }
}

/// What condensing push output yields, over the lines of stdout followed by
/// stderr. An up-to-date line wins outright and leaves the rest of the text
/// out of the summary; otherwise the last line of each kind, trimmed, fills
/// its field.
pub open spec fn summarize_push_spec(stdout: Seq<u8>, stderr: Seq<u8>) -> PushSummaryView {
    let ls = lines_spec(stdout + stderr);
    if any_where(ls, |l: Seq<u8>| is_up_to_date_line(l)) {
        PushSummaryView { up_to_date: true, remote: None, ref_update: None, upstream: None }
    } else {
        PushSummaryView {
            up_to_date: false,
            remote: last_trimmed(ls, |l: Seq<u8>| is_remote_line(l)),
            ref_update: last_trimmed(ls, |l: Seq<u8>| is_ref_line(l)),
            upstream: last_trimmed(ls, |l: Seq<u8>| is_upstream_line(l)),
        }
    }
}

/// A push summary that found something to report: either the up-to-date
/// outcome or at least one recognized line. A summary that is not parsed
/// falls back to raw passthrough display.
pub open spec fn push_parsed(v: PushSummaryView) -> bool {
    ||| v.up_to_date
    ||| v.remote is Some
    ||| v.ref_update is Some
    ||| v.upstream is Some
}

/// An up-to-date line in the combined output always yields the short-circuit
/// summary: the up-to-date flag alone, with no other field populated.
pub proof fn lemma_up_to_date_short_circuits(stdout: Seq<u8>, stderr: Seq<u8>)
    requires
        any_where(lines_spec(stdout + stderr), |l: Seq<u8>| is_up_to_date_line(l)),
    ensures
        summarize_push_spec(stdout, stderr) == (PushSummaryView {
            up_to_date: true,
            remote: None,
            ref_update: None,
            upstream: None,
        }),
{
}

/// Condenses push output, as `summarize_push_spec` describes. Total on every
/// input: unrecognized text yields the unparsed summary, never an error.
pub fn summarize_push(stdout: &[u8], stderr: &[u8]) -> (r: PushSummary)
    ensures
        r@ == summarize_push_spec(stdout@, stderr@),
{
    let mut combined: Vec<u8> = Vec::new();
    combined.extend_from_slice(stdout);
    combined.extend_from_slice(stderr);
    proof {
        assert(combined@ =~= stdout@ + stderr@);
    }
    let ls = split_lines(combined.as_slice());
    let ghost lsv = lines_spec(stdout@ + stderr@);
    proof {
        assert(ls.deep_view() == lsv);
    }

    let to_pat = lit_bytes("To ");
    let arrow_pat = lit_bytes("->");
    let branch_pat = lit_bytes("Branch ");
    let utd_pat = lit_bytes("Everything up-to-date");

    let ghost rp = |l: Seq<u8>| is_remote_line(l);
    let ghost fp = |l: Seq<u8>| is_ref_line(l);
    let ghost up = |l: Seq<u8>| is_upstream_line(l);
    let ghost dp = |l: Seq<u8>| is_up_to_date_line(l);

    let mut remote: Option<Vec<u8>> = None;
    let mut ref_update: Option<Vec<u8>> = None;
    let mut upstream: Option<Vec<u8>> = None;
    let mut up_to_date = false;

    let mut j: usize = 0;
    proof {
        assert(lsv.take(0) =~= Seq::<Seq<u8>>::empty());
    }
    while j < ls.len()
        invariant
            ls.deep_view() == lsv,
            ls@.len() == lsv.len(),
            0 <= j <= lsv.len(),
            to_pat@ == ("To ").spec_bytes(),
            arrow_pat@ == ("->").spec_bytes(),
            branch_pat@ == ("Branch ").spec_bytes(),
            utd_pat@ == ("Everything up-to-date").spec_bytes(),
            rp == (|l: Seq<u8>| is_remote_line(l)),
            fp == (|l: Seq<u8>| is_ref_line(l)),
            up == (|l: Seq<u8>| is_upstream_line(l)),
            dp == (|l: Seq<u8>| is_up_to_date_line(l)),
            last_trimmed(lsv.take(j as int), rp) == (match remote {
                Some(v) => Some(v@),
                None => None::<Seq<u8>>,
            }),
            last_trimmed(lsv.take(j as int), fp) == (match ref_update {
                Some(v) => Some(v@),
                None => None::<Seq<u8>>,
            }),
            last_trimmed(lsv.take(j as int), up) == (match upstream {
                Some(v) => Some(v@),
                None => None::<Seq<u8>>,
            }),
            any_where(lsv.take(j as int), dp) == up_to_date,
        decreases lsv.len() - j,
    {
        proof {
            assert(ls@[j as int].deep_view() =~= ls@[j as int]@);
            assert(lsv.take(j + 1).drop_last() =~= lsv.take(j as int));
            assert(lsv.take(j + 1).last() == lsv[j as int]);
        }
        let ghost cur = lsv[j as int];
        let trimmed = trim_bytes(ls[j].as_slice());
        proof {
            assert(trimmed@ == trim_spec(cur));
        }
        let is_to = starts_with_bytes(trimmed.as_slice(), to_pat.as_slice());
        let is_arrow = contains_sub(trimmed.as_slice(), arrow_pat.as_slice());
        let is_branch = starts_with_bytes(trimmed.as_slice(), branch_pat.as_slice());
        let is_utd = eq_bytes(trimmed.as_slice(), utd_pat.as_slice());
        proof {
            assert(is_to == is_remote_line(cur));
            assert((!is_to && is_arrow) == is_ref_line(cur));
            assert((!is_to && !is_arrow && is_branch) == is_upstream_line(cur));
            assert((!is_to && !is_arrow && !is_branch && is_utd) == is_up_to_date_line(cur));
            assert(rp(cur) == is_remote_line(cur));
            assert(fp(cur) == is_ref_line(cur));
            assert(up(cur) == is_upstream_line(cur));
            assert(dp(cur) == is_up_to_date_line(cur));
        }
        if is_to {
            remote = Some(trimmed);
        } else if is_arrow {
            ref_update = Some(trimmed);
        } else if is_branch {
            upstream = Some(trimmed);
        } else if is_utd {
            up_to_date = true;
        }
        j += 1;
    }
    proof {
        assert(lsv.take(j as int) =~= lsv);
    }
    if up_to_date {
        PushSummary { up_to_date: true, remote: None, ref_update: None, upstream: None }
    } else {
        PushSummary { up_to_date: false, remote, ref_update, upstream }
    }
}

} // verus!
