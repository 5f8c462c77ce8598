//! Condensing commit output: extracts branch and revision from the header
//! line, the file/insertion/deletion counts from the stats line, and the mode
//! line, degrading to an unparsed summary — never an error — when the text
//! does not match the expected shape.

use vstd::prelude::*;
use vstd::string::StringSliceAdditionalSpecFns;

use crate::scan::contains_seq;
use crate::scan::contains_sub;
use crate::scan::copy_range;
use crate::scan::lines_spec;
use crate::scan::lit_bytes;
use crate::scan::parsecount;
use crate::scan::parsecount_spec;
use crate::scan::split_cs;
use crate::scan::split_comma_space;
use crate::scan::split_lines;
use crate::scan::strip_ends;
use crate::scan::strip_lead;
use crate::scan::strip_trail;
use crate::scan::tokens;
use crate::scan::trim_bytes;
use crate::scan::trim_spec;
use crate::scan::ws_tokens;

verus! {

/// The condensed summary of commit output. When `parsed` is false the text
/// held no recognizable stats line (or its counts would not parse) and every
/// other field is at its default; display then falls back to raw passthrough.
pub struct ChangeSummary {
    pub parsed: bool,
    pub branch: Option<Vec<u8>>,
    pub hash: Option<Vec<u8>>,
    pub files_changed: u32,
    pub insertions: u32,
    pub deletions: u32,
    pub mode_line: Option<Vec<u8>>,
}

/// The mathematical image of a `ChangeSummary`.
pub struct ChangeSummaryView {
    pub parsed: bool,
    pub branch: Option<Seq<u8>>,
    pub hash: Option<Seq<u8>>,
    pub files_changed: u32,
    pub insertions: u32,
    pub deletions: u32,
    pub mode_line: Option<Seq<u8>>,
}

impl View for ChangeSummary {
    type V = ChangeSummaryView;

    open spec fn view(&self) -> ChangeSummaryView {
        ChangeSummaryView {
            parsed: self.parsed,
            branch: match self.branch {
                Some(b) => Some(b@),
                None => None,
            },
            hash: match self.hash {
                Some(h) => Some(h@),
                None => None,
            },
            files_changed: self.files_changed,
            insertions: self.insertions,
            deletions: self.deletions,
            mode_line: match self.mode_line {
                Some(m) => Some(m@),
                None => None,
            },
        }
    }
}

/// The last element of `ls` satisfying `p`, if any.
pub open spec fn last_where(ls: Seq<Seq<u8>>, p: spec_fn(Seq<u8>) -> bool) -> Option<Seq<u8>>
    decreases ls.len(),
{
    if ls.len() == 0 {
        None
    } else if p(ls.last()) {
        Some(ls.last())
    } else {
        last_where(ls.drop_last(), p)
    }
}

/// The first element of `ls` satisfying `p`, if any.
pub open spec fn first_where(ls: Seq<Seq<u8>>, p: spec_fn(Seq<u8>) -> bool) -> Option<Seq<u8>>
    decreases ls.len(),
{
    if ls.len() == 0 {
        None
    } else if p(ls[0]) {
        Some(ls[0])
    } else {
        first_where(ls.drop_first(), p)
    }
}

/// A line reporting counts: it mentions changed files, insertions or
/// deletions.
pub open spec fn is_stats_line(l: Seq<u8>) -> bool {
    ||| contains_seq(l, ("files changed").spec_bytes())
    ||| contains_seq(l, ("file changed").spec_bytes())
    ||| contains_seq(l, ("insertion").spec_bytes())
    ||| contains_seq(l, ("deletion").spec_bytes())
}

/// A line reporting a file mode change. A line that already counts as a stats
/// line is never a mode line: the stats test comes first.
pub open spec fn is_mode_line(l: Seq<u8>) -> bool {
    &&& !is_stats_line(l)
    &&& (contains_seq(l, ("create mode").spec_bytes()) || contains_seq(
        l,
        ("delete mode").spec_bytes(),
    ))
}

/// The predicate of `is_stats_line` as a value.
pub open spec fn stats_pred() -> spec_fn(Seq<u8>) -> bool {
    |l: Seq<u8>| is_stats_line(l)
}

/// The predicate of `is_mode_line` as a value.
pub open spec fn mode_pred() -> spec_fn(Seq<u8>) -> bool {
    |l: Seq<u8>| is_mode_line(l)
}

/// A token with every leading `[` and every trailing `]` removed.
pub open spec fn strip_brackets(t: Seq<u8>) -> Seq<u8> {
    strip_trail(strip_lead(t, 91), 93)
}

/// Branch and revision from the header line: the first line's first two
/// whitespace-delimited tokens, brackets trimmed, or nothing when the line
/// has fewer than two tokens.
pub open spec fn header_fields(ls: Seq<Seq<u8>>) -> (Option<Seq<u8>>, Option<Seq<u8>>) {
    if ls.len() == 0 {
        (None, None)
    } else {
        let toks = tokens(ls[0]);
        if toks.len() >= 2 {
            (Some(strip_brackets(toks[0])), Some(strip_brackets(toks[1])))
        } else {
            (None, None)
        }
    }
}

/// The lines after the header line.
pub open spec fn body_lines(out: Seq<u8>) -> Seq<Seq<u8>> {
    let ls = lines_spec(out);
    if ls.len() == 0 {
        Seq::<Seq<u8>>::empty()
    } else {
        ls.skip(1)
    }
}

/// The count carried by the segment for `pat`: zero when no segment mentions
/// `pat` (the tool omits a zero-valued clause), the parse of the first such
/// segment otherwise — where a failed parse means the whole summary degrades.
pub open spec fn seg_count(segs: Seq<Seq<u8>>, pat: Seq<u8>) -> Option<u32> {
    match first_where(segs, |s: Seq<u8>| contains_seq(s, pat)) {
        None => Some(0u32),
        Some(seg) => parsecount_spec(seg),
    }
}

/// The files-changed count: the leading count of the first segment, zero when
/// it does not parse.
pub open spec fn files_count(segs: Seq<Seq<u8>>) -> u32 {
    if segs.len() == 0 {
        0u32
    } else {
        match parsecount_spec(segs[0]) {
            Some(n) => n,
            None => 0u32,
        }
    }
}

/// The summary whose text held no usable stats line.
pub open spec fn unparsed_summary() -> ChangeSummaryView {
    ChangeSummaryView {
        parsed: false,
        branch: None,
        hash: None,
        files_changed: 0u32,
        insertions: 0u32,
        deletions: 0u32,
        mode_line: None,
    }
}

/// What condensing commit output yields. The last stats line among the body
/// lines carries the counts, split on comma-space into segments: the first
/// segment leads with the files-changed count, and the first segments
/// mentioning insertions and deletions carry those counts, each defaulting to
/// zero when absent. No stats line, or an insertion or deletion count that
/// does not parse, degrades the whole summary to unparsed.
pub open spec fn summarize_commit_spec(out: Seq<u8>) -> ChangeSummaryView {
    let ls = lines_spec(out);
    let rest = body_lines(out);
    match last_where(rest, stats_pred()) {
        None => unparsed_summary(),
        Some(sl) => {
            let segs = split_cs(sl);
            let ins = seg_count(segs, ("insertion").spec_bytes());
            let del = seg_count(segs, ("deletion").spec_bytes());
            if ins is None || del is None {
                unparsed_summary()
            } else {
                ChangeSummaryView {
                    parsed: true,
                    branch: header_fields(ls).0,
                    hash: header_fields(ls).1,
                    files_changed: files_count(segs),
                    insertions: ins->Some_0,
                    deletions: del->Some_0,
                    mode_line: last_where(rest, mode_pred()),
                }
            }
        },
    }
}

/// Output without a recognizable stats line always degrades to the unparsed
/// default — condensing never raises an error, and display falls back to the
/// raw passthrough of `passthrough_spec`.
pub proof fn lemma_no_stats_line_degrades(out: Seq<u8>)
    requires
        last_where(body_lines(out), stats_pred()) is None,
    ensures
        summarize_commit_spec(out) == unparsed_summary(),
{
}

/// Whenever the stats line carries an insertion count `n` and a deletion
/// count `m`, the summary reports exactly `n` and `m` — whichever order the
/// two segments stand in, since each count comes from the first segment that
/// mentions its own keyword.
pub proof fn lemma_counts_exact(out: Seq<u8>, sl: Seq<u8>, n: u32, m: u32)
    requires
        last_where(body_lines(out), stats_pred()) == Some(sl),
        seg_count(split_cs(sl), ("insertion").spec_bytes()) == Some(n),
        seg_count(split_cs(sl), ("deletion").spec_bytes()) == Some(m),
    ensures
        summarize_commit_spec(out).parsed,
        summarize_commit_spec(out).insertions == n,
        summarize_commit_spec(out).deletions == m,
{
}

proof fn lemma_first_where_unique(ls: Seq<Seq<u8>>, p: spec_fn(Seq<u8>) -> bool, i: int)
    requires
        0 <= i < ls.len(),
        p(ls[i]),
        forall|j: int| 0 <= j < i ==> !p(#[trigger] ls[j]),
    ensures
        first_where(ls, p) == Some(ls[i]),
    decreases i,
{
    if i > 0 {
        assert(!p(ls[0]));
        let rest = ls.drop_first();
        assert(forall|j: int| 0 <= j < i - 1 ==> !p(#[trigger] rest[j]));
        lemma_first_where_unique(rest, p, i - 1);
        assert(rest[i - 1] == ls[i]);
    }
}

/// Where the one segment mentioning the keyword stands among the others is
/// immaterial: the count the summary reports is the parse of that segment,
/// whether it comes before or after its sibling clauses.
pub proof fn lemma_count_position_immaterial(segs: Seq<Seq<u8>>, i: int, pat: Seq<u8>)
    requires
        0 <= i < segs.len(),
        contains_seq(segs[i], pat),
        forall|j: int| 0 <= j < segs.len() && j != i ==> !contains_seq(#[trigger] segs[j], pat),
    ensures
        seg_count(segs, pat) == parsecount_spec(segs[i]),
{
    let p = |s: Seq<u8>| contains_seq(s, pat);
    assert(forall|j: int| 0 <= j < i ==> !p(#[trigger] segs[j]));
    lemma_first_where_unique(segs, p, i);
}

/// The raw fallback: every line of the output when its trimmed text is
/// nonempty, nothing when the output is blank.
pub open spec fn passthrough_spec(out: Seq<u8>) -> Seq<Seq<u8>> {
    if trim_spec(out).len() == 0 {
        Seq::<Seq<u8>>::empty()
    } else {
        lines_spec(out)
    }
}

/// The verbatim passthrough of output that could not be condensed, as
/// `passthrough_spec` describes.
pub fn passthrough_lines(out: &[u8]) -> (r: Vec<Vec<u8>>)
    ensures
        r.deep_view() == passthrough_spec(out@),
{
    let t = trim_bytes(out);
    if t.len() == 0 {
        let r: Vec<Vec<u8>> = Vec::new();
        proof {
            assert(r.deep_view() =~~= Seq::<Seq<u8>>::empty());
        }
        r
    } else {
        split_lines(out)
    }
}

/// The tokens of `ts` joined with single spaces.
pub open spec fn join_sp(ts: Seq<Seq<u8>>) -> Seq<u8>
    decreases ts.len(),
{
    if ts.len() == 0 {
        Seq::<u8>::empty()
    } else if ts.len() == 1 {
        ts[0]
    } else {
        join_sp(ts.drop_last()) + seq![32u8] + ts.last()
    }
}

/// The three display parts of a mode line: its first token, its second token,
/// and the remaining tokens joined by single spaces — present exactly when the
/// line has at least three tokens.
pub open spec fn mode_parts_spec(l: Seq<u8>) -> Option<(Seq<u8>, Seq<u8>, Seq<u8>)> {
    let t = tokens(l);
    if t.len() >= 3 {
        Some((t[0], t[1], join_sp(t.skip(2))))
    } else {
        None
    }
}

/// Splits a mode line into its three display parts, as `mode_parts_spec`
/// describes.
pub fn split_mode_line(l: &[u8]) -> (r: Option<(Vec<u8>, Vec<u8>, Vec<u8>)>)
    ensures
        (r is Some) == (mode_parts_spec(l@) is Some),
        r matches Some(p) ==> {
            let q = mode_parts_spec(l@)->Some_0;
            p.0@ == q.0 && p.1@ == q.1 && p.2@ == q.2
        },
{
    let toks = ws_tokens(l);
    let ghost tv = tokens(l@);
    if toks.len() < 3 {
        return None;
    }
    proof {
        assert(toks@[0].deep_view() =~= toks@[0]@);
        assert(toks@[1].deep_view() =~= toks@[1]@);
    }
    let first = copy_range(toks[0].as_slice(), 0, toks[0].len());
    let second = copy_range(toks[1].as_slice(), 0, toks[1].len());
    proof {
        assert(first@ =~= tv[0]);
        assert(second@ =~= tv[1]);
    }
    let ghost restv = tv.skip(2);
    let mut joined: Vec<u8> = Vec::new();
    let mut k: usize = 2;
    proof {
        assert(restv.take(0) =~= Seq::<Seq<u8>>::empty());
    }
    while k < toks.len()
        invariant
            toks.deep_view() == tv,
            toks@.len() == tv.len(),
            restv == tv.skip(2),
            3 <= tv.len(),
            2 <= k <= tv.len(),
            joined@ == join_sp(restv.take(k - 2)),
        decreases tv.len() - k,
    {
        proof {
            assert(toks@[k as int].deep_view() =~= toks@[k as int]@);
            assert(restv.take(k - 1).drop_last() =~= restv.take(k - 2));
            assert(restv.take(k - 1).last() == tv[k as int]);
        }
        if k > 2 {
            joined.push(32);
        }
        joined.extend_from_slice(toks[k].as_slice());
        proof {
            if k > 2 {
                assert(joined@ =~= join_sp(restv.take(k - 2)) + seq![32u8] + tv[k as int]);
            } else {
                assert(joined@ =~= tv[2]);
                assert(restv.take(1)[0] == restv[0]);
            }
        }
        k += 1;
    }
    proof {
        assert(restv.take(tv.len() - 2) =~= restv);
    }
    Some((first, second, joined))
}

/// Executable form of `is_stats_line`.
fn stats_line_test(l: &[u8]) -> (r: bool)
    ensures
        r == is_stats_line(l@),
{
    let p1 = lit_bytes("files changed");
    let p2 = lit_bytes("file changed");
    let p3 = lit_bytes("insertion");
    let p4 = lit_bytes("deletion");
    contains_sub(l, p1.as_slice()) || contains_sub(l, p2.as_slice()) || contains_sub(
        l,
        p3.as_slice(),
    ) || contains_sub(l, p4.as_slice())
}

/// Executable form of the mode-change test alone, without the stats-line
/// exclusion.
fn mode_phrase_test(l: &[u8]) -> (r: bool)
    ensures
        r == (contains_seq(l@, ("create mode").spec_bytes()) || contains_seq(
            l@,
            ("delete mode").spec_bytes(),
        )),
{
    let p1 = lit_bytes("create mode");
    let p2 = lit_bytes("delete mode");
    contains_sub(l, p1.as_slice()) || contains_sub(l, p2.as_slice())
}

/// The first segment of `segs` in which `pat` occurs, by index.
fn find_first_containing(segs: &Vec<Vec<u8>>, pat: &[u8]) -> (r: Option<usize>)
    ensures
        match r {
            Some(i) => i < segs@.len() && first_where(
                segs.deep_view(),
                |s: Seq<u8>| contains_seq(s, pat@),
            ) == Some(segs.deep_view()[i as int]),
            None => first_where(segs.deep_view(), |s: Seq<u8>| contains_seq(s, pat@)) is None,
        },
{
    let ghost dv = segs.deep_view();
    let ghost p = |s: Seq<u8>| contains_seq(s, pat@);
    let mut i: usize = 0;
    proof {
        assert(dv.skip(0) =~= dv);
    }
    while i < segs.len()
        invariant
            dv == segs.deep_view(),
            dv.len() == segs@.len(),
            p == (|s: Seq<u8>| contains_seq(s, pat@)),
            0 <= i <= segs@.len(),
            first_where(dv, p) == first_where(dv.skip(i as int), p),
        decreases segs@.len() - i,
    {
        let hit = contains_sub(segs[i].as_slice(), pat);
        proof {
            assert(segs@[i as int].deep_view() =~= segs@[i as int]@);
            assert(dv.skip(i as int)[0] == dv[i as int]);
        }
        if hit {
            proof {
                assert(first_where(dv.skip(i as int), p) == Some(dv[i as int]));
            }
            return Some(i);
        }
        proof {
            assert(dv.skip(i as int).drop_first() =~= dv.skip(i + 1));
        }
        i += 1;
    }
    proof {
        assert(dv.skip(i as int).len() == 0);
    }
    None
}

/// Condenses commit output, as `summarize_commit_spec` describes. Total on
/// every input: text that does not match the expected shape yields the
/// unparsed summary, never an error.
pub fn summarize_commit(out: &[u8]) -> (r: ChangeSummary)
    ensures
        r@ == summarize_commit_spec(out@),
{
    let ls = split_lines(out);
    let ghost lsv = lines_spec(out@);
    let ghost rest = body_lines(out@);

    // Scan the body lines for the last stats line and the last mode line.
    let mut stats_idx: Option<usize> = None;
    let mut mode_idx: Option<usize> = None;
    let mut j: usize = 1;
    proof {
        if lsv.len() == 0 {
            assert(rest.take(0) =~= rest);
        } else {
            assert(rest.take(0) =~= Seq::<Seq<u8>>::empty());
        }
    }
    while j < ls.len()
        invariant
            ls.deep_view() == lsv,
            ls@.len() == lsv.len(),
            rest == body_lines(out@),
            1 <= j || ls@.len() == 0,
            0 <= j,
            j <= ls@.len() || j == 1,
            lsv.len() >= 1 ==> rest == lsv.skip(1),
            last_where(rest.take(j - 1), stats_pred()) == (match stats_idx {
                Some(k) => Some(lsv[k as int]),
                None => None::<Seq<u8>>,
            }),
            last_where(rest.take(j - 1), mode_pred()) == (match mode_idx {
                Some(k) => Some(lsv[k as int]),
                None => None::<Seq<u8>>,
            }),
            match stats_idx {
                Some(k) => 1 <= k < j && k < lsv.len(),
                None => true,
            },
            match mode_idx {
                Some(k) => 1 <= k < j && k < lsv.len(),
                None => true,
            },
        decreases ls@.len() - j,
    {
        proof {
            assert(ls@[j as int].deep_view() =~= ls@[j as int]@);
            assert(rest.take(j as int).drop_last() =~= rest.take(j - 1));
            assert(rest.take(j as int).last() == lsv[j as int]);
        }
        if stats_line_test(ls[j].as_slice()) {
            stats_idx = Some(j);
        } else if mode_phrase_test(ls[j].as_slice()) {
            mode_idx = Some(j);
        }
        j += 1;
    }
    proof {
        if lsv.len() >= 1 {
            assert(rest.take(j - 1) =~= rest);
        }
    }

    match stats_idx {
        None => {
            ChangeSummary {
                parsed: false,
                branch: None,
                hash: None,
                files_changed: 0,
                insertions: 0,
                deletions: 0,
                mode_line: None,
            }
        },
        Some(sk) => {
            let segs = split_comma_space(ls[sk].as_slice());
            proof {
                assert(ls@[sk as int].deep_view() =~= ls@[sk as int]@);
                assert(segs.deep_view() == split_cs(lsv[sk as int]));
            }
            let ins_pat = lit_bytes("insertion");
            let del_pat = lit_bytes("deletion");
            let ins_seg = find_first_containing(&segs, ins_pat.as_slice());
            let del_seg = find_first_containing(&segs, del_pat.as_slice());
            let ins_cnt: Option<u32> = match ins_seg {
                None => Some(0),
                Some(i) => parsecount(segs[i].as_slice()),
            };
            let del_cnt: Option<u32> = match del_seg {
                None => Some(0),
                Some(i) => parsecount(segs[i].as_slice()),
            };
            proof {
                let ghost sv = segs.deep_view();
                if ins_seg is Some {
                    let i = ins_seg->Some_0;
                    assert(segs@[i as int].deep_view() =~= segs@[i as int]@);
                    assert(sv[i as int] == segs@[i as int]@);
                }
                if del_seg is Some {
                    let i = del_seg->Some_0;
                    assert(segs@[i as int].deep_view() =~= segs@[i as int]@);
                    assert(sv[i as int] == segs@[i as int]@);
                }
                assert(ins_cnt == seg_count(segs.deep_view(), ("insertion").spec_bytes()));
                assert(del_cnt == seg_count(segs.deep_view(), ("deletion").spec_bytes()));
            }
            match (ins_cnt, del_cnt) {
                (Some(ins), Some(del)) => {
                    // The first segment leads with the files-changed count.
                    let files: u32 = match parsecount(segs[0].as_slice()) {
                        Some(n) => n,
                        None => 0,
                    };
                    proof {
                        assert(segs@[0].deep_view() =~= segs@[0]@);
                    }
                    // Branch and revision from the header line.
                    let mut branch: Option<Vec<u8>> = None;
                    let mut hash: Option<Vec<u8>> = None;
                    if ls.len() > 0 {
                        let toks = ws_tokens(ls[0].as_slice());
                        proof {
                            assert(ls@[0].deep_view() =~= ls@[0]@);
                            assert(toks.deep_view() == tokens(lsv[0]));
                        }
                        if toks.len() >= 2 {
                            proof {
                                assert(toks@[0].deep_view() =~= toks@[0]@);
                                assert(toks@[1].deep_view() =~= toks@[1]@);
                            }
                            branch = Some(strip_ends(toks[0].as_slice(), 91, 93));
                            hash = Some(strip_ends(toks[1].as_slice(), 91, 93));
                        }
                    }
                    let mode_line: Option<Vec<u8>> = match mode_idx {
                        None => None,
                        Some(mk) => {
                            proof {
                                assert(ls@[mk as int].deep_view() =~= ls@[mk as int]@);
                            }
                            Some(copy_range(ls[mk].as_slice(), 0, ls[mk].len()))
                        },
                    };
                    proof {
                        if mode_idx is Some {
                            let mk = mode_idx->Some_0 as int;
                            assert(lsv[mk].subrange(0, lsv[mk].len() as int) =~= lsv[mk]);
                        }
                    }
                    ChangeSummary {
                        parsed: true,
                        branch,
                        hash,
                        files_changed: files,
                        insertions: ins,
                        deletions: del,
                        mode_line,
                    }
                },
                _ => {
                    ChangeSummary {
                        parsed: false,
                        branch: None,
                        hash: None,
                        files_changed: 0,
                        insertions: 0,
                        deletions: 0,
                        mode_line: None,
                    }
                },
            }
        },
    }
}

} // verus!
