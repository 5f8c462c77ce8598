//! Showing the repository root: when the root lies under the user's home
//! directory, the home prefix is replaced by `~/`. Paths are compared
//! component by component on the separator, so a directory whose name merely
//! extends the home path's last component is not mistaken for lying under it.

use vstd::prelude::*;
use vstd::string::StringSliceAdditionalSpecFns;

use crate::scan::copy_range;
use crate::scan::eq_bytes;
use crate::scan::find_from;
use crate::scan::lemma_find_from;
use crate::scan::lit_bytes;

verus! {

/// The path separator.
pub const SEP: u8 = 47;

/// The segments of `s` between occurrences of `b`, all kept: an absolute path
/// starts with an empty segment, and a text without the separator is one
/// segment.
pub open spec fn split_byte(s: Seq<u8>, b: u8) -> Seq<Seq<u8>>
    decreases s.len(),
{
    let j = find_from(s, b, 0);
    if 0 <= j && j < s.len() {
        seq![s.subrange(0, j)] + split_byte(s.subrange(j + 1, s.len() as int), b)
    } else {
        seq![s]
    }
}

/// The segments of `ts` joined by `b`.
pub open spec fn join_byte(ts: Seq<Seq<u8>>, b: u8) -> Seq<u8>
    decreases ts.len(),
{
    if ts.len() == 0 {
        Seq::<u8>::empty()
    } else if ts.len() == 1 {
        ts[0]
    } else {
        join_byte(ts.drop_last(), b) + seq![b] + ts.last()
    }
}

/// `p` is a leading run of `s`, element for element.
pub open spec fn is_seq_prefix(p: Seq<Seq<u8>>, s: Seq<Seq<u8>>) -> bool {
    p.len() <= s.len() && forall|i: int| 0 <= i < p.len() ==> p[i] == s[i]
}

/// How the root is shown: with a known home directory whose components lead
/// the root's, the home prefix becomes `~/` followed by the remaining
/// components; otherwise the root is shown as it is.
pub open spec fn clean_root_spec(root: Seq<u8>, home: Option<Seq<u8>>) -> Seq<u8> {
    match home {
        None => root,
        Some(h) => {
            let rc = split_byte(root, SEP);
            let hc = split_byte(h, SEP);
            if is_seq_prefix(hc, rc) {
                ("~/").spec_bytes() + join_byte(rc.skip(hc.len() as int), SEP)
            } else {
                root
            }
        },
    }
}

proof fn lemma_split_byte_step(s: Seq<u8>, b: u8, start: int, i: int)
    requires
        0 <= start <= i < s.len(),
        forall|k: int| start <= k < i ==> s[k] != b,
        s[i] == b,
    ensures
        split_byte(s.skip(start), b) == seq![s.subrange(start, i)] + split_byte(s.skip(i + 1), b),
{
    let t = s.skip(start);
    lemma_find_from(t, b, 0);
    let j = find_from(t, b, 0);
    assert(t[i - start] == s[i]);
    if j < i - start {
        assert(t[j] == s[start + j]);
        assert(s[start + j] != b);
        assert(false);
    }
    if j > i - start {
        assert(false);
    }
    assert(t.subrange(0, j) =~= s.subrange(start, i));
    assert(t.subrange(j + 1, t.len() as int) =~= s.skip(i + 1));
}

proof fn lemma_split_byte_whole(s: Seq<u8>, b: u8, start: int)
    requires
        0 <= start <= s.len(),
        forall|k: int| start <= k < s.len() ==> s[k] != b,
    ensures
        split_byte(s.skip(start), b) == seq![s.skip(start)],
{
    let t = s.skip(start);
    lemma_find_from(t, b, 0);
    let j = find_from(t, b, 0);
    if j < t.len() {
        assert(t[j] == s[start + j]);
        assert(false);
    }
}

/// Splits `s` on `b`, keeping empty segments, as `split_byte` describes.
pub fn split_on_byte(s: &[u8], b: u8) -> (r: Vec<Vec<u8>>)
    ensures
        r.deep_view() == split_byte(s@, b),
        r@.len() >= 1,
{
    let n = s.len();
    let mut r: Vec<Vec<u8>> = Vec::new();
    let mut start: usize = 0;
    let mut i: usize = 0;
    proof {
        assert(r.deep_view() =~~= Seq::<Seq<u8>>::empty());
        assert(s@.skip(0) =~= s@);
    }
    while i < n
        invariant
            n == s@.len(),
            0 <= start <= i <= n,
            forall|k: int| start <= k < i ==> s@[k] != b,
            split_byte(s@, b) == r.deep_view() + split_byte(s@.skip(start as int), b),
        decreases n - i,
    {
        if s[i] == b {
            let seg = copy_range(s, start, i);
            proof {
                lemma_split_byte_step(s@, b, start as int, i as int);
            }
            let ghost prev = r.deep_view();
            r.push(seg);
            proof {
                assert(r.deep_view() =~~= prev + seq![seg@]);
                assert(r.deep_view() + split_byte(s@.skip(i + 1), b) =~= prev + (seq![seg@]
                    + split_byte(s@.skip(i + 1), b)));
            }
            start = i + 1;
        }
        i += 1;
    }
    let seg = copy_range(s, start, n);
    proof {
        lemma_split_byte_whole(s@, b, start as int);
        assert(s@.skip(start as int) =~= s@.subrange(start as int, n as int));
    }
    let ghost prev = r.deep_view();
    r.push(seg);
    proof {
        assert(r.deep_view() =~~= prev + seq![seg@]);
        assert(r.deep_view() =~= split_byte(s@, b));
    }
    r
}

/// Shows the repository root, as `clean_root_spec` describes.
pub fn clean_root(root: &[u8], home: Option<&[u8]>) -> (r: Vec<u8>)
    ensures
        r@ == clean_root_spec(
            root@,
            match home {
                Some(h) => Some(h@),
                None => None,
            },
        ),
{
    let h = match home {
        None => {
            return copy_range(root, 0, root.len());
        },
        Some(h) => h,
    };
    proof {
        assert(root@.subrange(0, root@.len() as int) =~= root@);
    }
    let rc = split_on_byte(root, SEP);
    let hc = split_on_byte(h, SEP);
    let ghost rcv = rc.deep_view();
    let ghost hcv = hc.deep_view();

    // Component-by-component prefix test.
    if hc.len() > rc.len() {
        proof {
            assert(!is_seq_prefix(hcv, rcv));
        }
        return copy_range(root, 0, root.len());
    }
    let mut i: usize = 0;
    while i < hc.len()
        invariant
            rcv == rc.deep_view(),
            hcv == hc.deep_view(),
            rcv == split_byte(root@, SEP),
            hcv == split_byte(h@, SEP),
            home matches Some(hh) && hh@ == h@,
            rcv.len() == rc@.len(),
            hcv.len() == hc@.len(),
            hcv.len() <= rcv.len(),
            0 <= i <= hcv.len(),
            forall|k: int| 0 <= k < i ==> hcv[k] == rcv[k],
        decreases hc@.len() - i,
    {
        proof {
            assert(hc@[i as int].deep_view() =~= hc@[i as int]@);
            assert(rc@[i as int].deep_view() =~= rc@[i as int]@);
        }
        if !eq_bytes(hc[i].as_slice(), rc[i].as_slice()) {
            proof {
                assert(hcv[i as int] != rcv[i as int]);
                assert(!is_seq_prefix(hcv, rcv));
                assert(root@.subrange(0, root@.len() as int) =~= root@);
            }
            return copy_range(root, 0, root.len());
        }
        i += 1;
    }
    proof {
        assert(is_seq_prefix(hcv, rcv));
    }

    // The home components lead the root's: show `~/` and the rest.
    let ghost tail = rcv.skip(hcv.len() as int);
    let mut out = lit_bytes("~/");
    let mut k: usize = hc.len();
    proof {
        assert(tail.take(0) =~= Seq::<Seq<u8>>::empty());
        assert(out@ =~= ("~/").spec_bytes() + join_byte(tail.take(0), SEP));
    }
    while k < rc.len()
        invariant
            rcv == rc.deep_view(),
            rcv == split_byte(root@, SEP),
            hcv == split_byte(h@, SEP),
            home matches Some(hh) && hh@ == h@,
            is_seq_prefix(hcv, rcv),
            rcv.len() == rc@.len(),
            hcv.len() == hc@.len(),
            hc@.len() <= k,
            tail == rcv.skip(hcv.len() as int),
            hcv.len() <= k <= rcv.len(),
            out@ == ("~/").spec_bytes() + join_byte(tail.take(k - hcv.len()), SEP),
        decreases rc@.len() - k,
    {
        proof {
            assert(rc@[k as int].deep_view() =~= rc@[k as int]@);
            assert(tail.take(k - hcv.len() + 1).drop_last() =~= tail.take(k - hcv.len()));
            assert(tail.take(k - hcv.len() + 1).last() == rcv[k as int]);
        }
        if k > hc.len() {
            out.push(SEP);
        }
        out.extend_from_slice(rc[k].as_slice());
        proof {
            let c = k - hcv.len();
            let cur = rcv[k as int];
            if c > 0 {
                assert(out@ =~= ("~/").spec_bytes() + (join_byte(tail.take(c), SEP) + seq![SEP]
                    + cur));
                assert(("~/").spec_bytes() + (join_byte(tail.take(c), SEP) + seq![SEP] + cur) =~= (
                "~/").spec_bytes() + join_byte(tail.take(c + 1), SEP));
            } else {
                assert(tail.take(1)[0] == tail[0]);
                assert(join_byte(tail.take(1), SEP) == tail[0]);
                assert(out@ =~= ("~/").spec_bytes() + tail[0]);
            }
        }
        k += 1;
    }
    proof {
        assert(tail.take(rcv.len() - hcv.len()) =~= tail);
    }
    out
}

} // verus!
