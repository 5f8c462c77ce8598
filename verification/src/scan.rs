//! Byte-level text scanning: lines, tokens, substring search, trimming and
//! decimal parsing. Captured subprocess output is handled as raw bytes; every
//! function here is specified against a small set of spec functions over
//! `Seq<u8>` that the rest of the crate reuses in its contracts.

use vstd::prelude::*;
use vstd::string::StringSliceAdditionalSpecFns;

verus! {

/// Line feed, the byte that separates lines.
pub const NL: u8 = 10;

/// ASCII whitespace as the tokenizer understands it: space, tab, line feed,
/// vertical tab, form feed and carriage return.
pub open spec fn is_ws(b: u8) -> bool {
    b == 32 || b == 9 || b == 10 || b == 11 || b == 12 || b == 13
}

/// ASCII decimal digit.
pub open spec fn is_digit(b: u8) -> bool {
    48 <= b <= 57
}

/// Index of the first occurrence of `b` in `s` at or after `i`, or `s.len()`
/// if there is none.
pub open spec fn find_from(s: Seq<u8>, b: u8, i: int) -> int
    decreases s.len() - i,
    when 0 <= i <= s.len()
{
    if i >= s.len() {
        s.len() as int
    } else if s[i] == b {
        i
    } else {
        find_from(s, b, i + 1)
    }
}

pub proof fn lemma_find_from(s: Seq<u8>, b: u8, i: int)
    requires
        0 <= i <= s.len(),
    ensures
        i <= find_from(s, b, i) <= s.len(),
        find_from(s, b, i) < s.len() ==> s[find_from(s, b, i)] == b,
        forall|k: int| i <= k < find_from(s, b, i) ==> s[k] != b,
    decreases s.len() - i,
{
    if i < s.len() && s[i] != b {
        lemma_find_from(s, b, i + 1);
    }
}

/// `p` occurs in `h` starting at index `i`.
pub open spec fn contains_at(h: Seq<u8>, p: Seq<u8>, i: int) -> bool {
    0 <= i && i + p.len() <= h.len() && h.subrange(i, i + p.len() as int) == p
}

/// `p` occurs somewhere in `h`.
pub open spec fn contains_seq(h: Seq<u8>, p: Seq<u8>) -> bool {
    exists|i: int| contains_at(h, p, i)
}

/// `h` begins with `p`.
pub open spec fn starts_with_spec(h: Seq<u8>, p: Seq<u8>) -> bool {
    p.len() <= h.len() && h.subrange(0, p.len() as int) == p
}

/// The lines of `s`: segments between line feeds, with the final line not
/// requiring a terminator and a trailing terminator not adding an empty line.
pub open spec fn lines_spec(s: Seq<u8>) -> Seq<Seq<u8>>
    decreases s.len(),
{
    if s.len() == 0 {
        seq![]
    } else {
        let j = find_from(s, NL, 0);
        if 0 <= j && j < s.len() {
            seq![s.subrange(0, j)] + lines_spec(s.subrange(j + 1, s.len() as int))
        } else {
            seq![s]
        }
    }
}

/// Bytewise equality of two slices.
pub fn eq_bytes(a: &[u8], b: &[u8]) -> (r: bool)
    ensures
        r == (a@ == b@),
{
    if a.len() != b.len() {
        proof {
            assert(a@.len() != b@.len());
        }
        return false;
    }
    let mut i: usize = 0;
    while i < a.len()
        invariant
            a@.len() == b@.len(),
            0 <= i <= a@.len(),
            forall|k: int| 0 <= k < i ==> a@[k] == b@[k],
        decreases a@.len() - i,
    {
        if a[i] != b[i] {
            proof {
                assert(a@[i as int] != b@[i as int]);
            }
            return false;
        }
        i += 1;
    }
    proof {
        assert(a@ =~= b@);
    }
    true
}

/// `p` occurs in `h` at exactly index `i`.
fn match_at(h: &[u8], p: &[u8], i: usize) -> (r: bool)
    requires
        i + p@.len() <= h@.len(),
    ensures
        r == contains_at(h@, p@, i as int),
{
    let hn = h.len();
    let mut k: usize = 0;
    while k < p.len()
        invariant
            i + p@.len() <= h@.len(),
            hn == h@.len(),
            0 <= k <= p@.len(),
            forall|t: int| 0 <= t < k ==> h@[i + t] == p@[t],
        decreases p@.len() - k,
    {
        if h[i + k] != p[k] {
            proof {
                assert(h@.subrange(i as int, i + p@.len() as int)[k as int] == h@[i + k]);
            }
            return false;
        }
        k += 1;
    }
    proof {
        assert(h@.subrange(i as int, i + p@.len() as int) =~= p@);
    }
    true
}

/// Substring search, specified by `contains_seq`.
pub fn contains_sub(h: &[u8], p: &[u8]) -> (r: bool)
    ensures
        r == contains_seq(h@, p@),
{
    if p.len() > h.len() {
        proof {
            assert(forall|i: int| !contains_at(h@, p@, i));
        }
        return false;
    }
    let bound = h.len() - p.len();
    let mut i: usize = 0;
    while i < bound
        invariant
            p@.len() <= h@.len(),
            bound == h@.len() - p@.len(),
            0 <= i <= bound,
            forall|k: int| 0 <= k < i ==> !contains_at(h@, p@, k),
        decreases bound - i,
    {
        if match_at(h, p, i) {
            return true;
        }
        i += 1;
    }
    if match_at(h, p, bound) {
        return true;
    }
    proof {
        assert(forall|k: int| !contains_at(h@, p@, k));
    }
    false
}

/// Prefix test, specified by `starts_with_spec`.
pub fn starts_with_bytes(h: &[u8], p: &[u8]) -> (r: bool)
    ensures
        r == starts_with_spec(h@, p@),
{
    if p.len() > h.len() {
        return false;
    }
    match_at(h, p, 0)
}

/// The bytes of a literal phrase.
pub fn lit_bytes(s: &str) -> (r: Vec<u8>)
    ensures
        r@ == s.spec_bytes(),
{
    let b = s.as_bytes();
    vstd::slice::slice_to_vec(b)
}

/// Copies `s[from..to]` into a fresh vector.
pub fn copy_range(s: &[u8], from: usize, to: usize) -> (r: Vec<u8>)
    requires
        0 <= from <= to <= s@.len(),
    ensures
        r@ == s@.subrange(from as int, to as int),
{
    let sub = vstd::slice::slice_subrange(s, from, to);
    vstd::slice::slice_to_vec(sub)
}

/// Splits `s` into lines, as `lines_spec` describes.
pub fn split_lines(s: &[u8]) -> (r: Vec<Vec<u8>>)
    ensures
        r.deep_view() == lines_spec(s@),
{
    let mut r: Vec<Vec<u8>> = Vec::new();
    let mut start: usize = 0;
    let mut i: usize = 0;
    proof {
        assert(s@.skip(0) =~= s@);
        assert(r.deep_view() =~~= Seq::<Seq<u8>>::empty());
        assert(lines_spec(s@) =~= r.deep_view() + lines_spec(s@.skip(0)));
    }
    while i < s.len()
        invariant
            0 <= start <= i <= s@.len(),
            forall|k: int| start <= k < i ==> s@[k] != NL,
            lines_spec(s@) == r.deep_view() + lines_spec(s@.skip(start as int)),
        decreases s@.len() - i,
    {
        if s[i] == NL {
            let line = copy_range(s, start, i);
            proof {
                lemma_lines_step(s@, start as int, i as int);
                assert(s@.skip(start as int).subrange(0, i - start) =~= s@.subrange(
                    start as int,
                    i as int,
                ));
            }
            let ghost prev = r.deep_view();
            r.push(line);
            proof {
                assert(r.deep_view() =~~= prev + seq![line@]);
                assert(lines_spec(s@) == r.deep_view() + lines_spec(s@.skip(i + 1))) by {
                    assert(r.deep_view() + lines_spec(s@.skip(i + 1)) =~= prev + (seq![line@]
                        + lines_spec(s@.skip(i + 1))));
                }
            }
            start = i + 1;
        }
        i += 1;
    }
    if start < s.len() {
        let line = copy_range(s, start, s.len());
        proof {
            lemma_lines_whole(s@, start as int);
            assert(s@.skip(start as int) =~= s@.subrange(start as int, s@.len() as int));
        }
        let ghost prev = r.deep_view();
        r.push(line);
        proof {
            assert(r.deep_view() =~~= prev + seq![line@]);
        }
    } else {
        proof {
            assert(s@.skip(start as int) =~= Seq::<u8>::empty());
        }
    }
    proof {
        assert(r.deep_view() =~= lines_spec(s@));
    }
    r
}

/// Index of the first non-whitespace byte at or after `i`, or `s.len()`.
pub open spec fn skip_ws_from(s: Seq<u8>, i: int) -> int
    decreases s.len() - i,
    when 0 <= i <= s.len()
{
    if i >= s.len() {
        s.len() as int
    } else if is_ws(s[i]) {
        skip_ws_from(s, i + 1)
    } else {
        i
    }
}

pub proof fn lemma_skip_ws(s: Seq<u8>, i: int)
    requires
        0 <= i <= s.len(),
    ensures
        i <= skip_ws_from(s, i) <= s.len(),
        skip_ws_from(s, i) < s.len() ==> !is_ws(s[skip_ws_from(s, i)]),
        forall|k: int| i <= k < skip_ws_from(s, i) ==> is_ws(s[k]),
    decreases s.len() - i,
{
    if i < s.len() && is_ws(s[i]) {
        lemma_skip_ws(s, i + 1);
    }
}

/// Index of the first whitespace byte at or after `i`, or `s.len()`.
pub open spec fn scan_tok_from(s: Seq<u8>, i: int) -> int
    decreases s.len() - i,
    when 0 <= i <= s.len()
{
    if i >= s.len() {
        s.len() as int
    } else if is_ws(s[i]) {
        i
    } else {
        scan_tok_from(s, i + 1)
    }
}

pub proof fn lemma_scan_tok(s: Seq<u8>, i: int)
    requires
        0 <= i <= s.len(),
    ensures
        i <= scan_tok_from(s, i) <= s.len(),
        scan_tok_from(s, i) < s.len() ==> is_ws(s[scan_tok_from(s, i)]),
        forall|k: int| i <= k < scan_tok_from(s, i) ==> !is_ws(s[k]),
    decreases s.len() - i,
{
    if i < s.len() && !is_ws(s[i]) {
        lemma_scan_tok(s, i + 1);
    }
}

/// The whitespace-delimited tokens of `s` starting at `i`: maximal runs of
/// non-whitespace bytes, never empty.
pub open spec fn tokens_from(s: Seq<u8>, i: int) -> Seq<Seq<u8>>
    decreases s.len() - i,
    when 0 <= i <= s.len()
{
    let a = skip_ws_from(s, i);
    if i <= a && a < s.len() {
        let b = scan_tok_from(s, a);
        if a < b <= s.len() {
            seq![s.subrange(a, b)] + tokens_from(s, b)
        } else {
            seq![]
        }
    } else {
        seq![]
    }
}

/// The whitespace-delimited tokens of all of `s`.
pub open spec fn tokens(s: Seq<u8>) -> Seq<Seq<u8>> {
    tokens_from(s, 0)
}

/// Unfolds `tokens_from` one step: either everything from `i` on is
/// whitespace and there is no token, or the first token runs from the first
/// non-whitespace byte to the next whitespace.
pub proof fn lemma_tokens_unfold(s: Seq<u8>, i: int)
    requires
        0 <= i <= s.len(),
    ensures
        skip_ws_from(s, i) == s.len() ==> tokens_from(s, i) == Seq::<Seq<u8>>::empty(),
        skip_ws_from(s, i) < s.len() ==> {
            let a = skip_ws_from(s, i);
            let b = scan_tok_from(s, a);
            &&& a < b <= s.len()
            &&& tokens_from(s, i) == seq![s.subrange(a, b)] + tokens_from(s, b)
        },
{
    lemma_skip_ws(s, i);
    let a = skip_ws_from(s, i);
    if a < s.len() {
        lemma_scan_tok(s, a);
        assert(!is_ws(s[a]));
        assert(scan_tok_from(s, a) > a) by {
            if scan_tok_from(s, a) == a {
                assert(is_ws(s[a]));
            }
            lemma_scan_tok(s, a);
        }
    }
}

/// Skipping over a whitespace byte does not change the tokens.
pub proof fn lemma_tokens_skip_ws(s: Seq<u8>, i: int)
    requires
        0 <= i < s.len(),
        is_ws(s[i]),
    ensures
        tokens_from(s, i) == tokens_from(s, i + 1),
{
    assert(skip_ws_from(s, i) == skip_ws_from(s, i + 1));
}

/// Index `e <= i` such that `s[e..i]` is all whitespace and either `e == 0`
/// or `s[e - 1]` is not whitespace: where a right-hand trim of `s[..i]` ends.
pub open spec fn drop_ws_end(s: Seq<u8>, i: int) -> int
    decreases i,
    when 0 <= i <= s.len()
{
    if i <= 0 {
        0
    } else if is_ws(s[i - 1]) {
        drop_ws_end(s, i - 1)
    } else {
        i
    }
}

pub proof fn lemma_drop_ws_end(s: Seq<u8>, i: int)
    requires
        0 <= i <= s.len(),
    ensures
        0 <= drop_ws_end(s, i) <= i,
        drop_ws_end(s, i) > 0 ==> !is_ws(s[drop_ws_end(s, i) - 1]),
        forall|k: int| drop_ws_end(s, i) <= k < i ==> is_ws(s[k]),
    decreases i,
{
    if i > 0 && is_ws(s[i - 1]) {
        lemma_drop_ws_end(s, i - 1);
    }
}

/// `s` with leading and trailing whitespace removed.
pub open spec fn trim_spec(s: Seq<u8>) -> Seq<u8> {
    let a = skip_ws_from(s, 0);
    let e = drop_ws_end(s, s.len() as int);
    if 0 <= a && a <= e && e <= s.len() {
        s.subrange(a, e)
    } else {
        Seq::<u8>::empty()
    }
}

/// Trims ASCII whitespace from both ends, as `trim_spec` describes.
pub fn trim_bytes(s: &[u8]) -> (r: Vec<u8>)
    ensures
        r@ == trim_spec(s@),
{
    let n = s.len();
    let mut a: usize = 0;
    while a < n && is_ws_byte(s[a])
        invariant
            n == s@.len(),
            0 <= a <= n,
            forall|k: int| 0 <= k < a ==> is_ws(s@[k]),
        decreases n - a,
    {
        a += 1;
    }
    proof {
        lemma_skip_ws(s@, 0);
        assert(skip_ws_from(s@, 0) == a) by {
            let sk = skip_ws_from(s@, 0);
            if sk < a {
                assert(is_ws(s@[sk]));
            }
            if sk > a {
                assert(is_ws(s@[a as int]));
            }
        }
    }
    let mut e: usize = n;
    while e > a && is_ws_byte(s[e - 1])
        invariant
            n == s@.len(),
            0 <= a <= e <= n,
            forall|k: int| e <= k < n ==> is_ws(s@[k]),
            a == skip_ws_from(s@, 0),
        decreases e,
    {
        e -= 1;
    }
    proof {
        lemma_drop_ws_end(s@, n as int);
        lemma_skip_ws(s@, 0);
        let d = drop_ws_end(s@, n as int);
        if e > a {
            assert(!is_ws(s@[e - 1]));
            if d < e {
                assert(is_ws(s@[e - 1]));
            }
            if d > e {
                assert(is_ws(s@[d - 1]));
                assert(!is_ws(s@[d - 1]));
            }
            assert(d == e);
        } else {
            assert(e == a);
            if d > a {
                assert(is_ws(s@[d - 1]));
                assert(!is_ws(s@[d - 1]));
            }
            assert(d <= a);
            if d == a {
                assert(trim_spec(s@) == s@.subrange(a as int, e as int));
            } else {
                assert(trim_spec(s@) =~= s@.subrange(a as int, e as int));
            }
        }
    }
    copy_range(s, a, e)
}

/// Executable form of `is_ws`.
pub fn is_ws_byte(b: u8) -> (r: bool)
    ensures
        r == is_ws(b),
{
    b == 32 || b == 9 || b == 10 || b == 11 || b == 12 || b == 13
}

/// Splits `s` into whitespace-delimited tokens, as `tokens` describes.
pub fn ws_tokens(s: &[u8]) -> (r: Vec<Vec<u8>>)
    ensures
        r.deep_view() == tokens(s@),
{
    let n = s.len();
    let mut r: Vec<Vec<u8>> = Vec::new();
    let mut i: usize = 0;
    proof {
        assert(r.deep_view() =~~= Seq::<Seq<u8>>::empty());
    }
    while i < n
        invariant
            n == s@.len(),
            0 <= i <= n,
            tokens(s@) == r.deep_view() + tokens_from(s@, i as int),
        decreases n - i,
    {
        if is_ws_byte(s[i]) {
            proof {
                lemma_tokens_skip_ws(s@, i as int);
            }
            i += 1;
        } else {
            let start = i;
            let mut j = i + 1;
            while j < n && !is_ws_byte(s[j])
                invariant
                    n == s@.len(),
                    0 <= start < j <= n,
                    forall|k: int| start <= k < j ==> !is_ws(s@[k]),
                decreases n - j,
            {
                j += 1;
            }
            proof {
                lemma_tokens_unfold(s@, start as int);
                lemma_scan_tok(s@, start as int);
                assert(skip_ws_from(s@, start as int) == start);
                let b = scan_tok_from(s@, start as int);
                if b < j {
                    assert(!is_ws(s@[b]));
                    assert(is_ws(s@[b]));
                }
                if b > j {
                    assert(j < s@.len() && is_ws(s@[j as int]));
                    assert(!is_ws(s@[j as int]));
                }
                assert(b == j);
            }
            let tok = copy_range(s, start, j);
            let ghost prev = r.deep_view();
            r.push(tok);
            proof {
                assert(r.deep_view() =~~= prev + seq![tok@]);
                assert(r.deep_view() + tokens_from(s@, j as int) =~= prev + (seq![tok@]
                    + tokens_from(s@, j as int)));
            }
            i = j;
        }
    }
    proof {
        assert(tokens_from(s@, i as int) =~= Seq::<Seq<u8>>::empty());
        assert(tokens(s@) =~= r.deep_view());
    }
    r
}

/// The numeric value of a digit string, most significant digit first.
pub open spec fn digits_val(s: Seq<u8>) -> int
    decreases s.len(),
{
    if s.len() == 0 {
        0
    } else {
        digits_val(s.drop_last()) * 10 + (s.last() - 48)
    }
}

/// Every byte of `s` is a decimal digit.
pub open spec fn all_digits(s: Seq<u8>) -> bool {
    forall|k: int| 0 <= k < s.len() ==> is_digit(s[k])
}

/// What parsing a token as an unsigned decimal count yields: the value when
/// the token is a nonempty digit string whose value fits, nothing otherwise.
pub open spec fn parse_u32_spec(t: Seq<u8>) -> Option<u32> {
    if t.len() > 0 && all_digits(t) && digits_val(t) <= u32::MAX {
        Some(digits_val(t) as u32)
    } else {
        None
    }
}

proof fn lemma_digits_val_nonneg(s: Seq<u8>)
    requires
        all_digits(s),
    ensures
        digits_val(s) >= 0,
    decreases s.len(),
{
    if s.len() > 0 {
        assert(all_digits(s.drop_last()));
        lemma_digits_val_nonneg(s.drop_last());
    }
}

/// Extending a digit string cannot shrink its value.
proof fn lemma_digits_val_grows(s: Seq<u8>, i: int)
    requires
        all_digits(s),
        0 <= i <= s.len(),
    ensures
        digits_val(s.take(i)) <= digits_val(s),
    decreases s.len() - i,
{
    if i < s.len() {
        lemma_digits_val_grows(s, i + 1);
        assert(s.take(i + 1).drop_last() =~= s.take(i));
        assert(all_digits(s.take(i)));
        lemma_digits_val_nonneg(s.take(i));
        assert(digits_val(s.take(i + 1)) == digits_val(s.take(i)) * 10 + (s.take(i + 1).last()
            - 48));
    } else {
        assert(s.take(i) =~= s);
    }
}

/// Parses a nonempty all-digit token, as `parse_u32_spec` describes.
pub fn parse_u32(t: &[u8]) -> (r: Option<u32>)
    ensures
        r == parse_u32_spec(t@),
{
    let n = t.len();
    if n == 0 {
        return None;
    }
    let mut acc: u64 = 0;
    let mut i: usize = 0;
    proof {
        assert(t@.take(0) =~= Seq::<u8>::empty());
    }
    while i < n
        invariant
            n == t@.len(),
            0 <= i <= n,
            all_digits(t@.take(i as int)),
            acc == digits_val(t@.take(i as int)),
            acc <= u32::MAX,
        decreases n - i,
    {
        let b = t[i];
        if !(48 <= b && b <= 57) {
            proof {
                assert(!is_digit(t@[i as int]));
            }
            return None;
        }
        acc = acc * 10 + ((b - 48) as u64);
        proof {
            assert(t@.take(i + 1).drop_last() =~= t@.take(i as int));
            assert(t@.take(i + 1).last() == t@[i as int]);
        }
        i += 1;
        if acc > u32::MAX as u64 {
            proof {
                assert(t@.take(i as int) =~= t@.take(i as int));
                if all_digits(t@) && digits_val(t@) <= u32::MAX {
                    lemma_digits_val_grows(t@, i as int);
                }
            }
            return None;
        }
    }
    proof {
        assert(t@.take(n as int) =~= t@);
    }
    Some(acc as u32)
}

/// What a condensed-count parse of a text yields: zero when the text holds no
/// token at all, otherwise the parse of its first token.
pub open spec fn parsecount_spec(s: Seq<u8>) -> Option<u32> {
    let toks = tokens(s);
    if toks.len() == 0 {
        Some(0u32)
    } else {
        parse_u32_spec(toks[0])
    }
}

/// Reads the leading count out of a text: the first whitespace-delimited
/// token parsed as a decimal number, or zero when the text is blank.
pub fn parsecount(s: &[u8]) -> (r: Option<u32>)
    ensures
        r == parsecount_spec(s@),
{
    let toks = ws_tokens(s);
    if toks.len() == 0 {
        proof {
            assert(tokens(s@).len() == 0);
        }
        Some(0)
    } else {
        proof {
            assert(toks.deep_view()[0] == tokens(s@)[0]);
            assert(toks@[0].deep_view() =~= toks@[0]@);
        }
        parse_u32(toks[0].as_slice())
    }
}

/// Index of the first comma-space pair at or after `i`, or `s.len()`.
pub open spec fn find_cs(s: Seq<u8>, i: int) -> int
    decreases s.len() - i,
    when 0 <= i <= s.len()
{
    if i >= s.len() {
        s.len() as int
    } else if s[i] == 44 && i + 1 < s.len() && s[i + 1] == 32 {
        i
    } else {
        find_cs(s, i + 1)
    }
}

pub proof fn lemma_find_cs(s: Seq<u8>, i: int)
    requires
        0 <= i <= s.len(),
    ensures
        i <= find_cs(s, i) <= s.len(),
        find_cs(s, i) < s.len() ==> {
            let j = find_cs(s, i);
            s[j] == 44 && j + 1 < s.len() && s[j + 1] == 32
        },
        forall|k: int|
            i <= k < find_cs(s, i) ==> !((#[trigger] s[k]) == 44 && k + 1 < s.len() && s[k + 1]
                == 32),
    decreases s.len() - i,
{
    if i < s.len() && !(s[i] == 44 && i + 1 < s.len() && s[i + 1] == 32) {
        lemma_find_cs(s, i + 1);
    }
}

/// The segments of `s` between comma-space separators. A text without a
/// separator is a single segment, so the result is never empty.
pub open spec fn split_cs(s: Seq<u8>) -> Seq<Seq<u8>>
    decreases s.len(),
{
    let j = find_cs(s, 0);
    if 0 <= j && j + 1 < s.len() {
        seq![s.subrange(0, j)] + split_cs(s.subrange(j + 2, s.len() as int))
    } else {
        seq![s]
    }
}

proof fn lemma_split_cs_step(s: Seq<u8>, start: int, i: int)
    requires
        0 <= start <= i,
        i + 1 < s.len(),
        forall|k: int|
            start <= k < i ==> !((#[trigger] s[k]) == 44 && k + 1 < s.len() && s[k + 1] == 32),
        s[i] == 44 && s[i + 1] == 32,
    ensures
        split_cs(s.skip(start)) == seq![s.subrange(start, i)] + split_cs(s.skip(i + 2)),
{
    let t = s.skip(start);
    lemma_find_cs(t, 0);
    let j = find_cs(t, 0);
    assert(t[i - start] == s[i]);
    assert(t[i - start + 1] == s[i + 1]);
    assert(t[i - start] == 44 && (i - start) + 1 < t.len() && t[i - start + 1] == 32);
    if j < i - start {
        assert(t[j] == 44 && j + 1 < t.len() && t[j + 1] == 32);
        assert(t[j] == s[start + j]);
        assert(t[j + 1] == s[start + j + 1]);
        assert(!(s[start + j] == 44 && start + j + 1 < s.len() && s[start + j + 1] == 32));
        assert(false);
    }
    if j > i - start {
        assert(false);
    }
    assert(j == i - start);
    assert(t.subrange(0, j) =~= s.subrange(start, i));
    assert(t.subrange(j + 2, t.len() as int) =~= s.skip(i + 2));
}

proof fn lemma_split_cs_end(s: Seq<u8>, start: int)
    requires
        0 <= start <= s.len(),
        forall|k: int|
            start <= k < s.len() ==> !((#[trigger] s[k]) == 44 && k + 1 < s.len() && s[k + 1]
                == 32),
    ensures
        split_cs(s.skip(start)) == seq![s.skip(start)],
{
    let t = s.skip(start);
    lemma_find_cs(t, 0);
    let j = find_cs(t, 0);
    if j + 1 < t.len() {
        assert(t[j] == 44 && t[j + 1] == 32);
        assert(s[start + j] == 44 && start + j + 1 < s.len() && s[start + j + 1] == 32);
        assert(false);
    }
}

/// Splits `s` on comma-space separators, as `split_cs` describes.
pub fn split_comma_space(s: &[u8]) -> (r: Vec<Vec<u8>>)
    ensures
        r.deep_view() == split_cs(s@),
        r@.len() >= 1,
{
    let n = s.len();
    let mut r: Vec<Vec<u8>> = Vec::new();
    let mut start: usize = 0;
    let mut i: usize = 0;
    proof {
        assert(r.deep_view() =~~= Seq::<Seq<u8>>::empty());
        assert(s@.skip(0) =~= s@);
    }
    while i < n
        invariant
            n == s@.len(),
            0 <= start <= i <= n,
            forall|k: int|
                start <= k < i ==> !((#[trigger] s@[k]) == 44 && k + 1 < s@.len() && s@[k + 1]
                    == 32),
            split_cs(s@) == r.deep_view() + split_cs(s@.skip(start as int)),
        decreases n - i,
    {
        if s[i] == 44 && i + 1 < n && s[i + 1] == 32 {
            let seg = copy_range(s, start, i);
            proof {
                lemma_split_cs_step(s@, start as int, i as int);
            }
            let ghost prev = r.deep_view();
            r.push(seg);
            proof {
                assert(r.deep_view() =~~= prev + seq![seg@]);
                assert(r.deep_view() + split_cs(s@.skip(i + 2)) =~= prev + (seq![seg@] + split_cs(
                    s@.skip(i + 2),
                )));
            }
            start = i + 2;
            i = i + 2;
        } else {
            i += 1;
        }
    }
    let seg = copy_range(s, start, n);
    proof {
        lemma_split_cs_end(s@, start as int);
        assert(s@.skip(start as int) =~= s@.subrange(start as int, n as int));
    }
    let ghost prev = r.deep_view();
    r.push(seg);
    proof {
        assert(r.deep_view() =~~= prev + seq![seg@]);
        assert(r.deep_view() =~= split_cs(s@));
    }
    r
}

/// `s` with every leading `b` removed.
pub open spec fn strip_lead(s: Seq<u8>, b: u8) -> Seq<u8>
    decreases s.len(),
{
    if s.len() > 0 && s[0] == b {
        strip_lead(s.drop_first(), b)
    } else {
        s
    }
}

/// `s` with every trailing `b` removed.
pub open spec fn strip_trail(s: Seq<u8>, b: u8) -> Seq<u8>
    decreases s.len(),
{
    if s.len() > 0 && s.last() == b {
        strip_trail(s.drop_last(), b)
    } else {
        s
    }
}

/// Removes every leading `lead` and every trailing `trail` byte.
pub fn strip_ends(s: &[u8], lead: u8, trail: u8) -> (r: Vec<u8>)
    ensures
        r@ == strip_trail(strip_lead(s@, lead), trail),
{
    let n = s.len();
    let mut a: usize = 0;
    proof {
        assert(s@.skip(0) =~= s@);
    }
    while a < n && s[a] == lead
        invariant
            n == s@.len(),
            0 <= a <= n,
            strip_lead(s@, lead) == strip_lead(s@.skip(a as int), lead),
        decreases n - a,
    {
        proof {
            assert(s@.skip(a as int).len() > 0 && s@.skip(a as int)[0] == lead);
            assert(s@.skip(a as int).drop_first() =~= s@.skip(a + 1));
        }
        a += 1;
    }
    proof {
        if a < n {
            assert(s@.skip(a as int)[0] != lead);
        }
        assert(strip_lead(s@.skip(a as int), lead) == s@.skip(a as int));
    }
    let ghost t = s@.skip(a as int);
    let mut e: usize = n;
    proof {
        assert(t.take(n - a) =~= t);
    }
    while e > a && s[e - 1] == trail
        invariant
            n == s@.len(),
            0 <= a <= e <= n,
            t == s@.skip(a as int),
            strip_trail(t, trail) == strip_trail(t.take(e - a), trail),
        decreases e,
    {
        proof {
            let u = t.take(e - a);
            assert(u.len() > 0 && u.last() == s@[e - 1]);
            assert(u.drop_last() =~= t.take(e - 1 - a));
        }
        e -= 1;
    }
    proof {
        let u = t.take(e - a);
        if e > a {
            assert(u.last() == s@[e - 1]);
            assert(u.last() != trail);
        }
        assert(strip_trail(u, trail) == u);
        assert(u =~= s@.subrange(a as int, e as int));
    }
    copy_range(s, a, e)
}

/// When no line feed stands in `s[start..i]` and `s[i]` is one, the lines of
/// the suffix at `start` are the segment up to `i` followed by the lines of
/// the suffix after `i`.
proof fn lemma_lines_step(s: Seq<u8>, start: int, i: int)
    requires
        0 <= start <= i < s.len(),
        forall|k: int| start <= k < i ==> s[k] != NL,
        s[i] == NL,
    ensures
        lines_spec(s.skip(start)) == seq![s.subrange(start, i)] + lines_spec(s.skip(i + 1)),
{
    let t = s.skip(start);
    assert(t.len() > 0);
    lemma_find_from(t, NL, 0);
    let j = find_from(t, NL, 0);
    assert(forall|k: int| 0 <= k < i - start ==> t[k] == s[start + k] && t[k] != NL);
    assert(t[i - start] == NL);
    assert(j == i - start) by {
        if j < i - start {
            assert(t[j] != NL);
        }
        if j > i - start {
            assert(t[i - start] != NL);
        }
    }
    assert(t.subrange(0, j) =~= s.subrange(start, i));
    assert(t.subrange(j + 1, t.len() as int) =~= s.skip(i + 1));
}

/// When no line feed stands anywhere in `s[start..]`, that whole suffix is the
/// single line of itself (or no line at all if it is empty).
proof fn lemma_lines_whole(s: Seq<u8>, start: int)
    requires
        0 <= start <= s.len(),
        forall|k: int| start <= k < s.len() ==> s[k] != NL,
    ensures
        start < s.len() ==> lines_spec(s.skip(start)) == seq![s.skip(start)],
        start == s.len() ==> lines_spec(s.skip(start)) == Seq::<Seq<u8>>::empty(),
{
    let t = s.skip(start);
    if start < s.len() {
        lemma_find_from(t, NL, 0);
        let j = find_from(t, NL, 0);
        assert(forall|k: int| 0 <= k < t.len() ==> t[k] == s[start + k] && t[k] != NL);
        assert(j == t.len());
    } else {
        assert(t.len() == 0);
    }
}

} // verus!
