//! The mathematical model of match ranges and replacement splicing.
//!
//! A matcher locates a sequence of disjoint, leftmost-first match ranges in a
//! byte buffer; replacement splices a replacement sequence over the first `k`
//! of those ranges and keeps every other byte unchanged. Both the literal
//! matcher's scan and the splice are defined here as spec functions, so that
//! the replacer's contracts are stated over one shared model.

use vstd::prelude::*;

verus! {

/// Well-formed match ranges over a buffer of length `len`: each range lies
/// inside the buffer, ranges appear in increasing order, and they do not
/// overlap. Empty ranges (an empty match) are allowed, but two ranges never
/// start at the same position.
pub open spec fn ranges_wf(ranges: Seq<(int, int)>, len: int) -> bool {
    &&& forall|i: int|
        0 <= i < ranges.len() ==> 0 <= (#[trigger] ranges[i]).0 && ranges[i].0 <= ranges[i].1
            && ranges[i].1 <= len
    &&& forall|i: int|
        0 < i < ranges.len() ==> ranges[i - 1].1 <= (#[trigger] ranges[i]).0 && ranges[i - 1].0
            < ranges[i].0
}

/// The position right after the `k`-th range (0 when `k == 0`).
pub open spec fn range_end(ranges: Seq<(int, int)>, k: int) -> int {
    if k <= 0 {
        0
    } else {
        ranges[k - 1].1
    }
}

/// The replaced prefix: for each of the first `k` ranges, the bytes between
/// the previous range and this one, followed by the replacement.
pub open spec fn splice_prefix(
    text: Seq<u8>,
    ranges: Seq<(int, int)>,
    rep: Seq<u8>,
    k: int,
) -> Seq<u8>
    decreases k,
{
    if k <= 0 {
        Seq::empty()
    } else {
        splice_prefix(text, ranges, rep, k - 1) + text.subrange(range_end(ranges, k - 1), ranges[k - 1].0)
            + rep
    }
}

/// The result of replacing the first `k` match ranges of `text` with `rep`:
/// the replaced prefix followed by every byte from the end of the `k`-th
/// range onwards, unchanged.
pub open spec fn splice(text: Seq<u8>, ranges: Seq<(int, int)>, rep: Seq<u8>, k: int) -> Seq<u8> {
    splice_prefix(text, ranges, rep, k) + text.subrange(range_end(ranges, k), text.len() as int)
}

/// Replacing no range leaves the buffer unchanged.
pub proof fn lemma_splice_zero(text: Seq<u8>, ranges: Seq<(int, int)>, rep: Seq<u8>)
    ensures
        splice(text, ranges, rep, 0) == text,
{
    assert(splice(text, ranges, rep, 0) =~= text);
}

/// Replacing the first `k` matches keeps the remainder of the buffer after
/// the `k`-th match byte-identical to the original past that point: the
/// result is the replaced prefix followed by exactly `text[ranges[k-1].1 ..]`.
pub proof fn lemma_splice_tail(text: Seq<u8>, ranges: Seq<(int, int)>, rep: Seq<u8>, k: int)
    requires
        ranges_wf(ranges, text.len() as int),
        0 < k <= ranges.len(),
    ensures
        splice(text, ranges, rep, k) == splice_prefix(text, ranges, rep, k) + text.subrange(
            ranges[k - 1].1,
            text.len() as int,
        ),
        splice(text, ranges, rep, k).subrange(
            splice_prefix(text, ranges, rep, k).len() as int,
            splice(text, ranges, rep, k).len() as int,
        ) == text.subrange(ranges[k - 1].1, text.len() as int),
{
    let p = splice_prefix(text, ranges, rep, k);
    let t = text.subrange(ranges[k - 1].1, text.len() as int);
    assert(splice(text, ranges, rep, k) == p + t);
    assert((p + t).subrange(p.len() as int, (p + t).len() as int) =~= t);
}

/// The literal matcher's match starts in `text`, scanning from `pos`:
/// leftmost-first, non-overlapping; after a match at `i` the scan resumes at
/// `i + needle.len()`, or at `i + 1` for an empty needle, which matches at
/// every position including the end of the buffer.
pub open spec fn lit_starts_from(needle: Seq<u8>, text: Seq<u8>, pos: int) -> Seq<int>
    decreases text.len() - pos + 1,
{
    if pos < 0 || pos + needle.len() > text.len() {
        Seq::empty()
    } else if text.subrange(pos, pos + needle.len() as int) == needle {
        seq![pos] + lit_starts_from(
            needle,
            text,
            pos + if needle.len() == 0 { 1int } else { needle.len() as int },
        )
    } else {
        lit_starts_from(needle, text, pos + 1)
    }
}

/// All match starts of the literal matcher for `needle` in `text`.
pub open spec fn lit_starts(needle: Seq<u8>, text: Seq<u8>) -> Seq<int> {
    lit_starts_from(needle, text, 0)
}

/// The literal matcher's match ranges: each start paired with the position
/// after the matched needle.
pub open spec fn lit_ranges(needle: Seq<u8>, text: Seq<u8>) -> Seq<(int, int)> {
    lit_starts(needle, text).map(|i: int, s: int| (s, s + needle.len() as int))
}

/// Every start reported by the scan lies between `pos` and the end of the
/// buffer, successive starts increase, and they are at least a needle apart.
pub proof fn lemma_lit_starts_from_wf(needle: Seq<u8>, text: Seq<u8>, pos: int)
    requires
        0 <= pos,
    ensures
        forall|j: int|
            0 <= j < lit_starts_from(needle, text, pos).len() ==> pos <= #[trigger] lit_starts_from(
                needle,
                text,
                pos,
            )[j] && lit_starts_from(needle, text, pos)[j] + needle.len() <= text.len(),
        forall|j: int|
            0 < j < lit_starts_from(needle, text, pos).len() ==> #[trigger] lit_starts_from(
                needle,
                text,
                pos,
            )[j - 1] + needle.len() <= lit_starts_from(needle, text, pos)[j]
                && lit_starts_from(needle, text, pos)[j - 1] < lit_starts_from(needle, text, pos)[j],
    decreases text.len() - pos + 1,
{
    let s = lit_starts_from(needle, text, pos);
    if pos + needle.len() > text.len() {
    } else if text.subrange(pos, pos + needle.len() as int) == needle {
        let step = if needle.len() == 0 { 1int } else { needle.len() as int };
        lemma_lit_starts_from_wf(needle, text, pos + step);
        let rest = lit_starts_from(needle, text, pos + step);
        assert(s == seq![pos] + rest);
        assert forall|j: int| 0 <= j < s.len() implies pos <= #[trigger] s[j] && s[j]
            + needle.len() <= text.len() by {
            if j == 0 {
                assert(s[0] == pos);
            } else {
                assert(s[j] == rest[j - 1]);
            }
        }
        assert forall|j: int| 0 < j < s.len() implies #[trigger] s[j - 1] + needle.len() <= s[j]
            && s[j - 1] < s[j] by {
            if j == 1 {
                assert(s[0] == pos);
                assert(s[1] == rest[0]);
            } else {
                assert(s[j] == rest[j - 1]);
                assert(s[j - 1] == rest[j - 2]);
            }
        }
    } else {
        lemma_lit_starts_from_wf(needle, text, pos + 1);
        let rest = lit_starts_from(needle, text, pos + 1);
        assert(s == rest);
        assert forall|j: int| 0 <= j < s.len() implies pos <= #[trigger] s[j] && s[j]
            + needle.len() <= text.len() by {
            assert(s[j] == rest[j]);
        }
        assert forall|j: int| 0 < j < s.len() implies #[trigger] s[j - 1] + needle.len() <= s[j]
            && s[j - 1] < s[j] by {
            assert(s[j] == rest[j]);
            assert(s[j - 1] == rest[j - 1]);
        }
    }
}

/// The literal matcher's ranges are well formed.
pub proof fn lemma_lit_ranges_wf(needle: Seq<u8>, text: Seq<u8>)
    ensures
        ranges_wf(lit_ranges(needle, text), text.len() as int),
{
    lemma_lit_starts_from_wf(needle, text, 0);
}

/// Copies `src[a..b]` onto the end of `out`.
pub fn push_subrange(out: &mut Vec<u8>, src: &Vec<u8>, a: usize, b: usize)
    requires
        a <= b <= old(out)@.len() + src@.len(),
        b <= src@.len(),
    ensures
        final(out)@ == old(out)@ + src@.subrange(a as int, b as int),
{
    let mut i: usize = a;
    while i < b
        invariant
            a <= i <= b <= src@.len(),
            out@ == old(out)@ + src@.subrange(a as int, i as int),
        decreases b - i,
    {
        out.push(src[i]);
        assert(out@ =~= old(out)@ + src@.subrange(a as int, i + 1 as int));
        i = i + 1;
    }
    assert(out@ =~= old(out)@ + src@.subrange(a as int, b as int));
}

/// Copies the whole of `src` onto the end of `out`.
pub fn push_all(out: &mut Vec<u8>, src: &Vec<u8>)
    ensures
        final(out)@ == old(out)@ + src@,
{
    push_subrange(out, src, 0, src.len());
    assert(src@.subrange(0, src@.len() as int) =~= src@);
}

} // verus!
