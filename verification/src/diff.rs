//! Line-oriented diff rendering.
//!
//! The diff splits both buffers into lines (keeping each line's own
//! terminator bytes), walks a longest-common-subsequence table over them,
//! and renders every line of both inputs: unchanged lines prefixed with a
//! blank, removed lines with `-`, added lines with `+`. The walk and the
//! rendering are defined as spec functions, so the executable code is proved
//! to produce exactly that rendering, and the rendering is proved to contain
//! the lines of the old buffer (as kept and removed lines, in order) and the
//! lines of the new buffer (as kept and added lines, in order) exactly.

use vstd::prelude::*;

use crate::matching::{push_all, push_subrange};

verus! {

/// The first position at or after `pos` holding a newline byte, or the
/// buffer length when there is none.
pub open spec fn first_nl_at(text: Seq<u8>, pos: int) -> int
    decreases text.len() - pos,
{
    if pos < 0 || pos >= text.len() {
        text.len() as int
    } else if text[pos] == 10u8 {
        pos
    } else {
        first_nl_at(text, pos + 1)
    }
}

/// The length of the first line of `text`: through the first newline
/// inclusive, or the whole buffer when no newline is left.
pub open spec fn first_line_len(text: Seq<u8>) -> int {
    let k = first_nl_at(text, 0);
    if 0 <= k && k < text.len() {
        k + 1
    } else {
        text.len() as int
    }
}

/// The lines of a buffer, each keeping its own terminator; the last line
/// may lack one. The empty buffer has no lines.
pub open spec fn lines_of(text: Seq<u8>) -> Seq<Seq<u8>>
    decreases text.len(),
{
    if text.len() == 0 {
        Seq::empty()
    } else {
        seq![text.subrange(0, first_line_len(text))] + lines_of(
            text.subrange(first_line_len(text), text.len() as int),
        )
    }
}

/// Concatenating the lines of a buffer gives the buffer back: the split
/// loses nothing and invents nothing.
pub proof fn lemma_lines_concat(text: Seq<u8>)
    ensures
        lines_of(text).flatten() == text,
    decreases text.len(),
{
    if text.len() == 0 {
        assert(lines_of(text).flatten() =~= text);
    } else {
        let l = first_line_len(text);
        assert(0 < l <= text.len()) by {
            lemma_first_nl_bounds(text, 0);
        }
        let head = text.subrange(0, l);
        let rest = text.subrange(l, text.len() as int);
        lemma_lines_concat(rest);
        assert(lines_of(text) == seq![head] + lines_of(rest));
        let x = seq![head] + lines_of(rest);
        assert(x.first() == head);
        assert(x.drop_first() =~= lines_of(rest));
        assert(x.flatten() == head + lines_of(rest).flatten());
        assert(head + rest =~= text);
    }
}

/// `first_nl_at` stays between `pos` and the buffer length.
pub proof fn lemma_first_nl_bounds(text: Seq<u8>, pos: int)
    requires
        0 <= pos <= text.len(),
    ensures
        pos <= first_nl_at(text, pos) <= text.len(),
    decreases text.len() - pos,
{
    if pos < text.len() && text[pos] != 10u8 {
        lemma_first_nl_bounds(text, pos + 1);
    }
}

/// Two buffers with the same lines are the same buffer.
pub proof fn lemma_lines_injective(a: Seq<u8>, b: Seq<u8>)
    requires
        lines_of(a) == lines_of(b),
    ensures
        a == b,
{
    lemma_lines_concat(a);
    lemma_lines_concat(b);
}

/// A scan that found no newline in `text[pos..j]`, and a newline or the end
/// at `j`, has found `first_nl_at(text, pos)`.
proof fn lemma_first_nl_scan(text: Seq<u8>, pos: int, j: int)
    requires
        0 <= pos <= j <= text.len(),
        forall|k: int| pos <= k < j ==> text[k] != 10u8,
        j == text.len() || text[j] == 10u8,
    ensures
        first_nl_at(text, pos) == if j == text.len() {
            text.len() as int
        } else {
            j
        },
    decreases j - pos,
{
    if pos < j {
        lemma_first_nl_scan(text, pos + 1, j);
    }
}

/// Splits a buffer into its lines.
pub fn split_lines(text: &Vec<u8>) -> (r: Vec<Vec<u8>>)
    ensures
        r.deep_view() == lines_of(text@),
{
    let n = text.len();
    let mut r: Vec<Vec<u8>> = Vec::new();
    let mut start: usize = 0;
    proof {
        assert(text@.subrange(0, n as int) =~= text@);
        assert(r.deep_view() =~~= Seq::<Seq<u8>>::empty());
        assert(Seq::<Seq<u8>>::empty() + lines_of(text@) =~= lines_of(text@));
    }
    while start < n
        invariant
            0 <= start <= n == text@.len(),
            r.deep_view() + lines_of(text@.subrange(start as int, n as int)) == lines_of(text@),
        decreases n - start,
    {
        let ghost prev = r.deep_view();
        let mut j = start;
        while j < n && *vstd::std_specs::vec::vec_index(text, j) != 10u8
            invariant
                start <= j <= n == text@.len(),
                forall|k: int| start <= k < j ==> text@[k] != 10u8,
            decreases n - j,
        {
            j = j + 1;
        }
        let end = if j < n {
            j + 1
        } else {
            j
        };
        let mut line: Vec<u8> = Vec::new();
        push_subrange(&mut line, text, start, end);
        proof {
            assert(line@ =~= text@.subrange(start as int, end as int));
        }
        r.push(line);
        proof {
            let s = text@.subrange(start as int, n as int);
            lemma_first_nl_scan(s, 0, j - start);
            assert(first_nl_at(s, 0) == if j == n {
                s.len() as int
            } else {
                j - start
            });
            assert(first_line_len(s) == end - start);
            assert(s.subrange(0, end - start) =~= text@.subrange(start as int, end as int));
            assert(s.subrange(end - start, s.len() as int) =~= text@.subrange(
                end as int,
                n as int,
            ));
            assert(lines_of(s) == seq![text@.subrange(start as int, end as int)] + lines_of(
                text@.subrange(end as int, n as int),
            ));
            assert(r.deep_view() =~~= prev.push(text@.subrange(start as int, end as int)));
            assert(r.deep_view() + lines_of(text@.subrange(end as int, n as int)) =~~= prev
                + lines_of(text@.subrange(start as int, n as int)));
        }
        start = end;
    }
    proof {
        assert(lines_of(text@.subrange(start as int, n as int)) =~= Seq::<Seq<u8>>::empty());
        assert(r.deep_view() =~~= r.deep_view() + Seq::<Seq<u8>>::empty());
    }
    r
}

/// How one rendered line relates the two buffers.
#[derive(Clone, Copy, PartialEq, Eq, Structural, Debug)]
pub enum Tag {
    /// The line is present in both buffers.
    Keep,
    /// The line is present only in the old buffer.
    Del,
    /// The line is present only in the new buffer.
    Ins,
}

/// One rendered diff line: a tag and the line's own bytes.
#[derive(Debug)]
pub struct DiffLine {
    pub tag: Tag,
    pub content: Vec<u8>,
}

impl DiffLine {
    /// The line as the contracts see it.
    pub open spec fn model(self) -> (Tag, Seq<u8>) {
        (self.tag, self.content@)
    }
}

/// The length of a longest common subsequence of `a[i..]` and `b[j..]`.
pub open spec fn lcs_len(a: Seq<Seq<u8>>, b: Seq<Seq<u8>>, i: int, j: int) -> int
    decreases a.len() - i, b.len() - j,
{
    if i < 0 || j < 0 || i >= a.len() || j >= b.len() {
        0
    } else if a[i] == b[j] {
        1 + lcs_len(a, b, i + 1, j + 1)
    } else if lcs_len(a, b, i + 1, j) >= lcs_len(a, b, i, j + 1) {
        lcs_len(a, b, i + 1, j)
    } else {
        lcs_len(a, b, i, j + 1)
    }
}

/// The LCS length never exceeds what is left of either side.
pub proof fn lemma_lcs_bound(a: Seq<Seq<u8>>, b: Seq<Seq<u8>>, i: int, j: int)
    ensures
        0 <= lcs_len(a, b, i, j),
        0 <= i <= a.len() && 0 <= j <= b.len() ==> lcs_len(a, b, i, j) <= a.len() - i && lcs_len(
            a,
            b,
            i,
            j,
        ) <= b.len() - j,
    decreases a.len() - i, b.len() - j,
{
    if 0 <= i < a.len() && 0 <= j < b.len() {
        lemma_lcs_bound(a, b, i + 1, j + 1);
        lemma_lcs_bound(a, b, i + 1, j);
        lemma_lcs_bound(a, b, i, j + 1);
    }
}

/// The tagged lines of the diff of `a[i..]` against `b[j..]`: equal heads
/// are kept; otherwise a removal is preferred when it does not shorten the
/// common subsequence, which puts removed lines before added ones.
pub open spec fn diff_walk(a: Seq<Seq<u8>>, b: Seq<Seq<u8>>, i: int, j: int) -> Seq<
    (Tag, Seq<u8>),
>
    decreases a.len() - i, b.len() - j,
{
    if i < 0 || j < 0 || (i >= a.len() && j >= b.len()) {
        Seq::empty()
    } else if i < a.len() && j < b.len() && a[i] == b[j] {
        seq![(Tag::Keep, a[i])] + diff_walk(a, b, i + 1, j + 1)
    } else if i < a.len() && (j >= b.len() || lcs_len(a, b, i + 1, j) >= lcs_len(a, b, i, j + 1)) {
        seq![(Tag::Del, a[i])] + diff_walk(a, b, i + 1, j)
    } else {
        seq![(Tag::Ins, b[j])] + diff_walk(a, b, i, j + 1)
    }
}

/// The lines a rendering claims for the old buffer: kept and removed lines,
/// in order.
pub open spec fn from_old(d: Seq<(Tag, Seq<u8>)>) -> Seq<Seq<u8>>
    decreases d.len(),
{
    if d.len() == 0 {
        Seq::empty()
    } else if d[0].0 is Ins {
        from_old(d.drop_first())
    } else {
        seq![d[0].1] + from_old(d.drop_first())
    }
}

/// The lines a rendering claims for the new buffer: kept and added lines,
/// in order.
pub open spec fn from_new(d: Seq<(Tag, Seq<u8>)>) -> Seq<Seq<u8>>
    decreases d.len(),
{
    if d.len() == 0 {
        Seq::empty()
    } else if d[0].0 is Del {
        from_new(d.drop_first())
    } else {
        seq![d[0].1] + from_new(d.drop_first())
    }
}

/// The diff walk accounts for every line of both buffers exactly: its kept
/// and removed lines are the old buffer's lines in order, and its kept and
/// added lines are the new buffer's lines in order. The removed lines are
/// therefore exactly the old lines not kept at their position, and the
/// added lines the complement in the new buffer.
pub proof fn lemma_walk_covers(a: Seq<Seq<u8>>, b: Seq<Seq<u8>>, i: int, j: int)
    requires
        0 <= i <= a.len(),
        0 <= j <= b.len(),
    ensures
        from_old(diff_walk(a, b, i, j)) == a.subrange(i, a.len() as int),
        from_new(diff_walk(a, b, i, j)) == b.subrange(j, b.len() as int),
    decreases a.len() - i, b.len() - j,
{
    let d = diff_walk(a, b, i, j);
    if i >= a.len() && j >= b.len() {
        assert(from_old(d) =~= a.subrange(i, a.len() as int));
        assert(from_new(d) =~= b.subrange(j, b.len() as int));
    } else if i < a.len() && j < b.len() && a[i] == b[j] {
        lemma_walk_covers(a, b, i + 1, j + 1);
        let rest = diff_walk(a, b, i + 1, j + 1);
        assert(d.drop_first() =~= rest);
        assert(from_old(d) =~= seq![a[i]] + from_old(rest));
        assert(from_old(d) =~= a.subrange(i, a.len() as int));
        assert(from_new(d) =~= seq![b[j]] + from_new(rest));
        assert(from_new(d) =~= b.subrange(j, b.len() as int));
    } else if i < a.len() && (j >= b.len() || lcs_len(a, b, i + 1, j) >= lcs_len(a, b, i, j + 1)) {
        lemma_walk_covers(a, b, i + 1, j);
        let rest = diff_walk(a, b, i + 1, j);
        assert(d.drop_first() =~= rest);
        assert(from_old(d) =~= seq![a[i]] + from_old(rest));
        assert(from_old(d) =~= a.subrange(i, a.len() as int));
        assert(from_new(d) =~= from_new(rest));
        assert(from_new(d) =~= b.subrange(j, b.len() as int));
    } else {
        lemma_walk_covers(a, b, i, j + 1);
        let rest = diff_walk(a, b, i, j + 1);
        assert(d.drop_first() =~= rest);
        assert(from_old(d) =~= from_old(rest));
        assert(from_old(d) =~= a.subrange(i, a.len() as int));
        assert(from_new(d) =~= seq![b[j]] + from_new(rest));
        assert(from_new(d) =~= b.subrange(j, b.len() as int));
    }
}

/// The marker byte a tag is rendered with.
pub open spec fn sign_byte(t: Tag) -> u8 {
    match t {
        Tag::Keep => 32u8,
        Tag::Del => 45u8,
        Tag::Ins => 43u8,
    }
}

/// The rendered diff text: each tagged line as its marker byte followed by
/// the line's own bytes, terminator included.
pub open spec fn render_spec(d: Seq<(Tag, Seq<u8>)>) -> Seq<u8>
    decreases d.len(),
{
    if d.len() == 0 {
        Seq::empty()
    } else {
        seq![sign_byte(d[0].0)] + d[0].1 + render_spec(d.drop_first())
    }
}

/// Rendering one more line appends its marker and bytes.
proof fn lemma_render_push(d: Seq<(Tag, Seq<u8>)>, x: (Tag, Seq<u8>))
    ensures
        render_spec(d.push(x)) == render_spec(d) + seq![sign_byte(x.0)] + x.1,
    decreases d.len(),
{
    if d.len() == 0 {
        assert(d.push(x)[0] == x);
        assert(d.push(x).drop_first() =~~= d);
        assert(render_spec(d.push(x)) == seq![sign_byte(x.0)] + x.1 + render_spec(d));
        assert(render_spec(d) =~= Seq::<u8>::empty());
        assert(render_spec(d.push(x)) =~= render_spec(d) + seq![sign_byte(x.0)] + x.1);
    } else {
        lemma_render_push(d.drop_first(), x);
        assert(d.push(x).drop_first() =~~= d.drop_first().push(x));
        assert(d.push(x)[0] == d[0]);
        assert(render_spec(d.push(x)) =~= render_spec(d) + seq![sign_byte(x.0)] + x.1);
    }
}

/// The diff of two buffers accounts for both of them exactly: its kept and
/// removed lines are the old buffer's lines, in order, and its kept and
/// added lines are the new buffer's lines, in order. Equivalently, the
/// removed lines are exactly the old lines not kept at their position in
/// the new buffer, and the added lines are the complement in the new one.
pub proof fn lemma_diff_covers_both(old: Seq<u8>, new: Seq<u8>)
    ensures
        from_old(diff_walk(lines_of(old), lines_of(new), 0, 0)) == lines_of(old),
        from_new(diff_walk(lines_of(old), lines_of(new), 0, 0)) == lines_of(new),
{
    lemma_walk_covers(lines_of(old), lines_of(new), 0, 0);
    assert(lines_of(old).subrange(0, lines_of(old).len() as int) =~~= lines_of(old));
    assert(lines_of(new).subrange(0, lines_of(new).len() as int) =~~= lines_of(new));
}

/// Compares two byte vectors.
pub fn vec_u8_eq(a: &Vec<u8>, b: &Vec<u8>) -> (r: bool)
    ensures
        r == (a@ == b@),
{
    if a.len() != b.len() {
        return false;
    }
    let n = a.len();
    let mut i: usize = 0;
    while i < n
        invariant
            0 <= i <= n,
            n == a@.len() == b@.len(),
            forall|k: int| 0 <= k < i ==> a@[k] == b@[k],
        decreases n - i,
    {
        if *vstd::std_specs::vec::vec_index(a, i) != *vstd::std_specs::vec::vec_index(b, i) {
            return false;
        }
        i = i + 1;
    }
    proof {
        assert(a@ =~= b@);
    }
    true
}

/// The table rows hold the LCS lengths for every position from `lo`
/// upwards: `table[r][c] == lcs_len(av, bv, lo + r, c)`.
pub open spec fn table_ok(table: Vec<Vec<usize>>, av: Seq<Seq<u8>>, bv: Seq<Seq<u8>>, lo: int) -> bool {
    &&& table@.len() == av.len() - lo
    &&& forall|r: int| 0 <= r < table@.len() ==> (#[trigger] table@[r])@.len() == bv.len()
    &&& forall|r: int, c: int|
        0 <= r < table@.len() && 0 <= c < bv.len() ==> (#[trigger] table@[r]@[c]) == lcs_len(
            av,
            bv,
            lo + r,
            c,
        )
}

/// Computes the tagged diff lines of `a` against `b`, exactly as the diff
/// walk defines them: a dynamic-programming pass fills the LCS table, and a
/// backtracking pass follows it, preferring kept lines, then removals.
pub fn diff_lines(a: &Vec<Vec<u8>>, b: &Vec<Vec<u8>>) -> (r: Vec<DiffLine>)
    ensures
        r@.map(|k: int, d: DiffLine| d.model()) == diff_walk(a.deep_view(), b.deep_view(), 0, 0),
{
    let ghost av = a.deep_view();
    let ghost bv = b.deep_view();
    let n = a.len();
    let m = b.len();
    proof {
        assert(av.len() == n && bv.len() == m);
        assert(forall|i: int| 0 <= i < n ==> av[i] =~= (#[trigger] a@[i])@);
        assert(forall|j: int| 0 <= j < m ==> bv[j] =~= (#[trigger] b@[j])@);
    }
    let mut table: Vec<Vec<usize>> = Vec::new();
    let mut ii = n;
    while ii > 0
        invariant
            0 <= ii <= n == a@.len() && m == b@.len(),
            av == a.deep_view() && bv == b.deep_view(),
            forall|i: int| 0 <= i < n ==> av[i] == (#[trigger] a@[i])@,
            forall|j: int| 0 <= j < m ==> bv[j] == (#[trigger] b@[j])@,
            table_ok(table, av, bv, ii as int),
        decreases ii,
    {
        let i = ii - 1;
        let mut row: Vec<usize> = Vec::new();
        let mut jj = m;
        while jj > 0
            invariant
                0 <= jj <= m == b@.len() && n == a@.len(),
                0 <= i < n,
                ii == i + 1,
                av == a.deep_view() && bv == b.deep_view(),
                forall|i2: int| 0 <= i2 < n ==> av[i2] == (#[trigger] a@[i2])@,
                forall|j2: int| 0 <= j2 < m ==> bv[j2] == (#[trigger] b@[j2])@,
                table_ok(table, av, bv, ii as int),
                row@.len() == m - jj,
                forall|t: int|
                    0 <= t < row@.len() ==> #[trigger] row@[t] == lcs_len(av, bv, i as int, jj + t),
            decreases jj,
        {
            let j = jj - 1;
            proof {
                lemma_lcs_bound(av, bv, i + 1, j as int);
                lemma_lcs_bound(av, bv, i as int, j + 1);
                lemma_lcs_bound(av, bv, i + 1, j + 1);
            }
            let down_right: usize = if ii < n && jj < m {
                *vstd::std_specs::vec::vec_index(
                    vstd::std_specs::vec::vec_index(&table, 0),
                    jj,
                )
            } else {
                0
            };
            let down: usize = if ii < n {
                *vstd::std_specs::vec::vec_index(vstd::std_specs::vec::vec_index(&table, 0), j)
            } else {
                0
            };
            let right: usize = if jj < m {
                *vstd::std_specs::vec::vec_index(&row, 0)
            } else {
                0
            };
            proof {
                assert(down_right == lcs_len(av, bv, i + 1, j + 1));
                assert(down == lcs_len(av, bv, i + 1, j as int));
                assert(right == lcs_len(av, bv, i as int, j + 1));
            }
            let val: usize = if vec_u8_eq(
                vstd::std_specs::vec::vec_index(a, i),
                vstd::std_specs::vec::vec_index(b, j),
            ) {
                1 + down_right
            } else if down >= right {
                down
            } else {
                right
            };
            proof {
                assert(val == lcs_len(av, bv, i as int, j as int));
            }
            let ghost prev_row = row@;
            row.insert(0, val);
            proof {
                assert(row@ =~= seq![val] + prev_row);
            }
            jj = j;
        }
        table.insert(0, row);
        proof {
            assert(table_ok(table, av, bv, i as int));
        }
        ii = i;
    }
    let mut out: Vec<DiffLine> = Vec::new();
    let mut i: usize = 0;
    let mut j: usize = 0;
    proof {
        assert(out@.map(|k: int, d: DiffLine| d.model()) =~= Seq::<(Tag, Seq<u8>)>::empty());
        assert(Seq::<(Tag, Seq<u8>)>::empty() + diff_walk(av, bv, 0, 0) =~= diff_walk(
            av,
            bv,
            0,
            0,
        ));
    }
    while i < n || j < m
        invariant
            0 <= i <= n == a@.len(),
            0 <= j <= m == b@.len(),
            av == a.deep_view() && bv == b.deep_view(),
            forall|i2: int| 0 <= i2 < n ==> av[i2] == (#[trigger] a@[i2])@,
            forall|j2: int| 0 <= j2 < m ==> bv[j2] == (#[trigger] b@[j2])@,
            table_ok(table, av, bv, 0),
            out@.map(|k: int, d: DiffLine| d.model()) + diff_walk(av, bv, i as int, j as int)
                == diff_walk(av, bv, 0, 0),
        decreases n - i + m - j,
    {
        let ghost prev = out@.map(|k: int, d: DiffLine| d.model());
        let keep: bool = i < n && j < m && vec_u8_eq(
            vstd::std_specs::vec::vec_index(a, i),
            vstd::std_specs::vec::vec_index(b, j),
        );
        if keep {
            let mut content: Vec<u8> = Vec::new();
            push_all(&mut content, vstd::std_specs::vec::vec_index(a, i));
            proof {
                assert(content@ =~= av[i as int]);
            }
            out.push(DiffLine { tag: Tag::Keep, content });
            proof {
                assert(diff_walk(av, bv, i as int, j as int) == seq![(Tag::Keep, av[i as int])]
                    + diff_walk(av, bv, i + 1, j + 1));
                assert(out@.map(|k: int, d: DiffLine| d.model()) =~~= prev.push(
                    (Tag::Keep, av[i as int]),
                ));
                assert(out@.map(|k: int, d: DiffLine| d.model()) + diff_walk(av, bv, i + 1, j + 1)
                    =~~= prev + diff_walk(av, bv, i as int, j as int));
            }
            i = i + 1;
            j = j + 1;
        } else {
            let down: usize = if i < n && i + 1 < n && j < m {
                *vstd::std_specs::vec::vec_index(
                    vstd::std_specs::vec::vec_index(&table, i + 1),
                    j,
                )
            } else {
                0
            };
            let right: usize = if i < n && j < m && j + 1 < m {
                *vstd::std_specs::vec::vec_index(
                    vstd::std_specs::vec::vec_index(&table, i),
                    j + 1,
                )
            } else {
                0
            };
            if i < n && (j >= m || down >= right) {
                proof {
                    if j < m {
                        assert(down == lcs_len(av, bv, i + 1, j as int));
                        assert(right == lcs_len(av, bv, i as int, j + 1));
                    } else {
                        lemma_lcs_bound(av, bv, i + 1, j as int);
                        lemma_lcs_bound(av, bv, i as int, j + 1);
                    }
                }
                let mut content: Vec<u8> = Vec::new();
                push_all(&mut content, vstd::std_specs::vec::vec_index(a, i));
                proof {
                    assert(content@ =~= av[i as int]);
                }
                out.push(DiffLine { tag: Tag::Del, content });
                proof {
                    assert(diff_walk(av, bv, i as int, j as int) == seq![(Tag::Del, av[i as int])]
                        + diff_walk(av, bv, i + 1, j as int));
                    assert(out@.map(|k: int, d: DiffLine| d.model()) =~~= prev.push(
                        (Tag::Del, av[i as int]),
                    ));
                    assert(out@.map(|k: int, d: DiffLine| d.model()) + diff_walk(
                        av,
                        bv,
                        i + 1,
                        j as int,
                    ) =~~= prev + diff_walk(av, bv, i as int, j as int));
                }
                i = i + 1;
            } else {
                proof {
                    if i < n {
                        assert(down == lcs_len(av, bv, i + 1, j as int));
                        assert(right == lcs_len(av, bv, i as int, j + 1));
                    }
                    assert(j < m);
                }
                let mut content: Vec<u8> = Vec::new();
                push_all(&mut content, vstd::std_specs::vec::vec_index(b, j));
                proof {
                    assert(content@ =~= bv[j as int]);
                }
                out.push(DiffLine { tag: Tag::Ins, content });
                proof {
                    assert(diff_walk(av, bv, i as int, j as int) == seq![(Tag::Ins, bv[j as int])]
                        + diff_walk(av, bv, i as int, j + 1));
                    assert(out@.map(|k: int, d: DiffLine| d.model()) =~~= prev.push(
                        (Tag::Ins, bv[j as int]),
                    ));
                    assert(out@.map(|k: int, d: DiffLine| d.model()) + diff_walk(
                        av,
                        bv,
                        i as int,
                        j + 1,
                    ) =~~= prev + diff_walk(av, bv, i as int, j as int));
                }
                j = j + 1;
            }
        }
    }
    proof {
        assert(diff_walk(av, bv, i as int, j as int) =~~= Seq::<(Tag, Seq<u8>)>::empty());
        assert(out@.map(|k: int, d: DiffLine| d.model()) =~~= out@.map(
            |k: int, d: DiffLine| d.model(),
        ) + Seq::<(Tag, Seq<u8>)>::empty());
    }
    out
}

/// Renders tagged diff lines as bytes: one marker byte, then the line.
pub fn render_diff(lines: &Vec<DiffLine>) -> (r: Vec<u8>)
    ensures
        r@ == render_spec(lines@.map(|k: int, d: DiffLine| d.model())),
{
    let ghost model = lines@.map(|k: int, d: DiffLine| d.model());
    let mut out: Vec<u8> = Vec::new();
    let mut idx: usize = 0;
    proof {
        assert(model.subrange(0, 0) =~~= Seq::<(Tag, Seq<u8>)>::empty());
        assert(out@ =~= render_spec(model.subrange(0, 0)));
    }
    while idx < lines.len()
        invariant
            0 <= idx <= lines@.len(),
            model == lines@.map(|k: int, d: DiffLine| d.model()),
            out@ == render_spec(model.subrange(0, idx as int)),
        decreases lines@.len() - idx,
    {
        let line = vstd::std_specs::vec::vec_index(lines, idx);
        let sign: u8 = match line.tag {
            Tag::Keep => 32u8,
            Tag::Del => 45u8,
            Tag::Ins => 43u8,
        };
        out.push(sign);
        push_all(&mut out, &line.content);
        proof {
            let pre = model.subrange(0, idx as int);
            lemma_render_push(pre, model[idx as int]);
            assert(model.subrange(0, idx + 1 as int) =~~= pre.push(model[idx as int]));
            assert(model[idx as int] == (line.tag, line.content@));
            assert(out@ =~= render_spec(pre) + seq![sign_byte(line.tag)] + line.content@);
        }
        idx = idx + 1;
    }
    proof {
        assert(model.subrange(0, model.len() as int) =~~= model);
    }
    out
}

/// Produces a rendered line diff of `new` against `old`, or nothing when
/// the buffers are equal. When the buffers differ the rendering is the diff
/// walk over their lines, rendered line by line, and is never empty.
pub fn generate_diff(old: &Vec<u8>, new: &Vec<u8>) -> (r: Option<Vec<u8>>)
    ensures
        (r is None) == (old@ == new@),
        r matches Some(d) ==> d@ == render_spec(
            diff_walk(lines_of(old@), lines_of(new@), 0, 0),
        ) && d@.len() > 0,
{
    if vec_u8_eq(old, new) {
        return None;
    }
    let a = split_lines(old);
    let b = split_lines(new);
    let tagged = diff_lines(&a, &b);
    let out = render_diff(&tagged);
    proof {
        if lines_of(old@).len() == 0 && lines_of(new@).len() == 0 {
            assert(lines_of(old@) =~~= lines_of(new@));
            lemma_lines_injective(old@, new@);
        }
        assert(diff_walk(lines_of(old@), lines_of(new@), 0, 0).len() > 0);
        assert(out@.len() > 0);
    }
    Some(out)
}

} // verus!
