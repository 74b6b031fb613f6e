//! Input sources: how a run receives its items.
//!
//! Reading from disk or a pipe is the caller's business: an item arrives
//! here either as raw standing text or as a path paired with the outcome of
//! the caller's read (the bytes, or the read error's description). The types
//! mirroring a search tool's structured output stream are plain data; the
//! caller parses the stream and converts.

use vstd::prelude::*;
use vstd::string::StringExecFns;

verus! {

/// Where the items of a run come from.
#[derive(Debug)]
pub enum InputMode {
    /// Paths given directly; if none, the caller may fall back to reading
    /// newline-delimited paths from its standard input.
    Auto(Vec<String>),
    /// Newline-delimited paths read from standard input.
    StdinPathsNewline,
    /// NUL-delimited paths read from standard input.
    StdinPathsNul,
    /// Standing text read from standard input.
    StdinText,
    /// A search tool's structured output read from standard input.
    RipgrepJson,
}

/// The argument flags that select an input mode.
#[derive(Debug)]
pub struct ApplyArgs {
    pub files: Vec<String>,
    pub stdin_paths: bool,
    pub files0: bool,
    pub stdin_text: bool,
    pub rg_json: bool,
}

/// One input item, consumed exactly once by the execution engine.
#[derive(Debug)]
pub enum InputItem {
    /// A filesystem target: its path, and the caller's read of it — the
    /// content bytes, or the read error's description.
    Path { path: String, content: Result<Vec<u8>, String> },
    /// Raw standing text (piped content).
    StdinText { text: Vec<u8> },
}

/// Selects the input mode from the argument flags: standing text wins, then
/// the search-tool stream, then NUL-delimited paths, then newline-delimited
/// paths, then the paths given directly.
pub fn resolve_input_mode(args: &ApplyArgs) -> (r: InputMode)
    ensures
        args.stdin_text ==> r is StdinText,
        !args.stdin_text && args.rg_json ==> r is RipgrepJson,
        !args.stdin_text && !args.rg_json && args.files0 ==> r is StdinPathsNul,
        !args.stdin_text && !args.rg_json && !args.files0 && args.stdin_paths
            ==> r is StdinPathsNewline,
        !args.stdin_text && !args.rg_json && !args.files0 && !args.stdin_paths ==> (r matches
            InputMode::Auto(fs) && fs.deep_view() == args.files.deep_view()),
{
    if args.stdin_text {
        InputMode::StdinText
    } else if args.rg_json {
        InputMode::RipgrepJson
    } else if args.files0 {
        InputMode::StdinPathsNul
    } else if args.stdin_paths {
        InputMode::StdinPathsNewline
    } else {
        InputMode::Auto(clone_strings(&args.files))
    }
}

/// Copies a list of strings.
fn clone_strings(v: &Vec<String>) -> (r: Vec<String>)
    ensures
        r.deep_view() == v.deep_view(),
{
    let mut r: Vec<String> = Vec::new();
    let n = v.len();
    let mut i: usize = 0;
    while i < n
        invariant
            0 <= i <= n == v@.len(),
            r@.len() == i,
            forall|k: int| 0 <= k < i ==> (#[trigger] r@[k])@ == v@[k]@,
        decreases n - i,
    {
        let s = String::from_str(vstd::std_specs::vec::vec_index(v, i).as_str());
        r.push(s);
        i = i + 1;
    }
    proof {
        assert(r.deep_view() =~~= v.deep_view());
    }
    r
}

/// A whitespace byte, as path-line trimming sees it. Trimming is
/// deliberately byte-level and ASCII-only: a path is a byte string here,
/// and only the ASCII whitespace bytes are stripped from its edges; bytes
/// that encode other Unicode whitespace are kept as part of the path.
pub open spec fn is_ascii_ws(b: u8) -> bool {
    b == 32u8 || b == 9u8 || b == 10u8 || b == 11u8 || b == 12u8 || b == 13u8
}

/// The first position at or after `pos` holding `delim`, or the length.
pub open spec fn first_delim_at(data: Seq<u8>, delim: u8, pos: int) -> int
    decreases data.len() - pos,
{
    if pos < 0 || pos >= data.len() {
        data.len() as int
    } else if data[pos] == delim {
        pos
    } else {
        first_delim_at(data, delim, pos + 1)
    }
}

/// The number of leading whitespace bytes.
pub open spec fn ws_prefix(s: Seq<u8>) -> int
    decreases s.len(),
{
    if s.len() == 0 || !is_ascii_ws(s[0]) {
        0
    } else {
        1 + ws_prefix(s.drop_first())
    }
}

/// The position where the trailing whitespace begins (the length when there
/// is none).
pub open spec fn ws_suffix_start(s: Seq<u8>) -> int
    decreases s.len(),
{
    if s.len() == 0 || !is_ascii_ws(s[s.len() - 1]) {
        s.len() as int
    } else {
        ws_suffix_start(s.drop_last())
    }
}

/// Both trim positions stay within the segment.
pub proof fn lemma_ws_bounds(s: Seq<u8>)
    ensures
        0 <= ws_prefix(s) <= s.len(),
        0 <= ws_suffix_start(s) <= s.len(),
    decreases s.len(),
{
    if s.len() > 0 {
        lemma_ws_bounds(s.drop_first());
        lemma_ws_bounds(s.drop_last());
    }
}

/// The segment with its leading and trailing whitespace removed.
pub open spec fn trim_seg(s: Seq<u8>) -> Seq<u8> {
    let a = ws_prefix(s);
    let b = ws_suffix_start(s);
    if 0 <= a <= b <= s.len() {
        s.subrange(a, b)
    } else {
        Seq::empty()
    }
}

/// The paths of newline-delimited input: one per line, trimmed of
/// whitespace, with empty results dropped.
pub open spec fn path_lines_spec(data: Seq<u8>) -> Seq<Seq<u8>>
    decreases data.len(),
{
    if data.len() == 0 {
        Seq::empty()
    } else {
        let k0 = first_delim_at(data, 10u8, 0);
        let k = if 0 <= k0 && k0 <= data.len() {
            k0
        } else {
            data.len() as int
        };
        let head = trim_seg(data.subrange(0, k));
        let rest = if k < data.len() {
            data.subrange(k + 1, data.len() as int)
        } else {
            Seq::empty()
        };
        (if head.len() == 0 {
            Seq::empty()
        } else {
            seq![head]
        }) + path_lines_spec(rest)
    }
}

/// The paths of NUL-delimited input: the segments between NUL bytes, with
/// empty segments dropped.
pub open spec fn nul_paths_spec(data: Seq<u8>) -> Seq<Seq<u8>>
    decreases data.len(),
{
    if data.len() == 0 {
        Seq::empty()
    } else {
        let k0 = first_delim_at(data, 0u8, 0);
        let k = if 0 <= k0 && k0 <= data.len() {
            k0
        } else {
            data.len() as int
        };
        let head = data.subrange(0, k);
        let rest = if k < data.len() {
            data.subrange(k + 1, data.len() as int)
        } else {
            Seq::empty()
        };
        (if head.len() == 0 {
            Seq::empty()
        } else {
            seq![head]
        }) + nul_paths_spec(rest)
    }
}

/// A scan that found no `delim` in `data[pos..j]`, and `delim` or the end
/// at `j`, has found `first_delim_at(data, delim, pos)`.
proof fn lemma_first_delim_scan(data: Seq<u8>, delim: u8, pos: int, j: int)
    requires
        0 <= pos <= j <= data.len(),
        forall|k: int| pos <= k < j ==> data[k] != delim,
        j == data.len() || data[j] == delim,
    ensures
        first_delim_at(data, delim, pos) == if j == data.len() {
            data.len() as int
        } else {
            j
        },
    decreases j - pos,
{
    if pos < j {
        lemma_first_delim_scan(data, delim, pos + 1, j);
    }
}

/// A scan that found whitespace everywhere in `s[..a]`, and a non-blank or
/// the end at `a`, has found `ws_prefix(s)`.
proof fn lemma_ws_prefix_scan(s: Seq<u8>, a: int)
    requires
        0 <= a <= s.len(),
        forall|k: int| 0 <= k < a ==> is_ascii_ws(s[k]),
        a == s.len() || !is_ascii_ws(s[a]),
    ensures
        ws_prefix(s) == a,
    decreases a,
{
    if a == 0 {
    } else {
        assert(is_ascii_ws(s[0]));
        let d = s.drop_first();
        assert(forall|k: int| 0 <= k < a - 1 ==> is_ascii_ws(#[trigger] d[k]));
        assert(a - 1 == d.len() || !is_ascii_ws(d[a - 1]));
        lemma_ws_prefix_scan(d, a - 1);
    }
}

/// A scan that found whitespace everywhere in `s[b..]`, and a non-blank or
/// the start at `b`, has found `ws_suffix_start(s)`.
proof fn lemma_ws_suffix_scan(s: Seq<u8>, b: int)
    requires
        0 <= b <= s.len(),
        forall|k: int| b <= k < s.len() ==> is_ascii_ws(s[k]),
        b == 0 || !is_ascii_ws(s[b - 1]),
    ensures
        ws_suffix_start(s) == b,
    decreases s.len(),
{
    if b == s.len() {
    } else {
        assert(is_ascii_ws(s[s.len() - 1]));
        let d = s.drop_last();
        assert(forall|k: int| b <= k < d.len() ==> is_ascii_ws(#[trigger] d[k]));
        lemma_ws_suffix_scan(d, b);
    }
}

/// Parses newline-delimited path input: one path per line, trimmed of
/// leading and trailing ASCII whitespace bytes (see `is_ascii_ws`), blank
/// lines dropped. The caller turns each segment into its path type.
pub fn parse_path_lines(data: &Vec<u8>) -> (r: Vec<Vec<u8>>)
    ensures
        r.deep_view() == path_lines_spec(data@),
{
    let n = data.len();
    let mut r: Vec<Vec<u8>> = Vec::new();
    let mut start: usize = 0;
    proof {
        assert(data@.subrange(0, n as int) =~= data@);
        assert(r.deep_view() =~~= Seq::<Seq<u8>>::empty());
        assert(Seq::<Seq<u8>>::empty() + path_lines_spec(data@) =~= path_lines_spec(data@));
    }
    while start < n
        invariant
            0 <= start <= n == data@.len(),
            r.deep_view() + path_lines_spec(data@.subrange(start as int, n as int))
                == path_lines_spec(data@),
        decreases n - start,
    {
        let ghost prev = r.deep_view();
        let mut j = start;
        while j < n && *vstd::std_specs::vec::vec_index(data, j) != 10u8
            invariant
                start <= j <= n == data@.len(),
                forall|k: int| start <= k < j ==> data@[k] != 10u8,
            decreases n - j,
        {
            j = j + 1;
        }
        let mut a = start;
        while a < j && is_ws_byte(*vstd::std_specs::vec::vec_index(data, a))
            invariant
                start <= a <= j <= n == data@.len(),
                forall|k: int| start <= k < a ==> is_ascii_ws(data@[k]),
            decreases j - a,
        {
            a = a + 1;
        }
        let mut b = j;
        while b > a && is_ws_byte(*vstd::std_specs::vec::vec_index(data, b - 1))
            invariant
                a <= b <= j <= n == data@.len(),
                forall|k: int| b <= k < j ==> is_ascii_ws(data@[k]),
            decreases b - a,
        {
            b = b - 1;
        }
        proof {
            let s = data@.subrange(start as int, n as int);
            lemma_first_delim_scan(s, 10u8, 0, j - start);
            let seg = data@.subrange(start as int, j as int);
            assert(s.subrange(0, j - start) =~= seg);
            if a < b {
                lemma_ws_prefix_scan(seg, a - start);
                lemma_ws_suffix_scan(seg, b - start);
                assert(trim_seg(seg) =~= data@.subrange(a as int, b as int));
            } else {
                lemma_ws_prefix_scan(seg, seg.len() as int);
                lemma_ws_bounds(seg);
                assert(trim_seg(seg).len() == 0);
            }
            assert(path_lines_spec(s) == (if trim_seg(seg).len() == 0 {
                Seq::<Seq<u8>>::empty()
            } else {
                seq![trim_seg(seg)]
            }) + path_lines_spec(if j < n {
                data@.subrange(j + 1, n as int)
            } else {
                Seq::empty()
            })) by {
                if j < n {
                    assert(s.subrange(j - start + 1, s.len() as int) =~= data@.subrange(
                        j + 1,
                        n as int,
                    ));
                }
            }
        }
        if a < b {
            let mut seg: Vec<u8> = Vec::new();
            crate::matching::push_subrange(&mut seg, data, a, b);
            proof {
                assert(seg@ =~= data@.subrange(a as int, b as int));
            }
            r.push(seg);
            proof {
                assert(r.deep_view() =~~= prev.push(data@.subrange(a as int, b as int)));
            }
        }
        let next = if j < n {
            j + 1
        } else {
            j
        };
        proof {
            if j == n {
                assert(data@.subrange(next as int, n as int) =~= Seq::<u8>::empty());
                assert(path_lines_spec(data@.subrange(next as int, n as int))
                    =~~= Seq::<Seq<u8>>::empty());
            }
            assert(r.deep_view() + path_lines_spec(data@.subrange(next as int, n as int)) =~~= prev
                + path_lines_spec(data@.subrange(start as int, n as int)));
        }
        start = next;
    }
    proof {
        assert(path_lines_spec(data@.subrange(start as int, n as int)) =~~= Seq::<
            Seq<u8>,
        >::empty());
        assert(r.deep_view() =~~= r.deep_view() + Seq::<Seq<u8>>::empty());
    }
    r
}

/// Parses NUL-delimited path input: the segments between NUL bytes, empty
/// segments dropped. The caller turns each segment into its path type.
pub fn parse_nul_paths(data: &Vec<u8>) -> (r: Vec<Vec<u8>>)
    ensures
        r.deep_view() == nul_paths_spec(data@),
{
    let n = data.len();
    let mut r: Vec<Vec<u8>> = Vec::new();
    let mut start: usize = 0;
    proof {
        assert(data@.subrange(0, n as int) =~= data@);
        assert(r.deep_view() =~~= Seq::<Seq<u8>>::empty());
        assert(Seq::<Seq<u8>>::empty() + nul_paths_spec(data@) =~= nul_paths_spec(data@));
    }
    while start < n
        invariant
            0 <= start <= n == data@.len(),
            r.deep_view() + nul_paths_spec(data@.subrange(start as int, n as int))
                == nul_paths_spec(data@),
        decreases n - start,
    {
        let ghost prev = r.deep_view();
        let mut j = start;
        while j < n && *vstd::std_specs::vec::vec_index(data, j) != 0u8
            invariant
                start <= j <= n == data@.len(),
                forall|k: int| start <= k < j ==> data@[k] != 0u8,
            decreases n - j,
        {
            j = j + 1;
        }
        proof {
            let s = data@.subrange(start as int, n as int);
            lemma_first_delim_scan(s, 0u8, 0, j - start);
            assert(s.subrange(0, j - start) =~= data@.subrange(start as int, j as int));
            assert(nul_paths_spec(s) == (if j == start {
                Seq::<Seq<u8>>::empty()
            } else {
                seq![data@.subrange(start as int, j as int)]
            }) + nul_paths_spec(if j < n {
                data@.subrange(j + 1, n as int)
            } else {
                Seq::empty()
            })) by {
                if j < n {
                    assert(s.subrange(j - start + 1, s.len() as int) =~= data@.subrange(
                        j + 1,
                        n as int,
                    ));
                }
            }
        }
        if j > start {
            let mut seg: Vec<u8> = Vec::new();
            crate::matching::push_subrange(&mut seg, data, start, j);
            proof {
                assert(seg@ =~= data@.subrange(start as int, j as int));
            }
            r.push(seg);
            proof {
                assert(r.deep_view() =~~= prev.push(data@.subrange(start as int, j as int)));
            }
        }
        let next = if j < n {
            j + 1
        } else {
            j
        };
        proof {
            if j == n {
                assert(data@.subrange(next as int, n as int) =~= Seq::<u8>::empty());
                assert(nul_paths_spec(data@.subrange(next as int, n as int)) =~~= Seq::<
                    Seq<u8>,
                >::empty());
            }
            assert(r.deep_view() + nul_paths_spec(data@.subrange(next as int, n as int)) =~~= prev
                + nul_paths_spec(data@.subrange(start as int, n as int)));
        }
        start = next;
    }
    proof {
        assert(nul_paths_spec(data@.subrange(start as int, n as int)) =~~= Seq::<Seq<u8>>::empty());
        assert(r.deep_view() =~~= r.deep_view() + Seq::<Seq<u8>>::empty());
    }
    r
}

/// Whether a byte is whitespace, as line trimming sees it.
fn is_ws_byte(b: u8) -> (r: bool)
    ensures
        r == is_ascii_ws(b),
{
    b == 32u8 || b == 9u8 || b == 10u8 || b == 11u8 || b == 12u8 || b == 13u8
}

/// One message of the search tool's structured output stream.
pub enum RgMessage {
    Match {
        path: RgPath,
        lines: RgLines,
        line_number: Option<u64>,
        absolute_offset: u64,
        submatches: Vec<RgSubmatch>,
    },
    Begin { path: RgPath },
    End { path: RgPath, binary_offset: Option<u64>, stats: RgStats },
    Summary { elapsed_total: RgDuration, stats: RgStats },
}

/// A path carried by a search-tool message.
pub struct RgPath {
    pub text: String,
}

/// The matched lines carried by a search-tool message.
pub struct RgLines {
    pub text: String,
}

/// One submatch span within a matched line.
pub struct RgSubmatch {
    pub match_text: String,
    pub start: usize,
    pub end: usize,
}

/// Search statistics carried by end and summary messages.
pub struct RgStats {
    pub elapsed: RgDuration,
    pub searches: u64,
    pub searches_with_match: u64,
    pub matches: u64,
    pub matched_lines: u64,
}

/// A duration as the search tool reports it.
pub struct RgDuration {
    pub secs: u64,
    pub nanos: u64,
    pub human: String,
}

/// The paths of the messages that begin a file's match block, in stream
/// order.
pub open spec fn begin_paths(msgs: Seq<RgMessage>) -> Seq<Seq<char>>
    decreases msgs.len(),
{
    if msgs.len() == 0 {
        Seq::empty()
    } else {
        (match msgs[0] {
            RgMessage::Begin { path } => seq![path.text@],
            _ => Seq::empty(),
        }) + begin_paths(msgs.drop_first())
    }
}

/// Collects the path of every message that begins a file's match block, in
/// stream order. The caller orders and deduplicates them as its input
/// collection requires.
pub fn rg_begin_paths(msgs: &Vec<RgMessage>) -> (r: Vec<String>)
    ensures
        r.deep_view() == begin_paths(msgs@),
{
    let n = msgs.len();
    let mut r: Vec<String> = Vec::new();
    let mut i: usize = 0;
    proof {
        assert(msgs@.subrange(0, n as int) =~= msgs@);
        assert(r.deep_view() =~~= Seq::<Seq<char>>::empty());
        assert(Seq::<Seq<char>>::empty() + begin_paths(msgs@) =~= begin_paths(msgs@));
    }
    while i < n
        invariant
            0 <= i <= n == msgs@.len(),
            r.deep_view() + begin_paths(msgs@.subrange(i as int, n as int)) == begin_paths(msgs@),
        decreases n - i,
    {
        let ghost prev = r.deep_view();
        let ghost s = msgs@.subrange(i as int, n as int);
        proof {
            assert(s[0] == msgs@[i as int]);
            assert(s.drop_first() =~~= msgs@.subrange(i + 1, n as int));
        }
        match vstd::std_specs::vec::vec_index(msgs, i) {
            RgMessage::Begin { path } => {
                r.push(String::from_str(path.text.as_str()));
                proof {
                    assert(r.deep_view() =~~= prev.push(path.text@));
                }
            },
            _ => {
            },
        }
        proof {
            assert(r.deep_view() + begin_paths(msgs@.subrange(i + 1, n as int)) =~~= prev
                + begin_paths(msgs@.subrange(i as int, n as int)));
        }
        i = i + 1;
    }
    proof {
        assert(begin_paths(msgs@.subrange(i as int, n as int)) =~~= Seq::<Seq<char>>::empty());
        assert(r.deep_view() =~~= r.deep_view() + Seq::<Seq<char>>::empty());
    }
    r
}

/// Strict byte-lexicographic order.
pub open spec fn bytes_lex_lt(a: Seq<u8>, b: Seq<u8>) -> bool
    decreases a.len(),
{
    if b.len() == 0 {
        false
    } else if a.len() == 0 {
        true
    } else if a[0] != b[0] {
        a[0] < b[0]
    } else {
        bytes_lex_lt(a.drop_first(), b.drop_first())
    }
}

/// Strict order on strings: byte-lexicographic over their UTF-8 encodings,
/// the order std gives strings.
pub open spec fn str_lt(a: Seq<char>, b: Seq<char>) -> bool {
    bytes_lex_lt(vstd::utf8::encode_utf8(a), vstd::utf8::encode_utf8(b))
}

/// Whether some element of the list has this content.
pub open spec fn has_path(v: Seq<Seq<char>>, x: Seq<char>) -> bool {
    exists|i: int| 0 <= i < v.len() && v[i] == x
}

/// Strictly ascending: sorted, with no duplicates.
pub open spec fn strictly_sorted(v: Seq<Seq<char>>) -> bool {
    forall|i: int| 0 <= i < v.len() - 1 ==> str_lt(#[trigger] v[i], v[i + 1])
}

/// The order is connex: two byte sequences compare one way, the other, or
/// are equal.
proof fn lemma_bytes_lex_connex(a: Seq<u8>, b: Seq<u8>)
    ensures
        bytes_lex_lt(a, b) || bytes_lex_lt(b, a) || a == b,
    decreases a.len(),
{
    if a.len() == 0 && b.len() == 0 {
        assert(a =~= b);
    } else if a.len() > 0 && b.len() > 0 && a[0] == b[0] {
        lemma_bytes_lex_connex(a.drop_first(), b.drop_first());
        assert(bytes_lex_lt(a, b) == bytes_lex_lt(a.drop_first(), b.drop_first()));
        assert(bytes_lex_lt(b, a) == bytes_lex_lt(b.drop_first(), a.drop_first()));
        if !bytes_lex_lt(a, b) && !bytes_lex_lt(b, a) {
            assert(a.drop_first() == b.drop_first());
            assert forall|i: int| 0 <= i < a.len() implies a[i] == b[i] by {
                if i > 0 {
                    assert(a.drop_first()[i - 1] == a[i]);
                    assert(b.drop_first()[i - 1] == b[i]);
                }
            }
            assert(a =~= b);
        }
    }
}

/// Two strings compare one way, the other, or are the same string.
proof fn lemma_str_lt_connex(a: Seq<char>, b: Seq<char>)
    ensures
        str_lt(a, b) || str_lt(b, a) || a == b,
{
    let ea = vstd::utf8::encode_utf8(a);
    let eb = vstd::utf8::encode_utf8(b);
    lemma_bytes_lex_connex(ea, eb);
    if !bytes_lex_lt(ea, eb) && !bytes_lex_lt(eb, ea) {
        vstd::utf8::encode_utf8_decode_utf8(a);
        vstd::utf8::encode_utf8_decode_utf8(b);
        assert(a == vstd::utf8::decode_utf8(ea));
    }
}

/// Compares two byte vectors lexicographically.
fn bytes_less(a: &Vec<u8>, b: &Vec<u8>) -> (r: bool)
    ensures
        r == bytes_lex_lt(a@, b@),
{
    let mut i: usize = 0;
    proof {
        assert(a@.subrange(0, a@.len() as int) =~= a@);
        assert(b@.subrange(0, b@.len() as int) =~= b@);
    }
    while i < a.len() && i < b.len()
        invariant
            0 <= i <= a@.len() && i <= b@.len(),
            bytes_lex_lt(a@, b@) == bytes_lex_lt(
                a@.subrange(i as int, a@.len() as int),
                b@.subrange(i as int, b@.len() as int),
            ),
        decreases a@.len() - i,
    {
        let x = *vstd::std_specs::vec::vec_index(a, i);
        let y = *vstd::std_specs::vec::vec_index(b, i);
        let ghost sa = a@.subrange(i as int, a@.len() as int);
        let ghost sb = b@.subrange(i as int, b@.len() as int);
        if x != y {
            proof {
                assert(sa[0] == x && sb[0] == y);
            }
            return x < y;
        }
        proof {
            assert(sa[0] == sb[0]);
            assert(sa.drop_first() =~= a@.subrange(i + 1, a@.len() as int));
            assert(sb.drop_first() =~= b@.subrange(i + 1, b@.len() as int));
        }
        i = i + 1;
    }
    proof {
        let sa = a@.subrange(i as int, a@.len() as int);
        let sb = b@.subrange(i as int, b@.len() as int);
        if a@.len() <= b@.len() {
            assert(sa.len() == 0);
        } else {
            assert(sb.len() == 0);
        }
    }
    a.len() < b.len()
}

/// Compares two strings in the order `str_lt` states.
fn str_less(a: &String, b: &String) -> (r: bool)
    ensures
        r == str_lt(a@, b@),
{
    let av = a.as_str().as_bytes_vec();
    let bv = b.as_str().as_bytes_vec();
    bytes_less(&av, &bv)
}

/// Orders a list of paths and removes duplicates: the result is strictly
/// ascending and holds exactly the contents of the input, each once.
pub fn sort_dedup_paths(paths: Vec<String>) -> (r: Vec<String>)
    ensures
        strictly_sorted(r.deep_view()),
        forall|x: Seq<char>| has_path(r.deep_view(), x) == has_path(paths.deep_view(), x),
{
    let ghost orig = paths.deep_view();
    let mut rest = paths;
    let mut out: Vec<String> = Vec::new();
    let ghost mut seen: Seq<Seq<char>> = Seq::empty();
    proof {
        assert(out.deep_view() =~~= Seq::<Seq<char>>::empty());
        assert(orig =~~= seen + rest.deep_view());
    }
    while rest.len() > 0
        invariant
            orig == seen + rest.deep_view(),
            strictly_sorted(out.deep_view()),
            forall|i: int|
                0 <= i < out.deep_view().len() ==> has_path(orig, #[trigger] out.deep_view()[i]),
            forall|x: Seq<char>| has_path(seen, x) ==> has_path(out.deep_view(), x),
        decreases rest@.len(),
    {
        let ghost restd0 = rest.deep_view();
        let ghost outd0 = out.deep_view();
        let p = rest.remove(0);
        proof {
            assert(restd0[0] == p@);
            assert(rest.deep_view() =~~= restd0.drop_first());
            assert(has_path(orig, p@)) by {
                assert(orig[seen.len() as int] == p@);
            }
        }
        let mut k: usize = 0;
        while k < out.len() && str_less(vstd::std_specs::vec::vec_index(&out, k), &p)
            invariant
                0 <= k <= out@.len(),
                out.deep_view() == outd0,
                forall|j: int| 0 <= j < k ==> str_lt(#[trigger] outd0[j], p@),
            decreases out@.len() - k,
        {
            proof {
                assert(outd0[k as int] == out@[k as int]@);
            }
            k = k + 1;
        }
        let is_dup = k < out.len() && *vstd::std_specs::vec::vec_index(&out, k) == p;
        if is_dup {
            proof {
                assert(outd0[k as int] == p@);
                let seen0 = seen;
                seen = seen0.push(p@);
                assert(orig =~~= seen + rest.deep_view());
                assert forall|x: Seq<char>| has_path(seen, x) implies has_path(outd0, x) by {
                    let w = choose|i: int| 0 <= i < seen.len() && seen[i] == x;
                    if w == seen0.len() {
                        assert(x == p@);
                        assert(outd0[k as int] == x);
                    } else {
                        assert(seen0[w] == x);
                        assert(has_path(seen0, x));
                    }
                }
            }
        } else {
            proof {
                if k < out@.len() {
                    assert(outd0[k as int] == out@[k as int]@);
                    assert(!str_lt(outd0[k as int], p@));
                    assert(outd0[k as int] != p@);
                    lemma_str_lt_connex(outd0[k as int], p@);
                    assert(str_lt(p@, outd0[k as int]));
                }
            }
            out.insert(k, p);
            proof {
                outd0.insert_ensures(k as int, p@);
                let outd2 = out.deep_view();
                assert(outd2 =~~= outd0.insert(k as int, p@));
                assert forall|i: int| 0 <= i < outd2.len() - 1 implies str_lt(
                    #[trigger] outd2[i],
                    outd2[i + 1],
                ) by {
                    if i + 1 < k {
                        assert(outd2[i] == outd0[i] && outd2[i + 1] == outd0[i + 1]);
                    } else if i + 1 == k {
                        assert(outd2[i] == outd0[i] && outd2[i + 1] == p@);
                    } else if i == k {
                        assert(outd2[i] == p@ && outd2[i + 1] == outd0[i]);
                    } else {
                        assert(outd2[i] == outd0[i - 1] && outd2[i + 1] == outd0[i]);
                    }
                }
                assert forall|i: int| 0 <= i < outd2.len() implies has_path(
                    orig,
                    #[trigger] outd2[i],
                ) by {
                    if i < k {
                        assert(outd2[i] == outd0[i]);
                    } else if i == k {
                        assert(outd2[i] == p@);
                    } else {
                        assert(outd2[i] == outd0[i - 1]);
                    }
                }
                let seen0 = seen;
                seen = seen0.push(p@);
                assert(orig =~~= seen + rest.deep_view());
                assert forall|x: Seq<char>| has_path(seen, x) implies has_path(outd2, x) by {
                    let w = choose|i: int| 0 <= i < seen.len() && seen[i] == x;
                    if w == seen0.len() {
                        assert(x == p@);
                        assert(outd2[k as int] == x);
                    } else {
                        assert(seen0[w] == x);
                        assert(has_path(seen0, x));
                        assert(has_path(outd0, x));
                        let w2 = choose|i: int| 0 <= i < outd0.len() && outd0[i] == x;
                        if w2 < k {
                            assert(outd2[w2] == x);
                        } else {
                            assert(outd2[w2 + 1] == x);
                        }
                    }
                }
            }
        }
    }
    proof {
        assert(rest.deep_view() =~~= Seq::<Seq<char>>::empty());
        assert(orig =~~= seen);
        assert forall|x: Seq<char>| has_path(out.deep_view(), x) == has_path(orig, x) by {
            if has_path(out.deep_view(), x) {
                let w = choose|i: int|
                    0 <= i < out.deep_view().len() && out.deep_view()[i] == x;
                assert(has_path(orig, out.deep_view()[w]));
            }
        }
    }
    out
}

} // verus!
