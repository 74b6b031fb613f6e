//! The matcher / replacer pair.
//!
//! A `Replacer` owns exactly one matcher — either a compiled pattern (regex
//! semantics) or a literal byte needle — plus a replacement byte sequence
//! that is always inserted verbatim (capture references are never expanded)
//! and a replacement cap (0 = unlimited). The constructor selects the
//! literal variant only when it is equivalent to the compiled one under the
//! requested flags: literal mode with no case folding and no word-boundary
//! requirement.

use vstd::prelude::*;
use vstd::string::StrSliceExecFns;
use vstd::string::StringExecFns;
use vstd::string::StringSliceAdditionalSpecFns;

use crate::error::Error;
use crate::matching::{
    lit_ranges, lit_starts, ranges_wf, splice, splice_prefix, range_end, lemma_lit_ranges_wf,
    lemma_splice_zero, push_all, push_subrange,
};

verus! {

/// The pattern and settings a compiled regex was built from: pattern text,
/// case-insensitive, multi-line, dot-matches-new-line, unicode.
pub uninterp spec fn regex_desc(re: regex::bytes::Regex) -> (Seq<char>, bool, bool, bool, bool);

/// Whether compiling a pattern with the given settings succeeds.
pub uninterp spec fn regex_compile_ok(
    pat: Seq<char>,
    ci: bool,
    ml: bool,
    dmn: bool,
    uni: bool,
) -> bool;

/// The successive non-overlapping, leftmost-first match ranges a compiled
/// regex finds in a byte buffer.
pub uninterp spec fn regex_ranges(
    desc: (Seq<char>, bool, bool, bool, bool),
    text: Seq<u8>,
) -> Seq<(int, int)>;

/// The escaped form of a pattern: a pattern that matches the input text
/// literally.
pub uninterp spec fn regex_escape_spec(pat: Seq<char>) -> Seq<char>;

/// Whether a character is uppercase under the Unicode tables.
pub uninterp spec fn char_is_uppercase(c: char) -> bool;

/// Whether any character of the string is uppercase.
pub open spec fn has_uppercase(s: Seq<char>) -> bool {
    !(forall|i: int| 0 <= i < s.len() ==> !char_is_uppercase(#[trigger] s[i]))
}

/// Relates a match count to the ranges it counts: the count is the number
/// of ranges, and the ranges are well formed over a buffer of length `len`.
pub open spec fn counted_ranges_ok(r: usize, rs: Seq<(int, int)>, len: int) -> bool {
    r == rs.len() && ranges_wf(rs, len)
}

#[verifier::external_type_specification]
#[verifier::external_body]
pub struct ExRegex(regex::bytes::Regex);

/// Relies on regex::bytes::RegexBuilder: compiles `pattern` under the given
/// case-insensitive, multi-line, dot-matches-new-line and unicode settings.
/// Success depends on the pattern and settings alone, and the compiled value
/// is described exactly by them. A failure is carried as the error's
/// description (the Display impl of the builder's error).
#[verifier::external_body]
fn compile_regex(pattern: &str, ci: bool, ml: bool, dmn: bool, uni: bool) -> (r: Result<
    regex::bytes::Regex,
    String,
>)
    ensures
        r.is_ok() == regex_compile_ok(pattern@, ci, ml, dmn, uni),
        r matches Ok(re) ==> regex_desc(re) == (pattern@, ci, ml, dmn, uni),
{
    regex::bytes::RegexBuilder::new(pattern)
        .unicode(uni)
        .case_insensitive(ci)
        .multi_line(ml)
        .dot_matches_new_line(dmn)
        .build()
        .map_err(|e| e.to_string())
}

/// Relies on regex::bytes::Regex::find_iter: it yields the non-overlapping,
/// leftmost-first matches, whose ranges lie in bounds, in increasing order,
/// never two at the same start.
#[verifier::external_body]
fn regex_count(re: &regex::bytes::Regex, text: &Vec<u8>) -> (r: usize)
    ensures
        counted_ranges_ok(r, regex_ranges(regex_desc(*re), text@), text@.len() as int),
{
    re.find_iter(text.as_slice()).count()
}

/// Relies on regex::bytes::Regex::replacen with NoExpand: it replaces the
/// first `limit` matches (all of them when `limit` is 0) with `rep` verbatim
/// and keeps every byte outside the replaced ranges.
#[verifier::external_body]
fn regex_replacen(re: &regex::bytes::Regex, text: &Vec<u8>, limit: usize, rep: &Vec<u8>) -> (r:
    Vec<u8>)
    ensures
        ({
            let rs = regex_ranges(regex_desc(*re), text@);
            let k: int = if limit == 0 || rs.len() <= limit {
                rs.len() as int
            } else {
                limit as int
            };
            r@ == splice(text@, rs, rep@, k)
        }),
{
    re.replacen(text.as_slice(), limit, regex::bytes::NoExpand(rep.as_slice())).into_owned()
}

/// Relies on regex::escape: the returned pattern matches the input string
/// literally; the result depends on the input alone.
#[verifier::external_body]
fn regex_escape(pattern: &str) -> (r: String)
    ensures
        r@ == regex_escape_spec(pattern@),
{
    regex::escape(pattern)
}

/// Relies on char::is_uppercase, applied to each character in turn: whether
/// any character of `s` is uppercase. The result depends on the characters
/// alone.
#[verifier::external_body]
fn str_has_uppercase(s: &str) -> (r: bool)
    ensures
        r == !(forall|i: int| 0 <= i < s@.len() ==> !char_is_uppercase(#[trigger] s@[i])),
{
    s.chars().any(|c| c.is_uppercase())
}

/// Relies on memchr::memmem::find_iter: the leftmost-first, non-overlapping
/// occurrences of `needle` in `text`; after a match at `i` the scan resumes
/// at `i + needle.len()` (at `i + 1` for an empty needle, which matches at
/// every position including the end of the buffer).
#[verifier::external_body]
fn find_literal_starts(text: &Vec<u8>, needle: &Vec<u8>) -> (r: Vec<usize>)
    ensures
        r@.map(|i: int, s: usize| s as int) == lit_starts(needle@, text@),
{
    memchr::memmem::find_iter(text.as_slice(), needle.as_slice()).collect()
}

/// A matcher as the contracts see it.
pub ghost enum MatcherModel {
    /// Raw byte search for a needle; always case-sensitive and
    /// boundary-unaware.
    Literal { needle: Seq<u8> },
    /// A compiled pattern, described by its text and settings.
    Regex { desc: (Seq<char>, bool, bool, bool, bool) },
}

/// The match ranges a matcher finds in a byte buffer.
pub open spec fn matcher_ranges(m: MatcherModel, text: Seq<u8>) -> Seq<(int, int)> {
    match m {
        MatcherModel::Literal { needle } => lit_ranges(needle, text),
        MatcherModel::Regex { desc } => regex_ranges(desc, text),
    }
}

/// Whether the replacement template passes the syntactic pre-check: a `${`
/// must be followed by a closing `}` somewhere later. The check is a safety
/// net only — replacement text is always inserted verbatim, byte for byte,
/// even when it looks like a capture reference.
pub open spec fn template_ok(rep: Seq<u8>) -> bool {
    forall|i: int|
        0 <= i && i + 1 < rep.len() && rep[i] == 36u8 && #[trigger] rep[i + 1] == 123u8
            ==> exists|j: int| i + 1 < j < rep.len() && rep[j] == 125u8
}

/// Scans a replacement template for an unclosed `${`.
fn validate_template(rep: &Vec<u8>) -> (r: bool)
    ensures
        r == template_ok(rep@),
{
    let n = rep.len();
    let mut last_close: usize = 0;
    let mut has_close: bool = false;
    let mut i: usize = 0;
    while i < n
        invariant
            i <= n == rep@.len(),
            has_close ==> last_close < i && rep@[last_close as int] == 125u8,
            forall|j: int| 0 <= j < i && rep@[j] == 125u8 ==> has_close && j <= last_close,
        decreases n - i,
    {
        if rep[i] == 125u8 {
            last_close = i;
            has_close = true;
        }
        i = i + 1;
    }
    let mut k: usize = 0;
    while k < n
        invariant
            k <= n == rep@.len(),
            has_close ==> last_close < n && rep@[last_close as int] == 125u8,
            forall|j: int| 0 <= j < n && rep@[j] == 125u8 ==> has_close && j <= last_close,
            forall|i2: int|
                0 <= i2 < k && i2 + 1 < n && rep@[i2] == 36u8 && #[trigger] rep@[i2 + 1] == 123u8
                    ==> exists|j: int| i2 + 1 < j < n && rep@[j] == 125u8,
        decreases n - k,
    {
        if k + 1 < n && rep[k] == 36u8 && rep[k + 1] == 123u8 {
            if !(has_close && last_close > k + 1) {
                assert(forall|j: int| k + 1 < j < n ==> rep@[j] != 125u8);
                return false;
            }
        }
        k = k + 1;
    }
    true
}

enum Matcher {
    Regex(regex::bytes::Regex),
    Literal(Vec<u8>),
}

/// A find/replace unit: one matcher, a verbatim replacement byte sequence,
/// and a replacement cap (0 = unlimited). Stateless across calls.
pub struct Replacer {
    matcher: Matcher,
    replacement: Vec<u8>,
    max_replacements: usize,
}

/// Whether the constructor selects the literal-substring matcher: requested
/// literal mode and no flag that would require case-aware or boundary-aware
/// scanning.
pub open spec fn uses_literal(
    fixed_strings: bool,
    ignore_case: bool,
    smart_case: bool,
    word_regexp: bool,
) -> bool {
    fixed_strings && !ignore_case && !smart_case && !word_regexp
}

/// The pattern text handed to the compiler: escaped when literal mode rides
/// on the compiled path, then wrapped in word-boundary assertions when
/// whole-word matching is requested.
pub open spec fn built_pattern(pattern: Seq<char>, fixed_strings: bool, word_regexp: bool) -> Seq<
    char,
> {
    let escaped = if fixed_strings {
        regex_escape_spec(pattern)
    } else {
        pattern
    };
    if word_regexp {
        "\\b"@ + escaped + "\\b"@
    } else {
        escaped
    }
}

/// The case-insensitivity setting handed to the compiler: forced by
/// ignore-case; under smart-case, enabled exactly when the built pattern has
/// no uppercase character.
pub open spec fn effective_ci(built: Seq<char>, ignore_case: bool, smart_case: bool) -> bool {
    if ignore_case {
        true
    } else if smart_case {
        !has_uppercase(built)
    } else {
        false
    }
}

impl Replacer {
    /// The matcher selected at construction.
    pub closed spec fn matcher_model(&self) -> MatcherModel {
        match self.matcher {
            Matcher::Regex(re) => MatcherModel::Regex { desc: regex_desc(re) },
            Matcher::Literal(n) => MatcherModel::Literal { needle: n@ },
        }
    }

    /// The replacement bytes inserted for each replaced match.
    pub closed spec fn replacement_bytes(&self) -> Seq<u8> {
        self.replacement@
    }

    /// The replacement cap; 0 means unlimited.
    pub closed spec fn cap(&self) -> nat {
        self.max_replacements as nat
    }

    /// Builds a replacer from a pattern, a replacement template and the mode
    /// flags. Fails exactly when the template has an unclosed `${`, or when
    /// the compiled path is needed and the built pattern does not compile.
    /// `_case_sensitive` and `_crlf` are accepted for interface parity and
    /// have no effect.
    pub fn new(
        pattern: &str,
        replacement: &str,
        fixed_strings: bool,
        ignore_case: bool,
        smart_case: bool,
        _case_sensitive: bool,
        word_regexp: bool,
        multiline: bool,
        single_line: bool,
        dot_matches_newline: bool,
        no_unicode: bool,
        _crlf: bool,
        max_replacements: usize,
    ) -> (r: Result<Replacer, Error>)
        ensures
            ({
                let lit = uses_literal(fixed_strings, ignore_case, smart_case, word_regexp);
                let built = built_pattern(pattern@, fixed_strings, word_regexp);
                let ci = effective_ci(built, ignore_case, smart_case);
                let ml = multiline && !single_line;
                &&& r.is_ok() == (template_ok(replacement.spec_bytes()) && (lit
                    || regex_compile_ok(built, ci, ml, dot_matches_newline, !no_unicode)))
                &&& r matches Ok(rp) ==> {
                    &&& rp.replacement_bytes() == replacement.spec_bytes()
                    &&& rp.cap() == max_replacements
                    &&& rp.matcher_model() == if lit {
                        MatcherModel::Literal { needle: pattern.spec_bytes() }
                    } else {
                        MatcherModel::Regex {
                            desc: (built, ci, ml, dot_matches_newline, !no_unicode),
                        }
                    }
                }
                &&& r matches Err(e) ==> e.is_validation()
                &&& !template_ok(replacement.spec_bytes()) ==> (r matches Err(e)
                    && e.spec_message() == "Invalid replacement template: unclosed '${'"@)
            }),
    {
        let replacement_bytes = replacement.as_bytes_vec();
        if !validate_template(&replacement_bytes) {
            return Err(
                Error::Validation(String::from_str("Invalid replacement template: unclosed '${'")),
            );
        }
        let use_lit = fixed_strings && !ignore_case && !smart_case && !word_regexp;
        let matcher = if use_lit {
            Matcher::Literal(pattern.as_bytes_vec())
        } else {
            let escaped: String = if fixed_strings {
                regex_escape(pattern)
            } else {
                String::from_str(pattern)
            };
            let built: String = if word_regexp {
                let mut s = String::from_str("\\b");
                s.append(escaped.as_str());
                s.append("\\b");
                s
            } else {
                escaped
            };
            let ci: bool = if ignore_case {
                true
            } else if smart_case {
                !str_has_uppercase(built.as_str())
            } else {
                false
            };
            match compile_regex(
                built.as_str(),
                ci,
                multiline && !single_line,
                dot_matches_newline,
                !no_unicode,
            ) {
                Ok(re) => Matcher::Regex(re),
                Err(msg) => {
                    return Err(Error::Validation(msg));
                },
            }
        };
        Ok(Replacer { matcher, replacement: replacement_bytes, max_replacements })
    }

    /// Counts the disjoint, leftmost-first matches in `text`.
    pub fn count_matches(&self, text: &Vec<u8>) -> (r: usize)
        ensures
            r == matcher_ranges(self.matcher_model(), text@).len(),
            ranges_wf(matcher_ranges(self.matcher_model(), text@), text@.len() as int),
    {
        match &self.matcher {
            Matcher::Regex(re) => regex_count(re, text),
            Matcher::Literal(needle) => {
                let starts = find_literal_starts(text, needle);
                proof {
                    lemma_lit_ranges_wf(needle@, text@);
                }
                starts.len()
            },
        }
    }

    /// Replaces the first `actual` matches, where `actual` is the match
    /// count bounded by the cap (0 = unlimited), and returns the new bytes
    /// plus the number of replacements performed. With zero matches the
    /// input comes back unchanged with count 0.
    pub fn replace_with_count(&self, text: &Vec<u8>) -> (r: (Vec<u8>, usize))
        ensures
            ({
                let rs = matcher_ranges(self.matcher_model(), text@);
                let actual: int = if self.cap() == 0 {
                    rs.len() as int
                } else if rs.len() <= self.cap() {
                    rs.len() as int
                } else {
                    self.cap() as int
                };
                &&& r.1 == actual
                &&& r.0@ == splice(text@, rs, self.replacement_bytes(), actual)
                &&& rs.len() == 0 ==> r.0@ == text@ && r.1 == 0
            }),
    {
        let ghost rs = matcher_ranges(self.matcher_model(), text@);
        let m = self.count_matches(text);
        if m == 0 {
            proof {
                lemma_splice_zero(text@, rs, self.replacement_bytes());
            }
            let mut out: Vec<u8> = Vec::new();
            push_all(&mut out, text);
            return (out, 0);
        }
        let actual: usize = if self.max_replacements == 0 {
            m
        } else if m <= self.max_replacements {
            m
        } else {
            self.max_replacements
        };
        match &self.matcher {
            Matcher::Regex(re) => {
                let out = regex_replacen(re, text, self.max_replacements, &self.replacement);
                (out, actual)
            },
            Matcher::Literal(needle) => {
                let starts = find_literal_starts(text, needle);
                proof {
                    lemma_lit_ranges_wf(needle@, text@);
                    assert(rs.len() == starts@.len());
                }
                let mut out: Vec<u8> = Vec::new();
                let mut last_end: usize = 0;
                let mut count: usize = 0;
                let text_len: usize = text.len();
                while count < actual
                    invariant
                        text_len == text@.len(),
                        count <= actual <= starts@.len(),
                        starts@.map(|i: int, s: usize| s as int) == lit_starts(needle@, text@),
                        rs == lit_ranges(needle@, text@),
                        ranges_wf(rs, text@.len() as int),
                        rs.len() == starts@.len(),
                        out@ == splice_prefix(text@, rs, self.replacement_bytes(), count as int),
                        last_end == range_end(rs, count as int),
                        last_end <= text@.len(),
                    decreases actual - count,
                {
                    let s = starts[count];
                    proof {
                        assert(starts@.map(|i: int, s2: usize| s2 as int)[count as int] == s as int);
                        assert(rs[count as int] == (s as int, s + needle@.len()));
                        assert(rs[count as int].1 <= text@.len());
                        assert(s + needle@.len() <= text@.len());
                        if count > 0 {
                            assert(rs[count as int - 1].1 <= rs[count as int].0);
                        }
                    }
                    push_subrange(&mut out, text, last_end, s);
                    push_all(&mut out, &self.replacement);
                    last_end = s + needle.len();
                    count = count + 1;
                }
                push_subrange(&mut out, text, last_end, text.len());
                proof {
                    assert(out@ == splice(text@, rs, self.replacement_bytes(), actual as int));
                }
                (out, actual)
            },
        }
    }
}

} // verus!
