//! The execution engine: filtering, per-item transformation, staging and
//! the report.
//!
//! A run validates its configuration, then walks the input items in order:
//! each item's content is pushed through every operation in sequence, the
//! outcome is recorded as one result per item, and — on a live run — a
//! modified path target is staged for the transaction manager's commit.
//! Processing is fail-fast: the first item-level error stops the run, and
//! later items are left unrepresented.

use vstd::prelude::*;
use vstd::string::StringExecFns;

use crate::diff::{diff_walk, generate_diff, lines_of, render_spec, vec_u8_eq};
use crate::error::Error;
use crate::input::InputItem;
use crate::matching::{push_all, splice};
use crate::model::{FileResult, Operation, Pipeline, Report, ReplacementRange, Symlinks};
use crate::replacer::{
    built_pattern, effective_ci, matcher_ranges, regex_compile_ok, template_ok, uses_literal,
    MatcherModel, Replacer,
};
use crate::transaction::{StagedEntry, TransactionManager};

verus! {

/// Whether a glob pattern parses.
pub uninterp spec fn glob_pattern_ok(pat: Seq<char>) -> bool;

/// The pattern a parsed glob was made from.
pub uninterp spec fn glob_pat(g: globset::Glob) -> Seq<char>;

/// The patterns a glob-set builder holds so far, in insertion order.
pub uninterp spec fn glob_builder_pats(b: globset::GlobSetBuilder) -> Seq<Seq<char>>;

/// The patterns a built glob set was made from, in insertion order.
pub uninterp spec fn glob_set_pats(s: globset::GlobSet) -> Seq<Seq<char>>;

/// Whether building a glob set from these parsed patterns succeeds under
/// the builder's fixed default limits.
pub uninterp spec fn glob_set_build_ok(pats: Seq<Seq<char>>) -> bool;

/// Whether a glob set made from these patterns matches the path: some
/// pattern of the set matches it, under standard shell-style glob
/// semantics.
pub uninterp spec fn glob_set_match(pats: Seq<Seq<char>>, path: Seq<char>) -> bool;

#[verifier::external_type_specification]
#[verifier::external_body]
pub struct ExGlob(globset::Glob);

#[verifier::external_type_specification]
#[verifier::external_body]
pub struct ExGlobSet(globset::GlobSet);

#[verifier::external_type_specification]
#[verifier::external_body]
pub struct ExGlobSetBuilder(globset::GlobSetBuilder);

/// Relies on globset::Glob::new: parses one glob pattern; success depends
/// on the pattern alone. A failure is carried as the error's description.
#[verifier::external_body]
fn glob_new(pattern: &str) -> (r: Result<globset::Glob, String>)
    ensures
        r.is_ok() == glob_pattern_ok(pattern@),
        r matches Ok(g) ==> glob_pat(g) == pattern@,
{
    globset::Glob::new(pattern).map_err(|e| e.to_string())
}

/// Relies on globset::GlobSetBuilder::new: a builder holding no patterns.
#[verifier::external_body]
fn glob_builder_new() -> (r: globset::GlobSetBuilder)
    ensures
        glob_builder_pats(r) == Seq::<Seq<char>>::empty(),
{
    globset::GlobSetBuilder::new()
}

/// Relies on globset::GlobSetBuilder::add: appends one parsed pattern to
/// the builder.
#[verifier::external_body]
fn glob_builder_add(b: &mut globset::GlobSetBuilder, g: globset::Glob)
    ensures
        glob_builder_pats(*final(b)) == glob_builder_pats(*old(b)).push(glob_pat(g)),
{
    b.add(g);
}

/// Relies on globset::GlobSetBuilder::build: compiles the added patterns
/// into one set. Success depends on the patterns alone; a failure (for
/// instance, a pattern whose compiled form exceeds the builder's size
/// limit) is returned, not thrown, and carried here as the error's
/// description.
#[verifier::external_body]
fn glob_set_build(b: &globset::GlobSetBuilder) -> (r: Result<globset::GlobSet, String>)
    ensures
        r.is_ok() == glob_set_build_ok(glob_builder_pats(*b)),
        r matches Ok(s) ==> glob_set_pats(s) == glob_builder_pats(*b),
{
    b.build().map_err(|e| e.to_string())
}

/// Relies on globset::GlobSet::is_match: whether any glob of the set
/// matches the path; the result depends on the patterns and the path
/// alone.
#[verifier::external_body]
fn glob_set_is_match(s: &globset::GlobSet, path: &str) -> (r: bool)
    ensures
        r == glob_set_match(glob_set_pats(*s), path@),
{
    s.is_match(path)
}

/// Relies on core::str::from_utf8: whether the bytes are valid UTF-8, by
/// vstd's definition of UTF-8 validity.
#[verifier::external_body]
fn check_utf8(bytes: &Vec<u8>) -> (r: bool)
    ensures
        r == vstd::utf8::valid_utf8(bytes@),
{
    core::str::from_utf8(bytes.as_slice()).is_ok()
}

/// The patterns of an optional filter list, as character sequences.
pub open spec fn opt_pats(o: Option<Vec<String>>) -> Seq<Seq<char>> {
    match o {
        Option::None => Seq::empty(),
        Option::Some(v) => v.deep_view(),
    }
}

/// Whether every pattern of an optional filter list parses.
pub open spec fn globs_ok(o: Option<Vec<String>>) -> bool {
    forall|i: int| 0 <= i < opt_pats(o).len() ==> glob_pattern_ok(#[trigger] opt_pats(o)[i])
}

/// Whether an optional filter list is usable: every pattern parses and,
/// when any were given, the set builds.
pub open spec fn filters_ok(o: Option<Vec<String>>) -> bool {
    globs_ok(o) && (o is Some ==> glob_set_build_ok(opt_pats(o)))
}

/// The path of an item, when it has one; standing text has none and is
/// never filtered.
pub open spec fn item_path(item: InputItem) -> Option<Seq<char>> {
    match item {
        InputItem::Path { path, content } => Option::Some(path@),
        InputItem::StdinText { text } => Option::None,
    }
}

/// Whether the filters keep an item: a path must match some selection
/// pattern when any were given, and no exclusion pattern; text is always
/// kept.
pub open spec fn keep_item(
    inc: Option<Vec<String>>,
    exc: Option<Vec<String>>,
    item: InputItem,
) -> bool {
    match item_path(item) {
        Option::None => true,
        Option::Some(p) => (inc is None || glob_set_match(opt_pats(inc), p)) && !(
        exc is Some && glob_set_match(opt_pats(exc), p)),
    }
}

/// The items the filters keep, in order.
pub open spec fn kept_items(
    inc: Option<Vec<String>>,
    exc: Option<Vec<String>>,
    items: Seq<InputItem>,
) -> Seq<InputItem>
    decreases items.len(),
{
    if items.len() == 0 {
        Seq::empty()
    } else {
        (if keep_item(inc, exc, items[0]) {
            seq![items[0]]
        } else {
            Seq::empty()
        }) + kept_items(inc, exc, items.drop_first())
    }
}

/// Parses and compiles an optional pattern list into one glob set; fails
/// with a validation error on the first pattern that does not parse, or
/// when the set of parsed patterns cannot be built.
fn compile_filters(pats: &Option<Vec<String>>) -> (r: Result<Option<globset::GlobSet>, Error>)
    ensures
        r.is_ok() == filters_ok(*pats),
        r matches Ok(ms) ==> (match ms {
            Option::None => *pats is None,
            Option::Some(s) => *pats is Some && glob_set_pats(s) == opt_pats(*pats),
        }),
        r matches Err(e) ==> e.is_validation(),
{
    match pats.as_ref() {
        Option::None => Ok(None),
        Option::Some(list) => {
            let n = list.len();
            let mut b = glob_builder_new();
            let mut i: usize = 0;
            proof {
                assert forall|k: int| 0 <= k < n implies opt_pats(*pats)[k] == (
                #[trigger] list@[k])@ by {}
                assert(glob_builder_pats(b) =~~= opt_pats(*pats).subrange(0, 0));
            }
            while i < n
                invariant
                    *pats == Option::Some(*list),
                    0 <= i <= n == list@.len(),
                    opt_pats(*pats).len() == n,
                    forall|k: int| 0 <= k < n ==> opt_pats(*pats)[k] == (#[trigger] list@[k])@,
                    glob_builder_pats(b) == opt_pats(*pats).subrange(0, i as int),
                    forall|k: int| 0 <= k < i ==> glob_pattern_ok(#[trigger] list@[k]@),
                decreases n - i,
            {
                let p = vstd::std_specs::vec::vec_index(list, i);
                match glob_new(p.as_str()) {
                    Ok(g) => {
                        glob_builder_add(&mut b, g);
                        proof {
                            assert(glob_builder_pats(b) =~~= opt_pats(*pats).subrange(0, i + 1));
                        }
                    },
                    Err(why) => {
                        proof {
                            assert(!glob_pattern_ok(opt_pats(*pats)[i as int]));
                            assert(!globs_ok(*pats));
                        }
                        let mut msg = String::from_str("Invalid glob '");
                        msg.append(p.as_str());
                        msg.append("': ");
                        msg.append(why.as_str());
                        return Err(Error::Validation(msg));
                    },
                }
                i = i + 1;
            }
            proof {
                assert(glob_builder_pats(b) =~~= opt_pats(*pats));
                assert forall|k: int| 0 <= k < opt_pats(*pats).len() implies glob_pattern_ok(
                    #[trigger] opt_pats(*pats)[k],
                ) by {
                    assert(opt_pats(*pats)[k] == list@[k]@);
                }
            }
            match glob_set_build(&b) {
                Ok(set) => Ok(Some(set)),
                Err(why) => {
                    let mut msg = String::from_str("Failed to build glob set: ");
                    msg.append(why.as_str());
                    Err(Error::Validation(msg))
                },
            }
        },
    }
}

/// Applies the inclusion and exclusion filters to the input sequence,
/// keeping order: a path item is kept when the inclusion set matches it (or
/// none was given) and the exclusion set does not; text items are always
/// kept. Fails with a validation error exactly when some pattern does not
/// parse or a filter set cannot be built.
pub fn filter_inputs(
    inputs: Vec<InputItem>,
    inc: &Option<Vec<String>>,
    exc: &Option<Vec<String>>,
) -> (r: Result<Vec<InputItem>, Error>)
    ensures
        r.is_ok() == (filters_ok(*inc) && filters_ok(*exc)),
        r matches Ok(v) ==> v@ == kept_items(*inc, *exc, inputs@),
        r matches Err(e) ==> e.is_validation(),
{
    let inc_ms = match compile_filters(inc) {
        Ok(ms) => ms,
        Err(e) => {
            return Err(e);
        },
    };
    let exc_ms = match compile_filters(exc) {
        Ok(ms) => ms,
        Err(e) => {
            return Err(e);
        },
    };
    let ghost orig = inputs@;
    let mut rest = inputs;
    let mut acc: Vec<InputItem> = Vec::new();
    proof {
        assert(acc@ + kept_items(*inc, *exc, rest@) =~= kept_items(
            *inc,
            *exc,
            orig,
        ));
    }
    while rest.len() > 0
        invariant
            acc@ + kept_items(*inc, *exc, rest@) == kept_items(*inc, *exc, orig),
            inc_ms matches Option::Some(s) ==> *inc is Some && glob_set_pats(s) == opt_pats(*inc),
            inc_ms is None ==> *inc is None,
            exc_ms matches Option::Some(s) ==> *exc is Some && glob_set_pats(s) == opt_pats(*exc),
            exc_ms is None ==> *exc is None,
        decreases rest@.len(),
    {
        let ghost rest0 = rest@;
        let item = rest.remove(0);
        proof {
            assert(rest0.drop_first() =~~= rest@);
            assert(rest0[0] == item);
        }
        let keep: bool = match &item {
            InputItem::Path { path, content } => {
                let inc_ok = match &inc_ms {
                    Option::None => true,
                    Option::Some(s) => glob_set_is_match(s, path.as_str()),
                };
                let exc_hit = match &exc_ms {
                    Option::None => false,
                    Option::Some(s) => glob_set_is_match(s, path.as_str()),
                };
                inc_ok && !exc_hit
            },
            InputItem::StdinText { text } => true,
        };
        proof {
            assert(keep == keep_item(*inc, *exc, item));
            assert(kept_items(*inc, *exc, rest0) == (if keep {
                seq![item]
            } else {
                Seq::<InputItem>::empty()
            }) + kept_items(*inc, *exc, rest@));
        }
        let ghost acc0 = acc@;
        if keep {
            acc.push(item);
            proof {
                assert(acc@ + kept_items(*inc, *exc, rest@) =~= acc0 + kept_items(
                    *inc,
                    *exc,
                    rest0,
                ));
            }
        } else {
            proof {
                assert(acc@ + kept_items(*inc, *exc, rest@) =~= acc0 + kept_items(
                    *inc,
                    *exc,
                    rest0,
                ));
            }
        }
    }
    proof {
        assert(kept_items(*inc, *exc, rest@) =~= Seq::<InputItem>::empty());
        assert(acc@ =~= acc@ + Seq::<InputItem>::empty());
    }
    Ok(acc)
}

/// Whether an operation selects the literal-substring matcher.
pub open spec fn op_lit(op: Operation) -> bool {
    match op {
        Operation::Replace { literal, ignore_case, smart_case, word, .. } => uses_literal(
            literal,
            ignore_case,
            smart_case,
            word,
        ),
    }
}

/// The pattern text an operation hands to the compiler.
pub open spec fn op_built(op: Operation) -> Seq<char> {
    match op {
        Operation::Replace { find, literal, word, .. } => built_pattern(find@, literal, word),
    }
}

/// The case-insensitivity setting an operation compiles with.
pub open spec fn op_ci(op: Operation) -> bool {
    match op {
        Operation::Replace { ignore_case, smart_case, .. } => effective_ci(
            op_built(op),
            ignore_case,
            smart_case,
        ),
    }
}

/// Whether building the operation's replacer succeeds: the replacement
/// template passes its pre-check, and the compiled path, when needed,
/// compiles.
pub open spec fn op_ok(op: Operation) -> bool {
    match op {
        Operation::Replace { with, multiline, dot_matches_newline, no_unicode, .. } => template_ok(
            vstd::utf8::encode_utf8(with@),
        ) && (op_lit(op) || regex_compile_ok(
            op_built(op),
            op_ci(op),
            multiline,
            dot_matches_newline,
            !no_unicode,
        )),
    }
}

/// The matcher an operation's replacer uses.
pub open spec fn op_matcher(op: Operation) -> MatcherModel {
    match op {
        Operation::Replace { find, multiline, dot_matches_newline, no_unicode, .. } => {
            if op_lit(op) {
                MatcherModel::Literal { needle: vstd::utf8::encode_utf8(find@) }
            } else {
                MatcherModel::Regex {
                    desc: (op_built(op), op_ci(op), multiline, dot_matches_newline, !no_unicode),
                }
            }
        },
    }
}

/// The operation's replacement bytes.
pub open spec fn op_rep(op: Operation) -> Seq<u8> {
    match op {
        Operation::Replace { with, .. } => vstd::utf8::encode_utf8(with@),
    }
}

/// The operation's replacement cap (0 = unlimited).
pub open spec fn op_cap(op: Operation) -> int {
    match op {
        Operation::Replace { limit, .. } => limit as int,
    }
}

/// What one operation does to a buffer: its matches are found, the first
/// `actual` of them (the count bounded by the cap) are replaced, and the
/// new buffer is returned with the number of replacements performed.
pub open spec fn op_replace(op: Operation, text: Seq<u8>) -> (Seq<u8>, int) {
    let rs = matcher_ranges(op_matcher(op), text);
    let actual: int = if op_cap(op) == 0 {
        rs.len() as int
    } else if rs.len() <= op_cap(op) {
        rs.len() as int
    } else {
        op_cap(op)
    };
    (splice(text, rs, op_rep(op), actual), actual)
}

/// Addition capped at the machine word: replacement counts accumulate with
/// saturation instead of wrapping.
pub open spec fn sat_add_usize(a: int, b: int) -> int {
    if a + b > usize::MAX as int {
        usize::MAX as int
    } else {
        a + b
    }
}

/// The outcome of running a sequence of operations over a buffer.
pub ghost enum ApplyResult {
    /// Every operation ran: the final buffer and the saturating total of
    /// replacements performed.
    Done { text: Seq<u8>, count: int },
    /// Building the replacer of the operation at `at` failed.
    OpRejected { at: int },
    /// The buffer stopped being valid UTF-8 after the operation at `at`.
    NotText { at: int },
}

/// Applies the operations from index `k` on, each seeing the output of the
/// previous one, stopping at the first failure.
pub open spec fn apply_ops_from(ops: Seq<Operation>, k: int, text: Seq<u8>, count: int) -> ApplyResult
    decreases ops.len() - k,
{
    if k < 0 || k >= ops.len() {
        ApplyResult::Done { text, count }
    } else if !op_ok(ops[k]) {
        ApplyResult::OpRejected { at: k }
    } else {
        let (t2, c) = op_replace(ops[k], text);
        if !vstd::utf8::valid_utf8(t2) {
            ApplyResult::NotText { at: k }
        } else {
            apply_ops_from(ops, k + 1, t2, sat_add_usize(count, c))
        }
    }
}

/// What a result's diff field must hold: on a dry run whose content
/// changed, the rendered diff of the change, never empty; otherwise
/// nothing.
pub open spec fn diff_clause(pl: Pipeline, old: Seq<u8>, new: Seq<u8>, d: Option<Vec<u8>>) -> bool {
    if pl.dry_run && new != old {
        (d matches Some(x) && x@ == render_spec(diff_walk(lines_of(old), lines_of(new), 0, 0))
            && x@.len() > 0)
    } else {
        d is None
    }
}

/// Runs every operation over `original` in order and reports whether the
/// content changed, how many substitutions were performed (saturating), the
/// rendered diff when this is a dry run and content changed, and the final
/// content. Fails exactly when some operation's replacer cannot be built
/// (validation) or when some operation's output is not valid UTF-8
/// (encoding). The supplied match ranges are an optimization hint only and
/// do not change the result.
pub fn process_content_inner(
    original: Vec<u8>,
    operations: &Vec<Operation>,
    pipeline: &Pipeline,
    _matches: Option<&Vec<ReplacementRange>>,
) -> (r: Result<(bool, usize, Option<Vec<u8>>, Vec<u8>), Error>)
    ensures
        ({
            let ar = apply_ops_from(operations@, 0, original@, 0);
            &&& ar matches ApplyResult::Done { text, count } ==> (r matches Ok(t) && t.0 == (text
                != original@) && t.1 == count && t.3@ == text && diff_clause(
                *pipeline,
                original@,
                text,
                t.2,
            ))
            &&& ar matches ApplyResult::OpRejected { at } ==> (r matches Err(e)
                && e.is_validation())
            &&& ar matches ApplyResult::NotText { at } ==> (r matches Err(e) && e matches
                Error::Encoding(m) && m@ == "Invalid UTF-8 after replacement"@)
        }),
{
    let n = operations.len();
    let ghost orig_view = original@;
    let mut current: Vec<u8> = Vec::new();
    push_all(&mut current, &original);
    let mut total: usize = 0;
    let mut k: usize = 0;
    while k < n
        invariant
            0 <= k <= n == operations@.len(),
            orig_view == original@,
            apply_ops_from(operations@, 0, orig_view, 0) == apply_ops_from(
                operations@,
                k as int,
                current@,
                total as int,
            ),
        decreases n - k,
    {
        let op = vstd::std_specs::vec::vec_index(operations, k);
        let ghost opv = operations@[k as int];
        match op {
            Operation::Replace {
                find,
                with,
                literal,
                ignore_case,
                smart_case,
                word,
                multiline,
                dot_matches_newline,
                no_unicode,
                limit,
                range: _,
            } => {
                let rp = Replacer::new(
                    find.as_str(),
                    with.as_str(),
                    *literal,
                    *ignore_case,
                    *smart_case,
                    !(*ignore_case || *smart_case),
                    *word,
                    *multiline,
                    false,
                    *dot_matches_newline,
                    *no_unicode,
                    false,
                    *limit,
                );
                match rp {
                    Err(e) => {
                        proof {
                            assert(!op_ok(opv));
                            assert(apply_ops_from(operations@, k as int, current@, total as int)
                                == ApplyResult::OpRejected { at: k as int });
                        }
                        return Err(e);
                    },
                    Ok(replacer) => {
                        proof {
                            assert(op_ok(opv));
                            assert(replacer.matcher_model() == op_matcher(opv));
                            assert(replacer.replacement_bytes() == op_rep(opv));
                            assert(replacer.cap() == op_cap(opv));
                        }
                        let out = replacer.replace_with_count(&current);
                        let new_bytes = out.0;
                        let cnt = out.1;
                        proof {
                            assert((new_bytes@, cnt as int) == op_replace(opv, current@));
                        }
                        if !check_utf8(&new_bytes) {
                            proof {
                                assert(apply_ops_from(
                                    operations@,
                                    k as int,
                                    current@,
                                    total as int,
                                ) == ApplyResult::NotText { at: k as int });
                            }
                            return Err(
                                Error::Encoding(
                                    String::from_str("Invalid UTF-8 after replacement"),
                                ),
                            );
                        }
                        let ghost pre_text = current@;
                        let ghost pre_total = total as int;
                        let new_total: usize = if cnt <= usize::MAX - total {
                            total + cnt
                        } else {
                            usize::MAX
                        };
                        proof {
                            assert(new_total as int == sat_add_usize(pre_total, cnt as int));
                            assert(apply_ops_from(operations@, k as int, pre_text, pre_total)
                                == apply_ops_from(
                                operations@,
                                k + 1,
                                new_bytes@,
                                new_total as int,
                            ));
                        }
                        current = new_bytes;
                        total = new_total;
                    },
                }
            },
        }
        k = k + 1;
    }
    let modified = !vec_u8_eq(&current, &original);
    let diff = if pipeline.dry_run {
        generate_diff(&original, &current)
    } else {
        None
    };
    proof {
        assert(apply_ops_from(operations@, 0, orig_view, 0) == ApplyResult::Done {
            text: current@,
            count: total as int,
        });
    }
    Ok((modified, total, diff, current))
}

/// The outcome a sequence of operations yields for an item's content.
pub open spec fn item_apply(pl: Pipeline, bytes: Seq<u8>) -> ApplyResult {
    apply_ops_from(pl.operations@, 0, bytes, 0)
}

/// Whether a result record is the right one for an item under a pipeline:
/// the target identity, the modified flag, the substitution count, the
/// error, the diff, and — for text items on live runs — the side-channel
/// content, each as the item's processing defines them.
pub open spec fn fr_matches(pl: Pipeline, item: InputItem, fr: FileResult) -> bool {
    match item {
        InputItem::Path { path, content } => {
            &&& fr.path@ == path@
            &&& fr.content is None
            &&& match content {
                Result::Err(m) => (fr.error matches Some(em) && em@ == m@) && !fr.modified
                    && fr.replacements == 0 && fr.diff is None,
                Result::Ok(orig) => match item_apply(pl, orig@) {
                    ApplyResult::Done { text, count } => fr.error is None && fr.modified == (text
                        != orig@) && fr.replacements == count && diff_clause(
                        pl,
                        orig@,
                        text,
                        fr.diff,
                    ),
                    _ => fr.error is Some && !fr.modified && fr.replacements == 0
                        && fr.diff is None,
                },
            }
        },
        InputItem::StdinText { text } => {
            &&& fr.path@ == "<stdin>"@
            &&& match item_apply(pl, text@) {
                ApplyResult::Done { text: t, count } => fr.error is None && fr.modified == (t
                    != text@) && fr.replacements == count && diff_clause(pl, text@, t, fr.diff)
                    && (if !pl.dry_run {
                    (fr.content matches Some(c) && c@ == t)
                } else {
                    fr.content is None
                }),
                _ => fr.error is Some && !fr.modified && fr.replacements == 0 && fr.diff is None
                    && fr.content is None,
            }
        },
    }
}

/// Whether processing an item stages a write: only a readable path target
/// whose content changed, on a live run.
pub open spec fn item_stages(pl: Pipeline, item: InputItem) -> bool {
    match item {
        InputItem::Path { path, content } => match content {
            Result::Ok(orig) => match item_apply(pl, orig@) {
                ApplyResult::Done { text, count } => !pl.dry_run && text != orig@,
                _ => false,
            },
            Result::Err(_) => false,
        },
        InputItem::StdinText { .. } => false,
    }
}

/// Whether a staged entry is the write that processing the item proposes:
/// the item's path, the transformed content, and the pipeline's symlink
/// policy.
pub open spec fn staged_entry_matches(pl: Pipeline, item: InputItem, e: StagedEntry) -> bool {
    match item {
        InputItem::Path { path, content } => match content {
            Result::Ok(orig) => match item_apply(pl, orig@) {
                ApplyResult::Done { text, count } => e.path@ == path@ && e.content@ == text
                    && e.follow_symlinks == (pl.symlinks == Symlinks::Follow),
                _ => false,
            },
            Result::Err(_) => false,
        },
        InputItem::StdinText { .. } => false,
    }
}

/// How processing one item changes the staged sequence: one matching entry
/// appended when the item stages a write, nothing otherwise.
pub open spec fn stages_delta(
    pl: Pipeline,
    item: InputItem,
    before: Seq<StagedEntry>,
    after: Seq<StagedEntry>,
) -> bool {
    if item_stages(pl, item) {
        after.len() == before.len() + 1 && after.drop_last() == before && staged_entry_matches(
            pl,
            item,
            after.last(),
        )
    } else {
        after == before
    }
}

/// Processes one standing-text item: the operations run over the text, the
/// result is recorded, and on a live run the final content is routed to the
/// side channel (the transformed text when modified, the original
/// re-emitted verbatim otherwise). Nothing is ever staged for a text item.
pub fn process_text(original: Vec<u8>, operations: &Vec<Operation>, pipeline: &Pipeline) -> (r:
    FileResult)
    requires
        operations@ == pipeline.operations@,
    ensures
        fr_matches(*pipeline, InputItem::StdinText { text: original }, r),
{
    let mut copy: Vec<u8> = Vec::new();
    push_all(&mut copy, &original);
    match process_content_inner(copy, operations, pipeline, None) {
        Ok((modified, replacements, diff, new_content)) => {
            let content = if !pipeline.dry_run {
                Some(new_content)
            } else {
                None
            };
            FileResult {
                path: String::from_str("<stdin>"),
                modified,
                replacements,
                error: None,
                diff,
                content,
            }
        },
        Err(e) => FileResult {
            path: String::from_str("<stdin>"),
            modified: false,
            replacements: 0,
            error: Some(String::from_str(e.message().as_str())),
            diff: None,
            content: None,
        },
    }
}

/// Processes one path item whose content the caller has read: the
/// operations run over the bytes, the result is recorded, and on a live run
/// a modified target is staged with the pipeline's symlink policy. A failed
/// read is recorded as this item's error; the manager is left untouched on
/// every failure.
pub fn process_file(
    path: &String,
    content: Result<Vec<u8>, String>,
    operations: &Vec<Operation>,
    pipeline: &Pipeline,
    matches: Option<&Vec<ReplacementRange>>,
    tm: &mut TransactionManager,
) -> (r: FileResult)
    requires
        operations@ == pipeline.operations@,
    ensures
        fr_matches(*pipeline, InputItem::Path { path: *path, content: content }, r),
        stages_delta(
            *pipeline,
            InputItem::Path { path: *path, content: content },
            old(tm).staged_entries(),
            final(tm).staged_entries(),
        ),
{
    let ghost item = InputItem::Path { path: *path, content: content };
    match content {
        Err(msg) => FileResult {
            path: String::from_str(path.as_str()),
            modified: false,
            replacements: 0,
            error: Some(msg),
            diff: None,
            content: None,
        },
        Ok(bytes) => {
            let mut copy: Vec<u8> = Vec::new();
            push_all(&mut copy, &bytes);
            match process_content_inner(copy, operations, pipeline, matches) {
                Ok((modified, replacements, diff, new_content)) => {
                    if modified && !pipeline.dry_run {
                        let entry = StagedEntry {
                            path: String::from_str(path.as_str()),
                            content: new_content,
                            follow_symlinks: pipeline.symlinks == Symlinks::Follow,
                        };
                        tm.stage(entry);
                        proof {
                            assert(tm.staged_entries().drop_last() =~= old(tm).staged_entries());
                        }
                    }
                    FileResult {
                        path: String::from_str(path.as_str()),
                        modified,
                        replacements,
                        error: None,
                        diff,
                        content: None,
                    }
                },
                Err(e) => FileResult {
                    path: String::from_str(path.as_str()),
                    modified: false,
                    replacements: 0,
                    error: Some(String::from_str(e.message().as_str())),
                    diff: None,
                    content: None,
                },
            }
        },
    }
}

/// Whether processing an item yields an error result: an unreadable path
/// target, or any failure of its operation chain.
pub open spec fn item_errored(pl: Pipeline, item: InputItem) -> bool {
    match item {
        InputItem::Path { path, content } => match content {
            Result::Err(_) => true,
            Result::Ok(orig) => !(item_apply(pl, orig@) is Done),
        },
        InputItem::StdinText { text } => !(item_apply(pl, text@) is Done),
    }
}

/// A completed fail-fast run over `items`: one matching result per item up
/// to and including the first error, nothing after it, and exactly the
/// staged entries of the error-free modified path items, in order.
pub open spec fn run_matches(
    pl: Pipeline,
    items: Seq<InputItem>,
    frs: Seq<FileResult>,
    staged: Seq<StagedEntry>,
) -> bool
    decreases items.len(),
{
    if items.len() == 0 {
        frs.len() == 0 && staged.len() == 0
    } else {
        &&& frs.len() >= 1
        &&& fr_matches(pl, items[0], frs[0])
        &&& if item_errored(pl, items[0]) {
            frs.len() == 1 && staged.len() == 0
        } else if item_stages(pl, items[0]) {
            staged.len() >= 1 && staged_entry_matches(pl, items[0], staged[0]) && run_matches(
                pl,
                items.drop_first(),
                frs.drop_first(),
                staged.drop_first(),
            )
        } else {
            run_matches(pl, items.drop_first(), frs.drop_first(), staged)
        }
    }
}

/// A run prefix in which no item errored: one matching result per item and
/// exactly the staged entries of the modified path items, in order.
pub open spec fn run_clean(
    pl: Pipeline,
    items: Seq<InputItem>,
    frs: Seq<FileResult>,
    staged: Seq<StagedEntry>,
) -> bool
    decreases items.len(),
{
    if items.len() == 0 {
        frs.len() == 0 && staged.len() == 0
    } else {
        &&& frs.len() >= 1
        &&& fr_matches(pl, items[0], frs[0])
        &&& !item_errored(pl, items[0])
        &&& if item_stages(pl, items[0]) {
            staged.len() >= 1 && staged_entry_matches(pl, items[0], staged[0]) && run_clean(
                pl,
                items.drop_first(),
                frs.drop_first(),
                staged.drop_first(),
            )
        } else {
            run_clean(pl, items.drop_first(), frs.drop_first(), staged)
        }
    }
}

/// A clean prefix followed by a completed run is a completed run.
proof fn lemma_run_concat(
    pl: Pipeline,
    items1: Seq<InputItem>,
    items2: Seq<InputItem>,
    frs1: Seq<FileResult>,
    frs2: Seq<FileResult>,
    st1: Seq<StagedEntry>,
    st2: Seq<StagedEntry>,
)
    requires
        run_clean(pl, items1, frs1, st1),
        run_matches(pl, items2, frs2, st2),
    ensures
        run_matches(pl, items1 + items2, frs1 + frs2, st1 + st2),
    decreases items1.len(),
{
    if items1.len() == 0 {
        assert(items1 + items2 =~= items2);
        assert(frs1 + frs2 =~= frs2);
        assert(st1 + st2 =~= st2);
    } else {
        let itemsc = items1 + items2;
        let frsc = frs1 + frs2;
        assert(itemsc[0] == items1[0]);
        assert(frsc[0] == frs1[0]);
        assert(itemsc.drop_first() =~= items1.drop_first() + items2);
        assert(frsc.drop_first() =~= frs1.drop_first() + frs2);
        if item_stages(pl, items1[0]) {
            assert((st1 + st2)[0] == st1[0]);
            assert((st1 + st2).drop_first() =~= st1.drop_first() + st2);
            lemma_run_concat(
                pl,
                items1.drop_first(),
                items2,
                frs1.drop_first(),
                frs2,
                st1.drop_first(),
                st2,
            );
        } else {
            lemma_run_concat(pl, items1.drop_first(), items2, frs1.drop_first(), frs2, st1, st2);
        }
    }
}

/// Appending one error-free item to a clean prefix keeps it clean.
proof fn lemma_run_clean_push(
    pl: Pipeline,
    items: Seq<InputItem>,
    frs: Seq<FileResult>,
    staged: Seq<StagedEntry>,
    item: InputItem,
    fr: FileResult,
    staged2: Seq<StagedEntry>,
)
    requires
        run_clean(pl, items, frs, staged),
        fr_matches(pl, item, fr),
        !item_errored(pl, item),
        stages_delta(pl, item, staged, staged2),
    ensures
        run_clean(pl, items.push(item), frs.push(fr), staged2),
    decreases items.len(),
{
    if items.len() == 0 {
        assert(items.push(item)[0] == item);
        assert(frs.push(fr)[0] == fr);
        assert(items.push(item).drop_first() =~= Seq::<InputItem>::empty());
        assert(frs.push(fr).drop_first() =~= Seq::<FileResult>::empty());
        if item_stages(pl, item) {
            assert(staged2.len() == 1);
            assert(staged2[0] == staged2.last());
            assert(staged2.drop_first() =~= Seq::<StagedEntry>::empty());
            assert(run_clean(
                pl,
                items.push(item).drop_first(),
                frs.push(fr).drop_first(),
                staged2.drop_first(),
            ));
        } else {
            assert(staged2 =~= Seq::<StagedEntry>::empty());
            assert(run_clean(pl, items.push(item).drop_first(), frs.push(fr).drop_first(), staged2));
        }
    } else {
        assert(items.push(item)[0] == items[0]);
        assert(frs.push(fr)[0] == frs[0]);
        assert(items.push(item).drop_first() =~= items.drop_first().push(item));
        assert(frs.push(fr).drop_first() =~= frs.drop_first().push(fr));
        if item_stages(pl, items[0]) {
            if item_stages(pl, item) {
                assert(staged2[0] == staged[0]);
                assert(staged2.drop_first().drop_last() =~= staged.drop_first());
                assert(staged2.drop_first().last() == staged2.last());
                assert(stages_delta(pl, item, staged.drop_first(), staged2.drop_first()));
            } else {
                assert(staged2[0] == staged[0]);
                assert(staged2.drop_first() =~= staged.drop_first());
                assert(stages_delta(pl, item, staged.drop_first(), staged2.drop_first()));
            }
            lemma_run_clean_push(
                pl,
                items.drop_first(),
                frs.drop_first(),
                staged.drop_first(),
                item,
                fr,
                staged2.drop_first(),
            );
            assert(run_clean(
                pl,
                items.push(item).drop_first(),
                frs.push(fr).drop_first(),
                staged2.drop_first(),
            ));
        } else {
            lemma_run_clean_push(pl, items.drop_first(), frs.drop_first(), staged, item, fr, staged2);
            assert(run_clean(pl, items.push(item).drop_first(), frs.push(fr).drop_first(), staged2));
        }
    }
}

/// The pipeline as the run sees it: validate-only forces dry-run semantics,
/// since validation must never write.
pub open spec fn effective_pipeline(pl: Pipeline) -> Pipeline {
    Pipeline {
        operations: pl.operations,
        glob_include: pl.glob_include,
        glob_exclude: pl.glob_exclude,
        dry_run: pl.dry_run || pl.validate_only,
        validate_only: pl.validate_only,
        symlinks: pl.symlinks,
    }
}

/// Executes a pipeline over the input items and produces the report plus
/// the open transaction manager holding every staged write. Validation —
/// usable filter globs (each pattern parses and each filter set builds), a
/// non-empty filtered input set, a non-empty operation list — happens
/// before any item is processed; a failure there
/// aborts with a validation error and nothing staged. Items are processed
/// in order with fail-fast semantics. The caller commits the returned
/// manager on a live run, or drops it to leave every target untouched.
pub fn execute(pipeline: Pipeline, inputs: Vec<InputItem>) -> (r: Result<
    (Report, TransactionManager),
    Error,
>)
    ensures
        ({
            let kept = kept_items(pipeline.glob_include, pipeline.glob_exclude, inputs@);
            let cfg_ok = filters_ok(pipeline.glob_include) && filters_ok(pipeline.glob_exclude);
            &&& r.is_ok() == (cfg_ok && kept.len() > 0 && pipeline.operations@.len() > 0)
            &&& r matches Err(e) ==> e.is_validation()
            &&& (cfg_ok && kept.len() == 0) ==> (r matches Err(e) && e.spec_message()
                == "No input sources specified (or all filtered out)"@)
            &&& (cfg_ok && kept.len() > 0 && pipeline.operations@.len() == 0) ==> (r matches
                Err(e) && e.spec_message() == "No operations specified"@)
            &&& r matches Ok(p) ==> p.0.dry_run == (pipeline.dry_run || pipeline.validate_only)
                && p.0.validate_only == pipeline.validate_only && run_matches(
                effective_pipeline(pipeline),
                kept,
                p.0.files@,
                p.1.staged_entries(),
            )
        }),
{
    let ghost pipe0 = pipeline;
    let ghost inputs0 = inputs@;
    let filtered = match filter_inputs(inputs, &pipeline.glob_include, &pipeline.glob_exclude) {
        Ok(v) => v,
        Err(e) => {
            return Err(e);
        },
    };
    if filtered.len() == 0 {
        return Err(
            Error::Validation(
                String::from_str("No input sources specified (or all filtered out)"),
            ),
        );
    }
    if pipeline.operations.len() == 0 {
        return Err(Error::Validation(String::from_str("No operations specified")));
    }
    let mut pl = pipeline;
    if pl.validate_only {
        pl.dry_run = true;
    }
    proof {
        assert(pl == effective_pipeline(pipe0));
    }
    let mut report = Report::new(pl.dry_run, pl.validate_only);
    let mut tm = TransactionManager::new();
    let ghost kept = filtered@;
    let ghost mut processed: Seq<InputItem> = Seq::empty();
    let mut rest = filtered;
    let mut halted = false;
    proof {
        assert(kept =~= processed + rest@);
        assert(run_clean(pl, processed, report.files@, tm.staged_entries()));
    }
    while !halted && rest.len() > 0
        invariant
            pl == effective_pipeline(pipe0),
            report.dry_run == pl.dry_run,
            report.validate_only == pl.validate_only,
            !halted ==> kept == processed + rest@,
            !halted ==> run_clean(pl, processed, report.files@, tm.staged_entries()),
            halted ==> run_matches(pl, kept, report.files@, tm.staged_entries()),
        decreases rest@.len(),
    {
        let ghost rest0 = rest@;
        let ghost files0 = report.files@;
        let ghost staged0 = tm.staged_entries();
        let item = rest.remove(0);
        let ghost itemg = item;
        proof {
            assert(rest0.drop_first() =~= rest@);
            assert(rest0[0] == itemg);
        }
        let fr = match item {
            InputItem::Path { path, content } => {
                process_file(&path, content, &pl.operations, &pl, None, &mut tm)
            },
            InputItem::StdinText { text } => process_text(text, &pl.operations, &pl),
        };
        proof {
            assert(fr_matches(pl, itemg, fr));
            assert(stages_delta(pl, itemg, staged0, tm.staged_entries()));
        }
        let has_error = fr.error.is_some();
        proof {
            assert(has_error == item_errored(pl, itemg));
        }
        report.add_result(fr);
        if has_error {
            halted = true;
            proof {
                assert(!item_stages(pl, itemg));
                assert(tm.staged_entries() =~= staged0);
                assert(run_matches(
                    pl,
                    seq![itemg] + rest@,
                    seq![fr],
                    Seq::<StagedEntry>::empty(),
                )) by {
                    assert((seq![itemg] + rest@)[0] == itemg);
                    assert(seq![fr][0] == fr);
                }
                lemma_run_concat(
                    pl,
                    processed,
                    seq![itemg] + rest@,
                    files0,
                    seq![fr],
                    staged0,
                    Seq::<StagedEntry>::empty(),
                );
                assert(processed + (seq![itemg] + rest@) =~= kept);
                assert(files0 + seq![fr] =~= report.files@);
                assert(staged0 + Seq::<StagedEntry>::empty() =~= tm.staged_entries());
            }
        } else {
            proof {
                lemma_run_clean_push(
                    pl,
                    processed,
                    files0,
                    staged0,
                    itemg,
                    fr,
                    tm.staged_entries(),
                );
                assert(files0.push(fr) =~= report.files@);
                processed = processed.push(itemg);
                assert(kept =~= processed + rest@);
            }
        }
    }
    proof {
        if !halted {
            assert(rest@.len() == 0);
            assert(run_matches(
                pl,
                Seq::<InputItem>::empty(),
                Seq::<FileResult>::empty(),
                Seq::<StagedEntry>::empty(),
            ));
            lemma_run_concat(
                pl,
                processed,
                Seq::<InputItem>::empty(),
                report.files@,
                Seq::<FileResult>::empty(),
                tm.staged_entries(),
                Seq::<StagedEntry>::empty(),
            );
            assert(processed + Seq::<InputItem>::empty() =~= kept);
            assert(report.files@ + Seq::<FileResult>::empty() =~= report.files@);
            assert(tm.staged_entries() + Seq::<StagedEntry>::empty() =~= tm.staged_entries());
        }
    }
    Ok((report, tm))
}

/// A run that must never write, never does: under dry-run semantics (which
/// validate-only forces) a completed run stages nothing, and every item
/// whose content would change under identical operations carries a
/// non-empty diff.
pub proof fn lemma_dry_run_writes_nothing(
    pl: Pipeline,
    items: Seq<InputItem>,
    frs: Seq<FileResult>,
    staged: Seq<StagedEntry>,
)
    requires
        pl.dry_run,
        run_matches(pl, items, frs, staged),
    ensures
        staged.len() == 0,
        forall|i: int|
            0 <= i < frs.len() && (#[trigger] frs[i]).modified ==> (frs[i].diff matches Some(d)
                && d@.len() > 0),
    decreases items.len(),
{
    if items.len() == 0 {
    } else {
        assert(!item_stages(pl, items[0]));
        if item_errored(pl, items[0]) {
            assert(!frs[0].modified);
        } else {
            lemma_dry_run_writes_nothing(pl, items.drop_first(), frs.drop_first(), staged);
            assert forall|i: int|
                0 <= i < frs.len() && (#[trigger] frs[i]).modified implies (frs[i].diff matches
            Some(d) && d@.len() > 0) by {
                if i > 0 {
                    assert(frs[i] == frs.drop_first()[i - 1]);
                }
            }
        }
    }
}

} // verus!
