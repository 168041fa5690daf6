//! The parser: token streams to the syntax model.
//!
//! The grammar, informally:
//! `EXPR := [IDENT '=' ['>']] ( '"' EXPR '"' | 'impl' BOUND 'for' TYPE | FRAG ('|' FRAG)* ['where' PRED (',' PRED)*] )`;
//! `FRAG := ['$'] [IDENT | '_'] COMP`; `COMP := '(' PARAMS ')' | '{' PARAMS '}' | ε`;
//! `PARAM := '..' [INT] | IDENT ':' TYPE | TYPE`.
//! A type is a balanced token run rendered to its canonical text.
//!
//! Errors carry the span of the offending token; the contracts of the
//! parsing functions state progress and bounds, and `find_run_end`
//! states exactly which tokens a type run takes.

use vstd::prelude::*;

use crate::error::Diag;
use crate::error::Span;
use crate::model::Bound;
use crate::model::BoundArg;
use crate::model::BoundModifier;
use crate::model::Clause;
use crate::model::Field;
use crate::model::Fields;
use crate::model::PatComposite;
use crate::model::BoundArgV;
use crate::model::bound_arg_seq_view;
use crate::model::bound_seq_view;
use crate::model::bound_view;
use crate::model::field_seq_view;
use crate::model::field_view;
use crate::model::pat_composite_view;
use crate::model::pred_seq_view;
use crate::model::clause_preds_view;
use crate::model::expr_view;
use crate::model::subject_view;
use crate::model::pat_field_kind_view;
use crate::model::pat_frag_seq_view;
use crate::model::pat_frag_view;
use crate::model::pat_param_seq_view;
use crate::model::trait_bound_view;
use crate::model::variant_seq_view;
use crate::model::variant_view;
use crate::model::where_pred_view;
use crate::model::BoundV;
use crate::model::FieldV;
use crate::model::FieldsV;
use crate::model::PatCompositeV;
use crate::model::PatFieldKind;
use crate::model::PatFieldKindV;
use crate::model::PatFragV;
use crate::model::PatTyV;
use crate::model::PenumExprV;
use crate::model::SubjectV;
use crate::model::TraitBoundV;
use crate::model::VariantV;
use crate::model::WherePredV;
use crate::model::PatFrag;
use crate::model::PenumExpr;
use crate::model::Subject;
use crate::model::TraitBound;
use crate::model::Variant;
use crate::model::WherePred;
use crate::text::Tok;
use crate::text::canon_of_range;
use crate::text::canon_range;
use crate::text::text_of;
use crate::text::tokenize;
use crate::text::tokenize_from;
use crate::text::toks_view;
use crate::text::word_char;

verus! {

broadcast use crate::text::lemma_text_deep_view, crate::text::lemma_toks_view_index, crate::text::lemma_toks_view_len;

/// Where the balanced token run that starts at `i` ends, scanning at
/// nesting `depth`: the first index at depth zero holding `,`, an
/// unmatched closer, `>` when `stop_gt` (except after `-`), or a
/// single `:` when `stop_colon` (a `::` is consumed as a path
/// separator).  Parentheses, braces, brackets and angles nest.
pub open spec fn run_end(
    ts: Seq<(Seq<char>, int)>,
    i: int,
    depth: int,
    stop_colon: bool,
    stop_gt: bool,
    stop_brace: bool,
) -> int
    decreases ts.len() - i,
    when 0 <= i
{
    if i >= ts.len() {
        i
    } else {
        let t = ts[i].0;
        if depth == 0 && t == seq![','] {
            i
        } else if depth == 0 && (t == seq![')'] || t == seq!['}'] || t == seq![']']) {
            i
        } else if depth == 0 && stop_brace && t == seq!['{'] {
            i
        } else if depth == 0 && stop_gt && t == seq!['>'] && !(i > 0 && ts[i - 1].0 == seq!['-']) {
            i
        } else if depth == 0 && stop_colon && t == seq![':'] && !(i + 1 < ts.len() && ts[i + 1].0
            == seq![':']) {
            i
        } else if depth == 0 && stop_colon && t == seq![':'] {
            run_end(ts, i + 2, depth, stop_colon, stop_gt, stop_brace)
        } else if t == seq!['('] || t == seq!['{'] || t == seq!['['] || t == seq!['<'] {
            run_end(ts, i + 1, depth + 1, stop_colon, stop_gt, stop_brace)
        } else if t == seq![')'] || t == seq!['}'] || t == seq![']'] {
            run_end(ts, i + 1, depth - 1, stop_colon, stop_gt, stop_brace)
        } else if t == seq!['>'] && depth > 0 && !(i > 0 && ts[i - 1].0 == seq!['-']) {
            run_end(ts, i + 1, depth - 1, stop_colon, stop_gt, stop_brace)
        } else {
            run_end(ts, i + 1, depth, stop_colon, stop_gt, stop_brace)
        }
    }
}

pub proof fn lemma_run_end_bounds(
    ts: Seq<(Seq<char>, int)>,
    i: int,
    depth: int,
    stop_colon: bool,
    stop_gt: bool,
    stop_brace: bool,
)
    requires
        0 <= i <= ts.len(),
    ensures
        i <= run_end(ts, i, depth, stop_colon, stop_gt, stop_brace) <= ts.len(),
    decreases ts.len() - i,
{
    if i < ts.len() {
        let t = ts[i].0;
        if depth == 0 && stop_colon && t == seq![':'] && i + 1 < ts.len() && ts[i + 1].0 == seq![
            ':',
        ] {
            lemma_run_end_bounds(ts, i + 2, depth, stop_colon, stop_gt, stop_brace);
        } else {
            lemma_run_end_bounds(ts, i + 1, depth + 1, stop_colon, stop_gt, stop_brace);
            lemma_run_end_bounds(ts, i + 1, depth - 1, stop_colon, stop_gt, stop_brace);
            lemma_run_end_bounds(ts, i + 1, depth, stop_colon, stop_gt, stop_brace);
        }
    }
}

// ------------------------------------------------------------------
// The grammar, as spec-level functions
// ------------------------------------------------------------------
// Each executable parsing function below is proved to return `Ok`
// exactly when the corresponding spec-level function returns `Some`,
// and to return exactly the model value and next position that the
// spec-level function names.  The spec functions work over the token
// view `tokenize_from` produces, so every contract reaches back to
// the source text.
/// Addition capped at the largest `usize`, as `saturating_add` is.
pub open spec fn sat_add(a: int, b: int) -> int {
    if a + b > usize::MAX {
        usize::MAX as int
    } else {
        a + b
    }
}

/// The span of the token `t`.
pub open spec fn tok_span_v(t: (Seq<char>, int)) -> Span {
    Span { lo: t.1 as usize, hi: sat_add(t.1, t.0.len() as int) as usize }
}

/// The span at position `i`: the token's own, or a point span at the
/// end of the last token.
pub open spec fn spec_span_at(tv: Seq<(Seq<char>, int)>, i: int) -> Span {
    if 0 <= i < tv.len() {
        tok_span_v(tv[i])
    } else if tv.len() > 0 {
        let e = sat_add(tv[tv.len() - 1].1, tv[tv.len() - 1].0.len() as int) as usize;
        Span { lo: e, hi: e }
    } else {
        Span { lo: 0, hi: 0 }
    }
}

/// The span of the token run `tv[lo..hi]`.
pub open spec fn spec_run_span(tv: Seq<(Seq<char>, int)>, lo: int, hi: int) -> Span {
    if lo < hi {
        Span { lo: tv[lo].1 as usize, hi: sat_add(tv[hi - 1].1, tv[hi - 1].0.len() as int) as usize }
    } else {
        spec_span_at(tv, lo)
    }
}

/// Whether a token text is an identifier: a word not starting with a
/// digit.
pub open spec fn is_ident_text(t: Seq<char>) -> bool {
    t.len() > 0 && crate::text::is_word_char(t[0]) && !('0' <= t[0] && t[0] <= '9')
}

/// Whether a token text is a number.
pub open spec fn is_number_text(t: Seq<char>) -> bool {
    t.len() > 0 && '0' <= t[0] && t[0] <= '9'
}

/// The canonical text of the token run `tv[lo..hi]`.
pub open spec fn rend(tv: Seq<(Seq<char>, int)>, lo: int, hi: int) -> Seq<char> {
    canon_range(tv, lo, hi)
}

/// Prepends an already parsed prefix to the rest of a list parse.
pub open spec fn compose<T>(pre: Seq<T>, o: Option<(Seq<T>, int)>) -> Option<(Seq<T>, int)> {
    match o {
        None => None,
        Some((rest, k)) => Some((pre + rest, k)),
    }
}

pub proof fn lemma_compose_empty<T>(o: Option<(Seq<T>, int)>)
    ensures
        compose(Seq::<T>::empty(), o) == o,
{
    match o {
        None => {
        },
        Some((r, k)) => {
            assert(Seq::<T>::empty() + r =~= r);
        },
    }
}

pub proof fn lemma_compose_push<T>(pre: Seq<T>, x: T, o: Option<(Seq<T>, int)>)
    ensures
        compose(pre.push(x), o) == compose(pre, compose(seq![x], o)),
{
    match o {
        None => {
        },
        Some((r, k)) => {
            assert(pre.push(x) + r =~= pre + (seq![x] + r));
        },
    }
}

// ------------------------------------------------------------------
// Bounds
// ------------------------------------------------------------------
/// The generic arguments of a bound after the opening `<`: a
/// `>`-terminated comma list of `NAME = TYPE` bindings and type runs.
pub open spec fn spec_bound_args(tv: Seq<(Seq<char>, int)>, i: int) -> Option<
    (Seq<BoundArgV>, int),
>
    decreases tv.len() - i,
    when 0 <= i
    via spec_bound_args_dec
{
    if i >= tv.len() {
        None
    } else if tv[i].0 == seq!['>'] {
        Some((Seq::empty(), i + 1))
    } else {
        let named = is_ident_text(tv[i].0) && i + 1 < tv.len() && tv[i + 1].0 == seq!['='];
        let name: Option<Seq<char>> = if named {
            Some(tv[i].0)
        } else {
            None
        };
        let j = if named {
            i + 2
        } else {
            i
        };
        let end = run_end(tv, j, 0, false, true, false);
        if end <= j {
            None
        } else {
            let arg = BoundArgV { name, value: rend(tv, j, end) };
            if end < tv.len() && tv[end].0 == seq![','] {
                compose(seq![arg], spec_bound_args(tv, end + 1))
            } else if end < tv.len() && tv[end].0 == seq!['>'] {
                Some((seq![arg], end + 1))
            } else {
                None
            }
        }
    }
}

#[via_fn]
proof fn spec_bound_args_dec(tv: Seq<(Seq<char>, int)>, i: int) {
    if 0 <= i < tv.len() && !(tv[i].0 == seq!['>']) {
        let named = is_ident_text(tv[i].0) && i + 1 < tv.len() && tv[i + 1].0 == seq!['='];
        let j = if named {
            i + 2
        } else {
            i
        };
        lemma_run_end_bounds(tv, j, 0, false, true, false);
    }
}

pub proof fn lemma_spec_bound_args_bounds(tv: Seq<(Seq<char>, int)>, i: int)
    requires
        0 <= i,
    ensures
        spec_bound_args(tv, i) is Some ==> i < ({ let q = spec_bound_args(tv, i)->0; q.1 }) <= tv.len(),
    decreases tv.len() - i,
{
    if i < tv.len() && !(tv[i].0 == seq!['>']) {
        let named = is_ident_text(tv[i].0) && i + 1 < tv.len() && tv[i + 1].0 == seq!['='];
        let j = if named {
            i + 2
        } else {
            i
        };
        lemma_run_end_bounds(tv, j, 0, false, true, false);
        let end = run_end(tv, j, 0, false, true, false);
        if end > j && end < tv.len() && tv[end].0 == seq![','] {
            lemma_spec_bound_args_bounds(tv, end + 1);
        }
    }
}

/// The end of the `IDENT ('::' IDENT)*` path whose head was already
/// consumed; fails on a `::` not followed by an identifier.
pub open spec fn spec_path_end(tv: Seq<(Seq<char>, int)>, i: int) -> Option<int>
    decreases tv.len() - i,
    when 0 <= i
{
    if i < tv.len() && i + 1 < tv.len() && tv[i].0 == seq![':'] && tv[i + 1].0 == seq![':'] {
        if i + 2 < tv.len() && is_ident_text(tv[i + 2].0) {
            spec_path_end(tv, i + 3)
        } else {
            None
        }
    } else {
        Some(i)
    }
}

pub proof fn lemma_spec_path_end_bounds(tv: Seq<(Seq<char>, int)>, i: int)
    requires
        0 <= i <= tv.len(),
    ensures
        spec_path_end(tv, i) is Some ==> i <= spec_path_end(tv, i)->0 <= tv.len(),
    decreases tv.len() - i,
{
    if i < tv.len() && i + 1 < tv.len() && tv[i].0 == seq![':'] && tv[i + 1].0 == seq![':'] && i + 2
        < tv.len() && is_ident_text(tv[i + 2].0) {
        lemma_spec_path_end_bounds(tv, i + 3);
    }
}

/// One bound: an optional `^` or `?` modifier, then a lifetime (kept
/// verbatim) or a trait path with optional generic arguments.
pub open spec fn spec_bound(tv: Seq<(Seq<char>, int)>, i: int) -> Option<(BoundV, int)> {
    if i < 0 {
        None
    } else {
        let modifier = if i < tv.len() && tv[i].0 == seq!['^'] {
            BoundModifier::Dispatch
        } else if i < tv.len() && tv[i].0 == seq!['?'] {
            BoundModifier::Maybe
        } else {
            BoundModifier::Plain
        };
        let j = if i < tv.len() && (tv[i].0 == seq!['^'] || tv[i].0 == seq!['?']) {
            i + 1
        } else {
            i
        };
        if j < tv.len() && tv[j].0 == seq!['\''] {
            let next = if j + 1 < tv.len() {
                j + 2
            } else {
                j + 1
            };
            Some(
                (
                    BoundV::Lifetime { span: spec_run_span(tv, j, next), text: rend(tv, j, next) },
                    next,
                ),
            )
        } else if j < tv.len() && is_ident_text(tv[j].0) {
            match spec_path_end(tv, j + 1) {
                None => None,
                Some(pe) => {
                    let name = rend(tv, j, pe);
                    let span = spec_run_span(tv, j, pe);
                    if pe < tv.len() && tv[pe].0 == seq!['<'] {
                        match spec_bound_args(tv, pe + 1) {
                            None => None,
                            Some((args, next)) => Some(
                                (BoundV::Trait(TraitBoundV { modifier, name, args, span }), next),
                            ),
                        }
                    } else {
                        Some(
                            (
                                BoundV::Trait(
                                    TraitBoundV { modifier, name, args: Seq::empty(), span },
                                ),
                                pe,
                            ),
                        )
                    }
                },
            }
        } else {
            None
        }
    }
}

pub proof fn lemma_spec_bound_bounds(tv: Seq<(Seq<char>, int)>, i: int)
    requires
        0 <= i,
    ensures
        spec_bound(tv, i) is Some ==> i < ({ let q = spec_bound(tv, i)->0; q.1 }) <= tv.len(),
{
    let j = if i < tv.len() && (tv[i].0 == seq!['^'] || tv[i].0 == seq!['?']) {
        i + 1
    } else {
        i
    };
    if j < tv.len() && !(tv[j].0 == seq!['\'']) && is_ident_text(tv[j].0) {
        lemma_spec_path_end_bounds(tv, j + 1);
        match spec_path_end(tv, j + 1) {
            None => {
            },
            Some(pe) => {
                if pe < tv.len() && tv[pe].0 == seq!['<'] {
                    lemma_spec_bound_args_bounds(tv, pe + 1);
                }
            },
        }
    }
}

/// The `+ BOUND` continuations of a bound list.
pub open spec fn spec_bounds_more(tv: Seq<(Seq<char>, int)>, i: int) -> Option<(Seq<BoundV>, int)>
    decreases tv.len() - i,
    when 0 <= i
    via spec_bounds_more_dec
{
    if i < tv.len() && tv[i].0 == seq!['+'] {
        match spec_bound(tv, i + 1) {
            None => None,
            Some((b, j)) => compose(seq![b], spec_bounds_more(tv, j)),
        }
    } else {
        Some((Seq::empty(), i))
    }
}

#[via_fn]
proof fn spec_bounds_more_dec(tv: Seq<(Seq<char>, int)>, i: int) {
    if 0 <= i < tv.len() && tv[i].0 == seq!['+'] {
        lemma_spec_bound_bounds(tv, i + 1);
    }
}

/// A `+`-separated bound list.
pub open spec fn spec_bounds(tv: Seq<(Seq<char>, int)>, i: int) -> Option<(Seq<BoundV>, int)> {
    match spec_bound(tv, i) {
        None => None,
        Some((b, j)) => compose(seq![b], spec_bounds_more(tv, j)),
    }
}

pub proof fn lemma_spec_bounds_more_bounds(tv: Seq<(Seq<char>, int)>, i: int)
    requires
        0 <= i,
    ensures
        spec_bounds_more(tv, i) is Some && i <= tv.len() ==> i <= ({
            let q = spec_bounds_more(tv, i)->0;
            q.1
        }) <= tv.len(),
    decreases tv.len() - i,
{
    if i < tv.len() && tv[i].0 == seq!['+'] {
        lemma_spec_bound_bounds(tv, i + 1);
        match spec_bound(tv, i + 1) {
            None => {
            },
            Some((b, j)) => {
                lemma_spec_bounds_more_bounds(tv, j);
            },
        }
    }
}

pub proof fn lemma_spec_bounds_bounds(tv: Seq<(Seq<char>, int)>, i: int)
    requires
        0 <= i,
    ensures
        spec_bounds(tv, i) is Some ==> i < ({ let q = spec_bounds(tv, i)->0; q.1 }) <= tv.len(),
{
    lemma_spec_bound_bounds(tv, i);
    match spec_bound(tv, i) {
        None => {
        },
        Some((b, j)) => {
            lemma_spec_bounds_more_bounds(tv, j);
        },
    }
}

// ------------------------------------------------------------------
// Pattern positions
// ------------------------------------------------------------------
/// The type at a pattern position: the balanced run's canonical text;
/// an `impl` head makes it an `impl TraitSet` position whose bounds
/// must parse.
pub open spec fn spec_ty(tv: Seq<(Seq<char>, int)>, i: int) -> Option<(PatTyV, Span, int)> {
    if i < 0 {
        None
    } else {
        let end = run_end(tv, i, 0, false, false, false);
        if end <= i {
            None
        } else {
            let text = rend(tv, i, end);
            let span = spec_run_span(tv, i, end);
            if tv[i].0 == "impl"@ {
                match spec_bounds(tv, i + 1) {
                    None => None,
                    Some((bs, _)) => Some((PatTyV::ImplTrait { bounds: bs, text }, span, end)),
                }
            } else {
                Some((PatTyV::Plain(text), span, end))
            }
        }
    }
}

pub proof fn lemma_spec_ty_bounds(tv: Seq<(Seq<char>, int)>, i: int)
    requires
        0 <= i,
    ensures
        spec_ty(tv, i) is Some ==> i < ({ let q = spec_ty(tv, i)->0; q.2 }) <= tv.len(),
{
    if i <= tv.len() {
        lemma_run_end_bounds(tv, i, 0, false, false, false);
    }
}

/// One composite parameter: `..N`, `..`, `IDENT ':' TYPE` (the colon
/// not a path separator), or a bare type run — tried in that order.
pub open spec fn spec_param(tv: Seq<(Seq<char>, int)>, i: int) -> Option<(PatFieldKindV, int)> {
    if i < 0 || i >= tv.len() {
        None
    } else if tv[i].0 == seq!['.'] && i + 1 < tv.len() && tv[i + 1].0 == seq!['.'] {
        if i + 2 < tv.len() && is_number_text(tv[i + 2].0) {
            Some(
                (
                    PatFieldKindV::Range {
                        span: Span { lo: tv[i].1 as usize, hi: tok_span_v(tv[i + 2]).hi },
                    },
                    i + 3,
                ),
            )
        } else {
            Some(
                (
                    PatFieldKindV::Variadic {
                        span: Span { lo: tv[i].1 as usize, hi: sat_add(tv[i + 1].1, 1) as usize },
                    },
                    i + 2,
                ),
            )
        }
    } else if is_ident_text(tv[i].0) && i + 1 < tv.len() && tv[i + 1].0 == seq![':'] && !(i + 2
        < tv.len() && tv[i + 2].0 == seq![':']) {
        match spec_ty(tv, i + 2) {
            None => None,
            Some((ty, span, j)) => Some(
                (PatFieldKindV::Field { name: Some(tv[i].0), ty, span }, j),
            ),
        }
    } else {
        match spec_ty(tv, i) {
            None => None,
            Some((ty, span, j)) => Some((PatFieldKindV::Field { name: None, ty, span }, j)),
        }
    }
}

pub proof fn lemma_spec_param_bounds(tv: Seq<(Seq<char>, int)>, i: int)
    requires
        0 <= i,
    ensures
        spec_param(tv, i) is Some ==> i < ({ let q = spec_param(tv, i)->0; q.1 }) <= tv.len(),
{
    lemma_spec_ty_bounds(tv, i);
    lemma_spec_ty_bounds(tv, i + 2);
}

/// The parameters of a composite after its opening delimiter: a
/// `close`-terminated comma list of parameters.
pub open spec fn spec_params(tv: Seq<(Seq<char>, int)>, i: int, close: char) -> Option<
    (Seq<PatFieldKindV>, int),
>
    decreases tv.len() - i,
    when 0 <= i
    via spec_params_dec
{
    if i >= tv.len() {
        None
    } else if tv[i].0 == seq![close] {
        Some((Seq::empty(), i + 1))
    } else {
        match spec_param(tv, i) {
            None => None,
            Some((p, j)) => {
                if j < tv.len() && tv[j].0 == seq![','] {
                    compose(seq![p], spec_params(tv, j + 1, close))
                } else if j < tv.len() && tv[j].0 == seq![close] {
                    Some((seq![p], j + 1))
                } else {
                    None
                }
            },
        }
    }
}

#[via_fn]
proof fn spec_params_dec(tv: Seq<(Seq<char>, int)>, i: int, close: char) {
    if 0 <= i < tv.len() && !(tv[i].0 == seq![close]) {
        lemma_spec_param_bounds(tv, i);
    }
}

pub proof fn lemma_spec_params_bounds(tv: Seq<(Seq<char>, int)>, i: int, close: char)
    requires
        0 <= i,
    ensures
        spec_params(tv, i, close) is Some ==> i < ({ let q = spec_params(tv, i, close)->0; q.1 }) <= tv.len(),
    decreases tv.len() - i,
{
    if i < tv.len() && !(tv[i].0 == seq![close]) {
        lemma_spec_param_bounds(tv, i);
        match spec_param(tv, i) {
            None => {
            },
            Some((p, j)) => {
                if j < tv.len() && tv[j].0 == seq![','] {
                    lemma_spec_params_bounds(tv, j + 1, close);
                }
            },
        }
    }
}

/// A composite: a braced or parenthesised parameter group — an empty
/// group is the unit composite — or nothing.
pub open spec fn spec_composite(tv: Seq<(Seq<char>, int)>, i: int) -> Option<
    (PatCompositeV, int),
> {
    if 0 <= i < tv.len() && tv[i].0 == seq!['{'] {
        match spec_params(tv, i + 1, '}') {
            None => None,
            Some((ps, j)) => Some(
                (
                    if ps.len() == 0 {
                        PatCompositeV::Unit
                    } else {
                        PatCompositeV::Named(ps)
                    },
                    j,
                ),
            ),
        }
    } else if 0 <= i < tv.len() && tv[i].0 == seq!['('] {
        match spec_params(tv, i + 1, ')') {
            None => None,
            Some((ps, j)) => Some(
                (
                    if ps.len() == 0 {
                        PatCompositeV::Unit
                    } else {
                        PatCompositeV::Unnamed(ps)
                    },
                    j,
                ),
            ),
        }
    } else {
        Some((PatCompositeV::Unit, i))
    }
}

/// One pattern fragment: an optional `$` is discarded; a `_` head is
/// the inferred composite; otherwise an optional identifier head and
/// the composite after it.  A fragment must consume at least one
/// token.
pub open spec fn spec_frag(tv: Seq<(Seq<char>, int)>, i: int) -> Option<(PatFragV, int)> {
    if i < 0 {
        None
    } else {
        let j = if i < tv.len() && tv[i].0 == seq!['$'] {
            i + 1
        } else {
            i
        };
        if j < tv.len() && tv[j].0 == seq!['_'] {
            Some((PatFragV { ident: None, group: PatCompositeV::Inferred }, j + 1))
        } else {
            let named = j < tv.len() && is_ident_text(tv[j].0) && tv[j].0 != "where"@;
            let ident: Option<Seq<char>> = if named {
                Some(tv[j].0)
            } else {
                None
            };
            let j2 = if named {
                j + 1
            } else {
                j
            };
            match spec_composite(tv, j2) {
                None => None,
                Some((g, next)) => {
                    if next == i {
                        None
                    } else {
                        Some((PatFragV { ident, group: g }, next))
                    }
                },
            }
        }
    }
}

#[verifier::rlimit(40)]
pub proof fn lemma_spec_frag_bounds(tv: Seq<(Seq<char>, int)>, i: int)
    requires
        0 <= i <= tv.len(),
    ensures
        spec_frag(tv, i) is Some ==> i < ({ let q = spec_frag(tv, i)->0; q.1 }) <= tv.len(),
{
    lemma_spec_params_bounds(tv, i + 1, '}');
    lemma_spec_params_bounds(tv, i + 1, ')');
    lemma_spec_params_bounds(tv, i + 2, '}');
    lemma_spec_params_bounds(tv, i + 2, ')');
    lemma_spec_params_bounds(tv, i + 3, '}');
    lemma_spec_params_bounds(tv, i + 3, ')');
}

/// The `'|' FRAG` continuations of a pattern list.
pub open spec fn spec_pattern_more(tv: Seq<(Seq<char>, int)>, i: int) -> Option<
    (Seq<PatFragV>, int),
>
    decreases tv.len() - i,
    when 0 <= i <= tv.len()
    via spec_pattern_more_dec
{
    if i < tv.len() && tv[i].0 == seq!['|'] {
        match spec_frag(tv, i + 1) {
            None => None,
            Some((f, j)) => compose(seq![f], spec_pattern_more(tv, j)),
        }
    } else {
        Some((Seq::empty(), i))
    }
}

#[via_fn]
proof fn spec_pattern_more_dec(tv: Seq<(Seq<char>, int)>, i: int) {
    if 0 <= i < tv.len() && tv[i].0 == seq!['|'] {
        lemma_spec_frag_bounds(tv, i + 1);
    }
}

/// A `|`-separated pattern list.
pub open spec fn spec_pattern(tv: Seq<(Seq<char>, int)>, i: int) -> Option<(Seq<PatFragV>, int)> {
    match spec_frag(tv, i) {
        None => None,
        Some((f, j)) => compose(seq![f], spec_pattern_more(tv, j)),
    }
}

pub proof fn lemma_spec_pattern_more_bounds(tv: Seq<(Seq<char>, int)>, i: int)
    requires
        0 <= i <= tv.len(),
    ensures
        spec_pattern_more(tv, i) is Some ==> i <= ({ let q = spec_pattern_more(tv, i)->0; q.1 }) <= tv.len(),
    decreases tv.len() - i,
{
    if i < tv.len() && tv[i].0 == seq!['|'] {
        lemma_spec_frag_bounds(tv, i + 1);
        match spec_frag(tv, i + 1) {
            None => {
            },
            Some((f, j)) => {
                lemma_spec_pattern_more_bounds(tv, j);
            },
        }
    }
}

// ------------------------------------------------------------------
// Clauses and expressions
// ------------------------------------------------------------------
/// The pseudo-predicate `impl BOUND for TYPE`, desugared to
/// `TYPE: ^BOUND`.
pub open spec fn spec_impl_pred(tv: Seq<(Seq<char>, int)>, i: int) -> Option<(WherePredV, int)> {
    if !(0 <= i < tv.len()) {
        None
    } else {
        let span = tok_span_v(tv[i]);
        match spec_bound(tv, i + 1) {
            None => None,
            Some((b, j)) => match b {
                BoundV::Lifetime { .. } => None,
                BoundV::Trait(tb) => {
                    if j < tv.len() && tv[j].0 == "for"@ {
                        let end = run_end(tv, j + 1, 0, false, false, false);
                        if end <= j + 1 {
                            None
                        } else {
                            Some(
                                (
                                    WherePredV::Type {
                                        span,
                                        bounded_ty: rend(tv, j + 1, end),
                                        bounds: seq![
                                            BoundV::Trait(
                                                TraitBoundV {
                                                    modifier: BoundModifier::Dispatch,
                                                    ..tb
                                                },
                                            ),
                                        ],
                                    },
                                    end,
                                ),
                            )
                        }
                    } else {
                        None
                    }
                },
            },
        }
    }
}

/// One where-clause predicate: a lifetime predicate consumed whole, an
/// `impl` pseudo-predicate, or `TYPE ':' BOUNDS`.
pub open spec fn spec_pred(tv: Seq<(Seq<char>, int)>, i: int) -> Option<(WherePredV, int)> {
    if !(0 <= i < tv.len()) {
        None
    } else if tv[i].0 == seq!['\''] {
        let end0 = run_end(tv, i, 0, false, false, false);
        let end = if end0 == i {
            i + 1
        } else {
            end0
        };
        Some((WherePredV::Lifetime { span: spec_run_span(tv, i, end) }, end))
    } else if tv[i].0 == "impl"@ {
        spec_impl_pred(tv, i)
    } else {
        let ty_end = run_end(tv, i, 0, true, false, false);
        if ty_end == i {
            None
        } else if !(ty_end < tv.len() && tv[ty_end].0 == seq![':']) {
            None
        } else {
            match spec_bounds(tv, ty_end + 1) {
                None => None,
                Some((bs, j)) => Some(
                    (
                        WherePredV::Type {
                            span: spec_run_span(tv, i, ty_end),
                            bounded_ty: rend(tv, i, ty_end),
                            bounds: bs,
                        },
                        j,
                    ),
                ),
            }
        }
    }
}

pub proof fn lemma_spec_pred_bounds(tv: Seq<(Seq<char>, int)>, i: int)
    requires
        0 <= i,
    ensures
        spec_pred(tv, i) is Some ==> i < ({ let q = spec_pred(tv, i)->0; q.1 }) <= tv.len(),
{
    if i < tv.len() {
        lemma_run_end_bounds(tv, i, 0, false, false, false);
        lemma_run_end_bounds(tv, i, 0, true, false, false);
        if tv[i].0 == "impl"@ {
            lemma_spec_bound_bounds(tv, i + 1);
            match spec_bound(tv, i + 1) {
                None => {
                },
                Some((b, j)) => {
                    if j + 1 <= tv.len() {
                        lemma_run_end_bounds(tv, j + 1, 0, false, false, false);
                    }
                },
            }
        } else {
            let ty_end = run_end(tv, i, 0, true, false, false);
            lemma_spec_bounds_bounds(tv, ty_end + 1);
        }
    }
}

/// The predicates of a where-clause over `tv[i..end]`: a comma list
/// that may stop early; a predicate past `end` is an error.
pub open spec fn spec_clause(tv: Seq<(Seq<char>, int)>, i: int, end: int) -> Option<
    (Seq<WherePredV>, int),
>
    decreases end - i,
    when 0 <= i
    via spec_clause_dec
{
    if i >= end {
        Some((Seq::empty(), i))
    } else {
        match spec_pred(tv, i) {
            None => None,
            Some((p, j)) => {
                if j > end {
                    None
                } else if j < end && tv[j].0 == seq![','] {
                    compose(seq![p], spec_clause(tv, j + 1, end))
                } else {
                    Some((seq![p], j))
                }
            },
        }
    }
}

#[via_fn]
proof fn spec_clause_dec(tv: Seq<(Seq<char>, int)>, i: int, end: int) {
    if 0 <= i < end {
        lemma_spec_pred_bounds(tv, i);
    }
}

/// The largest index in `[lo, hi)` holding a quote token, or `-1`.
pub open spec fn last_quote(tv: Seq<(Seq<char>, int)>, lo: int, hi: int) -> int
    decreases hi - lo,
{
    if hi <= lo {
        -1
    } else if tv[hi - 1].0 == seq!['"'] {
        hi - 1
    } else {
        last_quote(tv, lo, hi - 1)
    }
}

pub proof fn lemma_last_quote_bounds(tv: Seq<(Seq<char>, int)>, lo: int, hi: int)
    ensures
        last_quote(tv, lo, hi) >= 0 ==> lo <= last_quote(tv, lo, hi) < hi,
    decreases hi - lo,
{
    if hi > lo && !(tv[hi - 1].0 == seq!['"']) {
        lemma_last_quote_bounds(tv, lo, hi - 1);
    }
}

/// A whole pattern expression over `tv[i..end]`: optional `name =>`
/// sugar (discarded), then a string literal holding the expression, an
/// `impl` pseudo-predicate, or a pattern list with an optional
/// where-clause — always consuming exactly to `end`.
pub open spec fn spec_expr(tv: Seq<(Seq<char>, int)>, i: int, end: int) -> Option<PenumExprV>
    decreases end - i,
    when 0 <= i <= end <= tv.len()
    via spec_expr_dec
{
    let sugared = i < end && i + 1 < end && is_ident_text(tv[i].0) && tv[i + 1].0 == seq!['='];
    let j0 = if sugared {
        if i + 2 < end && tv[i + 2].0 == seq!['>'] {
            i + 3
        } else {
            i + 2
        }
    } else {
        i
    };
    if j0 < end && tv[j0].0 == seq!['"'] {
        let close = last_quote(tv, j0 + 1, end);
        if close < 0 {
            None
        } else {
            spec_expr(tv, j0 + 1, close)
        }
    } else if j0 < end && tv[j0].0 == "impl"@ {
        match spec_impl_pred(tv, j0) {
            None => None,
            Some((p, next)) => {
                if next != end {
                    None
                } else {
                    Some(
                        PenumExprV {
                            pattern: seq![
                                PatFragV { ident: None, group: PatCompositeV::Inferred },
                            ],
                            clause_preds: seq![p],
                            has_clause: true,
                        },
                    )
                }
            },
        }
    } else {
        match spec_pattern(tv, j0) {
            None => None,
            Some((pat, next)) => {
                if next > end {
                    None
                } else if next == end {
                    Some(PenumExprV { pattern: pat, clause_preds: Seq::empty(), has_clause: false })
                } else if !(tv[next].0 == "where"@) {
                    None
                } else {
                    match spec_clause(tv, next + 1, end) {
                        None => None,
                        Some((preds, after)) => {
                            if after != end {
                                None
                            } else {
                                Some(
                                    PenumExprV {
                                        pattern: pat,
                                        clause_preds: preds,
                                        has_clause: true,
                                    },
                                )
                            }
                        },
                    }
                }
            },
        }
    }
}

#[via_fn]
proof fn spec_expr_dec(tv: Seq<(Seq<char>, int)>, i: int, end: int) {
    let sugared = i < end && i + 1 < end && is_ident_text(tv[i].0) && tv[i + 1].0 == seq!['='];
    let j0 = if sugared {
        if i + 2 < end && tv[i + 2].0 == seq!['>'] {
            i + 3
        } else {
            i + 2
        }
    } else {
        i
    };
    if 0 <= i && j0 < end && tv[j0].0 == seq!['"'] {
        lemma_last_quote_bounds(tv, j0 + 1, end);
    }
}

// ------------------------------------------------------------------
// Declarations
// ------------------------------------------------------------------
/// The position after any leading `#[...]` attributes.
pub open spec fn spec_attrs_end(tv: Seq<(Seq<char>, int)>, i: int) -> Option<int>
    decreases tv.len() - i,
    when 0 <= i
    via spec_attrs_end_dec
{
    if i < tv.len() && i + 1 < tv.len() && tv[i].0 == seq!['#'] && tv[i + 1].0 == seq!['['] {
        let end = run_end(tv, i + 2, 0, false, false, false);
        if end < tv.len() && tv[end].0 == seq![']'] {
            spec_attrs_end(tv, end + 1)
        } else {
            None
        }
    } else {
        Some(i)
    }
}

#[via_fn]
proof fn spec_attrs_end_dec(tv: Seq<(Seq<char>, int)>, i: int) {
    if 0 <= i < tv.len() && i + 1 < tv.len() && tv[i].0 == seq!['#'] && tv[i + 1].0 == seq!['['] {
        lemma_run_end_bounds(tv, i + 2, 0, false, false, false);
    }
}

pub proof fn lemma_spec_attrs_end_bounds(tv: Seq<(Seq<char>, int)>, i: int)
    requires
        0 <= i <= tv.len(),
    ensures
        spec_attrs_end(tv, i) is Some ==> i <= spec_attrs_end(tv, i)->0 <= tv.len(),
    decreases tv.len() - i,
{
    if i < tv.len() && i + 1 < tv.len() && tv[i].0 == seq!['#'] && tv[i + 1].0 == seq!['['] {
        lemma_run_end_bounds(tv, i + 2, 0, false, false, false);
        let end = run_end(tv, i + 2, 0, false, false, false);
        if end < tv.len() && tv[end].0 == seq![']'] {
            lemma_spec_attrs_end_bounds(tv, end + 1);
        }
    }
}

/// The position after an optional visibility.
pub open spec fn spec_vis_end(tv: Seq<(Seq<char>, int)>, i: int) -> Option<int> {
    if 0 <= i < tv.len() && tv[i].0 == "pub"@ {
        if i + 1 < tv.len() && tv[i + 1].0 == seq!['('] {
            let end = run_end(tv, i + 2, 0, false, false, false);
            if end < tv.len() && tv[end].0 == seq![')'] {
                Some(end + 1)
            } else {
                None
            }
        } else {
            Some(i + 1)
        }
    } else {
        Some(i)
    }
}

/// The index of the `>` that closes a generic parameter group, the
/// scan starting just after the opening `<` at nesting `depth`; `-1`
/// when the group never closes.
pub open spec fn spec_angle_close(tv: Seq<(Seq<char>, int)>, k: int, depth: int) -> int
    decreases tv.len() - k,
    when 0 <= k
{
    if k >= tv.len() {
        -1
    } else if tv[k].0 == seq!['<'] {
        spec_angle_close(tv, k + 1, depth + 1)
    } else if tv[k].0 == seq!['>'] {
        if depth == 0 {
            k
        } else {
            spec_angle_close(tv, k + 1, depth - 1)
        }
    } else {
        spec_angle_close(tv, k + 1, depth)
    }
}

pub proof fn lemma_spec_angle_close_bounds(tv: Seq<(Seq<char>, int)>, k: int, depth: int)
    requires
        0 <= k <= tv.len(),
    ensures
        spec_angle_close(tv, k, depth) >= 0 ==> k <= spec_angle_close(tv, k, depth) < tv.len(),
    decreases tv.len() - k,
{
    if k < tv.len() {
        lemma_spec_angle_close_bounds(tv, k + 1, depth + 1);
        lemma_spec_angle_close_bounds(tv, k + 1, depth - 1);
        lemma_spec_angle_close_bounds(tv, k + 1, depth);
    }
}

/// The forwarded where-predicates of a declaration: canonical texts of
/// the comma-separated runs before the opening brace.
pub open spec fn spec_wpreds(tv: Seq<(Seq<char>, int)>, i: int) -> Option<(Seq<Seq<char>>, int)>
    decreases tv.len() - i,
    when 0 <= i
    via spec_wpreds_dec
{
    if i >= tv.len() {
        Some((Seq::empty(), i))
    } else if tv[i].0 == seq!['{'] {
        Some((Seq::empty(), i))
    } else {
        let end = run_end(tv, i, 0, false, false, true);
        if end <= i {
            None
        } else {
            let rest = if end < tv.len() && tv[end].0 == seq![','] {
                end + 1
            } else {
                end
            };
            compose(seq![rend(tv, i, end)], spec_wpreds(tv, rest))
        }
    }
}

#[via_fn]
proof fn spec_wpreds_dec(tv: Seq<(Seq<char>, int)>, i: int) {
    if 0 <= i < tv.len() && !(tv[i].0 == seq!['{']) {
        lemma_run_end_bounds(tv, i, 0, false, false, true);
    }
}

/// One field of a variant's field list: a `name: type` pair when the
/// list is named, a bare type run otherwise.
pub open spec fn spec_vfield(tv: Seq<(Seq<char>, int)>, i: int, named: bool) -> Option<
    (FieldV, int),
> {
    if !(0 <= i) {
        None
    } else {
        let ok_name = is_ident_text(tv[i].0) && i + 1 < tv.len() && tv[i + 1].0 == seq![':'];
        if named && !(i < tv.len() && ok_name) {
            None
        } else {
            let name: Option<Seq<char>> = if named {
                Some(tv[i].0)
            } else {
                None
            };
            let j = if named {
                i + 2
            } else {
                i
            };
            let end = run_end(tv, j, 0, false, false, false);
            if end <= j {
                None
            } else {
                Some(
                    (
                        FieldV { name, ty: rend(tv, j, end), span: spec_run_span(tv, j, end) },
                        end,
                    ),
                )
            }
        }
    }
}

pub proof fn lemma_spec_vfield_bounds(tv: Seq<(Seq<char>, int)>, i: int, named: bool)
    requires
        0 <= i,
    ensures
        spec_vfield(tv, i, named) is Some ==> i < ({ let q = spec_vfield(tv, i, named)->0; q.1 }) <= tv.len(),
{
    if i <= tv.len() {
        lemma_run_end_bounds(tv, i, 0, false, false, false);
    }
    if i + 2 <= tv.len() {
        lemma_run_end_bounds(tv, i + 2, 0, false, false, false);
    }
}

/// A variant's field list after its opening delimiter: a
/// `close`-terminated comma list of fields.
pub open spec fn spec_vfields(tv: Seq<(Seq<char>, int)>, i: int, close: char, named: bool) -> Option<
    (Seq<FieldV>, int),
>
    decreases tv.len() - i,
    when 0 <= i
    via spec_vfields_dec
{
    if i >= tv.len() {
        None
    } else if tv[i].0 == seq![close] {
        Some((Seq::empty(), i + 1))
    } else {
        match spec_vfield(tv, i, named) {
            None => None,
            Some((f, j)) => {
                if j < tv.len() && tv[j].0 == seq![','] {
                    compose(seq![f], spec_vfields(tv, j + 1, close, named))
                } else if j < tv.len() && tv[j].0 == seq![close] {
                    Some((seq![f], j + 1))
                } else {
                    None
                }
            },
        }
    }
}

#[via_fn]
proof fn spec_vfields_dec(tv: Seq<(Seq<char>, int)>, i: int, close: char, named: bool) {
    if 0 <= i < tv.len() && !(tv[i].0 == seq![close]) {
        lemma_spec_vfield_bounds(tv, i, named);
    }
}

pub proof fn lemma_spec_vfields_bounds(tv: Seq<(Seq<char>, int)>, i: int, close: char, named: bool)
    requires
        0 <= i,
    ensures
        spec_vfields(tv, i, close, named) is Some ==> i < ({ let q = spec_vfields(tv, i, close, named)->0; q.1 })
            <= tv.len(),
    decreases tv.len() - i,
{
    if i < tv.len() && !(tv[i].0 == seq![close]) {
        lemma_spec_vfield_bounds(tv, i, named);
        match spec_vfield(tv, i, named) {
            None => {
            },
            Some((f, j)) => {
                if j < tv.len() && tv[j].0 == seq![','] {
                    lemma_spec_vfields_bounds(tv, j + 1, close, named);
                }
            },
        }
    }
}

/// One variant: attributes skipped, its name, a field group (an empty
/// group is unit), and a discarded discriminant.
pub open spec fn spec_variant(tv: Seq<(Seq<char>, int)>, i: int) -> Option<(VariantV, int)> {
    if !(0 <= i) {
        None
    } else {
        match spec_attrs_end(tv, i) {
            None => None,
            Some(a) => {
                if !(a < tv.len() && is_ident_text(tv[a].0)) {
                    None
                } else {
                    let ident = tv[a].0;
                    let ident_span = tok_span_v(tv[a]);
                    let b = a + 1;
                    let parsed: Option<(FieldsV, Span, int)> = if b < tv.len() && tv[b].0 == seq![
                        '(',
                    ] {
                        match spec_vfields(tv, b + 1, ')', false) {
                            None => None,
                            Some((fs, after)) => Some(
                                (
                                    if fs.len() == 0 {
                                        FieldsV::Unit
                                    } else {
                                        FieldsV::Unnamed(fs)
                                    },
                                    Span {
                                        lo: tv[b].1 as usize,
                                        hi: tok_span_v(tv[after - 1]).hi,
                                    },
                                    after,
                                ),
                            ),
                        }
                    } else if b < tv.len() && tv[b].0 == seq!['{'] {
                        match spec_vfields(tv, b + 1, '}', true) {
                            None => None,
                            Some((fs, after)) => Some(
                                (
                                    if fs.len() == 0 {
                                        FieldsV::Unit
                                    } else {
                                        FieldsV::Named(fs)
                                    },
                                    Span {
                                        lo: tv[b].1 as usize,
                                        hi: tok_span_v(tv[after - 1]).hi,
                                    },
                                    after,
                                ),
                            ),
                        }
                    } else {
                        Some((FieldsV::Unit, ident_span, b))
                    };
                    match parsed {
                        None => None,
                        Some((fields, fields_span, c)) => {
                            if c < tv.len() && tv[c].0 == seq!['='] {
                                let end = run_end(tv, c + 1, 0, false, false, false);
                                if end <= c + 1 {
                                    None
                                } else {
                                    Some(
                                        (
                                            VariantV { ident, ident_span, fields, fields_span },
                                            end,
                                        ),
                                    )
                                }
                            } else {
                                Some((VariantV { ident, ident_span, fields, fields_span }, c))
                            }
                        },
                    }
                }
            },
        }
    }
}

pub proof fn lemma_spec_variant_bounds(tv: Seq<(Seq<char>, int)>, i: int)
    requires
        0 <= i <= tv.len(),
    ensures
        spec_variant(tv, i) is Some ==> i < ({ let q = spec_variant(tv, i)->0; q.1 }) <= tv.len(),
{
    lemma_spec_attrs_end_bounds(tv, i);
    match spec_attrs_end(tv, i) {
        None => {
        },
        Some(a) => {
            if a < tv.len() && is_ident_text(tv[a].0) {
                lemma_spec_vfields_bounds(tv, a + 2, ')', false);
                lemma_spec_vfields_bounds(tv, a + 2, '}', true);
                let b = a + 1;
                if b < tv.len() && tv[b].0 == seq!['('] {
                    match spec_vfields(tv, b + 1, ')', false) {
                        None => {
                        },
                        Some((fs, after)) => {
                            if after + 1 <= tv.len() {
                                lemma_run_end_bounds(tv, after + 1, 0, false, false, false);
                            }
                        },
                    }
                } else if b < tv.len() && tv[b].0 == seq!['{'] {
                    match spec_vfields(tv, b + 1, '}', true) {
                        None => {
                        },
                        Some((fs, after)) => {
                            if after + 1 <= tv.len() {
                                lemma_run_end_bounds(tv, after + 1, 0, false, false, false);
                            }
                        },
                    }
                } else if b + 1 <= tv.len() {
                    lemma_run_end_bounds(tv, b + 1, 0, false, false, false);
                }
            }
        },
    }
}

/// The variant list of a declaration's body, up to and through the
/// closing brace.
pub open spec fn spec_variants(tv: Seq<(Seq<char>, int)>, i: int) -> Option<(Seq<VariantV>, int)>
    decreases tv.len() - i,
    when 0 <= i <= tv.len()
    via spec_variants_dec
{
    if i >= tv.len() {
        None
    } else if tv[i].0 == seq!['}'] {
        Some((Seq::empty(), i + 1))
    } else {
        match spec_variant(tv, i) {
            None => None,
            Some((v, j)) => {
                if j < tv.len() && tv[j].0 == seq![','] {
                    compose(seq![v], spec_variants(tv, j + 1))
                } else if j < tv.len() && tv[j].0 == seq!['}'] {
                    Some((seq![v], j + 1))
                } else {
                    None
                }
            },
        }
    }
}

#[via_fn]
proof fn spec_variants_dec(tv: Seq<(Seq<char>, int)>, i: int) {
    if 0 <= i < tv.len() && !(tv[i].0 == seq!['}']) {
        lemma_spec_variant_bounds(tv, i);
    }
}

/// A whole declaration: attributes and a visibility skipped, `enum`,
/// the name, an optional generic group kept verbatim, optional
/// forwarded where-predicates, and the brace-delimited variant list
/// consuming the input exactly.
pub open spec fn spec_subject(tv: Seq<(Seq<char>, int)>) -> Option<SubjectV> {
    match spec_attrs_end(tv, 0) {
        None => None,
        Some(a) => match spec_vis_end(tv, a) {
            None => None,
            Some(b) => {
                if !(b < tv.len() && tv[b].0 == "enum"@) {
                    None
                } else if !(b + 1 < tv.len() && is_ident_text(tv[b + 1].0)) {
                    None
                } else {
                    let ident = tv[b + 1].0;
                    let ident_span = tok_span_v(tv[b + 1]);
                    let d = b + 2;
                    let has_g = d < tv.len() && tv[d].0 == seq!['<'];
                    let close = spec_angle_close(tv, d + 1, 0);
                    if has_g && close < 0 {
                        None
                    } else {
                        let generics = if has_g {
                            rend(tv, d, close + 1)
                        } else {
                            Seq::empty()
                        };
                        let e = if has_g {
                            close + 1
                        } else {
                            d
                        };
                        let has_w = e < tv.len() && tv[e].0 == "where"@;
                        let after_w: Option<(Seq<Seq<char>>, int)> = if has_w {
                            spec_wpreds(tv, e + 1)
                        } else {
                            Some((Seq::empty(), e))
                        };
                        match after_w {
                            None => None,
                            Some((wps, f)) => {
                                if !(f < tv.len() && tv[f].0 == seq!['{']) {
                                    None
                                } else {
                                    match spec_variants(tv, f + 1) {
                                        None => None,
                                        Some((vs, g)) => {
                                            if g != tv.len() {
                                                None
                                            } else {
                                                Some(
                                                    SubjectV {
                                                        ident,
                                                        ident_span,
                                                        generics,
                                                        where_preds: wps,
                                                        variants: vs,
                                                    },
                                                )
                                            }
                                        },
                                    }
                                }
                            },
                        }
                    }
                }
            },
        },
    }
}

/// Whether a token is the single character `c`.
fn is_punct_tok(t: &Tok, c: char) -> (r: bool)
    ensures
        r == (t.text@ == seq![c]),
{
    let r = t.text.len() == 1 && t.text[0] == c;
    proof {
        if r {
            assert(t.text@ =~= seq![c]);
        }
    }
    r
}

/// Whether a token's text equals the keyword `s`.
fn tok_is(t: &Tok, s: &str) -> (r: bool)
    ensures
        r == (t.text@ == s@),
{
    let lit = text_of(s);
    crate::text::text_eq(&t.text, &lit)
}

/// Whether a token is a word token (identifier or number).
fn is_word_tok(t: &Tok) -> (r: bool)
    ensures
        r == (t.text@.len() > 0 && crate::text::is_word_char(t.text@[0])),
{
    t.text.len() > 0 && word_char(t.text[0])
}

/// Whether a token is a number token.
fn is_number_tok(t: &Tok) -> (r: bool)
    ensures
        r == (t.text@.len() > 0 && '0' <= t.text@[0] && t.text@[0] <= '9'),
{
    t.text.len() > 0 && '0' <= t.text[0] && t.text[0] <= '9'
}

/// Whether a token is an identifier: a word token that does not start
/// with a digit.
fn is_ident_tok(t: &Tok) -> (r: bool)
    ensures
        r == (t.text@.len() > 0 && crate::text::is_word_char(t.text@[0]) && !('0' <= t.text@[0]
            && t.text@[0] <= '9')),
{
    is_word_tok(t) && !is_number_tok(t)
}

/// The span of one token.
fn tok_span(t: &Tok) -> (r: Span)
    ensures
        r == tok_span_v(crate::text::tok_view(*t)),
{
    Span { lo: t.pos, hi: t.pos.saturating_add(t.text.len()) }
}

/// The span at position `i` of the token list: the token's own span,
/// or a point span at the end of the last token.
fn span_at(ts: &Vec<Tok>, i: usize) -> (r: Span)
    ensures
        r == spec_span_at(toks_view(ts@), i as int),
{
    let ghost tv = toks_view(ts@);
    proof {
        if (i as int) < ts@.len() {
            assert(tv[i as int] == crate::text::tok_view(ts@[i as int]));
        }
        if ts@.len() > 0 {
            assert(tv[tv.len() - 1] == crate::text::tok_view(ts@[ts@.len() - 1]));
        }
    }
    if i < ts.len() {
        tok_span(&ts[i])
    } else if ts.len() > 0 {
        let t = &ts[ts.len() - 1];
        let e = t.pos.saturating_add(t.text.len());
        Span { lo: e, hi: e }
    } else {
        Span { lo: 0, hi: 0 }
    }
}

/// A diagnostic at position `i` with message `msg`.
fn diag_at(ts: &Vec<Tok>, i: usize, msg: &str) -> (r: Diag)
    ensures
        r.msg@ == msg@,
{
    Diag { span: span_at(ts, i), msg: text_of(msg) }
}

/// Scans the balanced token run that starts at `i`, exactly as
/// `run_end` says.
pub fn find_run_end(ts: &Vec<Tok>, i: usize, stop_colon: bool, stop_gt: bool, stop_brace: bool) -> (r: usize)
    requires
        i <= ts@.len(),
    ensures
        r as int == run_end(toks_view(ts@), i as int, 0, stop_colon, stop_gt, stop_brace),
        i <= r <= ts@.len(),
{
    let ghost tv = toks_view(ts@);
    let mut j: usize = i;
    let mut depth: usize = 0;
    let n = ts.len();
    while j < n
        invariant
            i <= j <= n,
            n == ts@.len(),
            depth <= j,
            tv == toks_view(ts@),
            run_end(tv, i as int, 0, stop_colon, stop_gt, stop_brace) == run_end(
                tv,
                j as int,
                depth as int,
                stop_colon,
                stop_gt,
                stop_brace,
            ),
        decreases n - j,
    {
        let t = &ts[j];
        proof {
            assert(tv[j as int] == crate::text::tok_view(ts@[j as int]));
            if j > 0 {
                assert(tv[j as int - 1] == crate::text::tok_view(ts@[j as int - 1]));
            }
        }
        if depth == 0 && is_punct_tok(t, ',') {
            return j;
        } else if depth == 0 && (is_punct_tok(t, ')') || is_punct_tok(t, '}') || is_punct_tok(
            t,
            ']',
        )) {
            return j;
        } else if depth == 0 && stop_brace && is_punct_tok(t, '{') {
            return j;
        } else if depth == 0 && stop_gt && is_punct_tok(t, '>') && !(j > 0 && is_punct_tok(
            &ts[j - 1],
            '-',
        )) {
            return j;
        } else if depth == 0 && stop_colon && is_punct_tok(t, ':') {
            if j + 1 < n && is_punct_tok(&ts[j + 1], ':') {
                proof {
                    assert(tv[j + 1int] == crate::text::tok_view(ts@[j + 1int]));
                }
                j = j + 2;
            } else {
                return j;
            }
        } else if is_punct_tok(t, '(') || is_punct_tok(t, '{') || is_punct_tok(t, '[')
            || is_punct_tok(t, '<') {
            depth = depth + 1;
            j = j + 1;
        } else if is_punct_tok(t, ')') || is_punct_tok(t, '}') || is_punct_tok(t, ']') {
            depth = depth - 1;
            j = j + 1;
        } else if is_punct_tok(t, '>') && depth > 0 && !(j > 0 && is_punct_tok(&ts[j - 1], '-')) {
            depth = depth - 1;
            j = j + 1;
        } else {
            j = j + 1;
        }
    }
    j
}

/// The canonical text and span of the token run `ts[lo..hi]`.
fn canon_run(ts: &Vec<Tok>, lo: usize, hi: usize) -> (r: (Vec<char>, Span))
    requires
        lo <= hi <= ts@.len(),
    ensures
        r.0@ == canon_range(toks_view(ts@), lo as int, hi as int),
        r.1 == spec_run_span(toks_view(ts@), lo as int, hi as int),
{
    let ghost tv = toks_view(ts@);
    proof {
        if lo < hi {
            assert(tv[lo as int] == crate::text::tok_view(ts@[lo as int]));
            assert(tv[hi - 1] == crate::text::tok_view(ts@[hi - 1]));
        }
    }
    let text = canon_of_range(ts, lo, hi);
    let span = if lo < hi {
        let last = &ts[hi - 1];
        Span { lo: ts[lo].pos, hi: last.pos.saturating_add(last.text.len()) }
    } else {
        span_at(ts, lo)
    };
    (text, span)
}

/// What holds of a successfully parsed pattern-position type: it
/// takes exactly the balanced run `run_end` delimits, its text is the
/// run's canonical text, and it is an `impl` position iff the run
/// starts with the `impl` keyword.
pub open spec fn pat_ty_parsed(
    tv: Seq<(Seq<char>, int)>,
    i: int,
    ty: crate::model::PatTyV,
    j: int,
) -> bool {
    let end = run_end(tv, i, 0, false, false, false);
    &&& j == end
    &&& i < end <= tv.len()
    &&& crate::emit::pat_ty_text(ty) == canon_range(tv, i, end)
    &&& (ty is ImplTrait <==> tv[i].0 == "impl"@)
}

/// Parses the type at a pattern position: a plain type run, or an
/// `impl TraitSet` position with its bounds — exactly as `spec_ty`
/// says.
fn parse_pat_ty(ts: &Vec<Tok>, i: usize) -> (r: Result<(crate::model::PatTy, Span, usize), Diag>)
    requires
        i <= ts@.len(),
    ensures
        (r is Ok) == (spec_ty(toks_view(ts@), i as int) is Some),
        r is Ok ==> ({
            let q = spec_ty(toks_view(ts@), i as int)->0;
            crate::model::pat_ty_view(r->Ok_0.0) == q.0 && r->Ok_0.1 == q.1 && r->Ok_0.2 as int
                == q.2
        }),
        r is Ok ==> pat_ty_parsed(
            toks_view(ts@),
            i as int,
            crate::model::pat_ty_view(r->Ok_0.0),
            r->Ok_0.2 as int,
        ),
        run_end(toks_view(ts@), i as int, 0, false, false, false) == i ==> r is Err,
{
    let ghost tv = toks_view(ts@);
    let ty_end = find_run_end(ts, i, false, false, false);
    if ty_end == i {
        return Err(diag_at(ts, i, "expected a type"));
    }
    let (text, span) = canon_run(ts, i, ty_end);
    if tok_is(&ts[i], "impl") {
        let (bounds, _next) = match parse_bounds(ts, i + 1) {
            Ok(b) => b,
            Err(e) => {
                proof {
                    assert(spec_ty(tv, i as int) is None);
                }
                return Err(e);
            },
        };
        return Ok((crate::model::PatTy::ImplTrait { bounds, text }, span, ty_end));
    }
    Ok((crate::model::PatTy::Plain(text), span, ty_end))
}

/// What holds of a successfully parsed composite parameter: a leading
/// `..` is a variadic (a range when a number follows), an identifier
/// followed by a single colon is a named field over the type run
/// behind the colon, and anything else is an unnamed field over the
/// type run at `i`.
pub open spec fn param_parsed(
    tv: Seq<(Seq<char>, int)>,
    i: int,
    pv: PatFieldKindV,
    j: int,
) -> bool {
    if 0 <= i < tv.len() && tv[i].0 == seq!['.'] && i + 1 < tv.len() && tv[i + 1].0 == seq!['.'] {
        if i + 2 < tv.len() && tv[i + 2].0.len() > 0 && '0' <= tv[i + 2].0[0] && tv[i + 2].0[0]
            <= '9' {
            pv is Range && j == i + 3
        } else {
            pv is Variadic && j == i + 2
        }
    } else if 0 <= i < tv.len() && tv[i].0.len() > 0 && crate::text::is_word_char(tv[i].0[0]) && !(
    '0' <= tv[i].0[0] && tv[i].0[0] <= '9') && i + 1 < tv.len() && tv[i + 1].0 == seq![':'] && !(i
        + 2 < tv.len() && tv[i + 2].0 == seq![':']) {
        match pv {
            PatFieldKindV::Field { name, ty, .. } => name == Some(tv[i].0) && pat_ty_parsed(
                tv,
                i + 2,
                ty,
                j,
            ),
            _ => false,
        }
    } else {
        match pv {
            PatFieldKindV::Field { name, ty, .. } => name is None && pat_ty_parsed(tv, i, ty, j),
            _ => false,
        }
    }
}

impl PatFieldKind {
    /// Parses one composite parameter: `..N`, `..`, `name: TYPE` or
    /// `TYPE` — exactly as `spec_param` says.
    pub fn parse(ts: &Vec<Tok>, i: usize) -> (r: Result<(PatFieldKind, usize), Diag>)
        requires
            i <= ts@.len(),
        ensures
            (r is Ok) == (spec_param(toks_view(ts@), i as int) is Some),
            r is Ok ==> ({
                let q = spec_param(toks_view(ts@), i as int)->0;
                pat_field_kind_view(r->Ok_0.0) == q.0 && r->Ok_0.1 as int == q.1
            }),
            r is Ok ==> i < r->Ok_0.1 <= ts@.len(),
            r is Ok ==> param_parsed(
                toks_view(ts@),
                i as int,
                pat_field_kind_view(r->Ok_0.0),
                r->Ok_0.1 as int,
            ),
    {
        let ghost tv = toks_view(ts@);
        proof {
            lemma_spec_param_bounds(tv, i as int);
        }
        let n = ts.len();
        if i >= n {
            return Err(diag_at(ts, i, "expected a pattern parameter"));
        }
        if is_punct_tok(&ts[i], '.') && i + 1 < n && is_punct_tok(&ts[i + 1], '.') {
            if i + 2 < n && is_number_tok(&ts[i + 2]) {
                let span = Span {
                    lo: ts[i].pos,
                    hi: ts[i + 2].pos.saturating_add(ts[i + 2].text.len()),
                };
                return Ok((PatFieldKind::Range { span }, i + 3));
            }
            let span = Span { lo: ts[i].pos, hi: ts[i + 1].pos.saturating_add(1) };
            return Ok((PatFieldKind::Variadic { span }, i + 2));
        }
        // A named parameter: IDENT ':' TYPE, where the colon is not a
        // path separator.
        if is_ident_tok(&ts[i]) && i + 1 < n && is_punct_tok(&ts[i + 1], ':') && !(i + 2 < n
            && is_punct_tok(&ts[i + 2], ':')) {
            let name = crate::text::copy_text(&ts[i].text);
            let (ty, span, ty_end) = match parse_pat_ty(ts, i + 2) {
                Ok(t) => t,
                Err(e) => {
                    proof {
                        assert(spec_param(tv, i as int) is None);
                    }
                    return Err(e);
                },
            };
            return Ok((PatFieldKind::Field { name: Some(name), ty, span }, ty_end));
        }
        let (ty, span, ty_end) = match parse_pat_ty(ts, i) {
            Ok(t) => t,
            Err(e) => {
                proof {
                    assert(spec_param(tv, i as int) is None);
                }
                return Err(e);
            },
        };
        Ok((PatFieldKind::Field { name: None, ty, span }, ty_end))
    }
}

/// Parses the parameters of a composite up to and through the closing
/// delimiter `close`; `i` points just after the opening delimiter —
/// exactly as `spec_params` says.
fn parse_params(ts: &Vec<Tok>, i: usize, close: char) -> (r: Result<
    (Vec<PatFieldKind>, usize),
    Diag,
>)
    requires
        i <= ts@.len(),
    ensures
        (r is Ok) == (spec_params(toks_view(ts@), i as int, close) is Some),
        r is Ok ==> ({
            let q = spec_params(toks_view(ts@), i as int, close)->0;
            pat_param_seq_view(r->Ok_0.0@) == q.0 && r->Ok_0.1 as int == q.1
        }),
        r is Ok ==> i < r->Ok_0.1 <= ts@.len(),
{
    let ghost tv = toks_view(ts@);
    let ghost goal = spec_params(tv, i as int, close);
    proof {
        lemma_spec_params_bounds(tv, i as int, close);
        lemma_compose_empty(spec_params(tv, i as int, close));
        assert(pat_param_seq_view(Seq::<PatFieldKind>::empty()) =~= Seq::<PatFieldKindV>::empty());
    }
    let mut out: Vec<PatFieldKind> = Vec::new();
    let mut j: usize = i;
    let n = ts.len();
    while j < n
        invariant
            i <= j <= n,
            n == ts@.len(),
            tv == toks_view(ts@),
            goal == spec_params(tv, i as int, close),
            compose(pat_param_seq_view(out@), spec_params(tv, j as int, close)) == goal,
        decreases n - j,
    {
        let ghost j0 = j as int;
        let ghost pv = pat_param_seq_view(out@);
        if is_punct_tok(&ts[j], close) {
            proof {
                assert(spec_params(tv, j0, close) == Some((Seq::<PatFieldKindV>::empty(), j0 + 1)));
                assert(pv + Seq::<PatFieldKindV>::empty() =~= pv);
            }
            return Ok((out, j + 1));
        }
        let (param, next) = match PatFieldKind::parse(ts, j) {
            Ok(p) => p,
            Err(e) => {
                proof {
                    assert(spec_params(tv, j0, close) is None);
                }
                return Err(e);
            },
        };
        let ghost paramv = pat_field_kind_view(param);
        out.push(param);
        proof {
            assert(pat_param_seq_view(out@) =~= pv.push(paramv));
        }
        j = next;
        if j < n && is_punct_tok(&ts[j], ',') {
            proof {
                assert(spec_params(tv, j0, close) == compose(
                    seq![paramv],
                    spec_params(tv, j + 1int, close),
                ));
                lemma_compose_push(pv, paramv, spec_params(tv, j + 1int, close));
            }
            j = j + 1;
        } else if j < n && is_punct_tok(&ts[j], close) {
            proof {
                assert(spec_params(tv, j0, close) == Some((seq![paramv], j + 1int)));
                assert(pv + seq![paramv] =~= pv.push(paramv));
            }
            return Ok((out, j + 1));
        } else {
            proof {
                assert(spec_params(tv, j0, close) is None);
            }
            return Err(diag_at(ts, j, "expected a comma or a closing delimiter"));
        }
    }
    proof {
        assert(spec_params(tv, j as int, close) is None);
    }
    Err(diag_at(ts, j, "unclosed composite"))
}

impl PatComposite {
    /// Parses a composite: `{ PARAMS }`, `( PARAMS )`, or nothing for
    /// a unit composite — exactly as `spec_composite` says.  An empty
    /// delimited composite is a unit composite: a composite is unit
    /// iff it has no parameters.
    pub fn parse(ts: &Vec<Tok>, i: usize) -> (r: Result<(PatComposite, usize), Diag>)
        requires
            i <= ts@.len(),
        ensures
            (r is Ok) == (spec_composite(toks_view(ts@), i as int) is Some),
            r is Ok ==> ({
                let q = spec_composite(toks_view(ts@), i as int)->0;
                pat_composite_view(r->Ok_0.0) == q.0 && r->Ok_0.1 as int == q.1
            }),
            r is Ok ==> i <= r->Ok_0.1 <= ts@.len(),
            r is Ok ==> crate::model::composite_wf(pat_composite_view(r->Ok_0.0)),
    {
        let ghost tv = toks_view(ts@);
        let n = ts.len();
        if i < n && is_punct_tok(&ts[i], '{') {
            let (params, next) = match parse_params(ts, i + 1, '}') {
                Ok(p) => p,
                Err(e) => {
                    proof {
                        assert(spec_composite(tv, i as int) is None);
                    }
                    return Err(e);
                },
            };
            proof {
                if params@.len() == 0 {
                    assert(pat_param_seq_view(params@) =~= Seq::<PatFieldKindV>::empty());
                } else {
                    assert(pat_param_seq_view(params@)[0] == pat_field_kind_view(params@[0]));
                    assert(pat_param_seq_view(params@).len() == params@.len());
                }
            }
            if params.len() == 0 {
                return Ok((PatComposite::Unit, next));
            }
            return Ok((PatComposite::Named(params), next));
        }
        if i < n && is_punct_tok(&ts[i], '(') {
            let (params, next) = match parse_params(ts, i + 1, ')') {
                Ok(p) => p,
                Err(e) => {
                    proof {
                        assert(spec_composite(tv, i as int) is None);
                    }
                    return Err(e);
                },
            };
            proof {
                if params@.len() == 0 {
                    assert(pat_param_seq_view(params@) =~= Seq::<PatFieldKindV>::empty());
                } else {
                    assert(pat_param_seq_view(params@)[0] == pat_field_kind_view(params@[0]));
                    assert(pat_param_seq_view(params@).len() == params@.len());
                }
            }
            if params.len() == 0 {
                return Ok((PatComposite::Unit, next));
            }
            return Ok((PatComposite::Unnamed(params), next));
        }
        Ok((PatComposite::Unit, i))
    }
}

/// Parses one pattern fragment: `['$'] ('_' | [IDENT] COMP)` —
/// exactly as `spec_frag` says.
pub fn parse_pattern_fragment(ts: &Vec<Tok>, i: usize) -> (r: Result<(PatFrag, usize), Diag>)
    requires
        i <= ts@.len(),
    ensures
        (r is Ok) == (spec_frag(toks_view(ts@), i as int) is Some),
        r is Ok ==> ({
            let q = spec_frag(toks_view(ts@), i as int)->0;
            pat_frag_view(r->Ok_0.0) == q.0 && r->Ok_0.1 as int == q.1
        }),
        r is Ok ==> i < r->Ok_0.1 <= ts@.len(),
        r is Ok ==> crate::model::composite_wf(pat_frag_view(r->Ok_0.0).group),
{
    let ghost tv = toks_view(ts@);
    proof {
        lemma_spec_frag_bounds(tv, i as int);
    }
    let n = ts.len();
    let mut j = i;
    if j < n && is_punct_tok(&ts[j], '$') {
        j = j + 1;
    }
    if j < n && is_punct_tok(&ts[j], '_') {
        return Ok((PatFrag { ident: None, group: PatComposite::Inferred }, j + 1));
    }
    let named = j < n && is_ident_tok(&ts[j]) && !tok_is(&ts[j], "where");
    let ident: Option<Vec<char>> = if named {
        let name = crate::text::copy_text(&ts[j].text);
        j = j + 1;
        Some(name)
    } else {
        None
    };
    let (group, next) = match PatComposite::parse(ts, j) {
        Ok(g) => g,
        Err(e) => {
            proof {
                assert(spec_frag(tv, i as int) is None);
            }
            return Err(e);
        },
    };
    if next == i {
        proof {
            assert(spec_frag(tv, i as int) is None);
        }
        return Err(diag_at(ts, i, "expected a pattern fragment"));
    }
    Ok((PatFrag { ident, group }, next))
}

/// Parses a `|`-separated list of pattern fragments — exactly as
/// `spec_pattern` says.
pub fn parse_pattern(ts: &Vec<Tok>, i: usize) -> (r: Result<(Vec<PatFrag>, usize), Diag>)
    requires
        i <= ts@.len(),
    ensures
        (r is Ok) == (spec_pattern(toks_view(ts@), i as int) is Some),
        r is Ok ==> ({
            let q = spec_pattern(toks_view(ts@), i as int)->0;
            pat_frag_seq_view(r->Ok_0.0@) == q.0 && r->Ok_0.1 as int == q.1
        }),
        r is Ok ==> i < r->Ok_0.1 <= ts@.len() && r->Ok_0.0@.len() > 0,
        r is Ok ==> crate::model::pattern_wf(pat_frag_seq_view(r->Ok_0.0@)),
{
    let ghost tv = toks_view(ts@);
    let ghost goal = spec_pattern(tv, i as int);
    let n = ts.len();
    let (first, mut j) = match parse_pattern_fragment(ts, i) {
        Ok(f) => f,
        Err(e) => {
            return Err(e);
        },
    };
    proof {
        lemma_spec_frag_bounds(tv, i as int);
    }
    let mut out: Vec<PatFrag> = Vec::new();
    out.push(first);
    proof {
        lemma_compose_push(
            Seq::<PatFragV>::empty(),
            pat_frag_view(out@[0]),
            spec_pattern_more(tv, j as int),
        );
        lemma_compose_empty(
            compose(seq![pat_frag_view(out@[0])], spec_pattern_more(tv, j as int)),
        );
        assert(pat_frag_seq_view(out@) =~= Seq::<PatFragV>::empty().push(pat_frag_view(out@[0])));
        assert(goal == compose(pat_frag_seq_view(out@), spec_pattern_more(tv, j as int)));
        assert(crate::model::pattern_wf(pat_frag_seq_view(out@))) by {
            assert(pat_frag_seq_view(out@)[0] == pat_frag_view(out@[0]));
        }
    }
    while j < n && is_punct_tok(&ts[j], '|')
        invariant
            i < j <= n,
            n == ts@.len(),
            tv == toks_view(ts@),
            out@.len() > 0,
            goal == spec_pattern(tv, i as int),
            goal == compose(pat_frag_seq_view(out@), spec_pattern_more(tv, j as int)),
            crate::model::pattern_wf(pat_frag_seq_view(out@)),
        decreases n - j,
    {
        let ghost j0 = j as int;
        let ghost pv = pat_frag_seq_view(out@);
        let (frag, next) = match parse_pattern_fragment(ts, j + 1) {
            Ok(f) => f,
            Err(e) => {
                proof {
                    assert(spec_pattern_more(tv, j0) is None);
                }
                return Err(e);
            },
        };
        let ghost fv = pat_frag_view(frag);
        out.push(frag);
        proof {
            assert(pat_frag_seq_view(out@) =~= pv.push(fv));
            assert(spec_pattern_more(tv, j0) == compose(
                seq![fv],
                spec_pattern_more(tv, next as int),
            ));
            lemma_compose_push(pv, fv, spec_pattern_more(tv, next as int));
            assert(crate::model::pattern_wf(pat_frag_seq_view(out@))) by {
                let nv = pat_frag_seq_view(out@);
                assert forall|q: int| 0 <= q < nv.len() implies crate::model::composite_wf(
                    (#[trigger] nv[q]).group,
                ) by {
                    if q < pv.len() {
                        assert(nv[q] == pv[q]);
                    } else {
                        assert(nv[q] == fv);
                    }
                }
            }
        }
        j = next;
    }
    proof {
        assert(spec_pattern_more(tv, j as int) == Some((Seq::<PatFragV>::empty(), j as int)));
        assert(pat_frag_seq_view(out@) + Seq::<PatFragV>::empty() =~= pat_frag_seq_view(out@));
    }
    Ok((out, j))
}

/// Parses the generic arguments of a trait bound; `i` points just
/// after the opening `<` — exactly as `spec_bound_args` says.
fn parse_bound_args(ts: &Vec<Tok>, i: usize) -> (r: Result<(Vec<BoundArg>, usize), Diag>)
    requires
        i <= ts@.len(),
    ensures
        (r is Ok) == (spec_bound_args(toks_view(ts@), i as int) is Some),
        r is Ok ==> ({
            let q = spec_bound_args(toks_view(ts@), i as int)->0;
            bound_arg_seq_view(r->Ok_0.0@) == q.0 && r->Ok_0.1 as int == q.1
        }),
        r is Ok ==> i < r->Ok_0.1 <= ts@.len(),
{
    let ghost tv = toks_view(ts@);
    let ghost goal = spec_bound_args(tv, i as int);
    proof {
        lemma_spec_bound_args_bounds(tv, i as int);
        lemma_compose_empty(spec_bound_args(tv, i as int));
        assert(bound_arg_seq_view(Seq::<BoundArg>::empty()) =~= Seq::<BoundArgV>::empty());
    }
    let mut out: Vec<BoundArg> = Vec::new();
    let mut j: usize = i;
    let n = ts.len();
    while j < n
        invariant
            i <= j <= n,
            n == ts@.len(),
            tv == toks_view(ts@),
            goal == spec_bound_args(tv, i as int),
            compose(bound_arg_seq_view(out@), spec_bound_args(tv, j as int)) == goal,
        decreases n - j,
    {
        let ghost j0 = j as int;
        let ghost pv = bound_arg_seq_view(out@);
        if is_punct_tok(&ts[j], '>') {
            proof {
                assert(spec_bound_args(tv, j0) == Some((Seq::<BoundArgV>::empty(), j0 + 1)));
                assert(pv + Seq::<BoundArgV>::empty() =~= pv);
            }
            return Ok((out, j + 1));
        }
        let named = is_ident_tok(&ts[j]) && j + 1 < n && is_punct_tok(&ts[j + 1], '=');
        let name: Option<Vec<char>> = if named {
            let name = crate::text::copy_text(&ts[j].text);
            j = j + 2;
            Some(name)
        } else {
            None
        };
        let ty_end = find_run_end(ts, j, false, true, false);
        if ty_end == j {
            proof {
                assert(spec_bound_args(tv, j0) is None);
            }
            return Err(diag_at(ts, j, "expected a type argument"));
        }
        let (value, _span) = canon_run(ts, j, ty_end);
        let ghost argv = BoundArgV {
            name: if named {
                Some(tv[j0].0)
            } else {
                None
            },
            value: rend(tv, j as int, ty_end as int),
        };
        let arg = BoundArg { name, value };
        proof {
            assert(crate::model::bound_arg_view(arg) == argv);
        }
        out.push(arg);
        proof {
            assert(bound_arg_seq_view(out@) =~= pv.push(argv));
        }
        j = ty_end;
        if j < n && is_punct_tok(&ts[j], ',') {
            proof {
                assert(spec_bound_args(tv, j0) == compose(
                    seq![argv],
                    spec_bound_args(tv, j + 1int),
                ));
                lemma_compose_push(pv, argv, spec_bound_args(tv, j + 1int));
            }
            j = j + 1;
        } else if j < n && is_punct_tok(&ts[j], '>') {
            proof {
                assert(spec_bound_args(tv, j0) == Some((seq![argv], j + 1int)));
                assert(pv + seq![argv] =~= pv.push(argv));
            }
            return Ok((out, j + 1));
        } else {
            proof {
                assert(spec_bound_args(tv, j0) is None);
            }
            return Err(diag_at(ts, j, "expected a comma or a closing angle bracket"));
        }
    }
    proof {
        assert(spec_bound_args(tv, j as int) is None);
    }
    Err(diag_at(ts, j, "unclosed generic argument list"))
}

/// Parses one bound: `['^' | '?'] PATH ['<' ARGS '>']`, or a lifetime
/// — exactly as `spec_bound` says.
fn parse_bound(ts: &Vec<Tok>, i: usize) -> (r: Result<(Bound, usize), Diag>)
    requires
        i <= ts@.len(),
    ensures
        (r is Ok) == (spec_bound(toks_view(ts@), i as int) is Some),
        r is Ok ==> ({
            let q = spec_bound(toks_view(ts@), i as int)->0;
            bound_view(r->Ok_0.0) == q.0 && r->Ok_0.1 as int == q.1
        }),
        r is Ok ==> i < r->Ok_0.1 <= ts@.len(),
{
    let ghost tv = toks_view(ts@);
    proof {
        lemma_spec_bound_bounds(tv, i as int);
    }
    let n = ts.len();
    let mut j = i;
    let mut modifier = BoundModifier::Plain;
    if j < n && is_punct_tok(&ts[j], '^') {
        modifier = BoundModifier::Dispatch;
        j = j + 1;
    } else if j < n && is_punct_tok(&ts[j], '?') {
        modifier = BoundModifier::Maybe;
        j = j + 1;
    }
    if j < n && is_punct_tok(&ts[j], '\'') {
        // A lifetime bound: the tick and its identifier.
        let next = if j + 1 < n {
            j + 2
        } else {
            j + 1
        };
        let (text, span) = canon_run(ts, j, next);
        return Ok((Bound::Lifetime { span, text }, next));
    }
    if !(j < n && is_ident_tok(&ts[j])) {
        proof {
            assert(spec_bound(tv, i as int) is None);
        }
        return Err(diag_at(ts, j, "expected a trait bound"));
    }
    let start = j;
    // The path: IDENT ('::' IDENT)*.
    j = j + 1;
    while j < n && j + 1 < n && is_punct_tok(&ts[j], ':') && is_punct_tok(&ts[j + 1], ':')
        invariant
            start < j <= n,
            n == ts@.len(),
            tv == toks_view(ts@),
            spec_path_end(tv, j as int) == spec_path_end(tv, start + 1int),
            spec_path_end(tv, start + 1int) is None ==> spec_bound(tv, i as int) is None,
        decreases n - j,
    {
        if j + 2 < n && is_ident_tok(&ts[j + 2]) {
            j = j + 3;
        } else {
            proof {
                assert(spec_path_end(tv, start + 1int) is None);
                assert(spec_bound(tv, i as int) is None);
            }
            return Err(diag_at(ts, j, "expected a path segment"));
        }
    }
    proof {
        assert(spec_path_end(tv, j as int) == Some(j as int));
    }
    let (name, span) = canon_run(ts, start, j);
    if j < n && is_punct_tok(&ts[j], '<') {
        let (args, next) = match parse_bound_args(ts, j + 1) {
            Ok(a) => a,
            Err(e) => {
                proof {
                    assert(spec_bound(tv, i as int) is None);
                }
                return Err(e);
            },
        };
        let b = Bound::Trait(TraitBound { modifier, name, args, span });
        proof {
            assert(bound_view(b) == ({
                let q = spec_bound(tv, i as int)->0;
                q.0
            }));
        }
        return Ok((b, next));
    }
    let b = Bound::Trait(TraitBound { modifier, name, args: Vec::new(), span });
    proof {
        assert(bound_arg_seq_view(Seq::<BoundArg>::empty()) =~= Seq::<BoundArgV>::empty());
        assert(bound_view(b) == ({
            let q = spec_bound(tv, i as int)->0;
            q.0
        }));
    }
    Ok((b, j))
}

/// Parses a `+`-separated list of bounds — exactly as `spec_bounds`
/// says.
fn parse_bounds(ts: &Vec<Tok>, i: usize) -> (r: Result<(Vec<Bound>, usize), Diag>)
    requires
        i <= ts@.len(),
    ensures
        (r is Ok) == (spec_bounds(toks_view(ts@), i as int) is Some),
        r is Ok ==> ({
            let q = spec_bounds(toks_view(ts@), i as int)->0;
            bound_seq_view(r->Ok_0.0@) == q.0 && r->Ok_0.1 as int == q.1
        }),
        r is Ok ==> i < r->Ok_0.1 <= ts@.len(),
{
    let ghost tv = toks_view(ts@);
    let ghost goal = spec_bounds(tv, i as int);
    proof {
        lemma_spec_bounds_bounds(tv, i as int);
    }
    let n = ts.len();
    let (first, mut j) = match parse_bound(ts, i) {
        Ok(b) => b,
        Err(e) => {
            return Err(e);
        },
    };
    let mut out: Vec<Bound> = Vec::new();
    out.push(first);
    proof {
        lemma_compose_push(Seq::<BoundV>::empty(), bound_view(out@[0]), spec_bounds_more(tv, j as int));
        lemma_compose_empty(compose(seq![bound_view(out@[0])], spec_bounds_more(tv, j as int)));
        assert(bound_seq_view(out@) =~= Seq::<BoundV>::empty().push(bound_view(out@[0])));
        assert(goal == compose(bound_seq_view(out@), spec_bounds_more(tv, j as int)));
    }
    while j < n && is_punct_tok(&ts[j], '+')
        invariant
            i < j <= n,
            n == ts@.len(),
            tv == toks_view(ts@),
            goal == spec_bounds(tv, i as int),
            goal == compose(bound_seq_view(out@), spec_bounds_more(tv, j as int)),
        decreases n - j,
    {
        let ghost j0 = j as int;
        let ghost pv = bound_seq_view(out@);
        let (b, next) = match parse_bound(ts, j + 1) {
            Ok(b) => b,
            Err(e) => {
                proof {
                    assert(spec_bounds_more(tv, j0) is None);
                }
                return Err(e);
            },
        };
        let ghost bv = bound_view(b);
        out.push(b);
        proof {
            assert(bound_seq_view(out@) =~= pv.push(bv));
            assert(spec_bounds_more(tv, j0) == compose(
                seq![bv],
                spec_bounds_more(tv, next as int),
            ));
            lemma_compose_push(pv, bv, spec_bounds_more(tv, next as int));
        }
        j = next;
    }
    proof {
        assert(spec_bounds_more(tv, j as int) == Some((Seq::<BoundV>::empty(), j as int)));
        assert(bound_seq_view(out@) + Seq::<BoundV>::empty() =~= bound_seq_view(out@));
    }
    Ok((out, j))
}

/// Parses the pseudo-predicate `impl BOUND for TYPE`, `i` pointing at
/// `impl`: it desugars to the predicate `TYPE: ^BOUND`, a pre-seeded
/// dispatch blueprint keyed on the canonical id of `TYPE` — exactly as
/// `spec_impl_pred` says.
fn parse_impl_pred(ts: &Vec<Tok>, i: usize) -> (r: Result<(WherePred, usize), Diag>)
    requires
        i < ts@.len(),
    ensures
        (r is Ok) == (spec_impl_pred(toks_view(ts@), i as int) is Some),
        r is Ok ==> ({
            let q = spec_impl_pred(toks_view(ts@), i as int)->0;
            where_pred_view(r->Ok_0.0) == q.0 && r->Ok_0.1 as int == q.1
        }),
        r is Ok ==> i < r->Ok_0.1 <= ts@.len(),
{
    let ghost tv = toks_view(ts@);
    let n = ts.len();
    let span = tok_span(&ts[i]);
    let (bound, mut j) = match parse_bound(ts, i + 1) {
        Ok(b) => b,
        Err(e) => {
            proof {
                assert(spec_impl_pred(tv, i as int) is None);
            }
            return Err(e);
        },
    };
    let mut tb = match bound {
        Bound::Trait(tb) => tb,
        Bound::Lifetime { span, .. } => {
            proof {
                assert(spec_impl_pred(tv, i as int) is None);
            }
            return Err(Diag { span, msg: text_of("expected a trait, found a lifetime") });
        },
    };
    tb.modifier = BoundModifier::Dispatch;
    if !(j < n && tok_is(&ts[j], "for")) {
        proof {
            assert(spec_impl_pred(tv, i as int) is None);
        }
        return Err(diag_at(ts, j, "expected `for`"));
    }
    j = j + 1;
    let ty_end = find_run_end(ts, j, false, false, false);
    if ty_end == j {
        proof {
            assert(spec_impl_pred(tv, i as int) is None);
        }
        return Err(diag_at(ts, j, "expected a type"));
    }
    let (bounded_ty, _ty_span) = canon_run(ts, j, ty_end);
    let mut bounds: Vec<Bound> = Vec::new();
    bounds.push(Bound::Trait(tb));
    let pred = WherePred::Type { span, bounded_ty, bounds };
    proof {
        let q = spec_impl_pred(tv, i as int)->0;
        assert(bound_seq_view(seq![Bound::Trait(tb)]) =~= seq![bound_view(Bound::Trait(tb))]);
        assert(where_pred_view(pred) == q.0);
    }
    Ok((pred, ty_end))
}

/// Parses one where-clause predicate — exactly as `spec_pred` says.
fn parse_pred(ts: &Vec<Tok>, i: usize) -> (r: Result<(WherePred, usize), Diag>)
    requires
        i <= ts@.len(),
    ensures
        (r is Ok) == (spec_pred(toks_view(ts@), i as int) is Some),
        r is Ok ==> ({
            let q = spec_pred(toks_view(ts@), i as int)->0;
            where_pred_view(r->Ok_0.0) == q.0 && r->Ok_0.1 as int == q.1
        }),
        r is Ok ==> i < r->Ok_0.1 <= ts@.len(),
{
    let ghost tv = toks_view(ts@);
    proof {
        lemma_spec_pred_bounds(tv, i as int);
    }
    let n = ts.len();
    if i >= n {
        return Err(diag_at(ts, i, "expected a where-clause predicate"));
    }
    if is_punct_tok(&ts[i], '\'') {
        // A lifetime predicate: consumed whole, rejected later.
        let end = find_run_end(ts, i, false, false, false);
        let end = if end == i {
            i + 1
        } else {
            end
        };
        let (_text, span) = canon_run(ts, i, end);
        return Ok((WherePred::Lifetime { span }, end));
    }
    if tok_is(&ts[i], "impl") {
        return parse_impl_pred(ts, i);
    }
    let ty_end = find_run_end(ts, i, true, false, false);
    if ty_end == i {
        return Err(diag_at(ts, i, "expected a bounded type"));
    }
    let (bounded_ty, span) = canon_run(ts, i, ty_end);
    if !(ty_end < n && is_punct_tok(&ts[ty_end], ':')) {
        return Err(diag_at(ts, ty_end, "expected a colon"));
    }
    let (bounds, next) = match parse_bounds(ts, ty_end + 1) {
        Ok(b) => b,
        Err(e) => {
            proof {
                assert(spec_pred(tv, i as int) is None);
            }
            return Err(e);
        },
    };
    Ok((WherePred::Type { span, bounded_ty, bounds }, next))
}

impl Clause {
    /// Parses the predicates of a where-clause, `i` pointing after
    /// `where`, up to `end` — exactly as `spec_clause` says.
    pub fn parse(ts: &Vec<Tok>, i: usize, end: usize) -> (r: Result<(Clause, usize), Diag>)
        requires
            i <= end <= ts@.len(),
        ensures
            (r is Ok) == (spec_clause(toks_view(ts@), i as int, end as int) is Some),
            r is Ok ==> ({
                let q = spec_clause(toks_view(ts@), i as int, end as int)->0;
                pred_seq_view(r->Ok_0.0.predicates@) == q.0 && r->Ok_0.1 as int == q.1
            }),
            r is Ok ==> i <= r->Ok_0.1 <= end,
    {
        let ghost tv = toks_view(ts@);
        let ghost goal = spec_clause(tv, i as int, end as int);
        proof {
            lemma_compose_empty(spec_clause(tv, i as int, end as int));
            assert(pred_seq_view(Seq::<WherePred>::empty()) =~= Seq::<WherePredV>::empty());
        }
        let mut out: Vec<WherePred> = Vec::new();
        let mut j: usize = i;
        while j < end
            invariant
                i <= j <= end <= ts@.len(),
                tv == toks_view(ts@),
                goal == spec_clause(tv, i as int, end as int),
                compose(pred_seq_view(out@), spec_clause(tv, j as int, end as int)) == goal,
            decreases end - j,
        {
            let ghost j0 = j as int;
            let ghost pv = pred_seq_view(out@);
            let (pred, next) = match parse_pred(ts, j) {
                Ok(p) => p,
                Err(e) => {
                    proof {
                        assert(spec_clause(tv, j0, end as int) is None);
                    }
                    return Err(e);
                },
            };
            let ghost predv = where_pred_view(pred);
            out.push(pred);
            proof {
                assert(pred_seq_view(out@) =~= pv.push(predv));
            }
            if next > end {
                proof {
                    assert(spec_clause(tv, j0, end as int) is None);
                }
                return Err(diag_at(ts, end, "a predicate runs past the clause"));
            }
            j = next;
            if j < end && is_punct_tok(&ts[j], ',') {
                proof {
                    assert(spec_clause(tv, j0, end as int) == compose(
                        seq![predv],
                        spec_clause(tv, j + 1int, end as int),
                    ));
                    lemma_compose_push(pv, predv, spec_clause(tv, j + 1int, end as int));
                }
                j = j + 1;
            } else {
                proof {
                    assert(spec_clause(tv, j0, end as int) == Some((seq![predv], j as int)));
                    assert(pv + seq![predv] =~= pv.push(predv));
                }
                return Ok((Clause { predicates: out }, j));
            }
        }
        proof {
            assert(spec_clause(tv, j as int, end as int) == Some(
                (Seq::<WherePredV>::empty(), j as int),
            ));
            assert(pred_seq_view(out@) + Seq::<WherePredV>::empty() =~= pred_seq_view(out@));
        }
        Ok((Clause { predicates: out }, j))
    }
}

impl PenumExpr {
    /// Parses a whole pattern expression over the tokens `ts[i..end]`:
    /// optional `name =>` sugar, then either a string literal holding
    /// the expression, an `impl` pseudo-predicate, or a pattern list
    /// with an optional where-clause — exactly as `spec_expr` says.
    #[verifier::rlimit(80)]
    fn parse_between(ts: &Vec<Tok>, i: usize, end: usize) -> (r: Result<PenumExpr, Diag>)
        requires
            i <= end <= ts@.len(),
        ensures
            (r is Ok) == (spec_expr(toks_view(ts@), i as int, end as int) is Some),
            r is Ok ==> expr_view(r->Ok_0) == spec_expr(toks_view(ts@), i as int, end as int)->0,
            r is Ok ==> r->Ok_0.pattern@.len() > 0 && crate::model::pattern_wf(
                pat_frag_seq_view(r->Ok_0.pattern@),
            ),
        decreases end - i,
    {
        let ghost tv = toks_view(ts@);
        let n = end;
        let mut j = i;
        // `name =>` sugar: the identifier is consumed and discarded.
        if j < n && j + 1 < n && is_ident_tok(&ts[j]) && is_punct_tok(&ts[j + 1], '=') {
            j = j + 2;
            if j < n && is_punct_tok(&ts[j], '>') {
                j = j + 1;
            }
        }
        let ghost j0 = j as int;
        // A string literal holding the expression: parse its inside.
        if j < n && is_punct_tok(&ts[j], '"') {
            let mut close = n;
            let mut k = n;
            // Find the closing quote: the last quote token.
            while k > j + 1
                invariant
                    j + 1 <= k <= n <= ts@.len(),
                    j < n,
                    tv == toks_view(ts@),
                    close == n || (j + 1 <= close && close < n),
                    close == n ==> last_quote(tv, j + 1int, n as int) == last_quote(
                        tv,
                        j + 1int,
                        k as int,
                    ),
                    close < n ==> close as int == last_quote(tv, j + 1int, n as int),
                decreases k,
            {
                k = k - 1;
                if close == n && is_punct_tok(&ts[k], '"') {
                    close = k;
                }
            }
            if close >= n {
                proof {
                    assert(last_quote(tv, j + 1int, j + 1int) == -1);
                    assert(spec_expr(tv, i as int, end as int) is None);
                }
                return Err(diag_at(ts, j, "unclosed string literal"));
            }
            proof {
                lemma_last_quote_bounds(tv, j + 1int, n as int);
            }
            let r = PenumExpr::parse_between(ts, j + 1, close);
            proof {
                assert((r is Ok) == (spec_expr(tv, i as int, end as int) is Some));
            }
            return r;
        }
        // The `impl Trait for Type` form: an inferred pattern with a
        // pre-seeded dispatch predicate.
        if j < n && tok_is(&ts[j], "impl") {
            let (pred, next) = match parse_impl_pred(ts, j) {
                Ok(p) => p,
                Err(e) => {
                    proof {
                        assert(spec_expr(tv, i as int, end as int) is None);
                    }
                    return Err(e);
                },
            };
            if next != n {
                proof {
                    assert(spec_expr(tv, i as int, end as int) is None);
                }
                return Err(diag_at(ts, next, "unexpected tokens after the impl expression"));
            }
            let mut pattern: Vec<PatFrag> = Vec::new();
            pattern.push(PatFrag { ident: None, group: PatComposite::Inferred });
            let mut predicates: Vec<WherePred> = Vec::new();
            predicates.push(pred);
            let out = PenumExpr { pattern, clause: Some(Clause { predicates }) };
            proof {
                let q = spec_expr(tv, i as int, end as int)->0;
                assert(pat_frag_seq_view(out.pattern@) =~= seq![
                    PatFragV { ident: None, group: PatCompositeV::Inferred },
                ]);
                assert(clause_preds_view(out.clause) =~= seq![where_pred_view(predicates@[0])]);
                assert(expr_view(out) == q);
                assert(pat_frag_seq_view(out.pattern@)[0] == pat_frag_view(out.pattern@[0]));
            }
            return Ok(out);
        }
        let (pattern, next) = match parse_pattern(ts, j) {
            Ok(p) => p,
            Err(e) => {
                proof {
                    assert(spec_expr(tv, i as int, end as int) is None);
                }
                return Err(e);
            },
        };
        if next > n {
            proof {
                assert(spec_expr(tv, i as int, end as int) is None);
            }
            return Err(diag_at(ts, n, "the pattern runs past its end"));
        }
        if next == n {
            let out = PenumExpr { pattern, clause: None };
            proof {
                assert(clause_preds_view(out.clause) =~= Seq::<WherePredV>::empty());
                assert(expr_view(out) == spec_expr(tv, i as int, end as int)->0);
            }
            return Ok(out);
        }
        if !tok_is(&ts[next], "where") {
            proof {
                assert(spec_expr(tv, i as int, end as int) is None);
            }
            return Err(diag_at(ts, next, "expected `where` or the end of the expression"));
        }
        let (clause, after) = match Clause::parse(ts, next + 1, n) {
            Ok(c) => c,
            Err(e) => {
                proof {
                    assert(spec_expr(tv, i as int, end as int) is None);
                }
                return Err(e);
            },
        };
        if after != n {
            proof {
                assert(spec_expr(tv, i as int, end as int) is None);
            }
            return Err(diag_at(ts, after, "unexpected tokens after the where-clause"));
        }
        let out = PenumExpr { pattern, clause: Some(clause) };
        proof {
            assert(expr_view(out) == spec_expr(tv, i as int, end as int)->0);
        }
        Ok(out)
    }

    /// Parses a pattern expression from source text: exactly what
    /// `spec_expr` says of the text's whole token stream, which fails
    /// on an empty stream and succeeds on every stream the grammar
    /// accepts.
    pub fn parse(src: &Vec<char>) -> (r: Result<PenumExpr, Diag>)
        ensures
            (r is Ok) == ({
                let tv = tokenize_from(src@, 0);
                tv.len() > 0 && spec_expr(tv, 0, tv.len() as int) is Some
            }),
            r is Ok ==> expr_view(r->Ok_0) == ({
                let tv = tokenize_from(src@, 0);
                spec_expr(tv, 0, tv.len() as int)->0
            }),
            r is Ok ==> r->Ok_0.pattern@.len() > 0 && crate::model::pattern_wf(
                pat_frag_seq_view(r->Ok_0.pattern@),
            ),
    {
        let ts = tokenize(src);
        if ts.len() == 0 {
            return Err(Diag { span: Span { lo: 0, hi: 0 }, msg: text_of("expected a pattern") });
        }
        PenumExpr::parse_between(&ts, 0, ts.len())
    }
}

/// Parses the fields of one variant (`i` after the opening delimiter);
/// named fields are `IDENT ':' TYPE`, unnamed fields are types —
/// exactly as `spec_vfields` says.
fn parse_variant_fields(ts: &Vec<Tok>, i: usize, close: char, named: bool) -> (r: Result<
    (Vec<Field>, usize),
    Diag,
>)
    requires
        i <= ts@.len(),
    ensures
        (r is Ok) == (spec_vfields(toks_view(ts@), i as int, close, named) is Some),
        r is Ok ==> ({
            let q = spec_vfields(toks_view(ts@), i as int, close, named)->0;
            field_seq_view(r->Ok_0.0@) == q.0 && r->Ok_0.1 as int == q.1
        }),
        r is Ok ==> i < r->Ok_0.1 <= ts@.len(),
{
    let ghost tv = toks_view(ts@);
    let ghost goal = spec_vfields(tv, i as int, close, named);
    proof {
        lemma_spec_vfields_bounds(tv, i as int, close, named);
        lemma_compose_empty(spec_vfields(tv, i as int, close, named));
        assert(field_seq_view(Seq::<Field>::empty()) =~= Seq::<FieldV>::empty());
    }
    let mut out: Vec<Field> = Vec::new();
    let mut j: usize = i;
    let n = ts.len();
    while j < n
        invariant
            i <= j <= n,
            n == ts@.len(),
            tv == toks_view(ts@),
            goal == spec_vfields(tv, i as int, close, named),
            compose(field_seq_view(out@), spec_vfields(tv, j as int, close, named)) == goal,
        decreases n - j,
    {
        let ghost j0 = j as int;
        let ghost pv = field_seq_view(out@);
        if is_punct_tok(&ts[j], close) {
            proof {
                assert(spec_vfields(tv, j0, close, named) == Some(
                    (Seq::<FieldV>::empty(), j0 + 1),
                ));
                assert(pv + Seq::<FieldV>::empty() =~= pv);
            }
            return Ok((out, j + 1));
        }
        let name: Option<Vec<char>> = if named {
            if !(is_ident_tok(&ts[j]) && j + 1 < n && is_punct_tok(&ts[j + 1], ':')) {
                proof {
                    assert(spec_vfield(tv, j0, named) is None);
                    assert(spec_vfields(tv, j0, close, named) is None);
                }
                return Err(diag_at(ts, j, "expected a named field"));
            }
            let name = crate::text::copy_text(&ts[j].text);
            j = j + 2;
            Some(name)
        } else {
            None
        };
        let ty_end = find_run_end(ts, j, false, false, false);
        if ty_end == j {
            proof {
                assert(spec_vfield(tv, j0, named) is None);
                assert(spec_vfields(tv, j0, close, named) is None);
            }
            return Err(diag_at(ts, j, "expected a field type"));
        }
        let (ty, span) = canon_run(ts, j, ty_end);
        let field = Field { name, ty, span };
        let ghost fv = field_view(field);
        proof {
            assert(spec_vfield(tv, j0, named) == Some((fv, ty_end as int)));
        }
        out.push(field);
        proof {
            assert(field_seq_view(out@) =~= pv.push(fv));
        }
        j = ty_end;
        if j < n && is_punct_tok(&ts[j], ',') {
            proof {
                assert(spec_vfields(tv, j0, close, named) == compose(
                    seq![fv],
                    spec_vfields(tv, j + 1int, close, named),
                ));
                lemma_compose_push(pv, fv, spec_vfields(tv, j + 1int, close, named));
            }
            j = j + 1;
        } else if j < n && is_punct_tok(&ts[j], close) {
            proof {
                assert(spec_vfields(tv, j0, close, named) == Some((seq![fv], j + 1int)));
                assert(pv + seq![fv] =~= pv.push(fv));
            }
            return Ok((out, j + 1));
        } else {
            proof {
                assert(spec_vfields(tv, j0, close, named) is None);
            }
            return Err(diag_at(ts, j, "expected a comma or a closing delimiter"));
        }
    }
    proof {
        assert(spec_vfields(tv, j as int, close, named) is None);
    }
    Err(diag_at(ts, j, "unclosed variant fields"))
}

impl Variant {
    /// Parses one variant: attributes are skipped, a discriminant is
    /// consumed and discarded — exactly as `spec_variant` says.
    pub fn parse(ts: &Vec<Tok>, i: usize) -> (r: Result<(Variant, usize), Diag>)
        requires
            i <= ts@.len(),
        ensures
            (r is Ok) == (spec_variant(toks_view(ts@), i as int) is Some),
            r is Ok ==> ({
                let q = spec_variant(toks_view(ts@), i as int)->0;
                variant_view(r->Ok_0.0) == q.0 && r->Ok_0.1 as int == q.1
            }),
            r is Ok ==> i < r->Ok_0.1 <= ts@.len(),
    {
        let ghost tv = toks_view(ts@);
        proof {
            lemma_spec_variant_bounds(tv, i as int);
        }
        let n = ts.len();
        let mut j = i;
        // Skip attributes.
        while j < n && j + 1 < n && is_punct_tok(&ts[j], '#') && is_punct_tok(&ts[j + 1], '[')
            invariant
                i <= j <= n,
                n == ts@.len(),
                tv == toks_view(ts@),
                spec_attrs_end(tv, j as int) == spec_attrs_end(tv, i as int),
            decreases n - j,
        {
            let end = find_run_end(ts, j + 2, false, false, false);
            if !(end < n && is_punct_tok(&ts[end], ']')) {
                proof {
                    assert(spec_attrs_end(tv, i as int) is None);
                    assert(spec_variant(tv, i as int) is None);
                }
                return Err(diag_at(ts, j, "unclosed attribute"));
            }
            j = end + 1;
        }
        proof {
            assert(spec_attrs_end(tv, j as int) == Some(j as int));
        }
        if !(j < n && is_ident_tok(&ts[j])) {
            proof {
                assert(spec_variant(tv, i as int) is None);
            }
            return Err(diag_at(ts, j, "expected a variant name"));
        }
        let ident = crate::text::copy_text(&ts[j].text);
        let ident_span = tok_span(&ts[j]);
        j = j + 1;
        let open = j;
        let (fields, fields_span, next) = if j < n && is_punct_tok(&ts[j], '(') {
            let (fs, after) = match parse_variant_fields(ts, j + 1, ')', false) {
                Ok(f) => f,
                Err(e) => {
                    proof {
                        assert(spec_variant(tv, i as int) is None);
                    }
                    return Err(e);
                },
            };
            proof {
                if fs@.len() == 0 {
                    assert(field_seq_view(fs@) =~= Seq::<FieldV>::empty());
                } else {
                    assert(field_seq_view(fs@)[0] == field_view(fs@[0]));
                    assert(field_seq_view(fs@).len() == fs@.len());
                }
                assert(tv[after - 1] == crate::text::tok_view(ts@[after - 1]));
            }
            let last = &ts[after - 1];
            let span = Span { lo: ts[open].pos, hi: last.pos.saturating_add(last.text.len()) };
            if fs.len() == 0 {
                (Fields::Unit, span, after)
            } else {
                (Fields::Unnamed(fs), span, after)
            }
        } else if j < n && is_punct_tok(&ts[j], '{') {
            let (fs, after) = match parse_variant_fields(ts, j + 1, '}', true) {
                Ok(f) => f,
                Err(e) => {
                    proof {
                        assert(spec_variant(tv, i as int) is None);
                    }
                    return Err(e);
                },
            };
            proof {
                if fs@.len() == 0 {
                    assert(field_seq_view(fs@) =~= Seq::<FieldV>::empty());
                } else {
                    assert(field_seq_view(fs@)[0] == field_view(fs@[0]));
                    assert(field_seq_view(fs@).len() == fs@.len());
                }
                assert(tv[after - 1] == crate::text::tok_view(ts@[after - 1]));
            }
            let last = &ts[after - 1];
            let span = Span { lo: ts[open].pos, hi: last.pos.saturating_add(last.text.len()) };
            if fs.len() == 0 {
                (Fields::Unit, span, after)
            } else {
                (Fields::Named(fs), span, after)
            }
        } else {
            (Fields::Unit, ident_span, j)
        };
        j = next;
        // A discriminant: consumed and discarded.
        if j < n && is_punct_tok(&ts[j], '=') {
            let end = find_run_end(ts, j + 1, false, false, false);
            if end == j + 1 {
                proof {
                    assert(spec_variant(tv, i as int) is None);
                }
                return Err(diag_at(ts, j, "expected a discriminant expression"));
            }
            j = end;
        }
        let v = Variant { ident, ident_span, fields, fields_span };
        proof {
            let q = spec_variant(tv, i as int)->0;
            assert(variant_view(v) == q.0);
        }
        Ok((v, j))
    }
}

impl Subject {
    /// Parses an enum-like declaration: attributes and a visibility
    /// are skipped; generics and existing where-predicates are kept
    /// as canonical text and forwarded verbatim — exactly what
    /// `spec_subject` says of the text's token stream, which succeeds
    /// on every stream the grammar accepts.
    #[verifier::rlimit(80)]
    pub fn parse(src: &Vec<char>) -> (r: Result<Subject, Diag>)
        ensures
            (r is Ok) == (spec_subject(tokenize_from(src@, 0)) is Some),
            r is Ok ==> subject_view(r->Ok_0) == spec_subject(tokenize_from(src@, 0))->0,
    {
        let ts = tokenize(src);
        let ghost tv = toks_view(ts@);
        let n = ts.len();
        let mut j: usize = 0;
        // Skip attributes.
        while j < n && j + 1 < n && is_punct_tok(&ts[j], '#') && is_punct_tok(&ts[j + 1], '[')
            invariant
                j <= n,
                n == ts@.len(),
                tv == toks_view(ts@),
                tv == tokenize_from(src@, 0),
                spec_attrs_end(tv, j as int) == spec_attrs_end(tv, 0),
            decreases n - j,
        {
            let end = find_run_end(&ts, j + 2, false, false, false);
            if !(end < n && is_punct_tok(&ts[end], ']')) {
                proof {
                    assert(spec_attrs_end(tv, 0) is None);
                    assert(spec_subject(tv) is None);
                }
                return Err(diag_at(&ts, j, "unclosed attribute"));
            }
            j = end + 1;
        }
        proof {
            assert(spec_attrs_end(tv, j as int) == Some(j as int));
        }
        // Skip a visibility.
        if j < n && tok_is(&ts[j], "pub") {
            j = j + 1;
            if j < n && is_punct_tok(&ts[j], '(') {
                let end = find_run_end(&ts, j + 1, false, false, false);
                if !(end < n && is_punct_tok(&ts[end], ')')) {
                    proof {
                        assert(spec_vis_end(tv, j - 1int) is None);
                        assert(spec_subject(tv) is None);
                    }
                    return Err(diag_at(&ts, j, "unclosed visibility"));
                }
                j = end + 1;
            }
        }
        if !(j < n && tok_is(&ts[j], "enum")) {
            proof {
                assert(spec_subject(tv) is None);
            }
            return Err(diag_at(&ts, j, "expected an enum declaration"));
        }
        j = j + 1;
        if !(j < n && is_ident_tok(&ts[j])) {
            proof {
                assert(spec_subject(tv) is None);
            }
            return Err(diag_at(&ts, j, "expected the enum's name"));
        }
        let ident = crate::text::copy_text(&ts[j].text);
        let ident_span = tok_span(&ts[j]);
        let ghost d = j + 1int;
        j = j + 1;
        // Generics: the balanced angle-bracket group, kept verbatim.
        let generics: Vec<char> = if j < n && is_punct_tok(&ts[j], '<') {
            let mut k = j + 1;
            let mut depth: usize = 0;
            let mut close = n;
            while k < n && close == n
                invariant
                    j + 1 <= k <= n,
                    n == ts@.len(),
                    tv == toks_view(ts@),
                    depth <= k,
                    close == n || (j + 1 <= close && close < n),
                    close == n ==> spec_angle_close(tv, k as int, depth as int)
                        == spec_angle_close(tv, j + 1int, 0),
                    close < n ==> close as int == spec_angle_close(tv, j + 1int, 0),
                decreases n - k,
            {
                if is_punct_tok(&ts[k], '<') {
                    if depth < usize::MAX {
                        depth = depth + 1;
                    }
                } else if is_punct_tok(&ts[k], '>') {
                    if depth == 0 {
                        close = k;
                    } else {
                        depth = depth - 1;
                    }
                }
                k = k + 1;
            }
            if close >= n {
                proof {
                    assert(spec_angle_close(tv, j + 1int, 0) < 0 || spec_angle_close(
                        tv,
                        j + 1int,
                        0,
                    ) >= n);
                    lemma_spec_angle_close_bounds(tv, j + 1int, 0);
                    assert(spec_subject(tv) is None);
                }
                return Err(diag_at(&ts, j, "unclosed generic parameter list"));
            }
            let (text, _span) = canon_run(&ts, j, close + 1);
            j = close + 1;
            text
        } else {
            Vec::new()
        };
        // An existing where-clause: predicates kept as canonical text.
        let ghost e = j as int;
        let ghost has_w = j < n && tv[e].0 == "where"@;
        let mut where_preds: Vec<Vec<char>> = Vec::new();
        if j < n && tok_is(&ts[j], "where") {
            let ghost w0 = j + 1int;
            j = j + 1;
            proof {
                lemma_compose_empty(spec_wpreds(tv, w0));
                assert(where_preds.deep_view() =~= Seq::<Seq<char>>::empty());
            }
            while j < n && !is_punct_tok(&ts[j], '{')
                invariant
                    j <= n,
                    n == ts@.len(),
                    tv == toks_view(ts@),
                    tv == tokenize_from(src@, 0),
                    spec_wpreds(tv, w0) is None ==> spec_subject(tv) is None,
                    compose(where_preds.deep_view(), spec_wpreds(tv, j as int)) == spec_wpreds(
                        tv,
                        w0,
                    ),
                decreases n - j,
            {
                let ghost j0 = j as int;
                let ghost pv = where_preds.deep_view();
                let end = find_run_end(&ts, j, false, false, true);
                if end == j {
                    proof {
                        assert(spec_wpreds(tv, j0) is None);
                    }
                    return Err(diag_at(&ts, j, "expected a where-clause predicate"));
                }
                let (text, _span) = canon_run(&ts, j, end);
                let ghost textv = text@;
                where_preds.push(text);
                proof {
                    assert(where_preds.deep_view() =~= pv.push(textv));
                }
                j = end;
                if j < n && is_punct_tok(&ts[j], ',') {
                    j = j + 1;
                }
                proof {
                    assert(spec_wpreds(tv, j0) == compose(
                        seq![textv],
                        spec_wpreds(tv, j as int),
                    ));
                    lemma_compose_push(pv, textv, spec_wpreds(tv, j as int));
                }
            }
            proof {
                assert(spec_wpreds(tv, j as int) == Some((Seq::<Seq<char>>::empty(), j as int)));
                assert(where_preds.deep_view() + Seq::<Seq<char>>::empty() =~= where_preds.deep_view());
            }
        }
        if !(j < n && is_punct_tok(&ts[j], '{')) {
            proof {
                assert(spec_subject(tv) is None);
            }
            return Err(diag_at(&ts, j, "expected the enum's body"));
        }
        let ghost fpos = j + 1int;
        let ghost subj_rest = spec_variants(tv, fpos);
        proof {
            assert(spec_subject(tv) == (match spec_variants(tv, fpos) {
                None => None::<SubjectV>,
                Some((vs, g)) => {
                    if g != tv.len() {
                        None
                    } else {
                        Some(
                            SubjectV {
                                ident: ident@,
                                ident_span,
                                generics: generics@,
                                where_preds: where_preds.deep_view(),
                                variants: vs,
                            },
                        )
                    }
                },
            }));
            lemma_compose_empty(spec_variants(tv, fpos));
            assert(variant_seq_view(Seq::<Variant>::empty()) =~= Seq::<VariantV>::empty());
        }
        j = j + 1;
        let mut variants: Vec<Variant> = Vec::new();
        while j < n
            invariant
                j <= n,
                n == ts@.len(),
                tv == toks_view(ts@),
                tv == tokenize_from(src@, 0),
                subj_rest == spec_variants(tv, fpos),
                compose(variant_seq_view(variants@), spec_variants(tv, j as int)) == subj_rest,
                spec_subject(tv) == (match spec_variants(tv, fpos) {
                    None => None::<SubjectV>,
                    Some((vs, g)) => {
                        if g != tv.len() {
                            None
                        } else {
                            Some(
                                SubjectV {
                                    ident: ident@,
                                    ident_span,
                                    generics: generics@,
                                    where_preds: where_preds.deep_view(),
                                    variants: vs,
                                },
                            )
                        }
                    },
                }),
            decreases n - j,
        {
            let ghost j0 = j as int;
            let ghost pv = variant_seq_view(variants@);
            if is_punct_tok(&ts[j], '}') {
                proof {
                    assert(spec_variants(tv, j0) == Some((Seq::<VariantV>::empty(), j0 + 1)));
                    assert(pv + Seq::<VariantV>::empty() =~= pv);
                }
                if j + 1 != n {
                    return Err(diag_at(&ts, j + 1, "unexpected tokens after the declaration"));
                }
                let out = Subject { ident, ident_span, generics, where_preds, variants };
                proof {
                    assert(subject_view(out) == spec_subject(tv)->0);
                }
                return Ok(out);
            }
            let (v, next) = match Variant::parse(&ts, j) {
                Ok(v) => v,
                Err(e) => {
                    proof {
                        assert(spec_variants(tv, j0) is None);
                    }
                    return Err(e);
                },
            };
            let ghost vv = variant_view(v);
            variants.push(v);
            proof {
                assert(variant_seq_view(variants@) =~= pv.push(vv));
            }
            j = next;
            if j < n && is_punct_tok(&ts[j], ',') {
                proof {
                    assert(spec_variants(tv, j0) == compose(
                        seq![vv],
                        spec_variants(tv, j + 1int),
                    ));
                    lemma_compose_push(pv, vv, spec_variants(tv, j + 1int));
                }
                j = j + 1;
            } else if j < n && is_punct_tok(&ts[j], '}') {
                proof {
                    assert(spec_variants(tv, j0) == Some((seq![vv], j + 1int)));
                    lemma_compose_push(pv, vv, Some((Seq::<VariantV>::empty(), j + 1int)));
                    assert(compose(
                        seq![vv],
                        Some((Seq::<VariantV>::empty(), j + 1int)),
                    ) == Some((seq![vv] + Seq::<VariantV>::empty(), j + 1int)));
                    assert(seq![vv] + Seq::<VariantV>::empty() =~= seq![vv]);
                }
            } else {
                proof {
                    assert(spec_variants(tv, j0) is None);
                }
                return Err(diag_at(&ts, j, "expected a comma or the end of the body"));
            }
        }
        proof {
            assert(spec_variants(tv, j as int) is None);
        }
        Err(diag_at(&ts, j, "unclosed enum body"))
    }
}

} // verus!
