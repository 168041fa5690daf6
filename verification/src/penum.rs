//! The engine: pattern selection per variant, per-position
//! unification, bound validation, blueprint attachment, predicate
//! collection, and the final assembly of the enriched declaration.
//!
//! The whole pass is specified by `assemble_spec`, a fold over the
//! subject's variants, and `Penum::assemble` is proved to produce
//! exactly that fold's result.

use vstd::prelude::*;

use core::marker::PhantomData;

use crate::comparable::select;
use crate::comparable::select_pattern;
use crate::dispatch::Blueprint;
use crate::dispatch::BlueprintV;
use crate::dispatch::VariantSigV;
use crate::dispatch::attach_sigs;
use crate::dispatch::blueprint_seq_view;
use crate::dispatch::blueprint_view;
use crate::dispatch::find_and_attach;
use crate::emit::impls_text;
use crate::emit::msgs_text;
use crate::emit::output_text;
use crate::emit::pattern_set_text;
use crate::emit::render_bounds_list;
use crate::emit::render_fields;
use crate::emit::render_impls;
use crate::emit::render_msgs;
use crate::emit::render_output;
use crate::emit::render_pattern_set;
use crate::emit::render_subject;
use crate::emit::render_trait_bound;
use crate::emit::subject_text;
use crate::error::Span;
use crate::error::Diag;
use crate::error::ErrorStash;
use crate::error::stash_view;
use crate::model::Bound;
use crate::model::BoundModifier;
use crate::model::BoundV;
use crate::model::Clause;
use crate::model::Field;
use crate::model::FieldV;
use crate::model::Fields;
use crate::model::PatComposite;
use crate::model::PatFieldKind;
use crate::model::PatFieldKindV;
use crate::model::PatFrag;
use crate::model::PatFragV;
use crate::model::PatTy;
use crate::model::PatTyV;
use crate::model::PenumExpr;
use crate::model::PenumExprV;
use crate::model::Subject;
use crate::model::SubjectV;
use crate::model::TraitBound;
use crate::model::Variant;
use crate::model::VariantV;
use crate::model::WherePred;
use crate::model::WherePredV;
use crate::model::bound_seq_view;
use crate::model::clause_preds_view;
use crate::model::expr_view;
use crate::model::field_seq_view;
use crate::model::fields_list;
use crate::model::fields_view;
use crate::model::pat_frag_seq_view;
use crate::model::pred_seq_view;
use crate::model::subject_view;
use crate::model::trait_bound_view;
use crate::model::variant_view;
use crate::polym::PolymorphicMap;
use crate::polym::poly_insert;
use crate::polym::poly_get;
use crate::polym::poly_view;
use crate::registry::TraitRegistry;
use crate::registry::registry_get;
use crate::registry::registry_view;
use crate::text::copy_text;
use crate::text::is_generic_text;
use crate::text::is_infer_text;
use crate::text::is_word_char;
use crate::text::text_of;

verus! {

broadcast use crate::text::lemma_text_deep_view, crate::text::lemma_texts_deep_view;

/// Marks a `Penum` whose subject has not been validated yet.
pub struct Unassembled;

/// Marks a `Penum` that has been through `assemble`.
pub struct Assembled;

/// The engine's container: the expression, the subject, and the state
/// the assembly pass accumulates.
#[verifier::reject_recursive_types(State)]
pub struct Penum<State> {
    pub expr: PenumExpr,
    pub subject: Subject,
    pub error: ErrorStash,
    pub types: PolymorphicMap,
    pub impls: Vec<Vec<char>>,
    pub marker: PhantomData<State>,
}

/// The accumulated engine state, at spec level: diagnostics, the
/// polymorphic map, the blueprints, and the synthetic predicates
/// collected at `impl Trait` positions.
pub struct EngV {
    pub errors: Seq<(Span, Seq<char>)>,
    pub poly: Seq<(Seq<char>, Seq<Seq<char>>)>,
    pub bps: Seq<BlueprintV>,
    pub preds: Seq<WherePredV>,
}

// ------------------------------------------------------------------
// Diagnostic texts
// ------------------------------------------------------------------
pub open spec fn msg_empty() -> Seq<char> {
    "Expected to find at least one variant."@
}

pub open spec fn msg_no_match(form: Seq<char>, pats: Seq<char>) -> Seq<char> {
    "No match found for `"@ + form + "`. Expected `"@ + pats + "`."@
}

pub open spec fn msg_mismatch(found: Seq<char>, expected: Seq<char>) -> Seq<char> {
    "Found `"@ + found + "` but expected `"@ + expected + "`."@
}

pub open spec fn msg_maybe_bound() -> Seq<char> {
    "Maybe-bounds are not permitted."@
}

pub open spec fn msg_dispatch_bound() -> Seq<char> {
    "Dispatch bounds are not permitted here."@
}

pub open spec fn msg_lifetime_bound() -> Seq<char> {
    "Lifetime bounds are not permitted."@
}

pub open spec fn msg_lifetime_pred() -> Seq<char> {
    "lifetime predicates are unsupported"@
}

// ------------------------------------------------------------------
// Blueprint scan
// ------------------------------------------------------------------
/// What the planner does with one bound of a type predicate: a `?`
/// bound or a lifetime bound is rejected; a `^` bound whose trait is
/// registered becomes a blueprint keyed on the canonical id of the
/// bounded type; everything else is left as a plain bound.
pub open spec fn scan_bound(
    st: (Seq<BlueprintV>, Seq<(Span, Seq<char>)>),
    bounded_ty: Seq<char>,
    b: BoundV,
    reg: Seq<crate::model::TraitDefV>,
) -> (Seq<BlueprintV>, Seq<(Span, Seq<char>)>) {
    match b {
        BoundV::Trait(tb) => match tb.modifier {
            BoundModifier::Maybe => (st.0, st.1.push((tb.span, msg_maybe_bound()))),
            BoundModifier::Dispatch => match registry_get(reg, tb.name) {
                Some(td) => (
                    st.0.push(BlueprintV { key: bounded_ty, bound: tb, tdef: td, arms: Seq::empty() }),
                    st.1,
                ),
                None => st,
            },
            BoundModifier::Plain => st,
        },
        BoundV::Lifetime { span, .. } => (st.0, st.1.push((span, msg_lifetime_bound()))),
    }
}

pub open spec fn scan_bounds(
    st: (Seq<BlueprintV>, Seq<(Span, Seq<char>)>),
    bounded_ty: Seq<char>,
    bs: Seq<BoundV>,
    reg: Seq<crate::model::TraitDefV>,
) -> (Seq<BlueprintV>, Seq<(Span, Seq<char>)>)
    decreases bs.len(),
{
    if bs.len() == 0 {
        st
    } else {
        scan_bound(scan_bounds(st, bounded_ty, bs.drop_last(), reg), bounded_ty, bs.last(), reg)
    }
}

pub open spec fn scan_pred(
    st: (Seq<BlueprintV>, Seq<(Span, Seq<char>)>),
    p: WherePredV,
    reg: Seq<crate::model::TraitDefV>,
) -> (Seq<BlueprintV>, Seq<(Span, Seq<char>)>) {
    match p {
        WherePredV::Type { bounded_ty, bounds, .. } => scan_bounds(st, bounded_ty, bounds, reg),
        WherePredV::Lifetime { .. } => st,
    }
}

pub open spec fn scan_preds(
    st: (Seq<BlueprintV>, Seq<(Span, Seq<char>)>),
    ps: Seq<WherePredV>,
    reg: Seq<crate::model::TraitDefV>,
) -> (Seq<BlueprintV>, Seq<(Span, Seq<char>)>)
    decreases ps.len(),
{
    if ps.len() == 0 {
        st
    } else {
        scan_pred(scan_preds(st, ps.drop_last(), reg), ps.last(), reg)
    }
}

// ------------------------------------------------------------------
// The position walk
// ------------------------------------------------------------------
/// The variant signature for the field at `idx`.
pub open spec fn sig_of(e_ident: Seq<char>, v: VariantV, f: FieldV, idx: int, arity: int) -> VariantSigV {
    VariantSigV {
        enum_ident: e_ident,
        variant_ident: v.ident,
        field_name: f.name,
        field_index: idx,
        arity,
    }
}

/// The concatenated texts of the plain trait bounds of an `impl`
/// position, in order.
pub open spec fn impl_string_of(bs: Seq<BoundV>) -> Seq<char>
    decreases bs.len(),
{
    if bs.len() == 0 {
        Seq::empty()
    } else {
        impl_string_of(bs.drop_last()) + (match bs.last() {
            BoundV::Trait(tb) => if tb.modifier is Plain {
                render_trait_bound(tb)
            } else {
                Seq::<char>::empty()
            },
            BoundV::Lifetime { .. } => Seq::<char>::empty(),
        })
    }
}

/// The diagnostics an `impl` position's bounds raise: one per
/// modified bound, one per lifetime bound.
pub open spec fn impl_errs_of(bs: Seq<BoundV>) -> Seq<(Span, Seq<char>)>
    decreases bs.len(),
{
    if bs.len() == 0 {
        Seq::empty()
    } else {
        impl_errs_of(bs.drop_last()) + (match bs.last() {
            BoundV::Trait(tb) => match tb.modifier {
                BoundModifier::Plain => Seq::<(Span, Seq<char>)>::empty(),
                BoundModifier::Maybe => seq![(tb.span, msg_maybe_bound())],
                BoundModifier::Dispatch => seq![(tb.span, msg_dispatch_bound())],
            },
            BoundV::Lifetime { span, .. } => seq![(span, msg_lifetime_bound())],
        })
    }
}

/// Non-word characters replaced by underscores.
pub open spec fn sanitize(s: Seq<char>) -> Seq<char> {
    s.map(
        |i: int, c: char|
            if is_word_char(c) {
                c
            } else {
                '_'
            },
    )
}

/// The synthetic id of an `impl` position: derived from the bounds and
/// the variant's name.
pub open spec fn synth_impl_id(impl_str: Seq<char>, variant: Seq<char>) -> Seq<char> {
    "_impl_"@ + variant + seq!['_'] + sanitize(impl_str)
}

/// What an `impl TraitSet` position does: its bounds are validated;
/// if they are clean a synthetic id is bound to the field's id in the
/// polymorphic map and the predicate `id: TraitSet` is collected for
/// the where-clause merge.
pub open spec fn step_impl_pos(st: EngV, bounds: Seq<BoundV>, v_ident: Seq<char>, f: FieldV) -> EngV {
    let st1 = EngV { errors: st.errors + impl_errs_of(bounds), ..st };
    let istr = impl_string_of(bounds);
    if st1.errors.len() > 0 || istr.len() == 0 {
        st1
    } else {
        let id = synth_impl_id(istr, v_ident);
        EngV {
            preds: st1.preds.push(
                WherePredV::Type { span: f.span, bounded_ty: id, bounds },
            ),
            poly: poly_insert(st1.poly, id, f.ty),
            ..st1
        }
    }
}

/// What one zipped position does, as §4.3 of the engine's design:
/// the inference wildcard binds the field to itself; an `impl`
/// position goes through `step_impl_pos`; a generic pattern variable
/// binds to the field's id; equal concrete ids bind; anything else is
/// a type mismatch.
pub open spec fn step_field(
    st: EngV,
    e_ident: Seq<char>,
    v: VariantV,
    p: PatFieldKindV,
    f: FieldV,
    idx: int,
    arity: int,
) -> EngV {
    match p {
        PatFieldKindV::Variadic { .. } => st,
        PatFieldKindV::Range { .. } => st,
        PatFieldKindV::Field { ty, .. } => match ty {
            PatTyV::ImplTrait { bounds, .. } => step_impl_pos(st, bounds, v.ident, f),
            PatTyV::Plain(t) => {
                let sig = sig_of(e_ident, v, f, idx, arity);
                if is_infer_text(t) {
                    EngV {
                        bps: attach_sigs(st.bps, f.ty, sig),
                        poly: poly_insert(st.poly, f.ty, f.ty),
                        ..st
                    }
                } else if is_generic_text(t) && t == f.ty {
                    EngV {
                        bps: attach_sigs(st.bps, t, sig),
                        poly: poly_insert(st.poly, t, f.ty),
                        ..st
                    }
                } else if is_generic_text(t) {
                    EngV {
                        bps: attach_sigs(attach_sigs(st.bps, t, sig), f.ty, sig),
                        poly: poly_insert(poly_insert(st.poly, t, f.ty), f.ty, f.ty),
                        ..st
                    }
                } else if t == f.ty {
                    EngV {
                        bps: attach_sigs(st.bps, f.ty, sig),
                        poly: poly_insert(st.poly, t, f.ty),
                        ..st
                    }
                } else {
                    EngV { errors: st.errors.push((f.span, msg_mismatch(f.ty, t))), ..st }
                }
            },
        },
    }
}

/// The position walk: pattern parameters zipped with the variant's
/// fields in index order, stopping at a variadic marker or at the end
/// of the shorter side.
pub open spec fn walk_fields(
    st: EngV,
    e_ident: Seq<char>,
    v: VariantV,
    params: Seq<PatFieldKindV>,
    fields: Seq<FieldV>,
    k: int,
    arity: int,
) -> EngV
    decreases params.len() - k,
    when 0 <= k
{
    if k >= params.len() || k >= fields.len() {
        st
    } else {
        match params[k] {
            PatFieldKindV::Variadic { .. } => st,
            PatFieldKindV::Range { .. } => st,
            PatFieldKindV::Field { .. } => walk_fields(
                step_field(st, e_ident, v, params[k], fields[k], k, arity),
                e_ident,
                v,
                params,
                fields,
                k + 1,
                arity,
            ),
        }
    }
}

/// The walk under an inferred composite: every field binds to itself
/// and attaches to the blueprints keyed on its own id.
pub open spec fn walk_infer(
    st: EngV,
    e_ident: Seq<char>,
    v: VariantV,
    fields: Seq<FieldV>,
    k: int,
) -> EngV
    decreases fields.len() - k,
    when 0 <= k
{
    if k >= fields.len() {
        st
    } else {
        let f = fields[k];
        let sig = sig_of(e_ident, v, f, k, fields.len() as int);
        walk_infer(
            EngV { bps: attach_sigs(st.bps, f.ty, sig), poly: poly_insert(st.poly, f.ty, f.ty), ..st },
            e_ident,
            v,
            fields,
            k + 1,
        )
    }
}

/// The diagnostic for a variant no pattern accepts: spanned on the
/// fields, or on the variant's name when it has none.
pub open spec fn no_match_err(v: VariantV, fmt: Seq<char>) -> (Span, Seq<char>) {
    if fields_list(v.fields).len() == 0 {
        (v.ident_span, msg_no_match(v.ident, fmt))
    } else {
        (v.fields_span, msg_no_match(render_fields(v.fields), fmt))
    }
}

/// What the engine does with one variant: the first shape-compatible
/// pattern is selected greedily; no match is an error; a unit
/// composite is done; otherwise the positions are walked.
pub open spec fn walk_variant(
    st: EngV,
    e_ident: Seq<char>,
    pats: Seq<PatFragV>,
    fmt: Seq<char>,
    v: VariantV,
) -> EngV {
    let sel = select_pattern(pats, v.fields);
    if sel < 0 {
        EngV { errors: st.errors.push(no_match_err(v, fmt)), ..st }
    } else {
        match pats[sel].group {
            crate::model::PatCompositeV::Unit => st,
            crate::model::PatCompositeV::Inferred => walk_infer(
                st,
                e_ident,
                v,
                fields_list(v.fields),
                0,
            ),
            crate::model::PatCompositeV::Unnamed(ps) => walk_fields(
                st,
                e_ident,
                v,
                ps,
                fields_list(v.fields),
                0,
                fields_list(v.fields).len() as int,
            ),
            crate::model::PatCompositeV::Named(ps) => walk_fields(
                st,
                e_ident,
                v,
                ps,
                fields_list(v.fields),
                0,
                fields_list(v.fields).len() as int,
            ),
        }
    }
}

/// The fold over the subject's variants, in declaration order.
pub open spec fn walk_variants(
    st: EngV,
    e_ident: Seq<char>,
    pats: Seq<PatFragV>,
    fmt: Seq<char>,
    vs: Seq<VariantV>,
    k: int,
) -> EngV
    decreases vs.len() - k,
    when 0 <= k
{
    if k >= vs.len() {
        st
    } else {
        walk_variants(walk_variant(st, e_ident, pats, fmt, vs[k]), e_ident, pats, fmt, vs, k + 1)
    }
}

/// The whole assembly pass: an empty subject is a single diagnostic;
/// otherwise the clause is scanned into blueprints and the variants
/// are walked.
pub open spec fn assemble_spec(s: SubjectV, e: PenumExprV, reg: Seq<crate::model::TraitDefV>) -> EngV {
    if s.variants.len() == 0 {
        EngV {
            errors: seq![(s.ident_span, msg_empty())],
            poly: Seq::empty(),
            bps: Seq::empty(),
            preds: Seq::empty(),
        }
    } else {
        let scanned = scan_preds((Seq::empty(), Seq::empty()), e.clause_preds, reg);
        walk_variants(
            EngV { errors: scanned.1, poly: Seq::empty(), bps: scanned.0, preds: Seq::empty() },
            s.ident,
            e.pattern,
            render_pattern_set(e.pattern),
            s.variants,
            0,
        )
    }
}

/// The bound propagation of the emission step: for every type
/// predicate of the (merged) clause, every concrete id unified with
/// the bounded type gains the predicate's bounds in the subject's
/// where-clause; lifetime predicates are rejected.
pub open spec fn propagate(
    st: (Seq<Seq<char>>, Seq<(Span, Seq<char>)>),
    preds: Seq<WherePredV>,
    poly: Seq<(Seq<char>, Seq<Seq<char>>)>,
) -> (Seq<Seq<char>>, Seq<(Span, Seq<char>)>)
    decreases preds.len(),
{
    if preds.len() == 0 {
        st
    } else {
        let st1 = propagate(st, preds.drop_last(), poly);
        match preds.last() {
            WherePredV::Type { bounded_ty, bounds, .. } => match poly_get(poly, bounded_ty) {
                Some(vals) => (
                    st1.0 + vals.map(|i: int, val: Seq<char>| val + ": "@ + render_bounds_list(bounds)),
                    st1.1,
                ),
                None => st1,
            },
            WherePredV::Lifetime { span } => (st1.0, st1.1.push((span, msg_lifetime_pred()))),
        }
    }
}

// ------------------------------------------------------------------
// The executable engine
// ------------------------------------------------------------------
/// The engine state the assembly pass accumulates.
pub struct EngineState {
    pub error: ErrorStash,
    pub types: PolymorphicMap,
    pub bps: Vec<Blueprint>,
    pub preds: Vec<WherePred>,
}

pub open spec fn eng_view(st: EngineState) -> EngV {
    EngV {
        errors: stash_view(st.error),
        poly: poly_view(st.types),
        bps: blueprint_seq_view(st.bps@),
        preds: pred_seq_view(st.preds@),
    }
}

/// Builds the "found ... but expected ..." diagnostic for a field.
fn mismatch_diag(f: &Field, t: &Vec<char>) -> (r: Diag)
    ensures
        crate::error::diag_view(r) == (f.span, msg_mismatch(f.ty@, t@)),
{
    let mut msg = text_of("Found `");
    crate::emit::app_text(&mut msg, &f.ty);
    crate::emit::app_str(&mut msg, "` but expected `");
    crate::emit::app_text(&mut msg, t);
    crate::emit::app_str(&mut msg, "`.");
    proof {
        assert(msg@ =~= msg_mismatch(f.ty@, t@));
    }
    Diag { span: f.span, msg }
}

/// Builds the "no match found" diagnostic for a variant.
fn no_match_diag(v: &Variant, fmt: &Vec<char>) -> (r: Diag)
    ensures
        crate::error::diag_view(r) == no_match_err(variant_view(*v), fmt@),
{
    let arity = crate::comparable::fields_arity(&v.fields);
    let (span, form) = if arity == 0 {
        (v.ident_span, copy_text(&v.ident))
    } else {
        (v.fields_span, crate::emit::fields_text(&v.fields))
    };
    let mut msg = text_of("No match found for `");
    crate::emit::app_text(&mut msg, &form);
    crate::emit::app_str(&mut msg, "`. Expected `");
    crate::emit::app_text(&mut msg, fmt);
    crate::emit::app_str(&mut msg, "`.");
    proof {
        assert(msg@ =~= msg_no_match(form@, fmt@));
    }
    Diag { span, msg }
}

/// Replaces every non-word character by an underscore.
fn sanitize_text(s: &Vec<char>) -> (r: Vec<char>)
    ensures
        r@ == sanitize(s@),
{
    let mut out: Vec<char> = Vec::new();
    let mut i: usize = 0;
    while i < s.len()
        invariant
            i <= s@.len(),
            out@ == sanitize(s@).subrange(0, i as int),
        decreases s@.len() - i,
    {
        let c = s[i];
        if crate::text::word_char(c) {
            out.push(c);
        } else {
            out.push('_');
        }
        proof {
            assert(out@ =~= sanitize(s@).subrange(0, i + 1int));
        }
        i = i + 1;
    }
    proof {
        assert(sanitize(s@).subrange(0, s@.len() as int) =~= sanitize(s@));
    }
    out
}

/// Builds the synthetic id of an `impl` position.
fn synth_id_text(istr: &Vec<char>, variant: &Vec<char>) -> (r: Vec<char>)
    ensures
        r@ == synth_impl_id(istr@, variant@),
{
    let mut out = text_of("_impl_");
    crate::emit::app_text(&mut out, variant);
    out.push('_');
    let mut san = sanitize_text(istr);
    out.append(&mut san);
    proof {
        assert(out@ =~= synth_impl_id(istr@, variant@));
    }
    out
}

impl Penum<Unassembled> {
    /// Validates the bounds of an `impl` position and returns their
    /// concatenated text: the id material of the synthetic predicate.
    /// Nothing is returned if any diagnostic is pending afterwards or
    /// if no plain trait bound was found.
    pub fn create_impl_string(error: &mut ErrorStash, bounds: &Vec<Bound>) -> (r: Option<Vec<char>>)
        ensures
            stash_view(*final(error)) == stash_view(*old(error)) + impl_errs_of(
                bound_seq_view(bounds@),
            ),
            match r {
                Some(s) => s@ == impl_string_of(bound_seq_view(bounds@)) && stash_view(
                    *final(error),
                ).len() == 0 && s@.len() > 0,
                None => stash_view(*final(error)).len() > 0 || impl_string_of(
                    bound_seq_view(bounds@),
                ).len() == 0,
            },
    {
        let ghost bv = bound_seq_view(bounds@);
        let mut istr: Vec<char> = Vec::new();
        let mut i: usize = 0;
        proof {
            assert(stash_view(*error) + impl_errs_of(bv.subrange(0, 0)) =~= stash_view(*error));
            assert(istr@ =~= impl_string_of(bv.subrange(0, 0)));
        }
        while i < bounds.len()
            invariant
                i <= bounds@.len(),
                bv == bound_seq_view(bounds@),
                stash_view(*error) == stash_view(*old(error)) + impl_errs_of(
                    bv.subrange(0, i as int),
                ),
                istr@ == impl_string_of(bv.subrange(0, i as int)),
            decreases bounds@.len() - i,
        {
            let ghost stash_pre = stash_view(*error);
            let ghost istr_pre = istr@;
            match &bounds[i] {
                Bound::Trait(tb) => {
                    match tb.modifier {
                        BoundModifier::Plain => {
                            let mut t = crate::emit::trait_bound_text(tb);
                            istr.append(&mut t);
                        },
                        BoundModifier::Maybe => {
                            error.extend(tb.span, text_of("Maybe-bounds are not permitted."));
                        },
                        BoundModifier::Dispatch => {
                            error.extend(
                                tb.span,
                                text_of("Dispatch bounds are not permitted here."),
                            );
                        },
                    }
                },
                Bound::Lifetime { span, .. } => {
                    error.extend(*span, text_of("Lifetime bounds are not permitted."));
                },
            }
            proof {
                assert(bv[i as int] == crate::model::bound_view(bounds@[i as int]));
                assert(bv.subrange(0, i + 1int).drop_last() =~= bv.subrange(0, i as int));
                assert(bv.subrange(0, i + 1int).last() == bv[i as int]);
                assert(istr@ =~= impl_string_of(bv.subrange(0, i + 1int)));
                assert(stash_view(*error) =~= stash_view(*old(error)) + impl_errs_of(
                    bv.subrange(0, i + 1int),
                ));
            }
            i = i + 1;
        }
        proof {
            assert(bv.subrange(0, bv.len() as int) =~= bv);
        }
        if error.has_error() || istr.len() == 0 {
            None
        } else {
            Some(istr)
        }
    }

    /// Records a "no match found" diagnostic for a variant, spanned on
    /// its fields, or on its name when it has none.
    pub fn report_invalid_shape(error: &mut ErrorStash, v: &Variant, fmt: &Vec<char>)
        ensures
            stash_view(*final(error)) == stash_view(*old(error)).push(
                no_match_err(variant_view(*v), fmt@),
            ),
    {
        let d = no_match_diag(v, fmt);
        error.extend(d.span, d.msg);
    }
}

/// Performs one zipped position of the walk, as `step_field` says.
fn step_field_exec(
    st: &mut EngineState,
    e_ident: &Vec<char>,
    v: &Variant,
    p: &PatFieldKind,
    f: &Field,
    idx: usize,
    arity: usize,
)
    ensures
        eng_view(*final(st)) == step_field(
            eng_view(*old(st)),
            e_ident@,
            variant_view(*v),
            crate::model::pat_field_kind_view(*p),
            crate::model::field_view(*f),
            idx as int,
            arity as int,
        ),
{
    let ghost st0 = eng_view(*st);
    let ghost pv = crate::model::pat_field_kind_view(*p);
    let ghost fv = crate::model::field_view(*f);
    let ghost vv = variant_view(*v);
    match p {
        PatFieldKind::Variadic { .. } => {
        },
        PatFieldKind::Range { .. } => {
        },
        PatFieldKind::Field { ty, .. } => {
            match ty {
                PatTy::ImplTrait { bounds, .. } => {
                    match Penum::<Unassembled>::create_impl_string(&mut st.error, bounds) {
                        Some(istr) => {
                            let id = synth_id_text(&istr, &v.ident);
                            let id2 = copy_text(&id);
                            st.types.insert(id2, copy_text(&f.ty));
                            st.preds.push(
                                WherePred::Type {
                                    span: f.span,
                                    bounded_ty: id,
                                    bounds: crate::model::copy_bounds(bounds),
                                },
                            );
                            proof {
                                let spec_st1 = EngV {
                                    errors: st0.errors + impl_errs_of(bound_seq_view(bounds@)),
                                    ..st0
                                };
                                assert(stash_view(st.error) =~= spec_st1.errors);
                                assert(pred_seq_view(st.preds@) =~= spec_st1.preds.push(
                                    WherePredV::Type {
                                        span: fv.span,
                                        bounded_ty: synth_impl_id(
                                            impl_string_of(bound_seq_view(bounds@)),
                                            vv.ident,
                                        ),
                                        bounds: bound_seq_view(bounds@),
                                    },
                                ));
                                assert(eng_view(*st) == step_field(
                                    st0,
                                    e_ident@,
                                    vv,
                                    pv,
                                    fv,
                                    idx as int,
                                    arity as int,
                                ));
                            }
                        },
                        None => {
                            proof {
                                assert(eng_view(*st) == step_field(
                                    st0,
                                    e_ident@,
                                    vv,
                                    pv,
                                    fv,
                                    idx as int,
                                    arity as int,
                                ));
                            }
                        },
                    }
                },
                PatTy::Plain(t) => {
                    if crate::text::infer_text(t) {
                        find_and_attach(
                            &mut st.bps,
                            &f.ty,
                            e_ident,
                            &v.ident,
                            &f.name,
                            idx,
                            arity,
                        );
                        st.types.insert(copy_text(&f.ty), copy_text(&f.ty));
                    } else {
                        let g = crate::text::generic_text(t);
                        let eq = crate::text::text_eq(t, &f.ty);
                        if g && eq {
                            find_and_attach(
                                &mut st.bps,
                                t,
                                e_ident,
                                &v.ident,
                                &f.name,
                                idx,
                                arity,
                            );
                            st.types.insert(copy_text(t), copy_text(&f.ty));
                        } else if g {
                            find_and_attach(
                                &mut st.bps,
                                t,
                                e_ident,
                                &v.ident,
                                &f.name,
                                idx,
                                arity,
                            );
                            find_and_attach(
                                &mut st.bps,
                                &f.ty,
                                e_ident,
                                &v.ident,
                                &f.name,
                                idx,
                                arity,
                            );
                            st.types.insert(copy_text(t), copy_text(&f.ty));
                            st.types.insert(copy_text(&f.ty), copy_text(&f.ty));
                        } else if eq {
                            find_and_attach(
                                &mut st.bps,
                                &f.ty,
                                e_ident,
                                &v.ident,
                                &f.name,
                                idx,
                                arity,
                            );
                            st.types.insert(copy_text(t), copy_text(&f.ty));
                        } else {
                            let d = mismatch_diag(f, t);
                            st.error.extend(d.span, d.msg);
                        }
                    }
                },
            }
        },
    }
}

/// Walks the zipped positions of one variant, as `walk_fields` says.
fn walk_fields_exec(
    st: &mut EngineState,
    e_ident: &Vec<char>,
    v: &Variant,
    params: &Vec<PatFieldKind>,
    fields: &Vec<Field>,
    arity: usize,
)
    requires
        arity == fields@.len(),
    ensures
        eng_view(*final(st)) == walk_fields(
            eng_view(*old(st)),
            e_ident@,
            variant_view(*v),
            crate::model::pat_param_seq_view(params@),
            field_seq_view(fields@),
            0,
            arity as int,
        ),
{
    let ghost pv = crate::model::pat_param_seq_view(params@);
    let ghost fv = field_seq_view(fields@);
    let ghost vv = variant_view(*v);
    let ghost goal = walk_fields(eng_view(*old(st)), e_ident@, vv, pv, fv, 0, arity as int);
    let mut k: usize = 0;
    while k < params.len() && k < fields.len()
        invariant
            k <= params@.len(),
            arity == fields@.len(),
            pv == crate::model::pat_param_seq_view(params@),
            fv == field_seq_view(fields@),
            vv == variant_view(*v),
            goal == walk_fields(eng_view(*old(st)), e_ident@, vv, pv, fv, 0, arity as int),
            walk_fields(eng_view(*st), e_ident@, vv, pv, fv, k as int, arity as int) == goal,
        decreases params@.len() - k,
    {
        proof {
            assert(pv[k as int] == crate::model::pat_field_kind_view(params@[k as int]));
            assert(fv[k as int] == crate::model::field_view(fields@[k as int]));
        }
        match &params[k] {
            PatFieldKind::Variadic { .. } => {
                proof {
                    assert(walk_fields(eng_view(*st), e_ident@, vv, pv, fv, k as int, arity as int)
                        == eng_view(*st));
                }
                return ;
            },
            PatFieldKind::Range { .. } => {
                proof {
                    assert(walk_fields(eng_view(*st), e_ident@, vv, pv, fv, k as int, arity as int)
                        == eng_view(*st));
                }
                return ;
            },
            _ => {
                step_field_exec(st, e_ident, v, &params[k], &fields[k], k, arity);
            },
        }
        k = k + 1;
    }
    proof {
        assert(walk_fields(eng_view(*st), e_ident@, vv, pv, fv, k as int, arity as int) == eng_view(
            *st,
        ));
    }
}

/// Walks every field under an inferred composite, as `walk_infer`
/// says.
fn walk_infer_exec(st: &mut EngineState, e_ident: &Vec<char>, v: &Variant, fields: &Vec<Field>)
    ensures
        eng_view(*final(st)) == walk_infer(
            eng_view(*old(st)),
            e_ident@,
            variant_view(*v),
            field_seq_view(fields@),
            0,
        ),
{
    let ghost fv = field_seq_view(fields@);
    let ghost vv = variant_view(*v);
    let ghost goal = walk_infer(eng_view(*old(st)), e_ident@, vv, fv, 0);
    let mut k: usize = 0;
    let n = fields.len();
    while k < n
        invariant
            k <= n,
            n == fields@.len(),
            fv == field_seq_view(fields@),
            vv == variant_view(*v),
            goal == walk_infer(eng_view(*old(st)), e_ident@, vv, fv, 0),
            walk_infer(eng_view(*st), e_ident@, vv, fv, k as int) == goal,
        decreases n - k,
    {
        proof {
            assert(fv[k as int] == crate::model::field_view(fields@[k as int]));
        }
        let f = &fields[k];
        find_and_attach(&mut st.bps, &f.ty, e_ident, &v.ident, &f.name, k, n);
        st.types.insert(copy_text(&f.ty), copy_text(&f.ty));
        k = k + 1;
    }
    proof {
        assert(walk_infer(eng_view(*st), e_ident@, vv, fv, k as int) == eng_view(*st));
    }
}

/// Processes one variant, as `walk_variant` says.
fn walk_variant_exec(
    st: &mut EngineState,
    e_ident: &Vec<char>,
    pats: &Vec<PatFrag>,
    fmt: &Vec<char>,
    v: &Variant,
)
    ensures
        eng_view(*final(st)) == walk_variant(
            eng_view(*old(st)),
            e_ident@,
            pat_frag_seq_view(pats@),
            fmt@,
            variant_view(*v),
        ),
{
    let ghost pv = pat_frag_seq_view(pats@);
    let ghost vv = variant_view(*v);
    let empty_fields: Vec<Field> = Vec::new();
    match select(pats, &v.fields) {
        None => {
            Penum::<Unassembled>::report_invalid_shape(&mut st.error, v, fmt);
        },
        Some(i) => {
            proof {
                assert(pv[i as int] == crate::model::pat_frag_view(pats@[i as int]));
            }
            let fs: &Vec<Field> = match &v.fields {
                Fields::Unnamed(fs) => fs,
                Fields::Named(fs) => fs,
                Fields::Unit => &empty_fields,
            };
            proof {
                assert(field_seq_view(fs@) =~= fields_list(vv.fields));
            }
            match &pats[i].group {
                PatComposite::Unit => {
                },
                PatComposite::Inferred => {
                    walk_infer_exec(st, e_ident, v, fs);
                },
                PatComposite::Unnamed(ps) => {
                    walk_fields_exec(st, e_ident, v, ps, fs, fs.len());
                },
                PatComposite::Named(ps) => {
                    walk_fields_exec(st, e_ident, v, ps, fs, fs.len());
                },
            }
        },
    }
}

/// Walks every variant in declaration order, as `walk_variants` says.
fn walk_all_exec(st: &mut EngineState, e_ident: &Vec<char>, pats: &Vec<PatFrag>, fmt: &Vec<char>, vs: &Vec<Variant>)
    ensures
        eng_view(*final(st)) == walk_variants(
            eng_view(*old(st)),
            e_ident@,
            pat_frag_seq_view(pats@),
            fmt@,
            crate::model::variant_seq_view(vs@),
            0,
        ),
{
    let ghost pv = pat_frag_seq_view(pats@);
    let ghost vv = crate::model::variant_seq_view(vs@);
    let ghost goal = walk_variants(eng_view(*old(st)), e_ident@, pv, fmt@, vv, 0);
    let mut k: usize = 0;
    let n = vs.len();
    while k < n
        invariant
            k <= n,
            n == vs@.len(),
            pv == pat_frag_seq_view(pats@),
            vv == crate::model::variant_seq_view(vs@),
            goal == walk_variants(eng_view(*old(st)), e_ident@, pv, fmt@, vv, 0),
            walk_variants(eng_view(*st), e_ident@, pv, fmt@, vv, k as int) == goal,
        decreases n - k,
    {
        proof {
            assert(vv[k as int] == variant_view(vs@[k as int]));
        }
        walk_variant_exec(st, e_ident, pats, fmt, &vs[k]);
        k = k + 1;
    }
    proof {
        assert(walk_variants(eng_view(*st), e_ident@, pv, fmt@, vv, k as int) == eng_view(*st));
    }
}

/// Scans the clause into blueprints, validating the bounds, as
/// `scan_preds` says.
fn scan_blueprints_exec(expr: &PenumExpr, registry: &TraitRegistry, st: &mut EngineState)
    requires
        stash_view(old(st).error) == Seq::<(Span, Seq<char>)>::empty(),
        blueprint_seq_view(old(st).bps@) == Seq::<BlueprintV>::empty(),
    ensures
        (blueprint_seq_view(final(st).bps@), stash_view(final(st).error)) == scan_preds(
            (Seq::<BlueprintV>::empty(), Seq::<(Span, Seq<char>)>::empty()),
            clause_preds_view(expr.clause),
            registry_view(*registry),
        ),
        final(st).types == old(st).types,
        final(st).preds == old(st).preds,
{
    let ghost reg = registry_view(*registry);
    let preds: &Vec<WherePred> = match &expr.clause {
        Some(cl) => &cl.predicates,
        None => {
            proof {
                assert(clause_preds_view(expr.clause) =~= Seq::<WherePredV>::empty());
            }
            return ;
        },
    };
    let ghost psv = pred_seq_view(preds@);
    proof {
        assert(psv == clause_preds_view(expr.clause));
    }
    let mut i: usize = 0;
    proof {
        assert(psv.subrange(0, 0) =~= Seq::<WherePredV>::empty());
    }
    while i < preds.len()
        invariant
            i <= preds@.len(),
            reg == registry_view(*registry),
            psv == pred_seq_view(preds@),
            st.types == old(st).types,
            st.preds == old(st).preds,
            (blueprint_seq_view(st.bps@), stash_view(st.error)) == scan_preds(
                (Seq::<BlueprintV>::empty(), Seq::<(Span, Seq<char>)>::empty()),
                psv.subrange(0, i as int),
                reg,
            ),
        decreases preds@.len() - i,
    {
        let ghost outer_pre = (blueprint_seq_view(st.bps@), stash_view(st.error));
        proof {
            assert(psv[i as int] == crate::model::where_pred_view(preds@[i as int]));
        }
        match &preds[i] {
            WherePred::Lifetime { .. } => {
            },
            WherePred::Type { bounded_ty, bounds, .. } => {
                let ghost bsv = bound_seq_view(bounds@);
                let mut j: usize = 0;
                proof {
                    assert(bsv.subrange(0, 0) =~= Seq::<BoundV>::empty());
                    assert(scan_bounds(outer_pre, bounded_ty@, bsv.subrange(0, 0), reg)
                        == outer_pre);
                }
                while j < bounds.len()
                    invariant
                        j <= bounds@.len(),
                        reg == registry_view(*registry),
                        bsv == bound_seq_view(bounds@),
                        st.types == old(st).types,
                        st.preds == old(st).preds,
                        (blueprint_seq_view(st.bps@), stash_view(st.error)) == scan_bounds(
                            outer_pre,
                            bounded_ty@,
                            bsv.subrange(0, j as int),
                            reg,
                        ),
                    decreases bounds@.len() - j,
                {
                    let ghost pre = (blueprint_seq_view(st.bps@), stash_view(st.error));
                    proof {
                        assert(bsv[j as int] == crate::model::bound_view(bounds@[j as int]));
                        assert(bsv.subrange(0, j + 1int).drop_last() =~= bsv.subrange(0, j as int));
                        assert(bsv.subrange(0, j + 1int).last() == bsv[j as int]);
                    }
                    match &bounds[j] {
                        Bound::Lifetime { span, .. } => {
                            st.error.extend(*span, text_of("Lifetime bounds are not permitted."));
                        },
                        Bound::Trait(tb) => {
                            match tb.modifier {
                                BoundModifier::Maybe => {
                                    st.error.extend(
                                        tb.span,
                                        text_of("Maybe-bounds are not permitted."),
                                    );
                                },
                                BoundModifier::Plain => {
                                },
                                BoundModifier::Dispatch => {
                                    match registry.lookup(&tb.name) {
                                        Some(td) => {
                                            let bp = Blueprint {
                                                key: copy_text(bounded_ty),
                                                bound: crate::model::copy_trait_bound(tb),
                                                tdef: crate::model::copy_trait_def(td),
                                                arms: Vec::new(),
                                            };
                                            proof {
                                                assert(crate::dispatch::sig_seq_view(bp.arms@)
                                                    =~= Seq::<VariantSigV>::empty());
                                            }
                                            st.bps.push(bp);
                                            proof {
                                                assert(blueprint_seq_view(st.bps@)
                                                    =~= pre.0.push(
                                                    blueprint_view(st.bps@.last()),
                                                ));
                                            }
                                        },
                                        None => {
                                        },
                                    }
                                },
                            }
                        },
                    }
                    j = j + 1;
                }
                proof {
                    assert(bsv.subrange(0, bsv.len() as int) =~= bsv);
                }
            },
        }
        proof {
            assert(psv.subrange(0, i + 1int).drop_last() =~= psv.subrange(0, i as int));
            assert(psv.subrange(0, i + 1int).last() == psv[i as int]);
        }
        i = i + 1;
    }
    proof {
        assert(psv.subrange(0, psv.len() as int) =~= psv);
    }
}

// ------------------------------------------------------------------
// The public pipeline
// ------------------------------------------------------------------
/// The expression after the where-clause merge: the collected
/// synthetic predicates appended to the clause, which exists
/// afterwards even if it was absent.
pub open spec fn merged_expr(e: PenumExprV, preds: Seq<WherePredV>) -> PenumExprV {
    PenumExprV { pattern: e.pattern, clause_preds: e.clause_preds + preds, has_clause: true }
}

impl Penum<Unassembled> {
    /// A fresh engine over an expression and a subject.
    pub fn new(expr: PenumExpr, subject: Subject) -> (r: Penum<Unassembled>)
        ensures
            expr_view(r.expr) == expr_view(expr),
            subject_view(r.subject) == subject_view(subject),
            stash_view(r.error) == Seq::<(Span, Seq<char>)>::empty(),
            poly_view(r.types) == Seq::<(Seq<char>, Seq<Seq<char>>)>::empty(),
            r.impls.deep_view() == Seq::<Seq<char>>::empty(),
    {
        let r = Penum {
            expr,
            subject,
            error: ErrorStash::new(),
            types: PolymorphicMap::new(),
            impls: Vec::new(),
            marker: PhantomData,
        };
        proof {
            assert(r.impls.deep_view() =~= Seq::<Seq<char>>::empty());
        }
        r
    }

    /// Merges the collected synthetic predicates into the expression's
    /// where-clause, creating the clause if it was absent.
    pub fn update_where_clause(expr: PenumExpr, preds: Vec<WherePred>) -> (r: PenumExpr)
        ensures
            expr_view(r) == merged_expr(expr_view(expr), pred_seq_view(preds@)),
    {
        let ghost e0 = expr_view(expr);
        let ghost addv = pred_seq_view(preds@);
        let PenumExpr { pattern, clause } = expr;
        let mut cp: Vec<WherePred> = match clause {
            Some(c) => c.predicates,
            None => Vec::new(),
        };
        proof {
            assert(pred_seq_view(cp@) + addv =~= e0.clause_preds + addv);
        }
        let mut rest = preds;
        while rest.len() > 0
            invariant
                pred_seq_view(cp@) + pred_seq_view(rest@) == e0.clause_preds + addv,
            decreases rest@.len(),
        {
            let ghost cpv = pred_seq_view(cp@);
            let ghost rv = pred_seq_view(rest@);
            let p = rest.remove(0);
            cp.push(p);
            proof {
                assert(pred_seq_view(rest@) =~= rv.drop_first());
                assert(pred_seq_view(cp@) =~= cpv.push(rv[0]));
                assert(pred_seq_view(cp@) + pred_seq_view(rest@) =~= cpv + rv);
            }
        }
        let r = PenumExpr { pattern, clause: Some(Clause { predicates: cp }) };
        proof {
            assert(pred_seq_view(rest@) =~= Seq::<WherePredV>::empty());
            assert(pred_seq_view(cp@) + pred_seq_view(rest@) =~= pred_seq_view(cp@));
            assert(expr_view(r) == merged_expr(e0, addv));
        }
        r
    }

    /// The assembly pass: validates every variant against the pattern
    /// set, unifies the positions, plans the dispatch blueprints,
    /// renders their implementation blocks, and merges the collected
    /// predicates — exactly as `assemble_spec` says.
    pub fn assemble(self, registry: &TraitRegistry) -> (r: Penum<Assembled>)
        requires
            stash_view(self.error) == Seq::<(Span, Seq<char>)>::empty(),
            poly_view(self.types) == Seq::<(Seq<char>, Seq<Seq<char>>)>::empty(),
            self.impls.deep_view() == Seq::<Seq<char>>::empty(),
        ensures
            ({
                let st = assemble_spec(
                    subject_view(self.subject),
                    expr_view(self.expr),
                    registry_view(*registry),
                );
                &&& subject_view(r.subject) == subject_view(self.subject)
                &&& stash_view(r.error) == st.errors
                &&& poly_view(r.types) == st.poly
                &&& r.impls.deep_view() == (if subject_view(self.subject).variants.len() == 0 {
                    Seq::<Seq<char>>::empty()
                } else {
                    render_impls(st.bps, subject_view(self.subject))
                })
                &&& expr_view(r.expr) == (if subject_view(self.subject).variants.len() == 0 {
                    expr_view(self.expr)
                } else {
                    merged_expr(expr_view(self.expr), st.preds)
                })
            }),
    {
        let ghost sv = subject_view(self.subject);
        let ghost ev = expr_view(self.expr);
        let ghost reg = registry_view(*registry);
        let Penum { expr, subject, error, types, impls, marker: _ } = self;
        if subject.variants.len() == 0 {
            let mut error = error;
            error.extend(subject.ident_span, text_of("Expected to find at least one variant."));
            proof {
                assert(stash_view(error) =~= seq![(sv.ident_span, msg_empty())]);
            }
            return Penum { expr, subject, error, types, impls, marker: PhantomData };
        }
        let fmt = pattern_set_text(&expr.pattern);
        let mut st = EngineState { error, types, bps: Vec::new(), preds: Vec::new() };
        proof {
            assert(blueprint_seq_view(st.bps@) =~= Seq::<BlueprintV>::empty());
            assert(pred_seq_view(st.preds@) =~= Seq::<WherePredV>::empty());
        }
        scan_blueprints_exec(&expr, registry, &mut st);
        proof {
            let scanned = scan_preds(
                (Seq::<BlueprintV>::empty(), Seq::<(Span, Seq<char>)>::empty()),
                ev.clause_preds,
                reg,
            );
            assert(eng_view(st) == EngV {
                errors: scanned.1,
                poly: Seq::empty(),
                bps: scanned.0,
                preds: Seq::empty(),
            });
        }
        walk_all_exec(&mut st, &subject.ident, &expr.pattern, &fmt, &subject.variants);
        proof {
            assert(eng_view(st) == assemble_spec(sv, ev, reg));
        }
        let impls2 = impls_text(&st.bps, &subject);
        let EngineState { error, types, preds, bps: _ } = st;
        let expr2 = Penum::<Unassembled>::update_where_clause(expr, preds);
        Penum { expr: expr2, subject, error, types, impls: impls2, marker: PhantomData }
    }
}

impl Penum<Assembled> {
    /// The bound propagation of the emission step, as `propagate`
    /// says: every concrete id unified with a bounded type gains the
    /// predicate's bounds in the subject's where-clause; lifetime
    /// predicates are rejected.
    pub fn attach_assertions(self) -> (r: (Subject, Vec<Vec<char>>, ErrorStash))
        ensures
            ({
                let prop = propagate(
                    (subject_view(self.subject).where_preds, stash_view(self.error)),
                    clause_preds_view(self.expr.clause),
                    poly_view(self.types),
                );
                &&& subject_view(r.0) == SubjectV {
                    where_preds: prop.0,
                    ..subject_view(self.subject)
                }
                &&& r.1.deep_view() == self.impls.deep_view()
                &&& stash_view(r.2) == prop.1
            }),
    {
        let ghost sv = subject_view(self.subject);
        let ghost poly0 = poly_view(self.types);
        let ghost errs0 = stash_view(self.error);
        let Penum { expr, subject, error, types, impls, marker: _ } = self;
        let mut subject = subject;
        let mut error = error;
        let preds: &Vec<WherePred> = match &expr.clause {
            Some(cl) => &cl.predicates,
            None => {
                proof {
                    assert(clause_preds_view(expr.clause) =~= Seq::<WherePredV>::empty());
                    assert(subject_view(subject) == SubjectV { where_preds: sv.where_preds, ..sv });
                }
                return (subject, impls, error);
            },
        };
        let ghost psv = pred_seq_view(preds@);
        proof {
            assert(psv == clause_preds_view(expr.clause));
            assert(psv.subrange(0, 0) =~= Seq::<WherePredV>::empty());
        }
        let mut i: usize = 0;
        while i < preds.len()
            invariant
                i <= preds@.len(),
                psv == pred_seq_view(preds@),
                poly0 == poly_view(types),
                sv.ident == subject.ident@,
                sv.ident_span == subject.ident_span,
                sv.generics == subject.generics@,
                sv.variants == crate::model::variant_seq_view(subject.variants@),
                (subject.where_preds.deep_view(), stash_view(error)) == propagate(
                    (sv.where_preds, errs0),
                    psv.subrange(0, i as int),
                    poly0,
                ),
            decreases preds@.len() - i,
        {
            let ghost pre = (subject.where_preds.deep_view(), stash_view(error));
            proof {
                assert(psv[i as int] == crate::model::where_pred_view(preds@[i as int]));
                assert(psv.subrange(0, i + 1int).drop_last() =~= psv.subrange(0, i as int));
                assert(psv.subrange(0, i + 1int).last() == psv[i as int]);
            }
            match &preds[i] {
                WherePred::Lifetime { span } => {
                    error.extend(*span, text_of("lifetime predicates are unsupported"));
                },
                WherePred::Type { bounded_ty, bounds, .. } => {
                    match types.get(bounded_ty) {
                        None => {
                        },
                        Some(vals) => {
                            let btext = crate::emit::bounds_list_text(bounds);
                            let ghost bsv = bound_seq_view(bounds@);
                            let ghost vdv = vals.deep_view();
                            let ghost mapped = vdv.map(
                                |k: int, val: Seq<char>| val + ": "@ + render_bounds_list(bsv),
                            );
                            let mut j: usize = 0;
                            proof {
                                assert(subject.where_preds.deep_view() =~= pre.0 + mapped.subrange(
                                    0,
                                    0,
                                ));
                            }
                            while j < vals.len()
                                invariant
                                    j <= vals@.len(),
                                    vdv == vals.deep_view(),
                                    bsv == bound_seq_view(bounds@),
                                    btext@ == render_bounds_list(bsv),
                                    mapped == vdv.map(
                                        |k: int, val: Seq<char>|
                                            val + ": "@ + render_bounds_list(bsv),
                                    ),
                                    stash_view(error) == pre.1,
                                    sv.ident == subject.ident@,
                                    sv.ident_span == subject.ident_span,
                                    sv.generics == subject.generics@,
                                    sv.variants == crate::model::variant_seq_view(
                                        subject.variants@,
                                    ),
                                    subject.where_preds.deep_view() == pre.0 + mapped.subrange(
                                        0,
                                        j as int,
                                    ),
                                decreases vals@.len() - j,
                            {
                                let mut line = copy_text(&vals[j]);
                                crate::emit::app_str(&mut line, ": ");
                                crate::emit::app_text(&mut line, &btext);
                                let ghost wp0 = subject.where_preds.deep_view();
                                let ghost linev = line@;
                                proof {
                                    assert(vdv[j as int] == vals@[j as int]@);
                                    assert(linev == mapped[j as int]);
                                }
                                subject.where_preds.push(line);
                                proof {
                                    assert(subject.where_preds.deep_view() =~= wp0.push(linev));
                                    assert(wp0.push(linev) =~= pre.0 + mapped.subrange(
                                        0,
                                        j + 1int,
                                    ));
                                    assert(subject.where_preds.deep_view() == pre.0
                                        + mapped.subrange(0, j + 1int));
                                }
                                j = j + 1;
                            }
                            proof {
                                assert(mapped.subrange(0, mapped.len() as int) =~= mapped);
                                assert(poly_get(poly0, bounded_ty@) == Some(vdv));
                            }
                        },
                    }
                },
            }
            proof {
                match psv[i as int] {
                    WherePredV::Type { bounded_ty: bt, bounds: bs, .. } => {
                        match poly_get(poly0, bt) {
                            Some(vals_spec) => {
                                assert(subject.where_preds.deep_view() =~= pre.0 + vals_spec.map(
                                    |k: int, val: Seq<char>| val + ": "@ + render_bounds_list(bs),
                                ));
                            },
                            None => {
                            },
                        }
                    },
                    WherePredV::Lifetime { .. } => {
                    },
                }
                assert((subject.where_preds.deep_view(), stash_view(error)) == propagate(
                    (sv.where_preds, errs0),
                    psv.subrange(0, i + 1int),
                    poly0,
                ));
            }
            i = i + 1;
        }
        proof {
            assert(psv.subrange(0, psv.len() as int) =~= psv);
            assert(subject_view(subject) == SubjectV {
                where_preds: subject.where_preds.deep_view(),
                ..sv
            });
        }
        (subject, impls, error)
    }

    /// The final token text: the accumulated diagnostics if any were
    /// raised, else the enriched declaration followed by the
    /// synthesized implementation blocks.
    pub fn get_tokenstream(self) -> (r: Vec<char>)
        ensures
            ({
                let prop = propagate(
                    (subject_view(self.subject).where_preds, stash_view(self.error)),
                    clause_preds_view(self.expr.clause),
                    poly_view(self.types),
                );
                r@ == if prop.1.len() > 0 {
                    render_msgs(prop.1)
                } else {
                    render_output(
                        render_subject(
                            SubjectV { where_preds: prop.0, ..subject_view(self.subject) },
                        ),
                        self.impls.deep_view(),
                    )
                }
            }),
    {
        let ghost iv = self.impls.deep_view();
        let (subject, impls, error) = self.attach_assertions();
        if error.has_error() {
            let r = msgs_text(&error.diags);
            proof {
                assert(stash_view(error) == error.diags@.map(
                    |i: int, d: Diag| crate::error::diag_view(d),
                ));
            }
            r
        } else {
            let s = subject_text(&subject);
            let r = output_text(&s, &impls);
            proof {
                assert(impls.deep_view() == iv);
            }
            r
        }
    }

    /// Like `get_tokenstream`: diagnostics win over output.
    pub fn unwrap_or_error(self) -> (r: Vec<char>)
        ensures
            ({
                let prop = propagate(
                    (subject_view(self.subject).where_preds, stash_view(self.error)),
                    clause_preds_view(self.expr.clause),
                    poly_view(self.types),
                );
                r@ == if prop.1.len() > 0 {
                    render_msgs(prop.1)
                } else {
                    render_output(
                        render_subject(
                            SubjectV { where_preds: prop.0, ..subject_view(self.subject) },
                        ),
                        self.impls.deep_view(),
                    )
                }
            }),
    {
        self.get_tokenstream()
    }
}


/// The whole pipeline over parsed inputs: assembles the engine,
/// propagates the bounds, and emits either the combined diagnostics
/// or the enriched declaration with its implementation blocks.
pub fn expand(expr: PenumExpr, subject: Subject, registry: &TraitRegistry) -> (r: Vec<char>)
    ensures
        ({
            let sv = subject_view(subject);
            let ev = expr_view(expr);
            let st = assemble_spec(sv, ev, registry_view(*registry));
            let cl = if sv.variants.len() == 0 {
                ev.clause_preds
            } else {
                ev.clause_preds + st.preds
            };
            let impls = if sv.variants.len() == 0 {
                Seq::<Seq<char>>::empty()
            } else {
                render_impls(st.bps, sv)
            };
            let prop = propagate((sv.where_preds, st.errors), cl, st.poly);
            r@ == if prop.1.len() > 0 {
                render_msgs(prop.1)
            } else {
                render_output(
                    render_subject(SubjectV { where_preds: prop.0, ..sv }),
                    impls,
                )
            }
        }),
{
    let assembled = Penum::new(expr, subject).assemble(registry);
    assembled.get_tokenstream()
}

} // verus!
