//! Laws of the engine, proved over the assembly fold `assemble_spec`:
//! shape soundness, type soundness, polymorphic-map coverage, dispatch
//! coverage, re-validation stability, and the totality of the
//! diagnostics.

use vstd::prelude::*;

use crate::comparable::lemma_select_pattern_props;
use crate::comparable::select_pattern;
use crate::comparable::shape_compatible;
use crate::dispatch::BlueprintV;
use crate::error::Span;
use crate::model::FieldV;
use crate::model::PatFieldKindV;
use crate::model::PatFragV;
use crate::model::PatTyV;
use crate::model::PenumExprV;
use crate::model::SubjectV;
use crate::model::TraitDefV;
use crate::model::VariantV;
use crate::model::WherePredV;
use crate::model::fields_list;
use crate::model::pat_params;
use crate::penum::EngV;
use crate::penum::assemble_spec;
use crate::penum::propagate;
use crate::penum::scan_preds;
use crate::penum::step_field;
use crate::penum::walk_fields;
use crate::penum::walk_infer;
use crate::penum::walk_variant;
use crate::penum::walk_variants;

verus! {

// ------------------------------------------------------------------
// Diagnostics only accumulate
// ------------------------------------------------------------------
pub proof fn lemma_step_field_errors(
    st: EngV,
    e_ident: Seq<char>,
    v: VariantV,
    p: PatFieldKindV,
    f: FieldV,
    idx: int,
    arity: int,
)
    ensures
        step_field(st, e_ident, v, p, f, idx, arity).errors.len() >= st.errors.len(),
{
}

pub proof fn lemma_walk_fields_errors(
    st: EngV,
    e_ident: Seq<char>,
    v: VariantV,
    params: Seq<PatFieldKindV>,
    fields: Seq<FieldV>,
    k: int,
    arity: int,
)
    requires
        0 <= k,
    ensures
        walk_fields(st, e_ident, v, params, fields, k, arity).errors.len() >= st.errors.len(),
    decreases params.len() - k,
{
    if k < params.len() && k < fields.len() {
        match params[k] {
            PatFieldKindV::Field { .. } => {
                let st1 = step_field(st, e_ident, v, params[k], fields[k], k, arity);
                lemma_step_field_errors(st, e_ident, v, params[k], fields[k], k, arity);
                lemma_walk_fields_errors(st1, e_ident, v, params, fields, k + 1, arity);
            },
            _ => {
            },
        }
    }
}

pub proof fn lemma_walk_infer_errors(
    st: EngV,
    e_ident: Seq<char>,
    v: VariantV,
    fields: Seq<FieldV>,
    k: int,
)
    requires
        0 <= k,
    ensures
        walk_infer(st, e_ident, v, fields, k).errors == st.errors,
    decreases fields.len() - k,
{
    if k < fields.len() {
        let f = fields[k];
        let sig = crate::penum::sig_of(e_ident, v, f, k, fields.len() as int);
        let st1 = EngV {
            bps: crate::dispatch::attach_sigs(st.bps, f.ty, sig),
            poly: crate::polym::poly_insert(st.poly, f.ty, f.ty),
            ..st
        };
        lemma_walk_infer_errors(st1, e_ident, v, fields, k + 1);
    }
}

pub proof fn lemma_walk_variant_errors(
    st: EngV,
    e_ident: Seq<char>,
    pats: Seq<PatFragV>,
    fmt: Seq<char>,
    v: VariantV,
)
    ensures
        walk_variant(st, e_ident, pats, fmt, v).errors.len() >= st.errors.len(),
        select_pattern(pats, v.fields) < 0 ==> walk_variant(st, e_ident, pats, fmt, v).errors.len()
            > st.errors.len(),
{
    let sel = select_pattern(pats, v.fields);
    if sel >= 0 {
        match pats[sel].group {
            crate::model::PatCompositeV::Unit => {
            },
            crate::model::PatCompositeV::Inferred => {
                lemma_walk_infer_errors(st, e_ident, v, fields_list(v.fields), 0);
            },
            crate::model::PatCompositeV::Unnamed(ps) => {
                lemma_walk_fields_errors(
                    st,
                    e_ident,
                    v,
                    ps,
                    fields_list(v.fields),
                    0,
                    fields_list(v.fields).len() as int,
                );
            },
            crate::model::PatCompositeV::Named(ps) => {
                lemma_walk_fields_errors(
                    st,
                    e_ident,
                    v,
                    ps,
                    fields_list(v.fields),
                    0,
                    fields_list(v.fields).len() as int,
                );
            },
        }
    }
}

pub proof fn lemma_walk_variants_accept(
    st: EngV,
    e_ident: Seq<char>,
    pats: Seq<PatFragV>,
    fmt: Seq<char>,
    vs: Seq<VariantV>,
    k: int,
)
    requires
        0 <= k,
        walk_variants(st, e_ident, pats, fmt, vs, k).errors.len() == 0,
    ensures
        st.errors.len() == 0,
        forall|i: int| k <= i < vs.len() ==> select_pattern(pats, vs[i].fields) >= 0,
    decreases vs.len() - k,
{
    if k < vs.len() {
        let st1 = walk_variant(st, e_ident, pats, fmt, vs[k]);
        lemma_walk_variants_accept(st1, e_ident, pats, fmt, vs, k + 1);
        lemma_walk_variant_errors(st, e_ident, pats, fmt, vs[k]);
    }
}

/// Shape soundness: when the engine accepts a subject against an
/// expression, every variant is shape-compatible with at least one
/// pattern — the one greedy selection picks.
pub proof fn theorem_shape_soundness(s: SubjectV, e: PenumExprV, reg: Seq<TraitDefV>)
    requires
        assemble_spec(s, e, reg).errors.len() == 0,
    ensures
        s.variants.len() > 0,
        forall|i: int|
            0 <= i < s.variants.len() ==> select_pattern(e.pattern, #[trigger] s.variants[i].fields)
                >= 0,
        forall|i: int|
            0 <= i < s.variants.len() ==> exists|j: int|
                0 <= j < e.pattern.len() && shape_compatible(
                    #[trigger] e.pattern[j].group,
                    (#[trigger] s.variants[i]).fields,
                ),
{
    if s.variants.len() == 0 {
        assert(assemble_spec(s, e, reg).errors.len() == 1);
    }
    let scanned = scan_preds(
        (Seq::<BlueprintV>::empty(), Seq::<(Span, Seq<char>)>::empty()),
        e.clause_preds,
        reg,
    );
    let init = EngV { errors: scanned.1, poly: Seq::empty(), bps: scanned.0, preds: Seq::empty() };
    lemma_walk_variants_accept(
        init,
        s.ident,
        e.pattern,
        crate::emit::render_pattern_set(e.pattern),
        s.variants,
        0,
    );
    assert forall|i: int| 0 <= i < s.variants.len() implies exists|j: int|
        0 <= j < e.pattern.len() && shape_compatible(
            #[trigger] e.pattern[j].group,
            (#[trigger] s.variants[i]).fields,
        ) by {
        lemma_select_pattern_props(e.pattern, s.variants[i].fields);
        let sel = select_pattern(e.pattern, s.variants[i].fields);
        assert(0 <= sel < e.pattern.len() && shape_compatible(
            e.pattern[sel].group,
            s.variants[i].fields,
        ));
    }
}


// ------------------------------------------------------------------
// Type soundness
// ------------------------------------------------------------------
/// What type soundness asserts of one zipped position: a concrete
/// (non-generic, non-wildcard) pattern type equals the field's
/// canonical id.
pub open spec fn position_type_sound(p: PatFieldKindV, f: FieldV) -> bool {
    match p {
        PatFieldKindV::Field { ty, .. } => match ty {
            PatTyV::Plain(t) => (!crate::text::is_generic_text(t) && !crate::text::is_infer_text(
                t,
            )) ==> t == f.ty,
            PatTyV::ImplTrait { .. } => true,
        },
        _ => true,
    }
}

/// Whether position `k` of a variant's walk is actually checked: the
/// selected pattern is a delimited composite, `k` is inside the zip,
/// and no variadic marker stops the walk at or before `k`.
pub open spec fn checked_position(pats: Seq<PatFragV>, v: VariantV, k: int) -> bool {
    let sel = select_pattern(pats, v.fields);
    &&& sel >= 0
    &&& (pats[sel].group is Unnamed || pats[sel].group is Named)
    &&& 0 <= k < pat_params(pats[sel].group).len()
    &&& k < fields_list(v.fields).len()
    &&& forall|j: int| 0 <= j <= k ==> pat_params(pats[sel].group)[j] is Field
}

pub proof fn lemma_walk_fields_sound(
    st: EngV,
    e_ident: Seq<char>,
    v: VariantV,
    params: Seq<PatFieldKindV>,
    fields: Seq<FieldV>,
    k0: int,
    arity: int,
)
    requires
        0 <= k0,
        walk_fields(st, e_ident, v, params, fields, k0, arity).errors.len() == 0,
    ensures
        st.errors.len() == 0,
        forall|k: int|
            k0 <= k < params.len() && k < fields.len() && (forall|j: int|
                k0 <= j <= k ==> params[j] is Field) ==> position_type_sound(
                #[trigger] params[k],
                fields[k],
            ),
    decreases params.len() - k0,
{
    if k0 < params.len() && k0 < fields.len() {
        match params[k0] {
            PatFieldKindV::Field { ty, span, name } => {
                let st1 = step_field(st, e_ident, v, params[k0], fields[k0], k0, arity);
                lemma_walk_fields_sound(st1, e_ident, v, params, fields, k0 + 1, arity);
                lemma_step_field_errors(st, e_ident, v, params[k0], fields[k0], k0, arity);
                assert(position_type_sound(params[k0], fields[k0])) by {
                    match ty {
                        PatTyV::Plain(t) => {
                            if !crate::text::is_generic_text(t) && !crate::text::is_infer_text(t)
                                && t != fields[k0].ty {
                                assert(st1.errors.len() > st.errors.len());
                            }
                        },
                        PatTyV::ImplTrait { .. } => {
                        },
                    }
                }
                assert forall|k: int|
                    k0 <= k < params.len() && k < fields.len() && (forall|j: int|
                        k0 <= j <= k ==> params[j] is Field) implies position_type_sound(
                    #[trigger] params[k],
                    fields[k],
                ) by {
                    if k > k0 {
                        assert(forall|j: int| k0 + 1 <= j <= k ==> params[j] is Field);
                    }
                }
            },
            _ => {
            },
        }
    }
}

pub proof fn lemma_walk_variant_sound(
    st: EngV,
    e_ident: Seq<char>,
    pats: Seq<PatFragV>,
    fmt: Seq<char>,
    v: VariantV,
)
    requires
        walk_variant(st, e_ident, pats, fmt, v).errors.len() == 0,
    ensures
        forall|k: int|
            #[trigger] checked_position(pats, v, k) ==> position_type_sound(
                pat_params(pats[select_pattern(pats, v.fields)].group)[k],
                fields_list(v.fields)[k],
            ),
{
    let sel = select_pattern(pats, v.fields);
    if sel >= 0 {
        match pats[sel].group {
            crate::model::PatCompositeV::Unnamed(ps) => {
                lemma_walk_fields_sound(
                    st,
                    e_ident,
                    v,
                    ps,
                    fields_list(v.fields),
                    0,
                    fields_list(v.fields).len() as int,
                );
            },
            crate::model::PatCompositeV::Named(ps) => {
                lemma_walk_fields_sound(
                    st,
                    e_ident,
                    v,
                    ps,
                    fields_list(v.fields),
                    0,
                    fields_list(v.fields).len() as int,
                );
            },
            _ => {
            },
        }
    }
}

pub proof fn lemma_walk_variants_sound(
    st: EngV,
    e_ident: Seq<char>,
    pats: Seq<PatFragV>,
    fmt: Seq<char>,
    vs: Seq<VariantV>,
    k: int,
)
    requires
        0 <= k,
        walk_variants(st, e_ident, pats, fmt, vs, k).errors.len() == 0,
    ensures
        forall|i: int, p: int|
            k <= i < vs.len() && #[trigger] checked_position(pats, vs[i], p)
                ==> position_type_sound(
                pat_params(pats[select_pattern(pats, vs[i].fields)].group)[p],
                fields_list(vs[i].fields)[p],
            ),
    decreases vs.len() - k,
{
    if k < vs.len() {
        let st1 = walk_variant(st, e_ident, pats, fmt, vs[k]);
        lemma_walk_variants_sound(st1, e_ident, pats, fmt, vs, k + 1);
        lemma_walk_variants_accept(st1, e_ident, pats, fmt, vs, k + 1);
        lemma_walk_variant_sound(st, e_ident, pats, fmt, vs[k]);
    }
}

/// Type soundness: when the engine accepts, then at every checked
/// position whose pattern type is concrete, the variant's field type
/// canonicalises to exactly that pattern type.
pub proof fn theorem_type_soundness(s: SubjectV, e: PenumExprV, reg: Seq<TraitDefV>)
    requires
        assemble_spec(s, e, reg).errors.len() == 0,
    ensures
        forall|i: int, p: int|
            0 <= i < s.variants.len() && #[trigger] checked_position(e.pattern, s.variants[i], p)
                ==> position_type_sound(
                pat_params(e.pattern[select_pattern(e.pattern, s.variants[i].fields)].group)[p],
                fields_list(s.variants[i].fields)[p],
            ),
{
    if s.variants.len() == 0 {
        assert(assemble_spec(s, e, reg).errors.len() == 1);
    }
    let scanned = scan_preds(
        (Seq::<BlueprintV>::empty(), Seq::<(Span, Seq<char>)>::empty()),
        e.clause_preds,
        reg,
    );
    let init = EngV { errors: scanned.1, poly: Seq::empty(), bps: scanned.0, preds: Seq::empty() };
    lemma_walk_variants_sound(
        init,
        s.ident,
        e.pattern,
        crate::emit::render_pattern_set(e.pattern),
        s.variants,
        0,
    );
}


// ------------------------------------------------------------------
// Polymorphic-map coverage
// ------------------------------------------------------------------
use crate::polym::find_key;
use crate::polym::poly_get;
use crate::polym::poly_insert;

/// Whether the map binds `v` under `k`.
pub open spec fn poly_contains(
    m: Seq<(Seq<char>, Seq<Seq<char>>)>,
    k: Seq<char>,
    v: Seq<char>,
) -> bool {
    match poly_get(m, k) {
        Some(vs) => vs.contains(v),
        None => false,
    }
}

pub proof fn lemma_find_key_push(
    m: Seq<(Seq<char>, Seq<Seq<char>>)>,
    k: Seq<char>,
    e: (Seq<char>, Seq<Seq<char>>),
)
    ensures
        find_key(m.push(e), k) == if find_key(m, k) >= 0 {
            find_key(m, k)
        } else if e.0 == k {
            m.len() as int
        } else {
            -1
        },
        find_key(m, k) >= 0 ==> m.push(e)[find_key(m, k)] == m[find_key(m, k)],
    decreases m.len(),
{
    crate::polym::lemma_find_key_props(m, k);
    let mp = m.push(e);
    if m.len() == 0 {
        assert(mp[0] == e);
        assert(mp.drop_first() =~= Seq::<(Seq<char>, Seq<Seq<char>>)>::empty());
        if e.0 == k {
            assert(find_key(mp, k) == 0);
        } else {
            assert(find_key(mp.drop_first(), k) == -1);
            assert(find_key(mp, k) == -1);
        }
    } else {
        assert(mp[0] == m[0]);
        if m[0].0 == k {
            assert(find_key(m, k) == 0);
            assert(find_key(mp, k) == 0);
        } else {
            assert(mp.drop_first() =~= m.drop_first().push(e));
            lemma_find_key_push(m.drop_first(), k, e);
            let rd = find_key(m.drop_first(), k);
            if rd >= 0 {
                assert(find_key(m, k) == rd + 1);
                assert(find_key(mp.drop_first(), k) == rd);
                assert(find_key(mp, k) == rd + 1);
                crate::polym::lemma_find_key_props(m.drop_first(), k);
                assert(mp[rd + 1] == m[rd + 1]);
            } else if e.0 == k {
                assert(find_key(mp.drop_first(), k) == m.drop_first().len());
                assert(find_key(mp, k) == m.len());
            } else {
                assert(find_key(mp.drop_first(), k) == -1);
                assert(find_key(mp, k) == -1);
            }
        }
    }
}

pub proof fn lemma_find_key_same_keys(
    m1: Seq<(Seq<char>, Seq<Seq<char>>)>,
    m2: Seq<(Seq<char>, Seq<Seq<char>>)>,
    k: Seq<char>,
)
    requires
        m1.len() == m2.len(),
        forall|j: int| 0 <= j < m1.len() ==> m1[j].0 == m2[j].0,
    ensures
        find_key(m1, k) == find_key(m2, k),
    decreases m1.len(),
{
    if m1.len() > 0 {
        assert(m1.drop_first().len() == m2.drop_first().len());
        assert(forall|j: int|
            0 <= j < m1.drop_first().len() ==> m1.drop_first()[j].0 == m2.drop_first()[j].0);
        lemma_find_key_same_keys(m1.drop_first(), m2.drop_first(), k);
    }
}

pub proof fn lemma_poly_insert_contains(
    m: Seq<(Seq<char>, Seq<Seq<char>>)>,
    k: Seq<char>,
    v: Seq<char>,
)
    ensures
        poly_contains(poly_insert(m, k, v), k, v),
{
    crate::polym::lemma_find_key_props(m, k);
    let i = find_key(m, k);
    if i < 0 {
        lemma_find_key_push(m, k, (k, seq![v]));
        let m2 = m.push((k, seq![v]));
        assert(find_key(m2, k) == m.len());
        assert(m2[m.len() as int] == (k, seq![v]));
        assert(seq![v][0] == v);
        assert(seq![v].contains(v));
    } else if m[i].1.contains(v) {
    } else {
        let m2 = m.update(i, (m[i].0, m[i].1.push(v)));
        lemma_find_key_same_keys(m, m2, k);
        assert(m2[i].1 == m[i].1.push(v));
        assert(m[i].1.push(v)[m[i].1.len() as int] == v);
        assert(m[i].1.push(v).contains(v));
    }
}

pub proof fn lemma_poly_insert_preserves(
    m: Seq<(Seq<char>, Seq<Seq<char>>)>,
    k0: Seq<char>,
    v0: Seq<char>,
    k: Seq<char>,
    v: Seq<char>,
)
    requires
        poly_contains(m, k0, v0),
    ensures
        poly_contains(poly_insert(m, k, v), k0, v0),
{
    crate::polym::lemma_find_key_props(m, k);
    crate::polym::lemma_find_key_props(m, k0);
    let i = find_key(m, k);
    let i0 = find_key(m, k0);
    if i < 0 {
        lemma_find_key_push(m, k0, (k, seq![v]));
        let m2 = m.push((k, seq![v]));
        assert(find_key(m2, k0) == i0);
        assert(m2[i0] == m[i0]);
    } else if m[i].1.contains(v) {
    } else {
        let m2 = m.update(i, (m[i].0, m[i].1.push(v)));
        lemma_find_key_same_keys(m, m2, k0);
        if i0 == i {
            let ws = m[i].1;
            let wit = choose|w: int| 0 <= w < ws.len() && ws[w] == v0;
            assert(ws.push(v)[wit] == v0);
            assert(m2[i0].1.contains(v0));
        } else {
            assert(m2[i0] == m[i0]);
        }
    }
}

pub proof fn lemma_step_field_poly_preserves(
    st: EngV,
    e_ident: Seq<char>,
    v: VariantV,
    p: PatFieldKindV,
    f: FieldV,
    idx: int,
    arity: int,
    k0: Seq<char>,
    v0: Seq<char>,
)
    requires
        poly_contains(st.poly, k0, v0),
    ensures
        poly_contains(step_field(st, e_ident, v, p, f, idx, arity).poly, k0, v0),
{
    match p {
        PatFieldKindV::Field { ty, .. } => {
            match ty {
                PatTyV::ImplTrait { bounds, .. } => {
                    let st1 = EngV {
                        errors: st.errors + crate::penum::impl_errs_of(bounds),
                        ..st
                    };
                    let istr = crate::penum::impl_string_of(bounds);
                    if !(st1.errors.len() > 0 || istr.len() == 0) {
                        let id = crate::penum::synth_impl_id(istr, v.ident);
                        lemma_poly_insert_preserves(st.poly, k0, v0, id, f.ty);
                    }
                },
                PatTyV::Plain(t) => {
                    if crate::text::is_infer_text(t) {
                        lemma_poly_insert_preserves(st.poly, k0, v0, f.ty, f.ty);
                    } else if crate::text::is_generic_text(t) && t == f.ty {
                        lemma_poly_insert_preserves(st.poly, k0, v0, t, f.ty);
                    } else if crate::text::is_generic_text(t) {
                        lemma_poly_insert_preserves(st.poly, k0, v0, t, f.ty);
                        lemma_poly_insert_preserves(
                            poly_insert(st.poly, t, f.ty),
                            k0,
                            v0,
                            f.ty,
                            f.ty,
                        );
                    } else if t == f.ty {
                        lemma_poly_insert_preserves(st.poly, k0, v0, t, f.ty);
                    }
                },
            }
        },
        _ => {
        },
    }
}

pub proof fn lemma_walk_fields_poly_preserves(
    st: EngV,
    e_ident: Seq<char>,
    v: VariantV,
    params: Seq<PatFieldKindV>,
    fields: Seq<FieldV>,
    k: int,
    arity: int,
    k0: Seq<char>,
    v0: Seq<char>,
)
    requires
        0 <= k,
        poly_contains(st.poly, k0, v0),
    ensures
        poly_contains(walk_fields(st, e_ident, v, params, fields, k, arity).poly, k0, v0),
    decreases params.len() - k,
{
    if k < params.len() && k < fields.len() {
        match params[k] {
            PatFieldKindV::Field { .. } => {
                let st1 = step_field(st, e_ident, v, params[k], fields[k], k, arity);
                lemma_step_field_poly_preserves(
                    st,
                    e_ident,
                    v,
                    params[k],
                    fields[k],
                    k,
                    arity,
                    k0,
                    v0,
                );
                lemma_walk_fields_poly_preserves(
                    st1,
                    e_ident,
                    v,
                    params,
                    fields,
                    k + 1,
                    arity,
                    k0,
                    v0,
                );
            },
            _ => {
            },
        }
    }
}

pub proof fn lemma_walk_infer_poly_preserves(
    st: EngV,
    e_ident: Seq<char>,
    v: VariantV,
    fields: Seq<FieldV>,
    k: int,
    k0: Seq<char>,
    v0: Seq<char>,
)
    requires
        0 <= k,
        poly_contains(st.poly, k0, v0),
    ensures
        poly_contains(walk_infer(st, e_ident, v, fields, k).poly, k0, v0),
    decreases fields.len() - k,
{
    if k < fields.len() {
        let f = fields[k];
        let sig = crate::penum::sig_of(e_ident, v, f, k, fields.len() as int);
        let st1 = EngV {
            bps: crate::dispatch::attach_sigs(st.bps, f.ty, sig),
            poly: poly_insert(st.poly, f.ty, f.ty),
            ..st
        };
        lemma_poly_insert_preserves(st.poly, k0, v0, f.ty, f.ty);
        lemma_walk_infer_poly_preserves(st1, e_ident, v, fields, k + 1, k0, v0);
    }
}

pub proof fn lemma_walk_variant_poly_preserves(
    st: EngV,
    e_ident: Seq<char>,
    pats: Seq<PatFragV>,
    fmt: Seq<char>,
    v: VariantV,
    k0: Seq<char>,
    v0: Seq<char>,
)
    requires
        poly_contains(st.poly, k0, v0),
    ensures
        poly_contains(walk_variant(st, e_ident, pats, fmt, v).poly, k0, v0),
{
    let sel = select_pattern(pats, v.fields);
    if sel >= 0 {
        match pats[sel].group {
            crate::model::PatCompositeV::Unit => {
            },
            crate::model::PatCompositeV::Inferred => {
                lemma_walk_infer_poly_preserves(
                    st,
                    e_ident,
                    v,
                    fields_list(v.fields),
                    0,
                    k0,
                    v0,
                );
            },
            crate::model::PatCompositeV::Unnamed(ps) => {
                lemma_walk_fields_poly_preserves(
                    st,
                    e_ident,
                    v,
                    ps,
                    fields_list(v.fields),
                    0,
                    fields_list(v.fields).len() as int,
                    k0,
                    v0,
                );
            },
            crate::model::PatCompositeV::Named(ps) => {
                lemma_walk_fields_poly_preserves(
                    st,
                    e_ident,
                    v,
                    ps,
                    fields_list(v.fields),
                    0,
                    fields_list(v.fields).len() as int,
                    k0,
                    v0,
                );
            },
        }
    }
}

pub proof fn lemma_walk_variants_poly_preserves(
    st: EngV,
    e_ident: Seq<char>,
    pats: Seq<PatFragV>,
    fmt: Seq<char>,
    vs: Seq<VariantV>,
    k: int,
    k0: Seq<char>,
    v0: Seq<char>,
)
    requires
        0 <= k,
        poly_contains(st.poly, k0, v0),
    ensures
        poly_contains(walk_variants(st, e_ident, pats, fmt, vs, k).poly, k0, v0),
    decreases vs.len() - k,
{
    if k < vs.len() {
        let st1 = walk_variant(st, e_ident, pats, fmt, vs[k]);
        lemma_walk_variant_poly_preserves(st, e_ident, pats, fmt, vs[k], k0, v0);
        lemma_walk_variants_poly_preserves(st1, e_ident, pats, fmt, vs, k + 1, k0, v0);
    }
}

/// The binding a walked position records in the polymorphic map: a
/// wildcard or an inferred composite binds the field's id to itself, a
/// pattern variable binds its own id to the field's id.  `None` at
/// positions that bind no pattern variable.
pub open spec fn binding_at(pats: Seq<PatFragV>, v: VariantV, k: int) -> Option<
    (Seq<char>, Seq<char>),
> {
    let sel = select_pattern(pats, v.fields);
    let fields = fields_list(v.fields);
    if sel < 0 || k < 0 || k >= fields.len() {
        None
    } else {
        match pats[sel].group {
            crate::model::PatCompositeV::Inferred => Some((fields[k].ty, fields[k].ty)),
            crate::model::PatCompositeV::Unit => None,
            crate::model::PatCompositeV::Unnamed(ps) => param_binding(ps, fields, k),
            crate::model::PatCompositeV::Named(ps) => param_binding(ps, fields, k),
        }
    }
}

/// The binding of one delimited-composite position, when the walk
/// reaches it.
pub open spec fn param_binding(
    ps: Seq<PatFieldKindV>,
    fields: Seq<FieldV>,
    k: int,
) -> Option<(Seq<char>, Seq<char>)> {
    if !(0 <= k < ps.len() && k < fields.len() && (forall|j: int| 0 <= j <= k ==> ps[j] is Field)) {
        None
    } else {
        match ps[k] {
            PatFieldKindV::Field { ty, .. } => match ty {
                PatTyV::Plain(t) => if crate::text::is_infer_text(t) {
                    Some((fields[k].ty, fields[k].ty))
                } else if crate::text::is_generic_text(t) {
                    Some((t, fields[k].ty))
                } else {
                    None
                },
                PatTyV::ImplTrait { .. } => None,
            },
            _ => None,
        }
    }
}

pub proof fn lemma_walk_fields_binds(
    st: EngV,
    e_ident: Seq<char>,
    v: VariantV,
    params: Seq<PatFieldKindV>,
    fields: Seq<FieldV>,
    k0: int,
    arity: int,
    k: int,
)
    requires
        0 <= k0 <= k,
        param_binding(params, fields, k) is Some,
        forall|j: int| k0 <= j <= k ==> params[j] is Field,
    ensures
        ({
            let b = param_binding(params, fields, k)->0;
            poly_contains(walk_fields(st, e_ident, v, params, fields, k0, arity).poly, b.0, b.1)
        }),
    decreases k - k0,
{
    let b = param_binding(params, fields, k)->0;
    let st1 = step_field(st, e_ident, v, params[k0], fields[k0], k0, arity);
    if k0 == k {
        match params[k] {
            PatFieldKindV::Field { ty, .. } => {
                match ty {
                    PatTyV::Plain(t) => {
                        if crate::text::is_infer_text(t) {
                            lemma_poly_insert_contains(st.poly, fields[k].ty, fields[k].ty);
                        } else if crate::text::is_generic_text(t) && t == fields[k].ty {
                            lemma_poly_insert_contains(st.poly, t, fields[k].ty);
                        } else {
                            lemma_poly_insert_contains(st.poly, t, fields[k].ty);
                            lemma_poly_insert_preserves(
                                poly_insert(st.poly, t, fields[k].ty),
                                t,
                                fields[k].ty,
                                fields[k].ty,
                                fields[k].ty,
                            );
                        }
                    },
                    PatTyV::ImplTrait { .. } => {
                    },
                }
            },
            _ => {
            },
        }
        lemma_walk_fields_poly_preserves(
            st1,
            e_ident,
            v,
            params,
            fields,
            k0 + 1,
            arity,
            b.0,
            b.1,
        );
    } else {
        lemma_walk_fields_binds(st1, e_ident, v, params, fields, k0 + 1, arity, k);
    }
}

pub proof fn lemma_walk_infer_binds(
    st: EngV,
    e_ident: Seq<char>,
    v: VariantV,
    fields: Seq<FieldV>,
    k0: int,
    k: int,
)
    requires
        0 <= k0 <= k < fields.len(),
    ensures
        poly_contains(
            walk_infer(st, e_ident, v, fields, k0).poly,
            fields[k].ty,
            fields[k].ty,
        ),
    decreases k - k0,
{
    let f = fields[k0];
    let sig = crate::penum::sig_of(e_ident, v, f, k0, fields.len() as int);
    let st1 = EngV {
        bps: crate::dispatch::attach_sigs(st.bps, f.ty, sig),
        poly: poly_insert(st.poly, f.ty, f.ty),
        ..st
    };
    if k0 == k {
        lemma_poly_insert_contains(st.poly, f.ty, f.ty);
        lemma_walk_infer_poly_preserves(st1, e_ident, v, fields, k0 + 1, f.ty, f.ty);
    } else {
        lemma_walk_infer_binds(st1, e_ident, v, fields, k0 + 1, k);
    }
}

pub proof fn lemma_walk_variant_binds(
    st: EngV,
    e_ident: Seq<char>,
    pats: Seq<PatFragV>,
    fmt: Seq<char>,
    v: VariantV,
    k: int,
)
    requires
        binding_at(pats, v, k) is Some,
    ensures
        ({
            let b = binding_at(pats, v, k)->0;
            poly_contains(walk_variant(st, e_ident, pats, fmt, v).poly, b.0, b.1)
        }),
{
    let sel = select_pattern(pats, v.fields);
    let fields = fields_list(v.fields);
    match pats[sel].group {
        crate::model::PatCompositeV::Inferred => {
            lemma_walk_infer_binds(st, e_ident, v, fields, 0, k);
        },
        crate::model::PatCompositeV::Unnamed(ps) => {
            lemma_walk_fields_binds(st, e_ident, v, ps, fields, 0, fields.len() as int, k);
        },
        crate::model::PatCompositeV::Named(ps) => {
            lemma_walk_fields_binds(st, e_ident, v, ps, fields, 0, fields.len() as int, k);
        },
        crate::model::PatCompositeV::Unit => {
        },
    }
}

/// Polymorphic-map coverage: for every pattern variable (or wildcard)
/// and every variant whose walk binds it, the canonical id of the
/// bound field appears in the map under the variable's id.
pub proof fn theorem_polymap_coverage(s: SubjectV, e: PenumExprV, reg: Seq<TraitDefV>)
    ensures
        forall|i: int, k: int|
            0 <= i < s.variants.len() && #[trigger] binding_at(e.pattern, s.variants[i], k)
                is Some ==> ({
                let b = binding_at(e.pattern, s.variants[i], k)->0;
                poly_contains(assemble_spec(s, e, reg).poly, b.0, b.1)
            }),
{
    if s.variants.len() == 0 {
        return ;
    }
    let scanned = scan_preds(
        (Seq::<BlueprintV>::empty(), Seq::<(Span, Seq<char>)>::empty()),
        e.clause_preds,
        reg,
    );
    let init = EngV { errors: scanned.1, poly: Seq::empty(), bps: scanned.0, preds: Seq::empty() };
    let fmt = crate::emit::render_pattern_set(e.pattern);
    assert forall|i: int, k: int|
        0 <= i < s.variants.len() && #[trigger] binding_at(e.pattern, s.variants[i], k)
            is Some implies ({
        let b = binding_at(e.pattern, s.variants[i], k)->0;
        poly_contains(assemble_spec(s, e, reg).poly, b.0, b.1)
    }) by {
        lemma_walk_variants_bind_one(init, s.ident, e.pattern, fmt, s.variants, 0, i, k);
    }
}

pub proof fn lemma_walk_variants_bind_one(
    st: EngV,
    e_ident: Seq<char>,
    pats: Seq<PatFragV>,
    fmt: Seq<char>,
    vs: Seq<VariantV>,
    k0: int,
    i: int,
    k: int,
)
    requires
        0 <= k0 <= i < vs.len(),
        binding_at(pats, vs[i], k) is Some,
    ensures
        ({
            let b = binding_at(pats, vs[i], k)->0;
            poly_contains(walk_variants(st, e_ident, pats, fmt, vs, k0).poly, b.0, b.1)
        }),
    decreases vs.len() - k0,
{
    let b = binding_at(pats, vs[i], k)->0;
    let st1 = walk_variant(st, e_ident, pats, fmt, vs[k0]);
    if k0 == i {
        lemma_walk_variant_binds(st, e_ident, pats, fmt, vs[i], k);
        lemma_walk_variants_poly_preserves(st1, e_ident, pats, fmt, vs, k0 + 1, b.0, b.1);
    } else {
        lemma_walk_variants_bind_one(st1, e_ident, pats, fmt, vs, k0 + 1, i, k);
    }
}


// ------------------------------------------------------------------
// Dispatch coverage
// ------------------------------------------------------------------
use crate::dispatch::VariantSigV;
use crate::dispatch::attach_sigs;
use crate::penum::sig_of;

/// The variant signatures one zipped position attaches to a blueprint
/// keyed `key`: exactly the bindings of `step_field` that hit the key.
pub open spec fn sigs_field(
    key: Seq<char>,
    e_ident: Seq<char>,
    v: VariantV,
    p: PatFieldKindV,
    f: FieldV,
    idx: int,
    arity: int,
) -> Seq<VariantSigV> {
    let sig = sig_of(e_ident, v, f, idx, arity);
    match p {
        PatFieldKindV::Field { ty, .. } => match ty {
            PatTyV::Plain(t) => if crate::text::is_infer_text(t) {
                if key == f.ty {
                    seq![sig]
                } else {
                    Seq::empty()
                }
            } else if crate::text::is_generic_text(t) && t == f.ty {
                if key == t {
                    seq![sig]
                } else {
                    Seq::empty()
                }
            } else if crate::text::is_generic_text(t) {
                (if key == t {
                    seq![sig]
                } else {
                    Seq::<VariantSigV>::empty()
                }) + (if key == f.ty {
                    seq![sig]
                } else {
                    Seq::<VariantSigV>::empty()
                })
            } else if t == f.ty {
                if key == f.ty {
                    seq![sig]
                } else {
                    Seq::empty()
                }
            } else {
                Seq::empty()
            },
            PatTyV::ImplTrait { .. } => Seq::empty(),
        },
        _ => Seq::empty(),
    }
}

/// The signatures the walk of a delimited composite attaches.
pub open spec fn sigs_fields(
    key: Seq<char>,
    e_ident: Seq<char>,
    v: VariantV,
    params: Seq<PatFieldKindV>,
    fields: Seq<FieldV>,
    k: int,
    arity: int,
) -> Seq<VariantSigV>
    decreases params.len() - k,
    when 0 <= k
{
    if k >= params.len() || k >= fields.len() {
        Seq::empty()
    } else {
        match params[k] {
            PatFieldKindV::Variadic { .. } => Seq::empty(),
            PatFieldKindV::Range { .. } => Seq::empty(),
            PatFieldKindV::Field { .. } => sigs_field(key, e_ident, v, params[k], fields[k], k, arity)
                + sigs_fields(key, e_ident, v, params, fields, k + 1, arity),
        }
    }
}

/// The signatures the walk under an inferred composite attaches.
pub open spec fn sigs_infer(
    key: Seq<char>,
    e_ident: Seq<char>,
    v: VariantV,
    fields: Seq<FieldV>,
    k: int,
) -> Seq<VariantSigV>
    decreases fields.len() - k,
    when 0 <= k
{
    if k >= fields.len() {
        Seq::empty()
    } else {
        (if key == fields[k].ty {
            seq![sig_of(e_ident, v, fields[k], k, fields.len() as int)]
        } else {
            Seq::<VariantSigV>::empty()
        }) + sigs_infer(key, e_ident, v, fields, k + 1)
    }
}

/// The signatures one variant attaches to a blueprint keyed `key`.
pub open spec fn sigs_variant(
    key: Seq<char>,
    e_ident: Seq<char>,
    pats: Seq<PatFragV>,
    v: VariantV,
) -> Seq<VariantSigV> {
    let sel = select_pattern(pats, v.fields);
    if sel < 0 {
        Seq::empty()
    } else {
        match pats[sel].group {
            crate::model::PatCompositeV::Unit => Seq::empty(),
            crate::model::PatCompositeV::Inferred => sigs_infer(
                key,
                e_ident,
                v,
                fields_list(v.fields),
                0,
            ),
            crate::model::PatCompositeV::Unnamed(ps) => sigs_fields(
                key,
                e_ident,
                v,
                ps,
                fields_list(v.fields),
                0,
                fields_list(v.fields).len() as int,
            ),
            crate::model::PatCompositeV::Named(ps) => sigs_fields(
                key,
                e_ident,
                v,
                ps,
                fields_list(v.fields),
                0,
                fields_list(v.fields).len() as int,
            ),
        }
    }
}

/// The signatures the whole pass attaches to a blueprint keyed `key`,
/// in variant-declaration and field-index order.
pub open spec fn sigs_variants(
    key: Seq<char>,
    e_ident: Seq<char>,
    pats: Seq<PatFragV>,
    vs: Seq<VariantV>,
    k: int,
) -> Seq<VariantSigV>
    decreases vs.len() - k,
    when 0 <= k
{
    if k >= vs.len() {
        Seq::empty()
    } else {
        sigs_variant(key, e_ident, pats, vs[k]) + sigs_variants(key, e_ident, pats, vs, k + 1)
    }
}

/// What one blueprint looks like after a piece of the walk: same key,
/// bound and trait record, arms extended by exactly the given
/// signatures.
pub open spec fn bp_extended(b0: BlueprintV, b1: BlueprintV, sigs: Seq<VariantSigV>) -> bool {
    &&& b1.key == b0.key
    &&& b1.bound == b0.bound
    &&& b1.tdef == b0.tdef
    &&& b1.arms == b0.arms + sigs
}

pub proof fn lemma_attach_bp(bps: Seq<BlueprintV>, key: Seq<char>, sig: VariantSigV, bi: int)
    requires
        0 <= bi < bps.len(),
    ensures
        attach_sigs(bps, key, sig).len() == bps.len(),
        bp_extended(
            bps[bi],
            attach_sigs(bps, key, sig)[bi],
            if bps[bi].key == key {
                seq![sig]
            } else {
                Seq::<VariantSigV>::empty()
            },
        ),
{
    if bps[bi].key == key {
        assert(attach_sigs(bps, key, sig)[bi].arms =~= bps[bi].arms + seq![sig]);
    } else {
        assert(attach_sigs(bps, key, sig)[bi].arms =~= bps[bi].arms + Seq::<VariantSigV>::empty());
    }
}

pub proof fn lemma_step_field_bp(
    st: EngV,
    e_ident: Seq<char>,
    v: VariantV,
    p: PatFieldKindV,
    f: FieldV,
    idx: int,
    arity: int,
    bi: int,
)
    requires
        0 <= bi < st.bps.len(),
    ensures
        step_field(st, e_ident, v, p, f, idx, arity).bps.len() == st.bps.len(),
        bp_extended(
            st.bps[bi],
            step_field(st, e_ident, v, p, f, idx, arity).bps[bi],
            sigs_field(st.bps[bi].key, e_ident, v, p, f, idx, arity),
        ),
{
    let sig = sig_of(e_ident, v, f, idx, arity);
    let key = st.bps[bi].key;
    match p {
        PatFieldKindV::Field { ty, .. } => {
            match ty {
                PatTyV::Plain(t) => {
                    if crate::text::is_infer_text(t) {
                        lemma_attach_bp(st.bps, f.ty, sig, bi);
                    } else if crate::text::is_generic_text(t) && t == f.ty {
                        lemma_attach_bp(st.bps, t, sig, bi);
                    } else if crate::text::is_generic_text(t) {
                        lemma_attach_bp(st.bps, t, sig, bi);
                        lemma_attach_bp(attach_sigs(st.bps, t, sig), f.ty, sig, bi);
                        assert(step_field(st, e_ident, v, p, f, idx, arity).bps[bi].arms
                            =~= st.bps[bi].arms + sigs_field(key, e_ident, v, p, f, idx, arity));
                    } else if t == f.ty {
                        lemma_attach_bp(st.bps, f.ty, sig, bi);
                    } else {
                        assert(st.bps[bi].arms + Seq::<VariantSigV>::empty() =~= st.bps[bi].arms);
                    }
                },
                PatTyV::ImplTrait { .. } => {
                    assert(step_field(st, e_ident, v, p, f, idx, arity).bps == st.bps);
                    assert(st.bps[bi].arms + Seq::<VariantSigV>::empty() =~= st.bps[bi].arms);
                },
            }
        },
        _ => {
            assert(st.bps[bi].arms + Seq::<VariantSigV>::empty() =~= st.bps[bi].arms);
        },
    }
    if !(sigs_field(key, e_ident, v, p, f, idx, arity).len() == 0) {
    } else {
        assert(st.bps[bi].arms + sigs_field(key, e_ident, v, p, f, idx, arity) =~= st.bps[bi].arms
            + Seq::<VariantSigV>::empty());
    }
}

pub proof fn lemma_walk_fields_bp(
    st: EngV,
    e_ident: Seq<char>,
    v: VariantV,
    params: Seq<PatFieldKindV>,
    fields: Seq<FieldV>,
    k: int,
    arity: int,
    bi: int,
)
    requires
        0 <= k,
        0 <= bi < st.bps.len(),
    ensures
        walk_fields(st, e_ident, v, params, fields, k, arity).bps.len() == st.bps.len(),
        bp_extended(
            st.bps[bi],
            walk_fields(st, e_ident, v, params, fields, k, arity).bps[bi],
            sigs_fields(st.bps[bi].key, e_ident, v, params, fields, k, arity),
        ),
    decreases params.len() - k,
{
    let key = st.bps[bi].key;
    if k < params.len() && k < fields.len() {
        match params[k] {
            PatFieldKindV::Field { .. } => {
                let st1 = step_field(st, e_ident, v, params[k], fields[k], k, arity);
                lemma_step_field_bp(st, e_ident, v, params[k], fields[k], k, arity, bi);
                lemma_walk_fields_bp(st1, e_ident, v, params, fields, k + 1, arity, bi);
                assert(walk_fields(st, e_ident, v, params, fields, k, arity).bps[bi].arms
                    =~= st.bps[bi].arms + sigs_fields(key, e_ident, v, params, fields, k, arity));
            },
            _ => {
                assert(st.bps[bi].arms + Seq::<VariantSigV>::empty() =~= st.bps[bi].arms);
            },
        }
    } else {
        assert(st.bps[bi].arms + Seq::<VariantSigV>::empty() =~= st.bps[bi].arms);
    }
}

pub proof fn lemma_walk_infer_bp(
    st: EngV,
    e_ident: Seq<char>,
    v: VariantV,
    fields: Seq<FieldV>,
    k: int,
    bi: int,
)
    requires
        0 <= k,
        0 <= bi < st.bps.len(),
    ensures
        walk_infer(st, e_ident, v, fields, k).bps.len() == st.bps.len(),
        bp_extended(
            st.bps[bi],
            walk_infer(st, e_ident, v, fields, k).bps[bi],
            sigs_infer(st.bps[bi].key, e_ident, v, fields, k),
        ),
    decreases fields.len() - k,
{
    let key = st.bps[bi].key;
    if k < fields.len() {
        let f = fields[k];
        let sig = sig_of(e_ident, v, f, k, fields.len() as int);
        let st1 = EngV {
            bps: attach_sigs(st.bps, f.ty, sig),
            poly: crate::polym::poly_insert(st.poly, f.ty, f.ty),
            ..st
        };
        lemma_attach_bp(st.bps, f.ty, sig, bi);
        lemma_walk_infer_bp(st1, e_ident, v, fields, k + 1, bi);
        assert(walk_infer(st, e_ident, v, fields, k).bps[bi].arms =~= st.bps[bi].arms + sigs_infer(
            key,
            e_ident,
            v,
            fields,
            k,
        ));
    } else {
        assert(st.bps[bi].arms + Seq::<VariantSigV>::empty() =~= st.bps[bi].arms);
    }
}

pub proof fn lemma_walk_variant_bp(
    st: EngV,
    e_ident: Seq<char>,
    pats: Seq<PatFragV>,
    fmt: Seq<char>,
    v: VariantV,
    bi: int,
)
    requires
        0 <= bi < st.bps.len(),
    ensures
        walk_variant(st, e_ident, pats, fmt, v).bps.len() == st.bps.len(),
        bp_extended(
            st.bps[bi],
            walk_variant(st, e_ident, pats, fmt, v).bps[bi],
            sigs_variant(st.bps[bi].key, e_ident, pats, v),
        ),
{
    let key = st.bps[bi].key;
    let sel = select_pattern(pats, v.fields);
    if sel < 0 {
        assert(st.bps[bi].arms + Seq::<VariantSigV>::empty() =~= st.bps[bi].arms);
    } else {
        match pats[sel].group {
            crate::model::PatCompositeV::Unit => {
                assert(st.bps[bi].arms + Seq::<VariantSigV>::empty() =~= st.bps[bi].arms);
            },
            crate::model::PatCompositeV::Inferred => {
                lemma_walk_infer_bp(st, e_ident, v, fields_list(v.fields), 0, bi);
            },
            crate::model::PatCompositeV::Unnamed(ps) => {
                lemma_walk_fields_bp(
                    st,
                    e_ident,
                    v,
                    ps,
                    fields_list(v.fields),
                    0,
                    fields_list(v.fields).len() as int,
                    bi,
                );
            },
            crate::model::PatCompositeV::Named(ps) => {
                lemma_walk_fields_bp(
                    st,
                    e_ident,
                    v,
                    ps,
                    fields_list(v.fields),
                    0,
                    fields_list(v.fields).len() as int,
                    bi,
                );
            },
        }
    }
}

pub proof fn lemma_walk_variants_bp(
    st: EngV,
    e_ident: Seq<char>,
    pats: Seq<PatFragV>,
    fmt: Seq<char>,
    vs: Seq<VariantV>,
    k: int,
    bi: int,
)
    requires
        0 <= k,
        0 <= bi < st.bps.len(),
    ensures
        walk_variants(st, e_ident, pats, fmt, vs, k).bps.len() == st.bps.len(),
        bp_extended(
            st.bps[bi],
            walk_variants(st, e_ident, pats, fmt, vs, k).bps[bi],
            sigs_variants(st.bps[bi].key, e_ident, pats, vs, k),
        ),
    decreases vs.len() - k,
{
    let key = st.bps[bi].key;
    if k < vs.len() {
        let st1 = walk_variant(st, e_ident, pats, fmt, vs[k]);
        lemma_walk_variant_bp(st, e_ident, pats, fmt, vs[k], bi);
        lemma_walk_variants_bp(st1, e_ident, pats, fmt, vs, k + 1, bi);
        assert(walk_variants(st, e_ident, pats, fmt, vs, k).bps[bi].arms =~= st.bps[bi].arms
            + sigs_variants(key, e_ident, pats, vs, k));
    } else {
        assert(st.bps[bi].arms + Seq::<VariantSigV>::empty() =~= st.bps[bi].arms);
    }
}

pub proof fn lemma_scan_arms_empty(
    st: (Seq<BlueprintV>, Seq<(Span, Seq<char>)>),
    ps: Seq<WherePredV>,
    reg: Seq<TraitDefV>,
)
    requires
        forall|bi: int| 0 <= bi < st.0.len() ==> (#[trigger] st.0[bi]).arms.len() == 0,
    ensures
        forall|bi: int|
            0 <= bi < scan_preds(st, ps, reg).0.len() ==> (#[trigger] scan_preds(
                st,
                ps,
                reg,
            ).0[bi]).arms.len() == 0,
    decreases ps.len(),
{
    if ps.len() > 0 {
        lemma_scan_arms_empty(st, ps.drop_last(), reg);
        let st1 = scan_preds(st, ps.drop_last(), reg);
        match ps.last() {
            WherePredV::Type { bounded_ty, bounds, .. } => {
                lemma_scan_bounds_arms_empty(st1, bounded_ty, bounds, reg);
            },
            WherePredV::Lifetime { .. } => {
            },
        }
    }
}

pub proof fn lemma_scan_bounds_arms_empty(
    st: (Seq<BlueprintV>, Seq<(Span, Seq<char>)>),
    bounded_ty: Seq<char>,
    bs: Seq<crate::model::BoundV>,
    reg: Seq<TraitDefV>,
)
    requires
        forall|bi: int| 0 <= bi < st.0.len() ==> (#[trigger] st.0[bi]).arms.len() == 0,
    ensures
        forall|bi: int|
            0 <= bi < crate::penum::scan_bounds(st, bounded_ty, bs, reg).0.len() ==> (
            #[trigger] crate::penum::scan_bounds(st, bounded_ty, bs, reg).0[bi]).arms.len() == 0,
    decreases bs.len(),
{
    if bs.len() > 0 {
        lemma_scan_bounds_arms_empty(st, bounded_ty, bs.drop_last(), reg);
    }
}

/// Dispatch coverage: every blueprint's attached arms are exactly the
/// signatures of the positions that bind the blueprint's key, in
/// variant-declaration and field-index order; in particular their
/// number equals the number of binding positions.
pub proof fn theorem_dispatch_coverage(s: SubjectV, e: PenumExprV, reg: Seq<TraitDefV>)
    ensures
        forall|bi: int|
            0 <= bi < assemble_spec(s, e, reg).bps.len() ==> (#[trigger] assemble_spec(
                s,
                e,
                reg,
            ).bps[bi]).arms == sigs_variants(
                assemble_spec(s, e, reg).bps[bi].key,
                s.ident,
                e.pattern,
                s.variants,
                0,
            ),
{
    if s.variants.len() == 0 {
        return ;
    }
    let scanned = scan_preds(
        (Seq::<BlueprintV>::empty(), Seq::<(Span, Seq<char>)>::empty()),
        e.clause_preds,
        reg,
    );
    let init = EngV { errors: scanned.1, poly: Seq::empty(), bps: scanned.0, preds: Seq::empty() };
    let fmt = crate::emit::render_pattern_set(e.pattern);
    lemma_scan_arms_empty(
        (Seq::<BlueprintV>::empty(), Seq::<(Span, Seq<char>)>::empty()),
        e.clause_preds,
        reg,
    );
    assert forall|bi: int| 0 <= bi < assemble_spec(s, e, reg).bps.len() implies (
    #[trigger] assemble_spec(s, e, reg).bps[bi]).arms == sigs_variants(
        assemble_spec(s, e, reg).bps[bi].key,
        s.ident,
        e.pattern,
        s.variants,
        0,
    ) by {
        lemma_walk_variants_bps_len(init, s.ident, e.pattern, fmt, s.variants, 0);
        lemma_walk_variants_bp(init, s.ident, e.pattern, fmt, s.variants, 0, bi);
        assert(init.bps[bi].arms.len() == 0);
        assert(init.bps[bi].arms + sigs_variants(init.bps[bi].key, s.ident, e.pattern, s.variants, 0)
            =~= sigs_variants(init.bps[bi].key, s.ident, e.pattern, s.variants, 0));
    }
}


pub proof fn lemma_walk_fields_bps_len(
    st: EngV,
    e_ident: Seq<char>,
    v: VariantV,
    params: Seq<PatFieldKindV>,
    fields: Seq<FieldV>,
    k: int,
    arity: int,
)
    requires
        0 <= k,
    ensures
        walk_fields(st, e_ident, v, params, fields, k, arity).bps.len() == st.bps.len(),
    decreases params.len() - k,
{
    if k < params.len() && k < fields.len() {
        match params[k] {
            PatFieldKindV::Field { .. } => {
                let st1 = step_field(st, e_ident, v, params[k], fields[k], k, arity);
                lemma_walk_fields_bps_len(st1, e_ident, v, params, fields, k + 1, arity);
            },
            _ => {
            },
        }
    }
}

pub proof fn lemma_walk_infer_bps_len(
    st: EngV,
    e_ident: Seq<char>,
    v: VariantV,
    fields: Seq<FieldV>,
    k: int,
)
    requires
        0 <= k,
    ensures
        walk_infer(st, e_ident, v, fields, k).bps.len() == st.bps.len(),
    decreases fields.len() - k,
{
    if k < fields.len() {
        let f = fields[k];
        let sig = sig_of(e_ident, v, f, k, fields.len() as int);
        let st1 = EngV {
            bps: attach_sigs(st.bps, f.ty, sig),
            poly: crate::polym::poly_insert(st.poly, f.ty, f.ty),
            ..st
        };
        lemma_walk_infer_bps_len(st1, e_ident, v, fields, k + 1);
    }
}

pub proof fn lemma_walk_variants_bps_len(
    st: EngV,
    e_ident: Seq<char>,
    pats: Seq<PatFragV>,
    fmt: Seq<char>,
    vs: Seq<VariantV>,
    k: int,
)
    requires
        0 <= k,
    ensures
        walk_variants(st, e_ident, pats, fmt, vs, k).bps.len() == st.bps.len(),
    decreases vs.len() - k,
{
    if k < vs.len() {
        let st1 = walk_variant(st, e_ident, pats, fmt, vs[k]);
        let sel = select_pattern(pats, vs[k].fields);
        if sel >= 0 {
            match pats[sel].group {
                crate::model::PatCompositeV::Unit => {
                },
                crate::model::PatCompositeV::Inferred => {
                    lemma_walk_infer_bps_len(st, e_ident, vs[k], fields_list(vs[k].fields), 0);
                },
                crate::model::PatCompositeV::Unnamed(ps) => {
                    lemma_walk_fields_bps_len(
                        st,
                        e_ident,
                        vs[k],
                        ps,
                        fields_list(vs[k].fields),
                        0,
                        fields_list(vs[k].fields).len() as int,
                    );
                },
                crate::model::PatCompositeV::Named(ps) => {
                    lemma_walk_fields_bps_len(
                        st,
                        e_ident,
                        vs[k],
                        ps,
                        fields_list(vs[k].fields),
                        0,
                        fields_list(vs[k].fields).len() as int,
                    );
                },
            }
        }
        lemma_walk_variants_bps_len(st1, e_ident, pats, fmt, vs, k + 1);
    }
}


// ------------------------------------------------------------------
// Re-validation stability and error totality
// ------------------------------------------------------------------
/// Re-validation stability: the assembly pass reads nothing of the
/// subject's own where-clause.  Running the engine on its enriched
/// output with the same attribute therefore accepts it again, with
/// identical diagnostics, polymorphic map, blueprints and synthetic
/// predicates; only the propagated where-clause texts are appended
/// anew, so the emitted declaration is not textually identical.
pub proof fn theorem_revalidation_stability(
    s: SubjectV,
    e: PenumExprV,
    reg: Seq<TraitDefV>,
    wp: Seq<Seq<char>>,
)
    ensures
        assemble_spec(SubjectV { where_preds: wp, ..s }, e, reg) == assemble_spec(s, e, reg),
{
    let s2 = SubjectV { where_preds: wp, ..s };
    assert(s2.variants == s.variants);
    assert(s2.ident == s.ident);
    assert(s2.ident_span == s.ident_span);
}

pub proof fn lemma_propagate_errors(
    st: (Seq<Seq<char>>, Seq<(Span, Seq<char>)>),
    preds: Seq<WherePredV>,
    poly: Seq<(Seq<char>, Seq<Seq<char>>)>,
)
    ensures
        propagate(st, preds, poly).1.len() >= st.1.len(),
    decreases preds.len(),
{
    if preds.len() > 0 {
        lemma_propagate_errors(st, preds.drop_last(), poly);
    }
}

/// Error totality: the emission step never drops a diagnostic the
/// assembly pass raised, so the final output is the combined
/// diagnostic stream exactly when the stream is non-empty, and the
/// enriched declaration otherwise — `Penum::get_tokenstream` says so
/// in its contract.  That the engine terminates and never panics on
/// any input holds by the verification of every executable function
/// of this crate.
pub proof fn theorem_error_totality(
    s: SubjectV,
    e: PenumExprV,
    reg: Seq<TraitDefV>,
    wp: Seq<Seq<char>>,
    preds: Seq<WherePredV>,
)
    ensures
        assemble_spec(s, e, reg).errors.len() > 0 ==> propagate(
            (wp, assemble_spec(s, e, reg).errors),
            preds,
            assemble_spec(s, e, reg).poly,
        ).1.len() > 0,
{
    lemma_propagate_errors((wp, assemble_spec(s, e, reg).errors), preds, assemble_spec(s, e, reg).poly);
}

} // verus!
