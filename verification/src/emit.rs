//! The emitter: renders the syntax model, the enriched declaration and
//! the synthesized implementation blocks back to text.  Every
//! executable renderer is proved to produce exactly what its spec-level
//! mirror says.

use vstd::prelude::*;

use crate::model::BoundArg;
use crate::model::BoundArgV;
use crate::model::Bound;
use crate::model::BoundV;
use crate::model::Field;
use crate::model::Fields;
use crate::model::FieldV;
use crate::model::FieldsV;
use crate::model::PatComposite;
use crate::model::PatCompositeV;
use crate::model::PatFieldKind;
use crate::model::PatFieldKindV;
use crate::model::PatFrag;
use crate::model::PatFragV;
use crate::model::PatTy;
use crate::model::PatTyV;
use crate::model::Subject;
use crate::model::SubjectV;
use crate::model::TraitBound;
use crate::model::TraitBoundV;
use crate::model::Variant;
use crate::model::VariantV;
use crate::model::MethodParam;
use crate::model::MethodParamV;
use crate::model::MethodSig;
use crate::model::MethodSigV;
use crate::model::bound_arg_seq_view;
use crate::model::bound_seq_view;
use crate::model::field_seq_view;
use crate::model::fields_view;
use crate::model::pat_composite_view;
use crate::model::pat_frag_seq_view;
use crate::model::pat_param_seq_view;
use crate::model::subject_view;
use crate::model::trait_bound_view;
use crate::model::variant_seq_view;
use crate::dispatch::Blueprint;
use crate::dispatch::BlueprintV;
use crate::dispatch::VariantSig;
use crate::dispatch::VariantSigV;
use crate::dispatch::blueprint_seq_view;
use crate::dispatch::blueprint_view;
use crate::dispatch::sig_seq_view;
use crate::dispatch::sig_view;
use crate::error::Diag;
use crate::error::Span;
use crate::text::canon_cat;
use crate::text::canon_push;
use crate::text::copy_text;
use crate::text::text_of;

verus! {

broadcast use crate::text::lemma_text_deep_view, crate::text::lemma_texts_deep_view;

// ------------------------------------------------------------------
// Appending
// ------------------------------------------------------------------
/// Appends a literal to a rendering in progress.
pub fn app_str(out: &mut Vec<char>, s: &str)
    ensures
        final(out)@ == old(out)@ + s@,
{
    let mut t = text_of(s);
    out.append(&mut t);
}

/// Appends a text to a rendering in progress.
pub fn app_text(out: &mut Vec<char>, v: &Vec<char>)
    ensures
        final(out)@ == old(out)@ + v@,
{
    let mut t = copy_text(v);
    out.append(&mut t);
}

// ------------------------------------------------------------------
// Joining
// ------------------------------------------------------------------
/// The texts joined by `sep`.
pub open spec fn join(xs: Seq<Seq<char>>, sep: Seq<char>) -> Seq<char>
    decreases xs.len(),
{
    if xs.len() == 0 {
        Seq::empty()
    } else if xs.len() == 1 {
        xs[0]
    } else {
        join(xs.drop_last(), sep) + sep + xs.last()
    }
}

// ------------------------------------------------------------------
// Bounds
// ------------------------------------------------------------------
/// One bound argument: `value` or `name=value`.
pub open spec fn arg_text(a: BoundArgV) -> Seq<char> {
    match a.name {
        Some(n) => n + seq!['='] + a.value,
        None => a.value,
    }
}

/// The generic arguments of a bound: `<a,b>`, or nothing.
pub open spec fn render_bound_args(args: Seq<BoundArgV>) -> Seq<char> {
    if args.len() == 0 {
        Seq::empty()
    } else {
        seq!['<'] + join(args.map(|i: int, a: BoundArgV| arg_text(a)), seq![',']) + seq!['>']
    }
}

/// A trait bound without its modifier: the path and its arguments.
pub open spec fn render_trait_bound(tb: TraitBoundV) -> Seq<char> {
    tb.name + render_bound_args(tb.args)
}

/// One bound: a trait bound, or a lifetime kept verbatim.
pub open spec fn render_bound(b: BoundV) -> Seq<char> {
    match b {
        BoundV::Trait(tb) => render_trait_bound(tb),
        BoundV::Lifetime { text, .. } => text,
    }
}

/// A `+`-separated bound list, modifiers stripped.
pub open spec fn render_bounds_list(bs: Seq<BoundV>) -> Seq<char> {
    join(bs.map(|i: int, b: BoundV| render_bound(b)), " + "@)
}

/// Renders the generic arguments of a bound.
pub fn bound_args_text(args: &Vec<BoundArg>) -> (r: Vec<char>)
    ensures
        r@ == render_bound_args(bound_arg_seq_view(args@)),
{
    let ghost av = bound_arg_seq_view(args@);
    let ghost mapped = av.map(|i: int, a: BoundArgV| arg_text(a));
    let mut out: Vec<char> = Vec::new();
    if args.len() == 0 {
        proof {
            assert(out@ =~= render_bound_args(av));
        }
        return out;
    }
    out.push('<');
    let mut i: usize = 0;
    while i < args.len()
        invariant
            i <= args@.len(),
            av == bound_arg_seq_view(args@),
            mapped == av.map(|k: int, a: BoundArgV| arg_text(a)),
            out@ == seq!['<'] + join(mapped.subrange(0, i as int), seq![',']),
        decreases args@.len() - i,
    {
        if i > 0 {
            out.push(',');
        }
        match &args[i].name {
            Some(n) => {
                app_text(&mut out, n);
                out.push('=');
                app_text(&mut out, &args[i].value);
            },
            None => {
                app_text(&mut out, &args[i].value);
            },
        }
        proof {
            assert(av[i as int] == crate::model::bound_arg_view(args@[i as int]));
            assert(mapped.subrange(0, i + 1int).drop_last() =~= mapped.subrange(0, i as int));
            assert(mapped.subrange(0, i + 1int).last() == arg_text(av[i as int]));
            if i == 0 {
                assert(out@ =~= seq!['<'] + join(mapped.subrange(0, 1int), seq![',']));
            } else {
                assert(out@ =~= seq!['<'] + join(mapped.subrange(0, i + 1int), seq![',']));
            }
        }
        i = i + 1;
    }
    out.push('>');
    proof {
        assert(mapped.subrange(0, mapped.len() as int) =~= mapped);
        assert(out@ =~= render_bound_args(av));
    }
    out
}

/// Renders a trait bound without its modifier.
pub fn trait_bound_text(tb: &TraitBound) -> (r: Vec<char>)
    ensures
        r@ == render_trait_bound(trait_bound_view(*tb)),
{
    let mut out = copy_text(&tb.name);
    let mut args = bound_args_text(&tb.args);
    out.append(&mut args);
    out
}

/// Renders one bound without its modifier.
pub fn bound_text(b: &Bound) -> (r: Vec<char>)
    ensures
        r@ == render_bound(crate::model::bound_view(*b)),
{
    match b {
        Bound::Trait(tb) => trait_bound_text(tb),
        Bound::Lifetime { text, .. } => copy_text(text),
    }
}

/// Renders a `+`-separated bound list, modifiers stripped.
pub fn bounds_list_text(bs: &Vec<Bound>) -> (r: Vec<char>)
    ensures
        r@ == render_bounds_list(bound_seq_view(bs@)),
{
    let ghost bv = bound_seq_view(bs@);
    let ghost mapped = bv.map(|i: int, b: BoundV| render_bound(b));
    let mut out: Vec<char> = Vec::new();
    let mut i: usize = 0;
    while i < bs.len()
        invariant
            i <= bs@.len(),
            bv == bound_seq_view(bs@),
            mapped == bv.map(|k: int, b: BoundV| render_bound(b)),
            out@ == join(mapped.subrange(0, i as int), " + "@),
        decreases bs@.len() - i,
    {
        if i > 0 {
            app_str(&mut out, " + ");
        }
        let mut t = bound_text(&bs[i]);
        out.append(&mut t);
        proof {
            assert(bv[i as int] == crate::model::bound_view(bs@[i as int]));
            assert(mapped.subrange(0, i + 1int).drop_last() =~= mapped.subrange(0, i as int));
            assert(mapped.subrange(0, i + 1int).last() == render_bound(bv[i as int]));
            if i == 0 {
                assert(out@ =~= join(mapped.subrange(0, 1int), " + "@));
            } else {
                assert(out@ =~= join(mapped.subrange(0, i + 1int), " + "@));
            }
        }
        i = i + 1;
    }
    proof {
        assert(mapped.subrange(0, mapped.len() as int) =~= mapped);
    }
    out
}

// ------------------------------------------------------------------
// Subjects
// ------------------------------------------------------------------
/// One field: `name: ty` or `ty`.
pub open spec fn render_field(f: FieldV) -> Seq<char> {
    match f.name {
        Some(n) => n + ": "@ + f.ty,
        None => f.ty,
    }
}

/// A variant's fields: `(a, b)`, `{ n: a }`, or nothing.
pub open spec fn render_fields(fs: FieldsV) -> Seq<char> {
    match fs {
        FieldsV::Unit => Seq::empty(),
        FieldsV::Unnamed(l) => seq!['('] + join(l.map(|i: int, f: FieldV| render_field(f)), ", "@)
            + seq![')'],
        FieldsV::Named(l) => "{ "@ + join(l.map(|i: int, f: FieldV| render_field(f)), ", "@)
            + " }"@,
    }
}

/// One variant: its name and fields, a named group set off by a
/// space.
pub open spec fn render_variant(v: VariantV) -> Seq<char> {
    v.ident + (if v.fields is Named {
        seq![' ']
    } else {
        Seq::<char>::empty()
    }) + render_fields(v.fields)
}

/// The variant list, comma-separated.
pub open spec fn render_variants(vs: Seq<VariantV>) -> Seq<char> {
    join(vs.map(|i: int, v: VariantV| render_variant(v)), ", "@)
}

/// A where-clause from predicate texts, or nothing.
pub open spec fn render_where(preds: Seq<Seq<char>>) -> Seq<char> {
    if preds.len() == 0 {
        Seq::empty()
    } else {
        " where "@ + join(preds, ", "@)
    }
}

/// The whole declaration: `enum NAME<G> where P { VARIANTS }`.
pub open spec fn render_subject(s: SubjectV) -> Seq<char> {
    "enum "@ + s.ident + s.generics + render_where(s.where_preds) + " { "@ + render_variants(
        s.variants,
    ) + " }"@
}

/// Renders the fields of one field list.
fn field_list_text(l: &Vec<Field>) -> (r: Vec<char>)
    ensures
        r@ == join(field_seq_view(l@).map(|i: int, f: FieldV| render_field(f)), ", "@),
{
    let ghost fv = field_seq_view(l@);
    let ghost mapped = fv.map(|i: int, f: FieldV| render_field(f));
    let mut out: Vec<char> = Vec::new();
    let mut i: usize = 0;
    while i < l.len()
        invariant
            i <= l@.len(),
            fv == field_seq_view(l@),
            mapped == fv.map(|k: int, f: FieldV| render_field(f)),
            out@ == join(mapped.subrange(0, i as int), ", "@),
        decreases l@.len() - i,
    {
        if i > 0 {
            app_str(&mut out, ", ");
        }
        match &l[i].name {
            Some(n) => {
                app_text(&mut out, n);
                app_str(&mut out, ": ");
                app_text(&mut out, &l[i].ty);
            },
            None => {
                app_text(&mut out, &l[i].ty);
            },
        }
        proof {
            assert(fv[i as int] == crate::model::field_view(l@[i as int]));
            assert(mapped.subrange(0, i + 1int).drop_last() =~= mapped.subrange(0, i as int));
            assert(mapped.subrange(0, i + 1int).last() == render_field(fv[i as int]));
            if i == 0 {
                assert(out@ =~= join(mapped.subrange(0, 1int), ", "@));
            } else {
                assert(out@ =~= join(mapped.subrange(0, i + 1int), ", "@));
            }
        }
        i = i + 1;
    }
    proof {
        assert(mapped.subrange(0, mapped.len() as int) =~= mapped);
    }
    out
}

/// Renders a variant's fields.
pub fn fields_text(fs: &Fields) -> (r: Vec<char>)
    ensures
        r@ == render_fields(fields_view(*fs)),
{
    match fs {
        Fields::Unit => Vec::new(),
        Fields::Unnamed(l) => {
            let mut out: Vec<char> = Vec::new();
            out.push('(');
            let mut t = field_list_text(l);
            out.append(&mut t);
            out.push(')');
            proof {
                assert(out@ =~= render_fields(fields_view(*fs)));
            }
            out
        },
        Fields::Named(l) => {
            let mut out: Vec<char> = Vec::new();
            app_str(&mut out, "{ ");
            let mut t = field_list_text(l);
            out.append(&mut t);
            app_str(&mut out, " }");
            proof {
                assert(out@ =~= render_fields(fields_view(*fs)));
            }
            out
        },
    }
}

/// Renders the variant list.
pub fn variants_text(vs: &Vec<Variant>) -> (r: Vec<char>)
    ensures
        r@ == render_variants(variant_seq_view(vs@)),
{
    let ghost vv = variant_seq_view(vs@);
    let ghost mapped = vv.map(|i: int, v: VariantV| render_variant(v));
    let mut out: Vec<char> = Vec::new();
    let mut i: usize = 0;
    while i < vs.len()
        invariant
            i <= vs@.len(),
            vv == variant_seq_view(vs@),
            mapped == vv.map(|k: int, v: VariantV| render_variant(v)),
            out@ == join(mapped.subrange(0, i as int), ", "@),
        decreases vs@.len() - i,
    {
        if i > 0 {
            app_str(&mut out, ", ");
        }
        app_text(&mut out, &vs[i].ident);
        match &vs[i].fields {
            Fields::Named(_) => {
                out.push(' ');
            },
            _ => {
            },
        }
        let mut t = fields_text(&vs[i].fields);
        out.append(&mut t);
        proof {
            assert(vv[i as int] == crate::model::variant_view(vs@[i as int]));
            assert(mapped.subrange(0, i + 1int).drop_last() =~= mapped.subrange(0, i as int));
            assert(mapped.subrange(0, i + 1int).last() == render_variant(vv[i as int]));
            if i == 0 {
                assert(out@ =~= join(mapped.subrange(0, 1int), ", "@));
            } else {
                assert(out@ =~= join(mapped.subrange(0, i + 1int), ", "@));
            }
        }
        i = i + 1;
    }
    proof {
        assert(mapped.subrange(0, mapped.len() as int) =~= mapped);
    }
    out
}

/// Renders a where-clause from predicate texts.
pub fn where_text(preds: &Vec<Vec<char>>) -> (r: Vec<char>)
    ensures
        r@ == render_where(preds.deep_view()),
{
    let ghost pv = preds.deep_view();
    let mut out: Vec<char> = Vec::new();
    if preds.len() == 0 {
        proof {
            assert(out@ =~= render_where(pv));
        }
        return out;
    }
    app_str(&mut out, " where ");
    let mut i: usize = 0;
    while i < preds.len()
        invariant
            1 <= preds@.len(),
            i <= preds@.len(),
            pv == preds.deep_view(),
            out@ == " where "@ + join(pv.subrange(0, i as int), ", "@),
        decreases preds@.len() - i,
    {
        if i > 0 {
            app_str(&mut out, ", ");
        }
        app_text(&mut out, &preds[i]);
        proof {
            assert(pv.subrange(0, i + 1int).drop_last() =~= pv.subrange(0, i as int));
            assert(pv.subrange(0, i + 1int).last() == pv[i as int]);
            if i == 0 {
                assert(out@ =~= " where "@ + join(pv.subrange(0, 1int), ", "@));
            } else {
                assert(out@ =~= " where "@ + join(pv.subrange(0, i + 1int), ", "@));
            }
        }
        i = i + 1;
    }
    proof {
        assert(pv.subrange(0, pv.len() as int) =~= pv);
        assert(out@ =~= render_where(pv));
    }
    out
}

/// Renders the whole declaration.
pub fn subject_text(s: &Subject) -> (r: Vec<char>)
    ensures
        r@ == render_subject(subject_view(*s)),
{
    let mut out: Vec<char> = Vec::new();
    app_str(&mut out, "enum ");
    app_text(&mut out, &s.ident);
    app_text(&mut out, &s.generics);
    let mut w = where_text(&s.where_preds);
    out.append(&mut w);
    app_str(&mut out, " { ");
    let mut v = variants_text(&s.variants);
    out.append(&mut v);
    app_str(&mut out, " }");
    proof {
        assert(out@ =~= render_subject(subject_view(*s)));
    }
    out
}

// ------------------------------------------------------------------
// Patterns, for diagnostics
// ------------------------------------------------------------------
/// The text of the type at a pattern position.
pub open spec fn pat_ty_text(t: PatTyV) -> Seq<char> {
    match t {
        PatTyV::Plain(text) => text,
        PatTyV::ImplTrait { text, .. } => text,
    }
}

/// One pattern parameter.
pub open spec fn render_pat_param(p: PatFieldKindV) -> Seq<char> {
    match p {
        PatFieldKindV::Field { name, ty, .. } => match name {
            Some(n) => n + ": "@ + pat_ty_text(ty),
            None => pat_ty_text(ty),
        },
        PatFieldKindV::Variadic { .. } => ".."@,
        PatFieldKindV::Range { .. } => ".."@,
    }
}

/// One pattern composite.
pub open spec fn render_pat_composite(c: PatCompositeV) -> Seq<char> {
    match c {
        PatCompositeV::Unit => Seq::empty(),
        PatCompositeV::Unnamed(ps) => seq!['('] + join(
            ps.map(|i: int, p: PatFieldKindV| render_pat_param(p)),
            ", "@,
        ) + seq![')'],
        PatCompositeV::Named(ps) => "{ "@ + join(
            ps.map(|i: int, p: PatFieldKindV| render_pat_param(p)),
            ", "@,
        ) + " }"@,
        PatCompositeV::Inferred => seq!['_'],
    }
}

/// One pattern fragment.
pub open spec fn render_pat_frag(p: PatFragV) -> Seq<char> {
    (match p.ident {
        Some(n) => n,
        None => Seq::empty(),
    }) + render_pat_composite(p.group)
}

/// The whole pattern set, `|`-separated.
pub open spec fn render_pattern_set(ps: Seq<PatFragV>) -> Seq<char> {
    join(ps.map(|i: int, p: PatFragV| render_pat_frag(p)), " | "@)
}

/// Renders one pattern parameter.
fn pat_param_text(p: &PatFieldKind) -> (r: Vec<char>)
    ensures
        r@ == render_pat_param(crate::model::pat_field_kind_view(*p)),
{
    match p {
        PatFieldKind::Field { name, ty, .. } => {
            let mut out: Vec<char> = Vec::new();
            match name {
                Some(n) => {
                    app_text(&mut out, n);
                    app_str(&mut out, ": ");
                },
                None => {
                },
            }
            match ty {
                PatTy::Plain(text) => app_text(&mut out, text),
                PatTy::ImplTrait { text, .. } => app_text(&mut out, text),
            }
            proof {
                assert(out@ =~= render_pat_param(crate::model::pat_field_kind_view(*p)));
            }
            out
        },
        PatFieldKind::Variadic { .. } => text_of(".."),
        PatFieldKind::Range { .. } => text_of(".."),
    }
}

/// Renders one pattern composite's parameter list.
fn pat_param_list_text(ps: &Vec<PatFieldKind>) -> (r: Vec<char>)
    ensures
        r@ == join(
            pat_param_seq_view(ps@).map(|i: int, p: PatFieldKindV| render_pat_param(p)),
            ", "@,
        ),
{
    let ghost pv = pat_param_seq_view(ps@);
    let ghost mapped = pv.map(|i: int, p: PatFieldKindV| render_pat_param(p));
    let mut out: Vec<char> = Vec::new();
    let mut i: usize = 0;
    while i < ps.len()
        invariant
            i <= ps@.len(),
            pv == pat_param_seq_view(ps@),
            mapped == pv.map(|k: int, p: PatFieldKindV| render_pat_param(p)),
            out@ == join(mapped.subrange(0, i as int), ", "@),
        decreases ps@.len() - i,
    {
        if i > 0 {
            app_str(&mut out, ", ");
        }
        let mut t = pat_param_text(&ps[i]);
        out.append(&mut t);
        proof {
            assert(pv[i as int] == crate::model::pat_field_kind_view(ps@[i as int]));
            assert(mapped.subrange(0, i + 1int).drop_last() =~= mapped.subrange(0, i as int));
            assert(mapped.subrange(0, i + 1int).last() == render_pat_param(pv[i as int]));
            if i == 0 {
                assert(out@ =~= join(mapped.subrange(0, 1int), ", "@));
            } else {
                assert(out@ =~= join(mapped.subrange(0, i + 1int), ", "@));
            }
        }
        i = i + 1;
    }
    proof {
        assert(mapped.subrange(0, mapped.len() as int) =~= mapped);
    }
    out
}

/// Renders the pattern set of an expression, for diagnostics.
pub fn pattern_set_text(ps: &Vec<PatFrag>) -> (r: Vec<char>)
    ensures
        r@ == render_pattern_set(pat_frag_seq_view(ps@)),
{
    let ghost pv = pat_frag_seq_view(ps@);
    let ghost mapped = pv.map(|i: int, p: PatFragV| render_pat_frag(p));
    let mut out: Vec<char> = Vec::new();
    let mut i: usize = 0;
    while i < ps.len()
        invariant
            i <= ps@.len(),
            pv == pat_frag_seq_view(ps@),
            mapped == pv.map(|k: int, p: PatFragV| render_pat_frag(p)),
            out@ == join(mapped.subrange(0, i as int), " | "@),
        decreases ps@.len() - i,
    {
        if i > 0 {
            app_str(&mut out, " | ");
        }
        match &ps[i].ident {
            Some(n) => app_text(&mut out, n),
            None => {
            },
        }
        match &ps[i].group {
            PatComposite::Unit => {
            },
            PatComposite::Inferred => {
                out.push('_');
            },
            PatComposite::Unnamed(l) => {
                out.push('(');
                let mut t = pat_param_list_text(l);
                out.append(&mut t);
                out.push(')');
            },
            PatComposite::Named(l) => {
                app_str(&mut out, "{ ");
                let mut t = pat_param_list_text(l);
                out.append(&mut t);
                app_str(&mut out, " }");
            },
        }
        proof {
            assert(pv[i as int] == crate::model::pat_frag_view(ps@[i as int]));
            assert(mapped.subrange(0, i + 1int).drop_last() =~= mapped.subrange(0, i as int));
            assert(mapped.subrange(0, i + 1int).last() == render_pat_frag(pv[i as int]));
            if i == 0 {
                assert(out@ =~= join(mapped.subrange(0, 1int), " | "@));
            } else {
                assert(out@ =~= join(mapped.subrange(0, i + 1int), " | "@));
            }
        }
        i = i + 1;
    }
    proof {
        assert(mapped.subrange(0, mapped.len() as int) =~= mapped);
    }
    out
}

// ------------------------------------------------------------------
// Implementation blocks
// ------------------------------------------------------------------
/// The index of the first text equal to `t`, or `-1`.
pub open spec fn find_text(xs: Seq<Seq<char>>, t: Seq<char>) -> int
    decreases xs.len(),
{
    if xs.len() == 0 {
        -1
    } else if xs[0] == t {
        0
    } else {
        let r = find_text(xs.drop_first(), t);
        if r < 0 {
            -1
        } else {
            r + 1
        }
    }
}

pub proof fn lemma_find_text_props(xs: Seq<Seq<char>>, t: Seq<char>)
    ensures
        find_text(xs, t) >= 0 ==> find_text(xs, t) < xs.len() && xs[find_text(xs, t)] == t
            && forall|j: int| 0 <= j < find_text(xs, t) ==> xs[j] != t,
        find_text(xs, t) < 0 ==> forall|j: int| 0 <= j < xs.len() ==> xs[j] != t,
    decreases xs.len(),
{
    if xs.len() > 0 && xs[0] != t {
        let xt = xs.drop_first();
        lemma_find_text_props(xt, t);
        let r = find_text(xt, t);
        if r < 0 {
            assert forall|j: int| 0 <= j < xs.len() implies xs[j] != t by {
                if j > 0 {
                    assert(xt[j - 1] == xs[j]);
                }
            }
        } else {
            assert(xt[r] == xs[r + 1]);
            assert forall|j: int| 0 <= j < r + 1 implies xs[j] != t by {
                if j > 0 {
                    assert(xt[j - 1] == xs[j]);
                }
            }
        }
    }
}

/// The values of the positional (unnamed) arguments of a bound, in
/// order: they instantiate the trait's generic parameters.
pub open spec fn positional(args: Seq<BoundArgV>) -> Seq<Seq<char>>
    decreases args.len(),
{
    if args.len() == 0 {
        Seq::empty()
    } else {
        positional(args.drop_last()) + (if args.last().name is None {
            seq![args.last().value]
        } else {
            Seq::<Seq<char>>::empty()
        })
    }
}

/// One token after substitution: a trait generic parameter becomes the
/// corresponding positional argument, every other token stays.
pub open spec fn subst_tok(t: Seq<char>, gens: Seq<Seq<char>>, pos: Seq<Seq<char>>) -> Seq<char> {
    let j = find_text(gens, t);
    if 0 <= j && j < pos.len() {
        pos[j]
    } else {
        t
    }
}

/// The canonical text of a token run after substitution.
pub open spec fn ty_text(toks: Seq<Seq<char>>, gens: Seq<Seq<char>>, pos: Seq<Seq<char>>) -> Seq<
    char,
> {
    canon_cat(toks.map(|i: int, t: Seq<char>| subst_tok(t, gens, pos)))
}

/// The rendered value parameters of a method, each preceded by a
/// comma: `, rhs: i32`.
pub open spec fn render_mparams(
    ps: Seq<MethodParamV>,
    gens: Seq<Seq<char>>,
    pos: Seq<Seq<char>>,
) -> Seq<char>
    decreases ps.len(),
{
    if ps.len() == 0 {
        Seq::empty()
    } else {
        render_mparams(ps.drop_last(), gens, pos) + ", "@ + ps.last().name + ": "@ + ty_text(
            ps.last().ty,
            gens,
            pos,
        )
    }
}

/// The argument list a forwarding call passes on.
pub open spec fn call_args(ps: Seq<MethodParamV>) -> Seq<char> {
    join(ps.map(|i: int, p: MethodParamV| p.name), ", "@)
}

/// `k` ignored leading positions of a tuple binder.
pub open spec fn underscores(k: int) -> Seq<char>
    decreases k,
{
    if k <= 0 {
        Seq::empty()
    } else {
        underscores(k - 1) + "_, "@
    }
}

/// The binder of one arm: picks the selected field as `val`.
pub open spec fn arm_binder(sig: VariantSigV) -> Seq<char> {
    match sig.field_name {
        Some(f) => " { "@ + f + ": val"@ + (if sig.arity > 1 {
            ", .. }"@
        } else {
            " }"@
        }),
        None => seq!['('] + underscores(sig.field_index) + "val"@ + (if sig.field_index < sig.arity
            - 1 {
            ", ..)"@
        } else {
            seq![')']
        }),
    }
}

/// One forwarding arm: `Enum::V(val, ..) => val.m(args), `.
pub open spec fn render_arm(sig: VariantSigV, mname: Seq<char>, ps: Seq<MethodParamV>) -> Seq<
    char,
> {
    sig.enum_ident + "::"@ + sig.variant_ident + arm_binder(sig) + " => val."@ + mname + seq!['(']
        + call_args(ps) + "), "@
}

/// All attached arms, in attachment order.
pub open spec fn render_arms(
    sigs: Seq<VariantSigV>,
    mname: Seq<char>,
    ps: Seq<MethodParamV>,
) -> Seq<char>
    decreases sigs.len(),
{
    if sigs.len() == 0 {
        Seq::empty()
    } else {
        render_arms(sigs.drop_last(), mname, ps) + render_arm(sigs.last(), mname, ps)
    }
}

/// The trailing catch-all arm: the empty string for `&str` methods, a
/// unit value where nothing is returned, a panic otherwise.
pub open spec fn catchall_arm(ret: Option<Seq<char>>) -> Seq<char> {
    match ret {
        None => "_ => ()"@,
        Some(t) => if t == "&str"@ {
            "_ => \"\""@
        } else {
            "_ => panic!(\"Missing arm\")"@
        },
    }
}

/// The substituted return type of a method, if any.
pub open spec fn ret_opt_text(
    ret: Option<Seq<Seq<char>>>,
    gens: Seq<Seq<char>>,
    pos: Seq<Seq<char>>,
) -> Option<Seq<char>> {
    match ret {
        Some(toks) => Some(ty_text(toks, gens, pos)),
        None => None,
    }
}

/// One synthesized method: a discriminant switch whose arms forward to
/// the selected fields, closed by the catch-all arm.
pub open spec fn render_method(
    m: MethodSigV,
    gens: Seq<Seq<char>>,
    pos: Seq<Seq<char>>,
    sigs: Seq<VariantSigV>,
) -> Seq<char> {
    "fn "@ + m.name + seq!['('] + m.recv + render_mparams(m.params, gens, pos) + seq![')'] + (
    match ret_opt_text(m.ret, gens, pos) {
        Some(t) => " -> "@ + t,
        None => Seq::empty(),
    }) + " { match self { "@ + render_arms(sigs, m.name, m.params) + catchall_arm(
        ret_opt_text(m.ret, gens, pos),
    ) + " } }"@
}

/// All methods of a blueprint, each preceded by a space.
pub open spec fn render_methods(
    ms: Seq<MethodSigV>,
    gens: Seq<Seq<char>>,
    pos: Seq<Seq<char>>,
    sigs: Seq<VariantSigV>,
) -> Seq<char>
    decreases ms.len(),
{
    if ms.len() == 0 {
        Seq::empty()
    } else {
        render_methods(ms.drop_last(), gens, pos, sigs) + seq![' '] + render_method(
            ms.last(),
            gens,
            pos,
            sigs,
        )
    }
}

/// The associated-type bindings of a blueprint, materialized from the
/// bound: ` type Input = str;` for each named argument.
pub open spec fn bindings_text(args: Seq<BoundArgV>) -> Seq<char>
    decreases args.len(),
{
    if args.len() == 0 {
        Seq::empty()
    } else {
        bindings_text(args.drop_last()) + (match args.last().name {
            Some(n) => " type "@ + n + " = "@ + args.last().value + ";"@,
            None => Seq::<char>::empty(),
        })
    }
}

/// One implementation block: header with the subject's generics and
/// where-clause forwarded verbatim, bindings, then the methods.
pub open spec fn render_impl(bp: BlueprintV, s: SubjectV) -> Seq<char> {
    "impl "@ + render_trait_bound(bp.bound) + " for "@ + s.ident + s.generics + render_where(
        s.where_preds,
    ) + " {"@ + bindings_text(bp.bound.args) + render_methods(
        bp.tdef.methods,
        bp.tdef.generics,
        positional(bp.bound.args),
        bp.arms,
    ) + " }"@
}

/// All implementation blocks, one text each.
pub open spec fn render_impls(bps: Seq<BlueprintV>, s: SubjectV) -> Seq<Seq<char>> {
    bps.map(|i: int, b: BlueprintV| render_impl(b, s))
}

/// The final output: the declaration followed by the blocks.
pub open spec fn render_output(subject: Seq<char>, impls: Seq<Seq<char>>) -> Seq<char>
    decreases impls.len(),
{
    if impls.len() == 0 {
        subject
    } else {
        render_output(subject, impls.drop_last()) + seq![' '] + impls.last()
    }
}

/// The diagnostics, one message per line.
pub open spec fn render_msgs(errs: Seq<(Span, Seq<char>)>) -> Seq<char> {
    join(errs.map(|i: int, e: (Span, Seq<char>)| e.1), seq!['\n'])
}

/// The index of the first text equal to `t`, if any.
fn find_text_exec(xs: &Vec<Vec<char>>, t: &Vec<char>) -> (r: Option<usize>)
    ensures
        match r {
            Some(i) => find_text(xs.deep_view(), t@) == i as int && i < xs@.len(),
            None => find_text(xs.deep_view(), t@) < 0,
        },
{
    let ghost xv = xs.deep_view();
    let mut i: usize = 0;
    let n = xs.len();
    while i < n
        invariant
            i <= n,
            n == xs@.len(),
            xv == xs.deep_view(),
            forall|j: int| 0 <= j < i ==> xv[j] != t@,
        decreases n - i,
    {
        if crate::text::text_eq(&xs[i], t) {
            proof {
                assert(xv[i as int] == xs@[i as int]@);
                lemma_find_text_props(xv, t@);
                let f = find_text(xv, t@);
                if f < 0 {
                } else if f < i {
                } else if f > i {
                }
            }
            return Some(i);
        }
        i = i + 1;
    }
    proof {
        lemma_find_text_props(xv, t@);
    }
    None
}

/// The positional argument values of a bound.
fn positional_exec(args: &Vec<BoundArg>) -> (r: Vec<Vec<char>>)
    ensures
        r.deep_view() == positional(bound_arg_seq_view(args@)),
{
    let ghost av = bound_arg_seq_view(args@);
    let mut out: Vec<Vec<char>> = Vec::new();
    let mut i: usize = 0;
    proof {
        assert(out.deep_view() =~= positional(av.subrange(0, 0)));
    }
    while i < args.len()
        invariant
            i <= args@.len(),
            av == bound_arg_seq_view(args@),
            out.deep_view() == positional(av.subrange(0, i as int)),
        decreases args@.len() - i,
    {
        let ghost pre = out.deep_view();
        match &args[i].name {
            Some(_) => {
            },
            None => {
                out.push(copy_text(&args[i].value));
            },
        }
        proof {
            assert(av[i as int] == crate::model::bound_arg_view(args@[i as int]));
            assert(av.subrange(0, i + 1int).drop_last() =~= av.subrange(0, i as int));
            assert(av.subrange(0, i + 1int).last() == av[i as int]);
            if av[i as int].name is None {
                assert(out.deep_view() =~= pre + seq![av[i as int].value]);
            } else {
                assert(out.deep_view() =~= pre + Seq::<Seq<char>>::empty());
            }
        }
        i = i + 1;
    }
    proof {
        assert(av.subrange(0, av.len() as int) =~= av);
    }
    out
}

/// Renders a token run with trait generics substituted.
fn subst_ty_text(toks: &Vec<Vec<char>>, gens: &Vec<Vec<char>>, pos: &Vec<Vec<char>>) -> (r: Vec<
    char,
>)
    ensures
        r@ == ty_text(toks.deep_view(), gens.deep_view(), pos.deep_view()),
{
    let ghost tv = toks.deep_view();
    let ghost gv = gens.deep_view();
    let ghost pv = pos.deep_view();
    let ghost mapped = tv.map(|i: int, t: Seq<char>| subst_tok(t, gv, pv));
    let mut out: Vec<char> = Vec::new();
    let mut i: usize = 0;
    while i < toks.len()
        invariant
            i <= toks@.len(),
            tv == toks.deep_view(),
            gv == gens.deep_view(),
            pv == pos.deep_view(),
            mapped == tv.map(|k: int, t: Seq<char>| subst_tok(t, gv, pv)),
            out@ == canon_cat(mapped.subrange(0, i as int)),
        decreases toks@.len() - i,
    {
        let tok = match find_text_exec(gens, &toks[i]) {
            Some(j) => {
                if j < pos.len() {
                    copy_text(&pos[j])
                } else {
                    copy_text(&toks[i])
                }
            },
            None => copy_text(&toks[i]),
        };
        proof {
            assert(tv[i as int] == toks@[i as int]@);
            assert(tok@ == subst_tok(tv[i as int], gv, pv));
        }
        canon_push(&mut out, &tok);
        proof {
            assert(mapped.subrange(0, i + 1int).drop_last() =~= mapped.subrange(0, i as int));
            assert(mapped.subrange(0, i + 1int).last() == mapped[i as int]);
        }
        i = i + 1;
    }
    proof {
        assert(mapped.subrange(0, mapped.len() as int) =~= mapped);
    }
    out
}

/// Renders the value parameters of a method.
fn mparams_text(ps: &Vec<MethodParam>, gens: &Vec<Vec<char>>, pos: &Vec<Vec<char>>) -> (r: Vec<
    char,
>)
    ensures
        r@ == render_mparams(
            ps@.map(|i: int, p: MethodParam| crate::model::method_param_view(p)),
            gens.deep_view(),
            pos.deep_view(),
        ),
{
    let ghost pv = ps@.map(|i: int, p: MethodParam| crate::model::method_param_view(p));
    let ghost gv = gens.deep_view();
    let ghost av = pos.deep_view();
    let mut out: Vec<char> = Vec::new();
    let mut i: usize = 0;
    while i < ps.len()
        invariant
            i <= ps@.len(),
            pv == ps@.map(|k: int, p: MethodParam| crate::model::method_param_view(p)),
            gv == gens.deep_view(),
            av == pos.deep_view(),
            out@ == render_mparams(pv.subrange(0, i as int), gv, av),
        decreases ps@.len() - i,
    {
        app_str(&mut out, ", ");
        app_text(&mut out, &ps[i].name);
        app_str(&mut out, ": ");
        let mut t = subst_ty_text(&ps[i].ty, gens, pos);
        out.append(&mut t);
        proof {
            assert(pv[i as int] == crate::model::method_param_view(ps@[i as int]));
            assert(pv.subrange(0, i + 1int).drop_last() =~= pv.subrange(0, i as int));
            assert(pv.subrange(0, i + 1int).last() == pv[i as int]);
            assert(out@ =~= render_mparams(pv.subrange(0, i + 1int), gv, av));
        }
        i = i + 1;
    }
    proof {
        assert(pv.subrange(0, pv.len() as int) =~= pv);
    }
    out
}

/// Renders the forwarded argument list of a method call.
fn call_args_text(ps: &Vec<MethodParam>) -> (r: Vec<char>)
    ensures
        r@ == call_args(ps@.map(|i: int, p: MethodParam| crate::model::method_param_view(p))),
{
    let ghost pv = ps@.map(|i: int, p: MethodParam| crate::model::method_param_view(p));
    let ghost mapped = pv.map(|i: int, p: MethodParamV| p.name);
    let mut out: Vec<char> = Vec::new();
    let mut i: usize = 0;
    while i < ps.len()
        invariant
            i <= ps@.len(),
            pv == ps@.map(|k: int, p: MethodParam| crate::model::method_param_view(p)),
            mapped == pv.map(|k: int, p: MethodParamV| p.name),
            out@ == join(mapped.subrange(0, i as int), ", "@),
        decreases ps@.len() - i,
    {
        if i > 0 {
            app_str(&mut out, ", ");
        }
        app_text(&mut out, &ps[i].name);
        proof {
            assert(pv[i as int] == crate::model::method_param_view(ps@[i as int]));
            assert(mapped.subrange(0, i + 1int).drop_last() =~= mapped.subrange(0, i as int));
            assert(mapped.subrange(0, i + 1int).last() == mapped[i as int]);
            if i == 0 {
                assert(out@ =~= join(mapped.subrange(0, 1int), ", "@));
            } else {
                assert(out@ =~= join(mapped.subrange(0, i + 1int), ", "@));
            }
        }
        i = i + 1;
    }
    proof {
        assert(mapped.subrange(0, mapped.len() as int) =~= mapped);
    }
    out
}

/// Renders one forwarding arm.
fn arm_text(sig: &VariantSig, mname: &Vec<char>, ps: &Vec<MethodParam>) -> (r: Vec<char>)
    ensures
        r@ == render_arm(
            sig_view(*sig),
            mname@,
            ps@.map(|i: int, p: MethodParam| crate::model::method_param_view(p)),
        ),
{
    let mut out: Vec<char> = Vec::new();
    app_text(&mut out, &sig.enum_ident);
    app_str(&mut out, "::");
    app_text(&mut out, &sig.variant_ident);
    match &sig.field_name {
        Some(f) => {
            app_str(&mut out, " { ");
            app_text(&mut out, f);
            app_str(&mut out, ": val");
            if sig.arity > 1 {
                app_str(&mut out, ", .. }");
            } else {
                app_str(&mut out, " }");
            }
        },
        None => {
            out.push('(');
            let mut k: usize = 0;
            let ghost base = out@;
            while k < sig.field_index
                invariant
                    k <= sig.field_index,
                    out@ == base + underscores(k as int),
                decreases sig.field_index - k,
            {
                app_str(&mut out, "_, ");
                k = k + 1;
            }
            app_str(&mut out, "val");
            if sig.field_index < sig.arity && sig.field_index + 1 < sig.arity {
                app_str(&mut out, ", ..)");
            } else {
                out.push(')');
            }
        },
    }
    app_str(&mut out, " => val.");
    app_text(&mut out, mname);
    out.push('(');
    let mut args = call_args_text(ps);
    out.append(&mut args);
    app_str(&mut out, "), ");
    proof {
        assert(out@ =~= render_arm(
            sig_view(*sig),
            mname@,
            ps@.map(|i: int, p: MethodParam| crate::model::method_param_view(p)),
        ));
    }
    out
}

/// Renders all attached arms.
fn arms_text(sigs: &Vec<VariantSig>, mname: &Vec<char>, ps: &Vec<MethodParam>) -> (r: Vec<char>)
    ensures
        r@ == render_arms(
            sig_seq_view(sigs@),
            mname@,
            ps@.map(|i: int, p: MethodParam| crate::model::method_param_view(p)),
        ),
{
    let ghost sv = sig_seq_view(sigs@);
    let ghost pv = ps@.map(|i: int, p: MethodParam| crate::model::method_param_view(p));
    let mut out: Vec<char> = Vec::new();
    let mut i: usize = 0;
    while i < sigs.len()
        invariant
            i <= sigs@.len(),
            sv == sig_seq_view(sigs@),
            pv == ps@.map(|k: int, p: MethodParam| crate::model::method_param_view(p)),
            out@ == render_arms(sv.subrange(0, i as int), mname@, pv),
        decreases sigs@.len() - i,
    {
        let mut t = arm_text(&sigs[i], mname, ps);
        out.append(&mut t);
        proof {
            assert(sv[i as int] == sig_view(sigs@[i as int]));
            assert(sv.subrange(0, i + 1int).drop_last() =~= sv.subrange(0, i as int));
            assert(sv.subrange(0, i + 1int).last() == sv[i as int]);
        }
        i = i + 1;
    }
    proof {
        assert(sv.subrange(0, sv.len() as int) =~= sv);
    }
    out
}

/// Renders one synthesized method.
fn method_text(
    m: &MethodSig,
    gens: &Vec<Vec<char>>,
    pos: &Vec<Vec<char>>,
    sigs: &Vec<VariantSig>,
) -> (r: Vec<char>)
    ensures
        r@ == render_method(
            crate::model::method_sig_view(*m),
            gens.deep_view(),
            pos.deep_view(),
            sig_seq_view(sigs@),
        ),
{
    let mut out: Vec<char> = Vec::new();
    app_str(&mut out, "fn ");
    app_text(&mut out, &m.name);
    out.push('(');
    app_text(&mut out, &m.recv);
    let mut params = mparams_text(&m.params, gens, pos);
    out.append(&mut params);
    out.push(')');
    let ret_text: Option<Vec<char>> = match &m.ret {
        Some(toks) => Some(subst_ty_text(toks, gens, pos)),
        None => None,
    };
    match &ret_text {
        Some(t) => {
            app_str(&mut out, " -> ");
            app_text(&mut out, t);
        },
        None => {
        },
    }
    app_str(&mut out, " { match self { ");
    let mut arms = arms_text(sigs, &m.name, &m.params);
    out.append(&mut arms);
    match &ret_text {
        Some(t) => {
            let lit = text_of("&str");
            if crate::text::text_eq(t, &lit) {
                app_str(&mut out, "_ => \"\"");
            } else {
                app_str(&mut out, "_ => panic!(\"Missing arm\")");
            }
        },
        None => {
            app_str(&mut out, "_ => ()");
        },
    }
    app_str(&mut out, " } }");
    proof {
        let mv = crate::model::method_sig_view(*m);
        assert(out@ =~= render_method(mv, gens.deep_view(), pos.deep_view(), sig_seq_view(sigs@)));
    }
    out
}

/// Renders all methods of a blueprint.
fn methods_text(
    ms: &Vec<MethodSig>,
    gens: &Vec<Vec<char>>,
    pos: &Vec<Vec<char>>,
    sigs: &Vec<VariantSig>,
) -> (r: Vec<char>)
    ensures
        r@ == render_methods(
            ms@.map(|i: int, m: MethodSig| crate::model::method_sig_view(m)),
            gens.deep_view(),
            pos.deep_view(),
            sig_seq_view(sigs@),
        ),
{
    let ghost mv = ms@.map(|i: int, m: MethodSig| crate::model::method_sig_view(m));
    let ghost gv = gens.deep_view();
    let ghost av = pos.deep_view();
    let ghost sv = sig_seq_view(sigs@);
    let mut out: Vec<char> = Vec::new();
    let mut i: usize = 0;
    while i < ms.len()
        invariant
            i <= ms@.len(),
            mv == ms@.map(|k: int, m: MethodSig| crate::model::method_sig_view(m)),
            gv == gens.deep_view(),
            av == pos.deep_view(),
            sv == sig_seq_view(sigs@),
            out@ == render_methods(mv.subrange(0, i as int), gv, av, sv),
        decreases ms@.len() - i,
    {
        out.push(' ');
        let mut t = method_text(&ms[i], gens, pos, sigs);
        out.append(&mut t);
        proof {
            assert(mv[i as int] == crate::model::method_sig_view(ms@[i as int]));
            assert(mv.subrange(0, i + 1int).drop_last() =~= mv.subrange(0, i as int));
            assert(mv.subrange(0, i + 1int).last() == mv[i as int]);
            assert(out@ =~= render_methods(mv.subrange(0, i + 1int), gv, av, sv));
        }
        i = i + 1;
    }
    proof {
        assert(mv.subrange(0, mv.len() as int) =~= mv);
    }
    out
}

/// Renders the associated-type bindings of a blueprint.
fn bindings_text_exec(args: &Vec<BoundArg>) -> (r: Vec<char>)
    ensures
        r@ == bindings_text(bound_arg_seq_view(args@)),
{
    let ghost av = bound_arg_seq_view(args@);
    let mut out: Vec<char> = Vec::new();
    let mut i: usize = 0;
    while i < args.len()
        invariant
            i <= args@.len(),
            av == bound_arg_seq_view(args@),
            out@ == bindings_text(av.subrange(0, i as int)),
        decreases args@.len() - i,
    {
        match &args[i].name {
            Some(n) => {
                app_str(&mut out, " type ");
                app_text(&mut out, n);
                app_str(&mut out, " = ");
                app_text(&mut out, &args[i].value);
                app_str(&mut out, ";");
            },
            None => {
            },
        }
        proof {
            assert(av[i as int] == crate::model::bound_arg_view(args@[i as int]));
            assert(av.subrange(0, i + 1int).drop_last() =~= av.subrange(0, i as int));
            assert(av.subrange(0, i + 1int).last() == av[i as int]);
            assert(out@ =~= bindings_text(av.subrange(0, i + 1int)));
        }
        i = i + 1;
    }
    proof {
        assert(av.subrange(0, av.len() as int) =~= av);
    }
    out
}

/// Renders one implementation block.
pub fn impl_text(bp: &Blueprint, s: &Subject) -> (r: Vec<char>)
    ensures
        r@ == render_impl(blueprint_view(*bp), subject_view(*s)),
{
    let mut out: Vec<char> = Vec::new();
    app_str(&mut out, "impl ");
    let mut tb = trait_bound_text(&bp.bound);
    out.append(&mut tb);
    app_str(&mut out, " for ");
    app_text(&mut out, &s.ident);
    app_text(&mut out, &s.generics);
    let mut w = where_text(&s.where_preds);
    out.append(&mut w);
    app_str(&mut out, " {");
    let mut b = bindings_text_exec(&bp.bound.args);
    out.append(&mut b);
    let pos = positional_exec(&bp.bound.args);
    let mut ms = methods_text(&bp.tdef.methods, &bp.tdef.generics, &pos, &bp.arms);
    out.append(&mut ms);
    app_str(&mut out, " }");
    proof {
        assert(out@ =~= render_impl(blueprint_view(*bp), subject_view(*s)));
    }
    out
}

/// Renders every blueprint's implementation block.
pub fn impls_text(bps: &Vec<Blueprint>, s: &Subject) -> (r: Vec<Vec<char>>)
    ensures
        r.deep_view() == render_impls(blueprint_seq_view(bps@), subject_view(*s)),
{
    let ghost bv = blueprint_seq_view(bps@);
    let ghost mapped = bv.map(|i: int, b: BlueprintV| render_impl(b, subject_view(*s)));
    let mut out: Vec<Vec<char>> = Vec::new();
    let mut i: usize = 0;
    while i < bps.len()
        invariant
            i <= bps@.len(),
            bv == blueprint_seq_view(bps@),
            mapped == bv.map(|k: int, b: BlueprintV| render_impl(b, subject_view(*s))),
            out.deep_view() == mapped.subrange(0, i as int),
        decreases bps@.len() - i,
    {
        out.push(impl_text(&bps[i], s));
        proof {
            assert(bv[i as int] == blueprint_view(bps@[i as int]));
            assert(out.deep_view() =~= mapped.subrange(0, i + 1int));
        }
        i = i + 1;
    }
    proof {
        assert(mapped.subrange(0, mapped.len() as int) =~= mapped);
    }
    out
}

/// Renders the final output: declaration, then the blocks.
pub fn output_text(subject: &Vec<char>, impls: &Vec<Vec<char>>) -> (r: Vec<char>)
    ensures
        r@ == render_output(subject@, impls.deep_view()),
{
    let ghost iv = impls.deep_view();
    let mut out = copy_text(subject);
    let mut i: usize = 0;
    while i < impls.len()
        invariant
            i <= impls@.len(),
            iv == impls.deep_view(),
            out@ == render_output(subject@, iv.subrange(0, i as int)),
        decreases impls@.len() - i,
    {
        out.push(' ');
        app_text(&mut out, &impls[i]);
        proof {
            assert(iv.subrange(0, i + 1int).drop_last() =~= iv.subrange(0, i as int));
            assert(iv.subrange(0, i + 1int).last() == iv[i as int]);
        }
        i = i + 1;
    }
    proof {
        assert(iv.subrange(0, iv.len() as int) =~= iv);
    }
    out
}

/// Renders the accumulated diagnostics, one message per line.
pub fn msgs_text(errs: &Vec<Diag>) -> (r: Vec<char>)
    ensures
        r@ == render_msgs(errs@.map(|i: int, d: Diag| crate::error::diag_view(d))),
{
    let ghost ev = errs@.map(|i: int, d: Diag| crate::error::diag_view(d));
    let ghost mapped = ev.map(|i: int, e: (Span, Seq<char>)| e.1);
    let mut out: Vec<char> = Vec::new();
    let mut i: usize = 0;
    while i < errs.len()
        invariant
            i <= errs@.len(),
            ev == errs@.map(|k: int, d: Diag| crate::error::diag_view(d)),
            mapped == ev.map(|k: int, e: (Span, Seq<char>)| e.1),
            out@ == join(mapped.subrange(0, i as int), seq!['\n']),
        decreases errs@.len() - i,
    {
        if i > 0 {
            out.push('\n');
        }
        app_text(&mut out, &errs[i].msg);
        proof {
            assert(ev[i as int] == crate::error::diag_view(errs@[i as int]));
            assert(mapped.subrange(0, i + 1int).drop_last() =~= mapped.subrange(0, i as int));
            assert(mapped.subrange(0, i + 1int).last() == mapped[i as int]);
            if i == 0 {
                assert(out@ =~= join(mapped.subrange(0, 1int), seq!['\n']));
            } else {
                assert(out@ =~= join(mapped.subrange(0, i + 1int), seq!['\n']));
            }
        }
        i = i + 1;
    }
    proof {
        assert(mapped.subrange(0, mapped.len() as int) =~= mapped);
    }
    out
}

} // verus!
