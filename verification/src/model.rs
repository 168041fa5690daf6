//! The syntax model: pattern expressions, clauses and subjects, plus
//! the registry records for dispatchable traits.
//!
//! All texts are canonical token texts (see `text`).  Each model type
//! has a spec-level view used by the engine's contracts.

use vstd::prelude::*;

use crate::error::Span;

verus! {

broadcast use crate::text::lemma_text_deep_view, crate::text::lemma_texts_deep_view;

// ------------------------------------------------------------------
// Subjects
// ------------------------------------------------------------------
/// One field of a variant: an optional name, the canonical text of
/// its type, and the span of the type in the source.
pub struct Field {
    pub name: Option<Vec<char>>,
    pub ty: Vec<char>,
    pub span: Span,
}

/// The fields of a variant, in the three composite forms.
pub enum Fields {
    Unit,
    Unnamed(Vec<Field>),
    Named(Vec<Field>),
}

/// One variant of the subject.
pub struct Variant {
    pub ident: Vec<char>,
    pub ident_span: Span,
    pub fields: Fields,
    pub fields_span: Span,
}

/// The declaration under validation: an enum-like subject.  Its
/// generics and any where-predicates it already carries are kept as
/// canonical text and forwarded verbatim.
pub struct Subject {
    pub ident: Vec<char>,
    pub ident_span: Span,
    pub generics: Vec<char>,
    pub where_preds: Vec<Vec<char>>,
    pub variants: Vec<Variant>,
}

pub struct FieldV {
    pub name: Option<Seq<char>>,
    pub ty: Seq<char>,
    pub span: Span,
}

pub enum FieldsV {
    Unit,
    Unnamed(Seq<FieldV>),
    Named(Seq<FieldV>),
}

pub struct VariantV {
    pub ident: Seq<char>,
    pub ident_span: Span,
    pub fields: FieldsV,
    pub fields_span: Span,
}

pub struct SubjectV {
    pub ident: Seq<char>,
    pub ident_span: Span,
    pub generics: Seq<char>,
    pub where_preds: Seq<Seq<char>>,
    pub variants: Seq<VariantV>,
}

pub open spec fn field_view(f: Field) -> FieldV {
    FieldV { name: f.name.deep_view(), ty: f.ty@, span: f.span }
}

pub open spec fn field_seq_view(fs: Seq<Field>) -> Seq<FieldV> {
    fs.map(|i: int, f: Field| field_view(f))
}

pub open spec fn fields_view(f: Fields) -> FieldsV {
    match f {
        Fields::Unit => FieldsV::Unit,
        Fields::Unnamed(fs) => FieldsV::Unnamed(field_seq_view(fs@)),
        Fields::Named(fs) => FieldsV::Named(field_seq_view(fs@)),
    }
}

/// The fields of a composite as a flat list.
pub open spec fn fields_list(f: FieldsV) -> Seq<FieldV> {
    match f {
        FieldsV::Unit => Seq::empty(),
        FieldsV::Unnamed(fs) => fs,
        FieldsV::Named(fs) => fs,
    }
}

pub open spec fn variant_view(v: Variant) -> VariantV {
    VariantV {
        ident: v.ident@,
        ident_span: v.ident_span,
        fields: fields_view(v.fields),
        fields_span: v.fields_span,
    }
}

pub open spec fn variant_seq_view(vs: Seq<Variant>) -> Seq<VariantV> {
    vs.map(|i: int, v: Variant| variant_view(v))
}

pub open spec fn subject_view(s: Subject) -> SubjectV {
    SubjectV {
        ident: s.ident@,
        ident_span: s.ident_span,
        generics: s.generics@,
        where_preds: s.where_preds.deep_view(),
        variants: variant_seq_view(s.variants@),
    }
}

// ------------------------------------------------------------------
// Patterns
// ------------------------------------------------------------------
/// The type written at a pattern position: a plain type held as
/// canonical text, or an `impl TraitSet` position with its bounds.
pub enum PatTy {
    Plain(Vec<char>),
    ImplTrait { bounds: Vec<Bound>, text: Vec<char> },
}

/// One parameter of a pattern composite: a typed field, the trailing
/// variadic `..`, or a range marker `..N` (treated as a variadic).
pub enum PatFieldKind {
    Field { name: Option<Vec<char>>, ty: PatTy, span: Span },
    Variadic { span: Span },
    Range { span: Span },
}

/// The delimited parameter group of a pattern fragment.
pub enum PatComposite {
    Unit,
    Unnamed(Vec<PatFieldKind>),
    Named(Vec<PatFieldKind>),
    Inferred,
}

/// One alternative of a pattern expression.
pub struct PatFrag {
    pub ident: Option<Vec<char>>,
    pub group: PatComposite,
}

pub enum PatTyV {
    Plain(Seq<char>),
    ImplTrait { bounds: Seq<BoundV>, text: Seq<char> },
}

pub enum PatFieldKindV {
    Field { name: Option<Seq<char>>, ty: PatTyV, span: Span },
    Variadic { span: Span },
    Range { span: Span },
}

pub enum PatCompositeV {
    Unit,
    Unnamed(Seq<PatFieldKindV>),
    Named(Seq<PatFieldKindV>),
    Inferred,
}

pub struct PatFragV {
    pub ident: Option<Seq<char>>,
    pub group: PatCompositeV,
}

pub open spec fn pat_ty_view(t: PatTy) -> PatTyV {
    match t {
        PatTy::Plain(text) => PatTyV::Plain(text@),
        PatTy::ImplTrait { bounds, text } => PatTyV::ImplTrait {
            bounds: bound_seq_view(bounds@),
            text: text@,
        },
    }
}

pub open spec fn pat_field_kind_view(p: PatFieldKind) -> PatFieldKindV {
    match p {
        PatFieldKind::Field { name, ty, span } => PatFieldKindV::Field {
            name: name.deep_view(),
            ty: pat_ty_view(ty),
            span,
        },
        PatFieldKind::Variadic { span } => PatFieldKindV::Variadic { span },
        PatFieldKind::Range { span } => PatFieldKindV::Range { span },
    }
}

pub open spec fn pat_param_seq_view(ps: Seq<PatFieldKind>) -> Seq<PatFieldKindV> {
    ps.map(|i: int, p: PatFieldKind| pat_field_kind_view(p))
}

pub open spec fn pat_composite_view(c: PatComposite) -> PatCompositeV {
    match c {
        PatComposite::Unit => PatCompositeV::Unit,
        PatComposite::Unnamed(ps) => PatCompositeV::Unnamed(pat_param_seq_view(ps@)),
        PatComposite::Named(ps) => PatCompositeV::Named(pat_param_seq_view(ps@)),
        PatComposite::Inferred => PatCompositeV::Inferred,
    }
}

pub open spec fn pat_frag_view(p: PatFrag) -> PatFragV {
    PatFragV { ident: p.ident.deep_view(), group: pat_composite_view(p.group) }
}

pub open spec fn pat_frag_seq_view(ps: Seq<PatFrag>) -> Seq<PatFragV> {
    ps.map(|i: int, p: PatFrag| pat_frag_view(p))
}

/// The composite invariant the parser establishes: a delimited
/// composite holds at least one parameter — a composite is unit iff
/// it has none.
pub open spec fn composite_wf(c: PatCompositeV) -> bool {
    match c {
        PatCompositeV::Unnamed(ps) => ps.len() > 0,
        PatCompositeV::Named(ps) => ps.len() > 0,
        PatCompositeV::Unit => true,
        PatCompositeV::Inferred => true,
    }
}

/// Well-formedness of a whole pattern list: every fragment's
/// composite satisfies the composite invariant.
pub open spec fn pattern_wf(ps: Seq<PatFragV>) -> bool {
    forall|i: int| 0 <= i < ps.len() ==> composite_wf((#[trigger] ps[i]).group)
}

/// The parameters of a pattern composite as a flat list; an inferred
/// composite has no explicit parameters.
pub open spec fn pat_params(c: PatCompositeV) -> Seq<PatFieldKindV> {
    match c {
        PatCompositeV::Unit => Seq::empty(),
        PatCompositeV::Unnamed(ps) => ps,
        PatCompositeV::Named(ps) => ps,
        PatCompositeV::Inferred => Seq::empty(),
    }
}

// ------------------------------------------------------------------
// Clauses
// ------------------------------------------------------------------
/// One generic argument of a trait bound: `value`, or the binding
/// `name = value` of an associated type.
pub struct BoundArg {
    pub name: Option<Vec<char>>,
    pub value: Vec<char>,
}

/// The modifier in front of a trait bound.
#[derive(Clone, Copy, PartialEq, Eq, Structural, Debug)]
pub enum BoundModifier {
    Plain,
    Dispatch,
    Maybe,
}

/// One trait bound: modifier, trait name, generic arguments.
pub struct TraitBound {
    pub modifier: BoundModifier,
    pub name: Vec<char>,
    pub args: Vec<BoundArg>,
    pub span: Span,
}

/// One bound of a type predicate: a trait bound or a lifetime.
pub enum Bound {
    Trait(TraitBound),
    Lifetime { span: Span, text: Vec<char> },
}

/// One predicate of the expression's where-clause.
pub enum WherePred {
    Type { span: Span, bounded_ty: Vec<char>, bounds: Vec<Bound> },
    Lifetime { span: Span },
}

/// The optional where-clause of a pattern expression.
pub struct Clause {
    pub predicates: Vec<WherePred>,
}

/// A pattern expression: alternatives plus an optional clause.
pub struct PenumExpr {
    pub pattern: Vec<PatFrag>,
    pub clause: Option<Clause>,
}

pub struct BoundArgV {
    pub name: Option<Seq<char>>,
    pub value: Seq<char>,
}

pub struct TraitBoundV {
    pub modifier: BoundModifier,
    pub name: Seq<char>,
    pub args: Seq<BoundArgV>,
    pub span: Span,
}

pub enum BoundV {
    Trait(TraitBoundV),
    Lifetime { span: Span, text: Seq<char> },
}

pub enum WherePredV {
    Type { span: Span, bounded_ty: Seq<char>, bounds: Seq<BoundV> },
    Lifetime { span: Span },
}

pub open spec fn bound_arg_view(a: BoundArg) -> BoundArgV {
    BoundArgV { name: a.name.deep_view(), value: a.value@ }
}

pub open spec fn bound_arg_seq_view(args: Seq<BoundArg>) -> Seq<BoundArgV> {
    args.map(|i: int, a: BoundArg| bound_arg_view(a))
}

pub open spec fn trait_bound_view(b: TraitBound) -> TraitBoundV {
    TraitBoundV {
        modifier: b.modifier,
        name: b.name@,
        args: bound_arg_seq_view(b.args@),
        span: b.span,
    }
}

pub open spec fn bound_view(b: Bound) -> BoundV {
    match b {
        Bound::Trait(t) => BoundV::Trait(trait_bound_view(t)),
        Bound::Lifetime { span, text } => BoundV::Lifetime { span, text: text@ },
    }
}

pub open spec fn bound_seq_view(bs: Seq<Bound>) -> Seq<BoundV> {
    bs.map(|i: int, b: Bound| bound_view(b))
}

pub open spec fn where_pred_view(p: WherePred) -> WherePredV {
    match p {
        WherePred::Type { span, bounded_ty, bounds } => WherePredV::Type {
            span,
            bounded_ty: bounded_ty@,
            bounds: bound_seq_view(bounds@),
        },
        WherePred::Lifetime { span } => WherePredV::Lifetime { span },
    }
}

pub open spec fn pred_seq_view(ps: Seq<WherePred>) -> Seq<WherePredV> {
    ps.map(|i: int, p: WherePred| where_pred_view(p))
}

/// The predicates of an optional clause, an absent clause counting as
/// empty.
pub open spec fn clause_preds_view(c: Option<Clause>) -> Seq<WherePredV> {
    match c {
        Some(cl) => pred_seq_view(cl.predicates@),
        None => Seq::empty(),
    }
}

pub struct PenumExprV {
    pub pattern: Seq<PatFragV>,
    pub clause_preds: Seq<WherePredV>,
    pub has_clause: bool,
}

pub open spec fn expr_view(e: PenumExpr) -> PenumExprV {
    PenumExprV {
        pattern: pat_frag_seq_view(e.pattern@),
        clause_preds: clause_preds_view(e.clause),
        has_clause: e.clause is Some,
    }
}

// ------------------------------------------------------------------
// Trait registry records
// ------------------------------------------------------------------
/// One value parameter of a trait method: its name and the tokens of
/// its type (tokens, so that trait generics can be substituted).
pub struct MethodParam {
    pub name: Vec<char>,
    pub ty: Vec<Vec<char>>,
}

/// One method of a registered trait: name, receiver text, value
/// parameters, and the tokens of the return type, if any.
pub struct MethodSig {
    pub name: Vec<char>,
    pub recv: Vec<char>,
    pub params: Vec<MethodParam>,
    pub ret: Option<Vec<Vec<char>>>,
}

/// A registered trait: its name, generic parameter names, associated
/// type names, and method signatures.
pub struct TraitDef {
    pub name: Vec<char>,
    pub generics: Vec<Vec<char>>,
    pub assoc_types: Vec<Vec<char>>,
    pub methods: Vec<MethodSig>,
}

pub struct MethodParamV {
    pub name: Seq<char>,
    pub ty: Seq<Seq<char>>,
}

pub struct MethodSigV {
    pub name: Seq<char>,
    pub recv: Seq<char>,
    pub params: Seq<MethodParamV>,
    pub ret: Option<Seq<Seq<char>>>,
}

pub struct TraitDefV {
    pub name: Seq<char>,
    pub generics: Seq<Seq<char>>,
    pub assoc_types: Seq<Seq<char>>,
    pub methods: Seq<MethodSigV>,
}

pub open spec fn method_param_view(p: MethodParam) -> MethodParamV {
    MethodParamV { name: p.name@, ty: p.ty.deep_view() }
}

pub open spec fn method_sig_view(m: MethodSig) -> MethodSigV {
    MethodSigV {
        name: m.name@,
        recv: m.recv@,
        params: m.params@.map(|i: int, p: MethodParam| method_param_view(p)),
        ret: match m.ret {
            Some(t) => Some(t.deep_view()),
            None => None,
        },
    }
}

pub open spec fn trait_def_view(t: TraitDef) -> TraitDefV {
    TraitDefV {
        name: t.name@,
        generics: t.generics.deep_view(),
        assoc_types: t.assoc_types.deep_view(),
        methods: t.methods@.map(|i: int, m: MethodSig| method_sig_view(m)),
    }
}

pub open spec fn trait_def_seq_view(ts: Seq<TraitDef>) -> Seq<TraitDefV> {
    ts.map(|i: int, t: TraitDef| trait_def_view(t))
}

// ------------------------------------------------------------------
// Copies
// ------------------------------------------------------------------
/// Copies a list of texts.
pub fn copy_texts(v: &Vec<Vec<char>>) -> (r: Vec<Vec<char>>)
    ensures
        r.deep_view() == v.deep_view(),
{
    let mut out: Vec<Vec<char>> = Vec::new();
    let mut i: usize = 0;
    while i < v.len()
        invariant
            i <= v@.len(),
            out.deep_view() == v.deep_view().subrange(0, i as int),
        decreases v@.len() - i,
    {
        out.push(crate::text::copy_text(&v[i]));
        proof {
            assert(out.deep_view() =~~= v.deep_view().subrange(0, i + 1int));
        }
        i = i + 1;
    }
    proof {
        assert(v.deep_view().subrange(0, v.deep_view().len() as int) =~~= v.deep_view());
    }
    out
}

/// Copies a bound argument.
pub fn copy_bound_arg(a: &BoundArg) -> (r: BoundArg)
    ensures
        bound_arg_view(r) == bound_arg_view(*a),
{
    BoundArg {
        name: crate::text::copy_opt_text(&a.name),
        value: crate::text::copy_text(&a.value),
    }
}

/// Copies a trait bound.
pub fn copy_trait_bound(b: &TraitBound) -> (r: TraitBound)
    ensures
        trait_bound_view(r) == trait_bound_view(*b),
{
    let mut args: Vec<BoundArg> = Vec::new();
    let mut i: usize = 0;
    while i < b.args.len()
        invariant
            i <= b.args@.len(),
            args@.len() == i,
            bound_arg_seq_view(args@) == bound_arg_seq_view(b.args@).subrange(0, i as int),
        decreases b.args@.len() - i,
    {
        args.push(copy_bound_arg(&b.args[i]));
        proof {
            assert(bound_arg_seq_view(args@) =~= bound_arg_seq_view(b.args@).subrange(
                0,
                i + 1int,
            ));
        }
        i = i + 1;
    }
    proof {
        assert(bound_arg_seq_view(b.args@).subrange(0, b.args@.len() as int) =~= bound_arg_seq_view(
            b.args@,
        ));
    }
    TraitBound {
        modifier: b.modifier,
        name: crate::text::copy_text(&b.name),
        args,
        span: b.span,
    }
}

/// Copies one bound.
pub fn copy_bound(b: &Bound) -> (r: Bound)
    ensures
        bound_view(r) == bound_view(*b),
{
    match b {
        Bound::Trait(tb) => Bound::Trait(copy_trait_bound(tb)),
        Bound::Lifetime { span, text } => Bound::Lifetime {
            span: *span,
            text: crate::text::copy_text(text),
        },
    }
}

/// Copies a bound list.
pub fn copy_bounds(bs: &Vec<Bound>) -> (r: Vec<Bound>)
    ensures
        bound_seq_view(r@) == bound_seq_view(bs@),
{
    let mut out: Vec<Bound> = Vec::new();
    let mut i: usize = 0;
    while i < bs.len()
        invariant
            i <= bs@.len(),
            out@.len() == i,
            bound_seq_view(out@) == bound_seq_view(bs@).subrange(0, i as int),
        decreases bs@.len() - i,
    {
        out.push(copy_bound(&bs[i]));
        proof {
            assert(bound_seq_view(out@) =~= bound_seq_view(bs@).subrange(0, i + 1int));
        }
        i = i + 1;
    }
    proof {
        assert(bound_seq_view(bs@).subrange(0, bs@.len() as int) =~= bound_seq_view(bs@));
    }
    out
}

/// Copies a method parameter.
pub fn copy_method_param(p: &MethodParam) -> (r: MethodParam)
    ensures
        method_param_view(r) == method_param_view(*p),
{
    MethodParam { name: crate::text::copy_text(&p.name), ty: copy_texts(&p.ty) }
}

/// Copies a method signature.
pub fn copy_method_sig(m: &MethodSig) -> (r: MethodSig)
    ensures
        method_sig_view(r) == method_sig_view(*m),
{
    let mut params: Vec<MethodParam> = Vec::new();
    let mut i: usize = 0;
    let ghost pv = m.params@.map(|k: int, p: MethodParam| method_param_view(p));
    while i < m.params.len()
        invariant
            i <= m.params@.len(),
            params@.len() == i,
            pv == m.params@.map(|k: int, p: MethodParam| method_param_view(p)),
            params@.map(|k: int, p: MethodParam| method_param_view(p)) == pv.subrange(0, i as int),
        decreases m.params@.len() - i,
    {
        params.push(copy_method_param(&m.params[i]));
        proof {
            assert(params@.map(|k: int, p: MethodParam| method_param_view(p)) =~= pv.subrange(
                0,
                i + 1int,
            ));
        }
        i = i + 1;
    }
    proof {
        assert(pv.subrange(0, pv.len() as int) =~= pv);
    }
    let ret: Option<Vec<Vec<char>>> = match &m.ret {
        Some(t) => Some(copy_texts(t)),
        None => None,
    };
    MethodSig { name: crate::text::copy_text(&m.name), recv: crate::text::copy_text(&m.recv), params, ret }
}

/// Copies a trait record.
pub fn copy_trait_def(t: &TraitDef) -> (r: TraitDef)
    ensures
        trait_def_view(r) == trait_def_view(*t),
{
    let mut methods: Vec<MethodSig> = Vec::new();
    let mut i: usize = 0;
    let ghost mv = t.methods@.map(|k: int, m: MethodSig| method_sig_view(m));
    while i < t.methods.len()
        invariant
            i <= t.methods@.len(),
            methods@.len() == i,
            mv == t.methods@.map(|k: int, m: MethodSig| method_sig_view(m)),
            methods@.map(|k: int, m: MethodSig| method_sig_view(m)) == mv.subrange(0, i as int),
        decreases t.methods@.len() - i,
    {
        methods.push(copy_method_sig(&t.methods[i]));
        proof {
            assert(methods@.map(|k: int, m: MethodSig| method_sig_view(m)) =~= mv.subrange(
                0,
                i + 1int,
            ));
        }
        i = i + 1;
    }
    proof {
        assert(mv.subrange(0, mv.len() as int) =~= mv);
    }
    TraitDef {
        name: crate::text::copy_text(&t.name),
        generics: copy_texts(&t.generics),
        assoc_types: copy_texts(&t.assoc_types),
        methods,
    }
}

} // verus!
