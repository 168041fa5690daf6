//! The comparable view: a pattern composite and a variant's fields
//! reduce to a (composite kind, arity) key, and shape compatibility
//! is decided on that key alone, with the variadic relaxation.

use vstd::prelude::*;

use crate::model::Fields;
use crate::model::FieldsV;
use crate::model::PatComposite;
use crate::model::PatCompositeV;
use crate::model::PatFieldKind;
use crate::model::PatFieldKindV;
use crate::model::PatFrag;
use crate::model::PatFragV;
use crate::model::fields_list;
use crate::model::fields_view;
use crate::model::pat_composite_view;
use crate::model::pat_frag_seq_view;
use crate::model::pat_frag_view;
use crate::model::pat_param_seq_view;

verus! {

/// Whether a parameter list trails into a variadic: it holds a `..`
/// or `..N` marker.
pub open spec fn has_variadic(ps: Seq<PatFieldKindV>) -> bool {
    exists|i: int|
        0 <= i < ps.len() && !(ps[i] is Field)
}

/// The number of typed parameters in a parameter list.
pub open spec fn field_param_count(ps: Seq<PatFieldKindV>) -> int
    decreases ps.len(),
{
    if ps.len() == 0 {
        0
    } else {
        field_param_count(ps.drop_last()) + if ps.last() is Field {
            1int
        } else {
            0int
        }
    }
}

/// Whether a parameter list accepts a variant of arity `n`: equal
/// arity, or at least as many fields as typed parameters when the
/// list holds a variadic.
pub open spec fn arity_ok(ps: Seq<PatFieldKindV>, n: int) -> bool {
    if has_variadic(ps) {
        n >= field_param_count(ps)
    } else {
        n == ps.len()
    }
}

/// Shape compatibility of a pattern composite with a variant's
/// fields: the composite kinds agree and the arities satisfy
/// `arity_ok`; an inferred composite accepts every shape.
pub open spec fn shape_compatible(p: PatCompositeV, f: FieldsV) -> bool {
    match p {
        PatCompositeV::Inferred => true,
        PatCompositeV::Unit => f is Unit,
        PatCompositeV::Unnamed(ps) => f is Unnamed && arity_ok(ps, fields_list(f).len() as int),
        PatCompositeV::Named(ps) => f is Named && arity_ok(ps, fields_list(f).len() as int),
    }
}

/// The index of the first pattern whose composite is shape-compatible
/// with `f`, or `-1`.
pub open spec fn select_pattern(pats: Seq<PatFragV>, f: FieldsV) -> int
    decreases pats.len(),
{
    if pats.len() == 0 {
        -1
    } else if shape_compatible(pats[0].group, f) {
        0
    } else {
        let r = select_pattern(pats.drop_first(), f);
        if r < 0 {
            -1
        } else {
            r + 1
        }
    }
}

pub proof fn lemma_select_pattern_props(pats: Seq<PatFragV>, f: FieldsV)
    ensures
        select_pattern(pats, f) >= 0 ==> select_pattern(pats, f) < pats.len() && shape_compatible(
            pats[select_pattern(pats, f)].group,
            f,
        ) && forall|j: int|
            0 <= j < select_pattern(pats, f) ==> !shape_compatible(pats[j].group, f),
        select_pattern(pats, f) < 0 ==> forall|j: int|
            0 <= j < pats.len() ==> !shape_compatible(pats[j].group, f),
    decreases pats.len(),
{
    if pats.len() > 0 && !shape_compatible(pats[0].group, f) {
        let pt = pats.drop_first();
        lemma_select_pattern_props(pt, f);
        let r = select_pattern(pt, f);
        if r < 0 {
            assert forall|j: int| 0 <= j < pats.len() implies !shape_compatible(
                pats[j].group,
                f,
            ) by {
                if j > 0 {
                    assert(pt[j - 1] == pats[j]);
                }
            }
        } else {
            assert(pt[r] == pats[r + 1]);
            assert forall|j: int| 0 <= j < r + 1 implies !shape_compatible(pats[j].group, f) by {
                if j > 0 {
                    assert(pt[j - 1] == pats[j]);
                }
            }
        }
    }
}

/// Executable check for a variadic marker in a parameter list.
pub fn params_have_variadic(ps: &Vec<PatFieldKind>) -> (r: bool)
    ensures
        r == has_variadic(pat_param_seq_view(ps@)),
{
    let ghost psv = pat_param_seq_view(ps@);
    let mut i: usize = 0;
    while i < ps.len()
        invariant
            i <= ps@.len(),
            psv == pat_param_seq_view(ps@),
            forall|j: int| 0 <= j < i ==> psv[j] is Field,
        decreases ps@.len() - i,
    {
        match &ps[i] {
            PatFieldKind::Field { .. } => {
                i = i + 1;
            },
            _ => {
                proof {
                    assert(!(psv[i as int] is Field));
                }
                return true;
            },
        }
    }
    false
}

/// Executable count of the typed parameters in a parameter list.
pub fn params_field_count(ps: &Vec<PatFieldKind>) -> (r: usize)
    ensures
        r as int == field_param_count(pat_param_seq_view(ps@)),
{
    let ghost psv = pat_param_seq_view(ps@);
    let mut count: usize = 0;
    let mut i: usize = 0;
    while i < ps.len()
        invariant
            i <= ps@.len(),
            psv == pat_param_seq_view(ps@),
            count as int == field_param_count(psv.subrange(0, i as int)),
            count <= i,
        decreases ps@.len() - i,
    {
        proof {
            assert(psv.subrange(0, i + 1int).drop_last() =~= psv.subrange(0, i as int));
            assert(psv.subrange(0, i + 1int).last() == psv[i as int]);
        }
        match &ps[i] {
            PatFieldKind::Field { .. } => {
                count = count + 1;
            },
            _ => {
            },
        }
        i = i + 1;
    }
    proof {
        assert(psv.subrange(0, psv.len() as int) =~= psv);
    }
    count
}

/// The arity of a variant's fields.
pub fn fields_arity(f: &Fields) -> (r: usize)
    ensures
        r as int == fields_list(fields_view(*f)).len(),
{
    match f {
        Fields::Unit => 0,
        Fields::Unnamed(fs) => fs.len(),
        Fields::Named(fs) => fs.len(),
    }
}

/// Executable mirror of `arity_ok`.
fn arity_ok_exec(ps: &Vec<PatFieldKind>, n: usize) -> (r: bool)
    ensures
        r == arity_ok(pat_param_seq_view(ps@), n as int),
{
    if params_have_variadic(ps) {
        n >= params_field_count(ps)
    } else {
        n == ps.len()
    }
}

/// Executable mirror of `shape_compatible`.
pub fn compatible(p: &PatComposite, f: &Fields) -> (r: bool)
    ensures
        r == shape_compatible(pat_composite_view(*p), fields_view(*f)),
{
    match p {
        PatComposite::Inferred => true,
        PatComposite::Unit => match f {
            Fields::Unit => true,
            _ => false,
        },
        PatComposite::Unnamed(ps) => match f {
            Fields::Unnamed(_) => arity_ok_exec(ps, fields_arity(f)),
            _ => false,
        },
        PatComposite::Named(ps) => match f {
            Fields::Named(_) => arity_ok_exec(ps, fields_arity(f)),
            _ => false,
        },
    }
}

/// Executable mirror of `select_pattern`: the first shape-compatible
/// pattern, if any.
pub fn select(pats: &Vec<PatFrag>, f: &Fields) -> (r: Option<usize>)
    ensures
        match r {
            Some(i) => select_pattern(pat_frag_seq_view(pats@), fields_view(*f)) == i as int && (
            i as int) < pats@.len(),
            None => select_pattern(pat_frag_seq_view(pats@), fields_view(*f)) < 0,
        },
{
    let ghost pv = pat_frag_seq_view(pats@);
    let ghost fv = fields_view(*f);
    let mut i: usize = 0;
    while i < pats.len()
        invariant
            i <= pats@.len(),
            pv == pat_frag_seq_view(pats@),
            fv == fields_view(*f),
            forall|j: int| 0 <= j < i ==> !shape_compatible(pv[j].group, fv),
        decreases pats@.len() - i,
    {
        if compatible(&pats[i].group, f) {
            proof {
                assert(pv[i as int] == pat_frag_view(pats@[i as int]));
                assert(shape_compatible(pv[i as int].group, fv));
                lemma_select_pattern_props(pv, fv);
                let s = select_pattern(pv, fv);
                if s < 0 {
                } else if s < i {
                } else if s > i {
                }
            }
            return Some(i);
        }
        i = i + 1;
    }
    proof {
        lemma_select_pattern_props(pv, fv);
    }
    None
}

} // verus!
