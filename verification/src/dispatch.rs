//! Dispatch blueprints: for each dispatchable bound, the plan of the
//! implementation block to synthesize — the sanitized trait bound, the
//! registered trait's signatures, and the variant signatures attached
//! while the unifier walks the subject.

use vstd::prelude::*;

use crate::model::TraitBound;
use crate::model::TraitBoundV;
use crate::model::TraitDef;
use crate::model::TraitDefV;
use crate::model::trait_bound_view;
use crate::model::trait_def_view;
use crate::text::text_eq;

verus! {

broadcast use crate::text::lemma_text_deep_view;

/// The address of one forwarding target: which variant, which field.
pub struct VariantSig {
    pub enum_ident: Vec<char>,
    pub variant_ident: Vec<char>,
    pub field_name: Option<Vec<char>>,
    pub field_index: usize,
    pub arity: usize,
}

/// One planned implementation block.
pub struct Blueprint {
    pub key: Vec<char>,
    pub bound: TraitBound,
    pub tdef: TraitDef,
    pub arms: Vec<VariantSig>,
}

pub struct VariantSigV {
    pub enum_ident: Seq<char>,
    pub variant_ident: Seq<char>,
    pub field_name: Option<Seq<char>>,
    pub field_index: int,
    pub arity: int,
}

pub struct BlueprintV {
    pub key: Seq<char>,
    pub bound: TraitBoundV,
    pub tdef: TraitDefV,
    pub arms: Seq<VariantSigV>,
}

pub open spec fn sig_view(s: VariantSig) -> VariantSigV {
    VariantSigV {
        enum_ident: s.enum_ident@,
        variant_ident: s.variant_ident@,
        field_name: s.field_name.deep_view(),
        field_index: s.field_index as int,
        arity: s.arity as int,
    }
}

pub open spec fn sig_seq_view(ss: Seq<VariantSig>) -> Seq<VariantSigV> {
    ss.map(|i: int, s: VariantSig| sig_view(s))
}

pub open spec fn blueprint_view(b: Blueprint) -> BlueprintV {
    BlueprintV {
        key: b.key@,
        bound: trait_bound_view(b.bound),
        tdef: trait_def_view(b.tdef),
        arms: sig_seq_view(b.arms@),
    }
}

pub open spec fn blueprint_seq_view(bs: Seq<Blueprint>) -> Seq<BlueprintV> {
    bs.map(|i: int, b: Blueprint| blueprint_view(b))
}

/// What one attachment does: every blueprint keyed on `key` gains the
/// signature at the end of its arms; the others stay as they are.
pub open spec fn attach_sigs(bps: Seq<BlueprintV>, key: Seq<char>, sig: VariantSigV) -> Seq<
    BlueprintV,
> {
    bps.map(
        |i: int, b: BlueprintV|
            if b.key == key {
                BlueprintV { arms: b.arms.push(sig), ..b }
            } else {
                b
            },
    )
}

/// Attaches a variant signature to every blueprint keyed on `key`.
pub fn find_and_attach(
    bps: &mut Vec<Blueprint>,
    key: &Vec<char>,
    enum_ident: &Vec<char>,
    variant_ident: &Vec<char>,
    field_name: &Option<Vec<char>>,
    field_index: usize,
    arity: usize,
)
    ensures
        blueprint_seq_view(final(bps)@) == attach_sigs(
            blueprint_seq_view(old(bps)@),
            key@,
            VariantSigV {
                enum_ident: enum_ident@,
                variant_ident: variant_ident@,
                field_name: field_name.deep_view(),
                field_index: field_index as int,
                arity: arity as int,
            },
        ),
{
    let ghost b0 = blueprint_seq_view(bps@);
    let ghost sigv = VariantSigV {
        enum_ident: enum_ident@,
        variant_ident: variant_ident@,
        field_name: field_name.deep_view(),
        field_index: field_index as int,
        arity: arity as int,
    };
    let n = bps.len();
    let mut i: usize = 0;
    while i < n
        invariant
            i <= n,
            n == bps@.len(),
            b0 == blueprint_seq_view(old(bps)@),
            sigv == (VariantSigV {
                enum_ident: enum_ident@,
                variant_ident: variant_ident@,
                field_name: field_name.deep_view(),
                field_index: field_index as int,
                arity: arity as int,
            }),
            blueprint_seq_view(bps@).len() == b0.len(),
            forall|j: int|
                0 <= j < i ==> blueprint_seq_view(bps@)[j] == attach_sigs(b0, key@, sigv)[j],
            forall|j: int| i <= j < n ==> blueprint_seq_view(bps@)[j] == b0[j],
        decreases n - i,
    {
        let ghost pre = blueprint_seq_view(bps@);
        if text_eq(&bps[i].key, key) {
            let sig = VariantSig {
                enum_ident: crate::text::copy_text(enum_ident),
                variant_ident: crate::text::copy_text(variant_ident),
                field_name: crate::text::copy_opt_text(field_name),
                field_index,
                arity,
            };
            proof {
                if sig.field_name is Some {
                    assert(field_name is Some);
                    assert(sig.field_name.deep_view() == Some(sig.field_name->0@));
                    assert(field_name.deep_view() == Some(field_name->0@));
                    assert(sig.field_name->0@ == field_name->0@);
                } else {
                    assert(field_name is None);
                }
                assert(sig_view(sig).enum_ident == sigv.enum_ident);
                assert(sig_view(sig).variant_ident == sigv.variant_ident);
                assert(sig_view(sig).field_name == sigv.field_name);
                assert(sig_view(sig).field_index == sigv.field_index);
                assert(sig_view(sig).arity == sigv.arity);
                assert(sig_view(sig) == sigv);
            }
            bps[i].arms.push(sig);
            proof {
                assert forall|j: int| 0 <= j < n implies #[trigger] blueprint_seq_view(bps@)[j]
                    == (if j == i {
                    BlueprintV { arms: pre[j].arms.push(sigv), ..pre[j] }
                } else {
                    pre[j]
                }) by {
                    if j == i {
                        assert(sig_seq_view(bps@[j].arms@) =~= pre[j].arms.push(sigv));
                    } else {
                        assert(blueprint_seq_view(bps@)[j] == blueprint_view(bps@[j]));
                    }
                }
                assert(blueprint_seq_view(bps@)[i as int] == attach_sigs(b0, key@, sigv)[i as int]);
            }
        } else {
            proof {
                assert(blueprint_seq_view(bps@)[i as int] == b0[i as int]);
                assert(attach_sigs(b0, key@, sigv)[i as int] == b0[i as int]);
            }
        }
        i = i + 1;
    }
    proof {
        assert(blueprint_seq_view(bps@) =~= attach_sigs(b0, key@, sigv));
    }
}

} // verus!
