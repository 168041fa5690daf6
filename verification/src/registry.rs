//! The dispatch registry: the traits the planner can synthesize
//! implementations for, looked up by name.  It starts out holding the
//! shipped operator traits and `AsRef`, and grows append-only: an
//! entry, once present, is never replaced.

use vstd::prelude::*;

use crate::model::MethodParam;
use crate::model::MethodParamV;
use crate::model::MethodSig;
use crate::model::MethodSigV;
use crate::model::TraitDef;
use crate::model::TraitDefV;
use crate::model::method_param_view;
use crate::model::method_sig_view;
use crate::model::trait_def_seq_view;
use crate::model::trait_def_view;
use crate::text::text_eq;
use crate::text::text_of;

verus! {

broadcast use crate::text::lemma_text_deep_view;

/// The registered traits, in insertion order.
pub struct TraitRegistry {
    pub entries: Vec<TraitDef>,
}

pub open spec fn registry_view(r: TraitRegistry) -> Seq<TraitDefV> {
    trait_def_seq_view(r.entries@)
}

/// The index of the first registered trait named `name`, or `-1`.
pub open spec fn find_trait(ts: Seq<TraitDefV>, name: Seq<char>) -> int
    decreases ts.len(),
{
    if ts.len() == 0 {
        -1
    } else if ts[0].name == name {
        0
    } else {
        let r = find_trait(ts.drop_first(), name);
        if r < 0 {
            -1
        } else {
            r + 1
        }
    }
}

pub proof fn lemma_find_trait_props(ts: Seq<TraitDefV>, name: Seq<char>)
    ensures
        find_trait(ts, name) >= 0 ==> find_trait(ts, name) < ts.len() && ts[find_trait(
            ts,
            name,
        )].name == name && forall|j: int| 0 <= j < find_trait(ts, name) ==> ts[j].name != name,
        find_trait(ts, name) < 0 ==> forall|j: int| 0 <= j < ts.len() ==> ts[j].name != name,
    decreases ts.len(),
{
    if ts.len() > 0 && ts[0].name != name {
        let tt = ts.drop_first();
        lemma_find_trait_props(tt, name);
        let r = find_trait(tt, name);
        if r < 0 {
            assert forall|j: int| 0 <= j < ts.len() implies ts[j].name != name by {
                if j > 0 {
                    assert(tt[j - 1] == ts[j]);
                }
            }
        } else {
            assert(tt[r] == ts[r + 1]);
            assert forall|j: int| 0 <= j < r + 1 implies ts[j].name != name by {
                if j > 0 {
                    assert(tt[j - 1] == ts[j]);
                }
            }
        }
    }
}

/// What registering does: a new name is appended, a present one
/// leaves the registry unchanged.
pub open spec fn registry_insert(ts: Seq<TraitDefV>, t: TraitDefV) -> Seq<TraitDefV> {
    if find_trait(ts, t.name) >= 0 {
        ts
    } else {
        ts.push(t)
    }
}

/// The registered trait named `name`, if any.
pub open spec fn registry_get(ts: Seq<TraitDefV>, name: Seq<char>) -> Option<TraitDefV> {
    let i = find_trait(ts, name);
    if i < 0 {
        None
    } else {
        Some(ts[i])
    }
}

// ------------------------------------------------------------------
// The shipped entries
// ------------------------------------------------------------------
/// Registry record of a binary operator trait in the shape of `Mul`:
/// one `Rhs` generic, an `Output` associated type, and one method
/// taking `self` and `rhs: Rhs` and returning `Self::Output`.
pub open spec fn binop_def(name: Seq<char>, method: Seq<char>) -> TraitDefV {
    TraitDefV {
        name,
        generics: seq!["Rhs"@],
        assoc_types: seq!["Output"@],
        methods: seq![
            MethodSigV {
                name: method,
                recv: "self"@,
                params: seq![MethodParamV { name: "rhs"@, ty: seq!["Rhs"@] }],
                ret: Some(seq!["Self"@, ":"@, ":"@, "Output"@]),
            },
        ],
    }
}

/// Registry record of `AsRef`: one `T` generic and a method taking
/// `&self` and returning `&T`.
pub open spec fn asref_def() -> TraitDefV {
    TraitDefV {
        name: "AsRef"@,
        generics: seq!["T"@],
        assoc_types: Seq::empty(),
        methods: seq![
            MethodSigV {
                name: "as_ref"@,
                recv: "&self"@,
                params: Seq::empty(),
                ret: Some(seq!["&"@, "T"@]),
            },
        ],
    }
}

/// Registry record of `ShrAssign`: one `Rhs` generic and a method
/// taking `&mut self` and `rhs: Rhs`, returning nothing.
pub open spec fn shr_assign_def() -> TraitDefV {
    TraitDefV {
        name: "ShrAssign"@,
        generics: seq!["Rhs"@],
        assoc_types: Seq::empty(),
        methods: seq![
            MethodSigV {
                name: "shr_assign"@,
                recv: "&mut self"@,
                params: seq![MethodParamV { name: "rhs"@, ty: seq!["Rhs"@] }],
                ret: None,
            },
        ],
    }
}

/// The entries every registry starts with: `AsRef` and the shipped
/// operator traits.
pub open spec fn builtin_defs() -> Seq<TraitDefV> {
    seq![
        asref_def(),
        binop_def("Mul"@, "mul"@),
        binop_def("Shl"@, "shl"@),
        binop_def("Div"@, "div"@),
        binop_def("Rem"@, "rem"@),
        binop_def("Shr"@, "shr"@),
        shr_assign_def(),
        binop_def("Sub"@, "sub"@),
    ]
}

/// Builds the registry record of one binary operator trait.
fn binop_entry(name: &str, method: &str) -> (t: TraitDef)
    ensures
        trait_def_view(t) == binop_def(name@, method@),
{
    let mut generics: Vec<Vec<char>> = Vec::new();
    generics.push(text_of("Rhs"));
    let mut assoc_types: Vec<Vec<char>> = Vec::new();
    assoc_types.push(text_of("Output"));
    let mut params: Vec<MethodParam> = Vec::new();
    let mut rhs_ty: Vec<Vec<char>> = Vec::new();
    rhs_ty.push(text_of("Rhs"));
    params.push(MethodParam { name: text_of("rhs"), ty: rhs_ty });
    let mut ret: Vec<Vec<char>> = Vec::new();
    ret.push(text_of("Self"));
    ret.push(text_of(":"));
    ret.push(text_of(":"));
    ret.push(text_of("Output"));
    let mut methods: Vec<MethodSig> = Vec::new();
    methods.push(
        MethodSig { name: text_of(method), recv: text_of("self"), params, ret: Some(ret) },
    );
    let t = TraitDef { name: text_of(name), generics, assoc_types, methods };
    proof {
        let m = binop_def(name@, method@);
        assert(t.generics.deep_view() =~= m.generics);
        assert(t.assoc_types.deep_view() =~= m.assoc_types);
        assert(method_param_view(t.methods@[0].params@[0]).ty =~= seq!["Rhs"@]);
        assert(method_sig_view(t.methods@[0]).params =~= m.methods[0].params);
        assert(method_sig_view(t.methods@[0]).ret->0 =~= m.methods[0].ret->0);
        assert(method_sig_view(t.methods@[0]) == m.methods[0]);
        assert(trait_def_view(t).methods =~= m.methods);
        assert(trait_def_view(t) == m);
    }
    t
}

/// Builds the registry record of `AsRef`.
fn asref_entry() -> (t: TraitDef)
    ensures
        trait_def_view(t) == asref_def(),
{
    let mut generics: Vec<Vec<char>> = Vec::new();
    generics.push(text_of("T"));
    let mut ret: Vec<Vec<char>> = Vec::new();
    ret.push(text_of("&"));
    ret.push(text_of("T"));
    let mut methods: Vec<MethodSig> = Vec::new();
    methods.push(
        MethodSig {
            name: text_of("as_ref"),
            recv: text_of("&self"),
            params: Vec::new(),
            ret: Some(ret),
        },
    );
    let t = TraitDef { name: text_of("AsRef"), generics, assoc_types: Vec::new(), methods };
    proof {
        let m = asref_def();
        assert(t.generics.deep_view() =~= m.generics);
        assert(t.assoc_types.deep_view() =~= m.assoc_types);
        assert(method_sig_view(t.methods@[0]).params =~= m.methods[0].params);
        assert(method_sig_view(t.methods@[0]).ret->0 =~= m.methods[0].ret->0);
        assert(method_sig_view(t.methods@[0]) == m.methods[0]);
        assert(trait_def_view(t).methods =~= m.methods);
        assert(trait_def_view(t) == m);
    }
    t
}

/// Builds the registry record of `ShrAssign`.
fn shr_assign_entry() -> (t: TraitDef)
    ensures
        trait_def_view(t) == shr_assign_def(),
{
    let mut generics: Vec<Vec<char>> = Vec::new();
    generics.push(text_of("Rhs"));
    let mut params: Vec<MethodParam> = Vec::new();
    let mut rhs_ty: Vec<Vec<char>> = Vec::new();
    rhs_ty.push(text_of("Rhs"));
    params.push(MethodParam { name: text_of("rhs"), ty: rhs_ty });
    let mut methods: Vec<MethodSig> = Vec::new();
    methods.push(
        MethodSig {
            name: text_of("shr_assign"),
            recv: text_of("&mut self"),
            params,
            ret: None,
        },
    );
    let t = TraitDef { name: text_of("ShrAssign"), generics, assoc_types: Vec::new(), methods };
    proof {
        let m = shr_assign_def();
        assert(t.generics.deep_view() =~= m.generics);
        assert(t.assoc_types.deep_view() =~= m.assoc_types);
        assert(method_param_view(t.methods@[0].params@[0]).ty =~= seq!["Rhs"@]);
        assert(method_sig_view(t.methods@[0]).params =~= m.methods[0].params);
        assert(method_sig_view(t.methods@[0]) == m.methods[0]);
        assert(trait_def_view(t).methods =~= m.methods);
        assert(trait_def_view(t) == m);
    }
    t
}

impl TraitRegistry {
    /// A registry holding exactly the shipped entries.
    pub fn new() -> (r: TraitRegistry)
        ensures
            registry_view(r) == builtin_defs(),
    {
        let mut entries: Vec<TraitDef> = Vec::new();
        entries.push(asref_entry());
        entries.push(binop_entry("Mul", "mul"));
        entries.push(binop_entry("Shl", "shl"));
        entries.push(binop_entry("Div", "div"));
        entries.push(binop_entry("Rem", "rem"));
        entries.push(binop_entry("Shr", "shr"));
        entries.push(shr_assign_entry());
        entries.push(binop_entry("Sub", "sub"));
        let r = TraitRegistry { entries };
        proof {
            assert(registry_view(r) =~= builtin_defs());
        }
        r
    }

    /// The index of the entry named `name`, if any.
    fn find(&self, name: &Vec<char>) -> (r: Option<usize>)
        ensures
            match r {
                Some(i) => find_trait(registry_view(*self), name@) == i as int && i
                    < self.entries@.len(),
                None => find_trait(registry_view(*self), name@) < 0,
            },
    {
        let ghost rv = registry_view(*self);
        let mut i: usize = 0;
        let n = self.entries.len();
        while i < n
            invariant
                i <= n,
                n == self.entries@.len(),
                rv == registry_view(*self),
                forall|j: int| 0 <= j < i ==> rv[j].name != name@,
            decreases n - i,
        {
            if text_eq(&self.entries[i].name, name) {
                proof {
                    assert(rv[i as int] == trait_def_view(self.entries@[i as int]));
                    lemma_find_trait_props(rv, name@);
                    let f = find_trait(rv, name@);
                    if f < 0 {
                    } else if f < i {
                    } else if f > i {
                    }
                }
                return Some(i);
            }
            i = i + 1;
        }
        proof {
            lemma_find_trait_props(rv, name@);
        }
        None
    }

    /// Registers a trait; an already present name is kept as it was.
    pub fn insert(&mut self, t: TraitDef)
        ensures
            registry_view(*final(self)) == registry_insert(
                registry_view(*old(self)),
                trait_def_view(t),
            ),
    {
        let ghost r0 = registry_view(*self);
        match self.find(&t.name) {
            Some(_) => {
            },
            None => {
                self.entries.push(t);
                proof {
                    assert(registry_view(*self) =~= r0.push(trait_def_view(t)));
                }
            },
        }
    }

    /// The registered trait named `name`, if any.
    pub fn lookup<'a>(&'a self, name: &Vec<char>) -> (r: Option<&'a TraitDef>)
        ensures
            match r {
                Some(t) => registry_get(registry_view(*self), name@) == Some(trait_def_view(*t)),
                None => registry_get(registry_view(*self), name@) is None,
            },
    {
        match self.find(name) {
            Some(i) => Some(&self.entries[i]),
            None => None,
        }
    }
}

} // verus!
