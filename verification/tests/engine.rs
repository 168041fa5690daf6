//! End-to-end tests of the pattern engine: parse an attribute and a
//! declaration, assemble, and compare the emitted text.

use penum::model::{MethodSig, PenumExpr, Subject, TraitDef};
use penum::penum::Penum;
use penum::registry::TraitRegistry;

fn t(s: &str) -> Vec<char> {
    s.chars().collect()
}

fn run_with(attr: &str, input: &str, reg: &TraitRegistry) -> String {
    let expr = match PenumExpr::parse(&t(attr)) {
        Ok(e) => e,
        Err(d) => panic!("attribute did not parse: {}", d.msg.iter().collect::<String>()),
    };
    let subject = match Subject::parse(&t(input)) {
        Ok(s) => s,
        Err(d) => panic!("subject did not parse: {}", d.msg.iter().collect::<String>()),
    };
    Penum::new(expr, subject)
        .assemble(reg)
        .get_tokenstream()
        .iter()
        .collect()
}

fn run(attr: &str, input: &str) -> String {
    run_with(attr, input, &TraitRegistry::new())
}

fn abc_trait() -> TraitDef {
    TraitDef {
        name: t("Abc"),
        generics: vec![],
        assoc_types: vec![t("Input")],
        methods: vec![MethodSig {
            name: t("get"),
            recv: t("&self"),
            params: vec![],
            ret: Some(vec![t("&"), t("Self"), t(":"), t(":"), t("Input")]),
        }],
    }
}

#[test]
fn simple_expression() {
    let out = run(
        "(T) where T: Trait",
        "enum Enum { V1(i32), V2(usize), V3(String) }",
    );
    assert_eq!(
        out,
        "enum Enum where i32: Trait, usize: Trait, String: Trait \
         { V1(i32), V2(usize), V3(String) }"
    );
}

#[test]
fn dispatch_std_trait() {
    let out = run("(T) where T: ^AsRef<str>", "enum Enum { V1(String), }");
    assert_eq!(
        out,
        "enum Enum where String: AsRef<str> { V1(String) } \
         impl AsRef<str> for Enum { fn as_ref(&self) -> &str \
         { match self { Enum::V1(val) => val.as_ref(), _ => \"\" } } }"
    );
}

#[test]
fn dispatch_custom_trait() {
    let mut reg = TraitRegistry::new();
    reg.insert(abc_trait());
    let out = run_with(
        "(T) where T: ^Abc<Input = str>",
        "enum Enum { V1(String), V2(String) }",
        &reg,
    );
    assert_eq!(
        out,
        "enum Enum where String: Abc<Input=str> { V1(String), V2(String) } \
         impl Abc<Input=str> for Enum { type Input = str; \
         fn get(&self) -> &Self::Input { match self { \
         Enum::V1(val) => val.get(), Enum::V2(val) => val.get(), \
         _ => panic!(\"Missing arm\") } } }"
    );
}

#[test]
fn dispatch_custom_trait_with_impl_expression() {
    let mut reg = TraitRegistry::new();
    reg.insert(abc_trait());
    let out = run_with(
        "impl Abc<Input = str> for String",
        "enum Enum { V1(String, i32), V2(i32, String) }",
        &reg,
    );
    assert_eq!(
        out,
        "enum Enum where String: Abc<Input=str> { V1(String, i32), V2(i32, String) } \
         impl Abc<Input=str> for Enum { type Input = str; \
         fn get(&self) -> &Self::Input { match self { \
         Enum::V1(val, ..) => val.get(), Enum::V2(_, val) => val.get(), \
         _ => panic!(\"Missing arm\") } } }"
    );
}

#[test]
fn shape_mismatch_reports_no_match() {
    let out = run("(T, T, U) | (T, U)", "enum E { Bad(i32) }");
    assert_eq!(
        out,
        "No match found for `(i32)`. Expected `(T, T, U) | (T, U)`."
    );
}

#[test]
fn concrete_mismatch_reports_found_expected() {
    let out = run("(i32, _)", "enum E { V(String, u8) }");
    assert_eq!(out, "Found `String` but expected `i32`.");
}

#[test]
fn empty_enum_is_rejected() {
    let out = run("(T)", "enum E { }");
    assert_eq!(out, "Expected to find at least one variant.");
}

#[test]
fn named_composite_matches_named_variant() {
    let out = run(
        "{ name: T } where T: Clone",
        "enum E { V { name: String } }",
    );
    assert_eq!(out, "enum E where String: Clone { V { name: String } }");
}

#[test]
fn trailing_variadic_relaxes_arity() {
    let out = run("(T, ..) where T: Copy", "enum E { V(i32, String, u8) }");
    assert_eq!(out, "enum E where i32: Copy { V(i32, String, u8) }");
}

#[test]
fn variadic_requires_minimum_arity() {
    let out = run("(T, U, ..)", "enum E { V(i32) }");
    assert_eq!(out, "No match found for `(i32)`. Expected `(T, U, ..)`.");
}

#[test]
fn maybe_bound_is_rejected() {
    let out = run("(impl ?Sized)", "enum E { V(i32) }");
    assert_eq!(out, "Maybe-bounds are not permitted.");
}

#[test]
fn lifetime_predicate_is_rejected() {
    let out = run("(T) where 'a: 'b", "enum E { V(i32) }");
    assert_eq!(out, "lifetime predicates are unsupported");
}

#[test]
fn impl_trait_position_asserts_bounds() {
    let out = run("(impl Copy)", "enum E { V1(i32) }");
    assert_eq!(out, "enum E where i32: Copy { V1(i32) }");
}

#[test]
fn string_literal_attribute_is_unwrapped() {
    let out = run("\"(T) where T: Trait\"", "enum E { V(u8) }");
    assert_eq!(out, "enum E where u8: Trait { V(u8) }");
}

#[test]
fn name_sugar_is_discarded() {
    let out = run("shape => (T) where T: Trait", "enum E { V(u8) }");
    assert_eq!(out, "enum E where u8: Trait { V(u8) }");
}

#[test]
fn concrete_types_canonicalize_over_whitespace() {
    let out = run(
        "(Vec<i32>) where Vec<i32>: Default",
        "enum E { V(Vec < i32 >) }",
    );
    assert_eq!(out, "enum E where Vec<i32>: Default { V(Vec<i32>) }");
}

#[test]
fn unit_variants_match_unit_pattern() {
    let out = run("_ | V", "enum E { A, B(i32) }");
    assert_eq!(out, "enum E { A, B(i32) }");
}

#[test]
fn builtin_operator_trait_dispatch() {
    let out = run("(T) where T: ^Mul", "enum E { V(i32) }");
    assert_eq!(
        out,
        "enum E where i32: Mul { V(i32) } \
         impl Mul for E { fn mul(self, rhs: Rhs) -> Self::Output \
         { match self { E::V(val) => val.mul(rhs), _ => panic!(\"Missing arm\") } } }"
    );
}

#[test]
fn generics_and_existing_clause_are_forwarded() {
    let out = run(
        "(T) where T: Trait",
        "enum E<X> where X: Send { V(i32) }",
    );
    assert_eq!(out, "enum E<X> where X:Send, i32: Trait { V(i32) }");
}

#[test]
fn unregistered_dispatch_trait_stays_plain_bound() {
    let out = run("(T) where T: ^Nowhere", "enum E { V(i32) }");
    assert_eq!(out, "enum E where i32: Nowhere { V(i32) }");
}

#[test]
fn lifetime_bound_is_rejected() {
    let out = run("(T) where T: 'static", "enum E { V(i32) }");
    assert_eq!(out, "Lifetime bounds are not permitted.");
}

#[test]
fn unclosed_composite_is_a_parse_error() {
    let err = PenumExpr::parse(&t("(T")).err().expect("the composite is unclosed");
    let msg: String = err.msg.iter().collect();
    assert_eq!(msg, "expected a comma or a closing delimiter");
}

#[test]
fn empty_attribute_is_a_parse_error() {
    let err = PenumExpr::parse(&t("")).err().expect("nothing to parse");
    let msg: String = err.msg.iter().collect();
    assert_eq!(msg, "expected a pattern");
}

#[test]
fn dispatch_bound_in_impl_position_is_rejected() {
    let out = run("(impl ^Clone)", "enum E { V(i32) }");
    assert_eq!(out, "Dispatch bounds are not permitted here.");
}
