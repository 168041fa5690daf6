//! Component-level tests: tokenizing, canonical text, the polymorphic
//! map, the registry, and the engine run on its own output.

use penum::model::{MethodSig, PenumExpr, Subject, TraitDef};
use penum::penum::Penum;
use penum::polym::PolymorphicMap;
use penum::registry::TraitRegistry;
use penum::text::{canon_of_range, text_of, tokenize};
use penum::traits::Mul;

fn t(s: &str) -> Vec<char> {
    s.chars().collect()
}

fn canon(s: &str) -> String {
    let text = t(s);
    let toks = tokenize(&text);
    let n = toks.len();
    canon_of_range(&toks, 0, n).iter().collect()
}

fn run(attr: &str, input: &str) -> String {
    let expr = PenumExpr::parse(&t(attr)).ok().expect("the attribute parses");
    let subject = Subject::parse(&t(input)).ok().expect("the subject parses");
    Penum::new(expr, subject)
        .assemble(&TraitRegistry::new())
        .get_tokenstream()
        .iter()
        .collect()
}

#[test]
fn tokenizer_splits_words_and_puncts() {
    let toks = tokenize(&t("Vec<i32 , _x>"));
    let texts: Vec<String> = toks.iter().map(|k| k.text.iter().collect()).collect();
    assert_eq!(texts, vec!["Vec", "<", "i32", ",", "_x", ">"]);
    assert_eq!(toks[2].pos, 4);
}

#[test]
fn canonical_text_normalizes_whitespace_only() {
    assert_eq!(canon("Vec < i32 >"), "Vec<i32>");
    assert_eq!(canon("dyn   Trait"), "dyn Trait");
    assert_eq!(canon("&'a str"), "&'a str");
    assert_eq!(canon("fn() -> i32"), "fn()->i32");
}

#[test]
fn text_of_matches_chars() {
    assert_eq!(text_of("a b"), vec!['a', ' ', 'b']);
}

#[test]
fn polymap_keeps_insertion_order_without_duplicates() {
    let mut m = PolymorphicMap::new();
    m.insert(t("T"), t("i32"));
    m.insert(t("T"), t("usize"));
    m.insert(t("T"), t("i32"));
    m.insert(t("U"), t("i32"));
    let vals = m.get(&t("T")).expect("the key was inserted");
    let vals: Vec<String> = vals.iter().map(|v| v.iter().collect()).collect();
    assert_eq!(vals, vec!["i32", "usize"]);
    assert!(m.get(&t("U")).is_some());
    assert!(m.get(&t("V")).is_none());
}

#[test]
fn registry_is_append_only() {
    let mut reg = TraitRegistry::new();
    assert!(reg.lookup(&t("AsRef")).is_some());
    assert!(reg.lookup(&t("Mul")).is_some());
    assert!(reg.lookup(&t("Sub")).is_some());
    let first = TraitDef {
        name: t("Abc"),
        generics: vec![],
        assoc_types: vec![t("Input")],
        methods: vec![],
    };
    reg.insert(first);
    let second = TraitDef {
        name: t("Abc"),
        generics: vec![],
        assoc_types: vec![t("Output")],
        methods: vec![MethodSig {
            name: t("other"),
            recv: t("&self"),
            params: vec![],
            ret: None,
        }],
    };
    reg.insert(second);
    let kept = reg.lookup(&t("Abc")).expect("the entry is present");
    let assoc: String = kept.assoc_types[0].iter().collect();
    assert_eq!(assoc, "Input");
}

struct Doubler(u64);

impl Mul<u64> for Doubler {
    type Output = u64;

    fn mul(self, rhs: u64) -> u64 {
        self.0 * rhs
    }
}

#[test]
fn shipped_operator_traits_are_usable() {
    assert_eq!(Doubler(3).mul(7), 21);
}

#[test]
fn revalidating_the_enriched_output_accepts_it() {
    let first = run(
        "(T) where T: Trait",
        "enum Enum { V1(i32), V2(usize), V3(String) }",
    );
    let second = run("(T) where T: Trait", &first);
    // The pass reads nothing of the declaration's where-clause, so the
    // enriched declaration is accepted again with the same unification;
    // the propagated predicates are appended once more.
    // The forwarded predicates reappear in canonical spacing; the
    // re-propagated ones are freshly rendered.
    assert_eq!(
        second,
        "enum Enum where i32:Trait, usize:Trait, String:Trait, \
         i32: Trait, usize: Trait, String: Trait \
         { V1(i32), V2(usize), V3(String) }"
    );
}

#[test]
fn one_variable_collects_every_field_type() {
    let out = run("(T, T) where T: Trait", "enum E { V(i32, String) }");
    assert_eq!(out, "enum E where i32: Trait, String: Trait { V(i32, String) }");
}

#[test]
fn range_marker_acts_as_variadic() {
    let out = run("(T, ..2) where T: Copy", "enum E { V(u8, u16, u32) }");
    assert_eq!(out, "enum E where u8: Copy { V(u8, u16, u32) }");
}

#[test]
fn error_stash_map_combines_messages() {
    let expr = PenumExpr::parse(&t("(T, U)")).ok().expect("the attribute parses");
    let subject = Subject::parse(&t("enum E { A(i32), B }")).ok().expect("the subject parses");
    let (_, _, stash) = Penum::new(expr, subject)
        .assemble(&TraitRegistry::new())
        .attach_assertions();
    let combined: String = stash.map().expect("two variants fail").iter().collect();
    assert_eq!(
        combined,
        "No match found for `(i32)`. Expected `(T, U)`.\n\
         No match found for `B`. Expected `(T, U)`."
    );
}


#[test]
fn one_variable_bound_twice_attaches_two_arms() {
    let mut reg = TraitRegistry::new();
    reg.insert(TraitDef {
        name: t("Abc"),
        generics: vec![],
        assoc_types: vec![t("Input")],
        methods: vec![MethodSig {
            name: t("get"),
            recv: t("&self"),
            params: vec![],
            ret: Some(vec![t("&"), t("Self"), t(":"), t(":"), t("Input")]),
        }],
    });
    let expr = PenumExpr::parse(&t("(T, T) where T: ^Abc<Input = str>"))
        .ok()
        .expect("the attribute parses");
    let subject = Subject::parse(&t("enum E { V(String, String) }"))
        .ok()
        .expect("the subject parses");
    let out: String = Penum::new(expr, subject)
        .assemble(&reg)
        .get_tokenstream()
        .iter()
        .collect();
    // Both positions bind `T`, so the blueprint gains one arm per
    // position of the single variant.
    assert_eq!(
        out,
        "enum E where String: Abc<Input=str> { V(String, String) } \
         impl Abc<Input=str> for E { type Input = str; \
         fn get(&self) -> &Self::Input { match self { \
         E::V(val, ..) => val.get(), E::V(_, val) => val.get(), \
         _ => panic!(\"Missing arm\") } } }"
    );
}
