use cbindgen::config::{Config, Language};
use cbindgen::constant::{Constant, Literal, LiteralExpr};
use cbindgen::function::{Function, FunctionArg};
use cbindgen::generics::GenericParams;
use cbindgen::global::Static;
use cbindgen::item::{ItemContainer, ItemMap};
use cbindgen::library::{Bindings, Library};
use cbindgen::metadata::Metadata;
use cbindgen::structure::{Field, Struct};
use cbindgen::types::Type;
use cbindgen::CoreError;

fn prim(name: &str) -> Type {
    Type::Primitive(String::from(name))
}

fn path(name: &str, args: Vec<Type>) -> Type {
    Type::Path(String::from(name), args)
}

fn meta() -> Metadata {
    Metadata::new()
}

fn field(name: &str, ty: Type) -> Field {
    Field { name: String::from(name), ty, doc: String::new() }
}

fn plain_struct(name: &str, params: Vec<&str>, fields: Vec<Field>) -> Struct {
    Struct {
        name: String::from(name),
        generic_params: GenericParams(params.into_iter().map(String::from).collect()),
        fields,
        tuple_struct: false,
        meta: meta(),
    }
}

fn func(name: &str, ret: Type, args: Vec<(&str, Type)>) -> Function {
    Function {
        name: String::from(name),
        ret,
        args: args
            .into_iter()
            .map(|(n, t)| FunctionArg { name: String::from(n), ty: t })
            .collect(),
        meta: meta(),
    }
}

fn item_names(items: &[ItemContainer]) -> Vec<String> {
    items.iter().map(|it| it.name().clone()).collect()
}

fn generate(
    language: Language,
    types: Vec<ItemContainer>,
    functions: Vec<Function>,
) -> Result<Bindings, CoreError> {
    let mut map = ItemMap::new();
    for it in types {
        assert!(map.try_insert(it));
    }
    let lib = Library::new(
        Config::new(language),
        ItemMap::new(),
        ItemMap::new(),
        map,
        functions,
    );
    lib.generate()
}

#[test]
fn pair_scenario_monomorphizes_and_orders() {
    // A generic struct used at two concrete types from two functions, for a
    // dialect without generics: two mangled structs, no template left.
    let pair = ItemContainer::Struct(plain_struct(
        "Pair",
        vec!["T"],
        vec![field("first", path("T", vec![])), field("second", path("T", vec![]))],
    ));
    let f = func("f", prim("void"), vec![("arg", path("Pair", vec![prim("i32")]))]);
    let g = func("g", prim("void"), vec![("arg", path("Pair", vec![prim("f64")]))]);
    let b = generate(Language::C, vec![pair], vec![f, g]).unwrap();
    let names = item_names(&b.items);
    assert!(names.contains(&String::from("PairG1_P3_i32")));
    assert!(names.contains(&String::from("PairG1_P3_f64")));
    assert!(!names.contains(&String::from("Pair")));
    assert_eq!(b.items.len(), 2);
    // The functions reference the mangled names.
    for f in &b.functions {
        match &f.args[0].ty {
            Type::Path(n, args) => {
                assert!(args.is_empty());
                assert!(n == "PairG1_P3_i32" || n == "PairG1_P3_f64");
            }
            other => panic!("unexpected argument type {:?}", other),
        }
    }
}

#[test]
fn monomorph_dedup_single_instantiation() {
    // The same instantiation used twice yields exactly one declaration.
    let boxed = ItemContainer::Struct(plain_struct(
        "Box",
        vec!["T"],
        vec![field("value", path("T", vec![]))],
    ));
    let f = func("f", prim("void"), vec![("a", path("Box", vec![prim("i32")]))]);
    let g = func("g", prim("void"), vec![("b", path("Box", vec![prim("i32")]))]);
    let b = generate(Language::C, vec![boxed], vec![f, g]).unwrap();
    let names = item_names(&b.items);
    assert_eq!(names, vec![String::from("BoxG1_P3_i32")]);
}

#[test]
fn monomorph_distinct_instantiations_before_dependents() {
    // Distinct argument lists yield distinct mangled declarations, each
    // placed before a declaration containing it by value.
    let boxed = ItemContainer::Struct(plain_struct(
        "Box",
        vec!["T"],
        vec![field("value", path("T", vec![]))],
    ));
    let holder = ItemContainer::Struct(plain_struct(
        "Holder",
        vec![],
        vec![
            field("ints", path("Box", vec![prim("i32")])),
            field("floats", path("Box", vec![prim("f64")])),
        ],
    ));
    let f = func("use_holder", prim("void"), vec![("h", path("Holder", vec![]))]);
    let b = generate(Language::C, vec![boxed, holder], vec![f]).unwrap();
    let names = item_names(&b.items);
    let i_box_i32 = names.iter().position(|n| n == "BoxG1_P3_i32").unwrap();
    let i_box_f64 = names.iter().position(|n| n == "BoxG1_P3_f64").unwrap();
    let i_holder = names.iter().position(|n| n == "Holder").unwrap();
    assert_ne!(i_box_i32, i_box_f64);
    assert!(i_box_i32 < i_holder);
    assert!(i_box_f64 < i_holder);
    assert!(!names.contains(&String::from("Box")));
}

#[test]
fn topological_order_by_value_chain() {
    // C contains nothing, B contains C, A contains B: emitted C, B, A.
    let a = ItemContainer::Struct(plain_struct("A", vec![], vec![field("b", path("B", vec![]))]));
    let b_ = ItemContainer::Struct(plain_struct("B", vec![], vec![field("c", path("C", vec![]))]));
    let c = ItemContainer::Struct(plain_struct("C", vec![], vec![field("x", prim("i32"))]));
    let f = func("root", prim("void"), vec![("a", path("A", vec![]))]);
    let out = generate(Language::C, vec![a, b_, c], vec![f]).unwrap();
    assert_eq!(
        item_names(&out.items),
        vec![String::from("C"), String::from("B"), String::from("A")]
    );
}

#[test]
fn pointer_edges_are_not_followed() {
    // A pointer field is only a forward mention: the pointee is not pulled
    // into the order.
    let a = ItemContainer::Struct(plain_struct(
        "A",
        vec![],
        vec![field("b", Type::Ptr(Box::new(path("B", vec![]))))],
    ));
    let b_ = ItemContainer::Struct(plain_struct("B", vec![], vec![field("x", prim("i32"))]));
    let f = func("root", prim("void"), vec![("a", path("A", vec![]))]);
    let out = generate(Language::C, vec![a, b_], vec![f]).unwrap();
    assert_eq!(item_names(&out.items), vec![String::from("A")]);
}

#[test]
fn dead_code_is_eliminated() {
    // A declaration unreachable from any root never appears.
    let used = ItemContainer::Struct(plain_struct("Used", vec![], vec![field("x", prim("i32"))]));
    let unused = ItemContainer::Struct(plain_struct(
        "Unused",
        vec![],
        vec![field("x", prim("i32"))],
    ));
    let f = func("root", prim("void"), vec![("u", path("Used", vec![]))]);
    let out = generate(Language::C, vec![used, unused], vec![f]).unwrap();
    assert_eq!(item_names(&out.items), vec![String::from("Used")]);
}

#[test]
fn value_cycle_is_a_fatal_error() {
    let a = ItemContainer::Struct(plain_struct("A", vec![], vec![field("b", path("B", vec![]))]));
    let b_ = ItemContainer::Struct(plain_struct("B", vec![], vec![field("a", path("A", vec![]))]));
    let f = func("root", prim("void"), vec![("a", path("A", vec![]))]);
    let out = generate(Language::C, vec![a, b_], vec![f]);
    assert_eq!(out.unwrap_err(), CoreError::DependencyCycle);
}

#[test]
fn generic_arity_mismatch_is_a_fatal_error() {
    let pair = ItemContainer::Struct(plain_struct(
        "Pair",
        vec!["T"],
        vec![field("first", path("T", vec![]))],
    ));
    let f = func(
        "f",
        prim("void"),
        vec![("arg", path("Pair", vec![prim("i32"), prim("i64")]))],
    );
    let out = generate(Language::C, vec![pair], vec![f]);
    assert_eq!(out.unwrap_err(), CoreError::GenericArityMismatch);
}

#[test]
fn cxx_keeps_generics_untouched() {
    // A dialect with generics runs no instantiation: the template survives.
    let pair = ItemContainer::Struct(plain_struct(
        "Pair",
        vec!["T"],
        vec![field("first", path("T", vec![]))],
    ));
    let f = func("f", prim("void"), vec![("arg", path("Pair", vec![prim("i32")]))]);
    let out = generate(Language::Cxx, vec![pair], vec![f]).unwrap();
    assert_eq!(item_names(&out.items), vec![String::from("Pair")]);
}

#[test]
fn functions_are_sorted_by_name() {
    let f1 = func("zeta", prim("void"), vec![]);
    let f2 = func("alpha", prim("void"), vec![]);
    let f3 = func("midway", prim("void"), vec![]);
    let out = generate(Language::C, vec![], vec![f1, f2, f3]).unwrap();
    let names: Vec<String> = out.functions.iter().map(|f| f.name.clone()).collect();
    assert_eq!(
        names,
        vec![String::from("alpha"), String::from("midway"), String::from("zeta")]
    );
}

#[test]
fn determinism_two_identical_runs() {
    let build = || {
        let pair = ItemContainer::Struct(plain_struct(
            "Pair",
            vec!["T"],
            vec![field("first", path("T", vec![])), field("second", path("T", vec![]))],
        ));
        let holder = ItemContainer::Struct(plain_struct(
            "Holder",
            vec![],
            vec![field("p", path("Pair", vec![prim("u8")]))],
        ));
        let f = func("f", prim("void"), vec![("h", path("Holder", vec![]))]);
        let g = func("g", path("Pair", vec![prim("u8")]), vec![]);
        generate(Language::C, vec![pair, holder], vec![f, g]).unwrap()
    };
    let one = build();
    let two = build();
    assert_eq!(item_names(&one.items), item_names(&two.items));
    let f1: Vec<String> = one.functions.iter().map(|f| f.name.clone()).collect();
    let f2: Vec<String> = two.functions.iter().map(|f| f.name.clone()).collect();
    assert_eq!(f1, f2);
}

#[test]
fn exclusion_reaches_every_category() {
    let gone = ItemContainer::Struct(plain_struct("Gone", vec![], vec![field("x", prim("i32"))]));
    let kept = ItemContainer::Struct(plain_struct("Kept", vec![], vec![field("x", prim("i32"))]));
    let mut types = ItemMap::new();
    assert!(types.try_insert(gone));
    assert!(types.try_insert(kept));
    let mut constants = ItemMap::new();
    assert!(constants.try_insert(ItemContainer::Constant(
        Constant::new(
            String::from("Gone"),
            prim("i32"),
            LiteralExpr::from_literal(&Literal::UnsignedInt(1)),
            meta(),
        )
        .unwrap()
    )));
    let mut globals = ItemMap::new();
    assert!(globals.try_insert(ItemContainer::Static(Static {
        name: String::from("Gone"),
        ty: prim("i32"),
        mutable: false,
        meta: meta(),
    })));
    let mut config = Config::new(Language::C);
    config.export.exclude.push(String::from("Gone"));
    config.export.included.push(String::from("Kept"));
    let functions = vec![func("Gone", prim("void"), vec![])];
    let lib = Library::new(config, constants, globals, types, functions);
    let out = lib.generate().unwrap();
    assert!(out.constants.is_empty());
    assert!(out.globals.is_empty());
    assert!(out.functions.is_empty());
    assert_eq!(item_names(&out.items), vec![String::from("Kept")]);
}

#[test]
fn included_names_are_roots() {
    let lone = ItemContainer::Struct(plain_struct("Lone", vec![], vec![field("x", prim("u8"))]));
    let mut types = ItemMap::new();
    assert!(types.try_insert(lone));
    let mut config = Config::new(Language::C);
    config.export.included.push(String::from("Lone"));
    let lib = Library::new(config, ItemMap::new(), ItemMap::new(), types, vec![]);
    let out = lib.generate().unwrap();
    assert_eq!(item_names(&out.items), vec![String::from("Lone")]);
}
