use cbindgen::config::{Config, Language, RenameRule};
use cbindgen::constant::{Literal, LiteralExpr};
use cbindgen::generics::GenericParams;
use cbindgen::item::{ItemContainer, ItemMap};
use cbindgen::metadata::{AnnotationSet, AnnotationValue, Metadata};
use cbindgen::monomorph::mangle_path;
use cbindgen::structure::{Field, Struct, Union};
use cbindgen::typedef::Typedef;
use cbindgen::types::Type;

fn prim(name: &str) -> Type {
    Type::Primitive(String::from(name))
}

fn path(name: &str, args: Vec<Type>) -> Type {
    Type::Path(String::from(name), args)
}

fn meta() -> Metadata {
    Metadata::new()
}

fn gated_meta(cfg: &str) -> Metadata {
    Metadata {
        cfg: Some(String::from(cfg)),
        annotations: AnnotationSet::new(),
        documentation: String::new(),
    }
}

fn field(name: &str, ty: Type) -> Field {
    Field { name: String::from(name), ty, doc: String::new() }
}

fn named_struct(name: &str, m: Metadata) -> ItemContainer {
    ItemContainer::Struct(Struct {
        name: String::from(name),
        generic_params: GenericParams(vec![]),
        fields: vec![field("x", prim("i32"))],
        tuple_struct: false,
        meta: m,
    })
}

#[test]
fn registry_rejects_unconditional_into_gated_group() {
    let mut map = ItemMap::new();
    assert!(map.try_insert(named_struct("S", gated_meta("unix"))));
    // An unconditional declaration can never join a gated group.
    assert!(!map.try_insert(named_struct("S", meta())));
    assert_eq!(map.to_vec().len(), 1);
}

#[test]
fn registry_rejects_gated_into_unconditional() {
    let mut map = ItemMap::new();
    assert!(map.try_insert(named_struct("S", meta())));
    assert!(!map.try_insert(named_struct("S", gated_meta("unix"))));
    assert!(!map.try_insert(named_struct("S", meta())));
    assert_eq!(map.to_vec().len(), 1);
}

#[test]
fn registry_merges_gated_alternatives() {
    let mut map = ItemMap::new();
    assert!(map.try_insert(named_struct("S", gated_meta("unix"))));
    assert!(map.try_insert(named_struct("S", gated_meta("windows"))));
    // Both configuration-gated alternatives survive to emission.
    assert_eq!(map.to_vec().len(), 2);
    let got = map.get_items(&String::from("S")).unwrap();
    assert_eq!(got.len(), 2);
}

#[test]
fn field_override_beats_rename_rule() {
    // A field with both an explicit override name and a matching rule: the
    // explicit override wins.
    let mut annotations = AnnotationSet::new();
    annotations.annotations.push((
        String::from("field-names"),
        AnnotationValue::List(vec![String::from("explicit")]),
    ));
    annotations.annotations.push((
        String::from("rename-all"),
        AnnotationValue::Atom(String::from("uppercase")),
    ));
    let mut it = ItemContainer::Union(Union {
        name: String::from("U"),
        generic_params: GenericParams(vec![]),
        fields: vec![field("first_member", prim("i32")), field("second", prim("i32"))],
        tuple_union: false,
        meta: Metadata { cfg: None, annotations, documentation: String::new() },
    });
    let mut config = Config::new(Language::C);
    config.structure.rename_fields = Some(RenameRule::ScreamingSnakeCase);
    it.rename_for_config(&config);
    match it {
        ItemContainer::Union(u) => {
            assert_eq!(u.fields[0].name, "explicit");
            // Positions past the override list keep their own name.
            assert_eq!(u.fields[1].name, "second");
        }
        _ => panic!("not a union"),
    }
}

#[test]
fn rename_rule_applies_without_override() {
    let mut it = ItemContainer::Union(Union {
        name: String::from("U"),
        generic_params: GenericParams(vec![]),
        fields: vec![field("some_field", prim("i32"))],
        tuple_union: false,
        meta: meta(),
    });
    let mut config = Config::new(Language::C);
    config.structure.rename_fields = Some(RenameRule::UpperCase);
    it.rename_for_config(&config);
    match it {
        ItemContainer::Union(u) => assert_eq!(u.fields[0].name, "SOME_FIELD"),
        _ => panic!("not a union"),
    }
}

#[test]
fn tuple_members_gain_underscore_without_rule() {
    let mut it = ItemContainer::Union(Union {
        name: String::from("U"),
        generic_params: GenericParams(vec![]),
        fields: vec![field("0", prim("i32")), field("1", prim("i64"))],
        tuple_union: true,
        meta: meta(),
    });
    let config = Config::new(Language::C);
    it.rename_for_config(&config);
    match it {
        ItemContainer::Union(u) => {
            assert_eq!(u.fields[0].name, "_0");
            assert_eq!(u.fields[1].name, "_1");
        }
        _ => panic!("not a union"),
    }
}

#[test]
fn export_rename_rewrites_names_and_references() {
    let mut it = ItemContainer::Typedef(Typedef {
        name: String::from("Alias"),
        generic_params: GenericParams(vec![]),
        aliased: path("Old", vec![]),
        meta: meta(),
    });
    let mut config = Config::new(Language::C);
    config.export.rename.push((String::from("Alias"), String::from("NewAlias")));
    config.export.rename.push((String::from("Old"), String::from("New")));
    it.rename_for_config(&config);
    match it {
        ItemContainer::Typedef(t) => {
            assert_eq!(t.name, "NewAlias");
            match t.aliased {
                Type::Path(n, _) => assert_eq!(n, "New"),
                _ => panic!("not a path"),
            }
        }
        _ => panic!("not a typedef"),
    }
}

#[test]
fn mangled_names_are_deterministic_and_structured() {
    let inner = path("Box", vec![prim("i32")]);
    let name = String::from("Vec");
    assert_eq!(mangle_path(&name, &vec![inner]), "VecG1_N3_BoxG1_P3_i32");
    assert_eq!(
        mangle_path(&name, &vec![Type::Ptr(Box::new(prim("u8")))]),
        "VecG1_RP2_u8"
    );
    assert_eq!(mangle_path(&name, &vec![prim("i32")]), "VecG1_P3_i32");
    assert_eq!(mangle_path(&name, &vec![prim("f64")]), "VecG1_P3_f64");
}

#[test]
fn mangled_names_never_collide_across_shapes() {
    // A pointer argument and a primitive whose name spells the pointer's
    // old flat encoding must not collapse to one name: the length-prefixed
    // tokens keep them apart.
    let name = String::from("M");
    let pointer_arg = mangle_path(&name, &vec![Type::Ptr(Box::new(prim("x")))]);
    let spoofed_arg = mangle_path(&name, &vec![prim("Ptr_x")]);
    assert_ne!(pointer_arg, spoofed_arg);
    // Nesting is unambiguous too: Vec<Box<i32>> differs from a primitive
    // spelled like its flat rendering.
    let nested = mangle_path(&name, &vec![path("Vec", vec![path("Box", vec![prim("i32")])])]);
    let flat = mangle_path(&name, &vec![prim("Vec_Box_i32")]);
    assert_ne!(nested, flat);
}

#[test]
fn literal_rendering_exact_values() {
    assert_eq!(LiteralExpr::from_literal(&Literal::UnsignedInt(0)).0, "0");
    assert_eq!(LiteralExpr::from_literal(&Literal::UnsignedInt(12345)).0, "12345");
    assert_eq!(
        LiteralExpr::from_literal(&Literal::UnsignedInt(u64::MAX)).0,
        "18446744073709551615"
    );
    assert_eq!(LiteralExpr::from_literal(&Literal::SignedInt(-42)).0, "-42");
    assert_eq!(
        LiteralExpr::from_literal(&Literal::SignedInt(i64::MIN)).0,
        "-9223372036854775808"
    );
    assert_eq!(LiteralExpr::from_literal(&Literal::Byte(7)).0, "7");
    assert_eq!(LiteralExpr::from_literal(&Literal::Truth(true)).0, "true");
    assert_eq!(LiteralExpr::from_literal(&Literal::Truth(false)).0, "false");
    assert_eq!(LiteralExpr::from_literal(&Literal::Character('q')).0, "q");
    assert_eq!(
        LiteralExpr::from_literal(&Literal::Text(String::from("hi"))).0,
        "u8\"hi\""
    );
    assert_eq!(
        LiteralExpr::from_literal(&Literal::FloatText(String::from("1.5"))).0,
        "1.5"
    );
}

#[test]
fn constant_requires_primitive_type() {
    let bad = cbindgen::constant::Constant::new(
        String::from("K"),
        path("SomeStruct", vec![]),
        LiteralExpr::from_literal(&Literal::UnsignedInt(1)),
        meta(),
    );
    assert_eq!(bad.unwrap_err(), cbindgen::CoreError::NonPrimitiveConstant);
    let good = cbindgen::constant::Constant::new(
        String::from("K"),
        Type::ConstPtr(Box::new(prim("u8"))),
        LiteralExpr::from_literal(&Literal::UnsignedInt(1)),
        meta(),
    );
    assert!(good.is_ok());
}

#[test]
fn ascii_upcase_keeps_underscores() {
    assert_eq!(cbindgen::config::ascii_upcase(&String::from("abc_def9")), "ABC_DEF9");
    assert_eq!(cbindgen::config::ascii_upcase(&String::from("ALREADY")), "ALREADY");
}

#[test]
fn rename_rule_parsing() {
    assert_eq!(
        cbindgen::config::parse_rename_rule(&String::from("uppercase")),
        Some(RenameRule::UpperCase)
    );
    assert_eq!(
        cbindgen::config::parse_rename_rule(&String::from("screaming_snake_case")),
        Some(RenameRule::ScreamingSnakeCase)
    );
    assert_eq!(cbindgen::config::parse_rename_rule(&String::from("mystery")), None);
}

#[test]
fn simplify_option_to_pointer() {
    let mut it = ItemContainer::Typedef(Typedef {
        name: String::from("MaybePtr"),
        generic_params: GenericParams(vec![]),
        aliased: path("Option", vec![Type::Ptr(Box::new(prim("u8")))]),
        meta: meta(),
    });
    it.simplify_option_to_ptr();
    match it {
        ItemContainer::Typedef(t) => match t.aliased {
            Type::Ptr(inner) => match *inner {
                Type::Primitive(n) => assert_eq!(n, "u8"),
                _ => panic!("wrong pointee"),
            },
            _ => panic!("not simplified to a pointer"),
        },
        _ => panic!("not a typedef"),
    }
}

#[test]
fn annotation_transfer_first_writer_wins() {
    let mut anns1 = AnnotationSet::new();
    anns1
        .annotations
        .push((String::from("mark"), AnnotationValue::Atom(String::from("one"))));
    let mut anns2 = AnnotationSet::new();
    anns2
        .annotations
        .push((String::from("mark"), AnnotationValue::Atom(String::from("two"))));
    let mut out: Vec<(String, AnnotationSet)> = Vec::new();
    let mut first = Typedef {
        name: String::from("A1"),
        generic_params: GenericParams(vec![]),
        aliased: path("Target", vec![]),
        meta: Metadata { cfg: None, annotations: anns1, documentation: String::new() },
    };
    let mut second = Typedef {
        name: String::from("A2"),
        generic_params: GenericParams(vec![]),
        aliased: path("Target", vec![]),
        meta: Metadata { cfg: None, annotations: anns2, documentation: String::new() },
    };
    assert!(!first.transfer_annotations(&mut out));
    // The second alias loses and keeps nothing transferred.
    assert!(second.transfer_annotations(&mut out));
    assert_eq!(out.len(), 1);
    assert_eq!(out[0].0, "Target");
    assert!(first.meta.annotations.is_empty());
}

#[test]
fn rebuild_recomputes_after_renaming() {
    let mut map = ItemMap::new();
    assert!(map.try_insert(named_struct("One", meta())));
    assert!(map.try_insert(named_struct("Two", meta())));
    let dropped = map.rebuild();
    assert_eq!(dropped, 0);
    assert_eq!(map.to_vec().len(), 2);
    // A second rebuild with nothing changed drops nothing and keeps the
    // same contents: rebuilding is idempotent.
    let dropped_again = map.rebuild();
    assert_eq!(dropped_again, 0);
    let names: Vec<String> = map.to_vec().iter().map(|it| it.name().clone()).collect();
    assert_eq!(names, vec![String::from("One"), String::from("Two")]);
}

#[test]
fn extend_with_merges_under_insert_rule() {
    let mut left = ItemMap::new();
    assert!(left.try_insert(named_struct("Shared", meta())));
    let mut right = ItemMap::new();
    assert!(right.try_insert(named_struct("Shared", meta())));
    assert!(right.try_insert(named_struct("Fresh", meta())));
    left.extend_with(&right);
    // The conflicting unconditional declaration is dropped; the new name
    // is added.
    assert_eq!(left.to_vec().len(), 2);
    assert!(left.get_items(&String::from("Fresh")).is_some());
}

#[test]
fn empty_library_generates_empty_bundle() {
    let lib = cbindgen::library::Library::new(
        Config::new(Language::C),
        ItemMap::new(),
        ItemMap::new(),
        ItemMap::new(),
        vec![],
    );
    let out = lib.generate().unwrap();
    assert!(out.constants.is_empty());
    assert!(out.globals.is_empty());
    assert!(out.items.is_empty());
    assert!(out.functions.is_empty());
}

#[test]
fn enum_variants_follow_member_rules() {
    let mut it = ItemContainer::Enum(cbindgen::structure::Enum {
        name: String::from("Mode"),
        variants: vec![
            cbindgen::structure::EnumVariant { name: String::from("fast_path"), value: 0 },
            cbindgen::structure::EnumVariant { name: String::from("slow_path"), value: 1 },
        ],
        meta: meta(),
    });
    let mut config = Config::new(Language::C);
    config.structure.rename_fields = Some(RenameRule::ScreamingSnakeCase);
    it.rename_for_config(&config);
    match it {
        ItemContainer::Enum(e) => {
            assert_eq!(e.variants[0].name, "FAST_PATH");
            assert_eq!(e.variants[1].name, "SLOW_PATH");
            assert_eq!(e.variants[0].value, 0);
        }
        _ => panic!("not an enum"),
    }
}

#[test]
fn static_rename_covers_name_and_type() {
    let mut it = ItemContainer::Static(cbindgen::global::Static {
        name: String::from("COUNTER"),
        ty: path("Old", vec![]),
        mutable: true,
        meta: meta(),
    });
    let mut config = Config::new(Language::C);
    config.export.rename.push((String::from("COUNTER"), String::from("counter_v2")));
    config.export.rename.push((String::from("Old"), String::from("New")));
    it.rename_for_config(&config);
    match it {
        ItemContainer::Static(s) => {
            assert_eq!(s.name, "counter_v2");
            match s.ty {
                Type::Path(n, _) => assert_eq!(n, "New"),
                _ => panic!("not a path"),
            }
        }
        _ => panic!("not a static"),
    }
}
