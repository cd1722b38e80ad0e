//! The uniform declaration kind, and name-keyed declaration storage that
//! merges configuration-gated alternatives sharing a name.

use crate::constant::{Constant, ConstantV};
use crate::function::{Function, FunctionArgV, FunctionV};
use crate::global::{Static, StaticV};
use crate::metadata::MetadataV;
use crate::opaque::{OpaqueItem, OpaqueItemV};
use crate::structure::{FieldV, Struct, StructV, Union, UnionV, Enum, EnumV};
use crate::typedef::{Typedef, TypedefV};
use crate::types::{dep_names, names_of, paths_of, usages, GenericPath, Type, TypeV};
use vstd::prelude::*;

verus! {

/// One declaration of any kind.
#[derive(Debug)]
pub enum ItemContainer {
    Constant(Constant),
    Static(Static),
    OpaqueItem(OpaqueItem),
    Struct(Struct),
    Union(Union),
    Enum(Enum),
    Typedef(Typedef),
}

/// Model of a declaration of any kind.
#[verifier::ext_equal]
pub enum ItemContainerV {
    Constant(ConstantV),
    Static(StaticV),
    OpaqueItem(OpaqueItemV),
    Struct(StructV),
    Union(UnionV),
    Enum(EnumV),
    Typedef(TypedefV),
}

impl View for ItemContainer {
    type V = ItemContainerV;

    open spec fn view(&self) -> ItemContainerV {
        match self {
            ItemContainer::Constant(x) => ItemContainerV::Constant(x@),
            ItemContainer::Static(x) => ItemContainerV::Static(x@),
            ItemContainer::OpaqueItem(x) => ItemContainerV::OpaqueItem(x@),
            ItemContainer::Struct(x) => ItemContainerV::Struct(x@),
            ItemContainer::Union(x) => ItemContainerV::Union(x@),
            ItemContainer::Enum(x) => ItemContainerV::Enum(x@),
            ItemContainer::Typedef(x) => ItemContainerV::Typedef(x@),
        }
    }
}

impl ItemContainerV {
    /// The declaration's top-level name.
    pub open spec fn name_v(self) -> Seq<char> {
        match self {
            ItemContainerV::Constant(x) => x.name,
            ItemContainerV::Static(x) => x.name,
            ItemContainerV::OpaqueItem(x) => x.name,
            ItemContainerV::Struct(x) => x.name,
            ItemContainerV::Union(x) => x.name,
            ItemContainerV::Enum(x) => x.name,
            ItemContainerV::Typedef(x) => x.name,
        }
    }

    /// The declaration's metadata.
    pub open spec fn meta_v(self) -> MetadataV {
        match self {
            ItemContainerV::Constant(x) => x.meta,
            ItemContainerV::Static(x) => x.meta,
            ItemContainerV::OpaqueItem(x) => x.meta,
            ItemContainerV::Struct(x) => x.meta,
            ItemContainerV::Union(x) => x.meta,
            ItemContainerV::Enum(x) => x.meta,
            ItemContainerV::Typedef(x) => x.meta,
        }
    }

    /// The declaration's configuration predicate, if any.
    pub open spec fn cfg_v(self) -> Option<Seq<char>> {
        self.meta_v().cfg
    }

    /// The declaration's generic parameter names.
    pub open spec fn generic_names(self) -> Seq<Seq<char>> {
        match self {
            ItemContainerV::Constant(_) => Seq::empty(),
            ItemContainerV::Static(_) => Seq::empty(),
            ItemContainerV::OpaqueItem(x) => x.generic_params,
            ItemContainerV::Struct(x) => x.generic_params,
            ItemContainerV::Union(x) => x.generic_params,
            ItemContainerV::Enum(_) => Seq::empty(),
            ItemContainerV::Typedef(x) => x.generic_params,
        }
    }

    /// Whether the declaration is a generic template.
    pub open spec fn is_generic_v(self) -> bool {
        self.generic_names().len() > 0
    }

    /// Raw by-value dependency names of the declaration's own types, in
    /// traversal order, before the declaration's generic parameter names
    /// are taken out.
    pub open spec fn deps_raw(self) -> Seq<Seq<char>> {
        match self {
            ItemContainerV::Constant(x) => dep_names(x.ty),
            ItemContainerV::Static(x) => dep_names(x.ty),
            ItemContainerV::OpaqueItem(_) => Seq::empty(),
            ItemContainerV::Struct(x) => fields_dep_names(x.fields),
            ItemContainerV::Union(x) => fields_dep_names(x.fields),
            ItemContainerV::Enum(_) => Seq::empty(),
            ItemContainerV::Typedef(x) => dep_names(x.aliased),
        }
    }

    /// The declaration's by-value dependency names: names of other
    /// declarations whose definitions must precede this one. References to
    /// the declaration's own generic parameters are not dependencies.
    pub open spec fn real_deps(self) -> Seq<Seq<char>> {
        crate::minus_names(self.deps_raw(), self.generic_names())
    }

    /// Every usage of a possibly-generic declaration in this declaration's
    /// types, pointers included.
    pub open spec fn usages_v(self) -> Seq<crate::types::GenericPathV> {
        match self {
            ItemContainerV::Constant(x) => usages(x.ty),
            ItemContainerV::Static(x) => usages(x.ty),
            ItemContainerV::OpaqueItem(_) => Seq::empty(),
            ItemContainerV::Struct(x) => fields_usages(x.fields),
            ItemContainerV::Union(x) => fields_usages(x.fields),
            ItemContainerV::Enum(_) => Seq::empty(),
            ItemContainerV::Typedef(x) => usages(x.aliased),
        }
    }
}

/// The positional member-name overrides attached to a declaration, if any:
/// the list stored under the `field-names` annotation.
pub open spec fn override_names(anns: Seq<(Seq<char>, crate::metadata::AnnotationValueV)>) -> Option<
    Seq<Seq<char>>,
> {
    match crate::metadata::annotation_lookup(anns, "field-names"@) {
        Some(crate::metadata::AnnotationValueV::List(ns)) => Some(ns),
        _ => None,
    }
}

/// The member rename rule in effect for one declaration: its own
/// `rename-all` annotation when present and recognized, else the
/// library-wide default.
pub open spec fn member_rule(
    anns: Seq<(Seq<char>, crate::metadata::AnnotationValueV)>,
    config_rule: Option<crate::config::RenameRule>,
) -> Option<crate::config::RenameRule> {
    match crate::metadata::annotation_lookup(anns, "rename-all"@) {
        Some(crate::metadata::AnnotationValueV::Atom(r)) => match crate::config::parsed_rule(r) {
            Some(x) => Some(x),
            None => config_rule,
        },
        _ => config_rule,
    }
}

/// The final name of the member at position `i`: an explicit positional
/// override wins over any rule; else the rule in effect applies; else an
/// anonymous positional member gains an underscore prefix so it stays a
/// legal identifier.
pub open spec fn member_name(
    old_name: Seq<char>,
    i: int,
    ov: Option<Seq<Seq<char>>>,
    rule: Option<crate::config::RenameRule>,
    tuple: bool,
) -> Seq<char> {
    match ov {
        Some(ns) => if i < ns.len() {
            ns[i]
        } else {
            old_name
        },
        None => match rule {
            Some(r) => r.applied(old_name),
            None => if tuple {
                seq!['_'] + old_name
            } else {
                old_name
            },
        },
    }
}

/// An explicit positional override name always beats any rename rule,
/// whatever the rule says.
pub proof fn lemma_member_override_wins(
    old_name: Seq<char>,
    i: int,
    ns: Seq<Seq<char>>,
    rule: Option<crate::config::RenameRule>,
    tuple: bool,
)
    requires
        0 <= i < ns.len(),
    ensures
        member_name(old_name, i, Some(ns), rule, tuple) == ns[i],
{
}

/// The fields of a struct or union after the rename pass: member names by
/// precedence, field types rewritten by the export rename map.
pub open spec fn renamed_fields(
    fs: Seq<FieldV>,
    anns: Seq<(Seq<char>, crate::metadata::AnnotationValueV)>,
    config_rule: Option<crate::config::RenameRule>,
    tuple: bool,
    rs: Seq<(Seq<char>, Seq<char>)>,
) -> Seq<FieldV> {
    Seq::new(
        fs.len(),
        |i: int|
            FieldV {
                name: member_name(fs[i].name, i, override_names(anns), member_rule(anns, config_rule), tuple),
                ty: crate::types::rename_type(fs[i].ty, rs),
                doc: fs[i].doc,
            },
    )
}

/// The variants of an enum after the rename pass.
pub open spec fn renamed_variants(
    vs: Seq<crate::structure::EnumVariantV>,
    anns: Seq<(Seq<char>, crate::metadata::AnnotationValueV)>,
    config_rule: Option<crate::config::RenameRule>,
) -> Seq<crate::structure::EnumVariantV> {
    Seq::new(
        vs.len(),
        |i: int|
            crate::structure::EnumVariantV {
                name: member_name(vs[i].name, i, override_names(anns), member_rule(anns, config_rule), false),
                value: vs[i].value,
            },
    )
}

/// One declaration after the rename pass: the export rename map applied to
/// its top-level name and to every declaration reference in its types, and
/// members renamed by precedence.
pub open spec fn renamed_decl(
    v: ItemContainerV,
    rs: Seq<(Seq<char>, Seq<char>)>,
    config_rule: Option<crate::config::RenameRule>,
) -> ItemContainerV {
    match v {
        ItemContainerV::Constant(c) => ItemContainerV::Constant(
            ConstantV { name: crate::types::applied_rename(rs, c.name), ..c },
        ),
        ItemContainerV::Static(s) => ItemContainerV::Static(
            StaticV {
                name: crate::types::applied_rename(rs, s.name),
                ty: crate::types::rename_type(s.ty, rs),
                ..s
            },
        ),
        ItemContainerV::OpaqueItem(o) => ItemContainerV::OpaqueItem(
            OpaqueItemV { name: crate::types::applied_rename(rs, o.name), ..o },
        ),
        ItemContainerV::Struct(st) => ItemContainerV::Struct(
            StructV {
                name: crate::types::applied_rename(rs, st.name),
                fields: renamed_fields(
                    st.fields,
                    st.meta.annotations,
                    config_rule,
                    st.tuple_struct,
                    rs,
                ),
                ..st
            },
        ),
        ItemContainerV::Union(u) => ItemContainerV::Union(
            UnionV {
                name: crate::types::applied_rename(rs, u.name),
                fields: renamed_fields(
                    u.fields,
                    u.meta.annotations,
                    config_rule,
                    u.tuple_union,
                    rs,
                ),
                ..u
            },
        ),
        ItemContainerV::Enum(e) => ItemContainerV::Enum(
            EnumV {
                name: crate::types::applied_rename(rs, e.name),
                variants: renamed_variants(e.variants, e.meta.annotations, config_rule),
                ..e
            },
        ),
        ItemContainerV::Typedef(t) => ItemContainerV::Typedef(
            TypedefV {
                name: crate::types::applied_rename(rs, t.name),
                aliased: crate::types::rename_type(t.aliased, rs),
                ..t
            },
        ),
    }
}

/// One generic declaration instantiated at concrete arguments: the mangled
/// name, no generic parameters left, every parameter reference substituted.
pub open spec fn instantiated_decl(
    v: ItemContainerV,
    mangled: Seq<char>,
    args: Seq<TypeV>,
) -> ItemContainerV {
    match v {
        ItemContainerV::OpaqueItem(o) => ItemContainerV::OpaqueItem(
            OpaqueItemV { name: mangled, generic_params: Seq::empty(), ..o },
        ),
        ItemContainerV::Struct(st) => ItemContainerV::Struct(
            StructV {
                name: mangled,
                generic_params: Seq::empty(),
                fields: Seq::new(
                    st.fields.len(),
                    |i: int|
                        FieldV {
                            name: st.fields[i].name,
                            ty: crate::types::subst(st.fields[i].ty, st.generic_params, args),
                            doc: st.fields[i].doc,
                        },
                ),
                ..st
            },
        ),
        ItemContainerV::Union(u) => ItemContainerV::Union(
            UnionV {
                name: mangled,
                generic_params: Seq::empty(),
                fields: Seq::new(
                    u.fields.len(),
                    |i: int|
                        FieldV {
                            name: u.fields[i].name,
                            ty: crate::types::subst(u.fields[i].ty, u.generic_params, args),
                            doc: u.fields[i].doc,
                        },
                ),
                ..u
            },
        ),
        ItemContainerV::Typedef(t) => ItemContainerV::Typedef(
            TypedefV {
                name: mangled,
                generic_params: Seq::empty(),
                aliased: crate::types::subst(t.aliased, t.generic_params, args),
                ..t
            },
        ),
        _ => v,
    }
}

impl ItemContainer {
    /// The declaration's annotations.
    pub fn annotations(&self) -> (r: &crate::metadata::AnnotationSet)
        ensures
            r@ == self@.meta_v().annotations,
    {
        match self {
            ItemContainer::Constant(x) => &x.meta.annotations,
            ItemContainer::Static(x) => &x.meta.annotations,
            ItemContainer::OpaqueItem(x) => &x.meta.annotations,
            ItemContainer::Struct(x) => &x.meta.annotations,
            ItemContainer::Union(x) => &x.meta.annotations,
            ItemContainer::Enum(x) => &x.meta.annotations,
            ItemContainer::Typedef(x) => &x.meta.annotations,
        }
    }

    /// Replaces the declaration's annotations.
    pub fn set_annotations(&mut self, anns: crate::metadata::AnnotationSet)
        ensures
            final(self)@ == with_annotations(old(self)@, anns@),
    {
        match self {
            ItemContainer::Constant(x) => x.meta.annotations = anns,
            ItemContainer::Static(x) => x.meta.annotations = anns,
            ItemContainer::OpaqueItem(x) => x.meta.annotations = anns,
            ItemContainer::Struct(x) => x.meta.annotations = anns,
            ItemContainer::Union(x) => x.meta.annotations = anns,
            ItemContainer::Enum(x) => x.meta.annotations = anns,
            ItemContainer::Typedef(x) => x.meta.annotations = anns,
        }
        proof {
            assert(self@ =~= with_annotations(old(self)@, anns@));
        }
    }
}

/// An anonymous positional member name prefixed with an underscore.
fn prefix_underscore(s: &String) -> (r: String)
    ensures
        r@ == seq!['_'] + s@,
{
    let mut r = String::from_str("_");
    r.append(s.as_str());
    proof {
        reveal_strlit("_");
        assert(r@ =~= seq!['_'] + s@);
    }
    r
}

/// The member rename rule in effect for a declaration, decided from its
/// annotations and the library-wide default.
fn decide_member_rule(
    anns: &crate::metadata::AnnotationSet,
    config_rule: Option<crate::config::RenameRule>,
) -> (r: Option<crate::config::RenameRule>)
    ensures
        r == member_rule(anns@, config_rule),
{
    let key = String::from_str("rename-all");
    proof {
        reveal_strlit("rename-all");
    }
    match anns.lookup(&key) {
        Some(crate::metadata::AnnotationValue::Atom(s)) => {
            match crate::config::parse_rename_rule(&s) {
                Some(x) => Some(x),
                None => config_rule,
            }
        }
        _ => config_rule,
    }
}

/// The positional member-name overrides of a declaration, if any.
fn decide_override_names(anns: &crate::metadata::AnnotationSet) -> (r: Option<Vec<String>>)
    ensures
        match r {
            Some(ns) => override_names(anns@) == Some(names_of(ns@)),
            None => override_names(anns@) is None,
        },
{
    let key = String::from_str("field-names");
    proof {
        reveal_strlit("field-names");
    }
    match anns.lookup(&key) {
        Some(crate::metadata::AnnotationValue::List(ns)) => Some(ns),
        _ => None,
    }
}

/// Applies the member rename pass to a field list.
fn rename_fields_exec(
    fs: &Vec<crate::structure::Field>,
    anns: &crate::metadata::AnnotationSet,
    config_rule: Option<crate::config::RenameRule>,
    tuple: bool,
    rs: &Vec<(String, String)>,
) -> (res: Vec<crate::structure::Field>)
    ensures
        crate::structure::fields_of(res@) == renamed_fields(
            crate::structure::fields_of(fs@),
            anns@,
            config_rule,
            tuple,
            crate::types::pairs_of(rs@),
        ),
{
    let ghost fv = crate::structure::fields_of(fs@);
    let ghost prs = crate::types::pairs_of(rs@);
    let rule = decide_member_rule(anns, config_rule);
    let ov = decide_override_names(anns);
    let mut out: Vec<crate::structure::Field> = Vec::new();
    let mut i: usize = 0;
    while i < fs.len()
        invariant
            i <= fs@.len(),
            fv == crate::structure::fields_of(fs@),
            fv.len() == fs@.len(),
            prs == crate::types::pairs_of(rs@),
            rule == member_rule(anns@, config_rule),
            match ov {
                Some(ref ns) => override_names(anns@) == Some(names_of(ns@)),
                None => override_names(anns@) is None,
            },
            out@.len() == i as int,
            forall|k: int|
                0 <= k < i ==> #[trigger] out@[k]@ == renamed_fields(
                    fv,
                    anns@,
                    config_rule,
                    tuple,
                    prs,
                )[k],
        decreases fs@.len() - i,
    {
        let old_name = &fs[i].name;
        let new_name: String = match &ov {
            Some(ns) => {
                if i < ns.len() {
                    ns[i].clone()
                } else {
                    old_name.clone()
                }
            }
            None => {
                match rule {
                    Some(r) => r.apply(old_name),
                    None => {
                        if tuple {
                            prefix_underscore(old_name)
                        } else {
                            old_name.clone()
                        }
                    }
                }
            }
        };
        let new_ty = crate::types::rename_in_type(&fs[i].ty, rs);
        out.push(
            crate::structure::Field { name: new_name, ty: new_ty, doc: fs[i].doc.clone() },
        );
        proof {
            assert(out@[i as int]@ =~= renamed_fields(fv, anns@, config_rule, tuple, prs)[
                i as int
            ]) by {
                assert(fv[i as int] == fs@[i as int]@);
            }
        }
        i = i + 1;
    }
    proof {
        assert(crate::structure::fields_of(out@) =~= renamed_fields(
            fv,
            anns@,
            config_rule,
            tuple,
            prs,
        ));
    }
    out
}

impl ItemContainer {
    /// Applies the rename pass: export renames on the top-level name and on
    /// every type reference, and member renames by precedence — an explicit
    /// per-declaration override list first, else the declaration's own
    /// rename rule, else the library-wide default, else the underscore
    /// fallback for anonymous positional members.
    pub fn rename_for_config(&mut self, config: &crate::config::Config)
        ensures
            final(self)@ == renamed_decl(
                old(self)@,
                crate::types::pairs_of(config.export.rename@),
                config.structure.rename_fields,
            ),
    {
        let rs = &config.export.rename;
        match self {
            ItemContainer::Constant(x) => {
                let nn = crate::types::rename_name(&x.name, rs);
                x.name = nn;
            }
            ItemContainer::Static(x) => {
                let nn = crate::types::rename_name(&x.name, rs);
                x.name = nn;
                let nt = crate::types::rename_in_type(&x.ty, rs);
                x.ty = nt;
            }
            ItemContainer::OpaqueItem(x) => {
                let nn = crate::types::rename_name(&x.name, rs);
                x.name = nn;
            }
            ItemContainer::Struct(x) => {
                let nn = crate::types::rename_name(&x.name, rs);
                x.name = nn;
                let nf = rename_fields_exec(
                    &x.fields,
                    &x.meta.annotations,
                    config.structure.rename_fields,
                    x.tuple_struct,
                    rs,
                );
                x.fields = nf;
            }
            ItemContainer::Union(x) => {
                let nn = crate::types::rename_name(&x.name, rs);
                x.name = nn;
                let nf = rename_fields_exec(
                    &x.fields,
                    &x.meta.annotations,
                    config.structure.rename_fields,
                    x.tuple_union,
                    rs,
                );
                x.fields = nf;
            }
            ItemContainer::Enum(x) => {
                let nn = crate::types::rename_name(&x.name, rs);
                x.name = nn;
                let rule = decide_member_rule(&x.meta.annotations, config.structure.rename_fields);
                let ov = decide_override_names(&x.meta.annotations);
                let ghost vv = crate::structure::variants_of(x.variants@);
                let ghost anns_v = x.meta.annotations@;
                let mut out: Vec<crate::structure::EnumVariant> = Vec::new();
                let mut i: usize = 0;
                while i < x.variants.len()
                    invariant
                        i <= x.variants@.len(),
                        vv == crate::structure::variants_of(x.variants@),
                        vv.len() == x.variants@.len(),
                        anns_v == x.meta.annotations@,
                        rule == member_rule(anns_v, config.structure.rename_fields),
                        match ov {
                            Some(ref ns) => override_names(anns_v) == Some(names_of(ns@)),
                            None => override_names(anns_v) is None,
                        },
                        out@.len() == i as int,
                        forall|k: int|
                            0 <= k < i ==> #[trigger] out@[k]@ == renamed_variants(
                                vv,
                                anns_v,
                                config.structure.rename_fields,
                            )[k],
                    decreases x.variants@.len() - i,
                {
                    let old_name = &x.variants[i].name;
                    let new_name: String = match &ov {
                        Some(ns) => {
                            if i < ns.len() {
                                ns[i].clone()
                            } else {
                                old_name.clone()
                            }
                        }
                        None => {
                            match rule {
                                Some(r) => r.apply(old_name),
                                None => old_name.clone(),
                            }
                        }
                    };
                    out.push(
                        crate::structure::EnumVariant {
                            name: new_name,
                            value: x.variants[i].value,
                        },
                    );
                    proof {
                        assert(out@[i as int]@ =~= renamed_variants(
                            vv,
                            anns_v,
                            config.structure.rename_fields,
                        )[i as int]) by {
                            assert(vv[i as int] == x.variants@[i as int]@);
                        }
                    }
                    i = i + 1;
                }
                x.variants = out;
                proof {
                    assert(crate::structure::variants_of(x.variants@) =~= renamed_variants(
                        vv,
                        anns_v,
                        config.structure.rename_fields,
                    ));
                }
            }
            ItemContainer::Typedef(x) => {
                let nn = crate::types::rename_name(&x.name, rs);
                x.name = nn;
                let nt = crate::types::rename_in_type(&x.aliased, rs);
                x.aliased = nt;
            }
        }
        proof {
            assert(self@ =~= renamed_decl(
                old(self)@,
                crate::types::pairs_of(config.export.rename@),
                config.structure.rename_fields,
            ));
        }
    }

    /// Builds the concrete specialization of this generic declaration for
    /// one argument list: the mangled name, no generic parameters, every
    /// parameter reference replaced by its concrete type.
    pub fn instantiate_monomorph(&self, mangled: String, args: &Vec<Type>) -> (r: ItemContainer)
        requires
            self@.is_generic_v(),
            self@.generic_names().len() == args@.len(),
        ensures
            r@ == instantiated_decl(self@, mangled@, Type::models_of(args@)),
    {
        proof {
            Type::lemma_models_of(args@);
        }
        match self {
            ItemContainer::OpaqueItem(x) => {
                let r = ItemContainer::OpaqueItem(
                    crate::opaque::OpaqueItem {
                        name: mangled,
                        generic_params: crate::generics::GenericParams::new(),
                        meta: x.meta.clone(),
                    },
                );
                proof {
                    assert(r@ =~= instantiated_decl(self@, mangled@, Type::models_of(args@)));
                }
                r
            }
            ItemContainer::Struct(x) => {
                let nf = subst_fields(&x.fields, &x.generic_params.0, args);
                let r = ItemContainer::Struct(
                    crate::structure::Struct {
                        name: mangled,
                        generic_params: crate::generics::GenericParams::new(),
                        fields: nf,
                        tuple_struct: x.tuple_struct,
                        meta: x.meta.clone(),
                    },
                );
                proof {
                    assert(r@ =~= instantiated_decl(self@, mangled@, Type::models_of(args@)));
                }
                r
            }
            ItemContainer::Union(x) => {
                let nf = subst_fields(&x.fields, &x.generic_params.0, args);
                let r = ItemContainer::Union(
                    crate::structure::Union {
                        name: mangled,
                        generic_params: crate::generics::GenericParams::new(),
                        fields: nf,
                        tuple_union: x.tuple_union,
                        meta: x.meta.clone(),
                    },
                );
                proof {
                    assert(r@ =~= instantiated_decl(self@, mangled@, Type::models_of(args@)));
                }
                r
            }
            ItemContainer::Typedef(x) => {
                let nt = crate::types::subst_type(&x.aliased, &x.generic_params.0, args);
                let r = ItemContainer::Typedef(
                    crate::typedef::Typedef {
                        name: mangled,
                        generic_params: crate::generics::GenericParams::new(),
                        aliased: nt,
                        meta: x.meta.clone(),
                    },
                );
                proof {
                    assert(r@ =~= instantiated_decl(self@, mangled@, Type::models_of(args@)));
                }
                r
            }
            ItemContainer::Constant(_) => self.clone(),
            ItemContainer::Static(_) => self.clone(),
            ItemContainer::Enum(_) => self.clone(),
        }
    }
}

/// Substitutes concrete arguments into every field type.
fn subst_fields(
    fs: &Vec<crate::structure::Field>,
    params: &Vec<String>,
    args: &Vec<Type>,
) -> (res: Vec<crate::structure::Field>)
    requires
        params@.len() == args@.len(),
    ensures
        crate::structure::fields_of(res@) == Seq::new(
            fs@.len() as nat,
            |i: int|
                FieldV {
                    name: crate::structure::fields_of(fs@)[i].name,
                    ty: crate::types::subst(
                        crate::structure::fields_of(fs@)[i].ty,
                        names_of(params@),
                        Type::models_of(args@),
                    ),
                    doc: crate::structure::fields_of(fs@)[i].doc,
                },
        ),
{
    let ghost fv = crate::structure::fields_of(fs@);
    let mut out: Vec<crate::structure::Field> = Vec::new();
    let mut i: usize = 0;
    while i < fs.len()
        invariant
            i <= fs@.len(),
            params@.len() == args@.len(),
            fv == crate::structure::fields_of(fs@),
            fv.len() == fs@.len(),
            out@.len() == i as int,
            forall|k: int|
                0 <= k < i ==> #[trigger] out@[k]@ == (FieldV {
                    name: fv[k].name,
                    ty: crate::types::subst(fv[k].ty, names_of(params@), Type::models_of(args@)),
                    doc: fv[k].doc,
                }),
        decreases fs@.len() - i,
    {
        let nt = crate::types::subst_type(&fs[i].ty, params, args);
        out.push(
            crate::structure::Field { name: fs[i].name.clone(), ty: nt, doc: fs[i].doc.clone() },
        );
        proof {
            assert(fv[i as int] == fs@[i as int]@);
            assert(out@[i as int]@ =~= FieldV {
                name: fv[i as int].name,
                ty: crate::types::subst(
                    fv[i as int].ty,
                    names_of(params@),
                    Type::models_of(args@),
                ),
                doc: fv[i as int].doc,
            });
        }
        i = i + 1;
    }
    proof {
        assert(crate::structure::fields_of(out@) =~= Seq::new(
            fs@.len() as nat,
            |i: int|
                FieldV {
                    name: fv[i].name,
                    ty: crate::types::subst(fv[i].ty, names_of(params@), Type::models_of(args@)),
                    doc: fv[i].doc,
                },
        ));
    }
    out
}

/// A declaration with every optional-value type normalized to its pointer
/// form.
pub open spec fn simplified_decl(v: ItemContainerV) -> ItemContainerV {
    match v {
        ItemContainerV::Constant(c) => ItemContainerV::Constant(
            ConstantV { ty: crate::types::simplify_option(c.ty), ..c },
        ),
        ItemContainerV::Static(s) => ItemContainerV::Static(
            StaticV { ty: crate::types::simplify_option(s.ty), ..s },
        ),
        ItemContainerV::OpaqueItem(o) => ItemContainerV::OpaqueItem(o),
        ItemContainerV::Struct(st) => ItemContainerV::Struct(
            StructV {
                fields: Seq::new(
                    st.fields.len(),
                    |i: int|
                        FieldV {
                            name: st.fields[i].name,
                            ty: crate::types::simplify_option(st.fields[i].ty),
                            doc: st.fields[i].doc,
                        },
                ),
                ..st
            },
        ),
        ItemContainerV::Union(u) => ItemContainerV::Union(
            UnionV {
                fields: Seq::new(
                    u.fields.len(),
                    |i: int|
                        FieldV {
                            name: u.fields[i].name,
                            ty: crate::types::simplify_option(u.fields[i].ty),
                            doc: u.fields[i].doc,
                        },
                ),
                ..u
            },
        ),
        ItemContainerV::Enum(e) => ItemContainerV::Enum(e),
        ItemContainerV::Typedef(t) => ItemContainerV::Typedef(
            TypedefV { aliased: crate::types::simplify_option(t.aliased), ..t },
        ),
    }
}

/// Normalizes every field type of a list.
fn simplify_fields(fs: &Vec<crate::structure::Field>) -> (res: Vec<crate::structure::Field>)
    ensures
        crate::structure::fields_of(res@) == Seq::new(
            fs@.len() as nat,
            |i: int|
                FieldV {
                    name: crate::structure::fields_of(fs@)[i].name,
                    ty: crate::types::simplify_option(crate::structure::fields_of(fs@)[i].ty),
                    doc: crate::structure::fields_of(fs@)[i].doc,
                },
        ),
{
    let ghost fv = crate::structure::fields_of(fs@);
    let mut out: Vec<crate::structure::Field> = Vec::new();
    let mut i: usize = 0;
    while i < fs.len()
        invariant
            i <= fs@.len(),
            fv == crate::structure::fields_of(fs@),
            fv.len() == fs@.len(),
            out@.len() == i as int,
            forall|k: int|
                0 <= k < i ==> #[trigger] out@[k]@ == (FieldV {
                    name: fv[k].name,
                    ty: crate::types::simplify_option(fv[k].ty),
                    doc: fv[k].doc,
                }),
        decreases fs@.len() - i,
    {
        let nt = crate::types::simplify_in_type(&fs[i].ty);
        out.push(
            crate::structure::Field { name: fs[i].name.clone(), ty: nt, doc: fs[i].doc.clone() },
        );
        proof {
            assert(fv[i as int] == fs@[i as int]@);
            assert(out@[i as int]@ =~= (FieldV {
                name: fv[i as int].name,
                ty: crate::types::simplify_option(fv[i as int].ty),
                doc: fv[i as int].doc,
            }));
        }
        i = i + 1;
    }
    proof {
        assert(crate::structure::fields_of(out@) =~= Seq::new(
            fs@.len() as nat,
            |i: int|
                FieldV {
                    name: fv[i].name,
                    ty: crate::types::simplify_option(fv[i].ty),
                    doc: fv[i].doc,
                },
        ));
    }
    out
}

/// A declaration with every reference to a generic instantiation rewritten
/// to its mangled concrete name; `None` when any contained usage was never
/// instantiated.
pub open spec fn rewritten_decl(
    v: ItemContainerV,
    table: Seq<(crate::types::GenericPathV, Seq<char>)>,
) -> Option<ItemContainerV> {
    match v {
        ItemContainerV::Constant(c) => match crate::monomorph::rewrite_type(c.ty, table) {
            Some(t) => Some(ItemContainerV::Constant(ConstantV { ty: t, ..c })),
            None => None,
        },
        ItemContainerV::Static(st) => match crate::monomorph::rewrite_type(st.ty, table) {
            Some(t) => Some(ItemContainerV::Static(StaticV { ty: t, ..st })),
            None => None,
        },
        ItemContainerV::OpaqueItem(_) => Some(v),
        ItemContainerV::Struct(st) => if forall|i: int|
            0 <= i < st.fields.len() ==> crate::monomorph::rewrite_type(
                (#[trigger] st.fields[i]).ty,
                table,
            ) is Some {
            Some(
                ItemContainerV::Struct(
                    StructV {
                        fields: Seq::new(
                            st.fields.len(),
                            |i: int|
                                FieldV {
                                    name: st.fields[i].name,
                                    ty: crate::monomorph::rewrite_type(
                                        st.fields[i].ty,
                                        table,
                                    )->Some_0,
                                    doc: st.fields[i].doc,
                                },
                        ),
                        ..st
                    },
                ),
            )
        } else {
            None
        },
        ItemContainerV::Union(u) => if forall|i: int|
            0 <= i < u.fields.len() ==> crate::monomorph::rewrite_type(
                (#[trigger] u.fields[i]).ty,
                table,
            ) is Some {
            Some(
                ItemContainerV::Union(
                    UnionV {
                        fields: Seq::new(
                            u.fields.len(),
                            |i: int|
                                FieldV {
                                    name: u.fields[i].name,
                                    ty: crate::monomorph::rewrite_type(
                                        u.fields[i].ty,
                                        table,
                                    )->Some_0,
                                    doc: u.fields[i].doc,
                                },
                        ),
                        ..u
                    },
                ),
            )
        } else {
            None
        },
        ItemContainerV::Enum(_) => Some(v),
        ItemContainerV::Typedef(t) => match crate::monomorph::rewrite_type(t.aliased, table) {
            Some(x) => Some(ItemContainerV::Typedef(TypedefV { aliased: x, ..t })),
            None => None,
        },
    }
}

impl ItemContainer {
    /// Normalizes every optional-value type in the declaration to its
    /// pointer form.
    pub fn simplify_option_to_ptr(&mut self)
        ensures
            final(self)@ == simplified_decl(old(self)@),
    {
        match self {
            ItemContainer::Constant(x) => {
                let nt = crate::types::simplify_in_type(&x.ty);
                x.ty = nt;
            }
            ItemContainer::Static(x) => {
                let nt = crate::types::simplify_in_type(&x.ty);
                x.ty = nt;
            }
            ItemContainer::OpaqueItem(_) => {}
            ItemContainer::Struct(x) => {
                let nf = simplify_fields(&x.fields);
                x.fields = nf;
            }
            ItemContainer::Union(x) => {
                let nf = simplify_fields(&x.fields);
                x.fields = nf;
            }
            ItemContainer::Enum(_) => {}
            ItemContainer::Typedef(x) => {
                let nt = crate::types::simplify_in_type(&x.aliased);
                x.aliased = nt;
            }
        }
        proof {
            assert(self@ =~= simplified_decl(old(self)@));
        }
    }

    /// Rewrites every reference to a generic instantiation in the
    /// declaration's types into its mangled concrete name: exactly
    /// `rewritten_decl`. Fails, changing nothing, exactly when a usage was
    /// never instantiated.
    pub fn mangle_paths(&mut self, mono: &crate::monomorph::Monomorphs) -> (r: Result<
        (),
        crate::CoreError,
    >)
        requires
            mono.wf(),
        ensures
            final(self)@.name_v() == old(self)@.name_v(),
            final(self)@.cfg_v() == old(self)@.cfg_v(),
            final(self)@.generic_names() == old(self)@.generic_names(),
            r is Ok ==> rewritten_decl(
                old(self)@,
                crate::monomorph::table_of(mono.replacements@),
            ) == Some(final(self)@),
            r is Err ==> final(self)@ == old(self)@ && r->Err_0
                == crate::CoreError::UnresolvedMonomorph && rewritten_decl(
                old(self)@,
                crate::monomorph::table_of(mono.replacements@),
            ) is None,
    {
        let ghost table = crate::monomorph::table_of(mono.replacements@);
        match self {
            ItemContainer::Constant(x) => {
                match mono.rewrite_in_type(&x.ty) {
                    Ok(nt) => {
                        x.ty = nt;
                        proof {
                            assert(rewritten_decl(old(self)@, table)->Some_0 =~= self@);
                        }
                        Ok(())
                    }
                    Err(e) => Err(e),
                }
            }
            ItemContainer::Static(x) => {
                match mono.rewrite_in_type(&x.ty) {
                    Ok(nt) => {
                        x.ty = nt;
                        proof {
                            assert(rewritten_decl(old(self)@, table)->Some_0 =~= self@);
                        }
                        Ok(())
                    }
                    Err(e) => Err(e),
                }
            }
            ItemContainer::OpaqueItem(_) => Ok(()),
            ItemContainer::Struct(x) => {
                match rewrite_fields(&x.fields, mono) {
                    Ok(nf) => {
                        proof {
                            assert forall|i: int| 0 <= i < x.fields@.len() implies crate::monomorph::rewrite_type(
                                (#[trigger] crate::structure::fields_of(x.fields@)[i]).ty,
                                table,
                            ) is Some by {
                                assert(nf@[i]@.ty == crate::monomorph::rewrite_type(
                                    x.fields@[i]@.ty,
                                    table,
                                )->Some_0 || crate::monomorph::rewrite_type(
                                    x.fields@[i]@.ty,
                                    table,
                                ) == Some(nf@[i]@.ty));
                            }
                        }
                        x.fields = nf;
                        proof {
                            let oldv = old(self)@->Struct_0;
                            assert(rewritten_decl(old(self)@, table) is Some);
                            assert(crate::structure::fields_of(x.fields@) =~= Seq::new(
                                oldv.fields.len(),
                                |i: int|
                                    FieldV {
                                        name: oldv.fields[i].name,
                                        ty: crate::monomorph::rewrite_type(
                                            oldv.fields[i].ty,
                                            table,
                                        )->Some_0,
                                        doc: oldv.fields[i].doc,
                                    },
                            ));
                            assert(rewritten_decl(old(self)@, table)->Some_0 =~= self@);
                        }
                        Ok(())
                    }
                    Err(e) => {
                        proof {
                            let k = choose|i: int|
                                0 <= i < x.fields@.len() && crate::monomorph::rewrite_type(
                                    (#[trigger] x.fields@[i]@).ty,
                                    table,
                                ) is None;
                            assert(old(self)@->Struct_0.fields[k] == x.fields@[k]@);
                            assert(rewritten_decl(old(self)@, table) is None);
                        }
                        Err(e)
                    }
                }
            }
            ItemContainer::Union(x) => {
                match rewrite_fields(&x.fields, mono) {
                    Ok(nf) => {
                        proof {
                            assert forall|i: int| 0 <= i < x.fields@.len() implies crate::monomorph::rewrite_type(
                                (#[trigger] crate::structure::fields_of(x.fields@)[i]).ty,
                                table,
                            ) is Some by {
                                assert(crate::monomorph::rewrite_type(
                                    x.fields@[i]@.ty,
                                    table,
                                ) == Some(nf@[i]@.ty));
                            }
                        }
                        x.fields = nf;
                        proof {
                            let oldv = old(self)@->Union_0;
                            assert(rewritten_decl(old(self)@, table) is Some);
                            assert(crate::structure::fields_of(x.fields@) =~= Seq::new(
                                oldv.fields.len(),
                                |i: int|
                                    FieldV {
                                        name: oldv.fields[i].name,
                                        ty: crate::monomorph::rewrite_type(
                                            oldv.fields[i].ty,
                                            table,
                                        )->Some_0,
                                        doc: oldv.fields[i].doc,
                                    },
                            ));
                            assert(rewritten_decl(old(self)@, table)->Some_0 =~= self@);
                        }
                        Ok(())
                    }
                    Err(e) => {
                        proof {
                            let k = choose|i: int|
                                0 <= i < x.fields@.len() && crate::monomorph::rewrite_type(
                                    (#[trigger] x.fields@[i]@).ty,
                                    table,
                                ) is None;
                            assert(old(self)@->Union_0.fields[k] == x.fields@[k]@);
                            assert(rewritten_decl(old(self)@, table) is None);
                        }
                        Err(e)
                    }
                }
            }
            ItemContainer::Enum(_) => Ok(()),
            ItemContainer::Typedef(x) => {
                match mono.rewrite_in_type(&x.aliased) {
                    Ok(nt) => {
                        x.aliased = nt;
                        proof {
                            assert(rewritten_decl(old(self)@, table)->Some_0 =~= self@);
                        }
                        Ok(())
                    }
                    Err(e) => Err(e),
                }
            }
        }
    }
}

/// Rewrites every field type of a list; fails on the first unresolved
/// instantiation.
fn rewrite_fields(
    fs: &Vec<crate::structure::Field>,
    mono: &crate::monomorph::Monomorphs,
) -> (r: Result<Vec<crate::structure::Field>, crate::CoreError>)
    requires
        mono.wf(),
    ensures
        match r {
            Ok(res) => res@.len() == fs@.len() && forall|k: int|
                0 <= k < fs@.len() ==> (#[trigger] res@[k]@).name == fs@[k]@.name && res@[k]@.doc
                    == fs@[k]@.doc && crate::monomorph::rewrite_type(
                    fs@[k]@.ty,
                    crate::monomorph::table_of(mono.replacements@),
                ) == Some(res@[k]@.ty),
            Err(e) => e == crate::CoreError::UnresolvedMonomorph && exists|i: int|
                0 <= i < fs@.len() && crate::monomorph::rewrite_type(
                    (#[trigger] fs@[i]@).ty,
                    crate::monomorph::table_of(mono.replacements@),
                ) is None,
        },
{
    let mut out: Vec<crate::structure::Field> = Vec::new();
    let mut i: usize = 0;
    while i < fs.len()
        invariant
            i <= fs@.len(),
            mono.wf(),
            out@.len() == i as int,
            forall|k: int|
                0 <= k < i ==> (#[trigger] out@[k]@).name == fs@[k]@.name && out@[k]@.doc
                    == fs@[k]@.doc && crate::monomorph::rewrite_type(
                    fs@[k]@.ty,
                    crate::monomorph::table_of(mono.replacements@),
                ) == Some(out@[k]@.ty),
        decreases fs@.len() - i,
    {
        match mono.rewrite_in_type(&fs[i].ty) {
            Ok(nt) => {
                out.push(
                    crate::structure::Field {
                        name: fs[i].name.clone(),
                        ty: nt,
                        doc: fs[i].doc.clone(),
                    },
                );
            }
            Err(e) => {
                proof {
                    assert(crate::monomorph::rewrite_type(
                        fs@[i as int]@.ty,
                        crate::monomorph::table_of(mono.replacements@),
                    ) is None);
                }
                return Err(e);
            }
        }
        i = i + 1;
    }
    Ok(out)
}

/// A declaration given `anns` when it has none of its own, else as it is.
pub open spec fn annotated_item(
    v: ItemContainerV,
    anns: Seq<(Seq<char>, crate::metadata::AnnotationValueV)>,
) -> ItemContainerV {
    if v.meta_v().annotations.len() == 0 {
        with_annotations(v, anns)
    } else {
        v
    }
}

/// A stored entry value with `annotated_item` applied to every member.
pub open spec fn value_annotated(
    v: ItemValueV,
    anns: Seq<(Seq<char>, crate::metadata::AnnotationValueV)>,
) -> ItemValueV {
    match v {
        ItemValueV::Single(it) => ItemValueV::Single(annotated_item(it, anns)),
        ItemValueV::Cfg(g) => ItemValueV::Cfg(
            g.map_values(|it: ItemContainerV| annotated_item(it, anns)),
        ),
    }
}

/// A registry model with the entry under `n`, if any, annotated.
pub open spec fn map_annotated_at(
    m: Seq<(Seq<char>, ItemValueV)>,
    n: Seq<char>,
    anns: Seq<(Seq<char>, crate::metadata::AnnotationValueV)>,
) -> Seq<(Seq<char>, ItemValueV)> {
    if !map_has_key(m, n) {
        m
    } else {
        let k = key_index(m, n);
        m.update(k, (m[k].0, value_annotated(m[k].1, anns)))
    }
}

/// How many members of a group keep their own annotations in a transfer.
pub open spec fn group_conflicts(g: Seq<ItemContainerV>) -> int
    decreases g,
{
    if g.len() == 0 {
        0int
    } else {
        (if g[0].meta_v().annotations.len() > 0 {
            1int
        } else {
            0int
        }) + group_conflicts(g.subrange(1, g.len() as int))
    }
}

/// A declaration with its annotations replaced and all else kept.
pub open spec fn with_annotations(
    v: ItemContainerV,
    anns: Seq<(Seq<char>, crate::metadata::AnnotationValueV)>,
) -> ItemContainerV {
    match v {
        ItemContainerV::Constant(c) => ItemContainerV::Constant(
            ConstantV { meta: MetadataV { annotations: anns, ..c.meta }, ..c },
        ),
        ItemContainerV::Static(s) => ItemContainerV::Static(
            StaticV { meta: MetadataV { annotations: anns, ..s.meta }, ..s },
        ),
        ItemContainerV::OpaqueItem(o) => ItemContainerV::OpaqueItem(
            OpaqueItemV { meta: MetadataV { annotations: anns, ..o.meta }, ..o },
        ),
        ItemContainerV::Struct(st) => ItemContainerV::Struct(
            StructV { meta: MetadataV { annotations: anns, ..st.meta }, ..st },
        ),
        ItemContainerV::Union(u) => ItemContainerV::Union(
            UnionV { meta: MetadataV { annotations: anns, ..u.meta }, ..u },
        ),
        ItemContainerV::Enum(e) => ItemContainerV::Enum(
            EnumV { meta: MetadataV { annotations: anns, ..e.meta }, ..e },
        ),
        ItemContainerV::Typedef(t) => ItemContainerV::Typedef(
            TypedefV { meta: MetadataV { annotations: anns, ..t.meta }, ..t },
        ),
    }
}

/// Concatenated by-value dependency names of a field list, in order.
pub open spec fn fields_dep_names(fs: Seq<FieldV>) -> Seq<Seq<char>>
    decreases fs,
{
    if fs.len() == 0 {
        Seq::empty()
    } else {
        dep_names(fs[0].ty) + fields_dep_names(fs.subrange(1, fs.len() as int))
    }
}

/// Concatenated usages of a field list, in order.
pub open spec fn fields_usages(fs: Seq<FieldV>) -> Seq<crate::types::GenericPathV>
    decreases fs,
{
    if fs.len() == 0 {
        Seq::empty()
    } else {
        usages(fs[0].ty) + fields_usages(fs.subrange(1, fs.len() as int))
    }
}

impl Clone for ItemContainer {
    fn clone(&self) -> (r: Self)
        ensures
            r@ == self@,
    {
        match self {
            ItemContainer::Constant(x) => ItemContainer::Constant(x.clone()),
            ItemContainer::Static(x) => ItemContainer::Static(x.clone()),
            ItemContainer::OpaqueItem(x) => ItemContainer::OpaqueItem(x.clone()),
            ItemContainer::Struct(x) => ItemContainer::Struct(x.clone()),
            ItemContainer::Union(x) => ItemContainer::Union(x.clone()),
            ItemContainer::Enum(x) => ItemContainer::Enum(x.clone()),
            ItemContainer::Typedef(x) => ItemContainer::Typedef(x.clone()),
        }
    }
}

impl ItemContainer {
    /// The declaration's top-level name.
    pub fn name(&self) -> (n: &String)
        ensures
            n@ == self@.name_v(),
    {
        match self {
            ItemContainer::Constant(x) => &x.name,
            ItemContainer::Static(x) => &x.name,
            ItemContainer::OpaqueItem(x) => &x.name,
            ItemContainer::Struct(x) => &x.name,
            ItemContainer::Union(x) => &x.name,
            ItemContainer::Enum(x) => &x.name,
            ItemContainer::Typedef(x) => &x.name,
        }
    }

    /// Whether the declaration carries a configuration predicate.
    pub fn has_cfg(&self) -> (r: bool)
        ensures
            r == (self@.cfg_v() is Some),
    {
        match self {
            ItemContainer::Constant(x) => x.meta.has_cfg(),
            ItemContainer::Static(x) => x.meta.has_cfg(),
            ItemContainer::OpaqueItem(x) => x.meta.has_cfg(),
            ItemContainer::Struct(x) => x.meta.has_cfg(),
            ItemContainer::Union(x) => x.meta.has_cfg(),
            ItemContainer::Enum(x) => x.meta.has_cfg(),
            ItemContainer::Typedef(x) => x.meta.has_cfg(),
        }
    }

    /// Whether the declaration is a generic template.
    pub fn is_generic(&self) -> (r: bool)
        ensures
            r == self@.is_generic_v(),
    {
        match self {
            ItemContainer::Constant(_) => false,
            ItemContainer::Static(_) => false,
            ItemContainer::OpaqueItem(x) => !x.generic_params.is_empty(),
            ItemContainer::Struct(x) => !x.generic_params.is_empty(),
            ItemContainer::Union(x) => !x.generic_params.is_empty(),
            ItemContainer::Enum(_) => false,
            ItemContainer::Typedef(x) => !x.generic_params.is_empty(),
        }
    }

    /// The declaration's by-value dependency names, its own generic
    /// parameter names excluded, in traversal order.
    pub fn dependency_names(&self) -> (res: Vec<String>)
        ensures
            names_of(res@) == self@.real_deps(),
    {
        let mut raw: Vec<String> = Vec::new();
        let ghost e = Seq::<Seq<char>>::empty();
        match self {
            ItemContainer::Constant(x) => {
                crate::types::collect_dep_names(&x.ty, &mut raw);
            }
            ItemContainer::Static(x) => {
                crate::types::collect_dep_names(&x.ty, &mut raw);
            }
            ItemContainer::OpaqueItem(_) => {}
            ItemContainer::Struct(x) => {
                collect_fields_dep_names(&x.fields, &mut raw);
            }
            ItemContainer::Union(x) => {
                collect_fields_dep_names(&x.fields, &mut raw);
            }
            ItemContainer::Enum(_) => {}
            ItemContainer::Typedef(x) => {
                crate::types::collect_dep_names(&x.aliased, &mut raw);
            }
        }
        proof {
            assert(e + self@.deps_raw() =~= self@.deps_raw());
            assert(names_of(Seq::<String>::empty()) =~= e);
            assert(names_of(raw@) == self@.deps_raw());
        }
        let empty_names: Vec<String> = Vec::new();
        let res = match self {
            ItemContainer::Constant(_) => crate::filter_names(&raw, &empty_names),
            ItemContainer::Static(_) => crate::filter_names(&raw, &empty_names),
            ItemContainer::OpaqueItem(x) => crate::filter_names(&raw, &x.generic_params.0),
            ItemContainer::Struct(x) => crate::filter_names(&raw, &x.generic_params.0),
            ItemContainer::Union(x) => crate::filter_names(&raw, &x.generic_params.0),
            ItemContainer::Enum(_) => crate::filter_names(&raw, &empty_names),
            ItemContainer::Typedef(x) => crate::filter_names(&raw, &x.generic_params.0),
        };
        proof {
            assert(names_of(empty_names@) =~= Seq::<Seq<char>>::empty());
            assert(names_of(res@) == self@.real_deps());
        }
        res
    }

    /// Appends to `out` every usage of a possibly-generic declaration in
    /// this declaration's types, in traversal order.
    pub fn collect_decl_usages(&self, out: &mut Vec<GenericPath>)
        ensures
            paths_of(final(out)@) == paths_of(old(out)@) + self@.usages_v(),
    {
        match self {
            ItemContainer::Constant(x) => {
                crate::types::collect_usages(&x.ty, out);
            }
            ItemContainer::Static(x) => {
                crate::types::collect_usages(&x.ty, out);
            }
            ItemContainer::OpaqueItem(_) => {
                proof {
                    assert(paths_of(out@) =~= paths_of(out@) + self@.usages_v());
                }
            }
            ItemContainer::Struct(x) => {
                collect_fields_usages(&x.fields, out);
            }
            ItemContainer::Union(x) => {
                collect_fields_usages(&x.fields, out);
            }
            ItemContainer::Enum(_) => {
                proof {
                    assert(paths_of(out@) =~= paths_of(out@) + self@.usages_v());
                }
            }
            ItemContainer::Typedef(x) => {
                crate::types::collect_usages(&x.aliased, out);
            }
        }
    }
}

/// Appends the by-value dependency names of every field, in order.
pub fn collect_fields_dep_names(fs: &Vec<crate::structure::Field>, out: &mut Vec<String>)
    ensures
        names_of(final(out)@) == names_of(old(out)@) + fields_dep_names(
            crate::structure::fields_of(fs@),
        ),
{
    let ghost base = names_of(out@);
    let ghost fv = crate::structure::fields_of(fs@);
    proof {
        assert(fv.skip(0) =~= fv);
    }
    let mut i: usize = 0;
    while i < fs.len()
        invariant
            i <= fs@.len(),
            fv == crate::structure::fields_of(fs@),
            fv.len() == fs@.len(),
            names_of(out@) + fields_dep_names(fv.skip(i as int)) == base + fields_dep_names(fv),
        decreases fs@.len() - i,
    {
        let ghost before = names_of(out@);
        crate::types::collect_dep_names(&fs[i].ty, out);
        proof {
            let s = fv.skip(i as int);
            assert(s[0] == fv[i as int]);
            assert(s.subrange(1, s.len() as int) =~= fv.skip(i as int + 1));
            assert(fv[i as int].ty == fs@[i as int].ty@);
            assert((before + dep_names(fv[i as int].ty)) + fields_dep_names(fv.skip(i as int + 1))
                =~= before + (dep_names(fv[i as int].ty) + fields_dep_names(
                fv.skip(i as int + 1),
            )));
        }
        i = i + 1;
    }
    proof {
        assert(fv.skip(fs@.len() as int) =~= Seq::<FieldV>::empty());
        assert(names_of(out@) =~= names_of(out@) + Seq::<Seq<char>>::empty());
    }
}

/// What a name maps to: either one unconditional declaration, or a list of
/// configuration-gated alternatives. Never a mix, never two unconditional
/// declarations.
#[derive(Debug)]
pub enum ItemValue {
    Cfg(Vec<ItemContainer>),
    Single(ItemContainer),
}

/// Model of an `ItemValue`.
#[verifier::ext_equal]
pub enum ItemValueV {
    Cfg(Seq<ItemContainerV>),
    Single(ItemContainerV),
}

/// The models of a sequence of declarations, in order.
pub open spec fn items_of(s: Seq<ItemContainer>) -> Seq<ItemContainerV> {
    s.map_values(|it: ItemContainer| it@)
}

impl View for ItemValue {
    type V = ItemValueV;

    open spec fn view(&self) -> ItemValueV {
        match self {
            ItemValue::Cfg(items) => ItemValueV::Cfg(items_of(items@)),
            ItemValue::Single(it) => ItemValueV::Single(it@),
        }
    }
}

impl ItemValueV {
    /// The declarations stored under the name, in order.
    pub open spec fn group(self) -> Seq<ItemContainerV> {
        match self {
            ItemValueV::Cfg(items) => items,
            ItemValueV::Single(it) => seq![it],
        }
    }
}

/// Name-keyed declaration storage. A name holds either one unconditional
/// declaration or a group of configuration-gated alternatives; entries keep
/// first-insertion order, which makes every run reproducible.
#[derive(Debug)]
pub struct ItemMap {
    pub data: Vec<(String, ItemValue)>,
}

/// Model of an `ItemMap`: the entries in insertion order.
pub open spec fn entries_of(s: Seq<(String, ItemValue)>) -> Seq<(Seq<char>, ItemValueV)> {
    s.map_values(|e: (String, ItemValue)| (e.0@, e.1@))
}

impl View for ItemMap {
    type V = Seq<(Seq<char>, ItemValueV)>;

    open spec fn view(&self) -> Seq<(Seq<char>, ItemValueV)> {
        entries_of(self.data@)
    }
}

/// Whether one registry entry is well formed: an unconditional declaration
/// carries no configuration predicate, a gated group is non-empty and every
/// member carries one; every member's name is the entry's key.
pub open spec fn entry_wf(e: (Seq<char>, ItemValueV)) -> bool {
    match e.1 {
        ItemValueV::Single(it) => it.cfg_v() is None && it.name_v() == e.0,
        ItemValueV::Cfg(items) => items.len() > 0 && forall|j: int|
            0 <= j < items.len() ==> (#[trigger] items[j]).cfg_v() is Some && items[j].name_v()
                == e.0,
    }
}

/// Whether a registry model is well formed: distinct keys, each entry well
/// formed.
pub open spec fn map_wf(m: Seq<(Seq<char>, ItemValueV)>) -> bool {
    &&& forall|k1: int, k2: int|
        0 <= k1 < k2 < m.len() ==> (#[trigger] m[k1]).0 != (#[trigger] m[k2]).0
    &&& forall|k: int| 0 <= k < m.len() ==> entry_wf(#[trigger] m[k])
}

/// Whether a name is present in a registry model.
pub open spec fn map_has_key(m: Seq<(Seq<char>, ItemValueV)>, n: Seq<char>) -> bool {
    exists|k: int| 0 <= k < m.len() && (#[trigger] m[k]).0 == n
}

/// The first position holding key `n`; the length when the key is absent.
pub open spec fn key_index(m: Seq<(Seq<char>, ItemValueV)>, n: Seq<char>) -> int
    decreases m,
{
    if m.len() == 0 {
        0
    } else if m[0].0 == n {
        0
    } else {
        1 + key_index(m.subrange(1, m.len() as int), n)
    }
}

/// A position that holds `n` with no earlier one is the first.
pub proof fn lemma_key_index_of(m: Seq<(Seq<char>, ItemValueV)>, n: Seq<char>, i: int)
    requires
        0 <= i < m.len(),
        m[i].0 == n,
        forall|k: int| 0 <= k < i ==> (#[trigger] m[k]).0 != n,
    ensures
        key_index(m, n) == i,
    decreases i,
{
    if i > 0 {
        let rest = m.subrange(1, m.len() as int);
        assert(rest[i - 1] == m[i]);
        assert forall|k: int| 0 <= k < i - 1 implies (#[trigger] rest[k]).0 != n by {
            assert(rest[k] == m[k + 1]);
        }
        lemma_key_index_of(rest, n, i - 1);
    }
}

/// What offering one declaration to the merge rule yields: the registry
/// afterwards, and whether the declaration was accepted. This is the whole
/// insertion behaviour as one function of the inputs.
pub open spec fn map_inserted(m: Seq<(Seq<char>, ItemValueV)>, it: ItemContainerV) -> (
    Seq<(Seq<char>, ItemValueV)>,
    bool,
) {
    let n = it.name_v();
    if !map_has_key(m, n) {
        (
            m.push(
                (
                    n,
                    if it.cfg_v() is Some {
                        ItemValueV::Cfg(seq![it])
                    } else {
                        ItemValueV::Single(it)
                    },
                ),
            ),
            true,
        )
    } else {
        let k = key_index(m, n);
        if it.cfg_v() is Some && m[k].1 is Cfg {
            (m.update(k, (n, ItemValueV::Cfg(m[k].1->Cfg_0.push(it)))), true)
        } else {
            (m, false)
        }
    }
}

/// Folding one more declaration is one more merge.
pub proof fn lemma_map_fold_snoc(
    m: Seq<(Seq<char>, ItemValueV)>,
    items: Seq<ItemContainerV>,
    x: ItemContainerV,
)
    ensures
        map_fold(m, items.push(x)) == map_inserted(map_fold(m, items), x).0,
    decreases items.len(),
{
    if items.len() == 0 {
        let one = items.push(x);
        assert(one[0] == x);
        assert(one.subrange(1, 1) =~= Seq::<ItemContainerV>::empty());
        assert(map_fold(m, one) == map_fold(map_inserted(m, x).0, one.subrange(1, 1)));
        assert(map_fold(m, items) == m);
    } else {
        let rest = items.subrange(1, items.len() as int);
        let snoc = items.push(x);
        assert(snoc[0] == items[0]);
        assert(snoc.subrange(1, items.len() as int + 1) =~= rest.push(x));
        assert(map_fold(m, snoc) == map_fold(map_inserted(m, items[0]).0, rest.push(x)));
        lemma_map_fold_snoc(map_inserted(m, items[0]).0, rest, x);
        assert(map_fold(m, items) == map_fold(map_inserted(m, items[0]).0, rest));
    }
}

/// A registry built by offering every declaration of a list in turn to the
/// merge rule, starting from `m`.
pub open spec fn map_fold(
    m: Seq<(Seq<char>, ItemValueV)>,
    items: Seq<ItemContainerV>,
) -> Seq<(Seq<char>, ItemValueV)>
    decreases items,
{
    if items.len() == 0 {
        m
    } else {
        map_fold(map_inserted(m, items[0]).0, items.subrange(1, items.len() as int))
    }
}

/// How many declarations of the list lose their merge along that fold.
pub open spec fn map_fold_dropped(
    m: Seq<(Seq<char>, ItemValueV)>,
    items: Seq<ItemContainerV>,
) -> int
    decreases items,
{
    if items.len() == 0 {
        0int
    } else {
        (if map_inserted(m, items[0]).1 {
            0int
        } else {
            1int
        }) + map_fold_dropped(map_inserted(m, items[0]).0, items.subrange(1, items.len() as int))
    }
}

impl ItemMap {
    /// Whether this registry is well formed.
    pub open spec fn wf(self) -> bool {
        map_wf(self@)
    }

    /// An empty registry.
    pub fn new() -> (r: ItemMap)
        ensures
            r@ == Seq::<(Seq<char>, ItemValueV)>::empty(),
            r.wf(),
    {
        let r = ItemMap { data: Vec::new() };
        proof {
            assert(r@ =~= Seq::<(Seq<char>, ItemValueV)>::empty());
        }
        r
    }

    /// The index of the entry stored under `n`, if any.
    fn find_index(&self, n: &String) -> (r: Option<usize>)
        ensures
            match r {
                Some(i) => i < self@.len() && self@[i as int].0 == n@ && forall|k: int|
                    0 <= k < i ==> (#[trigger] self@[k]).0 != n@,
                None => !map_has_key(self@, n@),
            },
    {
        let mut i: usize = 0;
        while i < self.data.len()
            invariant
                i <= self.data@.len(),
                self@.len() == self.data@.len(),
                forall|k: int| 0 <= k < i ==> (#[trigger] self@[k]).0 != n@,
            decreases self.data@.len() - i,
        {
            if crate::name_eq(&self.data[i].0, n) {
                proof {
                    assert(self@[i as int].0 == n@);
                }
                return Some(i);
            }
            i = i + 1;
        }
        None
    }

    /// Adds `item` under its name. Returns `false` and leaves the registry
    /// unchanged exactly when the name already holds an incompatible entry:
    /// an unconditional declaration can never join an existing entry, and a
    /// configuration-gated one can only join an existing gated group. A new
    /// name is always accepted; a gated declaration joining a gated group is
    /// appended to it.
    pub fn try_insert(&mut self, item: ItemContainer) -> (r: bool)
        requires
            old(self).wf(),
        ensures
            final(self).wf(),
            final(self)@ == map_inserted(old(self)@, item@).0,
            r == map_inserted(old(self)@, item@).1,
            !r ==> final(self)@ == old(self)@,
            !map_has_key(old(self)@, item@.name_v()) ==> r && final(self)@ == old(self)@.push(
                (
                    item@.name_v(),
                    if item@.cfg_v() is Some {
                        ItemValueV::Cfg(seq![item@])
                    } else {
                        ItemValueV::Single(item@)
                    },
                ),
            ),
            map_has_key(old(self)@, item@.name_v()) && item@.cfg_v() is None ==> !r,
            map_has_key(old(self)@, item@.name_v()) && item@.cfg_v() is Some ==> (forall|k: int|
                0 <= k < old(self)@.len() && (#[trigger] old(self)@[k]).0 == item@.name_v()
                    ==> if old(self)@[k].1 is Cfg {
                    r && final(self)@ == old(self)@.update(
                        k,
                        (item@.name_v(), ItemValueV::Cfg(old(self)@[k].1->Cfg_0.push(item@))),
                    )
                } else {
                    !r
                }),
    {
        let key = item.name().clone();
        let gated = item.has_cfg();
        let found = self.find_index(&key);
        match found {
            Some(idx) => {
                let is_cfg_group = match &self.data[idx].1 {
                    ItemValue::Cfg(_) => true,
                    ItemValue::Single(_) => false,
                };
                if gated && is_cfg_group {
                    let ghost old_entries = self@;
                    let (k, v) = self.data.remove(idx);
                    let mut items = match v {
                        ItemValue::Cfg(items) => items,
                        ItemValue::Single(_) => Vec::new(),
                    };
                    let ghost old_items = items_of(items@);
                    items.push(item);
                    proof {
                        assert(items_of(items@) =~= old_items.push(items@[items@.len() - 1]@));
                    }
                    self.data.insert(idx, (k, ItemValue::Cfg(items)));
                    proof {
                        lemma_key_index_of(old_entries, item@.name_v(), idx as int);
                        assert(self@ =~= old_entries.update(
                            idx as int,
                            (
                                old_entries[idx as int].0,
                                ItemValueV::Cfg(old_entries[idx as int].1->Cfg_0.push(item@)),
                            ),
                        ));
                        assert forall|k2: int|
                            0 <= k2 < old_entries.len() && (#[trigger] old_entries[k2]).0
                                == item@.name_v() implies k2 == idx as int by {
                            if k2 != idx as int {
                                assert(old_entries[k2].0 == old_entries[idx as int].0);
                            }
                        }
                        assert(self.wf());
                    }
                    true
                } else {
                    proof {
                        assert forall|k2: int|
                            0 <= k2 < old(self)@.len() && (#[trigger] old(self)@[k2]).0
                                == item@.name_v() implies k2 == idx as int by {
                            if k2 != idx as int {
                                assert(old(self)@[k2].0 == old(self)@[idx as int].0);
                            }
                        }
                        assert(entry_wf(old(self)@[idx as int]));
                        if !gated {
                            assert(item@.cfg_v() is None);
                        } else {
                            assert(!(old(self)@[idx as int].1 is Cfg));
                        }
                        lemma_key_index_of(old(self)@, item@.name_v(), idx as int);
                        assert(self@ == map_inserted(old(self)@, item@).0);
                    }
                    false
                }
            }
            None => {
                let ghost old_entries = self@;
                if gated {
                    let mut items: Vec<ItemContainer> = Vec::new();
                    items.push(item);
                    proof {
                        assert(items_of(items@) =~= seq![items@[0]@]);
                    }
                    self.data.push((key, ItemValue::Cfg(items)));
                } else {
                    self.data.push((key, ItemValue::Single(item)));
                }
                proof {
                    assert(self@ =~= old_entries.push(self@[self@.len() - 1]));
                    assert(self.wf());
                }
                true
            }
        }
    }
}

/// The declarations of a registry model, flattened in entry order.
pub open spec fn flattened(m: Seq<(Seq<char>, ItemValueV)>) -> Seq<ItemContainerV>
    decreases m,
{
    if m.len() == 0 {
        Seq::empty()
    } else {
        m[0].1.group() + flattened(m.subrange(1, m.len() as int))
    }
}

/// A registry model with every entry whose key is in `excluded` removed.
pub open spec fn without_names(
    m: Seq<(Seq<char>, ItemValueV)>,
    excluded: Seq<Seq<char>>,
) -> Seq<(Seq<char>, ItemValueV)>
    decreases m,
{
    if m.len() == 0 {
        Seq::empty()
    } else {
        (if excluded.contains(m[0].0) {
            Seq::empty()
        } else {
            seq![m[0]]
        }) + without_names(m.subrange(1, m.len() as int), excluded)
    }
}

/// A group with its generic templates removed.
pub open spec fn group_without_generics(items: Seq<ItemContainerV>) -> Seq<ItemContainerV>
    decreases items,
{
    if items.len() == 0 {
        Seq::empty()
    } else {
        (if items[0].is_generic_v() {
            Seq::empty()
        } else {
            seq![items[0]]
        }) + group_without_generics(items.subrange(1, items.len() as int))
    }
}

/// Every survivor of a group filter is a non-generic member of the group.
pub proof fn lemma_group_without_generics(g: Seq<ItemContainerV>)
    ensures
        forall|x: int|
            0 <= x < group_without_generics(g).len() ==> g.contains(
                #[trigger] group_without_generics(g)[x],
            ) && !group_without_generics(g)[x].is_generic_v(),
    decreases g.len(),
{
    if g.len() > 0 {
        let rest = g.subrange(1, g.len() as int);
        lemma_group_without_generics(rest);
        let w = group_without_generics(g);
        assert forall|x: int| 0 <= x < w.len() implies g.contains(#[trigger] w[x]) && !w[
            x
        ].is_generic_v() by {
            if g[0].is_generic_v() {
                assert(w =~= Seq::<ItemContainerV>::empty() + group_without_generics(rest));
                assert(w[x] == group_without_generics(rest)[x]);
                assert(rest.contains(w[x]));
                let rx = choose|rx: int| 0 <= rx < rest.len() && #[trigger] rest[rx] == w[x];
                assert(g[rx + 1] == w[x]);
            } else {
                if x == 0 {
                    assert(w[0] == g[0]);
                } else {
                    assert(w[x] == group_without_generics(rest)[x - 1]);
                    assert(rest.contains(w[x]));
                    let rx = choose|rx: int| 0 <= rx < rest.len() && #[trigger] rest[rx] == w[x];
                    assert(g[rx + 1] == w[x]);
                }
            }
        }
    }
}

/// A registry model with every generic template removed; an entry whose
/// whole group was generic disappears.
pub open spec fn without_generics(m: Seq<(Seq<char>, ItemValueV)>) -> Seq<
    (Seq<char>, ItemValueV),
>
    decreases m,
{
    if m.len() == 0 {
        Seq::empty()
    } else {
        (match m[0].1 {
            ItemValueV::Single(it) => if it.is_generic_v() {
                Seq::empty()
            } else {
                seq![m[0]]
            },
            ItemValueV::Cfg(items) => {
                let kept = group_without_generics(items);
                if kept.len() == 0 {
                    Seq::empty()
                } else {
                    seq![(m[0].0, ItemValueV::Cfg(kept))]
                }
            },
        }) + without_generics(m.subrange(1, m.len() as int))
    }
}

impl ItemMap {
    /// The declarations under name `n`, cloned for emission by reference,
    /// or `None` if the name is absent.
    pub fn get_items(&self, n: &String) -> (r: Option<Vec<ItemContainer>>)
        requires
            self.wf(),
        ensures
            match r {
                Some(v) => map_has_key(self@, n@) && exists|k: int|
                    0 <= k < self@.len() && (#[trigger] self@[k]).0 == n@ && items_of(v@)
                        == self@[k].1.group(),
                None => !map_has_key(self@, n@),
            },
    {
        let found = self.find_index(n);
        match found {
            Some(idx) => {
                let mut out: Vec<ItemContainer> = Vec::new();
                match &self.data[idx].1 {
                    ItemValue::Single(it) => {
                        out.push(it.clone());
                        proof {
                            assert(items_of(out@) =~= self@[idx as int].1.group());
                        }
                    }
                    ItemValue::Cfg(items) => {
                        let mut j: usize = 0;
                        while j < items.len()
                            invariant
                                j <= items@.len(),
                                out@.len() == j as int,
                                forall|x: int| 0 <= x < j ==> out@[x]@ == #[trigger] items@[x]@,
                            decreases items@.len() - j,
                        {
                            out.push(items[j].clone());
                            j = j + 1;
                        }
                        proof {
                            assert(items_of(out@) =~= items_of(items@));
                            assert(items_of(out@) =~= self@[idx as int].1.group());
                        }
                    }
                }
                Some(out)
            }
            None => None,
        }
    }

    /// Every declaration, cloned, flattened in entry order.
    pub fn to_vec(&self) -> (r: Vec<ItemContainer>)
        ensures
            items_of(r@) == flattened(self@),
    {
        let ghost m = self@;
        proof {
            assert(m.skip(0) =~= m);
        }
        let mut out: Vec<ItemContainer> = Vec::new();
        let mut i: usize = 0;
        while i < self.data.len()
            invariant
                i <= self.data@.len(),
                m == self@,
                m.len() == self.data@.len(),
                items_of(out@) + flattened(m.skip(i as int)) == flattened(m),
            decreases self.data@.len() - i,
        {
            let ghost before = items_of(out@);
            match &self.data[i].1 {
                ItemValue::Single(it) => {
                    out.push(it.clone());
                    proof {
                        assert(items_of(out@) =~= before + m[i as int].1.group());
                    }
                }
                ItemValue::Cfg(items) => {
                    let mut j: usize = 0;
                    while j < items.len()
                        invariant
                            j <= items@.len(),
                            items_of(out@) =~= before + items_of(items@).subrange(0, j as int),
                        decreases items@.len() - j,
                    {
                        let ghost out_prev = items_of(out@);
                        out.push(items[j].clone());
                        proof {
                            assert(items_of(out@) =~= out_prev.push(items@[j as int]@));
                            assert(items_of(items@).subrange(0, j as int + 1) =~= items_of(
                                items@,
                            ).subrange(0, j as int).push(items@[j as int]@));
                            assert(items_of(out@) =~= before + items_of(items@).subrange(
                                0,
                                j as int + 1,
                            ));
                        }
                        j = j + 1;
                    }
                    proof {
                        assert(items_of(items@).subrange(0, items@.len() as int) =~= items_of(
                            items@,
                        ));
                        assert(self.data@[i as int].1@ is Cfg);
                        assert(m[i as int].1.group() == items_of(items@));
                        assert(items_of(out@) =~= before + m[i as int].1.group());
                    }
                }
            }
            proof {
                let s = m.skip(i as int);
                assert(s[0] == m[i as int]);
                assert(s.subrange(1, s.len() as int) =~= m.skip(i as int + 1));
                assert(flattened(s) == m[i as int].1.group() + flattened(m.skip(i as int + 1)));
                assert((before + m[i as int].1.group()) + flattened(m.skip(i as int + 1)) =~=
                    before + (m[i as int].1.group() + flattened(m.skip(i as int + 1))));
            }
            i = i + 1;
        }
        proof {
            assert(m.skip(self.data@.len() as int) =~= Seq::<(Seq<char>, ItemValueV)>::empty());
            assert(items_of(out@) =~= items_of(out@) + Seq::<ItemContainerV>::empty());
        }
        out
    }

    /// Removes every entry whose name is in `excluded`, across the whole
    /// registry at once.
    pub fn filter(&mut self, excluded: &Vec<String>)
        requires
            old(self).wf(),
        ensures
            final(self).wf(),
            final(self)@ == without_names(old(self)@, names_of(excluded@)),
    {
        let ghost m = self@;
        let ghost ex = names_of(excluded@);
        proof {
            assert(m.skip(0) =~= m);
        }
        let mut kept: Vec<(String, ItemValue)> = Vec::new();
        let mut i: usize = 0;
        while i < self.data.len()
            invariant
                i <= self.data@.len(),
                m == self@,
                ex == names_of(excluded@),
                m.len() == self.data@.len(),
                map_wf(m),
                entries_of(kept@) + without_names(m.skip(i as int), ex) == without_names(m, ex),
                map_wf(entries_of(kept@)),
                forall|k: int|
                    0 <= k < kept@.len() ==> exists|kk: int|
                        0 <= kk < i && #[trigger] entries_of(kept@)[k] == m[kk],
            decreases self.data@.len() - i,
        {
            let ghost before = entries_of(kept@);
            proof {
                let s = m.skip(i as int);
                assert(s[0] == m[i as int]);
                assert(s.subrange(1, s.len() as int) =~= m.skip(i as int + 1));
            }
            let name_in = crate::generics::contains_name(excluded, &self.data[i].0);
            if !name_in {
                let (k, v) = (self.data[i].0.clone(), self.data[i].1.clone_value());
                kept.push((k, v));
                proof {
                    assert(entries_of(kept@) =~= before.push(m[i as int]));
                    assert((before.push(m[i as int])) + without_names(m.skip(i as int + 1), ex)
                        =~= before + (seq![m[i as int]] + without_names(
                        m.skip(i as int + 1),
                        ex,
                    )));
                    assert forall|k1: int, k2: int|
                        0 <= k1 < k2 < entries_of(kept@).len() implies (#[trigger] entries_of(
                        kept@,
                    )[k1]).0 != (#[trigger] entries_of(kept@)[k2]).0 by {
                        if k2 == entries_of(kept@).len() - 1 {
                            let kk = choose|kk: int| 0 <= kk < i && before[k1] == #[trigger] m[kk];
                            assert(m[kk].0 != m[i as int].0);
                        }
                    }
                    assert(map_wf(entries_of(kept@)));
                    assert forall|k: int| 0 <= k < kept@.len() implies exists|kk: int|
                        0 <= kk < i + 1 && #[trigger] entries_of(kept@)[k] == m[kk] by {
                        if k == kept@.len() - 1 {
                            assert(entries_of(kept@)[k] == m[i as int]);
                        } else {
                            let kk = choose|kk: int| 0 <= kk < i && before[k] == #[trigger] m[kk];
                            assert(entries_of(kept@)[k] == m[kk]);
                        }
                    }
                }
            } else {
                proof {
                    assert(before + without_names(m.skip(i as int + 1), ex) =~= before + (Seq::<
                        (Seq<char>, ItemValueV),
                    >::empty() + without_names(m.skip(i as int + 1), ex)));
                }
            }
            i = i + 1;
        }
        proof {
            assert(m.skip(self.data@.len() as int) =~= Seq::<(Seq<char>, ItemValueV)>::empty());
            assert(entries_of(kept@) =~= entries_of(kept@) + Seq::<
                (Seq<char>, ItemValueV),
            >::empty());
        }
        self.data = kept;
    }

    /// Adds every declaration of `other`, one by one in `other`'s order,
    /// under the same merge rule as `try_insert`; a declaration losing a
    /// merge is dropped. `other` is untouched; what was stored before is
    /// only ever extended, exactly as the fold of the merge rule says.
    pub fn extend_with(&mut self, other: &ItemMap)
        requires
            old(self).wf(),
        ensures
            final(self).wf(),
            final(self)@ == map_fold(old(self)@, flattened(other@)),
    {
        let items = other.to_vec();
        let ghost flat = flattened(other@);
        proof {
            assert(flat.skip(0) =~= flat);
        }
        let mut i: usize = 0;
        while i < items.len()
            invariant
                i <= items@.len(),
                self.wf(),
                items_of(items@) == flat,
                flat.len() == items@.len(),
                map_fold(old(self)@, flat) == map_fold(self@, flat.skip(i as int)),
            decreases items@.len() - i,
        {
            let ghost pre = self@;
            self.try_insert(items[i].clone());
            proof {
                let sk = flat.skip(i as int);
                assert(sk[0] == flat[i as int]);
                assert(flat[i as int] == items@[i as int]@);
                assert(sk.subrange(1, sk.len() as int) =~= flat.skip(i as int + 1));
                assert(map_fold(pre, sk) == map_fold(map_inserted(pre, flat[i as int]).0, flat.skip(i as int + 1)));
            }
            i = i + 1;
        }
        proof {
            assert(flat.skip(items@.len() as int) =~= Seq::<ItemContainerV>::empty());
            assert(map_fold(self@, flat.skip(items@.len() as int)) == self@);
        }
    }

    /// Recomputes the registry from its own contents through `try_insert`,
    /// after a bulk rename may have merged previously-distinct names: the
    /// result is the fold of the merge rule over the stored declarations in
    /// entry order, starting from nothing. A declaration losing a merge is
    /// dropped silently, exactly as on first construction; the returned
    /// count says how many were.
    pub fn rebuild(&mut self) -> (dropped: usize)
        requires
            old(self).wf(),
        ensures
            final(self).wf(),
            final(self)@ == map_fold(
                Seq::<(Seq<char>, ItemValueV)>::empty(),
                flattened(old(self)@),
            ),
            dropped == map_fold_dropped(
                Seq::<(Seq<char>, ItemValueV)>::empty(),
                flattened(old(self)@),
            ),
    {
        let items = self.to_vec();
        let ghost flat = flattened(old(self)@);
        let ghost start = Seq::<(Seq<char>, ItemValueV)>::empty();
        self.data = Vec::new();
        proof {
            assert(self@ =~= start);
            assert(flat.skip(0) =~= flat);
        }
        let mut dropped: usize = 0;
        let mut i: usize = 0;
        while i < items.len()
            invariant
                i <= items@.len(),
                self.wf(),
                dropped <= i,
                items_of(items@) == flat,
                flat.len() == items@.len(),
                map_fold(start, flat) == map_fold(self@, flat.skip(i as int)),
                map_fold_dropped(start, flat) == dropped + map_fold_dropped(
                    self@,
                    flat.skip(i as int),
                ),
            decreases items@.len() - i,
        {
            let ghost pre = self@;
            let ok = self.try_insert(items[i].clone());
            if !ok {
                dropped = dropped + 1;
            }
            proof {
                let sk = flat.skip(i as int);
                assert(sk[0] == flat[i as int]);
                assert(flat[i as int] == items@[i as int]@);
                assert(sk.subrange(1, sk.len() as int) =~= flat.skip(i as int + 1));
                assert(map_fold(pre, sk) == map_fold(
                    map_inserted(pre, flat[i as int]).0,
                    flat.skip(i as int + 1),
                ));
                assert(map_fold_dropped(pre, sk) == (if map_inserted(pre, flat[i as int]).1 {
                    0int
                } else {
                    1int
                }) + map_fold_dropped(
                    map_inserted(pre, flat[i as int]).0,
                    flat.skip(i as int + 1),
                ));
            }
            i = i + 1;
        }
        proof {
            assert(flat.skip(items@.len() as int) =~= Seq::<ItemContainerV>::empty());
            assert(map_fold(self@, flat.skip(items@.len() as int)) == self@);
            assert(map_fold_dropped(self@, flat.skip(items@.len() as int)) == 0);
        }
        dropped
    }
}

/// Whether no declaration in the registry is a generic template.
pub open spec fn no_generics(m: Seq<(Seq<char>, ItemValueV)>) -> bool {
    forall|k: int, j: int|
        0 <= k < m.len() && 0 <= j < (#[trigger] m[k]).1.group().len() ==> !(#[trigger] m[
            k
        ].1.group()[j]).is_generic_v()
}

impl ItemContainer {
    /// The number of generic parameters.
    pub fn generic_param_count(&self) -> (r: usize)
        ensures
            r == self@.generic_names().len(),
    {
        match self {
            ItemContainer::Constant(_) => 0,
            ItemContainer::Static(_) => 0,
            ItemContainer::OpaqueItem(x) => x.generic_params.len(),
            ItemContainer::Struct(x) => x.generic_params.len(),
            ItemContainer::Union(x) => x.generic_params.len(),
            ItemContainer::Enum(_) => 0,
            ItemContainer::Typedef(x) => x.generic_params.len(),
        }
    }
}

impl ItemMap {
    /// Removes every generic template, keeping everything concrete: the
    /// result is exactly `without_generics` of the old registry. A raw
    /// template is not emittable in a dialect without generics.
    pub fn filter_generics(&mut self)
        requires
            old(self).wf(),
        ensures
            final(self).wf(),
            final(self)@ == without_generics(old(self)@),
            no_generics(final(self)@),
    {
        let ghost m = self@;
        proof {
            assert(m.skip(0) =~= m);
        }
        let mut kept: Vec<(String, ItemValue)> = Vec::new();
        let mut i: usize = 0;
        while i < self.data.len()
            invariant
                i <= self.data@.len(),
                m == self@,
                m.len() == self.data@.len(),
                map_wf(m),
                entries_of(kept@) + without_generics(m.skip(i as int)) == without_generics(m),
                map_wf(entries_of(kept@)),
                no_generics(entries_of(kept@)),
                forall|k: int|
                    0 <= k < kept@.len() ==> exists|kk: int|
                        0 <= kk < i && (#[trigger] entries_of(kept@)[k]).0 == m[kk].0,
            decreases self.data@.len() - i,
        {
            let ghost before = entries_of(kept@);
            proof {
                let sk = m.skip(i as int);
                assert(sk[0] == m[i as int]);
                assert(sk.subrange(1, sk.len() as int) =~= m.skip(i as int + 1));
            }
            let entry_value = self.data[i].1.clone_value();
            match entry_value {
                ItemValue::Single(it) => {
                    if !it.is_generic() {
                        kept.push((self.data[i].0.clone(), ItemValue::Single(it)));
                        proof {
                            assert(entries_of(kept@) =~= before.push(m[i as int]));
                            assert((before.push(m[i as int])) + without_generics(
                                m.skip(i as int + 1),
                            ) =~= before + (seq![m[i as int]] + without_generics(
                                m.skip(i as int + 1),
                            )));
                        }
                    } else {
                        proof {
                            assert(before + without_generics(m.skip(i as int + 1)) =~= before
                                + (Seq::<(Seq<char>, ItemValueV)>::empty() + without_generics(
                                m.skip(i as int + 1),
                            )));
                        }
                    }
                }
                ItemValue::Cfg(group) => {
                    let ghost gv = items_of(group@);
                    let ghost kept_g = group_without_generics(gv);
                    proof {
                        assert(gv == m[i as int].1->Cfg_0);
                        assert(gv.skip(0) =~= gv);
                    }
                    let mut survivors: Vec<ItemContainer> = Vec::new();
                    let mut j: usize = 0;
                    while j < group.len()
                        invariant
                            j <= group@.len(),
                            gv == items_of(group@),
                            gv.len() == group@.len(),
                            items_of(survivors@) + group_without_generics(gv.skip(j as int))
                                == group_without_generics(gv),
                        decreases group@.len() - j,
                    {
                        let ghost sbefore = items_of(survivors@);
                        proof {
                            let sk = gv.skip(j as int);
                            assert(sk[0] == gv[j as int]);
                            assert(sk.subrange(1, sk.len() as int) =~= gv.skip(j as int + 1));
                        }
                        if !group[j].is_generic() {
                            survivors.push(group[j].clone());
                            proof {
                                assert(items_of(survivors@) =~= sbefore.push(gv[j as int]));
                                assert((sbefore.push(gv[j as int])) + group_without_generics(
                                    gv.skip(j as int + 1),
                                ) =~= sbefore + (seq![gv[j as int]] + group_without_generics(
                                    gv.skip(j as int + 1),
                                )));
                            }
                        } else {
                            proof {
                                assert(sbefore + group_without_generics(gv.skip(j as int + 1))
                                    =~= sbefore + (Seq::<ItemContainerV>::empty()
                                    + group_without_generics(gv.skip(j as int + 1))));
                            }
                        }
                        j = j + 1;
                    }
                    proof {
                        assert(gv.skip(group@.len() as int) =~= Seq::<ItemContainerV>::empty());
                        assert(items_of(survivors@) =~= items_of(survivors@) + Seq::<
                            ItemContainerV,
                        >::empty());
                        assert(items_of(survivors@) == kept_g);
                    }
                    if survivors.len() > 0 {
                        kept.push((self.data[i].0.clone(), ItemValue::Cfg(survivors)));
                        proof {
                            assert(entries_of(kept@) =~= before.push(
                                (m[i as int].0, ItemValueV::Cfg(kept_g)),
                            ));
                            assert((before.push((m[i as int].0, ItemValueV::Cfg(kept_g))))
                                + without_generics(m.skip(i as int + 1)) =~= before + (seq![
                                (m[i as int].0, ItemValueV::Cfg(kept_g)),
                            ] + without_generics(m.skip(i as int + 1))));
                        }
                    } else {
                        proof {
                            assert(kept_g.len() == 0);
                            assert(before + without_generics(m.skip(i as int + 1)) =~= before
                                + (Seq::<(Seq<char>, ItemValueV)>::empty() + without_generics(
                                m.skip(i as int + 1),
                            )));
                        }
                    }
                }
            }
            proof {
                // Well-formedness and the absence of templates carry over
                // entry by entry.
                assert(map_wf(entries_of(kept@)) && no_generics(entries_of(kept@))) by {
                    assert(entry_wf(m[i as int]));
                    assert forall|k1: int, k2: int|
                        0 <= k1 < k2 < entries_of(kept@).len() implies (#[trigger] entries_of(
                        kept@,
                    )[k1]).0 != (#[trigger] entries_of(kept@)[k2]).0 by {
                        if k2 == entries_of(kept@).len() - 1 && k2 >= before.len() {
                            let kk = choose|kk: int|
                                0 <= kk < i && (#[trigger] before[k1]).0 == m[kk].0;
                            assert(m[kk].0 != m[i as int].0);
                            assert(entries_of(kept@)[k2].0 == m[i as int].0);
                        }
                    }
                    assert forall|k: int| 0 <= k < entries_of(kept@).len() implies entry_wf(
                        #[trigger] entries_of(kept@)[k],
                    ) && (forall|x: int|
                        0 <= x < entries_of(kept@)[k].1.group().len() ==> !(#[trigger] entries_of(
                            kept@,
                        )[k].1.group()[x]).is_generic_v()) by {
                        if k < before.len() {
                            assert(entries_of(kept@)[k] == before[k]);
                            assert(entry_wf(before[k]));
                        } else {
                            match m[i as int].1 {
                                ItemValueV::Single(it) => {}
                                ItemValueV::Cfg(g) => {
                                    let kg = group_without_generics(g);
                                    lemma_group_without_generics(g);
                                    assert forall|x: int| 0 <= x < kg.len() implies (
                                    #[trigger] kg[x]).cfg_v() is Some && kg[x].name_v() == m[
                                        i as int
                                    ].0 && !kg[x].is_generic_v() by {
                                        assert(g.contains(kg[x]));
                                        let gx = choose|gx: int|
                                            0 <= gx < g.len() && #[trigger] g[gx] == kg[x];
                                    }
                                }
                            }
                        }
                    }
                }
                assert forall|k: int| 0 <= k < kept@.len() implies exists|kk: int|
                    0 <= kk < i + 1 && (#[trigger] entries_of(kept@)[k]).0 == m[kk].0 by {
                    if k < before.len() {
                        let kk = choose|kk: int|
                            0 <= kk < i && (#[trigger] before[k]).0 == m[kk].0;
                        assert(entries_of(kept@)[k].0 == m[kk].0);
                    } else {
                        assert(entries_of(kept@)[k].0 == m[i as int].0);
                    }
                }
            }
            i = i + 1;
        }
        proof {
            assert(m.skip(self.data@.len() as int) =~= Seq::<(Seq<char>, ItemValueV)>::empty());
            assert(entries_of(kept@) =~= entries_of(kept@) + Seq::<
                (Seq<char>, ItemValueV),
            >::empty());
        }
        self.data = kept;
    }

    /// Puts `anns` onto every declaration stored under `name` that has no
    /// annotations of its own; each already-annotated one is left alone and
    /// counted as a conflict. Exactly `map_annotated_at` on the model; an
    /// absent name changes nothing.
    pub fn set_annotations_for(
        &mut self,
        name: &String,
        anns: &crate::metadata::AnnotationSet,
    ) -> (conflicts: usize)
        requires
            old(self).wf(),
        ensures
            final(self).wf(),
            final(self)@ == map_annotated_at(old(self)@, name@, anns@),
            conflicts == (if map_has_key(old(self)@, name@) {
                group_conflicts(old(self)@[key_index(old(self)@, name@)].1.group())
            } else {
                0int
            }),
    {
        let found = self.find_index(name);
        let idx = match found {
            Some(i) => i,
            None => {
                return 0;
            }
        };
        let ghost pre = self@;
        proof {
            lemma_key_index_of(pre, name@, idx as int);
        }
        let (key, v) = self.data.remove(idx);
        let mut conflicts: usize = 0;
        let new_value = match v {
            ItemValue::Single(mut it) => {
                let ghost old_it = it@;
                if it.annotations().is_empty() {
                    it.set_annotations(anns.clone());
                } else {
                    conflicts = 1;
                }
                proof {
                    assert(it@ == annotated_item(old_it, anns@));
                    assert(group_conflicts(seq![old_it]) == conflicts) by {
                        let g = seq![old_it];
                        assert(g[0] == old_it);
                        assert(g.subrange(1, 1) =~= Seq::<ItemContainerV>::empty());
                        assert(group_conflicts(g.subrange(1, 1)) == 0);
                    }
                }
                ItemValue::Single(it)
            }
            ItemValue::Cfg(items) => {
                let mut group: Vec<ItemContainer> = Vec::new();
                let ghost old_group = items_of(items@);
                let mut j: usize = 0;
                let mut items2 = items;
                proof {
                    assert(old_group.skip(0) =~= old_group);
                }
                while j < items2.len()
                    invariant
                        j <= items2@.len(),
                        old_group == items_of(items2@),
                        old_group.len() == items2@.len(),
                        group@.len() == j as int,
                        conflicts <= j,
                        forall|x: int|
                            0 <= x < j ==> #[trigger] group@[x]@ == annotated_item(
                                old_group[x],
                                anns@,
                            ),
                        group_conflicts(old_group) == conflicts + group_conflicts(
                            old_group.skip(j as int),
                        ),
                    decreases items2@.len() - j,
                {
                    proof {
                        let sk = old_group.skip(j as int);
                        assert(sk[0] == old_group[j as int]);
                        assert(sk.subrange(1, sk.len() as int) =~= old_group.skip(j as int + 1));
                    }
                    let mut it = items2[j].clone();
                    let ghost old_it = it@;
                    if it.annotations().is_empty() {
                        it.set_annotations(anns.clone());
                    } else {
                        conflicts = conflicts + 1;
                    }
                    proof {
                        assert(old_it == old_group[j as int]);
                        assert(it@ == annotated_item(old_group[j as int], anns@));
                    }
                    group.push(it);
                    j = j + 1;
                }
                proof {
                    assert(old_group.skip(items2@.len() as int) =~= Seq::<
                        ItemContainerV,
                    >::empty());
                    assert(items_of(group@) =~= old_group.map_values(
                        |it: ItemContainerV| annotated_item(it, anns@),
                    ));
                }
                ItemValue::Cfg(group)
            }
        };
        self.data.insert(idx, (key, new_value));
        proof {
            assert(self@ =~= pre.update(
                idx as int,
                (pre[idx as int].0, value_annotated(pre[idx as int].1, anns@)),
            ));
            assert(self@ == map_annotated_at(pre, name@, anns@));
            assert(pre[idx as int].1.group() == (match pre[idx as int].1 {
                ItemValueV::Single(it) => seq![it],
                ItemValueV::Cfg(g) => g,
            }));
            assert forall|k: int| 0 <= k < self@.len() implies (#[trigger] self@[k]).0 == pre[k].0
                && entry_wf(self@[k]) by {
                if k != idx {
                    assert(self@[k] == pre[k]);
                    assert(entry_wf(pre[k]));
                } else {
                    assert(self@[k].0 == pre[k].0);
                    assert(entry_wf(pre[idx as int]));
                    match pre[idx as int].1 {
                        ItemValueV::Single(itv) => {
                            assert(self@[k].1 is Single);
                        }
                        ItemValueV::Cfg(g) => {
                            assert(self@[k].1 is Cfg);
                            assert forall|j: int|
                                0 <= j < self@[k].1->Cfg_0.len() implies (#[trigger] self@[
                                k
                            ].1->Cfg_0[j]).cfg_v() is Some && self@[k].1->Cfg_0[j].name_v()
                                == self@[k].0 by {
                                assert(g[j].cfg_v() is Some && g[j].name_v() == pre[k].0);
                                assert(self@[k].1->Cfg_0[j] == annotated_item(g[j], anns@));
                            }
                        }
                    }
                }
            }
            assert(self.wf());
        }
        conflicts
    }
}

impl ItemValue {
    /// Clones the stored declaration or group; the models are kept.
    pub fn clone_value(&self) -> (r: Self)
        ensures
            r@ == self@,
    {
        match self {
            ItemValue::Single(it) => ItemValue::Single(it.clone()),
            ItemValue::Cfg(items) => {
                let mut out: Vec<ItemContainer> = Vec::new();
                let mut j: usize = 0;
                while j < items.len()
                    invariant
                        j <= items@.len(),
                        out@.len() == j as int,
                        forall|x: int| 0 <= x < j ==> out@[x]@ == #[trigger] items@[x]@,
                    decreases items@.len() - j,
                {
                    out.push(items[j].clone());
                    j = j + 1;
                }
                proof {
                    assert(items_of(out@) =~= items_of(items@));
                }
                ItemValue::Cfg(out)
            }
        }
    }
}

/// Appends the usages of every field, in order.
pub fn collect_fields_usages(fs: &Vec<crate::structure::Field>, out: &mut Vec<GenericPath>)
    ensures
        paths_of(final(out)@) == paths_of(old(out)@) + fields_usages(
            crate::structure::fields_of(fs@),
        ),
{
    let ghost base = paths_of(out@);
    let ghost fv = crate::structure::fields_of(fs@);
    proof {
        assert(fv.skip(0) =~= fv);
    }
    let mut i: usize = 0;
    while i < fs.len()
        invariant
            i <= fs@.len(),
            fv == crate::structure::fields_of(fs@),
            fv.len() == fs@.len(),
            paths_of(out@) + fields_usages(fv.skip(i as int)) == base + fields_usages(fv),
        decreases fs@.len() - i,
    {
        let ghost before = paths_of(out@);
        crate::types::collect_usages(&fs[i].ty, out);
        proof {
            let s = fv.skip(i as int);
            assert(s[0] == fv[i as int]);
            assert(s.subrange(1, s.len() as int) =~= fv.skip(i as int + 1));
            assert(fv[i as int].ty == fs@[i as int].ty@);
            assert((before + usages(fv[i as int].ty)) + fields_usages(fv.skip(i as int + 1)) =~=
                before + (usages(fv[i as int].ty) + fields_usages(fv.skip(i as int + 1))));
        }
        i = i + 1;
    }
    proof {
        assert(fv.skip(fs@.len() as int) =~= Seq::<FieldV>::empty());
        assert(paths_of(out@) =~= paths_of(out@) + Seq::<crate::types::GenericPathV>::empty());
    }
}

} // verus!
