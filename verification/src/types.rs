//! The recursive type language: primitives, pointers, arrays, and weak
//! name-based references to other declarations (optionally carrying concrete
//! generic arguments).

use vstd::prelude::*;

verus! {

/// A type mentioned by a declaration. References to other declarations are
/// weak: a name plus optional concrete generic arguments, resolved by lookup.
#[derive(Debug)]
pub enum Type {
    Primitive(String),
    Ptr(Box<Type>),
    ConstPtr(Box<Type>),
    Array(Box<Type>, String),
    Path(String, Vec<Type>),
}

/// Mathematical model of a `Type`: identifiers become character sequences.
#[verifier::ext_equal]
pub enum TypeV {
    Primitive { name: Seq<char> },
    Ptr { pointee: Box<TypeV> },
    ConstPtr { pointee: Box<TypeV> },
    Array { element: Box<TypeV>, len: Seq<char> },
    Path { name: Seq<char>, args: Seq<TypeV> },
}

impl Type {
    /// The model of this type, character content in place of `String`s.
    pub open spec fn model(&self) -> TypeV
        decreases self,
        via Self::model_decreases
    {
        match self {
            Type::Primitive(name) => TypeV::Primitive { name: name@ },
            Type::Ptr(t) => TypeV::Ptr { pointee: Box::new(t.model()) },
            Type::ConstPtr(t) => TypeV::ConstPtr { pointee: Box::new(t.model()) },
            Type::Array(t, len) => TypeV::Array { element: Box::new(t.model()), len: len@ },
            Type::Path(name, args) => TypeV::Path { name: name@, args: Self::models_of(args@) },
        }
    }

    /// The models of a sequence of types, in order.
    pub open spec fn models_of(ts: Seq<Type>) -> Seq<TypeV>
        decreases ts,
    {
        if ts.len() == 0 {
            Seq::empty()
        } else {
            seq![ts[0].model()] + Self::models_of(ts.subrange(1, ts.len() as int))
        }
    }

    #[via_fn]
    proof fn model_decreases(&self) {
        broadcast use vstd::std_specs::vec::axiom_vec_decreases_to_view;

        if let Type::Path(name, args) = self {
            assert(decreases_to!(*self => self->Path_1));
            assert(decreases_to!(self->Path_1 => self->Path_1@));
        }
    }

    pub proof fn lemma_models_of(ts: Seq<Type>)
        ensures
            Self::models_of(ts).len() == ts.len(),
            forall|i: int| 0 <= i < ts.len() ==> Self::models_of(ts)[i] == #[trigger] ts[i].model(),
        decreases ts.len(),
    {
        if ts.len() > 0 {
            let rest = ts.subrange(1, ts.len() as int);
            Self::lemma_models_of(rest);
            assert forall|i: int| 0 <= i < ts.len() implies Self::models_of(ts)[i]
                == #[trigger] ts[i].model() by {
                if i > 0 {
                    assert(rest[i - 1] == ts[i]);
                    assert(Self::models_of(ts)[i] == Self::models_of(rest)[i - 1]);
                }
            }
        }
    }
}

impl View for Type {
    type V = TypeV;

    open spec fn view(&self) -> TypeV {
        self.model()
    }
}

/// The character content of a sequence of identifiers.
pub open spec fn names_of(v: Seq<String>) -> Seq<Seq<char>> {
    v.map_values(|s: String| s@)
}

/// Names of the declarations a type depends on *by value*: the full definition
/// of such a declaration must be emitted before any declaration using this
/// type. Pointer edges are skipped: a pointee needs only a forward mention.
pub open spec fn dep_names(t: TypeV) -> Seq<Seq<char>>
    decreases t,
{
    match t {
        TypeV::Primitive { .. } => Seq::empty(),
        TypeV::Ptr { .. } => Seq::empty(),
        TypeV::ConstPtr { .. } => Seq::empty(),
        TypeV::Array { element, .. } => dep_names(*element),
        TypeV::Path { name, args } => seq![name] + dep_names_list(args),
    }
}

/// Concatenated by-value dependency names of a list of types, in order.
pub open spec fn dep_names_list(ts: Seq<TypeV>) -> Seq<Seq<char>>
    decreases ts,
{
    if ts.len() == 0 {
        Seq::empty()
    } else {
        dep_names(ts[0]) + dep_names_list(ts.subrange(1, ts.len() as int))
    }
}

/// Appends to `out` the by-value dependency names of `t`, in traversal order.
pub fn collect_dep_names(t: &Type, out: &mut Vec<String>)
    ensures
        names_of(final(out)@) == names_of(old(out)@) + dep_names(t@),
    decreases t,
{
    broadcast use vstd::seq_lib::group_seq_properties;

    match t {
        Type::Primitive(_) => {
            proof {
                assert(names_of(out@) =~= names_of(out@) + dep_names(t@));
            }
        }
        Type::Ptr(_) => {
            proof {
                assert(names_of(out@) =~= names_of(out@) + dep_names(t@));
            }
        }
        Type::ConstPtr(_) => {
            proof {
                assert(names_of(out@) =~= names_of(out@) + dep_names(t@));
            }
        }
        Type::Array(elem, _) => {
            collect_dep_names(elem, out);
        }
        Type::Path(name, args) => {
            proof {
                broadcast use vstd::std_specs::vec::axiom_vec_decreases_to_view;

                assert(decreases_to!(*t => t->Path_1));
                assert(decreases_to!(t->Path_1 => t->Path_1@));
                Type::lemma_models_of(args@);
            }
            let ghost base = names_of(out@);
            let ghost ms = Type::models_of(args@);
            out.push(name.clone());
            proof {
                assert(names_of(out@) =~= base + seq![name@]);
                assert(ms.skip(0) =~= ms);
            }
            let mut i: usize = 0;
            while i < args.len()
                invariant
                    i <= args@.len(),
                    *t == Type::Path(*name, *args),
                    ms == Type::models_of(args@),
                    ms.len() == args@.len(),
                    forall|k: int| 0 <= k < args@.len() ==> ms[k] == #[trigger] args@[k].model(),
                    names_of(out@) + dep_names_list(ms.skip(i as int)) == base + seq![name@]
                        + dep_names_list(ms),
                decreases args@.len() - i,
            {
                proof {
                    broadcast use vstd::seq::axiom_seq_index_decreases;
                    broadcast use vstd::std_specs::vec::axiom_vec_decreases_to_view;

                    assert(decreases_to!(*t => t->Path_1));
                    assert(decreases_to!(t->Path_1 => t->Path_1@));
                    assert(decreases_to!(t->Path_1@ => t->Path_1@[i as int]));
                }
                let ghost out_before = names_of(out@);
                collect_dep_names(&args[i], out);
                proof {
                    let s = ms.skip(i as int);
                    assert(s[0] == ms[i as int]);
                    assert(s.subrange(1, s.len() as int) =~= ms.skip(i as int + 1));
                    assert(dep_names_list(s) == dep_names(ms[i as int]) + dep_names_list(
                        ms.skip(i as int + 1),
                    ));
                    assert(args@[i as int]@ == ms[i as int]);
                    assert(names_of(out@) + dep_names_list(ms.skip(i as int + 1)) == base
                        + seq![name@] + dep_names_list(ms)) by {
                        assert(names_of(out@) == out_before + dep_names(ms[i as int]));
                        assert((out_before + dep_names(ms[i as int])) + dep_names_list(
                            ms.skip(i as int + 1),
                        ) =~= out_before + (dep_names(ms[i as int]) + dep_names_list(
                            ms.skip(i as int + 1),
                        )));
                    }
                }
                i = i + 1;
            }
            proof {
                assert(ms.skip(args@.len() as int) =~= Seq::<TypeV>::empty());
                assert(dep_names_list(ms.skip(args@.len() as int)) =~= Seq::<Seq<char>>::empty());
                assert(names_of(out@) =~= names_of(out@) + Seq::<Seq<char>>::empty());
                assert(t@ == TypeV::Path { name: name@, args: ms });
                assert(dep_names(t@) == seq![name@] + dep_names_list(ms));
                assert(names_of(out@) =~= base + (seq![name@] + dep_names_list(ms))) by {
                    assert(names_of(out@) == base + seq![name@] + dep_names_list(ms));
                    assert((base + seq![name@]) + dep_names_list(ms) =~= base + (seq![name@]
                        + dep_names_list(ms)));
                }
            }
        }
    }
}

/// One concrete usage of a generic declaration: the declaration's name and
/// the concrete type arguments it is instantiated with. Identity key for a
/// monomorphic instantiation.
#[derive(Debug)]
pub struct GenericPath {
    pub name: String,
    pub generics: Vec<Type>,
}

/// Model of a `GenericPath`; two usages are the same instantiation exactly
/// when their models are equal.
#[verifier::ext_equal]
pub struct GenericPathV {
    pub name: Seq<char>,
    pub args: Seq<TypeV>,
}

impl View for GenericPath {
    type V = GenericPathV;

    open spec fn view(&self) -> GenericPathV {
        GenericPathV { name: self.name@, args: Type::models_of(self.generics@) }
    }
}

/// The models of a sequence of usages, in order.
pub open spec fn paths_of(v: Seq<GenericPath>) -> Seq<GenericPathV> {
    v.map_values(|p: GenericPath| p@)
}

/// Every usage of a possibly-generic declaration inside a type: each `Path`
/// reference carrying a non-empty argument list, pointers included (even a
/// merely forward-mentioned instantiation must exist in the output).
pub open spec fn usages(t: TypeV) -> Seq<GenericPathV>
    decreases t,
{
    match t {
        TypeV::Primitive { .. } => Seq::empty(),
        TypeV::Ptr { pointee } => usages(*pointee),
        TypeV::ConstPtr { pointee } => usages(*pointee),
        TypeV::Array { element, .. } => usages(*element),
        TypeV::Path { name, args } => (if args.len() > 0 {
            seq![GenericPathV { name, args }]
        } else {
            Seq::empty()
        }) + usages_list(args),
    }
}

/// Concatenated usages of a list of types, in order.
pub open spec fn usages_list(ts: Seq<TypeV>) -> Seq<GenericPathV>
    decreases ts,
{
    if ts.len() == 0 {
        Seq::empty()
    } else {
        usages(ts[0]) + usages_list(ts.subrange(1, ts.len() as int))
    }
}

/// Appends to `out` every generic usage inside `t`, in traversal order.
pub fn collect_usages(t: &Type, out: &mut Vec<GenericPath>)
    ensures
        paths_of(final(out)@) == paths_of(old(out)@) + usages(t@),
    decreases t,
{
    match t {
        Type::Primitive(_) => {
            proof {
                assert(paths_of(out@) =~= paths_of(out@) + usages(t@));
            }
        }
        Type::Ptr(p) => {
            collect_usages(p, out);
        }
        Type::ConstPtr(p) => {
            collect_usages(p, out);
        }
        Type::Array(elem, _) => {
            collect_usages(elem, out);
        }
        Type::Path(name, args) => {
            proof {
                broadcast use vstd::std_specs::vec::axiom_vec_decreases_to_view;

                assert(decreases_to!(*t => t->Path_1));
                assert(decreases_to!(t->Path_1 => t->Path_1@));
                Type::lemma_models_of(args@);
            }
            let ghost base = paths_of(out@);
            let ghost ms = Type::models_of(args@);
            let ghost head = if ms.len() > 0 {
                seq![GenericPathV { name: name@, args: ms }]
            } else {
                Seq::<GenericPathV>::empty()
            };
            if args.len() > 0 {
                let generics = clone_types(args);
                proof {
                    Type::lemma_models_of(generics@);
                    assert forall|k: int| 0 <= k < generics@.len() implies Type::models_of(
                        generics@,
                    )[k] == ms[k] by {
                        assert(generics@[k]@ == args@[k]@);
                    }
                    assert(Type::models_of(generics@) =~= ms);
                }
                out.push(GenericPath { name: name.clone(), generics });
                proof {
                    assert(paths_of(out@) =~= base + head);
                }
            } else {
                proof {
                    assert(paths_of(out@) =~= base + head);
                }
            }
            proof {
                assert(ms.skip(0) =~= ms);
            }
            let mut i: usize = 0;
            while i < args.len()
                invariant
                    i <= args@.len(),
                    *t == Type::Path(*name, *args),
                    ms == Type::models_of(args@),
                    ms.len() == args@.len(),
                    forall|k: int| 0 <= k < args@.len() ==> ms[k] == #[trigger] args@[k].model(),
                    paths_of(out@) + usages_list(ms.skip(i as int)) == base + head + usages_list(
                        ms,
                    ),
                decreases args@.len() - i,
            {
                proof {
                    broadcast use vstd::seq::axiom_seq_index_decreases;
                    broadcast use vstd::std_specs::vec::axiom_vec_decreases_to_view;

                    assert(decreases_to!(*t => t->Path_1));
                    assert(decreases_to!(t->Path_1 => t->Path_1@));
                    assert(decreases_to!(t->Path_1@ => t->Path_1@[i as int]));
                }
                let ghost out_before = paths_of(out@);
                collect_usages(&args[i], out);
                proof {
                    let s = ms.skip(i as int);
                    assert(s[0] == ms[i as int]);
                    assert(s.subrange(1, s.len() as int) =~= ms.skip(i as int + 1));
                    assert(usages_list(s) == usages(ms[i as int]) + usages_list(
                        ms.skip(i as int + 1),
                    ));
                    assert(args@[i as int]@ == ms[i as int]);
                    assert(paths_of(out@) + usages_list(ms.skip(i as int + 1)) == base + head
                        + usages_list(ms)) by {
                        assert(paths_of(out@) == out_before + usages(ms[i as int]));
                        assert((out_before + usages(ms[i as int])) + usages_list(
                            ms.skip(i as int + 1),
                        ) =~= out_before + (usages(ms[i as int]) + usages_list(
                            ms.skip(i as int + 1),
                        )));
                    }
                }
                i = i + 1;
            }
            proof {
                assert(ms.skip(args@.len() as int) =~= Seq::<TypeV>::empty());
                assert(usages_list(ms.skip(args@.len() as int)) =~= Seq::<GenericPathV>::empty());
                assert(paths_of(out@) =~= paths_of(out@) + Seq::<GenericPathV>::empty());
                assert(t@ == TypeV::Path { name: name@, args: ms });
                assert(usages(t@) == head + usages_list(ms));
                assert(paths_of(out@) =~= base + (head + usages_list(ms))) by {
                    assert(paths_of(out@) == base + head + usages_list(ms));
                    assert((base + head) + usages_list(ms) =~= base + (head + usages_list(ms)));
                }
            }
        }
    }
}

/// First binding of name `n` in the positional (parameter, argument) pairs.
pub open spec fn param_lookup(params: Seq<Seq<char>>, args: Seq<TypeV>, n: Seq<char>) -> Option<
    TypeV,
>
    decreases params,
{
    if params.len() == 0 || args.len() == 0 {
        None
    } else if params[0] == n {
        Some(args[0])
    } else {
        param_lookup(
            params.subrange(1, params.len() as int),
            args.subrange(1, args.len() as int),
            n,
        )
    }
}

/// Substitution of concrete types for generic parameter names: a bare `Path`
/// reference naming a parameter becomes the corresponding concrete argument;
/// everything else is rewritten structurally.
pub open spec fn subst(t: TypeV, params: Seq<Seq<char>>, args: Seq<TypeV>) -> TypeV
    decreases t,
{
    match t {
        TypeV::Primitive { .. } => t,
        TypeV::Ptr { pointee } => TypeV::Ptr { pointee: Box::new(subst(*pointee, params, args)) },
        TypeV::ConstPtr { pointee } => TypeV::ConstPtr {
            pointee: Box::new(subst(*pointee, params, args)),
        },
        TypeV::Array { element, len } => TypeV::Array {
            element: Box::new(subst(*element, params, args)),
            len,
        },
        TypeV::Path { name, args: targs } => {
            if targs.len() == 0 && param_lookup(params, args, name) is Some {
                param_lookup(params, args, name)->Some_0
            } else {
                TypeV::Path { name, args: subst_list(targs, params, args) }
            }
        }
    }
}

/// Substitution applied to every type of a list, in order.
pub open spec fn subst_list(ts: Seq<TypeV>, params: Seq<Seq<char>>, args: Seq<TypeV>) -> Seq<TypeV>
    decreases ts,
{
    if ts.len() == 0 {
        Seq::empty()
    } else {
        seq![subst(ts[0], params, args)] + subst_list(
            ts.subrange(1, ts.len() as int),
            params,
            args,
        )
    }
}

/// First replacement for name `n` in the rename rules, if any.
pub open spec fn rename_lookup(rs: Seq<(Seq<char>, Seq<char>)>, n: Seq<char>) -> Option<Seq<char>>
    decreases rs,
{
    if rs.len() == 0 {
        None
    } else if rs[0].0 == n {
        Some(rs[0].1)
    } else {
        rename_lookup(rs.subrange(1, rs.len() as int), n)
    }
}

/// The name after applying the rename rules: replaced if a rule matches,
/// otherwise unchanged.
pub open spec fn applied_rename(rs: Seq<(Seq<char>, Seq<char>)>, n: Seq<char>) -> Seq<char> {
    match rename_lookup(rs, n) {
        Some(m) => m,
        None => n,
    }
}

/// The rename rules applied to every declaration reference inside a type.
pub open spec fn rename_type(t: TypeV, rs: Seq<(Seq<char>, Seq<char>)>) -> TypeV
    decreases t,
{
    match t {
        TypeV::Primitive { .. } => t,
        TypeV::Ptr { pointee } => TypeV::Ptr { pointee: Box::new(rename_type(*pointee, rs)) },
        TypeV::ConstPtr { pointee } => TypeV::ConstPtr {
            pointee: Box::new(rename_type(*pointee, rs)),
        },
        TypeV::Array { element, len } => TypeV::Array {
            element: Box::new(rename_type(*element, rs)),
            len,
        },
        TypeV::Path { name, args } => TypeV::Path {
            name: applied_rename(rs, name),
            args: rename_list(args, rs),
        },
    }
}

/// The rename rules applied to every type of a list, in order.
pub open spec fn rename_list(ts: Seq<TypeV>, rs: Seq<(Seq<char>, Seq<char>)>) -> Seq<TypeV>
    decreases ts,
{
    if ts.len() == 0 {
        Seq::empty()
    } else {
        seq![rename_type(ts[0], rs)] + rename_list(ts.subrange(1, ts.len() as int), rs)
    }
}

/// The character content of the rename rules.
pub open spec fn pairs_of(v: Seq<(String, String)>) -> Seq<(Seq<char>, Seq<char>)> {
    v.map_values(|p: (String, String)| (p.0@, p.1@))
}

/// The normal form of "optional value" types for the target dialect: an
/// `Option` of a pointer is the pointer itself (null standing for the absent
/// value); everything else is rewritten structurally.
pub open spec fn simplify_option(t: TypeV) -> TypeV
    decreases t,
    via simplify_option_decreases
{
    match t {
        TypeV::Primitive { .. } => t,
        TypeV::Ptr { pointee } => TypeV::Ptr { pointee: Box::new(simplify_option(*pointee)) },
        TypeV::ConstPtr { pointee } => TypeV::ConstPtr {
            pointee: Box::new(simplify_option(*pointee)),
        },
        TypeV::Array { element, len } => TypeV::Array {
            element: Box::new(simplify_option(*element)),
            len,
        },
        TypeV::Path { name, args } => {
            if name == "Option"@ && args.len() == 1 && (args[0] is Ptr || args[0] is ConstPtr) {
                simplify_option(args[0])
            } else {
                TypeV::Path { name, args: simplify_list(args) }
            }
        }
    }
}

/// Optional-value normalization applied to every type of a list, in order.
pub open spec fn simplify_list(ts: Seq<TypeV>) -> Seq<TypeV>
    decreases ts,
{
    if ts.len() == 0 {
        Seq::empty()
    } else {
        seq![simplify_option(ts[0])] + simplify_list(ts.subrange(1, ts.len() as int))
    }
}

#[via_fn]
proof fn simplify_option_decreases(t: TypeV) {
    broadcast use vstd::seq::axiom_seq_index_decreases;

    if let TypeV::Path { name, args } = t {
        if args.len() > 0 {
            assert(decreases_to!(t => args));
            assert(decreases_to!(args => args[0]));
        }
    }
}

/// Length and contents of `subst_list`, elementwise.
pub proof fn lemma_subst_list(ts: Seq<TypeV>, params: Seq<Seq<char>>, args: Seq<TypeV>)
    ensures
        subst_list(ts, params, args).len() == ts.len(),
        forall|i: int| 0 <= i < ts.len() ==> subst_list(ts, params, args)[i] == subst(
            #[trigger] ts[i],
            params,
            args,
        ),
    decreases ts.len(),
{
    if ts.len() > 0 {
        let rest = ts.subrange(1, ts.len() as int);
        lemma_subst_list(rest, params, args);
        assert forall|i: int| 0 <= i < ts.len() implies subst_list(ts, params, args)[i] == subst(
            ts[i],
            params,
            args,
        ) by {
            if i > 0 {
                assert(rest[i - 1] == ts[i]);
            }
        }
    }
}

/// Length and contents of `rename_list`, elementwise.
pub proof fn lemma_rename_list(ts: Seq<TypeV>, rs: Seq<(Seq<char>, Seq<char>)>)
    ensures
        rename_list(ts, rs).len() == ts.len(),
        forall|i: int| 0 <= i < ts.len() ==> rename_list(ts, rs)[i] == rename_type(
            #[trigger] ts[i],
            rs,
        ),
    decreases ts.len(),
{
    if ts.len() > 0 {
        let rest = ts.subrange(1, ts.len() as int);
        lemma_rename_list(rest, rs);
        assert forall|i: int| 0 <= i < ts.len() implies rename_list(ts, rs)[i] == rename_type(
            ts[i],
            rs,
        ) by {
            if i > 0 {
                assert(rest[i - 1] == ts[i]);
            }
        }
    }
}

/// Length and contents of `simplify_list`, elementwise.
pub proof fn lemma_simplify_list(ts: Seq<TypeV>)
    ensures
        simplify_list(ts).len() == ts.len(),
        forall|i: int| 0 <= i < ts.len() ==> simplify_list(ts)[i] == simplify_option(
            #[trigger] ts[i],
        ),
    decreases ts.len(),
{
    if ts.len() > 0 {
        let rest = ts.subrange(1, ts.len() as int);
        lemma_simplify_list(rest);
        assert forall|i: int| 0 <= i < ts.len() implies simplify_list(ts)[i] == simplify_option(
            ts[i],
        ) by {
            if i > 0 {
                assert(rest[i - 1] == ts[i]);
            }
        }
    }
}

/// Clones every type of a vector; the models are kept exactly.
pub fn clone_types(ts: &Vec<Type>) -> (res: Vec<Type>)
    ensures
        res@.len() == ts@.len(),
        forall|i: int| 0 <= i < ts@.len() ==> res@[i]@ == #[trigger] ts@[i]@,
    decreases ts@,
{
    let mut out: Vec<Type> = Vec::new();
    let mut i: usize = 0;
    while i < ts.len()
        invariant
            i <= ts@.len(),
            out@.len() == i as int,
            forall|k: int| 0 <= k < i ==> out@[k]@ == #[trigger] ts@[k]@,
        decreases ts@.len() - i,
    {
        proof {
            broadcast use vstd::seq::axiom_seq_index_decreases;

            assert(decreases_to!(ts@ => ts@[i as int]));
        }
        out.push(ts[i].clone());
        i = i + 1;
    }
    out
}

/// Structural equality of two types: equal exactly when their models are.
pub fn type_eq(a: &Type, b: &Type) -> (r: bool)
    ensures
        r == (a@ == b@),
    decreases a,
{
    match (a, b) {
        (Type::Primitive(n1), Type::Primitive(n2)) => crate::name_eq(n1, n2),
        (Type::Ptr(t1), Type::Ptr(t2)) => type_eq(t1, t2),
        (Type::ConstPtr(t1), Type::ConstPtr(t2)) => type_eq(t1, t2),
        (Type::Array(t1, l1), Type::Array(t2, l2)) => type_eq(t1, t2) && crate::name_eq(l1, l2),
        (Type::Path(n1, args1), Type::Path(n2, args2)) => {
            proof {
                Type::lemma_models_of(args1@);
                Type::lemma_models_of(args2@);
            }
            if !crate::name_eq(n1, n2) {
                return false;
            }
            if args1.len() != args2.len() {
                assert(a@ != b@) by {
                    assert(a@->Path_args.len() != b@->Path_args.len());
                }
                return false;
            }
            let mut i: usize = 0;
            while i < args1.len()
                invariant
                    args1@.len() == args2@.len(),
                    i <= args1@.len(),
                    a == Type::Path(*n1, *args1),
                    b == Type::Path(*n2, *args2),
                    n1@ == n2@,
                    forall|k: int| 0 <= k < i ==> args1@[k]@ == #[trigger] args2@[k]@,
                decreases args1@.len() - i,
            {
                proof {
                    broadcast use vstd::std_specs::vec::axiom_vec_decreases_to_view;
                    broadcast use vstd::seq::axiom_seq_index_decreases;

                    assert(decreases_to!(*a => a->Path_1));
                    assert(decreases_to!(a->Path_1 => a->Path_1@));
                    assert(decreases_to!(a->Path_1@ => a->Path_1@[i as int]));
                }
                if !type_eq(&args1[i], &args2[i]) {
                    proof {
                        Type::lemma_models_of(args1@);
                        Type::lemma_models_of(args2@);
                        assert(a@->Path_args[i as int] != b@->Path_args[i as int]);
                    }
                    return false;
                }
                i = i + 1;
            }
            proof {
                Type::lemma_models_of(args1@);
                Type::lemma_models_of(args2@);
                assert forall|k: int| 0 <= k < args1@.len() implies Type::models_of(args1@)[k]
                    == Type::models_of(args2@)[k] by {
                    assert(args1@[k]@ == args2@[k]@);
                    assert(Type::models_of(args1@)[k] == args1@[k].model());
                    assert(Type::models_of(args2@)[k] == args2@[k].model());
                }
                assert(Type::models_of(args1@) =~= Type::models_of(args2@));
                assert(a@ =~= b@);
            }
            true
        }
        _ => {
            proof {
                assert(a@ != b@);
            }
            false
        }
    }
}

/// Substitutes the concrete `args` for the generic parameter names `params`
/// throughout `t`, by positional correspondence.
pub fn subst_type(t: &Type, params: &Vec<String>, args: &Vec<Type>) -> (r: Type)
    requires
        params@.len() == args@.len(),
    ensures
        r@ == subst(t@, names_of(params@), Type::models_of(args@)),
    decreases t,
{
    let ghost ps = names_of(params@);
    let ghost avs = Type::models_of(args@);
    proof {
        Type::lemma_models_of(args@);
    }
    match t {
        Type::Primitive(n) => Type::Primitive(n.clone()),
        Type::Ptr(p) => Type::Ptr(Box::new(subst_type(p, params, args))),
        Type::ConstPtr(p) => Type::ConstPtr(Box::new(subst_type(p, params, args))),
        Type::Array(e, l) => Type::Array(Box::new(subst_type(e, params, args)), l.clone()),
        Type::Path(name, targs) => {
            if targs.len() == 0 {
                proof {
                    assert(ps.skip(0) =~= ps);
                    assert(avs.skip(0) =~= avs);
                }
                let mut i: usize = 0;
                while i < params.len()
                    invariant
                        i <= params@.len(),
                        params@.len() == args@.len(),
                        *t == Type::Path(*name, *targs),
                        targs@.len() == 0,
                        ps == names_of(params@),
                        avs == Type::models_of(args@),
                        ps.len() == params@.len(),
                        avs.len() == args@.len(),
                        forall|k: int| 0 <= k < args@.len() ==> avs[k] == #[trigger] args@[k]@,
                        param_lookup(ps, avs, name@) == param_lookup(
                            ps.skip(i as int),
                            avs.skip(i as int),
                            name@,
                        ),
                    decreases params@.len() - i,
                {
                    proof {
                        assert(ps.skip(i as int)[0] == params@[i as int]@);
                        assert(avs.skip(i as int)[0] == avs[i as int]);
                    }
                    if crate::name_eq(&params[i], name) {
                        proof {
                            assert(param_lookup(ps, avs, name@) == Some(avs[i as int]));
                        }
                        let r = args[i].clone();
                        proof {
                            assert(t@ == TypeV::Path { name: name@, args: Seq::<TypeV>::empty() })
                                by {
                                assert(Type::models_of(targs@) =~= Seq::<TypeV>::empty());
                            }
                            assert(subst(t@, ps, avs) == avs[i as int]);
                        }
                        return r;
                    }
                    proof {
                        let s1 = ps.skip(i as int);
                        let s2 = avs.skip(i as int);
                        assert(s1.subrange(1, s1.len() as int) =~= ps.skip(i as int + 1));
                        assert(s2.subrange(1, s2.len() as int) =~= avs.skip(i as int + 1));
                    }
                    i = i + 1;
                }
                let empty_args: Vec<Type> = Vec::new();
                let r = Type::Path(name.clone(), empty_args);
                proof {
                    assert(ps.skip(params@.len() as int) =~= Seq::<Seq<char>>::empty());
                    assert(param_lookup(ps, avs, name@) is None);
                    assert(t@ == TypeV::Path { name: name@, args: Seq::<TypeV>::empty() }) by {
                        assert(Type::models_of(targs@) =~= Seq::<TypeV>::empty());
                    }
                    assert(subst_list(Seq::<TypeV>::empty(), ps, avs) =~= Seq::<TypeV>::empty());
                    assert(empty_args@.len() == 0);
                    assert(Type::models_of(empty_args@) =~= Seq::<TypeV>::empty());
                    assert(r@->Path_args =~= Seq::<TypeV>::empty());
                    assert(r@ =~= subst(t@, ps, avs));
                }
                r
            } else {
                let ghost ms = Type::models_of(targs@);
                proof {
                    Type::lemma_models_of(targs@);
                }
                let mut new_args: Vec<Type> = Vec::new();
                let mut i: usize = 0;
                while i < targs.len()
                    invariant
                        i <= targs@.len(),
                        *t == Type::Path(*name, *targs),
                        params@.len() == args@.len(),
                        ps == names_of(params@),
                        avs == Type::models_of(args@),
                        ms == Type::models_of(targs@),
                        ms.len() == targs@.len(),
                        forall|k: int| 0 <= k < targs@.len() ==> ms[k] == #[trigger] targs@[k]@,
                        new_args@.len() == i as int,
                        forall|k: int|
                            0 <= k < i ==> #[trigger] new_args@[k]@ == subst(ms[k], ps, avs),
                    decreases targs@.len() - i,
                {
                    proof {
                        broadcast use vstd::seq::axiom_seq_index_decreases;
                        broadcast use vstd::std_specs::vec::axiom_vec_decreases_to_view;

                        assert(decreases_to!(*t => t->Path_1));
                        assert(decreases_to!(t->Path_1 => t->Path_1@));
                        assert(decreases_to!(t->Path_1@ => t->Path_1@[i as int]));
                    }
                    let s = subst_type(&targs[i], params, args);
                    new_args.push(s);
                    i = i + 1;
                }
                let r = Type::Path(name.clone(), new_args);
                proof {
                    Type::lemma_models_of(new_args@);
                    lemma_subst_list(ms, ps, avs);
                    assert forall|k: int| 0 <= k < ms.len() implies Type::models_of(new_args@)[k]
                        == subst_list(ms, ps, avs)[k] by {
                        assert(new_args@[k]@ == subst(ms[k], ps, avs));
                    }
                    assert(Type::models_of(new_args@) =~= subst_list(ms, ps, avs));
                    assert(t@ == TypeV::Path { name: name@, args: ms });
                    assert(param_lookup(ps, avs, name@) is Some ==> ms.len() == 0 || true);
                    assert(r@ =~= subst(t@, ps, avs));
                }
                r
            }
        }
    }
}

/// Applies the export rename rules to one declaration name.
pub fn rename_name(n: &String, rs: &Vec<(String, String)>) -> (r: String)
    ensures
        r@ == applied_rename(pairs_of(rs@), n@),
{
    let ghost prs = pairs_of(rs@);
    proof {
        assert(prs.skip(0) =~= prs);
    }
    let mut i: usize = 0;
    while i < rs.len()
        invariant
            i <= rs@.len(),
            prs == pairs_of(rs@),
            prs.len() == rs@.len(),
            rename_lookup(prs, n@) == rename_lookup(prs.skip(i as int), n@),
        decreases rs@.len() - i,
    {
        proof {
            assert(prs.skip(i as int)[0] == (rs@[i as int].0@, rs@[i as int].1@));
        }
        if crate::name_eq(&rs[i].0, n) {
            proof {
                assert(rename_lookup(prs, n@) == Some(rs@[i as int].1@));
            }
            return rs[i].1.clone();
        }
        proof {
            let s = prs.skip(i as int);
            assert(s.subrange(1, s.len() as int) =~= prs.skip(i as int + 1));
        }
        i = i + 1;
    }
    proof {
        assert(prs.skip(rs@.len() as int) =~= Seq::<(Seq<char>, Seq<char>)>::empty());
        assert(rename_lookup(prs, n@) is None);
    }
    n.clone()
}

/// Applies the export rename rules to every declaration reference inside `t`.
pub fn rename_in_type(t: &Type, rs: &Vec<(String, String)>) -> (r: Type)
    ensures
        r@ == rename_type(t@, pairs_of(rs@)),
    decreases t,
{
    let ghost prs = pairs_of(rs@);
    match t {
        Type::Primitive(n) => Type::Primitive(n.clone()),
        Type::Ptr(p) => Type::Ptr(Box::new(rename_in_type(p, rs))),
        Type::ConstPtr(p) => Type::ConstPtr(Box::new(rename_in_type(p, rs))),
        Type::Array(e, l) => Type::Array(Box::new(rename_in_type(e, rs)), l.clone()),
        Type::Path(name, targs) => {
            let ghost ms = Type::models_of(targs@);
            proof {
                Type::lemma_models_of(targs@);
            }
            let new_name = rename_name(name, rs);
            let mut new_args: Vec<Type> = Vec::new();
            let mut i: usize = 0;
            while i < targs.len()
                invariant
                    i <= targs@.len(),
                    *t == Type::Path(*name, *targs),
                    prs == pairs_of(rs@),
                    ms == Type::models_of(targs@),
                    ms.len() == targs@.len(),
                    forall|k: int| 0 <= k < targs@.len() ==> ms[k] == #[trigger] targs@[k]@,
                    new_args@.len() == i as int,
                    forall|k: int| 0 <= k < i ==> #[trigger] new_args@[k]@ == rename_type(
                        ms[k],
                        prs,
                    ),
                decreases targs@.len() - i,
            {
                proof {
                    broadcast use vstd::seq::axiom_seq_index_decreases;
                    broadcast use vstd::std_specs::vec::axiom_vec_decreases_to_view;

                    assert(decreases_to!(*t => t->Path_1));
                    assert(decreases_to!(t->Path_1 => t->Path_1@));
                    assert(decreases_to!(t->Path_1@ => t->Path_1@[i as int]));
                }
                let s = rename_in_type(&targs[i], rs);
                new_args.push(s);
                i = i + 1;
            }
            let r = Type::Path(new_name, new_args);
            proof {
                Type::lemma_models_of(new_args@);
                lemma_rename_list(ms, prs);
                assert forall|k: int| 0 <= k < ms.len() implies Type::models_of(new_args@)[k]
                    == rename_list(ms, prs)[k] by {
                    assert(new_args@[k]@ == rename_type(ms[k], prs));
                }
                assert(Type::models_of(new_args@) =~= rename_list(ms, prs));
                assert(t@ == TypeV::Path { name: name@, args: ms });
                assert(r@ =~= rename_type(t@, prs));
            }
            r
        }
    }
}

/// Rewrites `t` into the optional-value normal form of `simplify_option`.
pub fn simplify_in_type(t: &Type) -> (r: Type)
    ensures
        r@ == simplify_option(t@),
    decreases t,
{
    match t {
        Type::Primitive(n) => Type::Primitive(n.clone()),
        Type::Ptr(p) => Type::Ptr(Box::new(simplify_in_type(p))),
        Type::ConstPtr(p) => Type::ConstPtr(Box::new(simplify_in_type(p))),
        Type::Array(e, l) => Type::Array(Box::new(simplify_in_type(e)), l.clone()),
        Type::Path(name, targs) => {
            let ghost ms = Type::models_of(targs@);
            proof {
                Type::lemma_models_of(targs@);
            }
            let option_name = String::from_str("Option");
            if crate::name_eq(name, &option_name) && targs.len() == 1 {
                let inner_is_ptr = match &targs[0] {
                    Type::Ptr(_) => true,
                    Type::ConstPtr(_) => false,
                    _ => false,
                };
                let inner_is_cptr = match &targs[0] {
                    Type::ConstPtr(_) => true,
                    _ => false,
                };
                if inner_is_ptr || inner_is_cptr {
                    proof {
                        broadcast use vstd::seq::axiom_seq_index_decreases;
                        broadcast use vstd::std_specs::vec::axiom_vec_decreases_to_view;

                        assert(decreases_to!(*t => t->Path_1));
                        assert(decreases_to!(t->Path_1 => t->Path_1@));
                        assert(decreases_to!(t->Path_1@ => t->Path_1@[0int]));
                        assert(t@ == TypeV::Path { name: name@, args: ms });
                        assert(ms[0] == targs@[0]@);
                    }
                    return simplify_in_type(&targs[0]);
                }
            }
            let mut new_args: Vec<Type> = Vec::new();
            let mut i: usize = 0;
            while i < targs.len()
                invariant
                    i <= targs@.len(),
                    *t == Type::Path(*name, *targs),
                    ms == Type::models_of(targs@),
                    ms.len() == targs@.len(),
                    forall|k: int| 0 <= k < targs@.len() ==> ms[k] == #[trigger] targs@[k]@,
                    new_args@.len() == i as int,
                    forall|k: int|
                        0 <= k < i ==> #[trigger] new_args@[k]@ == simplify_option(ms[k]),
                decreases targs@.len() - i,
            {
                proof {
                    broadcast use vstd::seq::axiom_seq_index_decreases;
                    broadcast use vstd::std_specs::vec::axiom_vec_decreases_to_view;

                    assert(decreases_to!(*t => t->Path_1));
                    assert(decreases_to!(t->Path_1 => t->Path_1@));
                    assert(decreases_to!(t->Path_1@ => t->Path_1@[i as int]));
                }
                let s = simplify_in_type(&targs[i]);
                new_args.push(s);
                i = i + 1;
            }
            let r = Type::Path(name.clone(), new_args);
            proof {
                Type::lemma_models_of(new_args@);
                lemma_simplify_list(ms);
                assert forall|k: int| 0 <= k < ms.len() implies Type::models_of(new_args@)[k]
                    == simplify_list(ms)[k] by {
                    assert(new_args@[k]@ == simplify_option(ms[k]));
                }
                assert(Type::models_of(new_args@) =~= simplify_list(ms));
                assert(t@ == TypeV::Path { name: name@, args: ms });
                assert(r@ =~= simplify_option(t@));
            }
            r
        }
    }
}

impl Clone for Type {
    fn clone(&self) -> (res: Self)
        ensures
            res@ == self@,
        decreases self,
    {
        match self {
            Type::Primitive(name) => Type::Primitive(name.clone()),
            Type::Ptr(t) => Type::Ptr(Box::new((**t).clone())),
            Type::ConstPtr(t) => Type::ConstPtr(Box::new((**t).clone())),
            Type::Array(t, len) => Type::Array(Box::new((**t).clone()), len.clone()),
            Type::Path(name, args) => {
                proof {
                    broadcast use vstd::std_specs::vec::axiom_vec_decreases_to_view;

                    assert(decreases_to!(*self => self->Path_1));
                    assert(decreases_to!(self->Path_1 => self->Path_1@));
                }
                let new_args = clone_types(args);
                let res = Type::Path(name.clone(), new_args);
                proof {
                    Type::lemma_models_of(new_args@);
                    Type::lemma_models_of(args@);
                    assert forall|i: int| 0 <= i < args@.len() implies Type::models_of(
                        new_args@,
                    )[i] == Type::models_of(args@)[i] by {
                        assert(new_args@[i]@ == args@[i]@);
                    }
                    assert(Type::models_of(new_args@) =~= Type::models_of(args@));
                    assert(res@ =~= self@);
                }
                res
            }
        }
    }
}

} // verus!
