//! Function declarations: roots of the dependency traversal.

use crate::metadata::{Metadata, MetadataV};
use crate::types::{Type, TypeV};
use vstd::prelude::*;

verus! {

/// Model of one function argument.
#[verifier::ext_equal]
pub struct FunctionArgV {
    pub name: Seq<char>,
    pub ty: TypeV,
}

/// One argument of a function declaration.
#[derive(Debug)]
pub struct FunctionArg {
    pub name: String,
    pub ty: Type,
}

impl View for FunctionArg {
    type V = FunctionArgV;

    open spec fn view(&self) -> FunctionArgV {
        FunctionArgV { name: self.name@, ty: self.ty@ }
    }
}

impl Clone for FunctionArg {
    fn clone(&self) -> (r: Self)
        ensures
            r@ == self@,
    {
        let r = FunctionArg { name: self.name.clone(), ty: self.ty.clone() };
        proof {
            assert(r@ =~= self@);
        }
        r
    }
}

/// The models of a sequence of function arguments, in order.
pub open spec fn args_of(v: Seq<FunctionArg>) -> Seq<FunctionArgV> {
    v.map_values(|a: FunctionArg| a@)
}

/// Model of a function declaration.
#[verifier::ext_equal]
pub struct FunctionV {
    pub name: Seq<char>,
    pub ret: TypeV,
    pub args: Seq<FunctionArgV>,
    pub meta: MetadataV,
}

/// A function declaration: every type it mentions is a dependency root.
#[derive(Debug)]
pub struct Function {
    pub name: String,
    pub ret: Type,
    pub args: Vec<FunctionArg>,
    pub meta: Metadata,
}

impl View for Function {
    type V = FunctionV;

    open spec fn view(&self) -> FunctionV {
        FunctionV {
            name: self.name@,
            ret: self.ret@,
            args: args_of(self.args@),
            meta: self.meta@,
        }
    }
}

/// A function's by-value dependency names: its return type's, then each
/// argument type's, in order.
pub open spec fn fn_dep_names(f: FunctionV) -> Seq<Seq<char>> {
    crate::types::dep_names(f.ret) + args_dep_names(f.args)
}

/// Concatenated by-value dependency names of an argument list.
pub open spec fn args_dep_names(args: Seq<FunctionArgV>) -> Seq<Seq<char>>
    decreases args,
{
    if args.len() == 0 {
        Seq::empty()
    } else {
        crate::types::dep_names(args[0].ty) + args_dep_names(args.subrange(1, args.len() as int))
    }
}

/// Concatenated usages of an argument list.
pub open spec fn args_usages(args: Seq<FunctionArgV>) -> Seq<crate::types::GenericPathV>
    decreases args,
{
    if args.len() == 0 {
        Seq::empty()
    } else {
        crate::types::usages(args[0].ty) + args_usages(args.subrange(1, args.len() as int))
    }
}

/// A function's usages of possibly-generic declarations.
pub open spec fn fn_usages(f: FunctionV) -> Seq<crate::types::GenericPathV> {
    crate::types::usages(f.ret) + args_usages(f.args)
}

/// A function with the export rename map applied to its name and to every
/// declaration reference in its signature.
pub open spec fn renamed_fn(f: FunctionV, rs: Seq<(Seq<char>, Seq<char>)>) -> FunctionV {
    FunctionV {
        name: crate::types::applied_rename(rs, f.name),
        ret: crate::types::rename_type(f.ret, rs),
        args: Seq::new(
            f.args.len(),
            |i: int|
                FunctionArgV {
                    name: f.args[i].name,
                    ty: crate::types::rename_type(f.args[i].ty, rs),
                },
        ),
        ..f
    }
}

/// A function with every optional-value type normalized.
pub open spec fn simplified_fn(f: FunctionV) -> FunctionV {
    FunctionV {
        ret: crate::types::simplify_option(f.ret),
        args: Seq::new(
            f.args.len(),
            |i: int|
                FunctionArgV {
                    name: f.args[i].name,
                    ty: crate::types::simplify_option(f.args[i].ty),
                },
        ),
        ..f
    }
}

/// A function signature with every reference to a generic instantiation
/// rewritten to its mangled concrete name; `None` when any usage was never
/// instantiated.
pub open spec fn rewritten_fn(
    f: FunctionV,
    table: Seq<(crate::types::GenericPathV, Seq<char>)>,
) -> Option<FunctionV> {
    if crate::monomorph::rewrite_type(f.ret, table) is Some && forall|i: int|
        0 <= i < f.args.len() ==> crate::monomorph::rewrite_type(
            (#[trigger] f.args[i]).ty,
            table,
        ) is Some {
        Some(
            FunctionV {
                ret: crate::monomorph::rewrite_type(f.ret, table)->Some_0,
                args: Seq::new(
                    f.args.len(),
                    |i: int|
                        FunctionArgV {
                            name: f.args[i].name,
                            ty: crate::monomorph::rewrite_type(f.args[i].ty, table)->Some_0,
                        },
                ),
                ..f
            },
        )
    } else {
        None
    }
}

impl Function {
    /// The names of every declaration the function's signature depends on
    /// by value, in traversal order.
    pub fn dependency_names(&self) -> (res: Vec<String>)
        ensures
            crate::types::names_of(res@) == fn_dep_names(self@),
    {
        let mut out: Vec<String> = Vec::new();
        crate::types::collect_dep_names(&self.ret, &mut out);
        proof {
            assert(crate::types::names_of(Seq::<String>::empty()) =~= Seq::<Seq<char>>::empty());
            assert(Seq::<Seq<char>>::empty() + crate::types::dep_names(self.ret@) =~=
                crate::types::dep_names(self.ret@));
        }
        let ghost av = args_of(self.args@);
        proof {
            assert(av.skip(0) =~= av);
        }
        let mut i: usize = 0;
        while i < self.args.len()
            invariant
                i <= self.args@.len(),
                av == args_of(self.args@),
                av.len() == self.args@.len(),
                crate::types::names_of(out@) + args_dep_names(av.skip(i as int))
                    == crate::types::dep_names(self.ret@) + args_dep_names(av),
            decreases self.args@.len() - i,
        {
            let ghost before = crate::types::names_of(out@);
            crate::types::collect_dep_names(&self.args[i].ty, &mut out);
            proof {
                let s = av.skip(i as int);
                assert(s[0] == av[i as int]);
                assert(s.subrange(1, s.len() as int) =~= av.skip(i as int + 1));
                assert(av[i as int].ty == self.args@[i as int].ty@);
                assert((before + crate::types::dep_names(av[i as int].ty)) + args_dep_names(
                    av.skip(i as int + 1),
                ) =~= before + (crate::types::dep_names(av[i as int].ty) + args_dep_names(
                    av.skip(i as int + 1),
                )));
            }
            i = i + 1;
        }
        proof {
            assert(av.skip(self.args@.len() as int) =~= Seq::<FunctionArgV>::empty());
            assert(crate::types::names_of(out@) =~= crate::types::names_of(out@) + Seq::<
                Seq<char>,
            >::empty());
        }
        out
    }

    /// Appends every usage of a possibly-generic declaration in the
    /// function's signature.
    pub fn collect_fn_usages(&self, out: &mut Vec<crate::types::GenericPath>)
        ensures
            crate::types::paths_of(final(out)@) == crate::types::paths_of(old(out)@) + fn_usages(
                self@,
            ),
    {
        let ghost base = crate::types::paths_of(out@);
        crate::types::collect_usages(&self.ret, out);
        let ghost av = args_of(self.args@);
        proof {
            assert(av.skip(0) =~= av);
        }
        let mut i: usize = 0;
        while i < self.args.len()
            invariant
                i <= self.args@.len(),
                av == args_of(self.args@),
                av.len() == self.args@.len(),
                crate::types::paths_of(out@) + args_usages(av.skip(i as int)) == base
                    + crate::types::usages(self.ret@) + args_usages(av),
            decreases self.args@.len() - i,
        {
            let ghost before = crate::types::paths_of(out@);
            crate::types::collect_usages(&self.args[i].ty, out);
            proof {
                let s = av.skip(i as int);
                assert(s[0] == av[i as int]);
                assert(s.subrange(1, s.len() as int) =~= av.skip(i as int + 1));
                assert(av[i as int].ty == self.args@[i as int].ty@);
                assert((before + crate::types::usages(av[i as int].ty)) + args_usages(
                    av.skip(i as int + 1),
                ) =~= before + (crate::types::usages(av[i as int].ty) + args_usages(
                    av.skip(i as int + 1),
                )));
            }
            i = i + 1;
        }
        proof {
            assert(av.skip(self.args@.len() as int) =~= Seq::<FunctionArgV>::empty());
            assert(crate::types::paths_of(out@) =~= crate::types::paths_of(out@) + Seq::<
                crate::types::GenericPathV,
            >::empty());
            assert(base + crate::types::usages(self.ret@) + args_usages(av) =~= base + (
            crate::types::usages(self.ret@) + args_usages(av)));
        }
    }

    /// Applies the export rename map to the function's name and to every
    /// declaration reference in its signature.
    pub fn rename_for_config(&mut self, config: &crate::config::Config)
        ensures
            final(self)@ == renamed_fn(
                old(self)@,
                crate::types::pairs_of(config.export.rename@),
            ),
    {
        let nn = crate::types::rename_name(&self.name, &config.export.rename);
        self.name = nn;
        let nr = crate::types::rename_in_type(&self.ret, &config.export.rename);
        self.ret = nr;
        let mut new_args: Vec<FunctionArg> = Vec::new();
        let ghost av = args_of(old(self).args@);
        let mut i: usize = 0;
        while i < self.args.len()
            invariant
                i <= self.args@.len(),
                self.args@ == old(self).args@,
                av == args_of(old(self).args@),
                av.len() == self.args@.len(),
                new_args@.len() == i as int,
                forall|k: int|
                    0 <= k < i ==> (#[trigger] new_args@[k]@).name == av[k].name
                        && new_args@[k]@.ty == crate::types::rename_type(
                        av[k].ty,
                        crate::types::pairs_of(config.export.rename@),
                    ),
            decreases self.args@.len() - i,
        {
            let nt = crate::types::rename_in_type(&self.args[i].ty, &config.export.rename);
            new_args.push(FunctionArg { name: self.args[i].name.clone(), ty: nt });
            proof {
                assert(av[i as int] == self.args@[i as int]@);
            }
            i = i + 1;
        }
        self.args = new_args;
        proof {
            assert(args_of(self.args@) =~= renamed_fn(
                old(self)@,
                crate::types::pairs_of(config.export.rename@),
            ).args);
            assert(self@ =~= renamed_fn(
                old(self)@,
                crate::types::pairs_of(config.export.rename@),
            ));
        }
    }

    /// Normalizes every optional-value type in the signature.
    pub fn simplify_option_to_ptr(&mut self)
        ensures
            final(self)@ == simplified_fn(old(self)@),
    {
        let nr = crate::types::simplify_in_type(&self.ret);
        self.ret = nr;
        let mut new_args: Vec<FunctionArg> = Vec::new();
        let ghost av = args_of(old(self).args@);
        let mut i: usize = 0;
        while i < self.args.len()
            invariant
                i <= self.args@.len(),
                self.args@ == old(self).args@,
                av == args_of(old(self).args@),
                av.len() == self.args@.len(),
                new_args@.len() == i as int,
                forall|k: int|
                    0 <= k < i ==> (#[trigger] new_args@[k]@).name == av[k].name
                        && new_args@[k]@.ty == crate::types::simplify_option(av[k].ty),
            decreases self.args@.len() - i,
        {
            let nt = crate::types::simplify_in_type(&self.args[i].ty);
            new_args.push(FunctionArg { name: self.args[i].name.clone(), ty: nt });
            proof {
                assert(av[i as int] == self.args@[i as int]@);
            }
            i = i + 1;
        }
        self.args = new_args;
        proof {
            assert(args_of(self.args@) =~= simplified_fn(old(self)@).args);
            assert(self@ =~= simplified_fn(old(self)@));
        }
    }

    /// Rewrites every reference to a generic instantiation in the
    /// signature into its mangled concrete name: exactly `rewritten_fn`.
    /// Fails, changing nothing, exactly when a usage was never
    /// instantiated.
    pub fn mangle_paths(&mut self, mono: &crate::monomorph::Monomorphs) -> (r: Result<
        (),
        crate::CoreError,
    >)
        requires
            mono.wf(),
        ensures
            final(self)@.name == old(self)@.name,
            r is Ok ==> rewritten_fn(
                old(self)@,
                crate::monomorph::table_of(mono.replacements@),
            ) == Some(final(self)@),
            r is Err ==> final(self)@ == old(self)@ && r->Err_0
                == crate::CoreError::UnresolvedMonomorph && rewritten_fn(
                old(self)@,
                crate::monomorph::table_of(mono.replacements@),
            ) is None,
    {
        let ghost table = crate::monomorph::table_of(mono.replacements@);
        let nr = match mono.rewrite_in_type(&self.ret) {
            Ok(x) => x,
            Err(e) => {
                return Err(e);
            }
        };
        let mut new_args: Vec<FunctionArg> = Vec::new();
        let mut i: usize = 0;
        while i < self.args.len()
            invariant
                i <= self.args@.len(),
                self.args@ == old(self).args@,
                self.ret@ == old(self).ret@,
                self.name@ == old(self).name@,
                self.meta@ == old(self).meta@,
                mono.wf(),
                table == crate::monomorph::table_of(mono.replacements@),
                crate::monomorph::rewrite_type(old(self)@.ret, table) == Some(nr@),
                new_args@.len() == i as int,
                forall|k: int|
                    0 <= k < i ==> (#[trigger] new_args@[k]@).name == old(self)@.args[k].name
                        && crate::monomorph::rewrite_type(old(self)@.args[k].ty, table) == Some(
                        new_args@[k]@.ty,
                    ),
            decreases self.args@.len() - i,
        {
            match mono.rewrite_in_type(&self.args[i].ty) {
                Ok(nt) => {
                    new_args.push(FunctionArg { name: self.args[i].name.clone(), ty: nt });
                    proof {
                        assert(old(self)@.args[i as int] == self.args@[i as int]@);
                    }
                }
                Err(e) => {
                    proof {
                        assert(old(self)@.args[i as int] == self.args@[i as int]@);
                        assert(crate::monomorph::rewrite_type(
                            old(self)@.args[i as int].ty,
                            table,
                        ) is None);
                        assert(rewritten_fn(old(self)@, table) is None);
                    }
                    return Err(e);
                }
            }
            i = i + 1;
        }
        self.ret = nr;
        self.args = new_args;
        proof {
            assert(rewritten_fn(old(self)@, table) is Some) by {
                assert forall|k: int| 0 <= k < old(self)@.args.len() implies
                    crate::monomorph::rewrite_type(
                    (#[trigger] old(self)@.args[k]).ty,
                    table,
                ) is Some by {
                    assert(crate::monomorph::rewrite_type(old(self)@.args[k].ty, table) == Some(
                        new_args@[k]@.ty,
                    ));
                }
            }
            assert(args_of(self.args@) =~= Seq::new(
                old(self)@.args.len(),
                |k: int|
                    FunctionArgV {
                        name: old(self)@.args[k].name,
                        ty: crate::monomorph::rewrite_type(old(self)@.args[k].ty, table)->Some_0,
                    },
            ));
            assert(rewritten_fn(old(self)@, table)->Some_0 =~= self@);
        }
        Ok(())
    }
}

impl Clone for Function {
    fn clone(&self) -> (r: Self)
        ensures
            r@ == self@,
    {
        let mut new_args: Vec<FunctionArg> = Vec::new();
        let mut i: usize = 0;
        while i < self.args.len()
            invariant
                i <= self.args@.len(),
                new_args@.len() == i as int,
                forall|k: int| 0 <= k < i ==> new_args@[k]@ == #[trigger] self.args@[k]@,
            decreases self.args@.len() - i,
        {
            new_args.push(self.args[i].clone());
            i = i + 1;
        }
        let r = Function {
            name: self.name.clone(),
            ret: self.ret.clone(),
            args: new_args,
            meta: self.meta.clone(),
        };
        proof {
            assert(args_of(r.args@) =~= args_of(self.args@));
            assert(r@ =~= self@);
        }
        r
    }
}

} // verus!
