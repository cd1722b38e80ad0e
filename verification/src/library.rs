//! The pipeline orchestrator: one `generate` run takes the parsed
//! declaration set through exclusion, canonical function ordering, the
//! annotation and rename passes, optional-value normalization, generic
//! instantiation for dialects without generics, and dependency resolution,
//! and assembles the ordered bundle handed to the emitter.

use crate::config::{Config, Language};
use crate::dependencies::{convex_names, resolve_names, topo_sorted, Dependencies};
use crate::function::{Function, FunctionV};
use crate::item::{
    items_of, map_has_key, no_generics, without_names, ItemContainer, ItemMap, ItemValueV,
};
use crate::metadata::AnnotationSet;
use crate::monomorph::Monomorphs;
use crate::types::{names_of, GenericPath};
use vstd::multiset::Multiset;
use vstd::prelude::*;

verus! {

/// Lexicographic order on names, by character code.
pub open spec fn lex_leq(a: Seq<char>, b: Seq<char>) -> bool
    decreases a.len(),
{
    if a.len() == 0 {
        true
    } else if b.len() == 0 {
        false
    } else if (a[0] as u32) < (b[0] as u32) {
        true
    } else if (b[0] as u32) < (a[0] as u32) {
        false
    } else {
        lex_leq(a.subrange(1, a.len() as int), b.subrange(1, b.len() as int))
    }
}

/// Every name follows itself.
pub proof fn lemma_lex_refl(a: Seq<char>)
    ensures
        lex_leq(a, a),
    decreases a.len(),
{
    if a.len() > 0 {
        lemma_lex_refl(a.subrange(1, a.len() as int));
    }
}

/// The order is total: two names always compare one way or the other.
pub proof fn lemma_lex_total(a: Seq<char>, b: Seq<char>)
    ensures
        lex_leq(a, b) || lex_leq(b, a),
    decreases a.len(),
{
    if a.len() > 0 && b.len() > 0 && (a[0] as u32) == (b[0] as u32) {
        lemma_lex_total(a.subrange(1, a.len() as int), b.subrange(1, b.len() as int));
    }
}

/// The order composes: what follows a name follows what it follows.
pub proof fn lemma_lex_trans(a: Seq<char>, b: Seq<char>, c: Seq<char>)
    requires
        lex_leq(a, b),
        lex_leq(b, c),
    ensures
        lex_leq(a, c),
    decreases a.len(),
{
    if a.len() > 0 && b.len() > 0 && c.len() > 0 && (a[0] as u32) == (b[0] as u32) && (b[0] as u32)
        == (c[0] as u32) {
        lemma_lex_trans(
            a.subrange(1, a.len() as int),
            b.subrange(1, b.len() as int),
            c.subrange(1, c.len() as int),
        );
    }
}

/// Compares two names in the lexicographic order.
pub fn name_leq(a: &String, b: &String) -> (r: bool)
    ensures
        r == lex_leq(a@, b@),
{
    let an = a.as_str().unicode_len();
    let bn = b.as_str().unicode_len();
    proof {
        assert(a@.skip(0) =~= a@);
        assert(b@.skip(0) =~= b@);
    }
    let mut i: usize = 0;
    while i < an && i < bn
        invariant
            i <= an && i <= bn,
            an == a@.len() && bn == b@.len(),
            lex_leq(a@, b@) == lex_leq(a@.skip(i as int), b@.skip(i as int)),
            lex_leq(b@, a@) == lex_leq(b@.skip(i as int), a@.skip(i as int)),
        decreases an - i,
    {
        let ca = a.as_str().get_char(i);
        let cb = b.as_str().get_char(i);
        let cau = ca as u32;
        let cbu = cb as u32;
        proof {
            let sa = a@.skip(i as int);
            let sb = b@.skip(i as int);
            assert(sa[0] == a@[i as int] && sb[0] == b@[i as int]);
            assert(sa.subrange(1, sa.len() as int) =~= a@.skip(i as int + 1));
            assert(sb.subrange(1, sb.len() as int) =~= b@.skip(i as int + 1));
        }
        if cau < cbu {
            return true;
        }
        if cbu < cau {
            return false;
        }
        i = i + 1;
    }
    proof {
        let sa = a@.skip(i as int);
        let sb = b@.skip(i as int);
        assert(sa.len() == a@.len() - i && sb.len() == b@.len() - i);
        if an <= bn {
            assert(sa.len() == 0);
            assert(lex_leq(sa, sb));
        } else {
            assert(sb.len() == 0 && sa.len() > 0);
            assert(!lex_leq(sa, sb));
        }
    }
    an <= bn
}

/// The models of a list of functions, in order.
pub open spec fn fns_of(v: Seq<Function>) -> Seq<FunctionV> {
    v.map_values(|f: Function| f@)
}

/// The functions whose names are not excluded, in order.
pub open spec fn funcs_without(fs: Seq<FunctionV>, ex: Seq<Seq<char>>) -> Seq<FunctionV>
    decreases fs,
{
    if fs.len() == 0 {
        Seq::empty()
    } else {
        (if ex.contains(fs[0].name) {
            Seq::empty()
        } else {
            seq![fs[0]]
        }) + funcs_without(fs.subrange(1, fs.len() as int), ex)
    }
}

/// No excluded name survives `without_names`.
pub proof fn lemma_without_names_complete(m: Seq<(Seq<char>, ItemValueV)>, ex: Seq<Seq<char>>)
    ensures
        forall|n: Seq<char>|
            ex.contains(n) ==> !map_has_key(#[trigger] without_names(m, ex), n),
    decreases m.len(),
{
    if m.len() > 0 {
        let rest = m.subrange(1, m.len() as int);
        lemma_without_names_complete(rest, ex);
        let w = without_names(m, ex);
        let wr = without_names(rest, ex);
        assert forall|n: Seq<char>| ex.contains(n) implies !map_has_key(w, n) by {
            if map_has_key(w, n) {
                let k = choose|k: int| 0 <= k < w.len() && (#[trigger] w[k]).0 == n;
                if ex.contains(m[0].0) {
                    assert(w =~= Seq::<(Seq<char>, ItemValueV)>::empty() + wr);
                    assert(w[k] == wr[k]);
                    assert(map_has_key(wr, n));
                } else {
                    assert(w =~= seq![m[0]] + wr);
                    if k == 0 {
                        assert(m[0].0 == n);
                    } else {
                        assert(w[k] == wr[k - 1]);
                        assert(map_has_key(wr, n));
                    }
                }
            }
        }
    }
}

/// No excluded name survives `funcs_without`.
pub proof fn lemma_funcs_without_complete(fs: Seq<FunctionV>, ex: Seq<Seq<char>>)
    ensures
        forall|k: int|
            0 <= k < funcs_without(fs, ex).len() ==> !ex.contains(
                (#[trigger] funcs_without(fs, ex)[k]).name,
            ),
    decreases fs.len(),
{
    if fs.len() > 0 {
        let rest = fs.subrange(1, fs.len() as int);
        lemma_funcs_without_complete(rest, ex);
        let w = funcs_without(fs, ex);
        let wr = funcs_without(rest, ex);
        assert forall|k: int| 0 <= k < w.len() implies !ex.contains((#[trigger] w[k]).name) by {
            if ex.contains(fs[0].name) {
                assert(w =~= Seq::<FunctionV>::empty() + wr);
                assert(w[k] == wr[k]);
            } else {
                if k > 0 {
                    assert(w[k] == wr[k - 1]);
                }
            }
        }
    }
}

/// The type registry as the resolver will see it for a dialect with
/// generics: exclusion, annotation transfer, renaming and optional-value
/// normalization, each as its fold.
pub open spec fn preprocessed_types(lib: Library) -> Seq<(Seq<char>, ItemValueV)> {
    let filtered = without_names(lib.types@, names_of(lib.config.export.exclude@));
    let collected = collect_fold(
        (
            Seq::<(Seq<char>, Seq<(Seq<char>, crate::metadata::AnnotationValueV)>)>::empty(),
            Seq::<crate::item::ItemContainerV>::empty(),
        ),
        crate::item::flattened(filtered),
    );
    let transferred = annotate_fold(
        crate::item::map_fold(Seq::<(Seq<char>, ItemValueV)>::empty(), collected.1),
        collected.0,
    );
    let renamed = crate::item::map_fold(
        Seq::<(Seq<char>, ItemValueV)>::empty(),
        renamed_flat(transferred, lib.config),
    );
    crate::item::map_fold(
        Seq::<(Seq<char>, ItemValueV)>::empty(),
        simplified_flat(renamed),
    )
}

/// A constants or globals registry after its preprocessing: exclusion,
/// renaming, and optional-value normalization, each as its fold. The
/// annotation transfer touches only the type registry.
pub open spec fn preprocessed_registry(
    m: Seq<(Seq<char>, ItemValueV)>,
    config: Config,
) -> Seq<(Seq<char>, ItemValueV)> {
    let filtered = without_names(m, names_of(config.export.exclude@));
    let renamed = crate::item::map_fold(
        Seq::<(Seq<char>, ItemValueV)>::empty(),
        renamed_flat(filtered, config),
    );
    crate::item::map_fold(Seq::<(Seq<char>, ItemValueV)>::empty(), simplified_flat(renamed))
}

/// Whether `fv` is the renamed, normalized image of some kept input
/// function.
pub open spec fn processed_fn_image(input: Library, fv: FunctionV) -> bool {
    exists|f: FunctionV|
        #![trigger crate::function::renamed_fn(f, crate::types::pairs_of(input.config.export.rename@))]
        funcs_without(
            fns_of(input.functions@),
            names_of(input.config.export.exclude@),
        ).contains(f) && fv == crate::function::simplified_fn(
            crate::function::renamed_fn(
                f,
                crate::types::pairs_of(input.config.export.rename@),
            ),
        )
}

/// Whether every function of `fs` is the renamed, normalized image of some
/// kept input function.
pub open spec fn processed_fns_of(input: Library, fs: Seq<Function>) -> bool {
    forall|k: int| 0 <= k < fs.len() ==> processed_fn_image(input, (#[trigger] fs[k])@)
}

/// Whether `n` seeds the dependency traversal for a dialect with generics:
/// a by-value dependency name of some processed function signature or of
/// some processed global, or a force-listed name.
pub open spec fn cxx_root_name(lib: Library, n: Seq<char>) -> bool {
    let ex = names_of(lib.config.export.exclude@);
    let rs = crate::types::pairs_of(lib.config.export.rename@);
    ||| exists|f: FunctionV|
        #![trigger crate::function::fn_dep_names(crate::function::simplified_fn(crate::function::renamed_fn(f, rs)))]
        funcs_without(fns_of(lib.functions@), ex).contains(f) && crate::function::fn_dep_names(
            crate::function::simplified_fn(crate::function::renamed_fn(f, rs)),
        ).contains(n)
    ||| exists|i: int|
        0 <= i < crate::item::flattened(preprocessed_registry(lib.globals@, lib.config)).len()
            && (#[trigger] crate::item::flattened(
            preprocessed_registry(lib.globals@, lib.config),
        )[i]).real_deps().contains(n)
    ||| names_of(lib.config.export.included@).contains(n)
}

/// The final bundle handed to the emitter: self-contained constants,
/// globals, one topologically ordered declaration list, and the functions
/// in canonical name order.
#[derive(Debug)]
pub struct Bindings {
    pub config: Config,
    pub constants: Vec<ItemContainer>,
    pub globals: Vec<ItemContainer>,
    pub items: Vec<ItemContainer>,
    pub functions: Vec<Function>,
}

/// The parsed declaration set and the configuration of one run.
#[derive(Debug)]
pub struct Library {
    pub config: Config,
    pub constants: ItemMap,
    pub globals: ItemMap,
    pub types: ItemMap,
    pub functions: Vec<Function>,
}

/// The declarations of a registry, flattened and renamed for the
/// configuration.
pub open spec fn renamed_flat(
    m: Seq<(Seq<char>, crate::item::ItemValueV)>,
    config: Config,
) -> Seq<crate::item::ItemContainerV> {
    crate::item::flattened(m).map_values(
        |v: crate::item::ItemContainerV|
            crate::item::renamed_decl(
                v,
                crate::types::pairs_of(config.export.rename@),
                config.structure.rename_fields,
            ),
    )
}

/// A registry rebuilt with every declaration renamed for the
/// configuration: the fold of the merge rule over the renamed
/// declarations in entry order. A declaration losing a rename-induced
/// merge conflict is dropped, exactly as on first construction.
fn renamed_map(map: &ItemMap, config: &Config) -> (r: ItemMap)
    requires
        map.wf(),
    ensures
        r.wf(),
        r@ == crate::item::map_fold(
            Seq::<(Seq<char>, crate::item::ItemValueV)>::empty(),
            renamed_flat(map@, *config),
        ),
{
    let items = map.to_vec();
    let ghost rflat = renamed_flat(map@, *config);
    let ghost start = Seq::<(Seq<char>, crate::item::ItemValueV)>::empty();
    proof {
        assert(rflat.skip(0) =~= rflat);
    }
    let mut out = ItemMap::new();
    let mut i: usize = 0;
    while i < items.len()
        invariant
            i <= items@.len(),
            out.wf(),
            items_of(items@) == crate::item::flattened(map@),
            rflat == renamed_flat(map@, *config),
            rflat.len() == items@.len(),
            crate::item::map_fold(start, rflat) == crate::item::map_fold(
                out@,
                rflat.skip(i as int),
            ),
        decreases items@.len() - i,
    {
        let ghost pre = out@;
        let mut it = items[i].clone();
        it.rename_for_config(config);
        out.try_insert(it);
        proof {
            let sk = rflat.skip(i as int);
            assert(sk[0] == rflat[i as int]);
            assert(crate::item::flattened(map@)[i as int] == items@[i as int]@);
            assert(it@ == rflat[i as int]);
            assert(sk.subrange(1, sk.len() as int) =~= rflat.skip(i as int + 1));
            assert(crate::item::map_fold(pre, sk) == crate::item::map_fold(
                crate::item::map_inserted(pre, rflat[i as int]).0,
                rflat.skip(i as int + 1),
            ));
        }
        i = i + 1;
    }
    proof {
        assert(rflat.skip(items@.len() as int) =~= Seq::<crate::item::ItemContainerV>::empty());
        assert(crate::item::map_fold(out@, rflat.skip(items@.len() as int)) == out@);
    }
    out
}

/// The declarations of a registry, flattened and normalized.
pub open spec fn simplified_flat(
    m: Seq<(Seq<char>, crate::item::ItemValueV)>,
) -> Seq<crate::item::ItemContainerV> {
    crate::item::flattened(m).map_values(
        |v: crate::item::ItemContainerV| crate::item::simplified_decl(v),
    )
}

/// A registry with every optional-value type normalized: the fold of the
/// merge rule over the normalized declarations in entry order.
fn simplified_map(map: &ItemMap) -> (r: ItemMap)
    requires
        map.wf(),
    ensures
        r.wf(),
        r@ == crate::item::map_fold(
            Seq::<(Seq<char>, crate::item::ItemValueV)>::empty(),
            simplified_flat(map@),
        ),
{
    let items = map.to_vec();
    let ghost sflat = simplified_flat(map@);
    let ghost start = Seq::<(Seq<char>, crate::item::ItemValueV)>::empty();
    proof {
        assert(sflat.skip(0) =~= sflat);
    }
    let mut out = ItemMap::new();
    let mut i: usize = 0;
    while i < items.len()
        invariant
            i <= items@.len(),
            out.wf(),
            items_of(items@) == crate::item::flattened(map@),
            sflat == simplified_flat(map@),
            sflat.len() == items@.len(),
            crate::item::map_fold(start, sflat) == crate::item::map_fold(
                out@,
                sflat.skip(i as int),
            ),
        decreases items@.len() - i,
    {
        let ghost pre = out@;
        let mut it = items[i].clone();
        it.simplify_option_to_ptr();
        out.try_insert(it);
        proof {
            let sk = sflat.skip(i as int);
            assert(sk[0] == sflat[i as int]);
            assert(crate::item::flattened(map@)[i as int] == items@[i as int]@);
            assert(it@ == sflat[i as int]);
            assert(sk.subrange(1, sk.len() as int) =~= sflat.skip(i as int + 1));
            assert(crate::item::map_fold(pre, sk) == crate::item::map_fold(
                crate::item::map_inserted(pre, sflat[i as int]).0,
                sflat.skip(i as int + 1),
            ));
        }
        i = i + 1;
    }
    proof {
        assert(sflat.skip(items@.len() as int) =~= Seq::<crate::item::ItemContainerV>::empty());
        assert(crate::item::map_fold(out@, sflat.skip(items@.len() as int)) == out@);
    }
    out
}

/// The declarations of a registry, flattened and rewritten against the
/// instantiation table; only meaningful when every one rewrites.
pub open spec fn mangled_flat(
    m: Seq<(Seq<char>, crate::item::ItemValueV)>,
    table: Seq<(crate::types::GenericPathV, Seq<char>)>,
) -> Seq<crate::item::ItemContainerV> {
    crate::item::flattened(m).map_values(
        |v: crate::item::ItemContainerV| crate::item::rewritten_decl(v, table)->Some_0,
    )
}

/// A registry with every generic-instantiation reference rewritten to its
/// mangled concrete name: the fold of the merge rule over the rewritten
/// declarations. Fails exactly when some stored declaration holds a usage
/// that was never instantiated.
fn mangled_map(map: &ItemMap, mono: &Monomorphs) -> (r: Result<ItemMap, crate::CoreError>)
    requires
        map.wf(),
        mono.wf(),
    ensures
        r is Ok ==> {
            &&& r->Ok_0.wf()
            &&& forall|i: int|
                0 <= i < crate::item::flattened(map@).len() ==> crate::item::rewritten_decl(
                    #[trigger] crate::item::flattened(map@)[i],
                    crate::monomorph::table_of(mono.replacements@),
                ) is Some
            &&& r->Ok_0@ == crate::item::map_fold(
                Seq::<(Seq<char>, crate::item::ItemValueV)>::empty(),
                mangled_flat(map@, crate::monomorph::table_of(mono.replacements@)),
            )
        },
        r is Err ==> r->Err_0 == crate::CoreError::UnresolvedMonomorph && exists|i: int|
            0 <= i < crate::item::flattened(map@).len() && crate::item::rewritten_decl(
                #[trigger] crate::item::flattened(map@)[i],
                crate::monomorph::table_of(mono.replacements@),
            ) is None,
{
    let items = map.to_vec();
    let ghost table = crate::monomorph::table_of(mono.replacements@);
    let ghost mflat = mangled_flat(map@, table);
    let ghost start = Seq::<(Seq<char>, crate::item::ItemValueV)>::empty();
    proof {
        assert(mflat.skip(0) =~= mflat);
    }
    let mut out = ItemMap::new();
    let mut i: usize = 0;
    while i < items.len()
        invariant
            i <= items@.len(),
            out.wf(),
            mono.wf(),
            table == crate::monomorph::table_of(mono.replacements@),
            items_of(items@) == crate::item::flattened(map@),
            mflat == mangled_flat(map@, table),
            mflat.len() == items@.len(),
            forall|k: int|
                0 <= k < i ==> crate::item::rewritten_decl(
                    #[trigger] crate::item::flattened(map@)[k],
                    table,
                ) is Some,
            crate::item::map_fold(start, mflat) == crate::item::map_fold(
                out@,
                mflat.skip(i as int),
            ),
        decreases items@.len() - i,
    {
        let ghost pre = out@;
        let mut it = items[i].clone();
        match it.mangle_paths(mono) {
            Ok(()) => {}
            Err(e) => {
                proof {
                    assert(crate::item::flattened(map@)[i as int] == items@[i as int]@);
                }
                return Err(e);
            }
        }
        out.try_insert(it);
        proof {
            let sk = mflat.skip(i as int);
            assert(sk[0] == mflat[i as int]);
            assert(crate::item::flattened(map@)[i as int] == items@[i as int]@);
            assert(it@ == mflat[i as int]);
            assert(sk.subrange(1, sk.len() as int) =~= mflat.skip(i as int + 1));
            assert(crate::item::map_fold(pre, sk) == crate::item::map_fold(
                crate::item::map_inserted(pre, mflat[i as int]).0,
                mflat.skip(i as int + 1),
            ));
        }
        i = i + 1;
    }
    proof {
        assert(mflat.skip(items@.len() as int) =~= Seq::<crate::item::ItemContainerV>::empty());
        assert(crate::item::map_fold(out@, mflat.skip(items@.len() as int)) == out@);
    }
    Ok(out)
}

impl Library {
    /// Whether every registry of the library is well formed.
    pub open spec fn wf(self) -> bool {
        &&& self.constants.wf()
        &&& self.globals.wf()
        &&& self.types.wf()
    }

    /// Assembles a library from its parsed parts.
    pub fn new(
        config: Config,
        constants: ItemMap,
        globals: ItemMap,
        types: ItemMap,
        functions: Vec<Function>,
    ) -> (r: Library)
        ensures
            r.config == config,
            r.constants == constants,
            r.globals == globals,
            r.types == types,
            r.functions == functions,
    {
        Library { config, constants, globals, types, functions }
    }

    /// The declarations stored under `name`, for emission by reference.
    pub fn get_items(&self, name: &String) -> (r: Option<Vec<ItemContainer>>)
        requires
            self.types.wf(),
        ensures
            match r {
                Some(v) => map_has_key(self.types@, name@) && exists|k: int|
                    0 <= k < self.types@.len() && (#[trigger] self.types@[k]).0 == name@
                        && items_of(v@) == self.types@[k].1.group(),
                None => !map_has_key(self.types@, name@),
            },
    {
        self.types.get_items(name)
    }

    /// Removes every excluded name from constants, globals, types and
    /// functions at once: each category keeps exactly its non-excluded
    /// declarations, in order, and afterwards no category holds a
    /// declaration under an excluded name.
    fn remove_excluded(&mut self)
        requires
            old(self).wf(),
        ensures
            final(self).wf(),
            final(self).config == old(self).config,
            final(self).types@ == without_names(
                old(self).types@,
                names_of(old(self).config.export.exclude@),
            ),
            final(self).constants@ == without_names(
                old(self).constants@,
                names_of(old(self).config.export.exclude@),
            ),
            final(self).globals@ == without_names(
                old(self).globals@,
                names_of(old(self).config.export.exclude@),
            ),
            fns_of(final(self).functions@) == funcs_without(
                fns_of(old(self).functions@),
                names_of(old(self).config.export.exclude@),
            ),
            forall|n: Seq<char>|
                names_of(old(self).config.export.exclude@).contains(n) ==> !map_has_key(
                    final(self).types@,
                    n,
                ) && !map_has_key(final(self).constants@, n) && !map_has_key(
                    final(self).globals@,
                    n,
                ),
            forall|k: int|
                0 <= k < final(self).functions@.len() ==> !names_of(
                    old(self).config.export.exclude@,
                ).contains((#[trigger] final(self).functions@[k]@).name),
    {
        let ghost ex = names_of(self.config.export.exclude@);
        let excluded = crate::clone_strings(&self.config.export.exclude);
        proof {
            assert(names_of(excluded@) =~= ex);
        }
        self.types.filter(&excluded);
        self.constants.filter(&excluded);
        self.globals.filter(&excluded);
        let mut kept: Vec<Function> = Vec::new();
        let mut fs: Vec<Function> = Vec::new();
        std::mem::swap(&mut fs, &mut self.functions);
        let ghost fv = fns_of(fs@);
        proof {
            assert(fv.skip(0) =~= fv);
        }
        let mut i: usize = 0;
        while i < fs.len()
            invariant
                i <= fs@.len(),
                fv == fns_of(fs@),
                fv.len() == fs@.len(),
                ex == names_of(old(self).config.export.exclude@),
                excluded@.len() == old(self).config.export.exclude@.len(),
                names_of(excluded@) == ex,
                fns_of(kept@) + funcs_without(fv.skip(i as int), ex) == funcs_without(fv, ex),
            decreases fs@.len() - i,
        {
            proof {
                let s = fv.skip(i as int);
                assert(s[0] == fv[i as int]);
                assert(s.subrange(1, s.len() as int) =~= fv.skip(i as int + 1));
                assert(fv[i as int] == fs@[i as int]@);
            }
            let ghost before = fns_of(kept@);
            let name_in = crate::generics::contains_name(&excluded, &fs[i].name);
            if !name_in {
                kept.push(fs[i].clone());
                proof {
                    assert(fns_of(kept@) =~= before.push(fv[i as int]));
                    assert(before.push(fv[i as int]) + funcs_without(fv.skip(i as int + 1), ex)
                        =~= before + (seq![fv[i as int]] + funcs_without(
                        fv.skip(i as int + 1),
                        ex,
                    )));
                }
            } else {
                proof {
                    assert(before + funcs_without(fv.skip(i as int + 1), ex) =~= before + (Seq::<
                        FunctionV,
                    >::empty() + funcs_without(fv.skip(i as int + 1), ex)));
                }
            }
            i = i + 1;
        }
        proof {
            assert(fv.skip(fs@.len() as int) =~= Seq::<FunctionV>::empty());
            assert(fns_of(kept@) =~= fns_of(kept@) + Seq::<FunctionV>::empty());
            assert(fns_of(kept@) == funcs_without(fv, ex));
        }
        self.functions = kept;
        proof {
            lemma_without_names_complete(old(self).types@, ex);
            lemma_without_names_complete(old(self).constants@, ex);
            lemma_without_names_complete(old(self).globals@, ex);
            lemma_funcs_without_complete(fv, ex);
            assert forall|k: int| 0 <= k < self.functions@.len() implies !names_of(
                old(self).config.export.exclude@,
            ).contains((#[trigger] self.functions@[k]@).name) by {
                assert(fns_of(self.functions@)[k] == self.functions@[k]@);
            }
        }
    }

    /// Sorts the functions into the canonical lexicographic name order for
    /// deterministic emission: the result is sorted and holds exactly the
    /// same functions.
    fn sort_functions(&mut self)
        ensures
            final(self).functions@.to_multiset() == old(self).functions@.to_multiset(),
            final(self).functions@.len() == old(self).functions@.len(),
            forall|i: int, j: int|
                0 <= i < j < final(self).functions@.len() ==> lex_leq(
                    (#[trigger] final(self).functions@[i])@.name,
                    (#[trigger] final(self).functions@[j])@.name,
                ),
            final(self).config == old(self).config,
            final(self).constants == old(self).constants,
            final(self).globals == old(self).globals,
            final(self).types == old(self).types,
    {
        let mut rem: Vec<Function> = Vec::new();
        std::mem::swap(&mut rem, &mut self.functions);
        let ghost orig = rem@;
        let mut out: Vec<Function> = Vec::new();
        proof {
            broadcast use vstd::seq_lib::group_seq_properties;

            orig.to_multiset_ensures();
        }
        while rem.len() > 0
            invariant
                out@.len() + rem@.len() == orig.len(),
                out@.to_multiset().add(rem@.to_multiset()) =~= orig.to_multiset(),
                forall|i: int, j: int|
                    0 <= i < j < out@.len() ==> lex_leq(
                        (#[trigger] out@[i])@.name,
                        (#[trigger] out@[j])@.name,
                    ),
                forall|i: int, j: int|
                    0 <= i < out@.len() && 0 <= j < rem@.len() ==> lex_leq(
                        (#[trigger] out@[i])@.name,
                        (#[trigger] rem@[j])@.name,
                    ),
            decreases rem@.len(),
        {
            // Select the least remaining name.
            proof {
                lemma_lex_refl(rem@[0]@.name);
            }
            let mut best: usize = 0;
            let mut j: usize = 1;
            while j < rem.len()
                invariant
                    best < j <= rem@.len(),
                    rem@.len() > 0,
                    forall|k: int| 0 <= k < j ==> lex_leq(
                        (#[trigger] rem@[best as int])@.name,
                        (rem@[k])@.name,
                    ),
                decreases rem@.len() - j,
            {
                let better = name_leq(&rem[j].name, &rem[best].name);
                proof {
                    lemma_lex_total(rem@[j as int]@.name, rem@[best as int]@.name);
                }
                if better {
                    proof {
                        assert forall|k: int| 0 <= k < j + 1 implies lex_leq(
                            (#[trigger] rem@[j as int])@.name,
                            (rem@[k])@.name,
                        ) by {
                            if k < j {
                                lemma_lex_trans(
                                    rem@[j as int]@.name,
                                    rem@[best as int]@.name,
                                    rem@[k]@.name,
                                );
                            } else {
                                lemma_lex_refl(rem@[j as int]@.name);
                            }
                        }
                    }
                    best = j;
                }
                j = j + 1;
            }
            let ghost pre_rem = rem@;
            let ghost pre_out = out@;
            let picked = rem.remove(best);
            out.push(picked);
            proof {
                broadcast use vstd::seq_lib::group_seq_properties;

                pre_rem.to_multiset_ensures();
                pre_out.to_multiset_ensures();
                assert(rem@ == pre_rem.remove(best as int));
                assert(rem@.to_multiset() =~= pre_rem.to_multiset().remove(
                    pre_rem[best as int],
                ));
                assert(out@.to_multiset() =~= pre_out.to_multiset().insert(
                    pre_rem[best as int],
                ));
                assert(out@.to_multiset().add(rem@.to_multiset()) =~= orig.to_multiset());
                assert forall|i: int, j2: int|
                    0 <= i < out@.len() && 0 <= j2 < rem@.len() implies lex_leq(
                    (#[trigger] out@[i])@.name,
                    (#[trigger] rem@[j2])@.name,
                ) by {
                    if i < pre_out.len() {
                        assert(out@[i] == pre_out[i]);
                        if j2 < best {
                            assert(rem@[j2] == pre_rem[j2]);
                        } else {
                            assert(rem@[j2] == pre_rem[j2 + 1]);
                        }
                    } else {
                        assert(out@[i] == pre_rem[best as int]);
                        if j2 < best {
                            assert(rem@[j2] == pre_rem[j2]);
                        } else {
                            assert(rem@[j2] == pre_rem[j2 + 1]);
                        }
                    }
                }
                assert forall|i: int, j2: int| 0 <= i < j2 < out@.len() implies lex_leq(
                    (#[trigger] out@[i])@.name,
                    (#[trigger] out@[j2])@.name,
                ) by {
                    if j2 < pre_out.len() {
                    } else {
                        assert(out@[j2] == pre_rem[best as int]);
                        if i < pre_out.len() {
                            assert(out@[i] == pre_out[i]);
                        }
                    }
                }
            }
        }
        proof {
            broadcast use vstd::seq_lib::group_seq_properties;

            assert(rem@.to_multiset() =~= Multiset::<Function>::empty()) by {
                rem@.to_multiset_ensures();
            }
            assert(out@.to_multiset() =~= orig.to_multiset());
        }
        self.functions = out;
    }
}

} // verus!

verus! {

/// The target a declaration donates its annotations to: an alias without
/// generic parameters of its own, carrying annotations, whose aliased type
/// directly references a named declaration.
pub open spec fn transfer_target(v: crate::item::ItemContainerV) -> Option<Seq<char>> {
    match v {
        crate::item::ItemContainerV::Typedef(t) => if t.generic_params.len() == 0
            && t.meta.annotations.len() > 0 && t.aliased is Path {
            Some(t.aliased->Path_name)
        } else {
            None
        },
        _ => None,
    }
}

/// Whether a transfer list (as views) already names `target`.
pub open spec fn vtransfers_has(
    ts: Seq<(Seq<char>, Seq<(Seq<char>, crate::metadata::AnnotationValueV)>)>,
    target: Seq<char>,
) -> bool {
    exists|k: int| 0 <= k < ts.len() && (#[trigger] ts[k]).0 == target
}

/// One step of the collection phase: a donating alias whose target is
/// unclaimed records its annotations and is cleared; everything else
/// passes through unchanged.
pub open spec fn collect_step(
    acc: (
        Seq<(Seq<char>, Seq<(Seq<char>, crate::metadata::AnnotationValueV)>)>,
        Seq<crate::item::ItemContainerV>,
    ),
    v: crate::item::ItemContainerV,
) -> (
    Seq<(Seq<char>, Seq<(Seq<char>, crate::metadata::AnnotationValueV)>)>,
    Seq<crate::item::ItemContainerV>,
) {
    match transfer_target(v) {
        Some(target) => if vtransfers_has(acc.0, target) {
            (acc.0, acc.1.push(v))
        } else {
            (
                acc.0.push((target, v.meta_v().annotations)),
                acc.1.push(crate::item::with_annotations(v, Seq::empty())),
            )
        },
        None => (acc.0, acc.1.push(v)),
    }
}

/// The collection phase folded over a declaration list.
pub open spec fn collect_fold(
    acc: (
        Seq<(Seq<char>, Seq<(Seq<char>, crate::metadata::AnnotationValueV)>)>,
        Seq<crate::item::ItemContainerV>,
    ),
    items: Seq<crate::item::ItemContainerV>,
) -> (
    Seq<(Seq<char>, Seq<(Seq<char>, crate::metadata::AnnotationValueV)>)>,
    Seq<crate::item::ItemContainerV>,
)
    decreases items,
{
    if items.len() == 0 {
        acc
    } else {
        collect_fold(collect_step(acc, items[0]), items.subrange(1, items.len() as int))
    }
}

/// The application phase: each recorded transfer annotates its target's
/// entry, first writers first.
pub open spec fn annotate_fold(
    m: Seq<(Seq<char>, crate::item::ItemValueV)>,
    ts: Seq<(Seq<char>, Seq<(Seq<char>, crate::metadata::AnnotationValueV)>)>,
) -> Seq<(Seq<char>, crate::item::ItemValueV)>
    decreases ts,
{
    if ts.len() == 0 {
        m
    } else {
        annotate_fold(
            crate::item::map_annotated_at(m, ts[0].0, ts[0].1),
            ts.subrange(1, ts.len() as int),
        )
    }
}

impl Library {
    /// Moves alias annotations onto the declarations they directly name:
    /// for each annotated alias of a named declaration, the first such
    /// alias wins; a later one, and a target already annotated on its own,
    /// keep things as they are and are counted as conflicts.
    fn transfer_annotations(&mut self) -> (conflicts: usize)
        requires
            old(self).wf(),
        ensures
            final(self).wf(),
            final(self).config == old(self).config,
            final(self).functions == old(self).functions,
            final(self).constants == old(self).constants,
            final(self).globals == old(self).globals,
            ({
                let collected = collect_fold(
                    (
                        Seq::<
                            (Seq<char>, Seq<(Seq<char>, crate::metadata::AnnotationValueV)>),
                        >::empty(),
                        Seq::<crate::item::ItemContainerV>::empty(),
                    ),
                    crate::item::flattened(old(self).types@),
                );
                final(self).types@ == annotate_fold(
                    crate::item::map_fold(Seq::<(Seq<char>, ItemValueV)>::empty(), collected.1),
                    collected.0,
                )
            }),
    {
        let items = self.types.to_vec();
        let ghost flat = crate::item::flattened(old(self).types@);
        let ghost acc0 = (
            Seq::<(Seq<char>, Seq<(Seq<char>, crate::metadata::AnnotationValueV)>)>::empty(),
            Seq::<crate::item::ItemContainerV>::empty(),
        );
        let mut transfers: Vec<(String, AnnotationSet)> = Vec::new();
        let mut rebuilt = ItemMap::new();
        let mut conflicts: usize = 0;
        let ghost mut cleared = Seq::<crate::item::ItemContainerV>::empty();
        proof {
            assert(flat.skip(0) =~= flat);
            assert(crate::typedef::transfers_of(transfers@) =~= acc0.0);
        }
        let mut i: usize = 0;
        while i < items.len()
            invariant
                i <= items@.len(),
                rebuilt.wf(),
                conflicts <= i,
                items_of(items@) == flat,
                flat.len() == items@.len(),
                collect_fold(acc0, flat) == collect_fold(
                    (crate::typedef::transfers_of(transfers@), cleared),
                    flat.skip(i as int),
                ),
                rebuilt@ == crate::item::map_fold(
                    Seq::<(Seq<char>, ItemValueV)>::empty(),
                    cleared,
                ),
            decreases items@.len() - i,
        {
            proof {
                let sk = flat.skip(i as int);
                assert(sk[0] == flat[i as int]);
                assert(flat[i as int] == items@[i as int]@);
                assert(sk.subrange(1, sk.len() as int) =~= flat.skip(i as int + 1));
            }
            let ghost pre_vec = transfers@;
            let ghost pre_transfers = crate::typedef::transfers_of(transfers@);
            let ghost pre_rebuilt = rebuilt@;
            let mut it = items[i].clone();
            let ghost pre_it = it@;
            match &mut it {
                ItemContainer::Typedef(td) => {
                    let clash = td.transfer_annotations(&mut transfers);
                    if clash && conflicts < usize::MAX {
                        conflicts = conflicts + 1;
                    }
                    proof {
                        match transfer_target(pre_it) {
                            Some(target) => {
                                let tdv = pre_it->Typedef_0;
                                assert(tdv.meta.annotations.len() > 0 && tdv.aliased is Path);
                                assert(target == tdv.aliased->Path_name);
                                assert(crate::typedef::transfers_has(pre_vec, target)
                                    == vtransfers_has(pre_transfers, target)) by {
                                    if crate::typedef::transfers_has(pre_vec, target) {
                                        let k = choose|k: int|
                                            0 <= k < pre_vec.len() && (#[trigger] pre_vec[k]).0@
                                                == target;
                                        assert(pre_transfers[k].0 == target);
                                    }
                                    if vtransfers_has(pre_transfers, target) {
                                        let k = choose|k: int|
                                            0 <= k < pre_transfers.len()
                                                && (#[trigger] pre_transfers[k]).0 == target;
                                        assert(pre_vec[k].0@ == target);
                                    }
                                }
                                if vtransfers_has(pre_transfers, target) {
                                    assert(it@ == pre_it);
                                } else {
                                    assert(it@.meta_v().annotations =~= Seq::<
                                        (Seq<char>, crate::metadata::AnnotationValueV),
                                    >::empty());
                                    assert(it@ =~= crate::item::with_annotations(
                                        pre_it,
                                        Seq::empty(),
                                    ));
                                }
                            }
                            None => {
                                assert(it@ == pre_it);
                            }
                        }
                    }
                }
                _ => {
                    proof {
                        assert(transfer_target(pre_it) is None);
                        assert(it@ == pre_it);
                    }
                }
            }
            proof {
                // The exec step is one collection step of the model.
                assert((crate::typedef::transfers_of(transfers@), cleared.push(it@))
                    =~= collect_step((pre_transfers, cleared), pre_it));
            }
            let ghost itv = it@;
            rebuilt.try_insert(it);
            proof {
                crate::item::lemma_map_fold_snoc(
                    Seq::<(Seq<char>, ItemValueV)>::empty(),
                    cleared,
                    itv,
                );
                cleared = cleared.push(itv);
            }
            i = i + 1;
        }
        proof {
            assert(flat.skip(items@.len() as int) =~= Seq::<crate::item::ItemContainerV>::empty());
        }
        let ghost collected = collect_fold(acc0, flat);
        let ghost after_inserts = rebuilt@;
        proof {
            assert(collect_fold(
                (crate::typedef::transfers_of(transfers@), cleared),
                flat.skip(items@.len() as int),
            ) == (crate::typedef::transfers_of(transfers@), cleared));
            assert(collected == (crate::typedef::transfers_of(transfers@), cleared));
            assert(collected.0.skip(0) =~= collected.0);
        }
        let mut j: usize = 0;
        while j < transfers.len()
            invariant
                j <= transfers@.len(),
                rebuilt.wf(),
                crate::typedef::transfers_of(transfers@) == collected.0,
                collected.0.len() == transfers@.len(),
                annotate_fold(after_inserts, collected.0) == annotate_fold(
                    rebuilt@,
                    collected.0.skip(j as int),
                ),
            decreases transfers@.len() - j,
        {
            proof {
                let sk = collected.0.skip(j as int);
                assert(sk[0] == collected.0[j as int]);
                assert(collected.0[j as int] == (transfers@[j as int].0@, transfers@[j as int].1@));
                assert(sk.subrange(1, sk.len() as int) =~= collected.0.skip(j as int + 1));
            }
            let ghost pre = rebuilt@;
            let c = rebuilt.set_annotations_for(&transfers[j].0, &transfers[j].1);
            if c > 0 && conflicts < usize::MAX {
                conflicts = conflicts + 1;
            }
            proof {
                assert(annotate_fold(pre, collected.0.skip(j as int)) == annotate_fold(
                    crate::item::map_annotated_at(
                        pre,
                        collected.0[j as int].0,
                        collected.0[j as int].1,
                    ),
                    collected.0.skip(j as int + 1),
                ));
            }
            j = j + 1;
        }
        proof {
            assert(collected.0.skip(transfers@.len() as int) =~= Seq::<
                (Seq<char>, Seq<(Seq<char>, crate::metadata::AnnotationValueV)>),
            >::empty());
            assert(annotate_fold(rebuilt@, collected.0.skip(transfers@.len() as int))
                == rebuilt@);
        }
        self.types = rebuilt;
        conflicts
    }

    /// Applies the configured renames to every category, then rebuilds each
    /// registry, since renaming can merge previously distinct names: each
    /// registry becomes the fold of the merge rule over its renamed
    /// declarations, and each function is renamed in place.
    fn rename_items(&mut self)
        requires
            old(self).wf(),
        ensures
            final(self).wf(),
            final(self).config == old(self).config,
            final(self).globals@ == crate::item::map_fold(
                Seq::<(Seq<char>, ItemValueV)>::empty(),
                renamed_flat(old(self).globals@, old(self).config),
            ),
            final(self).constants@ == crate::item::map_fold(
                Seq::<(Seq<char>, ItemValueV)>::empty(),
                renamed_flat(old(self).constants@, old(self).config),
            ),
            final(self).types@ == crate::item::map_fold(
                Seq::<(Seq<char>, ItemValueV)>::empty(),
                renamed_flat(old(self).types@, old(self).config),
            ),
            final(self).functions@.len() == old(self).functions@.len(),
            forall|k: int|
                0 <= k < old(self).functions@.len() ==> final(self).functions@[k]@
                    == crate::function::renamed_fn(
                    (#[trigger] old(self).functions@[k])@,
                    crate::types::pairs_of(old(self).config.export.rename@),
                ),
    {
        let new_globals = renamed_map(&self.globals, &self.config);
        self.globals = new_globals;
        let new_constants = renamed_map(&self.constants, &self.config);
        self.constants = new_constants;
        let new_types = renamed_map(&self.types, &self.config);
        self.types = new_types;
        let mut fs: Vec<Function> = Vec::new();
        std::mem::swap(&mut fs, &mut self.functions);
        let mut out: Vec<Function> = Vec::new();
        let mut i: usize = 0;
        while i < fs.len()
            invariant
                i <= fs@.len(),
                self.wf(),
                self.config == old(self).config,
                self.globals@ == crate::item::map_fold(
                    Seq::<(Seq<char>, ItemValueV)>::empty(),
                    renamed_flat(old(self).globals@, old(self).config),
                ),
                self.constants@ == crate::item::map_fold(
                    Seq::<(Seq<char>, ItemValueV)>::empty(),
                    renamed_flat(old(self).constants@, old(self).config),
                ),
                self.types@ == crate::item::map_fold(
                    Seq::<(Seq<char>, ItemValueV)>::empty(),
                    renamed_flat(old(self).types@, old(self).config),
                ),
                fs@ == old(self).functions@,
                out@.len() == i as int,
                forall|k: int|
                    0 <= k < i ==> out@[k]@ == crate::function::renamed_fn(
                        (#[trigger] old(self).functions@[k])@,
                        crate::types::pairs_of(old(self).config.export.rename@),
                    ),
            decreases fs@.len() - i,
        {
            let mut f = fs[i].clone();
            f.rename_for_config(&self.config);
            out.push(f);
            i = i + 1;
        }
        self.functions = out;
    }

    /// Normalizes every optional-value type across the whole library: each
    /// registry becomes the fold of the merge rule over its normalized
    /// declarations, and each signature is normalized in place.
    fn simplify_option_to_ptr(&mut self)
        requires
            old(self).wf(),
        ensures
            final(self).wf(),
            final(self).config == old(self).config,
            final(self).constants@ == crate::item::map_fold(
                Seq::<(Seq<char>, ItemValueV)>::empty(),
                simplified_flat(old(self).constants@),
            ),
            final(self).globals@ == crate::item::map_fold(
                Seq::<(Seq<char>, ItemValueV)>::empty(),
                simplified_flat(old(self).globals@),
            ),
            final(self).types@ == crate::item::map_fold(
                Seq::<(Seq<char>, ItemValueV)>::empty(),
                simplified_flat(old(self).types@),
            ),
            final(self).functions@.len() == old(self).functions@.len(),
            forall|k: int|
                0 <= k < old(self).functions@.len() ==> final(self).functions@[k]@
                    == crate::function::simplified_fn((#[trigger] old(self).functions@[k])@),
    {
        let new_constants = simplified_map(&self.constants);
        self.constants = new_constants;
        let new_globals = simplified_map(&self.globals);
        self.globals = new_globals;
        let new_types = simplified_map(&self.types);
        self.types = new_types;
        let mut fs: Vec<Function> = Vec::new();
        std::mem::swap(&mut fs, &mut self.functions);
        let mut out: Vec<Function> = Vec::new();
        let mut i: usize = 0;
        while i < fs.len()
            invariant
                i <= fs@.len(),
                self.wf(),
                self.config == old(self).config,
                self.constants@ == crate::item::map_fold(
                    Seq::<(Seq<char>, ItemValueV)>::empty(),
                    simplified_flat(old(self).constants@),
                ),
                self.globals@ == crate::item::map_fold(
                    Seq::<(Seq<char>, ItemValueV)>::empty(),
                    simplified_flat(old(self).globals@),
                ),
                self.types@ == crate::item::map_fold(
                    Seq::<(Seq<char>, ItemValueV)>::empty(),
                    simplified_flat(old(self).types@),
                ),
                fs@ == old(self).functions@,
                out@.len() == i as int,
                forall|k: int|
                    0 <= k < i ==> out@[k]@ == crate::function::simplified_fn(
                        (#[trigger] old(self).functions@[k])@,
                    ),
            decreases fs@.len() - i,
        {
            let mut f = fs[i].clone();
            f.simplify_option_to_ptr();
            out.push(f);
            i = i + 1;
        }
        self.functions = out;
    }

    /// Instantiates every concrete usage of a generic declaration, drops
    /// the raw templates (not emittable without generics), and rewrites
    /// every remaining reference to its mangled concrete name. The same
    /// usage is never instantiated twice; nested usages introduced by an
    /// instantiation are themselves instantiated before the run finishes.
    /// Exceeding the defensive depth bound, an arity mismatch, and a
    /// reference left unresolved are fatal structural errors.
    fn instantiate_monomorphs(&mut self) -> (r: Result<(), crate::CoreError>)
        requires
            old(self).wf(),
        ensures
            r is Err ==> (r->Err_0 == crate::CoreError::MonomorphDepthExceeded || r->Err_0
                == crate::CoreError::GenericArityMismatch || r->Err_0
                == crate::CoreError::UnresolvedMonomorph),
            r is Ok ==> final(self).wf() && no_generics(final(self).types@) && final(self).config
                == old(self).config && final(self).constants == old(self).constants
                && final(self).functions@.len() == old(self).functions@.len() && forall|k: int|
                0 <= k < old(self).functions@.len() ==> (#[trigger] final(self).functions@[
                    k
                ]@).name == old(self).functions@[k]@.name,
    {
        let mut mono = Monomorphs::new();
        let mut pending: Vec<GenericPath> = Vec::new();
        // Every concrete usage in emittable declarations and signatures.
        let items = self.types.to_vec();
        let mut i: usize = 0;
        while i < items.len()
            decreases items@.len() - i,
        {
            if !items[i].is_generic() {
                items[i].collect_decl_usages(&mut pending);
            }
            i = i + 1;
        }
        proof {
            assert(self.wf());
        }
        let globals = self.globals.to_vec();
        let mut i2: usize = 0;
        while i2 < globals.len()
            decreases globals@.len() - i2,
        {
            globals[i2].collect_decl_usages(&mut pending);
            i2 = i2 + 1;
        }
        let mut i3: usize = 0;
        while i3 < self.functions.len()
            decreases self.functions@.len() - i3,
        {
            self.functions[i3].collect_fn_usages(&mut pending);
            i3 = i3 + 1;
        }
        // Worklist: each usage once, nested usages queued as they appear.
        let mut fuel: usize = 65536;
        while pending.len() > 0
            invariant
                mono.wf(),
                self.wf(),
                self.config == old(self).config,
                self.constants == old(self).constants,
                self.functions@ == old(self).functions@,
            decreases fuel,
        {
            if fuel == 0 {
                return Err(crate::CoreError::MonomorphDepthExceeded);
            }
            fuel = fuel - 1;
            let path = match pending.pop() {
                Some(p) => p,
                None => {
                    break ;
                }
            };
            if mono.contains(&path) {
                // Already instantiated: both usage sites reuse it.
                continue ;
            }
            let group = match self.types.get_items(&path.name) {
                Some(g) => g,
                None => {
                    continue ;
                }
            };
            let mangled = crate::monomorph::mangle_path(&path.name, &path.generics);
            let mut monos: Vec<ItemContainer> = Vec::new();
            let mut any = false;
            let mut g: usize = 0;
            while g < group.len()
                invariant
                    mono.wf(),
                    self.wf(),
                    self.config == old(self).config,
                    self.constants == old(self).constants,
                    self.functions@ == old(self).functions@,
                decreases group@.len() - g,
            {
                if group[g].is_generic() {
                    if group[g].generic_param_count() != path.generics.len() {
                        return Err(crate::CoreError::GenericArityMismatch);
                    }
                    let inst = group[g].instantiate_monomorph(mangled.clone(), &path.generics);
                    inst.collect_decl_usages(&mut pending);
                    monos.push(inst);
                    any = true;
                }
                g = g + 1;
            }
            if any {
                mono.insert(path, mangled, monos);
            }
        }
        // Install the instantiations, drop the raw templates, and rewrite
        // what remains.
        let generated = mono.drain();
        let mut k: usize = 0;
        while k < generated.len()
            invariant
                mono.wf(),
                self.wf(),
                self.config == old(self).config,
                self.constants == old(self).constants,
                self.functions@ == old(self).functions@,
            decreases generated@.len() - k,
        {
            self.types.try_insert(generated[k].clone());
            k = k + 1;
        }
        self.types.filter_generics();
        let mut new_types = match mangled_map(&self.types, &mono) {
            Ok(m) => m,
            Err(e) => {
                return Err(e);
            }
        };
        // Rewriting keeps no template around either.
        new_types.filter_generics();
        self.types = new_types;
        let new_globals = match mangled_map(&self.globals, &mono) {
            Ok(m) => m,
            Err(e) => {
                return Err(e);
            }
        };
        self.globals = new_globals;
        let mut fs: Vec<Function> = Vec::new();
        std::mem::swap(&mut fs, &mut self.functions);
        let mut out: Vec<Function> = Vec::new();
        let mut i4: usize = 0;
        while i4 < fs.len()
            invariant
                i4 <= fs@.len(),
                mono.wf(),
                self.wf(),
                no_generics(self.types@),
                self.config == old(self).config,
                self.constants == old(self).constants,
                fs@ == old(self).functions@,
                out@.len() == i4 as int,
                forall|k: int|
                    0 <= k < i4 ==> (#[trigger] out@[k]@).name == old(self).functions@[k]@.name,
            decreases fs@.len() - i4,
        {
            let mut f = fs[i4].clone();
            match f.mangle_paths(&mono) {
                Ok(()) => {}
                Err(e) => {
                    return Err(e);
                }
            }
            out.push(f);
            i4 = i4 + 1;
        }
        self.functions = out;
        Ok(())
    }

    /// Runs the whole pipeline once: exclusion, canonical function order,
    /// annotation transfer, renaming, optional-value normalization,
    /// instantiation when the dialect lacks generics, and dependency
    /// resolution. On success the bundle's declaration list is
    /// topologically valid: every by-value dependency precedes its
    /// dependent. A by-value cycle or a broken instantiation is a fatal
    /// error and yields no bundle.
    #[verifier::rlimit(100)]
    pub fn generate(self) -> (r: Result<Bindings, crate::CoreError>)
        requires
            self.wf(),
        ensures
            r is Err ==> r->Err_0 != crate::CoreError::NonPrimitiveConstant,
            self.config.language == Language::Cxx && !crate::dependencies::has_value_cycle(
                preprocessed_types(self),
            ) ==> r is Ok,
            r is Ok ==> {
                &&& topo_sorted(items_of(r->Ok_0.items@))
                &&& convex_names(items_of(r->Ok_0.items@))
                &&& r->Ok_0.config == self.config
                &&& r->Ok_0.functions@.len() == funcs_without(
                    fns_of(self.functions@),
                    names_of(self.config.export.exclude@),
                ).len()
                &&& self.config.language == Language::C ==> forall|i: int|
                    0 <= i < r->Ok_0.items@.len() ==> !(#[trigger] items_of(
                        r->Ok_0.items@,
                    )[i]).is_generic_v()
                &&& items_of(r->Ok_0.constants@) == crate::item::flattened(
                    preprocessed_registry(self.constants@, self.config),
                )
                &&& self.config.language == Language::Cxx ==> items_of(r->Ok_0.globals@)
                    == crate::item::flattened(preprocessed_registry(self.globals@, self.config))
                &&& self.config.language == Language::Cxx ==> forall|k: int|
                    0 <= k < self.config.export.included@.len() && map_has_key(
                        preprocessed_types(self),
                        (#[trigger] self.config.export.included@[k])@,
                    ) ==> crate::dependencies::order_names(items_of(r->Ok_0.items@)).contains(
                        self.config.export.included@[k]@,
                    )
                &&& self.config.language == Language::Cxx ==> processed_fns_of(
                    self,
                    r->Ok_0.functions@,
                )
            },
    {
        let ghost lib0 = self;
        let mut lib = self;
        let ghost kept_count = funcs_without(
            fns_of(lib0.functions@),
            names_of(lib0.config.export.exclude@),
        ).len();
        lib.remove_excluded();
        proof {
            assert(lib.functions@.len() == kept_count);
        }
        let ghost pre_sort = lib.functions@;
        let ghost kept_fns = fns_of(pre_sort);
        lib.sort_functions();
        let ghost sorted_fns = lib.functions@;
        proof {
            broadcast use vstd::seq_lib::group_seq_properties;

            // Sorting permutes: every sorted function was among the kept.
            sorted_fns.to_multiset_ensures();
            pre_sort.to_multiset_ensures();
            assert forall|k: int| 0 <= k < sorted_fns.len() implies kept_fns.contains(
                #[trigger] sorted_fns[k]@,
            ) by {
                assert(sorted_fns.contains(sorted_fns[k]));
                assert(sorted_fns.to_multiset().count(sorted_fns[k]) > 0);
                assert(pre_sort.to_multiset().count(sorted_fns[k]) > 0);
                assert(pre_sort.contains(sorted_fns[k]));
                let j = choose|j: int| 0 <= j < pre_sort.len() && pre_sort[j] == sorted_fns[k];
                assert(kept_fns[j] == sorted_fns[k]@);
            }
        }
        lib.transfer_annotations();
        lib.rename_items();
        lib.simplify_option_to_ptr();
        if lib.config.language == Language::C {
            match lib.instantiate_monomorphs() {
                Ok(()) => {}
                Err(e) => {
                    return Err(e);
                }
            }
        }
        proof {
            assert(lib.functions@.len() == kept_count);
            assert(lib.config == lib0.config);
            assert(lib.config.language == Language::C ==> no_generics(lib.types@));
            assert(lib.config.language == Language::Cxx ==> lib.types@ == preprocessed_types(lib0));
            assert(lib.constants@ == preprocessed_registry(lib0.constants@, lib0.config));
            assert(lib.config.language == Language::Cxx ==> lib.globals@ == preprocessed_registry(
                lib0.globals@,
                lib0.config,
            ));
        }
        // Roots: every function signature, every global, and every name
        // the configuration force-lists.
        let ghost is_cxx = lib.config.language == Language::Cxx;
        let ghost rsm = crate::types::pairs_of(lib0.config.export.rename@);
        proof {
            // In the dialect with generics the functions are exactly the
            // renamed, normalized images of the kept input functions.
            assert(kept_fns == funcs_without(
                fns_of(lib0.functions@),
                names_of(lib0.config.export.exclude@),
            ));
            if is_cxx {
                assert forall|k: int| 0 <= k < lib.functions@.len() implies processed_fn_image(
                    lib0,
                    (#[trigger] lib.functions@[k])@,
                ) by {
                    let f = sorted_fns[k]@;
                    assert(kept_fns.contains(f));
                    assert(lib.functions@[k]@ == crate::function::simplified_fn(
                        crate::function::renamed_fn(f, rsm),
                    ));
                }
                assert(processed_fns_of(lib0, lib.functions@));
            }
        }
        let mut roots: Vec<String> = Vec::new();
        let mut i: usize = 0;
        while i < lib.functions.len()
            invariant
                i <= lib.functions@.len(),
                is_cxx == (lib.config.language == Language::Cxx),
                rsm == crate::types::pairs_of(lib0.config.export.rename@),
                is_cxx ==> processed_fns_of(lib0, lib.functions@),
                is_cxx ==> forall|j: int|
                    0 <= j < roots@.len() ==> cxx_root_name(lib0, (#[trigger] roots@[j])@),
            decreases lib.functions@.len() - i,
        {
            let mut dn = lib.functions[i].dependency_names();
            let ghost fv = lib.functions@[i as int]@;
            let mut j: usize = 0;
            while j < dn.len()
                invariant
                    j <= dn@.len(),
                    is_cxx == (lib.config.language == Language::Cxx),
                    names_of(dn@) == crate::function::fn_dep_names(fv),
                    is_cxx ==> processed_fn_image(lib0, fv),
                    rsm == crate::types::pairs_of(lib0.config.export.rename@),
                    is_cxx ==> forall|x: int|
                        0 <= x < roots@.len() ==> cxx_root_name(lib0, (#[trigger] roots@[x])@),
                decreases dn@.len() - j,
            {
                roots.push(dn[j].clone());
                proof {
                    if is_cxx {
                        assert(names_of(dn@)[j as int] == dn@[j as int]@);
                        assert(crate::function::fn_dep_names(fv).contains(dn@[j as int]@));
                        let f = choose|f: FunctionV|
                            #![trigger crate::function::renamed_fn(f, rsm)]
                            funcs_without(
                                fns_of(lib0.functions@),
                                names_of(lib0.config.export.exclude@),
                            ).contains(f) && fv == crate::function::simplified_fn(
                                crate::function::renamed_fn(f, rsm),
                            );
                        assert(crate::function::fn_dep_names(
                            crate::function::simplified_fn(crate::function::renamed_fn(f, rsm)),
                        ).contains(dn@[j as int]@));
                        assert(cxx_root_name(lib0, dn@[j as int]@));
                        assert forall|x: int| 0 <= x < roots@.len() implies cxx_root_name(
                            lib0,
                            (#[trigger] roots@[x])@,
                        ) by {}
                    }
                }
                j = j + 1;
            }
            i = i + 1;
        }
        let globals = lib.globals.to_vec();
        let mut i2: usize = 0;
        while i2 < globals.len()
            invariant
                i2 <= globals@.len(),
                is_cxx == (lib.config.language == Language::Cxx),
                items_of(globals@) == crate::item::flattened(lib.globals@),
                is_cxx ==> lib.globals@ == preprocessed_registry(lib0.globals@, lib0.config),
                is_cxx ==> forall|j: int|
                    0 <= j < roots@.len() ==> cxx_root_name(lib0, (#[trigger] roots@[j])@),
            decreases globals@.len() - i2,
        {
            let mut dn = globals[i2].dependency_names();
            let ghost gv = globals@[i2 as int]@;
            let ghost gidx = i2 as int;
            let mut j: usize = 0;
            while j < dn.len()
                invariant
                    j <= dn@.len(),
                    is_cxx == (lib.config.language == Language::Cxx),
                    names_of(dn@) == gv.real_deps(),
                    0 <= gidx < items_of(globals@).len(),
                    items_of(globals@)[gidx] == gv,
                    items_of(globals@) == crate::item::flattened(lib.globals@),
                    is_cxx ==> lib.globals@ == preprocessed_registry(
                        lib0.globals@,
                        lib0.config,
                    ),
                    is_cxx ==> forall|x: int|
                        0 <= x < roots@.len() ==> cxx_root_name(lib0, (#[trigger] roots@[x])@),
                decreases dn@.len() - j,
            {
                roots.push(dn[j].clone());
                proof {
                    if is_cxx {
                        assert(names_of(dn@)[j as int] == dn@[j as int]@);
                        assert(gv.real_deps().contains(dn@[j as int]@));
                        assert(crate::item::flattened(
                            preprocessed_registry(lib0.globals@, lib0.config),
                        )[gidx].real_deps().contains(dn@[j as int]@));
                        assert(cxx_root_name(lib0, dn@[j as int]@));
                        assert forall|x: int| 0 <= x < roots@.len() implies cxx_root_name(
                            lib0,
                            (#[trigger] roots@[x])@,
                        ) by {}
                    }
                }
                j = j + 1;
            }
            i2 = i2 + 1;
        }
        let ghost roots_base = roots@.len();
        let mut i3: usize = 0;
        while i3 < lib.config.export.included.len()
            invariant
                i3 <= lib.config.export.included@.len(),
                is_cxx == (lib.config.language == Language::Cxx),
                lib.config.export.included@ == lib0.config.export.included@,
                roots@.len() == roots_base + i3,
                forall|k: int|
                    0 <= k < i3 ==> (#[trigger] roots@[roots_base + k])@
                        == lib.config.export.included@[k]@,
                is_cxx ==> forall|j: int|
                    0 <= j < roots@.len() ==> cxx_root_name(lib0, (#[trigger] roots@[j])@),
            decreases lib.config.export.included@.len() - i3,
        {
            roots.push(lib.config.export.included[i3].clone());
            proof {
                if is_cxx {
                    let k = i3 as int;
                    assert(names_of(lib0.config.export.included@)[k]
                        == lib0.config.export.included@[k]@);
                    assert(names_of(lib0.config.export.included@).contains(
                        lib0.config.export.included@[k]@,
                    ));
                    assert(cxx_root_name(lib0, lib0.config.export.included@[k]@));
                    assert forall|x: int| 0 <= x < roots@.len() implies cxx_root_name(
                        lib0,
                        (#[trigger] roots@[x])@,
                    ) by {}
                }
            }
            i3 = i3 + 1;
        }
        let deps = match resolve_names(&lib.types, &roots) {
            Ok(d) => d,
            Err(e) => {
                return Err(e);
            }
        };
        proof {
            if lib.config.language == Language::C {
                // Every ordered declaration is stored in the registry, and
                // no template survived instantiation.
                assert forall|i: int| 0 <= i < deps.order@.len() implies !(#[trigger] items_of(
                    deps.order@,
                )[i]).is_generic_v() by {
                    let (k, x) = choose|k: int, x: int|
                        0 <= k < lib.types@.len() && 0 <= x < lib.types@[k].1.group().len()
                            && lib.types@[k].1.group()[x] == items_of(deps.order@)[i];
                    assert(!lib.types@[k].1.group()[x].is_generic_v());
                }
            }
            // A force-listed name the registry resolves was a root, so its
            // group is in the order.
            assert forall|k: int|
                0 <= k < lib.config.export.included@.len() && map_has_key(
                    lib.types@,
                    (#[trigger] lib.config.export.included@[k])@,
                ) implies crate::dependencies::order_names(items_of(deps.order@)).contains(
                lib.config.export.included@[k]@,
            ) by {
                assert(roots@[roots_base + k]@ == lib.config.export.included@[k]@);
            }
            // Everything ordered is reachable from a root, and every root
            // is one the input prescribes.
            if is_cxx {
                assert forall|i: int| 0 <= i < deps.order@.len() implies exists|root: Seq<char>|
                    cxx_root_name(lib0, root) && crate::dependencies::reach_from(
                        preprocessed_types(lib0),
                        root,
                        (#[trigger] items_of(deps.order@)[i]).name_v(),
                    ) by {
                    let n = items_of(deps.order@)[i].name_v();
                    assert(crate::dependencies::order_names(items_of(deps.order@))[i] == n);
                    assert(crate::dependencies::order_names(items_of(deps.order@)).contains(n));
                    assert(names_of(deps.names@).contains(n));
                    let root = choose|root: Seq<char>|
                        names_of(roots@).contains(root) && crate::dependencies::reach_from(
                            lib.types@,
                            root,
                            n,
                        );
                    let j = choose|j: int|
                        0 <= j < names_of(roots@).len() && #[trigger] names_of(roots@)[j]
                            == root;
                    assert(roots@[j]@ == root);
                    assert(cxx_root_name(lib0, root));
                }
            }
        }
        let constants = lib.constants.to_vec();
        let globals_out = lib.globals.to_vec();
        let bundle = Bindings {
            config: lib.config,
            constants,
            globals: globals_out,
            items: deps.order,
            functions: lib.functions,
        };
        Ok(bundle)
    }
}

} // verus!
