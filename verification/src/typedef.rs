//! Type aliases, emitted as typedefs.

use crate::generics::GenericParams;
use crate::metadata::{Metadata, MetadataV};
use crate::types::{Type, TypeV};
use vstd::prelude::*;

verus! {

/// Model of a typedef declaration.
#[verifier::ext_equal]
pub struct TypedefV {
    pub name: Seq<char>,
    pub generic_params: Seq<Seq<char>>,
    pub aliased: TypeV,
    pub meta: MetadataV,
}

/// A type alias declaration.
#[derive(Debug)]
pub struct Typedef {
    pub name: String,
    pub generic_params: GenericParams,
    pub aliased: Type,
    pub meta: Metadata,
}

impl View for Typedef {
    type V = TypedefV;

    open spec fn view(&self) -> TypedefV {
        TypedefV {
            name: self.name@,
            generic_params: self.generic_params@,
            aliased: self.aliased@,
            meta: self.meta@,
        }
    }
}

/// Whether a transfer list already names `target`.
pub open spec fn transfers_has(
    ts: Seq<(String, crate::metadata::AnnotationSet)>,
    target: Seq<char>,
) -> bool {
    exists|k: int| 0 <= k < ts.len() && (#[trigger] ts[k]).0@ == target
}

/// The transfer-list view: each claimed target with the annotations it
/// received.
pub open spec fn transfers_of(
    ts: Seq<(String, crate::metadata::AnnotationSet)>,
) -> Seq<(Seq<char>, Seq<(Seq<char>, crate::metadata::AnnotationValueV)>)> {
    ts.map_values(|t: (String, crate::metadata::AnnotationSet)| (t.0@, t.1@))
}

impl Typedef {
    /// Moves this alias's annotations onto the transfer list for the
    /// declaration it directly names, provided the alias has no generic
    /// parameters of its own and no earlier alias claimed the same target:
    /// the first writer wins; a later writer's annotations are dropped with
    /// a warning. An alias with no annotations, a generic alias, and an
    /// alias of anything but a direct reference change nothing.
    pub fn transfer_annotations(
        &mut self,
        out: &mut Vec<(String, crate::metadata::AnnotationSet)>,
    ) -> (conflict: bool)
        ensures
            final(self)@.name == old(self)@.name,
            final(self)@.aliased == old(self)@.aliased,
            final(self)@.generic_params == old(self)@.generic_params,
            final(self)@.meta.cfg == old(self)@.meta.cfg,
            final(self)@.meta.doc == old(self)@.meta.doc,
            old(self)@.meta.annotations.len() == 0 || old(self)@.generic_params.len() != 0 || !(
            old(self)@.aliased is Path) ==> final(self)@ == old(self)@ && final(out)@ == old(
                out,
            )@ && !conflict,
            old(self)@.meta.annotations.len() > 0 && old(self)@.generic_params.len() == 0 && old(
                self,
            )@.aliased is Path ==> {
                let target = old(self)@.aliased->Path_name;
                if transfers_has(old(out)@, target) {
                    // A previous alias already claimed this target.
                    &&& conflict
                    &&& final(self)@ == old(self)@
                    &&& final(out)@ == old(out)@
                } else {
                    &&& !conflict
                    &&& final(self)@.meta.annotations.len() == 0
                    &&& transfers_of(final(out)@) == transfers_of(old(out)@).push(
                        (target, old(self)@.meta.annotations),
                    )
                }
            },
    {
        if self.meta.annotations.is_empty() || !self.generic_params.is_empty() {
            return false;
        }
        let target: Option<&String> = match &self.aliased {
            crate::types::Type::Path(name, _) => Some(name),
            _ => None,
        };
        match target {
            Some(name) => {
                let mut seen: bool = false;
                let mut i: usize = 0;
                while i < out.len()
                    invariant
                        i <= out@.len(),
                        seen == (exists|k: int|
                            0 <= k < i && (#[trigger] out@[k]).0@ == name@),
                    decreases out@.len() - i,
                {
                    let hit = crate::name_eq(&out[i].0, name);
                    proof {
                        if hit {
                            assert(out@[i as int].0@ == name@);
                        }
                    }
                    seen = seen || hit;
                    i = i + 1;
                }
                if seen {
                    // A previous alias already annotated this target.
                    true
                } else {
                    proof {
                        assert(!transfers_has(out@, name@)) by {
                            if transfers_has(out@, name@) {
                                let k = choose|k: int|
                                    0 <= k < out@.len() && (#[trigger] out@[k]).0@ == name@;
                            }
                        }
                    }
                    let mut anns = crate::metadata::AnnotationSet::new();
                    std::mem::swap(&mut anns, &mut self.meta.annotations);
                    let ghost pre_out = out@;
                    out.push((name.clone(), anns));
                    proof {
                        assert(transfers_of(out@) =~= transfers_of(pre_out).push(
                            (name@, old(self)@.meta.annotations),
                        ));
                    }
                    false
                }
            }
            None => false,
        }
    }
}

impl Clone for Typedef {
    fn clone(&self) -> (r: Self)
        ensures
            r@ == self@,
    {
        let r = Typedef {
            name: self.name.clone(),
            generic_params: self.generic_params.clone(),
            aliased: self.aliased.clone(),
            meta: self.meta.clone(),
        };
        proof {
            assert(r@ =~= self@);
        }
        r
    }
}

} // verus!
