//! Statics: named global values, emitted as extern declarations.

use crate::metadata::{Metadata, MetadataV};
use crate::types::{Type, TypeV};
use vstd::prelude::*;

verus! {

/// Model of a static declaration.
#[verifier::ext_equal]
pub struct StaticV {
    pub name: Seq<char>,
    pub ty: TypeV,
    pub mutable: bool,
    pub meta: MetadataV,
}

/// A static (global) declaration.
#[derive(Debug)]
pub struct Static {
    pub name: String,
    pub ty: Type,
    pub mutable: bool,
    pub meta: Metadata,
}

impl View for Static {
    type V = StaticV;

    open spec fn view(&self) -> StaticV {
        StaticV { name: self.name@, ty: self.ty@, mutable: self.mutable, meta: self.meta@ }
    }
}

impl Clone for Static {
    fn clone(&self) -> (r: Self)
        ensures
            r@ == self@,
    {
        let r = Static {
            name: self.name.clone(),
            ty: self.ty.clone(),
            mutable: self.mutable,
            meta: self.meta.clone(),
        };
        proof {
            assert(r@ =~= self@);
        }
        r
    }
}

} // verus!
