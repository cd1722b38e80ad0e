//! Opaque items: declarations whose definition is never emitted, only their
//! name (as a forward declaration).

use crate::generics::GenericParams;
use crate::metadata::{Metadata, MetadataV};
use vstd::prelude::*;

verus! {

/// Model of an opaque declaration.
#[verifier::ext_equal]
pub struct OpaqueItemV {
    pub name: Seq<char>,
    pub generic_params: Seq<Seq<char>>,
    pub meta: MetadataV,
}

/// An opaque type declaration.
#[derive(Debug)]
pub struct OpaqueItem {
    pub name: String,
    pub generic_params: GenericParams,
    pub meta: Metadata,
}

impl View for OpaqueItem {
    type V = OpaqueItemV;

    open spec fn view(&self) -> OpaqueItemV {
        OpaqueItemV { name: self.name@, generic_params: self.generic_params@, meta: self.meta@ }
    }
}

impl Clone for OpaqueItem {
    fn clone(&self) -> (r: Self)
        ensures
            r@ == self@,
    {
        let r = OpaqueItem {
            name: self.name.clone(),
            generic_params: self.generic_params.clone(),
            meta: self.meta.clone(),
        };
        proof {
            assert(r@ =~= self@);
        }
        r
    }
}

impl OpaqueItem {
    /// Builds an opaque declaration from its parts.
    pub fn new(name: String, generic_params: GenericParams, meta: Metadata) -> (r: OpaqueItem)
        ensures
            r@ == (OpaqueItemV { name: name@, generic_params: generic_params@, meta: meta@ }),
    {
        let r = OpaqueItem { name, generic_params, meta };
        proof {
            assert(r@ =~= OpaqueItemV {
                name: r.name@,
                generic_params: r.generic_params@,
                meta: r.meta@,
            });
        }
        r
    }
}

} // verus!
