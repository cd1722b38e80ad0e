//! Core compilation pipeline for header generation: merges configuration-gated
//! declarations, discovers and topologically orders dependencies, instantiates
//! generic declarations for dialects without generics, and applies rename and
//! annotation passes, producing one deterministic, emittable declaration list.

pub mod config;
pub mod constant;
pub mod dependencies;
pub mod function;
pub mod generics;
pub mod global;
pub mod item;
pub mod library;
pub mod metadata;
pub mod monomorph;
pub mod opaque;
pub mod structure;
pub mod typedef;
pub mod types;

use vstd::prelude::*;

verus! {

/// The failures the pipeline can report. The first is recoverable and
/// raised while building a declaration; the rest are violations of internal
/// structure that abort a whole run.
#[derive(Debug, Clone, Copy, PartialEq, Eq, Structural)]
pub enum CoreError {
    /// A constant's type is neither a primitive nor a pointer to one.
    NonPrimitiveConstant,
    /// A cycle of by-value containment was found among the declarations.
    DependencyCycle,
    /// A generic declaration was instantiated with the wrong number of
    /// type arguments.
    GenericArityMismatch,
    /// A reference to a generic instantiation survived monomorphization.
    UnresolvedMonomorph,
    /// Nested generic instantiation exceeded the defensive depth bound.
    MonomorphDepthExceeded,
}

/// Compares two identifiers by character content.
pub fn name_eq(a: &String, b: &String) -> (r: bool)
    ensures
        r == (a@ == b@),
{
    *a == *b
}

/// The names of `raw` with every name of `excluded` removed, order kept.
pub open spec fn minus_names(raw: Seq<Seq<char>>, excluded: Seq<Seq<char>>) -> Seq<Seq<char>>
    decreases raw,
{
    if raw.len() == 0 {
        Seq::empty()
    } else {
        (if excluded.contains(raw[0]) {
            Seq::empty()
        } else {
            seq![raw[0]]
        }) + minus_names(raw.subrange(1, raw.len() as int), excluded)
    }
}

/// Keeps the names of `raw` that are not in `excluded`, in order.
pub fn filter_names(raw: &Vec<String>, excluded: &Vec<String>) -> (res: Vec<String>)
    ensures
        crate::types::names_of(res@) == minus_names(
            crate::types::names_of(raw@),
            crate::types::names_of(excluded@),
        ),
{
    let ghost rs = crate::types::names_of(raw@);
    let ghost ex = crate::types::names_of(excluded@);
    proof {
        assert(rs.skip(0) =~= rs);
    }
    let mut out: Vec<String> = Vec::new();
    let mut i: usize = 0;
    while i < raw.len()
        invariant
            i <= raw@.len(),
            rs == crate::types::names_of(raw@),
            ex == crate::types::names_of(excluded@),
            rs.len() == raw@.len(),
            crate::types::names_of(out@) + minus_names(rs.skip(i as int), ex) == minus_names(
                rs,
                ex,
            ),
        decreases raw@.len() - i,
    {
        proof {
            let s = rs.skip(i as int);
            assert(s[0] == rs[i as int]);
            assert(s.subrange(1, s.len() as int) =~= rs.skip(i as int + 1));
        }
        let ghost before = crate::types::names_of(out@);
        if !crate::generics::contains_name(excluded, &raw[i]) {
            out.push(raw[i].clone());
            proof {
                assert(crate::types::names_of(out@) =~= before + seq![rs[i as int]]);
                assert((before + seq![rs[i as int]]) + minus_names(rs.skip(i as int + 1), ex)
                    =~= before + (seq![rs[i as int]] + minus_names(rs.skip(i as int + 1), ex)));
            }
        } else {
            proof {
                assert(before + minus_names(rs.skip(i as int + 1), ex) =~= before + (Seq::<
                    Seq<char>,
                >::empty() + minus_names(rs.skip(i as int + 1), ex)));
            }
        }
        i = i + 1;
    }
    proof {
        assert(rs.skip(raw@.len() as int) =~= Seq::<Seq<char>>::empty());
        assert(crate::types::names_of(out@) =~= crate::types::names_of(out@) + Seq::<
            Seq<char>,
        >::empty());
    }
    out
}

/// Clones a vector of identifiers, keeping the exact character content.
pub fn clone_strings(v: &Vec<String>) -> (res: Vec<String>)
    ensures
        res@ =~= v@,
{
    let mut out: Vec<String> = Vec::new();
    let mut i: usize = 0;
    while i < v.len()
        invariant
            i <= v@.len(),
            out@.len() == i as int,
            forall|k: int| 0 <= k < i ==> out@[k] == #[trigger] v@[k],
        decreases v@.len() - i,
    {
        out.push(v[i].clone());
        i = i + 1;
    }
    out
}

} // verus!
