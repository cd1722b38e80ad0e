//! Generic parameters of a declaration: the ordered list of its free type
//! parameter names.

use vstd::prelude::*;

verus! {

/// The free type-parameter names of a declaration, in declaration order.
/// Empty for a non-generic declaration.
#[derive(Debug)]
pub struct GenericParams(pub Vec<String>);

impl Clone for GenericParams {
    fn clone(&self) -> (r: Self)
        ensures
            r@ == self@,
    {
        GenericParams(crate::clone_strings(&self.0))
    }
}

impl View for GenericParams {
    type V = Seq<Seq<char>>;

    open spec fn view(&self) -> Seq<Seq<char>> {
        crate::types::names_of(self.0@)
    }
}

impl GenericParams {
    /// No generic parameters.
    pub fn new() -> (r: GenericParams)
        ensures
            r@ == Seq::<Seq<char>>::empty(),
    {
        let r = GenericParams(Vec::new());
        proof {
            assert(r@ =~= Seq::<Seq<char>>::empty());
        }
        r
    }

    /// Whether the declaration has no generic parameters.
    pub fn is_empty(&self) -> (r: bool)
        ensures
            r == (self@.len() == 0),
    {
        self.0.len() == 0
    }

    /// The number of generic parameters.
    pub fn len(&self) -> (r: usize)
        ensures
            r == self@.len(),
    {
        self.0.len()
    }
}

/// Whether `n` is one of the names in `ns`.
pub fn contains_name(ns: &Vec<String>, n: &String) -> (r: bool)
    ensures
        r == crate::types::names_of(ns@).contains(n@),
{
    let ghost s = crate::types::names_of(ns@);
    let mut i: usize = 0;
    while i < ns.len()
        invariant
            i <= ns@.len(),
            s == crate::types::names_of(ns@),
            s.len() == ns@.len(),
            forall|k: int| 0 <= k < i ==> s[k] != n@,
        decreases ns@.len() - i,
    {
        if crate::name_eq(&ns[i], n) {
            proof {
                assert(s[i as int] == n@);
            }
            return true;
        }
        i = i + 1;
    }
    proof {
        assert(!s.contains(n@)) by {
            assert(forall|k: int| 0 <= k < s.len() ==> s[k] != n@);
        }
    }
    false
}

} // verus!
