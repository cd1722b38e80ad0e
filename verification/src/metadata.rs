//! Metadata shared by every declaration kind: an optional configuration
//! predicate, an annotation set, and documentation text.

use vstd::prelude::*;

verus! {

/// The value of one annotation: a single atom, a list of names, or a flag.
#[derive(Debug)]
pub enum AnnotationValue {
    Atom(String),
    List(Vec<String>),
    Flag(bool),
}

/// Model of an annotation value.
#[verifier::ext_equal]
pub enum AnnotationValueV {
    Atom(Seq<char>),
    List(Seq<Seq<char>>),
    Flag(bool),
}

impl View for AnnotationValue {
    type V = AnnotationValueV;

    open spec fn view(&self) -> AnnotationValueV {
        match self {
            AnnotationValue::Atom(s) => AnnotationValueV::Atom(s@),
            AnnotationValue::List(v) => AnnotationValueV::List(crate::types::names_of(v@)),
            AnnotationValue::Flag(b) => AnnotationValueV::Flag(*b),
        }
    }
}

impl Clone for AnnotationValue {
    fn clone(&self) -> (r: Self)
        ensures
            r@ == self@,
    {
        match self {
            AnnotationValue::Atom(s) => AnnotationValue::Atom(s.clone()),
            AnnotationValue::List(v) => AnnotationValue::List(crate::clone_strings(v)),
            AnnotationValue::Flag(b) => AnnotationValue::Flag(*b),
        }
    }
}

/// Per-declaration annotations: ordered key/value pairs.
#[derive(Debug)]
pub struct AnnotationSet {
    pub annotations: Vec<(String, AnnotationValue)>,
}

impl Clone for AnnotationSet {
    fn clone(&self) -> (r: Self)
        ensures
            r@ == self@,
    {
        let mut out: Vec<(String, AnnotationValue)> = Vec::new();
        let mut i: usize = 0;
        while i < self.annotations.len()
            invariant
                i <= self.annotations@.len(),
                out@.len() == i as int,
                forall|k: int| 0 <= k < i ==> (#[trigger] out@[k]).0@ == self.annotations@[k].0@
                    && out@[k].1@ == self.annotations@[k].1@,
            decreases self.annotations@.len() - i,
        {
            let (k, v) = &self.annotations[i];
            out.push((k.clone(), v.clone()));
            i = i + 1;
        }
        let r = AnnotationSet { annotations: out };
        proof {
            assert(r@ =~= self@);
        }
        r
    }
}

impl View for AnnotationSet {
    type V = Seq<(Seq<char>, AnnotationValueV)>;

    open spec fn view(&self) -> Seq<(Seq<char>, AnnotationValueV)> {
        self.annotations@.map_values(|p: (String, AnnotationValue)| (p.0@, p.1@))
    }
}

/// First value stored under annotation key `k`, if any.
pub open spec fn annotation_lookup(s: Seq<(Seq<char>, AnnotationValueV)>, k: Seq<char>) -> Option<
    AnnotationValueV,
>
    decreases s,
{
    if s.len() == 0 {
        None
    } else if s[0].0 == k {
        Some(s[0].1)
    } else {
        annotation_lookup(s.subrange(1, s.len() as int), k)
    }
}

impl AnnotationSet {
    /// An empty annotation set.
    pub fn new() -> (r: AnnotationSet)
        ensures
            r@ == Seq::<(Seq<char>, AnnotationValueV)>::empty(),
    {
        let r = AnnotationSet { annotations: Vec::new() };
        proof {
            assert(r@ =~= Seq::<(Seq<char>, AnnotationValueV)>::empty());
        }
        r
    }

    /// Whether no annotation is present.
    pub fn is_empty(&self) -> (r: bool)
        ensures
            r == (self@.len() == 0),
    {
        self.annotations.len() == 0
    }

    /// The value stored under key `k`, if any.
    pub fn lookup(&self, k: &String) -> (r: Option<AnnotationValue>)
        ensures
            match r {
                Some(v) => annotation_lookup(self@, k@) == Some(v@),
                None => annotation_lookup(self@, k@) is None,
            },
    {
        let ghost s = self@;
        proof {
            assert(s.skip(0) =~= s);
        }
        let mut i: usize = 0;
        while i < self.annotations.len()
            invariant
                i <= self.annotations@.len(),
                s == self@,
                s.len() == self.annotations@.len(),
                annotation_lookup(s, k@) == annotation_lookup(s.skip(i as int), k@),
            decreases self.annotations@.len() - i,
        {
            proof {
                assert(s.skip(i as int)[0] == s[i as int]);
            }
            if crate::name_eq(&self.annotations[i].0, k) {
                proof {
                    assert(annotation_lookup(s, k@) == Some(s[i as int].1));
                }
                return Some(self.annotations[i].1.clone());
            }
            proof {
                let sk = s.skip(i as int);
                assert(sk.subrange(1, sk.len() as int) =~= s.skip(i as int + 1));
            }
            i = i + 1;
        }
        proof {
            assert(s.skip(self.annotations@.len() as int) =~= Seq::<
                (Seq<char>, AnnotationValueV),
            >::empty());
        }
        None
    }
}

/// Model of a declaration's metadata.
#[verifier::ext_equal]
pub struct MetadataV {
    pub cfg: Option<Seq<char>>,
    pub annotations: Seq<(Seq<char>, AnnotationValueV)>,
    pub doc: Seq<char>,
}

/// The configuration predicate, annotations and documentation attached to one
/// declaration. A configuration predicate is carried as its source text; the
/// core only ever asks whether one is present and keeps alternatives apart.
#[derive(Debug)]
pub struct Metadata {
    pub cfg: Option<String>,
    pub annotations: AnnotationSet,
    pub documentation: String,
}

impl Clone for Metadata {
    fn clone(&self) -> (r: Self)
        ensures
            r@ == self@,
    {
        Metadata {
            cfg: match &self.cfg {
                Some(c) => Some(c.clone()),
                None => None,
            },
            annotations: self.annotations.clone(),
            documentation: self.documentation.clone(),
        }
    }
}

impl View for Metadata {
    type V = MetadataV;

    open spec fn view(&self) -> MetadataV {
        MetadataV {
            cfg: match self.cfg {
                Some(ref c) => Some(c@),
                None => None,
            },
            annotations: self.annotations@,
            doc: self.documentation@,
        }
    }
}

impl Metadata {
    /// Metadata with no configuration predicate, annotations or text.
    pub fn new() -> (r: Metadata)
        ensures
            r@.cfg is None,
            r@.annotations.len() == 0,
    {
        let r = Metadata {
            cfg: None,
            annotations: AnnotationSet::new(),
            documentation: String::new(),
        };
        r
    }

    /// Whether a configuration predicate is attached.
    pub fn has_cfg(&self) -> (r: bool)
        ensures
            r == (self@.cfg is Some),
    {
        self.cfg.is_some()
    }
}

} // verus!
