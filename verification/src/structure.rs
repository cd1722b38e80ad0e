//! Structs, unions and enums: the compound declaration kinds.

use crate::generics::GenericParams;
use crate::metadata::{Metadata, MetadataV};
use crate::types::{Type, TypeV};
use vstd::prelude::*;

verus! {

/// Model of a member field.
#[verifier::ext_equal]
pub struct FieldV {
    pub name: Seq<char>,
    pub ty: TypeV,
    pub doc: Seq<char>,
}

/// One member of a struct or union: its name, its type and its
/// documentation text.
#[derive(Debug)]
pub struct Field {
    pub name: String,
    pub ty: Type,
    pub doc: String,
}

impl View for Field {
    type V = FieldV;

    open spec fn view(&self) -> FieldV {
        FieldV { name: self.name@, ty: self.ty@, doc: self.doc@ }
    }
}

impl Clone for Field {
    fn clone(&self) -> (r: Self)
        ensures
            r@ == self@,
    {
        let r = Field { name: self.name.clone(), ty: self.ty.clone(), doc: self.doc.clone() };
        proof {
            assert(r@ =~= self@);
        }
        r
    }
}

/// The models of a sequence of fields, in order.
pub open spec fn fields_of(v: Seq<Field>) -> Seq<FieldV> {
    v.map_values(|f: Field| f@)
}

/// Clones every field of a vector; the models are kept exactly.
pub fn clone_fields(fs: &Vec<Field>) -> (res: Vec<Field>)
    ensures
        fields_of(res@) == fields_of(fs@),
{
    let mut out: Vec<Field> = Vec::new();
    let mut i: usize = 0;
    while i < fs.len()
        invariant
            i <= fs@.len(),
            out@.len() == i as int,
            forall|k: int| 0 <= k < i ==> out@[k]@ == #[trigger] fs@[k]@,
        decreases fs@.len() - i,
    {
        out.push(fs[i].clone());
        i = i + 1;
    }
    proof {
        assert(fields_of(out@) =~= fields_of(fs@));
    }
    out
}

/// Model of a struct declaration.
#[verifier::ext_equal]
pub struct StructV {
    pub name: Seq<char>,
    pub generic_params: Seq<Seq<char>>,
    pub fields: Seq<FieldV>,
    pub tuple_struct: bool,
    pub meta: MetadataV,
}

/// A struct declaration.
#[derive(Debug)]
pub struct Struct {
    pub name: String,
    pub generic_params: GenericParams,
    pub fields: Vec<Field>,
    pub tuple_struct: bool,
    pub meta: Metadata,
}

impl View for Struct {
    type V = StructV;

    open spec fn view(&self) -> StructV {
        StructV {
            name: self.name@,
            generic_params: self.generic_params@,
            fields: fields_of(self.fields@),
            tuple_struct: self.tuple_struct,
            meta: self.meta@,
        }
    }
}

impl Clone for Struct {
    fn clone(&self) -> (r: Self)
        ensures
            r@ == self@,
    {
        let r = Struct {
            name: self.name.clone(),
            generic_params: self.generic_params.clone(),
            fields: clone_fields(&self.fields),
            tuple_struct: self.tuple_struct,
            meta: self.meta.clone(),
        };
        proof {
            assert(r@ =~= self@);
        }
        r
    }
}

/// Model of a union declaration.
#[verifier::ext_equal]
pub struct UnionV {
    pub name: Seq<char>,
    pub generic_params: Seq<Seq<char>>,
    pub fields: Seq<FieldV>,
    pub tuple_union: bool,
    pub meta: MetadataV,
}

/// A union declaration.
#[derive(Debug)]
pub struct Union {
    pub name: String,
    pub generic_params: GenericParams,
    pub fields: Vec<Field>,
    pub tuple_union: bool,
    pub meta: Metadata,
}

impl View for Union {
    type V = UnionV;

    open spec fn view(&self) -> UnionV {
        UnionV {
            name: self.name@,
            generic_params: self.generic_params@,
            fields: fields_of(self.fields@),
            tuple_union: self.tuple_union,
            meta: self.meta@,
        }
    }
}

impl Clone for Union {
    fn clone(&self) -> (r: Self)
        ensures
            r@ == self@,
    {
        let r = Union {
            name: self.name.clone(),
            generic_params: self.generic_params.clone(),
            fields: clone_fields(&self.fields),
            tuple_union: self.tuple_union,
            meta: self.meta.clone(),
        };
        proof {
            assert(r@ =~= self@);
        }
        r
    }
}

/// Model of one enum variant.
#[verifier::ext_equal]
pub struct EnumVariantV {
    pub name: Seq<char>,
    pub value: u64,
}

/// One variant of an enum declaration: its name and its discriminant.
#[derive(Debug)]
pub struct EnumVariant {
    pub name: String,
    pub value: u64,
}

impl View for EnumVariant {
    type V = EnumVariantV;

    open spec fn view(&self) -> EnumVariantV {
        EnumVariantV { name: self.name@, value: self.value }
    }
}

impl Clone for EnumVariant {
    fn clone(&self) -> (r: Self)
        ensures
            r@ == self@,
    {
        EnumVariant { name: self.name.clone(), value: self.value }
    }
}

/// The models of a sequence of enum variants, in order.
pub open spec fn variants_of(v: Seq<EnumVariant>) -> Seq<EnumVariantV> {
    v.map_values(|x: EnumVariant| x@)
}

/// Model of an enum declaration.
#[verifier::ext_equal]
pub struct EnumV {
    pub name: Seq<char>,
    pub variants: Seq<EnumVariantV>,
    pub meta: MetadataV,
}

/// A C-like enum declaration. It mentions no types and takes no generic
/// parameters.
#[derive(Debug)]
pub struct Enum {
    pub name: String,
    pub variants: Vec<EnumVariant>,
    pub meta: Metadata,
}

impl View for Enum {
    type V = EnumV;

    open spec fn view(&self) -> EnumV {
        EnumV { name: self.name@, variants: variants_of(self.variants@), meta: self.meta@ }
    }
}

impl Clone for Enum {
    fn clone(&self) -> (r: Self)
        ensures
            r@ == self@,
    {
        let mut vs: Vec<EnumVariant> = Vec::new();
        let mut i: usize = 0;
        while i < self.variants.len()
            invariant
                i <= self.variants@.len(),
                vs@.len() == i as int,
                forall|k: int| 0 <= k < i ==> vs@[k]@ == #[trigger] self.variants@[k]@,
            decreases self.variants@.len() - i,
        {
            vs.push(self.variants[i].clone());
            i = i + 1;
        }
        let r = Enum { name: self.name.clone(), variants: vs, meta: self.meta.clone() };
        proof {
            assert(variants_of(r.variants@) =~= variants_of(self.variants@));
            assert(r@ =~= self@);
        }
        r
    }
}

} // verus!
