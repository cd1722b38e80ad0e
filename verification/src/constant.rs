//! Constants: named literal values of primitive type.

use crate::metadata::{Metadata, MetadataV};
use crate::types::{Type, TypeV};
use std::fmt::Write;
use vstd::prelude::*;

verus! {

/// A literal value, already rendered as target-dialect text.
#[derive(Debug)]
pub struct LiteralExpr(pub String);

impl View for LiteralExpr {
    type V = Seq<char>;

    open spec fn view(&self) -> Seq<char> {
        self.0@
    }
}

impl Clone for LiteralExpr {
    fn clone(&self) -> (r: Self)
        ensures
            r@ == self@,
    {
        LiteralExpr(self.0.clone())
    }
}

/// A parsed literal value, before rendering. A float literal is carried as
/// its source text: the core never computes with it.
#[derive(Debug, Clone)]
pub enum Literal {
    Text(String),
    Byte(u8),
    Character(char),
    UnsignedInt(u64),
    SignedInt(i64),
    FloatText(String),
    Truth(bool),
}

/// The decimal digit character for one value below ten.
pub open spec fn digit_char(d: int) -> char {
    ((48 + d) as char)
}

/// The decimal spelling of a natural number.
pub open spec fn dec_str(n: int) -> Seq<char>
    decreases n,
{
    if n < 10 {
        seq![digit_char(n)]
    } else {
        dec_str(n / 10).push(digit_char(n % 10))
    }
}

/// The decimal spelling of an integer, a minus sign for a negative one.
pub open spec fn int_str(v: int) -> Seq<char> {
    if v >= 0 {
        dec_str(v)
    } else {
        seq!['-'] + dec_str(-v)
    }
}

/// The target-dialect text of a literal: a string becomes a quoted UTF-8
/// literal, numbers their decimal spelling, a boolean its keyword, a float
/// its source text, a character itself.
pub open spec fn rendered_literal(l: Literal) -> Seq<char> {
    match l {
        Literal::Text(s) => "u8\""@ + s@ + "\""@,
        Literal::Byte(b) => dec_str(b as int),
        Literal::Character(c) => seq![c],
        Literal::UnsignedInt(n) => dec_str(n as int),
        Literal::SignedInt(n) => int_str(n as int),
        Literal::FloatText(s) => s@,
        Literal::Truth(b) => if b {
            "true"@
        } else {
            "false"@
        },
    }
}

/// The spelling of one decimal digit.
fn digit_str(d: u64) -> (r: &'static str)
    requires
        d < 10,
    ensures
        r@ =~= seq![digit_char(d as int)],
{
    proof {
        reveal_strlit("0");
        reveal_strlit("1");
        reveal_strlit("2");
        reveal_strlit("3");
        reveal_strlit("4");
        reveal_strlit("5");
        reveal_strlit("6");
        reveal_strlit("7");
        reveal_strlit("8");
        reveal_strlit("9");
    }
    match d {
        0 => "0",
        1 => "1",
        2 => "2",
        3 => "3",
        4 => "4",
        5 => "5",
        6 => "6",
        7 => "7",
        8 => "8",
        _ => "9",
    }
}

/// Builds the decimal spelling of a number.
pub fn u64_to_string(n: u64) -> (r: String)
    ensures
        r@ == dec_str(n as int),
    decreases n,
{
    if n < 10 {
        let r = String::from_str(digit_str(n));
        proof {
            assert(r@ =~= dec_str(n as int));
        }
        r
    } else {
        let mut r = u64_to_string(n / 10);
        r.append(digit_str(n % 10));
        proof {
            assert(r@ =~= dec_str((n / 10) as int).push(digit_char((n % 10) as int)));
        }
        r
    }
}

/// Builds the decimal spelling of a signed number.
pub fn i64_to_string(v: i64) -> (r: String)
    ensures
        r@ == int_str(v as int),
{
    if v >= 0 {
        u64_to_string(v as u64)
    } else {
        let magnitude: u64 = ((-(v + 1)) as u64) + 1;
        proof {
            assert(magnitude as int == -(v as int));
        }
        let mut r = String::from_str("-");
        let digits = u64_to_string(magnitude);
        r.append(digits.as_str());
        proof {
            reveal_strlit("-");
            assert(r@ =~= seq!['-'] + dec_str(-(v as int)));
        }
        r
    }
}

/// Relies on char's `Display` implementation: formatting one character
/// yields the one-character string.
#[verifier::external_body]
fn char_to_string(c: char) -> (r: String)
    ensures
        r@ =~= seq![c],
{
    let mut s = String::new();
    write!(s, "{}", c).unwrap_or(());
    s
}

impl LiteralExpr {
    /// Renders a parsed literal into its target-dialect text.
    pub fn from_literal(l: &Literal) -> (r: LiteralExpr)
        ensures
            r@ == rendered_literal(*l),
    {
        match l {
            Literal::Text(s) => {
                let mut r = String::from_str("u8\"");
                r.append(s.as_str());
                r.append("\"");
                proof {
                    assert(r@ =~= "u8\""@ + s@ + "\""@);
                }
                LiteralExpr(r)
            }
            Literal::Byte(b) => LiteralExpr(u64_to_string(*b as u64)),
            Literal::Character(c) => {
                let r = char_to_string(*c);
                proof {
                    assert(r@ =~= seq![*c]);
                }
                LiteralExpr(r)
            }
            Literal::UnsignedInt(n) => LiteralExpr(u64_to_string(*n)),
            Literal::SignedInt(n) => LiteralExpr(i64_to_string(*n)),
            Literal::FloatText(s) => LiteralExpr(s.clone()),
            Literal::Truth(b) => {
                if *b {
                    LiteralExpr(String::from_str("true"))
                } else {
                    LiteralExpr(String::from_str("false"))
                }
            }
        }
    }
}

/// Whether a constant's type can be emitted: a primitive, or a pointer to a
/// primitive.
pub open spec fn is_primitive_or_ptr_primitive(t: TypeV) -> bool {
    match t {
        TypeV::Primitive { .. } => true,
        TypeV::Ptr { pointee } => *pointee is Primitive,
        TypeV::ConstPtr { pointee } => *pointee is Primitive,
        _ => false,
    }
}

/// Decides `is_primitive_or_ptr_primitive` on a concrete type.
pub fn ty_is_primitive_or_ptr(t: &Type) -> (r: bool)
    ensures
        r == is_primitive_or_ptr_primitive(t@),
{
    match t {
        Type::Primitive(_) => true,
        Type::Ptr(p) => {
            let inner = match &**p {
                Type::Primitive(_) => true,
                _ => false,
            };
            proof {
                assert(inner == ((**p)@ is Primitive));
                assert(t@->Ptr_pointee == Box::new((**p)@));
            }
            inner
        }
        Type::ConstPtr(p) => {
            let inner = match &**p {
                Type::Primitive(_) => true,
                _ => false,
            };
            proof {
                assert(inner == ((**p)@ is Primitive));
                assert(t@->ConstPtr_pointee == Box::new((**p)@));
            }
            inner
        }
        _ => false,
    }
}

/// Model of a constant declaration.
#[verifier::ext_equal]
pub struct ConstantV {
    pub name: Seq<char>,
    pub ty: TypeV,
    pub value: Seq<char>,
    pub meta: MetadataV,
}

/// A constant declaration.
#[derive(Debug)]
pub struct Constant {
    pub name: String,
    pub ty: Type,
    pub value: LiteralExpr,
    pub meta: Metadata,
}

impl View for Constant {
    type V = ConstantV;

    open spec fn view(&self) -> ConstantV {
        ConstantV { name: self.name@, ty: self.ty@, value: self.value@, meta: self.meta@ }
    }
}

impl Clone for Constant {
    fn clone(&self) -> (r: Self)
        ensures
            r@ == self@,
    {
        let r = Constant {
            name: self.name.clone(),
            ty: self.ty.clone(),
            value: self.value.clone(),
            meta: self.meta.clone(),
        };
        proof {
            assert(r@ =~= self@);
        }
        r
    }
}

impl Constant {
    /// Builds a constant declaration, rejecting a type that the target
    /// dialect cannot hold as a constant: accepted exactly for a primitive
    /// or a pointer to a primitive.
    pub fn new(name: String, ty: Type, value: LiteralExpr, meta: Metadata) -> (r: Result<
        Constant,
        crate::CoreError,
    >)
        ensures
            match r {
                Ok(c) => is_primitive_or_ptr_primitive(ty@) && c@ == (ConstantV {
                    name: name@,
                    ty: ty@,
                    value: value@,
                    meta: meta@,
                }),
                Err(e) => !is_primitive_or_ptr_primitive(ty@) && e == crate::CoreError::NonPrimitiveConstant,
            },
    {
        let ok = ty_is_primitive_or_ptr(&ty);
        if ok {
            let ghost expected = ConstantV { name: name@, ty: ty@, value: value@, meta: meta@ };
            let c = Constant { name, ty, value, meta };
            proof {
                assert(c@ =~= expected);
            }
            Ok(c)
        } else {
            Err(crate::CoreError::NonPrimitiveConstant)
        }
    }
}

} // verus!
