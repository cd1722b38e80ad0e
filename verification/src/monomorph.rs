//! Monomorphization: deterministic name mangling, the table of already
//! generated instantiations, and specialization of generic declarations.

use crate::constant::{dec_str, digit_char, u64_to_string};
use crate::item::{items_of, ItemContainer, ItemContainerV};
use crate::types::{GenericPath, GenericPathV, Type, TypeV};
use vstd::prelude::*;

verus! {

/// A decimal digit character.
pub open spec fn is_digit(c: char) -> bool {
    48 <= c as int && c as int <= 57
}

/// The mangled spelling of one type inside an instantiation name. Each
/// constructor opens with its own letter and every embedded identifier is
/// length-prefixed, so the token sequence decodes uniquely: equal models
/// give equal spellings and distinct models distinct ones (proved below).
/// Every character is a letter, a digit or an underscore, so the result
/// stays a legal identifier tail.
pub open spec fn enc_type(t: TypeV) -> Seq<char>
    decreases t, 0nat,
{
    match t {
        TypeV::Primitive { name } => seq!['P'] + dec_str(name.len() as int) + seq!['_'] + name,
        TypeV::Ptr { pointee } => seq!['R'] + enc_type(*pointee),
        TypeV::ConstPtr { pointee } => seq!['K'] + enc_type(*pointee),
        TypeV::Array { element, len } => seq!['A'] + dec_str(len.len() as int) + seq!['_'] + len
            + enc_type(*element),
        TypeV::Path { name, args } => seq!['N'] + dec_str(name.len() as int) + seq!['_'] + name
            + enc_args(args),
    }
}

/// The argument part of a mangled name: an arity prefix, then each
/// argument's spelling.
pub open spec fn enc_args(args: Seq<TypeV>) -> Seq<char>
    decreases args, 1nat,
{
    seq!['G'] + dec_str(args.len() as int) + seq!['_'] + enc_list(args)
}

/// The concatenated spellings of a list of types.
pub open spec fn enc_list(args: Seq<TypeV>) -> Seq<char>
    decreases args, 0nat,
{
    if args.len() == 0 {
        Seq::empty()
    } else {
        enc_type(args[0]) + enc_list(args.subrange(1, args.len() as int))
    }
}

/// The mangled name of an instantiation: the base name, then the encoded
/// argument list.
pub open spec fn mangle_path_v(name: Seq<char>, args: Seq<TypeV>) -> Seq<char> {
    name + enc_args(args)
}

/// Decimal spellings are non-empty and hold digits only.
pub proof fn lemma_dec_str_digits(n: int)
    requires
        n >= 0,
    ensures
        dec_str(n).len() >= 1,
        forall|i: int| 0 <= i < dec_str(n).len() ==> is_digit(#[trigger] dec_str(n)[i]),
    decreases n,
{
    if n < 10 {
        assert(dec_str(n) == seq![digit_char(n)]);
        assert(digit_char(n) as int == 48 + n);
    } else {
        lemma_dec_str_digits(n / 10);
        assert(dec_str(n) == dec_str(n / 10).push(digit_char(n % 10)));
        assert(digit_char(n % 10) as int == 48 + n % 10);
        assert forall|i: int| 0 <= i < dec_str(n).len() implies is_digit(
            #[trigger] dec_str(n)[i],
        ) by {
            if i < dec_str(n / 10).len() {
                assert(dec_str(n)[i] == dec_str(n / 10)[i]);
            } else {
                assert(dec_str(n)[i] == digit_char(n % 10));
            }
        }
    }
}

/// A decimal spelling determines its number.
pub proof fn lemma_dec_str_injective(a: int, b: int)
    requires
        a >= 0,
        b >= 0,
        dec_str(a) == dec_str(b),
    ensures
        a == b,
    decreases a,
{
    if a < 10 && b < 10 {
        assert(dec_str(a)[0] == digit_char(a));
        assert(dec_str(b)[0] == digit_char(b));
        assert(digit_char(a) as int == 48 + a);
        assert(digit_char(b) as int == 48 + b);
    } else if a < 10 {
        lemma_dec_str_digits(b / 10);
        assert(dec_str(b).len() == dec_str(b / 10).len() + 1);
        assert(dec_str(a).len() == 1);
    } else if b < 10 {
        lemma_dec_str_digits(a / 10);
        assert(dec_str(a).len() == dec_str(a / 10).len() + 1);
        assert(dec_str(b).len() == 1);
    } else {
        assert(dec_str(a) == dec_str(a / 10).push(digit_char(a % 10)));
        assert(dec_str(b) == dec_str(b / 10).push(digit_char(b % 10)));
        assert(digit_char(a % 10) as int == 48 + a % 10);
        assert(digit_char(b % 10) as int == 48 + b % 10);
        assert(dec_str(a).last() == digit_char(a % 10));
        assert(a % 10 == b % 10);
        assert(dec_str(a).drop_last() =~= dec_str(a / 10));
        assert(dec_str(b).drop_last() =~= dec_str(b / 10));
        lemma_dec_str_injective(a / 10, b / 10);
    }
}

/// Two concatenations with equally long heads split into equal parts.
pub proof fn lemma_split_eq(p1: Seq<char>, s1: Seq<char>, p2: Seq<char>, s2: Seq<char>)
    requires
        p1.len() == p2.len(),
        p1 + s1 == p2 + s2,
    ensures
        p1 == p2,
        s1 == s2,
{
    assert((p1 + s1).len() == (p2 + s2).len());
    assert((p1 + s1).len() == p1.len() + s1.len());
    assert((p2 + s2).len() == p2.len() + s2.len());
    assert(s1.len() == s2.len());
    assert(p1 =~= p2) by {
        assert forall|i: int| 0 <= i < p1.len() implies p1[i] == p2[i] by {
            assert((p1 + s1)[i] == p1[i]);
            assert((p2 + s2)[i] == p2[i]);
        }
    }
    assert(s1 =~= s2) by {
        assert(s1.len() == s2.len());
        assert forall|i: int| 0 <= i < s1.len() implies s1[i] == s2[i] by {
            assert((p1 + s1)[p1.len() + i] == s1[i]);
            assert((p2 + s2)[p2.len() + i] == s2[i]);
        }
    }
}

/// A digit run closed by an underscore reads off unambiguously: the digits
/// and the remainder are determined.
pub proof fn lemma_digit_run(d1: Seq<char>, x1: Seq<char>, d2: Seq<char>, x2: Seq<char>)
    requires
        forall|i: int| 0 <= i < d1.len() ==> is_digit(#[trigger] d1[i]),
        forall|i: int| 0 <= i < d2.len() ==> is_digit(#[trigger] d2[i]),
        d1 + seq!['_'] + x1 == d2 + seq!['_'] + x2,
    ensures
        d1 == d2,
        x1 == x2,
{
    let l = d1 + seq!['_'] + x1;
    let r = d2 + seq!['_'] + x2;
    assert('_' as int == 95);
    if d1.len() < d2.len() {
        assert(l[d1.len() as int] == '_');
        assert(r[d1.len() as int] == d2[d1.len() as int]);
        assert(is_digit(d2[d1.len() as int]));
        assert(false);
    } else if d2.len() < d1.len() {
        assert(r[d2.len() as int] == '_');
        assert(l[d2.len() as int] == d1[d2.len() as int]);
        assert(is_digit(d1[d2.len() as int]));
        assert(false);
    } else {
        lemma_split_eq(d1 + seq!['_'], x1, d2 + seq!['_'], x2);
        lemma_split_eq(d1, seq!['_'], d2, seq!['_']);
    }
}

/// The opening letter of a type's spelling names its constructor.
pub open spec fn kind_char(t: TypeV) -> char {
    match t {
        TypeV::Primitive { .. } => 'P',
        TypeV::Ptr { .. } => 'R',
        TypeV::ConstPtr { .. } => 'K',
        TypeV::Array { .. } => 'A',
        TypeV::Path { .. } => 'N',
    }
}

/// Every spelling is non-empty and opens with its constructor's letter.
pub proof fn lemma_enc_type_first(t: TypeV)
    ensures
        enc_type(t).len() >= 1,
        enc_type(t)[0] == kind_char(t),
{
}

/// Unique decoding: when one spelling plus a remainder equals another, the
/// types and the remainders agree.
#[verifier::rlimit(80)]
pub proof fn lemma_enc_type_prefix(t1: TypeV, t2: TypeV, r1: Seq<char>, r2: Seq<char>)
    requires
        enc_type(t1) + r1 == enc_type(t2) + r2,
    ensures
        t1 == t2,
        r1 == r2,
    decreases t1, 0nat,
{
    let l = enc_type(t1) + r1;
    let r = enc_type(t2) + r2;
    lemma_enc_type_first(t1);
    lemma_enc_type_first(t2);
    assert(l[0] == kind_char(t1));
    assert(r[0] == kind_char(t2));
    match (t1, t2) {
        (TypeV::Primitive { name: n1 }, TypeV::Primitive { name: n2 }) => {
            lemma_dec_str_digits(n1.len() as int);
            lemma_dec_str_digits(n2.len() as int);
            let d1 = dec_str(n1.len() as int);
            let d2 = dec_str(n2.len() as int);
            let tail1 = d1 + seq!['_'] + (n1 + r1);
            let tail2 = d2 + seq!['_'] + (n2 + r2);
            assert(l =~= seq!['P'] + tail1);
            assert(r =~= seq!['P'] + tail2);
            lemma_split_eq(seq!['P'], tail1, seq!['P'], tail2);
            lemma_digit_run(d1, n1 + r1, d2, n2 + r2);
            lemma_dec_str_injective(n1.len() as int, n2.len() as int);
            lemma_split_eq(n1, r1, n2, r2);
        }
        (TypeV::Ptr { pointee: p1 }, TypeV::Ptr { pointee: p2 }) => {
            let tail1 = enc_type(*p1) + r1;
            let tail2 = enc_type(*p2) + r2;
            assert(l =~= seq!['R'] + tail1);
            assert(r =~= seq!['R'] + tail2);
            lemma_split_eq(seq!['R'], tail1, seq!['R'], tail2);
            lemma_enc_type_prefix(*p1, *p2, r1, r2);
        }
        (TypeV::ConstPtr { pointee: p1 }, TypeV::ConstPtr { pointee: p2 }) => {
            let tail1 = enc_type(*p1) + r1;
            let tail2 = enc_type(*p2) + r2;
            assert(l =~= seq!['K'] + tail1);
            assert(r =~= seq!['K'] + tail2);
            lemma_split_eq(seq!['K'], tail1, seq!['K'], tail2);
            lemma_enc_type_prefix(*p1, *p2, r1, r2);
        }
        (TypeV::Array { element: e1, len: l1 }, TypeV::Array { element: e2, len: l2 }) => {
            lemma_dec_str_digits(l1.len() as int);
            lemma_dec_str_digits(l2.len() as int);
            let d1 = dec_str(l1.len() as int);
            let d2 = dec_str(l2.len() as int);
            let tail1 = d1 + seq!['_'] + (l1 + (enc_type(*e1) + r1));
            let tail2 = d2 + seq!['_'] + (l2 + (enc_type(*e2) + r2));
            assert(l =~= seq!['A'] + tail1);
            assert(r =~= seq!['A'] + tail2);
            lemma_split_eq(seq!['A'], tail1, seq!['A'], tail2);
            lemma_digit_run(d1, l1 + (enc_type(*e1) + r1), d2, l2 + (enc_type(*e2) + r2));
            lemma_dec_str_injective(l1.len() as int, l2.len() as int);
            lemma_split_eq(l1, enc_type(*e1) + r1, l2, enc_type(*e2) + r2);
            lemma_enc_type_prefix(*e1, *e2, r1, r2);
        }
        (TypeV::Path { name: n1, args: a1 }, TypeV::Path { name: n2, args: a2 }) => {
            lemma_dec_str_digits(n1.len() as int);
            lemma_dec_str_digits(n2.len() as int);
            let d1 = dec_str(n1.len() as int);
            let d2 = dec_str(n2.len() as int);
            let tail1 = d1 + seq!['_'] + (n1 + (enc_args(a1) + r1));
            let tail2 = d2 + seq!['_'] + (n2 + (enc_args(a2) + r2));
            assert(l =~= seq!['N'] + tail1);
            assert(r =~= seq!['N'] + tail2);
            lemma_split_eq(seq!['N'], tail1, seq!['N'], tail2);
            lemma_digit_run(d1, n1 + (enc_args(a1) + r1), d2, n2 + (enc_args(a2) + r2));
            lemma_dec_str_injective(n1.len() as int, n2.len() as int);
            lemma_split_eq(n1, enc_args(a1) + r1, n2, enc_args(a2) + r2);
            lemma_enc_args_prefix(a1, a2, r1, r2);
        }
        _ => {
            assert(false);
        }
    }
}

/// Unique decoding of an encoded argument list plus remainder.
pub proof fn lemma_enc_args_prefix(a1: Seq<TypeV>, a2: Seq<TypeV>, r1: Seq<char>, r2: Seq<char>)
    requires
        enc_args(a1) + r1 == enc_args(a2) + r2,
    ensures
        a1 == a2,
        r1 == r2,
    decreases a1, 2nat,
{
    lemma_dec_str_digits(a1.len() as int);
    lemma_dec_str_digits(a2.len() as int);
    let d1 = dec_str(a1.len() as int);
    let d2 = dec_str(a2.len() as int);
    let tail1 = d1 + seq!['_'] + (enc_list(a1) + r1);
    let tail2 = d2 + seq!['_'] + (enc_list(a2) + r2);
    assert(enc_args(a1) + r1 =~= seq!['G'] + tail1);
    assert(enc_args(a2) + r2 =~= seq!['G'] + tail2);
    lemma_split_eq(seq!['G'], tail1, seq!['G'], tail2);
    lemma_digit_run(d1, enc_list(a1) + r1, d2, enc_list(a2) + r2);
    lemma_dec_str_injective(a1.len() as int, a2.len() as int);
    lemma_enc_list_prefix(a1, a2, r1, r2);
}

/// Unique decoding of equally long type lists plus remainders.
pub proof fn lemma_enc_list_prefix(a1: Seq<TypeV>, a2: Seq<TypeV>, r1: Seq<char>, r2: Seq<char>)
    requires
        a1.len() == a2.len(),
        enc_list(a1) + r1 == enc_list(a2) + r2,
    ensures
        a1 == a2,
        r1 == r2,
    decreases a1, 1nat,
{
    if a1.len() == 0 {
        assert(enc_list(a1) =~= Seq::<char>::empty());
        assert(enc_list(a2) =~= Seq::<char>::empty());
        assert(r1 =~= enc_list(a1) + r1);
        assert(r2 =~= enc_list(a2) + r2);
        assert(a1 =~= a2);
    } else {
        let t1 = a1[0];
        let t2 = a2[0];
        let rest1 = a1.subrange(1, a1.len() as int);
        let rest2 = a2.subrange(1, a2.len() as int);
        assert(enc_list(a1) + r1 =~= enc_type(t1) + (enc_list(rest1) + r1));
        assert(enc_list(a2) + r2 =~= enc_type(t2) + (enc_list(rest2) + r2));
        lemma_enc_type_prefix(t1, t2, enc_list(rest1) + r1, enc_list(rest2) + r2);
        lemma_enc_list_prefix(rest1, rest2, r1, r2);
        assert(a1 =~= a2) by {
            assert forall|i: int| 0 <= i < a1.len() implies a1[i] == a2[i] by {
                if i > 0 {
                    assert(rest1[i - 1] == a1[i]);
                    assert(rest2[i - 1] == a2[i]);
                }
            }
        }
    }
}

/// The mangled name is injective in the argument list: for one base name,
/// distinct concrete argument lists always get distinct names.
pub proof fn lemma_mangle_path_injective(name: Seq<char>, a1: Seq<TypeV>, a2: Seq<TypeV>)
    requires
        mangle_path_v(name, a1) == mangle_path_v(name, a2),
    ensures
        a1 == a2,
{
    lemma_split_eq(name, enc_args(a1), name, enc_args(a2));
    assert(enc_args(a1) + Seq::<char>::empty() =~= enc_args(a1));
    assert(enc_args(a2) + Seq::<char>::empty() =~= enc_args(a2));
    lemma_enc_args_prefix(a1, a2, Seq::empty(), Seq::empty());
}

/// Builds the mangled spelling of one type.
pub fn mangle_type(t: &Type) -> (r: String)
    ensures
        r@ == enc_type(t@),
    decreases t,
{
    match t {
        Type::Primitive(n) => {
            let mut r = String::from_str("P");
            let digits = u64_to_string(n.as_str().unicode_len() as u64);
            r.append(digits.as_str());
            r.append("_");
            r.append(n.as_str());
            proof {
                reveal_strlit("P");
                reveal_strlit("_");
                assert(r@ =~= enc_type(t@));
            }
            r
        }
        Type::Ptr(p) => {
            let mut r = String::from_str("R");
            let inner = mangle_type(&**p);
            r.append(inner.as_str());
            proof {
                reveal_strlit("R");
                assert(r@ =~= enc_type(t@));
            }
            r
        }
        Type::ConstPtr(p) => {
            let mut r = String::from_str("K");
            let inner = mangle_type(&**p);
            r.append(inner.as_str());
            proof {
                reveal_strlit("K");
                assert(r@ =~= enc_type(t@));
            }
            r
        }
        Type::Array(e, len) => {
            let mut r = String::from_str("A");
            let digits = u64_to_string(len.as_str().unicode_len() as u64);
            r.append(digits.as_str());
            r.append("_");
            r.append(len.as_str());
            let inner = mangle_type(&**e);
            r.append(inner.as_str());
            proof {
                reveal_strlit("A");
                reveal_strlit("_");
                assert(r@ =~= enc_type(t@));
            }
            r
        }
        Type::Path(name, args) => {
            proof {
                broadcast use vstd::std_specs::vec::axiom_vec_decreases_to_view;

                assert(decreases_to!(*t => t->Path_1));
                assert(decreases_to!(t->Path_1 => t->Path_1@));
            }
            let mut r = String::from_str("N");
            let digits = u64_to_string(name.as_str().unicode_len() as u64);
            r.append(digits.as_str());
            r.append("_");
            r.append(name.as_str());
            let rest = mangle_args(args);
            r.append(rest.as_str());
            proof {
                reveal_strlit("N");
                reveal_strlit("_");
                assert(t@ == TypeV::Path { name: name@, args: Type::models_of(args@) });
                assert(r@ =~= enc_type(t@));
            }
            r
        }
    }
}

/// Builds the encoded argument list.
fn mangle_args(args: &Vec<Type>) -> (r: String)
    ensures
        r@ == enc_args(Type::models_of(args@)),
    decreases args@,
{
    let ghost ms = Type::models_of(args@);
    proof {
        Type::lemma_models_of(args@);
        assert(ms.skip(0) =~= ms);
    }
    let mut r = String::from_str("G");
    let digits = u64_to_string(args.len() as u64);
    r.append(digits.as_str());
    r.append("_");
    proof {
        reveal_strlit("G");
        reveal_strlit("_");
        assert(r@ =~= seq!['G'] + dec_str(ms.len() as int) + seq!['_']);
    }
    let ghost head = r@;
    let mut i: usize = 0;
    while i < args.len()
        invariant
            i <= args@.len(),
            ms == Type::models_of(args@),
            ms.len() == args@.len(),
            forall|k: int| 0 <= k < args@.len() ==> ms[k] == #[trigger] args@[k]@,
            head == seq!['G'] + dec_str(ms.len() as int) + seq!['_'],
            r@ + enc_list(ms.skip(i as int)) == head + enc_list(ms),
        decreases args@.len() - i,
    {
        proof {
            broadcast use vstd::seq::axiom_seq_index_decreases;
            broadcast use vstd::std_specs::vec::axiom_vec_decreases_to_view;

            assert(decreases_to!(*args => args@));
            assert(decreases_to!(args@ => args@[i as int]));
        }
        let ghost r_before = r@;
        let part = mangle_type(&args[i]);
        r.append(part.as_str());
        proof {
            let sk = ms.skip(i as int);
            assert(sk[0] == ms[i as int]);
            assert(sk.subrange(1, sk.len() as int) =~= ms.skip(i as int + 1));
            assert(enc_list(sk) == enc_type(ms[i as int]) + enc_list(ms.skip(i as int + 1)));
            assert(r@ + enc_list(ms.skip(i as int + 1)) == head + enc_list(ms)) by {
                assert(r@ == r_before + enc_type(ms[i as int]));
                assert((r_before + enc_type(ms[i as int])) + enc_list(ms.skip(i as int + 1)) =~=
                    r_before + (enc_type(ms[i as int]) + enc_list(ms.skip(i as int + 1))));
            }
        }
        i = i + 1;
    }
    proof {
        assert(ms.skip(args@.len() as int) =~= Seq::<TypeV>::empty());
        assert(enc_list(ms.skip(args@.len() as int)) =~= Seq::<char>::empty());
        assert(r@ =~= r@ + Seq::<char>::empty());
        assert(r@ =~= enc_args(ms));
    }
    r
}

/// Builds the mangled name for an instantiation of `name` at `args`.
pub fn mangle_path(name: &String, args: &Vec<Type>) -> (r: String)
    ensures
        r@ == mangle_path_v(name@, Type::models_of(args@)),
{
    let mut r = name.clone();
    let rest = mangle_args(args);
    r.append(rest.as_str());
    r
}

/// The model of the instantiation table: each generated instantiation's
/// identity key, paired with the mangled name it resolves to.
pub open spec fn table_of(v: Seq<(GenericPath, String)>) -> Seq<(GenericPathV, Seq<char>)> {
    v.map_values(|e: (GenericPath, String)| (e.0@, e.1@))
}

/// Whether the table already holds an instantiation for `p`.
pub open spec fn table_has(t: Seq<(GenericPathV, Seq<char>)>, p: GenericPathV) -> bool {
    exists|k: int| 0 <= k < t.len() && (#[trigger] t[k]).0 == p
}

/// The mangled name stored for `p`, if any: the first (and, under the
/// dedup invariant, only) entry with that key.
pub open spec fn table_lookup(t: Seq<(GenericPathV, Seq<char>)>, p: GenericPathV) -> Option<
    Seq<char>,
>
    decreases t,
{
    if t.len() == 0 {
        None
    } else if t[0].0 == p {
        Some(t[0].1)
    } else {
        table_lookup(t.subrange(1, t.len() as int), p)
    }
}

/// Any entry of a duplicate-free table determines the lookup result.
pub proof fn lemma_table_lookup_unique(
    t: Seq<(GenericPathV, Seq<char>)>,
    p: GenericPathV,
    k: int,
)
    requires
        forall|k1: int, k2: int|
            0 <= k1 < k2 < t.len() ==> (#[trigger] t[k1]).0 != (#[trigger] t[k2]).0,
        0 <= k < t.len(),
        t[k].0 == p,
    ensures
        table_lookup(t, p) == Some(t[k].1),
    decreases t.len(),
{
    if k == 0 {
    } else {
        let rest = t.subrange(1, t.len() as int);
        assert(t[0].0 != p);
        assert(rest[k - 1] == t[k]);
        lemma_table_lookup_unique(rest, p, k - 1);
    }
}

/// An absent key looks up to nothing.
pub proof fn lemma_table_lookup_absent(t: Seq<(GenericPathV, Seq<char>)>, p: GenericPathV)
    requires
        !table_has(t, p),
    ensures
        table_lookup(t, p) is None,
    decreases t.len(),
{
    if t.len() > 0 {
        let rest = t.subrange(1, t.len() as int);
        assert(t[0].0 != p);
        assert(!table_has(rest, p)) by {
            if table_has(rest, p) {
                let k = choose|k: int| 0 <= k < rest.len() && (#[trigger] rest[k]).0 == p;
                assert(t[k + 1].0 == p);
            }
        }
        lemma_table_lookup_absent(rest, p);
    }
}

/// A type with every reference to a generic instantiation rewritten to its
/// mangled concrete name; `None` when a usage was never instantiated — an
/// internal-consistency failure.
pub open spec fn rewrite_type(t: TypeV, table: Seq<(GenericPathV, Seq<char>)>) -> Option<TypeV>
    decreases t,
{
    match t {
        TypeV::Primitive { .. } => Some(t),
        TypeV::Ptr { pointee } => match rewrite_type(*pointee, table) {
            Some(x) => Some(TypeV::Ptr { pointee: Box::new(x) }),
            None => None,
        },
        TypeV::ConstPtr { pointee } => match rewrite_type(*pointee, table) {
            Some(x) => Some(TypeV::ConstPtr { pointee: Box::new(x) }),
            None => None,
        },
        TypeV::Array { element, len } => match rewrite_type(*element, table) {
            Some(x) => Some(TypeV::Array { element: Box::new(x), len }),
            None => None,
        },
        TypeV::Path { name, args } => if args.len() == 0 {
            Some(t)
        } else {
            match table_lookup(table, GenericPathV { name, args }) {
                Some(mangled) => Some(TypeV::Path { name: mangled, args: Seq::empty() }),
                None => None,
            }
        },
    }
}

/// The instantiations generated so far in one run: a map from usage key to
/// mangled name, plus the generated concrete declarations. One key is never
/// instantiated twice.
#[derive(Debug)]
pub struct Monomorphs {
    pub replacements: Vec<(GenericPath, String)>,
    pub items: Vec<ItemContainer>,
}

/// In a well-formed table every usage key holds exactly one entry: the
/// same generic declaration instantiated twice at the same concrete
/// argument list yields one declaration, reused by both usage sites.
pub proof fn lemma_monomorph_dedup(t: Seq<(GenericPathV, Seq<char>)>, k1: int, k2: int)
    requires
        forall|a: int, b: int|
            0 <= a < b < t.len() ==> (#[trigger] t[a]).0 != (#[trigger] t[b]).0,
        0 <= k1 < t.len(),
        0 <= k2 < t.len(),
        t[k1].0 == t[k2].0,
    ensures
        k1 == k2,
{
}

impl Monomorphs {
    /// Distinct keys: the dedup invariant.
    pub open spec fn wf(self) -> bool {
        forall|k1: int, k2: int|
            0 <= k1 < k2 < table_of(self.replacements@).len() ==> (#[trigger] table_of(
                self.replacements@,
            )[k1]).0 != (#[trigger] table_of(self.replacements@)[k2]).0
    }

    /// An empty table.
    pub fn new() -> (r: Monomorphs)
        ensures
            r.wf(),
            table_of(r.replacements@).len() == 0,
            r.items@.len() == 0,
    {
        let r = Monomorphs { replacements: Vec::new(), items: Vec::new() };
        proof {
            assert(table_of(r.replacements@) =~= Seq::<(GenericPathV, Seq<char>)>::empty());
        }
        r
    }

    /// Whether `path` was already instantiated.
    pub fn contains(&self, path: &GenericPath) -> (r: bool)
        ensures
            r == table_has(table_of(self.replacements@), path@),
    {
        let ghost t = table_of(self.replacements@);
        let mut i: usize = 0;
        while i < self.replacements.len()
            invariant
                i <= self.replacements@.len(),
                t == table_of(self.replacements@),
                t.len() == self.replacements@.len(),
                forall|k: int| 0 <= k < i ==> (#[trigger] t[k]).0 != path@,
            decreases self.replacements@.len() - i,
        {
            let entry_matches = {
                let e = &self.replacements[i];
                if crate::name_eq(&e.0.name, &path.name) && e.0.generics.len()
                    == path.generics.len() {
                    let mut all: bool = true;
                    let mut j: usize = 0;
                    while j < e.0.generics.len()
                        invariant
                            j <= e.0.generics@.len(),
                            e.0.generics@.len() == path.generics@.len(),
                            all == (forall|x: int|
                                0 <= x < j ==> #[trigger] e.0.generics@[x]@ == path.generics@[x]@),
                        decreases e.0.generics@.len() - j,
                    {
                        let eq = crate::types::type_eq(&e.0.generics[j], &path.generics[j]);
                        proof {
                            if all && eq {
                                assert forall|x: int| 0 <= x < j + 1 implies #[trigger] e.0.generics@[x]@
                                    == path.generics@[x]@ by {}
                            }
                        }
                        all = all && eq;
                        j = j + 1;
                    }
                    all
                } else {
                    false
                }
            };
            proof {
                let e = self.replacements@[i as int];
                Type::lemma_models_of(e.0.generics@);
                Type::lemma_models_of(path.generics@);
                if entry_matches {
                    assert forall|x: int| 0 <= x < e.0.generics@.len() implies Type::models_of(
                        e.0.generics@,
                    )[x] == Type::models_of(path.generics@)[x] by {
                        assert(e.0.generics@[x]@ == path.generics@[x]@);
                    }
                    assert(Type::models_of(e.0.generics@) =~= Type::models_of(path.generics@));
                    assert(t[i as int].0 =~= path@);
                    assert(t[i as int].0 == path@);
                } else {
                    if e.0.name@ == path.name@ && e.0.generics@.len() == path.generics@.len() {
                        let x = choose|x: int|
                            0 <= x < e.0.generics@.len() && #[trigger] e.0.generics@[x]@
                                != path.generics@[x]@;
                        assert(Type::models_of(e.0.generics@)[x] != Type::models_of(
                            path.generics@,
                        )[x]);
                        assert(t[i as int].0 != path@);
                    } else {
                        assert(t[i as int].0.name == e.0.name@);
                        assert(t[i as int].0.args.len() == e.0.generics@.len());
                        assert(t[i as int].0 != path@);
                    }
                }
            }
            if entry_matches {
                return true;
            }
            i = i + 1;
        }
        false
    }

    /// The mangled name `path` resolves to, if it was instantiated.
    pub fn mangle_path(&self, path: &GenericPath) -> (r: Option<String>)
        ensures
            match r {
                Some(n) => exists|k: int|
                    0 <= k < table_of(self.replacements@).len() && #[trigger] table_of(
                        self.replacements@,
                    )[k] == (path@, n@),
                None => !table_has(table_of(self.replacements@), path@),
            },
    {
        let ghost t = table_of(self.replacements@);
        let mut i: usize = 0;
        while i < self.replacements.len()
            invariant
                i <= self.replacements@.len(),
                t == table_of(self.replacements@),
                t.len() == self.replacements@.len(),
                forall|k: int| 0 <= k < i ==> (#[trigger] t[k]).0 != path@,
            decreases self.replacements@.len() - i,
        {
            let e_name_eq = crate::name_eq(&self.replacements[i].0.name, &path.name);
            let mut is_match: bool = false;
            if e_name_eq && self.replacements[i].0.generics.len() == path.generics.len() {
                let mut all: bool = true;
                let mut j: usize = 0;
                while j < path.generics.len()
                    invariant
                        j <= path.generics@.len(),
                        i < self.replacements@.len(),
                        self.replacements@[i as int].0.generics@.len() == path.generics@.len(),
                        all == (forall|x: int|
                            0 <= x < j ==> #[trigger] self.replacements@[i as int].0.generics@[x]@
                                == path.generics@[x]@),
                    decreases path.generics@.len() - j,
                {
                    let eq = crate::types::type_eq(
                        &self.replacements[i].0.generics[j],
                        &path.generics[j],
                    );
                    proof {
                        if all && eq {
                            assert forall|x: int| 0 <= x < j + 1 implies #[trigger] self.replacements@[i as int].0.generics@[x]@
                                == path.generics@[x]@ by {}
                        }
                    }
                    all = all && eq;
                    j = j + 1;
                }
                is_match = all;
            }
            proof {
                let e = self.replacements@[i as int];
                Type::lemma_models_of(e.0.generics@);
                Type::lemma_models_of(path.generics@);
                if is_match {
                    assert forall|x: int| 0 <= x < e.0.generics@.len() implies Type::models_of(
                        e.0.generics@,
                    )[x] == Type::models_of(path.generics@)[x] by {
                        assert(e.0.generics@[x]@ == path.generics@[x]@);
                    }
                    assert(Type::models_of(e.0.generics@) =~= Type::models_of(path.generics@));
                    assert(t[i as int].0 =~= path@);
                    assert(t[i as int].0 == path@);
                } else {
                    if e.0.name@ == path.name@ && e.0.generics@.len() == path.generics@.len() {
                        let x = choose|x: int|
                            0 <= x < e.0.generics@.len() && #[trigger] e.0.generics@[x]@
                                != path.generics@[x]@;
                        assert(Type::models_of(e.0.generics@)[x] != Type::models_of(
                            path.generics@,
                        )[x]);
                        assert(t[i as int].0 != path@);
                    } else {
                        assert(t[i as int].0 != path@);
                    }
                }
            }
            if is_match {
                return Some(self.replacements[i].1.clone());
            }
            i = i + 1;
        }
        None
    }

    /// Records one new instantiation: its key, its mangled name, and the
    /// generated concrete declarations. A key is only ever recorded once,
    /// so one instantiation is reused by every usage site.
    pub fn insert(&mut self, path: GenericPath, mangled: String, monomorphs: Vec<ItemContainer>)
        requires
            old(self).wf(),
            !table_has(table_of(old(self).replacements@), path@),
        ensures
            final(self).wf(),
            table_of(final(self).replacements@) == table_of(old(self).replacements@).push(
                (path@, mangled@),
            ),
            items_of(final(self).items@) == items_of(old(self).items@) + items_of(monomorphs@),
    {
        let ghost old_table = table_of(self.replacements@);
        let ghost old_items = items_of(self.items@);
        let ghost pv = path@;
        let ghost mv = mangled@;
        self.replacements.push((path, mangled));
        let ghost reps = self.replacements@;
        proof {
            assert(table_of(reps) =~= old_table.push((pv, mv)));
        }
        let mut ms = monomorphs;
        let ghost added = items_of(ms@);
        let mut i: usize = 0;
        while i < ms.len()
            invariant
                i <= ms@.len(),
                added == items_of(ms@),
                added.len() == ms@.len(),
                forall|k: int| 0 <= k < ms@.len() ==> added[k] == #[trigger] ms@[k]@,
                self.replacements@ == reps,
                items_of(self.items@) =~= old_items + added.subrange(0, i as int),
            decreases ms@.len() - i,
        {
            let ghost pre = items_of(self.items@);
            self.items.push(ms[i].clone());
            proof {
                assert(items_of(self.items@) =~= pre.push(added[i as int]));
                assert(old_items + added.subrange(0, i as int + 1) =~= (old_items
                    + added.subrange(0, i as int)).push(added[i as int]));
            }
            i = i + 1;
        }
        proof {
            assert(added.subrange(0, added.len() as int) =~= added);
            assert(table_of(self.replacements@) == old_table.push((pv, mv)));
            assert forall|k1: int, k2: int|
                0 <= k1 < k2 < table_of(self.replacements@).len() implies (#[trigger] table_of(
                self.replacements@,
            )[k1]).0 != (#[trigger] table_of(self.replacements@)[k2]).0 by {
                if k2 == table_of(self.replacements@).len() - 1 {
                    assert(table_of(self.replacements@)[k1] == old_table[k1]);
                    assert(old_table[k1].0 != pv);
                }
            }
        }
    }

    /// Rewrites every reference to a generic instantiation inside `t` into
    /// its mangled concrete name. A usage that was never instantiated is an
    /// internal-consistency failure.
    pub fn rewrite_in_type(&self, t: &Type) -> (r: Result<Type, crate::CoreError>)
        requires
            self.wf(),
        ensures
            match r {
                Ok(x) => rewrite_type(t@, table_of(self.replacements@)) == Some(x@),
                Err(e) => rewrite_type(t@, table_of(self.replacements@)) is None && e
                    == crate::CoreError::UnresolvedMonomorph,
            },
        decreases t,
    {
        match t {
            Type::Primitive(n) => Ok(Type::Primitive(n.clone())),
            Type::Ptr(p) => match self.rewrite_in_type(&**p) {
                Ok(x) => Ok(Type::Ptr(Box::new(x))),
                Err(e) => Err(e),
            },
            Type::ConstPtr(p) => match self.rewrite_in_type(&**p) {
                Ok(x) => Ok(Type::ConstPtr(Box::new(x))),
                Err(e) => Err(e),
            },
            Type::Array(e, len) => match self.rewrite_in_type(&**e) {
                Ok(x) => Ok(Type::Array(Box::new(x), len.clone())),
                Err(er) => Err(er),
            },
            Type::Path(name, args) => {
                proof {
                    Type::lemma_models_of(args@);
                }
                if args.len() == 0 {
                    let empty_args: Vec<Type> = Vec::new();
                    let r = Type::Path(name.clone(), empty_args);
                    proof {
                        assert(Type::models_of(args@) =~= Seq::<TypeV>::empty());
                        assert(empty_args@.len() == 0);
                        assert(Type::models_of(empty_args@) =~= Seq::<TypeV>::empty());
                        assert(r@->Path_args =~= Seq::<TypeV>::empty());
                        assert(r@ =~= t@);
                    }
                    Ok(r)
                } else {
                    let generics = crate::types::clone_types(args);
                    proof {
                        Type::lemma_models_of(generics@);
                        assert forall|k: int| 0 <= k < generics@.len() implies Type::models_of(
                            generics@,
                        )[k] == Type::models_of(args@)[k] by {
                            assert(generics@[k]@ == args@[k]@);
                        }
                        assert(Type::models_of(generics@) =~= Type::models_of(args@));
                    }
                    let gp = GenericPath { name: name.clone(), generics };
                    proof {
                        assert(gp@ =~= (GenericPathV {
                            name: name@,
                            args: Type::models_of(args@),
                        }));
                    }
                    match self.mangle_path(&gp) {
                        Some(mangled) => {
                            proof {
                                let k = choose|k: int|
                                    0 <= k < table_of(self.replacements@).len()
                                        && #[trigger] table_of(self.replacements@)[k] == (
                                    gp@,
                                    mangled@,
                                );
                                lemma_table_lookup_unique(
                                    table_of(self.replacements@),
                                    gp@,
                                    k,
                                );
                            }
                            let empty_args: Vec<Type> = Vec::new();
                            let r = Type::Path(mangled, empty_args);
                            proof {
                                assert(empty_args@.len() == 0);
                                assert(Type::models_of(empty_args@) =~= Seq::<TypeV>::empty());
                                assert(r@->Path_args =~= Seq::<TypeV>::empty());
                                assert(rewrite_type(t@, table_of(self.replacements@)) == Some(
                                    r@,
                                )) by {
                                    assert(r@ =~= (TypeV::Path {
                                        name: table_lookup(
                                            table_of(self.replacements@),
                                            gp@,
                                        )->Some_0,
                                        args: Seq::empty(),
                                    }));
                                }
                            }
                            Ok(r)
                        }
                        None => {
                            proof {
                                lemma_table_lookup_absent(table_of(self.replacements@), gp@);
                            }
                            Err(crate::CoreError::UnresolvedMonomorph)
                        }
                    }
                }
            }
        }
    }

    /// Hands out the generated declarations, leaving the table of names in
    /// place for reference rewriting.
    pub fn drain(&mut self) -> (r: Vec<ItemContainer>)
        requires
            old(self).wf(),
        ensures
            final(self).wf(),
            items_of(r@) == items_of(old(self).items@),
            final(self).items@.len() == 0,
            final(self).replacements@ == old(self).replacements@,
    {
        let mut out: Vec<ItemContainer> = Vec::new();
        std::mem::swap(&mut out, &mut self.items);
        out
    }
}

} // verus!
