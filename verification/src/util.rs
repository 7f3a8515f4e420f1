//! Free-standing helpers on IL types and strings.
use vstd::prelude::*;

use crate::types::{base_bits, ext_bits, BaseType, ExtType};
use crate::value::{bv_extract, SymBV};

verus! {

/// Width in bits of a base type.
pub fn basety_to_size(ty: &BaseType) -> (r: u32)
    ensures
        r == base_bits(*ty),
{
    match ty {
        BaseType::Word => 32,
        BaseType::Long => 64,
    }
}

/// Width in bits of an extended type.
pub fn extty_to_size(ty: &ExtType) -> (r: u32)
    ensures
        r == ext_bits(*ty),
{
    match ty {
        ExtType::Base(b) => basety_to_size(b),
        ExtType::Byte => 8,
        ExtType::Halfword => 16,
    }
}

/// Reduce a value to an extended type's width by keeping its low bits.
pub fn cast_to(ty: &ExtType, bv: SymBV) -> (r: SymBV)
    requires
        ext_bits(*ty) <= bv.width(),
    ensures
        r.width() == ext_bits(*ty),
{
    let byte_size = extty_to_size(ty);
    bv_extract(&bv, byte_size - 1, 0)
}

/// Relies on `str`'s `PartialEq::eq`: whether the two strings hold the same
/// characters.
#[verifier::external_body]
pub(crate) fn str_eq(a: &str, b: &str) -> (r: bool)
    ensures
        r == (a@ == b@),
{
    a == b
}

/// Relies on `str::chars`: the characters of the string, in order.
#[verifier::external_body]
pub(crate) fn str_chars(s: &str) -> (r: Vec<char>)
    ensures
        r@ == s@,
{
    s.chars().collect()
}

/// Lexicographic order on character sequences, by code point.
pub open spec fn lex_le(a: Seq<char>, b: Seq<char>) -> bool
    decreases a.len(),
{
    if a.len() == 0 {
        true
    } else if b.len() == 0 {
        false
    } else if a[0] == b[0] {
        lex_le(a.drop_first(), b.drop_first())
    } else {
        (a[0] as int) < (b[0] as int)
    }
}

/// Relies on `str`'s `PartialOrd::le`, which orders strings by their
/// UTF-8 bytes and therefore by their characters' code points.
#[verifier::external_body]
pub(crate) fn str_le(a: &str, b: &str) -> (r: bool)
    ensures
        r == lex_le(a@, b@),
{
    a <= b
}

} // verus!
