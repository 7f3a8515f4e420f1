//! Symbolic bit-vector values and the factory that constructs and coerces
//! them.
//!
//! A [`SymBV`] couples a Z3 bit-vector term with its width in bits; the
//! width field is the part of the value the verifier reasons about, and
//! every trusted wrapper around a Z3 operation states how it relates the
//! widths of its operands to the width of its result. All width-changing
//! coercions go through [`ValueFactory`], whose bodies are verified against
//! those contracts.
use vstd::prelude::*;
use z3::ast::Ast;

use crate::types::{
    base_bits, ext_bits, load_bits, subl_bits, subw_bits, BaseType, ExtType, LoadType, SubLongType,
    SubWordType, BYTE_SIZE, HALF_SIZE, LONG_SIZE, WORD_SIZE,
};

verus! {

#[verifier::external_type_specification]
#[verifier::external_body]
pub struct ExBV(z3::ast::BV);

#[verifier::external_type_specification]
#[verifier::external_body]
pub struct ExBool(z3::ast::Bool);

/// A symbolic bit-vector: a Z3 term together with its width in bits.
///
/// The width is at least 1 and equals the size of the underlying term's
/// bit-vector sort; the trusted constructors below establish this and all
/// operations preserve it. The ghost field `lit` records, for terms built
/// as literals, the number the term carries: `lit == Some(x)` means the
/// term denotes the bit-vector whose unsigned value is `x` reduced modulo
/// two to the power of `width`.
pub struct SymBV {
    pub(crate) bv: z3::ast::BV,
    pub(crate) width: u32,
    pub(crate) lit: Ghost<Option<u64>>,
}

/// A symbolic Boolean: a Z3 term of Boolean sort.
pub struct SymBool {
    pub(crate) b: z3::ast::Bool,
}

impl SymBV {
    /// The width of this bit-vector in bits.
    pub closed spec fn width(&self) -> u32 {
        self.width
    }

    /// The number this term carries, when it was built as a literal.
    pub closed spec fn lit(&self) -> Option<u64> {
        self.lit@
    }

    /// The width of this bit-vector in bits.
    pub fn get_width(&self) -> (r: u32)
        ensures
            r == self.width(),
    {
        self.width
    }

    /// The underlying Z3 term.
    #[verifier::external_body]
    pub fn ast(&self) -> &z3::ast::BV {
        &self.bv
    }

    /// An equal copy of this value.
    ///
    /// Relies on Z3's `BV::clone`: the copy is a handle to the same term.
    #[verifier::external_body]
    pub fn dup(&self) -> (r: SymBV)
        ensures
            r == *self,
    {
        SymBV { bv: self.bv.clone(), width: self.width, lit: self.lit }
    }
}

impl SymBool {
    /// The underlying Z3 term.
    #[verifier::external_body]
    pub fn ast(&self) -> &z3::ast::Bool {
        &self.b
    }

    /// An equal copy of this value.
    ///
    /// Relies on Z3's `Bool::clone`: the copy is a handle to the same term.
    #[verifier::external_body]
    pub fn dup(&self) -> (r: SymBool)
        ensures
            r == *self,
    {
        SymBool { b: self.b.clone() }
    }
}

/// Whether a character sequence is free of NUL characters. Names handed
/// to the solver become C strings, which cannot carry an interior NUL.
pub open spec fn no_nul(s: Seq<char>) -> bool {
    forall|i: int| 0 <= i < s.len() ==> (#[trigger] s[i]) != '\0'
}

/// NUL-freedom is preserved by concatenation.
pub proof fn lemma_no_nul_concat(a: Seq<char>, b: Seq<char>)
    requires
        no_nul(a),
        no_nul(b),
    ensures
        no_nul(a + b),
{
    assert forall|i: int| 0 <= i < (a + b).len() implies (#[trigger] (a + b)[i]) != '\0' by {
        if i < a.len() {
            assert((a + b)[i] == a[i]);
        } else {
            assert((a + b)[i] == b[i - a.len()]);
        }
    }
}

/// Relies on Z3's `BV::new_const`: a constant of the bit-vector sort of the
/// given size, named by the given symbol. The name must hold no NUL
/// character: it is turned into a C string, and an interior NUL aborts.
#[verifier::external_body]
pub(crate) fn bv_new_const(name: String, sz: u32) -> (r: SymBV)
    requires
        1 <= sz,
        no_nul(name@),
    ensures
        r.width() == sz,
{
    SymBV { bv: z3::ast::BV::new_const(name, sz), width: sz, lit: Ghost(None) }
}

/// Relies on Z3's `BV::fresh_const`: a constant of the given size whose name
/// starts with the given prefix and is distinct from every other constant.
/// The prefix must hold no NUL character: it is turned into a C string,
/// and an interior NUL aborts.
#[verifier::external_body]
pub(crate) fn bv_fresh_const(prefix: &str, sz: u32) -> (r: SymBV)
    requires
        1 <= sz,
        no_nul(prefix@),
    ensures
        r.width() == sz,
{
    SymBV { bv: z3::ast::BV::fresh_const(prefix, sz), width: sz, lit: Ghost(None) }
}

/// Relies on Z3's `BV::from_u64`: the literal of the given size carrying the
/// given unsigned value truncated to that size.
#[verifier::external_body]
pub(crate) fn bv_from_u64(v: u64, sz: u32) -> (r: SymBV)
    requires
        1 <= sz <= 64,
    ensures
        r.width() == sz,
        r.lit() == Some(v),
{
    SymBV { bv: z3::ast::BV::from_u64(v, sz), width: sz, lit: Ghost(Some(v)) }
}

/// Relies on Z3's `BV::from_i64`: the literal of the given size carrying
/// the given signed value in two's complement, truncated to that size.
#[verifier::external_body]
pub(crate) fn bv_from_i64(v: i64, sz: u32) -> (r: SymBV)
    requires
        1 <= sz <= 64,
    ensures
        r.width() == sz,
        r.lit() == Some(v as u64),
{
    SymBV { bv: z3::ast::BV::from_i64(v, sz), width: sz, lit: Ghost(Some(v as u64)) }
}

/// Relies on Z3's `BV::bvadd`: addition of equal-width operands, at their
/// width, reduced modulo two to the power of that width; on literal
/// operands of width at most 64, the result denotes their modular sum.
#[verifier::external_body]
pub(crate) fn bv_add(a: &SymBV, b: &SymBV) -> (r: SymBV)
    requires
        a.width() == b.width(),
    ensures
        r.width() == a.width(),
        (a.width() <= 64 && a.lit() is Some && b.lit() is Some) ==> r.lit() == Some(
            crate::state::wrap64(a.lit().unwrap() + b.lit().unwrap()),
        ),
{
    let bv = a.bv.bvadd(&b.bv);
    let ghost nl = if a.width <= 64 && a.lit@ is Some && b.lit@ is Some {
        Some(crate::state::wrap64(a.lit@.unwrap() + b.lit@.unwrap()))
    } else {
        None
    };
    SymBV { width: bv.get_size(), bv, lit: Ghost(nl) }
}

/// Relies on Z3's `BV::bvsub`: subtraction of equal-width operands, at their
/// width.
#[verifier::external_body]
pub(crate) fn bv_sub(a: &SymBV, b: &SymBV) -> (r: SymBV)
    requires
        a.width() == b.width(),
    ensures
        r.width() == a.width(),
{
    let bv = a.bv.bvsub(&b.bv);
    SymBV { width: bv.get_size(), bv, lit: Ghost(None) }
}

/// Relies on Z3's `BV::bvmul`: multiplication of equal-width operands, at
/// their width.
#[verifier::external_body]
pub(crate) fn bv_mul(a: &SymBV, b: &SymBV) -> (r: SymBV)
    requires
        a.width() == b.width(),
    ensures
        r.width() == a.width(),
{
    let bv = a.bv.bvmul(&b.bv);
    SymBV { width: bv.get_size(), bv, lit: Ghost(None) }
}

/// Relies on Z3's `BV::bvsrem`: signed remainder of equal-width operands,
/// at their width.
#[verifier::external_body]
pub(crate) fn bv_srem(a: &SymBV, b: &SymBV) -> (r: SymBV)
    requires
        a.width() == b.width(),
    ensures
        r.width() == a.width(),
{
    let bv = a.bv.bvsrem(&b.bv);
    SymBV { width: bv.get_size(), bv, lit: Ghost(None) }
}

/// Relies on Z3's `BV::bvurem`: unsigned remainder of equal-width operands,
/// at their width.
#[verifier::external_body]
pub(crate) fn bv_urem(a: &SymBV, b: &SymBV) -> (r: SymBV)
    requires
        a.width() == b.width(),
    ensures
        r.width() == a.width(),
{
    let bv = a.bv.bvurem(&b.bv);
    SymBV { width: bv.get_size(), bv, lit: Ghost(None) }
}

/// Relies on Z3's `BV::concat`: the operands side by side, `a` as the most
/// significant part, with the widths added.
#[verifier::external_body]
pub(crate) fn bv_concat(a: &SymBV, b: &SymBV) -> (r: SymBV)
    requires
        a.width() + b.width() <= u32::MAX,
    ensures
        r.width() == a.width() + b.width(),
{
    let bv = a.bv.concat(&b.bv);
    SymBV { width: bv.get_size(), bv, lit: Ghost(None) }
}

/// Relies on Z3's `BV::extract`: bits `high` down to `low`, a bit-vector of
/// `high - low + 1` bits.
#[verifier::external_body]
pub(crate) fn bv_extract(v: &SymBV, high: u32, low: u32) -> (r: SymBV)
    requires
        low <= high < v.width(),
    ensures
        r.width() == high - low + 1,
{
    let bv = v.bv.extract(high, low);
    SymBV { width: bv.get_size(), bv, lit: Ghost(None) }
}

/// Relies on Z3's `BV::sign_ext`: the value with `extra` copies of its sign
/// bit prepended.
#[verifier::external_body]
pub(crate) fn bv_sign_ext(v: &SymBV, extra: u32) -> (r: SymBV)
    requires
        v.width() + extra <= u32::MAX,
    ensures
        r.width() == v.width() + extra,
{
    let bv = v.bv.sign_ext(extra);
    SymBV { width: bv.get_size(), bv, lit: Ghost(None) }
}

/// Relies on Z3's `BV::zero_ext`: the value with `extra` zero bits
/// prepended.
#[verifier::external_body]
pub(crate) fn bv_zero_ext(v: &SymBV, extra: u32) -> (r: SymBV)
    requires
        v.width() + extra <= u32::MAX,
    ensures
        r.width() == v.width() + extra,
{
    let bv = v.bv.zero_ext(extra);
    SymBV { width: bv.get_size(), bv, lit: Ghost(None) }
}

/// Relies on Z3's `BV::eq`: the Boolean term stating that the two
/// equal-width operands are equal.
#[verifier::external_body]
pub(crate) fn bv_eq(a: &SymBV, b: &SymBV) -> SymBool
    requires
        a.width() == b.width(),
{
    SymBool { b: a.bv.eq(&b.bv) }
}

/// Relies on Z3's `Bool::not`: the negation of the operand.
#[verifier::external_body]
pub(crate) fn bool_not(a: &SymBool) -> SymBool {
    SymBool { b: a.b.not() }
}

/// Relies on Z3's `Bool::ite`: the conditional term selecting between two
/// equal-width branches, at their width.
#[verifier::external_body]
pub(crate) fn bv_ite(c: &SymBool, t: &SymBV, e: &SymBV) -> (r: SymBV)
    requires
        t.width() == e.width(),
    ensures
        r.width() == t.width(),
{
    let bv = c.b.ite(&t.bv, &e.bv);
    SymBV { width: bv.get_size(), bv, lit: Ghost(None) }
}

/// Relies on Z3's `BV::bvsle`: signed "less than or equal" on equal-width
/// operands.
#[verifier::external_body]
pub(crate) fn bv_sle(a: &SymBV, b: &SymBV) -> SymBool
    requires
        a.width() == b.width(),
{
    SymBool { b: a.bv.bvsle(&b.bv) }
}

/// Relies on Z3's `BV::bvslt`: signed "less than" on equal-width operands.
#[verifier::external_body]
pub(crate) fn bv_slt(a: &SymBV, b: &SymBV) -> SymBool
    requires
        a.width() == b.width(),
{
    SymBool { b: a.bv.bvslt(&b.bv) }
}

/// Relies on Z3's `BV::bvsge`: signed "greater than or equal" on
/// equal-width operands.
#[verifier::external_body]
pub(crate) fn bv_sge(a: &SymBV, b: &SymBV) -> SymBool
    requires
        a.width() == b.width(),
{
    SymBool { b: a.bv.bvsge(&b.bv) }
}

/// Relies on Z3's `BV::bvsgt`: signed "greater than" on equal-width
/// operands.
#[verifier::external_body]
pub(crate) fn bv_sgt(a: &SymBV, b: &SymBV) -> SymBool
    requires
        a.width() == b.width(),
{
    SymBool { b: a.bv.bvsgt(&b.bv) }
}

/// Relies on Z3's `BV::bvule`: unsigned "less than or equal" on equal-width
/// operands.
#[verifier::external_body]
pub(crate) fn bv_ule(a: &SymBV, b: &SymBV) -> SymBool
    requires
        a.width() == b.width(),
{
    SymBool { b: a.bv.bvule(&b.bv) }
}

/// Relies on Z3's `BV::bvult`: unsigned "less than" on equal-width
/// operands.
#[verifier::external_body]
pub(crate) fn bv_ult(a: &SymBV, b: &SymBV) -> SymBool
    requires
        a.width() == b.width(),
{
    SymBool { b: a.bv.bvult(&b.bv) }
}

/// Relies on Z3's `BV::bvuge`: unsigned "greater than or equal" on
/// equal-width operands.
#[verifier::external_body]
pub(crate) fn bv_uge(a: &SymBV, b: &SymBV) -> SymBool
    requires
        a.width() == b.width(),
{
    SymBool { b: a.bv.bvuge(&b.bv) }
}

/// Relies on Z3's `BV::bvugt`: unsigned "greater than" on equal-width
/// operands.
#[verifier::external_body]
pub(crate) fn bv_ugt(a: &SymBV, b: &SymBV) -> SymBool
    requires
        a.width() == b.width(),
{
    SymBool { b: a.bv.bvugt(&b.bv) }
}

/// Relies on Z3's `Ast::simplify` and the `Display` rendering of the
/// simplified term; the result depends only on the term.
#[verifier::external_body]
pub(crate) fn bv_simplify_text(v: &SymBV) -> String {
    format!("{}", v.bv.simplify())
}

/// Constructs symbolic constants and literal values and performs all
/// width-changing coercions.
pub struct ValueFactory {}

impl ValueFactory {
    /// A new factory.
    pub fn new() -> ValueFactory {
        ValueFactory {  }
    }

    fn basety_to_size(ty: BaseType) -> (r: u32)
        ensures
            r == base_bits(ty),
    {
        match ty {
            BaseType::Word => WORD_SIZE,
            BaseType::Long => LONG_SIZE,
        }
    }

    fn extty_to_size(ty: ExtType) -> (r: u32)
        ensures
            r == ext_bits(ty),
    {
        match ty {
            ExtType::Base(b) => Self::basety_to_size(b),
            ExtType::Byte => BYTE_SIZE,
            ExtType::Halfword => HALF_SIZE,
        }
    }

    fn subwty_to_size(ty: SubWordType) -> (r: u32)
        ensures
            r == subw_bits(ty),
    {
        match ty {
            SubWordType::SignedByte => BYTE_SIZE,
            SubWordType::UnsignedByte => BYTE_SIZE,
            SubWordType::SignedHalf => HALF_SIZE,
            SubWordType::UnsignedHalf => HALF_SIZE,
        }
    }

    fn sublty_to_size(ty: SubLongType) -> (r: u32)
        ensures
            r == subl_bits(ty),
    {
        match ty {
            SubLongType::SubWord(x) => Self::subwty_to_size(x),
            SubLongType::UnsignedWord => WORD_SIZE,
            SubLongType::SignedWord => WORD_SIZE,
        }
    }

    /// Width in bits of a load type.
    pub fn loadty_to_size(ty: LoadType) -> (r: u32)
        ensures
            r == load_bits(ty),
    {
        match ty {
            LoadType::Base(x) => Self::basety_to_size(x),
            LoadType::SubLong(x) => Self::sublty_to_size(x),
        }
    }

    /// A named symbolic constant of an extended type's width.
    pub fn from_ext(&self, ty: ExtType, name: String) -> (r: SymBV)
        requires
            no_nul(name@),
        ensures
            r.width() == ext_bits(ty),
    {
        bv_new_const(name, Self::extty_to_size(ty))
    }

    /// A literal of an extended type's width carrying a signed value.
    pub fn from_ext_i64(&self, ty: ExtType, v: i64) -> (r: SymBV)
        ensures
            r.width() == ext_bits(ty),
            r.lit() == Some(v as u64),
    {
        bv_from_i64(v, Self::extty_to_size(ty))
    }

    /// A named symbolic constant of a base type's width.
    pub fn from_base(&self, ty: BaseType, name: String) -> (r: SymBV)
        requires
            no_nul(name@),
        ensures
            r.width() == base_bits(ty),
    {
        bv_new_const(name, Self::basety_to_size(ty))
    }

    /// A literal of a base type's width carrying an unsigned value.
    pub fn from_base_u64(&self, ty: BaseType, v: u64) -> (r: SymBV)
        ensures
            r.width() == base_bits(ty),
            r.lit() == Some(v),
    {
        bv_from_u64(v, Self::basety_to_size(ty))
    }

    /// A literal of a base type's width carrying a signed value.
    pub fn from_base_i64(&self, ty: BaseType, v: i64) -> (r: SymBV)
        ensures
            r.width() == base_bits(ty),
            r.lit() == Some(v as u64),
    {
        bv_from_i64(v, Self::basety_to_size(ty))
    }

    /// A named symbolic constant of a sub-word type's width.
    pub fn from_subw(&self, ty: SubWordType, name: String) -> (r: SymBV)
        requires
            no_nul(name@),
        ensures
            r.width() == subw_bits(ty),
    {
        bv_new_const(name, Self::subwty_to_size(ty))
    }

    /// Promote a sub-word value to a 32-bit word whose low bits are the
    /// value and whose high bits are a fresh unconstrained symbol, as the
    /// IL leaves the most significant bits of such a promotion undefined.
    pub fn extend_subword(&self, ty: SubWordType, val: SymBV) -> (r: SymBV)
        requires
            val.width() == subw_bits(ty),
        ensures
            r.width() == WORD_SIZE,
    {
        let size = Self::subwty_to_size(ty);
        let rem = WORD_SIZE - size;
        proof {
            reveal_strlit("undef-msbsw");
        }
        let uncons = bv_fresh_const("undef-msbsw", rem);
        bv_concat(&uncons, &val)
    }

    /// Bring a value to an extended type's width: unchanged at that width,
    /// zero-extended below it, truncated to the low bits above it.
    pub fn cast_to(&self, ty: ExtType, val: SymBV) -> (r: SymBV)
        requires
            1 <= val.width(),
        ensures
            r.width() == ext_bits(ty),
            val.width() == ext_bits(ty) ==> r == val,
    {
        let cur_size = val.get_width();
        let tgt_size = Self::extty_to_size(ty);

        if tgt_size == cur_size {
            val
        } else if tgt_size > cur_size {
            bv_zero_ext(&val, tgt_size - cur_size)
        } else {
            bv_extract(&val, tgt_size - 1, 0)
        }
    }

    /// Bring a value to a sub-long type's width, in the same way as
    /// `cast_to`.
    pub fn trunc_to(&self, ty: SubLongType, val: SymBV) -> (r: SymBV)
        requires
            1 <= val.width(),
        ensures
            r.width() == subl_bits(ty),
            val.width() == subl_bits(ty) ==> r == val,
    {
        let cur_size = val.get_width();
        let tgt_size = Self::sublty_to_size(ty);

        if tgt_size == cur_size {
            val
        } else if tgt_size > cur_size {
            bv_zero_ext(&val, tgt_size - cur_size)
        } else {
            bv_extract(&val, tgt_size - 1, 0)
        }
    }

    /// Sign-extend a value to a base type's width; the identity at that
    /// width already.
    pub fn sign_ext_to(&self, ty: BaseType, val: SymBV) -> (r: SymBV)
        requires
            val.width() <= base_bits(ty),
        ensures
            r.width() == base_bits(ty),
            val.width() == base_bits(ty) ==> r == val,
    {
        let cur_size = val.get_width();
        let tgt_size = Self::basety_to_size(ty);
        if cur_size == tgt_size {
            val
        } else {
            bv_sign_ext(&val, tgt_size - cur_size)
        }
    }

    /// Zero-extend a value to a base type's width; the identity at that
    /// width already.
    pub fn zero_ext_to(&self, ty: BaseType, val: SymBV) -> (r: SymBV)
        requires
            val.width() <= base_bits(ty),
        ensures
            r.width() == base_bits(ty),
            val.width() == base_bits(ty) ==> r == val,
    {
        let cur_size = val.get_width();
        let tgt_size = Self::basety_to_size(ty);
        if cur_size == tgt_size {
            val
        } else {
            bv_zero_ext(&val, tgt_size - cur_size)
        }
    }

    /// An 8-bit literal.
    pub fn make_byte(&self, v: u8) -> (r: SymBV)
        ensures
            r.width() == BYTE_SIZE,
            r.lit() == Some(v as u64),
    {
        bv_from_u64(v as u64, BYTE_SIZE)
    }

    /// A 16-bit literal.
    pub fn make_half(&self, v: u16) -> (r: SymBV)
        ensures
            r.width() == HALF_SIZE,
            r.lit() == Some(v as u64),
    {
        bv_from_u64(v as u64, HALF_SIZE)
    }

    /// A 32-bit literal.
    pub fn make_word(&self, v: u32) -> (r: SymBV)
        ensures
            r.width() == WORD_SIZE,
            r.lit() == Some(v as u64),
    {
        bv_from_u64(v as u64, WORD_SIZE)
    }

    /// A 64-bit literal.
    pub fn make_long(&self, v: u64) -> (r: SymBV)
        ensures
            r.width() == LONG_SIZE,
            r.lit() == Some(v),
    {
        bv_from_u64(v, LONG_SIZE)
    }
}

} // verus!
