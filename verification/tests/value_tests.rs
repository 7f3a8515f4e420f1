//! The value factory: widths, coercions, and the sub-word promotion rule.
use qbe_sym::types::{BaseType, ExtType, LoadType, SubLongType, SubWordType};
use qbe_sym::util;
use qbe_sym::value::ValueFactory;
use z3::{ast::BV, SatResult, Solver};

#[test]
fn type_widths() {
    assert_eq!(util::basety_to_size(&BaseType::Word), 32);
    assert_eq!(util::basety_to_size(&BaseType::Long), 64);
    assert_eq!(util::extty_to_size(&ExtType::Byte), 8);
    assert_eq!(util::extty_to_size(&ExtType::Halfword), 16);
    assert_eq!(util::extty_to_size(&ExtType::Base(BaseType::Long)), 64);
    assert_eq!(
        ValueFactory::loadty_to_size(LoadType::SubLong(SubLongType::SubWord(
            SubWordType::SignedHalf
        ))),
        16
    );
    assert_eq!(ValueFactory::loadty_to_size(LoadType::Base(BaseType::Word)), 32);
}

#[test]
fn literal_widths() {
    let v = ValueFactory::new();
    assert_eq!(v.make_byte(1).get_width(), 8);
    assert_eq!(v.make_half(1).get_width(), 16);
    assert_eq!(v.make_word(1).get_width(), 32);
    assert_eq!(v.make_long(1).get_width(), 64);
    assert_eq!(v.from_base(BaseType::Word, "s".to_string()).get_width(), 32);
    assert_eq!(v.from_ext_i64(ExtType::Halfword, -2).get_width(), 16);
    assert_eq!(v.from_ext(ExtType::Byte, "e".to_string()).get_width(), 8);
    assert_eq!(
        v.from_subw(SubWordType::UnsignedHalf, "h".to_string()).get_width(),
        16
    );
    assert_eq!(v.from_base_u64(BaseType::Long, 9).get_width(), 64);
    assert_eq!(v.from_base_i64(BaseType::Word, -9).get_width(), 32);
}

#[test]
fn cast_widths() {
    let v = ValueFactory::new();
    let w = v.make_word(0x1234);
    assert_eq!(v.cast_to(ExtType::Byte, w).get_width(), 8);
    let w2 = v.make_word(0x1234);
    assert_eq!(v.cast_to(ExtType::Base(BaseType::Long), w2).get_width(), 64);
    let w3 = v.make_word(7);
    assert_eq!(v.cast_to(ExtType::Base(BaseType::Word), w3).get_width(), 32);

    let h = v.make_half(3);
    assert_eq!(v.sign_ext_to(BaseType::Long, h).get_width(), 64);
    let h2 = v.make_half(3);
    assert_eq!(v.zero_ext_to(BaseType::Word, h2).get_width(), 32);
}

#[test]
fn cast_keeps_low_bits() {
    // Truncation keeps the low bits: cutting 0x1234 to a byte gives 0x34.
    let v = ValueFactory::new();
    let w = v.make_word(0x1234);
    let b = util::cast_to(&ExtType::Byte, w);
    assert_eq!(b.get_width(), 8);
    let solver = Solver::new();
    solver.assert(b.ast().eq(BV::from_u64(0x34, 8)).not());
    assert_eq!(SatResult::Unsat, solver.check());
}

#[test]
fn subword_promotion_keeps_low_bits() {
    // Promoting a sub-word value to a word gives a 32-bit vector whose low
    // bits equal the value; the high bits are unconstrained.
    let v = ValueFactory::new();
    let byte = v.make_byte(0x5a);
    let word = v.extend_subword(SubWordType::UnsignedByte, byte.dup());
    assert_eq!(word.get_width(), 32);

    let solver = Solver::new();
    solver.assert(word.ast().extract(7, 0).eq(byte.ast()).not());
    assert_eq!(SatResult::Unsat, solver.check());

    // The high bits really are unconstrained: both zero and non-zero high
    // bits are possible.
    let solver2 = Solver::new();
    solver2.assert(word.ast().extract(31, 8).eq(BV::from_u64(0, 24)));
    assert_eq!(SatResult::Sat, solver2.check());
    let solver3 = Solver::new();
    solver3.assert(word.ast().extract(31, 8).eq(BV::from_u64(1, 24)));
    assert_eq!(SatResult::Sat, solver3.check());
}

#[test]
fn signed_and_unsigned_extension_differ() {
    let v = ValueFactory::new();
    let b = v.make_byte(0x80);
    let se = v.sign_ext_to(BaseType::Word, b);
    let b2 = v.make_byte(0x80);
    let ze = v.zero_ext_to(BaseType::Word, b2);

    let solver = Solver::new();
    solver.assert(se.ast().eq(BV::from_u64(0xffff_ff80, 32)).not());
    assert_eq!(SatResult::Unsat, solver.check());
    let solver2 = Solver::new();
    solver2.assert(ze.ast().eq(BV::from_u64(0x80, 32)).not());
    assert_eq!(SatResult::Unsat, solver2.check());
}
