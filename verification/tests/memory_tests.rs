//! The symbolic memory against a real solver: bytes, strings and words
//! written through the library are read back as the values stored.
use qbe_sym::memory::Memory;
use qbe_sym::value::ValueFactory;
use z3::{SatResult, Solver};

#[test]
fn test_byte() {
    let v = ValueFactory::new();
    let mut mem = Memory::new();

    let addr = v.make_long(0x800000);
    let value = v.make_byte(0x23);

    mem.store_byte(addr.dup(), value.dup());
    let loaded = mem.load_byte(addr);

    let solver = Solver::new();
    solver.assert(loaded.ast().eq(value.ast()));
    assert_eq!(SatResult::Sat, solver.check());
}

#[test]
fn test_string() {
    let v = ValueFactory::new();
    let mut mem = Memory::new();

    let addr = v.make_long(0x0);
    mem.store_string(addr, "hello");
    let loaded = mem.load_byte(v.make_long(0x0));

    let solver = Solver::new();
    solver.assert(loaded.ast().eq(z3::ast::BV::from_u64(0x68, 8)));
    assert_eq!(SatResult::Sat, solver.check());
}

#[test]
fn test_word() {
    let v = ValueFactory::new();
    let mut mem = Memory::new();

    let addr = v.make_long(0x1000);
    let word = v.make_word(0xdeadbeef);

    mem.store_word(addr.dup(), word.dup());
    let bytes = vec![
        mem.load_byte(v.make_long(0x1000)),
        mem.load_byte(v.make_long(0x1001)),
        mem.load_byte(v.make_long(0x1002)),
        mem.load_byte(v.make_long(0x1003)),
    ];

    let solver = Solver::new();
    solver.assert(bytes[0].ast().eq(z3::ast::BV::from_u64(0xde, 8)));
    solver.assert(bytes[1].ast().eq(z3::ast::BV::from_u64(0xad, 8)));
    solver.assert(bytes[2].ast().eq(z3::ast::BV::from_u64(0xbe, 8)));
    solver.assert(bytes[3].ast().eq(z3::ast::BV::from_u64(0xef, 8)));
    assert_eq!(SatResult::Sat, solver.check());

    solver.reset();

    let loaded_word = mem.load_word(addr);
    solver.assert(loaded_word.ast().eq(word.ast()));
    assert_eq!(SatResult::Sat, solver.check());
}

#[test]
fn byte_store_is_definite() {
    // The negated equality is unsatisfiable: the loaded byte does not
    // merely admit the stored value, it equals it.
    let v = ValueFactory::new();
    let mut mem = Memory::new();

    let addr = v.make_long(0x42);
    mem.store_byte(addr.dup(), v.make_byte(0x7f));
    let loaded = mem.load_byte(addr);

    let solver = Solver::new();
    solver.assert(loaded.ast().eq(z3::ast::BV::from_u64(0x7f, 8)).not());
    assert_eq!(SatResult::Unsat, solver.check());
}

#[test]
fn string_bytes_and_cursor() {
    // Every character of the string lands at its offset, and the returned
    // cursor is the address immediately after the last byte.
    let v = ValueFactory::new();
    let mut mem = Memory::new();

    let addr = v.make_long(0x2000);
    let after = mem.store_string(addr, "hello");
    assert_eq!(after.get_width(), 64);

    let solver = Solver::new();
    let expected = [0x68u64, 0x65, 0x6c, 0x6c, 0x6f];
    for (i, b) in expected.iter().enumerate() {
        let loaded = mem.load_byte(v.make_long(0x2000 + i as u64));
        solver.assert(loaded.ast().eq(z3::ast::BV::from_u64(*b, 8)).not());
        assert_eq!(SatResult::Unsat, solver.check());
        solver.reset();
    }

    solver.assert(after.ast().eq(z3::ast::BV::from_u64(0x2005, 64)).not());
    assert_eq!(SatResult::Unsat, solver.check());
}

#[test]
fn word_load_equals_store_exactly() {
    let v = ValueFactory::new();
    let mut mem = Memory::new();

    let addr = v.make_long(0x3000);
    let word = v.make_word(0x01020304);
    mem.store_word(addr.dup(), word.dup());

    let loaded = mem.load_word(addr);
    let solver = Solver::new();
    solver.assert(loaded.ast().eq(word.ast()).not());
    assert_eq!(SatResult::Unsat, solver.check());
}
