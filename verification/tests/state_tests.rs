//! The global layout and the frame machinery.
use qbe_sym::error::Error;
use qbe_sym::state::State;
use qbe_sym::types::{
    BaseType, Block, DataDef, DataItem, DataObj, Definition, ExtType, FuncDef, FuncParam,
    JumpInstr, Type,
};
use z3::{ast::BV, SatResult, Solver};

fn empty_func(name: &str) -> Definition {
    Definition::Func(FuncDef {
        name: name.to_string(),
        params: vec![],
        body: vec![Block {
            label: "start".to_string(),
            inst: vec![],
            jump: Some(JumpInstr::Halt),
        }],
    })
}

fn assert_lit(bv: &qbe_sym::value::SymBV, expected: u64) {
    let solver = Solver::new();
    solver.assert(bv.ast().eq(BV::from_u64(expected, 64)).not());
    assert_eq!(SatResult::Unsat, solver.check());
}

#[test]
fn functions_at_consecutive_cells() {
    // Functions are laid out first, one 4-byte cell each, starting at 0.
    let defs = vec![empty_func("a"), empty_func("b"), empty_func("c")];
    let st = State::new(defs).unwrap();
    assert_lit(&st.get_ptr("a").unwrap(), 0);
    assert_lit(&st.get_ptr("b").unwrap(), 4);
    assert_lit(&st.get_ptr("c").unwrap(), 8);
    assert!(st.get_ptr("d").is_none());
    assert_eq!(st.stack_pointer(), 12);
}

#[test]
fn data_after_functions() {
    // Data definitions follow the function cells; a ZeroFill advances the
    // cursor by its byte count, items by their sizes.
    let defs = vec![
        empty_func("f"),
        Definition::Data(DataDef {
            name: "a".to_string(),
            objs: vec![DataObj::ZeroFill(3)],
        }),
        Definition::Data(DataDef {
            name: "b".to_string(),
            objs: vec![DataObj::DataItem(
                ExtType::Halfword,
                vec![DataItem::Number(7), DataItem::Number(-1)],
            )],
        }),
        Definition::Data(DataDef {
            name: "c".to_string(),
            objs: vec![DataObj::DataItem(
                ExtType::Byte,
                vec![DataItem::Text("hey".to_string())],
            )],
        }),
    ];
    let st = State::new(defs).unwrap();
    assert_lit(&st.get_ptr("a").unwrap(), 4);
    assert_lit(&st.get_ptr("b").unwrap(), 7);
    assert_lit(&st.get_ptr("c").unwrap(), 11);
    assert_eq!(st.stack_pointer(), 14);
}

#[test]
fn symbol_items_resolve_and_self_reference() {
    // A data definition may refer to itself: its name is recorded before
    // its body is lowered, and the stored pointer is its own base address.
    let defs = vec![Definition::Data(DataDef {
        name: "cyc".to_string(),
        objs: vec![DataObj::DataItem(
            ExtType::Base(BaseType::Long),
            vec![DataItem::Symbol("cyc".to_string(), None)],
        )],
    })];
    let st = State::new(defs).unwrap();
    assert_lit(&st.get_ptr("cyc").unwrap(), 0);
    assert_eq!(st.stack_pointer(), 8);
}

#[test]
fn unknown_symbol_is_reported() {
    let defs = vec![Definition::Data(DataDef {
        name: "d".to_string(),
        objs: vec![DataObj::DataItem(
            ExtType::Base(BaseType::Long),
            vec![DataItem::Symbol("nope".to_string(), None)],
        )],
    })];
    match State::new(defs) {
        Err(Error::UnknownVariable(s)) => assert_eq!(s, "nope"),
        _ => panic!("expected an unknown-variable error"),
    }
}

#[test]
fn string_needs_byte_type() {
    let defs = vec![Definition::Data(DataDef {
        name: "d".to_string(),
        objs: vec![DataObj::DataItem(
            ExtType::Halfword,
            vec![DataItem::Text("oops".to_string())],
        )],
    })];
    match State::new(defs) {
        Err(Error::UnsupportedStringType) => {},
        _ => panic!("expected an unsupported-string-type error"),
    }
}

#[test]
fn push_pop_restores_stack_pointer() {
    // Stack space allocated during a frame's lifetime is released when the
    // frame is popped: the saved stack pointer comes back.
    let defs = vec![empty_func("f")];
    let mut st = State::new(defs).unwrap();
    let before = st.stack_pointer();
    st.push_func(0);
    let addr = st.stack_alloc(4, 12);
    assert_eq!(addr.get_width(), 64);
    assert_ne!(st.stack_pointer(), before);
    st.pop_func();
    assert_eq!(st.stack_pointer(), before);
}

#[test]
fn stack_alloc_always_advances() {
    // The alignment formula (p - p % a) + a advances even when the stack
    // pointer is already aligned.
    let defs = vec![empty_func("f")];
    let mut st = State::new(defs).unwrap();
    assert_eq!(st.stack_pointer(), 4);
    st.push_func(0);
    let first = st.stack_alloc(4, 4);
    assert_lit_is_long(&first);
    assert_eq!(st.stack_pointer(), 12);
    let second = st.stack_alloc(8, 8);
    assert_lit_is_long(&second);
    assert_eq!(st.stack_pointer(), 24);
}

fn assert_lit_is_long(bv: &qbe_sym::value::SymBV) {
    assert_eq!(bv.get_width(), 64);
}

#[test]
fn locals_shadow_and_resolve() {
    let defs = vec![empty_func("f")];
    let mut st = State::new(defs).unwrap();
    st.push_func(0);
    let v = qbe_sym::value::ValueFactory::new();
    st.add_local("t", v.make_word(1));
    st.add_local("t", v.make_long(2));
    let got = st.get_local("t").unwrap();
    assert_eq!(got.get_width(), 64);
    assert!(st.get_local("u").is_none());
}

#[test]
fn get_block_finds_labels() {
    let defs = vec![Definition::Func(FuncDef {
        name: "f".to_string(),
        params: vec![FuncParam { ty: Type::Base(BaseType::Word), name: "x".to_string() }],
        body: vec![
            Block { label: "start".to_string(), inst: vec![], jump: None },
            Block { label: "loop".to_string(), inst: vec![], jump: Some(JumpInstr::Halt) },
        ],
    })];
    let mut st = State::new(defs).unwrap();
    st.push_func(0);
    assert_eq!(st.get_block("loop").unwrap().label, "loop");
    assert!(st.get_block("missing").is_none());
    assert_eq!(st.get_func("f").unwrap().name, "f");
    assert!(st.get_func("g").is_none());
}
