//! Control flow and data layout details observed through whole programs.
use qbe_sym::error::Error;
use qbe_sym::interp::{Interp, Step};
use qbe_sym::state::State;
use qbe_sym::types::{
    BaseType, Block, Const, DataDef, DataItem, DataObj, Definition, ExtType, FuncDef, Instr,
    JumpInstr, Statement, SubLongType, SubWordType, Value,
};
use qbe_sym::value::ValueFactory;
use z3::{ast::BV, SatResult, Solver};

fn lv(n: &str) -> Value {
    Value::LocalVar(n.to_string())
}

fn num(n: i64) -> Value {
    Value::Const(Const::Number(n))
}

fn blk(label: &str, inst: Vec<Statement>, jump: Option<JumpInstr>) -> Block {
    Block { label: label.to_string(), inst, jump }
}

fn run(it: &mut Interp) -> Result<Step, Error> {
    loop {
        match it.step()? {
            Step::Running => {},
            s => return Ok(s),
        }
    }
}

fn assert_is(bv: &qbe_sym::value::SymBV, expected: u64, width: u32) {
    let solver = Solver::new();
    solver.assert(bv.ast().eq(BV::from_u64(expected, width)).not());
    assert_eq!(SatResult::Unsat, solver.check());
}

#[test]
fn fallthrough_resumes_iteration() {
    // A block without a terminator yields to the enclosing function's
    // block iteration, which stands at the block after the one it last
    // entered — not after the block that fell through.
    let defs = vec![Definition::Func(FuncDef {
        name: "f".to_string(),
        params: vec![],
        body: vec![
            blk("start", vec![], Some(JumpInstr::Jump("end".to_string()))),
            blk(
                "mid",
                vec![Statement::Assign(
                    "m".to_string(),
                    BaseType::Word,
                    Instr::Add(num(1), num(0)),
                )],
                Some(JumpInstr::Return(None)),
            ),
            blk("end", vec![], None),
        ],
    })];
    let mut it = Interp::new(defs).unwrap();
    it.exec_symbolic(&"f".to_string()).unwrap();
    match run(&mut it).unwrap() {
        Step::Done(_) => {},
        _ => panic!("expected the run to finish"),
    }
    // The fall-through out of @end continued at @mid.
    let m = it.state.get_local("m").unwrap();
    assert_is(&m, 1, 32);
}

#[test]
fn concrete_loop_terminates() {
    // A counting loop with a concrete bound: each jnz has exactly one
    // feasible arm, so the machine never pauses, and the counter ends at
    // the bound.
    let defs = vec![Definition::Func(FuncDef {
        name: "count".to_string(),
        params: vec![],
        body: vec![
            blk(
                "start",
                vec![Statement::Assign(
                    "i".to_string(),
                    BaseType::Word,
                    Instr::Add(num(0), num(0)),
                )],
                Some(JumpInstr::Jump("loop".to_string())),
            ),
            blk(
                "loop",
                vec![
                    Statement::Assign(
                        "i".to_string(),
                        BaseType::Word,
                        Instr::Add(lv("i"), num(1)),
                    ),
                    Statement::Assign(
                        "c".to_string(),
                        BaseType::Word,
                        Instr::Compare(
                            BaseType::Word,
                            qbe_sym::types::CmpOp::Slt,
                            lv("i"),
                            num(3),
                        ),
                    ),
                ],
                Some(JumpInstr::Jnz(
                    lv("c"),
                    "loop".to_string(),
                    "done".to_string(),
                )),
            ),
            blk("done", vec![], Some(JumpInstr::Return(Some(lv("i"))))),
        ],
    })];
    let mut it = Interp::new(defs).unwrap();
    it.exec_symbolic(&"count".to_string()).unwrap();
    match run(&mut it).unwrap() {
        Step::Done(_) => {},
        _ => panic!("expected the loop to run without pausing"),
    }
    let i = it.state.get_local("i").unwrap();
    assert_is(&i, 3, 32);
}

#[test]
fn ext_sign_extends() {
    // extsb on the constant 0x80: truncated to a byte, then sign-extended
    // to the word destination.
    let defs = vec![Definition::Func(FuncDef {
        name: "f".to_string(),
        params: vec![],
        body: vec![blk(
            "start",
            vec![
                Statement::Assign(
                    "s".to_string(),
                    BaseType::Word,
                    Instr::Ext(SubLongType::SubWord(SubWordType::SignedByte), num(0x80)),
                ),
                Statement::Assign(
                    "z".to_string(),
                    BaseType::Word,
                    Instr::Ext(SubLongType::SubWord(SubWordType::UnsignedByte), num(0x80)),
                ),
            ],
            Some(JumpInstr::Return(None)),
        )],
    })];
    let mut it = Interp::new(defs).unwrap();
    it.exec_symbolic(&"f".to_string()).unwrap();
    run(&mut it).unwrap();
    let s = it.state.get_local("s").unwrap();
    let z = it.state.get_local("z").unwrap();
    assert_is(&s, 0xffff_ff80, 32);
    assert_is(&z, 0x80, 32);
}

#[test]
fn number_stored_big_endian() {
    // A halfword data item places its most significant byte first.
    let defs = vec![Definition::Data(DataDef {
        name: "d".to_string(),
        objs: vec![DataObj::DataItem(
            ExtType::Halfword,
            vec![DataItem::Number(0x0102)],
        )],
    })];
    let st = State::new(defs).unwrap();
    let v = ValueFactory::new();
    assert_is(&st.mem.load_byte(v.make_long(0)), 0x01, 8);
    assert_is(&st.mem.load_byte(v.make_long(1)), 0x02, 8);
}

#[test]
fn zero_fill_writes_zeros() {
    let defs = vec![Definition::Data(DataDef {
        name: "z".to_string(),
        objs: vec![DataObj::ZeroFill(4)],
    })];
    let st = State::new(defs).unwrap();
    let v = ValueFactory::new();
    for i in 0..4u64 {
        assert_is(&st.mem.load_byte(v.make_long(i)), 0, 8);
    }
    assert_eq!(st.stack_pointer(), 4);
}

#[test]
fn symbol_with_offset_stores_address() {
    // A symbol item stores the referenced global's address plus its
    // offset, as a 64-bit big-endian value.
    let defs = vec![
        Definition::Data(DataDef {
            name: "a".to_string(),
            objs: vec![DataObj::ZeroFill(2)],
        }),
        Definition::Data(DataDef {
            name: "p".to_string(),
            objs: vec![DataObj::DataItem(
                ExtType::Base(BaseType::Long),
                vec![DataItem::Symbol("a".to_string(), Some(8))],
            )],
        }),
    ];
    let st = State::new(defs).unwrap();
    let v = ValueFactory::new();
    // $a sits at 0, so $p (at 2) holds 0 + 8.
    let stored = st.mem.load_bitvector(v.make_long(2), 8);
    assert_is(&stored, 8, 64);
    assert_eq!(st.stack_pointer(), 10);
}
