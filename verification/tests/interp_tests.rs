//! The interpreter's statements, calls and error signals.
use qbe_sym::error::Error;
use qbe_sym::interp::{BinOp, Interp, Step};
use qbe_sym::types::{
    BaseType, Block, CmpOp, Const, Definition, ExtType, FuncDef, FuncParam, Instr, JumpInstr,
    Statement, SubWordType, Type, Value, VolatileInstr,
};
use z3::{ast::BV, SatResult, Solver};

fn lv(n: &str) -> Value {
    Value::LocalVar(n.to_string())
}

fn num(n: i64) -> Value {
    Value::Const(Const::Number(n))
}

fn blk(label: &str, inst: Vec<Statement>, jump: Option<JumpInstr>) -> Block {
    Block { label: label.to_string(), inst, jump }
}

fn run(it: &mut Interp) -> Result<Step, Error> {
    loop {
        match it.step()? {
            Step::Running => {},
            s => return Ok(s),
        }
    }
}

#[test]
fn unknown_function_is_reported() {
    let mut it = Interp::new(vec![]).unwrap();
    match it.exec_symbolic(&"ghost".to_string()) {
        Err(Error::UnknownFunction(s)) => assert_eq!(s, "ghost"),
        _ => panic!("expected an unknown-function error"),
    }
}

#[test]
fn unknown_variable_is_reported() {
    let defs = vec![Definition::Func(FuncDef {
        name: "f".to_string(),
        params: vec![],
        body: vec![blk(
            "start",
            vec![Statement::Assign(
                "r".to_string(),
                BaseType::Word,
                Instr::Add(lv("missing"), num(1)),
            )],
            Some(JumpInstr::Return(None)),
        )],
    })];
    let mut it = Interp::new(defs).unwrap();
    it.exec_symbolic(&"f".to_string()).unwrap();
    match run(&mut it) {
        Err(Error::UnknownVariable(s)) => assert_eq!(s, "missing"),
        _ => panic!("expected an unknown-variable error"),
    }
}

#[test]
fn unknown_label_is_reported() {
    let defs = vec![Definition::Func(FuncDef {
        name: "f".to_string(),
        params: vec![],
        body: vec![blk("start", vec![], Some(JumpInstr::Jump("nowhere".to_string())))],
    })];
    let mut it = Interp::new(defs).unwrap();
    it.exec_symbolic(&"f".to_string()).unwrap();
    match run(&mut it) {
        Err(Error::UnknownLabel(s)) => assert_eq!(s, "nowhere"),
        _ => panic!("expected an unknown-label error"),
    }
}

#[test]
fn missing_jump_is_reported() {
    // The last block has no terminator: the function is malformed.
    let defs = vec![Definition::Func(FuncDef {
        name: "f".to_string(),
        params: vec![],
        body: vec![blk("start", vec![], None)],
    })];
    let mut it = Interp::new(defs).unwrap();
    it.exec_symbolic(&"f".to_string()).unwrap();
    match run(&mut it) {
        Err(Error::MissingJump) => {},
        _ => panic!("expected a missing-jump error"),
    }
}

#[test]
fn call_arity_is_checked() {
    // Calling a one-parameter function with no arguments is invalid.
    let defs = vec![
        Definition::Func(FuncDef {
            name: "callee".to_string(),
            params: vec![FuncParam { ty: Type::Base(BaseType::Word), name: "x".to_string() }],
            body: vec![blk("start", vec![], Some(JumpInstr::Return(None)))],
        }),
        Definition::Func(FuncDef {
            name: "main".to_string(),
            params: vec![],
            body: vec![blk(
                "start",
                vec![Statement::Call(None, None, "callee".to_string(), vec![])],
                Some(JumpInstr::Return(None)),
            )],
        }),
    ];
    let mut it = Interp::new(defs).unwrap();
    it.exec_symbolic(&"main".to_string()).unwrap();
    match run(&mut it) {
        Err(Error::InvalidCall) => {},
        _ => panic!("expected an invalid-call error"),
    }
}

#[test]
fn subword_argument_width_is_checked() {
    // A call parameter declared with a sub-word type must name a temporary
    // of that width; a 32-bit word does not fit an 8-bit parameter.
    let defs = vec![
        Definition::Func(FuncDef {
            name: "callee".to_string(),
            params: vec![FuncParam {
                ty: Type::SubWord(SubWordType::SignedByte),
                name: "x".to_string(),
            }],
            body: vec![blk("start", vec![], Some(JumpInstr::Return(None)))],
        }),
        Definition::Func(FuncDef {
            name: "main".to_string(),
            params: vec![FuncParam { ty: Type::Base(BaseType::Word), name: "w".to_string() }],
            body: vec![blk(
                "start",
                vec![Statement::Call(
                    None,
                    None,
                    "callee".to_string(),
                    vec![FuncParam {
                        ty: Type::SubWord(SubWordType::SignedByte),
                        name: "w".to_string(),
                    }],
                )],
                Some(JumpInstr::Return(None)),
            )],
        }),
    ];
    let mut it = Interp::new(defs).unwrap();
    it.exec_symbolic(&"main".to_string()).unwrap();
    match run(&mut it) {
        Err(Error::InvalidSubtyping) => {},
        _ => panic!("expected an invalid-subtyping error"),
    }
}

#[test]
fn call_binds_return_value() {
    // function w $inc(w %x) { ret add %x, 1 } called from main: the bound
    // result is provably one more than the argument.
    let defs = vec![
        Definition::Func(FuncDef {
            name: "inc".to_string(),
            params: vec![FuncParam { ty: Type::Base(BaseType::Word), name: "x".to_string() }],
            body: vec![blk(
                "start",
                vec![Statement::Assign(
                    "r".to_string(),
                    BaseType::Word,
                    Instr::Add(lv("x"), num(1)),
                )],
                Some(JumpInstr::Return(Some(lv("r")))),
            )],
        }),
        Definition::Func(FuncDef {
            name: "main".to_string(),
            params: vec![FuncParam { ty: Type::Base(BaseType::Word), name: "a".to_string() }],
            body: vec![blk(
                "start",
                vec![Statement::Call(
                    Some("out".to_string()),
                    Some(BaseType::Word),
                    "inc".to_string(),
                    vec![FuncParam { ty: Type::Base(BaseType::Word), name: "a".to_string() }],
                )],
                Some(JumpInstr::Return(Some(lv("out")))),
            )],
        }),
    ];
    let mut it = Interp::new(defs).unwrap();
    it.exec_symbolic(&"main".to_string()).unwrap();
    match run(&mut it).unwrap() {
        Step::Done(v) => assert!(v.is_none()),
        _ => panic!("expected the run to finish"),
    }
    let a = it.state.get_local("a").unwrap();
    let out = it.state.get_local("out").unwrap();
    let solver = Solver::new();
    solver.assert(a.ast().eq(BV::from_u64(41, 32)));
    solver.assert(out.ast().eq(BV::from_u64(42, 32)).not());
    assert_eq!(SatResult::Unsat, solver.check());
}

#[test]
fn store_and_load_roundtrip() {
    // storeh writes two bytes at an allocated address; a signed half load
    // reads them back sign-extended.
    let defs = vec![Definition::Func(FuncDef {
        name: "f".to_string(),
        params: vec![],
        body: vec![blk(
            "start",
            vec![
                Statement::Assign(
                    "p".to_string(),
                    BaseType::Long,
                    Instr::Alloc(qbe_sym::types::AllocAlign::Word, 8),
                ),
                Statement::Volatile(VolatileInstr::Store(
                    ExtType::Halfword,
                    num(-2),
                    lv("p"),
                )),
                Statement::Assign(
                    "x".to_string(),
                    BaseType::Word,
                    Instr::Load(
                        qbe_sym::types::LoadType::SubLong(
                            qbe_sym::types::SubLongType::SubWord(SubWordType::SignedHalf),
                        ),
                        lv("p"),
                    ),
                ),
            ],
            Some(JumpInstr::Return(None)),
        )],
    })];
    let mut it = Interp::new(defs).unwrap();
    it.exec_symbolic(&"f".to_string()).unwrap();
    run(&mut it).unwrap();

    let x = it.state.get_local("x").unwrap();
    assert_eq!(x.get_width(), 32);
    let solver = Solver::new();
    solver.assert(x.ast().eq(BV::from_u64(0xffff_fffe, 32)).not());
    assert_eq!(SatResult::Unsat, solver.check());
}

#[test]
fn compare_lowers_to_flag() {
    // csltw on 3 and 5 produces 1 at the destination width.
    let defs = vec![Definition::Func(FuncDef {
        name: "f".to_string(),
        params: vec![],
        body: vec![blk(
            "start",
            vec![Statement::Assign(
                "b".to_string(),
                BaseType::Word,
                Instr::Compare(BaseType::Word, CmpOp::Slt, num(3), num(5)),
            )],
            Some(JumpInstr::Return(None)),
        )],
    })];
    let mut it = Interp::new(defs).unwrap();
    it.exec_symbolic(&"f".to_string()).unwrap();
    run(&mut it).unwrap();

    let b = it.state.get_local("b").unwrap();
    assert_eq!(b.get_width(), 32);
    let solver = Solver::new();
    solver.assert(b.ast().eq(BV::from_u64(1, 32)).not());
    assert_eq!(SatResult::Unsat, solver.check());
}

#[test]
fn binop_rem_signs() {
    // rem uses signed remainder, urem unsigned: -7 rem 2 is -1, while the
    // unsigned remainder of the same bits is 1.
    let defs = vec![Definition::Func(FuncDef {
        name: "f".to_string(),
        params: vec![],
        body: vec![blk(
            "start",
            vec![
                Statement::Assign(
                    "s".to_string(),
                    BaseType::Word,
                    Instr::Rem(num(-7), num(2)),
                ),
                Statement::Assign(
                    "u".to_string(),
                    BaseType::Word,
                    Instr::URem(num(-7), num(2)),
                ),
            ],
            Some(JumpInstr::Return(None)),
        )],
    })];
    let mut it = Interp::new(defs).unwrap();
    it.exec_symbolic(&"f".to_string()).unwrap();
    run(&mut it).unwrap();

    let s = it.state.get_local("s").unwrap();
    let u = it.state.get_local("u").unwrap();
    let solver = Solver::new();
    solver.assert(s.ast().eq(BV::from_u64(0xffff_ffff, 32)).not());
    assert_eq!(SatResult::Unsat, solver.check());
    let solver2 = Solver::new();
    solver2.assert(u.ast().eq(BV::from_u64(1, 32)).not());
    assert_eq!(SatResult::Unsat, solver2.check());
}

#[test]
fn perform_binop_subtypes_long_to_word() {
    // perform_binop under a word destination cuts 64-bit operands to their
    // low 32 bits before the operation.
    let defs = vec![Definition::Func(FuncDef {
        name: "f".to_string(),
        params: vec![],
        body: vec![blk("start", vec![], Some(JumpInstr::Halt))],
    })];
    let mut it = Interp::new(defs).unwrap();
    it.exec_symbolic(&"f".to_string()).unwrap();

    let r = it
        .perform_binop(BaseType::Word, BinOp::Add, &num(0x1_0000_0005), &num(7))
        .unwrap();
    assert_eq!(r.get_width(), 32);
    let solver = Solver::new();
    solver.assert(r.ast().eq(BV::from_u64(12, 32)).not());
    assert_eq!(SatResult::Unsat, solver.check());
}

#[test]
fn halt_in_callee_resumes_caller() {
    // A hlt inside a called function dumps a model; the caller then goes
    // on as if the call had returned nothing.
    let defs = vec![
        Definition::Func(FuncDef {
            name: "stopper".to_string(),
            params: vec![],
            body: vec![blk("start", vec![], Some(JumpInstr::Halt))],
        }),
        Definition::Func(FuncDef {
            name: "main".to_string(),
            params: vec![],
            body: vec![blk(
                "start",
                vec![
                    Statement::Call(None, None, "stopper".to_string(), vec![]),
                    Statement::Assign(
                        "after".to_string(),
                        BaseType::Word,
                        Instr::Add(num(1), num(2)),
                    ),
                ],
                Some(JumpInstr::Return(None)),
            )],
        }),
    ];
    let mut it = Interp::new(defs).unwrap();
    it.exec_symbolic(&"main".to_string()).unwrap();
    match run(&mut it).unwrap() {
        Step::Done(v) => assert!(v.is_none()),
        _ => panic!("expected the run to finish"),
    }
    // One halt line: the inner one; the entry return ends the run through
    // the ordinary return path, the halting frame having been left behind.
    let dumps = it.log().iter().filter(|l| *l == "Halting executing").count();
    assert_eq!(dumps, 1);
}
