//! End-to-end symbolic executions of small IL programs.
use qbe_sym::error::Error;
use qbe_sym::interp::{Interp, Step};
use qbe_sym::types::{
    AllocAlign, BaseType, Block, Const, DataDef, DataItem, DataObj, Definition, FuncDef,
    FuncParam, Instr, JumpInstr, LoadType, Statement, SubLongType, SubWordType, Type, Value,
};
use z3::{ast::BV, SatResult, Solver};

fn lv(n: &str) -> Value {
    Value::LocalVar(n.to_string())
}

fn num(n: i64) -> Value {
    Value::Const(Const::Number(n))
}

fn blk(label: &str, inst: Vec<Statement>, jump: Option<JumpInstr>) -> Block {
    Block { label: label.to_string(), inst, jump }
}

fn wparam(name: &str) -> FuncParam {
    FuncParam { ty: Type::Base(BaseType::Word), name: name.to_string() }
}

/// Drive the machine until it finishes or pauses at a branch.
fn run(it: &mut Interp) -> Result<Step, Error> {
    loop {
        match it.step()? {
            Step::Running => {},
            s => return Ok(s),
        }
    }
}

#[test]
fn symbolic_identity_halts() {
    // function l $id(l %x) { @start ret %x }: the return from the entry
    // frame halts, the value is discarded, and the parameter may take any
    // value in the model.
    let defs = vec![Definition::Func(FuncDef {
        name: "id".to_string(),
        params: vec![FuncParam { ty: Type::Base(BaseType::Long), name: "x".to_string() }],
        body: vec![blk("start", vec![], Some(JumpInstr::Return(Some(lv("x")))))],
    })];
    let mut it = Interp::new(defs).unwrap();
    it.exec_symbolic(&"id".to_string()).unwrap();
    match run(&mut it).unwrap() {
        Step::Done(v) => assert!(v.is_none()),
        _ => panic!("expected the run to finish"),
    }
    assert!(it.log().iter().any(|l| l == "Halting executing"));
    assert!(it.log().iter().any(|l| l == "Symbolic variable values:"));

    let x = it.state.get_local("x").unwrap();
    assert_eq!(x.get_width(), 64);
    let s = it.solver().raw();
    assert_eq!(
        SatResult::Sat,
        s.check_assumptions(&[x.ast().eq(BV::from_u64(12345, 64))])
    );
    assert_eq!(
        SatResult::Sat,
        s.check_assumptions(&[x.ast().eq(BV::from_u64(0, 64))])
    );
}

#[test]
fn add_constrains_return() {
    // function w $f(w %a, w %b) { @start %r =w add %a, %b; ret %r }:
    // the bound result equals the bit-vector sum of the two fresh symbols,
    // so fixing the result and one operand fixes the other.
    let defs = vec![Definition::Func(FuncDef {
        name: "f".to_string(),
        params: vec![wparam("a"), wparam("b")],
        body: vec![blk(
            "start",
            vec![Statement::Assign(
                "r".to_string(),
                BaseType::Word,
                Instr::Add(lv("a"), lv("b")),
            )],
            Some(JumpInstr::Return(Some(lv("r")))),
        )],
    })];
    let mut it = Interp::new(defs).unwrap();
    it.exec_symbolic(&"f".to_string()).unwrap();
    run(&mut it).unwrap();

    let a = it.state.get_local("a").unwrap();
    let b = it.state.get_local("b").unwrap();
    let r = it.state.get_local("r").unwrap();
    assert_eq!(a.get_width(), 32);
    assert_eq!(r.get_width(), 32);

    let solver = Solver::new();
    solver.assert(r.ast().eq(BV::from_u64(42, 32)));
    solver.assert(a.ast().eq(BV::from_u64(40, 32)));
    assert_eq!(SatResult::Sat, solver.check());
    let model = solver.get_model().unwrap();
    let bval = model.eval(b.ast(), true).unwrap().as_u64().unwrap();
    assert_eq!(bval, 2);

    // No other value of %b is possible under those constraints.
    solver.assert(b.ast().eq(BV::from_u64(2, 32)).not());
    assert_eq!(SatResult::Unsat, solver.check());
}

#[test]
fn data_byte_loads() {
    // data $buf = { b "Hi", b 0 } and a function loading the first byte:
    // the loaded value is provably the code of 'H'.
    let defs = vec![
        Definition::Data(DataDef {
            name: "buf".to_string(),
            objs: vec![DataObj::DataItem(
                qbe_sym::types::ExtType::Byte,
                vec![DataItem::Text("Hi".to_string()), DataItem::Number(0)],
            )],
        }),
        Definition::Func(FuncDef {
            name: "main".to_string(),
            params: vec![],
            body: vec![blk(
                "start",
                vec![Statement::Assign(
                    "x".to_string(),
                    BaseType::Word,
                    Instr::Load(
                        LoadType::SubLong(SubLongType::SubWord(SubWordType::UnsignedByte)),
                        Value::Const(Const::Global("buf".to_string())),
                    ),
                )],
                Some(JumpInstr::Return(None)),
            )],
        }),
    ];
    let mut it = Interp::new(defs).unwrap();
    it.exec_symbolic(&"main".to_string()).unwrap();
    run(&mut it).unwrap();

    let x = it.state.get_local("x").unwrap();
    assert_eq!(x.get_width(), 32);
    let solver = Solver::new();
    solver.assert(x.ast().eq(BV::from_u64(0x48, 32)).not());
    assert_eq!(SatResult::Unsat, solver.check());
}

fn branch_program() -> Vec<Definition> {
    vec![Definition::Func(FuncDef {
        name: "func".to_string(),
        params: vec![wparam("c")],
        body: vec![
            blk(
                "start",
                vec![],
                Some(JumpInstr::Jnz(lv("c"), "T".to_string(), "F".to_string())),
            ),
            blk("T", vec![], Some(JumpInstr::Return(Some(num(1))))),
            blk("F", vec![], Some(JumpInstr::Return(Some(num(0))))),
        ],
    })]
}

#[test]
fn branch_explores_both_arms() {
    // jnz on a fresh symbol: both arms are feasible, the machine pauses
    // once, and each arm's path constraints pin the condition.
    let mut it = Interp::new(branch_program()).unwrap();
    it.exec_symbolic(&"func".to_string()).unwrap();
    match run(&mut it).unwrap() {
        Step::Branch => {},
        _ => panic!("expected a two-armed branch"),
    }
    assert!(it.has_pending());
    it.resume(true);
    match run(&mut it).unwrap() {
        Step::Done(_) => {},
        _ => panic!("expected the non-zero arm to finish"),
    }
    let c = it.state.get_local("c").unwrap();
    assert_eq!(
        SatResult::Unsat,
        it.solver().raw().check_assumptions(&[c.ast().eq(BV::from_u64(0, 32))])
    );

    // The zero arm of a fresh exploration forces the condition to zero.
    let mut it2 = Interp::new(branch_program()).unwrap();
    it2.exec_symbolic(&"func".to_string()).unwrap();
    match run(&mut it2).unwrap() {
        Step::Branch => {},
        _ => panic!("expected a two-armed branch"),
    }
    it2.resume(false);
    run(&mut it2).unwrap();
    let c2 = it2.state.get_local("c").unwrap();
    assert_eq!(
        SatResult::Unsat,
        it2.solver()
            .raw()
            .check_assumptions(&[c2.ast().eq(BV::from_u64(0, 32)).not()])
    );
}

#[test]
fn constant_condition_no_branch() {
    // jnz 1, @T, @F: only the non-zero arm is feasible; no pause happens
    // and @F is never explored.
    let defs = vec![Definition::Func(FuncDef {
        name: "g".to_string(),
        params: vec![],
        body: vec![
            blk(
                "start",
                vec![],
                Some(JumpInstr::Jnz(num(1), "T".to_string(), "F".to_string())),
            ),
            blk("T", vec![], Some(JumpInstr::Return(Some(num(1))))),
            blk("F", vec![], Some(JumpInstr::Return(Some(num(0))))),
        ],
    })];
    let mut it = Interp::new(defs).unwrap();
    it.exec_symbolic(&"g".to_string()).unwrap();
    match run(&mut it).unwrap() {
        Step::Done(_) => {},
        _ => panic!("expected no branch for a constant condition"),
    }
    assert!(it.log().iter().any(|l| l.contains("'T'")));
    assert!(!it.log().iter().any(|l| l.contains("'F'")));
}

#[test]
fn alloc_aligned_above_stack() {
    // alloc4 4: the returned address is 64 bits, provably 0 modulo 4, and
    // strictly above the post-layout stack pointer.
    let defs = vec![Definition::Func(FuncDef {
        name: "f".to_string(),
        params: vec![],
        body: vec![blk(
            "start",
            vec![Statement::Assign(
                "p".to_string(),
                BaseType::Long,
                Instr::Alloc(AllocAlign::Word, 4),
            )],
            Some(JumpInstr::Return(Some(lv("p")))),
        )],
    })];
    let mut it = Interp::new(defs).unwrap();
    it.exec_symbolic(&"f".to_string()).unwrap();
    run(&mut it).unwrap();

    let p = it.state.get_local("p").unwrap();
    assert_eq!(p.get_width(), 64);

    // One function occupies 4 bytes, so the initial stack pointer is 4 and
    // the alignment formula places the allocation at 8.
    let solver = Solver::new();
    solver.assert(
        p.ast()
            .bvurem(BV::from_u64(4, 64))
            .eq(BV::from_u64(0, 64))
            .not(),
    );
    assert_eq!(SatResult::Unsat, solver.check());

    let solver2 = Solver::new();
    solver2.assert(p.ast().bvult(BV::from_u64(4, 64)));
    assert_eq!(SatResult::Unsat, solver2.check());

    let solver3 = Solver::new();
    solver3.assert(p.ast().eq(BV::from_u64(8, 64)).not());
    assert_eq!(SatResult::Unsat, solver3.check());

    // The stack pointer advanced past the allocation by its size.
    assert_eq!(it.state.stack_pointer(), 12);
}
