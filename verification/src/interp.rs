//! The instruction and terminator interpreter.
//!
//! Execution is a machine over an explicit stack of activations, one per
//! function call, beside the frame stack owned by [`State`]. A conditional
//! jump whose both arms are feasible pauses the machine ([`Step::Branch`]);
//! the caller — ordinarily a driver that clones the whole process — picks
//! an arm with [`Interp::resume`] and execution continues. Everything the
//! machine decides is verified; the solver is reached through the trusted
//! wrappers of [`SmtSolver`].
use vstd::prelude::*;
use vstd::string::StringExecFns;

use crate::error::Error;
use crate::state::{align_up, find_last_block, find_last_func, wrap64, State};
use crate::types::{
    align_bytes, base_bits, load_bits, subw_bits, BaseType, CmpOp, Definition, FuncDef, FuncParam,
    Instr, JumpInstr, Statement, SubWordType, Type, Value, VolatileInstr, WORD_SIZE,
};
use crate::value::{
    bool_not, bv_eq, bv_ite, bv_sge, bv_sgt, bv_sle, bv_slt, bv_uge, bv_ugt, bv_ule, bv_ult,
    SymBV, SymBool, ValueFactory,
};

verus! {

#[verifier::external_type_specification]
#[verifier::external_body]
pub struct ExZ3Solver(z3::Solver);

/// The result of a satisfiability check.
#[derive(Clone, Copy, PartialEq, Eq, Structural, Debug)]
pub enum SatKind {
    Sat,
    Unsat,
    Unknown,
}

/// The SMT solver holding the path constraints of the current execution.
pub struct SmtSolver {
    s: z3::Solver,
}

impl SmtSolver {
    /// A fresh solver with no assertions.
    ///
    /// Relies on Z3's `Solver::new`.
    #[verifier::external_body]
    pub fn new() -> SmtSolver {
        SmtSolver { s: z3::Solver::new() }
    }

    /// The underlying Z3 solver.
    #[verifier::external_body]
    pub fn raw(&self) -> &z3::Solver {
        &self.s
    }

    /// Add an assertion.
    ///
    /// Relies on Z3's `Solver::assert`.
    #[verifier::external_body]
    pub fn assert_cond(&mut self, c: &SymBool) {
        self.s.assert(c.ast());
    }

    /// Check satisfiability of the assertions together with one assumption.
    ///
    /// Relies on Z3's `Solver::check_assumptions`; the solver may answer
    /// `Sat`, `Unsat` or `Unknown`.
    #[verifier::external_body]
    pub fn check_with(&mut self, c: &SymBool) -> SatKind {
        match self.s.check_assumptions(&[c.ast().clone()]) {
            z3::SatResult::Sat => SatKind::Sat,
            z3::SatResult::Unsat => SatKind::Unsat,
            z3::SatResult::Unknown => SatKind::Unknown,
        }
    }

    /// Check satisfiability of the assertions.
    ///
    /// Relies on Z3's `Solver::check`.
    #[verifier::external_body]
    pub fn check(&mut self) -> SatKind {
        match self.s.check() {
            z3::SatResult::Sat => SatKind::Sat,
            z3::SatResult::Unsat => SatKind::Unsat,
            z3::SatResult::Unknown => SatKind::Unknown,
        }
    }

    /// The rendering of the model of the last successful check, if one is
    /// available.
    ///
    /// Relies on Z3's `Solver::get_model` and the `Display` rendering of
    /// the model.
    #[verifier::external_body]
    pub fn model_text(&self) -> Option<String> {
        match self.s.get_model() {
            Some(m) => Some(format!("{}", m)),
            None => None,
        }
    }
}

/// A control-flow edge: an optional guard, and the position of the target
/// block in the innermost frame's function.
pub struct Path {
    pub(crate) cond: Option<SymBool>,
    pub(crate) target: usize,
}

impl Path {
    /// Whether this edge carries a guard.
    pub closed spec fn guarded(&self) -> bool {
        self.cond is Some
    }

    /// Whether this edge can be taken: an unguarded edge always can; a
    /// guarded one when its guard is satisfiable together with the path
    /// constraints collected so far. An `Unknown` solver answer is an
    /// error.
    pub fn feasible(&self, solver: &mut SmtSolver) -> (r: Result<bool, Error>)
        ensures
            !self.guarded() ==> r == Result::<bool, Error>::Ok(true),
            r is Err ==> (r matches Err(e) && e is SolverUnknown),
    {
        let cond = match &self.cond {
            Some(x) => x,
            None => {
                return Ok(true);
            },
        };
        match solver.check_with(cond) {
            SatKind::Unsat => Ok(false),
            SatKind::Sat => Ok(true),
            SatKind::Unknown => Err(Error::SolverUnknown),
        }
    }
}

/// What a terminator asks for next.
enum FuncReturn {
    Jump(Path),
    CondJump(Path, Path),
    Return(Option<SymBV>),
}

/// What a statement asks for next.
enum StatAction {
    Done,
    Call { func_idx: usize, args: Vec<SymBV>, dest: Option<String> },
}

/// How the machine reports its position after a transition.
pub enum Step {
    /// There is more to execute: call [`Interp::step`] again.
    Running,
    /// Both arms of a conditional jump are feasible; the caller picks one
    /// with [`Interp::resume`].
    Branch,
    /// Execution finished; a value returned from the started function is
    /// carried here, `None` after a halt.
    Done(Option<SymBV>),
}

/// The binary arithmetic operations of the IL.
#[derive(Clone, Copy, PartialEq, Eq, Structural, Debug)]
pub enum BinOp {
    Add,
    Sub,
    Mul,
    Rem,
    URem,
}

/// One entry of the machine's control stack: a function being executed,
/// the block position being run, and where the enclosing function's
/// block iteration stands.
struct Activation {
    /// The function this activation belongs to; fall-through continues in
    /// its body.
    func_idx: usize,
    /// The next body index of `func_idx` that a fall-through enters.
    iter_idx: usize,
    /// The function whose body `cur_block` indexes. After a jump this is
    /// the function of the innermost frame, which can differ from
    /// `func_idx` when a frame outlived its activation.
    cur_func: usize,
    /// The block currently being executed.
    cur_block: usize,
    /// The next statement of that block.
    stmt_idx: usize,
    /// The caller's destination temporary for this function's return
    /// value.
    dest: Option<String>,
}

/// The ghost description of one control-stack entry.
pub ghost struct ActModel {
    pub func_idx: int,
    pub iter_idx: int,
    pub cur_func: int,
    pub cur_block: int,
    pub stmt_idx: int,
    pub dest: Option<Seq<char>>,
}

/// The block an activation currently executes.
pub open spec fn cur_block_of(st: State, a: ActModel) -> crate::types::Block {
    st.funcs()[a.cur_func].body@[a.cur_block]
}

/// Whether an activation stands at a statement (rather than at its
/// block's terminator).
pub open spec fn at_stmt(st: State, a: ActModel) -> bool {
    a.stmt_idx < cur_block_of(st, a).inst@.len()
}

/// The statement an activation stands at.
pub open spec fn cur_stmt(st: State, a: ActModel) -> Statement {
    cur_block_of(st, a).inst@[a.stmt_idx]
}

/// The activation after executing one statement of its block.
pub open spec fn stmt_advanced(a: ActModel) -> ActModel {
    ActModel { stmt_idx: a.stmt_idx + 1, ..a }
}

/// The activation after a jump to block `b` of function `f`.
pub open spec fn retargeted(a: ActModel, f: int, b: int) -> ActModel {
    ActModel { cur_func: f, cur_block: b, stmt_idx: 0, ..a }
}

/// The activation after a fall-through: the enclosing function's block
/// iteration enters its next block.
pub open spec fn fell_through(a: ActModel) -> ActModel {
    ActModel { cur_func: a.func_idx, cur_block: a.iter_idx, iter_idx: a.iter_idx + 1, stmt_idx: 0, ..a }
}

/// The activation a freshly entered function starts with: its first
/// block, the iteration standing after it.
pub open spec fn entry_act(f: int, dest: Option<Seq<char>>) -> ActModel {
    ActModel { func_idx: f, iter_idx: 1, cur_func: f, cur_block: 0, stmt_idx: 0, dest }
}

/// Whether no formal after position `q` (and before position `k`) shares
/// the name of the formal at `q`.
pub open spec fn unshadowed_until(formals: Seq<FuncParam>, q: int, k: int) -> bool {
    forall|j: int| q < j < k ==> (#[trigger] formals[j]).name@ != formals[q].name@
}

/// Whether a map binds every formal parameter of `callee`, the binding of
/// each formal that no later formal shadows being the corresponding
/// argument.
pub open spec fn binds_formals(
    callee: FuncDef,
    args: Seq<SymBV>,
    m: Map<Seq<char>, SymBV>,
) -> bool {
    &&& forall|i: int|
        0 <= i < callee.params@.len() ==> m.dom().contains(
            (#[trigger] callee.params@[i]).name@,
        )
    &&& forall|i: int|
        (0 <= i < callee.params@.len() && unshadowed_until(
            callee.params@,
            i,
            callee.params@.len() as int,
        )) ==> m[(#[trigger] callee.params@[i]).name@] == args[i]
}

/// A problem evaluating an operand, a parameter list, or a call target.
pub ghost enum EvalErr {
    Unknown(Seq<char>),
    BadSub,
    NoFunc(Seq<char>),
}

/// Whether an error value reports a given evaluation problem.
pub open spec fn err_matches(e: Error, k: EvalErr) -> bool {
    match k {
        EvalErr::Unknown(n) => e matches Error::UnknownVariable(s) && s@ == n,
        EvalErr::BadSub => e is InvalidSubtyping,
        EvalErr::NoFunc(n) => e matches Error::UnknownFunction(s) && s@ == n,
    }
}

/// The name an unresolvable operand would be reported under.
pub open spec fn unknown_name(v: Value) -> Seq<char> {
    match v {
        Value::LocalVar(n) => n@,
        Value::Const(crate::types::Const::Global(g)) => g@,
        Value::Const(crate::types::Const::Number(_)) => Seq::empty(),
    }
}

/// The width an operand resolves to before any subtyping coercion, `None`
/// when it does not resolve.
pub open spec fn resolve_width(st: State, v: Value) -> Option<u32> {
    match v {
        Value::LocalVar(n) => if st.locals().dom().contains(n@) {
            Some(st.locals()[n@].width())
        } else {
            None
        },
        Value::Const(crate::types::Const::Number(_)) => Some(64u32),
        Value::Const(crate::types::Const::Global(g)) => if st.ptr_of(g@) is Some {
            Some(64u32)
        } else {
            None
        },
    }
}

/// The value an operand resolves to when no coercion applies.
pub open spec fn untouched(st: State, v: Value, bv: SymBV) -> bool {
    match v {
        Value::LocalVar(n) => bv == st.locals()[n@],
        Value::Const(crate::types::Const::Number(x)) => bv.width() == 64 && bv.lit() == Some(
            x as u64,
        ),
        Value::Const(crate::types::Const::Global(g)) => bv.width() == 64 && bv.lit() == Some(
            st.ptr_of(g@).unwrap(),
        ),
    }
}

/// The width an operand has after the subtyping coercion for `dest_ty`.
pub open spec fn coerced_width(st: State, dest_ty: Option<BaseType>, v: Value) -> Option<u32> {
    match resolve_width(st, v) {
        None => None,
        Some(w) => if dest_ty == Some(BaseType::Word) {
            Some(32u32)
        } else {
            Some(w)
        },
    }
}

/// The first problem evaluating an operand under `dest_ty`, if any.
pub open spec fn value_err(st: State, dest_ty: Option<BaseType>, v: Value) -> Option<EvalErr> {
    match resolve_width(st, v) {
        None => Some(EvalErr::Unknown(unknown_name(v))),
        Some(w) => if dest_ty == Some(BaseType::Word) && w != 32 && w != 64 {
            Some(EvalErr::BadSub)
        } else {
            None
        },
    }
}

/// The first problem evaluating a pair of operands of a binary operation
/// under `dest_ty`: each operand in turn, then a width mismatch between
/// them.
pub open spec fn pair_err(st: State, dest_ty: BaseType, a: Value, b: Value) -> Option<EvalErr> {
    match value_err(st, Some(dest_ty), a) {
        Some(e) => Some(e),
        None => match value_err(st, Some(dest_ty), b) {
            Some(e) => Some(e),
            None => if coerced_width(st, Some(dest_ty), a) != coerced_width(st, Some(dest_ty), b) {
                Some(EvalErr::BadSub)
            } else {
                None
            },
        },
    }
}

/// The first problem evaluating an instruction under `dest_ty`, if any.
/// A `load` or `store` whose address is not 64 bits wide is a typing
/// problem as well.
pub open spec fn inst_err(st: State, dest_ty: BaseType, inst: Instr) -> Option<EvalErr> {
    match inst {
        Instr::Add(a, b) => pair_err(st, dest_ty, a, b),
        Instr::Sub(a, b) => pair_err(st, dest_ty, a, b),
        Instr::Mul(a, b) => pair_err(st, dest_ty, a, b),
        Instr::Rem(a, b) => pair_err(st, dest_ty, a, b),
        Instr::URem(a, b) => pair_err(st, dest_ty, a, b),
        Instr::Compare(ty, _, a, b) => pair_err(st, ty, a, b),
        Instr::Load(_, a) => match value_err(st, None, a) {
            Some(e) => Some(e),
            None => if resolve_width(st, a) != Some(64u32) {
                Some(EvalErr::BadSub)
            } else {
                None
            },
        },
        Instr::Alloc(_, _) => None,
        Instr::Ext(_, v) => value_err(st, None, v),
    }
}

/// The width of an instruction's result: its destination type's width for
/// comparisons, extensions and sub-long loads; the operands' common width
/// for the arithmetic operations; 64 bits for a long load or a stack
/// allocation.
pub open spec fn inst_width(st: State, dest_ty: BaseType, inst: Instr) -> u32 {
    match inst {
        Instr::Add(a, _) => coerced_width(st, Some(dest_ty), a).unwrap(),
        Instr::Sub(a, _) => coerced_width(st, Some(dest_ty), a).unwrap(),
        Instr::Mul(a, _) => coerced_width(st, Some(dest_ty), a).unwrap(),
        Instr::Rem(a, _) => coerced_width(st, Some(dest_ty), a).unwrap(),
        Instr::URem(a, _) => coerced_width(st, Some(dest_ty), a).unwrap(),
        Instr::Load(lty, _) => if load_bits(lty) == 64 {
            64u32
        } else {
            base_bits(dest_ty)
        },
        Instr::Alloc(_, _) => 64u32,
        Instr::Compare(_, _, _, _) => base_bits(dest_ty),
        Instr::Ext(_, _) => base_bits(dest_ty),
    }
}

/// The first problem executing a store, if any.
pub open spec fn store_err(st: State, instr: VolatileInstr) -> Option<EvalErr> {
    match instr {
        VolatileInstr::Store(_, v, a) => match value_err(st, None, v) {
            Some(e) => Some(e),
            None => match value_err(st, None, a) {
                Some(e) => Some(e),
                None => if resolve_width(st, a) != Some(64u32) {
                    Some(EvalErr::BadSub)
                } else {
                    None
                },
            },
        },
    }
}

/// The first problem resolving one call parameter: its name must be bound
/// in the caller's frame, and a sub-word-typed parameter must name a
/// binding of exactly that width.
pub open spec fn param_err(st: State, p: FuncParam) -> Option<EvalErr> {
    if !st.locals().dom().contains(p.name@) {
        Some(EvalErr::Unknown(p.name@))
    } else {
        match p.ty {
            Type::SubWord(sw) => if st.locals()[p.name@].width() != subw_bits(sw) {
                Some(EvalErr::BadSub)
            } else {
                None
            },
            Type::Base(_) => None,
        }
    }
}

/// The first problem resolving a call's parameter list, in order.
pub open spec fn params_err(st: State, ps: Seq<FuncParam>) -> Option<EvalErr>
    decreases ps.len(),
{
    if ps.len() == 0 {
        None
    } else {
        match param_err(st, ps[0]) {
            Some(e) => Some(e),
            None => params_err(st, ps.drop_first()),
        }
    }
}

/// How a resolved call argument relates to its call parameter: a base-typed
/// parameter hands the caller's binding through unchanged; a sub-word-typed
/// one hands a 32-bit promotion whose high bits are fresh.
pub open spec fn param_arg_ok(st: State, p: FuncParam, bv: SymBV) -> bool {
    match p.ty {
        Type::Base(_) => bv == st.locals()[p.name@],
        Type::SubWord(_) => bv.width() == 32,
    }
}

/// The first problem executing one statement, if any.
pub open spec fn stat_err(st: State, stat: Statement) -> Option<EvalErr> {
    match stat {
        Statement::Assign(_, t, i) => inst_err(st, t, i),
        Statement::Volatile(vi) => store_err(st, vi),
        Statement::Call(_, _, fname, ps) => match params_err(st, ps@) {
            Some(e) => Some(e),
            None => if find_last_func(st.funcs(), fname@) is None {
                Some(EvalErr::NoFunc(fname@))
            } else {
                None
            },
        },
    }
}

/// Statements equal up to parameter-vector views fail in the same way.
proof fn lemma_stat_err_congruent(st: State, a: Statement, b: Statement)
    requires
        crate::types::stmt_eq(a, b),
    ensures
        stat_err(st, a) == stat_err(st, b),
{
}

/// The symbolic interpreter: the value factory, the state, the solver,
/// the machine's control stack, and the log of what an interactive run
/// would print.
pub struct Interp {
    v: ValueFactory,
    pub state: State,
    solver: SmtSolver,
    acts: Vec<Activation>,
    pending: Option<(Path, Path)>,
    log: Vec<String>,
}

/// All control-stack entries point into the program.
spec fn acts_ok(acts: Seq<Activation>, funcs: Seq<FuncDef>) -> bool {
    forall|i: int|
        0 <= i < acts.len() ==> {
            let a = #[trigger] acts[i];
            &&& a.func_idx < funcs.len()
            &&& a.cur_func < funcs.len()
            &&& a.iter_idx <= funcs[a.func_idx as int].body@.len()
            &&& a.cur_block < funcs[a.cur_func as int].body@.len()
            &&& a.stmt_idx <= funcs[a.cur_func as int].body@[a.cur_block as int].inst@.len()
        }
}

/// Every binding of every frame is at least one bit wide.
pub open spec fn frames_wide(frames: Seq<crate::state::FrameModel>) -> bool {
    forall|i: int, n: Seq<char>|
        0 <= i < frames.len() && (#[trigger] frames[i].locals.dom().contains(n)) ==> frames[
            i
        ].locals[n].width() >= 1
}

/// Every binding of the innermost frame is at least one bit wide.
pub open spec fn top_wide(st: State) -> bool {
    forall|n: Seq<char>| #[trigger]
        st.locals().dom().contains(n) ==> st.locals()[n].width() >= 1
}

/// Whether a function's own name and its parameter names are free of NUL
/// characters, as the fresh symbols named after them must be.
pub open spec fn func_names_ok(f: FuncDef) -> bool {
    &&& crate::value::no_nul(f.name@)
    &&& forall|j: int|
        0 <= j < f.params@.len() ==> crate::value::no_nul((#[trigger] f.params@[j]).name@)
}

/// The innermost frame of a wide stack is wide.
proof fn lemma_top_wide(st: State)
    requires
        frames_wide(st.frames()),
        st.frames().len() > 0,
    ensures
        top_wide(st),
{
    assert(st.frames().last() == st.frames()[st.frames().len() - 1]);
    assert forall|n: Seq<char>| #[trigger]
        st.locals().dom().contains(n) implies st.locals()[n].width() >= 1 by {
        assert(st.frames()[st.frames().len() - 1].locals.dom().contains(n));
    }
}

impl Activation {
    /// The ghost description of this entry.
    spec fn model(&self) -> ActModel {
        ActModel {
            func_idx: self.func_idx as int,
            iter_idx: self.iter_idx as int,
            cur_func: self.cur_func as int,
            cur_block: self.cur_block as int,
            stmt_idx: self.stmt_idx as int,
            dest: match self.dest {
                Some(s) => Some(s@),
                None => None,
            },
        }
    }
}

impl Interp {
    /// The machine's control stack, oldest activation first.
    pub closed spec fn acts_view(&self) -> Seq<ActModel> {
        self.acts@.map_values(|a: Activation| a.model())
    }

    /// The block targets of a paused two-armed branch: the non-zero arm's
    /// and the zero arm's, in the innermost frame's function.
    pub closed spec fn pending_targets(&self) -> Option<(int, int)> {
        match self.pending {
            Some((p1, p2)) => Some((p1.target as int, p2.target as int)),
            None => None,
        }
    }

    /// The log, for specification purposes.
    pub closed spec fn log_view(&self) -> Seq<String> {
        self.log@
    }

    /// A paused branch points into the innermost frame's function.
    spec fn pending_wf(&self) -> bool {
        match self.pending {
            Some((p1, p2)) => {
                &&& self.state.frames().len() > 0
                &&& self.acts@.len() > 0
                &&& p1.target < self.state.funcs()[self.state.top_func_idx()].body@.len()
                &&& p2.target < self.state.funcs()[self.state.top_func_idx()].body@.len()
            },
            None => true,
        }
    }

    /// Well-formedness of the whole machine.
    pub closed spec fn wf(&self) -> bool {
        &&& self.state.wf()
        &&& acts_ok(self.acts@, self.state.funcs())
        &&& self.pending_wf()
        &&& frames_wide(self.state.frames())
        &&& self.acts@.len() <= self.state.frames().len()
    }

    /// The interpreter state, for specification purposes.
    pub closed spec fn st(&self) -> State {
        self.state
    }

    /// The number of entries on the machine's control stack.
    pub closed spec fn acts_len(&self) -> nat {
        self.acts@.len()
    }

    /// Whether the machine stands at a two-armed branch.
    pub closed spec fn at_branch(&self) -> bool {
        self.pending is Some
    }

    /// Whether the machine stands at a two-armed branch.
    pub fn has_pending(&self) -> (r: bool)
        ensures
            r == self.at_branch(),
    {
        self.pending.is_some()
    }

    /// Whether the machine is between runs: no activation and no pending
    /// branch.
    pub closed spec fn idle(&self) -> bool {
        self.acts@.len() == 0 && self.pending is None
    }

    /// Whether the machine is between runs.
    pub fn is_idle(&self) -> (r: bool)
        ensures
            r == self.idle(),
    {
        self.acts.len() == 0 && self.pending.is_none()
    }

    /// Whether the machine has more to execute.
    pub fn is_running(&self) -> (r: bool)
        ensures
            r == (self.acts_len() > 0),
    {
        self.acts.len() > 0
    }

    /// What an interactive run would have printed so far.
    pub fn log(&self) -> &Vec<String> {
        &self.log
    }

    /// The solver holding this execution's path constraints.
    pub fn solver(&self) -> &SmtSolver {
        &self.solver
    }

    /// Build an interpreter for a program: lay out its globals and start
    /// with an empty solver.
    pub fn new(source: Vec<Definition>) -> (r: Result<Interp, Error>)
        requires
            crate::state::defs_text_ok(source@),
        ensures
            r is Ok <==> crate::state::layout_err(source@) is None,
            match r {
                Ok(it) => {
                    &&& it.wf()
                    &&& it.idle()
                    &&& it.log_view().len() == 0
                    &&& it.st().frames().len() == 0
                    &&& it.st().funcs() == crate::state::funcs_of(source@)
                    &&& it.st().func_addrs().len() == it.st().funcs().len()
                    &&& forall|i: int|
                        0 <= i < it.st().funcs().len() ==> it.st().func_addrs()[i] == wrap64(
                            4 * i,
                        )
                    &&& it.st().data_names() == crate::state::names_of(
                        crate::state::datas_of(source@),
                    )
                    &&& it.st().data_addrs().len() == it.st().data_names().len()
                    &&& forall|i: int|
                        0 <= i < it.st().data_addrs().len() ==> it.st().data_addrs()[i]
                            == crate::state::data_base(
                            crate::state::datas_of(source@),
                            i,
                            wrap64(4 * (crate::state::funcs_of(source@).len() as int)),
                        )
                    &&& it.st().stack_ptr() == crate::state::data_base(
                        crate::state::datas_of(source@),
                        crate::state::datas_of(source@).len() as int,
                        wrap64(4 * (crate::state::funcs_of(source@).len() as int)),
                    )
                },
                Err(e) => match crate::state::layout_err(source@) {
                    Some(crate::state::LayoutErr::BadSymbol(n)) => e matches
                        Error::UnknownVariable(s) && s@ == n,
                    Some(crate::state::LayoutErr::BadText) => e is UnsupportedStringType,
                    None => false,
                },
            },
    {
        let state = match State::new(source) {
            Ok(st) => st,
            Err(e) => {
                return Err(e);
            },
        };
        Ok(
            Interp {
                v: ValueFactory::new(),
                state,
                solver: SmtSolver::new(),
                acts: Vec::new(),
                pending: None,
                log: Vec::new(),
            },
        )
    }

    /// Resolve a constant to a bit-vector: a number as a 64-bit literal, a
    /// global as its recorded address.
    fn get_const(&self, constant: &crate::types::Const) -> (r: Result<SymBV, Error>)
        requires
            self.st().wf(),
        ensures
            match r {
                Ok(bv) => {
                    &&& bv.width() == 64
                    &&& match *constant {
                        crate::types::Const::Number(x) => bv.lit() == Some(x as u64),
                        crate::types::Const::Global(g) => self.st().ptr_of(g@) matches Some(a)
                            && bv.lit() == Some(a),
                    }
                },
                Err(e) => {
                    &&& constant matches crate::types::Const::Global(g)
                    &&& self.st().ptr_of(g@) is None
                    &&& e matches Error::UnknownVariable(s) && s@ == g@
                },
            },
    {
        match constant {
            crate::types::Const::Number(n) => Ok(self.v.from_base_i64(BaseType::Long, *n)),
            crate::types::Const::Global(v) => match self.state.get_ptr(v.as_str()) {
                Some(p) => Ok(p),
                None => Err(Error::UnknownVariable(v.clone())),
            },
        }
    }

    /// Resolve a syntactic operand to a bit-vector and apply the IL
    /// subtyping rule: under a `w` destination, a 64-bit value is cut to
    /// its low 32 bits, and any width other than 32 or 64 is rejected.
    fn get_value(&self, dest_ty: Option<BaseType>, value: &Value) -> (r: Result<SymBV, Error>)
        requires
            self.st().wf(),
            self.st().frames().len() > 0,
            top_wide(self.st()),
        ensures
            match r {
                Ok(bv) => {
                    &&& value_err(self.st(), dest_ty, *value) is None
                    &&& coerced_width(self.st(), dest_ty, *value) == Some(bv.width())
                    &&& bv.width() >= 1
                    &&& (dest_ty != Some(BaseType::Word) || resolve_width(self.st(), *value)
                        == Some(32u32)) ==> untouched(self.st(), *value, bv)
                },
                Err(e) => value_err(self.st(), dest_ty, *value) matches Some(k) && err_matches(
                    e,
                    k,
                ),
            },
            r is Ok <==> value_err(self.st(), dest_ty, *value) is None,
    {
        let bv = match value {
            Value::LocalVar(var) => match self.state.get_local(var.as_str()) {
                Some(v) => {
                    proof {
                        assert(self.state.frames().last() == self.state.frames()[
                            self.state.frames().len() - 1
                        ]);
                    }
                    v
                },
                None => {
                    return Err(Error::UnknownVariable(var.clone()));
                },
            },
            Value::Const(c) => match self.get_const(c) {
                Ok(v) => v,
                Err(e) => {
                    return Err(e);
                },
            },
        };

        if let Some(x) = dest_ty {
            if matches!(x, BaseType::Word) && bv.get_width() == 64 {
                let lsb = crate::value::bv_extract(&bv, 31, 0);
                return Ok(lsb);
            } else if matches!(x, BaseType::Word) && bv.get_width() != WORD_SIZE {
                return Err(Error::InvalidSubtyping);
            }
        }

        Ok(bv)
    }

    /// Lower a comparison outcome to `dest_ty`'s width: 1 where the
    /// predicate holds, 0 where it does not.
    fn perform_compare(&self, dest_ty: BaseType, op: &CmpOp, bv1: SymBV, bv2: SymBV) -> (r: SymBV)
        requires
            bv1.width() == bv2.width(),
        ensures
            r.width() == base_bits(dest_ty),
    {
        let cond = match op {
            CmpOp::Eq => bv_eq(&bv1, &bv2),
            CmpOp::Ne => bool_not(&bv_eq(&bv1, &bv2)),
            CmpOp::Sle => bv_sle(&bv1, &bv2),
            CmpOp::Slt => bv_slt(&bv1, &bv2),
            CmpOp::Sge => bv_sge(&bv1, &bv2),
            CmpOp::Sgt => bv_sgt(&bv1, &bv2),
            CmpOp::Ule => bv_ule(&bv1, &bv2),
            CmpOp::Ult => bv_ult(&bv1, &bv2),
            CmpOp::Uge => bv_uge(&bv1, &bv2),
            CmpOp::Ugt => bv_ugt(&bv1, &bv2),
        };

        let true_bv = self.v.from_base_u64(dest_ty, 1);
        let false_bv = self.v.from_base_u64(dest_ty, 0);

        bv_ite(&cond, &true_bv, &false_bv)
    }

    /// Evaluate both operands under `dest_ty` and apply a binary
    /// arithmetic operation at that width.
    pub fn perform_binop(&self, dest_ty: BaseType, op: BinOp, o1: &Value, o2: &Value) -> (r:
        Result<SymBV, Error>)
        requires
            self.st().wf(),
            self.st().frames().len() > 0,
            top_wide(self.st()),
        ensures
            match r {
                Ok(bv) => pair_err(self.st(), dest_ty, *o1, *o2) is None && coerced_width(
                    self.st(),
                    Some(dest_ty),
                    *o1,
                ) == Some(bv.width()) && bv.width() >= 1,
                Err(e) => pair_err(self.st(), dest_ty, *o1, *o2) matches Some(k) && err_matches(
                    e,
                    k,
                ),
            },
            r is Ok <==> pair_err(self.st(), dest_ty, *o1, *o2) is None,
    {
        let bv1 = match self.get_value(Some(dest_ty), o1) {
            Ok(v) => v,
            Err(e) => {
                return Err(e);
            },
        };
        let bv2 = match self.get_value(Some(dest_ty), o2) {
            Ok(v) => v,
            Err(e) => {
                return Err(e);
            },
        };
        if bv1.get_width() != bv2.get_width() {
            return Err(Error::InvalidSubtyping);
        }
        let r = match op {
            BinOp::Add => crate::value::bv_add(&bv1, &bv2),
            BinOp::Sub => crate::value::bv_sub(&bv1, &bv2),
            BinOp::Mul => crate::value::bv_mul(&bv1, &bv2),
            BinOp::Rem => crate::value::bv_srem(&bv1, &bv2),
            BinOp::URem => crate::value::bv_urem(&bv1, &bv2),
        };
        Ok(r)
    }

    /// Execute one instruction under the destination type `dest_ty` and
    /// return the bit-vector it produces.
    ///
    /// The result has the destination type's width, except that a 64-bit
    /// load keeps its width. An `alloc` advances the stack pointer by the
    /// alignment formula and returns the aligned address; no other
    /// instruction changes the state.
    fn exec_inst(&mut self, dest_ty: BaseType, inst: &Instr) -> (r: Result<SymBV, Error>)
        requires
            old(self).wf(),
            old(self).st().frames().len() > 0,
        ensures
            final(self).wf(),
            final(self).st().frames() == old(self).st().frames(),
            final(self).st().tables_unchanged(&old(self).st()),
            final(self).at_branch() == old(self).at_branch(),
            final(self).acts@ == old(self).acts@,
            match *inst {
                Instr::Alloc(al, sz) => final(self).st().stack_ptr() == wrap64(
                    align_up(old(self).st().stack_ptr(), align_bytes(al)) + sz,
                ),
                _ => final(self).st().stack_ptr() == old(self).st().stack_ptr(),
            },
            match r {
                Ok(bv) => {
                    &&& inst_err(old(self).st(), dest_ty, *inst) is None
                    &&& bv.width() == inst_width(old(self).st(), dest_ty, *inst)
                    &&& bv.width() >= 1
                    &&& (*inst matches Instr::Alloc(al, _) ==> bv.lit() == Some(
                        align_up(old(self).st().stack_ptr(), align_bytes(al)),
                    ))
                },
                Err(e) => inst_err(old(self).st(), dest_ty, *inst) matches Some(k)
                    && err_matches(e, k),
            },
            r is Ok <==> inst_err(old(self).st(), dest_ty, *inst) is None,
    {
        proof {
            lemma_top_wide(self.state);
        }
        match inst {
            Instr::Add(v1, v2) => self.perform_binop(dest_ty, BinOp::Add, v1, v2),
            Instr::Sub(v1, v2) => self.perform_binop(dest_ty, BinOp::Sub, v1, v2),
            Instr::Mul(v1, v2) => self.perform_binop(dest_ty, BinOp::Mul, v1, v2),
            Instr::Rem(v1, v2) => self.perform_binop(dest_ty, BinOp::Rem, v1, v2),
            Instr::URem(v1, v2) => self.perform_binop(dest_ty, BinOp::URem, v1, v2),
            Instr::Load(ty, a) => {
                let size = ValueFactory::loadty_to_size(*ty);
                let addr = match self.get_value(None, a) {
                    Ok(v) => v,
                    Err(e) => {
                        return Err(e);
                    },
                };
                if addr.get_width() != 64 {
                    return Err(Error::InvalidSubtyping);
                }
                let value = self.state.load_bits(addr, (size as u64) / 8);

                // Loads narrower than a long carry a signedness of their
                // own: one variant sign-extends, the other zero-extends.
                if size < 64 {
                    if ty.is_signed() {
                        Ok(self.v.sign_ext_to(dest_ty, value))
                    } else {
                        Ok(self.v.zero_ext_to(dest_ty, value))
                    }
                } else {
                    Ok(value)
                }
            },
            Instr::Alloc(align, size) => {
                proof {
                    assert(0x1_0000_0000_0000_0000int % 4 == 0);
                    assert(0x1_0000_0000_0000_0000int % 8 == 0);
                    assert(0x1_0000_0000_0000_0000int % 16 == 0);
                }
                let addr = self.state.stack_alloc(align.byte_align(), *size);
                Ok(addr)
            },
            Instr::Compare(ty, op, v1, v2) => {
                let bv1 = match self.get_value(Some(*ty), v1) {
                    Ok(v) => v,
                    Err(e) => {
                        return Err(e);
                    },
                };
                let bv2 = match self.get_value(Some(*ty), v2) {
                    Ok(v) => v,
                    Err(e) => {
                        return Err(e);
                    },
                };
                if bv1.get_width() != bv2.get_width() {
                    return Err(Error::InvalidSubtyping);
                }
                Ok(self.perform_compare(dest_ty, op, bv1, bv2))
            },
            Instr::Ext(ty, v) => {
                let bv = match self.get_value(None, v) {
                    Ok(x) => x,
                    Err(e) => {
                        return Err(e);
                    },
                };
                let to_type = self.v.trunc_to(*ty, bv);
                if ty.is_signed() {
                    Ok(self.v.sign_ext_to(dest_ty, to_type))
                } else {
                    Ok(self.v.zero_ext_to(dest_ty, to_type))
                }
            },
        }
    }

    /// Execute a store: resolve the value and the address, bring the value
    /// to the store's width, and write it as big-endian bytes.
    fn exec_volatile(&mut self, instr: &VolatileInstr) -> (r: Result<(), Error>)
        requires
            old(self).wf(),
            old(self).st().frames().len() > 0,
        ensures
            final(self).wf(),
            final(self).st().frames() == old(self).st().frames(),
            final(self).st().tables_unchanged(&old(self).st()),
            final(self).st().stack_ptr() == old(self).st().stack_ptr(),
            final(self).at_branch() == old(self).at_branch(),
            final(self).acts@ == old(self).acts@,
            match r {
                Ok(_) => store_err(old(self).st(), *instr) is None,
                Err(e) => store_err(old(self).st(), *instr) matches Some(k) && err_matches(e, k),
            },
            r is Ok <==> store_err(old(self).st(), *instr) is None,
    {
        proof {
            lemma_top_wide(self.state);
        }
        match instr {
            VolatileInstr::Store(ty, v, a) => {
                let value = match self.get_value(None, v) {
                    Ok(x) => x,
                    Err(e) => {
                        return Err(e);
                    },
                };
                let addr = match self.get_value(None, a) {
                    Ok(x) => x,
                    Err(e) => {
                        return Err(e);
                    },
                };
                if addr.get_width() != 64 {
                    return Err(Error::InvalidSubtyping);
                }
                let cast = self.v.cast_to(*ty, value);
                self.state.store_bits(addr, cast);
                Ok(())
            },
        }
    }

    /// Collect the argument bit-vectors of a call: each call parameter
    /// names a temporary of the caller's frame, and a sub-word-typed
    /// parameter is promoted to a word with unconstrained high bits.
    fn lookup_params(&self, params: &Vec<FuncParam>) -> (r: Result<Vec<SymBV>, Error>)
        requires
            self.st().wf(),
            self.st().frames().len() > 0,
            top_wide(self.st()),
        ensures
            match r {
                Ok(vs) => {
                    &&& vs@.len() == params@.len()
                    &&& forall|i: int|
                        0 <= i < vs@.len() ==> param_arg_ok(
                            self.st(),
                            params@[i],
                            #[trigger] vs@[i],
                        )
                    &&& forall|i: int| 0 <= i < vs@.len() ==> (#[trigger] vs@[i]).width() >= 1
                },
                Err(e) => params_err(self.st(), params@) matches Some(k) && err_matches(e, k),
            },
            r is Ok <==> params_err(self.st(), params@) is None,
    {
        let mut vec: Vec<SymBV> = Vec::new();
        let mut i: usize = 0;
        proof {
            assert(params@.skip(0) =~= params@);
        }
        while i < params.len()
            invariant
                self.state.wf(),
                self.state.frames().len() > 0,
                top_wide(self.state),
                i <= params@.len(),
                vec@.len() == i,
                params_err(self.state, params@.skip(i as int)) == params_err(
                    self.state,
                    params@,
                ),
                forall|j: int|
                    0 <= j < vec@.len() ==> param_arg_ok(
                        self.state,
                        params@[j],
                        #[trigger] vec@[j],
                    ),
                forall|j: int| 0 <= j < vec@.len() ==> (#[trigger] vec@[j]).width() >= 1,
            decreases params@.len() - i,
        {
            proof {
                assert(params@.skip(i as int)[0] == params@[i as int]);
                assert(params@.skip(i as int).drop_first() =~= params@.skip(i as int + 1));
            }
            let p = &params[i];
            let val = match self.state.get_local(p.name.as_str()) {
                Some(v) => v,
                None => {
                    return Err(Error::UnknownVariable(p.name.clone()));
                },
            };
            proof {
                assert(self.state.frames().last() == self.state.frames()[
                    self.state.frames().len() - 1
                ]);
            }

            // A call parameter declared with a sub-word type hands the
            // callee a word whose most significant bits are unspecified.
            let val = match p.ty {
                Type::SubWord(swty) => {
                    let sz = subw_size(swty);
                    if val.get_width() != sz {
                        return Err(Error::InvalidSubtyping);
                    }
                    self.v.extend_subword(swty, val)
                },
                Type::Base(_) => val,
            };
            vec.push(val);
            i = i + 1;
        }
        proof {
            assert(params@.skip(params@.len() as int) =~= Seq::<FuncParam>::empty());
        }
        Ok(vec)
    }

    /// A fresh symbolic bit-vector of a declared type's width.
    fn symbolic_type(&self, name: String, ty: &Type) -> (r: SymBV)
        requires
            crate::value::no_nul(name@),
        ensures
            r.width() == crate::types::type_bits(*ty),
    {
        match ty {
            Type::Base(b) => self.v.from_base(*b, name),
            Type::SubWord(s) => self.v.from_subw(*s, name),
        }
    }

    /// A fresh symbolic bit-vector for one formal parameter, named after
    /// the function and the parameter.
    fn make_symbolic(&self, fname: &str, param: &FuncParam) -> (r: SymBV)
        requires
            crate::value::no_nul(fname@),
            crate::value::no_nul(param.name@),
        ensures
            r.width() == crate::types::type_bits(param.ty),
    {
        let mut name = fname.to_owned();
        name.append(":");
        proof {
            reveal_strlit(":");
            crate::value::lemma_no_nul_concat(fname@, ":"@);
        }
        name.append(param.name.as_str());
        proof {
            crate::value::lemma_no_nul_concat(fname@ + ":"@, param.name@);
        }
        self.symbolic_type(name, &param.ty)
    }

    /// Push a frame and an activation for a call of the function at
    /// `func_idx` with the given arguments. The frame is pushed before the
    /// arity is checked, as a failed call leaves its frame behind.
    #[verifier::rlimit(80)]
    fn enter_func(&mut self, func_idx: usize, params: Vec<SymBV>, dest: Option<String>) -> (r:
        Result<(), Error>)
        requires
            old(self).wf(),
            old(self).pending is None,
            func_idx < old(self).st().funcs().len(),
            forall|i: int| 0 <= i < params@.len() ==> (#[trigger] params@[i]).width() >= 1,
        ensures
            final(self).wf(),
            final(self).at_branch() == false,
            final(self).st().tables_unchanged(&old(self).st()),
            final(self).st().stack_ptr() == old(self).st().stack_ptr(),
            final(self).log_view() == old(self).log_view(),
            final(self).st().frames().len() == old(self).st().frames().len() + 1,
            final(self).st().frames().drop_last() == old(self).st().frames(),
            final(self).st().top_func_idx() == func_idx,
            final(self).st().frames().last().saved_sp == old(self).st().stack_ptr(),
            match r {
                Ok(_) => final(self).acts@.len() == old(self).acts@.len() + 1,
                Err(e) => (e is InvalidCall || e is MissingJump) && final(self).acts@.len() == old(self).acts@.len(),
            },
            ({
                let callee = old(self).st().funcs()[func_idx as int];
                &&& ((r matches Err(e) && e is InvalidCall) <==> callee.params@.len()
                    != params@.len())
                &&& ((r matches Err(e) && e is MissingJump) <==> callee.params@.len()
                    == params@.len() && callee.body@.len() == 0)
                &&& (r is Ok <==> callee.params@.len() == params@.len() && callee.body@.len()
                    > 0)
                &&& (callee.params@.len() == params@.len() ==> binds_formals(
                    callee,
                    params@,
                    final(self).st().locals(),
                ))
                &&& (r is Ok ==> final(self).acts_view() == old(self).acts_view().push(
                    entry_act(
                        func_idx as int,
                        match dest {
                            Some(s) => Some(s@),
                            None => None,
                        },
                    ),
                ))
                &&& (r is Err ==> final(self).acts_view() == old(self).acts_view())
            }),
    {
        let ghost formals = old(self).state.funcs()[func_idx as int].params@;
        self.state.push_func(func_idx);

        let nparams = self.state.func_at(func_idx).params.len();
        if nparams != params.len() {
            return Err(Error::InvalidCall);
        }

        let mut i: usize = 0;
        let mut args = params;
        proof {
            assert(args@.skip(0) =~= args@);
        }
        while i < nparams
            invariant
                self.wf(),
                self.state.tables_unchanged(&old(self).state),
                self.pending is None,
                func_idx < self.state.funcs().len(),
                formals == self.state.funcs()[func_idx as int].params@,
                self.state.frames().len() == old(self).state.frames().len() + 1,
                self.state.frames().drop_last() == old(self).state.frames(),
                self.state.top_func_idx() == func_idx,
                self.state.frames().last().saved_sp == old(self).state.stack_ptr(),
                self.state.stack_ptr() == old(self).state.stack_ptr(),
                self.acts@ == old(self).acts@,
                self.log@ == old(self).log@,
                nparams == formals.len(),
                nparams == params@.len(),
                i <= nparams,
                args@ == params@.skip(i as int),
                forall|j: int| 0 <= j < args@.len() ==> (#[trigger] args@[j]).width() >= 1,
                forall|q: int|
                    0 <= q < i ==> self.state.locals().dom().contains(
                        (#[trigger] formals[q]).name@,
                    ),
                forall|q: int|
                    (0 <= q < i && unshadowed_until(formals, q, i as int))
                        ==> self.state.locals()[(#[trigger] formals[q]).name@] == params@[q],
            decreases nparams - i,
        {
            proof {
                assert(params@.skip(i as int)[0] == params@[i as int]);
                assert(params@.skip(i as int).drop_first() =~= params@.skip(i as int + 1));
            }
            let name = self.state.func_at(func_idx).params[i].name.clone();
            let bv = args.remove(0);
            let ghost pre_locals = self.state.locals();
            self.state.add_local(name.as_str(), bv);
            proof {
                assert(self.state.frames().drop_last() =~= old(self).state.frames());
                assert(self.state.locals() == pre_locals.insert(
                    formals[i as int].name@,
                    params@[i as int],
                ));
                assert forall|q: int|
                    (0 <= q < i + 1 && unshadowed_until(formals, q, i as int + 1))
                        implies self.state.locals()[(#[trigger] formals[q]).name@] == params@[
                    q
                ] by {
                    if q < i {
                        assert(formals[i as int].name@ != formals[q].name@);
                        assert(unshadowed_until(formals, q, i as int));
                        assert(pre_locals[formals[q].name@] == params@[q]);
                    }
                }
            }
            i = i + 1;
        }

        if self.state.func_at(func_idx).body.len() == 0 {
            return Err(Error::MissingJump);
        }

        let ghost gdest: Option<Seq<char>> = match &dest {
            Some(s) => Some(s@),
            None => None,
        };
        self.acts.push(
            Activation {
                func_idx,
                iter_idx: 1,
                cur_func: func_idx,
                cur_block: 0,
                stmt_idx: 0,
                dest,
            },
        );
        proof {
            assert(final(self).acts_view() =~= old(self).acts_view().push(
                entry_act(func_idx as int, gdest),
            ));
        }
        Ok(())
    }

    /// Execute one statement. An assignment or a store completes here; a
    /// call reports which function to enter with which arguments.
    fn exec_stat(&mut self, stat: &Statement) -> (r: Result<StatAction, Error>)
        requires
            old(self).wf(),
            old(self).st().frames().len() > 0,
        ensures
            final(self).wf(),
            final(self).st().tables_unchanged(&old(self).st()),
            final(self).st().frames().len() == old(self).st().frames().len(),
            final(self).at_branch() == old(self).at_branch(),
            final(self).acts@ == old(self).acts@,
            r is Ok <==> stat_err(old(self).st(), *stat) is None,
            (r matches Err(e) ==> stat_err(old(self).st(), *stat) matches Some(k) && err_matches(
                e,
                k,
            )),
            match *stat {
                Statement::Assign(_d2, _t2, i2) => match i2 {
                    Instr::Alloc(al, sz) => final(self).st().stack_ptr() == wrap64(
                        align_up(old(self).st().stack_ptr(), align_bytes(al)) + sz,
                    ),
                    _ => final(self).st().stack_ptr() == old(self).st().stack_ptr(),
                },
                _ => final(self).st().stack_ptr() == old(self).st().stack_ptr(),
            },
            match r {
                Ok(StatAction::Done) => match *stat {
                    Statement::Assign(d, t, i) => exists|bv: SymBV|
                        final(self).st().locals() == old(self).st().locals().insert(d@, bv)
                            && #[trigger] bv.width() == inst_width(old(self).st(), t, i),
                    Statement::Volatile(_) => final(self).st().frames() == old(self).st().frames(),
                    Statement::Call(_, _, _, _) => false,
                },
                Ok(StatAction::Call { func_idx, args, dest }) => match *stat {
                    Statement::Call(d0, _t, fname, ps) => {
                        &&& func_idx < old(self).st().funcs().len()
                        &&& find_last_func(old(self).st().funcs(), fname@) == Some(
                            func_idx as int,
                        )
                        &&& final(self).st() == old(self).st()
                        &&& args@.len() == ps@.len()
                        &&& forall|i: int|
                            0 <= i < args@.len() ==> param_arg_ok(
                                old(self).st(),
                                ps@[i],
                                #[trigger] args@[i],
                            )
                        &&& forall|i: int|
                            0 <= i < args@.len() ==> (#[trigger] args@[i]).width() >= 1
                        &&& match (d0, dest) {
                            (Some(x), Some(y)) => x@ == y@,
                            (None, None) => true,
                            _ => false,
                        }
                    },
                    _ => false,
                },
                Err(_) => true,
            },
    {
        proof {
            lemma_top_wide(self.state);
        }
        match stat {
            Statement::Assign(dest, base, inst) => {
                let result = match self.exec_inst(*base, inst) {
                    Ok(v) => v,
                    Err(e) => {
                        return Err(e);
                    },
                };
                proof {
                    assert(result.width() >= 1);
                }
                self.state.add_local(dest.as_str(), result);
                proof {
                    lemma_widths_wf_after_add(
                        old(self).state.frames(),
                        self.state.frames(),
                        dest@,
                        result,
                    );
                }
                Ok(StatAction::Done)
            },
            Statement::Volatile(instr) => {
                match self.exec_volatile(instr) {
                    Ok(_) => Ok(StatAction::Done),
                    Err(e) => Err(e),
                }
            },
            Statement::Call(dest, _ty, fname, params) => {
                let values = match self.lookup_params(params) {
                    Ok(v) => v,
                    Err(e) => {
                        return Err(e);
                    },
                };
                let func_idx = match self.state.find_func(fname.as_str()) {
                    Some(i) => i,
                    None => {
                        return Err(Error::UnknownFunction(fname.clone()));
                    },
                };
                proof {
                    crate::state::lemma_find_last_func(self.state.funcs(), fname@);
                }
                let d = match dest {
                    Some(s) => Some(s.clone()),
                    None => None,
                };
                Ok(StatAction::Call { func_idx, args: values, dest: d })
            },
        }
    }

    /// Evaluate a terminator: the single target of a jump, the guarded
    /// arms of a conditional jump filtered by feasibility, the value of a
    /// return, or the halt signal.
    ///
    /// A conditional jump tests the zero arm first; when both arms are
    /// feasible it reports both, and when only one is, that arm is taken
    /// without a second guard.
    fn exec_jump(&mut self, instr: &JumpInstr) -> (r: Result<FuncReturn, Error>)
        requires
            old(self).wf(),
            old(self).st().frames().len() > 0,
        ensures
            final(self).wf(),
            final(self).st() == old(self).st(),
            final(self).st().frames() == old(self).st().frames(),
            final(self).st().tables_unchanged(&old(self).st()),
            final(self).st().stack_ptr() == old(self).st().stack_ptr(),
            final(self).at_branch() == old(self).at_branch(),
            final(self).acts@ == old(self).acts@,
            old(self).log_view().is_prefix_of(final(self).log_view()),
            match r {
                Ok(FuncReturn::Jump(p)) => p.target < final(self).st().funcs()[
                    final(self).st().top_func_idx()
                ].body@.len(),
                Ok(FuncReturn::CondJump(p1, p2)) => p1.target < final(self).st().funcs()[
                    final(self).st().top_func_idx()
                ].body@.len() && p2.target < final(self).st().funcs()[
                    final(self).st().top_func_idx()
                ].body@.len(),
                Ok(FuncReturn::Return(v)) => v matches Some(bv) ==> bv.width() >= 1,
                Err(_) => true,
            },
            match *instr {
                JumpInstr::Halt => r matches Err(e) && e is HaltExecution,
                JumpInstr::Jump(l) => match find_last_block(
                    old(self).st().funcs()[old(self).st().top_func_idx()].body@,
                    l@,
                ) {
                    Some(t) => r matches Ok(FuncReturn::Jump(p)) && p.target == t
                        && !p.guarded(),
                    None => r matches Err(e) && e matches Error::UnknownLabel(s2) && s2@ == l@,
                },
                JumpInstr::Return(ov) => match ov {
                    None => r matches Ok(FuncReturn::Return(v2)) && v2 is None,
                    Some(x) => match value_err(old(self).st(), None, x) {
                        Some(k) => r matches Err(e) && err_matches(e, k),
                        None => r matches Ok(FuncReturn::Return(v2)) && v2 matches Some(bv)
                            && untouched(old(self).st(), x, bv),
                    },
                },
                JumpInstr::Jnz(v, nz, z) => match value_err(
                    old(self).st(),
                    Some(BaseType::Word),
                    v,
                ) {
                    Some(k) => r matches Err(e) && err_matches(e, k),
                    None => match find_last_block(
                        old(self).st().funcs()[old(self).st().top_func_idx()].body@,
                        nz@,
                    ) {
                        None => r matches Err(e) && e matches Error::UnknownLabel(s2) && s2@
                            == nz@,
                        Some(tn) => match find_last_block(
                            old(self).st().funcs()[old(self).st().top_func_idx()].body@,
                            z@,
                        ) {
                            None => r matches Err(e) && e matches Error::UnknownLabel(s2) && s2@
                                == z@,
                            Some(tz) => {
                                ||| (r matches Err(e) && e is SolverUnknown)
                                ||| (r matches Ok(FuncReturn::CondJump(p1, p2)) && p1.target
                                    == tn && p2.target == tz && p1.guarded() && p2.guarded())
                                ||| (r matches Ok(FuncReturn::Jump(p)) && (p.target == tn
                                    || p.target == tz) && p.guarded())
                            },
                        },
                    },
                },
            },
    {
        proof {
            lemma_top_wide(self.state);
        }
        match instr {
            JumpInstr::Jump(label) => {
                let target = match self.state.find_block(label.as_str()) {
                    Some(i) => i,
                    None => {
                        return Err(Error::UnknownLabel(label.clone()));
                    },
                };
                Ok(FuncReturn::Jump(Path { cond: None, target }))
            },
            JumpInstr::Jnz(value, nzero_label, zero_label) => {
                let bv = match self.get_value(Some(BaseType::Word), value) {
                    Ok(v) => v,
                    Err(e) => {
                        return Err(e);
                    },
                };
                let zero_word = self.v.make_word(0);
                let is_zero = bv_eq(&bv, &zero_word);
                let not_zero = bool_not(&is_zero);

                let nzero_target = match self.state.find_block(nzero_label.as_str()) {
                    Some(i) => i,
                    None => {
                        return Err(Error::UnknownLabel(nzero_label.clone()));
                    },
                };
                let zero_target = match self.state.find_block(zero_label.as_str()) {
                    Some(i) => i,
                    None => {
                        return Err(Error::UnknownLabel(zero_label.clone()));
                    },
                };
                let nzero_path = Path { cond: Some(not_zero), target: nzero_target };
                let zero_path = Path { cond: Some(is_zero), target: zero_target };

                let zero_feasible = match zero_path.feasible(&mut self.solver) {
                    Ok(b) => b,
                    Err(e) => {
                        return Err(e);
                    },
                };
                if zero_feasible {
                    let nzero_feasible = match nzero_path.feasible(&mut self.solver) {
                        Ok(b) => b,
                        Err(e) => {
                            return Err(e);
                        },
                    };
                    if nzero_feasible {
                        Ok(FuncReturn::CondJump(nzero_path, zero_path))
                    } else {
                        Ok(FuncReturn::Jump(zero_path))
                    }
                } else {
                    Ok(FuncReturn::Jump(nzero_path))
                }
            },
            JumpInstr::Return(opt_val) => match opt_val {
                Some(x) => {
                    let v = match self.get_value(None, x) {
                        Ok(v) => v,
                        Err(e) => {
                            return Err(e);
                        },
                    };
                    Ok(FuncReturn::Return(Some(v)))
                },
                None => Ok(FuncReturn::Return(None)),
            },
            JumpInstr::Halt => {
                self.log.push("Halting executing".to_owned());
                Err(Error::HaltExecution)
            },
        }
    }

    /// Enter a path: note it in the log, assert its guard if it has one,
    /// and place the innermost activation at its target block.
    fn explore_path(&mut self, path: Path)
        requires
            old(self).wf(),
            old(self).acts@.len() > 0,
            old(self).st().frames().len() > 0,
            path.target < old(self).st().funcs()[old(self).st().top_func_idx()].body@.len(),
        ensures
            final(self).wf(),
            final(self).acts@.len() == old(self).acts@.len(),
            final(self).st() == old(self).st(),
            final(self).at_branch() == old(self).at_branch(),
            final(self).acts_view() == old(self).acts_view().update(
                old(self).acts_view().len() - 1,
                retargeted(
                    old(self).acts_view().last(),
                    old(self).st().top_func_idx(),
                    path.target as int,
                ),
            ),
            old(self).log_view().is_prefix_of(final(self).log_view()),
    {
        let tf = self.state.top_func_index();
        let target_label = self.state.func_at(tf).body[path.target].label.clone();
        let mut line = "[jnz] Exploring path for label '".to_owned();
        line.append(target_label.as_str());
        line.append("'");
        self.log.push(line);

        if let Some(c) = &path.cond {
            self.solver.assert_cond(c);
        }

        let ao = self.acts.pop();
        let mut a = ao.unwrap();
        a.cur_func = tf;
        a.cur_block = path.target;
        a.stmt_idx = 0;
        self.acts.push(a);
        proof {
            assert(acts_ok(self.acts@, self.state.funcs()));
            assert(final(self).acts_view() =~= old(self).acts_view().update(
                old(self).acts_view().len() - 1,
                retargeted(
                    old(self).acts_view().last(),
                    old(self).st().top_func_idx(),
                    path.target as int,
                ),
            ));
        }
    }

    /// Push the dump of the current state onto the log: the solver is
    /// asked for a model, and the innermost frame's bindings and the
    /// model's assignments are rendered. A missing model is an error.
    pub fn dump(&mut self) -> (r: Result<(), Error>)
        requires
            old(self).wf(),
            old(self).st().frames().len() > 0,
        ensures
            final(self).wf(),
            final(self).st() == old(self).st(),
            final(self).acts_view() == old(self).acts_view(),
            final(self).at_branch() == old(self).at_branch(),
            r is Err ==> (r matches Err(e) && e is MissingModel),
            old(self).log_view().is_prefix_of(final(self).log_view()),
            final(self).log_view().len() > old(self).log_view().len(),
            r is Ok ==> final(self).log_view().len() >= old(self).log_view().len() + 3,
    {
        let _ = self.solver.check();

        self.log.push("Local variables:".to_owned());
        let mut lines = self.state.dump_locals();
        let mut i: usize = 0;
        while i < lines.len()
            invariant
                self.wf(),
                self.state == old(self).state,
                self.acts@ == old(self).acts@,
                self.at_branch() == old(self).at_branch(),
                old(self).log_view().is_prefix_of(self.log_view()),
                self.log_view().len() > old(self).log_view().len(),
            decreases lines@.len() - i,
        {
            let mut taken = String::new();
            std::mem::swap(&mut taken, &mut lines[i]);
            self.log.push(taken);
            i = i + 1;
        }

        match self.solver.model_text() {
            None => Err(Error::MissingModel),
            Some(m) => {
                self.log.push("Symbolic variable values:".to_owned());
                self.log.push(m);
                Ok(())
            },
        }
    }

    /// Perform one transition of the machine: execute the next statement
    /// of the innermost activation, or its block's terminator.
    ///
    /// The caller drives execution by calling `step` until it reports
    /// [`Step::Done`], pauses at a [`Step::Branch`], or fails. The second
    /// ensures block is the transition relation: what the statement or
    /// terminator at the machine's position does to the state, the
    /// control stack and the outcome.
    #[verifier::rlimit(100)]
    pub fn step(&mut self) -> (r: Result<Step, Error>)
        requires
            old(self).wf(),
            !old(self).at_branch(),
            old(self).acts_len() > 0,
        ensures
            final(self).wf(),
            match r {
                Ok(Step::Running) => !final(self).at_branch() && final(self).acts_len() > 0,
                Ok(Step::Branch) => final(self).at_branch(),
                Ok(Step::Done(v)) => !final(self).at_branch() && final(self).acts_len() == 0
                    && final(self).st().frames().len() > 0 && (v matches Some(bv) ==> bv.width()
                    >= 1),
                Err(_) => true,
            },
            ({
                let a0 = old(self).acts_view().last();
                let stq = old(self).st();
                &&& (at_stmt(stq, a0) ==> {
                    let s0 = cur_stmt(stq, a0);
                    &&& (r matches Ok(stp) ==> stp is Running)
                    &&& (r matches Err(e) ==> match stat_err(stq, s0) {
                        Some(k) => err_matches(e, k),
                        None => e is InvalidCall || e is MissingJump,
                    })
                    &&& (s0 matches Statement::Assign(d, t, ins) ==> r is Ok ==> {
                        &&& final(self).acts_view() == old(self).acts_view().update(
                            old(self).acts_view().len() - 1,
                            stmt_advanced(a0),
                        )
                        &&& final(self).st().frames().len() == stq.frames().len()
                        &&& exists|bv: SymBV|
                            final(self).st().locals() == stq.locals().insert(d@, bv)
                                && #[trigger] bv.width() == inst_width(stq, t, ins)
                    })
                    &&& (s0 matches Statement::Volatile(_) ==> r is Ok ==> {
                        &&& final(self).acts_view() == old(self).acts_view().update(
                            old(self).acts_view().len() - 1,
                            stmt_advanced(a0),
                        )
                        &&& final(self).st().frames() == stq.frames()
                    })
                    &&& (s0 matches Statement::Call(d0, _t0, fname, ps) ==> r is Ok ==> {
                        let fi = find_last_func(stq.funcs(), fname@).unwrap();
                        &&& find_last_func(stq.funcs(), fname@) is Some
                        &&& final(self).st().frames().len() == stq.frames().len() + 1
                        &&& final(self).st().top_func_idx() == fi
                        &&& final(self).acts_view() == old(self).acts_view().update(
                            old(self).acts_view().len() - 1,
                            stmt_advanced(a0),
                        ).push(
                            entry_act(
                                fi,
                                match d0 {
                                    Some(x) => Some(x@),
                                    None => None,
                                },
                            ),
                        )
                        &&& exists|args: Seq<SymBV>|
                            {
                                &&& args.len() == ps@.len()
                                &&& (forall|q: int|
                                    0 <= q < args.len() ==> param_arg_ok(
                                        stq,
                                        ps@[q],
                                        #[trigger] args[q],
                                    ))
                                &&& #[trigger] binds_formals(
                                    stq.funcs()[fi],
                                    args,
                                    final(self).st().locals(),
                                )
                            }
                    })
                })
                &&& (!at_stmt(stq, a0) ==> match cur_block_of(stq, a0).jump {
                    None => if a0.iter_idx < stq.funcs()[a0.func_idx].body@.len() {
                        &&& r matches Ok(Step::Running)
                        &&& final(self).st() == stq
                        &&& final(self).acts_view() == old(self).acts_view().update(
                            old(self).acts_view().len() - 1,
                            fell_through(a0),
                        )
                    } else {
                        (r matches Err(e) && e is MissingJump) && final(self).st() == stq
                    },
                    Some(j) => match j {
                        JumpInstr::Halt => {
                            &&& (r matches Err(e) ==> e is MissingModel)
                            &&& (r is Ok ==> {
                                &&& final(self).st().frames() == stq.frames()
                                &&& final(self).acts_view() == old(self).acts_view().drop_last()
                                &&& old(self).log_view().is_prefix_of(final(self).log_view())
                                &&& (old(self).acts_view().len() == 1 ==> (r matches Ok(
                                    Step::Done(v2),
                                ) && v2 is None))
                                &&& (old(self).acts_view().len() > 1 ==> r matches Ok(
                                    Step::Running,
                                ))
                            })
                        },
                        JumpInstr::Return(ov) => {
                            &&& (ov matches Some(x) ==> value_err(stq, None, x) is Some ==> (r
                                matches Err(e) && err_matches(
                                e,
                                value_err(stq, None, x).unwrap(),
                            )))
                            &&& ((ov is None || value_err(stq, None, ov.unwrap()) is None)
                                ==> if stq.frames().len() == 1 {
                                &&& (r matches Err(e) ==> e is MissingModel)
                                &&& (r is Ok ==> {
                                    &&& final(self).st().frames() == stq.frames()
                                    &&& final(self).acts_view() == old(self).acts_view().drop_last()
                                    &&& old(self).log_view().is_prefix_of(
                                        final(self).log_view(),
                                    )
                                    &&& (old(self).acts_view().len() == 1 ==> (r matches Ok(
                                        Step::Done(v2),
                                    ) && v2 is None))
                                    &&& (old(self).acts_view().len() > 1 ==> r matches Ok(
                                        Step::Running,
                                    ))
                                })
                            } else {
                                &&& r is Ok
                                &&& final(self).st().frames().len() == stq.frames().len() - 1
                                &&& final(self).st().stack_ptr() == stq.frames().last().saved_sp
                                &&& final(self).acts_view() == old(self).acts_view().drop_last()
                                &&& (old(self).acts_view().len() == 1 ==> (r matches Ok(
                                    Step::Done(v2),
                                ) && (ov is None ==> v2 is None) && (ov matches Some(x) ==> v2
                                    matches Some(bv) && untouched(stq, x, bv))))
                                &&& (old(self).acts_view().len() > 1 ==> {
                                    &&& r matches Ok(Step::Running)
                                    &&& ((ov is Some && a0.dest is Some) ==> exists|bv: SymBV|
                                        {
                                            &&& #[trigger] untouched(stq, ov.unwrap(), bv)
                                            &&& final(self).st().locals() == stq.frames()[
                                                stq.frames().len() - 2
                                            ].locals.insert(a0.dest.unwrap(), bv)
                                        })
                                    &&& (!(ov is Some && a0.dest is Some) ==> final(self).st().frames() == stq.frames().drop_last())
                                })
                            })
                        },
                        JumpInstr::Jump(l) => match find_last_block(
                            stq.funcs()[stq.top_func_idx()].body@,
                            l@,
                        ) {
                            None => r matches Err(e) && e matches Error::UnknownLabel(s2) && s2@
                                == l@,
                            Some(t) => {
                                &&& r matches Ok(Step::Running)
                                &&& final(self).st() == stq
                                &&& final(self).acts_view() == old(self).acts_view().update(
                                    old(self).acts_view().len() - 1,
                                    retargeted(a0, stq.top_func_idx(), t),
                                )
                            },
                        },
                        JumpInstr::Jnz(v, nz, z) => match value_err(
                            stq,
                            Some(BaseType::Word),
                            v,
                        ) {
                            Some(k) => r matches Err(e) && err_matches(e, k),
                            None => match find_last_block(
                                stq.funcs()[stq.top_func_idx()].body@,
                                nz@,
                            ) {
                                None => r matches Err(e) && e matches Error::UnknownLabel(s2)
                                    && s2@ == nz@,
                                Some(tn) => match find_last_block(
                                    stq.funcs()[stq.top_func_idx()].body@,
                                    z@,
                                ) {
                                    None => r matches Err(e) && e matches Error::UnknownLabel(
                                        s2,
                                    ) && s2@ == z@,
                                    Some(tz) => {
                                        ||| (r matches Err(e) && e is SolverUnknown)
                                        ||| (r matches Ok(Step::Branch) && final(self).pending_targets() == Some((tn, tz)) && final(self).acts_view() == old(self).acts_view() && final(self).st() == stq)
                                        ||| (r matches Ok(Step::Running) && final(self).st()
                                            == stq && (final(self).acts_view() == old(self).acts_view().update(
                                            old(self).acts_view().len() - 1,
                                            retargeted(a0, stq.top_func_idx(), tn),
                                        ) || final(self).acts_view() == old(self).acts_view().update(
                                            old(self).acts_view().len() - 1,
                                            retargeted(a0, stq.top_func_idx(), tz),
                                        )))
                                    },
                                },
                            },
                        },
                    },
                })
            }),
    {
        let ghost a0 = old(self).acts_view().last();
        let ghost stq = old(self).st();

        let ao = self.acts.pop();
        let mut a = ao.unwrap();
        proof {
            assert(a.model() == a0);
            assert(self.acts_view() =~= old(self).acts_view().drop_last());
        }

        let blk_len = self.state.func_at(a.cur_func).body[a.cur_block].inst.len();
        if a.stmt_idx < blk_len {
            assert(at_stmt(stq, a0));
            let stmt = self.state.func_at(a.cur_func).body[a.cur_block].inst[a.stmt_idx].dup();
            proof {
                assert(crate::types::stmt_eq(stmt, cur_stmt(stq, a0)));
                lemma_stat_err_congruent(stq, stmt, cur_stmt(stq, a0));
            }
            a.stmt_idx = a.stmt_idx + 1;
            proof {
                assert(a.model() == stmt_advanced(a0));
            }
            let action = match self.exec_stat(&stmt) {
                Ok(act) => act,
                Err(e) => {
                    return Err(e);
                },
            };
            self.acts.push(a);
            proof {
                assert(self.acts_view() =~= old(self).acts_view().update(
                    old(self).acts_view().len() - 1,
                    stmt_advanced(a0),
                ));
            }
            match action {
                StatAction::Done => Ok(Step::Running),
                StatAction::Call { func_idx, args, dest } => {
                    let ghost gargs = args@;
                    match self.enter_func(func_idx, args, dest) {
                        Ok(_) => {
                            proof {
                                assert(binds_formals(
                                    stq.funcs()[func_idx as int],
                                    gargs,
                                    final(self).st().locals(),
                                ));
                            }
                            Ok(Step::Running)
                        },
                        Err(e) => Err(e),
                    }
                },
            }
        } else {
            assert(!at_stmt(stq, a0));
            // The block's statements are done: its terminator, or a
            // fall-through to the next block of this activation's
            // function.
            let jump = match &self.state.func_at(a.cur_func).body[a.cur_block].jump {
                Some(j) => j.dup(),
                None => {
                    let flen = self.state.func_at(a.func_idx).body.len();
                    if a.iter_idx < flen {
                        a.cur_func = a.func_idx;
                        a.cur_block = a.iter_idx;
                        a.iter_idx = a.iter_idx + 1;
                        a.stmt_idx = 0;
                        self.acts.push(a);
                        proof {
                            assert(self.acts_view() =~= old(self).acts_view().update(
                                old(self).acts_view().len() - 1,
                                fell_through(a0),
                            ));
                        }
                        return Ok(Step::Running);
                    } else {
                        return Err(Error::MissingJump);
                    }
                },
            };
            proof {
                assert(cur_block_of(stq, a0).jump == Some(jump));
            }

            match self.exec_jump(&jump) {
                Err(e) => {
                    if matches!(e, Error::HaltExecution) {
                        // A halt: dump a model. The halting frame is left
                        // behind, and the caller's execution goes on as if
                        // the call returned nothing.
                        match self.dump() {
                            Ok(_) => {},
                            Err(e2) => {
                                return Err(e2);
                            },
                        }
                        if self.acts.len() == 0 {
                            Ok(Step::Done(None))
                        } else {
                            Ok(Step::Running)
                        }
                    } else {
                        Err(e)
                    }
                },
                Ok(FuncReturn::Return(vopt)) => {
                    if self.state.stack_size() == 1 {
                        // A return from the entry frame halts.
                        self.log.push("Halting executing".to_owned());
                        match self.dump() {
                            Ok(_) => {},
                            Err(e2) => {
                                return Err(e2);
                            },
                        }
                        if self.acts.len() == 0 {
                            Ok(Step::Done(None))
                        } else {
                            Ok(Step::Running)
                        }
                    } else {
                        self.state.pop_func();
                        proof {
                            assert(self.state.frames() == stq.frames().drop_last());
                            assert(self.state.frames().last() == stq.frames()[
                                stq.frames().len() - 2
                            ]);
                        }
                        match (vopt, a.dest) {
                            (Some(v), Some(d)) => {
                                if self.acts.len() == 0 {
                                    return Ok(Step::Done(Some(v)));
                                }
                                proof {
                                    assert(v.width() >= 1);
                                }
                                let ghost pre = self.state.frames();
                                self.state.add_local(d.as_str(), v);
                                proof {
                                    lemma_widths_wf_after_add(pre, self.state.frames(), d@, v);
                                }
                                Ok(Step::Running)
                            },
                            (v, _) => {
                                if self.acts.len() == 0 {
                                    Ok(Step::Done(v))
                                } else {
                                    Ok(Step::Running)
                                }
                            },
                        }
                    }
                },
                Ok(FuncReturn::Jump(path)) => {
                    self.acts.push(a);
                    proof {
                        assert(self.acts_view() =~= old(self).acts_view());
                    }
                    self.explore_path(path);
                    Ok(Step::Running)
                },
                Ok(FuncReturn::CondJump(path1, path2)) => {
                    self.acts.push(a);
                    proof {
                        assert(self.acts_view() =~= old(self).acts_view());
                    }
                    self.pending = Some((path1, path2));
                    Ok(Step::Branch)
                },
            }
        }
    }

    /// Begin executing the function at `func_idx` on the given argument
    /// bit-vectors: a frame is pushed and the machine is placed at the
    /// function's first block, to be driven with [`Interp::step`].
    pub fn exec_func(&mut self, func_idx: usize, params: Vec<SymBV>) -> (r: Result<(), Error>)
        requires
            old(self).wf(),
            old(self).idle(),
            func_idx < old(self).st().funcs().len(),
            forall|i: int| 0 <= i < params@.len() ==> (#[trigger] params@[i]).width() >= 1,
        ensures
            final(self).wf(),
            r is Ok ==> !final(self).at_branch() && final(self).acts_len() > 0,
            final(self).st().tables_unchanged(&old(self).st()),
            final(self).st().frames().len() == old(self).st().frames().len() + 1,
            final(self).st().frames().drop_last() == old(self).st().frames(),
            final(self).st().top_func_idx() == func_idx,
            final(self).st().frames().last().saved_sp == old(self).st().stack_ptr(),
            ({
                let callee = old(self).st().funcs()[func_idx as int];
                &&& ((r matches Err(e) && e is InvalidCall) <==> callee.params@.len()
                    != params@.len())
                &&& ((r matches Err(e) && e is MissingJump) <==> callee.params@.len()
                    == params@.len() && callee.body@.len() == 0)
                &&& (r is Ok <==> callee.params@.len() == params@.len() && callee.body@.len()
                    > 0)
                &&& (callee.params@.len() == params@.len() ==> binds_formals(
                    callee,
                    params@,
                    final(self).st().locals(),
                ))
                &&& (r is Ok ==> final(self).acts_view() == old(self).acts_view().push(
                    entry_act(func_idx as int, None),
                ))
            }),
    {
        self.enter_func(func_idx, params, None)
    }

    /// Execute a function on purely symbolic inputs: each formal parameter
    /// is bound to a fresh symbolic bit-vector of its declared width,
    /// named `function:parameter`.
    pub fn exec_symbolic(&mut self, name: &String) -> (r: Result<(), Error>)
        requires
            old(self).wf(),
            old(self).idle(),
            match find_last_func(old(self).st().funcs(), name@) {
                Some(i) => func_names_ok(old(self).st().funcs()[i]),
                None => true,
            },
        ensures
            final(self).wf(),
            r is Ok ==> !final(self).at_branch() && final(self).acts_len() > 0,
            find_last_func(old(self).st().funcs(), name@) is None <==> (r matches Err(e) && e
                matches Error::UnknownFunction(s) && s@ == name@),
            match find_last_func(old(self).st().funcs(), name@) {
                None => r is Err,
                Some(fi) => {
                    let callee = old(self).st().funcs()[fi];
                    &&& (r is Ok <==> callee.body@.len() > 0)
                    &&& ((r matches Err(e) && e is MissingJump) <==> callee.body@.len() == 0)
                    &&& final(self).st().tables_unchanged(&old(self).st())
                    &&& final(self).st().frames().len() == old(self).st().frames().len() + 1
                    &&& final(self).st().frames().drop_last() == old(self).st().frames()
                    &&& final(self).st().top_func_idx() == fi
                    &&& (exists|args: Seq<SymBV>|
                        {
                            &&& args.len() == callee.params@.len()
                            &&& (forall|i: int|
                                0 <= i < args.len() ==> (#[trigger] args[i]).width()
                                    == crate::types::type_bits(callee.params@[i].ty))
                            &&& #[trigger] binds_formals(
                                callee,
                                args,
                                final(self).st().locals(),
                            )
                        })
                    &&& (r is Ok ==> final(self).acts_view() == old(self).acts_view().push(
                        entry_act(fi, None),
                    ))
                },
            },
    {
        let func_idx = match self.state.find_func(name.as_str()) {
            Some(i) => i,
            None => {
                return Err(Error::UnknownFunction(name.clone()));
            },
        };
        proof {
            crate::state::lemma_find_last_func(self.state.funcs(), name@);
        }

        let nparams = self.state.func_at(func_idx).params.len();
        let mut params: Vec<SymBV> = Vec::new();
        let mut i: usize = 0;
        while i < nparams
            invariant
                self.wf(),
                self.idle(),
                func_idx < self.state.funcs().len(),
                func_names_ok(self.state.funcs()[func_idx as int]),
                nparams == self.state.funcs()[func_idx as int].params@.len(),
                i <= nparams,
                params@.len() == i,
                forall|j: int| 0 <= j < params@.len() ==> (#[trigger] params@[j]).width() >= 1,
                forall|j: int|
                    0 <= j < params@.len() ==> (#[trigger] params@[j]).width()
                        == crate::types::type_bits(
                        self.state.funcs()[func_idx as int].params@[j].ty,
                    ),
            decreases nparams - i,
        {
            let fname = self.state.func_at(func_idx).name.clone();
            let bv = self.make_symbolic(fname.as_str(), &self.state.func_at(func_idx).params[i]);
            proof {
                assert(crate::types::type_bits(
                    self.state.funcs()[func_idx as int].params@[i as int].ty,
                ) >= 8);
            }
            params.push(bv);
            i = i + 1;
        }

        let ghost gargs = params@;
        let r = self.enter_func(func_idx, params, None);
        proof {
            assert(binds_formals(
                old(self).st().funcs()[func_idx as int],
                gargs,
                final(self).st().locals(),
            ));
        }
        r
    }

    /// Continue a machine paused at a two-armed conditional jump, taking
    /// the non-zero arm or the zero arm. The chosen arm's guard joins the
    /// path constraints for good.
    pub fn resume(&mut self, take_nonzero: bool)
        requires
            old(self).wf(),
            old(self).at_branch(),
        ensures
            final(self).wf(),
            !final(self).at_branch(),
            final(self).acts_len() > 0,
            final(self).st() == old(self).st(),
            final(self).acts_view() == old(self).acts_view().update(
                old(self).acts_view().len() - 1,
                retargeted(
                    old(self).acts_view().last(),
                    old(self).st().top_func_idx(),
                    if take_nonzero {
                        old(self).pending_targets().unwrap().0
                    } else {
                        old(self).pending_targets().unwrap().1
                    },
                ),
            ),
            old(self).log_view().is_prefix_of(final(self).log_view()),
    {
        let taken = self.pending.take();
        let (p1, p2) = taken.unwrap();
        let path = if take_nonzero {
            p1
        } else {
            p2
        };
        self.explore_path(path);
    }
}

/// Adding a binding of a wide-enough value keeps every frame's bindings
/// wide enough.
proof fn lemma_widths_wf_after_add(
    pre: Seq<crate::state::FrameModel>,
    post: Seq<crate::state::FrameModel>,
    name: Seq<char>,
    value: SymBV,
)
    requires
        pre.len() > 0,
        post == pre.update(
            pre.len() - 1,
            crate::state::FrameModel {
                func_idx: pre.last().func_idx,
                locals: pre.last().locals.insert(name, value),
                saved_sp: pre.last().saved_sp,
            },
        ),
        value.width() >= 1,
        forall|i: int, n: Seq<char>|
            0 <= i < pre.len() && (#[trigger] pre[i].locals.dom().contains(n)) ==> pre[
                i
            ].locals[n].width() >= 1,
    ensures
        forall|i: int, n: Seq<char>|
            0 <= i < post.len() && (#[trigger] post[i].locals.dom().contains(n)) ==> post[
                i
            ].locals[n].width() >= 1,
{
    assert forall|i: int, n: Seq<char>|
        0 <= i < post.len() && (#[trigger] post[i].locals.dom().contains(n)) implies post[
        i
    ].locals[n].width() >= 1 by {
        if i == pre.len() - 1 {
            if n == name {
            } else {
                assert(pre[i].locals.dom().contains(n));
            }
        } else {
            assert(pre[i].locals.dom().contains(n));
        }
    }
}

/// Width in bits of a sub-word type.
fn subw_size(ty: SubWordType) -> (r: u32)
    ensures
        r == subw_bits(ty),
{
    match ty {
        SubWordType::SignedByte => 8,
        SubWordType::UnsignedByte => 8,
        SubWordType::SignedHalf => 16,
        SubWordType::UnsignedHalf => 16,
    }
}

} // verus!
