//! Abstract syntax of the supported fragment of the QBE intermediate
//! language, together with the bit widths of its types.
//!
//! Floating-point types and constants, thread-local constants, environment
//! and variadic parameters, and aggregate type definitions are not supported
//! by the interpreter; programs are expected to be brought into this
//! representation with those constructs already rejected.
use vstd::prelude::*;

verus! {

pub const BYTE_SIZE: u32 = 8;

pub const HALF_SIZE: u32 = 16;

pub const WORD_SIZE: u32 = 32;

pub const LONG_SIZE: u32 = 64;

/// Integer base types of the IL: `w` (32 bits) and `l` (64 bits).
#[derive(Clone, Copy, PartialEq, Eq, Structural, Debug)]
pub enum BaseType {
    Word,
    Long,
}

/// Extended types: base types plus the sub-word memory types `b` and `h`.
#[derive(Clone, Copy, PartialEq, Eq, Structural, Debug)]
pub enum ExtType {
    Base(BaseType),
    Byte,
    Halfword,
}

/// Signed and unsigned sub-word register types.
#[derive(Clone, Copy, PartialEq, Eq, Structural, Debug)]
pub enum SubWordType {
    SignedByte,
    UnsignedByte,
    SignedHalf,
    UnsignedHalf,
}

/// Types strictly smaller than `l`, as used by `load` and `ext` variants.
#[derive(Clone, Copy, PartialEq, Eq, Structural, Debug)]
pub enum SubLongType {
    SubWord(SubWordType),
    SignedWord,
    UnsignedWord,
}

/// Operand types of the `load` instruction family.
#[derive(Clone, Copy, PartialEq, Eq, Structural, Debug)]
pub enum LoadType {
    Base(BaseType),
    SubLong(SubLongType),
}

/// Types a function parameter can be declared with.
#[derive(Clone, Copy, PartialEq, Eq, Structural, Debug)]
pub enum Type {
    Base(BaseType),
    SubWord(SubWordType),
}

/// Comparison predicates of the `c<op><ty>` instruction family.
#[derive(Clone, Copy, PartialEq, Eq, Structural, Debug)]
pub enum CmpOp {
    Eq,
    Ne,
    Sle,
    Slt,
    Sge,
    Sgt,
    Ule,
    Ult,
    Uge,
    Ugt,
}

/// Alignment selector of the `alloc4`, `alloc8` and `alloc16` instructions.
#[derive(Clone, Copy, PartialEq, Eq, Structural, Debug)]
pub enum AllocAlign {
    Word,
    Long,
    LongLong,
}

/// Constants: integer literals and addresses of named globals.
#[derive(Debug)]
pub enum Const {
    Number(i64),
    Global(String),
}

/// Syntactic operands of instructions.
#[derive(Debug)]
pub enum Value {
    LocalVar(String),
    Const(Const),
}

/// The instructions executed by the interpreter.
#[derive(Debug)]
pub enum Instr {
    Add(Value, Value),
    Sub(Value, Value),
    Mul(Value, Value),
    Rem(Value, Value),
    URem(Value, Value),
    Compare(BaseType, CmpOp, Value, Value),
    Load(LoadType, Value),
    Alloc(AllocAlign, u64),
    Ext(SubLongType, Value),
}

/// Instructions executed for their side effect on memory.
#[derive(Debug)]
pub enum VolatileInstr {
    Store(ExtType, Value, Value),
}

/// A (call-site or declaration) parameter: a declared type and a name.
#[derive(Debug)]
pub struct FuncParam {
    pub ty: Type,
    pub name: String,
}

/// Statements of a block body.
#[derive(Debug)]
pub enum Statement {
    Assign(String, BaseType, Instr),
    Volatile(VolatileInstr),
    Call(Option<String>, Option<BaseType>, String, Vec<FuncParam>),
}

/// Block terminators.
#[derive(Debug)]
pub enum JumpInstr {
    Jump(String),
    Jnz(Value, String, String),
    Return(Option<Value>),
    Halt,
}

/// A labelled basic block; `jump` is `None` for a fall-through block.
#[derive(Debug)]
pub struct Block {
    pub label: String,
    pub inst: Vec<Statement>,
    pub jump: Option<JumpInstr>,
}

/// A function definition.
#[derive(Debug)]
pub struct FuncDef {
    pub name: String,
    pub params: Vec<FuncParam>,
    pub body: Vec<Block>,
}

/// One element of a data definition.
#[derive(Debug)]
pub enum DataItem {
    Symbol(String, Option<u64>),
    Text(String),
    Number(i64),
}

/// One object of a data definition: typed items, or a run of zero bytes.
#[derive(Debug)]
pub enum DataObj {
    DataItem(ExtType, Vec<DataItem>),
    ZeroFill(u64),
}

/// A data definition.
#[derive(Debug)]
pub struct DataDef {
    pub name: String,
    pub objs: Vec<DataObj>,
}

/// A top-level definition of an IL program.
#[derive(Debug)]
pub enum Definition {
    Func(FuncDef),
    Data(DataDef),
}

/// Width in bits of a base type.
pub open spec fn base_bits(ty: BaseType) -> u32 {
    match ty {
        BaseType::Word => WORD_SIZE,
        BaseType::Long => LONG_SIZE,
    }
}

/// Width in bits of an extended type.
pub open spec fn ext_bits(ty: ExtType) -> u32 {
    match ty {
        ExtType::Base(b) => base_bits(b),
        ExtType::Byte => BYTE_SIZE,
        ExtType::Halfword => HALF_SIZE,
    }
}

/// Width in bits of a sub-word type.
pub open spec fn subw_bits(ty: SubWordType) -> u32 {
    match ty {
        SubWordType::SignedByte => BYTE_SIZE,
        SubWordType::UnsignedByte => BYTE_SIZE,
        SubWordType::SignedHalf => HALF_SIZE,
        SubWordType::UnsignedHalf => HALF_SIZE,
    }
}

/// Width in bits of a sub-long type.
pub open spec fn subl_bits(ty: SubLongType) -> u32 {
    match ty {
        SubLongType::SubWord(s) => subw_bits(s),
        SubLongType::SignedWord => WORD_SIZE,
        SubLongType::UnsignedWord => WORD_SIZE,
    }
}

/// Width in bits of a load type.
pub open spec fn load_bits(ty: LoadType) -> u32 {
    match ty {
        LoadType::Base(b) => base_bits(b),
        LoadType::SubLong(s) => subl_bits(s),
    }
}

/// Width in bits of a parameter type.
pub open spec fn type_bits(ty: Type) -> u32 {
    match ty {
        Type::Base(b) => base_bits(b),
        Type::SubWord(s) => subw_bits(s),
    }
}

/// Byte alignment requested by an `alloc` instruction.
pub open spec fn align_bytes(a: AllocAlign) -> u64 {
    match a {
        AllocAlign::Word => 4,
        AllocAlign::Long => 8,
        AllocAlign::LongLong => 16,
    }
}

/// Whether a sub-long type extends with sign preservation.
pub open spec fn subl_signed(ty: SubLongType) -> bool {
    match ty {
        SubLongType::SubWord(s) => subw_signed(s),
        SubLongType::SignedWord => true,
        SubLongType::UnsignedWord => false,
    }
}

/// Whether a sub-word type extends with sign preservation.
pub open spec fn subw_signed(ty: SubWordType) -> bool {
    match ty {
        SubWordType::SignedByte => true,
        SubWordType::UnsignedByte => false,
        SubWordType::SignedHalf => true,
        SubWordType::UnsignedHalf => false,
    }
}

/// Whether a load type sign-extends values narrower than its destination.
pub open spec fn load_signed(ty: LoadType) -> bool {
    match ty {
        LoadType::Base(_) => false,
        LoadType::SubLong(s) => subl_signed(s),
    }
}

impl SubLongType {
    /// Sign-extension behaviour of this type's `ext` and `load` variants.
    pub fn is_signed(&self) -> (r: bool)
        ensures
            r == subl_signed(*self),
    {
        match self {
            SubLongType::SubWord(s) => s.is_signed(),
            SubLongType::SignedWord => true,
            SubLongType::UnsignedWord => false,
        }
    }
}

impl SubWordType {
    /// Sign-extension behaviour of this type.
    pub fn is_signed(&self) -> (r: bool)
        ensures
            r == subw_signed(*self),
    {
        match self {
            SubWordType::SignedByte => true,
            SubWordType::SignedHalf => true,
            SubWordType::UnsignedByte => false,
            SubWordType::UnsignedHalf => false,
        }
    }
}

impl LoadType {
    /// Sign-extension behaviour of this load type.
    pub fn is_signed(&self) -> (r: bool)
        ensures
            r == load_signed(*self),
    {
        match self {
            LoadType::Base(_) => false,
            LoadType::SubLong(s) => s.is_signed(),
        }
    }
}

impl AllocAlign {
    /// The byte alignment this selector stands for.
    pub fn byte_align(&self) -> (r: u64)
        ensures
            r == align_bytes(*self),
    {
        match self {
            AllocAlign::Word => 4,
            AllocAlign::Long => 8,
            AllocAlign::LongLong => 16,
        }
    }
}

impl Const {
    /// An equal copy of this constant.
    pub fn dup(&self) -> (r: Const)
        ensures
            r == *self,
    {
        match self {
            Const::Number(n) => Const::Number(*n),
            Const::Global(s) => Const::Global(s.clone()),
        }
    }
}

impl Value {
    /// An equal copy of this operand.
    pub fn dup(&self) -> (r: Value)
        ensures
            r == *self,
    {
        match self {
            Value::LocalVar(s) => Value::LocalVar(s.clone()),
            Value::Const(c) => Value::Const(c.dup()),
        }
    }
}

impl Instr {
    /// An equal copy of this instruction.
    pub fn dup(&self) -> (r: Instr)
        ensures
            r == *self,
    {
        match self {
            Instr::Add(a, b) => Instr::Add(a.dup(), b.dup()),
            Instr::Sub(a, b) => Instr::Sub(a.dup(), b.dup()),
            Instr::Mul(a, b) => Instr::Mul(a.dup(), b.dup()),
            Instr::Rem(a, b) => Instr::Rem(a.dup(), b.dup()),
            Instr::URem(a, b) => Instr::URem(a.dup(), b.dup()),
            Instr::Compare(t, o, a, b) => Instr::Compare(*t, *o, a.dup(), b.dup()),
            Instr::Load(t, a) => Instr::Load(*t, a.dup()),
            Instr::Alloc(a, s) => Instr::Alloc(*a, *s),
            Instr::Ext(t, a) => Instr::Ext(*t, a.dup()),
        }
    }
}

impl VolatileInstr {
    /// An equal copy of this instruction.
    pub fn dup(&self) -> (r: VolatileInstr)
        ensures
            r == *self,
    {
        match self {
            VolatileInstr::Store(t, v, a) => VolatileInstr::Store(*t, v.dup(), a.dup()),
        }
    }
}

impl FuncParam {
    /// An equal copy of this parameter.
    pub fn dup(&self) -> (r: FuncParam)
        ensures
            r == *self,
    {
        FuncParam { ty: self.ty, name: self.name.clone() }
    }
}

/// Equality of statements up to the view of their parameter vectors.
pub open spec fn stmt_eq(a: Statement, b: Statement) -> bool {
    match (a, b) {
        (Statement::Assign(d1, t1, i1), Statement::Assign(d2, t2, i2)) => d1 == d2 && t1 == t2
            && i1 == i2,
        (Statement::Volatile(v1), Statement::Volatile(v2)) => v1 == v2,
        (Statement::Call(d1, t1, f1, p1), Statement::Call(d2, t2, f2, p2)) => d1 == d2 && t1 == t2
            && f1 == f2 && p1@ == p2@,
        _ => false,
    }
}

impl Statement {
    /// A copy of this statement, equal up to the view of its parameter vector.
    pub fn dup(&self) -> (r: Statement)
        ensures
            stmt_eq(r, *self),
    {
        match self {
            Statement::Assign(d, t, i) => Statement::Assign(d.clone(), *t, i.dup()),
            Statement::Volatile(v) => Statement::Volatile(v.dup()),
            Statement::Call(d, t, f, ps) => {
                let dest = match d {
                    Some(s) => Some(s.clone()),
                    None => None,
                };
                let mut args: Vec<FuncParam> = Vec::new();
                let mut i: usize = 0;
                while i < ps.len()
                    invariant
                        i <= ps.len(),
                        args@.len() == i as int,
                        forall|j: int| 0 <= j < i ==> args@[j] == ps@[j],
                    decreases ps.len() - i,
                {
                    args.push(ps[i].dup());
                    i = i + 1;
                }
                assert(args@ =~= ps@);
                Statement::Call(dest, *t, f.clone(), args)
            },
        }
    }
}

impl JumpInstr {
    /// An equal copy of this terminator.
    pub fn dup(&self) -> (r: JumpInstr)
        ensures
            r == *self,
    {
        match self {
            JumpInstr::Jump(l) => JumpInstr::Jump(l.clone()),
            JumpInstr::Jnz(v, n, z) => JumpInstr::Jnz(v.dup(), n.clone(), z.clone()),
            JumpInstr::Return(v) => match v {
                Some(x) => JumpInstr::Return(Some(x.dup())),
                None => JumpInstr::Return(None),
            },
            JumpInstr::Halt => JumpInstr::Halt,
        }
    }
}

} // verus!
