//! The interpreter state: the symbolic memory, the concrete layout of
//! global definitions, the stack pointer, and the stack of function frames.
//!
//! Addresses are modelled as plain 64-bit numbers; the bit-vectors handed
//! out to the program are literals of those numbers. All address
//! arithmetic wraps around the 64-bit address space, exactly as the
//! corresponding bit-vector operations would.
use vstd::arithmetic::div_mod::{
    lemma_fundamental_div_mod, lemma_mod_mod, lemma_mod_multiples_basic,
    lemma_mod_sub_multiples_vanish, lemma_small_mod,
};
use vstd::prelude::*;
use vstd::string::StringExecFns;

use crate::error::Error;
use crate::memory::Memory;
use crate::types::{
    ext_bits, Block, DataDef, DataItem, DataObj, Definition, ExtType, FuncDef,
};
use crate::util::{str_chars, str_eq};
use crate::value::{bv_add, SymBV, ValueFactory};

verus! {

/// Bit pattern stored in the cell of each function, standing in for an
/// instruction encoding that the interpreter does not have.
const FUNC_PATTERN: u32 = 0xdeadbeef;

/// Reduction modulo the size of the 64-bit address space.
pub open spec fn wrap64(x: int) -> u64 {
    (x % 0x1_0000_0000_0000_0000) as u64
}

/// The address reached by aligning `p` up to `a`: `(p - p % a) + a`,
/// wrapping. This always advances by at least one alignment unit.
pub open spec fn align_up(p: u64, a: u64) -> u64
    recommends
        a > 0,
{
    wrap64(p - (p % a) + a)
}

/// An alignment that evenly divides the size of the address space: a
/// positive power of two no larger than it.
pub open spec fn align_divides_space(a: u64) -> bool {
    a > 0 && 0x1_0000_0000_0000_0000int % (a as int) == 0
}

/// `u64::wrapping_add` computes reduction modulo the address space size.
pub proof fn lemma_wrapping_add_is_wrap64(a: u64, b: u64)
    ensures
        vstd::wrapping::u64_specs::wrapping_add(a, b) == wrap64(a + b),
{
    if a + b <= u64::MAX {
        lemma_small_mod((a + b) as nat, 0x1_0000_0000_0000_0000nat);
    } else {
        lemma_mod_sub_multiples_vanish(a + b, 0x1_0000_0000_0000_0000int);
        lemma_small_mod((a + b - 0x1_0000_0000_0000_0000) as nat, 0x1_0000_0000_0000_0000nat);
    }
}

/// Stack allocation returns aligned addresses: when the alignment divides
/// the address space, the address `align_up` yields is a multiple of it.
pub proof fn lemma_align_up_aligned(p: u64, a: u64)
    requires
        align_divides_space(a),
    ensures
        align_up(p, a) as int % (a as int) == 0,
{
    let m = 0x1_0000_0000_0000_0000int;
    let x = p - (p % a) + a;
    lemma_fundamental_div_mod(p as int, a as int);
    assert(p - (p % a) == a * (p as int / a as int));
    assert(x == a * (p as int / a as int + 1)) by (nonlinear_arith)
        requires
            x == a * (p as int / a as int) + a,
    ;
    lemma_mod_multiples_basic(p as int / a as int + 1, a as int);
    lemma_fundamental_div_mod(m, a as int);
    let k = m / (a as int);
    assert(m == a * k);
    lemma_mod_mod(x, a as int, k);
    assert((x % m) % (a as int) == x % (a as int));
}

/// Aligning up strictly advances the address when no wrap-around occurs.
pub proof fn lemma_align_up_advances(p: u64, a: u64)
    requires
        a > 0,
        p - (p % a) + a <= u64::MAX,
    ensures
        p < align_up(p, a),
{
    lemma_small_mod((p - (p % a) + a) as nat, 0x1_0000_0000_0000_0000nat);
}

/// Every frame of a stack refers to one of `nfuncs` functions.
pub open spec fn frames_ok(frames: Seq<FrameModel>, nfuncs: int) -> bool {
    forall|i: int|
        0 <= i < frames.len() ==> 0 <= (#[trigger] frames[i]).func_idx < nfuncs
}

/// Function cells lie below the data area: when the function table does
/// not wrap around the address space, every function's address stays at or
/// below the address the data layout starts from.
pub proof fn lemma_func_addrs_below_data(nfuncs: int, i: int)
    requires
        0 <= i < nfuncs,
        4 * nfuncs <= u64::MAX,
    ensures
        wrap64(4 * i) <= wrap64(4 * nfuncs),
{
    lemma_small_mod((4 * i) as nat, 0x1_0000_0000_0000_0000nat);
    lemma_small_mod((4 * nfuncs) as nat, 0x1_0000_0000_0000_0000nat);
}

/// Data definitions lie below the stack: when lowering advances the cursor
/// monotonically — that is, no definition wraps it around the address
/// space — every recorded data address stays at or below the final cursor,
/// which becomes the initial stack pointer.
pub proof fn lemma_data_addrs_below_stack(datas: Seq<DataDef>, base: u64, i: int)
    requires
        0 <= i <= datas.len(),
        forall|j: int|
            0 <= j < datas.len() ==> #[trigger] data_base(datas, j, base) <= data_base(
                datas,
                j + 1,
                base,
            ),
    ensures
        data_base(datas, i, base) <= data_base(datas, datas.len() as int, base),
    decreases datas.len() - i,
{
    if i < datas.len() {
        lemma_data_addrs_below_stack(datas, base, i + 1);
    }
}

/// The stack lies above the globals: an address at or below the stack
/// pointer is strictly below every address a stack allocation returns, as
/// long as the allocation does not wrap around the address space.
pub proof fn lemma_global_below_alloc(g: u64, p: u64, a: u64)
    requires
        g <= p,
        a > 0,
        p - (p % a) + a <= u64::MAX,
    ensures
        g < align_up(p, a),
{
    lemma_align_up_advances(p, a);
}

/// The ghost description of one function frame.
pub ghost struct FrameModel {
    pub func_idx: int,
    pub locals: Map<Seq<char>, SymBV>,
    pub saved_sp: u64,
}

/// The bindings described by an association list, later entries shadowing
/// earlier ones.
pub open spec fn assoc_map(s: Seq<(String, SymBV)>) -> Map<Seq<char>, SymBV>
    decreases s.len(),
{
    if s.len() == 0 {
        Map::empty()
    } else {
        assoc_map(s.drop_last()).insert(s.last().0@, s.last().1)
    }
}

/// The index of the last name equal to `n`, if any.
pub open spec fn find_last_str(names: Seq<Seq<char>>, n: Seq<char>) -> Option<int>
    decreases names.len(),
{
    if names.len() == 0 {
        None
    } else if names.last() == n {
        Some(names.len() - 1)
    } else {
        find_last_str(names.drop_last(), n)
    }
}

/// The index of the last function named `n`, if any.
pub open spec fn find_last_func(funcs: Seq<FuncDef>, n: Seq<char>) -> Option<int>
    decreases funcs.len(),
{
    if funcs.len() == 0 {
        None
    } else if funcs.last().name@ == n {
        Some(funcs.len() - 1)
    } else {
        find_last_func(funcs.drop_last(), n)
    }
}

/// The index of the last block labelled `l`, if any.
pub open spec fn find_last_block(body: Seq<Block>, l: Seq<char>) -> Option<int>
    decreases body.len(),
{
    if body.len() == 0 {
        None
    } else if body.last().label@ == l {
        Some(body.len() - 1)
    } else {
        find_last_block(body.drop_last(), l)
    }
}

pub proof fn lemma_find_last_func(funcs: Seq<FuncDef>, n: Seq<char>)
    ensures
        match find_last_func(funcs, n) {
            Some(i) => 0 <= i < funcs.len() && funcs[i].name@ == n,
            None => forall|j: int| 0 <= j < funcs.len() ==> funcs[j].name@ != n,
        },
    decreases funcs.len(),
{
    if funcs.len() > 0 && funcs.last().name@ != n {
        lemma_find_last_func(funcs.drop_last(), n);
        assert forall|j: int| 0 <= j < funcs.len() - 1 implies funcs.drop_last()[j] == funcs[j] by {
        }
    }
}

/// The functions of a program, in order.
pub open spec fn funcs_of(defs: Seq<Definition>) -> Seq<FuncDef>
    decreases defs.len(),
{
    if defs.len() == 0 {
        Seq::empty()
    } else {
        let rest = funcs_of(defs.drop_first());
        match defs[0] {
            Definition::Func(f) => seq![f] + rest,
            Definition::Data(_) => rest,
        }
    }
}

/// The data definitions of a program, in order.
pub open spec fn datas_of(defs: Seq<Definition>) -> Seq<DataDef>
    decreases defs.len(),
{
    if defs.len() == 0 {
        Seq::empty()
    } else {
        let rest = datas_of(defs.drop_first());
        match defs[0] {
            Definition::Func(_) => rest,
            Definition::Data(d) => seq![d] + rest,
        }
    }
}

/// The names of a list of data definitions.
pub open spec fn names_of(datas: Seq<DataDef>) -> Seq<Seq<char>> {
    datas.map_values(|d: DataDef| d.name@)
}

/// Bytes occupied by one data item of element type `ty`.
pub open spec fn item_len(ty: ExtType, it: DataItem) -> int {
    match it {
        DataItem::Symbol(_, _) => 8,
        DataItem::Text(s) => s@.len() as int,
        DataItem::Number(_) => ext_bits(ty) as int / 8,
    }
}

/// The cursor after lowering a list of items starting at `cur`.
pub open spec fn items_end(ty: ExtType, items: Seq<DataItem>, cur: u64) -> u64
    decreases items.len(),
{
    if items.len() == 0 {
        cur
    } else {
        items_end(ty, items.drop_first(), wrap64(cur + item_len(ty, items[0])))
    }
}

/// The cursor after lowering one data object starting at `cur`.
pub open spec fn obj_end(obj: DataObj, cur: u64) -> u64 {
    match obj {
        DataObj::DataItem(ty, items) => items_end(ty, items@, cur),
        DataObj::ZeroFill(n) => wrap64(cur + n),
    }
}

/// The cursor after lowering a list of data objects starting at `cur`.
pub open spec fn objs_end(objs: Seq<DataObj>, cur: u64) -> u64
    decreases objs.len(),
{
    if objs.len() == 0 {
        cur
    } else {
        objs_end(objs.drop_first(), obj_end(objs[0], cur))
    }
}

/// The base address of the data definition at index `i`, all functions
/// having been laid out before `base`.
pub open spec fn data_base(datas: Seq<DataDef>, i: int, base: u64) -> u64
    decreases i,
{
    if i <= 0 {
        base
    } else {
        objs_end(datas[i - 1].objs@, data_base(datas, i - 1, base))
    }
}

/// A problem that stops the lowering of data definitions.
pub ghost enum LayoutErr {
    BadSymbol(Seq<char>),
    BadText,
}

/// Whether `n` can be resolved against the given function names and the
/// data names recorded so far.
pub open spec fn known_name(funcs: Seq<FuncDef>, dnames: Seq<Seq<char>>, n: Seq<char>) -> bool {
    find_last_str(dnames, n) is Some || find_last_func(funcs, n) is Some
}

/// The first problem in one data item, if any.
pub open spec fn item_err(
    funcs: Seq<FuncDef>,
    dnames: Seq<Seq<char>>,
    ty: ExtType,
    it: DataItem,
) -> Option<LayoutErr> {
    match it {
        DataItem::Symbol(name, _) => if known_name(funcs, dnames, name@) {
            None
        } else {
            Some(LayoutErr::BadSymbol(name@))
        },
        DataItem::Text(_) => if ty == ExtType::Byte {
            None
        } else {
            Some(LayoutErr::BadText)
        },
        DataItem::Number(_) => None,
    }
}

/// The first problem in a list of data items, if any.
pub open spec fn items_err(
    funcs: Seq<FuncDef>,
    dnames: Seq<Seq<char>>,
    ty: ExtType,
    items: Seq<DataItem>,
) -> Option<LayoutErr>
    decreases items.len(),
{
    if items.len() == 0 {
        None
    } else {
        match item_err(funcs, dnames, ty, items[0]) {
            Some(e) => Some(e),
            None => items_err(funcs, dnames, ty, items.drop_first()),
        }
    }
}

/// The first problem in one data object, if any.
pub open spec fn obj_err(funcs: Seq<FuncDef>, dnames: Seq<Seq<char>>, obj: DataObj) -> Option<
    LayoutErr,
> {
    match obj {
        DataObj::DataItem(ty, items) => items_err(funcs, dnames, ty, items@),
        DataObj::ZeroFill(_) => None,
    }
}

/// The first problem in a list of data objects, if any.
pub open spec fn objs_err(
    funcs: Seq<FuncDef>,
    dnames: Seq<Seq<char>>,
    objs: Seq<DataObj>,
) -> Option<LayoutErr>
    decreases objs.len(),
{
    if objs.len() == 0 {
        None
    } else {
        match obj_err(funcs, dnames, objs[0]) {
            Some(e) => Some(e),
            None => objs_err(funcs, dnames, objs.drop_first()),
        }
    }
}

/// The first problem in the data definitions from index `i` on, each
/// checked against the names recorded up to and including itself.
pub open spec fn datas_err(funcs: Seq<FuncDef>, datas: Seq<DataDef>, i: int) -> Option<LayoutErr>
    decreases datas.len() - i,
{
    if i < 0 || i >= datas.len() {
        None
    } else {
        match objs_err(funcs, names_of(datas.take(i + 1)), datas[i].objs@) {
            Some(e) => Some(e),
            None => datas_err(funcs, datas, i + 1),
        }
    }
}

/// The first problem in the whole layout of a program, if any.
pub open spec fn layout_err(defs: Seq<Definition>) -> Option<LayoutErr> {
    datas_err(funcs_of(defs), datas_of(defs), 0)
}

/// Whether every string item of a data definition list has 8-bit character
/// codes only.
pub open spec fn item_text_ok(it: DataItem) -> bool {
    match it {
        DataItem::Text(s) => forall|q: int| 0 <= q < s@.len() ==> (s@[q] as int) < 256,
        _ => true,
    }
}

pub open spec fn obj_text_ok(o: DataObj) -> bool {
    match o {
        DataObj::DataItem(_, items) => forall|k: int|
            0 <= k < items@.len() ==> item_text_ok(#[trigger] items@[k]),
        DataObj::ZeroFill(_) => true,
    }
}

pub open spec fn data_text_ok(d: DataDef) -> bool {
    forall|j: int| 0 <= j < d.objs@.len() ==> obj_text_ok(#[trigger] d.objs@[j])
}

pub open spec fn defs_text_ok(defs: Seq<Definition>) -> bool {
    forall|i: int|
        0 <= i < defs.len() ==> match #[trigger] defs[i] {
            Definition::Data(d) => data_text_ok(d),
            Definition::Func(_) => true,
        }
}

struct Frame {
    func_idx: usize,
    locals: Vec<(String, SymBV)>,
    saved_sp: u64,
}

impl Frame {
    spec fn model(&self) -> FrameModel {
        FrameModel {
            func_idx: self.func_idx as int,
            locals: assoc_map(self.locals@),
            saved_sp: self.saved_sp,
        }
    }
}

/// The global state of one symbolic execution: memory, layout tables,
/// stack pointer and frame stack.
pub struct State {
    v: ValueFactory,
    pub mem: Memory,
    stkptr: u64,
    funcs: Vec<FuncDef>,
    func_addrs: Vec<u64>,
    data_names: Vec<String>,
    data_addrs: Vec<u64>,
    stck: Vec<Frame>,
}

impl State {
    /// The current stack pointer.
    pub closed spec fn stack_ptr(&self) -> u64 {
        self.stkptr
    }

    /// The frame stack, oldest first.
    pub closed spec fn frames(&self) -> Seq<FrameModel> {
        self.stck@.map_values(|f: Frame| f.model())
    }

    /// The functions of the program, in layout order.
    pub closed spec fn funcs(&self) -> Seq<FuncDef> {
        self.funcs@
    }

    /// The base addresses of the functions, in the same order.
    pub closed spec fn func_addrs(&self) -> Seq<u64> {
        self.func_addrs@
    }

    /// The names of the data definitions laid out so far.
    pub closed spec fn data_names(&self) -> Seq<Seq<char>> {
        self.data_names@.map_values(|s: String| s@)
    }

    /// The base addresses of the data definitions, in the same order.
    pub closed spec fn data_addrs(&self) -> Seq<u64> {
        self.data_addrs@
    }

    /// Well-formedness: the address tables match their name tables, and
    /// every frame refers to a function of the program.
    pub open spec fn wf(&self) -> bool {
        &&& self.func_addrs().len() == self.funcs().len()
        &&& self.data_addrs().len() == self.data_names().len()
        &&& frames_ok(self.frames(), self.funcs().len() as int)
    }

    /// The function index of the innermost frame.
    pub open spec fn top_func_idx(&self) -> int
        recommends
            self.frames().len() > 0,
    {
        self.frames().last().func_idx
    }

    /// The local bindings of the innermost frame.
    pub open spec fn locals(&self) -> Map<Seq<char>, SymBV>
        recommends
            self.frames().len() > 0,
    {
        self.frames().last().locals
    }

    /// The address a name resolves to: the last data definition of that
    /// name if any, else the last function of that name.
    pub open spec fn ptr_of(&self, n: Seq<char>) -> Option<u64> {
        match find_last_str(self.data_names(), n) {
            Some(i) => Some(self.data_addrs()[i]),
            None => match find_last_func(self.funcs(), n) {
                Some(i) => Some(self.func_addrs()[i]),
                None => None,
            },
        }
    }

    /// Everything but the frame stack and the stack pointer is unchanged.
    pub open spec fn tables_unchanged(&self, old: &State) -> bool {
        &&& self.funcs() == old.funcs()
        &&& self.func_addrs() == old.func_addrs()
        &&& self.data_names() == old.data_names()
        &&& self.data_addrs() == old.data_addrs()
    }

    /// Build the state for a program: lay out every function at the next
    /// 4-byte cell, then lower every data definition, then place the stack
    /// pointer after the last byte written.
    pub fn new(source: Vec<Definition>) -> (r: Result<State, Error>)
        requires
            defs_text_ok(source@),
        ensures
            match r {
                Ok(st) => {
                    &&& layout_err(source@) is None
                    &&& st.wf()
                    &&& st.frames().len() == 0
                    &&& st.funcs() == funcs_of(source@)
                    &&& st.func_addrs().len() == st.funcs().len()
                    &&& forall|i: int|
                        0 <= i < st.funcs().len() ==> st.func_addrs()[i] == wrap64(4 * i)
                    &&& st.data_names() == names_of(datas_of(source@))
                    &&& st.data_addrs().len() == st.data_names().len()
                    &&& forall|i: int|
                        0 <= i < st.data_addrs().len() ==> st.data_addrs()[i] == data_base(
                            datas_of(source@),
                            i,
                            wrap64(4 * (funcs_of(source@).len() as int)),
                        )
                    &&& st.stack_ptr() == data_base(
                        datas_of(source@),
                        datas_of(source@).len() as int,
                        wrap64(4 * (funcs_of(source@).len() as int)),
                    )
                },
                Err(e) => match layout_err(source@) {
                    Some(LayoutErr::BadSymbol(n)) => e matches Error::UnknownVariable(s) && s@
                        == n,
                    Some(LayoutErr::BadText) => e is UnsupportedStringType,
                    None => false,
                },
            },
    {
        let ghost defs = source@;
        let mut src = source;
        let mut funcs: Vec<FuncDef> = Vec::new();
        let mut datas: Vec<DataDef> = Vec::new();
        proof {
            assert(funcs@ + funcs_of(src@) =~= funcs_of(defs));
            assert(datas@ + datas_of(src@) =~= datas_of(defs));
        }
        while src.len() > 0
            invariant
                funcs@ + funcs_of(src@) == funcs_of(defs),
                datas@ + datas_of(src@) == datas_of(defs),
            decreases src.len(),
        {
            let ghost pre = src@;
            let d = src.remove(0);
            proof {
                assert(pre[0] == d);
                assert(pre.drop_first() =~= src@);
            }
            match d {
                Definition::Func(f) => {
                    proof {
                        assert(funcs_of(pre) =~= seq![f] + funcs_of(src@));
                        assert(datas_of(pre) =~= datas_of(src@));
                        assert((funcs@ + seq![f]) + funcs_of(src@) =~= funcs@ + funcs_of(pre));
                    }
                    funcs.push(f);
                },
                Definition::Data(dd) => {
                    proof {
                        assert(datas_of(pre) =~= seq![dd] + datas_of(src@));
                        assert(funcs_of(pre) =~= funcs_of(src@));
                        assert((datas@ + seq![dd]) + datas_of(src@) =~= datas@ + datas_of(pre));
                    }
                    datas.push(dd);
                },
            }
        }
        proof {
            assert(funcs_of(src@) =~= Seq::<FuncDef>::empty());
            assert(datas_of(src@) =~= Seq::<DataDef>::empty());
            assert(funcs@ =~= funcs_of(defs));
            assert(datas@ =~= datas_of(defs));
        }

        let mut st = State {
            v: ValueFactory::new(),
            mem: Memory::new(),
            stkptr: 0,
            funcs,
            func_addrs: Vec::new(),
            data_names: Vec::new(),
            data_addrs: Vec::new(),
            stck: Vec::new(),
        };

        // Lay out the functions: one 4-byte sentinel cell each.
        let mut cursor: u64 = 0;
        let mut i: usize = 0;
        let nfuncs = st.funcs.len();
        while i < nfuncs
            invariant
                nfuncs == st.funcs@.len(),
                st.funcs@ == funcs_of(defs),
                st.func_addrs@.len() == i,
                i <= nfuncs,
                forall|j: int| 0 <= j < i ==> st.func_addrs@[j] == wrap64(4 * j),
                cursor == wrap64(4 * i),
                st.data_names@.len() == 0,
                st.data_addrs@.len() == 0,
                st.stck@.len() == 0,
            decreases nfuncs - i,
        {
            st.func_addrs.push(cursor);
            let a = st.v.make_long(cursor);
            let w = st.v.make_word(FUNC_PATTERN);
            st.mem.store_word(a, w);
            proof {
                lemma_wrapping_add_is_wrap64(cursor, 4);
                vstd::arithmetic::div_mod::lemma_add_mod_noop(
                    4 * i,
                    4,
                    0x1_0000_0000_0000_0000int,
                );
                lemma_small_mod(4nat, 0x1_0000_0000_0000_0000nat);
            }
            cursor = cursor.wrapping_add(4);
            i = i + 1;
        }
        let ghost fbase = wrap64(4 * (funcs_of(defs).len() as int));
        assert(cursor == fbase);
        proof {
            lemma_datas_of_text_ok(defs);
        }

        // Lower the data definitions, recording each name before its body.
        let mut k: usize = 0;
        let ndatas = datas.len();
        while k < ndatas
            invariant
                defs == source@,
                ndatas == datas@.len(),
                datas@ == datas_of(defs),
                st.funcs@ == funcs_of(defs),
                st.func_addrs@.len() == st.funcs@.len(),
                forall|j: int| 0 <= j < st.funcs@.len() ==> st.func_addrs@[j] == wrap64(4 * j),
                st.frames().len() == 0,
                k <= ndatas,
                st.data_names() =~= names_of(datas@.take(k as int)),
                st.data_addrs@.len() == k,
                forall|j: int|
                    0 <= j < k ==> st.data_addrs@[j] == data_base(datas@, j, fbase),
                cursor == data_base(datas@, k as int, fbase),
                forall|j: int|
                    0 <= j < k ==> objs_err(
                        st.funcs@,
                        names_of(datas@.take(j + 1)),
                        #[trigger] datas@[j].objs@,
                    ) is None,
                forall|j: int| 0 <= j < datas@.len() ==> data_text_ok(#[trigger] datas@[j]),
            decreases ndatas - k,
        {
            let dname = datas[k].name.clone();
            let ghost pre_vec = st.data_names@;
            let ghost pre_names = st.data_names();
            st.data_names.push(dname);
            st.data_addrs.push(cursor);
            proof {
                let post_names = st.data_names();
                let want = names_of(datas@.take(k as int + 1));
                assert(st.data_names@ == pre_vec.push(dname));
                assert(pre_names.len() == names_of(datas@.take(k as int)).len());
                assert(names_of(datas@.take(k as int)).len() == k);
                assert(pre_vec.len() == k);
                assert(st.data_names@.len() == k + 1);
                assert(post_names.len() == k + 1);
                assert(want.len() == k + 1);
                assert forall|j: int| 0 <= j < k + 1 implies post_names[j] == want[j] by {
                    assert(post_names[j] == st.data_names@[j]@);
                    assert(want[j] == datas@.take(k as int + 1)[j].name@);
                    assert(datas@.take(k as int + 1)[j] == datas@[j]);
                    if j < k {
                        assert(pre_names[j] == names_of(datas@.take(k as int))[j]);
                        assert(names_of(datas@.take(k as int))[j] == datas@.take(k as int)[
                            j
                        ].name@);
                        assert(st.data_names@[j]@ == pre_names[j]);
                    } else {
                        assert(st.data_names@[j]@ == datas@[k as int].name@);
                    }
                }
                assert(post_names =~= want);
            }
            let nobjs = datas[k].objs.len();
            let mut j: usize = 0;
            let ghost dstart = cursor;
            proof {
                assert(datas@[k as int].objs@.skip(0) =~= datas@[k as int].objs@);
            }
            while j < nobjs
                invariant
                    defs == source@,
                    ndatas == datas@.len(),
                    k < ndatas,
                    nobjs == datas@[k as int].objs@.len(),
                    datas@ == datas_of(defs),
                    st.funcs@ == funcs_of(defs),
                    st.func_addrs@.len() == st.funcs@.len(),
                    forall|jj: int|
                        0 <= jj < st.funcs@.len() ==> st.func_addrs@[jj] == wrap64(4 * jj),
                    st.frames().len() == 0,
                    st.data_names() =~= names_of(datas@.take(k as int + 1)),
                    st.data_addrs@.len() == k + 1,
                    forall|jj: int|
                        0 <= jj <= k ==> st.data_addrs@[jj] == data_base(datas@, jj, fbase),
                    j <= nobjs,
                    objs_end(
                        datas@[k as int].objs@.skip(j as int),
                        cursor,
                    ) == objs_end(datas@[k as int].objs@, dstart),
                    dstart == data_base(datas@, k as int, fbase),
                    objs_err(
                        st.funcs@,
                        names_of(datas@.take(k as int + 1)),
                        datas@[k as int].objs@.skip(j as int),
                    ) == objs_err(
                        st.funcs@,
                        names_of(datas@.take(k as int + 1)),
                        datas@[k as int].objs@,
                    ),
                    forall|jj: int|
                        0 <= jj < k ==> objs_err(
                            st.funcs@,
                            names_of(datas@.take(jj + 1)),
                            #[trigger] datas@[jj].objs@,
                        ) is None,
                    data_text_ok(datas@[k as int]),
                decreases nobjs - j,
            {
                let ghost objs = datas@[k as int].objs@;
                proof {
                    assert(objs.skip(j as int)[0] == objs[j as int]);
                    assert(objs.skip(j as int).drop_first() =~= objs.skip(j as int + 1));
                }
                let obj = &datas[k].objs[j];
                let ghost gnames = st.data_names();
                match st.insert_data_object(cursor, obj) {
                    Ok(c) => {
                        cursor = c;
                    },
                    Err(e) => {
                        proof {
                            assert(gnames == names_of(datas@.take(k as int + 1)));
                            assert(obj_err(st.funcs@, gnames, objs[j as int]) is Some);
                            assert(objs_err(st.funcs@, gnames, objs.skip(j as int)) == obj_err(
                                st.funcs@,
                                gnames,
                                objs[j as int],
                            ));
                            assert(objs_err(st.funcs@, gnames, objs) is Some);
                            assert(datas_err(st.funcs@, datas@, k as int) == objs_err(
                                st.funcs@,
                                gnames,
                                objs,
                            ));
                            lemma_datas_err_none_prefix(st.funcs@, datas@, 0, k as int);
                            assert(layout_err(defs) == objs_err(st.funcs@, gnames, objs));
                            let le = layout_err(defs);
                            assert(le == obj_err(st.funcs@, gnames, objs[j as int]));
                            assert(match le {
                                Some(LayoutErr::BadSymbol(n)) => e matches Error::UnknownVariable(
                                    s2,
                                ) && s2@ == n,
                                Some(LayoutErr::BadText) => e is UnsupportedStringType,
                                None => false,
                            });
                        }
                        return Err(e);
                    },
                }
                j = j + 1;
            }
            proof {
                assert(datas@[k as int].objs@.skip(nobjs as int)
                    =~= Seq::<DataObj>::empty());
                assert(cursor == objs_end(datas@[k as int].objs@, dstart));
                assert(datas@.take(k as int + 1).take(k as int) =~= datas@.take(k as int));
            }
            k = k + 1;
        }
        proof {
            assert(datas@.take(ndatas as int) =~= datas@);
            lemma_datas_err_none_prefix(st.funcs@, datas@, 0, ndatas as int);
        }
        st.stkptr = cursor;
        Ok(st)
    }

    /// Lower one data object at `addr`, returning the cursor after it.
    fn insert_data_object(&mut self, addr: u64, obj: &DataObj) -> (r: Result<u64, Error>)
        requires
            old(self).wf(),
            obj_text_ok(*obj),
        ensures
            final(self).wf(),
            final(self).tables_unchanged(old(self)),
            final(self).frames() == old(self).frames(),
            final(self).stack_ptr() == old(self).stack_ptr(),
            match r {
                Ok(c) => {
                    &&& c == obj_end(*obj, addr)
                    &&& obj_err(final(self).funcs(), final(self).data_names(), *obj) is None
                },
                Err(e) => match obj_err(old(self).funcs(), old(self).data_names(), *obj) {
                    Some(LayoutErr::BadSymbol(n)) => e matches Error::UnknownVariable(s) && s@
                        == n,
                    Some(LayoutErr::BadText) => e is UnsupportedStringType,
                    None => false,
                },
            },
    {
        match obj {
            DataObj::DataItem(ty, items) => {
                let mut cur_addr = addr;
                let mut i: usize = 0;
                let n = items.len();
                proof {
                    assert(items@.skip(0) =~= items@);
                }
                while i < n
                    invariant
                        self.wf(),
                        n == items@.len(),
                        i <= n,
                        self.tables_unchanged(old(self)),
                        self.frames() == old(self).frames(),
                        self.stack_ptr() == old(self).stack_ptr(),
                        items_end(*ty, items@.skip(i as int), cur_addr) == items_end(
                            *ty,
                            items@,
                            addr,
                        ),
                        items_err(self.funcs(), self.data_names(), *ty, items@.skip(i as int))
                            == items_err(self.funcs(), self.data_names(), *ty, items@),
                        *obj == DataObj::DataItem(*ty, *items),
                        forall|q: int|
                            0 <= q < items@.len() ==> item_text_ok(#[trigger] items@[q]),
                    decreases n - i,
                {
                    proof {
                        assert(items@.skip(i as int)[0] == items@[i as int]);
                        assert(items@.skip(i as int).drop_first() =~= items@.skip(i as int + 1));
                    }
                    let ghost pre_funcs = self.funcs();
                    let ghost pre_names = self.data_names();
                    match self.insert_data_item(ty, cur_addr, &items[i]) {
                        Ok(c) => {
                            cur_addr = c;
                        },
                        Err(e) => {
                            proof {
                                assert(item_err(pre_funcs, pre_names, *ty, items@[i as int])
                                    is Some);
                                assert(items_err(pre_funcs, pre_names, *ty, items@.skip(i as int))
                                    == item_err(pre_funcs, pre_names, *ty, items@[i as int]));
                                assert(items_err(pre_funcs, pre_names, *ty, items@) is Some);
                                assert(pre_funcs == old(self).funcs());
                                assert(pre_names == old(self).data_names());
                                assert(*obj == DataObj::DataItem(*ty, *items));
                                assert(obj_err(pre_funcs, pre_names, *obj) == items_err(
                                    pre_funcs,
                                    pre_names,
                                    *ty,
                                    items@,
                                ));
                                assert(obj_err(old(self).funcs(), old(self).data_names(), *obj)
                                    == item_err(pre_funcs, pre_names, *ty, items@[i as int]));
                            }
                            return Err(e);
                        },
                    }
                    i = i + 1;
                }
                proof {
                    assert(items@.skip(n as int) =~= Seq::<DataItem>::empty());
                }
                Ok(cur_addr)
            },
            DataObj::ZeroFill(n) => {
                let zero = self.v.make_byte(0);
                let mut i: u64 = 0;
                while i < *n
                    invariant
                        self.wf(),
                        i <= *n,
                        zero.width() == 8,
                        self.tables_unchanged(old(self)),
                        self.frames() == old(self).frames(),
                        self.stack_ptr() == old(self).stack_ptr(),
                    decreases n - i,
                {
                    let a = self.v.make_long(addr.wrapping_add(i));
                    self.mem.store_byte(a, zero.dup());
                    i = i + 1;
                }
                proof {
                    lemma_wrapping_add_is_wrap64(addr, *n);
                }
                Ok(addr.wrapping_add(*n))
            },
        }
    }

    /// Lower one data item of element type `ty` at `addr`, returning the
    /// cursor after it.
    ///
    /// A `Symbol` stores the 64-bit address of the named global, plus its
    /// optional offset; a `Text` stores one byte per character and is only
    /// allowed with element type `b`; a `Number` is stored at the element
    /// type's width. Values are stored most significant byte first.
    pub fn insert_data_item(&mut self, ty: &ExtType, addr: u64, item: &DataItem) -> (r: Result<
        u64,
        Error,
    >)
        requires
            old(self).wf(),
            item_text_ok(*item),
        ensures
            final(self).wf(),
            final(self).tables_unchanged(old(self)),
            final(self).frames() == old(self).frames(),
            final(self).stack_ptr() == old(self).stack_ptr(),
            match r {
                Ok(c) => {
                    &&& c == wrap64(addr + item_len(*ty, *item))
                    &&& item_err(final(self).funcs(), final(self).data_names(), *ty, *item) is None
                },
                Err(e) => match item_err(old(self).funcs(), old(self).data_names(), *ty, *item) {
                    Some(LayoutErr::BadSymbol(n)) => e matches Error::UnknownVariable(s) && s@
                        == n,
                    Some(LayoutErr::BadText) => e is UnsupportedStringType,
                    None => false,
                },
            },
    {
        match item {
            DataItem::Symbol(name, offset) => {
                let mut ptr = match self.get_ptr(name.as_str()) {
                    Some(p) => p,
                    None => {
                        return Err(Error::UnknownVariable(name.clone()));
                    },
                };
                if let Some(off) = offset {
                    let off_bv = self.v.make_long(*off);
                    ptr = bv_add(&ptr, &off_bv);
                }
                let a = self.v.make_long(addr);
                self.mem.store_bitvector(a, ptr);
                proof {
                    lemma_wrapping_add_is_wrap64(addr, 8);
                }
                Ok(addr.wrapping_add(8))
            },
            DataItem::Text(s) => {
                if *ty != ExtType::Byte {
                    return Err(Error::UnsupportedStringType);
                }
                let a = self.v.make_long(addr);
                let _ = self.mem.store_string(a, s.as_str());
                let chars = str_chars(s.as_str());
                proof {
                    lemma_wrapping_add_is_wrap64(addr, chars@.len() as u64);
                }
                Ok(addr.wrapping_add(chars.len() as u64))
            },
            DataItem::Number(nv) => {
                let bv = self.v.from_ext_i64(*ty, *nv);
                let size: u32 = bv.get_width();
                let a = self.v.make_long(addr);
                self.mem.store_bitvector(a, bv);
                proof {
                    lemma_wrapping_add_is_wrap64(addr, (size / 8) as u64);
                }
                Ok(addr.wrapping_add((size / 8) as u64))
            },
        }
    }

    /// The address bound to a global name: data definitions first, then
    /// functions, the latest definition of either kind winning.
    pub fn get_ptr(&self, name: &str) -> (r: Option<SymBV>)
        requires
            self.wf(),
        ensures
            match r {
                Some(bv) => {
                    &&& self.ptr_of(name@) matches Some(a) && bv.lit() == Some(a)
                    &&& bv.width() == 64
                },
                None => self.ptr_of(name@) is None,
            },
    {
        let mut i = self.data_names.len();
        proof {
            assert(self.data_names().take(self.data_names@.len() as int) =~= self.data_names());
        }
        while i > 0
            invariant
                i <= self.data_names@.len(),
                self.wf(),
                find_last_str(self.data_names().take(i as int), name@) == find_last_str(
                    self.data_names(),
                    name@,
                ),
            decreases i,
        {
            i = i - 1;
            proof {
                assert(self.data_names().take(i as int + 1).drop_last() =~= self.data_names().take(
                    i as int,
                ));
                assert(self.data_names().take(i as int + 1).last() == self.data_names()[i as int]);
            }
            if str_eq(self.data_names[i].as_str(), name) {
                return Some(self.v.make_long(self.data_addrs[i]));
            }
        }
        proof {
            assert(self.data_names().take(0) =~= Seq::<Seq<char>>::empty());
        }

        let mut i = self.funcs.len();
        proof {
            assert(self.funcs().take(self.funcs@.len() as int) =~= self.funcs());
        }
        while i > 0
            invariant
                i <= self.funcs@.len(),
                self.wf(),
                find_last_str(self.data_names(), name@) is None,
                find_last_func(self.funcs().take(i as int), name@) == find_last_func(
                    self.funcs(),
                    name@,
                ),
            decreases i,
        {
            i = i - 1;
            proof {
                assert(self.funcs().take(i as int + 1).drop_last() =~= self.funcs().take(i as int));
                assert(self.funcs().take(i as int + 1).last() == self.funcs()[i as int]);
            }
            if str_eq(self.funcs[i].name.as_str(), name) {
                return Some(self.v.make_long(self.func_addrs[i]));
            }
        }
        proof {
            assert(self.funcs().take(0) =~= Seq::<FuncDef>::empty());
        }
        None
    }

    /// The index of the function a name refers to, if any.
    pub fn find_func(&self, name: &str) -> (r: Option<usize>)
        ensures
            match r {
                Some(i) => find_last_func(self.funcs(), name@) == Some(i as int),
                None => find_last_func(self.funcs(), name@) is None,
            },
    {
        let mut i = self.funcs.len();
        proof {
            assert(self.funcs().take(self.funcs@.len() as int) =~= self.funcs());
        }
        while i > 0
            invariant
                i <= self.funcs@.len(),
                find_last_func(self.funcs().take(i as int), name@) == find_last_func(
                    self.funcs(),
                    name@,
                ),
            decreases i,
        {
            i = i - 1;
            proof {
                assert(self.funcs().take(i as int + 1).drop_last() =~= self.funcs().take(i as int));
                assert(self.funcs().take(i as int + 1).last() == self.funcs()[i as int]);
            }
            if str_eq(self.funcs[i].name.as_str(), name) {
                return Some(i);
            }
        }
        proof {
            assert(self.funcs().take(0) =~= Seq::<FuncDef>::empty());
        }
        None
    }

    /// The definition of the function a name refers to, if any.
    pub fn get_func(&self, name: &str) -> (r: Option<&FuncDef>)
        ensures
            match r {
                Some(f) => find_last_func(self.funcs(), name@) matches Some(i) && *f
                    == self.funcs()[i],
                None => find_last_func(self.funcs(), name@) is None,
            },
    {
        match self.find_func(name) {
            Some(i) => {
                proof {
                    lemma_find_last_func(self.funcs(), name@);
                }
                Some(&self.funcs[i])
            },
            None => None,
        }
    }

    /// The function definition at a table index.
    pub fn func_at(&self, i: usize) -> (r: &FuncDef)
        requires
            i < self.funcs().len(),
        ensures
            *r == self.funcs()[i as int],
    {
        &self.funcs[i]
    }

    /// The current stack pointer.
    pub fn stack_pointer(&self) -> (r: u64)
        ensures
            r == self.stack_ptr(),
    {
        self.stkptr
    }

    /// The number of frames on the stack.
    pub fn stack_size(&self) -> (r: usize)
        ensures
            r == self.frames().len(),
    {
        self.stck.len()
    }

    /// Allocate stack space: align the stack pointer up to `align`, advance
    /// it by `size`, and return the aligned address.
    pub fn stack_alloc(&mut self, align: u64, size: u64) -> (r: SymBV)
        requires
            old(self).wf(),
            old(self).frames().len() > 0,
            align_divides_space(align),
        ensures
            final(self).wf(),
            final(self).tables_unchanged(old(self)),
            final(self).frames() == old(self).frames(),
            final(self).stack_ptr() == wrap64(align_up(old(self).stack_ptr(), align) + size),
            r.width() == 64,
            r.lit() == Some(align_up(old(self).stack_ptr(), align)),
    {
        proof {
            vstd::arithmetic::div_mod::lemma_mod_decreases(
                self.stkptr as nat,
                align as nat,
            );
        }
        let m = self.stkptr % align;
        let aligned_addr = (self.stkptr - m).wrapping_add(align);
        proof {
            lemma_wrapping_add_is_wrap64((self.stkptr - m) as u64, align);
            lemma_wrapping_add_is_wrap64(aligned_addr, size);
        }
        self.stkptr = aligned_addr.wrapping_add(size);
        self.v.make_long(aligned_addr)
    }

    /// Push a frame for the function at `func_idx`: empty locals, and the
    /// current stack pointer saved for restoration on return.
    pub fn push_func(&mut self, func_idx: usize)
        requires
            old(self).wf(),
            func_idx < old(self).funcs().len(),
        ensures
            final(self).wf(),
            final(self).tables_unchanged(old(self)),
            final(self).stack_ptr() == old(self).stack_ptr(),
            final(self).frames() == old(self).frames().push(
                FrameModel {
                    func_idx: func_idx as int,
                    locals: Map::empty(),
                    saved_sp: old(self).stack_ptr(),
                },
            ),
    {
        let frame = Frame { func_idx, locals: Vec::new(), saved_sp: self.stkptr };
        proof {
            assert(assoc_map(Seq::<(String, SymBV)>::empty()) =~= Map::<Seq<char>, SymBV>::empty());
        }
        self.stck.push(frame);
        proof {
            assert(self.frames() =~= old(self).frames().push(
                FrameModel {
                    func_idx: func_idx as int,
                    locals: Map::empty(),
                    saved_sp: old(self).stack_ptr(),
                },
            ));
        }
    }

    /// The block of the innermost frame's function carrying a label, the
    /// last block winning when a label repeats.
    pub fn get_block(&self, name: &str) -> (r: Option<&Block>)
        requires
            self.wf(),
            self.frames().len() > 0,
        ensures
            match r {
                Some(b) => find_last_block(
                    self.funcs()[self.top_func_idx()].body@,
                    name@,
                ) matches Some(i) && *b == self.funcs()[self.top_func_idx()].body@[i],
                None => find_last_block(self.funcs()[self.top_func_idx()].body@, name@) is None,
            },
    {
        let top = &self.stck[self.stck.len() - 1];
        let body = &self.funcs[top.func_idx].body;
        let ghost bview = body@;
        let mut i = body.len();
        proof {
            assert(bview.take(bview.len() as int) =~= bview);
        }
        while i > 0
            invariant
                i <= bview.len(),
                bview == body@,
                bview == self.funcs()[self.top_func_idx()].body@,
                find_last_block(bview.take(i as int), name@) == find_last_block(bview, name@),
            decreases i,
        {
            i = i - 1;
            proof {
                assert(bview.take(i as int + 1).drop_last() =~= bview.take(i as int));
                assert(bview.take(i as int + 1).last() == bview[i as int]);
            }
            if str_eq(body[i].label.as_str(), name) {
                return Some(&body[i]);
            }
        }
        proof {
            assert(bview.take(0) =~= Seq::<Block>::empty());
        }
        None
    }

    /// Load `amount` bytes from memory starting at `addr`, most
    /// significant byte first.
    pub fn load_bits(&self, addr: SymBV, amount: u64) -> (r: SymBV)
        requires
            addr.width() == 64,
            1 <= amount,
            8 * amount <= u32::MAX,
        ensures
            r.width() == 8 * amount,
    {
        self.mem.load_bitvector(addr, amount)
    }

    /// Store a whole-byte-width value to memory at `addr`, most
    /// significant byte first.
    pub fn store_bits(&mut self, addr: SymBV, value: SymBV)
        requires
            addr.width() == 64,
            value.width() % 8 == 0,
            8 <= value.width(),
        ensures
            final(self).wf() == old(self).wf(),
            final(self).tables_unchanged(old(self)),
            final(self).frames() == old(self).frames(),
            final(self).stack_ptr() == old(self).stack_ptr(),
    {
        self.mem.store_bitvector(addr, value)
    }

    /// The function index of the innermost frame.
    pub fn top_func_index(&self) -> (r: usize)
        requires
            self.frames().len() > 0,
        ensures
            r == self.top_func_idx(),
    {
        self.stck[self.stck.len() - 1].func_idx
    }

    /// The position of the block of the innermost frame's function carrying
    /// a label, the last block winning when a label repeats.
    pub fn find_block(&self, name: &str) -> (r: Option<usize>)
        requires
            self.wf(),
            self.frames().len() > 0,
        ensures
            match r {
                Some(i) => find_last_block(self.funcs()[self.top_func_idx()].body@, name@) == Some(
                    i as int,
                ) && (i as int) < self.funcs()[self.top_func_idx()].body@.len(),
                None => find_last_block(self.funcs()[self.top_func_idx()].body@, name@) is None,
            },
    {
        let top = &self.stck[self.stck.len() - 1];
        let body = &self.funcs[top.func_idx].body;
        let ghost bview = body@;
        let mut i = body.len();
        proof {
            assert(bview.take(bview.len() as int) =~= bview);
        }
        while i > 0
            invariant
                i <= bview.len(),
                bview == body@,
                bview == self.funcs()[self.top_func_idx()].body@,
                find_last_block(bview.take(i as int), name@) == find_last_block(bview, name@),
            decreases i,
        {
            i = i - 1;
            proof {
                assert(bview.take(i as int + 1).drop_last() =~= bview.take(i as int));
                assert(bview.take(i as int + 1).last() == bview[i as int]);
            }
            if str_eq(body[i].label.as_str(), name) {
                return Some(i);
            }
        }
        proof {
            assert(bview.take(0) =~= Seq::<Block>::empty());
        }
        None
    }

    /// Bind a local temporary in the innermost frame, shadowing any earlier
    /// binding of the same name.
    pub fn add_local(&mut self, name: &str, value: SymBV)
        requires
            old(self).wf(),
            old(self).frames().len() > 0,
        ensures
            final(self).wf(),
            final(self).tables_unchanged(old(self)),
            final(self).stack_ptr() == old(self).stack_ptr(),
            final(self).frames().len() == old(self).frames().len(),
            final(self).frames() == old(self).frames().update(
                old(self).frames().len() - 1,
                FrameModel {
                    func_idx: old(self).top_func_idx(),
                    locals: old(self).locals().insert(name@, value),
                    saved_sp: old(self).frames().last().saved_sp,
                },
            ),
    {
        let fo = self.stck.pop();
        let mut f = fo.unwrap();
        let key = name.to_owned();
        f.locals.push((key, value));
        self.stck.push(f);
        proof {
            assert(self.stck@.last().locals@.drop_last() =~= old(self).stck@.last().locals@);
            assert(self.frames() =~= old(self).frames().update(
                old(self).frames().len() - 1,
                FrameModel {
                    func_idx: old(self).top_func_idx(),
                    locals: old(self).locals().insert(name@, value),
                    saved_sp: old(self).frames().last().saved_sp,
                },
            ));
        }
    }

    /// The value bound to a local temporary in the innermost frame.
    pub fn get_local(&self, name: &str) -> (r: Option<SymBV>)
        requires
            self.wf(),
            self.frames().len() > 0,
        ensures
            match r {
                Some(v) => self.locals().dom().contains(name@) && v == self.locals()[name@],
                None => !self.locals().dom().contains(name@),
            },
    {
        let top = &self.stck[self.stck.len() - 1];
        let ghost pairs = top.locals@;
        let mut i = top.locals.len();
        proof {
            assert(pairs.take(pairs.len() as int) =~= pairs);
        }
        while i > 0
            invariant
                i <= pairs.len(),
                pairs == top.locals@,
                pairs == self.stck@.last().locals@,
                self.frames().last() == self.stck@.last().model(),
                assoc_contains(pairs.take(i as int), name@) == assoc_contains(pairs, name@),
                assoc_contains(pairs, name@) ==> assoc_value(pairs.take(i as int), name@)
                    == assoc_value(pairs, name@),
            decreases i,
        {
            i = i - 1;
            proof {
                assert(pairs.take(i as int + 1).drop_last() =~= pairs.take(i as int));
                assert(pairs.take(i as int + 1).last() == pairs[i as int]);
            }
            if str_eq(top.locals[i].0.as_str(), name) {
                proof {
                    lemma_assoc_map(pairs, name@);
                }
                return Some(top.locals[i].1.dup());
            }
        }
        proof {
            assert(pairs.take(0) =~= Seq::<(String, SymBV)>::empty());
            lemma_assoc_map(pairs, name@);
        }
        None
    }

    /// Pop the innermost frame, restoring the stack pointer it saved and
    /// releasing the stack space allocated during its lifetime.
    pub fn pop_func(&mut self)
        requires
            old(self).wf(),
            old(self).frames().len() > 0,
        ensures
            final(self).wf(),
            final(self).tables_unchanged(old(self)),
            final(self).stack_ptr() == old(self).frames().last().saved_sp,
            final(self).frames() == old(self).frames().drop_last(),
    {
        let fo = self.stck.pop();
        let f = fo.unwrap();
        self.stkptr = f.saved_sp;
        proof {
            assert(self.frames() =~= old(self).frames().drop_last());
        }
    }

    /// Render the innermost frame's bindings, one line per name, sorted by
    /// name, each with the simplified form of its value.
    pub fn dump_locals(&self) -> (r: Vec<String>)
        requires
            self.wf(),
            self.frames().len() > 0,
    {
        let top = &self.stck[self.stck.len() - 1];
        let n = top.locals.len();

        // Collect the latest binding of each name, newest first.
        let mut names: Vec<String> = Vec::new();
        let mut texts: Vec<String> = Vec::new();
        let mut i = n;
        while i > 0
            invariant
                i <= top.locals@.len(),
                names@.len() == texts@.len(),
            decreases i,
        {
            i = i - 1;
            let nm = top.locals[i].0.as_str();
            let mut seen = false;
            let mut q: usize = 0;
            while q < names.len()
                invariant
                    q <= names@.len(),
                decreases names@.len() - q,
            {
                if str_eq(names[q].as_str(), nm) {
                    seen = true;
                }
                q = q + 1;
            }
            if !seen {
                names.push(nm.to_owned());
                texts.push(crate::value::bv_simplify_text(&top.locals[i].1));
            }
        }

        // Sort the lines by name with a selection sort.
        let mut lines: Vec<String> = Vec::new();
        while names.len() > 0
            invariant
                names@.len() == texts@.len(),
            decreases names@.len(),
        {
            let mut best: usize = 0;
            let mut c: usize = 1;
            while c < names.len()
                invariant
                    names@.len() == texts@.len(),
                    best < names@.len(),
                    c <= names@.len(),
                decreases names@.len() - c,
            {
                if crate::util::str_le(names[c].as_str(), names[best].as_str()) {
                    best = c;
                }
                c = c + 1;
            }
            let nm = names.remove(best);
            let tx = texts.remove(best);
            let mut line = String::new();
            line.append("\t");
            line.append(nm.as_str());
            line.append(" = ");
            line.append(tx.as_str());
            lines.push(line);
        }
        lines
    }
}

/// Whether an association list binds a name.
pub open spec fn assoc_contains(s: Seq<(String, SymBV)>, n: Seq<char>) -> bool
    decreases s.len(),
{
    if s.len() == 0 {
        false
    } else if s.last().0@ == n {
        true
    } else {
        assoc_contains(s.drop_last(), n)
    }
}

/// The latest value an association list binds a name to.
pub open spec fn assoc_value(s: Seq<(String, SymBV)>, n: Seq<char>) -> SymBV
    recommends
        assoc_contains(s, n),
    decreases s.len(),
{
    if s.len() == 0 {
        arbitrary()
    } else if s.last().0@ == n {
        s.last().1
    } else {
        assoc_value(s.drop_last(), n)
    }
}

/// The association list describes the same bindings as its map.
pub proof fn lemma_assoc_map(s: Seq<(String, SymBV)>, n: Seq<char>)
    ensures
        assoc_contains(s, n) == assoc_map(s).dom().contains(n),
        assoc_contains(s, n) ==> assoc_map(s)[n] == assoc_value(s, n),
    decreases s.len(),
{
    if s.len() > 0 {
        lemma_assoc_map(s.drop_last(), n);
    }
}

/// A run of error-free data definitions does not change the first error.
proof fn lemma_datas_err_none_prefix(funcs: Seq<FuncDef>, datas: Seq<DataDef>, i: int, k: int)
    requires
        0 <= i <= k <= datas.len(),
        forall|j: int|
            i <= j < k ==> objs_err(funcs, names_of(datas.take(j + 1)), datas[j].objs@) is None,
    ensures
        datas_err(funcs, datas, i) == datas_err(funcs, datas, k),
    decreases k - i,
{
    if i < k {
        lemma_datas_err_none_prefix(funcs, datas, i + 1, k);
    }
}

/// Every data definition of a byte-ranged program is byte-ranged.
proof fn lemma_datas_of_text_ok(defs: Seq<Definition>)
    requires
        defs_text_ok(defs),
    ensures
        forall|j: int| 0 <= j < datas_of(defs).len() ==> data_text_ok(#[trigger] datas_of(defs)[j]),
    decreases defs.len(),
{
    if defs.len() > 0 {
        assert forall|i: int| 0 <= i < defs.drop_first().len() implies match #[trigger] defs.drop_first()[i] {
            Definition::Data(d) => data_text_ok(d),
            Definition::Func(_) => true,
        } by {
            assert(defs.drop_first()[i] == defs[i + 1]);
        }
        lemma_datas_of_text_ok(defs.drop_first());
        let rest = datas_of(defs.drop_first());
        match defs[0] {
            Definition::Data(d) => {
                assert(datas_of(defs) == seq![d] + rest);
                assert forall|j: int| 0 <= j < datas_of(defs).len() implies data_text_ok(
                    #[trigger] datas_of(defs)[j],
                ) by {
                    if j == 0 {
                        assert(datas_of(defs)[0] == d);
                    } else {
                        assert(datas_of(defs)[j] == rest[j - 1]);
                    }
                }
            },
            Definition::Func(_) => {
                assert(datas_of(defs) == rest);
            },
        }
    }
}

} // verus!
