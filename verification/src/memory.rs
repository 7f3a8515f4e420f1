//! The symbolic memory: a total map from 64-bit addresses to 8-bit bytes,
//! backed by an SMT array.
//!
//! Only the two byte-level operations touch the array itself; the
//! multi-byte operations are verified loops over them that place and read
//! bytes in big-endian order.
use vstd::arithmetic::div_mod::{lemma_add_mod_noop, lemma_small_mod};
use vstd::prelude::*;

use crate::state::wrap64;
use crate::util::str_chars;
use crate::value::{bv_add, bv_concat, bv_extract, bv_from_u64, SymBV};

verus! {

#[verifier::external_type_specification]
#[verifier::external_body]
pub struct ExArray(z3::ast::Array);

/// A symbolic byte-addressable memory over a 64-bit address space.
///
/// The underlying array always maps 64-bit bit-vectors to 8-bit
/// bit-vectors: it is created that way and stores preserve it.
pub struct Memory {
    data: z3::ast::Array,
}

impl Memory {
    /// A fresh, unconstrained memory.
    ///
    /// Relies on Z3's `Array::new_const` (with `Sort::bitvector` for the
    /// index and value sorts): an unconstrained array constant named
    /// `memory` from 64-bit addresses to 8-bit values.
    #[verifier::external_body]
    pub fn new() -> Memory {
        let ary = z3::ast::Array::new_const(
            "memory",
            &z3::Sort::bitvector(64),
            &z3::Sort::bitvector(8),
        );
        Memory { data: ary }
    }

    /// The underlying array term.
    #[verifier::external_body]
    pub fn array(&self) -> &z3::ast::Array {
        &self.data
    }

    /// Store one byte at an address.
    ///
    /// Relies on Z3's `Array::store`: the array updated at the given index,
    /// keeping its sorts.
    #[verifier::external_body]
    pub fn store_byte(&mut self, addr: SymBV, value: SymBV)
        requires
            addr.width() == 64,
            value.width() == 8,
    {
        self.data = self.data.store(addr.ast(), value.ast());
    }

    /// Load the byte at an address.
    ///
    /// Relies on Z3's `Array::select`: the 8-bit element term of this
    /// memory's array at the given index.
    #[verifier::external_body]
    pub fn load_byte(&self, addr: SymBV) -> (r: SymBV)
        requires
            addr.width() == 64,
        ensures
            r.width() == 8,
    {
        let bv = self.data.select(addr.ast()).as_bv().unwrap();
        SymBV { width: bv.get_size(), bv, lit: Ghost(None) }
    }

    /// Store a whole-byte-width value, most significant byte first.
    ///
    /// The byte holding bits `[w-1..w-8]` goes to `addr`, the next byte to
    /// `addr + 1`, and so on.
    pub fn store_bitvector(&mut self, addr: SymBV, value: SymBV)
        requires
            addr.width() == 64,
            value.width() % 8 == 0,
            8 <= value.width(),
    {
        let amount: u32 = value.get_width() / 8;

        let mut i: u32 = 0;
        while i < amount
            invariant
                addr.width() == 64,
                value.width() % 8 == 0,
                8 <= value.width(),
                amount == value.width() / 8,
                i <= amount,
            decreases amount - i,
        {
            let n: u32 = amount - i;
            let byte = bv_extract(&value, n * 8 - 1, (n - 1) * 8);
            let off = bv_from_u64(i as u64, 64);
            self.store_byte(bv_add(&addr, &off), byte);
            i = i + 1;
        }
    }

    /// Load `amount` bytes starting at an address and concatenate them in
    /// address order, most significant byte first.
    pub fn load_bitvector(&self, addr: SymBV, amount: u64) -> (r: SymBV)
        requires
            addr.width() == 64,
            1 <= amount,
            8 * amount <= u32::MAX,
        ensures
            r.width() == 8 * amount,
    {
        let mut acc = self.load_byte(bv_add(&addr, &bv_from_u64(0, 64)));
        let mut n: u64 = 1;
        while n < amount
            invariant
                addr.width() == 64,
                1 <= n <= amount,
                8 * amount <= u32::MAX,
                acc.width() == 8 * n,
            decreases amount - n,
        {
            let byte = self.load_byte(bv_add(&addr, &bv_from_u64(n, 64)));
            acc = bv_concat(&acc, &byte);
            n = n + 1;
        }
        acc
    }

    /// Write the characters of a string as consecutive bytes and return the
    /// address immediately after the last one. Every character must have an
    /// 8-bit code; no terminator is appended. When the start address is a
    /// known literal, the returned cursor is the literal `addr + len`,
    /// wrapping around the 64-bit address space.
    pub fn store_string(&mut self, addr: SymBV, s: &str) -> (r: SymBV)
        requires
            addr.width() == 64,
            forall|i: int| 0 <= i < s@.len() ==> (s@[i] as int) < 256,
        ensures
            r.width() == 64,
            addr.lit() matches Some(x) ==> r.lit() == Some(wrap64(x + s@.len())),
    {
        let ghost start_lit = addr.lit();
        let chars = str_chars(s);
        let mut cur_addr = addr;
        let mut i: usize = 0;
        while i < chars.len()
            invariant
                chars@ == s@,
                forall|j: int| 0 <= j < s@.len() ==> (s@[j] as int) < 256,
                i <= chars@.len(),
                cur_addr.width() == 64,
                start_lit matches Some(x) ==> cur_addr.lit() == Some(wrap64(x + i)),
            decreases chars@.len() - i,
        {
            let code: u32 = chars[i] as u32;
            self.store_byte(cur_addr.dup(), bv_from_u64(code as u64, 8));
            let next_addr = bv_add(&cur_addr, &bv_from_u64(1, 64));
            proof {
                if start_lit is Some {
                    let x = start_lit.unwrap();
                    lemma_add_mod_noop(x + i, 1, 0x1_0000_0000_0000_0000int);
                    lemma_small_mod(1nat, 0x1_0000_0000_0000_0000nat);
                    assert(next_addr.lit() == Some(wrap64(x + i + 1)));
                }
            }
            cur_addr = next_addr;
            i = i + 1;
        }
        cur_addr
    }

    /// Store a 32-bit word as four big-endian bytes.
    pub fn store_word(&mut self, addr: SymBV, value: SymBV)
        requires
            addr.width() == 64,
            value.width() == 32,
    {
        self.store_bitvector(addr, value)
    }

    /// Load a 32-bit word from four big-endian bytes.
    pub fn load_word(&self, addr: SymBV) -> (r: SymBV)
        requires
            addr.width() == 64,
        ensures
            r.width() == 32,
    {
        self.load_bitvector(addr, 4)
    }
}

} // verus!
