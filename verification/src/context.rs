//! The runtime context of a process: the swapped-in register machine with
//! its X registers, float registers, instruction and continuation pointers
//! and the reduction budget. Source operands resolve register references
//! through `load`; destination operands must be register references and are
//! written through `store_value`.

use vstd::prelude::*;

use crate::fail::{Error, RtResult};
use crate::heap::Heap;
use crate::lterm::{
    box_ptr_of, is_cp_s, is_reg_s, is_special_s, special_tag_of, special_val_of, LTerm,
    NONVALUE_RAW, SPECIALTAG_REGFP, SPECIALTAG_REGX, SPECIALTAG_REGY,
};

verus! {

/// Number of X registers.
pub const MAX_XREGS: usize = 256;

/// Number of float registers.
pub const MAX_FPREGS: usize = 16;

/// Reduction budget granted at each swap-in.
pub const DEFAULT_REDUCTIONS: i64 = 200;

/// Reductions charged for fetching one opcode.
pub const FETCH_OPCODE_COST: i64 = 1;

pub open spec fn is_regx_s(w: u64) -> bool {
    is_special_s(w) && special_tag_of(w) == SPECIALTAG_REGX
}

pub open spec fn is_regy_s(w: u64) -> bool {
    is_special_s(w) && special_tag_of(w) == SPECIALTAG_REGY
}

pub open spec fn is_regfp_s(w: u64) -> bool {
    is_special_s(w) && special_tag_of(w) == SPECIALTAG_REGFP
}

/// Resolution of a source operand: an X or Y register reference reads the
/// register, any other term passes through unchanged.
pub open spec fn load_spec(regs: Seq<u64>, ys: Seq<u64>, w: u64) -> u64 {
    if is_regx_s(w) {
        regs[special_val_of(w) as int]
    } else if is_regy_s(w) {
        ys[special_val_of(w) as int]
    } else {
        w
    }
}

/// The runtime state of a process while it runs its time slice.
pub struct Context {
    /// Current position in the loaded code.
    pub ip: usize,
    /// Single-slot return location, for one return without a stack push.
    pub cp: Option<usize>,
    /// Work budget left in this time slice.
    pub reductions: i64,
    /// X registers, as raw term words.
    pub regs: Vec<u64>,
    /// How many X registers are live for the garbage collector.
    pub live: usize,
    /// Float registers, as raw IEEE-754 bit patterns.
    pub fpregs: Vec<u64>,
}

impl Context {
    pub open spec fn inv(&self) -> bool {
        &&& self.regs@.len() == MAX_XREGS
        &&& self.fpregs@.len() == MAX_FPREGS
        &&& self.live <= MAX_XREGS
    }

    pub fn new(ip: usize) -> (r: Context)
        ensures
            r.inv(),
            r.ip == ip,
            r.cp is None,
            r.reductions == 0,
            r.live == 0,
            forall|i: int| 0 <= i < MAX_XREGS ==> r.regs@[i] == NONVALUE_RAW,
            forall|i: int| 0 <= i < MAX_FPREGS ==> r.fpregs@[i] == 0,
    {
        let mut regs: Vec<u64> = Vec::new();
        let mut i: usize = 0;
        while i < MAX_XREGS
            invariant
                i <= MAX_XREGS,
                regs@.len() == i,
                forall|j: int| 0 <= j < i ==> regs@[j] == NONVALUE_RAW,
            decreases MAX_XREGS - i,
        {
            regs.push(NONVALUE_RAW);
            i += 1;
        }
        let mut fpregs: Vec<u64> = Vec::new();
        let mut k: usize = 0;
        while k < MAX_FPREGS
            invariant
                k <= MAX_FPREGS,
                fpregs@.len() == k,
                forall|j: int| 0 <= j < k ==> fpregs@[j] == 0,
            decreases MAX_FPREGS - k,
        {
            fpregs.push(0);
            k += 1;
        }
        Context { ip, cp: None, reductions: 0, regs, live: 0, fpregs }
    }

    /// Read an X register; reading an uninitialized register is a bug.
    pub fn get_x(&self, index: usize) -> (r: LTerm)
        requires
            self.inv(),
            index < MAX_XREGS,
            self.regs@[index as int] != NONVALUE_RAW,
        ensures
            r@ == self.regs@[index as int],
    {
        LTerm::from_raw(self.regs[index])
    }

    /// Write an X register; a register-tagged value must never be stored.
    pub fn set_x(&mut self, index: usize, val: LTerm)
        requires
            old(self).inv(),
            index < MAX_XREGS,
            !is_reg_s(val@),
        ensures
            final(self).inv(),
            final(self).regs@ == old(self).regs@.update(index as int, val@),
            final(self).ip == old(self).ip,
            final(self).cp == old(self).cp,
            final(self).live == old(self).live,
            final(self).reductions == old(self).reductions,
            final(self).fpregs@ == old(self).fpregs@,
    {
        self.regs.set(index, val.raw());
    }

    /// Reset the reduction budget at schedule-in; registers persist.
    pub fn swap_in(&mut self)
        ensures
            *final(self) == (Context { reductions: DEFAULT_REDUCTIONS, ..*old(self) }),
    {
        self.reductions = DEFAULT_REDUCTIONS;
    }

    /// Read a word from code at `ip` and advance by one.
    pub fn fetch(&mut self, code: &Vec<u64>) -> (r: u64)
        requires
            old(self).ip < code@.len(),
        ensures
            r == code@[old(self).ip as int],
            *final(self) == (Context { ip: (old(self).ip + 1) as usize, ..*old(self) }),
    {
        let n = code.len();
        let w = code[self.ip];
        self.ip = self.ip + 1;
        w
    }

    /// Step back one word in the code.
    pub fn unfetch(&mut self)
        requires
            old(self).ip >= 1,
        ensures
            *final(self) == (Context { ip: (old(self).ip - 1) as usize, ..*old(self) }),
    {
        self.ip = self.ip - 1;
    }

    /// Fetch a word and view it as a term.
    pub fn fetch_term(&mut self, code: &Vec<u64>) -> (r: LTerm)
        requires
            old(self).ip < code@.len(),
        ensures
            r@ == code@[old(self).ip as int],
            *final(self) == (Context { ip: (old(self).ip + 1) as usize, ..*old(self) }),
    {
        LTerm::from_raw(self.fetch(code))
    }

    /// Fetch a word as an opcode, charging the fetch cost in reductions.
    pub fn fetch_opcode(&mut self, code: &Vec<u64>) -> (r: u64)
        requires
            old(self).ip < code@.len(),
            old(self).reductions > i64::MIN + FETCH_OPCODE_COST,
        ensures
            r == code@[old(self).ip as int],
            *final(self) == (Context {
                ip: (old(self).ip + 1) as usize,
                reductions: (old(self).reductions - FETCH_OPCODE_COST) as i64,
                ..*old(self)
            }),
    {
        self.reductions = self.reductions - FETCH_OPCODE_COST;
        self.fetch(code)
    }

    /// Copy the next `sz` words of code out as argument terms and advance.
    /// The copy means the caller cannot alias the code memory.
    pub fn fetch_slice(&mut self, sz: usize, code: &Vec<u64>) -> (r: Vec<LTerm>)
        requires
            old(self).ip + sz <= code@.len(),
        ensures
            r@.len() == sz,
            forall|j: int| 0 <= j < sz ==> r@[j]@ == code@[old(self).ip + j],
            *final(self) == (Context { ip: (old(self).ip + sz) as usize, ..*old(self) }),
    {
        let n = code.len();
        let mut out: Vec<LTerm> = Vec::new();
        let mut j: usize = 0;
        while j < sz
            invariant
                j <= sz,
                n == code@.len(),
                self.ip == old(self).ip + j,
                old(self).ip + sz <= code@.len(),
                out@.len() == j,
                forall|k: int| 0 <= k < j ==> out@[k]@ == code@[old(self).ip + k],
                self.cp == old(self).cp,
                self.reductions == old(self).reductions,
                self.regs == old(self).regs,
                self.live == old(self).live,
                self.fpregs == old(self).fpregs,
            decreases sz - j,
        {
            let w = code[self.ip];
            out.push(LTerm::from_raw(w));
            self.ip = self.ip + 1;
            j += 1;
        }
        out
    }

    /// Fetch the next code word and resolve it as a source operand.
    pub fn fetch_and_load(&mut self, code: &Vec<u64>, hp: &Heap) -> (r: LTerm)
        requires
            old(self).inv(),
            old(self).ip < code@.len(),
            is_regx_s(code@[old(self).ip as int]) ==> special_val_of(code@[old(self).ip as int])
                < MAX_XREGS && old(self).regs@[special_val_of(code@[old(self).ip as int]) as int]
                != NONVALUE_RAW,
            is_regy_s(code@[old(self).ip as int]) ==> special_val_of(code@[old(self).ip as int])
                < hp.ys@.len(),
            !is_regfp_s(code@[old(self).ip as int]),
        ensures
            r@ == load_spec(old(self).regs@, hp.ys@, code@[old(self).ip as int]),
            *final(self) == (Context { ip: (old(self).ip + 1) as usize, ..*old(self) }),
    {
        let src = self.fetch_term(code);
        self.load(src, hp)
    }

    /// Copy of the registers `offset .. offset + sz`, as terms. A copy is
    /// handed out so no alias into the register file survives the call.
    pub fn registers_slice(&self, offset: usize, sz: usize) -> (r: Vec<LTerm>)
        requires
            self.inv(),
            offset + sz <= MAX_XREGS,
        ensures
            r@.len() == sz,
            forall|j: int| 0 <= j < sz ==> r@[j]@ == self.regs@[offset + j],
    {
        let mut out: Vec<LTerm> = Vec::new();
        let mut j: usize = 0;
        while j < sz
            invariant
                j <= sz,
                offset + sz <= MAX_XREGS,
                self.inv(),
                out@.len() == j,
                forall|k: int| 0 <= k < j ==> out@[k]@ == self.regs@[offset + k],
            decreases sz - j,
        {
            out.push(LTerm::from_raw(self.regs[offset + j]));
            j += 1;
        }
        out
    }

    /// Resolve a source operand: X and Y register references are read, any
    /// other term is returned unchanged.
    pub fn load(&self, src: LTerm, hp: &Heap) -> (r: LTerm)
        requires
            self.inv(),
            is_regx_s(src@) ==> special_val_of(src@) < MAX_XREGS && self.regs@[special_val_of(
                src@,
            ) as int] != NONVALUE_RAW,
            is_regy_s(src@) ==> special_val_of(src@) < hp.ys@.len(),
            !is_regfp_s(src@),
        ensures
            r@ == load_spec(self.regs@, hp.ys@, src@),
    {
        if src.is_special() {
            let st = src.get_special_tag();
            if st == SPECIALTAG_REGX {
                let i = src.get_special_value();
                return self.get_x(i as usize);
            } else if st == SPECIALTAG_REGY {
                let i = src.get_special_value();
                let n = hp.ys.len();
                proof {
                    assert(i < n);
                }
                match hp.get_y(i as usize) {
                    Ok(t) => {
                        return t;
                    },
                    Err(_) => {
                        proof {
                            assert(false);
                        }
                        return src;
                    },
                }
            } else {
                return src;
            }
        }
        src
    }

    /// Write a ready value to a destination operand, which must be an X or
    /// Y register reference; the value must not itself be a register.
    pub fn store_value(&mut self, val: LTerm, dst: LTerm, hp: &mut Heap) -> (r: RtResult<()>)
        requires
            old(self).inv(),
            old(hp).inv(),
            !is_reg_s(val@),
            is_regx_s(dst@) || is_regy_s(dst@),
            is_regx_s(dst@) ==> special_val_of(dst@) < MAX_XREGS,
        ensures
            final(self).inv(),
            final(hp).inv(),
            final(hp)@ == old(hp)@,
            final(hp).capacity == old(hp).capacity,
            final(self).ip == old(self).ip,
            final(self).cp == old(self).cp,
            final(self).reductions == old(self).reductions,
            final(self).live == old(self).live,
            final(self).fpregs@ == old(self).fpregs@,
            match r {
                Ok(_) => {
                    &&& is_regx_s(dst@) ==> final(self).regs@ == old(self).regs@.update(
                        special_val_of(dst@) as int,
                        val@,
                    ) && final(hp).ys@ == old(hp).ys@
                    &&& is_regy_s(dst@) ==> final(hp).ys@ == old(hp).ys@.update(
                        special_val_of(dst@) as int,
                        val@,
                    ) && final(self).regs@ == old(self).regs@ && special_val_of(dst@) < old(
                        hp,
                    ).ys@.len()
                },
                Err(e) => {
                    &&& e == Error::YRegisterOutOfRange
                    &&& is_regy_s(dst@)
                    &&& special_val_of(dst@) >= old(hp).ys@.len()
                    &&& final(self).regs@ == old(self).regs@
                    &&& final(hp).ys@ == old(hp).ys@
                },
            },
    {
        let st = dst.get_special_tag();
        if st == SPECIALTAG_REGX {
            self.set_x(dst.get_special_value() as usize, val);
            Ok(())
        } else {
            let iv = dst.get_special_value();
            let n = hp.ys.len();
            if iv >= n as u64 {
                return Err(Error::YRegisterOutOfRange);
            }
            hp.set_y(iv as usize, val)
        }
    }

    /// Resolve `src` as a source operand, then store it to `dst`.
    pub fn store_src(&mut self, src: LTerm, dst: LTerm, hp: &mut Heap) -> (r: RtResult<()>)
        requires
            old(self).inv(),
            old(hp).inv(),
            is_regx_s(src@) ==> special_val_of(src@) < MAX_XREGS && old(self).regs@[special_val_of(
                src@,
            ) as int] != NONVALUE_RAW,
            is_regy_s(src@) ==> special_val_of(src@) < old(hp).ys@.len(),
            !is_regfp_s(src@),
            !is_reg_s(load_spec(old(self).regs@, old(hp).ys@, src@)),
            is_regx_s(dst@) || is_regy_s(dst@),
            is_regx_s(dst@) ==> special_val_of(dst@) < MAX_XREGS,
        ensures
            final(self).inv(),
            final(hp).inv(),
            final(hp)@ == old(hp)@,
            final(hp).capacity == old(hp).capacity,
            final(self).ip == old(self).ip,
            final(self).cp == old(self).cp,
            final(self).reductions == old(self).reductions,
            final(self).live == old(self).live,
            final(self).fpregs@ == old(self).fpregs@,
            match r {
                Ok(_) => {
                    let v = load_spec(old(self).regs@, old(hp).ys@, src@);
                    &&& is_regx_s(dst@) ==> final(self).regs@ == old(self).regs@.update(
                        special_val_of(dst@) as int,
                        v,
                    ) && final(hp).ys@ == old(hp).ys@
                    &&& is_regy_s(dst@) ==> final(hp).ys@ == old(hp).ys@.update(
                        special_val_of(dst@) as int,
                        v,
                    ) && final(self).regs@ == old(self).regs@
                },
                Err(e) => {
                    &&& e == Error::YRegisterOutOfRange
                    &&& is_regy_s(dst@)
                    &&& special_val_of(dst@) >= old(hp).ys@.len()
                },
            },
    {
        let v = self.load(src, hp);
        self.store_value(v, dst, hp)
    }

    /// Record a continuation: `cp` must carry the CP discriminator.
    pub fn set_cp(&mut self, cp: LTerm)
        requires
            is_cp_s(cp@),
        ensures
            *final(self) == (Context { cp: Some(box_ptr_of(cp@) as usize), ..*old(self) }),
    {
        proof {
            let w = cp@;
            assert((w & 0x7fff_ffff_ffff_ffffu64) >> 3u64 < 0x1000_0000_0000_0000u64)
                by (bit_vector);
        }
        self.cp = Some(cp.get_cp_ptr() as usize);
    }

    pub fn clear_cp(&mut self)
        ensures
            *final(self) == (Context { cp: None, ..*old(self) }),
    {
        self.cp = None;
    }

    /// Branch to the code location a CP term names.
    pub fn jump(&mut self, cp: LTerm)
        requires
            is_cp_s(cp@),
        ensures
            *final(self) == (Context { ip: box_ptr_of(cp@) as usize, ..*old(self) }),
    {
        proof {
            let w = cp@;
            assert((w & 0x7fff_ffff_ffff_ffffu64) >> 3u64 < 0x1000_0000_0000_0000u64)
                by (bit_vector);
        }
        self.ip = cp.get_cp_ptr() as usize;
    }

    /// Branch to a known code index.
    pub fn jump_ptr(&mut self, code_ptr: usize)
        ensures
            *final(self) == (Context { ip: code_ptr, ..*old(self) }),
    {
        self.ip = code_ptr;
    }
}

/// Storing a value to a register destination and loading the same
/// destination as a source gives the value back.
pub proof fn lemma_store_then_load(regs: Seq<u64>, ys: Seq<u64>, dst: u64, v: u64)
    requires
        !is_reg_s(v),
        is_regx_s(dst) ==> special_val_of(dst) < regs.len(),
        is_regy_s(dst) ==> special_val_of(dst) < ys.len(),
        is_regx_s(dst) || is_regy_s(dst),
    ensures
        is_regx_s(dst) ==> load_spec(regs.update(special_val_of(dst) as int, v), ys, dst) == v,
        is_regy_s(dst) ==> load_spec(regs, ys.update(special_val_of(dst) as int, v), dst) == v,
{
}

} // verus!
