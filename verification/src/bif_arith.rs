//! Integer arithmetic built-ins. Small operands compute exactly in 128-bit
//! arithmetic; the result is canonical: a small when it fits the small
//! range, a bignum box otherwise. Bignum operands go through the
//! arbitrary-precision store. Non-integer arguments raise `badarith`.

use vstd::prelude::*;

use crate::atoms::ATOM_BADARITH;
use crate::bignum::{big_add, big_clone, big_from_i128, big_mul, big_sub, big_to_i128, big_value};
use crate::fail::{Error, ExceptionType, RtResult};
use crate::gen_bif::{bif_post, int_of, raws_of, BifId};
use crate::heap::Heap;
use crate::lterm::{lemma_small_range, LTerm, BOXTYPE_BIGINTEGER, SMALL_MAX, SMALL_MIN};
use crate::model::{term_val, valid_term};
use crate::process::{Process, VM};

verus! {

/// Whether a term of the heap holds an integer (small or bignum).
fn is_int_term(hp: &Heap, t: LTerm) -> (r: bool)
    requires
        hp.inv(),
        valid_term(hp@, t@),
    ensures
        r == (int_of(term_val(hp@, t@)) is Some),
{
    if t.is_small() {
        true
    } else if t.is_boxed() {
        hp.boxed_type(t) == BOXTYPE_BIGINTEGER
    } else {
        false
    }
}

/// The argument as an arbitrary-precision integer.
fn big_of_arg(hp: &Heap, t: LTerm) -> (r: num::BigInt)
    requires
        hp.inv(),
        valid_term(hp@, t@),
        int_of(term_val(hp@, t@)) is Some,
    ensures
        Some(big_value(r)) == int_of(term_val(hp@, t@)),
{
    proof {
        lemma_small_range(t@);
    }
    if t.is_small() {
        big_from_i128(t.get_small_signed() as i128)
    } else {
        proof {
            assert(crate::lterm::is_boxed_s(t@));
        }
        big_clone(hp.big_ref(t))
    }
}

/// Put an exact 128-bit result in canonical term form.
fn canon_i128(hp: &mut Heap, s: i128) -> (r: RtResult<LTerm>)
    requires
        old(hp).inv(),
    ensures
        final(hp).inv(),
        final(hp).capacity == old(hp).capacity,
        final(hp).ys@ == old(hp).ys@,
        crate::gen_bif::arith_out(old(hp)@, final(hp)@, old(hp).capacity as int, s as int, r),
{
    if SMALL_MIN as i128 <= s && s <= SMALL_MAX as i128 {
        Ok(LTerm::make_small(s as i64))
    } else {
        hp.alloc_bignum(big_from_i128(s))
    }
}

/// Put an arbitrary-precision result in canonical term form.
fn canon_big(hp: &mut Heap, s: num::BigInt) -> (r: RtResult<LTerm>)
    requires
        old(hp).inv(),
    ensures
        final(hp).inv(),
        final(hp).capacity == old(hp).capacity,
        final(hp).ys@ == old(hp).ys@,
        crate::gen_bif::arith_out(old(hp)@, final(hp)@, old(hp).capacity as int, big_value(s), r),
{
    match big_to_i128(&s) {
        Some(v) => {
            if SMALL_MIN as i128 <= v && v <= SMALL_MAX as i128 {
                Ok(LTerm::make_small(v as i64))
            } else {
                hp.alloc_bignum(s)
            }
        },
        None => hp.alloc_bignum(s),
    }
}

/// Which integer operation an arithmetic built-in performs.
enum ArithOp {
    OpAdd,
    OpSub,
    OpMul,
}

spec fn arith_op_val(op: ArithOp, x: int, y: int) -> int {
    match op {
        ArithOp::OpAdd => x + y,
        ArithOp::OpSub => x - y,
        ArithOp::OpMul => x * y,
    }
}

spec fn arith_op_id(op: ArithOp) -> BifId {
    match op {
        ArithOp::OpAdd => BifId::Plus,
        ArithOp::OpSub => BifId::Minus,
        ArithOp::OpMul => BifId::Multiply,
    }
}

/// Shared body of the three arithmetic built-ins.
fn bif_arith(op: ArithOp, vm: &mut VM, curr_p: &mut Process, args: &Vec<LTerm>) -> (r: RtResult<
    LTerm,
>)
    requires
        old(curr_p).inv(),
        args@.len() == 2,
        crate::bif_sys::bif_args_ok(*old(curr_p), old(vm).atoms@.len(), args@),
    ensures
        *final(vm) == *old(vm),
        final(curr_p).inv(),
        final(curr_p).pid == old(curr_p).pid,
        final(curr_p).heap.capacity == old(curr_p).heap.capacity,
        final(curr_p).heap.ys@ == old(curr_p).heap.ys@,
        bif_post(
            arith_op_id(op),
            old(vm).atoms@,
            old(curr_p).heap@,
            final(curr_p).heap@,
            old(curr_p).heap.capacity as int,
            old(curr_p).pid as nat,
            raws_of(args@),
            r,
        ),
{
    let a = args[0];
    let b = args[1];
    if !is_int_term(&curr_p.heap, a) || !is_int_term(&curr_p.heap, b) {
        return Err(
            Error::Exception(ExceptionType::Error, LTerm::make_atom(ATOM_BADARITH)),
        );
    }
    proof {
        lemma_small_range(a@);
        lemma_small_range(b@);
    }
    if a.is_small() && b.is_small() {
        let x = a.get_small_signed() as i128;
        let y = b.get_small_signed() as i128;
        proof {
            assert(-0x2000_0000_0000_0000_0000_0000_0000_0000 <= x * y
                <= 0x2000_0000_0000_0000_0000_0000_0000_0000) by (nonlinear_arith)
                requires
                    -0x1000_0000_0000_0000 <= x <= 0x1000_0000_0000_0000,
                    -0x1000_0000_0000_0000 <= y <= 0x1000_0000_0000_0000,
            ;
        }
        let s = match op {
            ArithOp::OpAdd => x + y,
            ArithOp::OpSub => x - y,
            ArithOp::OpMul => x * y,
        };
        canon_i128(&mut curr_p.heap, s)
    } else {
        let ba = big_of_arg(&curr_p.heap, a);
        let bb = big_of_arg(&curr_p.heap, b);
        let s = match op {
            ArithOp::OpAdd => big_add(&ba, &bb),
            ArithOp::OpSub => big_sub(&ba, &bb),
            ArithOp::OpMul => big_mul(&ba, &bb),
        };
        canon_big(&mut curr_p.heap, s)
    }
}

/// Integer addition.
pub fn ubif_erlang_plus_2(vm: &mut VM, curr_p: &mut Process, args: &Vec<LTerm>) -> (r: RtResult<
    LTerm,
>)
    requires
        old(curr_p).inv(),
        args@.len() == 2,
        crate::bif_sys::bif_args_ok(*old(curr_p), old(vm).atoms@.len(), args@),
    ensures
        *final(vm) == *old(vm),
        final(curr_p).inv(),
        final(curr_p).pid == old(curr_p).pid,
        final(curr_p).heap.capacity == old(curr_p).heap.capacity,
        final(curr_p).heap.ys@ == old(curr_p).heap.ys@,
        bif_post(
            BifId::Plus,
            old(vm).atoms@,
            old(curr_p).heap@,
            final(curr_p).heap@,
            old(curr_p).heap.capacity as int,
            old(curr_p).pid as nat,
            raws_of(args@),
            r,
        ),
{
    bif_arith(ArithOp::OpAdd, vm, curr_p, args)
}

/// Integer subtraction.
pub fn ubif_erlang_minus_2(vm: &mut VM, curr_p: &mut Process, args: &Vec<LTerm>) -> (r: RtResult<
    LTerm,
>)
    requires
        old(curr_p).inv(),
        args@.len() == 2,
        crate::bif_sys::bif_args_ok(*old(curr_p), old(vm).atoms@.len(), args@),
    ensures
        *final(vm) == *old(vm),
        final(curr_p).inv(),
        final(curr_p).pid == old(curr_p).pid,
        final(curr_p).heap.capacity == old(curr_p).heap.capacity,
        final(curr_p).heap.ys@ == old(curr_p).heap.ys@,
        bif_post(
            BifId::Minus,
            old(vm).atoms@,
            old(curr_p).heap@,
            final(curr_p).heap@,
            old(curr_p).heap.capacity as int,
            old(curr_p).pid as nat,
            raws_of(args@),
            r,
        ),
{
    bif_arith(ArithOp::OpSub, vm, curr_p, args)
}

/// Integer multiplication; overflowing the small range promotes the
/// result to a bignum.
pub fn ubif_erlang_multiply_2(vm: &mut VM, curr_p: &mut Process, args: &Vec<LTerm>) -> (r:
    RtResult<LTerm>)
    requires
        old(curr_p).inv(),
        args@.len() == 2,
        crate::bif_sys::bif_args_ok(*old(curr_p), old(vm).atoms@.len(), args@),
    ensures
        *final(vm) == *old(vm),
        final(curr_p).inv(),
        final(curr_p).pid == old(curr_p).pid,
        final(curr_p).heap.capacity == old(curr_p).heap.capacity,
        final(curr_p).heap.ys@ == old(curr_p).heap.ys@,
        bif_post(
            BifId::Multiply,
            old(vm).atoms@,
            old(curr_p).heap@,
            final(curr_p).heap@,
            old(curr_p).heap.capacity as int,
            old(curr_p).pid as nat,
            raws_of(args@),
            r,
        ),
{
    bif_arith(ArithOp::OpMul, vm, curr_p, args)
}

} // verus!
