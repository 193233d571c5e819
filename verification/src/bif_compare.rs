//! Comparison built-ins, all defined through the term comparator: the four
//! orderings and equality coerce numerically; the exact pair does not.

use vstd::prelude::*;

use core::cmp::Ordering;

use crate::compare::cmp_terms;
use crate::fail::RtResult;
use crate::gen_bif::{bif_post, make_bool, raws_of, BifId};
use crate::lterm::LTerm;
use crate::process::{Process, VM};

verus! {

/// Which relation on the comparison result a built-in tests.
enum CmpRel {
    RelLt,
    RelLe,
    RelGt,
    RelGe,
    RelEq,
    RelNe,
    RelEqExact,
    RelNeExact,
}

spec fn cmp_rel_id(rel: CmpRel) -> BifId {
    match rel {
        CmpRel::RelLt => BifId::LessThan,
        CmpRel::RelLe => BifId::LessEqual,
        CmpRel::RelGt => BifId::GreaterThan,
        CmpRel::RelGe => BifId::GreaterEqual,
        CmpRel::RelEq => BifId::EqualEqual,
        CmpRel::RelNe => BifId::NotEqual,
        CmpRel::RelEqExact => BifId::EqualExact,
        CmpRel::RelNeExact => BifId::NotEqualExact,
    }
}

spec fn cmp_rel_exact(rel: CmpRel) -> bool {
    match rel {
        CmpRel::RelEqExact => true,
        CmpRel::RelNeExact => true,
        _ => false,
    }
}

/// Shared body of the comparison built-ins.
fn bif_cmp(rel: CmpRel, vm: &mut VM, curr_p: &mut Process, args: &Vec<LTerm>) -> (r: RtResult<
    LTerm,
>)
    requires
        old(curr_p).inv(),
        args@.len() == 2,
        crate::bif_sys::bif_args_ok(*old(curr_p), old(vm).atoms@.len(), args@),
    ensures
        *final(vm) == *old(vm),
        *final(curr_p) == *old(curr_p),
        bif_post(
            cmp_rel_id(rel),
            old(vm).atoms@,
            old(curr_p).heap@,
            final(curr_p).heap@,
            old(curr_p).heap.capacity as int,
            old(curr_p).pid as nat,
            raws_of(args@),
            r,
        ),
{
    let exact = match rel {
        CmpRel::RelEqExact => true,
        CmpRel::RelNeExact => true,
        _ => false,
    };
    match cmp_terms(&curr_p.heap, &vm.atoms, args[0], args[1], exact) {
        Ok(o) => {
            let c = match rel {
                CmpRel::RelLt => matches!(o, Ordering::Less),
                CmpRel::RelLe => !matches!(o, Ordering::Greater),
                CmpRel::RelGt => matches!(o, Ordering::Greater),
                CmpRel::RelGe => !matches!(o, Ordering::Less),
                CmpRel::RelEq => matches!(o, Ordering::Equal),
                CmpRel::RelNe => !matches!(o, Ordering::Equal),
                CmpRel::RelEqExact => matches!(o, Ordering::Equal),
                CmpRel::RelNeExact => !matches!(o, Ordering::Equal),
            };
            Ok(make_bool(c))
        },
        Err(e) => {
            // The comparator succeeds on all well-formed arguments.
            proof {
                assert(false);
            }
            Err(e)
        },
    }
}

/// `<` with numeric coercion.
pub fn ubif_erlang_lessthan_2(vm: &mut VM, curr_p: &mut Process, args: &Vec<LTerm>) -> (r:
    RtResult<LTerm>)
    requires
        old(curr_p).inv(),
        args@.len() == 2,
        crate::bif_sys::bif_args_ok(*old(curr_p), old(vm).atoms@.len(), args@),
    ensures
        *final(vm) == *old(vm),
        *final(curr_p) == *old(curr_p),
        bif_post(
            BifId::LessThan,
            old(vm).atoms@,
            old(curr_p).heap@,
            final(curr_p).heap@,
            old(curr_p).heap.capacity as int,
            old(curr_p).pid as nat,
            raws_of(args@),
            r,
        ),
{
    bif_cmp(CmpRel::RelLt, vm, curr_p, args)
}

/// `=<` with numeric coercion.
pub fn ubif_erlang_lessequal_2(vm: &mut VM, curr_p: &mut Process, args: &Vec<LTerm>) -> (r:
    RtResult<LTerm>)
    requires
        old(curr_p).inv(),
        args@.len() == 2,
        crate::bif_sys::bif_args_ok(*old(curr_p), old(vm).atoms@.len(), args@),
    ensures
        *final(vm) == *old(vm),
        *final(curr_p) == *old(curr_p),
        bif_post(
            BifId::LessEqual,
            old(vm).atoms@,
            old(curr_p).heap@,
            final(curr_p).heap@,
            old(curr_p).heap.capacity as int,
            old(curr_p).pid as nat,
            raws_of(args@),
            r,
        ),
{
    bif_cmp(CmpRel::RelLe, vm, curr_p, args)
}

/// `>` with numeric coercion.
pub fn ubif_erlang_greaterthan_2(vm: &mut VM, curr_p: &mut Process, args: &Vec<LTerm>) -> (r:
    RtResult<LTerm>)
    requires
        old(curr_p).inv(),
        args@.len() == 2,
        crate::bif_sys::bif_args_ok(*old(curr_p), old(vm).atoms@.len(), args@),
    ensures
        *final(vm) == *old(vm),
        *final(curr_p) == *old(curr_p),
        bif_post(
            BifId::GreaterThan,
            old(vm).atoms@,
            old(curr_p).heap@,
            final(curr_p).heap@,
            old(curr_p).heap.capacity as int,
            old(curr_p).pid as nat,
            raws_of(args@),
            r,
        ),
{
    bif_cmp(CmpRel::RelGt, vm, curr_p, args)
}

/// `>=` with numeric coercion.
pub fn ubif_erlang_greaterequal_2(vm: &mut VM, curr_p: &mut Process, args: &Vec<LTerm>) -> (r:
    RtResult<LTerm>)
    requires
        old(curr_p).inv(),
        args@.len() == 2,
        crate::bif_sys::bif_args_ok(*old(curr_p), old(vm).atoms@.len(), args@),
    ensures
        *final(vm) == *old(vm),
        *final(curr_p) == *old(curr_p),
        bif_post(
            BifId::GreaterEqual,
            old(vm).atoms@,
            old(curr_p).heap@,
            final(curr_p).heap@,
            old(curr_p).heap.capacity as int,
            old(curr_p).pid as nat,
            raws_of(args@),
            r,
        ),
{
    bif_cmp(CmpRel::RelGe, vm, curr_p, args)
}

/// `==`: equality with numeric coercion.
pub fn ubif_erlang_equalequal_2(vm: &mut VM, curr_p: &mut Process, args: &Vec<LTerm>) -> (r:
    RtResult<LTerm>)
    requires
        old(curr_p).inv(),
        args@.len() == 2,
        crate::bif_sys::bif_args_ok(*old(curr_p), old(vm).atoms@.len(), args@),
    ensures
        *final(vm) == *old(vm),
        *final(curr_p) == *old(curr_p),
        bif_post(
            BifId::EqualEqual,
            old(vm).atoms@,
            old(curr_p).heap@,
            final(curr_p).heap@,
            old(curr_p).heap.capacity as int,
            old(curr_p).pid as nat,
            raws_of(args@),
            r,
        ),
{
    bif_cmp(CmpRel::RelEq, vm, curr_p, args)
}

/// `/=`: inequality with numeric coercion.
pub fn ubif_erlang_notequal_2(vm: &mut VM, curr_p: &mut Process, args: &Vec<LTerm>) -> (r:
    RtResult<LTerm>)
    requires
        old(curr_p).inv(),
        args@.len() == 2,
        crate::bif_sys::bif_args_ok(*old(curr_p), old(vm).atoms@.len(), args@),
    ensures
        *final(vm) == *old(vm),
        *final(curr_p) == *old(curr_p),
        bif_post(
            BifId::NotEqual,
            old(vm).atoms@,
            old(curr_p).heap@,
            final(curr_p).heap@,
            old(curr_p).heap.capacity as int,
            old(curr_p).pid as nat,
            raws_of(args@),
            r,
        ),
{
    bif_cmp(CmpRel::RelNe, vm, curr_p, args)
}

/// `=:=`: exact equality, no coercion.
pub fn ubif_erlang_equal_exact_2(vm: &mut VM, curr_p: &mut Process, args: &Vec<LTerm>) -> (r:
    RtResult<LTerm>)
    requires
        old(curr_p).inv(),
        args@.len() == 2,
        crate::bif_sys::bif_args_ok(*old(curr_p), old(vm).atoms@.len(), args@),
    ensures
        *final(vm) == *old(vm),
        *final(curr_p) == *old(curr_p),
        bif_post(
            BifId::EqualExact,
            old(vm).atoms@,
            old(curr_p).heap@,
            final(curr_p).heap@,
            old(curr_p).heap.capacity as int,
            old(curr_p).pid as nat,
            raws_of(args@),
            r,
        ),
{
    bif_cmp(CmpRel::RelEqExact, vm, curr_p, args)
}

/// `=/=`: exact inequality, no coercion.
pub fn ubif_erlang_notequal_exact_2(vm: &mut VM, curr_p: &mut Process, args: &Vec<LTerm>) -> (r:
    RtResult<LTerm>)
    requires
        old(curr_p).inv(),
        args@.len() == 2,
        crate::bif_sys::bif_args_ok(*old(curr_p), old(vm).atoms@.len(), args@),
    ensures
        *final(vm) == *old(vm),
        *final(curr_p) == *old(curr_p),
        bif_post(
            BifId::NotEqualExact,
            old(vm).atoms@,
            old(curr_p).heap@,
            final(curr_p).heap@,
            old(curr_p).heap.capacity as int,
            old(curr_p).pid as nat,
            raws_of(args@),
            r,
        ),
{
    bif_cmp(CmpRel::RelNeExact, vm, curr_p, args)
}

} // verus!
