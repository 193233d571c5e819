//! The dispatch path for built-in functions: resolve the call target (an
//! import term, an import heap location, an MFA, or an already-resolved
//! function), check the arity before anything runs, load the arguments out
//! of registers into a local buffer, invoke the function, and route an
//! exception to the caller's fail label when one is given.

use vstd::prelude::*;

use crate::atoms::ATOM_BADARITY;
use crate::bif_sys::bif_args_ok;
use crate::context::{is_regfp_s, is_regx_s, is_regy_s, load_spec, Context, MAX_XREGS};
use crate::fail::{Error, ExceptionType, RtResult};
use crate::gen_bif::{
    bif_arity, bif_arity_s, bif_post, bif_table_s, find_bif, find_bif_s, BifId, MFArity,
};
use crate::heap::Heap;
use crate::lterm::{
    box_ptr_of, is_cp_s, is_reg_s, make_atom_s, make_boxed_s,
    special_val_of, LTerm, NIL_RAW, NONVALUE_RAW, PTR_LIMIT, TERMTAG_ATOM,
};
use crate::model::{
    atoms_below, lemma_valid_not_reg, term_val, valid_term, HeapM, Val,
};
use crate::process::{Process, VM};

verus! {

/// How a call site names the built-in it wants.
#[derive(Clone, Copy)]
pub enum CallBifTarget {
    /// A term holding a boxed import.
    ImportTerm(LTerm),
    /// The heap location of a boxed import.
    ImportPointer(usize),
    /// An MFA to resolve against the BIF table.
    MFArity(MFArity),
    /// An already-resolved function.
    BifFnPointer(BifId),
}

/// Result of running one dispatch step.
#[derive(Clone, Copy, PartialEq, Eq, Structural, Debug)]
pub enum DispatchResult {
    Normal,
}

/// Outcome of target resolution.
enum BifResolutionResult {
    FnPointer(BifId),
    BadfunError(LTerm),
}

/// Spec-level outcome of target resolution.
pub enum Resolved {
    RBif(BifId),
    RBadfun(u64),
    RNotImport,
    RNotFound,
    RBadArity,
}

/// Resolution of an import value against the table.
pub open spec fn resolve_import_s(h: HeapM, w: u64, nargs: nat) -> Resolved {
    match term_val(h, w) {
        Val::Import(m, f, a, isbif) => {
            if a != nargs {
                Resolved::RBadArity
            } else if !isbif {
                Resolved::RBadfun(w)
            } else {
                match find_bif_s(bif_table_s(), make_atom_s(m as u64), make_atom_s(f as u64), a) {
                    Some(id) => Resolved::RBif(id),
                    None => Resolved::RNotFound,
                }
            }
        },
        _ => Resolved::RNotImport,
    }
}

/// Resolution of any call target.
pub open spec fn resolve_s(h: HeapM, target: CallBifTarget, nargs: nat) -> Resolved {
    match target {
        CallBifTarget::ImportTerm(t) => resolve_import_s(h, t@, nargs),
        CallBifTarget::ImportPointer(p) => resolve_import_s(h, make_boxed_s(p as u64), nargs),
        CallBifTarget::MFArity(mfa) => match find_bif_s(
            bif_table_s(),
            mfa.m@,
            mfa.f@,
            mfa.arity as nat,
        ) {
            Some(id) => Resolved::RBif(id),
            None => Resolved::RNotFound,
        },
        CallBifTarget::BifFnPointer(id) => Resolved::RBif(id),
    }
}

/// An argument operand a BIF call can take: a register reference that
/// resolves, or an immediate; the resolved value is a well-formed plain
/// term mentioning only interned atoms.
pub open spec fn arg_loadable(ctx: Context, hp: Heap, names_len: nat, w: u64) -> bool {
    &&& is_regx_s(w) ==> special_val_of(w) < MAX_XREGS && ctx.regs@[special_val_of(w) as int]
        != NONVALUE_RAW
    &&& is_regy_s(w) ==> special_val_of(w) < hp.ys@.len()
    &&& !is_regfp_s(w)
    &&& valid_term(hp@, load_spec(ctx.regs@, hp.ys@, w))
    &&& atoms_below(term_val(hp@, load_spec(ctx.regs@, hp.ys@, w)), names_len)
}

/// The argument words after register resolution.
pub open spec fn loaded_raws(ctx: Context, hp: Heap, args: Seq<LTerm>) -> Seq<u64> {
    Seq::new(args.len(), |i: int| load_spec(ctx.regs@, hp.ys@, args[i]@))
}

/// Given a term holding a boxed import, resolve it to a BIF, checking the
/// declared arity against the argument count first.
fn callbif_resolve_import(hp: &Heap, imp: LTerm, check_arity: usize) -> (r: RtResult<
    BifResolutionResult,
>)
    requires
        hp.inv(),
        valid_term(hp@, imp@),
    ensures
        match resolve_import_s(hp@, imp@, check_arity as nat) {
            Resolved::RBif(id) => r matches Ok(BifResolutionResult::FnPointer(rid)) && rid == id,
            Resolved::RBadfun(w) => r matches Ok(BifResolutionResult::BadfunError(t)) && t@ == w,
            Resolved::RNotImport => r matches Err(e) && e == Error::BoxedIsNotAnImport,
            Resolved::RNotFound => r matches Err(e) && e == Error::BifNotFound,
            Resolved::RBadArity => r matches Err(e) && e == Error::Exception(
                ExceptionType::Error,
                LTerm { raw: make_atom_s(ATOM_BADARITY) },
            ),
        },
{
    if !imp.is_boxed() {
        return Err(Error::BoxedIsNotAnImport);
    }
    if hp.boxed_type(imp) != crate::lterm::BOXTYPE_IMPORT {
        return Err(Error::BoxedIsNotAnImport);
    }
    let (m, f, a, is_bif) = hp.import_fields(imp);
    if a != check_arity as u64 {
        return Err(Error::Exception(ExceptionType::Error, LTerm::make_atom(ATOM_BADARITY)));
    }
    if !is_bif {
        return Ok(BifResolutionResult::BadfunError(imp));
    }
    proof {
        let mw = m@;
        let fw = f@;
        assert(mw & 7u64 == 4u64 ==> ((mw >> 3u64) << 3u64) | 4u64 == mw) by (bit_vector);
        assert(fw & 7u64 == 4u64 ==> ((fw >> 3u64) << 3u64) | 4u64 == fw) by (bit_vector);
    }
    match find_bif(&MFArity { m, f, arity: check_arity }) {
        Ok(id) => Ok(BifResolutionResult::FnPointer(id)),
        Err(e) => Err(e),
    }
}

/// Map a table lookup to a resolution result.
fn callbif_resolve_mfa(mfa: &MFArity) -> (r: RtResult<BifResolutionResult>)
    ensures
        match find_bif_s(bif_table_s(), mfa.m@, mfa.f@, mfa.arity as nat) {
            Some(id) => r matches Ok(BifResolutionResult::FnPointer(rid)) && rid == id,
            None => r matches Err(e) && e == Error::BifNotFound,
        },
{
    match find_bif(mfa) {
        Ok(id) => Ok(BifResolutionResult::FnPointer(id)),
        Err(e) => Err(e),
    }
}

/// Invoke the named built-in on already-loaded arguments.
fn dispatch_bif(id: BifId, vm: &mut VM, curr_p: &mut Process, args: &Vec<LTerm>) -> (r: RtResult<
    LTerm,
>)
    requires
        old(curr_p).inv(),
        args@.len() == bif_arity_s(id),
        bif_args_ok(*old(curr_p), old(vm).atoms@.len(), args@),
    ensures
        *final(vm) == *old(vm),
        final(curr_p).inv(),
        final(curr_p).pid == old(curr_p).pid,
        final(curr_p).heap.capacity == old(curr_p).heap.capacity,
        final(curr_p).heap.ys@ == old(curr_p).heap.ys@,
        bif_post(
            id,
            old(vm).atoms@,
            old(curr_p).heap@,
            final(curr_p).heap@,
            old(curr_p).heap.capacity as int,
            old(curr_p).pid as nat,
            crate::gen_bif::raws_of(args@),
            r,
        ),
        (match r {
            Ok(t) => !is_reg_s(t@),
            _ => true,
        }),
{
    let r = match id {
        BifId::Multiply => crate::bif_arith::ubif_erlang_multiply_2(vm, curr_p, args),
        BifId::Plus => crate::bif_arith::ubif_erlang_plus_2(vm, curr_p, args),
        BifId::Minus => crate::bif_arith::ubif_erlang_minus_2(vm, curr_p, args),
        BifId::NotEqual => crate::bif_compare::ubif_erlang_notequal_2(vm, curr_p, args),
        BifId::LessThan => crate::bif_compare::ubif_erlang_lessthan_2(vm, curr_p, args),
        BifId::NotEqualExact => crate::bif_compare::ubif_erlang_notequal_exact_2(vm, curr_p, args),
        BifId::EqualExact => crate::bif_compare::ubif_erlang_equal_exact_2(vm, curr_p, args),
        BifId::LessEqual => crate::bif_compare::ubif_erlang_lessequal_2(vm, curr_p, args),
        BifId::EqualEqual => crate::bif_compare::ubif_erlang_equalequal_2(vm, curr_p, args),
        BifId::GreaterThan => crate::bif_compare::ubif_erlang_greaterthan_2(vm, curr_p, args),
        BifId::GreaterEqual => crate::bif_compare::ubif_erlang_greaterequal_2(vm, curr_p, args),
        BifId::Error1 => crate::bif_sys::bif_erlang_error_1(vm, curr_p, args),
        BifId::Error2 => crate::bif_sys::bif_erlang_error_2(vm, curr_p, args),
        BifId::NifError1 => crate::bif_sys::bif_erlang_nif_error_1(vm, curr_p, args),
        BifId::NifError2 => crate::bif_sys::bif_erlang_nif_error_2(vm, curr_p, args),
        BifId::IsBoolean => crate::bif_sys::ubif_erlang_is_boolean_1(vm, curr_p, args),
        BifId::Hd => crate::bif_lists::ubif_erlang_hd_1(vm, curr_p, args),
        BifId::Tl => crate::bif_lists::ubif_erlang_tl_1(vm, curr_p, args),
        BifId::Length => crate::bif_lists::gcbif_erlang_length_1(vm, curr_p, args),
        BifId::SelfPid => crate::bif_sys::ubif_erlang_self_0(vm, curr_p, args),
        BifId::PlusPlus => crate::bif_lists::bif_erlang_plusplus_2(vm, curr_p, args),
        BifId::AtomToList => crate::bif_lists::bif_erlang_atom_to_list_1(vm, curr_p, args),
        BifId::IntegerToList => crate::bif_lists::bif_erlang_integer_to_list_1(vm, curr_p, args),
        BifId::MakeFun3 => crate::bif_sys::bif_erlang_make_fun_3(vm, curr_p, args),
        BifId::Member => crate::bif_lists::bif_lists_member_2(vm, curr_p, args),
    };
    proof {
        let names = old(vm).atoms@;
        let h0 = old(curr_p).heap@;
        let h1 = curr_p.heap@;
        let lv = crate::gen_bif::raws_of(args@);
        if args@.len() >= 1 {
            assert(lv[0] == args@[0]@);
        }
        if args@.len() >= 2 {
            assert(lv[1] == args@[1]@);
        }
        crate::lterm::lemma_imm_roundtrip(crate::atoms::ATOM_TRUE, TERMTAG_ATOM);
        crate::lterm::lemma_imm_roundtrip(crate::atoms::ATOM_FALSE, TERMTAG_ATOM);
        crate::lterm::lemma_imm_roundtrip(old(curr_p).pid, crate::lterm::TERMTAG_LOCALPID);
        match r {
            Ok(t) => {
                let tw = t@;
                match id {
                    BifId::Hd => {
                        lemma_valid_not_reg(h1, tw);
                    },
                    BifId::Tl => {
                        lemma_valid_not_reg(h1, tw);
                    },
                    BifId::Length => {
                        match crate::gen_bif::list_len_v(term_val(h0, lv[0])) {
                            Some(n) => {
                                crate::lterm::lemma_small_roundtrip(n as i64);
                            },
                            None => {},
                        }
                    },
                    BifId::Plus => {
                        lemma_arith_result_not_reg(h0, h1, old(curr_p).heap.capacity as int, tw, term_val(h0, lv[0]), term_val(h0, lv[1]), 0);
                    },
                    BifId::Minus => {
                        lemma_arith_result_not_reg(h0, h1, old(curr_p).heap.capacity as int, tw, term_val(h0, lv[0]), term_val(h0, lv[1]), 1);
                    },
                    BifId::Multiply => {
                        lemma_arith_result_not_reg(h0, h1, old(curr_p).heap.capacity as int, tw, term_val(h0, lv[0]), term_val(h0, lv[1]), 2);
                    },
                    BifId::PlusPlus => {
                        lemma_valid_not_reg(h1, tw);
                    },
                    BifId::AtomToList => {
                        lemma_valid_not_reg(h1, tw);
                    },
                    BifId::IntegerToList => {
                        lemma_valid_not_reg(h1, tw);
                    },
                    BifId::MakeFun3 => {
                        lemma_valid_not_reg(h1, tw);
                    },
                    _ => {},
                }
            },
            _ => {},
        }
    }
    r
}

/// The result of an integer operation in canonical form carries no
/// register tag: a small has the small tag, a bignum box has the boxed tag.
proof fn lemma_arith_result_not_reg(
    h0: HeapM,
    h1: HeapM,
    cap: int,
    tw: u64,
    v0: Val,
    v1: Val,
    which: int,
)
    requires
        match (crate::gen_bif::int_of(v0), crate::gen_bif::int_of(v1)) {
            (Some(x), Some(y)) => {
                let s = if which == 0 {
                    x + y
                } else if which == 1 {
                    x - y
                } else {
                    x * y
                };
                crate::gen_bif::arith_out(h0, h1, cap, s, Ok(LTerm { raw: tw }))
            },
            _ => false,
        },
    ensures
        !is_reg_s(tw),
{
    match (crate::gen_bif::int_of(v0), crate::gen_bif::int_of(v1)) {
        (Some(x), Some(y)) => {
            let s = if which == 0 {
                x + y
            } else if which == 1 {
                x - y
            } else {
                x * y
            };
            if crate::lterm::SMALL_MIN <= s <= crate::lterm::SMALL_MAX {
                crate::lterm::lemma_small_roundtrip(s as i64);
            } else {
                lemma_valid_not_reg(h1, tw);
            }
        },
        _ => {},
    }
}

/// Resolve a BIF's register-or-immediate arguments into a local buffer,
/// then invoke it; the callee sees plain values only.
pub fn call_bif_fn(
    vm: &mut VM,
    ctx: &mut Context,
    curr_p: &mut Process,
    func_pointer: BifId,
    args: &Vec<LTerm>,
) -> (r: RtResult<LTerm>)
    requires
        old(ctx).inv(),
        old(curr_p).inv(),
        args@.len() == bif_arity_s(func_pointer),
        args@.len() <= 3,
        forall|i: int|
            0 <= i < args@.len() ==> arg_loadable(
                *old(ctx),
                old(curr_p).heap,
                old(vm).atoms@.len(),
                #[trigger] args@[i]@,
            ),
    ensures
        *final(ctx) == *old(ctx),
        *final(vm) == *old(vm),
        final(curr_p).inv(),
        final(curr_p).pid == old(curr_p).pid,
        final(curr_p).heap.capacity == old(curr_p).heap.capacity,
        final(curr_p).heap.ys@ == old(curr_p).heap.ys@,
        bif_post(
            func_pointer,
            old(vm).atoms@,
            old(curr_p).heap@,
            final(curr_p).heap@,
            old(curr_p).heap.capacity as int,
            old(curr_p).pid as nat,
            loaded_raws(*old(ctx), old(curr_p).heap, args@),
            r,
        ),
        (match r {
            Ok(t) => !is_reg_s(t@),
            _ => true,
        }),
{
    let n_args = args.len();
    let mut loaded_args: Vec<LTerm> = Vec::new();
    let mut i: usize = 0;
    while i < n_args
        invariant
            i <= n_args,
            n_args == args@.len(),
            ctx.inv(),
            curr_p.inv(),
            *ctx == *old(ctx),
            *curr_p == *old(curr_p),
            *vm == *old(vm),
            loaded_args@.len() == i,
            forall|k: int|
                0 <= k < args@.len() ==> arg_loadable(
                    *old(ctx),
                    old(curr_p).heap,
                    old(vm).atoms@.len(),
                    #[trigger] args@[k]@,
                ),
            forall|k: int|
                0 <= k < i ==> loaded_args@[k]@ == load_spec(
                    old(ctx).regs@,
                    old(curr_p).heap.ys@,
                    #[trigger] args@[k]@,
                ),
        decreases n_args - i,
    {
        let v = ctx.load(args[i], &curr_p.heap);
        loaded_args.push(v);
        i += 1;
    }
    proof {
        assert(crate::gen_bif::raws_of(loaded_args@) =~= loaded_raws(
            *old(ctx),
            old(curr_p).heap,
            args@,
        ));
        assert forall|k: int| 0 <= k < loaded_args@.len() implies valid_term(
            curr_p.heap@,
            #[trigger] loaded_args@[k]@,
        ) && atoms_below(term_val(curr_p.heap@, loaded_args@[k]@), vm.atoms@.len()) by {
            assert(arg_loadable(*old(ctx), old(curr_p).heap, old(vm).atoms@.len(), args@[k]@));
        }
        assert(bif_args_ok(*curr_p, vm.atoms@.len(), loaded_args@));
    }
    dispatch_bif(func_pointer, vm, curr_p, &loaded_args)
}

/// A destination operand the dispatcher can store to: nil for no store,
/// or an in-range X or Y register reference.
pub open spec fn dst_ok(hp: Heap, w: u64) -> bool {
    ||| w == NIL_RAW
    ||| (is_regx_s(w) && special_val_of(w) < MAX_XREGS)
    ||| (is_regy_s(w) && special_val_of(w) < hp.ys@.len())
}

/// Generic BIF application: resolve the target, check the arity before the
/// body runs, load the arguments, invoke, and route the result. On an
/// exception, a CP-tagged `fail_label` turns the throw into a local branch
/// of `ip`; the error is still returned so the interpreter above can see
/// whether it was redirected. `gc` only marks that the callee may collect
/// using `ctx.live`; it does not change what is computed.
#[verifier::rlimit(60)]
pub fn find_and_call_bif(
    vm: &mut VM,
    ctx: &mut Context,
    curr_p: &mut Process,
    fail_label: LTerm,
    target: CallBifTarget,
    args: &Vec<LTerm>,
    dst: LTerm,
    gc: bool,
) -> (r: RtResult<DispatchResult>)
    requires
        old(ctx).inv(),
        old(curr_p).inv(),
        args@.len() <= 3,
        forall|i: int|
            0 <= i < args@.len() ==> arg_loadable(
                *old(ctx),
                old(curr_p).heap,
                old(vm).atoms@.len(),
                #[trigger] args@[i]@,
            ),
        dst_ok(old(curr_p).heap, dst@),
        (target matches CallBifTarget::ImportTerm(t) ==> valid_term(old(curr_p).heap@, t@)),
        (target matches CallBifTarget::ImportPointer(p) ==> valid_term(
            old(curr_p).heap@,
            make_boxed_s(p as u64),
        ) && p < PTR_LIMIT),
    ensures
        *final(vm) == *old(vm),
        final(ctx).inv(),
        final(curr_p).inv(),
        final(curr_p).pid == old(curr_p).pid,
        final(curr_p).heap.capacity == old(curr_p).heap.capacity,
        ({
            let h0 = old(curr_p).heap@;
            let h1 = final(curr_p).heap@;
            let names = old(vm).atoms@;
            let cap = old(curr_p).heap.capacity as int;
            let pid = old(curr_p).pid as nat;
            let lv = loaded_raws(*old(ctx), old(curr_p).heap, args@);
            let unchanged_regs = final(ctx).regs@ == old(ctx).regs@ && final(curr_p).heap.ys@
                == old(curr_p).heap.ys@;
            let no_jump = final(ctx).ip == old(ctx).ip;
            match resolve_s(h0, target, args@.len() as nat) {
                Resolved::RNotImport => r == Err::<DispatchResult, Error>(
                    Error::BoxedIsNotAnImport,
                ) && h1 == h0 && unchanged_regs && no_jump,
                Resolved::RNotFound => r == Err::<DispatchResult, Error>(Error::BifNotFound) && h1
                    == h0 && unchanged_regs && no_jump,
                Resolved::RBadArity => r == Err::<DispatchResult, Error>(
                    Error::Exception(
                        ExceptionType::Error,
                        LTerm { raw: make_atom_s(ATOM_BADARITY) },
                    ),
                ) && h1 == h0 && unchanged_regs && no_jump,
                Resolved::RBadfun(w) => unchanged_regs && no_jump && crate::gen_bif::exc_tuple_out(
                    h0,
                    h1,
                    cap,
                    seq![term_val(h0, w)],
                    match r {
                        Ok(_) => Ok(LTerm { raw: 0 }),
                        Err(e) => Err(e),
                    },
                ) && r is Err,
                Resolved::RBif(id) => {
                    if args@.len() != bif_arity_s(id) {
                        r == Err::<DispatchResult, Error>(
                            Error::Exception(
                                ExceptionType::Error,
                                LTerm { raw: make_atom_s(ATOM_BADARITY) },
                            ),
                        ) && h1 == h0 && unchanged_regs && no_jump
                    } else {
                        match r {
                            Ok(d) => {
                                &&& d == DispatchResult::Normal
                                &&& no_jump
                                &&& final(ctx).cp == old(ctx).cp
                                &&& (dst@ == NIL_RAW ==> unchanged_regs && exists|v: LTerm|
                                    #[trigger] bif_post(id, names, h0, h1, cap, pid, lv, Ok(v)))
                                &&& (is_regx_s(dst@) ==> {
                                    let v = final(ctx).regs@[special_val_of(dst@) as int];
                                    &&& bif_post(id, names, h0, h1, cap, pid, lv, Ok(LTerm { raw: v }))
                                    &&& final(ctx).regs@ == old(ctx).regs@.update(special_val_of(dst@) as int, v)
                                    &&& final(curr_p).heap.ys@ == old(curr_p).heap.ys@
                                })
                                &&& (is_regy_s(dst@) ==> {
                                    let v = final(curr_p).heap.ys@[special_val_of(dst@) as int];
                                    &&& bif_post(id, names, h0, h1, cap, pid, lv, Ok(LTerm { raw: v }))
                                    &&& final(curr_p).heap.ys@ == old(curr_p).heap.ys@.update(special_val_of(dst@) as int, v)
                                    &&& final(ctx).regs@ == old(ctx).regs@
                                })
                            },
                            Err(Error::Exception(c, reason)) => {
                                &&& bif_post(
                                    id,
                                    names,
                                    h0,
                                    h1,
                                    cap,
                                    pid,
                                    lv,
                                    Err(Error::Exception(c, reason)),
                                )
                                &&& final(ctx).regs@ == old(ctx).regs@
                                &&& final(curr_p).heap.ys@ == old(curr_p).heap.ys@
                                &&& (is_cp_s(fail_label@)
                                    ==> final(ctx).ip == box_ptr_of(fail_label@) as usize)
                                &&& (!is_cp_s(fail_label@) ==> no_jump)
                            },
                            Err(e) => {
                                &&& bif_post(id, names, h0, h1, cap, pid, lv, Err(e))
                                &&& unchanged_regs
                                &&& no_jump
                            },
                        }
                    }
                },
            }
        }),
{
    let nargs = args.len();
    let maybe_bif_fn = match target {
        CallBifTarget::ImportTerm(ho_imp) => {
            match callbif_resolve_import(&curr_p.heap, ho_imp, nargs) {
                Ok(x) => x,
                Err(e) => {
                    return Err(e);
                },
            }
        },
        CallBifTarget::ImportPointer(ho_imp_ptr) => {
            match callbif_resolve_import(&curr_p.heap, LTerm::make_boxed(ho_imp_ptr), nargs) {
                Ok(x) => x,
                Err(e) => {
                    return Err(e);
                },
            }
        },
        CallBifTarget::MFArity(mfa) => {
            match callbif_resolve_mfa(&mfa) {
                Ok(x) => x,
                Err(e) => {
                    return Err(e);
                },
            }
        },
        CallBifTarget::BifFnPointer(fn_ptr) => BifResolutionResult::FnPointer(fn_ptr),
    };
    let func_pointer = match maybe_bif_fn {
        BifResolutionResult::FnPointer(p) => p,
        BifResolutionResult::BadfunError(badfun_val) => {
            let mut elems: Vec<LTerm> = Vec::new();
            elems.push(badfun_val);
            match curr_p.heap.alloc_tuple(&elems) {
                Ok(t) => {
                    proof {
                        assert(Seq::new(
                            elems@.len(),
                            |i: int| term_val(old(curr_p).heap@, elems@[i]@),
                        ) =~= seq![term_val(old(curr_p).heap@, badfun_val@)]);
                    }
                    return Err(Error::Exception(ExceptionType::Error, t));
                },
                Err(e) => {
                    return Err(e);
                },
            }
        },
    };
    // The declared arity must match the argument count before the body runs.
    if nargs != bif_arity(func_pointer) {
        return Err(Error::Exception(ExceptionType::Error, LTerm::make_atom(ATOM_BADARITY)));
    }
    let bif_result = call_bif_fn(vm, ctx, curr_p, func_pointer, args);
    match bif_result {
        Err(Error::Exception(c, reason)) => {
            if fail_label.is_cp() {
                ctx.jump(fail_label);
            }
            Err(Error::Exception(c, reason))
        },
        Err(e) => Err(e),
        Ok(val) => {
            let ghost names = old(vm).atoms@;
            let ghost h0 = old(curr_p).heap@;
            let ghost cap = old(curr_p).heap.capacity as int;
            let ghost pid = old(curr_p).pid as nat;
            let ghost lv = loaded_raws(*old(ctx), old(curr_p).heap, args@);
            proof {
                assert(bif_post(func_pointer, names, h0, curr_p.heap@, cap, pid, lv, Ok(val)));
                assert((7u64 >> 3u64) & 7u64 == 0u64) by (bit_vector);
            }
            if !LTerm::is_same(dst, LTerm::nil()) {
                let ghost mid = curr_p.heap@;
                let sr = ctx.store_value(val, dst, &mut curr_p.heap);
                proof {
                    assert(sr is Ok);
                    assert(curr_p.heap@ == mid);
                    assert(bif_post(func_pointer, names, h0, curr_p.heap@, cap, pid, lv, Ok(val)));
                    assert(LTerm { raw: val@ } == val);
                    if is_regx_s(dst@) {
                        assert(ctx.regs@ == old(ctx).regs@.update(
                            special_val_of(dst@) as int,
                            val@,
                        ));
                        assert(ctx.regs@[special_val_of(dst@) as int] == val@);
                        assert(curr_p.heap.ys@ == old(curr_p).heap.ys@);
                    }
                    if is_regy_s(dst@) {
                        assert(curr_p.heap.ys@ == old(curr_p).heap.ys@.update(
                            special_val_of(dst@) as int,
                            val@,
                        ));
                        assert(curr_p.heap.ys@[special_val_of(dst@) as int] == val@);
                        assert(ctx.regs@ == old(ctx).regs@);
                    }
                }
            } else {
                proof {
                    assert(dst@ == NIL_RAW);
                    assert(ctx.regs@ == old(ctx).regs@);
                    assert(curr_p.heap.ys@ == old(curr_p).heap.ys@);
                }
            }
            Ok(DispatchResult::Normal)
        },
    }
}

/// Outcome of a code-server lookup: loaded code or a built-in.
#[derive(Clone, Copy)]
pub enum MFALookupResult {
    FoundBeamCode(usize),
    FoundBif(BifId),
}

impl Context {
    /// Perform a call to a lookup result: branch to found code (saving the
    /// continuation when asked), or invoke the built-in and put its result
    /// in X0.
    pub fn call_mfa(
        &mut self,
        vm: &mut VM,
        curr_p: &mut Process,
        lr: &MFALookupResult,
        args: &Vec<LTerm>,
        save_cp: bool,
    ) -> (r: RtResult<()>)
        requires
            old(self).inv(),
            old(curr_p).inv(),
            (lr matches MFALookupResult::FoundBif(id) ==> args@.len() == bif_arity_s(*id)),
            args@.len() <= 3,
            forall|i: int|
                0 <= i < args@.len() ==> arg_loadable(
                    *old(self),
                    old(curr_p).heap,
                    old(vm).atoms@.len(),
                    #[trigger] args@[i]@,
                ),
        ensures
            *final(vm) == *old(vm),
            final(self).inv(),
            final(curr_p).inv(),
            final(curr_p).pid == old(curr_p).pid,
            final(self).reductions == old(self).reductions,
            final(self).live == old(self).live,
            final(self).fpregs@ == old(self).fpregs@,
            match *lr {
                MFALookupResult::FoundBeamCode(code_p) => {
                    &&& r is Ok
                    &&& *final(curr_p) == *old(curr_p)
                    &&& final(self).ip == code_p
                    &&& final(self).regs@ == old(self).regs@
                    &&& final(self).cp == (if save_cp {
                        Some(old(self).ip)
                    } else {
                        old(self).cp
                    })
                },
                MFALookupResult::FoundBif(id) => {
                    let h0 = old(curr_p).heap@;
                    let lv = loaded_raws(*old(self), old(curr_p).heap, args@);
                    &&& final(self).ip == old(self).ip
                    &&& final(self).cp == old(self).cp
                    &&& match r {
                        Ok(_) => {
                            let v = final(self).regs@[0];
                            &&& bif_post(
                                id,
                                old(vm).atoms@,
                                h0,
                                final(curr_p).heap@,
                                old(curr_p).heap.capacity as int,
                                old(curr_p).pid as nat,
                                lv,
                                Ok(LTerm { raw: v }),
                            )
                            &&& final(self).regs@ == old(self).regs@.update(0, v)
                        },
                        Err(e) => {
                            &&& bif_post(
                                id,
                                old(vm).atoms@,
                                h0,
                                final(curr_p).heap@,
                                old(curr_p).heap.capacity as int,
                                old(curr_p).pid as nat,
                                lv,
                                Err(e),
                            )
                            &&& final(self).regs@ == old(self).regs@
                        },
                    }
                },
            },
    {
        match lr {
            MFALookupResult::FoundBeamCode(code_p) => {
                if save_cp {
                    self.cp = Some(self.ip);
                }
                self.ip = *code_p;
                Ok(())
            },
            MFALookupResult::FoundBif(bif_fn) => {
                match call_bif_fn(vm, self, curr_p, *bif_fn, args) {
                    Ok(x0) => {
                        self.set_x(0, x0);
                        proof {
                            assert(LTerm { raw: x0@ } == x0);
                            assert(self.regs@[0] == x0@);
                        }
                        Ok(())
                    },
                    Err(e) => Err(e),
                }
            },
        }
    }
}

} // verus!
