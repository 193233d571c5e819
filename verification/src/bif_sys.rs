//! System built-ins: raising `error` exceptions, the not-loaded-NIF
//! errors, the boolean test, and the pid of the running process.

use vstd::prelude::*;

use crate::atoms::{ATOM_BADFUN, ATOM_FALSE, ATOM_TRUE};
use crate::fail::{Error, ExceptionType, RtResult};
use crate::gen_bif::{bif_post, raws_of, BifId};
use crate::heap::Heap;
use crate::lterm::{lemma_imm_roundtrip, tag_of, LTerm, TERMTAG_ATOM};
use crate::model::{atoms_below, term_val, valid_term, Val};
use crate::process::{Process, VM};

verus! {

/// The arguments a built-in may receive: loaded plain values, well formed
/// on the process heap, mentioning only interned atoms.
pub open spec fn bif_args_ok(p: Process, names_len: nat, args: Seq<LTerm>) -> bool {
    forall|i: int|
        0 <= i < args.len() ==> valid_term(p.heap@, #[trigger] args[i]@) && atoms_below(
            term_val(p.heap@, args[i]@),
            names_len,
        )
}

/// Build the reason term `{badfun, Args...}` on the process heap.
pub fn make_badfun_n(args: &Vec<LTerm>, hp: &mut Heap) -> (r: RtResult<LTerm>)
    requires
        old(hp).inv(),
        forall|i: int| 0 <= i < args@.len() ==> valid_term(old(hp)@, #[trigger] args@[i]@),
    ensures
        final(hp).inv(),
        final(hp).capacity == old(hp).capacity,
        final(hp).ys@ == old(hp).ys@,
        crate::gen_bif::exc_tuple_out(
            old(hp)@,
            final(hp)@,
            old(hp).capacity as int,
            seq![Val::Atom(ATOM_BADFUN as nat)] + Seq::new(
                args@.len(),
                |i: int| term_val(old(hp)@, args@[i]@),
            ),
            match r {
                Ok(t) => Err(Error::Exception(ExceptionType::Error, t)),
                Err(e) => Err(e),
            },
        ),
    {
    let badfun = LTerm::make_atom(ATOM_BADFUN);
    proof {
        lemma_imm_roundtrip(ATOM_BADFUN, TERMTAG_ATOM);
    }
    let mut elems: Vec<LTerm> = Vec::new();
    elems.push(badfun);
    let n = args.len();
    let mut i: usize = 0;
    while i < n
        invariant
            i <= n,
            n == args@.len(),
            elems@.len() == i + 1,
            elems@[0] == badfun,
            forall|k: int| 0 <= k < i ==> elems@[k + 1] == #[trigger] args@[k],
        decreases n - i,
    {
        elems.push(args[i]);
        i += 1;
    }
    proof {
        assert forall|k: int| 0 <= k < elems@.len() implies valid_term(
            hp@,
            #[trigger] elems@[k]@,
        ) by {
            if k == 0 {
                assert(tag_of(badfun@) == TERMTAG_ATOM);
            } else {
                assert(elems@[k] == args@[k - 1]);
            }
        }
    }
    let out = hp.alloc_tuple(&elems);
    proof {
        match out {
            Ok(t) => {
                assert(Seq::new(elems@.len(), |i: int| term_val(old(hp)@, elems@[i]@)) =~= seq![
                    Val::Atom(ATOM_BADFUN as nat),
                ] + Seq::new(args@.len(), |i: int| term_val(old(hp)@, args@[i]@)));
            },
            Err(_) => {},
        }
    }
    out
}

/// Create an error for a NIF not loaded or not implemented.
pub fn bif_erlang_nif_error_1(vm: &mut VM, curr_p: &mut Process, args: &Vec<LTerm>) -> (r:
    RtResult<LTerm>)
    requires
        old(curr_p).inv(),
        args@.len() == 1,
        bif_args_ok(*old(curr_p), old(vm).atoms@.len(), args@),
    ensures
        *final(vm) == *old(vm),
        final(curr_p).inv(),
        final(curr_p).pid == old(curr_p).pid,
        final(curr_p).heap.capacity == old(curr_p).heap.capacity,
        final(curr_p).heap.ys@ == old(curr_p).heap.ys@,
        bif_post(
            BifId::NifError1,
            old(vm).atoms@,
            old(curr_p).heap@,
            final(curr_p).heap@,
            old(curr_p).heap.capacity as int,
            old(curr_p).pid as nat,
            raws_of(args@),
            r,
        ),
{
    match make_badfun_n(args, &mut curr_p.heap) {
        Ok(t) => {
            proof {
                assert(seq![Val::Atom(ATOM_BADFUN as nat)] + Seq::new(
                    args@.len(),
                    |i: int| term_val(old(curr_p).heap@, args@[i]@),
                ) =~= seq![
                    Val::Atom(ATOM_BADFUN as nat),
                    term_val(old(curr_p).heap@, raws_of(args@)[0]),
                ]);
            }
            Err(Error::Exception(ExceptionType::Error, t))
        },
        Err(e) => {
            proof {
                assert(seq![Val::Atom(ATOM_BADFUN as nat)] + Seq::new(
                    args@.len(),
                    |i: int| term_val(old(curr_p).heap@, args@[i]@),
                ) =~= seq![
                    Val::Atom(ATOM_BADFUN as nat),
                    term_val(old(curr_p).heap@, raws_of(args@)[0]),
                ]);
            }
            Err(e)
        },
    }
}

/// Create an error for a NIF not loaded or not implemented.
pub fn bif_erlang_nif_error_2(vm: &mut VM, curr_p: &mut Process, args: &Vec<LTerm>) -> (r:
    RtResult<LTerm>)
    requires
        old(curr_p).inv(),
        args@.len() == 2,
        bif_args_ok(*old(curr_p), old(vm).atoms@.len(), args@),
    ensures
        *final(vm) == *old(vm),
        final(curr_p).inv(),
        final(curr_p).pid == old(curr_p).pid,
        final(curr_p).heap.capacity == old(curr_p).heap.capacity,
        final(curr_p).heap.ys@ == old(curr_p).heap.ys@,
        bif_post(
            BifId::NifError2,
            old(vm).atoms@,
            old(curr_p).heap@,
            final(curr_p).heap@,
            old(curr_p).heap.capacity as int,
            old(curr_p).pid as nat,
            raws_of(args@),
            r,
        ),
{
    let ghost pre = old(curr_p).heap@;
    let out = make_badfun_n(args, &mut curr_p.heap);
    proof {
        assert(seq![Val::Atom(ATOM_BADFUN as nat)] + Seq::new(
            args@.len(),
            |i: int| term_val(pre, args@[i]@),
        ) =~= seq![
            Val::Atom(ATOM_BADFUN as nat),
            term_val(pre, raws_of(args@)[0]),
            term_val(pre, raws_of(args@)[1]),
        ]);
    }
    match out {
        Ok(t) => Err(Error::Exception(ExceptionType::Error, t)),
        Err(e) => Err(e),
    }
}

/// Create an exception of type `error` with a two-element reason tuple.
pub fn bif_erlang_error_2(vm: &mut VM, curr_p: &mut Process, args: &Vec<LTerm>) -> (r: RtResult<
    LTerm,
>)
    requires
        old(curr_p).inv(),
        args@.len() == 2,
        bif_args_ok(*old(curr_p), old(vm).atoms@.len(), args@),
    ensures
        *final(vm) == *old(vm),
        final(curr_p).inv(),
        final(curr_p).pid == old(curr_p).pid,
        final(curr_p).heap.capacity == old(curr_p).heap.capacity,
        final(curr_p).heap.ys@ == old(curr_p).heap.ys@,
        bif_post(
            BifId::Error2,
            old(vm).atoms@,
            old(curr_p).heap@,
            final(curr_p).heap@,
            old(curr_p).heap.capacity as int,
            old(curr_p).pid as nat,
            raws_of(args@),
            r,
        ),
{
    let ghost pre = old(curr_p).heap@;
    let mut elems: Vec<LTerm> = Vec::new();
    elems.push(args[0]);
    elems.push(args[1]);
    let out = curr_p.heap.alloc_tuple(&elems);
    proof {
        assert(Seq::new(elems@.len(), |i: int| term_val(pre, elems@[i]@)) =~= seq![
            term_val(pre, raws_of(args@)[0]),
            term_val(pre, raws_of(args@)[1]),
        ]);
    }
    match out {
        Ok(t) => Err(Error::Exception(ExceptionType::Error, t)),
        Err(e) => Err(e),
    }
}

/// Create an exception of type `error` whose reason is the argument.
pub fn bif_erlang_error_1(vm: &mut VM, curr_p: &mut Process, args: &Vec<LTerm>) -> (r: RtResult<
    LTerm,
>)
    requires
        old(curr_p).inv(),
        args@.len() == 1,
    ensures
        *final(vm) == *old(vm),
        *final(curr_p) == *old(curr_p),
        bif_post(
            BifId::Error1,
            old(vm).atoms@,
            old(curr_p).heap@,
            final(curr_p).heap@,
            old(curr_p).heap.capacity as int,
            old(curr_p).pid as nat,
            raws_of(args@),
            r,
        ),
{
    Err(Error::Exception(ExceptionType::Error, args[0]))
}

/// Return `true` if the value is the atom `true` or the atom `false`.
pub fn ubif_erlang_is_boolean_1(vm: &mut VM, curr_p: &mut Process, args: &Vec<LTerm>) -> (r:
    RtResult<LTerm>)
    requires
        old(curr_p).inv(),
        args@.len() == 1,
    ensures
        *final(vm) == *old(vm),
        *final(curr_p) == *old(curr_p),
        bif_post(
            BifId::IsBoolean,
            old(vm).atoms@,
            old(curr_p).heap@,
            final(curr_p).heap@,
            old(curr_p).heap.capacity as int,
            old(curr_p).pid as nat,
            raws_of(args@),
            r,
        ),
{
    let t = LTerm::make_atom(ATOM_TRUE);
    let f = LTerm::make_atom(ATOM_FALSE);
    let w = args[0];
    let c = LTerm::is_same(w, t) || LTerm::is_same(w, f);
    Ok(if c { t } else { f })
}

/// Return the pid of the running process.
pub fn ubif_erlang_self_0(vm: &mut VM, curr_p: &mut Process, args: &Vec<LTerm>) -> (r: RtResult<
    LTerm,
>)
    requires
        old(curr_p).inv(),
        args@.len() == 0,
    ensures
        *final(vm) == *old(vm),
        *final(curr_p) == *old(curr_p),
        bif_post(
            BifId::SelfPid,
            old(vm).atoms@,
            old(curr_p).heap@,
            final(curr_p).heap@,
            old(curr_p).heap.capacity as int,
            old(curr_p).pid as nat,
            raws_of(args@),
            r,
        ),
{
    Ok(LTerm::make_local_pid(curr_p.pid))
}


/// Create an export fun from a module atom, function atom and arity.
pub fn bif_erlang_make_fun_3(vm: &mut VM, curr_p: &mut Process, args: &Vec<LTerm>) -> (r:
    RtResult<LTerm>)
    requires
        old(curr_p).inv(),
        args@.len() == 3,
        bif_args_ok(*old(curr_p), old(vm).atoms@.len(), args@),
    ensures
        *final(vm) == *old(vm),
        final(curr_p).inv(),
        final(curr_p).pid == old(curr_p).pid,
        final(curr_p).heap.capacity == old(curr_p).heap.capacity,
        final(curr_p).heap.ys@ == old(curr_p).heap.ys@,
        crate::gen_bif::bif_post(
            crate::gen_bif::BifId::MakeFun3,
            old(vm).atoms@,
            old(curr_p).heap@,
            final(curr_p).heap@,
            old(curr_p).heap.capacity as int,
            old(curr_p).pid as nat,
            crate::gen_bif::raws_of(args@),
            r,
        ),
{
    let m = args[0];
    let f = args[1];
    let a = args[2];
    if !m.is_atom() || !f.is_atom() || !a.is_small() {
        return Err(Error::Exception(
            ExceptionType::Error,
            LTerm::make_atom(crate::atoms::ATOM_BADARG),
        ));
    }
    let av = a.get_small_signed();
    if av < 0 {
        return Err(Error::Exception(
            ExceptionType::Error,
            LTerm::make_atom(crate::atoms::ATOM_BADARG),
        ));
    }
    curr_p.heap.alloc_export(m, f, av as u64)
}

} // verus!
