//! List built-ins: head, tail, length, append, membership, and the list
//! renderings of atoms and integers. Improper and non-list arguments
//! raise `badarg`. Every list walk is bounded by the heap, because cons
//! cells point strictly downwards.

use vstd::prelude::*;

use core::cmp::Ordering;

use crate::atoms::ATOM_BADARG;
use crate::compare::cmp_terms;
use crate::fail::{Error, ExceptionType, RtResult};
use crate::gen_bif::{
    append_items, bif_post, bytes_list_v, items_of, lemma_append_items, list_len_v, make_bool,
    member_v, raws_of, BifId,
};
use crate::heap::Heap;
use crate::lterm::{int_dec_bytes, lemma_small_roundtrip, u64_to_dec, LTerm};
use crate::model::{
    atoms_below, heap_extends, lemma_extends_trans, lemma_preserved_trans, lemma_valid_tmeas,
    preserved, term_val, tmeas, valid_term, Val,
};
use crate::process::{Process, VM};

verus! {

/// Head of a list.
pub fn ubif_erlang_hd_1(vm: &mut VM, curr_p: &mut Process, args: &Vec<LTerm>) -> (r: RtResult<
    LTerm,
>)
    requires
        old(curr_p).inv(),
        args@.len() == 1,
        crate::bif_sys::bif_args_ok(*old(curr_p), old(vm).atoms@.len(), args@),
    ensures
        *final(vm) == *old(vm),
        *final(curr_p) == *old(curr_p),
        bif_post(
            BifId::Hd,
            old(vm).atoms@,
            old(curr_p).heap@,
            final(curr_p).heap@,
            old(curr_p).heap.capacity as int,
            old(curr_p).pid as nat,
            raws_of(args@),
            r,
        ),
{
    let t = args[0];
    if t.is_cons() {
        Ok(curr_p.heap.cons_hd(t))
    } else {
        Err(Error::Exception(ExceptionType::Error, LTerm::make_atom(ATOM_BADARG)))
    }
}

/// Tail of a list.
pub fn ubif_erlang_tl_1(vm: &mut VM, curr_p: &mut Process, args: &Vec<LTerm>) -> (r: RtResult<
    LTerm,
>)
    requires
        old(curr_p).inv(),
        args@.len() == 1,
        crate::bif_sys::bif_args_ok(*old(curr_p), old(vm).atoms@.len(), args@),
    ensures
        *final(vm) == *old(vm),
        *final(curr_p) == *old(curr_p),
        bif_post(
            BifId::Tl,
            old(vm).atoms@,
            old(curr_p).heap@,
            final(curr_p).heap@,
            old(curr_p).heap.capacity as int,
            old(curr_p).pid as nat,
            raws_of(args@),
            r,
        ),
{
    let t = args[0];
    if t.is_cons() {
        Ok(curr_p.heap.cons_tl(t))
    } else {
        Err(Error::Exception(ExceptionType::Error, LTerm::make_atom(ATOM_BADARG)))
    }
}

/// Length of a proper list, walking the tail chain iteratively.
pub fn gcbif_erlang_length_1(vm: &mut VM, curr_p: &mut Process, args: &Vec<LTerm>) -> (r:
    RtResult<LTerm>)
    requires
        old(curr_p).inv(),
        args@.len() == 1,
        crate::bif_sys::bif_args_ok(*old(curr_p), old(vm).atoms@.len(), args@),
    ensures
        *final(vm) == *old(vm),
        *final(curr_p) == *old(curr_p),
        bif_post(
            BifId::Length,
            old(vm).atoms@,
            old(curr_p).heap@,
            final(curr_p).heap@,
            old(curr_p).heap.capacity as int,
            old(curr_p).pid as nat,
            raws_of(args@),
            r,
        ),
{
    let ghost h = curr_p.heap@;
    let ghost v0 = term_val(h, args@[0]@);
    let mut t = args[0];
    let mut count: u64 = 0;
    proof {
        lemma_valid_tmeas(h, t@);
    }
    loop
        invariant
            args@.len() == 1,
            curr_p.inv(),
            *curr_p == *old(curr_p),
            *vm == *old(vm),
            h == curr_p.heap@,
            v0 == term_val(h, args@[0]@),
            valid_term(h, t@),
            count + tmeas(t@) <= tmeas(args@[0]@),
            tmeas(args@[0]@) <= h.words.len(),
            (match list_len_v(term_val(h, t@)) {
                Some(k) => list_len_v(v0) == Some((count + k) as nat),
                None => list_len_v(v0) is None,
            }),
        decreases tmeas(t@),
    {
        if LTerm::is_same(t, LTerm::nil()) {
            proof {
                assert(7u64 & 7u64 == 7u64) by (bit_vector);
                assert(term_val(h, t@) == Val::Nil);
                assert(list_len_v(term_val(h, t@)) == Some(0nat));
            }
            return Ok(LTerm::make_small(count as i64));
        }
        if !t.is_cons() {
            proof {
                assert(list_len_v(term_val(h, t@)) is None);
            }
            return Err(Error::Exception(ExceptionType::Error, LTerm::make_atom(ATOM_BADARG)));
        }
        let tl = curr_p.heap.cons_tl(t);
        count = count + 1;
        t = tl;
    }
}


/// Build a proper list holding one small per byte, from the back.
pub fn build_byte_list(hp: &mut Heap, bytes: &Vec<u8>) -> (r: RtResult<LTerm>)
    requires
        old(hp).inv(),
    ensures
        final(hp).inv(),
        final(hp).capacity == old(hp).capacity,
        final(hp).ys@ == old(hp).ys@,
        crate::gen_bif::list_out(
            old(hp)@,
            final(hp)@,
            old(hp).capacity as int,
            bytes_list_v(bytes@),
            bytes@.len() as int,
            r,
        ),
{
    let n = bytes.len();
    if n as u64 > 0x1000_0000_0000u64 {
        return Err(Error::HeapIsFull);
    }
    if ((hp.capacity - hp.words.len()) as u64) < 2 * (n as u64) {
        return Err(Error::HeapIsFull);
    }
    proof {
        assert(hp@.words.subrange(0, hp@.words.len() as int) =~= hp@.words);
        assert(hp@.bigs.subrange(0, hp@.bigs.len() as int) =~= hp@.bigs);
        assert(7u64 & 7u64 == 7u64) by (bit_vector);
        assert(bytes@.skip(n as int) =~= Seq::<u8>::empty());
    }
    let mut t = LTerm::nil();
    let mut k: usize = n;
    while k > 0
        invariant
            k <= n,
            n == bytes@.len(),
            hp.inv(),
            hp.capacity == old(hp).capacity,
            hp.ys@ == old(hp).ys@,
            hp@.words.len() == old(hp)@.words.len() + 2 * (n - k),
            old(hp)@.words.len() + 2 * n <= old(hp).capacity,
            heap_extends(hp@, old(hp)@),
            preserved(hp@, old(hp)@),
            valid_term(hp@, t@),
            term_val(hp@, t@) == bytes_list_v(bytes@.skip(k as int)),
        decreases k,
    {
        let b = bytes[k - 1];
        let ghost hpre = hp@;
        proof {
            lemma_small_roundtrip(b as i64);
        }
        match hp.alloc_cons(LTerm::make_small(b as i64), t) {
            Ok(nt) => {
                proof {
                    assert(bytes@.skip(k - 1)[0] == bytes@[k - 1]);
                    assert(bytes@.skip(k - 1).drop_first() =~= bytes@.skip(k as int));
                    lemma_extends_trans(hp@, hpre, old(hp)@);
                    lemma_preserved_trans(hp@, hpre, old(hp)@);
                }
                t = nt;
                k = k - 1;
            },
            Err(_) => {
                proof {
                    assert(false);
                }
                return Err(Error::HeapIsFull);
            },
        }
    }
    proof {
        assert(bytes@.skip(0) =~= bytes@);
    }
    Ok(t)
}

/// List append: copy the left list's cells in front of the right operand.
pub fn bif_erlang_plusplus_2(vm: &mut VM, curr_p: &mut Process, args: &Vec<LTerm>) -> (r:
    RtResult<LTerm>)
    requires
        old(curr_p).inv(),
        args@.len() == 2,
        crate::bif_sys::bif_args_ok(*old(curr_p), old(vm).atoms@.len(), args@),
    ensures
        *final(vm) == *old(vm),
        final(curr_p).inv(),
        final(curr_p).pid == old(curr_p).pid,
        final(curr_p).heap.capacity == old(curr_p).heap.capacity,
        final(curr_p).heap.ys@ == old(curr_p).heap.ys@,
        bif_post(
            BifId::PlusPlus,
            old(vm).atoms@,
            old(curr_p).heap@,
            final(curr_p).heap@,
            old(curr_p).heap.capacity as int,
            old(curr_p).pid as nat,
            raws_of(args@),
            r,
        ),
{
    let ghost h = curr_p.heap@;
    let ghost v0 = term_val(h, args@[0]@);
    let ghost vb = term_val(h, args@[1]@);
    let b = args[1];
    let mut x = args[0];
    let mut elems: Vec<LTerm> = Vec::new();
    proof {
        lemma_valid_tmeas(h, x@);
        assert(items_of(v0).skip(0) =~= items_of(v0));
    }
    loop
        invariant
            args@.len() == 2,
            curr_p.inv(),
            *curr_p == *old(curr_p),
            *vm == *old(vm),
            h == curr_p.heap@,
            v0 == term_val(h, args@[0]@),
            valid_term(h, x@),
            atoms_below(term_val(h, x@), old(vm).atoms@.len()),
            elems@.len() + tmeas(x@) <= tmeas(args@[0]@) + 1,
            tmeas(args@[0]@) <= h.words.len(),
            forall|j: int|
                0 <= j < elems@.len() ==> valid_term(h, #[trigger] elems@[j]@) && atoms_below(
                    term_val(h, elems@[j]@),
                    old(vm).atoms@.len(),
                ),
            items_of(v0) =~= Seq::new(elems@.len(), |j: int| term_val(h, elems@[j]@)) + items_of(
                term_val(h, x@),
            ),
            (match list_len_v(term_val(h, x@)) {
                Some(k) => list_len_v(v0) == Some((elems@.len() + k) as nat),
                None => list_len_v(v0) is None,
            }),
            raws_of(args@)[0] == args@[0]@,
            raws_of(args@)[1] == args@[1]@,
        ensures
            term_val(h, x@) == Val::Nil,
        decreases tmeas(x@),
    {
        if LTerm::is_same(x, LTerm::nil()) {
            proof {
                assert(7u64 & 7u64 == 7u64) by (bit_vector);
                assert(term_val(h, x@) == Val::Nil);
            }
            break;
        }
        if !x.is_cons() {
            proof {
                assert(list_len_v(term_val(h, x@)) is None);
            }
            return Err(Error::Exception(ExceptionType::Error, LTerm::make_atom(ATOM_BADARG)));
        }
        let hd = curr_p.heap.cons_hd(x);
        let tl = curr_p.heap.cons_tl(x);
        elems.push(hd);
        proof {
            assert(items_of(term_val(h, x@))[0] == term_val(h, hd@));
            assert(items_of(term_val(h, x@)).drop_first() =~= items_of(term_val(h, tl@)));
        }
        x = tl;
    }
    // x is nil: the left operand is proper, its items are in `elems`.
    let ghost ivals = Seq::new(elems@.len(), |j: int| term_val(h, elems@[j]@));
    proof {
        assert(items_of(v0) =~= ivals);
        lemma_append_items(v0, vb);
    }
    let n = elems.len();
    if n as u64 > 0x1000_0000_0000u64 {
        return Err(Error::HeapIsFull);
    }
    if ((curr_p.heap.capacity - curr_p.heap.words.len()) as u64) < 2 * (n as u64) {
        return Err(Error::HeapIsFull);
    }
    let mut t = b;
    let mut k: usize = n;
    proof {
        assert(ivals.skip(n as int) =~= Seq::<Val>::empty());
        assert(curr_p.heap@.words.subrange(0, h.words.len() as int) =~= h.words);
        assert(curr_p.heap@.bigs.subrange(0, h.bigs.len() as int) =~= h.bigs);
    }
    loop
        invariant
            k <= n,
            n == elems@.len(),
            curr_p.inv(),
            curr_p.pid == old(curr_p).pid,
            curr_p.heap.capacity == old(curr_p).heap.capacity,
            curr_p.heap.ys@ == old(curr_p).heap.ys@,
            *vm == *old(vm),
            curr_p.heap@.words.len() == h.words.len() + 2 * (n - k),
            h.words.len() + 2 * n <= curr_p.heap.capacity,
            heap_extends(curr_p.heap@, h),
            preserved(curr_p.heap@, h),
            valid_term(curr_p.heap@, t@),
            term_val(curr_p.heap@, t@) == append_items(ivals.skip(k as int), vb),
            forall|j: int|
                0 <= j < elems@.len() ==> valid_term(h, #[trigger] elems@[j]@),
            ivals == Seq::new(elems@.len(), |j: int| term_val(h, elems@[j]@)),
        ensures
            term_val(curr_p.heap@, t@) == append_items(ivals, vb),
            valid_term(curr_p.heap@, t@),
        decreases k,
    {
        if k == 0 {
            proof {
                assert(ivals.skip(0) =~= ivals);
            }
            break;
        }
        let e = elems[k - 1];
        let ghost hpre = curr_p.heap@;
        proof {
            assert(valid_term(h, e@));
            assert(term_val(hpre, e@) == term_val(h, e@));
            assert(valid_term(hpre, e@));
        }
        match curr_p.heap.alloc_cons(e, t) {
            Ok(nt) => {
                proof {
                    assert(ivals.skip(k - 1)[0] == ivals[k - 1]);
                    assert(ivals.skip(k - 1).drop_first() =~= ivals.skip(k as int));
                    lemma_extends_trans(curr_p.heap@, hpre, h);
                    lemma_preserved_trans(curr_p.heap@, hpre, h);
                }
                t = nt;
                k = k - 1;
            },
            Err(_) => {
                proof {
                    assert(false);
                }
                return Err(Error::HeapIsFull);
            },
        }
    }
    proof {
        assert(Some(term_val(curr_p.heap@, t@)) == crate::gen_bif::append_v(v0, vb));
    }
    Ok(t)
}

/// Render an atom's interned name as a list of character codes.
pub fn bif_erlang_atom_to_list_1(vm: &mut VM, curr_p: &mut Process, args: &Vec<LTerm>) -> (r:
    RtResult<LTerm>)
    requires
        old(curr_p).inv(),
        args@.len() == 1,
        crate::bif_sys::bif_args_ok(*old(curr_p), old(vm).atoms@.len(), args@),
    ensures
        *final(vm) == *old(vm),
        final(curr_p).inv(),
        final(curr_p).pid == old(curr_p).pid,
        final(curr_p).heap.capacity == old(curr_p).heap.capacity,
        final(curr_p).heap.ys@ == old(curr_p).heap.ys@,
        bif_post(
            BifId::AtomToList,
            old(vm).atoms@,
            old(curr_p).heap@,
            final(curr_p).heap@,
            old(curr_p).heap.capacity as int,
            old(curr_p).pid as nat,
            raws_of(args@),
            r,
        ),
{
    let t = args[0];
    if !t.is_atom() {
        return Err(Error::Exception(ExceptionType::Error, LTerm::make_atom(ATOM_BADARG)));
    }
    let nlen = vm.atoms.names.len();
    proof {
        assert(crate::lterm::imm_of(t@) < nlen);
    }
    let i = t.get_atom_index() as usize;
    proof {
        assert(i == crate::lterm::imm_of(t@));
        assert(vm.atoms@[i as int] == vm.atoms.names@[i as int]@);
    }
    let name = &vm.atoms.names[i];
    build_byte_list(&mut curr_p.heap, name)
}

/// Render an integer, small or bignum, as a list of decimal digit
/// character codes, with a leading minus sign for negatives.
pub fn bif_erlang_integer_to_list_1(vm: &mut VM, curr_p: &mut Process, args: &Vec<LTerm>) -> (r:
    RtResult<LTerm>)
    requires
        old(curr_p).inv(),
        args@.len() == 1,
        crate::bif_sys::bif_args_ok(*old(curr_p), old(vm).atoms@.len(), args@),
    ensures
        *final(vm) == *old(vm),
        final(curr_p).inv(),
        final(curr_p).pid == old(curr_p).pid,
        final(curr_p).heap.capacity == old(curr_p).heap.capacity,
        final(curr_p).heap.ys@ == old(curr_p).heap.ys@,
        bif_post(
            BifId::IntegerToList,
            old(vm).atoms@,
            old(curr_p).heap@,
            final(curr_p).heap@,
            old(curr_p).heap.capacity as int,
            old(curr_p).pid as nat,
            raws_of(args@),
            r,
        ),
{
    let t = args[0];
    if t.is_small() {
        proof {
            crate::lterm::lemma_small_range(t@);
        }
        let v = t.get_small_signed();
        let bytes = if v < 0 {
            let mut neg: Vec<u8> = Vec::new();
            neg.push(45);
            let mut d = u64_to_dec((-v) as u64);
            neg.append(&mut d);
            proof {
                assert(neg@ =~= int_dec_bytes(v as int));
            }
            neg
        } else {
            u64_to_dec(v as u64)
        };
        build_byte_list(&mut curr_p.heap, &bytes)
    } else if t.is_boxed() && curr_p.heap.boxed_type(t) == crate::lterm::BOXTYPE_BIGINTEGER {
        let bytes = crate::bignum::big_to_dec_bytes(curr_p.heap.big_ref(t));
        build_byte_list(&mut curr_p.heap, &bytes)
    } else {
        Err(Error::Exception(ExceptionType::Error, LTerm::make_atom(ATOM_BADARG)))
    }
}

/// Whether the first argument is, under exact comparison, an element of
/// the list given second.
pub fn bif_lists_member_2(vm: &mut VM, curr_p: &mut Process, args: &Vec<LTerm>) -> (r: RtResult<
    LTerm,
>)
    requires
        old(curr_p).inv(),
        args@.len() == 2,
        crate::bif_sys::bif_args_ok(*old(curr_p), old(vm).atoms@.len(), args@),
    ensures
        *final(vm) == *old(vm),
        *final(curr_p) == *old(curr_p),
        bif_post(
            BifId::Member,
            old(vm).atoms@,
            old(curr_p).heap@,
            final(curr_p).heap@,
            old(curr_p).heap.capacity as int,
            old(curr_p).pid as nat,
            raws_of(args@),
            r,
        ),
{
    let ghost h = curr_p.heap@;
    let ghost names = old(vm).atoms@;
    let ghost vx = term_val(h, args@[0]@);
    let ghost v1 = term_val(h, args@[1]@);
    let x = args[0];
    let mut l = args[1];
    proof {
        lemma_valid_tmeas(h, l@);
    }
    loop
        invariant
            args@.len() == 2,
            curr_p.inv(),
            *curr_p == *old(curr_p),
            *vm == *old(vm),
            h == curr_p.heap@,
            names == vm.atoms@,
            vx == term_val(h, args@[0]@),
            v1 == term_val(h, args@[1]@),
            x@ == args@[0]@,
            valid_term(h, x@),
            atoms_below(vx, names.len()),
            atoms_below(term_val(h, x@), names.len()),
            valid_term(h, l@),
            atoms_below(term_val(h, l@), names.len()),
            member_v(names, vx, term_val(h, l@)) == member_v(names, vx, v1),
            raws_of(args@)[0] == args@[0]@,
            raws_of(args@)[1] == args@[1]@,
        decreases tmeas(l@),
    {
        if LTerm::is_same(l, LTerm::nil()) {
            proof {
                assert(7u64 & 7u64 == 7u64) by (bit_vector);
                assert(term_val(h, l@) == Val::Nil);
            }
            return Ok(make_bool(false));
        }
        if !l.is_cons() {
            proof {
                assert(member_v(names, vx, term_val(h, l@)) is None);
            }
            return Err(Error::Exception(ExceptionType::Error, LTerm::make_atom(ATOM_BADARG)));
        }
        let hd = curr_p.heap.cons_hd(l);
        proof {
            assert(term_val(h, l@) is Cons);
            assert(valid_term(h, hd@));
            assert(atoms_below(term_val(h, hd@), names.len()));
        }
        match cmp_terms(&curr_p.heap, &vm.atoms, x, hd, true) {
            Ok(o) => {
                if matches!(o, Ordering::Equal) {
                    return Ok(make_bool(true));
                }
            },
            Err(_) => {
                // The comparator succeeds on all well-formed arguments.
                proof {
                    assert(false);
                }
                return Err(Error::Exception(
                    ExceptionType::Error,
                    LTerm::make_atom(ATOM_BADARG),
                ));
            },
        }
        l = curr_p.heap.cons_tl(l);
    }
}

} // verus!

