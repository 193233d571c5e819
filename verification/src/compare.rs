//! Strict and non-strict term comparison. The main loop keeps an explicit
//! work stack of comparisons to resume instead of recursing on the native
//! stack, so adversarially deep structures cannot overflow it; cons chains
//! advance iteratively without growing the stack at all. The result is
//! proved equal to the total order `cmp_spec` on the decoded values.

use vstd::prelude::*;

use core::cmp::Ordering;

use crate::atoms::{lemma_bytes_lex_skip, AtomTable};
use crate::bignum::{big_cmp, big_from_i128};
use crate::fail::RtResult;
use crate::heap::Heap;
use crate::lterm::{
    imm_of, tag_of, LTerm, BOXTYPE_BIGINTEGER, BOXTYPE_CLOSURE, BOXTYPE_EXPORT,
    BOXTYPE_FLOAT, BOXTYPE_IMPORT, BOXTYPE_TUPLE, EMPTY_BINARY_RAW,
    TERMTAG_ATOM, TERMTAG_CONS, TERMTAG_LOCALPID, TERMTAG_LOCALPORT, TERMTAG_SMALL,
    TERMTAG_SPECIAL,
};
use crate::model::{
    atoms_below, lemma_seq_atoms_below_index, lemma_seq_vals_ok_index,
    lemma_seq_vals_size_skip, lemma_val_size_pos, seq_vals_size, term_val,
    tuple_len_v, val_size, valid_term, HeapM,
};
use crate::numcmp::{cmp_big_float, cmp_float_bits, cmp_small_float, lemma_int_scale, rev_ord};
use crate::order::{
    bin_of, bytes_lex, class_of, cmp_elems, cmp_spec, elems_of, lemma_cmp_elems_skip,
    lemma_cmp_refl, lex2, num_scaled, ord_int,
};

verus! {

/// Where to resume comparing after a nested pair is settled.
#[derive(Clone, Copy)]
pub enum ContinueCompare {
    /// Generic dispatch on both terms.
    AnyType { a: LTerm, b: LTerm },
    /// Resume a list walk at these tails.
    Cons { a: LTerm, b: LTerm },
    /// Resume a tuple walk at element `i` (zero based).
    Tuple { a: LTerm, b: LTerm, i: u64 },
}

/// Outcome of one comparison step.
pub enum EqResult {
    /// The comparison of the current pair is settled.
    Concluded(Ordering),
    /// Keep going with this pair; nothing further is pending.
    Continue { a: LTerm, b: LTerm },
    /// Step into the nested pair `(a, b)`; resume at `state` afterwards.
    CompareNested { a: LTerm, b: LTerm, state: ContinueCompare },
}

/// Both terms of a pending operation are well formed on the heap and only
/// mention interned atoms; a tuple resume point is within bounds.
pub open spec fn op_ok(h: HeapM, nlen: nat, op: ContinueCompare) -> bool {
    match op {
        ContinueCompare::AnyType { a, b } => {
            &&& valid_term(h, a@)
            &&& valid_term(h, b@)
            &&& atoms_below(term_val(h, a@), nlen)
            &&& atoms_below(term_val(h, b@), nlen)
        },
        ContinueCompare::Cons { a, b } => {
            &&& valid_term(h, a@)
            &&& valid_term(h, b@)
            &&& atoms_below(term_val(h, a@), nlen)
            &&& atoms_below(term_val(h, b@), nlen)
        },
        ContinueCompare::Tuple { a, b, i } => {
            &&& valid_term(h, a@)
            &&& valid_term(h, b@)
            &&& atoms_below(term_val(h, a@), nlen)
            &&& atoms_below(term_val(h, b@), nlen)
            &&& term_val(h, a@) is Tuple
            &&& term_val(h, b@) is Tuple
            &&& tuple_len_v(term_val(h, a@)) == tuple_len_v(term_val(h, b@))
            &&& i <= tuple_len_v(term_val(h, a@))
        },
    }
}

/// The ordering a pending operation denotes.
pub open spec fn op_ord(names: Seq<Seq<u8>>, h: HeapM, op: ContinueCompare, exact: bool) -> Ordering {
    match op {
        ContinueCompare::AnyType { a, b } => cmp_spec(names, term_val(h, a@), term_val(h, b@), exact),
        ContinueCompare::Cons { a, b } => cmp_spec(names, term_val(h, a@), term_val(h, b@), exact),
        ContinueCompare::Tuple { a, b, i } => cmp_elems(
            names,
            elems_of(term_val(h, a@)).skip(i as int),
            elems_of(term_val(h, b@)).skip(i as int),
            exact,
        ),
    }
}

/// Structural weight left in a pending operation; the loop's main measure.
pub open spec fn op_weight(h: HeapM, op: ContinueCompare) -> int {
    match op {
        ContinueCompare::AnyType { a, b } => 2 * val_size(term_val(h, a@)) as int,
        ContinueCompare::Cons { a, b } => 2 * val_size(term_val(h, a@)) as int,
        ContinueCompare::Tuple { a, b, i } => 2 * seq_vals_size(
            elems_of(term_val(h, a@)).skip(i as int),
        ) as int + 1,
    }
}

/// Pending tuple elements; breaks ties when a tuple resume keeps the weight.
pub open spec fn op_tcnt(h: HeapM, op: ContinueCompare) -> int {
    match op {
        ContinueCompare::Tuple { a, b, i } => tuple_len_v(term_val(h, a@)) - i,
        _ => 0,
    }
}

pub open spec fn stack_ok(h: HeapM, nlen: nat, stack: Seq<ContinueCompare>) -> bool {
    forall|k: int| 0 <= k < stack.len() ==> op_ok(h, nlen, #[trigger] stack[k])
}

/// Ordering denoted by the whole stack, resumed top (last pushed) first.
pub open spec fn stack_ord(names: Seq<Seq<u8>>, h: HeapM, stack: Seq<ContinueCompare>, exact: bool) -> Ordering
    decreases stack.len(),
{
    if stack.len() == 0 {
        Ordering::Equal
    } else {
        lex2(op_ord(names, h, stack.last(), exact), stack_ord(names, h, stack.drop_last(), exact))
    }
}

pub open spec fn stack_weight(h: HeapM, stack: Seq<ContinueCompare>) -> int
    decreases stack.len(),
{
    if stack.len() == 0 {
        0
    } else {
        op_weight(h, stack.last()) + stack_weight(h, stack.drop_last())
    }
}

pub open spec fn stack_tcnt(h: HeapM, stack: Seq<ContinueCompare>) -> int
    decreases stack.len(),
{
    if stack.len() == 0 {
        0
    } else {
        op_tcnt(h, stack.last()) + stack_tcnt(h, stack.drop_last())
    }
}

proof fn lemma_op_weight_pos(h: HeapM, op: ContinueCompare)
    ensures
        op_weight(h, op) >= 1,
{
    match op {
        ContinueCompare::AnyType { a, b } => {
            lemma_val_size_pos(term_val(h, a@));
        },
        ContinueCompare::Cons { a, b } => {
            lemma_val_size_pos(term_val(h, a@));
        },
        ContinueCompare::Tuple { a, b, i } => {},
    }
}

proof fn lemma_stack_weight_nonneg(h: HeapM, stack: Seq<ContinueCompare>)
    ensures
        stack_weight(h, stack) >= 0,
    decreases stack.len(),
{
    if stack.len() > 0 {
        lemma_op_weight_pos(h, stack.last());
        lemma_stack_weight_nonneg(h, stack.drop_last());
    }
}

proof fn lemma_stack_tcnt_nonneg(h: HeapM, nlen: nat, stack: Seq<ContinueCompare>)
    requires
        stack_ok(h, nlen, stack),
    ensures
        stack_tcnt(h, stack) >= 0,
    decreases stack.len(),
{
    if stack.len() > 0 {
        assert(op_ok(h, nlen, stack[stack.len() - 1]));
        assert(forall|k: int|
            0 <= k < stack.drop_last().len() ==> op_ok(h, nlen, #[trigger] stack.drop_last()[k]));
        lemma_stack_tcnt_nonneg(h, nlen, stack.drop_last());
    }
}

/// Exact order class of a term, computed from its tag and box header.
fn term_class(heap: &Heap, t: LTerm, exact: bool) -> (r: u64)
    requires
        heap.inv(),
        valid_term(heap@, t@),
    ensures
        r as int == class_of(term_val(heap@, t@), exact),
{
    let tag = t.get_term_tag();
    if tag == TERMTAG_SMALL {
        0
    } else if tag == TERMTAG_ATOM {
        2
    } else if tag == TERMTAG_LOCALPORT {
        5
    } else if tag == TERMTAG_LOCALPID {
        6
    } else if tag == TERMTAG_CONS {
        9
    } else if tag == TERMTAG_SPECIAL {
        if LTerm::is_same(t, LTerm::nil()) {
            8
        } else if LTerm::is_same(t, LTerm::empty_tuple()) {
            7
        } else {
            proof {
                assert(t@ == EMPTY_BINARY_RAW);
            }
            10
        }
    } else {
        proof {
            assert(crate::lterm::is_boxed_s(t@));
        }
        let bt = heap.boxed_type(t);
        if bt == BOXTYPE_TUPLE {
            7
        } else if bt == BOXTYPE_BIGINTEGER {
            0
        } else if bt == BOXTYPE_FLOAT {
            if exact {
                1
            } else {
                0
            }
        } else if bt == BOXTYPE_CLOSURE {
            3
        } else if bt == BOXTYPE_EXPORT {
            4
        } else if bt == BOXTYPE_IMPORT {
            11
        } else {
            10
        }
    }
}

/// Compare two u64 payloads.
fn ord_u64(x: u64, y: u64) -> (r: Ordering)
    ensures
        r == ord_int(x as int, y as int),
{
    if x < y {
        Ordering::Less
    } else if x > y {
        Ordering::Greater
    } else {
        Ordering::Equal
    }
}

/// Numeric comparison of two terms of the number class: any mix of small
/// integers, bignums and floats, over the values scaled by 2^1074.
fn cmp_numbers(heap: &Heap, a: LTerm, b: LTerm) -> (r: Ordering)
    requires
        heap.inv(),
        valid_term(heap@, a@),
        valid_term(heap@, b@),
        class_of(term_val(heap@, a@), false) == 0,
        class_of(term_val(heap@, b@), false) == 0,
    ensures
        r == ord_int(num_scaled(term_val(heap@, a@)), num_scaled(term_val(heap@, b@))),
{
    let ghost va = term_val(heap@, a@);
    let ghost vb = term_val(heap@, b@);
    proof {
        crate::lterm::lemma_small_range(a@);
        crate::lterm::lemma_small_range(b@);
    }
    if a.is_small() {
        let av = a.get_small_signed();
        if b.is_small() {
            proof {
                lemma_int_scale(av as int, crate::lterm::small_of(b@) as int);
            }
            if av < b.get_small_signed() {
                Ordering::Less
            } else if av > b.get_small_signed() {
                Ordering::Greater
            } else {
                Ordering::Equal
            }
        } else {
            proof {
                assert(crate::lterm::is_boxed_s(b@));
            }
            let bt = heap.boxed_type(b);
            if bt == BOXTYPE_BIGINTEGER {
                let bb = heap.big_ref(b);
                let ab = big_from_i128(av as i128);
                let r = big_cmp(&ab, bb);
                proof {
                    lemma_int_scale(av as int, vb->Big_0);
                }
                r
            } else {
                cmp_small_float(av, heap.float_bits(b))
            }
        }
    } else {
        proof {
            assert(crate::lterm::is_boxed_s(a@));
        }
        let bta = heap.boxed_type(a);
        if bta == BOXTYPE_FLOAT {
            let fa = heap.float_bits(a);
            if b.is_small() {
                let r = rev_ord(cmp_small_float(b.get_small_signed(), fa));
                r
            } else {
                proof {
                    assert(crate::lterm::is_boxed_s(b@));
                }
                let bt = heap.boxed_type(b);
                if bt == BOXTYPE_FLOAT {
                    cmp_float_bits(fa, heap.float_bits(b))
                } else {
                    rev_ord(cmp_big_float(heap.big_ref(b), fa))
                }
            }
        } else {
            let ba = heap.big_ref(a);
            if b.is_small() {
                let bb = big_from_i128(b.get_small_signed() as i128);
                let r = big_cmp(ba, &bb);
                proof {
                    lemma_int_scale(va->Big_0, crate::lterm::small_of(b@) as int);
                }
                r
            } else {
                proof {
                    assert(crate::lterm::is_boxed_s(b@));
                }
                let bt = heap.boxed_type(b);
                if bt == BOXTYPE_FLOAT {
                    cmp_big_float(ba, heap.float_bits(b))
                } else {
                    let bb = heap.big_ref(b);
                    let r = big_cmp(ba, bb);
                    proof {
                        lemma_int_scale(va->Big_0, vb->Big_0);
                    }
                    r
                }
            }
        }
    }
}

/// Byte count of a binary-class term (zero for the empty-binary constant).
fn binary_class_len(heap: &Heap, t: LTerm) -> (r: u64)
    requires
        heap.inv(),
        valid_term(heap@, t@),
        class_of(term_val(heap@, t@), true) == 10,
    ensures
        r == bin_of(term_val(heap@, t@)).len(),
{
    if t.get_term_tag() == TERMTAG_SPECIAL {
        0
    } else {
        proof {
            assert(crate::lterm::is_boxed_s(t@));
        }
        heap.binary_len(t)
    }
}

/// Lexicographic comparison of two binary-class terms.
fn cmp_binaries(heap: &Heap, a: LTerm, b: LTerm) -> (r: Ordering)
    requires
        heap.inv(),
        valid_term(heap@, a@),
        valid_term(heap@, b@),
        class_of(term_val(heap@, a@), true) == 10,
        class_of(term_val(heap@, b@), true) == 10,
    ensures
        r == bytes_lex(bin_of(term_val(heap@, a@)), bin_of(term_val(heap@, b@))),
{
    let ghost xs = bin_of(term_val(heap@, a@));
    let ghost ys = bin_of(term_val(heap@, b@));
    let xn = binary_class_len(heap, a);
    let yn = binary_class_len(heap, b);
    let mut k: u64 = 0;
    loop
        invariant
            heap.inv(),
            valid_term(heap@, a@),
            valid_term(heap@, b@),
            class_of(term_val(heap@, a@), true) == 10,
            class_of(term_val(heap@, b@), true) == 10,
            xs == bin_of(term_val(heap@, a@)),
            ys == bin_of(term_val(heap@, b@)),
            k <= xn,
            k <= yn,
            xn == xs.len(),
            yn == ys.len(),
            forall|j: int| 0 <= j < k ==> xs[j] == ys[j],
        decreases xn - k,
    {
        proof {
            lemma_bytes_lex_skip(xs, ys, k as int);
        }
        if k == xn || k == yn {
            if xn == yn {
                return Ordering::Equal;
            } else if xn < yn {
                return Ordering::Less;
            } else {
                return Ordering::Greater;
            }
        }
        let xb = heap.binary_byte(a, k);
        let yb = heap.binary_byte(b, k);
        if xb < yb {
            return Ordering::Less;
        } else if xb > yb {
            return Ordering::Greater;
        }
        k += 1;
    }
}

/// Element count of a tuple-class term (zero for the empty-tuple constant).
fn tuple_class_len(heap: &Heap, t: LTerm) -> (r: u64)
    requires
        heap.inv(),
        valid_term(heap@, t@),
        class_of(term_val(heap@, t@), true) == 7,
    ensures
        r == elems_of(term_val(heap@, t@)).len(),
{
    if t.get_term_tag() == TERMTAG_SPECIAL {
        0
    } else {
        proof {
            assert(crate::lterm::is_boxed_s(t@));
        }
        heap.tuple_arity(t)
    }
}

/// One comparison step on a pending pair; branches on the terms' types and
/// either concludes or descends one structural level.
fn cmp_terms_any_type(heap: &Heap, atoms: &AtomTable, a: LTerm, b: LTerm, exact: bool) -> (r:
    EqResult)
    requires
        heap.inv(),
        op_ok(heap@, atoms@.len(), ContinueCompare::AnyType { a, b }),
    ensures
        step_post(r, atoms@, heap@, ContinueCompare::AnyType { a, b }, exact),
{
    let ghost names = atoms@;
    let ghost h = heap@;
    let ghost va = term_val(h, a@);
    let ghost vb = term_val(h, b@);
    if LTerm::is_same(a, b) {
        proof {
            lemma_cmp_refl(names, va, exact);
        }
        return EqResult::Concluded(Ordering::Equal);
    }
    let ca = term_class(heap, a, exact);
    let cb = term_class(heap, b, exact);
    if ca != cb {
        return EqResult::Concluded(ord_u64(ca, cb));
    }
    if ca == 0 {
        EqResult::Concluded(cmp_numbers(heap, a, b))
    } else if ca == 1 {
        EqResult::Concluded(cmp_float_bits(heap.float_bits(a), heap.float_bits(b)))
    } else if ca == 2 {
        EqResult::Concluded(atoms.cmp_atoms(a, b))
    } else if ca == 7 {
        let na = tuple_class_len(heap, a);
        let nb = tuple_class_len(heap, b);
        if na != nb {
            return EqResult::Concluded(ord_u64(na, nb));
        }
        proof {
            if na == 0 {
                assert(false);
            }
        }
        let ea = heap.tuple_element(a, 0);
        let eb = heap.tuple_element(b, 0);
        proof {
            let sa = elems_of(va);
            let sb = elems_of(vb);
            lemma_seq_vals_ok_index(sa, 0);
            lemma_seq_vals_ok_index(sb, 0);
            lemma_seq_atoms_below_index(sa, names.len(), 0);
            lemma_seq_atoms_below_index(sb, names.len(), 0);
            assert(sa.skip(1) =~= sa.drop_first());
            assert(sb.skip(1) =~= sb.drop_first());
            lemma_seq_vals_size_skip(sa, 0);
            assert(sa.skip(0) =~= sa);
            assert(term_val(h, ea@) == sa[0]);
            assert(term_val(h, eb@) == sb[0]);
            assert(cmp_spec(names, va, vb, exact) == cmp_elems(names, sa, sb, exact));
            assert(cmp_elems(names, sa, sb, exact) == lex2(
                cmp_spec(names, sa[0], sb[0], exact),
                cmp_elems(names, sa.drop_first(), sb.drop_first(), exact),
            ));
        }
        EqResult::CompareNested { a: ea, b: eb, state: ContinueCompare::Tuple { a, b, i: 1 } }
    } else if ca == 9 {
        cmp_cons(heap, atoms, a, b, exact)
    } else if ca == 10 {
        EqResult::Concluded(cmp_binaries(heap, a, b))
    } else if ca == 3 {
        let fa = heap.closure_fields(a);
        let fb = heap.closure_fields(b);
        let m_ord = atoms.cmp_atoms(fa.0, fb.0);
        let r = if !matches!(m_ord, Ordering::Equal) {
            m_ord
        } else {
            let i_ord = ord_u64(fa.1, fb.1);
            if !matches!(i_ord, Ordering::Equal) {
                i_ord
            } else {
                let u_ord = ord_u64(fa.2, fb.2);
                if !matches!(u_ord, Ordering::Equal) {
                    u_ord
                } else {
                    ord_u64(fa.3, fb.3)
                }
            }
        };
        EqResult::Concluded(r)
    } else if ca == 4 {
        let fa = heap.export_fields(a);
        let fb = heap.export_fields(b);
        let m_ord = atoms.cmp_atoms(fa.0, fb.0);
        let r = if !matches!(m_ord, Ordering::Equal) {
            m_ord
        } else {
            let f_ord = atoms.cmp_atoms(fa.1, fb.1);
            if !matches!(f_ord, Ordering::Equal) {
                f_ord
            } else {
                ord_u64(fa.2, fb.2)
            }
        };
        EqResult::Concluded(r)
    } else if ca == 5 || ca == 6 {
        EqResult::Concluded(ord_u64(a.get_atom_index(), b.get_atom_index()))
    } else if ca == 11 {
        let fa = heap.import_fields(a);
        let fb = heap.import_fields(b);
        let m_ord = ord_u64(imm_term(fa.0), imm_term(fb.0));
        let r = if !matches!(m_ord, Ordering::Equal) {
            m_ord
        } else {
            let f_ord = ord_u64(imm_term(fa.1), imm_term(fb.1));
            if !matches!(f_ord, Ordering::Equal) {
                f_ord
            } else {
                let a_ord = ord_u64(fa.2, fb.2);
                if !matches!(a_ord, Ordering::Equal) {
                    a_ord
                } else {
                    ord_u64(if fa.3 { 1 } else { 0 }, if fb.3 { 1 } else { 0 })
                }
            }
        };
        EqResult::Concluded(r)
    } else {
        // Class 8 holds only nil, and identical raw words were handled
        // above; well-formed values rule everything else out.
        proof {
            assert(false);
        }
        EqResult::Concluded(Ordering::Equal)
    }
}

/// Atom-table payload of an atom term.
fn imm_term(t: LTerm) -> (r: u64)
    ensures
        r == imm_of(t@),
{
    t.get_atom_index()
}

/// The iterative list walk: advance through raw-identical heads without
/// touching the stack; descend only where the heads differ.
fn cmp_cons(heap: &Heap, atoms: &AtomTable, a: LTerm, b: LTerm, exact: bool) -> (r: EqResult)
    requires
        heap.inv(),
        op_ok(heap@, atoms@.len(), ContinueCompare::AnyType { a, b }),
        tag_of(a@) == TERMTAG_CONS,
        tag_of(b@) == TERMTAG_CONS,
    ensures
        step_post(r, atoms@, heap@, ContinueCompare::AnyType { a, b }, exact),
{
    let ghost names = atoms@;
    let ghost h = heap@;
    let mut x = a;
    let mut y = b;
    loop
        invariant
            heap.inv(),
            names == atoms@,
            h == heap@,
            op_ok(h, names.len(), ContinueCompare::AnyType { a: x, b: y }),
            tag_of(x@) == TERMTAG_CONS,
            tag_of(y@) == TERMTAG_CONS,
            cmp_spec(names, term_val(h, x@), term_val(h, y@), exact) == cmp_spec(
                names,
                term_val(h, a@),
                term_val(h, b@),
                exact,
            ),
            val_size(term_val(h, x@)) <= val_size(term_val(h, a@)),
        decreases val_size(term_val(h, x@)),
    {
        let ghost vx = term_val(h, x@);
        let ghost vy = term_val(h, y@);
        let hx = heap.cons_hd(x);
        let hy = heap.cons_hd(y);
        let tx = heap.cons_tl(x);
        let ty = heap.cons_tl(y);
        if !LTerm::is_same(hx, hy) {
            return EqResult::CompareNested {
                a: hx,
                b: hy,
                state: ContinueCompare::Cons { a: tx, b: ty },
            };
        }
        proof {
            lemma_cmp_refl(names, term_val(h, hx@), exact);
        }
        if LTerm::is_same(tx, ty) {
            proof {
                lemma_cmp_refl(names, term_val(h, tx@), exact);
            }
            return EqResult::Concluded(Ordering::Equal);
        }
        if !tx.is_cons() || !ty.is_cons() {
            return EqResult::Continue { a: tx, b: ty };
        }
        x = tx;
        y = ty;
    }
}

/// What a step's result must satisfy relative to the operation it served:
/// the denoted ordering is preserved, and the measure goes down.
pub open spec fn step_post(
    r: EqResult,
    names: Seq<Seq<u8>>,
    h: HeapM,
    op: ContinueCompare,
    exact: bool,
) -> bool {
    match r {
        EqResult::Concluded(o) => o == op_ord(names, h, op, exact),
        EqResult::Continue { a, b } => {
            let o2 = ContinueCompare::AnyType { a, b };
            &&& op_ok(h, names.len(), o2)
            &&& op_ord(names, h, o2, exact) == op_ord(names, h, op, exact)
            &&& op_weight(h, o2) < op_weight(h, op)
        },
        EqResult::CompareNested { a, b, state } => {
            let o2 = ContinueCompare::AnyType { a, b };
            &&& op_ok(h, names.len(), o2)
            &&& op_ok(h, names.len(), state)
            &&& lex2(op_ord(names, h, o2, exact), op_ord(names, h, state, exact)) == op_ord(
                names,
                h,
                op,
                exact,
            )
            &&& (op_weight(h, o2) + op_weight(h, state) < op_weight(h, op) || (op_weight(h, o2)
                + op_weight(h, state) == op_weight(h, op) && op_tcnt(h, state) < op_tcnt(h, op)))
        },
    }
}

/// One step on any pending operation.
fn cmp_step(heap: &Heap, atoms: &AtomTable, op: ContinueCompare, exact: bool) -> (r: EqResult)
    requires
        heap.inv(),
        op_ok(heap@, atoms@.len(), op),
    ensures
        step_post(r, atoms@, heap@, op, exact),
{
    let ghost names = atoms@;
    let ghost h = heap@;
    match op {
        ContinueCompare::AnyType { a, b } => cmp_terms_any_type(heap, atoms, a, b, exact),
        ContinueCompare::Cons { a, b } => cmp_terms_any_type(heap, atoms, a, b, exact),
        ContinueCompare::Tuple { a, b, i } => {
            let ghost va = term_val(h, a@);
            let ghost vb = term_val(h, b@);
            let ghost sa = elems_of(va);
            let ghost sb = elems_of(vb);
            let n = heap.tuple_arity(a);
            if i == n {
                proof {
                    assert(sa.skip(i as int).len() == 0);
                    assert(sb.skip(i as int).len() == 0);
                }
                return EqResult::Concluded(Ordering::Equal);
            }
            let ea = heap.tuple_element(a, i);
            let eb = heap.tuple_element(b, i);
            proof {
                lemma_seq_vals_ok_index(sa, i as int);
                lemma_seq_vals_ok_index(sb, i as int);
                lemma_seq_atoms_below_index(sa, names.len(), i as int);
                lemma_seq_atoms_below_index(sb, names.len(), i as int);
                lemma_cmp_elems_skip(names, sa, sb, i as int, exact);
                lemma_seq_vals_size_skip(sa, i as int);
            }
            EqResult::CompareNested {
                a: ea,
                b: eb,
                state: ContinueCompare::Tuple { a, b, i: i + 1 },
            }
        },
    }
}

/// Compare two terms for order, with `exact` deciding whether numeric
/// coercion across integers and floats applies. Deeply nested structures
/// are handled with the explicit stack, never native recursion.
pub fn cmp_terms(heap: &Heap, atoms: &AtomTable, a: LTerm, b: LTerm, exact: bool) -> (r: RtResult<
    Ordering,
>)
    requires
        heap.inv(),
        valid_term(heap@, a@),
        valid_term(heap@, b@),
        atoms_below(term_val(heap@, a@), atoms@.len()),
        atoms_below(term_val(heap@, b@), atoms@.len()),
    ensures
        match r {
            Ok(o) => o == cmp_spec(atoms@, term_val(heap@, a@), term_val(heap@, b@), exact),
            Err(_) => false,
        },
{
    let ghost names = atoms@;
    let ghost h = heap@;
    let ghost target = cmp_spec(names, term_val(h, a@), term_val(h, b@), exact);
    let mut stack: Vec<ContinueCompare> = Vec::new();
    let mut op = ContinueCompare::AnyType { a, b };
    loop
        invariant
            heap.inv(),
            names == atoms@,
            h == heap@,
            op_ok(h, names.len(), op),
            stack_ok(h, names.len(), stack@),
            lex2(op_ord(names, h, op, exact), stack_ord(names, h, stack@, exact)) == target,
            target == cmp_spec(names, term_val(h, a@), term_val(h, b@), exact),
        decreases
            op_weight(h, op) + stack_weight(h, stack@),
            op_tcnt(h, op) + stack_tcnt(h, stack@),
    {
        proof {
            lemma_op_weight_pos(h, op);
            lemma_stack_weight_nonneg(h, stack@);
            lemma_stack_tcnt_nonneg(h, names.len(), stack@);
            if op is Tuple {
                assert(op_tcnt(h, op) >= 0);
            }
        }
        let step = cmp_step(heap, atoms, op, exact);
        match step {
            EqResult::Concluded(result) => {
                if matches!(result, Ordering::Equal) {
                    let ghost pre = stack@;
                    match stack.pop() {
                        None => {
                            return Ok(Ordering::Equal);
                        },
                        Some(top) => {
                            proof {
                                assert(top == pre.last());
                                assert(stack@ =~= pre.drop_last());
                            }
                            op = top;
                        },
                    }
                } else {
                    return Ok(result);
                }
            },
            EqResult::Continue { a: a2, b: b2 } => {
                op = ContinueCompare::AnyType { a: a2, b: b2 };
            },
            EqResult::CompareNested { a: a2, b: b2, state } => {
                let ghost pre = stack@;
                stack.push(state);
                proof {
                    assert(stack@.last() == state);
                    assert(stack@.drop_last() =~= pre);
                }
                op = ContinueCompare::AnyType { a: a2, b: b2 };
            },
        }
    }
}

} // verus!
