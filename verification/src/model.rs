//! Mathematical model of terms. A heap is modelled as its word sequence
//! plus the values of its bignum store; `term_val` decodes a tagged word
//! against that model into an abstract value `Val`. Decoding is total: any
//! malformed word or heap layout decodes to `Val::Bad`, and `val_ok` marks
//! the values that well-formed runtime data can take. Heap objects only
//! ever point at lower heap addresses, which makes decoding well founded.
//! Maps and external pids, ports and references are not modelled: the
//! hashmap comparison is a design target only, and external identifiers
//! belong to the distribution layer outside this core.

use vstd::prelude::*;

use crate::lterm::{
    box_ptr_of, cons_ptr_of, header_arity_of, header_boxtype_of, imm_of, is_boxed_s, small_of,
    tag_of, BOXTYPE_BIGINTEGER, BOXTYPE_BINARY, BOXTYPE_CLOSURE, BOXTYPE_EXPORT, BOXTYPE_FLOAT,
    BOXTYPE_IMPORT, BOXTYPE_TUPLE, EMPTY_BINARY_RAW, EMPTY_TUPLE_RAW, NIL_RAW, SMALL_MAX,
    SMALL_MIN, TERMTAG_ATOM, TERMTAG_CONS, TERMTAG_HEADER, TERMTAG_LOCALPID, TERMTAG_LOCALPORT,
    TERMTAG_SMALL, TERMTAG_SPECIAL,
};

verus! {

/// Spec-level view of a process heap: the flat word array and the values
/// held by the bignum side store.
pub struct HeapM {
    pub words: Seq<u64>,
    pub bigs: Seq<int>,
}

/// Abstract value of a term.
#[verifier::ext_equal]
pub enum Val {
    Small(int),
    Big(int),
    /// A float by its IEEE-754 bit pattern.
    Float(u64),
    Atom(nat),
    Pid(nat),
    Port(nat),
    Nil,
    EmptyTuple,
    EmptyBinary,
    Cons(Box<Val>, Box<Val>),
    Tuple(Seq<Val>),
    Binary(Seq<u8>),
    /// Module atom, function atom, arity.
    Export(nat, nat, nat),
    /// Module atom, index, uniq, number of free variables.
    Closure(nat, nat, nat, nat),
    /// Module atom, function atom, arity, is-bif flag.
    Import(nat, nat, nat, bool),
    Bad,
}

/// Termination measure for decoding: pointer terms measure one past their
/// heap index, immediates measure zero.
pub open spec fn tmeas(w: u64) -> nat {
    if tag_of(w) == TERMTAG_CONS {
        cons_ptr_of(w) as nat + 1
    } else if is_boxed_s(w) {
        box_ptr_of(w) as nat + 1
    } else {
        0
    }
}

pub open spec fn float_finite(bits: u64) -> bool {
    (bits >> 52) & 0x7ff != 0x7ff
}

/// Decode a word against a heap model.
pub open spec fn term_val(h: HeapM, w: u64) -> Val
    decreases tmeas(w), 1int, 0int,
{
    let t = tag_of(w);
    if t == TERMTAG_SMALL {
        Val::Small(small_of(w) as int)
    } else if t == TERMTAG_ATOM {
        Val::Atom(imm_of(w) as nat)
    } else if t == TERMTAG_LOCALPID {
        Val::Pid(imm_of(w) as nat)
    } else if t == TERMTAG_LOCALPORT {
        Val::Port(imm_of(w) as nat)
    } else if t == TERMTAG_SPECIAL {
        if w == NIL_RAW {
            Val::Nil
        } else if w == EMPTY_TUPLE_RAW {
            Val::EmptyTuple
        } else if w == EMPTY_BINARY_RAW {
            Val::EmptyBinary
        } else {
            Val::Bad
        }
    } else if t == TERMTAG_CONS {
        let p = cons_ptr_of(w) as int;
        if p + 1 < h.words.len() {
            let hd = h.words[p];
            let tl = h.words[p + 1];
            if tmeas(hd) <= p && tmeas(tl) <= p {
                Val::Cons(Box::new(term_val(h, hd)), Box::new(term_val(h, tl)))
            } else {
                Val::Bad
            }
        } else {
            Val::Bad
        }
    } else if is_boxed_s(w) {
        let p = box_ptr_of(w) as int;
        if p < h.words.len() {
            let hw = h.words[p];
            let bt = header_boxtype_of(hw);
            let n = header_arity_of(hw) as int;
            if tag_of(hw) == TERMTAG_HEADER && p + n < h.words.len() {
                if bt == BOXTYPE_TUPLE {
                    if n >= 1 {
                        Val::Tuple(tuple_elems(h, p, n, 1))
                    } else {
                        Val::Bad
                    }
                } else if bt == BOXTYPE_BIGINTEGER {
                    if n == 1 && h.words[p + 1] < h.bigs.len() {
                        Val::Big(h.bigs[h.words[p + 1] as int])
                    } else {
                        Val::Bad
                    }
                } else if bt == BOXTYPE_FLOAT {
                    if n == 1 {
                        Val::Float(h.words[p + 1])
                    } else {
                        Val::Bad
                    }
                } else if bt == BOXTYPE_EXPORT {
                    if n == 3 && tag_of(h.words[p + 1]) == TERMTAG_ATOM && tag_of(
                        h.words[p + 2],
                    ) == TERMTAG_ATOM {
                        Val::Export(
                            imm_of(h.words[p + 1]) as nat,
                            imm_of(h.words[p + 2]) as nat,
                            h.words[p + 3] as nat,
                        )
                    } else {
                        Val::Bad
                    }
                } else if bt == BOXTYPE_IMPORT {
                    if n == 4 && tag_of(h.words[p + 1]) == TERMTAG_ATOM && tag_of(
                        h.words[p + 2],
                    ) == TERMTAG_ATOM {
                        Val::Import(
                            imm_of(h.words[p + 1]) as nat,
                            imm_of(h.words[p + 2]) as nat,
                            h.words[p + 3] as nat,
                            h.words[p + 4] != 0,
                        )
                    } else {
                        Val::Bad
                    }
                } else if bt == BOXTYPE_CLOSURE {
                    if n == 4 && tag_of(h.words[p + 1]) == TERMTAG_ATOM {
                        Val::Closure(
                            imm_of(h.words[p + 1]) as nat,
                            h.words[p + 2] as nat,
                            h.words[p + 3] as nat,
                            h.words[p + 4] as nat,
                        )
                    } else {
                        Val::Bad
                    }
                } else if bt == BOXTYPE_BINARY {
                    if n >= 1 {
                        Val::Binary(Seq::new(n as nat, |i: int| (h.words[p + 1 + i] & 0xff) as u8))
                    } else {
                        Val::Bad
                    }
                } else {
                    Val::Bad
                }
            } else {
                Val::Bad
            }
        } else {
            Val::Bad
        }
    } else {
        // HEADER words and continuation pointers are not values.
        Val::Bad
    }
}

/// Values of the elements `i ..= n` of the tuple whose header sits at `p`.
pub open spec fn tuple_elems(h: HeapM, p: int, n: int, i: int) -> Seq<Val>
    decreases p + 1, 0int, n + 1 - i,
{
    if i > n || i < 1 || p < 0 {
        Seq::empty()
    } else {
        let e = h.words[p + i];
        let v = if tmeas(e) <= p {
            term_val(h, e)
        } else {
            Val::Bad
        };
        seq![v] + tuple_elems(h, p, n, i + 1)
    }
}

/// Structural size of a value; drives termination of the comparator.
pub open spec fn val_size(v: Val) -> nat
    decreases v,
{
    match v {
        Val::Cons(hd, tl) => 1 + val_size(*hd) + val_size(*tl),
        Val::Tuple(s) => 1 + seq_vals_size(s),
        _ => 1,
    }
}

pub open spec fn seq_vals_size(s: Seq<Val>) -> nat
    decreases s,
{
    if s.len() == 0 {
        0
    } else {
        val_size(s[0]) + seq_vals_size(s.drop_first())
    }
}

/// The values that well-formed runtime data can take: no decode failures,
/// floats finite (NaN and infinities are rejected upstream), bignums in
/// canonical form (outside the small range), no empty heap-allocated
/// containers (the empty tuple and binary are immediate constants).
pub open spec fn val_ok(v: Val) -> bool
    decreases v,
{
    match v {
        Val::Bad => false,
        Val::Float(bits) => float_finite(bits),
        Val::Big(i) => i < SMALL_MIN || i > SMALL_MAX,
        Val::Cons(hd, tl) => val_ok(*hd) && val_ok(*tl),
        Val::Tuple(s) => s.len() >= 1 && seq_vals_ok(s),
        Val::Binary(s) => s.len() >= 1,
        _ => true,
    }
}

pub open spec fn seq_vals_ok(s: Seq<Val>) -> bool
    decreases s,
{
    s.len() == 0 || (val_ok(s[0]) && seq_vals_ok(s.drop_first()))
}

/// Every atom index mentioned in the value lies below `n`.
pub open spec fn atoms_below(v: Val, n: nat) -> bool
    decreases v,
{
    match v {
        Val::Atom(i) => i < n,
        Val::Cons(hd, tl) => atoms_below(*hd, n) && atoms_below(*tl, n),
        Val::Tuple(s) => seq_atoms_below(s, n),
        Val::Export(m, f, _) => m < n && f < n,
        Val::Closure(m, _, _, _) => m < n,
        Val::Import(m, f, _, _) => m < n && f < n,
        _ => true,
    }
}

pub open spec fn seq_atoms_below(s: Seq<Val>, n: nat) -> bool
    decreases s,
{
    s.len() == 0 || (atoms_below(s[0], n) && seq_atoms_below(s.drop_first(), n))
}

/// A term that decodes to a well-formed value on this heap.
pub open spec fn valid_term(h: HeapM, w: u64) -> bool {
    val_ok(term_val(h, w))
}

/// A well-formed value is never a register reference: register-tagged
/// words decode to `Bad`.
pub proof fn lemma_valid_not_reg(h: HeapM, w: u64)
    requires
        val_ok(term_val(h, w)),
    ensures
        !crate::lterm::is_reg_s(w),
{
    if crate::lterm::is_reg_s(w) {
        assert(tag_of(w) == TERMTAG_SPECIAL);
        assert((7u64 >> 3u64) & 7u64 == 0u64) by (bit_vector);
        assert((71u64 >> 3u64) & 7u64 == 0u64) by (bit_vector);
        assert((135u64 >> 3u64) & 7u64 == 0u64) by (bit_vector);
        assert((199u64 >> 3u64) & 7u64 == 0u64) by (bit_vector);
        assert(w != NIL_RAW && w != EMPTY_TUPLE_RAW && w != EMPTY_BINARY_RAW);
        assert(term_val(h, w) == Val::Bad);
    }
}

/// Values of a sequence of raw words on a heap.
pub open spec fn vals_of(h: HeapM, s: Seq<u64>) -> Seq<Val> {
    Seq::new(s.len(), |i: int| term_val(h, s[i]))
}

/// `h2` grows `h` by appending words and bignums; nothing existing moves.
pub open spec fn heap_extends(h2: HeapM, h: HeapM) -> bool {
    &&& h.words.len() <= h2.words.len()
    &&& h2.words.subrange(0, h.words.len() as int) == h.words
    &&& h.bigs.len() <= h2.bigs.len()
    &&& h2.bigs.subrange(0, h.bigs.len() as int) == h.bigs
}

pub proof fn lemma_extends_index(h2: HeapM, h: HeapM, i: int)
    requires
        heap_extends(h2, h),
        0 <= i < h.words.len(),
    ensures
        h2.words[i] == h.words[i],
{
    assert(h2.words.subrange(0, h.words.len() as int)[i] == h2.words[i]);
}

/// A well-formed term's pointer lies within the heap.
pub proof fn lemma_valid_tmeas(h: HeapM, w: u64)
    requires
        val_ok(term_val(h, w)),
    ensures
        tmeas(w) <= h.words.len(),
{
}

/// Decoding only reads below a term's own cell, so appending to the heap
/// leaves the value of every well-formed existing term unchanged.
pub proof fn lemma_term_val_frame(h: HeapM, h2: HeapM, w: u64)
    requires
        heap_extends(h2, h),
        val_ok(term_val(h, w)),
    ensures
        term_val(h2, w) == term_val(h, w),
    decreases tmeas(w), 1int, 0int,
{
    let t = tag_of(w);
    if t == TERMTAG_CONS {
        let p = cons_ptr_of(w) as int;
        lemma_extends_index(h2, h, p);
        lemma_extends_index(h2, h, p + 1);
        let hd = h.words[p];
        let tl = h.words[p + 1];
        lemma_term_val_frame(h, h2, hd);
        lemma_term_val_frame(h, h2, tl);
    } else if is_boxed_s(w) {
        let p = box_ptr_of(w) as int;
        lemma_extends_index(h2, h, p);
        let hw = h.words[p];
        let bt = header_boxtype_of(hw);
        let n = header_arity_of(hw) as int;
        assert forall|k: int| 0 < k <= n implies h2.words.index(p + k) == #[trigger] h.words.index(
            p + k,
        ) by {
            lemma_extends_index(h2, h, p + k);
        }
        if bt == BOXTYPE_TUPLE {
            let s = tuple_elems(h, p, n, 1);
            assert(seq_vals_ok(s));
            lemma_tuple_elems_frame(h, h2, p, n, 1);
        } else if bt == BOXTYPE_BINARY {
            assert(term_val(h2, w) =~= term_val(h, w)) by {
                assert(Seq::new(n as nat, |i: int| (h2.words[p + 1 + i] & 0xff) as u8) =~= Seq::new(
                    n as nat,
                    |i: int| (h.words[p + 1 + i] & 0xff) as u8,
                ));
            }
        }
    }
}

/// Heap extension composes.
pub proof fn lemma_extends_trans(h2: HeapM, h1: HeapM, h0: HeapM)
    requires
        heap_extends(h2, h1),
        heap_extends(h1, h0),
    ensures
        heap_extends(h2, h0),
{
    assert(h2.words.subrange(0, h0.words.len() as int) =~= h0.words) by {
        assert forall|i: int| 0 <= i < h0.words.len() implies h2.words[i] == #[trigger] h0.words[i]
            by {
            lemma_extends_index(h2, h1, i);
            lemma_extends_index_bigs(h1, h0, i);
        }
    }
    assert(h2.bigs.subrange(0, h0.bigs.len() as int) =~= h0.bigs) by {
        assert forall|i: int| 0 <= i < h0.bigs.len() implies h2.bigs[i] == #[trigger] h0.bigs[i] by {
            assert(h2.bigs.subrange(0, h1.bigs.len() as int)[i] == h2.bigs[i]);
            assert(h1.bigs.subrange(0, h0.bigs.len() as int)[i] == h1.bigs[i]);
        }
    }
}

proof fn lemma_extends_index_bigs(h1: HeapM, h0: HeapM, i: int)
    requires
        heap_extends(h1, h0),
        0 <= i < h0.words.len(),
    ensures
        h1.words[i] == h0.words[i],
{
    lemma_extends_index(h1, h0, i);
}

/// Preservation of existing terms composes.
pub proof fn lemma_preserved_trans(h2: HeapM, h1: HeapM, h0: HeapM)
    requires
        preserved(h2, h1),
        preserved(h1, h0),
    ensures
        preserved(h2, h0),
{
    assert forall|w: u64| valid_term(h0, w) implies #[trigger] term_val(h2, w) == term_val(h0, w)
        by {
        assert(term_val(h1, w) == term_val(h0, w));
        assert(valid_term(h1, w));
    }
}

/// Head of a cons value.
pub open spec fn cons_hd_v(v: Val) -> Val {
    match v {
        Val::Cons(hd, _) => *hd,
        _ => Val::Bad,
    }
}

/// Tail of a cons value.
pub open spec fn cons_tl_v(v: Val) -> Val {
    match v {
        Val::Cons(_, tl) => *tl,
        _ => Val::Bad,
    }
}

/// Number of elements of a tuple value.
pub open spec fn tuple_len_v(v: Val) -> int {
    match v {
        Val::Tuple(s) => s.len() as int,
        _ => 0,
    }
}

/// Element of a tuple value.
pub open spec fn tuple_elem_v(v: Val, i: int) -> Val {
    match v {
        Val::Tuple(s) => s[i],
        _ => Val::Bad,
    }
}

/// Every term that is well formed on `h` keeps its value on `h2`.
pub open spec fn preserved(h2: HeapM, h: HeapM) -> bool {
    forall|w: u64| valid_term(h, w) ==> #[trigger] term_val(h2, w) == term_val(h, w)
}

pub proof fn lemma_tuple_elems_len(h: HeapM, p: int, n: int, i: int)
    requires
        1 <= i <= n + 1,
        0 <= p,
    ensures
        tuple_elems(h, p, n, i).len() == n + 1 - i,
    decreases n + 1 - i,
{
    if i <= n {
        lemma_tuple_elems_len(h, p, n, i + 1);
    }
}

pub proof fn lemma_tuple_elems_index(h: HeapM, p: int, n: int, i: int, k: int)
    requires
        1 <= i <= k <= n,
        0 <= p,
    ensures
        tuple_elems(h, p, n, i).len() == n + 1 - i,
        tuple_elems(h, p, n, i)[k - i] == (if tmeas(h.words[p + k]) <= p {
            term_val(h, h.words[p + k])
        } else {
            Val::Bad
        }),
    decreases n + 1 - i,
{
    lemma_tuple_elems_len(h, p, n, i);
    if i < k {
        lemma_tuple_elems_index(h, p, n, i + 1, k);
    }
}

/// Well-formedness of each element of a well-formed tuple sequence.
pub proof fn lemma_seq_vals_ok_index(s: Seq<Val>, k: int)
    requires
        seq_vals_ok(s),
        0 <= k < s.len(),
    ensures
        val_ok(s[k]),
    decreases s.len(),
{
    if k > 0 {
        lemma_seq_vals_ok_index(s.drop_first(), k - 1);
    }
}

/// Well-formedness of atom bounds for each element of a sequence.
pub proof fn lemma_seq_atoms_below_index(s: Seq<Val>, n: nat, k: int)
    requires
        seq_atoms_below(s, n),
        0 <= k < s.len(),
    ensures
        atoms_below(s[k], n),
    decreases s.len(),
{
    if k > 0 {
        lemma_seq_atoms_below_index(s.drop_first(), n, k - 1);
    }
}

/// Splitting the size of a suffix of a sequence at its first element.
pub proof fn lemma_seq_vals_size_skip(s: Seq<Val>, i: int)
    requires
        0 <= i < s.len(),
    ensures
        seq_vals_size(s.skip(i)) == val_size(s[i]) + seq_vals_size(s.skip(i + 1)),
{
    assert(s.skip(i)[0] == s[i]);
    assert(s.skip(i).drop_first() =~= s.skip(i + 1));
}

/// The size of a value is positive.
pub proof fn lemma_val_size_pos(v: Val)
    ensures
        val_size(v) >= 1,
{
}

/// Decoding a freshly laid out tuple: the element slots hold words that
/// were well formed on the old heap `h`, whose length is the new header
/// position `p`.
pub proof fn lemma_fresh_tuple_elems(h: HeapM, h2: HeapM, p: int, n: int, i: int)
    requires
        heap_extends(h2, h),
        h.words.len() == p,
        p + n < h2.words.len(),
        1 <= i <= n + 1,
        forall|k: int|
            1 <= k <= n ==> val_ok(#[trigger] term_val(h, h2.words[p + k])) && tmeas(
                h2.words[p + k],
            ) <= p,
    ensures
        tuple_elems(h2, p, n, i) =~= Seq::new(
            (n + 1 - i) as nat,
            |j: int| term_val(h, h2.words[p + i + j]),
        ),
    decreases n + 1 - i,
{
    if i <= n {
        let e = h2.words[p + i];
        lemma_term_val_frame(h, h2, e);
        lemma_fresh_tuple_elems(h, h2, p, n, i + 1);
    }
}

pub proof fn lemma_tuple_elems_frame(h: HeapM, h2: HeapM, p: int, n: int, i: int)
    requires
        heap_extends(h2, h),
        0 <= p,
        p + n < h.words.len(),
        seq_vals_ok(tuple_elems(h, p, n, i)),
    ensures
        tuple_elems(h2, p, n, i) == tuple_elems(h, p, n, i),
    decreases p + 1, 0int, n + 1 - i,
{
    if 1 <= i <= n {
        lemma_extends_index(h2, h, p + i);
        let e = h.words[p + i];
        let s = tuple_elems(h, p, n, i);
        assert(s[0] == if tmeas(e) <= p {
            term_val(h, e)
        } else {
            Val::Bad
        });
        assert(val_ok(s[0]));
        lemma_term_val_frame(h, h2, e);
        assert(s.drop_first() =~= tuple_elems(h, p, n, i + 1));
        lemma_tuple_elems_frame(h, h2, p, n, i + 1);
    }
}

} // verus!
