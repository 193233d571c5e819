//! The process heap capability: a flat word array for cons cells and boxed
//! objects, a bignum side store, and the Y slots of the current frame.
//! Constructors only ever reference already-allocated cells, so every
//! object points strictly downwards and decoding is well founded.
//! Allocation fails with `HeapIsFull` once the fixed capacity is reached.

use vstd::prelude::*;

use crate::bignum::big_value;
use crate::fail::{Error, RtResult};
use crate::lterm::{
    cons_ptr_of, header_arity_of, imm_of, lemma_boxed_roundtrip, lemma_header_roundtrip,
    lemma_imm_roundtrip, make_header_s, tag_of, LTerm, BOXTYPE_BIGINTEGER, BOXTYPE_BINARY,
    BOXTYPE_CLOSURE, BOXTYPE_EXPORT, BOXTYPE_FLOAT, BOXTYPE_IMPORT, BOXTYPE_TUPLE, SMALL_MAX,
    SMALL_MIN, TERMTAG_ATOM, TERMTAG_CONS, TERMTAG_HEADER,
};
use crate::model::{
    cons_hd_v, cons_tl_v, float_finite, heap_extends, lemma_fresh_tuple_elems, tuple_elem_v,
    tuple_len_v,
    lemma_seq_vals_ok_index, lemma_term_val_frame, lemma_tuple_elems_index, lemma_tuple_elems_len,
    lemma_valid_tmeas, preserved, term_val, tmeas, tuple_elems, valid_term, val_ok,
    HeapM, Val,
};

verus! {

pub struct Heap {
    pub words: Vec<u64>,
    pub capacity: usize,
    pub ys: Vec<u64>,
    pub bigs: Vec<num::BigInt>,
}

impl View for Heap {
    type V = HeapM;

    open spec fn view(&self) -> HeapM {
        HeapM {
            words: self.words@,
            bigs: Seq::new(self.bigs@.len(), |i: int| big_value(self.bigs@[i])),
        }
    }
}

impl Heap {
    pub open spec fn inv(&self) -> bool {
        &&& self.words@.len() <= self.capacity
        &&& self.capacity as int <= 0x1000_0000_0000
        &&& self.bigs@.len() <= self.words@.len()
    }

    /// Ensures shared by every allocating method on success.
    pub open spec fn grew(&self, pre: Heap) -> bool {
        &&& self.inv()
        &&& self.capacity == pre.capacity
        &&& self.ys@ == pre.ys@
        &&& heap_extends(self@, pre@)
        &&& preserved(self@, pre@)
    }

    pub fn new(capacity: usize, n_y_slots: usize) -> (r: Heap)
        requires
            capacity as int <= 0x1000_0000_0000,
            n_y_slots <= capacity,
        ensures
            r.inv(),
            r@.words.len() == 0,
            r@.bigs.len() == 0,
            r.ys@.len() == n_y_slots,
            r.capacity == capacity,
            forall|i: int| 0 <= i < n_y_slots ==> r.ys@[i] == crate::lterm::NIL_RAW,
    {
        let mut ys: Vec<u64> = Vec::new();
        let mut i: usize = 0;
        while i < n_y_slots
            invariant
                i <= n_y_slots,
                ys@.len() == i,
                forall|j: int| 0 <= j < i ==> ys@[j] == crate::lterm::NIL_RAW,
            decreases n_y_slots - i,
        {
            ys.push(crate::lterm::NIL_RAW);
            i += 1;
        }
        Heap { words: Vec::new(), capacity, ys, bigs: Vec::new() }
    }

    /// Remaining room in words.
    fn available(&self) -> (r: usize)
        requires
            self.inv(),
        ensures
            r == self.capacity - self@.words.len(),
    {
        self.capacity - self.words.len()
    }

    /// Allocate a two-word cons cell holding `hd` and `tl`.
    pub fn alloc_cons(&mut self, hd: LTerm, tl: LTerm) -> (r: RtResult<LTerm>)
        requires
            old(self).inv(),
            valid_term(old(self)@, hd@),
            valid_term(old(self)@, tl@),
        ensures
            match r {
                Ok(t) => {
                    &&& final(self).grew(*old(self))
                    &&& old(self)@.words.len() + 2 <= old(self).capacity
                    &&& final(self)@.words == old(self)@.words + seq![hd@, tl@]
                    &&& final(self)@.bigs == old(self)@.bigs
                    &&& term_val(final(self)@, t@) == Val::Cons(
                        Box::new(term_val(old(self)@, hd@)),
                        Box::new(term_val(old(self)@, tl@)),
                    )
                    &&& valid_term(final(self)@, t@)
                },
                Err(e) => {
                    &&& e == Error::HeapIsFull
                    &&& old(self)@.words.len() + 2 > old(self).capacity
                    &&& *final(self) == *old(self)
                },
            },
    {
        if self.available() < 2 {
            return Err(Error::HeapIsFull);
        }
        let p = self.words.len();
        self.words.push(hd.raw());
        self.words.push(tl.raw());
        let r = LTerm::make_cons_ptr(p);
        proof {
            let h = old(self)@;
            let h2 = self@;
            assert(h2.words =~= h.words + seq![hd@, tl@]);
            assert(h2.bigs =~= h.bigs);
            assert(h2.words.subrange(0, h.words.len() as int) =~= h.words);
            assert(h2.bigs.subrange(0, h.bigs.len() as int) =~= h.bigs);
            lemma_valid_tmeas(h, hd@);
            lemma_valid_tmeas(h, tl@);
            lemma_term_val_frame(h, h2, hd@);
            lemma_term_val_frame(h, h2, tl@);
            lemma_imm_roundtrip(p as u64, TERMTAG_CONS);
            assert(cons_ptr_of(r@) == p);
            assert(h2.words[p as int] == hd@);
            assert(h2.words[p as int + 1] == tl@);
            assert(term_val(h2, r@) == Val::Cons(
                Box::new(term_val(h, hd@)),
                Box::new(term_val(h, tl@)),
            ));
            assert forall|w: u64| valid_term(h, w) implies #[trigger] term_val(h2, w) == term_val(
                h,
                w,
            ) by {
                lemma_term_val_frame(h, h2, w);
            }
        }
        Ok(r)
    }

    /// Allocate a tuple: a header word followed by the element terms.
    pub fn alloc_tuple(&mut self, elems: &Vec<LTerm>) -> (r: RtResult<LTerm>)
        requires
            old(self).inv(),
            elems@.len() >= 1,
            forall|i: int| 0 <= i < elems@.len() ==> valid_term(old(self)@, #[trigger] elems@[i]@),
        ensures
            match r {
                Ok(t) => {
                    &&& final(self).grew(*old(self))
                    &&& old(self)@.words.len() + 1 + elems@.len() <= old(self).capacity
                    &&& final(self)@.bigs == old(self)@.bigs
                    &&& term_val(final(self)@, t@) == Val::Tuple(
                        Seq::new(elems@.len(), |i: int| term_val(old(self)@, elems@[i]@)),
                    )
                    &&& valid_term(final(self)@, t@)
                },
                Err(e) => {
                    &&& e == Error::HeapIsFull
                    &&& old(self)@.words.len() + 1 + elems@.len() > old(self).capacity
                    &&& *final(self) == *old(self)
                },
            },
    {
        let n = elems.len();
        if self.available() == 0 || self.available() - 1 < n {
            return Err(Error::HeapIsFull);
        }
        let p = self.words.len();
        self.words.push(make_header(BOXTYPE_TUPLE, n as u64));
        let mut i: usize = 0;
        while i < n
            invariant
                i <= n,
                n == elems@.len(),
                self.words@.len() == p + 1 + i,
                self.capacity == old(self).capacity,
                self.ys@ == old(self).ys@,
                self.bigs@ == old(self).bigs@,
                self.words@.subrange(0, p as int) == old(self)@.words,
                p == old(self)@.words.len(),
                self.words@[p as int] == make_header_s(BOXTYPE_TUPLE, n as u64),
                forall|j: int| 0 <= j < i ==> self.words@[p + 1 + j] == #[trigger] elems@[j]@,
            decreases n - i,
        {
            self.words.push(elems[i].raw());
            i += 1;
        }
        let r = LTerm::make_boxed(p);
        proof {
            let h = old(self)@;
            let h2 = self@;
            let n64 = n as u64;
            assert(h2.bigs =~= h.bigs);
            assert(h2.words.subrange(0, h.words.len() as int) =~= h.words);
            assert(h2.bigs.subrange(0, h.bigs.len() as int) =~= h.bigs);
            assert(heap_extends(h2, h));
            lemma_boxed_roundtrip(p as u64);
            lemma_header_roundtrip(BOXTYPE_TUPLE, n64);
            assert forall|k: int| 1 <= k <= n implies val_ok(
                #[trigger] term_val(h, h2.words[p + k]),
            ) && tmeas(h2.words[p + k]) <= p by {
                assert(h2.words[p + k] == elems@[k - 1]@);
                lemma_valid_tmeas(h, elems@[k - 1]@);
            }
            lemma_fresh_tuple_elems(h, h2, p as int, n as int, 1);
            assert(term_val(h2, r@) == Val::Tuple(tuple_elems(h2, p as int, n as int, 1)));
            let vs = Seq::new(elems@.len(), |i: int| term_val(h, elems@[i]@));
            assert(tuple_elems(h2, p as int, n as int, 1) =~= vs);
            assert forall|k: int| 0 <= k < vs.len() implies val_ok(#[trigger] vs[k]) by {}
            assert(crate::model::seq_vals_ok(vs)) by {
                lemma_seq_vals_all_ok(vs);
            }
            assert forall|w: u64| valid_term(h, w) implies #[trigger] term_val(h2, w) == term_val(
                h,
                w,
            ) by {
                lemma_term_val_frame(h, h2, w);
            }
        }
        Ok(r)
    }
    /// Allocate a bignum box; the value goes to the side store and the box
    /// holds its index. Bignums are canonical: never in the small range.
    pub fn alloc_bignum(&mut self, b: num::BigInt) -> (r: RtResult<LTerm>)
        requires
            old(self).inv(),
            big_value(b) < SMALL_MIN || big_value(b) > SMALL_MAX,
        ensures
            match r {
                Ok(t) => {
                    &&& final(self).grew(*old(self))
                    &&& old(self)@.words.len() + 2 <= old(self).capacity
                    &&& term_val(final(self)@, t@) == Val::Big(big_value(b))
                    &&& valid_term(final(self)@, t@)
                },
                Err(e) => {
                    &&& e == Error::HeapIsFull
                    &&& old(self)@.words.len() + 2 > old(self).capacity
                    &&& *final(self) == *old(self)
                },
            },
    {
        if self.available() < 2 {
            return Err(Error::HeapIsFull);
        }
        let p = self.words.len();
        let bi = self.bigs.len();
        self.words.push(make_header(BOXTYPE_BIGINTEGER, 1));
        self.words.push(bi as u64);
        self.bigs.push(b);
        let r = LTerm::make_boxed(p);
        proof {
            let h = old(self)@;
            let h2 = self@;
            assert(h2.bigs =~= h.bigs + seq![big_value(b)]);
            assert(h2.words.subrange(0, h.words.len() as int) =~= h.words);
            assert(h2.bigs.subrange(0, h.bigs.len() as int) =~= h.bigs);
            lemma_boxed_roundtrip(p as u64);
            lemma_header_roundtrip(BOXTYPE_BIGINTEGER, 1);
            assert(h2.words[p as int + 1] == bi as u64);
            assert(h2.bigs[bi as int] == big_value(b));
            assert(term_val(h2, r@) == Val::Big(big_value(b)));
            assert forall|w: u64| valid_term(h, w) implies #[trigger] term_val(h2, w) == term_val(
                h,
                w,
            ) by {
                lemma_term_val_frame(h, h2, w);
            }
        }
        Ok(r)
    }

    /// Allocate a float box holding an IEEE-754 bit pattern.
    pub fn alloc_float(&mut self, bits: u64) -> (r: RtResult<LTerm>)
        requires
            old(self).inv(),
            float_finite(bits),
        ensures
            match r {
                Ok(t) => {
                    &&& final(self).grew(*old(self))
                    &&& old(self)@.words.len() + 2 <= old(self).capacity
                    &&& term_val(final(self)@, t@) == Val::Float(bits)
                    &&& valid_term(final(self)@, t@)
                },
                Err(e) => {
                    &&& e == Error::HeapIsFull
                    &&& old(self)@.words.len() + 2 > old(self).capacity
                    &&& *final(self) == *old(self)
                },
            },
    {
        if self.available() < 2 {
            return Err(Error::HeapIsFull);
        }
        let p = self.words.len();
        self.words.push(make_header(BOXTYPE_FLOAT, 1));
        self.words.push(bits);
        let r = LTerm::make_boxed(p);
        proof {
            let h = old(self)@;
            let h2 = self@;
            assert(h2.bigs =~= h.bigs);
            assert(h2.words.subrange(0, h.words.len() as int) =~= h.words);
            assert(h2.bigs.subrange(0, h.bigs.len() as int) =~= h.bigs);
            lemma_boxed_roundtrip(p as u64);
            lemma_header_roundtrip(BOXTYPE_FLOAT, 1);
            assert(term_val(h2, r@) == Val::Float(bits));
            assert forall|w: u64| valid_term(h, w) implies #[trigger] term_val(h2, w) == term_val(
                h,
                w,
            ) by {
                lemma_term_val_frame(h, h2, w);
            }
        }
        Ok(r)
    }

    /// Allocate an export box: module atom, function atom, arity.
    pub fn alloc_export(&mut self, m: LTerm, f: LTerm, arity: u64) -> (r: RtResult<LTerm>)
        requires
            old(self).inv(),
            tag_of(m@) == TERMTAG_ATOM,
            tag_of(f@) == TERMTAG_ATOM,
        ensures
            match r {
                Ok(t) => {
                    &&& final(self).grew(*old(self))
                    &&& old(self)@.words.len() + 4 <= old(self).capacity
                    &&& term_val(final(self)@, t@) == Val::Export(
                        imm_of(m@) as nat,
                        imm_of(f@) as nat,
                        arity as nat,
                    )
                    &&& valid_term(final(self)@, t@)
                },
                Err(e) => {
                    &&& e == Error::HeapIsFull
                    &&& old(self)@.words.len() + 4 > old(self).capacity
                    &&& *final(self) == *old(self)
                },
            },
    {
        if self.available() < 4 {
            return Err(Error::HeapIsFull);
        }
        let p = self.words.len();
        self.words.push(make_header(BOXTYPE_EXPORT, 3));
        self.words.push(m.raw());
        self.words.push(f.raw());
        self.words.push(arity);
        let r = LTerm::make_boxed(p);
        proof {
            let h = old(self)@;
            let h2 = self@;
            assert(h2.bigs =~= h.bigs);
            assert(h2.words.subrange(0, h.words.len() as int) =~= h.words);
            assert(h2.bigs.subrange(0, h.bigs.len() as int) =~= h.bigs);
            lemma_boxed_roundtrip(p as u64);
            lemma_header_roundtrip(BOXTYPE_EXPORT, 3);
            assert(term_val(h2, r@) == Val::Export(
                imm_of(m@) as nat,
                imm_of(f@) as nat,
                arity as nat,
            ));
            assert forall|w: u64| valid_term(h, w) implies #[trigger] term_val(h2, w) == term_val(
                h,
                w,
            ) by {
                lemma_term_val_frame(h, h2, w);
            }
        }
        Ok(r)
    }

    /// Allocate an import box: module atom, function atom, arity, bif flag.
    pub fn alloc_import(&mut self, m: LTerm, f: LTerm, arity: u64, is_bif: bool) -> (r: RtResult<
        LTerm,
    >)
        requires
            old(self).inv(),
            tag_of(m@) == TERMTAG_ATOM,
            tag_of(f@) == TERMTAG_ATOM,
        ensures
            match r {
                Ok(t) => {
                    &&& final(self).grew(*old(self))
                    &&& old(self)@.words.len() + 5 <= old(self).capacity
                    &&& term_val(final(self)@, t@) == Val::Import(
                        imm_of(m@) as nat,
                        imm_of(f@) as nat,
                        arity as nat,
                        is_bif,
                    )
                    &&& valid_term(final(self)@, t@)
                },
                Err(e) => {
                    &&& e == Error::HeapIsFull
                    &&& old(self)@.words.len() + 5 > old(self).capacity
                    &&& *final(self) == *old(self)
                },
            },
    {
        if self.available() < 5 {
            return Err(Error::HeapIsFull);
        }
        let p = self.words.len();
        self.words.push(make_header(BOXTYPE_IMPORT, 4));
        self.words.push(m.raw());
        self.words.push(f.raw());
        self.words.push(arity);
        self.words.push(if is_bif { 1 } else { 0 });
        let r = LTerm::make_boxed(p);
        proof {
            let h = old(self)@;
            let h2 = self@;
            assert(h2.bigs =~= h.bigs);
            assert(h2.words.subrange(0, h.words.len() as int) =~= h.words);
            assert(h2.bigs.subrange(0, h.bigs.len() as int) =~= h.bigs);
            lemma_boxed_roundtrip(p as u64);
            lemma_header_roundtrip(BOXTYPE_IMPORT, 4);
            assert(term_val(h2, r@) == Val::Import(
                imm_of(m@) as nat,
                imm_of(f@) as nat,
                arity as nat,
                is_bif,
            ));
            assert forall|w: u64| valid_term(h, w) implies #[trigger] term_val(h2, w) == term_val(
                h,
                w,
            ) by {
                lemma_term_val_frame(h, h2, w);
            }
        }
        Ok(r)
    }

    /// Allocate a closure box: module atom, index, uniq, free-variable count.
    pub fn alloc_closure(&mut self, m: LTerm, index: u64, uniq: u64, nfree: u64) -> (r: RtResult<
        LTerm,
    >)
        requires
            old(self).inv(),
            tag_of(m@) == TERMTAG_ATOM,
        ensures
            match r {
                Ok(t) => {
                    &&& final(self).grew(*old(self))
                    &&& old(self)@.words.len() + 5 <= old(self).capacity
                    &&& term_val(final(self)@, t@) == Val::Closure(
                        imm_of(m@) as nat,
                        index as nat,
                        uniq as nat,
                        nfree as nat,
                    )
                    &&& valid_term(final(self)@, t@)
                },
                Err(e) => {
                    &&& e == Error::HeapIsFull
                    &&& old(self)@.words.len() + 5 > old(self).capacity
                    &&& *final(self) == *old(self)
                },
            },
    {
        if self.available() < 5 {
            return Err(Error::HeapIsFull);
        }
        let p = self.words.len();
        self.words.push(make_header(BOXTYPE_CLOSURE, 4));
        self.words.push(m.raw());
        self.words.push(index);
        self.words.push(uniq);
        self.words.push(nfree);
        let r = LTerm::make_boxed(p);
        proof {
            let h = old(self)@;
            let h2 = self@;
            assert(h2.bigs =~= h.bigs);
            assert(h2.words.subrange(0, h.words.len() as int) =~= h.words);
            assert(h2.bigs.subrange(0, h.bigs.len() as int) =~= h.bigs);
            lemma_boxed_roundtrip(p as u64);
            lemma_header_roundtrip(BOXTYPE_CLOSURE, 4);
            assert(term_val(h2, r@) == Val::Closure(
                imm_of(m@) as nat,
                index as nat,
                uniq as nat,
                nfree as nat,
            ));
            assert forall|w: u64| valid_term(h, w) implies #[trigger] term_val(h2, w) == term_val(
                h,
                w,
            ) by {
                lemma_term_val_frame(h, h2, w);
            }
        }
        Ok(r)
    }

    /// Allocate a binary box: a header then one byte per word.
    pub fn alloc_binary(&mut self, bytes: &Vec<u8>) -> (r: RtResult<LTerm>)
        requires
            old(self).inv(),
            bytes@.len() >= 1,
        ensures
            match r {
                Ok(t) => {
                    &&& final(self).grew(*old(self))
                    &&& old(self)@.words.len() + 1 + bytes@.len() <= old(self).capacity
                    &&& term_val(final(self)@, t@) == Val::Binary(bytes@)
                    &&& valid_term(final(self)@, t@)
                },
                Err(e) => {
                    &&& e == Error::HeapIsFull
                    &&& old(self)@.words.len() + 1 + bytes@.len() > old(self).capacity
                    &&& *final(self) == *old(self)
                },
            },
    {
        let n = bytes.len();
        if self.available() == 0 || self.available() - 1 < n {
            return Err(Error::HeapIsFull);
        }
        let p = self.words.len();
        self.words.push(make_header(BOXTYPE_BINARY, n as u64));
        let mut i: usize = 0;
        while i < n
            invariant
                i <= n,
                n == bytes@.len(),
                self.words@.len() == p + 1 + i,
                self.capacity == old(self).capacity,
                self.ys@ == old(self).ys@,
                self.bigs@ == old(self).bigs@,
                self.words@.subrange(0, p as int) == old(self)@.words,
                p == old(self)@.words.len(),
                self.words@[p as int] == make_header_s(BOXTYPE_BINARY, n as u64),
                forall|j: int| 0 <= j < i ==> self.words@[p + 1 + j] == #[trigger] bytes@[j] as u64,
            decreases n - i,
        {
            self.words.push(bytes[i] as u64);
            i += 1;
        }
        let r = LTerm::make_boxed(p);
        proof {
            let h = old(self)@;
            let h2 = self@;
            assert(h2.bigs =~= h.bigs);
            assert(h2.words.subrange(0, h.words.len() as int) =~= h.words);
            assert(h2.bigs.subrange(0, h.bigs.len() as int) =~= h.bigs);
            lemma_boxed_roundtrip(p as u64);
            lemma_header_roundtrip(BOXTYPE_BINARY, n as u64);
            assert(Seq::new(n as nat, |j: int| (h2.words[p + 1 + j] & 0xff) as u8) =~= bytes@) by {
                assert forall|j: int| 0 <= j < n implies (h2.words[p + 1 + j] & 0xff) as u8
                    == bytes@[j] by {
                    let b = bytes@[j] as u64;
                    assert(b & 0xff == b) by (bit_vector)
                        requires
                            b < 256u64,
                    ;
                }
            }
            assert(term_val(h2, r@) == Val::Binary(bytes@));
            assert forall|w: u64| valid_term(h, w) implies #[trigger] term_val(h2, w) == term_val(
                h,
                w,
            ) by {
                lemma_term_val_frame(h, h2, w);
            }
        }
        Ok(r)
    }

    /// Read a Y slot of the current frame.
    pub fn get_y(&self, i: usize) -> (r: RtResult<LTerm>)
        ensures
            match r {
                Ok(t) => i < self.ys@.len() && t@ == self.ys@[i as int],
                Err(e) => e == Error::YRegisterOutOfRange && i >= self.ys@.len(),
            },
    {
        if i < self.ys.len() {
            Ok(LTerm::from_raw(self.ys[i]))
        } else {
            Err(Error::YRegisterOutOfRange)
        }
    }

    /// Write a Y slot of the current frame.
    pub fn set_y(&mut self, i: usize, val: LTerm) -> (r: RtResult<()>)
        requires
            old(self).inv(),
        ensures
            final(self).inv(),
            final(self)@ == old(self)@,
            final(self).capacity == old(self).capacity,
            match r {
                Ok(_) => i < old(self).ys@.len() && final(self).ys@ == old(self).ys@.update(
                    i as int,
                    val@,
                ),
                Err(e) => {
                    &&& e == Error::YRegisterOutOfRange
                    &&& i >= old(self).ys@.len()
                    &&& final(self).ys@ == old(self).ys@
                },
            },
    {
        if i < self.ys.len() {
            self.ys.set(i, val.raw());
            Ok(())
        } else {
            Err(Error::YRegisterOutOfRange)
        }
    }

    /// Head of a cons cell.
    pub fn cons_hd(&self, t: LTerm) -> (r: LTerm)
        requires
            self.inv(),
            valid_term(self@, t@),
            tag_of(t@) == TERMTAG_CONS,
        ensures
            term_val(self@, r@) == cons_hd_v(term_val(self@, t@)),
            valid_term(self@, r@),
            tmeas(r@) < tmeas(t@),
    {
        let p = t.get_cons_ptr();
        proof {
            assert(p + 1 < self@.words.len());
        }
        LTerm::from_raw(self.words[p as usize])
    }

    /// Tail of a cons cell.
    pub fn cons_tl(&self, t: LTerm) -> (r: LTerm)
        requires
            self.inv(),
            valid_term(self@, t@),
            tag_of(t@) == TERMTAG_CONS,
        ensures
            term_val(self@, r@) == cons_tl_v(term_val(self@, t@)),
            valid_term(self@, r@),
            tmeas(r@) < tmeas(t@),
    {
        let p = t.get_cons_ptr();
        proof {
            assert(p + 1 < self@.words.len());
        }
        LTerm::from_raw(self.words[p as usize + 1])
    }

    /// Box-type tag of a boxed term's header.
    pub fn boxed_type(&self, t: LTerm) -> (r: u64)
        requires
            self.inv(),
            valid_term(self@, t@),
            crate::lterm::is_boxed_s(t@),
        ensures
            match term_val(self@, t@) {
                Val::Tuple(_) => r == BOXTYPE_TUPLE,
                Val::Big(_) => r == BOXTYPE_BIGINTEGER,
                Val::Float(_) => r == BOXTYPE_FLOAT,
                Val::Export(_, _, _) => r == BOXTYPE_EXPORT,
                Val::Import(_, _, _, _) => r == BOXTYPE_IMPORT,
                Val::Closure(_, _, _, _) => r == BOXTYPE_CLOSURE,
                Val::Binary(_) => r == BOXTYPE_BINARY,
                _ => false,
            },
    {
        let p = t.get_box_ptr();
        proof {
            assert(p < self@.words.len());
        }
        let hw = self.words[p as usize];
        (hw >> 3u64) & 0xfu64
    }

    /// Bit pattern of a float box.
    pub fn float_bits(&self, t: LTerm) -> (r: u64)
        requires
            self.inv(),
            valid_term(self@, t@),
            crate::lterm::is_boxed_s(t@),
            term_val(self@, t@) is Float,
        ensures
            term_val(self@, t@) == Val::Float(r),
    {
        let p = t.get_box_ptr();
        proof {
            assert(p + 1 < self@.words.len());
        }
        self.words[p as usize + 1]
    }

    /// Unbox a term expected to hold a bignum; any other shape is a type
    /// mismatch.
    pub fn bignum_from_term(&self, t: LTerm) -> (r: RtResult<&num::BigInt>)
        requires
            self.inv(),
            valid_term(self@, t@),
        ensures
            match term_val(self@, t@) {
                Val::Big(i) => r matches Ok(b) && big_value(*b) == i,
                _ => r matches Err(e) && e == Error::BoxedIsNotABigint,
            },
    {
        if !t.is_boxed() {
            return Err(Error::BoxedIsNotABigint);
        }
        if self.boxed_type(t) != BOXTYPE_BIGINTEGER {
            return Err(Error::BoxedIsNotABigint);
        }
        Ok(self.big_ref(t))
    }

    /// Borrow the big integer behind a bignum box.
    pub fn big_ref(&self, t: LTerm) -> (r: &num::BigInt)
        requires
            self.inv(),
            valid_term(self@, t@),
            crate::lterm::is_boxed_s(t@),
            term_val(self@, t@) is Big,
        ensures
            term_val(self@, t@) == Val::Big(big_value(*r)),
    {
        let p = t.get_box_ptr();
        proof {
            assert(p + 1 < self@.words.len());
            assert(self@.words[p as int + 1] < self@.bigs.len());
        }
        let bi = self.words[p as usize + 1];
        &self.bigs[bi as usize]
    }

    /// Element count of a tuple box.
    pub fn tuple_arity(&self, t: LTerm) -> (r: u64)
        requires
            self.inv(),
            valid_term(self@, t@),
            crate::lterm::is_boxed_s(t@),
            term_val(self@, t@) is Tuple,
        ensures
            r == tuple_len_v(term_val(self@, t@)),
    {
        let p = t.get_box_ptr();
        proof {
            assert(p < self@.words.len());
            let hw = self@.words[p as int];
            lemma_tuple_elems_len(self@, p as int, header_arity_of(hw) as int, 1);
        }
        let hw = self.words[p as usize];
        hw >> 7u64
    }

    /// Element `i` (zero based) of a tuple box.
    pub fn tuple_element(&self, t: LTerm, i: u64) -> (r: LTerm)
        requires
            self.inv(),
            valid_term(self@, t@),
            crate::lterm::is_boxed_s(t@),
            term_val(self@, t@) is Tuple,
            i < tuple_len_v(term_val(self@, t@)),
        ensures
            term_val(self@, r@) == tuple_elem_v(term_val(self@, t@), i as int),
            valid_term(self@, r@),
    {
        let p = t.get_box_ptr();
        proof {
            let h = self@;
            let hw = h.words[p as int];
            let n = header_arity_of(hw) as int;
            lemma_tuple_elems_len(h, p as int, n, 1);
            lemma_tuple_elems_index(h, p as int, n, 1, i as int + 1);
            lemma_seq_vals_ok_index(tuple_elems(h, p as int, n, 1), i as int);
            assert(p + 1 + i < h.words.len());
        }
        LTerm::from_raw(self.words[p as usize + 1 + i as usize])
    }

    /// Module, function and arity of an export box.
    pub fn export_fields(&self, t: LTerm) -> (r: (LTerm, LTerm, u64))
        requires
            self.inv(),
            valid_term(self@, t@),
            crate::lterm::is_boxed_s(t@),
            term_val(self@, t@) is Export,
        ensures
            term_val(self@, t@) == Val::Export(imm_of(r.0@) as nat, imm_of(r.1@) as nat, r.2 as nat),
            tag_of(r.0@) == TERMTAG_ATOM,
            tag_of(r.1@) == TERMTAG_ATOM,
    {
        let p = t.get_box_ptr();
        proof {
            assert(p + 3 < self@.words.len());
        }
        let m = LTerm::from_raw(self.words[p as usize + 1]);
        let f = LTerm::from_raw(self.words[p as usize + 2]);
        let a = self.words[p as usize + 3];
        (m, f, a)
    }

    /// Module, index, uniq and free count of a closure box.
    pub fn closure_fields(&self, t: LTerm) -> (r: (LTerm, u64, u64, u64))
        requires
            self.inv(),
            valid_term(self@, t@),
            crate::lterm::is_boxed_s(t@),
            term_val(self@, t@) is Closure,
        ensures
            term_val(self@, t@) == Val::Closure(
                imm_of(r.0@) as nat,
                r.1 as nat,
                r.2 as nat,
                r.3 as nat,
            ),
            tag_of(r.0@) == TERMTAG_ATOM,
    {
        let p = t.get_box_ptr();
        proof {
            assert(p + 4 < self@.words.len());
        }
        let m = LTerm::from_raw(self.words[p as usize + 1]);
        let index = self.words[p as usize + 2];
        let uniq = self.words[p as usize + 3];
        let nfree = self.words[p as usize + 4];
        (m, index, uniq, nfree)
    }

    /// Module, function, arity and bif flag of an import box.
    pub fn import_fields(&self, t: LTerm) -> (r: (LTerm, LTerm, u64, bool))
        requires
            self.inv(),
            valid_term(self@, t@),
            crate::lterm::is_boxed_s(t@),
            term_val(self@, t@) is Import,
        ensures
            term_val(self@, t@) == Val::Import(
                imm_of(r.0@) as nat,
                imm_of(r.1@) as nat,
                r.2 as nat,
                r.3,
            ),
            tag_of(r.0@) == TERMTAG_ATOM,
            tag_of(r.1@) == TERMTAG_ATOM,
    {
        let p = t.get_box_ptr();
        proof {
            assert(p + 4 < self@.words.len());
        }
        let m = LTerm::from_raw(self.words[p as usize + 1]);
        let f = LTerm::from_raw(self.words[p as usize + 2]);
        let a = self.words[p as usize + 3];
        let is_bif = self.words[p as usize + 4] != 0;
        (m, f, a, is_bif)
    }

    /// Byte count of a binary box.
    pub fn binary_len(&self, t: LTerm) -> (r: u64)
        requires
            self.inv(),
            valid_term(self@, t@),
            crate::lterm::is_boxed_s(t@),
            term_val(self@, t@) is Binary,
        ensures
            match term_val(self@, t@) {
                Val::Binary(s) => r == s.len(),
                _ => false,
            },
    {
        let p = t.get_box_ptr();
        proof {
            assert(p < self@.words.len());
        }
        let hw = self.words[p as usize];
        hw >> 7u64
    }

    /// Byte `i` of a binary box.
    pub fn binary_byte(&self, t: LTerm, i: u64) -> (r: u8)
        requires
            self.inv(),
            valid_term(self@, t@),
            crate::lterm::is_boxed_s(t@),
            term_val(self@, t@) is Binary,
            match term_val(self@, t@) {
                Val::Binary(s) => i < s.len(),
                _ => false,
            },
        ensures
            match term_val(self@, t@) {
                Val::Binary(s) => r == s[i as int],
                _ => false,
            },
    {
        let p = t.get_box_ptr();
        proof {
            assert(p + 1 + i < self@.words.len());
        }
        let w = self.words[p as usize + 1 + i as usize];
        (w & 0xffu64) as u8
    }
}

/// Build a boxed header word.
fn make_header(boxtype: u64, arity: u64) -> (r: u64)
    requires
        boxtype <= 0xf,
        arity < crate::lterm::ARITY_LIMIT,
    ensures
        r == make_header_s(boxtype, arity),
{
    (arity << 7u64) | (boxtype << 3u64) | TERMTAG_HEADER
}

/// A sequence whose members are all well formed is well formed.
pub proof fn lemma_seq_vals_all_ok(s: Seq<Val>)
    requires
        forall|k: int| 0 <= k < s.len() ==> val_ok(#[trigger] s[k]),
    ensures
        crate::model::seq_vals_ok(s),
    decreases s.len(),
{
    if s.len() > 0 {
        lemma_seq_vals_all_ok(s.drop_first());
    }
}

} // verus!
