//! The tagged-word term representation. A term is one machine word whose
//! low bits carry a primary tag; the payload is an aligned heap index, a
//! signed small integer, an atom-table index, a local pid/port id, or a
//! `SPECIAL` value with a secondary tag (constants, register references,
//! opcodes). A `HEADER`-tagged word is only ever stored at the start of a
//! boxed heap object and never appears as a value.

use vstd::prelude::*;

verus! {

pub const TERM_TAG_BITS: u64 = 3;
pub const TERM_TAG_MASK: u64 = 7;

pub const TERMTAG_BOXED: u64 = 0;
pub const TERMTAG_HEADER: u64 = 1;
pub const TERMTAG_CONS: u64 = 2;
pub const TERMTAG_SMALL: u64 = 3;
pub const TERMTAG_ATOM: u64 = 4;
pub const TERMTAG_LOCALPID: u64 = 5;
pub const TERMTAG_LOCALPORT: u64 = 6;
pub const TERMTAG_SPECIAL: u64 = 7;

pub const SPECIALTAG_CONST: u64 = 0;
pub const SPECIALTAG_REGX: u64 = 1;
pub const SPECIALTAG_REGY: u64 = 2;
pub const SPECIALTAG_REGFP: u64 = 3;
pub const SPECIALTAG_OPCODE: u64 = 4;
pub const SPECIALTAG_CATCH: u64 = 5;

/// Raw words of the four special constants: nil, the non-value, the empty
/// tuple and the empty binary. Equality to them is a raw-word comparison.
pub const NIL_RAW: u64 = 7;
pub const NONVALUE_RAW: u64 = 71;
pub const EMPTY_TUPLE_RAW: u64 = 135;
pub const EMPTY_BINARY_RAW: u64 = 199;

/// Continuation-pointer discriminator: a `BOXED`-tagged word with this bit
/// set is a return address into code, not a heap pointer.
pub const CP_BIT: u64 = 0x8000_0000_0000_0000;

/// Heap and code indices stored in pointer-tagged terms stay below this.
pub const PTR_LIMIT: u64 = 0x1000_0000_0000_0000;
/// Atom-table indices and local pid/port ids stay below this.
pub const IMM_LIMIT: u64 = 0x1000_0000_0000_0000;
/// Payload bound for `SPECIAL`-tagged words (register index, opcode).
pub const SPECIAL_VAL_LIMIT: u64 = 0x0400_0000_0000_0000;

/// Boxed-object payload arities stay below this (the header shifts the
/// arity up by seven bits).
pub const ARITY_LIMIT: u64 = 0x0200_0000_0000_0000;

pub const SMALL_MIN: i64 = -0x1000_0000_0000_0000;
pub const SMALL_MAX: i64 = 0x0fff_ffff_ffff_ffff;

// Box-type tags carried in a boxed object's header word.
pub const BOXTYPE_TUPLE: u64 = 0;
pub const BOXTYPE_BIGINTEGER: u64 = 1;
pub const BOXTYPE_FLOAT: u64 = 2;
pub const BOXTYPE_CLOSURE: u64 = 3;
pub const BOXTYPE_EXPORT: u64 = 4;
pub const BOXTYPE_IMPORT: u64 = 5;
pub const BOXTYPE_BINARY: u64 = 6;

pub open spec fn tag_of(w: u64) -> u64 {
    w & TERM_TAG_MASK
}

pub open spec fn special_tag_of(w: u64) -> u64 {
    (w >> 3) & TERM_TAG_MASK
}

pub open spec fn special_val_of(w: u64) -> u64 {
    w >> 6
}

/// Payload of a cons-tagged word: the heap index of its two-word cell.
pub open spec fn cons_ptr_of(w: u64) -> u64 {
    w >> 3
}

/// Payload of a boxed-tagged word with the CP bit masked off.
pub open spec fn box_ptr_of(w: u64) -> u64 {
    (w & 0x7fff_ffff_ffff_ffff) >> 3
}

pub open spec fn small_of(w: u64) -> i64 {
    (w as i64) >> 3
}

/// Payload of an atom, local pid or local port word.
pub open spec fn imm_of(w: u64) -> u64 {
    w >> 3
}

pub open spec fn make_small_s(v: i64) -> u64 {
    ((v as u64) << 3) | TERMTAG_SMALL
}

pub open spec fn make_atom_s(i: u64) -> u64 {
    (i << 3) | TERMTAG_ATOM
}

pub open spec fn make_pid_s(i: u64) -> u64 {
    (i << 3) | TERMTAG_LOCALPID
}

pub open spec fn make_port_s(i: u64) -> u64 {
    (i << 3) | TERMTAG_LOCALPORT
}

pub open spec fn make_cons_s(p: u64) -> u64 {
    (p << 3) | TERMTAG_CONS
}

pub open spec fn make_boxed_s(p: u64) -> u64 {
    p << 3
}

pub open spec fn make_cp_s(p: u64) -> u64 {
    (p << 3) | CP_BIT
}

pub open spec fn make_special_s(st: u64, v: u64) -> u64 {
    (v << 6) | (st << 3) | TERMTAG_SPECIAL
}

pub open spec fn make_header_s(boxtype: u64, arity: u64) -> u64 {
    (arity << 7) | (boxtype << 3) | TERMTAG_HEADER
}

pub open spec fn header_boxtype_of(w: u64) -> u64 {
    (w >> 3) & 0xf
}

pub open spec fn header_arity_of(w: u64) -> u64 {
    w >> 7
}

pub open spec fn is_cp_s(w: u64) -> bool {
    tag_of(w) == TERMTAG_BOXED && w & CP_BIT != 0
}

pub open spec fn is_boxed_s(w: u64) -> bool {
    tag_of(w) == TERMTAG_BOXED && w & CP_BIT == 0
}

pub open spec fn is_special_s(w: u64) -> bool {
    tag_of(w) == TERMTAG_SPECIAL
}

pub open spec fn is_reg_s(w: u64) -> bool {
    is_special_s(w) && (special_tag_of(w) == SPECIALTAG_REGX
        || special_tag_of(w) == SPECIALTAG_REGY || special_tag_of(w) == SPECIALTAG_REGFP)
}

/// A term as a single tagged machine word.
#[derive(Clone, Copy, PartialEq, Eq, Structural, Debug, Hash)]
pub struct LTerm {
    pub raw: u64,
}

impl View for LTerm {
    type V = u64;

    open spec fn view(&self) -> u64 {
        self.raw
    }
}

impl LTerm {
    pub fn from_raw(w: u64) -> (r: LTerm)
        ensures
            r@ == w,
    {
        LTerm { raw: w }
    }

    pub fn raw(self) -> (r: u64)
        ensures
            r == self@,
    {
        self.raw
    }

    pub fn nil() -> (r: LTerm)
        ensures
            r@ == NIL_RAW,
    {
        LTerm { raw: NIL_RAW }
    }

    pub fn non_value() -> (r: LTerm)
        ensures
            r@ == NONVALUE_RAW,
    {
        LTerm { raw: NONVALUE_RAW }
    }

    pub fn empty_tuple() -> (r: LTerm)
        ensures
            r@ == EMPTY_TUPLE_RAW,
    {
        LTerm { raw: EMPTY_TUPLE_RAW }
    }

    pub fn empty_binary() -> (r: LTerm)
        ensures
            r@ == EMPTY_BINARY_RAW,
    {
        LTerm { raw: EMPTY_BINARY_RAW }
    }

    pub fn make_small(v: i64) -> (r: LTerm)
        requires
            SMALL_MIN <= v <= SMALL_MAX,
        ensures
            r@ == make_small_s(v),
    {
        LTerm { raw: ((v as u64) << 3u64) | TERMTAG_SMALL }
    }

    pub fn make_atom(i: u64) -> (r: LTerm)
        requires
            i < IMM_LIMIT,
        ensures
            r@ == make_atom_s(i),
    {
        LTerm { raw: (i << 3u64) | TERMTAG_ATOM }
    }

    pub fn make_local_pid(i: u64) -> (r: LTerm)
        requires
            i < IMM_LIMIT,
        ensures
            r@ == make_pid_s(i),
    {
        LTerm { raw: (i << 3u64) | TERMTAG_LOCALPID }
    }

    pub fn make_local_port(i: u64) -> (r: LTerm)
        requires
            i < IMM_LIMIT,
        ensures
            r@ == make_port_s(i),
    {
        LTerm { raw: (i << 3u64) | TERMTAG_LOCALPORT }
    }

    pub fn make_cons_ptr(p: usize) -> (r: LTerm)
        requires
            p < PTR_LIMIT,
        ensures
            r@ == make_cons_s(p as u64),
    {
        LTerm { raw: ((p as u64) << 3u64) | TERMTAG_CONS }
    }

    pub fn make_boxed(p: usize) -> (r: LTerm)
        requires
            p < PTR_LIMIT,
        ensures
            r@ == make_boxed_s(p as u64),
    {
        LTerm { raw: (p as u64) << 3u64 }
    }

    pub fn make_cp(p: usize) -> (r: LTerm)
        requires
            p < PTR_LIMIT,
        ensures
            r@ == make_cp_s(p as u64),
    {
        LTerm { raw: ((p as u64) << 3u64) | CP_BIT }
    }

    pub fn make_regx(i: usize) -> (r: LTerm)
        requires
            i < SPECIAL_VAL_LIMIT,
        ensures
            r@ == make_special_s(SPECIALTAG_REGX, i as u64),
    {
        LTerm { raw: ((i as u64) << 6u64) | (SPECIALTAG_REGX << 3u64) | TERMTAG_SPECIAL }
    }

    pub fn make_regy(i: usize) -> (r: LTerm)
        requires
            i < SPECIAL_VAL_LIMIT,
        ensures
            r@ == make_special_s(SPECIALTAG_REGY, i as u64),
    {
        LTerm { raw: ((i as u64) << 6u64) | (SPECIALTAG_REGY << 3u64) | TERMTAG_SPECIAL }
    }

    pub fn make_regfp(i: usize) -> (r: LTerm)
        requires
            i < SPECIAL_VAL_LIMIT,
        ensures
            r@ == make_special_s(SPECIALTAG_REGFP, i as u64),
    {
        LTerm { raw: ((i as u64) << 6u64) | (SPECIALTAG_REGFP << 3u64) | TERMTAG_SPECIAL }
    }

    pub fn make_opcode(i: u64) -> (r: LTerm)
        requires
            i < SPECIAL_VAL_LIMIT,
        ensures
            r@ == make_special_s(SPECIALTAG_OPCODE, i),
    {
        LTerm { raw: (i << 6u64) | (SPECIALTAG_OPCODE << 3u64) | TERMTAG_SPECIAL }
    }

    pub fn get_term_tag(self) -> (r: u64)
        ensures
            r == tag_of(self@),
    {
        self.raw & TERM_TAG_MASK
    }

    pub fn get_special_tag(self) -> (r: u64)
        ensures
            r == special_tag_of(self@),
    {
        (self.raw >> 3u64) & TERM_TAG_MASK
    }

    pub fn get_special_value(self) -> (r: u64)
        ensures
            r == special_val_of(self@),
    {
        self.raw >> 6u64
    }

    pub fn get_small_signed(self) -> (r: i64)
        ensures
            r == small_of(self@),
    {
        (self.raw as i64) >> 3u64
    }

    pub fn get_atom_index(self) -> (r: u64)
        ensures
            r == imm_of(self@),
    {
        self.raw >> 3u64
    }

    pub fn get_cons_ptr(self) -> (r: u64)
        ensures
            r == cons_ptr_of(self@),
    {
        self.raw >> 3u64
    }

    pub fn get_box_ptr(self) -> (r: u64)
        ensures
            r == box_ptr_of(self@),
    {
        (self.raw & 0x7fff_ffff_ffff_ffff) >> 3u64
    }

    pub fn get_cp_ptr(self) -> (r: u64)
        ensures
            r == box_ptr_of(self@),
    {
        (self.raw & 0x7fff_ffff_ffff_ffff) >> 3u64
    }

    pub fn is_value(self) -> (r: bool)
        ensures
            r == (self@ != NONVALUE_RAW),
    {
        self.raw != NONVALUE_RAW
    }

    pub fn is_non_value(self) -> (r: bool)
        ensures
            r == (self@ == NONVALUE_RAW),
    {
        self.raw == NONVALUE_RAW
    }

    pub fn is_atom(self) -> (r: bool)
        ensures
            r == (tag_of(self@) == TERMTAG_ATOM),
    {
        self.raw & TERM_TAG_MASK == TERMTAG_ATOM
    }

    pub fn is_small(self) -> (r: bool)
        ensures
            r == (tag_of(self@) == TERMTAG_SMALL),
    {
        self.raw & TERM_TAG_MASK == TERMTAG_SMALL
    }

    pub fn is_cons(self) -> (r: bool)
        ensures
            r == (tag_of(self@) == TERMTAG_CONS),
    {
        self.raw & TERM_TAG_MASK == TERMTAG_CONS
    }

    pub fn is_local_pid(self) -> (r: bool)
        ensures
            r == (tag_of(self@) == TERMTAG_LOCALPID),
    {
        self.raw & TERM_TAG_MASK == TERMTAG_LOCALPID
    }

    pub fn is_local_port(self) -> (r: bool)
        ensures
            r == (tag_of(self@) == TERMTAG_LOCALPORT),
    {
        self.raw & TERM_TAG_MASK == TERMTAG_LOCALPORT
    }

    pub fn is_boxed(self) -> (r: bool)
        ensures
            r == is_boxed_s(self@),
    {
        self.raw & TERM_TAG_MASK == TERMTAG_BOXED && self.raw & CP_BIT == 0
    }

    pub fn is_cp(self) -> (r: bool)
        ensures
            r == is_cp_s(self@),
    {
        self.raw & TERM_TAG_MASK == TERMTAG_BOXED && self.raw & CP_BIT != 0
    }

    pub fn is_special(self) -> (r: bool)
        ensures
            r == is_special_s(self@),
    {
        self.raw & TERM_TAG_MASK == TERMTAG_SPECIAL
    }

    pub fn is_regx(self) -> (r: bool)
        ensures
            r == (is_special_s(self@) && special_tag_of(self@) == SPECIALTAG_REGX),
    {
        self.is_special() && self.get_special_tag() == SPECIALTAG_REGX
    }

    pub fn is_regy(self) -> (r: bool)
        ensures
            r == (is_special_s(self@) && special_tag_of(self@) == SPECIALTAG_REGY),
    {
        self.is_special() && self.get_special_tag() == SPECIALTAG_REGY
    }

    pub fn is_regfp(self) -> (r: bool)
        ensures
            r == (is_special_s(self@) && special_tag_of(self@) == SPECIALTAG_REGFP),
    {
        self.is_special() && self.get_special_tag() == SPECIALTAG_REGFP
    }

    /// Raw-word identity: the same immediate, or the very same heap cell.
    pub fn is_same(a: LTerm, b: LTerm) -> (r: bool)
        ensures
            r == (a@ == b@),
    {
        a.raw == b.raw
    }
}

/// The payload of any small-tagged word lies in the small range.
pub proof fn lemma_small_range(w: u64)
    ensures
        SMALL_MIN <= small_of(w) <= SMALL_MAX,
{
    assert(-0x1000_0000_0000_0000i64 <= ((w as i64) >> 3u64) <= 0x0fff_ffff_ffff_ffffi64)
        by (bit_vector);
}

/// Round trip for small integers: decoding the encoding of any in-range
/// signed value gives the value back.
pub proof fn lemma_small_roundtrip(v: i64)
    requires
        SMALL_MIN <= v <= SMALL_MAX,
    ensures
        small_of(make_small_s(v)) == v,
        tag_of(make_small_s(v)) == TERMTAG_SMALL,
{
    assert((((((v as u64) << 3u64) | 3u64) as i64) >> 3u64) == v
        && ((((v as u64) << 3u64) | 3u64) & 7u64) == 3u64) by (bit_vector)
        requires
            -0x1000_0000_0000_0000i64 <= v <= 0x0fff_ffff_ffff_ffffi64,
    ;
}

/// Round trip for payload-carrying immediates (atoms, local pids and ports)
/// and for pointer words: tagging preserves the payload.
pub proof fn lemma_imm_roundtrip(i: u64, t: u64)
    requires
        i < IMM_LIMIT,
        t <= 7,
    ensures
        imm_of((i << 3) | t) == i,
        tag_of((i << 3) | t) == t,
{
    assert((((i << 3u64) | t) >> 3u64) == i && (((i << 3u64) | t) & 7u64) == t) by (bit_vector)
        requires
            i < 0x1000_0000_0000_0000u64 && t <= 7u64,
    ;
}

/// Round trip for continuation pointers: the CP discriminator and the code
/// index are both recovered.
pub proof fn lemma_cp_roundtrip(p: u64)
    requires
        p < PTR_LIMIT,
    ensures
        is_cp_s(make_cp_s(p)),
        box_ptr_of(make_cp_s(p)) == p,
        !is_boxed_s(make_cp_s(p)),
{
    assert(((((p << 3u64) | 0x8000_0000_0000_0000u64) & 0x7fff_ffff_ffff_ffffu64) >> 3u64) == p
        && (((p << 3u64) | 0x8000_0000_0000_0000u64) & 7u64) == 0u64
        && ((p << 3u64) | 0x8000_0000_0000_0000u64) & 0x8000_0000_0000_0000u64 != 0u64)
        by (bit_vector)
        requires
            p < 0x1000_0000_0000_0000u64,
    ;
}

/// Round trip for plain boxed pointers.
pub proof fn lemma_boxed_roundtrip(p: u64)
    requires
        p < PTR_LIMIT,
    ensures
        is_boxed_s(make_boxed_s(p)),
        box_ptr_of(make_boxed_s(p)) == p,
        !is_cp_s(make_boxed_s(p)),
{
    assert((((p << 3u64) & 0x7fff_ffff_ffff_ffffu64) >> 3u64) == p
        && ((p << 3u64) & 7u64) == 0u64
        && (p << 3u64) & 0x8000_0000_0000_0000u64 == 0u64) by (bit_vector)
        requires
            p < 0x1000_0000_0000_0000u64,
    ;
}

/// Round trip for special-tagged words: sub-tag and payload are recovered,
/// so register references decode to the register they name.
pub proof fn lemma_special_roundtrip(st: u64, v: u64)
    requires
        st <= 7,
        v < SPECIAL_VAL_LIMIT,
    ensures
        tag_of(make_special_s(st, v)) == TERMTAG_SPECIAL,
        special_tag_of(make_special_s(st, v)) == st,
        special_val_of(make_special_s(st, v)) == v,
{
    assert((((v << 6u64) | (st << 3u64) | 7u64) & 7u64) == 7u64
        && ((((v << 6u64) | (st << 3u64) | 7u64) >> 3u64) & 7u64) == st
        && (((v << 6u64) | (st << 3u64) | 7u64) >> 6u64) == v) by (bit_vector)
        requires
            st <= 7u64 && v < 0x0400_0000_0000_0000u64,
    ;
}

/// Round trip for boxed-object header words.
pub proof fn lemma_header_roundtrip(bt: u64, n: u64)
    requires
        bt <= 0xf,
        n < ARITY_LIMIT,
    ensures
        tag_of(make_header_s(bt, n)) == TERMTAG_HEADER,
        header_boxtype_of(make_header_s(bt, n)) == bt,
        header_arity_of(make_header_s(bt, n)) == n,
{
    assert((((n << 7u64) | (bt << 3u64) | 1u64) & 7u64) == 1u64
        && ((((n << 7u64) | (bt << 3u64) | 1u64) >> 3u64) & 0xfu64) == bt
        && (((n << 7u64) | (bt << 3u64) | 1u64) >> 7u64) == n) by (bit_vector)
        requires
            bt <= 0xfu64 && n < 0x0200_0000_0000_0000u64,
    ;
}


/// Decimal digits of a number, most significant first.
pub open spec fn dec_digits(n: nat) -> Seq<u8>
    decreases n,
{
    if n < 10 {
        seq![(48 + n) as u8]
    } else {
        dec_digits(n / 10) + seq![(48 + n % 10) as u8]
    }
}

/// Decimal digits of an integer, with a leading minus sign when negative.
pub open spec fn int_dec_bytes(i: int) -> Seq<u8> {
    if i < 0 {
        seq![45u8] + dec_digits((-i) as nat)
    } else {
        dec_digits(i as nat)
    }
}

/// Hexadecimal digits of a number, most significant first, lower case.
pub open spec fn hex_digit(d: nat) -> u8 {
    if d < 10 {
        (48 + d) as u8
    } else {
        (87 + d) as u8
    }
}

pub open spec fn hex_digits(n: nat) -> Seq<u8>
    decreases n,
{
    if n < 16 {
        seq![hex_digit(n)]
    } else {
        hex_digits(n / 16) + seq![hex_digit(n % 16)]
    }
}

/// Rendering of a special-tagged word: the constants by their notation,
/// register references as `X`/`Y`/`F` plus the index, opcodes by number,
/// and any other special word by its sub-tag and payload in hexadecimal.
pub open spec fn format_special_s(w: u64) -> Seq<u8> {
    if w == NIL_RAW {
        seq![91u8, 93u8]
    } else if w == NONVALUE_RAW {
        seq![78u8, 79u8, 78u8, 95u8, 86u8, 65u8, 76u8, 85u8, 69u8]
    } else if w == EMPTY_BINARY_RAW {
        seq![60u8, 60u8, 62u8, 62u8]
    } else if w == EMPTY_TUPLE_RAW {
        seq![123u8, 125u8]
    } else if special_tag_of(w) == SPECIALTAG_REGX {
        seq![88u8] + dec_digits(special_val_of(w) as nat)
    } else if special_tag_of(w) == SPECIALTAG_REGY {
        seq![89u8] + dec_digits(special_val_of(w) as nat)
    } else if special_tag_of(w) == SPECIALTAG_REGFP {
        seq![70u8] + dec_digits(special_val_of(w) as nat)
    } else if special_tag_of(w) == SPECIALTAG_OPCODE {
        seq![79u8, 112u8, 99u8, 111u8, 100u8, 101u8, 40u8] + dec_digits(
            special_val_of(w) as nat,
        ) + seq![41u8]
    } else {
        seq![83u8, 112u8, 101u8, 99u8, 105u8, 97u8, 108u8, 40u8, 48u8, 120u8] + hex_digits(
            special_tag_of(w) as nat,
        ) + seq![59u8, 32u8, 48u8, 120u8] + hex_digits(special_val_of(w) as nat) + seq![41u8]
    }
}

/// Hexadecimal rendering of a number.
pub fn u64_to_hex(n: u64) -> (r: Vec<u8>)
    ensures
        r@ == hex_digits(n as nat),
    decreases n,
{
    if n < 16 {
        let mut v: Vec<u8> = Vec::new();
        let d = n;
        v.push(if d < 10 {
            (48 + d) as u8
        } else {
            (87 + d) as u8
        });
        proof {
            assert(v@ =~= hex_digits(n as nat));
        }
        v
    } else {
        let mut v = u64_to_hex(n / 16);
        let d = n % 16;
        v.push(if d < 10 {
            (48 + d) as u8
        } else {
            (87 + d) as u8
        });
        proof {
            assert(v@ =~= hex_digits(n as nat));
        }
        v
    }
}

/// Decimal rendering of a number.
pub fn u64_to_dec(n: u64) -> (r: Vec<u8>)
    ensures
        r@ == dec_digits(n as nat),
    decreases n,
{
    if n < 10 {
        let mut v: Vec<u8> = Vec::new();
        v.push((48 + n) as u8);
        proof {
            assert(v@ =~= dec_digits(n as nat));
        }
        v
    } else {
        let mut v = u64_to_dec(n / 10);
        v.push((48 + n % 10) as u8);
        proof {
            assert(v@ =~= dec_digits(n as nat));
        }
        v
    }
}

/// Render a special-tagged term as readable bytes.
pub fn format_special(term: LTerm) -> (r: Vec<u8>)
    requires
        tag_of(term@) == TERMTAG_SPECIAL,
    ensures
        r@ == format_special_s(term@),
{
    let mut out: Vec<u8> = Vec::new();
    if term.raw() == NIL_RAW {
        out.push(91);
        out.push(93);
        proof {
            assert(out@ =~= format_special_s(term@));
        }
        return out;
    }
    if term.raw() == NONVALUE_RAW {
        out.push(78);
        out.push(79);
        out.push(78);
        out.push(95);
        out.push(86);
        out.push(65);
        out.push(76);
        out.push(85);
        out.push(69);
        proof {
            assert(out@ =~= format_special_s(term@));
        }
        return out;
    }
    if term.raw() == EMPTY_BINARY_RAW {
        out.push(60);
        out.push(60);
        out.push(62);
        out.push(62);
        proof {
            assert(out@ =~= format_special_s(term@));
        }
        return out;
    }
    if term.raw() == EMPTY_TUPLE_RAW {
        out.push(123);
        out.push(125);
        proof {
            assert(out@ =~= format_special_s(term@));
        }
        return out;
    }
    let st = term.get_special_tag();
    let mut digits = u64_to_dec(term.get_special_value());
    if st == SPECIALTAG_REGX || st == SPECIALTAG_REGY || st == SPECIALTAG_REGFP {
        if st == SPECIALTAG_REGX {
            out.push(88);
        } else if st == SPECIALTAG_REGY {
            out.push(89);
        } else {
            out.push(70);
        }
        out.append(&mut digits);
        proof {
            assert(out@ =~= format_special_s(term@));
        }
        out
    } else if st == SPECIALTAG_OPCODE {
        out.push(79);
        out.push(112);
        out.push(99);
        out.push(111);
        out.push(100);
        out.push(101);
        out.push(40);
        out.append(&mut digits);
        out.push(41);
        proof {
            assert(out@ =~= format_special_s(term@));
        }
        out
    } else {
        out.push(83);
        out.push(112);
        out.push(101);
        out.push(99);
        out.push(105);
        out.push(97);
        out.push(108);
        out.push(40);
        out.push(48);
        out.push(120);
        let mut tag_digits = u64_to_hex(st);
        out.append(&mut tag_digits);
        out.push(59);
        out.push(32);
        out.push(48);
        out.push(120);
        let mut val_digits = u64_to_hex(term.get_special_value());
        out.append(&mut val_digits);
        out.push(41);
        proof {
            assert(out@ =~= format_special_s(term@));
        }
        out
    }
}

} // verus!
