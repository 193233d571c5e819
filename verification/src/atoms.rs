//! The global atom table: interned names addressed by the index an atom
//! term carries. Lookups are reads of an immutable snapshot; only the
//! loader appends. The comparator orders atoms by name length, then bytes.

use vstd::prelude::*;

use core::cmp::Ordering;

use crate::lterm::{imm_of, tag_of, LTerm, IMM_LIMIT, TERMTAG_ATOM};
use crate::order::{atom_ord, bytes_lex};

verus! {

/// The loader interns each name at most once, so distinct indices hold
/// distinct names (`crate::order::distinct_names`); under that discipline
/// two atoms compare `Equal` only when they are the same atom
/// (`crate::order::lemma_atom_ord_equal`).
pub struct AtomTable {
    pub names: Vec<Vec<u8>>,
}

impl View for AtomTable {
    type V = Seq<Seq<u8>>;

    open spec fn view(&self) -> Seq<Seq<u8>> {
        Seq::new(self.names@.len(), |i: int| self.names@[i]@)
    }
}

/// A byte sequence with every position below `k` equal in `x` and `y`
/// orders as its suffixes from `k` do.
pub proof fn lemma_bytes_lex_skip(x: Seq<u8>, y: Seq<u8>, k: int)
    requires
        0 <= k <= x.len(),
        k <= y.len(),
        forall|j: int| 0 <= j < k ==> x[j] == y[j],
    ensures
        bytes_lex(x, y) == bytes_lex(x.skip(k), y.skip(k)),
    decreases k,
{
    if k > 0 {
        lemma_bytes_lex_skip(x.drop_first(), y.drop_first(), k - 1);
        assert(x.drop_first().skip(k - 1) =~= x.skip(k));
        assert(y.drop_first().skip(k - 1) =~= y.skip(k));
    } else {
        assert(x.skip(0) =~= x);
        assert(y.skip(0) =~= y);
    }
}

/// Lexicographic byte comparison of two vectors.
pub fn cmp_bytes(x: &Vec<u8>, y: &Vec<u8>) -> (r: Ordering)
    ensures
        r == bytes_lex(x@, y@),
{
    let xn = x.len();
    let yn = y.len();
    let mut k: usize = 0;
    loop
        invariant
            k <= xn,
            k <= yn,
            xn == x@.len(),
            yn == y@.len(),
            forall|j: int| 0 <= j < k ==> x@[j] == y@[j],
        decreases xn - k,
    {
        proof {
            lemma_bytes_lex_skip(x@, y@, k as int);
        }
        if k == xn || k == yn {
            if xn == yn {
                return Ordering::Equal;
            } else if xn < yn {
                return Ordering::Less;
            } else {
                return Ordering::Greater;
            }
        }
        let xb = x[k];
        let yb = y[k];
        if xb < yb {
            return Ordering::Less;
        } else if xb > yb {
            return Ordering::Greater;
        }
        k += 1;
    }
}

impl AtomTable {
    pub fn new() -> (r: AtomTable)
        ensures
            r@.len() == 0,
    {
        AtomTable { names: Vec::new() }
    }

    /// Intern a name; returns the new atom's index. Only the loader calls
    /// this, so readers see a stable snapshot.
    pub fn push_atom(&mut self, name: Vec<u8>) -> (r: u64)
        requires
            old(self)@.len() < IMM_LIMIT,
        ensures
            final(self)@ == old(self)@.push(name@),
            r == old(self)@.len(),
    {
        let r = self.names.len() as u64;
        self.names.push(name);
        proof {
            assert(self@ =~= old(self)@.push(name@));
        }
        r
    }

    pub fn len(&self) -> (r: usize)
        ensures
            r == self@.len(),
    {
        self.names.len()
    }

    /// Compare two atom terms by interned name length, then name bytes.
    pub fn cmp_atoms(&self, a: LTerm, b: LTerm) -> (r: Ordering)
        requires
            tag_of(a@) == TERMTAG_ATOM,
            tag_of(b@) == TERMTAG_ATOM,
            imm_of(a@) < self@.len(),
            imm_of(b@) < self@.len(),
        ensures
            r == atom_ord(self@, imm_of(a@) as nat, imm_of(b@) as nat),
    {
        let n = self.names.len();
        proof {
            assert(imm_of(a@) < n);
            assert(imm_of(b@) < n);
        }
        let i = a.get_atom_index() as usize;
        let j = b.get_atom_index() as usize;
        proof {
            assert(i == imm_of(a@));
            assert(j == imm_of(b@));
            assert(self@[i as int] == self.names@[i as int]@);
            assert(self@[j as int] == self.names@[j as int]@);
        }
        let na = &self.names[i];
        let nb = &self.names[j];
        if na.len() < nb.len() {
            Ordering::Less
        } else if na.len() > nb.len() {
            Ordering::Greater
        } else {
            cmp_bytes(na, nb)
        }
    }
}


// Indices of the atoms the runtime itself relies on, in the order
// `new_standard` interns them.
pub const ATOM_ERLANG: u64 = 0;
pub const ATOM_LISTS: u64 = 1;
pub const ATOM_TRUE: u64 = 2;
pub const ATOM_FALSE: u64 = 3;
pub const ATOM_BADARITY: u64 = 4;
pub const ATOM_BADFUN: u64 = 5;
pub const ATOM_BADARG: u64 = 6;
pub const ATOM_BADARITH: u64 = 7;
pub const ATOM_MULTIPLY: u64 = 8;
pub const ATOM_PLUS: u64 = 9;
pub const ATOM_MINUS: u64 = 10;
pub const ATOM_NOTEQUAL: u64 = 11;
pub const ATOM_LESSTHAN: u64 = 12;
pub const ATOM_NOTEQUAL_EXACT: u64 = 13;
pub const ATOM_EQUAL_EXACT: u64 = 14;
pub const ATOM_LESSEQUAL: u64 = 15;
pub const ATOM_EQUALEQUAL: u64 = 16;
pub const ATOM_GREATERTHAN: u64 = 17;
pub const ATOM_GREATEREQUAL: u64 = 18;
pub const ATOM_ERROR: u64 = 19;
pub const ATOM_NIF_ERROR: u64 = 20;
pub const ATOM_IS_BOOLEAN: u64 = 21;
pub const ATOM_HD: u64 = 22;
pub const ATOM_TL: u64 = 23;
pub const ATOM_LENGTH: u64 = 24;
pub const ATOM_SELF: u64 = 25;
pub const ATOM_PLUSPLUS: u64 = 26;
pub const ATOM_ATOM_TO_LIST: u64 = 27;
pub const ATOM_INTEGER_TO_LIST: u64 = 28;
pub const ATOM_MAKE_FUN: u64 = 29;
pub const ATOM_MEMBER: u64 = 30;

pub const N_STANDARD_ATOMS: u64 = 31;

impl AtomTable {
    /// The atom table with the runtime's own atoms already interned.
    pub fn new_standard() -> (r: AtomTable)
        ensures
            r@.len() == N_STANDARD_ATOMS,
    {
        let mut t = AtomTable::new();
        t.push_atom(vec![101, 114, 108, 97, 110, 103]);
        t.push_atom(vec![108, 105, 115, 116, 115]);
        t.push_atom(vec![116, 114, 117, 101]);
        t.push_atom(vec![102, 97, 108, 115, 101]);
        t.push_atom(vec![98, 97, 100, 97, 114, 105, 116, 121]);
        t.push_atom(vec![98, 97, 100, 102, 117, 110]);
        t.push_atom(vec![98, 97, 100, 97, 114, 103]);
        t.push_atom(vec![98, 97, 100, 97, 114, 105, 116, 104]);
        t.push_atom(vec![42]);
        t.push_atom(vec![43]);
        t.push_atom(vec![45]);
        t.push_atom(vec![47, 61]);
        t.push_atom(vec![60]);
        t.push_atom(vec![61, 47, 61]);
        t.push_atom(vec![61, 58, 61]);
        t.push_atom(vec![61, 60]);
        t.push_atom(vec![61, 61]);
        t.push_atom(vec![62]);
        t.push_atom(vec![62, 61]);
        t.push_atom(vec![101, 114, 114, 111, 114]);
        t.push_atom(vec![110, 105, 102, 95, 101, 114, 114, 111, 114]);
        t.push_atom(vec![105, 115, 95, 98, 111, 111, 108, 101, 97, 110]);
        t.push_atom(vec![104, 100]);
        t.push_atom(vec![116, 108]);
        t.push_atom(vec![108, 101, 110, 103, 116, 104]);
        t.push_atom(vec![115, 101, 108, 102]);
        t.push_atom(vec![43, 43]);
        t.push_atom(vec![97, 116, 111, 109, 95, 116, 111, 95, 108, 105, 115, 116]);
        t.push_atom(vec![105, 110, 116, 101, 103, 101, 114, 95, 116, 111, 95, 108, 105, 115, 116]);
        t.push_atom(vec![109, 97, 107, 101, 95, 102, 117, 110]);
        t.push_atom(vec![109, 101, 109, 98, 101, 114]);
        t
    }
}

} // verus!
