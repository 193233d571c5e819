//! Export boxed objects: an MFA a code server can resolve, as created by
//! `erlang:make_fun/3` and friends. The box holds the module atom, the
//! function atom and the arity after its header word.

use vstd::prelude::*;

use crate::fail::{Error, RtResult};
use crate::gen_bif::MFArity;
use crate::heap::Heap;
use crate::lterm::{imm_of, tag_of, LTerm, TERMTAG_ATOM};
use crate::model::{term_val, valid_term, Val};

verus! {

#[derive(Clone, Copy, Debug)]
pub struct Export {
    pub exp: MFArity,
}

impl Export {
    /// Words an export box occupies: the header plus three payload words.
    pub fn storage_size() -> (r: usize)
        ensures
            r == 4,
    {
        4
    }

    pub fn new(mfa: &MFArity) -> (r: Export)
        ensures
            r.exp == *mfa,
    {
        Export { exp: *mfa }
    }

    /// Allocate an export box for this MFA on the process heap.
    pub fn create_into(hp: &mut Heap, mfa: &MFArity) -> (r: RtResult<LTerm>)
        requires
            old(hp).inv(),
            tag_of(mfa.m@) == TERMTAG_ATOM,
            tag_of(mfa.f@) == TERMTAG_ATOM,
        ensures
            match r {
                Ok(t) => {
                    &&& final(hp).grew(*old(hp))
                    &&& term_val(final(hp)@, t@) == Val::Export(
                        imm_of(mfa.m@) as nat,
                        imm_of(mfa.f@) as nat,
                        mfa.arity as nat,
                    )
                    &&& valid_term(final(hp)@, t@)
                },
                Err(e) => {
                    &&& e == Error::HeapIsFull
                    &&& old(hp)@.words.len() + 4 > old(hp).capacity
                    &&& *final(hp) == *old(hp)
                },
            },
    {
        hp.alloc_export(mfa.m, mfa.f, mfa.arity as u64)
    }

    /// Read the MFA back out of an export box; a term of any other shape
    /// is a type mismatch.
    pub fn const_from_term(hp: &Heap, t: LTerm) -> (r: RtResult<Export>)
        requires
            hp.inv(),
            valid_term(hp@, t@),
        ensures
            match term_val(hp@, t@) {
                Val::Export(m, f, a) => if a <= usize::MAX {
                    r matches Ok(e) && imm_of(e.exp.m@) == m && imm_of(e.exp.f@) == f && e.exp.arity
                        == a && tag_of(e.exp.m@) == TERMTAG_ATOM && tag_of(e.exp.f@) == TERMTAG_ATOM
                } else {
                    r matches Err(e) && e == Error::BoxedIsNotAnExport
                },
                _ => r matches Err(e) && e == Error::BoxedIsNotAnExport,
            },
    {
        if !t.is_boxed() {
            return Err(Error::BoxedIsNotAnExport);
        }
        if hp.boxed_type(t) != crate::lterm::BOXTYPE_EXPORT {
            return Err(Error::BoxedIsNotAnExport);
        }
        let (m, f, a) = hp.export_fields(t);
        if a > usize::MAX as u64 {
            return Err(Error::BoxedIsNotAnExport);
        }
        Ok(Export { exp: MFArity { m, f, arity: a as usize } })
    }
}

} // verus!
