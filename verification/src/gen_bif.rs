//! The static table of built-in functions: module atom, function atom,
//! arity and the function each entry names. `find_bif` is the linear scan
//! the dispatcher uses to resolve an MFA. `bif_post` is the shared
//! statement of what every built-in returns and how it may grow the heap.

use vstd::prelude::*;

use core::cmp::Ordering;

use crate::atoms::{
    ATOM_ATOM_TO_LIST, ATOM_BADARG, ATOM_BADARITH, ATOM_BADFUN, ATOM_EQUALEQUAL, ATOM_EQUAL_EXACT,
    ATOM_ERLANG, ATOM_ERROR, ATOM_FALSE, ATOM_GREATEREQUAL, ATOM_GREATERTHAN, ATOM_HD,
    ATOM_INTEGER_TO_LIST, ATOM_IS_BOOLEAN, ATOM_LENGTH, ATOM_LESSEQUAL, ATOM_LESSTHAN, ATOM_LISTS,
    ATOM_MAKE_FUN, ATOM_MEMBER, ATOM_MINUS, ATOM_MULTIPLY, ATOM_NIF_ERROR, ATOM_NOTEQUAL,
    ATOM_NOTEQUAL_EXACT, ATOM_PLUS, ATOM_PLUSPLUS, ATOM_SELF, ATOM_TL, ATOM_TRUE,
};
use crate::fail::{Error, ExceptionType, RtResult};
use crate::lterm::{
    int_dec_bytes, make_atom_s, make_pid_s, make_small_s, LTerm, SMALL_MAX, SMALL_MIN,
};
use crate::model::{
    cons_hd_v, cons_tl_v, heap_extends, preserved, term_val, HeapM, Val,
};
use crate::order::cmp_spec;

verus! {

/// Module-function-arity triple identifying a callable.
#[derive(Clone, Copy, PartialEq, Eq, Structural, Debug)]
pub struct MFArity {
    pub m: LTerm,
    pub f: LTerm,
    pub arity: usize,
}

/// The built-in functions this runtime implements.
#[derive(Clone, Copy, PartialEq, Eq, Structural, Debug)]
pub enum BifId {
    Multiply,
    Plus,
    Minus,
    NotEqual,
    LessThan,
    NotEqualExact,
    EqualExact,
    LessEqual,
    EqualEqual,
    GreaterThan,
    GreaterEqual,
    Error1,
    Error2,
    NifError1,
    NifError2,
    IsBoolean,
    Hd,
    Tl,
    Length,
    SelfPid,
    PlusPlus,
    AtomToList,
    IntegerToList,
    MakeFun3,
    Member,
}

/// One entry of the BIF table.
#[derive(Clone, Copy, PartialEq, Eq, Structural, Debug)]
pub struct BifTabItem {
    pub m: LTerm,
    pub f: LTerm,
    pub arity: usize,
    pub func: BifId,
}

pub open spec fn bif_arity_s(id: BifId) -> nat {
    match id {
        BifId::Multiply => 2,
        BifId::Plus => 2,
        BifId::Minus => 2,
        BifId::NotEqual => 2,
        BifId::LessThan => 2,
        BifId::NotEqualExact => 2,
        BifId::EqualExact => 2,
        BifId::LessEqual => 2,
        BifId::EqualEqual => 2,
        BifId::GreaterThan => 2,
        BifId::GreaterEqual => 2,
        BifId::Error1 => 1,
        BifId::Error2 => 2,
        BifId::NifError1 => 1,
        BifId::NifError2 => 2,
        BifId::IsBoolean => 1,
        BifId::Hd => 1,
        BifId::Tl => 1,
        BifId::Length => 1,
        BifId::SelfPid => 0,
        BifId::PlusPlus => 2,
        BifId::AtomToList => 1,
        BifId::IntegerToList => 1,
        BifId::MakeFun3 => 3,
        BifId::Member => 2,
    }
}

/// Declared arity of a built-in.
pub fn bif_arity(id: BifId) -> (r: usize)
    ensures
        r == bif_arity_s(id),
{
    match id {
        BifId::Error1 => 1,
        BifId::NifError1 => 1,
        BifId::IsBoolean => 1,
        BifId::Hd => 1,
        BifId::Tl => 1,
        BifId::Length => 1,
        BifId::AtomToList => 1,
        BifId::IntegerToList => 1,
        BifId::SelfPid => 0,
        BifId::MakeFun3 => 3,
        _ => 2,
    }
}

pub open spec fn bool_term(c: bool) -> u64 {
    if c {
        make_atom_s(ATOM_TRUE)
    } else {
        make_atom_s(ATOM_FALSE)
    }
}

/// The raw words of the atoms `true` and `false`.
pub open spec fn is_bool_raw(w: u64) -> bool {
    w == make_atom_s(ATOM_TRUE) || w == make_atom_s(ATOM_FALSE)
}

/// The integer a numeric term value carries, if it is an integer.
pub open spec fn int_of(v: Val) -> Option<int> {
    match v {
        Val::Small(i) => Some(i),
        Val::Big(i) => Some(i),
        _ => None,
    }
}

/// Canonical value of an integer: small when it fits, bignum otherwise.
pub open spec fn canon_val(i: int) -> Val {
    if SMALL_MIN <= i <= SMALL_MAX {
        Val::Small(i)
    } else {
        Val::Big(i)
    }
}

/// Length of a proper list value; `None` for improper lists and non-lists.
pub open spec fn list_len_v(v: Val) -> Option<nat>
    decreases v,
{
    match v {
        Val::Nil => Some(0),
        Val::Cons(_, tl) => match list_len_v(*tl) {
            Some(n) => Some(n + 1),
            None => None,
        },
        _ => None,
    }
}

/// Value of a list holding one small per byte, nil terminated.
pub open spec fn bytes_list_v(s: Seq<u8>) -> Val
    decreases s.len(),
{
    if s.len() == 0 {
        Val::Nil
    } else {
        Val::Cons(Box::new(Val::Small(s[0] as int)), Box::new(bytes_list_v(s.drop_first())))
    }
}

/// Appending a value to a proper list of element values.
pub open spec fn append_items(s: Seq<Val>, b: Val) -> Val
    decreases s.len(),
{
    if s.len() == 0 {
        b
    } else {
        Val::Cons(Box::new(s[0]), Box::new(append_items(s.drop_first(), b)))
    }
}

/// Elements of a list value along its tail spine.
pub open spec fn items_of(v: Val) -> Seq<Val>
    decreases v,
{
    match v {
        Val::Cons(h, t) => seq![*h] + items_of(*t),
        _ => Seq::empty(),
    }
}

/// List append: defined when the left operand is a proper list.
pub open spec fn append_v(a: Val, b: Val) -> Option<Val>
    decreases a,
{
    match a {
        Val::Nil => Some(b),
        Val::Cons(h, t) => match append_v(*t, b) {
            Some(r) => Some(Val::Cons(h, Box::new(r))),
            None => None,
        },
        _ => None,
    }
}

/// On a proper list, append is the fold of the elements onto the right
/// operand.
pub proof fn lemma_append_items(a: Val, b: Val)
    requires
        list_len_v(a) is Some,
    ensures
        append_v(a, b) == Some(append_items(items_of(a), b)),
    decreases a,
{
    match a {
        Val::Cons(h, t) => {
            lemma_append_items(*t, b);
            assert(items_of(a)[0] == *h);
            assert(items_of(a).drop_first() =~= items_of(*t));
        },
        _ => {
            assert(items_of(a) =~= Seq::<Val>::empty());
        },
    }
}

/// Membership under exact comparison; defined until a non-list tail is
/// reached.
pub open spec fn member_v(names: Seq<Seq<u8>>, x: Val, l: Val) -> Option<bool>
    decreases l,
{
    match l {
        Val::Nil => Some(false),
        Val::Cons(h, t) => if cmp_spec(names, x, *h, true) == Ordering::Equal {
            Some(true)
        } else {
            member_v(names, x, *t)
        },
        _ => None,
    }
}

/// A freshly built proper list as a successful result, or `HeapIsFull`
/// without room for its `2 * n` cell words.
pub open spec fn list_out(h0: HeapM, h1: HeapM, cap: int, v: Val, n: int, r: RtResult<LTerm>) -> bool {
    match r {
        Ok(t) => {
            &&& h0.words.len() + 2 * n <= cap
            &&& heap_extends(h1, h0)
            &&& preserved(h1, h0)
            &&& term_val(h1, t@) == v
            &&& crate::model::val_ok(v)
        },
        Err(e) => e == Error::HeapIsFull && h1 == h0 && h0.words.len() + 2 * n > cap,
    }
}

/// Exception outcome carrying class `Error` and an immediate reason.
pub open spec fn err_exc(r: RtResult<LTerm>, reason: u64) -> bool {
    match r {
        Err(Error::Exception(ExceptionType::Error, t)) => t@ == reason,
        _ => false,
    }
}

/// Successful result whose raw word is `w`, with the heap untouched.
pub open spec fn ok_imm(r: RtResult<LTerm>, w: u64) -> bool {
    match r {
        Ok(t) => t@ == w,
        _ => false,
    }
}

/// An integer result in canonical form: unchanged heap for a small, a
/// fresh bignum box (two words) otherwise, or `HeapIsFull` without room.
pub open spec fn arith_out(h0: HeapM, h1: HeapM, cap: int, i: int, r: RtResult<LTerm>) -> bool {
    if SMALL_MIN <= i <= SMALL_MAX {
        h1 == h0 && ok_imm(r, make_small_s(i as i64))
    } else {
        match r {
            Ok(t) => {
                &&& h0.words.len() + 2 <= cap
                &&& heap_extends(h1, h0)
                &&& preserved(h1, h0)
                &&& term_val(h1, t@) == Val::Big(i)
            },
            Err(e) => e == Error::HeapIsFull && h1 == h0 && h0.words.len() + 2 > cap,
        }
    }
}

/// A freshly allocated tuple of the given element values as the reason of
/// an `Error`-class exception, or `HeapIsFull` without room for it.
pub open spec fn exc_tuple_out(
    h0: HeapM,
    h1: HeapM,
    cap: int,
    elems: Seq<Val>,
    r: RtResult<LTerm>,
) -> bool {
    match r {
        Err(Error::Exception(ExceptionType::Error, t)) => {
            &&& h0.words.len() + 1 + elems.len() <= cap
            &&& heap_extends(h1, h0)
            &&& preserved(h1, h0)
            &&& term_val(h1, t@) == Val::Tuple(elems)
        },
        Err(Error::HeapIsFull) => h1 == h0 && h0.words.len() + 1 + elems.len() > cap,
        _ => false,
    }
}

/// What each built-in returns and how it may change the process heap.
/// `args` are the already-loaded argument words, `h0`/`h1` the heap before
/// and after, `cap` its capacity and `pid` the running process.
pub open spec fn bif_post(
    id: BifId,
    names: Seq<Seq<u8>>,
    h0: HeapM,
    h1: HeapM,
    cap: int,
    pid: nat,
    args: Seq<u64>,
    r: RtResult<LTerm>,
) -> bool {
    let v0 = term_val(h0, args[0]);
    let v1 = term_val(h0, args[1]);
    let v2 = term_val(h0, args[2]);
    match id {
        BifId::IsBoolean => h1 == h0 && ok_imm(r, bool_term(is_bool_raw(args[0]))),
        BifId::SelfPid => h1 == h0 && ok_imm(r, make_pid_s(pid as u64)),
        BifId::Error1 => h1 == h0 && err_exc(r, args[0]),
        BifId::Error2 => exc_tuple_out(h0, h1, cap, seq![v0, v1], r),
        BifId::NifError1 => exc_tuple_out(
            h0,
            h1,
            cap,
            seq![Val::Atom(ATOM_BADFUN as nat), v0],
            r,
        ),
        BifId::NifError2 => exc_tuple_out(
            h0,
            h1,
            cap,
            seq![Val::Atom(ATOM_BADFUN as nat), v0, v1],
            r,
        ),
        BifId::Plus => match (int_of(v0), int_of(v1)) {
            (Some(x), Some(y)) => arith_out(h0, h1, cap, x + y, r),
            _ => h1 == h0 && err_exc(r, make_atom_s(ATOM_BADARITH)),
        },
        BifId::Minus => match (int_of(v0), int_of(v1)) {
            (Some(x), Some(y)) => arith_out(h0, h1, cap, x - y, r),
            _ => h1 == h0 && err_exc(r, make_atom_s(ATOM_BADARITH)),
        },
        BifId::Multiply => match (int_of(v0), int_of(v1)) {
            (Some(x), Some(y)) => arith_out(h0, h1, cap, x * y, r),
            _ => h1 == h0 && err_exc(r, make_atom_s(ATOM_BADARITH)),
        },
        BifId::LessThan => h1 == h0 && ok_imm(
            r,
            bool_term(cmp_spec(names, v0, v1, false) == Ordering::Less),
        ),
        BifId::LessEqual => h1 == h0 && ok_imm(
            r,
            bool_term(cmp_spec(names, v0, v1, false) != Ordering::Greater),
        ),
        BifId::GreaterThan => h1 == h0 && ok_imm(
            r,
            bool_term(cmp_spec(names, v0, v1, false) == Ordering::Greater),
        ),
        BifId::GreaterEqual => h1 == h0 && ok_imm(
            r,
            bool_term(cmp_spec(names, v0, v1, false) != Ordering::Less),
        ),
        BifId::EqualEqual => h1 == h0 && ok_imm(
            r,
            bool_term(cmp_spec(names, v0, v1, false) == Ordering::Equal),
        ),
        BifId::NotEqual => h1 == h0 && ok_imm(
            r,
            bool_term(cmp_spec(names, v0, v1, false) != Ordering::Equal),
        ),
        BifId::EqualExact => h1 == h0 && ok_imm(
            r,
            bool_term(cmp_spec(names, v0, v1, true) == Ordering::Equal),
        ),
        BifId::NotEqualExact => h1 == h0 && ok_imm(
            r,
            bool_term(cmp_spec(names, v0, v1, true) != Ordering::Equal),
        ),
        BifId::Hd => h1 == h0 && (match v0 {
            Val::Cons(_, _) => match r {
                Ok(t) => term_val(h0, t@) == cons_hd_v(v0),
                _ => false,
            },
            _ => err_exc(r, make_atom_s(ATOM_BADARG)),
        }),
        BifId::Tl => h1 == h0 && (match v0 {
            Val::Cons(_, _) => match r {
                Ok(t) => term_val(h0, t@) == cons_tl_v(v0),
                _ => false,
            },
            _ => err_exc(r, make_atom_s(ATOM_BADARG)),
        }),
        BifId::Length => h1 == h0 && (match list_len_v(v0) {
            Some(n) => n <= cap && ok_imm(r, make_small_s(n as i64)),
            None => err_exc(r, make_atom_s(ATOM_BADARG)),
        }),
        BifId::PlusPlus => match list_len_v(v0) {
            Some(n) => match append_v(v0, v1) {
                Some(v) => list_out(h0, h1, cap, v, n as int, r),
                None => false,
            },
            None => h1 == h0 && err_exc(r, make_atom_s(ATOM_BADARG)),
        },
        BifId::AtomToList => match v0 {
            Val::Atom(i) => if i < names.len() {
                list_out(h0, h1, cap, bytes_list_v(names[i as int]), names[i as int].len() as int, r)
            } else {
                h1 == h0 && err_exc(r, make_atom_s(ATOM_BADARG))
            },
            _ => h1 == h0 && err_exc(r, make_atom_s(ATOM_BADARG)),
        },
        BifId::IntegerToList => match int_of(v0) {
            Some(i) => list_out(
                h0,
                h1,
                cap,
                bytes_list_v(int_dec_bytes(i)),
                int_dec_bytes(i).len() as int,
                r,
            ),
            None => h1 == h0 && err_exc(r, make_atom_s(ATOM_BADARG)),
        },
        BifId::MakeFun3 => match (v0, v1, v2) {
            (Val::Atom(m), Val::Atom(f), Val::Small(a)) => if a >= 0 {
                match r {
                    Ok(t) => {
                        &&& h0.words.len() + 4 <= cap
                        &&& heap_extends(h1, h0)
                        &&& preserved(h1, h0)
                        &&& term_val(h1, t@) == Val::Export(m, f, a as nat)
                    },
                    Err(e) => e == Error::HeapIsFull && h1 == h0 && h0.words.len() + 4 > cap,
                }
            } else {
                h1 == h0 && err_exc(r, make_atom_s(ATOM_BADARG))
            },
            _ => h1 == h0 && err_exc(r, make_atom_s(ATOM_BADARG)),
        },
        BifId::Member => h1 == h0 && (match member_v(names, v0, v1) {
            Some(b) => ok_imm(r, bool_term(b)),
            None => err_exc(r, make_atom_s(ATOM_BADARG)),
        }),
    }
}

/// Raw words of a sequence of terms.
pub open spec fn raws_of(s: Seq<LTerm>) -> Seq<u64> {
    Seq::new(s.len(), |i: int| s[i]@)
}

/// The boolean atoms as terms.
pub fn make_bool(c: bool) -> (r: LTerm)
    ensures
        r@ == bool_term(c),
{
    if c {
        LTerm::make_atom(crate::atoms::ATOM_TRUE)
    } else {
        LTerm::make_atom(crate::atoms::ATOM_FALSE)
    }
}

/// The BIF table contents. Process management (`spawn/3`,
/// `is_process_alive/1`) needs the process table and scheduler, which sit
/// outside this core; those entries are absent and such lookups resolve
/// to `BifNotFound`.
pub open spec fn bif_table_s() -> Seq<BifTabItem> {
    seq![
        (BifTabItem {
            m: LTerm { raw: make_atom_s(ATOM_ERLANG) },
            f: LTerm { raw: make_atom_s(ATOM_MULTIPLY) },
            arity: 2,
            func: BifId::Multiply,
        }),
        (BifTabItem {
            m: LTerm { raw: make_atom_s(ATOM_ERLANG) },
            f: LTerm { raw: make_atom_s(ATOM_PLUS) },
            arity: 2,
            func: BifId::Plus,
        }),
        (BifTabItem {
            m: LTerm { raw: make_atom_s(ATOM_ERLANG) },
            f: LTerm { raw: make_atom_s(ATOM_PLUSPLUS) },
            arity: 2,
            func: BifId::PlusPlus,
        }),
        (BifTabItem {
            m: LTerm { raw: make_atom_s(ATOM_ERLANG) },
            f: LTerm { raw: make_atom_s(ATOM_MINUS) },
            arity: 2,
            func: BifId::Minus,
        }),
        (BifTabItem {
            m: LTerm { raw: make_atom_s(ATOM_ERLANG) },
            f: LTerm { raw: make_atom_s(ATOM_NOTEQUAL) },
            arity: 2,
            func: BifId::NotEqual,
        }),
        (BifTabItem {
            m: LTerm { raw: make_atom_s(ATOM_ERLANG) },
            f: LTerm { raw: make_atom_s(ATOM_LESSTHAN) },
            arity: 2,
            func: BifId::LessThan,
        }),
        (BifTabItem {
            m: LTerm { raw: make_atom_s(ATOM_ERLANG) },
            f: LTerm { raw: make_atom_s(ATOM_NOTEQUAL_EXACT) },
            arity: 2,
            func: BifId::NotEqualExact,
        }),
        (BifTabItem {
            m: LTerm { raw: make_atom_s(ATOM_ERLANG) },
            f: LTerm { raw: make_atom_s(ATOM_EQUAL_EXACT) },
            arity: 2,
            func: BifId::EqualExact,
        }),
        (BifTabItem {
            m: LTerm { raw: make_atom_s(ATOM_ERLANG) },
            f: LTerm { raw: make_atom_s(ATOM_LESSEQUAL) },
            arity: 2,
            func: BifId::LessEqual,
        }),
        (BifTabItem {
            m: LTerm { raw: make_atom_s(ATOM_ERLANG) },
            f: LTerm { raw: make_atom_s(ATOM_EQUALEQUAL) },
            arity: 2,
            func: BifId::EqualEqual,
        }),
        (BifTabItem {
            m: LTerm { raw: make_atom_s(ATOM_ERLANG) },
            f: LTerm { raw: make_atom_s(ATOM_GREATERTHAN) },
            arity: 2,
            func: BifId::GreaterThan,
        }),
        (BifTabItem {
            m: LTerm { raw: make_atom_s(ATOM_ERLANG) },
            f: LTerm { raw: make_atom_s(ATOM_GREATEREQUAL) },
            arity: 2,
            func: BifId::GreaterEqual,
        }),
        (BifTabItem {
            m: LTerm { raw: make_atom_s(ATOM_ERLANG) },
            f: LTerm { raw: make_atom_s(ATOM_ATOM_TO_LIST) },
            arity: 1,
            func: BifId::AtomToList,
        }),
        (BifTabItem {
            m: LTerm { raw: make_atom_s(ATOM_ERLANG) },
            f: LTerm { raw: make_atom_s(ATOM_ERROR) },
            arity: 1,
            func: BifId::Error1,
        }),
        (BifTabItem {
            m: LTerm { raw: make_atom_s(ATOM_ERLANG) },
            f: LTerm { raw: make_atom_s(ATOM_ERROR) },
            arity: 2,
            func: BifId::Error2,
        }),
        (BifTabItem {
            m: LTerm { raw: make_atom_s(ATOM_ERLANG) },
            f: LTerm { raw: make_atom_s(ATOM_HD) },
            arity: 1,
            func: BifId::Hd,
        }),
        (BifTabItem {
            m: LTerm { raw: make_atom_s(ATOM_ERLANG) },
            f: LTerm { raw: make_atom_s(ATOM_INTEGER_TO_LIST) },
            arity: 1,
            func: BifId::IntegerToList,
        }),
        (BifTabItem {
            m: LTerm { raw: make_atom_s(ATOM_ERLANG) },
            f: LTerm { raw: make_atom_s(ATOM_IS_BOOLEAN) },
            arity: 1,
            func: BifId::IsBoolean,
        }),
        (BifTabItem {
            m: LTerm { raw: make_atom_s(ATOM_ERLANG) },
            f: LTerm { raw: make_atom_s(ATOM_LENGTH) },
            arity: 1,
            func: BifId::Length,
        }),
        (BifTabItem {
            m: LTerm { raw: make_atom_s(ATOM_ERLANG) },
            f: LTerm { raw: make_atom_s(ATOM_MAKE_FUN) },
            arity: 3,
            func: BifId::MakeFun3,
        }),
        (BifTabItem {
            m: LTerm { raw: make_atom_s(ATOM_LISTS) },
            f: LTerm { raw: make_atom_s(ATOM_MEMBER) },
            arity: 2,
            func: BifId::Member,
        }),
        (BifTabItem {
            m: LTerm { raw: make_atom_s(ATOM_ERLANG) },
            f: LTerm { raw: make_atom_s(ATOM_NIF_ERROR) },
            arity: 1,
            func: BifId::NifError1,
        }),
        (BifTabItem {
            m: LTerm { raw: make_atom_s(ATOM_ERLANG) },
            f: LTerm { raw: make_atom_s(ATOM_NIF_ERROR) },
            arity: 2,
            func: BifId::NifError2,
        }),
        (BifTabItem {
            m: LTerm { raw: make_atom_s(ATOM_ERLANG) },
            f: LTerm { raw: make_atom_s(ATOM_SELF) },
            arity: 0,
            func: BifId::SelfPid,
        }),
        (BifTabItem {
            m: LTerm { raw: make_atom_s(ATOM_ERLANG) },
            f: LTerm { raw: make_atom_s(ATOM_TL) },
            arity: 1,
            func: BifId::Tl,
        }),
    ]
}

/// Scan of the table for a module/function/arity match.
pub open spec fn find_bif_s(tab: Seq<BifTabItem>, m: u64, f: u64, arity: nat) -> Option<BifId>
    decreases tab.len(),
{
    if tab.len() == 0 {
        None
    } else if tab[0].m@ == m && tab[0].f@ == f && tab[0].arity == arity {
        Some(tab[0].func)
    } else {
        find_bif_s(tab.drop_first(), m, f, arity)
    }
}

proof fn lemma_find_bif_skip(tab: Seq<BifTabItem>, m: u64, f: u64, arity: nat, k: int)
    requires
        0 <= k <= tab.len(),
        forall|j: int|
            0 <= j < k ==> !(#[trigger] tab[j].m@ == m && tab[j].f@ == f && tab[j].arity == arity),
    ensures
        find_bif_s(tab, m, f, arity) == find_bif_s(tab.skip(k), m, f, arity),
    decreases k,
{
    if k > 0 {
        lemma_find_bif_skip(tab.drop_first(), m, f, arity, k - 1);
        assert(tab.drop_first().skip(k - 1) =~= tab.skip(k));
    } else {
        assert(tab.skip(0) =~= tab);
    }
}

/// The BIF table as a vector.
pub fn bif_table() -> (r: Vec<BifTabItem>)
    ensures
        r@ == bif_table_s(),
{
    let erlang = LTerm::make_atom(ATOM_ERLANG);
    let mut t: Vec<BifTabItem> = Vec::new();
    t.push(BifTabItem { m: erlang, f: LTerm::make_atom(ATOM_MULTIPLY), arity: 2, func: BifId::Multiply });
    t.push(BifTabItem { m: erlang, f: LTerm::make_atom(ATOM_PLUS), arity: 2, func: BifId::Plus });
    t.push(BifTabItem { m: erlang, f: LTerm::make_atom(ATOM_PLUSPLUS), arity: 2, func: BifId::PlusPlus });
    t.push(BifTabItem { m: erlang, f: LTerm::make_atom(ATOM_MINUS), arity: 2, func: BifId::Minus });
    t.push(BifTabItem { m: erlang, f: LTerm::make_atom(ATOM_NOTEQUAL), arity: 2, func: BifId::NotEqual });
    t.push(BifTabItem { m: erlang, f: LTerm::make_atom(ATOM_LESSTHAN), arity: 2, func: BifId::LessThan });
    t.push(BifTabItem { m: erlang, f: LTerm::make_atom(ATOM_NOTEQUAL_EXACT), arity: 2, func: BifId::NotEqualExact });
    t.push(BifTabItem { m: erlang, f: LTerm::make_atom(ATOM_EQUAL_EXACT), arity: 2, func: BifId::EqualExact });
    t.push(BifTabItem { m: erlang, f: LTerm::make_atom(ATOM_LESSEQUAL), arity: 2, func: BifId::LessEqual });
    t.push(BifTabItem { m: erlang, f: LTerm::make_atom(ATOM_EQUALEQUAL), arity: 2, func: BifId::EqualEqual });
    t.push(BifTabItem { m: erlang, f: LTerm::make_atom(ATOM_GREATERTHAN), arity: 2, func: BifId::GreaterThan });
    t.push(BifTabItem { m: erlang, f: LTerm::make_atom(ATOM_GREATEREQUAL), arity: 2, func: BifId::GreaterEqual });
    t.push(BifTabItem { m: erlang, f: LTerm::make_atom(ATOM_ATOM_TO_LIST), arity: 1, func: BifId::AtomToList });
    t.push(BifTabItem { m: erlang, f: LTerm::make_atom(ATOM_ERROR), arity: 1, func: BifId::Error1 });
    t.push(BifTabItem { m: erlang, f: LTerm::make_atom(ATOM_ERROR), arity: 2, func: BifId::Error2 });
    t.push(BifTabItem { m: erlang, f: LTerm::make_atom(ATOM_HD), arity: 1, func: BifId::Hd });
    t.push(BifTabItem { m: erlang, f: LTerm::make_atom(ATOM_INTEGER_TO_LIST), arity: 1, func: BifId::IntegerToList });
    t.push(BifTabItem { m: erlang, f: LTerm::make_atom(ATOM_IS_BOOLEAN), arity: 1, func: BifId::IsBoolean });
    t.push(BifTabItem { m: erlang, f: LTerm::make_atom(ATOM_LENGTH), arity: 1, func: BifId::Length });
    t.push(BifTabItem { m: erlang, f: LTerm::make_atom(ATOM_MAKE_FUN), arity: 3, func: BifId::MakeFun3 });
    t.push(BifTabItem { m: LTerm::make_atom(ATOM_LISTS), f: LTerm::make_atom(ATOM_MEMBER), arity: 2, func: BifId::Member });
    t.push(BifTabItem { m: erlang, f: LTerm::make_atom(ATOM_NIF_ERROR), arity: 1, func: BifId::NifError1 });
    t.push(BifTabItem { m: erlang, f: LTerm::make_atom(ATOM_NIF_ERROR), arity: 2, func: BifId::NifError2 });
    t.push(BifTabItem { m: erlang, f: LTerm::make_atom(ATOM_SELF), arity: 0, func: BifId::SelfPid });
    t.push(BifTabItem { m: erlang, f: LTerm::make_atom(ATOM_TL), arity: 1, func: BifId::Tl });
    proof {
        assert(t@ =~= bif_table_s());
    }
    t
}

/// Resolve an MFA against the static BIF table.
pub fn find_bif(mfa: &MFArity) -> (r: RtResult<BifId>)
    ensures
        match find_bif_s(bif_table_s(), mfa.m@, mfa.f@, mfa.arity as nat) {
            Some(id) => r == Ok::<BifId, Error>(id),
            None => r == Err::<BifId, Error>(Error::BifNotFound),
        },
{
    let tab = bif_table();
    let n = tab.len();
    let mut k: usize = 0;
    while k < n
        invariant
            k <= n,
            n == tab@.len(),
            tab@ == bif_table_s(),
            forall|j: int|
                0 <= j < k ==> !(#[trigger] tab@[j].m@ == mfa.m@ && tab@[j].f@ == mfa.f@
                    && tab@[j].arity == mfa.arity),
        decreases n - k,
    {
        let e = &tab[k];
        if LTerm::is_same(e.m, mfa.m) && LTerm::is_same(e.f, mfa.f) && e.arity == mfa.arity {
            proof {
                lemma_find_bif_skip(tab@, mfa.m@, mfa.f@, mfa.arity as nat, k as int);
                assert(tab@.skip(k as int)[0] == tab@[k as int]);
            }
            return Ok(e.func);
        }
        k += 1;
    }
    proof {
        lemma_find_bif_skip(tab@, mfa.m@, mfa.f@, mfa.arity as nat, n as int);
        assert(tab@.skip(n as int).len() == 0);
    }
    Err(Error::BifNotFound)
}

} // verus!
