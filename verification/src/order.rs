//! The total order on term values, with an `exact` flag deciding whether a
//! float may equal an integer. Every number is scaled to the common
//! denominator 2^1074 (the smallest positive subnormal double), so numeric
//! comparison of smalls, bignums and floats is integer comparison of the
//! scaled values. Other classes compare within their class and the classes
//! themselves are totally ordered: numbers, then atoms, closures, exports,
//! ports, pids, tuples, nil, lists, binaries.

use vstd::prelude::*;

use core::cmp::Ordering;
use vstd::arithmetic::power2::pow2;

use crate::model::Val;

verus! {

pub open spec fn ord_int(a: int, b: int) -> Ordering {
    if a < b {
        Ordering::Less
    } else if a == b {
        Ordering::Equal
    } else {
        Ordering::Greater
    }
}

/// Lexicographic composition: the first comparison that is not `Equal`.
pub open spec fn lex2(o1: Ordering, o2: Ordering) -> Ordering {
    if o1 == Ordering::Equal {
        o2
    } else {
        o1
    }
}

pub open spec fn ord_rev(o: Ordering) -> Ordering {
    match o {
        Ordering::Less => Ordering::Greater,
        Ordering::Equal => Ordering::Equal,
        Ordering::Greater => Ordering::Less,
    }
}

/// Plain lexicographic byte order; a strict prefix sorts first.
pub open spec fn bytes_lex(a: Seq<u8>, b: Seq<u8>) -> Ordering
    decreases a.len(),
{
    if a.len() == 0 && b.len() == 0 {
        Ordering::Equal
    } else if a.len() == 0 {
        Ordering::Less
    } else if b.len() == 0 {
        Ordering::Greater
    } else {
        lex2(ord_int(a[0] as int, b[0] as int), bytes_lex(a.drop_first(), b.drop_first()))
    }
}

/// Atoms order by interned name length first, then by name bytes.
pub open spec fn atom_ord(names: Seq<Seq<u8>>, i: nat, j: nat) -> Ordering {
    lex2(
        ord_int(names[i as int].len() as int, names[j as int].len() as int),
        bytes_lex(names[i as int], names[j as int]),
    )
}

pub open spec fn f_sign(bits: u64) -> bool {
    bits >> 63 == 1
}

pub open spec fn f_exp(bits: u64) -> nat {
    ((bits >> 52) & 0x7ff) as nat
}

pub open spec fn f_man(bits: u64) -> nat {
    (bits & 0xf_ffff_ffff_ffff) as nat
}

/// Magnitude of a finite double with exponent field `e` and mantissa `m`,
/// scaled by 2^1074 to an integer: subnormals are `m`, normals are
/// `(2^52 + m) * 2^(e-1)`.
pub open spec fn mag_em(e: nat, m: nat) -> nat {
    if e == 0 {
        m
    } else {
        (0x10_0000_0000_0000 + m) * pow2((e - 1) as nat)
    }
}

/// Magnitude of a finite double, scaled by 2^1074 to an integer.
pub open spec fn f_mag(bits: u64) -> nat {
    mag_em(f_exp(bits), f_man(bits))
}

/// Signed value of a finite double scaled by 2^1074.
pub open spec fn f_num(bits: u64) -> int {
    if f_sign(bits) {
        -(f_mag(bits) as int)
    } else {
        f_mag(bits) as int
    }
}

/// Value of a numeric term scaled by 2^1074.
pub open spec fn num_scaled(v: Val) -> int {
    match v {
        Val::Small(i) => i * pow2(1074),
        Val::Big(i) => i * pow2(1074),
        Val::Float(b) => f_num(b),
        _ => 0,
    }
}

/// Order class of a value. With `exact` comparison floats form a class of
/// their own just above the integers; otherwise all numbers share a class.
pub open spec fn class_of(v: Val, exact: bool) -> int {
    match v {
        Val::Small(_) => 0,
        Val::Big(_) => 0,
        Val::Float(_) => if exact {
            1
        } else {
            0
        },
        Val::Atom(_) => 2,
        Val::Closure(_, _, _, _) => 3,
        Val::Export(_, _, _) => 4,
        Val::Port(_) => 5,
        Val::Pid(_) => 6,
        Val::EmptyTuple => 7,
        Val::Tuple(_) => 7,
        Val::Nil => 8,
        Val::Cons(_, _) => 9,
        Val::EmptyBinary => 10,
        Val::Binary(_) => 10,
        Val::Import(_, _, _, _) => 11,
        Val::Bad => 12,
    }
}

/// Elements of a tuple-class value.
pub open spec fn elems_of(v: Val) -> Seq<Val> {
    match v {
        Val::Tuple(s) => s,
        _ => Seq::empty(),
    }
}

/// Bytes of a binary-class value.
pub open spec fn bin_of(v: Val) -> Seq<u8> {
    match v {
        Val::Binary(s) => s,
        _ => Seq::empty(),
    }
}

/// The total order on term values. `names` is the atom table snapshot.
pub open spec fn cmp_spec(names: Seq<Seq<u8>>, a: Val, b: Val, exact: bool) -> Ordering
    decreases a, b,
{
    let ca = class_of(a, exact);
    let cb = class_of(b, exact);
    if ca != cb {
        ord_int(ca, cb)
    } else if ca == 0 || ca == 1 {
        ord_int(num_scaled(a), num_scaled(b))
    } else if ca == 7 {
        let sa = elems_of(a);
        let sb = elems_of(b);
        if sa.len() != sb.len() {
            ord_int(sa.len() as int, sb.len() as int)
        } else if sa.len() == 0 {
            Ordering::Equal
        } else {
            cmp_elems(names, sa, sb, exact)
        }
    } else if ca == 10 {
        bytes_lex(bin_of(a), bin_of(b))
    } else {
        match (a, b) {
            (Val::Atom(i), Val::Atom(j)) => atom_ord(names, i, j),
            (Val::Closure(m1, i1, u1, n1), Val::Closure(m2, i2, u2, n2)) => lex2(
                atom_ord(names, m1, m2),
                lex2(
                    ord_int(i1 as int, i2 as int),
                    lex2(ord_int(u1 as int, u2 as int), ord_int(n1 as int, n2 as int)),
                ),
            ),
            (Val::Export(m1, f1, a1), Val::Export(m2, f2, a2)) => lex2(
                atom_ord(names, m1, m2),
                lex2(atom_ord(names, f1, f2), ord_int(a1 as int, a2 as int)),
            ),
            (Val::Port(x), Val::Port(y)) => ord_int(x as int, y as int),
            (Val::Pid(x), Val::Pid(y)) => ord_int(x as int, y as int),
            (Val::Cons(h1, t1), Val::Cons(h2, t2)) => lex2(
                cmp_spec(names, *h1, *h2, exact),
                cmp_spec(names, *t1, *t2, exact),
            ),
            (Val::Import(m1, f1, a1, b1), Val::Import(m2, f2, a2, b2)) => lex2(
                ord_int(m1 as int, m2 as int),
                lex2(
                    ord_int(f1 as int, f2 as int),
                    lex2(
                        ord_int(a1 as int, a2 as int),
                        ord_int(
                            if b1 {
                                1int
                            } else {
                                0int
                            },
                            if b2 {
                                1int
                            } else {
                                0int
                            },
                        ),
                    ),
                ),
            ),
            _ => Ordering::Equal,
        }
    }
}

/// Pairwise comparison of equally long element sequences.
pub open spec fn cmp_elems(names: Seq<Seq<u8>>, sa: Seq<Val>, sb: Seq<Val>, exact: bool) -> Ordering
    decreases sa, sb,
{
    if sa.len() == 0 || sb.len() == 0 {
        Ordering::Equal
    } else {
        lex2(
            cmp_spec(names, sa[0], sb[0], exact),
            cmp_elems(names, sa.drop_first(), sb.drop_first(), exact),
        )
    }
}

/// Unfolding elementwise comparison of suffixes at their first element.
pub proof fn lemma_cmp_elems_skip(
    names: Seq<Seq<u8>>,
    sa: Seq<Val>,
    sb: Seq<Val>,
    i: int,
    exact: bool,
)
    requires
        0 <= i < sa.len(),
        sa.len() == sb.len(),
    ensures
        cmp_elems(names, sa.skip(i), sb.skip(i), exact) == lex2(
            cmp_spec(names, sa[i], sb[i], exact),
            cmp_elems(names, sa.skip(i + 1), sb.skip(i + 1), exact),
        ),
{
    assert(sa.skip(i)[0] == sa[i]);
    assert(sa.skip(i).drop_first() =~= sa.skip(i + 1));
    assert(sb.skip(i)[0] == sb[i]);
    assert(sb.skip(i).drop_first() =~= sb.skip(i + 1));
}

/// The comparison is reflexive: every value equals itself, in both modes.
pub proof fn lemma_cmp_refl(names: Seq<Seq<u8>>, a: Val, exact: bool)
    ensures
        cmp_spec(names, a, a, exact) == Ordering::Equal,
    decreases a,
{
    lemma_bytes_lex_refl(bin_of(a));
    match a {
        Val::Atom(i) => {
            lemma_bytes_lex_refl(names[i as int]);
        },
        Val::Closure(m, _, _, _) => {
            lemma_bytes_lex_refl(names[m as int]);
        },
        Val::Export(m, f, _) => {
            lemma_bytes_lex_refl(names[m as int]);
            lemma_bytes_lex_refl(names[f as int]);
        },
        Val::Cons(h, t) => {
            lemma_cmp_refl(names, *h, exact);
            lemma_cmp_refl(names, *t, exact);
        },
        Val::Tuple(s) => {
            if s.len() > 0 {
                lemma_cmp_elems_refl(names, s, exact);
            }
        },
        _ => {},
    }
}

pub proof fn lemma_cmp_elems_refl(names: Seq<Seq<u8>>, s: Seq<Val>, exact: bool)
    ensures
        cmp_elems(names, s, s, exact) == Ordering::Equal,
    decreases s,
{
    if s.len() > 0 {
        lemma_cmp_refl(names, s[0], exact);
        lemma_cmp_elems_refl(names, s.drop_first(), exact);
    }
}

pub proof fn lemma_bytes_lex_refl(s: Seq<u8>)
    ensures
        bytes_lex(s, s) == Ordering::Equal,
    decreases s.len(),
{
    if s.len() > 0 {
        lemma_bytes_lex_refl(s.drop_first());
    }
}

/// The comparison is antisymmetric: swapping the operands reverses the
/// result, in both modes.
pub proof fn lemma_cmp_antisym(names: Seq<Seq<u8>>, a: Val, b: Val, exact: bool)
    ensures
        cmp_spec(names, b, a, exact) == ord_rev(cmp_spec(names, a, b, exact)),
    decreases a, b,
{
    lemma_bytes_lex_antisym(bin_of(a), bin_of(b));
    match (a, b) {
        (Val::Atom(i), Val::Atom(j)) => {
            lemma_bytes_lex_antisym(names[i as int], names[j as int]);
        },
        (Val::Closure(m1, _, _, _), Val::Closure(m2, _, _, _)) => {
            lemma_bytes_lex_antisym(names[m1 as int], names[m2 as int]);
        },
        (Val::Export(m1, f1, _), Val::Export(m2, f2, _)) => {
            lemma_bytes_lex_antisym(names[m1 as int], names[m2 as int]);
            lemma_bytes_lex_antisym(names[f1 as int], names[f2 as int]);
        },
        (Val::Cons(h1, t1), Val::Cons(h2, t2)) => {
            lemma_cmp_antisym(names, *h1, *h2, exact);
            lemma_cmp_antisym(names, *t1, *t2, exact);
        },
        (Val::Tuple(sa), Val::Tuple(sb)) => {
            if sa.len() == sb.len() {
                lemma_cmp_elems_antisym(names, sa, sb, exact);
            }
        },
        _ => {},
    }
}

pub proof fn lemma_cmp_elems_antisym(names: Seq<Seq<u8>>, sa: Seq<Val>, sb: Seq<Val>, exact: bool)
    ensures
        cmp_elems(names, sb, sa, exact) == ord_rev(cmp_elems(names, sa, sb, exact)),
    decreases sa, sb,
{
    if sa.len() > 0 && sb.len() > 0 {
        lemma_cmp_antisym(names, sa[0], sb[0], exact);
        lemma_cmp_elems_antisym(names, sa.drop_first(), sb.drop_first(), exact);
    }
}

pub proof fn lemma_bytes_lex_antisym(x: Seq<u8>, y: Seq<u8>)
    ensures
        bytes_lex(y, x) == ord_rev(bytes_lex(x, y)),
    decreases x.len(),
{
    if x.len() > 0 && y.len() > 0 {
        lemma_bytes_lex_antisym(x.drop_first(), y.drop_first());
    }
}

/// The comparison is transitive, for equality, for the non-strict order,
/// and for the strict order against the non-strict one; in both modes.
pub proof fn lemma_cmp_trans(names: Seq<Seq<u8>>, a: Val, b: Val, c: Val, exact: bool)
    ensures
        cmp_spec(names, a, b, exact) == Ordering::Equal && cmp_spec(names, b, c, exact)
            == Ordering::Equal ==> cmp_spec(names, a, c, exact) == Ordering::Equal,
        cmp_spec(names, a, b, exact) != Ordering::Greater && cmp_spec(names, b, c, exact)
            != Ordering::Greater ==> cmp_spec(names, a, c, exact) != Ordering::Greater,
        cmp_spec(names, a, b, exact) == Ordering::Less && cmp_spec(names, b, c, exact)
            != Ordering::Greater ==> cmp_spec(names, a, c, exact) == Ordering::Less,
        cmp_spec(names, a, b, exact) != Ordering::Greater && cmp_spec(names, b, c, exact)
            == Ordering::Less ==> cmp_spec(names, a, c, exact) == Ordering::Less,
    decreases a, b, c,
{
    lemma_bytes_lex_trans(bin_of(a), bin_of(b), bin_of(c));
    match (a, b, c) {
        (Val::Atom(i), Val::Atom(j), Val::Atom(k)) => {
            lemma_bytes_lex_trans(names[i as int], names[j as int], names[k as int]);
        },
        (Val::Closure(m1, _, _, _), Val::Closure(m2, _, _, _), Val::Closure(m3, _, _, _)) => {
            lemma_bytes_lex_trans(names[m1 as int], names[m2 as int], names[m3 as int]);
        },
        (Val::Export(m1, f1, _), Val::Export(m2, f2, _), Val::Export(m3, f3, _)) => {
            lemma_bytes_lex_trans(names[m1 as int], names[m2 as int], names[m3 as int]);
            lemma_bytes_lex_trans(names[f1 as int], names[f2 as int], names[f3 as int]);
        },
        (Val::Cons(h1, t1), Val::Cons(h2, t2), Val::Cons(h3, t3)) => {
            lemma_cmp_trans(names, *h1, *h2, *h3, exact);
            lemma_cmp_trans(names, *t1, *t2, *t3, exact);
            lemma_cmp_antisym(names, *h1, *h2, exact);
            lemma_cmp_antisym(names, *h2, *h3, exact);
        },
        (Val::Tuple(sa), Val::Tuple(sb), Val::Tuple(sc)) => {
            if sa.len() == sb.len() && sb.len() == sc.len() {
                lemma_cmp_elems_trans(names, sa, sb, sc, exact);
            }
        },
        _ => {},
    }
}

pub proof fn lemma_cmp_elems_trans(
    names: Seq<Seq<u8>>,
    sa: Seq<Val>,
    sb: Seq<Val>,
    sc: Seq<Val>,
    exact: bool,
)
    requires
        sa.len() == sb.len(),
        sb.len() == sc.len(),
    ensures
        cmp_elems(names, sa, sb, exact) == Ordering::Equal && cmp_elems(names, sb, sc, exact)
            == Ordering::Equal ==> cmp_elems(names, sa, sc, exact) == Ordering::Equal,
        cmp_elems(names, sa, sb, exact) != Ordering::Greater && cmp_elems(names, sb, sc, exact)
            != Ordering::Greater ==> cmp_elems(names, sa, sc, exact) != Ordering::Greater,
        cmp_elems(names, sa, sb, exact) == Ordering::Less && cmp_elems(names, sb, sc, exact)
            != Ordering::Greater ==> cmp_elems(names, sa, sc, exact) == Ordering::Less,
        cmp_elems(names, sa, sb, exact) != Ordering::Greater && cmp_elems(names, sb, sc, exact)
            == Ordering::Less ==> cmp_elems(names, sa, sc, exact) == Ordering::Less,
    decreases sa, sb, sc,
{
    if sa.len() > 0 && sb.len() > 0 && sc.len() > 0 {
        lemma_cmp_trans(names, sa[0], sb[0], sc[0], exact);
        lemma_cmp_antisym(names, sa[0], sb[0], exact);
        lemma_cmp_antisym(names, sb[0], sc[0], exact);
        lemma_cmp_elems_trans(names, sa.drop_first(), sb.drop_first(), sc.drop_first(), exact);
    }
}

pub proof fn lemma_bytes_lex_trans(x: Seq<u8>, y: Seq<u8>, z: Seq<u8>)
    ensures
        bytes_lex(x, y) == Ordering::Equal && bytes_lex(y, z) == Ordering::Equal ==> bytes_lex(
            x,
            z,
        ) == Ordering::Equal,
        bytes_lex(x, y) != Ordering::Greater && bytes_lex(y, z) != Ordering::Greater ==> bytes_lex(
            x,
            z,
        ) != Ordering::Greater,
        bytes_lex(x, y) == Ordering::Less && bytes_lex(y, z) != Ordering::Greater ==> bytes_lex(
            x,
            z,
        ) == Ordering::Less,
        bytes_lex(x, y) != Ordering::Greater && bytes_lex(y, z) == Ordering::Less ==> bytes_lex(
            x,
            z,
        ) == Ordering::Less,
    decreases x.len(),
{
    if x.len() > 0 && y.len() > 0 && z.len() > 0 {
        lemma_bytes_lex_trans(x.drop_first(), y.drop_first(), z.drop_first());
    }
}

/// An atom table as interning produces it: no name appears twice.
pub open spec fn distinct_names(names: Seq<Seq<u8>>) -> bool {
    forall|i: int, j: int| 0 <= i < j < names.len() ==> names[i] != names[j]
}

/// Byte sequences that compare `Equal` are equal.
pub proof fn lemma_bytes_lex_equal(x: Seq<u8>, y: Seq<u8>)
    requires
        bytes_lex(x, y) == Ordering::Equal,
    ensures
        x == y,
    decreases x.len(),
{
    if x.len() > 0 && y.len() > 0 {
        lemma_bytes_lex_equal(x.drop_first(), y.drop_first());
        assert forall|k: int| 0 <= k < x.len() implies x[k] == y[k] by {
            if k > 0 {
                assert(x[k] == x.drop_first()[k - 1]);
                assert(y[k] == y.drop_first()[k - 1]);
            }
        }
        assert(x =~= y);
    } else {
        assert(x =~= y);
    }
}

/// With interned (distinct) names, two atoms compare `Equal` only when
/// they are the same atom.
pub proof fn lemma_atom_ord_equal(names: Seq<Seq<u8>>, i: nat, j: nat)
    requires
        distinct_names(names),
        i < names.len(),
        j < names.len(),
        atom_ord(names, i, j) == Ordering::Equal,
    ensures
        i == j,
{
    lemma_bytes_lex_equal(names[i as int], names[j as int]);
}

/// Values that compare equal under exact comparison also compare equal when
/// numeric coercion is allowed.
pub proof fn lemma_exact_equal_coerced(names: Seq<Seq<u8>>, a: Val, b: Val)
    ensures
        cmp_spec(names, a, b, true) == Ordering::Equal ==> cmp_spec(names, a, b, false)
            == Ordering::Equal,
    decreases a, b,
{
    match (a, b) {
        (Val::Cons(h1, t1), Val::Cons(h2, t2)) => {
            lemma_exact_equal_coerced(names, *h1, *h2);
            lemma_exact_equal_coerced(names, *t1, *t2);
        },
        (Val::Tuple(sa), Val::Tuple(sb)) => {
            if sa.len() == sb.len() {
                lemma_elems_exact_equal_coerced(names, sa, sb);
            }
        },
        _ => {},
    }
}

pub proof fn lemma_elems_exact_equal_coerced(names: Seq<Seq<u8>>, sa: Seq<Val>, sb: Seq<Val>)
    ensures
        cmp_elems(names, sa, sb, true) == Ordering::Equal ==> cmp_elems(names, sa, sb, false)
            == Ordering::Equal,
    decreases sa, sb,
{
    if sa.len() > 0 && sb.len() > 0 {
        lemma_exact_equal_coerced(names, sa[0], sb[0]);
        lemma_elems_exact_equal_coerced(names, sa.drop_first(), sb.drop_first());
    }
}

} // verus!
