use std::cmp::Ordering;

use erlangrt::atoms::AtomTable;
use erlangrt::bignum::big_from_i128;
use erlangrt::compare::cmp_terms;
use erlangrt::fail::Error;
use erlangrt::heap::Heap;
use erlangrt::lterm::LTerm;

fn small(v: i64) -> LTerm {
    LTerm::make_small(v)
}

fn list(heap: &mut Heap, items: &[i64]) -> LTerm {
    let mut tail = LTerm::nil();
    for v in items.iter().rev() {
        tail = heap.alloc_cons(small(*v), tail).unwrap();
    }
    tail
}

#[test]
fn small_roundtrip() {
    assert_eq!(small(42).get_small_signed(), 42);
    assert_eq!(small(-7).get_small_signed(), -7);
    assert_eq!(small(0x0fff_ffff_ffff_ffff).get_small_signed(), 0x0fff_ffff_ffff_ffff);
    assert_eq!(small(-0x1000_0000_0000_0000).get_small_signed(), -0x1000_0000_0000_0000);
}

#[test]
fn immediate_roundtrips() {
    let a = LTerm::make_atom(17);
    assert!(a.is_atom());
    assert_eq!(a.get_atom_index(), 17);
    let p = LTerm::make_local_pid(3);
    assert!(p.is_local_pid());
    let x = LTerm::make_regx(5);
    assert!(x.is_regx());
    assert_eq!(x.get_special_value(), 5);
    let cp = LTerm::make_cp(123);
    assert!(cp.is_cp());
    assert!(!cp.is_boxed());
    assert_eq!(cp.get_cp_ptr(), 123);
    assert!(LTerm::non_value().is_non_value());
    assert!(!LTerm::nil().is_non_value());
}

#[test]
fn cmp_atoms_by_length_then_bytes() {
    let mut atoms = AtomTable::new();
    let a = LTerm::make_atom(atoms.push_atom(b"a".to_vec()));
    let b = LTerm::make_atom(atoms.push_atom(b"b".to_vec()));
    let aa = LTerm::make_atom(atoms.push_atom(b"aa".to_vec()));
    let heap = Heap::new(16, 0);
    assert_eq!(cmp_terms(&heap, &atoms, a, b, true).unwrap(), Ordering::Less);
    // Shorter names sort first even when the bytes are larger.
    assert_eq!(cmp_terms(&heap, &atoms, b, aa, true).unwrap(), Ordering::Less);
    assert_eq!(cmp_terms(&heap, &atoms, aa, aa, true).unwrap(), Ordering::Equal);
}

#[test]
fn cmp_across_classes() {
    let mut atoms = AtomTable::new();
    let a = LTerm::make_atom(atoms.push_atom(b"a".to_vec()));
    let heap = Heap::new(16, 0);
    // Atoms order above numbers.
    assert_eq!(cmp_terms(&heap, &atoms, a, small(1), true).unwrap(), Ordering::Greater);
    assert_eq!(cmp_terms(&heap, &atoms, small(1), a, true).unwrap(), Ordering::Less);
    // Nil orders below a non-empty list and above tuples.
    let mut heap = Heap::new(64, 0);
    let l = list(&mut heap, &[1]);
    assert_eq!(cmp_terms(&heap, &atoms, LTerm::nil(), l, true).unwrap(), Ordering::Less);
}

#[test]
fn cmp_small_and_float() {
    let atoms = AtomTable::new();
    let mut heap = Heap::new(64, 0);
    let one = heap.alloc_float(1.0f64.to_bits()).unwrap();
    // Coercing comparison: 1 == 1.0.
    assert_eq!(cmp_terms(&heap, &atoms, small(1), one, false).unwrap(), Ordering::Equal);
    // Exact comparison: the small sorts below the float by class.
    assert_eq!(cmp_terms(&heap, &atoms, small(1), one, true).unwrap(), Ordering::Less);
    let half = heap.alloc_float(0.5f64.to_bits()).unwrap();
    assert_eq!(cmp_terms(&heap, &atoms, small(1), half, false).unwrap(), Ordering::Greater);
    assert_eq!(cmp_terms(&heap, &atoms, small(0), half, false).unwrap(), Ordering::Less);
    let neg = heap.alloc_float((-3.5f64).to_bits()).unwrap();
    assert_eq!(cmp_terms(&heap, &atoms, small(-4), neg, false).unwrap(), Ordering::Less);
    assert_eq!(cmp_terms(&heap, &atoms, small(-3), neg, false).unwrap(), Ordering::Greater);
    let nz = heap.alloc_float((-0.0f64).to_bits()).unwrap();
    let pz = heap.alloc_float(0.0f64.to_bits()).unwrap();
    assert_eq!(cmp_terms(&heap, &atoms, nz, pz, false).unwrap(), Ordering::Equal);
    assert_eq!(cmp_terms(&heap, &atoms, half, one, false).unwrap(), Ordering::Less);
}

#[test]
fn cmp_big_and_float() {
    let atoms = AtomTable::new();
    let mut heap = Heap::new(64, 0);
    let big = heap.alloc_bignum(big_from_i128(1i128 << 64)).unwrap();
    let f = heap.alloc_float((2.0f64).powi(64).to_bits()).unwrap();
    assert_eq!(cmp_terms(&heap, &atoms, big, f, false).unwrap(), Ordering::Equal);
    let fbig = heap.alloc_float((2.0f64).powi(65).to_bits()).unwrap();
    assert_eq!(cmp_terms(&heap, &atoms, big, fbig, false).unwrap(), Ordering::Less);
    let fneg = heap.alloc_float((-2.0f64).powi(3).to_bits()).unwrap();
    assert_eq!(cmp_terms(&heap, &atoms, big, fneg, false).unwrap(), Ordering::Greater);
}

#[test]
fn cmp_cons_walk() {
    let atoms = AtomTable::new();
    let mut heap = Heap::new(256, 0);
    let a = list(&mut heap, &[1, 2, 3]);
    let b = list(&mut heap, &[1, 2, 4]);
    assert_eq!(cmp_terms(&heap, &atoms, a, b, true).unwrap(), Ordering::Less);
    // An improper list compares its tail like any other term.
    let t1 = heap.alloc_cons(small(2), small(3)).unwrap();
    let i1 = heap.alloc_cons(small(1), t1).unwrap();
    let t2 = heap.alloc_cons(small(2), small(3)).unwrap();
    let i2 = heap.alloc_cons(small(1), t2).unwrap();
    assert_eq!(cmp_terms(&heap, &atoms, i1, i2, true).unwrap(), Ordering::Equal);
    // A shorter proper prefix sorts first.
    let c = list(&mut heap, &[1, 2]);
    assert_eq!(cmp_terms(&heap, &atoms, c, a, true).unwrap(), Ordering::Less);
}

#[test]
fn cmp_deep_cons_no_stack_growth() {
    let atoms = AtomTable::new();
    let mut heap = Heap::new(90_000, 0);
    let mut xs = vec![1i64; 10_000];
    let mut ys = vec![1i64; 10_000];
    xs.push(2);
    ys.push(3);
    let a = list(&mut heap, &xs);
    let b = list(&mut heap, &ys);
    assert_eq!(cmp_terms(&heap, &atoms, a, b, true).unwrap(), Ordering::Less);
    assert_eq!(cmp_terms(&heap, &atoms, a, a, true).unwrap(), Ordering::Equal);
}

#[test]
fn cmp_tuples_by_arity_then_elements() {
    let atoms = AtomTable::new();
    let mut heap = Heap::new(64, 0);
    let t12 = heap.alloc_tuple(&vec![small(1), small(2)]).unwrap();
    let t13 = heap.alloc_tuple(&vec![small(1), small(3)]).unwrap();
    let t5 = heap.alloc_tuple(&vec![small(5)]).unwrap();
    assert_eq!(cmp_terms(&heap, &atoms, t12, t13, true).unwrap(), Ordering::Less);
    // Smaller arity sorts first regardless of contents.
    assert_eq!(cmp_terms(&heap, &atoms, t5, t12, true).unwrap(), Ordering::Less);
    assert_eq!(cmp_terms(&heap, &atoms, LTerm::empty_tuple(), t5, true).unwrap(), Ordering::Less);
    assert_eq!(
        cmp_terms(&heap, &atoms, LTerm::empty_tuple(), LTerm::empty_tuple(), true).unwrap(),
        Ordering::Equal
    );
}

#[test]
fn cmp_binaries_lexicographic() {
    let atoms = AtomTable::new();
    let mut heap = Heap::new(64, 0);
    let b12 = heap.alloc_binary(&vec![1, 2]).unwrap();
    let b13 = heap.alloc_binary(&vec![1, 3]).unwrap();
    let b1 = heap.alloc_binary(&vec![1]).unwrap();
    assert_eq!(cmp_terms(&heap, &atoms, b12, b13, true).unwrap(), Ordering::Less);
    assert_eq!(cmp_terms(&heap, &atoms, b1, b12, true).unwrap(), Ordering::Less);
    assert_eq!(cmp_terms(&heap, &atoms, LTerm::empty_binary(), b1, true).unwrap(), Ordering::Less);
}

#[test]
fn cmp_small_and_bignum() {
    let atoms = AtomTable::new();
    let mut heap = Heap::new(64, 0);
    let big = heap.alloc_bignum(big_from_i128(1i128 << 62)).unwrap();
    let nbig = heap.alloc_bignum(big_from_i128(-(1i128 << 62))).unwrap();
    assert_eq!(cmp_terms(&heap, &atoms, small(5), big, false).unwrap(), Ordering::Less);
    assert_eq!(cmp_terms(&heap, &atoms, small(5), nbig, false).unwrap(), Ordering::Greater);
    assert_eq!(cmp_terms(&heap, &atoms, big, big, true).unwrap(), Ordering::Equal);
}

#[test]
fn heap_is_full() {
    let mut heap = Heap::new(1, 0);
    match heap.alloc_cons(small(1), LTerm::nil()) {
        Err(Error::HeapIsFull) => {},
        other => panic!("expected HeapIsFull, got {:?}", other),
    }
}

#[test]
fn y_slots_store_and_read() {
    let mut heap = Heap::new(16, 4);
    heap.set_y(2, small(9)).unwrap();
    assert_eq!(heap.get_y(2).unwrap().get_small_signed(), 9);
    match heap.set_y(4, small(1)) {
        Err(Error::YRegisterOutOfRange) => {},
        other => panic!("expected YRegisterOutOfRange, got {:?}", other),
    }
}

#[test]
fn format_special_terms() {
    assert_eq!(erlangrt::lterm::format_special(LTerm::nil()), b"[]".to_vec());
    assert_eq!(erlangrt::lterm::format_special(LTerm::non_value()), b"NON_VALUE".to_vec());
    assert_eq!(erlangrt::lterm::format_special(LTerm::empty_tuple()), b"{}".to_vec());
    assert_eq!(erlangrt::lterm::format_special(LTerm::empty_binary()), b"<<>>".to_vec());
    assert_eq!(erlangrt::lterm::format_special(LTerm::make_regx(3)), b"X3".to_vec());
    assert_eq!(erlangrt::lterm::format_special(LTerm::make_regy(12)), b"Y12".to_vec());
    assert_eq!(erlangrt::lterm::format_special(LTerm::make_regfp(0)), b"F0".to_vec());
    assert_eq!(erlangrt::lterm::format_special(LTerm::make_opcode(107)), b"Opcode(107)".to_vec());
    // A catch-tagged word falls through to the generic hexadecimal form:
    // sub-tag 5 with payload 26.
    let catch_term = LTerm::from_raw((26u64 << 6) | (5u64 << 3) | 7);
    assert_eq!(erlangrt::lterm::format_special(catch_term), b"Special(0x5; 0x1a)".to_vec());
}
