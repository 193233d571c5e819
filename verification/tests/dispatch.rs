use std::cmp::Ordering;

use erlangrt::atoms::{ATOM_BADARITY, ATOM_BADFUN, ATOM_ERLANG, ATOM_ERROR, ATOM_FALSE,
    ATOM_IS_BOOLEAN, ATOM_TRUE};
use erlangrt::bif_arith::{ubif_erlang_minus_2, ubif_erlang_multiply_2, ubif_erlang_plus_2};
use erlangrt::bif_lists::{bif_erlang_atom_to_list_1, bif_erlang_integer_to_list_1,
    bif_erlang_plusplus_2, bif_lists_member_2, gcbif_erlang_length_1, ubif_erlang_hd_1,
    ubif_erlang_tl_1};
use erlangrt::bif_compare::{ubif_erlang_equal_exact_2, ubif_erlang_equalequal_2,
    ubif_erlang_lessthan_2};
use erlangrt::bif_sys::{bif_erlang_error_2, bif_erlang_make_fun_3, bif_erlang_nif_error_1,
    ubif_erlang_self_0};
use erlangrt::bignum::big_from_i128;
use erlangrt::call_bif::{find_and_call_bif, CallBifTarget, DispatchResult};
use erlangrt::compare::cmp_terms;
use erlangrt::context::Context;
use erlangrt::export::Export;
use erlangrt::fail::{Error, ExceptionType};
use erlangrt::gen_bif::{BifId, MFArity};
use erlangrt::lterm::LTerm;
use erlangrt::process::{Process, VM};

fn small(v: i64) -> LTerm {
    LTerm::make_small(v)
}

fn setup() -> (VM, Process, Context) {
    (VM::new(), Process::new(7, 4096, 8), Context::new(0))
}

#[test]
fn plus_and_minus_small() {
    let (mut vm, mut p, _) = setup();
    let r = ubif_erlang_plus_2(&mut vm, &mut p, &vec![small(3), small(4)]).unwrap();
    assert_eq!(r.get_small_signed(), 7);
    let r = ubif_erlang_minus_2(&mut vm, &mut p, &vec![small(3), small(4)]).unwrap();
    assert_eq!(r.get_small_signed(), -1);
}

#[test]
fn multiply_promotes_to_bignum() {
    let (mut vm, mut p, _) = setup();
    let half = 1i64 << 59;
    // 2^59 * 4 = 2^61 overflows the small range and becomes a bignum.
    let r = ubif_erlang_multiply_2(&mut vm, &mut p, &vec![small(half), small(4)]).unwrap();
    assert!(!r.is_small());
    let expected = p.heap.alloc_bignum(big_from_i128(1i128 << 61)).unwrap();
    assert_eq!(cmp_terms(&p.heap, &vm.atoms, r, expected, true).unwrap(), Ordering::Equal);
    assert_eq!(cmp_terms(&p.heap, &vm.atoms, r, small(7), false).unwrap(), Ordering::Greater);
}

#[test]
fn arith_badarith_on_non_numbers() {
    let (mut vm, mut p, _) = setup();
    let a = LTerm::make_atom(ATOM_TRUE);
    match ubif_erlang_plus_2(&mut vm, &mut p, &vec![a, small(1)]) {
        Err(Error::Exception(ExceptionType::Error, t)) => {
            assert_eq!(t.get_atom_index(), erlangrt::atoms::ATOM_BADARITH);
        },
        other => panic!("expected badarith, got {:?}", other),
    }
}

#[test]
fn hd_tl_length() {
    let (mut vm, mut p, _) = setup();
    let l = {
        let t = p.heap.alloc_cons(small(2), LTerm::nil()).unwrap();
        p.heap.alloc_cons(small(1), t).unwrap()
    };
    let h = ubif_erlang_hd_1(&mut vm, &mut p, &vec![l]).unwrap();
    assert_eq!(h.get_small_signed(), 1);
    let t = ubif_erlang_tl_1(&mut vm, &mut p, &vec![l]).unwrap();
    let h2 = ubif_erlang_hd_1(&mut vm, &mut p, &vec![t]).unwrap();
    assert_eq!(h2.get_small_signed(), 2);
    let n = gcbif_erlang_length_1(&mut vm, &mut p, &vec![l]).unwrap();
    assert_eq!(n.get_small_signed(), 2);
    let n0 = gcbif_erlang_length_1(&mut vm, &mut p, &vec![LTerm::nil()]).unwrap();
    assert_eq!(n0.get_small_signed(), 0);
    // An improper list has no length.
    let imp = p.heap.alloc_cons(small(1), small(2)).unwrap();
    match gcbif_erlang_length_1(&mut vm, &mut p, &vec![imp]) {
        Err(Error::Exception(ExceptionType::Error, t)) => {
            assert_eq!(t.get_atom_index(), erlangrt::atoms::ATOM_BADARG);
        },
        other => panic!("expected badarg, got {:?}", other),
    }
}

#[test]
fn error_2_builds_tuple_reason() {
    let (mut vm, mut p, _) = setup();
    let a = LTerm::make_atom(ATOM_TRUE);
    match bif_erlang_error_2(&mut vm, &mut p, &vec![a, small(5)]) {
        Err(Error::Exception(ExceptionType::Error, reason)) => {
            assert_eq!(p.heap.tuple_arity(reason), 2);
            assert_eq!(p.heap.tuple_element(reason, 0).get_atom_index(), ATOM_TRUE);
            assert_eq!(p.heap.tuple_element(reason, 1).get_small_signed(), 5);
        },
        other => panic!("expected exception, got {:?}", other),
    }
}

#[test]
fn nif_error_reports_badfun() {
    let (mut vm, mut p, _) = setup();
    match bif_erlang_nif_error_1(&mut vm, &mut p, &vec![small(1)]) {
        Err(Error::Exception(ExceptionType::Error, reason)) => {
            assert_eq!(p.heap.tuple_arity(reason), 2);
            assert_eq!(p.heap.tuple_element(reason, 0).get_atom_index(), ATOM_BADFUN);
            assert_eq!(p.heap.tuple_element(reason, 1).get_small_signed(), 1);
        },
        other => panic!("expected exception, got {:?}", other),
    }
}

#[test]
fn dispatch_is_boolean_via_mfa_to_x0() {
    let (mut vm, mut p, mut ctx) = setup();
    let mfa = MFArity {
        m: LTerm::make_atom(ATOM_ERLANG),
        f: LTerm::make_atom(ATOM_IS_BOOLEAN),
        arity: 1,
    };
    let args = vec![LTerm::make_atom(ATOM_TRUE)];
    let r = find_and_call_bif(
        &mut vm,
        &mut ctx,
        &mut p,
        LTerm::nil(),
        CallBifTarget::MFArity(mfa),
        &args,
        LTerm::make_regx(0),
        false,
    )
    .unwrap();
    assert_eq!(r, DispatchResult::Normal);
    assert_eq!(ctx.get_x(0).get_atom_index(), ATOM_TRUE);
}

#[test]
fn dispatch_error_routes_to_fail_label() {
    let (mut vm, mut p, mut ctx) = setup();
    let oops = vm.atoms.push_atom(b"oops".to_vec());
    let mfa = MFArity {
        m: LTerm::make_atom(ATOM_ERLANG),
        f: LTerm::make_atom(ATOM_ERROR),
        arity: 1,
    };
    let fail_label = LTerm::make_cp(99);
    let r = find_and_call_bif(
        &mut vm,
        &mut ctx,
        &mut p,
        fail_label,
        CallBifTarget::MFArity(mfa),
        &vec![LTerm::make_atom(oops)],
        LTerm::nil(),
        false,
    );
    match r {
        Err(Error::Exception(ExceptionType::Error, t)) => {
            assert_eq!(t.get_atom_index(), oops);
        },
        other => panic!("expected exception, got {:?}", other),
    }
    assert_eq!(ctx.ip, 99);
}

#[test]
fn dispatch_loads_register_arguments() {
    let (mut vm, mut p, mut ctx) = setup();
    ctx.set_x(3, small(42));
    // The callee observes the loaded value, not the register reference.
    let r = find_and_call_bif(
        &mut vm,
        &mut ctx,
        &mut p,
        LTerm::nil(),
        CallBifTarget::BifFnPointer(BifId::Error1),
        &vec![LTerm::make_regx(3)],
        LTerm::nil(),
        false,
    );
    match r {
        Err(Error::Exception(ExceptionType::Error, t)) => {
            assert_eq!(t.get_small_signed(), 42);
        },
        other => panic!("expected exception, got {:?}", other),
    }
}

#[test]
fn dispatch_checks_arity_first() {
    let (mut vm, mut p, mut ctx) = setup();
    let r = find_and_call_bif(
        &mut vm,
        &mut ctx,
        &mut p,
        LTerm::nil(),
        CallBifTarget::BifFnPointer(BifId::Error1),
        &vec![small(1), small(2)],
        LTerm::nil(),
        false,
    );
    match r {
        Err(Error::Exception(ExceptionType::Error, t)) => {
            assert_eq!(t.get_atom_index(), ATOM_BADARITY);
        },
        other => panic!("expected badarity, got {:?}", other),
    }
}

#[test]
fn dispatch_import_term_and_badfun() {
    let (mut vm, mut p, mut ctx) = setup();
    // A bif import resolves and runs.
    let imp = p
        .heap
        .alloc_import(
            LTerm::make_atom(ATOM_ERLANG),
            LTerm::make_atom(ATOM_IS_BOOLEAN),
            1,
            true,
        )
        .unwrap();
    let r = find_and_call_bif(
        &mut vm,
        &mut ctx,
        &mut p,
        LTerm::nil(),
        CallBifTarget::ImportTerm(imp),
        &vec![small(9)],
        LTerm::make_regx(1),
        false,
    )
    .unwrap();
    assert_eq!(r, DispatchResult::Normal);
    assert_eq!(ctx.get_x(1).get_atom_index(), ATOM_FALSE);
    // A non-bif import materializes a badfun 1-tuple.
    let notbif = p
        .heap
        .alloc_import(
            LTerm::make_atom(ATOM_ERLANG),
            LTerm::make_atom(ATOM_IS_BOOLEAN),
            1,
            false,
        )
        .unwrap();
    let r = find_and_call_bif(
        &mut vm,
        &mut ctx,
        &mut p,
        LTerm::nil(),
        CallBifTarget::ImportTerm(notbif),
        &vec![small(9)],
        LTerm::nil(),
        false,
    );
    match r {
        Err(Error::Exception(ExceptionType::Error, reason)) => {
            assert_eq!(p.heap.tuple_arity(reason), 1);
        },
        other => panic!("expected badfun exception, got {:?}", other),
    }
}

#[test]
fn context_store_then_load_roundtrip() {
    let (_, mut p, mut ctx) = setup();
    ctx.store_value(small(11), LTerm::make_regx(3), &mut p.heap).unwrap();
    let got = ctx.load(LTerm::make_regx(3), &p.heap);
    assert_eq!(got.get_small_signed(), 11);
    ctx.store_value(small(12), LTerm::make_regy(2), &mut p.heap).unwrap();
    let got = ctx.load(LTerm::make_regy(2), &p.heap);
    assert_eq!(got.get_small_signed(), 12);
    // An immediate source passes through unchanged.
    let got = ctx.load(small(5), &p.heap);
    assert_eq!(got.get_small_signed(), 5);
}

#[test]
fn context_fetch_and_jump() {
    let mut ctx = Context::new(0);
    let code: Vec<u64> = vec![10, 20, 30, 40];
    ctx.swap_in();
    assert_eq!(ctx.fetch_opcode(&code), 10);
    assert_eq!(ctx.fetch(&code), 20);
    let args = ctx.fetch_slice(2, &code);
    assert_eq!(args[0].raw(), 30);
    assert_eq!(args[1].raw(), 40);
    assert_eq!(ctx.ip, 4);
    ctx.unfetch();
    assert_eq!(ctx.ip, 3);
    let cp = LTerm::make_cp(1);
    ctx.set_cp(cp);
    assert_eq!(ctx.cp, Some(1));
    ctx.jump(cp);
    assert_eq!(ctx.ip, 1);
    ctx.clear_cp();
    assert_eq!(ctx.cp, None);
}

#[test]
fn export_round_trip() {
    let (_, mut p, _) = setup();
    let mfa = MFArity {
        m: LTerm::make_atom(ATOM_ERLANG),
        f: LTerm::make_atom(ATOM_ERROR),
        arity: 2,
    };
    assert_eq!(Export::storage_size(), 4);
    let e = Export::new(&mfa);
    assert_eq!(e.exp.arity, 2);
    let t = Export::create_into(&mut p.heap, &mfa).unwrap();
    let back = Export::const_from_term(&p.heap, t).unwrap();
    assert_eq!(back.exp.m.get_atom_index(), ATOM_ERLANG);
    assert_eq!(back.exp.f.get_atom_index(), ATOM_ERROR);
    assert_eq!(back.exp.arity, 2);
    match Export::const_from_term(&p.heap, small(1)) {
        Err(Error::BoxedIsNotAnExport) => {},
        other => panic!("expected type mismatch, got {:?}", other),
    }
}

#[test]
fn comparison_bifs_follow_term_order() {
    let (mut vm, mut p, _) = setup();
    let r = ubif_erlang_lessthan_2(&mut vm, &mut p, &vec![small(1), small(2)]).unwrap();
    assert_eq!(r.get_atom_index(), ATOM_TRUE);
    let one_f = p.heap.alloc_float(1.0f64.to_bits()).unwrap();
    // == coerces across numbers; =:= does not.
    let r = ubif_erlang_equalequal_2(&mut vm, &mut p, &vec![small(1), one_f]).unwrap();
    assert_eq!(r.get_atom_index(), ATOM_TRUE);
    let r = ubif_erlang_equal_exact_2(&mut vm, &mut p, &vec![small(1), one_f]).unwrap();
    assert_eq!(r.get_atom_index(), ATOM_FALSE);
}

#[test]
fn self_returns_the_pid() {
    let (mut vm, mut p, _) = setup();
    let r = ubif_erlang_self_0(&mut vm, &mut p, &vec![]).unwrap();
    assert!(r.is_local_pid());
    assert_eq!(r.raw(), LTerm::make_local_pid(7).raw());
}

fn list_of(p: &mut Process, items: &[i64]) -> LTerm {
    let mut tail = LTerm::nil();
    for v in items.iter().rev() {
        tail = p.heap.alloc_cons(small(*v), tail).unwrap();
    }
    tail
}

fn collect_smalls(p: &Process, mut l: LTerm) -> Vec<i64> {
    let mut out = Vec::new();
    while l.is_cons() {
        out.push(p.heap.cons_hd(l).get_small_signed());
        l = p.heap.cons_tl(l);
    }
    assert_eq!(l.raw(), LTerm::nil().raw());
    out
}

#[test]
fn plusplus_appends_proper_lists() {
    let (mut vm, mut p, _) = setup();
    let a = list_of(&mut p, &[1, 2]);
    let b = list_of(&mut p, &[3]);
    let r = bif_erlang_plusplus_2(&mut vm, &mut p, &vec![a, b]).unwrap();
    assert_eq!(collect_smalls(&p, r), vec![1, 2, 3]);
    // Appending to nil on the left gives the right operand itself.
    let r = bif_erlang_plusplus_2(&mut vm, &mut p, &vec![LTerm::nil(), b]).unwrap();
    assert_eq!(r.raw(), b.raw());
    // An improper left operand is badarg.
    let imp = p.heap.alloc_cons(small(1), small(2)).unwrap();
    match bif_erlang_plusplus_2(&mut vm, &mut p, &vec![imp, b]) {
        Err(Error::Exception(ExceptionType::Error, t)) => {
            assert_eq!(t.get_atom_index(), erlangrt::atoms::ATOM_BADARG);
        },
        other => panic!("expected badarg, got {:?}", other),
    }
}

#[test]
fn atom_to_list_gives_name_codes() {
    let (mut vm, mut p, _) = setup();
    let ab = vm.atoms.push_atom(b"ab".to_vec());
    let r = bif_erlang_atom_to_list_1(&mut vm, &mut p, &vec![LTerm::make_atom(ab)]).unwrap();
    assert_eq!(collect_smalls(&p, r), vec![97, 98]);
    match bif_erlang_atom_to_list_1(&mut vm, &mut p, &vec![small(1)]) {
        Err(Error::Exception(ExceptionType::Error, t)) => {
            assert_eq!(t.get_atom_index(), erlangrt::atoms::ATOM_BADARG);
        },
        other => panic!("expected badarg, got {:?}", other),
    }
}

#[test]
fn integer_to_list_renders_decimal() {
    let (mut vm, mut p, _) = setup();
    let r = bif_erlang_integer_to_list_1(&mut vm, &mut p, &vec![small(-42)]).unwrap();
    assert_eq!(collect_smalls(&p, r), vec![45, 52, 50]);
    let r = bif_erlang_integer_to_list_1(&mut vm, &mut p, &vec![small(0)]).unwrap();
    assert_eq!(collect_smalls(&p, r), vec![48]);
    // A bignum renders through the arbitrary-precision store: 2^61.
    let big = p.heap.alloc_bignum(big_from_i128(1i128 << 61)).unwrap();
    let r = bif_erlang_integer_to_list_1(&mut vm, &mut p, &vec![big]).unwrap();
    let digits: Vec<u8> = collect_smalls(&p, r).iter().map(|d| *d as u8).collect();
    assert_eq!(digits, b"2305843009213693952".to_vec());
}

#[test]
fn make_fun_builds_an_export() {
    let (mut vm, mut p, _) = setup();
    let r = bif_erlang_make_fun_3(
        &mut vm,
        &mut p,
        &vec![LTerm::make_atom(ATOM_ERLANG), LTerm::make_atom(ATOM_ERROR), small(2)],
    )
    .unwrap();
    let e = Export::const_from_term(&p.heap, r).unwrap();
    assert_eq!(e.exp.m.get_atom_index(), ATOM_ERLANG);
    assert_eq!(e.exp.f.get_atom_index(), ATOM_ERROR);
    assert_eq!(e.exp.arity, 2);
    match bif_erlang_make_fun_3(
        &mut vm,
        &mut p,
        &vec![small(1), LTerm::make_atom(ATOM_ERROR), small(2)],
    ) {
        Err(Error::Exception(ExceptionType::Error, t)) => {
            assert_eq!(t.get_atom_index(), erlangrt::atoms::ATOM_BADARG);
        },
        other => panic!("expected badarg, got {:?}", other),
    }
}

#[test]
fn member_uses_exact_equality() {
    let (mut vm, mut p, _) = setup();
    let l = list_of(&mut p, &[1, 2, 3]);
    let r = bif_lists_member_2(&mut vm, &mut p, &vec![small(2), l]).unwrap();
    assert_eq!(r.get_atom_index(), ATOM_TRUE);
    let r = bif_lists_member_2(&mut vm, &mut p, &vec![small(4), l]).unwrap();
    assert_eq!(r.get_atom_index(), ATOM_FALSE);
    // Exact comparison: the float 1.0 is not the integer 1.
    let one_f = p.heap.alloc_float(1.0f64.to_bits()).unwrap();
    let lf = p.heap.alloc_cons(one_f, LTerm::nil()).unwrap();
    let r = bif_lists_member_2(&mut vm, &mut p, &vec![small(1), lf]).unwrap();
    assert_eq!(r.get_atom_index(), ATOM_FALSE);
    // Walking into an improper tail without a match is badarg.
    let imp = p.heap.alloc_cons(small(1), small(2)).unwrap();
    match bif_lists_member_2(&mut vm, &mut p, &vec![small(5), imp]) {
        Err(Error::Exception(ExceptionType::Error, t)) => {
            assert_eq!(t.get_atom_index(), erlangrt::atoms::ATOM_BADARG);
        },
        other => panic!("expected badarg, got {:?}", other),
    }
}

#[test]
fn dispatch_member_via_mfa() {
    let (mut vm, mut p, mut ctx) = setup();
    let l = list_of(&mut p, &[7]);
    let mfa = MFArity {
        m: LTerm::make_atom(erlangrt::atoms::ATOM_LISTS),
        f: LTerm::make_atom(erlangrt::atoms::ATOM_MEMBER),
        arity: 2,
    };
    let r = find_and_call_bif(
        &mut vm,
        &mut ctx,
        &mut p,
        LTerm::nil(),
        CallBifTarget::MFArity(mfa),
        &vec![small(7), l],
        LTerm::make_regx(2),
        false,
    )
    .unwrap();
    assert_eq!(r, DispatchResult::Normal);
    assert_eq!(ctx.get_x(2).get_atom_index(), ATOM_TRUE);
}
