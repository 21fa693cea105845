use lint_engine::conf::{Conf, InherentImplLintScope, Msrv};
use lint_engine::copy_then_borrow_mut::{is_expr_mutable_outside_block, CopyThenBorrowMut};
use lint_engine::finding::{Category, Lint, Message};
use lint_engine::manual_span_operation::ManualSpanOperation;
use lint_engine::missing_msrv::{check, Edition, Package};
use lint_engine::span::Span;
use lint_engine::suggestion::Applicability;
use lint_engine::sym;
use lint_engine::tree::{Adt, Facts, NodeKind, PathForm, PathInfo, Res, Tree};

fn bm_facts() -> Facts {
    Facts {
        adjusted: false,
        copy: false,
        never: false,
        has_attrs: false,
        in_test: false,
        boxed: None,
        adt: None,
        peeled_adt: None,
    }
}

fn bm_pass(check_in_tests: bool) -> CopyThenBorrowMut {
    CopyThenBorrowMut::new(&Conf {
        check_copy_then_borrow_mut_in_tests: check_in_tests,
        inherent_impl_lint_scope: InherentImplLintScope::Crate,
        msrv: Msrv { version: None },
    })
}

fn bm_local(t: &mut Tree, binding: usize, at: Span, copy: bool) -> usize {
    let info = PathInfo {
        form: PathForm::Resolved,
        res: Res::Local(binding),
        segments: 1,
        name: 100,
        infer_args: true,
    };
    t.add(NodeKind::Path(info), at, Facts { copy, ..bm_facts() }, vec![]).unwrap()
}

fn bm_binding(t: &mut Tree, mutable: bool) -> usize {
    t.add(
        NodeKind::Binding { mutable, by_ref: false, initialized: true },
        Span::new(0, 8, 9),
        bm_facts(),
        vec![],
    )
    .unwrap()
}

/// `&mut { a }` at 20..30: block at 25..30, `a` at 27..28
fn bm_borrow(t: &mut Tree, binding: usize, copy: bool, in_test: bool, targeted: bool) -> (usize, usize, usize) {
    let a = bm_local(t, binding, Span::new(0, 27, 28), copy);
    let block = t
        .add(
            NodeKind::Block { has_tail: true, targeted_by_break: targeted },
            Span::new(0, 25, 30),
            bm_facts(),
            vec![a],
        )
        .unwrap();
    let e = t
        .add(
            NodeKind::AddrOf { mutable: true },
            Span::new(0, 20, 30),
            Facts { in_test, ..bm_facts() },
            vec![block],
        )
        .unwrap();
    (e, block, a)
}

#[test]
fn borrow_of_copied_variable_is_reported() {
    let mut t = Tree::new();
    let b = bm_binding(&mut t, true);
    let (e, block, a) = bm_borrow(&mut t, b, true, false, false);
    assert!(is_expr_mutable_outside_block(&t, a, block));
    let f = bm_pass(false).check_expr(&t, e).unwrap();
    assert_eq!(f.lint, Lint::CopyThenBorrowMut);
    assert_eq!(f.category(), Category::Suspicious);
    assert_eq!(f.span, Span::new(0, 20, 30));
    assert_eq!(f.message, Message::CopiedThenBorrowed);
    let p = f.proposal.unwrap();
    assert_eq!(p.help, Message::BuildReferenceInBlock);
    assert_eq!(p.suggestion.len(), 2);
    assert_eq!(p.suggestion.edit(0).span, Span::new(0, 20, 25));
    assert_eq!(p.suggestion.edit(0).text, "");
    assert_eq!(p.suggestion.edit(1).span, Span::new(0, 27, 27));
    assert_eq!(p.suggestion.edit(1).text, "&mut ");
    assert_eq!(p.suggestion.applicability(), Applicability::MachineApplicable);
    let text = b"12345678901234567890&mut { a }".to_vec();
    assert_eq!(
        p.suggestion.apply(0, &text),
        Some(b"12345678901234567890{ &mut a }".to_vec())
    );
}

#[test]
fn borrow_is_left_alone_when_a_condition_fails() {
    let mut t = Tree::new();
    let b = bm_binding(&mut t, true);
    let (not_copy, _, _) = bm_borrow(&mut t, b, false, false, false);
    let (targeted, _, _) = bm_borrow(&mut t, b, true, false, true);
    let (in_test, _, _) = bm_borrow(&mut t, b, true, true, false);
    let im = bm_binding(&mut t, false);
    let (immutable, _, _) = bm_borrow(&mut t, im, true, false, false);
    let pass = bm_pass(false);
    assert!(pass.check_expr(&t, not_copy).is_none());
    assert!(pass.check_expr(&t, targeted).is_none());
    assert!(pass.check_expr(&t, in_test).is_none());
    assert!(bm_pass(true).check_expr(&t, in_test).is_some());
    assert!(pass.check_expr(&t, immutable).is_none());
    assert!(pass.check_expr(&t, b).is_none());
    assert!(pass.check_expr(&t, 1000).is_none());
    // a shared borrow
    let a = bm_local(&mut t, b, Span::new(0, 27, 28), true);
    let block = t
        .add(NodeKind::Block { has_tail: true, targeted_by_break: false }, Span::new(0, 25, 30), bm_facts(), vec![a])
        .unwrap();
    let shared = t.add(NodeKind::AddrOf { mutable: false }, Span::new(0, 20, 30), bm_facts(), vec![block]).unwrap();
    assert!(pass.check_expr(&t, shared).is_none());
    // a borrow made by a macro, and a block from another context
    let a = bm_local(&mut t, b, Span::new(0, 27, 28), true);
    let block = t
        .add(NodeKind::Block { has_tail: true, targeted_by_break: false }, Span::new(0, 25, 30), bm_facts(), vec![a])
        .unwrap();
    let made = t
        .add(NodeKind::AddrOf { mutable: true }, Span::with_ctxt(0, 20, 30, 3), bm_facts(), vec![block])
        .unwrap();
    assert!(pass.check_expr(&t, made).is_none());
    let a = bm_local(&mut t, b, Span::new(0, 27, 28), true);
    let block = t
        .add(
            NodeKind::Block { has_tail: true, targeted_by_break: false },
            Span::with_ctxt(0, 25, 30, 3),
            bm_facts(),
            vec![a],
        )
        .unwrap();
    let mixed = t.add(NodeKind::AddrOf { mutable: true }, Span::new(0, 20, 30), bm_facts(), vec![block]).unwrap();
    assert!(pass.check_expr(&t, mixed).is_none());
}

#[test]
fn variable_declared_inside_the_block_is_left_alone() {
    // &mut { let mut a = 1; a }
    let mut t = Tree::new();
    let b = bm_binding(&mut t, true);
    let stmt = t.add(NodeKind::Other, Span::new(0, 27, 41), bm_facts(), vec![b]).unwrap();
    let a = bm_local(&mut t, b, Span::new(0, 42, 43), true);
    let block = t
        .add(
            NodeKind::Block { has_tail: true, targeted_by_break: false },
            Span::new(0, 25, 45),
            bm_facts(),
            vec![stmt, a],
        )
        .unwrap();
    let e = t.add(NodeKind::AddrOf { mutable: true }, Span::new(0, 20, 45), bm_facts(), vec![block]).unwrap();
    assert!(!is_expr_mutable_outside_block(&t, a, block));
    assert!(bm_pass(false).check_expr(&t, e).is_none());
}

#[test]
fn fields_and_elements_of_outer_variables_count() {
    // let mut s; { &mut { s.f[0] } }
    let mut t = Tree::new();
    let b = bm_binding(&mut t, true);
    let decl = t.add(NodeKind::Other, Span::new(0, 0, 10), bm_facts(), vec![b]).unwrap();
    let s = bm_local(&mut t, b, Span::new(0, 27, 28), false);
    let sf = t.add(NodeKind::Field(5), Span::new(0, 27, 30), bm_facts(), vec![s]).unwrap();
    let zero = t.add(NodeKind::Other, Span::new(0, 31, 32), bm_facts(), vec![]).unwrap();
    let elem = t
        .add(NodeKind::Index, Span::new(0, 27, 33), Facts { copy: true, ..bm_facts() }, vec![sf, zero])
        .unwrap();
    let block = t
        .add(NodeKind::Block { has_tail: true, targeted_by_break: false }, Span::new(0, 25, 35), bm_facts(), vec![elem])
        .unwrap();
    let e = t.add(NodeKind::AddrOf { mutable: true }, Span::new(0, 20, 35), bm_facts(), vec![block]).unwrap();
    let outer = t
        .add(
            NodeKind::Block { has_tail: true, targeted_by_break: false },
            Span::new(0, 0, 40),
            bm_facts(),
            vec![decl, e],
        )
        .unwrap();
    assert!(is_expr_mutable_outside_block(&t, elem, block));
    assert!(!is_expr_mutable_outside_block(&t, elem, outer));
    assert!(!is_expr_mutable_outside_block(&t, zero, block));
    assert!(bm_pass(false).check_expr(&t, e).is_some());
}

#[test]
fn overlapping_edits_leave_a_plain_finding() {
    // spans as no parser gives them: the final expression starts inside the borrow operator
    let mut t = Tree::new();
    let b = bm_binding(&mut t, true);
    let a = bm_local(&mut t, b, Span::new(0, 22, 23), true);
    let block = t
        .add(NodeKind::Block { has_tail: true, targeted_by_break: false }, Span::new(0, 25, 30), bm_facts(), vec![a])
        .unwrap();
    let e = t.add(NodeKind::AddrOf { mutable: true }, Span::new(0, 20, 30), bm_facts(), vec![block]).unwrap();
    let f = bm_pass(false).check_expr(&t, e).unwrap();
    assert_eq!(f.message, Message::CopiedThenBorrowed);
    assert!(f.proposal.is_none());
}

/// `a.with_hi(b.lo())` at 0..17: `with_hi` at 2..9, `b` at 10..11, `b.lo()` at 10..16
fn bm_with_hi(t: &mut Tree, outer: u32, inner: u32, recv: Option<Adt>, arg: Option<Adt>) -> usize {
    let a = t.add(NodeKind::Other, Span::new(0, 0, 1), Facts { peeled_adt: recv, ..bm_facts() }, vec![]).unwrap();
    let b = t.add(NodeKind::Other, Span::new(0, 10, 11), Facts { adt: arg, ..bm_facts() }, vec![]).unwrap();
    let lo = t
        .add(
            NodeKind::MethodCall { name: inner, name_span: Span::new(0, 12, 14), iterator_method: false },
            Span::new(0, 10, 16),
            bm_facts(),
            vec![b],
        )
        .unwrap();
    t.add(
        NodeKind::MethodCall { name: outer, name_span: Span::new(0, 2, 9), iterator_method: false },
        Span::new(0, 0, 17),
        bm_facts(),
        vec![a, lo],
    )
    .unwrap()
}

#[test]
fn with_hi_of_lo_is_until() {
    let mut t = Tree::new();
    let span_ty = Some(Adt { def: 4, is_span: true });
    let e = bm_with_hi(&mut t, sym::WITH_HI, sym::LO, span_ty, span_ty);
    let f = ManualSpanOperation {}.check_expr(&t, e).unwrap();
    assert_eq!(f.lint, Lint::ManualSpanOperation);
    assert_eq!(f.category(), Category::Internal);
    assert_eq!(f.span, Span::new(0, 0, 17));
    assert_eq!(f.message, Message::ManualSpanUntil);
    let p = f.proposal.unwrap();
    assert_eq!(p.help, Message::UseInstead);
    assert_eq!(p.suggestion.len(), 2);
    assert_eq!(p.suggestion.edit(0).span, Span::new(0, 2, 9));
    assert_eq!(p.suggestion.edit(0).text, "until");
    assert_eq!(p.suggestion.edit(1).span, Span::new(0, 11, 16));
    assert_eq!(p.suggestion.edit(1).text, "");
    assert_eq!(p.suggestion.apply(0, &b"a.with_hi(b.lo())".to_vec()), Some(b"a.until(b)".to_vec()));
}

#[test]
fn other_method_calls_are_no_until() {
    let span_ty = Some(Adt { def: 4, is_span: true });
    let other_ty = Some(Adt { def: 5, is_span: false });
    let pass = ManualSpanOperation {};
    let mut t = Tree::new();
    let e = bm_with_hi(&mut t, sym::WITH_HI, sym::LO, other_ty, other_ty);
    assert!(pass.check_expr(&t, e).is_none());
    let e = bm_with_hi(&mut t, sym::WITH_HI, sym::LO, span_ty, other_ty);
    assert!(pass.check_expr(&t, e).is_none());
    let e = bm_with_hi(&mut t, sym::WITH_HI, sym::LO, span_ty, None);
    assert!(pass.check_expr(&t, e).is_none());
    let e = bm_with_hi(&mut t, sym::WITH_HI, sym::LO, None, span_ty);
    assert!(pass.check_expr(&t, e).is_none());
    let e = bm_with_hi(&mut t, sym::LO, sym::LO, span_ty, span_ty);
    assert!(pass.check_expr(&t, e).is_none());
    let e = bm_with_hi(&mut t, sym::WITH_HI, sym::WITH_HI, span_ty, span_ty);
    assert!(pass.check_expr(&t, e).is_none());
    assert!(pass.check_expr(&t, 0).is_none());
    assert!(pass.check_expr(&t, 9999).is_none());
}

fn bm_package(edition: Edition, has_rust_version: bool, dependencies: usize, publish: Option<usize>) -> Package {
    Package { edition, has_rust_version, dependencies, publish }
}

#[test]
fn recent_package_without_rust_version_is_reported() {
    let p = bm_package(Edition::E2024, false, 3, None);
    let f = check(Some(&p)).unwrap();
    assert_eq!(f.lint, Lint::MissingMsrv);
    assert_eq!(f.category(), Category::Cargo);
    assert_eq!(f.message, Message::MissingRustVersion);
    assert_eq!(f.message.text(), "missing `rust-version` field");
    assert_eq!(f.span, Span::new(0, 0, 0));
    assert!(f.proposal.is_none());
    assert!(check(Some(&bm_package(Edition::E2030, false, 1, Some(2)))).is_some());
    assert!(check(Some(&bm_package(Edition::E2027, false, 1, None))).is_some());
}

#[test]
fn other_packages_are_not_reported() {
    assert!(check(None).is_none());
    assert!(check(Some(&bm_package(Edition::E2021, false, 3, None))).is_none());
    assert!(check(Some(&bm_package(Edition::E2015, false, 3, None))).is_none());
    assert!(check(Some(&bm_package(Edition::E2018, false, 3, None))).is_none());
    assert!(check(Some(&bm_package(Edition::E2024, true, 3, None))).is_none());
    assert!(check(Some(&bm_package(Edition::E2024, false, 0, None))).is_none());
    assert!(check(Some(&bm_package(Edition::E2024, false, 3, Some(0)))).is_none());
    assert_eq!(Edition::E2024.year(), 2024);
}
