use lint_engine::conf::{unit_never_type_fallback, Conf, InherentImplLintScope, Msrv, RustcVersion};
use lint_engine::finding::{Category, Lint, Message};
use lint_engine::span::Span;
use lint_engine::suggestion::Applicability;
use lint_engine::sym;
use lint_engine::tree::{ClosureInfo, Facts, NodeKind, Tree};
use lint_engine::unused_unit::{
    before_span, get_def, has_nested_paren, is_block_expr_unit, is_unit_expr, lint_unneeded_unit_return,
    only_trivia, position_before_rarrow, tail_of, unit_by_tokens, BoundArgs, BoundType, Constraint, FnDecl,
    Lexeme, PolyTraitRef, ReturnType, UnusedUnit,
};

fn uu_facts() -> Facts {
    Facts {
        adjusted: false,
        copy: false,
        never: false,
        has_attrs: false,
        in_test: false,
        boxed: None,
        adt: None,
        peeled_adt: None,
    }
}

fn uu_pass(version: Option<RustcVersion>) -> UnusedUnit {
    UnusedUnit::new(&Conf {
        check_copy_then_borrow_mut_in_tests: false,
        inherent_impl_lint_scope: InherentImplLintScope::Crate,
        msrv: Msrv { version },
    })
}

/// `{ foo(); () }` at 10..23: statement at 12..18, unit at 19..21
fn uu_block_with_stmt(t: &mut Tree, unit_facts: Facts, unit_span: Span) -> usize {
    let call = t.add(NodeKind::Other, Span::new(0, 12, 17), uu_facts(), vec![]).unwrap();
    let stmt = t.add(NodeKind::StmtSemi, Span::new(0, 12, 18), uu_facts(), vec![call]).unwrap();
    let unit = t.add(NodeKind::Tup, unit_span, unit_facts, vec![]).unwrap();
    t.add(
        NodeKind::Block { has_tail: true, targeted_by_break: false },
        Span::new(0, 10, 23),
        uu_facts(),
        vec![stmt, unit],
    )
    .unwrap()
}

#[test]
fn tokens_tell_nested_parentheses() {
    assert!(!has_nested_paren(&vec![]));
    assert!(!has_nested_paren(&vec![Lexeme::OpenParen, Lexeme::Other]));
    assert!(has_nested_paren(&vec![Lexeme::OpenParen, Lexeme::Whitespace, Lexeme::OpenParen]));
    assert!(has_nested_paren(&vec![Lexeme::OpenParen, Lexeme::OpenParen, Lexeme::OpenParen]));
}

#[test]
fn tokens_tell_trivia() {
    assert!(only_trivia(&vec![]));
    assert!(only_trivia(&vec![
        Lexeme::LineComment,
        Lexeme::BlockComment,
        Lexeme::Whitespace,
        Lexeme::InvalidIdent,
        Lexeme::UnknownPrefix,
        Lexeme::UnknownPrefixLifetime,
        Lexeme::Unknown,
        Lexeme::Eof,
    ]));
    assert!(!only_trivia(&vec![Lexeme::Whitespace, Lexeme::Other]));
    assert!(!only_trivia(&vec![Lexeme::OpenParen]));
    assert!(unit_by_tokens(&vec![Lexeme::OpenParen, Lexeme::Other], &vec![Lexeme::Whitespace]));
    assert!(!unit_by_tokens(&vec![Lexeme::OpenParen, Lexeme::OpenParen], &vec![]));
    assert!(!unit_by_tokens(&vec![Lexeme::OpenParen], &vec![Lexeme::Other]));
}

#[test]
fn unit_at_end_of_block_is_found_by_its_text() {
    let mut t = Tree::new();
    let b = uu_block_with_stmt(&mut t, uu_facts(), Span::new(0, 19, 21));
    assert!(is_block_expr_unit(&t, b, Some("()"), Some(" ")));
    assert!(is_block_expr_unit(&t, b, Some("( )"), Some("\n    // done\n    /* really */ ")));
    assert!(is_block_expr_unit(&t, b, Some("()"), Some("")));
}

#[test]
fn unit_in_extra_parentheses_is_left_alone() {
    let mut t = Tree::new();
    let b = uu_block_with_stmt(&mut t, uu_facts(), Span::new(0, 19, 21));
    assert!(!is_block_expr_unit(&t, b, Some("(())"), Some(" ")));
    assert!(!is_block_expr_unit(&t, b, Some("( ( ) )"), Some(" ")));
}

#[test]
fn unit_behind_other_tokens_is_left_alone() {
    let mut t = Tree::new();
    let b = uu_block_with_stmt(&mut t, uu_facts(), Span::new(0, 19, 21));
    assert!(!is_block_expr_unit(&t, b, Some("()"), Some(" pass! ")));
    assert!(!is_block_expr_unit(&t, b, Some("()"), Some("(")));
    assert!(!is_block_expr_unit(&t, b, Some("()"), Some("\"( )\"")));
}

#[test]
fn unit_without_text_is_left_alone() {
    let mut t = Tree::new();
    let b = uu_block_with_stmt(&mut t, uu_facts(), Span::new(0, 19, 21));
    assert!(!is_block_expr_unit(&t, b, None, Some(" ")));
    assert!(!is_block_expr_unit(&t, b, Some("()"), None));
}

#[test]
fn other_final_expressions_are_no_unit() {
    let mut t = Tree::new();
    let x = t.add(NodeKind::Other, Span::new(0, 1, 2), uu_facts(), vec![]).unwrap();
    let pair = t.add(NodeKind::Tup, Span::new(0, 0, 4), uu_facts(), vec![x]).unwrap();
    let b = t
        .add(
            NodeKind::Block { has_tail: true, targeted_by_break: false },
            Span::new(0, 0, 6),
            uu_facts(),
            vec![pair],
        )
        .unwrap();
    let empty = t
        .add(NodeKind::Block { has_tail: false, targeted_by_break: false }, Span::new(0, 8, 10), uu_facts(), vec![])
        .unwrap();
    assert!(!is_block_expr_unit(&t, b, Some("()"), Some(" ")));
    assert!(!is_block_expr_unit(&t, empty, Some("()"), Some(" ")));
    assert!(!is_block_expr_unit(&t, x, Some("()"), Some(" ")));
    assert!(!is_block_expr_unit(&t, 99, Some("()"), Some(" ")));
    assert_eq!(tail_of(&t, b), Some(pair));
    assert_eq!(tail_of(&t, empty), None);
    assert!(is_unit_expr(&t, empty));
    assert!(!is_unit_expr(&t, pair));
    assert!(!is_unit_expr(&t, x));
}

#[test]
fn before_span_runs_from_last_statement_or_brace() {
    let mut t = Tree::new();
    let b = uu_block_with_stmt(&mut t, uu_facts(), Span::new(0, 19, 21));
    assert_eq!(before_span(&t, b), Span::new(0, 18, 19));
    let mut t = Tree::new();
    let unit = t.add(NodeKind::Tup, Span::new(0, 14, 16), uu_facts(), vec![]).unwrap();
    let b = t
        .add(
            NodeKind::Block { has_tail: true, targeted_by_break: false },
            Span::new(0, 10, 18),
            uu_facts(),
            vec![unit],
        )
        .unwrap();
    assert_eq!(before_span(&t, b), Span::new(0, 11, 14));
}

#[test]
fn check_block_reports_final_unit() {
    let pass = uu_pass(None);
    let mut t = Tree::new();
    let b = uu_block_with_stmt(&mut t, uu_facts(), Span::new(0, 19, 21));
    let f = pass.check_block(&t, b, Some("()"), Some(" ")).unwrap();
    assert_eq!(f.lint, Lint::UnusedUnit);
    assert_eq!(f.category(), Category::Style);
    assert_eq!(f.span, Span::new(0, 19, 21));
    assert_eq!(f.message, Message::UnneededUnitExpression);
    let p = f.proposal.unwrap();
    assert_eq!(p.help, Message::RemoveFinalUnit);
    assert_eq!(p.suggestion.len(), 1);
    assert_eq!(p.suggestion.edit(0).span, Span::new(0, 19, 21));
    assert_eq!(p.suggestion.edit(0).text, "");
    assert_eq!(p.suggestion.applicability(), Applicability::MachineApplicable);
    assert_eq!(p.suggestion.apply(0, &b"0123456789{ foo(); () }".to_vec()), Some(b"0123456789{ foo();  }".to_vec()));
}

#[test]
fn check_block_passes_over_attributes_and_expansions() {
    let pass = uu_pass(None);
    let mut t = Tree::new();
    let b = uu_block_with_stmt(&mut t, Facts { has_attrs: true, ..uu_facts() }, Span::new(0, 19, 21));
    assert!(pass.check_block(&t, b, Some("()"), Some(" ")).is_none());
    let mut t = Tree::new();
    let b = uu_block_with_stmt(&mut t, uu_facts(), Span::with_ctxt(0, 19, 21, 4));
    assert!(pass.check_block(&t, b, Some("()"), Some(" ")).is_none());
    let mut t = Tree::new();
    let b = uu_block_with_stmt(&mut t, uu_facts(), Span::new(0, 19, 21));
    assert!(pass.check_block(&t, b, Some("(())"), Some(" ")).is_none());
}

#[test]
fn check_expr_reports_unit_of_return_and_break() {
    let pass = uu_pass(None);
    let mut t = Tree::new();
    let unit = t.add(NodeKind::Tup, Span::new(0, 7, 9), uu_facts(), vec![]).unwrap();
    let ret = t.add(NodeKind::Ret, Span::new(0, 0, 9), uu_facts(), vec![unit]).unwrap();
    let empty = t
        .add(NodeKind::Block { has_tail: false, targeted_by_break: false }, Span::new(0, 26, 28), uu_facts(), vec![])
        .unwrap();
    let brk = t.add(NodeKind::Break, Span::new(0, 20, 28), uu_facts(), vec![empty]).unwrap();
    let bare = t.add(NodeKind::Ret, Span::new(0, 30, 36), uu_facts(), vec![]).unwrap();
    let made = t.add(NodeKind::Tup, Span::with_ctxt(0, 47, 49, 3), uu_facts(), vec![]).unwrap();
    let ret_made = t.add(NodeKind::Ret, Span::new(0, 40, 49), uu_facts(), vec![made]).unwrap();
    let value = t.add(NodeKind::Other, Span::new(0, 57, 58), uu_facts(), vec![]).unwrap();
    let ret_value = t.add(NodeKind::Ret, Span::new(0, 50, 58), uu_facts(), vec![value]).unwrap();
    let f = pass.check_expr(&t, ret).unwrap();
    assert_eq!(f.span, Span::new(0, 7, 9));
    assert_eq!(f.message, Message::UnneededUnit);
    assert_eq!(f.message.text(), "unneeded `()`");
    let p = f.proposal.unwrap();
    assert_eq!(p.help, Message::RemoveUnit);
    assert_eq!(p.suggestion.edit(0).text, "");
    assert_eq!(pass.check_expr(&t, brk).unwrap().span, Span::new(0, 26, 28));
    assert!(pass.check_expr(&t, bare).is_none());
    assert!(pass.check_expr(&t, ret_made).is_none());
    assert!(pass.check_expr(&t, ret_value).is_none());
    assert!(pass.check_expr(&t, unit).is_none());
    assert!(pass.check_expr(&t, 400).is_none());
}

#[test]
fn position_before_rarrow_skips_whitespace_backwards() {
    assert_eq!(position_before_rarrow("fn f() -> ()"), Some(6));
    assert_eq!(position_before_rarrow("fn f()->()"), Some(6));
    assert_eq!(position_before_rarrow("fn f()  \t\n -> ()"), Some(6));
    assert_eq!(position_before_rarrow("fn f()"), None);
    assert_eq!(position_before_rarrow(""), None);
    assert_eq!(position_before_rarrow("->"), Some(0));
    assert_eq!(position_before_rarrow(" ->"), Some(1));
    assert_eq!(position_before_rarrow("  ->"), Some(1));
    assert_eq!(position_before_rarrow("a -> b -> ()"), Some(6));
    assert_eq!(position_before_rarrow("-"), None);
}

#[test]
fn unit_return_is_removed_from_before_the_arrow() {
    let f = lint_unneeded_unit_return(Span::new(0, 110, 112), Span::new(0, 100, 120), Some("fn f() -> ()"));
    assert_eq!(f.lint, Lint::UnusedUnit);
    assert_eq!(f.span, Span::new(0, 106, 112));
    assert_eq!(f.message, Message::UnneededUnitReturn);
    let p = f.proposal.unwrap();
    assert_eq!(p.help, Message::RemoveUnitReturn);
    assert_eq!(p.help.text(), "remove the `-> ()`");
    assert_eq!(p.suggestion.edit(0).span, Span::new(0, 106, 112));
    assert_eq!(p.suggestion.edit(0).text, "");
    assert_eq!(p.suggestion.applicability(), Applicability::MachineApplicable);
}

#[test]
fn unit_return_without_text_or_arrow_is_doubtful() {
    let f = lint_unneeded_unit_return(Span::new(0, 110, 112), Span::new(0, 100, 120), None);
    assert_eq!(f.span, Span::new(0, 110, 112));
    assert_eq!(f.proposal.unwrap().suggestion.applicability(), Applicability::MaybeIncorrect);
    let f = lint_unneeded_unit_return(Span::new(0, 110, 112), Span::new(0, 100, 120), Some("fn f() ()"));
    assert_eq!(f.span, Span::new(0, 110, 112));
    assert_eq!(f.proposal.unwrap().suggestion.applicability(), Applicability::MaybeIncorrect);
    let f = lint_unneeded_unit_return(
        Span::new(0, 4294967290, 4294967292),
        Span::new(0, 4294967290, 4294967295),
        Some("fn f()         -> ()"),
    );
    assert_eq!(f.span, Span::new(0, 4294967290, 4294967292));
    assert_eq!(f.proposal.unwrap().suggestion.applicability(), Applicability::MaybeIncorrect);
}

#[test]
fn get_def_is_the_definition_site_of_expansions() {
    let site = Span::new(3, 0, 50);
    assert_eq!(get_def(Span::new(0, 1, 2), site), None);
    assert_eq!(get_def(Span::with_ctxt(0, 1, 2, 9), site), Some(site));
}

fn uu_fn(t: &mut Tree, never: bool) -> FnDecl {
    let tail = t.add(NodeKind::Other, Span::new(0, 30, 35), Facts { never, ..uu_facts() }, vec![]).unwrap();
    let block = t
        .add(
            NodeKind::Block { has_tail: true, targeted_by_break: false },
            Span::new(0, 28, 37),
            uu_facts(),
            vec![tail],
        )
        .unwrap();
    let body = t.add(NodeKind::Body, Span::new(0, 28, 37), uu_facts(), vec![block]).unwrap();
    FnDecl {
        span: Span::new(0, 10, 37),
        def_site: Span::new(0, 0, 0),
        output: Some(ReturnType { unit: true, span: Span::new(0, 20, 22), def_site: Span::new(0, 0, 0) }),
        closure: None,
        body,
    }
}

#[test]
fn check_fn_reports_unit_return_type() {
    let mut t = Tree::new();
    let decl = uu_fn(&mut t, false);
    let f = uu_pass(None).check_fn(&t, &decl, Some("fn f() -> ()")).unwrap();
    assert_eq!(f.span, Span::new(0, 16, 22));
    assert_eq!(f.message, Message::UnneededUnitReturn);
}

#[test]
fn check_fn_passes_over_other_return_types() {
    let mut t = Tree::new();
    let decl = uu_fn(&mut t, false);
    let pass = uu_pass(None);
    let none = FnDecl { output: None, ..decl };
    assert!(pass.check_fn(&t, &none, Some("fn f()")).is_none());
    let other = FnDecl {
        output: Some(ReturnType { unit: false, span: Span::new(0, 20, 22), def_site: Span::new(0, 0, 0) }),
        ..decl
    };
    assert!(pass.check_fn(&t, &other, Some("fn f() -> u8")).is_none());
    let made = FnDecl {
        output: Some(ReturnType {
            unit: true,
            span: Span::with_ctxt(0, 20, 22, 5),
            def_site: Span::new(0, 0, 0),
        }),
        ..decl
    };
    assert!(pass.check_fn(&t, &made, Some("fn f() -> ()")).is_none());
    let in_macro = FnDecl { span: Span::with_ctxt(0, 10, 37, 5), def_site: Span::new(1, 1, 9), ..decl };
    assert!(pass.check_fn(&t, &in_macro, Some("fn f() -> ()")).is_none());
}

#[test]
fn check_fn_passes_over_closures_with_binder() {
    let mut t = Tree::new();
    let decl = uu_fn(&mut t, false);
    let body = decl.body;
    let with_binder = t
        .add(
            NodeKind::Closure(ClosureInfo {
                bound_generic_params: 1,
                fn_decl_span: Span::new(0, 10, 22),
                inputs_inferred: true,
            }),
            Span::new(0, 10, 37),
            uu_facts(),
            vec![body],
        )
        .unwrap();
    let pass = uu_pass(None);
    let decl = FnDecl { closure: Some(with_binder), ..decl };
    assert!(pass.check_fn(&t, &decl, Some("for<'a> |x| -> ()")).is_none());
    let mut t = Tree::new();
    let decl = uu_fn(&mut t, false);
    let body = decl.body;
    let plain = t
        .add(
            NodeKind::Closure(ClosureInfo {
                bound_generic_params: 0,
                fn_decl_span: Span::new(0, 10, 22),
                inputs_inferred: true,
            }),
            Span::new(0, 10, 37),
            uu_facts(),
            vec![body],
        )
        .unwrap();
    let decl = FnDecl { closure: Some(plain), ..decl };
    assert!(pass.check_fn(&t, &decl, Some("|x| -> ()")).is_some());
}

#[test]
fn check_fn_minds_never_type_fallback() {
    let mut t = Tree::new();
    let decl = uu_fn(&mut t, true);
    assert_eq!(unit_never_type_fallback(), RustcVersion { major: 1, minor: 85, patch: 0 });
    assert!(uu_pass(None).check_fn(&t, &decl, None).is_none());
    assert!(uu_pass(Some(RustcVersion { major: 1, minor: 85, patch: 0 })).check_fn(&t, &decl, None).is_none());
    assert!(uu_pass(Some(RustcVersion { major: 1, minor: 90, patch: 2 })).check_fn(&t, &decl, None).is_none());
    assert!(uu_pass(Some(RustcVersion { major: 1, minor: 84, patch: 9 })).check_fn(&t, &decl, None).is_some());
    let mut t = Tree::new();
    let decl = uu_fn(&mut t, false);
    assert!(uu_pass(None).check_fn(&t, &decl, None).is_some());
}

fn uu_bound(name: u32, paren_sugar: bool, constraints: usize, constraint: u32, ty: Option<BoundType>) -> PolyTraitRef {
    PolyTraitRef {
        span: Span::new(0, 50, 62),
        segments: 1,
        name,
        args: Some(BoundArgs { paren_sugar, constraints, first: Some(Constraint { name: constraint, ty }) }),
    }
}

#[test]
fn check_poly_trait_ref_reports_unit_output() {
    let pass = uu_pass(None);
    let unit = Some(BoundType { span: Span::new(0, 60, 62), unit: true });
    for name in [sym::FN, sym::FN_MUT, sym::FN_ONCE] {
        let f = pass.check_poly_trait_ref(&uu_bound(name, true, 1, sym::OUTPUT, unit), Some("Fn(u8) -> ()")).unwrap();
        assert_eq!(f.span, Span::new(0, 56, 62));
        assert_eq!(f.message, Message::UnneededUnitReturn);
    }
}

#[test]
fn check_poly_trait_ref_passes_over_other_bounds() {
    let pass = uu_pass(None);
    let unit = Some(BoundType { span: Span::new(0, 60, 62), unit: true });
    let src = Some("Fn(u8) -> ()");
    assert!(pass.check_poly_trait_ref(&uu_bound(sym::FIRST_FREE, true, 1, sym::OUTPUT, unit), src).is_none());
    assert!(pass.check_poly_trait_ref(&uu_bound(sym::FN, false, 1, sym::OUTPUT, unit), src).is_none());
    assert!(pass.check_poly_trait_ref(&uu_bound(sym::FN, true, 2, sym::OUTPUT, unit), src).is_none());
    assert!(pass.check_poly_trait_ref(&uu_bound(sym::FN, true, 1, sym::NEW, unit), src).is_none());
    assert!(pass.check_poly_trait_ref(&uu_bound(sym::FN, true, 1, sym::OUTPUT, None), src).is_none());
    let other = Some(BoundType { span: Span::new(0, 60, 62), unit: false });
    assert!(pass.check_poly_trait_ref(&uu_bound(sym::FN, true, 1, sym::OUTPUT, other), src).is_none());
    let whole = Some(BoundType { span: Span::new(0, 50, 62), unit: true });
    assert!(pass.check_poly_trait_ref(&uu_bound(sym::FN, true, 1, sym::OUTPUT, whole), src).is_none());
    let made = Some(BoundType { span: Span::with_ctxt(0, 60, 62, 2), unit: true });
    assert!(pass.check_poly_trait_ref(&uu_bound(sym::FN, true, 1, sym::OUTPUT, made), src).is_none());
    let two = PolyTraitRef { segments: 2, ..uu_bound(sym::FN, true, 1, sym::OUTPUT, unit) };
    assert!(pass.check_poly_trait_ref(&two, src).is_none());
    let bare = PolyTraitRef { args: None, ..uu_bound(sym::FN, true, 1, sym::OUTPUT, unit) };
    assert!(pass.check_poly_trait_ref(&bare, src).is_none());
}

#[test]
fn msrv_meets_when_undeclared_or_late_enough() {
    let need = RustcVersion { major: 1, minor: 85, patch: 0 };
    assert!(Msrv { version: None }.meets(need));
    assert!(Msrv { version: Some(need) }.meets(need));
    assert!(Msrv { version: Some(RustcVersion { major: 2, minor: 0, patch: 0 }) }.meets(need));
    assert!(Msrv { version: Some(RustcVersion { major: 1, minor: 85, patch: 1 }) }.meets(need));
    assert!(!Msrv { version: Some(RustcVersion { major: 1, minor: 84, patch: 99 }) }.meets(need));
    assert!(!Msrv { version: Some(RustcVersion { major: 0, minor: 99, patch: 0 }) }.meets(need));
    assert!(need.at_least(need));
}
