use lint_engine::finding::{Category, Lint, Message};
use lint_engine::replace_box::{get_box_new_payload, is_default_call, ReplaceBox};
use lint_engine::span::Span;
use lint_engine::suggestion::Applicability;
use lint_engine::sym;
use lint_engine::tree::{Facts, NodeKind, PathForm, PathInfo, Pointee, Res, Tree};
use lint_engine::usage::{classify, MovedCache, Usage, UsageKind};

fn ub_facts() -> Facts {
    Facts {
        adjusted: false,
        copy: false,
        never: false,
        has_attrs: false,
        in_test: false,
        boxed: None,
        adt: None,
        peeled_adt: None,
    }
}

fn ub_boxed(implements_default: bool, sized: bool) -> Facts {
    Facts { boxed: Some(Pointee { implements_default, sized }), ..ub_facts() }
}

fn ub_binding(t: &mut Tree, initialized: bool) -> usize {
    t.add(
        NodeKind::Binding { mutable: true, by_ref: false, initialized },
        Span::new(0, 8, 9),
        ub_facts(),
        vec![],
    )
    .unwrap()
}

fn ub_local(t: &mut Tree, binding: usize, lo: u32, facts: Facts) -> usize {
    let info = PathInfo {
        form: PathForm::Resolved,
        res: Res::Local(binding),
        segments: 1,
        name: 50,
        infer_args: true,
    };
    t.add(NodeKind::Path(info), Span::new(0, lo, lo + 1), facts, vec![]).unwrap()
}

fn ub_callee(t: &mut Tree, form: PathForm, name: u32, lo: u32) -> usize {
    let info = PathInfo { form, res: Res::Other, segments: 2, name, infer_args: true };
    t.add(NodeKind::Path(info), Span::new(0, lo, lo + 8), ub_facts(), vec![]).unwrap()
}

/// `b = Default::default()` at 30..52, with `b` at 30..31
fn ub_default_assignment(t: &mut Tree, binding: usize, lhs_facts: Facts) -> usize {
    let lhs = ub_local(t, binding, 30, lhs_facts);
    let callee = ub_callee(t, PathForm::TypeRelative { on_box: false }, 60, 34);
    let rhs = t
        .add(NodeKind::Call { default_equivalent: true }, Span::new(0, 34, 52), ub_facts(), vec![callee])
        .unwrap();
    t.add(NodeKind::Assign, Span::new(0, 30, 52), ub_facts(), vec![lhs, rhs]).unwrap()
}

/// `b = Box::new(2)` at 60..75, with `b` at 60..61 and `2` at 73..74
fn ub_new_assignment(t: &mut Tree, binding: usize, lhs_facts: Facts) -> usize {
    let lhs = ub_local(t, binding, 60, lhs_facts);
    let callee = ub_callee(t, PathForm::TypeRelative { on_box: true }, sym::NEW, 64);
    let arg = t.add(NodeKind::Other, Span::new(0, 73, 74), ub_facts(), vec![]).unwrap();
    let rhs = t
        .add(
            NodeKind::Call { default_equivalent: false },
            Span::new(0, 64, 75),
            ub_facts(),
            vec![callee, arg],
        )
        .unwrap();
    t.add(NodeKind::Assign, Span::new(0, 60, 75), ub_facts(), vec![lhs, rhs]).unwrap()
}

#[test]
fn only_consumption_of_locals_moves() {
    let mut t = Tree::new();
    let a = ub_binding(&mut t, true);
    let b = ub_binding(&mut t, true);
    let c = ub_binding(&mut t, true);
    let d = ub_binding(&mut t, true);
    let ua = ub_local(&mut t, a, 10, ub_facts());
    let ub = ub_local(&mut t, b, 12, ub_facts());
    let uc = ub_local(&mut t, c, 14, ub_facts());
    let ud = ub_local(&mut t, d, 16, ub_facts());
    let other = t.add(NodeKind::Other, Span::new(0, 20, 21), ub_facts(), vec![]).unwrap();
    let events = vec![
        Usage { kind: UsageKind::Consume, local: true, node: ua },
        Usage { kind: UsageKind::Borrow, local: true, node: ub },
        Usage { kind: UsageKind::Mutate, local: true, node: uc },
        Usage { kind: UsageKind::FakeRead, local: true, node: uc },
        Usage { kind: UsageKind::Consume, local: false, node: ud },
        Usage { kind: UsageKind::Consume, local: true, node: other },
    ];
    let moved = classify(&t, &events);
    assert_eq!(moved.len(), 1);
    assert!(moved.contains(&a));
    assert!(!moved.contains(&b));
    assert!(!moved.contains(&c));
    assert!(!moved.contains(&d));
}

#[test]
fn moving_a_field_moves_the_variable() {
    let mut t = Tree::new();
    let a = ub_binding(&mut t, true);
    let x = ub_local(&mut t, a, 10, ub_facts());
    let xf = t.add(NodeKind::Field(3), Span::new(0, 10, 13), ub_facts(), vec![x]).unwrap();
    let events = vec![Usage { kind: UsageKind::Consume, local: true, node: xf }];
    let moved = classify(&t, &events);
    assert!(moved.contains(&a));
    assert_eq!(moved.len(), 1);
}

#[test]
fn moved_set_is_computed_once_per_body() {
    let mut t = Tree::new();
    let a = ub_binding(&mut t, true);
    let b = ub_binding(&mut t, true);
    let ua = ub_local(&mut t, a, 10, ub_facts());
    let ub = ub_local(&mut t, b, 12, ub_facts());
    let first = vec![Usage { kind: UsageKind::Consume, local: true, node: ua }];
    let other = vec![Usage { kind: UsageKind::Consume, local: true, node: ub }];
    let mut cache = MovedCache::new();
    assert_eq!(cache.depth(), 0);
    cache.enter_body();
    assert_eq!(cache.depth(), 1);
    assert!(!cache.is_computed());
    assert!(cache.is_moved(&t, &first, a));
    assert!(cache.is_computed());
    // The second query answers from the set that is kept, whatever is passed.
    assert!(cache.is_moved(&t, &other, a));
    assert!(!cache.is_moved(&t, &other, b));
    assert!(cache.is_moved(&t, &first, a));
    cache.enter_body();
    assert!(!cache.is_computed());
    assert!(cache.is_moved(&t, &other, b));
    assert!(!cache.is_moved(&t, &other, a));
    cache.leave_body();
    assert!(cache.is_computed());
    assert!(cache.is_moved(&t, &other, a));
    cache.leave_body();
    assert_eq!(cache.depth(), 0);
}

#[test]
fn default_assignment_to_initialized_box_is_rewritten() {
    let mut t = Tree::new();
    let b = ub_binding(&mut t, true);
    let assign = ub_default_assignment(&mut t, b, ub_boxed(true, true));
    let mut pass = ReplaceBox::new();
    pass.check_body();
    assert!(pass.needs_occurrences(&t, assign));
    let out = pass.check_expr(&t, assign, &vec![], Some("b"), None);
    assert!(!pass.needs_occurrences(&t, assign));
    assert_eq!(out.len(), 1);
    let f = &out[0];
    assert_eq!(f.lint, Lint::ReplaceBox);
    assert_eq!(f.category(), Category::Perf);
    assert_eq!(f.span, Span::new(0, 30, 52));
    assert_eq!(f.message, Message::NewBoxWithDefault);
    assert_eq!(f.message.text(), "creating a new box with default content");
    assert_eq!(f.note.unwrap().message, Message::NeedlessAllocation);
    assert_eq!(f.note.unwrap().span, None);
    let p = f.proposal.as_ref().unwrap();
    assert_eq!(p.help, Message::ReplaceWithDefault);
    assert_eq!(p.suggestion.len(), 1);
    assert_eq!(p.suggestion.edit(0).span, Span::new(0, 30, 52));
    assert_eq!(p.suggestion.edit(0).text, "*b = Default::default()");
    assert_eq!(p.suggestion.applicability(), Applicability::MachineApplicable);
    pass.check_body_post();
    assert_eq!(pass.depth(), 0);
}

#[test]
fn assignment_after_move_is_not_rewritten() {
    let mut t = Tree::new();
    let b = ub_binding(&mut t, true);
    let taken = ub_local(&mut t, b, 20, ub_boxed(true, true));
    let assign = ub_new_assignment(&mut t, b, ub_boxed(true, true));
    let events = vec![Usage { kind: UsageKind::Consume, local: true, node: taken }];
    let mut pass = ReplaceBox::new();
    pass.check_body();
    let out = pass.check_expr(&t, assign, &events, Some("b"), Some("2"));
    assert!(out.is_empty());
}

#[test]
fn new_box_assignment_is_rewritten_to_payload() {
    let mut t = Tree::new();
    let b = ub_binding(&mut t, true);
    let borrowed = ub_local(&mut t, b, 20, ub_boxed(false, true));
    let assign = ub_new_assignment(&mut t, b, ub_boxed(false, true));
    let events = vec![Usage { kind: UsageKind::Borrow, local: true, node: borrowed }];
    let mut pass = ReplaceBox::new();
    pass.check_body();
    let out = pass.check_expr(&t, assign, &events, Some("b"), Some("2"));
    assert_eq!(out.len(), 1);
    assert_eq!(out[0].message, Message::NewBox);
    let p = out[0].proposal.as_ref().unwrap();
    assert_eq!(p.help, Message::ReplaceWithInnerValue);
    assert_eq!(p.suggestion.edit(0).text, "*b = 2");
    assert_eq!(p.suggestion.edit(0).span, Span::new(0, 60, 75));
    assert_eq!(p.suggestion.applicability(), Applicability::MachineApplicable);
}

#[test]
fn missing_text_gives_a_finding_without_a_rewrite() {
    let mut t = Tree::new();
    let b = ub_binding(&mut t, true);
    let assign = ub_new_assignment(&mut t, b, ub_boxed(false, true));
    let mut pass = ReplaceBox::new();
    pass.check_body();
    let out = pass.check_expr(&t, assign, &vec![], Some("b"), None);
    assert_eq!(out.len(), 1);
    assert_eq!(out[0].message, Message::NewBox);
    assert_eq!(out[0].span, Span::new(0, 60, 75));
    assert_eq!(out[0].note.unwrap().message, Message::NeedlessAllocation);
    assert!(out[0].proposal.is_none());
    let mut again = ReplaceBox::new();
    again.check_body();
    let out = again.check_expr(&t, assign, &vec![], None, Some("2"));
    assert_eq!(out.len(), 1);
    assert_eq!(out[0].message, Message::NewBox);
    assert!(out[0].proposal.is_none());
    let mut t = Tree::new();
    let b = ub_binding(&mut t, true);
    let assign = ub_default_assignment(&mut t, b, ub_boxed(true, true));
    let mut pass = ReplaceBox::new();
    pass.check_body();
    let out = pass.check_expr(&t, assign, &vec![], None, None);
    assert_eq!(out.len(), 1);
    assert_eq!(out[0].message, Message::NewBoxWithDefault);
    assert!(out[0].proposal.is_none());
}

#[test]
fn unsized_pointee_is_not_reported() {
    let mut t = Tree::new();
    let b = ub_binding(&mut t, true);
    let by_default = ub_default_assignment(&mut t, b, ub_boxed(true, false));
    let by_new = ub_new_assignment(&mut t, b, ub_boxed(true, false));
    let mut pass = ReplaceBox::new();
    pass.check_body();
    assert!(pass.check_expr(&t, by_default, &vec![], Some("b"), None).is_empty());
    assert!(pass.check_expr(&t, by_new, &vec![], Some("b"), Some("2")).is_empty());
    pass.check_body_post();
    assert_eq!(pass.depth(), 0);
}

#[test]
fn late_initialized_local_is_not_reported() {
    let mut t = Tree::new();
    let b = ub_binding(&mut t, false);
    let assign = ub_default_assignment(&mut t, b, ub_boxed(true, true));
    let mut pass = ReplaceBox::new();
    pass.check_body();
    assert!(!pass.needs_occurrences(&t, assign));
    assert!(pass.check_expr(&t, assign, &vec![], Some("b"), None).is_empty());
}

#[test]
fn unsized_or_defaultless_pointee_is_not_reported() {
    let mut t = Tree::new();
    let b = ub_binding(&mut t, true);
    let unsized_new = ub_new_assignment(&mut t, b, ub_boxed(true, false));
    let no_default = ub_default_assignment(&mut t, b, ub_boxed(false, true));
    let not_a_box = ub_default_assignment(&mut t, b, ub_facts());
    let mut pass = ReplaceBox::new();
    pass.check_body();
    assert!(pass.check_expr(&t, unsized_new, &vec![], Some("b"), Some("2")).is_empty());
    assert!(pass.check_expr(&t, no_default, &vec![], Some("b"), None).is_empty());
    assert!(pass.check_expr(&t, not_a_box, &vec![], Some("b"), None).is_empty());
    assert!(pass.check_expr(&t, b, &vec![], None, None).is_empty());
    assert!(pass.check_expr(&t, 1000, &vec![], None, None).is_empty());
}

#[test]
fn field_target_is_dereferenced_without_parentheses() {
    let mut t = Tree::new();
    let b = ub_binding(&mut t, true);
    let x = ub_local(&mut t, b, 30, ub_facts());
    let lhs = t.add(NodeKind::Field(9), Span::new(0, 30, 33), ub_boxed(true, true), vec![x]).unwrap();
    let callee = ub_callee(&mut t, PathForm::Resolved, 60, 36);
    let rhs = t
        .add(NodeKind::Call { default_equivalent: true }, Span::new(0, 36, 54), ub_facts(), vec![callee])
        .unwrap();
    let assign = t.add(NodeKind::Assign, Span::new(0, 30, 54), ub_facts(), vec![lhs, rhs]).unwrap();
    let other = t.add(NodeKind::Other, Span::new(0, 70, 72), ub_boxed(true, true), vec![]).unwrap();
    let callee2 = ub_callee(&mut t, PathForm::Resolved, 60, 75);
    let rhs2 = t
        .add(NodeKind::Call { default_equivalent: true }, Span::new(0, 75, 93), ub_facts(), vec![callee2])
        .unwrap();
    let assign2 = t.add(NodeKind::Assign, Span::new(0, 70, 93), ub_facts(), vec![other, rhs2]).unwrap();
    let mut pass = ReplaceBox::new();
    pass.check_body();
    let out = pass.check_expr(&t, assign, &vec![], Some("s.f"), None);
    assert_eq!(out[0].proposal.as_ref().unwrap().suggestion.edit(0).text, "*s.f = Default::default()");
    let out = pass.check_expr(&t, assign2, &vec![], Some("*p"), None);
    assert_eq!(out[0].proposal.as_ref().unwrap().suggestion.edit(0).text, "*(*p) = Default::default()");
}

#[test]
fn payload_from_other_context_lowers_confidence() {
    let mut t = Tree::new();
    let b = ub_binding(&mut t, true);
    let lhs = ub_local(&mut t, b, 60, ub_boxed(false, true));
    let callee = ub_callee(&mut t, PathForm::TypeRelative { on_box: true }, sym::NEW, 64);
    let arg = t.add(NodeKind::Other, Span::with_ctxt(0, 73, 74, 5), ub_facts(), vec![]).unwrap();
    let rhs = t
        .add(
            NodeKind::Call { default_equivalent: false },
            Span::new(0, 64, 75),
            ub_facts(),
            vec![callee, arg],
        )
        .unwrap();
    let assign = t.add(NodeKind::Assign, Span::new(0, 60, 75), ub_facts(), vec![lhs, rhs]).unwrap();
    let mut pass = ReplaceBox::new();
    pass.check_body();
    let out = pass.check_expr(&t, assign, &vec![], Some("b"), Some("m!()"));
    assert_eq!(out[0].proposal.as_ref().unwrap().suggestion.applicability(), Applicability::MaybeIncorrect);
    assert_eq!(get_box_new_payload(&t, rhs), Some(arg));
    assert_eq!(get_box_new_payload(&t, lhs), None);
    assert!(!is_default_call(&t, rhs));
}

#[test]
fn both_findings_can_come_for_one_assignment() {
    let mut t = Tree::new();
    let b = ub_binding(&mut t, true);
    let lhs = ub_local(&mut t, b, 60, ub_boxed(true, true));
    let callee = ub_callee(&mut t, PathForm::TypeRelative { on_box: true }, sym::NEW, 64);
    let arg = t.add(NodeKind::Other, Span::new(0, 73, 74), ub_facts(), vec![]).unwrap();
    let rhs = t
        .add(
            NodeKind::Call { default_equivalent: true },
            Span::new(0, 64, 75),
            ub_facts(),
            vec![callee, arg],
        )
        .unwrap();
    let assign = t.add(NodeKind::Assign, Span::new(0, 60, 75), ub_facts(), vec![lhs, rhs]).unwrap();
    let mut pass = ReplaceBox::new();
    pass.check_body();
    let out = pass.check_expr(&t, assign, &vec![], Some("b"), Some("0"));
    assert_eq!(out.len(), 2);
    assert_eq!(out[0].message, Message::NewBoxWithDefault);
    assert_eq!(out[1].message, Message::NewBox);
}
