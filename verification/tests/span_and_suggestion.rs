use lint_engine::span::{Span, ROOT_CTXT};
use lint_engine::suggestion::{Applicability, EditError, Suggestion, SuggestionBuilder};

#[test]
fn span_new_orders_its_bounds() {
    let s = Span::new(3, 20, 10);
    assert_eq!(s.file(), 3);
    assert_eq!(s.lo(), 10);
    assert_eq!(s.hi(), 20);
    assert_eq!(s.ctxt(), ROOT_CTXT);
    assert!(!s.from_expansion());
}

#[test]
fn span_from_expansion_is_told_by_context() {
    let user = Span::new(0, 1, 2);
    let made = Span::with_ctxt(0, 1, 2, 7);
    assert!(made.from_expansion());
    assert!(!user.eq_ctxt(made));
    assert!(made.eq_ctxt(Span::with_ctxt(1, 5, 9, 7)));
    assert_ne!(user, made);
}

#[test]
fn span_precedes_by_start_then_end_then_context() {
    let a = Span::new(0, 10, 20);
    assert!(a.precedes(Span::new(0, 11, 12)));
    assert!(a.precedes(Span::new(0, 10, 21)));
    assert!(a.precedes(Span::with_ctxt(0, 10, 20, 1)));
    assert!(!a.precedes(a));
    assert!(!a.precedes(Span::new(0, 9, 30)));
}

#[test]
fn span_overlap_needs_a_shared_byte_of_one_file() {
    let a = Span::new(0, 10, 20);
    assert!(a.overlaps(Span::new(0, 19, 25)));
    assert!(!a.overlaps(Span::new(0, 20, 25)));
    assert!(!a.overlaps(Span::new(1, 10, 20)));
    // An empty span at the start of another shares no byte with it.
    assert!(!a.overlaps(Span::new(0, 10, 10)));
    assert!(a.overlaps(Span::new(0, 11, 11)));
}

#[test]
fn span_operations_give_exact_ranges() {
    let a = Span::new(2, 10, 20);
    let b = Span::new(2, 30, 40);
    assert_eq!(a.with_lo(15), Span::new(2, 15, 20));
    assert_eq!(a.with_lo(25), Span::new(2, 20, 25));
    assert_eq!(a.with_hi(12), Span::new(2, 10, 12));
    assert_eq!(a.shrink_to_lo(), Span::new(2, 10, 10));
    assert_eq!(a.until(b), Span::new(2, 10, 30));
    assert_eq!(a.between(b), Span::new(2, 20, 30));
    assert!(a.same_file(b));
    assert!(!a.same_file(Span::new(3, 10, 20)));
}

#[test]
fn span_joined_with_expanded_end_keeps_own_context() {
    let a = Span::with_ctxt(0, 1, 5, 4);
    let root_end = Span::new(0, 9, 12);
    let made_end = Span::with_ctxt(0, 9, 12, 6);
    assert_eq!(a.until(root_end), Span::new(0, 1, 9));
    assert_eq!(a.until(made_end), Span::with_ctxt(0, 1, 9, 4));
}

#[test]
fn builder_rejects_overlapping_edit() {
    let mut b = SuggestionBuilder::new();
    assert_eq!(b.add_edit(Span::new(0, 10, 20), String::from("x")), Ok(()));
    assert_eq!(
        b.add_edit(Span::new(0, 15, 25), String::from("y")),
        Err(EditError::Overlap { existing: 0 })
    );
    assert_eq!(b.len(), 1);
    let s = b.finalize(Applicability::MaybeIncorrect);
    assert_eq!(s.len(), 1);
    assert_eq!(s.edit(0).text, "x");
    assert_eq!(s.applicability(), Applicability::MaybeIncorrect);
}

#[test]
fn builder_names_first_overlapping_edit() {
    let mut b = SuggestionBuilder::new();
    assert!(b.add_edit(Span::new(0, 0, 5), String::new()).is_ok());
    assert!(b.add_edit(Span::new(0, 10, 20), String::new()).is_ok());
    assert!(b.add_edit(Span::new(0, 30, 40), String::new()).is_ok());
    assert_eq!(
        b.add_edit(Span::new(0, 12, 35), String::new()),
        Err(EditError::Overlap { existing: 1 })
    );
    assert_eq!(b.len(), 3);
}

#[test]
fn builder_keeps_edits_in_source_order() {
    let mut b = SuggestionBuilder::new();
    assert!(b.add_edit(Span::new(0, 10, 12), String::from("late")).is_ok());
    assert!(b.add_edit(Span::new(0, 2, 4), String::from("early")).is_ok());
    assert!(b.add_edit(Span::new(0, 4, 4), String::from("mid")).is_ok());
    let s = b.finalize(Applicability::MachineApplicable);
    assert_eq!(s.len(), 3);
    assert_eq!(s.edit(0).text, "early");
    assert_eq!(s.edit(1).text, "mid");
    assert_eq!(s.edit(2).text, "late");
}

#[test]
fn edits_in_other_files_never_overlap() {
    let mut b = SuggestionBuilder::new();
    assert!(b.add_edit(Span::new(1, 0, 10), String::from("b")).is_ok());
    assert!(b.add_edit(Span::new(0, 0, 10), String::from("a")).is_ok());
    let s = b.finalize(Applicability::Unspecified);
    assert_eq!(s.edit(0).span.file(), 0);
    assert_eq!(s.edit(1).span.file(), 1);
}

#[test]
fn apply_replaces_against_the_unedited_text() {
    // let r = &mut unsafe { f(&mut a); a };
    let text = b"let r = &mut { a };".to_vec();
    let mut b = SuggestionBuilder::new();
    // remove "&mut " in front of the block, put it in front of `a`
    assert!(b.add_edit(Span::new(0, 15, 15), String::from("&mut ")).is_ok());
    assert!(b.add_edit(Span::new(0, 8, 13), String::new()).is_ok());
    let s = b.finalize(Applicability::MachineApplicable);
    let out = s.apply(0, &text);
    assert_eq!(out, Some(b"let r = { &mut a };".to_vec()));
}

#[test]
fn apply_accumulates_offsets_forward() {
    let text = b"0123456789".to_vec();
    let mut b = SuggestionBuilder::new();
    assert!(b.add_edit(Span::new(0, 1, 3), String::from("abcd")).is_ok());
    assert!(b.add_edit(Span::new(0, 5, 6), String::new()).is_ok());
    assert!(b.add_edit(Span::new(0, 8, 8), String::from("+")).is_ok());
    let s = b.finalize(Applicability::MachineApplicable);
    assert_eq!(s.apply(0, &text), Some(b"0abcd3467+89".to_vec()));
}

#[test]
fn apply_without_edits_gives_the_text_back() {
    let s = SuggestionBuilder::new().finalize(Applicability::Unspecified);
    assert_eq!(s.apply(4, &b"abc".to_vec()), Some(b"abc".to_vec()));
}

#[test]
fn apply_refuses_edits_that_do_not_fit() {
    let s = Suggestion::single(Span::new(0, 2, 9), String::from("x"), Applicability::MachineApplicable);
    assert_eq!(s.apply(0, &b"abc".to_vec()), None);
    assert_eq!(s.apply(1, &b"abcdefghijkl".to_vec()), None);
    assert_eq!(s.apply(0, &b"abcdefghijkl".to_vec()), Some(b"abxjkl".to_vec()));
}

#[test]
fn apply_writes_replacement_as_utf8() {
    let s = Suggestion::single(Span::new(0, 1, 2), String::from("é"), Applicability::MachineApplicable);
    assert_eq!(s.apply(0, &b"abc".to_vec()), Some(vec![b'a', 0xc3, 0xa9, b'c']));
}

#[test]
fn pair_of_overlapping_edits_is_no_suggestion() {
    let none = Suggestion::pair(
        Span::new(0, 0, 10),
        String::new(),
        Span::new(0, 5, 5),
        String::from("x"),
        Applicability::MachineApplicable,
    );
    assert!(none.is_none());
    let some = Suggestion::pair(
        Span::new(0, 20, 30),
        String::from("b"),
        Span::new(0, 5, 5),
        String::from("a"),
        Applicability::HasPlaceholders,
    );
    let s = some.unwrap();
    assert_eq!(s.len(), 2);
    assert_eq!(s.edit(0).text, "a");
    assert_eq!(s.edit(1).text, "b");
    assert_eq!(s.applicability(), Applicability::HasPlaceholders);
}
