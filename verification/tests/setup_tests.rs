use lint_engine::deferred_const_shadow::DeferredConstShadow;
use lint_engine::finding::{Category, Lint, Message};
use lint_engine::replace_box::ReplaceBox;
use lint_engine::setup::{setup_step, Outcome, SetupStep};

#[test]
fn existing_file_is_only_replaced_on_demand() {
    assert_eq!(setup_step(false, true), SetupStep::Refuse);
    assert_eq!(setup_step(true, true), SetupStep::Write);
    assert_eq!(setup_step(false, false), SetupStep::Write);
    assert_eq!(setup_step(true, false), SetupStep::Write);
}

#[test]
fn outcomes_have_their_sentences() {
    assert_eq!(Outcome::AlreadyExists.message(), "error: `.dir-locals.el` already exists");
    assert_eq!(Outcome::of_write(false).message(), "error: unable to create file `.dir-locals.el`");
    assert_eq!(Outcome::of_write(true).message(), "info: created `.dir-locals.el`");
    assert_eq!(Outcome::of_remove(false).message(), "error: unable to remove `.dir-locals.el`");
    assert_eq!(Outcome::of_remove(true).message(), "info: removed `.dir-locals.el`");
    assert!(Outcome::AlreadyExists.is_error());
    assert!(Outcome::CreateFailed.is_error());
    assert!(Outcome::RemoveFailed.is_error());
    assert!(!Outcome::Created.is_error());
    assert!(!Outcome::Removed.is_error());
}

#[test]
fn passes_start_with_nothing_open() {
    assert_eq!(ReplaceBox::default().depth(), 0);
    assert_eq!(DeferredConstShadow::default().depth(), 0);
}

#[test]
fn every_lint_has_its_category() {
    assert_eq!(Lint::CopyThenBorrowMut.category(), Category::Suspicious);
    assert_eq!(Lint::DeferredConstShadow.category(), Category::Suspicious);
    assert_eq!(Lint::FlatMapIdentity.category(), Category::Complexity);
    assert_eq!(Lint::ManualSpanOperation.category(), Category::Internal);
    assert_eq!(Lint::MissingMsrv.category(), Category::Cargo);
    assert_eq!(Lint::MultipleInherentImpl.category(), Category::Restriction);
    assert_eq!(Lint::ReplaceBox.category(), Category::Perf);
    assert_eq!(Lint::UnusedUnit.category(), Category::Style);
}

#[test]
fn messages_read_as_sentences() {
    assert_eq!(Message::ShadowingConstUsed.text(), "using a shadowing constant defined later in the same scope");
    assert_eq!(
        Message::ShadowedConstUnused.text(),
        "this constant is shadowed in the current scope and will not be used"
    );
    assert_eq!(
        Message::ConstUsedBeforeDeclared.text(),
        "this constant is used earlier in the scope and should be declared before it is referenced"
    );
    assert_eq!(Message::MultipleImplementations.text(), "multiple implementations of this structure");
    assert_eq!(Message::OtherImplementationHere.text(), "another implementation can be found here");
    assert_eq!(Message::NewBox.text(), "creating a new box");
    assert_eq!(Message::NeedlessAllocation.text(), "this creates a needless allocation");
    assert_eq!(Message::ReplaceWithDefault.text(), "replace existing content with default instead");
    assert_eq!(Message::ReplaceWithInnerValue.text(), "replace existing content with inner value instead");
    assert_eq!(Message::CopiedThenBorrowed.text(), "mutable borrow of a value which was just copied");
    assert_eq!(Message::BuildReferenceInBlock.text(), "try building the reference inside the block");
    assert_eq!(Message::UnneededUnitExpression.text(), "unneeded unit expression");
    assert_eq!(Message::RemoveFinalUnit.text(), "remove the final `()`");
    assert_eq!(Message::RemoveUnit.text(), "remove the `()`");
    assert_eq!(Message::UnneededUnitReturn.text(), "unneeded unit return type");
    assert_eq!(Message::ManualSpanUntil.text(), "manual implementation of `Span::until()`");
    assert_eq!(Message::UseInstead.text(), "use instead");
    assert_eq!(Message::FlatMapWithIdentity.text(), "use of `flat_map` with an identity function");
    assert_eq!(Message::Try.text(), "try");
}
