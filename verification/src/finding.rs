//! What a pass hands to the reporting sink: one record per finding.

use vstd::prelude::*;
use crate::span::Span;
use crate::suggestion::{Suggestion, SuggestionView};

verus! {

/// The passes of this library.
#[derive(Clone, Copy, Debug, PartialEq, Eq, Hash, Structural)]
pub enum Lint {
    CopyThenBorrowMut,
    DeferredConstShadow,
    FlatMapIdentity,
    ManualSpanOperation,
    MissingMsrv,
    MultipleInherentImpl,
    ReplaceBox,
    UnusedUnit,
}

/// The group a pass belongs to, which decides how severe its findings are.
#[derive(Clone, Copy, Debug, PartialEq, Eq, Hash, Structural)]
pub enum Category {
    Cargo,
    Complexity,
    Internal,
    Perf,
    Restriction,
    Style,
    Suspicious,
}

impl Lint {
    pub open spec fn spec_category(self) -> Category {
        match self {
            Lint::CopyThenBorrowMut => Category::Suspicious,
            Lint::DeferredConstShadow => Category::Suspicious,
            Lint::FlatMapIdentity => Category::Complexity,
            Lint::ManualSpanOperation => Category::Internal,
            Lint::MissingMsrv => Category::Cargo,
            Lint::MultipleInherentImpl => Category::Restriction,
            Lint::ReplaceBox => Category::Perf,
            Lint::UnusedUnit => Category::Style,
        }
    }

    /// The group of the pass.
    pub fn category(self) -> (c: Category)
        ensures
            c == self.spec_category(),
    {
        match self {
            Lint::CopyThenBorrowMut => Category::Suspicious,
            Lint::DeferredConstShadow => Category::Suspicious,
            Lint::FlatMapIdentity => Category::Complexity,
            Lint::ManualSpanOperation => Category::Internal,
            Lint::MissingMsrv => Category::Cargo,
            Lint::MultipleInherentImpl => Category::Restriction,
            Lint::ReplaceBox => Category::Perf,
            Lint::UnusedUnit => Category::Style,
        }
    }
}

/// The sentences that findings are made of.
#[derive(Clone, Copy, Debug, PartialEq, Eq, Hash, Structural)]
pub enum Message {
    ShadowingConstUsed,
    ShadowedConstUnused,
    ConstUsedBeforeDeclared,
    MultipleImplementations,
    OtherImplementationHere,
    NewBoxWithDefault,
    NewBox,
    NeedlessAllocation,
    ReplaceWithDefault,
    ReplaceWithInnerValue,
    CopiedThenBorrowed,
    BuildReferenceInBlock,
    UnneededUnitExpression,
    RemoveFinalUnit,
    UnneededUnit,
    RemoveUnit,
    UnneededUnitReturn,
    RemoveUnitReturn,
    ManualSpanUntil,
    UseInstead,
    FlatMapWithIdentity,
    Try,
    MissingRustVersion,
}

impl Message {
    pub open spec fn spec_text(self) -> Seq<char> {
        match self {
            Message::ShadowingConstUsed => "using a shadowing constant defined later in the same scope"@,
            Message::ShadowedConstUnused => "this constant is shadowed in the current scope and will not be used"@,
            Message::ConstUsedBeforeDeclared => "this constant is used earlier in the scope and should be declared before it is referenced"@,
            Message::MultipleImplementations => "multiple implementations of this structure"@,
            Message::OtherImplementationHere => "another implementation can be found here"@,
            Message::NewBoxWithDefault => "creating a new box with default content"@,
            Message::NewBox => "creating a new box"@,
            Message::NeedlessAllocation => "this creates a needless allocation"@,
            Message::ReplaceWithDefault => "replace existing content with default instead"@,
            Message::ReplaceWithInnerValue => "replace existing content with inner value instead"@,
            Message::CopiedThenBorrowed => "mutable borrow of a value which was just copied"@,
            Message::BuildReferenceInBlock => "try building the reference inside the block"@,
            Message::UnneededUnitExpression => "unneeded unit expression"@,
            Message::RemoveFinalUnit => "remove the final `()`"@,
            Message::UnneededUnit => "unneeded `()`"@,
            Message::RemoveUnit => "remove the `()`"@,
            Message::UnneededUnitReturn => "unneeded unit return type"@,
            Message::RemoveUnitReturn => "remove the `-> ()`"@,
            Message::ManualSpanUntil => "manual implementation of `Span::until()`"@,
            Message::UseInstead => "use instead"@,
            Message::FlatMapWithIdentity => "use of `flat_map` with an identity function"@,
            Message::Try => "try"@,
            Message::MissingRustVersion => "missing `rust-version` field"@,
        }
    }

    /// The sentence in words.
    pub fn text(self) -> (t: &'static str)
        ensures
            t@ == self.spec_text(),
    {
        match self {
            Message::ShadowingConstUsed => "using a shadowing constant defined later in the same scope",
            Message::ShadowedConstUnused => "this constant is shadowed in the current scope and will not be used",
            Message::ConstUsedBeforeDeclared => "this constant is used earlier in the scope and should be declared before it is referenced",
            Message::MultipleImplementations => "multiple implementations of this structure",
            Message::OtherImplementationHere => "another implementation can be found here",
            Message::NewBoxWithDefault => "creating a new box with default content",
            Message::NewBox => "creating a new box",
            Message::NeedlessAllocation => "this creates a needless allocation",
            Message::ReplaceWithDefault => "replace existing content with default instead",
            Message::ReplaceWithInnerValue => "replace existing content with inner value instead",
            Message::CopiedThenBorrowed => "mutable borrow of a value which was just copied",
            Message::BuildReferenceInBlock => "try building the reference inside the block",
            Message::UnneededUnitExpression => "unneeded unit expression",
            Message::RemoveFinalUnit => "remove the final `()`",
            Message::UnneededUnit => "unneeded `()`",
            Message::RemoveUnit => "remove the `()`",
            Message::UnneededUnitReturn => "unneeded unit return type",
            Message::RemoveUnitReturn => "remove the `-> ()`",
            Message::ManualSpanUntil => "manual implementation of `Span::until()`",
            Message::UseInstead => "use instead",
            Message::FlatMapWithIdentity => "use of `flat_map` with an identity function",
            Message::Try => "try",
            Message::MissingRustVersion => "missing `rust-version` field",
        }
    }
}

/// A remark attached to a finding, with the place it speaks of where it
/// speaks of one.
#[derive(Clone, Copy, Debug, PartialEq, Eq, Structural)]
pub struct Remark {
    pub span: Option<Span>,
    pub message: Message,
}

/// A rewrite offered with a finding, and the sentence that introduces it.
#[derive(Debug)]
pub struct Proposal {
    pub help: Message,
    pub suggestion: Suggestion,
}

/// The mathematical value of a [`Proposal`].
pub struct ProposalView {
    pub help: Message,
    pub suggestion: SuggestionView,
}

impl View for Proposal {
    type V = ProposalView;

    open spec fn view(&self) -> ProposalView {
        ProposalView { help: self.help, suggestion: self.suggestion@ }
    }
}

/// One finding: where it is, what it says, and how to mend it where a
/// mechanical rewrite is known.
#[derive(Debug)]
pub struct Finding {
    pub lint: Lint,
    pub span: Span,
    pub message: Message,
    pub note: Option<Remark>,
    pub help: Option<Remark>,
    pub proposal: Option<Proposal>,
}

/// The mathematical value of a [`Finding`].
pub struct FindingView {
    pub lint: Lint,
    pub span: Span,
    pub message: Message,
    pub note: Option<Remark>,
    pub help: Option<Remark>,
    pub proposal: Option<ProposalView>,
}

impl View for Finding {
    type V = FindingView;

    open spec fn view(&self) -> FindingView {
        FindingView {
            lint: self.lint,
            span: self.span,
            message: self.message,
            note: self.note,
            help: self.help,
            proposal: match self.proposal {
                Some(p) => Some(p@),
                None => None,
            },
        }
    }
}

/// The views of a sequence of findings.
pub open spec fn finding_views(findings: Seq<Finding>) -> Seq<FindingView> {
    Seq::new(findings.len(), |i: int| findings[i]@)
}

impl Finding {
    /// The group that decides how severe the finding is.
    pub fn category(&self) -> (c: Category)
        ensures
            c == self@.lint.spec_category(),
    {
        self.lint.category()
    }
}

} // verus!
