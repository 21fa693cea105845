//! `flat_map` with the identity function: `flatten` says the same.

use vstd::prelude::*;
use vstd::string::StringExecFns;
use crate::finding::{Finding, FindingView, Lint, Message, Proposal, ProposalView};
use crate::mapfunc::MapFunc;
use crate::span::Span;
use crate::suggestion::{Applicability, EditView, Suggestion, SuggestionView};
use crate::tree::{NodeKind, NodeView, Tree};

verus! {

/// Whether the call `e` is a call of a method of iterators whose argument
/// `arg` is the identity function and says nothing of types.
pub open spec fn flat_map_of_identity(t: Seq<NodeView>, e: int, arg: int) -> bool {
    &&& 0 <= e < t.len()
    &&& t[e].kind matches NodeKind::MethodCall { iterator_method, .. }
    &&& iterator_method
    &&& MapFunc::spec_from(t, arg).spec_is_untyped_identity(t)
}

/// The finding on a `flat_map` whose name starts at `flat_map_span` and
/// whose call ends where `call` ends.
pub open spec fn flatten_finding(call: Span, flat_map_span: Span) -> FindingView {
    let span = flat_map_span.spec_with_hi(call.spec_hi());
    FindingView {
        lint: Lint::FlatMapIdentity,
        span,
        message: Message::FlatMapWithIdentity,
        note: None,
        help: None,
        proposal: Some(
            ProposalView {
                help: Message::Try,
                suggestion: SuggestionView {
                    edits: seq![EditView { span, text: "flatten()"@ }],
                    applicability: Applicability::MachineApplicable,
                },
            },
        ),
    }
}

/// The finding on the method call `expr` with the argument `flat_map_arg`,
/// the name of the method being at `flat_map_span`.
pub fn check(tree: &Tree, expr: usize, flat_map_arg: usize, flat_map_span: Span) -> (r: Option<
    Finding,
>)
    ensures
        match r {
            Some(f) => flat_map_of_identity(tree@, expr as int, flat_map_arg as int) && f@
                == flatten_finding(tree@[expr as int].span, flat_map_span),
            None => !flat_map_of_identity(tree@, expr as int, flat_map_arg as int),
        },
{
    if expr >= tree.len() {
        return None;
    }
    match tree.kind(expr) {
        NodeKind::MethodCall { iterator_method, .. } => {
            if !iterator_method {
                return None;
            }
        },
        _ => {
            return None;
        },
    }
    if !MapFunc::from(tree, flat_map_arg).is_expr_untyped_identity_function(tree) {
        return None;
    }
    let span: Span = flat_map_span.with_hi(tree.span(expr).hi());
    Some(
        Finding {
            lint: Lint::FlatMapIdentity,
            span,
            message: Message::FlatMapWithIdentity,
            note: None,
            help: None,
            proposal: Some(
                Proposal {
                    help: Message::Try,
                    suggestion: Suggestion::single(
                        span,
                        String::from_str("flatten()"),
                        Applicability::MachineApplicable,
                    ),
                },
            ),
        },
    )
}

} // verus!
