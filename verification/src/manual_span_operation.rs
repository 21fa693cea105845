//! `a.with_hi(b.lo())` on spans: `a.until(b)` says the same.

use vstd::prelude::*;
use vstd::string::StringExecFns;
use crate::finding::{Finding, FindingView, Lint, Message, Proposal, ProposalView};
use crate::span::Span;
use crate::suggestion::{Applicability, EditView, Suggestion, SuggestionView, pair_edits};
use crate::sym;
use crate::tree::{NodeKind, NodeView, Tree};

verus! {

/// The span of the name of the outer method, and the span from the end of
/// the inner receiver to the end of the inner call, where expression `e` is
/// a call of `with_hi` on a span with the `lo` of a span as its argument.
pub open spec fn manual_until(t: Seq<NodeView>, e: int) -> Option<(Span, Span)> {
    if 0 <= e < t.len() && (t[e].kind matches NodeKind::MethodCall { name, .. } && name
        == sym::WITH_HI) && t[e].children.len() == 2 && (t[t[e].children[1] as int].kind
        matches NodeKind::MethodCall { name, .. } && name == sym::LO) && t[t[e].children[1] as int].children.len()
        == 1 && (t[t[e].children[0] as int].facts.peeled_adt matches Some(outer) && outer.is_span
        && (t[t[t[e].children[1] as int].children[0] as int].facts.adt matches Some(inner)
        && inner.def == outer.def)) {
        let arg = t[e].children[1] as int;
        Some(
            (
                t[e].kind->MethodCall_name_span,
                t[arg].span.spec_with_lo(t[t[arg].children[0] as int].span.spec_hi()),
            ),
        )
    } else {
        None
    }
}

/// The finding on a manual `until` at `span`: the name of the method is
/// replaced, and the call of `lo` is removed. No rewrite is proposed where
/// the two edits would overlap.
pub open spec fn until_finding(span: Span, name: Span, call: Span) -> FindingView {
    FindingView {
        lint: Lint::ManualSpanOperation,
        span,
        message: Message::ManualSpanUntil,
        note: None,
        help: None,
        proposal: match pair_edits(
            EditView { span: name, text: "until"@ },
            EditView { span: call, text: Seq::<char>::empty() },
        ) {
            Some(edits) => Some(
                ProposalView {
                    help: Message::UseInstead,
                    suggestion: SuggestionView {
                        edits,
                        applicability: Applicability::MachineApplicable,
                    },
                },
            ),
            None => None,
        },
    }
}

/// The pass that reports span operations written out by hand.
#[derive(Clone, Copy, Debug)]
pub struct ManualSpanOperation {}

impl ManualSpanOperation {
    /// The finding on expression `e`.
    pub fn check_expr(&self, tree: &Tree, e: usize) -> (r: Option<Finding>)
        ensures
            match r {
                Some(f) => manual_until(tree@, e as int) matches Some((name, call)) && f@
                    == until_finding(tree@[e as int].span, name, call),
                None => manual_until(tree@, e as int) is None,
            },
    {
        if e >= tree.len() {
            return None;
        }
        let name_span: Span = match tree.kind(e) {
            NodeKind::MethodCall { name, name_span, .. } => {
                if name != sym::WITH_HI {
                    return None;
                }
                name_span
            },
            _ => {
                return None;
            },
        };
        if tree.child_count(e) != 2 {
            return None;
        }
        let receiver: usize = tree.child(e, 0);
        let arg: usize = tree.child(e, 1);
        match tree.kind(arg) {
            NodeKind::MethodCall { name, .. } => {
                if name != sym::LO {
                    return None;
                }
            },
            _ => {
                return None;
            },
        }
        if tree.child_count(arg) != 1 {
            return None;
        }
        let inner_receiver: usize = tree.child(arg, 0);
        let outer = match tree.facts(receiver).peeled_adt {
            Some(a) => a,
            None => {
                return None;
            },
        };
        let inner = match tree.facts(inner_receiver).adt {
            Some(a) => a,
            None => {
                return None;
            },
        };
        if !outer.is_span || inner.def != outer.def {
            return None;
        }
        let span: Span = tree.span(e);
        let call: Span = tree.span(arg).with_lo(tree.span(inner_receiver).hi());
        let proposal: Option<Proposal> = match Suggestion::pair(
            name_span,
            String::from_str("until"),
            call,
            String::new(),
            Applicability::MachineApplicable,
        ) {
            Some(suggestion) => Some(Proposal { help: Message::UseInstead, suggestion }),
            None => None,
        };
        Some(
            Finding {
                lint: Lint::ManualSpanOperation,
                span,
                message: Message::ManualSpanUntil,
                note: None,
                help: None,
                proposal,
            },
        )
    }
}

} // verus!
