//! The pieces of source text that rewrites are made of.

use vstd::prelude::*;
use crate::suggestion::Applicability;
use crate::tree::NodeKind;

verus! {

/// The view of an optional text.
pub open spec fn text_of(text: Option<&str>) -> Option<Seq<char>> {
    match text {
        Some(s) => Some(s@),
        None => None,
    }
}

/// Whether an expression of this kind can stand behind a prefix operator
/// without parentheses.
pub open spec fn binds_tightly(kind: NodeKind) -> bool {
    match kind {
        NodeKind::Path(_) => true,
        NodeKind::Field(_) => true,
        NodeKind::Index => true,
        NodeKind::Tup => true,
        NodeKind::Call { .. } => true,
        NodeKind::MethodCall { .. } => true,
        NodeKind::Block { .. } => true,
        _ => false,
    }
}

/// Whether an expression of this kind can stand behind a prefix operator
/// without parentheses.
pub fn tight(kind: NodeKind) -> (r: bool)
    ensures
        r == binds_tightly(kind),
{
    match kind {
        NodeKind::Path(_) => true,
        NodeKind::Field(_) => true,
        NodeKind::Index => true,
        NodeKind::Tup => true,
        NodeKind::Call { .. } => true,
        NodeKind::MethodCall { .. } => true,
        NodeKind::Block { .. } => true,
        _ => false,
    }
}

/// The confidence in a rewrite after one more piece of source text went
/// into it: text that a macro produced makes a rewrite that was classified
/// doubtful.
pub open spec fn lowered(app: Applicability, from_expansion: bool) -> Applicability {
    if app != Applicability::Unspecified && from_expansion {
        Applicability::MaybeIncorrect
    } else {
        app
    }
}

/// The confidence in a rewrite after one more piece of source text went
/// into it.
pub fn lower(app: Applicability, from_expansion: bool) -> (r: Applicability)
    ensures
        r == lowered(app, from_expansion),
{
    if app != Applicability::Unspecified && from_expansion {
        Applicability::MaybeIncorrect
    } else {
        app
    }
}

} // verus!
