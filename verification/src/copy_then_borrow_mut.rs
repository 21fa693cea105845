//! A mutable borrow of a block that yields a copy of a variable: the
//! reference points at the copy, not at the variable.

use vstd::prelude::*;
use vstd::string::StringExecFns;
use crate::conf::Conf;
use crate::finding::{Finding, FindingView, Lint, Message, Proposal, ProposalView};
use crate::span::Span;
use crate::suggestion::{Applicability, EditView, Suggestion, SuggestionView, pair_edits};
use crate::tree::{NodeKind, NodeView, PathForm, Res, Tree, enclosing_block};

verus! {

/// The expression that `e` is a part of: field accesses and indexing are
/// peeled off.
pub open spec fn peeled_base(t: Seq<NodeView>, e: int) -> int
    decreases e,
{
    if 0 <= e < t.len() && (t[e].kind is Field || t[e].kind is Index) && t[e].children.len() >= 1
        && t[e].children[0] < e {
        peeled_base(t, t[e].children[0] as int)
    } else {
        e
    }
}

/// Whether block `block` is among the blocks around node `i`.
pub open spec fn enclosed_by(t: Seq<NodeView>, i: int, block: int) -> bool
    decreases t.len() - i,
{
    match enclosing_block(t, i) {
        Some(p) => p == block || (i < p < t.len() && enclosed_by(t, p as int, block)),
        None => false,
    }
}

/// The binding of the mutable local variable that expression `e` is, or is
/// a part of.
pub open spec fn mutable_local(t: Seq<NodeView>, e: int) -> Option<usize> {
    let base = peeled_base(t, e);
    if 0 <= base < t.len() && (t[base].kind matches NodeKind::Path(info) && info.form
        == PathForm::Resolved && (info.res matches Res::Local(b) && b < t.len() && (t[b as int].kind
        matches NodeKind::Binding { mutable, .. } && mutable))) {
        Some(t[base].kind->Path_0.res->Local_0)
    } else {
        None
    }
}

/// Whether expression `e` is a mutable variable declared outside of block
/// `block`, or a field or an element of one.
pub open spec fn mutable_outside(t: Seq<NodeView>, e: int, block: int) -> bool {
    mutable_local(t, e) matches Some(b) && !enclosed_by(t, b as int, block)
}

/// Whether expression `e` is a mutable variable declared outside of block
/// `block`, or a field or an element of one.
pub fn is_expr_mutable_outside_block(tree: &Tree, e: usize, block: usize) -> (r: bool)
    ensures
        r == mutable_outside(tree@, e as int, block as int),
{
    if e >= tree.len() {
        return false;
    }
    let base: usize = peel(tree, e);
    let binding: usize = match tree.kind(base) {
        NodeKind::Path(info) => {
            if info.form != PathForm::Resolved {
                return false;
            }
            match info.res {
                Res::Local(b) => b,
                _ => {
                    return false;
                },
            }
        },
        _ => {
            return false;
        },
    };
    if binding >= tree.len() {
        return false;
    }
    match tree.kind(binding) {
        NodeKind::Binding { mutable, .. } => {
            if !mutable {
                return false;
            }
        },
        _ => {
            return false;
        },
    }
    let mut at: usize = binding;
    assert(mutable_local(tree@, e as int) == Some(binding));
    loop
        invariant
            at < tree@.len(),
            mutable_local(tree@, e as int) == Some(binding),
            enclosed_by(tree@, at as int, block as int) == enclosed_by(
                tree@,
                binding as int,
                block as int,
            ),
        decreases tree@.len() - at,
    {
        match tree.block_around(at) {
            Some(p) => {
                if p == block {
                    return false;
                }
                at = p;
            },
            None => {
                return true;
            },
        }
    }
}

fn peel(tree: &Tree, e: usize) -> (base: usize)
    requires
        e < tree@.len(),
    ensures
        base == peeled_base(tree@, e as int),
        base < tree@.len(),
{
    let mut base: usize = e;
    loop
        invariant
            base < tree@.len(),
            peeled_base(tree@, base as int) == peeled_base(tree@, e as int),
        decreases base,
    {
        match tree.kind(base) {
            NodeKind::Field(_) | NodeKind::Index => {
                let n: usize = tree.child_count(base);
                base = tree.child(base, 0);
            },
            _ => {
                return base;
            },
        }
    }
}

/// The block and the final expression of the borrow `e` that is reported:
/// a mutable borrow, written by the user, of a block in the same syntax
/// context that no `break` targets, whose final expression is a copy of a
/// mutable variable declared outside of the block.
pub open spec fn copied_borrow(t: Seq<NodeView>, check_in_tests: bool, e: int) -> Option<
    (usize, usize),
> {
    if 0 <= e < t.len() && !t[e].span.spec_from_expansion() && (t[e].kind matches NodeKind::AddrOf {
        mutable,
    } && mutable) && t[e].children.len() == 1 && (t[t[e].children[0] as int].kind
        matches NodeKind::Block { has_tail, targeted_by_break } && has_tail && !targeted_by_break)
        && t[t[e].children[0] as int].span.spec_eq_ctxt(t[e].span) && t[t[e].children[0] as int].children.len()
        >= 1 && t[t[t[e].children[0] as int].children.last() as int].facts.copy && mutable_outside(
        t,
        t[t[e].children[0] as int].children.last() as int,
        t[e].children[0] as int,
    ) && (check_in_tests || !t[e].facts.in_test) {
        Some((t[e].children[0], t[t[e].children[0] as int].children.last()))
    } else {
        None
    }
}

/// The finding on a borrow at `span` of the block at `block` with the final
/// expression at `tail`: the borrow is taken off the block and put in front
/// of the final expression. No rewrite is proposed where the two edits
/// would overlap.
pub open spec fn borrow_finding(span: Span, block: Span, tail: Span) -> FindingView {
    FindingView {
        lint: Lint::CopyThenBorrowMut,
        span,
        message: Message::CopiedThenBorrowed,
        note: None,
        help: None,
        proposal: match pair_edits(
            EditView { span: span.spec_until(block), text: Seq::<char>::empty() },
            EditView { span: tail.spec_shrink_to_lo(), text: "&mut "@ },
        ) {
            Some(edits) => Some(
                ProposalView {
                    help: Message::BuildReferenceInBlock,
                    suggestion: SuggestionView {
                        edits,
                        applicability: Applicability::MachineApplicable,
                    },
                },
            ),
            None => None,
        },
    }
}

/// The pass that reports mutable borrows of freshly copied values.
#[derive(Clone, Copy, Debug)]
pub struct CopyThenBorrowMut {
    check_in_tests: bool,
}

impl CopyThenBorrowMut {
    /// Whether the pass reports inside tests.
    pub closed spec fn spec_check_in_tests(&self) -> bool {
        self.check_in_tests
    }

    /// The pass, reporting inside tests where the settings say so.
    pub fn new(conf: &Conf) -> (pass: CopyThenBorrowMut)
        ensures
            pass.spec_check_in_tests() == conf.check_copy_then_borrow_mut_in_tests,
    {
        CopyThenBorrowMut { check_in_tests: conf.check_copy_then_borrow_mut_in_tests }
    }

    /// The finding on expression `e`.
    pub fn check_expr(&self, tree: &Tree, e: usize) -> (r: Option<Finding>)
        ensures
            match r {
                Some(f) => copied_borrow(tree@, self.spec_check_in_tests(), e as int) matches Some(
                    (block, tail),
                ) && f@ == borrow_finding(
                    tree@[e as int].span,
                    tree@[block as int].span,
                    tree@[tail as int].span,
                ),
                None => copied_borrow(tree@, self.spec_check_in_tests(), e as int) is None,
            },
    {
        if e >= tree.len() {
            return None;
        }
        let span: Span = tree.span(e);
        if span.from_expansion() {
            return None;
        }
        match tree.kind(e) {
            NodeKind::AddrOf { mutable } => {
                if !mutable {
                    return None;
                }
            },
            _ => {
                return None;
            },
        }
        let n: usize = tree.child_count(e);
        let block: usize = tree.child(e, 0);
        match tree.kind(block) {
            NodeKind::Block { has_tail, targeted_by_break } => {
                if !has_tail || targeted_by_break {
                    return None;
                }
            },
            _ => {
                return None;
            },
        }
        let block_span: Span = tree.span(block);
        if !block_span.eq_ctxt(span) {
            return None;
        }
        let m: usize = tree.child_count(block);
        let tail: usize = tree.child(block, m - 1);
        if !tree.facts(tail).copy || !is_expr_mutable_outside_block(tree, tail, block) {
            return None;
        }
        if !self.check_in_tests && tree.facts(e).in_test {
            return None;
        }
        let proposal: Option<Proposal> = match Suggestion::pair(
            span.until(block_span),
            String::new(),
            tree.span(tail).shrink_to_lo(),
            String::from_str("&mut "),
            Applicability::MachineApplicable,
        ) {
            Some(suggestion) => Some(Proposal { help: Message::BuildReferenceInBlock, suggestion }),
            None => None,
        };
        Some(
            Finding {
                lint: Lint::CopyThenBorrowMut,
                span,
                message: Message::CopiedThenBorrowed,
                note: None,
                help: None,
                proposal,
            },
        )
    }
}

} // verus!
