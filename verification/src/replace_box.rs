//! Assigning a new box to a place that holds a box: the value behind the
//! box can be replaced instead, unless the place was moved out of or was not
//! initialized.

use vstd::prelude::*;
use vstd::string::StringExecFns;
use crate::finding::{Finding, FindingView, Lint, Message, Proposal, ProposalView, Remark, finding_views};
use crate::place::{local_base, place_of};
use crate::span::Span;
use crate::suggestion::{Applicability, EditView, Suggestion, SuggestionView};
use crate::sym;
use crate::text::{binds_tightly, text_of, tight};
use crate::tree::{NodeKind, NodeView, PathForm, Res, Tree};
use crate::usage::{MovedCache, Usage, answer_from, moved_set};

verus! {

/// Whether expression `lhs` is a local variable that has no value from its
/// declaration on.
pub open spec fn late_initialized(t: Seq<NodeView>, lhs: int) -> bool {
    &&& t[lhs].kind matches NodeKind::Path(info)
    &&& info.form == PathForm::Resolved
    &&& info.res matches Res::Local(b)
    &&& !(b < t.len() && (t[b as int].kind matches NodeKind::Binding { initialized, .. }
        && initialized))
}

/// Whether node `e` is an assignment to a place that holds a box, written
/// by the user, to a target that is not initialized late.
pub open spec fn is_candidate(t: Seq<NodeView>, e: int) -> bool {
    &&& 0 <= e < t.len()
    &&& t[e].kind is Assign
    &&& t[e].children.len() == 2
    &&& !t[t[e].children[0] as int].span.spec_from_expansion()
    &&& !t[t[e].children[1] as int].span.spec_from_expansion()
    &&& t[t[e].children[0] as int].facts.boxed is Some
    &&& !late_initialized(t, t[e].children[0] as int)
}

/// The variable whose moved state decides on the assignment `e`: the owner
/// of the target, where the target is a local variable with field accesses.
pub open spec fn deciding_variable(t: Seq<NodeView>, e: int) -> Option<usize> {
    if is_candidate(t, e) {
        match place_of(t, t[e].children[0] as int) {
            Some(p) => Some(p.base),
            None => None,
        }
    } else {
        None
    }
}

/// Whether expression `rhs` is a call that yields the default value.
pub open spec fn spec_is_default_call(t: Seq<NodeView>, rhs: int) -> bool {
    t[rhs].kind matches NodeKind::Call { default_equivalent } && default_equivalent
}

/// The value that is put into a new box, where expression `rhs` is a call of
/// the constructor of the box with one argument.
pub open spec fn box_new_payload(t: Seq<NodeView>, rhs: int) -> Option<usize> {
    if t[rhs].kind is Call && t[rhs].children.len() == 2 && (t[t[rhs].children[0] as int].kind
        matches NodeKind::Path(info) && info.form == (PathForm::TypeRelative { on_box: true })
        && info.name == sym::NEW) {
        Some(t[rhs].children[1])
    } else {
        None
    }
}

/// The text that dereferences a target of this kind with the text `text`.
pub open spec fn deref_text(kind: NodeKind, text: Seq<char>) -> Seq<char> {
    if binds_tightly(kind) {
        "*"@ + text
    } else {
        "*("@ + text + ")"@
    }
}

/// The confidence in a rewrite that holds the text of the payload: lowered
/// where the payload comes from another syntax context than the assignment.
pub open spec fn payload_confidence(same_ctxt: bool) -> Applicability {
    if same_ctxt {
        Applicability::MachineApplicable
    } else {
        Applicability::MaybeIncorrect
    }
}

/// The rewrite offered for an assignment of a default box: none where the
/// text of the target cannot be had.
pub open spec fn default_proposal(span: Span, kind: NodeKind, lhs_text: Option<Seq<char>>) -> Option<
    ProposalView,
> {
    match lhs_text {
        Some(target) => Some(
            ProposalView {
                help: Message::ReplaceWithDefault,
                suggestion: SuggestionView {
                    edits: seq![EditView { span, text: deref_text(kind, target) + " = Default::default()"@ }],
                    applicability: Applicability::MachineApplicable,
                },
            },
        ),
        None => None,
    }
}

/// The rewrite offered for an assignment of a new box with a payload: none
/// where the text of the target or that of the payload cannot be had.
pub open spec fn payload_proposal(
    span: Span,
    kind: NodeKind,
    lhs_text: Option<Seq<char>>,
    same_ctxt: bool,
    payload_text: Option<Seq<char>>,
) -> Option<ProposalView> {
    match (lhs_text, payload_text) {
        (Some(target), Some(payload)) => Some(
            ProposalView {
                help: Message::ReplaceWithInnerValue,
                suggestion: SuggestionView {
                    edits: seq![EditView { span, text: deref_text(kind, target) + " = "@ + payload }],
                    applicability: payload_confidence(same_ctxt),
                },
            },
        ),
        _ => None,
    }
}

/// The finding on an assignment of a default box. It carries no rewrite
/// where the text of the target cannot be had.
pub open spec fn default_finding(span: Span, kind: NodeKind, lhs_text: Option<Seq<char>>) -> FindingView {
    FindingView {
        lint: Lint::ReplaceBox,
        span,
        message: Message::NewBoxWithDefault,
        note: Some(Remark { span: None, message: Message::NeedlessAllocation }),
        help: None,
        proposal: default_proposal(span, kind, lhs_text),
    }
}

/// The finding on an assignment of a new box with a payload. It carries no
/// rewrite where a text that the rewrite is made of cannot be had.
pub open spec fn payload_finding(
    span: Span,
    kind: NodeKind,
    lhs_text: Option<Seq<char>>,
    same_ctxt: bool,
    payload_text: Option<Seq<char>>,
) -> FindingView {
    FindingView {
        lint: Lint::ReplaceBox,
        span,
        message: Message::NewBox,
        note: Some(Remark { span: None, message: Message::NeedlessAllocation }),
        help: None,
        proposal: payload_proposal(span, kind, lhs_text, same_ctxt, payload_text),
    }
}

/// The findings on node `e`, given the moved set of its body: none unless
/// `e` is a candidate whose deciding variable is not moved and whose pointee
/// is sized; then one where a default box is assigned and the pointee has a
/// default value, and one where a new box is assigned.
pub open spec fn box_findings(
    t: Seq<NodeView>,
    e: int,
    moved: Set<usize>,
    lhs_text: Option<Seq<char>>,
    payload_text: Option<Seq<char>>,
) -> Seq<FindingView> {
    if !is_candidate(t, e) || (deciding_variable(t, e) matches Some(v) && moved.contains(v)) {
        Seq::empty()
    } else {
        let lhs = t[e].children[0] as int;
        let rhs = t[e].children[1] as int;
        let pointee = t[lhs].facts.boxed->0;
        let first = if pointee.sized && pointee.implements_default && spec_is_default_call(t, rhs) {
            seq![default_finding(t[e].span, t[lhs].kind, lhs_text)]
        } else {
            Seq::empty()
        };
        let second = if pointee.sized && box_new_payload(t, rhs) is Some {
            seq![
                payload_finding(
                    t[e].span,
                    t[lhs].kind,
                    lhs_text,
                    t[box_new_payload(t, rhs)->0 as int].span.spec_eq_ctxt(t[e].span),
                    payload_text,
                ),
            ]
        } else {
            Seq::empty()
        };
        first + second
    }
}

/// The moved set that the findings on `e` are made with, and that the cache
/// holds afterwards: that of the innermost body where the assignment has a
/// deciding variable.
pub open spec fn cache_after(
    t: Seq<NodeView>,
    e: int,
    cache: Seq<Option<Set<usize>>>,
    computed: Set<usize>,
) -> Seq<Option<Set<usize>>> {
    if deciding_variable(t, e) is Some {
        cache.drop_last().push(Some(answer_from(cache.last(), computed)))
    } else {
        cache
    }
}

/// An assignment of a box with nothing moved is reported once for each way
/// in which its right side makes a new box, and not at all where the
/// pointee is unsized.
pub proof fn lemma_unmoved_is_reported(
    t: Seq<NodeView>,
    e: int,
    lhs_text: Option<Seq<char>>,
    payload_text: Option<Seq<char>>,
)
    requires
        is_candidate(t, e),
    ensures
        box_findings(t, e, Set::empty(), lhs_text, payload_text).len() == (if t[t[e].children[0] as int].facts.boxed->0.sized
            && t[t[e].children[0] as int].facts.boxed->0.implements_default && spec_is_default_call(
            t,
            t[e].children[1] as int,
        ) {
            1int
        } else {
            0int
        }) + (if t[t[e].children[0] as int].facts.boxed->0.sized && box_new_payload(
            t,
            t[e].children[1] as int,
        ) is Some {
            1int
        } else {
            0int
        }),
        !t[t[e].children[0] as int].facts.boxed->0.sized ==> box_findings(
            t,
            e,
            Set::empty(),
            lhs_text,
            payload_text,
        ) == Seq::<FindingView>::empty(),
{
}

/// An assignment whose deciding variable is moved is never reported.
pub proof fn lemma_moved_is_silent(
    t: Seq<NodeView>,
    e: int,
    moved: Set<usize>,
    lhs_text: Option<Seq<char>>,
    payload_text: Option<Seq<char>>,
)
    requires
        deciding_variable(t, e) matches Some(v) && moved.contains(v),
    ensures
        box_findings(t, e, moved, lhs_text, payload_text) == Seq::<FindingView>::empty(),
{
}

/// Whether expression `rhs` is a call that yields the default value.
pub fn is_default_call(tree: &Tree, rhs: usize) -> (r: bool)
    requires
        rhs < tree@.len(),
    ensures
        r == spec_is_default_call(tree@, rhs as int),
{
    match tree.kind(rhs) {
        NodeKind::Call { default_equivalent } => default_equivalent,
        _ => false,
    }
}

/// The value that is put into a new box, where expression `rhs` is a call of
/// the constructor of the box with one argument.
pub fn get_box_new_payload(tree: &Tree, rhs: usize) -> (r: Option<usize>)
    requires
        rhs < tree@.len(),
    ensures
        r == box_new_payload(tree@, rhs as int),
        r matches Some(arg) ==> arg < tree@.len(),
{
    if let NodeKind::Call { .. } = tree.kind(rhs) {
        if tree.child_count(rhs) == 2 {
            let callee: usize = tree.child(rhs, 0);
            if let NodeKind::Path(info) = tree.kind(callee) {
                if info.form == (PathForm::TypeRelative { on_box: true }) && info.name == sym::NEW {
                    return Some(tree.child(rhs, 1));
                }
            }
        }
    }
    None
}

/// The text that dereferences a target of this kind with the text `text`.
fn deref(kind: NodeKind, text: &str) -> (r: String)
    ensures
        r@ == deref_text(kind, text@),
{
    if tight(kind) {
        let mut r: String = String::from_str("*");
        r.append(text);
        r
    } else {
        let mut r: String = String::from_str("*(");
        r.append(text);
        r.append(")");
        r
    }
}

/// The pass that reports assignments of a new box to a place that holds one.
pub struct ReplaceBox {
    moved_vars_caches: MovedCache,
}

impl ReplaceBox {
    /// The moved sets of the bodies under analysis, innermost last.
    pub closed spec fn caches(&self) -> Seq<Option<Set<usize>>> {
        self.moved_vars_caches@
    }

    /// The pass with no body under analysis.
    pub fn new() -> (pass: ReplaceBox)
        ensures
            pass.caches() == Seq::<Option<Set<usize>>>::empty(),
    {
        ReplaceBox { moved_vars_caches: MovedCache::new() }
    }

    /// The number of bodies under analysis.
    pub fn depth(&self) -> (n: usize)
        ensures
            n == self.caches().len(),
    {
        self.moved_vars_caches.depth()
    }

    /// A body is entered.
    pub fn check_body(&mut self)
        ensures
            final(self).caches() == old(self).caches().push(None),
    {
        self.moved_vars_caches.enter_body();
    }

    /// A body is left.
    pub fn check_body_post(&mut self)
        requires
            old(self).caches().len() > 0,
        ensures
            final(self).caches() == old(self).caches().drop_last(),
    {
        self.moved_vars_caches.leave_body();
    }

    /// Whether the findings on node `expr` depend on a moved set that is yet
    /// to be computed: on the occurrences of the innermost body.
    pub fn needs_occurrences(&self, tree: &Tree, expr: usize) -> (r: bool)
        requires
            self.caches().len() > 0,
        ensures
            r == (deciding_variable(tree@, expr as int) is Some && self.caches().last() is None),
    {
        if self.moved_vars_caches.is_computed() {
            return false;
        }
        match candidate_target(tree, expr) {
            Some(lhs) => local_base(tree, lhs).is_some(),
            None => false,
        }
    }

    /// The findings on node `expr`. `events` are the occurrences of the
    /// innermost body, `lhs_text` is the source text of the target of the
    /// assignment and `payload_text` that of the value put into the new box,
    /// where they can be had; a finding whose rewrite needs a text that
    /// cannot be had is made without the rewrite.
    pub fn check_expr(
        &mut self,
        tree: &Tree,
        expr: usize,
        events: &Vec<Usage>,
        lhs_text: Option<&str>,
        payload_text: Option<&str>,
    ) -> (out: Vec<Finding>)
        requires
            old(self).caches().len() > 0,
        ensures
            finding_views(out@) == box_findings(
                tree@,
                expr as int,
                answer_from(old(self).caches().last(), moved_set(tree@, events@)),
                text_of(lhs_text),
                text_of(payload_text),
            ),
            final(self).caches() == cache_after(
                tree@,
                expr as int,
                old(self).caches(),
                moved_set(tree@, events@),
            ),
    {
        let mut out: Vec<Finding> = Vec::new();
        let ghost moved = answer_from(old(self).caches().last(), moved_set(tree@, events@));
        let ghost want = box_findings(
            tree@,
            expr as int,
            moved,
            text_of(lhs_text),
            text_of(payload_text),
        );
        let lhs: usize = match candidate_target(tree, expr) {
            Some(lhs) => lhs,
            None => {
                assert(finding_views(out@) =~= want);
                return out;
            },
        };
        let rhs: usize = tree.child(expr, 1);
        if let Some(place) = local_base(tree, lhs) {
            if self.moved_vars_caches.is_moved(tree, events, place.root()) {
                assert(finding_views(out@) =~= want);
                return out;
            }
        }
        let pointee = match tree.facts(lhs).boxed {
            Some(p) => p,
            None => {
                return out;
            },
        };
        let span: Span = tree.span(expr);
        let lhs_kind: NodeKind = tree.kind(lhs);
        if !pointee.sized {
            assert(finding_views(out@) =~= want);
            return out;
        }
        if pointee.implements_default && is_default_call(tree, rhs) {
            let proposal: Option<Proposal> = match lhs_text {
                Some(target) => {
                    let mut text: String = deref(lhs_kind, target);
                    text.append(" = Default::default()");
                    Some(
                        Proposal {
                            help: Message::ReplaceWithDefault,
                            suggestion: Suggestion::single(span, text, Applicability::MachineApplicable),
                        },
                    )
                },
                None => None,
            };
            out.push(
                Finding {
                    lint: Lint::ReplaceBox,
                    span,
                    message: Message::NewBoxWithDefault,
                    note: Some(Remark { span: None, message: Message::NeedlessAllocation }),
                    help: None,
                    proposal,
                },
            );
            assert(finding_views(out@) =~= seq![default_finding(span, lhs_kind, text_of(lhs_text))]);
        }
        if let Some(arg) = get_box_new_payload(tree, rhs) {
            let same_ctxt: bool = tree.span(arg).eq_ctxt(span);
            let proposal: Option<Proposal> = match (lhs_text, payload_text) {
                (Some(target), Some(payload)) => {
                    let mut text: String = deref(lhs_kind, target);
                    text.append(" = ");
                    text.append(payload);
                    let applicability: Applicability = if same_ctxt {
                        Applicability::MachineApplicable
                    } else {
                        Applicability::MaybeIncorrect
                    };
                    Some(
                        Proposal {
                            help: Message::ReplaceWithInnerValue,
                            suggestion: Suggestion::single(span, text, applicability),
                        },
                    )
                },
                _ => None,
            };
            let ghost before = finding_views(out@);
            out.push(
                Finding {
                    lint: Lint::ReplaceBox,
                    span,
                    message: Message::NewBox,
                    note: Some(Remark { span: None, message: Message::NeedlessAllocation }),
                    help: None,
                    proposal,
                },
            );
            assert(finding_views(out@) =~= before.push(
                payload_finding(span, lhs_kind, text_of(lhs_text), same_ctxt, text_of(payload_text)),
            ));
        }
        assert(finding_views(out@) =~= want);
        out
    }
}

impl Default for ReplaceBox {
    fn default() -> (pass: ReplaceBox)
        ensures
            pass.caches() == Seq::<Option<Set<usize>>>::empty(),
    {
        ReplaceBox::new()
    }
}

/// The target of the assignment `e`, where `e` is a candidate.
fn candidate_target(tree: &Tree, e: usize) -> (r: Option<usize>)
    ensures
        r is Some == is_candidate(tree@, e as int),
        r matches Some(lhs) ==> lhs == tree@[e as int].children[0] && lhs < e && e < tree@.len()
            && tree@[e as int].children.len() == 2,
{
    if e >= tree.len() {
        return None;
    }
    if let NodeKind::Assign = tree.kind(e) {
        let n: usize = tree.child_count(e);
        assert(n == 2);
        let lhs: usize = tree.child(e, 0);
        let rhs: usize = tree.child(e, 1);
        if tree.span(lhs).from_expansion() || tree.span(rhs).from_expansion() {
            return None;
        }
        if tree.facts(lhs).boxed.is_none() {
            return None;
        }
        if let NodeKind::Path(info) = tree.kind(lhs) {
            if info.form == PathForm::Resolved {
                if let Res::Local(b) = info.res {
                    if b >= tree.len() {
                        return None;
                    }
                    match tree.kind(b) {
                        NodeKind::Binding { initialized, .. } => {
                            if !initialized {
                                return None;
                            }
                        },
                        _ => {
                            return None;
                        },
                    }
                }
            }
        }
        Some(lhs)
    } else {
        None
    }
}

} // verus!
