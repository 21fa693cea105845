//! A constant that is used before the place where its scope declares it,
//! while an enclosing scope declares a constant of the same name: the text
//! reads as if the outer constant were meant.

use vstd::prelude::*;
use crate::finding::{Finding, FindingView, Lint, Message, Remark, finding_views};
use crate::scope::{
    DeclKind, Declaration, ScopeStack, find_below, lemma_find_below, outer_declaration_except,
};
use crate::span::Span;
use crate::tree::{NodeKind, NodeView, Res, Tree};

verus! {

/// The name and the definition of the constant that expression `e` uses
/// ahead of its declaration: `e` is a path of one segment, written by the
/// user, to a constant of this program that is defined in the same file,
/// further down.
pub open spec fn early_use(t: Seq<NodeView>, e: int) -> Option<(u32, Span)> {
    if 0 <= e < t.len() && !t[e].span.spec_from_expansion() && (t[e].kind matches NodeKind::Path(
        info,
    ) && info.segments == 1 && (info.res matches Res::Const(Some(def)) && t[e].span.spec_same_file(
        def,
    ) && t[e].span.spec_precedes(def))) {
        Some((t[e].kind->Path_0.name, t[e].kind->Path_0.res->Const_0->0))
    } else {
        None
    }
}

/// The finding on a use at `span` of the constant defined at `def` that
/// shadows `shadowed`.
pub open spec fn shadow_finding(span: Span, shadowed: Declaration, def: Span) -> FindingView {
    FindingView {
        lint: Lint::DeferredConstShadow,
        span,
        message: Message::ShadowingConstUsed,
        note: Some(Remark { span: Some(shadowed.span), message: Message::ShadowedConstUnused }),
        help: Some(Remark { span: Some(def), message: Message::ConstUsedBeforeDeclared }),
        proposal: None,
    }
}

/// The finding on expression `e` under the scopes `frames`: an early use is
/// reported where an enclosing scope declares the name elsewhere than at
/// the definition used; the nearest such scope is named.
pub open spec fn finding_on(t: Seq<NodeView>, frames: Seq<Map<u32, Declaration>>, e: int) -> Option<
    FindingView,
> {
    match early_use(t, e) {
        Some((name, def)) => match outer_declaration_except(frames, name, def) {
            Some(shadowed) => Some(shadow_finding(t[e].span, shadowed, def)),
            None => None,
        },
        None => None,
    }
}

/// The scopes after the declaration `item` was seen: a constant that the
/// user wrote is declared in the innermost scope.
pub open spec fn declared(t: Seq<NodeView>, frames: Seq<Map<u32, Declaration>>, item: int) -> Seq<
    Map<u32, Declaration>,
> {
    if 0 <= item < t.len() && frames.len() > 0 && !t[item].span.spec_from_expansion() && t[item].kind
        is ItemConst {
        let name = t[item].kind->ItemConst_0;
        frames.drop_last().push(
            frames.last().insert(
                name,
                Declaration {
                    name,
                    span: t[item].span,
                    scope: (frames.len() - 1) as usize,
                    kind: DeclKind::Const,
                },
            ),
        )
    } else {
        frames
    }
}

/// A use is flagged exactly when it is an early use of a name that some
/// enclosing scope, the innermost one left aside, declares at another place
/// than the definition used.
pub proof fn lemma_flagged_iff(t: Seq<NodeView>, frames: Seq<Map<u32, Declaration>>, e: int)
    ensures
        finding_on(t, frames, e) is Some <==> (early_use(t, e) matches Some((name, def))
            && exists|i: int|
            0 <= i < frames.len() - 1 && (#[trigger] frames[i]).contains_key(name)
                && frames[i][name].span != def),
{
    if let Some((name, def)) = early_use(t, e) {
        if frames.len() > 0 {
            lemma_find_below(frames, name, Some(def), frames.len() - 1);
            if finding_on(t, frames, e) is None {
                assert forall|i: int| 0 <= i < frames.len() - 1 implies !((#[trigger] frames[i]).contains_key(
                    name,
                ) && frames[i][name].span != def) by {}
            }
        }
    }
}

/// A use at or after the definition it resolves to is never flagged.
pub proof fn lemma_never_flagged_behind(t: Seq<NodeView>, frames: Seq<Map<u32, Declaration>>, e: int)
    requires
        0 <= e < t.len(),
        t[e].kind matches NodeKind::Path(info) && (info.res matches Res::Const(Some(def))
            && !t[e].span.spec_precedes(def)),
    ensures
        finding_on(t, frames, e) is None,
{
}

/// A declaration that is reached through two scopes is not its own shadow:
/// where every enclosing declaration of the name is the definition used,
/// nothing is flagged.
pub proof fn lemma_same_declaration_is_silent(
    t: Seq<NodeView>,
    frames: Seq<Map<u32, Declaration>>,
    e: int,
)
    requires
        early_use(t, e) matches Some((name, def)) && forall|i: int|
            0 <= i < frames.len() && (#[trigger] frames[i]).contains_key(name) ==> frames[i][name].span
                == def,
    ensures
        finding_on(t, frames, e) is None,
{
    let (name, def) = early_use(t, e)->0;
    if frames.len() > 0 {
        lemma_find_below(frames, name, Some(def), frames.len() - 1);
    }
}

/// The scopes and the findings after node `n` and all below it were
/// visited: a block opens a scope around its children, a constant is
/// declared, a path is looked at.
pub open spec fn visit(t: Seq<NodeView>, n: int, frames: Seq<Map<u32, Declaration>>) -> (
    Seq<Map<u32, Declaration>>,
    Seq<FindingView>,
)
    decreases n, 1int, 0int,
{
    if 0 <= n < t.len() {
        match t[n].kind {
            NodeKind::Block { .. } => {
                let inner = visit_children(
                    t,
                    n,
                    t[n].children.len() as int,
                    frames.push(Map::empty()),
                );
                (inner.0.drop_last(), inner.1)
            },
            NodeKind::ItemConst(_) => visit_children(
                t,
                n,
                t[n].children.len() as int,
                declared(t, frames, n),
            ),
            NodeKind::Path(_) => {
                let own = match finding_on(t, frames, n) {
                    Some(f) => seq![f],
                    None => Seq::empty(),
                };
                let below = visit_children(t, n, t[n].children.len() as int, frames);
                (below.0, own + below.1)
            },
            _ => visit_children(t, n, t[n].children.len() as int, frames),
        }
    } else {
        (frames, Seq::empty())
    }
}

/// The scopes and the findings after the first `k` children of node `n`
/// were visited.
pub open spec fn visit_children(
    t: Seq<NodeView>,
    n: int,
    k: int,
    frames: Seq<Map<u32, Declaration>>,
) -> (Seq<Map<u32, Declaration>>, Seq<FindingView>)
    decreases n, 0int, k,
{
    if k <= 0 || n < 0 || n >= t.len() || k > t[n].children.len() {
        (frames, Seq::empty())
    } else {
        let before = visit_children(t, n, k - 1, frames);
        if t[n].children[k - 1] < n {
            let child = visit(t, t[n].children[k - 1] as int, before.0);
            (child.0, before.1 + child.1)
        } else {
            before
        }
    }
}

/// Scope balance of a traversal: however the tree looks, visiting a node
/// and all below it leaves as many scopes open as were open before.
pub proof fn lemma_visit_balanced(t: Seq<NodeView>, n: int, frames: Seq<Map<u32, Declaration>>)
    ensures
        visit(t, n, frames).0.len() == frames.len(),
    decreases n, 1int, 0int,
{
    if 0 <= n < t.len() {
        let len = t[n].children.len() as int;
        match t[n].kind {
            NodeKind::Block { .. } => {
                lemma_children_balanced(t, n, len, frames.push(Map::empty()));
            },
            NodeKind::ItemConst(_) => {
                lemma_children_balanced(t, n, len, declared(t, frames, n));
            },
            _ => {
                lemma_children_balanced(t, n, len, frames);
            },
        }
    }
}

/// Visiting children leaves as many scopes open as were open before.
pub proof fn lemma_children_balanced(
    t: Seq<NodeView>,
    n: int,
    k: int,
    frames: Seq<Map<u32, Declaration>>,
)
    ensures
        visit_children(t, n, k, frames).0.len() == frames.len(),
    decreases n, 0int, k,
{
    if !(k <= 0 || n < 0 || n >= t.len() || k > t[n].children.len()) {
        lemma_children_balanced(t, n, k - 1, frames);
        if t[n].children[k - 1] < n {
            lemma_visit_balanced(t, t[n].children[k - 1] as int, visit_children(t, n, k - 1, frames).0);
        }
    }
}

/// The pass that reports uses of a constant ahead of a shadowing
/// declaration.
pub struct DeferredConstShadow {
    consts: ScopeStack,
}

impl DeferredConstShadow {
    /// The scopes that are open, outermost first.
    pub closed spec fn scopes(&self) -> Seq<Map<u32, Declaration>> {
        self.consts@
    }

    /// The pass with no scope open.
    pub fn new() -> (pass: DeferredConstShadow)
        ensures
            pass.scopes() == Seq::<Map<u32, Declaration>>::empty(),
    {
        DeferredConstShadow { consts: ScopeStack::new() }
    }

    /// The number of open scopes.
    pub fn depth(&self) -> (n: usize)
        ensures
            n == self.scopes().len(),
    {
        self.consts.depth()
    }

    /// The program is entered: the scope of the whole program is opened.
    pub fn check_crate(&mut self)
        requires
            old(self).scopes().len() == 0,
        ensures
            final(self).scopes() == seq![Map::<u32, Declaration>::empty()],
    {
        self.consts.enter_scope();
        assert(self.scopes() =~= seq![Map::<u32, Declaration>::empty()]);
    }

    /// A block is entered: its scope is opened.
    pub fn check_block(&mut self)
        ensures
            final(self).scopes() == old(self).scopes().push(Map::<u32, Declaration>::empty()),
    {
        self.consts.enter_scope();
    }

    /// A block is left: its scope is closed.
    pub fn check_block_post(&mut self)
        requires
            old(self).scopes().len() > 0,
        ensures
            final(self).scopes() == old(self).scopes().drop_last(),
    {
        self.consts.exit_scope();
    }

    /// A declaration is seen: a constant that the user wrote is declared in
    /// the innermost scope.
    pub fn check_item(&mut self, tree: &Tree, item: usize)
        requires
            old(self).scopes().len() > 0,
        ensures
            final(self).scopes() == declared(tree@, old(self).scopes(), item as int),
    {
        if item >= tree.len() {
            return ;
        }
        if let NodeKind::ItemConst(name) = tree.kind(item) {
            let span: Span = tree.span(item);
            if !span.from_expansion() {
                let scope: usize = self.consts.depth() - 1;
                self.consts.declare(name, Declaration { name, span, scope, kind: DeclKind::Const });
            }
        }
    }

    /// The finding on expression `e`.
    pub fn check_expr(&self, tree: &Tree, e: usize) -> (r: Option<Finding>)
        ensures
            match r {
                Some(f) => finding_on(tree@, self.scopes(), e as int) == Some(f@),
                None => finding_on(tree@, self.scopes(), e as int) is None,
            },
    {
        if e >= tree.len() {
            return None;
        }
        let span: Span = tree.span(e);
        if span.from_expansion() {
            return None;
        }
        let info = match tree.kind(e) {
            NodeKind::Path(info) => info,
            _ => {
                return None;
            },
        };
        if info.segments != 1 {
            return None;
        }
        let def: Span = match info.res {
            Res::Const(Some(def)) => def,
            _ => {
                return None;
            },
        };
        if !span.same_file(def) || !span.precedes(def) {
            return None;
        }
        match self.consts.lookup_outer_except(info.name, def) {
            Some(shadowed) => Some(
                Finding {
                    lint: Lint::DeferredConstShadow,
                    span,
                    message: Message::ShadowingConstUsed,
                    note: Some(
                        Remark { span: Some(shadowed.span), message: Message::ShadowedConstUnused },
                    ),
                    help: Some(
                        Remark { span: Some(def), message: Message::ConstUsedBeforeDeclared },
                    ),
                    proposal: None,
                },
            ),
            None => None,
        }
    }

    /// Visits node `n` and all below it, in the order in which they are
    /// written, and adds the findings to `out`.
    pub fn check_tree(&mut self, tree: &Tree, n: usize, out: &mut Vec<Finding>)
        requires
            old(self).scopes().len() > 0,
        ensures
            final(self).scopes() == visit(tree@, n as int, old(self).scopes()).0,
            finding_views(final(out)@) == finding_views(old(out)@) + visit(
                tree@,
                n as int,
                old(self).scopes(),
            ).1,
            final(self).scopes().len() == old(self).scopes().len(),
        decreases n, 1int,
    {
        let ghost start = self.scopes();
        let ghost before = finding_views(out@);
        proof {
            lemma_visit_balanced(tree@, n as int, start);
        }
        if n >= tree.len() {
            assert(finding_views(out@) =~= before + Seq::<FindingView>::empty());
            return ;
        }
        match tree.kind(n) {
            NodeKind::Block { .. } => {
                self.check_block();
                self.check_children(tree, n, out);
                self.check_block_post();
            },
            NodeKind::ItemConst(_) => {
                self.check_item(tree, n);
                self.check_children(tree, n, out);
            },
            NodeKind::Path(_) => {
                if let Some(f) = self.check_expr(tree, n) {
                    let ghost fv = f@;
                    out.push(f);
                    assert(finding_views(out@) =~= before + seq![fv]);
                }
                let ghost mid = finding_views(out@);
                self.check_children(tree, n, out);
                assert(finding_views(out@) =~= before + visit(tree@, n as int, start).1);
            },
            _ => {
                self.check_children(tree, n, out);
            },
        }
    }

    fn check_children(&mut self, tree: &Tree, n: usize, out: &mut Vec<Finding>)
        requires
            old(self).scopes().len() > 0,
            n < tree@.len(),
        ensures
            final(self).scopes() == visit_children(
                tree@,
                n as int,
                tree@[n as int].children.len() as int,
                old(self).scopes(),
            ).0,
            finding_views(final(out)@) == finding_views(old(out)@) + visit_children(
                tree@,
                n as int,
                tree@[n as int].children.len() as int,
                old(self).scopes(),
            ).1,
            final(self).scopes().len() == old(self).scopes().len(),
        decreases n, 0int,
    {
        let ghost start = self.scopes();
        let ghost before = finding_views(out@);
        let len: usize = tree.child_count(n);
        let mut k: usize = 0;
        assert(finding_views(out@) =~= before + visit_children(tree@, n as int, 0, start).1);
        while k < len
            invariant
                0 <= k <= len,
                n < tree@.len(),
                len == tree@[n as int].children.len(),
                start.len() > 0,
                self.scopes() == visit_children(tree@, n as int, k as int, start).0,
                self.scopes().len() == start.len(),
                finding_views(out@) == before + visit_children(tree@, n as int, k as int, start).1,
            decreases len - k,
        {
            let c: usize = tree.child(n, k);
            let ghost so_far = finding_views(out@);
            self.check_tree(tree, c, out);
            assert(finding_views(out@) =~= before + visit_children(
                tree@,
                n as int,
                k + 1,
                start,
            ).1);
            k = k + 1;
        }
    }
}

impl Default for DeferredConstShadow {
    fn default() -> (pass: DeferredConstShadow)
        ensures
            pass.scopes() == Seq::<Map<u32, Declaration>>::empty(),
    {
        DeferredConstShadow::new()
    }
}

} // verus!
