//! The program tree that the passes walk: an arena of nodes, each with a
//! kind, a span, the facts that name resolution and type checking attached
//! to it, its children and its parent. A node is created after its children,
//! so that every child has a smaller index than its parent.

use vstd::prelude::*;
use crate::span::Span;

verus! {

/// What a path resolves to.
#[derive(Clone, Copy, Debug, PartialEq, Eq, Structural)]
pub enum Res {
    /// A local variable, named by the node of its binding pattern.
    Local(usize),
    /// A constant, with the span of its definition where this program
    /// defines it.
    Const(Option<Span>),
    /// The identity function of the standard library.
    IdentityFn,
    /// Anything else.
    Other,
}

/// How a path is written.
#[derive(Clone, Copy, Debug, PartialEq, Eq, Structural)]
pub enum PathForm {
    /// A path that name resolution resolved as a whole.
    Resolved,
    /// A path whose last segment is looked up in a type; `on_box` tells
    /// whether that type is the owned heap box.
    TypeRelative { on_box: bool },
}

/// A path expression.
#[derive(Clone, Copy, Debug, PartialEq, Eq, Structural)]
pub struct PathInfo {
    pub form: PathForm,
    pub res: Res,
    /// The number of segments.
    pub segments: usize,
    /// The name of the last segment.
    pub name: u32,
    /// Whether every segment leaves its generic arguments to inference.
    pub infer_args: bool,
}

/// A closure expression.
#[derive(Clone, Copy, Debug, PartialEq, Eq, Structural)]
pub struct ClosureInfo {
    /// The number of generic parameters bound by `for<..>`.
    pub bound_generic_params: usize,
    /// The span of the parameter list.
    pub fn_decl_span: Span,
    /// Whether the type of every parameter is left to inference.
    pub inputs_inferred: bool,
}

/// The kind of a node. The children of a node are, by kind: of a field
/// access, the base; of an index, the base and the index; of a call, the
/// callee and the arguments; of a method call, the receiver and the
/// arguments; of a borrow, the operand; of an assignment, the target and the
/// value; of `return` and `break`, the value where there is one; of a block,
/// its statements and, where `has_tail`, its final expression; of a closure,
/// its body; of a body, its parameter patterns and, last, its value; of an
/// expression statement, the expression; of a tuple or a tuple pattern, the
/// elements.
#[derive(Clone, Copy, Debug, PartialEq, Eq, Structural)]
pub enum NodeKind {
    Path(PathInfo),
    Field(u32),
    Index,
    Tup,
    Call { default_equivalent: bool },
    MethodCall { name: u32, name_span: Span, iterator_method: bool },
    AddrOf { mutable: bool },
    Assign,
    Ret,
    Break,
    Block { has_tail: bool, targeted_by_break: bool },
    Closure(ClosureInfo),
    Body,
    /// An expression statement without a semicolon.
    StmtExpr,
    /// An expression statement with a semicolon.
    StmtSemi,
    /// A binding pattern: `mutable` where it is written `mut x`, `by_ref`
    /// where the variable is bound by reference, `initialized` where the
    /// variable has a value from its declaration on.
    Binding { mutable: bool, by_ref: bool, initialized: bool },
    PatTuple { has_rest: bool },
    /// The declaration of a constant with this name.
    ItemConst(u32),
    /// Any other expression, statement, pattern or item.
    Other,
}

/// What is known of the value that a box points to.
#[derive(Clone, Copy, Debug, PartialEq, Eq, Structural)]
pub struct Pointee {
    pub implements_default: bool,
    pub sized: bool,
}

/// A nominal type.
#[derive(Clone, Copy, Debug, PartialEq, Eq, Structural)]
pub struct Adt {
    /// The definition of the type.
    pub def: u32,
    /// Whether the type is the span type of the compiler.
    pub is_span: bool,
}

/// What type checking and the host know of a node.
#[derive(Clone, Copy, Debug, PartialEq, Eq, Structural)]
pub struct Facts {
    /// Whether the expression is adjusted (dereferenced, borrowed, coerced)
    /// where it is used.
    pub adjusted: bool,
    /// Whether the adjusted type of the expression can be copied.
    pub copy: bool,
    /// Whether the expression never yields a value.
    pub never: bool,
    /// Whether attributes are attached to the node.
    pub has_attrs: bool,
    /// Whether the node lies in test code.
    pub in_test: bool,
    /// The pointee, where the type of the expression is the owned heap box.
    pub boxed: Option<Pointee>,
    /// The type of the expression, where it is nominal.
    pub adt: Option<Adt>,
    /// The adjusted type of the expression with references peeled off, where
    /// it is nominal.
    pub peeled_adt: Option<Adt>,
}

/// One node, as the arena stores it.
#[derive(Debug)]
pub struct Node {
    pub kind: NodeKind,
    pub span: Span,
    pub facts: Facts,
    pub children: Vec<usize>,
}

/// The mathematical value of a node in its tree.
pub struct NodeView {
    pub kind: NodeKind,
    pub span: Span,
    pub facts: Facts,
    pub children: Seq<usize>,
    pub parent: Option<usize>,
}

/// Whether a node of this kind may have `n` children.
pub open spec fn arity_ok(kind: NodeKind, n: nat) -> bool {
    match kind {
        NodeKind::Path(_) => n == 0,
        NodeKind::Field(_) => n == 1,
        NodeKind::Index => n == 2,
        NodeKind::Tup => true,
        NodeKind::Call { .. } => n >= 1,
        NodeKind::MethodCall { .. } => n >= 1,
        NodeKind::AddrOf { .. } => n == 1,
        NodeKind::Assign => n == 2,
        NodeKind::Ret => n <= 1,
        NodeKind::Break => n <= 1,
        NodeKind::Block { has_tail, .. } => has_tail ==> n >= 1,
        NodeKind::Closure(_) => n == 1,
        NodeKind::Body => n >= 1,
        NodeKind::StmtExpr => n == 1,
        NodeKind::StmtSemi => n == 1,
        NodeKind::Binding { .. } => true,
        NodeKind::PatTuple { .. } => true,
        NodeKind::ItemConst(_) => true,
        NodeKind::Other => true,
    }
}

/// Whether node `i` is in order: its arity fits its kind, its children come
/// before it and name it as their parent, and its parent comes after it.
pub open spec fn node_ok(t: Seq<NodeView>, i: int) -> bool {
    &&& arity_ok(t[i].kind, t[i].children.len())
    &&& forall|j: int|
        0 <= j < t[i].children.len() ==> (#[trigger] t[i].children[j]) < i
            && t[t[i].children[j] as int].parent == Some(i as usize)
    &&& t[i].parent matches Some(p) ==> i < p < t.len()
}

/// Whether every node of the tree is in order.
pub open spec fn well_formed(t: Seq<NodeView>) -> bool {
    &&& t.len() <= usize::MAX
    &&& forall|i: int| 0 <= i < t.len() ==> #[trigger] node_ok(t, i)
}

/// Whether a node of kind `kind` with these children can be added: the arity
/// fits, and every child is there and has no parent yet.
pub open spec fn can_add(t: Seq<NodeView>, kind: NodeKind, children: Seq<usize>) -> bool {
    &&& t.len() < usize::MAX
    &&& arity_ok(kind, children.len())
    &&& forall|j: int|
        0 <= j < children.len() ==> (#[trigger] children[j]) < t.len() && t[children[j] as int].parent
            is None
}

/// The tree after a node was added: the new node is last, and its children
/// name it as their parent.
pub open spec fn with_node(
    t: Seq<NodeView>,
    kind: NodeKind,
    span: Span,
    facts: Facts,
    children: Seq<usize>,
) -> Seq<NodeView> {
    Seq::new(
        t.len() + 1,
        |i: int|
            if i == t.len() {
                NodeView { kind, span, facts, children, parent: None }
            } else if children.contains(i as usize) {
                NodeView { parent: Some(t.len() as usize), ..t[i] }
            } else {
                t[i]
            },
    )
}

/// The nearest block among the ancestors of node `i`.
pub open spec fn enclosing_block(t: Seq<NodeView>, i: int) -> Option<usize>
    decreases t.len() - i,
{
    if 0 <= i < t.len() {
        match t[i].parent {
            Some(p) => if i < p < t.len() {
                if t[p as int].kind is Block {
                    Some(p)
                } else {
                    enclosing_block(t, p as int)
                }
            } else {
                None
            },
            None => None,
        }
    } else {
        None
    }
}

/// Adding a node keeps a well-formed tree well formed.
pub proof fn lemma_with_node_well_formed(
    t: Seq<NodeView>,
    kind: NodeKind,
    span: Span,
    facts: Facts,
    children: Seq<usize>,
)
    requires
        well_formed(t),
        can_add(t, kind, children),
    ensures
        well_formed(with_node(t, kind, span, facts, children)),
{
    let out = with_node(t, kind, span, facts, children);
    let n = t.len() as int;
    assert forall|i: int| 0 <= i < out.len() implies #[trigger] node_ok(out, i) by {
        if i == n {
            assert forall|j: int| 0 <= j < out[i].children.len() implies (#[trigger] out[i].children[j])
                < i && out[out[i].children[j] as int].parent == Some(i as usize) by {
                assert(children.contains(children[j]));
            }
        } else {
            assert(node_ok(t, i));
            assert(out[i].children == t[i].children);
            assert forall|j: int| 0 <= j < out[i].children.len() implies (#[trigger] out[i].children[j])
                < i && out[out[i].children[j] as int].parent == Some(i as usize) by {
                let c = t[i].children[j];
                assert(t[c as int].parent == Some(i as usize));
                if children.contains(c) {
                    let k = choose|k: int| 0 <= k < children.len() && children[k] == c;
                    assert(t[children[k] as int].parent is None);
                }
            }
        }
    }
}

/// A program tree.
#[derive(Debug)]
pub struct Tree {
    nodes: Vec<Node>,
    parents: Vec<Option<usize>>,
}

impl View for Tree {
    type V = Seq<NodeView>;

    closed spec fn view(&self) -> Seq<NodeView> {
        view_of(self.nodes@, self.parents@)
    }
}

/// The tree that the two columns of the arena stand for.
spec fn view_of(nodes: Seq<Node>, parents: Seq<Option<usize>>) -> Seq<NodeView> {
    Seq::new(
        nodes.len(),
        |i: int|
            NodeView {
                kind: nodes[i].kind,
                span: nodes[i].span,
                facts: nodes[i].facts,
                children: nodes[i].children@,
                parent: parents[i],
            },
    )
}

impl Tree {
    #[verifier::type_invariant]
    closed spec fn inv(self) -> bool {
        self.nodes@.len() == self.parents@.len() && well_formed(self@)
    }

    /// The tree without nodes.
    pub fn new() -> (t: Tree)
        ensures
            t@.len() == 0,
            well_formed(t@),
    {
        Tree { nodes: Vec::new(), parents: Vec::new() }
    }

    /// The number of nodes.
    pub fn len(&self) -> (n: usize)
        ensures
            n == self@.len(),
            well_formed(self@),
    {
        proof {
            use_type_invariant(self);
        }
        self.nodes.len()
    }

    /// The kind of node `i`.
    pub fn kind(&self, i: usize) -> (k: NodeKind)
        requires
            i < self@.len(),
        ensures
            k == self@[i as int].kind,
            well_formed(self@),
    {
        proof {
            use_type_invariant(self);
        }
        self.nodes[i].kind
    }

    /// The span of node `i`.
    pub fn span(&self, i: usize) -> (s: Span)
        requires
            i < self@.len(),
        ensures
            s == self@[i as int].span,
    {
        self.nodes[i].span
    }

    /// The facts attached to node `i`.
    pub fn facts(&self, i: usize) -> (f: Facts)
        requires
            i < self@.len(),
        ensures
            f == self@[i as int].facts,
    {
        self.nodes[i].facts
    }

    /// The number of children of node `i`.
    pub fn child_count(&self, i: usize) -> (n: usize)
        requires
            i < self@.len(),
        ensures
            n == self@[i as int].children.len(),
            well_formed(self@),
            node_ok(self@, i as int),
    {
        proof {
            use_type_invariant(self);
        }
        self.nodes[i].children.len()
    }

    /// The child of node `i` at position `j`.
    pub fn child(&self, i: usize, j: usize) -> (c: usize)
        requires
            i < self@.len(),
            j < self@[i as int].children.len(),
        ensures
            c == self@[i as int].children[j as int],
            c < i,
            well_formed(self@),
    {
        proof {
            use_type_invariant(self);
            assert(node_ok(self@, i as int));
        }
        self.nodes[i].children[j]
    }

    /// The parent of node `i`, where it has one.
    pub fn parent(&self, i: usize) -> (p: Option<usize>)
        requires
            i < self@.len(),
        ensures
            p == self@[i as int].parent,
            p matches Some(q) ==> i < q < self@.len(),
    {
        proof {
            use_type_invariant(self);
            assert(node_ok(self@, i as int));
        }
        self.parents[i]
    }

    /// The nearest block among the ancestors of node `i`.
    pub fn block_around(&self, i: usize) -> (b: Option<usize>)
        ensures
            b == enclosing_block(self@, i as int),
            b matches Some(q) ==> i < q < self@.len() && self@[q as int].kind is Block,
    {
        if i >= self.len() {
            return None;
        }
        let mut at: usize = i;
        loop
            invariant
                i <= at < self@.len(),
                enclosing_block(self@, i as int) == enclosing_block(self@, at as int),
            decreases self@.len() - at,
        {
            match self.parent(at) {
                None => {
                    return None;
                },
                Some(p) => {
                    if let NodeKind::Block { .. } = self.kind(p) {
                        return Some(p);
                    }
                    at = p;
                },
            }
        }
    }

    /// Adds a node with the given children and returns its index. The node is
    /// refused, and the tree stays as it was, where the number of children
    /// does not fit the kind, or where a child is missing or has a parent.
    pub fn add(&mut self, kind: NodeKind, span: Span, facts: Facts, children: Vec<usize>) -> (r:
        Option<usize>)
        ensures
            well_formed(old(self)@),
            well_formed(final(self)@),
            r is Some == can_add(old(self)@, kind, children@),
            match r {
                Some(id) => id == old(self)@.len() && final(self)@ == with_node(
                    old(self)@,
                    kind,
                    span,
                    facts,
                    children@,
                ),
                None => final(self)@ == old(self)@,
            },
    {
        proof {
            use_type_invariant(&*self);
        }
        let ghost before = self@;
        let n: usize = self.nodes.len();
        if n == usize::MAX || !fits(kind, children.len()) {
            return None;
        }
        let mut j: usize = 0;
        while j < children.len()
            invariant
                0 <= j <= children@.len(),
                *self == *old(self),
                before == self@,
                well_formed(before),
                n == before.len(),
                self.nodes@.len() == self.parents@.len(),
                forall|k: int|
                    0 <= k < j ==> (#[trigger] children@[k]) < n && before[children@[k] as int].parent
                        is None,
            decreases children@.len() - j,
        {
            let c: usize = children[j];
            if c >= n {
                return None;
            }
            if self.parents[c].is_some() {
                return None;
            }
            j = j + 1;
        }
        let mut taken = Tree::new();
        core::mem::swap(self, &mut taken);
        let Tree { nodes, parents } = taken;
        let mut nodes = nodes;
        let mut parents = parents;
        let ghost old_parents = parents@;
        assert(before == view_of(nodes@, old_parents));
        j = 0;
        while j < children.len()
            invariant
                0 <= j <= children@.len(),
                parents@.len() == n,
                old_parents.len() == n,
                forall|k: int| 0 <= k < children@.len() ==> (#[trigger] children@[k]) < n,
                forall|i: int|
                    0 <= i < n ==> #[trigger] parents@[i] == if children@.subrange(0, j as int).contains(
                        i as usize,
                    ) {
                        Some(n)
                    } else {
                        old_parents[i]
                    },
            decreases children@.len() - j,
        {
            let c: usize = children[j];
            let ghost prev = parents@;
            parents.set(c, Some(n));
            proof {
                let done = children@.subrange(0, j as int);
                let next = children@.subrange(0, j + 1);
                assert(next =~= done.push(c));
                assert forall|i: int| 0 <= i < n implies #[trigger] parents@[i] == if next.contains(
                    i as usize,
                ) {
                    Some(n)
                } else {
                    old_parents[i]
                } by {
                    if i == c {
                        assert(next[j as int] == c);
                    } else if done.contains(i as usize) {
                        let k = choose|k: int| 0 <= k < done.len() && done[k] == i as usize;
                        assert(next[k] == i as usize);
                    } else if next.contains(i as usize) {
                        let k = choose|k: int| 0 <= k < next.len() && next[k] == i as usize;
                        assert(done[k] == i as usize);
                    }
                }
            }
            j = j + 1;
        }
        assert(children@.subrange(0, children@.len() as int) =~= children@);
        let ghost kids = children@;
        nodes.push(Node { kind, span, facts, children });
        parents.push(None);
        proof {
            assert(view_of(nodes@, parents@) =~= with_node(before, kind, span, facts, kids));
            lemma_with_node_well_formed(before, kind, span, facts, kids);
        }
        *self = Tree { nodes, parents };
        Some(n)
    }
}

/// Whether a node of this kind may have `n` children.
fn fits(kind: NodeKind, n: usize) -> (r: bool)
    ensures
        r == arity_ok(kind, n as nat),
{
    match kind {
        NodeKind::Path(_) => n == 0,
        NodeKind::Field(_) => n == 1,
        NodeKind::Index => n == 2,
        NodeKind::Tup => true,
        NodeKind::Call { .. } => n >= 1,
        NodeKind::MethodCall { .. } => n >= 1,
        NodeKind::AddrOf { .. } => n == 1,
        NodeKind::Assign => n == 2,
        NodeKind::Ret => n <= 1,
        NodeKind::Break => n <= 1,
        NodeKind::Block { has_tail, .. } => !has_tail || n >= 1,
        NodeKind::Closure(_) => n == 1,
        NodeKind::Body => n >= 1,
        NodeKind::StmtExpr => n == 1,
        NodeKind::StmtSemi => n == 1,
        NodeKind::Binding { .. } => true,
        NodeKind::PatTuple { .. } => true,
        NodeKind::ItemConst(_) => true,
        NodeKind::Other => true,
    }
}

} // verus!
