//! The argument of a `map`-like function: a closure, a path, or any other
//! expression; and the test whether it is the identity function.

use vstd::prelude::*;
use vstd::string::StringExecFns;
use crate::suggestion::Applicability;
use crate::text::{binds_tightly, lower, lowered, text_of, tight};
use crate::tree::{NodeKind, NodeView, PathForm, Res, Tree};

verus! {

/// The argument of a `map`-like function, by the node of the expression.
#[derive(Clone, Copy, Debug, PartialEq, Eq, Structural)]
pub enum MapFunc {
    Closure(usize),
    Path(usize),
    Expr(usize),
}

/// Whether expression `e` is the local variable bound by pattern `pat`.
pub open spec fn is_local(t: Seq<NodeView>, e: int, pat: int) -> bool {
    &&& t[e].kind matches NodeKind::Path(info)
    &&& info.form == PathForm::Resolved
    &&& info.res == Res::Local(pat as usize)
}

/// Whether expression `e` gives back, unchanged, what pattern `pat` binds: a
/// binding by value against its own variable without adjustment, or a tuple
/// pattern without a rest against a tuple of the same length, element by
/// element.
pub open spec fn gives_back(t: Seq<NodeView>, pat: int, e: int) -> bool
    decreases pat,
{
    if 0 <= pat < t.len() && 0 <= e < t.len() {
        match t[pat].kind {
            NodeKind::Binding { by_ref, .. } => !by_ref && is_local(t, e, pat) && !t[e].facts.adjusted,
            NodeKind::PatTuple { has_rest } => {
                &&& !has_rest
                &&& t[e].kind is Tup
                &&& t[pat].children.len() == t[e].children.len()
                &&& forall|k: int|
                    0 <= k < t[pat].children.len() ==> (#[trigger] t[pat].children[k]) < pat
                        && gives_back(t, t[pat].children[k] as int, t[e].children[k] as int)
            },
            _ => false,
        }
    } else {
        false
    }
}

/// The value of the `return` expression `e`, where `e` is one with a value.
pub open spec fn returned(t: Seq<NodeView>, e: int) -> Option<usize> {
    if t[e].kind is Ret && t[e].children.len() == 1 {
        Some(t[e].children[0])
    } else {
        None
    }
}

/// What expression `e` stands for once the blocks and `return`s around its
/// value are peeled off: a block that holds nothing but a final expression
/// stands for that expression, a `return` for its value, a block that holds
/// nothing but one `return` statement for the value returned. Nothing is
/// left where a block of one statement holds something else.
pub open spec fn peeled(t: Seq<NodeView>, e: int) -> Option<usize>
    decreases e,
{
    if 0 <= e < t.len() {
        match t[e].kind {
            NodeKind::Block { has_tail, .. } => {
                if t[e].children.len() == 1 && t[e].children[0] < e {
                    let c = t[e].children[0] as int;
                    if has_tail {
                        peeled(t, c)
                    } else if (t[c].kind is StmtSemi || t[c].kind is StmtExpr) && t[c].children.len()
                        == 1 && t[c].children[0] < c && returned(t, t[c].children[0] as int) is Some
                        && returned(t, t[c].children[0] as int)->0 < t[c].children[0] {
                        peeled(t, returned(t, t[c].children[0] as int)->0 as int)
                    } else {
                        None
                    }
                } else {
                    Some(e as usize)
                }
            },
            NodeKind::Ret => if t[e].children.len() == 1 && t[e].children[0] < e {
                peeled(t, t[e].children[0] as int)
            } else {
                Some(e as usize)
            },
            _ => Some(e as usize),
        }
    } else {
        None
    }
}

/// Whether body `body` is the identity function: it has one parameter, and
/// its peeled value gives back what the parameter binds.
pub open spec fn body_is_identity(t: Seq<NodeView>, body: int) -> bool {
    &&& 0 <= body < t.len()
    &&& t[body].kind is Body
    &&& t[body].children.len() == 2
    &&& peeled(t, t[body].children[1] as int) matches Some(v)
    &&& gives_back(t, t[body].children[0] as int, v as int)
}

/// Whether the closure `c` is the identity function.
pub open spec fn closure_is_identity(t: Seq<NodeView>, c: int) -> bool {
    &&& 0 <= c < t.len()
    &&& t[c].kind is Closure
    &&& t[c].children.len() == 1
    &&& body_is_identity(t, t[c].children[0] as int)
}

impl MapFunc {
    /// The argument that expression `e` is.
    pub open spec fn spec_from(t: Seq<NodeView>, e: int) -> MapFunc {
        if 0 <= e < t.len() {
            match t[e].kind {
                NodeKind::Closure(_) => MapFunc::Closure(e as usize),
                NodeKind::Path(_) => MapFunc::Path(e as usize),
                _ => MapFunc::Expr(e as usize),
            }
        } else {
            MapFunc::Expr(e as usize)
        }
    }

    /// Whether the argument is the identity function: a closure that gives
    /// its parameter back, or the identity function of the standard library.
    pub open spec fn spec_is_identity(self, t: Seq<NodeView>) -> bool {
        match self {
            MapFunc::Closure(c) => closure_is_identity(t, c as int),
            MapFunc::Path(p) => p < t.len() && (t[p as int].kind matches NodeKind::Path(info)
                && info.res == Res::IdentityFn),
            MapFunc::Expr(_) => false,
        }
    }

    /// Whether the argument is the identity function and says nothing of
    /// types: the closure leaves the types of its parameters to inference,
    /// the path its generic arguments.
    pub open spec fn spec_is_untyped_identity(self, t: Seq<NodeView>) -> bool {
        match self {
            MapFunc::Closure(c) => closure_is_identity(t, c as int) && (t[c as int].kind
                matches NodeKind::Closure(info) && info.inputs_inferred),
            MapFunc::Path(p) => p < t.len() && (t[p as int].kind matches NodeKind::Path(info)
                && info.form == PathForm::Resolved && info.infer_args && info.res
                == Res::IdentityFn),
            MapFunc::Expr(_) => false,
        }
    }

    /// The argument that expression `e` is.
    pub fn from(tree: &Tree, e: usize) -> (f: MapFunc)
        ensures
            f == MapFunc::spec_from(tree@, e as int),
    {
        if e >= tree.len() {
            return MapFunc::Expr(e);
        }
        match tree.kind(e) {
            NodeKind::Closure(_) => MapFunc::Closure(e),
            NodeKind::Path(_) => MapFunc::Path(e),
            _ => MapFunc::Expr(e),
        }
    }

    /// Whether the argument is the identity function.
    pub fn is_expr_identity_function(&self, tree: &Tree) -> (r: bool)
        ensures
            r == self.spec_is_identity(tree@),
    {
        match *self {
            MapFunc::Closure(c) => closure_identity(tree, c),
            MapFunc::Path(p) => {
                if p >= tree.len() {
                    return false;
                }
                match tree.kind(p) {
                    NodeKind::Path(info) => info.res == Res::IdentityFn,
                    _ => false,
                }
            },
            MapFunc::Expr(_) => false,
        }
    }

    /// Whether the argument is the identity function and says nothing of
    /// types.
    pub fn is_expr_untyped_identity_function(&self, tree: &Tree) -> (r: bool)
        ensures
            r == self.spec_is_untyped_identity(tree@),
    {
        match *self {
            MapFunc::Closure(c) => {
                if c >= tree.len() {
                    return false;
                }
                match tree.kind(c) {
                    NodeKind::Closure(info) => info.inputs_inferred && closure_identity(tree, c),
                    _ => false,
                }
            },
            MapFunc::Path(p) => {
                if p >= tree.len() {
                    return false;
                }
                match tree.kind(p) {
                    NodeKind::Path(info) => info.form == PathForm::Resolved && info.infer_args
                        && info.res == Res::IdentityFn,
                    _ => false,
                }
            },
            MapFunc::Expr(_) => false,
        }
    }

    /// The text of a function that returns a boolean, to stand where the
    /// argument stood: for a closure, its parameter list and its body; for a
    /// path, the path; each negated where `invert` is set. `head` is the
    /// source text of the parameter list of the closure, or of the path;
    /// `body` that of the value of the closure. Nothing is returned, and
    /// `app` is left as it is, for any other expression and where a text
    /// that is needed cannot be had. Else `app` is lowered where a text
    /// comes from a macro.
    pub fn boolean_sugg(
        &self,
        tree: &Tree,
        invert: bool,
        app: &mut Applicability,
        head: Option<&str>,
        body: Option<&str>,
    ) -> (r: Option<String>)
        ensures
            match r {
                Some(s) => Some(s@) == self.spec_boolean_sugg(
                    tree@,
                    invert,
                    text_of(head),
                    text_of(body),
                ),
                None => self.spec_boolean_sugg(tree@, invert, text_of(head), text_of(body)) is None,
            },
            *final(app) == self.spec_lowered(tree@, *old(app), text_of(head), text_of(body)),
    {
        match *self {
            MapFunc::Closure(c) => {
                if c >= tree.len() {
                    return None;
                }
                let info = match tree.kind(c) {
                    NodeKind::Closure(info) => info,
                    _ => {
                        return None;
                    },
                };
                let n: usize = tree.child_count(c);
                let b: usize = tree.child(c, 0);
                if !is_body(tree, b) {
                    return None;
                }
                let value: usize = tree.child(b, tree.child_count(b) - 1);
                let (params, inner): (&str, &str) = match (head, body) {
                    (Some(h), Some(t)) => (h, t),
                    _ => {
                        return None;
                    },
                };
                *app = lower(*app, tree.span(value).from_expansion());
                *app = lower(*app, info.fn_decl_span.from_expansion());
                let mut s: String = String::from_str(params);
                s.append(" ");
                if invert {
                    if tight(tree.kind(value)) {
                        s.append("!");
                        s.append(inner);
                    } else {
                        s.append("!(");
                        s.append(inner);
                        s.append(")");
                    }
                } else {
                    s.append(inner);
                }
                Some(s)
            },
            MapFunc::Path(p) => {
                if p >= tree.len() {
                    return None;
                }
                let name: &str = match head {
                    Some(h) => h,
                    None => {
                        return None;
                    },
                };
                *app = lower(*app, tree.span(p).from_expansion());
                if invert {
                    let mut s: String = String::from_str("|x| !");
                    s.append(name);
                    s.append("(x)");
                    Some(s)
                } else {
                    Some(String::from_str(name))
                }
            },
            MapFunc::Expr(_) => None,
        }
    }

    /// The value of closure `c`, where `c` is a closure with a body.
    pub open spec fn closure_value(t: Seq<NodeView>, c: int) -> Option<usize> {
        if 0 <= c < t.len() && t[c].kind is Closure && t[c].children.len() == 1 && t[t[c].children[0] as int].kind
            is Body && t[t[c].children[0] as int].children.len() >= 1 {
            Some(t[t[c].children[0] as int].children.last())
        } else {
            None
        }
    }

    /// The text that `boolean_sugg` returns: none where the expression is
    /// neither a closure with a body nor a path, and none where a text that
    /// the result is made of cannot be had.
    pub open spec fn spec_boolean_sugg(
        self,
        t: Seq<NodeView>,
        invert: bool,
        head: Option<Seq<char>>,
        body: Option<Seq<char>>,
    ) -> Option<Seq<char>> {
        match self {
            MapFunc::Closure(c) => match (MapFunc::closure_value(t, c as int), head, body) {
                (Some(v), Some(h), Some(b)) => Some(
                    if !invert {
                        h + " "@ + b
                    } else if binds_tightly(t[v as int].kind) {
                        h + " "@ + "!"@ + b
                    } else {
                        h + " "@ + "!("@ + b + ")"@
                    },
                ),
                _ => None,
            },
            MapFunc::Path(p) => match head {
                Some(h) => if p < t.len() {
                    Some(
                        if invert {
                            "|x| !"@ + h + "(x)"@
                        } else {
                            h
                        },
                    )
                } else {
                    None
                },
                None => None,
            },
            MapFunc::Expr(_) => None,
        }
    }

    /// The confidence that `boolean_sugg` leaves: the one it was given where
    /// it returns nothing; else that one, lowered for each text that a macro
    /// produced.
    pub open spec fn spec_lowered(
        self,
        t: Seq<NodeView>,
        app: Applicability,
        head: Option<Seq<char>>,
        body: Option<Seq<char>>,
    ) -> Applicability {
        if self.spec_boolean_sugg(t, false, head, body) is None {
            app
        } else {
            match self {
                MapFunc::Closure(c) => lowered(
                    lowered(app, t[MapFunc::closure_value(t, c as int)->0 as int].span.spec_from_expansion()),
                    (t[c as int].kind->Closure_0).fn_decl_span.spec_from_expansion(),
                ),
                MapFunc::Path(p) => lowered(app, t[p as int].span.spec_from_expansion()),
                MapFunc::Expr(_) => app,
            }
        }
    }
}

fn is_body(tree: &Tree, b: usize) -> (r: bool)
    requires
        b < tree@.len(),
    ensures
        r == (tree@[b as int].kind is Body),
        r ==> tree@[b as int].children.len() >= 1,
{
    match tree.kind(b) {
        NodeKind::Body => {
            let _ = tree.child_count(b);
            true
        },
        _ => false,
    }
}

fn closure_identity(tree: &Tree, c: usize) -> (r: bool)
    ensures
        r == closure_is_identity(tree@, c as int),
{
    if c >= tree.len() {
        return false;
    }
    match tree.kind(c) {
        NodeKind::Closure(_) => {
            let n: usize = tree.child_count(c);
            is_body_identity_function(tree, tree.child(c, 0))
        },
        _ => false,
    }
}

/// Whether expression `e` gives back, unchanged, what pattern `pat` binds.
pub fn check_pat(tree: &Tree, pat: usize, e: usize) -> (r: bool)
    ensures
        r == gives_back(tree@, pat as int, e as int),
    decreases pat,
{
    if pat >= tree.len() || e >= tree.len() {
        return false;
    }
    match tree.kind(pat) {
        NodeKind::Binding { by_ref, .. } => {
            if by_ref || tree.facts(e).adjusted {
                return false;
            }
            match tree.kind(e) {
                NodeKind::Path(info) => info.form == PathForm::Resolved && info.res == Res::Local(pat),
                _ => false,
            }
        },
        NodeKind::PatTuple { has_rest } => {
            if has_rest {
                return false;
            }
            match tree.kind(e) {
                NodeKind::Tup => {},
                _ => {
                    return false;
                },
            }
            let n: usize = tree.child_count(pat);
            if n != tree.child_count(e) {
                return false;
            }
            let mut k: usize = 0;
            assert(crate::tree::node_ok(tree@, pat as int));
            while k < n
                invariant
                    0 <= k <= n,
                    pat < tree@.len(),
                    e < tree@.len(),
                    n == tree@[pat as int].children.len(),
                    n == tree@[e as int].children.len(),
                    tree@[pat as int].kind == (NodeKind::PatTuple { has_rest: false }),
                    tree@[e as int].kind is Tup,
                    forall|j: int|
                        0 <= j < n ==> (#[trigger] tree@[pat as int].children[j]) < pat,
                    forall|j: int|
                        0 <= j < k ==> gives_back(
                            tree@,
                            (#[trigger] tree@[pat as int].children[j]) as int,
                            tree@[e as int].children[j] as int,
                        ),
                decreases n - k,
            {
                let p: usize = tree.child(pat, k);
                let x: usize = tree.child(e, k);
                if !check_pat(tree, p, x) {
                    return false;
                }
                k = k + 1;
            }
            true
        },
        _ => false,
    }
}

/// Whether body `body` is the identity function: it has one parameter, and
/// its value, with the blocks and `return`s around it peeled off, gives back
/// what the parameter binds.
pub fn is_body_identity_function(tree: &Tree, body: usize) -> (r: bool)
    ensures
        r == body_is_identity(tree@, body as int),
{
    if body >= tree.len() {
        return false;
    }
    match tree.kind(body) {
        NodeKind::Body => {},
        _ => {
            return false;
        },
    }
    if tree.child_count(body) != 2 {
        return false;
    }
    let param: usize = tree.child(body, 0);
    let mut expr: usize = tree.child(body, 1);
    let ghost start = expr;
    loop
        invariant
            expr < tree@.len(),
            body < tree@.len(),
            tree@[body as int].kind is Body,
            tree@[body as int].children.len() == 2,
            param == tree@[body as int].children[0],
            start == tree@[body as int].children[1],
            peeled(tree@, expr as int) == peeled(tree@, start as int),
        decreases expr,
    {
        match tree.kind(expr) {
            NodeKind::Block { has_tail, .. } => {
                if tree.child_count(expr) != 1 {
                    return check_pat(tree, param, expr);
                }
                let c: usize = tree.child(expr, 0);
                if has_tail {
                    expr = c;
                } else {
                    match tree.kind(c) {
                        NodeKind::StmtSemi | NodeKind::StmtExpr => {},
                        _ => {
                            return false;
                        },
                    }
                    let n: usize = tree.child_count(c);
                    let inner: usize = tree.child(c, 0);
                    match tree.kind(inner) {
                        NodeKind::Ret => {},
                        _ => {
                            return false;
                        },
                    }
                    if tree.child_count(inner) != 1 {
                        return false;
                    }
                    expr = tree.child(inner, 0);
                }
            },
            NodeKind::Ret => {
                if tree.child_count(expr) != 1 {
                    return check_pat(tree, param, expr);
                }
                expr = tree.child(expr, 0);
            },
            _ => {
                return check_pat(tree, param, expr);
            },
        }
    }
}

} // verus!
