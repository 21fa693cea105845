//! Storage places: a base variable and the projections that lead from it to
//! a part of its value.

use vstd::prelude::*;
use crate::tree::{NodeKind, NodeView, Res, Tree};

verus! {

/// One step from a value to a part of it.
#[derive(Clone, Copy, Debug, PartialEq, Eq, Hash, Structural)]
pub enum Projection {
    /// The field with this name.
    Field(u32),
    /// Some element.
    Index,
}

/// A storage place. The base is the binding of a local variable; the path
/// leads from the variable to the place, outermost step last.
#[derive(Debug)]
pub struct Place {
    pub base: usize,
    pub path: Vec<Projection>,
}

/// The mathematical value of a [`Place`].
pub struct PlaceView {
    pub base: usize,
    pub path: Seq<Projection>,
}

impl View for Place {
    type V = PlaceView;

    open spec fn view(&self) -> PlaceView {
        PlaceView { base: self.base, path: self.path@ }
    }
}

impl Place {
    /// The variable that owns the place.
    pub fn root(&self) -> (v: usize)
        ensures
            v == self@.base,
    {
        self.base
    }

    /// Whether two places are the same: the same base, and the same
    /// projections one by one.
    pub fn same(&self, other: &Place) -> (r: bool)
        ensures
            r == (self@ == other@),
    {
        if self.base != other.base || self.path.len() != other.path.len() {
            assert(self@.path.len() != other@.path.len() ==> self@.path != other@.path);
            return false;
        }
        let mut i: usize = 0;
        while i < self.path.len()
            invariant
                0 <= i <= self.path@.len(),
                self.path@.len() == other.path@.len(),
                forall|k: int| 0 <= k < i ==> self.path@[k] == other.path@[k],
            decreases self.path@.len() - i,
        {
            if self.path[i] != other.path[i] {
                return false;
            }
            i = i + 1;
        }
        assert(self@.path =~= other@.path);
        true
    }
}

/// The place that expression `e` denotes, where the expression is a local
/// variable followed by field accesses only.
pub open spec fn place_of(t: Seq<NodeView>, e: int) -> Option<PlaceView>
    decreases e,
{
    if 0 <= e < t.len() {
        match t[e].kind {
            NodeKind::Path(info) => match info.res {
                Res::Local(base) => Some(PlaceView { base, path: Seq::empty() }),
                _ => None,
            },
            NodeKind::Field(name) => if t[e].children.len() == 1 && t[e].children[0] < e {
                match place_of(t, t[e].children[0] as int) {
                    Some(p) => Some(PlaceView { base: p.base, path: p.path.push(Projection::Field(name)) }),
                    None => None,
                }
            } else {
                None
            },
            _ => None,
        }
    } else {
        None
    }
}

/// The place of expression `e` with the steps `outer` behind it; `outer`
/// holds the steps innermost last.
spec fn place_under(t: Seq<NodeView>, e: int, outer: Seq<Projection>) -> Option<PlaceView> {
    match place_of(t, e) {
        Some(p) => Some(PlaceView { base: p.base, path: p.path + outer.reverse() }),
        None => None,
    }
}

/// The place that expression `e` denotes, where the expression is a local
/// variable followed by field accesses only. The projections are peeled off
/// one by one, without recursion.
pub fn local_base(tree: &Tree, e: usize) -> (r: Option<Place>)
    ensures
        match r {
            Some(p) => place_of(tree@, e as int) == Some(p@),
            None => place_of(tree@, e as int) is None,
        },
{
    if e >= tree.len() {
        return None;
    }
    let mut at: usize = e;
    let mut outer: Vec<Projection> = Vec::new();
    assert(outer@.reverse() =~= Seq::<Projection>::empty());
    assert(place_under(tree@, at as int, outer@) == place_of(tree@, e as int)) by {
        if let Some(p) = place_of(tree@, e as int) {
            assert(p.path + outer@.reverse() =~= p.path);
        }
    }
    loop
        invariant
            at < tree@.len(),
            place_under(tree@, at as int, outer@) == place_of(tree@, e as int),
        decreases at,
    {
        match tree.kind(at) {
            NodeKind::Path(info) => {
                match info.res {
                    Res::Local(base) => {
                        let path: Vec<Projection> = reversed(&outer);
                        assert(Seq::<Projection>::empty() + outer@.reverse() =~= path@);
                        return Some(Place { base, path });
                    },
                    _ => {
                        return None;
                    },
                }
            },
            NodeKind::Field(name) => {
                let n: usize = tree.child_count(at);
                assert(n == 1);
                let below: usize = tree.child(at, 0);
                let ghost before = outer@;
                outer.push(Projection::Field(name));
                proof {
                    if let Some(p) = place_of(tree@, below as int) {
                        assert(outer@.reverse() =~= seq![Projection::Field(name)] + before.reverse());
                        assert(p.path + outer@.reverse() =~= p.path.push(Projection::Field(name))
                            + before.reverse());
                    }
                }
                at = below;
            },
            _ => {
                return None;
            },
        }
    }
}

/// The projections in the opposite order.
fn reversed(v: &Vec<Projection>) -> (r: Vec<Projection>)
    ensures
        r@ == v@.reverse(),
{
    let mut r: Vec<Projection> = Vec::new();
    let mut i: usize = v.len();
    while i > 0
        invariant
            0 <= i <= v@.len(),
            r@.len() == v@.len() - i,
            forall|k: int| 0 <= k < r@.len() ==> r@[k] == v@[v@.len() - 1 - k],
        decreases i,
    {
        i = i - 1;
        r.push(v[i]);
    }
    assert(r@ =~= v@.reverse());
    r
}

} // verus!
