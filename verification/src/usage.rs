//! The usage classifier: one sweep over the occurrences of a function body,
//! in the order in which the body is written, that collects the variables
//! that the body moves out of; and the cache that keeps the result for the
//! body under analysis.

use rustc_data_structures::fx::FxHashSet;
use vstd::prelude::*;
use crate::fx::{set_contains, set_insert};
use crate::place::{local_base, place_of};
use crate::tree::{NodeView, Tree};

verus! {

broadcast use vstd::std_specs::hash::group_hash_axioms;

/// What an occurrence does to the storage location that it reads.
#[derive(Clone, Copy, Debug, PartialEq, Eq, Hash, Structural)]
pub enum UsageKind {
    /// The value is moved out.
    Consume,
    /// A reference is taken.
    Borrow,
    /// The value is modified in place.
    Mutate,
    /// The value is read for the sake of typing only.
    FakeRead,
}

/// One occurrence that reads a storage location.
#[derive(Clone, Copy, Debug, PartialEq, Eq, Hash, Structural)]
pub struct Usage {
    pub kind: UsageKind,
    /// Whether the location belongs to a local variable.
    pub local: bool,
    /// The expression that names the location.
    pub node: usize,
}

/// The variable that an occurrence moves out of, where it moves out of one:
/// the owner of the place that a consuming occurrence names.
pub open spec fn moved_by(t: Seq<NodeView>, u: Usage) -> Option<usize> {
    if u.kind == UsageKind::Consume && u.local {
        match place_of(t, u.node as int) {
            Some(p) => Some(p.base),
            None => None,
        }
    } else {
        None
    }
}

/// The variables that the first `n` occurrences move out of.
pub open spec fn moved_upto(t: Seq<NodeView>, events: Seq<Usage>, n: int) -> Set<usize>
    decreases n,
{
    if n <= 0 {
        Set::empty()
    } else {
        match moved_by(t, events[n - 1]) {
            Some(v) => moved_upto(t, events, n - 1).insert(v),
            None => moved_upto(t, events, n - 1),
        }
    }
}

/// The moved set of a body: the variables that its occurrences move out of.
pub open spec fn moved_set(t: Seq<NodeView>, events: Seq<Usage>) -> Set<usize> {
    moved_upto(t, events, events.len() as int)
}

/// A variable is in the moved set exactly when some consuming occurrence of
/// a local names a place that the variable owns. Borrows, mutations and
/// fake reads add nothing.
pub proof fn lemma_moved_iff_consumed(t: Seq<NodeView>, events: Seq<Usage>, n: int, v: usize)
    requires
        0 <= n <= events.len(),
    ensures
        moved_upto(t, events, n).contains(v) <==> exists|i: int|
            0 <= i < n && moved_by(t, #[trigger] events[i]) == Some(v),
    decreases n,
{
    if n > 0 {
        lemma_moved_iff_consumed(t, events, n - 1, v);
        if moved_upto(t, events, n).contains(v) {
            if moved_by(t, events[n - 1]) == Some(v) {
            } else {
                let i = choose|i: int| 0 <= i < n - 1 && moved_by(t, #[trigger] events[i]) == Some(v);
                assert(moved_by(t, events[i]) == Some(v));
            }
        }
    }
}

/// Once a variable is moved it stays moved: the moved set only grows along
/// the body.
pub proof fn lemma_moved_grows(t: Seq<NodeView>, events: Seq<Usage>, m: int, n: int)
    requires
        0 <= m <= n <= events.len(),
    ensures
        moved_upto(t, events, m).subset_of(moved_upto(t, events, n)),
    decreases n - m,
{
    if m < n {
        lemma_moved_grows(t, events, m, n - 1);
    }
}

/// One sweep over the occurrences of a body: the variables it moves out of.
pub fn classify(tree: &Tree, events: &Vec<Usage>) -> (moved: FxHashSet<usize>)
    ensures
        moved@ == moved_set(tree@, events@),
{
    let mut moved: FxHashSet<usize> = FxHashSet::default();
    let mut i: usize = 0;
    while i < events.len()
        invariant
            0 <= i <= events@.len(),
            moved@ == moved_upto(tree@, events@, i as int),
        decreases events@.len() - i,
    {
        let u: Usage = events[i];
        if u.kind == UsageKind::Consume && u.local {
            if let Some(place) = local_base(tree, u.node) {
                set_insert(&mut moved, place.root());
            }
        }
        i = i + 1;
    }
    moved
}

/// What the cache answers from: the set it holds, or else the set that is
/// computed now.
pub open spec fn answer_from(held: Option<Set<usize>>, computed: Set<usize>) -> Set<usize> {
    match held {
        Some(s) => s,
        None => computed,
    }
}

/// Asking twice gives the same set: what the first query left in the cache
/// is what the second one answers from, whatever would be computed by then.
pub proof fn lemma_query_idempotent(held: Option<Set<usize>>, first: Set<usize>, second: Set<usize>)
    ensures
        answer_from(Some(answer_from(held, first)), second) == answer_from(held, first),
{
}

/// The moved sets of the bodies under analysis, innermost last. The set of a
/// body is computed on the first query and kept until the body is left.
pub struct MovedCache {
    stack: Vec<Option<FxHashSet<usize>>>,
}

impl View for MovedCache {
    type V = Seq<Option<Set<usize>>>;

    closed spec fn view(&self) -> Seq<Option<Set<usize>>> {
        Seq::new(
            self.stack@.len(),
            |i: int|
                match self.stack@[i] {
                    Some(s) => Some(s@),
                    None => None,
                },
        )
    }
}

impl MovedCache {
    /// The cache with no body under analysis.
    pub fn new() -> (c: MovedCache)
        ensures
            c@ == Seq::<Option<Set<usize>>>::empty(),
    {
        let c = MovedCache { stack: Vec::new() };
        assert(c@ =~= Seq::<Option<Set<usize>>>::empty());
        c
    }

    /// The number of bodies under analysis.
    pub fn depth(&self) -> (n: usize)
        ensures
            n == self@.len(),
    {
        self.stack.len()
    }

    /// Enters a body: its moved set is not computed yet.
    pub fn enter_body(&mut self)
        ensures
            final(self)@ == old(self)@.push(None),
    {
        self.stack.push(None);
        assert(self@ =~= old(self)@.push(None));
    }

    /// Leaves the innermost body, and forgets its moved set.
    pub fn leave_body(&mut self)
        requires
            old(self)@.len() > 0,
        ensures
            final(self)@ == old(self)@.drop_last(),
    {
        let _ = self.stack.pop();
        assert(self@ =~= old(self)@.drop_last());
    }

    /// Whether the moved set of the innermost body is computed.
    pub fn is_computed(&self) -> (r: bool)
        requires
            self@.len() > 0,
        ensures
            r == self@.last().is_some(),
    {
        self.stack[self.stack.len() - 1].is_some()
    }

    /// Whether the innermost body moves out of `var`. The moved set is
    /// computed from `events` on the first query of the body; later queries
    /// answer from the set that is kept.
    pub fn is_moved(&mut self, tree: &Tree, events: &Vec<Usage>, var: usize) -> (r: bool)
        requires
            old(self)@.len() > 0,
        ensures
            r == answer_from(old(self)@.last(), moved_set(tree@, events@)).contains(var),
            final(self)@ == old(self)@.drop_last().push(
                Some(answer_from(old(self)@.last(), moved_set(tree@, events@))),
            ),
    {
        let set: FxHashSet<usize> = match self.stack.pop() {
            Some(Some(kept)) => kept,
            _ => classify(tree, events),
        };
        let r: bool = set_contains(&set, var);
        self.stack.push(Some(set));
        assert(self@ =~= old(self)@.drop_last().push(
            Some(answer_from(old(self)@.last(), moved_set(tree@, events@))),
        ));
        r
    }
}

} // verus!
