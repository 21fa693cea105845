//! The scope stack: one frame for each lexical region that is open, each
//! holding the last declaration seen in its region for every name.

use rustc_data_structures::fx::FxHashMap;
use vstd::prelude::*;
use crate::fx::{map_get, map_insert};
use crate::span::Span;

verus! {

broadcast use vstd::std_specs::hash::group_hash_axioms;

/// What kind of entity a declaration declares.
#[derive(Clone, Copy, Debug, PartialEq, Eq, Hash, Structural)]
pub enum DeclKind {
    Const,
    Impl,
    Binding,
}

/// A named entity that is visible in some scope.
#[derive(Clone, Copy, Debug, PartialEq, Eq, Structural)]
pub struct Declaration {
    pub name: u32,
    /// Where the entity is defined.
    pub span: Span,
    /// The scope that owns the declaration: the depth of its frame.
    pub scope: usize,
    pub kind: DeclKind,
}

/// The declaration of `name` in the nearest frame below index `k` that
/// holds one whose span is not `except`.
pub open spec fn find_below(
    frames: Seq<Map<u32, Declaration>>,
    name: u32,
    except: Option<Span>,
    k: int,
) -> Option<Declaration>
    decreases k,
{
    if k <= 0 || k > frames.len() {
        None
    } else if frames[k - 1].contains_key(name) && except != Some(frames[k - 1][name].span) {
        Some(frames[k - 1][name])
    } else {
        find_below(frames, name, except, k - 1)
    }
}

/// The declaration of `name` in the nearest enclosing scope: the frames are
/// searched from the one below the innermost down to the outermost.
pub open spec fn outer_declaration(frames: Seq<Map<u32, Declaration>>, name: u32) -> Option<Declaration> {
    find_below(frames, name, None, frames.len() - 1)
}

/// The declaration of `name` in the nearest enclosing scope that holds one
/// defined elsewhere than at `span`.
pub open spec fn outer_declaration_except(
    frames: Seq<Map<u32, Declaration>>,
    name: u32,
    span: Span,
) -> Option<Declaration> {
    find_below(frames, name, Some(span), frames.len() - 1)
}

/// What a search of the frames below `k` finds: nothing exactly where no
/// frame below `k` holds a fitting declaration; else the declaration of the
/// highest such frame.
pub proof fn lemma_find_below(
    frames: Seq<Map<u32, Declaration>>,
    name: u32,
    except: Option<Span>,
    k: int,
)
    requires
        0 <= k <= frames.len(),
    ensures
        find_below(frames, name, except, k) is None <==> forall|i: int|
            0 <= i < k ==> !((#[trigger] frames[i]).contains_key(name) && except != Some(
                frames[i][name].span,
            )),
        find_below(frames, name, except, k) matches Some(d) ==> exists|i: int|
            0 <= i < k && (#[trigger] frames[i]).contains_key(name) && frames[i][name] == d
                && except != Some(d.span) && forall|j: int|
                i < j < k ==> !((#[trigger] frames[j]).contains_key(name) && except != Some(
                    frames[j][name].span,
                )),
    decreases k,
{
    if k > 0 {
        lemma_find_below(frames, name, except, k - 1);
        if frames[k - 1].contains_key(name) && except != Some(frames[k - 1][name].span) {
            assert(frames[k - 1].contains_key(name) && frames[k - 1][name] == find_below(
                frames,
                name,
                except,
                k,
            )->0);
        } else if let Some(d) = find_below(frames, name, except, k - 1) {
            let i = choose|i: int|
                0 <= i < k - 1 && (#[trigger] frames[i]).contains_key(name) && frames[i][name] == d
                    && except != Some(d.span) && forall|j: int|
                    i < j < k - 1 ==> !((#[trigger] frames[j]).contains_key(name) && except != Some(
                        frames[j][name].span,
                    ));
            assert(frames[i].contains_key(name));
        }
    }
}

/// What declaring in the innermost scope does to the enclosing ones:
/// nothing. The search of the outer scopes skips the innermost frame.
pub proof fn lemma_declare_is_local(
    frames: Seq<Map<u32, Declaration>>,
    name: u32,
    decl: Declaration,
    other: u32,
    except: Option<Span>,
)
    requires
        frames.len() > 0,
    ensures
        find_below(
            frames.drop_last().push(frames.last().insert(name, decl)),
            other,
            except,
            frames.len() - 1,
        ) == find_below(frames, other, except, frames.len() - 1),
{
    let after = frames.drop_last().push(frames.last().insert(name, decl));
    lemma_find_below_agrees(frames, after, other, except, frames.len() - 1);
}

proof fn lemma_find_below_agrees(
    a: Seq<Map<u32, Declaration>>,
    b: Seq<Map<u32, Declaration>>,
    name: u32,
    except: Option<Span>,
    k: int,
)
    requires
        0 <= k <= a.len(),
        k <= b.len(),
        forall|i: int| 0 <= i < k ==> a[i] == b[i],
    ensures
        find_below(a, name, except, k) == find_below(b, name, except, k),
    decreases k,
{
    if k > 0 {
        lemma_find_below_agrees(a, b, name, except, k - 1);
    }
}

/// A step of a traversal that opens or closes a lexical region.
#[derive(Clone, Copy, Debug, PartialEq, Eq, Structural)]
pub enum ScopeEvent {
    Enter,
    Exit,
}

/// The depth of the stack after the first `n` events, from depth `d`.
pub open spec fn depth_after(d: int, events: Seq<ScopeEvent>, n: int) -> int
    decreases n,
{
    if n <= 0 {
        d
    } else if events[n - 1] == ScopeEvent::Enter {
        depth_after(d, events, n - 1) + 1
    } else {
        depth_after(d, events, n - 1) - 1
    }
}

/// The number of events of kind `kind` among the first `n`.
pub open spec fn count(events: Seq<ScopeEvent>, kind: ScopeEvent, n: int) -> int
    decreases n,
{
    if n <= 0 {
        0
    } else if events[n - 1] == kind {
        count(events, kind, n - 1) + 1
    } else {
        count(events, kind, n - 1)
    }
}

/// Whether the events pair up: no region is closed that was not opened, and
/// every region that was opened is closed.
pub open spec fn paired(events: Seq<ScopeEvent>) -> bool {
    &&& forall|n: int| 0 <= n <= events.len() ==> #[trigger] depth_after(0, events, n) >= 0
    &&& depth_after(0, events, events.len() as int) == 0
}

proof fn lemma_depth_counts(d: int, events: Seq<ScopeEvent>, n: int)
    requires
        0 <= n <= events.len(),
    ensures
        depth_after(d, events, n) == d + count(events, ScopeEvent::Enter, n) - count(
            events,
            ScopeEvent::Exit,
            n,
        ),
    decreases n,
{
    if n > 0 {
        lemma_depth_counts(d, events, n - 1);
    }
}

/// Scope balance: in a traversal that pairs its regions, as many scopes are
/// entered as are left, the stack ends at the depth it started from, and at
/// no point is it lower than that.
pub proof fn lemma_scope_balance(d: int, events: Seq<ScopeEvent>)
    requires
        d >= 0,
        paired(events),
    ensures
        count(events, ScopeEvent::Enter, events.len() as int) == count(
            events,
            ScopeEvent::Exit,
            events.len() as int,
        ),
        depth_after(d, events, events.len() as int) == d,
        forall|n: int| 0 <= n <= events.len() ==> #[trigger] depth_after(d, events, n) >= d,
{
    lemma_depth_counts(0, events, events.len() as int);
    lemma_depth_counts(d, events, events.len() as int);
    assert forall|n: int| 0 <= n <= events.len() implies #[trigger] depth_after(d, events, n)
        >= d by {
        lemma_depth_counts(0, events, n);
        lemma_depth_counts(d, events, n);
        assert(depth_after(0, events, n) >= 0);
    }
}

/// The stack of scope frames.
pub struct ScopeStack {
    frames: Vec<FxHashMap<u32, Declaration>>,
}

impl View for ScopeStack {
    type V = Seq<Map<u32, Declaration>>;

    closed spec fn view(&self) -> Seq<Map<u32, Declaration>> {
        Seq::new(self.frames@.len(), |i: int| self.frames@[i]@)
    }
}

impl ScopeStack {
    /// The stack without frames.
    pub fn new() -> (s: ScopeStack)
        ensures
            s@ == Seq::<Map<u32, Declaration>>::empty(),
    {
        let s = ScopeStack { frames: Vec::new() };
        assert(s@ =~= Seq::<Map<u32, Declaration>>::empty());
        s
    }

    /// The number of open scopes.
    pub fn depth(&self) -> (n: usize)
        ensures
            n == self@.len(),
    {
        self.frames.len()
    }

    /// Opens a scope: a new, empty frame is pushed.
    pub fn enter_scope(&mut self)
        ensures
            final(self)@ == old(self)@.push(Map::<u32, Declaration>::empty()),
    {
        self.frames.push(FxHashMap::default());
        assert(self@ =~= old(self)@.push(Map::<u32, Declaration>::empty()));
    }

    /// Closes the innermost scope: its frame is popped.
    pub fn exit_scope(&mut self)
        requires
            old(self)@.len() > 0,
        ensures
            final(self)@ == old(self)@.drop_last(),
    {
        let _ = self.frames.pop();
        assert(self@ =~= old(self)@.drop_last());
    }

    /// Declares `name` in the innermost scope. A declaration of the same
    /// name in that scope is replaced.
    pub fn declare(&mut self, name: u32, decl: Declaration)
        requires
            old(self)@.len() > 0,
        ensures
            final(self)@ == old(self)@.drop_last().push(old(self)@.last().insert(name, decl)),
    {
        let mut top: FxHashMap<u32, Declaration> = match self.frames.pop() {
            Some(top) => top,
            None => FxHashMap::default(),
        };
        map_insert(&mut top, name, decl);
        self.frames.push(top);
        assert(self@ =~= old(self)@.drop_last().push(old(self)@.last().insert(name, decl)));
    }

    /// The declaration of `name` in the nearest enclosing scope. The
    /// innermost scope is not searched.
    pub fn lookup_outer(&self, name: u32) -> (r: Option<Declaration>)
        ensures
            r == outer_declaration(self@, name),
    {
        self.search(name, None)
    }

    /// The declaration of `name` in the nearest enclosing scope that holds
    /// one defined elsewhere than at `span`. The innermost scope is not
    /// searched.
    pub fn lookup_outer_except(&self, name: u32, span: Span) -> (r: Option<Declaration>)
        ensures
            r == outer_declaration_except(self@, name, span),
    {
        self.search(name, Some(span))
    }

    fn search(&self, name: u32, except: Option<Span>) -> (r: Option<Declaration>)
        ensures
            r == find_below(self@, name, except, self@.len() - 1),
    {
        if self.frames.len() == 0 {
            return None;
        }
        let mut k: usize = self.frames.len() - 1;
        while k > 0
            invariant
                0 <= k < self.frames@.len(),
                find_below(self@, name, except, self@.len() - 1) == find_below(
                    self@,
                    name,
                    except,
                    k as int,
                ),
            decreases k,
        {
            assert(self@[k - 1] == self.frames@[k - 1]@);
            if let Some(d) = map_get(&self.frames[k - 1], name) {
                let skip: bool = match except {
                    Some(s) => s == d.span,
                    None => false,
                };
                if !skip {
                    return Some(d);
                }
            }
            k = k - 1;
        }
        None
    }
}

} // verus!
