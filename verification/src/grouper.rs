//! The equivalence grouper: declarations that share a key form a group; the
//! member that comes first by file path and byte offset is its canonical
//! member, and every other member is reported against it. The groups are
//! kept in buckets that remember the order in which their keys first came.

use vstd::prelude::*;
use crate::buckets::{
    Buckets, empty_buckets, file_under, filed, into_groups, lemma_position, position, pushed,
};
use crate::span::Span;

verus! {

/// The region within which two declarations count as duplicates.
#[derive(Clone, Copy, Debug, PartialEq, Eq, Hash, Structural)]
pub enum Criterion {
    /// The same enclosing lexical region (a module).
    Region(u32),
    /// The same source file.
    File(u32),
    /// Anywhere in the program.
    Program,
}

/// What the members of one group share.
#[derive(Clone, Copy, Debug, PartialEq, Eq, Hash, Structural)]
pub struct GroupKey {
    /// The identity of the type that the declaration is for.
    pub ty: u64,
    pub criterion: Criterion,
}

/// One occurrence of a declaration.
#[derive(Debug)]
pub struct Candidate {
    pub key: GroupKey,
    /// The node of the declaration.
    pub node: u32,
    pub span: Span,
    /// The path of the file that holds the start of `span`.
    pub path: Vec<u8>,
    /// Whether a suppression marker covers the declaration.
    pub suppressed: bool,
}

/// The mathematical value of a [`Candidate`].
pub struct CandidateView {
    pub key: GroupKey,
    pub node: u32,
    pub span: Span,
    pub path: Seq<u8>,
    pub suppressed: bool,
}

impl View for Candidate {
    type V = CandidateView;

    open spec fn view(&self) -> CandidateView {
        CandidateView {
            key: self.key,
            node: self.node,
            span: self.span,
            path: self.path@,
            suppressed: self.suppressed,
        }
    }
}

/// The views of a sequence of candidates.
pub open spec fn candidate_views(candidates: Seq<Candidate>) -> Seq<CandidateView> {
    Seq::new(candidates.len(), |i: int| candidates[i]@)
}

/// How one value stands to another in an order.
#[derive(Clone, Copy, Debug, PartialEq, Eq, Structural)]
pub enum Rank {
    Before,
    Same,
    After,
}

/// How `a` stands to `b` as byte strings, read from position `k` on: the
/// first byte that differs decides, and a string comes before its extensions.
pub open spec fn byte_rank(a: Seq<u8>, b: Seq<u8>, k: int) -> Rank
    decreases a.len() - k,
{
    if k < 0 {
        Rank::Same
    } else if k >= a.len() && k >= b.len() {
        Rank::Same
    } else if k >= a.len() {
        Rank::Before
    } else if k >= b.len() {
        Rank::After
    } else if a[k] < b[k] {
        Rank::Before
    } else if a[k] > b[k] {
        Rank::After
    } else {
        byte_rank(a, b, k + 1)
    }
}

/// Whether the path `a` comes before the path `b`.
pub open spec fn path_before(a: Seq<u8>, b: Seq<u8>) -> bool {
    byte_rank(a, b, 0) == Rank::Before
}

/// The order by which the canonical member is elected: by file path, then by
/// the byte offset at which the declaration starts.
pub open spec fn ranks_before(a: CandidateView, b: CandidateView) -> bool {
    path_before(a.path, b.path) || (a.path == b.path && a.span.spec_lo() < b.span.spec_lo())
}

proof fn lemma_rank_same(a: Seq<u8>, b: Seq<u8>, k: int)
    requires
        0 <= k,
        k <= a.len(),
        k <= b.len(),
        a.subrange(0, k) == b.subrange(0, k),
        byte_rank(a, b, k) == Rank::Same,
    ensures
        a == b,
    decreases a.len() - k,
{
    if k >= a.len() && k >= b.len() {
        assert(a =~= a.subrange(0, k));
        assert(b =~= b.subrange(0, k));
    } else {
        assert(a.subrange(0, k + 1) =~= a.subrange(0, k).push(a[k]));
        assert(b.subrange(0, k + 1) =~= b.subrange(0, k).push(b[k]));
        lemma_rank_same(a, b, k + 1);
    }
}

proof fn lemma_rank_reflexive(a: Seq<u8>, k: int)
    requires
        0 <= k,
    ensures
        byte_rank(a, a, k) == Rank::Same,
    decreases a.len() - k,
{
    if k < a.len() {
        lemma_rank_reflexive(a, k + 1);
    }
}

proof fn lemma_rank_mirror(a: Seq<u8>, b: Seq<u8>, k: int)
    requires
        0 <= k,
    ensures
        byte_rank(a, b, k) == Rank::Before <==> byte_rank(b, a, k) == Rank::After,
        byte_rank(a, b, k) == Rank::Same <==> byte_rank(b, a, k) == Rank::Same,
    decreases a.len() - k,
{
    if k < a.len() && k < b.len() && a[k] == b[k] {
        lemma_rank_mirror(a, b, k + 1);
    }
}

proof fn lemma_rank_transitive(a: Seq<u8>, b: Seq<u8>, c: Seq<u8>, k: int)
    requires
        0 <= k,
        byte_rank(a, b, k) != Rank::After,
        byte_rank(b, c, k) != Rank::After,
    ensures
        byte_rank(a, c, k) != Rank::After,
        byte_rank(a, b, k) == Rank::Before || byte_rank(b, c, k) == Rank::Before ==> byte_rank(
            a,
            c,
            k,
        ) == Rank::Before,
    decreases a.len() - k,
{
    if k < a.len() && k < b.len() && k < c.len() && a[k] == b[k] && b[k] == c[k] {
        lemma_rank_transitive(a, b, c, k + 1);
    }
}

/// No candidate ranks before itself.
pub proof fn lemma_ranks_irreflexive(a: CandidateView)
    ensures
        !ranks_before(a, a),
{
    lemma_rank_reflexive(a.path, 0);
}

/// The election order is transitive.
pub proof fn lemma_ranks_transitive(a: CandidateView, b: CandidateView, c: CandidateView)
    requires
        ranks_before(a, b),
        ranks_before(b, c),
    ensures
        ranks_before(a, c),
{
    lemma_rank_reflexive(a.path, 0);
    lemma_rank_reflexive(b.path, 0);
    lemma_rank_transitive(a.path, b.path, c.path, 0);
}

/// Of two candidates neither of which ranks before the other, both have the
/// same path and the same offset.
pub proof fn lemma_ranks_total(a: CandidateView, b: CandidateView)
    requires
        !ranks_before(a, b),
        !ranks_before(b, a),
    ensures
        a.path == b.path,
        a.span.spec_lo() == b.span.spec_lo(),
{
    lemma_rank_mirror(a.path, b.path, 0);
    assert(byte_rank(a.path, b.path, 0) == Rank::Same);
    assert(a.path.subrange(0, 0) =~= b.path.subrange(0, 0));
    lemma_rank_same(a.path, b.path, 0);
}

/// A candidate that ranks before another ranks before all that the other
/// does not come after.
pub proof fn lemma_ranks_before_floor(a: CandidateView, b: CandidateView, c: CandidateView)
    requires
        ranks_before(a, b),
        !ranks_before(c, b),
    ensures
        ranks_before(a, c),
{
    if ranks_before(b, c) {
        lemma_ranks_transitive(a, b, c);
    } else {
        lemma_ranks_total(b, c);
    }
}

/// The first candidate with the key `key`, or the number of candidates where
/// none has it.
pub open spec fn first_with_key(c: Seq<CandidateView>, key: GroupKey) -> int
    decreases c.len(),
{
    if c.len() == 0 {
        0
    } else if c[0].key == key {
        0
    } else {
        1 + first_with_key(c.drop_first(), key)
    }
}

/// Whether candidate `i` is the first of its group.
pub open spec fn is_leader(c: Seq<CandidateView>, i: int) -> bool {
    0 <= i < c.len() && first_with_key(c, c[i].key) == i
}

/// Whether candidate `i` can be elected and reported: it has the key and no
/// suppression marker covers it.
pub open spec fn is_live(c: Seq<CandidateView>, key: GroupKey, i: int) -> bool {
    0 <= i < c.len() && c[i].key == key && !c[i].suppressed
}

/// The canonical member among the first `n` candidates of the group `key`:
/// a later live member replaces an earlier one only where it ranks before it.
pub open spec fn elect(c: Seq<CandidateView>, key: GroupKey, n: int) -> Option<int>
    decreases n,
{
    if n <= 0 {
        None
    } else {
        let prev = elect(c, key, n - 1);
        if is_live(c, key, n - 1) {
            match prev {
                None => Some(n - 1),
                Some(b) => if ranks_before(c[n - 1], c[b]) {
                    Some(n - 1)
                } else {
                    Some(b)
                },
            }
        } else {
            prev
        }
    }
}

/// The canonical member of the group `key`, where the group has a live
/// member.
pub open spec fn canonical(c: Seq<CandidateView>, key: GroupKey) -> Option<int> {
    elect(c, key, c.len() as int)
}

/// Whether candidate `i` is reported: it is live and is not the canonical
/// member of its group.
pub open spec fn is_flagged(c: Seq<CandidateView>, i: int) -> bool {
    &&& 0 <= i < c.len()
    &&& !c[i].suppressed
    &&& canonical(c, c[i].key) matches Some(b)
    &&& i != b
}

/// One duplicate: a member of a group, reported against the canonical member.
#[derive(Clone, Copy, Debug, PartialEq, Eq, Structural)]
pub struct Duplicate {
    /// The index of the reported candidate.
    pub member: usize,
    /// The index of the canonical member of its group.
    pub canonical: usize,
    /// Where the reported candidate is.
    pub span: Span,
    /// Where the canonical member is.
    pub canonical_span: Span,
}

/// The report on candidate `i`, made against the canonical member `b`.
pub open spec fn duplicate_of(c: Seq<CandidateView>, i: int, b: int) -> Duplicate {
    Duplicate {
        member: i as usize,
        canonical: b as usize,
        span: c[i].span,
        canonical_span: c[b].span,
    }
}

/// The reports on the members of the group `key` among the first `n`
/// candidates, in their order.
pub open spec fn group_report(c: Seq<CandidateView>, key: GroupKey, n: int) -> Seq<Duplicate>
    decreases n,
{
    if n <= 0 {
        Seq::empty()
    } else {
        let prev = group_report(c, key, n - 1);
        match canonical(c, key) {
            Some(b) => if is_live(c, key, n - 1) && n - 1 != b {
                prev.push(duplicate_of(c, n - 1, b))
            } else {
                prev
            },
            None => prev,
        }
    }
}

/// The reports on the groups whose first member is among the first `m`
/// candidates: group after group, in the order of their first members.
pub open spec fn report_upto(c: Seq<CandidateView>, m: int) -> Seq<Duplicate>
    decreases m,
{
    if m <= 0 {
        Seq::empty()
    } else if is_leader(c, m - 1) {
        report_upto(c, m - 1) + group_report(c, c[m - 1].key, c.len() as int)
    } else {
        report_upto(c, m - 1)
    }
}

/// All reports on the candidates.
pub open spec fn report(c: Seq<CandidateView>) -> Seq<Duplicate> {
    report_upto(c, c.len() as int)
}

/// What election yields among the first `n` candidates: nothing exactly
/// where the group has no live member among them; else a live member that
/// none ranks before, and that ranks before every live member in front of it.
pub proof fn lemma_elect(c: Seq<CandidateView>, key: GroupKey, n: int)
    requires
        0 <= n <= c.len(),
    ensures
        elect(c, key, n) is None <==> forall|j: int| 0 <= j < n ==> !is_live(c, key, j),
        elect(c, key, n) matches Some(b) ==> {
            &&& 0 <= b < n
            &&& is_live(c, key, b)
            &&& forall|j: int| 0 <= j < n && is_live(c, key, j) ==> !ranks_before(c[j], c[b])
            &&& forall|j: int| 0 <= j < b && is_live(c, key, j) ==> ranks_before(c[b], c[j])
        },
    decreases n,
{
    if n > 0 {
        lemma_elect(c, key, n - 1);
        let prev = elect(c, key, n - 1);
        let i = n - 1;
        if is_live(c, key, i) {
            match prev {
                None => {
                    lemma_ranks_irreflexive(c[i]);
                },
                Some(b) => {
                    if ranks_before(c[i], c[b]) {
                        lemma_ranks_irreflexive(c[i]);
                        assert forall|j: int| 0 <= j < n && is_live(c, key, j) implies !ranks_before(
                            c[j],
                            c[i],
                        ) by {
                            if j < i && ranks_before(c[j], c[i]) {
                                lemma_ranks_transitive(c[j], c[i], c[b]);
                            }
                        }
                        assert forall|j: int| 0 <= j < i && is_live(c, key, j) implies ranks_before(
                            c[i],
                            c[j],
                        ) by {
                            lemma_ranks_before_floor(c[i], c[b], c[j]);
                        }
                    }
                },
            }
        }
    }
}

/// The canonical member of a group is the live member with the smallest file
/// path and, within a path, the smallest offset; the first of them in the
/// order of the candidates where several are smallest.
pub proof fn lemma_canonical_is_smallest(c: Seq<CandidateView>, key: GroupKey)
    ensures
        canonical(c, key) is None <==> forall|j: int| 0 <= j < c.len() ==> !is_live(c, key, j),
        canonical(c, key) matches Some(b) ==> {
            &&& is_live(c, key, b)
            &&& forall|j: int| is_live(c, key, j) ==> !ranks_before(c[j], c[b])
            &&& forall|j: int| 0 <= j < b && is_live(c, key, j) ==> ranks_before(c[b], c[j])
        },
{
    lemma_elect(c, key, c.len() as int);
}

/// A group with a single live member reports nothing: its one member is the
/// canonical member.
pub proof fn lemma_single_member_is_silent(c: Seq<CandidateView>, i: int)
    requires
        0 <= i < c.len(),
        !c[i].suppressed,
        forall|j: int| 0 <= j < c.len() && j != i ==> !is_live(c, c[i].key, j),
    ensures
        !is_flagged(c, i),
{
    lemma_canonical_is_smallest(c, c[i].key);
    assert(is_live(c, c[i].key, i));
}

/// A candidate that is reported has company: another live candidate of its
/// group, its canonical member.
pub proof fn lemma_flagged_has_company(c: Seq<CandidateView>, i: int)
    requires
        is_flagged(c, i),
    ensures
        exists|j: int| j != i && #[trigger] is_live(c, c[i].key, j),
{
    lemma_canonical_is_smallest(c, c[i].key);
    let b = canonical(c, c[i].key)->0;
    assert(is_live(c, c[i].key, b));
}

/// `first_with_key` is within bounds, points at a candidate with the key
/// where it is an index, and no candidate in front of it has the key.
pub proof fn lemma_first_with_key(c: Seq<CandidateView>, key: GroupKey)
    ensures
        0 <= first_with_key(c, key) <= c.len(),
        first_with_key(c, key) < c.len() ==> c[first_with_key(c, key)].key == key,
        forall|j: int| 0 <= j < first_with_key(c, key) ==> (#[trigger] c[j]).key != key,
    decreases c.len(),
{
    if c.len() > 0 && c[0].key != key {
        let rest = c.drop_first();
        lemma_first_with_key(rest, key);
        assert forall|j: int| 0 <= j < first_with_key(c, key) implies (#[trigger] c[j]).key
            != key by {
            if j > 0 {
                assert(c[j] == rest[j - 1]);
            }
        }
    }
}

/// The reports on a group are about members of the group among the first `n`
/// candidates that are live and are not the canonical member; they come in
/// the order of the candidates.
pub proof fn lemma_group_report(c: Seq<CandidateView>, key: GroupKey, n: int)
    requires
        0 <= n <= c.len(),
        c.len() <= usize::MAX,
    ensures
        forall|p: int|
            0 <= p < group_report(c, key, n).len() ==> {
                let d = #[trigger] group_report(c, key, n)[p];
                &&& d.member < n
                &&& is_live(c, key, d.member as int)
                &&& canonical(c, key) == Some(d.canonical as int)
                &&& d == duplicate_of(c, d.member as int, d.canonical as int)
                &&& d.member != d.canonical
            },
        forall|p: int, q: int|
            0 <= p < q < group_report(c, key, n).len() ==> (#[trigger] group_report(c, key, n)[p]).member
                < (#[trigger] group_report(c, key, n)[q]).member,
        forall|i: int|
            0 <= i < n && is_live(c, key, i) && is_flagged(c, i) ==> exists|p: int|
                0 <= p < group_report(c, key, n).len() && (#[trigger] group_report(c, key, n)[p]).member
                    == i,
    decreases n,
{
    if n > 0 {
        lemma_group_report(c, key, n - 1);
        lemma_canonical_is_smallest(c, key);
        let prev = group_report(c, key, n - 1);
        let now = group_report(c, key, n);
        assert forall|i: int| 0 <= i < n && is_live(c, key, i) && is_flagged(c, i) implies exists|
            p: int,
        |
            0 <= p < now.len() && (#[trigger] now[p]).member == i by {
            if i < n - 1 {
                let p = choose|p: int| 0 <= p < prev.len() && (#[trigger] prev[p]).member == i;
                assert(now[p].member == i);
            } else {
                assert(now[now.len() - 1].member == i);
            }
        }
    }
}

/// Every report names a candidate that is live and is not the canonical
/// member of its own group, and every such candidate is reported.
pub proof fn lemma_report_sound_and_complete(c: Seq<CandidateView>)
    requires
        c.len() <= usize::MAX,
    ensures
        forall|p: int|
            0 <= p < report(c).len() ==> {
                let d = #[trigger] report(c)[p];
                &&& is_flagged(c, d.member as int)
                &&& canonical(c, c[d.member as int].key) == Some(d.canonical as int)
                &&& d == duplicate_of(c, d.member as int, d.canonical as int)
            },
        forall|i: int|
            is_flagged(c, i) ==> exists|p: int|
                0 <= p < report(c).len() && (#[trigger] report(c)[p]).member == i,
{
    lemma_report_upto(c, c.len() as int);
    assert forall|i: int| is_flagged(c, i) implies exists|p: int|
        0 <= p < report(c).len() && (#[trigger] report(c)[p]).member == i by {
        lemma_first_with_key(c, c[i].key);
    }
}

proof fn lemma_report_upto(c: Seq<CandidateView>, m: int)
    requires
        0 <= m <= c.len(),
        c.len() <= usize::MAX,
    ensures
        forall|p: int|
            0 <= p < report_upto(c, m).len() ==> {
                let d = #[trigger] report_upto(c, m)[p];
                &&& is_flagged(c, d.member as int)
                &&& canonical(c, c[d.member as int].key) == Some(d.canonical as int)
                &&& d == duplicate_of(c, d.member as int, d.canonical as int)
            },
        forall|i: int|
            is_flagged(c, i) && first_with_key(c, c[i].key) < m ==> exists|p: int|
                0 <= p < report_upto(c, m).len() && (#[trigger] report_upto(c, m)[p]).member == i,
    decreases m,
{
    if m > 0 {
        lemma_report_upto(c, m - 1);
        let prev = report_upto(c, m - 1);
        let now = report_upto(c, m);
        if is_leader(c, m - 1) {
            let key = c[m - 1].key;
            let group = group_report(c, key, c.len() as int);
            lemma_group_report(c, key, c.len() as int);
            assert forall|p: int| 0 <= p < now.len() implies {
                let d = #[trigger] now[p];
                &&& is_flagged(c, d.member as int)
                &&& canonical(c, c[d.member as int].key) == Some(d.canonical as int)
                &&& d == duplicate_of(c, d.member as int, d.canonical as int)
            } by {
                if p >= prev.len() {
                    assert(now[p] == group[p - prev.len()]);
                } else {
                    assert(now[p] == prev[p]);
                }
            }
            assert forall|i: int|
                is_flagged(c, i) && first_with_key(c, c[i].key) < m implies exists|p: int|
                0 <= p < now.len() && (#[trigger] now[p]).member == i by {
                if first_with_key(c, c[i].key) < m - 1 {
                    let p = choose|p: int| 0 <= p < prev.len() && (#[trigger] prev[p]).member == i;
                    assert(now[p] == prev[p]);
                } else {
                    lemma_first_with_key(c, c[i].key);
                    assert(c[i].key == key);
                    let p = choose|p: int| 0 <= p < group.len() && (#[trigger] group[p]).member == i;
                    assert(now[prev.len() + p] == group[p]);
                }
            }
        } else {
            assert forall|i: int|
                is_flagged(c, i) && first_with_key(c, c[i].key) < m implies exists|p: int|
                0 <= p < now.len() && (#[trigger] now[p]).member == i by {
                if first_with_key(c, c[i].key) == m - 1 {
                    lemma_first_with_key(c, c[i].key);
                    assert(c[m - 1].key == c[i].key);
                    assert(is_leader(c, m - 1));
                }
            }
        }
    } else {
        assert forall|i: int| is_flagged(c, i) implies first_with_key(c, c[i].key) >= 0 by {
            lemma_first_with_key(c, c[i].key);
        }
    }
}

/// How `a` stands to `b` as byte strings.
pub fn rank_bytes(a: &Vec<u8>, b: &Vec<u8>) -> (r: Rank)
    ensures
        r == byte_rank(a@, b@, 0),
{
    let mut k: usize = 0;
    while k < a.len() && k < b.len()
        invariant
            0 <= k <= a.len(),
            k <= b.len(),
            byte_rank(a@, b@, 0) == byte_rank(a@, b@, k as int),
        decreases a.len() - k,
    {
        if a[k] < b[k] {
            return Rank::Before;
        }
        if a[k] > b[k] {
            return Rank::After;
        }
        k = k + 1;
    }
    if k < b.len() {
        Rank::Before
    } else if k < a.len() {
        Rank::After
    } else {
        Rank::Same
    }
}

/// Whether `a` is elected over `b`.
pub fn outranks(a: &Candidate, b: &Candidate) -> (r: bool)
    ensures
        r == ranks_before(a@, b@),
{
    match rank_bytes(&a.path, &b.path) {
        Rank::Before => true,
        Rank::Same => {
            proof {
                assert(a@.path.subrange(0, 0) =~= b@.path.subrange(0, 0));
                lemma_rank_same(a@.path, b@.path, 0);
            }
            a.span.lo() < b.span.lo()
        },
        Rank::After => {
            proof {
                lemma_rank_reflexive(a@.path, 0);
            }
            false
        },
    }
}

/// The key as the triple of integers under which it is filed: no two keys
/// have the same.
pub open spec fn key_code(key: GroupKey) -> (u64, u8, u32) {
    match key.criterion {
        Criterion::Region(r) => (key.ty, 0u8, r),
        Criterion::File(f) => (key.ty, 1u8, f),
        Criterion::Program => (key.ty, 2u8, 0u32),
    }
}

/// The candidates with the key `key` among the first `n`, in their order.
pub open spec fn members_of(c: Seq<CandidateView>, key: GroupKey, n: int) -> Seq<usize>
    decreases n,
{
    if n <= 0 {
        Seq::empty()
    } else if c[n - 1].key == key {
        members_of(c, key, n - 1).push((n - 1) as usize)
    } else {
        members_of(c, key, n - 1)
    }
}

/// The first members of the groups among the first `n` candidates, in their
/// order.
pub open spec fn leaders_upto(c: Seq<CandidateView>, n: int) -> Seq<int>
    decreases n,
{
    if n <= 0 {
        Seq::empty()
    } else if is_leader(c, n - 1) {
        leaders_upto(c, n - 1).push(n - 1)
    } else {
        leaders_upto(c, n - 1)
    }
}

/// What the buckets hold once the first `n` candidates are filed.
pub open spec fn filed_upto(c: Seq<CandidateView>, n: int) -> Seq<((u64, u8, u32), Seq<usize>)>
    decreases n,
{
    if n <= 0 {
        Seq::empty()
    } else {
        pushed(filed_upto(c, n - 1), key_code(c[n - 1].key), (n - 1) as usize)
    }
}

/// The same, said directly: one bucket for each group, in the order of
/// their first members, each with the members of its group in their order.
pub open spec fn grouped_upto(c: Seq<CandidateView>, n: int) -> Seq<((u64, u8, u32), Seq<usize>)> {
    Seq::new(
        leaders_upto(c, n).len(),
        |k: int| (key_code(c[leaders_upto(c, n)[k]].key), members_of(c, c[leaders_upto(c, n)[k]].key, n)),
    )
}

/// Whether `i` is a candidate that no suppression marker covers.
pub open spec fn unsuppressed(c: Seq<CandidateView>, i: int) -> bool {
    0 <= i < c.len() && !c[i].suppressed
}

/// The canonical member among `members`: a later member that is not
/// suppressed replaces an earlier one only where it ranks before it.
pub open spec fn elect_among(c: Seq<CandidateView>, members: Seq<usize>) -> Option<int>
    decreases members.len(),
{
    if members.len() == 0 {
        None
    } else {
        let prev = elect_among(c, members.drop_last());
        let i = members.last() as int;
        if unsuppressed(c, i) {
            match prev {
                None => Some(i),
                Some(b) => if ranks_before(c[i], c[b]) {
                    Some(i)
                } else {
                    Some(b)
                },
            }
        } else {
            prev
        }
    }
}

/// The reports on `members` against the canonical member `b`, in their
/// order.
pub open spec fn list_report(c: Seq<CandidateView>, members: Seq<usize>, b: int) -> Seq<Duplicate>
    decreases members.len(),
{
    if members.len() == 0 {
        Seq::empty()
    } else {
        let prev = list_report(c, members.drop_last(), b);
        let i = members.last() as int;
        if unsuppressed(c, i) && i != b {
            prev.push(duplicate_of(c, i, b))
        } else {
            prev
        }
    }
}

/// The reports on one bucket.
pub open spec fn bucket_report(c: Seq<CandidateView>, members: Seq<usize>) -> Seq<Duplicate> {
    match elect_among(c, members) {
        Some(b) => list_report(c, members, b),
        None => Seq::empty(),
    }
}

/// The reports on the first `k` buckets, bucket after bucket.
pub open spec fn buckets_report(
    c: Seq<CandidateView>,
    e: Seq<((u64, u8, u32), Seq<usize>)>,
    k: int,
) -> Seq<Duplicate>
    decreases k,
{
    if k <= 0 {
        Seq::empty()
    } else {
        buckets_report(c, e, k - 1) + bucket_report(c, e[k - 1].1)
    }
}

proof fn lemma_members_empty(c: Seq<CandidateView>, key: GroupKey, n: int)
    requires
        0 <= n <= c.len(),
        forall|j: int| 0 <= j < n ==> (#[trigger] c[j]).key != key,
    ensures
        members_of(c, key, n) == Seq::<usize>::empty(),
    decreases n,
{
    if n > 0 {
        lemma_members_empty(c, key, n - 1);
    }
}

proof fn lemma_members_elect(c: Seq<CandidateView>, key: GroupKey, n: int)
    requires
        0 <= n <= c.len(),
        c.len() <= usize::MAX,
    ensures
        elect_among(c, members_of(c, key, n)) == elect(c, key, n),
    decreases n,
{
    if n > 0 {
        lemma_members_elect(c, key, n - 1);
        if c[n - 1].key == key {
            let before = members_of(c, key, n - 1);
            assert(before.push((n - 1) as usize).drop_last() =~= before);
        }
    }
}

proof fn lemma_members_report(c: Seq<CandidateView>, key: GroupKey, n: int, b: int)
    requires
        0 <= n <= c.len(),
        c.len() <= usize::MAX,
        canonical(c, key) == Some(b),
    ensures
        list_report(c, members_of(c, key, n), b) == group_report(c, key, n),
    decreases n,
{
    if n > 0 {
        lemma_members_report(c, key, n - 1, b);
        if c[n - 1].key == key {
            let before = members_of(c, key, n - 1);
            assert(before.push((n - 1) as usize).drop_last() =~= before);
        }
    }
}

proof fn lemma_bucket_is_group(c: Seq<CandidateView>, key: GroupKey)
    requires
        c.len() <= usize::MAX,
    ensures
        bucket_report(c, members_of(c, key, c.len() as int)) == group_report(c, key, c.len() as int),
{
    lemma_members_elect(c, key, c.len() as int);
    match canonical(c, key) {
        Some(b) => {
            lemma_members_report(c, key, c.len() as int, b);
        },
        None => {
            lemma_group_silent(c, key, c.len() as int);
        },
    }
}

proof fn lemma_leaders(c: Seq<CandidateView>, n: int)
    requires
        0 <= n <= c.len(),
    ensures
        forall|k: int|
            0 <= k < leaders_upto(c, n).len() ==> 0 <= (#[trigger] leaders_upto(c, n)[k]) < n && is_leader(
                c,
                leaders_upto(c, n)[k],
            ),
        forall|j: int|
            0 <= j < n && is_leader(c, j) ==> exists|k: int|
                0 <= k < leaders_upto(c, n).len() && #[trigger] leaders_upto(c, n)[k] == j,
        forall|k: int, l: int|
            0 <= k < l < leaders_upto(c, n).len() ==> (#[trigger] leaders_upto(c, n)[k])
                < #[trigger] leaders_upto(c, n)[l],
    decreases n,
{
    if n > 0 {
        lemma_leaders(c, n - 1);
        let prev = leaders_upto(c, n - 1);
        let now = leaders_upto(c, n);
        assert forall|j: int| 0 <= j < n && is_leader(c, j) implies exists|k: int|
            0 <= k < now.len() && #[trigger] now[k] == j by {
            if j < n - 1 {
                let k = choose|k: int| 0 <= k < prev.len() && #[trigger] prev[k] == j;
                assert(now[k] == j);
            } else {
                assert(now[now.len() - 1] == j);
            }
        }
    }
}

proof fn lemma_leaders_prefix(c: Seq<CandidateView>, m: int, n: int)
    requires
        0 <= m <= n <= c.len(),
    ensures
        leaders_upto(c, m).len() <= leaders_upto(c, n).len(),
        forall|k: int|
            0 <= k < leaders_upto(c, m).len() ==> #[trigger] leaders_upto(c, n)[k] == leaders_upto(c, m)[k],
    decreases n - m,
{
    if m < n {
        lemma_leaders_prefix(c, m, n - 1);
    }
}

proof fn lemma_filed_is_grouped(c: Seq<CandidateView>, n: int)
    requires
        0 <= n <= c.len(),
        c.len() <= usize::MAX,
    ensures
        filed_upto(c, n) == grouped_upto(c, n),
    decreases n,
{
    if n > 0 {
        lemma_filed_is_grouped(c, n - 1);
        let x = n - 1;
        let key = c[x].key;
        let code = key_code(key);
        let before = filed_upto(c, x);
        let lead = leaders_upto(c, x);
        let first = first_with_key(c, key);
        lemma_leaders(c, x);
        lemma_position(before, code);
        lemma_first_with_key(c, key);
        let p = position(before, code);
        assert(first <= x) by {
            if first > x {
                assert(c[x].key != key);
            }
        }
        assert forall|k: int| 0 <= k < lead.len() && c[lead[k]].key == key implies lead[k]
            == first by {
            assert(is_leader(c, lead[k]));
        }
        assert forall|k: int| 0 <= k < lead.len() implies (#[trigger] before[k]).0 == key_code(
            c[lead[k]].key,
        ) by {}
        if first == x {
            if p < before.len() {
                assert(before[p].0 == code);
                assert(c[lead[p]].key == key);
                assert(false);
            }
            lemma_members_empty(c, key, x);
            assert(is_leader(c, x));
            assert forall|k: int| 0 <= k < lead.len() implies members_of(c, c[lead[k]].key, n)
                == members_of(c, c[lead[k]].key, x) by {
                assert(c[lead[k]].key != key);
            }
            assert(filed_upto(c, n) =~= grouped_upto(c, n));
        } else {
            assert(is_leader(c, first));
            let k0 = choose|k: int| 0 <= k < lead.len() && #[trigger] lead[k] == first;
            assert(before[k0].0 == code);
            assert(p <= k0) by {
                if p > k0 {
                    assert(before[k0].0 != code);
                }
            }
            assert(before[p].0 == code);
            assert(c[lead[p]].key == key);
            assert(lead[p] == first);
            assert(p == k0) by {
                if p < k0 {
                    assert(lead[p] < lead[k0]);
                }
            }
            assert(!is_leader(c, x));
            assert forall|k: int| 0 <= k < lead.len() && k != p implies members_of(
                c,
                c[lead[k]].key,
                n,
            ) == members_of(c, c[lead[k]].key, x) by {
                if c[lead[k]].key == key {
                    assert(lead[k] == first);
                    if k < p {
                        assert(lead[k] < lead[p]);
                    } else {
                        assert(lead[p] < lead[k]);
                    }
                }
            }
            assert(filed_upto(c, n) =~= grouped_upto(c, n));
        }
    } else {
        assert(filed_upto(c, n) =~= grouped_upto(c, n));
    }
}

proof fn lemma_buckets_report(c: Seq<CandidateView>, m: int)
    requires
        0 <= m <= c.len(),
        c.len() <= usize::MAX,
    ensures
        report_upto(c, m) == buckets_report(
            c,
            filed_upto(c, c.len() as int),
            leaders_upto(c, m).len() as int,
        ),
    decreases m,
{
    if m > 0 {
        lemma_buckets_report(c, m - 1);
        if is_leader(c, m - 1) {
            let k = leaders_upto(c, m - 1).len() as int;
            lemma_filed_is_grouped(c, c.len() as int);
            lemma_leaders_prefix(c, m, c.len() as int);
            assert(leaders_upto(c, m)[k] == m - 1);
            assert(leaders_upto(c, c.len() as int)[k] == m - 1);
            lemma_bucket_is_group(c, c[m - 1].key);
        }
    }
}

fn code_of(key: GroupKey) -> (code: (u64, u8, u32))
    ensures
        code == key_code(key),
{
    match key.criterion {
        Criterion::Region(r) => (key.ty, 0u8, r),
        Criterion::File(f) => (key.ty, 1u8, f),
        Criterion::Program => (key.ty, 2u8, 0u32),
    }
}

fn elect_member(candidates: &Vec<Candidate>, members: &Vec<usize>) -> (r: Option<usize>)
    ensures
        match r {
            Some(b) => elect_among(candidate_views(candidates@), members@) == Some(b as int) && b
                < candidates@.len(),
            None => elect_among(candidate_views(candidates@), members@) is None,
        },
{
    let ghost c = candidate_views(candidates@);
    let mut best: Option<usize> = None;
    let mut k: usize = 0;
    while k < members.len()
        invariant
            0 <= k <= members@.len(),
            c == candidate_views(candidates@),
            match best {
                Some(b) => elect_among(c, members@.take(k as int)) == Some(b as int) && b
                    < candidates@.len(),
                None => elect_among(c, members@.take(k as int)) is None,
            },
        decreases members@.len() - k,
    {
        let i: usize = members[k];
        assert(members@.take(k + 1).drop_last() =~= members@.take(k as int));
        assert(members@.take(k + 1).last() == i);
        if i < candidates.len() {
            let here: &Candidate = &candidates[i];
            assert(c[i as int] == here@);
            if !here.suppressed {
                match best {
                    None => {
                        best = Some(i);
                    },
                    Some(b) => {
                        assert(c[b as int] == candidates@[b as int]@);
                        if outranks(here, &candidates[b]) {
                            best = Some(i);
                        }
                    },
                }
            }
        }
        k = k + 1;
    }
    assert(members@.take(members@.len() as int) =~= members@);
    best
}

proof fn lemma_small_bucket_is_silent(c: Seq<CandidateView>, members: Seq<usize>)
    requires
        members.len() < 2,
    ensures
        bucket_report(c, members) == Seq::<Duplicate>::empty(),
{
    if members.len() == 1 {
        assert(members.drop_last().len() == 0);
        assert(elect_among(c, members.drop_last()) is None);
        match elect_among(c, members) {
            Some(b) => {
                assert(b == members.last() as int);
                assert(list_report(c, members.drop_last(), b) == Seq::<Duplicate>::empty());
            },
            None => {},
        }
    }
}

fn report_bucket(candidates: &Vec<Candidate>, members: &Vec<usize>, out: &mut Vec<Duplicate>)
    ensures
        final(out)@ == old(out)@ + bucket_report(candidate_views(candidates@), members@),
{
    let ghost c = candidate_views(candidates@);
    let ghost so_far = out@;
    assert(so_far + Seq::<Duplicate>::empty() =~= so_far);
    if members.len() < 2 {
        proof {
            lemma_small_bucket_is_silent(c, members@);
        }
        return ;
    }
    match elect_member(candidates, members) {
        Some(b) => {
            let mut k: usize = 0;
            while k < members.len()
                invariant
                    0 <= k <= members@.len(),
                    c == candidate_views(candidates@),
                    b < candidates@.len(),
                    out@ == so_far + list_report(c, members@.take(k as int), b as int),
                decreases members@.len() - k,
            {
                let i: usize = members[k];
                assert(members@.take(k + 1).drop_last() =~= members@.take(k as int));
                assert(members@.take(k + 1).last() == i);
                assert(c[b as int] == candidates@[b as int]@);
                if i < candidates.len() {
                    let here: &Candidate = &candidates[i];
                    assert(c[i as int] == here@);
                    if !here.suppressed && i != b {
                        out.push(
                            Duplicate {
                                member: i,
                                canonical: b,
                                span: here.span,
                                canonical_span: candidates[b].span,
                            },
                        );
                    }
                }
                assert(out@ =~= so_far + list_report(c, members@.take(k + 1), b as int));
                k = k + 1;
            }
            assert(members@.take(members@.len() as int) =~= members@);
        },
        None => {},
    }
}

/// Groups the candidates by key, elects the canonical member of each group,
/// and reports every other live member against it: group after group in the
/// order of their first members, the members of a group in their order.
pub fn find_duplicates(candidates: &Vec<Candidate>) -> (out: Vec<Duplicate>)
    ensures
        out@ == report(candidate_views(candidates@)),
{
    let ghost c = candidate_views(candidates@);
    let n: usize = candidates.len();
    let mut buckets: Buckets = empty_buckets();
    let mut i: usize = 0;
    while i < n
        invariant
            n == candidates@.len(),
            c == candidate_views(candidates@),
            0 <= i <= n,
            filed(buckets) == filed_upto(c, i as int),
        decreases n - i,
    {
        file_under(&mut buckets, code_of(candidates[i].key), i);
        i = i + 1;
    }
    let ghost e = filed(buckets);
    let groups: Vec<Vec<usize>> = into_groups(buckets);
    let mut out: Vec<Duplicate> = Vec::new();
    let mut k: usize = 0;
    while k < groups.len()
        invariant
            0 <= k <= groups@.len(),
            c == candidate_views(candidates@),
            groups@.len() == e.len(),
            forall|j: int| 0 <= j < groups@.len() ==> (#[trigger] groups@[j])@ == e[j].1,
            out@ == buckets_report(c, e, k as int),
        decreases groups@.len() - k,
    {
        report_bucket(candidates, &groups[k], &mut out);
        k = k + 1;
    }
    proof {
        lemma_filed_is_grouped(c, n as int);
        lemma_buckets_report(c, n as int);
    }
    out
}

proof fn lemma_group_silent(c: Seq<CandidateView>, key: GroupKey, n: int)
    requires
        canonical(c, key) is None,
    ensures
        group_report(c, key, n) == Seq::<Duplicate>::empty(),
    decreases n,
{
    if n > 0 {
        lemma_group_silent(c, key, n - 1);
    }
}

} // verus!
