//! Several inherent implementations of one type: every implementation but
//! the first of its group is reported, with a pointer to the first.

use vstd::prelude::*;
use crate::conf::{Conf, InherentImplLintScope};
use crate::finding::{Finding, FindingView, Lint, Message, Remark, finding_views};
use crate::grouper::{
    Candidate, CandidateView, Criterion, Duplicate, GroupKey, candidate_views, find_duplicates,
    is_flagged, lemma_report_sound_and_complete, lemma_single_member_is_silent, report,
};
use crate::span::Span;

verus! {

/// What the pass reads of one inherent implementation.
#[derive(Debug)]
pub struct ImplBlock {
    /// The node of the implementation.
    pub node: u32,
    pub span: Span,
    /// The number of generic parameters that the implementation declares.
    pub generic_params: usize,
    /// The identity of the type that is implemented.
    pub self_ty: u64,
    /// The module that holds the implementation.
    pub module: u32,
    /// The path of the file that holds the start of `span`.
    pub path: Vec<u8>,
    /// Whether a suppression marker covers the implementation.
    pub suppressed: bool,
}

/// The mathematical value of an [`ImplBlock`].
pub struct ImplBlockView {
    pub node: u32,
    pub span: Span,
    pub generic_params: usize,
    pub self_ty: u64,
    pub module: u32,
    pub path: Seq<u8>,
    pub suppressed: bool,
}

impl View for ImplBlock {
    type V = ImplBlockView;

    open spec fn view(&self) -> ImplBlockView {
        ImplBlockView {
            node: self.node,
            span: self.span,
            generic_params: self.generic_params,
            self_ty: self.self_ty,
            module: self.module,
            path: self.path@,
            suppressed: self.suppressed,
        }
    }
}

/// The inherent implementations of one type, in the order in which the
/// program declares them.
#[derive(Debug)]
pub struct TypeImpls {
    /// Whether a suppression marker covers the definition of the type.
    pub suppressed: bool,
    pub impls: Vec<ImplBlock>,
}

/// The mathematical value of a [`TypeImpls`].
pub struct TypeImplsView {
    pub suppressed: bool,
    pub impls: Seq<ImplBlockView>,
}

impl View for TypeImpls {
    type V = TypeImplsView;

    open spec fn view(&self) -> TypeImplsView {
        TypeImplsView {
            suppressed: self.suppressed,
            impls: Seq::new(self.impls@.len(), |i: int| self.impls@[i]@),
        }
    }
}

/// The views of a sequence of types with their implementations.
pub open spec fn type_views(types: Seq<TypeImpls>) -> Seq<TypeImplsView> {
    Seq::new(types.len(), |i: int| types[i]@)
}

/// Whether an implementation takes part: the user wrote it, and it has no
/// generic parameters.
pub open spec fn takes_part(b: ImplBlockView) -> bool {
    !b.span.spec_from_expansion() && b.generic_params == 0
}

/// The criterion value of an implementation under the configured scope.
pub open spec fn criterion_of(scope: InherentImplLintScope, b: ImplBlockView) -> Criterion {
    match scope {
        InherentImplLintScope::Module => Criterion::Region(b.module),
        InherentImplLintScope::File => Criterion::File(b.span.spec_file()),
        InherentImplLintScope::Crate => Criterion::Program,
    }
}

/// The candidate that stands for an implementation.
pub open spec fn candidate_of(scope: InherentImplLintScope, b: ImplBlockView) -> CandidateView {
    CandidateView {
        key: GroupKey { ty: b.self_ty, criterion: criterion_of(scope, b) },
        node: b.node,
        span: b.span,
        path: b.path,
        suppressed: b.suppressed,
    }
}

/// The candidates among the first `n` implementations, in their order.
pub open spec fn candidates_upto(scope: InherentImplLintScope, impls: Seq<ImplBlockView>, n: int) -> Seq<
    CandidateView,
>
    decreases n,
{
    if n <= 0 {
        Seq::empty()
    } else if takes_part(impls[n - 1]) {
        candidates_upto(scope, impls, n - 1).push(candidate_of(scope, impls[n - 1]))
    } else {
        candidates_upto(scope, impls, n - 1)
    }
}

/// The finding that reports a duplicate.
pub open spec fn finding_of(d: Duplicate) -> FindingView {
    FindingView {
        lint: Lint::MultipleInherentImpl,
        span: d.span,
        message: Message::MultipleImplementations,
        note: Some(Remark { span: Some(d.canonical_span), message: Message::OtherImplementationHere }),
        help: None,
        proposal: None,
    }
}

/// The findings on one type: none where its definition is suppressed; else
/// one for each reported duplicate among its candidates.
pub open spec fn type_findings(scope: InherentImplLintScope, t: TypeImplsView) -> Seq<FindingView> {
    if t.suppressed {
        Seq::empty()
    } else {
        let dups = report(candidates_upto(scope, t.impls, t.impls.len() as int));
        Seq::new(dups.len(), |i: int| finding_of(dups[i]))
    }
}

/// The findings on the first `n` types, type after type.
pub open spec fn crate_findings(scope: InherentImplLintScope, types: Seq<TypeImplsView>, n: int) -> Seq<
    FindingView,
>
    decreases n,
{
    if n <= 0 {
        Seq::empty()
    } else {
        crate_findings(scope, types, n - 1) + type_findings(scope, types[n - 1])
    }
}

/// Whether the marker on the definition of a type decides on anything: a
/// type with fewer than two implementations has no findings either way.
pub open spec fn definition_matters(impls: Seq<ImplBlockView>) -> bool {
    impls.len() >= 2
}

/// Whether implementation `i` has company: it takes part, and so does
/// another implementation with the same key.
pub open spec fn has_company(scope: InherentImplLintScope, impls: Seq<ImplBlockView>, i: int) -> bool {
    &&& 0 <= i < impls.len()
    &&& takes_part(impls[i])
    &&& exists|j: int|
        0 <= j < impls.len() && j != i && takes_part(#[trigger] impls[j]) && candidate_of(
            scope,
            impls[j],
        ).key == candidate_of(scope, impls[i]).key
}

proof fn lemma_candidates_len(scope: InherentImplLintScope, impls: Seq<ImplBlockView>, n: int)
    requires
        0 <= n <= impls.len(),
    ensures
        candidates_upto(scope, impls, n).len() <= n,
    decreases n,
{
    if n > 0 {
        lemma_candidates_len(scope, impls, n - 1);
    }
}

/// Fewer than two candidates yield no report.
pub proof fn lemma_lone_candidate_is_silent(c: Seq<CandidateView>)
    requires
        c.len() < 2,
    ensures
        report(c) == Seq::<Duplicate>::empty(),
{
    lemma_report_sound_and_complete(c);
    if report(c).len() > 0 {
        let d = report(c)[0];
        assert(is_flagged(c, d.member as int));
        lemma_single_member_is_silent(c, d.member as int);
    }
    assert(report(c) =~= Seq::<Duplicate>::empty());
}

/// A type on whose definition the marker decides nothing has no findings,
/// whatever the marker says.
pub proof fn lemma_marker_is_moot(scope: InherentImplLintScope, t: TypeImplsView)
    requires
        !definition_matters(t.impls),
    ensures
        type_findings(scope, t) == Seq::<FindingView>::empty(),
{
    lemma_candidates_len(scope, t.impls, t.impls.len() as int);
    lemma_lone_candidate_is_silent(candidates_upto(scope, t.impls, t.impls.len() as int));
    assert(type_findings(scope, t) =~= Seq::<FindingView>::empty());
}

/// The pass that reports several inherent implementations of one type.
#[derive(Clone, Copy, Debug)]
pub struct MultipleInherentImpl {
    scope: InherentImplLintScope,
}

impl MultipleInherentImpl {
    /// The scope that the pass was configured with.
    pub closed spec fn spec_scope(&self) -> InherentImplLintScope {
        self.scope
    }

    /// The pass, with the scope that the settings name.
    pub fn new(conf: &Conf) -> (pass: MultipleInherentImpl)
        ensures
            pass.spec_scope() == conf.inherent_impl_lint_scope,
    {
        MultipleInherentImpl { scope: conf.inherent_impl_lint_scope }
    }

    /// The scope that the pass was configured with.
    #[verifier::when_used_as_spec(spec_scope)]
    pub fn scope(&self) -> (s: InherentImplLintScope)
        ensures
            s == self.spec_scope(),
    {
        self.scope
    }

    /// The candidates among the implementations of one type.
    pub fn candidates(&self, impls: &Vec<ImplBlock>) -> (out: Vec<Candidate>)
        ensures
            candidate_views(out@) == candidates_upto(
                self.spec_scope(),
                Seq::new(impls@.len(), |i: int| impls@[i]@),
                impls@.len() as int,
            ),
    {
        let ghost views = Seq::new(impls@.len(), |i: int| impls@[i]@);
        let mut out: Vec<Candidate> = Vec::new();
        let mut i: usize = 0;
        assert(candidate_views(out@) =~= candidates_upto(self.spec_scope(), views, 0));
        while i < impls.len()
            invariant
                0 <= i <= impls@.len(),
                views == Seq::new(impls@.len(), |i: int| impls@[i]@),
                candidate_views(out@) == candidates_upto(self.spec_scope(), views, i as int),
            decreases impls@.len() - i,
        {
            let b: &ImplBlock = &impls[i];
            assert(views[i as int] == b@);
            if self.takes_part(b) {
                let key: GroupKey = self.key_of(b);
                let path: Vec<u8> = b.path.clone();
                assert(path@ =~= b.path@);
                let ghost before = candidate_views(out@);
                out.push(
                    Candidate {
                        key,
                        node: b.node,
                        span: b.span,
                        path,
                        suppressed: b.suppressed,
                    },
                );
                assert(candidate_views(out@) =~= before.push(candidate_of(self.spec_scope(), b@)));
            }
            i = i + 1;
        }
        out
    }

    /// For each implementation of one type, whether it has company: whether
    /// it takes part and shares its key with another implementation that
    /// takes part. A host that looks suppression markers up at a cost needs
    /// to do so for these implementations only.
    pub fn with_company(&self, impls: &Vec<ImplBlock>) -> (out: Vec<bool>)
        ensures
            out@.len() == impls@.len(),
            forall|i: int|
                0 <= i < impls@.len() ==> #[trigger] out@[i] == has_company(
                    self.spec_scope(),
                    Seq::new(impls@.len(), |k: int| impls@[k]@),
                    i,
                ),
    {
        let ghost views = Seq::new(impls@.len(), |k: int| impls@[k]@);
        let mut out: Vec<bool> = Vec::new();
        let mut i: usize = 0;
        while i < impls.len()
            invariant
                0 <= i <= impls@.len(),
                views == Seq::new(impls@.len(), |k: int| impls@[k]@),
                out@.len() == i,
                forall|k: int| 0 <= k < i ==> #[trigger] out@[k] == has_company(self.spec_scope(), views, k),
            decreases impls@.len() - i,
        {
            let mut found: bool = false;
            if self.takes_part(&impls[i]) {
                let mut j: usize = 0;
                while j < impls.len()
                    invariant
                        0 <= j <= impls@.len(),
                        i < impls@.len(),
                        views == Seq::new(impls@.len(), |k: int| impls@[k]@),
                        takes_part(views[i as int]),
                        found == exists|k: int|
                            0 <= k < j && k != i && takes_part(#[trigger] views[k]) && candidate_of(
                                self.spec_scope(),
                                views[k],
                            ).key == candidate_of(self.spec_scope(), views[i as int]).key,
                    decreases impls@.len() - j,
                {
                    if j != i && self.takes_part(&impls[j]) && self.key_of(&impls[j]) == self.key_of(
                        &impls[i],
                    ) {
                        assert(views[j as int] == impls@[j as int]@);
                        found = true;
                    }
                    j = j + 1;
                }
            }
            out.push(found);
            i = i + 1;
        }
        out
    }

    /// Whether the marker on the definition of a type decides on anything:
    /// whether the type has two implementations or more. A host that looks
    /// suppression markers up at a cost needs to do so for these types only.
    pub fn needs_definition_marker(&self, impls: &Vec<ImplBlock>) -> (r: bool)
        ensures
            r == definition_matters(Seq::new(impls@.len(), |k: int| impls@[k]@)),
    {
        impls.len() >= 2
    }

    /// For each implementation of a type, whether its own marker decides on
    /// anything: whether the definition of the type is not suppressed and
    /// the implementation has company.
    pub fn markers_needed(&self, ty: &TypeImpls) -> (out: Vec<bool>)
        ensures
            out@.len() == ty@.impls.len(),
            forall|i: int|
                0 <= i < ty@.impls.len() ==> #[trigger] out@[i] == (!ty@.suppressed && has_company(
                    self.spec_scope(),
                    ty@.impls,
                    i,
                )),
    {
        assert(ty@.impls =~= Seq::new(ty.impls@.len(), |k: int| ty.impls@[k]@));
        if !ty.suppressed {
            return self.with_company(&ty.impls);
        }
        let mut out: Vec<bool> = Vec::new();
        let mut i: usize = 0;
        while i < ty.impls.len()
            invariant
                0 <= i <= ty.impls@.len(),
                out@.len() == i,
                forall|k: int| 0 <= k < i ==> !(#[trigger] out@[k]),
            decreases ty.impls@.len() - i,
        {
            out.push(false);
            i = i + 1;
        }
        out
    }

    fn takes_part(&self, b: &ImplBlock) -> (r: bool)
        ensures
            r == takes_part(b@),
    {
        !b.span.from_expansion() && b.generic_params == 0
    }

    fn key_of(&self, b: &ImplBlock) -> (key: GroupKey)
        ensures
            key == candidate_of(self.spec_scope(), b@).key,
    {
        let criterion: Criterion = match self.scope {
            InherentImplLintScope::Module => Criterion::Region(b.module),
            InherentImplLintScope::File => Criterion::File(b.span.file()),
            InherentImplLintScope::Crate => Criterion::Program,
        };
        GroupKey { ty: b.self_ty, criterion }
    }

    /// Reports, type by type, every inherent implementation that is not the
    /// canonical member of its group. A type with a suppressed definition is
    /// passed over, and so is an implementation that a macro produced, that
    /// has generic parameters, or that is itself suppressed.
    pub fn check_crate_post(&self, types: &Vec<TypeImpls>) -> (out: Vec<Finding>)
        ensures
            finding_views(out@) == crate_findings(
                self.spec_scope(),
                type_views(types@),
                types@.len() as int,
            ),
    {
        let ghost views = type_views(types@);
        let mut out: Vec<Finding> = Vec::new();
        let mut t: usize = 0;
        assert(finding_views(out@) =~= crate_findings(self.spec_scope(), views, 0));
        while t < types.len()
            invariant
                0 <= t <= types@.len(),
                views == type_views(types@),
                finding_views(out@) == crate_findings(self.spec_scope(), views, t as int),
            decreases types@.len() - t,
        {
            let ty: &TypeImpls = &types[t];
            assert(views[t as int] == ty@);
            let ghost so_far = finding_views(out@);
            let ghost all = candidates_upto(self.spec_scope(), ty@.impls, ty@.impls.len() as int);
            if ty.impls.len() < 2 || ty.suppressed {
                proof {
                    if !ty.suppressed {
                        lemma_candidates_len(self.spec_scope(), ty@.impls, ty@.impls.len() as int);
                        lemma_lone_candidate_is_silent(all);
                    }
                    assert(so_far + type_findings(self.spec_scope(), ty@) =~= so_far);
                }
            } else {
                let candidates: Vec<Candidate> = self.candidates(&ty.impls);
                let dups: Vec<Duplicate> = find_duplicates(&candidates);
                let mut d: usize = 0;
                while d < dups.len()
                    invariant
                        0 <= d <= dups@.len(),
                        dups@ == report(all),
                        all == candidates_upto(self.spec_scope(), ty@.impls, ty@.impls.len() as int),
                        !ty@.suppressed,
                        finding_views(out@) == so_far + type_findings(self.spec_scope(), ty@).take(
                            d as int,
                        ),
                    decreases dups@.len() - d,
                {
                    let dup: Duplicate = dups[d];
                    let ghost before = finding_views(out@);
                    out.push(
                        Finding {
                            lint: Lint::MultipleInherentImpl,
                            span: dup.span,
                            message: Message::MultipleImplementations,
                            note: Some(
                                Remark {
                                    span: Some(dup.canonical_span),
                                    message: Message::OtherImplementationHere,
                                },
                            ),
                            help: None,
                            proposal: None,
                        },
                    );
                    assert(finding_views(out@) =~= before.push(finding_of(dup)));
                    assert(type_findings(self.spec_scope(), ty@).take(d + 1) =~= type_findings(
                        self.spec_scope(),
                        ty@,
                    ).take(d as int).push(finding_of(dup)));
                    d = d + 1;
                }
                assert(type_findings(self.spec_scope(), ty@).take(dups@.len() as int)
                    =~= type_findings(self.spec_scope(), ty@));
            }
            t = t + 1;
        }
        out
    }
}

} // verus!
