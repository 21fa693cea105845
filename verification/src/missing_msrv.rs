//! A package of a recent edition that declares no oldest supported release.

use vstd::prelude::*;
use crate::finding::{Finding, FindingView, Lint, Message};
use crate::span::{ROOT_CTXT, Span};

verus! {

/// The editions of the language.
#[derive(Clone, Copy, Debug, PartialEq, Eq, Hash, Structural)]
pub enum Edition {
    E2015,
    E2018,
    E2021,
    E2024,
    E2027,
    E2030,
}

impl Edition {
    /// The year of the edition.
    pub open spec fn spec_year(self) -> u32 {
        match self {
            Edition::E2015 => 2015,
            Edition::E2018 => 2018,
            Edition::E2021 => 2021,
            Edition::E2024 => 2024,
            Edition::E2027 => 2027,
            Edition::E2030 => 2030,
        }
    }

    /// The year of the edition.
    pub fn year(self) -> (y: u32)
        ensures
            y == self.spec_year(),
    {
        match self {
            Edition::E2015 => 2015,
            Edition::E2018 => 2018,
            Edition::E2021 => 2021,
            Edition::E2024 => 2024,
            Edition::E2027 => 2027,
            Edition::E2030 => 2030,
        }
    }
}

/// What the pass reads of a package.
#[derive(Clone, Copy, Debug, PartialEq, Eq, Structural)]
pub struct Package {
    pub edition: Edition,
    /// Whether the package declares the oldest release it supports.
    pub has_rust_version: bool,
    /// The number of dependencies.
    pub dependencies: usize,
    /// The number of registries that the package may be published to, where
    /// the package restricts them.
    pub publish: Option<usize>,
}

/// Whether a package lacks a declaration that it should have: its edition
/// is later than 2021, it declares no oldest release, it has dependencies,
/// and it can be published.
pub open spec fn lacks_msrv(p: Package) -> bool {
    &&& p.edition.spec_year() > 2021
    &&& !p.has_rust_version
    &&& p.dependencies > 0
    &&& (p.publish matches Some(n) ==> n > 0)
}

/// The span of a finding that speaks of no place in the source.
pub open spec fn dummy_span() -> Span {
    Span::spec_make(0, 0, 0, ROOT_CTXT)
}

/// The finding on a package without a declared oldest release.
pub open spec fn msrv_finding() -> FindingView {
    FindingView {
        lint: Lint::MissingMsrv,
        span: dummy_span(),
        message: Message::MissingRustVersion,
        note: None,
        help: None,
        proposal: None,
    }
}

/// The finding on the first package of a workspace, where there is one.
pub fn check(first: Option<&Package>) -> (r: Option<Finding>)
    ensures
        match r {
            Some(f) => (first matches Some(p) && lacks_msrv(*p)) && f@ == msrv_finding(),
            None => !(first matches Some(p) && lacks_msrv(*p)),
        },
{
    let p: &Package = match first {
        Some(p) => p,
        None => {
            return None;
        },
    };
    let publishable: bool = match p.publish {
        Some(n) => n > 0,
        None => true,
    };
    if p.edition.year() > 2021 && !p.has_rust_version && p.dependencies > 0 && publishable {
        Some(
            Finding {
                lint: Lint::MissingMsrv,
                span: Span::new(0, 0, 0),
                message: Message::MissingRustVersion,
                note: None,
                help: None,
                proposal: None,
            },
        )
    } else {
        None
    }
}

} // verus!
