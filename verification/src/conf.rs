//! The settings that the passes read.

use vstd::prelude::*;

verus! {

/// The region within which several inherent implementations of one type are
/// reported.
#[derive(Clone, Copy, Debug, PartialEq, Eq, Hash, Structural)]
pub enum InherentImplLintScope {
    /// Anywhere in the crate.
    Crate,
    /// Within one file.
    File,
    /// Within one module.
    Module,
}

/// A release of the compiler.
#[derive(Clone, Copy, Debug, PartialEq, Eq, Hash, Structural)]
pub struct RustcVersion {
    pub major: u32,
    pub minor: u32,
    pub patch: u32,
}

impl RustcVersion {
    /// Whether this release is `other` or a later one.
    pub open spec fn spec_at_least(self, other: RustcVersion) -> bool {
        ||| self.major > other.major
        ||| (self.major == other.major && self.minor > other.minor)
        ||| (self.major == other.major && self.minor == other.minor && self.patch >= other.patch)
    }

    /// Whether this release is `other` or a later one.
    pub fn at_least(self, other: RustcVersion) -> (r: bool)
        ensures
            r == self.spec_at_least(other),
    {
        self.major > other.major || (self.major == other.major && (self.minor > other.minor || (
        self.minor == other.minor && self.patch >= other.patch)))
    }
}

/// The oldest release that the checked code has to build with, where one is
/// declared.
#[derive(Clone, Copy, Debug, PartialEq, Eq, Hash, Structural)]
pub struct Msrv {
    pub version: Option<RustcVersion>,
}

impl Msrv {
    /// Whether code may rely on what came with `required`: no oldest release
    /// is declared, or the declared one is `required` or later.
    pub open spec fn spec_meets(self, required: RustcVersion) -> bool {
        match self.version {
            Some(v) => v.spec_at_least(required),
            None => true,
        }
    }

    /// Whether code may rely on what came with `required`.
    pub fn meets(self, required: RustcVersion) -> (r: bool)
        ensures
            r == self.spec_meets(required),
    {
        match self.version {
            Some(v) => v.at_least(required),
            None => true,
        }
    }
}

/// The release from which a diverging tail expression no longer falls back
/// to the unit type.
pub open spec fn spec_unit_never_type_fallback() -> RustcVersion {
    RustcVersion { major: 1, minor: 85, patch: 0 }
}

/// The release from which a diverging tail expression no longer falls back
/// to the unit type.
pub fn unit_never_type_fallback() -> (v: RustcVersion)
    ensures
        v == spec_unit_never_type_fallback(),
{
    RustcVersion { major: 1, minor: 85, patch: 0 }
}

/// The settings of all passes.
#[derive(Clone, Copy, Debug, PartialEq, Eq, Structural)]
pub struct Conf {
    /// Whether a mutable borrow of a copied value is reported inside tests.
    pub check_copy_then_borrow_mut_in_tests: bool,
    /// Where several inherent implementations of one type are reported.
    pub inherent_impl_lint_scope: InherentImplLintScope,
    /// The oldest release that the checked code has to build with.
    pub msrv: Msrv,
}

} // verus!
