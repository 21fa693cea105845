//! Setting an editor up for work on the passes: what to do with the file of
//! directory-local settings, and what to tell the user.

use vstd::prelude::*;

verus! {

/// What the set-up of the settings file does next.
#[derive(Clone, Copy, Debug, PartialEq, Eq, Structural)]
pub enum SetupStep {
    /// The file is there and may not be replaced: nothing is written.
    Refuse,
    /// The file is written.
    Write,
}

/// How the work on the settings file ended.
#[derive(Clone, Copy, Debug, PartialEq, Eq, Structural)]
pub enum Outcome {
    AlreadyExists,
    CreateFailed,
    Created,
    RemoveFailed,
    Removed,
}

/// The file is left alone where it exists and may not be overridden.
pub open spec fn spec_setup_step(force_override: bool, exists: bool) -> SetupStep {
    if !force_override && exists {
        SetupStep::Refuse
    } else {
        SetupStep::Write
    }
}

/// What the set-up does, given whether the file may be overridden and
/// whether it exists.
pub fn setup_step(force_override: bool, exists: bool) -> (s: SetupStep)
    ensures
        s == spec_setup_step(force_override, exists),
{
    if !force_override && exists {
        SetupStep::Refuse
    } else {
        SetupStep::Write
    }
}

impl Outcome {
    /// How the set-up ended, given whether the file could be written.
    pub open spec fn spec_of_write(written: bool) -> Outcome {
        if written {
            Outcome::Created
        } else {
            Outcome::CreateFailed
        }
    }

    /// How the removal ended, given whether the file could be removed.
    pub open spec fn spec_of_remove(removed: bool) -> Outcome {
        if removed {
            Outcome::Removed
        } else {
            Outcome::RemoveFailed
        }
    }

    /// How the set-up ended, given whether the file could be written.
    pub fn of_write(written: bool) -> (o: Outcome)
        ensures
            o == Outcome::spec_of_write(written),
    {
        if written {
            Outcome::Created
        } else {
            Outcome::CreateFailed
        }
    }

    /// How the removal ended, given whether the file could be removed.
    pub fn of_remove(removed: bool) -> (o: Outcome)
        ensures
            o == Outcome::spec_of_remove(removed),
    {
        if removed {
            Outcome::Removed
        } else {
            Outcome::RemoveFailed
        }
    }

    /// Whether the outcome is a failure, to be told on the error stream.
    pub open spec fn spec_is_error(self) -> bool {
        self == Outcome::AlreadyExists || self == Outcome::CreateFailed || self
            == Outcome::RemoveFailed
    }

    /// Whether the outcome is a failure.
    pub fn is_error(self) -> (r: bool)
        ensures
            r == self.spec_is_error(),
    {
        match self {
            Outcome::AlreadyExists | Outcome::CreateFailed | Outcome::RemoveFailed => true,
            Outcome::Created | Outcome::Removed => false,
        }
    }

    /// The sentence that tells the outcome.
    pub open spec fn spec_message(self) -> Seq<char> {
        match self {
            Outcome::AlreadyExists => "error: `.dir-locals.el` already exists"@,
            Outcome::CreateFailed => "error: unable to create file `.dir-locals.el`"@,
            Outcome::Created => "info: created `.dir-locals.el`"@,
            Outcome::RemoveFailed => "error: unable to remove `.dir-locals.el`"@,
            Outcome::Removed => "info: removed `.dir-locals.el`"@,
        }
    }

    /// The sentence that tells the outcome.
    pub fn message(self) -> (m: &'static str)
        ensures
            m@ == self.spec_message(),
    {
        match self {
            Outcome::AlreadyExists => "error: `.dir-locals.el` already exists",
            Outcome::CreateFailed => "error: unable to create file `.dir-locals.el`",
            Outcome::Created => "info: created `.dir-locals.el`",
            Outcome::RemoveFailed => "error: unable to remove `.dir-locals.el`",
            Outcome::Removed => "info: removed `.dir-locals.el`",
        }
    }
}

} // verus!
