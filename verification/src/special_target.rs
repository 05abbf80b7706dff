//! The reserved "special" target names and their load-time structural
//! constraints: each reserved name either forbids prerequisites or forbids
//! recipes, and a rule that breaks its constraint is rejected before any
//! target is built.

use vstd::prelude::*;

verus! {

/// The closed set of reserved target names.
#[derive(Debug, Clone, Copy, PartialEq, Eq, Structural)]
pub enum SpecialTarget {
    /// `.DEFAULT`: its recipe runs for a requested target that has no rule.
    Default,
    /// `.IGNORE`: ignore recipe errors, globally or for its prerequisites.
    Ignore,
    /// `.POSIX`: standard-conformance marker.
    Posix,
    /// `.PRECIOUS`: exempt its prerequisites from interrupt deletion.
    Precious,
    /// `.SCCS_GET`: reserved source-retrieval rule.
    SccsGet,
    /// `.SILENT`: do not print recipe lines, globally or for its
    /// prerequisites.
    Silent,
    /// `.SUFFIXES`: declares or clears the known inference suffixes.
    Suffixes,
    /// `.PHONY`: its prerequisites name no files and are always stale.
    Phony,
}

/// An unmet structural constraint of a special target.
#[derive(Debug, Clone, Copy, PartialEq, Eq, Structural)]
pub enum Error {
    MustNotHavePrerequisites,
    MustNotHaveRecipes,
}

/// The reserved name of each variant.
pub open spec fn special_name_spec(t: SpecialTarget) -> Seq<char> {
    match t {
        SpecialTarget::Default => ".DEFAULT"@,
        SpecialTarget::Ignore => ".IGNORE"@,
        SpecialTarget::Posix => ".POSIX"@,
        SpecialTarget::Precious => ".PRECIOUS"@,
        SpecialTarget::SccsGet => ".SCCS_GET"@,
        SpecialTarget::Silent => ".SILENT"@,
        SpecialTarget::Suffixes => ".SUFFIXES"@,
        SpecialTarget::Phony => ".PHONY"@,
    }
}

/// The special target whose reserved name is `name`, if any.
pub open spec fn special_of(name: Seq<char>) -> Option<SpecialTarget> {
    if name == special_name_spec(SpecialTarget::Default) {
        Some(SpecialTarget::Default)
    } else if name == special_name_spec(SpecialTarget::Ignore) {
        Some(SpecialTarget::Ignore)
    } else if name == special_name_spec(SpecialTarget::Posix) {
        Some(SpecialTarget::Posix)
    } else if name == special_name_spec(SpecialTarget::Precious) {
        Some(SpecialTarget::Precious)
    } else if name == special_name_spec(SpecialTarget::SccsGet) {
        Some(SpecialTarget::SccsGet)
    } else if name == special_name_spec(SpecialTarget::Silent) {
        Some(SpecialTarget::Silent)
    } else if name == special_name_spec(SpecialTarget::Suffixes) {
        Some(SpecialTarget::Suffixes)
    } else if name == special_name_spec(SpecialTarget::Phony) {
        Some(SpecialTarget::Phony)
    } else {
        None
    }
}

impl SpecialTarget {
    /// The reserved name of this variant.
    pub fn name(&self) -> (r: String)
        ensures
            r@ == special_name_spec(*self),
    {
        match self {
            SpecialTarget::Default => String::from_str(".DEFAULT"),
            SpecialTarget::Ignore => String::from_str(".IGNORE"),
            SpecialTarget::Posix => String::from_str(".POSIX"),
            SpecialTarget::Precious => String::from_str(".PRECIOUS"),
            SpecialTarget::SccsGet => String::from_str(".SCCS_GET"),
            SpecialTarget::Silent => String::from_str(".SILENT"),
            SpecialTarget::Suffixes => String::from_str(".SUFFIXES"),
            SpecialTarget::Phony => String::from_str(".PHONY"),
        }
    }

    /// Whether a rule for this special target may have prerequisites.
    pub open spec fn allows_prerequisites_spec(self) -> bool {
        match self {
            SpecialTarget::Default => false,
            SpecialTarget::Posix => false,
            SpecialTarget::SccsGet => true,
            SpecialTarget::Ignore => true,
            SpecialTarget::Precious => true,
            SpecialTarget::Silent => true,
            SpecialTarget::Suffixes => true,
            SpecialTarget::Phony => true,
        }
    }

    /// Whether a rule for this special target may have recipe lines.
    pub open spec fn allows_recipes_spec(self) -> bool {
        match self {
            SpecialTarget::Default => true,
            SpecialTarget::SccsGet => true,
            SpecialTarget::Posix => false,
            SpecialTarget::Ignore => false,
            SpecialTarget::Precious => false,
            SpecialTarget::Silent => false,
            SpecialTarget::Suffixes => false,
            SpecialTarget::Phony => false,
        }
    }
}

/// The constraint broken by a rule for special target `t` with
/// `has_prerequisites` and `has_recipes`, if any: prerequisites are checked
/// first.
pub open spec fn violation_spec(
    t: SpecialTarget,
    has_prerequisites: bool,
    has_recipes: bool,
) -> Option<Error> {
    if has_prerequisites && !t.allows_prerequisites_spec() {
        Some(Error::MustNotHavePrerequisites)
    } else if has_recipes && !t.allows_recipes_spec() {
        Some(Error::MustNotHaveRecipes)
    } else {
        None
    }
}

/// Checks the structural constraint of special target `t` against the shape
/// of its rule; this runs once, at load time, before any target is built.
pub fn validate(t: SpecialTarget, has_prerequisites: bool, has_recipes: bool) -> (r: Option<Error>)
    ensures
        r == violation_spec(t, has_prerequisites, has_recipes),
{
    let allows_prereqs = match t {
        SpecialTarget::Default => false,
        SpecialTarget::Posix => false,
        _ => true,
    };
    let allows_recipes = match t {
        SpecialTarget::Default => true,
        SpecialTarget::SccsGet => true,
        _ => false,
    };
    if has_prerequisites && !allows_prereqs {
        Some(Error::MustNotHavePrerequisites)
    } else if has_recipes && !allows_recipes {
        Some(Error::MustNotHaveRecipes)
    } else {
        None
    }
}

/// The constraint's wording in diagnostics.
pub open spec fn error_message_spec(e: Error) -> Seq<char> {
    match e {
        Error::MustNotHavePrerequisites => "the special target must not have prerequisites"@,
        Error::MustNotHaveRecipes => "the special target must not have recipes"@,
    }
}

impl Error {
    /// The constraint's wording in diagnostics.
    pub fn message(&self) -> (r: String)
        ensures
            r@ == error_message_spec(*self),
    {
        match self {
            Error::MustNotHavePrerequisites => String::from_str(
                "the special target must not have prerequisites",
            ),
            Error::MustNotHaveRecipes => String::from_str(
                "the special target must not have recipes",
            ),
        }
    }
}

} // verus!
