//! The per-rule configuration, set by the special targets `.IGNORE`,
//! `.SILENT`, `.PHONY` and `.PRECIOUS` naming the rule's targets.

use vstd::prelude::*;

verus! {

/// The per-rule flags.
#[derive(Debug, Clone, Copy, PartialEq, Eq, Structural)]
pub struct Config {
    /// Failures of this rule's recipe lines are ignored.
    pub ignore: bool,
    /// This rule's recipe lines are not printed before running.
    pub silent: bool,
    /// This rule's targets name no files and are always stale.
    pub phony: bool,
    /// This rule's targets are exempt from interrupt deletion.
    pub precious: bool,
}

impl Default for Config {
    /// All flags off.
    fn default() -> (r: Config)
        ensures
            r == (Config { ignore: false, silent: false, phony: false, precious: false }),
    {
        Config { ignore: false, silent: false, phony: false, precious: false }
    }
}

} // verus!
