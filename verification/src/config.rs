//! The global configuration of a make run: the command-line flags plus the
//! built-in default suffix rules.
//!
//! Flags merge upward: a flag is effective if set at any applicable level
//! (global, rule, recipe), and no level can unset a flag set by another.

use vstd::prelude::*;

verus! {

/// The global run configuration.
#[derive(Debug, Clone, PartialEq, Eq)]
pub struct Config {
    /// Ignore errors in recipe lines.
    pub ignore: bool,
    /// Print commands instead of executing them.
    pub dry_run: bool,
    /// Do not print recipe lines before executing them.
    pub silent: bool,
    /// Update targets' modification times instead of running recipes.
    pub touch: bool,
    /// Extend recipe environments with the process environment.
    pub env_macros: bool,
    /// Report whether targets are up to date, without building.
    pub quit: bool,
    /// Clear the built-in default rules.
    pub clear: bool,
    /// Print macro definitions and target descriptions.
    pub print: bool,
    /// On a failing recipe, log and continue with other work.
    pub keep_going: bool,
    /// On a failing recipe, stop everything (overrides `keep_going`).
    pub terminate: bool,
    /// Exempt all targets from interrupt deletion.
    pub precious: bool,
    /// The known inference suffixes of the built-in `.SUFFIXES` rule.
    pub default_rules: Vec<String>,
}

/// The built-in `.SUFFIXES` list.
pub open spec fn default_suffixes() -> Seq<Seq<char>> {
    seq![
        ".o"@,
        ".c"@,
        ".y"@,
        ".l"@,
        ".a"@,
        ".sh"@,
        ".c~"@,
        ".y~"@,
        ".l~"@,
        ".sh~"@,
    ]
}

impl Default for Config {
    /// All flags off, and the built-in suffix list in place.
    fn default() -> (r: Config)
        ensures
            !r.ignore && !r.dry_run && !r.silent && !r.touch,
            !r.env_macros && !r.quit && !r.clear && !r.print,
            !r.keep_going && !r.terminate && !r.precious,
            r.default_rules.deep_view() == default_suffixes(),
    {
        let mut default_rules: Vec<String> = Vec::new();
        default_rules.push(String::from_str(".o"));
        default_rules.push(String::from_str(".c"));
        default_rules.push(String::from_str(".y"));
        default_rules.push(String::from_str(".l"));
        default_rules.push(String::from_str(".a"));
        default_rules.push(String::from_str(".sh"));
        default_rules.push(String::from_str(".c~"));
        default_rules.push(String::from_str(".y~"));
        default_rules.push(String::from_str(".l~"));
        default_rules.push(String::from_str(".sh~"));
        proof {
            assert(default_rules.deep_view() =~= default_suffixes());
        }
        Config {
            ignore: false,
            dry_run: false,
            silent: false,
            touch: false,
            env_macros: false,
            quit: false,
            clear: false,
            print: false,
            keep_going: false,
            terminate: false,
            precious: false,
            default_rules,
        }
    }
}

} // verus!
