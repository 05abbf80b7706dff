//! A recipe line: one shell command plus its own flags, derived from the
//! reserved line prefixes `-` (ignore errors), `@` (silent) and `+` (force
//! run regardless of dry-run, touch and quit modes).

use vstd::prelude::*;

use crate::text::{chars_to_string, str_to_chars};

verus! {

/// The per-line flags of a recipe.
#[derive(Debug, Clone, Copy, PartialEq, Eq, Structural)]
pub struct Config {
    /// `-`: a failure of this line is ignored.
    pub ignore: bool,
    /// `@`: this line is not printed before running.
    pub silent: bool,
    /// `+`: this line runs even under dry-run, touch and quit modes.
    pub force_run: bool,
}

/// The mathematical shape of a parsed recipe line.
pub struct RecipeV {
    pub ignore: bool,
    pub silent: bool,
    pub force_run: bool,
    pub text: Seq<char>,
}

/// Strips the reserved prefixes off a raw recipe line, collecting the flags
/// each one sets.
pub open spec fn recipe_parse(s: Seq<char>) -> RecipeV
    decreases s.len(),
{
    if s.len() > 0 && s[0] == '-' {
        let r = recipe_parse(s.skip(1));
        RecipeV { ignore: true, ..r }
    } else if s.len() > 0 && s[0] == '@' {
        let r = recipe_parse(s.skip(1));
        RecipeV { silent: true, ..r }
    } else if s.len() > 0 && s[0] == '+' {
        let r = recipe_parse(s.skip(1));
        RecipeV { force_run: true, ..r }
    } else {
        RecipeV { ignore: false, silent: false, force_run: false, text: s }
    }
}

/// One shell command line of a rule, with the flags of its prefixes.
#[derive(Debug, Clone, PartialEq, Eq)]
pub struct Recipe {
    inner: String,
    pub config: Config,
}

impl View for Recipe {
    type V = RecipeV;

    closed spec fn view(&self) -> RecipeV {
        RecipeV {
            ignore: self.config.ignore,
            silent: self.config.silent,
            force_run: self.config.force_run,
            text: self.inner@,
        }
    }
}

impl Recipe {
    /// Parses a raw recipe line: the reserved prefixes become flags, the
    /// rest is the command text.
    pub fn new(line: String) -> (r: Recipe)
        ensures
            r@ == recipe_parse(line@),
    {
        let chars = str_to_chars(line.as_str());
        let n = chars.len();
        let mut i: usize = 0;
        let mut ignore = false;
        let mut silent = false;
        let mut force_run = false;
        proof {
            assert(line@.skip(0) =~= line@);
        }
        while i < n && (chars[i] == '-' || chars[i] == '@' || chars[i] == '+')
            invariant
                i <= n,
                n == chars@.len(),
                chars@ == line@,
                recipe_parse(line@) == (RecipeV {
                    ignore: ignore || recipe_parse(line@.skip(i as int)).ignore,
                    silent: silent || recipe_parse(line@.skip(i as int)).silent,
                    force_run: force_run || recipe_parse(line@.skip(i as int)).force_run,
                    text: recipe_parse(line@.skip(i as int)).text,
                }),
            decreases n - i,
        {
            proof {
                assert(line@.skip(i as int)[0] == line@[i as int]);
                assert(line@.skip(i as int).skip(1) =~= line@.skip(i as int + 1));
            }
            if chars[i] == '-' {
                ignore = true;
            } else if chars[i] == '@' {
                silent = true;
            } else {
                force_run = true;
            }
            i = i + 1;
        }
        proof {
            let rest = line@.skip(i as int);
            if i < n {
                assert(rest[0] == line@[i as int]);
                assert(recipe_parse(rest) == (RecipeV {
                    ignore: false,
                    silent: false,
                    force_run: false,
                    text: rest,
                }));
            } else {
                assert(rest.len() == 0);
            }
        }
        let inner = chars_to_string(&crate::parser::lex::chars_sub(&chars, i, n));
        proof {
            assert(inner@ =~= line@.skip(i as int));
        }
        Recipe { inner, config: Config { ignore, silent, force_run } }
    }

    /// A recipe from already-separated text and flags: the text is taken as
    /// it stands, with no prefix parsing.
    pub(crate) fn with_config(text: String, config: Config) -> (r: Recipe)
        ensures
            r@.text == text@,
            r@.ignore == config.ignore,
            r@.silent == config.silent,
            r@.force_run == config.force_run,
    {
        Recipe { inner: text, config }
    }

    /// The per-line flags.
    pub fn flags(&self) -> (c: Config)
        ensures
            c.ignore == self@.ignore,
            c.silent == self@.silent,
            c.force_run == self@.force_run,
    {
        self.config
    }

    /// The command text, prefixes stripped.
    pub fn inner(&self) -> (r: &String)
        ensures
            r@ == self@.text,
    {
        &self.inner
    }
}

} // verus!
