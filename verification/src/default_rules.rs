//! The built-in inference suffixes as a closed enumeration.

use vstd::prelude::*;

use crate::text::str_to_chars;

verus! {

/// One of the built-in `.SUFFIXES` entries.
#[derive(Debug, Clone, Copy, PartialEq, Eq, Structural)]
#[allow(non_camel_case_types)]
pub enum Suffix {
    O,
    C,
    Y,
    L,
    A,
    Sh,
    C_Tilde,
    Y_Tilde,
    L_Tilde,
    Sh_Tilde,
}

/// The built-in suffix named by `ext`, if any.
pub open spec fn suffix_spec(ext: Seq<char>) -> Option<Suffix> {
    if ext == seq!['.', 'o'] {
        Some(Suffix::O)
    } else if ext == seq!['.', 'c'] {
        Some(Suffix::C)
    } else if ext == seq!['.', 'y'] {
        Some(Suffix::Y)
    } else if ext == seq!['.', 'l'] {
        Some(Suffix::L)
    } else if ext == seq!['.', 'a'] {
        Some(Suffix::A)
    } else if ext == seq!['.', 's', 'h'] {
        Some(Suffix::Sh)
    } else if ext == seq!['.', 'c', '~'] {
        Some(Suffix::C_Tilde)
    } else if ext == seq!['.', 'y', '~'] {
        Some(Suffix::Y_Tilde)
    } else if ext == seq!['.', 'l', '~'] {
        Some(Suffix::L_Tilde)
    } else if ext == seq!['.', 's', 'h', '~'] {
        Some(Suffix::Sh_Tilde)
    } else {
        None
    }
}

impl Suffix {
    /// Classifies an extension (with its leading dot) as a built-in suffix.
    pub fn from_extension(ext: &str) -> (r: Option<Suffix>)
        ensures
            r == suffix_spec(ext@),
    {
        let v = str_to_chars(ext);
        let n = v.len();
        if n < 2 || n > 4 || v[0] != '.' {
            return None;
        }
        if n == 2 {
            let c = v[1];
            let r = if c == 'o' {
                Some(Suffix::O)
            } else if c == 'c' {
                Some(Suffix::C)
            } else if c == 'y' {
                Some(Suffix::Y)
            } else if c == 'l' {
                Some(Suffix::L)
            } else if c == 'a' {
                Some(Suffix::A)
            } else {
                None
            };
            proof {
                assert(v@.len() == 2 && v@[0] == '.');
                assert(v@ =~= seq!['.', v@[1]]);
            }
            r
        } else if n == 3 {
            let c1 = v[1];
            let c2 = v[2];
            let r = if c1 == 's' && c2 == 'h' {
                Some(Suffix::Sh)
            } else if c2 == '~' && c1 == 'c' {
                Some(Suffix::C_Tilde)
            } else if c2 == '~' && c1 == 'y' {
                Some(Suffix::Y_Tilde)
            } else if c2 == '~' && c1 == 'l' {
                Some(Suffix::L_Tilde)
            } else {
                None
            };
            proof {
                assert(v@ =~= seq!['.', v@[1], v@[2]]);
            }
            r
        } else {
            let r = if v[1] == 's' && v[2] == 'h' && v[3] == '~' {
                Some(Suffix::Sh_Tilde)
            } else {
                None
            };
            proof {
                assert(v@ =~= seq!['.', v@[1], v@[2], v@[3]]);
            }
            r
        }
    }
}

} // verus!
