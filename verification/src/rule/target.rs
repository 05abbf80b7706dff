//! Target classification: a rule's target is exactly one of simple,
//! inference (`.from.to`) or special (a reserved name), decided by name with
//! special names first, inference patterns second.

use vstd::prelude::*;

use crate::parser::lex::scan_while;
use crate::special_target::{special_name_spec, special_of, SpecialTarget};
use crate::text::{chars_to_string, str_to_chars, string_push};

verus! {

/// A target for a rule.
#[derive(Debug, Clone, PartialEq, Eq)]
pub enum Target {
    Simple { name: String },
    Inference { from: String, to: String },
    Special(SpecialTarget),
}

/// The mathematical shape of a target.
pub enum TargetV {
    Simple(Seq<char>),
    Inference(Seq<char>, Seq<char>),
    Special(SpecialTarget),
}

impl View for Target {
    type V = TargetV;

    open spec fn view(&self) -> TargetV {
        match self {
            Target::Simple { name } => TargetV::Simple(name@),
            Target::Inference { from, to } => TargetV::Inference(from@, to@),
            Target::Special(t) => TargetV::Special(*t),
        }
    }
}

/// A suffix character of an inference target: ASCII alphanumeric or `_`.
pub open spec fn is_suffix_char(c: char) -> bool {
    ('0' <= c && c <= '9') || ('a' <= c && c <= 'z') || ('A' <= c && c <= 'Z') || c == '_'
}

/// Parses `.from.to`: a leading dot, a suffix-character run, a second dot,
/// and a second run ended by nothing, a dot, a blank or a colon.
pub open spec fn parse_inference(s: Seq<char>) -> Option<(Seq<char>, Seq<char>)> {
    if s.len() == 0 || s[0] != '.' {
        None
    } else {
        let e1 = scan_while(|x: char| is_suffix_char(x), s, 1);
        if e1 >= s.len() || s[e1] != '.' {
            None
        } else {
            let e2 = scan_while(|x: char| is_suffix_char(x), s, e1 + 1);
            if e2 < s.len() && !(s[e2] == '.' || s[e2] == ' ' || s[e2] == '\t' || s[e2] == ':') {
                None
            } else {
                Some((s.subrange(1, e1), s.subrange(e1 + 1, e2)))
            }
        }
    }
}

/// Classification of a target name: special name match first, inference
/// pattern second, simple otherwise. A name is never two variants at once.
pub open spec fn classify(name: Seq<char>) -> TargetV {
    match special_of(name) {
        Some(t) => TargetV::Special(t),
        None => match parse_inference(name) {
            Some((f, t)) => TargetV::Inference(f, t),
            None => TargetV::Simple(name),
        },
    }
}

/// The name a target stands for.
pub open spec fn target_name_spec(t: TargetV) -> Seq<char> {
    match t {
        TargetV::Simple(name) => name,
        TargetV::Inference(from, to) => seq!['.'] + from + seq!['.'] + to,
        TargetV::Special(st) => special_name_spec(st),
    }
}

/// The part of a target name before any `(`: what `$@` stands for.
pub open spec fn lib_part(name: Seq<char>) -> Seq<char> {
    name.subrange(0, scan_while(|x: char| x != '(', name, 0))
}

/// The archive-member part of a library target name `lib(member)`: what
/// `$%` stands for; empty when the name has no parenthesized part.
pub open spec fn member_part(name: Seq<char>) -> Seq<char> {
    let p = scan_while(|x: char| x != '(', name, 0);
    if p >= name.len() {
        Seq::empty()
    } else {
        let q = scan_while(|x: char| x != '(', name, p + 1);
        let piece = name.subrange(p + 1, q);
        if piece.len() > 0 && piece[piece.len() - 1] == ')' {
            piece.drop_last()
        } else {
            piece
        }
    }
}

fn is_suffix_char_exec(c: char) -> (r: bool)
    ensures
        r == is_suffix_char(c),
{
    ('0' <= c && c <= '9') || ('a' <= c && c <= 'z') || ('A' <= c && c <= 'Z') || c == '_'
}

fn scan_suffix(chars: &Vec<char>, start: usize) -> (j: usize)
    requires
        start <= chars@.len(),
    ensures
        j == scan_while(|x: char| is_suffix_char(x), chars@, start as int),
        start <= j <= chars@.len(),
{
    let n = chars.len();
    let mut j = start;
    loop
        invariant
            start <= j <= n,
            n == chars@.len(),
            forall|k: int| start <= k < j ==> is_suffix_char(chars@[k]),
        ensures
            start <= j <= n,
            forall|k: int| start <= k < j ==> is_suffix_char(chars@[k]),
            j < n ==> !is_suffix_char(chars@[j as int]),
        decreases n - j,
    {
        if j >= n {
            break;
        }
        if !is_suffix_char_exec(chars[j]) {
            break;
        }
        j = j + 1;
    }
    proof {
        crate::parser::lex::lemma_scan_while_determined(
            |x: char| is_suffix_char(x),
            chars@,
            start as int,
            j as int,
        );
    }
    j
}

impl Target {
    /// Classifies `name`: a reserved special name, an inference pattern
    /// `.from.to`, or a simple target, in that order.
    pub fn new(name: String) -> (r: Target)
        ensures
            r@ == classify(name@),
    {
        if let Some(t) = Self::try_parse_special(&name) {
            return t;
        }
        if let Some(t) = Self::try_parse_inference(&name) {
            return t;
        }
        Target::Simple { name }
    }

    /// The special target `name` names, if any.
    pub fn try_parse_special(name: &String) -> (r: Option<Target>)
        ensures
            r == match special_of(name@) {
                Some(st) => Some(Target::Special(st)),
                None => None::<Target>,
            },
    {
        if *name == String::from_str(".DEFAULT") {
            Some(Target::Special(SpecialTarget::Default))
        } else if *name == String::from_str(".IGNORE") {
            Some(Target::Special(SpecialTarget::Ignore))
        } else if *name == String::from_str(".POSIX") {
            Some(Target::Special(SpecialTarget::Posix))
        } else if *name == String::from_str(".PRECIOUS") {
            Some(Target::Special(SpecialTarget::Precious))
        } else if *name == String::from_str(".SCCS_GET") {
            Some(Target::Special(SpecialTarget::SccsGet))
        } else if *name == String::from_str(".SILENT") {
            Some(Target::Special(SpecialTarget::Silent))
        } else if *name == String::from_str(".SUFFIXES") {
            Some(Target::Special(SpecialTarget::Suffixes))
        } else if *name == String::from_str(".PHONY") {
            Some(Target::Special(SpecialTarget::Phony))
        } else {
            None
        }
    }

    /// The inference target `name` spells, if any.
    pub fn try_parse_inference(name: &String) -> (r: Option<Target>)
        ensures
            match parse_inference(name@) {
                Some(ft) => r matches Some(t) && t@ == TargetV::Inference(ft.0, ft.1),
                None => r is None,
            },
    {
        let chars = str_to_chars(name.as_str());
        let n = chars.len();
        if n == 0 || chars[0] != '.' {
            return None;
        }
        let e1 = scan_suffix(&chars, 1);
        if e1 >= n || chars[e1] != '.' {
            return None;
        }
        let e2 = scan_suffix(&chars, e1 + 1);
        if e2 < n {
            let c = chars[e2];
            if !(c == '.' || c == ' ' || c == '\t' || c == ':') {
                return None;
            }
        }
        let from = chars_to_string(&crate::parser::lex::chars_sub(&chars, 1, e1));
        let to = chars_to_string(&crate::parser::lex::chars_sub(&chars, e1 + 1, e2));
        proof {
            assert(parse_inference(name@) == Some((from@, to@)));
        }
        Some(Target::Inference { from, to })
    }

    /// An owned copy with the same shape.
    pub fn duplicate(&self) -> (r: Target)
        ensures
            r@ == self@,
    {
        match self {
            Target::Simple { name } => Target::Simple { name: name.clone() },
            Target::Inference { from, to } => Target::Inference {
                from: from.clone(),
                to: to.clone(),
            },
            Target::Special(t) => Target::Special(*t),
        }
    }

    /// The name this target stands for.
    pub fn name(&self) -> (r: String)
        ensures
            r@ == target_name_spec(self@),
    {
        match self {
            Target::Simple { name } => name.clone(),
            Target::Inference { from, to } => {
                let mut s = String::new();
                string_push(&mut s, '.');
                s.append(from.as_str());
                string_push(&mut s, '.');
                s.append(to.as_str());
                proof {
                    assert(s@ =~= seq!['.'] + from@ + seq!['.'] + to@);
                }
                s
            },
            Target::Special(t) => t.name(),
        }
    }
}

} // verus!
