//! The macro preprocessor: builds the macro table from assignment lines,
//! expands `$X`, `$(name)` and `${name}` references to a fixpoint, resolves
//! file-inclusion lines, and collects one diagnostic string per problem
//! instead of stopping at the first.
//!
//! Running a shell for a `!=` assignment and reading a file named by an
//! inclusion line are outside work: [`preprocess_full`] asks for them one at
//! a time, and the caller performs them and hands the results back in through
//! response tables (command to captured output, path to file contents);
//! everything else is computed here. [`preprocess`] is the entry point for
//! documents that need no outside work.

use vstd::prelude::*;

use crate::parser::lex::{inclusion_word, is_ident_char, scan_while};
use crate::text::{char_whitespace, chars_to_string, is_whitespace, string_push, str_to_chars};

verus! {

/// The diagnostics of one preprocessor pass, one string per problem found.
#[derive(Debug)]
pub struct PreprocError(pub Vec<String>);

impl PreprocError {
    /// Concatenates two diagnostic collections, keeping order.
    pub fn join(self, other: Self) -> (r: Self)
        ensures
            r.0.deep_view() == self.0.deep_view() + other.0.deep_view(),
    {
        let mut errors = self.0;
        let mut rest = other.0;
        errors.append(&mut rest);
        proof {
            assert(errors.deep_view() =~= self.0.deep_view() + other.0.deep_view());
        }
        PreprocError(errors)
    }
}

/// An ordered name-to-value table; a name maps to at most one current value.
pub type Table = Seq<(Seq<char>, Seq<char>)>;

/// The value of `name` in `t`: the first entry with that name, if any.
pub open spec fn table_lookup(t: Table, name: Seq<char>) -> Option<Seq<char>>
    decreases t.len(),
{
    if t.len() == 0 {
        None
    } else if t[0].0 == name {
        Some(t[0].1)
    } else {
        table_lookup(t.skip(1), name)
    }
}

/// `t` with `name` bound to `value`: replaces the first entry with that name,
/// or appends a new entry when none exists.
pub open spec fn table_insert(t: Table, name: Seq<char>, value: Seq<char>) -> Table
    decreases t.len(),
{
    if t.len() == 0 {
        seq![(name, value)]
    } else if t[0].0 == name {
        seq![(name, value)] + t.skip(1)
    } else {
        seq![t[0]] + table_insert(t.skip(1), name, value)
    }
}

/// After an insert, looking the same name up yields the inserted value.
pub proof fn lemma_lookup_insert_same(t: Table, name: Seq<char>, value: Seq<char>)
    ensures
        table_lookup(table_insert(t, name, value), name) == Some(value),
    decreases t.len(),
{
    if t.len() == 0 {
    } else if t[0].0 == name {
        assert(table_insert(t, name, value)[0] == (name, value));
    } else {
        lemma_lookup_insert_same(t.skip(1), name, value);
        assert(table_insert(t, name, value)[0] == t[0]);
        assert(table_insert(t, name, value).skip(1) =~= table_insert(t.skip(1), name, value));
    }
}

/// An insert leaves the value of every other name unchanged.
pub proof fn lemma_lookup_insert_other(t: Table, name: Seq<char>, value: Seq<char>, other: Seq<char>)
    requires
        other != name,
    ensures
        table_lookup(table_insert(t, name, value), other) == table_lookup(t, other),
    decreases t.len(),
{
    let r = table_insert(t, name, value);
    if t.len() == 0 {
        assert(r[0] == (name, value));
        assert(r.skip(1) =~= Seq::<(Seq<char>, Seq<char>)>::empty());
        assert(table_lookup(r, other) == table_lookup(r.skip(1), other));
        assert(table_lookup(r, other) == table_lookup(t, other));
    } else if t[0].0 == name {
        assert(r[0] == (name, value));
        assert(r.skip(1) =~= t.skip(1));
        assert(table_lookup(r, other) == table_lookup(t.skip(1), other));
        assert(table_lookup(t, other) == table_lookup(t.skip(1), other));
    } else {
        lemma_lookup_insert_other(t.skip(1), name, value, other);
        assert(r[0] == t[0]);
        assert(r.skip(1) =~= table_insert(t.skip(1), name, value));
        assert(r.len() > 0);
        if t[0].0 == other {
            assert(table_lookup(r, other) == Some(r[0].1));
            assert(table_lookup(t, other) == Some(t[0].1));
        } else {
            assert(table_lookup(r, other) == table_lookup(r.skip(1), other));
            assert(table_lookup(t, other) == table_lookup(t.skip(1), other));
        }
    }
}

/// Whether every name is bound at most once.
pub open spec fn table_unique(t: Table) -> bool {
    forall|i: int, j: int| 0 <= i < j < t.len() ==> (#[trigger] t[i]).0 != (#[trigger] t[j]).0
}

proof fn lemma_insert_names(t: Table, name: Seq<char>, value: Seq<char>)
    ensures
        forall|k: int|
            0 <= k < table_insert(t, name, value).len() ==> ((#[trigger] table_insert(
                t,
                name,
                value,
            )[k]).0 == name || exists|m: int|
                0 <= m < t.len() && (#[trigger] t[m]).0 == table_insert(t, name, value)[k].0),
    decreases t.len(),
{
    let r = table_insert(t, name, value);
    if t.len() == 0 {
        assert(r[0].0 == name);
    } else if t[0].0 == name {
        assert(r[0].0 == name);
        assert forall|k: int| 1 <= k < r.len() implies (r[k].0 == name || exists|m: int|
            0 <= m < t.len() && (#[trigger] t[m]).0 == r[k].0) by {
            assert(r[k] == t.skip(1)[k - 1]);
            assert(t[k].0 == r[k].0);
        }
    } else {
        lemma_insert_names(t.skip(1), name, value);
        let r2 = table_insert(t.skip(1), name, value);
        assert(r[0] == t[0]);
        assert forall|k: int| 1 <= k < r.len() implies (r[k].0 == name || exists|m: int|
            0 <= m < t.len() && (#[trigger] t[m]).0 == r[k].0) by {
            assert(r[k] == r2[k - 1]);
            if r2[k - 1].0 != name {
                let m = choose|m: int| 0 <= m < t.skip(1).len() && t.skip(1)[m].0 == r2[k - 1].0;
                assert(t[m + 1].0 == r[k].0);
            }
        }
    }
}

/// A name maps to exactly one current value: inserting keeps names unique.
pub proof fn lemma_insert_preserves_unique(t: Table, name: Seq<char>, value: Seq<char>)
    requires
        table_unique(t),
    ensures
        table_unique(table_insert(t, name, value)),
    decreases t.len(),
{
    let r = table_insert(t, name, value);
    if t.len() == 0 {
    } else if t[0].0 == name {
        assert forall|i: int, j: int| 0 <= i < j < r.len() implies (#[trigger] r[i]).0 != (
        #[trigger] r[j]).0 by {
            assert(r[0] == (name, value));
            if i == 0 {
                assert(r[j] == t.skip(1)[j - 1]);
                assert(t[j].0 != t[0].0);
            } else {
                assert(r[i] == t.skip(1)[i - 1] && r[j] == t.skip(1)[j - 1]);
                assert(t[i].0 != t[j].0);
            }
        }
    } else {
        assert(table_unique(t.skip(1))) by {
            assert forall|i: int, j: int|
                0 <= i < j < t.skip(1).len() implies (#[trigger] t.skip(1)[i]).0 != (
            #[trigger] t.skip(1)[j]).0 by {
                assert(t[i + 1].0 != t[j + 1].0);
            }
        }
        lemma_insert_preserves_unique(t.skip(1), name, value);
        lemma_insert_names(t.skip(1), name, value);
        let r2 = table_insert(t.skip(1), name, value);
        assert forall|i: int, j: int| 0 <= i < j < r.len() implies (#[trigger] r[i]).0 != (
        #[trigger] r[j]).0 by {
            if i == 0 {
                assert(r[0] == t[0]);
                assert(r[j] == r2[j - 1]);
                if r2[j - 1].0 != name {
                    let m = choose|m: int|
                        0 <= m < t.skip(1).len() && (#[trigger] t.skip(1)[m]).0 == r2[j - 1].0;
                    assert(t[m + 1].0 == r2[j - 1].0);
                    assert(t[0].0 != t[m + 1].0);
                }
            } else {
                assert(r[i] == r2[i - 1] && r[j] == r2[j - 1]);
            }
        }
    }
}

proof fn lemma_table_insert_no_match(t: Table, name: Seq<char>, value: Seq<char>)
    requires
        forall|k: int| 0 <= k < t.len() ==> (#[trigger] t[k]).0 != name,
    ensures
        table_insert(t, name, value) == t.push((name, value)),
    decreases t.len(),
{
    if t.len() == 0 {
        assert(table_insert(t, name, value) =~= t.push((name, value)));
    } else {
        assert(t[0].0 != name);
        lemma_table_insert_no_match(t.skip(1), name, value);
        assert(seq![t[0]] + t.skip(1).push((name, value)) =~= t.push((name, value)));
    }
}

proof fn lemma_table_insert_match(t: Table, name: Seq<char>, value: Seq<char>, j: int)
    requires
        0 <= j < t.len(),
        t[j].0 == name,
        forall|k: int| 0 <= k < j ==> (#[trigger] t[k]).0 != name,
    ensures
        table_insert(t, name, value) == t.update(j, (name, value)),
    decreases t.len(),
{
    if j == 0 {
        assert(seq![(name, value)] + t.skip(1) =~= t.update(0, (name, value)));
    } else {
        assert(t[0].0 != name);
        lemma_table_insert_match(t.skip(1), name, value, j - 1);
        assert(t.skip(1)[j - 1].0 == name);
        assert(seq![t[0]] + t.skip(1).update(j - 1, (name, value)) =~= t.update(j, (name, value)));
    }
}

/// The executable macro table: ordered name-value pairs.
#[derive(Debug)]
pub struct MacroTable {
    entries: Vec<(String, String)>,
}

impl View for MacroTable {
    type V = Table;

    closed spec fn view(&self) -> Table {
        Seq::new(self.entries@.len(), |i: int| (self.entries@[i].0@, self.entries@[i].1@))
    }
}

impl MacroTable {
    /// The empty table.
    pub fn new() -> (r: MacroTable)
        ensures
            r@ == Seq::<(Seq<char>, Seq<char>)>::empty(),
    {
        let r = MacroTable { entries: Vec::new() };
        proof {
            assert(r@ =~= Seq::<(Seq<char>, Seq<char>)>::empty());
        }
        r
    }

    /// How many names are bound.
    pub fn len(&self) -> (n: usize)
        ensures
            n == self@.len(),
    {
        self.entries.len()
    }

    /// The value bound to `name`, if any.
    pub fn get(&self, name: &String) -> (r: Option<&String>)
        ensures
            match r {
                Some(v) => table_lookup(self@, name@) == Some(v@),
                None => table_lookup(self@, name@) is None,
            },
    {
        let n = self.entries.len();
        let mut i: usize = 0;
        proof {
            assert(self@.skip(0) =~= self@);
        }
        while i < n
            invariant
                i <= n,
                n == self.entries@.len(),
                table_lookup(self@, name@) == table_lookup(self@.skip(i as int), name@),
            decreases n - i,
        {
            proof {
                assert(self@.skip(i as int)[0] == self@[i as int]);
            }
            let entry = &self.entries[i];
            if entry.0 == *name {
                proof {
                    assert(self@[i as int].0 == name@);
                }
                return Some(&entry.1);
            }
            proof {
                assert(self@[i as int].0 != name@);
                assert(self@.skip(i as int).skip(1) =~= self@.skip(i as int + 1));
            }
            i = i + 1;
        }
        proof {
            assert(self@.skip(i as int).len() == 0);
        }
        None
    }

    /// The bindings, in table order.
    pub fn entries(&self) -> (r: &Vec<(String, String)>)
        ensures
            r@.len() == self@.len(),
            forall|i: int| 0 <= i < r@.len() ==> ((#[trigger] r@[i]).0@, r@[i].1@) == self@[i],
    {
        &self.entries
    }

    /// Binds `name` to `value`, replacing any existing binding in place.
    pub fn insert(&mut self, name: String, value: String)
        ensures
            final(self)@ == table_insert(old(self)@, name@, value@),
    {
        let n = self.entries.len();
        let mut i: usize = 0;
        while i < n
            invariant
                i <= n,
                n == self.entries@.len(),
                forall|k: int| 0 <= k < i ==> (#[trigger] self@[k]).0 != name@,
                self == old(self),
            decreases n - i,
        {
            let matched = self.entries[i].0 == name;
            if matched {
                proof {
                    assert(self@[i as int].0 == name@);
                }
                let ghost oldt = self@;
                self.entries.remove(i);
                self.entries.insert(i, (name, value));
                proof {
                    lemma_table_insert_match(oldt, name@, value@, i as int);
                    assert(self@ =~= oldt.update(i as int, (name@, value@)));
                }
                return ;
            }
            proof {
                assert(self@[i as int].0 != name@);
            }
            i = i + 1;
        }
        let ghost oldt = self@;
        self.entries.push((name, value));
        proof {
            lemma_table_insert_no_match(oldt, name@, value@);
            assert(self@ =~= oldt.push((name@, value@)));
        }
    }
}

/// Position of the first non-whitespace character at or after `i`.
pub open spec fn skip_blank_spec(s: Seq<char>, i: int) -> int {
    scan_while(|x: char| char_whitespace(x), s, i)
}

/// Advances over whitespace characters.
pub fn skip_blank(chars: &Vec<char>, pos: usize) -> (r: usize)
    requires
        pos <= chars@.len(),
    ensures
        r == skip_blank_spec(chars@, pos as int),
        pos <= r <= chars@.len(),
{
    let n = chars.len();
    let mut j = pos;
    loop
        invariant
            pos <= j <= n,
            n == chars@.len(),
            forall|k: int| pos <= k < j ==> char_whitespace(chars@[k]),
        ensures
            pos <= j <= n,
            forall|k: int| pos <= k < j ==> char_whitespace(chars@[k]),
            j < n ==> !char_whitespace(chars@[j as int]),
        decreases n - j,
    {
        if j >= n {
            break;
        }
        if !is_whitespace(chars[j]) {
            break;
        }
        j = j + 1;
    }
    proof {
        crate::parser::lex::lemma_scan_while_determined(
            |x: char| char_whitespace(x),
            chars@,
            pos as int,
            j as int,
        );
    }
    j
}

/// Whether `c` may appear in a macro name: alphanumeric, `_` or `.`.
pub fn suitable_ident(c: &char) -> (r: bool)
    ensures
        r == is_ident_char(*c),
{
    crate::text::is_alphanumeric(*c) || *c == '_' || *c == '.'
}

/// Whether `c` may appear in a file path: alphanumeric, `_`, `.` or `/`.
pub open spec fn is_path_char(c: char) -> bool {
    is_ident_char(c) || c == '/'
}

/// The diagnostic for a missing identifier.
pub open spec fn msg_empty_ident() -> Seq<char> {
    "Empty ident"@
}

/// Reads a macro name starting at `pos`; an empty name is a diagnostic.
pub fn get_ident(chars: &Vec<char>, pos: usize) -> (r: Result<(String, usize), PreprocError>)
    requires
        pos <= chars@.len(),
    ensures
        ({
            let end = scan_while(|x: char| is_ident_char(x), chars@, pos as int);
            &&& (r is Err <==> end == pos)
            &&& (r matches Ok(x) ==> x.0@ == chars@.subrange(pos as int, end) && x.1 == end
                && pos < x.1 <= chars@.len())
            &&& (r matches Err(e) ==> e.0.deep_view() =~= seq![msg_empty_ident()])
        }),
{
    let end = crate::parser::lex::scan_ident_exec(chars, pos);
    if end == pos {
        let e = PreprocError(vec![String::from_str("Empty ident")]);
        proof {
            assert(e.0.deep_view() =~= seq![msg_empty_ident()]);
        }
        Err(e)
    } else {
        proof {
            crate::parser::lex::lemma_scan_while(|x: char| is_ident_char(x), chars@, pos as int);
        }
        let text = chars_to_string(&crate::parser::lex::chars_sub(chars, pos, end));
        Ok((text, end))
    }
}

/// Reads a file path starting at `pos`; an empty path is a diagnostic.
pub fn get_file_path(chars: &Vec<char>, pos: usize) -> (r: Result<(String, usize), PreprocError>)
    requires
        pos <= chars@.len(),
    ensures
        ({
            let end = scan_while(|x: char| is_path_char(x), chars@, pos as int);
            &&& (r is Err <==> end == pos)
            &&& (r matches Ok(x) ==> x.0@ == chars@.subrange(pos as int, end) && x.1 == end
                && pos < x.1 <= chars@.len())
            &&& (r matches Err(e) ==> e.0.deep_view() =~= seq![msg_empty_ident()])
        }),
{
    let n = chars.len();
    let mut j = pos;
    loop
        invariant
            pos <= j <= n,
            n == chars@.len(),
            forall|k: int| pos <= k < j ==> is_path_char(chars@[k]),
        ensures
            pos <= j <= n,
            forall|k: int| pos <= k < j ==> is_path_char(chars@[k]),
            j < n ==> !is_path_char(chars@[j as int]),
        decreases n - j,
    {
        if j >= n {
            break;
        }
        if !(suitable_ident(&chars[j]) || chars[j] == '/') {
            break;
        }
        j = j + 1;
    }
    proof {
        crate::parser::lex::lemma_scan_while_determined(
            |x: char| is_path_char(x),
            chars@,
            pos as int,
            j as int,
        );
    }
    if j == pos {
        let e = PreprocError(vec![String::from_str("Empty ident")]);
        proof {
            assert(e.0.deep_view() =~= seq![msg_empty_ident()]);
        }
        Err(e)
    } else {
        let text = chars_to_string(&crate::parser::lex::chars_sub(chars, pos, j));
        Ok((text, j))
    }
}

/// Position of the end of line content: the next `\n` or comment `#`.
pub open spec fn eol_spec(s: Seq<char>, i: int) -> int {
    scan_while(|x: char| x != '\n' && x != '#', s, i)
}

/// Reads the rest of the line, stopping before a newline or a `#` comment.
pub fn take_till_eol(chars: &Vec<char>, pos: usize) -> (r: (String, usize))
    requires
        pos <= chars@.len(),
    ensures
        r.1 == eol_spec(chars@, pos as int),
        pos <= r.1 <= chars@.len(),
        r.0@ == chars@.subrange(pos as int, r.1 as int),
{
    let n = chars.len();
    let mut j = pos;
    loop
        invariant
            pos <= j <= n,
            n == chars@.len(),
            forall|k: int| pos <= k < j ==> chars@[k] != '\n' && chars@[k] != '#',
        ensures
            pos <= j <= n,
            forall|k: int| pos <= k < j ==> chars@[k] != '\n' && chars@[k] != '#',
            j < n ==> !(chars@[j as int] != '\n' && chars@[j as int] != '#'),
        decreases n - j,
    {
        if j >= n {
            break;
        }
        if chars[j] == '\n' || chars[j] == '#' {
            break;
        }
        j = j + 1;
    }
    proof {
        crate::parser::lex::lemma_scan_while_determined(
            |x: char| x != '\n' && x != '#',
            chars@,
            pos as int,
            j as int,
        );
    }
    let text = chars_to_string(&crate::parser::lex::chars_sub(chars, pos, j));
    (text, j)
}

// ---------------------------------------------------------------------------
// Reference substitution
// ---------------------------------------------------------------------------

/// Diagnostic for a `$` at the very end of the text.
pub open spec fn msg_eof_dollar() -> Seq<char> {
    "Unexpected EOF after `$` symbol"@
}

/// Diagnostic for a reference to a name the table does not hold.
pub open spec fn msg_undefined(name: Seq<char>) -> Seq<char> {
    "Undefined macro `"@ + name + "`"@
}

/// Diagnostic for `$(` or `${` not followed by a macro name.
pub open spec fn msg_no_macro_name() -> Seq<char> {
    "Could not get a macro name"@
}

/// Diagnostic for a reference that ends before its closing bracket.
pub open spec fn msg_eof_expansion() -> Seq<char> {
    "Unexpected EOF at the end of macro expansion"@
}

/// Diagnostic for a reference closed by the wrong character.
pub open spec fn msg_bad_finalizer(c: char) -> Seq<char> {
    "Unexpected `"@ + seq![c] + "` at the end of macro expansion"@
}

/// Diagnostic for a `$` followed by a character that opens no reference.
pub open spec fn msg_bad_after_dollar(c: char) -> Seq<char> {
    "Unexpected `"@ + seq![c] + "` after `$` symbol"@
}

/// Whether `c` is a reserved recipe-context sigil, left untouched by the
/// preprocessor: `$$ $@ $% $? $< $*`.
pub open spec fn is_internal_sigil(c: char) -> bool {
    c == '$' || c == '@' || c == '%' || c == '?' || c == '<' || c == '*'
}

/// What one substitution step at position `i` produces: the text it emits,
/// whether it resolved a reference, its diagnostics, and where the next step
/// starts.
pub struct SubstStep {
    pub text: Seq<char>,
    pub hit: nat,
    pub errors: Seq<Seq<char>>,
    pub next: int,
}

/// One substitution step of `s` at position `i` against table `t`.
pub open spec fn subst_step(s: Seq<char>, t: Table, i: int) -> SubstStep
    recommends
        0 <= i < s.len(),
{
    let c = s[i];
    if c != '$' {
        SubstStep { text: seq![c], hit: 0, errors: Seq::empty(), next: i + 1 }
    } else if i + 1 >= s.len() {
        SubstStep { text: Seq::empty(), hit: 0, errors: seq![msg_eof_dollar()], next: i + 1 }
    } else {
        let d = s[i + 1];
        if is_internal_sigil(d) {
            SubstStep { text: seq!['$', d], hit: 0, errors: Seq::empty(), next: i + 2 }
        } else if is_ident_char(d) {
            match table_lookup(t, seq![d]) {
                Some(body) => SubstStep { text: body, hit: 1, errors: Seq::empty(), next: i + 2 },
                None => SubstStep {
                    text: Seq::empty(),
                    hit: 0,
                    errors: seq![msg_undefined(seq![d])],
                    next: i + 2,
                },
            }
        } else if d == '(' || d == '{' {
            let j = skip_blank_spec(s, i + 2);
            let k = scan_while(|x: char| is_ident_char(x), s, j);
            if k == j {
                SubstStep { text: Seq::empty(), hit: 0, errors: seq![msg_no_macro_name()], next: j }
            } else {
                let name = s.subrange(j, k);
                let m = skip_blank_spec(s, k);
                if m >= s.len() {
                    SubstStep {
                        text: Seq::empty(),
                        hit: 0,
                        errors: seq![msg_eof_expansion()],
                        next: m,
                    }
                } else if s[m] != ')' && s[m] != '}' {
                    SubstStep {
                        text: Seq::empty(),
                        hit: 0,
                        errors: seq![msg_bad_finalizer(s[m])],
                        next: m + 1,
                    }
                } else {
                    match table_lookup(t, name) {
                        Some(body) => SubstStep {
                            text: body,
                            hit: 1,
                            errors: Seq::empty(),
                            next: m + 1,
                        },
                        None => SubstStep {
                            text: Seq::empty(),
                            hit: 0,
                            errors: seq![msg_undefined(name)],
                            next: m + 1,
                        },
                    }
                }
            }
        } else {
            SubstStep {
                text: Seq::empty(),
                hit: 0,
                errors: seq![msg_bad_after_dollar(d)],
                next: i + 2,
            }
        }
    }
}

pub proof fn lemma_subst_step_bounds(s: Seq<char>, t: Table, i: int)
    requires
        0 <= i < s.len(),
    ensures
        i < subst_step(s, t, i).next <= s.len(),
{
    let c = s[i];
    if c == '$' && i + 1 < s.len() {
        let d = s[i + 1];
        if !is_internal_sigil(d) && !is_ident_char(d) && (d == '(' || d == '{') {
            crate::parser::lex::lemma_scan_while(|x: char| char_whitespace(x), s, i + 2);
            let j = skip_blank_spec(s, i + 2);
            crate::parser::lex::lemma_scan_while(|x: char| is_ident_char(x), s, j);
            let k = scan_while(|x: char| is_ident_char(x), s, j);
            crate::parser::lex::lemma_scan_while(|x: char| char_whitespace(x), s, k);
        }
    }
}

/// What substituting all of `s` from position `i` on produces.
pub struct SubstAcc {
    pub text: Seq<char>,
    pub hits: nat,
    pub errors: Seq<Seq<char>>,
}

/// Substitution of `s` against `t` from position `i` to the end: emitted
/// text, number of references resolved, and diagnostics, in order.
pub open spec fn subst_spec_at(s: Seq<char>, t: Table, i: int) -> SubstAcc
    decreases s.len() - i
    when 0 <= i <= s.len()
    via subst_spec_at_decreases
{
    if i >= s.len() {
        SubstAcc { text: Seq::empty(), hits: 0, errors: Seq::empty() }
    } else {
        let st = subst_step(s, t, i);
        let rest = subst_spec_at(s, t, st.next);
        SubstAcc {
            text: st.text + rest.text,
            hits: st.hit + rest.hits,
            errors: st.errors + rest.errors,
        }
    }
}

#[via_fn]
proof fn subst_spec_at_decreases(s: Seq<char>, t: Table, i: int) {
    if i < s.len() {
        lemma_subst_step_bounds(s, t, i);
    }
}

/// Substitution of the whole of `s` against `t`.
pub open spec fn subst_spec(s: Seq<char>, t: Table) -> SubstAcc {
    subst_spec_at(s, t, 0)
}

fn push_err(errs: &mut Vec<String>, msg: String)
    ensures
        final(errs).deep_view() == old(errs).deep_view() + seq![msg@],
{
    errs.push(msg);
    proof {
        assert(errs.deep_view() =~= old(errs).deep_view() + seq![msg@]);
    }
}

fn msg_with_char(prefix: &str, c: char, suffix: &str) -> (r: String)
    ensures
        r@ == prefix@ + seq![c] + suffix@,
{
    let mut m = String::from_str(prefix);
    string_push(&mut m, c);
    m.append(suffix);
    proof {
        assert(m@ =~= prefix@ + seq![c] + suffix@);
    }
    m
}

fn msg_undefined_exec(name: &String) -> (r: String)
    ensures
        r@ == msg_undefined(name@),
{
    let mut m = String::from_str("Undefined macro `");
    m.append(name.as_str());
    m.append("`");
    m
}

/// Expands `$X`, `$(name)` and `${name}` references in `source` against
/// `table`, leaving the recipe-context sigils `$$ $@ $% $? $< $*` untouched.
///
/// Returns the rewritten text and how many references were resolved, or all
/// diagnostics of the pass: one per undefined macro or malformed reference.
pub fn substitute(source: &str, table: &MacroTable) -> (r: Result<(String, usize), PreprocError>)
    ensures
        ({
            let acc = subst_spec(source@, table@);
            &&& (r is Ok <==> acc.errors.len() == 0)
            &&& (r matches Ok(x) ==> x.0@ == acc.text && x.1 == acc.hits)
            &&& (r matches Err(e) ==> e.0.deep_view() == acc.errors)
        }),
{
    let chars = str_to_chars(source);
    let n = chars.len();
    let ghost s = chars@;
    let ghost t = table@;
    let ghost acc = subst_spec(s, t);
    let mut out = String::new();
    let mut hits: usize = 0;
    let mut errs: Vec<String> = Vec::new();
    let mut pos: usize = 0;
    proof {
        assert(out@ =~= Seq::<char>::empty());
        assert(errs.deep_view() =~= Seq::<Seq<char>>::empty());
        assert(acc.text =~= out@ + subst_spec_at(s, t, 0).text);
        assert(acc.errors =~= errs.deep_view() + subst_spec_at(s, t, 0).errors);
    }
    while pos < n
        invariant
            pos <= n,
            n == s.len(),
            chars@ == s,
            table@ == t,
            s == source@,
            acc == subst_spec(s, t),
            hits <= pos,
            acc.text == out@ + subst_spec_at(s, t, pos as int).text,
            acc.hits == hits + subst_spec_at(s, t, pos as int).hits,
            acc.errors == errs.deep_view() + subst_spec_at(s, t, pos as int).errors,
        decreases n - pos,
    {
        let ghost i = pos as int;
        let ghost st = subst_step(s, t, i);
        let ghost rest = subst_spec_at(s, t, st.next);
        proof {
            lemma_subst_step_bounds(s, t, i);
            assert(subst_spec_at(s, t, i).text == st.text + rest.text);
            assert(subst_spec_at(s, t, i).hits == st.hit + rest.hits);
            assert(subst_spec_at(s, t, i).errors == st.errors + rest.errors);
        }
        let ghost old_out = out@;
        let ghost old_errs = errs.deep_view();
        let ghost old_hits = hits as nat;
        let c = chars[pos];
        let next: usize;
        if c != '$' {
            string_push(&mut out, c);
            next = pos + 1;
            proof {
                assert(out@ =~= old_out + st.text);
            }
        } else if pos + 1 >= n {
            push_err(&mut errs, String::from_str("Unexpected EOF after `$` symbol"));
            next = pos + 1;
            proof {
                assert(out@ =~= old_out + st.text);
                assert(errs.deep_view() =~= old_errs + st.errors);
            }
        } else {
            let d = chars[pos + 1];
            if d == '$' || d == '@' || d == '%' || d == '?' || d == '<' || d == '*' {
                string_push(&mut out, '$');
                string_push(&mut out, d);
                next = pos + 2;
                proof {
                    assert(out@ =~= old_out + st.text);
                }
            } else if crate::parser::lex::is_ident_char_exec(d) {
                let mut name = String::new();
                string_push(&mut name, d);
                proof {
                    assert(name@ =~= seq![d]);
                }
                match table.get(&name) {
                    Some(body) => {
                        out.append(body.as_str());
                        hits = hits + 1;
                        proof {
                            assert(out@ =~= old_out + st.text);
                        }
                    },
                    None => {
                        push_err(&mut errs, msg_undefined_exec(&name));
                        proof {
                            assert(errs.deep_view() =~= old_errs + st.errors);
                        }
                    },
                }
                next = pos + 2;
            } else if d == '(' || d == '{' {
                let j = skip_blank(&chars, pos + 2);
                let k = crate::parser::lex::scan_ident_exec(&chars, j);
                if k == j {
                    push_err(&mut errs, String::from_str("Could not get a macro name"));
                    next = j;
                    proof {
                        assert(errs.deep_view() =~= old_errs + st.errors);
                    }
                } else {
                    let name = chars_to_string(&crate::parser::lex::chars_sub(&chars, j, k));
                    let m = skip_blank(&chars, k);
                    if m >= n {
                        push_err(
                            &mut errs,
                            String::from_str("Unexpected EOF at the end of macro expansion"),
                        );
                        next = m;
                        proof {
                            assert(errs.deep_view() =~= old_errs + st.errors);
                        }
                    } else {
                        let fin = chars[m];
                        if fin != ')' && fin != '}' {
                            push_err(
                                &mut errs,
                                msg_with_char(
                                    "Unexpected `",
                                    fin,
                                    "` at the end of macro expansion",
                                ),
                            );
                            next = m + 1;
                            proof {
                                assert(errs.deep_view() =~= old_errs + st.errors);
                            }
                        } else {
                            match table.get(&name) {
                                Some(body) => {
                                    out.append(body.as_str());
                                    hits = hits + 1;
                                    proof {
                                        assert(out@ =~= old_out + st.text);
                                    }
                                },
                                None => {
                                    push_err(&mut errs, msg_undefined_exec(&name));
                                    proof {
                                        assert(errs.deep_view() =~= old_errs + st.errors);
                                    }
                                },
                            }
                            next = m + 1;
                        }
                    }
                }
            } else {
                push_err(&mut errs, msg_with_char("Unexpected `", d, "` after `$` symbol"));
                next = pos + 2;
                proof {
                    assert(errs.deep_view() =~= old_errs + st.errors);
                }
            }
        }
        proof {
            assert(next as int == st.next);
            assert(out@ =~= old_out + st.text);
            assert(errs.deep_view() =~= old_errs + st.errors);
            assert(hits as nat == old_hits + st.hit);
            assert(acc.text =~= out@ + rest.text);
            assert(acc.errors =~= errs.deep_view() + rest.errors);
        }
        pos = next;
    }
    proof {
        assert(subst_spec_at(s, t, pos as int).text =~= Seq::<char>::empty());
        assert(subst_spec_at(s, t, pos as int).errors =~= Seq::<Seq<char>>::empty());
        assert(acc.text =~= out@);
        assert(acc.errors =~= errs.deep_view());
    }
    if errs.len() == 0 {
        proof {
            assert(errs.deep_view() =~= Seq::<Seq<char>>::empty());
            assert(acc.errors.len() == 0);
        }
        Ok((out, hits))
    } else {
        proof {
            assert(acc.errors.len() > 0);
        }
        Err(PreprocError(errs))
    }
}

// ---------------------------------------------------------------------------
// Trimming, lines, fixpoint
// ---------------------------------------------------------------------------

/// The first position `j <= i` such that every character in `[j, i)`
/// satisfies `p` and the one before `j`, if any, does not.
pub open spec fn scan_back(p: spec_fn(char) -> bool, s: Seq<char>, i: int) -> int
    decreases i
    when 0 <= i <= s.len()
{
    if i > 0 && p(s[i - 1]) {
        scan_back(p, s, i - 1)
    } else {
        i
    }
}

pub proof fn lemma_scan_back(p: spec_fn(char) -> bool, s: Seq<char>, i: int)
    requires
        0 <= i <= s.len(),
    ensures
        0 <= scan_back(p, s, i) <= i,
        forall|k: int| scan_back(p, s, i) <= k < i ==> p(s[k]),
        scan_back(p, s, i) > 0 ==> !p(s[scan_back(p, s, i) - 1]),
    decreases i,
{
    if i > 0 && p(s[i - 1]) {
        lemma_scan_back(p, s, i - 1);
    }
}

pub proof fn lemma_scan_back_determined(p: spec_fn(char) -> bool, s: Seq<char>, i: int, j: int)
    requires
        0 <= j <= i <= s.len(),
        forall|k: int| j <= k < i ==> p(s[k]),
        j > 0 ==> !p(s[j - 1]),
    ensures
        scan_back(p, s, i) == j,
    decreases i - j,
{
    if j < i {
        lemma_scan_back_determined(p, s, i - 1, j);
    }
}

/// `s` without leading and trailing whitespace.
pub open spec fn trim_spec(s: Seq<char>) -> Seq<char> {
    let a = skip_blank_spec(s, 0);
    if a >= s.len() {
        Seq::empty()
    } else {
        s.subrange(a, scan_back(|x: char| char_whitespace(x), s, s.len() as int))
    }
}

/// `s` without trailing newline and carriage-return characters, as a shell's
/// captured output is stored.
pub open spec fn trim_newlines_spec(s: Seq<char>) -> Seq<char> {
    s.subrange(0, scan_back(|x: char| x == '\n' || x == '\r', s, s.len() as int))
}

fn trim_chars(v: &Vec<char>) -> (r: Vec<char>)
    ensures
        r@ == trim_spec(v@),
{
    let n = v.len();
    let a = skip_blank(v, 0);
    proof {
        crate::parser::lex::lemma_scan_while(|x: char| char_whitespace(x), v@, 0);
    }
    if a >= n {
        let r: Vec<char> = Vec::new();
        proof {
            assert(r@ =~= trim_spec(v@));
        }
        return r;
    }
    let mut b = n;
    loop
        invariant
            a < n,
            n == v@.len(),
            a <= b <= n,
            forall|k: int| b <= k < n ==> char_whitespace(v@[k]),
            !char_whitespace(v@[a as int]),
        ensures
            a <= b <= n,
            forall|k: int| b <= k < n ==> char_whitespace(v@[k]),
            b > 0 ==> !char_whitespace(v@[b - 1]),
        decreases b,
    {
        if b == 0 {
            break;
        }
        if !is_whitespace(v[b - 1]) {
            break;
        }
        b = b - 1;
    }
    proof {
        lemma_scan_back_determined(|x: char| char_whitespace(x), v@, n as int, b as int);
    }
    crate::parser::lex::chars_sub(v, a, b)
}

fn trim_newlines(s: &String) -> (r: String)
    ensures
        r@ == trim_newlines_spec(s@),
{
    let v = str_to_chars(s.as_str());
    let n = v.len();
    let mut b = n;
    loop
        invariant
            n == v@.len(),
            b <= n,
            forall|k: int| b <= k < n ==> v@[k] == '\n' || v@[k] == '\r',
        ensures
            b <= n,
            forall|k: int| b <= k < n ==> v@[k] == '\n' || v@[k] == '\r',
            b > 0 ==> !(v@[b - 1] == '\n' || v@[b - 1] == '\r'),
        decreases b,
    {
        if b == 0 {
            break;
        }
        let c = v[b - 1];
        if !(c == '\n' || c == '\r') {
            break;
        }
        b = b - 1;
    }
    proof {
        lemma_scan_back_determined(
            |x: char| x == '\n' || x == '\r',
            v@,
            n as int,
            b as int,
        );
    }
    chars_to_string(&crate::parser::lex::chars_sub(&v, 0, b))
}

/// `l` without a trailing carriage return, as a document line is stored.
pub open spec fn strip_cr(l: Seq<char>) -> Seq<char> {
    if l.len() > 0 && l[l.len() - 1] == '\r' {
        l.drop_last()
    } else {
        l
    }
}

/// The lines of `s` from position `i` on: split at `\n`, trailing `\r`
/// removed from each line.
pub open spec fn lines_of_at(s: Seq<char>, i: int) -> Seq<Seq<char>>
    decreases s.len() - i
    when 0 <= i <= s.len()
    via lines_of_at_decreases
{
    if i >= s.len() {
        Seq::empty()
    } else {
        let e = scan_while(|x: char| x != '\n', s, i);
        if e >= s.len() {
            seq![strip_cr(s.subrange(i, e))]
        } else {
            seq![strip_cr(s.subrange(i, e))] + lines_of_at(s, e + 1)
        }
    }
}

#[via_fn]
proof fn lines_of_at_decreases(s: Seq<char>, i: int) {
    if i < s.len() {
        crate::parser::lex::lemma_scan_while(|x: char| x != '\n', s, i);
    }
}

/// The lines of the whole of `s`.
pub open spec fn lines_of(s: Seq<char>) -> Seq<Seq<char>> {
    lines_of_at(s, 0)
}

fn strip_cr_exec(line: Vec<char>) -> (r: Vec<char>)
    ensures
        r@ == strip_cr(line@),
{
    let ghost orig = line@;
    let mut line = line;
    let n = line.len();
    if n > 0 {
        if line[n - 1] == '\r' {
            line.pop();
            proof {
                assert(line@ =~= strip_cr(orig));
            }
        }
    }
    line
}

fn split_lines(chars: &Vec<char>) -> (r: Vec<Vec<char>>)
    ensures
        r.deep_view() == lines_of(chars@),
{
    let ghost s = chars@;
    let n = chars.len();
    let mut r: Vec<Vec<char>> = Vec::new();
    let mut pos: usize = 0;
    let mut done = false;
    proof {
        assert(r.deep_view() =~= Seq::<Seq<char>>::empty());
    }
    while !done
        invariant
            pos <= n,
            n == s.len(),
            chars@ == s,
            !done ==> lines_of(s) == r.deep_view() + lines_of_at(s, pos as int),
            done ==> pos >= n && lines_of(s) == r.deep_view(),
        decreases n - pos + (if done { 0int } else { 1int }),
    {
        if pos >= n {
            proof {
                assert(lines_of_at(s, pos as int) =~= Seq::<Seq<char>>::empty());
                assert(r.deep_view() + lines_of_at(s, pos as int) =~= r.deep_view());
            }
            done = true;
        } else {
            let e = crate::parser::lex::scan_line_exec(chars, pos);
            let line = strip_cr_exec(crate::parser::lex::chars_sub(chars, pos, e));
            let ghost old_r = r.deep_view();
            r.push(line);
            proof {
                assert(line.deep_view() =~= line@);
                assert(r.deep_view() =~= old_r + seq![strip_cr(s.subrange(pos as int, e as int))]);
            }
            if e >= n {
                proof {
                    assert(lines_of_at(s, pos as int) =~= seq![
                        strip_cr(s.subrange(pos as int, e as int)),
                    ]);
                    assert(r.deep_view() =~= old_r + lines_of_at(s, pos as int));
                }
                pos = e;
                done = true;
            } else {
                proof {
                    assert(lines_of_at(s, pos as int) =~= seq![
                        strip_cr(s.subrange(pos as int, e as int)),
                    ] + lines_of_at(s, e + 1));
                    assert(r.deep_view() + lines_of_at(s, e + 1) =~= old_r + lines_of_at(
                        s,
                        pos as int,
                    ));
                }
                pos = e + 1;
            }
        }
    }
    r
}

/// The document text whose lines are `ls`: each line followed by a newline.
pub open spec fn join_lines(ls: Seq<Seq<char>>) -> Seq<char>
    decreases ls.len(),
{
    if ls.len() == 0 {
        Seq::empty()
    } else {
        ls[0] + seq!['\n'] + join_lines(ls.skip(1))
    }
}

/// What running substitution to a fixpoint produces: the final text, the
/// diagnostics of the failing pass if one failed, and whether a pass with no
/// substitutions was reached before the fuel ran out.
pub struct SubstFix {
    pub text: Seq<char>,
    pub errors: Seq<Seq<char>>,
    pub converged: bool,
}

/// Repeated whole-text substitution until a pass substitutes nothing, a pass
/// reports diagnostics, or `fuel` passes have not reached a fixpoint.
pub open spec fn subst_fix(s: Seq<char>, t: Table, fuel: nat) -> SubstFix
    decreases fuel,
{
    let r = subst_spec(s, t);
    if r.errors.len() > 0 {
        SubstFix { text: s, errors: r.errors, converged: false }
    } else if r.hits == 0 {
        SubstFix { text: s, errors: Seq::empty(), converged: true }
    } else if fuel == 0 {
        SubstFix { text: r.text, errors: Seq::empty(), converged: false }
    } else {
        subst_fix(r.text, t, (fuel - 1) as nat)
    }
}

/// Fixpoint soundness: when the bounded iteration reports convergence, its
/// result really is a fixpoint: one more substitution pass resolves nothing
/// and reports nothing.
pub proof fn lemma_fixpoint_converged(s: Seq<char>, t: Table, fuel: nat)
    requires
        subst_fix(s, t, fuel).converged,
    ensures
        subst_spec(subst_fix(s, t, fuel).text, t).hits == 0,
        subst_spec(subst_fix(s, t, fuel).text, t).errors.len() == 0,
    decreases fuel,
{
    let r = subst_spec(s, t);
    if r.errors.len() > 0 {
    } else if r.hits == 0 {
    } else if fuel == 0 {
    } else {
        lemma_fixpoint_converged(r.text, t, (fuel - 1) as nat);
    }
}

fn subst_to_fixpoint(text: String, table: &MacroTable, fuel: u128) -> (r: (String, Vec<String>, bool))
    ensures
        ({
            let f = subst_fix(text@, table@, fuel as nat);
            r.0@ == f.text && r.1.deep_view() == f.errors && r.2 == f.converged
        }),
{
    let ghost t = table@;
    let ghost goal = subst_fix(text@, t, fuel as nat);
    let mut cur = text;
    let mut fuel_left = fuel;
    loop
        invariant
            table@ == t,
            goal == subst_fix(text@, table@, fuel as nat),
            goal == subst_fix(cur@, t, fuel_left as nat),
        decreases fuel_left,
    {
        let ghost acc = subst_spec(cur@, t);
        let ghost f = subst_fix(cur@, t, fuel_left as nat);
        match substitute(cur.as_str(), table) {
            Err(e) => {
                proof {
                    assert(acc.errors.len() > 0);
                    assert(f.text == cur@ && f.errors == acc.errors && !f.converged);
                }
                return (cur, e.0, false);
            },
            Ok((next, hits)) => {
                if hits == 0 {
                    let empty_errs: Vec<String> = Vec::new();
                    proof {
                        assert(empty_errs.deep_view() =~= Seq::<Seq<char>>::empty());
                        assert(f.text == cur@ && f.errors =~= Seq::<Seq<char>>::empty()
                            && f.converged);
                    }
                    return (cur, empty_errs, true);
                } else if fuel_left == 0 {
                    let empty_errs: Vec<String> = Vec::new();
                    proof {
                        assert(empty_errs.deep_view() =~= Seq::<Seq<char>>::empty());
                        assert(f.text == acc.text && f.errors =~= Seq::<Seq<char>>::empty()
                            && !f.converged);
                    }
                    return (next, empty_errs, false);
                } else {
                    proof {
                        assert(f == subst_fix(acc.text, t, (fuel_left - 1) as nat));
                    }
                    fuel_left = fuel_left - 1;
                    cur = next;
                }
            },
        }
    }
}

// ---------------------------------------------------------------------------
// Assignment lines
// ---------------------------------------------------------------------------

/// The six assignment operators, plus the historical triple-colon form.
#[derive(Debug, Clone, Copy, PartialEq, Eq, Structural)]
pub enum AssignOp {
    /// `=`: store the raw text, expanded at use.
    Deferred,
    /// `:=`: expand against the table built so far, to a fixpoint.
    Immediate,
    /// `::=`: like `:=`.
    ImmediateDouble,
    /// `:::=`: expand once against the table built so far.
    ImmediateTriple,
    /// `!=`: expand once, run as a shell command, store the captured output.
    Shell,
    /// `?=`: assign only if the name is currently undefined.
    Conditional,
    /// `+=`: append to an existing value, or assign.
    Append,
}

/// What one document line means to the table builder.
pub enum LineParse {
    /// No assignment here: no `=` at all, or a recipe or comment line.
    Skip,
    /// Malformed assignment syntax, with its diagnostics.
    Bad(Seq<Seq<char>>),
    /// A recognized assignment.
    Assign { name: Seq<char>, op: AssignOp, body: Seq<char> },
}

/// Whether the line holds an `=` anywhere.
pub open spec fn line_has_equals(line: Seq<char>) -> bool {
    exists|k: int| 0 <= k < line.len() && line[k] == '='
}

/// The value text after an operator ending at `p`: blanks skipped, then
/// everything up to a `#` comment or the end of the line.
pub open spec fn body_from(line: Seq<char>, p: int) -> Seq<char>
    recommends
        0 <= p <= line.len(),
{
    let q = skip_blank_spec(line, p);
    line.subrange(q, eol_spec(line, q))
}

pub open spec fn msg_unexpected_eol() -> Seq<char> {
    "Unexpected end of line!"@
}

pub open spec fn msg_expect_eq(c: char) -> Seq<char> {
    "Expected `=` after `"@ + seq![c] + "` in macro definition"@
}

pub open spec fn msg_too_many_colons() -> Seq<char> {
    "Too many columns for assignment operator!"@
}

pub open spec fn msg_unexpected_symbol(c: char) -> Seq<char> {
    "Unexpected symbol `"@ + seq![c] + "` in macro definition"@
}

/// Parses one document line as a macro assignment.
///
/// A line without `=`, a recipe line (leading tab) and a comment line are
/// skipped; a line with `=` that does not fit the grammar
/// `NAME <op> value` yields diagnostics.
pub open spec fn parse_assign_line(line: Seq<char>) -> LineParse {
    if line.len() == 0 || !line_has_equals(line) || line[0] == '\t' || line[0] == '#' {
        LineParse::Skip
    } else {
        let e = scan_while(|x: char| is_ident_char(x), line, 0);
        if e == 0 {
            LineParse::Bad(seq![msg_empty_ident()])
        } else {
            let name = line.subrange(0, e);
            let b = skip_blank_spec(line, e);
            if b >= line.len() {
                LineParse::Bad(seq![msg_unexpected_eol()])
            } else {
                let sym = line[b];
                if sym == '=' {
                    LineParse::Assign { name, op: AssignOp::Deferred, body: body_from(line, b + 1) }
                } else if sym == ':' {
                    let cc = scan_while(|x: char| x == ':', line, b);
                    if cc >= line.len() || line[cc] != '=' {
                        LineParse::Bad(seq![msg_expect_eq(':')])
                    } else if cc - b > 3 {
                        LineParse::Bad(seq![msg_too_many_colons()])
                    } else {
                        let op = if cc - b == 1 {
                            AssignOp::Immediate
                        } else if cc - b == 2 {
                            AssignOp::ImmediateDouble
                        } else {
                            AssignOp::ImmediateTriple
                        };
                        LineParse::Assign { name, op, body: body_from(line, cc + 1) }
                    }
                } else if sym == '!' {
                    if b + 1 < line.len() && line[b + 1] == '=' {
                        LineParse::Assign { name, op: AssignOp::Shell, body: body_from(line, b + 2) }
                    } else {
                        LineParse::Bad(seq![msg_expect_eq('!')])
                    }
                } else if sym == '?' {
                    if b + 1 < line.len() && line[b + 1] == '=' {
                        LineParse::Assign {
                            name,
                            op: AssignOp::Conditional,
                            body: body_from(line, b + 2),
                        }
                    } else {
                        LineParse::Bad(seq![msg_expect_eq('?')])
                    }
                } else if sym == '+' {
                    if b + 1 < line.len() && line[b + 1] == '=' {
                        LineParse::Assign { name, op: AssignOp::Append, body: body_from(line, b + 2) }
                    } else {
                        LineParse::Bad(seq![msg_expect_eq('+')])
                    }
                } else {
                    LineParse::Bad(seq![msg_unexpected_symbol(sym)])
                }
            }
        }
    }
}

/// The executable mirror of [`LineParse`].
pub enum LineClass {
    Skip,
    Bad(Vec<String>),
    Assign { name: String, op: AssignOp, body: String },
}

fn line_has_equals_exec(line: &Vec<char>) -> (r: bool)
    ensures
        r == line_has_equals(line@),
{
    let n = line.len();
    let mut i: usize = 0;
    while i < n
        invariant
            i <= n,
            n == line@.len(),
            forall|k: int| 0 <= k < i ==> line@[k] != '=',
        decreases n - i,
    {
        if line[i] == '=' {
            return true;
        }
        i = i + 1;
    }
    false
}

fn body_from_exec(line: &Vec<char>, p: usize) -> (r: String)
    requires
        p <= line@.len(),
    ensures
        r@ == body_from(line@, p as int),
{
    let q = skip_blank(line, p);
    let (text, _end) = take_till_eol(line, q);
    text
}

/// Classifies one document line as the table builder sees it.
pub fn classify_line(line: &Vec<char>) -> (r: LineClass)
    ensures
        ({
            let sp = parse_assign_line(line@);
            match r {
                LineClass::Skip => sp == LineParse::Skip,
                LineClass::Bad(es) => sp == LineParse::Bad(es.deep_view()),
                LineClass::Assign { name, op, body } => sp == (LineParse::Assign {
                    name: name@,
                    op: op,
                    body: body@,
                }),
            }
        }),
{
    let n = line.len();
    if n == 0 || !line_has_equals_exec(line) || line[0] == '\t' || line[0] == '#' {
        return LineClass::Skip;
    }
    let e = crate::parser::lex::scan_ident_exec(line, 0);
    if e == 0 {
        let bad = vec![String::from_str("Empty ident")];
        proof {
            assert(bad.deep_view() =~= seq![msg_empty_ident()]);
        }
        return LineClass::Bad(bad);
    }
    let name = chars_to_string(&crate::parser::lex::chars_sub(line, 0, e));
    let b = skip_blank(line, e);
    if b >= n {
        let bad = vec![String::from_str("Unexpected end of line!")];
        proof {
            assert(bad.deep_view() =~= seq![msg_unexpected_eol()]);
        }
        return LineClass::Bad(bad);
    }
    let sym = line[b];
    if sym == '=' {
        LineClass::Assign { name, op: AssignOp::Deferred, body: body_from_exec(line, b + 1) }
    } else if sym == ':' {
        let mut cc = b;
        loop
            invariant
                b <= cc <= n,
                n == line@.len(),
                forall|k: int| b <= k < cc ==> line@[k] == ':',
            ensures
                b <= cc <= n,
                forall|k: int| b <= k < cc ==> line@[k] == ':',
                cc < n ==> line@[cc as int] != ':',
            decreases n - cc,
        {
            if cc >= n {
                break;
            }
            if line[cc] != ':' {
                break;
            }
            cc = cc + 1;
        }
        proof {
            crate::parser::lex::lemma_scan_while_determined(
                |x: char| x == ':',
                line@,
                b as int,
                cc as int,
            );
        }
        if cc >= n || line[cc] != '=' {
            let bad = vec![msg_with_char("Expected `=` after `", ':', "` in macro definition")];
            proof {
                assert(bad.deep_view() =~= seq![msg_expect_eq(':')]);
            }
            return LineClass::Bad(bad);
        }
        if cc - b > 3 {
            let bad = vec![String::from_str("Too many columns for assignment operator!")];
            proof {
                assert(bad.deep_view() =~= seq![msg_too_many_colons()]);
            }
            return LineClass::Bad(bad);
        }
        let op = if cc - b == 1 {
            AssignOp::Immediate
        } else if cc - b == 2 {
            AssignOp::ImmediateDouble
        } else {
            AssignOp::ImmediateTriple
        };
        LineClass::Assign { name, op, body: body_from_exec(line, cc + 1) }
    } else if sym == '!' || sym == '?' || sym == '+' {
        if b + 1 < n && line[b + 1] == '=' {
            let op = if sym == '!' {
                AssignOp::Shell
            } else if sym == '?' {
                AssignOp::Conditional
            } else {
                AssignOp::Append
            };
            LineClass::Assign { name, op, body: body_from_exec(line, b + 2) }
        } else {
            let bad = vec![msg_with_char("Expected `=` after `", sym, "` in macro definition")];
            proof {
                assert(bad.deep_view() =~= seq![msg_expect_eq(sym)]);
            }
            LineClass::Bad(bad)
        }
    } else {
        let bad = vec![msg_with_char("Unexpected symbol `", sym, "` in macro definition")];
        proof {
            assert(bad.deep_view() =~= seq![msg_unexpected_symbol(sym)]);
        }
        LineClass::Bad(bad)
    }
}

// ---------------------------------------------------------------------------
// Table building
// ---------------------------------------------------------------------------

pub open spec fn msg_recursive_macro(name: Seq<char>) -> Seq<char> {
    "Recursive macro reference in `"@ + name + "`"@
}

pub open spec fn msg_shell_failed() -> Seq<char> {
    "Command execution failed"@
}

/// What processing one assignment does to the table: either it applies
/// (possibly adding diagnostics), or it needs a shell command run first.
pub enum LineOutcome {
    Applied { table: Table, errors: Seq<Seq<char>> },
    NeedShell { command: Seq<char> },
}

/// The effect of one parsed assignment on table `t`, with `shells` mapping
/// already-run shell commands to their captured output.
pub open spec fn apply_assign_spec(
    t: Table,
    name: Seq<char>,
    op: AssignOp,
    body: Seq<char>,
    shells: Table,
) -> LineOutcome {
    match op {
        AssignOp::Deferred => LineOutcome::Applied {
            table: table_insert(t, name, body),
            errors: Seq::empty(),
        },
        AssignOp::Immediate | AssignOp::ImmediateDouble => {
            let f = subst_fix(body, t, (t.len() + 1) as nat);
            if f.errors.len() > 0 {
                LineOutcome::Applied { table: t, errors: f.errors }
            } else if !f.converged {
                LineOutcome::Applied { table: t, errors: seq![msg_recursive_macro(name)] }
            } else {
                LineOutcome::Applied { table: table_insert(t, name, f.text), errors: Seq::empty() }
            }
        },
        AssignOp::ImmediateTriple => {
            let r = subst_spec(body, t);
            if r.errors.len() > 0 {
                LineOutcome::Applied { table: t, errors: r.errors }
            } else {
                LineOutcome::Applied { table: table_insert(t, name, r.text), errors: Seq::empty() }
            }
        },
        AssignOp::Shell => {
            let r = subst_spec(body, t);
            if r.errors.len() > 0 {
                LineOutcome::Applied { table: t, errors: r.errors }
            } else {
                match table_lookup(shells, r.text) {
                    Some(out) => LineOutcome::Applied {
                        table: table_insert(t, name, trim_newlines_spec(out)),
                        errors: Seq::empty(),
                    },
                    None => LineOutcome::NeedShell { command: r.text },
                }
            }
        },
        AssignOp::Conditional => {
            if table_lookup(t, name) is Some {
                LineOutcome::Applied { table: t, errors: Seq::empty() }
            } else {
                LineOutcome::Applied { table: table_insert(t, name, body), errors: Seq::empty() }
            }
        },
        AssignOp::Append => {
            match table_lookup(t, name) {
                Some(prev) => LineOutcome::Applied {
                    table: table_insert(t, name, prev + " "@ + body),
                    errors: Seq::empty(),
                },
                None => LineOutcome::Applied {
                    table: table_insert(t, name, body),
                    errors: Seq::empty(),
                },
            }
        },
    }
}

/// The effect of one raw document line on the table.
pub open spec fn table_line_spec(t: Table, line: Seq<char>, shells: Table) -> LineOutcome {
    match parse_assign_line(line) {
        LineParse::Skip => LineOutcome::Applied { table: t, errors: Seq::empty() },
        LineParse::Bad(es) => LineOutcome::Applied { table: t, errors: es },
        LineParse::Assign { name, op, body } => apply_assign_spec(t, name, op, body, shells),
    }
}

/// What building the table over all lines produces.
pub enum TableBuild {
    Built { table: Table, errors: Seq<Seq<char>> },
    NeedShell { command: Seq<char> },
}

/// Folds [`table_line_spec`] over `lines[i..]`, stopping at the first
/// assignment that needs a shell command run.
pub open spec fn table_from_lines(
    t: Table,
    errs: Seq<Seq<char>>,
    lines: Seq<Seq<char>>,
    shells: Table,
    i: int,
) -> TableBuild
    decreases lines.len() - i
    when 0 <= i <= lines.len()
{
    if i >= lines.len() {
        TableBuild::Built { table: t, errors: errs }
    } else {
        match table_line_spec(t, lines[i], shells) {
            LineOutcome::Applied { table, errors } => table_from_lines(
                table,
                errs + errors,
                lines,
                shells,
                i + 1,
            ),
            LineOutcome::NeedShell { command } => TableBuild::NeedShell { command },
        }
    }
}

/// The macro table of a whole document.
pub open spec fn table_build_spec(lines: Seq<Seq<char>>, shells: Table) -> TableBuild {
    table_from_lines(Seq::empty(), Seq::empty(), lines, shells, 0)
}

/// The table builder's state after the first `k` lines: what the assignment
/// on line `k` is processed against.
pub open spec fn table_state_at(lines: Seq<Seq<char>>, shells: Table, k: int) -> TableBuild
    recommends
        0 <= k <= lines.len(),
{
    table_build_spec(lines.take(k), shells)
}

proof fn lemma_fold_snoc(
    t: Table,
    errs: Seq<Seq<char>>,
    lines: Seq<Seq<char>>,
    line: Seq<char>,
    shells: Table,
    i: int,
)
    requires
        0 <= i <= lines.len(),
    ensures
        table_from_lines(t, errs, lines.push(line), shells, i) == (match table_from_lines(
            t,
            errs,
            lines,
            shells,
            i,
        ) {
            TableBuild::Built { table, errors } => match table_line_spec(table, line, shells) {
                LineOutcome::Applied { table: t2, errors: e2 } => TableBuild::Built {
                    table: t2,
                    errors: errors + e2,
                },
                LineOutcome::NeedShell { command } => TableBuild::NeedShell { command },
            },
            ns => ns,
        }),
    decreases lines.len() - i,
{
    let ext = lines.push(line);
    if i >= lines.len() {
        assert(ext[i] == line);
        match table_line_spec(t, line, shells) {
            LineOutcome::Applied { table: t2, errors: e2 } => {
                assert(table_from_lines(t, errs, ext, shells, i) == table_from_lines(
                    t2,
                    errs + e2,
                    ext,
                    shells,
                    i + 1,
                ));
            },
            LineOutcome::NeedShell { command } => {},
        }
    } else {
        assert(ext[i] == lines[i]);
        match table_line_spec(t, lines[i], shells) {
            LineOutcome::Applied { table: t2, errors: e2 } => {
                lemma_fold_snoc(t2, errs + e2, lines, line, shells, i + 1);
            },
            LineOutcome::NeedShell { command } => {},
        }
    }
}

/// The per-line step law: the state after `k + 1` lines is the state after
/// `k` lines with line `k` applied to it.
pub proof fn lemma_table_build_step(lines: Seq<Seq<char>>, shells: Table, k: int)
    requires
        0 <= k < lines.len(),
    ensures
        table_state_at(lines, shells, k + 1) == (match table_state_at(lines, shells, k) {
            TableBuild::Built { table, errors } => match table_line_spec(
                table,
                lines[k],
                shells,
            ) {
                LineOutcome::Applied { table: t2, errors: e2 } => TableBuild::Built {
                    table: t2,
                    errors: errors + e2,
                },
                LineOutcome::NeedShell { command } => TableBuild::NeedShell { command },
            },
            ns => ns,
        }),
{
    assert(lines.take(k + 1) =~= lines.take(k).push(lines[k]));
    lemma_fold_snoc(Seq::empty(), Seq::empty(), lines.take(k), lines[k], shells, 0);
}

/// Macro ordering: the state in which the assignment on line `k` is
/// processed — and with it the value a `:=` assignment stores — is a
/// function of the lines before `k` alone; definitions on later lines play
/// no part in it.
pub proof fn lemma_macro_ordering(
    lines_a: Seq<Seq<char>>,
    lines_b: Seq<Seq<char>>,
    shells: Table,
    k: int,
)
    requires
        0 <= k <= lines_a.len(),
        k <= lines_b.len(),
        lines_a.take(k) == lines_b.take(k),
    ensures
        table_state_at(lines_a, shells, k) == table_state_at(lines_b, shells, k),
{
}

fn extend_errs(errs: &mut Vec<String>, more: Vec<String>)
    ensures
        final(errs).deep_view() == old(errs).deep_view() + more.deep_view(),
{
    let ghost more0 = more.deep_view();
    let mut more = more;
    errs.append(&mut more);
    proof {
        assert(errs.deep_view() =~= old(errs).deep_view() + more0);
    }
}

fn msg_recursive_macro_exec(name: &String) -> (r: String)
    ensures
        r@ == msg_recursive_macro(name@),
{
    let mut m = String::from_str("Recursive macro reference in `");
    m.append(name.as_str());
    m.append("`");
    m
}

fn apply_assign(
    table: &mut MacroTable,
    errs: &mut Vec<String>,
    name: String,
    op: AssignOp,
    body: String,
    shells: &MacroTable,
) -> (r: Option<String>)
    ensures
        ({
            let out = apply_assign_spec(old(table)@, name@, op, body@, shells@);
            match r {
                None => out matches LineOutcome::Applied { table: t2, errors: e2 }
                    && final(table)@ == t2
                    && final(errs).deep_view() == old(errs).deep_view() + e2,
                Some(cmd) => out == (LineOutcome::NeedShell { command: cmd@ })
                    && final(table)@ == old(table)@
                    && final(errs)@ == old(errs)@,
            }
        }),
{
    match op {
        AssignOp::Deferred => {
            table.insert(name, body);
            proof {
                assert(errs.deep_view() =~= old(errs).deep_view() + Seq::<Seq<char>>::empty());
            }
            None
        },
        AssignOp::Immediate | AssignOp::ImmediateDouble => {
            let fuel: u128 = table.len() as u128 + 1;
            let (text, ferrs, converged) = subst_to_fixpoint(body, table, fuel);
            if ferrs.len() > 0 {
                proof {
                    assert(ferrs.deep_view().len() == ferrs@.len());
                }
                extend_errs(errs, ferrs);
            } else if !converged {
                proof {
                    assert(ferrs.deep_view() =~= Seq::<Seq<char>>::empty());
                }
                push_err(errs, msg_recursive_macro_exec(&name));
            } else {
                proof {
                    assert(ferrs.deep_view() =~= Seq::<Seq<char>>::empty());
                }
                table.insert(name, text);
                proof {
                    assert(errs.deep_view() =~= old(errs).deep_view()
                        + Seq::<Seq<char>>::empty());
                }
            }
            None
        },
        AssignOp::ImmediateTriple => {
            match substitute(body.as_str(), table) {
                Err(e) => {
                    extend_errs(errs, e.0);
                },
                Ok((text, _hits)) => {
                    table.insert(name, text);
                    proof {
                        assert(errs.deep_view() =~= old(errs).deep_view()
                            + Seq::<Seq<char>>::empty());
                    }
                },
            }
            None
        },
        AssignOp::Shell => {
            match substitute(body.as_str(), table) {
                Err(e) => {
                    extend_errs(errs, e.0);
                    None
                },
                Ok((command, _hits)) => {
                    let looked = match shells.get(&command) {
                        Some(out) => Some(out.clone()),
                        None => None,
                    };
                    match looked {
                        Some(out) => {
                            let trimmed = trim_newlines(&out);
                            table.insert(name, trimmed);
                            proof {
                                assert(errs.deep_view() =~= old(errs).deep_view()
                                    + Seq::<Seq<char>>::empty());
                            }
                            None
                        },
                        None => Some(command),
                    }
                },
            }
        },
        AssignOp::Conditional => {
            let defined = match table.get(&name) {
                Some(_) => true,
                None => false,
            };
            if !defined {
                table.insert(name, body);
            }
            proof {
                assert(errs.deep_view() =~= old(errs).deep_view() + Seq::<Seq<char>>::empty());
            }
            None
        },
        AssignOp::Append => {
            let prev = match table.get(&name) {
                Some(p) => Some(p.clone()),
                None => None,
            };
            match prev {
                Some(p) => {
                    let mut v = p;
                    v.append(" ");
                    v.append(body.as_str());
                    table.insert(name, v);
                },
                None => {
                    table.insert(name, body);
                },
            }
            proof {
                assert(errs.deep_view() =~= old(errs).deep_view() + Seq::<Seq<char>>::empty());
            }
            None
        },
    }
}

/// What the executable table builder produced.
pub enum TableOutcome {
    /// The table, with the diagnostics of every bad line.
    Built(MacroTable, Vec<String>),
    /// A `!=` assignment needs this shell command run first.
    NeedShell(String),
}

/// Builds the macro table of a document: scans every line for one of the
/// assignment operators `= := ::= :::= != ?= +=` (skipping recipe and
/// comment lines), applying each in order. `shells` maps already-run shell
/// commands to their captured output; the build pauses at the first `!=`
/// command not found there.
pub fn generate_macro_table(lines: &Vec<Vec<char>>, shells: &MacroTable) -> (r: TableOutcome)
    ensures
        ({
            let sp = table_build_spec(lines.deep_view(), shells@);
            match r {
                TableOutcome::Built(t, es) => sp == (TableBuild::Built {
                    table: t@,
                    errors: es.deep_view(),
                }),
                TableOutcome::NeedShell(c) => sp == (TableBuild::NeedShell { command: c@ }),
            }
        }),
{
    let ghost big = lines.deep_view();
    let ghost sh = shells@;
    let ghost goal = table_build_spec(big, sh);
    let mut table = MacroTable::new();
    let mut errs: Vec<String> = Vec::new();
    let n = lines.len();
    let mut i: usize = 0;
    proof {
        assert(errs.deep_view() =~= Seq::<Seq<char>>::empty());
        assert(table@ =~= Seq::<(Seq<char>, Seq<char>)>::empty());
    }
    while i < n
        invariant
            i <= n,
            n == big.len(),
            lines.deep_view() == big,
            shells@ == sh,
            goal == table_build_spec(big, sh),
            goal == table_from_lines(table@, errs.deep_view(), big, sh, i as int),
        decreases n - i,
    {
        let ghost t0 = table@;
        let ghost e0 = errs.deep_view();
        let line = &lines[i];
        proof {
            assert(big[i as int] == line.deep_view());
            assert(line.deep_view() =~= line@);
        }
        match classify_line(line) {
            LineClass::Skip => {
                proof {
                    assert(table_line_spec(t0, big[i as int], sh) == (LineOutcome::Applied {
                        table: t0,
                        errors: Seq::<Seq<char>>::empty(),
                    }));
                    assert(e0 + Seq::<Seq<char>>::empty() =~= e0);
                }
            },
            LineClass::Bad(es) => {
                proof {
                    assert(table_line_spec(t0, big[i as int], sh) == (LineOutcome::Applied {
                        table: t0,
                        errors: es.deep_view(),
                    }));
                }
                extend_errs(&mut errs, es);
            },
            LineClass::Assign { name, op, body } => {
                let ghost sp_out = apply_assign_spec(t0, name@, op, body@, sh);
                match apply_assign(&mut table, &mut errs, name, op, body, shells) {
                    Some(cmd) => {
                        proof {
                            assert(table_line_spec(t0, big[i as int], sh) == sp_out);
                            assert(goal == (TableBuild::NeedShell { command: cmd@ }));
                        }
                        return TableOutcome::NeedShell(cmd);
                    },
                    None => {
                        proof {
                            assert(table_line_spec(t0, big[i as int], sh) == sp_out);
                        }
                    },
                }
            },
        }
        i = i + 1;
    }
    proof {
        assert(goal == (TableBuild::Built { table: table@, errors: errs.deep_view() }));
    }
    TableOutcome::Built(table, errs)
}

// ---------------------------------------------------------------------------
// File-inclusion lines, and the whole pass
// ---------------------------------------------------------------------------

/// Whether the line begins with the file-inclusion keyword.
pub open spec fn starts_with_inclusion(line: Seq<char>) -> bool {
    line.len() >= 7 && line.subrange(0, 7) == inclusion_word()
}

pub open spec fn msg_cannot_read(path: Seq<char>) -> Seq<char> {
    "Cannot read file `"@ + path + "`"@
}

pub open spec fn msg_inclusion_cycle() -> Seq<char> {
    "Recursive file inclusion"@
}

pub open spec fn msg_recursive_text() -> Seq<char> {
    "Recursive macro reference in the makefile"@
}

/// What one inclusion-resolving pass over the lines produces.
pub enum Splice {
    /// The rebuilt document (each line newline-terminated) and how many
    /// inclusion lines were replaced by file contents.
    Spliced { text: Seq<char>, count: nat },
    /// Expanding an inclusion line's argument reported diagnostics.
    Failed { errors: Seq<Seq<char>> },
    /// The document names this file, whose contents are not at hand.
    NeedFile { path: Seq<char> },
}

/// One pass over `lines[i..]`: each inclusion line is replaced by the
/// contents of the file it names (its argument macro-expanded against `t`
/// and trimmed), every other line is kept; all lines come out
/// newline-terminated.
pub open spec fn splice_spec(lines: Seq<Seq<char>>, t: Table, files: Table, i: int) -> Splice
    decreases lines.len() - i
    when 0 <= i <= lines.len()
{
    if i >= lines.len() {
        Splice::Spliced { text: Seq::empty(), count: 0 }
    } else {
        let line = lines[i];
        if starts_with_inclusion(line) {
            let arg = trim_spec(line.skip(7));
            let r = subst_spec(arg, t);
            if r.errors.len() > 0 {
                Splice::Failed { errors: r.errors }
            } else {
                match table_lookup(files, r.text) {
                    None => Splice::NeedFile { path: r.text },
                    Some(content) => match splice_spec(lines, t, files, i + 1) {
                        Splice::Spliced { text, count } => Splice::Spliced {
                            text: content + seq!['\n'] + text,
                            count: count + 1,
                        },
                        other => other,
                    },
                }
            }
        } else {
            match splice_spec(lines, t, files, i + 1) {
                Splice::Spliced { text, count } => Splice::Spliced {
                    text: line + seq!['\n'] + text,
                    count,
                },
                other => other,
            }
        }
    }
}

/// The executable mirror of [`Splice`].
pub enum SpliceExec {
    Spliced(String, usize),
    Failed(Vec<String>),
    NeedFile(String),
}

fn splice_lines(lines: &Vec<Vec<char>>, table: &MacroTable, files: &MacroTable) -> (r: SpliceExec)
    ensures
        ({
            let sp = splice_spec(lines.deep_view(), table@, files@, 0);
            match r {
                SpliceExec::Spliced(text, count) => sp == (Splice::Spliced {
                    text: text@,
                    count: count as nat,
                }),
                SpliceExec::Failed(es) => sp == (Splice::Failed { errors: es.deep_view() }),
                SpliceExec::NeedFile(p) => sp == (Splice::NeedFile { path: p@ }),
            }
        }),
{
    let ghost big = lines.deep_view();
    let ghost t = table@;
    let ghost fi = files@;
    let ghost goal = splice_spec(big, t, fi, 0);
    let inclusion_w = crate::parser::lex::inclusion_chars();
    let mut out = String::new();
    let mut count: usize = 0;
    let n = lines.len();
    let mut i: usize = 0;
    proof {
        assert(out@ =~= Seq::<char>::empty());
    }
    while i < n
        invariant
            i <= n,
            n == big.len(),
            count <= i,
            lines.deep_view() == big,
            table@ == t,
            files@ == fi,
            inclusion_w@ == inclusion_word(),
            goal == splice_spec(big, t, fi, 0),
            ({
                match splice_spec(big, t, fi, i as int) {
                    Splice::Spliced { text, count: c2 } => goal == (Splice::Spliced {
                        text: out@ + text,
                        count: (count + c2) as nat,
                    }),
                    other => goal == other,
                }
            }),
        decreases n - i,
    {
        let line = &lines[i];
        proof {
            assert(big[i as int] == line.deep_view());
            assert(line.deep_view() =~= line@);
        }
        let is_inclusion = line.len() >= 7 && crate::parser::lex::word_matches(
            line,
            0,
            7,
            &inclusion_w,
        );
        if is_inclusion {
            let tail = crate::parser::lex::chars_sub(line, 7, line.len());
            proof {
                assert(tail@ =~= line@.skip(7));
            }
            let arg = trim_chars(&tail);
            let arg_str = chars_to_string(&arg);
            match substitute(arg_str.as_str(), table) {
                Err(e) => {
                    proof {
                        assert(splice_spec(big, t, fi, i as int) == (Splice::Failed {
                            errors: e.0.deep_view(),
                        }));
                    }
                    return SpliceExec::Failed(e.0);
                },
                Ok((path, _hits)) => {
                    let looked = match files.get(&path) {
                        Some(c) => Some(c.clone()),
                        None => None,
                    };
                    match looked {
                        None => {
                            proof {
                                assert(splice_spec(big, t, fi, i as int) == (Splice::NeedFile {
                                    path: path@,
                                }));
                            }
                            return SpliceExec::NeedFile(path);
                        },
                        Some(content) => {
                            let ghost old_out = out@;
                            out.append(content.as_str());
                            string_push(&mut out, '\n');
                            count = count + 1;
                            proof {
                                assert(out@ =~= old_out + (content@ + seq!['\n']));
                                match splice_spec(big, t, fi, i as int + 1) {
                                    Splice::Spliced { text, count: c2 } => {
                                        assert(old_out + (content@ + seq!['\n'] + text) =~= (
                                        old_out + (content@ + seq!['\n'])) + text);
                                    },
                                    _ => {},
                                }
                            }
                        },
                    }
                },
            }
        } else {
            let ghost old_out = out@;
            let line_str = chars_to_string(line);
            out.append(line_str.as_str());
            string_push(&mut out, '\n');
            proof {
                assert(out@ =~= old_out + (line@ + seq!['\n']));
                match splice_spec(big, t, fi, i as int + 1) {
                    Splice::Spliced { text, count: c2 } => {
                        assert(old_out + (line@ + seq!['\n'] + text) =~= (old_out + (line@
                            + seq!['\n'])) + text);
                    },
                    _ => {},
                }
            }
        }
        i = i + 1;
    }
    proof {
        assert(splice_spec(big, t, fi, i as int) == (Splice::Spliced {
            text: Seq::<char>::empty(),
            count: 0nat,
        }));
        assert(out@ + Seq::<char>::empty() =~= out@);
    }
    SpliceExec::Spliced(out, count)
}

/// What a whole preprocessor run produces.
pub enum PreprocSpecOutcome {
    Done(Seq<char>),
    Failed(Seq<Seq<char>>),
    NeedShell(Seq<char>),
    NeedFile(Seq<char>),
}

/// One round builds the table and resolves inclusion lines; rounds repeat
/// while a pass spliced anything, and the final text is substituted to a
/// fixpoint. `fuel` bounds the rounds so that a file that names itself is
/// reported instead of spliced forever.
pub open spec fn preprocess_rounds(
    s: Seq<char>,
    shells: Table,
    files: Table,
    fuel: nat,
) -> PreprocSpecOutcome
    decreases fuel,
{
    match table_build_spec(lines_of(s), shells) {
        TableBuild::NeedShell { command } => PreprocSpecOutcome::NeedShell(command),
        TableBuild::Built { table, errors } => {
            if errors.len() > 0 {
                PreprocSpecOutcome::Failed(errors)
            } else {
                match splice_spec(lines_of(s), table, files, 0) {
                    Splice::Failed { errors } => PreprocSpecOutcome::Failed(errors),
                    Splice::NeedFile { path } => PreprocSpecOutcome::NeedFile(path),
                    Splice::Spliced { text, count } => {
                        if count > 0 {
                            if fuel == 0 {
                                PreprocSpecOutcome::Failed(seq![msg_inclusion_cycle()])
                            } else {
                                preprocess_rounds(text, shells, files, (fuel - 1) as nat)
                            }
                        } else {
                            let f = subst_fix(text, table, (table.len() + 1) as nat);
                            if f.errors.len() > 0 {
                                PreprocSpecOutcome::Failed(f.errors)
                            } else if !f.converged {
                                PreprocSpecOutcome::Failed(seq![msg_recursive_text()])
                            } else {
                                PreprocSpecOutcome::Done(f.text)
                            }
                        }
                    },
                }
            }
        },
    }
}

/// The whole preprocessor: table, inclusions, fixpoint substitution.
pub open spec fn preprocess_spec(s: Seq<char>, shells: Table, files: Table) -> PreprocSpecOutcome {
    preprocess_rounds(s, shells, files, (files.len() + 2) as nat)
}

/// What an executable preprocessor run produced.
pub enum PreprocOutcome {
    /// The fully preprocessed text.
    Done(String),
    /// The collected diagnostics of the failing pass.
    Failed(PreprocError),
    /// A `!=` assignment needs this shell command run; record the captured
    /// output under the command in the shell response table and run again.
    NeedShell(String),
    /// An inclusion line names this file; record its contents under the path
    /// in the file response table and run again.
    NeedFile(String),
}

/// Runs the whole preprocessor over `source`: builds the macro table,
/// resolves file-inclusion lines to a fixpoint, and expands macro references
/// to a fixpoint.
///
/// `shells` and `files` carry the outside world's answers: captured output
/// by shell command, and file contents by path. When an answer is missing
/// the run stops and asks for it; the caller performs the action, records
/// the answer and calls again.
pub fn preprocess_full(source: &str, shells: &MacroTable, files: &MacroTable) -> (r:
    PreprocOutcome)
    ensures
        ({
            let sp = preprocess_spec(source@, shells@, files@);
            match r {
                PreprocOutcome::Done(text) => sp == PreprocSpecOutcome::Done(text@),
                PreprocOutcome::Failed(e) => sp == PreprocSpecOutcome::Failed(e.0.deep_view()),
                PreprocOutcome::NeedShell(c) => sp == PreprocSpecOutcome::NeedShell(c@),
                PreprocOutcome::NeedFile(p) => sp == PreprocSpecOutcome::NeedFile(p@),
            }
        }),
{
    let ghost sh = shells@;
    let ghost fi = files@;
    let ghost goal = preprocess_spec(source@, sh, fi);
    let mut text = String::from_str(source);
    let mut fuel: u128 = files.len() as u128 + 2;
    loop
        invariant
            shells@ == sh,
            files@ == fi,
            goal == preprocess_spec(source@, shells@, files@),
            goal == preprocess_rounds(text@, sh, fi, fuel as nat),
        decreases fuel,
    {
        let chars = str_to_chars(text.as_str());
        let lines = split_lines(&chars);
        proof {
            assert(lines.deep_view() == lines_of(text@));
        }
        match generate_macro_table(&lines, shells) {
            TableOutcome::NeedShell(c) => {
                return PreprocOutcome::NeedShell(c);
            },
            TableOutcome::Built(table, errs) => {
                if errs.len() > 0 {
                    proof {
                        assert(errs.deep_view().len() == errs@.len());
                    }
                    return PreprocOutcome::Failed(PreprocError(errs));
                }
                proof {
                    assert(errs.deep_view() =~= Seq::<Seq<char>>::empty());
                }
                match splice_lines(&lines, &table, files) {
                    SpliceExec::Failed(es) => {
                        return PreprocOutcome::Failed(PreprocError(es));
                    },
                    SpliceExec::NeedFile(p) => {
                        return PreprocOutcome::NeedFile(p);
                    },
                    SpliceExec::Spliced(new_text, count) => {
                        if count > 0 {
                            if fuel == 0 {
                                let es = vec![String::from_str("Recursive file inclusion")];
                                proof {
                                    assert(es.deep_view() =~= seq![msg_inclusion_cycle()]);
                                }
                                return PreprocOutcome::Failed(PreprocError(es));
                            }
                            fuel = fuel - 1;
                            text = new_text;
                        } else {
                            let sub_fuel: u128 = table.len() as u128 + 1;
                            let (ftext, ferrs, converged) = subst_to_fixpoint(
                                new_text,
                                &table,
                                sub_fuel,
                            );
                            if ferrs.len() > 0 {
                                proof {
                                    assert(ferrs.deep_view().len() == ferrs@.len());
                                }
                                return PreprocOutcome::Failed(PreprocError(ferrs));
                            }
                            if !converged {
                                let es = vec![
                                    String::from_str(
                                        "Recursive macro reference in the makefile",
                                    ),
                                ];
                                proof {
                                    assert(ferrs.deep_view() =~= Seq::<Seq<char>>::empty());
                                    assert(es.deep_view() =~= seq![msg_recursive_text()]);
                                }
                                return PreprocOutcome::Failed(PreprocError(es));
                            }
                            proof {
                                assert(ferrs.deep_view() =~= Seq::<Seq<char>>::empty());
                            }
                            return PreprocOutcome::Done(ftext);
                        }
                    },
                }
            },
        }
    }
}

fn msg_cannot_read_exec(path: &String) -> (r: String)
    ensures
        r@ == msg_cannot_read(path@),
{
    let mut m = String::from_str("Cannot read file `");
    m.append(path.as_str());
    m.append("`");
    m
}

/// Preprocesses a document that needs no outside work: builds the macro
/// table, expands references to a fixpoint, and collects diagnostics.
///
/// A `!=` assignment fails here with the shell-failure diagnostic, and an
/// inclusion line with a cannot-read diagnostic: running a shell and reading
/// files need a caller that drives [`preprocess_full`] and performs them.
pub fn preprocess(source: &str) -> (r: Result<String, PreprocError>)
    ensures
        ({
            let sp = preprocess_spec(source@, Seq::empty(), Seq::empty());
            &&& (r is Ok <==> sp is Done)
            &&& (r matches Ok(text) ==> sp == PreprocSpecOutcome::Done(text@))
            &&& (sp matches PreprocSpecOutcome::Failed(es) ==> r matches Err(e)
                && e.0.deep_view() == es)
            &&& (sp matches PreprocSpecOutcome::NeedShell(c) ==> r matches Err(e)
                && e.0.deep_view() == seq![msg_shell_failed()])
            &&& (sp matches PreprocSpecOutcome::NeedFile(p) ==> r matches Err(e)
                && e.0.deep_view() == seq![msg_cannot_read(p)])
        }),
{
    let shells = MacroTable::new();
    let files = MacroTable::new();
    match preprocess_full(source, &shells, &files) {
        PreprocOutcome::Done(text) => Ok(text),
        PreprocOutcome::Failed(e) => Err(e),
        PreprocOutcome::NeedShell(_c) => {
            let es = vec![String::from_str("Command execution failed")];
            proof {
                assert(es.deep_view() =~= seq![msg_shell_failed()]);
            }
            Err(PreprocError(es))
        },
        PreprocOutcome::NeedFile(p) => {
            let es = vec![msg_cannot_read_exec(&p)];
            proof {
                assert(es.deep_view() =~= seq![msg_cannot_read(p@)]);
            }
            Err(PreprocError(es))
        },
    }
}

} // verus!
