//! The lossless lexer: turns raw makefile text into an ordered token stream.
//!
//! Lexing never fails: unrecognized characters become `ERROR` tokens, and the
//! concatenation of all token texts in order is exactly the input text.

use vstd::prelude::*;

use crate::parser::SyntaxKind;
use crate::text::{char_alphanumeric, chars_to_string, is_alphanumeric, str_to_chars};

verus! {

/// Where the lexer stands inside a line: at the start of a line, right after
/// a recipe-line `INDENT`, or in the middle of an ordinary line.
#[derive(Debug, Clone, Copy, PartialEq, Eq, Structural)]
pub enum LexMode {
    Start,
    Recipe,
    Mid,
}

/// Identifier characters: alphanumeric, `_` and `.`.
pub open spec fn is_ident_char(c: char) -> bool {
    char_alphanumeric(c) || c == '_' || c == '.'
}

/// Characters joined into a `WHITESPACE` token: space, tab (not at the start
/// of a line) and carriage return.
pub open spec fn is_blank_char(c: char) -> bool {
    c == ' ' || c == '\t' || c == '\r'
}

/// The characters of the `export` keyword.
pub open spec fn export_word() -> Seq<char> {
    seq!['e', 'x', 'p', 'o', 'r', 't']
}

/// The characters of the file-inclusion keyword.
pub open spec fn inclusion_word() -> Seq<char> {
    seq!['i', 'n', 'c', 'l', 'u', 'd', 'e']
}

/// The token kind of an identifier word: the two keywords get their own kinds.
pub open spec fn ident_kind(w: Seq<char>) -> SyntaxKind {
    if w == export_word() {
        SyntaxKind::EXPORT
    } else if w == inclusion_word() {
        SyntaxKind::IMPORT
    } else {
        SyntaxKind::IDENTIFIER
    }
}

/// The kind of a one-character token that is neither a newline, an indent,
/// an identifier character nor a blank.
pub open spec fn single_char_kind(c: char) -> SyntaxKind {
    if c == '\'' {
        SyntaxKind::SINGLE_QUOTE
    } else if c == '"' {
        SyntaxKind::DOUBLE_QUOTE
    } else if c == '\\' {
        SyntaxKind::BACKSLASH
    } else if c == '?' {
        SyntaxKind::QUESTION
    } else if c == '@' {
        SyntaxKind::AT_SIGN
    } else if c == '%' {
        SyntaxKind::PERCENT
    } else if c == '=' {
        SyntaxKind::EQUALS
    } else if c == '$' {
        SyntaxKind::DOLLAR
    } else if c == '(' {
        SyntaxKind::LPAREN
    } else if c == ')' {
        SyntaxKind::RPAREN
    } else if c == '{' {
        SyntaxKind::LBRACE
    } else if c == '}' {
        SyntaxKind::RBRACE
    } else if c == ':' {
        SyntaxKind::COLON
    } else if c == '^' {
        SyntaxKind::CARET
    } else if c == ',' {
        SyntaxKind::COMMA
    } else if c == '<' {
        SyntaxKind::LESS
    } else if c == '+' {
        SyntaxKind::PLUS
    } else if c == '*' {
        SyntaxKind::STAR
    } else {
        SyntaxKind::ERROR
    }
}

/// The first position at or after `i` where `p` stops holding (or the end).
pub open spec fn scan_while(p: spec_fn(char) -> bool, s: Seq<char>, i: int) -> int
    decreases s.len() - i
    when 0 <= i <= s.len()
{
    if i < s.len() && p(s[i]) {
        scan_while(p, s, i + 1)
    } else {
        i
    }
}

pub proof fn lemma_scan_while(p: spec_fn(char) -> bool, s: Seq<char>, i: int)
    requires
        0 <= i <= s.len(),
    ensures
        i <= scan_while(p, s, i) <= s.len(),
        forall|k: int| i <= k < scan_while(p, s, i) ==> p(s[k]),
        scan_while(p, s, i) < s.len() ==> !p(s[scan_while(p, s, i)]),
    decreases s.len() - i,
{
    if i < s.len() && p(s[i]) {
        lemma_scan_while(p, s, i + 1);
    }
}

pub proof fn lemma_scan_while_determined(p: spec_fn(char) -> bool, s: Seq<char>, i: int, j: int)
    requires
        0 <= i <= j <= s.len(),
        forall|k: int| i <= k < j ==> p(s[k]),
        j < s.len() ==> !p(s[j]),
    ensures
        scan_while(p, s, i) == j,
    decreases j - i,
{
    if i < j {
        lemma_scan_while_determined(p, s, i + 1, j);
    }
}

/// The first token starting at position `i` of `s` in mode `mode`: its kind,
/// the position right after it, and the mode for what follows.
pub open spec fn first_token_at(s: Seq<char>, i: int, mode: LexMode) -> (SyntaxKind, int, LexMode)
    recommends
        0 <= i < s.len(),
{
    let c = s[i];
    if mode == LexMode::Recipe && c != '\n' {
        (SyntaxKind::TEXT, scan_while(|x: char| x != '\n', s, i), LexMode::Mid)
    } else if c == '\n' {
        (SyntaxKind::NEWLINE, i + 1, LexMode::Start)
    } else if mode == LexMode::Start && c == '\t' {
        (SyntaxKind::INDENT, i + 1, LexMode::Recipe)
    } else if c == '#' {
        (SyntaxKind::COMMENT, scan_while(|x: char| x != '\n', s, i), LexMode::Mid)
    } else if is_ident_char(c) {
        let end = scan_while(|x: char| is_ident_char(x), s, i);
        (ident_kind(s.subrange(i, end)), end, LexMode::Mid)
    } else if is_blank_char(c) {
        (SyntaxKind::WHITESPACE, scan_while(|x: char| is_blank_char(x), s, i), LexMode::Mid)
    } else {
        (single_char_kind(c), i + 1, LexMode::Mid)
    }
}

pub proof fn lemma_first_token_bounds(s: Seq<char>, i: int, mode: LexMode)
    requires
        0 <= i < s.len(),
    ensures
        i < first_token_at(s, i, mode).1 <= s.len(),
{
    let c = s[i];
    if mode == LexMode::Recipe && c != '\n' {
        lemma_scan_while(|x: char| x != '\n', s, i + 1);
        assert(scan_while(|x: char| x != '\n', s, i) == scan_while(|x: char| x != '\n', s, i + 1));
    } else if c == '\n' {
    } else if mode == LexMode::Start && c == '\t' {
    } else if c == '#' {
        lemma_scan_while(|x: char| x != '\n', s, i);
    } else if is_ident_char(c) {
        lemma_scan_while(|x: char| is_ident_char(x), s, i);
    } else if is_blank_char(c) {
        lemma_scan_while(|x: char| is_blank_char(x), s, i);
    } else {
    }
}

/// The tokens of `s` from position `i` on, starting in mode `mode`.
pub open spec fn lex_spec_at(s: Seq<char>, i: int, mode: LexMode) -> Seq<(SyntaxKind, Seq<char>)>
    decreases s.len() - i
    when 0 <= i <= s.len()
    via lex_spec_at_decreases
{
    if i >= s.len() {
        Seq::empty()
    } else {
        let (k, end, m2) = first_token_at(s, i, mode);
        seq![(k, s.subrange(i, end))] + lex_spec_at(s, end, m2)
    }
}

#[via_fn]
proof fn lex_spec_at_decreases(s: Seq<char>, i: int, mode: LexMode) {
    if i < s.len() {
        lemma_first_token_bounds(s, i, mode);
    }
}

/// The tokens of the whole text `s`.
pub open spec fn lex_spec(s: Seq<char>) -> Seq<(SyntaxKind, Seq<char>)> {
    lex_spec_at(s, 0, LexMode::Start)
}

/// The concatenation of the texts of `toks`, in order.
pub open spec fn tokens_text(toks: Seq<(SyntaxKind, Seq<char>)>) -> Seq<char>
    decreases toks.len(),
{
    if toks.len() == 0 {
        Seq::empty()
    } else {
        toks[0].1 + tokens_text(toks.skip(1))
    }
}

/// The views of an executable token vector.
pub open spec fn token_views(toks: Seq<(SyntaxKind, String)>) -> Seq<(SyntaxKind, Seq<char>)> {
    toks.map_values(|t: (SyntaxKind, String)| (t.0, t.1@))
}

proof fn lemma_tokens_text_cons(head: (SyntaxKind, Seq<char>), rest: Seq<(SyntaxKind, Seq<char>)>)
    ensures
        tokens_text(seq![head] + rest) == head.1 + tokens_text(rest),
{
    let all = seq![head] + rest;
    assert(all[0] == head);
    assert(all.skip(1) =~= rest);
}

/// Concatenating the token texts from position `i` on yields the input from
/// position `i` on: nothing is dropped or invented at the lexing layer.
pub proof fn lemma_lex_round_trip_at(s: Seq<char>, i: int, mode: LexMode)
    requires
        0 <= i <= s.len(),
    ensures
        tokens_text(lex_spec_at(s, i, mode)) == s.skip(i),
    decreases s.len() - i,
{
    if i >= s.len() {
        assert(s.skip(i) =~= Seq::<char>::empty());
    } else {
        let (k, end, m2) = first_token_at(s, i, mode);
        lemma_first_token_bounds(s, i, mode);
        lemma_lex_round_trip_at(s, end, m2);
        lemma_tokens_text_cons((k, s.subrange(i, end)), lex_spec_at(s, end, m2));
        assert(s.subrange(i, end) + s.skip(end) =~= s.skip(i));
    }
}

/// Round trip: the token texts of `lex_spec(s)`, concatenated in order,
/// reproduce `s` exactly.
pub proof fn lemma_lex_round_trip(s: Seq<char>)
    ensures
        tokens_text(lex_spec(s)) == s,
{
    lemma_lex_round_trip_at(s, 0, LexMode::Start);
    assert(s.skip(0) =~= s);
}

pub(crate) fn is_ident_char_exec(c: char) -> (r: bool)
    ensures
        r == is_ident_char(c),
{
    is_alphanumeric(c) || c == '_' || c == '.'
}

pub(crate) fn scan_ident_exec(chars: &Vec<char>, start: usize) -> (j: usize)
    requires
        start <= chars@.len(),
    ensures
        j == scan_while(|x: char| is_ident_char(x), chars@, start as int),
        start <= j <= chars@.len(),
{
    let n = chars.len();
    let mut j = start;
    loop
        invariant
            start <= j <= n,
            n == chars@.len(),
            forall|k: int| start <= k < j ==> is_ident_char(chars@[k]),
        ensures
            start <= j <= n,
            forall|k: int| start <= k < j ==> is_ident_char(chars@[k]),
            j < n ==> !is_ident_char(chars@[j as int]),
        decreases n - j,
    {
        if j >= n {
            break;
        }
        if !is_ident_char_exec(chars[j]) {
            break;
        }
        j = j + 1;
    }
    proof {
        lemma_scan_while_determined(|x: char| is_ident_char(x), chars@, start as int, j as int);
    }
    j
}

fn scan_blank_exec(chars: &Vec<char>, start: usize) -> (j: usize)
    requires
        start <= chars@.len(),
    ensures
        j == scan_while(|x: char| is_blank_char(x), chars@, start as int),
        start <= j <= chars@.len(),
{
    let n = chars.len();
    let mut j = start;
    loop
        invariant
            start <= j <= n,
            n == chars@.len(),
            forall|k: int| start <= k < j ==> is_blank_char(chars@[k]),
        ensures
            start <= j <= n,
            forall|k: int| start <= k < j ==> is_blank_char(chars@[k]),
            j < n ==> !is_blank_char(chars@[j as int]),
        decreases n - j,
    {
        if j >= n {
            break;
        }
        let c = chars[j];
        if !(c == ' ' || c == '\t' || c == '\r') {
            break;
        }
        j = j + 1;
    }
    proof {
        lemma_scan_while_determined(|x: char| is_blank_char(x), chars@, start as int, j as int);
    }
    j
}

pub(crate) fn scan_line_exec(chars: &Vec<char>, start: usize) -> (j: usize)
    requires
        start <= chars@.len(),
    ensures
        j == scan_while(|x: char| x != '\n', chars@, start as int),
        start <= j <= chars@.len(),
{
    let n = chars.len();
    let mut j = start;
    loop
        invariant
            start <= j <= n,
            n == chars@.len(),
            forall|k: int| start <= k < j ==> chars@[k] != '\n',
        ensures
            start <= j <= n,
            forall|k: int| start <= k < j ==> chars@[k] != '\n',
            j < n ==> chars@[j as int] == '\n',
        decreases n - j,
    {
        if j >= n {
            break;
        }
        if chars[j] == '\n' {
            break;
        }
        j = j + 1;
    }
    proof {
        lemma_scan_while_determined(|x: char| x != '\n', chars@, start as int, j as int);
    }
    j
}

pub(crate) fn word_matches(chars: &Vec<char>, a: usize, b: usize, word: &Vec<char>) -> (r: bool)
    requires
        a <= b <= chars@.len(),
    ensures
        r == (chars@.subrange(a as int, b as int) == word@),
{
    if b - a != word.len() {
        proof {
            assert(chars@.subrange(a as int, b as int).len() == b - a);
        }
        return false;
    }
    let n = word.len();
    let mut i: usize = 0;
    while i < n
        invariant
            i <= n,
            n == word@.len(),
            a <= b <= chars@.len(),
            b - a == n,
            forall|k: int| 0 <= k < i ==> chars@[a + k] == word@[k],
        decreases n - i,
    {
        if chars[a + i] != word[i] {
            proof {
                assert(chars@.subrange(a as int, b as int)[i as int] != word@[i as int]);
            }
            return false;
        }
        i = i + 1;
    }
    proof {
        assert(chars@.subrange(a as int, b as int) =~= word@);
    }
    true
}

fn export_chars() -> (v: Vec<char>)
    ensures
        v@ == export_word(),
{
    let mut v: Vec<char> = Vec::new();
    v.push('e');
    v.push('x');
    v.push('p');
    v.push('o');
    v.push('r');
    v.push('t');
    proof {
        assert(v@ =~= export_word());
    }
    v
}

pub(crate) fn inclusion_chars() -> (v: Vec<char>)
    ensures
        v@ == inclusion_word(),
{
    let mut v: Vec<char> = Vec::new();
    v.push('i');
    v.push('n');
    v.push('c');
    v.push('l');
    v.push('u');
    v.push('d');
    v.push('e');
    proof {
        assert(v@ =~= inclusion_word());
    }
    v
}

fn single_char_kind_exec(c: char) -> (k: SyntaxKind)
    ensures
        k == single_char_kind(c),
{
    if c == '\'' {
        SyntaxKind::SINGLE_QUOTE
    } else if c == '"' {
        SyntaxKind::DOUBLE_QUOTE
    } else if c == '\\' {
        SyntaxKind::BACKSLASH
    } else if c == '?' {
        SyntaxKind::QUESTION
    } else if c == '@' {
        SyntaxKind::AT_SIGN
    } else if c == '%' {
        SyntaxKind::PERCENT
    } else if c == '=' {
        SyntaxKind::EQUALS
    } else if c == '$' {
        SyntaxKind::DOLLAR
    } else if c == '(' {
        SyntaxKind::LPAREN
    } else if c == ')' {
        SyntaxKind::RPAREN
    } else if c == '{' {
        SyntaxKind::LBRACE
    } else if c == '}' {
        SyntaxKind::RBRACE
    } else if c == ':' {
        SyntaxKind::COLON
    } else if c == '^' {
        SyntaxKind::CARET
    } else if c == ',' {
        SyntaxKind::COMMA
    } else if c == '<' {
        SyntaxKind::LESS
    } else if c == '+' {
        SyntaxKind::PLUS
    } else if c == '*' {
        SyntaxKind::STAR
    } else {
        SyntaxKind::ERROR
    }
}

pub(crate) fn chars_sub(chars: &Vec<char>, a: usize, b: usize) -> (v: Vec<char>)
    requires
        a <= b <= chars@.len(),
    ensures
        v@ == chars@.subrange(a as int, b as int),
{
    let mut v: Vec<char> = Vec::new();
    let mut i = a;
    while i < b
        invariant
            a <= i <= b <= chars@.len(),
            v@ == chars@.subrange(a as int, i as int),
        decreases b - i,
    {
        v.push(chars[i]);
        i = i + 1;
        proof {
            assert(v@ =~= chars@.subrange(a as int, i as int));
        }
    }
    v
}

/// Lex `source` into its ordered token stream.
///
/// Lexing never fails; concatenating the token texts in order reproduces
/// `source` exactly.
pub fn lex(source: &str) -> (tokens: Vec<(SyntaxKind, String)>)
    ensures
        token_views(tokens@) == lex_spec(source@),
        tokens_text(token_views(tokens@)) == source@,
{
    let chars = str_to_chars(source);
    let n = chars.len();
    let export_w = export_chars();
    let inclusion_w = inclusion_chars();
    let mut tokens: Vec<(SyntaxKind, String)> = Vec::new();
    let mut pos: usize = 0;
    let mut mode = LexMode::Start;
    while pos < n
        invariant
            pos <= n,
            n == chars@.len(),
            chars@ == source@,
            export_w@ == export_word(),
            inclusion_w@ == inclusion_word(),
            lex_spec(source@) == token_views(tokens@) + lex_spec_at(chars@, pos as int, mode),
        decreases n - pos,
    {
        let ghost s = chars@;
        let ghost i = pos as int;
        let ghost spec_tok = first_token_at(s, i, mode);
        let c = chars[pos];
        let kind: SyntaxKind;
        let end: usize;
        let next_mode: LexMode;
        if mode == LexMode::Recipe && c != '\n' {
            kind = SyntaxKind::TEXT;
            end = scan_line_exec(&chars, pos);
            next_mode = LexMode::Mid;
        } else if c == '\n' {
            kind = SyntaxKind::NEWLINE;
            end = pos + 1;
            next_mode = LexMode::Start;
        } else if mode == LexMode::Start && c == '\t' {
            kind = SyntaxKind::INDENT;
            end = pos + 1;
            next_mode = LexMode::Recipe;
        } else if c == '#' {
            kind = SyntaxKind::COMMENT;
            end = scan_line_exec(&chars, pos);
            next_mode = LexMode::Mid;
        } else if is_ident_char_exec(c) {
            end = scan_ident_exec(&chars, pos);
            if word_matches(&chars, pos, end, &export_w) {
                kind = SyntaxKind::EXPORT;
            } else if word_matches(&chars, pos, end, &inclusion_w) {
                kind = SyntaxKind::IMPORT;
            } else {
                kind = SyntaxKind::IDENTIFIER;
            }
            next_mode = LexMode::Mid;
        } else if c == ' ' || c == '\t' || c == '\r' {
            kind = SyntaxKind::WHITESPACE;
            end = scan_blank_exec(&chars, pos);
            next_mode = LexMode::Mid;
        } else {
            kind = single_char_kind_exec(c);
            end = pos + 1;
            next_mode = LexMode::Mid;
        }
        proof {
            lemma_first_token_bounds(s, i, mode);
            assert(spec_tok == (kind, end as int, next_mode));
        }
        let text = chars_to_string(&chars_sub(&chars, pos, end));
        tokens.push((kind, text));
        proof {
            assert(token_views(tokens@) =~= token_views(tokens@.subrange(
                0,
                tokens@.len() - 1,
            )).push((kind, s.subrange(i, end as int))));
            assert(tokens@.subrange(0, tokens@.len() - 1) =~= tokens@.drop_last());
            assert(token_views(tokens@) =~= token_views(tokens@.drop_last()) + seq![
                (kind, s.subrange(i, end as int)),
            ]);
            assert(lex_spec_at(s, i, mode) == seq![(kind, s.subrange(i, end as int))]
                + lex_spec_at(s, end as int, next_mode));
            assert(token_views(tokens@.drop_last()) + lex_spec_at(s, i, mode) =~= token_views(
                tokens@,
            ) + lex_spec_at(s, end as int, next_mode));
        }
        pos = end;
        mode = next_mode;
    }
    proof {
        assert(lex_spec_at(chars@, pos as int, mode) =~= Seq::<(SyntaxKind, Seq<char>)>::empty());
        assert(token_views(tokens@) + lex_spec_at(chars@, pos as int, mode) =~= token_views(
            tokens@,
        ));
        lemma_lex_round_trip(source@);
    }
    tokens
}

} // verus!
