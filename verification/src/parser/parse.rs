//! The structural parser: consumes the lexer's tokens into a document tree
//! of rules, variable definitions and loose tokens, whose re-serialization
//! reproduces the input text exactly, and exposes read views and a small
//! mutation surface (add a rule, append or replace a recipe line) that keeps
//! the tree and its textual form consistent.

use vstd::prelude::*;

use crate::parser::lex::{lex, lex_spec, token_views, tokens_text};
use crate::parser::SyntaxKind;
use crate::text::string_push;

verus! {

/// One lexer token: kind and exact text.
pub type Token = (SyntaxKind, String);

/// The view of one token.
pub type TokV = (SyntaxKind, Seq<char>);

/// A recipe line inside a rule, or a loose token (a blank line) between
/// recipe lines.
#[derive(Debug, PartialEq, Eq)]
pub enum RulePart {
    /// An indent, the raw command text, and the newline.
    Recipe(Vec<Token>),
    /// A token standing directly inside the rule, such as a blank line.
    Plain(Token),
}

/// A rule node: its leading tokens (targets, the `:` operator and spacing),
/// its optional prerequisite expression, and what follows (newlines and
/// recipe lines).
#[derive(Debug, PartialEq, Eq)]
pub struct RuleNode {
    pub lead: Vec<Token>,
    pub expr: Option<Vec<Token>>,
    pub rest: Vec<RulePart>,
}

/// A variable node: its leading tokens (optional `export`, the name, the
/// operator and spacing), its optional value expression, and its trailing
/// tokens (the newline).
#[derive(Debug, PartialEq, Eq)]
pub struct VariableNode {
    pub lead: Vec<Token>,
    pub expr: Option<Vec<Token>>,
    pub tail: Vec<Token>,
}

/// A direct child of the document root.
#[derive(Debug, PartialEq, Eq)]
pub enum Item {
    /// A token outside any rule or variable: a newline, a comment, or a
    /// line the structural grammar does not cover.
    Loose(Token),
    Variable(VariableNode),
    RuleItem(RuleNode),
}

/// The parsed document: an ordered sequence of root items.
#[derive(Debug, PartialEq, Eq)]
pub struct Makefile {
    pub items: Vec<Item>,
}

// --- views -----------------------------------------------------------------

/// The view of a token vector.
pub open spec fn toks_view(toks: Seq<Token>) -> Seq<TokV> {
    token_views(toks)
}

/// The view of a rule part.
pub enum RulePartV {
    Recipe(Seq<TokV>),
    Plain(TokV),
}

impl View for RulePart {
    type V = RulePartV;

    open spec fn view(&self) -> RulePartV {
        match self {
            RulePart::Recipe(toks) => RulePartV::Recipe(toks_view(toks@)),
            RulePart::Plain(t) => RulePartV::Plain((t.0, t.1@)),
        }
    }
}

/// The view of a rule node.
pub struct RuleNodeV {
    pub lead: Seq<TokV>,
    pub expr: Option<Seq<TokV>>,
    pub rest: Seq<RulePartV>,
}

impl View for RuleNode {
    type V = RuleNodeV;

    open spec fn view(&self) -> RuleNodeV {
        RuleNodeV {
            lead: toks_view(self.lead@),
            expr: match &self.expr {
                Some(e) => Some(toks_view(e@)),
                None => None,
            },
            rest: Seq::new(self.rest@.len(), |i: int| self.rest@[i]@),
        }
    }
}

/// The view of a variable node.
pub struct VariableNodeV {
    pub lead: Seq<TokV>,
    pub expr: Option<Seq<TokV>>,
    pub tail: Seq<TokV>,
}

impl View for VariableNode {
    type V = VariableNodeV;

    open spec fn view(&self) -> VariableNodeV {
        VariableNodeV {
            lead: toks_view(self.lead@),
            expr: match &self.expr {
                Some(e) => Some(toks_view(e@)),
                None => None,
            },
            tail: toks_view(self.tail@),
        }
    }
}

/// The view of a root item.
pub enum ItemV {
    Loose(TokV),
    Variable(VariableNodeV),
    RuleItem(RuleNodeV),
}

impl View for Item {
    type V = ItemV;

    open spec fn view(&self) -> ItemV {
        match self {
            Item::Loose(t) => ItemV::Loose((t.0, t.1@)),
            Item::Variable(v) => ItemV::Variable(v@),
            Item::RuleItem(r) => ItemV::RuleItem(r@),
        }
    }
}

impl View for Makefile {
    type V = Seq<ItemV>;

    open spec fn view(&self) -> Seq<ItemV> {
        Seq::new(self.items@.len(), |i: int| self.items@[i]@)
    }
}

// --- serialization ---------------------------------------------------------

/// The text of a rule part.
pub open spec fn rule_part_text(p: RulePartV) -> Seq<char> {
    match p {
        RulePartV::Recipe(toks) => tokens_text(toks),
        RulePartV::Plain(t) => t.1,
    }
}

/// The text of a sequence of rule parts.
pub open spec fn rule_parts_text(ps: Seq<RulePartV>) -> Seq<char>
    decreases ps.len(),
{
    if ps.len() == 0 {
        Seq::empty()
    } else {
        rule_part_text(ps[0]) + rule_parts_text(ps.skip(1))
    }
}

/// The text of an optional token group.
pub open spec fn opt_tokens_text(e: Option<Seq<TokV>>) -> Seq<char> {
    match e {
        Some(toks) => tokens_text(toks),
        None => Seq::empty(),
    }
}

/// The text of one root item.
pub open spec fn item_text(item: ItemV) -> Seq<char> {
    match item {
        ItemV::Loose(t) => t.1,
        ItemV::Variable(v) => tokens_text(v.lead) + opt_tokens_text(v.expr) + tokens_text(v.tail),
        ItemV::RuleItem(r) => tokens_text(r.lead) + opt_tokens_text(r.expr) + rule_parts_text(
            r.rest,
        ),
    }
}

/// The text of a document: the concatenation of its items' texts.
pub open spec fn items_text(items: Seq<ItemV>) -> Seq<char>
    decreases items.len(),
{
    if items.len() == 0 {
        Seq::empty()
    } else {
        item_text(items[0]) + items_text(items.skip(1))
    }
}

/// The message the parser reports for an empty document.
pub open spec fn msg_empty_parse() -> Seq<char> {
    "unexpected token None"@
}

/// What `parse` produced: the document tree and the pass's diagnostics.
#[derive(Debug)]
pub struct Parsed {
    pub root: Makefile,
    pub errors: Vec<String>,
}

impl Parsed {
    /// The document tree.
    pub fn root(&self) -> (r: &Makefile)
        ensures
            r@ == self.root@,
    {
        &self.root
    }
}

// --- parsing ---------------------------------------------------------------

/// The first position at or after `i` whose token kind stops satisfying `p`.
pub open spec fn scan_toks(p: spec_fn(SyntaxKind) -> bool, tv: Seq<TokV>, i: int) -> int
    decreases tv.len() - i
    when 0 <= i <= tv.len()
{
    if i < tv.len() && p(tv[i].0) {
        scan_toks(p, tv, i + 1)
    } else {
        i
    }
}

pub proof fn lemma_scan_toks(p: spec_fn(SyntaxKind) -> bool, tv: Seq<TokV>, i: int)
    requires
        0 <= i <= tv.len(),
    ensures
        i <= scan_toks(p, tv, i) <= tv.len(),
        forall|k: int| i <= k < scan_toks(p, tv, i) ==> p(tv[k].0),
        scan_toks(p, tv, i) < tv.len() ==> !p(tv[scan_toks(p, tv, i)].0),
    decreases tv.len() - i,
{
    if i < tv.len() && p(tv[i].0) {
        lemma_scan_toks(p, tv, i + 1);
    }
}

pub proof fn lemma_scan_toks_determined(p: spec_fn(SyntaxKind) -> bool, tv: Seq<TokV>, i: int, j: int)
    requires
        0 <= i <= j <= tv.len(),
        forall|k: int| i <= k < j ==> p(tv[k].0),
        j < tv.len() ==> !p(tv[j].0),
    ensures
        scan_toks(p, tv, i) == j,
    decreases j - i,
{
    if i < j {
        lemma_scan_toks_determined(p, tv, i + 1, j);
    }
}

/// Keyword kinds are demoted to plain identifiers in the tree.
pub open spec fn demote_kind(k: SyntaxKind) -> SyntaxKind {
    if k == SyntaxKind::EXPORT || k == SyntaxKind::IMPORT {
        SyntaxKind::IDENTIFIER
    } else {
        k
    }
}

/// The token range `[a, b)` as the tree holds it: keywords demoted.
pub open spec fn demoted_range(tv: Seq<TokV>, a: int, b: int) -> Seq<TokV>
    recommends
        0 <= a <= b <= tv.len(),
{
    Seq::new((b - a) as nat, |k: int| (demote_kind(tv[a + k].0), tv[a + k].1))
}

/// Whether a token kind may stand before a line's operator or colon:
/// identifiers, the `export` keyword, and spacing.
pub open spec fn is_lead_kind(k: SyntaxKind) -> bool {
    k == SyntaxKind::IDENTIFIER || k == SyntaxKind::EXPORT || k == SyntaxKind::WHITESPACE
}

/// Where the assignment operator opening at token `i` ends: `=` alone,
/// `?=`/`+=`, or one to three colons followed by `=`; `None` when token `i`
/// opens no assignment operator.
pub open spec fn operator_end_spec(tv: Seq<TokV>, i: int) -> Option<int>
    recommends
        0 <= i < tv.len(),
{
    let k = tv[i].0;
    if k == SyntaxKind::EQUALS {
        Some(i + 1)
    } else if k == SyntaxKind::QUESTION || k == SyntaxKind::PLUS {
        if i + 1 < tv.len() && tv[i + 1].0 == SyntaxKind::EQUALS {
            Some(i + 2)
        } else {
            None
        }
    } else if k == SyntaxKind::COLON {
        let cc = scan_toks(|x: SyntaxKind| x == SyntaxKind::COLON, tv, i);
        if cc < tv.len() && cc <= i + 3 && tv[cc].0 == SyntaxKind::EQUALS {
            Some(cc + 1)
        } else {
            None
        }
    } else {
        None
    }
}

pub proof fn lemma_operator_end_bounds(tv: Seq<TokV>, i: int)
    requires
        0 <= i < tv.len(),
    ensures
        operator_end_spec(tv, i) matches Some(j) ==> i < j <= tv.len(),
{
    if tv[i].0 == SyntaxKind::COLON {
        lemma_scan_toks(|x: SyntaxKind| x == SyntaxKind::COLON, tv, i);
    }
}

/// Whether token `i` opens an assignment operator, and where it ends.
fn operator_end(toks: &Vec<Token>, i: usize) -> (r: Option<usize>)
    requires
        i < toks@.len(),
    ensures
        match r {
            Some(j) => operator_end_spec(token_views(toks@), i as int) == Some(j as int) && i < j
                <= toks@.len(),
            None => operator_end_spec(token_views(toks@), i as int) is None,
        },
{
    let ghost tv = token_views(toks@);
    let n = toks.len();
    let k = toks[i].0;
    proof {
        assert(tv[i as int].0 == toks@[i as int].0);
    }
    if k == SyntaxKind::EQUALS {
        return Some(i + 1);
    }
    if k == SyntaxKind::QUESTION || k == SyntaxKind::PLUS {
        if i + 1 < n && toks[i + 1].0 == SyntaxKind::EQUALS {
            proof {
                assert(tv[i as int + 1].0 == toks@[i as int + 1].0);
            }
            return Some(i + 2);
        }
        proof {
            if i as int + 1 < tv.len() {
                assert(tv[i as int + 1].0 == toks@[i as int + 1].0);
            }
        }
        return None;
    }
    if k == SyntaxKind::COLON {
        let mut cc = i;
        loop
            invariant
                i <= cc <= n,
                n == toks@.len(),
                tv == token_views(toks@),
                forall|m: int| i <= m < cc ==> tv[m].0 == SyntaxKind::COLON,
            ensures
                i <= cc <= n,
                forall|m: int| i <= m < cc ==> tv[m].0 == SyntaxKind::COLON,
                cc < n ==> tv[cc as int].0 != SyntaxKind::COLON,
            decreases n - cc,
        {
            if cc >= n {
                break ;
            }
            proof {
                assert(tv[cc as int].0 == toks@[cc as int].0);
            }
            if toks[cc].0 != SyntaxKind::COLON {
                break ;
            }
            cc = cc + 1;
        }
        proof {
            lemma_scan_toks_determined(
                |x: SyntaxKind| x == SyntaxKind::COLON,
                tv,
                i as int,
                cc as int,
            );
        }
        if cc < n && cc - i <= 3 && toks[cc].0 == SyntaxKind::EQUALS {
            proof {
                assert(tv[cc as int].0 == toks@[cc as int].0);
            }
            return Some(cc + 1);
        }
        proof {
            if (cc as int) < tv.len() {
                assert(tv[cc as int].0 == toks@[cc as int].0);
            }
        }
        return None;
    }
    None
}

fn concat_token_texts(toks: &Vec<Token>, a: usize, b: usize) -> (r: String)
    requires
        a <= b <= toks@.len(),
    ensures
        r@ == tokens_text(token_views(toks@).subrange(a as int, b as int)),
{
    let mut s = String::new();
    let mut i = a;
    proof {
        assert(token_views(toks@).subrange(a as int, a as int) =~= Seq::<TokV>::empty());
        assert(s@ =~= tokens_text(token_views(toks@).subrange(a as int, a as int)));
    }
    while i < b
        invariant
            a <= i <= b <= toks@.len(),
            s@ == tokens_text(token_views(toks@).subrange(a as int, i as int)),
        decreases b - i,
    {
        let ghost before = token_views(toks@).subrange(a as int, i as int);
        let ghost after = token_views(toks@).subrange(a as int, i as int + 1);
        s.append(toks[i].1.as_str());
        proof {
            assert(token_views(toks@)[i as int] == (toks@[i as int].0, toks@[i as int].1@));
            lemma_tokens_text_snoc(before, token_views(toks@)[i as int]);
            assert(after =~= before.push(token_views(toks@)[i as int]));
        }
        i = i + 1;
    }
    s
}

/// Appending one token appends its text.
proof fn lemma_tokens_text_snoc(toks: Seq<TokV>, t: TokV)
    ensures
        tokens_text(toks.push(t)) == tokens_text(toks) + t.1,
    decreases toks.len(),
{
    if toks.len() == 0 {
        assert(toks.push(t)[0] == t);
        assert(toks.push(t).skip(1) =~= Seq::<TokV>::empty());
        assert(tokens_text(Seq::<TokV>::empty()) =~= Seq::<char>::empty());
        assert(tokens_text(toks.push(t)) =~= t.1);
        assert(tokens_text(toks) + t.1 =~= t.1);
    } else {
        assert(toks.push(t)[0] == toks[0]);
        assert(toks.push(t).skip(1) =~= toks.skip(1).push(t));
        lemma_tokens_text_snoc(toks.skip(1), t);
        assert(toks[0].1 + (tokens_text(toks.skip(1)) + t.1) =~= (toks[0].1 + tokens_text(
            toks.skip(1),
        )) + t.1);
    }
}

/// Appending one item appends its text.
proof fn lemma_items_text_snoc(items: Seq<ItemV>, item: ItemV)
    ensures
        items_text(items.push(item)) == items_text(items) + item_text(item),
    decreases items.len(),
{
    if items.len() == 0 {
        assert(items.push(item)[0] == item);
        assert(items.push(item).skip(1) =~= Seq::<ItemV>::empty());
        assert(items_text(Seq::<ItemV>::empty()) =~= Seq::<char>::empty());
        assert(items_text(items.push(item)) =~= item_text(item));
        assert(items_text(items) + item_text(item) =~= item_text(item));
    } else {
        assert(items.push(item)[0] == items[0]);
        assert(items.push(item).skip(1) =~= items.skip(1).push(item));
        lemma_items_text_snoc(items.skip(1), item);
        assert(item_text(items[0]) + (items_text(items.skip(1)) + item_text(item)) =~= (item_text(
            items[0],
        ) + items_text(items.skip(1))) + item_text(item));
    }
}

/// Appending one rule part appends its text.
proof fn lemma_rule_parts_text_snoc(ps: Seq<RulePartV>, p: RulePartV)
    ensures
        rule_parts_text(ps.push(p)) == rule_parts_text(ps) + rule_part_text(p),
    decreases ps.len(),
{
    if ps.len() == 0 {
        assert(ps.push(p)[0] == p);
        assert(ps.push(p).skip(1) =~= Seq::<RulePartV>::empty());
        assert(rule_parts_text(Seq::<RulePartV>::empty()) =~= Seq::<char>::empty());
        assert(rule_parts_text(ps.push(p)) =~= rule_part_text(p));
        assert(rule_parts_text(ps) + rule_part_text(p) =~= rule_part_text(p));
    } else {
        assert(ps.push(p)[0] == ps[0]);
        assert(ps.push(p).skip(1) =~= ps.skip(1).push(p));
        lemma_rule_parts_text_snoc(ps.skip(1), p);
        assert(rule_part_text(ps[0]) + (rule_parts_text(ps.skip(1)) + rule_part_text(p)) =~= (
        rule_part_text(ps[0]) + rule_parts_text(ps.skip(1))) + rule_part_text(p));
    }
}

/// The texts of a token range, as the tree will hold them.
fn collect_tokens(toks: &Vec<Token>, a: usize, b: usize, demote: bool) -> (r: Vec<Token>)
    requires
        a <= b <= toks@.len(),
    ensures
        r@.len() == b - a,
        tokens_text(toks_view(r@)) == tokens_text(token_views(toks@).subrange(a as int, b as int)),
        toks_view(r@) == (if demote {
            demoted_range(token_views(toks@), a as int, b as int)
        } else {
            token_views(toks@).subrange(a as int, b as int)
        }),
    {
    let mut r: Vec<Token> = Vec::new();
    let mut i = a;
    proof {
        assert(toks_view(r@) =~= Seq::<TokV>::empty());
        assert(token_views(toks@).subrange(a as int, a as int) =~= Seq::<TokV>::empty());
    }
    while i < b
        invariant
            a <= i <= b <= toks@.len(),
            r@.len() == i - a,
            tokens_text(toks_view(r@)) == tokens_text(
                token_views(toks@).subrange(a as int, i as int),
            ),
            forall|k: int| 0 <= k < i - a ==> #[trigger] toks_view(r@)[k] == (if demote {
                demoted_range(token_views(toks@), a as int, b as int)[k]
            } else {
                token_views(toks@).subrange(a as int, b as int)[k]
            }),
        decreases b - i,
    {
        let ghost old_view = toks_view(r@);
        let kind0 = toks[i].0;
        let kind = if demote && (kind0 == SyntaxKind::EXPORT || kind0 == SyntaxKind::IMPORT) {
            SyntaxKind::IDENTIFIER
        } else {
            kind0
        };
        r.push((kind, toks[i].1.clone()));
        proof {
            let tv = (kind, toks@[i as int].1@);
            assert(toks_view(r@) =~= old_view.push(tv));
            lemma_tokens_text_snoc(old_view, tv);
            let sv = token_views(toks@)[i as int];
            lemma_tokens_text_snoc(
                token_views(toks@).subrange(a as int, i as int),
                sv,
            );
            assert(token_views(toks@).subrange(a as int, i as int + 1) =~= token_views(
                toks@,
            ).subrange(a as int, i as int).push(sv));
            assert(tv.1 == sv.1);
            assert(tv.0 == (if demote {
                demote_kind(sv.0)
            } else {
                sv.0
            }));
        }
        i = i + 1;
    }
    proof {
        if demote {
            assert(toks_view(r@) =~= demoted_range(token_views(toks@), a as int, b as int));
        } else {
            assert(toks_view(r@) =~= token_views(toks@).subrange(a as int, b as int));
        }
    }
    r
}

/// What follows a rule's prerequisite line: newlines stand as plain tokens,
/// indents open recipe parts running to their newline, anything else ends
/// the rule. Yields the parts and the position after them.
pub open spec fn rule_rest_spec(tv: Seq<TokV>, p: int) -> (Seq<RulePartV>, int)
    decreases tv.len() - p
    when 0 <= p <= tv.len()
    via rule_rest_spec_decreases
{
    if p >= tv.len() {
        (Seq::empty(), p)
    } else if tv[p].0 == SyntaxKind::NEWLINE {
        let r = rule_rest_spec(tv, p + 1);
        (seq![RulePartV::Plain((SyntaxKind::NEWLINE, tv[p].1))] + r.0, r.1)
    } else if tv[p].0 == SyntaxKind::INDENT {
        let q = scan_toks(|x: SyntaxKind| x != SyntaxKind::NEWLINE, tv, p + 1);
        let rend = if q < tv.len() {
            q + 1
        } else {
            q
        };
        let r = rule_rest_spec(tv, rend);
        (seq![RulePartV::Recipe(tv.subrange(p, rend))] + r.0, r.1)
    } else {
        (Seq::empty(), p)
    }
}

#[via_fn]
proof fn rule_rest_spec_decreases(tv: Seq<TokV>, p: int) {
    if p < tv.len() && tv[p].0 != SyntaxKind::NEWLINE && tv[p].0 == SyntaxKind::INDENT {
        lemma_scan_toks(|x: SyntaxKind| x != SyntaxKind::NEWLINE, tv, p + 1);
    }
}

pub proof fn lemma_rule_rest_bounds(tv: Seq<TokV>, p: int)
    requires
        0 <= p <= tv.len(),
    ensures
        p <= rule_rest_spec(tv, p).1 <= tv.len(),
    decreases tv.len() - p,
{
    if p >= tv.len() {
    } else if tv[p].0 == SyntaxKind::NEWLINE {
        lemma_rule_rest_bounds(tv, p + 1);
    } else if tv[p].0 == SyntaxKind::INDENT {
        lemma_scan_toks(|x: SyntaxKind| x != SyntaxKind::NEWLINE, tv, p + 1);
        let q = scan_toks(|x: SyntaxKind| x != SyntaxKind::NEWLINE, tv, p + 1);
        let rend = if q < tv.len() {
            q + 1
        } else {
            q
        };
        lemma_rule_rest_bounds(tv, rend);
    } else {
    }
}

/// One root item starting at token `pos`, and the position after it: a
/// variable line when an identifier run is followed by an assignment
/// operator, a rule when it is followed by a colon, and one loose token
/// otherwise.
pub open spec fn parse_item_spec(tv: Seq<TokV>, pos: int) -> (ItemV, int)
    recommends
        0 <= pos < tv.len(),
{
    let j = scan_toks(|x: SyntaxKind| is_lead_kind(x), tv, pos);
    let op = if j < tv.len() && j > pos {
        operator_end_spec(tv, j)
    } else {
        None
    };
    if j < tv.len() && j > pos && op is Some {
        let op_end = op.unwrap();
        let k2 = scan_toks(|x: SyntaxKind| x == SyntaxKind::WHITESPACE, tv, op_end);
        let e = scan_toks(|x: SyntaxKind| x != SyntaxKind::NEWLINE, tv, k2);
        let tail_end = if e < tv.len() {
            e + 1
        } else {
            e
        };
        let lead = demoted_range(tv, pos, j).push(
            (SyntaxKind::OPERATOR, tokens_text(tv.subrange(j, op_end))),
        ) + demoted_range(tv, op_end, k2);
        let expr = if e > k2 {
            Some(demoted_range(tv, k2, e))
        } else {
            None
        };
        (ItemV::Variable(VariableNodeV { lead, expr, tail: demoted_range(tv, e, tail_end) }),
        tail_end)
    } else if j < tv.len() && j > pos && tv[j].0 == SyntaxKind::COLON {
        let k2 = scan_toks(|x: SyntaxKind| x == SyntaxKind::WHITESPACE, tv, j + 1);
        let e = scan_toks(|x: SyntaxKind| x != SyntaxKind::NEWLINE, tv, k2);
        let lead = demoted_range(tv, pos, j).push((SyntaxKind::OPERATOR, tv[j].1))
            + demoted_range(tv, j + 1, k2);
        let expr = if e > k2 {
            Some(demoted_range(tv, k2, e))
        } else {
            None
        };
        let rest = rule_rest_spec(tv, e);
        (ItemV::RuleItem(RuleNodeV { lead, expr, rest: rest.0 }), rest.1)
    } else {
        (ItemV::Loose((demote_kind(tv[pos].0), tv[pos].1)), pos + 1)
    }
}

pub proof fn lemma_parse_item_bounds(tv: Seq<TokV>, pos: int)
    requires
        0 <= pos < tv.len(),
    ensures
        pos < parse_item_spec(tv, pos).1 <= tv.len(),
{
    let j = scan_toks(|x: SyntaxKind| is_lead_kind(x), tv, pos);
    lemma_scan_toks(|x: SyntaxKind| is_lead_kind(x), tv, pos);
    if j < tv.len() && j > pos && (operator_end_spec(tv, j) is Some) {
        lemma_operator_end_bounds(tv, j);
        let op_end = operator_end_spec(tv, j).unwrap();
        lemma_scan_toks(|x: SyntaxKind| x == SyntaxKind::WHITESPACE, tv, op_end);
        let k2 = scan_toks(|x: SyntaxKind| x == SyntaxKind::WHITESPACE, tv, op_end);
        lemma_scan_toks(|x: SyntaxKind| x != SyntaxKind::NEWLINE, tv, k2);
    } else if j < tv.len() && j > pos && tv[j].0 == SyntaxKind::COLON {
        lemma_scan_toks(|x: SyntaxKind| x == SyntaxKind::WHITESPACE, tv, j + 1);
        let k2 = scan_toks(|x: SyntaxKind| x == SyntaxKind::WHITESPACE, tv, j + 1);
        lemma_scan_toks(|x: SyntaxKind| x != SyntaxKind::NEWLINE, tv, k2);
        let e = scan_toks(|x: SyntaxKind| x != SyntaxKind::NEWLINE, tv, k2);
        lemma_rule_rest_bounds(tv, e);
    } else {
    }
}

/// The whole document's items from token `pos` on.
pub open spec fn parse_items_spec(tv: Seq<TokV>, pos: int) -> Seq<ItemV>
    decreases tv.len() - pos
    when 0 <= pos <= tv.len()
    via parse_items_spec_decreases
{
    if pos >= tv.len() {
        Seq::empty()
    } else {
        let it = parse_item_spec(tv, pos);
        seq![it.0] + parse_items_spec(tv, it.1)
    }
}

#[via_fn]
proof fn parse_items_spec_decreases(tv: Seq<TokV>, pos: int) {
    if pos < tv.len() {
        lemma_parse_item_bounds(tv, pos);
    }
}

/// Parses `source` into its document tree.
///
/// The tree is lossless: concatenating the texts of its items in order
/// reproduces `source` exactly. An empty document yields one diagnostic;
/// lines the structural grammar does not cover stay in the tree as loose
/// tokens rather than failing the parse.
#[verifier::rlimit(100)]
pub fn parse(source: &str) -> (r: Parsed)
    ensures
        items_text(r.root@) == source@,
        r.root@ == parse_items_spec(lex_spec(source@), 0),
        r.errors.deep_view() == (if source@.len() == 0 {
            seq![msg_empty_parse()]
        } else {
            Seq::<Seq<char>>::empty()
        }),
{
    let toks = lex(source);
    let ghost tv = token_views(toks@);
    proof {
        crate::parser::lex::lemma_lex_round_trip(source@);
    }
    let mut errors: Vec<String> = Vec::new();
    if toks.len() == 0 {
        errors.push(String::from_str("unexpected token None"));
        proof {
            assert(errors.deep_view() =~= seq![msg_empty_parse()]);
    assert(source@.len() == 0) by {
                assert(tv =~= Seq::<TokV>::empty());
                assert(tokens_text(tv) =~= Seq::<char>::empty());
            }
        }
        let root = Makefile { items: Vec::new() };
        proof {
            assert(root@ =~= Seq::<ItemV>::empty());
            assert(items_text(root@) =~= source@);
            assert(parse_items_spec(tv, 0) =~= Seq::<ItemV>::empty());
        }
        return Parsed { root, errors };
    }
    proof {
        assert(tv.len() > 0);
        assert(tokens_text(tv).len() > 0) by {
            assert(tokens_text(tv) == source@);
            if source@.len() == 0 {
                lemma_lex_of_empty(source@);
            }
        }
        assert(source@.len() > 0);
        assert(errors.deep_view() =~= Seq::<Seq<char>>::empty());
    }
    let n = toks.len();
    let mut items: Vec<Item> = Vec::new();
    let mut pos: usize = 0;
    proof {
        assert(mkview(items@) =~= Seq::<ItemV>::empty());
        assert(items_text(Seq::<ItemV>::empty()) =~= Seq::<char>::empty());
        assert(tv.skip(0) =~= tv);
        assert(items_text(mkview(items@)) + tokens_text(tv.skip(0)) =~= tokens_text(tv));
    }
    proof {
        assert(parse_items_spec(tv, 0) =~= mkview(items@) + parse_items_spec(tv, 0));
    }
    while pos < n
        invariant
            pos <= n,
            n == toks@.len(),
            tv == token_views(toks@),
            tokens_text(tv) == source@,
            items_text(mkview(items@)) + tokens_text(tv.skip(pos as int)) == source@,
            parse_items_spec(tv, 0) == mkview(items@) + parse_items_spec(tv, pos as int),
        decreases n - pos,
    {
        let ghost old_items = mkview(items@);
        // How far the identifier/whitespace prefix of the line reaches.
        let mut j = pos;
        while j < n && (toks[j].0 == SyntaxKind::IDENTIFIER || toks[j].0 == SyntaxKind::EXPORT
            || toks[j].0 == SyntaxKind::WHITESPACE)
            invariant
                pos <= j <= n,
                n == toks@.len(),
                tv == token_views(toks@),
                forall|m: int| pos <= m < j ==> is_lead_kind((#[trigger] tv[m]).0),
            decreases n - j,
        {
            proof {
                assert(tv[j as int].0 == toks@[j as int].0);
            }
            j = j + 1;
        }
        proof {
            if (j as int) < tv.len() {
                assert(tv[j as int].0 == toks@[j as int].0);
            }
            lemma_scan_toks_determined(
                |x: SyntaxKind| is_lead_kind(x),
                tv,
                pos as int,
                j as int,
            );
        }
        let ghost spec_it = parse_item_spec(tv, pos as int);
        let mut item_end: usize;
        let item: Item;
        let op: Option<usize> = if j < n && j > pos {
            operator_end(&toks, j)
        } else {
            None
        };
        if j < n && j > pos && op.is_some() {
            // A variable line: lead up to and including the operator and
            // following spacing, an optional value expression, the newline.
            let op_end = op.unwrap();
            let mut lead = collect_tokens(&toks, pos, j, true);
            let op_text = concat_token_texts(&toks, j, op_end);
            let ghost lead_before_op = toks_view(lead@);
            lead.push((SyntaxKind::OPERATOR, op_text));
            proof {
                lemma_tokens_text_snoc(
                    lead_before_op,
                    (SyntaxKind::OPERATOR, op_text@),
                );
                assert(toks_view(lead@) =~= lead_before_op.push(
                    (SyntaxKind::OPERATOR, op_text@),
                ));
            }
            let mut k = op_end;
            while k < n && toks[k].0 == SyntaxKind::WHITESPACE
                invariant
                    op_end <= k <= n,
                    n == toks@.len(),
                    tv == token_views(toks@),
                    forall|m: int| op_end <= m < k ==> (#[trigger] tv[m]).0 == SyntaxKind::WHITESPACE,
                decreases n - k,
            {
                proof {
                    assert(tv[k as int].0 == toks@[k as int].0);
                }
                k = k + 1;
            }
            proof {
                if (k as int) < tv.len() {
                    assert(tv[k as int].0 == toks@[k as int].0);
                }
                lemma_scan_toks_determined(
                    |x: SyntaxKind| x == SyntaxKind::WHITESPACE,
                    tv,
                    op_end as int,
                    k as int,
                );
            }
            let mut lead2 = collect_tokens(&toks, op_end, k, true);
            let ghost lead_with_op = toks_view(lead@);
            let ghost lead2v = toks_view(lead2@);
            lead.append(&mut lead2);
            proof {
                assert(toks_view(lead@) =~= lead_with_op + lead2v);
                lemma_tokens_text_concat(lead_with_op, lead2v);
            }
            // value expression: tokens up to the newline
            let mut e = k;
            while e < n && toks[e].0 != SyntaxKind::NEWLINE
                invariant
                    k <= e <= n,
                    n == toks@.len(),
                    tv == token_views(toks@),
                    forall|m: int| k <= m < e ==> (#[trigger] tv[m]).0 != SyntaxKind::NEWLINE,
                decreases n - e,
            {
                proof {
                    assert(tv[e as int].0 == toks@[e as int].0);
                }
                e = e + 1;
            }
            proof {
                if (e as int) < tv.len() {
                    assert(tv[e as int].0 == toks@[e as int].0);
                }
                lemma_scan_toks_determined(
                    |x: SyntaxKind| x != SyntaxKind::NEWLINE,
                    tv,
                    k as int,
                    e as int,
                );
            }
            let expr: Option<Vec<Token>> = if e > k {
                Some(collect_tokens(&toks, k, e, true))
            } else {
                None
            };
            let tail_end = if e < n {
                e + 1
            } else {
                e
            };
            let tail = collect_tokens(&toks, e, tail_end, true);
            item_end = tail_end;
            item = Item::Variable(VariableNode { lead, expr, tail });
            proof {
                lemma_tokens_text_split(tv, pos as int, j as int, op_end as int);
                lemma_tokens_text_split(tv, pos as int, op_end as int, k as int);
                lemma_tokens_text_split(tv, pos as int, k as int, e as int);
                lemma_tokens_text_split(tv, pos as int, e as int, item_end as int);
                assert(item_text(item@) =~= tokens_text(
                    tv.subrange(pos as int, item_end as int),
                ));
                assert(item@ == spec_it.0 && item_end as int == spec_it.1) by {
                    assert(toks_view(lead@) =~= demoted_range(tv, pos as int, j as int).push(
                        (SyntaxKind::OPERATOR, tokens_text(tv.subrange(j as int, op_end as int))),
                    ) + demoted_range(tv, op_end as int, k as int));
                }
            }
        } else if j < n && j > pos && toks[j].0 == SyntaxKind::COLON {
            // A rule line: targets, the `:` operator, spacing, an optional
            // prerequisite expression, the newline, recipe lines and blank
            // lines.
            let mut lead = collect_tokens(&toks, pos, j, true);
            let ghost lead0 = toks_view(lead@);
            lead.push((SyntaxKind::OPERATOR, toks[j].1.clone()));
            proof {
                lemma_tokens_text_snoc(lead0, (SyntaxKind::OPERATOR, toks@[j as int].1@));
                assert(toks_view(lead@) =~= lead0.push(
                    (SyntaxKind::OPERATOR, toks@[j as int].1@),
                ));
            }
            let mut k = j + 1;
            while k < n && toks[k].0 == SyntaxKind::WHITESPACE
                invariant
                    j + 1 <= k <= n,
                    n == toks@.len(),
                    tv == token_views(toks@),
                    forall|m: int| j + 1 <= m < k ==> (#[trigger] tv[m]).0 == SyntaxKind::WHITESPACE,
                decreases n - k,
            {
                proof {
                    assert(tv[k as int].0 == toks@[k as int].0);
                }
                k = k + 1;
            }
            proof {
                if (k as int) < tv.len() {
                    assert(tv[k as int].0 == toks@[k as int].0);
                }
                lemma_scan_toks_determined(
                    |x: SyntaxKind| x == SyntaxKind::WHITESPACE,
                    tv,
                    j as int + 1,
                    k as int,
                );
            }
            let mut lead2 = collect_tokens(&toks, j + 1, k, true);
            let ghost lead_with_op = toks_view(lead@);
            let ghost lead2v = toks_view(lead2@);
            lead.append(&mut lead2);
            proof {
                assert(toks_view(lead@) =~= lead_with_op + lead2v);
                lemma_tokens_text_concat(lead_with_op, lead2v);
            }
            let mut e = k;
            while e < n && toks[e].0 != SyntaxKind::NEWLINE
                invariant
                    k <= e <= n,
                    n == toks@.len(),
                    tv == token_views(toks@),
                    forall|m: int| k <= m < e ==> (#[trigger] tv[m]).0 != SyntaxKind::NEWLINE,
                decreases n - e,
            {
                proof {
                    assert(tv[e as int].0 == toks@[e as int].0);
                }
                e = e + 1;
            }
            proof {
                if (e as int) < tv.len() {
                    assert(tv[e as int].0 == toks@[e as int].0);
                }
                lemma_scan_toks_determined(
                    |x: SyntaxKind| x != SyntaxKind::NEWLINE,
                    tv,
                    k as int,
                    e as int,
                );
            }
            let expr: Option<Vec<Token>> = if e > k {
                Some(collect_tokens(&toks, k, e, true))
            } else {
                None
            };
            // the newline after the prerequisites, recipe lines, blanks
            let mut rest: Vec<RulePart> = Vec::new();
            let mut p = e;
            proof {
                assert(rule_parts_view(rest@) =~= Seq::<RulePartV>::empty());
                assert(rule_parts_text(rule_parts_view(rest@)) =~= Seq::<char>::empty());
                assert(rule_rest_spec(tv, e as int).0 =~= rule_parts_view(rest@) + rule_rest_spec(
                    tv,
                    e as int,
                ).0);
            }
            while p < n && (toks[p].0 == SyntaxKind::NEWLINE || toks[p].0 == SyntaxKind::INDENT)
                invariant
                    e <= p <= n,
                    n == toks@.len(),
                    tv == token_views(toks@),
                    rule_parts_text(rule_parts_view(rest@)) == tokens_text(
                        tv.subrange(e as int, p as int),
                    ),
                    rule_rest_spec(tv, e as int).0 == rule_parts_view(rest@) + rule_rest_spec(
                        tv,
                        p as int,
                    ).0,
                    rule_rest_spec(tv, e as int).1 == rule_rest_spec(tv, p as int).1,
                decreases n - p,
            {
                let ghost rest0 = rule_parts_view(rest@);
                proof {
                    assert(tv[p as int].0 == toks@[p as int].0);
                }
                if toks[p].0 == SyntaxKind::NEWLINE {
                    let part = RulePart::Plain((SyntaxKind::NEWLINE, toks[p].1.clone()));
                    let ghost pv = part@;
                    rest.push(part);
                    proof {
                        assert(rule_parts_view(rest@) =~= rest0.push(pv));
                        lemma_rule_parts_text_snoc(rest0, pv);
                        lemma_tokens_text_split(tv, e as int, p as int, p as int + 1);
                        lemma_tokens_text_single(tv, p as int);
                        assert(pv == RulePartV::Plain((SyntaxKind::NEWLINE, tv[p as int].1)));
                        assert(rule_rest_spec(tv, p as int).0 =~= seq![pv] + rule_rest_spec(
                            tv,
                            p as int + 1,
                        ).0);
                        assert(rest0.push(pv) + rule_rest_spec(tv, p as int + 1).0 =~= rest0 + (
                        seq![pv] + rule_rest_spec(tv, p as int + 1).0));
                    }
                    p = p + 1;
                } else {
                    // an indent, then raw text and the newline if present
                    let mut q = p + 1;
                    while q < n && toks[q].0 != SyntaxKind::NEWLINE
                        invariant
                            p < q <= n,
                            n == toks@.len(),
                            tv == token_views(toks@),
                            forall|m: int| p + 1 <= m < q ==> (#[trigger] tv[m]).0
                                != SyntaxKind::NEWLINE,
                        decreases n - q,
                    {
                        proof {
                            assert(tv[q as int].0 == toks@[q as int].0);
                        }
                        q = q + 1;
                    }
                    proof {
                        if (q as int) < tv.len() {
                            assert(tv[q as int].0 == toks@[q as int].0);
                        }
                        lemma_scan_toks_determined(
                            |x: SyntaxKind| x != SyntaxKind::NEWLINE,
                            tv,
                            p as int + 1,
                            q as int,
                        );
                    }
                    let rend = if q < n {
                        q + 1
                    } else {
                        q
                    };
                    let part = RulePart::Recipe(collect_tokens(&toks, p, rend, false));
                    let ghost pv = part@;
                    rest.push(part);
                    proof {
                        assert(rule_parts_view(rest@) =~= rest0.push(pv));
                        lemma_rule_parts_text_snoc(rest0, pv);
                        lemma_tokens_text_split(tv, e as int, p as int, rend as int);
                        assert(pv == RulePartV::Recipe(tv.subrange(p as int, rend as int)));
                        assert(rule_rest_spec(tv, p as int).0 =~= seq![pv] + rule_rest_spec(
                            tv,
                            rend as int,
                        ).0);
                        assert(rest0.push(pv) + rule_rest_spec(tv, rend as int).0 =~= rest0 + (
                        seq![pv] + rule_rest_spec(tv, rend as int).0));
                    }
                    p = rend;
                }
            }
            proof {
                if (p as int) < tv.len() {
                    assert(tv[p as int].0 == toks@[p as int].0);
                }
                assert(rule_rest_spec(tv, p as int).0 =~= Seq::<RulePartV>::empty());
                assert(rule_rest_spec(tv, p as int).1 == p as int);
                assert(rule_parts_view(rest@) + rule_rest_spec(tv, p as int).0 =~= rule_parts_view(
                    rest@,
                ));
            }
            item_end = p;
            item = Item::RuleItem(RuleNode { lead, expr, rest });
            proof {
                lemma_tokens_text_split(tv, pos as int, j as int, j as int + 1);
                lemma_tokens_text_split(tv, pos as int, j as int + 1, k as int);
                lemma_tokens_text_split(tv, pos as int, k as int, e as int);
                lemma_tokens_text_split(tv, pos as int, e as int, item_end as int);
                lemma_tokens_text_single(tv, j as int);
                assert(item_text(item@) =~= tokens_text(
                    tv.subrange(pos as int, item_end as int),
                ));
                assert(item@ == spec_it.0 && item_end as int == spec_it.1) by {
                    assert(toks_view(lead@) =~= demoted_range(tv, pos as int, j as int).push(
                        (SyntaxKind::OPERATOR, tv[j as int].1),
                    ) + demoted_range(tv, j as int + 1, k as int));
                }
            }
        } else {
            // A loose token.
            let kind0 = toks[pos].0;
            let kind = if kind0 == SyntaxKind::EXPORT || kind0 == SyntaxKind::IMPORT {
                SyntaxKind::IDENTIFIER
            } else {
                kind0
            };
            item = Item::Loose((kind, toks[pos].1.clone()));
            item_end = pos + 1;
            proof {
                lemma_tokens_text_split(tv, pos as int, pos as int, item_end as int);
                lemma_tokens_text_single(tv, pos as int);
                assert(item_text(item@) =~= tokens_text(
                    tv.subrange(pos as int, item_end as int),
                ));
                assert(tv[pos as int].0 == toks@[pos as int].0);
                assert(item@ == spec_it.0 && item_end as int == spec_it.1);
            }
        }
        let ghost iv = item@;
        items.push(item);
        proof {
            assert(mkview(items@) =~= old_items.push(iv));
            lemma_items_text_snoc(old_items, iv);
            assert(parse_items_spec(tv, pos as int) =~= seq![iv] + parse_items_spec(
                tv,
                item_end as int,
            ));
            assert(old_items.push(iv) + parse_items_spec(tv, item_end as int) =~= old_items + (
            seq![iv] + parse_items_spec(tv, item_end as int)));
            assert(tv.skip(pos as int) =~= tv.subrange(pos as int, item_end as int) + tv.skip(
                item_end as int,
            ));
            lemma_tokens_text_concat_seq(
                tv.subrange(pos as int, item_end as int),
                tv.skip(item_end as int),
            );
            assert((items_text(old_items) + item_text(iv)) + tokens_text(tv.skip(item_end as int))
                =~= items_text(old_items) + (item_text(iv) + tokens_text(
                tv.skip(item_end as int),
            )));
        }
        pos = item_end;
    }
    proof {
        assert(tokens_text(tv.skip(pos as int)) =~= Seq::<char>::empty());
        assert(items_text(mkview(items@)) + tokens_text(tv.skip(pos as int)) =~= items_text(
            mkview(items@),
        ));
        assert(parse_items_spec(tv, pos as int) =~= Seq::<ItemV>::empty());
        assert(mkview(items@) + parse_items_spec(tv, pos as int) =~= mkview(items@));
    }
    let root = Makefile { items };
    proof {
        assert(root@ =~= mkview(root.items@));
    }
    Parsed { root, errors }
}

/// The view of an item vector.
pub open spec fn mkview(items: Seq<Item>) -> Seq<ItemV> {
    Seq::new(items.len(), |i: int| items[i]@)
}

/// The view of a rule-part vector.
pub open spec fn rule_parts_view(ps: Seq<RulePart>) -> Seq<RulePartV> {
    Seq::new(ps.len(), |i: int| ps[i]@)
}

/// The empty text lexes to no tokens.
proof fn lemma_lex_of_empty(s: Seq<char>)
    requires
        s.len() == 0,
    ensures
        lex_spec(s).len() == 0,
{
}

/// Concatenating token groups concatenates their texts.
proof fn lemma_tokens_text_concat(a: Seq<TokV>, b: Seq<TokV>)
    ensures
        tokens_text(a + b) == tokens_text(a) + tokens_text(b),
    decreases a.len(),
{
    lemma_tokens_text_concat_seq(a, b);
}

proof fn lemma_tokens_text_concat_seq(a: Seq<TokV>, b: Seq<TokV>)
    ensures
        tokens_text(a + b) == tokens_text(a) + tokens_text(b),
    decreases a.len(),
{
    if a.len() == 0 {
        assert(a + b =~= b);
        assert(tokens_text(a) + tokens_text(b) =~= tokens_text(b));
    } else {
        assert((a + b)[0] == a[0]);
        assert((a + b).skip(1) =~= a.skip(1) + b);
        lemma_tokens_text_concat_seq(a.skip(1), b);
        assert(a[0].1 + (tokens_text(a.skip(1)) + tokens_text(b)) =~= (a[0].1 + tokens_text(
            a.skip(1),
        )) + tokens_text(b));
    }
}

/// A single token's range text is its text.
proof fn lemma_tokens_text_single(tv: Seq<TokV>, p: int)
    requires
        0 <= p < tv.len(),
    ensures
        tokens_text(tv.subrange(p, p + 1)) == tv[p].1,
{
    let s = tv.subrange(p, p + 1);
    assert(s[0] == tv[p]);
    assert(s.skip(1) =~= Seq::<TokV>::empty());
    assert(tokens_text(Seq::<TokV>::empty()) =~= Seq::<char>::empty());
    assert(tokens_text(s) =~= tv[p].1);
}

/// A token range's text splits at any midpoint.
proof fn lemma_tokens_text_split(tv: Seq<TokV>, a: int, m: int, b: int)
    requires
        0 <= a <= m <= b <= tv.len(),
    ensures
        tokens_text(tv.subrange(a, b)) == tokens_text(tv.subrange(a, m)) + tokens_text(
            tv.subrange(m, b),
        ),
{
    assert(tv.subrange(a, b) =~= tv.subrange(a, m) + tv.subrange(m, b));
    lemma_tokens_text_concat_seq(tv.subrange(a, m), tv.subrange(m, b));
}

// --- reading ---------------------------------------------------------------

/// The texts of the `IDENTIFIER` tokens among `toks`, in order.
pub open spec fn ident_texts(toks: Seq<TokV>) -> Seq<Seq<char>>
    decreases toks.len(),
{
    if toks.len() == 0 {
        Seq::empty()
    } else if toks[0].0 == SyntaxKind::IDENTIFIER {
        seq![toks[0].1] + ident_texts(toks.skip(1))
    } else {
        ident_texts(toks.skip(1))
    }
}

/// The identifier texts of an optional token group.
pub open spec fn opt_ident_texts(e: Option<Seq<TokV>>) -> Seq<Seq<char>> {
    match e {
        Some(toks) => ident_texts(toks),
        None => Seq::empty(),
    }
}

/// The command text of each recipe line among the rule's parts: the texts
/// of the `TEXT` tokens of each `Recipe` part, concatenated per part.
pub open spec fn recipe_texts(ps: Seq<RulePartV>) -> Seq<Seq<char>>
    decreases ps.len(),
{
    if ps.len() == 0 {
        Seq::empty()
    } else {
        match ps[0] {
            RulePartV::Recipe(toks) => seq![text_tokens_text(toks)] + recipe_texts(ps.skip(1)),
            RulePartV::Plain(_) => recipe_texts(ps.skip(1)),
        }
    }
}

/// The concatenated texts of the `TEXT` tokens among `toks`.
pub open spec fn text_tokens_text(toks: Seq<TokV>) -> Seq<char>
    decreases toks.len(),
{
    if toks.len() == 0 {
        Seq::empty()
    } else if toks[0].0 == SyntaxKind::TEXT {
        toks[0].1 + text_tokens_text(toks.skip(1))
    } else {
        text_tokens_text(toks.skip(1))
    }
}

/// The rule nodes of a document, in order.
pub open spec fn rule_nodes(items: Seq<ItemV>) -> Seq<RuleNodeV>
    decreases items.len(),
{
    if items.len() == 0 {
        Seq::empty()
    } else {
        match items[0] {
            ItemV::RuleItem(r) => seq![r] + rule_nodes(items.skip(1)),
            _ => rule_nodes(items.skip(1)),
        }
    }
}

/// The variable nodes of a document, in order.
pub open spec fn variable_nodes(items: Seq<ItemV>) -> Seq<VariableNodeV>
    decreases items.len(),
{
    if items.len() == 0 {
        Seq::empty()
    } else {
        match items[0] {
            ItemV::Variable(v) => seq![v] + variable_nodes(items.skip(1)),
            _ => variable_nodes(items.skip(1)),
        }
    }
}

/// A variable's name: the last identifier before its operator.
pub open spec fn var_name(v: VariableNodeV) -> Option<Seq<char>> {
    if ident_texts(v.lead).len() > 0 {
        Some(ident_texts(v.lead).last())
    } else {
        None
    }
}

/// A variable's raw (unexpanded) value text.
pub open spec fn var_raw_value(v: VariableNodeV) -> Option<Seq<char>> {
    match v.expr {
        Some(toks) => Some(tokens_text(toks)),
        None => None,
    }
}

/// A read view of one parsed rule: its target names, prerequisite names and
/// recipe command lines.
#[derive(Debug, PartialEq, Eq)]
pub struct Rule {
    pub targets: Vec<String>,
    pub prerequisites: Vec<String>,
    pub recipes: Vec<String>,
}

impl Rule {
    /// The rule's target names.
    pub fn targets(&self) -> (r: &Vec<String>)
        ensures
            r.deep_view() == self.targets.deep_view(),
    {
        &self.targets
    }

    /// The rule's prerequisite names.
    pub fn prerequisites(&self) -> (r: &Vec<String>)
        ensures
            r.deep_view() == self.prerequisites.deep_view(),
    {
        &self.prerequisites
    }

    /// The rule's recipe command lines.
    pub fn recipes(&self) -> (r: &Vec<String>)
        ensures
            r.deep_view() == self.recipes.deep_view(),
    {
        &self.recipes
    }

    /// Whether the read view matches a rule node.
    pub open spec fn matches_node(&self, rn: RuleNodeV) -> bool {
        &&& self.targets.deep_view() == ident_texts(rn.lead)
        &&& self.prerequisites.deep_view() == opt_ident_texts(rn.expr)
        &&& self.recipes.deep_view() == recipe_texts(rn.rest)
    }
}

/// A read view of one variable definition: its name and raw value.
#[derive(Debug, PartialEq, Eq)]
pub struct VariableDefinition {
    pub name: Option<String>,
    pub raw_value: Option<String>,
}

impl VariableDefinition {
    /// The variable's name.
    pub fn name(&self) -> (r: Option<String>)
        ensures
            opt_view(r) == opt_view_ref(&self.name),
    {
        match &self.name {
            Some(s) => Some(s.clone()),
            None => None,
        }
    }

    /// The variable's raw (unexpanded) value text.
    pub fn raw_value(&self) -> (r: Option<String>)
        ensures
            opt_view(r) == opt_view_ref(&self.raw_value),
    {
        match &self.raw_value {
            Some(s) => Some(s.clone()),
            None => None,
        }
    }

    /// Whether the read view matches a variable node.
    pub open spec fn matches_node(&self, vn: VariableNodeV) -> bool {
        &&& opt_view_ref(&self.name) == var_name(vn)
        &&& opt_view_ref(&self.raw_value) == var_raw_value(vn)
    }
}

/// The view of an optional string.
pub open spec fn opt_view(o: Option<String>) -> Option<Seq<char>> {
    match o {
        Some(s) => Some(s@),
        None => None,
    }
}

/// The view of an optional string, by reference.
pub open spec fn opt_view_ref(o: &Option<String>) -> Option<Seq<char>> {
    match o {
        Some(s) => Some(s@),
        None => None,
    }
}

fn idents_of(toks: &Vec<Token>) -> (r: Vec<String>)
    ensures
        r.deep_view() == ident_texts(toks_view(toks@)),
{
    let ghost tv = toks_view(toks@);
    let mut r: Vec<String> = Vec::new();
    let n = toks.len();
    let mut i: usize = 0;
    proof {
        assert(r.deep_view() =~= Seq::<Seq<char>>::empty());
        assert(ident_texts(tv) == ident_texts_from(tv, 0)) by {
            lemma_ident_texts_from(tv, 0);
            assert(tv.skip(0) =~= tv);
        }
        assert(r.deep_view() + ident_texts_from(tv, 0) =~= ident_texts(tv));
    }
    while i < n
        invariant
            i <= n,
            n == toks@.len(),
            tv == toks_view(toks@),
            ident_texts(tv) == r.deep_view() + ident_texts_from(tv, i as int),
        decreases n - i,
    {
        proof {
            lemma_ident_texts_from(tv, i as int);
            assert(tv[i as int] == (toks@[i as int].0, toks@[i as int].1@));
        }
        let ghost before = r.deep_view();
        if toks[i].0 == SyntaxKind::IDENTIFIER {
            r.push(toks[i].1.clone());
            proof {
                assert(r.deep_view() =~= before.push(tv[i as int].1));
                assert(before + (seq![tv[i as int].1] + ident_texts_from(tv, i as int + 1)) =~= (
                before.push(tv[i as int].1)) + ident_texts_from(tv, i as int + 1));
            }
        }
        i = i + 1;
    }
    proof {
        lemma_ident_texts_from(tv, n as int);
        assert(r.deep_view() + ident_texts_from(tv, n as int) =~= r.deep_view());
    }
    r
}

/// Identifier texts of the suffix from `i`.
pub open spec fn ident_texts_from(toks: Seq<TokV>, i: int) -> Seq<Seq<char>>
    decreases toks.len() - i
    when 0 <= i <= toks.len()
{
    if i >= toks.len() {
        Seq::empty()
    } else if toks[i].0 == SyntaxKind::IDENTIFIER {
        seq![toks[i].1] + ident_texts_from(toks, i + 1)
    } else {
        ident_texts_from(toks, i + 1)
    }
}

proof fn lemma_ident_texts_from(toks: Seq<TokV>, i: int)
    requires
        0 <= i <= toks.len(),
    ensures
        ident_texts_from(toks, i) == ident_texts(toks.skip(i)),
    decreases toks.len() - i,
{
    if i >= toks.len() {
        assert(toks.skip(i) =~= Seq::<TokV>::empty());
    } else {
        lemma_ident_texts_from(toks, i + 1);
        assert(toks.skip(i)[0] == toks[i]);
        assert(toks.skip(i).skip(1) =~= toks.skip(i + 1));
    }
}

fn text_of_text_tokens(toks: &Vec<Token>) -> (r: String)
    ensures
        r@ == text_tokens_text(toks_view(toks@)),
{
    let ghost tv = toks_view(toks@);
    let mut s = String::new();
    let n = toks.len();
    let mut i: usize = 0;
    proof {
        lemma_text_tokens_from(tv, 0);
        assert(tv.skip(0) =~= tv);
        assert(s@ + text_tokens_from(tv, 0) =~= text_tokens_text(tv));
    }
    while i < n
        invariant
            i <= n,
            n == toks@.len(),
            tv == toks_view(toks@),
            text_tokens_text(tv) == s@ + text_tokens_from(tv, i as int),
        decreases n - i,
    {
        proof {
            assert(tv[i as int] == (toks@[i as int].0, toks@[i as int].1@));
        }
        let ghost before = s@;
        if toks[i].0 == SyntaxKind::TEXT {
            s.append(toks[i].1.as_str());
            proof {
                assert(before + (tv[i as int].1 + text_tokens_from(tv, i as int + 1)) =~= s@
                    + text_tokens_from(tv, i as int + 1));
            }
        }
        i = i + 1;
    }
    proof {
        assert(s@ + text_tokens_from(tv, n as int) =~= s@);
    }
    s
}

/// Text-token texts of the suffix from `i`.
pub open spec fn text_tokens_from(toks: Seq<TokV>, i: int) -> Seq<char>
    decreases toks.len() - i
    when 0 <= i <= toks.len()
{
    if i >= toks.len() {
        Seq::empty()
    } else if toks[i].0 == SyntaxKind::TEXT {
        toks[i].1 + text_tokens_from(toks, i + 1)
    } else {
        text_tokens_from(toks, i + 1)
    }
}

proof fn lemma_text_tokens_from(toks: Seq<TokV>, i: int)
    requires
        0 <= i <= toks.len(),
    ensures
        text_tokens_from(toks, i) == text_tokens_text(toks.skip(i)),
    decreases toks.len() - i,
{
    if i >= toks.len() {
        assert(toks.skip(i) =~= Seq::<TokV>::empty());
    } else {
        lemma_text_tokens_from(toks, i + 1);
        assert(toks.skip(i)[0] == toks[i]);
        assert(toks.skip(i).skip(1) =~= toks.skip(i + 1));
    }
}

impl Makefile {
    /// An empty document.
    pub fn new() -> (r: Makefile)
        ensures
            r@ == Seq::<ItemV>::empty(),
    {
        let r = Makefile { items: Vec::new() };
        proof {
            assert(r@ =~= Seq::<ItemV>::empty());
        }
        r
    }

    /// The read views of the document's rules, in order.
    pub fn rules(&self) -> (r: Vec<Rule>)
        ensures
            r@.len() == rule_nodes(self@).len(),
            forall|k: int| 0 <= k < r@.len() ==> (#[trigger] r@[k]).matches_node(
                rule_nodes(self@)[k],
            ),
    {
        let ghost iv = self@;
        let mut r: Vec<Rule> = Vec::new();
        let n = self.items.len();
        let mut i: usize = 0;
        proof {
            lemma_rule_nodes_from(iv, 0);
            assert(iv.skip(0) =~= iv);
        }
        while i < n
            invariant
                i <= n,
                n == self.items@.len(),
                iv == self@,
                rule_nodes(iv).len() == r@.len() + rule_nodes_from(iv, i as int).len(),
                forall|k: int| 0 <= k < r@.len() ==> (#[trigger] r@[k]).matches_node(
                    rule_nodes(iv)[k],
                ),
                forall|k: int| 0 <= k < rule_nodes_from(iv, i as int).len() ==> rule_nodes(
                    iv,
                )[r@.len() + k] == rule_nodes_from(iv, i as int)[k],
            decreases n - i,
        {
            proof {
                lemma_rule_nodes_from(iv, i as int);
                lemma_rule_nodes_from(iv, i as int + 1);
                assert(iv[i as int] == self.items@[i as int]@);
            }
            match &self.items[i] {
                Item::RuleItem(rn) => {
                    let targets = idents_of(&rn.lead);
                    let prerequisites = match &rn.expr {
                        Some(e) => idents_of(e),
                        None => Vec::new(),
                    };
                    let mut recipes: Vec<String> = Vec::new();
                    let m = rn.rest.len();
                    let mut j: usize = 0;
                    proof {
                        lemma_recipe_texts_from(rn@.rest, 0);
                        assert(rn@.rest.skip(0) =~= rn@.rest);
                        assert(recipes.deep_view() + recipe_texts_from(rn@.rest, 0)
                            =~= recipe_texts(rn@.rest));
                    }
                    while j < m
                        invariant
                            j <= m,
                            m == rn.rest@.len(),
                            rn@.rest.len() == m,
                            recipe_texts(rn@.rest) == recipes.deep_view() + recipe_texts_from(
                                rn@.rest,
                                j as int,
                            ),
                        decreases m - j,
                    {
                        proof {
                            assert(rn@.rest[j as int] == rn.rest@[j as int]@);
                        }
                        let ghost before = recipes.deep_view();
                        match &rn.rest[j] {
                            RulePart::Recipe(toks) => {
                                recipes.push(text_of_text_tokens(toks));
                                proof {
                                    assert(recipes.deep_view() =~= before.push(
                                        text_tokens_text(toks_view(toks@)),
                                    ));
                                    assert(before + (seq![text_tokens_text(toks_view(toks@))]
                                        + recipe_texts_from(rn@.rest, j as int + 1)) =~= (
                                    before.push(text_tokens_text(toks_view(toks@))))
                                        + recipe_texts_from(rn@.rest, j as int + 1));
                                }
                            },
                            RulePart::Plain(_) => {},
                        }
                        j = j + 1;
                    }
                    proof {
                        assert(recipes.deep_view() + recipe_texts_from(rn@.rest, m as int)
                            =~= recipes.deep_view());
                    }
                    let rule = Rule { targets, prerequisites, recipes };
                    proof {
                        assert(rule.matches_node(rn@)) by {
                            match &rn.expr {
                                Some(e) => {},
                                None => {
                                    assert(rule.prerequisites.deep_view()
                                        =~= Seq::<Seq<char>>::empty());
                                },
                            }
                        }
                    }
                    r.push(rule);
                    proof {
                        assert(rule_nodes_from(iv, i as int) =~= seq![rn@] + rule_nodes_from(
                            iv,
                            i as int + 1,
                        ));
                        assert(rule_nodes(iv)[r@.len() - 1] == rule_nodes_from(iv, i as int)[0]);
                        assert forall|k: int|
                            0 <= k < rule_nodes_from(iv, i as int + 1).len() implies rule_nodes(
                            iv,
                        )[r@.len() + k] == #[trigger] rule_nodes_from(iv, i as int + 1)[k] by {
                            assert(rule_nodes_from(iv, i as int)[k + 1] == rule_nodes_from(
                                iv,
                                i as int + 1,
                            )[k]);
                        }
                    }
                },
                _ => {
                    proof {
                        assert(rule_nodes_from(iv, i as int) == rule_nodes_from(iv, i as int + 1));
                    }
                },
            }
            i = i + 1;
        }
        proof {
            lemma_rule_nodes_from(iv, n as int);
            assert(rule_nodes_from(iv, n as int) =~= Seq::<RuleNodeV>::empty());
        }
        r
    }

    /// The read views of the document's variable definitions, in order.
    pub fn variable_definitions(&self) -> (r: Vec<VariableDefinition>)
        ensures
            r@.len() == variable_nodes(self@).len(),
            forall|k: int| 0 <= k < r@.len() ==> (#[trigger] r@[k]).matches_node(
                variable_nodes(self@)[k],
            ),
    {
        let ghost iv = self@;
        let mut r: Vec<VariableDefinition> = Vec::new();
        let n = self.items.len();
        let mut i: usize = 0;
        proof {
            lemma_variable_nodes_from(iv, 0);
            assert(iv.skip(0) =~= iv);
        }
        while i < n
            invariant
                i <= n,
                n == self.items@.len(),
                iv == self@,
                variable_nodes(iv).len() == r@.len() + variable_nodes_from(iv, i as int).len(),
                forall|k: int| 0 <= k < r@.len() ==> (#[trigger] r@[k]).matches_node(
                    variable_nodes(iv)[k],
                ),
                forall|k: int| 0 <= k < variable_nodes_from(iv, i as int).len() ==> variable_nodes(
                    iv,
                )[r@.len() + k] == variable_nodes_from(iv, i as int)[k],
            decreases n - i,
        {
            proof {
                lemma_variable_nodes_from(iv, i as int);
                lemma_variable_nodes_from(iv, i as int + 1);
                assert(iv[i as int] == self.items@[i as int]@);
            }
            match &self.items[i] {
                Item::Variable(vn) => {
                    let names = idents_of(&vn.lead);
                    let name: Option<String> = if names.len() > 0 {
                        Some(names[names.len() - 1].clone())
                    } else {
                        None
                    };
                    let raw_value: Option<String> = match &vn.expr {
                        Some(e) => Some(concat_all(e)),
                        None => None,
                    };
                    let vd = VariableDefinition { name, raw_value };
                    proof {
                        assert(names.deep_view() == ident_texts(vn@.lead));
                        if names@.len() > 0 {
                            assert(names.deep_view()[names@.len() - 1] == names@[names@.len()
                                - 1]@);
                            assert(ident_texts(vn@.lead).last() == names@[names@.len() - 1]@);
                        }
                        assert(vd.matches_node(vn@));
                    }
                    r.push(vd);
                    proof {
                        assert(variable_nodes_from(iv, i as int) =~= seq![vn@]
                            + variable_nodes_from(iv, i as int + 1));
                        assert(variable_nodes(iv)[r@.len() - 1] == variable_nodes_from(
                            iv,
                            i as int,
                        )[0]);
                        assert forall|k: int|
                            0 <= k < variable_nodes_from(iv, i as int + 1).len()
                            implies variable_nodes(iv)[r@.len() + k] == #[trigger] variable_nodes_from(
                            iv,
                            i as int + 1,
                        )[k] by {
                            assert(variable_nodes_from(iv, i as int)[k + 1] == variable_nodes_from(
                                iv,
                                i as int + 1,
                            )[k]);
                        }
                    }
                },
                _ => {
                    proof {
                        assert(variable_nodes_from(iv, i as int) == variable_nodes_from(
                            iv,
                            i as int + 1,
                        ));
                    }
                },
            }
            i = i + 1;
        }
        proof {
            lemma_variable_nodes_from(iv, n as int);
            assert(variable_nodes_from(iv, n as int) =~= Seq::<VariableNodeV>::empty());
        }
        r
    }
}

fn concat_all(toks: &Vec<Token>) -> (r: String)
    ensures
        r@ == tokens_text(toks_view(toks@)),
{
    let r = concat_token_texts(toks, 0, toks.len());
    proof {
        assert(token_views(toks@).subrange(0, toks@.len() as int) =~= toks_view(toks@));
    }
    r
}

/// Rule nodes of the suffix from `i`.
pub open spec fn rule_nodes_from(items: Seq<ItemV>, i: int) -> Seq<RuleNodeV>
    decreases items.len() - i
    when 0 <= i <= items.len()
{
    if i >= items.len() {
        Seq::empty()
    } else {
        match items[i] {
            ItemV::RuleItem(r) => seq![r] + rule_nodes_from(items, i + 1),
            _ => rule_nodes_from(items, i + 1),
        }
    }
}

proof fn lemma_rule_nodes_from(items: Seq<ItemV>, i: int)
    requires
        0 <= i <= items.len(),
    ensures
        rule_nodes_from(items, i) == rule_nodes(items.skip(i)),
    decreases items.len() - i,
{
    if i >= items.len() {
        assert(items.skip(i) =~= Seq::<ItemV>::empty());
    } else {
        lemma_rule_nodes_from(items, i + 1);
        assert(items.skip(i)[0] == items[i]);
        assert(items.skip(i).skip(1) =~= items.skip(i + 1));
    }
}

/// Variable nodes of the suffix from `i`.
pub open spec fn variable_nodes_from(items: Seq<ItemV>, i: int) -> Seq<VariableNodeV>
    decreases items.len() - i
    when 0 <= i <= items.len()
{
    if i >= items.len() {
        Seq::empty()
    } else {
        match items[i] {
            ItemV::Variable(v) => seq![v] + variable_nodes_from(items, i + 1),
            _ => variable_nodes_from(items, i + 1),
        }
    }
}

proof fn lemma_variable_nodes_from(items: Seq<ItemV>, i: int)
    requires
        0 <= i <= items.len(),
    ensures
        variable_nodes_from(items, i) == variable_nodes(items.skip(i)),
    decreases items.len() - i,
{
    if i >= items.len() {
        assert(items.skip(i) =~= Seq::<ItemV>::empty());
    } else {
        lemma_variable_nodes_from(items, i + 1);
        assert(items.skip(i)[0] == items[i]);
        assert(items.skip(i).skip(1) =~= items.skip(i + 1));
    }
}

// --- mutation --------------------------------------------------------------

/// The item `add_rule` appends: `name`, a bare `:` operator, a newline.
pub open spec fn added_rule_item(name: Seq<char>) -> ItemV {
    ItemV::RuleItem(
        RuleNodeV {
            lead: seq![
                (SyntaxKind::IDENTIFIER, name),
                (SyntaxKind::OPERATOR, ":"@),
            ],
            expr: None,
            rest: seq![RulePartV::Plain((SyntaxKind::NEWLINE, "\n"@))],
        },
    )
}

/// The canonical recipe part for a command: indent, text, newline.
pub open spec fn recipe_part(cmd: Seq<char>) -> RulePartV {
    RulePartV::Recipe(
        seq![
            (SyntaxKind::INDENT, "\t"@),
            (SyntaxKind::TEXT, cmd),
            (SyntaxKind::NEWLINE, "\n"@),
        ],
    )
}

/// The item position of the `k`-th rule, counting from item `i`.
pub open spec fn rule_pos_from(items: Seq<ItemV>, i: int, k: int) -> int
    decreases items.len() - i
    when 0 <= i <= items.len()
{
    if i >= items.len() {
        items.len() as int
    } else {
        match items[i] {
            ItemV::RuleItem(_) => if k == 0 {
                i
            } else {
                rule_pos_from(items, i + 1, k - 1)
            },
            _ => rule_pos_from(items, i + 1, k),
        }
    }
}

proof fn lemma_rule_pos(items: Seq<ItemV>, i: int, k: int)
    requires
        0 <= i <= items.len(),
        0 <= k < rule_nodes_from(items, i).len(),
    ensures
        i <= rule_pos_from(items, i, k) < items.len(),
        items[rule_pos_from(items, i, k)] is RuleItem,
    decreases items.len() - i,
{
    if i >= items.len() {
    } else {
        match items[i] {
            ItemV::RuleItem(_) => {
                if k != 0 {
                    lemma_rule_pos(items, i + 1, k - 1);
                }
            },
            _ => {
                lemma_rule_pos(items, i + 1, k);
            },
        }
    }
}

fn tab_command_newline(command: &str) -> (r: Vec<Token>)
    ensures
        toks_view(r@) == seq![
            (SyntaxKind::INDENT, "\t"@),
            (SyntaxKind::TEXT, command@),
            (SyntaxKind::NEWLINE, "\n"@),
        ],
{
    let mut r: Vec<Token> = Vec::new();
    r.push((SyntaxKind::INDENT, String::from_str("\t")));
    r.push((SyntaxKind::TEXT, String::from_str(command)));
    r.push((SyntaxKind::NEWLINE, String::from_str("\n")));
    proof {
        assert(toks_view(r@) =~= seq![
            (SyntaxKind::INDENT, "\t"@),
            (SyntaxKind::TEXT, command@),
            (SyntaxKind::NEWLINE, "\n"@),
        ]);
    }
    r
}

impl Makefile {
    /// Appends a rule `name:` with no prerequisites and no recipe, and
    /// returns its index among the document's rules.
    pub fn add_rule(&mut self, name: &str) -> (idx: usize)
        ensures
            final(self)@ == old(self)@.push(added_rule_item(name@)),
            idx == rule_nodes(old(self)@).len(),
            items_text(final(self)@) == items_text(old(self)@) + name@ + ":"@ + "\n"@,
    {
        let idx = self.count_rules();
        let mut lead: Vec<Token> = Vec::new();
        lead.push((SyntaxKind::IDENTIFIER, String::from_str(name)));
        lead.push((SyntaxKind::OPERATOR, String::from_str(":")));
        let mut rest: Vec<RulePart> = Vec::new();
        rest.push(RulePart::Plain((SyntaxKind::NEWLINE, String::from_str("\n"))));
        let node = RuleNode { lead, expr: None, rest };
        proof {
            assert(node@.lead =~= seq![
                (SyntaxKind::IDENTIFIER, name@),
                (SyntaxKind::OPERATOR, ":"@),
            ]);
            assert(node@.rest =~= seq![RulePartV::Plain((SyntaxKind::NEWLINE, "\n"@))]);
        }
        let item = Item::RuleItem(node);
        let ghost iv = item@;
        let ghost old_view = self@;
        self.items.push(item);
        proof {
            assert(self@ =~= old_view.push(iv));
            assert(iv == added_rule_item(name@));
            lemma_items_text_snoc(old_view, iv);
            assert(item_text(iv) =~= name@ + ":"@ + "\n"@) by {
                match iv {
                    ItemV::RuleItem(rn) => {
                        let e: Seq<TokV> = Seq::empty();
                        assert(tokens_text(e) =~= Seq::<char>::empty());
                        lemma_tokens_text_snoc(e, (SyntaxKind::IDENTIFIER, name@));
                        lemma_tokens_text_snoc(
                            e.push((SyntaxKind::IDENTIFIER, name@)),
                            (SyntaxKind::OPERATOR, ":"@),
                        );
                        assert(rn.lead =~= e.push((SyntaxKind::IDENTIFIER, name@)).push(
                            (SyntaxKind::OPERATOR, ":"@),
                        ));
                        let ep: Seq<RulePartV> = Seq::empty();
                        assert(rule_parts_text(ep) =~= Seq::<char>::empty());
                        lemma_rule_parts_text_snoc(
                            ep,
                            RulePartV::Plain((SyntaxKind::NEWLINE, "\n"@)),
                        );
                        assert(rn.rest =~= ep.push(RulePartV::Plain((SyntaxKind::NEWLINE, "\n"@))));
                    },
                    _ => {},
                }
            }
        }
        idx
    }

    /// How many rules the document holds.
    pub fn count_rules(&self) -> (c: usize)
        ensures
            c == rule_nodes(self@).len(),
    {
        let ghost iv = self@;
        let n = self.items.len();
        let mut c: usize = 0;
        let mut i: usize = 0;
        proof {
            lemma_rule_nodes_from(iv, 0);
            assert(iv.skip(0) =~= iv);
        }
        while i < n
            invariant
                i <= n,
                c <= i,
                n == self.items@.len(),
                iv == self@,
                c + rule_nodes_from(iv, i as int).len() == rule_nodes(iv).len(),
            decreases n - i,
        {
            proof {
                assert(iv[i as int] == self.items@[i as int]@);
            }
            match &self.items[i] {
                Item::RuleItem(_) => {
                    c = c + 1;
                },
                _ => {},
            }
            i = i + 1;
        }
        proof {
            assert(rule_nodes_from(iv, n as int) =~= Seq::<RuleNodeV>::empty());
        }
        c
    }

    /// Appends the command as a new recipe line (indent, text, newline) of
    /// the `rule_index`-th rule.
    pub fn push_command(&mut self, rule_index: usize, command: &str)
        requires
            rule_index < rule_nodes(old(self)@).len(),
        ensures
            ({
                let p = rule_pos_from(old(self)@, 0, rule_index as int);
                &&& 0 <= p < old(self)@.len()
                &&& (old(self)@[p] matches ItemV::RuleItem(rn) && final(self)@ == old(
                    self,
                )@.update(
                    p,
                    ItemV::RuleItem(
                        RuleNodeV {
                            lead: rn.lead,
                            expr: rn.expr,
                            rest: rn.rest.push(recipe_part(command@)),
                        },
                    ),
                ))
            }),
    {
        let p = self.find_rule_pos(rule_index);
        let ghost old_view = self@;
        let item = self.items.remove(p);
        match item {
            Item::RuleItem(rn) => {
                let mut rn = rn;
                let ghost rnv = rn@;
                rn.rest.push(RulePart::Recipe(tab_command_newline(command)));
                proof {
                    assert(rn@.rest =~= rnv.rest.push(recipe_part(command@)));
                }
                self.items.insert(p, Item::RuleItem(rn));
                proof {
                    assert(self@ =~= old_view.update(
                        p as int,
                        ItemV::RuleItem(
                            RuleNodeV {
                                lead: rnv.lead,
                                expr: rnv.expr,
                                rest: rnv.rest.push(recipe_part(command@)),
                            },
                        ),
                    ));
                }
            },
            other => {
                proof {
                    assert(false);
                }
                self.items.insert(p, other);
            },
        }
    }

    /// Replaces the `command_index`-th recipe line of the `rule_index`-th
    /// rule with the command, in canonical indent-text-newline form.
    pub fn replace_command(&mut self, rule_index: usize, command_index: usize, command: &str)
        requires
            rule_index < rule_nodes(old(self)@).len(),
            ({
                let p = rule_pos_from(old(self)@, 0, rule_index as int);
                old(self)@[p] matches ItemV::RuleItem(rn) && command_index < recipe_texts(
                    rn.rest,
                ).len()
            }),
        ensures
            ({
                let p = rule_pos_from(old(self)@, 0, rule_index as int);
                &&& 0 <= p < old(self)@.len()
                &&& (old(self)@[p] matches ItemV::RuleItem(rn) && {
                    let q = recipe_pos_from(rn.rest, 0, command_index as int);
                    &&& 0 <= q < rn.rest.len()
                    &&& final(self)@ == old(self)@.update(
                        p,
                        ItemV::RuleItem(
                            RuleNodeV {
                                lead: rn.lead,
                                expr: rn.expr,
                                rest: rn.rest.update(q, recipe_part(command@)),
                            },
                        ),
                    )
                })
            }),
    {
        let p = self.find_rule_pos(rule_index);
        let ghost old_view = self@;
        let item = self.items.remove(p);
        match item {
            Item::RuleItem(rn) => {
                let mut rn = rn;
                let ghost rnv = rn@;
                proof {
                    assert(old_view[p as int] == ItemV::RuleItem(rnv));
                    lemma_recipe_texts_from(rnv.rest, 0);
                    assert(rnv.rest.skip(0) =~= rnv.rest);
                    lemma_recipe_pos(rnv.rest, 0, command_index as int);
                }
                // find the command_index-th recipe part
                let m = rn.rest.len();
                let mut q: usize = 0;
                let mut seen: usize = 0;
                loop
                    invariant
                        q <= m,
                        m == rn.rest@.len(),
                        rnv == rn@,
                        seen <= command_index,
                        (command_index - seen) < recipe_texts_from(rnv.rest, q as int).len(),
                        recipe_pos_from(rnv.rest, 0, command_index as int) == recipe_pos_from(
                            rnv.rest,
                            q as int,
                            (command_index - seen) as int,
                        ),
                    ensures
                        q < m,
                        recipe_pos_from(rnv.rest, 0, command_index as int) == q as int,
                    decreases m - q,
                {
                    proof {
                        assert(q < m) by {
                            if q as int >= rnv.rest.len() {
                                assert(recipe_texts_from(rnv.rest, q as int).len() == 0);
                            }
                        }
                        assert(rnv.rest[q as int] == rn.rest@[q as int]@);
                    }
                    let is_recipe = match &rn.rest[q] {
                        RulePart::Recipe(_) => true,
                        RulePart::Plain(_) => false,
                    };
                    if is_recipe {
                        if seen == command_index {
                            proof {
                                assert(recipe_pos_from(rnv.rest, q as int, 0) == q as int);
                            }
                            break ;
                        }
                        seen = seen + 1;
                    }
                    q = q + 1;
                }
                proof {
                    assert(recipe_pos_from(rnv.rest, 0, command_index as int) == q as int);
                }
                let ghost rest0 = rn@.rest;
                rn.rest.remove(q);
                rn.rest.insert(q, RulePart::Recipe(tab_command_newline(command)));
                proof {
                    assert(rn@.rest =~= rest0.update(q as int, recipe_part(command@)));
                }
                self.items.insert(p, Item::RuleItem(rn));
                proof {
                    assert(self@ =~= old_view.update(
                        p as int,
                        ItemV::RuleItem(
                            RuleNodeV {
                                lead: rnv.lead,
                                expr: rnv.expr,
                                rest: rnv.rest.update(
                                    recipe_pos_from(rnv.rest, 0, command_index as int),
                                    recipe_part(command@),
                                ),
                            },
                        ),
                    ));
                }
            },
            other => {
                proof {
                    assert(false);
                }
                self.items.insert(p, other);
            },
        }
    }

    fn find_rule_pos(&self, rule_index: usize) -> (p: usize)
        requires
            rule_index < rule_nodes(self@).len(),
        ensures
            p as int == rule_pos_from(self@, 0, rule_index as int),
            p < self@.len(),
            self@[p as int] is RuleItem,
    {
        let ghost iv = self@;
        proof {
            lemma_rule_nodes_from(iv, 0);
            assert(iv.skip(0) =~= iv);
            lemma_rule_pos(iv, 0, rule_index as int);
        }
        let n = self.items.len();
        let mut i: usize = 0;
        let mut cnt: usize = 0;
        loop
            invariant
                i <= n,
                n == self.items@.len(),
                iv == self@,
                cnt <= rule_index,
                (rule_index - cnt) < rule_nodes_from(iv, i as int).len(),
                rule_pos_from(iv, 0, rule_index as int) == rule_pos_from(
                    iv,
                    i as int,
                    (rule_index - cnt) as int,
                ),
            decreases n - i,
        {
            proof {
                assert(i < n) by {
                    if i as int >= iv.len() {
                        assert(rule_nodes_from(iv, i as int).len() == 0);
                    }
                }
                assert(iv[i as int] == self.items@[i as int]@);
            }
            let is_rule = match &self.items[i] {
                Item::RuleItem(_) => true,
                _ => false,
            };
            if is_rule {
                if cnt == rule_index {
                    proof {
                        assert(rule_pos_from(iv, i as int, 0) == i as int);
                    }
                    return i;
                }
                cnt = cnt + 1;
            }
            i = i + 1;
        }
    }

    /// The document's text: the concatenation of its items' texts.
    pub fn to_string(&self) -> (r: String)
        ensures
            r@ == items_text(self@),
    {
        let ghost iv = self@;
        let mut s = String::new();
        let n = self.items.len();
        let mut i: usize = 0;
        proof {
            assert(iv.take(0) =~= Seq::<ItemV>::empty());
            assert(items_text(Seq::<ItemV>::empty()) =~= Seq::<char>::empty());
        }
        while i < n
            invariant
                i <= n,
                n == self.items@.len(),
                iv == self@,
                s@ == items_text(iv.take(i as int)),
            decreases n - i,
        {
            proof {
                assert(iv[i as int] == self.items@[i as int]@);
            }
            append_item_text(&mut s, &self.items[i]);
            proof {
                assert(iv.take(i as int + 1) =~= iv.take(i as int).push(iv[i as int]));
                lemma_items_text_snoc(iv.take(i as int), iv[i as int]);
            }
            i = i + 1;
        }
        proof {
            assert(iv.take(n as int) =~= iv);
        }
        s
    }
}

/// The item position of the `k`-th recipe part, counting from part `i`.
pub open spec fn recipe_pos_from(ps: Seq<RulePartV>, i: int, k: int) -> int
    decreases ps.len() - i
    when 0 <= i <= ps.len()
{
    if i >= ps.len() {
        ps.len() as int
    } else {
        match ps[i] {
            RulePartV::Recipe(_) => if k == 0 {
                i
            } else {
                recipe_pos_from(ps, i + 1, k - 1)
            },
            RulePartV::Plain(_) => recipe_pos_from(ps, i + 1, k),
        }
    }
}

proof fn lemma_recipe_pos(ps: Seq<RulePartV>, i: int, k: int)
    requires
        0 <= i <= ps.len(),
        0 <= k < recipe_texts_from(ps, i).len(),
    ensures
        i <= recipe_pos_from(ps, i, k) < ps.len(),
        ps[recipe_pos_from(ps, i, k)] is Recipe,
    decreases ps.len() - i,
{
    if i >= ps.len() {
    } else {
        match ps[i] {
            RulePartV::Recipe(_) => {
                if k != 0 {
                    lemma_recipe_pos(ps, i + 1, k - 1);
                }
            },
            RulePartV::Plain(_) => {
                lemma_recipe_pos(ps, i + 1, k);
            },
        }
    }
}

fn append_tokens(s: &mut String, toks: &Vec<Token>)
    ensures
        final(s)@ == old(s)@ + tokens_text(toks_view(toks@)),
{
    let ghost tv = toks_view(toks@);
    let n = toks.len();
    let mut i: usize = 0;
    proof {
        assert(tv.take(0) =~= Seq::<TokV>::empty());
        assert(tokens_text(Seq::<TokV>::empty()) =~= Seq::<char>::empty());
        assert(old(s)@ + tokens_text(tv.take(0)) =~= old(s)@);
    }
    while i < n
        invariant
            i <= n,
            n == toks@.len(),
            tv == toks_view(toks@),
            s@ == old(s)@ + tokens_text(tv.take(i as int)),
        decreases n - i,
    {
        proof {
            assert(tv[i as int] == (toks@[i as int].0, toks@[i as int].1@));
        }
        s.append(toks[i].1.as_str());
        proof {
            assert(tv.take(i as int + 1) =~= tv.take(i as int).push(tv[i as int]));
            lemma_tokens_text_snoc(tv.take(i as int), tv[i as int]);
            assert((old(s)@ + tokens_text(tv.take(i as int))) + tv[i as int].1 =~= old(s)@ + (
            tokens_text(tv.take(i as int)) + tv[i as int].1));
        }
        i = i + 1;
    }
    proof {
        assert(tv.take(n as int) =~= tv);
    }
}

fn append_item_text(s: &mut String, item: &Item)
    ensures
        final(s)@ == old(s)@ + item_text(item@),
{
    match item {
        Item::Loose(t) => {
            s.append(t.1.as_str());
        },
        Item::Variable(v) => {
            append_tokens(s, &v.lead);
            match &v.expr {
                Some(e) => {
                    append_tokens(s, e);
                },
                None => {},
            }
            append_tokens(s, &v.tail);
            proof {
                assert(old(s)@ + item_text(item@) =~= s@);
            }
        },
        Item::RuleItem(r) => {
            append_tokens(s, &r.lead);
            match &r.expr {
                Some(e) => {
                    append_tokens(s, e);
                },
                None => {},
            }
            let ghost rest_v = r@.rest;
            let m = r.rest.len();
            let ghost mid = s@;
            let mut j: usize = 0;
            proof {
                assert(rest_v.take(0) =~= Seq::<RulePartV>::empty());
                assert(rule_parts_text(Seq::<RulePartV>::empty()) =~= Seq::<char>::empty());
                assert(mid + rule_parts_text(rest_v.take(0)) =~= mid);
            }
            while j < m
                invariant
                    j <= m,
                    m == r.rest@.len(),
                    rest_v == r@.rest,
                    s@ == mid + rule_parts_text(rest_v.take(j as int)),
                decreases m - j,
            {
                proof {
                    assert(rest_v[j as int] == r.rest@[j as int]@);
                }
                match &r.rest[j] {
                    RulePart::Recipe(toks) => {
                        append_tokens(s, toks);
                    },
                    RulePart::Plain(t) => {
                        s.append(t.1.as_str());
                    },
                }
                proof {
                    assert(rest_v.take(j as int + 1) =~= rest_v.take(j as int).push(
                        rest_v[j as int],
                    ));
                    lemma_rule_parts_text_snoc(rest_v.take(j as int), rest_v[j as int]);
                    assert((mid + rule_parts_text(rest_v.take(j as int))) + rule_part_text(
                        rest_v[j as int],
                    ) =~= mid + (rule_parts_text(rest_v.take(j as int)) + rule_part_text(
                        rest_v[j as int],
                    )));
                }
                j = j + 1;
            }
            proof {
                assert(rest_v.take(m as int) =~= rest_v);
                assert(old(s)@ + item_text(item@) =~= s@);
            }
        },
    }
}

// --- tree rendering --------------------------------------------------------

/// The display name of a syntax kind.
pub open spec fn kind_name(k: SyntaxKind) -> Seq<char> {
    match k {
        SyntaxKind::SINGLE_QUOTE => "SINGLE_QUOTE"@,
        SyntaxKind::DOUBLE_QUOTE => "DOUBLE_QUOTE"@,
        SyntaxKind::WHITESPACE => "WHITESPACE"@,
        SyntaxKind::BACKSLASH => "BACKSLASH"@,
        SyntaxKind::QUESTION => "QUESTION"@,
        SyntaxKind::AT_SIGN => "AT_SIGN"@,
        SyntaxKind::NEWLINE => "NEWLINE"@,
        SyntaxKind::PERCENT => "PERCENT"@,
        SyntaxKind::EQUALS => "EQUALS"@,
        SyntaxKind::DOLLAR => "DOLLAR"@,
        SyntaxKind::LPAREN => "LPAREN"@,
        SyntaxKind::RPAREN => "RPAREN"@,
        SyntaxKind::LBRACE => "LBRACE"@,
        SyntaxKind::RBRACE => "RBRACE"@,
        SyntaxKind::COLON => "COLON"@,
        SyntaxKind::CARET => "CARET"@,
        SyntaxKind::COMMA => "COMMA"@,
        SyntaxKind::LESS => "LESS"@,
        SyntaxKind::PLUS => "PLUS"@,
        SyntaxKind::STAR => "STAR"@,
        SyntaxKind::IDENTIFIER => "IDENTIFIER"@,
        SyntaxKind::EXPORT => "EXPORT"@,
        SyntaxKind::IMPORT => "IMPORT"@,
        SyntaxKind::OPERATOR => "OPERATOR"@,
        SyntaxKind::COMMENT => "COMMENT"@,
        SyntaxKind::INDENT => "INDENT"@,
        SyntaxKind::ERROR => "ERROR"@,
        SyntaxKind::TEXT => "TEXT"@,
        SyntaxKind::ROOT => "ROOT"@,
        SyntaxKind::RULE => "RULE"@,
        SyntaxKind::PREREQUISITES => "PREREQUISITES"@,
        SyntaxKind::RECIPE => "RECIPE"@,
        SyntaxKind::VARIABLE => "VARIABLE"@,
        SyntaxKind::EXPR => "EXPR"@,
        SyntaxKind::MACRO => "MACRO"@,
        SyntaxKind::MACRO_OP => "MACRO_OP"@,
    }
}

fn kind_name_exec(k: SyntaxKind) -> (r: String)
    ensures
        r@ == kind_name(k),
{
    match k {
        SyntaxKind::SINGLE_QUOTE => String::from_str("SINGLE_QUOTE"),
        SyntaxKind::DOUBLE_QUOTE => String::from_str("DOUBLE_QUOTE"),
        SyntaxKind::WHITESPACE => String::from_str("WHITESPACE"),
        SyntaxKind::BACKSLASH => String::from_str("BACKSLASH"),
        SyntaxKind::QUESTION => String::from_str("QUESTION"),
        SyntaxKind::AT_SIGN => String::from_str("AT_SIGN"),
        SyntaxKind::NEWLINE => String::from_str("NEWLINE"),
        SyntaxKind::PERCENT => String::from_str("PERCENT"),
        SyntaxKind::EQUALS => String::from_str("EQUALS"),
        SyntaxKind::DOLLAR => String::from_str("DOLLAR"),
        SyntaxKind::LPAREN => String::from_str("LPAREN"),
        SyntaxKind::RPAREN => String::from_str("RPAREN"),
        SyntaxKind::LBRACE => String::from_str("LBRACE"),
        SyntaxKind::RBRACE => String::from_str("RBRACE"),
        SyntaxKind::COLON => String::from_str("COLON"),
        SyntaxKind::CARET => String::from_str("CARET"),
        SyntaxKind::COMMA => String::from_str("COMMA"),
        SyntaxKind::LESS => String::from_str("LESS"),
        SyntaxKind::PLUS => String::from_str("PLUS"),
        SyntaxKind::STAR => String::from_str("STAR"),
        SyntaxKind::IDENTIFIER => String::from_str("IDENTIFIER"),
        SyntaxKind::EXPORT => String::from_str("EXPORT"),
        SyntaxKind::IMPORT => String::from_str("IMPORT"),
        SyntaxKind::OPERATOR => String::from_str("OPERATOR"),
        SyntaxKind::COMMENT => String::from_str("COMMENT"),
        SyntaxKind::INDENT => String::from_str("INDENT"),
        SyntaxKind::ERROR => String::from_str("ERROR"),
        SyntaxKind::TEXT => String::from_str("TEXT"),
        SyntaxKind::ROOT => String::from_str("ROOT"),
        SyntaxKind::RULE => String::from_str("RULE"),
        SyntaxKind::PREREQUISITES => String::from_str("PREREQUISITES"),
        SyntaxKind::RECIPE => String::from_str("RECIPE"),
        SyntaxKind::VARIABLE => String::from_str("VARIABLE"),
        SyntaxKind::EXPR => String::from_str("EXPR"),
        SyntaxKind::MACRO => String::from_str("MACRO"),
        SyntaxKind::MACRO_OP => String::from_str("MACRO_OP"),
    }
}

/// How one character is escaped inside the rendered quotes.
pub open spec fn esc_char(c: char) -> Seq<char> {
    if c == '\n' {
        seq!['\\', 'n']
    } else if c == '\t' {
        seq!['\\', 't']
    } else if c == '\r' {
        seq!['\\', 'r']
    } else if c == '\\' {
        seq!['\\', '\\']
    } else if c == '"' {
        seq!['\\', '"']
    } else {
        seq![c]
    }
}

/// A text with its characters escaped.
pub open spec fn esc_text(s: Seq<char>) -> Seq<char>
    decreases s.len(),
{
    if s.len() == 0 {
        Seq::empty()
    } else {
        esc_char(s[0]) + esc_text(s.skip(1))
    }
}

proof fn lemma_esc_snoc(s: Seq<char>, c: char)
    ensures
        esc_text(s.push(c)) == esc_text(s) + esc_char(c),
    decreases s.len(),
{
    if s.len() == 0 {
        assert(s.push(c)[0] == c);
        assert(s.push(c).skip(1) =~= Seq::<char>::empty());
        assert(esc_text(Seq::<char>::empty()) =~= Seq::<char>::empty());
        assert(esc_text(s.push(c)) =~= esc_char(c));
        assert(esc_text(s) + esc_char(c) =~= esc_char(c));
    } else {
        assert(s.push(c)[0] == s[0]);
        assert(s.push(c).skip(1) =~= s.skip(1).push(c));
        lemma_esc_snoc(s.skip(1), c);
        assert(esc_char(s[0]) + (esc_text(s.skip(1)) + esc_char(c)) =~= (esc_char(s[0]) + esc_text(
            s.skip(1),
        )) + esc_char(c));
    }
}

fn esc_exec(text: &String) -> (r: String)
    ensures
        r@ == esc_text(text@),
{
    let chars = crate::text::str_to_chars(text.as_str());
    let n = chars.len();
    let mut r = String::new();
    let mut i: usize = 0;
    proof {
        assert(chars@.take(0) =~= Seq::<char>::empty());
        assert(esc_text(Seq::<char>::empty()) =~= Seq::<char>::empty());
        assert(r@ =~= esc_text(chars@.take(0)));
    }
    while i < n
        invariant
            i <= n,
            n == chars@.len(),
            chars@ == text@,
            r@ == esc_text(chars@.take(i as int)),
        decreases n - i,
    {
        let c = chars[i];
        let ghost before = r@;
        if c == '\n' {
            string_push(&mut r, '\\');
            string_push(&mut r, 'n');
        } else if c == '\t' {
            string_push(&mut r, '\\');
            string_push(&mut r, 't');
        } else if c == '\r' {
            string_push(&mut r, '\\');
            string_push(&mut r, 'r');
        } else if c == '\\' {
            string_push(&mut r, '\\');
            string_push(&mut r, '\\');
        } else if c == '"' {
            string_push(&mut r, '\\');
            string_push(&mut r, '"');
        } else {
            string_push(&mut r, c);
        }
        proof {
            assert(r@ =~= before + esc_char(c));
            assert(chars@.take(i as int + 1) =~= chars@.take(i as int).push(c));
            lemma_esc_snoc(chars@.take(i as int), c);
        }
        i = i + 1;
    }
    proof {
        assert(chars@.take(n as int) =~= chars@);
    }
    r
}

/// The indentation of a nesting depth: two spaces per level.
pub open spec fn indent_sp(depth: nat) -> Seq<char> {
    Seq::new(2 * depth, |i: int| ' ')
}

/// One node-header line: indentation, name, `@start..end`, newline.
pub open spec fn header_line(name: Seq<char>, start: nat, end: nat, depth: nat) -> Seq<char> {
    indent_sp(depth) + name + seq!['@'] + crate::text::dec_of(start) + seq!['.', '.']
        + crate::text::dec_of(end) + seq!['\n']
}

/// One token line: like a header, plus the quoted, escaped token text.
pub open spec fn token_line(t: TokV, pos: nat, depth: nat) -> Seq<char> {
    indent_sp(depth) + kind_name(t.0) + seq!['@'] + crate::text::dec_of(pos) + seq!['.', '.']
        + crate::text::dec_of((pos + t.1.len()) as nat) + seq![' ', '"'] + esc_text(t.1) + seq![
        '"',
        '\n',
    ]
}

/// The token lines of a group, positions advancing by each text's length.
pub open spec fn tokens_lines(toks: Seq<TokV>, pos: nat, depth: nat) -> Seq<char>
    decreases toks.len(),
{
    if toks.len() == 0 {
        Seq::empty()
    } else {
        token_line(toks[0], pos, depth) + tokens_lines(
            toks.skip(1),
            (pos + toks[0].1.len()) as nat,
            depth,
        )
    }
}

/// The lines of an optional `EXPR` node.
pub open spec fn expr_lines(e: Option<Seq<TokV>>, pos: nat, depth: nat) -> Seq<char> {
    match e {
        None => Seq::empty(),
        Some(toks) => header_line(
            "EXPR"@,
            pos,
            (pos + tokens_text(toks).len()) as nat,
            depth,
        ) + tokens_lines(toks, pos, (depth + 1) as nat),
    }
}

/// The lines of a rule's parts: `RECIPE` nodes and plain tokens.
pub open spec fn parts_lines(ps: Seq<RulePartV>, pos: nat, depth: nat) -> Seq<char>
    decreases ps.len(),
{
    if ps.len() == 0 {
        Seq::empty()
    } else {
        (match ps[0] {
            RulePartV::Recipe(toks) => header_line(
                "RECIPE"@,
                pos,
                (pos + tokens_text(toks).len()) as nat,
                depth,
            ) + tokens_lines(toks, pos, (depth + 1) as nat),
            RulePartV::Plain(t) => token_line(t, pos, depth),
        }) + parts_lines(ps.skip(1), (pos + rule_part_text(ps[0]).len()) as nat, depth)
    }
}

/// The lines of one root item, at depth 1.
pub open spec fn item_lines(item: ItemV, pos: nat) -> Seq<char> {
    match item {
        ItemV::Loose(t) => token_line(t, pos, 1),
        ItemV::Variable(v) => header_line(
            "VARIABLE"@,
            pos,
            (pos + item_text(item).len()) as nat,
            1,
        ) + tokens_lines(v.lead, pos, 2) + expr_lines(
            v.expr,
            (pos + tokens_text(v.lead).len()) as nat,
            2,
        ) + tokens_lines(
            v.tail,
            (pos + tokens_text(v.lead).len() + opt_tokens_text(v.expr).len()) as nat,
            2,
        ),
        ItemV::RuleItem(r) => header_line(
            "RULE"@,
            pos,
            (pos + item_text(item).len()) as nat,
            1,
        ) + tokens_lines(r.lead, pos, 2) + expr_lines(
            r.expr,
            (pos + tokens_text(r.lead).len()) as nat,
            2,
        ) + parts_lines(
            r.rest,
            (pos + tokens_text(r.lead).len() + opt_tokens_text(r.expr).len()) as nat,
            2,
        ),
    }
}

/// The lines of all items from a position on.
pub open spec fn items_lines(items: Seq<ItemV>, pos: nat) -> Seq<char>
    decreases items.len(),
{
    if items.len() == 0 {
        Seq::empty()
    } else {
        item_lines(items[0], pos) + items_lines(items.skip(1), (pos + item_text(
            items[0],
        ).len()) as nat)
    }
}

/// The rendered tree of a document: a `ROOT` header over the items' lines,
/// every node and token with its character range, token texts quoted and
/// escaped.
pub open spec fn dump_spec(items: Seq<ItemV>) -> Seq<char> {
    header_line("ROOT"@, 0, items_text(items).len(), 0) + items_lines(items, 0)
}

fn append_indent(out: &mut String, depth: usize)
    ensures
        final(out)@ == old(out)@ + indent_sp(depth as nat),
{
    let mut j: usize = 0;
    while j < depth
        invariant
            j <= depth,
            out@ == old(out)@ + Seq::new(2 * j as nat, |i: int| ' '),
        decreases depth - j,
    {
        let ghost before = out@;
        out.append("  ");
        proof {
            reveal_strlit("  ");
            assert(out@ =~= old(out)@ + Seq::new(2 * (j + 1) as nat, |i: int| ' '));
        }
        j = j + 1;
    }
}

fn append_header(out: &mut String, name: &str, start: usize, end: usize, depth: usize)
    ensures
        final(out)@ == old(out)@ + header_line(name@, start as nat, end as nat, depth as nat),
{
    append_indent(out, depth);
    out.append(name);
    string_push(out, '@');
    let s1 = crate::text::usize_to_string(start);
    out.append(s1.as_str());
    out.append("..");
    let s2 = crate::text::usize_to_string(end);
    out.append(s2.as_str());
    string_push(out, '\n');
    proof {
        reveal_strlit("..");
        assert(".."@ =~= seq!['.', '.']);
        assert(out@ =~= old(out)@ + header_line(name@, start as nat, end as nat, depth as nat));
    }
}

fn append_token_line(out: &mut String, consumed: &mut String, t: &Token, depth: usize)
    ensures
        final(out)@ == old(out)@ + token_line((t.0, t.1@), old(consumed)@.len() as nat, depth as nat),
        final(consumed)@ == old(consumed)@ + t.1@,
{
    let start = consumed.unicode_len();
    consumed.append(t.1.as_str());
    let end = consumed.unicode_len();
    append_indent(out, depth);
    let name = kind_name_exec(t.0);
    out.append(name.as_str());
    string_push(out, '@');
    let s1 = crate::text::usize_to_string(start);
    out.append(s1.as_str());
    out.append("..");
    let s2 = crate::text::usize_to_string(end);
    out.append(s2.as_str());
    string_push(out, ' ');
    string_push(out, '"');
    let esc = esc_exec(&t.1);
    out.append(esc.as_str());
    string_push(out, '"');
    string_push(out, '\n');
    proof {
        reveal_strlit("..");
        assert(".."@ =~= seq!['.', '.']);
        assert(out@ =~= old(out)@ + token_line(
            (t.0, t.1@),
            old(consumed)@.len() as nat,
            depth as nat,
        ));
    }
}

proof fn lemma_tokens_lines_snoc(toks: Seq<TokV>, t: TokV, pos: nat, depth: nat)
    ensures
        tokens_lines(toks.push(t), pos, depth) == tokens_lines(toks, pos, depth) + token_line(
            t,
            (pos + tokens_text(toks).len()) as nat,
            depth,
        ),
    decreases toks.len(),
{
    if toks.len() == 0 {
        assert(toks.push(t)[0] == t);
        assert(toks.push(t).skip(1) =~= Seq::<TokV>::empty());
        assert(tokens_lines(Seq::<TokV>::empty(), (pos + t.1.len()) as nat, depth)
            =~= Seq::<char>::empty());
        assert(tokens_text(toks) =~= Seq::<char>::empty());
        assert(tokens_lines(toks.push(t), pos, depth) =~= token_line(t, pos, depth));
        assert(tokens_lines(toks, pos, depth) + token_line(t, pos, depth) =~= token_line(
            t,
            pos,
            depth,
        ));
    } else {
        assert(toks.push(t)[0] == toks[0]);
        assert(toks.push(t).skip(1) =~= toks.skip(1).push(t));
        lemma_tokens_lines_snoc(toks.skip(1), t, (pos + toks[0].1.len()) as nat, depth);
        assert(tokens_text(toks).len() == toks[0].1.len() + tokens_text(toks.skip(1)).len());
        assert(token_line(toks[0], pos, depth) + (tokens_lines(
            toks.skip(1),
            (pos + toks[0].1.len()) as nat,
            depth,
        ) + token_line(t, (pos + tokens_text(toks).len()) as nat, depth)) =~= (token_line(
            toks[0],
            pos,
            depth,
        ) + tokens_lines(toks.skip(1), (pos + toks[0].1.len()) as nat, depth)) + token_line(
            t,
            (pos + tokens_text(toks).len()) as nat,
            depth,
        ));
    }
}

fn append_tokens_lines(out: &mut String, consumed: &mut String, toks: &Vec<Token>, depth: usize)
    ensures
        final(out)@ == old(out)@ + tokens_lines(
            toks_view(toks@),
            old(consumed)@.len() as nat,
            depth as nat,
        ),
        final(consumed)@ == old(consumed)@ + tokens_text(toks_view(toks@)),
{
    let ghost tv = toks_view(toks@);
    let ghost pos0: nat = old(consumed)@.len() as nat;
    let n = toks.len();
    let mut i: usize = 0;
    proof {
        assert(tv.take(0) =~= Seq::<TokV>::empty());
        assert(tokens_lines(Seq::<TokV>::empty(), pos0, depth as nat) =~= Seq::<char>::empty());
        assert(tokens_text(Seq::<TokV>::empty()) =~= Seq::<char>::empty());
        assert(out@ =~= old(out)@ + tokens_lines(tv.take(0), pos0, depth as nat));
        assert(consumed@ =~= old(consumed)@ + tokens_text(tv.take(0)));
    }
    while i < n
        invariant
            i <= n,
            n == toks@.len(),
            tv == toks_view(toks@),
            pos0 == old(consumed)@.len(),
            out@ == old(out)@ + tokens_lines(tv.take(i as int), pos0, depth as nat),
            consumed@ == old(consumed)@ + tokens_text(tv.take(i as int)),
        decreases n - i,
    {
        proof {
            assert(tv[i as int] == (toks@[i as int].0, toks@[i as int].1@));
        }
        let ghost out_before = out@;
        let ghost cons_before = consumed@;
        append_token_line(out, consumed, &toks[i], depth);
        proof {
            assert(tv.take(i as int + 1) =~= tv.take(i as int).push(tv[i as int]));
            lemma_tokens_lines_snoc(tv.take(i as int), tv[i as int], pos0, depth as nat);
            lemma_tokens_text_snoc(tv.take(i as int), tv[i as int]);
            assert(cons_before.len() == pos0 + tokens_text(tv.take(i as int)).len());
            assert(out@ =~= old(out)@ + tokens_lines(tv.take(i as int + 1), pos0, depth as nat));
            assert(consumed@ =~= old(consumed)@ + tokens_text(tv.take(i as int + 1)));
        }
        i = i + 1;
    }
    proof {
        assert(tv.take(n as int) =~= tv);
    }
}

proof fn lemma_parts_lines_snoc(ps: Seq<RulePartV>, p: RulePartV, pos: nat, depth: nat)
    ensures
        parts_lines(ps.push(p), pos, depth) == parts_lines(ps, pos, depth) + (match p {
            RulePartV::Recipe(toks) => header_line(
                "RECIPE"@,
                (pos + rule_parts_text(ps).len()) as nat,
                (pos + rule_parts_text(ps).len() + tokens_text(toks).len()) as nat,
                depth,
            ) + tokens_lines(toks, (pos + rule_parts_text(ps).len()) as nat, (depth + 1) as nat),
            RulePartV::Plain(t) => token_line(t, (pos + rule_parts_text(ps).len()) as nat, depth),
        }),
    decreases ps.len(),
{
    if ps.len() == 0 {
        assert(ps.push(p)[0] == p);
        assert(ps.push(p).skip(1) =~= Seq::<RulePartV>::empty());
        assert(rule_parts_text(ps) =~= Seq::<char>::empty());
        assert(parts_lines(
            Seq::<RulePartV>::empty(),
            (pos + rule_part_text(p).len()) as nat,
            depth,
        ) =~= Seq::<char>::empty());
        assert(parts_lines(ps, pos, depth) =~= Seq::<char>::empty());
        let piece = match p {
            RulePartV::Recipe(toks) => header_line(
                "RECIPE"@,
                pos,
                (pos + tokens_text(toks).len()) as nat,
                depth,
            ) + tokens_lines(toks, pos, (depth + 1) as nat),
            RulePartV::Plain(t) => token_line(t, pos, depth),
        };
        assert(parts_lines(ps.push(p), pos, depth) =~= piece);
        assert(parts_lines(ps, pos, depth) + piece =~= piece);
    } else {
        assert(ps.push(p)[0] == ps[0]);
        assert(ps.push(p).skip(1) =~= ps.skip(1).push(p));
        lemma_parts_lines_snoc(ps.skip(1), p, (pos + rule_part_text(ps[0]).len()) as nat, depth);
        assert(rule_parts_text(ps).len() == rule_part_text(ps[0]).len() + rule_parts_text(
            ps.skip(1),
        ).len());
        let head = match ps[0] {
            RulePartV::Recipe(toks) => header_line(
                "RECIPE"@,
                pos,
                (pos + tokens_text(toks).len()) as nat,
                depth,
            ) + tokens_lines(toks, pos, (depth + 1) as nat),
            RulePartV::Plain(t) => token_line(t, pos, depth),
        };
        let tailpiece = match p {
            RulePartV::Recipe(toks) => header_line(
                "RECIPE"@,
                (pos + rule_parts_text(ps).len()) as nat,
                (pos + rule_parts_text(ps).len() + tokens_text(toks).len()) as nat,
                depth,
            ) + tokens_lines(toks, (pos + rule_parts_text(ps).len()) as nat, (depth + 1) as nat),
            RulePartV::Plain(t) => token_line(t, (pos + rule_parts_text(ps).len()) as nat, depth),
        };
        assert(head + (parts_lines(ps.skip(1), (pos + rule_part_text(ps[0]).len()) as nat, depth)
            + tailpiece) =~= (head + parts_lines(
            ps.skip(1),
            (pos + rule_part_text(ps[0]).len()) as nat,
            depth,
        )) + tailpiece);
    }
}

proof fn lemma_items_lines_snoc(items: Seq<ItemV>, item: ItemV, pos: nat)
    ensures
        items_lines(items.push(item), pos) == items_lines(items, pos) + item_lines(
            item,
            (pos + items_text(items).len()) as nat,
        ),
    decreases items.len(),
{
    if items.len() == 0 {
        assert(items.push(item)[0] == item);
        assert(items.push(item).skip(1) =~= Seq::<ItemV>::empty());
        assert(items_text(items) =~= Seq::<char>::empty());
        assert(items_lines(Seq::<ItemV>::empty(), (pos + item_text(item).len()) as nat)
            =~= Seq::<char>::empty());
        assert(items_lines(items.push(item), pos) =~= item_lines(item, pos));
        assert(items_lines(items, pos) + item_lines(item, pos) =~= item_lines(item, pos));
    } else {
        assert(items.push(item)[0] == items[0]);
        assert(items.push(item).skip(1) =~= items.skip(1).push(item));
        lemma_items_lines_snoc(items.skip(1), item, (pos + item_text(items[0]).len()) as nat);
        assert(items_text(items).len() == item_text(items[0]).len() + items_text(
            items.skip(1),
        ).len());
        assert(item_lines(items[0], pos) + (items_lines(
            items.skip(1),
            (pos + item_text(items[0]).len()) as nat,
        ) + item_lines(item, (pos + items_text(items).len()) as nat)) =~= (item_lines(
            items[0],
            pos,
        ) + items_lines(items.skip(1), (pos + item_text(items[0]).len()) as nat)) + item_lines(
            item,
            (pos + items_text(items).len()) as nat,
        ));
    }
}

#[verifier::rlimit(100)]
fn append_item_lines(out: &mut String, consumed: &mut String, item: &Item)
    ensures
        final(out)@ == old(out)@ + item_lines(item@, old(consumed)@.len() as nat),
        final(consumed)@ == old(consumed)@ + item_text(item@),
{
    match item {
        Item::Loose(t) => {
            append_token_line(out, consumed, t, 1);
        },
        Item::Variable(v) => {
            let start = consumed.unicode_len();
            let mut probe = consumed.clone();
            append_item_text(&mut probe, item);
            let end = probe.unicode_len();
            append_header(out, "VARIABLE", start, end, 1);
            append_tokens_lines(out, consumed, &v.lead, 2);
            match &v.expr {
                Some(e) => {
                    let estart = consumed.unicode_len();
                    let mut probe2 = consumed.clone();
                    append_tokens(&mut probe2, e);
                    let eend = probe2.unicode_len();
                    append_header(out, "EXPR", estart, eend, 2);
                    append_tokens_lines(out, consumed, e, 3);
                },
                None => {},
            }
            append_tokens_lines(out, consumed, &v.tail, 2);
            proof {
                assert(out@ =~= old(out)@ + item_lines(item@, old(consumed)@.len() as nat));
                assert(consumed@ =~= old(consumed)@ + item_text(item@));
            }
        },
        Item::RuleItem(r) => {
            let start = consumed.unicode_len();
            let mut probe = consumed.clone();
            append_item_text(&mut probe, item);
            let end = probe.unicode_len();
            append_header(out, "RULE", start, end, 1);
            append_tokens_lines(out, consumed, &r.lead, 2);
            match &r.expr {
                Some(e) => {
                    let estart = consumed.unicode_len();
                    let mut probe2 = consumed.clone();
                    append_tokens(&mut probe2, e);
                    let eend = probe2.unicode_len();
                    append_header(out, "EXPR", estart, eend, 2);
                    append_tokens_lines(out, consumed, e, 3);
                },
                None => {},
            }
            let ghost rest_v = r@.rest;
            let ghost mid_out = out@;
            let ghost mid_cons = consumed@;
            let ghost pos_mid: nat = consumed@.len() as nat;
            let m = r.rest.len();
            let mut j: usize = 0;
            proof {
                assert(rest_v.take(0) =~= Seq::<RulePartV>::empty());
                assert(parts_lines(Seq::<RulePartV>::empty(), pos_mid, 2) =~= Seq::<char>::empty());
                assert(rule_parts_text(Seq::<RulePartV>::empty()) =~= Seq::<char>::empty());
                assert(out@ =~= mid_out + parts_lines(rest_v.take(0), pos_mid, 2));
                assert(consumed@ =~= mid_cons + rule_parts_text(rest_v.take(0)));
            }
            while j < m
                invariant
                    j <= m,
                    m == r.rest@.len(),
                    rest_v == r@.rest,
                    pos_mid == mid_cons.len(),
                    out@ == mid_out + parts_lines(rest_v.take(j as int), pos_mid, 2),
                    consumed@ == mid_cons + rule_parts_text(rest_v.take(j as int)),
                decreases m - j,
            {
                proof {
                    assert(rest_v[j as int] == r.rest@[j as int]@);
                }
                match &r.rest[j] {
                    RulePart::Recipe(toks) => {
                        let rstart = consumed.unicode_len();
                        let mut probe3 = consumed.clone();
                        append_tokens(&mut probe3, toks);
                        let rend = probe3.unicode_len();
                        append_header(out, "RECIPE", rstart, rend, 2);
                        append_tokens_lines(out, consumed, toks, 3);
                    },
                    RulePart::Plain(t) => {
                        append_token_line(out, consumed, t, 2);
                    },
                }
                proof {
                    assert(rest_v.take(j as int + 1) =~= rest_v.take(j as int).push(
                        rest_v[j as int],
                    ));
                    lemma_parts_lines_snoc(rest_v.take(j as int), rest_v[j as int], pos_mid, 2);
                    lemma_rule_parts_text_snoc(rest_v.take(j as int), rest_v[j as int]);
                    assert(out@ =~= mid_out + parts_lines(rest_v.take(j as int + 1), pos_mid, 2));
                    assert(consumed@ =~= mid_cons + rule_parts_text(rest_v.take(j as int + 1)));
                }
                j = j + 1;
            }
            proof {
                assert(rest_v.take(m as int) =~= rest_v);
                assert(out@ =~= old(out)@ + item_lines(item@, old(consumed)@.len() as nat));
                assert(consumed@ =~= old(consumed)@ + item_text(item@));
            }
        },
    }
}

impl Makefile {
    /// The rendered tree: every node and token on its own line with its
    /// character range, token texts quoted and escaped.
    pub fn dump(&self) -> (r: String)
        ensures
            r@ == dump_spec(self@),
    {
        let ghost iv = self@;
        let total = self.to_string();
        let total_len = total.unicode_len();
        let mut out = String::new();
        append_header(&mut out, "ROOT", 0, total_len, 0);
        let mut consumed = String::new();
        let ghost after_root = out@;
        let n = self.items.len();
        let mut i: usize = 0;
        proof {
            assert(iv.take(0) =~= Seq::<ItemV>::empty());
            assert(items_lines(Seq::<ItemV>::empty(), 0) =~= Seq::<char>::empty());
            assert(items_text(Seq::<ItemV>::empty()) =~= Seq::<char>::empty());
            assert(out@ =~= after_root + items_lines(iv.take(0), 0));
            assert(consumed@ =~= items_text(iv.take(0)));
        }
        while i < n
            invariant
                i <= n,
                n == self.items@.len(),
                iv == self@,
                out@ == after_root + items_lines(iv.take(i as int), 0),
                consumed@ == items_text(iv.take(i as int)),
            decreases n - i,
        {
            proof {
                assert(iv[i as int] == self.items@[i as int]@);
            }
            append_item_lines(&mut out, &mut consumed, &self.items[i]);
            proof {
                assert(iv.take(i as int + 1) =~= iv.take(i as int).push(iv[i as int]));
                lemma_items_lines_snoc(iv.take(i as int), iv[i as int], 0);
                lemma_items_text_snoc(iv.take(i as int), iv[i as int]);
            }
            i = i + 1;
        }
        proof {
            assert(iv.take(n as int) =~= iv);
            assert(out@ =~= dump_spec(iv));
        }
        out
    }
}

/// Recipe texts of the suffix from `i`.
pub open spec fn recipe_texts_from(ps: Seq<RulePartV>, i: int) -> Seq<Seq<char>>
    decreases ps.len() - i
    when 0 <= i <= ps.len()
{
    if i >= ps.len() {
        Seq::empty()
    } else {
        match ps[i] {
            RulePartV::Recipe(toks) => seq![text_tokens_text(toks)] + recipe_texts_from(ps, i + 1),
            RulePartV::Plain(_) => recipe_texts_from(ps, i + 1),
        }
    }
}

proof fn lemma_recipe_texts_from(ps: Seq<RulePartV>, i: int)
    requires
        0 <= i <= ps.len(),
    ensures
        recipe_texts_from(ps, i) == recipe_texts(ps.skip(i)),
    decreases ps.len() - i,
{
    if i >= ps.len() {
        assert(ps.skip(i) =~= Seq::<RulePartV>::empty());
    } else {
        lemma_recipe_texts_from(ps, i + 1);
        assert(ps.skip(i)[0] == ps[i]);
        assert(ps.skip(i).skip(1) =~= ps.skip(i + 1));
    }
}

} // verus!
