//! User-declared operator precedence. Before parsing, the token stream is
//! scanned for `precedencegroup` and `infix operator` declarations, and each
//! declared operator's group is resolved to a numeric precedence by
//! following `higherThan:`/`lowerThan:` relations to one of Swift's built-in
//! groups, so that user operators nest correctly even when used before they
//! are declared.
use vstd::prelude::*;
use crate::lexer::{Token, TokenKind};
use crate::parser::DEFAULT_BP;
use crate::text::str_same;

verus! {

/// The precedence (Swift's, divided by ten) and right-associativity of a
/// built-in precedence group.
pub open spec fn builtin_group(name: Seq<char>) -> Option<(u8, bool)> {
    if name == "BitwiseShiftPrecedence"@ {
        Some((16, false))
    } else if name == "MultiplicationPrecedence"@ {
        Some((15, false))
    } else if name == "AdditionPrecedence"@ {
        Some((14, false))
    } else if name == "RangeFormationPrecedence"@ {
        Some((13, false))
    } else if name == "CastingPrecedence"@ {
        Some((13, false))
    } else if name == "NilCoalescingPrecedence"@ {
        Some((12, true))
    } else if name == "ComparisonPrecedence"@ {
        Some((9, false))
    } else if name == "LogicalConjunctionPrecedence"@ {
        Some((8, false))
    } else if name == "LogicalDisjunctionPrecedence"@ {
        Some((7, false))
    } else if name == "DefaultPrecedence"@ {
        Some((DEFAULT_BP, false))
    } else if name == "TernaryPrecedence"@ {
        Some((6, true))
    } else if name == "AssignmentPrecedence"@ {
        Some((5, true))
    } else {
        None
    }
}

/// The precedence and associativity of the built-in group `name`.
pub fn builtin_group_precedence(name: &str) -> (r: Option<(u8, bool)>)
    ensures
        r == builtin_group(name@),
{
    if str_same(name, "BitwiseShiftPrecedence") {
        Some((16, false))
    } else if str_same(name, "MultiplicationPrecedence") {
        Some((15, false))
    } else if str_same(name, "AdditionPrecedence") {
        Some((14, false))
    } else if str_same(name, "RangeFormationPrecedence") {
        Some((13, false))
    } else if str_same(name, "CastingPrecedence") {
        Some((13, false))
    } else if str_same(name, "NilCoalescingPrecedence") {
        Some((12, true))
    } else if str_same(name, "ComparisonPrecedence") {
        Some((9, false))
    } else if str_same(name, "LogicalConjunctionPrecedence") {
        Some((8, false))
    } else if str_same(name, "LogicalDisjunctionPrecedence") {
        Some((7, false))
    } else if str_same(name, "DefaultPrecedence") {
        Some((DEFAULT_BP, false))
    } else if str_same(name, "TernaryPrecedence") {
        Some((6, true))
    } else if str_same(name, "AssignmentPrecedence") {
        Some((5, true))
    } else {
        None
    }
}

/// A declared group's relations, as written.
pub struct GroupView {
    pub higher: Option<Seq<char>>,
    pub lower: Option<Seq<char>>,
    pub right: bool,
}

/// A declared `precedencegroup`'s relations.
pub struct RawGroup {
    pub higher_than: Option<String>,
    pub lower_than: Option<String>,
    pub right_associative: bool,
}

impl View for RawGroup {
    type V = GroupView;

    open spec fn view(&self) -> GroupView {
        GroupView {
            higher: crate::syntax::opt_view(self.higher_than),
            lower: crate::syntax::opt_view(self.lower_than),
            right: self.right_associative,
        }
    }
}

/// The declared groups, by name (a later declaration of a name hides an
/// earlier one).
pub open spec fn groups_view(v: Seq<(String, RawGroup)>) -> Seq<(Seq<char>, GroupView)> {
    v.map_values(|e: (String, RawGroup)| (e.0@, e.1@))
}

/// The resolved precedences, by name (a later entry hides an earlier one).
pub open spec fn table_view(v: Seq<(String, (u8, bool))>) -> Seq<(Seq<char>, (u8, bool))> {
    v.map_values(|e: (String, (u8, bool))| (e.0@, e.1))
}

/// The last group declared under `name`.
pub open spec fn lookup_group(groups: Seq<(Seq<char>, GroupView)>, name: Seq<char>) -> Option<GroupView>
    decreases groups.len(),
{
    if groups.len() == 0 {
        None
    } else if groups.last().0 == name {
        Some(groups.last().1)
    } else {
        lookup_group(groups.drop_last(), name)
    }
}

/// The last entry for `name`.
pub open spec fn lookup_entry(table: Seq<(Seq<char>, (u8, bool))>, name: Seq<char>) -> Option<(u8, bool)>
    decreases table.len(),
{
    if table.len() == 0 {
        None
    } else if table.last().0 == name {
        Some(table.last().1)
    } else {
        lookup_entry(table.drop_last(), name)
    }
}

/// How many declared groups have no entry in `memo` yet.
pub open spec fn unresolved(groups: Seq<(Seq<char>, GroupView)>, memo: Seq<(Seq<char>, (u8, bool))>) -> nat
    decreases groups.len(),
{
    if groups.len() == 0 {
        0
    } else {
        unresolved(groups.drop_last(), memo) + if lookup_entry(memo, groups.last().0) is None {
            1nat
        } else {
            0nat
        }
    }
}

/// Adding an entry never raises the count of unresolved groups, and an
/// entry for a declared, unresolved group lowers it.
pub proof fn lemma_unresolved_shrinks(groups: Seq<(Seq<char>, GroupView)>, memo: Seq<(Seq<char>, (u8, bool))>, name: Seq<char>, v: (u8, bool))
    requires
        lookup_entry(memo, name) is None,
    ensures
        unresolved(groups, memo.push((name, v))) <= unresolved(groups, memo),
        lookup_group(groups, name) is Some ==> unresolved(groups, memo.push((name, v))) < unresolved(groups, memo),
    decreases groups.len(),
{
    let m2 = memo.push((name, v));
    assert(m2.drop_last() =~= memo);
    if groups.len() > 0 {
        lemma_unresolved_shrinks(groups.drop_last(), memo, name, v);
    }
}

/// One step down from `p`, or `p` itself at the bottom.
pub open spec fn step_down(p: u8) -> u8 {
    if p == 0 {
        0
    } else {
        (p - 1) as u8
    }
}

/// One step up from `p`, or `p` itself at the top.
pub open spec fn step_up(p: u8) -> u8 {
    if p == 255 {
        255
    } else {
        (p + 1) as u8
    }
}

/// The precedence and associativity of group `name`, and `memo` afterwards.
/// A built-in group has its fixed value and a remembered group its entry.
/// Otherwise the group is entered provisionally as `DefaultPrecedence`
/// (which is what a cycle of relations ends in), then resolved: one above
/// the group it is `higherThan`, else one below the group it is
/// `lowerThan`, else the default, with its own associativity; an undeclared
/// group is the default. The result is remembered.
pub open spec fn resolve_group(groups: Seq<(Seq<char>, GroupView)>, memo: Seq<(Seq<char>, (u8, bool))>, name: Seq<char>) -> ((u8, bool), Seq<(Seq<char>, (u8, bool))>)
    decreases unresolved(groups, memo),
{
    match builtin_group(name) {
        Some(b) => (b, memo),
        None => match lookup_entry(memo, name) {
            Some(c) => (c, memo),
            None => {
                let m1 = memo.push((name, (DEFAULT_BP, false)));
                let (res, m2) = match lookup_group(groups, name) {
                    Some(g) => {
                        proof {
                            lemma_unresolved_shrinks(groups, memo, name, (DEFAULT_BP, false));
                        }
                        if g.higher is Some {
                            let (p, m) = resolve_group(groups, m1, g.higher->0);
                            ((step_up(p.0), g.right), m)
                        } else if g.lower is Some {
                            let (p, m) = resolve_group(groups, m1, g.lower->0);
                            ((step_down(p.0), g.right), m)
                        } else {
                            ((DEFAULT_BP, g.right), m1)
                        }
                    },
                    None => ((DEFAULT_BP, false), m1),
                };
                (res, m2.push((name, res)))
            },
        },
    }
}

/// The last entry of `table` for `name` (see [`lookup_entry`]).
pub fn lookup_entry_of(table: &Vec<(String, (u8, bool))>, name: &str) -> (r: Option<(u8, bool)>)
    ensures
        r == lookup_entry(table_view(table@), name@),
{
    let ghost tv = table_view(table@);
    let mut j = table.len();
    assert(tv.take(j as int) =~= tv);
    while j > 0
        invariant
            j <= table@.len(),
            tv == table_view(table@),
            lookup_entry(tv, name@) == lookup_entry(tv.take(j as int), name@),
        decreases j,
    {
        assert(tv.take(j as int).drop_last() =~= tv.take(j - 1));
        assert(tv.take(j as int).last() == (table@[j - 1].0@, table@[j - 1].1));
        if str_same(table[j - 1].0.as_str(), name) {
            return Some(table[j - 1].1);
        }
        j -= 1;
    }
    None
}

/// The index of the last group declared under `name`.
fn lookup_group_index(groups: &Vec<(String, RawGroup)>, name: &str) -> (r: Option<usize>)
    ensures
        match r {
            Some(i) => i < groups@.len() && lookup_group(groups_view(groups@), name@) == Some(groups@[i as int].1@),
            None => lookup_group(groups_view(groups@), name@) is None,
        },
{
    let ghost gv = groups_view(groups@);
    let mut j = groups.len();
    assert(gv.take(j as int) =~= gv);
    while j > 0
        invariant
            j <= groups@.len(),
            gv == groups_view(groups@),
            lookup_group(gv, name@) == lookup_group(gv.take(j as int), name@),
        decreases j,
    {
        assert(gv.take(j as int).drop_last() =~= gv.take(j - 1));
        assert(gv.take(j as int).last() == (groups@[j - 1].0@, groups@[j - 1].1@));
        if str_same(groups[j - 1].0.as_str(), name) {
            return Some(j - 1);
        }
        j -= 1;
    }
    None
}

/// One step up from `p` (see [`step_up`]).
fn step_up_of(p: u8) -> (r: u8)
    ensures
        r == step_up(p),
{
    if p == 255 {
        255
    } else {
        p + 1
    }
}

/// One step down from `p` (see [`step_down`]).
fn step_down_of(p: u8) -> (r: u8)
    ensures
        r == step_down(p),
{
    if p == 0 {
        0
    } else {
        p - 1
    }
}

/// Resolve group `name` against the declared `groups`, remembering results
/// in `memo` (see [`resolve_group`]).
pub fn resolve_group_precedence(name: &str, groups: &Vec<(String, RawGroup)>, memo: &mut Vec<(String, (u8, bool))>) -> (r: (u8, bool))
    ensures
        (r, table_view(final(memo)@)) == resolve_group(groups_view(groups@), table_view(old(memo)@), name@),
    decreases unresolved(groups_view(groups@), table_view(old(memo)@)),
{
    let ghost gv = groups_view(groups@);
    let ghost m0 = table_view(memo@);
    match builtin_group_precedence(name) {
        Some(b) => {
            return b;
        },
        None => {},
    }
    match lookup_entry_of(memo, name) {
        Some(c) => {
            return c;
        },
        None => {},
    }
    memo.push((String::from_str(name), (DEFAULT_BP, false)));
    let ghost m1 = table_view(memo@);
    assert(m1 =~= m0.push((name@, (DEFAULT_BP, false))));
    let resolved = match lookup_group_index(groups, name) {
        Some(i) => {
            proof {
                lemma_unresolved_shrinks(gv, m0, name@, (DEFAULT_BP, false));
            }
            let g = &groups[i].1;
            let right = g.right_associative;
            match &g.higher_than {
                Some(h) => {
                    let (p, _) = resolve_group_precedence(h.as_str(), groups, memo);
                    (step_up_of(p), right)
                },
                None => match &g.lower_than {
                    Some(l) => {
                        let (p, _) = resolve_group_precedence(l.as_str(), groups, memo);
                        (step_down_of(p), right)
                    },
                    None => (DEFAULT_BP, right),
                },
            }
        },
        None => (DEFAULT_BP, false),
    };
    let ghost m2 = table_view(memo@);
    memo.push((String::from_str(name), resolved));
    assert(table_view(memo@) =~= m2.push((name@, resolved)));
    resolved
}

/// The index of the first `{` at or after `j`, or the end.
pub open spec fn brace_from<'a>(toks: Seq<Token<'a>>, j: int) -> int
    decreases toks.len() - j,
{
    if j >= toks.len() || toks[j].kind == TokenKind::LBrace {
        j
    } else {
        brace_from(toks, j + 1)
    }
}

/// The relations read from the tokens from `j` up to the first `}` (or the
/// end), starting from `g`, and the index where reading stopped. Each token
/// is read as a possible `higherThan`, `lowerThan` or `associativity` label,
/// whose value is the token two places on.
pub open spec fn group_body<'a>(toks: Seq<Token<'a>>, j: int, g: GroupView) -> (GroupView, int)
    decreases toks.len() - j,
{
    if j < 0 || j >= toks.len() || toks[j].kind == TokenKind::RBrace {
        (g, j)
    } else {
        let attr = toks[j].text@;
        let value = if j + 2 < toks.len() {
            Some(toks[j + 2].text@)
        } else {
            None
        };
        let g1 = if attr == "higherThan"@ {
            GroupView { higher: value, ..g }
        } else if attr == "lowerThan"@ {
            GroupView { lower: value, ..g }
        } else if attr == "associativity"@ {
            GroupView { right: value == Some("right"@), ..g }
        } else {
            g
        };
        group_body(toks, j + 1, g1)
    }
}

/// The group declared by the `precedencegroup` at `i`: its name (the next
/// token, which must be an identifier), its relations, and where its body
/// ends.
pub open spec fn scan_group<'a>(toks: Seq<Token<'a>>, i: int) -> Option<(Seq<char>, GroupView, int)> {
    if i + 1 < toks.len() && toks[i + 1].kind == TokenKind::Identifier {
        let b = brace_from(toks, i + 2);
        let (g, end) = group_body(toks, b + 1, GroupView { higher: None, lower: None, right: false });
        Some((toks[i + 1].text@, g, end))
    } else {
        None
    }
}

/// The operator spelled by the adjacent operator tokens from `k` on (none
/// after a line break), appended to `acc`, and the index after them.
pub open spec fn op_run<'a>(toks: Seq<Token<'a>>, k: int, acc: Seq<char>) -> (Seq<char>, int)
    decreases toks.len() - k,
{
    if 0 <= k < toks.len() && toks[k].kind == TokenKind::Oper && !toks[k].leading_newline {
        op_run(toks, k + 1, acc + toks[k].text@)
    } else {
        (acc, k)
    }
}

/// The infix operator declared at the `operator` token `i`, its group (the
/// token after a `:`), and the index after the operator: none for an empty
/// operator or a `prefix`/`postfix` one.
pub open spec fn operator_decl<'a>(toks: Seq<Token<'a>>, i: int) -> Option<(Seq<char>, Option<Seq<char>>, int)> {
    let fixity = if i > 0 {
        toks[i - 1].text@
    } else {
        Seq::empty()
    };
    let (op, k) = op_run(toks, i + 1, Seq::empty());
    if op.len() == 0 || fixity == "prefix"@ || fixity == "postfix"@ {
        None
    } else {
        let group = if 0 <= k < toks.len() && toks[k].kind == TokenKind::Colon && k + 1 < toks.len() {
            Some(toks[k + 1].text@)
        } else {
            None
        };
        Some((op, group, k))
    }
}

/// `brace_from` stays in range.
pub proof fn lemma_brace_from<'a>(toks: Seq<Token<'a>>, j: int)
    ensures
        j <= brace_from(toks, j),
        j <= toks.len() ==> brace_from(toks, j) <= toks.len(),
    decreases toks.len() - j,
{
    if !(j >= toks.len() || toks[j].kind == TokenKind::LBrace) {
        lemma_brace_from(toks, j + 1);
    }
}

/// `group_body` stays in range.
pub proof fn lemma_group_body<'a>(toks: Seq<Token<'a>>, j: int, g: GroupView)
    ensures
        j <= group_body(toks, j, g).1,
        0 <= j <= toks.len() ==> group_body(toks, j, g).1 <= toks.len(),
    decreases toks.len() - j,
{
    if !(j < 0 || j >= toks.len() || toks[j].kind == TokenKind::RBrace) {
        let attr = toks[j].text@;
        let value = if j + 2 < toks.len() {
            Some(toks[j + 2].text@)
        } else {
            None
        };
        let g1 = if attr == "higherThan"@ {
            GroupView { higher: value, ..g }
        } else if attr == "lowerThan"@ {
            GroupView { lower: value, ..g }
        } else if attr == "associativity"@ {
            GroupView { right: value == Some("right"@), ..g }
        } else {
            g
        };
        lemma_group_body(toks, j + 1, g1);
    }
}

/// `op_run` stays in range and grows the operator with each token.
pub proof fn lemma_op_run<'a>(toks: Seq<Token<'a>>, k: int, acc: Seq<char>)
    ensures
        k <= op_run(toks, k, acc).1,
        0 <= k <= toks.len() ==> op_run(toks, k, acc).1 <= toks.len(),
        op_run(toks, k, acc).1 == k ==> op_run(toks, k, acc).0 == acc,
    decreases toks.len() - k,
{
    if 0 <= k < toks.len() && toks[k].kind == TokenKind::Oper && !toks[k].leading_newline {
        lemma_op_run(toks, k + 1, acc + toks[k].text@);
    }
}

/// The groups and infix operators declared in the tokens from `i` on, added
/// to `groups` and `ops`, in source order.
pub open spec fn scan_decls<'a>(toks: Seq<Token<'a>>, i: int, groups: Seq<(Seq<char>, GroupView)>, ops: Seq<(Seq<char>, Option<Seq<char>>)>) -> (Seq<(Seq<char>, GroupView)>, Seq<(Seq<char>, Option<Seq<char>>)>)
    decreases toks.len() + 1 - i,
{
    if i < 0 || i >= toks.len() {
        (groups, ops)
    } else {
        let t = toks[i];
        if t.text@ == "precedencegroup"@ && t.kind == TokenKind::Identifier {
            match scan_group(toks, i) {
                Some((name, g, end)) => {
                    proof {
                        lemma_brace_from(toks, i + 2);
                        lemma_group_body(toks, brace_from(toks, i + 2) + 1, GroupView { higher: None, lower: None, right: false });
                    }
                    scan_decls(toks, end, groups.push((name, g)), ops)
                },
                None => scan_decls(toks, i + 1, groups, ops),
            }
        } else if t.text@ == "operator"@ && t.kind == TokenKind::Identifier && operator_decl(toks, i) is Some {
            let (op, g, next) = operator_decl(toks, i)->0;
            proof {
                lemma_op_run(toks, i + 1, Seq::empty());
            }
            scan_decls(toks, next, groups, ops.push((op, g)))
        } else {
            scan_decls(toks, i + 1, groups, ops)
        }
    }
}

/// The operator table: each declared operator with its resolved
/// precedence (an operator without a group gets the default), resolving the
/// groups in declaration order of the operators against one shared memo.
pub open spec fn resolve_ops(groups: Seq<(Seq<char>, GroupView)>, ops: Seq<(Seq<char>, Option<Seq<char>>)>) -> (Seq<(Seq<char>, (u8, bool))>, Seq<(Seq<char>, (u8, bool))>)
    decreases ops.len(),
{
    if ops.len() == 0 {
        (Seq::empty(), Seq::empty())
    } else {
        let (table, memo) = resolve_ops(groups, ops.drop_last());
        let (op, group) = ops.last();
        match group {
            Some(g) => {
                let (bp, m) = resolve_group(groups, memo, g);
                (table.push((op, bp)), m)
            },
            None => (table.push((op, (DEFAULT_BP, false))), memo),
        }
    }
}

/// The precedence table of the operators the tokens declare.
pub open spec fn op_table<'a>(toks: Seq<Token<'a>>) -> Seq<(Seq<char>, (u8, bool))> {
    let (groups, ops) = scan_decls(toks, 0, Seq::empty(), Seq::empty());
    resolve_ops(groups, ops).0
}

/// The declared operators with their written groups.
pub open spec fn ops_view(v: Seq<(String, Option<String>)>) -> Seq<(Seq<char>, Option<Seq<char>>)> {
    v.map_values(|e: (String, Option<String>)| (e.0@, crate::syntax::opt_view(e.1)))
}

/// The index of the first `{` at or after `j`, or the end.
fn brace_index(toks: &Vec<Token>, j: usize) -> (r: usize)
    requires
        j <= toks@.len(),
    ensures
        r == brace_from(toks@, j as int),
        j <= r <= toks@.len(),
{
    let mut k = j;
    while k < toks.len() && toks[k].kind != TokenKind::LBrace
        invariant
            j <= k <= toks@.len(),
            brace_from(toks@, j as int) == brace_from(toks@, k as int),
        decreases toks@.len() - k,
    {
        k += 1;
    }
    k
}

/// Read a group body from token `j` (see [`group_body`]).
fn read_group_body(toks: &Vec<Token>, j: usize) -> (r: (RawGroup, usize))
    requires
        j <= toks@.len() + 1,
    ensures
        (r.0@, r.1 as int) == group_body(toks@, j as int, GroupView { higher: None, lower: None, right: false }),
{
    let mut g = RawGroup { higher_than: None, lower_than: None, right_associative: false };
    let mut k = j;
    assert(g@ == GroupView { higher: None, lower: None, right: false });
    while k < toks.len() && toks[k].kind != TokenKind::RBrace
        invariant
            j <= k,
            k <= toks@.len() + 1,
            group_body(toks@, j as int, GroupView { higher: None, lower: None, right: false }) == group_body(
                toks@,
                k as int,
                g@,
            ),
        decreases toks@.len() - k,
    {
        let attr = toks[k].text;
        let value: Option<&str> = if toks.len() > 2 && k < toks.len() - 2 {
            Some(toks[k + 2].text)
        } else {
            None
        };
        if str_same(attr, "higherThan") {
            g.higher_than = match value {
                Some(v) => Some(String::from_str(v)),
                None => None,
            };
        } else if str_same(attr, "lowerThan") {
            g.lower_than = match value {
                Some(v) => Some(String::from_str(v)),
                None => None,
            };
        } else if str_same(attr, "associativity") {
            g.right_associative = match value {
                Some(v) => str_same(v, "right"),
                None => false,
            };
        }
        k += 1;
    }
    (g, k)
}

/// The operator spelled by the adjacent operator tokens from `k` on (see
/// [`op_run`]).
fn read_op_run(toks: &Vec<Token>, k: usize) -> (r: (String, usize))
    requires
        k <= toks@.len(),
    ensures
        (r.0@, r.1 as int) == op_run(toks@, k as int, Seq::empty()),
        k <= r.1 <= toks@.len(),
{
    let mut op = String::new();
    let mut j = k;
    while j < toks.len() && toks[j].kind == TokenKind::Oper && !toks[j].leading_newline
        invariant
            k <= j <= toks@.len(),
            op_run(toks@, k as int, Seq::empty()) == op_run(toks@, j as int, op@),
        decreases toks@.len() - j,
    {
        op.append(toks[j].text);
        j += 1;
    }
    (op, j)
}

/// The groups and infix operators the tokens declare (see [`scan_decls`]).
fn scan_declarations(toks: &Vec<Token>) -> (r: (Vec<(String, RawGroup)>, Vec<(String, Option<String>)>))
    requires
        toks@.len() < usize::MAX,
    ensures
        (groups_view(r.0@), ops_view(r.1@)) == scan_decls(toks@, 0, Seq::empty(), Seq::empty()),
{
    let mut groups: Vec<(String, RawGroup)> = Vec::new();
    let mut ops: Vec<(String, Option<String>)> = Vec::new();
    let mut i: usize = 0;
    assert(groups_view(groups@) =~= Seq::<(Seq<char>, GroupView)>::empty());
    assert(ops_view(ops@) =~= Seq::<(Seq<char>, Option<Seq<char>>)>::empty());
    while i < toks.len()
        invariant
            i <= toks@.len() + 1,
            toks@.len() < usize::MAX,
            scan_decls(toks@, 0, Seq::empty(), Seq::empty()) == scan_decls(toks@, i as int, groups_view(groups@), ops_view(ops@)),
        decreases toks@.len() + 1 - i,
    {
        let t = toks[i];
        let ghost gv = groups_view(groups@);
        let ghost ov = ops_view(ops@);
        if str_same(t.text, "precedencegroup") && t.kind == TokenKind::Identifier {
            if i + 1 < toks.len() && toks[i + 1].kind == TokenKind::Identifier {
                let name = String::from_str(toks[i + 1].text);
                let b = brace_index(toks, i + 2);
                let (g, end) = read_group_body(toks, b + 1);
                proof {
                    lemma_group_body(toks@, b + 1, GroupView { higher: None, lower: None, right: false });
                }
                let ghost nv = name@;
                let ghost grv = g@;
                groups.push((name, g));
                assert(groups_view(groups@) =~= gv.push((nv, grv)));
                i = end;
            } else {
                i += 1;
            }
        } else if str_same(t.text, "operator") && t.kind == TokenKind::Identifier {
            let fixity: &str = if i > 0 {
                toks[i - 1].text
            } else {
                ""
            };
            proof {
                if i == 0 {
                    reveal_strlit("");
                    assert(fixity@ =~= Seq::<char>::empty());
                }
            }
            assert(fixity@ == (if i > 0 {
                toks@[i - 1].text@
            } else {
                Seq::<char>::empty()
            }));
            let (op, k) = read_op_run(toks, i + 1);
            if op.as_str().unicode_len() == 0 || str_same(fixity, "prefix") || str_same(fixity, "postfix") {
                assert(operator_decl(toks@, i as int) is None);
                i += 1;
            } else {
                let group: Option<String> = if k < toks.len() && toks[k].kind == TokenKind::Colon && k + 1 < toks.len() {
                    Some(String::from_str(toks[k + 1].text))
                } else {
                    None
                };
                let ghost entry = (op@, crate::syntax::opt_view(group));
                assert(operator_decl(toks@, i as int) == Some((op@, crate::syntax::opt_view(group), k as int)));
                ops.push((op, group));
                assert(ops_view(ops@) =~= ov.push(entry));
                i = k;
            }
        } else {
            i += 1;
        }
    }
    (groups, ops)
}

/// Resolve every declared operator's group in order (see [`resolve_ops`]).
fn resolve_operators(groups: &Vec<(String, RawGroup)>, ops: &Vec<(String, Option<String>)>) -> (r: Vec<(String, (u8, bool))>)
    ensures
        table_view(r@) == resolve_ops(groups_view(groups@), ops_view(ops@)).0,
{
    let ghost gv = groups_view(groups@);
    let ghost ov = ops_view(ops@);
    let mut table: Vec<(String, (u8, bool))> = Vec::new();
    let mut memo: Vec<(String, (u8, bool))> = Vec::new();
    let mut k: usize = 0;
    assert(ov.take(0) =~= Seq::<(Seq<char>, Option<Seq<char>>)>::empty());
    assert(table_view(table@) =~= Seq::<(Seq<char>, (u8, bool))>::empty());
    while k < ops.len()
        invariant
            k <= ops@.len(),
            gv == groups_view(groups@),
            ov == ops_view(ops@),
            (table_view(table@), table_view(memo@)) == resolve_ops(gv, ov.take(k as int)),
        decreases ops@.len() - k,
    {
        assert(ov.take(k + 1).drop_last() =~= ov.take(k as int));
        assert(ov.take(k + 1).last() == (ops@[k as int].0@, crate::syntax::opt_view(ops@[k as int].1)));
        let ghost t0 = table_view(table@);
        let bp = match &ops[k].1 {
            Some(g) => resolve_group_precedence(g.as_str(), groups, &mut memo),
            None => (DEFAULT_BP, false),
        };
        let ghost ow = ops@[k as int].0@;
        table.push((ops[k].0.clone(), bp));
        assert(table_view(table@) =~= t0.push((ow, bp)));
        k += 1;
    }
    assert(ov.take(ops@.len() as int) =~= ov);
    table
}

/// The precedence table of the operators `toks` declares (see
/// [`op_table`]).
pub fn collect_operator_precedence(toks: &Vec<Token>) -> (r: Vec<(String, (u8, bool))>)
    requires
        toks@.len() < usize::MAX,
    ensures
        table_view(r@) == op_table(toks@),
{
    let (groups, ops) = scan_declarations(toks);
    resolve_operators(&groups, &ops)
}

/// `(left, right)` binding powers of infix operator `op`: a declared
/// operator's resolved precedence (equal powers when right-associative,
/// the right one a step higher otherwise), else the built-in table's.
pub open spec fn op_binding_power(table: Seq<(Seq<char>, (u8, bool))>, op: Seq<char>) -> (u8, u8) {
    match lookup_entry(table, op) {
        Some((p, right)) => if right {
            (p, p)
        } else {
            (p, step_up(p))
        },
        None => crate::parser::binding_power_of(op),
    }
}

/// The binding powers of `op` under `table` (see [`op_binding_power`]).
pub fn binding_power(table: &Vec<(String, (u8, bool))>, op: &str) -> (r: (u8, u8))
    ensures
        r == op_binding_power(table_view(table@), op@),
{
    match lookup_entry_of(table, op) {
        Some((p, right)) => if right {
            (p, p)
        } else {
            (p, step_up_of(p))
        },
        None => match crate::parser::builtin_binding_power(op) {
            Some(bp) => bp,
            None => (DEFAULT_BP, step_up_of(DEFAULT_BP)),
        },
    }
}

} // verus!
