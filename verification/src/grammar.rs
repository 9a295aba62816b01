//! The grammar of the parser as a model: for each parsing routine, where it
//! stops and the tree it builds from a token index, or `None` where the
//! parser refuses the tokens (the original panics) or never returns.
use vstd::prelude::*;
use crate::token::{keyword_text, BinaryOp, SpecNumber, SpecToken};
use crate::ast::{sblank, NodeKind, SNode};
use crate::parser::{param_scan, spec_precedence};

verus! {

/// What is left to read from index `i`.
pub open spec fn left(ts: Seq<SpecToken>, i: nat) -> nat {
    if i < ts.len() { (ts.len() - i) as nat } else { 0 }
}

/// The token at `i`, or the end of input past the tokens.
pub open spec fn at(ts: Seq<SpecToken>, i: nat) -> SpecToken {
    if i < ts.len() { ts[i as int] } else { SpecToken::Eof }
}

/// The first index from `i` that holds `t` or the end of input.
pub open spec fn skip_scan(ts: Seq<SpecToken>, i: nat, t: SpecToken) -> nat
    decreases left(ts, i),
{
    if i >= ts.len() || ts[i as int] == t || ts[i as int] is Eof {
        i
    } else {
        skip_scan(ts, i + 1, t)
    }
}

/// Whether the tokens from `k` up to the first `=>` are all parentheses,
/// identifiers and commas, and a `=>` comes.
pub open spec fn arrow_ahead(ts: Seq<SpecToken>, k: nat) -> bool
    decreases left(ts, k),
{
    if k >= ts.len() {
        false
    } else if ts[k as int] is Arrow {
        true
    } else if ts[k as int] is LParen || ts[k as int] is RParen || ts[k as int] is Ident || ts[k as int] is Comma {
        arrow_ahead(ts, k + 1)
    } else {
        false
    }
}

/// Whether an arrow function begins at `i`.
pub open spec fn arrow_starts(ts: Seq<SpecToken>, i: nat) -> bool {
    ||| at(ts, i) is LParen && arrow_ahead(ts, i)
    ||| at(ts, i) == SpecToken::Ident("async"@) && at(ts, i + 1) is LParen && arrow_ahead(ts, i + 1)
    ||| at(ts, i) is Ident && at(ts, i + 1) is Arrow
}

/// A node with the given kind and children.
pub open spec fn kids(kind: NodeKind, children: Seq<SNode>) -> SNode {
    SNode { children, ..sblank(kind) }
}

/// A list of expressions used as one.
pub open spec fn exprs(children: Seq<SNode>) -> SNode {
    kids(NodeKind::Exprs, children)
}

/// A node with a text.
pub open spec fn named(kind: NodeKind, text: Seq<char>) -> SNode {
    SNode { text, ..sblank(kind) }
}

/// One expression out of a list: the only one, `undefined` for none, or
/// the list itself.
pub open spec fn one_of(es: Seq<SNode>) -> SNode {
    if es.len() == 1 { es[0] } else if es.len() == 0 { sblank(NodeKind::Undefined) } else { exprs(es) }
}

/// The operator a binary-operator token stands for alone.
pub open spec fn binary_op(t: SpecToken) -> Option<BinaryOp> {
    match t {
        SpecToken::Plus => Some(BinaryOp::Add),
        SpecToken::Minus => Some(BinaryOp::Sub),
        SpecToken::Star => Some(BinaryOp::Mul),
        SpecToken::Slash => Some(BinaryOp::Div),
        SpecToken::Mod => Some(BinaryOp::Mod),
        SpecToken::Eq => Some(BinaryOp::Eq),
        SpecToken::NotEq => Some(BinaryOp::NotEq),
        SpecToken::Lt => Some(BinaryOp::Lt),
        SpecToken::Gt => Some(BinaryOp::Gt),
        SpecToken::LtEq => Some(BinaryOp::LtEq),
        SpecToken::GtEq => Some(BinaryOp::GtEq),
        SpecToken::XOr => Some(BinaryOp::XOr),
        SpecToken::ShiftL => Some(BinaryOp::ShiftL),
        SpecToken::ShiftR => Some(BinaryOp::ShiftR),
        _ => None,
    }
}

/// `parse_expression(multi)`: expressions up to a closing token, a `;`
/// (read), or, when `multi` is off, after the first.
pub open spec fn spec_parse_expression(ts: Seq<SpecToken>, i: nat, multi: bool) -> Option<(nat, Seq<SNode>)>
    decreases left(ts, i), 37nat,
{
    spec_expression_items(ts, i, multi, Seq::empty())
}

/// After an item ending at `j`: stop when not `multi`, else go on when the
/// item read something.
pub open spec fn spec_items_next(ts: Seq<SpecToken>, i: nat, j: nat, multi: bool, acc: Seq<SNode>) -> Option<(nat, Seq<SNode>)>
    decreases left(ts, i), 35nat,
{
    if !multi {
        Some((j, acc))
    } else if j > i && i < ts.len() {
        spec_expression_items(ts, j, multi, acc)
    } else {
        None
    }
}

/// The loop of `parse_expression`, from index `i` with `acc` read.
pub open spec fn spec_expression_items(ts: Seq<SpecToken>, i: nat, multi: bool, acc: Seq<SNode>) -> Option<(nat, Seq<SNode>)>
    decreases left(ts, i), 36nat,
{
    if i >= ts.len() {
        None
    } else {
        let t = ts[i as int];
        match t {
            SpecToken::Try => match spec_parse_try(ts, i + 1) {
                Some((j, n)) => spec_items_next(ts, i, j, multi, acc.push(n)),
                None => None,
            },
            SpecToken::Function => match spec_parse_function(ts, i + 1, true) {
                Some((j, f)) => if j > i {
                    match spec_parse_postfix(ts, j, f, true) {
                        Some((k, e)) => spec_items_next(ts, i, k, multi, acc.push(e)),
                        None => None,
                    }
                } else {
                    None
                },
                None => None,
            },
            SpecToken::Class => match spec_parse_class(ts, i + 1) {
                Some((j, n)) => spec_items_next(ts, i, j, multi, acc.push(n)),
                None => None,
            },
            SpecToken::Let | SpecToken::Const | SpecToken::Var => match spec_parse_var(ts, i + 1) {
                Some((j, n)) => spec_items_next(ts, i, j, multi, acc.push(n)),
                None => None,
            },
            SpecToken::If => match spec_parse_if(ts, i + 1) {
                Some((j, n)) => spec_items_next(ts, i, j, multi, acc.push(n)),
                None => None,
            },
            SpecToken::While | SpecToken::For => match spec_parse_loop(ts, i, Seq::empty()) {
                Some((j, n)) => spec_items_next(ts, i, j, multi, acc.push(n)),
                None => None,
            },
            SpecToken::Do => match spec_parse_do(ts, i + 1) {
                Some((j, n)) => spec_items_next(ts, i, j, multi, acc.push(n)),
                None => None,
            },
            SpecToken::Break | SpecToken::Continue | SpecToken::Return | SpecToken::Yield | SpecToken::Throw =>
                match spec_parse_return(ts, i) {
                    Some((j, n)) => spec_items_next(ts, i, j, multi, acc.push(n)),
                    None => None,
                },
            SpecToken::Semicolon => Some((i + 1, acc)),
            SpecToken::Comma => if multi { spec_items_next(ts, i, i + 1, multi, acc) } else { Some((i, acc)) },
            SpecToken::RBrace | SpecToken::RParen | SpecToken::RBracket | SpecToken::Eof | SpecToken::Colon
            | SpecToken::Else | SpecToken::Case | SpecToken::Default => Some((i, acc)),
            SpecToken::Switch => match spec_parse_switch(ts, i) {
                Some((j, n)) => spec_items_next(ts, i, j, multi, acc.push(n)),
                None => None,
            },
            _ => if t is Ident && at(ts, i + 1) is Colon {
                match spec_parse_block(ts, i + 2) {
                    Some((j, code)) => spec_items_next(ts, i, j, multi,
                        acc.push(SNode { children: code, ..named(NodeKind::Label, t->Ident_0) })),
                    None => None,
                }
            } else if arrow_starts(ts, i) {
                match spec_parse_arrow(ts, i) {
                    Some((j, n)) => spec_items_next(ts, i, j, multi, acc.push(n)),
                    None => None,
                }
            } else {
                match spec_parse_binary(ts, i, 0) {
                    Some((j, e)) => if j >= i && j < ts.len() {
                        match ts[j as int] {
                            SpecToken::Assign(op) => match spec_parse_expression(ts, j + 1, false) {
                                Some((k, rhs)) => {
                                    let value = match op {
                                        Some(o) => SNode { op: Some(o), children: seq![e, exprs(rhs)], ..sblank(NodeKind::Binary) },
                                        None => exprs(rhs),
                                    };
                                    spec_items_next(ts, i, k, multi, acc.push(kids(NodeKind::Assign, seq![e, value])))
                                },
                                None => None,
                            },
                            _ => spec_items_next(ts, i, j, multi, acc.push(e)),
                        }
                    } else {
                        None
                    },
                    None => None,
                }
            },
        }
    }
}

/// An arrow function at `i`: its parameters, then `=>`, then a block or
/// an expression that it returns.
pub open spec fn spec_parse_arrow(ts: Seq<SpecToken>, i: nat) -> Option<(nat, SNode)>
    decreases left(ts, i), 34nat,
{
    let p: nat = if at(ts, i) == SpecToken::Ident("async"@) { i + 1 } else { i };
    match param_scan(ts, p, Seq::empty()) {
        Some((j, params)) => if j >= i && j < ts.len() && ts[j as int] is Arrow && i < ts.len() {
            let f = SNode { text: "anonymous function"@, names: params, ..sblank(NodeKind::Function) };
            if at(ts, j + 1) is LBrace {
                match spec_parse_block(ts, j + 1) {
                    Some((k, body)) => Some((k, SNode { children: body, ..f })),
                    None => None,
                }
            } else {
                match spec_parse_expression(ts, j + 1, true) {
                    Some((k, e)) => Some((k, SNode { children: seq![kids(NodeKind::Return, seq![exprs(e)])], ..f })),
                    None => None,
                }
            }
        } else {
            None
        },
        None => None,
    }
}

/// `parse_block`: a `{`...`}` block, or else an expression and an
/// optional `;`.
pub open spec fn spec_parse_block(ts: Seq<SpecToken>, i: nat) -> Option<(nat, Seq<SNode>)>
    decreases left(ts, i), 39nat,
{
    if !(at(ts, i) is LBrace) {
        match spec_parse_expression(ts, i, true) {
            Some((j, es)) => Some((if at(ts, j) is Semicolon { j + 1 } else { j }, es)),
            None => None,
        }
    } else if i < ts.len() {
        spec_block_items(ts, i + 1, Seq::empty())
    } else {
        None
    }
}

/// The statements of a block from `i` to its `}` (read) or the end.
pub open spec fn spec_block_items(ts: Seq<SpecToken>, i: nat, acc: Seq<SNode>) -> Option<(nat, Seq<SNode>)>
    decreases left(ts, i), 38nat,
{
    if i >= ts.len() {
        None
    } else if ts[i as int] is Eof {
        Some((i, acc))
    } else if ts[i as int] is RBrace {
        Some((i + 1, acc))
    } else {
        match spec_parse_expression(ts, i, true) {
            Some((j, es)) => if es.len() == 0 && j == i {
                if ts[i as int] is Comma { spec_block_items(ts, i + 1, acc) } else { None }
            } else if j > i {
                spec_block_items(ts, j, acc + es)
            } else {
                None
            },
            None => None,
        }
    }
}

/// `do` body `while (` condition `)` with an optional `;`, from after the
/// `do`.
pub open spec fn spec_parse_do(ts: Seq<SpecToken>, i: nat) -> Option<(nat, SNode)>
    decreases left(ts, i), 44nat,
{
    match spec_parse_block(ts, i) {
        Some((j, body)) => if j >= i && at(ts, j) is While && at(ts, j + 1) is LParen {
            match spec_parse_expression(ts, j + 2, true) {
                Some((k, c)) => if at(ts, k) is RParen {
                    let e = if at(ts, k + 1) is Semicolon { k + 2 } else { k + 1 };
                    Some((e, SNode {
                        flag: true,
                        children: seq![sblank(NodeKind::Empty), exprs(c), sblank(NodeKind::Empty), exprs(body), sblank(NodeKind::Empty)],
                        ..sblank(NodeKind::Loop)
                    }))
                } else {
                    None
                },
                None => None,
            }
        } else {
            None
        },
        None => None,
    }
}

/// `LoopExpr::parse_with_label`: a `while` or `for` loop at `i`.
pub open spec fn spec_parse_loop(ts: Seq<SpecToken>, i: nat, label: Seq<Seq<char>>) -> Option<(nat, SNode)>
    decreases left(ts, i), 32nat,
{
    if i >= ts.len() || ts[i as int] is Eof || !(at(ts, i + 1) is LParen) {
        None
    } else {
        let is_for = ts[i as int] is For;
        let k = i + 2;
        match spec_loop_init(ts, k, is_for) {
            Some((j, init, of)) => if j >= k {
                let cond_res = if of is Some {
                    Some((j, sblank(NodeKind::Empty)))
                } else if at(ts, j) is Semicolon {
                    Some((j, SNode { flag: true, ..sblank(NodeKind::Bool) }))
                } else {
                    match spec_parse_expression(ts, j, true) {
                        Some((q, c)) => Some((q, exprs(c))),
                        None => None,
                    }
                };
                match cond_res {
                    None => None,
                    Some((j2, cond)) => if j2 < j {
                        None
                    } else {
                    let j3: nat = if at(ts, j2) is Semicolon { j2 + 1 } else { j2 };
                    let upd = if of is Some || at(ts, j3) is RParen {
                        Some((j3, sblank(NodeKind::Empty)))
                    } else {
                        match spec_parse_expression(ts, j3, true) {
                            Some((q, u)) => Some((q, exprs(u))),
                            None => None,
                        }
                    };
                    match upd {
                        Some((j4, update)) => if j4 >= j3 && at(ts, j4) is RParen {
                            match spec_parse_block(ts, j4 + 1) {
                                Some((j5, body)) => Some((j5, SNode {
                                    names: label,
                                    children: seq![init, cond, update, exprs(body),
                                        match of { Some(f) => f, None => sblank(NodeKind::Empty) }],
                                    ..sblank(NodeKind::Loop)
                                })),
                                None => None,
                            }
                        } else {
                            None
                        },
                        None => None,
                    }
                    },
                }
            } else {
                None
            },
            None => None,
        }
    }
}

/// The first clause of a loop, from `k` after its `(`: where it stops, the
/// initializer (`Empty` for none), and the `of` binding if it has one.
pub open spec fn spec_loop_init(ts: Seq<SpecToken>, k: nat, is_for: bool) -> Option<(nat, SNode, Option<SNode>)>
    decreases left(ts, k), 45nat,
{
    if !is_for {
        Some((k, sblank(NodeKind::Empty), None))
    } else if at(ts, k) is Semicolon {
        Some((k + 1, sblank(NodeKind::Empty), None))
    } else if at(ts, k) is Let || at(ts, k) is Const || at(ts, k) is Var || at(ts, k + 1) is Of {
        let n: nat = if at(ts, k + 1) is Of { k } else { k + 1 };
        match at(ts, n) {
            SpecToken::Ident(name) => {
                let m = n + 1;
                let rest = if at(ts, m) is Assign {
                    if at(ts, m) == SpecToken::Assign(None) {
                        match spec_parse_expression(ts, m + 1, true) {
                            Some((q, e)) => Some((q, seq![exprs(e)], None::<SNode>)),
                            None => None,
                        }
                    } else {
                        None
                    }
                } else if at(ts, m) is Of {
                    match spec_parse_expression(ts, m + 1, true) {
                        Some((q, e)) => Some((q, Seq::<SNode>::empty(),
                            Some(SNode { children: seq![exprs(e)], ..named(NodeKind::ForOf, name) }))),
                        None => None,
                    }
                } else {
                    Some((m, Seq::<SNode>::empty(), None::<SNode>))
                };
                match rest {
                    Some((q, init, of)) => {
                        let q2: nat = if at(ts, q) is Semicolon { q + 1 } else { q };
                        Some((q2, SNode { children: init, ..named(NodeKind::VarDecl, name) }, of))
                    },
                    None => None,
                }
            },
            _ => None,
        }
    } else {
        match spec_parse_expression(ts, k, true) {
            Some((q, e)) => Some((if at(ts, q) is Semicolon { q + 1 } else { q }, exprs(e), None)),
            None => None,
        }
    }
}

/// `Return::parse`: `break`, `continue`, `return`, `yield`, `yield break`
/// or `throw` at `i`, with a label after `break` or `continue` if an
/// identifier follows, and the expression after it.
pub open spec fn spec_parse_return(ts: Seq<SpecToken>, i: nat) -> Option<(nat, SNode)>
    decreases left(ts, i), 30nat,
{
    if i >= ts.len() || ts[i as int] is Eof {
        None
    } else {
        let t = ts[i as int];
        let yb = t is Yield && at(ts, i + 1) is Break;
        let j: nat = if yb { i + 2 } else { i + 1 };
        let label: Seq<Seq<char>> = if (t is Break || t is Continue) && at(ts, j) is Ident {
            seq![at(ts, j)->Ident_0]
        } else {
            Seq::empty()
        };
        let kind = match t {
            SpecToken::Break => NodeKind::Break,
            SpecToken::Continue => NodeKind::Continue,
            SpecToken::Return => NodeKind::Return,
            SpecToken::Yield => if yb { NodeKind::YieldBreak } else { NodeKind::Yield },
            _ => NodeKind::Throw,
        };
        if !(t is Break || t is Continue || t is Return || t is Yield || t is Throw) {
            None
        } else {
            match spec_parse_expression(ts, j, false) {
                Some((k, e)) => Some((if at(ts, k) is Semicolon { k + 1 } else { k },
                    SNode { names: label, children: seq![exprs(e)], ..sblank(kind) })),
                None => None,
            }
        }
    }
}

/// `SwitchExpr::parse`: `switch (` value `) {` cases `}` at `i`.
pub open spec fn spec_parse_switch(ts: Seq<SpecToken>, i: nat) -> Option<(nat, SNode)>
    decreases left(ts, i), 29nat,
{
    if !(at(ts, i) is Switch && at(ts, i + 1) is LParen) {
        None
    } else {
        match spec_parse_expression(ts, i + 2, true) {
            Some((j, v)) => if j >= i && at(ts, j) is RParen && at(ts, j + 1) is LBrace {
                match spec_switch_items(ts, j + 2, Seq::empty()) {
                    Some((k, cases)) => Some((k, kids(NodeKind::Switch, seq![exprs(v)] + cases))),
                    None => None,
                }
            } else {
                None
            },
            None => None,
        }
    }
}

/// The cases of a switch with the statements of the last one appended to.
pub open spec fn add_to_last_case(cases: Seq<SNode>, es: Seq<SNode>) -> Seq<SNode> {
    let c = cases.last();
    let n = c.children.len();
    let body = c.children[n - 1];
    cases.update(cases.len() - 1, SNode {
        children: c.children.update(n - 1, exprs(body.children + es)),
        ..c
    })
}

/// The cases of a switch from `i` to its `}` (read) or the end.
pub open spec fn spec_switch_items(ts: Seq<SpecToken>, i: nat, cases: Seq<SNode>) -> Option<(nat, Seq<SNode>)>
    decreases left(ts, i), 46nat,
{
    if i >= ts.len() {
        None
    } else if ts[i as int] is Eof {
        Some((i, cases))
    } else if ts[i as int] is RBrace {
        Some((i + 1, cases))
    } else if ts[i as int] is Case {
        match spec_parse_binary(ts, i + 1, 0) {
            Some((j, c)) => if j >= i && at(ts, j) is Colon {
                spec_switch_items(ts, j + 1, cases.push(kids(NodeKind::Case, seq![c, exprs(Seq::empty())])))
            } else {
                None
            },
            None => None,
        }
    } else if ts[i as int] is Default {
        if at(ts, i + 1) is Colon {
            spec_switch_items(ts, i + 2, cases.push(kids(NodeKind::DefaultCase, seq![exprs(Seq::empty())])))
        } else {
            None
        }
    } else {
        let cs = if cases.len() == 0 {
            seq![kids(NodeKind::DefaultCase, seq![exprs(Seq::empty())])]
        } else {
            cases
        };
        match spec_parse_expression(ts, i, true) {
            Some((j, es)) => if es.len() == 0 && j == i {
                spec_switch_items(ts, i + 1, cs)
            } else if j > i {
                spec_switch_items(ts, j, add_to_last_case(cs, es))
            } else {
                None
            },
            None => None,
        }
    }
}

/// `Operator::parse_binary(min)`: a unary-prefixed operand or a call or
/// primary, then binary operators binding at least as tight as `min`.
pub open spec fn spec_parse_binary(ts: Seq<SpecToken>, i: nat, min: u8) -> Option<(nat, SNode)>
    decreases left(ts, i), 27nat,
{
    if i >= ts.len() {
        None
    } else {
        let lhs = match ts[i as int] {
            SpecToken::Plus => spec_parse_binary(ts, i + 1, 26),
            SpecToken::Minus => match spec_parse_binary(ts, i + 1, 26) {
                Some((j, e)) => Some((j, SNode {
                    op: Some(BinaryOp::Sub),
                    children: seq![sblank(NodeKind::FloatZero), e],
                    ..sblank(NodeKind::Binary)
                })),
                None => None,
            },
            SpecToken::PlusPlus => match spec_parse_binary(ts, i + 1, 26) {
                Some((j, e)) => Some((j, SNode { flag: true, children: seq![e], ..sblank(NodeKind::Prefix) })),
                None => None,
            },
            SpecToken::MinusMinus => match spec_parse_binary(ts, i + 1, 26) {
                Some((j, e)) => Some((j, kids(NodeKind::Prefix, seq![e]))),
                None => None,
            },
            SpecToken::Not => match spec_parse_binary(ts, i + 1, 26) {
                Some((j, e)) => Some((j, kids(NodeKind::Not, seq![e]))),
                None => None,
            },
            _ => spec_parse_call_or_primary(ts, i, min == 0),
        };
        match lhs {
            Some((j, e)) => if j >= i { spec_binary_ops(ts, j, e, min) } else { None },
            None => None,
        }
    }
}

/// `instanceof`: a call of the class's `Symbol.hasInstance` with the value.
pub open spec fn instance_check(value: SNode, class: SNode) -> SNode {
    let has = kids(NodeKind::Member, seq![named(NodeKind::Ident, "Symbol"@), named(NodeKind::Str, "hasInstance"@)]);
    kids(NodeKind::Call, seq![kids(NodeKind::Member, seq![class, has]), exprs(seq![value])])
}

/// The binary operators after an operand `lhs` that ends at `j`.
pub open spec fn spec_binary_ops(ts: Seq<SpecToken>, j: nat, lhs: SNode, min: u8) -> Option<(nat, SNode)>
    decreases left(ts, j), 26nat,
{
    if j >= ts.len() {
        None
    } else {
        match spec_precedence(ts[j as int], if j + 1 < ts.len() { Some(ts[j + 1int]) } else { None }) {
            None => Some((j, lhs)),
            Some((l, r)) => if l < min {
                Some((j, lhs))
            } else {
                let t = ts[j as int];
                if t is InstanceOf {
                    match spec_parse_binary(ts, j + 1, 19) {
                        Some((k, class)) => if k > j { spec_binary_ops(ts, k, instance_check(lhs, class), min) } else { None },
                        None => None,
                    }
                } else if t is QMark && min == 0 {
                    match spec_parse_conditional(ts, j, lhs) {
                        Some((k, c)) => if k > j { spec_binary_ops(ts, k, c, min) } else { None },
                        None => None,
                    }
                } else if t is QMark || t is Colon {
                    Some((j, lhs))
                } else {
                    let (op, p): (BinaryOp, nat) = if t is And {
                        if at(ts, j + 1) is And { (BinaryOp::LogAnd, j + 2) } else { (BinaryOp::BinAnd, j + 1) }
                    } else if t is Or {
                        if at(ts, j + 1) is Or { (BinaryOp::LogOr, j + 2) } else { (BinaryOp::BinOr, j + 1) }
                    } else {
                        (binary_op(t)->0, j + 1)
                    };
                    match spec_parse_binary(ts, p, r) {
                        Some((k, rhs)) => if k > j {
                            spec_binary_ops(ts, k, SNode { op: Some(op), children: seq![lhs, rhs], ..sblank(NodeKind::Binary) }, min)
                        } else {
                            None
                        },
                        None => None,
                    }
                }
            },
        }
    }
}

/// `parse_call_or_primary(root)`: a primary and what follows it.
pub open spec fn spec_parse_call_or_primary(ts: Seq<SpecToken>, i: nat, root: bool) -> Option<(nat, SNode)>
    decreases left(ts, i), 25nat,
{
    match spec_parse_primary(ts, i) {
        Some((j, e)) => if j >= i { spec_parse_postfix(ts, j, e, root) } else { None },
        None => None,
    }
}

/// `parse_primary`: one operand at `i`.
pub open spec fn spec_parse_primary(ts: Seq<SpecToken>, i: nat) -> Option<(nat, SNode)>
    decreases left(ts, i), 24nat,
{
    if i >= ts.len() || ts[i as int] is Eof {
        None
    } else {
        match ts[i as int] {
            SpecToken::Typeof => match spec_parse_call_or_primary(ts, i + 1, false) {
                Some((j, e)) => Some((j, kids(NodeKind::Typeof, seq![e]))),
                None => None,
            },
            SpecToken::Void => match spec_parse_expression(ts, i + 1, true) {
                Some((j, es)) => Some((j, exprs(es.push(sblank(NodeKind::Undefined))))),
                None => None,
            },
            SpecToken::LBrace => spec_parse_object(ts, i),
            SpecToken::LBracket => spec_group_items(ts, i + 1, true, Seq::empty()),
            SpecToken::LParen => spec_group_items(ts, i + 1, false, Seq::empty()),
            SpecToken::Function => spec_parse_function(ts, i + 1, false),
            SpecToken::Class => spec_parse_class(ts, i + 1),
            SpecToken::Ident(name) => Some((i + 1, named(NodeKind::Ident, name))),
            SpecToken::Number(n) => Some((i + 1, SNode { lit: Some(n), ..sblank(NodeKind::Number) })),
            SpecToken::TemplateStart => spec_template_items(ts, i + 1, Seq::empty()),
            SpecToken::Str(s) => Some((i + 1, named(NodeKind::Str, s))),
            SpecToken::True => Some((i + 1, SNode { flag: true, ..sblank(NodeKind::Bool) })),
            SpecToken::False => Some((i + 1, sblank(NodeKind::Bool))),
            SpecToken::Undefined => Some((i + 1, sblank(NodeKind::Undefined))),
            SpecToken::Null => Some((i + 1, sblank(NodeKind::Null))),
            SpecToken::New => None,
            SpecToken::Minus => match at(ts, i + 1) {
                SpecToken::Number(n) => Some((i + 2, SNode { flag: true, lit: Some(n), ..sblank(NodeKind::Number) })),
                _ => None,
            },
            t => match keyword_text(t) {
                Some(w) => Some((i + 1, named(NodeKind::Ident, w))),
                None => None,
            },
        }
    }
}

/// The elements of a `[`...`]` (when `array`) or `(`...`)` from `i`.
pub open spec fn spec_group_items(ts: Seq<SpecToken>, i: nat, array: bool, acc: Seq<SNode>) -> Option<(nat, SNode)>
    decreases left(ts, i), 47nat,
{
    if i >= ts.len() || ts[i as int] is Eof {
        None
    } else if (array && ts[i as int] is RBracket) || (!array && ts[i as int] is RParen) {
        Some((i + 1, if array { kids(NodeKind::Array, acc) } else { one_of_group(acc) }))
    } else {
        match spec_parse_expression(ts, i, true) {
            Some((j, es)) => if j > i {
                spec_group_items(ts, j, array, acc + es)
            } else {
                None
            },
            None => None,
        }
    }
}

/// A parenthesised group: its only expression, or the list of them.
pub open spec fn one_of_group(es: Seq<SNode>) -> SNode {
    if es.len() == 1 { es[0] } else { exprs(es) }
}

/// `parse_postfix(root)`: member reads, indexing, calls, `++`, `--` and,
/// at the root, `?:` after the operand `e` that ends at `j`.
pub open spec fn spec_parse_postfix(ts: Seq<SpecToken>, j: nat, e: SNode, root: bool) -> Option<(nat, SNode)>
    decreases left(ts, j), 22nat,
{
    if j >= ts.len() {
        None
    } else {
        match ts[j as int] {
            SpecToken::QMark => if root {
                match spec_parse_conditional(ts, j, e) {
                    Some((k, c)) => if k > j { spec_parse_postfix(ts, k, c, root) } else { None },
                    None => None,
                }
            } else {
                Some((j, e))
            },
            SpecToken::Dot => match keyword_text(at(ts, j + 1)) {
                Some(w) => if j + 1 < ts.len() && !(ts[j + 1int] is Eof) {
                    spec_parse_postfix(ts, j + 2, kids(NodeKind::Member, seq![e, named(NodeKind::Str, w)]), root)
                } else {
                    None
                },
                None => None,
            },
            SpecToken::LBracket => match spec_parse_expression(ts, j + 1, true) {
                Some((k, idx)) => if k > j && at(ts, k) is RBracket {
                    spec_parse_postfix(ts, k + 1, kids(NodeKind::Member, seq![e, exprs(idx)]), root)
                } else {
                    None
                },
                None => None,
            },
            SpecToken::LParen => match spec_parse_expression(ts, j + 1, true) {
                Some((k, args)) => if k > j {
                    spec_parse_postfix(ts, if at(ts, k) is RParen { k + 1 } else { k },
                        kids(NodeKind::Call, seq![e, exprs(args)]), root)
                } else {
                    None
                },
                None => None,
            },
            SpecToken::PlusPlus => spec_parse_postfix(ts, j + 1, SNode { flag: true, children: seq![e], ..sblank(NodeKind::Postfix) }, root),
            SpecToken::MinusMinus => spec_parse_postfix(ts, j + 1, kids(NodeKind::Postfix, seq![e]), root),
            _ => Some((j, e)),
        }
    }
}

/// `ConditionalOp::parse`: `?` at `j`, the value if true, and `:` and the
/// value if false, after the condition `cond`.
pub open spec fn spec_parse_conditional(ts: Seq<SpecToken>, j: nat, cond: SNode) -> Option<(nat, SNode)>
    decreases left(ts, j), 21nat,
{
    if j >= ts.len() || ts[j as int] is Eof {
        None
    } else {
        match spec_parse_expression(ts, j + 1, false) {
            Some((k, t)) => if k > j {
                if !(at(ts, k) is Colon) {
                    Some((k, kids(NodeKind::Conditional, seq![cond, one_of(t), sblank(NodeKind::Undefined)])))
                } else {
                    match spec_parse_expression(ts, k + 1, false) {
                        Some((q, f)) => Some((q, kids(NodeKind::Conditional, seq![cond, one_of(t), one_of(f)]))),
                        None => None,
                    }
                }
            } else {
                None
            },
            None => None,
        }
    }
}

/// `Object::parse`: an object literal at its `{`.
pub open spec fn spec_parse_object(ts: Seq<SpecToken>, i: nat) -> Option<(nat, SNode)>
    decreases left(ts, i), 20nat,
{
    if i >= ts.len() || ts[i as int] is Eof {
        None
    } else {
        spec_object_items(ts, i + 1, Seq::empty())
    }
}

/// The entries of an object literal from `i` to its `}` (read).
pub open spec fn spec_object_items(ts: Seq<SpecToken>, i: nat, acc: Seq<SNode>) -> Option<(nat, SNode)>
    decreases left(ts, i), 48nat,
{
    if i >= ts.len() {
        None
    } else if ts[i as int] is Eof {
        None
    } else if ts[i as int] is RBrace {
        Some((i + 1, kids(NodeKind::Object, acc)))
    } else {
        let star = ts[i as int] is Star;
        let k: nat = if star { i + 1 } else { i };
        let key = match at(ts, k) {
            SpecToken::Ident(v) => Some((k + 1, named(NodeKind::Str, v))),
            _ => spec_parse_primary(ts, k),
        };
        match key {
            Some((m, key)) => if m >= k {
                let entry = if at(ts, m) is Colon {
                    match spec_parse_expression(ts, m + 1, false) {
                        Some((q, v)) => Some((q, exprs(v))),
                        None => None,
                    }
                } else if at(ts, m) is LParen {
                    match spec_parse_function(ts, m, false) {
                        Some((q, f)) => Some((q, SNode { flag: star, ..f })),
                        None => None,
                    }
                } else {
                    None
                };
                match entry {
                    Some((q, v)) => if q > i {
                        let q2: nat = if at(ts, q) is Comma { q + 1 } else { q };
                        spec_object_items(ts, q2, acc.push(key).push(v))
                    } else {
                        None
                    },
                    None => None,
                }
            } else {
                None
            },
            None => None,
        }
    }
}

/// `FunctionDecl::parse`: after `function` at `i`: `*`, a name, the
/// parameter list and the body.
pub open spec fn spec_parse_function(ts: Seq<SpecToken>, i: nat, insert: bool) -> Option<(nat, SNode)>
    decreases left(ts, i), 18nat,
{
    let generator = at(ts, i) is Star;
    let n: nat = if generator { i + 1 } else { i };
    let (name, p): (Seq<char>, nat) = match at(ts, n) {
        SpecToken::Ident(s) => (s, n + 1),
        _ => ("anonymous function"@, n),
    };
    let lp = skip_scan(ts, p, SpecToken::LParen);
    if !(at(ts, lp) is LParen) {
        None
    } else {
        match param_scan(ts, lp + 1, Seq::empty()) {
            Some((j, params)) => {
                let b = skip_scan(ts, j, SpecToken::LBrace);
                if b > i && i < ts.len() {
                    match spec_parse_block(ts, b) {
                        Some((k, body)) => Some((k, SNode {
                            text: name,
                            flag: generator,
                            flag2: insert,
                            names: params,
                            children: body,
                            ..sblank(NodeKind::Function)
                        })),
                        None => None,
                    }
                } else {
                    None
                }
            },
            None => None,
        }
    }
}

/// `ClassDecl::parse`: after `class` at `i`: the name, `extends` and a
/// superclass, and the methods between braces.
pub open spec fn spec_parse_class(ts: Seq<SpecToken>, i: nat) -> Option<(nat, SNode)>
    decreases left(ts, i), 17nat,
{
    match at(ts, i) {
        SpecToken::Ident(name) => {
            let sup = if at(ts, i + 1) == SpecToken::Ident("extends"@) {
                spec_parse_call_or_primary(ts, i + 2, true)
            } else {
                Some((i + 1, sblank(NodeKind::Empty)))
            };
            match sup {
                Some((j, s)) => if j > i && at(ts, j) is LBrace {
                    match spec_class_items(ts, j + 1, Seq::empty()) {
                        Some((k, methods)) => Some((k, SNode { children: seq![s] + methods, ..named(NodeKind::Class, name) })),
                        None => None,
                    }
                } else {
                    None
                },
                None => None,
            }
        },
        _ => None,
    }
}

/// The methods of a class from `i` to its `}` (read) or the end; tokens
/// that begin no method are passed over.
pub open spec fn spec_class_items(ts: Seq<SpecToken>, i: nat, acc: Seq<SNode>) -> Option<(nat, Seq<SNode>)>
    decreases left(ts, i), 49nat,
{
    if i >= ts.len() {
        None
    } else if ts[i as int] is Eof {
        Some((i, acc))
    } else if ts[i as int] is RBrace {
        Some((i + 1, acc))
    } else if ts[i as int] is Ident {
        match spec_parse_function(ts, i, false) {
            Some((j, f)) => if j > i { spec_class_items(ts, j, acc.push(f)) } else { None },
            None => None,
        }
    } else {
        spec_class_items(ts, i + 1, acc)
    }
}

/// `VarDecl::parse`: after `let`, `const` or `var` at `i`: the name, and
/// `=` and the initial value if they come, and an optional `;`.
pub open spec fn spec_parse_var(ts: Seq<SpecToken>, i: nat) -> Option<(nat, SNode)>
    decreases left(ts, i), 15nat,
{
    match at(ts, i) {
        SpecToken::Ident(name) => {
            let init = if at(ts, i + 1) is Assign {
                if at(ts, i + 1) == SpecToken::Assign(None) {
                    match spec_parse_expression(ts, i + 2, false) {
                        Some((k, e)) => Some((k, seq![exprs(e)])),
                        None => None,
                    }
                } else {
                    None
                }
            } else {
                Some((i + 1, Seq::<SNode>::empty()))
            };
            match init {
                Some((k, c)) => Some((if at(ts, k) is Semicolon { k + 1 } else { k },
                    SNode { children: c, ..named(NodeKind::VarDecl, name) })),
                None => None,
            }
        },
        _ => None,
    }
}

/// The body of a branch of an `if`: a block, or one expression and an
/// optional `;`.
pub open spec fn spec_if_body(ts: Seq<SpecToken>, i: nat) -> Option<(nat, Seq<SNode>)>
    decreases left(ts, i), 40nat,
{
    if at(ts, i) is LBrace {
        spec_parse_block(ts, i)
    } else {
        match spec_parse_expression(ts, i, false) {
            Some((j, es)) => Some((if at(ts, j) is Semicolon { j + 1 } else { j }, es)),
            None => None,
        }
    }
}

/// A parenthesised condition from its `(` at `i`: where it ends, after the
/// `)`, and the condition.
pub open spec fn spec_condition(ts: Seq<SpecToken>, i: nat) -> Option<(nat, SNode)>
    decreases left(ts, i), 9nat,
{
    if !(at(ts, i) is LParen) || i >= ts.len() {
        None
    } else {
        match spec_parse_expression(ts, i + 1, true) {
            Some((j, c)) => if j > i && at(ts, j) is RParen { Some((j + 1, exprs(c))) } else { None },
            None => None,
        }
    }
}

/// `IfExpr::parse`: after `if` at `i`: the condition and body, then each
/// `else if` or `else` branch.
pub open spec fn spec_parse_if(ts: Seq<SpecToken>, i: nat) -> Option<(nat, SNode)>
    decreases left(ts, i), 13nat,
{
    match spec_condition(ts, i) {
        Some((j, c)) => if j > i && i < ts.len() {
            match spec_if_body(ts, j) {
                Some((k, body)) => if k >= j { spec_else_items(ts, k, seq![c, exprs(body)]) } else { None },
                None => None,
            }
        } else {
            None
        },
        None => None,
    }
}

/// The `else` branches of an `if` from `i`.
pub open spec fn spec_else_items(ts: Seq<SpecToken>, i: nat, acc: Seq<SNode>) -> Option<(nat, SNode)>
    decreases left(ts, i), 12nat,
{
    if !(at(ts, i) is Else) || i >= ts.len() {
        Some((i, kids(NodeKind::If, acc)))
    } else {
        let c = if at(ts, i + 1) is If {
            spec_condition(ts, i + 2)
        } else {
            Some((i + 1, SNode { flag: true, ..sblank(NodeKind::Bool) }))
        };
        match c {
            Some((j, cond)) => if j > i {
                match spec_if_body(ts, j) {
                    Some((k, body)) => if k >= j { spec_else_items(ts, k, acc.push(cond).push(exprs(body))) } else { None },
                    None => None,
                }
            } else {
                None
            },
            None => None,
        }
    }
}

/// `Try::parse`: after `try` at `i`: the block, a `catch` with its optional
/// parameters and block, and a `finally` and its block.
pub open spec fn spec_parse_try(ts: Seq<SpecToken>, i: nat) -> Option<(nat, SNode)>
    decreases left(ts, i), 43nat,
{
    match spec_parse_block(ts, i) {
        Some((j, block)) => if j >= i && i < ts.len() {
            let catch = if at(ts, j) is Catch {
                let params = if at(ts, j + 1) is LParen {
                    match param_scan(ts, j + 1, Seq::empty()) {
                        Some((k, ps)) => Some((k, true, ps)),
                        None => None,
                    }
                } else {
                    Some((j + 1, false, Seq::<Seq<char>>::empty()))
                };
                match params {
                    Some((k, has, ps)) => if k > j {
                        match spec_parse_block(ts, k) {
                            Some((q, body)) => Some((q, SNode { flag: has, names: ps, children: body, ..sblank(NodeKind::Catch) })),
                            None => None,
                        }
                    } else {
                        None
                    },
                    None => None,
                }
            } else {
                Some((j, sblank(NodeKind::Empty)))
            };
            match catch {
                Some((k, c)) => if k >= j {
                    if at(ts, k) is Finally {
                        match spec_parse_block(ts, k + 1) {
                            Some((q, f)) => Some((q, kids(NodeKind::Try, seq![exprs(block), c, exprs(f)]))),
                            None => None,
                        }
                    } else {
                        Some((k, kids(NodeKind::Try, seq![exprs(block), c, sblank(NodeKind::Empty)])))
                    }
                } else {
                    None
                },
                None => None,
            }
        } else {
            None
        },
        None => None,
    }
}

/// The parts of a template literal from `i` to its end (read) or the end
/// of input.
pub open spec fn spec_template_items(ts: Seq<SpecToken>, i: nat, acc: Seq<SNode>) -> Option<(nat, SNode)>
    decreases left(ts, i), 10nat,
{
    if i >= ts.len() {
        None
    } else {
        match ts[i as int] {
            SpecToken::Eof => Some((i, kids(NodeKind::Template, acc))),
            SpecToken::TemplateEnd => Some((i + 1, kids(NodeKind::Template, acc))),
            SpecToken::TemplateString(v) => spec_template_items(ts, i + 1, acc.push(named(NodeKind::Str, v))),
            SpecToken::TemplateExprStart => match spec_parse_expression(ts, i + 1, true) {
                Some((j, e)) => if j > i && at(ts, j) is RBrace {
                    spec_template_items(ts, j + 1, acc.push(exprs(e)))
                } else {
                    None
                },
                None => None,
            },
            _ => None,
        }
    }
}

/// `parse_all_expressions`: expression lists until one is empty or the
/// input ends.
pub open spec fn spec_all_expressions(ts: Seq<SpecToken>, i: nat, acc: Seq<SNode>) -> Option<(nat, Seq<SNode>)>
    decreases left(ts, i), 41nat,
{
    if i >= ts.len() {
        None
    } else if ts[i as int] is Eof {
        Some((i, acc))
    } else {
        match spec_parse_expression(ts, i, true) {
            Some((j, es)) => if es.len() == 0 {
                Some((j, acc))
            } else if j > i {
                spec_all_expressions(ts, j, acc + es)
            } else {
                None
            },
            None => None,
        }
    }
}

/// `parse_program`: statements until the end of input; a token that
/// begins nothing is passed over.
pub open spec fn spec_program_items(ts: Seq<SpecToken>, i: nat, acc: Seq<SNode>) -> Option<(nat, Seq<SNode>)>
    decreases left(ts, i), 42nat,
{
    if i >= ts.len() {
        None
    } else if ts[i as int] is Eof {
        Some((i, acc))
    } else {
        match spec_all_expressions(ts, i, Seq::empty()) {
            Some((j, stmt)) => if j < i || j >= ts.len() {
                None
            } else if stmt.len() > 0 {
                if j > i { spec_program_items(ts, j, acc + stmt) } else { None }
            } else if ts[j as int] == ts[i as int] {
                if ts[j as int] is Eof { Some((j, acc)) } else if j + 1 > i { spec_program_items(ts, j + 1, acc) } else { None }
            } else if j > i {
                spec_program_items(ts, j, acc)
            } else {
                None
            }
            ,
            None => None,
        }
    }
}

/// The statements of a whole token list.
pub open spec fn spec_parse_program(ts: Seq<SpecToken>) -> Option<Seq<SNode>> {
    match spec_program_items(ts, 0, Seq::empty()) {
        Some((_, body)) => Some(body),
        None => None,
    }
}

} // verus!
