//! The parsing routines, each proved to build what its model in `grammar`
//! says from the same tokens.
use vstd::prelude::*;
use crate::token::{keyword_text, BinaryOp, SpecToken, Token};
use crate::text::str_eq;
use crate::lexer::views;
use crate::ast::{
    blank, copy_node, copy_literal, lemma_nodes_view_add, lemma_nodes_view_push, make, node_view,
    nodes_view, sblank, texts_of, Node, NodeKind, SNode,
};
use crate::grammar::{
    add_to_last_case, arrow_ahead, arrow_starts, at, binary_op, exprs, kids, left, named, one_of, one_of_group, skip_scan, spec_all_expressions, spec_binary_ops, spec_block_items, spec_class_items, spec_condition, spec_else_items, spec_expression_items, spec_group_items, spec_if_body, spec_items_next, spec_loop_init, spec_object_items, spec_parse_arrow, spec_parse_binary, spec_parse_block, spec_parse_call_or_primary, spec_parse_class, spec_parse_conditional, spec_parse_do, spec_parse_expression, spec_parse_function, spec_parse_if, spec_parse_loop, spec_parse_object, spec_parse_postfix, spec_parse_primary, spec_parse_return, spec_parse_switch, spec_parse_try, spec_parse_var, spec_program_items, spec_switch_items, spec_template_items,
};
use crate::parser::{param_scan, precedence, same_token, ParseError};

verus! {

/// The tokens end with the end of input.
pub open spec fn tokens_wf(s: Seq<SpecToken>) -> bool {
    s.len() > 0 && s.last() is Eof
}

/// A parsed list as a value.
pub open spec fn res_list(r: Result<(usize, Vec<Node>), ParseError>) -> Option<(nat, Seq<SNode>)> {
    match r {
        Ok((j, v)) => Some((j as nat, nodes_view(v@))),
        Err(_) => None,
    }
}

/// A parsed node as a value.
pub open spec fn res_node(r: Result<(usize, Node), ParseError>) -> Option<(nat, SNode)> {
    match r {
        Ok((j, n)) => Some((j as nat, node_view(n))),
        Err(_) => None,
    }
}

/// The token at `i`, the end of input past the tokens.
fn tok(ts: &Vec<Token>, i: usize) -> (r: &Token)
    requires tokens_wf(views(ts@)),
    ensures
        r@ == at(views(ts@), i as nat),
        !(r@ is Eof) ==> i + 1 < ts@.len(),
        ts@.len() <= usize::MAX,
{
    let n = ts.len();
    if i < n {
        proof {
            if !(ts@[i as int]@ is Eof) && i + 1 >= n {
                assert(views(ts@)[i as int] == views(ts@).last());
            }
        }
        &ts[i]
    } else {
        assert(views(ts@)[n - 1] == ts@[n - 1]@);
        &ts[n - 1]
    }
}

/// The token `k` places after `i`.
fn peek(ts: &Vec<Token>, i: usize, k: usize) -> (r: &Token)
    requires tokens_wf(views(ts@)),
    ensures
        r@ == at(views(ts@), (i + k) as nat),
        !(r@ is Eof) ==> i + k + 1 < ts@.len(),
        ts@.len() <= usize::MAX,
{
    let n = ts.len();
    if i < n && k < n - i {
        tok(ts, i + k)
    } else {
        let r = tok(ts, n - 1);
        assert(views(ts@)[n - 1] == views(ts@).last());
        r
    }
}

/// `j`, or past a `;` standing there.
fn skip_semi(ts: &Vec<Token>, j: usize) -> (r: usize)
    requires tokens_wf(views(ts@)),
    ensures r == (if at(views(ts@), j as nat) is Semicolon { j + 1 } else { j as int }),
{
    let t = tok(ts, j);
    match t {
        Token::Semicolon => j + 1,
        _ => j,
    }
}

/// `v` with `n` added.
fn push_node(v: &mut Vec<Node>, n: Node)
    ensures nodes_view(final(v)@) == nodes_view(old(v)@).push(node_view(n)),
{
    proof {
        lemma_nodes_view_push(v@, n);
    }
    v.push(n);
}

/// `v` with `w` added.
fn append_nodes(v: &mut Vec<Node>, w: Vec<Node>)
    ensures nodes_view(final(v)@) == nodes_view(old(v)@) + nodes_view(w@),
{
    let mut w = w;
    proof {
        lemma_nodes_view_add(v@, w@);
    }
    v.append(&mut w);
}

/// A list of one node.
fn one(a: Node) -> (r: Vec<Node>)
    ensures nodes_view(r@) == seq![node_view(a)],
{
    let mut v = Vec::new();
    push_node(&mut v, a);
    assert(nodes_view(Seq::<Node>::empty()) =~= Seq::<SNode>::empty());
    assert(seq![node_view(a)] =~= Seq::<SNode>::empty().push(node_view(a)));
    v
}

/// A list of two nodes.
fn two(a: Node, b: Node) -> (r: Vec<Node>)
    ensures nodes_view(r@) == seq![node_view(a), node_view(b)],
{
    let mut v = one(a);
    push_node(&mut v, b);
    assert(seq![node_view(a), node_view(b)] =~= seq![node_view(a)].push(node_view(b)));
    v
}

/// A list of three nodes.
fn three(a: Node, b: Node, c: Node) -> (r: Vec<Node>)
    ensures nodes_view(r@) == seq![node_view(a), node_view(b), node_view(c)],
{
    let mut v = two(a, b);
    push_node(&mut v, c);
    assert(seq![node_view(a), node_view(b), node_view(c)] =~= seq![node_view(a), node_view(b)].push(node_view(c)));
    v
}

/// A node with children.
fn kids_node(kind: NodeKind, children: Vec<Node>) -> (r: Node)
    ensures node_view(r) == kids(kind, nodes_view(children@)),
{
    let r = make(kind, String::new(), false, None, Vec::new(), children);
    assert(texts_of(Seq::<String>::empty()) =~= Seq::<Seq<char>>::empty());
    r
}

/// A list used as one expression.
fn exprs_node(children: Vec<Node>) -> (r: Node)
    ensures node_view(r) == exprs(nodes_view(children@)),
{
    kids_node(NodeKind::Exprs, children)
}

/// A node with a text.
fn named_node(kind: NodeKind, text: String) -> (r: Node)
    ensures node_view(r) == named(kind, text@),
{
    let r = make(kind, text, false, None, Vec::new(), Vec::new());
    assert(texts_of(Seq::<String>::empty()) =~= Seq::<Seq<char>>::empty());
    assert(nodes_view(Seq::<Node>::empty()) =~= Seq::<SNode>::empty());
    r
}

/// A node with a flag.
fn flag_node(kind: NodeKind, flag: bool, children: Vec<Node>) -> (r: Node)
    ensures node_view(r) == (SNode { flag, children: nodes_view(children@), ..sblank(kind) }),
{
    let r = make(kind, String::new(), flag, None, Vec::new(), children);
    assert(texts_of(Seq::<String>::empty()) =~= Seq::<Seq<char>>::empty());
    r
}

/// The lone blank node of a kind.
fn leaf(kind: NodeKind) -> (r: Node)
    ensures node_view(r) == sblank(kind),
{
    blank(kind)
}

/// The names of a parameter list from `i`.
pub fn scan_params(ts: &Vec<Token>, i: usize) -> (r: Result<(usize, Vec<String>), ParseError>)
    requires tokens_wf(views(ts@)),
    ensures
        match (r, param_scan(views(ts@), i as nat, Seq::empty())) {
            (Ok((j, v)), Some((k, ns))) => j == k && texts_of(v@) == ns,
            (Err(_), None) => true,
            _ => false,
        },
{
    let ghost s = views(ts@);
    let mut params: Vec<String> = Vec::new();
    let mut k = i;
    assert(texts_of(params@) =~= Seq::<Seq<char>>::empty());
    loop
        invariant
            tokens_wf(s),
            s == views(ts@),
            param_scan(s, k as nat, texts_of(params@)) == param_scan(s, i as nat, Seq::empty()),
        decreases left(s, k as nat),
    {
        if k >= ts.len() {
            return Err(ParseError::ExpectedCloseParen(k));
        }
        match tok(ts, k) {
            Token::Eof => {
                return Err(ParseError::ExpectedCloseParen(k));
            },
            Token::RParen => {
                return Ok((k + 1, params));
            },
            Token::Arrow => {
                return Ok((k, params));
            },
            Token::Ident(name) => {
                let ghost before = params@;
                params.push(name.clone());
                assert(texts_of(params@) =~= texts_of(before).push(s[k as int]->Ident_0));
            },
            _ => {},
        }
        let comma = match peek(ts, k, 1) {
            Token::Comma => true,
            _ => false,
        };
        k = if comma { k + 2 } else { k + 1 };
    }
}

/// The first index from `i` holding `t` or the end of input.
fn skip_until(ts: &Vec<Token>, i: usize, t: &Token) -> (r: usize)
    requires tokens_wf(views(ts@)),
    ensures r as nat == skip_scan(views(ts@), i as nat, t@),
{
    let ghost s = views(ts@);
    let mut k = i;
    while k < ts.len()
        invariant
            tokens_wf(s),
            s == views(ts@),
            skip_scan(s, k as nat, t@) == skip_scan(s, i as nat, t@),
        decreases left(s, k as nat),
    {
        let c = tok(ts, k);
        let stop = match c {
            Token::Eof => true,
            _ => same_token(c, t),
        };
        if stop {
            return k;
        }
        k = k + 1;
    }
    k
}

/// Whether an arrow follows from `k` over parentheses, names and commas.
fn arrow_ahead_at(ts: &Vec<Token>, k: usize) -> (r: bool)
    requires tokens_wf(views(ts@)),
    ensures r == arrow_ahead(views(ts@), k as nat),
{
    let ghost s = views(ts@);
    let mut q = k;
    while q < ts.len()
        invariant
            tokens_wf(s),
            s == views(ts@),
            arrow_ahead(s, q as nat) == arrow_ahead(s, k as nat),
        decreases left(s, q as nat),
    {
        match tok(ts, q) {
            Token::Arrow => {
                return true;
            },
            Token::LParen | Token::RParen | Token::Ident(_) | Token::Comma => {},
            _ => {
                return false;
            },
        }
        q = q + 1;
    }
    false
}

/// Whether the token is the identifier `async`.
fn is_async(t: &Token) -> (r: bool)
    ensures r == (t@ == SpecToken::Ident("async"@)),
{
    match t {
        Token::Ident(s) => str_eq(s.as_str(), "async"),
        _ => false,
    }
}

/// Whether an arrow function begins at `i`.
fn arrow_starts_at(ts: &Vec<Token>, i: usize) -> (r: bool)
    requires tokens_wf(views(ts@)),
    ensures r == arrow_starts(views(ts@), i as nat),
{
    let t = tok(ts, i);
    let a = match t {
        Token::LParen => arrow_ahead_at(ts, i),
        _ => false,
    };
    if a {
        return true;
    }
    if is_async(t) {
        let b = match peek(ts, i, 1) {
            Token::LParen => arrow_ahead_at(ts, i + 1),
            _ => false,
        };
        if b {
            return true;
        }
    }
    match (t, peek(ts, i, 1)) {
        (Token::Ident(_), Token::Arrow) => true,
        _ => false,
    }
}

/// The text of a keyword or identifier token.
fn keyword_of(t: &Token) -> (r: Option<String>)
    ensures
        match r {
            Some(w) => keyword_text(t@) == Some(w@),
            None => keyword_text(t@) is None,
        },
{
    let has = match t {
        Token::Function | Token::Class | Token::Return | Token::Let | Token::Const | Token::Var
        | Token::New | Token::True | Token::False | Token::Undefined | Token::Null | Token::While
        | Token::For | Token::Do | Token::Break | Token::Continue | Token::Yield | Token::If
        | Token::Else | Token::Switch | Token::Case | Token::Default | Token::Of | Token::Typeof
        | Token::Void | Token::InstanceOf | Token::Try | Token::Catch | Token::Finally | Token::Throw
        | Token::Ident(_) => true,
        _ => false,
    };
    if has {
        Some(String::from_str(t.as_keyword()))
    } else {
        None
    }
}

/// The operator a binary-operator token stands for alone.
fn op_of(t: &Token) -> (r: Option<BinaryOp>)
    ensures r == binary_op(t@),
{
    match t {
        Token::Plus => Some(BinaryOp::Add),
        Token::Minus => Some(BinaryOp::Sub),
        Token::Star => Some(BinaryOp::Mul),
        Token::Slash => Some(BinaryOp::Div),
        Token::Mod => Some(BinaryOp::Mod),
        Token::Eq => Some(BinaryOp::Eq),
        Token::NotEq => Some(BinaryOp::NotEq),
        Token::Lt => Some(BinaryOp::Lt),
        Token::Gt => Some(BinaryOp::Gt),
        Token::LtEq => Some(BinaryOp::LtEq),
        Token::GtEq => Some(BinaryOp::GtEq),
        Token::XOr => Some(BinaryOp::XOr),
        Token::ShiftL => Some(BinaryOp::ShiftL),
        Token::ShiftR => Some(BinaryOp::ShiftR),
        _ => None,
    }
}

/// One expression out of a list.
fn one_of_node(es: Vec<Node>) -> (r: Node)
    ensures node_view(r) == one_of(nodes_view(es@)),
{
    let mut es = es;
    proof {
        crate::ast::lemma_nodes_view_len(es@);
    }
    if es.len() == 1 {
        assert(es@ =~= Seq::<Node>::empty().push(es@[0]));
        proof {
            lemma_nodes_view_push(Seq::<Node>::empty(), es@[0]);
        }
        let e = es.pop().unwrap();
        e
    } else if es.len() == 0 {
        leaf(NodeKind::Undefined)
    } else {
        exprs_node(es)
    }
}

/// A parenthesised group as one expression.
fn one_of_group_node(es: Vec<Node>) -> (r: Node)
    ensures node_view(r) == one_of_group(nodes_view(es@)),
{
    let mut es = es;
    proof {
        crate::ast::lemma_nodes_view_len(es@);
    }
    if es.len() == 1 {
        assert(es@ =~= Seq::<Node>::empty().push(es@[0]));
        proof {
            lemma_nodes_view_push(Seq::<Node>::empty(), es@[0]);
        }
        let e = es.pop().unwrap();
        e
    } else {
        exprs_node(es)
    }
}

/// `parse_expression(multi)` from `i`.
#[verifier::rlimit(60)]
#[verifier::spinoff_prover]
pub fn parse_expression_at(ts: &Vec<Token>, i: usize, multi: bool) -> (r: Result<(usize, Vec<Node>), ParseError>)
    requires tokens_wf(views(ts@)),
    ensures res_list(r) == spec_parse_expression(views(ts@), i as nat, multi),
    decreases left(views(ts@), i as nat), 37nat, 0nat,
{
    let acc: Vec<Node> = Vec::new();
    assert(nodes_view(acc@) =~= Seq::<SNode>::empty());
    expression_items(ts, i, multi, acc)
}

/// After an item ending at `j`.
#[verifier::rlimit(60)]
#[verifier::spinoff_prover]
fn items_next(ts: &Vec<Token>, i: usize, j: usize, multi: bool, acc: Vec<Node>) -> (r: Result<(usize, Vec<Node>), ParseError>)
    requires tokens_wf(views(ts@)),
    ensures res_list(r) == spec_items_next(views(ts@), i as nat, j as nat, multi, nodes_view(acc@)),
    decreases left(views(ts@), i as nat), 35nat, 0nat,
{
    if !multi {
        Ok((j, acc))
    } else if j > i && i < ts.len() {
        expression_items(ts, j, multi, acc)
    } else {
        Err(ParseError::Unexpected(i))
    }
}

/// The loop of `parse_expression`.
#[verifier::rlimit(100)]
#[verifier::spinoff_prover]
fn expression_items(ts: &Vec<Token>, i: usize, multi: bool, acc: Vec<Node>) -> (r: Result<(usize, Vec<Node>), ParseError>)
    requires tokens_wf(views(ts@)),
    ensures res_list(r) == spec_expression_items(views(ts@), i as nat, multi, nodes_view(acc@)),
    decreases left(views(ts@), i as nat), 36nat, 1nat,
{
    let ghost s = views(ts@);
    let mut acc = acc;
    if i >= ts.len() {
        return Err(ParseError::Unexpected(i));
    }
    let t = tok(ts, i);
    match t {
        Token::Try => {
            let (j, n) = parse_try(ts, i + 1)?;
            push_node(&mut acc, n);
            items_next(ts, i, j, multi, acc)
        },
        Token::Function => {
            let (j, f) = parse_function(ts, i + 1, true)?;
            if j > i {
                let (k, e) = parse_postfix(ts, j, f, true)?;
                push_node(&mut acc, e);
                items_next(ts, i, k, multi, acc)
            } else {
                Err(ParseError::Unexpected(i))
            }
        },
        Token::Class => {
            let (j, n) = parse_class(ts, i + 1)?;
            push_node(&mut acc, n);
            items_next(ts, i, j, multi, acc)
        },
        Token::Let | Token::Const | Token::Var => {
            let (j, n) = parse_var(ts, i + 1)?;
            push_node(&mut acc, n);
            items_next(ts, i, j, multi, acc)
        },
        Token::If => {
            let (j, n) = parse_if(ts, i + 1)?;
            push_node(&mut acc, n);
            items_next(ts, i, j, multi, acc)
        },
        Token::While | Token::For => {
            let label: Vec<String> = Vec::new();
            assert(texts_of(label@) =~= Seq::<Seq<char>>::empty());
            let (j, n) = parse_loop_at(ts, i, label)?;
            push_node(&mut acc, n);
            items_next(ts, i, j, multi, acc)
        },
        Token::Do => {
            let (j, n) = parse_do(ts, i + 1)?;
            push_node(&mut acc, n);
            items_next(ts, i, j, multi, acc)
        },
        Token::Break | Token::Continue | Token::Return | Token::Yield | Token::Throw => {
            let (j, n) = parse_return(ts, i)?;
            push_node(&mut acc, n);
            items_next(ts, i, j, multi, acc)
        },
        Token::Semicolon => Ok((i + 1, acc)),
        Token::Comma => if multi { items_next(ts, i, i + 1, multi, acc) } else { Ok((i, acc)) },
        Token::RBrace | Token::RParen | Token::RBracket | Token::Eof | Token::Colon | Token::Else
        | Token::Case | Token::Default => Ok((i, acc)),
        Token::Switch => {
            let (j, n) = parse_switch(ts, i)?;
            push_node(&mut acc, n);
            items_next(ts, i, j, multi, acc)
        },
        _ => expression_other(ts, i, multi, acc),
    }
}

/// The loop of `parse_expression` at a token that starts no statement of
/// its own: a label, an arrow function, or an expression that may be
/// assigned to.
#[verifier::rlimit(100)]
#[verifier::spinoff_prover]
fn expression_other(ts: &Vec<Token>, i: usize, multi: bool, acc: Vec<Node>) -> (r: Result<(usize, Vec<Node>), ParseError>)
    requires
        tokens_wf(views(ts@)),
        i < ts@.len(),
        !(views(ts@)[i as int] is Try || views(ts@)[i as int] is Function || views(ts@)[i as int] is Class
            || views(ts@)[i as int] is Let || views(ts@)[i as int] is Const || views(ts@)[i as int] is Var
            || views(ts@)[i as int] is If || views(ts@)[i as int] is While || views(ts@)[i as int] is For
            || views(ts@)[i as int] is Do || views(ts@)[i as int] is Break || views(ts@)[i as int] is Continue
            || views(ts@)[i as int] is Return || views(ts@)[i as int] is Yield || views(ts@)[i as int] is Throw
            || views(ts@)[i as int] is Semicolon || views(ts@)[i as int] is Comma || views(ts@)[i as int] is RBrace
            || views(ts@)[i as int] is RParen || views(ts@)[i as int] is RBracket || views(ts@)[i as int] is Eof
            || views(ts@)[i as int] is Colon || views(ts@)[i as int] is Else || views(ts@)[i as int] is Case
            || views(ts@)[i as int] is Default || views(ts@)[i as int] is Switch),
    ensures res_list(r) == spec_expression_items(views(ts@), i as nat, multi, nodes_view(acc@)),
    decreases left(views(ts@), i as nat), 36nat, 0nat,
{
    let mut acc = acc;
    let t = tok(ts, i);
    let label_name = match (t, peek(ts, i, 1)) {
        (Token::Ident(name), Token::Colon) => Some(name),
        _ => None,
    };
    if let Some(name) = label_name {
        let (j, code) = parse_block_at(ts, i + 2)?;
        let mut n = named_node(NodeKind::Label, name.clone());
        n.children = code;
        push_node(&mut acc, n);
        items_next(ts, i, j, multi, acc)
    } else if arrow_starts_at(ts, i) {
        let (j, n) = parse_arrow(ts, i)?;
        push_node(&mut acc, n);
        items_next(ts, i, j, multi, acc)
    } else {
        let (j, e) = parse_binary_at(ts, i, 0)?;
        if j >= i && j < ts.len() {
            let assign = match tok(ts, j) {
                Token::Assign(op) => Some(*op),
                _ => None,
            };
            match assign {
                Some(op) => {
                    let (k, rhs) = parse_expression_at(ts, j + 1, false)?;
                    let value = match op {
                        Some(o) => {
                            let left = copy_node(&e);
                            let v = make(NodeKind::Binary, String::new(), false, Some(o), Vec::new(), two(left, exprs_node(rhs)));
                            assert(texts_of(Seq::<String>::empty()) =~= Seq::<Seq<char>>::empty());
                            v
                        },
                        None => exprs_node(rhs),
                    };
                    push_node(&mut acc, kids_node(NodeKind::Assign, two(e, value)));
                    items_next(ts, i, k, multi, acc)
                },
                None => {
                    push_node(&mut acc, e);
                    items_next(ts, i, j, multi, acc)
                },
            }
        } else {
            Err(ParseError::Unexpected(i))
        }
    }
}

/// An arrow function at `i`.
#[verifier::rlimit(60)]
#[verifier::spinoff_prover]
fn parse_arrow(ts: &Vec<Token>, i: usize) -> (r: Result<(usize, Node), ParseError>)
    requires tokens_wf(views(ts@)),
    ensures res_node(r) == spec_parse_arrow(views(ts@), i as nat),
    decreases left(views(ts@), i as nat), 34nat, 0nat,
{
    let p = if is_async(tok(ts, i)) { i + 1 } else { i };
    let (j, params) = scan_params(ts, p)?;
    let arrow = match tok(ts, j) {
        Token::Arrow => true,
        _ => false,
    };
    if j >= i && j < ts.len() && arrow && i < ts.len() {
        let brace = match peek(ts, j, 1) {
            Token::LBrace => true,
            _ => false,
        };
        let (k, body) = if brace {
            parse_block_at(ts, j + 1)?
        } else {
            let (k, e) = parse_expression_at(ts, j + 1, true)?;
            (k, one(kids_node(NodeKind::Return, one(exprs_node(e)))))
        };
        let mut f = named_node(NodeKind::Function, String::from_str("anonymous function"));
        f.names = params;
        f.children = body;
        Ok((k, f))
    } else {
        Err(ParseError::Unexpected(i))
    }
}

/// `parse_block` from `i`.
#[verifier::rlimit(60)]
#[verifier::spinoff_prover]
pub fn parse_block_at(ts: &Vec<Token>, i: usize) -> (r: Result<(usize, Vec<Node>), ParseError>)
    requires tokens_wf(views(ts@)),
    ensures res_list(r) == spec_parse_block(views(ts@), i as nat),
    decreases left(views(ts@), i as nat), 39nat, 0nat,
{
    let brace = match tok(ts, i) {
        Token::LBrace => true,
        _ => false,
    };
    if !brace {
        let (j, es) = parse_expression_at(ts, i, true)?;
        Ok((skip_semi(ts, j), es))
    } else if i < ts.len() {
        let acc: Vec<Node> = Vec::new();
        assert(nodes_view(acc@) =~= Seq::<SNode>::empty());
        block_items(ts, i + 1, acc)
    } else {
        Err(ParseError::Unexpected(i))
    }
}

/// The statements of a block.
#[verifier::rlimit(60)]
#[verifier::spinoff_prover]
fn block_items(ts: &Vec<Token>, i: usize, acc: Vec<Node>) -> (r: Result<(usize, Vec<Node>), ParseError>)
    requires tokens_wf(views(ts@)),
    ensures res_list(r) == spec_block_items(views(ts@), i as nat, nodes_view(acc@)),
    decreases left(views(ts@), i as nat), 38nat, 0nat,
{
    let mut acc = acc;
    if i >= ts.len() {
        return Err(ParseError::Unexpected(i));
    }
    match tok(ts, i) {
        Token::Eof => Ok((i, acc)),
        Token::RBrace => Ok((i + 1, acc)),
        t => {
            let (j, es) = parse_expression_at(ts, i, true)?;
            proof {
                crate::ast::lemma_nodes_view_len(es@);
            }
            if es.len() == 0 && j == i {
                match t {
                    Token::Comma => block_items(ts, i + 1, acc),
                    _ => Err(ParseError::Unexpected(i)),
                }
            } else if j > i {
                append_nodes(&mut acc, es);
                block_items(ts, j, acc)
            } else {
                Err(ParseError::Unexpected(i))
            }
        },
    }
}

/// `do` ... `while (`...`)` from after the `do`.
#[verifier::rlimit(60)]
#[verifier::spinoff_prover]
fn parse_do(ts: &Vec<Token>, i: usize) -> (r: Result<(usize, Node), ParseError>)
    requires tokens_wf(views(ts@)),
    ensures res_node(r) == spec_parse_do(views(ts@), i as nat),
    decreases left(views(ts@), i as nat), 44nat, 0nat,
{
    let (j, body) = parse_block_at(ts, i)?;
    let ok = match (tok(ts, j), peek(ts, j, 1)) {
        (Token::While, Token::LParen) => true,
        _ => false,
    };
    if j >= i && ok {
        let (k, c) = parse_expression_at(ts, j + 2, true)?;
        let close = match tok(ts, k) {
            Token::RParen => true,
            _ => false,
        };
        if close {
            let semi = match peek(ts, k, 1) {
                Token::Semicolon => true,
                _ => false,
            };
            let e = if semi { k + 2 } else { k + 1 };
            let ghost cv = nodes_view(c@);
            let ghost bv = nodes_view(body@);
            let mut children = three(leaf(NodeKind::Empty), exprs_node(c), leaf(NodeKind::Empty));
            push_node(&mut children, exprs_node(body));
            push_node(&mut children, leaf(NodeKind::Empty));
            assert(nodes_view(children@) =~= seq![sblank(NodeKind::Empty), exprs(cv), sblank(NodeKind::Empty), exprs(bv), sblank(NodeKind::Empty)]);
            let n = flag_node(NodeKind::Loop, true, children);
            Ok((e, n))
        } else {
            Err(ParseError::Unexpected(k))
        }
    } else {
        Err(ParseError::Unexpected(j))
    }
}

/// A node that may be absent, as a value.
pub open spec fn opt_node(o: Option<Node>) -> Option<SNode> {
    match o {
        Some(n) => Some(node_view(n)),
        None => None,
    }
}

/// The condition of a loop from `j`: none after an `of` binding, `true`
/// when it is left out.
pub open spec fn loop_cond(ts: Seq<SpecToken>, j: nat, has_of: bool) -> Option<(nat, SNode)> {
    if has_of {
        Some((j, sblank(NodeKind::Empty)))
    } else if at(ts, j) is Semicolon {
        Some((j, SNode { flag: true, ..sblank(NodeKind::Bool) }))
    } else {
        match spec_parse_expression(ts, j, true) {
            Some((q, c)) => Some((q, exprs(c))),
            None => None,
        }
    }
}

/// The update clause and the body of a loop from `j2`, and the loop.
pub open spec fn loop_tail(ts: Seq<SpecToken>, j2: nat, init: SNode, cond: SNode, of: Option<SNode>, label: Seq<Seq<char>>) -> Option<(nat, SNode)> {
    let j3: nat = if at(ts, j2) is Semicolon { j2 + 1 } else { j2 };
    let upd = if of is Some || at(ts, j3) is RParen {
        Some((j3, sblank(NodeKind::Empty)))
    } else {
        match spec_parse_expression(ts, j3, true) {
            Some((q, u)) => Some((q, exprs(u))),
            None => None,
        }
    };
    match upd {
        Some((j4, update)) => if j4 >= j3 && at(ts, j4) is RParen {
            match spec_parse_block(ts, j4 + 1) {
                Some((j5, body)) => Some((j5, SNode {
                    names: label,
                    children: seq![init, cond, update, exprs(body),
                        match of { Some(f) => f, None => sblank(NodeKind::Empty) }],
                    ..sblank(NodeKind::Loop)
                })),
                None => None,
            }
        } else {
            None
        },
        None => None,
    }
}

/// `LoopExpr::parse_with_label` at `i`.
#[verifier::rlimit(60)]
#[verifier::spinoff_prover]
pub fn parse_loop_at(ts: &Vec<Token>, i: usize, label: Vec<String>) -> (r: Result<(usize, Node), ParseError>)
    requires tokens_wf(views(ts@)),
    ensures res_node(r) == spec_parse_loop(views(ts@), i as nat, texts_of(label@)),
    decreases left(views(ts@), i as nat), 32nat, 0nat,
{
    if i >= ts.len() {
        return Err(ParseError::Unexpected(i));
    }
    let t = tok(ts, i);
    let paren = match peek(ts, i, 1) {
        Token::LParen => true,
        _ => false,
    };
    let eof = match t {
        Token::Eof => true,
        _ => false,
    };
    if eof || !paren {
        return Err(ParseError::Unexpected(i));
    }
    let is_for = match t {
        Token::For => true,
        _ => false,
    };
    let k = i + 2;
    let (j, init, of) = loop_init(ts, k, is_for)?;
    if j < k {
        return Err(ParseError::Unexpected(j));
    }
    let ghost s = views(ts@);
    let ghost sof = spec_loop_init(s, k as nat, is_for).unwrap().2;
    assert(opt_node(of) == sof);
    let (j2, cond) = loop_cond_at(ts, j, of.is_some())?;
    if j2 < j {
        return Err(ParseError::Unexpected(j2));
    }
    loop_tail_at(ts, j2, init, cond, of, label)
}

/// `loop_cond` at `j`.
#[verifier::rlimit(60)]
#[verifier::spinoff_prover]
fn loop_cond_at(ts: &Vec<Token>, j: usize, has_of: bool) -> (r: Result<(usize, Node), ParseError>)
    requires tokens_wf(views(ts@)),
    ensures res_node(r) == loop_cond(views(ts@), j as nat, has_of),
    decreases left(views(ts@), j as nat), 50nat, 0nat,
{
    let semi_j = match tok(ts, j) {
        Token::Semicolon => true,
        _ => false,
    };
    assert(nodes_view(Seq::<Node>::empty()) =~= Seq::<SNode>::empty());
    if has_of {
        Ok((j, leaf(NodeKind::Empty)))
    } else if semi_j {
        Ok((j, flag_node(NodeKind::Bool, true, Vec::new())))
    } else {
        let (q, c) = parse_expression_at(ts, j, true)?;
        Ok((q, exprs_node(c)))
    }
}

/// `loop_tail` at `j2`.
#[verifier::rlimit(100)]
#[verifier::spinoff_prover]
fn loop_tail_at(ts: &Vec<Token>, j2: usize, init: Node, cond: Node, of: Option<Node>, label: Vec<String>) -> (r: Result<(usize, Node), ParseError>)
    requires tokens_wf(views(ts@)),
    ensures res_node(r) == loop_tail(views(ts@), j2 as nat, node_view(init), node_view(cond), opt_node(of), texts_of(label@)),
    decreases left(views(ts@), j2 as nat), 51nat, 0nat,
{
    let ghost s = views(ts@);
    let ghost lv = texts_of(label@);
    let ghost ofv = opt_node(of);
    let ghost iv = node_view(init);
    let ghost cv = node_view(cond);
    let j3 = skip_semi(ts, j2);
    assert(j3 == (if at(s, j2 as nat) is Semicolon { j2 + 1 } else { j2 as int }));
    let close3 = match tok(ts, j3) {
        Token::RParen => true,
        _ => false,
    };
    let (j4, update) = if of.is_some() || close3 {
        (j3, leaf(NodeKind::Empty))
    } else {
        let (q, u) = parse_expression_at(ts, j3, true)?;
        (q, exprs_node(u))
    };
    assert((if ofv is Some || at(s, j3 as nat) is RParen {
        Some((j3 as nat, sblank(NodeKind::Empty)))
    } else {
        match spec_parse_expression(s, j3 as nat, true) {
            Some((q, u)) => Some((q, exprs(u))),
            None => None,
        }
    }) == Some((j4 as nat, node_view(update))));
    let close4 = match tok(ts, j4) {
        Token::RParen => true,
        _ => false,
    };
    if j4 >= j3 && close4 {
        let (j5, body) = parse_block_at(ts, j4 + 1)?;
        let last = match of {
            Some(f) => f,
            None => leaf(NodeKind::Empty),
        };
        assert(node_view(last) == match ofv { Some(f) => f, None => sblank(NodeKind::Empty) });
        let ghost want = seq![node_view(init), node_view(cond), node_view(update), exprs(nodes_view(body@)), node_view(last)];
        let mut children = three(init, cond, update);
        push_node(&mut children, exprs_node(body));
        push_node(&mut children, last);
        assert(nodes_view(children@) =~= want);
        let mut n = kids_node(NodeKind::Loop, children);
        n.names = label;
        assert(node_view(n) == SNode { names: lv, children: want, ..sblank(NodeKind::Loop) });
        assert(want == seq![iv, cv, node_view(update), exprs(nodes_view(body@)),
            match ofv { Some(f) => f, None => sblank(NodeKind::Empty) }]);
        assert(loop_tail(s, j2 as nat, iv, cv, ofv, lv) == Some((j5 as nat, node_view(n))));
        Ok((j5, n))
    } else {
        Err(ParseError::Unexpected(j4))
    }
}

/// The first clause of a loop from `k`.
#[verifier::rlimit(100)]
#[verifier::spinoff_prover]
fn loop_init(ts: &Vec<Token>, k: usize, is_for: bool) -> (r: Result<(usize, Node, Option<Node>), ParseError>)
    requires tokens_wf(views(ts@)),
    ensures
        match (r, spec_loop_init(views(ts@), k as nat, is_for)) {
            (Ok((j, n, of)), Some((q, m, sof))) => j == q && node_view(n) == m
                && match (of, sof) {
                    (Some(a), Some(b)) => node_view(a) == b,
                    (None, None) => true,
                    _ => false,
                },
            (Err(_), None) => true,
            _ => false,
        },
    decreases left(views(ts@), k as nat), 45nat, 0nat,
{
    if !is_for {
        return Ok((k, leaf(NodeKind::Empty), None));
    }
    let t = tok(ts, k);
    let next_of = match peek(ts, k, 1) {
        Token::Of => true,
        _ => false,
    };
    match t {
        Token::Semicolon => {
            return Ok((k + 1, leaf(NodeKind::Empty), None));
        },
        _ => {},
    }
    let decl = match t {
        Token::Let | Token::Const | Token::Var => true,
        _ => false,
    };
    if decl || next_of {
        let n = if next_of { k } else { k + 1 };
        let name = match tok(ts, n) {
            Token::Ident(name) => name.clone(),
            _ => {
                return Err(ParseError::ExpectedIdentifier(n));
            },
        };
        let m = n + 1;
        let (q, init, of): (usize, Vec<Node>, Option<Node>) = match tok(ts, m) {
            Token::Assign(None) => {
                let (q, e) = parse_expression_at(ts, m + 1, true)?;
                (q, one(exprs_node(e)), None)
            },
            Token::Assign(Some(_)) => {
                return Err(ParseError::Unexpected(m));
            },
            Token::Of => {
                let (q, e) = parse_expression_at(ts, m + 1, true)?;
                let mut b = named_node(NodeKind::ForOf, name.clone());
                b.children = one(exprs_node(e));
                let init: Vec<Node> = Vec::new();
                (q, init, Some(b))
            },
            _ => {
                let init: Vec<Node> = Vec::new();
                (m, init, None)
            },
        };
        assert(nodes_view(Seq::<Node>::empty()) =~= Seq::<SNode>::empty());
        let semi = match tok(ts, q) {
            Token::Semicolon => true,
            _ => false,
        };
        let mut v = named_node(NodeKind::VarDecl, name);
        v.children = init;
        Ok((if semi { q + 1 } else { q }, v, of))
    } else {
        let (q, e) = parse_expression_at(ts, k, true)?;
        let semi = match tok(ts, q) {
            Token::Semicolon => true,
            _ => false,
        };
        Ok((if semi { q + 1 } else { q }, exprs_node(e), None))
    }
}

/// `Return::parse` at `i`.
#[verifier::rlimit(60)]
#[verifier::spinoff_prover]
fn parse_return(ts: &Vec<Token>, i: usize) -> (r: Result<(usize, Node), ParseError>)
    requires tokens_wf(views(ts@)),
    ensures res_node(r) == spec_parse_return(views(ts@), i as nat),
    decreases left(views(ts@), i as nat), 30nat, 0nat,
{
    if i >= ts.len() {
        return Err(ParseError::Unexpected(i));
    }
    let t = tok(ts, i);
    let yb = match (t, peek(ts, i, 1)) {
        (Token::Yield, Token::Break) => true,
        _ => false,
    };
    let kind = match t {
        Token::Break => NodeKind::Break,
        Token::Continue => NodeKind::Continue,
        Token::Return => NodeKind::Return,
        Token::Yield => if yb { NodeKind::YieldBreak } else { NodeKind::Yield },
        Token::Throw => NodeKind::Throw,
        _ => {
            return Err(ParseError::Unexpected(i));
        },
    };
    let j = if yb { i + 2 } else { i + 1 };
    let mut label: Vec<String> = Vec::new();
    let jumps = match t {
        Token::Break | Token::Continue => true,
        _ => false,
    };
    if jumps {
        match tok(ts, j) {
            Token::Ident(name) => {
                label.push(name.clone());
            },
            _ => {},
        }
    }
    assert(texts_of(label@) =~= (if jumps && at(views(ts@), j as nat) is Ident {
        seq![at(views(ts@), j as nat)->Ident_0]
    } else {
        Seq::<Seq<char>>::empty()
    }));
    let (k, e) = parse_expression_at(ts, j, false)?;
    let semi = match tok(ts, k) {
        Token::Semicolon => true,
        _ => false,
    };
    let mut n = kids_node(kind, one(exprs_node(e)));
    n.names = label;
    Ok((if semi { k + 1 } else { k }, n))
}

/// `SwitchExpr::parse` at `i`.
#[verifier::rlimit(60)]
#[verifier::spinoff_prover]
fn parse_switch(ts: &Vec<Token>, i: usize) -> (r: Result<(usize, Node), ParseError>)
    requires tokens_wf(views(ts@)),
    ensures res_node(r) == spec_parse_switch(views(ts@), i as nat),
    decreases left(views(ts@), i as nat), 29nat, 0nat,
{
    let ok = match (tok(ts, i), peek(ts, i, 1)) {
        (Token::Switch, Token::LParen) => true,
        _ => false,
    };
    if !ok {
        return Err(ParseError::Unexpected(i));
    }
    let (j, v) = parse_expression_at(ts, i + 2, true)?;
    let ok2 = match (tok(ts, j), peek(ts, j, 1)) {
        (Token::RParen, Token::LBrace) => true,
        _ => false,
    };
    if j >= i && ok2 {
        let cases: Vec<Node> = Vec::new();
        assert(nodes_view(cases@) =~= Seq::<SNode>::empty());
        let (k, cases) = switch_items(ts, j + 2, cases)?;
        let mut children = one(exprs_node(v));
        append_nodes(&mut children, cases);
        Ok((k, kids_node(NodeKind::Switch, children)))
    } else {
        Err(ParseError::Unexpected(j))
    }
}

/// Whether every case of a switch has a body as its last child.
pub open spec fn cases_wf(cases: Seq<SNode>) -> bool {
    forall|k: int| 0 <= k < cases.len() ==> #[trigger] cases[k].children.len() > 0
}

/// The cases with the statements `es` appended to the last one's body.
fn add_to_last(cases: Vec<Node>, es: Vec<Node>) -> (r: Vec<Node>)
    requires
        nodes_view(cases@).len() > 0,
        cases_wf(nodes_view(cases@)),
    ensures
        nodes_view(r@) == add_to_last_case(nodes_view(cases@), nodes_view(es@)),
        cases_wf(nodes_view(r@)),
{
    let mut cases = cases;
    proof {
        crate::ast::lemma_nodes_view_len(cases@);
    }
    let ghost old_cases = cases@;
    let mut c = cases.pop().unwrap();
    assert(old_cases =~= cases@.push(c));
    proof {
        lemma_nodes_view_push(cases@, c);
    }
    proof {
        crate::ast::lemma_nodes_view_len(c.children@);
        assert(nodes_view(old_cases).last() == node_view(c));
        assert(nodes_view(old_cases)[nodes_view(old_cases).len() - 1].children.len() > 0);
    }
    let ghost old_kids = c.children@;
    let b = c.children.pop().unwrap();
    assert(old_kids =~= c.children@.push(b));
    proof {
        lemma_nodes_view_push(c.children@, b);
    }
    let mut body = b.children;
    append_nodes(&mut body, es);
    let nb = exprs_node(body);
    push_node(&mut c.children, nb);
    assert(nodes_view(c.children@) =~= nodes_view(old_kids).update(nodes_view(old_kids).len() - 1, node_view(nb)));
    push_node(&mut cases, c);
    let ghost oc = nodes_view(old_cases);
    assert(nodes_view(cases@) =~= oc.update(oc.len() - 1, node_view(c)));
    assert forall|k: int| 0 <= k < nodes_view(cases@).len() implies #[trigger] nodes_view(cases@)[k].children.len() > 0 by {
        if k < oc.len() - 1 {
            assert(nodes_view(cases@)[k] == oc[k]);
        }
    }
    cases
}

/// The cases of a switch from `i`.
#[verifier::rlimit(60)]
#[verifier::spinoff_prover]
fn switch_items(ts: &Vec<Token>, i: usize, cases: Vec<Node>) -> (r: Result<(usize, Vec<Node>), ParseError>)
    requires
        tokens_wf(views(ts@)),
        cases_wf(nodes_view(cases@)),
    ensures res_list(r) == spec_switch_items(views(ts@), i as nat, nodes_view(cases@)),
    decreases left(views(ts@), i as nat), 46nat, 0nat,
{
    let mut cases = cases;
    if i >= ts.len() {
        return Err(ParseError::Unexpected(i));
    }
    match tok(ts, i) {
        Token::Eof => Ok((i, cases)),
        Token::RBrace => Ok((i + 1, cases)),
        Token::Case => {
            let (j, c) = parse_binary_at(ts, i + 1, 0)?;
            let colon = match tok(ts, j) {
                Token::Colon => true,
                _ => false,
            };
            if j >= i && colon {
                let ghost before = nodes_view(cases@);
                push_node(&mut cases, kids_node(NodeKind::Case, two(c, exprs_node(Vec::new()))));
                assert(nodes_view(Seq::<Node>::empty()) =~= Seq::<SNode>::empty());
                assert forall|k: int| 0 <= k < nodes_view(cases@).len() implies #[trigger] nodes_view(cases@)[k].children.len() > 0 by {
                    if k < before.len() {
                        assert(nodes_view(cases@)[k] == before[k]);
                    }
                }
                switch_items(ts, j + 1, cases)
            } else {
                Err(ParseError::Unexpected(j))
            }
        },
        Token::Default => {
            let colon = match peek(ts, i, 1) {
                Token::Colon => true,
                _ => false,
            };
            if colon {
                let ghost before = nodes_view(cases@);
                push_node(&mut cases, kids_node(NodeKind::DefaultCase, one(exprs_node(Vec::new()))));
                assert(nodes_view(Seq::<Node>::empty()) =~= Seq::<SNode>::empty());
                assert forall|k: int| 0 <= k < nodes_view(cases@).len() implies #[trigger] nodes_view(cases@)[k].children.len() > 0 by {
                    if k < before.len() {
                        assert(nodes_view(cases@)[k] == before[k]);
                    }
                }
                switch_items(ts, i + 2, cases)
            } else {
                Err(ParseError::Unexpected(i))
            }
        },
        _ => {
            proof {
                crate::ast::lemma_nodes_view_len(cases@);
            }
            if cases.len() == 0 {
                cases = one(kids_node(NodeKind::DefaultCase, one(exprs_node(Vec::new()))));
                assert(nodes_view(Seq::<Node>::empty()) =~= Seq::<SNode>::empty());
                assert(cases_wf(nodes_view(cases@)));
            }
            proof {
                crate::ast::lemma_nodes_view_len(cases@);
            }
            let (j, es) = parse_expression_at(ts, i, true)?;
            proof {
                crate::ast::lemma_nodes_view_len(es@);
            }
            if es.len() == 0 && j == i {
                switch_items(ts, i + 1, cases)
            } else if j > i {
                let cases = add_to_last(cases, es);
                switch_items(ts, j, cases)
            } else {
                Err(ParseError::Unexpected(i))
            }
        },
    }
}

/// `Operator::parse_binary(min)` at `i`.
#[verifier::rlimit(60)]
#[verifier::spinoff_prover]
pub fn parse_binary_at(ts: &Vec<Token>, i: usize, min: u8) -> (r: Result<(usize, Node), ParseError>)
    requires tokens_wf(views(ts@)),
    ensures res_node(r) == spec_parse_binary(views(ts@), i as nat, min),
    decreases left(views(ts@), i as nat), 27nat, 0nat,
{
    if i >= ts.len() {
        return Err(ParseError::Unexpected(i));
    }
    let (j, e) = match tok(ts, i) {
        Token::Plus => parse_binary_at(ts, i + 1, 26)?,
        Token::Minus => {
            let (j, e) = parse_binary_at(ts, i + 1, 26)?;
            let n = make(NodeKind::Binary, String::new(), false, Some(BinaryOp::Sub), Vec::new(), two(leaf(NodeKind::FloatZero), e));
            assert(texts_of(Seq::<String>::empty()) =~= Seq::<Seq<char>>::empty());
            (j, n)
        },
        Token::PlusPlus => {
            let (j, e) = parse_binary_at(ts, i + 1, 26)?;
            (j, flag_node(NodeKind::Prefix, true, one(e)))
        },
        Token::MinusMinus => {
            let (j, e) = parse_binary_at(ts, i + 1, 26)?;
            (j, kids_node(NodeKind::Prefix, one(e)))
        },
        Token::Not => {
            let (j, e) = parse_binary_at(ts, i + 1, 26)?;
            (j, kids_node(NodeKind::Not, one(e)))
        },
        _ => call_or_primary(ts, i, min == 0)?,
    };
    if j >= i {
        binary_ops(ts, j, e, min)
    } else {
        Err(ParseError::Unexpected(i))
    }
}

/// The binary operators after an operand ending at `j`.
#[verifier::rlimit(60)]
#[verifier::spinoff_prover]
fn binary_ops(ts: &Vec<Token>, j: usize, lhs: Node, min: u8) -> (r: Result<(usize, Node), ParseError>)
    requires tokens_wf(views(ts@)),
    ensures res_node(r) == spec_binary_ops(views(ts@), j as nat, node_view(lhs), min),
    decreases left(views(ts@), j as nat), 26nat, 0nat,
{
    if j >= ts.len() {
        return Err(ParseError::Unexpected(j));
    }
    let t = tok(ts, j);
    let next = if j + 1 < ts.len() { Some(peek(ts, j, 1)) } else { None };
    match precedence(t, next) {
        None => Ok((j, lhs)),
        Some((l, r)) => if l < min {
            Ok((j, lhs))
        } else {
            match t {
                Token::InstanceOf => {
                    let (k, class) = parse_binary_at(ts, j + 1, 19)?;
                    if k > j {
                        let has = kids_node(NodeKind::Member, two(
                            named_node(NodeKind::Ident, String::from_str("Symbol")),
                            named_node(NodeKind::Str, String::from_str("hasInstance"))));
                        let call = kids_node(NodeKind::Call, two(kids_node(NodeKind::Member, two(class, has)), exprs_node(one(lhs))));
                        binary_ops(ts, k, call, min)
                    } else {
                        Err(ParseError::Unexpected(j))
                    }
                },
                Token::QMark if min == 0 => {
                    let (k, c) = parse_conditional(ts, j, lhs)?;
                    if k > j { binary_ops(ts, k, c, min) } else { Err(ParseError::Unexpected(j)) }
                },
                Token::QMark | Token::Colon => Ok((j, lhs)),
                _ => {
                    let (op, p) = match (t, peek(ts, j, 1)) {
                        (Token::And, Token::And) => (BinaryOp::LogAnd, j + 2),
                        (Token::And, _) => (BinaryOp::BinAnd, j + 1),
                        (Token::Or, Token::Or) => (BinaryOp::LogOr, j + 2),
                        (Token::Or, _) => (BinaryOp::BinOr, j + 1),
                        _ => match op_of(t) {
                            Some(o) => (o, j + 1),
                            None => {
                                return Err(ParseError::Unexpected(j));
                            },
                        },
                    };
                    let (k, rhs) = parse_binary_at(ts, p, r)?;
                    if k > j {
                        let n = make(NodeKind::Binary, String::new(), false, Some(op), Vec::new(), two(lhs, rhs));
                        assert(texts_of(Seq::<String>::empty()) =~= Seq::<Seq<char>>::empty());
                        binary_ops(ts, k, n, min)
                    } else {
                        Err(ParseError::Unexpected(j))
                    }
                },
            }
        },
    }
}

/// `parse_call_or_primary(root)` at `i`.
#[verifier::rlimit(60)]
#[verifier::spinoff_prover]
pub fn call_or_primary(ts: &Vec<Token>, i: usize, root: bool) -> (r: Result<(usize, Node), ParseError>)
    requires tokens_wf(views(ts@)),
    ensures res_node(r) == spec_parse_call_or_primary(views(ts@), i as nat, root),
    decreases left(views(ts@), i as nat), 25nat, 0nat,
{
    let (j, e) = parse_primary_at(ts, i)?;
    if j >= i { parse_postfix(ts, j, e, root) } else { Err(ParseError::Unexpected(i)) }
}

/// `parse_primary` at `i`.
#[verifier::rlimit(60)]
#[verifier::spinoff_prover]
pub fn parse_primary_at(ts: &Vec<Token>, i: usize) -> (r: Result<(usize, Node), ParseError>)
    requires tokens_wf(views(ts@)),
    ensures res_node(r) == spec_parse_primary(views(ts@), i as nat),
    decreases left(views(ts@), i as nat), 24nat, 0nat,
{
    if i >= ts.len() {
        return Err(ParseError::Unexpected(i));
    }
    let t = tok(ts, i);
    match t {
        Token::Eof => Err(ParseError::Unexpected(i)),
        Token::Typeof => {
            let (j, e) = call_or_primary(ts, i + 1, false)?;
            Ok((j, kids_node(NodeKind::Typeof, one(e))))
        },
        Token::Void => {
            let (j, es) = parse_expression_at(ts, i + 1, true)?;
            let mut es = es;
            push_node(&mut es, leaf(NodeKind::Undefined));
            Ok((j, exprs_node(es)))
        },
        Token::LBrace => parse_object(ts, i),
        Token::LBracket => {
            let acc: Vec<Node> = Vec::new();
            assert(nodes_view(acc@) =~= Seq::<SNode>::empty());
            group_items(ts, i + 1, true, acc)
        },
        Token::LParen => {
            let acc: Vec<Node> = Vec::new();
            assert(nodes_view(acc@) =~= Seq::<SNode>::empty());
            group_items(ts, i + 1, false, acc)
        },
        Token::Function => parse_function(ts, i + 1, false),
        Token::Class => parse_class(ts, i + 1),
        Token::Ident(name) => Ok((i + 1, named_node(NodeKind::Ident, name.clone()))),
        Token::Number(n) => {
            let mut node = leaf(NodeKind::Number);
            node.lit = Some(copy_literal(n));
            Ok((i + 1, node))
        },
        Token::TemplateStart => {
            let acc: Vec<Node> = Vec::new();
            assert(nodes_view(acc@) =~= Seq::<SNode>::empty());
            template_items(ts, i + 1, acc)
        },
        Token::Str(s) => Ok((i + 1, named_node(NodeKind::Str, s.clone()))),
        Token::True => Ok((i + 1, flag_node(NodeKind::Bool, true, Vec::new()))),
        Token::False => Ok((i + 1, leaf(NodeKind::Bool))),
        Token::Undefined => Ok((i + 1, leaf(NodeKind::Undefined))),
        Token::Null => Ok((i + 1, leaf(NodeKind::Null))),
        Token::New => Err(ParseError::Unexpected(i)),
        Token::Minus => match peek(ts, i, 1) {
            Token::Number(n) => {
                let mut node = leaf(NodeKind::Number);
                node.flag = true;
                node.lit = Some(copy_literal(n));
                Ok((i + 2, node))
            },
            _ => Err(ParseError::Unexpected(i)),
        },
        _ => match keyword_of(t) {
            Some(w) => Ok((i + 1, named_node(NodeKind::Ident, w))),
            None => Err(ParseError::Unexpected(i)),
        },
    }
}

/// The elements of a bracketed or parenthesised group from `i`.
#[verifier::rlimit(60)]
#[verifier::spinoff_prover]
fn group_items(ts: &Vec<Token>, i: usize, array: bool, acc: Vec<Node>) -> (r: Result<(usize, Node), ParseError>)
    requires tokens_wf(views(ts@)),
    ensures res_node(r) == spec_group_items(views(ts@), i as nat, array, nodes_view(acc@)),
    decreases left(views(ts@), i as nat), 47nat, 0nat,
{
    let mut acc = acc;
    if i >= ts.len() {
        return Err(ParseError::Unexpected(i));
    }
    let (eof, close) = match tok(ts, i) {
        Token::Eof => (true, false),
        Token::RBracket => (false, array),
        Token::RParen => (false, !array),
        _ => (false, false),
    };
    if eof {
        Err(ParseError::Unexpected(i))
    } else if close {
        Ok((i + 1, if array { kids_node(NodeKind::Array, acc) } else { one_of_group_node(acc) }))
    } else {
        let (j, es) = parse_expression_at(ts, i, true)?;
        if j > i {
            append_nodes(&mut acc, es);
            group_items(ts, j, array, acc)
        } else {
            Err(ParseError::Unexpected(i))
        }
    }
}

/// `parse_postfix(root)` after an operand ending at `j`.
#[verifier::rlimit(100)]
#[verifier::spinoff_prover]
fn parse_postfix(ts: &Vec<Token>, j: usize, e: Node, root: bool) -> (r: Result<(usize, Node), ParseError>)
    requires tokens_wf(views(ts@)),
    ensures res_node(r) == spec_parse_postfix(views(ts@), j as nat, node_view(e), root),
    decreases left(views(ts@), j as nat), 22nat, 0nat,
{
    if j >= ts.len() {
        return Err(ParseError::Unexpected(j));
    }
    match tok(ts, j) {
        Token::QMark => if root {
            let (k, c) = parse_conditional(ts, j, e)?;
            if k > j { parse_postfix(ts, k, c, root) } else { Err(ParseError::Unexpected(j)) }
        } else {
            Ok((j, e))
        },
        Token::Dot => match keyword_of(peek(ts, j, 1)) {
            Some(w) => {
                let not_eof = match peek(ts, j, 1) {
                    Token::Eof => false,
                    _ => true,
                };
                if j + 1 < ts.len() && not_eof {
                    let n = kids_node(NodeKind::Member, two(e, named_node(NodeKind::Str, w)));
                    parse_postfix(ts, j + 2, n, root)
                } else {
                    Err(ParseError::Unexpected(j))
                }
            },
            None => Err(ParseError::Unexpected(j + 1)),
        },
        Token::LBracket => {
            let (k, idx) = parse_expression_at(ts, j + 1, true)?;
            let close = match tok(ts, k) {
                Token::RBracket => true,
                _ => false,
            };
            if k > j && close {
                let n = kids_node(NodeKind::Member, two(e, exprs_node(idx)));
                parse_postfix(ts, k + 1, n, root)
            } else {
                Err(ParseError::Unexpected(k))
            }
        },
        Token::LParen => {
            let (k, args) = parse_expression_at(ts, j + 1, true)?;
            if k > j {
                let close = match tok(ts, k) {
                    Token::RParen => true,
                    _ => false,
                };
                let n = kids_node(NodeKind::Call, two(e, exprs_node(args)));
                parse_postfix(ts, if close { k + 1 } else { k }, n, root)
            } else {
                Err(ParseError::Unexpected(k))
            }
        },
        Token::PlusPlus => parse_postfix(ts, j + 1, flag_node(NodeKind::Postfix, true, one(e)), root),
        Token::MinusMinus => parse_postfix(ts, j + 1, kids_node(NodeKind::Postfix, one(e)), root),
        _ => Ok((j, e)),
    }
}

/// `ConditionalOp::parse` at the `?` at `j`.
#[verifier::rlimit(60)]
#[verifier::spinoff_prover]
fn parse_conditional(ts: &Vec<Token>, j: usize, cond: Node) -> (r: Result<(usize, Node), ParseError>)
    requires tokens_wf(views(ts@)),
    ensures res_node(r) == spec_parse_conditional(views(ts@), j as nat, node_view(cond)),
    decreases left(views(ts@), j as nat), 21nat, 0nat,
{
    if j >= ts.len() {
        return Err(ParseError::Unexpected(j));
    }
    match tok(ts, j) {
        Token::Eof => {
            return Err(ParseError::Unexpected(j));
        },
        _ => {},
    }
    let (k, t) = parse_expression_at(ts, j + 1, false)?;
    if k > j {
        let colon = match tok(ts, k) {
            Token::Colon => true,
            _ => false,
        };
        if !colon {
            Ok((k, kids_node(NodeKind::Conditional, three(cond, one_of_node(t), leaf(NodeKind::Undefined)))))
        } else {
            let (q, f) = parse_expression_at(ts, k + 1, false)?;
            Ok((q, kids_node(NodeKind::Conditional, three(cond, one_of_node(t), one_of_node(f)))))
        }
    } else {
        Err(ParseError::Unexpected(j))
    }
}

/// `Object::parse` at its `{`.
#[verifier::rlimit(60)]
#[verifier::spinoff_prover]
fn parse_object(ts: &Vec<Token>, i: usize) -> (r: Result<(usize, Node), ParseError>)
    requires tokens_wf(views(ts@)),
    ensures res_node(r) == spec_parse_object(views(ts@), i as nat),
    decreases left(views(ts@), i as nat), 20nat, 0nat,
{
    if i >= ts.len() {
        return Err(ParseError::Unexpected(i));
    }
    match tok(ts, i) {
        Token::Eof => Err(ParseError::Unexpected(i)),
        _ => {
            let acc: Vec<Node> = Vec::new();
            assert(nodes_view(acc@) =~= Seq::<SNode>::empty());
            object_items(ts, i + 1, acc)
        },
    }
}

/// The entries of an object literal from `i`.
#[verifier::rlimit(60)]
#[verifier::spinoff_prover]
fn object_items(ts: &Vec<Token>, i: usize, acc: Vec<Node>) -> (r: Result<(usize, Node), ParseError>)
    requires tokens_wf(views(ts@)),
    ensures res_node(r) == spec_object_items(views(ts@), i as nat, nodes_view(acc@)),
    decreases left(views(ts@), i as nat), 48nat, 0nat,
{
    let mut acc = acc;
    if i >= ts.len() {
        return Err(ParseError::Unexpected(i));
    }
    let t = tok(ts, i);
    match t {
        Token::Eof => {
            return Err(ParseError::Unexpected(i));
        },
        Token::RBrace => {
            return Ok((i + 1, kids_node(NodeKind::Object, acc)));
        },
        _ => {},
    }
    let star = match t {
        Token::Star => true,
        _ => false,
    };
    let k = if star { i + 1 } else { i };
    let (m, key) = match tok(ts, k) {
        Token::Ident(v) => (k + 1, named_node(NodeKind::Str, v.clone())),
        _ => parse_primary_at(ts, k)?,
    };
    if m < k {
        return Err(ParseError::Unexpected(k));
    }
    let (q, v) = match tok(ts, m) {
        Token::Colon => {
            let (q, v) = parse_expression_at(ts, m + 1, false)?;
            (q, exprs_node(v))
        },
        Token::LParen => {
            let (q, f) = parse_function(ts, m, false)?;
            let mut f = f;
            f.flag = star;
            (q, f)
        },
        _ => {
            return Err(ParseError::Unexpected(m));
        },
    };
    if q > i {
        let comma = match tok(ts, q) {
            Token::Comma => true,
            _ => false,
        };
        push_node(&mut acc, key);
        push_node(&mut acc, v);
        object_items(ts, if comma { q + 1 } else { q }, acc)
    } else {
        Err(ParseError::Unexpected(i))
    }
}

/// `FunctionDecl::parse` after `function` at `i`.
#[verifier::rlimit(60)]
#[verifier::spinoff_prover]
pub fn parse_function(ts: &Vec<Token>, i: usize, insert: bool) -> (r: Result<(usize, Node), ParseError>)
    requires tokens_wf(views(ts@)),
    ensures res_node(r) == spec_parse_function(views(ts@), i as nat, insert),
    decreases left(views(ts@), i as nat), 18nat, 0nat,
{
    let generator = match tok(ts, i) {
        Token::Star => true,
        _ => false,
    };
    let n = if generator { i + 1 } else { i };
    let (name, p) = match tok(ts, n) {
        Token::Ident(s) => (s.clone(), n + 1),
        _ => (String::from_str("anonymous function"), n),
    };
    let lp = skip_until(ts, p, &Token::LParen);
    let open = match tok(ts, lp) {
        Token::LParen => true,
        _ => false,
    };
    if !open {
        return Err(ParseError::Unexpected(lp));
    }
    let (j, params) = scan_params(ts, lp + 1)?;
    let b = skip_until(ts, j, &Token::LBrace);
    if b > i && i < ts.len() {
        let (k, body) = parse_block_at(ts, b)?;
        let mut f = named_node(NodeKind::Function, name);
        f.flag = generator;
        f.flag2 = insert;
        f.names = params;
        f.children = body;
        Ok((k, f))
    } else {
        Err(ParseError::Unexpected(b))
    }
}

/// `ClassDecl::parse` after `class` at `i`.
#[verifier::rlimit(60)]
#[verifier::spinoff_prover]
fn parse_class(ts: &Vec<Token>, i: usize) -> (r: Result<(usize, Node), ParseError>)
    requires tokens_wf(views(ts@)),
    ensures res_node(r) == spec_parse_class(views(ts@), i as nat),
    decreases left(views(ts@), i as nat), 17nat, 0nat,
{
    let name = match tok(ts, i) {
        Token::Ident(name) => name.clone(),
        _ => {
            return Err(ParseError::ExpectedIdentifier(i));
        },
    };
    let extends = match peek(ts, i, 1) {
        Token::Ident(w) => str_eq(w.as_str(), "extends"),
        _ => false,
    };
    let (j, s) = if extends {
        call_or_primary(ts, i + 2, true)?
    } else {
        (i + 1, leaf(NodeKind::Empty))
    };
    let brace = match tok(ts, j) {
        Token::LBrace => true,
        _ => false,
    };
    if j > i && brace {
        let acc: Vec<Node> = Vec::new();
        assert(nodes_view(acc@) =~= Seq::<SNode>::empty());
        let (k, methods) = class_items(ts, j + 1, acc)?;
        let mut children = one(s);
        append_nodes(&mut children, methods);
        let mut c = named_node(NodeKind::Class, name);
        c.children = children;
        Ok((k, c))
    } else {
        Err(ParseError::Unexpected(j))
    }
}

/// The methods of a class from `i`.
#[verifier::rlimit(60)]
#[verifier::spinoff_prover]
fn class_items(ts: &Vec<Token>, i: usize, acc: Vec<Node>) -> (r: Result<(usize, Vec<Node>), ParseError>)
    requires tokens_wf(views(ts@)),
    ensures res_list(r) == spec_class_items(views(ts@), i as nat, nodes_view(acc@)),
    decreases left(views(ts@), i as nat), 49nat, 0nat,
{
    let mut acc = acc;
    if i >= ts.len() {
        return Err(ParseError::Unexpected(i));
    }
    match tok(ts, i) {
        Token::Eof => Ok((i, acc)),
        Token::RBrace => Ok((i + 1, acc)),
        Token::Ident(_) => {
            let (j, f) = parse_function(ts, i, false)?;
            if j > i {
                push_node(&mut acc, f);
                class_items(ts, j, acc)
            } else {
                Err(ParseError::Unexpected(i))
            }
        },
        _ => class_items(ts, i + 1, acc),
    }
}

/// `VarDecl::parse` after `let`, `const` or `var` at `i`.
#[verifier::rlimit(60)]
#[verifier::spinoff_prover]
fn parse_var(ts: &Vec<Token>, i: usize) -> (r: Result<(usize, Node), ParseError>)
    requires tokens_wf(views(ts@)),
    ensures res_node(r) == spec_parse_var(views(ts@), i as nat),
    decreases left(views(ts@), i as nat), 15nat, 0nat,
{
    let name = match tok(ts, i) {
        Token::Ident(name) => name.clone(),
        _ => {
            return Err(ParseError::ExpectedIdentifier(i));
        },
    };
    let (k, c) = match peek(ts, i, 1) {
        Token::Assign(None) => {
            let (k, e) = parse_expression_at(ts, i + 2, false)?;
            (k, one(exprs_node(e)))
        },
        Token::Assign(Some(_)) => {
            return Err(ParseError::Unexpected(i + 1));
        },
        _ => {
            let c: Vec<Node> = Vec::new();
            assert(nodes_view(c@) =~= Seq::<SNode>::empty());
            (i + 1, c)
        },
    };
    let semi = match tok(ts, k) {
        Token::Semicolon => true,
        _ => false,
    };
    let mut v = named_node(NodeKind::VarDecl, name);
    v.children = c;
    Ok((if semi { k + 1 } else { k }, v))
}

/// The body of an `if` branch at `i`.
#[verifier::rlimit(60)]
#[verifier::spinoff_prover]
fn if_body(ts: &Vec<Token>, i: usize) -> (r: Result<(usize, Vec<Node>), ParseError>)
    requires tokens_wf(views(ts@)),
    ensures res_list(r) == spec_if_body(views(ts@), i as nat),
    decreases left(views(ts@), i as nat), 40nat, 0nat,
{
    match tok(ts, i) {
        Token::LBrace => parse_block_at(ts, i),
        _ => {
            let (j, es) = parse_expression_at(ts, i, false)?;
            let semi = match tok(ts, j) {
                Token::Semicolon => true,
                _ => false,
            };
            Ok((if semi { j + 1 } else { j }, es))
        },
    }
}

/// A parenthesised condition at its `(`.
#[verifier::rlimit(60)]
#[verifier::spinoff_prover]
fn condition(ts: &Vec<Token>, i: usize) -> (r: Result<(usize, Node), ParseError>)
    requires tokens_wf(views(ts@)),
    ensures res_node(r) == spec_condition(views(ts@), i as nat),
    decreases left(views(ts@), i as nat), 9nat, 0nat,
{
    let open = match tok(ts, i) {
        Token::LParen => true,
        _ => false,
    };
    if !open || i >= ts.len() {
        return Err(ParseError::Unexpected(i));
    }
    let (j, c) = parse_expression_at(ts, i + 1, true)?;
    let close = match tok(ts, j) {
        Token::RParen => true,
        _ => false,
    };
    if j > i && close {
        Ok((j + 1, exprs_node(c)))
    } else {
        Err(ParseError::Unexpected(j))
    }
}

/// `IfExpr::parse` after `if` at `i`.
#[verifier::rlimit(60)]
#[verifier::spinoff_prover]
fn parse_if(ts: &Vec<Token>, i: usize) -> (r: Result<(usize, Node), ParseError>)
    requires tokens_wf(views(ts@)),
    ensures res_node(r) == spec_parse_if(views(ts@), i as nat),
    decreases left(views(ts@), i as nat), 13nat, 0nat,
{
    let (j, c) = condition(ts, i)?;
    if j > i && i < ts.len() {
        let (k, body) = if_body(ts, j)?;
        if k >= j {
            else_items(ts, k, two(c, exprs_node(body)))
        } else {
            Err(ParseError::Unexpected(k))
        }
    } else {
        Err(ParseError::Unexpected(i))
    }
}

/// The `else` branches from `i`.
#[verifier::rlimit(60)]
#[verifier::spinoff_prover]
fn else_items(ts: &Vec<Token>, i: usize, acc: Vec<Node>) -> (r: Result<(usize, Node), ParseError>)
    requires tokens_wf(views(ts@)),
    ensures res_node(r) == spec_else_items(views(ts@), i as nat, nodes_view(acc@)),
    decreases left(views(ts@), i as nat), 12nat, 0nat,
{
    let mut acc = acc;
    let is_else = match tok(ts, i) {
        Token::Else => true,
        _ => false,
    };
    if !is_else || i >= ts.len() {
        return Ok((i, kids_node(NodeKind::If, acc)));
    }
    let (j, cond) = match peek(ts, i, 1) {
        Token::If => condition(ts, i + 2)?,
        _ => (i + 1, flag_node(NodeKind::Bool, true, Vec::new())),
    };
    assert(nodes_view(Seq::<Node>::empty()) =~= Seq::<SNode>::empty());
    if j > i {
        let (k, body) = if_body(ts, j)?;
        if k >= j {
            push_node(&mut acc, cond);
            push_node(&mut acc, exprs_node(body));
            else_items(ts, k, acc)
        } else {
            Err(ParseError::Unexpected(k))
        }
    } else {
        Err(ParseError::Unexpected(i))
    }
}

/// `Try::parse` after `try` at `i`.
#[verifier::rlimit(60)]
#[verifier::spinoff_prover]
fn parse_try(ts: &Vec<Token>, i: usize) -> (r: Result<(usize, Node), ParseError>)
    requires tokens_wf(views(ts@)),
    ensures res_node(r) == spec_parse_try(views(ts@), i as nat),
    decreases left(views(ts@), i as nat), 43nat, 0nat,
{
    let (j, block) = parse_block_at(ts, i)?;
    if !(j >= i && i < ts.len()) {
        return Err(ParseError::Unexpected(i));
    }
    let (k, c) = match tok(ts, j) {
        Token::Catch => {
            let (k, has, ps) = match peek(ts, j, 1) {
                Token::LParen => {
                    let (k, ps) = scan_params(ts, j + 1)?;
                    (k, true, ps)
                },
                _ => {
                    let ps: Vec<String> = Vec::new();
                    assert(texts_of(ps@) =~= Seq::<Seq<char>>::empty());
                    (j + 1, false, ps)
                },
            };
            if k > j {
                let (q, body) = parse_block_at(ts, k)?;
                let mut c = flag_node(NodeKind::Catch, has, body);
                c.names = ps;
                (q, c)
            } else {
                return Err(ParseError::Unexpected(j));
            }
        },
        _ => (j, leaf(NodeKind::Empty)),
    };
    if k < j {
        return Err(ParseError::Unexpected(k));
    }
    match tok(ts, k) {
        Token::Finally => {
            let (q, f) = parse_block_at(ts, k + 1)?;
            Ok((q, kids_node(NodeKind::Try, three(exprs_node(block), c, exprs_node(f)))))
        },
        _ => Ok((k, kids_node(NodeKind::Try, three(exprs_node(block), c, leaf(NodeKind::Empty))))),
    }
}

/// The parts of a template literal from `i`.
#[verifier::rlimit(60)]
#[verifier::spinoff_prover]
fn template_items(ts: &Vec<Token>, i: usize, acc: Vec<Node>) -> (r: Result<(usize, Node), ParseError>)
    requires tokens_wf(views(ts@)),
    ensures res_node(r) == spec_template_items(views(ts@), i as nat, nodes_view(acc@)),
    decreases left(views(ts@), i as nat), 10nat, 0nat,
{
    let mut acc = acc;
    if i >= ts.len() {
        return Err(ParseError::Unexpected(i));
    }
    match tok(ts, i) {
        Token::Eof => Ok((i, kids_node(NodeKind::Template, acc))),
        Token::TemplateEnd => Ok((i + 1, kids_node(NodeKind::Template, acc))),
        Token::TemplateString(v) => {
            push_node(&mut acc, named_node(NodeKind::Str, v.clone()));
            template_items(ts, i + 1, acc)
        },
        Token::TemplateExprStart => {
            let (j, e) = parse_expression_at(ts, i + 1, true)?;
            let close = match tok(ts, j) {
                Token::RBrace => true,
                _ => false,
            };
            if j > i && close {
                push_node(&mut acc, exprs_node(e));
                template_items(ts, j + 1, acc)
            } else {
                Err(ParseError::Unexpected(j))
            }
        },
        _ => Err(ParseError::Unexpected(i)),
    }
}

/// `parse_all_expressions` from `i`.
#[verifier::rlimit(60)]
#[verifier::spinoff_prover]
fn all_expressions(ts: &Vec<Token>, i: usize, acc: Vec<Node>) -> (r: Result<(usize, Vec<Node>), ParseError>)
    requires tokens_wf(views(ts@)),
    ensures res_list(r) == spec_all_expressions(views(ts@), i as nat, nodes_view(acc@)),
    decreases left(views(ts@), i as nat), 41nat, 0nat,
{
    let mut acc = acc;
    if i >= ts.len() {
        return Err(ParseError::Unexpected(i));
    }
    match tok(ts, i) {
        Token::Eof => Ok((i, acc)),
        _ => {
            let (j, es) = parse_expression_at(ts, i, true)?;
            proof {
                crate::ast::lemma_nodes_view_len(es@);
            }
            if es.len() == 0 {
                Ok((j, acc))
            } else if j > i {
                append_nodes(&mut acc, es);
                all_expressions(ts, j, acc)
            } else {
                Err(ParseError::Unexpected(i))
            }
        },
    }
}

/// The statements of a program from `i`.
#[verifier::rlimit(60)]
#[verifier::spinoff_prover]
pub fn program_items(ts: &Vec<Token>, i: usize, acc: Vec<Node>) -> (r: Result<(usize, Vec<Node>), ParseError>)
    requires tokens_wf(views(ts@)),
    ensures res_list(r) == spec_program_items(views(ts@), i as nat, nodes_view(acc@)),
    decreases left(views(ts@), i as nat), 42nat, 0nat,
{
    let mut acc = acc;
    if i >= ts.len() {
        return Err(ParseError::Unexpected(i));
    }
    match tok(ts, i) {
        Token::Eof => {
            return Ok((i, acc));
        },
        _ => {},
    }
    let empty: Vec<Node> = Vec::new();
    assert(nodes_view(empty@) =~= Seq::<SNode>::empty());
    let (j, stmt) = all_expressions(ts, i, empty)?;
    proof {
        crate::ast::lemma_nodes_view_len(stmt@);
    }
    if j < i || j >= ts.len() {
        Err(ParseError::Unexpected(i))
    } else if stmt.len() > 0 {
        if j > i {
            append_nodes(&mut acc, stmt);
            program_items(ts, j, acc)
        } else {
            Err(ParseError::Unexpected(i))
        }
    } else if same_token(tok(ts, j), tok(ts, i)) {
        match tok(ts, j) {
            Token::Eof => Ok((j, acc)),
            _ => if j + 1 > i { program_items(ts, j + 1, acc) } else { Err(ParseError::Unexpected(i)) },
        }
    } else if j > i {
        program_items(ts, j, acc)
    } else {
        Err(ParseError::Unexpected(i))
    }
}

} // verus!
