//! The syntax tree that the parser builds: one node type whose kind says
//! what the node is, with its text, flags, operator, literal, names and
//! children laid out per kind.
use vstd::prelude::*;
use crate::token::{BinaryOp, Exponent, NumberLiteral, SpecNumber};
use crate::text::push_char;

verus! {

/// What a node of the syntax tree is. The layout of each kind:
/// - `Ident`, `Str`: `text`. `Bool`: `flag`. `Undefined`, `Null`, `Empty`: nothing.
/// - `Number`: `lit`, and `flag` when a `-` was written before it.
/// - `FloatZero`: the float zero that a unary minus subtracts from.
/// - `Exprs`: `children`, a list of expressions used as one.
/// - `Binary`: `op`, children `[left, right]`.
/// - `Not`, `Typeof`: children `[operand]`. `Prefix`, `Postfix`: the same,
///   and `flag` for `++`.
/// - `Member`: `[object, property]`. `Call`: `[callee, Exprs(arguments)]`.
/// - `Array`: the elements. `Object`: keys and values in turn.
/// - `Function`: `text` its name, `flag` generator, `flag2` whether it is
///   declared as a statement, `names` its parameters, children its body.
/// - `Class`: `text` its name, children `[superclass or Empty, methods...]`.
/// - `Conditional`: `[condition, then, else]`. `Assign`: `[target, value]`.
/// - `VarDecl`: `text` the name, children `[]` or `[Exprs(initializer)]`.
/// - `If`: conditions and `Exprs` bodies in turn.
/// - `Loop`: `names` the label if any, `flag` whether the body runs first,
///   children `[init, condition, update, Exprs(body), ForOf]`, each absent
///   one `Empty`. `ForOf`: `text` the variable, children `[Exprs(iterable)]`.
/// - `Return`, `Yield`, `YieldBreak`, `Throw`, `Break`, `Continue`: `names`
///   the label of a `break` or `continue` if any, children `[Exprs(value)]`.
/// - `Switch`: `[Exprs(value), cases...]`; `Case`: `[test, Exprs(body)]`;
///   `DefaultCase`: `[Exprs(body)]`.
/// - `Label`: `text`, children the labelled code.
/// - `Template`: its parts, `Str` for text and `Exprs` for `${...}`.
/// - `Try`: `[Exprs(block), Catch or Empty, Exprs(finally) or Empty]`;
///   `Catch`: `flag` whether it names parameters, `names` them, children its body.
#[derive(Debug, Clone, Copy, PartialEq, Eq, Structural)]
pub enum NodeKind {
    Ident,
    Number,
    FloatZero,
    Str,
    Bool,
    Undefined,
    Null,
    Empty,
    Exprs,
    Binary,
    Not,
    Prefix,
    Postfix,
    Typeof,
    Member,
    Call,
    Array,
    Object,
    Function,
    Class,
    Conditional,
    Assign,
    VarDecl,
    If,
    Loop,
    ForOf,
    Return,
    Yield,
    YieldBreak,
    Throw,
    Break,
    Continue,
    Switch,
    Case,
    DefaultCase,
    Label,
    Template,
    Try,
    Catch,
}

/// A node of the syntax tree.
#[derive(Debug, PartialEq)]
pub struct Node {
    pub kind: NodeKind,
    pub text: String,
    pub flag: bool,
    pub flag2: bool,
    pub op: Option<BinaryOp>,
    pub lit: Option<NumberLiteral>,
    pub names: Vec<String>,
    pub children: Vec<Node>,
}

/// A node of the syntax tree as a value.
pub struct SNode {
    pub kind: NodeKind,
    pub text: Seq<char>,
    pub flag: bool,
    pub flag2: bool,
    pub op: Option<BinaryOp>,
    pub lit: Option<SpecNumber>,
    pub names: Seq<Seq<char>>,
    pub children: Seq<SNode>,
}

/// The texts of a list of strings.
pub open spec fn texts_of(v: Seq<String>) -> Seq<Seq<char>> {
    v.map_values(|s: String| s@)
}

/// A node as a value.
pub open spec fn node_view(n: Node) -> SNode
    decreases n,
{
    SNode {
        kind: n.kind,
        text: n.text@,
        flag: n.flag,
        flag2: n.flag2,
        op: n.op,
        lit: match n.lit {
            Some(l) => Some(l@),
            None => None,
        },
        names: texts_of(n.names@),
        children: nodes_view(n.children@),
    }
}

/// A list of nodes as values.
pub open spec fn nodes_view(v: Seq<Node>) -> Seq<SNode>
    decreases v,
{
    if v.len() == 0 {
        Seq::empty()
    } else {
        nodes_view(v.drop_last()).push(node_view(v.last()))
    }
}

/// The node of kind `kind` with nothing else in it.
pub open spec fn sblank(kind: NodeKind) -> SNode {
    SNode {
        kind,
        text: Seq::empty(),
        flag: false,
        flag2: false,
        op: None,
        lit: None,
        names: Seq::empty(),
        children: Seq::empty(),
    }
}

/// Viewing a longer list views the shorter one and the added node.
pub proof fn lemma_nodes_view_push(v: Seq<Node>, x: Node)
    ensures nodes_view(v.push(x)) == nodes_view(v).push(node_view(x)),
{
    assert(v.push(x).drop_last() =~= v);
}

/// Viewing two lists put together views each.
pub proof fn lemma_nodes_view_add(a: Seq<Node>, b: Seq<Node>)
    ensures nodes_view(a + b) == nodes_view(a) + nodes_view(b),
    decreases b.len(),
{
    if b.len() == 0 {
        assert(a + b =~= a);
        assert(nodes_view(a) + nodes_view(b) =~= nodes_view(a));
    } else {
        lemma_nodes_view_add(a, b.drop_last());
        assert((a + b).drop_last() =~= a + b.drop_last());
        assert((a + b).last() == b.last());
        assert(nodes_view(a) + nodes_view(b) =~= (nodes_view(a) + nodes_view(b.drop_last())).push(node_view(b.last())));
    }
}

/// The length of a viewed list.
pub proof fn lemma_nodes_view_len(v: Seq<Node>)
    ensures nodes_view(v).len() == v.len(),
    decreases v.len(),
{
    if v.len() > 0 {
        lemma_nodes_view_len(v.drop_last());
    }
}

/// The node of kind `kind` with nothing else in it.
pub fn blank(kind: NodeKind) -> (r: Node)
    ensures node_view(r) == sblank(kind),
{
    let r = Node {
        kind,
        text: String::new(),
        flag: false,
        flag2: false,
        op: None,
        lit: None,
        names: Vec::new(),
        children: Vec::new(),
    };
    assert(texts_of(r.names@) =~= Seq::<Seq<char>>::empty());
    r
}

/// The node of kind `kind` with the given parts.
pub fn make(
    kind: NodeKind,
    text: String,
    flag: bool,
    op: Option<BinaryOp>,
    names: Vec<String>,
    children: Vec<Node>,
) -> (r: Node)
    ensures
        node_view(r) == (SNode {
            kind,
            text: text@,
            flag,
            flag2: false,
            op,
            lit: None,
            names: texts_of(names@),
            children: nodes_view(children@),
        }),
{
    Node { kind, text, flag, flag2: false, op, lit: None, names, children }
}

/// A copy of a string.
fn copy_string(s: &String) -> (r: String)
    ensures r@ == s@,
{
    s.clone()
}

/// A copy of a numeric literal.
pub fn copy_literal(l: &NumberLiteral) -> (r: NumberLiteral)
    ensures r@ == l@,
{
    NumberLiteral {
        mantissa: copy_string(&l.mantissa),
        exponent: match &l.exponent {
            Some(e) => Some(Exponent { negative: e.negative, digits: copy_string(&e.digits) }),
            None => None,
        },
    }
}

/// A copy of a list of strings.
fn copy_strings(v: &Vec<String>) -> (r: Vec<String>)
    ensures texts_of(r@) == texts_of(v@),
{
    let mut out: Vec<String> = Vec::new();
    let mut i: usize = 0;
    while i < v.len()
        invariant
            i <= v.len(),
            out@.len() == i,
            forall|j: int| 0 <= j < i ==> #[trigger] out@[j]@ == v@[j]@,
        decreases v.len() - i,
    {
        out.push(copy_string(&v[i]));
        i = i + 1;
    }
    assert(texts_of(out@) =~= texts_of(v@));
    out
}

/// A copy of a node and all below it.
pub fn copy_node(n: &Node) -> (r: Node)
    ensures node_view(r) == node_view(*n),
    decreases n,
{
    let mut kids: Vec<Node> = Vec::new();
    let mut i: usize = 0;
    while i < n.children.len()
        invariant
            i <= n.children.len(),
            nodes_view(kids@) == nodes_view(n.children@.take(i as int)),
        decreases n.children.len() - i,
    {
        proof {
            assert(decreases_to!(*n => n.children));
        }
        let c = copy_node(&n.children[i]);
        proof {
            lemma_nodes_view_push(kids@, c);
            assert(n.children@.take(i + 1) =~= n.children@.take(i as int).push(n.children@[i as int]));
            lemma_nodes_view_push(n.children@.take(i as int), n.children@[i as int]);
        }
        kids.push(c);
        i = i + 1;
    }
    assert(n.children@.take(n.children.len() as int) =~= n.children@);
    Node {
        kind: n.kind,
        text: copy_string(&n.text),
        flag: n.flag,
        flag2: n.flag2,
        op: n.op,
        lit: match &n.lit {
            Some(l) => Some(copy_literal(l)),
            None => None,
        },
        names: copy_strings(&n.names),
        children: kids,
    }
}

} // verus!
