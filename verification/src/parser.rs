//! The parser's cursor over the tokens of a source, the readers it is built
//! from, and the binding powers of the binary operators.
use vstd::prelude::*;
use crate::token::{NumberLiteral, SpecToken, Token};
use crate::text::str_eq;
use crate::lexer::{law_tokens_end_once, spec_tokenize, tokenize, try_tokenize, views};
use crate::ast::{nodes_view, node_view, texts_of, Node, SNode};
use crate::grammar::{spec_parse_block, spec_parse_call_or_primary, spec_parse_expression, spec_parse_loop, spec_parse_primary, spec_parse_program, spec_program_items};
use crate::parse::{call_or_primary, parse_block_at, parse_expression_at, parse_loop_at, parse_primary_at, program_items};

verus! {

/// Why the parser refused its input.
#[derive(Debug, Clone, Copy, PartialEq, Eq, Structural)]
pub enum ParseError {
    /// An identifier was expected at this token index.
    ExpectedIdentifier(usize),
    /// The token at this index cannot stand where it stands.
    Unexpected(usize),
    /// A `)` was expected at this token index.
    ExpectedCloseParen(usize),
    /// The source holds a block comment that is never closed, which the
    /// lexer would read for ever.
    UnclosedComment,
}

/// The parser's place in the tokens of one source.
pub struct Parser {
    tokens: Vec<Token>,
    index: usize,
}


/// Reading a parameter list from token `i` on, with the names `acc` read so
/// far: where it stops and the names, or `None` where the parser refuses
/// it. Identifiers are names; every other token up to a `)` or `=>` is
/// passed over, and a comma after a token is skipped with it.
pub open spec fn param_scan(ts: Seq<SpecToken>, i: nat, acc: Seq<Seq<char>>) -> Option<(nat, Seq<Seq<char>>)>
    decreases ts.len() - i,
{
    if i >= ts.len() || ts[i as int] is Eof {
        None
    } else if ts[i as int] is RParen {
        Some((i + 1, acc))
    } else if ts[i as int] is Arrow {
        Some((i, acc))
    } else {
        let acc2 = match ts[i as int] {
            SpecToken::Ident(s) => acc.push(s),
            _ => acc,
        };
        let k: nat = if i + 1 < ts.len() && ts[i + 1int] is Comma { i + 2 } else { i + 1 };
        param_scan(ts, k, acc2)
    }
}

/// Whether two number literals are written alike.
fn same_literal(a: &NumberLiteral, b: &NumberLiteral) -> (r: bool)
    ensures r == (a@ == b@),
{
    if !str_eq(a.mantissa.as_str(), b.mantissa.as_str()) {
        return false;
    }
    match (&a.exponent, &b.exponent) {
        (None, None) => true,
        (Some(x), Some(y)) => x.negative == y.negative && str_eq(x.digits.as_str(), y.digits.as_str()),
        _ => false,
    }
}

/// Whether two tokens are the same token.
pub(crate) fn same_token(a: &Token, b: &Token) -> (r: bool)
    ensures r == (a@ == b@),
{
    match (a, b) {
        (Token::Ident(x), Token::Ident(y)) => str_eq(x.as_str(), y.as_str()),
        (Token::Str(x), Token::Str(y)) => str_eq(x.as_str(), y.as_str()),
        (Token::TemplateString(x), Token::TemplateString(y)) => str_eq(x.as_str(), y.as_str()),
        (Token::Regex(x), Token::Regex(y)) => str_eq(x.as_str(), y.as_str()),
        (Token::Number(x), Token::Number(y)) => same_literal(x, y),
        (Token::Assign(x), Token::Assign(y)) => match (x, y) {
            (None, None) => true,
            (Some(p), Some(q)) => *p == *q,
            _ => false,
        },
        (Token::TemplateStart, Token::TemplateStart) => true,
        (Token::TemplateEnd, Token::TemplateEnd) => true,
        (Token::TemplateExprStart, Token::TemplateExprStart) => true,
        (Token::True, Token::True) => true,
        (Token::False, Token::False) => true,
        (Token::Undefined, Token::Undefined) => true,
        (Token::Null, Token::Null) => true,
        (Token::Function, Token::Function) => true,
        (Token::Class, Token::Class) => true,
        (Token::Return, Token::Return) => true,
        (Token::Let, Token::Let) => true,
        (Token::Const, Token::Const) => true,
        (Token::Var, Token::Var) => true,
        (Token::New, Token::New) => true,
        (Token::While, Token::While) => true,
        (Token::For, Token::For) => true,
        (Token::Do, Token::Do) => true,
        (Token::Break, Token::Break) => true,
        (Token::Continue, Token::Continue) => true,
        (Token::Yield, Token::Yield) => true,
        (Token::If, Token::If) => true,
        (Token::Else, Token::Else) => true,
        (Token::Switch, Token::Switch) => true,
        (Token::Case, Token::Case) => true,
        (Token::Default, Token::Default) => true,
        (Token::Of, Token::Of) => true,
        (Token::Typeof, Token::Typeof) => true,
        (Token::Void, Token::Void) => true,
        (Token::InstanceOf, Token::InstanceOf) => true,
        (Token::LParen, Token::LParen) => true,
        (Token::RParen, Token::RParen) => true,
        (Token::LBrace, Token::LBrace) => true,
        (Token::RBrace, Token::RBrace) => true,
        (Token::LBracket, Token::LBracket) => true,
        (Token::RBracket, Token::RBracket) => true,
        (Token::Comma, Token::Comma) => true,
        (Token::Semicolon, Token::Semicolon) => true,
        (Token::Dot, Token::Dot) => true,
        (Token::QMark, Token::QMark) => true,
        (Token::Colon, Token::Colon) => true,
        (Token::Plus, Token::Plus) => true,
        (Token::PlusPlus, Token::PlusPlus) => true,
        (Token::Minus, Token::Minus) => true,
        (Token::MinusMinus, Token::MinusMinus) => true,
        (Token::Star, Token::Star) => true,
        (Token::Slash, Token::Slash) => true,
        (Token::Mod, Token::Mod) => true,
        (Token::Eq, Token::Eq) => true,
        (Token::NotEq, Token::NotEq) => true,
        (Token::Not, Token::Not) => true,
        (Token::Lt, Token::Lt) => true,
        (Token::Gt, Token::Gt) => true,
        (Token::LtEq, Token::LtEq) => true,
        (Token::GtEq, Token::GtEq) => true,
        (Token::Arrow, Token::Arrow) => true,
        (Token::And, Token::And) => true,
        (Token::Or, Token::Or) => true,
        (Token::XOr, Token::XOr) => true,
        (Token::ShiftL, Token::ShiftL) => true,
        (Token::ShiftR, Token::ShiftR) => true,
        (Token::Try, Token::Try) => true,
        (Token::Catch, Token::Catch) => true,
        (Token::Finally, Token::Finally) => true,
        (Token::Throw, Token::Throw) => true,
        (Token::Eof, Token::Eof) => true,
        _ => false,
    }
}

/// Where the parser stands after a routine that stopped at `j`: there, or
/// on the end of input, the last token, when `j` lies past it.
pub open spec fn stop(ts: Seq<SpecToken>, j: nat) -> nat {
    if j < ts.len() { j } else { (ts.len() - 1) as nat }
}

/// The label of a loop as a list of at most one name.
pub open spec fn label_texts(label: Option<String>) -> Seq<Seq<char>> {
    match label {
        Some(l) => seq![l@],
        None => Seq::empty(),
    }
}

/// Parses a whole source text: its statements, or the reason it is
/// refused, as `spec_parse_program` says of its tokens.
pub fn parse(input: &str) -> (r: Result<Vec<Node>, ParseError>)
    ensures
        match spec_tokenize(input@) {
            None => r == Err::<Vec<Node>, ParseError>(ParseError::UnclosedComment),
            Some(ts) => match spec_parse_program(ts) {
                Some(body) => r matches Ok(v) && nodes_view(v@) == body,
                None => r is Err,
            },
        },
{
    match try_tokenize(input) {
        None => Err(ParseError::UnclosedComment),
        Some(tokens) => {
            proof {
                law_tokens_end_once(input@);
            }
            let mut p = Parser { tokens, index: 0 };
            p.parse_program()
        },
    }
}

impl Parser {
    /// The tokens, as values.
    pub closed spec fn toks(&self) -> Seq<SpecToken> {
        views(self.tokens@)
    }

    /// The index of the token the parser stands on.
    pub closed spec fn pos(&self) -> nat {
        self.index as nat
    }

    /// The tokens end with the end of input, which comes nowhere before,
    /// and the parser stands on one of them.
    pub closed spec fn wf(&self) -> bool {
        &&& self.tokens@.len() > 0
        &&& views(self.tokens@).last() is Eof
        &&& forall|i: int| 0 <= i < self.tokens@.len() - 1 ==> !(#[trigger] views(self.tokens@)[i] is Eof)
        &&& self.index < self.tokens@.len()
    }

    /// A parser at the first token of `input`.
    pub fn new(input: &str) -> (p: Parser)
        requires spec_tokenize(input@) is Some,
        ensures
            p.wf(),
            p.toks() == spec_tokenize(input@)->0,
            p.pos() == 0,
    {
        let tokens = tokenize(input);
        proof {
            law_tokens_end_once(input@);
        }
        Parser { tokens, index: 0 }
    }

    /// Moves to where a routine that stopped at `j` leaves the parser.
    fn stand_at(&mut self, j: usize)
        requires old(self).wf(),
        ensures
            final(self).wf(),
            final(self).toks() == old(self).toks(),
            final(self).pos() == stop(old(self).toks(), j as nat),
    {
        if j < self.tokens.len() {
            self.index = j;
        } else {
            self.index = self.tokens.len() - 1;
        }
    }

    /// `parse_expression(multi)`: the expressions from here up to a closing
    /// token or past a `;`, or only the first when `multi` is off.
    pub fn parse_expression(&mut self, multi: bool) -> (r: Result<Vec<Node>, ParseError>)
        requires old(self).wf(),
        ensures
            final(self).wf(),
            final(self).toks() == old(self).toks(),
            match spec_parse_expression(old(self).toks(), old(self).pos(), multi) {
                Some((j, es)) => r matches Ok(v) && nodes_view(v@) == es
                    && final(self).pos() == stop(old(self).toks(), j),
                None => r is Err && final(self).pos() == old(self).pos(),
            },
    {
        match parse_expression_at(&self.tokens, self.index, multi) {
            Ok((j, v)) => {
                self.stand_at(j);
                Ok(v)
            },
            Err(e) => Err(e),
        }
    }

    /// `parse_block`: a `{` block's statements up to and past its `}`, or
    /// the expressions of a statement without braces.
    pub fn parse_block(&mut self) -> (r: Result<Vec<Node>, ParseError>)
        requires old(self).wf(),
        ensures
            final(self).wf(),
            final(self).toks() == old(self).toks(),
            match spec_parse_block(old(self).toks(), old(self).pos()) {
                Some((j, es)) => r matches Ok(v) && nodes_view(v@) == es
                    && final(self).pos() == stop(old(self).toks(), j),
                None => r is Err && final(self).pos() == old(self).pos(),
            },
    {
        match parse_block_at(&self.tokens, self.index) {
            Ok((j, v)) => {
                self.stand_at(j);
                Ok(v)
            },
            Err(e) => Err(e),
        }
    }

    /// `parse_primary`: one operand, with what follows it (calls, members,
    /// postfix operators, a conditional).
    pub fn parse_primary(&mut self) -> (r: Result<Node, ParseError>)
        requires old(self).wf(),
        ensures
            final(self).wf(),
            final(self).toks() == old(self).toks(),
            match spec_parse_primary(old(self).toks(), old(self).pos()) {
                Some((j, e)) => r matches Ok(n) && node_view(n) == e
                    && final(self).pos() == stop(old(self).toks(), j),
                None => r is Err && final(self).pos() == old(self).pos(),
            },
    {
        match parse_primary_at(&self.tokens, self.index) {
            Ok((j, n)) => {
                self.stand_at(j);
                Ok(n)
            },
            Err(e) => Err(e),
        }
    }

    /// `parse_call_or_primary(root)`: a unary operator and its operand, or
    /// a primary expression.
    pub fn parse_call_or_primary(&mut self, root: bool) -> (r: Result<Node, ParseError>)
        requires old(self).wf(),
        ensures
            final(self).wf(),
            final(self).toks() == old(self).toks(),
            match spec_parse_call_or_primary(old(self).toks(), old(self).pos(), root) {
                Some((j, e)) => r matches Ok(n) && node_view(n) == e
                    && final(self).pos() == stop(old(self).toks(), j),
                None => r is Err && final(self).pos() == old(self).pos(),
            },
    {
        match call_or_primary(&self.tokens, self.index, root) {
            Ok((j, n)) => {
                self.stand_at(j);
                Ok(n)
            },
            Err(e) => Err(e),
        }
    }

    /// `LoopExpr::parse_with_label`: a `while` or `for` loop from its
    /// keyword, carrying `label` when one was written before it.
    pub fn parse_loop(&mut self, label: Option<String>) -> (r: Result<Node, ParseError>)
        requires old(self).wf(),
        ensures
            final(self).wf(),
            final(self).toks() == old(self).toks(),
            match spec_parse_loop(old(self).toks(), old(self).pos(), label_texts(label)) {
                Some((j, e)) => r matches Ok(n) && node_view(n) == e
                    && final(self).pos() == stop(old(self).toks(), j),
                None => r is Err && final(self).pos() == old(self).pos(),
            },
    {
        let mut names: Vec<String> = Vec::new();
        match label {
            Some(l) => names.push(l),
            None => {},
        }
        assert(texts_of(names@) =~= label_texts(label));
        match parse_loop_at(&self.tokens, self.index, names) {
            Ok((j, n)) => {
                self.stand_at(j);
                Ok(n)
            },
            Err(e) => Err(e),
        }
    }

    /// `parse_program`: every statement of the source from here to the end
    /// of input.
    pub fn parse_program(&mut self) -> (r: Result<Vec<Node>, ParseError>)
        requires old(self).wf(),
        ensures
            final(self).wf(),
            final(self).toks() == old(self).toks(),
            match spec_program_items(old(self).toks(), old(self).pos(), Seq::empty()) {
                Some((j, body)) => r matches Ok(v) && nodes_view(v@) == body
                    && final(self).pos() == stop(old(self).toks(), j),
                None => r is Err && final(self).pos() == old(self).pos(),
            },
    {
        let acc: Vec<Node> = Vec::new();
        assert(nodes_view(acc@) =~= Seq::<SNode>::empty());
        match program_items(&self.tokens, self.index, acc) {
            Ok((j, v)) => {
                self.stand_at(j);
                Ok(v)
            },
            Err(e) => Err(e),
        }
    }

    /// The index of the token the parser stands on.
    pub fn index(&self) -> (r: usize)
        ensures r == self.pos(),
    {
        self.index
    }

    /// The tokens of the source.
    pub fn tokens(&self) -> (r: &[Token])
        ensures views(r@) == self.toks(),
    {
        self.tokens.as_slice()
    }

    /// Moves past the current token, which is not the end of input.
    pub fn bump(&mut self)
        requires
            old(self).wf(),
            !(old(self).toks()[old(self).pos() as int] is Eof),
        ensures
            final(self).wf(),
            final(self).toks() == old(self).toks(),
            final(self).pos() == old(self).pos() + 1,
    {
        let _n = self.tokens.len();
        assert(self.index < self.tokens@.len() - 1) by {
            if self.index == self.tokens@.len() - 1 {
                assert(views(self.tokens@)[self.index as int] == views(self.tokens@).last());
            }
        }
        self.index = self.index + 1;
    }

    /// Moves on to the first token from here that is `token`, or to the end
    /// of input.
    pub fn skip_to(&mut self, token: Token)
        requires old(self).wf(),
        ensures
            final(self).wf(),
            final(self).toks() == old(self).toks(),
            old(self).pos() <= final(self).pos(),
            final(self).toks()[final(self).pos() as int] == token@
                || final(self).toks()[final(self).pos() as int] is Eof,
            forall|k: int| old(self).pos() <= k < final(self).pos()
                ==> #[trigger] old(self).toks()[k] != token@ && !(old(self).toks()[k] is Eof),
    {
        let ghost start = self.pos();
        loop
            invariant
                self.wf(),
                self.toks() == old(self).toks(),
                start == old(self).pos(),
                start <= self.pos(),
                forall|k: int| start <= k < self.pos()
                    ==> #[trigger] old(self).toks()[k] != token@ && !(old(self).toks()[k] is Eof),
            decreases self.toks().len() - self.pos(),
        {
            let i = self.index;
            assert(self.toks()[i as int] == self.tokens@[i as int]@);
            let at_eof = match &self.tokens[i] {
                Token::Eof => true,
                _ => false,
            };
            if at_eof || same_token(&self.tokens[i], &token) {
                return;
            }
            self.bump();
        }
    }

    /// Reads the name of the identifier the parser stands on and moves past
    /// it; any other token is refused.
    pub fn expect_ident(&mut self) -> (r: Result<String, ParseError>)
        requires old(self).wf(),
        ensures
            final(self).wf(),
            final(self).toks() == old(self).toks(),
            match old(self).toks()[old(self).pos() as int] {
                SpecToken::Ident(name) => r matches Ok(s) && s@ == name
                    && final(self).pos() == old(self).pos() + 1,
                _ => r == Err::<String, ParseError>(ParseError::ExpectedIdentifier(old(self).pos() as usize))
                    && final(self).pos() == old(self).pos(),
            },
    {
        assert(self.toks()[self.index as int] == self.tokens@[self.index as int]@);
        let name = match &self.tokens[self.index] {
            Token::Ident(s) => s.clone(),
            _ => {
                return Err(ParseError::ExpectedIdentifier(self.index));
            },
        };
        self.bump();
        Ok(name)
    }

    /// Reads the names of a parameter list up to and past its `)`, or up
    /// to a `=>` that ends it; a list that the input ends in is refused.
    pub fn parse_param_list(&mut self) -> (r: Result<Vec<String>, ParseError>)
        requires old(self).wf(),
        ensures
            final(self).wf(),
            final(self).toks() == old(self).toks(),
            match param_scan(old(self).toks(), old(self).pos(), Seq::empty()) {
                Some((j, ns)) => r matches Ok(v) && texts_of(v@) == ns && final(self).pos() == j,
                None => r is Err,
            },
    {
        let ghost ts = self.toks();
        let ghost start = self.pos();
        let mut params: Vec<String> = Vec::new();
        assert(texts_of(params@) =~= Seq::<Seq<char>>::empty());
        loop
            invariant
                self.wf(),
                self.toks() == ts,
                ts == old(self).toks(),
                start == old(self).pos(),
                param_scan(ts, self.pos(), texts_of(params@)) == param_scan(ts, start, Seq::empty()),
            decreases ts.len() - self.pos(),
        {
            let i = self.index;
            assert(ts[i as int] == self.tokens@[i as int]@);
            match &self.tokens[i] {
                Token::RParen => {
                    self.bump();
                    return Ok(params);
                },
                Token::Arrow => {
                    return Ok(params);
                },
                Token::Eof => {
                    return Err(ParseError::ExpectedCloseParen(i));
                },
                Token::Ident(s) => {
                    let ghost before = params@;
                    params.push(s.clone());
                    assert(texts_of(params@) =~= texts_of(before).push(ts[i as int]->Ident_0));
                },
                _ => {},
            }
            self.bump();
            let j = self.index;
            assert(ts[j as int] == self.tokens@[j as int]@);
            let comma = match &self.tokens[j] {
                Token::Comma => true,
                _ => false,
            };
            if comma {
                self.bump();
            }
        }
    }
}

/// The binding powers, left and right, of the binary operator token `t`
/// when `next` follows it: `||` and `&&` are read from two `|` or `&`
/// tokens; `None` for a token that is no binary operator.
pub open spec fn spec_precedence(t: SpecToken, next: Option<SpecToken>) -> Option<(u8, u8)> {
    match t {
        SpecToken::QMark | SpecToken::Colon => Some((4, 5)),
        SpecToken::Or => if next == Some(SpecToken::Or) { Some((6, 7)) } else { Some((10, 11)) },
        SpecToken::And => if next == Some(SpecToken::And) { Some((8, 9)) } else { Some((14, 15)) },
        SpecToken::XOr => Some((12, 13)),
        SpecToken::Eq | SpecToken::NotEq => Some((16, 17)),
        SpecToken::InstanceOf | SpecToken::Lt | SpecToken::Gt | SpecToken::LtEq | SpecToken::GtEq => Some((18, 19)),
        SpecToken::ShiftL | SpecToken::ShiftR => Some((20, 21)),
        SpecToken::Plus | SpecToken::Minus => Some((22, 23)),
        SpecToken::Star | SpecToken::Slash | SpecToken::Mod => Some((24, 25)),
        _ => None,
    }
}

/// Whether the operator `h` (followed by `hn`) binds tighter than `l`
/// (followed by `ln`): in `a l b h c` it takes `b`, giving `a l (b h c)`,
/// and in `a h b l c` it keeps it, giving `(a h b) l c`.
pub open spec fn binds_tighter(h: SpecToken, hn: Option<SpecToken>, l: SpecToken, ln: Option<SpecToken>) -> bool {
    match (spec_precedence(h, hn), spec_precedence(l, ln)) {
        (Some((hl, hr)), Some((ll, lr))) => hl >= lr && ll < hr,
        _ => false,
    }
}

/// Whether in `a y b x c` the operator `x` leaves `b` to `y`, giving
/// `(a y b) x c`: operators of one level group from the left.
pub open spec fn groups_left(x: SpecToken, xn: Option<SpecToken>, y: SpecToken, yn: Option<SpecToken>) -> bool {
    match (spec_precedence(x, xn), spec_precedence(y, yn)) {
        (Some((xl, _)), Some((_, yr))) => xl < yr,
        _ => false,
    }
}

/// `*`, `/` and `%`.
pub open spec fn multiplicative(t: SpecToken) -> bool {
    t is Star || t is Slash || t is Mod
}

/// `+` and `-`.
pub open spec fn additive(t: SpecToken) -> bool {
    t is Plus || t is Minus
}

/// `<<` and `>>`.
pub open spec fn shift(t: SpecToken) -> bool {
    t is ShiftL || t is ShiftR
}

/// `<`, `>`, `<=`, `>=` and `instanceof`.
pub open spec fn relational(t: SpecToken) -> bool {
    t is Lt || t is Gt || t is LtEq || t is GtEq || t is InstanceOf
}

/// `==` and `!=`.
pub open spec fn equality(t: SpecToken) -> bool {
    t is Eq || t is NotEq
}

/// JavaScript's precedence of binary operators: multiplicative operators
/// bind tighter than additive ones, additive than shifts, shifts than
/// relational operators, relational than equality, equality than `&`,
/// `&` than `^`, `^` than `|`, `|` than `&&`, and `&&` than `||`; so
/// `a < b - c` groups as `a < (b - c)`. Within each of the first five
/// levels operators group from the left, as in `(1 - 2) + 3`.
pub proof fn law_operator_precedence()
    ensures
        forall|m: SpecToken, mn: Option<SpecToken>, a: SpecToken, an: Option<SpecToken>|
            multiplicative(m) && additive(a) ==> #[trigger] binds_tighter(m, mn, a, an),
        forall|a: SpecToken, an: Option<SpecToken>, s: SpecToken, sn: Option<SpecToken>|
            additive(a) && shift(s) ==> #[trigger] binds_tighter(a, an, s, sn),
        forall|s: SpecToken, sn: Option<SpecToken>, r: SpecToken, rn: Option<SpecToken>|
            (shift(s) || additive(s) || multiplicative(s)) && relational(r) ==> #[trigger] binds_tighter(s, sn, r, rn),
        forall|r: SpecToken, rn: Option<SpecToken>, e: SpecToken, en: Option<SpecToken>|
            relational(r) && equality(e) ==> #[trigger] binds_tighter(r, rn, e, en),
        forall|e: SpecToken, en: Option<SpecToken>, n: Option<SpecToken>|
            equality(e) && n != Some(SpecToken::And) ==> #[trigger] binds_tighter(e, en, SpecToken::And, n),
        forall|n: Option<SpecToken>, xn: Option<SpecToken>|
            n != Some(SpecToken::And) ==> #[trigger] binds_tighter(SpecToken::And, n, SpecToken::XOr, xn),
        forall|xn: Option<SpecToken>, n: Option<SpecToken>|
            n != Some(SpecToken::Or) ==> #[trigger] binds_tighter(SpecToken::XOr, xn, SpecToken::Or, n),
        forall|n: Option<SpecToken>|
            n != Some(SpecToken::Or) ==> #[trigger] binds_tighter(SpecToken::Or, n, SpecToken::And, Some(SpecToken::And)),
        binds_tighter(SpecToken::And, Some(SpecToken::And), SpecToken::Or, Some(SpecToken::Or)),
        forall|x: SpecToken, xn: Option<SpecToken>, y: SpecToken, yn: Option<SpecToken>|
            ((multiplicative(x) && multiplicative(y)) || (additive(x) && additive(y)) || (shift(x) && shift(y))
                || (relational(x) && relational(y)) || (equality(x) && equality(y)))
                ==> #[trigger] groups_left(x, xn, y, yn),
{
}

/// The binding powers of the binary operator `tok` followed by `next`.
pub fn precedence(tok: &Token, next: Option<&Token>) -> (r: Option<(u8, u8)>)
    ensures
        r == spec_precedence(tok@, match next {
            Some(t) => Some(t@),
            None => None,
        }),
{
    let next_or = match next {
        Some(Token::Or) => true,
        _ => false,
    };
    let next_and = match next {
        Some(Token::And) => true,
        _ => false,
    };
    match tok {
        Token::QMark | Token::Colon => Some((4, 5)),
        Token::Or => if next_or { Some((6, 7)) } else { Some((10, 11)) },
        Token::And => if next_and { Some((8, 9)) } else { Some((14, 15)) },
        Token::XOr => Some((12, 13)),
        Token::Eq | Token::NotEq => Some((16, 17)),
        Token::InstanceOf | Token::Lt | Token::Gt | Token::LtEq | Token::GtEq => Some((18, 19)),
        Token::ShiftL | Token::ShiftR => Some((20, 21)),
        Token::Plus | Token::Minus => Some((22, 23)),
        Token::Star | Token::Slash | Token::Mod => Some((24, 25)),
        _ => None,
    }
}

} // verus!
