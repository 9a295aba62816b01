//! The lexer: from source text to tokens, one token per call, with the
//! state that template literals and line breaks need between calls.
use vstd::prelude::*;
use crate::text::push_char;
use crate::chars::{
    belongs, in_run, is_ascii_digit, is_ident_start, is_white_space, lemma_run_end_bounds,
    lemma_run_end_maximal, run_end, spec_ident_start, white_space, Run,
};
use crate::token::{keyword_token, BinaryOp, Exponent, NumberLiteral, SpecNumber, SpecToken, Token};

verus! {

/// The state of the lexer between two calls, besides its input.
pub struct LexState {
    /// Index of the next character to read.
    pub pos: nat,
    /// A token that the previous call produced and has not handed out yet.
    pub pending: Option<SpecToken>,
    /// Inside the text of a template literal.
    pub template_mode: bool,
    /// Inside a `${...}` of a template literal.
    pub in_template_expr: bool,
    /// Braces opened inside the current `${...}`.
    pub depth: nat,
    /// A line break was skipped since the last token.
    pub line_terminator: bool,
}

/// What reading the character at the current position does.
pub enum Step {
    /// Nothing to hand out yet: go on from the new state.
    Skip(LexState),
    /// The token and the state after it.
    Emit(LexState, SpecToken),
    /// The lexer never returns (a block comment that is not closed in
    /// the way the lexer recognises).
    Diverge,
}

/// Where reading the text of a template literal stopped.
pub enum TemplateStop {
    /// At the closing backquote.
    Close,
    /// At a `${`.
    ExprStart,
    /// At the end of the input.
    End,
}

pub open spec fn char_at(s: Seq<char>, p: nat) -> Option<char> {
    if p < s.len() { Some(s[p as int]) } else { None }
}

/// The character that an escape `\c` stands for.
pub open spec fn unescape(c: char) -> char {
    if c == 'n' { '\n' }
    else if c == 'r' { '\r' }
    else if c == 't' { '\t' }
    else { c }
}

/// Reading the escape that starts with the backslash at `p`: the position
/// after it and the characters it gives (none when the input ends).
pub open spec fn read_escape(s: Seq<char>, p: nat) -> (nat, Seq<char>) {
    if p + 1 < s.len() {
        (p + 2, seq![unescape(s[p + 1int])])
    } else {
        (p + 1, Seq::empty())
    }
}

/// Reading a quoted text from `p` up to and past the quote `q` (or to the
/// end of the input): the position after it and the text, escapes decoded.
pub open spec fn quoted(s: Seq<char>, p: nat, q: char) -> (nat, Seq<char>)
    decreases s.len() - p,
{
    if p >= s.len() {
        (p, Seq::empty())
    } else if s[p as int] == '\\' {
        let (p2, e) = read_escape(s, p);
        let (r, rest) = quoted(s, p2, q);
        (r, e + rest)
    } else if s[p as int] == q {
        (p + 1, Seq::empty())
    } else {
        let (r, rest) = quoted(s, p + 1, q);
        (r, seq![s[p as int]] + rest)
    }
}

/// Reading the text of a template literal from `p`: the position after
/// it, the text with escapes decoded, and where it stopped.
pub open spec fn template_scan(s: Seq<char>, p: nat) -> (nat, Seq<char>, TemplateStop)
    decreases s.len() - p,
{
    if p >= s.len() {
        (p, Seq::empty(), TemplateStop::End)
    } else if s[p as int] == '`' {
        (p + 1, Seq::empty(), TemplateStop::Close)
    } else if s[p as int] == '$' && p + 1 < s.len() && s[p + 1int] == '{' {
        (p + 2, Seq::empty(), TemplateStop::ExprStart)
    } else if s[p as int] == '\\' {
        let (p2, e) = read_escape(s, p);
        let (r, rest, stop) = template_scan(s, p2);
        (r, e + rest, stop)
    } else {
        let (r, rest, stop) = template_scan(s, p + 1);
        (r, seq![s[p as int]] + rest, stop)
    }
}

/// Skipping the body of a block comment from `p`, noting line breaks in
/// `lt`: the position after the closing `*/`, or `None` when the lexer
/// would never find it. A character right after a `*` is passed over
/// unexamined, as the lexer does.
pub open spec fn block_comment(s: Seq<char>, p: nat, lt: bool) -> Option<(nat, bool)>
    decreases s.len() - p,
{
    if p >= s.len() {
        None
    } else {
        let lt2 = lt || s[p as int] == '\n' || s[p as int] == '\r';
        if s[p as int] == '*' {
            if p + 1 < s.len() && s[p + 1int] == '/' {
                Some((p + 2, lt2))
            } else if p + 1 < s.len() {
                block_comment(s, p + 2, lt2)
            } else {
                None
            }
        } else {
            block_comment(s, p + 1, lt2)
        }
    }
}

/// The token of a fixed operator or punctuator that starts at `p`, and the
/// position after it.
pub open spec fn op_token(s: Seq<char>, p: nat) -> Option<(SpecToken, nat)> {
    let c = s[p as int];
    let n1 = char_at(s, p + 1);
    let n2 = char_at(s, p + 2);
    if c == '<' {
        if n1 == Some('=') { Some((SpecToken::LtEq, p + 2)) }
        else if n1 == Some('<') {
            if n2 == Some('=') { Some((SpecToken::Assign(Some(BinaryOp::ShiftL)), p + 3)) }
            else { Some((SpecToken::ShiftL, p + 2)) }
        }
        else { Some((SpecToken::Lt, p + 1)) }
    } else if c == '&' {
        if n1 == Some('=') { Some((SpecToken::Assign(Some(BinaryOp::BinAnd)), p + 2)) }
        else { Some((SpecToken::And, p + 1)) }
    } else if c == '|' {
        if n1 == Some('=') { Some((SpecToken::Assign(Some(BinaryOp::BinOr)), p + 2)) }
        else { Some((SpecToken::Or, p + 1)) }
    } else if c == '^' {
        if n1 == Some('=') { Some((SpecToken::Assign(Some(BinaryOp::XOr)), p + 2)) }
        else { Some((SpecToken::XOr, p + 1)) }
    } else if c == '(' { Some((SpecToken::LParen, p + 1)) }
    else if c == ')' { Some((SpecToken::RParen, p + 1)) }
    else if c == '{' { Some((SpecToken::LBrace, p + 1)) }
    else if c == '}' { Some((SpecToken::RBrace, p + 1)) }
    else if c == '[' { Some((SpecToken::LBracket, p + 1)) }
    else if c == ']' { Some((SpecToken::RBracket, p + 1)) }
    else if c == ',' { Some((SpecToken::Comma, p + 1)) }
    else if c == ';' { Some((SpecToken::Semicolon, p + 1)) }
    else if c == ':' { Some((SpecToken::Colon, p + 1)) }
    else if c == '=' {
        if n1 == Some('>') { Some((SpecToken::Arrow, p + 2)) }
        else if n1 == Some('=') {
            if n2 == Some('=') { Some((SpecToken::Eq, p + 3)) } else { Some((SpecToken::Eq, p + 2)) }
        }
        else { Some((SpecToken::Assign(None), p + 1)) }
    } else if c == '!' {
        if n1 == Some('=') {
            if n2 == Some('=') { Some((SpecToken::NotEq, p + 3)) } else { Some((SpecToken::NotEq, p + 2)) }
        }
        else { Some((SpecToken::Not, p + 1)) }
    } else if c == '?' { Some((SpecToken::QMark, p + 1)) }
    else if c == '>' {
        if n1 == Some('=') { Some((SpecToken::GtEq, p + 2)) }
        else if n1 == Some('>') {
            let q: nat = if n2 == Some('>') { p + 3 } else { p + 2 };
            if char_at(s, q) == Some('=') { Some((SpecToken::Assign(Some(BinaryOp::ShiftR)), q + 1)) }
            else { Some((SpecToken::ShiftR, q)) }
        }
        else { Some((SpecToken::Gt, p + 1)) }
    } else if c == '%' {
        if n1 == Some('=') { Some((SpecToken::Assign(Some(BinaryOp::Mod)), p + 2)) }
        else { Some((SpecToken::Mod, p + 1)) }
    } else if c == '+' {
        if n1 == Some('+') { Some((SpecToken::PlusPlus, p + 2)) }
        else if n1 == Some('=') { Some((SpecToken::Assign(Some(BinaryOp::Add)), p + 2)) }
        else { Some((SpecToken::Plus, p + 1)) }
    } else if c == '-' {
        if n1 == Some('-') { Some((SpecToken::MinusMinus, p + 2)) }
        else if n1 == Some('=') { Some((SpecToken::Assign(Some(BinaryOp::Sub)), p + 2)) }
        else { Some((SpecToken::Minus, p + 1)) }
    } else if c == '*' {
        if n1 == Some('=') { Some((SpecToken::Assign(Some(BinaryOp::Mul)), p + 2)) }
        else { Some((SpecToken::Star, p + 1)) }
    } else {
        None
    }
}

/// The numeric literal (or lone `.`) whose run of digits and dots starts
/// at `p`, and the position after it.
pub open spec fn number_token(s: Seq<char>, p: nat) -> (SpecToken, nat) {
    let e = run_end(s, p, Run::DigitOrDot);
    let text = s.subrange(p as int, e as int);
    if text == seq!['.'] {
        (SpecToken::Dot, e)
    } else {
        let mantissa = if text[0] == '.' { seq!['0'] + text } else { text };
        let (exponent, q) = if char_at(s, e) == Some('e') || char_at(s, e) == Some('E') {
            let neg = char_at(s, e + 1) == Some('-');
            let d: nat = if char_at(s, e + 1) == Some('+') || char_at(s, e + 1) == Some('-') {
                e + 2
            } else {
                e + 1
            };
            let de = run_end(s, d, Run::Digit);
            (Some((neg, s.subrange(d as int, de as int))), de)
        } else {
            (None, e)
        };
        let r: nat = if char_at(s, q) == Some('n') { q + 1 } else { q };
        (SpecToken::Number(SpecNumber { mantissa, exponent }), r)
    }
}

/// Whether a `/` after the token `t` begins a division rather than a
/// regular expression.
pub open spec fn ends_operand(t: SpecToken) -> bool {
    match t {
        SpecToken::Ident(_) | SpecToken::Number(_) | SpecToken::Str(_) | SpecToken::RParen
        | SpecToken::RBrace | SpecToken::RBracket => true,
        _ => false,
    }
}

/// Whether a `/` after the tokens `prev` may begin a regular expression.
pub open spec fn regex_allowed(prev: Seq<SpecToken>) -> bool {
    prev.len() > 0 && !ends_operand(prev.last())
}

/// What the character at `st.pos` makes the lexer do, outside template text.
pub open spec fn char_step(s: Seq<char>, st: LexState, regex_ok: bool) -> Step
    recommends st.pos < s.len(),
{
    let p = st.pos;
    let c = s[p as int];
    if st.in_template_expr && c == '{' {
        Step::Emit(LexState { pos: p + 1, depth: st.depth + 1, ..st }, SpecToken::LBrace)
    } else if st.in_template_expr && c == '}' {
        if st.depth == 0 {
            Step::Emit(
                LexState { pos: p + 1, in_template_expr: false, template_mode: true, ..st },
                SpecToken::RBrace,
            )
        } else {
            Step::Emit(LexState { pos: p + 1, depth: (st.depth - 1) as nat, ..st }, SpecToken::RBrace)
        }
    } else if is_white_space(c) {
        Step::Skip(LexState {
            pos: p + 1,
            line_terminator: st.line_terminator || c == '\n' || c == '\r',
            ..st
        })
    } else {
        let had = st.line_terminator;
        let st = LexState { line_terminator: false, ..st };
        if c == '<' && char_at(s, p + 1) == Some('!') && char_at(s, p + 2) == Some('-')
            && char_at(s, p + 3) == Some('-') {
            Step::Skip(LexState { pos: run_end(s, p + 4, Run::NotLineBreak), ..st })
        } else if c == '/' {
            if char_at(s, p + 1) == Some('/') {
                Step::Skip(LexState { pos: run_end(s, p + 2, Run::NotNewline), ..st })
            } else if char_at(s, p + 1) == Some('*') {
                match block_comment(s, p + 2, false) {
                    Some((q, lt)) => Step::Skip(LexState { pos: q, line_terminator: lt, ..st }),
                    None => Step::Diverge,
                }
            } else if char_at(s, p + 1) == Some('=') {
                Step::Emit(LexState { pos: p + 2, ..st }, SpecToken::Assign(Some(BinaryOp::Div)))
            } else if regex_ok {
                let (q, body) = quoted(s, p + 1, '/');
                let r: nat = if char_at(s, q) == Some('g') { q + 1 } else { q };
                Step::Emit(LexState { pos: r, ..st }, SpecToken::Regex(body))
            } else {
                Step::Emit(LexState { pos: p + 1, ..st }, SpecToken::Slash)
            }
        } else if c == '-' && had && char_at(s, p + 1) == Some('-') && char_at(s, p + 2) == Some('>') {
            Step::Skip(LexState { pos: run_end(s, p + 3, Run::NotLineBreak), ..st })
        } else if c == '`' {
            Step::Emit(LexState { pos: p + 1, template_mode: true, ..st }, SpecToken::TemplateStart)
        } else if c == '"' || c == '\'' {
            let (q, body) = quoted(s, p + 1, c);
            Step::Emit(LexState { pos: q, ..st }, SpecToken::Str(body))
        } else if spec_ident_start(c) {
            let q = run_end(s, p, Run::IdentContinue);
            Step::Emit(LexState { pos: q, ..st }, keyword_token(s.subrange(p as int, q as int)))
        } else if is_ascii_digit(c) || c == '.' {
            let (t, q) = number_token(s, p);
            Step::Emit(LexState { pos: q, ..st }, t)
        } else {
            match op_token(s, p) {
                Some((t, q)) => Step::Emit(LexState { pos: q, ..st }, t),
                None => Step::Skip(LexState { pos: p + 1, ..st }),
            }
        }
    }
}

/// Reading on from `st` outside template text until a token comes out:
/// the state after it and the token, or `None` when the lexer never returns.
pub open spec fn main_scan(s: Seq<char>, st: LexState, regex_ok: bool) -> Option<(LexState, SpecToken)>
    decreases s.len() - st.pos,
{
    if st.pos >= s.len() {
        Some((st, SpecToken::Eof))
    } else {
        match char_step(s, st, regex_ok) {
            Step::Skip(st2) => if st.pos < st2.pos <= s.len() {
                main_scan(s, st2, regex_ok)
            } else {
                None
            },
            Step::Emit(st2, t) => Some((st2, t)),
            Step::Diverge => None,
        }
    }
}

/// Reading the text of a template literal from `st`.
pub open spec fn template_step(s: Seq<char>, st: LexState) -> (LexState, SpecToken) {
    let (q, lit, stop) = template_scan(s, st.pos);
    match stop {
        TemplateStop::Close => {
            let st2 = LexState { pos: q, template_mode: false, ..st };
            if lit.len() > 0 {
                (LexState { pending: Some(SpecToken::TemplateEnd), ..st2 }, SpecToken::TemplateString(lit))
            } else {
                (st2, SpecToken::TemplateEnd)
            }
        },
        TemplateStop::ExprStart => {
            let st2 = LexState { pos: q, template_mode: false, in_template_expr: true, depth: 0, ..st };
            if lit.len() > 0 {
                (LexState { pending: Some(SpecToken::TemplateExprStart), ..st2 }, SpecToken::TemplateString(lit))
            } else {
                (st2, SpecToken::TemplateExprStart)
            }
        },
        TemplateStop::End => (LexState { pos: q, template_mode: false, ..st }, SpecToken::TemplateString(lit)),
    }
}

/// One call of the lexer from state `st`, after the tokens whose last
/// decides how a `/` reads: the state after the call and the token it
/// returns, or `None` when the call never returns.
pub open spec fn spec_next_token(s: Seq<char>, st: LexState, regex_ok: bool) -> Option<(LexState, SpecToken)> {
    match st.pending {
        Some(t) => Some((LexState { pending: None, ..st }, t)),
        None => if st.template_mode {
            Some(template_step(s, st))
        } else {
            main_scan(s, st, regex_ok)
        },
    }
}

/// The binary operator that a one-character compound assignment carries:
/// `+=` adds, `-=` subtracts, and so on.
pub open spec fn compound_op(c: char) -> Option<BinaryOp> {
    if c == '+' { Some(BinaryOp::Add) }
    else if c == '-' { Some(BinaryOp::Sub) }
    else if c == '*' { Some(BinaryOp::Mul) }
    else if c == '/' { Some(BinaryOp::Div) }
    else if c == '%' { Some(BinaryOp::Mod) }
    else if c == '&' { Some(BinaryOp::BinAnd) }
    else if c == '|' { Some(BinaryOp::BinOr) }
    else if c == '^' { Some(BinaryOp::XOr) }
    else { None }
}

/// A compound assignment carries the operator written before its `=`:
/// where the lexer stands on `op=` for an operator `op` among
/// `+ - * / % & | ^`, it reads one `Assign` token holding that operator and
/// moves past both characters; on `<<=` it reads a left shift, and on
/// `>>=` or `>>>=` a right shift.
pub proof fn law_compound_assignment(s: Seq<char>, st: LexState, regex_ok: bool)
    requires
        st.pending is None,
        !st.template_mode,
        st.pos + 1 < s.len(),
    ensures
        compound_op(s[st.pos as int]) is Some && s[st.pos + 1int] == '=' ==>
            spec_next_token(s, st, regex_ok) == Some((LexState { pos: st.pos + 2, line_terminator: false, ..st },
                SpecToken::Assign(compound_op(s[st.pos as int])))),
        st.pos + 2 < s.len() && s[st.pos as int] == '<' && s[st.pos + 1int] == '<' && s[st.pos + 2int] == '=' ==>
            spec_next_token(s, st, regex_ok) == Some((LexState { pos: st.pos + 3, line_terminator: false, ..st },
                SpecToken::Assign(Some(BinaryOp::ShiftL)))),
        st.pos + 2 < s.len() && s[st.pos as int] == '>' && s[st.pos + 1int] == '>' && s[st.pos + 2int] == '=' ==>
            spec_next_token(s, st, regex_ok) == Some((LexState { pos: st.pos + 3, line_terminator: false, ..st },
                SpecToken::Assign(Some(BinaryOp::ShiftR)))),
        st.pos + 3 < s.len() && s[st.pos as int] == '>' && s[st.pos + 1int] == '>' && s[st.pos + 2int] == '>'
            && s[st.pos + 3int] == '=' ==>
            spec_next_token(s, st, regex_ok) == Some((LexState { pos: st.pos + 4, line_terminator: false, ..st },
                SpecToken::Assign(Some(BinaryOp::ShiftR)))),
{
    let p = st.pos;
    let c = s[p as int];
    assert(char_at(s, p + 1) == Some(s[p + 1int]));
    if p + 2 < s.len() {
        assert(char_at(s, p + 2) == Some(s[p + 2int]));
    }
    if p + 3 < s.len() {
        assert(char_at(s, p + 3) == Some(s[p + 3int]));
    }
    if compound_op(c) is Some || c == '<' || c == '>' {
        assert(!is_white_space(c));
        assert(!spec_ident_start(c));
        assert(!is_ascii_digit(c));
    }
}

/// One call of the lexer from `st` reads the token `t` and moves `k`
/// characters on.
pub open spec fn reads(s: Seq<char>, st: LexState, regex_ok: bool, k: nat, t: SpecToken) -> bool {
    spec_next_token(s, st, regex_ok) == Some((LexState { pos: st.pos + k, line_terminator: false, ..st }, t))
}

/// Operators and punctuation: where the lexer stands on one, it reads the
/// token the JavaScript text means, taking the longest operator written
/// there: `<=` and `>=` are comparisons, `==`/`===` equality, `!=`/`!==`
/// inequality, `=>` an arrow, `++` and `--` increments, `<<` a shift; a
/// lone `<`, `>`, `+`, `-`, `*`, `%`, `=` or `!` is that operator alone,
/// and a lone `/` where no regular expression may start is a division.
pub proof fn law_operator_tokens(s: Seq<char>, st: LexState, r: bool)
    requires
        st.pending is None,
        !st.template_mode,
        st.pos < s.len(),
    ensures ({
        let p = st.pos;
        let c = s[p as int];
        let n1 = char_at(s, p + 1);
        let n2 = char_at(s, p + 2);
        &&& c == '<' && n1 == Some('=') ==> reads(s, st, r, 2, SpecToken::LtEq)
        &&& c == '>' && n1 == Some('=') ==> reads(s, st, r, 2, SpecToken::GtEq)
        &&& c == '<' && n1 == Some('<') && n2 != Some('=') ==> reads(s, st, r, 2, SpecToken::ShiftL)
        &&& c == '<' && n1 != Some('=') && n1 != Some('<') && n1 != Some('!') ==> reads(s, st, r, 1, SpecToken::Lt)
        &&& c == '>' && n1 != Some('=') && n1 != Some('>') ==> reads(s, st, r, 1, SpecToken::Gt)
        &&& c == '=' && n1 == Some('=') && n2 == Some('=') ==> reads(s, st, r, 3, SpecToken::Eq)
        &&& c == '=' && n1 == Some('=') && n2 != Some('=') ==> reads(s, st, r, 2, SpecToken::Eq)
        &&& c == '!' && n1 == Some('=') && n2 == Some('=') ==> reads(s, st, r, 3, SpecToken::NotEq)
        &&& c == '!' && n1 == Some('=') && n2 != Some('=') ==> reads(s, st, r, 2, SpecToken::NotEq)
        &&& c == '=' && n1 == Some('>') ==> reads(s, st, r, 2, SpecToken::Arrow)
        &&& c == '=' && n1 != Some('=') && n1 != Some('>') ==> reads(s, st, r, 1, SpecToken::Assign(None))
        &&& c == '!' && n1 != Some('=') ==> reads(s, st, r, 1, SpecToken::Not)
        &&& c == '+' && n1 == Some('+') ==> reads(s, st, r, 2, SpecToken::PlusPlus)
        &&& c == '+' && n1 != Some('+') && n1 != Some('=') ==> reads(s, st, r, 1, SpecToken::Plus)
        &&& c == '-' && n1 == Some('-') && !(st.line_terminator && n2 == Some('>'))
            ==> reads(s, st, r, 2, SpecToken::MinusMinus)
        &&& c == '-' && n1 != Some('-') && n1 != Some('=') ==> reads(s, st, r, 1, SpecToken::Minus)
        &&& c == '*' && n1 != Some('=') ==> reads(s, st, r, 1, SpecToken::Star)
        &&& c == '%' && n1 != Some('=') ==> reads(s, st, r, 1, SpecToken::Mod)
        &&& c == '/' && n1 != Some('/') && n1 != Some('*') && n1 != Some('=') && !r
            ==> reads(s, st, r, 1, SpecToken::Slash)
    }),
{
    let p = st.pos;
    let c = s[p as int];
    if c == '<' || c == '>' || c == '=' || c == '!' || c == '+' || c == '-' || c == '*' || c == '%' || c == '/' {
        assert(!is_white_space(c));
        assert(!spec_ident_start(c));
        assert(!is_ascii_digit(c));
    }
}

/// The state of a lexer that has read nothing yet.
pub open spec fn initial_state() -> LexState {
    LexState {
        pos: 0,
        pending: None,
        template_mode: false,
        in_template_expr: false,
        depth: 0,
        line_terminator: false,
    }
}

} // verus!

verus! {

/// The character that an escape `\c` stands for.
fn unescape_char(c: char) -> (r: char)
    ensures r == unescape(c),
{
    if c == 'n' { '\n' } else if c == 'r' { '\r' } else if c == 't' { '\t' } else { c }
}

/// Whether a `/` after this token begins a division.
fn token_ends_operand(t: &Token) -> (r: bool)
    ensures r == ends_operand(t@),
{
    match t {
        Token::Ident(_) | Token::Number(_) | Token::Str(_) | Token::RParen | Token::RBrace
        | Token::RBracket => true,
        _ => false,
    }
}

/// The views of a list of tokens.
pub open spec fn views(prev: Seq<Token>) -> Seq<SpecToken> {
    prev.map_values(|t: Token| t@)
}

/// The lexer over one source text.
pub struct Lexer {
    chars: Vec<char>,
    pos: usize,
    pending: Option<Token>,
    template_mode: bool,
    in_template_expr: bool,
    template_expr_depth: usize,
    line_terminator: bool,
}

impl Lexer {
    /// The source text, as characters.
    pub closed spec fn input(&self) -> Seq<char> {
        self.chars@
    }

    /// The lexer's state.
    pub closed spec fn state(&self) -> LexState {
        LexState {
            pos: self.pos as nat,
            pending: match self.pending {
                Some(t) => Some(t@),
                None => None,
            },
            template_mode: self.template_mode,
            in_template_expr: self.in_template_expr,
            depth: self.template_expr_depth as nat,
            line_terminator: self.line_terminator,
        }
    }

    /// The lexer's own bookkeeping is consistent: it reads inside its input.
    pub closed spec fn wf(&self) -> bool {
        &&& self.pos <= self.chars.len()
        &&& self.template_expr_depth <= self.pos
    }

    /// A lexer at the start of `input`.
    pub fn new(input: &str) -> (r: Lexer)
        ensures
            r.wf(),
            r.input() == input@,
            r.state() == initial_state(),
    {
        let mut chars: Vec<char> = Vec::new();
        proof {
            vstd::string::axiom_spec_iter(input);
        }
        for c in it: input.chars()
            invariant
                it.seq() == input@,
                chars@ == it.seq().take(it.index()),
        {
            chars.push(c);
        }
        assert(chars@ =~= input@);
        Lexer {
            chars,
            pos: 0,
            pending: None,
            template_mode: false,
            in_template_expr: false,
            template_expr_depth: 0,
            line_terminator: false,
        }
    }
}


impl Lexer {
    /// The character `k` places after `p`, if the input has one there.
    fn at_off(&self, p: usize, k: usize) -> (r: Option<char>)
        ensures r == char_at(self.input(), p as nat + k as nat),
    {
        if p < self.chars.len() && k < self.chars.len() - p {
            Some(self.chars[p + k])
        } else {
            None
        }
    }

    /// Whether the character `k` places after `p` is `c`.
    fn is_at(&self, p: usize, k: usize, c: char) -> (r: bool)
        ensures
            r == (char_at(self.input(), p as nat + k as nat) == Some(c)),
            r ==> (p + k) < self.input().len(),
            self.input().len() <= usize::MAX,
    {
        p < self.chars.len() && k < self.chars.len() - p && self.chars[p + k] == c
    }

    /// The end of the run of class `k` that starts at `p`.
    fn run(&self, p: usize, k: Run) -> (q: usize)
        requires p <= self.input().len(),
        ensures
            q as nat == run_end(self.input(), p as nat, k),
            p <= q <= self.input().len(),
    {
        let ghost s = self.input();
        let mut q = p;
        while q < self.chars.len() && belongs(k, self.chars[q])
            invariant
                s == self.input(),
                p <= q <= s.len(),
                run_end(s, q as nat, k) == run_end(s, p as nat, k),
            decreases s.len() - q,
        {
            q = q + 1;
        }
        q
    }

    /// Appends the characters from `from` to `to` to `out`.
    fn append_range(&self, out: &mut String, from: usize, to: usize)
        requires from <= to <= self.input().len(),
        ensures final(out)@ == old(out)@ + self.input().subrange(from as int, to as int),
    {
        let mut i = from;
        while i < to
            invariant
                from <= i <= to <= self.input().len(),
                out@ == old(out)@ + self.input().subrange(from as int, i as int),
            decreases to - i,
        {
            push_char(out, self.chars[i]);
            assert(self.input().subrange(from as int, i + 1) =~= self.input().subrange(from as int, i as int).push(self.input()[i as int]));
            i = i + 1;
        }
    }

    /// The characters from `from` to `to`.
    fn text(&self, from: usize, to: usize) -> (r: String)
        requires from <= to <= self.input().len(),
        ensures r@ == self.input().subrange(from as int, to as int),
    {
        let mut out = String::new();
        self.append_range(&mut out, from, to);
        assert(out@ =~= self.input().subrange(from as int, to as int));
        out
    }

    /// Reads a quoted text from `p` up to and past the quote `q`.
    fn read_quoted(&self, p: usize, q: char) -> (r: (usize, String))
        requires p <= self.input().len(),
        ensures
            (r.0 as nat, r.1@) == quoted(self.input(), p as nat, q),
            p <= r.0 <= self.input().len(),
    {
        let ghost s = self.input();
        let n = self.chars.len();
        let mut i = p;
        let mut acc = String::new();
        while i < n
            invariant
                s == self.input(),
                n == s.len(),
                p <= i <= n,
                quoted(s, p as nat, q) == (quoted(s, i as nat, q).0, acc@ + quoted(s, i as nat, q).1),
            decreases n - i,
        {
            let c = self.chars[i];
            if c == '\\' {
                if i + 1 < n {
                    let ghost before = acc@;
                    push_char(&mut acc, unescape_char(self.chars[i + 1]));
                    assert(before + (seq![unescape(s[i + 1])] + quoted(s, (i + 2) as nat, q).1)
                        =~= acc@ + quoted(s, (i + 2) as nat, q).1);
                    i = i + 2;
                } else {
                    assert(acc@ + (Seq::<char>::empty() + quoted(s, (i + 1) as nat, q).1)
                        =~= acc@ + quoted(s, (i + 1) as nat, q).1);
                    i = i + 1;
                }
            } else if c == q {
                assert(acc@ + Seq::<char>::empty() =~= acc@);
                return (i + 1, acc);
            } else {
                let ghost before = acc@;
                push_char(&mut acc, c);
                assert(before + (seq![c] + quoted(s, (i + 1) as nat, q).1)
                    =~= acc@ + quoted(s, (i + 1) as nat, q).1);
                i = i + 1;
            }
        }
        assert(acc@ + Seq::<char>::empty() =~= acc@);
        (i, acc)
    }

    /// Reads the text of a template literal from `p`.
    fn read_template(&self, p: usize) -> (r: (usize, String, TemplateStop))
        requires p <= self.input().len(),
        ensures
            (r.0 as nat, r.1@, r.2) == template_scan(self.input(), p as nat),
            p <= r.0 <= self.input().len(),
    {
        let ghost s = self.input();
        let n = self.chars.len();
        let mut i = p;
        let mut acc = String::new();
        while i < n
            invariant
                s == self.input(),
                n == s.len(),
                p <= i <= n,
                template_scan(s, p as nat) == (
                    template_scan(s, i as nat).0,
                    acc@ + template_scan(s, i as nat).1,
                    template_scan(s, i as nat).2,
                ),
            decreases n - i,
        {
            let c = self.chars[i];
            if c == '`' {
                assert(acc@ + Seq::<char>::empty() =~= acc@);
                return (i + 1, acc, TemplateStop::Close);
            } else if c == '$' && i + 1 < n && self.chars[i + 1] == '{' {
                assert(acc@ + Seq::<char>::empty() =~= acc@);
                return (i + 2, acc, TemplateStop::ExprStart);
            } else if c == '\\' {
                if i + 1 < n {
                    let ghost before = acc@;
                    push_char(&mut acc, unescape_char(self.chars[i + 1]));
                    assert(before + (seq![unescape(s[i + 1])] + template_scan(s, (i + 2) as nat).1)
                        =~= acc@ + template_scan(s, (i + 2) as nat).1);
                    i = i + 2;
                } else {
                    assert(acc@ + (Seq::<char>::empty() + template_scan(s, (i + 1) as nat).1)
                        =~= acc@ + template_scan(s, (i + 1) as nat).1);
                    i = i + 1;
                }
            } else {
                let ghost before = acc@;
                push_char(&mut acc, c);
                assert(before + (seq![c] + template_scan(s, (i + 1) as nat).1)
                    =~= acc@ + template_scan(s, (i + 1) as nat).1);
                i = i + 1;
            }
        }
        assert(acc@ + Seq::<char>::empty() =~= acc@);
        (i, acc, TemplateStop::End)
    }

    /// Skips the body of a block comment from `p`.
    fn skip_block_comment(&self, p: usize, lt: bool) -> (r: (usize, bool))
        requires
            p <= self.input().len(),
            block_comment(self.input(), p as nat, lt) is Some,
        ensures
            Some((r.0 as nat, r.1)) == block_comment(self.input(), p as nat, lt),
            p < r.0 <= self.input().len(),
    {
        let ghost s = self.input();
        let n = self.chars.len();
        let mut i = p;
        let mut l = lt;
        loop
            invariant
                s == self.input(),
                n == s.len(),
                p <= i <= n,
                block_comment(s, i as nat, l) == block_comment(s, p as nat, lt),
                block_comment(s, i as nat, l) is Some,
            decreases n - i,
        {
            let c = self.chars[i];
            let l2 = l || c == '\n' || c == '\r';
            if c == '*' {
                if i + 1 < n && self.chars[i + 1] == '/' {
                    return (i + 2, l2);
                }
                i = i + 2;
            } else {
                i = i + 1;
            }
            l = l2;
        }
    }

    /// The token of a fixed operator or punctuator at `p`.
    fn read_op(&self, p: usize) -> (r: Option<(Token, usize)>)
        requires p < self.input().len(),
        ensures
            match r {
                Some((t, q)) => op_token(self.input(), p as nat) == Some((t@, q as nat)),
                None => op_token(self.input(), p as nat) is None,
            },
    {
        let n = self.chars.len();
        assert(self.input().len() == n);
        let c = self.chars[p];
        if c == '<' {
            if self.is_at(p, 1, '=') { Some((Token::LtEq, p + 2)) }
            else if self.is_at(p, 1, '<') {
                if self.is_at(p, 2, '=') { Some((Token::Assign(Some(BinaryOp::ShiftL)), p + 3)) }
                else { Some((Token::ShiftL, p + 2)) }
            }
            else { Some((Token::Lt, p + 1)) }
        } else if c == '&' {
            if self.is_at(p, 1, '=') { Some((Token::Assign(Some(BinaryOp::BinAnd)), p + 2)) }
            else { Some((Token::And, p + 1)) }
        } else if c == '|' {
            if self.is_at(p, 1, '=') { Some((Token::Assign(Some(BinaryOp::BinOr)), p + 2)) }
            else { Some((Token::Or, p + 1)) }
        } else if c == '^' {
            if self.is_at(p, 1, '=') { Some((Token::Assign(Some(BinaryOp::XOr)), p + 2)) }
            else { Some((Token::XOr, p + 1)) }
        } else if c == '(' { Some((Token::LParen, p + 1)) }
        else if c == ')' { Some((Token::RParen, p + 1)) }
        else if c == '{' { Some((Token::LBrace, p + 1)) }
        else if c == '}' { Some((Token::RBrace, p + 1)) }
        else if c == '[' { Some((Token::LBracket, p + 1)) }
        else if c == ']' { Some((Token::RBracket, p + 1)) }
        else if c == ',' { Some((Token::Comma, p + 1)) }
        else if c == ';' { Some((Token::Semicolon, p + 1)) }
        else if c == ':' { Some((Token::Colon, p + 1)) }
        else if c == '=' {
            if self.is_at(p, 1, '>') { Some((Token::Arrow, p + 2)) }
            else if self.is_at(p, 1, '=') {
                if self.is_at(p, 2, '=') { Some((Token::Eq, p + 3)) } else { Some((Token::Eq, p + 2)) }
            }
            else { Some((Token::Assign(None), p + 1)) }
        } else if c == '!' {
            if self.is_at(p, 1, '=') {
                if self.is_at(p, 2, '=') { Some((Token::NotEq, p + 3)) } else { Some((Token::NotEq, p + 2)) }
            }
            else { Some((Token::Not, p + 1)) }
        } else if c == '?' { Some((Token::QMark, p + 1)) }
        else if c == '>' {
            if self.is_at(p, 1, '=') { Some((Token::GtEq, p + 2)) }
            else if self.is_at(p, 1, '>') {
                let q = if self.is_at(p, 2, '>') { p + 3 } else { p + 2 };
                if self.is_at(q, 0, '=') { Some((Token::Assign(Some(BinaryOp::ShiftR)), q + 1)) }
                else { Some((Token::ShiftR, q)) }
            }
            else { Some((Token::Gt, p + 1)) }
        } else if c == '%' {
            if self.is_at(p, 1, '=') { Some((Token::Assign(Some(BinaryOp::Mod)), p + 2)) }
            else { Some((Token::Mod, p + 1)) }
        } else if c == '+' {
            if self.is_at(p, 1, '+') { Some((Token::PlusPlus, p + 2)) }
            else if self.is_at(p, 1, '=') { Some((Token::Assign(Some(BinaryOp::Add)), p + 2)) }
            else { Some((Token::Plus, p + 1)) }
        } else if c == '-' {
            if self.is_at(p, 1, '-') { Some((Token::MinusMinus, p + 2)) }
            else if self.is_at(p, 1, '=') { Some((Token::Assign(Some(BinaryOp::Sub)), p + 2)) }
            else { Some((Token::Minus, p + 1)) }
        } else if c == '*' {
            if self.is_at(p, 1, '=') { Some((Token::Assign(Some(BinaryOp::Mul)), p + 2)) }
            else { Some((Token::Star, p + 1)) }
        } else {
            None
        }
    }
}


impl Lexer {
    /// Reads the numeric literal (or lone `.`) whose run of digits and dots
    /// starts at `p`.
    fn read_number(&self, p: usize) -> (r: (Token, usize))
        requires
            p < self.input().len(),
            is_ascii_digit(self.input()[p as int]) || self.input()[p as int] == '.',
        ensures
            (r.0@, r.1 as nat) == number_token(self.input(), p as nat),
            p < r.1 <= self.input().len(),
    {
        let ghost s = self.input();
        let n = self.chars.len();
        let e = self.run(p, Run::DigitOrDot);
        proof {
            lemma_run_end_maximal(s, p as nat, Run::DigitOrDot);
        }
        assert(e > p);
        let ghost text = s.subrange(p as int, e as int);
        let dot_only = e == p + 1 && self.chars[p] == '.';
        if dot_only {
            assert(text =~= seq!['.']);
            return (Token::Dot, e);
        }
        assert(text != seq!['.']) by {
            if text == seq!['.'] {
                assert(text.len() == 1);
                assert(text[0] == s[p as int]);
            }
        }
        let mut mantissa = String::new();
        if self.chars[p] == '.' {
            push_char(&mut mantissa, '0');
        }
        self.append_range(&mut mantissa, p, e);
        assert(text[0] == s[p as int]);
        assert(mantissa@ =~= (if text[0] == '.' { seq!['0'] + text } else { text }));
        let has_exp = self.is_at(e, 0, 'e') || self.is_at(e, 0, 'E');
        let (exponent, q) = if has_exp {
            let neg = self.is_at(e, 1, '-');
            let d = if self.is_at(e, 1, '+') || self.is_at(e, 1, '-') { e + 2 } else { e + 1 };
            let de = self.run(d, Run::Digit);
            let digits = self.text(d, de);
            (Some(Exponent { negative: neg, digits }), de)
        } else {
            (None, e)
        };
        let r = if self.is_at(q, 0, 'n') { q + 1 } else { q };
        (Token::Number(NumberLiteral { mantissa, exponent }), r)
    }

    /// Whether a block comment whose body starts at `p` is ever closed.
    fn block_comment_closes(&self, p: usize, lt: bool) -> (r: bool)
        requires p <= self.input().len(),
        ensures r == block_comment(self.input(), p as nat, lt) is Some,
    {
        let ghost s = self.input();
        let n = self.chars.len();
        let mut i = p;
        let mut l = lt;
        while i < n
            invariant
                s == self.input(),
                n == s.len(),
                p <= i,
                i <= n + 1,
                block_comment(s, i as nat, l) == block_comment(s, p as nat, lt),
            decreases n + 1 - i,
        {
            let c = self.chars[i];
            let l2 = l || c == '\n' || c == '\r';
            if c == '*' {
                if i + 1 < n && self.chars[i + 1] == '/' {
                    return true;
                }
                if i + 1 >= n {
                    return false;
                }
                i = i + 2;
            } else {
                i = i + 1;
            }
            l = l2;
        }
        false
    }

    /// Whether the character at the current position opens a block comment
    /// that is never closed, on which the lexer would never return.
    fn step_diverges(&self, regex_ok: bool) -> (r: bool)
        requires
            self.wf(),
            self.state().pos < self.input().len(),
        ensures r == (char_step(self.input(), self.state(), regex_ok) is Diverge),
    {
        let p = self.pos;
        let c = self.chars[p];
        if self.in_template_expr && (c == '{' || c == '}') {
            return false;
        }
        if white_space(c) {
            return false;
        }
        c == '/' && self.is_at(p, 1, '*') && !self.block_comment_closes(p + 2, false)
    }

    /// Reads the character at the current position, outside template text.
    fn step(&mut self, regex_ok: bool) -> (r: Option<Token>)
        requires
            old(self).wf(),
            old(self).state().pos < old(self).input().len(),
            !(char_step(old(self).input(), old(self).state(), regex_ok) is Diverge),
        ensures
            final(self).wf(),
            final(self).input() == old(self).input(),
            match char_step(old(self).input(), old(self).state(), regex_ok) {
                Step::Skip(st2) => r is None && final(self).state() == st2
                    && old(self).state().pos < st2.pos,
                Step::Emit(st2, t) => r is Some && r->0@ == t && final(self).state() == st2,
                Step::Diverge => false,
            },
    {
        let ghost s = self.input();
        let n = self.chars.len();
        let p = self.pos;
        let c = self.chars[p];
        if self.in_template_expr && c == '{' {
            self.pos = p + 1;
            self.template_expr_depth = self.template_expr_depth + 1;
            return Some(Token::LBrace);
        }
        if self.in_template_expr && c == '}' {
            self.pos = p + 1;
            if self.template_expr_depth == 0 {
                self.in_template_expr = false;
                self.template_mode = true;
            } else {
                self.template_expr_depth = self.template_expr_depth - 1;
            }
            return Some(Token::RBrace);
        }
        if white_space(c) {
            if c == '\n' || c == '\r' {
                self.line_terminator = true;
            }
            self.pos = p + 1;
            return None;
        }
        let had = self.line_terminator;
        self.line_terminator = false;
        if c == '<' && self.is_at(p, 1, '!') && self.is_at(p, 2, '-') && self.is_at(p, 3, '-') {
            self.pos = self.run(p + 4, Run::NotLineBreak);
            return None;
        }
        if c == '/' {
            if self.is_at(p, 1, '/') {
                self.pos = self.run(p + 2, Run::NotNewline);
                return None;
            }
            if self.is_at(p, 1, '*') {
                let (q, lt) = self.skip_block_comment(p + 2, false);
                self.pos = q;
                self.line_terminator = lt;
                return None;
            }
            if self.is_at(p, 1, '=') {
                self.pos = p + 2;
                return Some(Token::Assign(Some(BinaryOp::Div)));
            }
            if regex_ok {
                let (q, body) = self.read_quoted(p + 1, '/');
                self.pos = if self.is_at(q, 0, 'g') { q + 1 } else { q };
                return Some(Token::Regex(body));
            }
            self.pos = p + 1;
            return Some(Token::Slash);
        }
        if c == '-' && had && self.is_at(p, 1, '-') && self.is_at(p, 2, '>') {
            self.pos = self.run(p + 3, Run::NotLineBreak);
            return None;
        }
        if c == '`' {
            self.pos = p + 1;
            self.template_mode = true;
            return Some(Token::TemplateStart);
        }
        if c == '"' || c == '\'' {
            let (q, body) = self.read_quoted(p + 1, c);
            self.pos = q;
            return Some(Token::Str(body));
        }
        if is_ident_start(c) {
            let q = self.run(p, Run::IdentContinue);
            let word = self.text(p, q);
            self.pos = q;
            return Some(Token::from_keyword(word));
        }
        if ('0' <= c && c <= '9') || c == '.' {
            let (t, q) = self.read_number(p);
            self.pos = q;
            return Some(t);
        }
        match self.read_op(p) {
            Some((t, q)) => {
                self.pos = q;
                Some(t)
            },
            None => {
                self.pos = p + 1;
                None
            },
        }
    }
}


impl Lexer {
    /// The next character, if any.
    pub fn peek(&self) -> (r: Option<char>)
        requires self.wf(),
        ensures r == char_at(self.input(), self.state().pos),
    {
        self.at_off(self.pos, 0)
    }

    /// Reads and returns the next token. A `/` begins a regular expression
    /// when `prev`, the tokens read so far, is not empty and does not end
    /// with an operand.
    pub fn next_token(&mut self, prev: &[Token]) -> (r: Token)
        requires
            old(self).wf(),
            spec_next_token(old(self).input(), old(self).state(), regex_allowed(views(prev@))) is Some,
        ensures
            final(self).wf(),
            final(self).input() == old(self).input(),
            spec_next_token(old(self).input(), old(self).state(), regex_allowed(views(prev@)))
                == Some((final(self).state(), r@)),
    {
        match self.try_next_token(prev) {
            Some(t) => t,
            None => Token::Eof,
        }
    }

    /// Reads the next token as `next_token` does, or gives `None`, reading
    /// nothing more, where `next_token` would never return: at a block
    /// comment that is never closed.
    pub fn try_next_token(&mut self, prev: &[Token]) -> (r: Option<Token>)
        requires
            old(self).wf(),
        ensures
            final(self).wf(),
            final(self).input() == old(self).input(),
            match r {
                Some(t) => spec_next_token(old(self).input(), old(self).state(), regex_allowed(views(prev@)))
                    == Some((final(self).state(), t@)),
                None => spec_next_token(old(self).input(), old(self).state(), regex_allowed(views(prev@)))
                    is None,
            },
    {
        let ghost s = self.input();
        let regex_ok = if prev.len() > 0 {
            !token_ends_operand(&prev[prev.len() - 1])
        } else {
            false
        };
        assert(regex_ok == regex_allowed(views(prev@)));
        if let Some(token) = self.pending.take() {
            return Some(token);
        }
        if self.template_mode {
            let (q, literal, stop) = self.read_template(self.pos);
            self.pos = q;
            self.template_mode = false;
            match stop {
                TemplateStop::Close => {
                    if literal.unicode_len() > 0 {
                        self.pending = Some(Token::TemplateEnd);
                        return Some(Token::TemplateString(literal));
                    }
                    return Some(Token::TemplateEnd);
                },
                TemplateStop::ExprStart => {
                    self.in_template_expr = true;
                    self.template_expr_depth = 0;
                    if literal.unicode_len() > 0 {
                        self.pending = Some(Token::TemplateExprStart);
                        return Some(Token::TemplateString(literal));
                    }
                    return Some(Token::TemplateExprStart);
                },
                TemplateStop::End => {
                    return Some(Token::TemplateString(literal));
                },
            }
        }
        let ghost goal = main_scan(s, self.state(), regex_ok);
        assert(goal == spec_next_token(old(self).input(), old(self).state(), regex_allowed(views(prev@))));
        while self.pos < self.chars.len()
            invariant
                s == old(self).input(),
                goal == spec_next_token(old(self).input(), old(self).state(), regex_allowed(views(prev@))),
                self.wf(),
                self.input() == s,
                main_scan(s, self.state(), regex_ok) == goal,
            decreases s.len() - self.state().pos,
        {
            if self.step_diverges(regex_ok) {
                return None;
            }
            match self.step(regex_ok) {
                Some(t) => {
                    return Some(t);
                },
                None => {},
            }
        }
        Some(Token::Eof)
    }
}


/// A quoted text ends after its start and within the input.
proof fn lemma_quoted_bounds(s: Seq<char>, p: nat, q: char)
    requires p <= s.len(),
    ensures p <= quoted(s, p, q).0 <= s.len(),
    decreases s.len() - p,
{
    if p < s.len() {
        if s[p as int] == '\\' {
            lemma_quoted_bounds(s, read_escape(s, p).0, q);
        } else if s[p as int] != q {
            lemma_quoted_bounds(s, p + 1, q);
        }
    }
}

/// The text of a template literal ends after its start and within the
/// input; a stop at a backquote or at `${` consumes at least that.
proof fn lemma_template_bounds(s: Seq<char>, p: nat)
    ensures
        p <= template_scan(s, p).0,
        p <= s.len() ==> template_scan(s, p).0 <= s.len(),
        !(template_scan(s, p).2 is End) ==> p < template_scan(s, p).0,
    decreases s.len() - p,
{
    if p < s.len() {
        if s[p as int] == '`' {
        } else if s[p as int] == '$' && p + 1 < s.len() && s[p + 1int] == '{' {
        } else if s[p as int] == '\\' {
            lemma_template_bounds(s, read_escape(s, p).0);
        } else {
            lemma_template_bounds(s, p + 1);
        }
    }
}

/// A block comment that closes ends after its start and within the input.
proof fn lemma_block_comment_bounds(s: Seq<char>, p: nat, lt: bool)
    ensures block_comment(s, p, lt) matches Some((q, _)) ==> p < q <= s.len(),
    decreases s.len() - p,
{
    if p < s.len() {
        let lt2 = lt || s[p as int] == '\n' || s[p as int] == '\r';
        if s[p as int] == '*' {
            if p + 1 < s.len() && s[p + 1int] != '/' {
                lemma_block_comment_bounds(s, p + 2, lt2);
            }
        } else {
            lemma_block_comment_bounds(s, p + 1, lt2);
        }
    }
}

/// Every character step moves forward within the input, keeps the pending
/// token, and emits no end-of-input token; a skip keeps the template mode.
proof fn lemma_char_step_progress(s: Seq<char>, st: LexState, regex_ok: bool)
    requires st.pos < s.len(),
    ensures
        match char_step(s, st, regex_ok) {
            Step::Skip(st2) => st.pos < st2.pos <= s.len() && st2.pending == st.pending
                && st2.template_mode == st.template_mode,
            Step::Emit(st2, t) => st.pos < st2.pos <= s.len() && st2.pending == st.pending
                && !(t is Eof),
            Step::Diverge => true,
        },
{
    let p = st.pos;
    lemma_run_end_bounds(s, p + 1, Run::IdentContinue);
    lemma_run_end_bounds(s, p + 1, Run::DigitOrDot);
    lemma_run_end_bounds(s, p, Run::IdentContinue);
    lemma_run_end_maximal(s, p, Run::DigitOrDot);
    lemma_run_end_bounds(s, p, Run::DigitOrDot);
    if p + 4 <= s.len() {
        lemma_run_end_bounds(s, p + 4, Run::NotLineBreak);
    }
    if p + 3 <= s.len() {
        lemma_run_end_bounds(s, p + 3, Run::NotLineBreak);
    }
    if p + 2 <= s.len() {
        lemma_run_end_bounds(s, p + 2, Run::NotNewline);
        lemma_block_comment_bounds(s, p + 2, false);
    }
    lemma_quoted_bounds(s, p + 1, '/');
    lemma_quoted_bounds(s, p + 1, s[p as int]);
    let e = run_end(s, p, Run::DigitOrDot);
    if e + 2 <= s.len() {
        lemma_run_end_bounds(s, e + 2, Run::Digit);
    }
    if e + 1 <= s.len() {
        lemma_run_end_bounds(s, e + 1, Run::Digit);
    }
    let c = s[p as int];
    if spec_ident_start(c) {
        let q = run_end(s, p, Run::IdentContinue);
        let w = s.subrange(p as int, q as int);
        assert(!(keyword_token(w) is Eof));
    }
}

/// Reading on outside template text keeps the pending token, stays within
/// the input, and moves forward unless it reaches the end of the input.
proof fn lemma_main_scan_progress(s: Seq<char>, st: LexState, regex_ok: bool)
    requires st.pos <= s.len(),
    ensures
        main_scan(s, st, regex_ok) matches Some((st2, t)) ==> {
            &&& st2.pos <= s.len()
            &&& st2.pending == st.pending
            &&& !(t is Eof) ==> st.pos < st2.pos
        },
    decreases s.len() - st.pos,
{
    if st.pos < s.len() {
        lemma_char_step_progress(s, st, regex_ok);
        match char_step(s, st, regex_ok) {
            Step::Skip(st2) => {
                lemma_main_scan_progress(s, st2, regex_ok);
            },
            _ => {},
        }
    }
}

/// How much reading is left from state `st`: what every call that does
/// not end the input makes smaller.
pub open spec fn lex_measure(s: Seq<char>, st: LexState) -> nat {
    let rest: nat = if st.pos <= s.len() { (s.len() - st.pos) as nat } else { 0 };
    rest * 4 + (if st.pending is Some { 2nat } else { 0nat }) + (if st.template_mode { 1nat } else { 0nat })
}

/// Every call of the lexer that returns a token other than the end of the
/// input leaves less to read.
pub proof fn lemma_next_token_progress(s: Seq<char>, st: LexState, regex_ok: bool)
    ensures
        spec_next_token(s, st, regex_ok) matches Some((st2, t)) ==> (!(t is Eof) ==> lex_measure(s, st2)
            < lex_measure(s, st)),
{
    match st.pending {
        Some(_) => {},
        None => {
            if st.template_mode {
                lemma_template_bounds(s, st.pos);
            } else if st.pos <= s.len() {
                lemma_main_scan_progress(s, st, regex_ok);
            }
        },
    }
}

/// The tokens that lexing from `st` adds to `prev`, up to and with the end
/// of input, or `None` when a call never returns.
pub open spec fn lex_all(s: Seq<char>, st: LexState, prev: Seq<SpecToken>) -> Option<Seq<SpecToken>>
    decreases lex_measure(s, st) via lex_all_decreases
{
    match spec_next_token(s, st, regex_allowed(prev)) {
        None => None,
        Some((st2, t)) => if t is Eof {
            Some(prev.push(t))
        } else {
            lex_all(s, st2, prev.push(t))
        },
    }
}

#[via_fn]
proof fn lex_all_decreases(s: Seq<char>, st: LexState, prev: Seq<SpecToken>) {
    lemma_next_token_progress(s, st, regex_allowed(prev));
}

/// Lexing on from `st` after `prev` keeps `prev` in front, ends with the
/// end of input and puts it nowhere else.
proof fn lemma_lex_all_shape(s: Seq<char>, st: LexState, prev: Seq<SpecToken>)
    requires forall|i: int| 0 <= i < prev.len() ==> !(#[trigger] prev[i] is Eof),
    ensures
        lex_all(s, st, prev) matches Some(ts) ==> {
            &&& ts.len() > prev.len()
            &&& ts.take(prev.len() as int) == prev
            &&& ts.last() is Eof
            &&& forall|i: int| 0 <= i < ts.len() - 1 ==> !(#[trigger] ts[i] is Eof)
        },
    decreases lex_measure(s, st),
{
    lemma_next_token_progress(s, st, regex_allowed(prev));
    match spec_next_token(s, st, regex_allowed(prev)) {
        None => {},
        Some((st2, t)) => {
            let next = prev.push(t);
            if t is Eof {
                assert(next.take(prev.len() as int) =~= prev);
                assert forall|i: int| 0 <= i < next.len() - 1 implies !(#[trigger] next[i] is Eof) by {
                    assert(next[i] == prev[i]);
                }
            } else {
                assert forall|i: int| 0 <= i < next.len() implies !(#[trigger] next[i] is Eof) by {
                    if i < prev.len() {
                        assert(next[i] == prev[i]);
                    }
                }
                lemma_lex_all_shape(s, st2, next);
                if let Some(ts) = lex_all(s, st2, next) {
                    assert(ts.take(prev.len() as int) =~= ts.take(next.len() as int).take(prev.len() as int));
                    assert(next.take(prev.len() as int) =~= prev);
                }
            }
        },
    }
}

/// The tokens of a source text end with the end of input, and the end of
/// input comes nowhere before.
pub proof fn law_tokens_end_once(s: Seq<char>)
    ensures
        spec_tokenize(s) matches Some(ts) ==> {
            &&& ts.len() > 0
            &&& ts.last() is Eof
            &&& forall|i: int| 0 <= i < ts.len() - 1 ==> !(#[trigger] ts[i] is Eof)
        },
{
    lemma_lex_all_shape(s, initial_state(), Seq::empty());
}

/// The tokens of a whole source text, the last one the end of input; `None`
/// when the lexer never returns on it.
pub open spec fn spec_tokenize(s: Seq<char>) -> Option<Seq<SpecToken>> {
    lex_all(s, initial_state(), Seq::empty())
}

/// Lexes a whole source text, each token read after the ones before it,
/// until and with the end of input.
pub fn tokenize(input: &str) -> (r: Vec<Token>)
    requires spec_tokenize(input@) is Some,
    ensures views(r@) == spec_tokenize(input@)->0,
{
    let mut lexer = Lexer::new(input);
    let mut tokens: Vec<Token> = Vec::new();
    let ghost s = input@;
    let ghost goal = spec_tokenize(s);
    assert(views(tokens@) =~= Seq::<SpecToken>::empty());
    loop
        invariant
            lexer.wf(),
            lexer.input() == s,
            s == input@,
            goal == spec_tokenize(input@),
            goal is Some,
            lex_all(s, lexer.state(), views(tokens@)) == goal,
        decreases lex_measure(s, lexer.state()),
    {
        let ghost st = lexer.state();
        let ghost before = tokens@;
        proof {
            lemma_next_token_progress(s, st, regex_allowed(views(tokens@)));
        }
        let value = lexer.next_token(tokens.as_slice());
        let ghost t = value@;
        let is_eof = match value {
            Token::Eof => true,
            _ => false,
        };
        tokens.push(value);
        assert(views(tokens@) =~= views(before).push(t));
        if is_eof {
            assert(lex_all(s, st, views(before)) == Some(views(before).push(t)));
            assert(goal == Some(views(tokens@)));
            return tokens;
        }
        assert(lex_all(s, st, views(before)) == lex_all(s, lexer.state(), views(before).push(t)));
    }
}

/// Lexes a whole source text as `tokenize` does, or gives `None` where
/// `tokenize` would never return: when the lexer reaches a block comment
/// that is never closed.
pub fn try_tokenize(input: &str) -> (r: Option<Vec<Token>>)
    ensures
        match r {
            Some(v) => spec_tokenize(input@) == Some(views(v@)),
            None => spec_tokenize(input@) is None,
        },
{
    let mut lexer = Lexer::new(input);
    let mut tokens: Vec<Token> = Vec::new();
    let ghost s = input@;
    let ghost goal = spec_tokenize(s);
    assert(views(tokens@) =~= Seq::<SpecToken>::empty());
    loop
        invariant
            lexer.wf(),
            lexer.input() == s,
            s == input@,
            goal == spec_tokenize(input@),
            lex_all(s, lexer.state(), views(tokens@)) == goal,
        decreases lex_measure(s, lexer.state()),
    {
        let ghost st = lexer.state();
        let ghost before = tokens@;
        proof {
            lemma_next_token_progress(s, st, regex_allowed(views(tokens@)));
        }
        let value = match lexer.try_next_token(tokens.as_slice()) {
            Some(t) => t,
            None => {
                return None;
            },
        };
        let ghost t = value@;
        let is_eof = match value {
            Token::Eof => true,
            _ => false,
        };
        tokens.push(value);
        assert(views(tokens@) =~= views(before).push(t));
        if is_eof {
            assert(lex_all(s, st, views(before)) == Some(views(before).push(t)));
            return Some(tokens);
        }
        assert(lex_all(s, st, views(before)) == lex_all(s, lexer.state(), views(before).push(t)));
    }
}

} // verus!
