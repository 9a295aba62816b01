//! Tokens of the JavaScript lexer and the keyword table.
use vstd::prelude::*;
use crate::text::str_eq;

verus! {

/// The operator of a binary expression or of a compound assignment.
#[derive(Clone, Copy, Debug, PartialEq, Eq, Structural)]
pub enum BinaryOp {
    Add,
    Sub,
    Mul,
    Div,
    Mod,
    Eq,
    NotEq,
    Lt,
    Gt,
    LtEq,
    GtEq,
    BinAnd,
    LogAnd,
    BinOr,
    LogOr,
    XOr,
    ShiftL,
    ShiftR,
}

/// The exponent part of a numeric literal: whether a `-` followed the
/// `e`, and the digits that came after the sign.
#[derive(Clone, Debug, PartialEq)]
pub struct Exponent {
    pub negative: bool,
    pub digits: String,
}

/// A numeric literal as it stands in the source: the run of digits and
/// dots (with a `0` put in front when it began with a dot) and the
/// exponent, if an `e` or `E` followed. Its numeric value is a float
/// computation and is made by the caller.
#[derive(Clone, Debug, PartialEq)]
pub struct NumberLiteral {
    pub mantissa: String,
    pub exponent: Option<Exponent>,
}

/// A token of the lexer.
#[derive(Clone, Debug, PartialEq)]
pub enum Token {
    Ident(String),
    Number(NumberLiteral),
    Str(String),
    TemplateStart,
    TemplateEnd,
    TemplateString(String),
    TemplateExprStart,
    True,
    False,
    Undefined,
    Null,
    Function,
    Class,
    Return,
    Let,
    Const,
    Var,
    New,
    While,
    For,
    Do,
    Break,
    Continue,
    Yield,
    If,
    Else,
    Switch,
    Case,
    Default,
    Of,
    Typeof,
    Void,
    InstanceOf,
    LParen,
    RParen,
    LBrace,
    RBrace,
    LBracket,
    RBracket,
    Comma,
    Semicolon,
    Dot,
    Assign(Option<BinaryOp>),
    QMark,
    Colon,
    Plus,
    PlusPlus,
    Minus,
    MinusMinus,
    Star,
    Slash,
    Mod,
    Eq,
    NotEq,
    Not,
    Lt,
    Gt,
    LtEq,
    GtEq,
    Arrow,
    And,
    Or,
    XOr,
    ShiftL,
    ShiftR,
    Try,
    Catch,
    Finally,
    Throw,
    Regex(String),
    Eof,
}

/// The mathematical value of a numeric literal.
pub struct SpecNumber {
    pub mantissa: Seq<char>,
    pub exponent: Option<(bool, Seq<char>)>,
}

/// The mathematical value of a token: its text payloads as sequences of
/// characters.
pub enum SpecToken {
    Ident(Seq<char>),
    Number(SpecNumber),
    Str(Seq<char>),
    TemplateStart,
    TemplateEnd,
    TemplateString(Seq<char>),
    TemplateExprStart,
    True,
    False,
    Undefined,
    Null,
    Function,
    Class,
    Return,
    Let,
    Const,
    Var,
    New,
    While,
    For,
    Do,
    Break,
    Continue,
    Yield,
    If,
    Else,
    Switch,
    Case,
    Default,
    Of,
    Typeof,
    Void,
    InstanceOf,
    LParen,
    RParen,
    LBrace,
    RBrace,
    LBracket,
    RBracket,
    Comma,
    Semicolon,
    Dot,
    Assign(Option<BinaryOp>),
    QMark,
    Colon,
    Plus,
    PlusPlus,
    Minus,
    MinusMinus,
    Star,
    Slash,
    Mod,
    Eq,
    NotEq,
    Not,
    Lt,
    Gt,
    LtEq,
    GtEq,
    Arrow,
    And,
    Or,
    XOr,
    ShiftL,
    ShiftR,
    Try,
    Catch,
    Finally,
    Throw,
    Regex(Seq<char>),
    Eof,
}

impl View for NumberLiteral {
    type V = SpecNumber;

    open spec fn view(&self) -> SpecNumber {
        SpecNumber {
            mantissa: self.mantissa@,
            exponent: match self.exponent {
                Some(e) => Some((e.negative, e.digits@)),
                None => None,
            },
        }
    }
}

impl View for Token {
    type V = SpecToken;

    open spec fn view(&self) -> SpecToken {
        match self {
            Token::Ident(s) => SpecToken::Ident(s@),
            Token::Number(n) => SpecToken::Number(n@),
            Token::Str(s) => SpecToken::Str(s@),
            Token::TemplateStart => SpecToken::TemplateStart,
            Token::TemplateEnd => SpecToken::TemplateEnd,
            Token::TemplateString(s) => SpecToken::TemplateString(s@),
            Token::TemplateExprStart => SpecToken::TemplateExprStart,
            Token::True => SpecToken::True,
            Token::False => SpecToken::False,
            Token::Undefined => SpecToken::Undefined,
            Token::Null => SpecToken::Null,
            Token::Function => SpecToken::Function,
            Token::Class => SpecToken::Class,
            Token::Return => SpecToken::Return,
            Token::Let => SpecToken::Let,
            Token::Const => SpecToken::Const,
            Token::Var => SpecToken::Var,
            Token::New => SpecToken::New,
            Token::While => SpecToken::While,
            Token::For => SpecToken::For,
            Token::Do => SpecToken::Do,
            Token::Break => SpecToken::Break,
            Token::Continue => SpecToken::Continue,
            Token::Yield => SpecToken::Yield,
            Token::If => SpecToken::If,
            Token::Else => SpecToken::Else,
            Token::Switch => SpecToken::Switch,
            Token::Case => SpecToken::Case,
            Token::Default => SpecToken::Default,
            Token::Of => SpecToken::Of,
            Token::Typeof => SpecToken::Typeof,
            Token::Void => SpecToken::Void,
            Token::InstanceOf => SpecToken::InstanceOf,
            Token::LParen => SpecToken::LParen,
            Token::RParen => SpecToken::RParen,
            Token::LBrace => SpecToken::LBrace,
            Token::RBrace => SpecToken::RBrace,
            Token::LBracket => SpecToken::LBracket,
            Token::RBracket => SpecToken::RBracket,
            Token::Comma => SpecToken::Comma,
            Token::Semicolon => SpecToken::Semicolon,
            Token::Dot => SpecToken::Dot,
            Token::Assign(op) => SpecToken::Assign(*op),
            Token::QMark => SpecToken::QMark,
            Token::Colon => SpecToken::Colon,
            Token::Plus => SpecToken::Plus,
            Token::PlusPlus => SpecToken::PlusPlus,
            Token::Minus => SpecToken::Minus,
            Token::MinusMinus => SpecToken::MinusMinus,
            Token::Star => SpecToken::Star,
            Token::Slash => SpecToken::Slash,
            Token::Mod => SpecToken::Mod,
            Token::Eq => SpecToken::Eq,
            Token::NotEq => SpecToken::NotEq,
            Token::Not => SpecToken::Not,
            Token::Lt => SpecToken::Lt,
            Token::Gt => SpecToken::Gt,
            Token::LtEq => SpecToken::LtEq,
            Token::GtEq => SpecToken::GtEq,
            Token::Arrow => SpecToken::Arrow,
            Token::And => SpecToken::And,
            Token::Or => SpecToken::Or,
            Token::XOr => SpecToken::XOr,
            Token::ShiftL => SpecToken::ShiftL,
            Token::ShiftR => SpecToken::ShiftR,
            Token::Try => SpecToken::Try,
            Token::Catch => SpecToken::Catch,
            Token::Finally => SpecToken::Finally,
            Token::Throw => SpecToken::Throw,
            Token::Regex(s) => SpecToken::Regex(s@),
            Token::Eof => SpecToken::Eof,
        }
    }
}

/// The token that a word stands for: a keyword's token, or else an
/// identifier with the word as its name.
pub open spec fn keyword_token(w: Seq<char>) -> SpecToken {
    if w == "function"@ { SpecToken::Function }
    else if w == "class"@ { SpecToken::Class }
    else if w == "return"@ { SpecToken::Return }
    else if w == "let"@ { SpecToken::Let }
    else if w == "const"@ { SpecToken::Const }
    else if w == "var"@ { SpecToken::Var }
    else if w == "new"@ { SpecToken::New }
    else if w == "true"@ { SpecToken::True }
    else if w == "false"@ { SpecToken::False }
    else if w == "undefined"@ { SpecToken::Undefined }
    else if w == "null"@ { SpecToken::Null }
    else if w == "while"@ { SpecToken::While }
    else if w == "for"@ { SpecToken::For }
    else if w == "do"@ { SpecToken::Do }
    else if w == "break"@ { SpecToken::Break }
    else if w == "continue"@ { SpecToken::Continue }
    else if w == "yield"@ { SpecToken::Yield }
    else if w == "if"@ { SpecToken::If }
    else if w == "else"@ { SpecToken::Else }
    else if w == "switch"@ { SpecToken::Switch }
    else if w == "case"@ { SpecToken::Case }
    else if w == "default"@ { SpecToken::Default }
    else if w == "of"@ { SpecToken::Of }
    else if w == "typeof"@ { SpecToken::Typeof }
    else if w == "void"@ { SpecToken::Void }
    else if w == "instanceof"@ { SpecToken::InstanceOf }
    else if w == "try"@ { SpecToken::Try }
    else if w == "catch"@ { SpecToken::Catch }
    else if w == "finally"@ { SpecToken::Finally }
    else if w == "throw"@ { SpecToken::Throw }
    else { SpecToken::Ident(w) }
}

/// The text of a keyword token, or the name of an identifier; `None` for
/// every other token.
pub open spec fn keyword_text(t: SpecToken) -> Option<Seq<char>> {
    match t {
        SpecToken::Function => Some("function"@),
        SpecToken::Class => Some("class"@),
        SpecToken::Return => Some("return"@),
        SpecToken::Let => Some("let"@),
        SpecToken::Const => Some("const"@),
        SpecToken::Var => Some("var"@),
        SpecToken::New => Some("new"@),
        SpecToken::True => Some("true"@),
        SpecToken::False => Some("false"@),
        SpecToken::Undefined => Some("undefined"@),
        SpecToken::Null => Some("null"@),
        SpecToken::While => Some("while"@),
        SpecToken::For => Some("for"@),
        SpecToken::Do => Some("do"@),
        SpecToken::Break => Some("break"@),
        SpecToken::Continue => Some("continue"@),
        SpecToken::Yield => Some("yield"@),
        SpecToken::If => Some("if"@),
        SpecToken::Else => Some("else"@),
        SpecToken::Switch => Some("switch"@),
        SpecToken::Case => Some("case"@),
        SpecToken::Default => Some("default"@),
        SpecToken::Of => Some("of"@),
        SpecToken::Typeof => Some("typeof"@),
        SpecToken::Void => Some("void"@),
        SpecToken::InstanceOf => Some("instanceof"@),
        SpecToken::Try => Some("try"@),
        SpecToken::Catch => Some("catch"@),
        SpecToken::Finally => Some("finally"@),
        SpecToken::Throw => Some("throw"@),
        SpecToken::Ident(w) => Some(w),
        _ => None,
    }
}

impl Token {
    /// The keyword token that `value` spells, or an identifier named
    /// `value`.
    pub fn from_keyword(value: String) -> (r: Token)
        ensures r@ == keyword_token(value@),
    {
        let w = value.as_str();
        if str_eq(w, "function") { Token::Function }
        else if str_eq(w, "class") { Token::Class }
        else if str_eq(w, "return") { Token::Return }
        else if str_eq(w, "let") { Token::Let }
        else if str_eq(w, "const") { Token::Const }
        else if str_eq(w, "var") { Token::Var }
        else if str_eq(w, "new") { Token::New }
        else if str_eq(w, "true") { Token::True }
        else if str_eq(w, "false") { Token::False }
        else if str_eq(w, "undefined") { Token::Undefined }
        else if str_eq(w, "null") { Token::Null }
        else if str_eq(w, "while") { Token::While }
        else if str_eq(w, "for") { Token::For }
        else if str_eq(w, "do") { Token::Do }
        else if str_eq(w, "break") { Token::Break }
        else if str_eq(w, "continue") { Token::Continue }
        else if str_eq(w, "yield") { Token::Yield }
        else if str_eq(w, "if") { Token::If }
        else if str_eq(w, "else") { Token::Else }
        else if str_eq(w, "switch") { Token::Switch }
        else if str_eq(w, "case") { Token::Case }
        else if str_eq(w, "default") { Token::Default }
        else if str_eq(w, "of") { Token::Of }
        else if str_eq(w, "typeof") { Token::Typeof }
        else if str_eq(w, "void") { Token::Void }
        else if str_eq(w, "instanceof") { Token::InstanceOf }
        else if str_eq(w, "try") { Token::Try }
        else if str_eq(w, "catch") { Token::Catch }
        else if str_eq(w, "finally") { Token::Finally }
        else if str_eq(w, "throw") { Token::Throw }
        else { Token::Ident(value) }
    }

    /// The text of a keyword token, or the name of an identifier.
    pub fn as_keyword(&self) -> (r: &str)
        requires keyword_text(self@) is Some,
        ensures r@ == keyword_text(self@)->0,
    {
        match self {
            Token::Function => "function",
            Token::Class => "class",
            Token::Return => "return",
            Token::Let => "let",
            Token::Const => "const",
            Token::Var => "var",
            Token::New => "new",
            Token::True => "true",
            Token::False => "false",
            Token::Undefined => "undefined",
            Token::Null => "null",
            Token::While => "while",
            Token::For => "for",
            Token::Do => "do",
            Token::Break => "break",
            Token::Continue => "continue",
            Token::Yield => "yield",
            Token::If => "if",
            Token::Else => "else",
            Token::Switch => "switch",
            Token::Case => "case",
            Token::Default => "default",
            Token::Of => "of",
            Token::Typeof => "typeof",
            Token::Void => "void",
            Token::InstanceOf => "instanceof",
            Token::Try => "try",
            Token::Catch => "catch",
            Token::Finally => "finally",
            Token::Throw => "throw",
            Token::Ident(value) => value.as_str(),
            _ => "",
        }
    }
}

/// Reading back the text of the token that a word lexes to gives the word.
pub proof fn law_keyword_text_of_word(w: Seq<char>)
    ensures keyword_text(keyword_token(w)) == Some(w),
{
}

/// Spelling a keyword token and reading the word back gives the token; so
/// does an identifier whose name is no keyword.
pub proof fn law_keyword_token_of_text(t: SpecToken)
    requires
        keyword_text(t) is Some,
        t matches SpecToken::Ident(w) ==> keyword_token(w) == SpecToken::Ident(w),
    ensures keyword_token(keyword_text(t)->0) == t,
{
    reveal_strlit("function");
    assert("function"@.len() == 8);
    reveal_strlit("class");
    assert("class"@.len() == 5);
    reveal_strlit("return");
    assert("return"@.len() == 6);
    reveal_strlit("let");
    assert("let"@.len() == 3);
    reveal_strlit("const");
    assert("const"@.len() == 5);
    reveal_strlit("var");
    assert("var"@.len() == 3);
    reveal_strlit("new");
    assert("new"@.len() == 3);
    reveal_strlit("true");
    assert("true"@.len() == 4);
    reveal_strlit("false");
    assert("false"@.len() == 5);
    reveal_strlit("undefined");
    assert("undefined"@.len() == 9);
    reveal_strlit("null");
    assert("null"@.len() == 4);
    reveal_strlit("while");
    assert("while"@.len() == 5);
    reveal_strlit("for");
    assert("for"@.len() == 3);
    reveal_strlit("do");
    assert("do"@.len() == 2);
    reveal_strlit("break");
    assert("break"@.len() == 5);
    reveal_strlit("continue");
    assert("continue"@.len() == 8);
    reveal_strlit("yield");
    assert("yield"@.len() == 5);
    reveal_strlit("if");
    assert("if"@.len() == 2);
    reveal_strlit("else");
    assert("else"@.len() == 4);
    reveal_strlit("switch");
    assert("switch"@.len() == 6);
    reveal_strlit("case");
    assert("case"@.len() == 4);
    reveal_strlit("default");
    assert("default"@.len() == 7);
    reveal_strlit("of");
    assert("of"@.len() == 2);
    reveal_strlit("typeof");
    assert("typeof"@.len() == 6);
    reveal_strlit("void");
    assert("void"@.len() == 4);
    reveal_strlit("instanceof");
    assert("instanceof"@.len() == 10);
    reveal_strlit("try");
    assert("try"@.len() == 3);
    reveal_strlit("catch");
    assert("catch"@.len() == 5);
    reveal_strlit("finally");
    assert("finally"@.len() == 7);
    reveal_strlit("throw");
    assert("throw"@.len() == 5);
    match t {
        SpecToken::Const => {
            assert("const"@[1] != "class"@[1]);
        },
        SpecToken::Var => {
            assert("var"@[0] != "let"@[0]);
        },
        SpecToken::New => {
            assert("new"@[0] != "let"@[0]);
            assert("new"@[0] != "var"@[0]);
        },
        SpecToken::False => {
            assert("false"@[0] != "class"@[0]);
            assert("false"@[0] != "const"@[0]);
        },
        SpecToken::Null => {
            assert("null"@[0] != "true"@[0]);
        },
        SpecToken::While => {
            assert("while"@[0] != "class"@[0]);
            assert("while"@[0] != "const"@[0]);
            assert("while"@[0] != "false"@[0]);
        },
        SpecToken::For => {
            assert("for"@[0] != "let"@[0]);
            assert("for"@[0] != "var"@[0]);
            assert("for"@[0] != "new"@[0]);
        },
        SpecToken::Break => {
            assert("break"@[0] != "class"@[0]);
            assert("break"@[0] != "const"@[0]);
            assert("break"@[0] != "false"@[0]);
            assert("break"@[0] != "while"@[0]);
        },
        SpecToken::Continue => {
            assert("continue"@[0] != "function"@[0]);
        },
        SpecToken::Yield => {
            assert("yield"@[0] != "class"@[0]);
            assert("yield"@[0] != "const"@[0]);
            assert("yield"@[0] != "false"@[0]);
            assert("yield"@[0] != "while"@[0]);
            assert("yield"@[0] != "break"@[0]);
        },
        SpecToken::If => {
            assert("if"@[0] != "do"@[0]);
        },
        SpecToken::Else => {
            assert("else"@[0] != "true"@[0]);
            assert("else"@[0] != "null"@[0]);
        },
        SpecToken::Switch => {
            assert("switch"@[0] != "return"@[0]);
        },
        SpecToken::Case => {
            assert("case"@[0] != "true"@[0]);
            assert("case"@[0] != "null"@[0]);
            assert("case"@[0] != "else"@[0]);
        },
        SpecToken::Of => {
            assert("of"@[0] != "do"@[0]);
            assert("of"@[0] != "if"@[0]);
        },
        SpecToken::Typeof => {
            assert("typeof"@[0] != "return"@[0]);
            assert("typeof"@[0] != "switch"@[0]);
        },
        SpecToken::Void => {
            assert("void"@[0] != "true"@[0]);
            assert("void"@[0] != "null"@[0]);
            assert("void"@[0] != "else"@[0]);
            assert("void"@[0] != "case"@[0]);
        },
        SpecToken::Try => {
            assert("try"@[0] != "let"@[0]);
            assert("try"@[0] != "var"@[0]);
            assert("try"@[0] != "new"@[0]);
            assert("try"@[0] != "for"@[0]);
        },
        SpecToken::Catch => {
            assert("catch"@[1] != "class"@[1]);
            assert("catch"@[1] != "const"@[1]);
            assert("catch"@[0] != "false"@[0]);
            assert("catch"@[0] != "while"@[0]);
            assert("catch"@[0] != "break"@[0]);
            assert("catch"@[0] != "yield"@[0]);
        },
        SpecToken::Finally => {
            assert("finally"@[0] != "default"@[0]);
        },
        SpecToken::Throw => {
            assert("throw"@[0] != "class"@[0]);
            assert("throw"@[0] != "const"@[0]);
            assert("throw"@[0] != "false"@[0]);
            assert("throw"@[0] != "while"@[0]);
            assert("throw"@[0] != "break"@[0]);
            assert("throw"@[0] != "yield"@[0]);
            assert("throw"@[0] != "catch"@[0]);
        },
        _ => {},
    }
}

} // verus!
