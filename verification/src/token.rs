//! Tokens and source spans.

use vstd::prelude::*;

use crate::ast::{BinaryOperator, BinaryOperatorKind, UnaryOperator, UnaryOperatorKind};

verus! {

/// A half-open range of character offsets into one source file.
#[derive(Debug, Clone, Copy, PartialEq, Eq, Structural, Hash)]
pub struct Span {
    pub start: usize,
    pub end: usize,
}

/// The smallest span containing both `a` and `b`.
pub open spec fn spec_combine(a: Span, b: Span) -> Span {
    Span {
        start: if a.start <= b.start {
            a.start
        } else {
            b.start
        },
        end: if a.end >= b.end {
            a.end
        } else {
            b.end
        },
    }
}

impl Span {
    /// The smallest span containing both `start` and `end`.
    pub fn combine(start: &Span, end: &Span) -> (r: Span)
        ensures
            r == spec_combine(*start, *end),
    {
        let left_most: usize = if start.start <= end.start { start.start } else { end.start };
        let right_most: usize = if start.end >= end.end { start.end } else { end.end };
        Span { start: left_most, end: right_most }
    }

    /// The gap between two spans.
    pub fn between(start: &Span, end: &Span) -> (r: Span)
        ensures
            r == (Span { start: start.end, end: end.start }),
    {
        Span { start: start.end, end: end.start }
    }
}

impl Default for Span {
    /// The zero span, used for findings with no concrete location.
    fn default() -> (r: Span)
        ensures
            r == (Span { start: 0usize, end: 0usize }),
    {
        Span { start: 0, end: 0 }
    }
}

/// A lexical category together with its payload, if any.
///
/// Float literals carry their source text: no stage of the front end reads
/// the numeric value, and the analyzer compares float types by kind alone.
#[derive(Debug, Clone)]
pub enum TokenKind {
    // keywords
    Fn,
    If,
    Else,
    While,
    For,
    Return,
    Let,
    True,
    False,
    // single-character tokens
    Plus,
    Minus,
    Star,
    Slash,
    Percent,
    Caret,
    Bang,
    Colon,
    Semicolon,
    Comma,
    Dot,
    Equals,
    Less,
    Greater,
    LParen,
    RParen,
    LBrace,
    RBrace,
    Quote,
    // double-character tokens
    PlusEquals,
    MinusEquals,
    StarEquals,
    SlashEquals,
    PercentEquals,
    CaretEquals,
    BangEquals,
    LessEquals,
    GreaterEquals,
    EqualsEquals,
    Arrow,
    // literals
    Ident(String),
    IntLiteral(i32),
    FloatLiteral(String),
    BoolLiteral(bool),
    // data types
    Int,
    Bool,
    Float,
    // end of file
    Eof,
}

/// Mathematical model of a `TokenKind`: identifier and float-literal text
/// becomes a sequence of characters.
pub enum TokenKindM {
    Fn,
    If,
    Else,
    While,
    For,
    Return,
    Let,
    True,
    False,
    Plus,
    Minus,
    Star,
    Slash,
    Percent,
    Caret,
    Bang,
    Colon,
    Semicolon,
    Comma,
    Dot,
    Equals,
    Less,
    Greater,
    LParen,
    RParen,
    LBrace,
    RBrace,
    Quote,
    PlusEquals,
    MinusEquals,
    StarEquals,
    SlashEquals,
    PercentEquals,
    CaretEquals,
    BangEquals,
    LessEquals,
    GreaterEquals,
    EqualsEquals,
    Arrow,
    Ident(Seq<char>),
    IntLiteral(i32),
    FloatLiteral(Seq<char>),
    BoolLiteral(bool),
    Int,
    Bool,
    Float,
    Eof,
}

impl TokenKind {
    /// The model of this token kind.
    pub open spec fn m(&self) -> TokenKindM {
        match self {
            TokenKind::Fn => TokenKindM::Fn,
            TokenKind::If => TokenKindM::If,
            TokenKind::Else => TokenKindM::Else,
            TokenKind::While => TokenKindM::While,
            TokenKind::For => TokenKindM::For,
            TokenKind::Return => TokenKindM::Return,
            TokenKind::Let => TokenKindM::Let,
            TokenKind::True => TokenKindM::True,
            TokenKind::False => TokenKindM::False,
            TokenKind::Plus => TokenKindM::Plus,
            TokenKind::Minus => TokenKindM::Minus,
            TokenKind::Star => TokenKindM::Star,
            TokenKind::Slash => TokenKindM::Slash,
            TokenKind::Percent => TokenKindM::Percent,
            TokenKind::Caret => TokenKindM::Caret,
            TokenKind::Bang => TokenKindM::Bang,
            TokenKind::Colon => TokenKindM::Colon,
            TokenKind::Semicolon => TokenKindM::Semicolon,
            TokenKind::Comma => TokenKindM::Comma,
            TokenKind::Dot => TokenKindM::Dot,
            TokenKind::Equals => TokenKindM::Equals,
            TokenKind::Less => TokenKindM::Less,
            TokenKind::Greater => TokenKindM::Greater,
            TokenKind::LParen => TokenKindM::LParen,
            TokenKind::RParen => TokenKindM::RParen,
            TokenKind::LBrace => TokenKindM::LBrace,
            TokenKind::RBrace => TokenKindM::RBrace,
            TokenKind::Quote => TokenKindM::Quote,
            TokenKind::PlusEquals => TokenKindM::PlusEquals,
            TokenKind::MinusEquals => TokenKindM::MinusEquals,
            TokenKind::StarEquals => TokenKindM::StarEquals,
            TokenKind::SlashEquals => TokenKindM::SlashEquals,
            TokenKind::PercentEquals => TokenKindM::PercentEquals,
            TokenKind::CaretEquals => TokenKindM::CaretEquals,
            TokenKind::BangEquals => TokenKindM::BangEquals,
            TokenKind::LessEquals => TokenKindM::LessEquals,
            TokenKind::GreaterEquals => TokenKindM::GreaterEquals,
            TokenKind::EqualsEquals => TokenKindM::EqualsEquals,
            TokenKind::Arrow => TokenKindM::Arrow,
            TokenKind::Ident(s) => TokenKindM::Ident(s@),
            TokenKind::IntLiteral(v) => TokenKindM::IntLiteral(*v),
            TokenKind::FloatLiteral(s) => TokenKindM::FloatLiteral(s@),
            TokenKind::BoolLiteral(b) => TokenKindM::BoolLiteral(*b),
            TokenKind::Int => TokenKindM::Int,
            TokenKind::Bool => TokenKindM::Bool,
            TokenKind::Float => TokenKindM::Float,
            TokenKind::Eof => TokenKindM::Eof,
        }
    }
}

/// A token: a lexical category and the span of source text it covers.
#[derive(Debug, Clone)]
pub struct Token {
    pub kind: TokenKind,
    pub span: Span,
}

/// Mathematical model of a `Token`.
pub struct TokenM {
    pub kind: TokenKindM,
    pub span: Span,
}

impl Token {
    /// The model of this token.
    pub open spec fn m(&self) -> TokenM {
        TokenM { kind: self.kind.m(), span: self.span }
    }
}

/// Compares two string slices by their character sequences.
pub fn str_eq(a: &str, b: &str) -> (r: bool)
    ensures
        r == (a@ == b@),
{
    let sa = a.to_owned();
    let sb = b.to_owned();
    sa == sb
}

/// The token kind that a one- or two-character operator string denotes,
/// if the string is one of the recognised operators.
pub open spec fn spec_operator_from(s: Seq<char>) -> Option<TokenKindM> {
    if s == "+"@ {
        Some(TokenKindM::Plus)
    } else if s == "-"@ {
        Some(TokenKindM::Minus)
    } else if s == "*"@ {
        Some(TokenKindM::Star)
    } else if s == "/"@ {
        Some(TokenKindM::Slash)
    } else if s == "%"@ {
        Some(TokenKindM::Percent)
    } else if s == "^"@ {
        Some(TokenKindM::Caret)
    } else if s == "!"@ {
        Some(TokenKindM::Bang)
    } else if s == ":"@ {
        Some(TokenKindM::Colon)
    } else if s == ";"@ {
        Some(TokenKindM::Semicolon)
    } else if s == ","@ {
        Some(TokenKindM::Comma)
    } else if s == "."@ {
        Some(TokenKindM::Dot)
    } else if s == "="@ {
        Some(TokenKindM::Equals)
    } else if s == "<"@ {
        Some(TokenKindM::Less)
    } else if s == ">"@ {
        Some(TokenKindM::Greater)
    } else if s == "+="@ {
        Some(TokenKindM::PlusEquals)
    } else if s == "-="@ {
        Some(TokenKindM::MinusEquals)
    } else if s == "*="@ {
        Some(TokenKindM::StarEquals)
    } else if s == "/="@ {
        Some(TokenKindM::SlashEquals)
    } else if s == "%="@ {
        Some(TokenKindM::PercentEquals)
    } else if s == "^="@ {
        Some(TokenKindM::CaretEquals)
    } else if s == "!="@ {
        Some(TokenKindM::BangEquals)
    } else if s == "<="@ {
        Some(TokenKindM::LessEquals)
    } else if s == ">="@ {
        Some(TokenKindM::GreaterEquals)
    } else if s == "=="@ {
        Some(TokenKindM::EqualsEquals)
    } else if s == "->"@ {
        Some(TokenKindM::Arrow)
    } else {
        None
    }
}

/// The token kind that a word denotes: a keyword or a type name where the
/// word is in the keyword table, an identifier otherwise.
pub open spec fn spec_keyword_from(s: Seq<char>) -> TokenKindM {
    if s == "fn"@ {
        TokenKindM::Fn
    } else if s == "if"@ {
        TokenKindM::If
    } else if s == "else"@ {
        TokenKindM::Else
    } else if s == "while"@ {
        TokenKindM::While
    } else if s == "for"@ {
        TokenKindM::For
    } else if s == "return"@ {
        TokenKindM::Return
    } else if s == "let"@ {
        TokenKindM::Let
    } else if s == "true"@ {
        TokenKindM::True
    } else if s == "false"@ {
        TokenKindM::False
    } else if s == "int"@ {
        TokenKindM::Int
    } else if s == "bool"@ {
        TokenKindM::Bool
    } else if s == "float"@ {
        TokenKindM::Float
    } else {
        TokenKindM::Ident(s)
    }
}

impl TokenKind {
    /// The operator token denoted by `op`.
    ///
    /// Only strings in the operator table are accepted; every caller hands
    /// over a string it has already classified.
    pub fn operator_from(op: &str) -> (r: TokenKind)
        requires
            spec_operator_from(op@) is Some,
        ensures
            Some(r.m()) == spec_operator_from(op@),
    {
        if str_eq(op, "+") {
            TokenKind::Plus
        } else if str_eq(op, "-") {
            TokenKind::Minus
        } else if str_eq(op, "*") {
            TokenKind::Star
        } else if str_eq(op, "/") {
            TokenKind::Slash
        } else if str_eq(op, "%") {
            TokenKind::Percent
        } else if str_eq(op, "^") {
            TokenKind::Caret
        } else if str_eq(op, "!") {
            TokenKind::Bang
        } else if str_eq(op, ":") {
            TokenKind::Colon
        } else if str_eq(op, ";") {
            TokenKind::Semicolon
        } else if str_eq(op, ",") {
            TokenKind::Comma
        } else if str_eq(op, ".") {
            TokenKind::Dot
        } else if str_eq(op, "=") {
            TokenKind::Equals
        } else if str_eq(op, "<") {
            TokenKind::Less
        } else if str_eq(op, ">") {
            TokenKind::Greater
        } else if str_eq(op, "+=") {
            TokenKind::PlusEquals
        } else if str_eq(op, "-=") {
            TokenKind::MinusEquals
        } else if str_eq(op, "*=") {
            TokenKind::StarEquals
        } else if str_eq(op, "/=") {
            TokenKind::SlashEquals
        } else if str_eq(op, "%=") {
            TokenKind::PercentEquals
        } else if str_eq(op, "^=") {
            TokenKind::CaretEquals
        } else if str_eq(op, "!=") {
            TokenKind::BangEquals
        } else if str_eq(op, "<=") {
            TokenKind::LessEquals
        } else if str_eq(op, ">=") {
            TokenKind::GreaterEquals
        } else if str_eq(op, "==") {
            TokenKind::EqualsEquals
        } else if str_eq(op, "->") {
            TokenKind::Arrow
        } else {
            proof {
                assert(false);
            }
            TokenKind::Eof
        }
    }

    /// The token kind for a lexed word: keyword, type name or identifier.
    pub fn keyword_from(keyword: &str) -> (r: TokenKind)
        ensures
            r.m() == spec_keyword_from(keyword@),
    {
        if str_eq(keyword, "fn") {
            TokenKind::Fn
        } else if str_eq(keyword, "if") {
            TokenKind::If
        } else if str_eq(keyword, "else") {
            TokenKind::Else
        } else if str_eq(keyword, "while") {
            TokenKind::While
        } else if str_eq(keyword, "for") {
            TokenKind::For
        } else if str_eq(keyword, "return") {
            TokenKind::Return
        } else if str_eq(keyword, "let") {
            TokenKind::Let
        } else if str_eq(keyword, "true") {
            TokenKind::True
        } else if str_eq(keyword, "false") {
            TokenKind::False
        } else if str_eq(keyword, "int") {
            TokenKind::Int
        } else if str_eq(keyword, "bool") {
            TokenKind::Bool
        } else if str_eq(keyword, "float") {
            TokenKind::Float
        } else {
            TokenKind::Ident(keyword.to_owned())
        }
    }
}

/// Whether a token kind is a literal.
pub open spec fn spec_is_literal(k: TokenKindM) -> bool {
    match k {
        TokenKindM::IntLiteral(_) => true,
        TokenKindM::FloatLiteral(_) => true,
        TokenKindM::BoolLiteral(_) => true,
        _ => false,
    }
}

/// Whether a token kind is an operator or punctuation mark.
pub open spec fn spec_is_operator(k: TokenKindM) -> bool {
    match k {
        TokenKindM::Plus => true,
        TokenKindM::Minus => true,
        TokenKindM::Star => true,
        TokenKindM::Slash => true,
        TokenKindM::Percent => true,
        TokenKindM::Caret => true,
        TokenKindM::Bang => true,
        TokenKindM::Colon => true,
        TokenKindM::Semicolon => true,
        TokenKindM::Comma => true,
        TokenKindM::Dot => true,
        TokenKindM::Equals => true,
        TokenKindM::Less => true,
        TokenKindM::Greater => true,
        TokenKindM::PlusEquals => true,
        TokenKindM::MinusEquals => true,
        TokenKindM::StarEquals => true,
        TokenKindM::SlashEquals => true,
        TokenKindM::PercentEquals => true,
        TokenKindM::CaretEquals => true,
        TokenKindM::BangEquals => true,
        TokenKindM::LessEquals => true,
        TokenKindM::GreaterEquals => true,
        TokenKindM::EqualsEquals => true,
        TokenKindM::Arrow => true,
        _ => false,
    }
}

/// Whether a token kind is a keyword or a type name.
pub open spec fn spec_is_keyword(k: TokenKindM) -> bool {
    match k {
        TokenKindM::Fn => true,
        TokenKindM::If => true,
        TokenKindM::Else => true,
        TokenKindM::While => true,
        TokenKindM::For => true,
        TokenKindM::Return => true,
        TokenKindM::Let => true,
        TokenKindM::True => true,
        TokenKindM::False => true,
        TokenKindM::Int => true,
        TokenKindM::Bool => true,
        TokenKindM::Float => true,
        _ => false,
    }
}

/// Whether a token kind names a data type.
pub open spec fn spec_is_data_type(k: TokenKindM) -> bool {
    match k {
        TokenKindM::Int => true,
        TokenKindM::Bool => true,
        TokenKindM::Float => true,
        _ => false,
    }
}

impl TokenKind {
    /// Is this token a literal?
    pub fn is_literal(&self) -> (r: bool)
        ensures
            r == spec_is_literal(self.m()),
    {
        match self {
            TokenKind::IntLiteral(_) | TokenKind::FloatLiteral(_) | TokenKind::BoolLiteral(_) => true,
            _ => false,
        }
    }

    /// Is this token an operator or punctuation mark?
    pub fn is_operator(&self) -> (r: bool)
        ensures
            r == spec_is_operator(self.m()),
    {
        match self {
            TokenKind::Plus
            | TokenKind::Minus
            | TokenKind::Star
            | TokenKind::Slash
            | TokenKind::Percent
            | TokenKind::Caret
            | TokenKind::Bang
            | TokenKind::Colon
            | TokenKind::Semicolon
            | TokenKind::Comma
            | TokenKind::Dot
            | TokenKind::Equals
            | TokenKind::Less
            | TokenKind::Greater
            | TokenKind::PlusEquals
            | TokenKind::MinusEquals
            | TokenKind::StarEquals
            | TokenKind::SlashEquals
            | TokenKind::PercentEquals
            | TokenKind::CaretEquals
            | TokenKind::BangEquals
            | TokenKind::LessEquals
            | TokenKind::GreaterEquals
            | TokenKind::EqualsEquals
            | TokenKind::Arrow => true,
            _ => false,
        }
    }

    /// Is this token a keyword?
    pub fn is_keyword(&self) -> (r: bool)
        ensures
            r == spec_is_keyword(self.m()),
    {
        match self {
            TokenKind::Fn
            | TokenKind::If
            | TokenKind::Else
            | TokenKind::While
            | TokenKind::For
            | TokenKind::Return
            | TokenKind::Let
            | TokenKind::True
            | TokenKind::False
            | TokenKind::Int
            | TokenKind::Bool
            | TokenKind::Float => true,
            _ => false,
        }
    }

    /// Is this token a data type name?
    pub fn is_data_type(&self) -> (r: bool)
        ensures
            r == spec_is_data_type(self.m()),
    {
        match self {
            TokenKind::Int | TokenKind::Bool | TokenKind::Float => true,
            _ => false,
        }
    }
}

/// The canonical source text of a token kind: the spelling of keywords,
/// operators and type names, and a category name for the rest.
pub open spec fn spec_text(k: TokenKindM) -> Seq<char> {
    match k {
        TokenKindM::Fn => "fn"@,
        TokenKindM::If => "if"@,
        TokenKindM::Else => "else"@,
        TokenKindM::While => "while"@,
        TokenKindM::For => "for"@,
        TokenKindM::Return => "return"@,
        TokenKindM::Let => "let"@,
        TokenKindM::True => "true"@,
        TokenKindM::False => "false"@,
        TokenKindM::Plus => "+"@,
        TokenKindM::Minus => "-"@,
        TokenKindM::Star => "*"@,
        TokenKindM::Slash => "/"@,
        TokenKindM::Percent => "%"@,
        TokenKindM::Caret => "^"@,
        TokenKindM::Bang => "!"@,
        TokenKindM::Colon => ":"@,
        TokenKindM::Semicolon => ";"@,
        TokenKindM::Comma => ","@,
        TokenKindM::Dot => "."@,
        TokenKindM::Equals => "="@,
        TokenKindM::Less => "<"@,
        TokenKindM::Greater => ">"@,
        TokenKindM::LParen => "("@,
        TokenKindM::RParen => ")"@,
        TokenKindM::LBrace => "{"@,
        TokenKindM::RBrace => "}"@,
        TokenKindM::Quote => "\""@,
        TokenKindM::PlusEquals => "+="@,
        TokenKindM::MinusEquals => "-="@,
        TokenKindM::StarEquals => "*="@,
        TokenKindM::SlashEquals => "/="@,
        TokenKindM::PercentEquals => "%="@,
        TokenKindM::CaretEquals => "^="@,
        TokenKindM::BangEquals => "!="@,
        TokenKindM::LessEquals => "<="@,
        TokenKindM::GreaterEquals => ">="@,
        TokenKindM::EqualsEquals => "=="@,
        TokenKindM::Arrow => "->"@,
        TokenKindM::Ident(_) => "Ident"@,
        TokenKindM::IntLiteral(_) => "IntegerLiteral"@,
        TokenKindM::FloatLiteral(_) => "FloatLiteral"@,
        TokenKindM::BoolLiteral(_) => "BooleanLiteral"@,
        TokenKindM::Int => "int"@,
        TokenKindM::Bool => "bool"@,
        TokenKindM::Float => "float"@,
        TokenKindM::Eof => "EOF"@,
    }
}

impl TokenKind {
    /// The canonical text of this token kind.
    pub fn text(&self) -> (r: String)
        ensures
            r@ == spec_text(self.m()),
    {
        match self {
            TokenKind::Fn => String::from_str("fn"),
            TokenKind::If => String::from_str("if"),
            TokenKind::Else => String::from_str("else"),
            TokenKind::While => String::from_str("while"),
            TokenKind::For => String::from_str("for"),
            TokenKind::Return => String::from_str("return"),
            TokenKind::Let => String::from_str("let"),
            TokenKind::True => String::from_str("true"),
            TokenKind::False => String::from_str("false"),
            TokenKind::Plus => String::from_str("+"),
            TokenKind::Minus => String::from_str("-"),
            TokenKind::Star => String::from_str("*"),
            TokenKind::Slash => String::from_str("/"),
            TokenKind::Percent => String::from_str("%"),
            TokenKind::Caret => String::from_str("^"),
            TokenKind::Bang => String::from_str("!"),
            TokenKind::Colon => String::from_str(":"),
            TokenKind::Semicolon => String::from_str(";"),
            TokenKind::Comma => String::from_str(","),
            TokenKind::Dot => String::from_str("."),
            TokenKind::Equals => String::from_str("="),
            TokenKind::Less => String::from_str("<"),
            TokenKind::Greater => String::from_str(">"),
            TokenKind::LParen => String::from_str("("),
            TokenKind::RParen => String::from_str(")"),
            TokenKind::LBrace => String::from_str("{"),
            TokenKind::RBrace => String::from_str("}"),
            TokenKind::Quote => String::from_str("\""),
            TokenKind::PlusEquals => String::from_str("+="),
            TokenKind::MinusEquals => String::from_str("-="),
            TokenKind::StarEquals => String::from_str("*="),
            TokenKind::SlashEquals => String::from_str("/="),
            TokenKind::PercentEquals => String::from_str("%="),
            TokenKind::CaretEquals => String::from_str("^="),
            TokenKind::BangEquals => String::from_str("!="),
            TokenKind::LessEquals => String::from_str("<="),
            TokenKind::GreaterEquals => String::from_str(">="),
            TokenKind::EqualsEquals => String::from_str("=="),
            TokenKind::Arrow => String::from_str("->"),
            TokenKind::Ident(_) => String::from_str("Ident"),
            TokenKind::IntLiteral(_) => String::from_str("IntegerLiteral"),
            TokenKind::FloatLiteral(_) => String::from_str("FloatLiteral"),
            TokenKind::BoolLiteral(_) => String::from_str("BooleanLiteral"),
            TokenKind::Int => String::from_str("int"),
            TokenKind::Bool => String::from_str("bool"),
            TokenKind::Float => String::from_str("float"),
            TokenKind::Eof => String::from_str("EOF"),
        }
    }
}

/// The binary operator denoted by a token kind, if any.
pub open spec fn spec_as_bin_op(k: TokenKindM) -> Option<BinaryOperatorKind> {
    match k {
        TokenKindM::Plus => Some(BinaryOperatorKind::Add),
        TokenKindM::Minus => Some(BinaryOperatorKind::Subtract),
        TokenKindM::Star => Some(BinaryOperatorKind::Multiply),
        TokenKindM::Slash => Some(BinaryOperatorKind::Divide),
        TokenKindM::Percent => Some(BinaryOperatorKind::Modulus),
        TokenKindM::EqualsEquals => Some(BinaryOperatorKind::Equal),
        TokenKindM::BangEquals => Some(BinaryOperatorKind::NotEqual),
        TokenKindM::Less => Some(BinaryOperatorKind::LessThan),
        TokenKindM::LessEquals => Some(BinaryOperatorKind::LessThanOrEqual),
        TokenKindM::Greater => Some(BinaryOperatorKind::GreaterThan),
        TokenKindM::GreaterEquals => Some(BinaryOperatorKind::GreaterThanOrEqual),
        _ => None,
    }
}

/// The unary operator denoted by a token kind, if any.
pub open spec fn spec_as_un_op(k: TokenKindM) -> Option<UnaryOperatorKind> {
    match k {
        TokenKindM::Bang => Some(UnaryOperatorKind::Not),
        TokenKindM::Minus => Some(UnaryOperatorKind::Negate),
        _ => None,
    }
}

impl Token {
    /// The binary operator this token denotes, if any, carrying the
    /// token's span.
    pub fn as_bin_op(&self) -> (r: Option<BinaryOperator>)
        ensures
            match r {
                Some(op) => Some(op.kind) == spec_as_bin_op(self.kind.m()) && op.span == self.span,
                None => spec_as_bin_op(self.kind.m()) is None,
            },
    {
        let kind = match self.kind {
            TokenKind::Plus => Some(BinaryOperatorKind::Add),
            TokenKind::Minus => Some(BinaryOperatorKind::Subtract),
            TokenKind::Star => Some(BinaryOperatorKind::Multiply),
            TokenKind::Slash => Some(BinaryOperatorKind::Divide),
            TokenKind::Percent => Some(BinaryOperatorKind::Modulus),
            TokenKind::EqualsEquals => Some(BinaryOperatorKind::Equal),
            TokenKind::BangEquals => Some(BinaryOperatorKind::NotEqual),
            TokenKind::Less => Some(BinaryOperatorKind::LessThan),
            TokenKind::LessEquals => Some(BinaryOperatorKind::LessThanOrEqual),
            TokenKind::Greater => Some(BinaryOperatorKind::GreaterThan),
            TokenKind::GreaterEquals => Some(BinaryOperatorKind::GreaterThanOrEqual),
            _ => None,
        };
        match kind {
            Some(k) => Some(BinaryOperator { kind: k, span: self.span }),
            None => None,
        }
    }

    /// The unary operator this token denotes, if any, carrying the
    /// token's span.
    pub fn as_un_op(&self) -> (r: Option<UnaryOperator>)
        ensures
            match r {
                Some(op) => Some(op.kind) == spec_as_un_op(self.kind.m()) && op.span == self.span,
                None => spec_as_un_op(self.kind.m()) is None,
            },
    {
        match self.kind {
            TokenKind::Bang => Some(UnaryOperator { kind: UnaryOperatorKind::Not, span: self.span }),
            TokenKind::Minus => Some(
                UnaryOperator { kind: UnaryOperatorKind::Negate, span: self.span },
            ),
            _ => None,
        }
    }
}

/// A span together with the identifier of the file it points into, the
/// shape a diagnostic renderer consumes.
#[derive(Debug, Clone)]
pub struct ReportableSpan {
    pub file: String,
    pub start: usize,
    pub end: usize,
}

impl ReportableSpan {
    /// Pairs a span with its file identifier.
    pub fn new(file: String, span: &Span) -> (r: ReportableSpan)
        ensures
            r.file@ == file@,
            r.start == span.start,
            r.end == span.end,
    {
        ReportableSpan { file, start: span.start, end: span.end }
    }
}

} // verus!
