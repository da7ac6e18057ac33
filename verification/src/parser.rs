//! The parser: recursive descent over the token list, with precedence
//! climbing for expressions. It produces one program or fails fast with the
//! first syntax error. Every parsing routine is proved to compute exactly
//! its specification-level mirror, so when a parse succeeds, what tree it
//! builds and which error a failed parse carries are all pinned; on top of
//! that, soundness is stated directly: a successful parse spells back,
//! token for token, the input it consumed, and binary expressions nest by
//! operator precedence.

use vstd::prelude::*;

use crate::ast::{
    expr_span, exprs_m, items_m, params_m, spec_precedence, stmts_m, ASTSpan, BinaryExpression,
    BinaryM, BinaryOperator, BinaryOperatorKind, Block, BlockM, ExprM, Expression, FlowM,
    FlowStatement, FunctionDecl, FunctionDeclM, Ident, IdentM, Item, ItemM, Literal, LiteralKind,
    LiteralKindM, LiteralM, Parameter, ParameterM, PrimM, PrimaryExpression, PrimitiveKind,
    PrimitiveType, Program, Statement, StatementM, Type, UnaryExpression, UnaryExpressionKind,
    UnaryKindM, UnaryM, UnaryOperatorKind, VariableDecl, VariableDeclM, AST,
};
use crate::errors::LangError;
use crate::errors::LangErrorM;
use crate::token::{
    spec_as_bin_op, spec_as_un_op, spec_combine, Span, Token, TokenKind, TokenKindM, TokenM,
};

verus! {

// ====================
// What a parse spells back: the tokens of each node
// ====================

/// The token that spells a binary operator, where one exists; `and` and
/// `or` have no spelling in the token set, and the parser never produces
/// them.
pub open spec fn binop_token(k: BinaryOperatorKind) -> Option<TokenKindM> {
    match k {
        BinaryOperatorKind::Add => Some(TokenKindM::Plus),
        BinaryOperatorKind::Subtract => Some(TokenKindM::Minus),
        BinaryOperatorKind::Multiply => Some(TokenKindM::Star),
        BinaryOperatorKind::Divide => Some(TokenKindM::Slash),
        BinaryOperatorKind::Modulus => Some(TokenKindM::Percent),
        BinaryOperatorKind::Equal => Some(TokenKindM::EqualsEquals),
        BinaryOperatorKind::NotEqual => Some(TokenKindM::BangEquals),
        BinaryOperatorKind::LessThan => Some(TokenKindM::Less),
        BinaryOperatorKind::LessThanOrEqual => Some(TokenKindM::LessEquals),
        BinaryOperatorKind::GreaterThan => Some(TokenKindM::Greater),
        BinaryOperatorKind::GreaterThanOrEqual => Some(TokenKindM::GreaterEquals),
        BinaryOperatorKind::And => None,
        BinaryOperatorKind::Or => None,
    }
}

/// The token that spells a unary operator.
pub open spec fn unop_token(k: UnaryOperatorKind) -> TokenKindM {
    match k {
        UnaryOperatorKind::Negate => TokenKindM::Minus,
        UnaryOperatorKind::Not => TokenKindM::Bang,
    }
}

/// The token that spells a literal.
pub open spec fn lit_tokens(l: LiteralM) -> Seq<TokenKindM> {
    match l.kind {
        LiteralKindM::Int(v) => seq![TokenKindM::IntLiteral(v)],
        LiteralKindM::Bool(b) => if b {
            seq![TokenKindM::True]
        } else {
            seq![TokenKindM::False]
        },
        LiteralKindM::Float(s) => seq![TokenKindM::FloatLiteral(s)],
    }
}

/// The token that spells a type.
pub open spec fn type_tokens(t: Type) -> Seq<TokenKindM> {
    match t.spec_kind() {
        PrimitiveKind::Int => seq![TokenKindM::Int],
        PrimitiveKind::Bool => seq![TokenKindM::Bool],
        PrimitiveKind::Float => seq![TokenKindM::Float],
    }
}

/// The tokens that spell a primary expression.
pub open spec fn prim_tokens(p: PrimM) -> Seq<TokenKindM>
    decreases p,
{
    match p {
        PrimM::Literal(l) => lit_tokens(l),
        PrimM::Ident(i) => seq![TokenKindM::Ident(i.name)],
        PrimM::Parenthesized(e) => seq![TokenKindM::LParen] + expr_tokens(*e) + seq![
            TokenKindM::RParen,
        ],
        PrimM::FunctionCall(i, args) => seq![TokenKindM::Ident(i.name), TokenKindM::LParen]
            + args_tokens(args) + seq![TokenKindM::RParen],
    }
}

/// The tokens that spell a comma-separated expression list.
pub open spec fn args_tokens(es: Seq<ExprM>) -> Seq<TokenKindM>
    decreases es,
{
    if es.len() == 0 {
        Seq::empty()
    } else if es.len() == 1 {
        expr_tokens(es[0])
    } else {
        args_tokens(es.drop_last()) + seq![TokenKindM::Comma] + expr_tokens(es.last())
    }
}

/// The tokens that spell an expression.
pub open spec fn expr_tokens(e: ExprM) -> Seq<TokenKindM>
    decreases e,
{
    match e {
        ExprM::Primary(p) => prim_tokens(p),
        ExprM::Unary(u) => match u.kind {
            UnaryKindM::Negation(inner) => seq![unop_token(UnaryOperatorKind::Negate)]
                + expr_tokens(*inner),
            UnaryKindM::Not(inner) => seq![unop_token(UnaryOperatorKind::Not)] + expr_tokens(
                *inner,
            ),
        },
        ExprM::Binary(b) => expr_tokens(*b.lhs) + (match binop_token(b.op.kind) {
            Some(k) => seq![k],
            None => Seq::empty(),
        }) + expr_tokens(*b.rhs),
    }
}

/// The tokens that spell a statement.
pub open spec fn stmt_tokens(s: StatementM) -> Seq<TokenKindM>
    decreases s,
{
    match s {
        StatementM::Expression(e) => expr_tokens(*e) + seq![TokenKindM::Semicolon],
        StatementM::VariableDecl(v) => seq![TokenKindM::Let, TokenKindM::Ident(v.ident.name), TokenKindM::Colon]
            + type_tokens(v.ty) + seq![TokenKindM::Equals] + expr_tokens(v.expression) + seq![
            TokenKindM::Semicolon,
        ],
        StatementM::Flow(f) => seq![TokenKindM::If] + expr_tokens(f.condition) + block_tokens(
            f.if_block,
        ) + (match f.else_block {
            Some(e) => seq![TokenKindM::Else] + block_tokens(e),
            None => Seq::empty(),
        }),
        StatementM::Return(e) => seq![TokenKindM::Return] + (match e {
            Some(e) => expr_tokens(*e),
            None => Seq::empty(),
        }) + seq![TokenKindM::Semicolon],
    }
}

/// The tokens that spell a statement list.
pub open spec fn stmts_tokens(ss: Seq<StatementM>) -> Seq<TokenKindM>
    decreases ss,
{
    if ss.len() == 0 {
        Seq::empty()
    } else {
        stmts_tokens(ss.drop_last()) + stmt_tokens(ss.last())
    }
}

/// The tokens that spell a block.
pub open spec fn block_tokens(b: BlockM) -> Seq<TokenKindM>
    decreases b,
{
    seq![TokenKindM::LBrace] + stmts_tokens(b.statements) + seq![TokenKindM::RBrace]
}

/// The tokens that spell a parameter.
pub open spec fn param_tokens(p: ParameterM) -> Seq<TokenKindM> {
    seq![TokenKindM::Ident(p.ident.name), TokenKindM::Colon] + type_tokens(p.ty)
}

/// The tokens that spell a comma-separated parameter list.
pub open spec fn params_tokens(ps: Seq<ParameterM>) -> Seq<TokenKindM>
    decreases ps,
{
    if ps.len() == 0 {
        Seq::empty()
    } else if ps.len() == 1 {
        param_tokens(ps[0])
    } else {
        params_tokens(ps.drop_last()) + seq![TokenKindM::Comma] + param_tokens(ps.last())
    }
}

/// The tokens that spell a function declaration.
pub open spec fn function_tokens(f: FunctionDeclM) -> Seq<TokenKindM>
    decreases f,
{
    seq![TokenKindM::Fn, TokenKindM::Ident(f.ident.name), TokenKindM::LParen] + params_tokens(
        f.parameters,
    ) + seq![TokenKindM::RParen, TokenKindM::Arrow] + type_tokens(f.ty) + block_tokens(f.block)
}

/// The tokens that spell a whole program.
pub open spec fn program_tokens(items: Seq<ItemM>) -> Seq<TokenKindM>
    decreases items,
{
    if items.len() == 0 {
        Seq::empty()
    } else {
        program_tokens(items.drop_last()) + match items.last() {
            ItemM::FunctionDecl(f) => function_tokens(f),
        }
    }
}

// ====================
// The shape of what the parser builds
// ====================

/// The shape of every expression the parser can build: literals are
/// integer or boolean, a unary operator applies to a primary expression,
/// and binary expressions nest by precedence: a binary left operand binds
/// at least as strongly, a binary right operand strictly more strongly.
pub open spec fn expr_shaped(e: ExprM) -> bool
    decreases e,
{
    match e {
        ExprM::Primary(p) => prim_shaped(p),
        ExprM::Unary(u) => match u.kind {
            UnaryKindM::Negation(inner) => *inner matches ExprM::Primary(p) && prim_shaped(p),
            UnaryKindM::Not(inner) => *inner matches ExprM::Primary(p) && prim_shaped(p),
        },
        ExprM::Binary(b) => binop_token(b.op.kind) is Some && expr_shaped(*b.lhs) && expr_shaped(
            *b.rhs,
        ) && (match *b.lhs {
            ExprM::Binary(lb) => spec_precedence(b.op.kind) <= spec_precedence(lb.op.kind),
            _ => true,
        }) && (match *b.rhs {
            ExprM::Binary(rb) => spec_precedence(rb.op.kind) > spec_precedence(b.op.kind),
            _ => true,
        }),
    }
}

/// The shape of every primary expression the parser can build.
pub open spec fn prim_shaped(p: PrimM) -> bool
    decreases p,
{
    match p {
        PrimM::Literal(l) => !(l.kind is Float),
        PrimM::Ident(_) => true,
        PrimM::Parenthesized(e) => expr_shaped(*e),
        PrimM::FunctionCall(_, args) => forall|j: int|
            0 <= j < args.len() ==> expr_shaped(#[trigger] args[j]),
    }
}

/// The shape of every statement the parser can build; bare expression
/// statements are not in the statement grammar.
pub open spec fn stmt_shaped(s: StatementM) -> bool
    decreases s,
{
    match s {
        StatementM::Expression(_) => false,
        StatementM::VariableDecl(v) => expr_shaped(v.expression),
        StatementM::Flow(f) => expr_shaped(f.condition) && block_shaped(f.if_block) && match f.else_block {
            Some(e) => block_shaped(e),
            None => true,
        },
        StatementM::Return(e) => match e {
            Some(e) => expr_shaped(*e),
            None => true,
        },
    }
}

/// The shape of every block the parser can build.
pub open spec fn block_shaped(b: BlockM) -> bool
    decreases b,
{
    forall|j: int| 0 <= j < b.statements.len() ==> stmt_shaped(#[trigger] b.statements[j])
}

/// The shape of every program the parser can build.
pub open spec fn program_shaped(items: Seq<ItemM>) -> bool {
    forall|j: int|
        0 <= j < items.len() ==> match #[trigger] items[j] {
            ItemM::FunctionDecl(f) => block_shaped(f.block),
        }
}

// ====================
// The consumed tokens of a range
// ====================

/// The kinds of the tokens in `[from, to)`.
pub open spec fn kinds_of_range(ts: Seq<Token>, from: int, to: int) -> Seq<TokenKindM>
    decreases to - from,
        when from <= to
{
    if from >= to {
        Seq::empty()
    } else {
        seq![ts[from].kind.m()] + kinds_of_range(ts, from + 1, to)
    }
}

/// Token kinds over a range split at a midpoint.
pub proof fn lemma_kinds_range_concat(ts: Seq<Token>, a: int, b: int, c: int)
    requires
        a <= b <= c,
    ensures
        kinds_of_range(ts, a, c) == kinds_of_range(ts, a, b) + kinds_of_range(ts, b, c),
    decreases b - a,
{
    if a < b {
        lemma_kinds_range_concat(ts, a + 1, b, c);
        assert(kinds_of_range(ts, a, c) =~= kinds_of_range(ts, a, b) + kinds_of_range(ts, b, c));
    } else {
        assert(kinds_of_range(ts, a, c) =~= kinds_of_range(ts, a, b) + kinds_of_range(ts, b, c));
    }
}

/// The token kinds of a one-token range.
pub proof fn lemma_kinds_range_single(ts: Seq<Token>, a: int)
    ensures
        kinds_of_range(ts, a, a + 1) == seq![ts[a].kind.m()],
{
    assert(kinds_of_range(ts, a + 1, a + 1) == Seq::<TokenKindM>::empty());
    assert(kinds_of_range(ts, a, a + 1) =~= seq![ts[a].kind.m()]);
}

/// Whether an error is one of the parser's own: an unmet expectation or
/// input that ended too early.
pub open spec fn is_syntax_error(e: LangErrorM) -> bool {
    match e {
        LangErrorM::ExpectedToken { .. } => true,
        LangErrorM::ExpectedAnyToken { .. } => true,
        LangErrorM::UnexpectedEOF(_) => true,
        _ => false,
    }
}

impl TokenKind {
    /// A copy of this token kind.
    pub fn duplicate(&self) -> (r: TokenKind)
        ensures
            r.m() == self.m(),
    {
        match self {
            TokenKind::Fn => TokenKind::Fn,
            TokenKind::If => TokenKind::If,
            TokenKind::Else => TokenKind::Else,
            TokenKind::While => TokenKind::While,
            TokenKind::For => TokenKind::For,
            TokenKind::Return => TokenKind::Return,
            TokenKind::Let => TokenKind::Let,
            TokenKind::True => TokenKind::True,
            TokenKind::False => TokenKind::False,
            TokenKind::Plus => TokenKind::Plus,
            TokenKind::Minus => TokenKind::Minus,
            TokenKind::Star => TokenKind::Star,
            TokenKind::Slash => TokenKind::Slash,
            TokenKind::Percent => TokenKind::Percent,
            TokenKind::Caret => TokenKind::Caret,
            TokenKind::Bang => TokenKind::Bang,
            TokenKind::Colon => TokenKind::Colon,
            TokenKind::Semicolon => TokenKind::Semicolon,
            TokenKind::Comma => TokenKind::Comma,
            TokenKind::Dot => TokenKind::Dot,
            TokenKind::Equals => TokenKind::Equals,
            TokenKind::Less => TokenKind::Less,
            TokenKind::Greater => TokenKind::Greater,
            TokenKind::LParen => TokenKind::LParen,
            TokenKind::RParen => TokenKind::RParen,
            TokenKind::LBrace => TokenKind::LBrace,
            TokenKind::RBrace => TokenKind::RBrace,
            TokenKind::Quote => TokenKind::Quote,
            TokenKind::PlusEquals => TokenKind::PlusEquals,
            TokenKind::MinusEquals => TokenKind::MinusEquals,
            TokenKind::StarEquals => TokenKind::StarEquals,
            TokenKind::SlashEquals => TokenKind::SlashEquals,
            TokenKind::PercentEquals => TokenKind::PercentEquals,
            TokenKind::CaretEquals => TokenKind::CaretEquals,
            TokenKind::BangEquals => TokenKind::BangEquals,
            TokenKind::LessEquals => TokenKind::LessEquals,
            TokenKind::GreaterEquals => TokenKind::GreaterEquals,
            TokenKind::EqualsEquals => TokenKind::EqualsEquals,
            TokenKind::Arrow => TokenKind::Arrow,
            TokenKind::Ident(s) => TokenKind::Ident(s.clone()),
            TokenKind::IntLiteral(v) => TokenKind::IntLiteral(*v),
            TokenKind::FloatLiteral(s) => TokenKind::FloatLiteral(s.clone()),
            TokenKind::BoolLiteral(b) => TokenKind::BoolLiteral(*b),
            TokenKind::Int => TokenKind::Int,
            TokenKind::Bool => TokenKind::Bool,
            TokenKind::Float => TokenKind::Float,
            TokenKind::Eof => TokenKind::Eof,
        }
    }
}

/// The token under the cursor, unless the input has run out or only the
/// end-of-file marker remains.
fn current_or_eof(tokens: &Vec<Token>, pos: usize) -> (r: Result<&Token, LangError>)
    ensures
        tokens@.len() <= usize::MAX,
        match r {
            Ok(t) => pos < tokens@.len() && *t == tokens@[pos as int] && !(t.kind.m()
                is Eof) && spec_current(tokens@, pos as nat) == Ok::<TokenM, LangErrorM>(t.m()),
            Err(e) => (pos >= tokens@.len() || tokens@[pos as int].kind.m() is Eof) && e.m()
                is UnexpectedEOF && spec_current(tokens@, pos as nat) == Err::<TokenM, LangErrorM>(
                e.m(),
            ),
        },
{
    if pos < tokens.len() {
        let t = &tokens[pos];
        match t.kind {
            TokenKind::Eof => Err(eof_error(tokens)),
            _ => Ok(t),
        }
    } else {
        Err(eof_error(tokens))
    }
}

/// The unexpected-end-of-input error, pointing at the last token.
fn eof_error(tokens: &Vec<Token>) -> (r: LangError)
    ensures
        r.m() is UnexpectedEOF,
        r.m() == spec_eof_error(tokens@),
{
    if tokens.len() > 0 {
        LangError::UnexpectedEOF(tokens[tokens.len() - 1].span)
    } else {
        LangError::UnexpectedEOF(Span { start: 0, end: 0 })
    }
}


/// Whether two token kinds are the same kind with the same payload.
fn same_kind(a: &TokenKind, b: &TokenKind) -> (r: bool)
    ensures
        r == (a.m() == b.m()),
{
    match (a, b) {
        (TokenKind::Fn, TokenKind::Fn) => true,
        (TokenKind::If, TokenKind::If) => true,
        (TokenKind::Else, TokenKind::Else) => true,
        (TokenKind::While, TokenKind::While) => true,
        (TokenKind::For, TokenKind::For) => true,
        (TokenKind::Return, TokenKind::Return) => true,
        (TokenKind::Let, TokenKind::Let) => true,
        (TokenKind::True, TokenKind::True) => true,
        (TokenKind::False, TokenKind::False) => true,
        (TokenKind::Plus, TokenKind::Plus) => true,
        (TokenKind::Minus, TokenKind::Minus) => true,
        (TokenKind::Star, TokenKind::Star) => true,
        (TokenKind::Slash, TokenKind::Slash) => true,
        (TokenKind::Percent, TokenKind::Percent) => true,
        (TokenKind::Caret, TokenKind::Caret) => true,
        (TokenKind::Bang, TokenKind::Bang) => true,
        (TokenKind::Colon, TokenKind::Colon) => true,
        (TokenKind::Semicolon, TokenKind::Semicolon) => true,
        (TokenKind::Comma, TokenKind::Comma) => true,
        (TokenKind::Dot, TokenKind::Dot) => true,
        (TokenKind::Equals, TokenKind::Equals) => true,
        (TokenKind::Less, TokenKind::Less) => true,
        (TokenKind::Greater, TokenKind::Greater) => true,
        (TokenKind::LParen, TokenKind::LParen) => true,
        (TokenKind::RParen, TokenKind::RParen) => true,
        (TokenKind::LBrace, TokenKind::LBrace) => true,
        (TokenKind::RBrace, TokenKind::RBrace) => true,
        (TokenKind::Quote, TokenKind::Quote) => true,
        (TokenKind::PlusEquals, TokenKind::PlusEquals) => true,
        (TokenKind::MinusEquals, TokenKind::MinusEquals) => true,
        (TokenKind::StarEquals, TokenKind::StarEquals) => true,
        (TokenKind::SlashEquals, TokenKind::SlashEquals) => true,
        (TokenKind::PercentEquals, TokenKind::PercentEquals) => true,
        (TokenKind::CaretEquals, TokenKind::CaretEquals) => true,
        (TokenKind::BangEquals, TokenKind::BangEquals) => true,
        (TokenKind::LessEquals, TokenKind::LessEquals) => true,
        (TokenKind::GreaterEquals, TokenKind::GreaterEquals) => true,
        (TokenKind::EqualsEquals, TokenKind::EqualsEquals) => true,
        (TokenKind::Arrow, TokenKind::Arrow) => true,
        (TokenKind::Ident(x), TokenKind::Ident(y)) => crate::token::str_eq(x.as_str(), y.as_str()),
        (TokenKind::IntLiteral(x), TokenKind::IntLiteral(y)) => x == y,
        (TokenKind::FloatLiteral(x), TokenKind::FloatLiteral(y)) => crate::token::str_eq(
            x.as_str(),
            y.as_str(),
        ),
        (TokenKind::BoolLiteral(x), TokenKind::BoolLiteral(y)) => x == y,
        (TokenKind::Int, TokenKind::Int) => true,
        (TokenKind::Bool, TokenKind::Bool) => true,
        (TokenKind::Float, TokenKind::Float) => true,
        (TokenKind::Eof, TokenKind::Eof) => true,
        _ => false,
    }
}

/// Consumes one token that must be of the given kind; anything else is an
/// expected-token error.
fn expect(tokens: &Vec<Token>, pos: usize, kind: TokenKind) -> (r: (Result<Span, LangError>, usize))
    requires
        pos <= tokens@.len(),
    ensures
        pos <= r.1 <= tokens@.len(),
        (span_res_m(&r.0), r.1 as nat) == spec_expect(tokens@, pos as nat, kind.m()),
        match r.0 {
            Ok(sp) => r.1 == pos + 1 && pos < tokens@.len() && tokens@[pos as int].kind.m()
                == kind.m() && sp == tokens@[pos as int].span,
            Err(e) => is_syntax_error(e.m()),
        },
{
    let cur = match current_or_eof(tokens, pos) {
        Ok(t) => t,
        Err(e) => {
            return (Err(e), pos);
        },
    };
    if same_kind(&cur.kind, &kind) {
        (Ok(cur.span), pos + 1)
    } else {
        (
            Err(
                LangError::ExpectedToken {
                    expected: kind,
                    found: cur.kind.duplicate(),
                    span: cur.span,
                },
            ),
            pos + 1,
        )
    }
}

/// Parses one identifier.
fn parse_ident(tokens: &Vec<Token>, pos: usize) -> (r: (Result<Ident, LangError>, usize))
    requires
        pos <= tokens@.len(),
    ensures
        pos <= r.1 <= tokens@.len(),
        (ident_res_m(&r.0), r.1 as nat) == spec_parse_ident(tokens@, pos as nat),
        match r.0 {
            Ok(i) => r.1 == pos + 1 && pos < tokens@.len() && tokens@[pos as int].kind.m()
                == TokenKindM::Ident(i.ident@) && i.span == tokens@[pos as int].span,
            Err(e) => is_syntax_error(e.m()),
        },
{
    let cur = match current_or_eof(tokens, pos) {
        Ok(t) => t,
        Err(e) => {
            return (Err(e), pos);
        },
    };
    match &cur.kind {
        TokenKind::Ident(s) => (Ok(Ident { ident: s.clone(), span: cur.span }), pos + 1),
        _ => (
            Err(
                LangError::ExpectedToken {
                    expected: TokenKind::Ident(String::new()),
                    found: cur.kind.duplicate(),
                    span: cur.span,
                },
            ),
            pos,
        ),
    }
}

/// Parses one type name: `int`, `bool` or `float`.
fn parse_type(tokens: &Vec<Token>, pos: usize) -> (r: (Result<Type, LangError>, usize))
    requires
        pos <= tokens@.len(),
    ensures
        pos <= r.1 <= tokens@.len(),
        (type_res_m(&r.0), r.1 as nat) == spec_parse_type(tokens@, pos as nat),
        match r.0 {
            Ok(t) => r.1 == pos + 1 && type_tokens(t) == kinds_of_range(
                tokens@,
                pos as int,
                r.1 as int,
            ),
            Err(e) => is_syntax_error(e.m()),
        },
{
    let cur = match current_or_eof(tokens, pos) {
        Ok(t) => t,
        Err(e) => {
            return (Err(e), pos);
        },
    };
    match cur.kind {
        TokenKind::Int => {
            proof {
                lemma_kinds_range_single(tokens@, pos as int);
            }
            (
                Ok(Type::Primitive(PrimitiveType { kind: PrimitiveKind::Int, span: cur.span })),
                pos + 1,
            )
        },
        TokenKind::Bool => {
            proof {
                lemma_kinds_range_single(tokens@, pos as int);
            }
            (
                Ok(Type::Primitive(PrimitiveType { kind: PrimitiveKind::Bool, span: cur.span })),
                pos + 1,
            )
        },
        TokenKind::Float => {
            proof {
                lemma_kinds_range_single(tokens@, pos as int);
            }
            (
                Ok(Type::Primitive(PrimitiveType { kind: PrimitiveKind::Float, span: cur.span })),
                pos + 1,
            )
        },
        _ => {
            let mut expected: Vec<TokenKind> = Vec::new();
            expected.push(TokenKind::Int);
            expected.push(TokenKind::Bool);
            expected.push(TokenKind::Float);
            proof {
                crate::errors::lemma_kinds_m_len(expected@);
                assert(crate::errors::kinds_m(expected@) =~= seq![
                    TokenKindM::Int,
                    TokenKindM::Bool,
                    TokenKindM::Float,
                ]);
            }
            (
                Err(
                    LangError::ExpectedAnyToken {
                        expected,
                        found: cur.kind.duplicate(),
                        span: cur.span,
                    },
                ),
                pos,
            )
        },
    }
}

/// The inverse of reading a binary operator off a token: the operator
/// spells back the token it came from.
proof fn lemma_binop_token_inverse(k: TokenKindM)
    ensures
        match spec_as_bin_op(k) {
            Some(bk) => binop_token(bk) == Some(k),
            None => true,
        },
{
}

/// The inverse of reading a unary operator off a token.
proof fn lemma_unop_token_inverse(k: TokenKindM)
    ensures
        match spec_as_un_op(k) {
            Some(uk) => unop_token(uk) == k,
            None => true,
        },
{
}

/// Parses a primary expression: a literal, an identifier, a call, or a
/// parenthesized sub-expression.
#[verifier::loop_isolation(false)]
fn parse_primary(tokens: &Vec<Token>, pos: usize) -> (r: (Result<Expression, LangError>, usize))
    requires
        pos <= tokens@.len(),
    ensures
        pos <= r.1 <= tokens@.len(),
        (expr_res_m(&r.0), r.1 as nat) == spec_parse_primary(tokens@, pos as nat),
        match r.0 {
            Ok(e) => pos < r.1 && (e.m() matches ExprM::Primary(p) && prim_shaped(p))
                && expr_tokens(e.m()) == kinds_of_range(tokens@, pos as int, r.1 as int),
            Err(e) => is_syntax_error(e.m()),
        },
    decreases tokens@.len() - pos, 0int,
{
    let cur = match current_or_eof(tokens, pos) {
        Ok(t) => t,
        Err(e) => {
            return (Err(e), pos);
        },
    };
    match &cur.kind {
        TokenKind::IntLiteral(v) => {
            proof {
                reveal_with_fuel(expr_tokens, 2);
                lemma_kinds_range_single(tokens@, pos as int);
            }
            (
                Ok(
                    Expression::Primary(
                        PrimaryExpression::Literal(
                            Literal { kind: LiteralKind::Int(*v), span: cur.span },
                        ),
                    ),
                ),
                pos + 1,
            )
        },
        TokenKind::True => {
            proof {
                reveal_with_fuel(expr_tokens, 2);
                lemma_kinds_range_single(tokens@, pos as int);
            }
            (
                Ok(
                    Expression::Primary(
                        PrimaryExpression::Literal(
                            Literal { kind: LiteralKind::Bool(true), span: cur.span },
                        ),
                    ),
                ),
                pos + 1,
            )
        },
        TokenKind::False => {
            proof {
                reveal_with_fuel(expr_tokens, 2);
                lemma_kinds_range_single(tokens@, pos as int);
            }
            (
                Ok(
                    Expression::Primary(
                        PrimaryExpression::Literal(
                            Literal { kind: LiteralKind::Bool(false), span: cur.span },
                        ),
                    ),
                ),
                pos + 1,
            )
        },
        TokenKind::Ident(s) => {
            let ident = Ident { ident: s.clone(), span: cur.span };
            let pos1 = pos + 1;
            let next = match current_or_eof(tokens, pos1) {
                Ok(t) => t,
                Err(e) => {
                    return (Err(e), pos1);
                },
            };
            let next_is_lparen = match next.kind {
                TokenKind::LParen => true,
                _ => false,
            };
            if next_is_lparen {
                let pos2 = pos1 + 1;
                let (args_r, pos3) = parse_expr_list(tokens, pos2);
                let args = match args_r {
                    Ok(a) => a,
                    Err(e) => {
                        return (Err(e), pos3);
                    },
                };
                // the list stops at the closing parenthesis
                let pos4 = pos3 + 1;
                let e = Expression::Primary(PrimaryExpression::FunctionCall(ident, args));
                proof {
                    lemma_kinds_range_single(tokens@, pos as int);
                    lemma_kinds_range_single(tokens@, pos1 as int);
                    lemma_kinds_range_single(tokens@, pos3 as int);
                    lemma_kinds_range_concat(tokens@, pos as int, pos1 as int, pos2 as int);
                    lemma_kinds_range_concat(tokens@, pos as int, pos2 as int, pos3 as int);
                    lemma_kinds_range_concat(tokens@, pos as int, pos3 as int, pos4 as int);
                    assert(kinds_of_range(tokens@, pos as int, pos1 as int) == seq![
                        TokenKindM::Ident(s@),
                    ]);
                    assert(kinds_of_range(tokens@, pos1 as int, pos2 as int) == seq![
                        TokenKindM::LParen,
                    ]);
                    assert(kinds_of_range(tokens@, pos3 as int, pos4 as int) == seq![
                        TokenKindM::RParen,
                    ]);
                    assert(kinds_of_range(tokens@, pos2 as int, pos3 as int) == args_tokens(
                        exprs_m(e->Primary_0->FunctionCall_1@),
                    ));
                    reveal_with_fuel(expr_tokens, 2);
                    assert(expr_tokens(e.m()) == seq![
                        TokenKindM::Ident(s@),
                        TokenKindM::LParen,
                    ] + args_tokens(exprs_m(e->Primary_0->FunctionCall_1@)) + seq![
                        TokenKindM::RParen,
                    ]);
                    assert(expr_tokens(e.m()) =~= kinds_of_range(
                        tokens@,
                        pos as int,
                        pos4 as int,
                    ));
                }
                (Ok(e), pos4)
            } else {
                let e = Expression::Primary(PrimaryExpression::Ident(ident));
                proof {
                    reveal_with_fuel(expr_tokens, 2);
                    lemma_kinds_range_single(tokens@, pos as int);
                    assert(expr_tokens(e.m()) =~= kinds_of_range(
                        tokens@,
                        pos as int,
                        pos1 as int,
                    ));
                }
                (Ok(e), pos1)
            }
        },
        TokenKind::LParen => {
            let pos1 = pos + 1;
            let (inner_r, pos2) = parse_expr(tokens, pos1, 0, false);
            let inner = match inner_r {
                Ok(x) => x,
                Err(e) => {
                    return (Err(e), pos2);
                },
            };
            let (rp, pos3) = expect(tokens, pos2, TokenKind::RParen);
            match rp {
                Ok(_) => {},
                Err(e) => {
                    return (Err(e), pos3);
                },
            }
            let e = Expression::Primary(PrimaryExpression::Parenthesized(Box::new(inner)));
            proof {
                reveal_with_fuel(expr_tokens, 2);
                lemma_kinds_range_single(tokens@, pos as int);
                lemma_kinds_range_single(tokens@, pos2 as int);
                lemma_kinds_range_concat(tokens@, pos as int, pos1 as int, pos2 as int);
                lemma_kinds_range_concat(tokens@, pos as int, pos2 as int, pos3 as int);
                assert(expr_tokens(e.m()) =~= kinds_of_range(tokens@, pos as int, pos3 as int));
            }
            (Ok(e), pos3)
        },
        _ => {
            let mut expected: Vec<TokenKind> = Vec::new();
            expected.push(TokenKind::IntLiteral(0));
            expected.push(TokenKind::BoolLiteral(false));
            expected.push(TokenKind::Ident(String::new()));
            expected.push(TokenKind::LParen);
            proof {
                crate::errors::lemma_kinds_m_len(expected@);
                assert(crate::errors::kinds_m(expected@) =~= seq![
                    TokenKindM::IntLiteral(0),
                    TokenKindM::BoolLiteral(false),
                    TokenKindM::Ident(Seq::empty()),
                    TokenKindM::LParen,
                ]);
            }
            (
                Err(
                    LangError::ExpectedAnyToken {
                        expected,
                        found: cur.kind.duplicate(),
                        span: cur.span,
                    },
                ),
                pos,
            )
        },
    }
}

/// Parses a comma-separated expression list, stopping before the closing
/// parenthesis.
#[verifier::loop_isolation(false)]
fn parse_expr_list(tokens: &Vec<Token>, pos: usize) -> (r: (
    Result<Vec<Expression>, LangError>,
    usize,
))
    requires
        pos <= tokens@.len(),
    ensures
        pos <= r.1 <= tokens@.len(),
        (args_res_m(&r.0), r.1 as nat) == spec_parse_expr_list(tokens@, pos as nat),
        match r.0 {
            Ok(args) => r.1 < tokens@.len() && tokens@[r.1 as int].kind.m() == TokenKindM::RParen
                && (forall|j: int| 0 <= j < exprs_m(args@).len() ==> expr_shaped(#[trigger] exprs_m(args@)[j]))
                && args_tokens(exprs_m(args@)) == kinds_of_range(tokens@, pos as int, r.1 as int),
            Err(e) => is_syntax_error(e.m()),
        },
    decreases tokens@.len() - pos, 2int,
{
    let mut args: Vec<Expression> = Vec::new();
    let cur = match current_or_eof(tokens, pos) {
        Ok(t) => t,
        Err(e) => {
            return (Err(e), pos);
        },
    };
    let at_rparen = match cur.kind {
        TokenKind::RParen => true,
        _ => false,
    };
    if at_rparen {
        proof {
            assert(exprs_m(args@) =~= Seq::<ExprM>::empty());
            assert(args_tokens(exprs_m(args@)) =~= kinds_of_range(tokens@, pos as int, pos as int));
        }
        return (Ok(args), pos);
    }
    let (first_r, p1) = parse_expr(tokens, pos, 0, false);
    let first = match first_r {
        Ok(x) => x,
        Err(e) => {
            return (Err(e), p1);
        },
    };
    proof {
        assert(args@.push(first).drop_last() =~= args@);
        assert(exprs_m(args@) =~= Seq::<ExprM>::empty());
    }
    args.push(first);
    let mut p = p1;
    proof {
        assert(exprs_m(args@).len() == 1);
        assert(exprs_m(args@) =~= seq![args@[0].m()]);
        assert(args_tokens(exprs_m(args@)) == kinds_of_range(tokens@, pos as int, p as int));
    }
    loop
        invariant
            pos <= p <= tokens@.len(),
            args@.len() >= 1,
            exprs_m(args@).len() == args@.len(),
            forall|j: int| 0 <= j < exprs_m(args@).len() ==> expr_shaped(#[trigger] exprs_m(args@)[j]),
            args_tokens(exprs_m(args@)) == kinds_of_range(tokens@, pos as int, p as int),
            spec_parse_expr_list(tokens@, pos as nat) == spec_args_more(
                tokens@,
                p as nat,
                exprs_m(args@),
            ),
        decreases tokens@.len() - p,
    {
        let cur = match current_or_eof(tokens, p) {
            Ok(t) => t,
            Err(e) => {
                return (Err(e), p);
            },
        };
        let at_rparen = match cur.kind {
            TokenKind::RParen => true,
            _ => false,
        };
        let at_comma = match cur.kind {
            TokenKind::Comma => true,
            _ => false,
        };
        if at_rparen {
            return (Ok(args), p);
        } else if at_comma {
            let p2 = p + 1;
            let (er, p3) = parse_expr(tokens, p2, 0, false);
            let e = match er {
                Ok(x) => x,
                Err(err) => {
                    return (Err(err), p3);
                },
            };
            let ghost old_args = args@;
            let ghost old_ms = exprs_m(args@);
            proof {
                assert(old_args.push(e).drop_last() =~= old_args);
            }
            args.push(e);
            proof {
                crate::analysis::lemma_exprs_m_len(args@);
                assert(exprs_m(args@).drop_last() =~= old_ms);
                assert(exprs_m(args@).last() == e.m());
                lemma_kinds_range_single(tokens@, p as int);
                lemma_kinds_range_concat(tokens@, pos as int, p as int, p2 as int);
                lemma_kinds_range_concat(tokens@, pos as int, p2 as int, p3 as int);
                assert(args_tokens(exprs_m(args@)) =~= kinds_of_range(
                    tokens@,
                    pos as int,
                    p3 as int,
                ));
            }
            p = p3;
        } else {
            let mut expected: Vec<TokenKind> = Vec::new();
            expected.push(TokenKind::Comma);
            expected.push(TokenKind::RParen);
            proof {
                crate::errors::lemma_kinds_m_len(expected@);
                assert(crate::errors::kinds_m(expected@) =~= seq![
                    TokenKindM::Comma,
                    TokenKindM::RParen,
                ]);
            }
            return (
                Err(
                    LangError::ExpectedAnyToken {
                        expected,
                        found: cur.kind.duplicate(),
                        span: cur.span,
                    },
                ),
                p,
            );
        }
    }
}

/// Parses an expression by precedence climbing: a leading operand, then,
/// while the next operator binds at least as strongly as `min_prec`, a
/// right-hand side parsed at a strictly higher binding strength. A unary
/// operator is recognised only where `allow_unary` holds: immediately
/// after a consumed binary operator.
#[verifier::loop_isolation(false)]
fn parse_expr(tokens: &Vec<Token>, pos: usize, min_prec: u8, allow_unary: bool) -> (r: (
    Result<Expression, LangError>,
    usize,
))
    requires
        pos <= tokens@.len(),
    ensures
        pos <= r.1 <= tokens@.len(),
        (expr_res_m(&r.0), r.1 as nat) == spec_parse_expr(
            tokens@,
            pos as nat,
            min_prec,
            allow_unary,
        ),
        match r.0 {
            Ok(e) => pos < r.1 && expr_shaped(e.m()) && expr_tokens(e.m()) == kinds_of_range(
                tokens@,
                pos as int,
                r.1 as int,
            ) && (e.m() matches ExprM::Binary(b) ==> spec_precedence(b.op.kind) >= min_prec)
                && r.1 < tokens@.len() && !(tokens@[r.1 as int].kind.m() is Eof) && (
            match spec_as_bin_op(tokens@[r.1 as int].kind.m()) {
                Some(k) => spec_precedence(k) < min_prec,
                None => true,
            }),
            Err(e) => is_syntax_error(e.m()),
        },
    decreases tokens@.len() - pos, 1int,
{
    let cur = match current_or_eof(tokens, pos) {
        Ok(t) => t,
        Err(e) => {
            return (Err(e), pos);
        },
    };
    let unop = if allow_unary {
        cur.as_un_op()
    } else {
        None
    };
    let mut e: Expression;
    let mut p: usize;
    match unop {
        Some(u) => {
            let pos1 = pos + 1;
            let (pr, pos2) = parse_primary(tokens, pos1);
            let prim = match pr {
                Ok(x) => x,
                Err(er) => {
                    return (Err(er), pos2);
                },
            };
            let psp = prim.span();
            let span = Span::combine(&u.span, &psp);
            let ue = match u.kind {
                UnaryOperatorKind::Negate => UnaryExpression {
                    kind: UnaryExpressionKind::Negation(Box::new(prim)),
                    span,
                },
                UnaryOperatorKind::Not => UnaryExpression {
                    kind: UnaryExpressionKind::Not(Box::new(prim)),
                    span,
                },
            };
            e = Expression::Unary(ue);
            p = pos2;
            proof {
                lemma_unop_token_inverse(tokens@[pos as int].kind.m());
                lemma_kinds_range_single(tokens@, pos as int);
                lemma_kinds_range_concat(tokens@, pos as int, pos1 as int, pos2 as int);
                assert(expr_tokens(e.m()) =~= kinds_of_range(tokens@, pos as int, p as int));
            }
        },
        None => {
            let (pr, pos1) = parse_primary(tokens, pos);
            let prim = match pr {
                Ok(x) => x,
                Err(er) => {
                    return (Err(er), pos1);
                },
            };
            e = prim;
            p = pos1;
        },
    }
    loop
        invariant
            pos < p <= tokens@.len(),
            expr_shaped(e.m()),
            expr_tokens(e.m()) == kinds_of_range(tokens@, pos as int, p as int),
            spec_parse_expr(tokens@, pos as nat, min_prec, allow_unary) == spec_climb(
                tokens@,
                p as nat,
                e.m(),
                min_prec,
            ),
            e.m() matches ExprM::Binary(b) ==> spec_precedence(b.op.kind) >= min_prec && (p
                < tokens@.len() ==> match spec_as_bin_op(tokens@[p as int].kind.m()) {
                Some(k) => spec_precedence(k) <= spec_precedence(b.op.kind),
                None => true,
            }),
        decreases tokens@.len() - p,
    {
        let cur = match current_or_eof(tokens, p) {
            Ok(t) => t,
            Err(er) => {
                return (Err(er), p);
            },
        };
        let opo = cur.as_bin_op();
        let op = match opo {
            Some(op) => op,
            None => {
                return (Ok(e), p);
            },
        };
        let prec = op.precedence();
        if prec < min_prec {
            return (Ok(e), p);
        }
        proof {
            assert(prec <= 6);
        }
        let ghost pold = p;
        let p1 = p + 1;
        let (rr, p2) = parse_expr(tokens, p1, prec + 1, true);
        let rhs = match rr {
            Ok(x) => x,
            Err(er) => {
                return (Err(er), p2);
            },
        };
        let esp = e.span();
        let rsp = rhs.span();
        let span = Span::combine(&esp, &rsp);
        let ghost em = e.m();
        let ghost rm = rhs.m();
        e = Expression::Binary(BinaryExpression { lhs: Box::new(e), op, rhs: Box::new(rhs), span });
        p = p2;
        proof {
            lemma_binop_token_inverse(tokens@[pold as int].kind.m());
            lemma_kinds_range_single(tokens@, pold as int);
            lemma_kinds_range_concat(tokens@, pos as int, pold as int, p1 as int);
            lemma_kinds_range_concat(tokens@, pos as int, p1 as int, p2 as int);
            assert(expr_tokens(e.m()) =~= kinds_of_range(tokens@, pos as int, p as int));
        }
    }
}


/// Parses one statement: a variable declaration, an `if` statement or a
/// `return` statement.
fn parse_statement(tokens: &Vec<Token>, pos: usize) -> (r: (Result<Statement, LangError>, usize))
    requires
        pos <= tokens@.len(),
    ensures
        pos <= r.1 <= tokens@.len(),
        (stmt_res_m(&r.0), r.1 as nat) == spec_parse_statement(tokens@, pos as nat),
        match r.0 {
            Ok(s) => pos < r.1 && stmt_shaped(s.m()) && stmt_tokens(s.m()) == kinds_of_range(
                tokens@,
                pos as int,
                r.1 as int,
            ),
            Err(e) => is_syntax_error(e.m()),
        },
    decreases tokens@.len() - pos, 3int,
{
    let cur = match current_or_eof(tokens, pos) {
        Ok(t) => t,
        Err(e) => {
            return (Err(e), pos);
        },
    };
    match cur.kind {
        TokenKind::Let => parse_variable_decl(tokens, pos),
        TokenKind::If => parse_flow_statement(tokens, pos),
        TokenKind::Return => parse_return_statement(tokens, pos),
        _ => {
            let mut expected: Vec<TokenKind> = Vec::new();
            expected.push(TokenKind::Let);
            proof {
                crate::errors::lemma_kinds_m_len(expected@);
                assert(crate::errors::kinds_m(expected@) =~= seq![TokenKindM::Let]);
            }
            (
                Err(
                    LangError::ExpectedAnyToken {
                        expected,
                        found: cur.kind.duplicate(),
                        span: cur.span,
                    },
                ),
                pos,
            )
        },
    }
}

/// Parses `let ident: ty = expression;`.
fn parse_variable_decl(tokens: &Vec<Token>, pos: usize) -> (r: (
    Result<Statement, LangError>,
    usize,
))
    requires
        pos <= tokens@.len(),
    ensures
        pos <= r.1 <= tokens@.len(),
        (stmt_res_m(&r.0), r.1 as nat) == spec_parse_variable_decl(tokens@, pos as nat),
        match r.0 {
            Ok(s) => pos < r.1 && stmt_shaped(s.m()) && stmt_tokens(s.m()) == kinds_of_range(
                tokens@,
                pos as int,
                r.1 as int,
            ),
            Err(e) => is_syntax_error(e.m()),
        },
    decreases tokens@.len() - pos, 2int,
{
    let (let_r, p1) = expect(tokens, pos, TokenKind::Let);
    let start_span = match let_r {
        Ok(sp) => sp,
        Err(e) => {
            return (Err(e), p1);
        },
    };
    let (ident_r, p2) = parse_ident(tokens, p1);
    let ident = match ident_r {
        Ok(i) => i,
        Err(e) => {
            return (Err(e), p2);
        },
    };
    let (colon_r, p3) = expect(tokens, p2, TokenKind::Colon);
    match colon_r {
        Ok(_) => {},
        Err(e) => {
            return (Err(e), p3);
        },
    }
    let (ty_r, p4) = parse_type(tokens, p3);
    let ty = match ty_r {
        Ok(t) => t,
        Err(e) => {
            return (Err(e), p4);
        },
    };
    let (eq_r, p5) = expect(tokens, p4, TokenKind::Equals);
    match eq_r {
        Ok(_) => {},
        Err(e) => {
            return (Err(e), p5);
        },
    }
    let (expr_r, p6) = parse_expr(tokens, p5, 0, false);
    let expression = match expr_r {
        Ok(e) => e,
        Err(e) => {
            return (Err(e), p6);
        },
    };
    let (semi_r, p7) = expect(tokens, p6, TokenKind::Semicolon);
    match semi_r {
        Ok(_) => {},
        Err(e) => {
            return (Err(e), p7);
        },
    }
    let esp = expression.span();
    let span = Span::combine(&start_span, &esp);
    let s = Statement::VariableDecl(VariableDecl { ident, ty, expression, span });
    proof {
        reveal_with_fuel(stmt_tokens, 2);
        lemma_kinds_range_single(tokens@, pos as int);
        lemma_kinds_range_single(tokens@, p1 as int);
        lemma_kinds_range_single(tokens@, p2 as int);
        lemma_kinds_range_single(tokens@, p4 as int);
        lemma_kinds_range_single(tokens@, p6 as int);
        lemma_kinds_range_concat(tokens@, pos as int, p1 as int, p2 as int);
        lemma_kinds_range_concat(tokens@, pos as int, p2 as int, p3 as int);
        lemma_kinds_range_concat(tokens@, pos as int, p3 as int, p4 as int);
        lemma_kinds_range_concat(tokens@, pos as int, p4 as int, p5 as int);
        lemma_kinds_range_concat(tokens@, pos as int, p5 as int, p6 as int);
        lemma_kinds_range_concat(tokens@, pos as int, p6 as int, p7 as int);
        assert(stmt_tokens(s.m()) =~= kinds_of_range(tokens@, pos as int, p7 as int));
    }
    (Ok(s), p7)
}

/// Parses `if expression block` with an optional `else block`.
fn parse_flow_statement(tokens: &Vec<Token>, pos: usize) -> (r: (
    Result<Statement, LangError>,
    usize,
))
    requires
        pos <= tokens@.len(),
    ensures
        pos <= r.1 <= tokens@.len(),
        (stmt_res_m(&r.0), r.1 as nat) == spec_parse_flow(tokens@, pos as nat),
        match r.0 {
            Ok(s) => pos < r.1 && stmt_shaped(s.m()) && stmt_tokens(s.m()) == kinds_of_range(
                tokens@,
                pos as int,
                r.1 as int,
            ),
            Err(e) => is_syntax_error(e.m()),
        },
    decreases tokens@.len() - pos, 2int,
{
    let (if_r, p1) = expect(tokens, pos, TokenKind::If);
    let start_span = match if_r {
        Ok(sp) => sp,
        Err(e) => {
            return (Err(e), p1);
        },
    };
    let (cond_r, p2) = parse_expr(tokens, p1, 0, false);
    let condition = match cond_r {
        Ok(e) => e,
        Err(e) => {
            return (Err(e), p2);
        },
    };
    let (if_block_r, p3) = parse_block(tokens, p2);
    let if_block = match if_block_r {
        Ok(b) => b,
        Err(e) => {
            return (Err(e), p3);
        },
    };
    let has_else = match current_or_eof(tokens, p3) {
        Ok(t) => match t.kind {
            TokenKind::Else => true,
            _ => false,
        },
        Err(e) => {
            return (Err(e), p3);
        },
    };
    if has_else {
        let p4 = p3 + 1;
        let (else_r, p5) = parse_block(tokens, p4);
        let else_block = match else_r {
            Ok(b) => b,
            Err(e) => {
                return (Err(e), p5);
            },
        };
        let span = Span::combine(&start_span, &else_block.span);
        let s = Statement::Flow(
            FlowStatement { condition, if_block, else_block: Some(else_block), span },
        );
        proof {
            reveal_with_fuel(stmt_tokens, 2);
            lemma_kinds_range_single(tokens@, pos as int);
            lemma_kinds_range_single(tokens@, p3 as int);
            lemma_kinds_range_concat(tokens@, pos as int, p1 as int, p2 as int);
            lemma_kinds_range_concat(tokens@, pos as int, p2 as int, p3 as int);
            lemma_kinds_range_concat(tokens@, pos as int, p3 as int, p4 as int);
            lemma_kinds_range_concat(tokens@, pos as int, p4 as int, p5 as int);
            assert(stmt_tokens(s.m()) =~= kinds_of_range(tokens@, pos as int, p5 as int));
        }
        (Ok(s), p5)
    } else {
        let span = Span::combine(&start_span, &if_block.span);
        let s = Statement::Flow(FlowStatement { condition, if_block, else_block: None, span });
        proof {
            reveal_with_fuel(stmt_tokens, 2);
            lemma_kinds_range_single(tokens@, pos as int);
            lemma_kinds_range_concat(tokens@, pos as int, p1 as int, p2 as int);
            lemma_kinds_range_concat(tokens@, pos as int, p2 as int, p3 as int);
            assert(stmt_tokens(s.m()) =~= kinds_of_range(tokens@, pos as int, p3 as int));
        }
        (Ok(s), p3)
    }
}

/// Parses `return expression?;`.
fn parse_return_statement(tokens: &Vec<Token>, pos: usize) -> (r: (
    Result<Statement, LangError>,
    usize,
))
    requires
        pos <= tokens@.len(),
    ensures
        pos <= r.1 <= tokens@.len(),
        (stmt_res_m(&r.0), r.1 as nat) == spec_parse_return(tokens@, pos as nat),
        match r.0 {
            Ok(s) => pos < r.1 && stmt_shaped(s.m()) && stmt_tokens(s.m()) == kinds_of_range(
                tokens@,
                pos as int,
                r.1 as int,
            ),
            Err(e) => is_syntax_error(e.m()),
        },
    decreases tokens@.len() - pos, 2int,
{
    let (ret_r, p1) = expect(tokens, pos, TokenKind::Return);
    match ret_r {
        Ok(_) => {},
        Err(e) => {
            return (Err(e), p1);
        },
    }
    let has_expr = match current_or_eof(tokens, p1) {
        Ok(t) => match t.kind {
            TokenKind::Semicolon => false,
            _ => true,
        },
        Err(e) => {
            return (Err(e), p1);
        },
    };
    if has_expr {
        let (expr_r, p2) = parse_expr(tokens, p1, 0, false);
        let expression = match expr_r {
            Ok(e) => e,
            Err(e) => {
                return (Err(e), p2);
            },
        };
        let (semi_r, p3) = expect(tokens, p2, TokenKind::Semicolon);
        match semi_r {
            Ok(_) => {},
            Err(e) => {
                return (Err(e), p3);
            },
        }
        let s = Statement::Return(Some(Box::new(expression)));
        proof {
            reveal_with_fuel(stmt_tokens, 2);
            lemma_kinds_range_single(tokens@, pos as int);
            lemma_kinds_range_single(tokens@, p2 as int);
            lemma_kinds_range_concat(tokens@, pos as int, p1 as int, p2 as int);
            lemma_kinds_range_concat(tokens@, pos as int, p2 as int, p3 as int);
            assert(stmt_tokens(s.m()) =~= kinds_of_range(tokens@, pos as int, p3 as int));
        }
        (Ok(s), p3)
    } else {
        let (semi_r, p2) = expect(tokens, p1, TokenKind::Semicolon);
        match semi_r {
            Ok(_) => {},
            Err(e) => {
                return (Err(e), p2);
            },
        }
        let s = Statement::Return(None);
        proof {
            reveal_with_fuel(stmt_tokens, 2);
            lemma_kinds_range_single(tokens@, pos as int);
            lemma_kinds_range_single(tokens@, p1 as int);
            lemma_kinds_range_concat(tokens@, pos as int, p1 as int, p2 as int);
            assert(stmt_tokens(s.m()) =~= kinds_of_range(tokens@, pos as int, p2 as int));
        }
        (Ok(s), p2)
    }
}

/// Parses a brace-delimited block of statements.
#[verifier::loop_isolation(false)]
fn parse_block(tokens: &Vec<Token>, pos: usize) -> (r: (Result<Block, LangError>, usize))
    requires
        pos <= tokens@.len(),
    ensures
        pos <= r.1 <= tokens@.len(),
        (block_res_m(&r.0), r.1 as nat) == spec_parse_block(tokens@, pos as nat),
        match r.0 {
            Ok(b) => pos < r.1 && block_shaped(b.m()) && block_tokens(b.m()) == kinds_of_range(
                tokens@,
                pos as int,
                r.1 as int,
            ),
            Err(e) => is_syntax_error(e.m()),
        },
    decreases tokens@.len() - pos, 4int,
{
    let (lb_r, p1) = expect(tokens, pos, TokenKind::LBrace);
    let start_span = match lb_r {
        Ok(sp) => sp,
        Err(e) => {
            return (Err(e), p1);
        },
    };
    let mut statements: Vec<Statement> = Vec::new();
    let mut p = p1;
    proof {
        assert(stmts_m(statements@) =~= Seq::<StatementM>::empty());
        assert(stmts_tokens(stmts_m(statements@)) =~= kinds_of_range(
            tokens@,
            p1 as int,
            p1 as int,
        ));
    }
    loop
        invariant
            p1 <= p <= tokens@.len(),
            stmts_m(statements@).len() == statements@.len(),
            forall|j: int|
                0 <= j < stmts_m(statements@).len() ==> stmt_shaped(
                    #[trigger] stmts_m(statements@)[j],
                ),
            stmts_tokens(stmts_m(statements@)) == kinds_of_range(tokens@, p1 as int, p as int),
            spec_block_stmts(tokens@, p1 as nat, Seq::empty()) == spec_block_stmts(
                tokens@,
                p as nat,
                stmts_m(statements@),
            ),
        decreases tokens@.len() - p,
    {
        let cur = match current_or_eof(tokens, p) {
            Ok(t) => t,
            Err(e) => {
                return (Err(e), p);
            },
        };
        let at_rbrace = match cur.kind {
            TokenKind::RBrace => true,
            _ => false,
        };
        if at_rbrace {
            let end_span = cur.span;
            let p2 = p + 1;
            let span = Span::combine(&start_span, &end_span);
            let b = Block { statements, span };
            proof {
                lemma_kinds_range_single(tokens@, pos as int);
                lemma_kinds_range_single(tokens@, p as int);
                lemma_kinds_range_concat(tokens@, pos as int, p1 as int, p as int);
                lemma_kinds_range_concat(tokens@, pos as int, p as int, p2 as int);
                assert(block_tokens(b.m()) =~= kinds_of_range(tokens@, pos as int, p2 as int));
            }
            return (Ok(b), p2);
        }
        let (stmt_r, p2) = parse_statement(tokens, p);
        let stmt = match stmt_r {
            Ok(s) => s,
            Err(e) => {
                return (Err(e), p2);
            },
        };
        let ghost old_stmts = statements@;
        let ghost old_ms = stmts_m(statements@);
        proof {
            assert(old_stmts.push(stmt).drop_last() =~= old_stmts);
        }
        statements.push(stmt);
        proof {
            crate::analysis::lemma_stmts_m_len(statements@);
            assert(stmts_m(statements@).drop_last() =~= old_ms);
            assert(stmts_m(statements@) =~= old_ms.push(stmt.m()));
            lemma_kinds_range_concat(tokens@, p1 as int, p as int, p2 as int);
            assert(stmts_tokens(stmts_m(statements@)) =~= kinds_of_range(
                tokens@,
                p1 as int,
                p2 as int,
            ));
        }
        p = p2;
    }
}

/// Parses one parameter: `ident: ty`.
fn parse_parameter(tokens: &Vec<Token>, pos: usize) -> (r: (Result<Parameter, LangError>, usize))
    requires
        pos <= tokens@.len(),
    ensures
        pos <= r.1 <= tokens@.len(),
        (param_res_m(&r.0), r.1 as nat) == spec_parse_parameter(tokens@, pos as nat),
        match r.0 {
            Ok(prm) => pos < r.1 && param_tokens(prm.m()) == kinds_of_range(
                tokens@,
                pos as int,
                r.1 as int,
            ),
            Err(e) => is_syntax_error(e.m()),
        },
    decreases tokens@.len() - pos, 2int,
{
    let (ident_r, p1) = parse_ident(tokens, pos);
    let ident = match ident_r {
        Ok(i) => i,
        Err(e) => {
            return (Err(e), p1);
        },
    };
    let (colon_r, p2) = expect(tokens, p1, TokenKind::Colon);
    match colon_r {
        Ok(_) => {},
        Err(e) => {
            return (Err(e), p2);
        },
    }
    let (ty_r, p3) = parse_type(tokens, p2);
    let ty = match ty_r {
        Ok(t) => t,
        Err(e) => {
            return (Err(e), p3);
        },
    };
    let tsp = ty.span();
    let span = Span::combine(&ident.span, &tsp);
    let prm = Parameter { ident, ty, span };
    proof {
        lemma_kinds_range_single(tokens@, pos as int);
        lemma_kinds_range_single(tokens@, p1 as int);
        lemma_kinds_range_concat(tokens@, pos as int, p1 as int, p2 as int);
        lemma_kinds_range_concat(tokens@, pos as int, p2 as int, p3 as int);
        assert(param_tokens(prm.m()) =~= kinds_of_range(tokens@, pos as int, p3 as int));
    }
    (Ok(prm), p3)
}

/// Parses a comma-separated parameter list, stopping before the closing
/// parenthesis.
#[verifier::loop_isolation(false)]
fn parse_params(tokens: &Vec<Token>, pos: usize) -> (r: (Result<Vec<Parameter>, LangError>, usize))
    requires
        pos <= tokens@.len(),
    ensures
        pos <= r.1 <= tokens@.len(),
        (params_res_m(&r.0), r.1 as nat) == spec_parse_params(tokens@, pos as nat),
        match r.0 {
            Ok(ps) => r.1 < tokens@.len() && tokens@.len() <= usize::MAX && tokens@[
                r.1 as int
            ].kind.m() == TokenKindM::RParen && params_tokens(params_m(ps@)) == kinds_of_range(
                tokens@,
                pos as int,
                r.1 as int,
            ),
            Err(e) => is_syntax_error(e.m()),
        },
    decreases tokens@.len() - pos, 2int,
{
    let mut params: Vec<Parameter> = Vec::new();
    let cur = match current_or_eof(tokens, pos) {
        Ok(t) => t,
        Err(e) => {
            return (Err(e), pos);
        },
    };
    let at_rparen = match cur.kind {
        TokenKind::RParen => true,
        _ => false,
    };
    if at_rparen {
        proof {
            assert(params_m(params@) =~= Seq::<ParameterM>::empty());
            assert(params_tokens(params_m(params@)) =~= kinds_of_range(
                tokens@,
                pos as int,
                pos as int,
            ));
        }
        return (Ok(params), pos);
    }
    let (first_r, p1) = parse_parameter(tokens, pos);
    let first = match first_r {
        Ok(x) => x,
        Err(e) => {
            return (Err(e), p1);
        },
    };
    proof {
        assert(params@.push(first).drop_last() =~= params@);
        assert(params_m(params@) =~= Seq::<ParameterM>::empty());
    }
    params.push(first);
    let mut p = p1;
    proof {
        assert(params_m(params@).len() == 1);
        assert(params_m(params@) =~= seq![params@[0].m()]);
        assert(params_tokens(params_m(params@)) == kinds_of_range(tokens@, pos as int, p as int));
    }
    loop
        invariant
            pos <= p <= tokens@.len(),
            params@.len() >= 1,
            params_m(params@).len() == params@.len(),
            params_tokens(params_m(params@)) == kinds_of_range(tokens@, pos as int, p as int),
            spec_parse_params(tokens@, pos as nat) == spec_params_more(
                tokens@,
                p as nat,
                params_m(params@),
            ),
        decreases tokens@.len() - p,
    {
        let cur = match current_or_eof(tokens, p) {
            Ok(t) => t,
            Err(e) => {
                return (Err(e), p);
            },
        };
        let at_rparen = match cur.kind {
            TokenKind::RParen => true,
            _ => false,
        };
        let at_comma = match cur.kind {
            TokenKind::Comma => true,
            _ => false,
        };
        if at_rparen {
            return (Ok(params), p);
        } else if at_comma {
            let p2 = p + 1;
            let (pr, p3) = parse_parameter(tokens, p2);
            let prm = match pr {
                Ok(x) => x,
                Err(err) => {
                    return (Err(err), p3);
                },
            };
            let ghost old_params = params@;
            let ghost old_ms = params_m(params@);
            proof {
                assert(old_params.push(prm).drop_last() =~= old_params);
            }
            params.push(prm);
            proof {
                crate::analysis::lemma_params_m_len(params@);
                assert(params_m(params@).drop_last() =~= old_ms);
                assert(params_m(params@).last() == prm.m());
                lemma_kinds_range_single(tokens@, p as int);
                lemma_kinds_range_concat(tokens@, pos as int, p as int, p2 as int);
                lemma_kinds_range_concat(tokens@, pos as int, p2 as int, p3 as int);
                assert(params_tokens(params_m(params@)) =~= kinds_of_range(
                    tokens@,
                    pos as int,
                    p3 as int,
                ));
            }
            p = p3;
        } else {
            let mut expected: Vec<TokenKind> = Vec::new();
            expected.push(TokenKind::Comma);
            expected.push(TokenKind::RParen);
            proof {
                crate::errors::lemma_kinds_m_len(expected@);
                assert(crate::errors::kinds_m(expected@) =~= seq![
                    TokenKindM::Comma,
                    TokenKindM::RParen,
                ]);
            }
            return (
                Err(
                    LangError::ExpectedAnyToken {
                        expected,
                        found: cur.kind.duplicate(),
                        span: cur.span,
                    },
                ),
                p,
            );
        }
    }
}

/// Parses one function declaration:
/// `fn ident(parameter, ...) -> ty block`.
fn parse_function(tokens: &Vec<Token>, pos: usize) -> (r: (
    Result<FunctionDecl, LangError>,
    usize,
))
    requires
        pos <= tokens@.len(),
    ensures
        pos <= r.1 <= tokens@.len(),
        (function_res_m(&r.0), r.1 as nat) == spec_parse_function(tokens@, pos as nat),
        match r.0 {
            Ok(f) => pos < r.1 && block_shaped(f.m().block) && function_tokens(f.m())
                == kinds_of_range(tokens@, pos as int, r.1 as int),
            Err(e) => is_syntax_error(e.m()),
        },
    decreases tokens@.len() - pos, 5int,
{
    let (fn_r, p1) = expect(tokens, pos, TokenKind::Fn);
    match fn_r {
        Ok(_) => {},
        Err(e) => {
            return (Err(e), p1);
        },
    }
    let (ident_r, p2) = parse_ident(tokens, p1);
    let ident = match ident_r {
        Ok(i) => i,
        Err(e) => {
            return (Err(e), p2);
        },
    };
    let (lp_r, p3) = expect(tokens, p2, TokenKind::LParen);
    match lp_r {
        Ok(_) => {},
        Err(e) => {
            return (Err(e), p3);
        },
    }
    let (params_r, p4) = parse_params(tokens, p3);
    let parameters = match params_r {
        Ok(ps) => ps,
        Err(e) => {
            return (Err(e), p4);
        },
    };
    // the parameter list stops at the closing parenthesis
    let p5 = p4 + 1;
    let (arrow_r, p6) = expect(tokens, p5, TokenKind::Arrow);
    match arrow_r {
        Ok(_) => {},
        Err(e) => {
            return (Err(e), p6);
        },
    }
    let (ty_r, p7) = parse_type(tokens, p6);
    let ty = match ty_r {
        Ok(t) => t,
        Err(e) => {
            return (Err(e), p7);
        },
    };
    let (block_r, p8) = parse_block(tokens, p7);
    let block = match block_r {
        Ok(b) => b,
        Err(e) => {
            return (Err(e), p8);
        },
    };
    let span = Span::combine(&ident.span, &block.span);
    let f = FunctionDecl { ident, parameters, ty, block, span };
    proof {
        lemma_kinds_range_single(tokens@, pos as int);
        lemma_kinds_range_single(tokens@, p1 as int);
        lemma_kinds_range_single(tokens@, p2 as int);
        lemma_kinds_range_single(tokens@, p4 as int);
        lemma_kinds_range_single(tokens@, p5 as int);
        lemma_kinds_range_concat(tokens@, pos as int, p1 as int, p2 as int);
        lemma_kinds_range_concat(tokens@, pos as int, p2 as int, p3 as int);
        lemma_kinds_range_concat(tokens@, pos as int, p3 as int, p4 as int);
        lemma_kinds_range_concat(tokens@, pos as int, p4 as int, p5 as int);
        lemma_kinds_range_concat(tokens@, pos as int, p5 as int, p6 as int);
        lemma_kinds_range_concat(tokens@, pos as int, p6 as int, p7 as int);
        lemma_kinds_range_concat(tokens@, pos as int, p7 as int, p8 as int);
        assert(function_tokens(f.m()) =~= kinds_of_range(tokens@, pos as int, p8 as int));
    }
    (Ok(f), p8)
}

/// Parses one top-level item; functions are the only items.
fn parse_item(tokens: &Vec<Token>, pos: usize) -> (r: (Result<Item, LangError>, usize))
    requires
        pos <= tokens@.len(),
    ensures
        pos <= r.1 <= tokens@.len(),
        (item_res_m(&r.0), r.1 as nat) == spec_parse_item(tokens@, pos as nat),
        match r.0 {
            Ok(it) => pos < r.1 && (it.m() matches ItemM::FunctionDecl(f) && block_shaped(f.block)
                && function_tokens(f) == kinds_of_range(tokens@, pos as int, r.1 as int)),
            Err(e) => is_syntax_error(e.m()),
        },
    decreases tokens@.len() - pos, 6int,
{
    let cur = match current_or_eof(tokens, pos) {
        Ok(t) => t,
        Err(e) => {
            return (Err(e), pos);
        },
    };
    match cur.kind {
        TokenKind::Fn => {
            let (f_r, p1) = parse_function(tokens, pos);
            match f_r {
                Ok(f) => (Ok(Item::FunctionDecl(f)), p1),
                Err(e) => (Err(e), p1),
            }
        },
        _ => {
            let mut expected: Vec<TokenKind> = Vec::new();
            expected.push(TokenKind::Fn);
            proof {
                crate::errors::lemma_kinds_m_len(expected@);
                assert(crate::errors::kinds_m(expected@) =~= seq![TokenKindM::Fn]);
            }
            (
                Err(
                    LangError::ExpectedAnyToken {
                        expected,
                        found: cur.kind.duplicate(),
                        span: cur.span,
                    },
                ),
                pos,
            )
        },
    }
}

/// Parses a whole program: items until the input is exhausted.
#[verifier::loop_isolation(false)]
fn parse_program(tokens: &Vec<Token>, pos: usize) -> (r: (Result<Program, LangError>, usize))
    requires
        pos <= tokens@.len(),
    ensures
        pos <= r.1 <= tokens@.len(),
        (program_res_m(&r.0), r.1 as nat) == spec_parse_program(tokens@, pos as nat),
        match r.0 {
            Ok(p) => r.1 == tokens@.len() && program_shaped(items_m(p.items@)) && program_tokens(
                items_m(p.items@),
            ) == kinds_of_range(tokens@, pos as int, tokens@.len() as int),
            Err(e) => is_syntax_error(e.m()),
        },
    decreases tokens@.len() - pos, 7int,
{
    let mut items: Vec<Item> = Vec::new();
    let mut p = pos;
    proof {
        assert(items_m(items@) =~= Seq::<ItemM>::empty());
        assert(program_tokens(items_m(items@)) =~= kinds_of_range(tokens@, pos as int, pos as int));
    }
    while p < tokens.len()
        invariant
            pos <= p <= tokens@.len(),
            items_m(items@).len() == items@.len(),
            program_shaped(items_m(items@)),
            program_tokens(items_m(items@)) == kinds_of_range(tokens@, pos as int, p as int),
            spec_program_items(tokens@, pos as nat, Seq::empty()) == spec_program_items(
                tokens@,
                p as nat,
                items_m(items@),
            ),
        decreases tokens@.len() - p,
    {
        let (item_r, p2) = parse_item(tokens, p);
        let item = match item_r {
            Ok(it) => it,
            Err(e) => {
                return (Err(e), p2);
            },
        };
        let ghost old_items = items@;
        let ghost old_ms = items_m(items@);
        proof {
            assert(old_items.push(item).drop_last() =~= old_items);
        }
        items.push(item);
        proof {
            crate::analysis::lemma_items_m_len(items@);
            assert(items_m(items@).drop_last() =~= old_ms);
            assert(items_m(items@).last() == item.m());
            assert(items_m(items@) =~= old_ms.push(item.m()));
            lemma_kinds_range_concat(tokens@, pos as int, p as int, p2 as int);
            assert(program_tokens(items_m(items@)) =~= kinds_of_range(
                tokens@,
                pos as int,
                p2 as int,
            ));
        }
        p = p2;
    }
    (Ok(Program { items }), p)
}

/// The parser: a cursor over one token list. It makes a single forward
/// pass; to restart, construct a new parser.
pub struct Parser {
    tokens: Vec<Token>,
    pos: usize,
}

impl Parser {
    /// The tokens the parser reads.
    pub closed spec fn tokens_view(&self) -> Seq<Token> {
        self.tokens@
    }

    /// The cursor.
    pub closed spec fn spec_pos(&self) -> nat {
        self.pos as nat
    }

    /// A fresh parser over a token list, at the start.
    pub fn new(tokens: Vec<Token>) -> (r: Parser)
        ensures
            r.tokens_view() == tokens@,
            r.spec_pos() == 0,
    {
        Parser { tokens, pos: 0 }
    }

    /// Parses the whole token list into a program, or fails fast with the
    /// first syntax error. The result — the tree on success, and on
    /// failure the first syntax error with its span — is exactly what the
    /// specification-level parse yields, so success is owed wherever that
    /// parse succeeds. On success the tree also spells back, token for
    /// token, the entire input, every expression in it nests by operator
    /// precedence, and the tree uses only the constructs of the grammar.
    pub fn parse(&mut self, file_id: String) -> (r: Result<AST, LangError>)
        requires
            old(self).spec_pos() <= old(self).tokens_view().len(),
        ensures
            final(self).tokens_view() == old(self).tokens_view(),
            (
                match &r {
                    Ok(ast) => Ok(items_m(ast.program.items@)),
                    Err(e) => Err(e.m()),
                },
                final(self).spec_pos(),
            ) == spec_parse_program(old(self).tokens_view(), old(self).spec_pos()),
            match r {
                Ok(ast) => ast.file_id@ == file_id@ && program_shaped(items_m(ast.program.items@))
                    && program_tokens(items_m(ast.program.items@)) == kinds_of_range(
                    old(self).tokens_view(),
                    old(self).spec_pos() as int,
                    old(self).tokens_view().len() as int,
                ),
                Err(e) => is_syntax_error(e.m()),
            },
    {
        let (prog_r, p) = parse_program(&self.tokens, self.pos);
        self.pos = p;
        match prog_r {
            Ok(program) => Ok(AST { program, file_id }),
            Err(e) => Err(e),
        }
    }
}


// ====================
// The parse, as a function: what each production returns and where it
// leaves the cursor, for every input. Each parsing routine below is proved
// to compute exactly its mirror here, so success, the exact first syntax
// error, the tree and every span are all pinned.
// ====================

/// The unexpected-end-of-input error: it points at the last token.
pub open spec fn spec_eof_error(ts: Seq<Token>) -> LangErrorM {
    if ts.len() > 0 {
        LangErrorM::UnexpectedEOF(ts[ts.len() - 1].span)
    } else {
        LangErrorM::UnexpectedEOF(Span { start: 0, end: 0 })
    }
}

/// The token under the cursor, unless the input has run out or only the
/// end-of-file marker remains.
pub open spec fn spec_current(ts: Seq<Token>, pos: nat) -> Result<TokenM, LangErrorM> {
    if pos < ts.len() && !(ts[pos as int].kind.m() is Eof) {
        Ok(ts[pos as int].m())
    } else {
        Err(spec_eof_error(ts))
    }
}

/// Consuming one token of the given kind: its span and the cursor moved by
/// one; a mismatch is an expected-token error (the cursor still moves), and
/// exhausted input is an unexpected-end error (the cursor stays).
pub open spec fn spec_expect(ts: Seq<Token>, pos: nat, kind: TokenKindM) -> (
    Result<Span, LangErrorM>,
    nat,
) {
    match spec_current(ts, pos) {
        Err(e) => (Err(e), pos),
        Ok(t) => if t.kind == kind {
            (Ok(t.span), pos + 1)
        } else {
            (
                Err(LangErrorM::ExpectedToken { expected: kind, found: t.kind, span: t.span }),
                pos + 1,
            )
        },
    }
}

/// Parsing one identifier.
pub open spec fn spec_parse_ident(ts: Seq<Token>, pos: nat) -> (Result<IdentM, LangErrorM>, nat) {
    match spec_current(ts, pos) {
        Err(e) => (Err(e), pos),
        Ok(t) => match t.kind {
            TokenKindM::Ident(name) => (Ok(IdentM { name, span: t.span }), pos + 1),
            _ => (
                Err(
                    LangErrorM::ExpectedToken {
                        expected: TokenKindM::Ident(Seq::empty()),
                        found: t.kind,
                        span: t.span,
                    },
                ),
                pos,
            ),
        },
    }
}

/// Parsing one type name.
pub open spec fn spec_parse_type(ts: Seq<Token>, pos: nat) -> (Result<Type, LangErrorM>, nat) {
    match spec_current(ts, pos) {
        Err(e) => (Err(e), pos),
        Ok(t) => match t.kind {
            TokenKindM::Int => (
                Ok(Type::Primitive(PrimitiveType { kind: PrimitiveKind::Int, span: t.span })),
                pos + 1,
            ),
            TokenKindM::Bool => (
                Ok(Type::Primitive(PrimitiveType { kind: PrimitiveKind::Bool, span: t.span })),
                pos + 1,
            ),
            TokenKindM::Float => (
                Ok(Type::Primitive(PrimitiveType { kind: PrimitiveKind::Float, span: t.span })),
                pos + 1,
            ),
            _ => (
                Err(
                    LangErrorM::ExpectedAnyToken {
                        expected: seq![TokenKindM::Int, TokenKindM::Bool, TokenKindM::Float],
                        found: t.kind,
                        span: t.span,
                    },
                ),
                pos,
            ),
        },
    }
}

/// Parsing one parameter: `ident: ty`.
pub open spec fn spec_parse_parameter(ts: Seq<Token>, pos: nat) -> (
    Result<ParameterM, LangErrorM>,
    nat,
) {
    let (ir, p1) = spec_parse_ident(ts, pos);
    match ir {
        Err(e) => (Err(e), p1),
        Ok(ident) => {
            let (cr, p2) = spec_expect(ts, p1, TokenKindM::Colon);
            match cr {
                Err(e) => (Err(e), p2),
                Ok(_) => {
                    let (tr, p3) = spec_parse_type(ts, p2);
                    match tr {
                        Err(e) => (Err(e), p3),
                        Ok(ty) => (
                            Ok(
                                ParameterM {
                                    ident,
                                    ty,
                                    span: spec_combine(ident.span, ty.spec_span()),
                                },
                            ),
                            p3,
                        ),
                    }
                },
            }
        },
    }
}

/// Parsing the parameters after the first: `, parameter` until the closing
/// parenthesis; anything else after a parameter is an error.
pub open spec fn spec_params_more(ts: Seq<Token>, pos: nat, acc: Seq<ParameterM>) -> (
    Result<Seq<ParameterM>, LangErrorM>,
    nat,
)
    decreases ts.len() - pos,
        when pos <= ts.len()
{
    match spec_current(ts, pos) {
        Err(e) => (Err(e), pos),
        Ok(t) => match t.kind {
            TokenKindM::RParen => (Ok(acc), pos),
            TokenKindM::Comma => {
                let (pr, p2) = spec_parse_parameter(ts, pos + 1);
                match pr {
                    Err(e) => (Err(e), p2),
                    Ok(prm) => if pos < p2 <= ts.len() {
                        spec_params_more(ts, p2, acc.push(prm))
                    } else {
                        (Ok(acc.push(prm)), p2)
                    },
                }
            },
            _ => (
                Err(
                    LangErrorM::ExpectedAnyToken {
                        expected: seq![TokenKindM::Comma, TokenKindM::RParen],
                        found: t.kind,
                        span: t.span,
                    },
                ),
                pos,
            ),
        },
    }
}

/// Parsing a comma-separated parameter list, stopping before the closing
/// parenthesis.
pub open spec fn spec_parse_params(ts: Seq<Token>, pos: nat) -> (
    Result<Seq<ParameterM>, LangErrorM>,
    nat,
) {
    match spec_current(ts, pos) {
        Err(e) => (Err(e), pos),
        Ok(t) => if t.kind == TokenKindM::RParen {
            (Ok(Seq::empty()), pos)
        } else {
            let (pr, p1) = spec_parse_parameter(ts, pos);
            match pr {
                Err(e) => (Err(e), p1),
                Ok(first) => if pos < p1 <= ts.len() {
                    spec_params_more(ts, p1, seq![first])
                } else {
                    (Ok(seq![first]), p1)
                },
            }
        },
    }
}

/// Parsing a primary expression: a literal, an identifier, a call, or a
/// parenthesized sub-expression.
pub open spec fn spec_parse_primary(ts: Seq<Token>, pos: nat) -> (Result<ExprM, LangErrorM>, nat)
    decreases ts.len() - pos, 0int,
        when pos <= ts.len()
{
    match spec_current(ts, pos) {
        Err(e) => (Err(e), pos),
        Ok(t) => match t.kind {
            TokenKindM::IntLiteral(v) => (
                Ok(
                    ExprM::Primary(
                        PrimM::Literal(LiteralM { kind: LiteralKindM::Int(v), span: t.span }),
                    ),
                ),
                pos + 1,
            ),
            TokenKindM::True => (
                Ok(
                    ExprM::Primary(
                        PrimM::Literal(LiteralM { kind: LiteralKindM::Bool(true), span: t.span }),
                    ),
                ),
                pos + 1,
            ),
            TokenKindM::False => (
                Ok(
                    ExprM::Primary(
                        PrimM::Literal(LiteralM { kind: LiteralKindM::Bool(false), span: t.span }),
                    ),
                ),
                pos + 1,
            ),
            TokenKindM::Ident(name) => {
                let ident = IdentM { name, span: t.span };
                match spec_current(ts, pos + 1) {
                    Err(e) => (Err(e), pos + 1),
                    Ok(t2) => if t2.kind == TokenKindM::LParen {
                        let (ar, p3) = if pos + 2 <= ts.len() {
                            spec_parse_expr_list(ts, pos + 2)
                        } else {
                            (Err(spec_eof_error(ts)), pos + 2)
                        };
                        match ar {
                            Err(e) => (Err(e), p3),
                            Ok(args) => (
                                Ok(ExprM::Primary(PrimM::FunctionCall(ident, args))),
                                p3 + 1,
                            ),
                        }
                    } else {
                        (Ok(ExprM::Primary(PrimM::Ident(ident))), pos + 1)
                    },
                }
            },
            TokenKindM::LParen => {
                let (ir, p2) = spec_parse_expr(ts, pos + 1, 0, false);
                match ir {
                    Err(e) => (Err(e), p2),
                    Ok(inner) => {
                        let (rr, p3) = if p2 <= ts.len() {
                            spec_expect(ts, p2, TokenKindM::RParen)
                        } else {
                            (Err(spec_eof_error(ts)), p2)
                        };
                        match rr {
                            Err(e) => (Err(e), p3),
                            Ok(_) => (
                                Ok(ExprM::Primary(PrimM::Parenthesized(Box::new(inner)))),
                                p3,
                            ),
                        }
                    },
                }
            },
            _ => (
                Err(
                    LangErrorM::ExpectedAnyToken {
                        expected: seq![
                            TokenKindM::IntLiteral(0),
                            TokenKindM::BoolLiteral(false),
                            TokenKindM::Ident(Seq::empty()),
                            TokenKindM::LParen,
                        ],
                        found: t.kind,
                        span: t.span,
                    },
                ),
                pos,
            ),
        },
    }
}

/// Parsing the expressions of a call's argument list after the first:
/// `, expression` until the closing parenthesis.
pub open spec fn spec_args_more(ts: Seq<Token>, pos: nat, acc: Seq<ExprM>) -> (
    Result<Seq<ExprM>, LangErrorM>,
    nat,
)
    decreases ts.len() - pos, 3int,
        when pos <= ts.len()
{
    match spec_current(ts, pos) {
        Err(e) => (Err(e), pos),
        Ok(t) => match t.kind {
            TokenKindM::RParen => (Ok(acc), pos),
            TokenKindM::Comma => {
                let (er, p2) = spec_parse_expr(ts, pos + 1, 0, false);
                match er {
                    Err(e) => (Err(e), p2),
                    Ok(e) => if pos < p2 <= ts.len() {
                        spec_args_more(ts, p2, acc.push(e))
                    } else {
                        (Ok(acc.push(e)), p2)
                    },
                }
            },
            _ => (
                Err(
                    LangErrorM::ExpectedAnyToken {
                        expected: seq![TokenKindM::Comma, TokenKindM::RParen],
                        found: t.kind,
                        span: t.span,
                    },
                ),
                pos,
            ),
        },
    }
}

/// Parsing a comma-separated expression list, stopping before the closing
/// parenthesis.
pub open spec fn spec_parse_expr_list(ts: Seq<Token>, pos: nat) -> (
    Result<Seq<ExprM>, LangErrorM>,
    nat,
)
    decreases ts.len() - pos, 4int,
        when pos <= ts.len()
{
    match spec_current(ts, pos) {
        Err(e) => (Err(e), pos),
        Ok(t) => if t.kind == TokenKindM::RParen {
            (Ok(Seq::empty()), pos)
        } else {
            let (er, p1) = spec_parse_expr(ts, pos, 0, false);
            match er {
                Err(e) => (Err(e), p1),
                Ok(first) => if pos < p1 <= ts.len() {
                    spec_args_more(ts, p1, seq![first])
                } else {
                    (Ok(seq![first]), p1)
                },
            }
        },
    }
}

/// The climbing loop: while the next token is a binary operator binding at
/// least as strongly as `min_prec`, consume it, parse the right-hand side
/// at a strictly higher strength, and combine.
pub open spec fn spec_climb(ts: Seq<Token>, pos: nat, e: ExprM, min_prec: u8) -> (
    Result<ExprM, LangErrorM>,
    nat,
)
    decreases ts.len() - pos, 2int,
        when pos <= ts.len()
{
    match spec_current(ts, pos) {
        Err(err) => (Err(err), pos),
        Ok(t) => match spec_as_bin_op(t.kind) {
            None => (Ok(e), pos),
            Some(k) => if spec_precedence(k) < min_prec {
                (Ok(e), pos)
            } else {
                let (rr, p2) = spec_parse_expr(ts, pos + 1, (spec_precedence(k) + 1) as u8, true);
                match rr {
                    Err(err) => (Err(err), p2),
                    Ok(rhs) => {
                        let combined = ExprM::Binary(
                            BinaryM {
                                lhs: Box::new(e),
                                op: BinaryOperator { kind: k, span: t.span },
                                rhs: Box::new(rhs),
                                span: spec_combine(expr_span(e), expr_span(rhs)),
                            },
                        );
                        if pos < p2 <= ts.len() {
                            spec_climb(ts, p2, combined, min_prec)
                        } else {
                            (Ok(combined), p2)
                        }
                    },
                }
            },
        },
    }
}

/// Parsing an expression: a leading operand — a unary operator applied to
/// a primary expression where `allow_unary` holds and one is present,
/// otherwise a primary expression — then the climbing loop.
pub open spec fn spec_parse_expr(ts: Seq<Token>, pos: nat, min_prec: u8, allow_unary: bool) -> (
    Result<ExprM, LangErrorM>,
    nat,
)
    decreases ts.len() - pos, 1int,
        when pos <= ts.len()
{
    match spec_current(ts, pos) {
        Err(e) => (Err(e), pos),
        Ok(t) => {
            let unop = if allow_unary {
                spec_as_un_op(t.kind)
            } else {
                None
            };
            match unop {
                Some(uk) => {
                    let (pr, p2) = if pos + 1 <= ts.len() {
                        spec_parse_primary(ts, pos + 1)
                    } else {
                        (Err(spec_eof_error(ts)), pos + 1)
                    };
                    match pr {
                        Err(e) => (Err(e), p2),
                        Ok(prim) => {
                            let span = spec_combine(t.span, expr_span(prim));
                            let ue = ExprM::Unary(
                                UnaryM {
                                    kind: match uk {
                                        UnaryOperatorKind::Negate => UnaryKindM::Negation(
                                            Box::new(prim),
                                        ),
                                        UnaryOperatorKind::Not => UnaryKindM::Not(Box::new(prim)),
                                    },
                                    span,
                                },
                            );
                            if pos < p2 <= ts.len() {
                                spec_climb(ts, p2, ue, min_prec)
                            } else {
                                (Ok(ue), p2)
                            }
                        },
                    }
                },
                None => {
                    let (pr, p2) = spec_parse_primary(ts, pos);
                    match pr {
                        Err(e) => (Err(e), p2),
                        Ok(prim) => if pos < p2 <= ts.len() {
                            spec_climb(ts, p2, prim, min_prec)
                        } else {
                            (Ok(prim), p2)
                        },
                    }
                },
            }
        },
    }
}

/// Parsing `let ident: ty = expression;`.
pub open spec fn spec_parse_variable_decl(ts: Seq<Token>, pos: nat) -> (
    Result<StatementM, LangErrorM>,
    nat,
)
{
    let (lr, p1) = spec_expect(ts, pos, TokenKindM::Let);
    match lr {
        Err(e) => (Err(e), p1),
        Ok(start_span) => {
            let (ir, p2) = spec_parse_ident(ts, p1);
            match ir {
                Err(e) => (Err(e), p2),
                Ok(ident) => {
                    let (cr, p3) = spec_expect(ts, p2, TokenKindM::Colon);
                    match cr {
                        Err(e) => (Err(e), p3),
                        Ok(_) => {
                            let (tr, p4) = spec_parse_type(ts, p3);
                            match tr {
                                Err(e) => (Err(e), p4),
                                Ok(ty) => {
                                    let (er, p5) = spec_expect(ts, p4, TokenKindM::Equals);
                                    match er {
                                        Err(e) => (Err(e), p5),
                                        Ok(_) => {
                                            let (xr, p6) = if p5 <= ts.len() {
                                                spec_parse_expr(ts, p5, 0, false)
                                            } else {
                                                (Err(spec_eof_error(ts)), p5)
                                            };
                                            match xr {
                                                Err(e) => (Err(e), p6),
                                                Ok(expression) => {
                                                    let (sr, p7) = if p6 <= ts.len() {
                                                        spec_expect(
                                                            ts,
                                                            p6,
                                                            TokenKindM::Semicolon,
                                                        )
                                                    } else {
                                                        (Err(spec_eof_error(ts)), p6)
                                                    };
                                                    match sr {
                                                        Err(e) => (Err(e), p7),
                                                        Ok(_) => (
                                                            Ok(
                                                                StatementM::VariableDecl(
                                                                    VariableDeclM {
                                                                        ident,
                                                                        ty,
                                                                        expression,
                                                                        span: spec_combine(
                                                                            start_span,
                                                                            expr_span(expression),
                                                                        ),
                                                                    },
                                                                ),
                                                            ),
                                                            p7,
                                                        ),
                                                    }
                                                },
                                            }
                                        },
                                    }
                                },
                            }
                        },
                    }
                },
            }
        },
    }
}

/// Parsing `return expression?;`.
pub open spec fn spec_parse_return(ts: Seq<Token>, pos: nat) -> (
    Result<StatementM, LangErrorM>,
    nat,
)
{
    let (rr, p1) = spec_expect(ts, pos, TokenKindM::Return);
    match rr {
        Err(e) => (Err(e), p1),
        Ok(_) => match spec_current(ts, p1) {
            Err(e) => (Err(e), p1),
            Ok(t) => if t.kind == TokenKindM::Semicolon {
                let (sr, p2) = spec_expect(ts, p1, TokenKindM::Semicolon);
                match sr {
                    Err(e) => (Err(e), p2),
                    Ok(_) => (Ok(StatementM::Return(None)), p2),
                }
            } else {
                let (xr, p2) = spec_parse_expr(ts, p1, 0, false);
                match xr {
                    Err(e) => (Err(e), p2),
                    Ok(expression) => {
                        let (sr, p3) = if p2 <= ts.len() {
                            spec_expect(ts, p2, TokenKindM::Semicolon)
                        } else {
                            (Err(spec_eof_error(ts)), p2)
                        };
                        match sr {
                            Err(e) => (Err(e), p3),
                            Ok(_) => (
                                Ok(StatementM::Return(Some(Box::new(expression)))),
                                p3,
                            ),
                        }
                    },
                }
            },
        },
    }
}

/// Parsing `if expression block` with an optional `else block`.
pub open spec fn spec_parse_flow(ts: Seq<Token>, pos: nat) -> (Result<StatementM, LangErrorM>, nat)
    decreases ts.len() - pos, 1int,
        when pos <= ts.len()
{
    let (fr, p1) = spec_expect(ts, pos, TokenKindM::If);
    match fr {
        Err(e) => (Err(e), p1),
        Ok(start_span) => {
            let (cr, p2) = spec_parse_expr(ts, p1, 0, false);
            match cr {
                Err(e) => (Err(e), p2),
                Ok(condition) => {
                    let (br, p3) = if pos < p2 <= ts.len() {
                        spec_parse_block(ts, p2)
                    } else {
                        (Err(spec_eof_error(ts)), p2)
                    };
                    match br {
                        Err(e) => (Err(e), p3),
                        Ok(if_block) => match spec_current(ts, p3) {
                            Err(e) => (Err(e), p3),
                            Ok(t) => if t.kind == TokenKindM::Else {
                                let (er, p5) = if pos < p3 + 1 <= ts.len() {
                                    spec_parse_block(ts, p3 + 1)
                                } else {
                                    (Err(spec_eof_error(ts)), p3 + 1)
                                };
                                match er {
                                    Err(e) => (Err(e), p5),
                                    Ok(else_block) => (
                                        Ok(
                                            StatementM::Flow(
                                                Box::new(
                                                    FlowM {
                                                        condition,
                                                        if_block,
                                                        else_block: Some(else_block),
                                                        span: spec_combine(
                                                            start_span,
                                                            else_block.span,
                                                        ),
                                                    },
                                                ),
                                            ),
                                        ),
                                        p5,
                                    ),
                                }
                            } else {
                                (
                                    Ok(
                                        StatementM::Flow(
                                            Box::new(
                                                FlowM {
                                                    condition,
                                                    if_block,
                                                    else_block: None,
                                                    span: spec_combine(start_span, if_block.span),
                                                },
                                            ),
                                        ),
                                    ),
                                    p3,
                                )
                            },
                        },
                    }
                },
            }
        },
    }
}

/// Parsing one statement: `let`, `if` or `return` dispatch.
pub open spec fn spec_parse_statement(ts: Seq<Token>, pos: nat) -> (
    Result<StatementM, LangErrorM>,
    nat,
)
    decreases ts.len() - pos, 2int,
        when pos <= ts.len()
{
    match spec_current(ts, pos) {
        Err(e) => (Err(e), pos),
        Ok(t) => match t.kind {
            TokenKindM::Let => spec_parse_variable_decl(ts, pos),
            TokenKindM::If => spec_parse_flow(ts, pos),
            TokenKindM::Return => spec_parse_return(ts, pos),
            _ => (
                Err(
                    LangErrorM::ExpectedAnyToken {
                        expected: seq![TokenKindM::Let],
                        found: t.kind,
                        span: t.span,
                    },
                ),
                pos,
            ),
        },
    }
}

/// Parsing statements until the closing brace; the cursor stops at the
/// brace.
pub open spec fn spec_block_stmts(ts: Seq<Token>, pos: nat, acc: Seq<StatementM>) -> (
    Result<Seq<StatementM>, LangErrorM>,
    nat,
)
    decreases ts.len() - pos, 3int,
        when pos <= ts.len()
{
    match spec_current(ts, pos) {
        Err(e) => (Err(e), pos),
        Ok(t) => if t.kind == TokenKindM::RBrace {
            (Ok(acc), pos)
        } else {
            let (sr, p2) = spec_parse_statement(ts, pos);
            match sr {
                Err(e) => (Err(e), p2),
                Ok(stmt) => if pos < p2 <= ts.len() {
                    spec_block_stmts(ts, p2, acc.push(stmt))
                } else {
                    (Ok(acc.push(stmt)), p2)
                },
            }
        },
    }
}

/// Parsing a brace-delimited block; its span runs from the opening to the
/// closing brace.
pub open spec fn spec_parse_block(ts: Seq<Token>, pos: nat) -> (Result<BlockM, LangErrorM>, nat)
    decreases ts.len() - pos, 4int,
        when pos <= ts.len()
{
    let (lr, p1) = spec_expect(ts, pos, TokenKindM::LBrace);
    match lr {
        Err(e) => (Err(e), p1),
        Ok(start_span) => {
            let (sr, p2) = if pos < p1 <= ts.len() {
                spec_block_stmts(ts, p1, Seq::empty())
            } else {
                (Err(spec_eof_error(ts)), p1)
            };
            match sr {
                Err(e) => (Err(e), p2),
                Ok(statements) => if p2 < ts.len() {
                    (
                        Ok(
                            BlockM {
                                statements,
                                span: spec_combine(start_span, ts[p2 as int].span),
                            },
                        ),
                        p2 + 1,
                    )
                } else {
                    // statements stop only at a closing brace, so this
                    // does not arise; completing the match keeps the
                    // function total
                    (Err(spec_eof_error(ts)), p2)
                },
            }
        },
    }
}

/// Parsing one function declaration.
pub open spec fn spec_parse_function(ts: Seq<Token>, pos: nat) -> (
    Result<FunctionDeclM, LangErrorM>,
    nat,
)
{
    let (fr, p1) = spec_expect(ts, pos, TokenKindM::Fn);
    match fr {
        Err(e) => (Err(e), p1),
        Ok(_) => {
            let (ir, p2) = spec_parse_ident(ts, p1);
            match ir {
                Err(e) => (Err(e), p2),
                Ok(ident) => {
                    let (lr, p3) = spec_expect(ts, p2, TokenKindM::LParen);
                    match lr {
                        Err(e) => (Err(e), p3),
                        Ok(_) => {
                            let (psr, p4) = if p3 <= ts.len() {
                                spec_parse_params(ts, p3)
                            } else {
                                (Err(spec_eof_error(ts)), p3)
                            };
                            match psr {
                                Err(e) => (Err(e), p4),
                                Ok(parameters) => {
                                    let (rr, p6) = if p4 + 1 <= ts.len() {
                                        spec_expect(ts, p4 + 1, TokenKindM::Arrow)
                                    } else {
                                        (Err(spec_eof_error(ts)), p4 + 1)
                                    };
                                    match rr {
                                        Err(e) => (Err(e), p6),
                                        Ok(_) => {
                                            let (tr, p7) = spec_parse_type(ts, p6);
                                            match tr {
                                                Err(e) => (Err(e), p7),
                                                Ok(ty) => {
                                                    let (br, p8) = if p7 <= ts.len() {
                                                        spec_parse_block(ts, p7)
                                                    } else {
                                                        (Err(spec_eof_error(ts)), p7)
                                                    };
                                                    match br {
                                                        Err(e) => (Err(e), p8),
                                                        Ok(block) => (
                                                            Ok(
                                                                FunctionDeclM {
                                                                    ident,
                                                                    parameters,
                                                                    ty,
                                                                    block,
                                                                    span: spec_combine(
                                                                        ident.span,
                                                                        block.span,
                                                                    ),
                                                                },
                                                            ),
                                                            p8,
                                                        ),
                                                    }
                                                },
                                            }
                                        },
                                    }
                                },
                            }
                        },
                    }
                },
            }
        },
    }
}

/// Parsing one top-level item.
pub open spec fn spec_parse_item(ts: Seq<Token>, pos: nat) -> (Result<ItemM, LangErrorM>, nat)
{
    match spec_current(ts, pos) {
        Err(e) => (Err(e), pos),
        Ok(t) => match t.kind {
            TokenKindM::Fn => {
                let (fr, p1) = spec_parse_function(ts, pos);
                match fr {
                    Err(e) => (Err(e), p1),
                    Ok(f) => (Ok(ItemM::FunctionDecl(f)), p1),
                }
            },
            _ => (
                Err(
                    LangErrorM::ExpectedAnyToken {
                        expected: seq![TokenKindM::Fn],
                        found: t.kind,
                        span: t.span,
                    },
                ),
                pos,
            ),
        },
    }
}

/// Parsing items until the input is exhausted.
pub open spec fn spec_program_items(ts: Seq<Token>, pos: nat, acc: Seq<ItemM>) -> (
    Result<Seq<ItemM>, LangErrorM>,
    nat,
)
    decreases ts.len() - pos,
        when pos <= ts.len()
{
    if pos >= ts.len() {
        (Ok(acc), pos)
    } else {
        let (ir, p2) = spec_parse_item(ts, pos);
        match ir {
            Err(e) => (Err(e), p2),
            Ok(item) => if pos < p2 <= ts.len() {
                spec_program_items(ts, p2, acc.push(item))
            } else {
                (Ok(acc.push(item)), p2)
            },
        }
    }
}

/// The whole parse: the items of the program, or the first syntax error
/// encountered — there is no recovery, and nothing after the first error
/// is looked at.
pub open spec fn spec_parse_program(ts: Seq<Token>, pos: nat) -> (
    Result<Seq<ItemM>, LangErrorM>,
    nat,
)
{
    spec_program_items(ts, pos, Seq::empty())
}

// ====================
// The models of parse results
// ====================

/// The model of an expression parse result.
pub open spec fn expr_res_m(r: &Result<Expression, LangError>) -> Result<ExprM, LangErrorM> {
    match r {
        Ok(e) => Ok(e.m()),
        Err(e) => Err(e.m()),
    }
}

/// The model of an identifier parse result.
pub open spec fn ident_res_m(r: &Result<Ident, LangError>) -> Result<IdentM, LangErrorM> {
    match r {
        Ok(i) => Ok(i.m()),
        Err(e) => Err(e.m()),
    }
}

/// The model of a type parse result.
pub open spec fn type_res_m(r: &Result<Type, LangError>) -> Result<Type, LangErrorM> {
    match r {
        Ok(t) => Ok(*t),
        Err(e) => Err(e.m()),
    }
}

/// The model of a span (expectation) result.
pub open spec fn span_res_m(r: &Result<Span, LangError>) -> Result<Span, LangErrorM> {
    match r {
        Ok(s) => Ok(*s),
        Err(e) => Err(e.m()),
    }
}

/// The model of a parameter parse result.
pub open spec fn param_res_m(r: &Result<Parameter, LangError>) -> Result<ParameterM, LangErrorM> {
    match r {
        Ok(p) => Ok(p.m()),
        Err(e) => Err(e.m()),
    }
}

/// The model of a parameter-list parse result.
pub open spec fn params_res_m(r: &Result<Vec<Parameter>, LangError>) -> Result<
    Seq<ParameterM>,
    LangErrorM,
> {
    match r {
        Ok(ps) => Ok(params_m(ps@)),
        Err(e) => Err(e.m()),
    }
}

/// The model of an argument-list parse result.
pub open spec fn args_res_m(r: &Result<Vec<Expression>, LangError>) -> Result<
    Seq<ExprM>,
    LangErrorM,
> {
    match r {
        Ok(es) => Ok(exprs_m(es@)),
        Err(e) => Err(e.m()),
    }
}

/// The model of a statement parse result.
pub open spec fn stmt_res_m(r: &Result<Statement, LangError>) -> Result<StatementM, LangErrorM> {
    match r {
        Ok(s) => Ok(s.m()),
        Err(e) => Err(e.m()),
    }
}

/// The model of a block parse result.
pub open spec fn block_res_m(r: &Result<Block, LangError>) -> Result<BlockM, LangErrorM> {
    match r {
        Ok(b) => Ok(b.m()),
        Err(e) => Err(e.m()),
    }
}

/// The model of a function-declaration parse result.
pub open spec fn function_res_m(r: &Result<FunctionDecl, LangError>) -> Result<
    FunctionDeclM,
    LangErrorM,
> {
    match r {
        Ok(f) => Ok(f.m()),
        Err(e) => Err(e.m()),
    }
}

/// The model of an item parse result.
pub open spec fn item_res_m(r: &Result<Item, LangError>) -> Result<ItemM, LangErrorM> {
    match r {
        Ok(it) => Ok(it.m()),
        Err(e) => Err(e.m()),
    }
}

/// The model of a program parse result.
pub open spec fn program_res_m(r: &Result<Program, LangError>) -> Result<Seq<ItemM>, LangErrorM> {
    match r {
        Ok(p) => Ok(items_m(p.items@)),
        Err(e) => Err(e.m()),
    }
}

} // verus!
