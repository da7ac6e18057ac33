//! The abstract syntax tree of the language, with the mathematical models
//! that contracts are stated over.

use vstd::prelude::*;

use crate::token::Span;

verus! {

// ====================
// Operators
// ====================

/// The binary operators of the language.
#[derive(Debug, Clone, Copy, PartialEq, Eq, Structural)]
pub enum BinaryOperatorKind {
    Add,
    Subtract,
    Multiply,
    Divide,
    Modulus,
    Equal,
    NotEqual,
    LessThan,
    GreaterThan,
    LessThanOrEqual,
    GreaterThanOrEqual,
    And,
    Or,
}

/// A binary operator occurrence with its source span.
#[derive(Debug, Clone, Copy, PartialEq, Eq, Structural)]
pub struct BinaryOperator {
    pub kind: BinaryOperatorKind,
    pub span: Span,
}

/// The unary operators of the language.
#[derive(Debug, Clone, Copy, PartialEq, Eq, Structural)]
pub enum UnaryOperatorKind {
    Negate,
    Not,
}

/// A unary operator occurrence with its source span.
#[derive(Debug, Clone, Copy, PartialEq, Eq, Structural)]
pub struct UnaryOperator {
    pub kind: UnaryOperatorKind,
    pub span: Span,
}

/// Binding strength of a binary operator, from `or` (weakest) to the
/// multiplicative operators (strongest).
pub open spec fn spec_precedence(kind: BinaryOperatorKind) -> u8 {
    match kind {
        BinaryOperatorKind::Or => 1u8,
        BinaryOperatorKind::And => 2u8,
        BinaryOperatorKind::Equal => 3u8,
        BinaryOperatorKind::NotEqual => 3u8,
        BinaryOperatorKind::LessThan => 4u8,
        BinaryOperatorKind::GreaterThan => 4u8,
        BinaryOperatorKind::LessThanOrEqual => 4u8,
        BinaryOperatorKind::GreaterThanOrEqual => 4u8,
        BinaryOperatorKind::Add => 5u8,
        BinaryOperatorKind::Subtract => 5u8,
        BinaryOperatorKind::Multiply => 6u8,
        BinaryOperatorKind::Divide => 6u8,
        BinaryOperatorKind::Modulus => 6u8,
    }
}

impl BinaryOperatorKind {
    /// The precedence of the operator.
    pub fn precedence(&self) -> (r: u8)
        ensures
            r == spec_precedence(*self),
    {
        match self {
            BinaryOperatorKind::Or => 1,
            BinaryOperatorKind::And => 2,
            BinaryOperatorKind::Equal | BinaryOperatorKind::NotEqual => 3,
            BinaryOperatorKind::LessThan
            | BinaryOperatorKind::GreaterThan
            | BinaryOperatorKind::LessThanOrEqual
            | BinaryOperatorKind::GreaterThanOrEqual => 4,
            BinaryOperatorKind::Add | BinaryOperatorKind::Subtract => 5,
            BinaryOperatorKind::Multiply | BinaryOperatorKind::Divide | BinaryOperatorKind::Modulus => 6,
        }
    }
}

impl BinaryOperator {
    /// The precedence of the operator.
    pub fn precedence(&self) -> (r: u8)
        ensures
            r == spec_precedence(self.kind),
    {
        self.kind.precedence()
    }
}

// ====================
// Types
// ====================

/// The primitive type kinds.
#[derive(Debug, Clone, Copy, PartialEq, Eq, Structural)]
pub enum PrimitiveKind {
    Int,
    Float,
    Bool,
}

/// A primitive type occurrence; equality of types compares the kind only.
#[derive(Debug, Clone, Copy, PartialEq, Eq, Structural)]
pub struct PrimitiveType {
    pub kind: PrimitiveKind,
    pub span: Span,
}

/// A type of the language; only primitive types exist today, but the
/// variant wraps a structure so that further shapes can be added.
#[derive(Debug, Clone, Copy, PartialEq, Eq, Structural)]
pub enum Type {
    Primitive(PrimitiveType),
}

impl Type {
    /// The kind of this type; two types are the same type exactly when
    /// their kinds agree, wherever they were written.
    pub open spec fn spec_kind(&self) -> PrimitiveKind {
        match self {
            Type::Primitive(p) => p.kind,
        }
    }

    /// The kind of this type.
    pub fn kind(&self) -> (r: PrimitiveKind)
        ensures
            r == self.spec_kind(),
    {
        match self {
            Type::Primitive(p) => p.kind,
        }
    }
}

// ====================
// Identifiers and literals
// ====================

/// An identifier occurrence. Two identifiers name the same thing exactly
/// when their text is equal, wherever they appear.
#[derive(Debug)]
pub struct Ident {
    pub ident: String,
    pub span: Span,
}

impl Clone for Ident {
    /// A clone names the same thing at the same place.
    fn clone(&self) -> (r: Ident)
        ensures
            r.m() == self.m(),
    {
        Ident { ident: self.ident.clone(), span: self.span }
    }
}

/// Mathematical model of an identifier.
pub struct IdentM {
    pub name: Seq<char>,
    pub span: Span,
}

impl Ident {
    /// The model of this identifier.
    pub open spec fn m(&self) -> IdentM {
        IdentM { name: self.ident@, span: self.span }
    }
}

/// The payload of a literal. A float literal carries its source text; no
/// check of the front end reads the numeric value of a float.
#[derive(Debug, Clone)]
pub enum LiteralKind {
    Int(i32),
    Float(String),
    Bool(bool),
}

/// A literal occurrence with its source span.
#[derive(Debug, Clone)]
pub struct Literal {
    pub kind: LiteralKind,
    pub span: Span,
}

/// Mathematical model of a literal payload.
pub enum LiteralKindM {
    Int(i32),
    Float(Seq<char>),
    Bool(bool),
}

/// Mathematical model of a literal.
pub struct LiteralM {
    pub kind: LiteralKindM,
    pub span: Span,
}

impl Literal {
    /// The model of this literal.
    pub open spec fn m(&self) -> LiteralM {
        LiteralM {
            kind: match &self.kind {
                LiteralKind::Int(v) => LiteralKindM::Int(*v),
                LiteralKind::Float(s) => LiteralKindM::Float(s@),
                LiteralKind::Bool(b) => LiteralKindM::Bool(*b),
            },
            span: self.span,
        }
    }
}

// ====================
// Expressions
// ====================

/// A primary expression: the leaves of the expression grammar, plus
/// parenthesized sub-expressions and calls.
#[derive(Debug)]
pub enum PrimaryExpression {
    Literal(Literal),
    Ident(Ident),
    Parenthesized(Box<Expression>),
    FunctionCall(Ident, Vec<Expression>),
}

/// The operand shape of a unary expression.
#[derive(Debug)]
pub enum UnaryExpressionKind {
    Negation(Box<Expression>),
    Not(Box<Expression>),
}

/// A unary expression with its source span.
#[derive(Debug)]
pub struct UnaryExpression {
    pub kind: UnaryExpressionKind,
    pub span: Span,
}

/// A binary expression with its source span.
#[derive(Debug)]
pub struct BinaryExpression {
    pub lhs: Box<Expression>,
    pub op: BinaryOperator,
    pub rhs: Box<Expression>,
    pub span: Span,
}

/// An expression of the language.
#[derive(Debug)]
pub enum Expression {
    Primary(PrimaryExpression),
    Unary(UnaryExpression),
    Binary(BinaryExpression),
}

/// Mathematical model of a primary expression.
pub enum PrimM {
    Literal(LiteralM),
    Ident(IdentM),
    Parenthesized(Box<ExprM>),
    FunctionCall(IdentM, Seq<ExprM>),
}

/// Mathematical model of a unary expression's operand shape.
pub enum UnaryKindM {
    Negation(Box<ExprM>),
    Not(Box<ExprM>),
}

/// Mathematical model of a unary expression.
pub struct UnaryM {
    pub kind: UnaryKindM,
    pub span: Span,
}

/// Mathematical model of a binary expression.
pub struct BinaryM {
    pub lhs: Box<ExprM>,
    pub op: BinaryOperator,
    pub rhs: Box<ExprM>,
    pub span: Span,
}

/// Mathematical model of an expression.
pub enum ExprM {
    Primary(PrimM),
    Unary(UnaryM),
    Binary(BinaryM),
}

/// The models of a sequence of expressions.
pub open spec fn exprs_m(es: Seq<Expression>) -> Seq<ExprM>
    decreases es,
{
    if es.len() == 0 {
        Seq::empty()
    } else {
        exprs_m(es.drop_last()).push(es.last().m())
    }
}

impl Expression {
    /// The model of this expression.
    pub open spec fn m(&self) -> ExprM
        decreases self,
    {
        match self {
            Expression::Primary(p) => ExprM::Primary(p.m()),
            Expression::Unary(u) => ExprM::Unary(u.m()),
            Expression::Binary(b) => ExprM::Binary(b.m()),
        }
    }
}

impl PrimaryExpression {
    /// The model of this primary expression.
    pub open spec fn m(&self) -> PrimM
        decreases self,
    {
        match self {
            PrimaryExpression::Literal(l) => PrimM::Literal(l.m()),
            PrimaryExpression::Ident(i) => PrimM::Ident(i.m()),
            PrimaryExpression::Parenthesized(e) => PrimM::Parenthesized(Box::new(e.m())),
            PrimaryExpression::FunctionCall(i, args) => PrimM::FunctionCall(i.m(), exprs_m(args@)),
        }
    }
}

impl UnaryExpression {
    /// The model of this unary expression.
    pub open spec fn m(&self) -> UnaryM
        decreases self,
    {
        UnaryM {
            kind: match &self.kind {
                UnaryExpressionKind::Negation(e) => UnaryKindM::Negation(Box::new(e.m())),
                UnaryExpressionKind::Not(e) => UnaryKindM::Not(Box::new(e.m())),
            },
            span: self.span,
        }
    }
}

impl BinaryExpression {
    /// The model of this binary expression.
    pub open spec fn m(&self) -> BinaryM
        decreases self,
    {
        BinaryM {
            lhs: Box::new(self.lhs.m()),
            op: self.op,
            rhs: Box::new(self.rhs.m()),
            span: self.span,
        }
    }
}

// ====================
// Statements and blocks
// ====================

/// A variable declaration: `let ident: ty = expression;`.
#[derive(Debug)]
pub struct VariableDecl {
    pub ident: Ident,
    pub ty: Type,
    pub expression: Expression,
    pub span: Span,
}

/// An `if` statement with an optional `else` block.
#[derive(Debug)]
pub struct FlowStatement {
    pub condition: Expression,
    pub if_block: Block,
    pub else_block: Option<Block>,
    pub span: Span,
}

/// A statement of the language.
#[derive(Debug)]
pub enum Statement {
    Expression(Box<Expression>),
    VariableDecl(VariableDecl),
    Flow(FlowStatement),
    Return(Option<Box<Expression>>),
}

/// A brace-delimited sequence of statements.
#[derive(Debug)]
pub struct Block {
    pub statements: Vec<Statement>,
    pub span: Span,
}

/// Mathematical model of a variable declaration.
pub struct VariableDeclM {
    pub ident: IdentM,
    pub ty: Type,
    pub expression: ExprM,
    pub span: Span,
}

/// Mathematical model of an `if` statement.
pub struct FlowM {
    pub condition: ExprM,
    pub if_block: BlockM,
    pub else_block: Option<BlockM>,
    pub span: Span,
}

/// Mathematical model of a statement.
pub enum StatementM {
    Expression(Box<ExprM>),
    VariableDecl(VariableDeclM),
    Flow(Box<FlowM>),
    Return(Option<Box<ExprM>>),
}

/// Mathematical model of a block.
pub struct BlockM {
    pub statements: Seq<StatementM>,
    pub span: Span,
}

/// The models of a sequence of statements.
pub open spec fn stmts_m(ss: Seq<Statement>) -> Seq<StatementM>
    decreases ss,
{
    if ss.len() == 0 {
        Seq::empty()
    } else {
        stmts_m(ss.drop_last()).push(ss.last().m())
    }
}

impl Statement {
    /// The model of this statement.
    pub open spec fn m(&self) -> StatementM
        decreases self,
    {
        match self {
            Statement::Expression(e) => StatementM::Expression(Box::new(e.m())),
            Statement::VariableDecl(v) => StatementM::VariableDecl(v.m()),
            Statement::Flow(f) => StatementM::Flow(Box::new(f.m())),
            Statement::Return(e) => StatementM::Return(
                match e {
                    Some(e) => Some(Box::new(e.m())),
                    None => None,
                },
            ),
        }
    }
}

impl VariableDecl {
    /// The model of this variable declaration.
    pub open spec fn m(&self) -> VariableDeclM
        decreases self,
    {
        VariableDeclM {
            ident: self.ident.m(),
            ty: self.ty,
            expression: self.expression.m(),
            span: self.span,
        }
    }
}

impl FlowStatement {
    /// The model of this `if` statement.
    pub open spec fn m(&self) -> FlowM
        decreases self,
    {
        FlowM {
            condition: self.condition.m(),
            if_block: self.if_block.m(),
            else_block: match &self.else_block {
                Some(b) => Some(b.m()),
                None => None,
            },
            span: self.span,
        }
    }
}

impl Block {
    /// The model of this block.
    pub open spec fn m(&self) -> BlockM
        decreases self,
    {
        BlockM { statements: stmts_m(self.statements@), span: self.span }
    }
}

// ====================
// Functions and programs
// ====================

/// A function parameter: `ident: ty`.
#[derive(Debug)]
pub struct Parameter {
    pub ident: Ident,
    pub ty: Type,
    pub span: Span,
}

/// A function declaration.
#[derive(Debug)]
pub struct FunctionDecl {
    pub ident: Ident,
    pub parameters: Vec<Parameter>,
    pub ty: Type,
    pub block: Block,
    pub span: Span,
}

/// A top-level item; functions are the only items today.
#[derive(Debug)]
pub enum Item {
    FunctionDecl(FunctionDecl),
}

/// A whole source file's worth of items.
#[derive(Debug)]
pub struct Program {
    pub items: Vec<Item>,
}

/// A parsed program together with the identifier of its source file.
#[derive(Debug)]
pub struct AST {
    pub program: Program,
    pub file_id: String,
}

/// The type of a function: its parameter types and its return type.
#[derive(Debug)]
pub struct FunctionType {
    pub parameters: Vec<Type>,
    pub ty: Type,
}

/// Mathematical model of a parameter.
pub struct ParameterM {
    pub ident: IdentM,
    pub ty: Type,
    pub span: Span,
}

/// Mathematical model of a function declaration.
pub struct FunctionDeclM {
    pub ident: IdentM,
    pub parameters: Seq<ParameterM>,
    pub ty: Type,
    pub block: BlockM,
    pub span: Span,
}

/// Mathematical model of a top-level item.
pub enum ItemM {
    FunctionDecl(FunctionDeclM),
}

/// Mathematical model of a program.
pub struct ProgramM {
    pub items: Seq<ItemM>,
}

impl Parameter {
    /// The model of this parameter.
    pub open spec fn m(&self) -> ParameterM {
        ParameterM { ident: self.ident.m(), ty: self.ty, span: self.span }
    }
}

/// The models of a sequence of parameters.
pub open spec fn params_m(ps: Seq<Parameter>) -> Seq<ParameterM>
    decreases ps,
{
    if ps.len() == 0 {
        Seq::empty()
    } else {
        params_m(ps.drop_last()).push(ps.last().m())
    }
}

impl FunctionDecl {
    /// The model of this function declaration.
    pub open spec fn m(&self) -> FunctionDeclM
        decreases self,
    {
        FunctionDeclM {
            ident: self.ident.m(),
            parameters: params_m(self.parameters@),
            ty: self.ty,
            block: self.block.m(),
            span: self.span,
        }
    }
}

impl Item {
    /// The model of this item.
    pub open spec fn m(&self) -> ItemM
        decreases self,
    {
        match self {
            Item::FunctionDecl(f) => ItemM::FunctionDecl(f.m()),
        }
    }
}

/// The models of a sequence of items.
pub open spec fn items_m(is: Seq<Item>) -> Seq<ItemM>
    decreases is,
{
    if is.len() == 0 {
        Seq::empty()
    } else {
        items_m(is.drop_last()).push(is.last().m())
    }
}

impl Program {
    /// The model of this program.
    pub open spec fn m(&self) -> ProgramM
        decreases self,
    {
        ProgramM { items: items_m(self.items@) }
    }
}

// ====================
// Spans of nodes
// ====================

/// Every AST node that can be pointed at in a diagnostic yields a span.
pub trait ASTSpan {
    /// The span of the node, as a specification.
    spec fn spec_span(&self) -> Span;

    /// The span of the node.
    fn span(&self) -> (r: Span)
        ensures
            r == self.spec_span(),
    ;
}

impl ASTSpan for Type {
    open spec fn spec_span(&self) -> Span {
        match self {
            Type::Primitive(p) => p.span,
        }
    }

    fn span(&self) -> (r: Span) {
        match self {
            Type::Primitive(p) => p.span,
        }
    }
}

/// The span of a primary expression model.
pub open spec fn prim_span(p: PrimM) -> Span
    decreases p,
{
    match p {
        PrimM::Literal(l) => l.span,
        PrimM::Ident(i) => i.span,
        PrimM::Parenthesized(e) => expr_span(*e),
        PrimM::FunctionCall(i, _) => i.span,
    }
}

/// The span of an expression model.
pub open spec fn expr_span(e: ExprM) -> Span
    decreases e,
{
    match e {
        ExprM::Primary(p) => prim_span(p),
        ExprM::Unary(u) => u.span,
        ExprM::Binary(b) => b.span,
    }
}

/// The span of a statement model; a bare `return;` has no expression and
/// yields the zero span.
pub open spec fn stmt_span(s: StatementM) -> Span
    decreases s,
{
    match s {
        StatementM::Expression(e) => expr_span(*e),
        StatementM::VariableDecl(v) => v.span,
        StatementM::Flow(f) => f.span,
        StatementM::Return(e) => match e {
            Some(e) => expr_span(*e),
            None => Span { start: 0, end: 0 },
        },
    }
}

impl ASTSpan for PrimaryExpression {
    open spec fn spec_span(&self) -> Span {
        prim_span(self.m())
    }

    fn span(&self) -> (r: Span)
        decreases self,
    {
        match self {
            PrimaryExpression::Literal(l) => l.span,
            PrimaryExpression::Ident(i) => i.span,
            PrimaryExpression::Parenthesized(e) => e.span(),
            PrimaryExpression::FunctionCall(i, _) => i.span,
        }
    }
}

impl ASTSpan for Expression {
    open spec fn spec_span(&self) -> Span {
        expr_span(self.m())
    }

    fn span(&self) -> (r: Span)
        decreases self,
    {
        match self {
            Expression::Primary(p) => p.span(),
            Expression::Unary(u) => u.span,
            Expression::Binary(b) => b.span,
        }
    }
}

impl ASTSpan for Statement {
    open spec fn spec_span(&self) -> Span {
        stmt_span(self.m())
    }

    fn span(&self) -> (r: Span)
        decreases self,
    {
        match self {
            Statement::Expression(e) => e.span(),
            Statement::VariableDecl(v) => v.span,
            Statement::Flow(f) => f.span,
            Statement::Return(e) => match e {
                Some(e) => e.span(),
                None => Span { start: 0, end: 0 },
            },
        }
    }
}

impl Expression {
    /// The trailing binary operator of the expression, if the expression
    /// is a binary expression.
    pub fn binary_operator(&self) -> (r: Option<&BinaryOperator>)
        ensures
            match r {
                Some(op) => self matches Expression::Binary(b) && *op == b.op,
                None => !(self matches Expression::Binary(_)),
            },
    {
        match self {
            Expression::Binary(binary_expr) => Some(&binary_expr.op),
            _ => None,
        }
    }
}

} // verus!
