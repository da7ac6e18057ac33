//! A plain-text rendering of the syntax tree, one node per line, nested
//! nodes indented below their parent.

use vstd::prelude::*;
use vstd::string::StringExecFns;

use crate::ast::{
    BinaryExpression, BinaryOperator, BinaryOperatorKind, Block, Expression, FlowStatement,
    FunctionDecl, Ident, Item, Literal, LiteralKind, Parameter, PrimaryExpression, PrimitiveKind,
    Program, Statement, Type, UnaryExpression, UnaryExpressionKind, AST,
};

verus! {

/// Nesting never indents further than this many levels; deeper nodes keep
/// the last level's indentation.
pub const MAX_INDENT: usize = 1000;

/// Anything of the syntax tree that can render itself as text.
pub trait PrettyPrint {
    /// The node as text, indented by `indent` levels.
    fn pretty_print(&self, indent: usize) -> String;
}

/// The next indentation level, capped so that arithmetic never overflows.
fn bump(indent: usize) -> (r: usize)
    ensures
        r <= MAX_INDENT,
{
    if indent < MAX_INDENT {
        indent + 1
    } else {
        MAX_INDENT
    }
}

/// Four spaces per indentation level.
fn spaces(indent: usize) -> String {
    let n = if indent < MAX_INDENT {
        indent
    } else {
        MAX_INDENT
    };
    let mut s = String::new();
    let mut i: usize = 0;
    while i < n
        decreases n - i,
    {
        s.append("    ");
        i = i + 1;
    }
    s
}

/// The decimal rendering of a 32-bit integer.
fn int_to_string(v: i32) -> String {
    let mut digits = String::new();
    let mut u: u32 = if v >= 0 {
        v as u32
    } else {
        (-(v as i64)) as u32
    };
    if u == 0 {
        digits.append("0");
        return digits;
    }
    let mut rev = String::new();
    while u > 0
        decreases u,
    {
        let d = u % 10;
        match d {
            0 => rev.append("0"),
            1 => rev.append("1"),
            2 => rev.append("2"),
            3 => rev.append("3"),
            4 => rev.append("4"),
            5 => rev.append("5"),
            6 => rev.append("6"),
            7 => rev.append("7"),
            8 => rev.append("8"),
            _ => rev.append("9"),
        }
        u = u / 10;
    }
    // the digits came out least significant first; put them in order
    let mut s = String::new();
    if v < 0 {
        s.append("-");
    }
    let n = rev.as_str().unicode_len();
    let mut i = n;
    while i > 0
        invariant
            i <= rev@.len(),
        decreases i,
    {
        i = i - 1;
        let piece = rev.as_str().substring_char(i, i + 1);
        s.append(piece);
    }
    s
}

impl PrettyPrint for Ident {
    fn pretty_print(&self, _indent: usize) -> String {
        self.ident.clone()
    }
}

impl PrettyPrint for PrimitiveKind {
    fn pretty_print(&self, _indent: usize) -> String {
        match self {
            PrimitiveKind::Int => String::from_str("int"),
            PrimitiveKind::Float => String::from_str("float"),
            PrimitiveKind::Bool => String::from_str("bool"),
        }
    }
}

impl PrettyPrint for Type {
    fn pretty_print(&self, _indent: usize) -> String {
        match self {
            Type::Primitive(p) => p.kind.pretty_print(0),
        }
    }
}

impl PrettyPrint for BinaryOperator {
    fn pretty_print(&self, _indent: usize) -> String {
        match self.kind {
            BinaryOperatorKind::Add => String::from_str("Add"),
            BinaryOperatorKind::Subtract => String::from_str("Subtract"),
            BinaryOperatorKind::Multiply => String::from_str("Multiply"),
            BinaryOperatorKind::Divide => String::from_str("Divide"),
            BinaryOperatorKind::Modulus => String::from_str("Modulus"),
            BinaryOperatorKind::Equal => String::from_str("Equal"),
            BinaryOperatorKind::NotEqual => String::from_str("NotEqual"),
            BinaryOperatorKind::LessThan => String::from_str("LessThan"),
            BinaryOperatorKind::GreaterThan => String::from_str("GreaterThan"),
            BinaryOperatorKind::LessThanOrEqual => String::from_str("LessThanOrEqual"),
            BinaryOperatorKind::GreaterThanOrEqual => String::from_str("GreaterThanOrEqual"),
            BinaryOperatorKind::And => String::from_str("And"),
            BinaryOperatorKind::Or => String::from_str("Or"),
        }
    }
}

impl PrettyPrint for Literal {
    fn pretty_print(&self, indent: usize) -> String {
        let mut s = spaces(indent);
        match &self.kind {
            LiteralKind::Int(v) => {
                s.append("Int ");
                let d = int_to_string(*v);
                s.append(d.as_str());
            },
            LiteralKind::Float(text) => {
                s.append("Float ");
                s.append(text.as_str());
            },
            LiteralKind::Bool(b) => {
                s.append("Bool ");
                if *b {
                    s.append("true");
                } else {
                    s.append("false");
                }
            },
        }
        s.append("\n");
        s
    }
}

impl PrettyPrint for PrimaryExpression {
    #[verifier::loop_isolation(false)]
    fn pretty_print(&self, indent: usize) -> String
        decreases self,
    {
        match self {
            PrimaryExpression::Literal(l) => l.pretty_print(indent),
            PrimaryExpression::Ident(i) => {
                let mut s = spaces(indent);
                s.append("Ident ");
                s.append(i.ident.as_str());
                s.append("\n");
                s
            },
            PrimaryExpression::Parenthesized(e) => {
                let mut s = spaces(indent);
                s.append("Parenthesized\n");
                let inner = e.pretty_print(bump(indent));
                s.append(inner.as_str());
                s
            },
            PrimaryExpression::FunctionCall(i, args) => {
                let mut s = spaces(indent);
                s.append("FunctionCall ");
                s.append(i.ident.as_str());
                s.append("\n");
                let mut j: usize = 0;
                while j < args.len()
                    decreases args@.len() - j,
                {
                    proof {
                        assert(*args == self->FunctionCall_1);
                        assert(decreases_to!(*self => self->FunctionCall_1));
                        assert(decreases_to!(args@ => args@[j as int]));
                    }
                    let a = args[j].pretty_print(bump(indent));
                    s.append(a.as_str());
                    j = j + 1;
                }
                s
            },
        }
    }
}

impl PrettyPrint for UnaryExpression {
    fn pretty_print(&self, indent: usize) -> String
        decreases self,
    {
        let mut s = spaces(indent);
        match &self.kind {
            UnaryExpressionKind::Negation(e) => {
                s.append("Negation\n");
                let inner = e.pretty_print(bump(indent));
                s.append(inner.as_str());
            },
            UnaryExpressionKind::Not(e) => {
                s.append("Not\n");
                let inner = e.pretty_print(bump(indent));
                s.append(inner.as_str());
            },
        }
        s
    }
}

impl PrettyPrint for BinaryExpression {
    fn pretty_print(&self, indent: usize) -> String
        decreases self,
    {
        let mut s = spaces(indent);
        s.append("BinaryExpression ");
        let op = self.op.pretty_print(0);
        s.append(op.as_str());
        s.append("\n");
        let lhs = self.lhs.pretty_print(bump(indent));
        s.append(lhs.as_str());
        let rhs = self.rhs.pretty_print(bump(indent));
        s.append(rhs.as_str());
        s
    }
}

impl PrettyPrint for Expression {
    fn pretty_print(&self, indent: usize) -> String
        decreases self,
    {
        match self {
            Expression::Primary(p) => p.pretty_print(indent),
            Expression::Unary(u) => u.pretty_print(indent),
            Expression::Binary(b) => b.pretty_print(indent),
        }
    }
}

impl PrettyPrint for Statement {
    fn pretty_print(&self, indent: usize) -> String
        decreases self,
    {
        match self {
            Statement::Expression(e) => e.pretty_print(indent),
            Statement::VariableDecl(v) => {
                let mut s = spaces(indent);
                s.append("VariableDecl ");
                s.append(v.ident.ident.as_str());
                s.append(": ");
                let ty = v.ty.pretty_print(0);
                s.append(ty.as_str());
                s.append(" =\n");
                let e = v.expression.pretty_print(bump(indent));
                s.append(e.as_str());
                s
            },
            Statement::Flow(f) => {
                let mut s = spaces(indent);
                s.append("FlowStatement\n");
                let c = f.condition.pretty_print(bump(indent));
                s.append(c.as_str());
                let b = f.if_block.pretty_print(bump(indent));
                s.append(b.as_str());
                match &f.else_block {
                    Some(e) => {
                        let eb = e.pretty_print(bump(indent));
                        s.append(eb.as_str());
                    },
                    None => {},
                }
                s
            },
            Statement::Return(e) => {
                let mut s = spaces(indent);
                s.append("Return\n");
                match e {
                    Some(e) => {
                        let inner = e.pretty_print(bump(indent));
                        s.append(inner.as_str());
                    },
                    None => {},
                }
                s
            },
        }
    }
}

impl PrettyPrint for Block {
    #[verifier::loop_isolation(false)]
    fn pretty_print(&self, indent: usize) -> String
        decreases self,
    {
        let mut s = spaces(indent);
        s.append("Block\n");
        let mut j: usize = 0;
        while j < self.statements.len()
            decreases self.statements@.len() - j,
        {
            proof {
                assert(decreases_to!(self => self.statements));
                assert(decreases_to!(self.statements@ => self.statements@[j as int]));
            }
            let st = self.statements[j].pretty_print(bump(indent));
            s.append(st.as_str());
            j = j + 1;
        }
        s
    }
}

impl PrettyPrint for Parameter {
    fn pretty_print(&self, _indent: usize) -> String {
        let mut s = String::new();
        s.append(self.ident.ident.as_str());
        s.append(": ");
        let ty = self.ty.pretty_print(0);
        s.append(ty.as_str());
        s
    }
}

impl PrettyPrint for FunctionDecl {
    #[verifier::loop_isolation(false)]
    fn pretty_print(&self, indent: usize) -> String
        decreases self,
    {
        let mut s = spaces(indent);
        s.append("FuncDecl ");
        s.append(self.ident.ident.as_str());
        s.append("(");
        let mut j: usize = 0;
        while j < self.parameters.len()
            decreases self.parameters@.len() - j,
        {
            if j > 0 {
                s.append(", ");
            }
            let p = self.parameters[j].pretty_print(0);
            s.append(p.as_str());
            j = j + 1;
        }
        s.append(") -> ");
        let ty = self.ty.pretty_print(0);
        s.append(ty.as_str());
        s.append(" {\n");
        let b = self.block.pretty_print(bump(indent));
        s.append(b.as_str());
        let close = spaces(indent);
        s.append(close.as_str());
        s.append("}\n");
        s
    }
}

impl PrettyPrint for Item {
    fn pretty_print(&self, indent: usize) -> String
        decreases self,
    {
        match self {
            Item::FunctionDecl(f) => f.pretty_print(indent),
        }
    }
}

impl PrettyPrint for Program {
    #[verifier::loop_isolation(false)]
    fn pretty_print(&self, indent: usize) -> String
        decreases self,
    {
        let mut s = String::from_str("Program\n");
        let mut j: usize = 0;
        while j < self.items.len()
            decreases self.items@.len() - j,
        {
            let it = self.items[j].pretty_print(bump(indent));
            s.append(it.as_str());
            j = j + 1;
        }
        s
    }
}

impl PrettyPrint for AST {
    fn pretty_print(&self, indent: usize) -> String {
        self.program.pretty_print(indent)
    }
}

} // verus!
