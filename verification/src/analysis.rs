//! Semantic analysis: scope checking, type checking, return-path analysis,
//! and dead-code detection over a parsed program. The analyzer never stops
//! at the first finding: it walks the whole program and returns every error
//! and warning at once, each specified by a recursive function over the
//! program's model.

use vstd::prelude::*;

use crate::ast::{
    exprs_m, stmts_m, ASTSpan, BinaryExpression, BinaryM, Block, UnaryExpressionKind, UnaryM, BlockM, ExprM, Expression, FlowM, FlowStatement, FunctionDecl,
    FunctionDeclM, Ident, IdentM, Item, ItemM, Literal, LiteralKind, LiteralKindM, LiteralM, PrimM,
    Parameter, ParameterM, PrimaryExpression, PrimitiveKind, PrimitiveType, Program, ProgramM,
    Statement, StatementM, items_m, params_m,
    Type, UnaryExpression, UnaryKindM, VariableDecl, VariableDeclM, BinaryOperatorKind, expr_span,
    prim_span, stmt_span, AST,
};
use crate::errors::{diags_m, lemma_diags_m_len, DiagM, Diagnostic, SemanticError, SemanticErrorM, Warning, WarningM};
use crate::symbols::{
    assoc_fn, assoc_var, lookup_fn, lookup_var, spec_func_symbol, spec_param_types, table_wf,
    FuncSymbolM, ScopeM, SymbolTable, VarSymbol,
};
use crate::token::Span;

verus! {

// ====================
// Return guarantees (structural)
// ====================

/// Whether a statement guarantees a return on every path through it: a
/// `return` always does; an `if` with an `else` does exactly when both
/// branches do; nothing else does.
pub open spec fn stmt_guarantees_return(s: StatementM) -> bool
    decreases s,
{
    match s {
        StatementM::Return(_) => true,
        StatementM::Flow(f) => match f.else_block {
            Some(e) => block_guarantees_return(f.if_block) && block_guarantees_return(e),
            None => false,
        },
        _ => false,
    }
}

/// Whether some statement of the list guarantees a return.
pub open spec fn stmts_guarantee_return(ss: Seq<StatementM>) -> bool
    decreases ss,
{
    ss.len() > 0 && (stmt_guarantees_return(ss[0]) || stmts_guarantee_return(ss.drop_first()))
}

/// Whether every path through the block ends in a `return`.
pub open spec fn block_guarantees_return(b: BlockM) -> bool
    decreases b,
{
    stmts_guarantee_return(b.statements)
}

/// Whether a statement contains a `return` statement at all.
pub open spec fn stmt_has_return(s: StatementM) -> bool
    decreases s,
{
    match s {
        StatementM::Return(_) => true,
        StatementM::Flow(f) => block_has_return(f.if_block) || match f.else_block {
            Some(e) => block_has_return(e),
            None => false,
        },
        _ => false,
    }
}

/// Whether some statement of the list contains a `return`.
pub open spec fn stmts_have_return(ss: Seq<StatementM>) -> bool
    decreases ss,
{
    ss.len() > 0 && (stmt_has_return(ss[0]) || stmts_have_return(ss.drop_first()))
}

/// Whether the block contains a `return` statement at all.
pub open spec fn block_has_return(b: BlockM) -> bool
    decreases b,
{
    stmts_have_return(b.statements)
}

impl Statement {
    /// Whether this statement guarantees a return on every path.
    pub fn guarantees_return(&self) -> (r: bool)
        ensures
            r == stmt_guarantees_return(self.m()),
        decreases self,
    {
        match self {
            Statement::Return(_) => true,
            Statement::Flow(f) => match &f.else_block {
                Some(e) => {
                    let a = f.if_block.guarantees_return();
                    let b = e.guarantees_return();
                    a && b
                },
                None => false,
            },
            _ => false,
        }
    }

    /// Whether this statement contains a `return` at all.
    pub fn has_return(&self) -> (r: bool)
        ensures
            r == stmt_has_return(self.m()),
        decreases self,
    {
        match self {
            Statement::Return(_) => true,
            Statement::Flow(f) => {
                let a = f.if_block.has_return();
                if a {
                    true
                } else {
                    match &f.else_block {
                        Some(e) => e.has_return(),
                        None => false,
                    }
                }
            },
            _ => false,
        }
    }
}

/// Statement models taken from the end of a list agree with the whole
/// list's model.
pub proof fn lemma_stmts_m_len(ss: Seq<Statement>)
    ensures
        stmts_m(ss).len() == ss.len(),
        forall|j: int| 0 <= j < ss.len() ==> #[trigger] stmts_m(ss)[j] == ss[j].m(),
    decreases ss,
{
    if ss.len() > 0 {
        lemma_stmts_m_len(ss.drop_last());
        assert forall|j: int| 0 <= j < ss.len() implies #[trigger] stmts_m(ss)[j] == ss[j].m() by {
            if j < ss.len() - 1 {
                assert(ss.drop_last()[j] == ss[j]);
            }
        }
    }
}

/// Whether some statement of the list, from index `i` on, guarantees a
/// return; guarantee over a suffix, stated on the whole model list.
pub proof fn lemma_stmts_guarantee_skip(ss: Seq<StatementM>, i: int)
    requires
        0 <= i <= ss.len(),
    ensures
        stmts_guarantee_return(ss.skip(i)) == (exists|j: int|
            i <= j < ss.len() && stmt_guarantees_return(#[trigger] ss[j])),
    decreases ss.len() - i,
{
    if i < ss.len() {
        assert(ss.skip(i)[0] == ss[i]);
        assert(ss.skip(i).drop_first() =~= ss.skip(i + 1));
        lemma_stmts_guarantee_skip(ss, i + 1);
        if stmt_guarantees_return(ss[i]) {
            assert(stmts_guarantee_return(ss.skip(i)));
        }
    } else {
        assert(ss.skip(i).len() == 0);
    }
}

impl Block {
    /// Whether every path through this block ends in a `return`.
    #[verifier::loop_isolation(false)]
    pub fn guarantees_return(&self) -> (r: bool)
        ensures
            r == block_guarantees_return(self.m()),
        decreases self,
    {
        proof {
            lemma_stmts_m_len(self.statements@);
        }
        let ghost ms = stmts_m(self.statements@);
        let n = self.statements.len();
        let mut i: usize = 0;
        while i < n
            invariant
                i <= n,
                n == ms.len(),
                ms == stmts_m(self.statements@),
                forall|j: int| 0 <= j < ms.len() ==> #[trigger] ms[j] == self.statements@[j].m(),
                forall|j: int| 0 <= j < i ==> !stmt_guarantees_return(#[trigger] ms[j]),
            decreases n - i,
        {
            proof {
                assert(decreases_to!(self => self.statements));
                assert(decreases_to!(self.statements@ => self.statements@[i as int]));
            }
            if self.statements[i].guarantees_return() {
                proof {
                    assert(ms.skip(0) =~= ms);
                    assert(stmt_guarantees_return(ms[i as int]));
                    lemma_stmts_guarantee_skip(ms, 0);
                }
                return true;
            }
            i = i + 1;
        }
        proof {
            assert(ms.skip(0) =~= ms);
            lemma_stmts_guarantee_skip(ms, 0);
        }
        false
    }

    /// Whether this block contains a `return` at all.
    #[verifier::loop_isolation(false)]
    pub fn has_return(&self) -> (r: bool)
        ensures
            r == block_has_return(self.m()),
        decreases self,
    {
        proof {
            lemma_stmts_m_len(self.statements@);
        }
        let ghost ms = stmts_m(self.statements@);
        let n = self.statements.len();
        let mut i: usize = 0;
        while i < n
            invariant
                i <= n,
                n == ms.len(),
                ms == stmts_m(self.statements@),
                forall|j: int| 0 <= j < ms.len() ==> #[trigger] ms[j] == self.statements@[j].m(),
                forall|j: int| 0 <= j < i ==> !stmt_has_return(#[trigger] ms[j]),
            decreases n - i,
        {
            proof {
                assert(decreases_to!(self => self.statements));
                assert(decreases_to!(self.statements@ => self.statements@[i as int]));
            }
            if self.statements[i].has_return() {
                proof {
                    assert(ms.skip(0) =~= ms);
                    assert(stmt_has_return(ms[i as int]));
                    lemma_stmts_have_return_skip(ms, 0);
                }
                return true;
            }
            i = i + 1;
        }
        proof {
            assert(ms.skip(0) =~= ms);
            lemma_stmts_have_return_skip(ms, 0);
        }
        false
    }
}

/// Whether some statement of the list contains a `return`, as an explicit
/// existence statement.
pub proof fn lemma_stmts_have_return_skip(ss: Seq<StatementM>, i: int)
    requires
        0 <= i <= ss.len(),
    ensures
        stmts_have_return(ss.skip(i)) == (exists|j: int|
            i <= j < ss.len() && stmt_has_return(#[trigger] ss[j])),
    decreases ss.len() - i,
{
    if i < ss.len() {
        assert(ss.skip(i)[0] == ss[i]);
        assert(ss.skip(i).drop_first() =~= ss.skip(i + 1));
        lemma_stmts_have_return_skip(ss, i + 1);
        if stmt_has_return(ss[i]) {
            assert(stmts_have_return(ss.skip(i)));
        }
    } else {
        assert(ss.skip(i).len() == 0);
    }
}

// ====================
// Identifier usage (structural)
// ====================

/// The models of a sequence of identifiers.
pub open spec fn idents_m(is: Seq<Ident>) -> Seq<IdentM>
    decreases is,
{
    if is.len() == 0 {
        Seq::empty()
    } else {
        idents_m(is.drop_last()).push(is.last().m())
    }
}

/// Identifier models agree elementwise with the underlying list.
pub proof fn lemma_idents_m_len(is: Seq<Ident>)
    ensures
        idents_m(is).len() == is.len(),
        forall|j: int| 0 <= j < is.len() ==> #[trigger] idents_m(is)[j] == is[j].m(),
    decreases is,
{
    if is.len() > 0 {
        lemma_idents_m_len(is.drop_last());
        assert forall|j: int| 0 <= j < is.len() implies #[trigger] idents_m(is)[j] == is[j].m() by {
            if j < is.len() - 1 {
                assert(is.drop_last()[j] == is[j]);
            }
        }
    }
}

/// Modelling identifiers distributes over concatenation.
pub proof fn lemma_idents_m_concat(a: Seq<Ident>, b: Seq<Ident>)
    ensures
        idents_m(a + b) == idents_m(a) + idents_m(b),
{
    lemma_idents_m_len(a);
    lemma_idents_m_len(b);
    lemma_idents_m_len(a + b);
    assert(idents_m(a + b) =~= idents_m(a) + idents_m(b));
}

/// The identifiers named by a primary expression, left to right; the
/// callee of a function call names a function, not a variable, and is not
/// among them.
pub open spec fn prim_idents(p: PrimM) -> Seq<IdentM>
    decreases p,
{
    match p {
        PrimM::Literal(_) => Seq::empty(),
        PrimM::Ident(i) => seq![i],
        PrimM::Parenthesized(e) => expr_idents(*e),
        PrimM::FunctionCall(_, args) => exprs_idents(args),
    }
}

/// The identifiers named by a list of expressions, left to right.
pub open spec fn exprs_idents(es: Seq<ExprM>) -> Seq<IdentM>
    decreases es,
{
    if es.len() == 0 {
        Seq::empty()
    } else {
        exprs_idents(es.drop_last()) + expr_idents(es.last())
    }
}

/// The identifiers named by an expression, left to right.
pub open spec fn expr_idents(e: ExprM) -> Seq<IdentM>
    decreases e,
{
    match e {
        ExprM::Primary(p) => prim_idents(p),
        ExprM::Unary(u) => match u.kind {
            UnaryKindM::Negation(e) => expr_idents(*e),
            UnaryKindM::Not(e) => expr_idents(*e),
        },
        ExprM::Binary(b) => expr_idents(*b.lhs) + expr_idents(*b.rhs),
    }
}

/// Expression models taken from a list agree with the whole list's model.
pub proof fn lemma_exprs_m_len(es: Seq<Expression>)
    ensures
        exprs_m(es).len() == es.len(),
        forall|j: int| 0 <= j < es.len() ==> #[trigger] exprs_m(es)[j] == es[j].m(),
    decreases es,
{
    if es.len() > 0 {
        lemma_exprs_m_len(es.drop_last());
        assert forall|j: int| 0 <= j < es.len() implies #[trigger] exprs_m(es)[j] == es[j].m() by {
            if j < es.len() - 1 {
                assert(es.drop_last()[j] == es[j]);
            }
        }
    }
}

impl PrimaryExpression {
    /// The identifiers this primary expression names, left to right.
    #[verifier::loop_isolation(false)]
    pub fn idents_used(&self) -> (r: Vec<Ident>)
        ensures
            idents_m(r@) == prim_idents(self.m()),
        decreases self,
    {
        match self {
            PrimaryExpression::Literal(_) => {
                let r: Vec<Ident> = Vec::new();
                proof {
                    assert(idents_m(r@) =~= Seq::<IdentM>::empty());
                }
                r
            },
            PrimaryExpression::Ident(i) => {
                let c = i.clone();
                let mut r: Vec<Ident> = Vec::new();
                r.push(c);
                proof {
                    assert(r@.drop_last() =~= Seq::<Ident>::empty());
                    assert(idents_m(r@.drop_last()) == Seq::<IdentM>::empty());
                    assert(idents_m(r@) == idents_m(r@.drop_last()).push(r@.last().m()));
                    assert(idents_m(r@) =~= seq![i.m()]);
                }
                r
            },
            PrimaryExpression::Parenthesized(e) => e.idents_used(),
            PrimaryExpression::FunctionCall(_, args) => {
                let ghost margs = exprs_m(args@);
                proof {
                    lemma_exprs_m_len(args@);
                }
                let mut r: Vec<Ident> = Vec::new();
                let mut i: usize = 0;
                proof {
                    assert(idents_m(r@) =~= Seq::<IdentM>::empty());
                    assert(margs.take(0) =~= Seq::<ExprM>::empty());
                }
                while i < args.len()
                    invariant
                        i <= args@.len(),
                        margs == exprs_m(args@),
                        margs.len() == args@.len(),
                        forall|j: int| 0 <= j < args@.len() ==> #[trigger] margs[j] == args@[j].m(),
                        idents_m(r@) == exprs_idents(margs.take(i as int)),
                    decreases args@.len() - i,
                {
                    proof {
                        assert(*args == self->FunctionCall_1);
                        assert(decreases_to!(*self => self->FunctionCall_1));
                        assert(decreases_to!(args@ => args@[i as int]));
                    }
                    let mut sub = args[i].idents_used();
                    let ghost rpre = r@;
                    let ghost subpre = sub@;
                    r.append(&mut sub);
                    proof {
                        lemma_idents_m_concat(rpre, subpre);
                        assert(margs.take(i as int + 1).drop_last() =~= margs.take(i as int));
                        assert(margs.take(i as int + 1).last() == margs[i as int]);
                    }
                    i = i + 1;
                }
                proof {
                    assert(margs.take(args@.len() as int) =~= margs);
                }
                r
            },
        }
    }
}

impl UnaryExpression {
    /// The identifiers this unary expression names.
    pub fn idents_used(&self) -> (r: Vec<Ident>)
        ensures
            idents_m(r@) == expr_idents(ExprM::Unary(self.m())),
        decreases self,
    {
        match &self.kind {
            UnaryExpressionKind::Negation(e) => e.idents_used(),
            UnaryExpressionKind::Not(e) => e.idents_used(),
        }
    }
}

impl BinaryExpression {
    /// The identifiers this binary expression names, left to right.
    pub fn idents_used(&self) -> (r: Vec<Ident>)
        ensures
            idents_m(r@) == expr_idents(ExprM::Binary(self.m())),
        decreases self,
    {
        let mut r = self.lhs.idents_used();
        let mut rhs = self.rhs.idents_used();
        let ghost rpre = r@;
        let ghost rhspre = rhs@;
        r.append(&mut rhs);
        proof {
            lemma_idents_m_concat(rpre, rhspre);
        }
        r
    }
}

impl Expression {
    /// The identifiers this expression names, left to right.
    pub fn idents_used(&self) -> (r: Vec<Ident>)
        ensures
            idents_m(r@) == expr_idents(self.m()),
        decreases self,
    {
        match self {
            Expression::Primary(p) => p.idents_used(),
            Expression::Unary(u) => u.idents_used(),
            Expression::Binary(b) => b.idents_used(),
        }
    }
}

/// The identifiers named anywhere in a statement, nested blocks included.
pub open spec fn stmt_deep_idents(s: StatementM) -> Seq<IdentM>
    decreases s,
{
    match s {
        StatementM::Expression(e) => expr_idents(*e),
        StatementM::VariableDecl(v) => expr_idents(v.expression),
        StatementM::Flow(f) => expr_idents(f.condition) + block_deep_idents(f.if_block) + match f.else_block {
            Some(e) => block_deep_idents(e),
            None => Seq::empty(),
        },
        StatementM::Return(e) => match e {
            Some(e) => expr_idents(*e),
            None => Seq::empty(),
        },
    }
}

/// The identifiers named anywhere in a list of statements.
pub open spec fn stmts_deep_idents(ss: Seq<StatementM>) -> Seq<IdentM>
    decreases ss,
{
    if ss.len() == 0 {
        Seq::empty()
    } else {
        stmts_deep_idents(ss.drop_last()) + stmt_deep_idents(ss.last())
    }
}

/// The identifiers named anywhere in a block.
pub open spec fn block_deep_idents(b: BlockM) -> Seq<IdentM>
    decreases b,
{
    stmts_deep_idents(b.statements)
}

impl Statement {
    /// The identifiers this statement names, nested blocks included.
    pub fn idents_used(&self) -> (r: Vec<Ident>)
        ensures
            idents_m(r@) == stmt_deep_idents(self.m()),
        decreases self,
    {
        match self {
            Statement::Expression(e) => e.idents_used(),
            Statement::VariableDecl(v) => v.expression.idents_used(),
            Statement::Flow(f) => {
                let mut r = f.condition.idents_used();
                let mut b1 = f.if_block.idents_used();
                let ghost rpre = r@;
                let ghost b1pre = b1@;
                r.append(&mut b1);
                proof {
                    lemma_idents_m_concat(rpre, b1pre);
                }
                match &f.else_block {
                    Some(e) => {
                        let mut b2 = e.idents_used();
                        let ghost rpre2 = r@;
                        let ghost b2pre = b2@;
                        r.append(&mut b2);
                        proof {
                            lemma_idents_m_concat(rpre2, b2pre);
                        }
                        r
                    },
                    None => {
                        proof {
                            assert(idents_m(r@) + Seq::<IdentM>::empty() =~= idents_m(r@));
                        }
                        r
                    },
                }
            },
            Statement::Return(e) => match e {
                Some(e) => e.idents_used(),
                None => {
                    let r: Vec<Ident> = Vec::new();
                    proof {
                        assert(idents_m(r@) =~= Seq::<IdentM>::empty());
                    }
                    r
                },
            },
        }
    }
}

impl Block {
    /// The identifiers this block names, nested blocks included.
    #[verifier::loop_isolation(false)]
    pub fn idents_used(&self) -> (r: Vec<Ident>)
        ensures
            idents_m(r@) == block_deep_idents(self.m()),
        decreases self,
    {
        let ghost ms = stmts_m(self.statements@);
        proof {
            lemma_stmts_m_len(self.statements@);
        }
        let mut r: Vec<Ident> = Vec::new();
        let mut i: usize = 0;
        proof {
            assert(idents_m(r@) =~= Seq::<IdentM>::empty());
            assert(ms.take(0) =~= Seq::<StatementM>::empty());
        }
        while i < self.statements.len()
            invariant
                i <= self.statements@.len(),
                idents_m(r@) == stmts_deep_idents(ms.take(i as int)),
            decreases self.statements@.len() - i,
        {
            proof {
                assert(decreases_to!(self => self.statements));
                assert(decreases_to!(self.statements@ => self.statements@[i as int]));
            }
            let mut sub = self.statements[i].idents_used();
            let ghost rpre = r@;
            let ghost subpre = sub@;
            r.append(&mut sub);
            proof {
                lemma_idents_m_concat(rpre, subpre);
                assert(ms.take(i as int + 1).drop_last() =~= ms.take(i as int));
                assert(ms.take(i as int + 1).last() == ms[i as int]);
            }
            i = i + 1;
        }
        proof {
            assert(ms.take(self.statements@.len() as int) =~= ms);
        }
        r
    }
}

/// Whether some identifier of the list is named `name`.
pub open spec fn names_contain(ids: Seq<IdentM>, name: Seq<char>) -> bool {
    exists|j: int| 0 <= j < ids.len() && #[trigger] ids[j].name == name
}

/// Whether a list of identifiers contains one named `name`.
#[verifier::loop_isolation(false)]
pub fn idents_contain(ids: &Vec<Ident>, name: &String) -> (r: bool)
    ensures
        r == names_contain(idents_m(ids@), name@),
{
    proof {
        lemma_idents_m_len(ids@);
    }
    let mut i: usize = 0;
    while i < ids.len()
        invariant
            i <= ids@.len(),
            forall|j: int| 0 <= j < i ==> #[trigger] idents_m(ids@)[j].name != name@,
        decreases ids@.len() - i,
    {
        if crate::token::str_eq(ids[i].ident.as_str(), name.as_str()) {
            proof {
                assert(idents_m(ids@)[i as int].name == name@);
            }
            return true;
        }
        i = i + 1;
    }
    false
}

// ====================
// Unreachable and unused code (structural)
// ====================

/// The index of the first statement that guarantees a return, if any.
pub open spec fn first_guarantee(ss: Seq<StatementM>, i: int) -> Option<int>
    decreases ss.len() - i,
        when 0 <= i <= ss.len()
{
    if i >= ss.len() {
        None
    } else if stmt_guarantees_return(ss[i]) {
        Some(i)
    } else {
        first_guarantee(ss, i + 1)
    }
}

/// The unreachable-code warnings of one block, nested blocks not
/// included: where some statement guarantees a return and statements
/// follow it, the statements after that point can never execute and are
/// reported once, with a span from the first unreachable statement to the
/// last statement of the block.
pub open spec fn spec_unreachable_warns(b: BlockM) -> Seq<DiagM> {
    match first_guarantee(b.statements, 0) {
        Some(k) => if k + 1 < b.statements.len() {
            seq![
                DiagM::Warning(
                    WarningM::UnreachableCode(
                        crate::token::spec_combine(
                            stmt_span(b.statements[k + 1]),
                            stmt_span(b.statements[b.statements.len() - 1]),
                        ),
                    ),
                ),
            ]
        } else {
            Seq::empty()
        },
        None => Seq::empty(),
    }
}

/// Whether some statement in `[from, to)` declares a variable named
/// `name`.
pub open spec fn decl_in_range(ss: Seq<StatementM>, from: int, to: int, name: Seq<char>) -> bool {
    exists|j: int|
        from <= j < to && j < ss.len() && match #[trigger] ss[j] {
            StatementM::VariableDecl(v) => v.ident.name == name,
            _ => false,
        }
}

/// Whether some statement in `[from, to)` names `name` in any of its
/// expressions, nested blocks included.
pub open spec fn used_in_range(ss: Seq<StatementM>, from: int, to: int, name: Seq<char>) -> bool {
    exists|j: int|
        from <= j < to && j < ss.len() && names_contain(
            stmt_deep_idents(#[trigger] ss[j]),
            name,
        )
}

/// Whether a name starts with an underscore, which opts it out of the
/// unused-variable warning.
pub open spec fn starts_underscore(name: Seq<char>) -> bool {
    name.len() > 0 && name[0] == '_'
}

/// Whether the variable declared by statement `i` should be reported
/// unused: it is the block's only declaration of that name (a redeclared
/// name already produced an error), its name does not start with an
/// underscore, and neither its own initializer nor any later statement of
/// the block names it.
pub open spec fn unused_at(ss: Seq<StatementM>, i: int) -> bool {
    0 <= i < ss.len() && match ss[i] {
        StatementM::VariableDecl(v) => !decl_in_range(ss, 0, i, v.ident.name) && !decl_in_range(
            ss,
            i + 1,
            ss.len() as int,
            v.ident.name,
        ) && !starts_underscore(v.ident.name) && !used_in_range(
            ss,
            i,
            ss.len() as int,
            v.ident.name,
        ),
        _ => false,
    }
}

/// The unused-variable warnings of one block, in declaration order,
/// nested blocks not included.
pub open spec fn spec_unused_warns_from(ss: Seq<StatementM>, i: int) -> Seq<DiagM>
    decreases ss.len() - i,
        when 0 <= i <= ss.len()
{
    if i >= ss.len() {
        Seq::empty()
    } else {
        (if unused_at(ss, i) {
            match ss[i] {
                StatementM::VariableDecl(v) => seq![
                    DiagM::Warning(WarningM::UnusedVariable(v.ident, v.ident.span)),
                ],
                _ => Seq::empty(),
            }
        } else {
            Seq::empty()
        }) + spec_unused_warns_from(ss, i + 1)
    }
}

/// The unused-variable warnings of one block.
pub open spec fn spec_unused_warns(b: BlockM) -> Seq<DiagM> {
    spec_unused_warns_from(b.statements, 0)
}


// ====================
// Type inference
// ====================

/// The type of a literal: its primitive kind, at the literal's location.
pub open spec fn spec_lit_type(l: LiteralM) -> Type {
    Type::Primitive(
        PrimitiveType {
            kind: match l.kind {
                LiteralKindM::Int(_) => PrimitiveKind::Int,
                LiteralKindM::Float(_) => PrimitiveKind::Float,
                LiteralKindM::Bool(_) => PrimitiveKind::Bool,
            },
            span: l.span,
        },
    )
}

/// Whether a binary operator compares its operands; a comparison yields a
/// boolean whatever the operand type.
pub open spec fn spec_is_comparison(k: BinaryOperatorKind) -> bool {
    match k {
        BinaryOperatorKind::Equal => true,
        BinaryOperatorKind::NotEqual => true,
        BinaryOperatorKind::LessThan => true,
        BinaryOperatorKind::GreaterThan => true,
        BinaryOperatorKind::LessThanOrEqual => true,
        BinaryOperatorKind::GreaterThanOrEqual => true,
        _ => false,
    }
}

/// The inferred type of a primary expression, or the first inference
/// failure: an identifier's type is its nearest binding's type, a call's
/// type is the callee's declared return type.
pub open spec fn spec_prim_type(p: PrimM, scopes: Seq<ScopeM>, cur: int) -> Result<
    Type,
    SemanticErrorM,
>
    decreases p,
{
    match p {
        PrimM::Literal(l) => Ok(spec_lit_type(l)),
        PrimM::Ident(i) => match lookup_var(scopes, cur, i.name) {
            Some(v) => Ok(v.ty),
            None => Err(SemanticErrorM::VariableNotDeclared(i, i.span)),
        },
        PrimM::Parenthesized(e) => spec_expr_type(*e, scopes, cur),
        PrimM::FunctionCall(i, _) => match lookup_fn(scopes, cur, i.name) {
            Some(f) => Ok(f.ret_ty),
            None => Err(SemanticErrorM::FunctionNotDeclared(i, i.span)),
        },
    }
}

/// The inferred type of an expression, or the first inference failure. A
/// binary expression requires both sides to have the same kind; the six
/// comparison operators yield a boolean, every other operator yields the
/// operand type.
pub open spec fn spec_expr_type(e: ExprM, scopes: Seq<ScopeM>, cur: int) -> Result<
    Type,
    SemanticErrorM,
>
    decreases e,
{
    match e {
        ExprM::Primary(p) => spec_prim_type(p, scopes, cur),
        ExprM::Unary(u) => match u.kind {
            UnaryKindM::Negation(e) => spec_expr_type(*e, scopes, cur),
            UnaryKindM::Not(e) => spec_expr_type(*e, scopes, cur),
        },
        ExprM::Binary(b) => match spec_expr_type(*b.lhs, scopes, cur) {
            Err(err) => Err(err),
            Ok(lt) => match spec_expr_type(*b.rhs, scopes, cur) {
                Err(err) => Err(err),
                Ok(rt) => if lt.spec_kind() != rt.spec_kind() {
                    Err(
                        SemanticErrorM::TypesDoNotMatch {
                            expected_type: lt,
                            expected_span: expr_span(*b.lhs),
                            found_type: rt,
                            found_span: expr_span(*b.rhs),
                        },
                    )
                } else if spec_is_comparison(b.op.kind) {
                    Ok(Type::Primitive(PrimitiveType { kind: PrimitiveKind::Bool, span: b.span }))
                } else {
                    Ok(lt)
                },
            },
        },
    }
}

/// The model of a typing result.
pub open spec fn type_res_m(r: &Result<Type, SemanticError>) -> Result<Type, SemanticErrorM> {
    match r {
        Ok(t) => Ok(*t),
        Err(e) => Err(e.m()),
    }
}

impl Literal {
    /// The type of this literal.
    pub fn get_type(&self) -> (r: Type)
        ensures
            r == spec_lit_type(self.m()),
    {
        match &self.kind {
            LiteralKind::Int(_) => Type::Primitive(
                PrimitiveType { kind: PrimitiveKind::Int, span: self.span },
            ),
            LiteralKind::Float(_) => Type::Primitive(
                PrimitiveType { kind: PrimitiveKind::Float, span: self.span },
            ),
            LiteralKind::Bool(_) => Type::Primitive(
                PrimitiveType { kind: PrimitiveKind::Bool, span: self.span },
            ),
        }
    }
}

impl PrimaryExpression {
    /// The inferred type of this primary expression, or the first
    /// inference failure.
    pub fn get_type(&self, table: &SymbolTable, scope: usize) -> (r: Result<Type, SemanticError>)
        requires
            table.wf(),
            scope < table.m().len(),
        ensures
            type_res_m(&r) == spec_prim_type(self.m(), table.m(), scope as int),
        decreases self,
    {
        match self {
            PrimaryExpression::Literal(l) => Ok(l.get_type()),
            PrimaryExpression::Ident(i) => match table.get_var(scope, i) {
                Some(v) => Ok(v.ty),
                None => Err(SemanticError::VariableNotDeclared(i.clone(), i.span)),
            },
            PrimaryExpression::Parenthesized(e) => e.get_type(table, scope),
            PrimaryExpression::FunctionCall(i, _) => match table.get_fn(scope, i) {
                Some(f) => Ok(f.ret_ty),
                None => Err(SemanticError::FunctionNotDeclared(i.clone(), i.span)),
            },
        }
    }
}

impl UnaryExpression {
    /// The inferred type of this unary expression: the type of its
    /// operand.
    pub fn get_type(&self, table: &SymbolTable, scope: usize) -> (r: Result<Type, SemanticError>)
        requires
            table.wf(),
            scope < table.m().len(),
        ensures
            type_res_m(&r) == spec_expr_type(ExprM::Unary(self.m()), table.m(), scope as int),
        decreases self,
    {
        match &self.kind {
            UnaryExpressionKind::Negation(e) => e.get_type(table, scope),
            UnaryExpressionKind::Not(e) => e.get_type(table, scope),
        }
    }
}

impl BinaryExpression {
    /// The inferred type of this binary expression: both sides must have
    /// one kind; comparisons yield a boolean, other operators the operand
    /// type.
    pub fn get_type(&self, table: &SymbolTable, scope: usize) -> (r: Result<Type, SemanticError>)
        requires
            table.wf(),
            scope < table.m().len(),
        ensures
            type_res_m(&r) == spec_expr_type(ExprM::Binary(self.m()), table.m(), scope as int),
        decreases self,
    {
        let lt = match self.lhs.get_type(table, scope) {
            Ok(t) => t,
            Err(e) => {
                return Err(e);
            },
        };
        let rt = match self.rhs.get_type(table, scope) {
            Ok(t) => t,
            Err(e) => {
                return Err(e);
            },
        };
        if !kind_eq(lt.kind(), rt.kind()) {
            Err(
                SemanticError::TypesDoNotMatch {
                    expected_type: lt,
                    expected_span: self.lhs.span(),
                    found_type: rt,
                    found_span: self.rhs.span(),
                },
            )
        } else if self.op.kind.is_comparison() {
            Ok(Type::Primitive(PrimitiveType { kind: PrimitiveKind::Bool, span: self.span }))
        } else {
            Ok(lt)
        }
    }
}

impl Expression {
    /// The inferred type of this expression, or the first inference
    /// failure.
    pub fn get_type(&self, table: &SymbolTable, scope: usize) -> (r: Result<Type, SemanticError>)
        requires
            table.wf(),
            scope < table.m().len(),
        ensures
            type_res_m(&r) == spec_expr_type(self.m(), table.m(), scope as int),
        decreases self,
    {
        match self {
            Expression::Primary(p) => p.get_type(table, scope),
            Expression::Unary(u) => u.get_type(table, scope),
            Expression::Binary(b) => b.get_type(table, scope),
        }
    }
}

/// Compares two primitive kinds.
pub fn kind_eq(a: PrimitiveKind, b: PrimitiveKind) -> (r: bool)
    ensures
        r == (a == b),
{
    a == b
}

impl BinaryOperatorKind {
    /// Whether this operator compares its operands.
    pub fn is_comparison(&self) -> (r: bool)
        ensures
            r == spec_is_comparison(*self),
    {
        match self {
            BinaryOperatorKind::Equal
            | BinaryOperatorKind::NotEqual
            | BinaryOperatorKind::LessThan
            | BinaryOperatorKind::GreaterThan
            | BinaryOperatorKind::LessThanOrEqual
            | BinaryOperatorKind::GreaterThanOrEqual => true,
            _ => false,
        }
    }
}


// ====================
// Expression checking
// ====================

/// Modelling one pushed diagnostic.
pub proof fn lemma_diags_m_push(ds: Seq<Diagnostic>, d: Diagnostic)
    ensures
        diags_m(ds.push(d)) == diags_m(ds).push(d.m()),
{
    assert(ds.push(d).drop_last() =~= ds);
    assert(ds.push(d).last() == d);
}

/// The model of a one-diagnostic list.
pub proof fn lemma_diags_m_single(ds: Seq<Diagnostic>)
    requires
        ds.len() == 1,
    ensures
        diags_m(ds) == seq![ds[0].m()],
{
    assert(ds.drop_last() =~= Seq::<Diagnostic>::empty());
    assert(diags_m(ds.drop_last()) == Seq::<DiagM>::empty());
    assert(ds.last() == ds[0]);
    assert(diags_m(ds) =~= seq![ds[0].m()]);
}

/// Modelling diagnostics distributes over concatenation.
pub proof fn lemma_diags_m_concat(a: Seq<Diagnostic>, b: Seq<Diagnostic>)
    ensures
        diags_m(a + b) == diags_m(a) + diags_m(b),
{
    lemma_diags_m_len(a);
    lemma_diags_m_len(b);
    lemma_diags_m_len(a + b);
    assert(diags_m(a + b) =~= diags_m(a) + diags_m(b));
}

/// Whether a type may be the operand of a binary operator; every primitive
/// kind of the language may.
pub open spec fn spec_valid_operand(t: Type) -> bool {
    match t.spec_kind() {
        PrimitiveKind::Int => true,
        PrimitiveKind::Float => true,
        PrimitiveKind::Bool => true,
    }
}

/// The written symbol of a binary operator.
pub open spec fn spec_binop_symbol(k: BinaryOperatorKind) -> Seq<char> {
    match k {
        BinaryOperatorKind::Add => "+"@,
        BinaryOperatorKind::Subtract => "-"@,
        BinaryOperatorKind::Multiply => "*"@,
        BinaryOperatorKind::Divide => "/"@,
        BinaryOperatorKind::Modulus => "%"@,
        BinaryOperatorKind::And => "&&"@,
        BinaryOperatorKind::Or => "||"@,
        BinaryOperatorKind::Equal => "=="@,
        BinaryOperatorKind::NotEqual => "!="@,
        BinaryOperatorKind::LessThan => "<"@,
        BinaryOperatorKind::LessThanOrEqual => "<="@,
        BinaryOperatorKind::GreaterThan => ">"@,
        BinaryOperatorKind::GreaterThanOrEqual => ">="@,
    }
}

impl BinaryOperatorKind {
    /// The written symbol of this operator.
    pub fn symbol(&self) -> (r: String)
        ensures
            r@ == spec_binop_symbol(*self),
    {
        match self {
            BinaryOperatorKind::Add => String::from_str("+"),
            BinaryOperatorKind::Subtract => String::from_str("-"),
            BinaryOperatorKind::Multiply => String::from_str("*"),
            BinaryOperatorKind::Divide => String::from_str("/"),
            BinaryOperatorKind::Modulus => String::from_str("%"),
            BinaryOperatorKind::And => String::from_str("&&"),
            BinaryOperatorKind::Or => String::from_str("||"),
            BinaryOperatorKind::Equal => String::from_str("=="),
            BinaryOperatorKind::NotEqual => String::from_str("!="),
            BinaryOperatorKind::LessThan => String::from_str("<"),
            BinaryOperatorKind::LessThanOrEqual => String::from_str("<="),
            BinaryOperatorKind::GreaterThan => String::from_str(">"),
            BinaryOperatorKind::GreaterThanOrEqual => String::from_str(">="),
        }
    }
}

/// The findings for a call's arguments from position `j` on: each argument
/// whose type cannot be inferred contributes its inference failure, and
/// each argument whose kind differs from the declared parameter's kind
/// contributes a type mismatch.
pub open spec fn spec_call_arg_diags(
    args: Seq<ExprM>,
    params: Seq<Type>,
    scopes: Seq<ScopeM>,
    cur: int,
    j: int,
) -> Seq<DiagM>
    decreases args.len() - j,
        when 0 <= j <= args.len()
{
    if j >= args.len() {
        Seq::empty()
    } else {
        (match spec_expr_type(args[j], scopes, cur) {
            Err(e) => seq![DiagM::Error(e)],
            Ok(t) => if t.spec_kind() != params[j].spec_kind() {
                seq![
                    DiagM::Error(
                        SemanticErrorM::TypesDoNotMatch {
                            expected_type: params[j],
                            expected_span: params[j].spec_span(),
                            found_type: t,
                            found_span: expr_span(args[j]),
                        },
                    ),
                ]
            } else {
                Seq::empty()
            },
        }) + spec_call_arg_diags(args, params, scopes, cur, j + 1)
    }
}

/// The findings of the recursive expression check. The leaves report
/// nothing: a bare identifier or literal is checked only where a
/// surrounding construct asks for its type. A call is checked against its
/// callee's declaration; a unary operator against its operand's kind; a
/// binary operator requires both operand kinds to agree.
pub open spec fn spec_analyze_expr(e: ExprM, scopes: Seq<ScopeM>, cur: int) -> Seq<DiagM>
    decreases e,
{
    match e {
        ExprM::Primary(p) => match p {
            PrimM::Literal(_) => Seq::empty(),
            PrimM::Ident(_) => Seq::empty(),
            PrimM::Parenthesized(inner) => spec_analyze_expr(*inner, scopes, cur),
            PrimM::FunctionCall(i, args) => match lookup_fn(scopes, cur, i.name) {
                None => seq![DiagM::Error(SemanticErrorM::FunctionNotDeclared(i, i.span))],
                Some(f) => if f.params.len() != args.len() {
                    seq![
                        DiagM::Error(
                            SemanticErrorM::ArgumentCountMismatch {
                                expected: f.params.len() as usize,
                                found: args.len() as usize,
                                call_span: i.span,
                                decl_span: f.span,
                            },
                        ),
                    ]
                } else {
                    spec_call_arg_diags(args, f.params, scopes, cur, 0)
                },
            },
        },
        ExprM::Unary(u) => match u.kind {
            UnaryKindM::Negation(inner) => match spec_expr_type(*inner, scopes, cur) {
                Err(err) => seq![DiagM::Error(err)],
                Ok(t) => if t.spec_kind() == PrimitiveKind::Int || t.spec_kind()
                    == PrimitiveKind::Float {
                    Seq::empty()
                } else {
                    seq![
                        DiagM::Error(
                            SemanticErrorM::UnsupportedUnaryOperation {
                                operator: "Negation"@,
                                operand_type: t,
                                span: u.span,
                            },
                        ),
                    ]
                },
            },
            UnaryKindM::Not(inner) => match spec_expr_type(*inner, scopes, cur) {
                Err(err) => seq![DiagM::Error(err)],
                Ok(t) => if t.spec_kind() == PrimitiveKind::Bool {
                    Seq::empty()
                } else {
                    seq![
                        DiagM::Error(
                            SemanticErrorM::UnsupportedUnaryOperation {
                                operator: "Not"@,
                                operand_type: t,
                                span: u.span,
                            },
                        ),
                    ]
                },
            },
        },
        ExprM::Binary(b) => match spec_expr_type(*b.lhs, scopes, cur) {
            Err(err) => seq![DiagM::Error(err)],
            Ok(lt) => match spec_expr_type(*b.rhs, scopes, cur) {
                Err(err) => seq![DiagM::Error(err)],
                Ok(rt) => (if lt.spec_kind() != rt.spec_kind() {
                    seq![
                        DiagM::Error(
                            SemanticErrorM::TypesDoNotMatch {
                                expected_type: lt,
                                expected_span: expr_span(*b.lhs),
                                found_type: rt,
                                found_span: expr_span(*b.rhs),
                            },
                        ),
                    ]
                } else {
                    Seq::empty()
                }) + (if spec_valid_operand(lt) {
                    Seq::empty()
                } else {
                    seq![
                        DiagM::Error(
                            SemanticErrorM::UnsupportedBinaryOperation {
                                operator: spec_binop_symbol(b.op.kind),
                                operand_type: lt,
                                span: b.span,
                            },
                        ),
                    ]
                }) + (if spec_valid_operand(rt) {
                    Seq::empty()
                } else {
                    seq![
                        DiagM::Error(
                            SemanticErrorM::UnsupportedBinaryOperation {
                                operator: spec_binop_symbol(b.op.kind),
                                operand_type: rt,
                                span: b.span,
                            },
                        ),
                    ]
                }),
            },
        },
    }
}

impl PrimaryExpression {
    /// Checks a function call against its callee's declaration: the callee
    /// must be declared, the argument count must match, and each argument
    /// must have the declared parameter's kind.
    #[verifier::loop_isolation(false)]
    fn analyze_fn_call(&self, table: &SymbolTable, scope: usize) -> (r: Vec<Diagnostic>)
        requires
            table.wf(),
            scope < table.m().len(),
            self matches PrimaryExpression::FunctionCall(_, _),
        ensures
            diags_m(r@) == spec_analyze_expr(ExprM::Primary(self.m()), table.m(), scope as int),
        decreases self,
    {
        match self {
            PrimaryExpression::FunctionCall(ident, args) => {
                let ghost margs = exprs_m(args@);
                proof {
                    lemma_exprs_m_len(args@);
                }
                match table.get_fn(scope, ident) {
                    None => {
                        let mut r: Vec<Diagnostic> = Vec::new();
                        r.push(
                            Diagnostic::Error(
                                SemanticError::FunctionNotDeclared(ident.clone(), ident.span),
                            ),
                        );
                        proof {
                            lemma_diags_m_single(r@);
                        }
                        r
                    },
                    Some(f) => {
                        if f.params.len() != args.len() {
                            let mut r: Vec<Diagnostic> = Vec::new();
                            r.push(
                                Diagnostic::Error(
                                    SemanticError::ArgumentCountMismatch {
                                        expected: f.params.len(),
                                        found: args.len(),
                                        call_span: ident.span,
                                        decl_span: f.span,
                                    },
                                ),
                            );
                            proof {
                                lemma_diags_m_single(r@);
                                assert(diags_m(r@) =~= seq![
                                    DiagM::Error(
                                        SemanticErrorM::ArgumentCountMismatch {
                                            expected: f.m().params.len() as usize,
                                            found: margs.len() as usize,
                                            call_span: ident.m().span,
                                            decl_span: f.m().span,
                                        },
                                    ),
                                ]);
                            }
                            r
                        } else {
                            let ghost params = f.m().params;
                            let mut r: Vec<Diagnostic> = Vec::new();
                            let mut j: usize = 0;
                            proof {
                                assert(diags_m(r@) =~= Seq::<DiagM>::empty());
                            }
                            while j < args.len()
                                invariant
                                    j <= args@.len(),
                                    spec_call_arg_diags(margs, params, table.m(), scope as int, 0)
                                        == diags_m(r@) + spec_call_arg_diags(
                                        margs,
                                        params,
                                        table.m(),
                                        scope as int,
                                        j as int,
                                    ),
                                decreases args@.len() - j,
                            {
                                let step: Option<Diagnostic> = match args[j].get_type(
                                    table,
                                    scope,
                                ) {
                                    Err(e) => Some(Diagnostic::Error(e)),
                                    Ok(t) => {
                                        if !kind_eq(t.kind(), f.params[j].kind()) {
                                            Some(
                                                Diagnostic::Error(
                                                    SemanticError::TypesDoNotMatch {
                                                        expected_type: f.params[j],
                                                        expected_span: f.params[j].span(),
                                                        found_type: t,
                                                        found_span: args[j].span(),
                                                    },
                                                ),
                                            )
                                        } else {
                                            None
                                        }
                                    },
                                };
                                let ghost rpre = r@;
                                match step {
                                    Some(d) => {
                                        let ghost dm = d.m();
                                        proof {
                                            lemma_diags_m_push(rpre, d);
                                        }
                                        r.push(d);
                                        proof {
                                            assert(diags_m(r@) =~= diags_m(rpre) + seq![dm]);
                                        }
                                    },
                                    None => {
                                    },
                                }
                                proof {
                                    assert(diags_m(r@) + spec_call_arg_diags(
                                        margs,
                                        params,
                                        table.m(),
                                        scope as int,
                                        j as int + 1,
                                    ) =~= diags_m(rpre) + spec_call_arg_diags(
                                        margs,
                                        params,
                                        table.m(),
                                        scope as int,
                                        j as int,
                                    ));
                                }
                                j = j + 1;
                            }
                            proof {
                                assert(spec_call_arg_diags(
                                    margs,
                                    params,
                                    table.m(),
                                    scope as int,
                                    margs.len() as int,
                                ) =~= Seq::<DiagM>::empty());
                                assert(diags_m(r@) + Seq::<DiagM>::empty() =~= diags_m(r@));
                            }
                            r
                        }
                    },
                }
            },
            _ => {
                proof {
                    assert(false);
                }
                Vec::new()
            },
        }
    }

    /// The findings of checking this primary expression.
    pub fn analyze(&self, table: &SymbolTable, scope: usize) -> (r: Vec<Diagnostic>)
        requires
            table.wf(),
            scope < table.m().len(),
        ensures
            diags_m(r@) == spec_analyze_expr(ExprM::Primary(self.m()), table.m(), scope as int),
        decreases self,
    {
        match self {
            PrimaryExpression::Literal(_) => {
                let r: Vec<Diagnostic> = Vec::new();
                proof {
                    assert(diags_m(r@) =~= Seq::<DiagM>::empty());
                }
                r
            },
            PrimaryExpression::Ident(_) => {
                let r: Vec<Diagnostic> = Vec::new();
                proof {
                    assert(diags_m(r@) =~= Seq::<DiagM>::empty());
                }
                r
            },
            PrimaryExpression::Parenthesized(e) => e.analyze(table, scope),
            PrimaryExpression::FunctionCall(_, _) => self.analyze_fn_call(table, scope),
        }
    }
}

impl UnaryExpression {
    /// Checks a negation: the operand must be numeric.
    fn analyze_negation(&self, table: &SymbolTable, scope: usize) -> (r: Vec<Diagnostic>)
        requires
            table.wf(),
            scope < table.m().len(),
            self.kind matches UnaryExpressionKind::Negation(_),
        ensures
            diags_m(r@) == spec_analyze_expr(ExprM::Unary(self.m()), table.m(), scope as int),
        decreases self,
    {
        let expr = match &self.kind {
            UnaryExpressionKind::Negation(e) => e,
            UnaryExpressionKind::Not(e) => e,
        };
        let mut r: Vec<Diagnostic> = Vec::new();
        match expr.get_type(table, scope) {
            Err(e) => {
                r.push(Diagnostic::Error(e));
                proof {
                    lemma_diags_m_single(r@);
                    assert(diags_m(r@) =~= spec_analyze_expr(
                        ExprM::Unary(self.m()),
                        table.m(),
                        scope as int,
                    ));
                }
            },
            Ok(t) => {
                let k = t.kind();
                if !(kind_eq(k, PrimitiveKind::Int) || kind_eq(k, PrimitiveKind::Float)) {
                    r.push(
                        Diagnostic::Error(
                            SemanticError::UnsupportedUnaryOperation {
                                operator: String::from_str("Negation"),
                                operand_type: t,
                                span: self.span,
                            },
                        ),
                    );
                    proof {
                        lemma_diags_m_single(r@);
                        assert(diags_m(r@) =~= spec_analyze_expr(
                            ExprM::Unary(self.m()),
                            table.m(),
                            scope as int,
                        ));
                    }
                } else {
                    proof {
                        assert(diags_m(r@) =~= Seq::<DiagM>::empty());
                    }
                }
            },
        }
        r
    }

    /// Checks a logical not: the operand must be boolean.
    fn analyze_not(&self, table: &SymbolTable, scope: usize) -> (r: Vec<Diagnostic>)
        requires
            table.wf(),
            scope < table.m().len(),
            self.kind matches UnaryExpressionKind::Not(_),
        ensures
            diags_m(r@) == spec_analyze_expr(ExprM::Unary(self.m()), table.m(), scope as int),
        decreases self,
    {
        let expr = match &self.kind {
            UnaryExpressionKind::Negation(e) => e,
            UnaryExpressionKind::Not(e) => e,
        };
        let mut r: Vec<Diagnostic> = Vec::new();
        match expr.get_type(table, scope) {
            Err(e) => {
                r.push(Diagnostic::Error(e));
                proof {
                    lemma_diags_m_single(r@);
                    assert(diags_m(r@) =~= spec_analyze_expr(
                        ExprM::Unary(self.m()),
                        table.m(),
                        scope as int,
                    ));
                }
            },
            Ok(t) => {
                if !kind_eq(t.kind(), PrimitiveKind::Bool) {
                    r.push(
                        Diagnostic::Error(
                            SemanticError::UnsupportedUnaryOperation {
                                operator: String::from_str("Not"),
                                operand_type: t,
                                span: self.span,
                            },
                        ),
                    );
                    proof {
                        lemma_diags_m_single(r@);
                        assert(diags_m(r@) =~= spec_analyze_expr(
                            ExprM::Unary(self.m()),
                            table.m(),
                            scope as int,
                        ));
                    }
                } else {
                    proof {
                        assert(diags_m(r@) =~= Seq::<DiagM>::empty());
                    }
                }
            },
        }
        r
    }

    /// The findings of checking this unary expression.
    pub fn analyze(&self, table: &SymbolTable, scope: usize) -> (r: Vec<Diagnostic>)
        requires
            table.wf(),
            scope < table.m().len(),
        ensures
            diags_m(r@) == spec_analyze_expr(ExprM::Unary(self.m()), table.m(), scope as int),
        decreases self,
    {
        match &self.kind {
            UnaryExpressionKind::Negation(_) => self.analyze_negation(table, scope),
            UnaryExpressionKind::Not(_) => self.analyze_not(table, scope),
        }
    }
}

impl BinaryExpression {
    /// The findings of checking this binary expression: both operand kinds
    /// must agree and be valid operand kinds.
    pub fn analyze(&self, table: &SymbolTable, scope: usize) -> (r: Vec<Diagnostic>)
        requires
            table.wf(),
            scope < table.m().len(),
        ensures
            diags_m(r@) == spec_analyze_expr(ExprM::Binary(self.m()), table.m(), scope as int),
        decreases self,
    {
        let mut r: Vec<Diagnostic> = Vec::new();
        let lt = match self.lhs.get_type(table, scope) {
            Ok(t) => t,
            Err(e) => {
                r.push(Diagnostic::Error(e));
                proof {
                    lemma_diags_m_single(r@);
                    assert(diags_m(r@) =~= spec_analyze_expr(
                        ExprM::Binary(self.m()),
                        table.m(),
                        scope as int,
                    ));
                }
                return r;
            },
        };
        let rt = match self.rhs.get_type(table, scope) {
            Ok(t) => t,
            Err(e) => {
                r.push(Diagnostic::Error(e));
                proof {
                    lemma_diags_m_single(r@);
                    assert(diags_m(r@) =~= spec_analyze_expr(
                        ExprM::Binary(self.m()),
                        table.m(),
                        scope as int,
                    ));
                }
                return r;
            },
        };
        if !kind_eq(lt.kind(), rt.kind()) {
            r.push(
                Diagnostic::Error(
                    SemanticError::TypesDoNotMatch {
                        expected_type: lt,
                        expected_span: self.lhs.span(),
                        found_type: rt,
                        found_span: self.rhs.span(),
                    },
                ),
            );
        }
        // both operand kinds are valid today; the check stays so that a
        // future non-operand type is reported here
        let lv = match lt.kind() {
            PrimitiveKind::Int => true,
            PrimitiveKind::Float => true,
            PrimitiveKind::Bool => true,
        };
        if !lv {
            r.push(
                Diagnostic::Error(
                    SemanticError::UnsupportedBinaryOperation {
                        operator: self.op.kind.symbol(),
                        operand_type: lt,
                        span: self.span,
                    },
                ),
            );
        }
        let rv = match rt.kind() {
            PrimitiveKind::Int => true,
            PrimitiveKind::Float => true,
            PrimitiveKind::Bool => true,
        };
        if !rv {
            r.push(
                Diagnostic::Error(
                    SemanticError::UnsupportedBinaryOperation {
                        operator: self.op.kind.symbol(),
                        operand_type: rt,
                        span: self.span,
                    },
                ),
            );
        }
        proof {
            if lt.spec_kind() != rt.spec_kind() {
                lemma_diags_m_single(r@);
            } else {
                assert(diags_m(r@) =~= Seq::<DiagM>::empty());
            }
            let ghost full = spec_analyze_expr(ExprM::Binary(self.m()), table.m(), scope as int);
            assert(full =~= diags_m(r@) + Seq::<DiagM>::empty() + Seq::<DiagM>::empty());
            assert(diags_m(r@) =~= full);
        }
        r
    }
}

impl Expression {
    /// The findings of checking this expression.
    pub fn analyze(&self, table: &SymbolTable, scope: usize) -> (r: Vec<Diagnostic>)
        requires
            table.wf(),
            scope < table.m().len(),
        ensures
            diags_m(r@) == spec_analyze_expr(self.m(), table.m(), scope as int),
        decreases self,
    {
        match self {
            Expression::Primary(p) => p.analyze(table, scope),
            Expression::Unary(u) => u.analyze(table, scope),
            Expression::Binary(b) => b.analyze(table, scope),
        }
    }
}


// ====================
// Statement and block checking
// ====================

/// The effect of binding a variable: a redeclaration error and an
/// unchanged table, or no finding and the extended scope.
pub open spec fn spec_add_var(scopes: Seq<ScopeM>, cur: int, v: VariableDeclM) -> (
    Seq<DiagM>,
    Seq<ScopeM>,
) {
    match assoc_var(scopes[cur].vars, v.ident.name) {
        Some(existing) => (
            seq![
                DiagM::Error(
                    SemanticErrorM::VariableAlreadyDeclared(v.ident, v.span, existing.span),
                ),
            ],
            scopes,
        ),
        None => (
            Seq::empty(),
            scopes.update(
                cur,
                ScopeM {
                    vars: scopes[cur].vars.push(
                        (v.ident.name, VarSymbol { ty: v.ty, span: v.span }),
                    ),
                    funcs: scopes[cur].funcs,
                    parent: scopes[cur].parent,
                },
            ),
        ),
    }
}

/// The effect of binding a parameter, like that of binding a variable.
pub open spec fn spec_add_param(scopes: Seq<ScopeM>, cur: int, p: ParameterM) -> (
    Seq<DiagM>,
    Seq<ScopeM>,
) {
    match assoc_var(scopes[cur].vars, p.ident.name) {
        Some(existing) => (
            seq![
                DiagM::Error(
                    SemanticErrorM::VariableAlreadyDeclared(p.ident, p.span, existing.span),
                ),
            ],
            scopes,
        ),
        None => (
            Seq::empty(),
            scopes.update(
                cur,
                ScopeM {
                    vars: scopes[cur].vars.push(
                        (p.ident.name, VarSymbol { ty: p.ty, span: p.span }),
                    ),
                    funcs: scopes[cur].funcs,
                    parent: scopes[cur].parent,
                },
            ),
        ),
    }
}

/// The findings for a variable declaration: the binding's effect, then the
/// declared type checked against the initializer's inferred type. The
/// initializer is typed in the scope that already holds the new binding.
pub open spec fn spec_vardecl_check(v: VariableDeclM, scopes: Seq<ScopeM>, cur: int) -> (
    Seq<DiagM>,
    Seq<ScopeM>,
) {
    let (d1, s1) = spec_add_var(scopes, cur, v);
    let d2 = match spec_expr_type(v.expression, s1, cur) {
        Err(e) => seq![DiagM::Error(e)],
        Ok(t) => if t.spec_kind() != v.ty.spec_kind() {
            seq![
                DiagM::Error(
                    SemanticErrorM::TypesDoNotMatch {
                        expected_type: v.ty,
                        expected_span: v.ty.spec_span(),
                        found_type: t,
                        found_span: expr_span(v.expression),
                    },
                ),
            ]
        } else {
            Seq::empty()
        },
    };
    (d1 + d2, s1)
}

/// The findings for an `if` statement: the condition must type as a
/// boolean; a condition whose type cannot be inferred reports only that
/// failure, and the branches are then skipped; otherwise both branches are
/// checked, each in its own child scope.
pub open spec fn spec_flow_check(f: FlowM, scopes: Seq<ScopeM>, cur: int) -> (
    Seq<DiagM>,
    Seq<ScopeM>,
)
    decreases f,
{
    match spec_expr_type(f.condition, scopes, cur) {
        Err(e) => (seq![DiagM::Error(e)], scopes),
        Ok(t) => {
            let d0 = if t.spec_kind() != PrimitiveKind::Bool {
                seq![
                    DiagM::Error(
                        SemanticErrorM::NonBooleanCondition {
                            found_type: t,
                            found_span: expr_span(f.condition),
                        },
                    ),
                ]
            } else {
                Seq::<DiagM>::empty()
            };
            let (d1, s1) = spec_block_check(f.if_block, scopes, cur);
            match f.else_block {
                Some(e) => {
                    let (d2, s2) = spec_block_check(e, s1, cur);
                    (d0 + d1 + d2, s2)
                },
                None => (d0 + d1, s1),
            }
        },
    }
}

/// The findings for one statement, and the table it leaves behind.
pub open spec fn spec_stmt_check(s: StatementM, scopes: Seq<ScopeM>, cur: int) -> (
    Seq<DiagM>,
    Seq<ScopeM>,
)
    decreases s,
{
    match s {
        StatementM::Expression(e) => (spec_analyze_expr(*e, scopes, cur), scopes),
        StatementM::VariableDecl(v) => spec_vardecl_check(v, scopes, cur),
        StatementM::Flow(f) => spec_flow_check(*f, scopes, cur),
        StatementM::Return(e) => (
            match e {
                Some(e) => spec_analyze_expr(*e, scopes, cur),
                None => Seq::empty(),
            },
            scopes,
        ),
    }
}

/// The findings for a list of statements, checked in order, each seeing
/// the bindings the ones before it introduced.
pub open spec fn spec_stmts_check(ss: Seq<StatementM>, scopes: Seq<ScopeM>, cur: int) -> (
    Seq<DiagM>,
    Seq<ScopeM>,
)
    decreases ss,
{
    if ss.len() == 0 {
        (Seq::empty(), scopes)
    } else {
        let (d1, s1) = spec_stmt_check(ss[0], scopes, cur);
        let (d2, s2) = spec_stmts_check(ss.drop_first(), s1, cur);
        (d1 + d2, s2)
    }
}

/// The findings for a block: its statements are checked in a fresh child
/// scope, then unreachable statements and unused variables of this block
/// are reported.
pub open spec fn spec_block_check(b: BlockM, scopes: Seq<ScopeM>, cur: int) -> (
    Seq<DiagM>,
    Seq<ScopeM>,
)
    decreases b,
{
    let child = scopes.len() as int;
    let s0 = scopes.push(ScopeM { vars: Seq::empty(), funcs: Seq::empty(), parent: Some(cur) });
    let (d, s1) = spec_stmts_check(b.statements, s0, child);
    (d + spec_unreachable_warns(b) + spec_unused_warns(b), s1)
}

impl Block {
    /// The unreachable-code warning of this block, if statements follow a
    /// point where a return is already guaranteed.
    #[verifier::loop_isolation(false)]
    pub fn unreachable_warnings(&self) -> (r: Vec<Diagnostic>)
        ensures
            diags_m(r@) == spec_unreachable_warns(self.m()),
    {
        let ghost ms = stmts_m(self.statements@);
        proof {
            lemma_stmts_m_len(self.statements@);
        }
        let n = self.statements.len();
        let mut k: usize = 0;
        while k < n
            invariant
                k <= n,
                first_guarantee(ms, 0) == first_guarantee(ms, k as int),
            decreases n - k,
        {
            proof {
                assert(decreases_to!(self => self.statements));
                assert(decreases_to!(self.statements@ => self.statements@[k as int]));
            }
            if self.statements[k].guarantees_return() {
                break ;
            }
            k = k + 1;
        }
        let mut r: Vec<Diagnostic> = Vec::new();
        if k < n {
            proof {
                assert(first_guarantee(ms, k as int) == Some(k as int));
            }
            if k + 1 < n {
                let a = self.statements[k + 1].span();
                let b = self.statements[n - 1].span();
                r.push(Diagnostic::Warning(Warning::UnreachableCode(Span::combine(&a, &b))));
                proof {
                    lemma_diags_m_single(r@);
                    assert(diags_m(r@) =~= spec_unreachable_warns(self.m()));
                }
            } else {
                proof {
                    assert(diags_m(r@) =~= Seq::<DiagM>::empty());
                }
            }
        } else {
            proof {
                assert(first_guarantee(ms, k as int) is None);
                assert(diags_m(r@) =~= Seq::<DiagM>::empty());
            }
        }
        r
    }
}

/// Whether some statement in `[from, to)` of the list declares a variable
/// named `name`.
#[verifier::loop_isolation(false)]
fn decl_in_between(stmts: &Vec<Statement>, from: usize, to: usize, name: &String) -> (r: bool)
    requires
        to <= stmts@.len(),
    ensures
        r == decl_in_range(stmts_m(stmts@), from as int, to as int, name@),
{
    let ghost ms = stmts_m(stmts@);
    proof {
        lemma_stmts_m_len(stmts@);
    }
    if from >= to {
        proof {
            assert(!decl_in_range(ms, from as int, to as int, name@));
        }
        return false;
    }
    let mut j = from;
    while j < to
        invariant
            from <= j <= to,
            forall|q: int|
                from <= q < j ==> !(match #[trigger] ms[q] {
                    StatementM::VariableDecl(v) => v.ident.name == name@,
                    _ => false,
                }),
        decreases to - j,
    {
        match &stmts[j] {
            Statement::VariableDecl(v) => {
                if crate::token::str_eq(v.ident.ident.as_str(), name.as_str()) {
                    proof {
                        assert(ms[j as int] matches StatementM::VariableDecl(vm) && vm.ident.name
                            == name@);
                    }
                    return true;
                }
            },
            _ => {},
        }
        j = j + 1;
    }
    false
}

/// Whether some statement in `[from, to)` of the list names `name` in any
/// of its expressions, nested blocks included.
#[verifier::loop_isolation(false)]
fn used_in_between(stmts: &Vec<Statement>, from: usize, to: usize, name: &String) -> (r: bool)
    requires
        to <= stmts@.len(),
    ensures
        r == used_in_range(stmts_m(stmts@), from as int, to as int, name@),
{
    let ghost ms = stmts_m(stmts@);
    proof {
        lemma_stmts_m_len(stmts@);
    }
    if from >= to {
        proof {
            assert(!used_in_range(ms, from as int, to as int, name@));
        }
        return false;
    }
    let mut j = from;
    while j < to
        invariant
            from <= j <= to,
            forall|q: int|
                from <= q < j ==> !names_contain(stmt_deep_idents(#[trigger] ms[q]), name@),
        decreases to - j,
    {
        let ids = stmts[j].idents_used();
        if idents_contain(&ids, name) {
            proof {
                assert(names_contain(stmt_deep_idents(ms[j as int]), name@));
            }
            return true;
        }
        j = j + 1;
    }
    false
}

/// Whether a name starts with an underscore.
fn name_starts_underscore(name: &String) -> (r: bool)
    ensures
        r == starts_underscore(name@),
{
    let s = name.as_str();
    if s.unicode_len() > 0 {
        s.get_char(0) == '_'
    } else {
        false
    }
}

impl Block {
    /// The unused-variable warnings of this block, in declaration order.
    #[verifier::loop_isolation(false)]
    pub fn unused_warnings(&self) -> (r: Vec<Diagnostic>)
        ensures
            diags_m(r@) == spec_unused_warns(self.m()),
    {
        let ghost ms = stmts_m(self.statements@);
        proof {
            lemma_stmts_m_len(self.statements@);
        }
        let n = self.statements.len();
        let mut r: Vec<Diagnostic> = Vec::new();
        let mut i: usize = 0;
        proof {
            assert(diags_m(r@) =~= Seq::<DiagM>::empty());
        }
        while i < n
            invariant
                i <= n,
                spec_unused_warns_from(ms, 0) == diags_m(r@) + spec_unused_warns_from(
                    ms,
                    i as int,
                ),
            decreases n - i,
        {
            let ghost rpre = r@;
            match &self.statements[i] {
                Statement::VariableDecl(v) => {
                    let name = &v.ident.ident;
                    let declared_before = decl_in_between(&self.statements, 0, i, name);
                    let declared_after = decl_in_between(&self.statements, i + 1, n, name);
                    let underscored = name_starts_underscore(name);
                    let used = used_in_between(&self.statements, i, n, name);
                    if !declared_before && !declared_after && !underscored && !used {
                        proof {
                            assert(unused_at(ms, i as int));
                        }
                        let d = Diagnostic::Warning(
                            Warning::UnusedVariable(v.ident.clone(), v.ident.span),
                        );
                        proof {
                            lemma_diags_m_push(rpre, d);
                        }
                        r.push(d);
                        proof {
                            assert(diags_m(r@) + spec_unused_warns_from(ms, i as int + 1)
                                =~= diags_m(rpre) + spec_unused_warns_from(ms, i as int));
                        }
                    } else {
                        proof {
                            assert(!unused_at(ms, i as int));
                            assert(diags_m(r@) + spec_unused_warns_from(ms, i as int + 1)
                                =~= diags_m(rpre) + spec_unused_warns_from(ms, i as int));
                        }
                    }
                },
                _ => {
                    proof {
                        assert(!unused_at(ms, i as int));
                        assert(diags_m(r@) + spec_unused_warns_from(ms, i as int + 1) =~= diags_m(
                            rpre,
                        ) + spec_unused_warns_from(ms, i as int));
                    }
                },
            }
            i = i + 1;
        }
        proof {
            assert(spec_unused_warns_from(ms, n as int) =~= Seq::<DiagM>::empty());
            assert(diags_m(r@) + Seq::<DiagM>::empty() =~= diags_m(r@));
        }
        r
    }
}

impl VariableDecl {
    /// Checks this declaration: binds the variable, then checks the
    /// declared type against the initializer's inferred type.
    pub fn analyze(&self, table: &mut SymbolTable, scope: usize) -> (r: Vec<Diagnostic>)
        requires
            old(table).wf(),
            scope < old(table).m().len(),
        ensures
            final(table).wf(),
            old(table).m().len() <= final(table).m().len(),
            (diags_m(r@), final(table).m()) == spec_vardecl_check(
                self.m(),
                old(table).m(),
                scope as int,
            ),
    {
        let mut r: Vec<Diagnostic> = Vec::new();
        match table.add_var(scope, self) {
            Ok(()) => {
                proof {
                    assert(diags_m(r@) =~= Seq::<DiagM>::empty());
                }
            },
            Err(e) => {
                r.push(Diagnostic::Error(e));
                proof {
                    lemma_diags_m_single(r@);
                }
            },
        }
        let ghost d1 = diags_m(r@);
        let ghost s1 = table.m();
        match self.expression.get_type(table, scope) {
            Err(e) => {
                let d = Diagnostic::Error(e);
                proof {
                    lemma_diags_m_push(r@, d);
                }
                r.push(d);
            },
            Ok(t) => {
                if !kind_eq(t.kind(), self.ty.kind()) {
                    let d = Diagnostic::Error(
                        SemanticError::TypesDoNotMatch {
                            expected_type: self.ty,
                            expected_span: self.ty.span(),
                            found_type: t,
                            found_span: self.expression.span(),
                        },
                    );
                    proof {
                        lemma_diags_m_push(r@, d);
                    }
                    r.push(d);
                }
            },
        }
        proof {
            assert(diags_m(r@) =~= spec_vardecl_check(self.m(), old(table).m(), scope as int).0);
        }
        r
    }
}

impl FlowStatement {
    /// Checks this `if` statement: the condition must be boolean, and each
    /// branch is checked in its own child scope.
    pub fn analyze(&self, table: &mut SymbolTable, scope: usize) -> (r: Vec<Diagnostic>)
        requires
            old(table).wf(),
            scope < old(table).m().len(),
        ensures
            final(table).wf(),
            old(table).m().len() <= final(table).m().len(),
            (diags_m(r@), final(table).m()) == spec_flow_check(
                self.m(),
                old(table).m(),
                scope as int,
            ),
        decreases self,
    {
        let mut r: Vec<Diagnostic> = Vec::new();
        match self.condition.get_type(table, scope) {
            Err(e) => {
                r.push(Diagnostic::Error(e));
                proof {
                    lemma_diags_m_single(r@);
                }
                return r;
            },
            Ok(t) => {
                if !kind_eq(t.kind(), PrimitiveKind::Bool) {
                    let d = Diagnostic::Error(
                        SemanticError::NonBooleanCondition {
                            found_type: t,
                            found_span: self.condition.span(),
                        },
                    );
                    proof {
                        lemma_diags_m_push(r@, d);
                    }
                    r.push(d);
                    proof {
                        lemma_diags_m_single(r@);
                    }
                } else {
                    proof {
                        assert(diags_m(r@) =~= Seq::<DiagM>::empty());
                    }
                }
            },
        }
        let ghost d0 = diags_m(r@);
        let mut d1 = self.if_block.analyze(table, scope);
        let ghost d1m = diags_m(d1@);
        let ghost rpre = r@;
        let ghost d1pre = d1@;
        r.append(&mut d1);
        proof {
            lemma_diags_m_concat(rpre, d1pre);
        }
        match &self.else_block {
            Some(e) => {
                let mut d2 = e.analyze(table, scope);
                let ghost rpre2 = r@;
                let ghost d2pre = d2@;
                r.append(&mut d2);
                proof {
                    lemma_diags_m_concat(rpre2, d2pre);
                    assert(diags_m(r@) =~= d0 + d1m + diags_m(d2pre));
                }
            },
            None => {
                proof {
                    assert(diags_m(r@) =~= d0 + d1m);
                }
            },
        }
        r
    }
}

impl Statement {
    /// Checks this statement, and leaves behind whatever bindings it
    /// introduced.
    pub fn analyze(&self, table: &mut SymbolTable, scope: usize) -> (r: Vec<Diagnostic>)
        requires
            old(table).wf(),
            scope < old(table).m().len(),
        ensures
            final(table).wf(),
            old(table).m().len() <= final(table).m().len(),
            (diags_m(r@), final(table).m()) == spec_stmt_check(
                self.m(),
                old(table).m(),
                scope as int,
            ),
        decreases self,
    {
        match self {
            Statement::Expression(e) => e.analyze(table, scope),
            Statement::VariableDecl(v) => v.analyze(table, scope),
            Statement::Flow(f) => f.analyze(table, scope),
            Statement::Return(e) => match e {
                Some(e) => e.analyze(table, scope),
                None => {
                    let r: Vec<Diagnostic> = Vec::new();
                    proof {
                        assert(diags_m(r@) =~= Seq::<DiagM>::empty());
                    }
                    r
                },
            },
        }
    }
}

impl Block {
    /// Checks this block: every statement in order within a fresh child
    /// scope, then the block's unreachable statements and unused
    /// variables.
    #[verifier::loop_isolation(false)]
    pub fn analyze(&self, table: &mut SymbolTable, scope: usize) -> (r: Vec<Diagnostic>)
        requires
            old(table).wf(),
            scope < old(table).m().len(),
        ensures
            final(table).wf(),
            old(table).m().len() <= final(table).m().len(),
            (diags_m(r@), final(table).m()) == spec_block_check(
                self.m(),
                old(table).m(),
                scope as int,
            ),
        decreases self,
    {
        let ghost scopes0 = old(table).m();
        let child = table.child(scope);
        let ghost s0 = table.m();
        let ghost ms = stmts_m(self.statements@);
        proof {
            lemma_stmts_m_len(self.statements@);
            assert(ms.skip(0) =~= ms);
        }
        let mut r: Vec<Diagnostic> = Vec::new();
        proof {
            assert(diags_m(r@) =~= Seq::<DiagM>::empty());
            assert(Seq::<DiagM>::empty() + spec_stmts_check(ms, s0, child as int).0
                =~= spec_stmts_check(ms, s0, child as int).0);
        }
        let mut i: usize = 0;
        while i < self.statements.len()
            invariant
                i <= self.statements@.len(),
                table.wf(),
                child < table.m().len(),
                spec_stmts_check(ms, s0, child as int).0 == diags_m(r@) + spec_stmts_check(
                    ms.skip(i as int),
                    table.m(),
                    child as int,
                ).0,
                spec_stmts_check(ms, s0, child as int).1 == spec_stmts_check(
                    ms.skip(i as int),
                    table.m(),
                    child as int,
                ).1,
            decreases self.statements@.len() - i,
        {
            let ghost pre = table.m();
            let ghost rest = ms.skip(i as int);
            proof {
                assert(decreases_to!(self => self.statements));
                assert(decreases_to!(self.statements@ => self.statements@[i as int]));
                assert(rest[0] == ms[i as int]);
                assert(rest.drop_first() =~= ms.skip(i as int + 1));
            }
            let mut d = self.statements[i].analyze(table, child);
            let ghost rpre = r@;
            let ghost dpre = d@;
            r.append(&mut d);
            proof {
                lemma_diags_m_concat(rpre, dpre);
                assert(diags_m(r@) + spec_stmts_check(
                    ms.skip(i as int + 1),
                    table.m(),
                    child as int,
                ).0 =~= diags_m(rpre) + spec_stmts_check(rest, pre, child as int).0);
            }
            i = i + 1;
        }
        proof {
            assert(ms.skip(self.statements@.len() as int) =~= Seq::<StatementM>::empty());
            assert(diags_m(r@) + Seq::<DiagM>::empty() =~= diags_m(r@));
        }
        let mut w1 = self.unreachable_warnings();
        let ghost rpre = r@;
        let ghost w1pre = w1@;
        r.append(&mut w1);
        proof {
            lemma_diags_m_concat(rpre, w1pre);
        }
        let mut w2 = self.unused_warnings();
        let ghost rpre2 = r@;
        let ghost w2pre = w2@;
        r.append(&mut w2);
        proof {
            lemma_diags_m_concat(rpre2, w2pre);
            assert(diags_m(r@) =~= spec_block_check(self.m(), scopes0, scope as int).0);
        }
        r
    }
}

// ====================
// Return-path analysis
// ====================

/// The types of the reachable `return` statements of a statement list,
/// walked in order: the walk stops at the first `return`, and at an
/// `if`/`else` whose branches both guarantee a return; a return expression
/// whose type cannot be inferred contributes nothing. Variable bindings
/// made along the way are visible to later returns of the walk.
pub open spec fn spec_ret_stmts(ss: Seq<StatementM>, scopes: Seq<ScopeM>, cur: int) -> (
    Seq<Type>,
    Seq<ScopeM>,
)
    decreases ss,
{
    if ss.len() == 0 {
        (Seq::empty(), scopes)
    } else {
        match ss[0] {
            StatementM::Return(e) => (
                match e {
                    Some(e) => match spec_expr_type(*e, scopes, cur) {
                        Ok(t) => seq![t],
                        Err(_) => Seq::empty(),
                    },
                    None => Seq::empty(),
                },
                scopes,
            ),
            StatementM::VariableDecl(v) => {
                let (_, s1) = spec_add_var(scopes, cur, v);
                spec_ret_stmts(ss.drop_first(), s1, cur)
            },
            StatementM::Flow(f) => {
                let (t1, s1) = spec_ret_block(f.if_block, scopes, cur);
                match f.else_block {
                    Some(e) => {
                        let (t2, s2) = spec_ret_block(e, s1, cur);
                        if block_guarantees_return(f.if_block) && block_guarantees_return(e) {
                            (t1 + t2, s2)
                        } else {
                            let (t3, s3) = spec_ret_stmts(ss.drop_first(), s2, cur);
                            (t1 + t2 + t3, s3)
                        }
                    },
                    None => {
                        let (t3, s3) = spec_ret_stmts(ss.drop_first(), s1, cur);
                        (t1 + t3, s3)
                    },
                }
            },
            StatementM::Expression(_) => spec_ret_stmts(ss.drop_first(), scopes, cur),
        }
    }
}

/// The types of the reachable `return` statements of a block, walked in a
/// fresh child scope.
pub open spec fn spec_ret_block(b: BlockM, scopes: Seq<ScopeM>, cur: int) -> (Seq<Type>, Seq<ScopeM>)
    decreases b,
{
    let child = scopes.len() as int;
    let s0 = scopes.push(ScopeM { vars: Seq::empty(), funcs: Seq::empty(), parent: Some(cur) });
    spec_ret_stmts(b.statements, s0, child)
}

impl Block {
    /// Walks this block for its reachable `return` statements: the types
    /// they yield, and whether a return is guaranteed on every path.
    /// Return expressions whose type cannot be inferred are passed over;
    /// the incompatible-type check happens at the function level.
    #[verifier::loop_isolation(false)]
    pub fn get_return_stmts(&self, table: &mut SymbolTable, parent: usize) -> (r: (Vec<Type>, bool))
        requires
            old(table).wf(),
            parent < old(table).m().len(),
        ensures
            final(table).wf(),
            old(table).m().len() <= final(table).m().len(),
            (r.0@, final(table).m()) == spec_ret_block(self.m(), old(table).m(), parent as int),
            r.1 == block_guarantees_return(self.m()),
        decreases self,
    {
        let guaranteed = self.guarantees_return();
        let child = table.child(parent);
        let ghost s0 = table.m();
        let ghost ms = stmts_m(self.statements@);
        proof {
            lemma_stmts_m_len(self.statements@);
            assert(ms.skip(0) =~= ms);
        }
        let ghost full = spec_ret_stmts(ms, s0, child as int);
        let mut types: Vec<Type> = Vec::new();
        proof {
            assert(Seq::<Type>::empty() + spec_ret_stmts(ms, s0, child as int).0 =~= spec_ret_stmts(
                ms,
                s0,
                child as int,
            ).0);
        }
        let mut i: usize = 0;
        while i < self.statements.len()
            invariant
                i <= self.statements@.len(),
                table.wf(),
                child < table.m().len(),
                full.0 == types@ + spec_ret_stmts(ms.skip(i as int), table.m(), child as int).0,
                full.1 == spec_ret_stmts(ms.skip(i as int), table.m(), child as int).1,
            decreases self.statements@.len() - i,
        {
            let ghost pre = table.m();
            let ghost rest = ms.skip(i as int);
            proof {
                assert(decreases_to!(self => self.statements));
                assert(decreases_to!(self.statements@ => self.statements@[i as int]));
                assert(rest[0] == ms[i as int]);
                assert(rest.drop_first() =~= ms.skip(i as int + 1));
            }
            match &self.statements[i] {
                Statement::Return(e) => {
                    match e {
                        Some(e) => match e.get_type(table, child) {
                            Ok(t) => {
                                types.push(t);
                                proof {
                                    assert(full.0 =~= types@);
                                }
                            },
                            Err(_) => {
                                proof {
                                    assert(types@ + Seq::<Type>::empty() =~= types@);
                                }
                            },
                        },
                        None => {
                            proof {
                                assert(types@ + Seq::<Type>::empty() =~= types@);
                            }
                        },
                    }
                    return (types, guaranteed);
                },
                Statement::VariableDecl(v) => {
                    // the walk records the binding; a redeclaration is
                    // reported by the scoped check, not here
                    let _ = table.add_var(child, v);
                },
                Statement::Flow(f) => {
                    let if_res = f.if_block.get_return_stmts(table, child);
                    let mut t1 = if_res.0;
                    let g1 = if_res.1;
                    let ghost tpre = types@;
                    let ghost t1pre = t1@;
                    types.append(&mut t1);
                    match &f.else_block {
                        Some(eb) => {
                            let else_res = eb.get_return_stmts(table, child);
                            let mut t2 = else_res.0;
                            let g2 = else_res.1;
                            let ghost t2pre = t2@;
                            types.append(&mut t2);
                            if g1 && g2 {
                                proof {
                                    assert(full.0 =~= types@);
                                }
                                return (types, guaranteed);
                            }
                            proof {
                                assert(types@ =~= tpre + (t1pre + t2pre));
                            }
                        },
                        None => {
                            proof {
                                assert(types@ =~= tpre + t1pre);
                            }
                        },
                    }
                },
                Statement::Expression(_) => {},
            }
            i = i + 1;
        }
        proof {
            assert(ms.skip(self.statements@.len() as int) =~= Seq::<StatementM>::empty());
            assert(types@ + Seq::<Type>::empty() =~= types@);
        }
        (types, guaranteed)
    }
}


// ====================
// Function-level analysis
// ====================

/// Parameter models taken from a list agree with the whole list's model.
pub proof fn lemma_params_m_len(ps: Seq<Parameter>)
    ensures
        params_m(ps).len() == ps.len(),
        forall|j: int| 0 <= j < ps.len() ==> #[trigger] params_m(ps)[j] == ps[j].m(),
    decreases ps,
{
    if ps.len() > 0 {
        lemma_params_m_len(ps.drop_last());
        assert forall|j: int| 0 <= j < ps.len() implies #[trigger] params_m(ps)[j] == ps[j].m() by {
            if j < ps.len() - 1 {
                assert(ps.drop_last()[j] == ps[j]);
            }
        }
    }
}

/// Item models taken from a list agree with the whole list's model.
pub proof fn lemma_items_m_len(is: Seq<Item>)
    ensures
        items_m(is).len() == is.len(),
        forall|j: int| 0 <= j < is.len() ==> #[trigger] items_m(is)[j] == is[j].m(),
    decreases is,
{
    if is.len() > 0 {
        lemma_items_m_len(is.drop_last());
        assert forall|j: int| 0 <= j < is.len() implies #[trigger] items_m(is)[j] == is[j].m() by {
            if j < is.len() - 1 {
                assert(is.drop_last()[j] == is[j]);
            }
        }
    }
}

/// The parameter types of a modelled parameter list, in order.
pub open spec fn params_types_m(ps: Seq<ParameterM>) -> Seq<Type>
    decreases ps,
{
    if ps.len() == 0 {
        Seq::empty()
    } else {
        params_types_m(ps.drop_last()).push(ps.last().ty)
    }
}

/// The function binding a declaration registers, on the model side.
pub open spec fn func_symbol_m(f: FunctionDeclM) -> FuncSymbolM {
    FuncSymbolM {
        params: params_types_m(f.parameters),
        ret_ty: f.ty,
        span: f.span,
        ident_span: f.ident.span,
        sig_span: crate::token::spec_combine(f.ident.span, f.ty.spec_span()),
    }
}

/// The binding a declaration registers agrees between the executable
/// description and the model description.
pub proof fn lemma_func_symbol_m(func: &FunctionDecl)
    ensures
        spec_func_symbol(func) == func_symbol_m(func.m()),
{
    lemma_param_types_agree(func.parameters@);
}

/// The two descriptions of a parameter list's types agree.
pub proof fn lemma_param_types_agree(ps: Seq<Parameter>)
    ensures
        spec_param_types(ps) == params_types_m(params_m(ps)),
    decreases ps,
{
    if ps.len() > 0 {
        lemma_param_types_agree(ps.drop_last());
        assert(params_m(ps).drop_last() =~= params_m(ps.drop_last()));
        assert(spec_param_types(ps) =~= params_types_m(params_m(ps)));
    } else {
        assert(spec_param_types(ps) =~= params_types_m(params_m(ps)));
    }
}

/// Whether a kind is among the already-reported kinds.
pub open spec fn kinds_contain(ks: Seq<PrimitiveKind>, k: PrimitiveKind) -> bool {
    exists|j: int| 0 <= j < ks.len() && ks[j] == k
}

/// Whether a list of kinds contains `k`.
#[verifier::loop_isolation(false)]
fn kinds_contain_exec(ks: &Vec<PrimitiveKind>, k: PrimitiveKind) -> (r: bool)
    ensures
        r == kinds_contain(ks@, k),
{
    let mut i: usize = 0;
    while i < ks.len()
        invariant
            i <= ks@.len(),
            forall|j: int| 0 <= j < i ==> ks@[j] != k,
        decreases ks@.len() - i,
    {
        if kind_eq(ks[i], k) {
            return true;
        }
        i = i + 1;
    }
    false
}

/// The incompatible-return-type findings: one error for each distinct
/// returned kind that differs from the declared kind, at the first
/// occurrence; `seen` holds the kinds already reported.
pub open spec fn spec_ret_type_diags(ts: Seq<Type>, declared: Type, seen: Seq<PrimitiveKind>) -> Seq<
    DiagM,
>
    decreases ts,
{
    if ts.len() == 0 {
        Seq::empty()
    } else {
        let t = ts[0];
        if t.spec_kind() != declared.spec_kind() && !kinds_contain(seen, t.spec_kind()) {
            seq![
                DiagM::Error(
                    SemanticErrorM::IncompatibleReturnType {
                        expected_type: declared,
                        expected_span: declared.spec_span(),
                        found_type: t,
                        found_span: t.spec_span(),
                    },
                ),
            ] + spec_ret_type_diags(ts.drop_first(), declared, seen.push(t.spec_kind()))
        } else {
            spec_ret_type_diags(ts.drop_first(), declared, seen)
        }
    }
}

/// The effect of binding the parameters, in order; redeclared parameter
/// names are errors and the first binding stays.
pub open spec fn spec_params_check(ps: Seq<ParameterM>, scopes: Seq<ScopeM>, cur: int) -> (
    Seq<DiagM>,
    Seq<ScopeM>,
)
    decreases ps,
{
    if ps.len() == 0 {
        (Seq::empty(), scopes)
    } else {
        let (d1, s1) = spec_add_param(scopes, cur, ps[0]);
        let (d2, s2) = spec_params_check(ps.drop_first(), s1, cur);
        (d1 + d2, s2)
    }
}

/// The findings for one function: its parameters bound in a child of the
/// global scope; its body's return paths, which must guarantee a return
/// whose type matches the declared return type; and its body's full
/// scoped check.
pub open spec fn spec_check_function(f: FunctionDeclM, scopes: Seq<ScopeM>) -> (
    Seq<DiagM>,
    Seq<ScopeM>,
) {
    let pscope = scopes.len() as int;
    let s0 = scopes.push(ScopeM { vars: Seq::empty(), funcs: Seq::empty(), parent: Some(0) });
    let (pd, s1) = spec_params_check(f.parameters, s0, pscope);
    let (ts, s2) = spec_ret_block(f.block, s1, pscope);
    let rd = if block_guarantees_return(f.block) {
        spec_ret_type_diags(ts, f.ty, Seq::empty())
    } else if block_has_return(f.block) {
        seq![DiagM::Error(SemanticErrorM::ReturnNotGuaranteed(f.span))]
    } else {
        seq![DiagM::Error(SemanticErrorM::MissingReturnStatement(f.span))]
    };
    let (bd, s3) = spec_block_check(f.block, s2, pscope);
    (pd + rd + bd, s3)
}

impl FunctionDecl {
    /// Checks this function declaration: parameters, return paths and
    /// body. A body that guarantees no return on some path is an error; a
    /// body with no reachable `return` at all reports the missing
    /// statement instead.
    #[verifier::loop_isolation(false)]
    pub fn analyze(&self, table: &mut SymbolTable) -> (r: Vec<Diagnostic>)
        requires
            old(table).wf(),
        ensures
            final(table).wf(),
            old(table).m().len() <= final(table).m().len(),
            (diags_m(r@), final(table).m()) == spec_check_function(self.m(), old(table).m()),
    {
        let pscope = table.child(0);
        let ghost s0 = table.m();
        let ghost mps = params_m(self.parameters@);
        proof {
            lemma_params_m_len(self.parameters@);
            assert(mps.skip(0) =~= mps);
        }
        let mut r: Vec<Diagnostic> = Vec::new();
        proof {
            assert(diags_m(r@) =~= Seq::<DiagM>::empty());
            assert(Seq::<DiagM>::empty() + spec_params_check(mps, s0, pscope as int).0
                =~= spec_params_check(mps, s0, pscope as int).0);
        }
        let mut i: usize = 0;
        while i < self.parameters.len()
            invariant
                i <= self.parameters@.len(),
                table.wf(),
                pscope < table.m().len(),
                spec_params_check(mps, s0, pscope as int).0 == diags_m(r@) + spec_params_check(
                    mps.skip(i as int),
                    table.m(),
                    pscope as int,
                ).0,
                spec_params_check(mps, s0, pscope as int).1 == spec_params_check(
                    mps.skip(i as int),
                    table.m(),
                    pscope as int,
                ).1,
            decreases self.parameters@.len() - i,
        {
            let ghost pre = table.m();
            let ghost rest = mps.skip(i as int);
            proof {
                assert(rest[0] == mps[i as int]);
                assert(rest.drop_first() =~= mps.skip(i as int + 1));
            }
            let ghost rpre = r@;
            match table.add_param(pscope, &self.parameters[i]) {
                Ok(()) => {
                    proof {
                        assert(diags_m(r@) + spec_params_check(
                            mps.skip(i as int + 1),
                            table.m(),
                            pscope as int,
                        ).0 =~= diags_m(rpre) + spec_params_check(rest, pre, pscope as int).0);
                    }
                },
                Err(e) => {
                    let d = Diagnostic::Error(e);
                    proof {
                        lemma_diags_m_push(rpre, d);
                    }
                    r.push(d);
                    proof {
                        assert(diags_m(r@) + spec_params_check(
                            mps.skip(i as int + 1),
                            table.m(),
                            pscope as int,
                        ).0 =~= diags_m(rpre) + spec_params_check(rest, pre, pscope as int).0);
                    }
                },
            }
            i = i + 1;
        }
        proof {
            assert(mps.skip(self.parameters@.len() as int) =~= Seq::<ParameterM>::empty());
            assert(diags_m(r@) + Seq::<DiagM>::empty() =~= diags_m(r@));
        }
        let ghost pd = diags_m(r@);
        // return-path analysis
        let ret = self.block.get_return_stmts(table, pscope);
        let types = ret.0;
        let guaranteed = ret.1;
        let ghost rd_start = r@;
        if !guaranteed {
            let d = if self.block.has_return() {
                Diagnostic::Error(SemanticError::ReturnNotGuaranteed(self.span))
            } else {
                Diagnostic::Error(SemanticError::MissingReturnStatement(self.span))
            };
            proof {
                lemma_diags_m_push(r@, d);
            }
            r.push(d);
        } else {
            let mut seen: Vec<PrimitiveKind> = Vec::new();
            let mut j: usize = 0;
            proof {
                assert(types@.skip(0) =~= types@);
                assert(diags_m(r@) + spec_ret_type_diags(types@, self.ty, seen@) =~= diags_m(
                    rd_start,
                ) + spec_ret_type_diags(types@, self.ty, Seq::empty()));
            }
            while j < types.len()
                invariant
                    j <= types@.len(),
                    diags_m(rd_start) + spec_ret_type_diags(types@, self.ty, Seq::empty())
                        == diags_m(r@) + spec_ret_type_diags(
                        types@.skip(j as int),
                        self.ty,
                        seen@,
                    ),
                decreases types@.len() - j,
            {
                let ghost rest = types@.skip(j as int);
                proof {
                    assert(rest[0] == types@[j as int]);
                    assert(rest.drop_first() =~= types@.skip(j as int + 1));
                }
                let t = types[j];
                let ghost rpre = r@;
                let ghost seenpre = seen@;
                if !kind_eq(t.kind(), self.ty.kind()) && !kinds_contain_exec(&seen, t.kind()) {
                    let d = Diagnostic::Error(
                        SemanticError::IncompatibleReturnType {
                            expected_type: self.ty,
                            expected_span: self.ty.span(),
                            found_type: t,
                            found_span: t.span(),
                        },
                    );
                    proof {
                        lemma_diags_m_push(rpre, d);
                    }
                    r.push(d);
                    seen.push(t.kind());
                    proof {
                        assert(seen@ == seenpre.push(t.spec_kind()));
                        assert(diags_m(r@) + spec_ret_type_diags(
                            types@.skip(j as int + 1),
                            self.ty,
                            seen@,
                        ) =~= diags_m(rpre) + spec_ret_type_diags(rest, self.ty, seenpre));
                    }
                } else {
                    proof {
                        assert(diags_m(r@) + spec_ret_type_diags(
                            types@.skip(j as int + 1),
                            self.ty,
                            seen@,
                        ) =~= diags_m(rpre) + spec_ret_type_diags(rest, self.ty, seen@));
                    }
                }
                j = j + 1;
            }
            proof {
                assert(types@.skip(types@.len() as int) =~= Seq::<Type>::empty());
                assert(diags_m(r@) + Seq::<DiagM>::empty() =~= diags_m(r@));
            }
        }
        proof {
            let ghost rd_spec = if block_guarantees_return(self.m().block) {
                spec_ret_type_diags(types@, self.ty, Seq::<PrimitiveKind>::empty())
            } else if block_has_return(self.m().block) {
                seq![DiagM::Error(SemanticErrorM::ReturnNotGuaranteed(self.span))]
            } else {
                seq![DiagM::Error(SemanticErrorM::MissingReturnStatement(self.span))]
            };
            assert(diags_m(r@) =~= pd + rd_spec);
        }
        let ghost pdrd = diags_m(r@);
        // body analysis
        let mut bd = self.block.analyze(table, pscope);
        let ghost rpre = r@;
        let ghost bdpre = bd@;
        r.append(&mut bd);
        proof {
            lemma_diags_m_concat(rpre, bdpre);
            let sc = spec_check_function(self.m(), old(table).m());
            assert(s0 == old(table).m().push(
                ScopeM { vars: Seq::empty(), funcs: Seq::empty(), parent: Some(0int) },
            ));
            assert(diags_m(r@) =~= sc.0);
        }
        r
    }
}

// ====================
// Whole-program analysis
// ====================

/// The empty global scope a fresh analysis starts from.
pub open spec fn root_scope() -> ScopeM {
    ScopeM { vars: Seq::empty(), funcs: Seq::empty(), parent: None }
}

/// The effect of registering one function in the global scope: a
/// redeclaration error and an unchanged table, or no finding and the
/// extended global scope. The first declaration of a name wins and keeps
/// serving lookups.
pub open spec fn spec_add_fn(scopes: Seq<ScopeM>, f: FunctionDeclM) -> (Seq<DiagM>, Seq<ScopeM>) {
    match assoc_fn(scopes[0].funcs, f.ident.name) {
        Some(existing) => (
            seq![
                DiagM::Error(
                    SemanticErrorM::FunctionAlreadyDeclared(f.ident, f.span, existing.span),
                ),
            ],
            scopes,
        ),
        None => (
            Seq::empty(),
            scopes.update(
                0,
                ScopeM {
                    vars: scopes[0].vars,
                    funcs: scopes[0].funcs.push((f.ident.name, func_symbol_m(f))),
                    parent: scopes[0].parent,
                },
            ),
        ),
    }
}

/// The declaration pass: every top-level function is registered in the
/// global scope before any body is analyzed, so forward and mutual calls
/// resolve.
pub open spec fn spec_decl_pass(items: Seq<ItemM>, scopes: Seq<ScopeM>) -> (Seq<DiagM>, Seq<ScopeM>)
    decreases items,
{
    if items.len() == 0 {
        (Seq::empty(), scopes)
    } else {
        match items[0] {
            ItemM::FunctionDecl(f) => {
                let (d1, s1) = spec_add_fn(scopes, f);
                let (d2, s2) = spec_decl_pass(items.drop_first(), s1);
                (d1 + d2, s2)
            },
        }
    }
}

/// The last function named `main` among the items, if any.
pub open spec fn find_main(items: Seq<ItemM>) -> Option<FunctionDeclM>
    decreases items,
{
    if items.len() == 0 {
        None
    } else {
        match items.last() {
            ItemM::FunctionDecl(f) => if f.ident.name == "main"@ {
                Some(f)
            } else {
                find_main(items.drop_last())
            },
        }
    }
}

/// The findings about `main`: exactly one function named `main` must exist
/// and must return `int`; the missing-main error carries the zero span,
/// there being no concrete location to point at.
pub open spec fn spec_main_diags(items: Seq<ItemM>) -> Seq<DiagM> {
    match find_main(items) {
        None => seq![
            DiagM::Error(SemanticErrorM::MissingMainFunction(Span { start: 0, end: 0 })),
        ],
        Some(f) => if f.ty.spec_kind() != PrimitiveKind::Int {
            seq![DiagM::Error(SemanticErrorM::MainMustReturnInt(f.ty.spec_span()))]
        } else {
            Seq::empty()
        },
    }
}

/// The body pass: each function checked in turn against the global scope.
pub open spec fn spec_body_pass(items: Seq<ItemM>, scopes: Seq<ScopeM>) -> (Seq<DiagM>, Seq<ScopeM>)
    decreases items,
{
    if items.len() == 0 {
        (Seq::empty(), scopes)
    } else {
        match items[0] {
            ItemM::FunctionDecl(f) => {
                let (d1, s1) = spec_check_function(f, scopes);
                let (d2, s2) = spec_body_pass(items.drop_first(), s1);
                (d1 + d2, s2)
            },
        }
    }
}

/// Everything semantic analysis finds in a program: the declaration pass's
/// redeclaration errors, then the findings about `main`, then each
/// function body's findings in order. Analysis never stops early; the
/// whole list is always produced.
pub open spec fn spec_analyse(p: ProgramM) -> Seq<DiagM> {
    let s0 = seq![root_scope()];
    let (dd, s1) = spec_decl_pass(p.items, s0);
    let md = spec_main_diags(p.items);
    let (bd, _) = spec_body_pass(p.items, s1);
    dd + md + bd
}

/// Analyzes a whole program: registers every function, checks that one
/// `main` returning `int` exists, and checks every function body. The
/// tree is only read; every finding of every function is returned in one
/// flat list, errors and warnings together.
#[verifier::loop_isolation(false)]
#[verifier::rlimit(60)]
pub fn analyse(ast: &AST) -> (r: Vec<Diagnostic>)
    ensures
        diags_m(r@) == spec_analyse(ast.program.m()),
{
    let items = &ast.program.items;
    let ghost ims = items_m(items@);
    proof {
        lemma_items_m_len(items@);
        assert(ims.skip(0) =~= ims);
    }
    let mut table = SymbolTable::new();
    proof {
        assert(table.m() =~= seq![root_scope()]);
    }
    let ghost s_init = table.m();
    let mut r: Vec<Diagnostic> = Vec::new();
    let mut main_ty: Option<Type> = None;
    proof {
        assert(diags_m(r@) =~= Seq::<DiagM>::empty());
        assert(Seq::<DiagM>::empty() + spec_decl_pass(ims, s_init).0 =~= spec_decl_pass(
            ims,
            s_init,
        ).0);
        assert(ims.take(0) =~= Seq::<ItemM>::empty());
    }
    let mut i: usize = 0;
    while i < items.len()
        invariant
            i <= items@.len(),
            table.wf(),
            spec_decl_pass(ims, s_init).0 == diags_m(r@) + spec_decl_pass(
                ims.skip(i as int),
                table.m(),
            ).0,
            spec_decl_pass(ims, s_init).1 == spec_decl_pass(ims.skip(i as int), table.m()).1,
            match find_main(ims.take(i as int)) {
                Some(f) => main_ty == Some(f.ty),
                None => main_ty is None,
            },
        decreases items@.len() - i,
    {
        let ghost pre = table.m();
        let ghost rest = ims.skip(i as int);
        proof {
            assert(rest[0] == ims[i as int]);
            assert(rest.drop_first() =~= ims.skip(i as int + 1));
            assert(ims.take(i as int + 1).drop_last() =~= ims.take(i as int));
            assert(ims.take(i as int + 1).last() == ims[i as int]);
        }
        match &items[i] {
            Item::FunctionDecl(f) => {
                if crate::token::str_eq(f.ident.ident.as_str(), "main") {
                    main_ty = Some(f.ty);
                }
                let ghost rpre = r@;
                match table.add_fn(0, f) {
                    Ok(()) => {
                        proof {
                            lemma_func_symbol_m(f);
                            assert(diags_m(r@) + spec_decl_pass(
                                ims.skip(i as int + 1),
                                table.m(),
                            ).0 =~= diags_m(rpre) + spec_decl_pass(rest, pre).0);
                        }
                    },
                    Err(e) => {
                        let d = Diagnostic::Error(e);
                        proof {
                            lemma_diags_m_push(rpre, d);
                        }
                        r.push(d);
                        proof {
                            assert(diags_m(r@) + spec_decl_pass(
                                ims.skip(i as int + 1),
                                table.m(),
                            ).0 =~= diags_m(rpre) + spec_decl_pass(rest, pre).0);
                        }
                    },
                }
            },
        }
        i = i + 1;
    }
    proof {
        assert(ims.skip(items@.len() as int) =~= Seq::<ItemM>::empty());
        assert(ims.take(items@.len() as int) =~= ims);
        assert(diags_m(r@) + Seq::<DiagM>::empty() =~= diags_m(r@));
        assert(diags_m(r@) =~= spec_decl_pass(ims, s_init).0);
    }
    let ghost dd = diags_m(r@);
    match &main_ty {
        None => {
            let d = Diagnostic::Error(
                SemanticError::MissingMainFunction(Span { start: 0, end: 0 }),
            );
            proof {
                lemma_diags_m_push(r@, d);
            }
            r.push(d);
        },
        Some(ty) => {
            if !kind_eq(ty.kind(), PrimitiveKind::Int) {
                let d = Diagnostic::Error(SemanticError::MainMustReturnInt(ty.span()));
                proof {
                    lemma_diags_m_push(r@, d);
                }
                r.push(d);
            }
        },
    }
    proof {
        assert(diags_m(r@) =~= dd + spec_main_diags(ims));
    }
    let ghost ddmd = diags_m(r@);
    let ghost s1 = table.m();
    proof {
        assert(Seq::<DiagM>::empty() + spec_body_pass(ims, s1).0 =~= spec_body_pass(ims, s1).0);
    }
    let mut k: usize = 0;
    proof {
        assert(ddmd + spec_body_pass(ims, s1).0 =~= diags_m(r@) + spec_body_pass(ims, s1).0);
    }
    while k < items.len()
        invariant
            k <= items@.len(),
            table.wf(),
            ddmd + spec_body_pass(ims, s1).0 == diags_m(r@) + spec_body_pass(
                ims.skip(k as int),
                table.m(),
            ).0,
            spec_body_pass(ims, s1).1 == spec_body_pass(ims.skip(k as int), table.m()).1,
        decreases items@.len() - k,
    {
        let ghost pre = table.m();
        let ghost rest = ims.skip(k as int);
        proof {
            assert(rest[0] == ims[k as int]);
            assert(rest.drop_first() =~= ims.skip(k as int + 1));
        }
        match &items[k] {
            Item::FunctionDecl(f) => {
                let mut d = f.analyze(&mut table);
                let ghost rpre = r@;
                let ghost dpre = d@;
                r.append(&mut d);
                proof {
                    lemma_diags_m_concat(rpre, dpre);
                    assert(diags_m(r@) + spec_body_pass(ims.skip(k as int + 1), table.m()).0
                        =~= diags_m(rpre) + spec_body_pass(rest, pre).0);
                }
            },
        }
        k = k + 1;
    }
    proof {
        assert(ims.skip(items@.len() as int) =~= Seq::<ItemM>::empty());
        assert(diags_m(r@) + Seq::<DiagM>::empty() =~= diags_m(r@));
        assert(diags_m(r@) =~= spec_analyse(ast.program.m()));
    }
    r
}

} // verus!
