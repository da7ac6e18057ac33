//! Laws of the front end: properties that relate several functions, proved
//! once and for all over the analyzer's and lexer's specifications.

use vstd::prelude::*;

use crate::analysis::{
    block_guarantees_return, find_main, first_guarantee, lemma_stmts_guarantee_skip, spec_add_fn,
    spec_add_param, spec_add_var, spec_analyse, spec_analyze_expr, spec_block_check,
    spec_body_pass, spec_call_arg_diags, spec_check_function, spec_decl_pass, spec_expr_type,
    spec_flow_check, spec_main_diags, spec_params_check, spec_ret_type_diags, spec_stmt_check,
    spec_stmts_check, spec_unreachable_warns, spec_unused_warns, spec_unused_warns_from,
    stmt_guarantees_return,
};
use crate::ast::{
    expr_span, stmt_span, ASTSpan, BlockM, ExprM, FlowM, ItemM, ParameterM, PrimM, ProgramM,
    StatementM, UnaryKindM,
};
use crate::errors::{DiagM, SemanticErrorM, WarningM};
use crate::lexer::{
    lemma_next, spec_consume, spec_next, spec_punct_kind, spec_skip_trivia, spec_word_end,
};
use crate::symbols::ScopeM;
use crate::token::{
    spec_combine, spec_is_keyword, spec_is_operator, spec_keyword_from, spec_operator_from,
    spec_text, Span, TokenKindM,
};

verus! {

// ====================
// Return guarantees under branch symmetry
// ====================

/// An `if`/`else` alone guarantees a return exactly when both branches do;
/// an `if` without an `else` never does by itself; and a block whose later
/// statements contain a `return` guarantees one however its earlier
/// statements branch.
pub proof fn lemma_return_guarantee_branches(c: ExprM, b1: BlockM, b2: BlockM, span: Span)
    ensures
        stmt_guarantees_return(
            StatementM::Flow(
                Box::new(FlowM { condition: c, if_block: b1, else_block: Some(b2), span }),
            ),
        ) == (block_guarantees_return(b1) && block_guarantees_return(b2)),
        !stmt_guarantees_return(
            StatementM::Flow(
                Box::new(FlowM { condition: c, if_block: b1, else_block: None, span }),
            ),
        ),
{
}

/// A block one of whose statements is a `return` guarantees a return, no
/// matter what stands before or after it.
pub proof fn lemma_return_guarantee_fallthrough(b: BlockM, k: int, e: Option<Box<ExprM>>)
    requires
        0 <= k < b.statements.len(),
        b.statements[k] == StatementM::Return(e),
    ensures
        block_guarantees_return(b),
{
    lemma_stmts_guarantee_skip(b.statements, 0);
    assert(b.statements.skip(0) =~= b.statements);
    assert(stmt_guarantees_return(b.statements[k]));
}

// ====================
// Unreachable code is reported once, with the covering span
// ====================

/// Where some statement of a block already guarantees a return and
/// statements follow it, the block reports unreachable code exactly once,
/// with a span from the first unreachable statement to the block's last
/// statement; where nothing follows such a point, it reports nothing.
pub proof fn lemma_unreachable_reported_once(b: BlockM)
    ensures
        match first_guarantee(b.statements, 0) {
            Some(k) => if k + 1 < b.statements.len() {
                spec_unreachable_warns(b) == seq![
                    DiagM::Warning(
                        WarningM::UnreachableCode(
                            spec_combine(
                                stmt_span(b.statements[k + 1]),
                                stmt_span(b.statements[b.statements.len() - 1]),
                            ),
                        ),
                    ),
                ]
            } else {
                spec_unreachable_warns(b) == Seq::<DiagM>::empty()
            },
            None => spec_unreachable_warns(b) == Seq::<DiagM>::empty(),
        },
{
}

// ====================
// Lexing, then spelling token kinds back
// ====================

/// Whether a token kind has one canonical spelling in source text: the
/// keywords, the type names, the operators, and the four bracket marks.
pub open spec fn has_canonical_text(k: TokenKindM) -> bool {
    spec_is_operator(k) || spec_is_keyword(k) || k == TokenKindM::LParen || k
        == TokenKindM::RParen || k == TokenKindM::LBrace || k == TokenKindM::RBrace
}

/// An operator classified from text spells back exactly that text.
proof fn lemma_operator_text(s: Seq<char>)
    ensures
        match spec_operator_from(s) {
            Some(k) => spec_text(k) == s,
            None => true,
        },
{
}

/// A keyword or type name classified from text spells back exactly that
/// text; identifiers have no canonical spelling.
proof fn lemma_keyword_text(s: Seq<char>)
    ensures
        has_canonical_text(spec_keyword_from(s)) ==> spec_text(spec_keyword_from(s)) == s,
{
}

/// A punctuation token spells back its character.
proof fn lemma_punct_text(c: char)
    ensures
        match spec_punct_kind(c) {
            Some(k) => has_canonical_text(k) ==> spec_text(k) == seq![c],
            None => true,
        },
{
    reveal_strlit("{");
    reveal_strlit("}");
    reveal_strlit("(");
    reveal_strlit(")");
    reveal_strlit(";");
    reveal_strlit(",");
    reveal_strlit(".");
    reveal_strlit(":");
    if spec_punct_kind(c) is Some {
        let k = spec_punct_kind(c)->0;
        if has_canonical_text(k) {
            assert(spec_text(k) =~= seq![c]);
        }
    }
}

/// One lexer step that yields a keyword, type name, operator or bracket
/// token yields one whose canonical text is exactly the source text its
/// span covers.
pub proof fn lemma_token_round_trip(src: Seq<char>, pos: nat)
    requires
        pos <= src.len(),
        src.len() <= usize::MAX,
    ensures
        match spec_next(src, pos).0 {
            Some(Ok(t)) => has_canonical_text(t.kind) ==> t.span.start <= t.span.end <= src.len()
                && spec_text(t.kind) == src.subrange(t.span.start as int, t.span.end as int),
            _ => true,
        },
{
    crate::lexer::lemma_skip_trivia(src, pos);
    let p = spec_skip_trivia(src, pos);
    if p < src.len() {
        let c = src[p as int];
        if crate::lexer::is_op_char(c) {
            if p + 1 < src.len() {
                let end = if crate::lexer::is_op_char(src[p as int + 1]) {
                    p + 2
                } else {
                    p + 1
                };
                lemma_operator_text(src.subrange(p as int, end as int));
            }
        } else if crate::lexer::is_digit_char(c) {
            crate::lexer::lemma_num_scan(src, p, false);
        } else if crate::lexer::is_word_start_char(c) {
            crate::lexer::lemma_word_end(src, p);
            lemma_keyword_text(src.subrange(p as int, spec_word_end(src, p) as int));
        } else {
            lemma_punct_text(c);
            if spec_punct_kind(c) is Some {
                assert(src.subrange(p as int, p as int + 1) =~= seq![c]);
            }
        }
    }
}

/// Lexing and then spelling the token kinds back: every keyword, type
/// name, operator and bracket token the lexer produces covers exactly the
/// source text of its canonical spelling.
pub proof fn lemma_lex_round_trip(src: Seq<char>, pos: nat)
    requires
        pos <= src.len(),
        src.len() <= usize::MAX,
    ensures
        forall|j: int|
            0 <= j < spec_consume(src, pos).0.len() && has_canonical_text(
                #[trigger] spec_consume(src, pos).0[j].kind,
            ) ==> {
                let t = spec_consume(src, pos).0[j];
                t.span.start <= t.span.end <= src.len() && spec_text(t.kind) == src.subrange(
                    t.span.start as int,
                    t.span.end as int,
                )
            },
    decreases src.len() - pos,
{
    lemma_next(src, pos);
    lemma_token_round_trip(src, pos);
    let (r, q) = spec_next(src, pos);
    match r {
        None => {},
        Some(Ok(t)) => {
            lemma_lex_round_trip(src, q);
        },
        Some(Err(_)) => {
            lemma_lex_round_trip(src, q);
        },
    }
}


// ====================
// Exactly one missing-main error; one redeclaration error per duplicate
// ====================

/// Whether a diagnostic is the missing-main error.
pub open spec fn is_missing_main(d: DiagM) -> bool {
    d matches DiagM::Error(SemanticErrorM::MissingMainFunction(_))
}

/// Whether a diagnostic is a function-redeclaration error.
pub open spec fn is_fn_redecl(d: DiagM) -> bool {
    d matches DiagM::Error(SemanticErrorM::FunctionAlreadyDeclared(_, _, _))
}

/// How many diagnostics of the list are the missing-main error.
pub open spec fn count_missing_main(ds: Seq<DiagM>) -> nat
    decreases ds,
{
    if ds.len() == 0 {
        0
    } else {
        count_missing_main(ds.drop_last()) + if is_missing_main(ds.last()) {
            1nat
        } else {
            0nat
        }
    }
}

/// How many diagnostics of the list are function-redeclaration errors.
pub open spec fn count_fn_redecl(ds: Seq<DiagM>) -> nat
    decreases ds,
{
    if ds.len() == 0 {
        0
    } else {
        count_fn_redecl(ds.drop_last()) + if is_fn_redecl(ds.last()) {
            1nat
        } else {
            0nat
        }
    }
}

/// Counting distributes over concatenation.
proof fn lemma_counts_concat(a: Seq<DiagM>, b: Seq<DiagM>)
    ensures
        count_missing_main(a + b) == count_missing_main(a) + count_missing_main(b),
        count_fn_redecl(a + b) == count_fn_redecl(a) + count_fn_redecl(b),
    decreases b,
{
    if b.len() == 0 {
        assert(a + b =~= a);
    } else {
        lemma_counts_concat(a, b.drop_last());
        assert((a + b).drop_last() =~= a + b.drop_last());
        assert((a + b).last() == b.last());
    }
}

/// The counts of a one-diagnostic list.
proof fn lemma_count_single(d: DiagM)
    ensures
        count_missing_main(seq![d]) == if is_missing_main(d) {
            1nat
        } else {
            0nat
        },
        count_fn_redecl(seq![d]) == if is_fn_redecl(d) {
            1nat
        } else {
            0nat
        },
{
    assert(seq![d].drop_last() =~= Seq::<DiagM>::empty());
    assert(count_missing_main(Seq::<DiagM>::empty()) == 0);
    assert(count_fn_redecl(Seq::<DiagM>::empty()) == 0);
    assert(seq![d].last() == d);
}

/// A list none of whose elements is the missing-main error counts zero;
/// likewise for redeclaration errors.
proof fn lemma_count_zero(ds: Seq<DiagM>)
    ensures
        (forall|j: int| 0 <= j < ds.len() ==> !is_missing_main(#[trigger] ds[j]))
            ==> count_missing_main(ds) == 0,
        (forall|j: int| 0 <= j < ds.len() ==> !is_fn_redecl(#[trigger] ds[j])) ==> count_fn_redecl(
            ds,
        ) == 0,
    decreases ds,
{
    if ds.len() > 0 {
        lemma_count_zero(ds.drop_last());
        assert(forall|j: int| 0 <= j < ds.len() - 1 ==> ds.drop_last()[j] == #[trigger] ds[j]);
    }
}

/// Whether an inference failure is one a function body can produce.
pub open spec fn is_body_error(e: SemanticErrorM) -> bool {
    !(e is MissingMainFunction) && !(e is FunctionAlreadyDeclared) && !(e is MainMustReturnInt)
}

/// Whether a diagnostic is one a function body can produce: anything but
/// the program-level findings about `main` and function redeclaration.
pub open spec fn is_body_diag(d: DiagM) -> bool {
    match d {
        DiagM::Error(e) => is_body_error(e),
        DiagM::Warning(_) => true,
    }
}

/// Every element of two concatenated body-diagnostic lists is one.
proof fn lemma_body_concat(a: Seq<DiagM>, b: Seq<DiagM>)
    requires
        forall|j: int| 0 <= j < a.len() ==> is_body_diag(#[trigger] a[j]),
        forall|j: int| 0 <= j < b.len() ==> is_body_diag(#[trigger] b[j]),
    ensures
        forall|j: int| 0 <= j < (a + b).len() ==> is_body_diag(#[trigger] (a + b)[j]),
{
    assert forall|j: int| 0 <= j < (a + b).len() implies is_body_diag(#[trigger] (a + b)[j]) by {
        if j < a.len() {
            assert((a + b)[j] == a[j]);
        } else {
            assert((a + b)[j] == b[j - a.len()]);
        }
    }
}

/// A type-inference failure is a body error.
proof fn lemma_expr_type_err(e: ExprM, scopes: Seq<ScopeM>, cur: int)
    ensures
        spec_expr_type(e, scopes, cur) matches Err(err) ==> is_body_error(err),
    decreases e,
{
    reveal_with_fuel(spec_expr_type, 2);
    match e {
        ExprM::Primary(p) => {
            match p {
                PrimM::Parenthesized(inner) => {
                    lemma_expr_type_err(*inner, scopes, cur);
                },
                _ => {},
            }
        },
        ExprM::Unary(u) => {
            match u.kind {
                UnaryKindM::Negation(inner) => {
                    lemma_expr_type_err(*inner, scopes, cur);
                },
                UnaryKindM::Not(inner) => {
                    lemma_expr_type_err(*inner, scopes, cur);
                },
            }
        },
        ExprM::Binary(b) => {
            lemma_expr_type_err(*b.lhs, scopes, cur);
            lemma_expr_type_err(*b.rhs, scopes, cur);
        },
    }
}

/// Every finding of a call's argument check is a body diagnostic.
proof fn lemma_arg_diags_body(
    args: Seq<ExprM>,
    params: Seq<crate::ast::Type>,
    scopes: Seq<ScopeM>,
    cur: int,
    j: int,
)
    requires
        0 <= j <= args.len(),
    ensures
        forall|q: int|
            0 <= q < spec_call_arg_diags(args, params, scopes, cur, j).len() ==> is_body_diag(
                #[trigger] spec_call_arg_diags(args, params, scopes, cur, j)[q],
            ),
    decreases args.len() - j,
{
    if j < args.len() {
        lemma_expr_type_err(args[j], scopes, cur);
        lemma_arg_diags_body(args, params, scopes, cur, j + 1);
        let head: Seq<DiagM> = match spec_expr_type(args[j], scopes, cur) {
            Err(e) => seq![DiagM::Error(e)],
            Ok(t) => if t.spec_kind() != params[j].spec_kind() {
                seq![
                    DiagM::Error(
                        SemanticErrorM::TypesDoNotMatch {
                            expected_type: params[j],
                            expected_span: params[j].spec_span(),
                            found_type: t,
                            found_span: expr_span(args[j]),
                        },
                    ),
                ]
            } else {
                Seq::empty()
            },
        };
        lemma_body_concat(head, spec_call_arg_diags(args, params, scopes, cur, j + 1));
    }
}

/// Every finding of the expression check is a body diagnostic.
proof fn lemma_analyze_expr_body(e: ExprM, scopes: Seq<ScopeM>, cur: int)
    ensures
        forall|q: int|
            0 <= q < spec_analyze_expr(e, scopes, cur).len() ==> is_body_diag(
                #[trigger] spec_analyze_expr(e, scopes, cur)[q],
            ),
    decreases e,
{
    match e {
        ExprM::Primary(p) => {
            match p {
                PrimM::Parenthesized(inner) => {
                    lemma_analyze_expr_body(*inner, scopes, cur);
                    assert(spec_analyze_expr(e, scopes, cur) == spec_analyze_expr(
                        *inner,
                        scopes,
                        cur,
                    ));
                },
                PrimM::FunctionCall(i, args) => {
                    match crate::symbols::lookup_fn(scopes, cur, i.name) {
                        Some(f) => {
                            lemma_arg_diags_body(args, f.params, scopes, cur, 0);
                            if f.params.len() == args.len() {
                                assert(spec_analyze_expr(e, scopes, cur) == spec_call_arg_diags(
                                    args,
                                    f.params,
                                    scopes,
                                    cur,
                                    0,
                                ));
                            }
                        },
                        None => {},
                    }
                },
                _ => {},
            }
        },
        ExprM::Unary(u) => {
            match u.kind {
                UnaryKindM::Negation(inner) => {
                    lemma_expr_type_err(*inner, scopes, cur);
                },
                UnaryKindM::Not(inner) => {
                    lemma_expr_type_err(*inner, scopes, cur);
                },
            }
        },
        ExprM::Binary(b) => {
            lemma_expr_type_err(*b.lhs, scopes, cur);
            lemma_expr_type_err(*b.rhs, scopes, cur);
        },
    }
}

/// Every finding of the block check, statement check and `if` check is a
/// body diagnostic.
proof fn lemma_stmt_check_body(s: StatementM, scopes: Seq<ScopeM>, cur: int)
    ensures
        forall|q: int|
            0 <= q < spec_stmt_check(s, scopes, cur).0.len() ==> is_body_diag(
                #[trigger] spec_stmt_check(s, scopes, cur).0[q],
            ),
    decreases s,
{
    match s {
        StatementM::Expression(e) => {
            lemma_analyze_expr_body(*e, scopes, cur);
            assert(spec_stmt_check(s, scopes, cur).0 == spec_analyze_expr(*e, scopes, cur));
        },
        StatementM::VariableDecl(v) => {
            let (d1, s1) = spec_add_var(scopes, cur, v);
            lemma_expr_type_err(v.expression, s1, cur);
            let d2: Seq<DiagM> = match spec_expr_type(v.expression, s1, cur) {
                Err(e) => seq![DiagM::Error(e)],
                Ok(t) => if t.spec_kind() != v.ty.spec_kind() {
                    seq![
                        DiagM::Error(
                            SemanticErrorM::TypesDoNotMatch {
                                expected_type: v.ty,
                                expected_span: v.ty.spec_span(),
                                found_type: t,
                                found_span: expr_span(v.expression),
                            },
                        ),
                    ]
                } else {
                    Seq::empty()
                },
            };
            lemma_body_concat(d1, d2);
            assert(spec_stmt_check(s, scopes, cur).0 == d1 + d2);
        },
        StatementM::Flow(f) => {
            lemma_flow_check_body(*f, scopes, cur);
            assert(spec_stmt_check(s, scopes, cur).0 == spec_flow_check(*f, scopes, cur).0);
        },
        StatementM::Return(e) => {
            match e {
                Some(e) => {
                    lemma_analyze_expr_body(*e, scopes, cur);
                    assert(spec_stmt_check(s, scopes, cur).0 == spec_analyze_expr(
                        *e,
                        scopes,
                        cur,
                    ));
                },
                None => {},
            }
        },
    }
}

/// Every finding of an `if` statement's check is a body diagnostic.
proof fn lemma_flow_check_body(f: FlowM, scopes: Seq<ScopeM>, cur: int)
    ensures
        forall|q: int|
            0 <= q < spec_flow_check(f, scopes, cur).0.len() ==> is_body_diag(
                #[trigger] spec_flow_check(f, scopes, cur).0[q],
            ),
    decreases f,
{
    lemma_expr_type_err(f.condition, scopes, cur);
    match spec_expr_type(f.condition, scopes, cur) {
        Err(_) => {},
        Ok(t) => {
            let d0: Seq<DiagM> = if t.spec_kind() != crate::ast::PrimitiveKind::Bool {
                seq![
                    DiagM::Error(
                        SemanticErrorM::NonBooleanCondition {
                            found_type: t,
                            found_span: expr_span(f.condition),
                        },
                    ),
                ]
            } else {
                Seq::empty()
            };
            lemma_block_check_body(f.if_block, scopes, cur);
            let (d1, s1) = spec_block_check(f.if_block, scopes, cur);
            lemma_body_concat(d0, d1);
            match f.else_block {
                Some(e) => {
                    lemma_block_check_body(e, s1, cur);
                    let (d2, _) = spec_block_check(e, s1, cur);
                    lemma_body_concat(d0 + d1, d2);
                },
                None => {},
            }
        },
    }
}

/// Every finding of a block's check is a body diagnostic: the statements'
/// findings, the unreachable-code warning, and the unused-variable
/// warnings.
proof fn lemma_block_check_body(b: BlockM, scopes: Seq<ScopeM>, cur: int)
    ensures
        forall|q: int|
            0 <= q < spec_block_check(b, scopes, cur).0.len() ==> is_body_diag(
                #[trigger] spec_block_check(b, scopes, cur).0[q],
            ),
    decreases b,
{
    let child = scopes.len() as int;
    let s0 = scopes.push(ScopeM { vars: Seq::empty(), funcs: Seq::empty(), parent: Some(cur) });
    lemma_stmts_check_body(b.statements, s0, child);
    let (d, _) = spec_stmts_check(b.statements, s0, child);
    lemma_unused_warns_body(b.statements, 0);
    lemma_body_concat(d, spec_unreachable_warns(b));
    lemma_body_concat(d + spec_unreachable_warns(b), spec_unused_warns(b));
}

/// Every finding of a statement list's check is a body diagnostic.
proof fn lemma_stmts_check_body(ss: Seq<StatementM>, scopes: Seq<ScopeM>, cur: int)
    ensures
        forall|q: int|
            0 <= q < spec_stmts_check(ss, scopes, cur).0.len() ==> is_body_diag(
                #[trigger] spec_stmts_check(ss, scopes, cur).0[q],
            ),
    decreases ss,
{
    if ss.len() > 0 {
        lemma_stmt_check_body(ss[0], scopes, cur);
        let (d1, s1) = spec_stmt_check(ss[0], scopes, cur);
        lemma_stmts_check_body(ss.drop_first(), s1, cur);
        let (d2, _) = spec_stmts_check(ss.drop_first(), s1, cur);
        lemma_body_concat(d1, d2);
    }
}

/// Every unused-variable warning is a body diagnostic.
proof fn lemma_unused_warns_body(ss: Seq<StatementM>, i: int)
    requires
        0 <= i <= ss.len(),
    ensures
        forall|q: int|
            0 <= q < spec_unused_warns_from(ss, i).len() ==> is_body_diag(
                #[trigger] spec_unused_warns_from(ss, i)[q],
            ),
    decreases ss.len() - i,
{
    if i < ss.len() {
        lemma_unused_warns_body(ss, i + 1);
        let head: Seq<DiagM> = if crate::analysis::unused_at(ss, i) {
            match ss[i] {
                StatementM::VariableDecl(v) => seq![
                    DiagM::Warning(WarningM::UnusedVariable(v.ident, v.ident.span)),
                ],
                _ => Seq::empty(),
            }
        } else {
            Seq::empty()
        };
        lemma_body_concat(head, spec_unused_warns_from(ss, i + 1));
    }
}

/// Every incompatible-return-type finding is a body diagnostic.
proof fn lemma_ret_type_diags_body(
    ts: Seq<crate::ast::Type>,
    declared: crate::ast::Type,
    seen: Seq<crate::ast::PrimitiveKind>,
)
    ensures
        forall|q: int|
            0 <= q < spec_ret_type_diags(ts, declared, seen).len() ==> is_body_diag(
                #[trigger] spec_ret_type_diags(ts, declared, seen)[q],
            ),
    decreases ts,
{
    if ts.len() > 0 {
        let t = ts[0];
        if t.spec_kind() != declared.spec_kind() && !crate::analysis::kinds_contain(
            seen,
            t.spec_kind(),
        ) {
            lemma_ret_type_diags_body(ts.drop_first(), declared, seen.push(t.spec_kind()));
            let head = seq![
                DiagM::Error(
                    SemanticErrorM::IncompatibleReturnType {
                        expected_type: declared,
                        expected_span: declared.spec_span(),
                        found_type: t,
                        found_span: t.spec_span(),
                    },
                ),
            ];
            lemma_body_concat(
                head,
                spec_ret_type_diags(ts.drop_first(), declared, seen.push(t.spec_kind())),
            );
            assert(spec_ret_type_diags(ts, declared, seen) == head + spec_ret_type_diags(
                ts.drop_first(),
                declared,
                seen.push(t.spec_kind()),
            ));
        } else {
            lemma_ret_type_diags_body(ts.drop_first(), declared, seen);
            assert(spec_ret_type_diags(ts, declared, seen) == spec_ret_type_diags(
                ts.drop_first(),
                declared,
                seen,
            ));
        }
    }
}

/// Every parameter-binding finding is a body diagnostic.
proof fn lemma_params_check_body(ps: Seq<ParameterM>, scopes: Seq<ScopeM>, cur: int)
    ensures
        forall|q: int|
            0 <= q < spec_params_check(ps, scopes, cur).0.len() ==> is_body_diag(
                #[trigger] spec_params_check(ps, scopes, cur).0[q],
            ),
    decreases ps,
{
    if ps.len() > 0 {
        let (d1, s1) = spec_add_param(scopes, cur, ps[0]);
        lemma_params_check_body(ps.drop_first(), s1, cur);
        let (d2, _) = spec_params_check(ps.drop_first(), s1, cur);
        lemma_body_concat(d1, d2);
    }
}

/// Every finding of one function's check is a body diagnostic.
proof fn lemma_check_function_body(f: crate::ast::FunctionDeclM, scopes: Seq<ScopeM>)
    ensures
        forall|q: int|
            0 <= q < spec_check_function(f, scopes).0.len() ==> is_body_diag(
                #[trigger] spec_check_function(f, scopes).0[q],
            ),
{
    let pscope = scopes.len() as int;
    let s0 = scopes.push(ScopeM { vars: Seq::empty(), funcs: Seq::empty(), parent: Some(0) });
    lemma_params_check_body(f.parameters, s0, pscope);
    let (pd, s1) = spec_params_check(f.parameters, s0, pscope);
    let (ts, s2) = crate::analysis::spec_ret_block(f.block, s1, pscope);
    let rd: Seq<DiagM> = if block_guarantees_return(f.block) {
        spec_ret_type_diags(ts, f.ty, Seq::empty())
    } else if crate::analysis::block_has_return(f.block) {
        seq![DiagM::Error(SemanticErrorM::ReturnNotGuaranteed(f.span))]
    } else {
        seq![DiagM::Error(SemanticErrorM::MissingReturnStatement(f.span))]
    };
    lemma_ret_type_diags_body(ts, f.ty, Seq::empty());
    lemma_block_check_body(f.block, s2, pscope);
    let (bd, _) = spec_block_check(f.block, s2, pscope);
    lemma_body_concat(pd, rd);
    lemma_body_concat(pd + rd, bd);
}

/// Every finding of the body pass is a body diagnostic.
proof fn lemma_body_pass_body(items: Seq<ItemM>, scopes: Seq<ScopeM>)
    ensures
        forall|q: int|
            0 <= q < spec_body_pass(items, scopes).0.len() ==> is_body_diag(
                #[trigger] spec_body_pass(items, scopes).0[q],
            ),
    decreases items,
{
    if items.len() > 0 {
        match items[0] {
            ItemM::FunctionDecl(f) => {
                lemma_check_function_body(f, scopes);
                let (d1, s1) = spec_check_function(f, scopes);
                lemma_body_pass_body(items.drop_first(), s1);
                let (d2, _) = spec_body_pass(items.drop_first(), s1);
                lemma_body_concat(d1, d2);
            },
        }
    }
}

/// Every finding of the declaration pass is a function-redeclaration
/// error.
proof fn lemma_decl_pass_diags(items: Seq<ItemM>, scopes: Seq<ScopeM>)
    ensures
        forall|q: int|
            0 <= q < spec_decl_pass(items, scopes).0.len() ==> is_fn_redecl(
                #[trigger] spec_decl_pass(items, scopes).0[q],
            ),
    decreases items,
{
    if items.len() > 0 {
        match items[0] {
            ItemM::FunctionDecl(f) => {
                let (d1, s1) = spec_add_fn(scopes, f);
                lemma_decl_pass_diags(items.drop_first(), s1);
                let (d2, _) = spec_decl_pass(items.drop_first(), s1);
                assert forall|q: int|
                    0 <= q < (d1 + d2).len() implies is_fn_redecl(#[trigger] (d1 + d2)[q]) by {
                    if q < d1.len() {
                        assert((d1 + d2)[q] == d1[q]);
                    } else {
                        assert((d1 + d2)[q] == d2[q - d1.len()]);
                    }
                }
            },
        }
    }
}

/// A program with no `main` yields exactly one missing-main error, however
/// many other functions and findings there are; a program with a `main`
/// yields none.
pub proof fn lemma_missing_main_count(p: ProgramM)
    ensures
        count_missing_main(spec_analyse(p)) == if find_main(p.items) is None {
            1nat
        } else {
            0nat
        },
{
    let s0 = seq![crate::analysis::root_scope()];
    let (dd, s1) = spec_decl_pass(p.items, s0);
    let md = spec_main_diags(p.items);
    let (bd, _) = spec_body_pass(p.items, s1);
    lemma_decl_pass_diags(p.items, s0);
    lemma_body_pass_body(p.items, s1);
    lemma_count_zero(dd);
    lemma_count_zero(bd);
    assert(count_missing_main(md) == if find_main(p.items) is None {
        1nat
    } else {
        0nat
    }) by {
        match find_main(p.items) {
            None => {
                lemma_count_single(
                    DiagM::Error(SemanticErrorM::MissingMainFunction(Span { start: 0, end: 0 })),
                );
            },
            Some(f) => {
                if f.ty.spec_kind() != crate::ast::PrimitiveKind::Int {
                    lemma_count_single(
                        DiagM::Error(SemanticErrorM::MainMustReturnInt(f.ty.spec_span())),
                    );
                }
            },
        }
    }
    lemma_counts_concat(dd, md);
    lemma_counts_concat(dd + md, bd);
    assert(spec_analyse(p) == dd + md + bd);
}

/// Function-redeclaration errors come from the declaration pass alone: the
/// program-level count equals the declaration pass's count, and neither
/// the findings about `main` nor any function body adds one.
pub proof fn lemma_fn_redecl_only_from_decl_pass(p: ProgramM)
    ensures
        count_fn_redecl(spec_analyse(p)) == count_fn_redecl(
            spec_decl_pass(p.items, seq![crate::analysis::root_scope()]).0,
        ),
{
    let s0 = seq![crate::analysis::root_scope()];
    let (dd, s1) = spec_decl_pass(p.items, s0);
    let md = spec_main_diags(p.items);
    let (bd, _) = spec_body_pass(p.items, s1);
    lemma_body_pass_body(p.items, s1);
    lemma_count_zero(bd);
    assert(count_fn_redecl(md) == 0) by {
        match find_main(p.items) {
            None => {
                lemma_count_single(
                    DiagM::Error(SemanticErrorM::MissingMainFunction(Span { start: 0, end: 0 })),
                );
            },
            Some(f) => {
                if f.ty.spec_kind() != crate::ast::PrimitiveKind::Int {
                    lemma_count_single(
                        DiagM::Error(SemanticErrorM::MainMustReturnInt(f.ty.spec_span())),
                    );
                }
            },
        }
    }
    lemma_counts_concat(dd, md);
    lemma_counts_concat(dd + md, bd);
    assert(spec_analyse(p) == dd + md + bd);
}

// ====================
// Valid programs analyse without errors
// ====================

/// Whether every diagnostic of the list is advisory.
pub open spec fn all_warnings(ds: Seq<DiagM>) -> bool {
    forall|j: int| 0 <= j < ds.len() ==> #[trigger] ds[j] is Warning
}

/// Two concatenated advisory lists are advisory.
proof fn lemma_warnings_concat(a: Seq<DiagM>, b: Seq<DiagM>)
    requires
        all_warnings(a),
        all_warnings(b),
    ensures
        all_warnings(a + b),
{
    assert forall|j: int| 0 <= j < (a + b).len() implies #[trigger] (a + b)[j] is Warning by {
        if j < a.len() {
            assert((a + b)[j] == a[j]);
        } else {
            assert((a + b)[j] == b[j - a.len()]);
        }
    }
}

/// Looking a name up in a scope extended by one variable binding: the new
/// binding answers only for its own name, and only where the name was
/// still free.
proof fn lemma_assoc_var_push(
    es: Seq<(Seq<char>, crate::symbols::VarSymbol)>,
    n: Seq<char>,
    s: crate::symbols::VarSymbol,
    m: Seq<char>,
)
    ensures
        crate::symbols::assoc_var(es.push((n, s)), m) == if crate::symbols::assoc_var(es, m)
            is Some {
            crate::symbols::assoc_var(es, m)
        } else if m == n {
            Some(s)
        } else {
            None::<crate::symbols::VarSymbol>
        },
    decreases es,
{
    if es.len() == 0 {
        assert(es.push((n, s))[0] == (n, s));
        assert(es.push((n, s)).drop_first() =~= Seq::<(Seq<char>, crate::symbols::VarSymbol)>::empty());
    } else {
        assert(es.push((n, s))[0] == es[0]);
        assert(es.push((n, s)).drop_first() =~= es.drop_first().push((n, s)));
        lemma_assoc_var_push(es.drop_first(), n, s, m);
    }
}

/// Looking a name up in a scope extended by one function binding, likewise.
proof fn lemma_assoc_fn_push(
    es: Seq<(Seq<char>, crate::symbols::FuncSymbolM)>,
    n: Seq<char>,
    s: crate::symbols::FuncSymbolM,
    m: Seq<char>,
)
    ensures
        crate::symbols::assoc_fn(es.push((n, s)), m) == if crate::symbols::assoc_fn(es, m)
            is Some {
            crate::symbols::assoc_fn(es, m)
        } else if m == n {
            Some(s)
        } else {
            None::<crate::symbols::FuncSymbolM>
        },
    decreases es,
{
    if es.len() == 0 {
        assert(es.push((n, s))[0] == (n, s));
        assert(es.push((n, s)).drop_first() =~= Seq::<
            (Seq<char>, crate::symbols::FuncSymbolM),
        >::empty());
    } else {
        assert(es.push((n, s))[0] == es[0]);
        assert(es.push((n, s)).drop_first() =~= es.drop_first().push((n, s)));
        lemma_assoc_fn_push(es.drop_first(), n, s, m);
    }
}

/// Whether an expression passes every check of the analyzer: its type can
/// be inferred, every named variable and callee is bound, calls match
/// their declarations, and operator operands have the kinds the operator
/// asks for.
pub open spec fn expr_ok(e: ExprM, scopes: Seq<ScopeM>, cur: int) -> bool
    decreases e,
{
    match e {
        ExprM::Primary(p) => match p {
            PrimM::Literal(_) => true,
            PrimM::Ident(i) => crate::symbols::lookup_var(scopes, cur, i.name) is Some,
            PrimM::Parenthesized(inner) => expr_ok(*inner, scopes, cur),
            PrimM::FunctionCall(i, args) => match crate::symbols::lookup_fn(scopes, cur, i.name) {
                Some(f) => f.params.len() == args.len() && (forall|j: int|
                    0 <= j < args.len() ==> match spec_expr_type(#[trigger] args[j], scopes, cur) {
                        Ok(t) => t.spec_kind() == f.params[j].spec_kind(),
                        Err(_) => false,
                    }),
                None => false,
            },
        },
        ExprM::Unary(u) => match u.kind {
            UnaryKindM::Negation(inner) => match spec_expr_type(*inner, scopes, cur) {
                Ok(t) => t.spec_kind() == crate::ast::PrimitiveKind::Int || t.spec_kind()
                    == crate::ast::PrimitiveKind::Float,
                Err(_) => false,
            },
            UnaryKindM::Not(inner) => match spec_expr_type(*inner, scopes, cur) {
                Ok(t) => t.spec_kind() == crate::ast::PrimitiveKind::Bool,
                Err(_) => false,
            },
        },
        ExprM::Binary(b) => match (
            spec_expr_type(*b.lhs, scopes, cur),
            spec_expr_type(*b.rhs, scopes, cur),
        ) {
            (Ok(lt), Ok(rt)) => lt.spec_kind() == rt.spec_kind(),
            _ => false,
        },
    }
}

/// The argument check of a call that passes every check reports nothing.
proof fn lemma_arg_diags_clean(
    args: Seq<ExprM>,
    params: Seq<crate::ast::Type>,
    scopes: Seq<ScopeM>,
    cur: int,
    j: int,
)
    requires
        0 <= j <= args.len(),
        forall|q: int|
            0 <= q < args.len() ==> match spec_expr_type(#[trigger] args[q], scopes, cur) {
                Ok(t) => t.spec_kind() == params[q].spec_kind(),
                Err(_) => false,
            },
    ensures
        spec_call_arg_diags(args, params, scopes, cur, j) == Seq::<DiagM>::empty(),
    decreases args.len() - j,
{
    if j < args.len() {
        lemma_arg_diags_clean(args, params, scopes, cur, j + 1);
        assert(spec_call_arg_diags(args, params, scopes, cur, j) =~= Seq::<DiagM>::empty());
    }
}

/// The check of an expression that passes every check reports nothing.
proof fn lemma_analyze_expr_clean(e: ExprM, scopes: Seq<ScopeM>, cur: int)
    requires
        expr_ok(e, scopes, cur),
    ensures
        spec_analyze_expr(e, scopes, cur) == Seq::<DiagM>::empty(),
    decreases e,
{
    match e {
        ExprM::Primary(p) => {
            match p {
                PrimM::Parenthesized(inner) => {
                    lemma_analyze_expr_clean(*inner, scopes, cur);
                },
                PrimM::FunctionCall(i, args) => {
                    match crate::symbols::lookup_fn(scopes, cur, i.name) {
                        Some(f) => {
                            lemma_arg_diags_clean(args, f.params, scopes, cur, 0);
                        },
                        None => {},
                    }
                },
                _ => {},
            }
        },
        _ => {},
    }
}

/// Whether a statement passes every check of the analyzer, and the table
/// it leaves behind; the declared variable of a `let` must be new in its
/// scope and its initializer must have the declared kind.
pub open spec fn stmt_ok(s: StatementM, scopes: Seq<ScopeM>, cur: int) -> bool
    decreases s,
{
    match s {
        StatementM::Expression(e) => expr_ok(*e, scopes, cur),
        StatementM::VariableDecl(v) => crate::symbols::assoc_var(scopes[cur].vars, v.ident.name)
            is None && match spec_expr_type(v.expression, spec_add_var(scopes, cur, v).1, cur) {
            Ok(t) => t.spec_kind() == v.ty.spec_kind(),
            Err(_) => false,
        },
        StatementM::Flow(f) => (match spec_expr_type(f.condition, scopes, cur) {
            Ok(t) => t.spec_kind() == crate::ast::PrimitiveKind::Bool,
            Err(_) => false,
        }) && block_ok(f.if_block, scopes, cur) && (match f.else_block {
            Some(e) => block_ok(e, spec_block_check(f.if_block, scopes, cur).1, cur),
            None => true,
        }),
        StatementM::Return(e) => match e {
            Some(e) => expr_ok(*e, scopes, cur),
            None => true,
        },
    }
}

/// Whether every statement of the list passes every check, each seeing the
/// table the ones before it leave behind.
pub open spec fn stmts_ok(ss: Seq<StatementM>, scopes: Seq<ScopeM>, cur: int) -> bool
    decreases ss,
{
    ss.len() == 0 || (stmt_ok(ss[0], scopes, cur) && stmts_ok(
        ss.drop_first(),
        spec_stmt_check(ss[0], scopes, cur).1,
        cur,
    ))
}

/// Whether every statement of the block passes every check in the block's
/// fresh child scope.
pub open spec fn block_ok(b: BlockM, scopes: Seq<ScopeM>, cur: int) -> bool
    decreases b,
{
    stmts_ok(
        b.statements,
        scopes.push(ScopeM { vars: Seq::empty(), funcs: Seq::empty(), parent: Some(cur) }),
        scopes.len() as int,
    )
}

/// The check of a statement that passes every check reports only
/// warnings.
proof fn lemma_stmt_check_clean(s: StatementM, scopes: Seq<ScopeM>, cur: int)
    requires
        stmt_ok(s, scopes, cur),
    ensures
        all_warnings(spec_stmt_check(s, scopes, cur).0),
    decreases s,
{
    match s {
        StatementM::Expression(e) => {
            lemma_analyze_expr_clean(*e, scopes, cur);
            assert(spec_stmt_check(s, scopes, cur).0 == spec_analyze_expr(*e, scopes, cur));
        },
        StatementM::VariableDecl(v) => {
            assert(spec_stmt_check(s, scopes, cur).0 =~= Seq::<DiagM>::empty());
        },
        StatementM::Flow(f) => {
            lemma_flow_check_clean(*f, scopes, cur);
            assert(spec_stmt_check(s, scopes, cur).0 == spec_flow_check(*f, scopes, cur).0);
        },
        StatementM::Return(e) => {
            match e {
                Some(e) => {
                    lemma_analyze_expr_clean(*e, scopes, cur);
                    assert(spec_stmt_check(s, scopes, cur).0 == spec_analyze_expr(
                        *e,
                        scopes,
                        cur,
                    ));
                },
                None => {},
            }
        },
    }
}

/// The check of an `if` statement that passes every check reports only
/// warnings.
proof fn lemma_flow_check_clean(f: FlowM, scopes: Seq<ScopeM>, cur: int)
    requires
        stmt_ok(StatementM::Flow(Box::new(f)), scopes, cur),
    ensures
        all_warnings(spec_flow_check(f, scopes, cur).0),
    decreases f,
{
    lemma_block_check_clean(f.if_block, scopes, cur);
    let (d1, s1) = spec_block_check(f.if_block, scopes, cur);
    lemma_warnings_concat(Seq::<DiagM>::empty(), d1);
    assert(Seq::<DiagM>::empty() + d1 =~= d1);
    match f.else_block {
        Some(e) => {
            lemma_block_check_clean(e, s1, cur);
            let (d2, _) = spec_block_check(e, s1, cur);
            lemma_warnings_concat(d1, d2);
            assert(spec_flow_check(f, scopes, cur).0 =~= d1 + d2);
        },
        None => {
            assert(spec_flow_check(f, scopes, cur).0 =~= d1);
        },
    }
}

/// The check of a statement list that passes every check reports only
/// warnings.
proof fn lemma_stmts_check_clean(ss: Seq<StatementM>, scopes: Seq<ScopeM>, cur: int)
    requires
        stmts_ok(ss, scopes, cur),
    ensures
        all_warnings(spec_stmts_check(ss, scopes, cur).0),
    decreases ss,
{
    if ss.len() > 0 {
        lemma_stmt_check_clean(ss[0], scopes, cur);
        let (d1, s1) = spec_stmt_check(ss[0], scopes, cur);
        lemma_stmts_check_clean(ss.drop_first(), s1, cur);
        let (d2, _) = spec_stmts_check(ss.drop_first(), s1, cur);
        lemma_warnings_concat(d1, d2);
    }
}

/// The check of a block that passes every check reports only warnings:
/// the statements are clean, and the block's own findings are the
/// unreachable-code and unused-variable warnings.
proof fn lemma_block_check_clean(b: BlockM, scopes: Seq<ScopeM>, cur: int)
    requires
        block_ok(b, scopes, cur),
    ensures
        all_warnings(spec_block_check(b, scopes, cur).0),
    decreases b,
{
    let child = scopes.len() as int;
    let s0 = scopes.push(ScopeM { vars: Seq::empty(), funcs: Seq::empty(), parent: Some(cur) });
    lemma_stmts_check_clean(b.statements, s0, child);
    let (d, _) = spec_stmts_check(b.statements, s0, child);
    lemma_unreachable_warns_advisory(b);
    lemma_unused_warns_advisory(b.statements, 0);
    lemma_warnings_concat(d, spec_unreachable_warns(b));
    lemma_warnings_concat(d + spec_unreachable_warns(b), spec_unused_warns(b));
}

/// The unreachable-code findings are warnings.
proof fn lemma_unreachable_warns_advisory(b: BlockM)
    ensures
        all_warnings(spec_unreachable_warns(b)),
{
}

/// The unused-variable findings are warnings.
proof fn lemma_unused_warns_advisory(ss: Seq<StatementM>, i: int)
    requires
        0 <= i <= ss.len(),
    ensures
        all_warnings(spec_unused_warns_from(ss, i)),
    decreases ss.len() - i,
{
    if i < ss.len() {
        lemma_unused_warns_advisory(ss, i + 1);
        let head: Seq<DiagM> = if crate::analysis::unused_at(ss, i) {
            match ss[i] {
                StatementM::VariableDecl(v) => seq![
                    DiagM::Warning(WarningM::UnusedVariable(v.ident, v.ident.span)),
                ],
                _ => Seq::empty(),
            }
        } else {
            Seq::empty()
        };
        lemma_warnings_concat(head, spec_unused_warns_from(ss, i + 1));
    }
}

/// Distinct return kinds that all match the declared kind report nothing.
proof fn lemma_ret_type_diags_clean(
    ts: Seq<crate::ast::Type>,
    declared: crate::ast::Type,
    seen: Seq<crate::ast::PrimitiveKind>,
)
    requires
        forall|j: int| 0 <= j < ts.len() ==> (#[trigger] ts[j]).spec_kind() == declared.spec_kind(),
    ensures
        spec_ret_type_diags(ts, declared, seen) == Seq::<DiagM>::empty(),
    decreases ts,
{
    if ts.len() > 0 {
        assert(forall|j: int|
            0 <= j < ts.drop_first().len() ==> #[trigger] ts.drop_first()[j] == ts[j + 1]);
        lemma_ret_type_diags_clean(ts.drop_first(), declared, seen);
    }
}

/// Whether the parameter names are pairwise distinct.
pub open spec fn params_distinct(ps: Seq<ParameterM>) -> bool {
    forall|i: int, j: int|
        0 <= i < j < ps.len() ==> (#[trigger] ps[i]).ident.name != (#[trigger] ps[j]).ident.name
}

/// Binding pairwise-distinct parameters into a scope where none of their
/// names is bound reports nothing.
proof fn lemma_params_check_clean(ps: Seq<ParameterM>, scopes: Seq<ScopeM>, cur: int)
    requires
        0 <= cur < scopes.len(),
        params_distinct(ps),
        forall|i: int|
            0 <= i < ps.len() ==> crate::symbols::assoc_var(
                scopes[cur].vars,
                (#[trigger] ps[i]).ident.name,
            ) is None,
    ensures
        spec_params_check(ps, scopes, cur).0 == Seq::<DiagM>::empty(),
    decreases ps,
{
    if ps.len() > 0 {
        let p0 = ps[0];
        let (d1, s1) = spec_add_param(scopes, cur, p0);
        assert(d1 =~= Seq::<DiagM>::empty());
        assert forall|i: int|
            0 <= i < ps.drop_first().len() implies crate::symbols::assoc_var(
            s1[cur].vars,
            (#[trigger] ps.drop_first()[i]).ident.name,
        ) is None by {
            assert(ps.drop_first()[i] == ps[i + 1]);
            lemma_assoc_var_push(
                scopes[cur].vars,
                p0.ident.name,
                crate::symbols::VarSymbol { ty: p0.ty, span: p0.span },
                ps[i + 1].ident.name,
            );
        }
        assert(forall|i: int, j: int|
            0 <= i < j < ps.drop_first().len() ==> (#[trigger] ps.drop_first()[i]).ident.name != (
            #[trigger] ps.drop_first()[j]).ident.name) by {
            assert(forall|q: int|
                0 <= q < ps.drop_first().len() ==> #[trigger] ps.drop_first()[q] == ps[q + 1]);
        }
        lemma_params_check_clean(ps.drop_first(), s1, cur);
        assert(spec_params_check(ps, scopes, cur).0 =~= Seq::<DiagM>::empty());
    }
}

/// Whether one function passes every check of the analyzer, against the
/// global scope as the declaration pass left it: its parameter names are
/// distinct, its body guarantees a return, every reachable return yields
/// the declared kind, and its body passes the scoped checks.
pub open spec fn function_ok(f: crate::ast::FunctionDeclM, scopes: Seq<ScopeM>) -> bool {
    let pscope = scopes.len() as int;
    let s0 = scopes.push(ScopeM { vars: Seq::empty(), funcs: Seq::empty(), parent: Some(0) });
    let s1 = spec_params_check(f.parameters, s0, pscope).1;
    let (ts, s2) = crate::analysis::spec_ret_block(f.block, s1, pscope);
    params_distinct(f.parameters) && block_guarantees_return(f.block) && (forall|j: int|
        0 <= j < ts.len() ==> (#[trigger] ts[j]).spec_kind() == f.ty.spec_kind()) && block_ok(
        f.block,
        s2,
        pscope,
    )
}

/// The check of a function that passes every check reports only warnings.
proof fn lemma_check_function_clean(f: crate::ast::FunctionDeclM, scopes: Seq<ScopeM>)
    requires
        function_ok(f, scopes),
    ensures
        all_warnings(spec_check_function(f, scopes).0),
{
    let pscope = scopes.len() as int;
    let s0 = scopes.push(ScopeM { vars: Seq::empty(), funcs: Seq::empty(), parent: Some(0) });
    assert(s0[pscope].vars == Seq::<(Seq<char>, crate::symbols::VarSymbol)>::empty());
    lemma_params_check_clean(f.parameters, s0, pscope);
    let (pd, s1) = spec_params_check(f.parameters, s0, pscope);
    let (ts, s2) = crate::analysis::spec_ret_block(f.block, s1, pscope);
    lemma_ret_type_diags_clean(ts, f.ty, Seq::empty());
    lemma_block_check_clean(f.block, s2, pscope);
    let (bd, _) = spec_block_check(f.block, s2, pscope);
    lemma_warnings_concat(pd, spec_ret_type_diags(ts, f.ty, Seq::empty()));
    lemma_warnings_concat(pd + spec_ret_type_diags(ts, f.ty, Seq::empty()), bd);
}

/// Whether every function of the program passes every check, each against
/// the table the ones before it leave behind.
pub open spec fn body_ok(items: Seq<ItemM>, scopes: Seq<ScopeM>) -> bool
    decreases items,
{
    items.len() == 0 || (match items[0] {
        ItemM::FunctionDecl(f) => function_ok(f, scopes) && body_ok(
            items.drop_first(),
            spec_check_function(f, scopes).1,
        ),
    })
}

/// The body pass of a program whose functions all pass every check reports
/// only warnings.
proof fn lemma_body_pass_clean(items: Seq<ItemM>, scopes: Seq<ScopeM>)
    requires
        body_ok(items, scopes),
    ensures
        all_warnings(spec_body_pass(items, scopes).0),
    decreases items,
{
    if items.len() > 0 {
        match items[0] {
            ItemM::FunctionDecl(f) => {
                lemma_check_function_clean(f, scopes);
                let (d1, s1) = spec_check_function(f, scopes);
                lemma_body_pass_clean(items.drop_first(), s1);
                let (d2, _) = spec_body_pass(items.drop_first(), s1);
                lemma_warnings_concat(d1, d2);
            },
        }
    }
}

/// The name a top-level item declares.
pub open spec fn item_name(it: ItemM) -> Seq<char> {
    match it {
        ItemM::FunctionDecl(f) => f.ident.name,
    }
}

/// Whether the program's function names are pairwise distinct.
pub open spec fn fn_names_distinct(items: Seq<ItemM>) -> bool {
    forall|i: int, j: int|
        0 <= i < j < items.len() ==> item_name(#[trigger] items[i]) != item_name(
            #[trigger] items[j],
        )
}

/// The declaration pass of a program with pairwise-distinct function
/// names, none already bound, reports nothing.
proof fn lemma_decl_pass_clean(items: Seq<ItemM>, scopes: Seq<ScopeM>)
    requires
        scopes.len() > 0,
        fn_names_distinct(items),
        forall|i: int|
            0 <= i < items.len() ==> crate::symbols::assoc_fn(
                scopes[0].funcs,
                item_name(#[trigger] items[i]),
            ) is None,
    ensures
        spec_decl_pass(items, scopes).0 == Seq::<DiagM>::empty(),
    decreases items,
{
    if items.len() > 0 {
        match items[0] {
            ItemM::FunctionDecl(f) => {
                let (d1, s1) = spec_add_fn(scopes, f);
                assert(d1 =~= Seq::<DiagM>::empty());
                assert forall|i: int|
                    0 <= i < items.drop_first().len() implies crate::symbols::assoc_fn(
                    s1[0].funcs,
                    item_name(#[trigger] items.drop_first()[i]),
                ) is None by {
                    assert(items.drop_first()[i] == items[i + 1]);
                    lemma_assoc_fn_push(
                        scopes[0].funcs,
                        f.ident.name,
                        crate::analysis::func_symbol_m(f),
                        item_name(items[i + 1]),
                    );
                }
                assert(fn_names_distinct(items.drop_first())) by {
                    assert(forall|q: int|
                        0 <= q < items.drop_first().len() ==> #[trigger] items.drop_first()[q]
                            == items[q + 1]);
                }
                lemma_decl_pass_clean(items.drop_first(), s1);
                assert(spec_decl_pass(items, scopes).0 =~= Seq::<DiagM>::empty());
            },
        }
    }
}

/// Whether a program is valid: its function names are distinct, one of
/// them is a `main` returning `int`, and every function passes every
/// check against the global table the declaration pass builds.
pub open spec fn program_valid(p: ProgramM) -> bool {
    &&& fn_names_distinct(p.items)
    &&& match find_main(p.items) {
        Some(f) => f.ty.spec_kind() == crate::ast::PrimitiveKind::Int,
        None => false,
    }
    &&& body_ok(
        p.items,
        spec_decl_pass(p.items, seq![crate::analysis::root_scope()]).1,
    )
}

/// Analysis of a valid program whose `main` is guaranteed to return an
/// `int` yields no errors: everything it reports is advisory.
pub proof fn lemma_valid_program_analyses_clean(p: ProgramM)
    requires
        program_valid(p),
    ensures
        all_warnings(spec_analyse(p)),
{
    let s0 = seq![crate::analysis::root_scope()];
    assert(s0[0].funcs =~= Seq::<(Seq<char>, crate::symbols::FuncSymbolM)>::empty());
    lemma_decl_pass_clean(p.items, s0);
    let (dd, s1) = spec_decl_pass(p.items, s0);
    let md = spec_main_diags(p.items);
    assert(all_warnings(md)) by {
        match find_main(p.items) {
            Some(f) => {},
            None => {},
        }
    }
    lemma_body_pass_clean(p.items, s1);
    let (bd, _) = spec_body_pass(p.items, s1);
    lemma_warnings_concat(dd, md);
    lemma_warnings_concat(dd + md, bd);
    assert(spec_analyse(p) == dd + md + bd);
}


/// The declaration pass over pairwise-distinct names of which exactly one
/// is already bound reports exactly one redeclaration error.
proof fn lemma_one_bound_count(items: Seq<ItemM>, scopes: Seq<ScopeM>, k: int)
    requires
        scopes.len() > 0,
        0 <= k < items.len(),
        fn_names_distinct(items),
        crate::symbols::assoc_fn(scopes[0].funcs, item_name(items[k])) is Some,
        forall|i: int|
            0 <= i < items.len() && i != k ==> crate::symbols::assoc_fn(
                scopes[0].funcs,
                item_name(#[trigger] items[i]),
            ) is None,
    ensures
        count_fn_redecl(spec_decl_pass(items, scopes).0) == 1,
    decreases items,
{
    match items[0] {
        ItemM::FunctionDecl(f) => {
            let (d1, s1) = spec_add_fn(scopes, f);
            let rest = items.drop_first();
            assert(forall|q: int| 0 <= q < rest.len() ==> #[trigger] rest[q] == items[q + 1]);
            assert(fn_names_distinct(rest));
            if k == 0 {
                // the bound item collides here; the remaining names are
                // distinct and stay unbound, so the rest is clean
                let existing = crate::symbols::assoc_fn(scopes[0].funcs, f.ident.name)->0;
                lemma_count_single(
                    DiagM::Error(
                        SemanticErrorM::FunctionAlreadyDeclared(f.ident, f.span, existing.span),
                    ),
                );
                assert(s1 == scopes);
                lemma_decl_pass_clean(rest, s1);
                let (d2, _) = spec_decl_pass(rest, s1);
                lemma_counts_concat(d1, d2);
                assert(count_fn_redecl(d2) == 0) by {
                    assert(d2 =~= Seq::<DiagM>::empty());
                }
            } else {
                // the first item binds its fresh name without a finding,
                // and the bound item is still the only bound one
                assert(d1 =~= Seq::<DiagM>::empty());
                assert(count_fn_redecl(d1) == 0);
                assert forall|i: int|
                    0 <= i < rest.len() && i != k - 1 implies crate::symbols::assoc_fn(
                    s1[0].funcs,
                    item_name(#[trigger] rest[i]),
                ) is None by {
                    lemma_assoc_fn_push(
                        scopes[0].funcs,
                        f.ident.name,
                        crate::analysis::func_symbol_m(f),
                        item_name(items[i + 1]),
                    );
                }
                assert(crate::symbols::assoc_fn(s1[0].funcs, item_name(rest[k - 1])) is Some) by {
                    lemma_assoc_fn_push(
                        scopes[0].funcs,
                        f.ident.name,
                        crate::analysis::func_symbol_m(f),
                        item_name(items[k]),
                    );
                }
                lemma_one_bound_count(rest, s1, k - 1);
                let (d2, _) = spec_decl_pass(rest, s1);
                lemma_counts_concat(d1, d2);
            }
        },
    }
}

/// The declaration pass over names of which exactly two agree, none
/// already bound, reports exactly one redeclaration error.
proof fn lemma_dup_pair_count(items: Seq<ItemM>, scopes: Seq<ScopeM>, a: int, b: int)
    requires
        scopes.len() > 0,
        0 <= a < b < items.len(),
        item_name(items[a]) == item_name(items[b]),
        forall|i: int, j: int|
            0 <= i < j < items.len() && !(i == a && j == b) ==> item_name(#[trigger] items[i])
                != item_name(#[trigger] items[j]),
        forall|i: int|
            0 <= i < items.len() ==> crate::symbols::assoc_fn(
                scopes[0].funcs,
                item_name(#[trigger] items[i]),
            ) is None,
    ensures
        count_fn_redecl(spec_decl_pass(items, scopes).0) == 1,
    decreases items,
{
    match items[0] {
        ItemM::FunctionDecl(f) => {
            let (d1, s1) = spec_add_fn(scopes, f);
            assert(d1 =~= Seq::<DiagM>::empty());
            assert(count_fn_redecl(d1) == 0);
            let rest = items.drop_first();
            assert(forall|q: int| 0 <= q < rest.len() ==> #[trigger] rest[q] == items[q + 1]);
            assert forall|i: int|
                0 <= i < rest.len() && i != b - 1 implies crate::symbols::assoc_fn(
                s1[0].funcs,
                item_name(#[trigger] rest[i]),
            ) is None by {
                lemma_assoc_fn_push(
                    scopes[0].funcs,
                    f.ident.name,
                    crate::analysis::func_symbol_m(f),
                    item_name(items[i + 1]),
                );
            }
            let (d2, _) = spec_decl_pass(rest, s1);
            if a == 0 {
                // the later duplicate now collides with the name just
                // bound; every other name is distinct and unbound
                assert(fn_names_distinct(rest));
                assert(crate::symbols::assoc_fn(s1[0].funcs, item_name(rest[b - 1])) is Some) by {
                    lemma_assoc_fn_push(
                        scopes[0].funcs,
                        f.ident.name,
                        crate::analysis::func_symbol_m(f),
                        item_name(items[b]),
                    );
                }
                lemma_one_bound_count(rest, s1, b - 1);
            } else {
                // the duplicated pair lies wholly in the rest
                assert(crate::symbols::assoc_fn(s1[0].funcs, item_name(rest[b - 1])) is None) by {
                    lemma_assoc_fn_push(
                        scopes[0].funcs,
                        f.ident.name,
                        crate::analysis::func_symbol_m(f),
                        item_name(items[b]),
                    );
                }
                lemma_dup_pair_count(rest, s1, a - 1, b - 1);
            }
            lemma_counts_concat(d1, d2);
        },
    }
}

/// Declaring two functions with one name anywhere in a program, all other
/// names distinct, yields exactly one function-redeclaration error,
/// however many other findings the program has.
pub proof fn lemma_duplicate_function_one_error(p: ProgramM, a: int, b: int)
    requires
        0 <= a < b < p.items.len(),
        item_name(p.items[a]) == item_name(p.items[b]),
        forall|i: int, j: int|
            0 <= i < j < p.items.len() && !(i == a && j == b) ==> item_name(#[trigger] p.items[i])
                != item_name(#[trigger] p.items[j]),
    ensures
        count_fn_redecl(spec_analyse(p)) == 1,
{
    lemma_fn_redecl_only_from_decl_pass(p);
    let s0 = seq![crate::analysis::root_scope()];
    assert(s0[0].funcs =~= Seq::<(Seq<char>, crate::symbols::FuncSymbolM)>::empty());
    lemma_dup_pair_count(p.items, s0, a, b);
}

} // verus!
