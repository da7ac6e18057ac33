//! The symbol table: a tree of lexical scopes held in an arena, each scope
//! holding its variable and function bindings and the index of its parent.
//! Lookup walks from a scope to the root and returns the nearest binding,
//! which is what makes shadowing work.

use vstd::prelude::*;

use crate::ast::{ASTSpan, FunctionDecl, Ident, Parameter, Type, VariableDecl};
use crate::errors::{SemanticError, SemanticErrorM};
use crate::token::Span;

verus! {

/// A variable binding: its type and the span of its declaration.
#[derive(Debug, Clone, Copy, PartialEq, Eq, Structural)]
pub struct VarSymbol {
    pub ty: Type,
    pub span: Span,
}

/// A function binding: its parameter types, return type, and the spans of
/// its declaration, its name and its signature.
#[derive(Debug)]
pub struct FuncSymbol {
    pub params: Vec<Type>,
    pub ret_ty: Type,
    pub span: Span,
    pub ident_span: Span,
    pub sig_span: Span,
}

/// Mathematical model of a function binding.
pub struct FuncSymbolM {
    pub params: Seq<Type>,
    pub ret_ty: Type,
    pub span: Span,
    pub ident_span: Span,
    pub sig_span: Span,
}

impl FuncSymbol {
    /// The model of this binding.
    pub open spec fn m(&self) -> FuncSymbolM {
        FuncSymbolM {
            params: self.params@,
            ret_ty: self.ret_ty,
            span: self.span,
            ident_span: self.ident_span,
            sig_span: self.sig_span,
        }
    }
}

/// One lexical scope: its bindings and the index of its parent scope in
/// the arena; the root scope has no parent.
#[derive(Debug)]
pub struct Scope {
    vars: Vec<(Ident, VarSymbol)>,
    funcs: Vec<(Ident, FuncSymbol)>,
    parent: Option<usize>,
}

/// Mathematical model of a scope: bindings keyed by name.
pub struct ScopeM {
    pub vars: Seq<(Seq<char>, VarSymbol)>,
    pub funcs: Seq<(Seq<char>, FuncSymbolM)>,
    pub parent: Option<int>,
}

/// The models of a scope's variable entries.
pub open spec fn ventries_m(es: Seq<(Ident, VarSymbol)>) -> Seq<(Seq<char>, VarSymbol)>
    decreases es,
{
    if es.len() == 0 {
        Seq::empty()
    } else {
        ventries_m(es.drop_last()).push((es.last().0.ident@, es.last().1))
    }
}

/// The models of a scope's function entries.
pub open spec fn fentries_m(es: Seq<(Ident, FuncSymbol)>) -> Seq<(Seq<char>, FuncSymbolM)>
    decreases es,
{
    if es.len() == 0 {
        Seq::empty()
    } else {
        fentries_m(es.drop_last()).push((es.last().0.ident@, es.last().1.m()))
    }
}

/// The length of the modelled variable entries equals the underlying list's, and
/// each element is the model of the element there.
pub proof fn lemma_ventries_m(es: Seq<(Ident, VarSymbol)>)
    ensures
        ventries_m(es).len() == es.len(),
        forall|j: int|
            0 <= j < es.len() ==> #[trigger] ventries_m(es)[j] == (es[j].0.ident@, es[j].1),
    decreases es,
{
    if es.len() > 0 {
        lemma_ventries_m(es.drop_last());
        assert forall|j: int|
            0 <= j < es.len() implies #[trigger] ventries_m(es)[j] == (es[j].0.ident@, es[j].1) by {
            if j < es.len() - 1 {
                assert(es.drop_last()[j] == es[j]);
            }
        }
    }
}

/// The length of the modelled function entries equals the underlying list's, and
/// each element is the model of the element there.
pub proof fn lemma_fentries_m(es: Seq<(Ident, FuncSymbol)>)
    ensures
        fentries_m(es).len() == es.len(),
        forall|j: int|
            0 <= j < es.len() ==> #[trigger] fentries_m(es)[j] == (es[j].0.ident@, es[j].1.m()),
    decreases es,
{
    if es.len() > 0 {
        lemma_fentries_m(es.drop_last());
        assert forall|j: int|
            0 <= j < es.len() implies #[trigger] fentries_m(es)[j] == (
                es[j].0.ident@,
                es[j].1.m(),
            ) by {
            if j < es.len() - 1 {
                assert(es.drop_last()[j] == es[j]);
            }
        }
    }
}

impl Scope {
    /// The model of this scope.
    pub closed spec fn m(&self) -> ScopeM {
        ScopeM {
            vars: ventries_m(self.vars@),
            funcs: fentries_m(self.funcs@),
            parent: match self.parent {
                Some(p) => Some(p as int),
                None => None,
            },
        }
    }
}

/// The variable bound to `name` in one scope, if any.
pub open spec fn assoc_var(es: Seq<(Seq<char>, VarSymbol)>, name: Seq<char>) -> Option<VarSymbol>
    decreases es,
{
    if es.len() == 0 {
        None
    } else if es[0].0 == name {
        Some(es[0].1)
    } else {
        assoc_var(es.drop_first(), name)
    }
}

/// The function bound to `name` in one scope, if any.
pub open spec fn assoc_fn(es: Seq<(Seq<char>, FuncSymbolM)>, name: Seq<char>) -> Option<
    FuncSymbolM,
>
    decreases es,
{
    if es.len() == 0 {
        None
    } else if es[0].0 == name {
        Some(es[0].1)
    } else {
        assoc_fn(es.drop_first(), name)
    }
}

/// A well-formed arena: every scope's parent comes before it, so every
/// parent chain reaches the root.
pub open spec fn table_wf(scopes: Seq<ScopeM>) -> bool {
    forall|i: int|
        0 <= i < scopes.len() ==> match #[trigger] scopes[i].parent {
            Some(p) => 0 <= p < i,
            None => true,
        }
}

/// The variable bound to `name` in the scope `idx` or the nearest
/// enclosing scope that binds it.
pub open spec fn lookup_var(scopes: Seq<ScopeM>, idx: int, name: Seq<char>) -> Option<VarSymbol>
    decreases idx,
        when 0 <= idx < scopes.len() && table_wf(scopes)
{
    match assoc_var(scopes[idx].vars, name) {
        Some(v) => Some(v),
        None => match scopes[idx].parent {
            Some(p) => lookup_var(scopes, p, name),
            None => None,
        },
    }
}

/// The function bound to `name` in the scope `idx` or the nearest
/// enclosing scope that binds it.
pub open spec fn lookup_fn(scopes: Seq<ScopeM>, idx: int, name: Seq<char>) -> Option<FuncSymbolM>
    decreases idx,
        when 0 <= idx < scopes.len() && table_wf(scopes)
{
    match assoc_fn(scopes[idx].funcs, name) {
        Some(f) => Some(f),
        None => match scopes[idx].parent {
            Some(p) => lookup_fn(scopes, p, name),
            None => None,
        },
    }
}

/// The parameter types of a function declaration, in order.
pub open spec fn spec_param_types(ps: Seq<Parameter>) -> Seq<Type>
    decreases ps,
{
    if ps.len() == 0 {
        Seq::empty()
    } else {
        spec_param_types(ps.drop_last()).push(ps.last().ty)
    }
}

/// The symbol table: an arena of scopes, index 0 being the global scope.
#[derive(Debug)]
pub struct SymbolTable {
    scopes: Vec<Scope>,
}

impl SymbolTable {
    /// The models of the scopes.
    pub closed spec fn m(&self) -> Seq<ScopeM>
        decreases self,
    {
        Self::scopes_m(self.scopes@)
    }

    /// The models of a sequence of scopes.
    pub closed spec fn scopes_m(ss: Seq<Scope>) -> Seq<ScopeM>
        decreases ss,
    {
        if ss.len() == 0 {
            Seq::empty()
        } else {
            Self::scopes_m(ss.drop_last()).push(ss.last().m())
        }
    }

    proof fn lemma_scopes_m(ss: Seq<Scope>)
        ensures
            Self::scopes_m(ss).len() == ss.len(),
            forall|j: int| 0 <= j < ss.len() ==> #[trigger] Self::scopes_m(ss)[j] == ss[j].m(),
        decreases ss,
    {
        if ss.len() > 0 {
            Self::lemma_scopes_m(ss.drop_last());
            assert forall|j: int|
                0 <= j < ss.len() implies #[trigger] Self::scopes_m(ss)[j] == ss[j].m() by {
                if j < ss.len() - 1 {
                    assert(ss.drop_last()[j] == ss[j]);
                }
            }
        }
    }

    /// A well-formed table.
    pub open spec fn wf(&self) -> bool {
        table_wf(self.m()) && self.m().len() > 0
    }

    /// A fresh table holding only the empty global scope.
    pub fn new() -> (r: SymbolTable)
        ensures
            r.wf(),
            r.m().len() == 1,
            r.m()[0].vars == Seq::<(Seq<char>, VarSymbol)>::empty(),
            r.m()[0].funcs == Seq::<(Seq<char>, FuncSymbolM)>::empty(),
            r.m()[0].parent is None,
    {
        let mut scopes: Vec<Scope> = Vec::new();
        scopes.push(Scope { vars: Vec::new(), funcs: Vec::new(), parent: None });
        let r = SymbolTable { scopes };
        proof {
            Self::lemma_scopes_m(r.scopes@);
            assert(ventries_m(r.scopes@[0].vars@) =~= Seq::<(Seq<char>, VarSymbol)>::empty());
            assert(fentries_m(r.scopes@[0].funcs@) =~= Seq::<(Seq<char>, FuncSymbolM)>::empty());
        }
        r
    }

    /// Opens a new scope whose parent is `parent`, and returns its index.
    pub fn child(&mut self, parent: usize) -> (r: usize)
        requires
            old(self).wf(),
            parent < old(self).m().len(),
        ensures
            final(self).wf(),
            r == old(self).m().len(),
            final(self).m() == old(self).m().push(
                ScopeM {
                    vars: Seq::empty(),
                    funcs: Seq::empty(),
                    parent: Some(parent as int),
                },
            ),
    {
        proof {
            Self::lemma_scopes_m(self.scopes@);
        }
        let idx = self.scopes.len();
        self.scopes.push(Scope { vars: Vec::new(), funcs: Vec::new(), parent: Some(parent) });
        proof {
            Self::lemma_scopes_m(self.scopes@);
            assert(self.scopes@.drop_last() =~= old(self).scopes@);
            assert(ventries_m(self.scopes@.last().vars@) =~= Seq::<(Seq<char>, VarSymbol)>::empty());
            assert(fentries_m(self.scopes@.last().funcs@) =~= Seq::<
                (Seq<char>, FuncSymbolM),
            >::empty());
            assert(final(self).m() =~= old(self).m().push(
                ScopeM { vars: Seq::empty(), funcs: Seq::empty(), parent: Some(parent as int) },
            ));
        }
        idx
    }

    /// The index of the entry binding `name` in a scope's variable list,
    /// if any.
    #[verifier::loop_isolation(false)]
    fn find_var_entry(&self, scope: usize, name: &String) -> (r: Option<usize>)
        requires
            self.wf(),
            scope < self.m().len(),
        ensures
            match r {
                Some(i) => i < self.m()[scope as int].vars.len() && self.m()[scope as int].vars[
                    i as int
                ].0 == name@ && assoc_var(self.m()[scope as int].vars, name@) == Some(
                    self.m()[scope as int].vars[i as int].1,
                ),
                None => assoc_var(self.m()[scope as int].vars, name@) is None,
            },
    {
        proof {
            Self::lemma_scopes_m(self.scopes@);
            lemma_ventries_m(self.scopes@[scope as int].vars@);
        }
        let ghost entries = self.m()[scope as int].vars;
        let n = self.scopes[scope].vars.len();
        proof {
            assert(n == entries.len());
            assert(entries.skip(0) =~= entries);
        }
        let mut i: usize = 0;
        while i < n
            invariant
                i <= n,
                assoc_var(entries, name@) == assoc_var(entries.skip(i as int), name@),
            decreases n - i,
        {
            proof {
                assert(entries.skip(i as int)[0] == entries[i as int]);
                assert(entries.skip(i as int).drop_first() =~= entries.skip(i as int + 1));
            }
            if crate::token::str_eq(self.scopes[scope].vars[i].0.ident.as_str(), name.as_str()) {
                return Some(i);
            }
            i = i + 1;
        }
        proof {
            assert(entries.skip(n as int) =~= Seq::<(Seq<char>, VarSymbol)>::empty());
        }
        None
    }

    /// The index of the entry binding `name` in a scope's function list,
    /// if any.
    #[verifier::loop_isolation(false)]
    fn find_fn_entry(&self, scope: usize, name: &String) -> (r: Option<usize>)
        requires
            self.wf(),
            scope < self.m().len(),
        ensures
            match r {
                Some(i) => i < self.m()[scope as int].funcs.len() && self.m()[scope as int].funcs[
                    i as int
                ].0 == name@ && assoc_fn(self.m()[scope as int].funcs, name@) == Some(
                    self.m()[scope as int].funcs[i as int].1,
                ),
                None => assoc_fn(self.m()[scope as int].funcs, name@) is None,
            },
    {
        proof {
            Self::lemma_scopes_m(self.scopes@);
            lemma_fentries_m(self.scopes@[scope as int].funcs@);
        }
        let ghost entries = self.m()[scope as int].funcs;
        let n = self.scopes[scope].funcs.len();
        proof {
            assert(n == entries.len());
            assert(entries.skip(0) =~= entries);
        }
        let mut i: usize = 0;
        while i < n
            invariant
                i <= n,
                assoc_fn(entries, name@) == assoc_fn(entries.skip(i as int), name@),
            decreases n - i,
        {
            proof {
                assert(entries.skip(i as int)[0] == entries[i as int]);
                assert(entries.skip(i as int).drop_first() =~= entries.skip(i as int + 1));
            }
            if crate::token::str_eq(self.scopes[scope].funcs[i].0.ident.as_str(), name.as_str()) {
                return Some(i);
            }
            i = i + 1;
        }
        proof {
            assert(entries.skip(n as int) =~= Seq::<(Seq<char>, FuncSymbolM)>::empty());
        }
        None
    }

    /// Binds a variable in a scope; a second binding of the same name in
    /// the same scope is a redeclaration error, and the first binding
    /// stays.
    pub fn add_var(&mut self, scope: usize, var: &VariableDecl) -> (r: Result<(), SemanticError>)
        requires
            old(self).wf(),
            scope < old(self).m().len(),
        ensures
            final(self).wf(),
            final(self).m().len() == old(self).m().len(),
            match r {
                Ok(()) => assoc_var(old(self).m()[scope as int].vars, var.ident.ident@) is None
                    && final(self).m() == old(self).m().update(
                    scope as int,
                    ScopeM {
                        vars: old(self).m()[scope as int].vars.push(
                            (var.ident.ident@, VarSymbol { ty: var.ty, span: var.span }),
                        ),
                        funcs: old(self).m()[scope as int].funcs,
                        parent: old(self).m()[scope as int].parent,
                    },
                ),
                Err(e) => final(self).m() == old(self).m() && match assoc_var(
                    old(self).m()[scope as int].vars,
                    var.ident.ident@,
                ) {
                    Some(existing) => e.m() == SemanticErrorM::VariableAlreadyDeclared(
                        var.ident.m(),
                        var.span,
                        existing.span,
                    ),
                    None => false,
                },
            },
    {
        match self.find_var_entry(scope, &var.ident.ident) {
            Some(i) => {
                proof {
                    Self::lemma_scopes_m(self.scopes@);
                    lemma_ventries_m(self.scopes@[scope as int].vars@);
                }
                let existing_span = self.scopes[scope].vars[i].1.span;
                Err(
                    SemanticError::VariableAlreadyDeclared(
                        var.ident.clone(),
                        var.span,
                        existing_span,
                    ),
                )
            },
            None => {
                proof {
                    Self::lemma_scopes_m(self.scopes@);
                }
                let entry = (var.ident.clone(), VarSymbol { ty: var.ty, span: var.span });
                let sc = &mut self.scopes[scope];
                sc.vars.push(entry);
                proof {
                    Self::lemma_scopes_m(self.scopes@);
                    assert(self.scopes@[scope as int].vars@.drop_last() =~= old(
                        self,
                    ).scopes@[scope as int].vars@);
                    assert(final(self).m() =~= old(self).m().update(
                        scope as int,
                        ScopeM {
                            vars: old(self).m()[scope as int].vars.push(
                                (var.ident.ident@, VarSymbol { ty: var.ty, span: var.span }),
                            ),
                            funcs: old(self).m()[scope as int].funcs,
                            parent: old(self).m()[scope as int].parent,
                        },
                    ));
                }
                Ok(())
            },
        }
    }

    /// Binds a parameter in a scope; a second binding of the same name in
    /// the same scope is a redeclaration error, and the first binding
    /// stays.
    pub fn add_param(&mut self, scope: usize, param: &Parameter) -> (r: Result<(), SemanticError>)
        requires
            old(self).wf(),
            scope < old(self).m().len(),
        ensures
            final(self).wf(),
            final(self).m().len() == old(self).m().len(),
            match r {
                Ok(()) => assoc_var(old(self).m()[scope as int].vars, param.ident.ident@) is None
                    && final(self).m() == old(self).m().update(
                    scope as int,
                    ScopeM {
                        vars: old(self).m()[scope as int].vars.push(
                            (param.ident.ident@, VarSymbol { ty: param.ty, span: param.span }),
                        ),
                        funcs: old(self).m()[scope as int].funcs,
                        parent: old(self).m()[scope as int].parent,
                    },
                ),
                Err(e) => final(self).m() == old(self).m() && match assoc_var(
                    old(self).m()[scope as int].vars,
                    param.ident.ident@,
                ) {
                    Some(existing) => e.m() == SemanticErrorM::VariableAlreadyDeclared(
                        param.ident.m(),
                        param.span,
                        existing.span,
                    ),
                    None => false,
                },
            },
    {
        match self.find_var_entry(scope, &param.ident.ident) {
            Some(i) => {
                proof {
                    Self::lemma_scopes_m(self.scopes@);
                    lemma_ventries_m(self.scopes@[scope as int].vars@);
                }
                let existing_span = self.scopes[scope].vars[i].1.span;
                Err(
                    SemanticError::VariableAlreadyDeclared(
                        param.ident.clone(),
                        param.span,
                        existing_span,
                    ),
                )
            },
            None => {
                proof {
                    Self::lemma_scopes_m(self.scopes@);
                }
                let entry = (param.ident.clone(), VarSymbol { ty: param.ty, span: param.span });
                let sc = &mut self.scopes[scope];
                sc.vars.push(entry);
                proof {
                    Self::lemma_scopes_m(self.scopes@);
                    assert(self.scopes@[scope as int].vars@.drop_last() =~= old(
                        self,
                    ).scopes@[scope as int].vars@);
                    assert(final(self).m() =~= old(self).m().update(
                        scope as int,
                        ScopeM {
                            vars: old(self).m()[scope as int].vars.push(
                                (param.ident.ident@, VarSymbol { ty: param.ty, span: param.span }),
                            ),
                            funcs: old(self).m()[scope as int].funcs,
                            parent: old(self).m()[scope as int].parent,
                        },
                    ));
                }
                Ok(())
            },
        }
    }

    /// Binds a function in a scope; a second binding of the same name is a
    /// redeclaration error, and the first binding stays and keeps serving
    /// lookups.
    #[verifier::loop_isolation(false)]
    pub fn add_fn(&mut self, scope: usize, func: &FunctionDecl) -> (r: Result<(), SemanticError>)
        requires
            old(self).wf(),
            scope < old(self).m().len(),
        ensures
            final(self).wf(),
            final(self).m().len() == old(self).m().len(),
            match r {
                Ok(()) => assoc_fn(old(self).m()[scope as int].funcs, func.ident.ident@) is None
                    && final(self).m() == old(self).m().update(
                    scope as int,
                    ScopeM {
                        vars: old(self).m()[scope as int].vars,
                        funcs: old(self).m()[scope as int].funcs.push(
                            (func.ident.ident@, spec_func_symbol(func)),
                        ),
                        parent: old(self).m()[scope as int].parent,
                    },
                ),
                Err(e) => final(self).m() == old(self).m() && match assoc_fn(
                    old(self).m()[scope as int].funcs,
                    func.ident.ident@,
                ) {
                    Some(existing) => e.m() == SemanticErrorM::FunctionAlreadyDeclared(
                        func.ident.m(),
                        func.span,
                        existing.span,
                    ),
                    None => false,
                },
            },
    {
        match self.find_fn_entry(scope, &func.ident.ident) {
            Some(i) => {
                proof {
                    Self::lemma_scopes_m(self.scopes@);
                    lemma_fentries_m(self.scopes@[scope as int].funcs@);
                }
                let existing_span = self.scopes[scope].funcs[i].1.span;
                Err(
                    SemanticError::FunctionAlreadyDeclared(
                        func.ident.clone(),
                        func.span,
                        existing_span,
                    ),
                )
            },
            None => {
                proof {
                    Self::lemma_scopes_m(self.scopes@);
                }
                let mut params: Vec<Type> = Vec::new();
                let mut i: usize = 0;
                proof {
                    assert(params@ =~= spec_param_types(func.parameters@.take(0)));
                }
                while i < func.parameters.len()
                    invariant
                        i <= func.parameters@.len(),
                        params@ == spec_param_types(func.parameters@.take(i as int)),
                    decreases func.parameters@.len() - i,
                {
                    proof {
                        assert(func.parameters@.take(i as int + 1).drop_last() =~= func.parameters@.take(
                            i as int,
                        ));
                        assert(func.parameters@.take(i as int + 1).last() == func.parameters@[i as int]);
                    }
                    params.push(func.parameters[i].ty);
                    i = i + 1;
                }
                proof {
                    assert(func.parameters@.take(func.parameters@.len() as int)
                        =~= func.parameters@);
                }
                let sig_span = Span::combine(&func.ident.span, &func.ty.span());
                let entry = (
                    func.ident.clone(),
                    FuncSymbol {
                        params,
                        ret_ty: func.ty,
                        span: func.span,
                        ident_span: func.ident.span,
                        sig_span,
                    },
                );
                let sc = &mut self.scopes[scope];
                sc.funcs.push(entry);
                proof {
                    Self::lemma_scopes_m(self.scopes@);
                    assert(self.scopes@[scope as int].funcs@.drop_last() =~= old(
                        self,
                    ).scopes@[scope as int].funcs@);
                    assert(final(self).m() =~= old(self).m().update(
                        scope as int,
                        ScopeM {
                            vars: old(self).m()[scope as int].vars,
                            funcs: old(self).m()[scope as int].funcs.push(
                                (func.ident.ident@, spec_func_symbol(func)),
                            ),
                            parent: old(self).m()[scope as int].parent,
                        },
                    ));
                }
                Ok(())
            },
        }
    }

    /// The variable bound to `name` in `scope` or the nearest enclosing
    /// scope that binds it.
    #[verifier::loop_isolation(false)]
    pub fn get_var(&self, scope: usize, name: &Ident) -> (r: Option<VarSymbol>)
        requires
            self.wf(),
            scope < self.m().len(),
        ensures
            r == lookup_var(self.m(), scope as int, name.ident@),
    {
        let mut cur = scope;
        loop
            invariant
                self.wf(),
                cur < self.m().len(),
                lookup_var(self.m(), scope as int, name.ident@) == lookup_var(
                    self.m(),
                    cur as int,
                    name.ident@,
                ),
            decreases cur,
        {
            match self.find_var_entry(cur, &name.ident) {
                Some(i) => {
                    proof {
                        Self::lemma_scopes_m(self.scopes@);
                        lemma_ventries_m(self.scopes@[cur as int].vars@);
                    }
                    return Some(self.scopes[cur].vars[i].1);
                },
                None => {
                    proof {
                        Self::lemma_scopes_m(self.scopes@);
                    }
                    let parent = self.scopes[cur].parent;
                    match parent {
                        Some(p) => {
                            cur = p;
                        },
                        None => {
                            return None;
                        },
                    }
                },
            }
        }
    }

    /// The function bound to `name` in `scope` or the nearest enclosing
    /// scope that binds it.
    #[verifier::loop_isolation(false)]
    pub fn get_fn(&self, scope: usize, name: &Ident) -> (r: Option<&FuncSymbol>)
        requires
            self.wf(),
            scope < self.m().len(),
        ensures
            match r {
                Some(f) => lookup_fn(self.m(), scope as int, name.ident@) == Some(f.m()),
                None => lookup_fn(self.m(), scope as int, name.ident@) is None,
            },
    {
        let mut cur = scope;
        loop
            invariant
                self.wf(),
                cur < self.m().len(),
                lookup_fn(self.m(), scope as int, name.ident@) == lookup_fn(
                    self.m(),
                    cur as int,
                    name.ident@,
                ),
            decreases cur,
        {
            match self.find_fn_entry(cur, &name.ident) {
                Some(i) => {
                    proof {
                        Self::lemma_scopes_m(self.scopes@);
                        lemma_fentries_m(self.scopes@[cur as int].funcs@);
                    }
                    return Some(&self.scopes[cur].funcs[i].1);
                },
                None => {
                    proof {
                        Self::lemma_scopes_m(self.scopes@);
                    }
                    let parent = self.scopes[cur].parent;
                    match parent {
                        Some(p) => {
                            cur = p;
                        },
                        None => {
                            return None;
                        },
                    }
                },
            }
        }
    }
}

/// The function binding that registering a declaration creates.
pub open spec fn spec_func_symbol(func: &FunctionDecl) -> FuncSymbolM {
    FuncSymbolM {
        params: spec_param_types(func.parameters@),
        ret_ty: func.ty,
        span: func.span,
        ident_span: func.ident.span,
        sig_span: Span {
            start: if func.ident.span.start <= func.ty.spec_span().start {
                func.ident.span.start
            } else {
                func.ty.spec_span().start
            },
            end: if func.ident.span.end >= func.ty.spec_span().end {
                func.ident.span.end
            } else {
                func.ty.spec_span().end
            },
        },
    }
}

} // verus!
