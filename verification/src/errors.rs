//! The error and warning taxonomy of the front end: lexical and syntactic
//! errors, semantic errors, and advisory warnings, each carrying the spans
//! and structured context a renderer needs.

use vstd::prelude::*;
use vstd::string::StringExecFns;

use crate::ast::{Ident, IdentM, Type};
use crate::token::{spec_text, ReportableSpan, Span, TokenKind, TokenKindM};

verus! {

/// A lexical or syntactic error.
#[derive(Debug)]
pub enum LangError {
    /// An unexpected character was found.
    UnexpectedCharacter(String, Span),
    /// A string was not terminated.
    UnterminatedString(Span),
    /// A particular token was expected, another was found.
    ExpectedToken { expected: TokenKind, found: TokenKind, span: Span },
    /// One of several tokens was expected, another was found.
    ExpectedAnyToken { expected: Vec<TokenKind>, found: TokenKind, span: Span },
    /// The input ended where more was expected.
    UnexpectedEOF(Span),
    /// A literal that cannot be represented.
    InvalidLiteral(String, Span),
}

/// Mathematical model of a lexical or syntactic error.
pub enum LangErrorM {
    UnexpectedCharacter(Seq<char>, Span),
    UnterminatedString(Span),
    ExpectedToken { expected: TokenKindM, found: TokenKindM, span: Span },
    ExpectedAnyToken { expected: Seq<TokenKindM>, found: TokenKindM, span: Span },
    UnexpectedEOF(Span),
    InvalidLiteral(Seq<char>, Span),
}

/// The models of a sequence of token kinds.
pub open spec fn kinds_m(ks: Seq<TokenKind>) -> Seq<TokenKindM>
    decreases ks,
{
    if ks.len() == 0 {
        Seq::empty()
    } else {
        kinds_m(ks.drop_last()).push(ks.last().m())
    }
}

impl LangError {
    /// The model of this error.
    pub open spec fn m(&self) -> LangErrorM {
        match self {
            LangError::UnexpectedCharacter(s, span) => LangErrorM::UnexpectedCharacter(s@, *span),
            LangError::UnterminatedString(span) => LangErrorM::UnterminatedString(*span),
            LangError::ExpectedToken { expected, found, span } => LangErrorM::ExpectedToken {
                expected: expected.m(),
                found: found.m(),
                span: *span,
            },
            LangError::ExpectedAnyToken { expected, found, span } => LangErrorM::ExpectedAnyToken {
                expected: kinds_m(expected@),
                found: found.m(),
                span: *span,
            },
            LangError::UnexpectedEOF(span) => LangErrorM::UnexpectedEOF(*span),
            LangError::InvalidLiteral(s, span) => LangErrorM::InvalidLiteral(s@, *span),
        }
    }

    /// The span the error points at.
    pub open spec fn spec_span(&self) -> Span {
        match self {
            LangError::UnexpectedCharacter(_, span) => *span,
            LangError::UnterminatedString(span) => *span,
            LangError::ExpectedToken { span, .. } => *span,
            LangError::ExpectedAnyToken { span, .. } => *span,
            LangError::UnexpectedEOF(span) => *span,
            LangError::InvalidLiteral(_, span) => *span,
        }
    }

    /// The span of the error, paired with its file identifier.
    pub fn span(&self, file: String) -> (r: ReportableSpan)
        ensures
            r.file@ == file@,
            r.start == self.spec_span().start,
            r.end == self.spec_span().end,
    {
        let span = match self {
            LangError::UnexpectedCharacter(_, span) => span,
            LangError::UnterminatedString(span) => span,
            LangError::ExpectedToken { span, .. } => span,
            LangError::ExpectedAnyToken { span, .. } => span,
            LangError::UnexpectedEOF(span) => span,
            LangError::InvalidLiteral(_, span) => span,
        };
        ReportableSpan::new(file, span)
    }
}

/// The text of a token list in a message: each token's canonical text in
/// backquotes, the entries separated by commas.
pub open spec fn spec_any_tokens_text(ks: Seq<TokenKindM>) -> Seq<char>
    decreases ks,
{
    if ks.len() == 0 {
        Seq::empty()
    } else if ks.len() == 1 {
        "`"@ + spec_text(ks[0]) + "`"@
    } else {
        "`"@ + spec_text(ks[0]) + "`, "@ + spec_any_tokens_text(ks.drop_first())
    }
}

impl LangError {
    /// The text of a token list in a message.
    pub fn any_tokens_display(tokens: &Vec<TokenKind>) -> (r: String)
        ensures
            r@ == spec_any_tokens_text(kinds_m(tokens@)),
    {
        let mut s = String::new();
        let mut i: usize = 0;
        proof {
            lemma_kinds_m_len(tokens@);
            assert(kinds_m(tokens@).skip(0) =~= kinds_m(tokens@));
            assert(s@ + spec_any_tokens_text(kinds_m(tokens@)) =~= spec_any_tokens_text(
                kinds_m(tokens@),
            ));
        }
        while i < tokens.len()
            invariant
                i <= tokens.len(),
                kinds_m(tokens@).len() == tokens@.len(),
                forall|j: int| 0 <= j < tokens@.len() ==> kinds_m(tokens@)[j] == #[trigger] tokens@[j].m(),
                s@ + spec_any_tokens_text(kinds_m(tokens@).skip(i as int)) == spec_any_tokens_text(
                    kinds_m(tokens@),
                ),
            decreases tokens.len() - i,
        {
            let ghost s0 = s@;
            let ghost rest = kinds_m(tokens@).skip(i as int);
            proof {
                assert(rest[0] == tokens@[i as int].m());
            }
            s.append("`");
            let t = tokens[i].text();
            s.append(t.as_str());
            s.append("`");
            if i + 1 < tokens.len() {
                s.append(", ");
                proof {
                    reveal_strlit("`");
                    reveal_strlit(", ");
                    reveal_strlit("`, ");
                    assert(rest.drop_first() =~= kinds_m(tokens@).skip(i as int + 1));
                    assert(spec_any_tokens_text(rest) == "`"@ + spec_text(rest[0]) + "`, "@
                        + spec_any_tokens_text(rest.drop_first()));
                    assert(s@ + spec_any_tokens_text(rest.drop_first()) =~= s0
                        + spec_any_tokens_text(rest));
                }
            } else {
                proof {
                    assert(rest.len() == 1);
                    assert(spec_any_tokens_text(rest) == "`"@ + spec_text(rest[0]) + "`"@);
                    assert(kinds_m(tokens@).skip(i as int + 1) =~= Seq::<TokenKindM>::empty());
                    assert(s@ + Seq::<char>::empty() =~= s@);
                    assert(s@ =~= s0 + spec_any_tokens_text(rest));
                }
            }
            i = i + 1;
        }
        proof {
            assert(kinds_m(tokens@).skip(tokens@.len() as int) =~= Seq::<TokenKindM>::empty());
            assert(s@ + Seq::<char>::empty() =~= s@);
        }
        s
    }
}

/// The length of a modelled token-kind sequence equals the underlying list's, and
/// each element is the model of the element there.
pub proof fn lemma_kinds_m_len(ks: Seq<TokenKind>)
    ensures
        kinds_m(ks).len() == ks.len(),
        forall|j: int| 0 <= j < ks.len() ==> #[trigger] kinds_m(ks)[j] == ks[j].m(),
    decreases ks,
{
    if ks.len() > 0 {
        lemma_kinds_m_len(ks.drop_last());
        assert forall|j: int| 0 <= j < ks.len() implies #[trigger] kinds_m(ks)[j] == ks[j].m() by {
            if j < ks.len() - 1 {
                assert(ks.drop_last()[j] == ks[j]);
            }
        }
    }
}

/// The message of a lexical or syntactic error.
pub open spec fn spec_lang_error_message(e: LangErrorM) -> Seq<char> {
    match e {
        LangErrorM::UnexpectedCharacter(s, _) => "Unexpected character: `"@ + s + "`"@,
        LangErrorM::UnterminatedString(_) => "Unterminated string"@,
        LangErrorM::ExpectedToken { expected, found, .. } => "Expected token: "@ + spec_text(
            expected,
        ) + ", found: `"@ + spec_text(found) + "`"@,
        LangErrorM::ExpectedAnyToken { expected, found, .. } => "Expected any of the tokens: "@
            + spec_any_tokens_text(expected) + ", found: `"@ + spec_text(found) + "`"@,
        LangErrorM::UnexpectedEOF(_) => "Unexpected EOF"@,
        LangErrorM::InvalidLiteral(s, _) => "Invalid literal: `"@ + s + "`"@,
    }
}

impl LangError {
    /// A human-readable message for this error.
    pub fn message(&self) -> (r: String)
        ensures
            r@ == spec_lang_error_message(self.m()),
    {
        match self {
            LangError::UnexpectedCharacter(s, _) => {
                let mut m = String::from_str("Unexpected character: `");
                m.append(s.as_str());
                m.append("`");
                m
            },
            LangError::UnterminatedString(_) => String::from_str("Unterminated string"),
            LangError::ExpectedToken { expected, found, .. } => {
                let mut m = String::from_str("Expected token: ");
                let e = expected.text();
                m.append(e.as_str());
                m.append(", found: `");
                let f = found.text();
                m.append(f.as_str());
                m.append("`");
                m
            },
            LangError::ExpectedAnyToken { expected, found, .. } => {
                let mut m = String::from_str("Expected any of the tokens: ");
                let list = LangError::any_tokens_display(expected);
                m.append(list.as_str());
                m.append(", found: `");
                let f = found.text();
                m.append(f.as_str());
                m.append("`");
                m
            },
            LangError::UnexpectedEOF(_) => String::from_str("Unexpected EOF"),
            LangError::InvalidLiteral(s, _) => {
                let mut m = String::from_str("Invalid literal: `");
                m.append(s.as_str());
                m.append("`");
                m
            },
        }
    }
}

/// An error found during semantic analysis; every variant fails the build.
#[derive(Debug)]
pub enum SemanticError {
    /// No function named `main` exists.
    MissingMainFunction(Span),
    /// A function name was declared a second time; the spans are the new
    /// and the existing declaration.
    FunctionAlreadyDeclared(Ident, Span, Span),
    /// A variable name was declared a second time in one scope; the spans
    /// are the new and the existing declaration.
    VariableAlreadyDeclared(Ident, Span, Span),
    /// `main` declares a return type other than `int`.
    MainMustReturnInt(Span),
    /// A function body contains no reachable `return` statement.
    MissingReturnStatement(Span),
    /// A reachable `return` yields a type other than the declared one.
    IncompatibleReturnType { expected_type: Type, expected_span: Span, found_type: Type, found_span: Span },
    /// Some path through the function body reaches the end without a
    /// `return`.
    ReturnNotGuaranteed(Span),
    /// Two types had to agree and do not.
    TypesDoNotMatch { expected_type: Type, expected_span: Span, found_type: Type, found_span: Span },
    /// An `if` condition is not a boolean.
    NonBooleanCondition { found_type: Type, found_span: Span },
    /// A call names a function that no declaration introduces.
    FunctionNotDeclared(Ident, Span),
    /// An expression names a variable that no declaration in scope
    /// introduces.
    VariableNotDeclared(Ident, Span),
    /// A call passes a different number of arguments than the function
    /// declares.
    ArgumentCountMismatch { expected: usize, found: usize, call_span: Span, decl_span: Span },
    /// A unary operator was applied to an operand type it does not accept.
    UnsupportedUnaryOperation { operator: String, operand_type: Type, span: Span },
    /// A binary operator was applied to an operand type it does not accept.
    UnsupportedBinaryOperation { operator: String, operand_type: Type, span: Span },
}

/// Mathematical model of a semantic error.
pub enum SemanticErrorM {
    MissingMainFunction(Span),
    FunctionAlreadyDeclared(IdentM, Span, Span),
    VariableAlreadyDeclared(IdentM, Span, Span),
    MainMustReturnInt(Span),
    MissingReturnStatement(Span),
    IncompatibleReturnType { expected_type: Type, expected_span: Span, found_type: Type, found_span: Span },
    ReturnNotGuaranteed(Span),
    TypesDoNotMatch { expected_type: Type, expected_span: Span, found_type: Type, found_span: Span },
    NonBooleanCondition { found_type: Type, found_span: Span },
    FunctionNotDeclared(IdentM, Span),
    VariableNotDeclared(IdentM, Span),
    ArgumentCountMismatch { expected: usize, found: usize, call_span: Span, decl_span: Span },
    UnsupportedUnaryOperation { operator: Seq<char>, operand_type: Type, span: Span },
    UnsupportedBinaryOperation { operator: Seq<char>, operand_type: Type, span: Span },
}

impl SemanticError {
    /// The model of this error.
    pub open spec fn m(&self) -> SemanticErrorM {
        match self {
            SemanticError::MissingMainFunction(span) => SemanticErrorM::MissingMainFunction(*span),
            SemanticError::FunctionAlreadyDeclared(i, s1, s2) => SemanticErrorM::FunctionAlreadyDeclared(
                i.m(),
                *s1,
                *s2,
            ),
            SemanticError::VariableAlreadyDeclared(i, s1, s2) => SemanticErrorM::VariableAlreadyDeclared(
                i.m(),
                *s1,
                *s2,
            ),
            SemanticError::MainMustReturnInt(span) => SemanticErrorM::MainMustReturnInt(*span),
            SemanticError::MissingReturnStatement(span) => SemanticErrorM::MissingReturnStatement(*span),
            SemanticError::IncompatibleReturnType { expected_type, expected_span, found_type, found_span } => SemanticErrorM::IncompatibleReturnType {
                expected_type: *expected_type,
                expected_span: *expected_span,
                found_type: *found_type,
                found_span: *found_span,
            },
            SemanticError::ReturnNotGuaranteed(span) => SemanticErrorM::ReturnNotGuaranteed(*span),
            SemanticError::TypesDoNotMatch { expected_type, expected_span, found_type, found_span } => SemanticErrorM::TypesDoNotMatch {
                expected_type: *expected_type,
                expected_span: *expected_span,
                found_type: *found_type,
                found_span: *found_span,
            },
            SemanticError::NonBooleanCondition { found_type, found_span } => SemanticErrorM::NonBooleanCondition {
                found_type: *found_type,
                found_span: *found_span,
            },
            SemanticError::FunctionNotDeclared(i, span) => SemanticErrorM::FunctionNotDeclared(i.m(), *span),
            SemanticError::VariableNotDeclared(i, span) => SemanticErrorM::VariableNotDeclared(i.m(), *span),
            SemanticError::ArgumentCountMismatch { expected, found, call_span, decl_span } => SemanticErrorM::ArgumentCountMismatch {
                expected: *expected,
                found: *found,
                call_span: *call_span,
                decl_span: *decl_span,
            },
            SemanticError::UnsupportedUnaryOperation { operator, operand_type, span } => SemanticErrorM::UnsupportedUnaryOperation {
                operator: operator@,
                operand_type: *operand_type,
                span: *span,
            },
            SemanticError::UnsupportedBinaryOperation { operator, operand_type, span } => SemanticErrorM::UnsupportedBinaryOperation {
                operator: operator@,
                operand_type: *operand_type,
                span: *span,
            },
        }
    }

    /// The first span the error points at.
    pub open spec fn spec_first_span(&self) -> Span {
        match self {
            SemanticError::MissingMainFunction(span) => *span,
            SemanticError::FunctionAlreadyDeclared(_, span, _) => *span,
            SemanticError::VariableAlreadyDeclared(_, span, _) => *span,
            SemanticError::MainMustReturnInt(span) => *span,
            SemanticError::MissingReturnStatement(span) => *span,
            SemanticError::IncompatibleReturnType { found_span, .. } => *found_span,
            SemanticError::ReturnNotGuaranteed(span) => *span,
            SemanticError::TypesDoNotMatch { found_span, .. } => *found_span,
            SemanticError::NonBooleanCondition { found_span, .. } => *found_span,
            SemanticError::FunctionNotDeclared(_, span) => *span,
            SemanticError::VariableNotDeclared(_, span) => *span,
            SemanticError::ArgumentCountMismatch { call_span, .. } => *call_span,
            SemanticError::UnsupportedUnaryOperation { span, .. } => *span,
            SemanticError::UnsupportedBinaryOperation { span, .. } => *span,
        }
    }

    /// The first span of the error, paired with its file identifier.
    pub fn first_span(&self, file: &String) -> (r: ReportableSpan)
        ensures
            r.file@ == file@,
            r.start == self.spec_first_span().start,
            r.end == self.spec_first_span().end,
    {
        let span = match self {
            SemanticError::MissingMainFunction(span) => span,
            SemanticError::FunctionAlreadyDeclared(_, span, _) => span,
            SemanticError::VariableAlreadyDeclared(_, span, _) => span,
            SemanticError::MainMustReturnInt(span) => span,
            SemanticError::MissingReturnStatement(span) => span,
            SemanticError::IncompatibleReturnType { found_span, .. } => found_span,
            SemanticError::ReturnNotGuaranteed(span) => span,
            SemanticError::TypesDoNotMatch { found_span, .. } => found_span,
            SemanticError::NonBooleanCondition { found_span, .. } => found_span,
            SemanticError::FunctionNotDeclared(_, span) => span,
            SemanticError::VariableNotDeclared(_, span) => span,
            SemanticError::ArgumentCountMismatch { call_span, .. } => call_span,
            SemanticError::UnsupportedUnaryOperation { span, .. } => span,
            SemanticError::UnsupportedBinaryOperation { span, .. } => span,
        };
        ReportableSpan::new(file.clone(), span)
    }

    /// Optional help text for the error.
    pub fn help(&self) -> (r: Option<String>)
        ensures
            match self {
                SemanticError::MissingMainFunction(_) => r matches Some(h) && h@
                    == "consider declaring a main function"@,
                SemanticError::MissingReturnStatement(_) => r matches Some(h) && h@
                    == "consider adding a reachable return statement"@,
                SemanticError::ReturnNotGuaranteed(_) => r matches Some(h) && h@
                    == "make sure all possible paths return a value"@,
                _ => r is None,
            },
    {
        match self {
            SemanticError::MissingMainFunction(_) => Some(
                String::from_str("consider declaring a main function"),
            ),
            SemanticError::MissingReturnStatement(_) => Some(
                String::from_str("consider adding a reachable return statement"),
            ),
            SemanticError::ReturnNotGuaranteed(_) => Some(
                String::from_str("make sure all possible paths return a value"),
            ),
            _ => None,
        }
    }
}

/// The message of a semantic error.
pub open spec fn spec_semantic_error_message(e: SemanticErrorM) -> Seq<char> {
    match e {
        SemanticErrorM::MissingMainFunction(_) => "Missing `main` function"@,
        SemanticErrorM::FunctionAlreadyDeclared(i, _, _) => "Function `"@ + i.name
            + "` already declared"@,
        SemanticErrorM::VariableAlreadyDeclared(i, _, _) => "Variable `"@ + i.name
            + "` already declared"@,
        SemanticErrorM::MainMustReturnInt(_) => "`main` must return an integer"@,
        SemanticErrorM::MissingReturnStatement(_) => "Missing return statement"@,
        SemanticErrorM::IncompatibleReturnType { .. } => "Incompatible return type"@,
        SemanticErrorM::ReturnNotGuaranteed(_) => "Return not guaranteed in all branches"@,
        SemanticErrorM::TypesDoNotMatch { .. } => "Types do not match"@,
        SemanticErrorM::NonBooleanCondition { .. } => "Condition must be a boolean"@,
        SemanticErrorM::FunctionNotDeclared(i, _) => "Function `"@ + i.name
            + "` has not been declared yet"@,
        SemanticErrorM::VariableNotDeclared(i, _) => "Variable `"@ + i.name
            + "` has not been declared yet"@,
        SemanticErrorM::ArgumentCountMismatch { .. } => "Argument count mismatch"@,
        SemanticErrorM::UnsupportedUnaryOperation { .. } => "Unsupported unary operation"@,
        SemanticErrorM::UnsupportedBinaryOperation { .. } => "Unsupported binary operation"@,
    }
}

impl SemanticError {
    /// A human-readable message for this error.
    pub fn message(&self) -> (r: String)
        ensures
            r@ == spec_semantic_error_message(self.m()),
    {
        match self {
            SemanticError::MissingMainFunction(_) => String::from_str("Missing `main` function"),
            SemanticError::FunctionAlreadyDeclared(i, _, _) => {
                let mut m = String::from_str("Function `");
                m.append(i.ident.as_str());
                m.append("` already declared");
                m
            },
            SemanticError::VariableAlreadyDeclared(i, _, _) => {
                let mut m = String::from_str("Variable `");
                m.append(i.ident.as_str());
                m.append("` already declared");
                m
            },
            SemanticError::MainMustReturnInt(_) => String::from_str("`main` must return an integer"),
            SemanticError::MissingReturnStatement(_) => String::from_str("Missing return statement"),
            SemanticError::IncompatibleReturnType { .. } => String::from_str(
                "Incompatible return type",
            ),
            SemanticError::ReturnNotGuaranteed(_) => String::from_str(
                "Return not guaranteed in all branches",
            ),
            SemanticError::TypesDoNotMatch { .. } => String::from_str("Types do not match"),
            SemanticError::NonBooleanCondition { .. } => String::from_str(
                "Condition must be a boolean",
            ),
            SemanticError::FunctionNotDeclared(i, _) => {
                let mut m = String::from_str("Function `");
                m.append(i.ident.as_str());
                m.append("` has not been declared yet");
                m
            },
            SemanticError::VariableNotDeclared(i, _) => {
                let mut m = String::from_str("Variable `");
                m.append(i.ident.as_str());
                m.append("` has not been declared yet");
                m
            },
            SemanticError::ArgumentCountMismatch { .. } => String::from_str(
                "Argument count mismatch",
            ),
            SemanticError::UnsupportedUnaryOperation { .. } => String::from_str(
                "Unsupported unary operation",
            ),
            SemanticError::UnsupportedBinaryOperation { .. } => String::from_str(
                "Unsupported binary operation",
            ),
        }
    }
}

/// An advisory finding that does not fail the build.
#[derive(Debug)]
pub enum Warning {
    /// A variable is declared and never used.
    UnusedVariable(Ident, Span),
    /// A function is declared and never called.
    UnusedFunction(Ident, Span),
    /// Statements can never execute.
    UnreachableCode(Span),
}

/// Mathematical model of a warning.
pub enum WarningM {
    UnusedVariable(IdentM, Span),
    UnusedFunction(IdentM, Span),
    UnreachableCode(Span),
}

/// The message of a warning.
pub open spec fn spec_warning_message(w: WarningM) -> Seq<char> {
    match w {
        WarningM::UnusedVariable(_, _) => "Unused variable"@,
        WarningM::UnusedFunction(_, _) => "Unused function"@,
        WarningM::UnreachableCode(_) => "Unreachable code"@,
    }
}

impl Warning {
    /// The model of this warning.
    pub open spec fn m(&self) -> WarningM {
        match self {
            Warning::UnusedVariable(i, span) => WarningM::UnusedVariable(i.m(), *span),
            Warning::UnusedFunction(i, span) => WarningM::UnusedFunction(i.m(), *span),
            Warning::UnreachableCode(span) => WarningM::UnreachableCode(*span),
        }
    }

    /// The first span the warning points at.
    pub open spec fn spec_first_span(&self) -> Span {
        match self {
            Warning::UnusedVariable(_, span) => *span,
            Warning::UnusedFunction(_, span) => *span,
            Warning::UnreachableCode(span) => *span,
        }
    }

    /// The first span of the warning, paired with its file identifier.
    pub fn first_span(&self, file: &String) -> (r: ReportableSpan)
        ensures
            r.file@ == file@,
            r.start == self.spec_first_span().start,
            r.end == self.spec_first_span().end,
    {
        let span = match self {
            Warning::UnusedVariable(_, span) => span,
            Warning::UnusedFunction(_, span) => span,
            Warning::UnreachableCode(span) => span,
        };
        ReportableSpan::new(file.clone(), span)
    }

    /// Optional help text for the warning.
    pub fn help(&self) -> (r: Option<String>)
        ensures
            match self {
                Warning::UnusedVariable(i, _) => r matches Some(h) && h@
                    == "if intended, prefix with an underscore: `_"@ + i.ident@ + "`"@,
                _ => r is None,
            },
    {
        match self {
            Warning::UnusedVariable(ident, _) => {
                let mut m = String::from_str("if intended, prefix with an underscore: `_");
                m.append(ident.ident.as_str());
                m.append("`");
                Some(m)
            },
            _ => None,
        }
    }

    /// A human-readable message for this warning.
    pub fn message(&self) -> (r: String)
        ensures
            r@ == spec_warning_message(self.m()),
    {
        match self {
            Warning::UnusedVariable(_, _) => String::from_str("Unused variable"),
            Warning::UnusedFunction(_, _) => String::from_str("Unused function"),
            Warning::UnreachableCode(_) => String::from_str("Unreachable code"),
        }
    }
}

/// One finding of the semantic analyzer: an error that must fail the build
/// or a warning that must not.
#[derive(Debug)]
pub enum Diagnostic {
    Error(SemanticError),
    Warning(Warning),
}

/// Mathematical model of a diagnostic.
pub enum DiagM {
    Error(SemanticErrorM),
    Warning(WarningM),
}

impl Diagnostic {
    /// The model of this diagnostic.
    pub open spec fn m(&self) -> DiagM {
        match self {
            Diagnostic::Error(e) => DiagM::Error(e.m()),
            Diagnostic::Warning(w) => DiagM::Warning(w.m()),
        }
    }

    /// Whether this diagnostic must fail the build.
    pub fn is_error(&self) -> (r: bool)
        ensures
            r == self.m() is Error,
    {
        match self {
            Diagnostic::Error(_) => true,
            Diagnostic::Warning(_) => false,
        }
    }

    /// A human-readable message for this diagnostic.
    pub fn message(&self) -> (r: String)
        ensures
            r@ == match self.m() {
                DiagM::Error(e) => spec_semantic_error_message(e),
                DiagM::Warning(w) => spec_warning_message(w),
            },
    {
        match self {
            Diagnostic::Error(e) => e.message(),
            Diagnostic::Warning(w) => w.message(),
        }
    }

    /// The first span of the diagnostic, paired with its file identifier.
    pub fn first_span(&self, file: &String) -> (r: ReportableSpan)
        ensures
            r.file@ == file@,
    {
        match self {
            Diagnostic::Error(e) => e.first_span(file),
            Diagnostic::Warning(w) => w.first_span(file),
        }
    }
}

/// The models of a sequence of diagnostics.
pub open spec fn diags_m(ds: Seq<Diagnostic>) -> Seq<DiagM>
    decreases ds,
{
    if ds.len() == 0 {
        Seq::empty()
    } else {
        diags_m(ds.drop_last()).push(ds.last().m())
    }
}

/// The length of a modelled diagnostic sequence equals the underlying list's, and
/// each element is the model of the element there.
pub proof fn lemma_diags_m_len(ds: Seq<Diagnostic>)
    ensures
        diags_m(ds).len() == ds.len(),
        forall|j: int| 0 <= j < ds.len() ==> #[trigger] diags_m(ds)[j] == ds[j].m(),
    decreases ds,
{
    if ds.len() > 0 {
        lemma_diags_m_len(ds.drop_last());
        assert forall|j: int| 0 <= j < ds.len() implies #[trigger] diags_m(ds)[j] == ds[j].m() by {
            if j < ds.len() - 1 {
                assert(ds.drop_last()[j] == ds[j]);
            }
        }
    }
}

} // verus!
