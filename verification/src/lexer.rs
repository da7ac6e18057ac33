//! The lexer: a single forward pass over source text producing tokens with
//! spans, or lexical errors. Its behaviour is specified by a recursive
//! function over the source's character sequence, and every token routine
//! is proved to compute exactly that function.
//!
//! The character classes below are deliberately ASCII: identifiers are
//! ASCII letters, digits and the underscore, and whitespace is the ASCII
//! whitespace set. Any other character is reported as an unexpected
//! character rather than lexed, so the lexer stays total over all of
//! Unicode while its classes stay decidable in specifications.

use vstd::prelude::*;
use vstd::string::StrSliceExecFns;

use crate::errors::{LangError, LangErrorM};
use crate::token::{
    spec_keyword_from, spec_operator_from, Span, Token, TokenKind, TokenKindM, TokenM,
};

verus! {

// ====================
// Character classes
// ====================

/// Whitespace characters skipped between tokens.
pub open spec fn is_ws_char(c: char) -> bool {
    c == ' ' || c == '\t' || c == '\n' || c == '\r' || c == '\u{b}' || c == '\u{c}'
}

/// Decimal digits.
pub open spec fn is_digit_char(c: char) -> bool {
    48 <= c as u32 <= 57
}

/// Characters that can start an operator token.
pub open spec fn is_op_char(c: char) -> bool {
    c == '+' || c == '-' || c == '*' || c == '/' || c == '%' || c == '^' || c == '=' || c == '<'
        || c == '>' || c == '!' || c == '&' || c == '|'
}

/// Characters that can start a word: letters and the underscore.
pub open spec fn is_word_start_char(c: char) -> bool {
    (97 <= c as u32 <= 122) || (65 <= c as u32 <= 90) || c == '_'
}

/// Characters that can continue a word: letters, digits and the underscore.
pub open spec fn is_word_char(c: char) -> bool {
    is_word_start_char(c) || is_digit_char(c)
}

fn ws_char(c: char) -> (r: bool)
    ensures
        r == is_ws_char(c),
{
    c == ' ' || c == '\t' || c == '\n' || c == '\r' || c == '\u{b}' || c == '\u{c}'
}

fn digit_char(c: char) -> (r: bool)
    ensures
        r == is_digit_char(c),
{
    let u = c as u32;
    48 <= u && u <= 57
}

fn op_char(c: char) -> (r: bool)
    ensures
        r == is_op_char(c),
{
    c == '+' || c == '-' || c == '*' || c == '/' || c == '%' || c == '^' || c == '=' || c == '<'
        || c == '>' || c == '!' || c == '&' || c == '|'
}

fn word_start_char(c: char) -> (r: bool)
    ensures
        r == is_word_start_char(c),
{
    let u = c as u32;
    (97 <= u && u <= 122) || (65 <= u && u <= 90) || c == '_'
}

fn word_char(c: char) -> (r: bool)
    ensures
        r == is_word_char(c),
{
    word_start_char(c) || digit_char(c)
}

// ====================
// The specification of skipping and scanning
// ====================

/// The position after skipping a run of whitespace.
pub open spec fn spec_skip_ws(src: Seq<char>, pos: nat) -> nat
    decreases src.len() - pos,
        when pos <= src.len()
{
    if pos < src.len() && is_ws_char(src[pos as int]) {
        spec_skip_ws(src, pos + 1)
    } else {
        pos
    }
}

/// The position of the next line break, or the end of the input.
pub open spec fn spec_skip_line(src: Seq<char>, pos: nat) -> nat
    decreases src.len() - pos,
        when pos <= src.len()
{
    if pos < src.len() && src[pos as int] != '\n' {
        spec_skip_line(src, pos + 1)
    } else {
        pos
    }
}

/// The position of the next whitespace character, or the end of the input;
/// used to resynchronise after a malformed numeric literal.
pub open spec fn spec_skip_to_ws(src: Seq<char>, pos: nat) -> nat
    decreases src.len() - pos,
        when pos <= src.len()
{
    if pos < src.len() && !is_ws_char(src[pos as int]) {
        spec_skip_to_ws(src, pos + 1)
    } else {
        pos
    }
}

/// Skipping whitespace keeps the position within the input and never moves
/// it backwards; the position it stops at holds no whitespace.
pub proof fn lemma_skip_ws(src: Seq<char>, pos: nat)
    requires
        pos <= src.len(),
    ensures
        pos <= spec_skip_ws(src, pos) <= src.len(),
        spec_skip_ws(src, pos) < src.len() ==> !is_ws_char(src[spec_skip_ws(src, pos) as int]),
    decreases src.len() - pos,
{
    if pos < src.len() && is_ws_char(src[pos as int]) {
        lemma_skip_ws(src, pos + 1);
    }
}

/// Skipping to the end of a line keeps the position within the input and
/// never moves it backwards.
pub proof fn lemma_skip_line(src: Seq<char>, pos: nat)
    requires
        pos <= src.len(),
    ensures
        pos <= spec_skip_line(src, pos) <= src.len(),
    decreases src.len() - pos,
{
    if pos < src.len() && src[pos as int] != '\n' {
        lemma_skip_line(src, pos + 1);
    }
}

/// Skipping to the next whitespace keeps the position within the input and
/// never moves it backwards.
pub proof fn lemma_skip_to_ws(src: Seq<char>, pos: nat)
    requires
        pos <= src.len(),
    ensures
        pos <= spec_skip_to_ws(src, pos) <= src.len(),
    decreases src.len() - pos,
{
    if pos < src.len() && !is_ws_char(src[pos as int]) {
        lemma_skip_to_ws(src, pos + 1);
    }
}

/// Whether position `pos` starts a `//` comment.
pub open spec fn is_comment_at(src: Seq<char>, pos: nat) -> bool {
    pos + 1 < src.len() && src[pos as int] == '/' && src[pos as int + 1] == '/'
}

/// The position of the next token start: whitespace and `//`-to-end-of-line
/// comments are skipped, repeatedly, until neither applies.
pub open spec fn spec_skip_trivia(src: Seq<char>, pos: nat) -> nat
    decreases src.len() - pos,
        when pos <= src.len()
        via spec_skip_trivia_decreases
{
    let p = spec_skip_ws(src, pos);
    if is_comment_at(src, p) {
        spec_skip_trivia(src, spec_skip_line(src, p))
    } else {
        p
    }
}

#[via_fn]
proof fn spec_skip_trivia_decreases(src: Seq<char>, pos: nat) {
    lemma_skip_ws(src, pos);
    let p = spec_skip_ws(src, pos);
    if is_comment_at(src, p) {
        assert(spec_skip_line(src, p) == spec_skip_line(src, p + 1));
        lemma_skip_line(src, p + 1);
    }
}

/// Skipping trivia keeps the position within the input and never moves it
/// backwards; the position it stops at starts neither whitespace nor a
/// comment.
pub proof fn lemma_skip_trivia(src: Seq<char>, pos: nat)
    requires
        pos <= src.len(),
    ensures
        pos <= spec_skip_trivia(src, pos) <= src.len(),
        spec_skip_trivia(src, pos) < src.len() ==> !is_ws_char(
            src[spec_skip_trivia(src, pos) as int],
        ),
        !is_comment_at(src, spec_skip_trivia(src, pos)),
    decreases src.len() - pos,
{
    lemma_skip_ws(src, pos);
    let p = spec_skip_ws(src, pos);
    if is_comment_at(src, p) {
        assert(spec_skip_line(src, p) == spec_skip_line(src, p + 1));
        lemma_skip_line(src, p + 1);
        lemma_skip_trivia(src, spec_skip_line(src, p));
    }
}

/// The numeric value of a string of decimal digits.
pub open spec fn digits_val(s: Seq<char>) -> nat
    decreases s,
{
    if s.len() == 0 {
        0
    } else {
        (digits_val(s.drop_last()) * 10 + (s.last() as u32 - 48)) as nat
    }
}

/// The scan of a numeric literal from `pos`: its end position, whether a
/// decimal point was seen, and whether a second decimal point was found
/// (which is a malformed literal).
pub open spec fn spec_num_scan(src: Seq<char>, pos: nat, has_dec: bool) -> (nat, bool, bool)
    decreases src.len() - pos,
        when pos <= src.len()
{
    if pos < src.len() && is_digit_char(src[pos as int]) {
        spec_num_scan(src, pos + 1, has_dec)
    } else if pos < src.len() && src[pos as int] == '.' {
        if has_dec {
            ((pos + 1) as nat, true, true)
        } else {
            spec_num_scan(src, pos + 1, true)
        }
    } else {
        (pos, has_dec, false)
    }
}

/// A numeric scan stays within the input; on a clean scan every consumed
/// character is a digit or a point, and if no point was seen before or
/// during the scan, every consumed character is a digit.
pub proof fn lemma_num_scan(src: Seq<char>, pos: nat, has_dec: bool)
    requires
        pos <= src.len(),
    ensures
        pos <= spec_num_scan(src, pos, has_dec).0 <= src.len(),
        has_dec ==> spec_num_scan(src, pos, has_dec).1,
        !spec_num_scan(src, pos, has_dec).2 && !has_dec && !spec_num_scan(src, pos, has_dec).1
            ==> forall|i: int|
            pos <= i < spec_num_scan(src, pos, has_dec).0 ==> is_digit_char(src[i]),
    decreases src.len() - pos,
{
    if pos < src.len() && is_digit_char(src[pos as int]) {
        lemma_num_scan(src, pos + 1, has_dec);
    } else if pos < src.len() && src[pos as int] == '.' {
        if !has_dec {
            lemma_num_scan(src, pos + 1, true);
        }
    }
}

// ====================
// The specification of single tokens
// ====================

/// What lexing an operator from `pos` yields, and where it leaves the
/// cursor. The first character is consumed, a second is consumed only when
/// it can also start an operator; text not in the operator table is an
/// unexpected-character error, and input ending right after the first
/// character is an unexpected-end-of-input error.
pub open spec fn spec_lex_op(src: Seq<char>, pos: nat) -> (Result<TokenM, LangErrorM>, nat) {
    if pos + 1 >= src.len() {
        (
            Err(LangErrorM::UnexpectedEOF(Span { start: pos as usize, end: (pos + 1) as usize })),
            pos + 1,
        )
    } else {
        let end = if is_op_char(src[pos as int + 1]) {
            pos + 2
        } else {
            pos + 1
        };
        let text = src.subrange(pos as int, end as int);
        let span = Span { start: pos as usize, end: end as usize };
        match spec_operator_from(text) {
            Some(kind) => (Ok(TokenM { kind, span }), end),
            None => (Err(LangErrorM::UnexpectedCharacter(text, span)), end),
        }
    }
}

/// What lexing a numeric literal from `pos` yields, and where it leaves
/// the cursor. A second decimal point abandons the literal, skips ahead to
/// the next whitespace and reports the point as an unexpected character;
/// a literal with one point is a float literal carrying its text; a plain
/// digit run is an integer literal, or an invalid-literal error where the
/// value does not fit.
pub open spec fn spec_lex_number(src: Seq<char>, pos: nat) -> (Result<TokenM, LangErrorM>, nat) {
    let (end, has_dec, second_dot) = spec_num_scan(src, pos, false);
    if second_dot {
        let resync = spec_skip_to_ws(src, end);
        (
            Err(
                LangErrorM::UnexpectedCharacter(
                    "."@,
                    Span { start: pos as usize, end: resync as usize },
                ),
            ),
            resync,
        )
    } else {
        let text = src.subrange(pos as int, end as int);
        let span = Span { start: pos as usize, end: end as usize };
        if has_dec {
            (Ok(TokenM { kind: TokenKindM::FloatLiteral(text), span }), end)
        } else if digits_val(text) <= i32::MAX {
            (Ok(TokenM { kind: TokenKindM::IntLiteral(digits_val(text) as i32), span }), end)
        } else {
            (Err(LangErrorM::InvalidLiteral(text, span)), end)
        }
    }
}

/// The end of the word starting at `pos`: the end of the maximal run of
/// word characters.
pub open spec fn spec_word_end(src: Seq<char>, pos: nat) -> nat
    decreases src.len() - pos,
        when pos <= src.len()
{
    if pos < src.len() && is_word_char(src[pos as int]) {
        spec_word_end(src, pos + 1)
    } else {
        pos
    }
}

/// A word scan stays within the input and never moves backwards.
pub proof fn lemma_word_end(src: Seq<char>, pos: nat)
    requires
        pos <= src.len(),
    ensures
        pos <= spec_word_end(src, pos) <= src.len(),
    decreases src.len() - pos,
{
    if pos < src.len() && is_word_char(src[pos as int]) {
        lemma_word_end(src, pos + 1);
    }
}

/// What lexing a word from `pos` yields, and where it leaves the cursor:
/// the maximal run of word characters, classified against the keyword
/// table.
pub open spec fn spec_lex_word(src: Seq<char>, pos: nat) -> (Result<TokenM, LangErrorM>, nat) {
    let end = spec_word_end(src, pos);
    let text = src.subrange(pos as int, end as int);
    let span = Span { start: pos as usize, end: end as usize };
    (Ok(TokenM { kind: spec_keyword_from(text), span }), end)
}

/// The single-character punctuation token starting at `pos`, if the
/// character is one of the punctuation marks.
pub open spec fn spec_punct_kind(c: char) -> Option<TokenKindM> {
    if c == '{' {
        Some(TokenKindM::LBrace)
    } else if c == '}' {
        Some(TokenKindM::RBrace)
    } else if c == '(' {
        Some(TokenKindM::LParen)
    } else if c == ')' {
        Some(TokenKindM::RParen)
    } else if c == ';' {
        Some(TokenKindM::Semicolon)
    } else if c == ',' {
        Some(TokenKindM::Comma)
    } else if c == '.' {
        Some(TokenKindM::Dot)
    } else if c == ':' {
        Some(TokenKindM::Colon)
    } else {
        None
    }
}

/// What one step of the lexer yields from `pos`, and where it leaves the
/// cursor: `None` once only trivia remains, otherwise one token or one
/// lexical error. A character that starts nothing is reported as an
/// unexpected character and consumed, so a later step can carry on.
pub open spec fn spec_next(src: Seq<char>, pos: nat) -> (Option<Result<TokenM, LangErrorM>>, nat) {
    let p = spec_skip_trivia(src, pos);
    if p >= src.len() {
        (None, p)
    } else {
        let c = src[p as int];
        if is_op_char(c) {
            let (r, q) = spec_lex_op(src, p);
            (Some(r), q)
        } else if is_digit_char(c) {
            let (r, q) = spec_lex_number(src, p);
            (Some(r), q)
        } else if is_word_start_char(c) {
            let (r, q) = spec_lex_word(src, p);
            (Some(r), q)
        } else {
            match spec_punct_kind(c) {
                Some(kind) => (
                    Some(
                        Ok(
                            TokenM {
                                kind,
                                span: Span { start: p as usize, end: (p + 1) as usize },
                            },
                        ),
                    ),
                    p + 1,
                ),
                None => (
                    Some(
                        Err(
                            LangErrorM::UnexpectedCharacter(
                                src.subrange(p as int, p as int + 1),
                                Span { start: p as usize, end: (p + 1) as usize },
                            ),
                        ),
                    ),
                    p + 1,
                ),
            }
        }
    }
}

/// One lexer step stays within the input; a step that yields something
/// moves the cursor strictly forward, and a step that yields nothing
/// leaves it at the end of the input.
pub proof fn lemma_next(src: Seq<char>, pos: nat)
    requires
        pos <= src.len(),
    ensures
        spec_next(src, pos).1 <= src.len(),
        spec_next(src, pos).0 is Some ==> spec_next(src, pos).1 > pos,
        spec_next(src, pos).0 is None ==> spec_next(src, pos).1 == src.len(),
{
    lemma_skip_trivia(src, pos);
    let p = spec_skip_trivia(src, pos);
    if p < src.len() {
        let c = src[p as int];
        if is_op_char(c) {
        } else if is_digit_char(c) {
            assert(spec_num_scan(src, p, false) == spec_num_scan(src, p + 1, false));
            lemma_num_scan(src, p + 1, false);
            let (end, _, second_dot) = spec_num_scan(src, p, false);
            if second_dot {
                lemma_skip_to_ws(src, end);
            }
        } else if is_word_start_char(c) {
            assert(spec_word_end(src, p) == spec_word_end(src, p + 1));
            lemma_word_end(src, p + 1);
        }
    }
}

/// Everything the lexer produces from `pos` on, partitioned into the token
/// list and the error list.
pub open spec fn spec_consume(src: Seq<char>, pos: nat) -> (Seq<TokenM>, Seq<LangErrorM>)
    decreases src.len() - pos,
        when pos <= src.len()
        via spec_consume_decreases
{
    let (r, q) = spec_next(src, pos);
    match r {
        None => (Seq::empty(), Seq::empty()),
        Some(Ok(t)) => {
            let (toks, errs) = spec_consume(src, q);
            (seq![t] + toks, errs)
        },
        Some(Err(e)) => {
            let (toks, errs) = spec_consume(src, q);
            (toks, seq![e] + errs)
        },
    }
}

#[via_fn]
proof fn spec_consume_decreases(src: Seq<char>, pos: nat) {
    lemma_next(src, pos);
}

// ====================
// The lexer
// ====================

/// A lexer: a cursor over one source file's characters. It makes a single
/// forward pass; to restart, construct a new lexer.
pub struct Lexer<'a> {
    src: &'a str,
    pos: usize,
}

impl<'a> Lexer<'a> {
    /// The characters of the source.
    pub closed spec fn src_view(&self) -> Seq<char> {
        self.src@
    }

    /// The cursor, as a character offset into the source.
    pub closed spec fn spec_pos(&self) -> nat {
        self.pos as nat
    }

    /// The cursor never leaves the source.
    pub open spec fn wf(&self) -> bool {
        self.spec_pos() <= self.src_view().len()
    }

    /// A fresh lexer over `src`, at the start of the input.
    pub fn new(src: &'a str) -> (r: Lexer<'a>)
        ensures
            r.src_view() == src@,
            r.spec_pos() == 0,
            r.wf(),
    {
        Lexer { src, pos: 0 }
    }

    /// The number of characters of the source.
    fn len(&self) -> (r: usize)
        ensures
            r == self.src_view().len(),
    {
        self.src.unicode_len()
    }

    /// The character under the cursor, if any.
    fn peek(&self) -> (r: Option<char>)
        requires
            self.wf(),
        ensures
            match r {
                Some(c) => self.spec_pos() < self.src_view().len() && c == self.src_view()[
                    self.spec_pos() as int
                ],
                None => self.spec_pos() == self.src_view().len(),
            },
    {
        if self.pos < self.src.unicode_len() {
            Some(self.src.get_char(self.pos))
        } else {
            None
        }
    }

    /// Advances the cursor by one character, never past the end.
    fn advance(&mut self)
        requires
            old(self).wf(),
        ensures
            final(self).src_view() == old(self).src_view(),
            final(self).wf(),
            old(self).spec_pos() < old(self).src_view().len() ==> final(self).spec_pos() == old(
                self,
            ).spec_pos() + 1,
            old(self).spec_pos() == old(self).src_view().len() ==> final(self).spec_pos() == old(
                self,
            ).spec_pos(),
    {
        if self.pos < self.src.unicode_len() {
            self.pos = self.pos + 1;
        }
    }

    /// The source text between two cursor positions.
    fn text_range(&self, from: usize, to: usize) -> (r: String)
        requires
            from <= to <= self.src_view().len(),
        ensures
            r@ == self.src_view().subrange(from as int, to as int),
    {
        let piece = self.src.substring_char(from, to);
        piece.to_owned()
    }

    /// Skips the run of whitespace under the cursor.
    #[verifier::loop_isolation(false)]
    fn skip_whitespace(&mut self)
        requires
            old(self).wf(),
        ensures
            final(self).src_view() == old(self).src_view(),
            final(self).wf(),
            final(self).spec_pos() == spec_skip_ws(old(self).src_view(), old(self).spec_pos()),
    {
        loop
            invariant
                self.wf(),
                self.src_view() == old(self).src_view(),
                spec_skip_ws(self.src_view(), self.spec_pos()) == spec_skip_ws(
                    old(self).src_view(),
                    old(self).spec_pos(),
                ),
            decreases self.src_view().len() - self.spec_pos(),
        {
            match self.peek() {
                Some(c) => {
                    if ws_char(c) {
                        self.advance();
                    } else {
                        break ;
                    }
                },
                None => {
                    break ;
                },
            }
        }
    }

    /// If the cursor is at a `//` comment, skips to the end of the line.
    #[verifier::loop_isolation(false)]
    fn skip_comments(&mut self)
        requires
            old(self).wf(),
        ensures
            final(self).src_view() == old(self).src_view(),
            final(self).wf(),
            final(self).spec_pos() == if is_comment_at(old(self).src_view(), old(self).spec_pos()) {
                spec_skip_line(old(self).src_view(), old(self).spec_pos())
            } else {
                old(self).spec_pos()
            },
    {
        let at_comment = if self.pos < self.len() {
            let c = self.src.get_char(self.pos);
            if c == '/' && self.pos + 1 < self.len() {
                self.src.get_char(self.pos + 1) == '/'
            } else {
                false
            }
        } else {
            false
        };
        if !at_comment {
            return ;
        }
        loop
            invariant
                self.wf(),
                self.src_view() == old(self).src_view(),
                spec_skip_line(self.src_view(), self.spec_pos()) == spec_skip_line(
                    old(self).src_view(),
                    old(self).spec_pos(),
                ),
            decreases self.src_view().len() - self.spec_pos(),
        {
            match self.peek() {
                Some(c) => {
                    if c == '\n' {
                        break ;
                    } else {
                        self.advance();
                    }
                },
                None => {
                    break ;
                },
            }
        }
    }

    /// Skips whitespace and comments until a token or the end of the input
    /// is under the cursor.
    #[verifier::loop_isolation(false)]
    fn skip_trivia(&mut self)
        requires
            old(self).wf(),
        ensures
            final(self).src_view() == old(self).src_view(),
            final(self).wf(),
            final(self).spec_pos() == spec_skip_trivia(old(self).src_view(), old(self).spec_pos()),
    {
        loop
            invariant
                self.wf(),
                self.src_view() == old(self).src_view(),
                spec_skip_trivia(self.src_view(), self.spec_pos()) == spec_skip_trivia(
                    old(self).src_view(),
                    old(self).spec_pos(),
                ),
            decreases self.src_view().len() - self.spec_pos(),
        {
            let ghost pre = self.spec_pos();
            self.skip_whitespace();
            proof {
                lemma_skip_ws(self.src_view(), pre);
            }
            let at_comment = if self.pos < self.len() {
                let c = self.src.get_char(self.pos);
                if c == '/' && self.pos + 1 < self.len() {
                    self.src.get_char(self.pos + 1) == '/'
                } else {
                    false
                }
            } else {
                false
            };
            if at_comment {
                let ghost mid = self.spec_pos();
                self.skip_comments();
                proof {
                    assert(spec_skip_line(self.src_view(), mid) == spec_skip_line(
                        self.src_view(),
                        mid + 1,
                    ));
                    lemma_skip_line(self.src_view(), mid + 1);
                }
            } else {
                proof {
                    assert(spec_skip_ws(self.src_view(), self.spec_pos()) == self.spec_pos());
                }
                break ;
            }
        }
    }

    /// Lexes the operator under the cursor, which may be one or two
    /// characters wide.
    fn lex_op(&mut self) -> (r: Result<Token, LangError>)
        requires
            old(self).wf(),
            old(self).spec_pos() < old(self).src_view().len(),
        ensures
            final(self).src_view() == old(self).src_view(),
            final(self).wf(),
            (res_m(&r), final(self).spec_pos()) == spec_lex_op(
                old(self).src_view(),
                old(self).spec_pos(),
            ),
    {
        let start = self.pos;
        self.advance();
        if self.pos >= self.len() {
            self.pos = self.len();
            return Err(LangError::UnexpectedEOF(Span { start, end: start + 1 }));
        }
        let c = self.src.get_char(self.pos);
        if op_char(c) {
            self.advance();
        }
        let text = self.text_range(start, self.pos);
        let span = Span { start, end: self.pos };
        match try_operator_from(&text) {
            Some(kind) => Ok(Token { kind, span }),
            None => Err(LangError::UnexpectedCharacter(text, span)),
        }
    }

    /// Lexes the numeric literal under the cursor: an integer, a float, or
    /// a lexical error with recovery to the next whitespace.
    #[verifier::loop_isolation(false)]
    fn lex_number(&mut self) -> (r: Result<Token, LangError>)
        requires
            old(self).wf(),
            old(self).spec_pos() < old(self).src_view().len(),
            is_digit_char(old(self).src_view()[old(self).spec_pos() as int]),
        ensures
            final(self).src_view() == old(self).src_view(),
            final(self).wf(),
            (res_m(&r), final(self).spec_pos()) == spec_lex_number(
                old(self).src_view(),
                old(self).spec_pos(),
            ),
    {
        let ghost src = self.src_view();
        let ghost p0 = self.spec_pos();
        let start = self.pos;
        let mut has_decimal = false;
        let mut second_dot = false;
        loop
            invariant
                self.wf(),
                self.src_view() == src,
                start == p0,
                !second_dot ==> spec_num_scan(src, self.spec_pos(), has_decimal) == spec_num_scan(
                    src,
                    p0,
                    false,
                ),
                second_dot ==> (self.spec_pos(), true, true) == spec_num_scan(src, p0, false)
                    && has_decimal,
            decreases src.len() - self.spec_pos(), if second_dot { 0int } else { 1int },
        {
            if second_dot {
                break ;
            }
            match self.peek() {
                Some(c) => {
                    if digit_char(c) {
                        self.advance();
                    } else if c == '.' {
                        if has_decimal {
                            self.advance();
                            second_dot = true;
                        } else {
                            has_decimal = true;
                            self.advance();
                        }
                    } else {
                        break ;
                    }
                },
                None => {
                    break ;
                },
            }
        }
        if second_dot {
            // resynchronise: fast-forward to the next whitespace
            let ghost mid = self.spec_pos();
            loop
                invariant
                    self.wf(),
                    self.src_view() == src,
                    spec_skip_to_ws(src, self.spec_pos()) == spec_skip_to_ws(src, mid),
                decreases src.len() - self.spec_pos(),
            {
                match self.peek() {
                    Some(c) => {
                        if ws_char(c) {
                            break ;
                        } else {
                            self.advance();
                        }
                    },
                    None => {
                        break ;
                    },
                }
            }
            let dot = String::from_str(".");
            proof {
                reveal_strlit(".");
            }
            return Err(
                LangError::UnexpectedCharacter(dot, Span { start, end: self.pos }),
            );
        }
        proof {
            lemma_num_scan(src, p0, false);
        }
        let end = self.pos;
        let text = self.text_range(start, end);
        let span = Span { start, end };
        if has_decimal {
            Ok(Token { kind: TokenKind::FloatLiteral(text), span })
        } else {
            // every character of the run is a digit; accumulate the value,
            // watching for overflow past i32::MAX
            let mut acc: u32 = 0;
            let mut over = false;
            let mut i = start;
            while i < end
                invariant
                    start <= i <= end <= src.len(),
                    self.src_view() == src,
                    forall|j: int| start <= j < end ==> is_digit_char(src[j]),
                    text@ == src.subrange(start as int, end as int),
                    !over ==> acc == digits_val(src.subrange(start as int, i as int)) && acc
                        <= 0x7fffffffu32,
                    over ==> digits_val(src.subrange(start as int, i as int)) > 0x7fffffff,
                decreases end - i,
            {
                let c = self.src.get_char(i);
                let d: u32 = c as u32 - 48;
                proof {
                    assert(src.subrange(start as int, i as int + 1).drop_last() =~= src.subrange(
                        start as int,
                        i as int,
                    ));
                    assert(src.subrange(start as int, i as int + 1).last() == src[i as int]);
                }
                if over || acc > (0x7fffffffu32 - d) / 10 {
                    proof {
                        let prev = digits_val(src.subrange(start as int, i as int));
                        let next = digits_val(src.subrange(start as int, i as int + 1));
                        assert(next == prev * 10 + d);
                        if !over {
                            assert(acc * 10 + d > 0x7fffffff) by (nonlinear_arith)
                                requires
                                    acc > (0x7fffffffu32 - d) / 10,
                                    d <= 9,
                            ;
                        }
                    }
                    over = true;
                } else {
                    proof {
                        assert(acc * 10 + d <= 0x7fffffff) by (nonlinear_arith)
                            requires
                                acc <= (0x7fffffffu32 - d) / 10,
                                d <= 9,
                        ;
                    }
                    acc = acc * 10 + d;
                }
                i = i + 1;
            }
            proof {
                assert(src.subrange(start as int, end as int) =~= text@);
            }
            if over {
                Err(LangError::InvalidLiteral(text, span))
            } else {
                Ok(Token { kind: TokenKind::IntLiteral(acc as i32), span })
            }
        }
    }

    /// Lexes the word under the cursor: a keyword, a type name or an
    /// identifier.
    #[verifier::loop_isolation(false)]
    fn lex_word(&mut self) -> (r: Result<Token, LangError>)
        requires
            old(self).wf(),
        ensures
            final(self).src_view() == old(self).src_view(),
            final(self).wf(),
            (res_m(&r), final(self).spec_pos()) == spec_lex_word(
                old(self).src_view(),
                old(self).spec_pos(),
            ),
    {
        let ghost src = self.src_view();
        let ghost p0 = self.spec_pos();
        let start = self.pos;
        loop
            invariant
                self.wf(),
                self.src_view() == src,
                p0 <= self.spec_pos(),
                spec_word_end(src, self.spec_pos()) == spec_word_end(src, p0),
            decreases src.len() - self.spec_pos(),
        {
            match self.peek() {
                Some(c) => {
                    if word_char(c) {
                        self.advance();
                    } else {
                        break ;
                    }
                },
                None => {
                    break ;
                },
            }
        }
        let end = self.pos;
        proof {
            lemma_word_end(src, p0);
        }
        let text = self.text_range(start, end);
        let kind = TokenKind::keyword_from(text.as_str());
        Ok(Token { kind, span: Span { start, end } })
    }

    /// Lexes the single punctuation character under the cursor.
    fn lex_single_char(&mut self, kind: TokenKind) -> (r: Token)
        requires
            old(self).wf(),
            old(self).spec_pos() < old(self).src_view().len(),
        ensures
            final(self).src_view() == old(self).src_view(),
            final(self).wf(),
            final(self).spec_pos() == old(self).spec_pos() + 1,
            r.m() == (TokenM {
                kind: kind.m(),
                span: Span {
                    start: old(self).spec_pos() as usize,
                    end: (old(self).spec_pos() + 1) as usize,
                },
            }),
    {
        let start = self.pos;
        self.advance();
        Token { kind, span: Span { start, end: self.pos } }
    }

    /// One step of the lexer: the next token or lexical error, or `None`
    /// once only trivia remains before the end of the input.
    pub fn next_token(&mut self) -> (r: Option<Result<Token, LangError>>)
        requires
            old(self).wf(),
        ensures
            final(self).src_view() == old(self).src_view(),
            final(self).wf(),
            (
                match &r {
                    Some(x) => Some(res_m(x)),
                    None => None,
                },
                final(self).spec_pos(),
            ) == spec_next(old(self).src_view(), old(self).spec_pos()),
    {
        self.skip_trivia();
        proof {
            lemma_skip_trivia(old(self).src_view(), old(self).spec_pos());
        }
        match self.peek() {
            None => None,
            Some(c) => {
                if op_char(c) {
                    Some(self.lex_op())
                } else if digit_char(c) {
                    Some(self.lex_number())
                } else if word_start_char(c) {
                    Some(self.lex_word())
                } else if c == '{' {
                    Some(Ok(self.lex_single_char(TokenKind::LBrace)))
                } else if c == '}' {
                    Some(Ok(self.lex_single_char(TokenKind::RBrace)))
                } else if c == '(' {
                    Some(Ok(self.lex_single_char(TokenKind::LParen)))
                } else if c == ')' {
                    Some(Ok(self.lex_single_char(TokenKind::RParen)))
                } else if c == ';' {
                    Some(Ok(self.lex_single_char(TokenKind::Semicolon)))
                } else if c == ',' {
                    Some(Ok(self.lex_single_char(TokenKind::Comma)))
                } else if c == '.' {
                    Some(Ok(self.lex_single_char(TokenKind::Dot)))
                } else if c == ':' {
                    Some(Ok(self.lex_single_char(TokenKind::Colon)))
                } else {
                    let start = self.pos;
                    self.advance();
                    let text = self.text_range(start, self.pos);
                    let span = Span { start, end: self.pos };
                    Some(Err(LangError::UnexpectedCharacter(text, span)))
                }
            },
        }
    }
}

/// The model of one lexer result.
pub open spec fn res_m(r: &Result<Token, LangError>) -> Result<TokenM, LangErrorM> {
    match r {
        Ok(t) => Ok(t.m()),
        Err(e) => Err(e.m()),
    }
}

/// The models of a sequence of tokens.
pub open spec fn tokens_m(ts: Seq<Token>) -> Seq<TokenM>
    decreases ts,
{
    if ts.len() == 0 {
        Seq::empty()
    } else {
        tokens_m(ts.drop_last()).push(ts.last().m())
    }
}

/// The models of a sequence of lexical errors.
pub open spec fn lang_errors_m(es: Seq<LangError>) -> Seq<LangErrorM>
    decreases es,
{
    if es.len() == 0 {
        Seq::empty()
    } else {
        lang_errors_m(es.drop_last()).push(es.last().m())
    }
}

/// The length of a modelled token sequence equals the underlying list's, and each
/// element is the model of the element there.
pub proof fn lemma_tokens_m_len(ts: Seq<Token>)
    ensures
        tokens_m(ts).len() == ts.len(),
        forall|j: int| 0 <= j < ts.len() ==> tokens_m(ts)[j] == #[trigger] ts[j].m(),
    decreases ts,
{
    if ts.len() > 0 {
        lemma_tokens_m_len(ts.drop_last());
        assert forall|j: int| 0 <= j < ts.len() implies tokens_m(ts)[j] == #[trigger] ts[j].m() by {
            if j < ts.len() - 1 {
                assert(ts.drop_last()[j] == ts[j]);
            }
        }
    }
}

/// Consumes the lexer, partitioning everything it produces into the token
/// list and the error list; all lexical errors of the input are gathered
/// in one pass.
#[verifier::loop_isolation(false)]
pub fn consume_lexer(lexer: Lexer) -> (r: (Vec<Token>, Vec<LangError>))
    requires
        lexer.wf(),
    ensures
        (tokens_m(r.0@), lang_errors_m(r.1@)) == spec_consume(lexer.src_view(), lexer.spec_pos()),
{
    let ghost src = lexer.src_view();
    let mut lx = lexer;
    let mut tokens: Vec<Token> = Vec::new();
    let mut errors: Vec<LangError> = Vec::new();
    proof {
        assert(tokens_m(tokens@) =~= Seq::<TokenM>::empty());
        assert(lang_errors_m(errors@) =~= Seq::<LangErrorM>::empty());
    }
    loop
        invariant
            lx.wf(),
            lx.src_view() == src,
            spec_consume(src, lexer.spec_pos()).0 =~= tokens_m(tokens@) + spec_consume(
                src,
                lx.spec_pos(),
            ).0,
            spec_consume(src, lexer.spec_pos()).1 =~= lang_errors_m(errors@) + spec_consume(
                src,
                lx.spec_pos(),
            ).1,
        decreases src.len() - lx.spec_pos() + 1,
    {
        let ghost pre = lx.spec_pos();
        proof {
            lemma_next(src, pre);
        }
        let step = lx.next_token();
        match step {
            None => {
                break ;
            },
            Some(Ok(t)) => {
                proof {
                    assert(tokens_m(tokens@.push(t)) == tokens_m(tokens@).push(t.m())) by {
                        assert(tokens@.push(t).drop_last() =~= tokens@);
                        assert(tokens@.push(t).last() == t);
                    }
                    assert(tokens_m(tokens@).push(t.m()) + spec_consume(src, lx.spec_pos()).0
                        =~= tokens_m(tokens@) + (seq![t.m()] + spec_consume(src, lx.spec_pos()).0));
                }
                tokens.push(t);
            },
            Some(Err(e)) => {
                proof {
                    assert(lang_errors_m(errors@.push(e)) == lang_errors_m(errors@).push(e.m())) by {
                        assert(errors@.push(e).drop_last() =~= errors@);
                        assert(errors@.push(e).last() == e);
                    }
                    assert(lang_errors_m(errors@).push(e.m()) + spec_consume(src, lx.spec_pos()).1
                        =~= lang_errors_m(errors@) + (seq![e.m()] + spec_consume(
                        src,
                        lx.spec_pos(),
                    ).1));
                }
                errors.push(e);
            },
        }
    }
    proof {
        assert(tokens_m(tokens@) + Seq::<TokenM>::empty() =~= tokens_m(tokens@));
        assert(lang_errors_m(errors@) + Seq::<LangErrorM>::empty() =~= lang_errors_m(errors@));
    }
    (tokens, errors)
}

/// Classifies a one- or two-character string against the operator table.
fn try_operator_from(op: &str) -> (r: Option<TokenKind>)
    ensures
        match r {
            Some(k) => spec_operator_from(op@) == Some(k.m()),
            None => spec_operator_from(op@) is None,
        },
{
    if crate::token::str_eq(op, "+") {
        Some(TokenKind::Plus)
    } else if crate::token::str_eq(op, "-") {
        Some(TokenKind::Minus)
    } else if crate::token::str_eq(op, "*") {
        Some(TokenKind::Star)
    } else if crate::token::str_eq(op, "/") {
        Some(TokenKind::Slash)
    } else if crate::token::str_eq(op, "%") {
        Some(TokenKind::Percent)
    } else if crate::token::str_eq(op, "^") {
        Some(TokenKind::Caret)
    } else if crate::token::str_eq(op, "!") {
        Some(TokenKind::Bang)
    } else if crate::token::str_eq(op, ":") {
        Some(TokenKind::Colon)
    } else if crate::token::str_eq(op, ";") {
        Some(TokenKind::Semicolon)
    } else if crate::token::str_eq(op, ",") {
        Some(TokenKind::Comma)
    } else if crate::token::str_eq(op, ".") {
        Some(TokenKind::Dot)
    } else if crate::token::str_eq(op, "=") {
        Some(TokenKind::Equals)
    } else if crate::token::str_eq(op, "<") {
        Some(TokenKind::Less)
    } else if crate::token::str_eq(op, ">") {
        Some(TokenKind::Greater)
    } else if crate::token::str_eq(op, "+=") {
        Some(TokenKind::PlusEquals)
    } else if crate::token::str_eq(op, "-=") {
        Some(TokenKind::MinusEquals)
    } else if crate::token::str_eq(op, "*=") {
        Some(TokenKind::StarEquals)
    } else if crate::token::str_eq(op, "/=") {
        Some(TokenKind::SlashEquals)
    } else if crate::token::str_eq(op, "%=") {
        Some(TokenKind::PercentEquals)
    } else if crate::token::str_eq(op, "^=") {
        Some(TokenKind::CaretEquals)
    } else if crate::token::str_eq(op, "!=") {
        Some(TokenKind::BangEquals)
    } else if crate::token::str_eq(op, "<=") {
        Some(TokenKind::LessEquals)
    } else if crate::token::str_eq(op, ">=") {
        Some(TokenKind::GreaterEquals)
    } else if crate::token::str_eq(op, "==") {
        Some(TokenKind::EqualsEquals)
    } else if crate::token::str_eq(op, "->") {
        Some(TokenKind::Arrow)
    } else {
        None
    }
}

} // verus!
