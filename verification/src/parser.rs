//! Recursive-descent parser: turns the scanner's token stream into
//! S-expression trees.
//!
//! `parse_next` consumes tokens from a [`StringScanner`] and returns
//! one complete top-level [`Expression`], `None` at the clean end of
//! the input, or an error.  A `(` opens a list that must be closed by
//! a matching `)`; a stray `)` is an error; an apostrophe wraps the
//! following expression as `(quote X)`; operator tokens become symbol
//! atoms, so `(+ 1 2)` parses as a list of three atoms.  A `-` is
//! always the operator symbol: negative literals are written `(- 0 n)`.

use vstd::prelude::*;
use crate::ast::Atom;
use crate::ast::ExprModel;
use crate::ast::Expression;
use crate::ast::expr_model;
use crate::number::lexeme_number;
use crate::number::parse_number_lexeme;
use crate::scanner::ScanStep;
use crate::scanner::StringScanner;
use crate::scanner::Token;
use crate::scanner::TokenKind;
use crate::scanner::lemma_scan_progress;
use crate::scanner::scan_step;

verus! {

/// The parser's failure taxonomy.
#[derive(Debug, Clone, Copy, PartialEq, Eq, Structural)]
pub enum ParseError {
    /// The scanner reported an unrecoverable lexical fault.
    Lexical,
    /// The input ended before a matching `)` (or before the form
    /// following an apostrophe).
    Unbalanced,
    /// A `)` appeared where an expression was expected.
    StrayClose,
    /// A numeric lexeme that is not `digits` or `digits.digits`, or
    /// whose value does not fit the representation.
    MalformedNumber,
}

/// The name the apostrophe abbreviates.
pub open spec fn quote_name() -> Seq<char> {
    seq!['q', 'u', 'o', 't', 'e']
}

/// What one parsing step yields: no form (clean end of input), one
/// complete form together with the position after it, or an error.
pub enum ParseOutcome {
    NoForm,
    Form { e: ExprModel, next: int },
    Fail { err: ParseError },
}

/// The ghost shapes of a sequence of expressions.
pub open spec fn exprs_model(s: Seq<Expression>) -> Seq<ExprModel> {
    Seq::new(s.len(), |i: int| expr_model(s[i]))
}

/// A list expression's model is the model of its element sequence.
pub proof fn lemma_list_model(v: Vec<Expression>)
    ensures
        expr_model(Expression::List(v)) == ExprModel::List(exprs_model(v@)),
{
    assert(expr_model(Expression::List(v))->List_0 =~= exprs_model(v@));
}

/// Parse one form starting at `pos`: scan a token and dispatch on it.
pub open spec fn parse_form(text: Seq<char>, pos: int) -> ParseOutcome
    decreases text.len() - pos, 0int,
{
    match scan_step(text, pos) {
        ScanStep::EndOfInput => ParseOutcome::NoForm,
        ScanStep::UnexpectedChar { .. } => ParseOutcome::Fail { err: ParseError::Lexical },
        ScanStep::UnterminatedString { .. } => ParseOutcome::Fail { err: ParseError::Lexical },
        ScanStep::Accepted { kind, start, end, next } => {
            if pos < next <= text.len() && 0 <= start <= end <= text.len() {
                parse_tok(text, kind, text.subrange(start, end), next)
            } else {
                ParseOutcome::Fail { err: ParseError::Lexical }
            }
        },
    }
}

/// Parse the form that begins with an already-scanned token whose
/// lexeme is `lex`, with the scanner standing at `next`.
pub open spec fn parse_tok(text: Seq<char>, kind: TokenKind, lex: Seq<char>, next: int) -> ParseOutcome
    decreases text.len() - next, 2int,
{
    match kind {
        TokenKind::LeftParen => {
            if 0 <= next <= text.len() {
                parse_items(text, next, Seq::empty())
            } else {
                ParseOutcome::Fail { err: ParseError::Lexical }
            }
        },
        TokenKind::RightParen => ParseOutcome::Fail { err: ParseError::StrayClose },
        TokenKind::Apostrophe => {
            if 0 <= next <= text.len() {
                match parse_form(text, next) {
                    ParseOutcome::Form { e, next: n } => ParseOutcome::Form {
                        e: ExprModel::List(seq![ExprModel::Symbol(quote_name()), e]),
                        next: n,
                    },
                    ParseOutcome::NoForm => ParseOutcome::Fail { err: ParseError::Unbalanced },
                    ParseOutcome::Fail { err } => ParseOutcome::Fail { err },
                }
            } else {
                ParseOutcome::Fail { err: ParseError::Lexical }
            }
        },
        TokenKind::Number => {
            match lexeme_number(lex) {
                Some(r) => ParseOutcome::Form { e: ExprModel::Number(r), next },
                None => ParseOutcome::Fail { err: ParseError::MalformedNumber },
            }
        },
        TokenKind::Str => ParseOutcome::Form { e: ExprModel::Str(lex), next },
        _ => ParseOutcome::Form { e: ExprModel::Symbol(lex), next },
    }
}

/// Parse list elements until the matching `)`, accumulating `acc`.
pub open spec fn parse_items(text: Seq<char>, pos: int, acc: Seq<ExprModel>) -> ParseOutcome
    decreases text.len() - pos, 1int,
{
    match scan_step(text, pos) {
        ScanStep::EndOfInput => ParseOutcome::Fail { err: ParseError::Unbalanced },
        ScanStep::UnexpectedChar { .. } => ParseOutcome::Fail { err: ParseError::Lexical },
        ScanStep::UnterminatedString { .. } => ParseOutcome::Fail { err: ParseError::Lexical },
        ScanStep::Accepted { kind, start, end, next } => {
            if kind == TokenKind::RightParen {
                ParseOutcome::Form { e: ExprModel::List(acc), next }
            } else if pos < next <= text.len() && 0 <= start <= end <= text.len() {
                match parse_tok(text, kind, text.subrange(start, end), next) {
                    ParseOutcome::Form { e, next: n } => {
                        if pos < n <= text.len() {
                            parse_items(text, n, acc.push(e))
                        } else {
                            ParseOutcome::Fail { err: ParseError::Lexical }
                        }
                    },
                    ParseOutcome::NoForm => ParseOutcome::Fail { err: ParseError::Unbalanced },
                    ParseOutcome::Fail { err } => ParseOutcome::Fail { err },
                }
            } else {
                ParseOutcome::Fail { err: ParseError::Lexical }
            }
        },
    }
}

/// A parsed form always moves the position forward, never past the
/// end.
pub proof fn lemma_parse_form_bounds(text: Seq<char>, pos: int)
    requires
        0 <= pos <= text.len(),
    ensures
        match parse_form(text, pos) {
            ParseOutcome::Form { e, next } => pos < next <= text.len(),
            _ => true,
        },
    decreases text.len() - pos, 0int,
{
    lemma_scan_progress(text, pos);
    match scan_step(text, pos) {
        ScanStep::Accepted { kind, start, end, next } => {
            lemma_parse_tok_bounds(text, kind, text.subrange(start, end), next);
        },
        _ => {},
    }
}

/// A token-led form never reports a clean end of input, and on
/// success stands at or after the token's end.
pub proof fn lemma_parse_tok_bounds(text: Seq<char>, kind: TokenKind, lex: Seq<char>, next: int)
    requires
        0 <= next <= text.len(),
    ensures
        !(parse_tok(text, kind, lex, next) is NoForm),
        match parse_tok(text, kind, lex, next) {
            ParseOutcome::Form { e, next: n } => next <= n <= text.len(),
            _ => true,
        },
    decreases text.len() - next, 2int,
{
    match kind {
        TokenKind::LeftParen => {
            lemma_parse_items_bounds(text, next, Seq::empty());
        },
        TokenKind::Apostrophe => {
            lemma_parse_form_bounds(text, next);
        },
        _ => {},
    }
}

/// List parsing never reports a clean end of input, and on success
/// moves strictly forward.
pub proof fn lemma_parse_items_bounds(text: Seq<char>, pos: int, acc: Seq<ExprModel>)
    requires
        0 <= pos <= text.len(),
    ensures
        !(parse_items(text, pos, acc) is NoForm),
        match parse_items(text, pos, acc) {
            ParseOutcome::Form { e, next } => pos < next <= text.len(),
            _ => true,
        },
    decreases text.len() - pos, 1int,
{
    lemma_scan_progress(text, pos);
    match scan_step(text, pos) {
        ScanStep::Accepted { kind, start, end, next } => {
            if kind != TokenKind::RightParen {
                lemma_parse_tok_bounds(text, kind, text.subrange(start, end), next);
                match parse_tok(text, kind, text.subrange(start, end), next) {
                    ParseOutcome::Form { e, next: n } => {
                        if pos < n <= text.len() {
                            lemma_parse_items_bounds(text, n, acc.push(e));
                        }
                    },
                    _ => {},
                }
            }
        },
        _ => {},
    }
}

/// A parsed form's number atoms are well-formed.
pub proof fn lemma_parse_form_ok(text: Seq<char>, pos: int)
    requires
        0 <= pos <= text.len(),
    ensures
        match parse_form(text, pos) {
            ParseOutcome::Form { e, next } => crate::ast::expr_ok(e),
            _ => true,
        },
    decreases text.len() - pos, 0int,
{
    lemma_scan_progress(text, pos);
    match scan_step(text, pos) {
        ScanStep::Accepted { kind, start, end, next } => {
            lemma_parse_tok_ok(text, kind, text.subrange(start, end), next);
        },
        _ => {},
    }
}

/// A token-led parsed form's number atoms are well-formed.
pub proof fn lemma_parse_tok_ok(text: Seq<char>, kind: TokenKind, lex: Seq<char>, next: int)
    requires
        0 <= next <= text.len(),
    ensures
        match parse_tok(text, kind, lex, next) {
            ParseOutcome::Form { e, next: n } => crate::ast::expr_ok(e),
            _ => true,
        },
    decreases text.len() - next, 2int,
{
    match kind {
        TokenKind::LeftParen => {
            lemma_parse_items_ok(text, next, Seq::empty());
        },
        TokenKind::Apostrophe => {
            lemma_parse_form_ok(text, next);
            match parse_form(text, next) {
                ParseOutcome::Form { e, next: n } => {
                    let q_items = seq![ExprModel::Symbol(quote_name()), e];
                    assert forall|i: int| 0 <= i < q_items.len() implies crate::ast::expr_ok(
                        #[trigger] q_items[i],
                    ) by {
                        if i == 0 {
                            assert(q_items[0] == ExprModel::Symbol(quote_name()));
                        } else {
                            assert(q_items[1] == e);
                        }
                    }
                },
                _ => {},
            }
        },
        TokenKind::Number => {
            match lexeme_number(lex) {
                Some(r) => {
                    crate::number::lemma_lexeme_number_wf(lex);
                },
                None => {},
            }
        },
        _ => {},
    }
}

/// A parsed list's number atoms are well-formed, provided the
/// accumulated elements' are.
pub proof fn lemma_parse_items_ok(text: Seq<char>, pos: int, acc: Seq<ExprModel>)
    requires
        0 <= pos <= text.len(),
        forall|i: int| 0 <= i < acc.len() ==> crate::ast::expr_ok(#[trigger] acc[i]),
    ensures
        match parse_items(text, pos, acc) {
            ParseOutcome::Form { e, next } => crate::ast::expr_ok(e),
            _ => true,
        },
    decreases text.len() - pos, 1int,
{
    lemma_scan_progress(text, pos);
    match scan_step(text, pos) {
        ScanStep::Accepted { kind, start, end, next } => {
            if kind != TokenKind::RightParen {
                lemma_parse_tok_bounds(text, kind, text.subrange(start, end), next);
                lemma_parse_tok_ok(text, kind, text.subrange(start, end), next);
                match parse_tok(text, kind, text.subrange(start, end), next) {
                    ParseOutcome::Form { e, next: n } => {
                        if pos < n <= text.len() {
                            lemma_parse_items_ok(text, n, acc.push(e));
                        }
                    },
                    _ => {},
                }
            }
        },
        _ => {},
    }
}

/// The expression `(quote ...)` starts with: the symbol `quote`.
fn quote_symbol() -> (r: Expression)
    ensures
        expr_model(r) == ExprModel::Symbol(quote_name()),
{
    let mut s: Vec<char> = Vec::new();
    s.push('q');
    s.push('u');
    s.push('o');
    s.push('t');
    s.push('e');
    proof {
        assert(s@ =~= quote_name());
    }
    Expression::Atom(Atom::Symbol(s))
}

/// Pull one token and parse one complete top-level form.  A clean end
/// of input yields `Ok(None)`; a lexical fault, a malformed literal or
/// an unbalanced form yields the matching error.
pub fn parse_next(scanner: &mut StringScanner) -> (r: Result<Option<Expression>, ParseError>)
    requires
        old(scanner).wf(),
    ensures
        final(scanner).wf(),
        final(scanner).text_model() == old(scanner).text_model(),
        match parse_form(old(scanner).text_model(), old(scanner).pos()) {
            ParseOutcome::NoForm => r is Ok && r->Ok_0 is None,
            ParseOutcome::Form { e, next } => {
                &&& r is Ok
                &&& r->Ok_0 is Some
                &&& expr_model(r->Ok_0->0) == e
                &&& final(scanner).pos() == next
            },
            ParseOutcome::Fail { err } => r is Err && r->Err_0 == err,
        },
    decreases old(scanner).text_model().len() - old(scanner).pos(), 0int,
{
    proof {
        lemma_scan_progress(old(scanner).text_model(), old(scanner).pos());
    }
    match scanner.scan_next_token() {
        Err(e) => {
            if e.is_end_of_input() {
                Ok(None)
            } else {
                Err(ParseError::Lexical)
            }
        },
        Ok(()) => {
            match scanner.get_token() {
                Some(t) => {
                    proof {
                        lemma_parse_tok_bounds(
                            old(scanner).text_model(),
                            t@.kind,
                            t@.lexeme,
                            scanner.pos(),
                        );
                    }
                    match parse_after_token(scanner, t) {
                        Ok(e) => Ok(Some(e)),
                        Err(err) => Err(err),
                    }
                },
                None => {
                    proof {
                        assert(false);
                    }
                    Err(ParseError::Lexical)
                },
            }
        },
    }
}

/// Parse the form that begins with the token just accepted.
fn parse_after_token(scanner: &mut StringScanner, tok: Token) -> (r: Result<Expression, ParseError>)
    requires
        old(scanner).wf(),
    ensures
        final(scanner).wf(),
        final(scanner).text_model() == old(scanner).text_model(),
        match parse_tok(
            old(scanner).text_model(),
            tok@.kind,
            tok@.lexeme,
            old(scanner).pos(),
        ) {
            ParseOutcome::Form { e, next } => {
                &&& r is Ok
                &&& expr_model(r->Ok_0) == e
                &&& final(scanner).pos() == next
            },
            ParseOutcome::Fail { err } => r is Err && r->Err_0 == err,
            ParseOutcome::NoForm => true,
        },
    decreases old(scanner).text_model().len() - old(scanner).pos(), 2int,
{
    match tok.kind {
        TokenKind::LeftParen => {
            let empty_acc: Vec<Expression> = Vec::new();
            proof {
                assert(exprs_model(empty_acc@) =~= Seq::<ExprModel>::empty());
                lemma_parse_items_bounds(
                    old(scanner).text_model(),
                    old(scanner).pos(),
                    Seq::empty(),
                );
            }
            parse_list(scanner, empty_acc)
        },
        TokenKind::RightParen => Err(ParseError::StrayClose),
        TokenKind::Apostrophe => {
            proof {
                lemma_parse_form_bounds(old(scanner).text_model(), old(scanner).pos());
            }
            match parse_next(scanner) {
                Ok(Some(e)) => {
                    let mut items: Vec<Expression> = Vec::new();
                    items.push(quote_symbol());
                    items.push(e);
                    let r = Expression::List(items);
                    proof {
                        let pt = parse_form(old(scanner).text_model(), old(scanner).pos());
                        assert(expr_model(r)->List_0 =~= seq![
                            ExprModel::Symbol(quote_name()),
                            pt->Form_e,
                        ]);
                    }
                    Ok(r)
                },
                Ok(None) => Err(ParseError::Unbalanced),
                Err(err) => Err(err),
            }
        },
        TokenKind::Number => {
            match parse_number_lexeme(&tok.lexeme) {
                Some(n) => Ok(Expression::Atom(Atom::Number(n))),
                None => Err(ParseError::MalformedNumber),
            }
        },
        TokenKind::Str => Ok(Expression::Atom(Atom::Str(tok.lexeme))),
        _ => Ok(Expression::Atom(Atom::Symbol(tok.lexeme))),
    }
}

/// Parse list elements until the matching `)`.
fn parse_list(scanner: &mut StringScanner, acc: Vec<Expression>) -> (r: Result<
    Expression,
    ParseError,
>)
    requires
        old(scanner).wf(),
    ensures
        final(scanner).wf(),
        final(scanner).text_model() == old(scanner).text_model(),
        match parse_items(old(scanner).text_model(), old(scanner).pos(), exprs_model(acc@)) {
            ParseOutcome::Form { e, next } => {
                &&& r is Ok
                &&& expr_model(r->Ok_0) == e
                &&& final(scanner).pos() == next
            },
            ParseOutcome::Fail { err } => r is Err && r->Err_0 == err,
            ParseOutcome::NoForm => true,
        },
    decreases old(scanner).text_model().len() - old(scanner).pos(), 1int,
{
    proof {
        lemma_scan_progress(old(scanner).text_model(), old(scanner).pos());
    }
    let ghost acc0 = exprs_model(acc@);
    let mut acc = acc;
    match scanner.scan_next_token() {
        Err(e) => {
            if e.is_end_of_input() {
                Err(ParseError::Unbalanced)
            } else {
                Err(ParseError::Lexical)
            }
        },
        Ok(()) => {
            match scanner.get_token() {
                Some(t) => {
                    if t.kind == TokenKind::RightParen {
                        let r = Expression::List(acc);
                        proof {
                            lemma_list_model(r->List_0);
                        }
                        Ok(r)
                    } else {
                        proof {
                            lemma_parse_tok_bounds(
                                old(scanner).text_model(),
                                t@.kind,
                                t@.lexeme,
                                scanner.pos(),
                            );
                        }
                        match parse_after_token(scanner, t) {
                            Ok(e) => {
                                acc.push(e);
                                proof {
                                    assert(exprs_model(acc@) =~= acc0.push(expr_model(
                                        acc@[acc@.len() - 1],
                                    )));
                                }
                                parse_list(scanner, acc)
                            },
                            Err(err) => Err(err),
                        }
                    }
                },
                None => {
                    proof {
                        assert(false);
                    }
                    Err(ParseError::Lexical)
                },
            }
        },
    }
}

} // verus!
